//! What a library keeps of a file's tags.
//!
//! Albums are what the tags say, not what the directory layout says: tracks group by (album
//! artist, album title) -- the ALBUMARTIST tag, or the track's own artist without one -- wherever
//! their files live in the pool. So a multi-disc album split over `CD1`/`CD2` directories is one
//! album, and two same-named albums by different artists are two even side by side in one
//! directory. The flip side is deliberate: a compilation without ALBUMARTIST tags fragments into
//! per-artist albums -- maintaining that tag is the library's job, not ours to guess from paths.

use crate::io::{back, Seek, Skippable, Take};
use crate::metadata::{tag_views, Tag, TagKind};
use crate::opus::{opening_of, opening_tags, Headers};
use crate::path::{file_stem, file_stem_of, hash_text, text_writes};
use crate::text::chars_of;
use crate::track::{container_of, is_magic, Container};
use crate::wav::{opened, tags_of, Wav};
use std::borrow::ToOwned;
use std::collections::hash_map::DefaultHasher;
use std::hash::Hasher;
use vstd::prelude::*;
use vstd::std_specs::hash::DefaultHasherAdditionalSpecFns;
use vstd::string::*;

verus! {

/// A decimal digit.
pub open spec fn is_digit(c: char) -> bool {
    '0' <= c <= '9'
}

/// How many digits a text begins with, from the `k`-th character on.
pub open spec fn digits_from(s: Seq<char>, k: int) -> int
    decreases s.len() - k,
{
    if k < s.len() && is_digit(s[k]) {
        digits_from(s, k + 1)
    } else {
        k
    }
}

/// The number that the first `n` characters of a text write.
pub open spec fn value_of(s: Seq<char>, n: int) -> int
    decreases n,
{
    if n <= 0 {
        0
    } else {
        value_of(s, n - 1) * 10 + (s[n - 1] as u32 - '0' as u32)
    }
}

/// The number that a text begins with.
pub open spec fn number_of(s: Seq<char>) -> Option<u32> {
    let n = digits_from(s, 0);
    if n == 0 || value_of(s, n) > u32::MAX {
        None
    } else {
        Some(value_of(s, n) as u32)
    }
}

proof fn lemma_value_grows(s: Seq<char>, m: int, n: int)
    requires
        0 <= m <= n <= s.len(),
        forall|k: int| 0 <= k < n ==> is_digit(#[trigger] s[k]),
    ensures
        0 <= value_of(s, m) <= value_of(s, n),
    decreases n,
{
    if m < n {
        lemma_value_grows(s, m, n - 1);
        assert(is_digit(s[n - 1]));
    } else if n > 0 {
        lemma_value_grows(s, n - 1, n - 1);
        assert(is_digit(s[n - 1]));
    }
}

proof fn lemma_digits(s: Seq<char>, k: int)
    requires
        0 <= k <= s.len(),
    ensures
        k <= digits_from(s, k) <= s.len(),
        forall|j: int| k <= j < digits_from(s, k) ==> is_digit(#[trigger] s[j]),
    decreases s.len() - k,
{
    if k < s.len() && is_digit(s[k]) {
        lemma_digits(s, k + 1);
    }
}

/// Parses a track or disc number leniently: its leading digits, so the "3/12" (position of total)
/// values some taggers write read as 3. No digits (or an overflowing count) is no number.
pub fn number(s: &str) -> (n: Option<u32>)
    ensures
        n == number_of(s@),
{
    let chars: Vec<char> = chars_of(s);
    let mut value: u64 = 0;
    let mut k: usize = 0;
    proof {
        lemma_digits(s@, 0);
    }
    while k < chars.len() && '0' <= chars[k] && chars[k] <= '9'
        invariant
            k <= chars.len(),
            chars@ == s@,
            digits_from(s@, 0) == digits_from(s@, k as int),
            digits_from(s@, 0) <= s@.len(),
            forall|j: int| 0 <= j < digits_from(s@, 0) ==> is_digit(#[trigger] s@[j]),
            k <= digits_from(s@, 0),
            value == value_of(s@, k as int),
            value <= u32::MAX,
        decreases chars.len() - k,
    {
        let digit: u64 = chars[k] as u64 - '0' as u64;
        value = value * 10 + digit;
        k = k + 1;
        proof {
            lemma_digits(s@, k as int);
        }
        if value > u32::MAX as u64 {
            proof {
                lemma_value_grows(s@, k as int, digits_from(s@, 0));
            }
            return None;
        }
    }
    if k == 0 {
        None
    } else {
        Some(value as u32)
    }
}

/// A file's tags, collected from what the parsers hand over. A repeated tag overwrites: the last
/// occurrence wins, matching most players' reading of multi-value vorbis comments.
#[derive(Debug, Clone)]
pub struct FileTags {
    pub title: String,
    pub artist: String,
    pub album: String,
    pub album_artist: String,
    pub genre: String,
    pub track: Option<u32>,
    pub disc: Option<u32>,
    /// The year that the date begins with.
    pub year: Option<u32>,
}

/// A file's tags by their texts.
pub struct FileTagsView {
    pub title: Seq<char>,
    pub artist: Seq<char>,
    pub album: Seq<char>,
    pub album_artist: Seq<char>,
    pub genre: Seq<char>,
    pub track: Option<u32>,
    pub disc: Option<u32>,
    pub year: Option<u32>,
}

impl View for FileTags {
    type V = FileTagsView;

    open spec fn view(&self) -> FileTagsView {
        FileTagsView {
            title: self.title@,
            artist: self.artist@,
            album: self.album@,
            album_artist: self.album_artist@,
            genre: self.genre@,
            track: self.track,
            disc: self.disc,
            year: self.year,
        }
    }
}

/// The tags of a file that has none.
pub open spec fn no_tags() -> FileTagsView {
    FileTagsView {
        title: Seq::empty(),
        artist: Seq::empty(),
        album: Seq::empty(),
        album_artist: Seq::empty(),
        genre: Seq::empty(),
        track: None,
        disc: None,
        year: None,
    }
}

impl FileTagsView {
    /// The tags with one more.
    pub open spec fn with(self, tag: (TagKind, Seq<char>)) -> FileTagsView {
        match tag.0 {
            TagKind::Title => FileTagsView { title: tag.1, ..self },
            TagKind::Artist => FileTagsView { artist: tag.1, ..self },
            TagKind::Album => FileTagsView { album: tag.1, ..self },
            TagKind::AlbumArtist => FileTagsView { album_artist: tag.1, ..self },
            TagKind::Genre => FileTagsView { genre: tag.1, ..self },
            TagKind::TrackNumber => FileTagsView { track: number_of(tag.1), ..self },
            TagKind::DiscNumber => FileTagsView { disc: number_of(tag.1), ..self },
            TagKind::Date => FileTagsView { year: number_of(tag.1), ..self },
        }
    }
}

/// The tags of a file, given all that its parser handed over.
pub open spec fn collected(tags: Seq<(TagKind, Seq<char>)>) -> FileTagsView
    decreases tags.len(),
{
    if tags.len() == 0 {
        no_tags()
    } else {
        collected(tags.drop_last()).with(tags.last())
    }
}

impl Default for FileTags {
    fn default() -> (tags: Self)
        ensures
            tags@ == no_tags(),
    {
        let tags = FileTags {
            title: String::new(),
            artist: String::new(),
            album: String::new(),
            album_artist: String::new(),
            genre: String::new(),
            track: None,
            disc: None,
            year: None,
        };
        assert(tags.title@ =~= Seq::empty());
        assert(tags.artist@ =~= Seq::empty());
        assert(tags.album@ =~= Seq::empty());
        assert(tags.album_artist@ =~= Seq::empty());
        assert(tags.genre@ =~= Seq::empty());
        tags
    }
}

impl FileTags {
    pub fn set(&mut self, tag: Tag)
        ensures
            final(self)@ == old(self)@.with(tag@),
    {
        match tag {
            Tag::Title(s) => self.title = s,
            Tag::Artist(s) => self.artist = s,
            Tag::Album(s) => self.album = s,
            Tag::AlbumArtist(s) => self.album_artist = s,
            Tag::Genre(s) => self.genre = s,
            Tag::TrackNumber(s) => self.track = number(s.as_str()),
            Tag::DiscNumber(s) => self.disc = number(s.as_str()),
            Tag::Date(s) => self.year = number(s.as_str()),
        }
    }
}

/// The tags of a file; none where it cannot be played.
pub open spec fn file_tags_of(file: Seq<u8>) -> Option<FileTagsView> {
    match container_of(file) {
        Some(Container::Wav) => if opened(file) is Some {
            Some(collected(tags_of(file)))
        } else {
            None
        },
        Some(Container::Ogg) => if opening_of(file) is Some {
            Some(collected(opening_tags(file)))
        } else {
            None
        },
        None => None,
    }
}

fn collect(tags: Vec<Tag>) -> (r: FileTags)
    ensures
        r@ == collected(tag_views(tags@)),
{
    let ghost all = tag_views(tags@);
    let mut tags = tags;
    // Turned over, so that they come off in their order.
    let mut turned: Vec<Tag> = Vec::new();
    while tags.len() > 0
        invariant
            tag_views(tags@) == all.take(tags.len() as int),
            tags.len() <= all.len(),
            turned.len() == all.len() - tags.len(),
            forall|k: int| 0 <= k < turned.len() ==> (#[trigger] turned@[k])@ == all[all.len() - 1 - k],
        decreases tags.len(),
    {
        let ghost n = tags.len() - 1;
        assert(tag_views(tags@)[n as int] == tags@[n as int]@);
        if let Some(tag) = tags.pop() {
            turned.push(tag);
        }
        assert(tag_views(tags@) =~= all.take(tags.len() as int));
    }
    let mut r = FileTags::default();
    assert(all.take(0) =~= Seq::empty());
    while turned.len() > 0
        invariant
            turned.len() <= all.len(),
            forall|k: int| 0 <= k < turned.len() ==> (#[trigger] turned@[k])@ == all[all.len() - 1 - k],
            r@ == collected(all.take(all.len() - turned.len())),
        decreases turned.len(),
    {
        let ghost n = all.len() - turned.len();
        assert(all.take(n + 1).drop_last() =~= all.take(n));
        if let Some(tag) = turned.pop() {
            r.set(tag);
        }
    }
    assert(all.take(all.len() as int) =~= all);
    r
}

/// Reads the tags of a file.
pub fn read_tags<R: Seek>(file: R) -> (tags: Option<FileTags>)
    ensures
        match tags {
            Some(tags) => file_tags_of(file.whole()) == Some(tags@),
            None => file_tags_of(file.whole()) is None,
        },
{
    let ghost whole = file.whole();
    let mut file = file;
    file.seek(0);
    assert(back(whole, 0) =~= whole);
    let magic: Vec<u8> = match file.read(4) {
        Some(magic) => magic,
        None => return None,
    };
    if magic.len() < 4 {
        return None;
    }
    file.seek(0);
    assert(magic@ =~= whole.take(4));
    let mut tags: Vec<Tag> = Vec::new();
    assert(tag_views(tags@) =~= Seq::empty());
    if is_magic(&magic, "RIFF") {
        let wav: Option<Wav<Take<Skippable<R>>>> = Wav::parse(Skippable(file), &mut tags);
        if wav.is_none() {
            return None;
        }
        assert(tag_views(tags@) =~= tags_of(whole));
        Some(collect(tags))
    } else if is_magic(&magic, "OggS") {
        let headers: Option<Headers> = Headers::parse(&mut file, &mut tags);
        assert(tag_views(tags@) =~= opening_tags(whole));
        if headers.is_none() {
            return None;
        }
        Some(collect(tags))
    } else {
        None
    }
}

/// When a file was last changed, as its file system has it.
#[derive(Debug, Clone, Copy, PartialEq, Eq, Structural)]
pub struct Mtime {
    pub secs: i64,
    pub nanos: u32,
}

/// One tag cache entry; valid for a file as long as its mtime and size still match.
#[derive(Debug, Clone)]
pub struct CacheEntry {
    pub mtime: Mtime,
    pub size: u64,
    pub title: String,
    pub artist: String,
    pub album: String,
    /// Empty when the file carries no ALBUMARTIST tag.
    pub album_artist: String,
    /// Empty when the file carries no genre tag.
    pub genre: String,
    /// The track's position within its album, when tagged (parsed leniently -- see [`number`]).
    pub track: Option<u32>,
    /// The disc the track belongs to on a multi-disc album, when tagged.
    pub disc: Option<u32>,
    /// The year that the track's date begins with, when tagged.
    pub year: Option<u32>,
}

impl CacheEntry {
    /// The same entry.
    pub fn copy(&self) -> (e: CacheEntry)
        ensures
            e == *self,
    {
        CacheEntry {
            mtime: self.mtime,
            size: self.size,
            title: self.title.clone(),
            artist: self.artist.clone(),
            album: self.album.clone(),
            album_artist: self.album_artist.clone(),
            genre: self.genre.clone(),
            track: self.track,
            disc: self.disc,
            year: self.year,
        }
    }
}

/// What is kept of a file's tags, fallbacks applied: an untagged title is the file's stem, an untagged
/// album is "Singles".
pub open spec fn resolves(entry: CacheEntry, tags: FileTagsView, stem: Option<Seq<char>>, mtime: Mtime, size: u64) -> bool {
    &&& entry.mtime == mtime
    &&& entry.size == size
    &&& entry.title@ == (if tags.title.len() == 0 {
        match stem {
            Some(stem) => stem,
            None => Seq::empty(),
        }
    } else {
        tags.title
    })
    &&& entry.artist@ == (if tags.artist.len() == 0 {
        "Unknown Artist"@
    } else {
        tags.artist
    })
    &&& entry.album@ == (if tags.album.len() == 0 {
        "Singles"@
    } else {
        tags.album
    })
    &&& entry.album_artist@ == tags.album_artist
    &&& entry.genre@ == tags.genre
    &&& entry.track == tags.track
    &&& entry.disc == tags.disc
    &&& entry.year == tags.year
}

fn or_text(s: String, fallback: String) -> (r: String)
    ensures
        r@ == (if s@.len() == 0 {
            fallback@
        } else {
            s@
        }),
{
    if s.as_str().unicode_len() == 0 {
        fallback
    } else {
        s
    }
}

/// What is kept of a file's tags, given the stem of its name. An untagged album is "Singles":
/// an artist's loose tracks pool into one album of theirs, wherever the files sit.
pub fn resolve(tags: FileTags, stem: Option<String>, mtime: Mtime, size: u64) -> (entry: CacheEntry)
    ensures
        resolves(entry, tags@, crate::text::opt_text(stem), mtime, size),
{
    let stem: String = match stem {
        Some(stem) => stem,
        None => {
            let none = String::new();
            assert(none@ =~= Seq::empty());
            none
        },
    };
    CacheEntry {
        mtime,
        size,
        title: or_text(tags.title, stem),
        artist: or_text(tags.artist, "Unknown Artist".to_owned()),
        album: or_text(tags.album, "Singles".to_owned()),
        album_artist: tags.album_artist,
        genre: tags.genre,
        track: tags.track,
        disc: tags.disc,
        year: tags.year,
    }
}

/// What is kept of the tags of the file at `path`.
pub fn resolve_at(tags: FileTags, path: &str, mtime: Mtime, size: u64) -> (entry: CacheEntry)
    ensures
        resolves(entry, tags@, file_stem_of(path@), mtime, size),
{
    let stem: Option<String> = file_stem(path);
    resolve(tags, stem, mtime, size)
}

/// The artist that an album goes by.
pub open spec fn album_byline(entry: CacheEntry) -> String {
    if entry.album_artist@.len() == 0 {
        entry.artist
    } else {
        entry.album_artist
    }
}

/// The identity a track's album groups by -- and the album's displayed byline: `(artist, album
/// title)`, where the artist is the ALBUMARTIST tag when present, else the track's own artist.
/// The directory plays no part: same key means same album wherever the files live.
pub fn album_key(entry: &CacheEntry) -> (key: (&String, &String))
    ensures
        *key.0 == album_byline(*entry),
        *key.1 == entry.album,
{
    if entry.album_artist.as_str().unicode_len() == 0 {
        (&entry.artist, &entry.album)
    } else {
        (&entry.album_artist, &entry.album)
    }
}

/// The identity of an album by its artist and title: a hash of both.
pub open spec fn id_of_names(artist: Seq<char>, album: Seq<char>) -> u64 {
    DefaultHasher::spec_finish(text_writes(artist) + text_writes(album))
}

/// The stable album id of a track.
pub open spec fn id_of(entry: CacheEntry) -> u64 {
    id_of_names(album_byline(entry)@, entry.album@)
}

/// A stable hash-based identity for albums.
pub fn stable_id(artist: &str, album: &str) -> (id: u64)
    ensures
        id == id_of_names(artist@, album@),
{
    let mut hasher: DefaultHasher = DefaultHasher::new();
    hash_text(&mut hasher, artist);
    hash_text(&mut hasher, album);
    assert(hasher@ =~= text_writes(artist@) + text_writes(album@));
    hasher.finish()
}

/// The stable album id: [`album_key`], hashed.
pub fn album_id(entry: &CacheEntry) -> (id: u64)
    ensures
        id == id_of(*entry),
{
    let (artist, album) = album_key(entry);
    stable_id(artist.as_str(), album.as_str())
}

/// An album is what the tags say: tracks with the same album title and album artist are of one album,
/// whoever is credited for each of them.
pub proof fn law_the_album_artist_binds_a_compilation(a: CacheEntry, b: CacheEntry)
    requires
        a.album@ == b.album@,
        a.album_artist@ == b.album_artist@,
        a.album_artist@.len() > 0,
    ensures
        id_of(a) == id_of(b),
{
}

/// Of a repeated tag, the last occurrence wins.
pub proof fn law_the_last_tag_wins(tags: Seq<(TagKind, Seq<char>)>, kind: TagKind, first: Seq<char>, last: Seq<char>)
    ensures
        collected(tags.push((kind, first)).push((kind, last))) == collected(tags.push((kind, last))),
{
    let both = tags.push((kind, first)).push((kind, last));
    assert(both.drop_last() =~= tags.push((kind, first)));
    assert(tags.push((kind, first)).drop_last() =~= tags);
    assert(tags.push((kind, last)).drop_last() =~= tags);
    reveal_with_fuel(collected, 3);
}

/// Each tag goes to its own field, and the last one of its kind counts: what is collected of a kind is the text
/// of the last tag of that kind, or the number that it begins with.
pub proof fn law_each_tag_has_its_field(tags: Seq<(TagKind, Seq<char>)>, k: int)
    requires
        0 <= k < tags.len(),
        forall|l: int| k < l < tags.len() ==> (#[trigger] tags[l]).0 != tags[k].0,
    ensures
        ({
            let all = collected(tags);
            let text = tags[k].1;
            match tags[k].0 {
                TagKind::Title => all.title == text,
                TagKind::Artist => all.artist == text,
                TagKind::Album => all.album == text,
                TagKind::AlbumArtist => all.album_artist == text,
                TagKind::Genre => all.genre == text,
                TagKind::TrackNumber => all.track == number_of(text),
                TagKind::DiscNumber => all.disc == number_of(text),
                TagKind::Date => all.year == number_of(text),
            }
        }),
    decreases tags.len(),
{
    if k < tags.len() - 1 {
        let before = tags.drop_last();
        assert(tags[tags.len() - 1].0 != tags[k].0);
        assert forall|l: int| k < l < before.len() implies (#[trigger] before[l]).0 != before[k].0 by {
            assert(before[l] == tags[l]);
        }
        law_each_tag_has_its_field(before, k);
    }
}

/// A kind that no tag is of is left empty.
pub proof fn law_untagged_fields_are_empty(tags: Seq<(TagKind, Seq<char>)>, kind: TagKind)
    requires
        forall|l: int| 0 <= l < tags.len() ==> (#[trigger] tags[l]).0 != kind,
    ensures
        ({
            let all = collected(tags);
            match kind {
                TagKind::Title => all.title.len() == 0,
                TagKind::Artist => all.artist.len() == 0,
                TagKind::Album => all.album.len() == 0,
                TagKind::AlbumArtist => all.album_artist.len() == 0,
                TagKind::Genre => all.genre.len() == 0,
                TagKind::TrackNumber => all.track is None,
                TagKind::DiscNumber => all.disc is None,
                TagKind::Date => all.year is None,
            }
        }),
    decreases tags.len(),
{
    if tags.len() > 0 {
        let before = tags.drop_last();
        assert(tags[tags.len() - 1].0 != kind);
        assert forall|l: int| 0 <= l < before.len() implies (#[trigger] before[l]).0 != kind by {
            assert(before[l] == tags[l]);
        }
        law_untagged_fields_are_empty(before, kind);
    }
}

proof fn lemma_all_digits(s: Seq<char>, k: int, n: int)
    requires
        0 <= k <= n <= s.len(),
        forall|j: int| k <= j < n ==> '0' <= #[trigger] s[j] <= '9',
        n == s.len() || !('0' <= s[n] <= '9'),
    ensures
        digits_from(s, k) == n,
    decreases n - k,
{
    if k < n {
        assert('0' <= s[k] <= '9');
        lemma_all_digits(s, k + 1, n);
    }
}

proof fn lemma_value_alike(a: Seq<char>, b: Seq<char>, n: int)
    requires
        n <= a.len(),
        n <= b.len(),
        forall|j: int| 0 <= j < n ==> a[j] == b[j],
    ensures
        value_of(a, n) == value_of(b, n),
    decreases n,
{
    if n > 0 {
        lemma_value_alike(a, b, n - 1);
    }
}

/// A text that begins with digits is the number that they write, whatever follows them: one more digit makes it
/// ten times as much and the digit, as long as that can be held.
pub proof fn law_numbers_are_read_digit_by_digit(digits: Seq<char>, d: int, rest: Seq<char>)
    requires
        forall|j: int| 0 <= j < digits.len() ==> '0' <= #[trigger] digits[j] <= '9',
        0 <= d < 10,
        rest.len() == 0 || !('0' <= rest[0] <= '9'),
        digits.len() > 0 ==> number_of(digits) is Some,
    ensures
        ({
            let c = seq!['0', '1', '2', '3', '4', '5', '6', '7', '8', '9'][d];
            let text = digits.push(c) + rest;
            let value = if digits.len() > 0 {
                number_of(digits)->0 * 10 + d
            } else {
                d
            };
            number_of(text) == if value <= u32::MAX {
                Some(value as u32)
            } else {
                None
            }
        }),
        number_of(rest) is None,
{
    let c = seq!['0', '1', '2', '3', '4', '5', '6', '7', '8', '9'][d];
    let text = digits.push(c) + rest;
    let n = digits.len() as int;
    lemma_all_digits(digits, 0, n);
    assert forall|j: int| 0 <= j < n + 1 implies '0' <= #[trigger] text[j] <= '9' by {
        if j < n {
            assert(text[j] == digits[j]);
        }
    }
    lemma_all_digits(text, 0, n + 1);
    lemma_value_alike(text, digits, n);
    lemma_value_grows(digits, 0, n);
    assert(text[n] == c);
    assert(c as u32 - '0' as u32 == d);
}

/// What is kept of a file is what it is tagged with; without a title it goes by the stem of its name, without an
/// artist by "Unknown Artist", and without an album it is one of the "Singles".
pub proof fn law_tags_are_kept_as_they_are(entry: CacheEntry, tags: FileTagsView, stem: Option<Seq<char>>, mtime: Mtime, size: u64)
    requires
        resolves(entry, tags, stem, mtime, size),
    ensures
        tags.title.len() > 0 ==> entry.title@ == tags.title,
        tags.title.len() == 0 && stem is Some ==> entry.title@ == stem->0,
        tags.artist.len() > 0 ==> entry.artist@ == tags.artist,
        tags.artist.len() == 0 ==> entry.artist@ == "Unknown Artist"@,
        tags.album.len() > 0 ==> entry.album@ == tags.album,
        tags.album.len() == 0 ==> entry.album@ == "Singles"@,
        entry.album_artist@ == tags.album_artist,
        entry.genre@ == tags.genre,
        entry.track == tags.track,
        entry.disc == tags.disc,
        entry.year == tags.year,
        entry.mtime == mtime && entry.size == size,
{
}

/// An album goes by its album artist, or by the track's artist where there is none; tracks without an album
/// artist are of one album where their artist and album agree, wherever the files are.
pub proof fn law_tracks_group_by_artist_and_album(a: CacheEntry, b: CacheEntry)
    requires
        a.album_artist@.len() == 0,
        b.album_artist@.len() == 0,
        a.artist@ == b.artist@,
        a.album@ == b.album@,
    ensures
        id_of(a) == id_of(b),
        album_byline(a) == a.artist,
{
}

/// The byline of an album is its album artist, where it has one.
pub proof fn law_the_album_artist_is_the_byline(entry: CacheEntry)
    requires
        entry.album_artist@.len() > 0,
    ensures
        album_byline(entry) == entry.album_artist,
{
}

/// What an album is known by is its artist and its title, one after the other and each with its end.
pub proof fn law_an_album_is_known_by_artist_and_title(entry: CacheEntry)
    ensures
        ({
            let artist = if entry.album_artist@.len() > 0 {
                entry.album_artist@
            } else {
                entry.artist@
            };
            id_of(entry) == DefaultHasher::spec_finish(
                seq![
                    vstd::utf8::encode_utf8(artist),
                    crate::path::end_of_text(),
                    vstd::utf8::encode_utf8(entry.album@),
                    crate::path::end_of_text(),
                ],
            )
        }),
{
    let artist = album_byline(entry)@;
    assert(text_writes(artist) + text_writes(entry.album@) =~= seq![
        vstd::utf8::encode_utf8(artist),
        crate::path::end_of_text(),
        vstd::utf8::encode_utf8(entry.album@),
        crate::path::end_of_text(),
    ]);
}

} // verus!
