//! Streaming PCM WAV reader
//!
//! Only requires a stream of bytes as input. Seeking not supported.
//!
//! Not standard complete. Makes some inflexible assumptions about the format that nontheless are quite reasonable and
//! very common in .wav files in the wild. Assumptions / limitations include:
//! - All headers / metadata / information must come before the `data` chunk.
//! - Cue point and playlist chunks are ignored.
//! - Audio data must be uncompressed PCM.
//! - PCM data must be little-endian.
//! - Audio must be stereo (2 channels) or mono (1 channel)
//! - "Valid bits per sample" is equal to "bits per sample"

use crate::io::{back, front, Lent, Read, ReadExt, Skip, Take};
use crate::metadata::{tag_views, Tag, TagKind};
use crate::pcm::{PcmReader, Samples};
use crate::wav::{behind_riff, fields_of, headed, parse_headers, texts, Format};
use vstd::prelude::*;

verus! {

/// A WAV stream whose headers have been read: what they say, and the audio data.
pub struct WavStream<I> {
    pub format: Format,
    /// The title, artist and album tags of the stream.
    pub metadata: Vec<Tag>,
    pub data: I,
}

/// A stream's metadata names its title, artist and album.
pub open spec fn is_name(kind: TagKind) -> bool {
    kind is Title || kind is Artist || kind is Album
}

/// The tags that name a stream's title, artist and album.
pub open spec fn names(tags: Seq<(TagKind, Seq<char>)>) -> Seq<(TagKind, Seq<char>)>
    decreases tags.len(),
{
    if tags.len() == 0 {
        Seq::empty()
    } else {
        let before = names(tags.drop_last());
        if is_name(tags.last().0) {
            before.push(tags.last())
        } else {
            before
        }
    }
}

fn is_naming(tag: &Tag) -> (r: bool)
    ensures
        r == is_name(tag@.0),
{
    match tag {
        Tag::Title(_) => true,
        Tag::Artist(_) => true,
        Tag::Album(_) => true,
        _ => false,
    }
}

fn naming(tags: Vec<Tag>) -> (r: Vec<Tag>)
    ensures
        tag_views(r@) == names(tag_views(tags@)),
{
    let ghost all = tag_views(tags@);
    let mut tags = tags;
    let mut back_to_front: Vec<Tag> = Vec::new();
    while tags.len() > 0
        invariant
            tags@.len() <= all.len(),
            tag_views(tags@) == all.take(tags@.len() as int),
            tag_views(back_to_front@.reverse()) == all.skip(tags@.len() as int),
        decreases tags.len(),
    {
        let ghost before = tags@;
        let ghost moved = back_to_front@;
        match tags.pop() {
            Some(tag) => {
                back_to_front.push(tag);
                proof {
                    let n = tags@.len() as int;
                    assert(tag_views(before)[n] == all.take(n + 1)[n]);
                    assert(tag_views(tags@) =~= all.take(n)) by {
                        assert forall|i: int| 0 <= i < n implies tag_views(tags@)[i] == all.take(n)[i] by {
                            assert(tag_views(before)[i] == all.take(n + 1)[i]);
                        }
                    }
                    assert(back_to_front@.reverse() =~= seq![tag] + moved.reverse());
                    assert(tag_views(back_to_front@.reverse()) =~= seq![tag@] + tag_views(moved.reverse()));
                    assert(seq![tag@] + all.skip(n + 1) =~= all.skip(n));
                }
            },
            None => {},
        }
    }
    let mut r: Vec<Tag> = Vec::new();
    let ghost mut done: int = 0;
    assert(tag_views(r@) =~= names(all.take(0)));
    assert(all.skip(0) =~= all);
    while back_to_front.len() > 0
        invariant
            0 <= done <= all.len(),
            tag_views(back_to_front@.reverse()) == all.skip(done),
            tag_views(r@) == names(all.take(done)),
        decreases back_to_front.len(),
    {
        let ghost before = back_to_front@;
        let ghost kept = r@;
        match back_to_front.pop() {
            Some(tag) => {
                proof {
                    let rest = back_to_front@;
                    assert(before.reverse() =~= seq![tag] + rest.reverse());
                    assert(tag_views(before.reverse()) =~= seq![tag@] + tag_views(rest.reverse()));
                    assert(all.skip(done)[0] == tag@);
                    assert(all.skip(done + 1) =~= all.skip(done).skip(1));
                    assert(tag_views(rest.reverse()) =~= all.skip(done + 1));
                    assert(all.take(done + 1).drop_last() =~= all.take(done));
                    assert(all.take(done + 1).last() == tag@);
                    done = done + 1;
                }
                if is_naming(&tag) {
                    r.push(tag);
                    assert(tag_views(r@) =~= tag_views(kept).push(tag@));
                }
            },
            None => {},
        }
    }
    assert(tag_views(back_to_front@.reverse()) =~= Seq::empty());
    assert(all.take(done) =~= all);
    r
}

/// What a file holds as a stream: its format, and its audio data, which may run on behind what the RIFF
/// header covers.
pub open spec fn streamed(s: Seq<u8>) -> Option<(Format, Seq<u8>)> {
    match headed(s) {
        Some((format, rest)) => Some((format, front(rest + behind_riff(s), format.size as int))),
        None => None,
    }
}

impl<I: Skip> WavStream<Take<I>> {
    /// Reads the headers of a stream, up to its audio data. A text is kept whole, whatever its length.
    pub fn parse(inp: I) -> (wav: Option<Self>)
        ensures
            match wav {
                Some(wav) => {
                    &&& streamed(inp.rest()) == Some((wav.format, wav.data.rest()))
                    &&& wav.data.broken() == (inp.broken() && wav.data.rest().len() < wav.format.size)
                    &&& tag_views(wav.metadata@) == names(
                        texts(fields_of(inp.rest()), usize::MAX as int),
                    )
                },
                None => streamed(inp.rest()) is None,
            },
    {
        let mut tags: Vec<Tag> = Vec::new();
        let ghost none = tag_views(tags@);
        assert(none =~= Seq::empty());
        let (format, window) = match parse_headers(inp, usize::MAX, &mut tags) {
            Some(found) => found,
            None => return None,
        };
        proof {
            let texts = texts(fields_of(inp.rest()), usize::MAX as int);
            assert(none + texts =~= texts);
        }
        let Take { reader, count } = window;
        proof {
            let rest = reader.rest();
            assert(front(rest, count as int) + back(rest, count as int) =~= rest);
            assert(window.beyond()[0] == back(rest, count as int));
            assert(window.faults()[0] == reader.broken());
            assert(window.beyond()[0] == behind_riff(inp.rest()));
        }
        let data: Take<I> = reader.take(format.size);
        Some(WavStream { format, metadata: naming(tags), data })
    }

    /// The samples of the stream, where they are stored in a format that can be read one by one: 16-bit
    /// stereo. The stream is lent for as long as they are read.
    pub fn format_samples(&mut self) -> (samples: Option<Samples<Lent<'_, Take<I>>>>)
        ensures
            final(self).format == old(self).format,
            final(self).metadata == old(self).metadata,
            samples is Some <==> !old(self).format.float && old(self).format.bits_per_sample == 16 && old(self).format.n_channels
                == 2,
            match samples {
                Some(samples) => {
                    &&& *samples.data().0 == old(self).data
                    &&& final(self).data == *final(samples.data().0)
                },
                None => final(self).data == old(self).data,
            },
    {
        match (self.format.float, self.format.bits_per_sample, self.format.n_channels) {
            (false, 16, 2) => Some(Samples::StereoS16(PcmReader::new(Lent(&mut self.data)))),
            _ => None,
        }
    }
}

/// The names of a stream are its title, artist and album tags, in their order, and no others.
pub proof fn law_names_are_title_artist_and_album(tags: Seq<(TagKind, Seq<char>)>)
    ensures
        names(tags) == tags.filter(
            |tag: (TagKind, Seq<char>)|
                tag.0 == TagKind::Title || tag.0 == TagKind::Artist || tag.0 == TagKind::Album,
        ),
    decreases tags.len(),
{
    reveal(Seq::filter);
    if tags.len() > 0 {
        law_names_are_title_artist_and_album(tags.drop_last());
    }
}

} // verus!
