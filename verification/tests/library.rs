use phonoscule::assembler::{cover_id, Assembler, DirCover, Tagged};
use phonoscule::cache::{load_cache, load_index, save_index, AlbumIndex, Cache, CACHE_VERSION, INDEX_VERSION};
use phonoscule::drive::{batch, DirTags, Emission, Scan};
use phonoscule::io::Cursor;
use phonoscule::library::{Album, CoverArt, Rgb, TrackInfo};
use phonoscule::scan::{classify, job_order, AudioFile, CoverFile, DirJob, FileKind};
use phonoscule::tags::{album_id, number, read_tags, CacheEntry, Mtime};

/// The album index round-trips everything but the runtime-only cover art.
#[test]
fn album_index_roundtrip() {
    let albums = vec![Album {
        id: 7,
        title: "One".into(),
        artist: "Artist".into(),
        genre: "Genre".into(),
        year: Some(1999),
        cover_id: Some(9),
        cover: Some(CoverArt { id: 9, file: "/x/one/cover.jpg".into(), accent: Rgb { r: 1, g: 2, b: 3 } }),
        accent: Some(Rgb { r: 64, g: 128, b: 192 }),
        tracks: vec![TrackInfo { path: "/x/one/1.opus".into(), title: "First".into() }],
    }];
    let index = save_index(&albums);
    assert_eq!(index.version, INDEX_VERSION);
    let loaded = load_index(Some(index));
    let album = &albums[0];
    assert_eq!(loaded.len(), 1);
    assert_eq!(loaded[0].id, album.id);
    assert_eq!(loaded[0].title, album.title);
    assert_eq!(loaded[0].artist, album.artist);
    assert_eq!(loaded[0].genre, album.genre);
    assert_eq!(loaded[0].year, album.year);
    assert_eq!(loaded[0].cover_id, album.cover_id);
    assert_eq!(loaded[0].tracks, album.tracks);
    assert_eq!(loaded[0].accent, album.accent, "the accent color round-trips");
    assert!(loaded[0].cover.is_none(), "covers are runtime-only");
}

#[test]
fn an_old_or_missing_index_is_an_empty_library() {
    assert!(load_index(None).is_empty());
    let mut index = save_index(&vec![]);
    index.version = INDEX_VERSION - 1;
    index.albums = save_index(&vec![]).albums;
    assert!(load_index(Some(AlbumIndex { version: 2, albums: index.albums })).is_empty());
}

#[test]
fn an_old_cache_is_not_used() {
    let entry = entry("t", "a", "b");
    let files = || vec![Tagged { path: "/m/a.wav".into(), entry: entry.copy() }];
    let cache = load_cache(Some(Cache::new(files())));
    assert_eq!(cache.get("/m/a.wav").map(|e| e.title.as_str()), Some("t"));
    assert!(cache.get("/m/b.wav").is_none());
    assert!(load_cache(Some(Cache { version: CACHE_VERSION - 1, files: files() })).files.is_empty());
    assert!(load_cache(None).files.is_empty());
}

fn entry(title: &str, artist: &str, album: &str) -> CacheEntry {
    CacheEntry {
        mtime: Mtime { secs: 0, nanos: 0 },
        size: 0,
        title: title.into(),
        artist: artist.into(),
        album: album.into(),
        album_artist: String::new(),
        genre: String::new(),
        track: None,
        disc: None,
        year: None,
    }
}

/// A minimal valid WAV: 48 kHz stereo 16-bit PCM silence with LIST-INFO tags.
fn wav_bytes(title: &str, artist: &str, album: &str, track: Option<u32>) -> Vec<u8> {
    fn chunk(id: &[u8; 4], body: &[u8]) -> Vec<u8> {
        let mut out = Vec::with_capacity(8 + body.len() + 1);
        out.extend(id);
        out.extend((body.len() as u32).to_le_bytes());
        out.extend(body);
        if body.len() % 2 == 1 {
            out.push(0); // chunks are padded to even sizes
        }
        out
    }
    fn info(id: &[u8; 4], value: &str) -> Vec<u8> {
        chunk(id, &[value.as_bytes(), b"\0"].concat())
    }
    let mut fmt = Vec::new();
    fmt.extend(1u16.to_le_bytes()); // WAVE_FORMAT_PCM
    fmt.extend(2u16.to_le_bytes()); // channels
    fmt.extend(48000u32.to_le_bytes()); // blocks per second
    fmt.extend((48000u32 * 4).to_le_bytes()); // avg bytes per second
    fmt.extend(4u16.to_le_bytes()); // block size
    fmt.extend(16u16.to_le_bytes()); // bits per sample
    let mut list =
        [&b"INFO"[..], &info(b"INAM", title), &info(b"IART", artist), &info(b"IPRD", album), &info(b"IGNR", "Test Genre")]
            .concat();
    if let Some(track) = track {
        list.extend(info(b"ITRK", &track.to_string()));
    }
    let riff = [&b"WAVE"[..], &chunk(b"fmt ", &fmt), &chunk(b"LIST", &list), &chunk(b"data", &[0u8; 4800])].concat();
    let mut out = Vec::new();
    out.extend(b"RIFF");
    out.extend((riff.len() as u32).to_le_bytes());
    out.extend(riff);
    out
}

/// A minimal Ogg Opus stream: the two header packets -- with the given vorbis comments --
/// and one dummy audio packet. Tags WAV's LIST-INFO can't express (ALBUMARTIST, DISCNUMBER)
/// need this.
fn opus_bytes(comments: &[(&str, &str)]) -> Vec<u8> {
    let mut head = Vec::new();
    head.extend(b"OpusHead");
    head.push(1); // version
    head.push(2); // channels
    head.extend(312u16.to_le_bytes()); // pre-skip
    head.extend(48000u32.to_le_bytes()); // input sample rate
    head.extend(0u16.to_le_bytes()); // output gain
    head.push(0); // channel mapping family 0

    let mut tags = Vec::new();
    tags.extend(b"OpusTags");
    let vendor = b"phonoscule-test";
    tags.extend((vendor.len() as u32).to_le_bytes());
    tags.extend(vendor);
    tags.extend((comments.len() as u32).to_le_bytes());
    for (key, value) in comments {
        let comment = format!("{key}={value}");
        tags.extend((comment.len() as u32).to_le_bytes());
        tags.extend(comment.as_bytes());
    }

    let serial = 0x5eed;
    let mut out = Vec::new();
    let mut writer = ogg::PacketWriter::new(std::io::Cursor::new(&mut out));
    writer.write_packet(head, serial, ogg::PacketWriteEndInfo::EndPage, 0).unwrap();
    writer.write_packet(tags, serial, ogg::PacketWriteEndInfo::EndPage, 0).unwrap();
    writer.write_packet(vec![0xfc], serial, ogg::PacketWriteEndInfo::EndStream, 960).unwrap();
    drop(writer);
    out
}

/// A file of a library that lives in memory.
struct File {
    path: String,
    bytes: Vec<u8>,
    mtime: Mtime,
}

fn file(path: &str, bytes: Vec<u8>) -> File {
    File { path: path.into(), bytes, mtime: Mtime { secs: 1, nanos: 0 } }
}

/// What a scan comes to: its reports in order, the covers it has decoded, the ids of all albums, and the
/// tags to be cached where the cache is stale.
struct Outcome {
    reports: Vec<Album>,
    covers: Vec<(u64, Vec<u64>)>,
    ids: Vec<u64>,
    fresh: Option<Vec<Tagged>>,
}

fn take(out: &mut Outcome, e: Emission) {
    for b in batch(&e.loads) {
        out.covers.push((b.id, b.albums));
    }
    out.reports.extend(e.albums);
}

/// Scans the library the way a walk over its directories would.
fn scan_library(files: &[File], cache: &Cache, priority: &[u64]) -> Outcome {
    let mut dirs: Vec<String> = files.iter().map(|f| f.path[..f.path.rfind('/').unwrap()].to_string()).collect();
    dirs.sort();
    dirs.dedup();
    let mut jobs = Vec::new();
    let mut covers = Vec::new();
    for dir in dirs {
        let mut job = DirJob::new(dir.clone());
        for f in files.iter().filter(|f| f.path[..f.path.rfind('/').unwrap()] == dir) {
            match classify(&f.path) {
                FileKind::Audio => job.add_audio(AudioFile {
                    path: f.path.clone(),
                    mtime: f.mtime,
                    size: f.bytes.len() as u64,
                    cached: cache.get(&f.path).map(|e| e.copy()),
                }),
                FileKind::Cover => job.add_cover(CoverFile { path: f.path.clone(), mtime: f.mtime }),
                FileKind::Other => (),
            }
        }
        job.finish();
        if let Some(cover) = job.cover.take() {
            covers.push(DirCover { dir: job.dir.clone(), path: cover.path, mtime: cover.mtime });
        }
        if !job.files.is_empty() {
            jobs.push(job);
        }
    }
    let order = job_order(&jobs, &priority.to_vec());
    let mut scan = Scan::start(&jobs, covers, vec![], cache.files.len());
    let mut out = Outcome { reports: vec![], covers: vec![], ids: vec![], fresh: None };
    for ix in order {
        let job = &jobs[ix];
        let mut tags = DirTags::new();
        for audio in &job.files {
            if !tags.take_cached(audio) {
                let bytes = files.iter().find(|f| f.path == audio.path).unwrap().bytes.clone();
                tags.take_read(audio, read_tags(Cursor::new(bytes)));
            }
        }
        let e = scan.dir_read(&job.dir, tags.entries, tags.parsed);
        take(&mut out, e);
    }
    let e = scan.tags_done();
    take(&mut out, e);
    let (ids, fresh) = scan.finish();
    out.ids = ids;
    out.fresh = fresh;
    out
}

/// Applies the reports the way the GUI does: upsert by album id, then retain what is there at the end.
fn scan_and_apply(albums: &mut Vec<Album>, files: &[File], cache: &mut Cache) {
    let out = scan_library(files, cache, &[]);
    for album in out.reports {
        albums.retain(|a| a.id != album.id);
        albums.push(album);
    }
    albums.retain(|a| out.ids.contains(&a.id));
    albums.sort_by(|a, b| a.title.cmp(&b.title));
    if let Some(fresh) = out.fresh {
        *cache = Cache::new(fresh);
    }
}

fn titles(album: &Album) -> Vec<&str> {
    album.tracks.iter().map(|t| t.title.as_str()).collect()
}

/// Albums are what the tags say, not what the directories say: two same-named albums by
/// different artists stay separate even side by side in one directory, and one album spread
/// over several directories assembles into one, its tracks ordered by their numbers.
#[test]
fn albums_group_by_artist_and_title_across_directories() {
    let files = [
        file("/m/pool/a.wav", wav_bytes("Neon", "FM-84", "Atlas", Some(1))),
        file("/m/pool/b.wav", wav_bytes("Wishing Wells", "Parkway Drive", "Atlas", Some(1))),
        file("/m/Spread/CD1/t.wav", wav_bytes("One", "Artist", "Spread", Some(1))),
        file("/m/Spread/CD2/t.wav", wav_bytes("Two", "Artist", "Spread", Some(2))),
    ];
    let mut albums = Vec::new();
    scan_and_apply(&mut albums, &files, &mut load_cache(None));
    let by_artist: Vec<(&str, &str, usize)> =
        albums.iter().map(|a| (a.artist.as_str(), a.title.as_str(), a.tracks.len())).collect();
    assert!(by_artist.contains(&("FM-84", "Atlas", 1)), "{by_artist:?}");
    assert!(by_artist.contains(&("Parkway Drive", "Atlas", 1)), "{by_artist:?}");
    assert!(by_artist.contains(&("Artist", "Spread", 2)), "{by_artist:?}");
    assert_eq!(albums.len(), 3);
    let spread = albums.iter().find(|a| a.title == "Spread").unwrap();
    assert_eq!(titles(spread), ["One", "Two"], "track numbers order the merged album");
}

/// A warm rescan (everything cached) reports a multi-directory album exactly once, fully
/// assembled: the tag cache predicts the album's directories, so consumers see none of the
/// partial growth a cold scan streams -- and rescans stay churn-free.
#[test]
fn warm_rescan_reports_each_album_once() {
    let files = [
        file("/m/CD1/t.wav", wav_bytes("One", "Artist", "Spread", Some(1))),
        file("/m/CD2/t.wav", wav_bytes("Two", "Artist", "Spread", Some(2))),
    ];
    // The cold scan primes the cache (its reports show the album growing).
    let cold = scan_library(&files, &load_cache(None), &[]);
    assert_eq!(cold.ids.len(), 1);
    assert_eq!(cold.reports.iter().map(|a| a.tracks.len()).collect::<Vec<_>>(), [1, 2]);
    let cache = Cache::new(cold.fresh.expect("files were parsed"));

    let warm = scan_library(&files, &cache, &[]);
    let reports: Vec<usize> = warm.reports.iter().map(|a| a.tracks.len()).collect();
    assert_eq!(reports, [2], "one report, already holding both discs' tracks");
    assert!(warm.fresh.is_none(), "nothing was parsed and nothing is gone");
}

/// What is there at the end is what was reported: on a cold scan as on a warm one, where each album is
/// reported once.
#[test]
fn a_scan_hands_out_what_it_reported() {
    let files = [
        file("/m/a/1.wav", wav_bytes("One", "Artist", "Spread", Some(1))),
        file("/m/a/x.wav", wav_bytes("Other", "Else", "Alone", None)),
        file("/m/b/2.wav", wav_bytes("Two", "Artist", "Spread", Some(2))),
        file("/m/c/3.wav", wav_bytes("Three", "Artist", "Spread", Some(3))),
        file("/m/c/y.wav", wav_bytes("More", "Third", "Last", None)),
    ];
    let cold = scan_library(&files, &load_cache(None), &[]);
    let cache = Cache::new(cold.fresh.expect("files were parsed"));
    let mut reported: Vec<u64> = cold.reports.iter().map(|a| a.id).collect();
    assert_eq!(reported.len(), 5, "the spread album grew");
    reported.sort();
    reported.dedup();
    let mut ids = cold.ids;
    ids.sort();
    assert_eq!(ids, reported);
    assert_eq!(ids.len(), 3);

    let warm = scan_library(&files, &cache, &[]);
    let mut reported: Vec<u64> = warm.reports.iter().map(|a| a.id).collect();
    reported.sort();
    let mut ids = warm.ids;
    ids.sort();
    assert_eq!(ids, reported, "each once");
}

/// ALBUMARTIST is the grouping identity (and the byline) when present: a compilation whose
/// tracks credit different artists stays one album. Without it, the same tracks would
/// fragment per artist -- the documented cost of not guessing from paths.
#[test]
fn album_artist_binds_a_compilation() {
    let track = |file_name: &str, title: &str, artist: &str, track: &str| {
        let comments = [
            ("TITLE", title),
            ("ARTIST", artist),
            ("ALBUMARTIST", "Various Artists"),
            ("ALBUM", "Sampler"),
            ("TRACKNUMBER", track),
        ];
        file(&format!("/m/{file_name}"), opus_bytes(&comments))
    };
    let files = [track("1.opus", "Opener", "First Act", "1"), track("2.opus", "Closer", "Second Act", "2")];
    let mut albums = Vec::new();
    scan_and_apply(&mut albums, &files, &mut load_cache(None));
    assert_eq!(albums.len(), 1);
    assert_eq!(albums[0].artist, "Various Artists");
    assert_eq!(titles(&albums[0]), ["Opener", "Closer"]);
}

/// An artist's untagged loose tracks pool into one "Singles" album, wherever the files sit.
#[test]
fn untagged_albums_pool_into_singles() {
    let files = [
        file("/m/here/t.wav", wav_bytes("Loosie", "Artist", "", None)),
        file("/m/there/deeper/t.wav", wav_bytes("Another", "Artist", "", None)),
    ];
    let mut albums = Vec::new();
    scan_and_apply(&mut albums, &files, &mut load_cache(None));
    assert_eq!(albums.len(), 1);
    assert_eq!(albums[0].title, "Singles");
    assert_eq!(albums[0].artist, "Artist");
    assert_eq!(titles(&albums[0]), ["Another", "Loosie"], "no numbers: titles order the pool");
}

/// Tracks order by their tags: track number first, title for the untagged rest -- never by
/// the file names.
#[test]
fn tracks_order_by_their_tags() {
    let files: Vec<File> =
        [("w.wav", "Beta", Some(2)), ("x.wav", "Alpha", Some(1)), ("y.wav", "B Side", None), ("z.wav", "A Side", None)]
            .into_iter()
            .map(|(name, title, track)| file(&format!("/m/{name}"), wav_bytes(title, "Artist", "Album", track)))
            .collect();
    let mut albums = Vec::new();
    scan_and_apply(&mut albums, &files, &mut load_cache(None));
    assert_eq!(albums.len(), 1);
    assert_eq!(titles(&albums[0]), ["Alpha", "Beta", "A Side", "B Side"]);
}

#[test]
fn cached_incremental_rescans() {
    let mut files = vec![
        file("/m/One/track.wav", wav_bytes("First Song", "Artist", "One", None)),
        file("/m/Two/track.wav", wav_bytes("Second Song", "Artist", "Two", None)),
    ];
    let mut cache = load_cache(None);

    // Initial scan populates the cache.
    let mut albums = Vec::new();
    scan_and_apply(&mut albums, &files, &mut cache);
    assert_eq!(albums.len(), 2);
    assert_eq!(albums[0].tracks[0].title, "First Song");
    assert_eq!(albums[0].genre, "Test Genre", "the genre tag reaches the album");
    assert!(!cache.files.is_empty());
    let ids = (albums[0].id, albums[1].id);

    // An unchanged rescan yields the same albums, with stable ids.
    scan_and_apply(&mut albums, &files, &mut cache);
    assert_eq!(albums.len(), 2);
    assert_eq!(ids, (albums[0].id, albums[1].id));

    // A modified file (different size => cache miss) is re-parsed.
    files[0].bytes = wav_bytes("First Song, Remastered", "Artist", "One", None);
    scan_and_apply(&mut albums, &files, &mut cache);
    assert_eq!(albums[0].tracks[0].title, "First Song, Remastered");

    // Proof the cache is trusted: an in-place edit with the same size and a restored mtime
    // is, by design, not noticed -- the cached tags remain.
    files[0].bytes = wav_bytes("Sneaky Edit Same Size!", "Artist", "One", None);
    scan_and_apply(&mut albums, &files, &mut cache);
    assert_eq!(albums[0].tracks[0].title, "First Song, Remastered");

    // A removed album disappears.
    files.pop();
    scan_and_apply(&mut albums, &files, &mut cache);
    assert_eq!(albums.len(), 1);
    assert_eq!(albums[0].title, "One");
}

#[test]
fn prioritized_directories_are_read_first() {
    let files = [
        file("/m/a/t.wav", wav_bytes("A", "Abba", "First", None)),
        file("/m/b/t.wav", wav_bytes("B", "Zappa", "Second", None)),
    ];
    let cache = Cache::new(scan_library(&files, &load_cache(None), &[]).fresh.unwrap());
    let order = |priority: &[u64]| -> Vec<String> {
        scan_library(&files, &cache, priority).reports.into_iter().map(|a| a.title).collect()
    };
    assert_eq!(order(&[]), ["First", "Second"]);
    let second = album_id(&entry("B", "Zappa", "Second"));
    assert_eq!(order(&[second]), ["Second", "First"]);
}

#[test]
fn covers_come_from_the_directory_with_most_tracks_or_its_parent() {
    let cover = |path: &str| file(path, vec![1, 2, 3]);
    let track = |path: &str, title: &str| file(path, wav_bytes(title, "Artist", "Album", None));
    let files = [
        cover("/m/x/cover.jpg"),
        cover("/m/y/Folder.PNG"),
        track("/m/x/1.wav", "1"),
        track("/m/y/2.wav", "2"),
        track("/m/y/3.wav", "3"),
    ];
    let out = scan_library(&files, &load_cache(None), &[]);
    let last = out.reports.last().unwrap();
    assert_eq!(last.cover_id, Some(cover_id("/m/y/Folder.PNG", Mtime { secs: 1, nanos: 0 })));
    // A disc-per-directory layout keeps the cover beside the discs.
    let files = [cover("/m/Album/cover.jpg"), track("/m/Album/CD1/1.wav", "1"), track("/m/Album/CD2/2.wav", "2")];
    let out = scan_library(&files, &load_cache(None), &[]);
    assert_eq!(out.reports[1].cover_id, Some(cover_id("/m/Album/cover.jpg", Mtime { secs: 1, nanos: 0 })));
    assert_eq!(out.covers.len(), 1, "an album's unchanged cover is decoded once");
}

#[test]
fn a_shared_cover_is_decoded_once_for_all_its_albums() {
    let files = [
        file("/m/pool/cover.jpg", vec![1]),
        file("/m/pool/a.wav", wav_bytes("A", "One", "Album", None)),
        file("/m/pool/b.wav", wav_bytes("B", "Two", "Album", None)),
    ];
    let out = scan_library(&files, &load_cache(None), &[]);
    assert_eq!(out.covers.len(), 1);
    assert_eq!(out.covers[0].1.len(), 2);
}

#[test]
fn files_are_told_apart_by_their_names() {
    assert_eq!(classify("/m/Song.OPUS"), FileKind::Audio);
    assert_eq!(classify("/m/song.wav"), FileKind::Audio);
    assert_eq!(classify("/m/AlbumArt.webp"), FileKind::Cover);
    assert_eq!(classify("/m/front.jpeg"), FileKind::Cover);
    assert_eq!(classify("/m/back.jpeg"), FileKind::Other);
    assert_eq!(classify("/m/cover.gif"), FileKind::Other);
    assert_eq!(classify("/m/wav"), FileKind::Other);
}

#[test]
fn numbers_are_read_leniently() {
    assert_eq!(number("3/12"), Some(3));
    assert_eq!(number("07"), Some(7));
    assert_eq!(number("A1"), None);
    assert_eq!(number(""), None);
    assert_eq!(number("4294967296"), None, "an overflowing count is no number");
}

#[test]
fn an_unreadable_file_is_counted_but_not_listed() {
    let files = [file("/m/a/bad.opus", vec![0; 10]), file("/m/a/good.wav", wav_bytes("", "", "", None))];
    let out = scan_library(&files, &load_cache(None), &[]);
    assert_eq!(out.reports.len(), 1);
    assert_eq!(titles(&out.reports[0]), ["good"], "an untagged title is the file's stem");
    assert_eq!(out.reports[0].artist, "Unknown Artist");
    assert_eq!(out.fresh.unwrap().len(), 1);
}

#[test]
fn what_was_left_dirty_is_flushed() {
    let mut assembler = Assembler::new(&vec![], vec![], vec![]);
    let files = vec![Tagged { path: "/m/a.wav".into(), entry: entry("t", "a", "b") }];
    assembler.absorb("/m", &files);
    let id = album_id(&entry("t", "a", "b"));
    assert_eq!(assembler.flush(), [id]);
    assert!(assembler.flush().is_empty());
}
