//! An open track: a WAV or an Ogg Opus file, told apart by how it begins.

use crate::io::{back, Read, ReadExt, Seek, Skip, Skippable, Take};
use crate::metadata::{tag_views, Tag, TagKind};
use crate::opus::{
    len_of, opening_of, opening_tags, opus_forwarded, opus_read, opus_sought, starts_with, OggOpus,
    OpusReader,
};
use crate::plumbing::{FastForward, Source};
use crate::sample::{pcm_forwarded, pcm_read, MultiReader, PcmS16Le, Stereo};
use crate::text::chars_of;
use crate::wav::{is_short, law_an_opened_stream_has_whole_frames, opened, tags_of, Wav};
use vstd::prelude::*;

verus! {

pub type OutSample = Stereo<PcmS16Le>;

/// The samples of an open track.
pub enum TrackSamples<R> {
    Wav(MultiReader<Take<Skippable<R>>>),
    // Boxed: the opus reader is large (decoder state + a decoded-frame buffer).
    Opus(Box<OpusReader<R>>),
}

impl<R: Seek> Source<OutSample> for TrackSamples<R> {
    open spec fn readable(&self) -> bool {
        match self {
            TrackSamples::Wav(_) => true,
            TrackSamples::Opus(s) => s.wf(),
        }
    }

    fn read_samples(&mut self, buf: &mut [OutSample]) -> (n: Option<usize>)
        ensures
            match (*old(self), *final(self)) {
                (TrackSamples::Wav(a), TrackSamples::Wav(b)) => pcm_read(
                    a,
                    b,
                    old(buf)@,
                    final(buf)@,
                    n,
                ),
                (TrackSamples::Opus(a), TrackSamples::Opus(b)) => opus_read(
                    *a,
                    *b,
                    old(buf)@,
                    final(buf)@,
                    n,
                ),
                _ => false,
            },
    {
        match self {
            TrackSamples::Wav(s) => s.read_samples(buf),
            TrackSamples::Opus(s) => (**s).read_samples(buf),
        }
    }
}

impl<R: Seek> FastForward for TrackSamples<R> {
    open spec fn movable(&self) -> bool {
        match self {
            TrackSamples::Wav(_) => true,
            TrackSamples::Opus(s) => s.wf(),
        }
    }

    fn fast_forward(&mut self, nsamples: u64) -> (n: Option<u64>)
        ensures
            match (*old(self), *final(self)) {
                (TrackSamples::Wav(a), TrackSamples::Wav(b)) => pcm_forwarded(a, b, nsamples, n),
                (TrackSamples::Opus(a), TrackSamples::Opus(b)) => opus_forwarded(*a, *b, nsamples, n),
                _ => false,
            },
    {
        match self {
            TrackSamples::Wav(s) => s.fast_forward(nsamples),
            TrackSamples::Opus(s) => (**s).fast_forward(nsamples),
        }
    }
}

impl<R: Seek> TrackSamples<R> {
    /// What granule positions are ahead of samples, where the format has them.
    pub open spec fn delay(&self) -> int {
        match self {
            TrackSamples::Wav(_) => 0,
            TrackSamples::Opus(s) => s.delay(),
        }
    }

    /// Seeks within the open track when the format supports it. `None` means the caller should
    /// fall back to reopening the track and skipping forward (which for wav is itself cheap:
    /// skipping is a plain file seek there).
    pub fn seek_samples(&mut self, target: u64) -> (pos: Option<u64>)
        requires
            old(self).movable(),
            target + old(self).delay() <= u64::MAX,
        ensures
            match (*old(self), *final(self)) {
                (TrackSamples::Wav(a), TrackSamples::Wav(b)) => a == b && pos is None,
                (TrackSamples::Opus(a), TrackSamples::Opus(b)) => opus_sought(*a, *b, target, pos),
                _ => false,
            },
    {
        match self {
            TrackSamples::Wav(_) => None,
            TrackSamples::Opus(s) => (**s).seek_samples(target),
        }
    }
}

/// An open track.
pub struct Track<R> {
    /// The last title among its tags; empty without one.
    pub title: String,
    pub sample_rate: u32,
    /// Total number of samples, when it is known.
    pub len_samples: Option<u64>,
    pub samples: TrackSamples<R>,
}

/// The formats that can be played.
#[derive(Debug, Clone, Copy, PartialEq, Eq, Structural)]
pub enum Container {
    Wav,
    Ogg,
}

/// The format of a file, by how it begins.
pub open spec fn container_of(file: Seq<u8>) -> Option<Container> {
    if starts_with(file.take(4), "RIFF"@) && file.len() >= 4 {
        Some(Container::Wav)
    } else if starts_with(file.take(4), "OggS"@) && file.len() >= 4 {
        Some(Container::Ogg)
    } else {
        None
    }
}

pub(crate) fn is_magic(bytes: &Vec<u8>, text: &str) -> (r: bool)
    ensures
        r == starts_with(bytes@, text@),
{
    let chars: Vec<char> = chars_of(text);
    if bytes.len() < chars.len() {
        return false;
    }
    let mut i: usize = 0;
    while i < chars.len()
        invariant
            i <= chars.len() <= bytes.len(),
            chars@ == text@,
            forall|k: int| 0 <= k < i ==> bytes@[k] == (#[trigger] text@[k]) as u32,
        decreases chars.len() - i,
    {
        if bytes[i] as u32 != chars[i] as u32 {
            assert(bytes@[i as int] != text@[i as int] as u32);
            return false;
        }
        i = i + 1;
    }
    true
}

/// The last title among some tags; empty without one.
pub open spec fn title_of(tags: Seq<(TagKind, Seq<char>)>) -> Seq<char>
    decreases tags.len(),
{
    if tags.len() == 0 {
        Seq::empty()
    } else if tags.last().0 == TagKind::Title {
        tags.last().1
    } else {
        title_of(tags.drop_last())
    }
}

fn last_title(tags: &Vec<Tag>) -> (title: String)
    ensures
        title@ == title_of(tag_views(tags@)),
{
    let mut i: usize = tags.len();
    let ghost views = tag_views(tags@);
    assert(views.take(i as int) =~= views);
    while i > 0
        invariant
            i <= tags.len(),
            views == tag_views(tags@),
            title_of(views) == title_of(views.take(i as int)),
        decreases i,
    {
        let ghost upto = views.take(i as int);
        assert(upto.drop_last() =~= views.take(i - 1));
        assert(upto.last() == tags@[i - 1]@);
        match &tags[i - 1] {
            Tag::Title(title) => {
                return title.clone();
            },
            _ => {},
        }
        i = i - 1;
    }
    String::new()
}

/// What is known of a track once it is open.
pub struct TrackView {
    pub container: Container,
    pub title: Seq<char>,
    pub rate: u32,
    pub len: Option<u64>,
}

/// What opening a file as a track gives; `None` where it cannot be played.
pub open spec fn track_of(file: Seq<u8>, extent: nat) -> Option<TrackView> {
    match container_of(file) {
        Some(Container::Wav) => match opened(file) {
            Some(o) => Some(
                TrackView {
                    container: Container::Wav,
                    title: title_of(tags_of(file)),
                    rate: o.format.blocks_per_sec,
                    len: Some(
                        (o.format.size as int / ((o.format.bits_per_sample as int / 8)
                            * o.format.n_channels as int)) as u64,
                    ),
                },
            ),
            None => None,
        },
        Some(Container::Ogg) => match opening_of(file) {
            Some(opening) => Some(
                TrackView {
                    container: Container::Ogg,
                    title: title_of(opening.tags),
                    rate: crate::opus::SAMPLE_RATE,
                    len: len_of(file, extent, opening.serial, opening.pre_skip),
                },
            ),
            None => None,
        },
        None => None,
    }
}

impl<R: Seek> Track<R> {
    /// Opens the track that a file holds.
    pub fn open(file: R) -> (track: Option<Track<R>>)
        ensures
            track is Some <==> track_of(file.whole(), file.extent()) is Some,
            track matches Some(t) ==> {
                let v = track_of(file.whole(), file.extent())->0;
                &&& t.title@ == v.title
                &&& t.sample_rate == v.rate
                &&& t.len_samples == v.len
                &&& (t.samples is Wav) == (v.container == Container::Wav)
                &&& t.samples.readable()
                &&& match t.samples {
                    TrackSamples::Wav(s) => {
                        let o = opened(file.whole())->0;
                        &&& s.encoding() == o.encoding
                        &&& s.channels() == o.channels
                        &&& s.rest() == o.rest
                        &&& s.broken() == (file.broken() && is_short(file.whole()))
                    },
                    TrackSamples::Opus(s) => {
                        let opening = opening_of(file.whole())->0;
                        &&& s.layout() == opening.channels
                        &&& s.stream() == opening.serial
                        &&& s.delay() == opening.pre_skip
                        &&& s.whole() == file.whole()
                        &&& s.extent() == file.extent()
                        &&& s.playhead().rest == opening.rest
                        &&& s.playhead().broken == file.broken()
                        &&& s.playhead().demux == opening.demux
                        &&& s.playhead().pre_skip == opening.pre_skip
                        &&& s.playhead().avail == 0
                        &&& !s.playhead().ended
                    },
                }
            },
    {
        let ghost whole = file.whole();
        let mut file = file;
        file.seek(0);
        assert(back(whole, 0) =~= whole);
        let magic: Vec<u8> = match file.read(4) {
            Some(magic) => magic,
            None => return None,
        };
        if magic.len() < 4 {
            return None;
        }
        file.seek(0);
        assert(magic@ =~= whole.take(4));
        let mut tags: Vec<Tag> = Vec::new();
        assert(tag_views(tags@) =~= Seq::empty());
        if is_magic(&magic, "RIFF") {
            let wav: Wav<Take<Skippable<R>>> = match Wav::parse(Skippable(file), &mut tags) {
                Some(wav) => wav,
                None => return None,
            };
            proof {
                law_an_opened_stream_has_whole_frames(whole);
                assert(tag_views(tags@) =~= tags_of(whole));
            }
            Some(
                Track {
                    title: last_title(&tags),
                    sample_rate: wav.format.sample_rate(),
                    len_samples: Some(wav.format.len_samples()),
                    samples: TrackSamples::Wav(wav.samples),
                },
            )
        } else if is_magic(&magic, "OggS") {
            let opus: OggOpus<R> = match OggOpus::parse_seekable(file, &mut tags) {
                Some(opus) => opus,
                None => return None,
            };
            assert(tag_views(tags@) =~= opening_tags(whole));
            Some(
                Track {
                    title: last_title(&tags),
                    sample_rate: opus.format.sample_rate(),
                    len_samples: opus.format.len_samples,
                    samples: TrackSamples::Opus(Box::new(opus.samples)),
                },
            )
        } else {
            None
        }
    }
}

} // verus!
