//! What a seek in an Opus stream leaves: as many samples as reading on to its target would.

use crate::demux::{lemma_packet_uses_up, packet_of, Demux, PacketRead};
use crate::io::{back, Read};
use crate::opus::{
    frame_of, landing, lemma_frame_uses_up, less, opus_forwarded, opus_sought, preroll, restarted, samples_in, sought, FrameRead,
    OpusReader, Playhead, NO_GRANULE, PREROLL,
};
use vstd::prelude::*;

verus! {

/// Where a stream ends, by the samples that its packets decode to, counted on from `pos`: from where it is known
/// on, or else from the first packet that ends a page with a granule position. `None` where that cannot be
/// told, or a packet cannot be decoded.
pub open spec fn counted(
    channels: nat,
    demux: Demux,
    rest: Seq<u8>,
    broken: bool,
    history: Seq<Seq<u8>>,
    pos: Option<int>,
) -> Option<int>
    decreases demux.left(rest),
{
    proof {
        lemma_packet_uses_up(demux, rest);
    }
    match packet_of(demux, rest) {
        PacketRead::Bad => None,
        PacketRead::End(demux2, rest2) => if broken {
            None
        } else {
            pos
        },
        PacketRead::Packet(packet, demux2, rest2) => match samples_in(channels, history, packet.data) {
            None => None,
            Some(len) => {
                let behind = match pos {
                    Some(p) => Some(p + len),
                    None => if packet.last_in_page && packet.granule != NO_GRANULE {
                        Some(packet.granule as int)
                    } else {
                        None
                    },
                };
                counted(channels, demux2, rest2, broken, history.push(packet.data), behind)
            },
        },
    }
}

/// On the way to granule position `target`, pages end where the count says.
pub open spec fn agrees(
    channels: nat,
    demux: Demux,
    rest: Seq<u8>,
    history: Seq<Seq<u8>>,
    pos: Option<int>,
    target: int,
) -> bool
    decreases demux.left(rest),
{
    proof {
        lemma_packet_uses_up(demux, rest);
    }
    match packet_of(demux, rest) {
        PacketRead::Packet(packet, demux2, rest2) => match samples_in(channels, history, packet.data) {
            None => true,
            Some(len) => {
                let ends_page = packet.last_in_page && packet.granule != NO_GRANULE;
                let behind = match pos {
                    Some(p) => Some(p + len),
                    None => if ends_page {
                        Some(packet.granule as int)
                    } else {
                        None
                    },
                };
                &&& ends_page ==> behind == Some(packet.granule as int)
                &&& (behind is Some && behind->0 > target) || agrees(
                    channels,
                    demux2,
                    rest2,
                    history.push(packet.data),
                    behind,
                    target,
                )
            },
        },
        _ => true,
    }
}

impl Playhead {
    /// How many samples are given until the end of the stream. `None` where it fails before.
    pub open spec fn to_end(self, channels: nat) -> Option<int>
        decreases self.left(), self.avail,
    {
        proof {
            lemma_frame_uses_up(channels, self.demux, self.rest, self.broken, self.history, self.pre_skip);
        }
        match self.ready(channels) {
            None => None,
            Some(next) => if next.avail <= 0 {
                Some(0)
            } else {
                match next.advanced(next.avail).to_end(channels) {
                    Some(more) => Some(next.avail + more),
                    None => None,
                }
            },
        }
    }
}

/// Counting from elsewhere comes to as much more.
proof fn lemma_counted_from(
    channels: nat,
    demux: Demux,
    rest: Seq<u8>,
    broken: bool,
    history: Seq<Seq<u8>>,
    p: int,
)
    ensures
        counted(channels, demux, rest, broken, history, Some(p)) == match counted(
            channels,
            demux,
            rest,
            broken,
            history,
            Some(0),
        ) {
            Some(c) => Some(p + c),
            None => None,
        },
        counted(channels, demux, rest, broken, history, Some(0)) matches Some(c) ==> c >= 0,
    decreases demux.left(rest),
{
    lemma_packet_uses_up(demux, rest);
    match packet_of(demux, rest) {
        PacketRead::Packet(packet, demux2, rest2) => match samples_in(channels, history, packet.data) {
            Some(len) => {
                lemma_counted_from(channels, demux2, rest2, broken, history.push(packet.data), p + len);
                lemma_counted_from(channels, demux2, rest2, broken, history.push(packet.data), len as int);
            },
            None => {},
        },
        _ => {},
    }
}

/// A frame is as much of the count as it gives and skips.
proof fn lemma_frame_counts(
    channels: nat,
    demux: Demux,
    rest: Seq<u8>,
    broken: bool,
    history: Seq<Seq<u8>>,
    pre_skip: int,
)
    requires
        pre_skip >= 0,
    ensures
        ({
            let count = counted(channels, demux, rest, broken, history, Some(0));
            match frame_of(channels, demux, rest, broken, history, pre_skip) {
                FrameRead::Failed => count is None,
                FrameRead::End(then) => count matches Some(c) && c <= pre_skip,
                FrameRead::Frame { len, skipped, then } => {
                    &&& then.pre_skip == 0
                    &&& then.broken == broken
                    &&& count == match counted(channels, then.demux, then.rest, broken, then.history, Some(0)) {
                        Some(c) => Some(pre_skip + then.avail + c),
                        None => None,
                    }
                },
            }
        }),
    decreases demux.left(rest),
{
    lemma_packet_uses_up(demux, rest);
    match packet_of(demux, rest) {
        PacketRead::Packet(packet, demux2, rest2) => match samples_in(channels, history, packet.data) {
            Some(len) => {
                let skipped = if pre_skip < len {
                    pre_skip
                } else {
                    len as int
                };
                let history2 = history.push(packet.data);
                lemma_counted_from(channels, demux2, rest2, broken, history2, len as int);
                if skipped >= len {
                    lemma_frame_counts(channels, demux2, rest2, broken, history2, pre_skip - skipped);
                }
            },
            None => {},
        },
        _ => {},
    }
}

/// What reading on to the end gives is what the count has, but for the encoder delay.
proof fn lemma_to_end(channels: nat, head: Playhead)
    requires
        !head.ended,
        head.avail >= 0,
        head.pre_skip >= 0,
    ensures
        head.to_end(channels) == match counted(
            channels,
            head.demux,
            head.rest,
            head.broken,
            head.history,
            Some(0),
        ) {
            Some(c) => Some(head.avail + less(c, head.pre_skip)),
            None => None,
        },
    decreases head.left(), head.avail,
{
    lemma_frame_uses_up(channels, head.demux, head.rest, head.broken, head.history, head.pre_skip);
    lemma_frame_counts(channels, head.demux, head.rest, head.broken, head.history, head.pre_skip);
    lemma_counted_from(channels, head.demux, head.rest, head.broken, head.history, 0);
    if head.avail > 0 {
        lemma_to_end(channels, head.advanced(head.avail));
    } else {
        match frame_of(channels, head.demux, head.rest, head.broken, head.history, head.pre_skip) {
            FrameRead::Frame { len, skipped, then } => {
                lemma_to_end(channels, then.advanced(then.avail));
                lemma_counted_from(channels, then.demux, then.rest, then.broken, then.history, 0);
            },
            _ => {},
        }
    }
}

/// What is passed on the way is no longer ahead.
proof fn lemma_forward_leaves(channels: nat, head: Playhead, n: int)
    requires
        n >= 0,
    ensures
        head.forward(channels, n) matches Some((then, missing)) ==> head.to_end(channels) == match then.to_end(channels) {
            Some(k) => Some(n - missing + k),
            None => None,
        },
    decreases head.left(), n,
{
    if n > 0 {
        lemma_frame_uses_up(channels, head.demux, head.rest, head.broken, head.history, head.pre_skip);
        match head.ready(channels) {
            Some(next) => if next.avail > 0 {
                let taken = if next.avail < n {
                    next.avail
                } else {
                    n
                };
                let then = next.advanced(taken);
                lemma_forward_leaves(channels, then, n - taken);
                if taken < next.avail {
                    assert(then.advanced(then.avail) == next.advanced(next.avail));
                }
            },
            None => {},
        }
    }
}

/// The pre-roll keeps to the count.
proof fn lemma_preroll_leaves(
    channels: nat,
    demux: Demux,
    rest: Seq<u8>,
    broken: bool,
    history: Seq<Seq<u8>>,
    pos: Option<int>,
    landed: int,
    target: int,
    delay: int,
    end: int,
)
    requires
        0 <= delay <= target,
        counted(channels, demux, rest, broken, history, pos) == Some(end),
        agrees(channels, demux, rest, history, pos, target),
    ensures
        preroll(channels, demux, rest, broken, history, pos, landed, target, delay) matches Some((at, head)) ==> {
            head.to_end(channels) matches Some(k) && at + k == less(end, delay)
        },
    decreases demux.left(rest),
{
    lemma_packet_uses_up(demux, rest);
    match packet_of(demux, rest) {
        PacketRead::Packet(packet, demux2, rest2) => match samples_in(channels, history, packet.data) {
            Some(len) => {
                let history2 = history.push(packet.data);
                let behind = match pos {
                    Some(p) => Some(p + len),
                    None => if packet.last_in_page && packet.granule != NO_GRANULE {
                        Some(packet.granule as int)
                    } else {
                        None
                    },
                };
                if behind is Some && behind->0 > target {
                    let p = behind->0;
                    lemma_counted_from(channels, demux2, rest2, broken, history2, p);
                    match preroll(channels, demux, rest, broken, history, pos, landed, target, delay) {
                        Some((at, head)) => {
                            lemma_to_end(channels, head);
                        },
                        None => {},
                    }
                } else {
                    lemma_preroll_leaves(
                        channels,
                        demux2,
                        rest2,
                        broken,
                        history2,
                        behind,
                        landed,
                        target,
                        delay,
                        end,
                    );
                }
            },
            None => {},
        },
        _ => {},
    }
}

/// Granule positions are right where a seek to granule position `granule` needs them: counted on from the page
/// that it starts from, the stream ends where it does by a count from its start, and pages on the way to the
/// target end where the count says.
pub open spec fn granules_are_right(
    channels: nat,
    whole: Seq<u8>,
    extent: nat,
    serial: u32,
    start: Playhead,
    granule: int,
) -> bool {
    let broken = whole.len() < extent;
    landing(whole, extent, serial, less(granule, PREROLL as int)) matches Some((at, landed)) ==> {
        let rest = back(whole, at);
        let end = counted(channels, start.demux, start.rest, broken, start.history, Some(0));
        &&& end is Some
        &&& counted(channels, Demux::start(true), rest, broken, Seq::empty(), None) == end
        &&& agrees(channels, Demux::start(true), rest, Seq::empty(), None, granule)
    }
}

/// As many samples follow a seek as follow in a straight read from where it lands: the position that it lands
/// on and what follows make up all samples of the stream.
pub proof fn law_a_seek_leaves_what_follows(
    channels: nat,
    whole: Seq<u8>,
    extent: nat,
    serial: u32,
    delay: nat,
    target: nat,
)
    requires
        restarted(whole, whole.len() < extent, delay as int) matches Some(start) && granules_are_right(
            channels,
            whole,
            extent,
            serial,
            start,
            (target + delay) as int,
        ),
    ensures
        ({
            let start = restarted(whole, whole.len() < extent, delay as int)->0;
            sought(channels, whole, extent, serial, delay as int, target as int) matches Some((at, head)) ==> {
                start.to_end(channels) == match head.to_end(channels) {
                    Some(k) => Some(at + k),
                    None => None,
                }
            }
        }),
{
    let broken = whole.len() < extent;
    let granule = (target + delay) as int;
    let start = restarted(whole, broken, delay as int)->0;
    match landing(whole, extent, serial, less(granule, PREROLL as int)) {
        Some((at, landed)) => {
            let end = counted(channels, start.demux, start.rest, broken, start.history, Some(0))->0;
            lemma_to_end(channels, start);
            lemma_preroll_leaves(
                channels,
                Demux::start(true),
                back(whole, at),
                broken,
                Seq::empty(),
                None,
                landed as int,
                granule,
                delay as int,
                end,
            );
        },
        None => {
            lemma_forward_leaves(channels, start, target as int);
        },
    }
}

/// The samples at the front that the encoder added are dropped, once: a stream gives as many samples as its packets
/// decode to, without these.
pub proof fn law_the_encoder_delay_is_dropped_once(channels: nat, whole: Seq<u8>, delay: nat)
    requires
        restarted(whole, false, delay as int) is Some,
    ensures
        ({
            let start = restarted(whole, false, delay as int)->0;
            let all = counted(channels, start.demux, start.rest, false, Seq::empty(), Some(0));
            &&& all is Some <==> start.to_end(channels) is Some
            &&& all is Some && all->0 >= delay ==> start.to_end(channels) == Some(all->0 - delay)
            &&& all is Some && all->0 < delay ==> start.to_end(channels) == Some(0int)
        }),
{
    lemma_to_end(channels, restarted(whole, false, delay as int)->0);
}

/// A seek starts to decode at a page that ends eighty milliseconds or more before its target, and at the
/// beginning where there is none.
pub proof fn law_a_seek_starts_ahead_of_its_target(
    channels: nat,
    whole: Seq<u8>,
    extent: nat,
    serial: u32,
    delay: nat,
    target: nat,
)
    requires
        target + delay >= 3840,
    ensures
        ({
            let granule = (target + delay) as int;
            match landing(whole, extent, serial, granule - 3840) {
                Some((at, landed)) => landed + 3840 <= granule && sought(
                    channels,
                    whole,
                    extent,
                    serial,
                    delay as int,
                    target as int,
                ) == preroll(
                    channels,
                    Demux::start(true),
                    back(whole, at),
                    whole.len() < extent,
                    Seq::empty(),
                    None,
                    landed as int,
                    granule,
                    delay as int,
                ),
                None => match restarted(whole, whole.len() < extent, delay as int) {
                    Some(start) => sought(channels, whole, extent, serial, delay as int, target as int) is Some
                        <==> start.forward(channels, target as int) is Some,
                    None => sought(channels, whole, extent, serial, delay as int, target as int) is None,
                },
            }
        }),
{
}

/// The next packet gives its samples, without those of the encoder delay that are still to be dropped; one that is
/// all delay is passed over.
pub proof fn law_a_packet_gives_its_samples(channels: nat, head: Playhead)
    requires
        !head.ended,
        head.avail == 0,
        head.pre_skip >= 0,
    ensures
        packet_of(head.demux, head.rest) matches PacketRead::Packet(packet, demux, rest) ==> {
            let behind = Playhead { demux, rest, history: head.history.push(packet.data), ..head };
            match samples_in(channels, head.history, packet.data) {
                Some(len) => if head.pre_skip < len {
                    head.ready(channels) == Some(Playhead { pre_skip: 0, avail: len - head.pre_skip, ..behind })
                } else {
                    head.ready(channels) == (Playhead { pre_skip: head.pre_skip - len, ..behind }).ready(channels)
                },
                None => head.ready(channels) is None,
            }
        },
{
}

/// What a seek reports is where it lands: on its target, or at the end where the stream ends before it, or at the
/// first frame behind a gap.
pub proof fn law_a_seek_reports_where_it_lands<R: Read>(
    before: OpusReader<R>,
    after: OpusReader<R>,
    target: u64,
    pos: u64,
)
    requires
        opus_sought(before, after, target, Some(pos)),
        before.delay() >= 0,
    ensures
        after.playhead().ended ==> pos <= target,
        !after.playhead().ended ==> pos >= target,
        !after.playhead().ended ==> pos == target || crate::opus::is_at_frame_start(
            before.layout().number(),
            after.playhead(),
        ),
        after.layout() == before.layout(),
{
    crate::opus::law_seek_lands_on_the_target(
        before.layout().number(),
        before.whole(),
        before.extent(),
        before.stream(),
        before.delay() as nat,
        target as nat,
    );
}

/// Moving forward in an Opus stream passes over as many samples as it says, no more than were asked for: what it
/// passed over and what follows make up all that followed before.
pub proof fn law_moving_forward_leaves_what_follows<R: Read>(
    before: OpusReader<R>,
    after: OpusReader<R>,
    nsamples: u64,
    n: u64,
)
    requires
        opus_forwarded(before, after, nsamples, Some(n)),
    ensures
        n <= nsamples,
        ({
            let ch = before.layout().number();
            before.playhead().to_end(ch) == match after.playhead().to_end(ch) {
                Some(k) => Some(n + k),
                None => None,
            }
        }),
{
    lemma_forward_leaves(before.layout().number(), before.playhead(), nsamples as int);
}

} // verus!
