//! The playback engine, as a state machine: it owns the play queue, says what to do next -- open a track,
//! wait for a command, read samples -- and is told what came of it.
//!
//! Whoever runs it does the work and keeps the clock; what is decided here is the order of things.

use vstd::prelude::*;

verus! {

pub const PLAYBACK_SAMPLE_RATE: u32 = 48000;

/// Frames decoded and written to the output at a time.
pub const CHUNK: usize = 512;

/// How often a playing track reports its position, per second.
pub const PROGRESS_UPDATES_PER_SEC: u64 = 16;

/// Nanoseconds.
pub type Nanos = u64;

/// A stretch of a track: a number of samples, at a sample rate.
#[derive(Debug, Clone, Copy, PartialEq, Eq, Structural)]
pub struct Span {
    pub samples: u64,
    pub rate: u32,
}

/// A queue entry: the track, and the album it belongs to as an opaque grouping key (equal keys on
/// adjacent entries form an album run) -- what repeat-album advancement walks.
#[derive(Debug, Clone, PartialEq, Eq)]
pub struct Entry {
    pub path: String,
    pub album: u64,
}

/// What happens when a track ends on its own. Manual skips always move (a Next during
/// [`Repeat::Track`] plays -- and then repeats -- the next track); at the queue's ends they wrap
/// only under [`Repeat::Playlist`].
#[derive(Debug, Clone, Copy, PartialEq, Eq, Structural)]
pub enum Repeat {
    /// Play through the queue once and stop.
    Off,
    /// Loop the current track.
    Track,
    /// Loop the current album run.
    Album,
    /// Wrap around at the end of the queue.
    Playlist,
}

impl Default for Repeat {
    fn default() -> (r: Self)
        ensures
            r == Repeat::Off,
    {
        Repeat::Off
    }
}

impl Repeat {
    pub open spec fn next(self) -> Repeat {
        match self {
            Repeat::Off => Repeat::Track,
            Repeat::Track => Repeat::Album,
            Repeat::Album => Repeat::Playlist,
            Repeat::Playlist => Repeat::Off,
        }
    }

    /// The next mode in the cycle the UI's repeat button steps through.
    pub fn cycled(self) -> (r: Self)
        ensures
            r == self.next(),
    {
        match self {
            Repeat::Off => Repeat::Track,
            Repeat::Track => Repeat::Album,
            Repeat::Album => Repeat::Playlist,
            Repeat::Playlist => Repeat::Off,
        }
    }
}

#[derive(Debug, Clone)]
pub enum Cmd {
    /// Replace the queue, opening the track at index `start` in the given state: `Playing` starts
    /// playback, `Paused` readies the track (its length is reported) without starting -- how a
    /// restored session comes back up.
    SetQueue { tracks: Vec<Entry>, start: usize, play: PlayState },
    /// Append to the queue without interrupting playback.
    Append { tracks: Vec<Entry> },
    /// Replace the queue with a reordering of itself -- same tracks, new order -- without
    /// interrupting playback: `current` must be the playing track's index in the new order.
    /// How a shuffle lands.
    Reorder { tracks: Vec<Entry>, current: usize },
    /// Jump to the given queue index.
    JumpTo(usize),
    TogglePlayPause,
    Next,
    Prev,
    /// Absolute seek within the current track.
    Seek(Nanos),
    SetRepeat(Repeat),
}

/// A command by the tracks it holds.
#[verifier::ext_equal]
pub enum CmdView {
    SetQueue { tracks: Seq<Entry>, start: usize, play: PlayState },
    Append { tracks: Seq<Entry> },
    Reorder { tracks: Seq<Entry>, current: usize },
    JumpTo(usize),
    TogglePlayPause,
    Next,
    Prev,
    Seek(Nanos),
    SetRepeat(Repeat),
}

impl View for Cmd {
    type V = CmdView;

    open spec fn view(&self) -> CmdView {
        match self {
            Cmd::SetQueue { tracks, start, play } => CmdView::SetQueue {
                tracks: tracks@,
                start: *start,
                play: *play,
            },
            Cmd::Append { tracks } => CmdView::Append { tracks: tracks@ },
            Cmd::Reorder { tracks, current } => CmdView::Reorder { tracks: tracks@, current: *current },
            Cmd::JumpTo(ix) => CmdView::JumpTo(*ix),
            Cmd::TogglePlayPause => CmdView::TogglePlayPause,
            Cmd::Next => CmdView::Next,
            Cmd::Prev => CmdView::Prev,
            Cmd::Seek(t) => CmdView::Seek(*t),
            Cmd::SetRepeat(repeat) => CmdView::SetRepeat(*repeat),
        }
    }
}

/// What the engine reports; `T` is how it gives times.
#[derive(Debug, Clone, Copy, PartialEq, Eq)]
pub enum Event<T> {
    TrackStarted { ix: usize, len: Option<T> },
    Progress(T),
    PlayState(PlayState),
    QueueEnded,
}

/// How long so many samples take at a rate, to the nearest nanosecond.
pub open spec fn length_of(samples: u64, rate: u32) -> int {
    (2 * samples as int * 1_000_000_000 + rate as int) / (2 * rate as int)
}

/// How long so many samples take at a rate.
pub fn length(samples: u64, rate: u32) -> (t: u128)
    requires
        rate > 0,
    ensures
        t == length_of(samples, rate),
{
    (2 * samples as u128 * 1_000_000_000 + rate as u128) / (2 * rate as u128)
}

/// The time that a stretch takes, to the nearest nanosecond, as far as they can be counted.
pub open spec fn time_of(span: Span) -> Nanos {
    let t = length_of(span.samples, span.rate);
    if t <= u64::MAX {
        t as u64
    } else {
        u64::MAX
    }
}

/// The stretches in a report are at some sample rate, and so take some time.
pub open spec fn has_rate(event: Event<Span>) -> bool {
    match event {
        Event::TrackStarted { len: Some(len), .. } => len.rate > 0,
        Event::Progress(at) => at.rate > 0,
        _ => true,
    }
}

/// A report with times in place of stretches.
pub open spec fn timed_event(event: Event<Span>) -> Event<Nanos> {
    match event {
        Event::TrackStarted { ix, len } => Event::TrackStarted {
            ix,
            len: match len {
                Some(len) => Some(time_of(len)),
                None => None,
            },
        },
        Event::Progress(at) => Event::Progress(time_of(at)),
        Event::PlayState(state) => Event::PlayState(state),
        Event::QueueEnded => Event::QueueEnded,
    }
}

/// The time that a stretch takes.
pub fn nanos(span: Span) -> (t: Nanos)
    requires
        span.rate > 0,
    ensures
        t == time_of(span),
{
    let t: u128 = length(span.samples, span.rate);
    if t <= u64::MAX as u128 {
        t as u64
    } else {
        u64::MAX
    }
}

/// A report with times in place of stretches.
pub fn timed(event: Event<Span>) -> (r: Event<Nanos>)
    requires
        has_rate(event),
    ensures
        r == timed_event(event),
{
    match event {
        Event::TrackStarted { ix, len: Some(len) } => Event::TrackStarted { ix, len: Some(nanos(len)) },
        Event::TrackStarted { ix, len: None } => Event::TrackStarted { ix, len: None },
        Event::Progress(at) => Event::Progress(nanos(at)),
        Event::PlayState(state) => Event::PlayState(state),
        Event::QueueEnded => Event::QueueEnded,
    }
}

#[derive(Debug, Clone, Copy, PartialEq, Eq, Structural)]
pub enum PlayState {
    Playing,
    Paused,
}

impl PlayState {
    pub open spec fn other(self) -> PlayState {
        match self {
            PlayState::Playing => PlayState::Paused,
            PlayState::Paused => PlayState::Playing,
        }
    }

    pub fn toggled(self) -> (s: Self)
        ensures
            s == self.other(),
    {
        match self {
            PlayState::Playing => PlayState::Paused,
            PlayState::Paused => PlayState::Playing,
        }
    }
}

/// The index behind `ix`, as far as it can be held.
pub open spec fn following(ix: usize) -> usize {
    if ix < usize::MAX {
        (ix + 1) as usize
    } else {
        ix
    }
}

/// The first track of the album run that ends at `ix`.
pub open spec fn run_start(queue: Seq<Entry>, ix: int) -> int
    decreases ix,
{
    if ix > 0 && queue[ix - 1].album == queue[ix].album {
        run_start(queue, ix - 1)
    } else {
        ix
    }
}

/// The queue index that follows `ix` when its track ends on its own.
pub open spec fn advanced(queue: Seq<Entry>, ix: usize, repeat: Repeat) -> usize {
    match repeat {
        Repeat::Off => following(ix),
        Repeat::Track => ix,
        Repeat::Album => if ix >= queue.len() {
            following(ix)
        } else if ix + 1 < queue.len() && queue[ix + 1].album == queue[ix as int].album {
            (ix + 1) as usize
        } else {
            run_start(queue, ix as int) as usize
        },
        Repeat::Playlist => if ix + 1 >= queue.len() && queue.len() > 0 {
            0
        } else {
            following(ix)
        },
    }
}

/// The queue index to play after the track at `ix` ends on its own, per the repeat mode. An index
/// past the end means "stop".
pub fn next_track_ix(queue: &Vec<Entry>, ix: usize, repeat: Repeat) -> (next: usize)
    ensures
        next == advanced(queue@, ix, repeat),
{
    match repeat {
        Repeat::Off => ix.saturating_add(1),
        Repeat::Track => ix,
        Repeat::Album => {
            // The next track of the current album run, wrapping to the run's first track.
            if ix >= queue.len() {
                return ix.saturating_add(1);
            }
            let album: u64 = queue[ix].album;
            if ix + 1 < queue.len() && queue[ix + 1].album == album {
                return ix + 1;
            }
            let mut first: usize = ix;
            while first > 0 && queue[first - 1].album == album
                invariant
                    first <= ix < queue.len(),
                    queue[first as int].album == album,
                    run_start(queue@, ix as int) == run_start(queue@, first as int),
                decreases first,
            {
                first = first - 1;
            }
            first
        },
        Repeat::Playlist => if ix.saturating_add(1) >= queue.len() && queue.len() > 0 {
            0
        } else {
            ix.saturating_add(1)
        },
    }
}

/// What a player with an open track knows of it: its rate, the position in samples, and the position
/// that was last reported.
#[derive(Debug, Clone, Copy, PartialEq, Eq, Structural)]
pub struct Playing {
    pub rate: u32,
    pub pos: u64,
    pub reported: u64,
}

/// What the player waits for.
#[derive(Debug, Clone, Copy, PartialEq, Eq, Structural)]
pub enum Phase {
    /// A command, with nothing to play.
    Idle,
    /// A track to open.
    Opening,
    /// A track to be moved to where it starts.
    Starting,
    /// A command, or none, between two reads of a track.
    Polling,
    /// The command behind a seek, which another seek would replace.
    Coalescing(Nanos),
    /// The outcome of a seek.
    Seeking(Nanos),
    /// Samples.
    Reading,
}

/// What the player is told.
#[derive(Debug, Clone)]
pub enum Input {
    /// A command.
    Command(Cmd),
    /// There is no command waiting.
    NoCommand,
    /// The track is open: its sample rate and, where it is known, its length in samples.
    Opened { rate: u32, len: Option<u64> },
    /// The track cannot be opened.
    NotOpened,
    /// The track was moved forward by so many samples; `None` where that failed.
    Forwarded(Option<u64>),
    /// The track was moved to the position given first, or could not be moved to the one given second.
    Sought { landed: Option<u64>, target: u64 },
    /// So many samples were read, and written to the output; `None` where they cannot be decoded.
    Read(Option<usize>),
}

/// What the player wants done.
#[derive(Debug, Clone)]
pub enum Action {
    /// Wait for a command.
    Wait,
    /// Look for a command, without waiting.
    Look,
    /// Open the track at the path.
    Open { path: String },
    /// Move the track that was just opened forward by so many samples.
    FastForward(u64),
    /// Move the open track to the time.
    Seek(Nanos),
    /// Read up to a chunk of samples, and write them to the output at the track's rate.
    Read,
}

/// The engine's state.
pub struct Player {
    pub queue: Vec<Entry>,
    pub ix: usize,
    /// Samples into the track to start from.
    pub start_at: u64,
    pub play_state: PlayState,
    pub repeat: Repeat,
    /// A command that is not a seek, taken early while coalescing a burst of seeks, and handled ahead of
    /// the next. At most one: coalescing overshoots by one.
    pub buffered: Option<Cmd>,
    pub track: Playing,
    pub phase: Phase,
}

/// The engine's state, with its queue as a sequence.
pub struct PlayerView {
    pub queue: Seq<Entry>,
    pub ix: usize,
    pub start_at: u64,
    pub play_state: PlayState,
    pub repeat: Repeat,
    pub buffered: Option<Cmd>,
    pub track: Playing,
    pub phase: Phase,
}

impl View for Player {
    type V = PlayerView;

    open spec fn view(&self) -> PlayerView {
        PlayerView {
            queue: self.queue@,
            ix: self.ix,
            start_at: self.start_at,
            play_state: self.play_state,
            repeat: self.repeat,
            buffered: self.buffered,
            track: self.track,
            phase: self.phase,
        }
    }
}

/// An action's view.
pub enum ActionView {
    Wait,
    Look,
    Open(Seq<char>),
    FastForward(u64),
    Seek(Nanos),
    Read,
}

impl View for Action {
    type V = ActionView;

    open spec fn view(&self) -> ActionView {
        match self {
            Action::Wait => ActionView::Wait,
            Action::Look => ActionView::Look,
            Action::Open { path } => ActionView::Open(path@),
            Action::FastForward(n) => ActionView::FastForward(*n),
            Action::Seek(t) => ActionView::Seek(*t),
            Action::Read => ActionView::Read,
        }
    }
}

/// What a step comes to: the state after it, what is reported, and what is wanted next.
pub struct Stepped {
    pub player: PlayerView,
    pub events: Seq<Event<Span>>,
    pub action: ActionView,
}

/// The smaller of two indices.
pub open spec fn clamped(ix: usize, len: nat) -> usize {
    if ix < len {
        ix
    } else {
        len as usize
    }
}

impl PlayerView {
    /// After a command that makes sense in every state; and whether the current track is to be abandoned
    /// for the one at the queue index.
    pub open spec fn applied(self, cmd: Cmd) -> (PlayerView, bool) {
        match cmd {
            Cmd::SetQueue { tracks, start, play } => (
                PlayerView {
                    queue: tracks@,
                    ix: clamped(start, tracks@.len()),
                    start_at: 0,
                    play_state: play,
                    ..self
                },
                true,
            ),
            Cmd::Append { tracks } => (PlayerView { queue: self.queue + tracks@, ..self }, false),
            // The same tracks in a new order: the open track keeps decoding, only the cursor follows it.
            Cmd::Reorder { tracks, current } => (
                PlayerView { queue: tracks@, ix: clamped(current, tracks@.len()), ..self },
                false,
            ),
            Cmd::JumpTo(i) => (
                PlayerView { ix: i, start_at: 0, play_state: PlayState::Playing, ..self },
                true,
            ),
            // Manual skips move even under Repeat::Track (the new track repeats instead), and
            // wrap at the queue's ends only under Repeat::Playlist.
            Cmd::Next => (
                PlayerView {
                    ix: if self.repeat == Repeat::Playlist && self.ix + 1 >= self.queue.len()
                        && self.queue.len() > 0 {
                        0
                    } else {
                        following(self.ix)
                    },
                    start_at: 0,
                    ..self
                },
                true,
            ),
            Cmd::Prev => (
                PlayerView {
                    ix: if self.ix > 0 {
                        (self.ix - 1) as usize
                    } else if self.repeat == Repeat::Playlist && self.queue.len() > 0 {
                        (self.queue.len() - 1) as usize
                    } else {
                        0
                    },
                    start_at: 0,
                    ..self
                },
                true,
            ),
            Cmd::TogglePlayPause => (
                PlayerView { play_state: self.play_state.other(), ..self },
                false,
            ),
            // Meaningless without an open track.
            Cmd::Seek(_) => (self, false),
            Cmd::SetRepeat(mode) => (PlayerView { repeat: mode, ..self }, false),
        }
    }

    /// Turning to the track at the queue index, or idling where there is none, with what has been
    /// reported before.
    pub open spec fn turned(self, events: Seq<Event<Span>>) -> Stepped {
        if self.ix < self.queue.len() {
            Stepped {
                player: PlayerView { phase: Phase::Opening, ..self },
                events,
                action: ActionView::Open(self.queue[self.ix as int].path@),
            }
        } else {
            let idle = PlayerView { play_state: PlayState::Paused, phase: Phase::Idle, ..self };
            idle.waiting(events.push(Event::QueueEnded))
        }
    }

    /// Idle: the buffered command is handled first, then the next one that comes.
    pub open spec fn waiting(self, events: Seq<Event<Span>>) -> Stepped {
        Stepped { player: self, events, action: ActionView::Wait }
    }

    /// With nothing to play, after a command.
    pub open spec fn idled(self, cmd: Cmd) -> Stepped {
        let (next, reopen) = self.applied(cmd);
        if reopen {
            next.turned(Seq::empty())
        } else {
            match next.play_state {
                PlayState::Paused => next.waiting(Seq::empty()),
                PlayState::Playing => if next.ix < next.queue.len() {
                    // Tracks appended and play pressed, in either order: start playing.
                    next.turned(Seq::empty())
                } else if next.queue.len() > 0 {
                    // Play on a finished queue: start it over from the top.
                    PlayerView { ix: 0, ..next }.turned(Seq::empty())
                } else {
                    // No autoplay surprises: a play press on an empty queue must not
                    // linger and start playback whenever tracks eventually arrive.
                    PlayerView { play_state: PlayState::Paused, ..next }.waiting(Seq::empty())
                },
            }
        }
    }

    /// Between two reads: what is wanted next, apart from a buffered command.
    pub open spec fn polling(self, events: Seq<Event<Span>>) -> Stepped {
        Stepped {
            player: PlayerView { phase: Phase::Polling, ..self },
            events,
            action: match self.play_state {
                PlayState::Paused => ActionView::Wait,
                PlayState::Playing => ActionView::Look,
            },
        }
    }

    /// On with the track: a read while it plays, and else a command.
    pub open spec fn carried_on(self, events: Seq<Event<Span>>) -> Stepped {
        match self.play_state {
            PlayState::Playing => Stepped {
                player: PlayerView { phase: Phase::Reading, ..self },
                events,
                action: ActionView::Read,
            },
            PlayState::Paused => self.polling(events),
        }
    }

    /// With an open track, after a command.
    pub open spec fn commanded(self, cmd: Cmd) -> Stepped {
        match cmd {
            // A burst of seeks is coalesced: only the latest is worth servicing.
            Cmd::Seek(t) => Stepped {
                player: PlayerView { phase: Phase::Coalescing(t), ..self },
                events: Seq::empty(),
                action: ActionView::Look,
            },
            _ => if cmd is Prev && self.track.pos > 3 * self.track.rate {
                // Like most players: an early "previous" goes to the previous track, a later one
                // restarts the current track.
                PlayerView { start_at: 0, ..self }.turned(Seq::empty())
            } else {
                let (next, reopen) = self.applied(cmd);
                if reopen {
                    next.turned(Seq::empty())
                } else {
                    next.carried_on(
                        if next.play_state != self.play_state {
                            seq![Event::PlayState(next.play_state)]
                        } else {
                            Seq::empty()
                        },
                    )
                }
            },
        }
    }

    /// After some samples, which may be none at the end of a track.
    pub open spec fn played(self, read: Option<usize>) -> Stepped {
        match read {
            // The next track, whatever the repeat mode: repeating a broken track would loop the
            // error forever.
            None => PlayerView { ix: following(self.ix), ..self }.turned(Seq::empty()),
            Some(n) => if n == 0 {
                PlayerView { ix: advanced(self.queue, self.ix, self.repeat), ..self }.turned(Seq::empty())
            } else {
                let pos = if self.track.pos + n > u64::MAX {
                    u64::MAX
                } else {
                    (self.track.pos + n) as u64
                };
                if pos < self.track.reported || pos - self.track.reported > self.track.rate as u64
                    / PROGRESS_UPDATES_PER_SEC {
                    let track = Playing { pos, reported: pos, ..self.track };
                    PlayerView { track, ..self }.polling(
                        seq![Event::Progress(Span { samples: pos, rate: track.rate })],
                    )
                } else {
                    PlayerView { track: Playing { pos, ..self.track }, ..self }.polling(Seq::empty())
                }
            },
        }
    }

    /// The step that an input leads to. An input that the phase does not ask for changes nothing, and is
    /// answered with what is asked for.
    pub open spec fn stepped(self, input: Input) -> Stepped {
        match (self.phase, input) {
            (Phase::Idle, Input::Command(cmd)) => self.idled(cmd),
            (Phase::Opening, Input::NotOpened) => PlayerView {
                ix: following(self.ix),
                start_at: 0,
                ..self
            }.turned(Seq::empty()),
            (Phase::Opening, Input::Opened { rate, len }) => Stepped {
                player: PlayerView {
                    track: Playing { rate, pos: 0, reported: 0 },
                    phase: Phase::Starting,
                    ..self
                },
                events: seq![
                    Event::TrackStarted {
                        ix: self.ix,
                        len: match len {
                            Some(samples) => Some(Span { samples, rate }),
                            None => None,
                        },
                    },
                    Event::PlayState(self.play_state),
                ],
                action: ActionView::FastForward(self.start_at),
            },
            (Phase::Starting, Input::Forwarded(moved)) => {
                let pos = match moved {
                    Some(pos) => pos,
                    None => 0,
                };
                let track = Playing { pos, reported: pos, ..self.track };
                PlayerView { track, start_at: 0, ..self }.polling(
                    seq![Event::Progress(Span { samples: pos, rate: track.rate })],
                )
            },
            (Phase::Polling, Input::Command(cmd)) => self.commanded(cmd),
            (Phase::Polling, Input::NoCommand) => self.carried_on(Seq::empty()),
            (Phase::Coalescing(_), Input::Command(Cmd::Seek(next))) => Stepped {
                player: PlayerView { phase: Phase::Coalescing(next), ..self },
                events: Seq::empty(),
                action: ActionView::Look,
            },
            // The command that ends the run of seeks is kept, to be handled in order.
            (Phase::Coalescing(t), Input::Command(cmd)) => Stepped {
                player: PlayerView { buffered: Some(cmd), phase: Phase::Seeking(t), ..self },
                events: Seq::empty(),
                action: ActionView::Seek(t),
            },
            (Phase::Coalescing(t), Input::NoCommand) => Stepped {
                player: PlayerView { phase: Phase::Seeking(t), ..self },
                events: Seq::empty(),
                action: ActionView::Seek(t),
            },
            (Phase::Seeking(_), Input::Sought { landed: Some(pos), target }) => {
                let track = Playing { pos, reported: pos, ..self.track };
                PlayerView { track, ..self }.carried_on(
                    seq![Event::Progress(Span { samples: pos, rate: track.rate })],
                )
            },
            // Restart the current track, fast-forwarding to the target.
            (Phase::Seeking(_), Input::Sought { landed: None, target }) => PlayerView {
                start_at: target,
                ..self
            }.turned(Seq::empty()),
            (Phase::Reading, Input::Read(n)) => self.played(n),
            _ => Stepped { player: self, events: Seq::empty(), action: self.asked() },
        }
    }

    /// Whether the phase asks for a command, so that a buffered one is due.
    pub open spec fn is_due(self) -> bool {
        self.buffered is Some && (self.phase is Idle || self.phase is Polling)
    }

    /// What the phase asks for.
    pub open spec fn asked(self) -> ActionView {
        match self.phase {
            Phase::Idle => ActionView::Wait,
            Phase::Opening => if self.ix < self.queue.len() {
                ActionView::Open(self.queue[self.ix as int].path@)
            } else {
                ActionView::Wait
            },
            Phase::Starting => ActionView::FastForward(self.start_at),
            Phase::Polling => match self.play_state {
                PlayState::Paused => ActionView::Wait,
                PlayState::Playing => ActionView::Look,
            },
            Phase::Coalescing(_) => ActionView::Look,
            Phase::Seeking(t) => ActionView::Seek(t),
            Phase::Reading => ActionView::Read,
        }
    }
}

impl Stepped {
    /// With a buffered command handled, where one is due.
    pub open spec fn settled(self) -> Stepped {
        if self.player.is_due() {
            let cmd = self.player.buffered->0;
            let next = PlayerView { buffered: None, ..self.player }.stepped(Input::Command(cmd));
            Stepped { player: next.player, events: self.events + next.events, action: next.action }
        } else {
            self
        }
    }
}

/// What is reported after a step, and what is wanted next.
pub struct Step {
    pub events: Vec<Event<Span>>,
    pub action: Action,
}

impl Step {
    /// The step and the player's state after it are those specified.
    pub open spec fn is(&self, player: &Player, stepped: Stepped) -> bool {
        &&& player@ == stepped.player
        &&& self.events@ == stepped.events
        &&& self.action@ == stepped.action
    }
}

impl Player {
    /// A player with an empty queue, and what it reports and wants first.
    pub fn new() -> (r: (Player, Step))
        ensures
            r.1.is(
                &r.0,
                (PlayerView {
                    queue: Seq::empty(),
                    ix: 0,
                    start_at: 0,
                    play_state: PlayState::Paused,
                    repeat: Repeat::Off,
                    buffered: None,
                    track: Playing { rate: PLAYBACK_SAMPLE_RATE, pos: 0, reported: 0 },
                    phase: Phase::Idle,
                }).turned(Seq::empty()),
            ),
    {
        let mut player: Player = Player {
            queue: Vec::new(),
            ix: 0,
            start_at: 0,
            play_state: PlayState::Paused,
            repeat: Repeat::Off,
            buffered: None,
            track: Playing { rate: PLAYBACK_SAMPLE_RATE, pos: 0, reported: 0 },
            phase: Phase::Idle,
        };
        let step: Step = player.turn(Vec::new());
        (player, step)
    }

    /// Applies the commands that make sense in every state. Returns whether the current track is to be
    /// abandoned for the one at the queue index.
    fn apply_cmd(&mut self, cmd: Cmd) -> (reopen: bool)
        ensures
            (final(self)@, reopen) == old(self)@.applied(cmd),
    {
        match cmd {
            Cmd::SetQueue { tracks, start, play } => {
                let len: usize = tracks.len();
                self.queue = tracks;
                self.ix = if start < len {
                    start
                } else {
                    len
                };
                self.start_at = 0;
                self.play_state = play;
                true
            },
            Cmd::Append { tracks } => {
                let mut tracks = tracks;
                self.queue.append(&mut tracks);
                false
            },
            Cmd::Reorder { tracks, current } => {
                let len: usize = tracks.len();
                self.queue = tracks;
                self.ix = if current < len {
                    current
                } else {
                    len
                };
                false
            },
            Cmd::JumpTo(i) => {
                self.ix = i;
                self.start_at = 0;
                self.play_state = PlayState::Playing;
                true
            },
            Cmd::Next => {
                self.ix = if self.repeat == Repeat::Playlist && self.ix.saturating_add(1)
                    >= self.queue.len() && self.queue.len() > 0 {
                    0
                } else {
                    self.ix.saturating_add(1)
                };
                self.start_at = 0;
                true
            },
            Cmd::Prev => {
                self.ix = if self.ix > 0 {
                    self.ix - 1
                } else if self.repeat == Repeat::Playlist && self.queue.len() > 0 {
                    self.queue.len() - 1
                } else {
                    0
                };
                self.start_at = 0;
                true
            },
            Cmd::TogglePlayPause => {
                self.play_state = self.play_state.toggled();
                false
            },
            Cmd::Seek(_) => false,
            Cmd::SetRepeat(mode) => {
                self.repeat = mode;
                false
            },
        }
    }

    fn turn(&mut self, events: Vec<Event<Span>>) -> (step: Step)
        ensures
            step.is(final(self), old(self)@.turned(events@)),
    {
        let mut events = events;
        if self.ix < self.queue.len() {
            self.phase = Phase::Opening;
            let path: String = self.queue[self.ix].path.clone();
            Step { events, action: Action::Open { path } }
        } else {
            self.play_state = PlayState::Paused;
            self.phase = Phase::Idle;
            events.push(Event::QueueEnded);
            Step { events, action: Action::Wait }
        }
    }

    fn idle(&mut self, cmd: Cmd) -> (step: Step)
        ensures
            step.is(final(self), old(self)@.idled(cmd)),
    {
        if self.apply_cmd(cmd) {
            return self.turn(Vec::new());
        }
        match self.play_state {
            PlayState::Paused => {},
            PlayState::Playing => {
                if self.ix < self.queue.len() {
                    return self.turn(Vec::new());
                }
                if self.queue.len() > 0 {
                    self.ix = 0;
                    return self.turn(Vec::new());
                }
                self.play_state = PlayState::Paused;
            },
        }
        Step { events: Vec::new(), action: Action::Wait }
    }

    fn poll(&mut self, events: Vec<Event<Span>>) -> (step: Step)
        ensures
            step.is(final(self), old(self)@.polling(events@)),
    {
        self.phase = Phase::Polling;
        Step {
            events,
            action: match self.play_state {
                PlayState::Paused => Action::Wait,
                PlayState::Playing => Action::Look,
            },
        }
    }

    fn carry_on(&mut self, events: Vec<Event<Span>>) -> (step: Step)
        ensures
            step.is(final(self), old(self)@.carried_on(events@)),
    {
        match self.play_state {
            PlayState::Playing => {
                self.phase = Phase::Reading;
                Step { events, action: Action::Read }
            },
            PlayState::Paused => self.poll(events),
        }
    }

    fn command(&mut self, cmd: Cmd) -> (step: Step)
        ensures
            step.is(final(self), old(self)@.commanded(cmd)),
    {
        match cmd {
            Cmd::Seek(t) => {
                self.phase = Phase::Coalescing(t);
                Step { events: Vec::new(), action: Action::Look }
            },
            Cmd::Prev if self.track.pos > 3 * self.track.rate as u64 => {
                self.start_at = 0;
                self.turn(Vec::new())
            },
            cmd => {
                let before: PlayState = self.play_state;
                if self.apply_cmd(cmd) {
                    return self.turn(Vec::new());
                }
                let mut events: Vec<Event<Span>> = Vec::new();
                if self.play_state != before {
                    events.push(Event::PlayState(self.play_state));
                    assert(events@ =~= seq![Event::PlayState(self.play_state)]);
                }
                self.carry_on(events)
            },
        }
    }

    fn play(&mut self, read: Option<usize>) -> (step: Step)
        ensures
            step.is(final(self), old(self)@.played(read)),
    {
        match read {
            None => {
                self.ix = self.ix.saturating_add(1);
                self.turn(Vec::new())
            },
            Some(n) => {
                if n == 0 {
                    self.ix = next_track_ix(&self.queue, self.ix, self.repeat);
                    return self.turn(Vec::new());
                }
                let pos: u64 = self.track.pos.saturating_add(n as u64);
                let interval: u64 = self.track.rate as u64 / PROGRESS_UPDATES_PER_SEC;
                self.track.pos = pos;
                let mut events: Vec<Event<Span>> = Vec::new();
                if pos < self.track.reported || pos - self.track.reported > interval {
                    self.track.reported = pos;
                    let rate: u32 = self.track.rate;
                    events.push(Event::Progress(Span { samples: pos, rate }));
                    assert(events@ =~= seq![Event::Progress(Span { samples: pos, rate })]);
                }
                self.poll(events)
            },
        }
    }

    /// One step, with a buffered command left alone.
    fn step_once(&mut self, input: Input) -> (step: Step)
        ensures
            step.is(final(self), old(self)@.stepped(input)),
    {
        match (self.phase, input) {
            (Phase::Idle, Input::Command(cmd)) => self.idle(cmd),
            (Phase::Opening, Input::NotOpened) => {
                self.ix = self.ix.saturating_add(1);
                self.start_at = 0;
                self.turn(Vec::new())
            },
            (Phase::Opening, Input::Opened { rate, len }) => {
                self.track = Playing { rate, pos: 0, reported: 0 };
                self.phase = Phase::Starting;
                let len: Option<Span> = match len {
                    Some(samples) => Some(Span { samples, rate }),
                    None => None,
                };
                let mut events: Vec<Event<Span>> = Vec::new();
                events.push(Event::TrackStarted { ix: self.ix, len });
                events.push(Event::PlayState(self.play_state));
                assert(events@ =~= old(self)@.stepped(input).events);
                Step { events, action: Action::FastForward(self.start_at) }
            },
            (Phase::Starting, Input::Forwarded(moved)) => {
                let pos: u64 = match moved {
                    Some(pos) => pos,
                    None => 0,
                };
                self.start_at = 0;
                let events: Vec<Event<Span>> = self.arrive(pos);
                self.poll(events)
            },
            (Phase::Polling, Input::Command(cmd)) => self.command(cmd),
            (Phase::Polling, Input::NoCommand) => self.carry_on(Vec::new()),
            (Phase::Coalescing(_), Input::Command(Cmd::Seek(next))) => {
                self.phase = Phase::Coalescing(next);
                Step { events: Vec::new(), action: Action::Look }
            },
            (Phase::Coalescing(t), Input::Command(cmd)) => {
                self.buffered = Some(cmd);
                self.phase = Phase::Seeking(t);
                Step { events: Vec::new(), action: Action::Seek(t) }
            },
            (Phase::Coalescing(t), Input::NoCommand) => {
                self.phase = Phase::Seeking(t);
                Step { events: Vec::new(), action: Action::Seek(t) }
            },
            (Phase::Seeking(_), Input::Sought { landed: Some(pos), target }) => {
                let events: Vec<Event<Span>> = self.arrive(pos);
                self.carry_on(events)
            },
            (Phase::Seeking(_), Input::Sought { landed: None, target }) => {
                self.start_at = target;
                self.turn(Vec::new())
            },
            (Phase::Reading, Input::Read(n)) => self.play(n),
            _ => Step { events: Vec::new(), action: self.ask() },
        }
    }

    /// Moves to a position in the open track, and reports it.
    fn arrive(&mut self, pos: u64) -> (events: Vec<Event<Span>>)
        ensures
            final(self)@ == (PlayerView {
                track: Playing { pos, reported: pos, ..old(self).track },
                ..old(self)@
            }),
            events@ == seq![Event::Progress(Span { samples: pos, rate: old(self).track.rate })],
    {
        self.track.pos = pos;
        self.track.reported = pos;
        let rate: u32 = self.track.rate;
        let mut events: Vec<Event<Span>> = Vec::new();
        events.push(Event::Progress(Span { samples: pos, rate }));
        assert(events@ =~= seq![Event::Progress(Span { samples: pos, rate })]);
        events
    }

    fn ask(&self) -> (action: Action)
        ensures
            action@ == self@.asked(),
    {
        match self.phase {
            Phase::Idle => Action::Wait,
            Phase::Opening => if self.ix < self.queue.len() {
                Action::Open { path: self.queue[self.ix].path.clone() }
            } else {
                Action::Wait
            },
            Phase::Starting => Action::FastForward(self.start_at),
            Phase::Polling => match self.play_state {
                PlayState::Paused => Action::Wait,
                PlayState::Playing => Action::Look,
            },
            Phase::Coalescing(_) => Action::Look,
            Phase::Seeking(t) => Action::Seek(t),
            Phase::Reading => Action::Read,
        }
    }

    /// Takes what came of the last action, and says what is reported and what is to be done next.
    pub fn step(&mut self, input: Input) -> (step: Step)
        ensures
            step.is(final(self), old(self)@.stepped(input).settled()),
    {
        let mut step: Step = self.step_once(input);
        let due: bool = match self.phase {
            Phase::Idle => true,
            Phase::Polling => true,
            _ => false,
        };
        if due {
            match self.buffered.take() {
                Some(cmd) => {
                    let next: Step = self.step_once(Input::Command(cmd));
                    let mut more = next.events;
                    step.events.append(&mut more);
                    step.action = next.action;
                },
                None => {},
            }
        }
        step
    }
}

/// Four presses of the repeat button come back to the mode that they started from, and no fewer do.
pub proof fn law_repeat_cycles_through_four(repeat: Repeat)
    ensures
        repeat.next() != repeat,
        repeat.next().next() != repeat,
        repeat.next().next().next() != repeat,
        repeat.next().next().next().next() == repeat,
{
}

/// Toggling twice changes nothing.
pub proof fn law_toggling_twice(state: PlayState)
    ensures
        state.other() != state,
        state.other().other() == state,
{
}

proof fn lemma_run_start(queue: Seq<Entry>, ix: int)
    requires
        0 <= ix < queue.len(),
    ensures
        ({
            let first = run_start(queue, ix);
            &&& 0 <= first <= ix
            &&& first > 0 ==> queue[first - 1].album != queue[first].album
            &&& forall|k: int| first <= k <= ix ==> (#[trigger] queue[k]).album == queue[ix].album
        }),
    decreases ix,
{
    if ix > 0 && queue[ix - 1].album == queue[ix].album {
        lemma_run_start(queue, ix - 1);
    }
}

/// Repeating an album stays in its run: the next track is of the same album, and it is the one behind, or
/// the first of the run behind its last.
pub proof fn law_repeating_an_album_stays_in_its_run(queue: Seq<Entry>, ix: usize)
    requires
        ix < queue.len() <= usize::MAX,
    ensures
        ({
            let next = advanced(queue, ix, Repeat::Album);
            &&& next < queue.len()
            &&& queue[next as int].album == queue[ix as int].album
            &&& next == ix + 1 || (next <= ix && (next > 0 ==> queue[next - 1].album
                != queue[next as int].album) && (ix + 1 < queue.len() ==> queue[ix + 1].album
                != queue[ix as int].album))
            &&& forall|k: int|
                next <= k <= ix ==> (#[trigger] queue[k]).album == queue[ix as int].album
        }),
{
    lemma_run_start(queue, ix as int);
}

/// Repeating a playlist goes on for ever: there is always a next track.
pub proof fn law_repeating_a_playlist_never_ends(queue: Seq<Entry>, ix: usize)
    requires
        ix < queue.len() <= usize::MAX,
    ensures
        advanced(queue, ix, Repeat::Playlist) < queue.len(),
{
}

/// Without repeating, a queue is played through once: each track is followed by the one behind it, and
/// the last by none.
pub proof fn law_without_repeating_the_queue_ends(queue: Seq<Entry>, ix: usize)
    requires
        ix < queue.len() <= usize::MAX,
    ensures
        advanced(queue, ix, Repeat::Off) == ix + 1,
        ix + 1 == queue.len() ==> advanced(queue, ix, Repeat::Off) >= queue.len(),
{
}

/// Pressing play on an empty queue does nothing that lingers: the player is as paused as before, and
/// tracks that arrive later do not start on their own.
pub proof fn law_play_on_an_empty_queue_does_not_linger(player: PlayerView, tracks: Vec<Entry>)
    requires
        player.phase is Idle,
        player.queue.len() == 0,
        player.play_state == PlayState::Paused,
    ensures
        player.stepped(Input::Command(Cmd::TogglePlayPause)).player == player,
        player.stepped(Input::Command(Cmd::TogglePlayPause)).action is Wait,
        player.stepped(Input::Command(Cmd::Append { tracks })).action is Wait,
        player.stepped(Input::Command(Cmd::Append { tracks })).player.play_state == PlayState::Paused,
{
}

/// Commands that do not open a track leave the one that plays alone: its rate, its position, and that it
/// is read on.
pub proof fn law_appending_and_reordering_do_not_interrupt(player: PlayerView, cmd: Cmd)
    requires
        player.phase is Polling,
        player.play_state == PlayState::Playing,
        cmd is Append || cmd is Reorder || cmd is SetRepeat,
    ensures
        ({
            let next = player.stepped(Input::Command(cmd));
            &&& next.action is Read
            &&& next.player.track == player.track
            &&& next.player.play_state == player.play_state
            &&& next.events == Seq::<Event<Span>>::empty()
        }),
{
}

/// The state after a run of further seeks that arrive while one is due.
pub open spec fn after_seeks(player: PlayerView, targets: Seq<Nanos>) -> PlayerView
    decreases targets.len(),
{
    if targets.len() == 0 {
        player
    } else {
        after_seeks(player, targets.drop_last()).stepped(
            Input::Command(Cmd::Seek(targets.last())),
        ).player
    }
}

proof fn lemma_after_seeks(player: PlayerView, targets: Seq<Nanos>)
    requires
        player.phase is Polling,
        targets.len() > 0,
    ensures
        after_seeks(player, targets) == (PlayerView {
            phase: Phase::Coalescing(targets.last()),
            ..player
        }),
    decreases targets.len(),
{
    if targets.len() > 1 {
        lemma_after_seeks(player, targets.drop_last());
    } else {
        assert(after_seeks(player, targets.drop_last()) == player);
    }
}

/// Of a burst of seeks only the latest is carried out, and the command that ends the burst is kept.
pub proof fn law_a_burst_of_seeks_goes_to_the_latest(player: PlayerView, targets: Seq<Nanos>, cmd: Cmd)
    requires
        player.phase is Polling,
        targets.len() > 0,
        cmd !is Seek,
    ensures
        after_seeks(player, targets).stepped(Input::NoCommand).action == ActionView::Seek(targets.last()),
        after_seeks(player, targets).stepped(Input::Command(cmd)).action == ActionView::Seek(
            targets.last(),
        ),
        after_seeks(player, targets).stepped(Input::Command(cmd)).player.buffered == Some(cmd),
{
    lemma_after_seeks(player, targets);
}

/// As long as tracks are opened at some sample rate, all that is reported takes some time.
pub proof fn law_reports_have_a_rate(player: PlayerView, input: Input)
    requires
        player.track.rate > 0,
        input matches Input::Opened { rate, .. } ==> rate > 0,
    ensures
        ({
            let step = player.stepped(input).settled();
            &&& step.player.track.rate > 0
            &&& forall|k: int| 0 <= k < step.events.len() ==> has_rate(#[trigger] step.events[k])
        }),
{
}

/// A position further on in a track is no earlier a time.
pub proof fn law_time_goes_on(a: u64, b: u64, rate: u32)
    requires
        a <= b,
        rate > 0,
    ensures
        time_of(Span { samples: a, rate }) <= time_of(Span { samples: b, rate }),
{
    let x = 2 * a as int * 1_000_000_000 + rate as int;
    let y = 2 * b as int * 1_000_000_000 + rate as int;
    let d = 2 * rate as int;
    assert(x / d <= y / d) by (nonlinear_arith)
        requires
            x <= y,
            d > 0,
    ;
}

/// A track that cannot be decoded is left for the next one even where the track, or its album, repeats.
pub proof fn law_a_broken_track_is_not_repeated(player: PlayerView)
    requires
        player.phase is Reading,
        player.ix < player.queue.len() <= usize::MAX,
    ensures
        player.stepped(Input::Read(None)).player.ix == player.ix + 1,
{
}

/// While a track plays, or is held, Next opens the one behind it in every repeat mode, from its start. Behind
/// the last it opens the first one where the playlist repeats, and ends the queue otherwise.
pub proof fn law_next_opens_the_track_behind(player: PlayerView)
    requires
        player.phase is Polling,
        player.buffered is None,
        player.ix < player.queue.len() <= usize::MAX,
    ensures
        ({
            let next = player.stepped(Input::Command(Cmd::Next)).settled();
            let len = player.queue.len();
            &&& next.player.queue == player.queue
            &&& next.player.repeat == player.repeat
            &&& player.ix + 1 < len ==> {
                &&& next.player.ix == player.ix + 1
                &&& next.action == ActionView::Open(player.queue[player.ix + 1].path@)
                &&& next.player.start_at == 0
                &&& next.player.play_state == player.play_state
                &&& next.events.len() == 0
            }
            &&& player.ix + 1 == len && player.repeat == Repeat::Playlist ==> {
                &&& next.player.ix == 0
                &&& next.action == ActionView::Open(player.queue[0].path@)
                &&& next.player.start_at == 0
                &&& next.player.play_state == player.play_state
            }
            &&& player.ix + 1 == len && player.repeat != Repeat::Playlist ==> {
                &&& next.action is Wait
                &&& next.events == seq![Event::<Span>::QueueEnded]
                &&& next.player.play_state == PlayState::Paused
                &&& next.player.ix >= len
            }
        }),
{
}

/// Prev within the first three seconds of a track opens the one before it, in every repeat mode. Before the
/// first it opens the last one where the playlist repeats, and the first again otherwise. Later in a track it
/// starts that over.
pub proof fn law_prev_opens_the_track_before(player: PlayerView)
    requires
        player.phase is Polling,
        player.buffered is None,
        player.ix < player.queue.len() <= usize::MAX,
    ensures
        ({
            let next = player.stepped(Input::Command(Cmd::Prev)).settled();
            let early = player.track.pos <= 3 * player.track.rate;
            let opened = if !early {
                player.ix as int
            } else if player.ix > 0 {
                player.ix - 1
            } else if player.repeat == Repeat::Playlist {
                player.queue.len() - 1
            } else {
                0
            };
            &&& next.player.ix == opened
            &&& next.action == ActionView::Open(player.queue[opened].path@)
            &&& next.player.start_at == 0
            &&& next.player.queue == player.queue
            &&& next.player.play_state == player.play_state
            &&& next.player.repeat == player.repeat
        }),
{
}

/// Next and then Prev, pressed before the track has gone far, leads back to the track that they started from,
/// wherever there is one behind it.
pub proof fn law_next_and_prev_lead_back(player: PlayerView, rate: u32, len: Option<u64>, moved: Option<u64>)
    requires
        player.phase is Polling,
        player.buffered is None,
        player.ix < player.queue.len() <= usize::MAX,
        player.ix + 1 < player.queue.len() || (player.repeat == Repeat::Playlist && player.queue.len() > 1),
        moved matches Some(pos) ==> pos <= 3 * rate,
    ensures
        ({
            let skipped = player.stepped(Input::Command(Cmd::Next)).settled().player;
            let opened = skipped.stepped(Input::Opened { rate, len }).settled().player;
            let started = opened.stepped(Input::Forwarded(moved)).settled().player;
            let back = started.stepped(Input::Command(Cmd::Prev)).settled();
            &&& back.player.ix == player.ix
            &&& back.action == ActionView::Open(player.queue[player.ix as int].path@)
        }),
{
}

/// Jumping opens the track at the index that was asked for, and plays it; one that the queue does not have
/// ends it.
pub proof fn law_a_jump_opens_what_it_names(player: PlayerView, ix: usize)
    requires
        player.phase is Polling || player.phase is Idle,
        player.buffered is None,
    ensures
        ({
            let next = player.stepped(Input::Command(Cmd::JumpTo(ix))).settled();
            &&& next.player.queue == player.queue
            &&& ix < player.queue.len() ==> {
                &&& next.player.ix == ix
                &&& next.action == ActionView::Open(player.queue[ix as int].path@)
                &&& next.player.play_state == PlayState::Playing
                &&& next.player.start_at == 0
            }
            &&& ix >= player.queue.len() ==> {
                &&& next.action is Wait
                &&& next.player.play_state == PlayState::Paused
                &&& next.events == seq![Event::<Span>::QueueEnded]
            }
        }),
{
}

/// A new queue replaces the old one, and opens the track at its start index in the state that was asked for.
pub proof fn law_a_new_queue_opens_its_start(player: PlayerView, tracks: Vec<Entry>, start: usize, play: PlayState)
    requires
        player.phase is Polling || player.phase is Idle,
        player.buffered is None,
    ensures
        ({
            let next = player.stepped(Input::Command(Cmd::SetQueue { tracks, start, play })).settled();
            &&& next.player.queue == tracks@
            &&& next.player.repeat == player.repeat
            &&& start < tracks@.len() ==> {
                &&& next.player.ix == start
                &&& next.action == ActionView::Open(tracks@[start as int].path@)
                &&& next.player.play_state == play
                &&& next.player.start_at == 0
            }
            &&& start >= tracks@.len() ==> next.action is Wait && next.player.play_state == PlayState::Paused
        }),
{
}

/// Appended tracks come behind all others, and a reordering replaces the queue; the track that is open goes on,
/// at its index in the new order.
pub proof fn law_the_queue_is_what_it_is_made(player: PlayerView, tracks: Vec<Entry>, current: usize)
    requires
        player.phase is Polling,
        player.buffered is None,
    ensures
        ({
            let appended = player.stepped(Input::Command(Cmd::Append { tracks })).settled().player;
            &&& appended.queue.len() == player.queue.len() + tracks@.len()
            &&& forall|k: int| 0 <= k < player.queue.len() ==> #[trigger] appended.queue[k] == player.queue[k]
            &&& forall|k: int|
                0 <= k < tracks@.len() ==> appended.queue[player.queue.len() + k] == #[trigger] tracks@[k]
            &&& appended.ix == player.ix
        }),
        ({
            let reordered = player.stepped(Input::Command(Cmd::Reorder { tracks, current })).settled().player;
            &&& reordered.queue == tracks@
            &&& current < tracks@.len() ==> reordered.ix == current
            &&& reordered.track == player.track
            &&& reordered.play_state == player.play_state
        }),
{
}

/// Play and pause take turns, and are reported: a track that plays is held where it is and a command waited
/// for, and one that is held is read on from there.
pub proof fn law_toggling_holds_and_resumes(player: PlayerView)
    requires
        player.phase is Polling,
        player.buffered is None,
    ensures
        ({
            let next = player.stepped(Input::Command(Cmd::TogglePlayPause)).settled();
            &&& next.player.track == player.track
            &&& next.player.ix == player.ix
            &&& next.player.queue == player.queue
            &&& player.play_state == PlayState::Playing ==> {
                &&& next.action is Wait
                &&& next.player.play_state == PlayState::Paused
                &&& next.events == seq![Event::<Span>::PlayState(PlayState::Paused)]
            }
            &&& player.play_state == PlayState::Paused ==> {
                &&& next.action is Read
                &&& next.player.play_state == PlayState::Playing
                &&& next.events == seq![Event::<Span>::PlayState(PlayState::Playing)]
            }
        }),
{
}

/// Play on a queue that was played through starts it over from its first track; play on one that has a track
/// at its index opens that.
pub proof fn law_play_starts_an_idle_queue(player: PlayerView)
    requires
        player.phase is Idle,
        player.buffered is None,
        player.play_state == PlayState::Paused,
        0 < player.queue.len() <= usize::MAX,
    ensures
        ({
            let next = player.stepped(Input::Command(Cmd::TogglePlayPause)).settled();
            let ix = if player.ix < player.queue.len() {
                player.ix as int
            } else {
                0
            };
            &&& next.player.ix == ix
            &&& next.action == ActionView::Open(player.queue[ix].path@)
            &&& next.player.play_state == PlayState::Playing
        }),
{
}

/// When a track ends on its own the repeat mode says what follows: without repeating the one behind it, or the
/// end; repeating the track, the same; repeating the playlist, the one behind it, or the first behind the last;
/// repeating the album, the one behind it where that is of the same album.
pub proof fn law_the_repeat_mode_says_what_follows(player: PlayerView)
    requires
        player.phase is Reading,
        player.buffered is None,
        player.ix < player.queue.len() <= usize::MAX,
    ensures
        ({
            let next = player.stepped(Input::Read(Some(0))).settled();
            let len = player.queue.len();
            let ix = player.ix as int;
            let opens = |k: int| next.player.ix == k && next.action == ActionView::Open(player.queue[k].path@);
            let ends = next.action is Wait && next.player.play_state == PlayState::Paused && next.events
                == seq![Event::<Span>::QueueEnded];
            &&& player.repeat == Repeat::Off && ix + 1 < len ==> opens(ix + 1)
            &&& player.repeat == Repeat::Off && ix + 1 == len ==> ends
            &&& player.repeat == Repeat::Track ==> opens(ix)
            &&& player.repeat == Repeat::Playlist && ix + 1 < len ==> opens(ix + 1)
            &&& player.repeat == Repeat::Playlist && ix + 1 == len ==> opens(0)
            &&& player.repeat == Repeat::Album && ix + 1 < len && player.queue[ix + 1].album
                == player.queue[ix].album ==> opens(ix + 1)
            &&& player.repeat == Repeat::Album && (ix + 1 == len || player.queue[ix + 1].album
                != player.queue[ix].album) ==> {
                let first = next.player.ix as int;
                &&& opens(first)
                &&& 0 <= first <= ix
                &&& forall|k: int| first <= k <= ix ==> (#[trigger] player.queue[k]).album == player.queue[ix].album
                &&& first > 0 ==> player.queue[first - 1].album != player.queue[ix].album
            }
        }),
{
    lemma_run_start(player.queue, player.ix as int);
}

/// A file that cannot be opened, or not be decoded any further, is passed over for the one behind it, in every
/// repeat mode; behind the last one the queue ends.
pub proof fn law_a_broken_file_is_passed_over(player: PlayerView, input: Input)
    requires
        (player.phase is Opening && input is NotOpened) || (player.phase is Reading && input
            == Input::Read(None)),
        player.buffered is None,
        player.ix < player.queue.len() <= usize::MAX,
    ensures
        ({
            let next = player.stepped(input).settled();
            &&& player.ix + 1 < player.queue.len() ==> {
                &&& next.player.ix == player.ix + 1
                &&& next.action == ActionView::Open(player.queue[player.ix + 1].path@)
            }
            &&& player.ix + 1 == player.queue.len() ==> {
                &&& next.action is Wait
                &&& next.player.play_state == PlayState::Paused
                &&& next.events == seq![Event::<Span>::QueueEnded]
            }
        }),
{
}

/// An opened track is reported with its index and its length, and played from where it is to start: it is moved
/// there first, and then that position is reported.
pub proof fn law_a_track_starts_where_it_is_to(player: PlayerView, rate: u32, samples: u64, moved: u64)
    requires
        player.phase is Opening,
        player.buffered is None,
    ensures
        ({
            let opened = player.stepped(Input::Opened { rate, len: Some(samples) }).settled();
            let unknown = player.stepped(Input::Opened { rate, len: None }).settled();
            let started = opened.player.stepped(Input::Forwarded(Some(moved))).settled();
            &&& opened.action == ActionView::FastForward(player.start_at)
            &&& opened.events == seq![
                Event::TrackStarted { ix: player.ix, len: Some(Span { samples, rate }) },
                Event::PlayState(player.play_state),
            ]
            &&& unknown.events[0] == Event::TrackStarted { ix: player.ix, len: None::<Span> }
            &&& opened.player.track.rate == rate
            &&& started.player.track.pos == moved
            &&& started.player.track.rate == rate
            &&& started.events == seq![Event::Progress(Span { samples: moved, rate })]
            &&& player.play_state == PlayState::Playing ==> started.action is Look
            &&& player.play_state == PlayState::Paused ==> started.action is Wait
            &&& started.player.start_at == 0
        }),
{
}

/// A seek goes to the time that was asked for; what it lands on is where the track is read on and what is
/// reported. Where the track cannot be moved it is opened again, to be moved forward to the target.
pub proof fn law_a_seek_is_carried_out(player: PlayerView, t: Nanos, landed: u64, target: u64)
    requires
        player.phase is Polling,
        player.buffered is None,
        player.play_state == PlayState::Playing,
        player.ix < player.queue.len(),
    ensures
        ({
            let asked = player.stepped(Input::Command(Cmd::Seek(t))).settled();
            let due = asked.player.stepped(Input::NoCommand).settled();
            let there = due.player.stepped(Input::Sought { landed: Some(landed), target }).settled();
            let not = due.player.stepped(Input::Sought { landed: None, target }).settled();
            let again = not.player.stepped(Input::Opened { rate: player.track.rate, len: None }).settled();
            &&& asked.action is Look
            &&& due.action == ActionView::Seek(t)
            &&& there.action is Read
            &&& there.player.track.pos == landed
            &&& there.events == seq![Event::Progress(Span { samples: landed, rate: player.track.rate })]
            &&& there.player.ix == player.ix
            &&& not.action == ActionView::Open(player.queue[player.ix as int].path@)
            &&& not.player.ix == player.ix
            &&& again.action == ActionView::FastForward(target)
        }),
{
}

/// Reading goes on chunk by chunk: the position moves by as many samples as were read, and is reported once it
/// is more than a sixteenth of a second past what was reported last.
pub proof fn law_the_position_follows_what_is_read(player: PlayerView, n: usize)
    requires
        player.phase is Reading,
        player.buffered is None,
        player.play_state == PlayState::Playing,
        n > 0,
        player.track.reported <= player.track.pos,
        player.track.pos + n <= u64::MAX,
    ensures
        ({
            let next = player.stepped(Input::Read(Some(n))).settled();
            let then = next.player.stepped(Input::NoCommand).settled();
            let pos = player.track.pos + n;
            &&& next.player.track.pos == pos
            &&& next.player.track.rate == player.track.rate
            &&& next.player.ix == player.ix
            &&& next.player.queue == player.queue
            &&& next.action is Look
            &&& then.action is Read
            &&& 16 * (pos - player.track.reported) <= player.track.rate ==> next.events.len() == 0
            &&& 16 * (pos - player.track.reported) >= player.track.rate + 16 ==> next.events == seq![
                Event::Progress(Span { samples: pos as u64, rate: player.track.rate }),
            ]
        }),
{
}

/// A time is the nearest nanosecond to the samples at their rate: a whole number of seconds takes exactly that
/// long, and no time is off by more than half a nanosecond.
pub proof fn law_times_are_to_the_nearest_nanosecond(samples: u64, rate: u32, secs: nat)
    requires
        rate > 0,
    ensures
        samples == secs * rate ==> length_of(samples, rate) == secs * 1_000_000_000,
        ({
            let off = 2 * (length_of(samples, rate) * rate - samples * 1_000_000_000);
            -rate <= off <= rate
        }),
{
    let d = 2 * rate as int;
    let p = 2 * samples as int * 1_000_000_000 + rate as int;
    let q = p / d;
    assert(q * d <= p < q * d + d) by (nonlinear_arith)
        requires
            d > 0,
            q == p / d,
    ;
    assert(2 * (q * rate) == q * d) by (nonlinear_arith)
        requires
            d == 2 * rate as int,
    ;
    if samples == secs * rate {
        assert(p == secs * 1_000_000_000 * d + rate) by (nonlinear_arith)
            requires
                p == 2 * (secs * rate) * 1_000_000_000 + rate,
                d == 2 * rate as int,
        ;
        let s = secs * 1_000_000_000;
        assert(q == s) by (nonlinear_arith)
            requires
                q * d <= p < q * d + d,
                p == s * d + rate,
                0 < rate < d,
        ;
    }
}

/// Events are passed on with their times: which track started and how long it is, where it is, and whether it
/// plays.
pub proof fn law_events_keep_what_they_say(event: Event<Span>, span: Span, ix: usize, state: PlayState)
    ensures
        timed_event(Event::Progress(span)) == Event::Progress(time_of(span)),
        timed_event(Event::PlayState(state)) == Event::<Nanos>::PlayState(state),
        timed_event(Event::TrackStarted { ix, len: Some(span) }) == (Event::TrackStarted {
            ix,
            len: Some(time_of(span)),
        }),
        timed_event(Event::TrackStarted { ix, len: None }) == (Event::TrackStarted { ix, len: None::<Nanos> }),
        timed_event(event) is QueueEnded <==> event is QueueEnded,
{
}

} // verus!
