//! A player for the terminal: plays a list of files one after the other, and shows the one that is playing.
//!
//! What it does next is decided here; whoever runs it opens the files, keeps the audio flowing, and reads
//! the keys.

use crate::display::{clock, push_clock};
use crate::player::{following, length, length_of, PlayState, Span, PLAYBACK_SAMPLE_RATE, PROGRESS_UPDATES_PER_SEC};
use crate::text::copy;
use vstd::prelude::*;
use vstd::string::*;

verus! {

/// What the listener can ask for. Seeks go by whole seconds.
#[derive(Debug, Clone, Copy, PartialEq, Eq, Structural)]
pub enum Cmd {
    PlayPause,
    Restart,
    SeekForward(u32),
    SeekBackward(u32),
    Prev,
    Next,
}

/// What is shown of the playing track.
#[derive(Debug)]
pub enum Status {
    Track(String),
    /// Current position and, if known, the total length of the track.
    Progress(Span, Option<Span>),
    Finished,
}

/// What is shown, by its text.
#[verifier::ext_equal]
pub enum StatusView {
    Track(Seq<char>),
    Progress(Span, Option<Span>),
    Finished,
}

impl View for Status {
    type V = StatusView;

    open spec fn view(&self) -> StatusView {
        match *self {
            Status::Track(name) => StatusView::Track(name@),
            Status::Progress(at, end) => StatusView::Progress(at, end),
            Status::Finished => StatusView::Finished,
        }
    }
}

/// What is shown, in order.
pub open spec fn shown(statuses: Seq<Status>) -> Seq<StatusView> {
    statuses.map_values(|s: Status| s@)
}

/// What the deck waits for.
#[derive(Debug, Clone, Copy, PartialEq, Eq, Structural)]
pub enum Phase {
    /// A file to be opened.
    Opening,
    /// A track to be moved to where it starts.
    Starting,
    /// A command, or none, between two reads of a track.
    Polling,
    /// The outcome of a seek to the position.
    Seeking(u64),
    /// Samples.
    Reading,
    /// Nothing: the list has been played.
    Finished,
}

/// What the deck is told.
#[derive(Debug)]
pub enum Input {
    /// The track is open: its title, which may be empty, its sample rate and, where it is known, its length
    /// in samples.
    Opened { title: String, rate: u32, len: Option<u64> },
    /// The file cannot be opened.
    NotOpened,
    /// The track was moved forward by so many samples.
    Forwarded(u64),
    Command(Cmd),
    /// There is no command waiting.
    NoCommand,
    /// The track was moved to the position; `None` where it cannot be moved so.
    Sought(Option<u64>),
    /// So many samples were read, and written to the output: none at the end of the track, and where they
    /// cannot be decoded.
    Read(usize),
}

/// What the deck wants done.
#[derive(Debug)]
pub enum Action {
    /// Open the file at the path, and have the output at its rate.
    Open(String),
    /// Move the track that was just opened forward by so many samples.
    FastForward(u64),
    /// Wait for a command.
    Wait,
    /// Look for a command, without waiting.
    Look,
    /// Move the open track to the position.
    Seek(u64),
    /// Read some samples, and write them to the output.
    Read,
    Stop,
}

/// What the deck wants done, by the path it goes for.
#[verifier::ext_equal]
pub enum ActionView {
    Open(Seq<char>),
    FastForward(u64),
    Wait,
    Look,
    Seek(u64),
    Read,
    Stop,
}

impl View for Action {
    type V = ActionView;

    open spec fn view(&self) -> ActionView {
        match *self {
            Action::Open(path) => ActionView::Open(path@),
            Action::FastForward(n) => ActionView::FastForward(n),
            Action::Wait => ActionView::Wait,
            Action::Look => ActionView::Look,
            Action::Seek(to) => ActionView::Seek(to),
            Action::Read => ActionView::Read,
            Action::Stop => ActionView::Stop,
        }
    }
}

/// The state of the player.
#[derive(Debug)]
pub struct Deck {
    pub playlist: Vec<String>,
    pub ix: usize,
    /// Samples into the track to start from.
    pub start_at: u64,
    pub play_state: PlayState,
    pub rate: u32,
    pub len: Option<u64>,
    pub pos: u64,
    /// The position that was last shown.
    pub reported: u64,
    pub phase: Phase,
}

/// The state of the player, by what it holds.
#[verifier::ext_equal]
pub struct DeckView {
    pub playlist: Seq<String>,
    pub ix: usize,
    pub start_at: u64,
    pub play_state: PlayState,
    pub rate: u32,
    pub len: Option<u64>,
    pub pos: u64,
    pub reported: u64,
    pub phase: Phase,
}

impl View for Deck {
    type V = DeckView;

    open spec fn view(&self) -> DeckView {
        DeckView {
            playlist: self.playlist@,
            ix: self.ix,
            start_at: self.start_at,
            play_state: self.play_state,
            rate: self.rate,
            len: self.len,
            pos: self.pos,
            reported: self.reported,
            phase: self.phase,
        }
    }
}

/// What a step comes to.
#[verifier::ext_equal]
pub struct Stepped {
    pub deck: DeckView,
    pub statuses: Seq<StatusView>,
    pub action: ActionView,
}

/// A position moved by some samples, as far as it can be held.
pub open spec fn moved(pos: u64, by: int) -> u64 {
    if pos + by < 0 {
        0
    } else if pos + by > u64::MAX {
        u64::MAX
    } else {
        (pos + by) as u64
    }
}

/// The samples between two reports of a playing track's position.
pub open spec fn interval() -> int {
    PLAYBACK_SAMPLE_RATE as int / PROGRESS_UPDATES_PER_SEC as int
}

/// A stretch of so many samples.
pub open spec fn span(samples: u64, rate: u32) -> Span {
    Span { samples, rate }
}

impl DeckView {
    /// Turning to the file at the index, or ending where there is none.
    pub open spec fn turned(self) -> Stepped {
        if self.ix < self.playlist.len() {
            Stepped {
                deck: DeckView { phase: Phase::Opening, ..self },
                statuses: Seq::empty(),
                action: ActionView::Open(self.playlist[self.ix as int]@),
            }
        } else {
            Stepped {
                deck: DeckView { phase: Phase::Finished, ..self },
                statuses: seq![StatusView::Finished],
                action: ActionView::Stop,
            }
        }
    }

    /// Turning to the beginning of the file at an index.
    pub open spec fn turned_to(self, ix: usize) -> Stepped {
        DeckView { ix, start_at: 0, ..self }.turned()
    }

    /// Going on with the open track: reading, or waiting for a command while it is paused.
    pub open spec fn going_on(self) -> Stepped {
        match self.play_state {
            PlayState::Paused => Stepped {
                deck: DeckView { phase: Phase::Polling, ..self },
                statuses: Seq::empty(),
                action: ActionView::Wait,
            },
            PlayState::Playing => Stepped {
                deck: DeckView { phase: Phase::Reading, ..self },
                statuses: Seq::empty(),
                action: ActionView::Read,
            },
        }
    }

    /// Seeking within the open track.
    pub open spec fn seeking(self, target: u64) -> Stepped {
        Stepped {
            deck: DeckView { phase: Phase::Seeking(target), ..self },
            statuses: Seq::empty(),
            action: ActionView::Seek(target),
        }
    }

    /// After a command.
    pub open spec fn commanded(self, cmd: Cmd) -> Stepped {
        match cmd {
            Cmd::PlayPause => DeckView { play_state: self.play_state.other(), ..self }.going_on(),
            Cmd::Restart => self.turned_to(self.ix),
            Cmd::SeekForward(secs) => self.seeking(moved(self.pos, secs * self.rate)),
            Cmd::SeekBackward(secs) => self.seeking(moved(self.pos, -(secs * self.rate))),
            Cmd::Prev => self.turned_to(
                if self.ix > 0 {
                    (self.ix - 1) as usize
                } else {
                    0
                },
            ),
            Cmd::Next => self.turned_to(following(self.ix)),
        }
    }

    /// After some samples of the open track.
    pub open spec fn played(self, n: usize) -> Stepped {
        let pos = moved(self.pos, n as int);
        let due = pos < self.reported || pos - self.reported > interval();
        Stepped {
            deck: DeckView {
                pos,
                reported: if due {
                    pos
                } else {
                    self.reported
                },
                phase: Phase::Polling,
                ..self
            },
            statuses: if due {
                seq![
                    StatusView::Progress(
                        span(pos, self.rate),
                        match self.len {
                            Some(len) => Some(span(len, self.rate)),
                            None => None,
                        },
                    ),
                ]
            } else {
                Seq::empty()
            },
            action: ActionView::Look,
        }
    }

    /// The deck can be told this now.
    pub open spec fn takes(self, input: Input) -> bool {
        match (self.phase, input) {
            (Phase::Opening, Input::Opened { rate, .. }) => rate > 0 && self.ix < self.playlist.len(),
            (Phase::Opening, Input::NotOpened) => true,
            (Phase::Starting, Input::Forwarded(_)) => true,
            (Phase::Polling, Input::Command(_)) => true,
            (Phase::Polling, Input::NoCommand) => true,
            (Phase::Seeking(_), Input::Sought(_)) => true,
            (Phase::Reading, Input::Read(_)) => true,
            _ => false,
        }
    }

    /// What the deck does when it is told something.
    pub open spec fn step(self, input: Input) -> Stepped {
        match input {
            Input::Opened { title, rate, len } => Stepped {
                deck: DeckView { rate, len, phase: Phase::Starting, ..self },
                statuses: seq![
                    StatusView::Track(
                        if title@.len() == 0 {
                            self.playlist[self.ix as int]@
                        } else {
                            title@
                        },
                    ),
                ],
                action: ActionView::FastForward(self.start_at),
            },
            // A file that cannot be opened is skipped.
            Input::NotOpened => self.turned_to(following(self.ix)),
            Input::Forwarded(pos) => Stepped {
                deck: DeckView {
                    pos,
                    start_at: 0,
                    play_state: PlayState::Playing,
                    reported: 0,
                    phase: Phase::Polling,
                    ..self
                },
                statuses: Seq::empty(),
                action: ActionView::Look,
            },
            Input::Command(cmd) => self.commanded(cmd),
            Input::NoCommand => self.going_on(),
            Input::Sought(landed) => match landed {
                Some(pos) => DeckView { pos, ..self }.going_on(),
                // The track is opened again, and moved forward to the target.
                None => DeckView {
                    start_at: match self.phase {
                        Phase::Seeking(target) => target,
                        _ => 0,
                    },
                    ..self
                }.turned(),
            },
            Input::Read(n) => if n == 0 {
                self.turned_to(following(self.ix))
            } else {
                self.played(n)
            },
        }
    }
}

/// What a step comes to, as it is done.
#[derive(Debug)]
pub struct Step {
    pub statuses: Vec<Status>,
    pub action: Action,
}

/// The step is what was to be done.
pub open spec fn is_step(step: Step, deck: Deck, stepped: Stepped) -> bool {
    &&& shown(step.statuses@) == stepped.statuses
    &&& step.action@ == stepped.action
    &&& deck@ == stepped.deck
}

fn quietly(action: Action) -> (step: Step)
    ensures
        shown(step.statuses@) == Seq::<StatusView>::empty(),
        step.action == action,
{
    let statuses: Vec<Status> = Vec::new();
    assert(shown(statuses@) =~= Seq::empty());
    Step { statuses, action }
}

fn saying(status: Status, action: Action) -> (step: Step)
    ensures
        shown(step.statuses@) == seq![status@],
        step.action == action,
{
    let mut statuses: Vec<Status> = Vec::new();
    statuses.push(status);
    assert(shown(statuses@) =~= seq![status@]);
    Step { statuses, action }
}

fn shifted(secs: u32, rate: u32) -> (n: u64)
    ensures
        n == secs * rate,
{
    assert(0 <= secs * rate <= 0xffff_ffff * 0xffff_ffff) by (nonlinear_arith)
        requires
            0 <= secs <= 0xffff_ffff,
            0 <= rate <= 0xffff_ffff,
    ;
    secs as u64 * rate as u64
}

impl Deck {
    /// The player at the beginning of its list.
    pub fn new(playlist: Vec<String>) -> (r: (Deck, Step))
        ensures
            is_step(
                r.1,
                r.0,
                (DeckView {
                    playlist: playlist@,
                    ix: 0,
                    start_at: 0,
                    play_state: PlayState::Playing,
                    rate: PLAYBACK_SAMPLE_RATE,
                    len: None,
                    pos: 0,
                    reported: 0,
                    phase: Phase::Opening,
                }).turned(),
            ),
    {
        let mut deck: Deck = Deck {
            playlist,
            ix: 0,
            start_at: 0,
            play_state: PlayState::Playing,
            rate: PLAYBACK_SAMPLE_RATE,
            len: None,
            pos: 0,
            reported: 0,
            phase: Phase::Opening,
        };
        let step: Step = deck.turn();
        (deck, step)
    }

    fn turn(&mut self) -> (step: Step)
        ensures
            is_step(step, *final(self), old(self)@.turned()),
    {
        if self.ix < self.playlist.len() {
            self.phase = Phase::Opening;
            quietly(Action::Open(self.playlist[self.ix].clone()))
        } else {
            self.phase = Phase::Finished;
            saying(Status::Finished, Action::Stop)
        }
    }

    fn turn_to(&mut self, ix: usize) -> (step: Step)
        ensures
            is_step(step, *final(self), old(self)@.turned_to(ix)),
    {
        self.ix = ix;
        self.start_at = 0;
        self.turn()
    }

    fn go_on(&mut self) -> (step: Step)
        ensures
            is_step(step, *final(self), old(self)@.going_on()),
    {
        match self.play_state {
            PlayState::Paused => {
                self.phase = Phase::Polling;
                quietly(Action::Wait)
            },
            PlayState::Playing => {
                self.phase = Phase::Reading;
                quietly(Action::Read)
            },
        }
    }

    fn seek(&mut self, target: u64) -> (step: Step)
        ensures
            is_step(step, *final(self), old(self)@.seeking(target)),
    {
        self.phase = Phase::Seeking(target);
        quietly(Action::Seek(target))
    }

    fn command(&mut self, cmd: Cmd) -> (step: Step)
        ensures
            is_step(step, *final(self), old(self)@.commanded(cmd)),
    {
        match cmd {
            Cmd::PlayPause => {
                self.play_state = self.play_state.toggled();
                self.go_on()
            },
            Cmd::Restart => self.turn_to(self.ix),
            Cmd::SeekForward(secs) => self.seek(self.pos.saturating_add(shifted(secs, self.rate))),
            Cmd::SeekBackward(secs) => self.seek(self.pos.saturating_sub(shifted(secs, self.rate))),
            Cmd::Prev => self.turn_to(self.ix.saturating_sub(1)),
            Cmd::Next => self.turn_to(self.ix.saturating_add(1)),
        }
    }

    fn play(&mut self, n: usize) -> (step: Step)
        ensures
            is_step(step, *final(self), old(self)@.played(n)),
    {
        self.pos = self.pos.saturating_add(n as u64);
        self.phase = Phase::Polling;
        if self.pos < self.reported || self.pos - self.reported > PLAYBACK_SAMPLE_RATE as u64 / PROGRESS_UPDATES_PER_SEC {
            self.reported = self.pos;
            let end: Option<Span> = match self.len {
                Some(len) => Some(Span { samples: len, rate: self.rate }),
                None => None,
            };
            saying(Status::Progress(Span { samples: self.pos, rate: self.rate }, end), Action::Look)
        } else {
            quietly(Action::Look)
        }
    }

    /// Tells the deck what came of the last action, and says what is to be shown and done.
    pub fn step(&mut self, input: Input) -> (step: Step)
        requires
            old(self)@.takes(input),
        ensures
            is_step(step, *final(self), old(self)@.step(input)),
    {
        match input {
            Input::Opened { title, rate, len } => {
                let name: String = if title.as_str().unicode_len() == 0 {
                    self.playlist[self.ix].clone()
                } else {
                    title
                };
                self.rate = rate;
                self.len = len;
                self.phase = Phase::Starting;
                saying(Status::Track(name), Action::FastForward(self.start_at))
            },
            Input::NotOpened => self.turn_to(self.ix.saturating_add(1)),
            Input::Forwarded(pos) => {
                self.pos = pos;
                self.start_at = 0;
                self.play_state = PlayState::Playing;
                self.reported = 0;
                self.phase = Phase::Polling;
                quietly(Action::Look)
            },
            Input::Command(cmd) => self.command(cmd),
            Input::NoCommand => self.go_on(),
            Input::Sought(landed) => match landed {
                Some(pos) => {
                    self.pos = pos;
                    self.go_on()
                },
                None => {
                    self.start_at = match self.phase {
                        Phase::Seeking(target) => target,
                        _ => 0,
                    };
                    self.turn()
                },
            },
            Input::Read(n) => if n == 0 {
                self.turn_to(self.ix.saturating_add(1))
            } else {
                self.play(n)
            },
        }
    }
}

/// A deck that is told `n` times that a file cannot be opened.
pub open spec fn after_failures(deck: DeckView, n: nat) -> DeckView
    decreases n,
{
    if n == 0 {
        deck
    } else {
        after_failures(deck, (n - 1) as nat).step(Input::NotOpened).deck
    }
}

proof fn lemma_failures(deck: DeckView, n: nat)
    requires
        deck.phase == Phase::Opening,
        deck.ix + n <= deck.playlist.len(),
        deck.playlist.len() <= usize::MAX,
    ensures
        after_failures(deck, n).ix == deck.ix + n,
        after_failures(deck, n).playlist == deck.playlist,
        n > 0 ==> after_failures(deck, n).phase == (if deck.ix + n < deck.playlist.len() {
            Phase::Opening
        } else {
            Phase::Finished
        }),
    decreases n,
{
    if n > 0 {
        lemma_failures(deck, (n - 1) as nat);
    }
}

/// Files that cannot be opened are skipped one by one, and a list of nothing else ends.
pub proof fn law_a_list_of_broken_files_ends(deck: DeckView)
    requires
        deck.phase == Phase::Opening,
        deck.ix < deck.playlist.len(),
        deck.playlist.len() <= usize::MAX,
    ensures
        after_failures(deck, (deck.playlist.len() - deck.ix) as nat).phase == Phase::Finished,
{
    lemma_failures(deck, (deck.playlist.len() - deck.ix) as nat);
}

/// Going to the next file and back leads to the beginning of the one that was playing.
pub proof fn law_next_and_back_leads_here(deck: DeckView)
    requires
        deck.ix < deck.playlist.len(),
        deck.playlist.len() < usize::MAX,
    ensures
        ({
            let next = deck.commanded(Cmd::Next).deck;
            &&& next.ix == deck.ix + 1
            &&& next.commanded(Cmd::Prev).deck.ix == deck.ix
            &&& next.commanded(Cmd::Prev).deck.start_at == 0
        }),
{
}

/// Pausing twice goes on where it was.
pub proof fn law_pausing_twice_plays_on(deck: DeckView)
    ensures
        deck.commanded(Cmd::PlayPause).deck.commanded(Cmd::PlayPause).deck.play_state == deck.play_state,
        deck.commanded(Cmd::PlayPause).deck.commanded(Cmd::PlayPause).deck.pos == deck.pos,
{
}

/// How far an arrow key seeks, in seconds.
pub const SEEK_STEP: u32 = 5;

/// A key, as far as the player knows it.
#[derive(Debug, Clone, Copy, PartialEq, Eq, Structural)]
pub enum Key {
    Left,
    Right,
    Char(char),
    Other,
}

/// What a key means.
#[derive(Debug, Clone, Copy, PartialEq, Eq, Structural)]
pub enum Reply {
    Send(Cmd),
    Quit,
    Ignore,
}

/// What a key means.
pub open spec fn meaning(key: Key) -> Reply {
    match key {
        Key::Left => Reply::Send(Cmd::SeekBackward(SEEK_STEP)),
        Key::Right => Reply::Send(Cmd::SeekForward(SEEK_STEP)),
        Key::Char(c) => if c == '<' {
            Reply::Send(Cmd::Prev)
        } else if c == '>' {
            Reply::Send(Cmd::Next)
        } else if c == ' ' {
            Reply::Send(Cmd::PlayPause)
        } else if c == 'r' {
            Reply::Send(Cmd::Restart)
        } else if c == 'q' {
            Reply::Quit
        } else {
            Reply::Ignore
        },
        Key::Other => Reply::Ignore,
    }
}

/// What a key means, whatever modifiers are held with it.
pub fn press(key: Key) -> (reply: Reply)
    ensures
        reply == meaning(key),
{
    match key {
        Key::Left => Reply::Send(Cmd::SeekBackward(SEEK_STEP)),
        Key::Right => Reply::Send(Cmd::SeekForward(SEEK_STEP)),
        Key::Char(c) => match c {
            '<' => Reply::Send(Cmd::Prev),
            '>' => Reply::Send(Cmd::Next),
            ' ' => Reply::Send(Cmd::PlayPause),
            'r' => Reply::Send(Cmd::Restart),
            'q' => Reply::Quit,
            _ => Reply::Ignore,
        },
        Key::Other => Reply::Ignore,
    }
}

/// What the terminal shows: the name of the track, and where it is, in seconds.
#[derive(Debug)]
pub struct Panel {
    pub track: String,
    pub at: u64,
    pub end: Option<u64>,
}

/// The whole seconds of a stretch.
pub open spec fn seconds(span: Span) -> u64 {
    (length_of(span.samples, span.rate) / 1_000_000_000) as u64
}

fn whole_seconds(span: Span) -> (n: u64)
    requires
        span.rate > 0,
    ensures
        n == seconds(span),
{
    (length(span.samples, span.rate) / 1_000_000_000) as u64
}

/// The time that is shown: the position, and the length where it is known.
pub open spec fn time_text(at: u64, end: Option<u64>) -> Seq<char> {
    match end {
        Some(end) => clock(at as nat) + " / "@ + clock(end as nat),
        None => clock(at as nat),
    }
}

impl Panel {
    pub fn new() -> (p: Self)
        ensures
            p.track@ == "<nothing playing>"@,
            p.at == 0,
            p.end is None,
    {
        Panel { track: copy("<nothing playing>"), at: 0, end: None }
    }

    /// Takes in what is to be shown. True where there is nothing more to come.
    pub fn take(&mut self, status: Status) -> (finished: bool)
        requires
            status matches Status::Progress(at, end) ==> at.rate > 0 && (end matches Some(end) ==> end.rate > 0),
        ensures
            finished == (status is Finished),
            match status {
                Status::Track(name) => final(self).track == name && final(self).at == 0 && final(self).end is None,
                Status::Progress(at, end) => {
                    &&& final(self).track == old(self).track
                    &&& final(self).at == seconds(at)
                    &&& final(self).end == (match end {
                        Some(end) => Some(seconds(end)),
                        None => None,
                    })
                },
                Status::Finished => *final(self) == *old(self),
            },
    {
        match status {
            Status::Track(name) => {
                self.track = name;
                self.at = 0;
                self.end = None;
                false
            },
            Status::Progress(at, end) => {
                self.at = whole_seconds(at);
                self.end = match end {
                    Some(end) => Some(whole_seconds(end)),
                    None => None,
                };
                false
            },
            Status::Finished => true,
        }
    }

    /// The time that is shown.
    pub fn time(&self) -> (s: String)
        ensures
            s@ == time_text(self.at, self.end),
    {
        let mut s: String = String::new();
        assert(s@ =~= Seq::empty());
        push_clock(&mut s, self.at);
        if let Some(end) = self.end {
            s.append(" / ");
            push_clock(&mut s, end);
        }
        assert(s@ =~= time_text(self.at, self.end));
        s
    }
}

/// Next opens the file behind the one that plays and Prev the one before it, each from its beginning; Restart
/// opens the same again. Behind the last file the list ends, and before the first there is only the first.
pub proof fn law_skipping_goes_through_the_list(deck: DeckView)
    requires
        deck.phase == Phase::Polling,
        deck.ix < deck.playlist.len(),
        deck.playlist.len() < usize::MAX,
    ensures
        ({
            let next = deck.step(Input::Command(Cmd::Next));
            let prev = deck.step(Input::Command(Cmd::Prev));
            let again = deck.step(Input::Command(Cmd::Restart));
            let before = if deck.ix > 0 {
                deck.ix - 1
            } else {
                0
            };
            &&& deck.ix + 1 < deck.playlist.len() ==> {
                &&& next.action == ActionView::Open(deck.playlist[deck.ix + 1]@)
                &&& next.deck.ix == deck.ix + 1
                &&& next.deck.start_at == 0
            }
            &&& deck.ix + 1 == deck.playlist.len() ==> {
                &&& next.action is Stop
                &&& next.statuses == seq![StatusView::Finished]
            }
            &&& prev.action == ActionView::Open(deck.playlist[before]@)
            &&& prev.deck.ix == before
            &&& prev.deck.start_at == 0
            &&& again.action == ActionView::Open(deck.playlist[deck.ix as int]@)
            &&& again.deck.ix == deck.ix
            &&& again.deck.start_at == 0
        }),
{
}

/// A track that ends, or a file that cannot be opened, is followed by the file behind it; behind the last the
/// list ends.
pub proof fn law_the_list_is_played_in_order(deck: DeckView, input: Input)
    requires
        (deck.phase == Phase::Reading && input == Input::Read(0)) || (deck.phase == Phase::Opening && input
            == Input::NotOpened),
        deck.ix < deck.playlist.len(),
        deck.playlist.len() < usize::MAX,
    ensures
        ({
            let next = deck.step(input);
            &&& deck.ix + 1 < deck.playlist.len() ==> {
                &&& next.action == ActionView::Open(deck.playlist[deck.ix + 1]@)
                &&& next.deck.ix == deck.ix + 1
                &&& next.deck.start_at == 0
            }
            &&& deck.ix + 1 == deck.playlist.len() ==> {
                &&& next.action is Stop
                &&& next.statuses == seq![StatusView::Finished]
            }
        }),
{
}

/// An opened track is shown by its title, or by its path where it has none, and starts where it is to: it is
/// moved there, and then played.
pub proof fn law_an_opened_track_is_shown_and_played(deck: DeckView, title: String, rate: u32, len: Option<u64>, moved: u64)
    requires
        deck.phase == Phase::Opening,
        deck.ix < deck.playlist.len(),
    ensures
        ({
            let opened = deck.step(Input::Opened { title, rate, len });
            let started = opened.deck.step(Input::Forwarded(moved));
            let going = started.deck.step(Input::NoCommand);
            &&& opened.action == ActionView::FastForward(deck.start_at)
            &&& title@.len() > 0 ==> opened.statuses == seq![StatusView::Track(title@)]
            &&& title@.len() == 0 ==> opened.statuses == seq![StatusView::Track(deck.playlist[deck.ix as int]@)]
            &&& opened.deck.rate == rate
            &&& opened.deck.len == len
            &&& started.deck.pos == moved
            &&& started.deck.play_state == PlayState::Playing
            &&& started.action is Look
            &&& going.action is Read
        }),
{
}

/// Seeking by some seconds goes that many seconds on or back, and never before the beginning; what it lands on
/// is where the track is. Where it cannot be moved the file is opened again, and moved forward to the target.
pub proof fn law_seeks_go_by_seconds(deck: DeckView, secs: u32, landed: u64)
    requires
        deck.phase == Phase::Polling,
        deck.play_state == PlayState::Playing,
        deck.ix < deck.playlist.len(),
        deck.pos + secs * deck.rate <= u64::MAX,
    ensures
        ({
            let on = deck.step(Input::Command(Cmd::SeekForward(secs)));
            let back = deck.step(Input::Command(Cmd::SeekBackward(secs)));
            let there = on.deck.step(Input::Sought(Some(landed)));
            let not = on.deck.step(Input::Sought(None));
            let target = deck.pos + secs * deck.rate;
            &&& on.action == ActionView::Seek(target as u64)
            &&& secs * deck.rate <= deck.pos ==> back.action == ActionView::Seek((deck.pos - secs * deck.rate) as u64)
            &&& secs * deck.rate > deck.pos ==> back.action == ActionView::Seek(0)
            &&& there.deck.pos == landed
            &&& there.action is Read
            &&& there.deck.ix == deck.ix
            &&& not.action == ActionView::Open(deck.playlist[deck.ix as int]@)
            &&& not.deck.start_at == target
        }),
{
    assert(0 <= secs * deck.rate) by (nonlinear_arith);
}

/// Play and pause take turns: a track that plays is held and a command waited for, and one that is held is read
/// on from where it is.
pub proof fn law_pausing_holds_the_track(deck: DeckView)
    requires
        deck.phase == Phase::Polling,
    ensures
        ({
            let next = deck.step(Input::Command(Cmd::PlayPause));
            &&& deck.play_state == PlayState::Playing ==> next.action is Wait
            &&& deck.play_state == PlayState::Paused ==> next.action is Read
            &&& next.deck.pos == deck.pos
            &&& next.deck.ix == deck.ix
            &&& next.deck.play_state != deck.play_state
        }),
{
}

/// The position is that of the samples that were read, and is shown, with the length, once it has moved on by
/// more than a sixteenth of a second of the output.
pub proof fn law_the_shown_position_follows_what_is_read(deck: DeckView, n: usize)
    requires
        deck.phase == Phase::Reading,
        n > 0,
        deck.reported <= deck.pos,
        deck.pos + n <= u64::MAX,
    ensures
        ({
            let next = deck.step(Input::Read(n));
            &&& next.deck.pos == deck.pos + n
            &&& next.action is Look
            &&& deck.pos + n - deck.reported <= 3000 ==> next.statuses.len() == 0
            &&& deck.pos + n - deck.reported > 3000 ==> next.statuses == seq![
                StatusView::Progress(
                    Span { samples: (deck.pos + n) as u64, rate: deck.rate },
                    match deck.len {
                        Some(len) => Some(Span { samples: len, rate: deck.rate }),
                        None => None,
                    },
                ),
            ]
        }),
{
}

/// The keys: the arrows seek by five seconds, the angle brackets skip, Space pauses, `r` restarts the track, `q`
/// quits, and no other key does anything.
pub proof fn law_the_keys_do_what_they_show(c: char)
    ensures
        meaning(Key::Left) == Reply::Send(Cmd::SeekBackward(5)),
        meaning(Key::Right) == Reply::Send(Cmd::SeekForward(5)),
        meaning(Key::Char(c)) == Reply::Send(Cmd::Prev) <==> c == '<',
        meaning(Key::Char(c)) == Reply::Send(Cmd::Next) <==> c == '>',
        meaning(Key::Char(c)) == Reply::Send(Cmd::PlayPause) <==> c == ' ',
        meaning(Key::Char(c)) == Reply::Send(Cmd::Restart) <==> c == 'r',
        meaning(Key::Char(c)) == Reply::Quit <==> c == 'q',
        c != '<' && c != '>' && c != ' ' && c != 'r' && c != 'q' ==> meaning(Key::Char(c)) == Reply::Ignore,
        meaning(Key::Other) == Reply::Ignore,
{
}

/// The seconds that are shown are those that are over: so many of them fit into the stretch, to the nearest
/// nanosecond, and no more.
pub proof fn law_shown_seconds_are_over(span: Span)
    requires
        span.rate > 0,
    ensures
        seconds(span) * 1_000_000_000 <= length_of(span.samples, span.rate) < (seconds(span) + 1) * 1_000_000_000,
{
    let t = length_of(span.samples, span.rate);
    let n = span.samples as int * 1_000_000_000;
    let rate = span.rate as int;
    assert(0 <= (2 * n + rate) / (2 * rate) <= n) by (nonlinear_arith)
        requires
            rate >= 1,
            n >= 0,
    ;
    assert(t / 1_000_000_000 <= u64::MAX);
}

/// The time that is shown is where the track is, and behind a slash how long it is where that is known.
pub proof fn law_the_time_is_shown_with_the_length(at: u64, end: u64)
    ensures
        time_text(at, None) == clock(at as nat),
        ({
            let text = time_text(at, Some(end));
            let n = clock(at as nat).len() as int;
            &&& text.take(n) == clock(at as nat)
            &&& text.subrange(n, n + 3) == seq![' ', '/', ' ']
            &&& text.skip(n + 3) == clock(end as nat)
        }),
{
    reveal_strlit(" / ");
    let text = time_text(at, Some(end));
    let n = clock(at as nat).len() as int;
    assert(text.take(n) =~= clock(at as nat));
    assert(text.subrange(n, n + 3) =~= seq![' ', '/', ' ']);
    assert(text.skip(n + 3) =~= clock(end as nat));
}

} // verus!
