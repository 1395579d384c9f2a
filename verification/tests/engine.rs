use phonoscule::player::{
    nanos, next_track_ix, timed, Action, Cmd, Entry, Event, Input, PlayState, Player, Repeat, Span,
};

/// Two albums: run 1 is tracks 0-2, run 2 is tracks 3-4.
fn queue() -> Vec<Entry> {
    [(0, 1), (1, 1), (2, 1), (3, 2), (4, 2)]
        .into_iter()
        .map(|(n, album)| Entry { path: format!("{n}.opus"), album })
        .collect()
}

#[test]
fn auto_advance_by_repeat_mode() {
    let q = queue();
    assert_eq!(next_track_ix(&q, 1, Repeat::Off), 2, "off: the next track");
    assert_eq!(next_track_ix(&q, 4, Repeat::Off), 5, "off: past the end means stop");
    assert_eq!(next_track_ix(&q, 1, Repeat::Track), 1, "track: loop the current track");
    assert_eq!(next_track_ix(&q, 1, Repeat::Album), 2, "album: the next track of the run");
    assert_eq!(next_track_ix(&q, 2, Repeat::Album), 0, "album: the run's end wraps to its start");
    assert_eq!(next_track_ix(&q, 4, Repeat::Album), 3, "album: ditto for the final run");
    assert_eq!(next_track_ix(&q, 1, Repeat::Playlist), 2, "playlist: the next track");
    assert_eq!(next_track_ix(&q, 4, Repeat::Playlist), 0, "playlist: the queue's end wraps to its start");
}

fn started() -> Player {
    let (mut player, step) = Player::new();
    assert!(matches!(step.action, Action::Wait));
    assert_eq!(step.events, [Event::QueueEnded], "a new player has nothing to play");
    let step = player.step(Input::Command(Cmd::SetQueue { tracks: queue(), start: 1, play: PlayState::Playing }));
    match step.action {
        Action::Open { path } => assert_eq!(path, "1.opus"),
        other => panic!("{other:?}"),
    }
    let step = player.step(Input::Opened { rate: 48000, len: Some(96000) });
    assert!(matches!(step.action, Action::FastForward(0)));
    assert_eq!(
        step.events,
        [
            Event::TrackStarted { ix: 1, len: Some(Span { samples: 96000, rate: 48000 }) },
            Event::PlayState(PlayState::Playing)
        ]
    );
    let step = player.step(Input::Forwarded(Some(0)));
    assert_eq!(step.events, [Event::Progress(Span { samples: 0, rate: 48000 })]);
    assert!(matches!(step.action, Action::Look));
    player
}

#[test]
fn a_playing_track_reads_and_reports() {
    let mut player = started();
    assert!(matches!(player.step(Input::NoCommand).action, Action::Read));
    // The position is reported sixteen times a second: not after one chunk, but after six.
    let mut reports = Vec::new();
    for n in 0..6 {
        let step = player.step(Input::Read(Some(512)));
        if !step.events.is_empty() {
            reports.push((n, step.events));
        }
        assert!(matches!(player.step(Input::NoCommand).action, Action::Read));
    }
    assert_eq!(reports, [(5, vec![Event::Progress(Span { samples: 6 * 512, rate: 48000 })])]);
}

#[test]
fn a_finished_track_is_followed_by_the_next() {
    let mut player = started();
    player.step(Input::NoCommand);
    match player.step(Input::Read(Some(0))).action {
        Action::Open { path } => assert_eq!(path, "2.opus"),
        other => panic!("{other:?}"),
    }
}

#[test]
fn a_broken_track_is_skipped_whatever_repeats() {
    let mut player = started();
    player.step(Input::Command(Cmd::SetRepeat(Repeat::Track)));
    match player.step(Input::Read(None)).action {
        Action::Open { path } => assert_eq!(path, "2.opus"),
        other => panic!("{other:?}"),
    }
    match player.step(Input::NotOpened).action {
        Action::Open { path } => assert_eq!(path, "3.opus"),
        other => panic!("{other:?}"),
    }
}

#[test]
fn a_burst_of_seeks_is_one_seek() {
    let mut player = started();
    assert!(matches!(player.step(Input::Command(Cmd::Seek(1_000_000_000))).action, Action::Look));
    assert!(matches!(player.step(Input::Command(Cmd::Seek(2_000_000_000))).action, Action::Look));
    // The command that ends the burst is handled after the seek.
    match player.step(Input::Command(Cmd::TogglePlayPause)).action {
        Action::Seek(t) => assert_eq!(t, 2_000_000_000),
        other => panic!("{other:?}"),
    }
    let step = player.step(Input::Sought { landed: Some(96000), target: 96000 });
    assert!(step.events.contains(&Event::Progress(Span { samples: 96000, rate: 48000 })));
    let step = player.step(Input::Read(Some(512)));
    assert_eq!(step.events, [Event::PlayState(PlayState::Paused)]);
    assert!(matches!(step.action, Action::Wait));
}

#[test]
fn previous_restarts_a_track_that_has_played_a_while() {
    let mut player = started();
    player.step(Input::NoCommand);
    player.track.pos = 3 * 48000 + 1;
    player.step(Input::Read(Some(512)));
    match player.step(Input::Command(Cmd::Prev)).action {
        Action::Open { path } => assert_eq!(path, "1.opus"),
        other => panic!("{other:?}"),
    }
    let mut player = started();
    match player.step(Input::Command(Cmd::Prev)).action {
        Action::Open { path } => assert_eq!(path, "0.opus"),
        other => panic!("{other:?}"),
    }
}

#[test]
fn a_seek_that_is_not_possible_reopens_the_track() {
    let mut player = started();
    player.step(Input::Command(Cmd::Seek(1_000_000_000)));
    assert!(matches!(player.step(Input::NoCommand).action, Action::Seek(1_000_000_000)));
    assert!(matches!(player.step(Input::Sought { landed: None, target: 48000 }).action, Action::Open { .. }));
    assert!(matches!(player.step(Input::Opened { rate: 48000, len: None }).action, Action::FastForward(48000)));
}

#[test]
fn play_on_an_empty_queue_starts_nothing_later() {
    let (mut player, _) = Player::new();
    assert!(matches!(player.step(Input::Command(Cmd::TogglePlayPause)).action, Action::Wait));
    let step = player.step(Input::Command(Cmd::Append { tracks: queue() }));
    assert!(matches!(step.action, Action::Wait), "no autoplay surprises");
    assert!(matches!(player.step(Input::Command(Cmd::TogglePlayPause)).action, Action::Open { .. }));
}

#[test]
fn modes_cycle_and_states_toggle() {
    let mut mode = Repeat::default();
    let mut seen = Vec::new();
    for _ in 0..4 {
        seen.push(mode);
        mode = mode.cycled();
    }
    assert_eq!(seen, [Repeat::Off, Repeat::Track, Repeat::Album, Repeat::Playlist]);
    assert_eq!(mode, Repeat::Off);
    assert_eq!(PlayState::Playing.toggled(), PlayState::Paused);
    assert_eq!(PlayState::Paused.toggled(), PlayState::Playing);
}

#[test]
fn positions_are_reported_as_times() {
    assert_eq!(nanos(Span { samples: 0, rate: 48000 }), 0);
    assert_eq!(nanos(Span { samples: 72000, rate: 48000 }), 1_500_000_000);
    assert_eq!(nanos(Span { samples: 1, rate: 44100 }), 22676, "to the nearest: 22675.7");
    assert_eq!(nanos(Span { samples: 2, rate: 48000 }), 41667);
    assert_eq!(nanos(Span { samples: 1, rate: 48000 }), 20833);
    assert_eq!(nanos(Span { samples: u64::MAX, rate: 1 }), u64::MAX, "as far as nanoseconds go");
    let len = Some(Span { samples: 96000, rate: 48000 });
    assert_eq!(timed(Event::TrackStarted { ix: 3, len }), Event::TrackStarted { ix: 3, len: Some(2_000_000_000) });
    assert_eq!(timed(Event::TrackStarted { ix: 3, len: None }), Event::TrackStarted { ix: 3, len: None });
    assert_eq!(timed(Event::Progress(Span { samples: 24000, rate: 48000 })), Event::Progress(500_000_000));
    assert_eq!(timed(Event::PlayState(PlayState::Paused)), Event::PlayState(PlayState::Paused));
    assert_eq!(timed(Event::QueueEnded), Event::QueueEnded);
}
