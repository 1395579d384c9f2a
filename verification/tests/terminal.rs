use phonoscule::cli::{press, Action, Cmd, Deck, Input, Key, Panel, Reply, Status};
use phonoscule::covers::{accent_color, histogram, is_common, rgb_to_rgba, samples, shade, thumb_name, thumbnail, Bucket, Thumbnail};
use phonoscule::library::Rgb;
use phonoscule::logger::{origin, parse_level, Level, Levels, ModuleLevel};
use phonoscule::media::{coalesced, Changed, Control, Meta, Playback, Shown, Snapshot};
use phonoscule::mpris::{bus_name, metadata, micros, playback_status, set_position, Value};
use phonoscule::smtc::{as_control, position_requested, time_span, timeline, Button, Cover, CoverShown, Timeline};

const SECOND: u64 = 1_000_000_000;

fn deck(paths: &[&str]) -> (Deck, Action) {
    let (deck, step) = Deck::new(paths.iter().map(|p| p.to_string()).collect());
    (deck, step.action)
}

fn opened(title: &str, len: Option<u64>) -> Input {
    Input::Opened { title: title.into(), rate: 48000, len }
}

/// A deck that plays its first file from the beginning, and now looks for a command.
fn started(paths: &[&str]) -> Deck {
    let (mut deck, _) = deck(paths);
    deck.step(opened("Title", Some(480_000)));
    deck.step(Input::Forwarded(0));
    deck
}

#[test]
fn a_list_is_played_through() {
    let (mut deck, action) = deck(&["a.opus", "b.opus"]);
    assert!(matches!(action, Action::Open(p) if p == "a.opus"));
    let step = deck.step(opened("", None));
    assert!(matches!(&step.statuses[..], [Status::Track(name)] if name == "a.opus"), "an untitled track shows its path");
    assert!(matches!(step.action, Action::FastForward(0)));
    assert!(matches!(deck.step(Input::Forwarded(0)).action, Action::Look));
    assert!(matches!(deck.step(Input::NoCommand).action, Action::Read));
    assert!(matches!(deck.step(Input::Read(960)).action, Action::Look));
    deck.step(Input::NoCommand);
    assert!(matches!(deck.step(Input::Read(0)).action, Action::Open(p) if p == "b.opus"));
    let step = deck.step(Input::NotOpened);
    assert!(matches!(step.action, Action::Stop), "a broken file is skipped, and the list ends");
    assert!(matches!(step.statuses[..], [Status::Finished]));
    let (_, action) = Deck::new(vec![]);
    assert!(matches!(action.action, Action::Stop));
}

#[test]
fn progress_is_shown_now_and_then() {
    let mut deck = started(&["a.opus"]);
    let mut shown = vec![];
    for _ in 0..50 {
        deck.step(Input::NoCommand);
        for status in deck.step(Input::Read(960)).statuses {
            match status {
                Status::Progress(at, end) => shown.push((at.samples, end.unwrap().samples)),
                other => panic!("{other:?}"),
            }
        }
    }
    assert!(shown.len() > 1 && shown.len() < 50);
    assert!(shown.iter().all(|&(_, end)| end == 480_000));
}

#[test]
fn commands_move_the_deck() {
    let mut deck = started(&["a.opus", "b.opus"]);
    assert!(matches!(deck.step(Input::Command(Cmd::SeekForward(5))).action, Action::Seek(240_000)));
    assert!(matches!(deck.step(Input::Sought(Some(239_000))).action, Action::Read));
    deck.step(Input::Read(960));
    assert!(matches!(deck.step(Input::Command(Cmd::SeekBackward(9))).action, Action::Seek(0)));
    assert!(matches!(deck.step(Input::Sought(None)).action, Action::Open(p) if p == "a.opus"), "reopened");
    deck.step(opened("Title", None));
    deck.step(Input::Forwarded(0));
    assert!(matches!(deck.step(Input::Command(Cmd::PlayPause)).action, Action::Wait));
    assert!(matches!(deck.step(Input::Command(Cmd::PlayPause)).action, Action::Read));
    deck.step(Input::Read(960));
    assert!(matches!(deck.step(Input::Command(Cmd::Next)).action, Action::Open(p) if p == "b.opus"));
    deck.step(opened("Title", None));
    deck.step(Input::Forwarded(0));
    assert!(matches!(deck.step(Input::Command(Cmd::Prev)).action, Action::Open(p) if p == "a.opus"));
    deck.step(opened("Title", None));
    deck.step(Input::Forwarded(0));
    assert!(matches!(deck.step(Input::Command(Cmd::Prev)).action, Action::Open(p) if p == "a.opus"), "stays at the first");
    deck.step(opened("Title", None));
    deck.step(Input::Forwarded(0));
    assert!(matches!(deck.step(Input::Command(Cmd::Restart)).action, Action::Open(p) if p == "a.opus"));
}

#[test]
fn keys_control_the_terminal_player() {
    assert_eq!(press(Key::Left), Reply::Send(Cmd::SeekBackward(5)));
    assert_eq!(press(Key::Right), Reply::Send(Cmd::SeekForward(5)));
    assert_eq!(press(Key::Char('<')), Reply::Send(Cmd::Prev));
    assert_eq!(press(Key::Char('>')), Reply::Send(Cmd::Next));
    assert_eq!(press(Key::Char(' ')), Reply::Send(Cmd::PlayPause));
    assert_eq!(press(Key::Char('r')), Reply::Send(Cmd::Restart));
    assert_eq!(press(Key::Char('q')), Reply::Quit);
    assert_eq!((press(Key::Char('x')), press(Key::Other)), (Reply::Ignore, Reply::Ignore));
}

#[test]
fn the_panel_shows_the_time() {
    let mut panel = Panel::new();
    assert_eq!(panel.track, "<nothing playing>");
    assert!(!panel.take(Status::Track("Song".into())));
    assert_eq!(panel.time(), "00:00");
    let mut playing = started(&["a.opus"]);
    playing.step(Input::NoCommand);
    for status in playing.step(Input::Read(48000 * 65)).statuses {
        assert!(!panel.take(status));
    }
    assert_eq!(panel.time(), "01:05 / 00:10");
    assert_eq!(panel.track, "Song");
    assert!(panel.take(Status::Finished));
}

#[test]
fn levels_go_by_the_most_specific_module() {
    assert_eq!(parse_level("debug"), Some(Level::Debug));
    assert_eq!(parse_level("WARN"), Some(Level::Warn));
    assert_eq!(parse_level("loud"), None);
    let modules = vec![
        ModuleLevel { name: "wgpu".into(), level: Level::Warn },
        ModuleLevel { name: "wgpu_core".into(), level: Level::Error },
        ModuleLevel { name: "phonoscule".into(), level: Level::Trace },
    ];
    let levels = Levels::new(&Some("info".into()), &modules);
    assert!(levels.enabled(Level::Info, "someone") && !levels.enabled(Level::Debug, "someone"));
    assert!(levels.enabled(Level::Warn, "wgpu::device") && !levels.enabled(Level::Info, "wgpu::device"));
    assert!(!levels.enabled(Level::Warn, "wgpu_core::device"));
    assert!(levels.enabled(Level::Trace, "phonoscule::player"));
    assert_eq!(levels.max(), Level::Trace);
    assert_eq!(origin("", &Some("a::b".into())), "a::b");
    assert_eq!(origin("target", &Some("a::b".into())), "target");
}

#[test]
fn thumbnails_are_named_by_id() {
    assert_eq!(thumb_name(0), "0000000000000000");
    assert_eq!(thumb_name(0xfeed_0000_dead_beef), "feed0000deadbeef");
    assert!(matches!(thumbnail(Some(vec![7; 320 * 320 * 3])), Thumbnail::Cached(rgb) if rgb[0] == 7));
    assert!(matches!(thumbnail(Some(vec![7; 320 * 320])), Thumbnail::Decode));
    assert!(matches!(thumbnail(None), Thumbnail::Decode));
    assert_eq!(rgb_to_rgba(&[1, 2, 3, 4, 5, 6]), [1, 2, 3, 255, 4, 5, 6, 255]);
}

#[test]
fn colors_are_counted_by_shade() {
    assert_eq!(samples(3 * 15), 3);
    let rgb: Vec<u8> = (0..15).flat_map(|i| if i < 8 { [200, 16, 16] } else { [0, 0, 90] }).collect();
    let buckets = histogram(&rgb);
    let red = buckets.iter().position(|b| b.n == 2).unwrap();
    assert_eq!(red, (200 / 16) * 256 + 16 + 1);
    assert_eq!(shade(&buckets[red]), Rgb { r: 200, g: 16, b: 16 });
    assert_eq!(buckets.iter().map(|b| b.n).sum::<u64>(), 3);
    assert_eq!(accent_color(&buckets, Some(red)), Rgb { r: 200, g: 16, b: 16 });
    let bucket = |n: u64| Bucket { n, r: 0, g: 0, b: 0 };
    assert!(is_common(&bucket(2), 2000) && !is_common(&bucket(1), 2000));
    assert_eq!(shade(&bucket(0)), Rgb { r: 0, g: 0, b: 0 });
}

fn snapshot(title: &str, position: u64, duration: Option<u64>) -> Snapshot {
    let meta = Meta { title: title.into(), album: "Album".into(), artist: "Artist".into(), cover_url: None, duration };
    Snapshot { meta: Some(meta), state: Playback::Playing, position }
}

#[test]
fn only_what_changed_is_published() {
    let mut shown = Shown::nothing();
    assert_eq!(shown.note(&snapshot("One", 0, None)), Changed { meta: true, state: true });
    assert_eq!(shown.note(&snapshot("One", SECOND, None)), Changed { meta: false, state: false });
    let paused = Snapshot { state: Playback::Paused, ..snapshot("One", SECOND, None) };
    assert_eq!(shown.note(&paused), Changed { meta: false, state: true });
    assert_eq!(shown.note(&snapshot("Two", 0, None)), Changed { meta: true, state: true });
    let queued = vec![snapshot("Two", 0, None), snapshot("Three", 0, None)];
    assert_eq!(coalesced(snapshot("One", 0, None), queued).meta.unwrap().title, "Three");
    assert_eq!(coalesced(snapshot("One", 0, None), vec![]).meta.unwrap().title, "One");
}

#[test]
fn the_bus_tells_of_the_track() {
    assert_eq!(bus_name("phonoscule-test"), "org.mpris.MediaPlayer2.phonoscule-test");
    assert_eq!(playback_status(Playback::Playing), "Playing");
    assert_eq!(set_position(5), Some(Control::SetPosition(5000)));
    assert_eq!(set_position(-5), None);
    assert_eq!(set_position(i64::MAX), Some(Control::SetPosition(u64::MAX)), "too far to be held");
    assert_eq!(micros(3 * SECOND), 3_000_000);
    let fields = metadata(&snapshot("Roundtrip Test", 0, Some(300 * SECOND)).meta);
    let keys: Vec<&str> = fields.iter().map(|f| f.key).collect();
    assert_eq!(keys, ["mpris:trackid", "mpris:length", "xesam:title", "xesam:artist", "xesam:album"]);
    assert!(matches!(fields[1].value, Value::Int(300_000_000)));
    assert!(matches!(&fields[2].value, Value::Text(t) if t == "Roundtrip Test"));
    assert!(matches!(&fields[3].value, Value::List(l) if l == &["Artist"]));
    assert_eq!(metadata(&None).len(), 1);
}

#[test]
fn the_shell_is_shown_the_track() {
    assert_eq!(as_control(Button::Previous), Some(Control::Prev));
    assert_eq!(as_control(Button::Other), None);
    assert_eq!(position_requested(50), Some(Control::SetPosition(5000)));
    assert_eq!(position_requested(-9), Some(Control::SetPosition(0)));
    assert_eq!(position_requested(-10), None);
    assert_eq!(time_span(SECOND), 10_000_000);
    assert_eq!(timeline(&snapshot("One", 9, Some(5))), Timeline { end: 5, position: 5 });
    assert_eq!(timeline(&snapshot("One", 9, None)), Timeline { end: 9, position: 9 });
    let mut cover = CoverShown { url: None };
    let url = Some("file:///c.jpg".to_string());
    assert!(matches!(cover.show(&None), Cover::Keep));
    assert!(matches!(cover.show(&url), Cover::Show(u) if u == "file:///c.jpg"));
    assert!(matches!(cover.show(&url), Cover::Keep));
    assert!(matches!(cover.show(&None), Cover::Clear));
    cover.show(&url);
    cover.clear();
    assert!(matches!(cover.show(&url), Cover::Show(_)));
}
