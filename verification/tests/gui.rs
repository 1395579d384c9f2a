use phonoscule::album_grid::{Around, Grid, GridEvent, GridMsg};
use phonoscule::browse::PickerSubject;
use phonoscule::keys::{key_to_msg, Key, Modifiers, Named};
use phonoscule::library::{Album, CoverArt, Rgb, ScanEvent, TrackInfo};
use phonoscule::model::{
    album_runs, boot, cover_priority, dir_key, flow_target, glow_cell, run_of, search_rank, App, Effect, Modal, ModalKind,
    Places, QueueItem, Screen,
};
use phonoscule::player::{Cmd, Event, PlayState, Repeat};
use phonoscule::queue::{Grouping, Scope};
use phonoscule::session::Restored;
use phonoscule::sort::SortOrder;
use phonoscule::update::{skip_interval, tab_answered, update, MenuDir, Msg, QueueEdge, Seek, SeekDir};
use phonoscule::{browse, coverflow, display};

const SECOND: u64 = 1_000_000_000;

#[test]
fn search_ranks_contiguous_matches_higher() {
    assert_eq!(search_rank("The Dark Side of the Moon", ""), Some(0), "an empty query matches everything");
    assert_eq!(search_rank("The Dark Side of the Moon", "dark side"), Some(9), "a phrase hit scores its full length");
    assert_eq!(search_rank("Darkness on the Far Side", "dark side"), Some(5), "scattered words score the longest run");
    assert_eq!(search_rank("The Wall", "dark side"), None, "every word must be contained");
    assert_eq!(search_rank("MONO no aware", "mono"), Some(4), "matching is case-insensitive");
}

fn places() -> Places {
    Places { music_dir: "/m".into(), cache_file: None, covers_dir: None }
}

fn album(id: u64, artist: &str, title: &str, genre: &str, tracks: &[&str]) -> Album {
    Album {
        id,
        title: title.into(),
        artist: artist.into(),
        genre: genre.into(),
        year: None,
        cover_id: None,
        cover: None,
        accent: Some(Rgb { r: id as u8, g: 0, b: 0 }),
        tracks: tracks.iter().map(|t| TrackInfo { path: format!("/m/{title}/{t}.opus"), title: t.to_string() }).collect(),
    }
}

fn fresh() -> App {
    let restored = Restored { tracks: vec![], current: 0, repeat: Repeat::Off, sort: SortOrder::default() };
    let index = vec![
        album(1, "Zed", "Alpha", "Rock", &["a1", "a2"]),
        album(2, "Abe", "Beta", "Jazz", &["b1", "b2", "b3"]),
        album(3, "Abe", "Gamma", "Rock", &["c1"]),
    ];
    boot(places(), restored, index).0
}

fn shown(app: &App) -> Vec<&str> {
    app.filtered.iter().map(|&ix| app.albums[ix].title.as_str()).collect()
}

fn queued(app: &App) -> Vec<&str> {
    app.queue.iter().map(|i| i.title.as_str()).collect()
}

/// A session with everything queued, and the track at `current` playing.
fn playing(current: usize) -> App {
    let mut app = fresh();
    update(&mut app, Msg::PlayAll, 0);
    app.current = current;
    app.play_state = PlayState::Playing;
    app
}

#[test]
fn a_session_starts_where_the_last_one_left_off() {
    let tracks = vec!["/m/Beta/b1.opus".to_string(), "/m/Beta/b2.opus".to_string(), "/m/else/x.opus".to_string()];
    let restored = Restored { tracks, current: 1, repeat: Repeat::Album, sort: SortOrder::default() };
    let (app, effects) = boot(places(), restored, vec![album(2, "Abe", "Beta", "Jazz", &["b1", "b2", "b3"])]);
    assert_eq!(queued(&app), ["b1", "b2", "x"], "the index names what it knows, the stem the rest");
    assert_eq!((app.queue[0].album_id, app.queue[2].album_id), (2, dir_key("/m/else/x.opus")));
    assert_eq!(app.screen, Screen::Player);
    assert_eq!(app.play_state, PlayState::Paused);
    let sent = effects.iter().any(|e| matches!(e, Effect::Send(Cmd::SetQueue { start: 1, play: PlayState::Paused, .. })));
    assert!(sent, "{effects:?}");
    assert!(matches!(effects.last(), Some(Effect::Scan(options)) if options.priority == [2, dir_key("/m/else/x.opus")]));
}

#[test]
fn playing_an_album_replaces_the_queue_and_queueing_adds_to_it() {
    let mut app = fresh();
    assert_eq!(shown(&app), ["Alpha", "Beta", "Gamma"]);
    let effects = update(&mut app, Msg::PlayAlbum(1), 0);
    assert_eq!(queued(&app), ["b1", "b2", "b3"]);
    assert!(effects.iter().any(|e| matches!(e, Effect::Send(Cmd::SetQueue { start: 0, play: PlayState::Playing, .. }))));
    update(&mut app, Msg::QueueAlbum(0), 0);
    assert_eq!(queued(&app), ["b1", "b2", "b3", "a1", "a2"]);
    let effects = update(&mut app, Msg::QueueTrack { album: 2, track: 0 }, 0);
    assert_eq!(queued(&app).last(), Some(&"c1"));
    assert!(effects.iter().any(|e| matches!(e, Effect::Send(Cmd::Append { tracks }) if tracks.len() == 1)));
    assert!(effects.iter().any(|e| matches!(e, Effect::SavePlaylist(p) if p.tracks.len() == 6)));
    update(&mut app, Msg::ClearQueue, 0);
    assert!(app.queue.is_empty());
}

#[test]
fn filters_narrow_the_grid() {
    let mut app = fresh();
    update(&mut app, Msg::SearchChanged("gam".into()), 0);
    assert_eq!(shown(&app), ["Gamma"]);
    update(&mut app, Msg::ClearFilters, 0);
    assert_eq!(shown(&app).len(), 3);
    update(&mut app, Msg::OpenPicker(PickerSubject::Genre), 0);
    match &app.modal {
        Some(Modal::Picker(p)) => assert_eq!(p.matches, ["Jazz", "Rock"]),
        other => panic!("{other:?}"),
    }
    update(&mut app, Msg::PickerMove(MenuDir::Down), 0);
    update(&mut app, Msg::PickerMove(MenuDir::Down), 0);
    update(&mut app, Msg::PickerPick, 0);
    assert_eq!(app.filter.genre.as_deref(), Some("Rock"));
    assert_eq!(shown(&app), ["Alpha", "Gamma"]);
    assert!(app.modal.is_none());
    update(&mut app, Msg::OpenSort, 0);
    update(&mut app, Msg::SortChoose(1), 0);
    assert_eq!(shown(&app), ["Gamma", "Alpha"], "names, descending");
    assert_eq!(browse::picker_matches(&app.albums, PickerSubject::Artist, "ze"), ["Zed"]);
}

#[test]
fn scans_update_the_library_in_place() {
    let mut app = fresh();
    let grown = album(2, "Abe", "Beta", "Jazz", &["b1", "b2", "b3", "b4"]);
    update(&mut app, Msg::Library(ScanEvent::Album(grown)), 0);
    update(&mut app, Msg::Library(ScanEvent::Album(album(4, "New", "Delta", "", &["d"]))), 0);
    assert_eq!(app.albums.len(), 4);
    assert_eq!(shown(&app), ["Alpha", "Beta", "Delta", "Gamma"]);
    assert_eq!(app.albums[app.filtered[1]].tracks.len(), 4);
    assert!(app.index_dirty);
    let effects = update(&mut app, Msg::Library(ScanEvent::Done { album_ids: vec![2, 4] }), 0);
    assert_eq!(shown(&app), ["Beta", "Delta"], "what is gone is dropped");
    assert!(effects.iter().any(|e| matches!(e, Effect::SaveIndex)));
    assert!(!app.index_dirty);
}

#[test]
fn covers_are_applied_only_where_they_still_match() {
    let mut app = fresh();
    let mut with_cover = album(2, "Abe", "Beta", "Jazz", &["b1"]);
    with_cover.cover_id = Some(77);
    update(&mut app, Msg::Library(ScanEvent::Album(with_cover)), 0);
    let art = |id: u64| CoverArt { id, file: "/m/Beta/cover.jpg".into(), accent: Rgb { r: 9, g: 9, b: 9 } };
    update(&mut app, Msg::Library(ScanEvent::Cover { albums: vec![2], art: art(76) }), 0);
    assert!(app.albums.iter().all(|a| a.cover.is_none()), "a stale decode must not be shown");
    update(&mut app, Msg::Library(ScanEvent::Cover { albums: vec![2], art: art(77) }), 0);
    assert_eq!(app.albums.iter().filter(|a| a.cover.is_some()).count(), 1);
}

#[test]
fn relative_seeks_add_up() {
    let mut app = playing(0);
    update(&mut app, Msg::Player(Event::TrackStarted { ix: 0, len: Some(60 * SECOND) }), 0);
    update(&mut app, Msg::Player(Event::Progress(10 * SECOND)), 0);
    for _ in 0..3 {
        update(&mut app, Msg::Seek(Seek::By(SeekDir::Forward, 5 * SECOND)), 0);
    }
    assert_eq!(app.pending_seek, Some(25 * SECOND));
    update(&mut app, Msg::Player(Event::Progress(10 * SECOND)), 0);
    assert_eq!(app.pos, 25 * SECOND, "a stale report does not yank the bar back");
    update(&mut app, Msg::Player(Event::Progress(25 * SECOND)), 0);
    assert_eq!(app.pending_seek, None);
    update(&mut app, Msg::Seek(Seek::By(SeekDir::Backward, 100 * SECOND)), 0);
    assert_eq!(app.pos, 0, "seeks stay in the track");
}

#[test]
fn shuffling_the_others_keeps_the_playing_track_first() {
    let mut app = playing(3);
    let current = app.queue[3].path.clone();
    let mut before: Vec<String> = app.queue.iter().map(|i| i.path.clone()).collect();
    app.shuffle_with(Grouping::Tracks, Scope::Others, 12345);
    assert_eq!((app.current, &app.queue[0].path), (0, &current));
    let mut after: Vec<String> = app.queue.iter().map(|i| i.path.clone()).collect();
    before.sort();
    after.sort();
    assert_eq!(before, after, "no track is lost");
}

#[test]
fn albums_are_walked_by_their_runs() {
    let app = playing(3);
    let runs = album_runs(&app.queue);
    assert_eq!(runs, [0..2, 2..5, 5..6]);
    assert_eq!(run_of(&runs, 3), 1);
    assert_eq!(flow_target(&app), 1);
    assert_eq!(cover_priority(&app.queue, 3), [2, 3, 1], "outward from the playing track, forward first");
    let mut app = app;
    let effects = update(&mut app, Msg::NextAlbum, 0);
    assert!(effects.iter().any(|e| matches!(e, Effect::Send(Cmd::JumpTo(5)))), "{effects:?}");
    let mut app = playing(3);
    let effects = update(&mut app, Msg::PrevAlbum, 0);
    assert!(effects.iter().any(|e| matches!(e, Effect::Send(Cmd::JumpTo(2)))), "the album restarts: {effects:?}");
    let mut app = playing(0);
    let effects = update(&mut app, Msg::RestAt(QueueEdge::Last), 0);
    let rests = |e: &Effect| matches!(e, Effect::Send(Cmd::SetQueue { start: 5, play: PlayState::Paused, .. }));
    assert!(effects.iter().any(rests), "{effects:?}");
}

#[test]
fn held_skips_speed_up() {
    assert!(skip_interval(0) > skip_interval(5 * SECOND));
    let mut app = playing(0);
    assert!(app.skip_ready(false, 10 * SECOND));
    assert!(!app.skip_ready(true, 10 * SECOND + 1), "a held key is rate-limited");
}

#[test]
fn a_tab_goes_where_the_focus_says() {
    assert!(matches!(tab_answered(Some(true), false, Screen::Player), Msg::CycleFilterInput { backwards: false }));
    assert!(matches!(tab_answered(Some(false), false, Screen::Player), Msg::Show(Screen::Player)));
    assert!(matches!(tab_answered(None, true, Screen::Library), Msg::Show(Screen::Library)));
    assert_eq!(Screen::Library.next().prev(), Screen::Library);
}

fn none() -> Modifiers {
    Modifiers { shift: false, control: false, alt: false, logo: false }
}

fn press(screen: Screen, modal: Option<ModalKind>, named: Named, modifiers: Modifiers, repeat: bool) -> Option<Msg> {
    key_to_msg(screen, modal, Key::Named(named), Key::Named(named), modifiers, repeat)
}

#[test]
fn keys_mean_what_they_should() {
    assert!(matches!(press(Screen::Player, None, Named::Space, none(), false), Some(Msg::Toggle)));
    assert!(matches!(press(Screen::Library, Some(ModalKind::Tracks), Named::Escape, none(), false), Some(Msg::CloseModal)));
    let seek = press(Screen::Player, None, Named::ArrowRight, none(), true);
    assert!(matches!(seek, Some(Msg::Seek(Seek::By(SeekDir::Forward, t))) if t == 5 * SECOND));
    let logo = Modifiers { logo: true, ..none() };
    assert!(press(Screen::Player, None, Named::Space, logo, false).is_none(), "logo chords are the desktop's");
    let typed = key_to_msg(
        Screen::Library,
        None,
        Key::Character("a".into()),
        Key::Character("a".into()),
        none(),
        false,
    );
    assert!(matches!(typed, Some(Msg::SearchTyped(s)) if s == "a"));
    assert!(press(Screen::Player, None, Named::Space, none(), true).is_none(), "a held key toggles once");
}

fn around(cards: usize) -> Around {
    Around { cards, cols: 5, hovered: None, first_visible: 0, captured: false, interactive: true, menu: true, externalized: true }
}

#[test]
fn the_grid_reacts_to_keys() {
    let mut grid = Grid::mounted(Some(2));
    grid.sync(Some(Some(2)), 13);
    let arrow = |named: Named| GridEvent::KeyPressed { named, modifiers: none(), repeat: false };
    let r = grid.update(arrow(Named::ArrowDown), around(13));
    assert_eq!(grid.selected, Some(7));
    assert_eq!((r.notice, r.reveal, r.capture), (Some(GridMsg::Selected(Some(7))), Some(1), true));
    let covered = Around { interactive: false, ..around(13) };
    let r = grid.update(arrow(Named::ArrowDown), covered);
    assert_eq!((grid.selected, r.capture), (Some(7), false), "a covered grid does not react");
    let r = grid.update(arrow(Named::Enter), around(13));
    assert_eq!(r.action, Some(GridMsg::Menu(7)));
}

#[test]
fn the_flow_draws_the_best_there_is() {
    let mut app = playing(0);
    let covers = coverflow::flow_covers(&app);
    assert_eq!(covers.len(), 3);
    let (key, upload) = coverflow::cover_texture(&covers[1]);
    assert_eq!((key.id, key.tier), (2, coverflow::Tier::Accent), "an accent stands in under the album's id");
    assert_eq!(upload.unwrap().edge, 1);
    app.queue[0].cover = Some(CoverArt { id: 50, file: "/c.jpg".into(), accent: Rgb { r: 1, g: 1, b: 1 } });
    let thumb = coverflow::flow_cover(&app.queue[0], &app.hires);
    assert_eq!(coverflow::cover_texture(&thumb).0, coverflow::TexKey { id: 50, tier: coverflow::Tier::Thumb });
    app.hires.complete(50, Some(std::sync::Arc::new(vec![1, 2, 3, 4])));
    let full = coverflow::flow_cover(&app.queue[0], &app.hires);
    assert_eq!(coverflow::cover_texture(&full).0.tier, coverflow::Tier::Full);
    let (key, upload) = coverflow::cover_texture(&None);
    assert_eq!((key.id, upload), (u64::MAX, None), "nothing known: the placeholder");
    let keys = vec![coverflow::cover_texture(&thumb).0, coverflow::cover_texture(&full).0];
    assert_eq!(coverflow::retain(&keys, &vec![keys[1]]), [keys[1]]);
}

#[test]
fn views_say_what_they_show() {
    assert_eq!(display::fmt_time(125 * SECOND + 999_999_999), "02:05");
    assert_eq!(display::fmt_time(6000 * SECOND), "100:00");
    assert_eq!(display::fmt_len(None), "--:--");
    assert_eq!(display::byline("Abe", "Beta"), "Abe · Beta");
    assert_eq!(display::byline("", ""), "");
    assert_eq!(display::repeat_tag(Repeat::Playlist), '∞');
    assert_eq!(display::chip_label(&None, PickerSubject::Genre), "All genres");
    assert_eq!(display::chip_label(&Some("Jazz".into()), PickerSubject::Genre), "Jazz");
    assert_eq!(display::picker_placeholder(PickerSubject::Artist), "Search artists…");
    assert_eq!(display::track_window(10..40, 10, 15, 5), 20..30);
    assert_eq!(display::track_window(10..40, 10, 29, 9), 30..40);
    assert_eq!(display::track_window(10..15, 10, 3, 2), 10..15);
    assert_eq!(display::slot_label(&vec!["x".into()], 0), "(all)");
    assert_eq!(display::slot_label(&vec!["x".into()], 1), "x");
    let mut app = playing(2);
    assert_eq!(display::shown_slot(&app), Some(2));
    update(&mut app, Msg::OpenTrackMenu(0), 0);
    app.screen = Screen::Library;
    assert_eq!(display::drawn_modal(&app), Some(ModalKind::Tracks));
    app.screen = Screen::Player;
    assert_eq!(display::drawn_modal(&app), None, "the menu belongs to the library");
    assert_eq!(display::shown_slot(&fresh()), None);
    assert_eq!(display::empty_status(app.scan), "Scanning");
}

#[test]
fn the_glow_scatters_by_album() {
    assert_eq!(glow_cell(0), (0, 0));
    assert_eq!(glow_cell(8), (1, 1));
    assert_eq!(glow_cell(7 * 4), (0, 0));
}

#[test]
fn an_item_is_copied_whole() {
    let app = playing(0);
    let item: QueueItem = app.queue[1].copy();
    assert_eq!((item.title.as_str(), item.album.as_str(), item.accent), ("a2", "Alpha", Some(Rgb { r: 1, g: 0, b: 0 })));
}

#[test]
fn the_cover_is_published_by_its_url() {
    let mut app = playing(0);
    app.queue[0].cover = Some(CoverArt { id: 5, file: "/m/A b/cover.jpg".into(), accent: Rgb { r: 0, g: 0, b: 0 } });
    let effects = update(&mut app, Msg::Player(Event::PlayState(PlayState::Paused)), 0);
    let url = effects.iter().find_map(|e| match e {
        Effect::Publish(snapshot) => snapshot.meta.as_ref().and_then(|m| m.cover_url.clone()),
        _ => None,
    });
    assert_eq!(url.as_deref(), Some("file:///m/A%20b/cover.jpg"));
}
