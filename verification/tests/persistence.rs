use phonoscule::dirs::Env;
use phonoscule::paths;
use phonoscule::player::Repeat;
use phonoscule::playlist;
use phonoscule::session::{restore, usable_player, usable_playlist, SavedPlayer, SavedPlaylist};
use phonoscule::sort::{SortField, SortOrder};

fn item(path: &str, title: &str) -> playlist::SavedItem {
    playlist::SavedItem { path: path.into(), album_id: 1, title: title.into(), artist: "a".into(), album: "b".into() }
}

/// Save and load round-trip, with a track whose file vanished between runs: it is dropped, and
/// `current` follows its item to the new index.
#[test]
fn playlist_roundtrip_drops_vanished_tracks_and_keeps_current() {
    let items = vec![item("/r/a.opus", "a"), item("/r/gone.opus", "gone"), item("/r/b.opus", "b")];
    let saved = playlist::usable(Some(playlist::SavedPlaylist::new(items, 2)));
    let loaded = playlist::load(saved, &vec![true, false, true]);
    let titles: Vec<&str> = loaded.items.iter().map(|i| i.title.as_str()).collect();
    assert_eq!(titles, ["a", "b"], "the vanished track is dropped");
    assert_eq!(loaded.current, 1, "current follows its item past the dropped one");
}

#[test]
fn missing_file_restores_an_empty_queue() {
    let loaded = playlist::load(playlist::usable(None), &vec![]);
    assert!(loaded.items.is_empty());
    assert_eq!(loaded.current, 0);
    let mut old = playlist::SavedPlaylist::new(vec![item("/r/a.opus", "a")], 0);
    old.version = 0;
    assert!(playlist::usable(Some(old)).items.is_empty(), "an outdated file restores nothing");
}

/// Save and load round-trip, with a track whose file vanished between runs: it is dropped, and
/// `current` follows its item to the new index.
#[test]
fn session_roundtrip_drops_vanished_tracks_and_keeps_current() {
    let sort = SortOrder { field: SortField::Year, ..Default::default() };
    let tracks = vec!["/r/a.opus".to_string(), "/r/gone.opus".to_string(), "/r/b.opus".to_string()];
    let playlist = usable_playlist(Some(SavedPlaylist::new(tracks)));
    let player = usable_player(Some(SavedPlayer::new(2, Repeat::Album, sort)));
    let restored = restore(playlist, player, &vec![true, false, true]);
    assert_eq!(restored.tracks, ["/r/a.opus", "/r/b.opus"], "the vanished track is dropped");
    assert_eq!(restored.current, 1, "current follows its item past the dropped one");
    assert_eq!(restored.repeat, Repeat::Album, "the repeat mode round-trips");
    assert_eq!(restored.sort, sort, "the sort order round-trips");
}

#[test]
fn missing_files_restore_an_empty_session() {
    let restored = restore(usable_playlist(None), usable_player(None), &vec![]);
    assert!(restored.tracks.is_empty());
    assert_eq!(restored.current, 0);
    assert_eq!(restored.repeat, Repeat::Off);
}

#[test]
fn an_index_past_the_end_is_brought_back() {
    let playlist = SavedPlaylist::new(vec!["/r/a.opus".to_string(), "/r/b.opus".to_string()]);
    let restored = restore(playlist, SavedPlayer::new(9, Repeat::Off, SortOrder::default()), &vec![true, true]);
    assert_eq!(restored.current, 1);
}

fn env(windows: bool) -> Env {
    Env {
        windows,
        home: Some("/home/me".into()),
        xdg_state_home: None,
        xdg_cache_home: Some("/cache".into()),
        xdg_config_home: None,
        app_data: None,
        local_app_data: Some("C:\\local".into()),
    }
}

#[test]
fn files_have_their_places() {
    let e = env(false);
    let at = |p: Option<String>| p.unwrap();
    assert_eq!(at(paths::playlist_file(&e)), "/home/me/.local/state/phonoscule/playlist.json");
    assert_eq!(at(paths::player_file(&e)), "/home/me/.local/state/phonoscule/player.json");
    assert_eq!(at(paths::tag_cache_file(&e)), "/cache/phonoscule/library.json");
    assert_eq!(at(paths::album_index_file(&e)), "/cache/phonoscule/albums.json");
    assert_eq!(at(paths::covers_dir(&e)), "/cache/phonoscule/covers.220");
    assert_eq!(at(paths::full_covers_dir(&e)), "/cache/phonoscule/covers.900");
    assert_eq!(at(paths::default_cache_file(&e)), "/cache/phonoscule/library.json");
    assert_eq!(at(paths::default_covers_dir(&e)), "/cache/phonoscule/covers.320");
    assert_eq!(at(paths::default_index_file(&e)), "/cache/phonoscule/albums.json");
    assert_eq!(at(playlist::default_file(&e)), "/home/me/.local/state/phonoscule/playlist.json");
    assert_eq!(at(paths::playlist_file(&env(true))), "C:\\local\\phonoscule\\state\\playlist.json");
    assert_eq!(paths::covers_dir_name(7), "covers.7");
}

#[test]
fn without_a_home_nothing_is_kept() {
    let nowhere = Env { home: None, xdg_cache_home: None, ..env(false) };
    assert!(paths::playlist_file(&nowhere).is_none());
    assert!(paths::default_index_file(&nowhere).is_none());
    assert!(playlist::default_file(&nowhere).is_none());
}
