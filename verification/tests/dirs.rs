use phonoscule::dirs::{cache_dir, config_dir, join, state_dir, Env};

fn nothing(windows: bool) -> Env {
    Env {
        windows,
        home: None,
        xdg_state_home: None,
        xdg_cache_home: None,
        xdg_config_home: None,
        app_data: None,
        local_app_data: None,
    }
}

fn linux() -> Env {
    Env { home: Some("/home/u".into()), ..nothing(false) }
}

fn windows() -> Env {
    Env {
        app_data: Some("C:\\Users\\u\\AppData\\Roaming".into()),
        local_app_data: Some("C:\\Users\\u\\AppData\\Local".into()),
        ..nothing(true)
    }
}

/// A cache must be deletable without taking the session with it, on either platform's layout.
#[test]
fn state_and_cache_are_separate_directories() {
    for env in [linux(), windows()] {
        let state = state_dir(&env, "phonoscule").expect("a home directory");
        let cache = cache_dir(&env, "phonoscule").expect("a home directory");
        assert_ne!(state, cache);
        assert!(!state.starts_with(&cache), "wiping the cache would take the state with it");
        assert!(!cache.starts_with(&state), "the cache sits inside the state");
    }
}

/// Two players must not share either, or one would overwrite the other's session.
#[test]
fn players_get_their_own_directories() {
    for env in [linux(), windows()] {
        assert_ne!(state_dir(&env, "phonoscule").unwrap(), state_dir(&env, "phonoscule-tui").unwrap());
        assert_ne!(cache_dir(&env, "phonoscule").unwrap(), cache_dir(&env, "phonoscule-tui").unwrap());
    }
}

/// The layout is the platform's, and getting it wrong is the whole failure mode this module
/// exists to avoid -- a Windows player scattering dotfiles through the user's profile.
#[test]
fn the_layout_is_the_platforms_own() {
    let env = windows();
    let cache = cache_dir(&env, "phonoscule").unwrap();
    let config = config_dir(&env).unwrap();
    assert!(cache.starts_with("C:\\Users\\u\\AppData\\Local"), "{cache:?} is not under LOCALAPPDATA");
    assert!(config.starts_with("C:\\Users\\u\\AppData\\Roaming"), "{config:?} is not under APPDATA");

    let env = linux();
    let cache = cache_dir(&env, "phonoscule").unwrap();
    let config = config_dir(&env).unwrap();
    assert!(cache.ends_with("phonoscule"), "{cache:?} is not the player's own directory");
    assert!(config.ends_with(".config"), "{config:?} is not an XDG root");
}

#[test]
fn without_a_home_there_is_nowhere() {
    assert_eq!(state_dir(&nothing(false), "phonoscule"), None);
    assert_eq!(cache_dir(&nothing(false), "phonoscule"), None);
    assert_eq!(config_dir(&nothing(false)), None);
}

#[test]
fn an_empty_variable_counts_as_unset() {
    let env = Env { xdg_cache_home: Some("".into()), ..linux() };
    assert_eq!(cache_dir(&env, "p").unwrap(), "/home/u/.cache/p");
    let env = Env { xdg_cache_home: Some("/var/c".into()), ..linux() };
    assert_eq!(cache_dir(&env, "p").unwrap(), "/var/c/p");
}

#[test]
fn paths_join_like_paths() {
    assert_eq!(join("/a", "b", false), "/a/b");
    assert_eq!(join("/a/", "b", false), "/a/b");
}
