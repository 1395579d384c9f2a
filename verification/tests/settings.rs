use phonoscule::args::{help, parse, Request};
use phonoscule::conf;
use phonoscule::config::{
    config_help, default_music_dir, env_var, locate, resolve, Conf, ConfError, Number, Required,
};
use phonoscule::dirs::Env;

/// A config that reads `src`, as the file at `/etc/players/<case>.toml` would.
fn config(case: &str, src: &str) -> Result<Conf, ConfError> {
    Conf::open("gui", format!("/etc/players/{case}.toml"), src, false)
}

fn failure(r: Result<Conf, ConfError>) -> String {
    match r {
        Ok(_) => panic!("that should not have been accepted"),
        Err(e) => e.message(),
    }
}

#[test]
fn config_parse_music_dir() {
    let conf = config("music-dir", "music-dir = \"/somewhere/else\"\n").ok().unwrap();
    assert_eq!(conf.music_dir, "/somewhere/else");
    assert_eq!(conf.path.as_deref(), Some("/etc/players/music-dir.toml"));
    assert_eq!(conf.app, "gui");
}

#[test]
fn config_relative_music_dir_is_relative_to_config_file() {
    let conf = config("relative", "music-dir = \"./Library\"").ok().unwrap();
    assert_eq!(conf.music_dir, "/etc/players/./Library");
}

#[test]
fn config_parse_errors_are_descriptive() {
    assert!(failure(config("empty", "")).contains("missing key `music-dir`"));
    assert!(failure(config("not-a-string", "music-dir = 7")).contains("should be a string"));
    assert!(matches!(config("broken", "music-dir = "), Err(ConfError::Syntax(_))));
    let unset = config("unset", "music-dir = \"$PHONOSCULE_SURELY_UNSET_VARIABLE/x\"");
    assert!(matches!(unset, Err(ConfError::Expansion(_))));
}

fn number(n: Option<Number>) -> Option<f32> {
    n.map(|n| match n {
        Number::Integer(i) => i as f32,
        Number::Float(bits) => f64::from_bits(bits) as f32,
    })
}

/// A player reads its own table; an absent table or key leaves its default in place, and only a
/// present-but-wrongly-typed value is an error.
#[test]
fn app_settings_come_from_the_players_own_table() {
    let conf = config("app-absent", "music-dir = \"/m\"").ok().unwrap();
    assert_eq!(number(conf.app_float("scaling").unwrap()), None, "no [app] table at all");

    let conf = config("app-other", "music-dir = \"/m\"\n[app.tui]\nscaling = 3").ok().unwrap();
    assert_eq!(number(conf.app_float("scaling").unwrap()), None, "another player's table is not ours");

    let conf = config("app-gui", "music-dir = \"/m\"\n[app.gui]\nscaling = 1.25\nprotocol = \"kitty\"").ok().unwrap();
    assert_eq!(number(conf.app_float("scaling").unwrap()), Some(1.25));
    assert_eq!(conf.app_str("protocol").unwrap(), Some("kitty"));

    let conf = config("app-bad", "music-dir = \"/m\"\n[app.gui]\nscaling = \"big\"").ok().unwrap();
    let err = conf.app_float("scaling").unwrap_err().message();
    assert!(err.contains("`app.gui.scaling` should be a number"), "{err}");

    let conf = config("app-inline", "music-dir = \"/m\"\napp = { gui = { scaling = 2, protocol = 7 } }").ok().unwrap();
    assert_eq!(number(conf.app_float("scaling").unwrap()), Some(2.0), "an integer will do, and an inline table");
    assert!(conf.app_str("protocol").unwrap_err().message().contains("`app.gui.protocol` should be a string"));
    let conf = config("app-flat", "music-dir = \"/m\"\napp = 3").ok().unwrap();
    assert_eq!(number(conf.app_float("scaling").unwrap()), None, "no table, no setting");
}

/// Whatever another player puts in its own table, we neither read nor validate it.
#[test]
fn other_players_tables_are_left_alone() {
    let src = "music-dir = \"/m\"\n[app.someoneelses]\nwhatever = { nested = [1, \"two\"] }";
    assert!(config("third-party", src).is_ok());
}

#[test]
fn settings_from_no_file_have_no_table() {
    let conf = Conf::new("tui", "/m".to_string());
    assert!(conf.path.is_none());
    assert_eq!((conf.app.as_str(), conf.music_dir.as_str()), ("tui", "/m"));
    assert_eq!(conf.app_float("scaling").unwrap(), None);
    assert_eq!(conf.app_str("protocol").unwrap(), None);
}

fn env(home: Option<&str>, xdg_config_home: Option<&str>) -> Env {
    Env {
        windows: false,
        home: home.map(String::from),
        xdg_state_home: None,
        xdg_cache_home: None,
        xdg_config_home: xdg_config_home.map(String::from),
        app_data: None,
        local_app_data: None,
    }
}

#[test]
fn the_config_file_is_the_first_that_is_asked_for() {
    let home = env(Some("/home/me"), None);
    let named = Some("/from/env.toml".to_string());
    assert_eq!(locate(Some("a.toml".into()), &named, &home), ("a.toml".to_string(), Required::Yes));
    assert_eq!(locate(None, &named, &home), ("/from/env.toml".to_string(), Required::Yes));
    assert_eq!(locate(None, &Some(String::new()), &home), ("/home/me/.config/phonoscule.toml".to_string(), Required::No));
    let xdg = env(Some("/home/me"), Some("/xdg"));
    assert_eq!(locate(None, &None, &xdg), ("/xdg/phonoscule.toml".to_string(), Required::No));
    assert_eq!(locate(None, &None, &env(None, None)).0, ".config/phonoscule.toml");
    assert_eq!(env_var("gui"), "PHONOSCULE_GUI_CONF");
    assert_eq!(default_music_dir(&home), "/home/me/Music");
}

#[test]
fn only_the_default_file_may_be_missing() {
    let home = env(Some("/home/me"), None);
    let conf = Conf::missing("gui", Required::No, true, &home).unwrap();
    assert_eq!(conf.music_dir, "/home/me/Music");
    assert!(Conf::missing("gui", Required::Yes, true, &home).is_none());
    assert!(Conf::missing("gui", Required::No, false, &home).is_none());
}

#[test]
fn a_failed_expansion_is_an_error() {
    let doc = Conf::new("gui", String::new()).doc;
    let r = Conf::with_music_dir("gui", "/c/x.toml".into(), doc, Err("no such variable".into()), false);
    assert_eq!(failure(r), "no such variable");
    assert_eq!(resolve("a".into(), true, &Some("/c".into()), false), "/c/a");
    assert_eq!(resolve("a".into(), false, &Some("/c".into()), false), "a");
    assert_eq!(resolve("a".into(), true, &None, false), "a");
}

#[test]
fn variables_are_expanded() {
    let open = |dir: &str| Conf::open("gui", "/c/x.toml".into(), &format!("music-dir = \"{dir}\""), false);
    assert_eq!(open("${PHONOSCULE_SURELY_UNSET:-/srv}/music").unwrap().music_dir, "/srv/music");
    assert_eq!(open("${PHONOSCULE_SURELY_UNSET:-tunes}").unwrap().music_dir, "/c/tunes");
    assert!(failure(open("/$PHONOSCULE_SURELY_UNSET")).contains("PHONOSCULE_SURELY_UNSET"));
    assert_eq!(open("/plain/~dir").unwrap().music_dir, "/plain/~dir", "nothing to expand");
    let parsed = conf::Settings::parse("music-dir = \"${PHONOSCULE_SURELY_UNSET:-/srv}\"").unwrap();
    assert_eq!(parsed.music_dir, "/srv");
}

#[test]
fn the_help_names_the_variable_and_the_table() {
    let help = config_help("gui");
    assert!(help.starts_with("Configuration file:\n"));
    assert!(help.contains("$PHONOSCULE_GUI_CONF"));
    assert!(help.contains("[app.gui]"));
}

#[test]
fn conf_parse_music_dir() {
    let s = conf::Settings::parse("music-dir = \"/somewhere/else\"\n").unwrap();
    assert_eq!(s.music_dir, "/somewhere/else");
}

#[test]
fn conf_relative_music_dir_is_relative_to_config_file() {
    let conf = conf::Conf::open("/tmp/phonoscule-conf-test/conf.toml".into(), "music-dir = \"./Library\"", false).unwrap();
    assert_eq!(conf.settings.music_dir, "/tmp/phonoscule-conf-test/./Library");
}

#[test]
fn conf_parse_errors_are_descriptive() {
    assert!(conf::Settings::parse("").unwrap_err().message().contains("missing key `music-dir`"));
    assert!(conf::Settings::parse("music-dir = 7").unwrap_err().message().contains("should be a string"));
}

#[test]
fn conf_locations_say_whether_they_were_asked_for() {
    let home = env(Some("/home/me"), None);
    assert!(matches!(conf::locate(Some("a".into()), &None, &home), conf::Location::Explicit(p) if p == "a"));
    assert!(matches!(conf::locate(None, &Some("b".into()), &home), conf::Location::Explicit(p) if p == "b"));
    let default = conf::locate(None, &None, &home);
    let conf = conf::Conf::missing(default, true, &home).unwrap();
    assert_eq!(conf.path, "/home/me/.config/phonoscule.toml");
    assert_eq!(conf.settings.music_dir, "/home/me/Music");
    assert!(conf::Conf::missing(conf::Location::Explicit("a".into()), true, &home).is_none());
}

fn asked(args: &[&str]) -> Request {
    parse(&args.iter().map(|a| a.to_string()).collect())
}

#[test]
fn the_command_line_is_two_flags_and_a_path() {
    assert!(matches!(asked(&[]), Request::Run(None)));
    assert!(matches!(asked(&["x.toml"]), Request::Run(Some(p)) if p == "x.toml"));
    assert!(matches!(asked(&["x.toml", "-h"]), Request::Help));
    assert!(matches!(asked(&["--version", "--nonsense"]), Request::Version));
    assert_eq!(asked(&["--nonsense"]).complaint().as_deref(), Some("unknown option `--nonsense`"));
    let many = asked(&["a", "b"]).complaint().unwrap();
    assert_eq!(many, "expected at most one argument: a path to a config file");
    assert!(asked(&["a"]).complaint().is_none());
    assert!(help().contains("Usage: phonoscule-gui [CONFIG]") && help().contains("scaling"));
}
