//! The one setting of a player without settings of its own, and the config file it is read from.
//!
//! The config is a TOML file located by [`locate`]: an explicit path (command line argument or
//! `$PHONOSCULE_CONFIG`) is required to exist, while the default location
//! (`$XDG_CONFIG_HOME/phonoscule.toml`, falling back to `~/.config/phonoscule.toml`) may be
//! absent, in which case default settings are used.

use crate::config::{
    config_home, default_location, default_music_dir, expand, expansions, has_key, home_of, is_dir_of,
    is_expansion_error, is_plain, itself, music_dir_in, parse, parsed, resolve_at, resolved, under, ConfError,
    Setting,
};
use crate::dirs::{below, set_value, Env};
use crate::path::{is_relative_path, parent_of};
use vstd::prelude::*;
use vstd::string::*;

verus! {

#[derive(Debug)]
pub struct Conf {
    /// Where the settings were read from (kept for future format-preserving saving).
    pub path: String,
    pub settings: Settings,
}

#[derive(Debug)]
pub struct Settings {
    pub music_dir: String,
}

/// Where the config file should be read from, and whether it is allowed to be missing.
#[derive(Debug)]
pub enum Location {
    /// Explicitly requested (command line argument or `$PHONOSCULE_CONFIG`): must exist.
    Explicit(String),
    /// The default, XDG-derived location: missing just means default settings.
    Default(String),
}

/// The location, by its path, and whether it was asked for.
impl View for Location {
    type V = (Seq<char>, bool);

    open spec fn view(&self) -> (Seq<char>, bool) {
        match *self {
            Location::Explicit(path) => (path@, true),
            Location::Default(path) => (path@, false),
        }
    }
}

/// The config file to read: `arg`, or the value of `$PHONOSCULE_CONFIG`, or the default location.
pub fn locate(arg: Option<String>, named: &Option<String>, env: &Env) -> (location: Location)
    ensures
        location@ == (match arg {
            Some(path) => (path@, true),
            None => match set_value(*named) {
                Some(path) => (path, true),
                None => (below(config_home(*env), "phonoscule.toml"@, env.windows), false),
            },
        }),
{
    if let Some(path) = arg {
        return Location::Explicit(path);
    }
    if let Some(path) = named {
        if path.as_str().unicode_len() > 0 {
            return Location::Explicit(path.clone());
        }
    }
    Location::Default(default_location(env))
}

/// What a config file says: the text of its music directory, before any expansion, or what is wrong.
pub enum Reading {
    Text(Seq<char>),
    Syntax(Seq<char>),
    Missing,
    NotText,
}

/// What a config file says.
pub open spec fn reading(src: Seq<char>) -> Reading {
    match parsed(src) {
        Err(what) => Reading::Syntax(what),
        Ok(settings) => if !has_key(settings, "music-dir"@) {
            Reading::Missing
        } else {
            match itself(under(settings, "music-dir"@)) {
                Setting::Text(text) => Reading::Text(text),
                _ => Reading::NotText,
            }
        },
    }
}

/// The text of the music directory in a config file.
fn read(src: &str) -> (r: Result<String, ConfError>)
    ensures
        match reading(src@) {
            Reading::Text(text) => r matches Ok(s) && s@ == text,
            Reading::Syntax(what) => r matches Err(ConfError::Syntax(e)) && e@ == what,
            Reading::Missing => r matches Err(ConfError::MissingMusicDir),
            Reading::NotText => r matches Err(ConfError::MusicDirNotText),
        },
{
    match parse(src) {
        Ok(doc) => music_dir_in(&doc),
        Err(what) => Err(ConfError::Syntax(what)),
    }
}

impl Settings {
    /// The settings to go by where there is no config file: `~/Music`.
    pub fn defaults(env: &Env) -> (s: Self)
        ensures
            s.music_dir@ == below(home_of(*env), "Music"@, env.windows),
    {
        Settings { music_dir: default_music_dir(env) }
    }

    /// The settings of a music directory that has been expanded, or could not be.
    pub fn expanded(dir: Result<String, String>) -> (r: Result<Settings, ConfError>)
        ensures
            match dir {
                Ok(dir) => r matches Ok(s) && s.music_dir == dir,
                Err(what) => r matches Err(ConfError::Expansion(e)) && e == what,
            },
    {
        match dir {
            Ok(music_dir) => Ok(Settings { music_dir }),
            Err(what) => Err(ConfError::Expansion(what)),
        }
    }

    /// The settings in a config file that reads `src`. What the music directory expands to rests on the
    /// environment.
    pub fn parse(src: &str) -> (r: Result<Settings, ConfError>)
        ensures
            match reading(src@) {
                Reading::Text(text) => match r {
                    Ok(s) => {
                        &&& expansions(text).contains(Ok(s.music_dir@))
                        &&& is_plain(text) ==> s.music_dir@ == text
                    },
                    Err(e) => !is_plain(text) && is_expansion_error(text, e),
                },
                Reading::Syntax(what) => r matches Err(ConfError::Syntax(e)) && e@ == what,
                Reading::Missing => r matches Err(ConfError::MissingMusicDir),
                Reading::NotText => r matches Err(ConfError::MusicDirNotText),
            },
    {
        match read(src) {
            Ok(text) => Settings::expanded(expand(text.as_str())),
            Err(e) => Err(e),
        }
    }
}

impl Conf {
    /// The settings that were read from the file at `path`. A relative music directory is relative to the
    /// config file, not to the (arbitrary) working directory of the process.
    pub fn at(path: String, settings: Settings, windows: bool) -> (conf: Conf)
        ensures
            conf.path == path,
            conf.settings.music_dir@ == resolved(
                settings.music_dir@,
                is_relative_path(settings.music_dir@),
                parent_of(path@),
                windows,
            ),
    {
        let music_dir: String = resolve_at(settings.music_dir, path.as_str(), windows);
        Conf { path, settings: Settings { music_dir } }
    }

    /// The settings of the file at `path` (a full one) that reads `src`.
    pub fn open(path: String, src: &str, windows: bool) -> (r: Result<Conf, ConfError>)
        ensures
            match reading(src@) {
                Reading::Text(text) => match r {
                    Ok(conf) => conf.path == path && is_dir_of(text, conf.settings.music_dir@, path@, windows),
                    Err(e) => !is_plain(text) && is_expansion_error(text, e),
                },
                Reading::Syntax(what) => r matches Err(ConfError::Syntax(e)) && e@ == what,
                Reading::Missing => r matches Err(ConfError::MissingMusicDir),
                Reading::NotText => r matches Err(ConfError::MusicDirNotText),
            },
    {
        match Settings::parse(src) {
            Ok(settings) => Ok(Conf::at(path, settings, windows)),
            Err(e) => Err(e),
        }
    }

    /// What to go by where the file at a location could not be read: default settings, where it may be
    /// missing, and is. None where that is an error.
    pub fn missing(location: Location, not_found: bool, env: &Env) -> (conf: Option<Conf>)
        ensures
            match conf {
                Some(conf) => {
                    &&& not_found
                    &&& location@ == (conf.path@, false)
                    &&& conf.settings.music_dir@ == below(home_of(*env), "Music"@, env.windows)
                },
                None => !not_found || location@.1,
            },
    {
        match location {
            Location::Default(path) => if not_found {
                Some(Conf { path, settings: Settings::defaults(env) })
            } else {
                None
            },
            Location::Explicit(_) => None,
        }
    }
}

} // verus!
