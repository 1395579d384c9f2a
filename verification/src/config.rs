//! An optional TOML config file, for players that want one.
//!
//! Nothing else in the framework depends on this, and using it is no part of being a phonoscule
//! player: it is one way to obtain settings, convenient where there is a filesystem to read. A
//! player with settings in NVS, a database, or its command line alone skips this module and passes
//! the same values in directly.
//!
//! Where several players do use it, they can share one file: settings the framework itself reads --
//! so far just [`music_dir`](Conf::music_dir) -- sit at the top level, while a player's own live in
//! its `[app.<name>]` table, read with [`Conf::app_float`] and friends. The framework never looks
//! inside `app`, whose subtables belong to the applications, this repository's or anyone else's.

use crate::dirs::{below, join, set_value, Env};
use crate::path::{is_relative, is_relative_path, parent, parent_of};
use crate::text::{copy, opt_text, uppercase, uppercased};
use toml_edit::{DocumentMut, Item};
use vstd::prelude::*;
use vstd::string::*;

verus! {

/// `toml_edit::DocumentMut`: a parsed config file.
#[verifier::external_type_specification]
#[verifier::external_body]
pub struct ExDocumentMut(toml_edit::DocumentMut);

/// `toml_edit::Item`: what a config file has under a key.
#[verifier::external_type_specification]
#[verifier::external_body]
pub struct ExItem(toml_edit::Item);

/// A setting, as far as its kind matters here. A float goes by the bits of its IEEE 754 double.
pub enum Setting {
    Text(Seq<char>),
    Integer(i64),
    Float(u64),
    /// A table, a list, a date, a truth value.
    Other,
}

/// Settings, under the keys that lead to them.
pub type Settings = Map<Seq<Seq<char>>, Setting>;

/// No settings.
pub open spec fn no_settings() -> Settings {
    Map::empty()
}

/// The settings in a document, under the keys that lead to them through its tables.
pub uninterp spec fn settings_of(doc: DocumentMut) -> Settings;

/// The settings in an item: itself under no key, and what it holds, where it is a table, under the keys
/// that lead there.
pub uninterp spec fn held_by(item: Item) -> Settings;

/// What `DocumentMut::from_str` makes of a text: the settings in the document, or what is wrong with it.
pub uninterp spec fn parsed(src: Seq<char>) -> Result<Settings, Seq<char>>;

/// The settings under a key.
pub open spec fn under(settings: Settings, key: Seq<char>) -> Settings {
    Map::new(
        |path: Seq<Seq<char>>| settings.contains_key(seq![key] + path),
        |path: Seq<Seq<char>>| settings[seq![key] + path],
    )
}

/// There is something under a key.
pub open spec fn has_key(settings: Settings, key: Seq<char>) -> bool {
    settings.contains_key(seq![key])
}

/// The setting itself.
pub open spec fn itself(held: Settings) -> Setting {
    held[Seq::empty()]
}

/// `<DocumentMut as FromStr>::from_str` parses a TOML document. The claim names what it makes of the text,
/// and does not spell out TOML.
#[verifier::external_body]
pub(crate) fn parse(src: &str) -> (r: Result<DocumentMut, String>)
    ensures
        match r {
            Ok(doc) => parsed(src@) == Ok::<Settings, Seq<char>>(settings_of(doc)),
            Err(e) => parsed(src@) == Err::<Settings, Seq<char>>(e@),
        },
{
    src.parse::<DocumentMut>().map_err(|e| e.to_string())
}

/// `DocumentMut::new` makes a document without settings.
#[verifier::external_body]
fn empty_document() -> (doc: DocumentMut)
    ensures
        settings_of(doc) == no_settings(),
{
    DocumentMut::new()
}

/// `Table::get` on the document's root table finds what the document has under a key.
#[verifier::external_body]
fn get<'a>(doc: &'a DocumentMut, key: &str) -> (item: Option<&'a Item>)
    ensures
        match item {
            Some(item) => has_key(settings_of(*doc), key@) && held_by(*item) == under(settings_of(*doc), key@),
            None => !has_key(settings_of(*doc), key@),
        },
{
    doc.get(key)
}

/// `Item::as_table_like` and, on what it gives, `TableLike::get`: what a table, inline or not, has under a
/// key. An item that is no table has nothing under any.
#[verifier::external_body]
fn get_in<'a>(item: &'a Item, key: &str) -> (inner: Option<&'a Item>)
    ensures
        match inner {
            Some(inner) => has_key(held_by(*item), key@) && held_by(*inner) == under(held_by(*item), key@),
            None => !has_key(held_by(*item), key@),
        },
{
    item.as_table_like()?.get(key)
}

/// `Item::as_str`: the text of a setting that is one.
#[verifier::external_body]
fn as_text(item: &Item) -> (text: Option<&str>)
    ensures
        match text {
            Some(text) => itself(held_by(*item)) == Setting::Text(text@),
            None => !(itself(held_by(*item)) is Text),
        },
{
    item.as_str()
}

/// `Item::as_integer`: the number of a setting that is an integer.
#[verifier::external_body]
fn as_integer(item: &Item) -> (n: Option<i64>)
    ensures
        match n {
            Some(n) => itself(held_by(*item)) == Setting::Integer(n),
            None => !(itself(held_by(*item)) is Integer),
        },
{
    item.as_integer()
}

/// `Item::as_float`: the number of a setting that is a float, by its bits.
#[verifier::external_body]
fn as_float(item: &Item) -> (bits: Option<u64>)
    ensures
        match bits {
            Some(bits) => itself(held_by(*item)) == Setting::Float(bits),
            None => !(itself(held_by(*item)) is Float),
        },
{
    item.as_float().map(|x| x.to_bits())
}

/// What `shellexpand::full` may make of a text, over all environments: the expanded text, or what is wrong.
/// The environment has its say, hence a set.
pub uninterp spec fn expansions(text: Seq<char>) -> Set<Result<Seq<char>, Seq<char>>>;

/// A text that has nothing to expand: no variable, and no `~` in front.
pub open spec fn is_plain(text: Seq<char>) -> bool {
    !text.contains('$') && !(text.len() > 0 && text[0] == '~')
}

/// `shellexpand::full` expands a leading `~` and the environment variables in a text. What comes of it
/// rests on the environment: the claim is that it is one of the things that the text may come to, and that a
/// text with nothing to expand stays as it is. What a `~` or a variable stands for is left unsaid.
#[verifier::external_body]
pub(crate) fn expand(text: &str) -> (r: Result<String, String>)
    ensures
        match r {
            Ok(s) => expansions(text@).contains(Ok(s@)) && (is_plain(text@) ==> s@ == text@),
            Err(e) => expansions(text@).contains(Err(e@)) && !is_plain(text@),
        },
{
    shellexpand::full(text).map(|s| s.into_owned()).map_err(|e| e.to_string())
}

/// What is wrong with a config file.
#[derive(Debug)]
pub enum ConfError {
    /// It is no TOML.
    Syntax(String),
    MissingMusicDir,
    MusicDirNotText,
    /// The music directory could not be expanded.
    Expansion(String),
    /// The setting of this dotted name is not a number.
    NotANumber(String),
    /// The setting of this dotted name is not a string.
    NotText(String),
}

/// The text of an error.
pub open spec fn error_text(e: ConfError) -> Seq<char> {
    match e {
        ConfError::Syntax(what) => what@,
        ConfError::MissingMusicDir => "missing key `music-dir` in config"@,
        ConfError::MusicDirNotText => "config key `music-dir` should be a string"@,
        ConfError::Expansion(what) => what@,
        ConfError::NotANumber(key) => "config key `"@ + key@ + "` should be a number"@,
        ConfError::NotText(key) => "config key `"@ + key@ + "` should be a string"@,
    }
}

impl ConfError {
    /// What is wrong, in words.
    pub fn message(&self) -> (s: String)
        ensures
            s@ == error_text(*self),
    {
        match self {
            ConfError::Syntax(what) => copy(what.as_str()),
            ConfError::MissingMusicDir => copy("missing key `music-dir` in config"),
            ConfError::MusicDirNotText => copy("config key `music-dir` should be a string"),
            ConfError::Expansion(what) => copy(what.as_str()),
            ConfError::NotANumber(key) => {
                let mut s: String = copy("config key `");
                s.append(key.as_str());
                s.append("` should be a number");
                s
            },
            ConfError::NotText(key) => {
                let mut s: String = copy("config key `");
                s.append(key.as_str());
                s.append("` should be a string");
                s
            },
        }
    }
}

/// What a document says of the music directory: the text under `music-dir`, before any expansion.
pub open spec fn is_music_dir(settings: Settings, r: Result<Seq<char>, ConfError>) -> bool {
    if !has_key(settings, "music-dir"@) {
        r == Err::<Seq<char>, ConfError>(ConfError::MissingMusicDir)
    } else {
        match itself(under(settings, "music-dir"@)) {
            Setting::Text(text) => r == Ok::<Seq<char>, ConfError>(text),
            _ => r == Err::<Seq<char>, ConfError>(ConfError::MusicDirNotText),
        }
    }
}

/// A result by the text in it.
pub open spec fn ok_text<E>(r: Result<String, E>) -> Result<Seq<char>, E> {
    match r {
        Ok(s) => Ok(s@),
        Err(e) => Err(e),
    }
}

/// What a document says of the music directory.
pub fn music_dir_in(doc: &DocumentMut) -> (r: Result<String, ConfError>)
    ensures
        is_music_dir(settings_of(*doc), ok_text(r)),
{
    match get(doc, "music-dir") {
        Some(item) => match as_text(item) {
            Some(text) => Ok(copy(text)),
            None => Err(ConfError::MusicDirNotText),
        },
        None => Err(ConfError::MissingMusicDir),
    }
}

/// Where a music directory is: what it says, or below the directory of the config file where it is
/// relative.
pub open spec fn resolved(dir: Seq<char>, relative: bool, parent: Option<Seq<char>>, windows: bool) -> Seq<char> {
    match parent {
        Some(parent) => if relative {
            below(parent, dir, windows)
        } else {
            dir
        },
        None => dir,
    }
}

/// Whether a music directory that the config file at `path` gives as `text` may be `dir`: what the text may
/// expand to, or the text as it is where there is nothing to expand, and resolved.
pub open spec fn is_dir_of(text: Seq<char>, dir: Seq<char>, path: Seq<char>, windows: bool) -> bool {
    &&& exists|expanded: Seq<char>| #[trigger]
        expansions(text).contains(Ok(expanded)) && dir == resolved(
            expanded,
            is_relative_path(expanded),
            parent_of(path),
            windows,
        )
    &&& is_plain(text) ==> dir == resolved(text, is_relative_path(text), parent_of(path), windows)
}

/// Whether a text may fail to be expanded for this reason.
pub open spec fn is_expansion_error(text: Seq<char>, e: ConfError) -> bool {
    e matches ConfError::Expansion(what) && expansions(text).contains(Err(what@))
}

/// Relative paths in the config are relative to the config file, not to the (arbitrary) working directory
/// of the process.
pub fn resolve(dir: String, relative: bool, parent: &Option<String>, windows: bool) -> (r: String)
    ensures
        r@ == resolved(dir@, relative, opt_text(*parent), windows),
{
    match parent {
        Some(parent) => if relative {
            join(parent.as_str(), dir.as_str(), windows)
        } else {
            dir
        },
        None => dir,
    }
}

/// Resolves a directory that the config file at `path` names.
pub fn resolve_at(dir: String, path: &str, windows: bool) -> (r: String)
    ensures
        r@ == resolved(dir@, is_relative_path(dir@), parent_of(path@), windows),
{
    let relative: bool = is_relative(dir.as_str());
    let parent: Option<String> = parent(path);
    resolve(dir, relative, &parent, windows)
}

/// Settings, and where they came from. Plain data, so a player is free to assemble one itself rather
/// than [`open`](Conf::open) it -- see [`Conf::new`].
pub struct Conf {
    /// The file the settings were read from, or `None` if they came from no file (kept for future
    /// format-preserving saving).
    pub path: Option<String>,
    /// The application these were loaded for, naming the `[app.<name>]` table its own settings come
    /// from.
    pub app: String,
    /// The parsed document, which [`app_float`](Self::app_float) and friends read this application's
    /// table out of. Read your own `[app.<name>]` table from it and nothing else: the top level is
    /// the framework's, and the other `app` subtables belong to other players.
    pub doc: DocumentMut,
    /// Path to the music library, from `music-dir`, defaulting to `~/Music`. `~` and environment
    /// variables are expanded, and a relative path resolves against the config file's own directory
    /// rather than the process's working directory.
    pub music_dir: String,
}

/// Whether a missing config file is an error.
#[derive(Debug, Clone, Copy, PartialEq, Eq, Structural)]
pub enum Required {
    Yes,
    No,
}

/// The home directory, or nothing.
pub open spec fn home_of(env: Env) -> Seq<char> {
    match env.home {
        Some(home) => home@,
        None => Seq::empty(),
    }
}

fn home_or_empty(env: &Env) -> (home: String)
    ensures
        home@ == home_of(*env),
{
    match &env.home {
        Some(home) => home.clone(),
        None => {
            let home: String = String::new();
            assert(home@ =~= Seq::empty());
            home
        },
    }
}

/// The directory of config files: `$XDG_CONFIG_HOME`, or `.config` in the home directory.
pub open spec fn config_home(env: Env) -> Seq<char> {
    match set_value(env.xdg_config_home) {
        Some(dir) => dir,
        None => below(home_of(env), ".config"@, env.windows),
    }
}

/// The default location of the config file.
pub fn default_location(env: &Env) -> (path: String)
    ensures
        path@ == below(config_home(*env), "phonoscule.toml"@, env.windows),
{
    let dir: String = match &env.xdg_config_home {
        Some(dir) => if dir.as_str().unicode_len() > 0 {
            dir.clone()
        } else {
            join(home_or_empty(env).as_str(), ".config", env.windows)
        },
        None => join(home_or_empty(env).as_str(), ".config", env.windows),
    };
    join(dir.as_str(), "phonoscule.toml", env.windows)
}

/// The config file to read, and whether it is allowed to be missing.
pub open spec fn located(arg: Option<String>, named: Option<String>, env: Env) -> (Seq<char>, Required) {
    match arg {
        Some(path) => (path@, Required::Yes),
        None => match set_value(named) {
            Some(path) => (path, Required::Yes),
            None => (below(config_home(env), "phonoscule.toml"@, env.windows), Required::No),
        },
    }
}

/// The config file to read, and whether it is allowed to be missing: the first of `arg`, the value of the
/// variable that [`env_var`] names, `$XDG_CONFIG_HOME/phonoscule.toml`, `~/.config/phonoscule.toml`.
///
/// A file asked for explicitly -- by `arg` or the environment -- must exist; the default location
/// may be absent, which just means default settings.
pub fn locate(arg: Option<String>, named: &Option<String>, env: &Env) -> (r: (String, Required))
    ensures
        (r.0@, r.1) == located(arg, *named, *env),
{
    if let Some(path) = arg {
        return (path, Required::Yes);
    }
    if let Some(path) = named {
        if path.as_str().unicode_len() > 0 {
            return (path.clone(), Required::Yes);
        }
    }
    (default_location(env), Required::No)
}

/// The environment variable naming `app`'s config file, e.g. `PHONOSCULE_GUI_CONF`.
pub fn env_var(app: &str) -> (name: String)
    ensures
        name@ == "PHONOSCULE_"@ + uppercase(app@) + "_CONF"@,
{
    let mut name: String = copy("PHONOSCULE_");
    name.append(uppercased(app).as_str());
    name.append("_CONF");
    name
}

/// The music directory used when there is no config file at all.
pub fn default_music_dir(env: &Env) -> (dir: String)
    ensures
        dir@ == below(home_of(*env), "Music"@, env.windows),
{
    join(home_or_empty(env).as_str(), "Music", env.windows)
}

/// A number of a config file: an integer, or a float by its bits.
#[derive(Debug, Clone, Copy, PartialEq, Eq, Structural)]
pub enum Number {
    Integer(i64),
    Float(u64),
}

/// A setting's dotted name, for error messages.
pub open spec fn dotted(app: Seq<char>, key: Seq<char>) -> Seq<char> {
    "app."@ + app + "."@ + key
}

/// What a player's own table has under a key.
pub open spec fn own_setting(settings: Settings, app: Seq<char>, key: Seq<char>) -> Option<Setting> {
    if settings.contains_key(seq!["app"@, app, key]) {
        Some(settings[seq!["app"@, app, key]])
    } else {
        None
    }
}

/// What is found by going through the table `app` and the player's own table in it.
pub open spec fn reached(settings: Settings, app: Seq<char>, key: Seq<char>) -> Option<Setting> {
    if has_key(settings, "app"@) && has_key(under(settings, "app"@), app) {
        own_setting(settings, app, key)
    } else {
        None
    }
}

impl Conf {
    /// Settings that came from no file: for a player that obtains them some other way -- a database,
    /// non-volatile storage, its command line -- and needs a [`Conf`] to hand on regardless. Its
    /// `[app.<name>]` table is empty, so every [`app_float`](Self::app_float) and friend is `None`
    /// and the caller's own defaults apply.
    pub fn new(app: &str, music_dir: String) -> (conf: Self)
        ensures
            conf.path is None,
            conf.app@ == app@,
            settings_of(conf.doc) == no_settings(),
            conf.music_dir == music_dir,
    {
        Conf { path: None, app: copy(app), doc: empty_document(), music_dir }
    }

    /// The settings of the file at `path`, whose music directory has been expanded, or could not be.
    pub fn with_music_dir(
        app: &str,
        path: String,
        doc: DocumentMut,
        expanded: Result<String, String>,
        windows: bool,
    ) -> (r: Result<Conf, ConfError>)
        ensures
            match expanded {
                Ok(dir) => {
                    &&& r matches Ok(conf)
                    &&& conf.path == Some(path)
                    &&& conf.app@ == app@
                    &&& conf.doc == doc
                    &&& conf.music_dir@ == resolved(dir@, is_relative_path(dir@), parent_of(path@), windows)
                },
                Err(what) => r matches Err(ConfError::Expansion(e)) && e == what,
            },
    {
        match expanded {
            Ok(dir) => {
                let music_dir: String = resolve_at(dir, path.as_str(), windows);
                Ok(Conf { path: Some(path), app: copy(app), doc, music_dir })
            },
            Err(what) => Err(ConfError::Expansion(what)),
        }
    }

    /// The settings of the file at `path` (a full one) that reads `src`. What the music directory expands
    /// to rests on the environment.
    pub fn open(app: &str, path: String, src: &str, windows: bool) -> (r: Result<Conf, ConfError>)
        ensures
            match parsed(src@) {
                Err(what) => r matches Err(ConfError::Syntax(e)) && e@ == what,
                Ok(settings) => if !has_key(settings, "music-dir"@) {
                    r matches Err(ConfError::MissingMusicDir)
                } else {
                    match itself(under(settings, "music-dir"@)) {
                        Setting::Text(text) => match r {
                            Ok(conf) => {
                                &&& conf.path == Some(path)
                                &&& conf.app@ == app@
                                &&& settings_of(conf.doc) == settings
                                &&& is_dir_of(text, conf.music_dir@, path@, windows)
                            },
                            Err(e) => !is_plain(text) && is_expansion_error(text, e),
                        },
                        _ => r matches Err(ConfError::MusicDirNotText),
                    }
                },
            },
    {
        let doc: DocumentMut = match parse(src) {
            Ok(doc) => doc,
            Err(what) => {
                return Err(ConfError::Syntax(what));
            },
        };
        match music_dir_in(&doc) {
            Ok(text) => {
                let expanded: Result<String, String> = expand(text.as_str());
                Conf::with_music_dir(app, path, doc, expanded, windows)
            },
            Err(e) => Err(e),
        }
    }

    /// The settings to go by where a config file could not be read: the defaults, where it is one that may
    /// be missing, and is. None where that is an error.
    pub fn missing(app: &str, required: Required, not_found: bool, env: &Env) -> (conf: Option<Conf>)
        ensures
            match conf {
                Some(conf) => {
                    &&& required == Required::No && not_found
                    &&& conf.path is None
                    &&& conf.app@ == app@
                    &&& settings_of(conf.doc) == no_settings()
                    &&& conf.music_dir@ == below(home_of(*env), "Music"@, env.windows)
                },
                None => required == Required::Yes || !not_found,
            },
    {
        if not_found && required == Required::No {
            Some(Conf::new(app, default_music_dir(env)))
        } else {
            None
        }
    }

    fn app_setting(&self, key: &str) -> (item: Option<&Item>)
        ensures
            match item {
                Some(item) => reached(settings_of(self.doc), self.app@, key@) == Some(itself(held_by(*item))),
                None => reached(settings_of(self.doc), self.app@, key@) is None,
            },
    {
        let ghost settings = settings_of(self.doc);
        let ghost top = under(settings, "app"@);
        proof {
            let app = self.app@;
            assert(seq!["app"@] + seq![app] =~= seq!["app"@, app]);
            assert(seq![app] + seq![key@] =~= seq![app, key@]);
            assert(seq!["app"@] + seq![app, key@] =~= seq!["app"@, app, key@]);
            assert(seq![key@] + Seq::<Seq<char>>::empty() =~= seq![key@]);
        }
        let app: &Item = match get(&self.doc, "app") {
            Some(item) => item,
            None => {
                return None;
            },
        };
        let own: &Item = match get_in(app, self.app.as_str()) {
            Some(item) => item,
            None => {
                return None;
            },
        };
        get_in(own, key)
    }

    /// A setting's dotted name, for error messages.
    fn app_key(&self, key: &str) -> (name: String)
        ensures
            name@ == dotted(self.app@, key@),
    {
        let mut name: String = copy("app.");
        name.append(self.app.as_str());
        name.append(".");
        name.append(key);
        name
    }

    /// A number from this player's `[app.<name>]` table, accepting an integer or a float so both
    /// `key = 2` and `key = 1.25` work. `None` when the table or the key is absent, leaving the
    /// caller's default to apply; an error only when the key is there but is not a number.
    pub fn app_float(&self, key: &str) -> (r: Result<Option<Number>, ConfError>)
        ensures
            match reached(settings_of(self.doc), self.app@, key@) {
                None => r matches Ok(None),
                Some(Setting::Float(bits)) => r matches Ok(Some(n)) && n == Number::Float(bits),
                Some(Setting::Integer(i)) => r matches Ok(Some(n)) && n == Number::Integer(i),
                Some(_) => r matches Err(ConfError::NotANumber(name)) && name@ == dotted(self.app@, key@),
            },
    {
        let item: &Item = match self.app_setting(key) {
            Some(item) => item,
            None => {
                return Ok(None);
            },
        };
        match as_float(item) {
            Some(bits) => Ok(Some(Number::Float(bits))),
            None => match as_integer(item) {
                Some(n) => Ok(Some(Number::Integer(n))),
                None => Err(ConfError::NotANumber(self.app_key(key))),
            },
        }
    }

    /// A string from this player's `[app.<name>]` table. `None` when the table or the key is absent.
    pub fn app_str(&self, key: &str) -> (r: Result<Option<&str>, ConfError>)
        ensures
            match reached(settings_of(self.doc), self.app@, key@) {
                None => r matches Ok(None),
                Some(Setting::Text(text)) => r matches Ok(Some(s)) && s@ == text,
                Some(_) => r matches Err(ConfError::NotText(name)) && name@ == dotted(self.app@, key@),
            },
    {
        let item: &Item = match self.app_setting(key) {
            Some(item) => item,
            None => {
                return Ok(None);
            },
        };
        match as_text(item) {
            Some(text) => Ok(Some(text)),
            None => Err(ConfError::NotText(self.app_key(key))),
        }
    }
}

/// The help on the config file of the player named `app`.
pub open spec fn help_text(app: Seq<char>) -> Seq<char> {
    "Configuration file:\n  A TOML file, looked for in this order: the CONFIG path above, then\n  $"@
        + ("PHONOSCULE_"@ + uppercase(app) + "_CONF"@)
        + ", then $XDG_CONFIG_HOME/phonoscule.toml, then\n  ~/.config/phonoscule.toml. If no file is found, default values are used.\n\n  Settings:\n    music-dir  Path to the music library. Required once a config file exists\n               (without one it defaults to ~/Music). `~` and environment\n               variables are expanded; a relative path resolves against the\n               config file's own directory.\n\n  Settings under [app."@
        + app
        + "] are this player's own. Another player that reads\n  this file reads its own [app.<name>] table, so one file can serve several.\n"@
}

/// Help describing the config file for the player named `app`, for its `--help`: where the file is
/// looked for, and the settings understood here. The player appends its own `[app.<name>]` ones.
pub fn config_help(app: &str) -> (help: String)
    ensures
        help@ == help_text(app@),
{
    let mut help: String = copy(
        "Configuration file:\n  A TOML file, looked for in this order: the CONFIG path above, then\n  $",
    );
    help.append(env_var(app).as_str());
    help.append(
        ", then $XDG_CONFIG_HOME/phonoscule.toml, then\n  ~/.config/phonoscule.toml. If no file is found, default values are used.\n\n  Settings:\n    music-dir  Path to the music library. Required once a config file exists\n               (without one it defaults to ~/Music). `~` and environment\n               variables are expanded; a relative path resolves against the\n               config file's own directory.\n\n  Settings under [app.",
    );
    help.append(app);
    help.append(
        "] are this player's own. Another player that reads\n  this file reads its own [app.<name>] table, so one file can serve several.\n",
    );
    help
}

/// A player reads its own table, and no other's: settings that agree on its table answer alike, whatever
/// else they hold.
pub proof fn law_other_players_tables_are_left_alone(
    a: Settings,
    b: Settings,
    app: Seq<char>,
    key: Seq<char>,
)
    requires
        has_key(a, "app"@) == has_key(b, "app"@),
        under(under(a, "app"@), app) == under(under(b, "app"@), app),
    ensures
        reached(a, app, key) == reached(b, app, key),
{
    let (x, y) = (under(under(a, "app"@), app), under(under(b, "app"@), app));
    assert(seq!["app"@] + seq![app] =~= seq!["app"@, app]);
    assert(seq![app] + seq![key] =~= seq![app, key]);
    assert(seq!["app"@] + seq![app, key] =~= seq!["app"@, app, key]);
    assert(seq![app] + Seq::<Seq<char>>::empty() =~= seq![app]);
    assert(x.contains_key(seq![key]) == y.contains_key(seq![key]));
    assert(x.contains_key(Seq::empty()) == y.contains_key(Seq::empty()));
    assert(x.contains_key(seq![key]) == a.contains_key(seq!["app"@, app, key]));
    assert(y.contains_key(seq![key]) == b.contains_key(seq!["app"@, app, key]));
    if x.contains_key(seq![key]) {
        assert(x[seq![key]] == y[seq![key]]);
    }
}

/// The config file is the one that is asked for, else the one that the variable names, both of which have to be
/// there; else the default one, which may be missing. A variable that is empty counts as none.
pub proof fn law_the_config_file_is_looked_for_in_turn(arg: Option<String>, named: Option<String>, env: Env)
    ensures
        arg matches Some(path) ==> located(arg, named, env) == (path@, Required::Yes),
        arg is None && (named matches Some(path) && path@.len() > 0) ==> located(arg, named, env) == (
            named->0@,
            Required::Yes,
        ),
        arg is None && (named is None || named->0@.len() == 0) ==> located(arg, named, env).1 == Required::No,
{
}

/// A relative music directory is below the directory of the config file, and an absolute one stays.
pub proof fn law_directories_are_relative_to_the_config_file(dir: Seq<char>, parent: Seq<char>, windows: bool)
    ensures
        resolved(dir, false, Some(parent), windows) == dir,
        ({
            let full = resolved(dir, true, Some(parent), windows);
            &&& full.len() >= parent.len() + dir.len()
            &&& full.take(parent.len() as int) == parent
            &&& full.skip(full.len() - dir.len()) == dir
            &&& full.len() <= parent.len() + 1 + dir.len()
            &&& full.len() == parent.len() + 1 + dir.len() ==> full[parent.len() as int] == if windows {
                '\\'
            } else {
                '/'
            }
        }),
{
    reveal_strlit("\\");
    reveal_strlit("/");
    let full = resolved(dir, true, Some(parent), windows);
    assert(full.take(parent.len() as int) =~= parent);
    assert(full.skip(full.len() - dir.len()) =~= dir);
}

} // verus!
