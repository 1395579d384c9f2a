//! Where the platform keeps a program's files.
//!
//! The roots and their layout, which is a fact about the OS -- not what a player puts in them, which
//! stays the player's own business: it passes its name, gets its directories, and decides the files
//! inside (see [`paths`](crate::paths)).
//!
//! On Linux the XDG base directories, honouring `$XDG_*_HOME` and falling back to their defaults
//! under `~`. On Windows the two AppData roots: `%APPDATA%` for settings, which is the one that
//! roams with a user, and `%LOCALAPPDATA%` for state and caches, which should not. Windows draws no
//! distinction of its own between state and cache, so they become subdirectories of the player's
//! own -- keeping a cache still something you can delete on its own, as on Linux.
//!
//! Every function returns `None` when the directory cannot be determined at all (no home, no
//! AppData), which callers take as "then we do not persist this".

use crate::text::{copy, opt_text};
use vstd::prelude::*;
use vstd::string::*;

verus! {

/// What a process finds in its environment: the platform, the home directory, and the variables that
/// name directories.
pub struct Env {
    pub windows: bool,
    pub home: Option<String>,
    pub xdg_state_home: Option<String>,
    pub xdg_cache_home: Option<String>,
    pub xdg_config_home: Option<String>,
    pub app_data: Option<String>,
    pub local_app_data: Option<String>,
}

/// Whether a character separates the components of a path.
pub open spec fn is_separator(c: char, windows: bool) -> bool {
    c == '/' || (windows && c == '\\')
}

/// The separator that a platform writes.
pub open spec fn separator(windows: bool) -> Seq<char> {
    if windows {
        "\\"@
    } else {
        "/"@
    }
}

/// `tail` below `dir`, for a tail that is relative.
pub open spec fn below(dir: Seq<char>, tail: Seq<char>, windows: bool) -> Seq<char> {
    if dir.len() == 0 || is_separator(dir.last(), windows) {
        dir + tail
    } else {
        dir + separator(windows) + tail
    }
}

/// Joins a relative path onto a directory.
pub fn join(dir: &str, tail: &str, windows: bool) -> (path: String)
    ensures
        path@ == below(dir@, tail@, windows),
{
    let mut path: String = copy(dir);
    let n: usize = dir.unicode_len();
    if n > 0 {
        let last: char = dir.get_char(n - 1);
        if !(last == '/' || (windows && last == '\\')) {
            path.append(
                if windows {
                    "\\"
                } else {
                    "/"
                },
            );
        }
    }
    path.append(tail);
    path
}

/// A variable's value; one that is empty counts as unset.
pub open spec fn set_value(var: Option<String>) -> Option<Seq<char>> {
    match var {
        Some(value) => if value@.len() == 0 {
            None
        } else {
            Some(value@)
        },
        None => None,
    }
}

/// The directory that a variable names, or the default under the home directory.
pub open spec fn rooted(
    var: Option<String>,
    home: Option<String>,
    default: Seq<char>,
    windows: bool,
) -> Option<Seq<char>> {
    match set_value(var) {
        Some(dir) => Some(dir),
        None => match home {
            Some(home) => Some(below(home@, default, windows)),
            None => None,
        },
    }
}

/// A base directory: the variable if it names one, else its default under the home directory. An empty
/// variable counts as unset.
pub(crate) fn base(var: &Option<String>, home: &Option<String>, default: &str, windows: bool) -> (dir: Option<
    String,
>)
    ensures
        opt_text(dir) == rooted(*var, *home, default@, windows),
{
    match var {
        Some(value) => {
            if !value.as_str().is_empty() {
                return Some(value.clone());
            }
        },
        None => {},
    }
    match home {
        Some(home) => Some(join(home.as_str(), default, windows)),
        None => None,
    }
}

impl Env {
    /// `%APPDATA%`, the roaming one. Falling back to the standard location under the home directory, so
    /// a process started without the usual environment still finds it.
    pub open spec fn roaming(&self) -> Option<Seq<char>> {
        rooted(self.app_data, self.home, "AppData\\Roaming"@, true)
    }

    /// `%LOCALAPPDATA%`, the machine-local one.
    pub open spec fn local(&self) -> Option<Seq<char>> {
        rooted(self.local_app_data, self.home, "AppData\\Local"@, true)
    }

    pub open spec fn state_root(&self, app: Seq<char>) -> Option<Seq<char>> {
        if self.windows {
            match self.local() {
                Some(root) => Some(below(below(root, app, true), "state"@, true)),
                None => None,
            }
        } else {
            match rooted(self.xdg_state_home, self.home, ".local/state"@, false) {
                Some(root) => Some(below(root, app, false)),
                None => None,
            }
        }
    }

    pub open spec fn cache_root(&self, app: Seq<char>) -> Option<Seq<char>> {
        if self.windows {
            match self.local() {
                Some(root) => Some(below(below(root, app, true), "cache"@, true)),
                None => None,
            }
        } else {
            match rooted(self.xdg_cache_home, self.home, ".cache"@, false) {
                Some(root) => Some(below(root, app, false)),
                None => None,
            }
        }
    }

    pub open spec fn config_root(&self) -> Option<Seq<char>> {
        if self.windows {
            match self.roaming() {
                Some(root) => Some(below(root, "phonoscule"@, true)),
                None => None,
            }
        } else {
            rooted(self.xdg_config_home, self.home, ".config"@, false)
        }
    }
}

/// State that must survive a cache wipe -- a saved session, say -- for the player named `app`:
/// `$XDG_STATE_HOME/<app>`, or `%LOCALAPPDATA%\<app>\state`.
pub fn state_dir(env: &Env, app: &str) -> (dir: Option<String>)
    ensures
        opt_text(dir) == env.state_root(app@),
{
    if env.windows {
        match base(&env.local_app_data, &env.home, "AppData\\Local", true) {
            Some(root) => Some(join(join(root.as_str(), app, true).as_str(), "state", true)),
            None => None,
        }
    } else {
        match base(&env.xdg_state_home, &env.home, ".local/state", false) {
            Some(root) => Some(join(root.as_str(), app, false)),
            None => None,
        }
    }
}

/// Regenerable caches -- thumbnails, a tag cache -- for the player named `app`:
/// `$XDG_CACHE_HOME/<app>`, or `%LOCALAPPDATA%\<app>\cache`.
pub fn cache_dir(env: &Env, app: &str) -> (dir: Option<String>)
    ensures
        opt_text(dir) == env.cache_root(app@),
{
    if env.windows {
        match base(&env.local_app_data, &env.home, "AppData\\Local", true) {
            Some(root) => Some(join(join(root.as_str(), app, true).as_str(), "cache", true)),
            None => None,
        }
    } else {
        match base(&env.xdg_cache_home, &env.home, ".cache", false) {
            Some(root) => Some(join(root.as_str(), app, false)),
            None => None,
        }
    }
}

/// The directory holding the framework's shared `phonoscule.toml` (see [`config`](crate::config)):
/// `$XDG_CONFIG_HOME`, or `%APPDATA%\phonoscule`.
///
/// Shared, not per-player -- one file serves every player on the machine, each reading its own
/// `[app.<name>]` table -- so unlike the two above this takes no name. On Windows it is a directory
/// of our own rather than the root of `%APPDATA%`, where a loose file has no business being.
pub fn config_dir(env: &Env) -> (dir: Option<String>)
    ensures
        opt_text(dir) == env.config_root(),
{
    if env.windows {
        match base(&env.app_data, &env.home, "AppData\\Roaming", true) {
            Some(root) => Some(join(root.as_str(), "phonoscule", true)),
            None => None,
        }
    } else {
        base(&env.xdg_config_home, &env.home, ".config", false)
    }
}

/// On Windows the state and the cache of a player are separate directories, whatever the environment,
/// and neither lies inside the other: they part at their last component.
pub proof fn law_state_and_cache_are_separate_on_windows(env: Env, app: Seq<char>)
    requires
        env.windows,
        env.local() is Some,
    ensures
        env.state_root(app) is Some,
        env.cache_root(app) is Some,
        env.state_root(app)->0.len() == env.cache_root(app)->0.len(),
        env.state_root(app) != env.cache_root(app),
{
    let root = below(env.local()->0, app, true);
    reveal_strlit("state");
    reveal_strlit("cache");
    let state = below(root, "state"@, true);
    let cache = below(root, "cache"@, true);
    let n = state.len();
    assert(state[n - 1] == 'e' && cache[n - 1] == 'e');
    assert(state[n - 5] == 's');
    assert(cache[n - 5] == 'c');
}

/// Under a home directory and without variables of their own, the state and the cache of a player are
/// separate directories, and neither lies inside the other.
pub proof fn law_state_and_cache_are_separate_under_a_home(env: Env, home: String, app: Seq<char>)
    requires
        !env.windows,
        env.home == Some(home),
        set_value(env.xdg_state_home) is None,
        set_value(env.xdg_cache_home) is None,
    ensures
        env.state_root(app) is Some,
        env.cache_root(app) is Some,
        !env.state_root(app)->0.is_prefix_of(env.cache_root(app)->0),
        !env.cache_root(app)->0.is_prefix_of(env.state_root(app)->0),
{
    reveal_strlit(".local/state");
    reveal_strlit(".cache");
    reveal_strlit("/");
    let state = env.state_root(app)->0;
    let cache = env.cache_root(app)->0;
    let at: int = if home@.len() == 0 || home@.last() == '/' {
        home@.len() as int
    } else {
        (home@.len() + 1) as int
    };
    assert(state[at + 1] == 'l');
    assert(cache[at + 1] == 'c');
}

/// A player's name: not empty, and without a separator at its end.
pub open spec fn is_name(app: Seq<char>, windows: bool) -> bool {
    app.len() > 0 && !is_separator(app.last(), windows)
}

/// Two players get directories of their own.
pub proof fn law_players_get_their_own_directories(env: Env, a: Seq<char>, b: Seq<char>)
    requires
        a != b,
        env.windows ==> is_name(a, true) && is_name(b, true),
    ensures
        env.state_root(a) is Some ==> env.state_root(a) != env.state_root(b),
        env.cache_root(a) is Some ==> env.cache_root(a) != env.cache_root(b),
{
    if env.windows {
        match env.local() {
            Some(root) => {
                lemma_below_injective(root, a, b, true);
                let x = below(root, a, true);
                let y = below(root, b, true);
                assert(x.last() == a.last() && y.last() == b.last());
                let state = separator(true) + "state"@;
                let cache = separator(true) + "cache"@;
                assert(below(x, "state"@, true) =~= x + state);
                assert(below(y, "state"@, true) =~= y + state);
                assert(below(x, "cache"@, true) =~= x + cache);
                assert(below(y, "cache"@, true) =~= y + cache);
                if x + state == y + state {
                    assert((x + state).take((x + state).len() - state.len()) =~= x);
                    assert((y + state).take((y + state).len() - state.len()) =~= y);
                }
                if x + cache == y + cache {
                    assert((x + cache).take((x + cache).len() - cache.len()) =~= x);
                    assert((y + cache).take((y + cache).len() - cache.len()) =~= y);
                }
            },
            None => {},
        }
    } else {
        match rooted(env.xdg_state_home, env.home, ".local/state"@, false) {
            Some(root) => {
                lemma_below_injective(root, a, b, false);
            },
            None => {},
        }
        match rooted(env.xdg_cache_home, env.home, ".cache"@, false) {
            Some(root) => {
                lemma_below_injective(root, a, b, false);
            },
            None => {},
        }
    }
}

proof fn lemma_below_injective(dir: Seq<char>, a: Seq<char>, b: Seq<char>, windows: bool)
    requires
        a != b,
    ensures
        below(dir, a, windows) != below(dir, b, windows),
{
    let head = if dir.len() == 0 || is_separator(dir.last(), windows) {
        dir
    } else {
        dir + separator(windows)
    };
    assert(below(dir, a, windows) =~= head + a);
    assert(below(dir, b, windows) =~= head + b);
    if head + a == head + b {
        assert((head + a).skip(head.len() as int) =~= a);
        assert((head + b).skip(head.len() as int) =~= b);
    }
}

/// Joining puts one separator between, that of the platform, unless the directory ends with one already.
pub proof fn law_joining_puts_one_separator_between(dir: Seq<char>, tail: Seq<char>, windows: bool)
    requires
        dir.len() > 0,
    ensures
        dir.last() == '/' ==> below(dir, tail, windows) == dir + tail,
        windows && dir.last() == '\\' ==> below(dir, tail, windows) == dir + tail,
        !windows && dir.last() != '/' ==> below(dir, tail, windows) == dir + seq!['/'] + tail,
        windows && dir.last() != '/' && dir.last() != '\\' ==> below(dir, tail, windows) == dir + seq!['\\'] + tail,
        below(Seq::empty(), tail, windows) == tail,
{
    reveal_strlit("/");
    reveal_strlit("\\");
    assert("/"@ =~= seq!['/']);
    assert("\\"@ =~= seq!['\\']);
    assert(Seq::<char>::empty() + tail =~= tail);
}

} // verus!
