//! Where this player keeps its files.
//!
//! Its own directories, not shared ones: the framework takes paths rather than deciding them, so
//! another phonoscule player on the same machine has its own state and caches and cannot overwrite
//! ours. (Pointing two of them at one directory is then a deliberate act, not the default.) Which
//! roots those directories sit under is the platform's business, and
//! [`dirs`](crate::dirs)' - all we bring is the name.

use crate::covers::{FULL, THUMB};
use crate::dirs::{base, below, cache_dir, join, rooted, state_dir, Env};
use crate::text::{copy, decimal, opt_text, push_decimal};
use vstd::prelude::*;

verus! {

/// The square edge covers are cached at: what an album card in the grid wants, and no more -- every
/// one of them is held in memory at once, decoded, so a card costs `edge`² x 4 bytes for as long as
/// the library has it.
///
/// A card's cover square is 156 to 172 pixels wide (see the album grid's metrics), so this is a
/// little headroom over the largest of them and nothing more. It is on disk in the path, so changing
/// it starts a fresh cache rather than reinterpreting the old one.
pub const THUMB_EDGE: u32 = 220;

/// A file or a directory in an optional directory.
pub open spec fn inside(dir: Option<Seq<char>>, name: Seq<char>, windows: bool) -> Option<Seq<char>> {
    match dir {
        Some(dir) => Some(below(dir, name, windows)),
        None => None,
    }
}

fn put(dir: Option<String>, name: &str, windows: bool) -> (path: Option<String>)
    ensures
        opt_text(path) == inside(opt_text(dir), name@, windows),
{
    match dir {
        Some(dir) => Some(join(dir.as_str(), name, windows)),
        None => None,
    }
}

/// The name of the directory of the covers of a given edge.
pub open spec fn covers_name(edge: u32) -> Seq<char> {
    "covers."@ + decimal(edge as nat)
}

/// The directory of the covers of a given edge. The edge is in the name, so that changing it starts a
/// fresh directory rather than reading mismatched files.
pub fn covers_dir_name(edge: u32) -> (name: String)
    ensures
        name@ == covers_name(edge),
{
    let mut name: String = copy("covers.");
    push_decimal(&mut name, edge as u64);
    name
}

/// State survives a cache wipe. `None` when there is no such directory to be found, which means we
/// don't persist.
pub open spec fn state_root(env: Env) -> Option<Seq<char>> {
    env.state_root("phonoscule"@)
}

/// Regenerable caches: the tag cache, the album index, and the cover thumbnails.
pub open spec fn cache_root(env: Env) -> Option<Seq<char>> {
    env.cache_root("phonoscule"@)
}

/// The play queue: just its list of tracks.
pub fn playlist_file(env: &Env) -> (path: Option<String>)
    ensures
        opt_text(path) == inside(state_root(*env), "playlist.json"@, env.windows),
{
    put(state_dir(env, "phonoscule"), "playlist.json", env.windows)
}

/// The session state around the queue: current track, repeat mode, sort order.
pub fn player_file(env: &Env) -> (path: Option<String>)
    ensures
        opt_text(path) == inside(state_root(*env), "player.json"@, env.windows),
{
    put(state_dir(env, "phonoscule"), "player.json", env.windows)
}

/// The tag cache, so a rescan only opens files that changed.
pub fn tag_cache_file(env: &Env) -> (path: Option<String>)
    ensures
        opt_text(path) == inside(cache_root(*env), "library.json"@, env.windows),
{
    put(cache_dir(env, "phonoscule"), "library.json", env.windows)
}

/// The album index, so a launch shows the whole library before the scan finishes.
pub fn album_index_file(env: &Env) -> (path: Option<String>)
    ensures
        opt_text(path) == inside(cache_root(*env), "albums.json"@, env.windows),
{
    put(cache_dir(env, "phonoscule"), "albums.json", env.windows)
}

/// The cover thumbnails, one per album and all of them held decoded.
pub fn covers_dir(env: &Env) -> (path: Option<String>)
    ensures
        opt_text(path) == inside(cache_root(*env), covers_name(THUMB_EDGE), env.windows),
{
    put(cache_dir(env, "phonoscule"), covers_dir_name(THUMB_EDGE).as_str(), env.windows)
}

/// The full-size covers the player view draws, so that showing one is a read and a small decode
/// rather than decoding a whole sleeve. Only ever holds the covers that have actually been looked
/// at, which is why it can afford a resolution the thumbnails cannot.
pub fn full_covers_dir(env: &Env) -> (path: Option<String>)
    ensures
        opt_text(path) == inside(cache_root(*env), covers_name(FULL), env.windows),
{
    put(cache_dir(env, "phonoscule"), covers_dir_name(FULL).as_str(), env.windows)
}

/// The directory that gathers every persistent cache under one roof, whatever the platform:
/// `$XDG_CACHE_HOME/phonoscule`, falling back to `~/.cache/phonoscule`.
pub open spec fn default_root(env: Env) -> Option<Seq<char>> {
    inside(rooted(env.xdg_cache_home, env.home, ".cache"@, env.windows), "phonoscule"@, env.windows)
}

fn default_dir(env: &Env) -> (path: Option<String>)
    ensures
        opt_text(path) == default_root(*env),
{
    put(base(&env.xdg_cache_home, &env.home, ".cache", env.windows), "phonoscule", env.windows)
}

/// The default location of the tag cache: `<cache>/phonoscule/library.json`.
pub fn default_cache_file(env: &Env) -> (path: Option<String>)
    ensures
        opt_text(path) == inside(default_root(*env), "library.json"@, env.windows),
{
    put(default_dir(env), "library.json", env.windows)
}

/// The default thumbnail cache directory: `<cache>/phonoscule/covers.<THUMB>`. The edge size is
/// in the name, so bumping [`THUMB`] starts a fresh directory rather than reading mismatched files.
pub fn default_covers_dir(env: &Env) -> (path: Option<String>)
    ensures
        opt_text(path) == inside(default_root(*env), covers_name(THUMB), env.windows),
{
    put(default_dir(env), covers_dir_name(THUMB).as_str(), env.windows)
}

/// The default location of the album index: `<cache>/phonoscule/albums.json`.
pub fn default_index_file(env: &Env) -> (path: Option<String>)
    ensures
        opt_text(path) == inside(default_root(*env), "albums.json"@, env.windows),
{
    put(default_dir(env), "albums.json", env.windows)
}

proof fn lemma_decimal(a: nat, b: nat)
    requires
        decimal(a) == decimal(b),
    ensures
        a == b,
    decreases a,
{
    if a < 10 && b < 10 {
        assert(decimal(a)[0] == crate::text::digit(a as int));
        assert(decimal(b)[0] == crate::text::digit(b as int));
    } else if a >= 10 && b >= 10 {
        let x = decimal(a / 10);
        let y = decimal(b / 10);
        let da = crate::text::digit((a % 10) as int);
        let db = crate::text::digit((b % 10) as int);
        assert(x.push(da).last() == da && y.push(db).last() == db);
        assert(x.push(da).drop_last() =~= x);
        assert(y.push(db).drop_last() =~= y);
        assert(a % 10 == b % 10);
        lemma_decimal(a / 10, b / 10);
        assert(a == 10 * (a / 10) + a % 10);
        assert(b == 10 * (b / 10) + b % 10);
    } else if a >= 10 {
        lemma_some_digits(a / 10);
        assert(decimal(a).len() == decimal(a / 10).len() + 1);
        assert(decimal(b).len() == 1);
    } else {
        lemma_some_digits(b / 10);
        assert(decimal(b).len() == decimal(b / 10).len() + 1);
        assert(decimal(a).len() == 1);
    }
}

proof fn lemma_some_digits(n: nat)
    ensures
        decimal(n).len() > 0,
    decreases n,
{
    if n >= 10 {
        lemma_some_digits(n / 10);
    }
}

/// Covers of different edges are kept in different directories, so that changing the edge starts a fresh
/// cache rather than reading mismatched files.
pub proof fn law_edges_do_not_mix(a: u32, b: u32)
    requires
        a != b,
    ensures
        covers_name(a) != covers_name(b),
{
    let x = decimal(a as nat);
    let y = decimal(b as nat);
    if covers_name(a) == covers_name(b) {
        let head = "covers."@;
        assert((head + x).skip(head.len() as int) =~= x);
        assert((head + y).skip(head.len() as int) =~= y);
        lemma_decimal(a as nat, b as nat);
    }
}

/// Caches are in a directory of their own below that for caches: the one that is named, or `.cache` in the home
/// directory.
pub proof fn law_caches_are_below_the_cache_directory(env: Env, dir: Seq<char>)
    requires
        !env.windows,
        dir.len() > 0,
        dir.last() != '/',
    ensures
        env.xdg_cache_home is Some && env.xdg_cache_home->0@ == dir ==> default_root(env) == Some(
            dir + seq!['/'] + "phonoscule"@,
        ),
        env.xdg_cache_home is None && env.home is Some && env.home->0@ == dir ==> default_root(env) == Some(
            dir + seq!['/'] + ".cache"@ + seq!['/'] + "phonoscule"@,
        ),
{
    reveal_strlit(".cache");
    crate::dirs::law_joining_puts_one_separator_between(dir, "phonoscule"@, false);
    crate::dirs::law_joining_puts_one_separator_between(dir, ".cache"@, false);
    let cache = dir + seq!['/'] + ".cache"@;
    assert(cache.last() == 'e');
    crate::dirs::law_joining_puts_one_separator_between(cache, "phonoscule"@, false);
}

} // verus!
