//! Which log messages are let through, by the modules they come from.

use crate::text::{chars_of, copy};
use vstd::prelude::*;
use vstd::string::*;
use vstd::utf8::*;

verus! {

/// How much is let through: nothing, or everything up to a level of detail.
#[derive(Debug, Clone, Copy, PartialEq, Eq, Structural)]
pub enum Level {
    Off,
    Error,
    Warn,
    Info,
    Debug,
    Trace,
}

impl Level {
    /// How detailed the level is.
    pub open spec fn detail(self) -> int {
        match self {
            Level::Off => 0,
            Level::Error => 1,
            Level::Warn => 2,
            Level::Info => 3,
            Level::Debug => 4,
            Level::Trace => 5,
        }
    }

    fn rank(self) -> (n: u8)
        ensures
            n == self.detail(),
    {
        match self {
            Level::Off => 0,
            Level::Error => 1,
            Level::Warn => 2,
            Level::Info => 3,
            Level::Debug => 4,
            Level::Trace => 5,
        }
    }
}

/// A letter in upper case, where it is one of ASCII.
pub open spec fn upper(c: char) -> char {
    if 'a' <= c && c <= 'z' {
        ((c as u32 - 32) as u32) as char
    } else {
        c
    }
}

/// The name is spelled, in whatever case.
pub open spec fn spells(text: Seq<char>, name: Seq<char>) -> bool {
    &&& text.len() == name.len()
    &&& forall|i: int| 0 <= i < text.len() ==> upper(#[trigger] text[i]) == name[i]
}

fn is_letter(c: char, name: char) -> (r: bool)
    requires
        'A' <= name && name <= 'Z',
    ensures
        r == (upper(c) == name),
{
    let v: u32 = c as u32;
    let n: u32 = name as u32;
    if v >= 97 && v <= 122 {
        v - 32 == n
    } else {
        v == n
    }
}

fn is_spelled(text: &Vec<char>, name: &str) -> (r: bool)
    requires
        forall|i: int| 0 <= i < name@.len() ==> 'A' <= #[trigger] name@[i] && name@[i] <= 'Z',
    ensures
        r == spells(text@, name@),
{
    let letters: Vec<char> = chars_of(name);
    if text.len() != letters.len() {
        return false;
    }
    let mut i: usize = 0;
    while i < text.len()
        invariant
            i <= text.len() == letters.len(),
            letters@ == name@,
            forall|k: int| 0 <= k < name@.len() ==> 'A' <= #[trigger] name@[k] && name@[k] <= 'Z',
            forall|k: int| 0 <= k < i ==> upper(#[trigger] text@[k]) == name@[k],
        decreases text.len() - i,
    {
        if !is_letter(text[i], letters[i]) {
            return false;
        }
        i = i + 1;
    }
    true
}

/// The level that a text names.
pub open spec fn level_of(text: Seq<char>) -> Option<Level> {
    if spells(text, "OFF"@) {
        Some(Level::Off)
    } else if spells(text, "ERROR"@) {
        Some(Level::Error)
    } else if spells(text, "WARN"@) {
        Some(Level::Warn)
    } else if spells(text, "INFO"@) {
        Some(Level::Info)
    } else if spells(text, "DEBUG"@) {
        Some(Level::Debug)
    } else if spells(text, "TRACE"@) {
        Some(Level::Trace)
    } else {
        None
    }
}

/// The level that a text names, in whatever case.
pub fn parse_level(text: &str) -> (level: Option<Level>)
    ensures
        level == level_of(text@),
{
    proof {
        reveal_strlit("OFF");
        reveal_strlit("ERROR");
        reveal_strlit("WARN");
        reveal_strlit("INFO");
        reveal_strlit("DEBUG");
        reveal_strlit("TRACE");
    }
    let text: Vec<char> = chars_of(text);
    if is_spelled(&text, "OFF") {
        Some(Level::Off)
    } else if is_spelled(&text, "ERROR") {
        Some(Level::Error)
    } else if is_spelled(&text, "WARN") {
        Some(Level::Warn)
    } else if is_spelled(&text, "INFO") {
        Some(Level::Info)
    } else if is_spelled(&text, "DEBUG") {
        Some(Level::Debug)
    } else if is_spelled(&text, "TRACE") {
        Some(Level::Trace)
    } else {
        None
    }
}

/// What is let through of a module and those below it.
#[derive(Debug)]
pub struct ModuleLevel {
    pub name: String,
    pub level: Level,
}

/// What is let through.
#[derive(Debug)]
pub struct Levels {
    pub default: Level,
    /// From the most specific name to the least.
    pub modules: Vec<ModuleLevel>,
}

/// How long a module's name is, in bytes.
pub open spec fn length(m: ModuleLevel) -> nat {
    encode_utf8(m.name@).len()
}

/// Longer names come first; names of equal length stay as they were given.
pub open spec fn comes_before(a: ModuleLevel, b: ModuleLevel) -> bool {
    length(a) >= length(b)
}

/// The modules go from the most specific name to the least. The length of the name is used instead of its
/// actual depth to avoid module name parsing.
pub open spec fn is_specific_first(modules: Seq<ModuleLevel>) -> bool {
    forall|i: int, j: int| 0 <= i < j < modules.len() ==> comes_before(#[trigger] modules[i], #[trigger] modules[j])
}

/// Where a module goes among some that are in order: behind those that are at least as specific.
pub open spec fn place_of(modules: Seq<ModuleLevel>, m: ModuleLevel, k: int) -> int
    decreases k,
{
    if k > 0 && !comes_before(modules[k - 1], m) {
        place_of(modules, m, k - 1)
    } else {
        k
    }
}

/// The first `n` of some modules in order.
pub open spec fn ordered(given: Seq<ModuleLevel>, n: int) -> Seq<ModuleLevel>
    decreases n,
{
    if n <= 0 {
        Seq::empty()
    } else {
        let before = ordered(given, n - 1);
        before.insert(place_of(before, given[n - 1], before.len() as int), given[n - 1])
    }
}

/// The level that rules a target: that of the first module that the target's name begins with.
pub open spec fn ruling(modules: Seq<ModuleLevel>, target: Seq<char>, default: Level, k: int) -> Level
    decreases modules.len() - k,
{
    if k >= modules.len() {
        default
    } else if modules[k].name@.is_prefix_of(target) {
        modules[k].level
    } else {
        ruling(modules, target, default, k + 1)
    }
}

/// The most detailed of some levels.
pub open spec fn most(modules: Seq<ModuleLevel>, default: Level, n: int) -> Level
    decreases n,
{
    if n <= 0 {
        default
    } else {
        let before = most(modules, default, n - 1);
        if modules[n - 1].level.detail() > before.detail() {
            modules[n - 1].level
        } else {
            before
        }
    }
}

fn starts_with(text: &Vec<char>, name: &str) -> (r: bool)
    ensures
        r == name@.is_prefix_of(text@),
{
    let letters: Vec<char> = chars_of(name);
    if letters.len() > text.len() {
        return false;
    }
    let mut i: usize = 0;
    while i < letters.len()
        invariant
            i <= letters.len() <= text.len(),
            letters@ == name@,
            forall|k: int| 0 <= k < i ==> letters@[k] == text@[k],
        decreases letters.len() - i,
    {
        if letters[i] != text[i] {
            assert(text@.subrange(0, name@.len() as int)[i as int] == text@[i as int]);
            return false;
        }
        i = i + 1;
    }
    assert(name@ =~= text@.subrange(0, name@.len() as int));
    true
}

proof fn lemma_place(modules: Seq<ModuleLevel>, m: ModuleLevel, k: int)
    requires
        0 <= k <= modules.len(),
        is_specific_first(modules),
        forall|i: int| k <= i < modules.len() ==> !comes_before(#[trigger] modules[i], m),
    ensures
        ({
            let at = place_of(modules, m, k);
            &&& 0 <= at <= k
            &&& forall|i: int| 0 <= i < at ==> comes_before(#[trigger] modules[i], m)
            &&& forall|i: int| at <= i < modules.len() ==> !comes_before(#[trigger] modules[i], m)
        }),
    decreases k,
{
    if k > 0 && !comes_before(modules[k - 1], m) {
        lemma_place(modules, m, k - 1);
    } else if k > 0 {
        assert forall|i: int| 0 <= i < k implies comes_before(#[trigger] modules[i], m) by {
            if i < k - 1 {
                assert(comes_before(modules[i], modules[k - 1]));
            }
        }
    }
}

proof fn lemma_ordered(given: Seq<ModuleLevel>, n: int)
    requires
        0 <= n <= given.len(),
    ensures
        ordered(given, n).len() == n,
        is_specific_first(ordered(given, n)),
    decreases n,
{
    if n > 0 {
        lemma_ordered(given, n - 1);
        let before = ordered(given, n - 1);
        let m = given[n - 1];
        let at = place_of(before, m, before.len() as int);
        lemma_place(before, m, before.len() as int);
        let after = before.insert(at, m);
        assert forall|i: int, j: int| 0 <= i < j < after.len() implies comes_before(
            #[trigger] after[i],
            #[trigger] after[j],
        ) by {
            let oi = if i < at {
                i
            } else {
                i - 1
            };
            let oj = if j < at {
                j
            } else {
                j - 1
            };
            if i != at && j != at {
                assert(after[i] == before[oi] && after[j] == before[oj]);
            } else if i == at {
                assert(after[j] == before[oj]);
                assert(!comes_before(before[oj], m));
            } else {
                assert(after[i] == before[oi]);
                assert(comes_before(before[oi], m));
            }
        }
    }
}

fn copy_module(m: &ModuleLevel) -> (r: ModuleLevel)
    ensures
        r == *m,
{
    ModuleLevel { name: m.name.clone(), level: m.level }
}

impl Levels {
    /// What is let through: by default what `RUST_LOG` names, or what is of interest, and of the given
    /// modules what is said of them.
    pub fn new(rust_log: &Option<String>, modules: &Vec<ModuleLevel>) -> (levels: Self)
        ensures
            levels.default == (match *rust_log {
                Some(text) => match level_of(text@) {
                    Some(level) => level,
                    None => Level::Info,
                },
                None => Level::Info,
            }),
            levels.modules@ == ordered(modules@, modules@.len() as int),
            is_specific_first(levels.modules@),
    {
        let default: Level = match rust_log {
            Some(text) => match parse_level(text.as_str()) {
                Some(level) => level,
                None => Level::Info,
            },
            None => Level::Info,
        };
        let mut sorted: Vec<ModuleLevel> = Vec::new();
        let mut n: usize = 0;
        while n < modules.len()
            invariant
                n <= modules.len(),
                sorted@ == ordered(modules@, n as int),
            decreases modules.len() - n,
        {
            let len: usize = modules[n].name.as_str().as_bytes().len();
            let ghost m = modules@[n as int];
            proof {
                lemma_ordered(modules@, n as int);
            }
            let mut at: usize = sorted.len();
            while at > 0 && sorted[at - 1].name.as_str().as_bytes().len() < len
                invariant
                    at <= sorted.len(),
                    len == length(m),
                    place_of(sorted@, m, sorted@.len() as int) == place_of(sorted@, m, at as int),
                decreases at,
            {
                at = at - 1;
            }
            sorted.insert(at, copy_module(&modules[n]));
            n = n + 1;
        }
        proof {
            lemma_ordered(modules@, modules@.len() as int);
        }
        Levels { default, modules: sorted }
    }

    /// The most detailed level that anything is let through at.
    pub fn max(&self) -> (level: Level)
        ensures
            level == most(self.modules@, self.default, self.modules@.len() as int),
    {
        let mut level: Level = self.default;
        let mut n: usize = 0;
        while n < self.modules.len()
            invariant
                n <= self.modules.len(),
                level == most(self.modules@, self.default, n as int),
            decreases self.modules.len() - n,
        {
            if self.modules[n].level.rank() > level.rank() {
                level = self.modules[n].level;
            }
            n = n + 1;
        }
        level
    }

    /// Whether a message of the given level is let through: the most specific module that its target
    /// belongs to decides.
    pub fn enabled(&self, level: Level, target: &str) -> (r: bool)
        ensures
            r == (level.detail() <= ruling(self.modules@, target@, self.default, 0).detail()),
    {
        let text: Vec<char> = chars_of(target);
        let mut k: usize = 0;
        while k < self.modules.len()
            invariant
                text@ == target@,
                k <= self.modules.len(),
                ruling(self.modules@, target@, self.default, 0) == ruling(
                    self.modules@,
                    target@,
                    self.default,
                    k as int,
                ),
            decreases self.modules.len() - k,
        {
            if starts_with(&text, self.modules[k].name.as_str()) {
                return level.rank() <= self.modules[k].level.rank();
            }
            k = k + 1;
        }
        level.rank() <= self.default.rank()
    }
}

/// Where a message comes from: its target, or the module where it has none.
pub fn origin(target: &str, module: &Option<String>) -> (s: String)
    ensures
        s@ == (if target@.len() > 0 {
            target@
        } else {
            match *module {
                Some(module) => module@,
                None => Seq::empty(),
            }
        }),
{
    if target.unicode_len() > 0 {
        copy(target)
    } else {
        match module {
            Some(module) => module.clone(),
            None => {
                let s: String = String::new();
                assert(s@ =~= Seq::empty());
                s
            },
        }
    }
}

proof fn lemma_most(modules: Seq<ModuleLevel>, default: Level, n: int)
    requires
        0 <= n <= modules.len(),
    ensures
        default.detail() <= most(modules, default, n).detail(),
        forall|k: int| 0 <= k < n ==> (#[trigger] modules[k]).level.detail() <= most(modules, default, n).detail(),
    decreases n,
{
    if n > 0 {
        lemma_most(modules, default, n - 1);
    }
}

proof fn lemma_ruling(modules: Seq<ModuleLevel>, target: Seq<char>, default: Level, k: int)
    requires
        0 <= k <= modules.len(),
    ensures
        ruling(modules, target, default, k).detail() <= most(modules, default, modules.len() as int).detail(),
    decreases modules.len() - k,
{
    lemma_most(modules, default, modules.len() as int);
    if k < modules.len() && !modules[k].name@.is_prefix_of(target) {
        lemma_ruling(modules, target, default, k + 1);
    }
}

/// Nothing is let through that is more detailed than the maximum, whatever its target.
pub proof fn law_the_maximum_bounds_what_is_let_through(levels: Levels, level: Level, target: Seq<char>)
    requires
        level.detail() > most(levels.modules@, levels.default, levels.modules@.len() as int).detail(),
    ensures
        level.detail() > ruling(levels.modules@, target, levels.default, 0).detail(),
{
    lemma_ruling(levels.modules@, target, levels.default, 0);
}

proof fn lemma_specific(modules: Seq<ModuleLevel>, target: Seq<char>, default: Level, j: int, k: int)
    requires
        0 <= k <= j < modules.len(),
        modules[j].name@.is_prefix_of(target),
        is_specific_first(modules),
    ensures
        exists|i: int|
            0 <= i < modules.len() && (#[trigger] modules[i]).name@.is_prefix_of(target) && length(modules[i]) >= length(modules[j]) && ruling(modules, target, default, k) == modules[i].level,
    decreases j - k,
{
    if modules[k].name@.is_prefix_of(target) {
        if k < j {
            assert(comes_before(modules[k], modules[j]));
        }
        assert(modules[k].name@.is_prefix_of(target));
    } else {
        lemma_specific(modules, target, default, j, k + 1);
    }
}

/// A module that the target belongs to is overruled only by one that is at least as specific.
pub proof fn law_the_most_specific_module_decides(levels: Levels, target: Seq<char>, j: int)
    requires
        is_specific_first(levels.modules@),
        0 <= j < levels.modules@.len(),
        levels.modules@[j].name@.is_prefix_of(target),
    ensures
        exists|i: int|
            0 <= i < levels.modules@.len() && (#[trigger] levels.modules@[i]).name@.is_prefix_of(target)
                && length(levels.modules@[i]) >= length(levels.modules@[j]) && ruling(
                levels.modules@,
                target,
                levels.default,
                0,
            ) == levels.modules@[i].level,
{
    lemma_specific(levels.modules@, target, levels.default, j, 0);
}

/// A level is known by its name, in capitals or not.
pub proof fn law_levels_are_known_by_their_names(text: Seq<char>, name: Seq<char>)
    requires
        text.len() == name.len(),
        forall|i: int|
            0 <= i < text.len() ==> (#[trigger] text[i] == name[i] || text[i] as u32 == name[i] as u32 + 32),
    ensures
        name == "OFF"@ ==> level_of(text) == Some(Level::Off),
        name == "ERROR"@ ==> level_of(text) == Some(Level::Error),
        name == "WARN"@ ==> level_of(text) == Some(Level::Warn),
        name == "INFO"@ ==> level_of(text) == Some(Level::Info),
        name == "DEBUG"@ ==> level_of(text) == Some(Level::Debug),
        name == "TRACE"@ ==> level_of(text) == Some(Level::Trace),
{
    reveal_strlit("OFF");
    reveal_strlit("ERROR");
    reveal_strlit("WARN");
    reveal_strlit("INFO");
    reveal_strlit("DEBUG");
    reveal_strlit("TRACE");
    if forall|i: int| 0 <= i < name.len() ==> 'A' <= #[trigger] name[i] <= 'Z' {
        assert forall|i: int| 0 <= i < text.len() implies upper(#[trigger] text[i]) == name[i] by {
            assert('A' <= name[i] <= 'Z');
        }
        assert(spells(text, name));
    }
    assert("OFF"@.len() == 3 && "ERROR"@.len() == 5 && "WARN"@.len() == 4 && "INFO"@.len() == 4 && "DEBUG"@.len() == 5
        && "TRACE"@.len() == 5);
    assert("ERROR"@[0] == 'E' && "WARN"@[0] == 'W' && "INFO"@[0] == 'I' && "DEBUG"@[0] == 'D' && "TRACE"@[0] == 'T');
    if text.len() > 0 {
        assert(upper(text[0]) == upper(text[0]));
        assert(spells(text, "ERROR"@) ==> upper(text[0]) == 'E');
        assert(spells(text, "WARN"@) ==> upper(text[0]) == 'W');
        assert(spells(text, "INFO"@) ==> upper(text[0]) == 'I');
        assert(spells(text, "DEBUG"@) ==> upper(text[0]) == 'D');
        assert(spells(text, "TRACE"@) ==> upper(text[0]) == 'T');
    }
}

} // verus!
