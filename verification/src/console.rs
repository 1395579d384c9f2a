//! Where the program's terminal output goes, which depends on how it was started.
//!
//! A program linked as a graphical application has no console of its own, so starting it by a click does
//! not conjure one. On its own that would also lose the terminal output - the help, the version, the log -
//! for anyone who did start it from a shell, so it adopts the console it was launched from when there is
//! one. When there is not, the standard handles are left invalid, and printing to those fails; so they are
//! pointed at the null device instead, and every printing path carries on without knowing the difference.

use vstd::prelude::*;

verus! {

/// Whether anything can see what the program prints.
#[derive(Debug, Clone, Copy, PartialEq, Eq, Structural)]
pub enum Output {
    /// A console, or a redirect to a file or a pipe: printing reaches somewhere readable.
    Live,
    /// Nothing was attached, so printing goes nowhere. A message meant for a person has to reach
    /// them some other way.
    Discarded,
}

/// What is to become of a standard handle.
#[derive(Debug, Clone, Copy, PartialEq, Eq, Structural)]
pub enum Handle {
    /// The one that was inherited is put back: a redirect that somebody asked for stays.
    Restore,
    /// What attaching the console made of it stands.
    Keep,
    /// There is no destination to be had: the null device.
    Discard,
}

/// Settles where output goes, before anything is printed, where a process inherits whatever its parent
/// gave it.
pub fn prepare() -> (output: Output)
    ensures
        output == Output::Live,
{
    Output::Live
}

/// What is to become of a standard handle, given whether the inherited one is usable, and whether a console
/// could be attached. Attaching repoints the standard handles at the console it attached to, redirected
/// ones included, so everything that was already good is put back.
pub fn settle(usable: bool, attached: bool) -> (handle: Handle)
    ensures
        handle == (if usable {
            Handle::Restore
        } else if attached {
            Handle::Keep
        } else {
            Handle::Discard
        }),
{
    if usable {
        Handle::Restore
    } else if attached {
        Handle::Keep
    } else {
        Handle::Discard
    }
}

/// Whether a message meant for a person will actually reach one, which is the business of the error
/// handle.
pub fn reaches(error_usable: bool, attached: bool) -> (output: Output)
    ensures
        output == (if attached || error_usable {
            Output::Live
        } else {
            Output::Discarded
        }),
{
    if attached || error_usable {
        Output::Live
    } else {
        Output::Discarded
    }
}

} // verus!
