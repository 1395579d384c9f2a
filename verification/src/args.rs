//! The command line of the graphical player: the two flags, and at most one positional -- a config path.

use crate::config::{config_help, help_text};
use crate::text::{copy, same};
use vstd::prelude::*;
use vstd::string::*;

verus! {

/// What the command line asks for.
#[derive(Debug)]
pub enum Request {
    /// Print the help and exit.
    Help,
    /// Print version information and exit.
    Version,
    /// Run, with the config file at the path if one is given.
    Run(Option<String>),
    /// There is no such option.
    UnknownOption(String),
    /// There is more than one positional argument.
    TooMany,
}

/// What the command line asks for, by what it says.
#[verifier::ext_equal]
pub enum RequestView {
    Help,
    Version,
    Run(Option<Seq<char>>),
    UnknownOption(Seq<char>),
    TooMany,
}

impl View for Request {
    type V = RequestView;

    open spec fn view(&self) -> RequestView {
        match *self {
            Request::Help => RequestView::Help,
            Request::Version => RequestView::Version,
            Request::Run(conf) => RequestView::Run(crate::text::opt_text(conf)),
            Request::UnknownOption(arg) => RequestView::UnknownOption(arg@),
            Request::TooMany => RequestView::TooMany,
        }
    }
}

/// What the arguments from the `k`-th on ask for, after a config path has been given or not. The first that
/// settles it does.
pub open spec fn asked(args: Seq<String>, conf: Option<Seq<char>>, k: int) -> RequestView
    decreases args.len() - k,
{
    if k >= args.len() {
        RequestView::Run(conf)
    } else {
        let arg = args[k]@;
        if arg == "-h"@ || arg == "--help"@ {
            RequestView::Help
        } else if arg == "-V"@ || arg == "--version"@ {
            RequestView::Version
        } else if arg.len() > 0 && arg[0] == '-' {
            RequestView::UnknownOption(arg)
        } else if conf is None {
            asked(args, Some(arg), k + 1)
        } else {
            RequestView::TooMany
        }
    }
}

/// What the arguments (the program's name left out) ask for.
pub fn parse(args: &Vec<String>) -> (request: Request)
    ensures
        request@ == asked(args@, None, 0),
{
    let mut conf: Option<String> = None;
    let mut k: usize = 0;
    while k < args.len()
        invariant
            k <= args.len(),
            asked(args@, None, 0) == asked(args@, crate::text::opt_text(conf), k as int),
        decreases args.len() - k,
    {
        let arg: &str = args[k].as_str();
        if same(arg, "-h") || same(arg, "--help") {
            return Request::Help;
        }
        if same(arg, "-V") || same(arg, "--version") {
            return Request::Version;
        }
        if arg.unicode_len() > 0 && arg.get_char(0) == '-' {
            return Request::UnknownOption(copy(arg));
        }
        if conf.is_some() {
            return Request::TooMany;
        }
        conf = Some(copy(arg));
        k = k + 1;
    }
    Request::Run(conf)
}

/// What is wrong with a command line, where something is.
pub open spec fn complaint(request: RequestView) -> Option<Seq<char>> {
    match request {
        RequestView::UnknownOption(arg) => Some("unknown option `"@ + arg + "`"@),
        RequestView::TooMany => Some("expected at most one argument: a path to a config file"@),
        _ => None,
    }
}

impl Request {
    /// What is wrong with the command line, in words.
    pub fn complaint(&self) -> (s: Option<String>)
        ensures
            crate::text::opt_text(s) == complaint(self@),
    {
        match self {
            Request::UnknownOption(arg) => {
                let mut s: String = copy("unknown option `");
                s.append(arg.as_str());
                s.append("`");
                Some(s)
            },
            Request::TooMany => Some(copy("expected at most one argument: a path to a config file")),
            _ => None,
        }
    }
}

/// What the program is, and how to run it.
pub open spec fn usage() -> Seq<char> {
    "Phonoscule: an album-art-focused music player with an iPod-style Cover Flow.\n\nUsage: phonoscule-gui [CONFIG]\n\nArguments:\n  CONFIG         (optional) Path to a config file.\n\nOptions:\n  -h, --help     Print this help and exit.\n  -V, --version  Print version information and exit.\n\n"@
}

/// The player's own config settings, listed after the shared ones.
pub open spec fn own_settings() -> Seq<char> {
    "\n  [app.gui]\n    scaling    UI scale factor for high-DPI displays: 1.0 is unscaled, larger is\n               bigger. Optional, default 1.0, clamped to 0.5 to 3.0.\n"@
}

/// The text of `--help`: what the program is and how to run it, then the config file and its settings.
pub fn help() -> (s: String)
    ensures
        s@ == usage() + help_text("gui"@) + own_settings(),
{
    let mut s: String = copy(
        "Phonoscule: an album-art-focused music player with an iPod-style Cover Flow.\n\nUsage: phonoscule-gui [CONFIG]\n\nArguments:\n  CONFIG         (optional) Path to a config file.\n\nOptions:\n  -h, --help     Print this help and exit.\n  -V, --version  Print version information and exit.\n\n",
    );
    s.append(config_help("gui").as_str());
    s.append(
        "\n  [app.gui]\n    scaling    UI scale factor for high-DPI displays: 1.0 is unscaled, larger is\n               bigger. Optional, default 1.0, clamped to 0.5 to 3.0.\n",
    );
    s
}

/// Asking for help is answered, whatever comes after it.
pub proof fn law_help_is_answered(args: Seq<String>)
    requires
        args.len() > 0,
        args[0]@ == "-h"@ || args[0]@ == "--help"@,
    ensures
        asked(args, None, 0) == RequestView::Help,
{
}

/// Without an option, the arguments are none or a path to a config file, and more are too many.
pub proof fn law_the_argument_is_a_config_file(args: Seq<String>)
    requires
        forall|k: int| 0 <= k < args.len() ==> !((#[trigger] args[k])@.len() > 0 && args[k]@[0] == '-'),
    ensures
        args.len() == 0 ==> asked(args, None, 0) == RequestView::Run(None),
        args.len() == 1 ==> asked(args, None, 0) == RequestView::Run(Some(args[0]@)),
        args.len() > 1 ==> asked(args, None, 0) == RequestView::TooMany,
{
    reveal_with_fuel(asked, 3);
    reveal_strlit("-h");
    reveal_strlit("--help");
    reveal_strlit("-V");
    reveal_strlit("--version");
    if args.len() > 0 {
        assert(!(args[0]@.len() > 0 && args[0]@[0] == '-'));
    }
    if args.len() > 1 {
        assert(!(args[1]@.len() > 0 && args[1]@[0] == '-'));
    }
}

/// An option in front, or behind a path, is answered: the two that there are in either form, and any other as
/// unknown.
pub proof fn law_options_are_answered(args: Seq<String>, k: int)
    requires
        0 <= k <= 1,
        k < args.len(),
        k == 1 ==> !(args[0]@.len() > 0 && args[0]@[0] == '-'),
        args[k]@.len() > 0,
        args[k]@[0] == '-',
    ensures
        ({
            let option = args[k]@;
            let help = option == "-h"@ || option == "--help"@;
            let version = option == "-V"@ || option == "--version"@;
            &&& asked(args, None, 0) is Help <==> help
            &&& asked(args, None, 0) is Version <==> version
            &&& !help && !version ==> asked(args, None, 0) == RequestView::UnknownOption(option)
        }),
{
    reveal_with_fuel(asked, 3);
    reveal_strlit("-h");
    reveal_strlit("--help");
    reveal_strlit("-V");
    reveal_strlit("--version");
    assert("-h"@[1] == 'h' && "--help"@[1] == '-' && "-V"@[1] == 'V' && "--version"@[1] == '-');
    assert("--help"@.len() == 6 && "--version"@.len() == 9 && "-h"@.len() == 2 && "-V"@.len() == 2);
}

} // verus!
