//! What the program does, by its first command-line argument.

use vstd::prelude::*;
use crate::browser::Browser;
use crate::ipc::push_str;

verus! {

/// What one start of the program does.
pub enum Command {
    /// `--register`: register as a browser, then open the settings.
    Register,
    /// `--unregister`: remove the registration, then open the settings.
    Unregister,
    /// `--list`: print the detected browsers.
    List,
    /// `--resident`: stay in the tray, ready for links.
    Resident,
    /// A URL starting with `http`: open it.
    Open(String),
    /// Anything else: show the settings.
    Settings,
}

/// What a [`Command`] is, as a value.
pub enum CommandView {
    Register,
    Unregister,
    List,
    Resident,
    Open(Seq<char>),
    Settings,
}

impl View for Command {
    type V = CommandView;

    open spec fn view(&self) -> CommandView {
        match self {
            Command::Register => CommandView::Register,
            Command::Unregister => CommandView::Unregister,
            Command::List => CommandView::List,
            Command::Resident => CommandView::Resident,
            Command::Open(u) => CommandView::Open(u@),
            Command::Settings => CommandView::Settings,
        }
    }
}

/// The command for the arguments (the program's path first).
pub open spec fn command_spec(args: Seq<Seq<char>>) -> CommandView {
    if args.len() < 2 {
        CommandView::Settings
    } else {
        let a = args[1];
        if a == "--register"@ {
            CommandView::Register
        } else if a == "--unregister"@ {
            CommandView::Unregister
        } else if a == "--list"@ {
            CommandView::List
        } else if a == "--resident"@ {
            CommandView::Resident
        } else if crate::text::starts_with(a, "http"@) {
            CommandView::Open(a)
        } else {
            CommandView::Settings
        }
    }
}

/// Is the text `lit`?
fn is_lit(a: &String, lit: &str) -> (r: bool)
    ensures
        r == (a@ == lit@),
{
    let mut b = String::new();
    push_str(&mut b, lit);
    assert(b@ =~= lit@);
    *a == b
}

/// The command for the program's arguments.
pub fn parse_command(args: &Vec<String>) -> (r: Command)
    ensures
        r@ == command_spec(crate::config::string_views(args@)),
{
    if args.len() < 2 {
        return Command::Settings;
    }
    let a = &args[1];
    if is_lit(a, "--register") {
        Command::Register
    } else if is_lit(a, "--unregister") {
        Command::Unregister
    } else if is_lit(a, "--list") {
        Command::List
    } else if is_lit(a, "--resident") {
        Command::Resident
    } else {
        let v = crate::text::chars_of(a.as_str());
        let h = crate::text::chars_of("http");
        if crate::text::starts_with_chars(&v, &h) {
            Command::Open(a.clone())
        } else {
            Command::Settings
        }
    }
}

/// The line `--list` prints for a browser: `<name> : <exe path>`.
pub fn list_line(b: &Browser) -> (r: String)
    ensures
        r@ == b.name@ + " : "@ + b.exe_path@,
{
    let mut r = String::new();
    push_str(&mut r, b.name.as_str());
    push_str(&mut r, " : ");
    push_str(&mut r, b.exe_path.as_str());
    assert(r@ =~= b.name@ + " : "@ + b.exe_path@);
    r
}

/// A link, an argument starting with `http` (`http://` and `https://` alike),
/// is opened; without an argument the settings are shown; an argument that
/// is neither a link nor one of the four options shows the settings too.
pub proof fn law_links_open(args: Seq<Seq<char>>)
    ensures
        args.len() >= 2 && crate::text::starts_with(args[1], "http"@) ==> command_spec(args) == CommandView::Open(args[1]),
        args.len() < 2 ==> command_spec(args) == CommandView::Settings,
        args.len() >= 2 && !crate::text::starts_with(args[1], "http"@) && args[1] != "--register"@ && args[1]
            != "--unregister"@ && args[1] != "--list"@ && args[1] != "--resident"@ ==> command_spec(args)
            == CommandView::Settings,
{
    if args.len() >= 2 && crate::text::starts_with(args[1], "http"@) {
        let a = args[1];
        reveal_strlit("http");
        reveal_strlit("--register");
        reveal_strlit("--unregister");
        reveal_strlit("--list");
        reveal_strlit("--resident");
        assert(a.subrange(0, 4)[0] == a[0]);
        assert(a[0] == 'h');
        assert(a != "--register"@) by {
            assert("--register"@[0] == '-');
        }
        assert(a != "--unregister"@) by {
            assert("--unregister"@[0] == '-');
        }
        assert(a != "--list"@) by {
            assert("--list"@[0] == '-');
        }
        assert(a != "--resident"@) by {
            assert("--resident"@[0] == '-');
        }
    }
}

/// Each of the four options selects its command.
pub proof fn law_options(args: Seq<Seq<char>>)
    requires
        args.len() >= 2,
    ensures
        args[1] == "--register"@ ==> command_spec(args) == CommandView::Register,
        args[1] == "--unregister"@ ==> command_spec(args) == CommandView::Unregister,
        args[1] == "--list"@ ==> command_spec(args) == CommandView::List,
        args[1] == "--resident"@ ==> command_spec(args) == CommandView::Resident,
{
    reveal_strlit("--register");
    reveal_strlit("--unregister");
    reveal_strlit("--list");
    reveal_strlit("--resident");
    assert("--unregister"@ != "--register"@) by {
        assert("--unregister"@.len() != "--register"@.len());
    }
    assert("--list"@ != "--register"@ && "--list"@ != "--unregister"@) by {
        assert("--list"@.len() != "--register"@.len() && "--list"@.len() != "--unregister"@.len());
    }
    assert("--resident"@ != "--register"@) by {
        assert("--resident"@[4] != "--register"@[4]);
    }
    assert("--resident"@ != "--unregister"@ && "--resident"@ != "--list"@) by {
        assert("--resident"@.len() != "--unregister"@.len() && "--resident"@.len() != "--list"@.len());
    }
}

} // verus!
