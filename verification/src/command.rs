//! The command line: which request the arguments make, and the lines a
//! selector reads from its input.
use vstd::prelude::*;

use crate::text::{chars_of, lines, lines_of, push_str, str_eq, string_of, text_from_utf8};

verus! {

broadcast use vstd::string::group_string_axioms;

pub const HELP: &'static str = "Varde desktop shell

Usage: varde <COMMAND>

Commands:
  start          Start the desktop shell
  launcher       Toggle the application launcher
  clipboard      Toggle the clipboard launcher
  notifications  Manage notifications
  dmenu          Select a line read from standard input
  help           Print help for a command

Options:
  -h, --help     Print help
  -V, --version  Print version";

pub const START_HELP: &'static str = "Start the Varde desktop shell

Usage: varde start";

pub const LAUNCHER_HELP: &'static str = "Toggle the application launcher

Usage: varde launcher";

pub const CLIPBOARD_HELP: &'static str = "Toggle the clipboard launcher

Usage: varde clipboard";

pub const NOTIFICATIONS_HELP: &'static str = "Manage notifications

Usage: varde notifications [clear]";

pub const DMENU_HELP: &'static str = "Select a line read from standard input

Usage: varde dmenu [OPTIONS]

Options:
  -p, --prompt <PROMPT>  Set the prompt [default: Search]
  -h, --help             Print help";

/// What the command line asks for.
pub enum Request {
    Help(&'static str),
    Version,
    Start,
    Launcher,
    Clipboard,
    Notifications,
    ClearNotifications,
    Dmenu { prompt: String },
}

/// A request as plain values.
pub enum RequestView {
    Help(Seq<char>),
    Version,
    Start,
    Launcher,
    Clipboard,
    Notifications,
    ClearNotifications,
    Dmenu(Seq<char>),
}

pub open spec fn request_view(r: Request) -> RequestView {
    match r {
        Request::Help(text) => RequestView::Help(text@),
        Request::Version => RequestView::Version,
        Request::Start => RequestView::Start,
        Request::Launcher => RequestView::Launcher,
        Request::Clipboard => RequestView::Clipboard,
        Request::Notifications => RequestView::Notifications,
        Request::ClearNotifications => RequestView::ClearNotifications,
        Request::Dmenu { prompt } => RequestView::Dmenu(prompt@),
    }
}

/// The help of one command.
pub open spec fn spec_help(command: Seq<char>) -> Result<RequestView, Seq<char>> {
    if command == "start"@ {
        Ok(RequestView::Help(START_HELP@))
    } else if command == "launcher"@ {
        Ok(RequestView::Help(LAUNCHER_HELP@))
    } else if command == "clipboard"@ {
        Ok(RequestView::Help(CLIPBOARD_HELP@))
    } else if command == "notifications"@ {
        Ok(RequestView::Help(NOTIFICATIONS_HELP@))
    } else if command == "dmenu"@ {
        Ok(RequestView::Help(DMENU_HELP@))
    } else {
        Err("unknown command '"@ + command + "'"@)
    }
}

/// The options of `dmenu`, read from the start with `prompt` set so far: help
/// wins where it comes, the last prompt counts, and anything else is refused.
pub open spec fn spec_dmenu(options: Seq<Seq<char>>, prompt: Seq<char>) -> Result<
    RequestView,
    Seq<char>,
>
    decreases options.len(),
{
    if options.len() == 0 {
        Ok(RequestView::Dmenu(prompt))
    } else if options[0] == "-h"@ || options[0] == "--help"@ {
        Ok(RequestView::Help(DMENU_HELP@))
    } else if options[0] == "-p"@ || options[0] == "--prompt"@ {
        if options.len() < 2 {
            Err(options[0] + " requires a value"@)
        } else {
            spec_dmenu(options.skip(2), options[1])
        }
    } else {
        Err("unknown option '"@ + options[0] + "'"@)
    }
}

pub open spec fn is_help_flag(a: Seq<char>) -> bool {
    a == "-h"@ || a == "--help"@
}

pub open spec fn plain_command(a: Seq<char>) -> bool {
    a == "start"@ || a == "launcher"@ || a == "clipboard"@ || a == "notifications"@
}

/// The request the arguments after the program's name make.
pub open spec fn spec_parse(a: Seq<Seq<char>>) -> Result<RequestView, Seq<char>> {
    if a.len() == 0 {
        Ok(RequestView::Help(HELP@))
    } else if a.len() == 1 && (a[0] == "help"@ || is_help_flag(a[0])) {
        Ok(RequestView::Help(HELP@))
    } else if a.len() == 1 && (a[0] == "-V"@ || a[0] == "--version"@) {
        Ok(RequestView::Version)
    } else if a.len() == 1 && a[0] == "start"@ {
        Ok(RequestView::Start)
    } else if a.len() == 1 && a[0] == "launcher"@ {
        Ok(RequestView::Launcher)
    } else if a.len() == 1 && a[0] == "clipboard"@ {
        Ok(RequestView::Clipboard)
    } else if a.len() == 1 && a[0] == "notifications"@ {
        Ok(RequestView::Notifications)
    } else if a.len() == 2 && a[0] == "notifications"@ && a[1] == "clear"@ {
        Ok(RequestView::ClearNotifications)
    } else if a.len() == 2 && a[0] == "help"@ {
        spec_help(a[1])
    } else if a.len() == 2 && is_help_flag(a[1]) {
        spec_help(a[0])
    } else if a[0] == "dmenu"@ {
        spec_dmenu(a.skip(1), "Search"@)
    } else if a.len() >= 2 && plain_command(a[0]) {
        Err("unexpected argument '"@ + a[1] + "'"@)
    } else if a[0].len() > 0 && a[0][0] == '-' {
        Err("unknown option '"@ + a[0] + "'"@)
    } else {
        Err("unknown command '"@ + a[0] + "'"@)
    }
}

/// Whether every argument after the program's name is text.
pub open spec fn all_text(arguments: Seq<Option<String>>) -> bool {
    forall|i: int| 1 <= i < arguments.len() ==> (#[trigger] arguments[i]) is Some
}

/// The text of the arguments after the program's name.
pub open spec fn argument_texts(arguments: Seq<Option<String>>) -> Seq<Seq<char>> {
    if arguments.len() == 0 {
        seq![]
    } else {
        arguments.skip(1).map_values(|a: Option<String>| a.unwrap()@)
    }
}

fn quoted(before: &str, value: &String) -> (r: String)
    ensures
        r@ == before@ + value@ + "'"@,
{
    let mut r = String::from_str(before);
    push_str(&mut r, value.as_str());
    push_str(&mut r, "'");
    r
}

fn help(command: &String) -> (r: Result<Request, String>)
    ensures
        match r {
            Ok(q) => spec_help(command@) == Ok::<RequestView, Seq<char>>(request_view(q)),
            Err(e) => spec_help(command@) == Err::<RequestView, Seq<char>>(e@),
        },
{
    let c = command.as_str();
    if str_eq(c, "start") {
        Ok(Request::Help(START_HELP))
    } else if str_eq(c, "launcher") {
        Ok(Request::Help(LAUNCHER_HELP))
    } else if str_eq(c, "clipboard") {
        Ok(Request::Help(CLIPBOARD_HELP))
    } else if str_eq(c, "notifications") {
        Ok(Request::Help(NOTIFICATIONS_HELP))
    } else if str_eq(c, "dmenu") {
        Ok(Request::Help(DMENU_HELP))
    } else {
        Err(quoted("unknown command '", command))
    }
}

fn parse_dmenu(options: &Vec<String>, from: usize) -> (r: Result<Request, String>)
    requires
        from <= options@.len(),
    ensures
        match r {
            Ok(q) => spec_dmenu(options@.skip(from as int).map_values(|s: String| s@), "Search"@)
                == Ok::<RequestView, Seq<char>>(request_view(q)),
            Err(e) => spec_dmenu(options@.skip(from as int).map_values(|s: String| s@), "Search"@)
                == Err::<RequestView, Seq<char>>(e@),
        },
{
    let ghost all = options@.skip(from as int).map_values(|s: String| s@);
    let mut prompt = String::from_str("Search");
    let mut index = from;
    while index < options.len()
        invariant
            from <= index <= options@.len(),
            all == options@.skip(from as int).map_values(|s: String| s@),
            spec_dmenu(all, "Search"@) == spec_dmenu(
                options@.skip(index as int).map_values(|s: String| s@),
                prompt@,
            ),
        decreases options.len() - index,
    {
        let ghost rest = options@.skip(index as int).map_values(|s: String| s@);
        assert(rest[0] == options@[index as int]@);
        let option = options[index].as_str();
        if str_eq(option, "-h") || str_eq(option, "--help") {
            return Ok(Request::Help(DMENU_HELP));
        }
        if str_eq(option, "-p") || str_eq(option, "--prompt") {
            if index + 1 >= options.len() {
                let mut e = options[index].clone();
                push_str(&mut e, " requires a value");
                return Err(e);
            }
            assert(rest[1] == options@[index + 1]@);
            assert(rest.skip(2) =~= options@.skip(index + 2).map_values(|s: String| s@));
            prompt = options[index + 1].clone();
            index += 2;
        } else {
            return Err(quoted("unknown option '", &options[index]));
        }
    }
    assert(options@.skip(index as int).map_values(|s: String| s@).len() == 0);
    Ok(Request::Dmenu { prompt })
}

fn is_one_of_plain(c: &str) -> (r: bool)
    ensures
        r == plain_command(c@),
{
    str_eq(c, "start") || str_eq(c, "launcher") || str_eq(c, "clipboard") || str_eq(
        c,
        "notifications",
    )
}

/// The request the command line makes. Each argument is its text, or `None`
/// where it is not valid UTF-8; the first one, the program's name, is skipped.
pub fn parse(arguments: &[Option<String>]) -> (r: Result<Request, String>)
    ensures
        !all_text(arguments@) ==> (r matches Err(e) && e@ == "arguments must be UTF-8"@),
        all_text(arguments@) ==> match r {
            Ok(q) => spec_parse(argument_texts(arguments@)) == Ok::<RequestView, Seq<char>>(
                request_view(q),
            ),
            Err(e) => spec_parse(argument_texts(arguments@)) == Err::<RequestView, Seq<char>>(e@),
        },
{
    let mut a: Vec<String> = Vec::new();
    let mut i: usize = 1;
    while i < arguments.len()
        invariant
            1 <= i,
            i <= arguments@.len() || arguments@.len() == 0,
            a@.len() == if i <= arguments@.len() {
                i - 1
            } else {
                0
            },
            forall|j: int| 1 <= j < i && j < arguments@.len() ==> (#[trigger] arguments@[j]) is Some,
            forall|j: int|
                0 <= j < a@.len() ==> (#[trigger] a@[j])@ == arguments@[j + 1].unwrap()@,
        decreases arguments.len() - i,
    {
        match &arguments[i] {
            Some(text) => a.push(text.clone()),
            None => {
                assert(!all_text(arguments@));
                return Err(String::from_str("arguments must be UTF-8"));
            },
        }
        i += 1;
    }
    let ghost texts = argument_texts(arguments@);
    assert(all_text(arguments@));
    assert(texts.len() == a@.len());
    assert(a@.map_values(|s: String| s@) =~= texts);
    assert forall|j: int| 0 <= j < a@.len() implies #[trigger] a@[j]@ == texts[j] by {}
    let n = a.len();
    if n == 0 {
        return Ok(Request::Help(HELP));
    }
    let first = a[0].as_str();
    if n == 1 {
        if str_eq(first, "help") || str_eq(first, "-h") || str_eq(first, "--help") {
            return Ok(Request::Help(HELP));
        } else if str_eq(first, "-V") || str_eq(first, "--version") {
            return Ok(Request::Version);
        } else if str_eq(first, "start") {
            return Ok(Request::Start);
        } else if str_eq(first, "launcher") {
            return Ok(Request::Launcher);
        } else if str_eq(first, "clipboard") {
            return Ok(Request::Clipboard);
        } else if str_eq(first, "notifications") {
            return Ok(Request::Notifications);
        }
    }
    if n == 2 {
        let second = a[1].as_str();
        if str_eq(first, "notifications") && str_eq(second, "clear") {
            return Ok(Request::ClearNotifications);
        } else if str_eq(first, "help") {
            return help(&a[1]);
        } else if str_eq(second, "-h") || str_eq(second, "--help") {
            return help(&a[0]);
        }
    }
    if str_eq(first, "dmenu") {
        assert(a@.skip(1).map_values(|s: String| s@) =~= texts.skip(1));
        return parse_dmenu(&a, 1);
    }
    if n >= 2 && is_one_of_plain(first) {
        return Err(quoted("unexpected argument '", &a[1]));
    }
    let chars = chars_of(first);
    if chars.len() > 0 && chars[0] == '-' {
        Err(quoted("unknown option '", &a[0]))
    } else {
        Err(quoted("unknown command '", &a[0]))
    }
}

/// The lines a selector reads: its input must be UTF-8, and every line is
/// kept, empty and repeated ones too.
pub fn parse_lines(bytes: Vec<u8>) -> (r: Result<Vec<String>, String>)
    ensures
        match r {
            Ok(ls) => vstd::utf8::valid_utf8(bytes@) && ls@.map_values(|s: String| s@) == lines(
                vstd::utf8::decode_utf8(bytes@),
            ),
            Err(e) => !vstd::utf8::valid_utf8(bytes@) && e@ == "selector input must be UTF-8"@,
        },
{
    let ghost b = bytes@;
    let text = match text_from_utf8(bytes) {
        Some(t) => t,
        None => return Err(String::from_str("selector input must be UTF-8")),
    };
    let ls = lines_of(&chars_of(text.as_str()));
    let mut out: Vec<String> = Vec::new();
    let mut i: usize = 0;
    while i < ls.len()
        invariant
            i <= ls@.len(),
            ls@.len() == lines(text@).len(),
            forall|j: int| 0 <= j < ls@.len() ==> #[trigger] ls@[j]@ == lines(text@)[j],
            out@.map_values(|s: String| s@) == lines(text@).take(i as int),
        decreases ls.len() - i,
    {
        let ghost before = out@;
        out.push(string_of(&ls[i]));
        assert(out@.map_values(|s: String| s@) =~= before.map_values(|s: String| s@).push(
            ls@[i as int]@,
        ));
        i += 1;
    }
    assert(lines(text@).take(ls@.len() as int) == lines(text@));
    Ok(out)
}

/// A command's help can be asked for either way: `varde help COMMAND` and
/// `varde COMMAND --help` (or `-h`) give the same answer, for every command
/// but `help` itself.
pub proof fn law_help_either_way(command: Seq<char>, flag: Seq<char>)
    requires
        is_help_flag(flag),
        command != "help"@,
    ensures
        spec_parse(seq!["help"@, command]) == spec_parse(seq![command, flag]),
{
    reveal_strlit("help");
    reveal_strlit("notifications");
    reveal_strlit("clear");
    reveal_strlit("-h");
    reveal_strlit("--help");
    let asked = seq!["help"@, command];
    let flagged = seq![command, flag];
    assert(asked[0] != "notifications"@);
    assert(flagged[1] != "clear"@);
    assert(spec_parse(asked) == spec_help(command));
    assert(spec_parse(flagged) == spec_help(command));
}

} // verus!
