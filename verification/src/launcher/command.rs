//! The launcher's own command line: which panel to open, or a selector.
use vstd::prelude::*;

use crate::command::{all_text, argument_texts};
use crate::text::{chars_of, lines, lines_of, push_str, str_eq, string_of, text_from_utf8};

verus! {

broadcast use vstd::string::group_string_axioms;

pub const USAGE: &'static str = "usage: varde [launcher [apps | clipboard | --dmenu [-p PROMPT]]]";

/// What the launcher is asked to do.
pub enum Request {
    Activate,
    Launcher,
    Clipboard,
    Dmenu { prompt: String },
}

/// A request as plain values.
pub enum RequestView {
    Activate,
    Launcher,
    Clipboard,
    Dmenu(Seq<char>),
}

pub open spec fn request_view(r: Request) -> RequestView {
    match r {
        Request::Activate => RequestView::Activate,
        Request::Launcher => RequestView::Launcher,
        Request::Clipboard => RequestView::Clipboard,
        Request::Dmenu { prompt } => RequestView::Dmenu(prompt@),
    }
}

/// The selector options, read from the start with `prompt` set so far.
pub open spec fn spec_dmenu(options: Seq<Seq<char>>, prompt: Seq<char>) -> Result<
    RequestView,
    Seq<char>,
>
    decreases options.len(),
{
    if options.len() == 0 {
        Ok(RequestView::Dmenu(prompt))
    } else if options[0] == "-p"@ || options[0] == "--prompt"@ {
        if options.len() < 2 {
            Err(options[0] + " needs a value"@)
        } else {
            spec_dmenu(options.skip(2), options[1])
        }
    } else {
        Err("Unknown option: "@ + options[0])
    }
}

/// The request the arguments after the program's name make.
pub open spec fn spec_parse(a: Seq<Seq<char>>) -> Result<RequestView, Seq<char>> {
    if a.len() == 0 {
        Ok(RequestView::Activate)
    } else if a[0] != "launcher"@ {
        Err("Unknown command"@)
    } else if a.len() == 1 {
        Ok(RequestView::Launcher)
    } else if a.len() == 2 && a[1] == "apps"@ {
        Ok(RequestView::Launcher)
    } else if a.len() == 2 && a[1] == "clipboard"@ {
        Ok(RequestView::Clipboard)
    } else if a[1] == "--dmenu"@ {
        spec_dmenu(a.skip(2), "Search"@)
    } else {
        Err("Unknown command"@)
    }
}

fn parse_dmenu(options: &Vec<String>, from: usize) -> (r: Result<Request, String>)
    requires
        from <= options@.len(),
    ensures
        match r {
            Ok(q) => spec_dmenu(options@.skip(from as int).map_values(|s: String| s@), "Search"@)
                == Ok::<RequestView, Seq<char>>(request_view(q)),
            Err(e) => spec_dmenu(options@.skip(from as int).map_values(|s: String| s@), "Search"@)
                == Err::<RequestView, Seq<char>>(e@),
        },
{
    let ghost all = options@.skip(from as int).map_values(|s: String| s@);
    let mut prompt = String::from_str("Search");
    let mut index = from;
    while index < options.len()
        invariant
            from <= index <= options@.len(),
            all == options@.skip(from as int).map_values(|s: String| s@),
            spec_dmenu(all, "Search"@) == spec_dmenu(
                options@.skip(index as int).map_values(|s: String| s@),
                prompt@,
            ),
        decreases options.len() - index,
    {
        let ghost rest = options@.skip(index as int).map_values(|s: String| s@);
        assert(rest[0] == options@[index as int]@);
        let option = options[index].as_str();
        if str_eq(option, "-p") || str_eq(option, "--prompt") {
            if index + 1 >= options.len() {
                let mut e = options[index].clone();
                push_str(&mut e, " needs a value");
                return Err(e);
            }
            assert(rest[1] == options@[index + 1]@);
            assert(rest.skip(2) =~= options@.skip(index + 2).map_values(|s: String| s@));
            prompt = options[index + 1].clone();
            index += 2;
        } else {
            let mut e = String::from_str("Unknown option: ");
            push_str(&mut e, option);
            return Err(e);
        }
    }
    assert(options@.skip(index as int).map_values(|s: String| s@).len() == 0);
    Ok(Request::Dmenu { prompt })
}

/// The request the launcher's command line makes. Each argument is its
/// text, or `None` where it is not valid UTF-8; the first one, the
/// program's name, is skipped.
pub fn parse(arguments: &[Option<String>]) -> (r: Result<Request, String>)
    ensures
        !all_text(arguments@) ==> (r matches Err(e) && e@ == "Arguments must be UTF-8"@),
        all_text(arguments@) ==> match r {
            Ok(q) => spec_parse(argument_texts(arguments@)) == Ok::<RequestView, Seq<char>>(
                request_view(q),
            ),
            Err(e) => spec_parse(argument_texts(arguments@)) == Err::<RequestView, Seq<char>>(e@),
        },
{
    let mut a: Vec<String> = Vec::new();
    let mut i: usize = 1;
    while i < arguments.len()
        invariant
            1 <= i,
            i <= arguments@.len() || arguments@.len() == 0,
            a@.len() == if i <= arguments@.len() {
                i - 1
            } else {
                0
            },
            forall|j: int| 1 <= j < i && j < arguments@.len() ==> (#[trigger] arguments@[j]) is Some,
            forall|j: int|
                0 <= j < a@.len() ==> (#[trigger] a@[j])@ == arguments@[j + 1].unwrap()@,
        decreases arguments.len() - i,
    {
        match &arguments[i] {
            Some(text) => a.push(text.clone()),
            None => {
                assert(!all_text(arguments@));
                return Err(String::from_str("Arguments must be UTF-8"));
            },
        }
        i += 1;
    }
    let ghost texts = argument_texts(arguments@);
    assert(all_text(arguments@));
    assert(texts.len() == a@.len());
    assert(a@.map_values(|s: String| s@) =~= texts);
    assert forall|j: int| 0 <= j < a@.len() implies #[trigger] a@[j]@ == texts[j] by {}
    let n = a.len();
    if n == 0 {
        return Ok(Request::Activate);
    }
    if !str_eq(a[0].as_str(), "launcher") {
        return Err(String::from_str("Unknown command"));
    }
    if n == 1 {
        return Ok(Request::Launcher);
    }
    let second = a[1].as_str();
    if n == 2 && str_eq(second, "apps") {
        return Ok(Request::Launcher);
    }
    if n == 2 && str_eq(second, "clipboard") {
        return Ok(Request::Clipboard);
    }
    if str_eq(second, "--dmenu") {
        assert(a@.skip(2).map_values(|s: String| s@) =~= texts.skip(2));
        return parse_dmenu(&a, 2);
    }
    Err(String::from_str("Unknown command"))
}

/// The lines a selector reads: its input must be UTF-8, and every line is
/// kept, empty and repeated ones too.
pub fn parse_lines(bytes: Vec<u8>) -> (r: Result<Vec<String>, String>)
    ensures
        match r {
            Ok(ls) => vstd::utf8::valid_utf8(bytes@) && ls@.map_values(|s: String| s@) == lines(
                vstd::utf8::decode_utf8(bytes@),
            ),
            Err(e) => !vstd::utf8::valid_utf8(bytes@) && e@ == "Selector input must be UTF-8"@,
        },
{
    match crate::command::parse_lines(bytes) {
        Ok(ls) => Ok(ls),
        Err(_) => Err(String::from_str("Selector input must be UTF-8")),
    }
}

} // verus!
