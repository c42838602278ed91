//! The audio module of the bar: what `wpctl` says of the default output,
//! and how the module shows its volume.
use vstd::prelude::*;

use crate::text::{
    chars_of, decimal, has_prefix, lines, lines_of, occurs_at, push_char, push_decimal, push_str, slice_of,
    starts_with, string_of, trim, trimmed, words, words_of,
};

verus! {

broadcast use vstd::string::group_string_axioms;

/// The longest output device name shown, in characters.
pub const DEVICE_NAME_LIMIT: usize = 16;

/// The number of cells of the volume bar.
pub const VOLUME_BAR_WIDTH: usize = 10;

/// `s` without the leading copies of `p` (`str::trim_start_matches`).
pub open spec fn trim_start_matches(s: Seq<char>, p: Seq<char>) -> Seq<char>
    decreases s.len(),
{
    if p.len() > 0 && has_prefix(s, p) {
        trim_start_matches(s.skip(p.len() as int), p)
    } else {
        s
    }
}

/// `s` without `c` at either end (`str::trim_matches` with a character).
pub open spec fn trim_char(s: Seq<char>, c: char) -> Seq<char>
    decreases s.len(),
{
    if s.len() > 0 && s[0] == c {
        trim_char(s.drop_first(), c)
    } else if s.len() > 0 && s.last() == c {
        trim_char(s.drop_last(), c)
    } else {
        s
    }
}

/// The output device a line of `wpctl inspect` names, if it does.
pub open spec fn device_in(line: Seq<char>) -> Option<Seq<char>> {
    let t = trim_start_matches(trim(line), "* "@);
    if has_prefix(t, "node.description = "@) {
        Some(trim_char(t.skip(19), '"'))
    } else {
        None
    }
}

/// The first line's device.
pub open spec fn spec_device(ls: Seq<Seq<char>>) -> Option<Seq<char>>
    decreases ls.len(),
{
    if ls.len() == 0 {
        None
    } else {
        match device_in(ls[0]) {
            Some(d) => Some(d),
            None => spec_device(ls.drop_first()),
        }
    }
}

fn trimmed_start_matches(s: &Vec<char>, p: &Vec<char>) -> (r: Vec<char>)
    ensures
        r@ == trim_start_matches(s@, p@),
{
    if p.len() == 0 {
        return slice_of(s, 0, s.len());
    }
    let mut i: usize = 0;
    assert(s@.skip(0) == s@);
    assert(s@.subrange(0, s@.len() as int) == s@);
    while p.len() <= s.len() - i && crate::text::starts_with_at(s, i, p)
        invariant
            i <= s@.len(),
            p@.len() > 0,
            trim_start_matches(s@, p@) == trim_start_matches(s@.skip(i as int), p@),
        decreases s.len() - i,
    {
        assert(s@.skip(i as int).skip(p@.len() as int) == s@.skip(i + p@.len()));
        i += p.len();
    }
    let r = slice_of(s, i, s.len());
    assert(s@.subrange(i as int, s@.len() as int) == s@.skip(i as int));
    r
}

fn trimmed_char(s: &Vec<char>, c: char) -> (r: Vec<char>)
    ensures
        r@ == trim_char(s@, c),
{
    let mut a: usize = 0;
    let mut b: usize = s.len();
    assert(s@.subrange(0, s@.len() as int) == s@);
    while a < b && s[a] == c
        invariant
            a <= b <= s@.len(),
            b == s@.len(),
            trim_char(s@, c) == trim_char(s@.subrange(a as int, b as int), c),
        decreases b - a,
    {
        assert(s@.subrange(a as int, b as int).drop_first() == s@.subrange(a + 1, b as int));
        a += 1;
    }
    while a < b && s[b - 1] == c
        invariant
            a <= b <= s@.len(),
            a == b || s@[a as int] != c,
            trim_char(s@, c) == trim_char(s@.subrange(a as int, b as int), c),
        decreases b - a,
    {
        assert(s@.subrange(a as int, b as int).drop_last() == s@.subrange(a as int, b - 1));
        b -= 1;
    }
    slice_of(s, a, b)
}

fn device_in_line(line: &Vec<char>) -> (r: Option<String>)
    ensures
        match r {
            Some(d) => device_in(line@) == Some(d@),
            None => device_in(line@) is None,
        },
{
    proof {
        reveal_strlit("node.description = ");
    }
    let t = trimmed_start_matches(&trimmed(line), &chars_of("* "));
    if !starts_with(&t, &chars_of("node.description = ")) {
        return None;
    }
    let value = slice_of(&t, 19, t.len());
    assert(t@.subrange(19, t@.len() as int) == t@.skip(19));
    Some(string_of(&trimmed_char(&value, '"')))
}

/// The default output's name from `wpctl inspect`: the value of its first
/// `node.description = "..."` line.
pub fn parse_device(text: &str) -> (r: Option<String>)
    ensures
        match r {
            Some(d) => spec_device(lines(text@)) == Some(d@),
            None => spec_device(lines(text@)) is None,
        },
{
    let ls = lines_of(&chars_of(text));
    let ghost sls = lines(text@);
    let mut i: usize = 0;
    assert(sls.skip(0) == sls);
    while i < ls.len()
        invariant
            i <= ls@.len(),
            ls@.len() == sls.len(),
            forall|j: int| 0 <= j < ls@.len() ==> #[trigger] ls@[j]@ == sls[j],
            sls == lines(text@),
            spec_device(sls) == spec_device(sls.skip(i as int)),
        decreases ls.len() - i,
    {
        assert(sls.skip(i as int)[0] == ls@[i as int]@);
        assert(sls.skip(i as int).drop_first() == sls.skip(i + 1));
        let found = device_in_line(&ls[i]);
        if found.is_some() {
            assert(spec_device(sls.skip(i as int)) == device_in(sls.skip(i as int)[0]));
            return found;
        }
        i += 1;
    }
    None
}

/// At most `limit` characters of `text`: a longer text keeps `limit - 1` and
/// ends with an ellipsis.
pub open spec fn spec_truncate(text: Seq<char>, limit: nat) -> Seq<char> {
    if text.len() <= limit {
        text
    } else {
        text.take(limit - 1) + seq!['\u{2026}']
    }
}

pub fn truncate(text: &str, limit: usize) -> (r: String)
    requires
        limit >= 1,
    ensures
        r@ == spec_truncate(text@, limit as nat),
{
    let chars = chars_of(text);
    if chars.len() <= limit {
        return String::from_str(text);
    }
    let mut r = string_of(&slice_of(&chars, 0, limit - 1));
    push_char(&mut r, '\u{2026}');
    assert(chars@.subrange(0, limit - 1) == chars@.take(limit - 1));
    r
}

/// The volume bar: one filled cell per ten percent, rounded to the nearest.
pub open spec fn spec_volume_bar(percent: u8) -> Seq<char> {
    let filled = if (percent + 5) / 10 < VOLUME_BAR_WIDTH {
        (percent + 5) / 10
    } else {
        VOLUME_BAR_WIDTH as int
    };
    seq!['['] + Seq::new(filled as nat, |i: int| '#') + Seq::new(
        (VOLUME_BAR_WIDTH - filled) as nat,
        |i: int| '-',
    ) + seq![']']
}

pub fn volume_bar(percent: u8) -> (r: String)
    ensures
        r@ == spec_volume_bar(percent),
{
    let f = (percent as usize + 5) / 10;
    let filled = if f < VOLUME_BAR_WIDTH {
        f
    } else {
        VOLUME_BAR_WIDTH
    };
    let mut r = String::new();
    push_char(&mut r, '[');
    let mut i: usize = 0;
    while i < VOLUME_BAR_WIDTH
        invariant
            i <= VOLUME_BAR_WIDTH,
            filled <= VOLUME_BAR_WIDTH,
            r@ == seq!['['] + Seq::new(
                if i < filled {
                    i as nat
                } else {
                    filled as nat
                },
                |k: int| '#',
            ) + Seq::new(
                if i < filled {
                    0nat
                } else {
                    (i - filled) as nat
                },
                |k: int| '-',
            ),
        decreases VOLUME_BAR_WIDTH - i,
    {
        let ghost before = r@;
        if i < filled {
            push_char(&mut r, '#');
        } else {
            push_char(&mut r, '-');
        }
        i += 1;
        assert(r@ =~= seq!['['] + Seq::new(
            if i < filled {
                i as nat
            } else {
                filled as nat
            },
            |k: int| '#',
        ) + Seq::new(
            if i < filled {
                0nat
            } else {
                (i - filled) as nat
            },
            |k: int| '-',
        ));
    }
    push_char(&mut r, ']');
    assert(r@ =~= spec_volume_bar(percent));
    r
}

/// The volume icon: muted, or one of three levels.
pub open spec fn spec_volume_icon(percent: u8, muted: bool) -> Seq<char> {
    if muted {
        "\u{f0581}"@
    } else if percent <= 33 {
        "\u{f057f}"@
    } else if percent <= 66 {
        "\u{f0580}"@
    } else {
        "\u{f057e}"@
    }
}

pub fn volume_icon(percent: u8, muted: bool) -> (r: &'static str)
    ensures
        r@ == spec_volume_icon(percent, muted),
{
    if muted {
        "\u{f0581}"
    } else if percent <= 33 {
        "\u{f057f}"
    } else if percent <= 66 {
        "\u{f0580}"
    } else {
        "\u{f057e}"
    }
}

/// The tooltip: the output's name when known, then the volume bar and
/// percentage.
pub open spec fn spec_tooltip(percent: u8, muted: bool, device: Option<Seq<char>>) -> Seq<char> {
    let level = if muted {
        decimal(percent as nat) + "% muted"@
    } else {
        decimal(percent as nat) + "%"@
    };
    let volume = "Volume  "@ + spec_volume_bar(percent) + " "@ + level;
    match device {
        Some(d) => "Output  "@ + spec_truncate(d, DEVICE_NAME_LIMIT as nat) + "\n"@ + volume,
        None => volume,
    }
}

pub fn tooltip(percent: u8, muted: bool, device: Option<&str>) -> (r: String)
    ensures
        r@ == spec_tooltip(
            percent,
            muted,
            match device {
                Some(d) => Some(d@),
                None => None,
            },
        ),
{
    let mut r = String::new();
    proof {
        reveal_strlit("");
    }
    match device {
        Some(d) => {
            push_str(&mut r, "Output  ");
            let t = truncate(d, DEVICE_NAME_LIMIT);
            push_str(&mut r, t.as_str());
            push_str(&mut r, "\n");
        },
        None => {},
    }
    push_str(&mut r, "Volume  ");
    let bar = volume_bar(percent);
    push_str(&mut r, bar.as_str());
    push_str(&mut r, " ");
    push_decimal(&mut r, percent as u128);
    if muted {
        push_str(&mut r, "% muted");
    } else {
        push_str(&mut r, "%");
    }
    r
}

/// What `wpctl get-volume` says: the volume as written (its second word),
/// and whether the output is muted.
pub open spec fn spec_volume_reading(text: Seq<char>) -> (Option<Seq<char>>, bool) {
    (
        if words(text).len() > 1 {
            Some(words(text)[1])
        } else {
            None
        },
        exists|i: int| #[trigger] occurs_at(text, "[MUTED]"@, i),
    )
}

pub fn volume_reading(text: &str) -> (r: (Option<String>, bool))
    ensures
        (match r.0 {
            Some(s) => Some(s@),
            None => None,
        }, r.1) == spec_volume_reading(text@),
{
    proof {
        reveal_strlit("[MUTED]");
    }
    let chars = chars_of(text);
    let ws = words_of(&chars);
    let word = if ws.len() > 1 {
        Some(string_of(&ws[1]))
    } else {
        None
    };
    let muted_text = chars_of("[MUTED]");
    let mut muted = false;
    let mut i: usize = 0;
    while 7 <= chars.len() - i && !muted
        invariant
            i <= chars@.len(),
            chars@ == text@,
            muted_text@ == "[MUTED]"@,
            muted ==> exists|k: int| #[trigger] occurs_at(text@, "[MUTED]"@, k),
            !muted ==> forall|k: int| 0 <= k < i ==> !#[trigger] occurs_at(text@, "[MUTED]"@, k),
        decreases chars.len() - i + if muted {
            0int
        } else {
            1int
        },
    {
        if crate::text::starts_with_at(&chars, i, &muted_text) {
            assert(occurs_at(text@, "[MUTED]"@, i as int));
            muted = true;
        } else {
            i += 1;
        }
    }
    assert(!muted ==> forall|k: int| 0 <= k ==> !#[trigger] occurs_at(text@, "[MUTED]"@, k)) by {
        if !muted {
            assert forall|k: int| 0 <= k implies !#[trigger] occurs_at(text@, "[MUTED]"@, k) by {
                if k >= i && k <= text@.len() {
                    assert(i + 7 > text@.len());
                    assert(text@.skip(k).len() < 7);
                }
            }
        }
    }
    (word, muted)
}

} // verus!
