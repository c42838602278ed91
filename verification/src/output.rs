//! Reading the text that command-line tools print: terminal escape sequences
//! and `Name   value` property lines.
use vstd::prelude::*;

use crate::text::{
    chars_of, has_prefix, lines, lines_of, push_char, starts_with, string_of, string_of_range,
    trim, trim_bounds, trimmed,
};

verus! {

broadcast use vstd::string::group_string_axioms;

/// What is left of `s` once ANSI control sequences are removed, from a state
/// that is inside a sequence (`in_csi`) or not. An escape followed by `[`
/// opens a sequence, which runs to the first character from `@` to `~`; an
/// escape followed by anything else is kept and the character after it lost.
pub open spec fn strip_from(s: Seq<char>, in_csi: bool) -> Seq<char>
    decreases s.len(),
{
    if s.len() == 0 {
        seq![]
    } else if in_csi {
        if '@' <= s[0] <= '~' {
            strip_from(s.drop_first(), false)
        } else {
            strip_from(s.drop_first(), true)
        }
    } else if s[0] == '\u{1b}' {
        if s.len() >= 2 {
            if s[1] == '[' {
                strip_from(s.skip(2), true)
            } else {
                seq!['\u{1b}'] + strip_from(s.skip(2), false)
            }
        } else {
            seq!['\u{1b}']
        }
    } else {
        seq![s[0]] + strip_from(s.drop_first(), false)
    }
}

pub open spec fn spec_strip_ansi(s: Seq<char>) -> Seq<char> {
    strip_from(s, false)
}

/// `text` without its ANSI escape sequences.
pub fn strip_ansi(text: &str) -> (r: String)
    ensures
        r@ == spec_strip_ansi(text@),
{
    let s = chars_of(text);
    let mut r = String::new();
    let mut i: usize = 0;
    let mut in_csi = false;
    assert(s@.skip(0) == s@);
    assert(r@ + spec_strip_ansi(text@) == spec_strip_ansi(text@));
    while i < s.len()
        invariant
            i <= s.len(),
            s@ == text@,
            r@ + strip_from(s@.skip(i as int), in_csi) == spec_strip_ansi(text@),
        decreases s.len() - i,
    {
        let c = s[i];
        let ghost rest = s@.skip(i as int);
        assert(rest[0] == c);
        assert(rest.drop_first() == s@.skip(i + 1));
        if in_csi {
            if '@' <= c && c <= '~' {
                in_csi = false;
            }
            i += 1;
        } else if c == '\u{1b}' {
            if i + 1 < s.len() {
                assert(rest[1] == s@[i + 1]);
                assert(rest.skip(2) == s@.skip(i + 2));
                if s[i + 1] == '[' {
                    in_csi = true;
                } else {
                    let ghost before = r@;
                    push_char(&mut r, '\u{1b}');
                    assert(before + strip_from(rest, false) == r@ + strip_from(s@.skip(i + 2), false));
                }
                i += 2;
            } else {
                let ghost before = r@;
                push_char(&mut r, '\u{1b}');
                i += 1;
                assert(s@.skip(i as int).len() == 0);
                assert(before + strip_from(rest, false) == r@ + strip_from(s@.skip(i as int), false));
            }
        } else {
            let ghost before = r@;
            push_char(&mut r, c);
            i += 1;
            assert(before + strip_from(rest, false) == r@ + strip_from(s@.skip(i as int), false));
        }
    }
    assert(r@ + seq![] == r@);
    r
}

/// The first line, once trimmed, that starts with `name`.
pub open spec fn property_line(ls: Seq<Seq<char>>, name: Seq<char>, k: int) -> bool {
    &&& 0 <= k < ls.len()
    &&& has_prefix(trim(ls[k]), name)
    &&& forall|j: int| 0 <= j < k ==> !has_prefix(trim(ls[j]), name)
}

/// The value of property `name` in `text`: the rest of the first line that
/// starts with it, trimmed, when that is not empty.
pub open spec fn spec_property(text: Seq<char>, name: Seq<char>) -> Option<Seq<char>> {
    let ls = lines(text);
    if exists|k: int| property_line(ls, name, k) {
        let k = choose|k: int| property_line(ls, name, k);
        let value = trim(trim(ls[k]).skip(name.len() as int));
        if value.len() > 0 {
            Some(value)
        } else {
            None
        }
    } else {
        None
    }
}

/// Reads `name`'s value out of the line-per-property output these tools print.
pub fn property(text: &str, name: &str) -> (r: Option<String>)
    ensures
        match r {
            Some(v) => spec_property(text@, name@) == Some(v@),
            None => spec_property(text@, name@) is None,
        },
{
    let s = chars_of(text);
    let n = chars_of(name);
    let ls = lines_of(&s);
    let ghost spec_ls = lines(text@);
    let mut k: usize = 0;
    while k < ls.len()
        invariant
            s@ == text@,
            n@ == name@,
            ls@.len() == spec_ls.len(),
            spec_ls == lines(text@),
            forall|i: int| 0 <= i < ls@.len() ==> #[trigger] ls@[i]@ == spec_ls[i],
            k <= ls.len(),
            forall|j: int| 0 <= j < k ==> !has_prefix(trim(spec_ls[j]), name@),
        decreases ls.len() - k,
    {
        let line = trimmed(&ls[k]);
        if starts_with(&line, &n) {
            assert(property_line(spec_ls, name@, k as int));
            proof {
                let q = choose|q: int| property_line(spec_ls, name@, q);
                if q < k {
                } else if q > k {
                }
                assert(q == k);
            }
            let (a, b) = trim_bounds(&line, n.len(), line.len());
            assert(line@.subrange(n@.len() as int, line@.len() as int) == line@.skip(n@.len() as int));
            if a < b {
                return Some(string_of_range(&line, a, b));
            } else {
                return None;
            }
        }
        k += 1;
    }
    None
}

} // verus!
