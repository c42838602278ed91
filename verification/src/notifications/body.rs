//! Cutting a notification's body where its collapsed row ends.
use vstd::prelude::*;

use super::daemon::{char_len, lemma_utf8_len_push, utf8_len};
use crate::text::{chars_of, string_of_range, trim_end, trim_end_at, trim_start, trim_start_from};

verus! {

/// `split` bytes of UTF-8 are the first `k` characters of `text`.
pub open spec fn byte_boundary(text: Seq<char>, split: nat, k: int) -> bool {
    0 <= k <= text.len() && utf8_len(text.take(k)) == split
}

proof fn lemma_utf8_len_grows(s: Seq<char>, a: int, b: int)
    requires
        0 <= a < b <= s.len(),
    ensures
        utf8_len(s.take(a)) < utf8_len(s.take(b)),
    decreases b - a,
{
    lemma_utf8_len_push(s, b - 1);
    if a < b - 1 {
        lemma_utf8_len_grows(s, a, b - 1);
    }
}

/// The body cut after its first `split` bytes, where the row's last line
/// ends: the lines shown, trailing whitespace dropped, and the rest, leading
/// whitespace dropped. `split` must fall between two characters.
pub fn split_body(text: &str, split: usize) -> (r: (String, String))
    requires
        exists|k: int| byte_boundary(text@, split as nat, k),
    ensures
        exists|k: int|
            byte_boundary(text@, split as nat, k) && r.0@ == trim_end(text@.take(k)) && r.1@
                == trim_start(text@.skip(k)),
{
    let chars = chars_of(text);
    let ghost target = choose|k: int| byte_boundary(text@, split as nat, k);
    let mut used: usize = 0;
    let mut k: usize = 0;
    while k < chars.len() && used < split
        invariant
            chars@ == text@,
            byte_boundary(text@, split as nat, target),
            k <= chars.len(),
            used == utf8_len(chars@.take(k as int)),
            k <= target,
        decreases chars.len() - k,
    {
        proof {
            lemma_utf8_len_push(chars@, k as int);
            if (k as int) == target {
                assert(false);
            }
            if k + 1 < target {
                lemma_utf8_len_grows(chars@, k + 1, target);
            }
        }
        used = used + char_len(chars[k]);
        k += 1;
    }
    proof {
        if (k as int) < target {
            lemma_utf8_len_grows(chars@, k as int, target);
        }
        assert(k as int == target);
    }
    let end = trim_end_at(&chars, k);
    let start = trim_start_from(&chars, k);
    let shown = string_of_range(&chars, 0, end);
    let rest = string_of_range(&chars, start, chars.len());
    proof {
        assert(chars@.subrange(0, end as int) == chars@.take(end as int));
        assert(chars@.subrange(start as int, chars@.len() as int) == chars@.skip(start as int));
    }
    (shown, rest)
}

} // verus!
