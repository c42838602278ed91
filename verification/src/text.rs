//! Character-level text handling shared by the parsers: whitespace, lines,
//! words, trimming, prefixes, decimal numbers and the strings built from them.
use vstd::prelude::*;

verus! {

broadcast use vstd::string::group_string_axioms;

// ---------------------------------------------------------------------------
// Whitespace
// ---------------------------------------------------------------------------
/// The Unicode `White_Space` property, which is what `char::is_whitespace` tests.
pub open spec fn is_ws(c: char) -> bool {
    let u = c as u32;
    ||| 0x09 <= u <= 0x0d
    ||| u == 0x20
    ||| u == 0x85
    ||| u == 0xa0
    ||| u == 0x1680
    ||| 0x2000 <= u <= 0x200a
    ||| u == 0x2028
    ||| u == 0x2029
    ||| u == 0x202f
    ||| u == 0x205f
    ||| u == 0x3000
}

pub fn is_whitespace(c: char) -> (r: bool)
    ensures
        r == is_ws(c),
{
    let u = c as u32;
    (0x09 <= u && u <= 0x0d) || u == 0x20 || u == 0x85 || u == 0xa0 || u == 0x1680 || (0x2000
        <= u && u <= 0x200a) || u == 0x2028 || u == 0x2029 || u == 0x202f || u == 0x205f || u
        == 0x3000
}

// ---------------------------------------------------------------------------
// Strings and character vectors
// ---------------------------------------------------------------------------
/// The characters of a string slice, in order.
pub fn chars_of(s: &str) -> (out: Vec<char>)
    ensures
        out@ == s@,
{
    let mut out: Vec<char> = Vec::new();
    for c in it: s.chars()
        invariant
            out@ == it.seq().take(it.index() as int),
            it.seq() == s@,
    {
        out.push(c);
    }
    out
}

/// Appends one character to a string (`String::push`).
#[verifier::external_body]
pub(crate) fn push_char(s: &mut String, c: char)
    ensures
        final(s)@ == old(s)@.push(c),
{
    s.push(c);
}

/// Compares two string slices (`<str as PartialEq>::eq`).
#[verifier::external_body]
pub(crate) fn str_eq(a: &str, b: &str) -> (r: bool)
    ensures
        r == (a@ == b@),
{
    a == b
}

/// Appends the characters `chars[from..to]` to `s`.
pub fn push_range(s: &mut String, chars: &Vec<char>, from: usize, to: usize)
    requires
        from <= to <= chars.len(),
    ensures
        final(s)@ == old(s)@ + chars@.subrange(from as int, to as int),
{
    let mut i = from;
    while i < to
        invariant
            from <= i <= to <= chars.len(),
            s@ == old(s)@ + chars@.subrange(from as int, i as int),
        decreases to - i,
    {
        push_char(s, chars[i]);
        i += 1;
        assert(chars@.subrange(from as int, i as int) == chars@.subrange(
            from as int,
            i - 1,
        ).push(chars@[i - 1]));
    }
}

/// A string holding `chars[from..to]`.
pub fn string_of_range(chars: &Vec<char>, from: usize, to: usize) -> (s: String)
    requires
        from <= to <= chars.len(),
    ensures
        s@ == chars@.subrange(from as int, to as int),
{
    let mut s = String::new();
    push_range(&mut s, chars, from, to);
    s
}

/// A string holding all of `chars`.
pub fn string_of(chars: &Vec<char>) -> (s: String)
    ensures
        s@ == chars@,
{
    let s = string_of_range(chars, 0, chars.len());
    assert(chars@.subrange(0, chars@.len() as int) == chars@);
    s
}

/// Appends a string slice to `s`.
pub fn push_str(s: &mut String, other: &str)
    ensures
        final(s)@ == old(s)@ + other@,
{
    let chars = chars_of(other);
    push_range(s, &chars, 0, chars.len());
    assert(chars@.subrange(0, chars@.len() as int) == chars@);
}

/// An owned copy of a string slice.
pub fn owned(s: &str) -> (r: String)
    ensures
        r@ == s@,
{
    String::from_str(s)
}

/// An owned copy of a string.
pub fn copy_string(s: &String) -> (r: String)
    ensures
        r@ == s@,
{
    s.clone()
}

/// Whether two character vectors hold the same characters.
pub fn chars_eq(a: &Vec<char>, b: &Vec<char>) -> (r: bool)
    ensures
        r == (a@ == b@),
{
    if a.len() != b.len() {
        return false;
    }
    let mut i: usize = 0;
    while i < a.len()
        invariant
            a.len() == b.len(),
            i <= a.len(),
            forall|j: int| 0 <= j < i ==> a@[j] == b@[j],
        decreases a.len() - i,
    {
        if a[i] != b[i] {
            return false;
        }
        i += 1;
    }
    assert(a@ =~= b@);
    true
}

// ---------------------------------------------------------------------------
// Prefixes
// ---------------------------------------------------------------------------
pub open spec fn has_prefix(s: Seq<char>, p: Seq<char>) -> bool {
    p.len() <= s.len() && s.take(p.len() as int) == p
}

pub open spec fn has_suffix(s: Seq<char>, p: Seq<char>) -> bool {
    p.len() <= s.len() && s.skip(s.len() - p.len()) == p
}

/// Whether `s[at..]` starts with `p`.
pub fn starts_with_at(s: &Vec<char>, at: usize, p: &Vec<char>) -> (r: bool)
    requires
        at <= s.len(),
    ensures
        r == has_prefix(s@.skip(at as int), p@),
{
    if p.len() > s.len() - at {
        return false;
    }
    let mut i: usize = 0;
    while i < p.len()
        invariant
            at + p.len() <= s.len(),
            i <= p.len(),
            forall|j: int| 0 <= j < i ==> s@[at + j] == p@[j],
        decreases p.len() - i,
    {
        if s[at + i] != p[i] {
            assert(s@.skip(at as int).take(p.len() as int)[i as int] != p@[i as int]);
            return false;
        }
        i += 1;
    }
    assert(s@.skip(at as int).take(p.len() as int) =~= p@);
    true
}

/// Whether `s` starts with `p`.
pub fn starts_with(s: &Vec<char>, p: &Vec<char>) -> (r: bool)
    ensures
        r == has_prefix(s@, p@),
{
    let r = starts_with_at(s, 0, p);
    assert(s@.skip(0) == s@);
    r
}

/// Whether `s` ends with `p`.
pub fn ends_with(s: &Vec<char>, p: &Vec<char>) -> (r: bool)
    ensures
        r == has_suffix(s@, p@),
{
    if p.len() > s.len() {
        return false;
    }
    let at = s.len() - p.len();
    let r = starts_with_at(s, at, p);
    assert(s@.skip(at as int).take(p.len() as int) == s@.skip(at as int));
    r
}

/// `p` is where `c` first occurs in `s`.
pub open spec fn first_index_of(s: Seq<char>, c: char, p: int) -> bool {
    &&& 0 <= p < s.len()
    &&& s[p] == c
    &&& forall|j: int| 0 <= j < p ==> s[j] != c
}

/// Where `c` first occurs in `s`, if it does (`str::find` with a character).
pub fn find_char(s: &Vec<char>, c: char) -> (r: Option<usize>)
    ensures
        match r {
            Some(p) => first_index_of(s@, c, p as int),
            None => !s@.contains(c),
        },
{
    let mut i: usize = 0;
    while i < s.len()
        invariant
            i <= s.len(),
            forall|j: int| 0 <= j < i ==> s@[j] != c,
        decreases s.len() - i,
    {
        if s[i] == c {
            return Some(i);
        }
        i += 1;
    }
    None
}

/// The first occurrence of a character is unique.
pub proof fn lemma_first_index_unique(s: Seq<char>, c: char, p: int, q: int)
    requires
        first_index_of(s, c, p),
        first_index_of(s, c, q),
    ensures
        p == q,
{
    if p < q {
        assert(s[p] != c);
    } else if q < p {
        assert(s[q] != c);
    }
}

/// The code of `c` with ASCII capitals taken to small letters.
pub open spec fn ascii_lower(c: char) -> u32 {
    let u = c as u32;
    if 65 <= u <= 90 {
        (u + 32) as u32
    } else {
        u
    }
}

/// `str::eq_ignore_ascii_case`: equal once ASCII letters are taken to one case.
pub open spec fn eq_ignore_ascii_case(a: Seq<char>, b: Seq<char>) -> bool {
    &&& a.len() == b.len()
    &&& forall|i: int| 0 <= i < a.len() ==> #[trigger] ascii_lower(a[i]) == ascii_lower(b[i])
}

pub fn chars_eq_ignore_ascii_case(a: &Vec<char>, b: &Vec<char>) -> (r: bool)
    ensures
        r == eq_ignore_ascii_case(a@, b@),
{
    if a.len() != b.len() {
        return false;
    }
    let mut i: usize = 0;
    while i < a.len()
        invariant
            a@.len() == b@.len(),
            i <= a.len(),
            forall|j: int| 0 <= j < i ==> #[trigger] ascii_lower(a@[j]) == ascii_lower(b@[j]),
        decreases a.len() - i,
    {
        let x = a[i] as u32;
        let y = b[i] as u32;
        let lx = if 65 <= x && x <= 90 {
            x + 32
        } else {
            x
        };
        let ly = if 65 <= y && y <= 90 {
            y + 32
        } else {
            y
        };
        if lx != ly {
            assert(ascii_lower(a@[i as int]) != ascii_lower(b@[i as int]));
            return false;
        }
        i += 1;
    }
    true
}

/// Whether the characters `c` occurs in `s`.
pub fn contains_char(s: &Vec<char>, c: char) -> (r: bool)
    ensures
        r == s@.contains(c),
{
    let mut i: usize = 0;
    while i < s.len()
        invariant
            i <= s.len(),
            forall|j: int| 0 <= j < i ==> s@[j] != c,
        decreases s.len() - i,
    {
        if s[i] == c {
            return true;
        }
        i += 1;
    }
    false
}

// ---------------------------------------------------------------------------
// Trimming
// ---------------------------------------------------------------------------
pub open spec fn trim_start(s: Seq<char>) -> Seq<char>
    decreases s.len(),
{
    if s.len() > 0 && is_ws(s[0]) {
        trim_start(s.drop_first())
    } else {
        s
    }
}

pub open spec fn trim_end(s: Seq<char>) -> Seq<char>
    decreases s.len(),
{
    if s.len() > 0 && is_ws(s.last()) {
        trim_end(s.drop_last())
    } else {
        s
    }
}

/// What `str::trim` leaves: no leading and no trailing whitespace.
pub open spec fn trim(s: Seq<char>) -> Seq<char> {
    trim_end(trim_start(s))
}

proof fn lemma_trim_start_skip(s: Seq<char>, i: int)
    requires
        0 <= i <= s.len(),
        forall|j: int| 0 <= j < i ==> is_ws(s[j]),
    ensures
        trim_start(s) == trim_start(s.skip(i)),
    decreases i,
{
    if i > 0 {
        assert(s.drop_first().skip(i - 1) == s.skip(i));
        lemma_trim_start_skip(s.drop_first(), i - 1);
    } else {
        assert(s.skip(0) == s);
    }
}

proof fn lemma_trim_end_take(s: Seq<char>, i: int)
    requires
        0 <= i <= s.len(),
        forall|j: int| i <= j < s.len() ==> is_ws(s[j]),
    ensures
        trim_end(s) == trim_end(s.take(i)),
    decreases s.len() - i,
{
    if i < s.len() {
        assert(s.drop_last().take(i) == s.take(i));
        lemma_trim_end_take(s.drop_last(), i);
    } else {
        assert(s.take(i) == s);
    }
}

/// The bounds of `trim(s[from..to])` inside `s`.
pub fn trim_bounds(s: &Vec<char>, from: usize, to: usize) -> (r: (usize, usize))
    requires
        from <= to <= s.len(),
    ensures
        from <= r.0 <= r.1 <= to,
        s@.subrange(r.0 as int, r.1 as int) == trim(s@.subrange(from as int, to as int)),
{
    let ghost t = s@.subrange(from as int, to as int);
    let mut start = from;
    while start < to && is_whitespace(s[start])
        invariant
            from <= start <= to <= s.len(),
            forall|j: int| from <= j < start ==> is_ws(s@[j]),
        decreases to - start,
    {
        start += 1;
    }
    proof {
        lemma_trim_start_skip(t, start - from);
        assert(t.skip(start - from) == s@.subrange(start as int, to as int));
        let u = s@.subrange(start as int, to as int);
        if u.len() > 0 {
            assert(!is_ws(u[0]));
        }
        assert(trim_start(t) == u);
    }
    let mut end = to;
    while end > start && is_whitespace(s[end - 1])
        invariant
            from <= start <= end <= to <= s.len(),
            forall|j: int| end <= j < to ==> is_ws(s@[j]),
        decreases end - start,
    {
        end -= 1;
    }
    proof {
        let u = s@.subrange(start as int, to as int);
        lemma_trim_end_take(u, end - start);
        assert(u.take(end - start) == s@.subrange(start as int, end as int));
        let w = s@.subrange(start as int, end as int);
        if w.len() > 0 {
            assert(!is_ws(w.last()));
        }
    }
    (start, end)
}

/// The end of `trim_end(s[..to])`: trailing whitespace before `to` dropped.
pub fn trim_end_at(s: &Vec<char>, to: usize) -> (r: usize)
    requires
        to <= s.len(),
    ensures
        r <= to,
        s@.take(r as int) == trim_end(s@.take(to as int)),
{
    let mut end = to;
    while end > 0 && is_whitespace(s[end - 1])
        invariant
            end <= to <= s.len(),
            forall|j: int| end <= j < to ==> is_ws(s@[j]),
        decreases end,
    {
        end -= 1;
    }
    proof {
        let t = s@.take(to as int);
        lemma_trim_end_take(t, end as int);
        assert(t.take(end as int) == s@.take(end as int));
        let w = s@.take(end as int);
        if w.len() > 0 {
            assert(!is_ws(w.last()));
        }
    }
    end
}

/// The start of `trim_start(s[from..])`: leading whitespace after `from`
/// dropped.
pub fn trim_start_from(s: &Vec<char>, from: usize) -> (r: usize)
    requires
        from <= s.len(),
    ensures
        from <= r <= s.len(),
        s@.skip(r as int) == trim_start(s@.skip(from as int)),
{
    let mut start = from;
    while start < s.len() && is_whitespace(s[start])
        invariant
            from <= start <= s.len(),
            forall|j: int| from <= j < start ==> is_ws(s@[j]),
        decreases s.len() - start,
    {
        start += 1;
    }
    proof {
        let t = s@.skip(from as int);
        lemma_trim_start_skip(t, start - from);
        assert(t.skip(start - from) == s@.skip(start as int));
        let w = s@.skip(start as int);
        if w.len() > 0 {
            assert(!is_ws(w[0]));
        }
    }
    start
}

/// `trim(s)` as a new vector.
pub fn trimmed(s: &Vec<char>) -> (r: Vec<char>)
    ensures
        r@ == trim(s@),
{
    let (a, b) = trim_bounds(s, 0, s.len());
    assert(s@.subrange(0, s@.len() as int) == s@);
    slice_of(s, a, b)
}

/// `s[from..to]` as a new vector.
pub fn slice_of(s: &Vec<char>, from: usize, to: usize) -> (r: Vec<char>)
    requires
        from <= to <= s.len(),
    ensures
        r@ == s@.subrange(from as int, to as int),
{
    let mut r: Vec<char> = Vec::new();
    let mut i = from;
    while i < to
        invariant
            from <= i <= to <= s.len(),
            r@ == s@.subrange(from as int, i as int),
        decreases to - i,
    {
        r.push(s[i]);
        i += 1;
        assert(s@.subrange(from as int, i as int) == s@.subrange(from as int, i - 1).push(
            s@[i - 1],
        ));
    }
    r
}

// ---------------------------------------------------------------------------
// Lines and words
// ---------------------------------------------------------------------------
pub open spec fn strip_cr(line: Seq<char>) -> Seq<char> {
    if line.len() > 0 && line.last() == '\r' {
        line.drop_last()
    } else {
        line
    }
}

/// `str::lines` from a partly read line `cur`: lines end at `\n`, a `\r` right
/// before it is dropped, and a final line ending adds no empty line.
pub open spec fn lines_from(s: Seq<char>, cur: Seq<char>) -> Seq<Seq<char>>
    decreases s.len(),
{
    if s.len() == 0 {
        if cur.len() == 0 {
            seq![]
        } else {
            seq![cur]
        }
    } else if s[0] == '\n' {
        seq![strip_cr(cur)] + lines_from(s.drop_first(), seq![])
    } else {
        lines_from(s.drop_first(), cur.push(s[0]))
    }
}

/// What `str::lines` yields.
pub open spec fn lines(s: Seq<char>) -> Seq<Seq<char>> {
    lines_from(s, seq![])
}

/// Each line of `s`, without its line ending.
pub fn lines_of(s: &Vec<char>) -> (out: Vec<Vec<char>>)
    ensures
        out@.len() == lines(s@).len(),
        forall|i: int| 0 <= i < out@.len() ==> #[trigger] out@[i]@ == lines(s@)[i],
{
    let mut out: Vec<Vec<char>> = Vec::new();
    let mut cur: Vec<char> = Vec::new();
    let mut i: usize = 0;
    let ghost done: Seq<Seq<char>> = seq![];
    assert(s@.skip(0) == s@);
    assert(done + lines(s@) == lines(s@));
    while i < s.len()
        invariant
            i <= s.len(),
            out@.len() == done.len(),
            forall|k: int| 0 <= k < out@.len() ==> #[trigger] out@[k]@ == done[k],
            done + lines_from(s@.skip(i as int), cur@) == lines(s@),
        decreases s.len() - i,
    {
        let c = s[i];
        assert(s@.skip(i as int).drop_first() == s@.skip(i + 1));
        if c == '\n' {
            let mut line = cur;
            if line.len() > 0 && line[line.len() - 1] == '\r' {
                line.pop();
            }
            proof {
                assert(line@ == strip_cr(cur@));
                assert(done.push(line@) + lines_from(s@.skip(i + 1), seq![]) == done + (seq![
                    strip_cr(cur@),
                ] + lines_from(s@.skip(i + 1), seq![])));
                done = done.push(line@);
            }
            out.push(line);
            cur = Vec::new();
        } else {
            cur.push(c);
        }
        i += 1;
    }
    assert(s@.skip(i as int).len() == 0);
    if cur.len() > 0 {
        proof {
            done = done.push(cur@);
        }
        out.push(cur);
    } else {
        assert(done + seq![] == done);
    }
    out
}

/// `str::split_whitespace` from a partly read word `cur`.
pub open spec fn words_from(s: Seq<char>, cur: Seq<char>) -> Seq<Seq<char>>
    decreases s.len(),
{
    if s.len() == 0 {
        if cur.len() == 0 {
            seq![]
        } else {
            seq![cur]
        }
    } else if is_ws(s[0]) {
        if cur.len() == 0 {
            words_from(s.drop_first(), seq![])
        } else {
            seq![cur] + words_from(s.drop_first(), seq![])
        }
    } else {
        words_from(s.drop_first(), cur.push(s[0]))
    }
}

/// What `str::split_whitespace` yields.
pub open spec fn words(s: Seq<char>) -> Seq<Seq<char>> {
    words_from(s, seq![])
}

/// The whitespace-separated words of `s`.
pub fn words_of(s: &Vec<char>) -> (out: Vec<Vec<char>>)
    ensures
        out@.len() == words(s@).len(),
        forall|i: int| 0 <= i < out@.len() ==> #[trigger] out@[i]@ == words(s@)[i],
{
    let mut out: Vec<Vec<char>> = Vec::new();
    let mut cur: Vec<char> = Vec::new();
    let mut i: usize = 0;
    let ghost done: Seq<Seq<char>> = seq![];
    assert(s@.skip(0) == s@);
    assert(done + words(s@) == words(s@));
    while i < s.len()
        invariant
            i <= s.len(),
            out@.len() == done.len(),
            forall|k: int| 0 <= k < out@.len() ==> #[trigger] out@[k]@ == done[k],
            done + words_from(s@.skip(i as int), cur@) == words(s@),
        decreases s.len() - i,
    {
        let c = s[i];
        assert(s@.skip(i as int).drop_first() == s@.skip(i + 1));
        assert(s@.skip(i as int)[0] == c);
        if is_whitespace(c) {
            if cur.len() > 0 {
                proof {
                    assert(done.push(cur@) + words_from(s@.skip(i + 1), seq![]) == done + (seq![
                        cur@,
                    ] + words_from(s@.skip(i + 1), seq![])));
                    done = done.push(cur@);
                }
                out.push(cur);
                cur = Vec::new();
            } else {
                assert(cur@ =~= seq![]);
                assert(words_from(s@.skip(i as int), cur@) == words_from(s@.skip(i + 1), cur@));
            }
        } else {
            let ghost before = cur@;
            cur.push(c);
            assert(words_from(s@.skip(i as int), before) == words_from(s@.skip(i + 1), cur@));
        }
        i += 1;
    }
    if cur.len() > 0 {
        proof {
            done = done.push(cur@);
        }
        out.push(cur);
    } else {
        assert(done + seq![] == done);
    }
    out
}

// ---------------------------------------------------------------------------
// Decimal numbers
// ---------------------------------------------------------------------------
pub open spec fn is_digit(c: char) -> bool {
    '0' <= c <= '9'
}

pub open spec fn all_digits(s: Seq<char>) -> bool {
    forall|i: int| 0 <= i < s.len() ==> is_digit(#[trigger] s[i])
}

pub open spec fn digit_value(c: char) -> int {
    c as int - '0' as int
}

/// The value of a string of decimal digits.
pub open spec fn digits_value(s: Seq<char>) -> nat
    decreases s.len(),
{
    if s.len() == 0 {
        0
    } else {
        (digits_value(s.drop_last()) * 10 + digit_value(s.last())) as nat
    }
}

/// The number a decimal string without sign denotes, if it is one.
pub open spec fn unsigned_value(s: Seq<char>) -> Option<nat> {
    if s.len() > 0 && all_digits(s) {
        Some(digits_value(s))
    } else {
        None
    }
}

/// What `str::parse` accepts for an unsigned integer: an optional `+`, then digits.
pub open spec fn unsigned_text(s: Seq<char>) -> Option<nat> {
    if s.len() > 0 && s[0] == '+' {
        unsigned_value(s.drop_first())
    } else {
        unsigned_value(s)
    }
}

/// What `str::parse` accepts for a signed integer: an optional `+` or `-`, then digits.
pub open spec fn signed_text(s: Seq<char>) -> Option<int> {
    if s.len() > 0 && s[0] == '-' {
        match unsigned_value(s.drop_first()) {
            Some(v) => Some(-v),
            None => None,
        }
    } else {
        match unsigned_text(s) {
            Some(v) => Some(v as int),
            None => None,
        }
    }
}

proof fn lemma_digits_value_grows(s: Seq<char>, k: int)
    requires
        0 <= k <= s.len(),
        all_digits(s),
    ensures
        digits_value(s.take(k)) <= digits_value(s),
    decreases s.len() - k,
{
    if k < s.len() {
        lemma_digits_value_grows(s, k + 1);
        assert(s.take(k + 1).drop_last() == s.take(k));
    } else {
        assert(s.take(k) == s);
    }
}

/// The value of the digits `s[from..to]`, if they are all digits, there is at
/// least one, and the value is at most `max`.
pub fn parse_digits(s: &Vec<char>, from: usize, to: usize, max: u64) -> (r: Option<u64>)
    requires
        from <= to <= s.len(),
    ensures
        r matches Some(v) ==> unsigned_value(s@.subrange(from as int, to as int)) == Some(
            v as nat,
        ) && v <= max,
        r is None ==> match unsigned_value(s@.subrange(from as int, to as int)) {
            Some(v) => v > max,
            None => true,
        },
{
    if from == to {
        return None;
    }
    let ghost t = s@.subrange(from as int, to as int);
    let mut value: u64 = 0;
    let mut i = from;
    while i < to
        invariant
            from <= i <= to <= s.len(),
            t == s@.subrange(from as int, to as int),
            all_digits(t.take(i - from)),
            value == digits_value(t.take(i - from)),
            value <= max,
        decreases to - i,
    {
        let c = s[i];
        if !('0' <= c && c <= '9') {
            assert(t[i - from] == c);
            return None;
        }
        let d = (c as u32 - '0' as u32) as u64;
        assert(t.take(i + 1 - from).drop_last() == t.take(i - from));
        assert(t.take(i + 1 - from).last() == c);
        if d > max || value > (max - d) / 10 {
            proof {
                assert(all_digits(t.take(i + 1 - from)));
                assert(digits_value(t.take(i + 1 - from)) > max) by (nonlinear_arith)
                    requires
                        d > max || value > (max - d) / 10,
                        digits_value(t.take(i + 1 - from)) == value * 10 + d,
                        d <= 9,
                ;
                if all_digits(t) {
                    lemma_digits_value_grows(t, i + 1 - from);
                }
            }
            return None;
        }
        assert(value * 10 + d <= max) by (nonlinear_arith)
            requires
                value <= (max - d) / 10,
                d <= max,
        ;
        value = value * 10 + d;
        i += 1;
    }
    assert(t.take(to - from) == t);
    Some(value)
}

/// The decimal digits of `n`, most significant first, without leading zeros
/// (a single `0` for zero).
pub open spec fn decimal(n: nat) -> Seq<char>
    decreases n,
{
    if n < 10 {
        seq![digit_char(n)]
    } else {
        decimal(n / 10).push(digit_char(n % 10))
    }
}

pub open spec fn digit_char(d: nat) -> char {
    ((d + '0' as nat) as u32) as char
}

pub fn digit(d: u64) -> (c: char)
    requires
        d < 10,
    ensures
        c == digit_char(d as nat),
{
    if d == 0 {
        '0'
    } else if d == 1 {
        '1'
    } else if d == 2 {
        '2'
    } else if d == 3 {
        '3'
    } else if d == 4 {
        '4'
    } else if d == 5 {
        '5'
    } else if d == 6 {
        '6'
    } else if d == 7 {
        '7'
    } else if d == 8 {
        '8'
    } else {
        '9'
    }
}

/// Appends the decimal digits of `n` to `s`.
pub fn push_decimal(s: &mut String, n: u128)
    ensures
        final(s)@ == old(s)@ + decimal(n as nat),
    decreases n,
{
    if n < 10 {
        push_char(s, digit(n as u64));
        assert(decimal(n as nat) == seq![digit_char(n as nat)]);
    } else {
        push_decimal(s, n / 10);
        push_char(s, digit((n % 10) as u64));
        assert(decimal(n as nat) == decimal((n / 10) as nat).push(digit_char((n % 10) as nat)));
    }
}

/// The decimal digits of a signed number, with a leading `-` when it is negative.
pub open spec fn signed_decimal(n: int) -> Seq<char> {
    if n < 0 {
        seq!['-'] + decimal((-n) as nat)
    } else {
        decimal(n as nat)
    }
}

/// Appends the decimal form of a signed number.
pub fn push_signed_decimal(s: &mut String, n: i64)
    ensures
        final(s)@ == old(s)@ + signed_decimal(n as int),
{
    if n < 0 {
        push_char(s, '-');
        let m: u64 = if n == i64::MIN {
            9223372036854775808u64
        } else {
            (-n) as u64
        };
        push_decimal(s, m as u128);
        assert(old(s)@.push('-') + decimal(m as nat) == old(s)@ + (seq!['-'] + decimal(
            m as nat,
        )));
    } else {
        push_decimal(s, n as u128);
    }
}

/// The value of a signed decimal that fits an `i32`.
pub open spec fn i32_text(s: Seq<char>) -> Option<int> {
    match signed_text(s) {
        Some(v) => if i32::MIN <= v <= i32::MAX {
            Some(v)
        } else {
            None
        },
        None => None,
    }
}

/// The value of an unsigned decimal that fits a `u32`.
pub open spec fn u32_text(s: Seq<char>) -> Option<nat> {
    match unsigned_text(s) {
        Some(v) => if v <= u32::MAX {
            Some(v)
        } else {
            None
        },
        None => None,
    }
}

/// `str::parse::<i32>`.
pub fn parse_i32(s: &Vec<char>) -> (r: Option<i32>)
    ensures
        match r {
            Some(v) => i32_text(s@) == Some(v as int),
            None => i32_text(s@) is None,
        },
{
    if s.len() > 0 && s[0] == '-' {
        let m = parse_digits(s, 1, s.len(), 2147483648);
        assert(s@.subrange(1, s@.len() as int) == s@.drop_first());
        match m {
            Some(v) => Some((-(v as i64)) as i32),
            None => None,
        }
    } else {
        let start: usize = if s.len() > 0 && s[0] == '+' {
            1
        } else {
            0
        };
        let m = parse_digits(s, start, s.len(), 2147483647);
        assert(s@.subrange(1, s@.len() as int) == s@.drop_first());
        assert(s@.subrange(0, s@.len() as int) == s@);
        match m {
            Some(v) => Some(v as i32),
            None => None,
        }
    }
}

/// `str::parse::<u32>`.
pub fn parse_u32(s: &Vec<char>) -> (r: Option<u32>)
    ensures
        match r {
            Some(v) => u32_text(s@) == Some(v as nat),
            None => u32_text(s@) is None,
        },
{
    let start: usize = if s.len() > 0 && s[0] == '+' {
        1
    } else {
        0
    };
    let m = parse_digits(s, start, s.len(), 4294967295);
    assert(s@.subrange(1, s@.len() as int) == s@.drop_first());
    assert(s@.subrange(0, s@.len() as int) == s@);
    match m {
        Some(v) => Some(v as u32),
        None => None,
    }
}

/// The value of an unsigned decimal that fits a `u64`.
pub open spec fn u64_text(s: Seq<char>) -> Option<nat> {
    match unsigned_text(s) {
        Some(v) => if v <= u64::MAX {
            Some(v)
        } else {
            None
        },
        None => None,
    }
}

/// `str::parse::<u64>`.
pub fn parse_u64(s: &Vec<char>) -> (r: Option<u64>)
    ensures
        match r {
            Some(v) => u64_text(s@) == Some(v as nat),
            None => u64_text(s@) is None,
        },
{
    let start: usize = if s.len() > 0 && s[0] == '+' {
        1
    } else {
        0
    };
    let m = parse_digits(s, start, s.len(), u64::MAX);
    assert(s@.subrange(1, s@.len() as int) == s@.drop_first());
    assert(s@.subrange(0, s@.len() as int) == s@);
    m
}

/// The value of a signed decimal that fits an `i64`.
pub open spec fn i64_text(s: Seq<char>) -> Option<int> {
    match signed_text(s) {
        Some(v) => if i64::MIN <= v <= i64::MAX {
            Some(v)
        } else {
            None
        },
        None => None,
    }
}

/// `str::parse::<i64>`.
pub fn parse_i64(s: &Vec<char>) -> (r: Option<i64>)
    ensures
        match r {
            Some(v) => i64_text(s@) == Some(v as int),
            None => i64_text(s@) is None,
        },
{
    if s.len() > 0 && s[0] == '-' {
        let m = parse_digits(s, 1, s.len(), 9223372036854775808);
        assert(s@.subrange(1, s@.len() as int) == s@.drop_first());
        match m {
            Some(v) => Some(if v == 9223372036854775808 {
                i64::MIN
            } else {
                -(v as i64)
            }),
            None => None,
        }
    } else {
        let start: usize = if s.len() > 0 && s[0] == '+' {
            1
        } else {
            0
        };
        let m = parse_digits(s, start, s.len(), 9223372036854775807);
        assert(s@.subrange(1, s@.len() as int) == s@.drop_first());
        assert(s@.subrange(0, s@.len() as int) == s@);
        match m {
            Some(v) => Some(v as i64),
            None => None,
        }
    }
}

// ---------------------------------------------------------------------------
// Splitting
// ---------------------------------------------------------------------------
/// `s` without the line-ending characters at its end
/// (`str::trim_end_matches(['\r', '\n'])`).
pub open spec fn trim_line_end(s: Seq<char>) -> Seq<char>
    decreases s.len(),
{
    if s.len() > 0 && (s.last() == '\r' || s.last() == '\n') {
        trim_line_end(s.drop_last())
    } else {
        s
    }
}

pub fn trimmed_line_end(s: &Vec<char>) -> (r: Vec<char>)
    ensures
        r@ == trim_line_end(s@),
{
    let mut end = s.len();
    assert(s@.take(s@.len() as int) == s@);
    while end > 0 && (s[end - 1] == '\r' || s[end - 1] == '\n')
        invariant
            end <= s.len(),
            trim_line_end(s@.take(end as int)) == trim_line_end(s@),
        decreases end,
    {
        assert(s@.take(end as int).drop_last() == s@.take(end - 1));
        end -= 1;
    }
    assert(s@.subrange(0, end as int) == s@.take(end as int));
    slice_of(s, 0, end)
}

/// `pat` occurs in `s` at `q`.
pub open spec fn occurs_at(s: Seq<char>, pat: Seq<char>, q: int) -> bool {
    0 <= q <= s.len() && has_prefix(s.skip(q), pat)
}

/// `p` is where `pat` first occurs in `s`.
pub open spec fn first_occurrence(s: Seq<char>, pat: Seq<char>, p: int) -> bool {
    &&& occurs_at(s, pat, p)
    &&& forall|q: int| 0 <= q < p ==> !occurs_at(s, pat, q)
}

/// `str::split_once`: the parts before and after the first `pat`.
pub open spec fn spec_split_once(s: Seq<char>, pat: Seq<char>) -> Option<(Seq<char>, Seq<char>)> {
    if exists|p: int| first_occurrence(s, pat, p) {
        let p = choose|p: int| first_occurrence(s, pat, p);
        Some((s.take(p), s.skip(p + pat.len())))
    } else {
        None
    }
}

pub fn split_once(s: &Vec<char>, pat: &Vec<char>) -> (r: Option<(Vec<char>, Vec<char>)>)
    ensures
        match r {
            Some((a, b)) => spec_split_once(s@, pat@) == Some((a@, b@)),
            None => spec_split_once(s@, pat@) is None,
        },
{
    if pat.len() > s.len() {
        assert forall|p: int| !first_occurrence(s@, pat@, p) by {
            if first_occurrence(s@, pat@, p) {
                assert(s@.skip(p).len() >= pat@.len());
            }
        }
        return None;
    }
    let last = s.len() - pat.len();
    let mut q: usize = 0;
    loop
        invariant
            q <= last,
            last == s@.len() - pat@.len(),
            forall|j: int| 0 <= j < q ==> !occurs_at(s@, pat@, j),
        decreases last - q,
    {
        if starts_with_at(s, q, pat) {
            assert(occurs_at(s@, pat@, q as int));
            assert(first_occurrence(s@, pat@, q as int));
            assert(q + pat.len() <= s.len());
            assert forall|p: int| first_occurrence(s@, pat@, p) implies p == q by {
                if p > q {
                    assert(!occurs_at(s@, pat@, q as int));
                }
            }
            let a = slice_of(s, 0, q);
            let b = slice_of(s, q + pat.len(), s.len());
            assert(s@.subrange(0, q as int) == s@.take(q as int));
            assert(s@.subrange(q + pat@.len(), s@.len() as int) == s@.skip(q + pat@.len()));
            return Some((a, b));
        }
        if q == last {
            assert forall|p: int| !first_occurrence(s@, pat@, p) by {
                if first_occurrence(s@, pat@, p) {
                    if p > q {
                        assert(s@.skip(p).len() >= pat@.len());
                    }
                }
            }
            return None;
        }
        q += 1;
    }
}

/// `str::to_ascii_lowercase`: ASCII capitals taken to small letters.
pub open spec fn ascii_lowercase(s: Seq<char>) -> Seq<char> {
    s.map_values(
        |c: char|
            if 'A' <= c <= 'Z' {
                ((c as u32) + 32) as char
            } else {
                c
            },
    )
}

pub fn to_ascii_lowercase(s: &Vec<char>) -> (r: String)
    ensures
        r@ == ascii_lowercase(s@),
{
    let mut r = String::new();
    let mut i: usize = 0;
    while i < s.len()
        invariant
            i <= s.len(),
            r@ == ascii_lowercase(s@.take(i as int)),
        decreases s.len() - i,
    {
        let c = s[i];
        if 'A' <= c && c <= 'Z' {
            let b: u8 = (c as u32 + 32) as u8;
            let lower = b as char;
            assert(lower == ((c as u32) + 32) as char);
            push_char(&mut r, lower);
        } else {
            push_char(&mut r, c);
        }
        i += 1;
        assert(ascii_lowercase(s@.take(i as int)) =~= ascii_lowercase(s@.take(i - 1)).push(
            if 'A' <= c <= 'Z' {
                ((c as u32) + 32) as char
            } else {
                c
            },
        ));
    }
    assert(s@.take(s@.len() as int) == s@);
    r
}

/// Whether the text `a` sorts before `b`: by code point, as `String`
/// compares its UTF-8 bytes.
pub open spec fn text_less(a: Seq<char>, b: Seq<char>) -> bool
    decreases a.len(),
{
    if a.len() == 0 {
        b.len() > 0
    } else if b.len() == 0 {
        false
    } else if a[0] != b[0] {
        (a[0] as u32) < (b[0] as u32)
    } else {
        text_less(a.drop_first(), b.drop_first())
    }
}

pub proof fn lemma_text_less_irreflexive(a: Seq<char>)
    ensures
        !text_less(a, a),
    decreases a.len(),
{
    if a.len() > 0 {
        lemma_text_less_irreflexive(a.drop_first());
    }
}

pub proof fn lemma_text_less_total(a: Seq<char>, b: Seq<char>)
    ensures
        a == b || text_less(a, b) || text_less(b, a),
    decreases a.len(),
{
    if a.len() > 0 && b.len() > 0 && a[0] == b[0] {
        lemma_text_less_total(a.drop_first(), b.drop_first());
        if a.drop_first() == b.drop_first() {
            assert(a =~= seq![a[0]] + a.drop_first());
            assert(b =~= seq![b[0]] + b.drop_first());
        }
    } else if a.len() > 0 && b.len() > 0 {
        vstd::utf8::char_u32_cast(a[0], a[0] as u32);
        vstd::utf8::char_u32_cast(b[0], b[0] as u32);
    } else if a.len() == 0 && b.len() == 0 {
        assert(a =~= b);
    }
}

pub proof fn lemma_text_less_transitive(a: Seq<char>, b: Seq<char>, c: Seq<char>)
    requires
        text_less(a, b),
        text_less(b, c),
    ensures
        text_less(a, c),
    decreases a.len(),
{
    if a.len() > 0 && b.len() > 0 && c.len() > 0 && a[0] == b[0] && b[0] == c[0] {
        lemma_text_less_transitive(a.drop_first(), b.drop_first(), c.drop_first());
    }
}

pub proof fn lemma_text_less_asymmetric(a: Seq<char>, b: Seq<char>)
    requires
        text_less(a, b),
    ensures
        !text_less(b, a),
{
    if text_less(b, a) {
        lemma_text_less_transitive(a, b, a);
        lemma_text_less_irreflexive(a);
    }
}

pub fn chars_less(a: &Vec<char>, b: &Vec<char>) -> (r: bool)
    ensures
        r == text_less(a@, b@),
{
    let mut i: usize = 0;
    assert(a@.skip(0) == a@);
    assert(b@.skip(0) == b@);
    while i < a.len() && i < b.len() && a[i] == b[i]
        invariant
            i <= a@.len(),
            i <= b@.len(),
            text_less(a@, b@) == text_less(a@.skip(i as int), b@.skip(i as int)),
        decreases a.len() - i,
    {
        assert(a@.skip(i as int).drop_first() == a@.skip(i + 1));
        assert(b@.skip(i as int).drop_first() == b@.skip(i + 1));
        i += 1;
    }
    assert(a@.skip(i as int).len() == a@.len() - i);
    if i == a.len() {
        i < b.len()
    } else if i == b.len() {
        false
    } else {
        assert(a@.skip(i as int)[0] == a@[i as int]);
        assert(b@.skip(i as int)[0] == b@[i as int]);
        (a[i] as u32) < (b[i] as u32)
    }
}

// ---------------------------------------------------------------------------
// Bytes
// ---------------------------------------------------------------------------
/// The text `bytes` encode, when they are valid UTF-8 (`String::from_utf8`).
#[verifier::external_body]
pub(crate) fn text_from_utf8(bytes: Vec<u8>) -> (r: Option<String>)
    ensures
        match r {
            Some(s) => vstd::utf8::valid_utf8(bytes@) && s@ == vstd::utf8::decode_utf8(bytes@),
            None => !vstd::utf8::valid_utf8(bytes@),
        },
{
    String::from_utf8(bytes).ok()
}

// ---------------------------------------------------------------------------
// Case
// ---------------------------------------------------------------------------
/// What `str::to_lowercase` returns for a string.
pub uninterp spec fn lowercase(s: Seq<char>) -> Seq<char>;

/// The lowercase form of a string, by Unicode's lowercase mapping
/// (`str::to_lowercase`). Its result is named by `lowercase`; nothing more is
/// claimed of it here.
#[verifier::external_body]
pub(crate) fn to_lowercase(s: &str) -> (r: String)
    ensures
        r@ == lowercase(s@),
{
    s.to_lowercase()
}

} // verus!
