//! Character classes and whitespace trimming.
//!
//! Cell text is judged on its trimmed content, so the trimming itself is
//! specified here: `trim_spec` drops leading and trailing white space
//! (the Unicode white-space set) from a sequence of characters, and
//! `trim_bounds` computes the window of a `&str` that remains.

use vstd::prelude::*;
use vstd::string::StrSliceExecFns;

verus! {

/// A decimal digit `'0'..='9'`.
pub open spec fn is_digit_char(c: char) -> bool {
    48 <= c as u32 && c as u32 <= 57
}

/// A Unicode white-space character (the set that trimming removes).
pub open spec fn is_space_char(c: char) -> bool {
    let u = c as u32;
    ||| (9 <= u && u <= 13)
    ||| u == 32
    ||| u == 0x85
    ||| u == 0xA0
    ||| u == 0x1680
    ||| (0x2000 <= u && u <= 0x200A)
    ||| u == 0x2028
    ||| u == 0x2029
    ||| u == 0x202F
    ||| u == 0x205F
    ||| u == 0x3000
}

pub fn is_digit(c: char) -> (b: bool)
    ensures
        b == is_digit_char(c),
{
    let u = c as u32;
    48 <= u && u <= 57
}

pub fn is_space(c: char) -> (b: bool)
    ensures
        b == is_space_char(c),
{
    let u = c as u32;
    (9 <= u && u <= 13) || u == 32 || u == 0x85 || u == 0xA0 || u == 0x1680 || (0x2000 <= u && u
        <= 0x200A) || u == 0x2028 || u == 0x2029 || u == 0x202F || u == 0x205F || u == 0x3000
}

/// The sequence with its leading white space removed.
pub open spec fn trim_start_spec(s: Seq<char>) -> Seq<char>
    decreases s.len(),
{
    if s.len() == 0 || !is_space_char(s[0]) {
        s
    } else {
        trim_start_spec(s.subrange(1, s.len() as int))
    }
}

/// The sequence with its trailing white space removed.
pub open spec fn trim_end_spec(s: Seq<char>) -> Seq<char>
    decreases s.len(),
{
    if s.len() == 0 || !is_space_char(s[s.len() - 1]) {
        s
    } else {
        trim_end_spec(s.subrange(0, s.len() - 1))
    }
}

/// The sequence with both leading and trailing white space removed.
pub open spec fn trim_spec(s: Seq<char>) -> Seq<char> {
    trim_end_spec(trim_start_spec(s))
}

proof fn lemma_trim_start_at(s: Seq<char>, a: int)
    requires
        0 <= a <= s.len(),
        forall|i: int| 0 <= i < a ==> is_space_char(s[i]),
        a == s.len() || !is_space_char(s[a]),
    ensures
        trim_start_spec(s) == s.subrange(a, s.len() as int),
    decreases a,
{
    if a == 0 {
        assert(s.subrange(0, s.len() as int) =~= s);
    } else {
        let t = s.subrange(1, s.len() as int);
        assert(forall|i: int| 0 <= i < a - 1 ==> is_space_char(#[trigger] t[i]));
        lemma_trim_start_at(t, a - 1);
        assert(t.subrange(a - 1, t.len() as int) =~= s.subrange(a, s.len() as int));
    }
}

proof fn lemma_trim_end_at(s: Seq<char>, b: int)
    requires
        0 <= b <= s.len(),
        forall|i: int| b <= i < s.len() ==> is_space_char(s[i]),
        b == 0 || !is_space_char(s[b - 1]),
    ensures
        trim_end_spec(s) == s.subrange(0, b),
    decreases s.len() - b,
{
    if b == s.len() {
        assert(s.subrange(0, s.len() as int) =~= s);
    } else {
        let t = s.subrange(0, s.len() - 1);
        assert(forall|i: int| b <= i < t.len() ==> is_space_char(#[trigger] t[i]));
        lemma_trim_end_at(t, b);
        assert(t.subrange(0, b) =~= s.subrange(0, b));
    }
}

/// The window `[a, b)` of `s` that trimming keeps: everything before `a`
/// and everything from `b` on is white space, and the edges of the window
/// are not.
pub open spec fn is_trim_window(s: Seq<char>, a: int, b: int) -> bool {
    &&& 0 <= a <= b <= s.len()
    &&& forall|i: int| 0 <= i < a ==> is_space_char(s[i])
    &&& forall|i: int| b <= i < s.len() ==> is_space_char(s[i])
    &&& (a == b || (!is_space_char(s[a]) && !is_space_char(s[b - 1])))
}

pub proof fn lemma_trim_window(s: Seq<char>, a: int, b: int)
    requires
        is_trim_window(s, a, b),
    ensures
        trim_spec(s) == s.subrange(a, b),
    decreases s.len(),
{
    if a == b {
        lemma_trim_start_at(s, s.len() as int);
        assert(s.subrange(s.len() as int, s.len() as int).len() == 0);
        assert(trim_end_spec(s.subrange(s.len() as int, s.len() as int)) =~= s.subrange(a, b));
    } else {
        lemma_trim_start_at(s, a);
        let u = s.subrange(a, s.len() as int);
        assert(forall|i: int| b - a <= i < u.len() ==> is_space_char(#[trigger] u[i]));
        assert(!is_space_char(u[b - a - 1]));
        lemma_trim_end_at(u, b - a);
        assert(u.subrange(0, b - a) =~= s.subrange(a, b));
    }
}

/// Computes the window of `s` that trimming keeps, as a pair of character
/// indices `(a, b)`: the trimmed content of `s` is `s@.subrange(a, b)`.
pub fn trim_bounds(s: &str) -> (r: (usize, usize))
    ensures
        r.0 <= r.1 <= s@.len(),
        is_trim_window(s@, r.0 as int, r.1 as int),
        trim_spec(s@) == s@.subrange(r.0 as int, r.1 as int),
{
    let n = s.unicode_len();
    let mut a: usize = 0;
    while a < n && is_space(s.get_char(a))
        invariant
            0 <= a <= n,
            n == s@.len(),
            forall|i: int| 0 <= i < a ==> is_space_char(s@[i]),
        decreases n - a,
    {
        a = a + 1;
    }
    if a == n {
        proof {
            lemma_trim_window(s@, a as int, a as int);
        }
        return (a, a);
    }
    let mut b: usize = n;
    while is_space(s.get_char(b - 1))
        invariant
            a < b <= n,
            n == s@.len(),
            !is_space_char(s@[a as int]),
            forall|i: int| b <= i < n ==> is_space_char(s@[i]),
        decreases b,
    {
        b = b - 1;
    }
    proof {
        lemma_trim_window(s@, a as int, b as int);
    }
    (a, b)
}

} // verus!
