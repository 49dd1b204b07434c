//! The audio mixer's volume report (`Volume: 0.45 [MUTED]`): the number text
//! and the muted flag. Turning the number text into a level is floating point
//! and is left to the caller.
use vstd::prelude::*;
use crate::text::{chars_of, contains_seq, has_infix, string_of};

verus! {

/// A character of a decimal number: an ASCII digit or `.`.
pub open spec fn is_num_char(c: char) -> bool {
    ('0' <= c && c <= '9') || c == '.'
}

/// Index of the first number character at or after `i` (or `s.len()`).
pub open spec fn num_start(s: Seq<char>, i: int) -> int
    decreases s.len() - i,
{
    if i < 0 || i >= s.len() {
        if i < 0 { 0 } else { s.len() as int }
    } else if is_num_char(s[i]) {
        i
    } else {
        num_start(s, i + 1)
    }
}

/// Index of the first character at or after `i` that is not a number character.
pub open spec fn num_end(s: Seq<char>, i: int) -> int
    decreases s.len() - i,
{
    if i < 0 || i >= s.len() {
        if i < 0 { 0 } else { s.len() as int }
    } else if is_num_char(s[i]) {
        num_end(s, i + 1)
    } else {
        i
    }
}

/// The first run of digits and dots in the report (empty when there is none).
pub open spec fn spec_volume_text(line: Seq<char>) -> Seq<char> {
    let a = num_start(line, 0);
    line.subrange(a, num_end(line, a))
}

/// The number text of a volume report.
pub fn volume_text(line: &str) -> (r: String)
    ensures
        r@ == spec_volume_text(line@),
{
    let v = chars_of(line);
    let n = v.len();
    let mut a: usize = 0;
    while a < n && !(('0' <= v[a] && v[a] <= '9') || v[a] == '.')
        invariant
            n == v@.len(),
            a <= n,
            num_start(v@, a as int) == num_start(v@, 0),
        decreases n - a,
    {
        a = a + 1;
    }
    let mut b: usize = a;
    while b < n && (('0' <= v[b] && v[b] <= '9') || v[b] == '.')
        invariant
            n == v@.len(),
            a <= b <= n,
            num_end(v@, b as int) == num_end(v@, a as int),
        decreases n - b,
    {
        b = b + 1;
    }
    let mut out: Vec<char> = Vec::new();
    let mut i: usize = a;
    while i < b
        invariant
            a <= i <= b <= n,
            n == v@.len(),
            out@ == v@.subrange(a as int, i as int),
        decreases b - i,
    {
        out.push(v[i]);
        i = i + 1;
        assert(out@ =~= v@.subrange(a as int, i as int));
    }
    string_of(out.as_slice())
}

/// The report says the sink is muted (`MUTED`, or `MUTE`).
pub open spec fn spec_is_muted(line: Seq<char>) -> bool {
    contains_seq(line, "MUTED"@) || contains_seq(line, "MUTE"@)
}

/// Is the sink muted according to the report?
pub fn is_muted(line: &str) -> (r: bool)
    ensures
        r == spec_is_muted(line@),
{
    let v = chars_of(line);
    has_infix(&v, &chars_of("MUTED")) || has_infix(&v, &chars_of("MUTE"))
}

} // verus!
