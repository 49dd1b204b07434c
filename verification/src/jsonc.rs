//! JSONC to JSON: comments outside strings are removed, then trailing commas
//! before `}` / `]` are dropped. `//` inside strings (URLs) is preserved.
use vstd::prelude::*;
use crate::text::{
    chars_of, is_subseq, is_whitespace, is_ws, lemma_subseq_cons, lemma_subseq_skip,
    lemma_subseq_trans, skip_ws, string_of,
};

verus! {

/// String-literal tracking: state after reading `c` inside a string literal,
/// as `(still_in_string, escaped)`.
pub open spec fn in_string_step(escaped: bool, c: char) -> (bool, bool) {
    if escaped {
        (true, false)
    } else if c == '\\' {
        (true, true)
    } else if c == '"' {
        (false, false)
    } else {
        (true, false)
    }
}

/// Index of the first `'\n'` at or after `k` (or `s.len()`).
pub open spec fn newline_from(s: Seq<char>, k: int) -> int
    decreases s.len() - k,
{
    if k < 0 || k >= s.len() {
        if k < 0 { 0 } else { s.len() as int }
    } else if s[k] == '\n' {
        k
    } else {
        newline_from(s, k + 1)
    }
}

/// Index just after the `*/` that closes a block comment whose body starts at
/// `k` (`prev_star`: the previous body character was `*`), or `s.len()`.
pub open spec fn block_close_from(s: Seq<char>, k: int, prev_star: bool) -> int
    decreases s.len() - k,
{
    if k < 0 || k >= s.len() {
        if k < 0 { 0 } else { s.len() as int }
    } else if prev_star && s[k] == '/' {
        k + 1
    } else {
        block_close_from(s, k + 1, s[k] == '*')
    }
}

/// Comment removal, from position `i` in the given string-literal state.
/// A line comment keeps its terminating newline; a block comment leaves nothing.
pub open spec fn uncomment(s: Seq<char>, i: int, in_str: bool, esc: bool) -> Seq<char>
    decreases s.len() - i,
{
    if i < 0 || i >= s.len() {
        seq![]
    } else if in_str {
        let st = in_string_step(esc, s[i]);
        seq![s[i]] + uncomment(s, i + 1, st.0, st.1)
    } else if s[i] == '"' {
        seq!['"'] + uncomment(s, i + 1, true, false)
    } else if s[i] == '/' && i + 1 < s.len() && s[i + 1] == '/' {
        let j = newline_from(s, i + 1);
        proof {
            lemma_newline_from(s, i + 1);
        }
        if j < s.len() {
            seq!['\n'] + uncomment(s, j + 1, false, false)
        } else {
            seq![]
        }
    } else if s[i] == '/' && i + 1 < s.len() && s[i + 1] == '*' {
        let j = block_close_from(s, i + 2, false);
        proof {
            lemma_block_close_from(s, i + 2, false);
        }
        if j <= i {
            seq![]
        } else {
            uncomment(s, j, false, false)
        }
    } else {
        seq![s[i]] + uncomment(s, i + 1, false, false)
    }
}

/// Is the comma at `i` trailing, i.e. the next non-whitespace character closes a bracket?
pub open spec fn trailing_comma(s: Seq<char>, i: int) -> bool {
    let j = skip_ws(s, i + 1);
    s[i] == ',' && j < s.len() && (s[j] == '}' || s[j] == ']')
}

/// Trailing-comma removal, from position `i` in the given string-literal state.
pub open spec fn drop_trailing_commas(s: Seq<char>, i: int, in_str: bool, esc: bool) -> Seq<char>
    decreases s.len() - i,
{
    if i < 0 || i >= s.len() {
        seq![]
    } else if in_str {
        let st = in_string_step(esc, s[i]);
        seq![s[i]] + drop_trailing_commas(s, i + 1, st.0, st.1)
    } else if s[i] == '"' {
        seq!['"'] + drop_trailing_commas(s, i + 1, true, false)
    } else if trailing_comma(s, i) {
        drop_trailing_commas(s, i + 1, false, false)
    } else {
        seq![s[i]] + drop_trailing_commas(s, i + 1, false, false)
    }
}

/// What [`strip_jsonc`] returns.
pub open spec fn spec_strip_jsonc(s: Seq<char>) -> Seq<char> {
    let u = uncomment(s, 0, false, false);
    drop_trailing_commas(u, 0, false, false)
}

pub proof fn lemma_newline_from(s: Seq<char>, k: int)
    requires
        0 <= k <= s.len(),
    ensures
        k <= newline_from(s, k) <= s.len(),
        newline_from(s, k) < s.len() ==> s[newline_from(s, k)] == '\n',
        forall|m: int| k <= m < newline_from(s, k) ==> s[m] != '\n',
    decreases s.len() - k,
{
    if k < s.len() && s[k] != '\n' {
        lemma_newline_from(s, k + 1);
    }
}

pub proof fn lemma_block_close_from(s: Seq<char>, k: int, prev_star: bool)
    requires
        0 <= k <= s.len(),
    ensures
        k <= block_close_from(s, k, prev_star) <= s.len(),
    decreases s.len() - k,
{
    if k < s.len() && !(prev_star && s[k] == '/') {
        lemma_block_close_from(s, k + 1, s[k] == '*');
    }
}

/// Removes `//` line comments and `/* */` blocks outside strings, then drops
/// trailing commas before `}` / `]`. `//` inside strings (`https://`) is kept.
pub fn strip_jsonc(text: &str) -> (r: String)
    ensures
        r@ == spec_strip_jsonc(text@),
{
    let s = chars_of(text);
    let u = uncomment_chars(&s);
    let d = drop_trailing_commas_chars(&u);
    string_of(&d)
}

fn uncomment_chars(s: &Vec<char>) -> (out: Vec<char>)
    ensures
        out@ == uncomment(s@, 0, false, false),
{
    let n = s.len();
    let mut out: Vec<char> = Vec::new();
    let mut i: usize = 0;
    let mut in_str = false;
    let mut esc = false;
    while i < n
        invariant
            n == s.len(),
            i <= n,
            !in_str ==> !esc,
            out@ + uncomment(s@, i as int, in_str, esc) == uncomment(s@, 0, false, false),
        decreases n - i,
    {
        let c = s[i];
        let ghost before = out@;
        let ghost st = (in_str, esc);
        let ghost i0 = i as int;
        if in_str {
            out.push(c);
            if esc {
                esc = false;
            } else if c == '\\' {
                esc = true;
            } else if c == '"' {
                in_str = false;
            }
            i = i + 1;
            assert(out@ + uncomment(s@, i as int, in_str, esc) =~= before + uncomment(s@, i0, st.0, st.1));
        } else if c == '"' {
            in_str = true;
            out.push(c);
            i = i + 1;
            assert(out@ + uncomment(s@, i as int, in_str, esc) =~= before + uncomment(s@, i0, st.0, st.1));
        } else if c == '/' && i + 1 < n && s[i + 1] == '/' {
            let mut j = i + 1;
            while j < n && s[j] != '\n'
                invariant
                    n == s.len(),
                    i + 1 <= j <= n,
                    newline_from(s@, j as int) == newline_from(s@, i + 1),
                decreases n - j,
            {
                j = j + 1;
            }
            proof {
                lemma_newline_from(s@, i0 + 1);
            }
            if j < n {
                out.push('\n');
                i = j + 1;
            } else {
                i = n;
            }
            assert(out@ + uncomment(s@, i as int, in_str, esc) =~= before + uncomment(s@, i0, st.0, st.1));
        } else if c == '/' && i + 1 < n && s[i + 1] == '*' {
            let mut j = i + 2;
            let mut prev_star = false;
            while j < n && !(prev_star && s[j] == '/')
                invariant
                    n == s.len(),
                    i + 2 <= j <= n,
                    block_close_from(s@, j as int, prev_star) == block_close_from(
                        s@,
                        i + 2,
                        false,
                    ),
                decreases n - j,
            {
                prev_star = s[j] == '*';
                j = j + 1;
            }
            proof {
                lemma_block_close_from(s@, i0 + 2, false);
            }
            if j < n {
                i = j + 1;
            } else {
                i = n;
            }
            assert(out@ + uncomment(s@, i as int, in_str, esc) =~= before + uncomment(s@, i0, st.0, st.1));
        } else {
            out.push(c);
            i = i + 1;
            assert(out@ + uncomment(s@, i as int, in_str, esc) =~= before + uncomment(s@, i0, st.0, st.1));
        }
        assert(out@ + uncomment(s@, i as int, in_str, esc) =~= before + uncomment(
            s@,
            i0,
            st.0,
            st.1,
        ));
    }
    assert(out@ =~= uncomment(s@, 0, false, false));
    out
}

fn drop_trailing_commas_chars(s: &Vec<char>) -> (out: Vec<char>)
    ensures
        out@ == drop_trailing_commas(s@, 0, false, false),
{
    let n = s.len();
    let mut out: Vec<char> = Vec::new();
    let mut i: usize = 0;
    let mut in_str = false;
    let mut esc = false;
    while i < n
        invariant
            n == s.len(),
            i <= n,
            !in_str ==> !esc,
            out@ + drop_trailing_commas(s@, i as int, in_str, esc) == drop_trailing_commas(
                s@,
                0,
                false,
                false,
            ),
        decreases n - i,
    {
        let c = s[i];
        let ghost before = out@;
        let ghost st = (in_str, esc);
        if in_str {
            out.push(c);
            if esc {
                esc = false;
            } else if c == '\\' {
                esc = true;
            } else if c == '"' {
                in_str = false;
            }
            i = i + 1;
        } else if c == '"' {
            in_str = true;
            out.push(c);
            i = i + 1;
        } else {
            let mut keep = true;
            if c == ',' {
                let mut j = i + 1;
                while j < n && is_whitespace(s[j])
                    invariant
                        n == s.len(),
                        i + 1 <= j <= n,
                        skip_ws(s@, j as int) == skip_ws(s@, i + 1),
                    decreases n - j,
                {
                    j = j + 1;
                }
                if j < n && (s[j] == '}' || s[j] == ']') {
                    keep = false;
                }
            }
            if keep {
                out.push(c);
            }
            i = i + 1;
        }
        assert(out@ + drop_trailing_commas(s@, i as int, in_str, esc) =~= before
            + drop_trailing_commas(s@, i - 1, st.0, st.1));
    }
    assert(out@ =~= drop_trailing_commas(s@, 0, false, false));
    out
}

proof fn lemma_uncomment_subseq(s: Seq<char>, i: int, in_str: bool, esc: bool)
    requires
        0 <= i <= s.len(),
    ensures
        is_subseq(uncomment(s, i, in_str, esc), s.skip(i)),
    decreases s.len() - i,
{
    if i < s.len() {
        assert(s.skip(i) =~= seq![s[i]] + s.skip(i + 1));
        if in_str {
            let st = in_string_step(esc, s[i]);
            lemma_uncomment_subseq(s, i + 1, st.0, st.1);
            lemma_subseq_cons(s[i], uncomment(s, i + 1, st.0, st.1), s.skip(i + 1));
        } else if s[i] == '"' {
            lemma_uncomment_subseq(s, i + 1, true, false);
            lemma_subseq_cons(s[i], uncomment(s, i + 1, true, false), s.skip(i + 1));
        } else if s[i] == '/' && i + 1 < s.len() && s[i + 1] == '/' {
            let j = newline_from(s, i + 1);
            lemma_newline_from(s, i + 1);
            if j < s.len() {
                lemma_uncomment_subseq(s, j + 1, false, false);
                assert(s.skip(j) =~= seq![s[j]] + s.skip(j + 1));
                lemma_subseq_cons('\n', uncomment(s, j + 1, false, false), s.skip(j + 1));
                lemma_subseq_skip(uncomment(s, i, in_str, esc), s, i, j);
            }
        } else if s[i] == '/' && i + 1 < s.len() && s[i + 1] == '*' {
            let j = block_close_from(s, i + 2, false);
            lemma_block_close_from(s, i + 2, false);
            lemma_uncomment_subseq(s, j, false, false);
            lemma_subseq_skip(uncomment(s, i, in_str, esc), s, i, j);
        } else {
            lemma_uncomment_subseq(s, i + 1, false, false);
            lemma_subseq_cons(s[i], uncomment(s, i + 1, false, false), s.skip(i + 1));
        }
    }
}

proof fn lemma_drop_commas_subseq(s: Seq<char>, i: int, in_str: bool, esc: bool)
    requires
        0 <= i <= s.len(),
    ensures
        is_subseq(drop_trailing_commas(s, i, in_str, esc), s.skip(i)),
    decreases s.len() - i,
{
    if i < s.len() {
        assert(s.skip(i) =~= seq![s[i]] + s.skip(i + 1));
        if in_str {
            let st = in_string_step(esc, s[i]);
            lemma_drop_commas_subseq(s, i + 1, st.0, st.1);
            lemma_subseq_cons(s[i], drop_trailing_commas(s, i + 1, st.0, st.1), s.skip(i + 1));
        } else if s[i] == '"' {
            lemma_drop_commas_subseq(s, i + 1, true, false);
            lemma_subseq_cons(s[i], drop_trailing_commas(s, i + 1, true, false), s.skip(i + 1));
        } else if trailing_comma(s, i) {
            lemma_drop_commas_subseq(s, i + 1, false, false);
            lemma_subseq_skip(drop_trailing_commas(s, i, in_str, esc), s, i, i + 1);
        } else {
            lemma_drop_commas_subseq(s, i + 1, false, false);
            lemma_subseq_cons(s[i], drop_trailing_commas(s, i + 1, false, false), s.skip(i + 1));
        }
    }
}

/// JSONC stripping never adds text: the result is the input with some
/// characters deleted.
pub proof fn strip_jsonc_only_deletes(s: Seq<char>)
    ensures
        is_subseq(spec_strip_jsonc(s), s),
{
    let u = uncomment(s, 0, false, false);
    lemma_uncomment_subseq(s, 0, false, false);
    lemma_drop_commas_subseq(u, 0, false, false);
    assert(s.skip(0) =~= s);
    assert(u.skip(0) =~= u);
    lemma_subseq_trans(spec_strip_jsonc(s), u, s);
}

/// No comment opener and no trailing comma outside string literals, from
/// position `i` in the given string-literal state.
pub open spec fn plain_from(s: Seq<char>, i: int, in_str: bool, esc: bool) -> bool
    decreases s.len() - i,
{
    if i < 0 || i >= s.len() {
        true
    } else if in_str {
        let st = in_string_step(esc, s[i]);
        plain_from(s, i + 1, st.0, st.1)
    } else if s[i] == '"' {
        plain_from(s, i + 1, true, false)
    } else {
        s[i] != '/' && !trailing_comma(s, i) && plain_from(s, i + 1, false, false)
    }
}

proof fn lemma_plain_uncomment(s: Seq<char>, i: int, in_str: bool, esc: bool)
    requires
        0 <= i <= s.len(),
        plain_from(s, i, in_str, esc),
    ensures
        uncomment(s, i, in_str, esc) == s.skip(i),
        drop_trailing_commas(s, i, in_str, esc) == s.skip(i),
    decreases s.len() - i,
{
    if i < s.len() {
        if in_str {
            let st = in_string_step(esc, s[i]);
            lemma_plain_uncomment(s, i + 1, st.0, st.1);
        } else if s[i] == '"' {
            lemma_plain_uncomment(s, i + 1, true, false);
        } else {
            lemma_plain_uncomment(s, i + 1, false, false);
        }
        assert(seq![s[i]] + s.skip(i + 1) =~= s.skip(i));
    } else {
        assert(s.skip(i) =~= Seq::<char>::empty());
    }
}

/// Plain JSON passes through unchanged: a text with no `/` and no trailing
/// comma outside its string literals (where `//` of URLs may occur freely)
/// is returned as it is.
pub proof fn strip_jsonc_keeps_plain_json(s: Seq<char>)
    requires
        plain_from(s, 0, false, false),
    ensures
        spec_strip_jsonc(s) == s,
{
    lemma_plain_uncomment(s, 0, false, false);
    assert(s.skip(0) =~= s);
}

/// Does a `*/` start at `k`?
pub open spec fn closes_at(s: Seq<char>, k: int) -> bool {
    0 <= k && k + 1 < s.len() && s[k] == '*' && s[k + 1] == '/'
}

proof fn lemma_block_close_first(s: Seq<char>, b: int, e: int, k: int, prev_star: bool)
    requires
        0 <= b <= k <= e + 1,
        b <= e,
        closes_at(s, e),
        forall|m: int| b <= m < e ==> !closes_at(s, m),
        prev_star == (k > b && s[k - 1] == '*'),
    ensures
        block_close_from(s, k, prev_star) == e + 2,
    decreases e + 1 - k,
{
    if prev_star && s[k] == '/' {
        assert(closes_at(s, k - 1));
    } else {
        assert(k <= e) by {
            if k == e + 1 {
                assert(s[k - 1] == '*' && s[k] == '/');
            }
        }
        lemma_block_close_first(s, b, e, k + 1, s[k] == '*');
    }
}

/// A block comment outside strings ends at the first `*/` after its `/*`
/// (a `/` or a `*` alone inside it does not end it): stripping from the
/// comment's start gives what stripping from just after that `*/` gives.
pub proof fn block_comment_ends_at_first_close(s: Seq<char>, i: int, e: int)
    requires
        0 <= i,
        i + 1 < s.len(),
        s[i] == '/',
        s[i + 1] == '*',
        i + 2 <= e,
        closes_at(s, e),
        forall|m: int| i + 2 <= m < e ==> !closes_at(s, m),
    ensures
        uncomment(s, i, false, false) == uncomment(s, e + 2, false, false),
{
    lemma_block_close_first(s, i + 2, e, i + 2, false);
}

proof fn lemma_newline_shift(a: Seq<char>, b: Seq<char>, i: int)
    requires
        0 <= i <= b.len(),
    ensures
        newline_from(a + b, a.len() + i) == a.len() + newline_from(b, i),
    decreases b.len() - i,
{
    if i < b.len() {
        assert((a + b)[a.len() + i] == b[i]);
        lemma_newline_shift(a, b, i + 1);
    }
}

proof fn lemma_block_close_shift(a: Seq<char>, b: Seq<char>, i: int, prev_star: bool)
    requires
        0 <= i <= b.len(),
    ensures
        block_close_from(a + b, a.len() + i, prev_star) == a.len() + block_close_from(b, i, prev_star),
    decreases b.len() - i,
{
    if i < b.len() {
        assert((a + b)[a.len() + i] == b[i]);
        lemma_block_close_shift(a, b, i + 1, b[i] == '*');
    }
}

/// Stripping the tail of a text from a position depends only on the tail.
proof fn lemma_uncomment_shift(a: Seq<char>, b: Seq<char>, i: int, in_str: bool, esc: bool)
    requires
        0 <= i <= b.len(),
    ensures
        uncomment(a + b, a.len() + i, in_str, esc) == uncomment(b, i, in_str, esc),
    decreases b.len() - i,
{
    let t = a + b;
    let k = a.len() + i;
    if i < b.len() {
        assert(t[k] == b[i]);
        if i + 1 < b.len() {
            assert(t[k + 1] == b[i + 1]);
        }
        if in_str {
            let st = in_string_step(esc, b[i]);
            lemma_uncomment_shift(a, b, i + 1, st.0, st.1);
        } else if b[i] == '"' {
            lemma_uncomment_shift(a, b, i + 1, true, false);
        } else if b[i] == '/' && i + 1 < b.len() && b[i + 1] == '/' {
            lemma_newline_shift(a, b, i + 1);
            lemma_newline_from(b, i + 1);
            let j = newline_from(b, i + 1);
            if j < b.len() {
                lemma_uncomment_shift(a, b, j + 1, false, false);
            }
        } else if b[i] == '/' && i + 1 < b.len() && b[i + 1] == '*' {
            lemma_block_close_shift(a, b, i + 2, false);
            lemma_block_close_from(b, i + 2, false);
            let j = block_close_from(b, i + 2, false);
            if j > i {
                lemma_uncomment_shift(a, b, j, false, false);
            }
        } else {
            lemma_uncomment_shift(a, b, i + 1, false, false);
        }
    }
}

proof fn lemma_plain_prefix(p: Seq<char>, t: Seq<char>, i: int)
    requires
        0 <= i <= p.len(),
        p.len() <= t.len(),
        t.take(p.len() as int) == p,
        forall|k: int| 0 <= k < p.len() ==> p[k] != '"' && p[k] != '/',
    ensures
        uncomment(t, i, false, false) == p.skip(i) + uncomment(t, p.len() as int, false, false),
    decreases p.len() - i,
{
    if i < p.len() {
        assert(t[i] == t.take(p.len() as int)[i]);
        lemma_plain_prefix(p, t, i + 1);
        assert(p.skip(i) =~= seq![p[i]] + p.skip(i + 1));
    } else {
        assert(p.skip(i) =~= Seq::<char>::empty());
    }
}

/// Removing a block comment is the same as never having written it: for a
/// plain prefix `p` (no `"` and no `/`), a comment body `c` holding no `*/`,
/// and any rest `s`, `p + "/*" + c + "*/" + s` strips to what `p + s` strips to.
pub proof fn strip_jsonc_drops_block_comment(p: Seq<char>, c: Seq<char>, s: Seq<char>)
    requires
        forall|k: int| 0 <= k < p.len() ==> p[k] != '"' && p[k] != '/',
        forall|m: int| !#[trigger] closes_at(c, m),
    ensures
        spec_strip_jsonc(p + seq!['/', '*'] + c + seq!['*', '/'] + s) == spec_strip_jsonc(p + s),
{
    let head = p + seq!['/', '*'] + c + seq!['*', '/'];
    let t1 = head + s;
    let t2 = p + s;
    let i = p.len() as int;
    let e = i + 2 + c.len();
    assert(t1 == p + seq!['/', '*'] + c + seq!['*', '/'] + s);
    assert(t1.take(i) =~= p);
    assert(t2.take(i) =~= p);
    lemma_plain_prefix(p, t1, 0);
    lemma_plain_prefix(p, t2, 0);
    assert(t1[i] == '/' && t1[i + 1] == '*');
    assert(t1[e] == '*' && t1[e + 1] == '/');
    assert forall|m: int| i + 2 <= m < e implies !closes_at(t1, m) by {
        assert(t1[m] == c[m - i - 2]);
        if m + 1 < e {
            assert(t1[m + 1] == c[m + 1 - i - 2]);
            assert(!closes_at(c, m - i - 2));
        } else {
            assert(t1[m + 1] == '*');
        }
    }
    block_comment_ends_at_first_close(t1, i, e);
    assert(head.len() == e + 2);
    lemma_uncomment_shift(head, s, 0, false, false);
    lemma_uncomment_shift(p, s, 0, false, false);
    assert(p.skip(0) =~= p);
}

} // verus!
