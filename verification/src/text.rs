//! Character-level text helpers shared by the parsers and the label builders.
//!
//! Text is handled as `Seq<char>` in specifications; the executable code works
//! on `Vec<char>` and converts at the edges.
use vstd::prelude::*;

verus! {

broadcast use vstd::string::group_string_axioms;

/// The Unicode `White_Space` property, which is what `char::is_whitespace` tests.
pub open spec fn is_ws(c: char) -> bool {
    let u = c as u32;
    ||| 0x09 <= u <= 0x0d
    ||| u == 0x20
    ||| u == 0x85
    ||| u == 0xa0
    ||| u == 0x1680
    ||| 0x2000 <= u <= 0x200a
    ||| u == 0x2028
    ||| u == 0x2029
    ||| u == 0x202f
    ||| u == 0x205f
    ||| u == 0x3000
}

/// Executable counterpart of [`is_ws`].
pub fn is_whitespace(c: char) -> (r: bool)
    ensures
        r == is_ws(c),
{
    let u = c as u32;
    (0x09 <= u && u <= 0x0d) || u == 0x20 || u == 0x85 || u == 0xa0 || u == 0x1680 || (0x2000
        <= u && u <= 0x200a) || u == 0x2028 || u == 0x2029 || u == 0x202f || u == 0x205f || u
        == 0x3000
}

pub open spec fn is_digit(c: char) -> bool {
    '0' <= c && c <= '9'
}

/// The characters of a string slice, in order.
pub fn chars_of(s: &str) -> (v: Vec<char>)
    ensures
        v@ == s@,
{
    let mut v: Vec<char> = Vec::new();
    for c in it: s.chars()
        invariant
            v@ == it.seq().take(it.index() as int),
    {
        v.push(c);
        assert(v@ =~= it.seq().take(it.index() as int + 1));
    }
    assert(v@ =~= s@);
    v
}

/// Builds a `String` from characters (`FromIterator<char>` for `String`).
#[verifier::external_body]
pub(crate) fn string_of(v: &[char]) -> (s: String)
    ensures
        s@ == v@,
{
    v.iter().collect()
}

/// The name for what `str::to_lowercase` returns (full Unicode case mapping).
pub uninterp spec fn spec_lowercase(s: Seq<char>) -> Seq<char>;

/// `str::to_lowercase`: the Unicode lowercase mapping of the whole string.
/// Its result is named by [`spec_lowercase`]; nothing more is claimed of it.
#[verifier::external_body]
pub(crate) fn lowercase(s: &str) -> (r: String)
    ensures
        r@ == spec_lowercase(s@),
{
    s.to_lowercase()
}

/// Decimal digits of a natural number, most significant first.
pub open spec fn dec(n: nat) -> Seq<char>
    decreases n,
{
    if n < 10 {
        seq![digit_char(n)]
    } else {
        dec(n / 10) + seq![digit_char(n % 10)]
    }
}

pub open spec fn digit_char(d: nat) -> char {
    if d == 0 {
        '0'
    } else if d == 1 {
        '1'
    } else if d == 2 {
        '2'
    } else if d == 3 {
        '3'
    } else if d == 4 {
        '4'
    } else if d == 5 {
        '5'
    } else if d == 6 {
        '6'
    } else if d == 7 {
        '7'
    } else if d == 8 {
        '8'
    } else {
        '9'
    }
}

/// Lower-case hexadecimal digit.
pub open spec fn hex_char(d: nat) -> char {
    if d < 10 {
        digit_char(d)
    } else if d == 10 {
        'a'
    } else if d == 11 {
        'b'
    } else if d == 12 {
        'c'
    } else if d == 13 {
        'd'
    } else if d == 14 {
        'e'
    } else {
        'f'
    }
}

/// Decimal text of a signed integer, with a leading `-` when negative.
pub open spec fn dec_int(n: int) -> Seq<char> {
    if n < 0 {
        seq!['-'] + dec((-n) as nat)
    } else {
        dec(n as nat)
    }
}

fn digit_of(d: u64) -> (c: char)
    requires
        d < 10,
    ensures
        c == digit_char(d as nat),
{
    if d == 0 {
        '0'
    } else if d == 1 {
        '1'
    } else if d == 2 {
        '2'
    } else if d == 3 {
        '3'
    } else if d == 4 {
        '4'
    } else if d == 5 {
        '5'
    } else if d == 6 {
        '6'
    } else if d == 7 {
        '7'
    } else if d == 8 {
        '8'
    } else {
        '9'
    }
}

/// Appends the decimal digits of `n`.
pub fn push_dec(out: &mut Vec<char>, n: u64)
    ensures
        final(out)@ == old(out)@ + dec(n as nat),
    decreases n,
{
    if n >= 10 {
        push_dec(out, n / 10);
    }
    out.push(digit_of(n % 10));
    assert(final(out)@ =~= old(out)@ + dec(n as nat));
}

/// Appends the decimal text of a signed `n`.
pub fn push_dec_i64(out: &mut Vec<char>, n: i64)
    ensures
        final(out)@ == old(out)@ + dec_int(n as int),
{
    if n < 0 {
        out.push('-');
        let m: u64 = if n == i64::MIN {
            9223372036854775808u64
        } else {
            (-n) as u64
        };
        push_dec(out, m);
        assert(final(out)@ =~= old(out)@ + dec_int(n as int));
    } else {
        push_dec(out, n as u64);
    }
}

/// Appends all characters of `s`.
pub fn push_str(out: &mut Vec<char>, s: &str)
    ensures
        final(out)@ == old(out)@ + s@,
{
    let v = chars_of(s);
    push_all(out, &v);
}

/// Appends all characters of `v`.
pub fn push_all(out: &mut Vec<char>, v: &Vec<char>)
    ensures
        final(out)@ == old(out)@ + v@,
{
    let ghost start = out@;
    let mut i: usize = 0;
    while i < v.len()
        invariant
            i <= v.len(),
            out@ == start + v@.subrange(0, i as int),
        decreases v.len() - i,
    {
        out.push(v[i]);
        i = i + 1;
        assert(out@ =~= start + v@.subrange(0, i as int));
    }
    assert(v@.subrange(0, v.len() as int) =~= v@);
}

/// Decimal text of an unsigned integer.
pub fn dec_string(n: u64) -> (s: String)
    ensures
        s@ == dec(n as nat),
{
    let mut v: Vec<char> = Vec::new();
    push_dec(&mut v, n);
    assert(v@ =~= dec(n as nat));
    string_of(&v)
}

/// Index of the first character at or after `i` that is not whitespace (or `s.len()`).
pub open spec fn skip_ws(s: Seq<char>, i: int) -> int
    decreases s.len() - i,
{
    if i < 0 || i >= s.len() {
        if i < 0 { 0 } else { s.len() as int }
    } else if is_ws(s[i]) {
        skip_ws(s, i + 1)
    } else {
        i
    }
}

/// One past the last character before `j` that is not whitespace (or `lo`).
pub open spec fn trim_end_at(s: Seq<char>, lo: int, j: int) -> int
    decreases j - lo,
{
    if j <= lo {
        lo
    } else if is_ws(s[j - 1]) {
        trim_end_at(s, lo, j - 1)
    } else {
        j
    }
}

/// `str::trim`: leading and trailing whitespace removed.
pub open spec fn trim(s: Seq<char>) -> Seq<char> {
    let a = skip_ws(s, 0);
    s.subrange(a, trim_end_at(s, a, s.len() as int))
}

pub proof fn lemma_skip_ws_bounds(s: Seq<char>, i: int)
    requires
        0 <= i <= s.len(),
    ensures
        i <= skip_ws(s, i) <= s.len(),
        skip_ws(s, i) < s.len() ==> !is_ws(s[skip_ws(s, i)]),
        forall|k: int| i <= k < skip_ws(s, i) ==> is_ws(#[trigger] s[k]),
    decreases s.len() - i,
{
    if i < s.len() && is_ws(s[i]) {
        lemma_skip_ws_bounds(s, i + 1);
    }
}

pub proof fn lemma_trim_end_bounds(s: Seq<char>, lo: int, j: int)
    requires
        0 <= lo <= j <= s.len(),
    ensures
        lo <= trim_end_at(s, lo, j) <= j,
        trim_end_at(s, lo, j) > lo ==> !is_ws(s[trim_end_at(s, lo, j) - 1]),
        forall|k: int| trim_end_at(s, lo, j) <= k < j ==> is_ws(#[trigger] s[k]),
    decreases j - lo,
{
    if j > lo && is_ws(s[j - 1]) {
        lemma_trim_end_bounds(s, lo, j - 1);
    }
}

/// Bounds of the trimmed part of `v[lo..hi]`.
pub fn trim_bounds(v: &Vec<char>, lo: usize, hi: usize) -> (r: (usize, usize))
    requires
        lo <= hi <= v.len(),
    ensures
        r.0 == skip_ws(v@.subrange(0, hi as int), lo as int),
        r.1 == trim_end_at(v@.subrange(0, hi as int), r.0 as int, hi as int),
        lo <= r.0 <= r.1 <= hi,
{
    let ghost s = v@.subrange(0, hi as int);
    let mut a = lo;
    while a < hi && is_whitespace(v[a])
        invariant
            lo <= a <= hi <= v.len(),
            s == v@.subrange(0, hi as int),
            skip_ws(s, a as int) == skip_ws(s, lo as int),
        decreases hi - a,
    {
        a = a + 1;
    }
    let mut b = hi;
    while b > a && is_whitespace(v[b - 1])
        invariant
            lo <= a <= b <= hi <= v.len(),
            s == v@.subrange(0, hi as int),
            trim_end_at(s, a as int, b as int) == trim_end_at(s, a as int, hi as int),
        decreases b - a,
    {
        b = b - 1;
    }
    (a, b)
}

/// `str::trim` on a character vector.
pub fn trim_chars(v: &Vec<char>) -> (r: Vec<char>)
    ensures
        r@ == trim(v@),
{
    let (a, b) = trim_bounds(v, 0, v.len());
    assert(v@.subrange(0, v.len() as int) =~= v@);
    slice_chars(v, a, b)
}

/// `str::trim` on a string.
pub fn trim_str(s: &str) -> (r: String)
    ensures
        r@ == trim(s@),
{
    let v = chars_of(s);
    let t = trim_chars(&v);
    string_of(&t)
}

/// The characters `v[a..b]`.
pub fn slice_chars(v: &Vec<char>, a: usize, b: usize) -> (r: Vec<char>)
    requires
        a <= b <= v.len(),
    ensures
        r@ == v@.subrange(a as int, b as int),
{
    let mut r: Vec<char> = Vec::new();
    let mut i = a;
    while i < b
        invariant
            a <= i <= b <= v.len(),
            r@ == v@.subrange(a as int, i as int),
        decreases b - i,
    {
        r.push(v[i]);
        i = i + 1;
        assert(r@ =~= v@.subrange(a as int, i as int));
    }
    r
}

/// Do two character sequences agree?
pub fn chars_eq(a: &Vec<char>, b: &Vec<char>) -> (r: bool)
    ensures
        r == (a@ == b@),
{
    if a.len() != b.len() {
        return false;
    }
    let mut i: usize = 0;
    while i < a.len()
        invariant
            a.len() == b.len(),
            i <= a.len(),
            forall|k: int| 0 <= k < i ==> a@[k] == b@[k],
        decreases a.len() - i,
    {
        if a[i] != b[i] {
            return false;
        }
        i = i + 1;
    }
    assert(a@ =~= b@);
    true
}

/// Is `p` a prefix of `s` (`str::starts_with`)?
pub open spec fn starts_with(s: Seq<char>, p: Seq<char>) -> bool {
    p.len() <= s.len() && s.subrange(0, p.len() as int) == p
}

/// Does `p` occur in `s` at position `i`?
pub open spec fn occurs_at(s: Seq<char>, p: Seq<char>, i: int) -> bool {
    0 <= i && i + p.len() <= s.len() && s.subrange(i, i + p.len()) == p
}

/// Does `p` occur anywhere in `s` (`str::contains`)?
pub open spec fn contains_seq(s: Seq<char>, p: Seq<char>) -> bool {
    exists|i: int| occurs_at(s, p, i)
}

/// Does `p` occur in `s` at position `i` (executable)?
pub fn matches_at(s: &Vec<char>, p: &Vec<char>, i: usize) -> (r: bool)
    ensures
        r == occurs_at(s@, p@, i as int),
{
    if i > s.len() || p.len() > s.len() - i {
        return false;
    }
    let mut k: usize = 0;
    while k < p.len()
        invariant
            i + p.len() <= s.len(),
            k <= p.len(),
            forall|j: int| 0 <= j < k ==> s@[i + j] == p@[j],
        decreases p.len() - k,
    {
        if s[i + k] != p[k] {
            assert(s@.subrange(i as int, i + p.len())[k as int] != p@[k as int]);
            return false;
        }
        k = k + 1;
    }
    assert(s@.subrange(i as int, i + p.len()) =~= p@);
    true
}

/// `str::starts_with` on character vectors.
pub fn has_prefix(s: &Vec<char>, p: &Vec<char>) -> (r: bool)
    ensures
        r == starts_with(s@, p@),
{
    matches_at(s, p, 0)
}

/// `str::contains` on character vectors.
pub fn has_infix(s: &Vec<char>, p: &Vec<char>) -> (r: bool)
    ensures
        r == contains_seq(s@, p@),
{
    if p.len() > s.len() {
        return false;
    }
    if p.len() == 0 {
        assert(s@.subrange(0, 0) =~= p@);
        assert(occurs_at(s@, p@, 0));
        return true;
    }
    let last = s.len() - p.len();
    let mut i: usize = 0;
    while i <= last
        invariant
            last == s.len() - p.len(),
            0 < p.len() <= s.len(),
            i <= last + 1,
            forall|j: int| 0 <= j < i ==> !occurs_at(s@, p@, j),
        decreases last + 1 - i,
    {
        if matches_at(s, p, i) {
            return true;
        }
        i = i + 1;
    }
    assert forall|j: int| !occurs_at(s@, p@, j) by {
        if 0 <= j && j + p@.len() <= s@.len() {
            assert(j < i);
        }
    }
    false
}

/// Index of the first whitespace character at or after `i` (or `s.len()`).
pub open spec fn word_end(s: Seq<char>, i: int) -> int
    decreases s.len() - i,
{
    if i < 0 || i >= s.len() {
        if i < 0 { 0 } else { s.len() as int }
    } else if is_ws(s[i]) {
        i
    } else {
        word_end(s, i + 1)
    }
}

pub proof fn lemma_word_end(s: Seq<char>, i: int)
    requires
        0 <= i <= s.len(),
    ensures
        i <= word_end(s, i) <= s.len(),
        word_end(s, i) < s.len() ==> is_ws(s[word_end(s, i)]),
        forall|k: int| i <= k < word_end(s, i) ==> !is_ws(#[trigger] s[k]),
    decreases s.len() - i,
{
    if i < s.len() && !is_ws(s[i]) {
        lemma_word_end(s, i + 1);
    }
}

/// `str::split_whitespace` from position `i`: the maximal runs of non-whitespace.
pub open spec fn words_from(s: Seq<char>, i: int) -> Seq<Seq<char>>
    decreases s.len() - i,
{
    let a = skip_ws(s, i);
    if i < 0 || i > s.len() || a >= s.len() {
        Seq::empty()
    } else {
        let b = word_end(s, a);
        proof {
            lemma_skip_ws_bounds(s, i);
            lemma_word_end(s, a);
        }
        if b <= i {
            Seq::empty()
        } else {
            seq![s.subrange(a, b)] + words_from(s, b)
        }
    }
}

/// `str::split_whitespace`.
pub open spec fn words(s: Seq<char>) -> Seq<Seq<char>> {
    words_from(s, 0)
}

/// The words of `v` (`split_whitespace`).
pub fn split_words(v: &Vec<char>) -> (r: Vec<Vec<char>>)
    ensures
        r@.map_values(|w: Vec<char>| w@) == words(v@),
{
    let n = v.len();
    let mut r: Vec<Vec<char>> = Vec::new();
    let mut i: usize = 0;
    while i < n
        invariant
            n == v.len(),
            i <= n,
            r@.map_values(|w: Vec<char>| w@) + words_from(v@, i as int) == words(v@),
        decreases n - i,
    {
        let ghost i0 = i as int;
        let ghost before = r@.map_values(|w: Vec<char>| w@);
        let mut a = i;
        while a < n && is_whitespace(v[a])
            invariant
                n == v.len(),
                i0 <= a <= n,
                skip_ws(v@, a as int) == skip_ws(v@, i0),
            decreases n - a,
        {
            a = a + 1;
        }
        proof {
            lemma_skip_ws_bounds(v@, i0);
        }
        if a >= n {
            i = n;
            assert(words_from(v@, i0) =~= Seq::<Seq<char>>::empty());
            assert(words_from(v@, n as int) =~= Seq::<Seq<char>>::empty());
        } else {
            let mut b = a;
            while b < n && !is_whitespace(v[b])
                invariant
                    n == v.len(),
                    a <= b <= n,
                    word_end(v@, b as int) == word_end(v@, a as int),
                decreases n - b,
            {
                b = b + 1;
            }
            proof {
                lemma_word_end(v@, a as int);
            }
            let w = slice_chars(v, a, b);
            r.push(w);
            i = b;
            assert(r@.map_values(|w: Vec<char>| w@) =~= before + seq![v@.subrange(a as int, b as int)]);
        }
    }
    assert(words_from(v@, n as int) =~= Seq::<Seq<char>>::empty());
    assert(r@.map_values(|w: Vec<char>| w@) =~= words(v@));
    r
}

/// `[T]::join(sep)` for texts.
pub open spec fn join(list: Seq<Seq<char>>, sep: Seq<char>) -> Seq<char>
    decreases list.len(),
{
    if list.len() == 0 {
        Seq::empty()
    } else if list.len() == 1 {
        list[0]
    } else {
        join(list.drop_last(), sep) + sep + list.last()
    }
}

/// Joins texts with a separator.
pub fn join_chars(list: &Vec<Vec<char>>, sep: &Vec<char>) -> (r: Vec<char>)
    ensures
        r@ == join(list@.map_values(|w: Vec<char>| w@), sep@),
{
    let ghost l = list@.map_values(|w: Vec<char>| w@);
    let mut out: Vec<char> = Vec::new();
    let mut i: usize = 0;
    while i < list.len()
        invariant
            i <= list.len(),
            l == list@.map_values(|w: Vec<char>| w@),
            out@ == join(l.take(i as int), sep@),
        decreases list.len() - i,
    {
        if i > 0 {
            push_all(&mut out, sep);
        }
        push_all(&mut out, &list[i]);
        assert(l.take(i + 1).drop_last() =~= l.take(i as int));
        assert(out@ =~= join(l.take(i + 1), sep@));
        i = i + 1;
    }
    assert(l.take(list.len() as int) =~= l);
    out
}

/// `a` can be obtained from `b` by deleting elements.
pub open spec fn is_subseq<A>(a: Seq<A>, b: Seq<A>) -> bool
    decreases b.len(),
{
    if a.len() == 0 {
        true
    } else if b.len() == 0 {
        false
    } else {
        (a[0] == b[0] && is_subseq(a.drop_first(), b.drop_first())) || is_subseq(
            a,
            b.drop_first(),
        )
    }
}

/// A common first element can be added to both sides.
pub proof fn lemma_subseq_cons<A>(x: A, a: Seq<A>, b: Seq<A>)
    requires
        is_subseq(a, b),
    ensures
        is_subseq(seq![x] + a, seq![x] + b),
{
    assert((seq![x] + a).drop_first() =~= a);
    assert((seq![x] + b).drop_first() =~= b);
}

/// Deleting a prefix of the larger side keeps the relation in the other direction:
/// a subsequence of `b.skip(j)` is a subsequence of `b.skip(i)` for `i <= j`.
pub proof fn lemma_subseq_skip<A>(a: Seq<A>, b: Seq<A>, i: int, j: int)
    requires
        0 <= i <= j <= b.len(),
        is_subseq(a, b.skip(j)),
    ensures
        is_subseq(a, b.skip(i)),
    decreases j - i,
{
    if i < j {
        lemma_subseq_skip(a, b, i + 1, j);
        assert(b.skip(i).drop_first() =~= b.skip(i + 1));
    }
}

/// The subsequence relation is transitive.
pub proof fn lemma_subseq_trans<A>(a: Seq<A>, b: Seq<A>, c: Seq<A>)
    requires
        is_subseq(a, b),
        is_subseq(b, c),
    ensures
        is_subseq(a, c),
    decreases c.len(), b.len(),
{
    if a.len() == 0 {
    } else if b.len() == 0 {
    } else if c.len() == 0 {
    } else if b[0] == c[0] && is_subseq(b.drop_first(), c.drop_first()) {
        if a[0] == b[0] && is_subseq(a.drop_first(), b.drop_first()) {
            lemma_subseq_trans(a.drop_first(), b.drop_first(), c.drop_first());
        } else {
            lemma_subseq_trans(a, b.drop_first(), c.drop_first());
        }
    } else {
        lemma_subseq_trans(a, b, c.drop_first());
    }
}

/// Every sequence is a subsequence of itself.
pub proof fn lemma_subseq_refl<A>(a: Seq<A>)
    ensures
        is_subseq(a, a),
    decreases a.len(),
{
    if a.len() > 0 {
        lemma_subseq_refl(a.drop_first());
    }
}

} // verus!
