//! Launcher: desktop entries, their parse and ordering, and the fuzzy search.
use vstd::prelude::*;
use crate::jsonc::{lemma_newline_from, newline_from};
use crate::text::{
    chars_of, contains_seq, dec, has_infix, has_prefix, is_subseq, lowercase, push_dec, push_str,
    skip_ws, slice_chars, spec_lowercase, split_words, starts_with, string_of, trim, trim_bounds, words,
};

verus! {

/// An application entry.
pub struct Entry {
    pub name: String,
    /// The program to run (the first argument of the `Exec=` line).
    pub command: String,
    pub icon: String,
    pub desktop_id: String,
}

/// Greedy subsequence scan of the query from its `j`-th character over `n`,
/// as the search does it: the scan succeeds when the last query character is
/// matched, or when the character still wanted at the end is NUL.
pub open spec fn greedy(n: Seq<char>, q: Seq<char>, j: int) -> bool
    decreases n.len(),
{
    if n.len() == 0 {
        0 <= j < q.len() && q[j] == '\0'
    } else if 0 <= j < q.len() && n[0] == q[j] {
        if j + 1 >= q.len() {
            true
        } else {
            greedy(n.drop_first(), q, j + 1)
        }
    } else {
        greedy(n.drop_first(), q, j)
    }
}

/// Score of a lowercased name against a non-empty lowercased query: 0 for a
/// prefix, 1 for a substring, 2 for a (greedy) subsequence, none otherwise.
pub open spec fn score(n: Seq<char>, q: Seq<char>) -> Option<int> {
    if contains_seq(n, q) {
        Some(
            if starts_with(n, q) {
                0
            } else {
                1
            },
        )
    } else if greedy(n, q, 0) {
        Some(2)
    } else {
        None
    }
}

/// The score of entry `e` for query `q` (both sides lowercased).
pub open spec fn entry_score(e: Entry, q: Seq<char>) -> Option<int> {
    score(spec_lowercase(e.name@), q)
}

/// Length in bytes of a text's UTF-8 encoding (`str::len`).
pub open spec fn byte_len(s: Seq<char>) -> usize {
    vstd::utf8::encode_utf8(s).len() as usize
}

/// The ordering key of a matching entry: its score, then its name's length in bytes.
pub open spec fn key_le(es: Seq<Entry>, q: Seq<char>, a: int, b: int) -> bool {
    let sa = entry_score(es[a], q)->0;
    let sb = entry_score(es[b], q)->0;
    sa < sb || (sa == sb && byte_len(es[a].name@) <= byte_len(es[b].name@))
}

/// Stable insertion of index `x` into an ordered index list: after every
/// element whose key is not greater.
pub open spec fn insert_by_key(es: Seq<Entry>, q: Seq<char>, l: Seq<int>, x: int) -> Seq<int>
    decreases l.len(),
{
    if l.len() == 0 {
        seq![x]
    } else if key_le(es, q, l.last(), x) {
        l.push(x)
    } else {
        insert_by_key(es, q, l.drop_last(), x).push(l.last())
    }
}

proof fn lemma_insert_at(es: Seq<Entry>, q: Seq<char>, l: Seq<int>, x: int, p: int)
    requires
        0 <= p <= l.len(),
        forall|k: int| p <= k < l.len() ==> !key_le(es, q, #[trigger] l[k], x),
        p > 0 ==> key_le(es, q, l[p - 1], x),
    ensures
        insert_by_key(es, q, l, x) == l.take(p) + seq![x] + l.skip(p),
    decreases l.len(),
{
    if l.len() == 0 {
        assert(l.take(p) + seq![x] + l.skip(p) =~= seq![x]);
    } else if p == l.len() {
        assert(l.take(p) + seq![x] + l.skip(p) =~= l.push(x));
    } else {
        assert(!key_le(es, q, l[l.len() - 1], x));
        let dl = l.drop_last();
        assert forall|k: int| p <= k < dl.len() implies !key_le(es, q, #[trigger] dl[k], x) by {
            assert(dl[k] == l[k]);
        }
        lemma_insert_at(es, q, dl, x, p);
        assert((dl.take(p) + seq![x] + dl.skip(p)).push(l.last()) =~= l.take(p) + seq![x]
            + l.skip(p));
    }
}

/// Indices of the first `n` entries that match, stably sorted by key.
pub open spec fn ranked(es: Seq<Entry>, q: Seq<char>, n: int) -> Seq<int>
    decreases n,
{
    if n <= 0 {
        Seq::empty()
    } else {
        let prev = ranked(es, q, n - 1);
        if entry_score(es[n - 1], q) is Some {
            insert_by_key(es, q, prev, n - 1)
        } else {
            prev
        }
    }
}

/// The indices of the search result: at most 20 matches, best first; none for
/// an empty query.
pub open spec fn fuzzy_indices(es: Seq<Entry>, query: Seq<char>) -> Seq<int> {
    let q = spec_lowercase(query);
    if q.len() == 0 {
        Seq::empty()
    } else {
        let r = ranked(es, q, es.len() as int);
        if r.len() <= 20 {
            r
        } else {
            r.take(20)
        }
    }
}

/// Greedy scan (see [`greedy`]).
fn greedy_exec(n: &Vec<char>, q: &Vec<char>) -> (r: bool)
    requires
        q.len() > 0,
    ensures
        r == greedy(n@, q@, 0),
{
    let mut j: usize = 0;
    let mut i: usize = 0;
    assert(n@.skip(0) =~= n@);
    while i < n.len()
        invariant
            q.len() > 0,
            i <= n.len(),
            j < q.len(),
            greedy(n@.skip(i as int), q@, j as int) == greedy(n@, q@, 0),
        decreases n.len() - i,
    {
        assert(n@.skip(i as int).drop_first() =~= n@.skip(i + 1));
        if n[i] == q[j] {
            if j + 1 >= q.len() {
                return true;
            }
            j = j + 1;
        }
        i = i + 1;
    }
    assert(n@.skip(i as int) =~= Seq::<char>::empty());
    q[j] == '\0'
}

/// Score of a lowercased name (see [`score`]).
fn score_exec(n: &Vec<char>, q: &Vec<char>) -> (r: Option<u8>)
    requires
        q.len() > 0,
    ensures
        match r {
            Some(s) => score(n@, q@) == Some(s as int),
            None => score(n@, q@) is None,
        },
{
    if has_infix(n, q) {
        if has_prefix(n, q) {
            Some(0)
        } else {
            Some(1)
        }
    } else if greedy_exec(n, q) {
        Some(2)
    } else {
        None
    }
}

/// Subsequence fuzzy match (case-insensitive): prefix matches first, then
/// substring matches, then subsequence matches, each group by name length;
/// at most 20 results; nothing for an empty query.
pub fn fuzzy<'a>(entries: &'a [Entry], query: &str) -> (r: Vec<&'a Entry>)
    ensures
        r@.len() == fuzzy_indices(entries@, query@).len(),
        forall|k: int|
            0 <= k < r@.len() ==> *r@[k] == entries@[#[trigger] fuzzy_indices(entries@, query@)[k]],
{
    let ql = lowercase(query);
    let q = chars_of(ql.as_str());
    let mut out: Vec<&'a Entry> = Vec::new();
    if q.len() == 0 {
        return out;
    }
    // keys of the matching entries, kept in ranked order
    let mut idx: Vec<usize> = Vec::new();
    let mut sc: Vec<u8> = Vec::new();
    let mut ln: Vec<usize> = Vec::new();
    let ghost es = entries@;
    let mut i: usize = 0;
    while i < entries.len()
        invariant
            q@ == spec_lowercase(query@),
            q@.len() > 0,
            es == entries@,
            i <= entries.len(),
            idx@.len() == sc@.len() == ln@.len(),
            idx@.map_values(|x: usize| x as int) == ranked(es, q@, i as int),
            forall|k: int|
                #![trigger idx@[k]]
                0 <= k < idx@.len() ==> idx@[k] < i && entry_score(es[idx@[k] as int], q@) == Some(
                    sc@[k] as int,
                ) && ln@[k] == byte_len(es[idx@[k] as int].name@),
        decreases entries.len() - i,
    {
        let nl = lowercase(entries[i].name.as_str());
        let n = chars_of(nl.as_str());
        match score_exec(&n, &q) {
            Some(s) => {
                let len = entries[i].name.as_str().len();
                let ghost l = idx@.map_values(|x: usize| x as int);
                assert forall|k: int| 0 <= k < idx@.len() implies entry_score(
                    es[idx@[k] as int],
                    q@,
                ) == Some(sc@[k] as int) && ln@[k] == byte_len(es[idx@[k] as int].name@) by {
                    assert(idx@[k] < i);
                }
                // insert after every element with a key not greater
                let mut pos = idx.len();
                while pos > 0 && (sc[pos - 1] > s || (sc[pos - 1] == s && ln[pos - 1] > len))
                    invariant
                        pos <= idx@.len(),
                        idx@.len() == sc@.len() == ln@.len(),
                        l == idx@.map_values(|x: usize| x as int),
                        forall|k: int|
                            pos <= k < idx@.len() ==> !key_le(es, q@, #[trigger] l[k], i as int),
                        forall|k: int|
                            #![trigger idx@[k]]
                            0 <= k < idx@.len() ==> entry_score(es[idx@[k] as int], q@) == Some(
                                sc@[k] as int,
                            ) && ln@[k] == byte_len(es[idx@[k] as int].name@),
                        entry_score(es[i as int], q@) == Some(s as int),
                        len == byte_len(es[i as int].name@),
                    decreases pos,
                {
                    pos = pos - 1;
                    assert(l[pos as int] == idx@[pos as int] as int);
                }
                proof {
                    if pos > 0 {
                        assert(l[pos - 1] == idx@[pos - 1] as int);
                    }
                    lemma_insert_at(es, q@, l, i as int, pos as int);
                }
                let ghost oi = idx@;
                let ghost os = sc@;
                let ghost ol = ln@;
                idx.insert(pos, i);
                sc.insert(pos, s);
                ln.insert(pos, len);
                assert(idx@.map_values(|x: usize| x as int) =~= l.take(pos as int) + seq![i as int]
                    + l.skip(pos as int));
                assert forall|k: int| 0 <= k < idx@.len() implies idx@[k] < i + 1
                    && entry_score(es[idx@[k] as int], q@) == Some(sc@[k] as int) && ln@[k]
                    == byte_len(es[idx@[k] as int].name@) by {
                    if k < pos {
                        assert(idx@[k] == oi[k] && sc@[k] == os[k] && ln@[k] == ol[k]);
                    } else if k > pos {
                        assert(idx@[k] == oi[k - 1] && sc@[k] == os[k - 1] && ln@[k] == ol[k - 1]);
                    }
                }
            },
            None => {},
        }
        i = i + 1;
    }
    let ghost r = ranked(es, q@, es.len() as int);
    assert forall|m: int| 0 <= m < idx@.len() implies idx@[m] < es.len() by {}
    let mut k: usize = 0;
    while k < idx.len() && k < 20
        invariant
            k <= idx.len(),
            k <= 20,
            es == entries@,
            idx@.map_values(|x: usize| x as int) == r,
            forall|m: int| 0 <= m < idx@.len() ==> idx@[m] < es.len(),
            out@.len() == k,
            forall|m: int| 0 <= m < k ==> *out@[m] == es[r[m]],
        decreases idx.len() - k,
    {
        assert(r[k as int] == idx@[k as int] as int);
        out.push(&entries[idx[k]]);
        k = k + 1;
    }
    let ghost fi = fuzzy_indices(entries@, query@);
    assert(r.len() == idx@.len());
    assert(fi =~= if r.len() <= 20 {
        r
    } else {
        r.take(20)
    });
    assert(out@.len() == fi.len());
    assert forall|m: int| 0 <= m < out@.len() implies *out@[m] == entries@[#[trigger] fi[m]] by {
        assert(fi[m] == r[m]);
    }
    out
}

/// An index list is ordered by key.
pub open spec fn sorted_by_key(es: Seq<Entry>, q: Seq<char>, l: Seq<int>) -> bool {
    forall|a: int, b: int| 0 <= a < b < l.len() ==> key_le(es, q, #[trigger] l[a], #[trigger] l[b])
}

proof fn lemma_insert_members(es: Seq<Entry>, q: Seq<char>, l: Seq<int>, x: int)
    ensures
        insert_by_key(es, q, l, x).len() == l.len() + 1,
        insert_by_key(es, q, l, x).contains(x),
        forall|y: int| #[trigger] l.contains(y) ==> insert_by_key(es, q, l, x).contains(y),
        forall|i: int|
            0 <= i < l.len() + 1 ==> #[trigger] insert_by_key(es, q, l, x)[i] == x || l.contains(
                insert_by_key(es, q, l, x)[i],
            ),
    decreases l.len(),
{
    let r = insert_by_key(es, q, l, x);
    if l.len() == 0 {
        assert(r[0] == x);
    } else if key_le(es, q, l.last(), x) {
        assert(r[l.len() as int] == x);
        assert forall|y: int| #[trigger] l.contains(y) implies r.contains(y) by {
            let j = choose|j: int| 0 <= j < l.len() && l[j] == y;
            assert(r[j] == y);
        }
        assert forall|i: int| 0 <= i < l.len() + 1 implies #[trigger] r[i] == x || l.contains(r[i]) by {
            if i < l.len() {
                assert(r[i] == l[i]);
            }
        }
    } else {
        let dl = l.drop_last();
        let ri = insert_by_key(es, q, dl, x);
        lemma_insert_members(es, q, dl, x);
        let j0 = choose|j: int| 0 <= j < ri.len() && ri[j] == x;
        assert(r[j0] == x);
        assert forall|y: int| #[trigger] l.contains(y) implies r.contains(y) by {
            let j = choose|j: int| 0 <= j < l.len() && l[j] == y;
            if j == l.len() - 1 {
                assert(r[l.len() as int] == y);
            } else {
                assert(dl[j] == y);
                assert(dl.contains(y));
                let k = choose|k: int| 0 <= k < ri.len() && ri[k] == y;
                assert(r[k] == y);
            }
        }
        assert forall|i: int| 0 <= i < l.len() + 1 implies #[trigger] r[i] == x || l.contains(r[i]) by {
            if i < l.len() {
                assert(r[i] == ri[i]);
                if ri[i] != x {
                    assert(dl.contains(ri[i]));
                    let k = choose|k: int| 0 <= k < dl.len() && dl[k] == ri[i];
                    assert(l[k] == ri[i]);
                }
            } else {
                assert(r[i] == l.last());
            }
        }
    }
}

proof fn lemma_insert_sorted(es: Seq<Entry>, q: Seq<char>, l: Seq<int>, x: int)
    requires
        sorted_by_key(es, q, l),
    ensures
        sorted_by_key(es, q, insert_by_key(es, q, l, x)),
    decreases l.len(),
{
    let r = insert_by_key(es, q, l, x);
    if l.len() == 0 {
    } else if key_le(es, q, l.last(), x) {
        assert forall|a: int, b: int| 0 <= a < b < r.len() implies key_le(
            es,
            q,
            #[trigger] r[a],
            #[trigger] r[b],
        ) by {
            if b == l.len() {
                if a < l.len() - 1 {
                    assert(key_le(es, q, l[a], l[l.len() - 1]));
                }
            }
        }
    } else {
        let dl = l.drop_last();
        let ri = insert_by_key(es, q, dl, x);
        assert(sorted_by_key(es, q, dl)) by {
            assert forall|a: int, b: int| 0 <= a < b < dl.len() implies key_le(
                es,
                q,
                #[trigger] dl[a],
                #[trigger] dl[b],
            ) by {
                assert(dl[a] == l[a] && dl[b] == l[b]);
            }
        }
        lemma_insert_sorted(es, q, dl, x);
        lemma_insert_members(es, q, dl, x);
        assert forall|a: int, b: int| 0 <= a < b < r.len() implies key_le(
            es,
            q,
            #[trigger] r[a],
            #[trigger] r[b],
        ) by {
            if b == r.len() - 1 {
                assert(r[b] == l.last());
                assert(r[a] == ri[a]);
                if ri[a] != x {
                    assert(dl.contains(ri[a]));
                    let k = choose|k: int| 0 <= k < dl.len() && dl[k] == ri[a];
                    assert(key_le(es, q, l[k], l[l.len() - 1]));
                }
            } else {
                assert(r[a] == ri[a] && r[b] == ri[b]);
            }
        }
    }
}

proof fn lemma_ranked(es: Seq<Entry>, q: Seq<char>, n: int)
    requires
        0 <= n <= es.len(),
    ensures
        sorted_by_key(es, q, ranked(es, q, n)),
        forall|k: int|
            0 <= k < ranked(es, q, n).len() ==> 0 <= #[trigger] ranked(es, q, n)[k] < n
                && entry_score(es[ranked(es, q, n)[k]], q) is Some,
        forall|i: int|
            0 <= i < n && entry_score(#[trigger] es[i], q) is Some ==> ranked(es, q, n).contains(i),
    decreases n,
{
    if n > 0 {
        lemma_ranked(es, q, n - 1);
        let prev = ranked(es, q, n - 1);
        if entry_score(es[n - 1], q) is Some {
            lemma_insert_sorted(es, q, prev, n - 1);
            lemma_insert_members(es, q, prev, n - 1);
            let r = ranked(es, q, n);
            assert forall|k: int| 0 <= k < r.len() implies 0 <= #[trigger] r[k] < n && entry_score(
                es[r[k]],
                q,
            ) is Some by {
                if r[k] != n - 1 {
                    let j = choose|j: int| 0 <= j < prev.len() && prev[j] == r[k];
                    assert(prev[j] == r[k]);
                }
            }
            assert forall|i: int| 0 <= i < n && entry_score(#[trigger] es[i], q) is Some implies r.contains(
                i,
            ) by {
                if i < n - 1 {
                    assert(prev.contains(i));
                }
            }
        }
    }
}

/// Every search result matches the query, and results come best first:
/// prefix matches, then substring matches, then subsequence matches, each
/// group shortest name first; at most 20 results; nothing for an empty query.
pub proof fn fuzzy_results_ranked(es: Seq<Entry>, query: Seq<char>)
    ensures
        fuzzy_indices(es, query).len() <= 20,
        spec_lowercase(query).len() == 0 ==> fuzzy_indices(es, query).len() == 0,
        forall|k: int|
            0 <= k < fuzzy_indices(es, query).len() ==> 0 <= #[trigger] fuzzy_indices(es, query)[k]
                < es.len() && entry_score(es[fuzzy_indices(es, query)[k]], spec_lowercase(query))
                is Some,
        sorted_by_key(es, spec_lowercase(query), fuzzy_indices(es, query)),
{
    let q = spec_lowercase(query);
    if q.len() > 0 {
        lemma_ranked(es, q, es.len() as int);
        let r = ranked(es, q, es.len() as int);
        let f = fuzzy_indices(es, query);
        assert forall|k: int| 0 <= k < f.len() implies f[k] == r[k] by {}
        assert forall|k: int|
            0 <= k < f.len() implies 0 <= #[trigger] f[k] < es.len() && entry_score(es[f[k]], q)
            is Some by {
            assert(f[k] == r[k]);
        }
        assert forall|a: int, b: int| 0 <= a < b < f.len() implies key_le(
            es,
            q,
            #[trigger] f[a],
            #[trigger] f[b],
        ) by {
            assert(f[a] == r[a] && f[b] == r[b]);
        }
    }
}

/// Matches come in three bands: every entry whose lowercased name starts with
/// the lowercased query comes before every one that does not, and every entry
/// whose name contains the query as a contiguous substring comes before every
/// one that matches only as a scattered subsequence, whatever the name lengths.
pub proof fn fuzzy_substring_before_subsequence(es: Seq<Entry>, query: Seq<char>)
    ensures
        forall|a: int, b: int|
            0 <= a < b < fuzzy_indices(es, query).len() ==> {
                let na = spec_lowercase(es[#[trigger] fuzzy_indices(es, query)[a]].name@);
                let nb = spec_lowercase(es[#[trigger] fuzzy_indices(es, query)[b]].name@);
                let q = spec_lowercase(query);
                &&& contains_seq(nb, q) ==> contains_seq(na, q)
                &&& starts_with(nb, q) ==> starts_with(na, q)
            },
{
    fuzzy_results_ranked(es, query);
    let f = fuzzy_indices(es, query);
    let q = spec_lowercase(query);
    assert forall|a: int, b: int| 0 <= a < b < f.len() implies {
        let na = spec_lowercase(es[#[trigger] f[a]].name@);
        let nb = spec_lowercase(es[#[trigger] f[b]].name@);
        &&& contains_seq(nb, q) ==> contains_seq(na, q)
        &&& starts_with(nb, q) ==> starts_with(na, q)
    } by {
        let na = spec_lowercase(es[f[a]].name@);
        let nb = spec_lowercase(es[f[b]].name@);
        assert(key_le(es, q, f[a], f[b]));
        assert(entry_score(es[f[a]], q) is Some);
        assert(entry_score(es[f[b]], q) is Some);
        if starts_with(nb, q) {
            assert(crate::text::occurs_at(nb, q, 0));
            assert(contains_seq(nb, q));
        }
    }
}

/// When fewer than 20 entries are returned, every matching entry is among them.
pub proof fn fuzzy_complete_below_limit(es: Seq<Entry>, query: Seq<char>, i: int)
    requires
        0 <= i < es.len(),
        spec_lowercase(query).len() > 0,
        entry_score(es[i], spec_lowercase(query)) is Some,
        fuzzy_indices(es, query).len() < 20,
    ensures
        fuzzy_indices(es, query).contains(i),
{
    lemma_ranked(es, spec_lowercase(query), es.len() as int);
}

proof fn lemma_subseq_drop_first(a: Seq<char>, b: Seq<char>)
    requires
        a.len() > 0,
        is_subseq(a, b),
    ensures
        is_subseq(a.drop_first(), b),
    decreases b.len(),
{
    if b.len() > 0 {
        if a[0] == b[0] && is_subseq(a.drop_first(), b.drop_first()) {
            crate::text::lemma_subseq_skip(a.drop_first(), b, 0, 1);
            assert(b.skip(1) =~= b.drop_first());
            assert(b.skip(0) =~= b);
        } else {
            lemma_subseq_drop_first(a, b.drop_first());
            assert(a.drop_first().len() == 0 || is_subseq(a.drop_first(), b));
        }
    }
}

proof fn lemma_greedy_subseq(n: Seq<char>, q: Seq<char>, j: int)
    requires
        0 <= j < q.len(),
        forall|k: int| 0 <= k < q.len() ==> q[k] != '\0',
    ensures
        greedy(n, q, j) == is_subseq(q.skip(j), n),
    decreases n.len(),
{
    let qs = q.skip(j);
    assert(qs[0] == q[j]);
    assert(qs.len() > 0);
    if n.len() > 0 {
        assert(is_subseq(qs, n) == ((qs[0] == n[0] && is_subseq(qs.drop_first(), n.drop_first()))
            || is_subseq(qs, n.drop_first())));
        assert(qs.drop_first() =~= q.skip(j + 1));
        if n[0] == q[j] {
            if j + 1 < q.len() {
                lemma_greedy_subseq(n.drop_first(), q, j + 1);
                if is_subseq(qs, n.drop_first()) {
                    lemma_subseq_drop_first(qs, n.drop_first());
                }
            } else {
                assert(q.skip(j + 1).len() == 0);
            }
        } else {
            lemma_greedy_subseq(n.drop_first(), q, j);
        }
    }
}

/// The fuzzy match is the subsequence relation: for a query without NUL
/// characters, an entry matches exactly when the lowercased query can be
/// obtained from the lowercased name by deleting characters.
pub proof fn fuzzy_match_is_subsequence(name: Seq<char>, q: Seq<char>)
    requires
        q.len() > 0,
        forall|k: int| 0 <= k < q.len() ==> q[k] != '\0',
    ensures
        score(name, q) is Some <==> is_subseq(q, name),
{
    lemma_greedy_subseq(name, q, 0);
    assert(q.skip(0) =~= q);
    if contains_seq(name, q) {
        let i = choose|i: int| crate::text::occurs_at(name, q, i);
        crate::text::lemma_subseq_refl(q);
        let mid = name.subrange(i, i + q.len() as int);
        assert(mid == q);
        assert(name.skip(i).subrange(0, q.len() as int) =~= name.subrange(i, i + q.len() as int));
        assert(is_subseq(q, name.skip(i))) by {
            lemma_subseq_prefix(q, name.skip(i), q.len() as int);
        }
        crate::text::lemma_subseq_skip(q, name, 0, i);
        assert(name.skip(0) =~= name);
    }
}

/// A sequence is a subsequence of anything that starts with it.
proof fn lemma_subseq_prefix(q: Seq<char>, s: Seq<char>, m: int)
    requires
        0 <= m == q.len() <= s.len(),
        s.subrange(0, m) == q,
    ensures
        is_subseq(q, s),
    decreases m,
{
    if m > 0 {
        assert(s.drop_first().subrange(0, m - 1) =~= q.drop_first());
        lemma_subseq_prefix(q.drop_first(), s.drop_first(), m - 1);
        assert(q[0] == s[0]);
    }
}

/// The lines of a text: the pieces between `'\n'` characters.
pub open spec fn lines_from(s: Seq<char>, i: int) -> Seq<Seq<char>>
    decreases s.len() - i,
{
    if i < 0 || i > s.len() {
        Seq::empty()
    } else {
        let j = newline_from(s, i);
        proof {
            lemma_newline_from(s, i);
        }
        if j >= s.len() {
            seq![s.subrange(i, s.len() as int)]
        } else if j < i {
            Seq::empty()
        } else {
            seq![s.subrange(i, j)] + lines_from(s, j + 1)
        }
    }
}

/// What a desktop file's lines set: the first non-empty `Name=`, the program
/// of the first `Exec=` that has one, the first non-empty `Icon=`, and
/// whether a `NoDisplay=true` line occurs.
pub struct DesktopFields {
    pub name: Seq<char>,
    pub command: Seq<char>,
    pub icon: Seq<char>,
    pub nodisplay: bool,
}

/// The first word of a text, or nothing.
pub open spec fn first_word(s: Seq<char>) -> Seq<char> {
    if words(s).len() > 0 {
        words(s)[0]
    } else {
        Seq::empty()
    }
}

/// The text of a quoted argument from position `i` up to its closing `"`
/// (or the end), with each backslash escape standing for the character after it.
pub open spec fn unquote(s: Seq<char>, i: int) -> Seq<char>
    decreases s.len() - i,
{
    if i < 0 || i >= s.len() {
        Seq::empty()
    } else if s[i] == '"' {
        Seq::empty()
    } else if s[i] == '\\' && i + 1 < s.len() {
        seq![s[i + 1]] + unquote(s, i + 2)
    } else {
        seq![s[i]] + unquote(s, i + 1)
    }
}

/// The program of an `Exec=` value: a quoted first argument unquoted (so a
/// path with spaces stays whole), otherwise the first word.
pub open spec fn exec_program(s: Seq<char>) -> Seq<char> {
    let a = skip_ws(s, 0);
    if a < s.len() && s[a] == '"' {
        unquote(s, a + 1)
    } else {
        first_word(s)
    }
}

/// The program of an `Exec=` value (see [`exec_program`]).
pub fn exec_program_of(v: &Vec<char>) -> (r: Vec<char>)
    ensures
        r@ == exec_program(v@),
{
    let n = v.len();
    let (a, _b) = trim_bounds(v, 0, n);
    assert(v@.subrange(0, n as int) =~= v@);
    if a < n && v[a] == '"' {
        let mut out: Vec<char> = Vec::new();
        let mut i: usize = a + 1;
        while i < n
            invariant_except_break
                out@ + unquote(v@, i as int) == unquote(v@, a + 1),
            invariant
                n == v@.len(),
                a < n,
                a + 1 <= i <= n + 1,
            ensures
                out@ == unquote(v@, a + 1),
            decreases n + 1 - i,
        {
            if v[i] == '"' {
                assert(out@ =~= unquote(v@, a + 1));
                break;
            }
            if v[i] == '\\' && i + 1 < n {
                out.push(v[i + 1]);
                assert(out@ + unquote(v@, i + 2) =~= unquote(v@, a + 1));
                i = i + 2;
            } else {
                out.push(v[i]);
                assert(out@ + unquote(v@, i + 1) =~= unquote(v@, a + 1));
                i = i + 1;
            }
        }
        if i >= n {
            assert(out@ =~= unquote(v@, a + 1));
        }
        out
    } else {
        let ws = split_words(v);
        if ws.len() > 0 {
            let w = slice_chars(&ws[0], 0, ws[0].len());
            assert(w@ =~= ws@[0]@);
            w
        } else {
            Vec::new()
        }
    }
}

/// The effect of one (trimmed) line on the fields.
pub open spec fn desktop_line(f: DesktopFields, line: Seq<char>) -> DesktopFields {
    let l = trim(line);
    if starts_with(l, "Name="@) {
        if f.name.len() == 0 {
            DesktopFields { name: l.skip(5), ..f }
        } else {
            f
        }
    } else if starts_with(l, "Exec="@) {
        if f.command.len() == 0 {
            DesktopFields { command: exec_program(l.skip(5)), ..f }
        } else {
            f
        }
    } else if starts_with(l, "Icon="@) {
        if f.icon.len() == 0 {
            DesktopFields { icon: l.skip(5), ..f }
        } else {
            f
        }
    } else if l == "NoDisplay=true"@ {
        DesktopFields { nodisplay: true, ..f }
    } else {
        f
    }
}

/// The fields after reading the given lines in order.
pub open spec fn desktop_fields(lines: Seq<Seq<char>>) -> DesktopFields
    decreases lines.len(),
{
    if lines.len() == 0 {
        DesktopFields {
            name: Seq::empty(),
            command: Seq::empty(),
            icon: Seq::empty(),
            nodisplay: false,
        }
    } else {
        desktop_line(desktop_fields(lines.drop_last()), lines.last())
    }
}

/// The entry a desktop file defines: none when hidden or without a name or command.
pub open spec fn spec_parse_desktop(text: Seq<char>, id: Seq<char>) -> Option<
    (Seq<char>, Seq<char>, Seq<char>, Seq<char>),
> {
    let f = desktop_fields(lines_from(text, 0));
    if f.nodisplay || f.name.len() == 0 || f.command.len() == 0 {
        None
    } else {
        Some((f.name, f.command, f.icon, id))
    }
}

/// The texts of an entry.
pub open spec fn entry_view(e: Entry) -> (Seq<char>, Seq<char>, Seq<char>, Seq<char>) {
    (e.name@, e.command@, e.icon@, e.desktop_id@)
}

fn prefix_rest(l: &Vec<char>, p: &str) -> (r: Option<Vec<char>>)
    ensures
        match r {
            Some(v) => starts_with(l@, p@) && v@ == l@.skip(p@.len() as int),
            None => !starts_with(l@, p@),
        },
{
    let pv = chars_of(p);
    if has_prefix(l, &pv) {
        let r = slice_chars(l, pv.len(), l.len());
        assert(r@ =~= l@.skip(p@.len() as int));
        Some(r)
    } else {
        None
    }
}

/// Minimal desktop-file parse: `Name`, `Exec` (first word only, no field
/// codes, no shell), `Icon`; hidden entries and entries without a name or a
/// command give nothing.
pub fn parse_desktop(text: &str, desktop_id: &str) -> (r: Option<Entry>)
    ensures
        match r {
            Some(e) => spec_parse_desktop(text@, desktop_id@) == Some(entry_view(e)),
            None => spec_parse_desktop(text@, desktop_id@) is None,
        },
{
    let s = chars_of(text);
    let n = s.len();
    let mut name: Vec<char> = Vec::new();
    let mut command: Vec<char> = Vec::new();
    let mut icon: Vec<char> = Vec::new();
    let mut nodisplay = false;
    let ghost mut done: Seq<Seq<char>> = Seq::empty();
    let mut i: usize = 0;
    loop
        invariant_except_break
            done + lines_from(s@, i as int) == lines_from(s@, 0),
        invariant
            n == s.len(),
            i <= n,
            desktop_fields(done) == (DesktopFields {
                name: name@,
                command: command@,
                icon: icon@,
                nodisplay,
            }),
        ensures
            done == lines_from(s@, 0),
        decreases n - i,
    {
        let mut j = i;
        while j < n && s[j] != '\n'
            invariant
                n == s.len(),
                i <= j <= n,
                newline_from(s@, j as int) == newline_from(s@, i as int),
            decreases n - j,
        {
            j = j + 1;
        }
        proof {
            if i < n {
                lemma_newline_from(s@, i as int);
            }
        }
        let ghost line = s@.subrange(i as int, j as int);
        let (a, b) = trim_bounds(&s, i, j);
        let l = slice_chars(&s, a, b);
        proof {
            let sub = s@.subrange(0, j as int);
            assert(sub.subrange(i as int, j as int) =~= line);
            lemma_trim_window(sub, i as int, j as int);
            assert(l@ =~= sub.subrange(a as int, b as int));
        }
        let ghost before = DesktopFields { name: name@, command: command@, icon: icon@, nodisplay };
        match prefix_rest(&l, "Name=") {
            Some(v) => {
                if name.len() == 0 {
                    name = v;
                }
            },
            None => match prefix_rest(&l, "Exec=") {
                Some(v) => {
                    if command.len() == 0 {
                        command = exec_program_of(&v);
                    }
                },
                None => match prefix_rest(&l, "Icon=") {
                    Some(v) => {
                        if icon.len() == 0 {
                            icon = v;
                        }
                    },
                    None => {
                        let nd = chars_of("NoDisplay=true");
                        if crate::text::chars_eq(&l, &nd) {
                            nodisplay = true;
                        }
                    },
                },
            },
        }
        proof {
            reveal_strlit("Name=");
            reveal_strlit("Exec=");
            reveal_strlit("Icon=");
            assert(desktop_line(before, line) == (DesktopFields {
                name: name@,
                command: command@,
                icon: icon@,
                nodisplay,
            }));
            assert(done.push(line).drop_last() =~= done);
            done = done.push(line);
        }
        if j >= n {
            assert(lines_from(s@, i as int) =~= seq![line]);
            assert(done =~= lines_from(s@, 0));
            break;
        }
        assert(lines_from(s@, i as int) =~= seq![line] + lines_from(s@, j + 1));
        i = j + 1;
    }
    if nodisplay || name.len() == 0 || command.len() == 0 {
        return None;
    }
    Some(
        Entry {
            name: string_of(name.as_slice()),
            command: string_of(command.as_slice()),
            icon: string_of(icon.as_slice()),
            desktop_id: String::from_str(desktop_id),
        },
    )
}

/// Lexicographic order of texts by code point (the order of `String`).
pub open spec fn lex_le(a: Seq<char>, b: Seq<char>) -> bool
    decreases a.len(),
{
    if a.len() == 0 {
        true
    } else if b.len() == 0 {
        false
    } else if a[0] != b[0] {
        (a[0] as u32) < (b[0] as u32)
    } else {
        lex_le(a.drop_first(), b.drop_first())
    }
}

/// The sort key of an entry: its lowercased name.
pub open spec fn name_key(e: Entry) -> Seq<char> {
    spec_lowercase(e.name@)
}

/// Stable insertion by name key: after every element whose key is not greater.
pub open spec fn insert_by_name(l: Seq<Entry>, x: Entry) -> Seq<Entry>
    decreases l.len(),
{
    if l.len() == 0 {
        seq![x]
    } else if lex_le(name_key(l.last()), name_key(x)) {
        l.push(x)
    } else {
        insert_by_name(l.drop_last(), x).push(l.last())
    }
}

/// Stable sort by lowercased name (`sort_by` on `to_lowercase()` keys).
pub open spec fn sort_by_name(l: Seq<Entry>) -> Seq<Entry>
    decreases l.len(),
{
    if l.len() == 0 {
        Seq::empty()
    } else {
        insert_by_name(sort_by_name(l.drop_last()), l.last())
    }
}

/// `dedup_by` on the desktop id: an element equal in id to the last kept one is dropped.
pub open spec fn dedup_by_id(l: Seq<Entry>) -> Seq<Entry>
    decreases l.len(),
{
    if l.len() <= 1 {
        l
    } else {
        let d = dedup_by_id(l.drop_last());
        if d.len() > 0 && d.last().desktop_id@ == l.last().desktop_id@ {
            d
        } else {
            d.push(l.last())
        }
    }
}

/// Lexicographic comparison (`<=`) of character vectors.
fn lex_le_exec(a: &Vec<char>, b: &Vec<char>) -> (r: bool)
    ensures
        r == lex_le(a@, b@),
{
    let mut i: usize = 0;
    assert(a@.skip(0) =~= a@);
    assert(b@.skip(0) =~= b@);
    while i < a.len()
        invariant
            i <= a.len(),
            i <= b.len(),
            lex_le(a@.skip(i as int), b@.skip(i as int)) == lex_le(a@, b@),
        decreases a.len() - i,
    {
        if i >= b.len() {
            return false;
        }
        assert(a@.skip(i as int).drop_first() =~= a@.skip(i + 1));
        assert(b@.skip(i as int).drop_first() =~= b@.skip(i + 1));
        if a[i] != b[i] {
            return (a[i] as u32) < (b[i] as u32);
        }
        i = i + 1;
    }
    true
}

proof fn lemma_insert_name_at(l: Seq<Entry>, x: Entry, p: int)
    requires
        0 <= p <= l.len(),
        forall|k: int| p <= k < l.len() ==> !lex_le(name_key(#[trigger] l[k]), name_key(x)),
        p > 0 ==> lex_le(name_key(l[p - 1]), name_key(x)),
    ensures
        insert_by_name(l, x) == l.take(p) + seq![x] + l.skip(p),
    decreases l.len(),
{
    if l.len() == 0 {
        assert(l.take(p) + seq![x] + l.skip(p) =~= seq![x]);
    } else if p == l.len() {
        assert(l.take(p) + seq![x] + l.skip(p) =~= l.push(x));
    } else {
        assert(!lex_le(name_key(l[l.len() - 1]), name_key(x)));
        let dl = l.drop_last();
        assert forall|k: int| p <= k < dl.len() implies !lex_le(
            name_key(#[trigger] dl[k]),
            name_key(x),
        ) by {
            assert(dl[k] == l[k]);
        }
        lemma_insert_name_at(dl, x, p);
        assert((dl.take(p) + seq![x] + dl.skip(p)).push(l.last()) =~= l.take(p) + seq![x]
            + l.skip(p));
    }
}

/// Sorts entries by lowercased name (stable), then drops entries whose desktop
/// id repeats the previous one.
pub fn sort_and_dedup(entries: Vec<Entry>) -> (r: Vec<Entry>)
    ensures
        r@ == dedup_by_id(sort_by_name(entries@)),
{
    let ghost orig = entries@;
    assert(orig.len() == entries.len());
    let mut input = entries;
    let mut sorted: Vec<Entry> = Vec::new();
    let mut keys: Vec<Vec<char>> = Vec::new();
    let mut i: usize = 0;
    while input.len() > 0
        invariant
            input@ == orig.skip(i as int),
            i <= orig.len(),
            orig.len() <= usize::MAX,
            sorted@ == sort_by_name(orig.take(i as int)),
            keys@.len() == sorted@.len(),
            forall|k: int| 0 <= k < keys@.len() ==> (#[trigger] keys@[k])@ == name_key(sorted@[k]),
        decreases input.len(),
    {
        let e = input.remove(0);
        assert(e == orig[i as int]);
        let kl = lowercase(e.name.as_str());
        let k = chars_of(kl.as_str());
        let mut pos = sorted.len();
        while pos > 0 && !lex_le_exec(&keys[pos - 1], &k)
            invariant
                pos <= sorted@.len(),
                keys@.len() == sorted@.len(),
                k@ == name_key(e),
                forall|m: int| 0 <= m < keys@.len() ==> (#[trigger] keys@[m])@ == name_key(sorted@[m]),
                forall|m: int| pos <= m < sorted@.len() ==> !lex_le(name_key(#[trigger] sorted@[m]), name_key(e)),
            decreases pos,
        {
            pos = pos - 1;
        }
        proof {
            lemma_insert_name_at(sorted@, e, pos as int);
            assert(orig.take(i + 1).drop_last() =~= orig.take(i as int));
        }
        let ghost os = sorted@;
        let ghost ok = keys@;
        sorted.insert(pos, e);
        keys.insert(pos, k);
        assert(sorted@ =~= os.take(pos as int) + seq![e] + os.skip(pos as int));
        assert forall|m: int| 0 <= m < keys@.len() implies (#[trigger] keys@[m])@ == name_key(sorted@[m]) by {
            if m < pos {
                assert(keys@[m] == ok[m] && sorted@[m] == os[m]);
            } else if m > pos {
                assert(keys@[m] == ok[m - 1] && sorted@[m] == os[m - 1]);
            }
        }
        i = i + 1;
        assert(input@ =~= orig.skip(i as int));
    }
    assert(orig.take(i as int) =~= orig);
    let ghost srt = sorted@;
    assert(srt.len() == sorted.len());
    let mut out: Vec<Entry> = Vec::new();
    let mut rest = sorted;
    let mut j: usize = 0;
    while rest.len() > 0
        invariant
            rest@ == srt.skip(j as int),
            j <= srt.len(),
            srt.len() <= usize::MAX,
            out@ == dedup_by_id(srt.take(j as int)),
        decreases rest.len(),
    {
        let e = rest.remove(0);
        assert(e == srt[j as int]);
        proof {
            assert(srt.take(j + 1).drop_last() =~= srt.take(j as int));
            assert(srt.take(j + 1).last() == e);
        }
        let keep = if out.len() == 0 {
            true
        } else {
            let last = out.len() - 1;
            !crate::json::str_eq(out[last].desktop_id.as_str(), e.desktop_id.as_str())
        };
        proof {
            if j == 0 {
                assert(srt.take(1) =~= seq![e]);
            } else {
                assert(dedup_by_id(srt.take(j as int)).len() > 0) by {
                    lemma_dedup_nonempty(srt.take(j as int));
                }
            }
        }
        if keep {
            out.push(e);
        }
        j = j + 1;
        assert(rest@ =~= srt.skip(j as int));
    }
    assert(srt.take(j as int) =~= srt);
    out
}

proof fn lemma_dedup_nonempty(l: Seq<Entry>)
    requires
        l.len() > 0,
    ensures
        dedup_by_id(l).len() > 0,
    decreases l.len(),
{
    if l.len() > 1 {
        lemma_dedup_nonempty(l.drop_last());
    }
}

/// A line without the `'\r'` of a `"\r\n"` ending.
pub open spec fn strip_cr(l: Seq<char>) -> Seq<char> {
    if l.len() > 0 && l.last() == '\r' {
        l.drop_last()
    } else {
        l
    }
}

/// `str::lines`: the text split at `'\n'` (a `'\r'` before it dropped), the
/// final line ending optional.
pub open spec fn str_lines(s: Seq<char>) -> Seq<Seq<char>>
    decreases s.len(),
{
    if s.len() == 0 {
        Seq::empty()
    } else {
        let j = newline_from(s, 0);
        proof {
            lemma_newline_from(s, 0);
        }
        if j >= s.len() {
            seq![s]
        } else {
            seq![strip_cr(s.take(j))] + str_lines(s.skip(j + 1))
        }
    }
}

/// One clipboard row: its index, `: `, and the first 60 characters of the entry.
pub open spec fn clip_row(i: nat, line: Seq<char>) -> Seq<char> {
    dec(i) + ": "@ + line.take(if line.len() < 60 { line.len() as int } else { 60 })
}

/// The clipboard rows the launcher lists: the first 20 lines of the history.
pub open spec fn spec_clipboard_rows(text: Seq<char>) -> Seq<Seq<char>> {
    let ls = str_lines(text);
    Seq::new(if ls.len() < 20 { ls.len() } else { 20 }, |i: int| clip_row(i as nat, ls[i]))
}

/// The rows shown for the clipboard history text (one entry per line).
pub fn clipboard_rows(text: &str) -> (r: Vec<String>)
    ensures
        r@.map_values(|s: String| s@) == spec_clipboard_rows(text@),
{
    let s = chars_of(text);
    let n = s.len();
    let mut out: Vec<String> = Vec::new();
    let ghost mut done: Seq<Seq<char>> = Seq::empty();
    let mut i: usize = 0;
    assert(s@.skip(0) =~= s@);
    while i < n && out.len() < 20
        invariant
            n == s@.len(),
            s@ == text@,
            i <= n,
            out@.len() == done.len(),
            done.len() <= 20,
            str_lines(s@) == done + str_lines(s@.skip(i as int)),
            forall|k: int| 0 <= k < done.len() ==> (#[trigger] out@[k])@ == clip_row(k as nat, done[k]),
        decreases n - i,
    {
        let ghost t = s@.skip(i as int);
        let mut j: usize = i;
        while j < n && s[j] != '\n'
            invariant
                n == s@.len(),
                i <= j <= n,
                forall|m: int| i <= m < j ==> s@[m] != '\n',
            decreases n - j,
        {
            j = j + 1;
        }
        proof {
            lemma_newline_from(t, 0);
            let q = newline_from(t, 0);
            if q < j - i {
                assert(t[q] == s@[i + q]);
            }
            if q > j - i && j < n {
                assert(t[j - i] == s@[j as int]);
            }
            assert(q == j - i);
        }
        let mut end = j;
        if j < n && end > i && s[end - 1] == '\r' {
            end = end - 1;
        }
        let line = slice_chars(&s, i, end);
        proof {
            if j < n {
                assert(t.take(j - i) =~= s@.subrange(i as int, j as int));
                assert(line@ =~= strip_cr(t.take(j - i)));
                assert(t.skip(j - i + 1) =~= s@.skip(j + 1));
            } else {
                assert(t =~= s@.subrange(i as int, n as int));
                assert(s@.skip(n as int) =~= Seq::<char>::empty());
            }
        }
        let mut row: Vec<char> = Vec::new();
        push_dec(&mut row, out.len() as u64);
        push_str(&mut row, ": ");
        let take: usize = if line.len() < 60 { line.len() } else { 60 };
        let mut k: usize = 0;
        let ghost start = row@;
        while k < take
            invariant
                take <= line@.len(),
                k <= take,
                row@ == start + line@.take(k as int),
            decreases take - k,
        {
            row.push(line[k]);
            k = k + 1;
            assert(row@ =~= start + line@.take(k as int));
        }
        let ghost old_done = done;
        let idx = out.len();
        out.push(string_of(row.as_slice()));
        proof {
            done = done.push(line@);
            assert(out@[idx as int]@ == clip_row(idx as nat, line@));
            assert forall|k: int| 0 <= k < done.len() implies (#[trigger] out@[k])@ == clip_row(k as nat, done[k]) by {
                if k < old_done.len() {
                    assert(done[k] == old_done[k]);
                }
            }
        }
        if j < n {
            proof {
                assert(str_lines(t) == seq![strip_cr(t.take(j - i))] + str_lines(t.skip(j - i + 1)));
                assert(done + str_lines(s@.skip(j + 1)) =~= old_done + str_lines(t));
            }
            i = j + 1;
        } else {
            proof {
                assert(str_lines(t) == seq![t]);
                assert(done + str_lines(s@.skip(n as int)) =~= old_done + str_lines(t));
            }
            i = n;
        }
    }
    proof {
        let ls = str_lines(s@);
        if i >= n {
            assert(s@.skip(i as int) =~= Seq::<char>::empty());
            assert(ls =~= done);
        }
        let spec_rows = spec_clipboard_rows(text@);
        assert(spec_rows.len() == done.len()) by {
            if i < n {
                assert(ls.len() >= done.len());
            }
        }
        assert forall|k: int| 0 <= k < done.len() implies ls[k] == done[k] by {
            assert((done + str_lines(s@.skip(i as int)))[k] == done[k]);
        }
    }
    assert(out@.map_values(|s: String| s@) =~= spec_clipboard_rows(text@));
    out
}

/// Is a list ordered by lowercased name?
pub open spec fn sorted_by_name(l: Seq<Entry>) -> bool {
    forall|i: int, j: int|
        0 <= i < j < l.len() ==> lex_le(name_key(#[trigger] l[i]), name_key(#[trigger] l[j]))
}

/// Does no entry repeat the desktop id of the one before it?
pub open spec fn no_adjacent_duplicate(l: Seq<Entry>) -> bool {
    forall|i: int| 0 <= i < l.len() - 1 ==> (#[trigger] l[i]).desktop_id@ != l[i + 1].desktop_id@
}

proof fn lemma_lex_total(a: Seq<char>, b: Seq<char>)
    ensures
        lex_le(a, b) || lex_le(b, a),
    decreases a.len(),
{
    if a.len() > 0 && b.len() > 0 {
        if a[0] == b[0] {
            lemma_lex_total(a.drop_first(), b.drop_first());
        } else {
            vstd::utf8::char_u32_cast(a[0], a[0] as u32);
            vstd::utf8::char_u32_cast(b[0], b[0] as u32);
        }
    }
}

proof fn lemma_lex_trans(a: Seq<char>, b: Seq<char>, c: Seq<char>)
    requires
        lex_le(a, b),
        lex_le(b, c),
    ensures
        lex_le(a, c),
    decreases a.len(),
{
    if a.len() > 0 && b.len() > 0 && c.len() > 0 && a[0] == b[0] && b[0] == c[0] {
        lemma_lex_trans(a.drop_first(), b.drop_first(), c.drop_first());
    }
}

proof fn lemma_insert_bounded(l: Seq<Entry>, x: Entry, y: Entry)
    requires
        forall|k: int| 0 <= k < l.len() ==> lex_le(name_key(#[trigger] l[k]), name_key(y)),
        lex_le(name_key(x), name_key(y)),
    ensures
        forall|k: int|
            0 <= k < insert_by_name(l, x).len() ==> lex_le(
                name_key(#[trigger] insert_by_name(l, x)[k]),
                name_key(y),
            ),
    decreases l.len(),
{
    if l.len() > 0 && !lex_le(name_key(l.last()), name_key(x)) {
        let dl = l.drop_last();
        assert forall|k: int| 0 <= k < dl.len() implies lex_le(name_key(#[trigger] dl[k]), name_key(y)) by {
            assert(dl[k] == l[k]);
        }
        lemma_insert_bounded(dl, x, y);
        let r = insert_by_name(dl, x);
        assert forall|k: int| 0 <= k < r.push(l.last()).len() implies lex_le(
            name_key(#[trigger] r.push(l.last())[k]),
            name_key(y),
        ) by {
            if k < r.len() {
                assert(r.push(l.last())[k] == r[k]);
            }
        }
    } else if l.len() > 0 {
        assert forall|k: int| 0 <= k < l.push(x).len() implies lex_le(
            name_key(#[trigger] l.push(x)[k]),
            name_key(y),
        ) by {
            if k < l.len() {
                assert(l.push(x)[k] == l[k]);
            }
        }
    }
}

proof fn lemma_insert_name_sorted(l: Seq<Entry>, x: Entry)
    requires
        sorted_by_name(l),
    ensures
        sorted_by_name(insert_by_name(l, x)),
        insert_by_name(l, x).len() == l.len() + 1,
    decreases l.len(),
{
    if l.len() == 0 {
    } else if lex_le(name_key(l.last()), name_key(x)) {
        let r = l.push(x);
        assert forall|i: int, j: int| 0 <= i < j < r.len() implies lex_le(
            name_key(#[trigger] r[i]),
            name_key(#[trigger] r[j]),
        ) by {
            if j == l.len() {
                if i < l.len() - 1 {
                    assert(lex_le(name_key(l[i]), name_key(l[l.len() - 1])));
                    lemma_lex_trans(name_key(l[i]), name_key(l.last()), name_key(x));
                }
            } else {
                assert(r[i] == l[i] && r[j] == l[j]);
            }
        }
    } else {
        let dl = l.drop_last();
        let y = l.last();
        assert(sorted_by_name(dl)) by {
            assert forall|i: int, j: int| 0 <= i < j < dl.len() implies lex_le(
                name_key(#[trigger] dl[i]),
                name_key(#[trigger] dl[j]),
            ) by {
                assert(dl[i] == l[i] && dl[j] == l[j]);
            }
        }
        lemma_insert_name_sorted(dl, x);
        lemma_lex_total(name_key(y), name_key(x));
        assert forall|k: int| 0 <= k < dl.len() implies lex_le(name_key(#[trigger] dl[k]), name_key(y)) by {
            assert(dl[k] == l[k]);
            assert(lex_le(name_key(l[k]), name_key(l[l.len() - 1])));
        }
        lemma_insert_bounded(dl, x, y);
        let r = insert_by_name(dl, x);
        let rr = r.push(y);
        assert forall|i: int, j: int| 0 <= i < j < rr.len() implies lex_le(
            name_key(#[trigger] rr[i]),
            name_key(#[trigger] rr[j]),
        ) by {
            if j == r.len() {
                assert(rr[i] == r[i]);
            } else {
                assert(rr[i] == r[i] && rr[j] == r[j]);
            }
        }
    }
}

proof fn lemma_sort_sorted(l: Seq<Entry>)
    ensures
        sorted_by_name(sort_by_name(l)),
        sort_by_name(l).len() == l.len(),
    decreases l.len(),
{
    if l.len() > 0 {
        lemma_sort_sorted(l.drop_last());
        lemma_insert_name_sorted(sort_by_name(l.drop_last()), l.last());
    }
}

/// Every element of `d` is an element of `l`.
pub open spec fn drawn_from(d: Seq<Entry>, l: Seq<Entry>) -> bool {
    forall|k: int| 0 <= k < d.len() ==> exists|j: int| 0 <= j < l.len() && #[trigger] d[k] == #[trigger] l[j]
}

proof fn lemma_dedup_from(l: Seq<Entry>)
    ensures
        drawn_from(dedup_by_id(l), l),
        dedup_by_id(l).len() <= l.len(),
    decreases l.len(),
{
    let r = dedup_by_id(l);
    if l.len() > 1 {
        let dl = l.drop_last();
        lemma_dedup_from(dl);
        let d = dedup_by_id(dl);
        assert forall|k: int| 0 <= k < r.len() implies exists|j: int|
            0 <= j < l.len() && #[trigger] r[k] == #[trigger] l[j] by {
            if k < d.len() {
                let j = choose|j: int| 0 <= j < dl.len() && #[trigger] d[k] == #[trigger] dl[j];
                assert(r[k] == d[k]);
                assert(l[j] == dl[j]);
            } else {
                assert(r[k] == l[l.len() - 1]);
            }
        }
    } else {
        assert(r =~= l);
        if l.len() == 1 {
            assert(r[0] == l[0]);
        }
    }
}

proof fn lemma_dedup_sorted(l: Seq<Entry>)
    requires
        sorted_by_name(l),
    ensures
        sorted_by_name(dedup_by_id(l)),
    decreases l.len(),
{
    if l.len() > 1 {
        let dl = l.drop_last();
        assert(sorted_by_name(dl)) by {
            assert forall|i: int, j: int| 0 <= i < j < dl.len() implies lex_le(
                name_key(#[trigger] dl[i]),
                name_key(#[trigger] dl[j]),
            ) by {
                assert(dl[i] == l[i] && dl[j] == l[j]);
            }
        }
        lemma_dedup_sorted(dl);
        lemma_dedup_from(dl);
        let d = dedup_by_id(dl);
        if !(d.len() > 0 && d.last().desktop_id@ == l.last().desktop_id@) {
            let r = d.push(l.last());
            assert forall|i: int, j: int| 0 <= i < j < r.len() implies lex_le(
                name_key(#[trigger] r[i]),
                name_key(#[trigger] r[j]),
            ) by {
                if j == d.len() {
                    assert(drawn_from(d, dl));
                    let m = choose|m: int| 0 <= m < dl.len() && #[trigger] d[i] == #[trigger] dl[m];
                    assert(r[i] == d[i]);
                    assert(dl[m] == l[m]);
                    assert(lex_le(name_key(l[m]), name_key(l[l.len() - 1])));
                } else {
                    assert(r[i] == d[i] && r[j] == d[j]);
                }
            }
        }
    }
}

proof fn lemma_dedup_no_adjacent(l: Seq<Entry>)
    ensures
        no_adjacent_duplicate(dedup_by_id(l)),
    decreases l.len(),
{
    if l.len() > 1 {
        let dl = l.drop_last();
        lemma_dedup_no_adjacent(dl);
        let d = dedup_by_id(dl);
        if !(d.len() > 0 && d.last().desktop_id@ == l.last().desktop_id@) {
            let r = d.push(l.last());
            assert forall|i: int| 0 <= i < r.len() - 1 implies (#[trigger] r[i]).desktop_id@
                != r[i + 1].desktop_id@ by {
                if i + 1 < d.len() {
                    assert(r[i] == d[i] && r[i + 1] == d[i + 1]);
                } else {
                    assert(r[i] == d[d.len() - 1]);
                }
            }
        }
    }
}

/// The scanned entries come out ordered by lowercased name.
pub proof fn scan_order_sorted(es: Seq<Entry>)
    ensures
        sorted_by_name(dedup_by_id(sort_by_name(es))),
{
    lemma_sort_sorted(es);
    lemma_dedup_sorted(sort_by_name(es));
}

/// No entry of the scan repeats the desktop id of the one before it.
pub proof fn scan_no_adjacent_duplicate(es: Seq<Entry>)
    ensures
        no_adjacent_duplicate(dedup_by_id(sort_by_name(es))),
{
    lemma_dedup_no_adjacent(sort_by_name(es));
}

/// Every desktop id of `l` is the id of some element of `d`.
pub open spec fn keeps_ids(d: Seq<Entry>, l: Seq<Entry>) -> bool {
    forall|j: int|
        #![trigger l[j]]
        0 <= j < l.len() ==> exists|k: int|
            0 <= k < d.len() && (#[trigger] d[k]).desktop_id@ == l[j].desktop_id@
}

/// The deduplication drops no desktop id: every id of its input is still there.
pub proof fn dedup_keeps_every_id(l: Seq<Entry>)
    ensures
        keeps_ids(dedup_by_id(l), l),
    decreases l.len(),
{
    let r = dedup_by_id(l);
    if l.len() > 1 {
        let dl = l.drop_last();
        dedup_keeps_every_id(dl);
        let d = dedup_by_id(dl);
        let dropped = d.len() > 0 && d.last().desktop_id@ == l.last().desktop_id@;
        assert forall|j: int| #![trigger l[j]] 0 <= j < l.len() implies exists|k: int|
            0 <= k < r.len() && (#[trigger] r[k]).desktop_id@ == l[j].desktop_id@ by {
            if j < dl.len() {
                assert(l[j] == dl[j]);
                let k = choose|k: int|
                    0 <= k < d.len() && (#[trigger] d[k]).desktop_id@ == dl[j].desktop_id@;
                assert(r[k] == d[k]);
            } else if dropped {
                assert(r[d.len() - 1] == d[d.len() - 1]);
            } else {
                assert(r[r.len() - 1] == l[l.len() - 1]);
            }
        }
    } else {
        assert(r =~= l);
        if l.len() == 1 {
            assert(r[0] == l[0]);
        }
    }
}

/// Sorting only rearranges the entries.
pub proof fn sort_is_permutation(l: Seq<Entry>)
    ensures
        sort_by_name(l).to_multiset() == l.to_multiset(),
    decreases l.len(),
{
    broadcast use vstd::multiset::group_multiset_axioms;
    broadcast use vstd::seq_lib::group_to_multiset_ensures;

    if l.len() > 0 {
        sort_is_permutation(l.drop_last());
        lemma_insert_multiset(sort_by_name(l.drop_last()), l.last());
        assert(l =~= l.drop_last().push(l.last()));
    }
}

proof fn lemma_insert_multiset(l: Seq<Entry>, x: Entry)
    ensures
        insert_by_name(l, x).to_multiset() == l.to_multiset().insert(x),
    decreases l.len(),
{
    broadcast use vstd::multiset::group_multiset_axioms;
    broadcast use vstd::seq_lib::group_to_multiset_ensures;

    if l.len() > 0 && !lex_le(name_key(l.last()), name_key(x)) {
        lemma_insert_multiset(l.drop_last(), x);
        assert(l =~= l.drop_last().push(l.last()));
        assert(insert_by_name(l, x).to_multiset() =~= l.to_multiset().insert(x));
    } else if l.len() == 0 {
        assert(seq![x] =~= Seq::<Entry>::empty().push(x));
        assert(insert_by_name(l, x).to_multiset() =~= l.to_multiset().insert(x));
    }
}

/// The directories scanned for desktop entries, user ones first.
pub open spec fn spec_app_dirs(home: Seq<char>) -> Seq<Seq<char>> {
    seq![
        crate::paths::spec_join_path(home, ".local/share/applications"@),
        "/usr/share/applications"@,
        "/var/lib/flatpak/exports/share/applications"@,
        crate::paths::spec_join_path(home, ".local/share/flatpak/exports/share/applications"@),
    ]
}

/// The application directories for a home directory.
pub fn app_dirs(home: &str) -> (r: Vec<String>)
    ensures
        r@.map_values(|s: String| s@) == spec_app_dirs(home@),
{
    let mut v: Vec<String> = Vec::new();
    v.push(crate::paths::join_path(home, ".local/share/applications"));
    v.push(String::from_str("/usr/share/applications"));
    v.push(String::from_str("/var/lib/flatpak/exports/share/applications"));
    v.push(crate::paths::join_path(home, ".local/share/flatpak/exports/share/applications"));
    assert(v@.map_values(|s: String| s@) =~= spec_app_dirs(home@));
    v
}

/// `trim` of the window `s[i..j]` (with `s` ending at `j`) is `s[a..b]` as computed by
/// [`trim_bounds`].
proof fn lemma_trim_window(s: Seq<char>, i: int, j: int)
    requires
        0 <= i <= j == s.len(),
    ensures
        trim(s.subrange(i, j)) == s.subrange(
            crate::text::skip_ws(s, i),
            crate::text::trim_end_at(s, crate::text::skip_ws(s, i), j),
        ),
{
    let w = s.subrange(i, j);
    lemma_skip_ws_shift(s, i, 0);
    crate::text::lemma_skip_ws_bounds(s, i);
    let a = crate::text::skip_ws(s, i);
    lemma_trim_end_shift(s, i, a, j);
    crate::text::lemma_trim_end_bounds(s, a, j);
    assert(w.subrange(a - i, crate::text::trim_end_at(s, a, j) - i) =~= s.subrange(
        a,
        crate::text::trim_end_at(s, a, j),
    ));
}

proof fn lemma_skip_ws_shift(s: Seq<char>, i: int, k: int)
    requires
        0 <= i <= s.len(),
        0 <= k <= s.len() - i,
    ensures
        crate::text::skip_ws(s.subrange(i, s.len() as int), k) + i == crate::text::skip_ws(
            s,
            i + k,
        ),
    decreases s.len() - i - k,
{
    let w = s.subrange(i, s.len() as int);
    if k < w.len() {
        assert(w[k] == s[i + k]);
        lemma_skip_ws_shift(s, i, k + 1);
    }
}

proof fn lemma_trim_end_shift(s: Seq<char>, i: int, lo: int, j: int)
    requires
        0 <= i <= lo <= j <= s.len(),
        j == s.len(),
    ensures
        crate::text::trim_end_at(s.subrange(i, s.len() as int), lo - i, j - i) + i
            == crate::text::trim_end_at(s, lo, j),
    decreases j - lo,
{
    let w = s.subrange(i, s.len() as int);
    if j > lo {
        assert(w[j - i - 1] == s[j - 1]);
        if crate::text::is_ws(s[j - 1]) {
            lemma_trim_end_shift2(s, i, lo, j - 1);
        }
    }
}

proof fn lemma_trim_end_shift2(s: Seq<char>, i: int, lo: int, j: int)
    requires
        0 <= i <= lo <= j <= s.len(),
    ensures
        crate::text::trim_end_at(s.subrange(i, s.len() as int), lo - i, j - i) + i
            == crate::text::trim_end_at(s, lo, j),
    decreases j - lo,
{
    let w = s.subrange(i, s.len() as int);
    if j > lo {
        assert(w[j - i - 1] == s[j - 1]);
        lemma_trim_end_shift2(s, i, lo, j - 1);
    }
}

} // verus!
