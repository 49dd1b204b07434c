//! Path texts as `PathBuf::join` and `Path::extension` treat them on Unix.
use vstd::prelude::*;
use crate::text::{chars_of, push_all, string_of};

verus! {

/// `PathBuf::join` on Unix: an absolute `rel` replaces `base`; otherwise a
/// `/` separates them unless `base` is empty or already ends with one.
pub open spec fn spec_join_path(base: Seq<char>, rel: Seq<char>) -> Seq<char> {
    if rel.len() > 0 && rel[0] == '/' {
        rel
    } else if base.len() > 0 && base.last() != '/' {
        base + seq!['/'] + rel
    } else {
        base + rel
    }
}

/// Joins a path and a component.
pub fn join_path(base: &str, rel: &str) -> (r: String)
    ensures
        r@ == spec_join_path(base@, rel@),
{
    let b = chars_of(base);
    let r = chars_of(rel);
    if r.len() > 0 && r[0] == '/' {
        return string_of(r.as_slice());
    }
    let mut out: Vec<char> = Vec::new();
    push_all(&mut out, &b);
    if b.len() > 0 && b[b.len() - 1] != '/' {
        out.push('/');
    }
    push_all(&mut out, &r);
    assert(out@ =~= spec_join_path(base@, rel@));
    string_of(out.as_slice())
}

/// Index of the last `.` in `s[..j]`, or -1.
pub open spec fn last_dot_before(s: Seq<char>, j: int) -> int
    decreases j,
{
    if j <= 0 {
        -1
    } else if s[j - 1] == '.' {
        j - 1
    } else {
        last_dot_before(s, j - 1)
    }
}

/// `Path::extension` of a file name: the text after the last `.`, `None` when
/// there is no `.` or the only one is the leading one.
pub open spec fn spec_extension(name: Seq<char>) -> Option<Seq<char>> {
    let k = last_dot_before(name, name.len() as int);
    if k <= 0 {
        None
    } else {
        Some(name.subrange(k + 1, name.len() as int))
    }
}

proof fn lemma_last_dot_bounds(s: Seq<char>, j: int)
    requires
        0 <= j <= s.len(),
    ensures
        -1 <= last_dot_before(s, j) < j,
        last_dot_before(s, j) >= 0 ==> s[last_dot_before(s, j)] == '.',
        forall|m: int| last_dot_before(s, j) < m < j ==> s[m] != '.',
    decreases j,
{
    if j > 0 && s[j - 1] != '.' {
        lemma_last_dot_bounds(s, j - 1);
    }
}

/// The extension of a file name.
pub fn extension(file_name: &str) -> (r: Option<String>)
    ensures
        match r {
            Some(e) => spec_extension(file_name@) == Some(e@),
            None => spec_extension(file_name@).is_none(),
        },
{
    let v = chars_of(file_name);
    let mut j: usize = v.len();
    while j > 0 && v[j - 1] != '.'
        invariant
            j <= v@.len(),
            v@ == file_name@,
            last_dot_before(v@, j as int) == last_dot_before(v@, v@.len() as int),
        decreases j,
    {
        j = j - 1;
    }
    // here j == 0 or v[j - 1] == '.', so the last dot is at j - 1
    if j <= 1 {
        return None;
    }
    let mut e: Vec<char> = Vec::new();
    let mut i: usize = j;
    while i < v.len()
        invariant
            j <= i <= v@.len(),
            e@ == v@.subrange(j as int, i as int),
        decreases v.len() - i,
    {
        e.push(v[i]);
        i = i + 1;
        assert(e@ =~= v@.subrange(j as int, i as int));
    }
    Some(string_of(e.as_slice()))
}

} // verus!
