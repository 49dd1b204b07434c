//! Hyprland: workspace dots, the event-line filter of the compositor's event
//! socket, and the socket paths.
use vstd::prelude::*;
use crate::json::{as_i64, get, json_from_str, spec_json_from_str, Json};
use crate::launcher::lines_from;
use crate::num::{parse_u32, spec_parse_u32};
use crate::paths::{join_path, spec_join_path};
use crate::text::{
    chars_of, dec, dec_int, dec_string, has_prefix, push_dec, push_dec_i64, push_str,
    split_words, starts_with, string_of, trim, trim_chars, words,
};

verus! {

/// A workspace as the compositor reports it.
pub struct Workspace {
    pub id: i32,
    /// Workspace name (rules match on it; the dots use the id).
    pub name: String,
    /// Origin monitor.
    pub monitor: String,
}

impl Default for Workspace {
    fn default() -> (r: Workspace)
        ensures
            r.id == 0,
            r.name@ == Seq::<char>::empty(),
            r.monitor@ == Seq::<char>::empty(),
    {
        Workspace { id: 0, name: String::new(), monitor: String::new() }
    }
}

/// The static workspaces shown without a compositor: ids 1 to 5, named by their id.
pub fn persistent_fallback(active: i32) -> (r: Vec<Workspace>)
    ensures
        r@.len() == 5,
        forall|k: int|
            0 <= k < 5 ==> (#[trigger] r@[k]).id == k + 1 && r@[k].name@ == dec((k + 1) as nat)
                && r@[k].monitor@ == Seq::<char>::empty(),
{
    let _ = active;
    let mut v: Vec<Workspace> = Vec::new();
    let mut i: i32 = 1;
    while i <= 5
        invariant
            1 <= i <= 6,
            v@.len() == i - 1,
            forall|k: int|
                0 <= k < i - 1 ==> (#[trigger] v@[k]).id == k + 1 && v@[k].name@ == dec(
                    (k + 1) as nat,
                ) && v@[k].monitor@ == Seq::<char>::empty(),
        decreases 6 - i,
    {
        v.push(Workspace { id: i, name: dec_string(i as u64), monitor: String::new() });
        i = i + 1;
    }
    v
}

/// Insertion of an id into a strictly increasing list, keeping it strictly increasing.
pub open spec fn insert_id(l: Seq<i32>, x: i32) -> Seq<i32>
    decreases l.len(),
{
    if l.len() == 0 {
        seq![x]
    } else if l.last() < x {
        l.push(x)
    } else if l.last() == x {
        l
    } else {
        insert_id(l.drop_last(), x).push(l.last())
    }
}

/// The distinct ids of the workspaces, ascending (`sort_unstable` + `dedup`).
pub open spec fn sorted_ids(ws: Seq<Workspace>) -> Seq<i32>
    decreases ws.len(),
{
    if ws.len() == 0 {
        Seq::empty()
    } else {
        insert_id(sorted_ids(ws.drop_last()), ws.last().id)
    }
}

/// The ids the dots show: the distinct ids ascending, or 1 to 5 when there are none.
pub open spec fn shown_ids(ws: Seq<Workspace>) -> Seq<i32> {
    if sorted_ids(ws).len() == 0 {
        seq![1i32, 2, 3, 4, 5]
    } else {
        sorted_ids(ws)
    }
}

/// The dots: `●` for the active id, `○` for the others, separated by spaces.
pub open spec fn dots(ids: Seq<i32>, active: i32) -> Seq<char>
    decreases ids.len(),
{
    if ids.len() == 0 {
        Seq::empty()
    } else {
        let d = if ids.last() == active {
            '●'
        } else {
            '○'
        };
        if ids.len() == 1 {
            seq![d]
        } else {
            dots(ids.drop_last(), active) + seq![' ', d]
        }
    }
}

/// The active workspace is marked: the dots hold a `●` exactly when the
/// active id is among the ids shown, and one dot per id.
pub proof fn dots_mark_active(ids: Seq<i32>, active: i32)
    ensures
        dots(ids, active).contains('●') <==> ids.contains(active),
        ids.len() > 0 ==> dots(ids, active).len() == 2 * ids.len() - 1,
    decreases ids.len(),
{
    if ids.len() > 0 {
        let dl = ids.drop_last();
        dots_mark_active(dl, active);
        let x = ids.last();
        let d = if x == active { '●' } else { '○' };
        let r = dots(ids, active);
        if ids.len() == 1 {
            assert(r == seq![d]);
            if ids.contains(active) {
                let k = choose|k: int| 0 <= k < ids.len() && ids[k] == active;
                assert(k == 0);
            }
            if r.contains('●') {
                let k = choose|k: int| 0 <= k < r.len() && r[k] == '●';
                assert(k == 0);
            }
            if x == active {
                assert(r[0] == '●');
            }
        } else {
            let p = dots(dl, active);
            assert(r == p + seq![' ', d]);
            if ids.contains(active) {
                let k = choose|k: int| 0 <= k < ids.len() && ids[k] == active;
                if k < dl.len() {
                    assert(dl[k] == active);
                    assert(dl.contains(active));
                    let m = choose|m: int| 0 <= m < p.len() && p[m] == '●';
                    assert(r[m] == '●');
                } else {
                    assert(r[r.len() - 1] == '●');
                }
            }
            if r.contains('●') {
                let m = choose|m: int| 0 <= m < r.len() && r[m] == '●';
                if m < p.len() {
                    assert(p[m] == '●');
                    assert(p.contains('●'));
                    let k = choose|k: int| 0 <= k < dl.len() && dl[k] == active;
                    assert(ids[k] == active);
                } else {
                    assert(r[m] == seq![' ', d][m - p.len()]);
                    assert(ids[ids.len() - 1] == active);
                }
            }
        }
    }
}

/// The label: the dots, two spaces, and the active id.
pub open spec fn spec_dots_label(ws: Seq<Workspace>, active: i32) -> Seq<char> {
    dots(shown_ids(ws), active) + "  "@ + dec_int(active as int)
}

/// Dot-style label (`●` active, `○` rest) followed by the active id.
pub fn dots_label(list: &[Workspace], active: i32) -> (r: String)
    ensures
        r@ == spec_dots_label(list@, active),
{
    let mut ids: Vec<i32> = Vec::new();
    let mut i: usize = 0;
    while i < list.len()
        invariant
            i <= list.len(),
            ids@ == sorted_ids(list@.take(i as int)),
        decreases list.len() - i,
    {
        let x = list[i].id;
        let mut pos = ids.len();
        while pos > 0 && ids[pos - 1] > x
            invariant
                pos <= ids@.len(),
                forall|k: int| pos <= k < ids@.len() ==> ids@[k] > x,
            decreases pos,
        {
            pos = pos - 1;
        }
        proof {
            lemma_insert_id_at(ids@, x, pos as int);
            assert(list@.take(i + 1).drop_last() =~= list@.take(i as int));
        }
        if pos == 0 || ids[pos - 1] != x {
            ids.insert(pos, x);
        }
        i = i + 1;
    }
    assert(list@.take(list.len() as int) =~= list@);
    if ids.len() == 0 {
        ids.push(1);
        ids.push(2);
        ids.push(3);
        ids.push(4);
        ids.push(5);
        assert(ids@ =~= seq![1i32, 2, 3, 4, 5]);
    }
    let mut out: Vec<char> = Vec::new();
    let mut k: usize = 0;
    while k < ids.len()
        invariant
            k <= ids.len(),
            out@ == dots(ids@.take(k as int), active),
        decreases ids.len() - k,
    {
        let d = if ids[k] == active {
            '●'
        } else {
            '○'
        };
        if k > 0 {
            out.push(' ');
        }
        out.push(d);
        assert(ids@.take(k + 1).drop_last() =~= ids@.take(k as int));
        assert(out@ =~= dots(ids@.take(k + 1), active));
        k = k + 1;
    }
    assert(ids@.take(ids.len() as int) =~= ids@);
    push_str(&mut out, "  ");
    push_dec_i64(&mut out, active as i64);
    string_of(out.as_slice())
}

proof fn lemma_insert_id_at(l: Seq<i32>, x: i32, p: int)
    requires
        0 <= p <= l.len(),
        forall|k: int| p <= k < l.len() ==> l[k] > x,
        p > 0 ==> l[p - 1] <= x,
    ensures
        insert_id(l, x) == if p > 0 && l[p - 1] == x {
            l
        } else {
            l.take(p) + seq![x] + l.skip(p)
        },
    decreases l.len(),
{
    if l.len() == 0 {
        assert(l.take(p) + seq![x] + l.skip(p) =~= seq![x]);
    } else if p == l.len() {
        assert(l.take(p) + seq![x] + l.skip(p) =~= l.push(x));
    } else {
        let dl = l.drop_last();
        lemma_insert_id_at(dl, x, p);
        if p > 0 && l[p - 1] == x {
            assert(dl.push(l.last()) =~= l);
        } else {
            assert((dl.take(p) + seq![x] + dl.skip(p)).push(l.last()) =~= l.take(p) + seq![x]
                + l.skip(p));
        }
    }
}

proof fn lemma_insert_id(l: Seq<i32>, x: i32)
    requires
        forall|a: int, b: int| 0 <= a < b < l.len() ==> l[a] < l[b],
    ensures
        forall|a: int, b: int|
            0 <= a < b < insert_id(l, x).len() ==> insert_id(l, x)[a] < insert_id(l, x)[b],
        forall|y: i32|
            #![trigger insert_id(l, x).contains(y)]
            #![trigger l.contains(y)]
            insert_id(l, x).contains(y) <==> (y == x || l.contains(y)),
    decreases l.len(),
{
    let r = insert_id(l, x);
    if l.len() == 0 {
        assert(r =~= seq![x]);
        assert forall|y: i32| r.contains(y) <==> (y == x || l.contains(y)) by {
            if y == x {
                assert(r[0] == x);
            }
        }
    } else if l.last() < x {
        assert forall|y: i32| r.contains(y) <==> (y == x || l.contains(y)) by {
            if y == x {
                assert(r[l.len() as int] == x);
            }
            if l.contains(y) {
                let j = choose|j: int| 0 <= j < l.len() && l[j] == y;
                assert(r[j] == y);
            }
            if r.contains(y) && y != x {
                let j = choose|j: int| 0 <= j < r.len() && r[j] == y;
                if j < l.len() {
                    assert(r[j] == l[j]);
                    assert(l[j] == y);
                } else {
                    assert(r[j] == x);
                }
            }
        }
    } else if l.last() == x {
        assert forall|y: i32| r.contains(y) <==> (y == x || l.contains(y)) by {
            if y == x {
                assert(l[l.len() - 1] == x);
            }
        }
    } else {
        let dl = l.drop_last();
        let ri = insert_id(dl, x);
        lemma_insert_id(dl, x);
        assert forall|a: int, b: int| 0 <= a < b < r.len() implies r[a] < r[b] by {
            if b == r.len() - 1 {
                assert(r[a] == ri[a]);
                if ri[a] != x {
                    assert(ri.contains(ri[a]));
                    assert(dl.contains(ri[a]));
                    let j = choose|j: int| 0 <= j < dl.len() && dl[j] == ri[a];
                    assert(l[j] < l[l.len() - 1]);
                }
            } else {
                assert(r[a] == ri[a] && r[b] == ri[b]);
            }
        }
        assert forall|y: i32| r.contains(y) <==> (y == x || l.contains(y)) by {
            if r.contains(y) {
                let j = choose|j: int| 0 <= j < r.len() && r[j] == y;
                if j < r.len() - 1 {
                    assert(ri[j] == y);
                    assert(ri.contains(y));
                    if y != x {
                        assert(dl.contains(y));
                        let k = choose|k: int| 0 <= k < dl.len() && dl[k] == y;
                        assert(dl[k] == l[k]);
                        assert(l[k] == y);
                    }
                } else {
                    assert(l[l.len() - 1] == y);
                }
            }
            if y == x {
                assert(ri.contains(x));
                let j = choose|j: int| 0 <= j < ri.len() && ri[j] == x;
                assert(r[j] == x);
            }
            if l.contains(y) {
                let k = choose|k: int| 0 <= k < l.len() && l[k] == y;
                if k == l.len() - 1 {
                    assert(r[r.len() - 1] == y);
                } else {
                    assert(dl[k] == y);
                    assert(dl.contains(y));
                    assert(ri.contains(y));
                    let j = choose|j: int| 0 <= j < ri.len() && ri[j] == y;
                    assert(r[j] == y);
                }
            }
        }
    }
}

/// The ids the dots show are strictly increasing and are exactly the
/// workspaces' ids (1 to 5 when the list is empty).
pub proof fn dots_ids_sorted_distinct(ws: Seq<Workspace>)
    ensures
        forall|a: int, b: int|
            0 <= a < b < sorted_ids(ws).len() ==> sorted_ids(ws)[a] < sorted_ids(ws)[b],
        forall|y: i32|
            #![trigger sorted_ids(ws).contains(y)]
            sorted_ids(ws).contains(y) <==> exists|k: int| 0 <= k < ws.len() && (#[trigger] ws[k]).id
                == y,
        ws.len() == 0 ==> shown_ids(ws) == seq![1i32, 2, 3, 4, 5],
    decreases ws.len(),
{
    if ws.len() > 0 {
        let dl = ws.drop_last();
        dots_ids_sorted_distinct(dl);
        lemma_insert_id(sorted_ids(dl), ws.last().id);
        assert forall|y: i32|
            sorted_ids(ws).contains(y) <==> exists|k: int| 0 <= k < ws.len() && (#[trigger] ws[k]).id
                == y by {
            assert(sorted_ids(ws) == insert_id(sorted_ids(dl), ws.last().id));
            if sorted_ids(ws).contains(y) && y == ws.last().id {
                assert(ws[ws.len() - 1].id == y);
            }
            if sorted_ids(ws).contains(y) && y != ws.last().id {
                assert(sorted_ids(dl).contains(y));
                let k = choose|k: int| 0 <= k < dl.len() && (#[trigger] dl[k]).id == y;
                assert(ws[k] == dl[k]);
            }
            if exists|k: int| 0 <= k < ws.len() && (#[trigger] ws[k]).id == y {
                let k = choose|k: int| 0 <= k < ws.len() && (#[trigger] ws[k]).id == y;
                if k < ws.len() - 1 {
                    assert(dl[k] == ws[k]);
                    assert(dl[k].id == y);
                    assert(sorted_ids(dl).contains(y));
                }
            }
        }
    }
}

/// The event lines that change the workspace label.
pub open spec fn spec_is_workspace_event(line: Seq<char>) -> bool {
    let ev = trim(line);
    ||| starts_with(ev, "workspace>>"@)
    ||| starts_with(ev, "focusedmon>>"@)
    ||| starts_with(ev, "moveworkspace>>"@)
    ||| starts_with(ev, "createworkspace>>"@)
    ||| starts_with(ev, "destroyworkspace>>"@)
    ||| starts_with(ev, "monitoradded>>"@)
    ||| starts_with(ev, "monitorremoved>>"@)
    ||| starts_with(ev, "openwindow>>"@)
    ||| starts_with(ev, "closewindow>>"@)
}

fn pre(ev: &Vec<char>, p: &str) -> (r: bool)
    ensures
        r == starts_with(ev@, p@),
{
    let pv = chars_of(p);
    has_prefix(ev, &pv)
}

/// Does an event line (workspace, monitor or window change) call for a label refresh?
pub fn is_workspace_event(line: &str) -> (r: bool)
    ensures
        r == spec_is_workspace_event(line@),
{
    let v = chars_of(line);
    let ev = trim_chars(&v);
    pre(&ev, "workspace>>") || pre(&ev, "focusedmon>>") || pre(&ev, "moveworkspace>>") || pre(
        &ev,
        "createworkspace>>",
    ) || pre(&ev, "destroyworkspace>>") || pre(&ev, "monitoradded>>") || pre(
        &ev,
        "monitorremoved>>",
    ) || pre(&ev, "openwindow>>") || pre(&ev, "closewindow>>")
}

/// The refresh events are exactly the lines whose trimmed text starts with one
/// of the workspace, monitor and window event names: `workspace>>`,
/// `focusedmon>>`, `moveworkspace>>`, `createworkspace>>`,
/// `destroyworkspace>>`, `monitoradded>>`, `monitorremoved>>`, `openwindow>>`,
/// `closewindow>>`.
pub proof fn workspace_events_are_listed(line: Seq<char>)
    ensures
        spec_is_workspace_event(line) <==> {
            let t = trim(line);
            ||| t.len() >= 11 && t.take(11) == "workspace>>"@
            ||| t.len() >= 12 && t.take(12) == "focusedmon>>"@
            ||| t.len() >= 15 && t.take(15) == "moveworkspace>>"@
            ||| t.len() >= 17 && t.take(17) == "createworkspace>>"@
            ||| t.len() >= 18 && t.take(18) == "destroyworkspace>>"@
            ||| t.len() >= 14 && t.take(14) == "monitoradded>>"@
            ||| t.len() >= 16 && t.take(16) == "monitorremoved>>"@
            ||| t.len() >= 12 && t.take(12) == "openwindow>>"@
            ||| t.len() >= 13 && t.take(13) == "closewindow>>"@
        },
{
    reveal_strlit("workspace>>");
    reveal_strlit("focusedmon>>");
    reveal_strlit("moveworkspace>>");
    reveal_strlit("createworkspace>>");
    reveal_strlit("destroyworkspace>>");
    reveal_strlit("monitoradded>>");
    reveal_strlit("monitorremoved>>");
    reveal_strlit("openwindow>>");
    reveal_strlit("closewindow>>");
    let t = trim(line);
    assert(t.subrange(0, 11) =~= t.take(11) || t.len() < 11);
}

/// The name for what `String::from_utf8_lossy` decodes bytes into.
pub uninterp spec fn spec_utf8_lossy(b: Seq<u8>) -> Seq<char>;

/// `String::from_utf8_lossy`: valid UTF-8 decodes to its characters; invalid
/// sequences become U+FFFD (the result is named by [`spec_utf8_lossy`]).
#[verifier::external_body]
fn utf8_lossy(b: &[u8]) -> (r: String)
    ensures
        r@ == spec_utf8_lossy(b@),
        vstd::utf8::valid_utf8(b@) ==> r@ == vstd::utf8::decode_utf8(b@),
{
    String::from_utf8_lossy(b).into_owned()
}

/// Index of the first `'\n'` byte at or after `k` (or `b.len()`).
pub open spec fn newline_byte_from(b: Seq<u8>, k: int) -> int
    decreases b.len() - k,
{
    if k < 0 || k >= b.len() {
        if k < 0 { 0 } else { b.len() as int }
    } else if b[k] == 10 {
        k
    } else {
        newline_byte_from(b, k + 1)
    }
}

pub proof fn lemma_newline_byte_from(b: Seq<u8>, k: int)
    requires
        0 <= k <= b.len(),
    ensures
        k <= newline_byte_from(b, k) <= b.len(),
        newline_byte_from(b, k) < b.len() ==> b[newline_byte_from(b, k)] == 10,
        forall|m: int| k <= m < newline_byte_from(b, k) ==> b[m] != 10,
    decreases b.len() - k,
{
    if k < b.len() && b[k] != 10 {
        lemma_newline_byte_from(b, k + 1);
    }
}

/// The complete lines of a byte buffer (each with its `'\n'`), in order.
pub open spec fn complete_lines(b: Seq<u8>) -> Seq<Seq<u8>>
    decreases b.len(),
{
    let p = newline_byte_from(b, 0);
    proof {
        lemma_newline_byte_from(b, 0);
    }
    if p >= b.len() {
        Seq::empty()
    } else {
        seq![b.take(p + 1)] + complete_lines(b.skip(p + 1))
    }
}

/// What is left after the last complete line.
pub open spec fn partial_tail(b: Seq<u8>) -> Seq<u8>
    decreases b.len(),
{
    let p = newline_byte_from(b, 0);
    proof {
        lemma_newline_byte_from(b, 0);
    }
    if p >= b.len() {
        b
    } else {
        partial_tail(b.skip(p + 1))
    }
}

/// How many of the lines are refresh events.
pub open spec fn count_events(lines: Seq<Seq<u8>>) -> nat
    decreases lines.len(),
{
    if lines.len() == 0 {
        0
    } else {
        count_events(lines.drop_last()) + if spec_is_workspace_event(
            spec_utf8_lossy(lines.last()),
        ) {
            1nat
        } else {
            0nat
        }
    }
}

proof fn lemma_newline_concat(s: Seq<u8>, t: Seq<u8>)
    requires
        newline_byte_from(s, 0) < s.len(),
    ensures
        newline_byte_from(s + t, 0) == newline_byte_from(s, 0),
{
    lemma_newline_byte_from(s, 0);
    lemma_newline_byte_from(s + t, 0);
    let p = newline_byte_from(s, 0);
    let q = newline_byte_from(s + t, 0);
    if q < p {
        assert((s + t)[q] == s[q]);
    } else if q > p {
        assert((s + t)[p] == s[p]);
    }
}

proof fn lemma_lines_concat(s: Seq<u8>, t: Seq<u8>)
    ensures
        complete_lines(s + t) == complete_lines(s) + complete_lines(partial_tail(s) + t),
        partial_tail(s + t) == partial_tail(partial_tail(s) + t),
    decreases s.len(),
{
    lemma_newline_byte_from(s, 0);
    let p = newline_byte_from(s, 0);
    if p >= s.len() {
        assert(complete_lines(s) =~= Seq::<Seq<u8>>::empty());
        assert(complete_lines(s) + complete_lines(partial_tail(s) + t) =~= complete_lines(s + t));
    } else {
        lemma_newline_concat(s, t);
        let rest = s.skip(p + 1);
        lemma_lines_concat(rest, t);
        assert((s + t).take(p + 1) =~= s.take(p + 1));
        assert((s + t).skip(p + 1) =~= rest + t);
        assert(complete_lines(s + t) =~= complete_lines(s) + complete_lines(partial_tail(s) + t));
    }
}

proof fn lemma_count_concat(x: Seq<Seq<u8>>, y: Seq<Seq<u8>>)
    ensures
        count_events(x + y) == count_events(x) + count_events(y),
    decreases y.len(),
{
    if y.len() == 0 {
        assert(x + y =~= x);
    } else {
        lemma_count_concat(x, y.drop_last());
        assert((x + y).drop_last() =~= x + y.drop_last());
        assert((x + y).last() == y.last());
    }
}

/// Chunking does not matter: feeding `a` and then `b` counts as many events
/// and keeps the same incomplete line as feeding `a` and `b` at once.
pub proof fn feed_split_invariant(pending: Seq<u8>, a: Seq<u8>, b: Seq<u8>)
    ensures
        count_events(complete_lines(pending + a)) + count_events(
            complete_lines(partial_tail(pending + a) + b),
        ) == count_events(complete_lines(pending + a + b)),
        partial_tail(partial_tail(pending + a) + b) == partial_tail(pending + a + b),
{
    lemma_lines_concat(pending + a, b);
    lemma_count_concat(
        complete_lines(pending + a),
        complete_lines(partial_tail(pending + a) + b),
    );
}

/// Splits the compositor's event stream into lines and counts the refresh events.
pub struct EventBuffer {
    acc: Vec<u8>,
}

impl EventBuffer {
    /// The bytes of an incomplete line still held.
    pub closed spec fn pending(&self) -> Seq<u8> {
        self.acc@
    }

    /// An empty buffer.
    pub fn new() -> (r: EventBuffer)
        ensures
            r.pending() == Seq::<u8>::empty(),
    {
        EventBuffer { acc: Vec::new() }
    }

    /// Appends a chunk read from the socket; returns how many complete lines
    /// were refresh events, and keeps what follows the last newline.
    pub fn feed(&mut self, chunk: &[u8]) -> (n: usize)
        ensures
            n == count_events(complete_lines(old(self).pending() + chunk@)),
            final(self).pending() == partial_tail(old(self).pending() + chunk@),
    {
        let ghost all = self.acc@ + chunk@;
        let mut buf: Vec<u8> = Vec::new();
        let mut i: usize = 0;
        while i < self.acc.len()
            invariant
                i <= self.acc.len(),
                buf@ == self.acc@.take(i as int),
            decreases self.acc.len() - i,
        {
            buf.push(self.acc[i]);
            i = i + 1;
            assert(buf@ =~= self.acc@.take(i as int));
        }
        let mut j: usize = 0;
        while j < chunk.len()
            invariant
                j <= chunk.len(),
                buf@ == self.acc@ + chunk@.take(j as int),
            decreases chunk.len() - j,
        {
            buf.push(chunk[j]);
            j = j + 1;
            assert(buf@ =~= self.acc@ + chunk@.take(j as int));
        }
        assert(chunk@.take(chunk.len() as int) =~= chunk@);
        assert(self.acc@.take(self.acc.len() as int) =~= self.acc@);
        let mut count: usize = 0;
        let mut start: usize = 0;
        assert(buf@.skip(0) =~= all);
        let ghost mut done: Seq<Seq<u8>> = Seq::empty();
        loop
            invariant_except_break
                done + complete_lines(buf@.skip(start as int)) == complete_lines(all),
                partial_tail(buf@.skip(start as int)) == partial_tail(all),
            invariant
                buf@ == all,
                start <= buf.len(),
                count == count_events(done),
                count <= start,
            ensures
                done == complete_lines(all),
                buf@.skip(start as int) == partial_tail(all),
            decreases buf.len() - start,
        {
            let mut p = start;
            while p < buf.len() && buf[p] != 10
                invariant
                    start <= p <= buf.len(),
                    forall|m: int| start <= m < p ==> buf@[m] != 10,
                decreases buf.len() - p,
            {
                p = p + 1;
            }
            let ghost rest = buf@.skip(start as int);
            proof {
                lemma_newline_byte_from(rest, 0);
                lemma_newline_at(rest, (p - start) as int);
            }
            if p >= buf.len() {
                assert(complete_lines(rest) =~= Seq::<Seq<u8>>::empty());
                assert(done =~= complete_lines(all));
                break;
            }
            let line = slice_bytes(&buf, start, p + 1);
            let text = utf8_lossy(line.as_slice());
            let hit = is_workspace_event(text.as_str());
            proof {
                assert(line@ =~= rest.take(p - start + 1));
                assert(rest.skip(p - start + 1) =~= buf@.skip(p + 1));
                assert((done + seq![line@]).drop_last() =~= done);
                done = done + seq![line@];
            }
            if hit {
                count = count + 1;
            }
            start = p + 1;
        }
        self.acc = slice_bytes(&buf, start, buf.len());
        assert(self.acc@ =~= buf@.skip(start as int));
        count
    }
}

proof fn lemma_newline_at(b: Seq<u8>, p: int)
    requires
        0 <= p <= b.len(),
        forall|m: int| 0 <= m < p ==> b[m] != 10,
        p < b.len() ==> b[p] == 10,
    ensures
        newline_byte_from(b, 0) == p,
{
    lemma_newline_byte_from(b, 0);
    let q = newline_byte_from(b, 0);
    if q < p {
        assert(b[q] == 10);
    }
}

fn slice_bytes(v: &Vec<u8>, a: usize, b: usize) -> (r: Vec<u8>)
    requires
        a <= b <= v.len(),
    ensures
        r@ == v@.subrange(a as int, b as int),
{
    let mut r: Vec<u8> = Vec::new();
    let mut i = a;
    while i < b
        invariant
            a <= i <= b <= v.len(),
            r@ == v@.subrange(a as int, i as int),
        decreases b - i,
    {
        r.push(v[i]);
        i = i + 1;
        assert(r@ =~= v@.subrange(a as int, i as int));
    }
    r
}

/// Index of the first line starting with `p`.
pub open spec fn first_prefixed(ls: Seq<Seq<char>>, p: Seq<char>) -> Option<int>
    decreases ls.len(),
{
    if ls.len() == 0 {
        None
    } else if starts_with(ls[0], p) {
        Some(0)
    } else {
        match first_prefixed(ls.drop_first(), p) {
            Some(i) => Some(i + 1),
            None => None,
        }
    }
}

proof fn lemma_first_prefixed(ls: Seq<Seq<char>>, p: Seq<char>, k: int)
    requires
        0 <= k <= ls.len(),
        forall|m: int| 0 <= m < k ==> !starts_with(#[trigger] ls[m], p),
        k < ls.len() ==> starts_with(ls[k], p),
    ensures
        first_prefixed(ls, p) == if k < ls.len() {
            Some(k)
        } else {
            None::<int>
        },
    decreases ls.len(),
{
    if ls.len() > 0 && k > 0 {
        assert forall|m: int| 0 <= m < k - 1 implies !starts_with(#[trigger] ls.drop_first()[m], p) by {
            assert(ls.drop_first()[m] == ls[m + 1]);
        }
        lemma_first_prefixed(ls.drop_first(), p, k - 1);
        assert(!starts_with(ls[0], p));
    }
}

/// The uid on the first `Uid:` line of `/proc/self/status` (its first number),
/// 1000 when there is none or it does not parse.
pub open spec fn spec_uid_from_status(text: Seq<char>) -> u32 {
    let ls = lines_from(text, 0);
    match first_prefixed(ls, "Uid:"@) {
        Some(k) => {
            let w = words(ls[k]);
            if w.len() > 1 {
                match spec_parse_u32(w[1]) {
                    Some(u) => u,
                    None => 1000,
                }
            } else {
                1000
            }
        },
        None => 1000,
    }
}

/// Reads the uid from the text of `/proc/self/status` (1000 when there is none).
pub fn uid_from_status(text: &str) -> (r: u32)
    ensures
        r == spec_uid_from_status(text@),
{
    let s = chars_of(text);
    let n = s.len();
    let uid_p = chars_of("Uid:");
    let ghost ls = lines_from(s@, 0);
    let ghost mut done: Seq<Seq<char>> = Seq::empty();
    let mut i: usize = 0;
    loop
        invariant
            n == s.len(),
            i <= n,
            ls == lines_from(s@, 0),
            s@ == text@,
            uid_p@ == "Uid:"@,
            done + lines_from(s@, i as int) == ls,
            forall|m: int| 0 <= m < done.len() ==> !starts_with(#[trigger] done[m], "Uid:"@),
        decreases n - i,
    {
        let mut j = i;
        while j < n && s[j] != '\n'
            invariant
                n == s.len(),
                i <= j <= n,
                crate::jsonc::newline_from(s@, j as int) == crate::jsonc::newline_from(s@, i as int),
            decreases n - j,
        {
            j = j + 1;
        }
        proof {
            crate::jsonc::lemma_newline_from(s@, i as int);
        }
        let line = crate::text::slice_chars(&s, i, j);
        let ghost k = done.len() as int;
        proof {
            if j >= n {
                assert(lines_from(s@, i as int) =~= seq![line@]);
            } else {
                assert(lines_from(s@, i as int) =~= seq![line@] + lines_from(s@, j + 1));
            }
            assert(ls[k] == line@);
        }
        if has_prefix(&line, &uid_p) {
            proof {
                assert(starts_with(ls[k], "Uid:"@));
                assert forall|m: int| 0 <= m < k implies !starts_with(#[trigger] ls[m], "Uid:"@) by {
                    assert(ls[m] == done[m]);
                }
                assert(k < ls.len());
                lemma_first_prefixed(ls, "Uid:"@, k);
                assert(first_prefixed(ls, "Uid:"@) == Some(k));
                assert(ls == lines_from(text@, 0));
            }
            let w = split_words(&line);
            assert(words(ls[k]) == w@.map_values(|x: Vec<char>| x@));
            if w.len() > 1 {
                assert(words(ls[k])[1] == w@[1]@);
                let pr = parse_u32(&w[1]);
                assert(pr == spec_parse_u32(words(ls[k])[1]));
                match pr {
                    Some(u) => {
                        return u;
                    },
                    None => {
                        return 1000;
                    },
                }
            }
            return 1000;
        }
        if j >= n {
            proof {
                assert forall|c: int| 0 <= c < ls.len() implies !starts_with(
                    #[trigger] ls[c],
                    "Uid:"@,
                ) by {
                    if c < k {
                        assert(ls[c] == done[c]);
                    }
                }
                lemma_first_prefixed(ls, "Uid:"@, ls.len() as int);
            }
            return 1000;
        }
        proof {
            assert(forall|m: int| 0 <= m < k ==> ls[m] == done[m]);
            done = done.push(line@);
            assert forall|m: int| 0 <= m < done.len() implies !starts_with(
                #[trigger] done[m],
                "Uid:"@,
            ) by {
                if m < k {
                    assert(done[m] == ls[m]);
                }
            }
            assert(done + lines_from(s@, j + 1) =~= ls);
        }
        i = j + 1;
    }
}

/// The per-user runtime directory used when `XDG_RUNTIME_DIR` is unset.
pub fn runtime_dir_for(uid: u32) -> (r: String)
    ensures
        r@ == "/run/user/"@ + dec(uid as nat),
{
    let mut out: Vec<char> = Vec::new();
    push_str(&mut out, "/run/user/");
    push_dec(&mut out, uid as u64);
    string_of(out.as_slice())
}

/// The compositor socket `name` under `runtime/hypr/sig`; none without a signature.
pub open spec fn spec_socket_path(sig: Seq<char>, runtime: Seq<char>, name: Seq<char>) -> Option<
    Seq<char>,
> {
    if sig.len() == 0 {
        None
    } else {
        Some(spec_join_path(spec_join_path(spec_join_path(runtime, "hypr"@), sig), name))
    }
}

/// Path of a compositor socket (`None` when the instance signature is empty).
pub fn socket_path(sig: &str, runtime: &str, name: &str) -> (r: Option<String>)
    ensures
        match r {
            Some(p) => spec_socket_path(sig@, runtime@, name@) == Some(p@),
            None => spec_socket_path(sig@, runtime@, name@) is None,
        },
{
    if sig.unicode_len() == 0 {
        return None;
    }
    let a = join_path(runtime, "hypr");
    let b = join_path(a.as_str(), sig);
    Some(join_path(b.as_str(), name))
}

/// The active workspace id of a parsed reply: its `id`, cast to `i32`; 1 otherwise.
pub open spec fn id_of(v: Json) -> i32 {
    match get(v, "id"@) {
        Some(x) => match as_i64(x) {
            Some(i) => i as i32,
            None => 1,
        },
        None => 1,
    }
}

/// The active workspace id from the compositor's reply: its `id`, cast to `i32`; 1 otherwise.
pub open spec fn spec_active_id(reply: Option<Seq<char>>) -> i32 {
    match reply {
        None => 1,
        Some(t) => match spec_json_from_str(t) {
            Some(v) => id_of(v),
            None => 1,
        },
    }
}

/// Active workspace id from the `j/activeworkspace` reply (1 without a reply or an id).
pub fn active_id_in(reply: Option<&str>) -> (r: i32)
    ensures
        r == spec_active_id(
            match reply {
                Some(t) => Some(t@),
                None => None,
            },
        ),
{
    let t = match reply {
        Some(t) => t,
        None => {
            return 1;
        },
    };
    match json_from_str(t) {
        Some(v) => active_id_of(&v),
        None => 1,
    }
}

/// Active workspace id of the parsed reply (1 without an integer `id`).
pub fn active_id_of(v: &Json) -> (r: i32)
    ensures
        r == id_of(*v),
{
    match v.get_member("id") {
        Some(x) => match x.as_int() {
            Some(i) => i as i32,
            None => 1,
        },
        None => 1,
    }
}

} // verus!
