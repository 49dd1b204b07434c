//! Backlight devices: which one is primary, the places of the override flag
//! that tells the dimmer to yield, and the topology lines of the check.
use vstd::prelude::*;
use crate::paths::{join_path, spec_join_path};
use crate::text::{chars_of, contains_seq, dec, has_infix, push_dec, push_str, string_of};

verus! {

/// A backlight device directory: its entry name and its full path.
#[derive(Debug)]
pub struct BacklightDir {
    pub name: String,
    pub path: String,
}

fn copy_dir(d: &BacklightDir) -> (r: BacklightDir)
    ensures
        r == *d,
{
    BacklightDir { name: d.name.clone(), path: d.path.clone() }
}

/// Preference of a device: Intel panels first, then AMD and NVIDIA, then the rest.
pub open spec fn spec_rank(name: Seq<char>) -> nat {
    if contains_seq(name, "intel"@) {
        0
    } else if contains_seq(name, "amdgpu"@) || contains_seq(name, "nvidia"@) {
        1
    } else {
        2
    }
}

/// The preference rank of a device name (lower is preferred).
pub fn backlight_rank(name: &str) -> (r: u8)
    ensures
        r == spec_rank(name@),
{
    let v = chars_of(name);
    if has_infix(&v, &chars_of("intel")) {
        0
    } else if has_infix(&v, &chars_of("amdgpu")) || has_infix(&v, &chars_of("nvidia")) {
        1
    } else {
        2
    }
}

/// The devices of one rank, in their input order.
pub open spec fn of_rank(devs: Seq<BacklightDir>, k: nat) -> Seq<BacklightDir> {
    devs.filter(|d: BacklightDir| spec_rank(d.name@) == k)
}

/// The devices ordered by rank, keeping the input order within a rank
/// (a stable sort by rank).
pub open spec fn spec_ordered(devs: Seq<BacklightDir>) -> Seq<BacklightDir> {
    of_rank(devs, 0) + of_rank(devs, 1) + of_rank(devs, 2)
}

fn push_rank(out: &mut Vec<BacklightDir>, devs: &Vec<BacklightDir>, k: u8)
    ensures
        final(out)@ == old(out)@ + of_rank(devs@, k as nat),
{
    let ghost start = out@;
    let mut i: usize = 0;
    while i < devs.len()
        invariant
            i <= devs.len(),
            out@ == start + of_rank(devs@.take(i as int), k as nat),
        decreases devs.len() - i,
    {
        let ghost pre = devs@.take(i as int);
        let ghost next = devs@.take(i + 1);
        proof {
            assert(next.drop_last() =~= pre);
            assert(next.last() == devs@[i as int]);
            reveal(Seq::filter);
        }
        if backlight_rank(devs[i].name.as_str()) == k {
            out.push(copy_dir(&devs[i]));
            assert(out@ =~= start + of_rank(next, k as nat));
        } else {
            assert(out@ =~= start + of_rank(next, k as nat));
        }
        i = i + 1;
    }
    assert(devs@.take(devs.len() as int) =~= devs@);
}

/// The candidate devices in order of preference; the first is the primary one.
pub fn order_candidates(devs: &Vec<BacklightDir>) -> (r: Vec<BacklightDir>)
    ensures
        r@ == spec_ordered(devs@),
{
    let mut out: Vec<BacklightDir> = Vec::new();
    push_rank(&mut out, devs, 0);
    push_rank(&mut out, devs, 1);
    push_rank(&mut out, devs, 2);
    assert(out@ =~= spec_ordered(devs@));
    out
}

/// Ordering only rearranges: every device appears in the result exactly as
/// often as in the input, and the result has the same length.
pub proof fn ordering_is_permutation(devs: Seq<BacklightDir>)
    ensures
        spec_ordered(devs).to_multiset() == devs.to_multiset(),
        spec_ordered(devs).len() == devs.len(),
    decreases devs.len(),
{
    broadcast use vstd::multiset::group_multiset_axioms;
    broadcast use vstd::seq_lib::group_to_multiset_ensures;

    if devs.len() == 0 {
        reveal(Seq::filter);
        assert(spec_ordered(devs) =~= devs);
    } else {
        let pre = devs.drop_last();
        let x = devs.last();
        ordering_is_permutation(pre);
        reveal(Seq::filter);
        let k = spec_rank(x.name@);
        let a = of_rank(pre, 0);
        let b = of_rank(pre, 1);
        let c = of_rank(pre, 2);
        assert(devs =~= pre.push(x));
        vstd::seq_lib::lemma_multiset_commutative(a, b);
        vstd::seq_lib::lemma_multiset_commutative(a + b, c);
        if k == 0 {
            vstd::seq_lib::lemma_multiset_commutative(a.push(x), b);
            vstd::seq_lib::lemma_multiset_commutative(a.push(x) + b, c);
        } else if k == 1 {
            vstd::seq_lib::lemma_multiset_commutative(a, b.push(x));
            vstd::seq_lib::lemma_multiset_commutative(a + b.push(x), c);
        } else {
            vstd::seq_lib::lemma_multiset_commutative(a + b, c.push(x));
        }
        assert(spec_ordered(devs).to_multiset() =~= devs.to_multiset());
    }
}

/// What the check prints about one backlight device.
#[derive(Debug)]
pub struct BacklightReading {
    /// The device path as displayed.
    pub path: String,
    /// The current brightness, when it could be read.
    pub cur: Option<u32>,
    /// The maximum brightness, when it could be read.
    pub max: Option<u32>,
}

pub open spec fn or_zero(v: Option<u32>) -> nat {
    match v {
        Some(x) => x as nat,
        None => 0,
    }
}

/// `backlight <path> cur=<cur> max=<max>`, unreadable values shown as 0.
pub open spec fn topology_line(r: BacklightReading) -> Seq<char> {
    "backlight "@ + r.path@ + " cur="@ + dec(or_zero(r.cur)) + " max="@ + dec(or_zero(r.max))
}

/// One topology line per device, in order.
pub fn topology_lines(devs: &Vec<BacklightReading>) -> (r: Vec<String>)
    ensures
        r@.len() == devs@.len(),
        forall|i: int| 0 <= i < devs@.len() ==> #[trigger] r@[i]@ == topology_line(devs@[i]),
{
    let mut out: Vec<String> = Vec::new();
    let mut i: usize = 0;
    while i < devs.len()
        invariant
            i <= devs.len(),
            out@.len() == i,
            forall|j: int| 0 <= j < i ==> #[trigger] out@[j]@ == topology_line(devs@[j]),
        decreases devs.len() - i,
    {
        let d = &devs[i];
        let mut line: Vec<char> = Vec::new();
        push_str(&mut line, "backlight ");
        push_str(&mut line, d.path.as_str());
        push_str(&mut line, " cur=");
        push_dec(
            &mut line,
            match d.cur {
                Some(c) => c as u64,
                None => 0,
            },
        );
        push_str(&mut line, " max=");
        push_dec(
            &mut line,
            match d.max {
                Some(m) => m as u64,
                None => 0,
            },
        );
        assert(line@ =~= topology_line(devs@[i as int]));
        out.push(string_of(line.as_slice()));
        i = i + 1;
    }
    out
}

/// The override flag's path below a runtime directory.
pub open spec fn flag_rel() -> Seq<char> {
    "sshell/backlight-override"@
}

/// The system-wide flag path that the dimmer always reads.
pub open spec fn legacy_flag() -> Seq<char> {
    "/run/sshell/backlight-override"@
}

/// Where the override flag may be written, in order of preference: below the
/// session's runtime directory when it is known, then the system path; without
/// a session runtime directory, below at most eight per-user runtime
/// directories after the system path.
pub open spec fn spec_override_paths(xdg: Option<Seq<char>>, user_dirs: Seq<String>) -> Seq<
    Seq<char>,
> {
    match xdg {
        Some(x) => seq![spec_join_path(x, flag_rel()), legacy_flag()],
        None => seq![legacy_flag()] + user_dirs.take(
            if user_dirs.len() < 8 { user_dirs.len() as int } else { 8 },
        ).map_values(|d: String| spec_join_path(d@, flag_rel())),
    }
}

pub open spec fn opt_str(x: Option<&str>) -> Option<Seq<char>> {
    match x {
        Some(s) => Some(s@),
        None => None,
    }
}

/// The candidate paths of the override flag (`xdg` is the session runtime
/// directory, `user_dirs` the entries of the per-user runtime root).
pub fn override_paths(xdg: Option<&str>, user_dirs: &Vec<String>) -> (r: Vec<String>)
    ensures
        r@.map_values(|s: String| s@) == spec_override_paths(opt_str(xdg), user_dirs@),
{
    let rel = "sshell/backlight-override";
    let mut v: Vec<String> = Vec::new();
    match xdg {
        Some(x) => {
            v.push(join_path(x, rel));
        },
        None => {},
    }
    v.push(String::from_str("/run/sshell/backlight-override"));
    proof {
        reveal_strlit("sshell/backlight-override");
    }
    if xdg.is_none() {
        let mut i: usize = 0;
        while i < user_dirs.len()
            invariant_except_break
                i < 8,
            invariant
                rel@ == flag_rel(),
                xdg.is_none(),
                i <= user_dirs.len(),
                i <= 8,
                v@.len() == i + 1,
                v@.map_values(|s: String| s@) == seq![legacy_flag()] + user_dirs@.take(
                    i as int,
                ).map_values(|d: String| spec_join_path(d@, flag_rel())),
            ensures
                i == user_dirs.len() || i == 8,
                v@.map_values(|s: String| s@) == seq![legacy_flag()] + user_dirs@.take(
                    i as int,
                ).map_values(|d: String| spec_join_path(d@, flag_rel())),
            decreases user_dirs.len() - i,
        {
            let ghost before = v@;
            let p = join_path(user_dirs[i].as_str(), rel);
            v.push(p);
            proof {
                let f = |d: String| spec_join_path(d@, flag_rel());
                let g = |s: String| s@;
                assert(user_dirs@.take(i + 1) =~= user_dirs@.take(i as int).push(user_dirs@[i as int]));
                assert(user_dirs@.take(i + 1).map_values(f) =~= user_dirs@.take(i as int).map_values(
                    f,
                ).push(f(user_dirs@[i as int])));
                assert(v@ =~= before.push(p));
                assert(v@.map_values(g) =~= before.map_values(g).push(p@));
                assert(p@ == f(user_dirs@[i as int]));
                assert(v@.map_values(g) =~= seq![legacy_flag()] + user_dirs@.take(i + 1).map_values(
                    f,
                ));
            }
            i = i + 1;
            assert(v@.map_values(|s: String| s@) =~= seq![legacy_flag()] + user_dirs@.take(
                i as int,
            ).map_values(|d: String| spec_join_path(d@, flag_rel())));
            if v.len() > 8 {
                break;
            }
        }
        assert(v@.map_values(|s: String| s@) =~= spec_override_paths(opt_str(xdg), user_dirs@));
    } else {
        assert(v@.map_values(|s: String| s@) =~= spec_override_paths(opt_str(xdg), user_dirs@));
    }
    v
}

/// The system-wide flag path is always a candidate, and there are never more
/// than nine candidates.
pub proof fn override_paths_bounded(xdg: Option<Seq<char>>, user_dirs: Seq<String>)
    ensures
        spec_override_paths(xdg, user_dirs).contains(legacy_flag()),
        spec_override_paths(xdg, user_dirs).len() <= 9,
{
    let v = spec_override_paths(xdg, user_dirs);
    match xdg {
        Some(x) => {
            assert(v[1] == legacy_flag());
        },
        None => {
            assert(v[0] == legacy_flag());
        },
    }
}

} // verus!
