//! Theming: the accent colour from a matugen JSON document, and the CSS built
//! from it.
use vstd::prelude::*;
use crate::json::{json_from_str, member_index, lemma_member_index, spec_json_from_str, Json};
use crate::text::{chars_of, push_all, push_str, string_of};

verus! {

/// A colour leaf: text that starts with `#`.
pub open spec fn hex_leaf(s: Seq<char>) -> bool {
    s.len() > 0 && s[0] == '#'
}

/// The object members searched first, in this order.
pub open spec fn preferred_key(k: int) -> Seq<char> {
    if k == 0 {
        "hex"@
    } else if k == 1 {
        "default"@
    } else if k == 2 {
        "dark"@
    } else {
        "light"@
    }
}

/// Deep colour search: a `#` string itself; in an object the preferred
/// members first (`hex`, `default`, `dark`, `light`), then all members in
/// order; in an array the elements in order.
pub open spec fn deep_hex(v: Json) -> Option<Seq<char>>
    decreases v, 0int,
{
    match v {
        Json::Str(s) => if hex_leaf(s@) {
            Some(s@)
        } else {
            None
        },
        Json::Object(m) => deep_hex_preferred(m@, 0),
        Json::Array(a) => deep_hex_items(a@, 0),
        _ => None,
    }
}

/// [`deep_hex`] over the preferred members from the `k`-th on, then over all members.
pub open spec fn deep_hex_preferred(m: Seq<(String, Json)>, k: int) -> Option<Seq<char>>
    decreases m, if 0 <= k <= 4 { m.len() + 5 - k } else { m.len() + 1int },
{
    if k < 0 || k >= 4 {
        deep_hex_members(m, 0)
    } else {
        match member_index(m, preferred_key(k)) {
            Some(i) => if 0 <= i < m.len() {
                match deep_hex(m[i].1) {
                    Some(s) => Some(s),
                    None => deep_hex_preferred(m, k + 1),
                }
            } else {
                None
            },
            None => deep_hex_preferred(m, k + 1),
        }
    }
}

/// The first [`deep_hex`] result among the members from the `i`-th on.
pub open spec fn deep_hex_members(m: Seq<(String, Json)>, i: int) -> Option<Seq<char>>
    decreases m, m.len() - i,
{
    if i < 0 || i >= m.len() {
        None
    } else {
        match deep_hex(m[i].1) {
            Some(s) => Some(s),
            None => deep_hex_members(m, i + 1),
        }
    }
}

/// The first [`deep_hex`] result among the elements from the `i`-th on.
pub open spec fn deep_hex_items(a: Seq<Json>, i: int) -> Option<Seq<char>>
    decreases a, a.len() - i,
{
    if i < 0 || i >= a.len() {
        None
    } else {
        match deep_hex(a[i]) {
            Some(s) => Some(s),
            None => deep_hex_items(a, i + 1),
        }
    }
}

/// Recursive key search: in an object, each member in order: a member named
/// `key` whose subtree holds a colour gives that colour, otherwise the search
/// descends into the member; in an array, each element in order.
pub open spec fn find_key_spec(v: Json, key: Seq<char>) -> Option<Seq<char>>
    decreases v, 0int,
{
    match v {
        Json::Object(m) => find_key_members(m@, 0, key),
        Json::Array(a) => find_key_items(a@, 0, key),
        _ => None,
    }
}

pub open spec fn find_key_members(m: Seq<(String, Json)>, i: int, key: Seq<char>) -> Option<
    Seq<char>,
>
    decreases m, m.len() - i,
{
    if i < 0 || i >= m.len() {
        None
    } else if m[i].0@ == key && deep_hex(m[i].1) is Some {
        deep_hex(m[i].1)
    } else {
        match find_key_spec(m[i].1, key) {
            Some(s) => Some(s),
            None => find_key_members(m, i + 1, key),
        }
    }
}

pub open spec fn find_key_items(a: Seq<Json>, i: int, key: Seq<char>) -> Option<Seq<char>>
    decreases a, a.len() - i,
{
    if i < 0 || i >= a.len() {
        None
    } else {
        match find_key_spec(a[i], key) {
            Some(s) => Some(s),
            None => find_key_items(a, i + 1, key),
        }
    }
}

/// The text of an optional string.
pub open spec fn opt_text(r: Option<String>) -> Option<Seq<char>> {
    match r {
        Some(s) => Some(s@),
        None => None,
    }
}

fn preferred_key_exec(k: usize) -> (r: &'static str)
    requires
        k < 4,
    ensures
        r@ == preferred_key(k as int),
{
    if k == 0 {
        "hex"
    } else if k == 1 {
        "default"
    } else if k == 2 {
        "dark"
    } else {
        "light"
    }
}

/// Deep hex search (see [`deep_hex`]).
pub fn deep_hex_exec(v: &Json) -> (r: Option<String>)
    ensures
        opt_text(r) == deep_hex(*v),
    decreases *v, 0int,
{
    match v {
        Json::Str(s) => {
            let c = chars_of(s.as_str());
            if c.len() > 0 && c[0] == '#' {
                Some(s.clone())
            } else {
                None
            }
        },
        Json::Object(m) => {
            let mut k: usize = 0;
            while k < 4
                invariant
                    *v == Json::Object(*m),
                    k <= 4,
                    deep_hex_preferred(m@, k as int) == deep_hex_preferred(m@, 0),
                decreases 4 - k,
            {
                let key = preferred_key_exec(k);
                match v.get_member(key) {
                    Some(sub) => {
                        proof {
                            lemma_member_index(m@, key@);
                        }
                        let r = deep_hex_exec(sub);
                        if r.is_some() {
                            return r;
                        }
                    },
                    None => {},
                }
                k = k + 1;
            }
            let mut i: usize = 0;
            while i < m.len()
                invariant
                    *v == Json::Object(*m),
                    i <= m.len(),
                    deep_hex_members(m@, i as int) == deep_hex_preferred(m@, 0),
                decreases m.len() - i,
            {
                let r = deep_hex_exec(&m[i].1);
                if r.is_some() {
                    return r;
                }
                i = i + 1;
            }
            None
        },
        Json::Array(a) => {
            let mut i: usize = 0;
            while i < a.len()
                invariant
                    *v == Json::Array(*a),
                    i <= a.len(),
                    deep_hex_items(a@, i as int) == deep_hex(*v),
                decreases a.len() - i,
            {
                let r = deep_hex_exec(&a[i]);
                if r.is_some() {
                    return r;
                }
                i = i + 1;
            }
            None
        },
        _ => None,
    }
}

/// Recursively finds the `key` subtree and searches a colour inside it
/// (see [`find_key_spec`]).
pub fn find_key(v: &Json, key: &str) -> (r: Option<String>)
    ensures
        opt_text(r) == find_key_spec(*v, key@),
    decreases *v, 0int,
{
    match v {
        Json::Object(m) => {
            let mut i: usize = 0;
            while i < m.len()
                invariant
                    *v == Json::Object(*m),
                    i <= m.len(),
                    find_key_members(m@, i as int, key@) == find_key_spec(*v, key@),
                decreases m.len() - i,
            {
                let k = &m[i].0;
                let val = &m[i].1;
                if crate::json::str_eq(k.as_str(), key) {
                    match val.as_text() {
                        Some(s) => {
                            let c = chars_of(s.as_str());
                            if c.len() > 0 && c[0] == '#' {
                                return Some(s.clone());
                            }
                        },
                        None => {},
                    }
                    let d = deep_hex_exec(val);
                    if d.is_some() {
                        return d;
                    }
                }
                let f = find_key(val, key);
                if f.is_some() {
                    return f;
                }
                i = i + 1;
            }
            None
        },
        Json::Array(a) => {
            let mut i: usize = 0;
            while i < a.len()
                invariant
                    *v == Json::Array(*a),
                    i <= a.len(),
                    find_key_items(a@, i as int, key@) == find_key_spec(*v, key@),
                decreases a.len() - i,
            {
                let f = find_key(&a[i], key);
                if f.is_some() {
                    return f;
                }
                i = i + 1;
            }
            None
        },
        _ => None,
    }
}

/// The accent of a matugen document: the colour under its `primary` key.
pub open spec fn spec_accent(text: Seq<char>) -> Option<Seq<char>> {
    match spec_json_from_str(text) {
        Some(v) => find_key_spec(v, "primary"@),
        None => None,
    }
}

/// Accent colour of a matugen JSON text (`None` when it does not parse or holds none).
pub fn accent_in(text: &str) -> (r: Option<String>)
    ensures
        opt_text(r) == spec_accent(text@),
{
    match json_from_str(text) {
        Some(v) => find_key(&v, "primary"),
        None => None,
    }
}

/// The CSS with the accent rules appended (the base CSS alone without an accent).
pub open spec fn spec_accent_css(base: Seq<char>, accent: Option<Seq<char>>) -> Seq<char> {
    match accent {
        Some(a) => base + "\n.sshell-accent { color: "@ + a + "; }\n.sshell-bar { border-color: "@
            + a + "; }"@,
        None => base,
    }
}

/// The stylesheet loaded on each refresh: `base_css`, plus accent rules when there is an accent.
pub fn accent_css(base_css: &str, accent: Option<&str>) -> (r: String)
    ensures
        r@ == spec_accent_css(
            base_css@,
            match accent {
                Some(a) => Some(a@),
                None => None,
            },
        ),
{
    let mut out: Vec<char> = Vec::new();
    push_str(&mut out, base_css);
    match accent {
        Some(a) => {
            push_str(&mut out, "\n.sshell-accent { color: ");
            push_str(&mut out, a);
            push_str(&mut out, "; }\n.sshell-bar { border-color: ");
            push_str(&mut out, a);
            push_str(&mut out, "; }");
        },
        None => {},
    }
    proof {
        reveal_strlit("\n.sshell-accent { color: ");
    }
    assert(out@ =~= spec_accent_css(
        base_css@,
        match accent {
            Some(a) => Some(a@),
            None => None,
        },
    ));
    string_of(out.as_slice())
}

} // verus!
