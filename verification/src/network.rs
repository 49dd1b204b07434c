//! Network and Bluetooth state: the offline snapshot taken from the kernel's
//! interface list, and the bar label.
use vstd::prelude::*;
use crate::json::str_eq;
use crate::text::{chars_of, push_str, string_of, trim, trim_str};

verus! {

/// What the bar knows about connectivity.
#[derive(Debug, Clone)]
pub struct NetState {
    pub wifi_enabled: bool,
    pub wifi_connected: bool,
    pub ssid: String,
    pub signal: u8,
    pub eth_connected: bool,
    pub eth_iface: String,
    pub bt_connected: bool,
    pub bt_name: String,
}

impl Default for NetState {
    fn default() -> (r: NetState)
        ensures
            !r.wifi_enabled,
            !r.wifi_connected,
            r.ssid@ == Seq::<char>::empty(),
            r.signal == 0,
            !r.eth_connected,
            r.eth_iface@ == Seq::<char>::empty(),
            !r.bt_connected,
            r.bt_name@ == Seq::<char>::empty(),
    {
        NetState {
            wifi_enabled: false,
            wifi_connected: false,
            ssid: String::new(),
            signal: 0,
            eth_connected: false,
            eth_iface: String::new(),
            bt_connected: false,
            bt_name: String::new(),
        }
    }
}

/// One network interface as listed under the kernel's net class: its name and
/// the raw content of its `operstate` file (empty when unreadable).
#[derive(Debug, Clone)]
pub struct Link {
    pub iface: String,
    pub operstate: String,
}

/// An interface counts as up when its trimmed state is `up` or `dormant`.
pub open spec fn link_up(raw: Seq<char>) -> bool {
    trim(raw) == "up"@ || trim(raw) == "dormant"@
}

/// Wired interfaces are named `e…` (`en*`, `eth*`); the loopback is skipped.
pub open spec fn is_eth(iface: Seq<char>) -> bool {
    iface != "lo"@ && iface.len() > 0 && iface[0] == 'e'
}

/// Wireless interfaces are named `w…`.
pub open spec fn is_wifi(iface: Seq<char>) -> bool {
    iface != "lo"@ && iface.len() > 0 && iface[0] == 'w'
}

/// The last wired interface that is up, if any.
pub open spec fn last_eth_up(links: Seq<Link>) -> Option<Seq<char>>
    decreases links.len(),
{
    if links.len() == 0 {
        None
    } else {
        let l = links.last();
        if is_eth(l.iface@) && link_up(l.operstate@) {
            Some(l.iface@)
        } else {
            last_eth_up(links.drop_last())
        }
    }
}

/// Some wireless interface exists.
pub open spec fn any_wifi(links: Seq<Link>) -> bool {
    exists|i: int| 0 <= i < links.len() && is_wifi(#[trigger] links[i].iface@)
}

/// Some wireless interface is up.
pub open spec fn any_wifi_up(links: Seq<Link>) -> bool {
    exists|i: int|
        0 <= i < links.len() && is_wifi(#[trigger] links[i].iface@) && link_up(
            links[i].operstate@,
        )
}

/// The snapshot's meaning: wired up (last such interface named), wireless present,
/// wireless up; no SSID, signal or Bluetooth information.
pub open spec fn snapshot_of(links: Seq<Link>, st: NetState) -> bool {
    &&& st.eth_connected == last_eth_up(links).is_some()
    &&& st.eth_iface@ == match last_eth_up(links) {
        Some(n) => n,
        None => Seq::<char>::empty(),
    }
    &&& st.wifi_enabled == any_wifi(links)
    &&& st.wifi_connected == any_wifi_up(links)
    &&& st.ssid@ == Seq::<char>::empty()
    &&& st.signal == 0
    &&& !st.bt_connected
    &&& st.bt_name@ == Seq::<char>::empty()
}

fn first_is(s: &str, c: char) -> (r: bool)
    ensures
        r == (s@.len() > 0 && s@[0] == c),
{
    let v = chars_of(s);
    v.len() > 0 && v[0] == c
}

/// Cheap read-only snapshot from the interface list, without asking
/// NetworkManager: wired and wireless link state only.
pub fn snapshot_from_links(links: &Vec<Link>) -> (st: NetState)
    ensures
        snapshot_of(links@, st),
{
    let mut st = NetState::default();
    let mut i: usize = 0;
    while i < links.len()
        invariant
            i <= links.len(),
            snapshot_of(links@.take(i as int), st),
        decreases links.len() - i,
    {
        let l = &links[i];
        let ghost pre = links@.take(i as int);
        let ghost next = links@.take(i + 1);
        assert(next.drop_last() =~= pre);
        assert(next.last() == links@[i as int]);
        let iface = l.iface.as_str();
        let lo = str_eq(iface, "lo");
        let op = trim_str(l.operstate.as_str());
        let up = str_eq(op.as_str(), "up") || str_eq(op.as_str(), "dormant");
        let e = !lo && first_is(iface, 'e');
        let w = !lo && first_is(iface, 'w');
        proof {
            assert(e == is_eth(links@[i as int].iface@));
            assert(w == is_wifi(links@[i as int].iface@));
            assert(up == link_up(links@[i as int].operstate@));
        }
        if e {
            if up {
                st.eth_connected = true;
                st.eth_iface = l.iface.clone();
            }
        } else if w {
            st.wifi_enabled = true;
            if up {
                st.wifi_connected = true;
            }
        }
        proof {
            assert(is_eth(links@[i as int].iface@) ==> !is_wifi(links@[i as int].iface@));
            if w {
                assert(next[i as int] == links@[i as int]);
            }
            assert(any_wifi(next) == (any_wifi(pre) || w)) by {
                if any_wifi(next) && !w {
                    let j = choose|j: int| 0 <= j < next.len() && is_wifi(#[trigger] next[j].iface@);
                    assert(j != i);
                    assert(pre[j] == next[j]);
                }
                if any_wifi(pre) {
                    let j = choose|j: int| 0 <= j < pre.len() && is_wifi(#[trigger] pre[j].iface@);
                    assert(pre[j] == next[j]);
                }
            }
            assert(any_wifi_up(next) == (any_wifi_up(pre) || (w && up))) by {
                if any_wifi_up(next) && !(w && up) {
                    let j = choose|j: int|
                        0 <= j < next.len() && is_wifi(#[trigger] next[j].iface@) && link_up(
                            next[j].operstate@,
                        );
                    assert(j != i);
                    assert(pre[j] == next[j]);
                }
                if any_wifi_up(pre) {
                    let j = choose|j: int|
                        0 <= j < pre.len() && is_wifi(#[trigger] pre[j].iface@) && link_up(
                            pre[j].operstate@,
                        );
                    assert(pre[j] == next[j]);
                }
                if w && up {
                    assert(next[i as int] == links@[i as int]);
                }
            }
        }
        i = i + 1;
    }
    assert(links@.take(links.len() as int) =~= links@);
    st
}

/// The wireless strength icon for a signal percentage.
pub open spec fn signal_icon(signal: u8) -> Seq<char> {
    if 75 <= signal <= 100 {
        "󰤨"@
    } else if 50 <= signal <= 74 {
        "󰤥"@
    } else if 25 <= signal <= 49 {
        "󰤢"@
    } else {
        "󰤟"@
    }
}

/// The bar label: wired first, then wireless (strength icon, SSID when asked
/// and known), then whether the radio is off or the network down.
pub open spec fn spec_bar_text(st: NetState, show_name: bool) -> Seq<char> {
    if st.eth_connected {
        if show_name && st.eth_iface@.len() > 0 {
            "󰈀 "@ + st.eth_iface@
        } else {
            "󰈀 eth"@
        }
    } else if st.wifi_connected {
        if show_name && st.ssid@.len() > 0 {
            signal_icon(st.signal) + " "@ + st.ssid@
        } else {
            signal_icon(st.signal) + " wifi"@
        }
    } else if st.wifi_enabled {
        "󰤭 off"@
    } else {
        "󰤭 down"@
    }
}

/// Text for the network bar module.
pub fn bar_text(st: &NetState, show_name: bool) -> (r: String)
    ensures
        r@ == spec_bar_text(*st, show_name),
{
    let mut out: Vec<char> = Vec::new();
    if st.eth_connected {
        if show_name && !st.eth_iface.as_str().is_empty() {
            push_str(&mut out, "󰈀 ");
            push_str(&mut out, st.eth_iface.as_str());
        } else {
            push_str(&mut out, "󰈀 eth");
        }
    } else if st.wifi_connected {
        let bars = if 75 <= st.signal && st.signal <= 100 {
            "󰤨"
        } else if 50 <= st.signal && st.signal <= 74 {
            "󰤥"
        } else if 25 <= st.signal && st.signal <= 49 {
            "󰤢"
        } else {
            "󰤟"
        };
        push_str(&mut out, bars);
        if show_name && !st.ssid.as_str().is_empty() {
            push_str(&mut out, " ");
            push_str(&mut out, st.ssid.as_str());
        } else {
            push_str(&mut out, " wifi");
        }
    } else if st.wifi_enabled {
        push_str(&mut out, "󰤭 off");
    } else {
        push_str(&mut out, "󰤭 down");
    }
    string_of(out.as_slice())
}

/// Wired connectivity hides the wireless state: whenever a wired link is up the
/// label is the wired one, whatever the radio reports.
pub proof fn wired_takes_precedence(st: NetState, show_name: bool)
    requires
        st.eth_connected,
    ensures
        spec_bar_text(st, show_name).take(2) == "󰈀 "@,
{
    reveal_strlit("󰈀 ");
    reveal_strlit("󰈀 eth");
    if show_name && st.eth_iface@.len() > 0 {
        assert(("󰈀 "@ + st.eth_iface@).take(2) =~= "󰈀 "@);
    } else {
        assert("󰈀 eth"@.take(2) =~= "󰈀 "@);
    }
}

} // verus!
