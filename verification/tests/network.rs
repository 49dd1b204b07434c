use sshell_rs::network::{bar_text, snapshot_from_links, Link, NetState};

fn link(iface: &str, op: &str) -> Link {
    Link { iface: iface.to_string(), operstate: op.to_string() }
}

#[test]
fn snapshot_from_interface_states() {
    let st = snapshot_from_links(&vec![
        link("lo", "unknown\n"),
        link("enp3s0", "down\n"),
        link("wlan0", "dormant\n"),
        link("eth1", "up\n"),
        link("virbr0", "up\n"),
    ]);
    assert!(st.eth_connected);
    assert_eq!(st.eth_iface, "eth1");
    assert!(st.wifi_enabled);
    assert!(st.wifi_connected);
    assert_eq!(st.ssid, "");
    assert!(!st.bt_connected);
    let off = snapshot_from_links(&vec![link("wlp2s0", "down")]);
    assert!(off.wifi_enabled && !off.wifi_connected && !off.eth_connected);
    let none = snapshot_from_links(&vec![]);
    assert!(!none.wifi_enabled && !none.eth_connected);
}

#[test]
fn network_labels() {
    let mut st = NetState::default();
    assert_eq!(bar_text(&st, true), "󰤭 down");
    st.wifi_enabled = true;
    assert_eq!(bar_text(&st, true), "󰤭 off");
    st.wifi_connected = true;
    st.signal = 80;
    assert_eq!(bar_text(&st, true), "󰤨 wifi");
    st.ssid = "home".to_string();
    assert_eq!(bar_text(&st, true), "󰤨 home");
    assert_eq!(bar_text(&st, false), "󰤨 wifi");
    st.signal = 74;
    assert_eq!(bar_text(&st, true), "󰤥 home");
    st.signal = 25;
    assert_eq!(bar_text(&st, true), "󰤢 home");
    st.signal = 24;
    assert_eq!(bar_text(&st, true), "󰤟 home");
    st.signal = 101;
    assert_eq!(bar_text(&st, true), "󰤟 home");
    st.eth_connected = true;
    assert_eq!(bar_text(&st, true), "󰈀 eth");
    st.eth_iface = "enp3s0".to_string();
    assert_eq!(bar_text(&st, true), "󰈀 enp3s0");
    assert_eq!(bar_text(&st, false), "󰈀 eth");
}
