use sshell_rs::battery::{aggregate, bar_text, should_dim, BatteryState, PowerSupply};

fn supply(name: &str, kind: &str) -> PowerSupply {
    PowerSupply {
        name: name.to_string(),
        kind: Some(format!("{}\n", kind)),
        online: None,
        status: None,
        energy_now: None,
        energy_full: None,
        charge_now: None,
        charge_full: None,
        voltage_now: None,
        voltage_min_design: None,
        capacity: None,
    }
}

#[test]
fn hysteresis() {
    assert!(should_dim(50, false));
    assert!(!should_dim(51, false));
    assert!(should_dim(53, true));
    assert!(!should_dim(54, true));
}

#[test]
fn bar_text_shapes() {
    assert!(bar_text(&BatteryState { pct: Some(74), charging: true, ..Default::default() }).contains("74%"));
    assert!(bar_text(&BatteryState { pct: None, ..Default::default() }).contains("--"));
}

#[test]
fn bar_text_exact_labels() {
    assert_eq!(bar_text(&BatteryState { pct: Some(74), charging: true, ..Default::default() }), "󰂄 74%");
    assert_eq!(bar_text(&BatteryState { pct: Some(81), ..Default::default() }), "󰁹 81%");
    assert_eq!(bar_text(&BatteryState { pct: Some(80), ..Default::default() }), "󰁾 80%");
    assert_eq!(bar_text(&BatteryState { pct: Some(50), ..Default::default() }), "󰁻 50%");
    assert_eq!(bar_text(&BatteryState { pct: None, ..Default::default() }), "󰂃 --%");
}

#[test]
fn dimmer_band_keeps_state() {
    for p in 51..=53u8 {
        assert!(should_dim(p, true));
        assert!(!should_dim(p, false));
    }
    for p in 0..=50u8 {
        assert!(should_dim(p, true) && should_dim(p, false));
    }
    for p in 54..=255u8 {
        assert!(!should_dim(p, true) && !should_dim(p, false));
    }
}

#[test]
fn aggregate_energy_and_mains() {
    let mut bat = supply("BAT0", "Battery");
    bat.status = Some("Charging\n".to_string());
    bat.energy_now = Some("25000000\n".to_string());
    bat.energy_full = Some("50000000\n".to_string());
    let mut ac = supply("AC", "Mains");
    ac.online = Some("1\n".to_string());
    let mut mouse = supply("hidpp_battery_0", "Battery");
    mouse.capacity = Some("10".to_string());
    let st = aggregate(&vec![bat, ac, mouse]);
    assert_eq!(st.pct, Some(50));
    assert!(st.charging);
    assert!(st.plugged);
}

#[test]
fn aggregate_charge_with_voltage() {
    let mut bat = supply("BAT1", "Battery");
    bat.status = Some("Discharging".to_string());
    bat.charge_now = Some("3000000".to_string());
    bat.charge_full = Some("4000000".to_string());
    bat.voltage_now = Some("12000000".to_string());
    // (3000 * 12000) / 1000 = 36000 of (4000 * 12000) / 1000 = 48000 -> 75%
    let st = aggregate(&vec![bat]);
    assert_eq!(st.pct, Some(75));
    assert!(!st.charging);
    assert!(!st.plugged);
}

#[test]
fn aggregate_charge_without_voltage_uses_ratio() {
    let mut bat = supply("BAT0", "Battery");
    bat.charge_now = Some("1500".to_string());
    bat.charge_full = Some("2000".to_string());
    let st = aggregate(&vec![bat]);
    assert_eq!(st.pct, Some(75));
}

#[test]
fn aggregate_capacity_average_and_none() {
    let mut a = supply("BAT0", "Battery");
    a.capacity = Some("40".to_string());
    let mut b = supply("BAT1", "UPS");
    b.capacity = Some("150".to_string());
    let st = aggregate(&vec![a, b]);
    // 40 and min(150, 100) average to 70
    assert_eq!(st.pct, Some(70));
    let none = aggregate(&vec![supply("AC", "Mains")]);
    assert_eq!(none.pct, None);
    assert!(!none.plugged);
}
