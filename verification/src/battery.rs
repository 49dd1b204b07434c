//! Battery: aggregation of the power-supply class readings, the bar label and
//! the dimmer hysteresis.
use vstd::prelude::*;
use vstd::wrapping::u64_specs::{wrapping_add, wrapping_mul};
use crate::json::str_eq;
use crate::num::{digits_u64, spec_digits_u64};
use crate::text::{
    chars_of, contains_seq, has_infix, has_prefix, lowercase, push_dec, push_str, spec_lowercase,
    starts_with, string_of, trim, trim_str, dec,
};

verus! {

/// Battery charge and mains state.
pub struct BatteryState {
    /// Charge in percent (0..=100), when any battery reported one.
    pub pct: Option<u8>,
    /// Some battery reports `Charging`.
    pub charging: bool,
    /// Mains online, or charging.
    pub plugged: bool,
    pub time_empty_s: u64,
    pub time_full_s: u64,
}

impl Default for BatteryState {
    fn default() -> (r: BatteryState)
        ensures
            r.pct is None,
            !r.charging,
            !r.plugged,
            r.time_empty_s == 0,
            r.time_full_s == 0,
    {
        BatteryState { pct: None, charging: false, plugged: false, time_empty_s: 0, time_full_s: 0 }
    }
}

/// What is read of one device directory under the power-supply class: its
/// name and the raw contents of the attribute files (`None`: unreadable).
pub struct PowerSupply {
    pub name: String,
    pub kind: Option<String>,
    pub online: Option<String>,
    pub status: Option<String>,
    pub energy_now: Option<String>,
    pub energy_full: Option<String>,
    pub charge_now: Option<String>,
    pub charge_full: Option<String>,
    pub voltage_now: Option<String>,
    pub voltage_min_design: Option<String>,
    pub capacity: Option<String>,
}

/// Running totals over the devices.
pub struct Totals {
    pub total_now: u64,
    pub total_full: u64,
    pub cap_sum: u64,
    pub cap_n: u64,
    pub any_charging: bool,
    pub mains_online: bool,
}

/// The digits of an attribute parsed as `u64`.
pub open spec fn attr_u64(a: Option<String>) -> Option<u64> {
    match a {
        Some(s) => spec_digits_u64(trim(s@)),
        None => None,
    }
}

/// The trimmed text of an attribute.
pub open spec fn attr_text(a: Option<String>) -> Option<Seq<char>> {
    match a {
        Some(s) => Some(trim(s@)),
        None => None,
    }
}

/// Peripheral batteries (mice, keyboards, tablets, Bluetooth) are ignored.
pub open spec fn is_peripheral(name: Seq<char>) -> bool {
    let n = spec_lowercase(name);
    contains_seq(n, "hid"@) || contains_seq(n, "mouse"@) || contains_seq(n, "kbd"@)
        || contains_seq(n, "wacom"@) || contains_seq(n, "bluetooth"@)
}

/// The device's lowercased type.
pub open spec fn kind_of(d: PowerSupply) -> Seq<char> {
    spec_lowercase(
        match attr_text(d.kind) {
            Some(t) => t,
            None => Seq::empty(),
        },
    )
}

/// A mains-like supply (mains, USB, wireless, brick).
pub open spec fn is_mains_kind(t: Seq<char>) -> bool {
    t == "mains"@ || starts_with(t, "usb"@) || t == "wireless"@ || t == "brickid"@
}

pub open spec fn min100(x: u64) -> u64 {
    if x < 100 {
        x
    } else {
        100
    }
}

/// Adds a capacity percentage (capped at 100) to the averaged sum.
pub open spec fn add_cap(t: Totals, pct: u64) -> Totals {
    Totals {
        cap_sum: wrapping_add(t.cap_sum, min100(pct)),
        cap_n: wrapping_add(t.cap_n, 1),
        ..t
    }
}

/// Energy or charge contribution of a battery, once its status is counted.
pub open spec fn battery_step(t: Totals, d: PowerSupply) -> Totals {
    match (attr_u64(d.energy_now), attr_u64(d.energy_full)) {
        (Some(now), Some(full)) if full >= 1000 => Totals {
            total_now: wrapping_add(t.total_now, now / 1000),
            total_full: wrapping_add(t.total_full, full / 1000),
            ..t
        },
        _ => match (attr_u64(d.charge_now), attr_u64(d.charge_full)) {
            (Some(now), Some(full)) if full >= 1000 => {
                let vnow = match attr_u64(d.voltage_now) {
                    Some(v) => v,
                    None => match attr_u64(d.voltage_min_design) {
                        Some(v) => v,
                        None => 0,
                    },
                };
                if vnow > 100_000 {
                    let mv = vnow / 1000;
                    Totals {
                        total_now: wrapping_add(
                            t.total_now,
                            wrapping_mul(now / 1000, mv) / 1000,
                        ),
                        total_full: wrapping_add(
                            t.total_full,
                            wrapping_mul(full / 1000, mv) / 1000,
                        ),
                        ..t
                    }
                } else {
                    add_cap(t, wrapping_mul(now, 100) / full)
                }
            },
            _ => match attr_u64(d.capacity) {
                Some(cap) => add_cap(t, cap),
                None => t,
            },
        },
    }
}

/// The effect of one device on the totals.
pub open spec fn device_step(t: Totals, d: PowerSupply) -> Totals {
    let k = kind_of(d);
    if is_peripheral(d.name@) {
        t
    } else if is_mains_kind(k) {
        if attr_text(d.online) == Some("1"@) {
            Totals { mains_online: true, ..t }
        } else {
            t
        }
    } else if k != "battery"@ && k != "ups"@ {
        t
    } else {
        let t1 = match attr_text(d.status) {
            Some(st) => if spec_lowercase(st) == "charging"@ {
                Totals { any_charging: true, ..t }
            } else {
                t
            },
            None => t,
        };
        battery_step(t1, d)
    }
}

/// Totals over a list of devices, in order.
pub open spec fn totals(ds: Seq<PowerSupply>) -> Totals
    decreases ds.len(),
{
    if ds.len() == 0 {
        Totals {
            total_now: 0,
            total_full: 0,
            cap_sum: 0,
            cap_n: 0,
            any_charging: false,
            mains_online: false,
        }
    } else {
        device_step(totals(ds.drop_last()), ds.last())
    }
}

/// The percentage from the totals: energy ratio when any energy was summed,
/// else the average capacity, else none.
pub open spec fn pct_of(t: Totals) -> Option<u8> {
    if t.total_full > 0 {
        Some(min100(wrapping_mul(t.total_now, 100) / t.total_full) as u8)
    } else if t.cap_n > 0 {
        Some(min100(t.cap_sum / t.cap_n) as u8)
    } else {
        None
    }
}

/// The aggregated state of all system batteries and mains supplies.
pub open spec fn spec_aggregate(ds: Seq<PowerSupply>) -> BatteryState {
    let t = totals(ds);
    BatteryState {
        pct: pct_of(t),
        charging: t.any_charging,
        plugged: t.mains_online || t.any_charging,
        time_empty_s: 0,
        time_full_s: 0,
    }
}

fn attr_u64_exec(a: &Option<String>) -> (r: Option<u64>)
    ensures
        r == attr_u64(*a),
{
    match a {
        Some(s) => {
            let t = trim_str(s.as_str());
            digits_u64(t.as_str())
        },
        None => None,
    }
}

fn attr_is(a: &Option<String>, want: &str) -> (r: bool)
    ensures
        r == (attr_text(*a) == Some(want@)),
{
    match a {
        Some(s) => {
            let t = trim_str(s.as_str());
            str_eq(t.as_str(), want)
        },
        None => false,
    }
}

fn infix(s: &Vec<char>, p: &str) -> (r: bool)
    ensures
        r == contains_seq(s@, p@),
{
    let pv = chars_of(p);
    has_infix(s, &pv)
}

fn min100_exec(x: u64) -> (r: u64)
    ensures
        r == min100(x),
{
    if x < 100 {
        x
    } else {
        100
    }
}

fn battery_step_exec(t: Totals, d: &PowerSupply) -> (r: Totals)
    ensures
        r == battery_step(t, *d),
{
    let en = attr_u64_exec(&d.energy_now);
    let ef = attr_u64_exec(&d.energy_full);
    if let (Some(now), Some(full)) = (en, ef) {
        if full >= 1000 {
            return Totals {
                total_now: t.total_now.wrapping_add(now / 1000),
                total_full: t.total_full.wrapping_add(full / 1000),
                ..t
            };
        }
    }
    let cn = attr_u64_exec(&d.charge_now);
    let cf = attr_u64_exec(&d.charge_full);
    if let (Some(now), Some(full)) = (cn, cf) {
        if full >= 1000 {
            let vnow = match attr_u64_exec(&d.voltage_now) {
                Some(v) => v,
                None => match attr_u64_exec(&d.voltage_min_design) {
                    Some(v) => v,
                    None => 0,
                },
            };
            if vnow > 100_000 {
                let mv = vnow / 1000;
                return Totals {
                    total_now: t.total_now.wrapping_add((now / 1000).wrapping_mul(mv) / 1000),
                    total_full: t.total_full.wrapping_add((full / 1000).wrapping_mul(mv) / 1000),
                    ..t
                };
            } else {
                let pct = now.wrapping_mul(100) / full;
                return Totals {
                    cap_sum: t.cap_sum.wrapping_add(min100_exec(pct)),
                    cap_n: t.cap_n.wrapping_add(1),
                    ..t
                };
            }
        }
    }
    match attr_u64_exec(&d.capacity) {
        Some(cap) => Totals {
            cap_sum: t.cap_sum.wrapping_add(min100_exec(cap)),
            cap_n: t.cap_n.wrapping_add(1),
            ..t
        },
        None => t,
    }
}

fn device_step_exec(t: Totals, d: &PowerSupply) -> (r: Totals)
    ensures
        r == device_step(t, *d),
{
    let kind_raw = match &d.kind {
        Some(s) => trim_str(s.as_str()),
        None => String::new(),
    };
    let k = lowercase(kind_raw.as_str());
    let name = lowercase(d.name.as_str());
    let nv = chars_of(name.as_str());
    if infix(&nv, "hid") || infix(&nv, "mouse") || infix(&nv, "kbd") || infix(&nv, "wacom")
        || infix(&nv, "bluetooth") {
        return t;
    }
    let kv = chars_of(k.as_str());
    let usb = chars_of("usb");
    let ks = k.as_str();
    if str_eq(ks, "mains") || has_prefix(&kv, &usb) || str_eq(ks, "wireless") || str_eq(
        ks,
        "brickid",
    ) {
        if attr_is(&d.online, "1") {
            return Totals { mains_online: true, ..t };
        }
        return t;
    }
    if !str_eq(ks, "battery") && !str_eq(ks, "ups") {
        return t;
    }
    let t1 = match &d.status {
        Some(st) => {
            let stt = trim_str(st.as_str());
            let low = lowercase(stt.as_str());
            if str_eq(low.as_str(), "charging") {
                Totals { any_charging: true, ..t }
            } else {
                t
            }
        },
        None => t,
    };
    battery_step_exec(t1, d)
}

/// Aggregates all system batteries (energy, charge normalized by voltage, or
/// capacity) and the mains supplies, ignoring peripheral devices.
pub fn aggregate(devices: &Vec<PowerSupply>) -> (r: BatteryState)
    ensures
        r == spec_aggregate(devices@),
{
    let mut t = Totals {
        total_now: 0,
        total_full: 0,
        cap_sum: 0,
        cap_n: 0,
        any_charging: false,
        mains_online: false,
    };
    let mut i: usize = 0;
    while i < devices.len()
        invariant
            i <= devices.len(),
            t == totals(devices@.take(i as int)),
        decreases devices.len() - i,
    {
        t = device_step_exec(t, &devices[i]);
        assert(devices@.take(i + 1).drop_last() =~= devices@.take(i as int));
        i = i + 1;
    }
    assert(devices@.take(devices.len() as int) =~= devices@);
    let pct = if t.total_full > 0 {
        Some(min100_exec(t.total_now.wrapping_mul(100) / t.total_full) as u8)
    } else if t.cap_n > 0 {
        Some(min100_exec(t.cap_sum / t.cap_n) as u8)
    } else {
        None
    };
    BatteryState {
        pct,
        charging: t.any_charging,
        plugged: t.mains_online || t.any_charging,
        time_empty_s: 0,
        time_full_s: 0,
    }
}

/// The bar label: charging / level icon and percentage, or `--%` when unknown.
pub open spec fn spec_bar_text(s: BatteryState) -> Seq<char> {
    match s.pct {
        Some(p) => {
            let icon = if s.charging {
                "󰂄"@
            } else if p > 80 {
                "󰁹"@
            } else if p > 50 {
                "󰁾"@
            } else {
                "󰁻"@
            };
            icon + " "@ + dec(p as nat) + "%"@
        },
        None => "󰂃 --%"@,
    }
}

/// Text for the bar module.
pub fn bar_text(s: &BatteryState) -> (r: String)
    ensures
        r@ == spec_bar_text(*s),
{
    match s.pct {
        Some(p) => {
            let icon = if s.charging {
                "󰂄"
            } else if p > 80 {
                "󰁹"
            } else if p > 50 {
                "󰁾"
            } else {
                "󰁻"
            };
            let mut out: Vec<char> = Vec::new();
            push_str(&mut out, icon);
            push_str(&mut out, " ");
            push_dec(&mut out, p as u64);
            push_str(&mut out, "%");
            string_of(out.as_slice())
        },
        None => String::from_str("󰂃 --%"),
    }
}

/// Dimming threshold in percent.
pub const THRESHOLD: u8 = 50;

/// Hysteresis above the threshold before the dimmer lets go.
pub const HYST: u8 = 3;

/// The dimmer decision: on at or below 50%; once on, it stays on up to 53%.
pub open spec fn spec_should_dim(pct: u8, dimmed: bool) -> bool {
    if dimmed {
        pct <= THRESHOLD + HYST
    } else {
        pct <= THRESHOLD
    }
}

/// Should the dimmer be active? Same hysteresis as the backlight daemon (50/53).
pub fn should_dim(pct: u8, dimmed: bool) -> (r: bool)
    ensures
        r == spec_should_dim(pct, dimmed),
{
    if dimmed {
        pct <= THRESHOLD + HYST
    } else {
        pct <= THRESHOLD
    }
}

/// Hysteresis: at or below 50% the dimmer is on and above 53% off, whatever its
/// state; from 51% to 53% it keeps its state.
pub proof fn dimmer_hysteresis(pct: u8, dimmed: bool)
    ensures
        pct <= 50 ==> spec_should_dim(pct, dimmed),
        pct > 53 ==> !spec_should_dim(pct, dimmed),
        51 <= pct <= 53 ==> spec_should_dim(pct, dimmed) == dimmed,
{
}

/// Once dimmed, the dimmer lets go only when the charge rises above 53%;
/// it never turns on above 50%.
pub proof fn dimmer_monotone(pct: u8)
    ensures
        spec_should_dim(pct, false) ==> spec_should_dim(pct, true),
{
}

/// Peripheral batteries never count: adding a mouse, keyboard, tablet or
/// Bluetooth device to the readings leaves the aggregate as it was.
pub proof fn peripherals_ignored(ds: Seq<PowerSupply>, d: PowerSupply)
    requires
        is_peripheral(d.name@),
    ensures
        spec_aggregate(ds.push(d)) == spec_aggregate(ds),
{
    assert(ds.push(d).drop_last() =~= ds);
}

/// The aggregated charge is a percentage: never above 100.
pub proof fn aggregate_at_most_100(ds: Seq<PowerSupply>)
    ensures
        spec_aggregate(ds).pct matches Some(p) ==> p <= 100,
{
}

/// Charging implies plugged in.
pub proof fn charging_implies_plugged(ds: Seq<PowerSupply>)
    ensures
        spec_aggregate(ds).charging ==> spec_aggregate(ds).plugged,
{
}

/// A system battery that reports energy: not a peripheral, of type battery
/// (or UPS), with readable `energy_now` and an `energy_full` of at least 1000.
pub open spec fn energy_battery(d: PowerSupply) -> bool {
    &&& !is_peripheral(d.name@)
    &&& (kind_of(d) == "battery"@ || kind_of(d) == "ups"@)
    &&& attr_u64(d.energy_now) is Some
    &&& attr_u64(d.energy_full) matches Some(f) && f >= 1000
}

/// The summed `energy_now / 1000` of a list of devices (in mWh).
pub open spec fn energy_now_sum(ds: Seq<PowerSupply>) -> nat
    decreases ds.len(),
{
    if ds.len() == 0 {
        0
    } else {
        energy_now_sum(ds.drop_last()) + (attr_u64(ds.last().energy_now)->0 / 1000) as nat
    }
}

/// The summed `energy_full / 1000` of a list of devices (in mWh).
pub open spec fn energy_full_sum(ds: Seq<PowerSupply>) -> nat
    decreases ds.len(),
{
    if ds.len() == 0 {
        0
    } else {
        energy_full_sum(ds.drop_last()) + (attr_u64(ds.last().energy_full)->0 / 1000) as nat
    }
}

proof fn lemma_not_mains(d: PowerSupply)
    requires
        kind_of(d) == "battery"@ || kind_of(d) == "ups"@,
    ensures
        !is_mains_kind(kind_of(d)),
{
    reveal_strlit("battery");
    reveal_strlit("ups");
    reveal_strlit("mains");
    reveal_strlit("usb");
    reveal_strlit("wireless");
    reveal_strlit("brickid");
    let k = kind_of(d);
    if starts_with(k, "usb"@) {
        assert(k.subrange(0, 3)[1] == k[1]);
        assert("usb"@[1] == 's');
    }
    assert(k != "mains"@) by {
        assert("mains"@.len() == 5);
    }
    assert(k != "wireless"@) by {
        assert("wireless"@.len() == 8);
    }
    assert(k != "brickid"@) by {
        assert("brickid"@[1] == 'r');
    }
}

/// Another energy battery adds its energy to both totals (in mWh, wrapping
/// like the `u64` sums it models) and leaves the capacity average alone.
pub proof fn energy_battery_adds(ds: Seq<PowerSupply>, d: PowerSupply)
    requires
        energy_battery(d),
    ensures
        totals(ds.push(d)).total_now == wrapping_add(
            totals(ds).total_now,
            attr_u64(d.energy_now)->0 / 1000,
        ),
        totals(ds.push(d)).total_full == wrapping_add(
            totals(ds).total_full,
            attr_u64(d.energy_full)->0 / 1000,
        ),
        totals(ds.push(d)).cap_sum == totals(ds).cap_sum,
        totals(ds.push(d)).cap_n == totals(ds).cap_n,
{
    lemma_not_mains(d);
    reveal_strlit("battery");
    reveal_strlit("ups");
    assert(ds.push(d).drop_last() =~= ds);
}

proof fn lemma_energy_totals(ds: Seq<PowerSupply>)
    requires
        forall|i: int| 0 <= i < ds.len() ==> energy_battery(#[trigger] ds[i]),
        energy_full_sum(ds) <= u64::MAX,
        energy_now_sum(ds) <= u64::MAX,
    ensures
        totals(ds).total_now == energy_now_sum(ds),
        totals(ds).total_full == energy_full_sum(ds),
        totals(ds).cap_n == 0,
    decreases ds.len(),
{
    if ds.len() > 0 {
        let dl = ds.drop_last();
        assert forall|i: int| 0 <= i < dl.len() implies energy_battery(#[trigger] dl[i]) by {
            assert(dl[i] == ds[i]);
        }
        assert(energy_battery(ds[ds.len() - 1]));
        lemma_energy_totals(dl);
        energy_battery_adds(dl, ds.last());
        assert(dl.push(ds.last()) =~= ds);
    }
}

/// Energy-reporting batteries are summed: the charge is the total energy now
/// over the total energy when full, in percent, capped at 100 (while the sums
/// fit the `u64` arithmetic).
pub proof fn energy_batteries_summed(ds: Seq<PowerSupply>)
    requires
        forall|i: int| 0 <= i < ds.len() ==> energy_battery(#[trigger] ds[i]),
        energy_full_sum(ds) > 0,
        energy_full_sum(ds) <= u64::MAX,
        100 * energy_now_sum(ds) <= u64::MAX,
    ensures
        spec_aggregate(ds).pct == Some(
            (if 100 * energy_now_sum(ds) / energy_full_sum(ds) < 100 {
                100 * energy_now_sum(ds) / energy_full_sum(ds)
            } else {
                100
            }) as u8,
        ),
{
    lemma_energy_totals(ds);
    let t = totals(ds);
    let n = t.total_now;
    assert(t.total_full > 0);
    assert(wrapping_mul(n, 100) == n * 100) by {
        assert((n as nat * 100nat) < 0x1_0000_0000_0000_0000nat);
        vstd::arithmetic::div_mod::lemma_small_mod(
            (n as nat * 100nat),
            0x1_0000_0000_0000_0000nat,
        );
    }
}

} // verus!
