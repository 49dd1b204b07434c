//! Labels and timing of the bar: the clock, the weather pill, the dimmer
//! hint, and the minute-aligned refresh.
use vstd::prelude::*;
use crate::battery::spec_should_dim;
use crate::text::{push_str, string_of};

verus! {

/// The clock's time format (24-hour or 12-hour with AM/PM), as a `strftime` pattern.
pub open spec fn spec_time_format(format_24: bool) -> Seq<char> {
    if format_24 {
        "%H:%M"@
    } else {
        "%-I:%M %p"@
    }
}

/// The time format for the clock setting.
pub fn time_format(format_24: bool) -> (r: &'static str)
    ensures
        r@ == spec_time_format(format_24),
{
    if format_24 {
        "%H:%M"
    } else {
        "%-I:%M %p"
    }
}

/// The date format shown after the time (`Mon Jan 5`).
pub fn date_format() -> (r: &'static str)
    ensures
        r@ == "%a %b %-d"@,
{
    "%a %b %-d"
}

/// The clock label: the time, then two spaces and the date when shown.
pub open spec fn spec_clock_label(time: Seq<char>, date: Option<Seq<char>>) -> Seq<char> {
    match date {
        Some(d) => time + "  "@ + d,
        None => time,
    }
}

pub open spec fn opt_text(x: Option<&str>) -> Option<Seq<char>> {
    match x {
        Some(s) => Some(s@),
        None => None,
    }
}

/// Joins the formatted time and date into the clock label.
pub fn clock_label(time: &str, date: Option<&str>) -> (r: String)
    ensures
        r@ == spec_clock_label(time@, opt_text(date)),
{
    match date {
        Some(d) => {
            let mut v: Vec<char> = Vec::new();
            push_str(&mut v, time);
            push_str(&mut v, "  ");
            push_str(&mut v, d);
            string_of(v.as_slice())
        },
        None => String::from_str(time),
    }
}

/// Seconds until the next minute boundary, at least one (the clock redraws
/// on the minute, not every second).
pub open spec fn spec_secs_to_next_minute(epoch_secs: u64) -> u32 {
    let r = 60 - (epoch_secs % 60);
    if r >= 1 {
        r as u32
    } else {
        1
    }
}

/// Seconds to the next minute for a wall-clock time in seconds since the epoch.
pub fn secs_to_next_minute(epoch_secs: u64) -> (r: u32)
    ensures
        r == spec_secs_to_next_minute(epoch_secs),
        1 <= r <= 60,
{
    let r = 60 - epoch_secs % 60;
    if r >= 1 {
        r as u32
    } else {
        1
    }
}

/// Waiting the returned time lands exactly on the next minute boundary.
pub proof fn next_minute_aligned(epoch_secs: u64)
    ensures
        (epoch_secs + spec_secs_to_next_minute(epoch_secs)) % 60 == 0,
{
}

/// The weather pill: the cloud icon and the cached temperature, `--` when
/// nothing is cached.
pub open spec fn spec_weather_label(temp: Option<Seq<char>>) -> Seq<char> {
    match temp {
        Some(t) => "󰖐 "@ + t,
        None => "󰖐 --"@,
    }
}

/// The weather pill's text.
pub fn weather_label(temp: Option<&str>) -> (r: String)
    ensures
        r@ == spec_weather_label(opt_text(temp)),
{
    let mut v: Vec<char> = Vec::new();
    push_str(&mut v, "󰖐 ");
    match temp {
        Some(t) => push_str(&mut v, t),
        None => push_str(&mut v, "--"),
    }
    proof {
        reveal_strlit("󰖐 ");
        reveal_strlit("󰖐 --");
        reveal_strlit("--");
    }
    string_of(v.as_slice())
}

/// The battery tooltip: a dimmer hint when the charge is at or below the
/// dimming threshold (seen from an undimmed state), empty otherwise.
pub open spec fn spec_dim_hint(pct: u8) -> Seq<char> {
    if spec_should_dim(pct, false) {
        "battery-dimmer active (≤50%)"@
    } else {
        ""@
    }
}

/// The battery tooltip for a charge percentage.
pub fn dim_hint(pct: u8) -> (r: &'static str)
    ensures
        r@ == spec_dim_hint(pct),
{
    if crate::battery::should_dim(pct, false) {
        "battery-dimmer active (≤50%)"
    } else {
        ""
    }
}

} // verus!
