//! Decisions of the bus watchers: which signals wake the bar, and the
//! debounce that coalesces bursts of them.
use vstd::prelude::*;
use crate::text::{chars_of, has_prefix, starts_with};

verus! {

/// Signals on a media player's object path.
pub open spec fn spec_is_mpris_path(path: Seq<char>) -> bool {
    starts_with(path, "/org/mpris/MediaPlayer2"@)
}

/// Is the signal's object path a media player's?
pub fn is_mpris_path(path: &str) -> (r: bool)
    ensures
        r == spec_is_mpris_path(path@),
{
    has_prefix(&chars_of(path), &chars_of("/org/mpris/MediaPlayer2"))
}

/// Network signals worth a refresh: sent by NetworkManager or BlueZ by name,
/// or by a unique name (`:1.x`) on a NetworkManager object path.
pub open spec fn spec_net_signal_wanted(sender: Seq<char>, path: Option<Seq<char>>) -> bool {
    let on_nm_path = match path {
        Some(p) => starts_with(p, "/org/freedesktop/NetworkManager"@),
        None => false,
    };
    ||| starts_with(sender, "org.freedesktop.NetworkManager"@)
    ||| starts_with(sender, "org.bluez"@)
    ||| (starts_with(sender, ":"@) && on_nm_path)
}

pub open spec fn opt_text(x: Option<&str>) -> Option<Seq<char>> {
    match x {
        Some(s) => Some(s@),
        None => None,
    }
}

/// Does a property-change signal concern the network? `sender` is empty when
/// the message has none.
pub fn net_signal_wanted(sender: &str, path: Option<&str>) -> (r: bool)
    ensures
        r == spec_net_signal_wanted(sender@, opt_text(path)),
{
    let s = chars_of(sender);
    let on_nm_path = match path {
        Some(p) => has_prefix(&chars_of(p), &chars_of("/org/freedesktop/NetworkManager")),
        None => false,
    };
    has_prefix(&s, &chars_of("org.freedesktop.NetworkManager")) || has_prefix(
        &s,
        &chars_of("org.bluez"),
    ) || (has_prefix(&s, &chars_of(":")) && on_nm_path)
}

/// Coalesces bursts of wake-ups: a wake-up fires only when at least the
/// window has passed since the last one that fired. Times are milliseconds on
/// a monotonic clock.
#[derive(Debug, Clone, Copy)]
pub struct Debounce {
    pub last: Option<u64>,
}

/// One wake-up at `now` against the last firing: whether it fires, and the
/// last firing afterwards. An earlier `now` than the last firing counts as no
/// time passed (the clock is monotonic).
pub open spec fn spec_fire(last: Option<u64>, now: u64, window: u64) -> (bool, Option<u64>) {
    let ok = match last {
        None => true,
        Some(l) => (if now >= l { now - l } else { 0 }) >= window,
    };
    if ok {
        (true, Some(now))
    } else {
        (false, last)
    }
}

impl Debounce {
    /// Nothing has fired yet, so the first wake-up fires.
    pub fn new() -> (r: Debounce)
        ensures
            r.last.is_none(),
    {
        Debounce { last: None }
    }

    /// Does a wake-up at `now` fire? When it does, it becomes the last one.
    pub fn fire(&mut self, now: u64, window: u64) -> (r: bool)
        ensures
            (r, final(self).last) == spec_fire(old(self).last, now, window),
    {
        let ok = match self.last {
            None => true,
            Some(l) => now.saturating_sub(l) >= window,
        };
        if ok {
            self.last = Some(now);
        }
        ok
    }
}

/// Two firings in a row are at least a window apart: after a wake-up at `t1`
/// fired, a wake-up at a later `t2` fires exactly when `t2 - t1 >= window`,
/// whatever came before.
pub proof fn debounce_spacing(last: Option<u64>, t1: u64, t2: u64, window: u64)
    requires
        spec_fire(last, t1, window).0,
        t1 <= t2,
    ensures
        spec_fire(spec_fire(last, t1, window).1, t2, window).0 == (t2 - t1 >= window),
{
}

/// The first wake-up always fires.
pub proof fn debounce_first_fires(now: u64, window: u64)
    ensures
        spec_fire(None, now, window) == (true, Some(now)),
{
}

} // verus!
