//! Shell configuration: the bar layout, the other sections as JSON documents,
//! their defaults, the accessors with their fallbacks, and validation.
#![allow(non_snake_case)]
use vstd::prelude::*;
use crate::json::{as_bool, as_i64, as_str, as_u64, get, str_eq, Json};
use crate::text::{dec_int, push_dec_i64, push_str, string_of};

pub use crate::jsonc::strip_jsonc;

verus! {

/// One module slot of the bar.
pub struct BarModule {
    pub module: String,
    pub enabled: bool,
}

impl Default for BarModule {
    fn default() -> (r: BarModule)
        ensures
            r.module@ == Seq::<char>::empty(),
            !r.enabled,
    {
        BarModule { module: String::new(), enabled: false }
    }
}

/// Bar layout.
pub struct BarConfig {
    pub enabled: bool,
    pub position: String,
    pub style: String,
    pub height: i32,
    pub margin: i32,
    pub padding: i32,
    pub left: Vec<BarModule>,
    pub center: Vec<BarModule>,
    pub right: Vec<BarModule>,
}

/// Default of a module's `enabled` flag when the key is missing.
pub fn enabled_default() -> (r: bool)
    ensures
        r,
{
    true
}

/// Default of `bar.enabled`.
pub fn bar_enabled() -> (r: bool)
    ensures
        r,
{
    true
}

/// Default of `bar.position`.
pub fn top_default() -> (r: String)
    ensures
        r@ == "top"@,
{
    String::from_str("top")
}

/// Default of `bar.style`.
pub fn floating_default() -> (r: String)
    ensures
        r@ == "floating"@,
{
    String::from_str("floating")
}

/// Default of `bar.height`.
pub fn bar_height() -> (r: i32)
    ensures
        r == 38,
{
    38
}

/// Default of `bar.margin`.
pub fn bar_margin() -> (r: i32)
    ensures
        r == 10,
{
    10
}

/// Default of `bar.padding`.
pub fn bar_padding() -> (r: i32)
    ensures
        r == 5,
{
    5
}

fn module(name: &str) -> (r: BarModule)
    ensures
        r.module@ == name@,
        r.enabled,
{
    BarModule { module: String::from_str(name), enabled: true }
}

/// The module names, in order, of a side of the bar.
pub open spec fn names(v: Seq<BarModule>) -> Seq<Seq<char>> {
    v.map_values(|m: BarModule| m.module@)
}

/// The default bar: top, floating, enabled, height 38, margin 10, padding 5;
/// Launcher, Workspaces, Mpris on the left, Clock and Weather in the centre,
/// Battery and Tray on the right, all enabled.
pub open spec fn is_default_bar(r: BarConfig) -> bool {
    &&& r.enabled
    &&& r.position@ == "top"@
    &&& r.style@ == "floating"@
    &&& r.height == 38
    &&& r.margin == 10
    &&& r.padding == 5
    &&& names(r.left@) == seq!["Launcher"@, "Workspaces"@, "Mpris"@]
    &&& names(r.center@) == seq!["Clock"@, "Weather"@]
    &&& names(r.right@) == seq!["Battery"@, "Tray"@]
    &&& forall|i: int| 0 <= i < r.left@.len() ==> (#[trigger] r.left@[i]).enabled
    &&& forall|i: int| 0 <= i < r.center@.len() ==> (#[trigger] r.center@[i]).enabled
    &&& forall|i: int| 0 <= i < r.right@.len() ==> (#[trigger] r.right@[i]).enabled
}

impl Default for BarConfig {
    /// The default bar (see [`is_default_bar`]).
    fn default() -> (r: BarConfig)
        ensures
            is_default_bar(r),
    {
        let mut left = Vec::new();
        left.push(module("Launcher"));
        left.push(module("Workspaces"));
        left.push(module("Mpris"));
        let mut center = Vec::new();
        center.push(module("Clock"));
        center.push(module("Weather"));
        let mut right = Vec::new();
        right.push(module("Battery"));
        right.push(module("Tray"));
        let r = BarConfig {
            enabled: true,
            position: String::from_str("top"),
            style: String::from_str("floating"),
            height: 38,
            margin: 10,
            padding: 5,
            left,
            center,
            right,
        };
        assert(names(r.left@) =~= seq!["Launcher"@, "Workspaces"@, "Mpris"@]);
        assert(names(r.center@) =~= seq!["Clock"@, "Weather"@]);
        assert(names(r.right@) =~= seq!["Battery"@, "Tray"@]);
        r
    }
}

/// Top-level config. Field names mirror the config file's keys.
pub struct ShellConfig {
    pub bar: BarConfig,
    pub controlCenter: Json,
    pub notifications: Json,
    pub launcher: Json,
    pub theme: Json,
    pub weather: Json,
    pub background: Json,
    pub mpris: Json,
    pub clock: Json,
    pub workspaces: Json,
    pub tray: Json,
    pub osd: Json,
}

impl Default for ShellConfig {
    /// The default bar; every other section `null`.
    fn default() -> (r: ShellConfig)
        ensures
            is_default_bar(r.bar),
            r.controlCenter == Json::Null,
            r.notifications == Json::Null,
            r.launcher == Json::Null,
            r.theme == Json::Null,
            r.weather == Json::Null,
            r.background == Json::Null,
            r.mpris == Json::Null,
            r.clock == Json::Null,
            r.workspaces == Json::Null,
            r.tray == Json::Null,
            r.osd == Json::Null,
    {
        ShellConfig {
            bar: BarConfig::default(),
            controlCenter: Json::Null,
            notifications: Json::Null,
            launcher: Json::Null,
            theme: Json::Null,
            weather: Json::Null,
            background: Json::Null,
            mpris: Json::Null,
            clock: Json::Null,
            workspaces: Json::Null,
            tray: Json::Null,
            osd: Json::Null,
        }
    }
}

/// `section.get(key).and_then(as_i64).unwrap_or(d)`.
pub open spec fn int_or(section: Json, key: Seq<char>, d: i64) -> i64 {
    match get(section, key) {
        Some(x) => match as_i64(x) {
            Some(i) => i,
            None => d,
        },
        None => d,
    }
}

impl ShellConfig {
    /// `controlCenter.width` (450 when missing or not an integer), cast to `i32`.
    pub fn control_center_width(&self) -> (r: i32)
        ensures
            r == int_or(self.controlCenter, "width"@, 450) as i32,
    {
        let w: i64 = match self.controlCenter.get_member("width") {
            Some(x) => match x.as_int() {
                Some(i) => i,
                None => 450,
            },
            None => 450,
        };
        w as i32
    }

    /// `osd.timeout` in milliseconds (1500 when missing or not an unsigned integer).
    pub fn osd_timeout_ms(&self) -> (r: u64)
        ensures
            r == match get(self.osd, "timeout"@) {
                Some(x) => match as_u64(x) {
                    Some(u) => u,
                    None => 1500,
                },
                None => 1500,
            },
    {
        match self.osd.get_member("timeout") {
            Some(x) => match x.as_uint() {
                Some(u) => u,
                None => 1500,
            },
            None => 1500,
        }
    }

    /// `weather.city` (empty when missing or not a string).
    pub fn weather_city(&self) -> (r: String)
        ensures
            r@ == match get(self.weather, "city"@) {
                Some(x) => match as_str(x) {
                    Some(s) => s,
                    None => Seq::<char>::empty(),
                },
                None => Seq::<char>::empty(),
            },
    {
        match self.weather.get_member("city") {
            Some(x) => match x.as_text() {
                Some(s) => s.clone(),
                None => String::new(),
            },
            None => String::new(),
        }
    }

    /// 24-hour clock iff `clock.format` is 24 (12 when missing).
    pub fn clock_format_24(&self) -> (r: bool)
        ensures
            r == (int_or(self.clock, "format"@, 12) == 24),
    {
        let f: i64 = match self.clock.get_member("format") {
            Some(x) => match x.as_int() {
                Some(i) => i,
                None => 12,
            },
            None => 12,
        };
        f == 24
    }

    /// `clock.showDate` (true when missing or not a boolean).
    pub fn clock_show_date(&self) -> (r: bool)
        ensures
            r == match get(self.clock, "showDate"@) {
                Some(x) => match as_bool(x) {
                    Some(b) => b,
                    None => true,
                },
                None => true,
            },
    {
        match self.clock.get_member("showDate") {
            Some(x) => match x.as_boolean() {
                Some(b) => b,
                None => true,
            },
            None => true,
        }
    }
}

/// Why a configuration is rejected.
pub enum ConfigError {
    /// `bar.height` outside 24..=64.
    HeightOutOfRange(i32),
    /// `bar.position` is neither `top` nor `bottom`.
    BadPosition,
    /// `bar.style` is none of `full`, `floating`, `islands`, `modules`.
    BadStyle,
}

pub open spec fn position_ok(p: Seq<char>) -> bool {
    p == "top"@ || p == "bottom"@
}

pub open spec fn style_ok(s: Seq<char>) -> bool {
    s == "full"@ || s == "floating"@ || s == "islands"@ || s == "modules"@
}

/// What [`ShellConfig::validate`] decides, checks in order.
pub open spec fn spec_validate(bar: BarConfig) -> Result<(), ConfigError> {
    if bar.height < 24 || bar.height > 64 {
        Err(ConfigError::HeightOutOfRange(bar.height))
    } else if !position_ok(bar.position@) {
        Err(ConfigError::BadPosition)
    } else if !style_ok(bar.style@) {
        Err(ConfigError::BadStyle)
    } else {
        Ok(())
    }
}

impl ShellConfig {
    /// Range checks of a loaded configuration: bar height 24..=64, position
    /// `top|bottom`, style `full|floating|islands|modules`, checked in that order.
    pub fn validate(&self) -> (r: Result<(), ConfigError>)
        ensures
            r == spec_validate(self.bar),
    {
        let b = &self.bar;
        if b.height < 24 || b.height > 64 {
            return Err(ConfigError::HeightOutOfRange(b.height));
        }
        let p = b.position.as_str();
        if !(str_eq(p, "top") || str_eq(p, "bottom")) {
            return Err(ConfigError::BadPosition);
        }
        let s = b.style.as_str();
        if !(str_eq(s, "full") || str_eq(s, "floating") || str_eq(s, "islands") || str_eq(
            s,
            "modules",
        )) {
            return Err(ConfigError::BadStyle);
        }
        Ok(())
    }
}

pub open spec fn spec_config_message(e: ConfigError) -> Seq<char> {
    match e {
        ConfigError::HeightOutOfRange(h) => "bar.height "@ + dec_int(h as int)
            + " out of range 24..64"@,
        ConfigError::BadPosition => "bar.position must be top|bottom"@,
        ConfigError::BadStyle => "bar.style must be full|floating|islands|modules"@,
    }
}

impl ConfigError {
    /// The message the loader reports.
    pub fn message(&self) -> (r: String)
        ensures
            r@ == spec_config_message(*self),
    {
        match self {
            ConfigError::HeightOutOfRange(h) => {
                let mut out: Vec<char> = Vec::new();
                push_str(&mut out, "bar.height ");
                push_dec_i64(&mut out, *h as i64);
                push_str(&mut out, " out of range 24..64");
                string_of(out.as_slice())
            },
            ConfigError::BadPosition => String::from_str("bar.position must be top|bottom"),
            ConfigError::BadStyle => String::from_str(
                "bar.style must be full|floating|islands|modules",
            ),
        }
    }
}

/// The modules of one side of the bar (`left`, `center`, otherwise `right`).
pub open spec fn side_list(cfg: ShellConfig, side: Seq<char>) -> Seq<BarModule> {
    if side == "left"@ {
        cfg.bar.left@
    } else if side == "center"@ {
        cfg.bar.center@
    } else {
        cfg.bar.right@
    }
}

/// Is a module named `name` present and enabled on `side` (`left`, `center`, `right`)?
pub open spec fn spec_mod_enabled(cfg: ShellConfig, side: Seq<char>, name: Seq<char>) -> bool {
    &&& (side == "left"@ || side == "center"@ || side == "right"@)
    &&& exists|i: int|
        0 <= i < side_list(cfg, side).len() && (#[trigger] side_list(cfg, side)[i]).module@ == name
            && side_list(cfg, side)[i].enabled
}

/// Is a module named `name` present and enabled on the given side of the bar?
pub fn mod_enabled(cfg: &ShellConfig, side: &str, name: &str) -> (r: bool)
    ensures
        r == spec_mod_enabled(*cfg, side@, name@),
{
    let list = if str_eq(side, "left") {
        &cfg.bar.left
    } else if str_eq(side, "center") {
        &cfg.bar.center
    } else if str_eq(side, "right") {
        &cfg.bar.right
    } else {
        return false;
    };
    let ghost sl = side_list(*cfg, side@);
    assert(list@ == sl);
    let mut i: usize = 0;
    while i < list.len()
        invariant
            list@ == sl,
            sl == side_list(*cfg, side@),
            side@ == "left"@ || side@ == "center"@ || side@ == "right"@,
            i <= list.len(),
            forall|j: int| 0 <= j < i ==> !((#[trigger] list@[j]).module@ == name@ && list@[j].enabled),
        decreases list.len() - i,
    {
        if list[i].enabled && str_eq(list[i].module.as_str(), name) {
            assert(side_list(*cfg, side@)[i as int].module@ == name@ && side_list(*cfg, side@)[i as int].enabled);
            return true;
        }
        i = i + 1;
    }
    false
}

/// The default bar passes validation.
pub proof fn default_bar_is_valid(b: BarConfig)
    requires
        is_default_bar(b),
    ensures
        spec_validate(b) is Ok,
{
}

} // verus!
