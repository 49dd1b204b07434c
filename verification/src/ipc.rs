//! Control protocol of the single-instance daemon: one JSON line per
//! connection, such as `{"cmd":"toggle","window":"launcher"}` or
//! `{"cmd":"osd","text":"...","timeout_ms":1500}`.
use vstd::prelude::*;
use crate::json::{json_string, json_quote, str_eq};
use crate::text::{dec, push_dec, push_str, string_of};

verus! {

/// What the daemon is asked to do.
#[derive(Debug, Clone)]
pub enum Event {
    Refresh,
    Toggle(String),
    Osd { text: String, timeout_ms: u64 },
    Quit,
}

/// A decoded request line; absent fields take their defaults (empty texts,
/// the default on-screen display timeout).
#[derive(Debug, Clone)]
pub struct Msg {
    pub cmd: String,
    pub window: String,
    pub text: String,
    pub timeout_ms: u64,
}

/// The on-screen display timeout when a request gives none.
pub fn default_timeout() -> (r: u64)
    ensures
        r == 1500,
{
    1500
}

/// The event a request stands for, by command; unknown commands are refused.
pub open spec fn spec_event(m: Msg) -> Option<Event> {
    if m.cmd@ == "toggle"@ {
        Some(Event::Toggle(m.window))
    } else if m.cmd@ == "osd"@ {
        Some(Event::Osd { text: m.text, timeout_ms: m.timeout_ms })
    } else if m.cmd@ == "quit"@ {
        Some(Event::Quit)
    } else if m.cmd@ == "refresh"@ {
        Some(Event::Refresh)
    } else {
        None
    }
}

/// The event of a decoded request (`None` for an unknown command).
pub fn event_from_msg(m: Msg) -> (r: Option<Event>)
    ensures
        r == spec_event(m),
{
    let c = m.cmd.as_str();
    if str_eq(c, "toggle") {
        Some(Event::Toggle(m.window))
    } else if str_eq(c, "osd") {
        Some(Event::Osd { text: m.text, timeout_ms: m.timeout_ms })
    } else if str_eq(c, "quit") {
        Some(Event::Quit)
    } else if str_eq(c, "refresh") {
        Some(Event::Refresh)
    } else {
        None
    }
}

/// A request is decoded by its command alone and keeps its fields as they
/// are: `toggle` gives the request's window, `osd` the request's text and
/// timeout (the requested timeout, not the default), `quit` and `refresh` their
/// events, and any other command nothing.
pub proof fn event_keeps_request_fields(m: Msg)
    ensures
        m.cmd@ == "toggle"@ ==> spec_event(m) == Some(Event::Toggle(m.window)),
        m.cmd@ == "osd"@ ==> spec_event(m) == Some(
            Event::Osd { text: m.text, timeout_ms: m.timeout_ms },
        ),
        m.cmd@ == "quit"@ ==> spec_event(m) == Some(Event::Quit),
        m.cmd@ == "refresh"@ ==> spec_event(m) == Some(Event::Refresh),
        m.cmd@ != "toggle"@ && m.cmd@ != "osd"@ && m.cmd@ != "quit"@ && m.cmd@ != "refresh"@
            ==> spec_event(m) is None,
{
    reveal_strlit("toggle");
    reveal_strlit("osd");
    reveal_strlit("quit");
    reveal_strlit("refresh");
    assert("osd"@.len() != "toggle"@.len());
    assert("quit"@.len() != "toggle"@.len());
    assert("quit"@[0] != "osd"@[0]);
    assert("refresh"@.len() != "toggle"@.len());
    assert("refresh"@.len() != "osd"@.len());
    assert("refresh"@.len() != "quit"@.len());
}

/// The request line that toggles a window (keys in the order the serializer
/// writes them).
pub open spec fn spec_toggle_line(window: Seq<char>) -> Seq<char> {
    "{\"cmd\":\"toggle\",\"window\":"@ + json_quote(window) + "}"@
}

/// The request line of a toggle.
pub fn toggle_line(window: &str) -> (r: String)
    ensures
        r@ == spec_toggle_line(window@),
{
    let mut v: Vec<char> = Vec::new();
    push_str(&mut v, "{\"cmd\":\"toggle\",\"window\":");
    let q = json_string(window);
    push_str(&mut v, q.as_str());
    push_str(&mut v, "}");
    string_of(v.as_slice())
}

/// The request line that shows an on-screen display.
pub open spec fn spec_osd_line(text: Seq<char>, timeout_ms: u64) -> Seq<char> {
    "{\"cmd\":\"osd\",\"text\":"@ + json_quote(text) + ",\"timeout_ms\":"@ + dec(
        timeout_ms as nat,
    ) + "}"@
}

/// The request line of an on-screen display.
pub fn osd_line(text: &str, timeout_ms: u64) -> (r: String)
    ensures
        r@ == spec_osd_line(text@, timeout_ms),
{
    let mut v: Vec<char> = Vec::new();
    push_str(&mut v, "{\"cmd\":\"osd\",\"text\":");
    let q = json_string(text);
    push_str(&mut v, q.as_str());
    push_str(&mut v, ",\"timeout_ms\":");
    push_dec(&mut v, timeout_ms);
    push_str(&mut v, "}");
    string_of(v.as_slice())
}

/// What the server loop does with one connection's request.
#[derive(Debug, Clone)]
pub enum ServeAction {
    /// Hand the event to the user interface.
    Emit(Event),
    /// Stop serving and remove the socket.
    Stop,
    /// Ignore the request (unreadable, empty, or unknown).
    Ignore,
}

/// The server's decision for a request: quit stops, other events are
/// forwarded, anything else is ignored (it is acknowledged either way).
pub open spec fn spec_serve_action(ev: Option<Event>) -> ServeAction {
    match ev {
        Some(Event::Quit) => ServeAction::Stop,
        Some(e) => ServeAction::Emit(e),
        None => ServeAction::Ignore,
    }
}

/// The server's decision for one decoded request.
pub fn serve_action(ev: Option<Event>) -> (r: ServeAction)
    ensures
        r == spec_serve_action(ev),
{
    match ev {
        Some(Event::Quit) => ServeAction::Stop,
        Some(e) => ServeAction::Emit(e),
        None => ServeAction::Ignore,
    }
}

} // verus!
