//! Notification list and the logic of the notification server: bounded list
//! (oldest dropped first), replacement by id, closing by id.
use vstd::prelude::*;

verus! {

/// One notification.
pub struct Notif {
    pub id: u32,
    pub app: String,
    pub title: String,
    pub body: String,
    /// Icon name or path.
    pub icon: String,
    pub timeout_ms: i32,
}

/// The notifications shown, the do-not-disturb flag and the list bound.
pub struct NotifState {
    pub list: Vec<Notif>,
    pub dnd: bool,
    pub max: usize,
}

impl Default for NotifState {
    fn default() -> (r: NotifState)
        ensures
            r.list@.len() == 0,
            !r.dnd,
            r.max == 0,
    {
        NotifState { list: Vec::new(), dnd: false, max: 0 }
    }
}

/// The effective bound of the list: `max`, at least 1.
pub open spec fn cap(max: usize) -> nat {
    if max < 1 {
        1
    } else {
        max as nat
    }
}

/// The list after pushing `n`: the oldest is dropped first when the list is full.
pub open spec fn pushed(l: Seq<Notif>, max: usize, n: Notif) -> Seq<Notif> {
    if l.len() >= cap(max) {
        l.drop_first().push(n)
    } else {
        l.push(n)
    }
}

/// The list without the notifications that have id `id`.
pub open spec fn without(l: Seq<Notif>, id: u32) -> Seq<Notif> {
    l.filter(|n: Notif| n.id != id)
}

impl NotifState {
    /// Appends a notification, dropping the oldest one when the list is full.
    pub fn push(&mut self, n: Notif)
        ensures
            final(self).list@ == pushed(old(self).list@, old(self).max, n),
            final(self).dnd == old(self).dnd,
            final(self).max == old(self).max,
    {
        let m = if self.max < 1 {
            1
        } else {
            self.max
        };
        if self.list.len() >= m {
            self.list.remove(0);
        }
        self.list.push(n);
        assert(self.list@ =~= pushed(old(self).list@, old(self).max, n));
    }

    /// Removes every notification with the given id.
    pub fn close(&mut self, id: u32)
        ensures
            final(self).list@ == without(old(self).list@, id),
            final(self).dnd == old(self).dnd,
            final(self).max == old(self).max,
    {
        let ghost orig = self.list@;
        let ghost pred = |n: Notif| n.id != id;
        let mut rest: Vec<Notif> = Vec::new();
        std::mem::swap(&mut rest, &mut self.list);
        let mut i: usize = 0;
        assert(orig.len() == rest.len());
        while rest.len() > 0
            invariant
                rest@ == orig.skip(i as int),
                i <= orig.len(),
                orig.len() <= usize::MAX,
                pred == (|n: Notif| n.id != id),
                self.list@ == orig.take(i as int).filter(pred),
                self.dnd == old(self).dnd,
                self.max == old(self).max,
            decreases rest.len(),
        {
            let n = rest.remove(0);
            assert(n == orig[i as int]);
            assert(orig.take(i + 1).drop_last() =~= orig.take(i as int));
            reveal_with_fuel(Seq::<_>::filter, 1);
            if n.id != id {
                self.list.push(n);
            }
            i = i + 1;
            assert(rest@ =~= orig.skip(i as int));
        }
        assert(orig.take(i as int) =~= orig);
    }
}

/// The notification server's state: the list and the last id handed out.
pub struct Server {
    pub state: NotifState,
    next_id: u32,
    received: u64,
}

/// The id a fresh notification gets after `last`: the next one, skipping 0 on wrap-around.
pub open spec fn next_notif_id(last: u32) -> u32 {
    let n = vstd::wrapping::u32_specs::wrapping_add(last, 1);
    if n < 1 {
        1
    } else {
        n
    }
}

impl Server {
    /// The last id handed out.
    pub closed spec fn last_id(&self) -> u32 {
        self.next_id
    }

    /// How many `Notify` calls the server has taken (wrapping).
    pub closed spec fn received(&self) -> u64 {
        self.received
    }

    /// The notification state the server holds.
    pub closed spec fn notifs(&self) -> NotifState {
        self.state
    }

    /// A server over the given state; no id handed out yet.
    pub fn new(state: NotifState) -> (r: Server)
        ensures
            r.notifs() == state,
            r.last_id() == 0,
            r.received() == 0,
    {
        Server { state, next_id: 0, received: 0 }
    }

    /// `Notify`: a non-zero `replaces_id` replaces that notification (and
    /// keeps its id); otherwise the next id is taken. The notification is
    /// appended after every older one with the same id is removed.
    pub fn notify(
        &mut self,
        app_name: String,
        replaces_id: u32,
        app_icon: String,
        summary: String,
        body: String,
        expire_timeout: i32,
    ) -> (id: u32)
        ensures
            id == if replaces_id != 0 {
                replaces_id
            } else {
                next_notif_id(old(self).last_id())
            },
            final(self).last_id() == if replaces_id != 0 {
                old(self).last_id()
            } else {
                id
            },
            final(self).notifs().list@ == pushed(
                without(old(self).notifs().list@, id),
                old(self).notifs().max,
                Notif {
                    id,
                    app: app_name,
                    title: summary,
                    body,
                    icon: app_icon,
                    timeout_ms: expire_timeout,
                },
            ),
            final(self).notifs().dnd == old(self).notifs().dnd,
            final(self).notifs().max == old(self).notifs().max,
            final(self).received() == vstd::wrapping::u64_specs::wrapping_add(old(self).received(), 1),
    {
        self.received = self.received.wrapping_add(1);
        let id = if replaces_id != 0 {
            replaces_id
        } else {
            let n = self.next_id.wrapping_add(1);
            self.next_id = if n < 1 {
                1
            } else {
                n
            };
            self.next_id
        };
        self.state.close(id);
        self.state.push(
            Notif {
                id,
                app: app_name,
                title: summary,
                body,
                icon: app_icon,
                timeout_ms: expire_timeout,
            },
        );
        id
    }

    /// `CloseNotification`.
    pub fn close_notification(&mut self, id: u32)
        ensures
            final(self).notifs().list@ == without(old(self).notifs().list@, id),
            final(self).notifs().dnd == old(self).notifs().dnd,
            final(self).notifs().max == old(self).notifs().max,
            final(self).last_id() == old(self).last_id(),
            final(self).received() == old(self).received(),
    {
        self.state.close(id);
    }

    /// The number of `Notify` calls taken so far (wrapping).
    pub fn received_count(&self) -> (r: u64)
        ensures
            r == self.received(),
    {
        self.received
    }

    /// The notification a toast shows: the newest one, unless do-not-disturb
    /// is on, the list is empty, or no `Notify` came since the toast that was
    /// shown at count `seen`. Showing it leaves the list as it is.
    pub fn toast(&self, seen: u64) -> (r: Option<&Notif>)
        ensures
            r == if self.notifs().dnd || self.notifs().list@.len() == 0 || self.received() == seen {
                None
            } else {
                Some(&self.notifs().list@.last())
            },
    {
        if self.state.dnd || self.state.list.len() == 0 || self.received == seen {
            None
        } else {
            Some(&self.state.list[self.state.list.len() - 1])
        }
    }

    /// `GetCapabilities`: body, actions, persistence.
    pub fn get_capabilities(&self) -> (r: Vec<String>)
        ensures
            r@.len() == 3,
            r@[0]@ == "body"@,
            r@[1]@ == "actions"@,
            r@[2]@ == "persistence"@,
    {
        let mut v = Vec::new();
        v.push(String::from_str("body"));
        v.push(String::from_str("actions"));
        v.push(String::from_str("persistence"));
        v
    }

    /// `GetServerInformation`: name, vendor, the given version, spec version 1.2.
    pub fn get_server_information(&self, version: &str) -> (r: (String, String, String, String))
        ensures
            r.0@ == "cshell"@,
            r.1@ == "cshell"@,
            r.2@ == version@,
            r.3@ == "1.2"@,
    {
        (
            String::from_str("cshell"),
            String::from_str("cshell"),
            String::from_str(version),
            String::from_str("1.2"),
        )
    }
}

/// How long a toast stays: the notification's own timeout when positive,
/// five seconds otherwise.
pub fn toast_timeout_ms(timeout_ms: i32) -> (r: u64)
    ensures
        r == if timeout_ms > 0 { timeout_ms as u64 } else { 5000 },
{
    if timeout_ms > 0 {
        timeout_ms as u64
    } else {
        5000
    }
}

/// The control center's notification counter, such as `3 Notifications`.
pub fn count_label(n: usize) -> (r: String)
    ensures
        r@ == crate::text::dec(n as nat) + " Notifications"@,
{
    let mut v: Vec<char> = Vec::new();
    crate::text::push_dec(&mut v, n as u64);
    crate::text::push_str(&mut v, " Notifications");
    crate::text::string_of(v.as_slice())
}

/// The list never grows past its bound: pushing onto a list within
/// `max(max, 1)` keeps it within, and the new notification is last.
pub proof fn push_keeps_bound(l: Seq<Notif>, max: usize, n: Notif)
    requires
        l.len() <= cap(max),
    ensures
        pushed(l, max, n).len() <= cap(max),
        pushed(l, max, n).last() == n,
        l.len() < cap(max) ==> pushed(l, max, n) == l.push(n),
{
}

/// After `Notify`, the returned id is never 0 and exactly one notification
/// carries it: the new one, at the end of the list.
pub proof fn notify_replaces(l: Seq<Notif>, max: usize, n: Notif, last: u32, replaces_id: u32)
    requires
        n.id == if replaces_id != 0 {
            replaces_id
        } else {
            next_notif_id(last)
        },
    ensures
        n.id != 0,
        pushed(without(l, n.id), max, n).last() == n,
        forall|k: int|
            0 <= k < pushed(without(l, n.id), max, n).len() - 1 ==> (#[trigger] pushed(
                without(l, n.id),
                max,
                n,
            )[k]).id != n.id,
{
    let w = without(l, n.id);
    let pred = |x: Notif| x.id != n.id;
    assert forall|k: int| 0 <= k < w.len() implies (#[trigger] w[k]).id != n.id by {
        l.lemma_filter_pred(pred, k);
    }
    let p = pushed(w, max, n);
    assert forall|k: int| 0 <= k < p.len() - 1 implies (#[trigger] p[k]).id != n.id by {
        if w.len() >= cap(max) {
            assert(p[k] == w[k + 1]);
        } else {
            assert(p[k] == w[k]);
        }
    }
}

/// Closing removes every notification with that id and keeps the others in order.
pub proof fn close_removes_all(l: Seq<Notif>, id: u32)
    ensures
        forall|k: int| 0 <= k < without(l, id).len() ==> (#[trigger] without(l, id)[k]).id != id,
        forall|k: int| 0 <= k < l.len() && (#[trigger] l[k]).id != id ==> without(l, id).contains(l[k]),
{
    let pred = |x: Notif| x.id != id;
    assert forall|k: int| 0 <= k < without(l, id).len() implies (#[trigger] without(l, id)[k]).id != id by {
        l.lemma_filter_pred(pred, k);
    }
    assert forall|k: int| 0 <= k < l.len() && (#[trigger] l[k]).id != id implies without(l, id).contains(l[k]) by {
        l.lemma_filter_contains(pred, k);
    }
}

} // verus!
