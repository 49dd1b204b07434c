//! System tray host: the registry of status-notifier items kept by the
//! watcher service, keyed by the item's bus service name.
use vstd::prelude::*;
use crate::json::str_eq;

verus! {

/// The service names of a list of entries, in order.
pub open spec fn keys(items: Seq<(String, String)>) -> Seq<Seq<char>> {
    items.map_values(|e: (String, String)| e.0@)
}

/// The entries of every service but `service`, in order.
pub open spec fn without(items: Seq<(String, String)>, service: Seq<char>) -> Seq<(String, String)> {
    items.filter(|e: (String, String)| e.0@ != service)
}

/// Registered items: service name to last known title. Each service is
/// listed once, in the order of registration.
#[derive(Debug)]
pub struct TrayState {
    pub items: Vec<(String, String)>,
}

impl TrayState {
    /// No service is listed twice.
    pub open spec fn wf(&self) -> bool {
        keys(self.items@).no_duplicates()
    }

    /// An empty registry.
    pub fn new() -> (r: TrayState)
        ensures
            r.wf(),
            r.items@.len() == 0,
    {
        TrayState { items: Vec::new() }
    }

    fn find(&self, service: &str) -> (r: Option<usize>)
        ensures
            match r {
                Some(i) => i < self.items@.len() && self.items@[i as int].0@ == service@,
                None => forall|j: int|
                    0 <= j < self.items@.len() ==> (#[trigger] self.items@[j]).0@ != service@,
            },
    {
        let mut i: usize = 0;
        while i < self.items.len()
            invariant
                i <= self.items@.len(),
                forall|j: int| 0 <= j < i ==> (#[trigger] self.items@[j]).0@ != service@,
            decreases self.items.len() - i,
        {
            if str_eq(self.items[i].0.as_str(), service) {
                return Some(i);
            }
            i = i + 1;
        }
        None
    }
}

impl Default for TrayState {
    fn default() -> (r: TrayState)
        ensures
            r.wf(),
            r.items@.len() == 0,
    {
        TrayState::new()
    }
}

/// The watcher service's state.
#[derive(Debug)]
pub struct Watcher {
    pub state: TrayState,
}

impl Watcher {
    /// A watcher over a registry.
    pub fn new(state: TrayState) -> (r: Watcher)
        ensures
            r.state == state,
    {
        Watcher { state }
    }

    /// Registers an item. A new service is appended with an empty title; a
    /// known one keeps its entry and title.
    pub fn register_status_notifier_item(&mut self, service: String)
        requires
            old(self).state.wf(),
        ensures
            final(self).state.wf(),
            keys(final(self).state.items@).contains(service@),
            keys(old(self).state.items@).contains(service@) ==> final(self).state.items@
                == old(self).state.items@,
            !keys(old(self).state.items@).contains(service@) ==> {
                &&& final(self).state.items@.len() == old(self).state.items@.len() + 1
                &&& final(self).state.items@.drop_last() == old(self).state.items@
                &&& final(self).state.items@.last().0@ == service@
                &&& final(self).state.items@.last().1@ == Seq::<char>::empty()
            },
    {
        let ghost before = self.state.items@;
        match self.state.find(service.as_str()) {
            Some(k) => {
                proof {
                    assert(keys(before)[k as int] == service@);
                }
            },
            None => {
                proof {
                    assert(!keys(before).contains(service@)) by {
                        if keys(before).contains(service@) {
                            let k = choose|k: int|
                                0 <= k < keys(before).len() && keys(before)[k] == service@;
                            assert(before[k].0@ == service@);
                        }
                    }
                }
                self.state.items.push((service, String::new()));
                proof {
                    let after = self.state.items@;
                    assert(after.drop_last() =~= before);
                    assert(keys(after) =~= keys(before).push(after.last().0@));
                    assert(keys(after)[keys(after).len() - 1] == service@);
                }
            },
        }
    }

    /// Unregisters an item: its entry leaves, the others keep their order.
    pub fn unregister_status_notifier_item(&mut self, service: String)
        requires
            old(self).state.wf(),
        ensures
            final(self).state.wf(),
            final(self).state.items@ == without(old(self).state.items@, service@),
            !keys(final(self).state.items@).contains(service@),
    {
        let ghost before = self.state.items@;
        let mut kept: Vec<(String, String)> = Vec::new();
        let mut i: usize = 0;
        while i < self.state.items.len()
            invariant
                i <= self.state.items@.len(),
                self.state.items@ == before,
                kept@ == without(before.take(i as int), service@),
            decreases self.state.items.len() - i,
        {
            let ghost pre = before.take(i as int);
            let ghost next = before.take(i + 1);
            proof {
                assert(next.drop_last() =~= pre);
                assert(next.last() == before[i as int]);
                reveal(Seq::filter);
            }
            if !str_eq(self.state.items[i].0.as_str(), service.as_str()) {
                let e_key = self.state.items[i].0.clone();
                let e_title = self.state.items[i].1.clone();
                kept.push((e_key, e_title));
                assert(kept@ =~= without(next, service@));
            } else {
                assert(kept@ =~= without(next, service@));
            }
            i = i + 1;
        }
        assert(before.take(before.len() as int) =~= before);
        proof {
            unregister_removes_only(before, service@);
        }
        self.state.items = kept;
    }

    /// The registered service names, in registration order.
    pub fn registered_status_notifier_items(&self) -> (r: Vec<String>)
        ensures
            r@.map_values(|s: String| s@) == keys(self.state.items@),
    {
        let mut out: Vec<String> = Vec::new();
        let mut i: usize = 0;
        while i < self.state.items.len()
            invariant
                i <= self.state.items@.len(),
                out@.map_values(|s: String| s@) == keys(self.state.items@.take(i as int)),
            decreases self.state.items.len() - i,
        {
            let ghost o = out@;
            let k = self.state.items[i].0.clone();
            out.push(k);
            proof {
                let g = |s: String| s@;
                assert(out@ =~= o.push(k));
                assert(out@.map_values(g) =~= o.map_values(g).push(k@));
                assert(self.state.items@.take(i + 1) =~= self.state.items@.take(i as int).push(
                    self.state.items@[i as int],
                ));
                assert(keys(self.state.items@.take(i + 1)) =~= keys(self.state.items@.take(i as int)).push(k@));
            }
            i = i + 1;
        }
        assert(self.state.items@.take(i as int) =~= self.state.items@);
        out
    }
}

/// Unregistering a service removes it and nothing else: afterwards it is not
/// listed, every other service is listed exactly when it was before, and no
/// service is listed twice.
pub proof fn unregister_removes_only(items: Seq<(String, String)>, service: Seq<char>)
    requires
        keys(items).no_duplicates(),
    ensures
        keys(without(items, service)).no_duplicates(),
        !keys(without(items, service)).contains(service),
        forall|k: Seq<char>|
            k != service ==> (#[trigger] keys(without(items, service)).contains(k) == keys(
                items,
            ).contains(k)),
    decreases items.len(),
{
    reveal(Seq::filter);
    if items.len() > 0 {
        let pre = items.drop_last();
        let x = items.last();
        assert(keys(pre) =~= keys(items).drop_last());
        unregister_removes_only(pre, service);
        let fp = without(pre, service);
        assert(keys(items) =~= keys(pre).push(x.0@));
        assert(!keys(pre).contains(x.0@)) by {
            if keys(pre).contains(x.0@) {
                let j = choose|j: int| 0 <= j < keys(pre).len() && keys(pre)[j] == x.0@;
                assert(keys(items)[j] == keys(items)[items.len() - 1]);
            }
        }
        if x.0@ != service {
            assert(without(items, service) == fp.push(x));
            assert(keys(fp.push(x)) =~= keys(fp).push(x.0@));
            assert(!keys(fp).contains(x.0@));
            assert forall|k: Seq<char>| k != service implies (#[trigger] keys(
                without(items, service),
            ).contains(k) == keys(items).contains(k)) by {
                lemma_push_contains(keys(fp), x.0@, k);
                lemma_push_contains(keys(pre), x.0@, k);
            }
            assert(!keys(without(items, service)).contains(service)) by {
                lemma_push_contains(keys(fp), x.0@, service);
            }
        } else {
            assert(without(items, service) == fp);
            assert forall|k: Seq<char>| k != service implies (#[trigger] keys(
                without(items, service),
            ).contains(k) == keys(items).contains(k)) by {
                lemma_push_contains(keys(pre), x.0@, k);
            }
        }
    } else {
        assert(keys(without(items, service)) =~= Seq::<Seq<char>>::empty());
    }
}

proof fn lemma_push_contains(s: Seq<Seq<char>>, x: Seq<char>, k: Seq<char>)
    ensures
        s.push(x).contains(k) == (s.contains(k) || x == k),
{
    if s.contains(k) {
        let j = choose|j: int| 0 <= j < s.len() && s[j] == k;
        assert(s.push(x)[j] == k);
    }
    if x == k {
        assert(s.push(x)[s.len() as int] == k);
    }
    if s.push(x).contains(k) {
        let j = choose|j: int| 0 <= j < s.push(x).len() && s.push(x)[j] == k;
        if j < s.len() {
            assert(s[j] == k);
        }
    }
}

} // verus!
