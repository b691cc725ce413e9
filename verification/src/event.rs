//! The handler registry and its dispatch algorithm.

use crate::handler::Handler;
use crate::keys::EventKey;
use vstd::prelude::*;

verus! {

/// The record of one handler invocation, kept in a registry's ghost history.
pub struct Invocation<T, K> {
    /// The key whose dispatch invoked the handler.
    pub key: T,
    /// The handler's position in the sequence registered under that key.
    pub slot: int,
    /// The payload value the handler received.
    pub payload: K,
}

/// The invocations that one dispatch of `key` with `payload` performs when
/// `n` handlers are registered under the key: slots 0 through `n - 1`, in
/// that order, each exactly once, each receiving the same payload.
pub open spec fn dispatch_calls<T, K>(key: T, payload: K, n: nat) -> Seq<Invocation<T, K>> {
    Seq::new(n, |j: int| Invocation { key, slot: j, payload })
}

/// One key together with the handlers registered under it, oldest first.
struct Group<T, H> {
    key: T,
    handlers: Vec<H>,
}

/// The mapping a sequence of groups stands for. Later groups win, but a
/// registry keeps its keys distinct, so each key's handlers are unambiguous.
spec fn groups_as_map<T, H>(s: Seq<Group<T, H>>) -> Map<T, Seq<H>>
    decreases s.len(),
{
    if s.len() == 0 {
        Map::empty()
    } else {
        groups_as_map(s.drop_last()).insert(s.last().key, s.last().handlers@)
    }
}

/// No two groups carry the same key.
spec fn keys_distinct<T, H>(s: Seq<Group<T, H>>) -> bool {
    forall|i: int, j: int| 0 <= i < j < s.len() ==> s[i].key != s[j].key
}

proof fn lemma_keys_distinct_drop_last<T, H>(s: Seq<Group<T, H>>)
    requires
        keys_distinct(s),
        s.len() > 0,
    ensures
        keys_distinct(s.drop_last()),
{
    assert forall|i: int, j: int| 0 <= i < j < s.drop_last().len() implies s.drop_last()[i].key
        != s.drop_last()[j].key by {
        assert(s.drop_last()[i] == s[i]);
        assert(s.drop_last()[j] == s[j]);
    }
}

/// A key is in the mapping exactly when some group carries it.
proof fn lemma_as_map_contains<T, H>(s: Seq<Group<T, H>>, k: T)
    ensures
        groups_as_map(s).dom().contains(k) <==> exists|i: int| 0 <= i < s.len() && s[i].key == k,
    decreases s.len(),
{
    if s.len() > 0 {
        lemma_as_map_contains(s.drop_last(), k);
        if s.last().key == k {
            assert(s[s.len() - 1].key == k);
        } else {
            if exists|i: int| 0 <= i < s.len() && s[i].key == k {
                let i = choose|i: int| 0 <= i < s.len() && s[i].key == k;
                assert(s.drop_last()[i] == s[i]);
            }
            if exists|i: int| 0 <= i < s.drop_last().len() && s.drop_last()[i].key == k {
                let i = choose|i: int| 0 <= i < s.drop_last().len() && s.drop_last()[i].key == k;
                assert(s[i].key == k);
            }
        }
    }
}

/// With distinct keys, the group at position `i` gives its key's handlers.
proof fn lemma_as_map_get<T, H>(s: Seq<Group<T, H>>, i: int)
    requires
        keys_distinct(s),
        0 <= i < s.len(),
    ensures
        groups_as_map(s).dom().contains(s[i].key),
        groups_as_map(s)[s[i].key] == s[i].handlers@,
    decreases s.len(),
{
    if i == s.len() - 1 {
        assert(s.last() == s[i]);
    } else {
        lemma_keys_distinct_drop_last(s);
        assert(s.drop_last()[i] == s[i]);
        lemma_as_map_get(s.drop_last(), i);
        assert(s.last().key != s[i].key);
    }
}

/// Replacing the group at position `i` by one with the same key updates the
/// mapping at that key alone, and keeps the keys distinct.
proof fn lemma_as_map_update<T, H>(s: Seq<Group<T, H>>, i: int, g: Group<T, H>)
    requires
        keys_distinct(s),
        0 <= i < s.len(),
        g.key == s[i].key,
    ensures
        keys_distinct(s.update(i, g)),
        groups_as_map(s.update(i, g)) == groups_as_map(s).insert(g.key, g.handlers@),
    decreases s.len(),
{
    let t = s.update(i, g);
    assert forall|a: int, b: int| 0 <= a < b < t.len() implies t[a].key != t[b].key by {
        assert(s[a].key != s[b].key);
    }
    if i == s.len() - 1 {
        assert(t.drop_last() =~= s.drop_last());
        assert(t.last() == g);
        assert(groups_as_map(t) =~= groups_as_map(s).insert(g.key, g.handlers@));
    } else {
        lemma_keys_distinct_drop_last(s);
        assert(s.drop_last()[i] == s[i]);
        lemma_as_map_update(s.drop_last(), i, g);
        assert(t.drop_last() =~= s.drop_last().update(i, g));
        assert(t.last() == s.last());
        assert(s.last().key != g.key);
        assert(groups_as_map(t) =~= groups_as_map(s).insert(g.key, g.handlers@));
    }
}

/// Appending a group whose key no present group carries adds one entry to
/// the mapping, and keeps the keys distinct.
proof fn lemma_as_map_push<T, H>(s: Seq<Group<T, H>>, g: Group<T, H>)
    requires
        keys_distinct(s),
        forall|j: int| 0 <= j < s.len() ==> s[j].key != g.key,
    ensures
        keys_distinct(s.push(g)),
        groups_as_map(s.push(g)) == groups_as_map(s).insert(g.key, g.handlers@),
{
    let t = s.push(g);
    assert forall|a: int, b: int| 0 <= a < b < t.len() implies t[a].key != t[b].key by {
        if b < s.len() {
            assert(s[a].key != s[b].key);
        } else {
            assert(t[a] == s[a]);
            assert(t[b] == g);
        }
    }
    assert(t.drop_last() =~= s);
    assert(t.last() == g);
}

/// A registry of event handlers.
///
/// A registry owns, for each key, the sequence of handlers registered under
/// it, oldest first. Abstractly (through [`View`]) it is a map from key to
/// handler sequence; [`Event::calls`] is the ghost history of every handler
/// invocation it ever performed, in the order it performed them.
pub struct Event<T, K, H> {
    groups: Vec<Group<T, H>>,
    history: Ghost<Seq<Invocation<T, K>>>,
}

impl<T, K, H> View for Event<T, K, H> {
    type V = Map<T, Seq<H>>;

    closed spec fn view(&self) -> Map<T, Seq<H>> {
        groups_as_map(self.groups@)
    }
}

impl<T, K, H> Event<T, K, H> {
    #[verifier::type_invariant]
    spec fn wf(self) -> bool {
        keys_distinct(self.groups@)
    }

    /// The handlers registered under `key`, oldest first; empty if the key
    /// was never registered.
    pub open spec fn registered(&self, key: T) -> Seq<H> {
        if self@.dom().contains(key) {
            self@[key]
        } else {
            Seq::empty()
        }
    }

    /// Every handler invocation this registry ever performed, oldest first.
    pub closed spec fn calls(&self) -> Seq<Invocation<T, K>> {
        self.history@
    }
}

impl<T: EventKey, K: Copy, H: Handler<K>> Event<T, K, H> {
    /// An empty registry: no key has handlers, and nothing was ever invoked.
    pub fn new() -> (e: Self)
        ensures
            e@ == Map::<T, Seq<H>>::empty(),
            e.calls() == Seq::<Invocation<T, K>>::empty(),
    {
        Event { groups: Vec::new(), history: Ghost(Seq::empty()) }
    }

    /// The position of the group carrying `key`, if any group does.
    fn find_group(groups: &Vec<Group<T, H>>, key: &T) -> (r: Option<usize>)
        ensures
            match r {
                Some(i) => i < groups@.len() && groups@[i as int].key == *key,
                None => forall|j: int| 0 <= j < groups@.len() ==> groups@[j].key != *key,
            },
    {
        let n = groups.len();
        let mut i: usize = 0;
        while i < n
            invariant
                i <= n,
                n == groups@.len(),
                forall|j: int| 0 <= j < i ==> groups@[j].key != *key,
            decreases n - i,
        {
            if groups[i].key.key_eq(key) {
                return Some(i);
            }
            i = i + 1;
        }
        None
    }

    /// Register `handler` under `event`.
    ///
    /// The handler is appended to the sequence already registered under the
    /// key (an empty one, if this is the key's first registration); nothing
    /// else changes, no handler is invoked, and registration never fails.
    pub fn on(&mut self, event: T, handler: H)
        ensures
            final(self)@ == old(self)@.insert(event, old(self).registered(event).push(handler)),
            final(self).registered(event) == old(self).registered(event).push(handler),
            final(self).calls() == old(self).calls(),
    {
        proof {
            use_type_invariant(&*self);
        }
        let ghost ev = event;
        let ghost pre = self.groups@;
        let mut groups: Vec<Group<T, H>> = Vec::new();
        std::mem::swap(&mut groups, &mut self.groups);
        match Self::find_group(&groups, &event) {
            Some(i) => {
                let mut g = groups.remove(i);
                g.handlers.push(handler);
                let ghost g2 = g;
                groups.insert(i, g);
                proof {
                    assert(groups@ =~= pre.update(i as int, g2));
                    lemma_as_map_get(pre, i as int);
                    lemma_as_map_update(pre, i as int, g2);
                }
            },
            None => {
                let mut hs: Vec<H> = Vec::new();
                hs.push(handler);
                let gnew = Group { key: event, handlers: hs };
                let ghost g2 = gnew;
                groups.push(gnew);
                proof {
                    lemma_as_map_contains(pre, ev);
                    lemma_as_map_push(pre, g2);
                    assert(g2.handlers@ =~= Seq::empty().push(handler));
                }
            },
        }
        self.groups = groups;
    }

    /// Dispatch `event` with payload `data`.
    ///
    /// Every handler registered under the key runs exactly once, in
    /// registration order, each invocation receiving the value `data`; the
    /// ghost history grows by exactly those invocations, in that order.
    /// Handlers under every other key, and the key's own registration order,
    /// are untouched. A key with no registrations is a silent no-op: the
    /// registry is left exactly as it was and nothing is invoked.
    ///
    /// Failure policy: the registry performs no isolation between handlers.
    /// If a handler panics, the panic propagates to the caller of `dispatch`
    /// and the remaining handlers of that round do not run.
    pub fn dispatch(&mut self, event: T, data: K)
        ensures
            final(self)@.dom() == old(self)@.dom(),
            forall|k: T| #[trigger] old(self)@.dom().contains(k) && k != event ==> final(self)@[k]
                == old(self)@[k],
            final(self).registered(event).len() == old(self).registered(event).len(),
            forall|j: int| 0 <= j < old(self).registered(event).len() ==> H::on_call(
                old(self).registered(event)[j],
                #[trigger] final(self).registered(event)[j],
                data,
            ),
            final(self).calls() == old(self).calls() + dispatch_calls(
                event,
                data,
                old(self).registered(event).len(),
            ),
            old(self).registered(event).len() == 0 ==> final(self)@ == old(self)@
                && final(self).calls() == old(self).calls(),
    {
        proof {
            use_type_invariant(&*self);
        }
        let ghost pre = self.groups@;
        let ghost pre_log = self.history@;
        let mut groups: Vec<Group<T, H>> = Vec::new();
        std::mem::swap(&mut groups, &mut self.groups);
        match Self::find_group(&groups, &event) {
            Some(i) => {
                proof {
                    lemma_as_map_get(pre, i as int);
                }
                let mut g = groups.remove(i);
                let ghost hs0 = g.handlers@;
                let ghost mut log = pre_log;
                let mut done: Vec<H> = Vec::new();
                while g.handlers.len() > 0
                    invariant
                        done@.len() + g.handlers@.len() == hs0.len(),
                        g.handlers@ == hs0.subrange(done@.len() as int, hs0.len() as int),
                        g.key == pre[i as int].key,
                        forall|j: int| 0 <= j < done@.len() ==> H::on_call(
                            hs0[j],
                            #[trigger] done@[j],
                            data,
                        ),
                        log == pre_log + dispatch_calls(event, data, done@.len() as nat),
                    decreases g.handlers@.len(),
                {
                    let ghost m = done@.len() as int;
                    assert(g.handlers@[0] == hs0[m]);
                    let mut h = g.handlers.remove(0);
                    h.call(data);
                    done.push(h);
                    proof {
                        log = log.push(Invocation { key: event, slot: m, payload: data });
                        assert(g.handlers@ =~= hs0.subrange(m + 1, hs0.len() as int));
                        assert(dispatch_calls(event, data, (m + 1) as nat) =~= dispatch_calls(
                            event,
                            data,
                            m as nat,
                        ).push(Invocation { key: event, slot: m, payload: data }));
                        assert(log =~= pre_log + dispatch_calls(event, data, (m + 1) as nat));
                    }
                }
                let g2 = Group { key: g.key, handlers: done };
                let ghost g2s = g2;
                groups.insert(i, g2);
                proof {
                    assert(groups@ =~= pre.update(i as int, g2s));
                    lemma_as_map_update(pre, i as int, g2s);
                }
                self.groups = groups;
                self.history = Ghost(log);
                proof {
                    assert(self@.dom() =~= groups_as_map(pre).dom());
                    if hs0.len() == 0 {
                        assert(g2s.handlers@ =~= hs0);
                        assert(self@ =~= groups_as_map(pre));
                        assert(dispatch_calls(event, data, 0) =~= Seq::<Invocation<T, K>>::empty());
                        assert(log =~= pre_log);
                    }
                }
            },
            None => {
                self.groups = groups;
                proof {
                    lemma_as_map_contains(pre, event);
                    assert(dispatch_calls(event, data, 0) =~= Seq::<Invocation<T, K>>::empty());
                    assert(pre_log + dispatch_calls(event, data, 0) =~= pre_log);
                }
            },
        }
    }

    /// The number of handlers currently registered under `event`.
    pub fn handler_count(&self, event: &T) -> (n: usize)
        ensures
            n == self.registered(*event).len(),
    {
        proof {
            use_type_invariant(self);
        }
        match Self::find_group(&self.groups, event) {
            Some(i) => {
                proof {
                    lemma_as_map_get(self.groups@, i as int);
                }
                self.groups[i].handlers.len()
            },
            None => {
                proof {
                    lemma_as_map_contains(self.groups@, *event);
                }
                0
            },
        }
    }

    /// The handler at position `slot` of the sequence registered under
    /// `event`, or nothing if there is no such handler.
    pub fn get_handler(&self, event: &T, slot: usize) -> (r: Option<&H>)
        ensures
            match r {
                Some(h) => slot < self.registered(*event).len() && *h == self.registered(
                    *event,
                )[slot as int],
                None => slot >= self.registered(*event).len(),
            },
    {
        proof {
            use_type_invariant(self);
        }
        match Self::find_group(&self.groups, event) {
            Some(i) => {
                proof {
                    lemma_as_map_get(self.groups@, i as int);
                }
                let g = &self.groups[i];
                if slot < g.handlers.len() {
                    Some(&g.handlers[slot])
                } else {
                    None
                }
            },
            None => {
                proof {
                    lemma_as_map_contains(self.groups@, *event);
                }
                None
            },
        }
    }
}

} // verus!
