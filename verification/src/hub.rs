use vstd::prelude::*;
use crate::models::strs_view;

verus! {

/// One live subscriber: its handle and its bounded outbound delivery queue.
pub struct Subscriber {
    pub id: u64,
    pub queue: Vec<String>,
}

/// The mathematical view of one subscriber: its handle and its queued
/// events, oldest first.
pub open spec fn sub_view(s: Subscriber) -> (u64, Seq<Seq<char>>) {
    (s.id, strs_view(s.queue@))
}

/// The view of the whole registry, in registration order.
pub open spec fn subs_view(ss: Seq<Subscriber>) -> Seq<(u64, Seq<Seq<char>>)> {
    ss.map_values(|s: Subscriber| sub_view(s))
}

/// No two registered subscribers share a handle.
pub open spec fn sub_ids_unique(s: Seq<(u64, Seq<Seq<char>>)>) -> bool {
    forall|i: int, j: int| 0 <= i < j < s.len() ==> s[i].0 != s[j].0
}

/// Some registered subscriber has this handle.
pub open spec fn has_sub(s: Seq<(u64, Seq<Seq<char>>)>, h: u64) -> bool {
    exists|i: int| 0 <= i < s.len() && s[i].0 == h
}

/// The registry index of the subscriber with this handle.
pub open spec fn sub_index(s: Seq<(u64, Seq<Seq<char>>)>, h: u64) -> int {
    choose|i: int| 0 <= i < s.len() && s[i].0 == h
}

/// The delivery policy for one subscriber: append the event when the bounded
/// queue has room, otherwise drop it for that subscriber alone. Dropping is
/// the documented lossy policy; the forbidden outcome is blocking the
/// publisher.
pub open spec fn spec_deliver(q: Seq<Seq<char>>, ev: Seq<char>, cap: nat) -> Seq<Seq<char>> {
    if q.len() < cap {
        q.push(ev)
    } else {
        q
    }
}

/// Publishing delivers to every registered subscriber independently.
pub open spec fn spec_publish(
    s: Seq<(u64, Seq<Seq<char>>)>,
    ev: Seq<char>,
    cap: nat,
) -> Seq<(u64, Seq<Seq<char>>)>
    decreases s.len(),
{
    if s.len() == 0 {
        s
    } else {
        spec_publish(s.drop_last(), ev, cap).push(
            (s.last().0, spec_deliver(s.last().1, ev, cap)),
        )
    }
}

/// Unsubscribing removes the subscriber with this handle, if any, and keeps
/// everyone else in order.
pub open spec fn spec_unsubscribe(s: Seq<(u64, Seq<Seq<char>>)>, h: u64) -> Seq<
    (u64, Seq<Seq<char>>),
>
    decreases s.len(),
{
    if s.len() == 0 {
        s
    } else {
        spec_unsubscribe(s.drop_last(), h) + if s.last().0 == h {
            Seq::empty()
        } else {
            seq![s.last()]
        }
    }
}

/// The in-process distribution hub: a registry of live subscribers, each
/// owning a bounded queue, decoupling the single producer from any number of
/// independently advancing consumers.
pub struct Hub {
    subs: Vec<Subscriber>,
    next_id: u64,
    capacity: usize,
}

impl View for Hub {
    type V = Seq<(u64, Seq<Seq<char>>)>;

    closed spec fn view(&self) -> Seq<(u64, Seq<Seq<char>>)> {
        subs_view(self.subs@)
    }
}

impl Hub {
    /// The bound every subscriber queue is kept under.
    pub closed spec fn capacity(&self) -> nat {
        self.capacity as nat
    }

    /// The handle the next subscriber will receive.
    pub closed spec fn next_handle(&self) -> u64 {
        self.next_id
    }

    /// The hub's invariant: a positive queue bound, unique handles, every
    /// queue within the bound, and every issued handle below the next one.
    pub open spec fn wf(&self) -> bool {
        &&& self.capacity() >= 1
        &&& sub_ids_unique(self@)
        &&& forall|i: int| 0 <= i < self@.len() ==> (#[trigger] self@[i]).1.len() <= self.capacity()
        &&& forall|i: int| 0 <= i < self@.len() ==> (#[trigger] self@[i]).0 < self.next_handle()
    }

    /// An empty hub whose subscriber queues will hold at most `capacity`
    /// undelivered events each.
    pub fn new(capacity: usize) -> (h: Hub)
        requires
            capacity >= 1,
        ensures
            h@ == Seq::<(u64, Seq<Seq<char>>)>::empty(),
            h.wf(),
            h.capacity() == capacity,
            h.next_handle() == 0,
    {
        let h = Hub { subs: Vec::new(), next_id: 0, capacity };
        proof {
            assert(h@ =~= Seq::<(u64, Seq<Seq<char>>)>::empty());
        }
        h
    }

    /// How many subscribers are registered.
    pub fn subscriber_count(&self) -> (n: usize)
        ensures
            n == self@.len(),
    {
        self.subs.len()
    }

    /// Whether the handle space is used up, so that no further subscriber
    /// can be registered.
    pub fn handles_exhausted(&self) -> (r: bool)
        ensures
            r == (self.next_handle() == u64::MAX),
    {
        self.next_id == u64::MAX
    }

    /// Register a new subscriber with a fresh handle and an empty queue. A
    /// subscriber joining after an event sees only subsequent events: no
    /// replay is attempted.
    pub fn subscribe(&mut self) -> (h: u64)
        requires
            old(self).wf(),
            old(self).next_handle() < u64::MAX,
        ensures
            final(self).wf(),
            h == old(self).next_handle(),
            !has_sub(old(self)@, h),
            final(self)@ == old(self)@.push((h, Seq::<Seq<char>>::empty())),
            final(self).capacity() == old(self).capacity(),
            final(self).next_handle() == old(self).next_handle() + 1,
    {
        let id = self.next_id;
        self.next_id = self.next_id + 1;
        self.subs.push(Subscriber { id, queue: Vec::new() });
        proof {
            assert(strs_view(Seq::<String>::empty()) =~= Seq::<Seq<char>>::empty());
            assert(self@ =~= old(self)@.push((id, Seq::<Seq<char>>::empty())));
            assert forall|i: int| 0 <= i < self@.len() implies (#[trigger] self@[i]).0
                < self.next_handle() by {
                if i < old(self)@.len() {
                    assert(self@[i] == old(self)@[i]);
                }
            }
        }
        id
    }

    /// Remove the subscriber with handle `h`. Removing an absent handle is a
    /// no-op, so the two sides of a connection may both report termination
    /// without a double removal.
    pub fn unsubscribe(&mut self, h: u64) -> (removed: bool)
        requires
            old(self).wf(),
        ensures
            final(self).wf(),
            final(self)@ == spec_unsubscribe(old(self)@, h),
            removed <==> has_sub(old(self)@, h),
            final(self).capacity() == old(self).capacity(),
            final(self).next_handle() == old(self).next_handle(),
    {
        let n = self.subs.len();
        let mut i: usize = 0;
        while i < n
            invariant
                i <= n,
                n == self.subs@.len(),
                self@ == old(self)@,
                self.capacity() == old(self).capacity(),
                self.next_handle() == old(self).next_handle(),
                old(self).wf(),
                forall|k: int| 0 <= k < i ==> (#[trigger] old(self)@[k]).0 != h,
            decreases n - i,
        {
            proof {
                assert(self@[i as int] == sub_view(self.subs@[i as int]));
            }
            if self.subs[i].id == h {
                let ghost pre = self.subs@;
                self.subs.remove(i);
                proof {
                    assert forall|k: int| 0 <= k < self.subs@.len() implies subs_view(
                        self.subs@,
                    )[k] == subs_view(pre).remove(i as int)[k] by {
                        if k < i {
                            assert(self.subs@[k] == pre[k]);
                        } else {
                            assert(self.subs@[k] == pre[k + 1]);
                        }
                    }
                    assert(self@ =~= old(self)@.remove(i as int));
                    lemma_spec_unsubscribe_at(old(self)@, h, i as int);
                    assert forall|a: int| 0 <= a < self@.len() implies (#[trigger] self@[a]).1.len()
                        <= self.capacity() && self@[a].0 < self.next_handle() by {
                        if a < i {
                            assert(self@[a] == old(self)@[a]);
                        } else {
                            assert(self@[a] == old(self)@[a + 1]);
                        }
                    }
                    assert(sub_ids_unique(self@)) by {
                        assert forall|a: int, b: int|
                            0 <= a < b < self@.len() implies self@[a].0 != self@[b].0 by {
                            if b < i {
                            } else if a < i {
                                assert(self@[a] == old(self)@[a]);
                                assert(self@[b] == old(self)@[b + 1]);
                            } else {
                                assert(self@[a] == old(self)@[a + 1]);
                                assert(self@[b] == old(self)@[b + 1]);
                            }
                        }
                    }
                }
                return true;
            }
            i += 1;
        }
        proof {
            assert(!has_sub(old(self)@, h));
            lemma_spec_unsubscribe_absent(old(self)@, h);
        }
        false
    }

    /// Deliver `ev` to every registered subscriber. Each delivery depends on
    /// that subscriber's queue alone: a full queue drops the event for its
    /// owner and never delays or disturbs anyone else, and no failure
    /// reaches the publisher.
    pub fn publish(&mut self, ev: &String)
        requires
            old(self).wf(),
        ensures
            final(self).wf(),
            final(self)@ == spec_publish(old(self)@, ev@, old(self).capacity()),
            final(self).capacity() == old(self).capacity(),
            final(self).next_handle() == old(self).next_handle(),
    {
        let n = self.subs.len();
        let mut i: usize = 0;
        while i < n
            invariant
                i <= n,
                n == self.subs@.len(),
                n == old(self).subs@.len(),
                old(self).wf(),
                self.capacity() == old(self).capacity(),
                self.next_handle() == old(self).next_handle(),
                forall|k: int| i <= k < n ==> self.subs@[k] == old(self).subs@[k],
                subs_view(self.subs@.take(i as int)) == spec_publish(
                    subs_view(old(self).subs@.take(i as int)),
                    ev@,
                    old(self).capacity(),
                ),
            decreases n - i,
        {
            let ghost pre = self.subs@;
            if self.subs[i].queue.len() < self.capacity {
                let e = ev.clone();
                self.subs[i].queue.push(e);
            }
            proof {
                let cap = old(self).capacity();
                let osub = old(self).subs@[i as int];
                assert(pre[i as int] == osub);
                assert(sub_view(self.subs@[i as int]) == (
                    osub.id,
                    spec_deliver(sub_view(osub).1, ev@, cap),
                )) by {
                    if strs_view(osub.queue@).len() < cap {
                        assert(self.subs@[i as int].queue@ == osub.queue@.push(*ev));
                        assert(strs_view(osub.queue@.push(*ev)) =~= strs_view(osub.queue@).push(
                            ev@,
                        ));
                    } else {
                        assert(self.subs@[i as int] == osub);
                    }
                }
                assert(self.subs@.take(i + 1) =~= pre.take(i as int).push(
                    self.subs@[i as int],
                )) by {
                    assert(forall|k: int|
                        0 <= k < i ==> self.subs@[k] == pre[k]);
                }
                assert(pre.take(i as int) =~= self.subs@.take(i as int));
                assert(subs_view(self.subs@.take(i + 1)) =~= subs_view(
                    self.subs@.take(i as int),
                ).push(sub_view(self.subs@[i as int])));
                assert(old(self).subs@.take(i + 1) =~= old(self).subs@.take(i as int).push(osub));
                lemma_spec_publish_push(
                    subs_view(old(self).subs@.take(i as int)),
                    sub_view(osub),
                    ev@,
                    cap,
                );
                assert(subs_view(old(self).subs@.take(i + 1)) =~= subs_view(
                    old(self).subs@.take(i as int),
                ).push(sub_view(osub)));
                assert(forall|k: int|
                    i + 1 <= k < n ==> self.subs@[k] == old(self).subs@[k]);
            }
            i += 1;
        }
        proof {
            assert(self.subs@.take(n as int) =~= self.subs@);
            assert(old(self).subs@.take(n as int) =~= old(self).subs@);
            lemma_publish_pointwise(old(self)@, ev@, old(self).capacity());
            assert forall|k: int| 0 <= k < self@.len() implies (#[trigger] self@[k]).1.len()
                <= self.capacity() && self@[k].0 < self.next_handle() by {
                assert(self@[k] == (
                    old(self)@[k].0,
                    spec_deliver(old(self)@[k].1, ev@, old(self).capacity()),
                ));
            }
            assert(sub_ids_unique(self@)) by {
                assert forall|a: int, b: int|
                    0 <= a < b < self@.len() implies self@[a].0 != self@[b].0 by {
                    assert(self@[a].0 == old(self)@[a].0);
                    assert(self@[b].0 == old(self)@[b].0);
                }
            }
        }
    }

    /// Hand the subscriber with handle `h` its oldest undelivered event, in
    /// publication order; `None` when it has none or the handle is unknown.
    pub fn next_event(&mut self, h: u64) -> (r: Option<String>)
        requires
            old(self).wf(),
        ensures
            final(self).wf(),
            final(self).capacity() == old(self).capacity(),
            final(self).next_handle() == old(self).next_handle(),
            !has_sub(old(self)@, h) ==> r is None && final(self)@ == old(self)@,
            has_sub(old(self)@, h) ==> ({
                let j = sub_index(old(self)@, h);
                &&& old(self)@[j].1.len() == 0 ==> r is None && final(self)@ == old(self)@
                &&& old(self)@[j].1.len() > 0 ==> (r matches Some(e) && e@ == old(self)@[j].1[0]
                    && final(self)@ == old(self)@.update(
                    j,
                    (h, old(self)@[j].1.drop_first()),
                ))
            }),
    {
        let n = self.subs.len();
        let mut i: usize = 0;
        while i < n
            invariant
                i <= n,
                n == self.subs@.len(),
                self@ == old(self)@,
                self.capacity() == old(self).capacity(),
                self.next_handle() == old(self).next_handle(),
                old(self).wf(),
                forall|k: int| 0 <= k < i ==> (#[trigger] old(self)@[k]).0 != h,
            decreases n - i,
        {
            proof {
                assert(self@[i as int] == sub_view(self.subs@[i as int]));
            }
            if self.subs[i].id == h {
                proof {
                    assert(has_sub(old(self)@, h)) by {
                        assert(old(self)@[i as int].0 == h);
                    }
                    let j = sub_index(old(self)@, h);
                    assert(0 <= j < old(self)@.len() && old(self)@[j].0 == h);
                    assert(j == i as int) by {
                        if j != i as int {
                            assert(old(self)@[j].0 == old(self)@[i as int].0);
                        }
                    }
                }
                if self.subs[i].queue.len() == 0 {
                    proof {
                        assert(old(self)@[i as int].1.len() == 0);
                    }
                    return None;
                }
                let ghost pre = self.subs@;
                let e = self.subs[i].queue.remove(0);
                proof {
                    let osub = pre[i as int];
                    assert(e == osub.queue@[0]);
                    assert(strs_view(osub.queue@)[0] == e@);
                    assert(strs_view(self.subs@[i as int].queue@) =~= strs_view(
                        osub.queue@,
                    ).drop_first()) by {
                        assert(forall|k: int|
                            0 <= k < self.subs@[i as int].queue@.len()
                                ==> self.subs@[i as int].queue@[k] == osub.queue@[k + 1]);
                    }
                    assert(self@ =~= old(self)@.update(
                        i as int,
                        (h, old(self)@[i as int].1.drop_first()),
                    )) by {
                        assert(forall|k: int|
                            0 <= k < self.subs@.len() && k != i as int ==> self.subs@[k] == pre[k]);
                    }
                }
                return Some(e);
            }
            i += 1;
        }
        proof {
            assert(!has_sub(old(self)@, h));
        }
        None
    }
}

proof fn lemma_spec_publish_push(
    s: Seq<(u64, Seq<Seq<char>>)>,
    x: (u64, Seq<Seq<char>>),
    ev: Seq<char>,
    cap: nat,
)
    ensures
        spec_publish(s.push(x), ev, cap) == spec_publish(s, ev, cap).push(
            (x.0, spec_deliver(x.1, ev, cap)),
        ),
{
    assert(s.push(x).drop_last() == s);
    assert(s.push(x).last() == x);
}

/// Publishing acts on each subscriber independently: the result at index `j`
/// is determined by the subscriber at `j` alone, whatever the state of any
/// other subscriber's queue. A consumer that never drains its queue
/// therefore cannot affect delivery to anyone else.
pub proof fn lemma_publish_isolation(
    s: Seq<(u64, Seq<Seq<char>>)>,
    ev: Seq<char>,
    cap: nat,
    j: int,
)
    requires
        0 <= j < s.len(),
    ensures
        spec_publish(s, ev, cap).len() == s.len(),
        spec_publish(s, ev, cap)[j] == (s[j].0, spec_deliver(s[j].1, ev, cap)),
{
    lemma_publish_pointwise(s, ev, cap);
}

proof fn lemma_publish_pointwise(s: Seq<(u64, Seq<Seq<char>>)>, ev: Seq<char>, cap: nat)
    ensures
        spec_publish(s, ev, cap).len() == s.len(),
        forall|j: int|
            0 <= j < s.len() ==> spec_publish(s, ev, cap)[j] == (
                (#[trigger] s[j]).0,
                spec_deliver(s[j].1, ev, cap),
            ),
    decreases s.len(),
{
    if s.len() > 0 {
        lemma_publish_pointwise(s.drop_last(), ev, cap);
        assert(forall|j: int|
            0 <= j < s.len() - 1 ==> s.drop_last()[j] == s[j]);
        assert(s[s.len() - 1] == s.last());
    }
}

/// Order preservation for one subscriber: when events `e1` then `e2` are
/// published and the subscriber's queue has room for both, its queue extends
/// with `e1` followed by `e2`, so it observes them in publication order.
pub proof fn lemma_publish_order(
    s: Seq<(u64, Seq<Seq<char>>)>,
    e1: Seq<char>,
    e2: Seq<char>,
    cap: nat,
    j: int,
)
    requires
        0 <= j < s.len(),
        s[j].1.len() + 2 <= cap,
    ensures
        spec_publish(spec_publish(s, e1, cap), e2, cap)[j].1 == s[j].1.push(e1).push(e2),
        spec_publish(spec_publish(s, e1, cap), e2, cap)[j].1[s[j].1.len() as int] == e1,
        spec_publish(spec_publish(s, e1, cap), e2, cap)[j].1[s[j].1.len() as int + 1] == e2,
{
    lemma_publish_isolation(s, e1, cap, j);
    lemma_publish_isolation(spec_publish(s, e1, cap), e2, cap, j);
}

/// Unsubscribing an absent handle is a no-op.
pub proof fn lemma_spec_unsubscribe_absent(s: Seq<(u64, Seq<Seq<char>>)>, h: u64)
    requires
        !has_sub(s, h),
    ensures
        spec_unsubscribe(s, h) == s,
    decreases s.len(),
{
    if s.len() > 0 {
        assert(forall|i: int|
            0 <= i < s.len() - 1 ==> s.drop_last()[i] == s[i]);
        assert(!has_sub(s.drop_last(), h));
        lemma_spec_unsubscribe_absent(s.drop_last(), h);
        assert(s.last().0 != h) by {
            assert(s[s.len() - 1] == s.last());
        }
        assert(s.drop_last() + seq![s.last()] =~= s);
    }
}

/// With unique handles, unsubscribing `h` removes exactly the one
/// subscriber at its registry index.
pub proof fn lemma_spec_unsubscribe_at(s: Seq<(u64, Seq<Seq<char>>)>, h: u64, i: int)
    requires
        sub_ids_unique(s),
        0 <= i < s.len(),
        s[i].0 == h,
    ensures
        spec_unsubscribe(s, h) == s.remove(i),
    decreases s.len(),
{
    assert(forall|k: int|
        0 <= k < s.len() - 1 ==> s.drop_last()[k] == s[k]);
    if i == s.len() - 1 {
        assert(s.last().0 == h);
        assert(!has_sub(s.drop_last(), h)) by {
            if has_sub(s.drop_last(), h) {
                let v = choose|k: int|
                    0 <= k < s.drop_last().len() && s.drop_last()[k].0 == h;
                assert(s[v].0 == h && v < i);
            }
        }
        lemma_spec_unsubscribe_absent(s.drop_last(), h);
        assert(spec_unsubscribe(s, h) =~= s.remove(i));
    } else {
        assert(s.drop_last()[i].0 == h);
        assert(sub_ids_unique(s.drop_last()));
        lemma_spec_unsubscribe_at(s.drop_last(), h, i);
        assert(s.last().0 != h) by {
            assert(s[s.len() - 1] == s.last());
            if s.last().0 == h {
                assert(s[i].0 == s[s.len() - 1].0);
            }
        }
        assert(spec_unsubscribe(s, h) =~= s.remove(i)) by {
            assert(spec_unsubscribe(s, h) == s.drop_last().remove(i) + seq![s.last()]);
        }
    }
}

/// Unsubscribing twice with the same handle is the same as unsubscribing
/// once: after the first removal the handle is gone.
pub proof fn lemma_unsubscribe_idempotent(s: Seq<(u64, Seq<Seq<char>>)>, h: u64)
    requires
        sub_ids_unique(s),
    ensures
        spec_unsubscribe(spec_unsubscribe(s, h), h) == spec_unsubscribe(s, h),
{
    if has_sub(s, h) {
        let i = sub_index(s, h);
        lemma_spec_unsubscribe_at(s, h, i);
        assert(!has_sub(s.remove(i), h)) by {
            if has_sub(s.remove(i), h) {
                let v = choose|k: int|
                    0 <= k < s.remove(i).len() && s.remove(i)[k].0 == h;
                if v < i {
                    assert(s[v].0 == h);
                    assert(s[v].0 == s[i].0);
                } else {
                    assert(s[v + 1].0 == h);
                    assert(s[i].0 == s[v + 1].0);
                }
            }
        }
        lemma_spec_unsubscribe_absent(s.remove(i), h);
    } else {
        lemma_spec_unsubscribe_absent(s, h);
    }
}

} // verus!
