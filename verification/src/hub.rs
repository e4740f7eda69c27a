//! The broadcast hub: the set of live subscriptions for named topics, the
//! ordered fan-out of published values, and subscription removal.
//!
//! Each subscription owns an outbound delivery queue; a published value is
//! appended to the queue of every subscription registered on the topic at
//! that instant, so per-subscriber delivery order is publish order. The
//! surrounding transport drains a subscription's queue onto its connection
//! and unsubscribes it when the connection is gone or cannot keep up, so no
//! publish ever blocks on a peer.

use vstd::prelude::*;

verus! {

/// True iff two byte strings hold the same bytes.
fn bytes_eq(a: &[u8], b: &[u8]) -> (r: bool)
    ensures
        r == (a@ == b@),
{
    if a.len() != b.len() {
        return false;
    }
    let mut i: usize = 0;
    while i < a.len()
        invariant
            a@.len() == b@.len(),
            0 <= i <= a@.len(),
            forall|j: int| 0 <= j < i ==> a@[j] == b@[j],
        decreases a@.len() - i,
    {
        if a[i] != b[i] {
            return false;
        }
        i += 1;
    }
    proof {
        assert(a@ =~= b@);
    }
    true
}

/// An owned copy of a byte string.
fn bytes_clone(a: &[u8]) -> (r: Vec<u8>)
    ensures
        r@ == a@,
{
    let mut r: Vec<u8> = Vec::new();
    let mut i: usize = 0;
    while i < a.len()
        invariant
            0 <= i <= a@.len(),
            r@ == a@.take(i as int),
        decreases a@.len() - i,
    {
        r.push(a[i]);
        proof {
            assert(a@.take(i as int).push(a@[i as int]) =~= a@.take(i + 1));
        }
        i += 1;
    }
    proof {
        assert(a@.take(a.len() as int) =~= a@);
    }
    r
}

/// The abstract state of one subscription: its topic, the identity used for
/// removal, and the values delivered to it (oldest first) that its
/// connection has not yet drained.
pub struct SubView {
    pub topic: Seq<u8>,
    pub id: u64,
    pub queue: Seq<Seq<u8>>,
}

/// One live subscription: an observer of `topic`, addressed by `id`, with
/// its outbound delivery queue.
pub struct Subscription {
    topic: Vec<u8>,
    id: u64,
    queue: Vec<Vec<u8>>,
}

impl View for Subscription {
    type V = SubView;

    closed spec fn view(&self) -> SubView {
        SubView {
            topic: self.topic@,
            id: self.id,
            queue: self.queue@.map_values(|v: Vec<u8>| v@),
        }
    }
}

/// What one publish does to one subscription: the value is appended to the
/// queue of a subscription on the topic; others are untouched.
pub open spec fn publish_one(s: SubView, topic: Seq<u8>, value: Seq<u8>) -> SubView {
    if s.topic == topic {
        SubView { topic: s.topic, id: s.id, queue: s.queue.push(value) }
    } else {
        s
    }
}

/// What one publish does to the whole subscription set.
pub open spec fn publish_on(subs: Seq<SubView>, topic: Seq<u8>, value: Seq<u8>) -> Seq<SubView> {
    subs.map_values(|s: SubView| publish_one(s, topic, value))
}

/// A sequence of publishes on one topic, oldest first.
pub open spec fn publish_all(
    subs: Seq<SubView>,
    topic: Seq<u8>,
    values: Seq<Seq<u8>>,
) -> Seq<SubView>
    decreases values.len(),
{
    if values.len() == 0 {
        subs
    } else {
        publish_all(publish_on(subs, topic, values.first()), topic, values.drop_first())
    }
}

pub open spec fn has_id(subs: Seq<SubView>, id: u64) -> bool {
    exists|i: int| 0 <= i < subs.len() && subs[i].id == id
}

/// The position of the subscription with `id` (meaningful when
/// `has_id(subs, id)` and ids are distinct).
pub open spec fn idx_of(subs: Seq<SubView>, id: u64) -> int {
    choose|i: int| 0 <= i < subs.len() && subs[i].id == id
}

pub open spec fn ids_distinct(subs: Seq<SubView>) -> bool {
    forall|i: int, j: int| 0 <= i < j < subs.len() ==> subs[i].id != subs[j].id
}

/// How many subscriptions are registered on `topic`.
pub open spec fn count_topic(subs: Seq<SubView>, topic: Seq<u8>) -> nat
    decreases subs.len(),
{
    if subs.len() == 0 {
        0
    } else {
        count_topic(subs.drop_last(), topic) + (if subs.last().topic == topic {
            1nat
        } else {
            0nat
        })
    }
}

/// The broadcast hub: the dynamic set of live subscriptions, in
/// registration order, and the source of fresh subscription identities.
pub struct Hub {
    subs: Vec<Subscription>,
    next_id: u64,
}

impl View for Hub {
    type V = Seq<SubView>;

    closed spec fn view(&self) -> Seq<SubView> {
        self.subs@.map_values(|s: Subscription| s@)
    }
}

impl Hub {
    /// Subscription identities are pairwise distinct, and every identity
    /// already handed out stays below the next fresh one.
    pub closed spec fn wf(&self) -> bool {
        &&& ids_distinct(self@)
        &&& forall|i: int| 0 <= i < self@.len() ==> self@[i].id < self.next_id
    }

    /// A fresh subscription identity can still be handed out.
    pub closed spec fn spec_has_capacity(&self) -> bool {
        self.next_id < u64::MAX
    }

    pub fn has_capacity(&self) -> (r: bool)
        ensures
            r == self.spec_has_capacity(),
    {
        self.next_id < u64::MAX
    }

    /// A hub with no subscriptions.
    pub fn new() -> (r: Hub)
        ensures
            r@ == Seq::<SubView>::empty(),
            r.wf(),
            r.spec_has_capacity(),
    {
        let r = Hub { subs: Vec::new(), next_id: 0 };
        proof {
            assert(r@ =~= Seq::<SubView>::empty());
        }
        r
    }

    /// Register a new subscription on `topic`, primed with `snapshot` as
    /// the first value it will receive; returns its fresh identity. No
    /// existing subscription is touched, so registration never blocks on a
    /// slow peer.
    pub fn subscribe(&mut self, topic: Vec<u8>, snapshot: Vec<u8>) -> (id: u64)
        requires
            old(self).wf(),
            old(self).spec_has_capacity(),
        ensures
            final(self).wf(),
            !has_id(old(self)@, id),
            final(self)@ == old(self)@.push(
                (SubView { topic: topic@, id, queue: seq![snapshot@] }),
            ),
    {
        let id = self.next_id;
        self.next_id = self.next_id + 1;
        let mut queue: Vec<Vec<u8>> = Vec::new();
        queue.push(snapshot);
        let ghost snapshot_view = queue@.map_values(|v: Vec<u8>| v@);
        proof {
            assert(snapshot_view =~= seq![snapshot@]);
        }
        self.subs.push(Subscription { topic, id, queue });
        proof {
            assert(self@ =~= old(self)@.push(
                SubView { topic: topic@, id, queue: seq![snapshot@] },
            ));
            assert forall|i: int| 0 <= i < old(self)@.len()
                implies old(self)@[i].id != id by {}
        }
        id
    }

    /// Deliver `value` to every subscription currently registered on
    /// `topic`, in place, appending it to each matching queue; every other
    /// subscription is untouched.
    pub fn publish(&mut self, topic: &[u8], value: &[u8])
        requires
            old(self).wf(),
        ensures
            final(self).wf(),
            final(self)@ == publish_on(old(self)@, topic@, value@),
    {
        let n = self.subs.len();
        let mut i: usize = 0;
        while i < n
            invariant
                n == self.subs@.len(),
                0 <= i <= n,
                self.next_id == old(self).next_id,
                forall|j: int| 0 <= j < i ==> self.subs@[j]@
                    == publish_one(old(self).subs@[j]@, topic@, value@),
                forall|j: int| i <= j < n ==> self.subs@[j] == old(self).subs@[j],
            decreases n - i,
        {
            if bytes_eq(self.subs[i].topic.as_slice(), topic) {
                let v = bytes_clone(value);
                let ghost before = self.subs@[i as int]@;
                self.subs[i].queue.push(v);
                proof {
                    assert(self.subs@[i as int]@.queue =~= before.queue.push(value@));
                }
            }
            i += 1;
        }
        proof {
            assert(self@ =~= publish_on(old(self)@, topic@, value@));
            assert forall|j: int| 0 <= j < self@.len()
                implies self@[j].id == old(self)@[j].id by {}
        }
    }

    /// Remove the subscription addressed by `id`; idempotent, and no other
    /// subscription is affected. Afterwards no subscription holds `id`.
    pub fn unsubscribe(&mut self, id: u64)
        requires
            old(self).wf(),
        ensures
            final(self).wf(),
            final(self).spec_has_capacity() == old(self).spec_has_capacity(),
            !has_id(old(self)@, id) ==> final(self)@ == old(self)@,
            has_id(old(self)@, id) ==> final(self)@
                == old(self)@.remove(idx_of(old(self)@, id)),
            !has_id(final(self)@, id),
    {
        let n = self.subs.len();
        let mut i: usize = 0;
        while i < n
            invariant
                n == self.subs@.len(),
                0 <= i <= n,
                *self == *old(self),
                old(self).wf(),
                forall|j: int| 0 <= j < i ==> self@[j].id != id,
            decreases n - i,
        {
            if self.subs[i].id == id {
                proof {
                    assert(self@[i as int] == self.subs@[i as int]@);
                    assert(has_id(old(self)@, id)) by {
                        assert(0 <= i < old(self)@.len() && old(self)@[i as int].id == id);
                    }
                    assert(ids_distinct(old(self)@));
                    assert(idx_of(old(self)@, id) == i) by {
                        let k = idx_of(old(self)@, id);
                        assert(0 <= k < old(self)@.len() && old(self)@[k].id == id);
                        if k < i {
                            assert(self@[k].id != id);
                        } else if k > i {
                            assert((i as int) < k && k < old(self)@.len());
                            assert(old(self)@[i as int].id != old(self)@[k].id);
                        }
                    }
                }
                self.subs.remove(i);
                proof {
                    assert(self@ =~= old(self)@.remove(i as int));
                    old(self)@.remove_ensures(i as int);
                    assert forall|j: int| 0 <= j < self@.len()
                        implies self@[j].id != id by {
                        if j < i {
                            assert(self@[j] == old(self)@[j]);
                        } else {
                            assert(self@[j] == old(self)@[j + 1]);
                            assert(old(self)@[i as int].id != old(self)@[j + 1].id);
                        }
                    }
                    assert forall|a: int, b: int| 0 <= a < b < self@.len()
                        implies self@[a].id != self@[b].id by {
                        let a0: int = if a < i { a } else { a + 1 };
                        let b0: int = if b < i { b } else { b + 1 };
                        assert(self@[a] == old(self)@[a0]);
                        assert(self@[b] == old(self)@[b0]);
                        assert(old(self)@[a0].id != old(self)@[b0].id);
                    }
                    assert forall|a: int| 0 <= a < self@.len()
                        implies self@[a].id < self.next_id by {
                        let a0: int = if a < i { a } else { a + 1 };
                        assert(self@[a] == old(self)@[a0]);
                    }
                }
                return;
            }
            i += 1;
        }
        proof {
            assert(!has_id(old(self)@, id));
        }
    }

    /// Take every value delivered to the subscription addressed by `id`
    /// that its connection has not yet drained, oldest first, leaving its
    /// queue empty; `None` when no such subscription exists.
    pub fn take_pending(&mut self, id: u64) -> (r: Option<Vec<Vec<u8>>>)
        requires
            old(self).wf(),
        ensures
            final(self).wf(),
            final(self).spec_has_capacity() == old(self).spec_has_capacity(),
            !has_id(old(self)@, id) ==> r is None && final(self)@ == old(self)@,
            has_id(old(self)@, id) ==> {
                let j = idx_of(old(self)@, id);
                &&& r matches Some(q)
                    && q@.map_values(|v: Vec<u8>| v@) == old(self)@[j].queue
                &&& final(self)@ == old(self)@.update(j,
                    (SubView {
                        topic: old(self)@[j].topic,
                        id: old(self)@[j].id,
                        queue: Seq::<Seq<u8>>::empty(),
                    }),
                )
            },
    {
        let n = self.subs.len();
        let mut i: usize = 0;
        while i < n
            invariant
                n == self.subs@.len(),
                0 <= i <= n,
                *self == *old(self),
                old(self).wf(),
                forall|j: int| 0 <= j < i ==> self@[j].id != id,
            decreases n - i,
        {
            if self.subs[i].id == id {
                proof {
                    assert(self@[i as int] == self.subs@[i as int]@);
                    assert(has_id(old(self)@, id)) by {
                        assert(0 <= i < old(self)@.len() && old(self)@[i as int].id == id);
                    }
                    assert(idx_of(old(self)@, id) == i) by {
                        let k = idx_of(old(self)@, id);
                        assert(0 <= k < old(self)@.len() && old(self)@[k].id == id);
                        if k < i {
                            assert(self@[k].id != id);
                        } else if k > i {
                            assert(old(self)@[i as int].id != old(self)@[k].id);
                        }
                    }
                }
                let mut q: Vec<Vec<u8>> = Vec::new();
                core::mem::swap(&mut self.subs[i].queue, &mut q);
                proof {
                    assert(Seq::<Vec<u8>>::empty().map_values(|v: Vec<u8>| v@)
                        =~= Seq::<Seq<u8>>::empty());
                    assert(self@ =~= old(self)@.update(i as int,
                        SubView {
                            topic: old(self)@[i as int].topic,
                            id: old(self)@[i as int].id,
                            queue: Seq::<Seq<u8>>::empty(),
                        },
                    ));
                    assert forall|a: int| 0 <= a < self@.len()
                        implies self@[a].id == old(self)@[a].id by {}
                    assert forall|a: int, b: int| 0 <= a < b < self@.len()
                        implies self@[a].id != self@[b].id by {
                        assert(self@[a].id == old(self)@[a].id);
                        assert(self@[b].id == old(self)@[b].id);
                    }
                    assert forall|a: int| 0 <= a < self@.len()
                        implies self@[a].id < self.next_id by {
                        assert(self@[a].id == old(self)@[a].id);
                    }
                }
                return Some(q);
            }
            i += 1;
        }
        proof {
            assert(!has_id(old(self)@, id));
        }
        None
    }

    /// How many subscriptions are currently registered on `topic`.
    pub fn subscriber_count(&self, topic: &[u8]) -> (r: usize)
        ensures
            r == count_topic(self@, topic@),
    {
        let n = self.subs.len();
        let mut count: usize = 0;
        let mut i: usize = 0;
        while i < n
            invariant
                n == self@.len(),
                0 <= i <= n,
                count <= i,
                count == count_topic(self@.take(i as int), topic@),
            decreases n - i,
        {
            if bytes_eq(self.subs[i].topic.as_slice(), topic) {
                count = count + 1;
            }
            proof {
                assert(self@.take(i + 1).drop_last() =~= self@.take(i as int));
                assert(self@.take(i + 1).last() == self@[i as int]);
            }
            i += 1;
        }
        proof {
            assert(self@.take(n as int) =~= self@);
        }
        count
    }

    /// The identities of all current subscriptions, in registration order.
    pub fn subscriber_ids(&self) -> (r: Vec<u64>)
        ensures
            r@ == self@.map_values(|s: SubView| s.id),
    {
        let n = self.subs.len();
        let mut r: Vec<u64> = Vec::new();
        let mut i: usize = 0;
        while i < n
            invariant
                n == self@.len(),
                0 <= i <= n,
                r@ == self@.take(i as int).map_values(|s: SubView| s.id),
            decreases n - i,
        {
            r.push(self.subs[i].id);
            proof {
                assert(self@.take(i as int).map_values(|s: SubView| s.id).push(self@[i as int].id)
                    =~= self@.take(i + 1).map_values(|s: SubView| s.id));
            }
            i += 1;
        }
        proof {
            assert(self@.take(n as int) =~= self@);
        }
        r
    }
}

/// Delivery is complete, unduplicated and in publish order: a subscription
/// on the topic, present throughout a run of publishes, ends with exactly
/// those values appended to its queue, oldest first; a subscription on
/// another topic is untouched.
pub proof fn lemma_delivery_in_order(
    subs: Seq<SubView>,
    topic: Seq<u8>,
    values: Seq<Seq<u8>>,
    i: int,
)
    requires
        0 <= i < subs.len(),
    ensures
        publish_all(subs, topic, values).len() == subs.len(),
        subs[i].topic == topic ==> publish_all(subs, topic, values)[i]
            == (SubView { topic: subs[i].topic, id: subs[i].id, queue: subs[i].queue + values }),
        subs[i].topic != topic ==> publish_all(subs, topic, values)[i] == subs[i],
    decreases values.len(),
{
    if values.len() == 0 {
        assert(subs[i].queue + values =~= subs[i].queue);
    } else {
        let subs1 = publish_on(subs, topic, values.first());
        lemma_delivery_in_order(subs1, topic, values.drop_first(), i);
        if subs[i].topic == topic {
            assert(subs1[i].queue =~= subs[i].queue.push(values.first()));
            assert(subs[i].queue.push(values.first()) + values.drop_first()
                =~= subs[i].queue + values);
        }
    }
}

/// For a subscriber that stays registered from before one publish through a
/// later one on the same topic, the two values arrive in publish order,
/// each exactly once: its queue grows by exactly those two values.
pub proof fn lemma_no_missed_or_duplicated_delivery(
    subs: Seq<SubView>,
    topic: Seq<u8>,
    v1: Seq<u8>,
    v2: Seq<u8>,
    i: int,
)
    requires
        0 <= i < subs.len(),
        subs[i].topic == topic,
    ensures
        publish_on(publish_on(subs, topic, v1), topic, v2).len() == subs.len(),
        publish_on(publish_on(subs, topic, v1), topic, v2)[i].id == subs[i].id,
        publish_on(publish_on(subs, topic, v1), topic, v2)[i].queue
            == subs[i].queue + seq![v1, v2],
{
    assert(publish_on(publish_on(subs, topic, v1), topic, v2)[i].queue
        =~= subs[i].queue + seq![v1, v2]);
}

/// A subscription primed with a snapshot receives the snapshot first:
/// whatever is published on its topic after it registers, its delivered
/// sequence is the snapshot followed by those values in publish order.
pub proof fn lemma_snapshot_first(
    subs: Seq<SubView>,
    topic: Seq<u8>,
    snapshot: Seq<u8>,
    values: Seq<Seq<u8>>,
    i: int,
)
    requires
        0 <= i < subs.len(),
        subs[i].topic == topic,
        subs[i].queue == seq![snapshot],
    ensures
        publish_all(subs, topic, values)[i].queue == seq![snapshot] + values,
        publish_all(subs, topic, values)[i].queue[0] == snapshot,
{
    lemma_delivery_in_order(subs, topic, values, i);
    assert((seq![snapshot] + values)[0] == snapshot);
}

/// Removing one element changes the topic count by exactly that element's
/// contribution.
proof fn lemma_count_topic_remove(subs: Seq<SubView>, j: int, topic: Seq<u8>)
    requires
        0 <= j < subs.len(),
    ensures
        subs[j].topic == topic ==> count_topic(subs.remove(j), topic)
            == count_topic(subs, topic) - 1,
        subs[j].topic != topic ==> count_topic(subs.remove(j), topic)
            == count_topic(subs, topic),
    decreases subs.len(),
{
    if j == subs.len() - 1 {
        assert(subs.remove(j) =~= subs.drop_last());
    } else {
        assert(subs.remove(j).drop_last() =~= subs.drop_last().remove(j));
        assert(subs.remove(j).last() == subs.last());
        lemma_count_topic_remove(subs.drop_last(), j, topic);
    }
}

/// Clean removal: once the subscription addressed by `id` is removed, the
/// set is one smaller, a later publish delivers to no entry with that
/// identity, and the topic's subscriber count has dropped by exactly one.
pub proof fn lemma_clean_removal(subs: Seq<SubView>, id: u64, topic: Seq<u8>, value: Seq<u8>)
    requires
        ids_distinct(subs),
        has_id(subs, id),
    ensures
        subs.remove(idx_of(subs, id)).len() == subs.len() - 1,
        !has_id(subs.remove(idx_of(subs, id)), id),
        !has_id(publish_on(subs.remove(idx_of(subs, id)), topic, value), id),
        subs[idx_of(subs, id)].topic == topic ==> count_topic(
            subs.remove(idx_of(subs, id)),
            topic,
        ) == count_topic(subs, topic) - 1,
{
    let j = idx_of(subs, id);
    assert(0 <= j < subs.len() && subs[j].id == id);
    let rest = subs.remove(j);
    assert forall|k: int| 0 <= k < rest.len() implies rest[k].id != id by {
        if k < j {
            assert(rest[k] == subs[k]);
        } else {
            assert(rest[k] == subs[k + 1]);
        }
    }
    assert forall|k: int| 0 <= k < publish_on(rest, topic, value).len()
        implies publish_on(rest, topic, value)[k].id != id by {
        assert(publish_on(rest, topic, value)[k].id == rest[k].id);
    }
    lemma_count_topic_remove(subs, j, topic);
}

} // verus!
