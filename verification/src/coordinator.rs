//! The update coordinator: the only component that mutates the durable
//! store or publishes on the counter topic.
//!
//! Each increment request reads the current value, computes its successor,
//! attempts the atomic swap, commits durably, and only then publishes the
//! committed value to the hub. A swap conflict is retried with a freshly
//! read value, a bounded number of times. A new observer is registered
//! through the coordinator so its subscription is primed with the current
//! stored value as its snapshot.

use vstd::prelude::*;
use crate::codec::{dec_digits, encode_u64, parse_u64};
use crate::hub::{Hub, SubView, has_id, publish_on};
use crate::store::{Store, StoreError, entry_of, opt_slice_view, opt_vec_view};

verus! {

/// Why a coordinator operation failed: the key was never bootstrapped
/// (`NotFound`), the stored bytes are not the decimal encoding of a
/// representable value (`Malformed`), the value cannot grow further
/// (`Overflow`), the bounded retry budget ran out under contention
/// (`Exhausted`), or the storage engine reported a fault (`Io`).
#[derive(Debug, PartialEq, Eq)]
pub enum CounterError {
    NotFound,
    Malformed,
    Overflow,
    Exhausted,
    Io,
}

/// The result of a committed increment: the value that was installed and
/// published, and whether the durability barrier confirmed it. A failed
/// flush leaves the value committed but not yet durable.
#[derive(Debug, Clone, Copy, PartialEq, Eq)]
pub struct IncrementOutcome {
    pub value: u64,
    pub durable: bool,
}

/// Decide the next counter value from a freshly read store entry: the
/// successor of the stored value, or exactly why there is none.
pub fn compute_next(current: &Option<Vec<u8>>) -> (r: Result<u64, CounterError>)
    ensures
        r matches Ok(next) ==> 1 <= next
            && (current matches Some(b) && b@ == dec_digits((next - 1) as nat)),
        r == Err::<u64, CounterError>(CounterError::NotFound) <==> current is None,
        r == Err::<u64, CounterError>(CounterError::Malformed) ==> (current matches Some(b)
            && forall|n: u64| b@ != dec_digits(n as nat)),
        r == Err::<u64, CounterError>(CounterError::Overflow) ==> (current matches Some(b)
            && b@ == dec_digits(u64::MAX as nat)),
        r != Err::<u64, CounterError>(CounterError::Exhausted),
        r != Err::<u64, CounterError>(CounterError::Io),
{
    match current {
        None => Err(CounterError::NotFound),
        Some(b) => match parse_u64(b.as_slice()) {
            None => Err(CounterError::Malformed),
            Some(n) => {
                if n == u64::MAX {
                    Err(CounterError::Overflow)
                } else {
                    Ok(n + 1)
                }
            },
        },
    }
}

/// One increment request against the counter stored at `key`: exactly one
/// successful compare-and-swap raises the stored value by one, the commit
/// is flushed, and the committed value is then published on `topic`. On any
/// failure nothing is published; before the swap is attempted the store is
/// left unchanged.
pub fn increment(
    store: &mut Store,
    hub: &mut Hub,
    key: &[u8],
    topic: &[u8],
    attempts: u64,
) -> (r: Result<IncrementOutcome, CounterError>)
    requires
        old(hub).wf(),
        attempts >= 1,
    ensures
        final(hub).wf(),
        r matches Ok(out) ==> {
            &&& 1 <= out.value
            &&& entry_of(old(store)@, key@) == Some(dec_digits((out.value - 1) as nat))
            &&& final(store)@ == old(store)@.insert(key@, dec_digits(out.value as nat))
            &&& final(hub)@ == publish_on(old(hub)@, topic@, dec_digits(out.value as nat))
        },
        r matches Err(e) ==> final(hub)@ == old(hub)@,
        r == Err::<IncrementOutcome, CounterError>(CounterError::NotFound) ==> {
            &&& !old(store)@.contains_key(key@)
            &&& final(store)@ == old(store)@
        },
        r == Err::<IncrementOutcome, CounterError>(CounterError::Malformed) ==> {
            &&& (entry_of(old(store)@, key@) matches Some(b)
                && forall|n: u64| b != dec_digits(n as nat))
            &&& final(store)@ == old(store)@
        },
        r == Err::<IncrementOutcome, CounterError>(CounterError::Overflow) ==> {
            &&& entry_of(old(store)@, key@) == Some(dec_digits(u64::MAX as nat))
            &&& final(store)@ == old(store)@
        },
        r != Err::<IncrementOutcome, CounterError>(CounterError::Exhausted),
{
    let mut remaining: u64 = attempts;
    loop
        invariant
            hub.wf(),
            *hub == *old(hub),
            store@ == old(store)@,
            remaining >= 1,
        decreases remaining,
    {
        let current = match store.get(key) {
            Ok(c) => c,
            Err(_) => {
                return Err(CounterError::Io);
            },
        };
        let next = match compute_next(&current) {
            Ok(n) => n,
            Err(e) => {
                return Err(e);
            },
        };
        let new_bytes = encode_u64(next);
        let expected: Option<&[u8]> = match &current {
            Some(b) => Some(b.as_slice()),
            None => None,
        };
        proof {
            assert(opt_slice_view(expected) == opt_vec_view(current));
        }
        match store.compare_and_swap(key, expected, new_bytes.as_slice()) {
            Ok(()) => {
                let durable = match store.flush() {
                    Ok(()) => true,
                    Err(_) => false,
                };
                hub.publish(topic, new_bytes.as_slice());
                return Ok(IncrementOutcome { value: next, durable });
            },
            Err(StoreError::Conflict { current: _ }) => {
                remaining = remaining - 1;
                if remaining == 0 {
                    return Err(CounterError::Exhausted);
                }
            },
            Err(StoreError::Io) => {
                return Err(CounterError::Io);
            },
        }
    }
}

/// Register a new observer of the counter stored at `key`: its
/// subscription on `topic` is primed with the currently stored value as
/// its snapshot, so the snapshot is the first value it receives, before
/// any value published later. Existing subscriptions are untouched; a
/// failure leaves the hub unchanged.
pub fn subscribe_with_snapshot(
    store: &Store,
    hub: &mut Hub,
    key: &[u8],
    topic: Vec<u8>,
) -> (r: Result<u64, CounterError>)
    requires
        old(hub).wf(),
        old(hub).spec_has_capacity(),
    ensures
        final(hub).wf(),
        r matches Ok(id) ==> (entry_of(store@, key@) matches Some(snap)
            && final(hub)@ == old(hub)@.push(
                (SubView { topic: topic@, id, queue: seq![snap] }),
            )
            && !has_id(old(hub)@, id)),
        r matches Err(e) ==> final(hub)@ == old(hub)@ && (e is NotFound || e is Io),
        r == Err::<u64, CounterError>(CounterError::NotFound) ==> !store@.contains_key(key@),
{
    match store.get(key) {
        Ok(Some(snapshot)) => {
            let id = hub.subscribe(topic, snapshot);
            Ok(id)
        },
        Ok(None) => Err(CounterError::NotFound),
        Err(_) => Err(CounterError::Io),
    }
}

} // verus!
