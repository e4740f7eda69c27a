//! The durable value store: a specified layer over an embedded key-value
//! engine (`sled`).
//!
//! The store is modelled as a map from key bytes to value bytes. Its sole
//! mutation primitive is an atomic compare-and-swap; `initialize` is the
//! idempotent bootstrap that sets a key only when it is absent, and `flush`
//! is the durability barrier. Durability itself (what survives a crash) is
//! outside the model: `flush` is only required to leave the contents alone
//! and to report failure as an `Io` error.

use vstd::prelude::*;

verus! {

#[verifier::external_type_specification]
#[verifier::external_body]
pub struct ExDb(sled::Db);

#[verifier::external_type_specification]
#[verifier::external_body]
pub struct ExSledError(sled::Error);

/// The key-to-value contents of an open database handle.
pub uninterp spec fn db_map(db: sled::Db) -> Map<Seq<u8>, Seq<u8>>;

/// The value a map holds at a key, or `None` when the key is absent.
pub open spec fn entry_of(m: Map<Seq<u8>, Seq<u8>>, k: Seq<u8>) -> Option<Seq<u8>> {
    if m.contains_key(k) {
        Some(m[k])
    } else {
        None
    }
}

pub open spec fn opt_slice_view(o: Option<&[u8]>) -> Option<Seq<u8>> {
    match o {
        Some(b) => Some(b@),
        None => None,
    }
}

pub open spec fn opt_vec_view(o: Option<Vec<u8>>) -> Option<Seq<u8>> {
    match o {
        Some(b) => Some(b@),
        None => None,
    }
}

/// Relies on sled::Tree::get (reached through `Db`'s deref): a point lookup
/// that returns the stored value, or `Ok(None)` when the key is absent.
#[verifier::external_body]
fn db_get(db: &sled::Db, key: &[u8]) -> (r: Result<Option<Vec<u8>>, sled::Error>)
    ensures
        r matches Ok(v) ==> opt_vec_view(v) == entry_of(db_map(*db), key@),
{
    match db.get(key) {
        Ok(Some(iv)) => Ok(Some(iv.to_vec())),
        Ok(None) => Ok(None),
        Err(e) => Err(e),
    }
}

/// Relies on sled::Tree::compare_and_swap: installs `new` at `key` only if
/// the current value equals `expected` (`None` meaning absent), and
/// otherwise reports the conflict, with the value current at that moment,
/// without mutating. Nothing is stated for the engine's own `Err` case.
#[verifier::external_body]
fn db_compare_and_swap(
    db: &mut sled::Db,
    key: &[u8],
    expected: Option<&[u8]>,
    new: &[u8],
) -> (r: Result<Result<(), Option<Vec<u8>>>, sled::Error>)
    ensures
        r matches Ok(Ok(())) ==> {
            &&& entry_of(db_map(*old(db)), key@) == opt_slice_view(expected)
            &&& db_map(*final(db)) == db_map(*old(db)).insert(key@, new@)
        },
        r matches Ok(Err(current)) ==> {
            &&& db_map(*final(db)) == db_map(*old(db))
            &&& opt_vec_view(current) == entry_of(db_map(*old(db)), key@)
            &&& entry_of(db_map(*old(db)), key@) != opt_slice_view(expected)
        },
{
    match db.compare_and_swap(key, expected, Some(new)) {
        Ok(Ok(())) => Ok(Ok(())),
        Ok(Err(e)) => Ok(Err(match e.current {
            Some(iv) => Some(iv.to_vec()),
            None => None,
        })),
        Err(e) => Err(e),
    }
}

/// Relies on sled::Tree::flush: blocks until prior mutations are durable.
/// It reads the handle only, so the logical contents are unchanged.
#[verifier::external_body]
fn db_flush(db: &sled::Db) -> (r: Result<usize, sled::Error>) {
    db.flush()
}

/// How a store operation fails: a compare-and-swap that lost a race (with
/// the value that was current at that moment), or an engine-level I/O
/// fault.
#[derive(Debug)]
pub enum StoreError {
    Conflict { current: Option<Vec<u8>> },
    Io,
}

/// A durable store of byte values under byte keys, owned exclusively by its
/// holder. Its abstract state is the map of committed entries.
pub struct Store {
    db: sled::Db,
}

impl View for Store {
    type V = Map<Seq<u8>, Seq<u8>>;

    closed spec fn view(&self) -> Map<Seq<u8>, Seq<u8>> {
        db_map(self.db)
    }
}

impl Store {
    /// Wrap an open database handle; the abstract contents are whatever the
    /// handle already holds.
    pub fn new(db: sled::Db) -> (r: Store)
        ensures
            r@ == db_map(db),
    {
        Store { db }
    }

    /// Current committed value for `key`, or `Ok(None)` when absent.
    pub fn get(&self, key: &[u8]) -> (r: Result<Option<Vec<u8>>, StoreError>)
        ensures
            r matches Ok(v) ==> opt_vec_view(v) == entry_of(self@, key@),
            r matches Err(e) ==> e is Io,
    {
        match db_get(&self.db, key) {
            Ok(v) => Ok(v),
            Err(_) => Err(StoreError::Io),
        }
    }

    /// The sole mutation primitive: atomically replace the value at `key`
    /// with `new`, but only if the stored value still equals `expected`
    /// (`None` meaning the key is absent). A lost race leaves the store
    /// unchanged and reports `Conflict` with the value current at that
    /// moment; after an `Io` fault nothing is known of the contents.
    pub fn compare_and_swap(
        &mut self,
        key: &[u8],
        expected: Option<&[u8]>,
        new: &[u8],
    ) -> (r: Result<(), StoreError>)
        ensures
            r matches Ok(()) ==> {
                &&& entry_of(old(self)@, key@) == opt_slice_view(expected)
                &&& final(self)@ == old(self)@.insert(key@, new@)
            },
            r matches Err(e) ==> e matches StoreError::Conflict { current } ==> {
                &&& final(self)@ == old(self)@
                &&& opt_vec_view(current) == entry_of(old(self)@, key@)
                &&& entry_of(old(self)@, key@) != opt_slice_view(expected)
            },
    {
        match db_compare_and_swap(&mut self.db, key, expected, new) {
            Ok(Ok(())) => Ok(()),
            Ok(Err(current)) => Err(StoreError::Conflict { current }),
            Err(_) => Err(StoreError::Io),
        }
    }

    /// Idempotent bootstrap: set `key` to `default` only if it is absent;
    /// an existing value is never overwritten. On success the key is
    /// guaranteed to exist.
    pub fn initialize(&mut self, key: &[u8], default: &[u8]) -> (r: Result<(), StoreError>)
        ensures
            r matches Ok(()) ==> {
                &&& final(self)@ == (if old(self)@.contains_key(key@) {
                    old(self)@
                } else {
                    old(self)@.insert(key@, default@)
                })
                &&& final(self)@.contains_key(key@)
            },
            r matches Err(e) ==> e is Io,
    {
        match self.compare_and_swap(key, None, default) {
            Ok(()) => Ok(()),
            Err(StoreError::Conflict { current: _ }) => Ok(()),
            Err(StoreError::Io) => Err(StoreError::Io),
        }
    }

    /// Durability barrier: returns only once prior committed mutations are
    /// crash-persistent, or reports a retryable `Io` fault. The committed
    /// contents are unchanged either way.
    pub fn flush(&self) -> (r: Result<(), StoreError>)
        ensures
            r matches Err(e) ==> e is Io,
    {
        match db_flush(&self.db) {
            Ok(_) => Ok(()),
            Err(_) => Err(StoreError::Io),
        }
    }
}

} // verus!
