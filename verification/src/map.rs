//! Typed storage views bound to a namespace: `Item`, a single-value cell, and
//! `StoreMap`, a keyed collection. Both delegate to the key and value codecs
//! and a storage capability; they own no data themselves.

use vstd::prelude::*;
use core::marker::PhantomData;
use crate::bound::{Bound, Order};
use crate::keys::StoreKey;
use crate::values::ValueCodec;
use crate::store::{Storage, lookup, sorted_insert, sorted_remove};
use crate::prefix::Prefix;
use crate::err::StdError;

verus! {

/// A single typed value stored at a fixed raw key.
pub struct Item<T> {
    key: Vec<u8>,
    _data_type: PhantomData<T>,
}

impl<T: ValueCodec> Item<T> {
    pub closed spec fn key_spec(&self) -> Seq<u8> {
        self.key@
    }

    pub fn new(key: Vec<u8>) -> (r: Self)
        ensures
            r.key_spec() == key@,
    {
        Item { key, _data_type: PhantomData }
    }

    /// Overwrites the cell unconditionally.
    pub fn save<S: Storage>(&self, store: &mut S, value: &T)
        requires
            old(store).wf(),
        ensures
            final(store).wf(),
            final(store).view() == sorted_insert(
                old(store).view(),
                self.key_spec(),
                value.to_bytes_spec(),
            ),
    {
        let bytes = value.to_bytes();
        store.set(&self.key, &bytes);
    }

    /// Loads the cell: `NotFound` when empty, `Encoding` when the stored
    /// bytes decode as no value.
    pub fn load<S: Storage>(&self, store: &S) -> (r: Result<T, StdError>)
        requires
            store.wf(),
        ensures
            match r {
                Ok(v) => lookup(store.view(), self.key_spec()) == Some(v.to_bytes_spec()),
                Err(e) => match lookup(store.view(), self.key_spec()) {
                    None => e is NotFound,
                    Some(b) => e is Encoding && (forall|v: T| v.to_bytes_spec() != b),
                },
            },
    {
        match store.get(&self.key) {
            Some(bytes) => T::from_bytes(&bytes),
            None => Err(StdError::NotFound),
        }
    }

    /// Deletes the cell; a no-op when empty.
    pub fn remove<S: Storage>(&self, store: &mut S)
        requires
            old(store).wf(),
        ensures
            final(store).wf(),
            final(store).view() == sorted_remove(old(store).view(), self.key_spec()),
    {
        store.remove(&self.key);
    }
}

/// A typed keyed collection under a namespace: each entry lives at
/// `namespace ++ encode(key)`.
pub struct StoreMap<K, T> {
    namespace: Vec<u8>,
    _suffix_type: PhantomData<K>,
    _data_type: PhantomData<T>,
}

impl<K: StoreKey, T: ValueCodec> StoreMap<K, T> {
    pub closed spec fn namespace_spec(&self) -> Seq<u8> {
        self.namespace@
    }

    pub fn new(namespace: Vec<u8>) -> (r: Self)
        ensures
            r.namespace_spec() == namespace@,
    {
        StoreMap { namespace, _suffix_type: PhantomData, _data_type: PhantomData }
    }

    /// The raw key a typed key lives under.
    pub open spec fn raw_key_spec(&self, k: K) -> Seq<u8> {
        self.namespace_spec() + k.spec_encode()
    }

    fn raw_key(&self, key: &K) -> (r: Vec<u8>)
        ensures
            r@ == self.raw_key_spec(*key),
    {
        crate::bytes::concat(&self.namespace, &key.encode())
    }

    /// Writes `value` under `key`, overwriting unconditionally.
    pub fn save<S: Storage>(&self, store: &mut S, key: &K, value: &T)
        requires
            old(store).wf(),
        ensures
            final(store).wf(),
            final(store).view() == sorted_insert(
                old(store).view(),
                self.raw_key_spec(*key),
                value.to_bytes_spec(),
            ),
    {
        let raw = self.raw_key(key);
        let bytes = value.to_bytes();
        store.set(&raw, &bytes);
    }

    /// Reads the value under `key`: `NotFound` when absent, `Encoding` when
    /// the stored bytes decode as no value.
    pub fn load<S: Storage>(&self, store: &S, key: &K) -> (r: Result<T, StdError>)
        requires
            store.wf(),
        ensures
            match r {
                Ok(v) => lookup(store.view(), self.raw_key_spec(*key)) == Some(v.to_bytes_spec()),
                Err(e) => match lookup(store.view(), self.raw_key_spec(*key)) {
                    None => e is NotFound,
                    Some(b) => e is Encoding && (forall|v: T| v.to_bytes_spec() != b),
                },
            },
    {
        let raw = self.raw_key(key);
        match store.get(&raw) {
            Some(bytes) => T::from_bytes(&bytes),
            None => Err(StdError::NotFound),
        }
    }

    /// Deletes the entry under `key`; a no-op when absent.
    pub fn remove<S: Storage>(&self, store: &mut S, key: &K)
        requires
            old(store).wf(),
        ensures
            final(store).wf(),
            final(store).view() == sorted_remove(old(store).view(), self.raw_key_spec(*key)),
    {
        let raw = self.raw_key(key);
        store.remove(&raw);
    }

    /// The prefixed range view over the whole collection.
    pub fn prefix_view(&self) -> (r: Prefix<K, T>)
        ensures
            r.prefix_spec() == self.namespace_spec(),
    {
        let segs: Vec<Vec<u8>> = Vec::new();
        let p = Prefix::new(&self.namespace, &segs);
        proof {
            assert(crate::namespace::segments_bytes(segs@.map_values(|q: Vec<u8>| q@)) =~= Seq::<
                u8,
            >::empty());
            assert(p.prefix_spec() =~= self.namespace_spec());
        }
        p
    }

    /// Range scan over the typed entries of the collection.
    pub fn range<S: Storage>(
        &self,
        store: &S,
        min: &Option<Bound<K>>,
        max: &Option<Bound<K>>,
        order: Order,
    ) -> (r: Result<Vec<(K, T)>, StdError>)
        requires
            store.wf(),
        ensures
            ({
                let flt = crate::prefix::ranged_entries(
                    store.view(),
                    Some(crate::bound::resolve_min_spec(self.namespace_spec(), *min)),
                    crate::bound::resolve_max_spec(self.namespace_spec(), *max),
                    order,
                );
                match r {
                    Ok(out) => {
                        &&& out@.len() == flt.len()
                        &&& forall|i: int|
                            0 <= i < flt.len() ==> self.namespace_spec() + (
                            #[trigger] out@[i]).0.spec_encode() == flt[i].0
                                && out@[i].1.to_bytes_spec() == flt[i].1
                    },
                    Err(e) => e is Encoding && crate::prefix::range_err_witness::<K, T>(
                        self.namespace_spec(),
                        flt,
                    ),
                }
            }),
    {
        let view = self.prefix_view();
        let r = view.range(store, min, max, order);
        proof {
            assert(view.prefix_spec() == self.namespace_spec());
        }
        r
    }
}

} // verus!
