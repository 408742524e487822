//! The prefixed range view: binds a namespace plus already-bound prefix
//! segments to a key codec and a value codec, and exposes prefix-bounded
//! range scans and bulk clearing over any storage capability.

use vstd::prelude::*;
use core::marker::PhantomData;
use crate::bytes::{
    lex_lt, in_range, is_prefix, lemma_prefix_not_lt, lemma_between_prefix,
    lemma_below_next_prefix, starts_with, trim,
};
use crate::bound::{Bound, Order, resolve_min, resolve_max, resolve_min_spec, resolve_max_spec};
use crate::keys::StoreKey;
use crate::values::ValueCodec;
use crate::store::{
    Storage, Entries, filter_range, rev, pair_views, lemma_filter_range_in, lemma_rev_props,
    lookup, lemma_lookup_remove,
};
use crate::namespace::{nested_namespaces_with_key, nested_key};
use crate::err::StdError;

verus! {

/// The in-range entries of the store, in the order the scan walks them.
pub open spec fn ranged_entries(
    model: Entries,
    min: Option<Seq<u8>>,
    max: Option<Seq<u8>>,
    order: Order,
) -> Entries {
    match order {
        Order::Ascending => filter_range(model, min, max),
        Order::Descending => rev(filter_range(model, min, max)),
    }
}

/// Why a range scan failed to decode: some in-range entry has a raw key no
/// key of the view encodes to under this prefix, or a value no value decodes
/// from. Kept opaque so that callers carry it as one fact.
#[verifier::opaque]
pub open spec fn range_err_witness<K: StoreKey, T: ValueCodec>(prefix: Seq<u8>, flt: Entries) -> bool {
    exists|i: int|
        0 <= i < flt.len() && ((forall|k: K| prefix + k.spec_encode() != (#[trigger] flt[i]).0)
            || (forall|t: T| t.to_bytes_spec() != flt[i].1))
}

/// A raw key in the resolved range necessarily starts with the prefix the
/// range was resolved against.
pub proof fn lemma_in_range_has_prefix<K: StoreKey>(
    prefix: Seq<u8>,
    min: Option<Bound<K>>,
    max: Option<Bound<K>>,
    k: Seq<u8>,
)
    requires
        in_range(k, Some(resolve_min_spec(prefix, min)), resolve_max_spec(prefix, max)),
    ensures
        is_prefix(prefix, k),
{
    let lo = resolve_min_spec(prefix, min);
    // `prefix <= lo <= k` in every case of the lower bound.
    assert(!lex_lt(k, prefix)) by {
        match min {
            None => {},
            Some(Bound::Inclusive(m)) => {
                let t = prefix + m.spec_encode();
                assert(is_prefix(prefix, t)) by {
                    assert(t.subrange(0, prefix.len() as int) =~= prefix);
                }
                lemma_prefix_not_lt(prefix, t);
                if lex_lt(k, prefix) {
                    crate::bytes::lemma_lex_lt_le_trans(k, prefix, t);
                }
            },
            Some(Bound::Exclusive(m)) => {
                let t = (prefix + m.spec_encode()).push(0);
                assert(is_prefix(prefix, t)) by {
                    assert(t.subrange(0, prefix.len() as int) =~= prefix);
                }
                lemma_prefix_not_lt(prefix, t);
                if lex_lt(k, prefix) {
                    crate::bytes::lemma_lex_lt_le_trans(k, prefix, t);
                }
            },
        }
    }
    match max {
        None => {
            lemma_below_next_prefix(prefix, k);
        },
        Some(Bound::Inclusive(m)) => {
            assert((prefix + m.spec_encode()).push(0) =~= prefix + m.spec_encode().push(0));
            lemma_between_prefix(prefix, m.spec_encode().push(0), k);
        },
        Some(Bound::Exclusive(m)) => {
            lemma_between_prefix(prefix, m.spec_encode(), k);
        },
    }
}

/// A stateless prefixed view over a storage capability: namespace bytes bound
/// to a key codec `K` and a value codec `T`. It owns no data of its own.
pub struct Prefix<K, T> {
    prefix: Vec<u8>,
    _suffix_type: PhantomData<K>,
    _data_type: PhantomData<T>,
}

impl<K: StoreKey, T: ValueCodec> Prefix<K, T> {
    /// The raw namespace bytes every key of this view starts with.
    pub closed spec fn prefix_spec(&self) -> Seq<u8> {
        self.prefix@
    }

    /// Binds `namespace` plus length-prefixed `prefixes` segments.
    pub fn new(namespace: &Vec<u8>, prefixes: &Vec<Vec<u8>>) -> (r: Self)
        requires
            forall|i: int| 0 <= i < prefixes@.len() ==> #[trigger] prefixes@[i]@.len() <= 0xffff,
        ensures
            r.prefix_spec() == nested_key(
                namespace@,
                prefixes@.map_values(|p: Vec<u8>| p@),
                None,
            ),
    {
        Prefix {
            prefix: nested_namespaces_with_key(namespace, prefixes, None),
            _suffix_type: PhantomData,
            _data_type: PhantomData,
        }
    }

    /// Resolves the logical bounds against the prefix, scans the store, and
    /// decodes each entry: the prefix is stripped from the raw key, the
    /// remainder decoded as `K`, the value as `T`. Succeeds exactly when
    /// every in-range entry decodes; the prefix check itself can never fail
    /// against a storage capability that honours its contract.
    pub fn range<S: Storage>(
        &self,
        store: &S,
        min: &Option<Bound<K>>,
        max: &Option<Bound<K>>,
        order: Order,
    ) -> (r: Result<Vec<(K, T)>, StdError>)
        requires
            store.wf(),
        ensures
            ({
                let flt = ranged_entries(
                    store.view(),
                    Some(resolve_min_spec(self.prefix_spec(), *min)),
                    resolve_max_spec(self.prefix_spec(), *max),
                    order,
                );
                match r {
                    Ok(out) => {
                        &&& out@.len() == flt.len()
                        &&& forall|i: int|
                            0 <= i < flt.len() ==> self.prefix_spec() + (
                            #[trigger] out@[i]).0.spec_encode() == flt[i].0 && out@[i].1.to_bytes_spec()
                                == flt[i].1
                    },
                    Err(e) => e is Encoding && range_err_witness::<K, T>(
                        self.prefix_spec(),
                        flt,
                    ),
                }
            }),
    {
        let lo = resolve_min(&self.prefix, min);
        let hi = resolve_max(&self.prefix, max);
        let hi_ref: Option<&Vec<u8>> = hi.as_ref();
        let raw = store.scan(Some(&lo), hi_ref, order);
        let ghost mn = Some(lo@);
        let ghost mx = resolve_max_spec(self.prefix_spec(), *max);
        let ghost flt = ranged_entries(store.view(), mn, mx, order);
        proof {
            assert(crate::store::opt_view(hi_ref) == mx);
            lemma_filter_range_in(store.view(), mn, mx);
            lemma_rev_props(filter_range(store.view(), mn, mx));
            assert(forall|i: int| 0 <= i < flt.len() ==> in_range((#[trigger] flt[i]).0, mn, mx));
        }
        let mut out: Vec<(K, T)> = Vec::new();
        let mut i: usize = 0;
        while i < raw.len()
            invariant
                flt == ranged_entries(store.view(), mn, mx, order),
                pair_views(raw@) == flt,
                out@.len() == i <= raw@.len(),
                forall|j: int| 0 <= j < flt.len() ==> in_range((#[trigger] flt[j]).0, mn, mx),
                mn == Some(resolve_min_spec(self.prefix_spec(), *min)),
                mx == resolve_max_spec(self.prefix_spec(), *max),
                forall|j: int|
                    0 <= j < i ==> self.prefix_spec() + (#[trigger] out@[j]).0.spec_encode()
                        == flt[j].0 && out@[j].1.to_bytes_spec() == flt[j].1,
            decreases raw@.len() - i,
        {
            proof {
                assert(flt[i as int] == (raw@[i as int].0@, raw@[i as int].1@));
                lemma_in_range_has_prefix(self.prefix_spec(), *min, *max, flt[i as int].0);
            }
            // Defensive consistency check: a scanned key must carry the
            // expected prefix. Proved unreachable for contract-abiding
            // stores, kept as the always-on internal fault.
            if !starts_with(&raw[i].0, &self.prefix) {
                return Err(StdError::PrefixMismatch);
            }
            let suffix = trim(&raw[i].0, self.prefix.len());
            proof {
                assert(self.prefix_spec() + suffix@ =~= flt[i as int].0);
            }
            let key = match K::decode(&suffix) {
                Ok(k) => k,
                Err(_) => {
                    proof {
                        assert forall|k: K|
                            self.prefix_spec() + k.spec_encode() != flt[i as int].0 by {
                            if self.prefix_spec() + k.spec_encode() == flt[i as int].0 {
                                assert((self.prefix_spec() + k.spec_encode()).skip(
                                    self.prefix_spec().len() as int,
                                ) =~= k.spec_encode());
                                assert(k.spec_encode() == suffix@);
                            }
                        }
                        assert(0 <= i < flt.len() && (forall|k: K|
                            self.prefix_spec() + k.spec_encode() != (#[trigger] flt[i as int]).0));
                        reveal(range_err_witness);
                        assert(range_err_witness::<K, T>(self.prefix_spec(), flt));
                    }
                    return Err(StdError::Encoding);
                },
            };
            let value = match T::from_bytes(&raw[i].1) {
                Ok(v) => v,
                Err(_) => {
                    proof {
                        assert(raw@[i as int].1@ == flt[i as int].1);
                        assert(0 <= i < flt.len() && (forall|t: T|
                            t.to_bytes_spec() != (#[trigger] flt[i as int]).1));
                        reveal(range_err_witness);
                        assert(range_err_witness::<K, T>(self.prefix_spec(), flt));
                    }
                    return Err(StdError::Encoding);
                },
            };
            out.push((key, value));
            i = i + 1;
        }
        Ok(out)
    }

    /// Deletes every entry under the prefix — bounded by `limit` when given,
    /// walking in ascending key order. A no-op when nothing matches.
    pub fn clear<S: Storage>(&self, store: &mut S, limit: Option<usize>) -> (n: usize)
        requires
            old(store).wf(),
        ensures
            final(store).wf(),
            ({
                let flt = filter_range(
                    old(store).view(),
                    Some(resolve_min_spec::<K>(self.prefix_spec(), None)),
                    resolve_max_spec::<K>(self.prefix_spec(), None),
                );
                &&& n == if limit is Some && limit->Some_0 < flt.len() {
                    limit->Some_0 as int
                } else {
                    flt.len() as int
                }
                &&& forall|q: Seq<u8>|
                    lookup(final(store).view(), q) == if exists|j: int|
                        0 <= j < n && (#[trigger] flt[j]).0 == q {
                        None::<Seq<u8>>
                    } else {
                        lookup(old(store).view(), q)
                    }
            }),
    {
        let none_min: Option<Bound<K>> = None;
        let none_max: Option<Bound<K>> = None;
        let lo = resolve_min(&self.prefix, &none_min);
        let hi = resolve_max(&self.prefix, &none_max);
        let hi_ref: Option<&Vec<u8>> = hi.as_ref();
        let raw = store.scan(Some(&lo), hi_ref, Order::Ascending);
        let ghost orig = store.view();
        let ghost flt = filter_range(
            orig,
            Some(resolve_min_spec::<K>(self.prefix_spec(), None)),
            resolve_max_spec::<K>(self.prefix_spec(), None),
        );
        let stop = match limit {
            Some(l) => {
                if l < raw.len() {
                    l
                } else {
                    raw.len()
                }
            },
            None => raw.len(),
        };
        let mut i: usize = 0;
        while i < stop
            invariant
                pair_views(raw@) == flt,
                stop <= raw@.len(),
                i <= stop,
                store.wf(),
                forall|q: Seq<u8>|
                    lookup(store.view(), q) == if exists|j: int|
                        0 <= j < i && (#[trigger] flt[j]).0 == q {
                        None::<Seq<u8>>
                    } else {
                        lookup(orig, q)
                    },
            decreases stop - i,
        {
            let ghost pre = store.view();
            proof {
                store.lemma_wf_sorted();
            }
            store.remove(&raw[i].0);
            proof {
                assert(flt[i as int].0 == raw@[i as int].0@);
                assert forall|q: Seq<u8>|
                    lookup(store.view(), q) == if exists|j: int|
                        0 <= j < i + 1 && (#[trigger] flt[j]).0 == q {
                        None::<Seq<u8>>
                    } else {
                        lookup(orig, q)
                    } by {
                    lemma_lookup_remove(pre, raw@[i as int].0@, q);
                    if q == flt[i as int].0 {
                        assert(exists|j: int| 0 <= j < i + 1 && (#[trigger] flt[j]).0 == q);
                    }
                }
            }
            i = i + 1;
        }
        i
    }
}

} // verus!
