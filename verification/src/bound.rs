//! Bound resolution: turning logical inclusive/exclusive key bounds plus a
//! namespace prefix into the half-open raw byte range consumed by the scan
//! primitive (whose `min` is inclusive and `max` exclusive).

use vstd::prelude::*;
use crate::bytes::{
    lex_lt, in_range, is_prefix, next_prefix, lemma_lex_concat, lemma_lex_irrefl, lemma_lex_asym,
    lemma_lex_lt_le_trans, lemma_adjacent, lemma_prefix_not_lt, lemma_strict_prefix_lt,
    lemma_prefix_below_next,
};
use crate::keys::StoreKey;

verus! {

/// A logical bound on typed keys, inclusive or exclusive of the named key.
pub enum Bound<K> {
    Inclusive(K),
    Exclusive(K),
}

/// Iteration order of a range scan.
#[derive(Clone, Copy, PartialEq, Eq, Structural, Debug)]
pub enum Order {
    Ascending,
    Descending,
}

/// The raw inclusive lower bound: the prefix itself when unbounded, the
/// prefixed encoding when inclusive, its immediate successor when exclusive.
pub open spec fn resolve_min_spec<K: StoreKey>(prefix: Seq<u8>, min: Option<Bound<K>>) -> Seq<u8> {
    match min {
        None => prefix,
        Some(Bound::Inclusive(k)) => prefix + k.spec_encode(),
        Some(Bound::Exclusive(k)) => (prefix + k.spec_encode()).push(0),
    }
}

/// The raw exclusive upper bound: the prefix's next prefix when unbounded
/// (`None` when no such string exists, leaving the scan open above), the
/// immediate successor of the prefixed encoding when inclusive, the prefixed
/// encoding itself when exclusive.
pub open spec fn resolve_max_spec<K: StoreKey>(prefix: Seq<u8>, max: Option<Bound<K>>) -> Option<
    Seq<u8>,
> {
    match max {
        None => next_prefix(prefix),
        Some(Bound::Inclusive(k)) => Some((prefix + k.spec_encode()).push(0)),
        Some(Bound::Exclusive(k)) => Some(prefix + k.spec_encode()),
    }
}

/// `k` is at or above the logical lower bound.
pub open spec fn above_lower<K: StoreKey>(k: K, min: Option<Bound<K>>) -> bool {
    match min {
        None => true,
        Some(Bound::Inclusive(m)) => !k.key_lt(m),
        Some(Bound::Exclusive(m)) => m.key_lt(k),
    }
}

/// `k` is below the logical upper bound.
pub open spec fn below_upper<K: StoreKey>(k: K, max: Option<Bound<K>>) -> bool {
    match max {
        None => true,
        Some(Bound::Inclusive(m)) => !m.key_lt(k),
        Some(Bound::Exclusive(m)) => k.key_lt(m),
    }
}

/// Both logical bounds hold.
pub open spec fn bound_ok<K: StoreKey>(k: K, min: Option<Bound<K>>, max: Option<Bound<K>>) -> bool {
    above_lower(k, min) && below_upper(k, max)
}

/// The natural key order and the lexicographic order of the encodings agree;
/// a consequence of the key-type laws.
pub proof fn lemma_key_lex_iff<K: StoreKey>(a: K, b: K)
    ensures
        a.key_lt(b) == lex_lt(a.spec_encode(), b.spec_encode()),
{
    if a.key_lt(b) {
        K::lemma_order(a, b);
    } else {
        K::lemma_connex(a, b);
        if b.key_lt(a) {
            K::lemma_order(b, a);
            lemma_lex_asym(b.spec_encode(), a.spec_encode());
        } else {
            lemma_lex_irrefl(a.spec_encode());
        }
    }
}

/// `t` at or above the immediate successor of `s` is exactly `t` strictly
/// above `s`.
pub proof fn lemma_succ_iff(s: Seq<u8>, t: Seq<u8>)
    ensures
        (!lex_lt(t, s.push(0))) == lex_lt(s, t),
{
    if lex_lt(s, t) {
        lemma_adjacent(s, t);
    }
    if !lex_lt(t, s.push(0)) && !lex_lt(s, t) {
        assert(is_prefix(s, s.push(0))) by {
            assert(s.push(0).subrange(0, s.len() as int) =~= s);
        }
        lemma_strict_prefix_lt(s, s.push(0));
        // t >= s.push(0) > s would force s < t.
        lemma_lex_lt_le_trans(s, s.push(0), t);
    }
}

/// Correctness of bound resolution: a prefixed encoded key lies in the
/// resolved raw range exactly when the key satisfies the logical bounds.
pub proof fn lemma_resolution_correct<K: StoreKey>(
    prefix: Seq<u8>,
    min: Option<Bound<K>>,
    max: Option<Bound<K>>,
    k: K,
)
    ensures
        in_range(
            prefix + k.spec_encode(),
            Some(resolve_min_spec(prefix, min)),
            resolve_max_spec(prefix, max),
        ) == bound_ok(k, min, max),
{
    let e = k.spec_encode();
    let raw = prefix + e;
    assert(is_prefix(prefix, raw)) by {
        assert(raw.subrange(0, prefix.len() as int) =~= prefix);
    }
    // Lower bound.
    match min {
        None => {
            lemma_prefix_not_lt(prefix, raw);
        },
        Some(Bound::Inclusive(m)) => {
            lemma_lex_concat(prefix, e, m.spec_encode());
            lemma_key_lex_iff(k, m);
        },
        Some(Bound::Exclusive(m)) => {
            lemma_succ_iff(prefix + m.spec_encode(), raw);
            lemma_lex_concat(prefix, m.spec_encode(), e);
            lemma_key_lex_iff(m, k);
        },
    }
    // Upper bound.
    match max {
        None => {
            if next_prefix(prefix) is Some {
                lemma_prefix_below_next(prefix, raw);
            }
        },
        Some(Bound::Inclusive(m)) => {
            lemma_succ_iff(prefix + m.spec_encode(), raw);
            lemma_lex_concat(prefix, m.spec_encode(), e);
            lemma_key_lex_iff(m, k);
        },
        Some(Bound::Exclusive(m)) => {
            lemma_lex_concat(prefix, e, m.spec_encode());
            lemma_key_lex_iff(k, m);
        },
    }
}

/// An empty logical window resolves to an empty raw range: with the same key
/// inclusive below and exclusive above, no raw key is in range.
pub proof fn lemma_empty_window<K: StoreKey>(prefix: Seq<u8>, k: K, raw: Seq<u8>)
    ensures
        !in_range(
            raw,
            Some(resolve_min_spec(prefix, Some(Bound::Inclusive(k)))),
            resolve_max_spec(prefix, Some(Bound::<K>::Exclusive(k))),
        ),
{
    // Both bounds resolve to the same raw string, and no key can be at once
    // at-or-above and strictly below it.
}

/// Order preservation under a fixed namespace prefix: keys ordered by their
/// natural order have their prefixed encodings in the same lexicographic
/// order.
pub proof fn lemma_prefixed_order<K: StoreKey>(prefix: Seq<u8>, k1: K, k2: K)
    requires
        k1.key_lt(k2),
    ensures
        lex_lt(prefix + k1.spec_encode(), prefix + k2.spec_encode()),
{
    K::lemma_order(k1, k2);
    lemma_lex_concat(prefix, k1.spec_encode(), k2.spec_encode());
}

/// Resolves the inclusive raw lower bound.
pub fn resolve_min<K: StoreKey>(prefix: &Vec<u8>, min: &Option<Bound<K>>) -> (r: Vec<u8>)
    ensures
        r@ == resolve_min_spec(prefix@, *min),
{
    match min {
        None => prefix.clone(),
        Some(Bound::Inclusive(k)) => crate::bytes::concat(prefix, &k.encode()),
        Some(Bound::Exclusive(k)) => crate::bytes::extend_one_byte(
            crate::bytes::concat(prefix, &k.encode()),
        ),
    }
}

/// Resolves the exclusive raw upper bound; `None` means unbounded above.
pub fn resolve_max<K: StoreKey>(prefix: &Vec<u8>, max: &Option<Bound<K>>) -> (r: Option<Vec<u8>>)
    ensures
        match r {
            Some(v) => resolve_max_spec(prefix@, *max) == Some(v@),
            None => resolve_max_spec(prefix@, *max) is None,
        },
{
    match max {
        None => crate::bytes::increment_last_byte(prefix.clone()),
        Some(Bound::Inclusive(k)) => Some(
            crate::bytes::extend_one_byte(crate::bytes::concat(prefix, &k.encode())),
        ),
        Some(Bound::Exclusive(k)) => Some(crate::bytes::concat(prefix, &k.encode())),
    }
}

} // verus!
