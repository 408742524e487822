//! The storage capability: the minimal ordered byte-store interface that all
//! higher layers build on. A store is modelled as an association list of
//! (raw key, value) pairs kept strictly sorted by the lexicographic key
//! order; `get`/`set`/`remove`/`scan` are specified against that model.

use vstd::prelude::*;
use crate::bytes::{lex_lt, in_range, lemma_lex_connex, lemma_lex_irrefl};
use crate::bound::Order;

verus! {

/// The abstract contents of a store: raw keys with their values, sorted.
pub type Entries = Seq<(Seq<u8>, Seq<u8>)>;

/// Keys strictly ascending: sorted and free of duplicates.
pub open spec fn entries_sorted(s: Entries) -> bool {
    forall|i: int, j: int| 0 <= i < j < s.len() ==> lex_lt(#[trigger] s[i].0, #[trigger] s[j].0)
}

/// First value stored under `k`, if any.
pub open spec fn lookup(s: Entries, k: Seq<u8>) -> Option<Seq<u8>>
    decreases s.len(),
{
    if s.len() == 0 {
        None
    } else if s[0].0 == k {
        Some(s[0].1)
    } else {
        lookup(s.skip(1), k)
    }
}

/// Insertion into the sorted model: replaces the value when the key is
/// present, splices the pair in at its ordered position otherwise.
pub open spec fn sorted_insert(s: Entries, k: Seq<u8>, v: Seq<u8>) -> Entries
    decreases s.len(),
{
    if s.len() == 0 {
        seq![(k, v)]
    } else if lex_lt(k, s[0].0) {
        seq![(k, v)] + s
    } else if k == s[0].0 {
        seq![(k, v)] + s.skip(1)
    } else {
        seq![s[0]] + sorted_insert(s.skip(1), k, v)
    }
}

/// Removal from the model: drops the entry under `k`, if any.
pub open spec fn sorted_remove(s: Entries, k: Seq<u8>) -> Entries
    decreases s.len(),
{
    if s.len() == 0 {
        s
    } else if s[0].0 == k {
        s.skip(1)
    } else {
        seq![s[0]] + sorted_remove(s.skip(1), k)
    }
}

/// The subsequence of entries whose keys lie in the half-open raw range.
pub open spec fn filter_range(s: Entries, min: Option<Seq<u8>>, max: Option<Seq<u8>>) -> Entries
    decreases s.len(),
{
    if s.len() == 0 {
        s
    } else {
        (if in_range(s[0].0, min, max) {
            seq![s[0]]
        } else {
            Seq::empty()
        }) + filter_range(s.skip(1), min, max)
    }
}

/// A sequence in reverse order.
pub open spec fn rev<T>(s: Seq<T>) -> Seq<T>
    decreases s.len(),
{
    if s.len() == 0 {
        s
    } else {
        seq![s.last()] + rev(s.drop_last())
    }
}

/// Some entry of `s` has raw key `x`.
pub open spec fn has_key(s: Entries, x: Seq<u8>) -> bool {
    exists|m: int| 0 <= m < s.len() && (#[trigger] s[m]).0 == x
}

/// The entry views of an executable pair vector.
pub open spec fn pair_views(s: Seq<(Vec<u8>, Vec<u8>)>) -> Entries {
    s.map_values(|p: (Vec<u8>, Vec<u8>)| (p.0@, p.1@))
}

pub open spec fn opt_view(o: Option<&Vec<u8>>) -> Option<Seq<u8>> {
    match o {
        Some(v) => Some(v@),
        None => None,
    }
}

/// What a scan returns: exactly the in-range entries of the model, in
/// ascending key order, or that sequence reversed.
pub open spec fn scan_post(
    model: Entries,
    min: Option<Seq<u8>>,
    max: Option<Seq<u8>>,
    order: Order,
    r: Seq<(Vec<u8>, Vec<u8>)>,
) -> bool {
    match order {
        Order::Ascending => pair_views(r) == filter_range(model, min, max),
        Order::Descending => pair_views(r) == rev(filter_range(model, min, max)),
    }
}

/// The minimal ordered byte-store interface. State-reading and state-changing
/// operations are specified against the sorted association-list model given
/// by `view`; `wf` is the implementation's own invariant, which every
/// operation preserves and which keeps the model sorted.
pub trait Storage: Sized {
    spec fn view(&self) -> Entries;

    spec fn wf(&self) -> bool;

    /// A well-formed store has a sorted, duplicate-free model.
    proof fn lemma_wf_sorted(&self)
        requires
            self.wf(),
        ensures
            entries_sorted(self.view()),
    ;

    /// Read the value under a raw key.
    fn get(&self, key: &Vec<u8>) -> (r: Option<Vec<u8>>)
        requires
            self.wf(),
        ensures
            match r {
                Some(v) => lookup(self.view(), key@) == Some(v@),
                None => lookup(self.view(), key@) is None,
            },
    ;

    /// Write a value under a raw key, overwriting unconditionally.
    fn set(&mut self, key: &Vec<u8>, value: &Vec<u8>)
        requires
            old(self).wf(),
        ensures
            final(self).wf(),
            final(self).view() == sorted_insert(old(self).view(), key@, value@),
    ;

    /// Delete the entry under a raw key; a no-op when absent.
    fn remove(&mut self, key: &Vec<u8>)
        requires
            old(self).wf(),
        ensures
            final(self).wf(),
            final(self).view() == sorted_remove(old(self).view(), key@),
    ;

    /// Enumerate the entries whose keys lie in `[min, max)` — `min`
    /// inclusive, `max` exclusive, a missing bound meaning unbounded — in
    /// ascending or descending key order.
    fn scan(&self, min: Option<&Vec<u8>>, max: Option<&Vec<u8>>, order: Order) -> (r: Vec<
        (Vec<u8>, Vec<u8>),
    >)
        requires
            self.wf(),
        ensures
            scan_post(self.view(), opt_view(min), opt_view(max), order, r@),
    ;
}

// ---------------------------------------------------------------------------
// Algebra of the sorted association-list model.
// ---------------------------------------------------------------------------

/// Insertion keeps the model sorted.
pub proof fn lemma_sorted_insert_sorted(s: Entries, k: Seq<u8>, v: Seq<u8>)
    requires
        entries_sorted(s),
    ensures
        entries_sorted(sorted_insert(s, k, v)),
    decreases s.len(),
{
    if s.len() == 0 {
    } else if lex_lt(k, s[0].0) {
        let t = seq![(k, v)] + s;
        assert forall|i: int, j: int| 0 <= i < j < t.len() implies lex_lt(t[i].0, t[j].0) by {
            if i == 0 && j > 1 {
                crate::bytes::lemma_lex_trans(k, s[0].0, s[j - 1].0);
            }
        }
    } else if k == s[0].0 {
        let t = seq![(k, v)] + s.skip(1);
        assert(entries_sorted(s.skip(1)));
        assert forall|i: int, j: int| 0 <= i < j < t.len() implies lex_lt(t[i].0, t[j].0) by {
            if i == 0 {
                assert(t[j].0 == s[j].0);
            } else {
                assert(t[i].0 == s[i].0 && t[j].0 == s[j].0);
            }
        }
    } else {
        lemma_lex_connex(k, s[0].0);
        assert(entries_sorted(s.skip(1)));
        lemma_sorted_insert_sorted(s.skip(1), k, v);
        let u = sorted_insert(s.skip(1), k, v);
        let t = seq![s[0]] + u;
        lemma_sorted_insert_keys(s.skip(1), k, v);
        assert forall|i: int, j: int| 0 <= i < j < t.len() implies lex_lt(t[i].0, t[j].0) by {
            if i == 0 {
                // every key of u is a key of s.skip(1) or k, all above s[0].0
                assert(u[j - 1].0 == k || has_key(s.skip(1), u[j - 1].0));
                if u[j - 1].0 != k {
                    let m = choose|m: int|
                        0 <= m < s.skip(1).len() && (#[trigger] s.skip(1)[m]).0 == u[j - 1].0;
                    assert((s[m + 1]).0 == u[j - 1].0);
                }
            }
        }
    }
}

/// Every key of the inserted model is `k` or a key of the original.
pub proof fn lemma_sorted_insert_keys(s: Entries, k: Seq<u8>, v: Seq<u8>)
    ensures
        forall|j: int|
            0 <= j < sorted_insert(s, k, v).len() ==> ((#[trigger] sorted_insert(s, k, v)[j]).0
                == k || has_key(s, sorted_insert(s, k, v)[j].0)),
    decreases s.len(),
{
    if s.len() == 0 {
    } else if lex_lt(k, s[0].0) {
        let t = seq![(k, v)] + s;
        assert forall|j: int| 0 <= j < t.len() implies (t[j].0 == k || has_key(s, t[j].0)) by {
            if j > 0 {
                assert((s[j - 1]).0 == t[j].0);
            }
        }
    } else if k == s[0].0 {
        let t = seq![(k, v)] + s.skip(1);
        assert forall|j: int| 0 <= j < t.len() implies (t[j].0 == k || has_key(s, t[j].0)) by {
            if j > 0 {
                assert((s[j]).0 == t[j].0);
            }
        }
    } else {
        lemma_sorted_insert_keys(s.skip(1), k, v);
        let u = sorted_insert(s.skip(1), k, v);
        let t = seq![s[0]] + u;
        assert forall|j: int| 0 <= j < t.len() implies (t[j].0 == k || has_key(s, t[j].0)) by {
            if j == 0 {
                assert((s[0]).0 == t[0].0);
            } else {
                assert(t[j].0 == u[j - 1].0);
                if u[j - 1].0 != k {
                    assert(has_key(s.skip(1), u[j - 1].0));
                    let m = choose|m: int|
                        0 <= m < s.skip(1).len() && (#[trigger] s.skip(1)[m]).0 == u[j - 1].0;
                    assert((s[m + 1]).0 == u[j - 1].0);
                }
            }
        }
    }
}

/// Reading after writing: the written key returns the new value, every other
/// key is untouched.
pub proof fn lemma_lookup_insert(s: Entries, k: Seq<u8>, v: Seq<u8>, q: Seq<u8>)
    ensures
        lookup(sorted_insert(s, k, v), q) == if q == k {
            Some(v)
        } else {
            lookup(s, q)
        },
    decreases s.len(),
{
    let t = sorted_insert(s, k, v);
    if s.len() == 0 {
        assert(t == seq![(k, v)]);
        assert(t[0] == (k, v));
        assert(t.skip(1) =~= Seq::<(Seq<u8>, Seq<u8>)>::empty());
        assert(lookup(t.skip(1), q) is None);
    } else if lex_lt(k, s[0].0) {
        assert(t == seq![(k, v)] + s);
        assert(t[0] == (k, v));
        assert(t.skip(1) =~= s);
    } else if k == s[0].0 {
        assert(t == seq![(k, v)] + s.skip(1));
        assert(t[0] == (k, v));
        assert(t.skip(1) =~= s.skip(1));
    } else {
        lemma_lex_connex(k, s[0].0);
        assert(t == seq![s[0]] + sorted_insert(s.skip(1), k, v));
        assert(t.skip(1) =~= sorted_insert(s.skip(1), k, v));
        assert(t[0] == s[0]);
        lemma_lookup_insert(s.skip(1), k, v, q);
    }
}

/// Reading after deleting: the deleted key is gone, every other key is
/// untouched. Needs sortedness so that the key cannot occur twice.
pub proof fn lemma_lookup_remove(s: Entries, k: Seq<u8>, q: Seq<u8>)
    requires
        entries_sorted(s),
    ensures
        lookup(sorted_remove(s, k), q) == if q == k {
            None::<Seq<u8>>
        } else {
            lookup(s, q)
        },
    decreases s.len(),
{
    let t = sorted_remove(s, k);
    if s.len() == 0 {
    } else if s[0].0 == k {
        if q == k {
            assert forall|i: int| 0 <= i < s.skip(1).len() implies lex_lt(
                s[0].0,
                #[trigger] s.skip(1)[i].0,
            ) by {
                assert(s.skip(1)[i] == s[i + 1]);
            }
            lemma_lex_irrefl(q);
            lemma_sorted_lookup_absent(s.skip(1), q, s[0].0);
        }
    } else {
        assert(t.skip(1) =~= sorted_remove(s.skip(1), k));
        assert(t[0] == s[0]);
        assert(entries_sorted(s.skip(1)));
        lemma_lookup_remove(s.skip(1), k, q);
    }
}

/// In a sorted model whose keys all exceed `lo`, a key at or below `lo` is
/// absent.
pub proof fn lemma_sorted_lookup_absent(s: Entries, q: Seq<u8>, lo: Seq<u8>)
    requires
        forall|i: int| 0 <= i < s.len() ==> lex_lt(lo, #[trigger] s[i].0),
        !lex_lt(lo, q),
    ensures
        lookup(s, q) is None,
    decreases s.len(),
{
    if s.len() > 0 {
        if s[0].0 == q {
            assert(lex_lt(lo, q));
        }
        lemma_sorted_lookup_absent(s.skip(1), q, lo);
    }
}

/// Removal keeps the model sorted.
pub proof fn lemma_sorted_remove_sorted(s: Entries, k: Seq<u8>)
    requires
        entries_sorted(s),
    ensures
        entries_sorted(sorted_remove(s, k)),
    decreases s.len(),
{
    if s.len() == 0 {
    } else if s[0].0 == k {
        assert(entries_sorted(s.skip(1)));
    } else {
        assert(entries_sorted(s.skip(1)));
        lemma_sorted_remove_sorted(s.skip(1), k);
        lemma_sorted_remove_keys(s.skip(1), k);
        let u = sorted_remove(s.skip(1), k);
        let t = seq![s[0]] + u;
        assert forall|i: int, j: int| 0 <= i < j < t.len() implies lex_lt(t[i].0, t[j].0) by {
            if i == 0 {
                assert(has_key(s.skip(1), u[j - 1].0));
                let m = choose|m: int|
                    0 <= m < s.skip(1).len() && (#[trigger] s.skip(1)[m]).0 == u[j - 1].0;
                assert((s[m + 1]).0 == u[j - 1].0);
            }
        }
    }
}

/// Every key of the pruned model is a key of the original.
pub proof fn lemma_sorted_remove_keys(s: Entries, k: Seq<u8>)
    ensures
        forall|j: int|
            0 <= j < sorted_remove(s, k).len() ==> has_key(
                s,
                (#[trigger] sorted_remove(s, k)[j]).0,
            ),
    decreases s.len(),
{
    let t = sorted_remove(s, k);
    if s.len() == 0 {
    } else if s[0].0 == k {
        assert forall|j: int| 0 <= j < t.len() implies has_key(s, t[j].0) by {
            assert((s[j + 1]).0 == t[j].0);
        }
    } else {
        lemma_sorted_remove_keys(s.skip(1), k);
        let u = sorted_remove(s.skip(1), k);
        assert forall|j: int| 0 <= j < t.len() implies has_key(s, t[j].0) by {
            if j == 0 {
                assert((s[0]).0 == t[0].0);
            } else {
                assert(t[j].0 == u[j - 1].0);
                assert(has_key(s.skip(1), u[j - 1].0));
                let m = choose|m: int|
                    0 <= m < s.skip(1).len() && (#[trigger] s.skip(1)[m]).0 == u[j - 1].0;
                assert((s[m + 1]).0 == u[j - 1].0);
            }
        }
    }
}

/// Filtering a one-longer model appends at most the new entry.
pub proof fn lemma_filter_range_snoc(
    s: Entries,
    e: (Seq<u8>, Seq<u8>),
    min: Option<Seq<u8>>,
    max: Option<Seq<u8>>,
)
    ensures
        filter_range(s.push(e), min, max) == filter_range(s, min, max) + (if in_range(
            e.0,
            min,
            max,
        ) {
            seq![e]
        } else {
            Seq::empty()
        }),
    decreases s.len(),
{
    if s.len() == 0 {
        assert(s.push(e).skip(1) =~= Seq::<(Seq<u8>, Seq<u8>)>::empty());
        assert(s.push(e)[0] == e);
        assert(filter_range(Seq::<(Seq<u8>, Seq<u8>)>::empty(), min, max) =~= Seq::<
            (Seq<u8>, Seq<u8>),
        >::empty());
        assert(filter_range(s.push(e), min, max) =~= filter_range(s, min, max) + (if in_range(
            e.0,
            min,
            max,
        ) {
            seq![e]
        } else {
            Seq::empty()
        }));
    } else {
        assert(s.push(e)[0] == s[0]);
        assert(s.push(e).skip(1) =~= s.skip(1).push(e));
        lemma_filter_range_snoc(s.skip(1), e, min, max);
        assert(filter_range(s.push(e), min, max) =~= filter_range(s, min, max) + (if in_range(
            e.0,
            min,
            max,
        ) {
            seq![e]
        } else {
            Seq::empty()
        }));
    }
}

/// Where the insertion lands: at the first position `i` whose key is not
/// below `k` — replacing when the key matches, splicing in otherwise.
pub proof fn lemma_sorted_insert_at(s: Entries, k: Seq<u8>, v: Seq<u8>, i: int)
    requires
        entries_sorted(s),
        0 <= i <= s.len(),
        forall|j: int| 0 <= j < i ==> lex_lt((#[trigger] s[j]).0, k),
        i < s.len() ==> !lex_lt(s[i].0, k),
    ensures
        sorted_insert(s, k, v) == if i < s.len() && s[i].0 == k {
            s.update(i, (k, v))
        } else {
            s.insert(i, (k, v))
        },
    decreases i,
{
    if i == 0 {
        if s.len() == 0 {
            assert(sorted_insert(s, k, v) =~= s.insert(0, (k, v)));
        } else if s[0].0 == k {
            crate::bytes::lemma_lex_irrefl(k);
            assert(sorted_insert(s, k, v) =~= s.update(0, (k, v)));
        } else {
            lemma_lex_connex(k, s[0].0);
            assert(sorted_insert(s, k, v) =~= s.insert(0, (k, v)));
        }
    } else {
        assert(lex_lt(s[0].0, k));
        crate::bytes::lemma_lex_asym(s[0].0, k);
        lemma_lex_irrefl(k);
        assert(entries_sorted(s.skip(1)));
        assert(forall|j: int| 0 <= j < i - 1 ==> lex_lt((#[trigger] s.skip(1)[j]).0, k));
        lemma_sorted_insert_at(s.skip(1), k, v, i - 1);
        if i < s.len() && s[i].0 == k {
            assert(sorted_insert(s, k, v) =~= s.update(i, (k, v)));
        } else {
            assert(sorted_insert(s, k, v) =~= s.insert(i, (k, v)));
        }
    }
}

/// Where the removal lands: dropping the matching entry at position `i`.
pub proof fn lemma_sorted_remove_at(s: Entries, k: Seq<u8>, i: int)
    requires
        0 <= i < s.len(),
        s[i].0 == k,
        forall|j: int| 0 <= j < i ==> (#[trigger] s[j]).0 != k,
    ensures
        sorted_remove(s, k) == s.remove(i),
    decreases i,
{
    if i == 0 {
        assert(sorted_remove(s, k) =~= s.remove(0));
    } else {
        assert(forall|j: int| 0 <= j < i - 1 ==> (#[trigger] s.skip(1)[j]).0 != k);
        assert(s.skip(1)[i - 1].0 == k);
        lemma_sorted_remove_at(s.skip(1), k, i - 1);
        assert(sorted_remove(s, k) =~= s.remove(i));
    }
}

/// Removing an absent key changes nothing.
pub proof fn lemma_sorted_remove_absent(s: Entries, k: Seq<u8>)
    requires
        forall|j: int| 0 <= j < s.len() ==> (#[trigger] s[j]).0 != k,
    ensures
        sorted_remove(s, k) == s,
    decreases s.len(),
{
    if s.len() > 0 {
        assert(forall|j: int| 0 <= j < s.skip(1).len() ==> (#[trigger] s.skip(1)[j]).0 != k);
        lemma_sorted_remove_absent(s.skip(1), k);
        assert(sorted_remove(s, k) =~= s);
    }
}

/// Lookup scans positionally: stepping over a non-matching head.
pub proof fn lemma_lookup_skip(s: Entries, k: Seq<u8>, i: int)
    requires
        0 <= i < s.len(),
        s[i].0 != k,
    ensures
        lookup(s.skip(i), k) == lookup(s.skip(i + 1), k),
{
    assert(s.skip(i)[0] == s[i]);
    assert(s.skip(i).skip(1) =~= s.skip(i + 1));
}

/// Every entry the range filter keeps lies in the range.
pub proof fn lemma_filter_range_in(s: Entries, min: Option<Seq<u8>>, max: Option<Seq<u8>>)
    ensures
        forall|i: int|
            0 <= i < filter_range(s, min, max).len() ==> in_range(
                (#[trigger] filter_range(s, min, max)[i]).0,
                min,
                max,
            ),
    decreases s.len(),
{
    if s.len() > 0 {
        lemma_filter_range_in(s.skip(1), min, max);
        let t = filter_range(s, min, max);
        let u = filter_range(s.skip(1), min, max);
        assert forall|i: int| 0 <= i < t.len() implies in_range(t[i].0, min, max) by {
            if in_range(s[0].0, min, max) {
                if i > 0 {
                    assert(t[i] == u[i - 1]);
                }
            } else {
                assert(t[i] == u[i]);
            }
        }
    }
}

/// Length and elementwise characterisation of reversal.
pub proof fn lemma_rev_props<T>(s: Seq<T>)
    ensures
        rev(s).len() == s.len(),
        forall|i: int| 0 <= i < s.len() ==> #[trigger] rev(s)[i] == s[s.len() - 1 - i],
    decreases s.len(),
{
    if s.len() > 0 {
        lemma_rev_props(s.drop_last());
        assert forall|i: int| 0 <= i < s.len() implies rev(s)[i] == s[s.len() - 1 - i] by {
            if i > 0 {
                assert(rev(s)[i] == rev(s.drop_last())[i - 1]);
                assert(s.drop_last()[s.len() - 1 - i] == s[s.len() - 1 - i]);
            }
        }
    }
}

/// Reversal distributes over concatenation, exchanging the sides.
pub proof fn lemma_rev_concat<T>(a: Seq<T>, b: Seq<T>)
    ensures
        rev(a + b) == rev(b) + rev(a),
    decreases b.len(),
{
    if b.len() == 0 {
        assert(a + b =~= a);
        assert(rev(b) + rev(a) =~= rev(a));
    } else {
        assert((a + b).drop_last() =~= a + b.drop_last());
        assert((a + b).last() == b.last());
        lemma_rev_concat(a, b.drop_last());
        assert(rev(a + b) =~= rev(b) + rev(a));
    }
}

} // verus!
