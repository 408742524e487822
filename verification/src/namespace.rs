//! Namespace construction: the outermost namespace is laid down raw, every
//! further prefix segment is length-prefixed (two big-endian bytes), and the
//! final raw key, when present, is appended unprefixed. Length prefixes keep
//! distinct segment lists from running into each other's key space.

use vstd::prelude::*;
use crate::keys::be_bytes;

verus! {

/// A segment preceded by its two-byte big-endian length.
pub open spec fn len_prefixed(seg: Seq<u8>) -> Seq<u8> {
    be_bytes(seg.len(), 2) + seg
}

/// All segments, each length-prefixed, in order.
pub open spec fn segments_bytes(segs: Seq<Seq<u8>>) -> Seq<u8>
    decreases segs.len(),
{
    if segs.len() == 0 {
        Seq::empty()
    } else {
        len_prefixed(segs[0]) + segments_bytes(segs.skip(1))
    }
}

/// The raw bytes addressing `key` under `namespace` and the bound prefix
/// segments.
pub open spec fn nested_key(namespace: Seq<u8>, segs: Seq<Seq<u8>>, key: Option<Seq<u8>>) -> Seq<
    u8,
> {
    namespace + segments_bytes(segs) + match key {
        Some(k) => k,
        None => Seq::empty(),
    }
}

/// Builds the namespaced raw key: namespace, then each prefix segment
/// length-prefixed, then (optionally) the final raw key bytes.
pub fn nested_namespaces_with_key(
    namespace: &Vec<u8>,
    prefixes: &Vec<Vec<u8>>,
    key: Option<&Vec<u8>>,
) -> (r: Vec<u8>)
    requires
        forall|i: int| 0 <= i < prefixes@.len() ==> #[trigger] prefixes@[i]@.len() <= 0xffff,
    ensures
        r@ == nested_key(
            namespace@,
            prefixes@.map_values(|p: Vec<u8>| p@),
            match key {
                Some(k) => Some(k@),
                None => None,
            },
        ),
{
    let ghost segs = prefixes@.map_values(|p: Vec<u8>| p@);
    let mut r: Vec<u8> = Vec::new();
    r.extend_from_slice(namespace.as_slice());
    let mut i: usize = 0;
    proof {
        assert(segs.subrange(0, 0) =~= Seq::<Seq<u8>>::empty());
        assert(r@ =~= namespace@ + segments_bytes(segs.subrange(0, 0)));
    }
    while i < prefixes.len()
        invariant
            i <= prefixes@.len(),
            segs.len() == prefixes@.len(),
            forall|j: int| 0 <= j < prefixes@.len() ==> segs[j] == #[trigger] prefixes@[j]@,
            forall|j: int| 0 <= j < prefixes@.len() ==> #[trigger] prefixes@[j]@.len() <= 0xffff,
            r@ == namespace@ + segments_bytes(segs.subrange(0, i as int)),
        decreases prefixes@.len() - i,
    {
        let seg = &prefixes[i];
        let lp = crate::keys::be_encode(seg.len() as u128, 2);
        r.extend_from_slice(lp.as_slice());
        r.extend_from_slice(seg.as_slice());
        proof {
            let pre = segs.subrange(0, i as int);
            let cur = segs.subrange(0, i + 1);
            lemma_segments_snoc(pre, segs[i as int]);
            assert(cur =~= pre.push(segs[i as int]));
            assert(r@ =~= namespace@ + segments_bytes(cur));
        }
        i = i + 1;
    }
    proof {
        assert(segs.subrange(0, segs.len() as int) =~= segs);
    }
    match key {
        Some(k) => {
            r.extend_from_slice(k.as_slice());
            proof {
                assert(r@ =~= nested_key(namespace@, segs, Some(k@)));
            }
            r
        },
        None => {
            proof {
                assert(r@ =~= nested_key(namespace@, segs, None));
            }
            r
        },
    }
}

/// Appending one segment extends the flattened bytes on the right.
pub proof fn lemma_segments_snoc(segs: Seq<Seq<u8>>, seg: Seq<u8>)
    ensures
        segments_bytes(segs.push(seg)) == segments_bytes(segs) + len_prefixed(seg),
    decreases segs.len(),
{
    assert(segs.push(seg)[0] == if segs.len() == 0 {
        seg
    } else {
        segs[0]
    });
    if segs.len() == 0 {
        assert(segs.push(seg).skip(1) =~= Seq::<Seq<u8>>::empty());
        assert(segments_bytes(segs.push(seg)) == len_prefixed(seg) + segments_bytes(
            Seq::<Seq<u8>>::empty(),
        ));
        assert(segments_bytes(segs.push(seg)) =~= segments_bytes(segs) + len_prefixed(seg));
    } else {
        assert(segs.push(seg).skip(1) =~= segs.skip(1).push(seg));
        lemma_segments_snoc(segs.skip(1), seg);
        assert(segments_bytes(segs.push(seg)) =~= segments_bytes(segs) + len_prefixed(seg));
    }
}

} // verus!
