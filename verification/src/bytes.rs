//! Raw byte-string ordering: the lexicographic order that the flat store
//! sorts its keys by, prefix relations, and the "next prefix" construction
//! used to turn a namespace prefix into an exclusive upper bound.

use vstd::prelude::*;

verus! {

/// Strict lexicographic order on byte strings: a strict prefix sorts first,
/// otherwise the first differing byte decides.
pub open spec fn lex_lt(a: Seq<u8>, b: Seq<u8>) -> bool
    decreases a.len(),
{
    if b.len() == 0 {
        false
    } else if a.len() == 0 {
        true
    } else if a[0] < b[0] {
        true
    } else if a[0] > b[0] {
        false
    } else {
        lex_lt(a.skip(1), b.skip(1))
    }
}

/// `p` is a (not necessarily strict) prefix of `a`.
pub open spec fn is_prefix(p: Seq<u8>, a: Seq<u8>) -> bool {
    p.len() <= a.len() && a.subrange(0, p.len() as int) == p
}

/// Membership in a half-open raw scan range: at or above `min` (when given),
/// strictly below `max` (when given).
pub open spec fn in_range(k: Seq<u8>, min: Option<Seq<u8>>, max: Option<Seq<u8>>) -> bool {
    &&& match min {
        Some(m) => !lex_lt(k, m),
        None => true,
    }
    &&& match max {
        Some(m) => lex_lt(k, m),
        None => true,
    }
}

/// The shortest byte string strictly greater than every string that starts
/// with `p`: drop trailing maximal bytes, then increment the last one.
/// `None` when no such string exists (`p` empty or all bytes maximal), in
/// which case the scan above `p` is left unbounded.
pub open spec fn next_prefix(p: Seq<u8>) -> Option<Seq<u8>>
    decreases p.len(),
{
    if p.len() == 0 {
        None
    } else if p.last() < 255 {
        Some(p.drop_last().push((p.last() + 1) as u8))
    } else {
        next_prefix(p.drop_last())
    }
}

pub proof fn lemma_lex_irrefl(a: Seq<u8>)
    ensures
        !lex_lt(a, a),
    decreases a.len(),
{
    if a.len() > 0 {
        lemma_lex_irrefl(a.skip(1));
    }
}

pub proof fn lemma_lex_asym(a: Seq<u8>, b: Seq<u8>)
    requires
        lex_lt(a, b),
    ensures
        !lex_lt(b, a),
    decreases a.len(),
{
    if a.len() > 0 && b.len() > 0 && a[0] == b[0] {
        lemma_lex_asym(a.skip(1), b.skip(1));
    }
}

/// Any two byte strings are ordered or equal.
pub proof fn lemma_lex_connex(a: Seq<u8>, b: Seq<u8>)
    ensures
        lex_lt(a, b) || lex_lt(b, a) || a == b,
    decreases a.len(),
{
    if a.len() == 0 {
        if b.len() == 0 {
            assert(a =~= b);
        }
    } else if b.len() > 0 && a[0] == b[0] {
        lemma_lex_connex(a.skip(1), b.skip(1));
        if !lex_lt(a.skip(1), b.skip(1)) && !lex_lt(b.skip(1), a.skip(1)) {
            assert(forall|i: int| 1 <= i < a.len() ==> a[i] == a.skip(1)[i - 1]);
            assert(forall|i: int| 1 <= i < b.len() ==> b[i] == b.skip(1)[i - 1]);
            assert(a =~= b);
        }
    }
}

pub proof fn lemma_lex_trans(a: Seq<u8>, b: Seq<u8>, c: Seq<u8>)
    requires
        lex_lt(a, b),
        lex_lt(b, c),
    ensures
        lex_lt(a, c),
    decreases a.len(),
{
    if a.len() > 0 && b.len() > 0 && c.len() > 0 && a[0] == b[0] && b[0] == c[0] {
        lemma_lex_trans(a.skip(1), b.skip(1), c.skip(1));
    }
}

/// Strict-below composed with at-or-below (phrased as `!lex_lt(c, b)` being
/// `b <= c`) stays strict.
pub proof fn lemma_lex_lt_le_trans(a: Seq<u8>, b: Seq<u8>, c: Seq<u8>)
    requires
        lex_lt(a, b),
        !lex_lt(c, b),
    ensures
        lex_lt(a, c),
{
    lemma_lex_connex(b, c);
    if lex_lt(b, c) {
        lemma_lex_trans(a, b, c);
    }
}

/// At-or-above composed with strict stays strict.
pub proof fn lemma_lex_le_lt_trans(a: Seq<u8>, b: Seq<u8>, c: Seq<u8>)
    requires
        !lex_lt(b, a),
        lex_lt(b, c),
    ensures
        !lex_lt(c, a),
{
    lemma_lex_connex(a, b);
    if lex_lt(c, a) {
        if lex_lt(a, b) {
            lemma_lex_trans(c, a, b);
            lemma_lex_asym(b, c);
        } else {
            lemma_lex_asym(b, c);
        }
    }
}

/// A shared prefix neither creates nor destroys order.
pub proof fn lemma_lex_concat(p: Seq<u8>, a: Seq<u8>, b: Seq<u8>)
    ensures
        lex_lt(p + a, p + b) == lex_lt(a, b),
    decreases p.len(),
{
    if p.len() == 0 {
        assert(p + a =~= a);
        assert(p + b =~= b);
    } else {
        assert((p + a).skip(1) =~= p.skip(1) + a);
        assert((p + b).skip(1) =~= p.skip(1) + b);
        lemma_lex_concat(p.skip(1), a, b);
    }
}

/// A string never sorts below its own prefix.
pub proof fn lemma_prefix_not_lt(p: Seq<u8>, a: Seq<u8>)
    requires
        is_prefix(p, a),
    ensures
        !lex_lt(a, p),
    decreases p.len(),
{
    if p.len() > 0 {
        assert(a[0] == p[0]) by {
            assert(a.subrange(0, p.len() as int)[0] == a[0]);
        }
        assert(is_prefix(p.skip(1), a.skip(1))) by {
            assert(a.skip(1).subrange(0, p.len() - 1) =~= a.subrange(0, p.len() as int).skip(1));
        }
        lemma_prefix_not_lt(p.skip(1), a.skip(1));
    }
}

/// A strict prefix sorts strictly first.
pub proof fn lemma_strict_prefix_lt(p: Seq<u8>, a: Seq<u8>)
    requires
        is_prefix(p, a),
        p.len() < a.len(),
    ensures
        lex_lt(p, a),
    decreases p.len(),
{
    if p.len() > 0 {
        assert(a[0] == p[0]) by {
            assert(a.subrange(0, p.len() as int)[0] == a[0]);
        }
        assert(is_prefix(p.skip(1), a.skip(1))) by {
            assert(a.skip(1).subrange(0, p.len() - 1) =~= a.subrange(0, p.len() as int).skip(1));
        }
        lemma_strict_prefix_lt(p.skip(1), a.skip(1));
    }
}

/// Appending a zero byte yields the immediate successor: nothing sorts
/// strictly between `s` and `s.push(0)`.
pub proof fn lemma_adjacent(s: Seq<u8>, t: Seq<u8>)
    requires
        lex_lt(s, t),
    ensures
        !lex_lt(t, s.push(0)),
    decreases s.len(),
{
    if s.len() == 0 {
        if t.len() > 0 && t[0] == 0 {
            assert(!lex_lt(t.skip(1), s.push(0).skip(1))) by {
                assert(s.push(0).skip(1) =~= Seq::<u8>::empty());
            }
        }
    } else {
        if t.len() > 0 && s[0] == t[0] {
            assert(s.push(0).skip(1) =~= s.skip(1).push(0));
            lemma_adjacent(s.skip(1), t.skip(1));
        }
    }
}

/// A string caught between a prefix `p` and any extension `p + x` must
/// itself start with `p`.
pub proof fn lemma_between_prefix(p: Seq<u8>, x: Seq<u8>, k: Seq<u8>)
    requires
        !lex_lt(k, p),
        lex_lt(k, p + x),
    ensures
        is_prefix(p, k),
    decreases p.len(),
{
    if p.len() == 0 {
        assert(k.subrange(0, 0) =~= p);
    } else {
        assert((p + x).len() > 0);
        assert(k.len() > 0);
        assert((p + x)[0] == p[0]);
        assert(k[0] == p[0]);
        assert((p + x).skip(1) =~= p.skip(1) + x);
        lemma_between_prefix(p.skip(1), x, k.skip(1));
        assert(k.subrange(0, p.len() as int) =~= p) by {
            assert(k.skip(1).subrange(0, p.len() - 1) =~= p.skip(1));
            assert(forall|i: int|
                1 <= i < p.len() ==> k[i] == k.skip(1).subrange(0, p.len() - 1)[i - 1]);
        }
    }
}

/// Every string starting with `p` sorts strictly below `next_prefix(p)`.
pub proof fn lemma_prefix_below_next(p: Seq<u8>, k: Seq<u8>)
    requires
        is_prefix(p, k),
        next_prefix(p) is Some,
    ensures
        lex_lt(k, next_prefix(p)->Some_0),
    decreases p.len(),
{
    let q = p.drop_last();
    let c = p.last();
    if c < 255 {
        let np = next_prefix(p)->Some_0;
        let r = k.skip(q.len() as int);
        assert(k =~= q + r);
        assert(np =~= q + seq![(c + 1) as u8]);
        assert(r[0] == c) by {
            assert(k.subrange(0, p.len() as int)[p.len() - 1] == p.last());
        }
        assert(lex_lt(r, seq![(c + 1) as u8]));
        lemma_lex_concat(q, r, seq![(c + 1) as u8]);
    } else {
        assert(is_prefix(q, k)) by {
            assert(k.subrange(0, q.len() as int) =~= k.subrange(0, p.len() as int).subrange(
                0,
                q.len() as int,
            ));
        }
        lemma_prefix_below_next(q, k);
    }
}

/// Conversely, a string at or above `p` and strictly below `next_prefix(p)`
/// (unconditionally so when no next prefix exists) starts with `p`.
pub proof fn lemma_below_next_prefix(p: Seq<u8>, k: Seq<u8>)
    requires
        !lex_lt(k, p),
        match next_prefix(p) {
            Some(np) => lex_lt(k, np),
            None => true,
        },
    ensures
        is_prefix(p, k),
    decreases p.len(),
{
    if p.len() == 0 {
        assert(k.subrange(0, 0) =~= p);
    } else {
        let q = p.drop_last();
        let c = p.last();
        assert(p =~= q + seq![c]);
        assert(is_prefix(q, p)) by {
            assert(p.subrange(0, q.len() as int) =~= q);
        }
        lemma_prefix_not_lt(q, p);
        // `!lex_lt(k, q)` holds: otherwise k < q <= p contradicts k >= p.
        assert(!lex_lt(k, q)) by {
            if lex_lt(k, q) {
                lemma_lex_lt_le_trans(k, q, p);
            }
        }
        if c < 255 {
            let np = next_prefix(p)->Some_0;
            assert(np =~= q + seq![(c + 1) as u8]);
            lemma_between_prefix(q, seq![(c + 1) as u8], k);
            let r = k.skip(q.len() as int);
            assert(k =~= q + r);
            lemma_lex_concat(q, r, seq![(c + 1) as u8]);
            lemma_lex_concat(q, r, seq![c]);
            assert(lex_lt(r, seq![(c + 1) as u8]));
            assert(!lex_lt(r, seq![c]));
            assert(r.len() > 0);
            assert(r[0] == c) by {
                let d = (c + 1) as u8;
                assert(seq![d].len() == 1 && seq![d][0] == d);
                assert(seq![c].len() == 1 && seq![c][0] == c);
                if r[0] == d {
                    assert(seq![d].skip(1) =~= Seq::<u8>::empty());
                    assert(!lex_lt(r.skip(1), seq![d].skip(1)));
                }
            }
            assert(k.subrange(0, p.len() as int) =~= p) by {
                assert(forall|i: int| 0 <= i < q.len() ==> k[i] == (q + r)[i]);
            }
        } else {
            lemma_below_next_prefix(q, k);
            let r = k.skip(q.len() as int);
            assert(k =~= q + r);
            lemma_lex_concat(q, r, seq![c]);
            assert(!lex_lt(r, seq![c]));
            assert(r.len() > 0);
            assert(r[0] == c);
            assert(k.subrange(0, p.len() as int) =~= p) by {
                assert(forall|i: int| 0 <= i < q.len() ==> k[i] == (q + r)[i]);
            }
        }
    }
}

/// Lexicographic comparison of two byte vectors.
pub fn bytes_lt(a: &Vec<u8>, b: &Vec<u8>) -> (r: bool)
    ensures
        r == lex_lt(a@, b@),
{
    let mut i: usize = 0;
    proof {
        assert(a@.skip(0) =~= a@);
        assert(b@.skip(0) =~= b@);
    }
    loop
        invariant
            i <= a.len(),
            i <= b.len(),
            forall|j: int| 0 <= j < i ==> a@[j] == b@[j],
            lex_lt(a@, b@) == lex_lt(a@.skip(i as int), b@.skip(i as int)),
        decreases a.len() - i,
    {
        if i == a.len() || i == b.len() {
            proof {
                if a.len() < b.len() {
                    assert(lex_lt(a@.skip(i as int), b@.skip(i as int)));
                } else {
                    assert(!lex_lt(a@.skip(i as int), b@.skip(i as int)));
                }
            }
            return a.len() < b.len();
        }
        let x = a[i];
        let y = b[i];
        if x < y {
            return true;
        }
        if x > y {
            return false;
        }
        proof {
            assert(a@.skip(i as int).skip(1) =~= a@.skip(i + 1));
            assert(b@.skip(i as int).skip(1) =~= b@.skip(i + 1));
        }
        i = i + 1;
    }
}

/// Bytewise equality of two byte vectors.
pub fn bytes_eq(a: &Vec<u8>, b: &Vec<u8>) -> (r: bool)
    ensures
        r == (a@ == b@),
{
    if a.len() != b.len() {
        return false;
    }
    let mut i: usize = 0;
    while i < a.len()
        invariant
            i <= a.len(),
            a.len() == b.len(),
            forall|j: int| 0 <= j < i ==> a@[j] == b@[j],
        decreases a.len() - i,
    {
        if a[i] != b[i] {
            return false;
        }
        i = i + 1;
    }
    proof {
        assert(a@ =~= b@);
    }
    true
}

/// `a ++ b` as a fresh vector.
pub fn concat(a: &Vec<u8>, b: &Vec<u8>) -> (r: Vec<u8>)
    ensures
        r@ == a@ + b@,
{
    let mut r = a.clone();
    r.extend_from_slice(b.as_slice());
    proof {
        assert(r@ =~= a@ + b@);
    }
    r
}

/// Appends the zero byte, producing the immediate lexicographic successor.
pub fn extend_one_byte(v: Vec<u8>) -> (r: Vec<u8>)
    ensures
        r@ == v@.push(0),
{
    let mut r = v;
    r.push(0);
    r
}

/// Drops trailing maximal bytes and increments the last remaining one;
/// `None` when the input has no lexicographic "next prefix".
pub fn increment_last_byte(v: Vec<u8>) -> (r: Option<Vec<u8>>)
    ensures
        match r {
            Some(n) => next_prefix(v@) == Some(n@),
            None => next_prefix(v@) is None,
        },
{
    let mut w = v;
    loop
        invariant
            next_prefix(w@) == next_prefix(v@),
        decreases w.len(),
    {
        if w.len() == 0 {
            return None;
        }
        let c = w[w.len() - 1];
        if c < 255 {
            let ghost before = w@;
            let n = w.len() - 1;
            w.set(n, c + 1);
            proof {
                assert(w@ =~= before.drop_last().push((c + 1) as u8));
            }
            return Some(w);
        }
        let ghost before = w@;
        w.pop();
        proof {
            assert(w@ =~= before.drop_last());
        }
    }
}

/// Does `a` start with `p`?
pub fn starts_with(a: &Vec<u8>, p: &Vec<u8>) -> (r: bool)
    ensures
        r == is_prefix(p@, a@),
{
    if p.len() > a.len() {
        return false;
    }
    let mut i: usize = 0;
    while i < p.len()
        invariant
            i <= p.len(),
            p.len() <= a.len(),
            forall|j: int| 0 <= j < i ==> a@[j] == p@[j],
        decreases p.len() - i,
    {
        if a[i] != p[i] {
            proof {
                assert(a@.subrange(0, p@.len() as int)[i as int] != p@[i as int]);
            }
            return false;
        }
        i = i + 1;
    }
    proof {
        assert(a@.subrange(0, p@.len() as int) =~= p@);
    }
    true
}

/// The part of `a` after its first `n` bytes.
pub fn trim(a: &Vec<u8>, n: usize) -> (r: Vec<u8>)
    requires
        n <= a@.len(),
    ensures
        r@ == a@.skip(n as int),
{
    let mut r: Vec<u8> = Vec::new();
    let mut i: usize = n;
    while i < a.len()
        invariant
            n <= i <= a.len(),
            r@ =~= a@.subrange(n as int, i as int),
        decreases a.len() - i,
    {
        r.push(a[i]);
        proof {
            assert(r@ =~= a@.subrange(n as int, i + 1));
        }
        i = i + 1;
    }
    proof {
        assert(r@ =~= a@.skip(n as int));
    }
    r
}

} // verus!
