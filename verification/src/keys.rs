//! Typed storage keys and their order-preserving byte encoding. Integer keys
//! become fixed-width big-endian digits, so unsigned numeric order equals the
//! byte order of the flat store; byte-string keys pass through unchanged.

use vstd::prelude::*;
use crate::bytes::{lex_lt, lemma_lex_concat, lemma_lex_asym};
use crate::err::StdError;

verus! {

/// 256 to the power `n`: the number of byte strings of length `n`.
pub open spec fn pow256(n: nat) -> nat
    decreases n,
{
    if n == 0 {
        1nat
    } else {
        256 * pow256((n - 1) as nat)
    }
}

/// The `n` base-256 digits of `x`, most significant first.
pub open spec fn be_bytes(x: nat, n: nat) -> Seq<u8>
    decreases n,
{
    if n == 0 {
        Seq::empty()
    } else {
        be_bytes(x / 256, (n - 1) as nat).push((x % 256) as u8)
    }
}

/// The number whose big-endian base-256 digits are `s`.
pub open spec fn be_val(s: Seq<u8>) -> nat
    decreases s.len(),
{
    if s.len() == 0 {
        0nat
    } else {
        be_val(s.drop_last()) * 256 + (s.last() as nat)
    }
}

pub proof fn lemma_pow256_mono(m: nat, n: nat)
    requires
        m <= n,
    ensures
        pow256(m) <= pow256(n),
    decreases n,
{
    if m < n {
        lemma_pow256_mono(m, (n - 1) as nat);
        assert(pow256(n) == 256 * pow256((n - 1) as nat));
    }
}

pub proof fn lemma_be_bytes_len(x: nat, n: nat)
    ensures
        be_bytes(x, n).len() == n,
    decreases n,
{
    if n > 0 {
        lemma_be_bytes_len(x / 256, (n - 1) as nat);
    }
}

/// Decoding inverts encoding for values that fit in `n` digits.
pub proof fn lemma_be_roundtrip(x: nat, n: nat)
    requires
        x < pow256(n),
    ensures
        be_val(be_bytes(x, n)) == x,
    decreases n,
{
    if n == 0 {
    } else {
        let hi = be_bytes(x / 256, (n - 1) as nat);
        assert(be_bytes(x, n).drop_last() =~= hi);
        assert(x / 256 < pow256((n - 1) as nat)) by (nonlinear_arith)
            requires
                x < 256 * pow256((n - 1) as nat),
        ;
        lemma_be_roundtrip(x / 256, (n - 1) as nat);
        assert(be_val(hi) * 256 + (x % 256) == x) by (nonlinear_arith)
            requires
                be_val(hi) == x / 256,
        ;
    }
}

/// Equal-length sequences ordered at some position stay ordered under any
/// equal-length extension.
pub proof fn lemma_lex_eqlen_extend(a: Seq<u8>, b: Seq<u8>, x: Seq<u8>, y: Seq<u8>)
    requires
        a.len() == b.len(),
        lex_lt(a, b),
    ensures
        lex_lt(a + x, b + y),
    decreases a.len(),
{
    if a.len() > 0 {
        assert((a + x)[0] == a[0]);
        assert((b + y)[0] == b[0]);
        if a[0] == b[0] {
            assert((a + x).skip(1) =~= a.skip(1) + x);
            assert((b + y).skip(1) =~= b.skip(1) + y);
            lemma_lex_eqlen_extend(a.skip(1), b.skip(1), x, y);
        }
    }
}

/// Numeric order equals lexicographic order on fixed-width big-endian digits.
pub proof fn lemma_be_order(x: nat, y: nat, n: nat)
    requires
        x < y,
        y < pow256(n),
    ensures
        lex_lt(be_bytes(x, n), be_bytes(y, n)),
    decreases n,
{
    let hx = be_bytes(x / 256, (n - 1) as nat);
    let hy = be_bytes(y / 256, (n - 1) as nat);
    assert(n > 0);
    assert(x / 256 <= y / 256 && y / 256 < pow256((n - 1) as nat)) by (nonlinear_arith)
        requires
            x < y,
            y < 256 * pow256((n - 1) as nat),
    ;
    lemma_be_bytes_len(x / 256, (n - 1) as nat);
    lemma_be_bytes_len(y / 256, (n - 1) as nat);
    assert(be_bytes(x, n) =~= hx + seq![(x % 256) as u8]);
    assert(be_bytes(y, n) =~= hy + seq![(y % 256) as u8]);
    if x / 256 == y / 256 {
        assert(x % 256 < y % 256) by (nonlinear_arith)
            requires
                x < y,
                x / 256 == y / 256,
        ;
        assert(lex_lt(seq![(x % 256) as u8], seq![(y % 256) as u8]));
        lemma_lex_concat(hx, seq![(x % 256) as u8], seq![(y % 256) as u8]);
    } else {
        lemma_be_order(x / 256, y / 256, (n - 1) as nat);
        lemma_lex_eqlen_extend(hx, hy, seq![(x % 256) as u8], seq![(y % 256) as u8]);
    }
}

/// Big-endian digits of `x`, `width` bytes, most significant first.
pub fn be_encode(x: u128, width: usize) -> (r: Vec<u8>)
    ensures
        r@ == be_bytes(x as nat, width as nat),
    decreases width,
{
    if width == 0 {
        let r: Vec<u8> = Vec::new();
        proof {
            assert(r@ =~= be_bytes(x as nat, 0));
        }
        r
    } else {
        let mut r = be_encode(x / 256, width - 1);
        r.push((x % 256) as u8);
        r
    }
}

/// Reads a big-endian number of at most 16 digits.
pub fn be_decode(b: &Vec<u8>) -> (r: u128)
    requires
        b@.len() <= 16,
    ensures
        r as nat == be_val(b@),
{
    let mut acc: u128 = 0;
    let mut i: usize = 0;
    proof {
        assert(b@.subrange(0, 0) =~= Seq::<u8>::empty());
    }
    while i < b.len()
        invariant
            i <= b.len() <= 16,
            acc as nat == be_val(b@.subrange(0, i as int)),
            (acc as nat) < pow256(i as nat),
        decreases b.len() - i,
    {
        proof {
            let pre = b@.subrange(0, i as int);
            let nxt = b@.subrange(0, i + 1);
            assert(nxt.drop_last() =~= pre);
            assert((acc as nat) * 256 + b@[i as int] < pow256((i + 1) as nat)) by (nonlinear_arith)
                requires
                    (acc as nat) < pow256(i as nat),
                    b@[i as int] < 256,
                    pow256((i + 1) as nat) == 256 * pow256(i as nat),
            ;
            lemma_pow256_mono((i + 1) as nat, 16);
            assert(pow256(16) == 0x100000000000000000000000000000000) by {
                reveal_with_fuel(pow256, 17);
            }
        }
        acc = acc * 256 + (b[i] as u128);
        i = i + 1;
    }
    proof {
        assert(b@.subrange(0, b@.len() as int) =~= b@);
    }
    acc
}

/// A typed storage key: an injective, order-preserving byte encoding plus its
/// partial inverse. `key_lt` is the type's natural strict order.
pub trait StoreKey: Sized {
    /// The natural order of the key type.
    spec fn key_lt(self, other: Self) -> bool;

    /// The byte encoding laid down in the flat store.
    spec fn spec_encode(self) -> Seq<u8>;

    /// Encode the key.
    fn encode(&self) -> (r: Vec<u8>)
        ensures
            r@ == self.spec_encode(),
    ;

    /// Decode a raw key. Succeeds exactly on byte strings some key encodes to,
    /// and then returns that key.
    fn decode(b: &Vec<u8>) -> (r: Result<Self, StdError>)
        ensures
            match r {
                Ok(k) => k.spec_encode() == b@,
                Err(e) => (forall|k: Self| k.spec_encode() != b@) && e is Encoding,
            },
    ;

    /// Law: the encoding preserves the natural order.
    proof fn lemma_order(a: Self, b: Self)
        requires
            a.key_lt(b),
        ensures
            lex_lt(a.spec_encode(), b.spec_encode()),
    ;

    /// Law: any two keys are ordered, or encode identically.
    proof fn lemma_connex(a: Self, b: Self)
        ensures
            a.key_lt(b) || b.key_lt(a) || a.spec_encode() == b.spec_encode(),
    ;
}

/// The encoding is injective: unordered keys encode identically, ordered keys
/// encode to distinct, equally ordered byte strings.
pub proof fn lemma_encode_injective<K: StoreKey>(a: K, b: K)
    requires
        a.spec_encode() == b.spec_encode(),
    ensures
        !a.key_lt(b) && !b.key_lt(a),
{
    if a.key_lt(b) {
        K::lemma_order(a, b);
        crate::bytes::lemma_lex_irrefl(a.spec_encode());
    }
    if b.key_lt(a) {
        K::lemma_order(b, a);
        crate::bytes::lemma_lex_irrefl(a.spec_encode());
    }
}

/// The natural key order is asymmetric; a consequence of the two trait laws.
pub proof fn lemma_key_asym<K: StoreKey>(a: K, b: K)
    requires
        a.key_lt(b),
    ensures
        !b.key_lt(a),
{
    K::lemma_order(a, b);
    if b.key_lt(a) {
        K::lemma_order(b, a);
        lemma_lex_asym(a.spec_encode(), b.spec_encode());
    }
}

/// Round-trip law: decoding an encoded key always succeeds and gives back a
/// key that encodes identically (hence, by injectivity, the same key under
/// the natural order).
pub fn decode_encoded<K: StoreKey>(k: &K) -> (r: K)
    ensures
        r.spec_encode() == k.spec_encode(),
        !r.key_lt(*k) && !k.key_lt(r),
{
    let e = k.encode();
    match K::decode(&e) {
        Ok(x) => {
            proof {
                lemma_encode_injective(x, *k);
            }
            x
        },
        Err(_) => {
            proof {
                assert(k.spec_encode() == e@);
                assert(false);
            }
            vstd::pervasive::unreached()
        },
    }
}

impl StoreKey for u64 {
    open spec fn key_lt(self, other: Self) -> bool {
        self < other
    }

    open spec fn spec_encode(self) -> Seq<u8> {
        be_bytes(self as nat, 8)
    }

    fn encode(&self) -> (r: Vec<u8>) {
        be_encode(*self as u128, 8)
    }

    fn decode(b: &Vec<u8>) -> (r: Result<Self, StdError>) {
        if b.len() != 8 {
            proof {
                assert forall|k: u64| k.spec_encode() != b@ by {
                    lemma_be_bytes_len(k as nat, 8);
                }
            }
            return Err(StdError::Encoding);
        }
        let v = be_decode(b);
        proof {
            lemma_pow256(8);
            assert(be_val(b@) < pow256(8)) by {
                lemma_be_val_bound(b@);
            }
            lemma_be_val_inverse(b@, 8);
        }
        Ok(v as u64)
    }

    proof fn lemma_order(a: Self, b: Self) {
        lemma_pow256(8);
        lemma_be_order(a as nat, b as nat, 8);
    }

    proof fn lemma_connex(a: Self, b: Self) {
    }
}

impl StoreKey for u32 {
    open spec fn key_lt(self, other: Self) -> bool {
        self < other
    }

    open spec fn spec_encode(self) -> Seq<u8> {
        be_bytes(self as nat, 4)
    }

    fn encode(&self) -> (r: Vec<u8>) {
        be_encode(*self as u128, 4)
    }

    fn decode(b: &Vec<u8>) -> (r: Result<Self, StdError>) {
        if b.len() != 4 {
            proof {
                assert forall|k: u32| k.spec_encode() != b@ by {
                    lemma_be_bytes_len(k as nat, 4);
                }
            }
            return Err(StdError::Encoding);
        }
        let v = be_decode(b);
        proof {
            lemma_pow256(4);
            assert(be_val(b@) < pow256(4)) by {
                lemma_be_val_bound(b@);
            }
            lemma_be_val_inverse(b@, 4);
        }
        Ok(v as u32)
    }

    proof fn lemma_order(a: Self, b: Self) {
        lemma_pow256(4);
        lemma_be_order(a as nat, b as nat, 4);
    }

    proof fn lemma_connex(a: Self, b: Self) {
    }
}

/// Raw byte-string keys encode as themselves; their natural order is the
/// lexicographic one.
impl StoreKey for Vec<u8> {
    open spec fn key_lt(self, other: Self) -> bool {
        lex_lt(self@, other@)
    }

    open spec fn spec_encode(self) -> Seq<u8> {
        self@
    }

    fn encode(&self) -> (r: Vec<u8>) {
        self.clone()
    }

    fn decode(b: &Vec<u8>) -> (r: Result<Self, StdError>) {
        Ok(b.clone())
    }

    proof fn lemma_order(a: Self, b: Self) {
    }

    proof fn lemma_connex(a: Self, b: Self) {
        crate::bytes::lemma_lex_connex(a@, b@);
    }
}

/// Values of common widths fit their digit count.
pub proof fn lemma_pow256(n: nat)
    ensures
        n == 4 ==> pow256(n) == 0x100000000,
        n == 8 ==> pow256(n) == 0x10000000000000000,
        n == 16 ==> pow256(n) == 0x100000000000000000000000000000000,
{
    reveal_with_fuel(pow256, 17);
}

/// A digit string denotes a value below 256 to its length.
pub proof fn lemma_be_val_bound(s: Seq<u8>)
    ensures
        be_val(s) < pow256(s.len()),
    decreases s.len(),
{
    if s.len() > 0 {
        lemma_be_val_bound(s.drop_last());
        assert(be_val(s.drop_last()) * 256 + s.last() < 256 * pow256((s.len() - 1) as nat))
            by (nonlinear_arith)
            requires
                be_val(s.drop_last()) < pow256((s.len() - 1) as nat),
                s.last() < 256,
        ;
    }
}

/// Every `n`-digit string is the encoding of the value it denotes.
pub proof fn lemma_be_val_inverse(s: Seq<u8>, n: nat)
    requires
        s.len() == n,
    ensures
        be_bytes(be_val(s), n) == s,
    decreases n,
{
    if n > 0 {
        lemma_be_val_inverse(s.drop_last(), (n - 1) as nat);
        let x = be_val(s);
        let h = be_val(s.drop_last());
        assert(x / 256 == h && x % 256 == s.last()) by (nonlinear_arith)
            requires
                x == h * 256 + s.last(),
                s.last() < 256,
        ;
        assert(be_bytes(x, n) =~= s);
    }
}

} // verus!
