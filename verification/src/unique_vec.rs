//! A wrapper over a vector that guarantees no element appears twice, with a
//! JSON round trip that re-validates the uniqueness guarantee on the way in.

use vstd::prelude::*;
use crate::err::StdError;

verus! {

/// No two positions of `s` hold the same value.
pub open spec fn no_duplicates<T>(s: Seq<T>) -> bool {
    forall|i: int, j: int| 0 <= i < j < s.len() ==> s[i] != s[j]
}

/// A vector whose elements are pairwise distinct when built through the
/// checked constructor.
#[derive(Debug, Clone, PartialEq, Eq)]
pub struct UniqueVec<T>(Vec<T>);

impl<T> UniqueVec<T> {
    pub closed spec fn view_spec(&self) -> Seq<T> {
        self.0@
    }

    /// Wraps without checking; the caller vouches for uniqueness.
    pub fn new_unchecked(inner: Vec<T>) -> (r: Self)
        ensures
            r.view_spec() == inner@,
    {
        UniqueVec(inner)
    }

    pub fn inner(&self) -> (r: &Vec<T>)
        ensures
            r@ == self.view_spec(),
    {
        &self.0
    }

    pub fn into_inner(self) -> (r: Vec<T>)
        ensures
            r@ == self.view_spec(),
    {
        self.0
    }
}

impl UniqueVec<u32> {
    /// Checked constructor: accepts the vector exactly when its elements are
    /// pairwise distinct, and keeps them in their original order. The check
    /// exists for numeric elements, whose equality the verifier can reason
    /// about; derived equality on arbitrary elements carries no contract, so
    /// other element types go through `new_unchecked`.
    pub fn new(inner: Vec<u32>) -> (r: Result<Self, StdError>)
        ensures
            match r {
                Ok(u) => u.view_spec() == inner@ && no_duplicates(inner@),
                Err(e) => e is DuplicateData && !no_duplicates(inner@),
            },
    {
        let n = inner.len();
        let mut i: usize = 0;
        while i < n
            invariant
                n == inner@.len(),
                i <= n,
                forall|a: int, b: int| 0 <= a < b < inner@.len() && a < i ==> inner@[a] != inner@[b],
            decreases n - i,
        {
            let mut j: usize = i + 1;
            while j < n
                invariant
                    n == inner@.len(),
                    i < j <= n,
                    forall|b: int| i < b < j ==> inner@[i as int] != inner@[b],
                decreases n - j,
            {
                if inner[i] == inner[j] {
                    return Err(StdError::DuplicateData);
                }
                j = j + 1;
            }
            i = i + 1;
        }
        Ok(UniqueVec(inner))
    }

    /// Parses a JSON array of numbers and re-validates uniqueness.
    pub fn from_json(bytes: &Vec<u8>) -> (r: Result<Self, StdError>)
        ensures
            match r {
                Ok(u) => json_parse_u32s(bytes@) == Some(u.view_spec()) && no_duplicates(
                    u.view_spec(),
                ),
                Err(e) => match json_parse_u32s(bytes@) {
                    Some(s) => e is DuplicateData && !no_duplicates(s),
                    None => e is Encoding,
                },
            },
    {
        match parse_json_u32s(bytes) {
            Some(v) => UniqueVec::new(v),
            None => Err(StdError::Encoding),
        }
    }

    /// Serializes the elements as a JSON array of numbers.
    pub fn to_json(&self) -> (r: Vec<u8>)
        ensures
            r@ == json_u32s_bytes(self.view_spec()),
            json_parse_u32s(r@) == Some(self.view_spec()),
    {
        to_json_u32s(&self.0)
    }
}

/// What serde_json parses a byte string into, read as an array of `u32`.
pub uninterp spec fn json_parse_u32s(b: Seq<u8>) -> Option<Seq<u32>>;

/// The JSON text serde_json prints for an array of `u32`.
pub uninterp spec fn json_u32s_bytes(s: Seq<u32>) -> Seq<u8>;

/// Relies on serde_json::from_slice for `Vec<u32>`: parses a JSON array of
/// numbers; the result depends on the input bytes alone.
#[verifier::external_body]
fn parse_json_u32s(b: &Vec<u8>) -> (r: Option<Vec<u32>>)
    ensures
        match r {
            Some(v) => json_parse_u32s(b@) == Some(v@),
            None => json_parse_u32s(b@) is None,
        },
{
    serde_json::from_slice::<Vec<u32>>(b.as_slice()).ok()
}

/// Relies on serde_json::to_vec for `Vec<u32>`: prints a JSON array of
/// numbers, which serde_json parses back to the same numbers.
#[verifier::external_body]
fn to_json_u32s(v: &Vec<u32>) -> (r: Vec<u8>)
    ensures
        r@ == json_u32s_bytes(v@),
        json_parse_u32s(r@) == Some(v@),
{
    serde_json::to_vec(v).unwrap()
}

/// Round-trip law: a unique vector survives serialization and
/// deserialization with order and uniqueness intact (uniqueness re-validated
/// on the way in).
pub fn roundtrip_unique_u32(u: &UniqueVec<u32>) -> (r: UniqueVec<u32>)
    requires
        no_duplicates(u.view_spec()),
    ensures
        r.view_spec() == u.view_spec(),
{
    let bytes = u.to_json();
    match UniqueVec::from_json(&bytes) {
        Ok(v) => v,
        Err(_) => {
            proof {
                assert(false);
            }
            vstd::pervasive::unreached()
        },
    }
}

} // verus!
