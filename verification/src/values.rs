//! Byte codecs for stored values: a value type paired with an injective
//! encoding into the raw bytes laid down in the store, and its partial
//! inverse.

use vstd::prelude::*;
use crate::err::StdError;
use vstd::string::*;

verus! {

/// A storable value: an injective byte encoding plus a sound decoder.
pub trait ValueCodec: Sized {
    /// The bytes this value is stored as.
    spec fn to_bytes_spec(self) -> Seq<u8>;

    /// Encode the value.
    fn to_bytes(&self) -> (r: Vec<u8>)
        ensures
            r@ == self.to_bytes_spec(),
    ;

    /// Decode stored bytes. Succeeds exactly on byte strings some value
    /// encodes to, and then returns such a value.
    fn from_bytes(b: &Vec<u8>) -> (r: Result<Self, StdError>)
        ensures
            match r {
                Ok(v) => v.to_bytes_spec() == b@,
                Err(e) => (forall|v: Self| v.to_bytes_spec() != b@) && e is Encoding,
            },
    ;
}

/// Raw byte values are stored as themselves.
impl ValueCodec for Vec<u8> {
    open spec fn to_bytes_spec(self) -> Seq<u8> {
        self@
    }

    fn to_bytes(&self) -> (r: Vec<u8>) {
        self.clone()
    }

    fn from_bytes(b: &Vec<u8>) -> (r: Result<Self, StdError>) {
        Ok(b.clone())
    }
}

/// Relies on `core::str::from_utf8`: returns `Ok` exactly on valid UTF-8 and
/// then views the same bytes as a string slice.
#[verifier::external_body]
fn str_from_utf8(b: &Vec<u8>) -> (r: Option<&str>)
    ensures
        match r {
            Some(s) => s.spec_bytes() == b@ && vstd::utf8::valid_utf8(b@),
            None => !vstd::utf8::valid_utf8(b@),
        },
{
    core::str::from_utf8(b.as_slice()).ok()
}

/// Strings are stored as their UTF-8 bytes.
impl ValueCodec for String {
    open spec fn to_bytes_spec(self) -> Seq<u8> {
        vstd::utf8::encode_utf8(self@)
    }

    fn to_bytes(&self) -> (r: Vec<u8>) {
        self.as_str().as_bytes_vec()
    }

    fn from_bytes(b: &Vec<u8>) -> (r: Result<Self, StdError>) {
        match str_from_utf8(b) {
            Some(s) => {
                let owned = s.to_owned();
                proof {
                    vstd::utf8::decode_utf8_encode_utf8(b@);
                }
                Ok(owned)
            },
            None => {
                proof {
                    assert forall|v: String| v.to_bytes_spec() != b@ by {
                        vstd::utf8::encode_utf8_valid_utf8(v@);
                    }
                }
                Err(StdError::Encoding)
            },
        }
    }
}

} // verus!
