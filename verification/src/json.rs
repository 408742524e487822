//! The textual side of the boundary: JSON string escaping, the generic result
//! envelope every entry point returns, and the codec traits messages and
//! results go through.

use vstd::prelude::*;
use vstd::string::*;
use crate::err::StdError;

verus! {

/// The lower hex digit for a value below 16.
pub open spec fn hex_digit(n: u8) -> u8 {
    if n < 10 {
        (48 + n) as u8
    } else {
        (87 + n) as u8
    }
}

/// How one byte appears inside a JSON string literal: quote and backslash
/// escaped, control bytes as `\u00XX`, everything else verbatim.
pub open spec fn esc_byte(c: u8) -> Seq<u8> {
    if c == 34 {
        seq![92u8, 34u8]
    } else if c == 92 {
        seq![92u8, 92u8]
    } else if c < 32 {
        seq![92u8, 117u8, 48u8, 48u8, hex_digit(c / 16), hex_digit(c % 16)]
    } else {
        seq![c]
    }
}

/// A byte string escaped for inclusion in a JSON string literal.
pub open spec fn escaped(s: Seq<u8>) -> Seq<u8>
    decreases s.len(),
{
    if s.len() == 0 {
        Seq::empty()
    } else {
        esc_byte(s[0]) + escaped(s.skip(1))
    }
}

pub proof fn lemma_escaped_snoc(s: Seq<u8>, c: u8)
    ensures
        escaped(s.push(c)) == escaped(s) + esc_byte(c),
    decreases s.len(),
{
    assert(s.push(c)[0] == if s.len() == 0 {
        c
    } else {
        s[0]
    });
    if s.len() == 0 {
        assert(s.push(c).skip(1) =~= Seq::<u8>::empty());
        assert(escaped(Seq::<u8>::empty()) =~= Seq::<u8>::empty());
        assert(escaped(s.push(c)) =~= escaped(s) + esc_byte(c));
    } else {
        assert(s.push(c).skip(1) =~= s.skip(1).push(c));
        lemma_escaped_snoc(s.skip(1), c);
        assert(escaped(s.push(c)) =~= escaped(s) + esc_byte(c));
    }
}

/// Escapes a byte string for a JSON string literal.
pub fn escape(b: &Vec<u8>) -> (r: Vec<u8>)
    ensures
        r@ == escaped(b@),
{
    let mut r: Vec<u8> = Vec::new();
    let mut i: usize = 0;
    proof {
        assert(b@.subrange(0, 0) =~= Seq::<u8>::empty());
        assert(r@ =~= escaped(b@.subrange(0, 0)));
    }
    while i < b.len()
        invariant
            i <= b@.len(),
            r@ == escaped(b@.subrange(0, i as int)),
        decreases b@.len() - i,
    {
        let c = b[i];
        proof {
            lemma_escaped_snoc(b@.subrange(0, i as int), c);
            assert(b@.subrange(0, i + 1) =~= b@.subrange(0, i as int).push(c));
        }
        if c == 34 {
            r.push(92);
            r.push(34);
        } else if c == 92 {
            r.push(92);
            r.push(92);
        } else if c < 32 {
            r.push(92);
            r.push(117);
            r.push(48);
            r.push(48);
            let hi = c / 16;
            let lo = c % 16;
            r.push(if hi < 10 {
                48 + hi
            } else {
                87 + hi
            });
            r.push(if lo < 10 {
                48 + lo
            } else {
                87 + lo
            });
        } else {
            r.push(c);
        }
        proof {
            assert(r@ =~= escaped(b@.subrange(0, i + 1)));
        }
        i = i + 1;
    }
    proof {
        assert(b@.subrange(0, b@.len() as int) =~= b@);
    }
    r
}

/// The success envelope: `{"ok":<payload>}`.
pub open spec fn ok_envelope(payload: Seq<u8>) -> Seq<u8> {
    seq![123u8, 34u8, 111u8, 107u8, 34u8, 58u8] + payload + seq![125u8]
}

/// The error envelope: `{"err":"<escaped message>"}`.
pub open spec fn err_envelope(msg: Seq<u8>) -> Seq<u8> {
    seq![123u8, 34u8, 101u8, 114u8, 114u8, 34u8, 58u8, 34u8] + escaped(msg) + seq![34u8, 125u8]
}

/// Every dispatched entry point returns one of the two envelope shapes.
pub open spec fn is_envelope(b: Seq<u8>) -> bool {
    (exists|p: Seq<u8>| b == ok_envelope(p)) || (exists|m: Seq<u8>| b == err_envelope(m))
}

/// Builds `{"ok":<payload>}`.
pub fn make_ok_envelope(payload: &Vec<u8>) -> (r: Vec<u8>)
    ensures
        r@ == ok_envelope(payload@),
{
    let mut r: Vec<u8> = Vec::new();
    r.push(123);
    r.push(34);
    r.push(111);
    r.push(107);
    r.push(34);
    r.push(58);
    r.extend_from_slice(payload.as_slice());
    r.push(125);
    proof {
        assert(r@ =~= ok_envelope(payload@));
    }
    r
}

/// Builds `{"err":"<escaped message>"}`.
pub fn make_err_envelope(msg: &Vec<u8>) -> (r: Vec<u8>)
    ensures
        r@ == err_envelope(msg@),
{
    let mut r: Vec<u8> = Vec::new();
    r.push(123);
    r.push(34);
    r.push(101);
    r.push(114);
    r.push(114);
    r.push(34);
    r.push(58);
    r.push(34);
    let esc = escape(msg);
    r.extend_from_slice(esc.as_slice());
    r.push(34);
    r.push(125);
    proof {
        assert(r@ =~= err_envelope(msg@));
    }
    r
}

/// A message type readable from the textual boundary encoding.
pub trait JsonDe: Sized {
    /// What the message bytes denote, if anything.
    spec fn parse_spec(b: Seq<u8>) -> Option<Self>;

    /// Parse a message; fails exactly on bytes that denote no message.
    fn from_json(b: &Vec<u8>) -> (r: Result<Self, StdError>)
        ensures
            match r {
                Ok(m) => Self::parse_spec(b@) == Some(m),
                Err(e) => Self::parse_spec(b@) is None && e is Encoding,
            },
    ;
}

/// A result type writable to the textual boundary encoding.
pub trait JsonSer {
    /// The JSON text of the value.
    spec fn json_spec(&self) -> Seq<u8>;

    /// Serialize the value.
    fn to_json(&self) -> (r: Vec<u8>)
        ensures
            r@ == self.json_spec(),
    ;
}

/// A message with no payload. It is denoted by any JSON object, matching the
/// boundary convention for hooks that take no arguments.
#[derive(Clone, Copy, PartialEq, Eq, Structural, Debug)]
pub struct Empty {}

/// Whether serde_json reads the bytes as a JSON object.
pub uninterp spec fn json_is_object_spec(b: Seq<u8>) -> bool;

/// Relies on serde_json::from_slice for `Value`: decides whether the bytes
/// form a JSON object; the answer depends on the bytes alone.
#[verifier::external_body]
fn json_is_object(b: &Vec<u8>) -> (r: bool)
    ensures
        r == json_is_object_spec(b@),
{
    match serde_json::from_slice::<serde_json::Value>(b.as_slice()) {
        Ok(v) => v.is_object(),
        Err(_) => false,
    }
}

impl JsonDe for Empty {
    open spec fn parse_spec(b: Seq<u8>) -> Option<Empty> {
        if json_is_object_spec(b) {
            Some(Empty {  })
        } else {
            None
        }
    }

    fn from_json(b: &Vec<u8>) -> (r: Result<Self, StdError>) {
        if json_is_object(b) {
            Ok(Empty {  })
        } else {
            Err(StdError::Encoding)
        }
    }
}

/// One key/value attribute a contract emits with its response.
pub struct Attribute {
    pub key: String,
    pub value: String,
}

impl Attribute {
    /// `{"key":"<k>","value":"<v>"}`.
    pub open spec fn json_spec(&self) -> Seq<u8> {
        seq![123u8, 34u8, 107u8, 101u8, 121u8, 34u8, 58u8, 34u8] + escaped(
            vstd::utf8::encode_utf8(self.key@),
        ) + seq![34u8, 44u8, 34u8, 118u8, 97u8, 108u8, 117u8, 101u8, 34u8, 58u8, 34u8] + escaped(
            vstd::utf8::encode_utf8(self.value@),
        ) + seq![34u8, 125u8]
    }

    fn to_json(&self) -> (r: Vec<u8>)
        ensures
            r@ == self.json_spec(),
    {
        let mut r: Vec<u8> = Vec::new();
        r.push(123);
        r.push(34);
        r.push(107);
        r.push(101);
        r.push(121);
        r.push(34);
        r.push(58);
        r.push(34);
        let k = escape(&self.key.as_str().as_bytes_vec());
        r.extend_from_slice(k.as_slice());
        r.push(34);
        r.push(44);
        r.push(34);
        r.push(118);
        r.push(97);
        r.push(108);
        r.push(117);
        r.push(101);
        r.push(34);
        r.push(58);
        r.push(34);
        let v = escape(&self.value.as_str().as_bytes_vec());
        r.extend_from_slice(v.as_slice());
        r.push(34);
        r.push(125);
        proof {
            assert(r@ =~= self.json_spec());
        }
        r
    }
}

/// What a state-changing hook hands back: the attributes to record.
pub struct Response {
    pub attributes: Vec<Attribute>,
}

/// The comma-joined JSON texts of the attributes.
pub open spec fn attrs_json(s: Seq<Attribute>) -> Seq<u8>
    decreases s.len(),
{
    if s.len() == 0 {
        Seq::empty()
    } else if s.len() == 1 {
        s[0].json_spec()
    } else {
        s[0].json_spec() + seq![44u8] + attrs_json(s.skip(1))
    }
}

pub proof fn lemma_attrs_json_snoc(s: Seq<Attribute>, a: Attribute)
    ensures
        attrs_json(s.push(a)) == if s.len() == 0 {
            a.json_spec()
        } else {
            attrs_json(s) + seq![44u8] + a.json_spec()
        },
    decreases s.len(),
{
    let t = s.push(a);
    assert(t[0] == if s.len() == 0 {
        a
    } else {
        s[0]
    });
    if s.len() == 0 {
    } else {
        assert(t.skip(1) =~= s.skip(1).push(a));
        lemma_attrs_json_snoc(s.skip(1), a);
        if s.len() == 1 {
            assert(s.skip(1).len() == 0);
            assert(attrs_json(t) =~= attrs_json(s) + seq![44u8] + a.json_spec());
        } else {
            assert(attrs_json(t) =~= attrs_json(s) + seq![44u8] + a.json_spec());
        }
    }
}

impl Response {
    pub fn new() -> (r: Response)
        ensures
            r.attributes@.len() == 0,
    {
        Response { attributes: Vec::new() }
    }

    /// Appends one attribute, builder style.
    pub fn add_attribute(self, key: String, value: String) -> (r: Response)
        ensures
            r.attributes@ == self.attributes@.push(Attribute { key, value }),
    {
        let mut r = self;
        r.attributes.push(Attribute { key, value });
        r
    }
}

impl JsonSer for Response {
    /// `{"attributes":[...]}`.
    open spec fn json_spec(&self) -> Seq<u8> {
        seq![
            123u8,
            34u8,
            97u8,
            116u8,
            116u8,
            114u8,
            105u8,
            98u8,
            117u8,
            116u8,
            101u8,
            115u8,
            34u8,
            58u8,
            91u8,
        ] + attrs_json(self.attributes@) + seq![93u8, 125u8]
    }

    fn to_json(&self) -> (r: Vec<u8>) {
        let mut body: Vec<u8> = Vec::new();
        let mut i: usize = 0;
        proof {
            assert(self.attributes@.subrange(0, 0) =~= Seq::<Attribute>::empty());
            assert(body@ =~= attrs_json(self.attributes@.subrange(0, 0)));
        }
        while i < self.attributes.len()
            invariant
                i <= self.attributes@.len(),
                body@ == attrs_json(self.attributes@.subrange(0, i as int)),
            decreases self.attributes@.len() - i,
        {
            proof {
                lemma_attrs_json_snoc(
                    self.attributes@.subrange(0, i as int),
                    self.attributes@[i as int],
                );
                assert(self.attributes@.subrange(0, i + 1) =~= self.attributes@.subrange(
                    0,
                    i as int,
                ).push(self.attributes@[i as int]));
            }
            if i > 0 {
                body.push(44);
            }
            let aj = self.attributes[i].to_json();
            body.extend_from_slice(aj.as_slice());
            proof {
                assert(body@ =~= attrs_json(self.attributes@.subrange(0, i + 1)));
            }
            i = i + 1;
        }
        proof {
            assert(self.attributes@.subrange(0, self.attributes@.len() as int)
                =~= self.attributes@);
        }
        let mut r: Vec<u8> = Vec::new();
        r.push(123);
        r.push(34);
        r.push(97);
        r.push(116);
        r.push(116);
        r.push(114);
        r.push(105);
        r.push(98);
        r.push(117);
        r.push(116);
        r.push(101);
        r.push(115);
        r.push(34);
        r.push(58);
        r.push(91);
        r.extend_from_slice(body.as_slice());
        r.push(93);
        r.push(125);
        proof {
            assert(r@ =~= self.json_spec());
        }
        r
    }
}

} // verus!
