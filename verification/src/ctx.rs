//! The per-call execution context and its compact binary schema: every field
//! laid down in fixed big-endian form, byte strings with a four-byte length
//! prefix, options as a one-byte tag. The schema is the bit-exact contract
//! between host and guest for the context buffer.

use vstd::prelude::*;
use crate::keys::{be_bytes, be_encode, be_decode, lemma_be_val_bound, lemma_be_val_inverse,
    lemma_pow256};
use crate::err::StdError;

verus! {

/// The ephemeral execution context: built fresh from the context buffer on
/// every entry, never persisted.
pub struct Context {
    /// The chain identifier, as raw bytes.
    pub chain_id: Vec<u8>,
    /// Height of the block the call executes in.
    pub block_height: u64,
    /// Timestamp of that block.
    pub block_timestamp: u64,
    /// The address of the contract being called.
    pub contract: Vec<u8>,
    /// The caller address; absent for system-originated calls.
    pub sender: Option<Vec<u8>>,
}

/// A length-prefixed byte string: four big-endian length bytes, then the
/// bytes.
pub open spec fn lp_bytes(b: Seq<u8>) -> Seq<u8> {
    be_bytes(b.len(), 4) + b
}

/// An optional byte string: a zero tag, or a one tag and the string.
pub open spec fn opt_bytes(o: Option<Vec<u8>>) -> Seq<u8> {
    match o {
        None => seq![0u8],
        Some(b) => seq![1u8] + lp_bytes(b@),
    }
}

/// The fixed binary schema of the context.
pub open spec fn ctx_bytes(c: Context) -> Seq<u8> {
    lp_bytes(c.chain_id@) + be_bytes(c.block_height as nat, 8) + be_bytes(
        c.block_timestamp as nat,
        8,
    ) + lp_bytes(c.contract@) + opt_bytes(c.sender)
}

/// Every length fits the four-byte prefix.
pub open spec fn ctx_wf(c: Context) -> bool {
    &&& c.chain_id@.len() <= 0xffffffff
    &&& c.contract@.len() <= 0xffffffff
    &&& match c.sender {
        Some(s) => s@.len() <= 0xffffffff,
        None => true,
    }
}

/// A copy of `b[from..to]`.
fn copy_range(b: &Vec<u8>, from: usize, to: usize) -> (r: Vec<u8>)
    requires
        from <= to <= b@.len(),
    ensures
        r@ == b@.subrange(from as int, to as int),
{
    let mut r: Vec<u8> = Vec::new();
    let mut i: usize = from;
    proof {
        assert(r@ =~= b@.subrange(from as int, from as int));
    }
    while i < to
        invariant
            from <= i <= to <= b@.len(),
            r@ == b@.subrange(from as int, i as int),
        decreases to - i,
    {
        r.push(b[i]);
        proof {
            assert(r@ =~= b@.subrange(from as int, i + 1));
        }
        i = i + 1;
    }
    r
}

/// Serializes the context into its binary schema.
pub fn serialize_ctx(c: &Context) -> (r: Vec<u8>)
    requires
        ctx_wf(*c),
    ensures
        r@ == ctx_bytes(*c),
{
    let mut r: Vec<u8> = Vec::new();
    let l1 = be_encode(c.chain_id.len() as u128, 4);
    r.extend_from_slice(l1.as_slice());
    r.extend_from_slice(c.chain_id.as_slice());
    let h = be_encode(c.block_height as u128, 8);
    r.extend_from_slice(h.as_slice());
    let t = be_encode(c.block_timestamp as u128, 8);
    r.extend_from_slice(t.as_slice());
    let l2 = be_encode(c.contract.len() as u128, 4);
    r.extend_from_slice(l2.as_slice());
    r.extend_from_slice(c.contract.as_slice());
    match &c.sender {
        None => {
            r.push(0);
        },
        Some(s) => {
            r.push(1);
            let l3 = be_encode(s.len() as u128, 4);
            r.extend_from_slice(l3.as_slice());
            r.extend_from_slice(s.as_slice());
        },
    }
    proof {
        assert(r@ =~= ctx_bytes(*c));
    }
    r
}

/// Component layout of a well-formed context's bytes: minimum length, the
/// position of every length prefix, and the sender tag. What the
/// completeness direction of parsing rests on.
pub proof fn lemma_ctx_bytes_shape(c: Context)
    requires
        ctx_wf(c),
    ensures
        ({
            let bb = ctx_bytes(c);
            let n1 = c.chain_id@.len() as int;
            let n2 = c.contract@.len() as int;
            let p3 = 24 + n1 + n2;
            &&& bb.len() >= p3 + 1
            &&& bb.subrange(0, 4) == be_bytes(c.chain_id@.len(), 4)
            &&& bb.subrange(20 + n1, 24 + n1) == be_bytes(c.contract@.len(), 4)
            &&& (bb[p3] == 0 || bb[p3] == 1)
            &&& (bb[p3] == 0 <==> c.sender is None)
            &&& (c.sender is None ==> bb.len() == p3 + 1)
            &&& match c.sender {
                None => true,
                Some(s) => bb.subrange(p3 + 1, p3 + 5) == be_bytes(s@.len(), 4) && bb.len() == p3
                    + 5 + s@.len(),
            }
        }),
{
    let bb = ctx_bytes(c);
    let n1 = c.chain_id@.len() as int;
    let n2 = c.contract@.len() as int;
    let p3 = 24 + n1 + n2;
    crate::keys::lemma_be_bytes_len(c.chain_id@.len(), 4);
    crate::keys::lemma_be_bytes_len(c.block_height as nat, 8);
    crate::keys::lemma_be_bytes_len(c.block_timestamp as nat, 8);
    crate::keys::lemma_be_bytes_len(c.contract@.len(), 4);
    assert(bb.subrange(0, 4) =~= be_bytes(c.chain_id@.len(), 4));
    assert(bb.subrange(20 + n1, 24 + n1) =~= be_bytes(c.contract@.len(), 4));
    match c.sender {
        None => {
            assert(bb =~= bb.subrange(0, p3) + seq![0u8]);
            assert(bb[p3] == 0);
        },
        Some(s) => {
            crate::keys::lemma_be_bytes_len(s@.len(), 4);
            assert(bb[p3] == 1);
            assert(bb.subrange(p3 + 1, p3 + 5) =~= be_bytes(s@.len(), 4));
        },
    }
}

/// Parses a context from its binary schema. Sound and complete: whatever it
/// accepts is the exact serialization of the returned context (trailing
/// bytes rejected), and whatever it rejects is the serialization of no
/// well-formed context.
#[verifier::rlimit(100)]
#[verifier::spinoff_prover]
pub fn parse_ctx(b: &Vec<u8>) -> (r: Result<Context, StdError>)
    ensures
        match r {
            Ok(c) => ctx_bytes(c) == b@ && ctx_wf(c),
            Err(e) => e is Encoding && (forall|c: Context|
                ctx_wf(c) ==> #[trigger] ctx_bytes(c) != b@),
        },
{
    let n = b.len();
    let mut pos: usize = 0;
    // chain_id
    if n - pos < 4 {
        proof {
            assert forall|c: Context| ctx_wf(c) implies #[trigger] ctx_bytes(c) != b@ by {
                lemma_ctx_bytes_shape(c);
            }
        }
        return Err(StdError::Encoding);
    }
    let l1v = copy_range(b, pos, pos + 4);
    let l1 = be_decode(&l1v);
    proof {
        lemma_be_val_bound(l1v@);
        lemma_pow256(4);
    }
    let l1 = l1 as usize;
    if n - (pos + 4) < l1 {
        proof {
            assert forall|c: Context| ctx_wf(c) implies #[trigger] ctx_bytes(c) != b@ by {
                if ctx_bytes(c) == b@ {
                    lemma_ctx_bytes_shape(c);
                    crate::keys::lemma_be_roundtrip(c.chain_id@.len(), 4);
                    assert(l1 as nat == c.chain_id@.len());
                }
            }
        }
        return Err(StdError::Encoding);
    }
    let chain_id = copy_range(b, pos + 4, pos + 4 + l1);
    proof {
        lemma_be_val_inverse(l1v@, 4);
        assert(lp_bytes(chain_id@) =~= b@.subrange(pos as int, pos + 4 + l1));
    }
    let ghost seg1 = b@.subrange(pos as int, pos + 4 + l1);
    let pos = pos + 4 + l1;
    // the remaining failure proofs all need: any well-formed context whose
    // bytes are `b` has a chain id of exactly `l1` bytes.
    proof {
        assert forall|c: Context| ctx_wf(c) && ctx_bytes(c) == b@ implies c.chain_id@.len()
            == l1 as nat by {
            lemma_ctx_bytes_shape(c);
            crate::keys::lemma_be_roundtrip(c.chain_id@.len(), 4);
        }
    }
    // block height
    if n - pos < 8 {
        proof {
            assert forall|c: Context| ctx_wf(c) implies #[trigger] ctx_bytes(c) != b@ by {
                if ctx_bytes(c) == b@ {
                    lemma_ctx_bytes_shape(c);
                }
            }
        }
        return Err(StdError::Encoding);
    }
    let hv = copy_range(b, pos, pos + 8);
    let h = be_decode(&hv);
    proof {
        lemma_be_val_bound(hv@);
        lemma_pow256(8);
        lemma_be_val_inverse(hv@, 8);
    }
    let block_height = h as u64;
    let ghost seg2 = b@.subrange(pos as int, pos + 8);
    let pos = pos + 8;
    // block timestamp
    if n - pos < 8 {
        proof {
            assert forall|c: Context| ctx_wf(c) implies #[trigger] ctx_bytes(c) != b@ by {
                if ctx_bytes(c) == b@ {
                    lemma_ctx_bytes_shape(c);
                }
            }
        }
        return Err(StdError::Encoding);
    }
    let tv = copy_range(b, pos, pos + 8);
    let t = be_decode(&tv);
    proof {
        lemma_be_val_bound(tv@);
        lemma_pow256(8);
        lemma_be_val_inverse(tv@, 8);
    }
    let block_timestamp = t as u64;
    let ghost seg3 = b@.subrange(pos as int, pos + 8);
    let pos = pos + 8;
    // contract
    if n - pos < 4 {
        proof {
            assert forall|c: Context| ctx_wf(c) implies #[trigger] ctx_bytes(c) != b@ by {
                if ctx_bytes(c) == b@ {
                    lemma_ctx_bytes_shape(c);
                }
            }
        }
        return Err(StdError::Encoding);
    }
    let l2v = copy_range(b, pos, pos + 4);
    let l2 = be_decode(&l2v);
    proof {
        lemma_be_val_bound(l2v@);
        lemma_pow256(4);
    }
    let l2 = l2 as usize;
    if n - (pos + 4) < l2 {
        proof {
            assert forall|c: Context| ctx_wf(c) implies #[trigger] ctx_bytes(c) != b@ by {
                if ctx_bytes(c) == b@ {
                    lemma_ctx_bytes_shape(c);
                    crate::keys::lemma_be_roundtrip(c.contract@.len(), 4);
                    assert(l2 as nat == c.contract@.len());
                }
            }
        }
        return Err(StdError::Encoding);
    }
    let contract = copy_range(b, pos + 4, pos + 4 + l2);
    proof {
        lemma_be_val_inverse(l2v@, 4);
        assert(lp_bytes(contract@) =~= b@.subrange(pos as int, pos + 4 + l2));
    }
    let ghost seg4 = b@.subrange(pos as int, pos + 4 + l2);
    let pos = pos + 4 + l2;
    // and likewise: its contract address has exactly `l2` bytes, so the
    // sender tag of any candidate sits exactly at `pos`.
    proof {
        assert forall|c: Context| ctx_wf(c) && ctx_bytes(c) == b@ implies c.contract@.len()
            == l2 as nat by {
            lemma_ctx_bytes_shape(c);
            crate::keys::lemma_be_roundtrip(c.contract@.len(), 4);
        }
    }
    // sender
    if n - pos < 1 {
        proof {
            assert forall|c: Context| ctx_wf(c) implies #[trigger] ctx_bytes(c) != b@ by {
                if ctx_bytes(c) == b@ {
                    lemma_ctx_bytes_shape(c);
                }
            }
        }
        return Err(StdError::Encoding);
    }
    let tag = b[pos];
    if tag == 0 {
        if pos + 1 != n {
            proof {
                assert forall|c: Context| ctx_wf(c) implies #[trigger] ctx_bytes(c) != b@ by {
                    if ctx_bytes(c) == b@ {
                        lemma_ctx_bytes_shape(c);
                    }
                }
            }
            return Err(StdError::Encoding);
        }
        let c = Context { chain_id, block_height, block_timestamp, contract, sender: None };
        proof {
            assert(opt_bytes(c.sender) =~= b@.subrange(pos as int, n as int));
            assert(ctx_bytes(c) =~= seg1 + seg2 + seg3 + seg4 + b@.subrange(pos as int, n as int));
            assert(ctx_bytes(c) =~= b@);
        }
        Ok(c)
    } else if tag == 1 {
        if n - (pos + 1) < 4 {
            proof {
                assert forall|c: Context| ctx_wf(c) implies #[trigger] ctx_bytes(c) != b@ by {
                    if ctx_bytes(c) == b@ {
                        lemma_ctx_bytes_shape(c);
                    }
                }
            }
            return Err(StdError::Encoding);
        }
        let l3v = copy_range(b, pos + 1, pos + 5);
        let l3 = be_decode(&l3v);
        proof {
            lemma_be_val_bound(l3v@);
            lemma_pow256(4);
        }
        let l3 = l3 as usize;
        if n - (pos + 5) != l3 {
            proof {
                assert forall|c: Context| ctx_wf(c) implies #[trigger] ctx_bytes(c) != b@ by {
                    if ctx_bytes(c) == b@ {
                        lemma_ctx_bytes_shape(c);
                        match c.sender {
                            None => {},
                            Some(s) => {
                                crate::keys::lemma_be_roundtrip(s@.len(), 4);
                                assert(l3 as nat == s@.len());
                            },
                        }
                    }
                }
            }
            return Err(StdError::Encoding);
        }
        let sender = copy_range(b, pos + 5, pos + 5 + l3);
        let c = Context {
            chain_id,
            block_height,
            block_timestamp,
            contract,
            sender: Some(sender),
        };
        proof {
            lemma_be_val_inverse(l3v@, 4);
            assert(opt_bytes(c.sender) =~= b@.subrange(pos as int, n as int));
            assert(ctx_bytes(c) =~= seg1 + seg2 + seg3 + seg4 + b@.subrange(pos as int, n as int));
            assert(ctx_bytes(c) =~= b@);
        }
        Ok(c)
    } else {
        proof {
            assert forall|c: Context| ctx_wf(c) implies #[trigger] ctx_bytes(c) != b@ by {
                if ctx_bytes(c) == b@ {
                    lemma_ctx_bytes_shape(c);
                }
            }
        }
        Err(StdError::Encoding)
    }
}

} // verus!
