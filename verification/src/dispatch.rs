//! The entry-point dispatchers: one adapter per contract lifecycle hook.
//! Each consumes its buffers, deserializes the context from the binary
//! schema and the message from the textual encoding, builds a
//! capability-scoped context, invokes the handler, and wraps the outcome —
//! success or application error — in the result envelope. No failure mode
//! escapes as a fault: malformed context bytes, malformed message bytes and
//! handler errors all come back inside a well-formed envelope; and on
//! well-formed inputs the result is owed to be a wrapped handler outcome.

use vstd::prelude::*;
use vstd::string::*;
use crate::buffer::Region;
use crate::ctx::{Context, ctx_bytes, ctx_wf, parse_ctx};
use crate::json::{
    JsonDe, JsonSer, Response, ok_envelope, err_envelope, is_envelope, make_ok_envelope,
    make_err_envelope,
};
use crate::bound::Order;
use crate::querier::Querier;
use crate::store::{Storage, Entries, lookup, scan_post, opt_view};
use crate::err::StdError;

verus! {

/// Read-only access to a storage capability: only the reading operations are
/// reachable through it, so the type itself — not a convention — keeps a
/// query handler from being handed write access.
pub struct ReadonlyStorage<S> {
    inner: S,
}

/// The read-only wrapping of a storage value.
pub closed spec fn readonly<S>(storage: S) -> ReadonlyStorage<S> {
    ReadonlyStorage { inner: storage }
}

impl<S: Storage> ReadonlyStorage<S> {
    /// The abstract contents, as for the wrapped capability.
    pub closed spec fn view(&self) -> Entries {
        self.inner.view()
    }

    pub closed spec fn wf(&self) -> bool {
        self.inner.wf()
    }

    pub fn new(inner: S) -> (r: Self)
        ensures
            r == readonly(inner),
    {
        ReadonlyStorage { inner }
    }

    /// Read the value under a raw key.
    pub fn get(&self, key: &Vec<u8>) -> (r: Option<Vec<u8>>)
        requires
            self.wf(),
        ensures
            match r {
                Some(v) => lookup(self.view(), key@) == Some(v@),
                None => lookup(self.view(), key@) is None,
            },
    {
        self.inner.get(key)
    }

    /// Enumerate the entries in a raw range, as for the wrapped capability.
    pub fn scan(&self, min: Option<&Vec<u8>>, max: Option<&Vec<u8>>, order: Order) -> (r: Vec<
        (Vec<u8>, Vec<u8>),
    >)
        requires
            self.wf(),
        ensures
            scan_post(self.view(), opt_view(min), opt_view(max), order, r@),
    {
        self.inner.scan(min, max, order)
    }
}

/// Wrapping is transparent to the model: same contents, same invariant.
pub proof fn lemma_readonly<S: Storage>(storage: S)
    ensures
        readonly(storage).view() == storage.view(),
        readonly(storage).wf() == storage.wf(),
{
}

/// Read-write scope: state-changing hooks run under it.
pub struct MutableCtx<S, Q> {
    pub base: Context,
    pub storage: S,
    pub querier: Q,
}

/// Read-only scope for query hooks: the storage arrives behind
/// `ReadonlyStorage`, which exposes no writing operation.
pub struct ImmutableCtx<S, Q> {
    pub base: Context,
    pub storage: ReadonlyStorage<S>,
    pub querier: Q,
}

/// Elevated system scope: storage access with no sender-identity assumptions.
pub struct SudoCtx<S, Q> {
    pub base: Context,
    pub storage: S,
    pub querier: Q,
}

/// Authentication scope for transaction hooks, which receive the full
/// transaction being validated as their message.
pub struct AuthCtx<S, Q> {
    pub base: Context,
    pub storage: S,
    pub querier: Q,
}

/// The envelope a handler outcome is wrapped in.
pub open spec fn result_envelope(out: Result<Response, String>) -> Seq<u8> {
    match out {
        Ok(resp) => ok_envelope(resp.json_spec()),
        Err(m) => err_envelope(vstd::utf8::encode_utf8(m@)),
    }
}

/// The envelope reporting malformed context or message bytes.
pub open spec fn encoding_err_envelope() -> Seq<u8> {
    err_envelope(vstd::utf8::encode_utf8("invalid encoding"@))
}

/// Some well-formed context serializes to these bytes.
pub open spec fn ctx_parses(b: Seq<u8>) -> bool {
    exists|c: Context| ctx_wf(c) && #[trigger] ctx_bytes(c) == b
}

/// Wraps a handler outcome into the result envelope.
fn wrap_result(out: &Result<Response, String>) -> (r: Vec<u8>)
    ensures
        r@ == result_envelope(*out),
        is_envelope(r@),
{
    let r = match out {
        Ok(resp) => {
            let payload = resp.to_json();
            make_ok_envelope(&payload)
        },
        Err(m) => make_err_envelope(&m.as_str().as_bytes_vec()),
    };
    proof {
        match out {
            Ok(resp) => {
                assert(r@ == ok_envelope(resp.json_spec()));
            },
            Err(m) => {
                assert(r@ == err_envelope(vstd::utf8::encode_utf8(m@)));
            },
        }
    }
    r
}

/// The envelope for malformed input bytes.
fn encoding_failure() -> (r: Vec<u8>)
    ensures
        r@ == encoding_err_envelope(),
        is_envelope(r@),
{
    let msg = StdError::Encoding.message();
    let r = make_err_envelope(&msg.as_str().as_bytes_vec());
    proof {
        assert(r@ == err_envelope(vstd::utf8::encode_utf8("invalid encoding"@)));
    }
    r
}

/// Dispatches the initialize hook under read-write scope.
#[verifier::rlimit(100)]
pub fn do_instantiate<S: Storage, Q: Querier, M: JsonDe, F: FnOnce(MutableCtx<S, Q>, M) -> Result<
    Response,
    String,
>>(instantiate_fn: F, storage: S, querier: Q, ctx_buf: Region, msg_buf: Region) -> (r: Vec<u8>)
    requires
        forall|c: MutableCtx<S, Q>, m: M| #[trigger] call_requires(instantiate_fn, (c, m)),
    ensures
        is_envelope(r@),
        M::parse_spec(msg_buf.view_spec()) is None ==> r@ == encoding_err_envelope(),
        M::parse_spec(msg_buf.view_spec()) is Some && r@ != encoding_err_envelope() ==> exists|
            c: Context,
            out: Result<Response, String>,
        |
            ctx_wf(c) && ctx_bytes(c) == ctx_buf.view_spec() && #[trigger] call_ensures(
                instantiate_fn,
                ((MutableCtx { base: c, storage, querier }), M::parse_spec(
                    msg_buf.view_spec(),
                )->Some_0),
                out,
            ) && r@ == result_envelope(out),
        // on well-formed inputs the handler's outcome is owed
        ctx_parses(ctx_buf.view_spec()) && M::parse_spec(msg_buf.view_spec()) is Some ==> exists|
            c: Context,
            out: Result<Response, String>,
        |
            ctx_wf(c) && ctx_bytes(c) == ctx_buf.view_spec() && #[trigger] call_ensures(
                instantiate_fn,
                ((MutableCtx { base: c, storage, querier }), M::parse_spec(
                    msg_buf.view_spec(),
                )->Some_0),
                out,
            ) && r@ == result_envelope(out),
{
    let ctx_raw = ctx_buf.consume();
    let msg_raw = msg_buf.consume();
    let base = match parse_ctx(&ctx_raw) {
        Ok(c) => c,
        Err(_) => {
            proof {
                assert(!ctx_parses(ctx_buf.view_spec()));
            }
            return encoding_failure();
        },
    };
    let msg = match M::from_json(&msg_raw) {
        Ok(m) => m,
        Err(_) => {
            return encoding_failure();
        },
    };
    let ghost gbase = base;
    let ghost gmsg = msg;
    let ctx = MutableCtx { base, storage: storage, querier };
    let out = instantiate_fn(ctx, msg);
    let r = wrap_result(&out);
    proof {
        assert(gmsg == M::parse_spec(msg_buf.view_spec())->Some_0);
        assert(call_ensures(
            instantiate_fn,
            ((MutableCtx { base: gbase, storage, querier }), M::parse_spec(
                msg_buf.view_spec(),
            )->Some_0),
            out,
        ));
        assert(exists|c: Context, o: Result<Response, String>|
            ctx_wf(c) && ctx_bytes(c) == ctx_buf.view_spec() && #[trigger] call_ensures(
                instantiate_fn,
                ((MutableCtx { base: c, storage, querier }), M::parse_spec(
                    msg_buf.view_spec(),
                )->Some_0),
                o,
            ) && r@ == result_envelope(o));
    }
    r
}

/// Dispatches the execute hook under read-write scope.
#[verifier::rlimit(100)]
pub fn do_execute<S: Storage, Q: Querier, M: JsonDe, F: FnOnce(MutableCtx<S, Q>, M) -> Result<
    Response,
    String,
>>(execute_fn: F, storage: S, querier: Q, ctx_buf: Region, msg_buf: Region) -> (r: Vec<u8>)
    requires
        forall|c: MutableCtx<S, Q>, m: M| #[trigger] call_requires(execute_fn, (c, m)),
    ensures
        is_envelope(r@),
        M::parse_spec(msg_buf.view_spec()) is None ==> r@ == encoding_err_envelope(),
        M::parse_spec(msg_buf.view_spec()) is Some && r@ != encoding_err_envelope() ==> exists|
            c: Context,
            out: Result<Response, String>,
        |
            ctx_wf(c) && ctx_bytes(c) == ctx_buf.view_spec() && #[trigger] call_ensures(
                execute_fn,
                ((MutableCtx { base: c, storage, querier }), M::parse_spec(
                    msg_buf.view_spec(),
                )->Some_0),
                out,
            ) && r@ == result_envelope(out),
        // on well-formed inputs the handler's outcome is owed
        ctx_parses(ctx_buf.view_spec()) && M::parse_spec(msg_buf.view_spec()) is Some ==> exists|
            c: Context,
            out: Result<Response, String>,
        |
            ctx_wf(c) && ctx_bytes(c) == ctx_buf.view_spec() && #[trigger] call_ensures(
                execute_fn,
                ((MutableCtx { base: c, storage, querier }), M::parse_spec(
                    msg_buf.view_spec(),
                )->Some_0),
                out,
            ) && r@ == result_envelope(out),
{
    let ctx_raw = ctx_buf.consume();
    let msg_raw = msg_buf.consume();
    let base = match parse_ctx(&ctx_raw) {
        Ok(c) => c,
        Err(_) => {
            proof {
                assert(!ctx_parses(ctx_buf.view_spec()));
            }
            return encoding_failure();
        },
    };
    let msg = match M::from_json(&msg_raw) {
        Ok(m) => m,
        Err(_) => {
            return encoding_failure();
        },
    };
    let ghost gbase = base;
    let ghost gmsg = msg;
    let ctx = MutableCtx { base, storage: storage, querier };
    let out = execute_fn(ctx, msg);
    let r = wrap_result(&out);
    proof {
        assert(gmsg == M::parse_spec(msg_buf.view_spec())->Some_0);
        assert(call_ensures(
            execute_fn,
            ((MutableCtx { base: gbase, storage, querier }), M::parse_spec(
                msg_buf.view_spec(),
            )->Some_0),
            out,
        ));
        assert(exists|c: Context, o: Result<Response, String>|
            ctx_wf(c) && ctx_bytes(c) == ctx_buf.view_spec() && #[trigger] call_ensures(
                execute_fn,
                ((MutableCtx { base: c, storage, querier }), M::parse_spec(
                    msg_buf.view_spec(),
                )->Some_0),
                o,
            ) && r@ == result_envelope(o));
    }
    r
}

/// Dispatches the migrate hook under read-write scope.
#[verifier::rlimit(100)]
pub fn do_migrate<S: Storage, Q: Querier, M: JsonDe, F: FnOnce(MutableCtx<S, Q>, M) -> Result<
    Response,
    String,
>>(migrate_fn: F, storage: S, querier: Q, ctx_buf: Region, msg_buf: Region) -> (r: Vec<u8>)
    requires
        forall|c: MutableCtx<S, Q>, m: M| #[trigger] call_requires(migrate_fn, (c, m)),
    ensures
        is_envelope(r@),
        M::parse_spec(msg_buf.view_spec()) is None ==> r@ == encoding_err_envelope(),
        M::parse_spec(msg_buf.view_spec()) is Some && r@ != encoding_err_envelope() ==> exists|
            c: Context,
            out: Result<Response, String>,
        |
            ctx_wf(c) && ctx_bytes(c) == ctx_buf.view_spec() && #[trigger] call_ensures(
                migrate_fn,
                ((MutableCtx { base: c, storage, querier }), M::parse_spec(
                    msg_buf.view_spec(),
                )->Some_0),
                out,
            ) && r@ == result_envelope(out),
        // on well-formed inputs the handler's outcome is owed
        ctx_parses(ctx_buf.view_spec()) && M::parse_spec(msg_buf.view_spec()) is Some ==> exists|
            c: Context,
            out: Result<Response, String>,
        |
            ctx_wf(c) && ctx_bytes(c) == ctx_buf.view_spec() && #[trigger] call_ensures(
                migrate_fn,
                ((MutableCtx { base: c, storage, querier }), M::parse_spec(
                    msg_buf.view_spec(),
                )->Some_0),
                out,
            ) && r@ == result_envelope(out),
{
    let ctx_raw = ctx_buf.consume();
    let msg_raw = msg_buf.consume();
    let base = match parse_ctx(&ctx_raw) {
        Ok(c) => c,
        Err(_) => {
            proof {
                assert(!ctx_parses(ctx_buf.view_spec()));
            }
            return encoding_failure();
        },
    };
    let msg = match M::from_json(&msg_raw) {
        Ok(m) => m,
        Err(_) => {
            return encoding_failure();
        },
    };
    let ghost gbase = base;
    let ghost gmsg = msg;
    let ctx = MutableCtx { base, storage: storage, querier };
    let out = migrate_fn(ctx, msg);
    let r = wrap_result(&out);
    proof {
        assert(gmsg == M::parse_spec(msg_buf.view_spec())->Some_0);
        assert(call_ensures(
            migrate_fn,
            ((MutableCtx { base: gbase, storage, querier }), M::parse_spec(
                msg_buf.view_spec(),
            )->Some_0),
            out,
        ));
        assert(exists|c: Context, o: Result<Response, String>|
            ctx_wf(c) && ctx_bytes(c) == ctx_buf.view_spec() && #[trigger] call_ensures(
                migrate_fn,
                ((MutableCtx { base: c, storage, querier }), M::parse_spec(
                    msg_buf.view_spec(),
                )->Some_0),
                o,
            ) && r@ == result_envelope(o));
    }
    r
}

/// Dispatches the query hook under read-only scope.
#[verifier::rlimit(100)]
pub fn do_query<S: Storage, Q: Querier, M: JsonDe, F: FnOnce(ImmutableCtx<S, Q>, M) -> Result<
    Response,
    String,
>>(query_fn: F, storage: S, querier: Q, ctx_buf: Region, msg_buf: Region) -> (r: Vec<u8>)
    requires
        forall|c: ImmutableCtx<S, Q>, m: M| #[trigger] call_requires(query_fn, (c, m)),
    ensures
        is_envelope(r@),
        M::parse_spec(msg_buf.view_spec()) is None ==> r@ == encoding_err_envelope(),
        M::parse_spec(msg_buf.view_spec()) is Some && r@ != encoding_err_envelope() ==> exists|
            c: Context,
            out: Result<Response, String>,
        |
            ctx_wf(c) && ctx_bytes(c) == ctx_buf.view_spec() && #[trigger] call_ensures(
                query_fn,
                ((ImmutableCtx { base: c, storage: readonly(storage), querier }), M::parse_spec(
                    msg_buf.view_spec(),
                )->Some_0),
                out,
            ) && r@ == result_envelope(out),
        // on well-formed inputs the handler's outcome is owed
        ctx_parses(ctx_buf.view_spec()) && M::parse_spec(msg_buf.view_spec()) is Some ==> exists|
            c: Context,
            out: Result<Response, String>,
        |
            ctx_wf(c) && ctx_bytes(c) == ctx_buf.view_spec() && #[trigger] call_ensures(
                query_fn,
                ((ImmutableCtx { base: c, storage: readonly(storage), querier }), M::parse_spec(
                    msg_buf.view_spec(),
                )->Some_0),
                out,
            ) && r@ == result_envelope(out),
{
    let ctx_raw = ctx_buf.consume();
    let msg_raw = msg_buf.consume();
    let base = match parse_ctx(&ctx_raw) {
        Ok(c) => c,
        Err(_) => {
            proof {
                assert(!ctx_parses(ctx_buf.view_spec()));
            }
            return encoding_failure();
        },
    };
    let msg = match M::from_json(&msg_raw) {
        Ok(m) => m,
        Err(_) => {
            return encoding_failure();
        },
    };
    let ghost gbase = base;
    let ghost gmsg = msg;
    let ctx = ImmutableCtx { base, storage: ReadonlyStorage { inner: storage }, querier };
    let out = query_fn(ctx, msg);
    let r = wrap_result(&out);
    proof {
        assert(gmsg == M::parse_spec(msg_buf.view_spec())->Some_0);
        assert(call_ensures(
            query_fn,
            ((ImmutableCtx { base: gbase, storage: readonly(storage), querier }), M::parse_spec(
                msg_buf.view_spec(),
            )->Some_0),
            out,
        ));
        assert(exists|c: Context, o: Result<Response, String>|
            ctx_wf(c) && ctx_bytes(c) == ctx_buf.view_spec() && #[trigger] call_ensures(
                query_fn,
                ((ImmutableCtx { base: c, storage: readonly(storage), querier }), M::parse_spec(
                    msg_buf.view_spec(),
                )->Some_0),
                o,
            ) && r@ == result_envelope(o));
    }
    r
}

/// Dispatches the pre-transaction hook; the message is the transaction being validated.
#[verifier::rlimit(100)]
pub fn do_before_tx<S: Storage, Q: Querier, M: JsonDe, F: FnOnce(AuthCtx<S, Q>, M) -> Result<
    Response,
    String,
>>(before_tx_fn: F, storage: S, querier: Q, ctx_buf: Region, msg_buf: Region) -> (r: Vec<u8>)
    requires
        forall|c: AuthCtx<S, Q>, m: M| #[trigger] call_requires(before_tx_fn, (c, m)),
    ensures
        is_envelope(r@),
        M::parse_spec(msg_buf.view_spec()) is None ==> r@ == encoding_err_envelope(),
        M::parse_spec(msg_buf.view_spec()) is Some && r@ != encoding_err_envelope() ==> exists|
            c: Context,
            out: Result<Response, String>,
        |
            ctx_wf(c) && ctx_bytes(c) == ctx_buf.view_spec() && #[trigger] call_ensures(
                before_tx_fn,
                ((AuthCtx { base: c, storage, querier }), M::parse_spec(
                    msg_buf.view_spec(),
                )->Some_0),
                out,
            ) && r@ == result_envelope(out),
        // on well-formed inputs the handler's outcome is owed
        ctx_parses(ctx_buf.view_spec()) && M::parse_spec(msg_buf.view_spec()) is Some ==> exists|
            c: Context,
            out: Result<Response, String>,
        |
            ctx_wf(c) && ctx_bytes(c) == ctx_buf.view_spec() && #[trigger] call_ensures(
                before_tx_fn,
                ((AuthCtx { base: c, storage, querier }), M::parse_spec(
                    msg_buf.view_spec(),
                )->Some_0),
                out,
            ) && r@ == result_envelope(out),
{
    let ctx_raw = ctx_buf.consume();
    let msg_raw = msg_buf.consume();
    let base = match parse_ctx(&ctx_raw) {
        Ok(c) => c,
        Err(_) => {
            proof {
                assert(!ctx_parses(ctx_buf.view_spec()));
            }
            return encoding_failure();
        },
    };
    let msg = match M::from_json(&msg_raw) {
        Ok(m) => m,
        Err(_) => {
            return encoding_failure();
        },
    };
    let ghost gbase = base;
    let ghost gmsg = msg;
    let ctx = AuthCtx { base, storage: storage, querier };
    let out = before_tx_fn(ctx, msg);
    let r = wrap_result(&out);
    proof {
        assert(gmsg == M::parse_spec(msg_buf.view_spec())->Some_0);
        assert(call_ensures(
            before_tx_fn,
            ((AuthCtx { base: gbase, storage, querier }), M::parse_spec(
                msg_buf.view_spec(),
            )->Some_0),
            out,
        ));
        assert(exists|c: Context, o: Result<Response, String>|
            ctx_wf(c) && ctx_bytes(c) == ctx_buf.view_spec() && #[trigger] call_ensures(
                before_tx_fn,
                ((AuthCtx { base: c, storage, querier }), M::parse_spec(
                    msg_buf.view_spec(),
                )->Some_0),
                o,
            ) && r@ == result_envelope(o));
    }
    r
}

/// Dispatches the post-transaction hook; the message is the finished transaction.
#[verifier::rlimit(100)]
pub fn do_after_tx<S: Storage, Q: Querier, M: JsonDe, F: FnOnce(AuthCtx<S, Q>, M) -> Result<
    Response,
    String,
>>(after_tx_fn: F, storage: S, querier: Q, ctx_buf: Region, msg_buf: Region) -> (r: Vec<u8>)
    requires
        forall|c: AuthCtx<S, Q>, m: M| #[trigger] call_requires(after_tx_fn, (c, m)),
    ensures
        is_envelope(r@),
        M::parse_spec(msg_buf.view_spec()) is None ==> r@ == encoding_err_envelope(),
        M::parse_spec(msg_buf.view_spec()) is Some && r@ != encoding_err_envelope() ==> exists|
            c: Context,
            out: Result<Response, String>,
        |
            ctx_wf(c) && ctx_bytes(c) == ctx_buf.view_spec() && #[trigger] call_ensures(
                after_tx_fn,
                ((AuthCtx { base: c, storage, querier }), M::parse_spec(
                    msg_buf.view_spec(),
                )->Some_0),
                out,
            ) && r@ == result_envelope(out),
        // on well-formed inputs the handler's outcome is owed
        ctx_parses(ctx_buf.view_spec()) && M::parse_spec(msg_buf.view_spec()) is Some ==> exists|
            c: Context,
            out: Result<Response, String>,
        |
            ctx_wf(c) && ctx_bytes(c) == ctx_buf.view_spec() && #[trigger] call_ensures(
                after_tx_fn,
                ((AuthCtx { base: c, storage, querier }), M::parse_spec(
                    msg_buf.view_spec(),
                )->Some_0),
                out,
            ) && r@ == result_envelope(out),
{
    let ctx_raw = ctx_buf.consume();
    let msg_raw = msg_buf.consume();
    let base = match parse_ctx(&ctx_raw) {
        Ok(c) => c,
        Err(_) => {
            proof {
                assert(!ctx_parses(ctx_buf.view_spec()));
            }
            return encoding_failure();
        },
    };
    let msg = match M::from_json(&msg_raw) {
        Ok(m) => m,
        Err(_) => {
            return encoding_failure();
        },
    };
    let ghost gbase = base;
    let ghost gmsg = msg;
    let ctx = AuthCtx { base, storage: storage, querier };
    let out = after_tx_fn(ctx, msg);
    let r = wrap_result(&out);
    proof {
        assert(gmsg == M::parse_spec(msg_buf.view_spec())->Some_0);
        assert(call_ensures(
            after_tx_fn,
            ((AuthCtx { base: gbase, storage, querier }), M::parse_spec(
                msg_buf.view_spec(),
            )->Some_0),
            out,
        ));
        assert(exists|c: Context, o: Result<Response, String>|
            ctx_wf(c) && ctx_bytes(c) == ctx_buf.view_spec() && #[trigger] call_ensures(
                after_tx_fn,
                ((AuthCtx { base: c, storage, querier }), M::parse_spec(
                    msg_buf.view_spec(),
                )->Some_0),
                o,
            ) && r@ == result_envelope(o));
    }
    r
}

/// Dispatches the token-transfer hook under elevated scope.
#[verifier::rlimit(100)]
pub fn do_bank_execute<S: Storage, Q: Querier, M: JsonDe, F: FnOnce(SudoCtx<S, Q>, M) -> Result<
    Response,
    String,
>>(transfer_fn: F, storage: S, querier: Q, ctx_buf: Region, msg_buf: Region) -> (r: Vec<u8>)
    requires
        forall|c: SudoCtx<S, Q>, m: M| #[trigger] call_requires(transfer_fn, (c, m)),
    ensures
        is_envelope(r@),
        M::parse_spec(msg_buf.view_spec()) is None ==> r@ == encoding_err_envelope(),
        M::parse_spec(msg_buf.view_spec()) is Some && r@ != encoding_err_envelope() ==> exists|
            c: Context,
            out: Result<Response, String>,
        |
            ctx_wf(c) && ctx_bytes(c) == ctx_buf.view_spec() && #[trigger] call_ensures(
                transfer_fn,
                ((SudoCtx { base: c, storage, querier }), M::parse_spec(
                    msg_buf.view_spec(),
                )->Some_0),
                out,
            ) && r@ == result_envelope(out),
        // on well-formed inputs the handler's outcome is owed
        ctx_parses(ctx_buf.view_spec()) && M::parse_spec(msg_buf.view_spec()) is Some ==> exists|
            c: Context,
            out: Result<Response, String>,
        |
            ctx_wf(c) && ctx_bytes(c) == ctx_buf.view_spec() && #[trigger] call_ensures(
                transfer_fn,
                ((SudoCtx { base: c, storage, querier }), M::parse_spec(
                    msg_buf.view_spec(),
                )->Some_0),
                out,
            ) && r@ == result_envelope(out),
{
    let ctx_raw = ctx_buf.consume();
    let msg_raw = msg_buf.consume();
    let base = match parse_ctx(&ctx_raw) {
        Ok(c) => c,
        Err(_) => {
            proof {
                assert(!ctx_parses(ctx_buf.view_spec()));
            }
            return encoding_failure();
        },
    };
    let msg = match M::from_json(&msg_raw) {
        Ok(m) => m,
        Err(_) => {
            return encoding_failure();
        },
    };
    let ghost gbase = base;
    let ghost gmsg = msg;
    let ctx = SudoCtx { base, storage: storage, querier };
    let out = transfer_fn(ctx, msg);
    let r = wrap_result(&out);
    proof {
        assert(gmsg == M::parse_spec(msg_buf.view_spec())->Some_0);
        assert(call_ensures(
            transfer_fn,
            ((SudoCtx { base: gbase, storage, querier }), M::parse_spec(
                msg_buf.view_spec(),
            )->Some_0),
            out,
        ));
        assert(exists|c: Context, o: Result<Response, String>|
            ctx_wf(c) && ctx_bytes(c) == ctx_buf.view_spec() && #[trigger] call_ensures(
                transfer_fn,
                ((SudoCtx { base: c, storage, querier }), M::parse_spec(
                    msg_buf.view_spec(),
                )->Some_0),
                o,
            ) && r@ == result_envelope(o));
    }
    r
}

/// Dispatches the token-balance query hook under read-only scope.
#[verifier::rlimit(100)]
pub fn do_bank_query<S: Storage, Q: Querier, M: JsonDe, F: FnOnce(ImmutableCtx<S, Q>, M) -> Result<
    Response,
    String,
>>(bank_query_fn: F, storage: S, querier: Q, ctx_buf: Region, msg_buf: Region) -> (r: Vec<u8>)
    requires
        forall|c: ImmutableCtx<S, Q>, m: M| #[trigger] call_requires(bank_query_fn, (c, m)),
    ensures
        is_envelope(r@),
        M::parse_spec(msg_buf.view_spec()) is None ==> r@ == encoding_err_envelope(),
        M::parse_spec(msg_buf.view_spec()) is Some && r@ != encoding_err_envelope() ==> exists|
            c: Context,
            out: Result<Response, String>,
        |
            ctx_wf(c) && ctx_bytes(c) == ctx_buf.view_spec() && #[trigger] call_ensures(
                bank_query_fn,
                ((ImmutableCtx { base: c, storage: readonly(storage), querier }), M::parse_spec(
                    msg_buf.view_spec(),
                )->Some_0),
                out,
            ) && r@ == result_envelope(out),
        // on well-formed inputs the handler's outcome is owed
        ctx_parses(ctx_buf.view_spec()) && M::parse_spec(msg_buf.view_spec()) is Some ==> exists|
            c: Context,
            out: Result<Response, String>,
        |
            ctx_wf(c) && ctx_bytes(c) == ctx_buf.view_spec() && #[trigger] call_ensures(
                bank_query_fn,
                ((ImmutableCtx { base: c, storage: readonly(storage), querier }), M::parse_spec(
                    msg_buf.view_spec(),
                )->Some_0),
                out,
            ) && r@ == result_envelope(out),
{
    let ctx_raw = ctx_buf.consume();
    let msg_raw = msg_buf.consume();
    let base = match parse_ctx(&ctx_raw) {
        Ok(c) => c,
        Err(_) => {
            proof {
                assert(!ctx_parses(ctx_buf.view_spec()));
            }
            return encoding_failure();
        },
    };
    let msg = match M::from_json(&msg_raw) {
        Ok(m) => m,
        Err(_) => {
            return encoding_failure();
        },
    };
    let ghost gbase = base;
    let ghost gmsg = msg;
    let ctx = ImmutableCtx { base, storage: ReadonlyStorage { inner: storage }, querier };
    let out = bank_query_fn(ctx, msg);
    let r = wrap_result(&out);
    proof {
        assert(gmsg == M::parse_spec(msg_buf.view_spec())->Some_0);
        assert(call_ensures(
            bank_query_fn,
            ((ImmutableCtx { base: gbase, storage: readonly(storage), querier }), M::parse_spec(
                msg_buf.view_spec(),
            )->Some_0),
            out,
        ));
        assert(exists|c: Context, o: Result<Response, String>|
            ctx_wf(c) && ctx_bytes(c) == ctx_buf.view_spec() && #[trigger] call_ensures(
                bank_query_fn,
                ((ImmutableCtx { base: c, storage: readonly(storage), querier }), M::parse_spec(
                    msg_buf.view_spec(),
                )->Some_0),
                o,
            ) && r@ == result_envelope(o));
    }
    r
}

/// Dispatches the plain-receive hook under read-write scope; it carries no message.
#[verifier::rlimit(100)]
pub fn do_receive<S: Storage, Q: Querier, F: FnOnce(MutableCtx<S, Q>) -> Result<Response, String>>(
    receive_fn: F,
    storage: S,
    querier: Q,
    ctx_buf: Region,
) -> (r: Vec<u8>)
    requires
        forall|c: MutableCtx<S, Q>| #[trigger] call_requires(receive_fn, (c,)),
    ensures
        is_envelope(r@),
        r@ != encoding_err_envelope() ==> exists|c: Context, out: Result<Response, String>|
            ctx_wf(c) && ctx_bytes(c) == ctx_buf.view_spec() && #[trigger] call_ensures(
                receive_fn,
                ((MutableCtx { base: c, storage, querier }),),
                out,
            ) && r@ == result_envelope(out),
        // on a well-formed context the handler's outcome is owed
        ctx_parses(ctx_buf.view_spec()) ==> exists|c: Context, out: Result<Response, String>|
            ctx_wf(c) && ctx_bytes(c) == ctx_buf.view_spec() && #[trigger] call_ensures(
                receive_fn,
                ((MutableCtx { base: c, storage, querier }),),
                out,
            ) && r@ == result_envelope(out),
{
    let ctx_raw = ctx_buf.consume();
    let base = match parse_ctx(&ctx_raw) {
        Ok(c) => c,
        Err(_) => {
            proof {
                assert(!ctx_parses(ctx_buf.view_spec()));
            }
            return encoding_failure();
        },
    };
    let ghost gbase = base;
    let ctx = MutableCtx { base, storage: storage, querier };
    let out = receive_fn(ctx);
    let r = wrap_result(&out);
    proof {
        assert(call_ensures(receive_fn, ((MutableCtx { base: gbase, storage, querier }),), out));
        assert(exists|c: Context, o: Result<Response, String>|
            ctx_wf(c) && ctx_bytes(c) == ctx_buf.view_spec() && #[trigger] call_ensures(
                receive_fn,
                ((MutableCtx { base: c, storage, querier }),),
                o,
            ) && r@ == result_envelope(o));
    }
    r
}

/// Dispatches the scheduled system call under elevated scope; it carries no message.
#[verifier::rlimit(100)]
pub fn do_cron_execute<S: Storage, Q: Querier, F: FnOnce(SudoCtx<S, Q>) -> Result<Response, String>>(
    cron_execute_fn: F,
    storage: S,
    querier: Q,
    ctx_buf: Region,
) -> (r: Vec<u8>)
    requires
        forall|c: SudoCtx<S, Q>| #[trigger] call_requires(cron_execute_fn, (c,)),
    ensures
        is_envelope(r@),
        r@ != encoding_err_envelope() ==> exists|c: Context, out: Result<Response, String>|
            ctx_wf(c) && ctx_bytes(c) == ctx_buf.view_spec() && #[trigger] call_ensures(
                cron_execute_fn,
                ((SudoCtx { base: c, storage, querier }),),
                out,
            ) && r@ == result_envelope(out),
        // on a well-formed context the handler's outcome is owed
        ctx_parses(ctx_buf.view_spec()) ==> exists|c: Context, out: Result<Response, String>|
            ctx_wf(c) && ctx_bytes(c) == ctx_buf.view_spec() && #[trigger] call_ensures(
                cron_execute_fn,
                ((SudoCtx { base: c, storage, querier }),),
                out,
            ) && r@ == result_envelope(out),
{
    let ctx_raw = ctx_buf.consume();
    let base = match parse_ctx(&ctx_raw) {
        Ok(c) => c,
        Err(_) => {
            proof {
                assert(!ctx_parses(ctx_buf.view_spec()));
            }
            return encoding_failure();
        },
    };
    let ghost gbase = base;
    let ctx = SudoCtx { base, storage: storage, querier };
    let out = cron_execute_fn(ctx);
    let r = wrap_result(&out);
    proof {
        assert(call_ensures(cron_execute_fn, ((SudoCtx { base: gbase, storage, querier }),), out));
        assert(exists|c: Context, o: Result<Response, String>|
            ctx_wf(c) && ctx_bytes(c) == ctx_buf.view_spec() && #[trigger] call_ensures(
                cron_execute_fn,
                ((SudoCtx { base: c, storage, querier }),),
                o,
            ) && r@ == result_envelope(o));
    }
    r
}

/// Dispatches the reply-after-submessage hook under elevated scope, with the
/// additional results buffer.
#[verifier::rlimit(100)]
pub fn do_reply<S: Storage, Q: Querier, M: JsonDe, E: JsonDe, F: FnOnce(
    SudoCtx<S, Q>,
    M,
    E,
) -> Result<Response, String>>(
    reply_fn: F,
    storage: S,
    querier: Q,
    ctx_buf: Region,
    msg_buf: Region,
    events_buf: Region,
) -> (r: Vec<u8>)
    requires
        forall|c: SudoCtx<S, Q>, m: M, e: E| #[trigger] call_requires(reply_fn, (c, m, e)),
    ensures
        is_envelope(r@),
        (M::parse_spec(msg_buf.view_spec()) is None || E::parse_spec(events_buf.view_spec())
            is None) ==> r@ == encoding_err_envelope(),
        M::parse_spec(msg_buf.view_spec()) is Some && E::parse_spec(events_buf.view_spec())
            is Some && r@ != encoding_err_envelope() ==> exists|
            c: Context,
            out: Result<Response, String>,
        |
            ctx_wf(c) && ctx_bytes(c) == ctx_buf.view_spec() && #[trigger] call_ensures(
                reply_fn,
                ((SudoCtx { base: c, storage, querier }), M::parse_spec(
                    msg_buf.view_spec(),
                )->Some_0, E::parse_spec(events_buf.view_spec())->Some_0),
                out,
            ) && r@ == result_envelope(out),
        // on well-formed inputs the handler's outcome is owed
        ctx_parses(ctx_buf.view_spec()) && M::parse_spec(msg_buf.view_spec()) is Some
            && E::parse_spec(events_buf.view_spec()) is Some ==> exists|
            c: Context,
            out: Result<Response, String>,
        |
            ctx_wf(c) && ctx_bytes(c) == ctx_buf.view_spec() && #[trigger] call_ensures(
                reply_fn,
                ((SudoCtx { base: c, storage, querier }), M::parse_spec(
                    msg_buf.view_spec(),
                )->Some_0, E::parse_spec(events_buf.view_spec())->Some_0),
                out,
            ) && r@ == result_envelope(out),
{
    let ctx_raw = ctx_buf.consume();
    let msg_raw = msg_buf.consume();
    let events_raw = events_buf.consume();
    let base = match parse_ctx(&ctx_raw) {
        Ok(c) => c,
        Err(_) => {
            proof {
                assert(!ctx_parses(ctx_buf.view_spec()));
            }
            return encoding_failure();
        },
    };
    let msg = match M::from_json(&msg_raw) {
        Ok(m) => m,
        Err(_) => {
            return encoding_failure();
        },
    };
    let events = match E::from_json(&events_raw) {
        Ok(e) => e,
        Err(_) => {
            return encoding_failure();
        },
    };
    let ghost gbase = base;
    let ghost gmsg = msg;
    let ghost gevents = events;
    let ctx = SudoCtx { base, storage, querier };
    let out = reply_fn(ctx, msg, events);
    let r = wrap_result(&out);
    proof {
        assert(gmsg == M::parse_spec(msg_buf.view_spec())->Some_0);
        assert(gevents == E::parse_spec(events_buf.view_spec())->Some_0);
        assert(call_ensures(
            reply_fn,
            ((SudoCtx { base: gbase, storage, querier }), M::parse_spec(
                msg_buf.view_spec(),
            )->Some_0, E::parse_spec(events_buf.view_spec())->Some_0),
            out,
        ));
        assert(exists|c: Context, o: Result<Response, String>|
            ctx_wf(c) && ctx_bytes(c) == ctx_buf.view_spec() && #[trigger] call_ensures(
                reply_fn,
                ((SudoCtx { base: c, storage, querier }), M::parse_spec(
                    msg_buf.view_spec(),
                )->Some_0, E::parse_spec(events_buf.view_spec())->Some_0),
                o,
            ) && r@ == result_envelope(o));
    }
    r
}

} // verus!
