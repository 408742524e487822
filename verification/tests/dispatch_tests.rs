use cw_core::buffer::{BufferArena, Region};
use cw_core::ctx::{serialize_ctx, parse_ctx, Context};
use cw_core::dispatch::{do_execute, do_query, do_receive, ImmutableCtx, MutableCtx};
use cw_core::json::{escape, Empty, Response};
use cw_core::{MockQuerier, MockStorage, Querier, QuerierWrapper, Query, QueryResponse, StdError};
use cw_core::query::{AccountResponse, Addr, Binary, BlockInfo, InfoResponse};

fn test_ctx() -> Context {
    Context {
        chain_id: b"dev-1".to_vec(),
        block_height: 42,
        block_timestamp: 1000,
        contract: vec![7; 32],
        sender: Some(vec![9; 32]),
    }
}

fn ctx_region() -> Region {
    Region::release_buffer(serialize_ctx(&test_ctx()))
}

#[test]
fn context_binary_schema_roundtrips() {
    let c = test_ctx();
    let bytes = serialize_ctx(&c);
    let back = parse_ctx(&bytes).unwrap();
    assert_eq!(back.chain_id, c.chain_id);
    assert_eq!(back.block_height, c.block_height);
    assert_eq!(back.block_timestamp, c.block_timestamp);
    assert_eq!(back.contract, c.contract);
    assert_eq!(back.sender, c.sender);
    // trailing garbage is rejected
    let mut long = bytes.clone();
    long.push(0);
    assert!(parse_ctx(&long).is_err());
    assert!(parse_ctx(&b"short".to_vec()).is_err());
}

#[test]
fn query_handler_error_becomes_error_envelope() {
    let f = |_ctx: ImmutableCtx<MockStorage, MockQuerier>, _msg: Empty| -> Result<Response, String> {
        Err("boom".to_string())
    };
    let out = do_query(
        f,
        MockStorage::new(),
        MockQuerier::new(b"dev-1".to_vec(), 42, 1000),
        ctx_region(),
        Region::release_buffer(b"{}".to_vec()),
    );
    assert_eq!(out, b"{\"err\":\"boom\"}".to_vec());
}

#[test]
fn malformed_message_becomes_encoding_error_envelope() {
    let f = |_ctx: ImmutableCtx<MockStorage, MockQuerier>, _msg: Empty| -> Result<Response, String> {
        Ok(Response::new())
    };
    let out = do_query(
        f,
        MockStorage::new(),
        MockQuerier::new(b"dev-1".to_vec(), 42, 1000),
        ctx_region(),
        Region::release_buffer(b"not json".to_vec()),
    );
    assert_eq!(out, b"{\"err\":\"invalid encoding\"}".to_vec());
}

#[test]
fn malformed_context_becomes_encoding_error_envelope() {
    let f = |_ctx: MutableCtx<MockStorage, MockQuerier>, _msg: Empty| -> Result<Response, String> {
        Ok(Response::new())
    };
    let out = do_execute(
        f,
        MockStorage::new(),
        MockQuerier::new(b"dev-1".to_vec(), 42, 1000),
        Region::release_buffer(b"garbage".to_vec()),
        Region::release_buffer(b"{}".to_vec()),
    );
    assert_eq!(out, b"{\"err\":\"invalid encoding\"}".to_vec());
}

#[test]
fn successful_handler_becomes_ok_envelope() {
    let f = |ctx: MutableCtx<MockStorage, MockQuerier>, _msg: Empty| -> Result<Response, String> {
        assert_eq!(ctx.base.block_height, 42);
        Ok(Response::new().add_attribute("action".to_string(), "run".to_string()))
    };
    let out = do_execute(
        f,
        MockStorage::new(),
        MockQuerier::new(b"dev-1".to_vec(), 42, 1000),
        ctx_region(),
        Region::release_buffer(b"{}".to_vec()),
    );
    assert_eq!(
        out,
        b"{\"ok\":{\"attributes\":[{\"key\":\"action\",\"value\":\"run\"}]}}".to_vec()
    );
}

#[test]
fn receive_hook_needs_no_message() {
    let f = |_ctx: MutableCtx<MockStorage, MockQuerier>| -> Result<Response, String> {
        Ok(Response::new())
    };
    let out = do_receive(
        f,
        MockStorage::new(),
        MockQuerier::new(b"dev-1".to_vec(), 42, 1000),
        ctx_region(),
    );
    assert_eq!(out, b"{\"ok\":{\"attributes\":[]}}".to_vec());
}

#[test]
fn handler_error_message_is_escaped() {
    let f = |_ctx: ImmutableCtx<MockStorage, MockQuerier>, _msg: Empty| -> Result<Response, String> {
        Err("a\"b\\c".to_string())
    };
    let out = do_query(
        f,
        MockStorage::new(),
        MockQuerier::new(b"dev-1".to_vec(), 42, 1000),
        ctx_region(),
        Region::release_buffer(b"{}".to_vec()),
    );
    assert_eq!(out, b"{\"err\":\"a\\\"b\\\\c\"}".to_vec());
}

#[test]
fn escape_encodes_control_bytes() {
    assert_eq!(escape(&vec![34, 92, 10, 65]), b"\\\"\\\\\\u000aA".to_vec());
}

#[test]
fn consuming_a_buffer_handle_twice_is_a_protocol_violation() {
    // Caller-responsibility violation: detectable in the checked harness.
    let mut arena = BufferArena::new();
    let h = arena.release(Region::release_buffer(b"payload".to_vec()));
    assert_eq!(arena.consume(h).unwrap(), b"payload".to_vec());
    assert_eq!(arena.consume(h).unwrap_err(), StdError::BufferProtocolViolation);
    // a never-allocated handle is equally fatal
    assert_eq!(arena.consume(999).unwrap_err(), StdError::BufferProtocolViolation);
}

#[test]
fn region_rejects_writes_past_capacity() {
    let mut region = Region::build(4);
    assert!(region.write(&b"ab".to_vec()).is_ok());
    assert_eq!(
        region.write(&b"cde".to_vec()).unwrap_err(),
        StdError::BufferProtocolViolation
    );
    assert!(region.write(&b"cd".to_vec()).is_ok());
    assert_eq!(region.consume(), b"abcd".to_vec());
}

#[test]
fn arena_allocate_starts_empty() {
    let mut arena = BufferArena::new();
    let h = arena.allocate(16);
    assert_eq!(arena.consume(h).unwrap(), Vec::<u8>::new());
}

#[test]
fn querier_wrapper_answers_through_the_capability() {
    let q = MockQuerier::new(b"dev-1".to_vec(), 42, 1000);
    let w = QuerierWrapper::new(&q);
    let info = w.query_info().unwrap();
    assert_eq!(info.chain_id, b"dev-1".to_vec());
    assert_eq!(info.last_finalized_block.height, 42);

    let resp = w.query(&Query::Info {}).unwrap();
    assert!(matches!(resp, QueryResponse::Info(_)));

    let multi = w
        .query_multi(vec![Query::Info {}, Query::Accounts { start_after: None, limit: None }])
        .unwrap();
    assert_eq!(multi.len(), 2);

    // the trait is the only thing tests need to implement directly, too
    let direct = q.query_chain(&Query::Accounts { start_after: None, limit: None }).unwrap();
    assert!(matches!(direct, QueryResponse::Accounts(_)));

    let cfg = w.query_config().unwrap();
    assert_eq!(cfg.owner, None);
    assert!(w.query_balances(Addr(vec![1]), None, None).unwrap().is_empty());
    assert!(w.query_supplies(None, None).unwrap().is_empty());
    assert!(w.query_contracts(None, None).unwrap().is_empty());
    assert!(w.query_app_configs(None, None).unwrap().is_empty());
    assert_eq!(w.query_app_config("fee".to_string()).unwrap(), Binary(vec![]));
    assert_eq!(w.query_code(Binary(vec![1])).unwrap(), Binary(vec![]));
    assert!(w.query_codes(None, None).unwrap().is_empty());
    let contract = w.query_contract(Addr(vec![2])).unwrap();
    assert_eq!(contract.admin, None);
    let raw = w.query_wasm_raw(Addr(vec![2]), Binary(vec![3])).unwrap();
    assert_eq!(raw.value, None);
    let smart = w.query_wasm_smart(Addr(vec![2]), Binary(b"{}".to_vec())).unwrap();
    assert_eq!(smart.data, Binary(vec![]));
    let acct = w.query_account(Addr(vec![4])).unwrap();
    assert_eq!(acct.address, Addr(vec![4]));
    assert!(w.query_accounts(None, None).unwrap().is_empty());
}

#[test]
fn query_response_accessors_extract_payloads() {
    let info = QueryResponse::Info(InfoResponse {
        chain_id: b"x".to_vec(),
        last_finalized_block: BlockInfo { height: 1, timestamp: 2 },
    });
    assert_eq!(info.as_info().chain_id, b"x".to_vec());

    let acct = QueryResponse::Account(AccountResponse {
        address: Addr(vec![1]),
        code_hash: Binary(vec![2]),
        admin: None,
    });
    assert_eq!(acct.as_account().address, Addr(vec![1]));

    let accts = QueryResponse::Accounts(Vec::new());
    assert!(accts.as_accounts().is_empty());
}
