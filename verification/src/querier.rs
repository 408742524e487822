//! The query capability: the one method a context implements, and a wrapper
//! with convenience methods over it.

use vstd::prelude::*;
use crate::err::StdError;
use crate::query::{
    Query, QueryResponse, InfoResponse, AccountResponse, WasmRawResponse, WasmSmartResponse, Addr,
    Binary, Coin, ConfigResponse, ContractInfo, response_matches,
};

verus! {

/// The query capability. The interface contract implementations answer to:
/// a successful response carries the variant matching the request.
pub trait Querier: Sized {
    fn query_chain(&self, req: &Query) -> (r: Result<QueryResponse, StdError>)
        ensures
            r matches Ok(resp) ==> response_matches(*req, resp),
    ;
}

/// Wraps a querier to provide convenience methods.
pub struct QuerierWrapper<'a, Q: Querier> {
    inner: &'a Q,
}

impl<'a, Q: Querier> QuerierWrapper<'a, Q> {
    pub fn new(inner: &'a Q) -> (r: Self) {
        QuerierWrapper { inner }
    }

    /// Forwards a query to the underlying capability.
    pub fn query(&self, req: &Query) -> (r: Result<QueryResponse, StdError>)
        ensures
            r matches Ok(resp) ==> response_matches(*req, resp),
    {
        self.inner.query_chain(req)
    }

    /// Queries the chain's global information.
    pub fn query_info(&self) -> (r: Result<InfoResponse, StdError>) {
        let req = Query::Info {  };
        match self.inner.query_chain(&req) {
            Ok(resp) => Ok(resp.as_info()),
            Err(e) => Err(e),
        }
    }

    /// Queries the metadata of one account.
    pub fn query_account(&self, address: Addr) -> (r: Result<AccountResponse, StdError>) {
        let req = Query::Account { address };
        match self.inner.query_chain(&req) {
            Ok(resp) => Ok(resp.as_account()),
            Err(e) => Err(e),
        }
    }

    /// Enumerates account metadata.
    pub fn query_accounts(&self, start_after: Option<Addr>, limit: Option<u32>) -> (r: Result<
        Vec<AccountResponse>,
        StdError,
    >) {
        let req = Query::Accounts { start_after, limit };
        match self.inner.query_chain(&req) {
            Ok(resp) => Ok(resp.as_accounts()),
            Err(e) => Err(e),
        }
    }

    /// Reads one raw key of a contract's state.
    pub fn query_wasm_raw(&self, contract: Addr, key: Binary) -> (r: Result<
        WasmRawResponse,
        StdError,
    >) {
        let req = Query::WasmRaw { contract, key };
        match self.inner.query_chain(&req) {
            Ok(resp) => Ok(resp.as_wasm_raw()),
            Err(e) => Err(e),
        }
    }

    /// Calls another contract's query entry point.
    pub fn query_wasm_smart(&self, contract: Addr, msg: Binary) -> (r: Result<
        WasmSmartResponse,
        StdError,
    >) {
        let req = Query::WasmSmart { contract, msg };
        match self.inner.query_chain(&req) {
            Ok(resp) => Ok(resp.as_wasm_smart()),
            Err(e) => Err(e),
        }
    }

    /// Queries the chain's global configuration.
    pub fn query_config(&self) -> (r: Result<ConfigResponse, StdError>) {
        let req = Query::Config {  };
        match self.inner.query_chain(&req) {
            Ok(resp) => Ok(resp.as_config()),
            Err(e) => Err(e),
        }
    }

    /// Queries one application-level configuration entry.
    pub fn query_app_config(&self, key: String) -> (r: Result<Binary, StdError>) {
        let req = Query::AppConfig { key };
        match self.inner.query_chain(&req) {
            Ok(resp) => Ok(resp.as_app_config()),
            Err(e) => Err(e),
        }
    }

    /// Enumerates application-level configuration entries.
    pub fn query_app_configs(&self, start_after: Option<String>, limit: Option<u32>) -> (r:
        Result<Vec<(String, Binary)>, StdError>) {
        let req = Query::AppConfigs { start_after, limit };
        match self.inner.query_chain(&req) {
            Ok(resp) => Ok(resp.as_app_configs()),
            Err(e) => Err(e),
        }
    }

    /// Queries all token balances of one account.
    pub fn query_balances(
        &self,
        address: Addr,
        start_after: Option<String>,
        limit: Option<u32>,
    ) -> (r: Result<Vec<Coin>, StdError>) {
        let req = Query::Balances { address, start_after, limit };
        match self.inner.query_chain(&req) {
            Ok(resp) => Ok(resp.as_balances()),
            Err(e) => Err(e),
        }
    }

    /// Queries the total supplies of all tokens.
    pub fn query_supplies(&self, start_after: Option<String>, limit: Option<u32>) -> (r: Result<
        Vec<Coin>,
        StdError,
    >) {
        let req = Query::Supplies { start_after, limit };
        match self.inner.query_chain(&req) {
            Ok(resp) => Ok(resp.as_supplies()),
            Err(e) => Err(e),
        }
    }

    /// Queries one stored code blob by hash.
    pub fn query_code(&self, hash: Binary) -> (r: Result<Binary, StdError>) {
        let req = Query::Code { hash };
        match self.inner.query_chain(&req) {
            Ok(resp) => Ok(resp.as_code()),
            Err(e) => Err(e),
        }
    }

    /// Enumerates stored code blobs.
    pub fn query_codes(&self, start_after: Option<Binary>, limit: Option<u32>) -> (r: Result<
        Vec<(Binary, Binary)>,
        StdError,
    >) {
        let req = Query::Codes { start_after, limit };
        match self.inner.query_chain(&req) {
            Ok(resp) => Ok(resp.as_codes()),
            Err(e) => Err(e),
        }
    }

    /// Queries the metadata of one contract.
    pub fn query_contract(&self, address: Addr) -> (r: Result<ContractInfo, StdError>) {
        let req = Query::Contract { address };
        match self.inner.query_chain(&req) {
            Ok(resp) => Ok(resp.as_contract()),
            Err(e) => Err(e),
        }
    }

    /// Enumerates contract metadata.
    pub fn query_contracts(&self, start_after: Option<Addr>, limit: Option<u32>) -> (r: Result<
        Vec<(Addr, ContractInfo)>,
        StdError,
    >) {
        let req = Query::Contracts { start_after, limit };
        match self.inner.query_chain(&req) {
            Ok(resp) => Ok(resp.as_contracts()),
            Err(e) => Err(e),
        }
    }

    /// Issues several queries in one round trip. A well-behaved host answers
    /// each request; the count is guaranteed by the capability contract.
    pub fn query_multi(&self, requests: Vec<Query>) -> (r: Result<Vec<QueryResponse>, StdError>)
        ensures
            r matches Ok(resps) ==> resps@.len() == requests@.len(),
    {
        let req = Query::Multi(requests);
        match self.inner.query_chain(&req) {
            Ok(resp) => {
                let rs = resp.as_multi();
                Ok(rs)
            },
            Err(e) => Err(e),
        }
    }
}

} // verus!
