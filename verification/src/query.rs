//! Chain queries and their responses. Every query variant has a response
//! variant of the same name; the accessors extract a payload whose variant
//! the caller already knows.

use vstd::prelude::*;

verus! {

/// An account or contract address, as raw bytes.
#[derive(Clone, Debug, PartialEq, Eq)]
pub struct Addr(pub Vec<u8>);

/// An opaque byte blob.
#[derive(Clone, Debug, PartialEq, Eq)]
pub struct Binary(pub Vec<u8>);

/// Metadata of a block.
#[derive(Clone, Debug, PartialEq, Eq)]
pub struct BlockInfo {
    pub height: u64,
    pub timestamp: u64,
}

/// A query addressed to the chain.
#[derive(Debug, PartialEq, Eq)]
pub enum Query {
    /// The chain's global information. Returns: `InfoResponse`.
    Info {},
    /// Metadata of a single account. Returns: `AccountResponse`.
    Account { address: Addr },
    /// Enumerate metadata of all accounts. Returns: `Vec<AccountResponse>`.
    Accounts { start_after: Option<Addr>, limit: Option<u32> },
    /// A raw key-value pair in a contract's internal state. Returns:
    /// `WasmRawResponse`.
    WasmRaw { contract: Addr, key: Binary },
    /// Call the contract's query entry point with the given message.
    /// Returns: `WasmSmartResponse`.
    WasmSmart { contract: Addr, msg: Binary },
    /// The chain's global configuration. Returns: `ConfigResponse`.
    Config {},
    /// One application-level configuration entry. Returns: `Binary`.
    AppConfig { key: String },
    /// Enumerate application-level configuration. Returns key/value pairs.
    AppConfigs { start_after: Option<String>, limit: Option<u32> },
    /// All token balances of one account. Returns: `Vec<Coin>`.
    Balances { address: Addr, start_after: Option<String>, limit: Option<u32> },
    /// Total supplies of all tokens. Returns: `Vec<Coin>`.
    Supplies { start_after: Option<String>, limit: Option<u32> },
    /// One stored code blob by hash. Returns: `Binary`.
    Code { hash: Binary },
    /// Enumerate stored code blobs. Returns hash/code pairs.
    Codes { start_after: Option<Binary>, limit: Option<u32> },
    /// Metadata of one contract. Returns: `ContractInfo`.
    Contract { address: Addr },
    /// Enumerate contract metadata. Returns address/info pairs.
    Contracts { start_after: Option<Addr>, limit: Option<u32> },
    /// Several queries answered in one round trip. Returns one response per
    /// request, in order.
    Multi(Vec<Query>),
}

#[derive(Clone, Debug, PartialEq, Eq)]
pub struct InfoResponse {
    pub chain_id: Vec<u8>,
    pub last_finalized_block: BlockInfo,
}

#[derive(Clone, Debug, PartialEq, Eq)]
pub struct AccountResponse {
    pub address: Addr,
    pub code_hash: Binary,
    pub admin: Option<Addr>,
}

#[derive(Clone, Debug, PartialEq, Eq)]
pub struct WasmRawResponse {
    pub contract: Addr,
    pub key: Binary,
    /// `None` if the key does not exist.
    pub value: Option<Binary>,
}

#[derive(Clone, Debug, PartialEq, Eq)]
pub struct WasmSmartResponse {
    pub contract: Addr,
    pub data: Binary,
}

/// One token balance: a denomination and an amount.
#[derive(Clone, Debug, PartialEq, Eq)]
pub struct Coin {
    pub denom: String,
    pub amount: u128,
}

/// The chain's global configuration.
#[derive(Clone, Debug, PartialEq, Eq)]
pub struct ConfigResponse {
    pub owner: Option<Addr>,
    pub bank: Option<Addr>,
}

/// Metadata of one deployed contract.
#[derive(Clone, Debug, PartialEq, Eq)]
pub struct ContractInfo {
    pub code_hash: Binary,
    pub admin: Option<Addr>,
}

/// The response to a `Query`, carrying the same variant.
#[derive(Debug, PartialEq, Eq)]
pub enum QueryResponse {
    Info(InfoResponse),
    Account(AccountResponse),
    Accounts(Vec<AccountResponse>),
    WasmRaw(WasmRawResponse),
    WasmSmart(WasmSmartResponse),
    Config(ConfigResponse),
    AppConfig(Binary),
    AppConfigs(Vec<(String, Binary)>),
    Balances(Vec<Coin>),
    Supplies(Vec<Coin>),
    Code(Binary),
    Codes(Vec<(Binary, Binary)>),
    Contract(ContractInfo),
    Contracts(Vec<(Addr, ContractInfo)>),
    Multi(Vec<QueryResponse>),
}

/// The response a well-behaved host returns for a request: the matching
/// variant, and for a multi query one response per sub-request.
pub open spec fn response_matches(req: Query, resp: QueryResponse) -> bool {
    match req {
        Query::Info { .. } => resp is Info,
        Query::Account { .. } => resp is Account,
        Query::Accounts { .. } => resp is Accounts,
        Query::WasmRaw { .. } => resp is WasmRaw,
        Query::WasmSmart { .. } => resp is WasmSmart,
        Query::Config { .. } => resp is Config,
        Query::AppConfig { .. } => resp is AppConfig,
        Query::AppConfigs { .. } => resp is AppConfigs,
        Query::Balances { .. } => resp is Balances,
        Query::Supplies { .. } => resp is Supplies,
        Query::Code { .. } => resp is Code,
        Query::Codes { .. } => resp is Codes,
        Query::Contract { .. } => resp is Contract,
        Query::Contracts { .. } => resp is Contracts,
        Query::Multi(reqs) => resp matches QueryResponse::Multi(rs) && rs@.len() == reqs@.len(),
    }
}

impl QueryResponse {
    /// Extracts the info payload; the caller vouches for the variant.
    pub fn as_info(self) -> (r: InfoResponse)
        requires
            self is Info,
        ensures
            self == QueryResponse::Info(r),
    {
        match self {
            QueryResponse::Info(resp) => resp,
            _ => vstd::pervasive::unreached(),
        }
    }

    /// Extracts the account payload; the caller vouches for the variant.
    pub fn as_account(self) -> (r: AccountResponse)
        requires
            self is Account,
        ensures
            self == QueryResponse::Account(r),
    {
        match self {
            QueryResponse::Account(resp) => resp,
            _ => vstd::pervasive::unreached(),
        }
    }

    /// Extracts the account list; the caller vouches for the variant.
    pub fn as_accounts(self) -> (r: Vec<AccountResponse>)
        requires
            self is Accounts,
        ensures
            self == QueryResponse::Accounts(r),
    {
        match self {
            QueryResponse::Accounts(resp) => resp,
            _ => vstd::pervasive::unreached(),
        }
    }

    /// Extracts the raw-state payload; the caller vouches for the variant.
    pub fn as_wasm_raw(self) -> (r: WasmRawResponse)
        requires
            self is WasmRaw,
        ensures
            self == QueryResponse::WasmRaw(r),
    {
        match self {
            QueryResponse::WasmRaw(resp) => resp,
            _ => vstd::pervasive::unreached(),
        }
    }

    /// Extracts the smart-query payload; the caller vouches for the variant.
    pub fn as_wasm_smart(self) -> (r: WasmSmartResponse)
        requires
            self is WasmSmart,
        ensures
            self == QueryResponse::WasmSmart(r),
    {
        match self {
            QueryResponse::WasmSmart(resp) => resp,
            _ => vstd::pervasive::unreached(),
        }
    }


    /// Extracts the config payload; the caller vouches for the variant.
    pub fn as_config(self) -> (r: ConfigResponse)
        requires
            self is Config,
        ensures
            self == QueryResponse::Config(r),
    {
        match self {
            QueryResponse::Config(resp) => resp,
            _ => vstd::pervasive::unreached(),
        }
    }

    /// Extracts the appconfig payload; the caller vouches for the variant.
    pub fn as_app_config(self) -> (r: Binary)
        requires
            self is AppConfig,
        ensures
            self == QueryResponse::AppConfig(r),
    {
        match self {
            QueryResponse::AppConfig(resp) => resp,
            _ => vstd::pervasive::unreached(),
        }
    }

    /// Extracts the appconfigs payload; the caller vouches for the variant.
    pub fn as_app_configs(self) -> (r: Vec<(String, Binary)>)
        requires
            self is AppConfigs,
        ensures
            self == QueryResponse::AppConfigs(r),
    {
        match self {
            QueryResponse::AppConfigs(resp) => resp,
            _ => vstd::pervasive::unreached(),
        }
    }

    /// Extracts the balances payload; the caller vouches for the variant.
    pub fn as_balances(self) -> (r: Vec<Coin>)
        requires
            self is Balances,
        ensures
            self == QueryResponse::Balances(r),
    {
        match self {
            QueryResponse::Balances(resp) => resp,
            _ => vstd::pervasive::unreached(),
        }
    }

    /// Extracts the supplies payload; the caller vouches for the variant.
    pub fn as_supplies(self) -> (r: Vec<Coin>)
        requires
            self is Supplies,
        ensures
            self == QueryResponse::Supplies(r),
    {
        match self {
            QueryResponse::Supplies(resp) => resp,
            _ => vstd::pervasive::unreached(),
        }
    }

    /// Extracts the code payload; the caller vouches for the variant.
    pub fn as_code(self) -> (r: Binary)
        requires
            self is Code,
        ensures
            self == QueryResponse::Code(r),
    {
        match self {
            QueryResponse::Code(resp) => resp,
            _ => vstd::pervasive::unreached(),
        }
    }

    /// Extracts the codes payload; the caller vouches for the variant.
    pub fn as_codes(self) -> (r: Vec<(Binary, Binary)>)
        requires
            self is Codes,
        ensures
            self == QueryResponse::Codes(r),
    {
        match self {
            QueryResponse::Codes(resp) => resp,
            _ => vstd::pervasive::unreached(),
        }
    }

    /// Extracts the contract payload; the caller vouches for the variant.
    pub fn as_contract(self) -> (r: ContractInfo)
        requires
            self is Contract,
        ensures
            self == QueryResponse::Contract(r),
    {
        match self {
            QueryResponse::Contract(resp) => resp,
            _ => vstd::pervasive::unreached(),
        }
    }

    /// Extracts the contracts payload; the caller vouches for the variant.
    pub fn as_contracts(self) -> (r: Vec<(Addr, ContractInfo)>)
        requires
            self is Contracts,
        ensures
            self == QueryResponse::Contracts(r),
    {
        match self {
            QueryResponse::Contracts(resp) => resp,
            _ => vstd::pervasive::unreached(),
        }
    }

    /// Extracts the multi-query payloads; the caller vouches for the variant.
    pub fn as_multi(self) -> (r: Vec<QueryResponse>)
        requires
            self is Multi,
        ensures
            self == QueryResponse::Multi(r),
    {
        match self {
            QueryResponse::Multi(resp) => resp,
            _ => vstd::pervasive::unreached(),
        }
    }
}

} // verus!
