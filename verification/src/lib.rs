//! Execution core of a smart-contract runtime: an ordered key-value storage
//! abstraction (order-preserving key codec, namespaced prefixes, bounded range
//! scans) and the host-guest marshalling layer (buffer protocol, entry-point
//! dispatch, capability-scoped execution contexts).

pub mod bound;
pub mod buffer;
pub mod bytes;
pub mod ctx;
pub mod dispatch;
pub mod err;
pub mod json;
pub mod keys;
pub mod map;
pub mod mock;
pub mod namespace;
pub mod prefix;
pub mod querier;
pub mod query;
pub mod store;
pub mod unique_vec;
pub mod values;

pub use bound::{Bound, Order};
pub use buffer::{BufferArena, Region};
pub use bytes::lex_lt;
pub use ctx::Context;
pub use err::{StdError, StdResult};
pub use json::{Empty, Response};
pub use keys::StoreKey;
pub use map::{Item, StoreMap};
pub use mock::{MockQuerier, MockStorage};
pub use prefix::Prefix;
pub use querier::{Querier, QuerierWrapper};
pub use query::{Query, QueryResponse};
pub use store::Storage;
pub use unique_vec::UniqueVec;
pub use values::ValueCodec;
