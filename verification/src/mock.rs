//! An in-process store backing the storage capability for tests: a vector of
//! entries kept sorted by raw key.

use vstd::prelude::*;
use crate::bytes::{bytes_eq, bytes_lt, lex_lt};
use crate::bound::Order;
use crate::err::StdError;
use crate::query::{Query, QueryResponse, InfoResponse, AccountResponse, WasmRawResponse,
    WasmSmartResponse, BlockInfo, Binary, ConfigResponse, ContractInfo};
use crate::querier::Querier;
use crate::store::{
    Storage, Entries, entries_sorted, lookup, filter_range, rev, pair_views, opt_view,
    lemma_sorted_insert_at, lemma_sorted_insert_sorted, lemma_sorted_remove_at,
    lemma_sorted_remove_absent, lemma_sorted_remove_sorted, lemma_lookup_skip,
    lemma_filter_range_snoc,
};

verus! {

/// In-memory ordered byte store.
pub struct MockStorage {
    entries: Vec<(Vec<u8>, Vec<u8>)>,
}

impl MockStorage {
    /// An empty store.
    pub fn new() -> (r: Self)
        ensures
            r.wf(),
            r.view() == Seq::<(Seq<u8>, Seq<u8>)>::empty(),
    {
        let r = MockStorage { entries: Vec::new() };
        proof {
            assert(r.view() =~= Seq::<(Seq<u8>, Seq<u8>)>::empty());
        }
        r
    }

    /// The position of the first key at or above `key`.
    fn position(&self, key: &Vec<u8>) -> (i: usize)
        requires
            self.wf(),
        ensures
            i <= self.entries@.len(),
            forall|j: int| 0 <= j < i ==> lex_lt((#[trigger] self.view()[j]).0, key@),
            i < self.entries@.len() ==> !lex_lt(self.view()[i as int].0, key@),
    {
        let mut i: usize = 0;
        while i < self.entries.len()
            invariant
                i <= self.entries@.len(),
                forall|j: int| 0 <= j < i ==> lex_lt((#[trigger] self.view()[j]).0, key@),
            decreases self.entries@.len() - i,
        {
            if !bytes_lt(&self.entries[i].0, key) {
                return i;
            }
            i = i + 1;
        }
        i
    }
}

impl Storage for MockStorage {
    closed spec fn view(&self) -> Entries {
        pair_views(self.entries@)
    }

    closed spec fn wf(&self) -> bool {
        entries_sorted(pair_views(self.entries@))
    }

    proof fn lemma_wf_sorted(&self) {
    }

    fn get(&self, key: &Vec<u8>) -> (r: Option<Vec<u8>>) {
        let mut i: usize = 0;
        proof {
            assert(self.view().skip(0) =~= self.view());
        }
        while i < self.entries.len()
            invariant
                self.wf(),
                i <= self.entries@.len(),
                lookup(self.view(), key@) == lookup(self.view().skip(i as int), key@),
            decreases self.entries@.len() - i,
        {
            if bytes_eq(&self.entries[i].0, key) {
                proof {
                    assert(self.view().skip(i as int)[0] == self.view()[i as int]);
                }
                return Some(self.entries[i].1.clone());
            }
            proof {
                lemma_lookup_skip(self.view(), key@, i as int);
            }
            i = i + 1;
        }
        proof {
            assert(self.view().skip(self.entries@.len() as int) =~= Seq::<
                (Seq<u8>, Seq<u8>),
            >::empty());
        }
        None
    }

    fn set(&mut self, key: &Vec<u8>, value: &Vec<u8>) {
        let ghost s = self.view();
        let i = self.position(key);
        proof {
            lemma_sorted_insert_at(s, key@, value@, i as int);
            lemma_sorted_insert_sorted(s, key@, value@);
        }
        if i < self.entries.len() && bytes_eq(&self.entries[i].0, key) {
            self.entries.set(i, (key.clone(), value.clone()));
            proof {
                assert(self.view() =~= s.update(i as int, (key@, value@)));
            }
        } else {
            self.entries.insert(i, (key.clone(), value.clone()));
            proof {
                assert(self.view() =~= s.insert(i as int, (key@, value@)));
            }
        }
    }

    fn remove(&mut self, key: &Vec<u8>) {
        let ghost s = self.view();
        let i = self.position(key);
        if i < self.entries.len() && bytes_eq(&self.entries[i].0, key) {
            proof {
                crate::bytes::lemma_lex_irrefl(key@);
                assert(forall|j: int| 0 <= j < i ==> (#[trigger] s[j]).0 != key@);
                lemma_sorted_remove_at(s, key@, i as int);
                lemma_sorted_remove_sorted(s, key@);
            }
            self.entries.remove(i);
            proof {
                assert(self.view() =~= s.remove(i as int));
            }
        } else {
            proof {
                // no entry carries the key: below `i` all keys are smaller,
                // from `i` on they are at or above but distinct.
                assert forall|j: int| 0 <= j < s.len() implies (#[trigger] s[j]).0 != key@ by {
                    crate::bytes::lemma_lex_irrefl(key@);
                    if j >= i {
                        if s[j].0 == key@ {
                            if j > i {
                                assert(lex_lt(s[i as int].0, s[j].0));
                            }
                        }
                    }
                }
                lemma_sorted_remove_absent(s, key@);
            }
        }
    }

    fn scan(&self, min: Option<&Vec<u8>>, max: Option<&Vec<u8>>, order: Order) -> (r: Vec<
        (Vec<u8>, Vec<u8>),
    >) {
        let ghost s = self.view();
        let ghost mn = opt_view(min);
        let ghost mx = opt_view(max);
        let mut asc: Vec<(Vec<u8>, Vec<u8>)> = Vec::new();
        let mut i: usize = 0;
        proof {
            assert(s.subrange(0, 0) =~= Seq::<(Seq<u8>, Seq<u8>)>::empty());
            assert(pair_views(asc@) =~= filter_range(s.subrange(0, 0), mn, mx));
        }
        while i < self.entries.len()
            invariant
                self.wf(),
                s == self.view(),
                mn == opt_view(min),
                mx == opt_view(max),
                i <= self.entries@.len(),
                pair_views(asc@) == filter_range(s.subrange(0, i as int), mn, mx),
            decreases self.entries@.len() - i,
        {
            let inside = match min {
                Some(m) => !bytes_lt(&self.entries[i].0, m),
                None => true,
            } && match max {
                Some(m) => bytes_lt(&self.entries[i].0, m),
                None => true,
            };
            proof {
                lemma_filter_range_snoc(s.subrange(0, i as int), s[i as int], mn, mx);
                assert(s.subrange(0, i + 1) =~= s.subrange(0, i as int).push(s[i as int]));
            }
            if inside {
                let pair = (self.entries[i].0.clone(), self.entries[i].1.clone());
                asc.push(pair);
                proof {
                    assert(pair_views(asc@) =~= filter_range(s.subrange(0, i + 1), mn, mx));
                }
            } else {
                proof {
                    assert(pair_views(asc@) =~= filter_range(s.subrange(0, i + 1), mn, mx));
                }
            }
            i = i + 1;
        }
        proof {
            assert(s.subrange(0, s.len() as int) =~= s);
        }
        match order {
            Order::Ascending => asc,
            Order::Descending => {
                let ghost full = pair_views(asc@);
                let mut out: Vec<(Vec<u8>, Vec<u8>)> = Vec::new();
                proof {
                    assert(rev(Seq::<(Seq<u8>, Seq<u8>)>::empty()) =~= Seq::<
                        (Seq<u8>, Seq<u8>),
                    >::empty());
                    assert(full =~= pair_views(asc@) + Seq::<(Seq<u8>, Seq<u8>)>::empty());
                    assert(rev(full) =~= rev(Seq::<(Seq<u8>, Seq<u8>)>::empty()) + rev(
                        pair_views(asc@),
                    ));
                }
                loop
                    invariant
                        order == Order::Descending,
                        s == self.view(),
                        mn == opt_view(min),
                        mx == opt_view(max),
                        full == filter_range(s, mn, mx),
                        rev(full) == pair_views(out@) + rev(pair_views(asc@)),
                    decreases asc@.len(),
                {
                    let ghost before = pair_views(asc@);
                    match asc.pop() {
                        Some(x) => {
                            out.push(x);
                            proof {
                                assert(before.drop_last() =~= pair_views(asc@));
                                assert(rev(before) == seq![before.last()] + rev(pair_views(asc@)));
                                assert(pair_views(out@) =~= pair_views(out@.drop_last()).push(
                                    (x.0@, x.1@),
                                ));
                                assert(rev(full) =~= pair_views(out@) + rev(pair_views(asc@)));
                            }
                        },
                        None => {
                            proof {
                                assert(pair_views(asc@) =~= Seq::<(Seq<u8>, Seq<u8>)>::empty());
                                assert(rev(pair_views(asc@)) =~= Seq::<(Seq<u8>, Seq<u8>)>::empty());
                                assert(pair_views(out@) =~= rev(full));
                            }
                            return out;
                        },
                    }
                }
            },
        }
    }
}

/// An in-process querier for tests: answers every request with a canned
/// response of the matching variant.
pub struct MockQuerier {
    pub chain_id: Vec<u8>,
    pub block: BlockInfo,
}

impl MockQuerier {
    pub fn new(chain_id: Vec<u8>, height: u64, timestamp: u64) -> (r: Self)
        ensures
            r.chain_id@ == chain_id@,
            r.block == (BlockInfo { height, timestamp }),
    {
        MockQuerier { chain_id, block: BlockInfo { height, timestamp } }
    }
}

impl Querier for MockQuerier {
    fn query_chain(&self, req: &Query) -> (r: Result<QueryResponse, StdError>) {
        match req {
            Query::Info { .. } => Ok(
                QueryResponse::Info(
                    InfoResponse {
                        chain_id: self.chain_id.clone(),
                        last_finalized_block: BlockInfo {
                            height: self.block.height,
                            timestamp: self.block.timestamp,
                        },
                    },
                ),
            ),
            Query::Account { address } => Ok(
                QueryResponse::Account(
                    AccountResponse {
                        address: address.clone(),
                        code_hash: Binary(Vec::new()),
                        admin: None,
                    },
                ),
            ),
            Query::Accounts { .. } => Ok(QueryResponse::Accounts(Vec::new())),
            Query::WasmRaw { contract, key } => Ok(
                QueryResponse::WasmRaw(
                    WasmRawResponse {
                        contract: contract.clone(),
                        key: key.clone(),
                        value: None,
                    },
                ),
            ),
            Query::WasmSmart { contract, .. } => Ok(
                QueryResponse::WasmSmart(
                    WasmSmartResponse { contract: contract.clone(), data: Binary(Vec::new()) },
                ),
            ),
            Query::Config { .. } => Ok(
                QueryResponse::Config(ConfigResponse { owner: None, bank: None }),
            ),
            Query::AppConfig { .. } => Ok(QueryResponse::AppConfig(Binary(Vec::new()))),
            Query::AppConfigs { .. } => Ok(QueryResponse::AppConfigs(Vec::new())),
            Query::Balances { .. } => Ok(QueryResponse::Balances(Vec::new())),
            Query::Supplies { .. } => Ok(QueryResponse::Supplies(Vec::new())),
            Query::Code { .. } => Ok(QueryResponse::Code(Binary(Vec::new()))),
            Query::Codes { .. } => Ok(QueryResponse::Codes(Vec::new())),
            Query::Contract { .. } => Ok(
                QueryResponse::Contract(
                    ContractInfo { code_hash: Binary(Vec::new()), admin: None },
                ),
            ),
            Query::Contracts { .. } => Ok(QueryResponse::Contracts(Vec::new())),
            Query::Multi(reqs) => {
                let mut rs: Vec<QueryResponse> = Vec::new();
                let mut i: usize = 0;
                while i < reqs.len()
                    invariant
                        rs@.len() == i <= reqs@.len(),
                    decreases reqs@.len() - i,
                {
                    rs.push(QueryResponse::Accounts(Vec::new()));
                    i = i + 1;
                }
                Ok(QueryResponse::Multi(rs))
            },
        }
    }
}

} // verus!
