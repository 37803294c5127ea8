//! The account report: which rows the output holds, in which order, under
//! which header. Writing them out is left to the caller.

use std::collections::HashMap;

use vstd::prelude::*;

use crate::engine::totals_representable;
use crate::model::{Account, AccountArithmeticError, AccountRecord, ClientId};

verus! {

broadcast use vstd::std_specs::hash::group_hash_axioms;

/// The header row of the account output.
pub fn account_headers() -> (r: [&'static str; 5])
    ensures
        r@ == seq!["client", "available", "held", "total", "locked"],
{
    ["client", "available", "held", "total", "locked"]
}

/// Some row of `records` is the one for client `c`.
pub open spec fn listed(records: Seq<AccountRecord>, c: u16) -> bool {
    exists|i: int| 0 <= i < records.len() && records[i].client.0 == c
}

/// The rows of `accounts` in ascending client order, each rendered.
///
/// Rendering stops at the first account (in that order) whose total is not
/// representable: the rows before it are returned with that client and error.
pub fn account_records(accounts: &HashMap<u16, Account>) -> (r: (Vec<AccountRecord>, Option<(ClientId, AccountArithmeticError)>))
    ensures
        forall|i: int, j: int| 0 <= i < j < r.0.len() ==> r.0[i].client.0 < r.0[j].client.0,
        forall|i: int| #![trigger r.0[i]] 0 <= i < r.0.len() ==> {
            &&& accounts@.contains_key(r.0[i].client.0)
            &&& r.0[i].renders(r.0[i].client, accounts@[r.0[i].client.0])
        },
        totals_representable(accounts@) ==> r.1 is None,
        r.1 is None ==> forall|c: u16| #[trigger] accounts@.contains_key(c) ==>
            listed(r.0@, c),
        r.1 matches Some(failure) ==> {
            &&& accounts@.contains_key(failure.0.0)
            &&& accounts@[failure.0.0].spec_total() == Err::<crate::amount::Amount, AccountArithmeticError>(failure.1)
            &&& forall|i: int| 0 <= i < r.0.len() ==> r.0[i].client.0 < failure.0.0
            &&& forall|c: u16| #[trigger] accounts@.contains_key(c) && c < failure.0.0 ==>
                listed(r.0@, c)
        },
{
    let mut records: Vec<AccountRecord> = Vec::new();
    let mut id: u32 = 0;
    let count = accounts.len();
    let ghost mut seen: Set<u16> = Set::empty();
    // Client ids are visited in ascending order until every account is listed.
    while id <= 65535 && records.len() < count
        invariant
            id <= 65536,
            count == accounts@.len(),
            accounts@.dom().finite(),
            seen =~= accounts@.dom().filter(|k: u16| k < id),
            records.len() == seen.len(),
            forall|i: int, j: int| 0 <= i < j < records.len() ==> records[i].client.0 < records[j].client.0,
            forall|i: int| #![trigger records[i]] 0 <= i < records.len() ==> {
                &&& records[i].client.0 < id
                &&& accounts@.contains_key(records[i].client.0)
                &&& records[i].renders(records[i].client, accounts@[records[i].client.0])
            },
            forall|c: u16| #[trigger] accounts@.contains_key(c) && c < id ==>
                listed(records@, c),
        decreases 65536 - id,
    {
        let client = ClientId(id as u16);
        let ghost before = records@;
        let ghost seen_before = seen;
        if let Some(account) = accounts.get(&client.0) {
            match AccountRecord::new(client, account) {
                Ok(record) => {
                    records.push(record);
                    assert(records[records.len() - 1].client.0 == id);
                    proof {
                        assert(!seen.contains(client.0));
                        seen = seen.insert(client.0);
                    }
                },
                Err(e) => {
                    return (records, Some((client, e)));
                },
            }
        }
        assert forall|c: u16| #[trigger] accounts@.contains_key(c) && c < id + 1 implies
            listed(records@, c) by {
            if c < id {
                let i = choose|i: int| 0 <= i < before.len() && before[i].client.0 == c;
                assert(records[i] == before[i]);
            } else {
                assert(records[records.len() - 1].client.0 == c);
            }
        }
        id = id + 1;
        assert(seen =~= accounts@.dom().filter(|k: u16| k < id));
    }
    proof {
        if id <= 65535 {
            vstd::set_lib::lemma_len_subset(seen, accounts@.dom());
            vstd::set_lib::lemma_subset_equality(seen, accounts@.dom());
            assert forall|c: u16| #[trigger] accounts@.contains_key(c) implies listed(records@, c) by {
                assert(seen.contains(c));
            }
        }
    }
    (records, None)
}

} // verus!
