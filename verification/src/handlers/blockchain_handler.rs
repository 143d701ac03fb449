//! Attesting an item's swap on a chain and reading its attestations.
use vstd::prelude::*;

use crate::blockchain::{
    chain_name_spec, chain_record_json, placeholder_tx_hash, status_json, ChainManager,
    ChainRecord, ChainType, SwapProof, TransactionStatus,
};
use crate::error::AppError;
use crate::models::Item;
use crate::text::{json_string, push_json_string, uuid_text, uuid_text_spec};

verus! {

/// A request to attest the swap of an item.
#[derive(Debug, Clone)]
pub struct AttestReq {
    pub from_user: String,
    pub to_user: String,
    pub item_name: String,
    pub message: Option<String>,
}

/// The proof attested for a request about item `item_id`: the request's parties, item
/// name and message (empty when absent), with a swap count of 0.
pub open spec fn attest_proof_spec(item_id: u128, req: AttestReq, p: SwapProof) -> bool {
    &&& p.item_id@ == uuid_text_spec(item_id)
    &&& p.from_user == req.from_user
    &&& p.to_user == req.to_user
    &&& p.item_name == req.item_name
    &&& p.message@ == match req.message {
        Some(m) => m@,
        None => Seq::empty(),
    }
    &&& p.swap_count == 0
}

/// The proof attested for a request about item `item_id`.
pub fn attest_proof(item_id: u128, req: AttestReq) -> (p: SwapProof)
    ensures
        attest_proof_spec(item_id, req, p),
{
    SwapProof {
        item_id: uuid_text(item_id),
        from_user: req.from_user,
        to_user: req.to_user,
        item_name: req.item_name,
        message: match req.message {
            Some(m) => m,
            None => String::new(),
        },
        swap_count: 0,
    }
}

/// The answer to an attestation:
/// `{"chain": .., "item_id": .., "status": .., "tx_hash": ..}`.
pub open spec fn attest_body(item_id: u128, chain: ChainType, status: TransactionStatus, tx_hash: Seq<char>) -> Seq<char> {
    "{"@ + json_string("chain"@) + ":"@ + json_string(chain_name_spec(chain)) + ","@
        + json_string("item_id"@) + ":"@ + json_string(uuid_text_spec(item_id)) + ","@
        + json_string("status"@) + ":"@ + status_json(status) + ","@ + json_string(
        "tx_hash"@,
    ) + ":"@ + json_string(tx_hash) + "}"@
}

/// Attests the swap of the item `item_id` (absent when no such item is stored) on
/// Ethereum: `NotFound` without an item; an internal error naming the chain error when
/// no Ethereum adapter is registered; otherwise the answer that describes the record.
pub fn attest_item(chains: &ChainManager, item: Option<&Item>, item_id: u128, req: AttestReq) -> (r: Result<String, AppError>)
    ensures
        item is None ==> r matches Err(AppError::NotFound),
        item is Some && !chains.chains().contains(ChainType::Ethereum) ==> (r matches Err(
            AppError::InternalMsg(m),
        ) && m@ == "链上存证失败: "@ + "不支持的链: "@ + chain_name_spec(ChainType::Ethereum)),
        item is Some && chains.chains().contains(ChainType::Ethereum) ==> (r matches Ok(body)
            && body@ == attest_body(
            item_id,
            ChainType::Ethereum,
            TransactionStatus::Pending,
            placeholder_tx_hash(ChainType::Ethereum),
        )),
{
    if item.is_none() {
        return Err(AppError::NotFound);
    }
    let proof = attest_proof(item_id, req);
    match chains.record_swap(&ChainType::Ethereum, &proof) {
        Err(e) => {
            let mut m = String::from_str("链上存证失败: ");
            m.append(e.message().as_str());
            Err(AppError::InternalMsg(m))
        },
        Ok(record) => {
            let mut body = String::from_str("{");
            push_json_string(&mut body, "chain");
            body.append(":");
            push_json_string(&mut body, record.chain.name());
            body.append(",");
            push_json_string(&mut body, "item_id");
            body.append(":");
            let id = uuid_text(item_id);
            push_json_string(&mut body, id.as_str());
            body.append(",");
            push_json_string(&mut body, "status");
            body.append(":");
            record.status.push_json(&mut body);
            body.append(",");
            push_json_string(&mut body, "tx_hash");
            body.append(":");
            push_json_string(&mut body, record.tx_hash.as_str());
            body.append("}");
            proof {
                assert(body@ == attest_body(item_id, record.chain, record.status, record.tx_hash@));
            }
            Ok(body)
        },
    }
}

/// The JSON array of a list of records.
pub open spec fn records_json(records: Seq<ChainRecord>) -> Seq<char>
    decreases records.len(),
{
    if records.len() == 0 {
        "["@ + "]"@
    } else {
        records_items_json(records) + "]"@
    }
}

/// `[` followed by the records separated by commas.
pub open spec fn records_items_json(records: Seq<ChainRecord>) -> Seq<char>
    decreases records.len(),
{
    if records.len() == 0 {
        "["@
    } else if records.len() == 1 {
        "["@ + chain_record_json(records[0])
    } else {
        records_items_json(records.drop_last()) + ","@ + chain_record_json(records.last())
    }
}

/// The answer to a history request: `{"chain": "Ethereum", "item_id": .., "records": [..]}`.
pub open spec fn history_body(item_id: u128, records: Seq<ChainRecord>) -> Seq<char> {
    "{"@ + json_string("chain"@) + ":"@ + json_string("Ethereum"@) + ","@ + json_string(
        "item_id"@,
    ) + ":"@ + json_string(uuid_text_spec(item_id)) + ","@ + json_string("records"@) + ":"@
        + records_json(records) + "}"@
}

/// The attestations of the item `item_id` on Ethereum: `NotFound` when the item is not
/// stored; an internal error when no Ethereum adapter is registered; otherwise the
/// answer that lists the records.
pub fn item_history(chains: &ChainManager, item_exists: bool, item_id: u128) -> (r: Result<String, AppError>)
    ensures
        !item_exists ==> r matches Err(AppError::NotFound),
        item_exists && !chains.chains().contains(ChainType::Ethereum) ==> (r matches Err(
            AppError::InternalMsg(m),
        ) && m@ == "查询链上历史失败: "@ + "不支持的链: "@ + chain_name_spec(ChainType::Ethereum)),
        item_exists && chains.chains().contains(ChainType::Ethereum) ==> (r matches Ok(body)
            && body@ == history_body(item_id, Seq::empty())),
{
    if !item_exists {
        return Err(AppError::NotFound);
    }
    let id = uuid_text(item_id);
    match chains.get_history(&ChainType::Ethereum, id.as_str()) {
        Err(e) => {
            let mut m = String::from_str("查询链上历史失败: ");
            m.append(e.message().as_str());
            Err(AppError::InternalMsg(m))
        },
        Ok(records) => {
            let mut body = String::from_str("{");
            push_json_string(&mut body, "chain");
            body.append(":");
            push_json_string(&mut body, "Ethereum");
            body.append(",");
            push_json_string(&mut body, "item_id");
            body.append(":");
            push_json_string(&mut body, id.as_str());
            body.append(",");
            push_json_string(&mut body, "records");
            body.append(":");
            let list = records_json_text(&records);
            body.append(list.as_str());
            body.append("}");
            Ok(body)
        },
    }
}

/// The JSON array of a list of records.
pub fn records_json_text(records: &Vec<ChainRecord>) -> (s: String)
    ensures
        s@ == records_json(records@),
{
    let mut s = String::from_str("[");
    let mut i: usize = 0;
    proof {
        assert(records@.subrange(0, 0).len() == 0);
    }
    while i < records.len()
        invariant
            i <= records@.len(),
            s@ == records_items_json(records@.subrange(0, i as int)),
        decreases records@.len() - i,
    {
        let ghost before = records@.subrange(0, i as int);
        if i > 0 {
            s.append(",");
        }
        let item = records[i].to_json();
        s.append(item.as_str());
        proof {
            let after = records@.subrange(0, i + 1);
            assert(after.drop_last() =~= before);
            assert(after.last() == records@[i as int]);
            if i == 0 {
                assert(after.len() == 1);
                assert(after[0] == records@[0]);
            }
        }
        i = i + 1;
    }
    s.append("]");
    proof {
        assert(records@.subrange(0, records@.len() as int) =~= records@);
    }
    s
}

} // verus!
