//! The Ethereum adapter.
use vstd::prelude::*;

use crate::blockchain::{
    attestation_record, chain_name_spec, BlockchainError, ChainRecord, ChainType, SwapProof,
    TransactionStatus,
};
use crate::clock::now_secs;
use crate::text::push_char;

verus! {

/// Where the attestation contract lives.
#[derive(Debug, Clone)]
pub struct EthereumConfig {
    pub rpc_url: String,
    pub contract_address: String,
    pub chain_id: u64,
}

/// Attests swaps on Ethereum.
#[derive(Debug, Clone)]
pub struct EthereumAdapter {
    pub config: EthereumConfig,
}

impl EthereumAdapter {
    /// An adapter for the given contract.
    pub fn new(config: EthereumConfig) -> (a: Self)
        ensures
            a.config == config,
    {
        EthereumAdapter { config }
    }

    /// The chain of the adapter.
    pub fn chain_type(&self) -> (c: ChainType)
        ensures
            c == ChainType::Ethereum,
    {
        ChainType::Ethereum
    }

    /// The display name of the chain.
    pub fn chain_name(&self) -> (s: &'static str)
        ensures
            s@ == chain_name_spec(ChainType::Ethereum),
    {
        "Ethereum"
    }

    /// Records the attestation of a swap: a pending transaction with the all-zero hash,
    /// stamped with the current time, carrying the proof.
    pub fn record_swap(&self, proof: &SwapProof) -> (r: Result<ChainRecord, BlockchainError>)
        ensures
            r matches Ok(rec) && attestation_record(ChainType::Ethereum, *proof, rec),
    {
        let mut tx_hash = String::from_str("0x");
        proof {
            reveal_strlit("0x");
            assert(tx_hash@ =~= seq!['0', 'x'] + Seq::new(0, |k: int| '0'));
        }
        let mut i: usize = 0;
        while i < 64
            invariant
                i <= 64,
                tx_hash@ == seq!['0', 'x'] + Seq::new(i as nat, |k: int| '0'),
            decreases 64 - i,
        {
            push_char(&mut tx_hash, '0');
            proof {
                assert(tx_hash@ =~= seq!['0', 'x'] + Seq::new((i + 1) as nat, |k: int| '0'));
            }
            i = i + 1;
        }
        Ok(
            ChainRecord {
                chain: ChainType::Ethereum,
                tx_hash,
                block_number: 0,
                timestamp: now_secs() as u64,
                status: TransactionStatus::Pending,
                data: proof.to_json(),
            },
        )
    }

    /// The attestations of an item; none are kept yet.
    pub fn get_history(&self, item_id: &str) -> (r: Result<Vec<ChainRecord>, BlockchainError>)
        ensures
            r matches Ok(v) && v@.len() == 0,
    {
        Ok(Vec::new())
    }

    /// The number of swaps attested for an item; none are counted yet.
    pub fn get_swap_count(&self, item_id: &str) -> (r: Result<u64, BlockchainError>)
        ensures
            r matches Ok(n) && n == 0,
    {
        Ok(0)
    }

    /// Whether a transaction is confirmed; none is yet.
    pub fn verify_transaction(&self, tx_hash: &str) -> (r: Result<bool, BlockchainError>)
        ensures
            r matches Ok(b) && !b,
    {
        Ok(false)
    }
}

} // verus!
