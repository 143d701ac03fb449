//! The Solana adapter.
use vstd::prelude::*;

use crate::blockchain::{
    attestation_record, chain_name_spec, BlockchainError, ChainRecord, ChainType, SwapProof,
    TransactionStatus,
};
use crate::clock::now_secs;

verus! {

/// Where the attestation program lives.
#[derive(Debug, Clone)]
pub struct SolanaConfig {
    pub rpc_url: String,
    pub program_id: String,
}

/// Attests swaps on Solana.
#[derive(Debug, Clone)]
pub struct SolanaAdapter {
    pub config: SolanaConfig,
}

impl SolanaAdapter {
    /// An adapter for the given program.
    pub fn new(config: SolanaConfig) -> (a: Self)
        ensures
            a.config == config,
    {
        SolanaAdapter { config }
    }

    /// The chain of the adapter.
    pub fn chain_type(&self) -> (c: ChainType)
        ensures
            c == ChainType::Solana,
    {
        ChainType::Solana
    }

    /// The display name of the chain.
    pub fn chain_name(&self) -> (s: &'static str)
        ensures
            s@ == chain_name_spec(ChainType::Solana),
    {
        "Solana"
    }

    /// Records the attestation of a swap: a pending transaction with an empty hash,
    /// stamped with the current time, carrying the proof.
    pub fn record_swap(&self, proof: &SwapProof) -> (r: Result<ChainRecord, BlockchainError>)
        ensures
            r matches Ok(rec) && attestation_record(ChainType::Solana, *proof, rec),
    {
        Ok(
            ChainRecord {
                chain: ChainType::Solana,
                tx_hash: String::new(),
                block_number: 0,
                timestamp: now_secs() as u64,
                status: TransactionStatus::Pending,
                data: proof.to_json(),
            },
        )
    }

    /// The attestations of an item; none are kept yet.
    pub fn get_history(&self, item_id: &str) -> (r: Result<Vec<ChainRecord>, BlockchainError>)
        ensures
            r matches Ok(v) && v@.len() == 0,
    {
        Ok(Vec::new())
    }

    /// The number of swaps attested for an item; none are counted yet.
    pub fn get_swap_count(&self, item_id: &str) -> (r: Result<u64, BlockchainError>)
        ensures
            r matches Ok(n) && n == 0,
    {
        Ok(0)
    }

    /// Whether a transaction is confirmed; none is yet.
    pub fn verify_transaction(&self, tx_hash: &str) -> (r: Result<bool, BlockchainError>)
        ensures
            r matches Ok(b) && !b,
    {
        Ok(false)
    }
}

} // verus!
