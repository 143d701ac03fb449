//! Attestation of swaps on blockchains: the records, the adapters of the supported
//! chains, and the manager that routes a request to the adapter of a chain.
use vstd::prelude::*;

use crate::text::{decimal, json_string, push_decimal, push_json_string};

pub mod ethereum;
pub mod solana;

use ethereum::EthereumAdapter;
use solana::SolanaAdapter;

verus! {

/// An error reported by a chain adapter.
#[derive(Debug, Clone)]
pub enum BlockchainError {
    RpcError(String),
    TransactionError(String),
    ContractError(String),
    SigningError(String),
    ConfigError(String),
    UnsupportedChain(String),
}

/// The text that describes a chain error.
pub open spec fn chain_error_text(e: BlockchainError) -> Seq<char> {
    match e {
        BlockchainError::RpcError(m) => "RPC 调用失败: "@ + m@,
        BlockchainError::TransactionError(m) => "交易失败: "@ + m@,
        BlockchainError::ContractError(m) => "合约调用失败: "@ + m@,
        BlockchainError::SigningError(m) => "签名失败: "@ + m@,
        BlockchainError::ConfigError(m) => "配置错误: "@ + m@,
        BlockchainError::UnsupportedChain(m) => "不支持的链: "@ + m@,
    }
}

impl BlockchainError {
    /// The text that describes the error.
    pub fn message(&self) -> (s: String)
        ensures
            s@ == chain_error_text(*self),
    {
        let (prefix, m) = match self {
            BlockchainError::RpcError(m) => ("RPC 调用失败: ", m),
            BlockchainError::TransactionError(m) => ("交易失败: ", m),
            BlockchainError::ContractError(m) => ("合约调用失败: ", m),
            BlockchainError::SigningError(m) => ("签名失败: ", m),
            BlockchainError::ConfigError(m) => ("配置错误: ", m),
            BlockchainError::UnsupportedChain(m) => ("不支持的链: ", m),
        };
        let mut s = String::from_str(prefix);
        s.append(m.as_str());
        s
    }
}

/// The chains a swap can be attested on.
#[derive(Debug, Clone, Copy, PartialEq, Eq, Structural)]
pub enum ChainType {
    Ethereum,
    Solana,
    Move,
}

/// The name of a chain.
pub open spec fn chain_name_spec(c: ChainType) -> Seq<char> {
    match c {
        ChainType::Ethereum => "Ethereum"@,
        ChainType::Solana => "Solana"@,
        ChainType::Move => "Move"@,
    }
}

impl ChainType {
    /// The name of the chain.
    pub fn name(&self) -> (s: &'static str)
        ensures
            s@ == chain_name_spec(*self),
    {
        match self {
            ChainType::Ethereum => "Ethereum",
            ChainType::Solana => "Solana",
            ChainType::Move => "Move",
        }
    }
}

/// The state of a transaction on a chain.
#[derive(Debug, Clone)]
pub enum TransactionStatus {
    Pending,
    Confirmed,
    Failed(String),
}

/// The JSON form of a transaction state.
pub open spec fn status_json(s: TransactionStatus) -> Seq<char> {
    match s {
        TransactionStatus::Pending => json_string("Pending"@),
        TransactionStatus::Confirmed => json_string("Confirmed"@),
        TransactionStatus::Failed(m) => "{"@ + json_string("Failed"@) + ":"@ + json_string(m@) + "}"@,
    }
}

impl TransactionStatus {
    /// Appends the JSON form of the state to `out`.
    pub fn push_json(&self, out: &mut String)
        ensures
            final(out)@ == old(out)@ + status_json(*self),
    {
        let ghost start = out@;
        match self {
            TransactionStatus::Pending => push_json_string(out, "Pending"),
            TransactionStatus::Confirmed => push_json_string(out, "Confirmed"),
            TransactionStatus::Failed(m) => {
                out.append("{");
                push_json_string(out, "Failed");
                out.append(":");
                push_json_string(out, m.as_str());
                out.append("}");
            },
        }
        assert(out@ =~= start + status_json(*self));
    }
}

/// The data attested for a swap.
#[derive(Debug, Clone)]
pub struct SwapProof {
    pub item_id: String,
    pub from_user: String,
    pub to_user: String,
    pub item_name: String,
    pub message: String,
    pub swap_count: u64,
}

/// The JSON form of a swap proof, its fields in declaration order.
pub open spec fn swap_proof_json(p: SwapProof) -> Seq<char> {
    "{"@ + json_string("item_id"@) + ":"@ + json_string(p.item_id@) + ","@ + json_string(
        "from_user"@,
    ) + ":"@ + json_string(p.from_user@) + ","@ + json_string("to_user"@) + ":"@ + json_string(
        p.to_user@,
    ) + ","@ + json_string("item_name"@) + ":"@ + json_string(p.item_name@) + ","@ + json_string(
        "message"@,
    ) + ":"@ + json_string(p.message@) + ","@ + json_string("swap_count"@) + ":"@ + decimal(
        p.swap_count as nat,
    ) + "}"@
}

/// Appends `"key":` to `out`.
pub fn push_key(out: &mut String, key: &str)
    ensures
        final(out)@ == old(out)@ + json_string(key@) + ":"@,
{
    push_json_string(out, key);
    out.append(":");
}

impl SwapProof {
    /// The JSON form of the proof.
    pub fn to_json(&self) -> (s: String)
        ensures
            s@ == swap_proof_json(*self),
    {
        let mut s = String::from_str("{");
        push_key(&mut s, "item_id");
        push_json_string(&mut s, self.item_id.as_str());
        s.append(",");
        push_key(&mut s, "from_user");
        push_json_string(&mut s, self.from_user.as_str());
        s.append(",");
        push_key(&mut s, "to_user");
        push_json_string(&mut s, self.to_user.as_str());
        s.append(",");
        push_key(&mut s, "item_name");
        push_json_string(&mut s, self.item_name.as_str());
        s.append(",");
        push_key(&mut s, "message");
        push_json_string(&mut s, self.message.as_str());
        s.append(",");
        push_key(&mut s, "swap_count");
        push_decimal(&mut s, self.swap_count);
        s.append("}");
        s
    }
}

/// A transaction recorded on a chain. `data` holds the attested data as JSON text.
#[derive(Debug, Clone)]
pub struct ChainRecord {
    pub chain: ChainType,
    pub tx_hash: String,
    pub block_number: u64,
    pub timestamp: u64,
    pub status: TransactionStatus,
    pub data: String,
}

/// The JSON form of a chain record, its fields in declaration order.
pub open spec fn chain_record_json(r: ChainRecord) -> Seq<char> {
    "{"@ + json_string("chain"@) + ":"@ + json_string(chain_name_spec(r.chain)) + ","@
        + json_string("tx_hash"@) + ":"@ + json_string(r.tx_hash@) + ","@ + json_string(
        "block_number"@,
    ) + ":"@ + decimal(r.block_number as nat) + ","@ + json_string("timestamp"@) + ":"@ + decimal(
        r.timestamp as nat,
    ) + ","@ + json_string("status"@) + ":"@ + status_json(r.status) + ","@ + json_string(
        "data"@,
    ) + ":"@ + r.data@ + "}"@
}

impl ChainRecord {
    /// The JSON form of the record.
    pub fn to_json(&self) -> (out: String)
        ensures
            out@ == chain_record_json(*self),
    {
        let mut out = String::from_str("{");
        push_key(&mut out, "chain");
        push_json_string(&mut out, self.chain.name());
        out.append(",");
        push_key(&mut out, "tx_hash");
        push_json_string(&mut out, self.tx_hash.as_str());
        out.append(",");
        push_key(&mut out, "block_number");
        push_decimal(&mut out, self.block_number);
        out.append(",");
        push_key(&mut out, "timestamp");
        push_decimal(&mut out, self.timestamp);
        out.append(",");
        push_key(&mut out, "status");
        self.status.push_json(&mut out);
        out.append(",");
        push_key(&mut out, "data");
        out.append(self.data.as_str());
        out.append("}");
        out
    }
}

/// The adapters of the supported chains.
#[derive(Debug, Clone)]
pub enum ChainAdapter {
    Ethereum(EthereumAdapter),
    Solana(SolanaAdapter),
}

/// The chain an adapter writes to.
pub open spec fn adapter_chain(a: ChainAdapter) -> ChainType {
    match a {
        ChainAdapter::Ethereum(_) => ChainType::Ethereum,
        ChainAdapter::Solana(_) => ChainType::Solana,
    }
}

/// The transaction hash an adapter reports for a new attestation.
pub open spec fn placeholder_tx_hash(c: ChainType) -> Seq<char> {
    match c {
        ChainType::Ethereum => seq!['0', 'x'] + Seq::new(64, |i: int| '0'),
        _ => Seq::empty(),
    }
}

/// `rec` is the record an adapter of chain `c` makes for `proof`: a pending
/// transaction in block 0 with the placeholder hash of the chain and the proof as data.
pub open spec fn attestation_record(c: ChainType, proof: SwapProof, rec: ChainRecord) -> bool {
    &&& rec.chain == c
    &&& rec.tx_hash@ == placeholder_tx_hash(c)
    &&& rec.block_number == 0
    &&& rec.status is Pending
    &&& rec.data@ == swap_proof_json(proof)
}

impl ChainAdapter {
    /// The chain the adapter writes to.
    pub fn chain_type(&self) -> (c: ChainType)
        ensures
            c == adapter_chain(*self),
    {
        match self {
            ChainAdapter::Ethereum(a) => a.chain_type(),
            ChainAdapter::Solana(a) => a.chain_type(),
        }
    }

    /// The display name of the chain.
    pub fn chain_name(&self) -> (s: &'static str)
        ensures
            s@ == chain_name_spec(adapter_chain(*self)),
    {
        match self {
            ChainAdapter::Ethereum(a) => a.chain_name(),
            ChainAdapter::Solana(a) => a.chain_name(),
        }
    }

    /// Attests a swap.
    pub fn record_swap(&self, proof: &SwapProof) -> (r: Result<ChainRecord, BlockchainError>)
        ensures
            r matches Ok(rec) && attestation_record(adapter_chain(*self), *proof, rec),
    {
        match self {
            ChainAdapter::Ethereum(a) => a.record_swap(proof),
            ChainAdapter::Solana(a) => a.record_swap(proof),
        }
    }

    /// The attestations recorded for an item.
    pub fn get_history(&self, item_id: &str) -> (r: Result<Vec<ChainRecord>, BlockchainError>)
        ensures
            r matches Ok(v) && v@.len() == 0,
    {
        match self {
            ChainAdapter::Ethereum(a) => a.get_history(item_id),
            ChainAdapter::Solana(a) => a.get_history(item_id),
        }
    }

    /// The number of swaps attested for an item.
    pub fn get_swap_count(&self, item_id: &str) -> (r: Result<u64, BlockchainError>)
        ensures
            r matches Ok(n) && n == 0,
    {
        match self {
            ChainAdapter::Ethereum(a) => a.get_swap_count(item_id),
            ChainAdapter::Solana(a) => a.get_swap_count(item_id),
        }
    }

    /// Whether a transaction is confirmed on the chain.
    pub fn verify_transaction(&self, tx_hash: &str) -> (r: Result<bool, BlockchainError>)
        ensures
            r matches Ok(b) && !b,
    {
        match self {
            ChainAdapter::Ethereum(a) => a.verify_transaction(tx_hash),
            ChainAdapter::Solana(a) => a.verify_transaction(tx_hash),
        }
    }
}

/// The registered adapters, in order of registration.
pub struct ChainManager {
    adapters: Vec<ChainAdapter>,
}

/// The position of the first adapter of chain `c` among those of `chains`, if any.
pub open spec fn first_adapter_of(chains: Seq<ChainType>, c: ChainType, i: int) -> bool {
    &&& 0 <= i < chains.len()
    &&& chains[i] == c
    &&& forall|j: int| 0 <= j < i ==> chains[j] != c
}

impl ChainManager {
    /// The registered adapters.
    pub closed spec fn adapters(&self) -> Seq<ChainAdapter> {
        self.adapters@
    }

    /// The chains of the registered adapters, in order of registration.
    pub open spec fn chains(&self) -> Seq<ChainType> {
        self.adapters().map_values(|a: ChainAdapter| adapter_chain(a))
    }

    /// A manager without adapters.
    pub fn new() -> (m: Self)
        ensures
            m.adapters() == Seq::<ChainAdapter>::empty(),
    {
        ChainManager { adapters: Vec::new() }
    }

    /// Adds an adapter after those already registered.
    pub fn register(&mut self, adapter: ChainAdapter)
        ensures
            final(self).adapters() == old(self).adapters().push(adapter),
    {
        self.adapters.push(adapter);
    }

    /// The first registered adapter of the chain, if any.
    pub fn get_adapter(&self, chain: &ChainType) -> (r: Option<&ChainAdapter>)
        ensures
            r is None <==> !self.chains().contains(*chain),
            r matches Some(a) ==> exists|i: int|
                first_adapter_of(self.chains(), *chain, i) && *a == self.adapters()[i],
    {
        let mut i: usize = 0;
        while i < self.adapters.len()
            invariant
                i <= self.adapters@.len(),
                forall|j: int| 0 <= j < i ==> self.chains()[j] != *chain,
            decreases self.adapters@.len() - i,
        {
            if self.adapters[i].chain_type() == *chain {
                proof {
                    assert(first_adapter_of(self.chains(), *chain, i as int));
                }
                return Some(&self.adapters[i]);
            }
            i = i + 1;
        }
        proof {
            if self.chains().contains(*chain) {
                let j = choose|j: int| 0 <= j < self.chains().len() && self.chains()[j] == *chain;
                assert(self.chains()[j] != *chain);
            }
        }
        None
    }

    /// The chains of the registered adapters.
    pub fn supported_chains(&self) -> (v: Vec<ChainType>)
        ensures
            v@ == self.chains(),
    {
        let mut v: Vec<ChainType> = Vec::new();
        let mut i: usize = 0;
        while i < self.adapters.len()
            invariant
                i <= self.adapters@.len(),
                v@ == self.chains().subrange(0, i as int),
            decreases self.adapters@.len() - i,
        {
            v.push(self.adapters[i].chain_type());
            proof {
                assert(v@ =~= self.chains().subrange(0, i + 1));
            }
            i = i + 1;
        }
        proof {
            assert(self.chains().subrange(0, self.adapters@.len() as int) =~= self.chains());
        }
        v
    }

    /// Attests a swap on one chain: with the first adapter of that chain, or
    /// `UnsupportedChain` naming the chain when no adapter of it is registered.
    pub fn record_swap(&self, chain: &ChainType, proof: &SwapProof) -> (r: Result<
        ChainRecord,
        BlockchainError,
    >)
        ensures
            !self.chains().contains(*chain) ==> (r matches Err(BlockchainError::UnsupportedChain(m))
                && m@ == chain_name_spec(*chain)),
            self.chains().contains(*chain) ==> (r matches Ok(rec) && attestation_record(
                *chain,
                *proof,
                rec,
            )),
    {
        match self.get_adapter(chain) {
            None => Err(BlockchainError::UnsupportedChain(String::from_str(chain.name()))),
            Some(adapter) => adapter.record_swap(proof),
        }
    }

    /// The attestations of an item on one chain, or `UnsupportedChain` naming the chain
    /// when no adapter of it is registered.
    pub fn get_history(&self, chain: &ChainType, item_id: &str) -> (r: Result<
        Vec<ChainRecord>,
        BlockchainError,
    >)
        ensures
            !self.chains().contains(*chain) ==> (r matches Err(BlockchainError::UnsupportedChain(m))
                && m@ == chain_name_spec(*chain)),
            self.chains().contains(*chain) ==> (r matches Ok(v) && v@.len() == 0),
    {
        match self.get_adapter(chain) {
            None => Err(BlockchainError::UnsupportedChain(String::from_str(chain.name()))),
            Some(adapter) => adapter.get_history(item_id),
        }
    }

    /// Attests a swap on every registered chain, in order of registration; a chain that
    /// fails is skipped.
    pub fn record_swap_all(&self, proof: &SwapProof) -> (r: Result<
        Vec<ChainRecord>,
        BlockchainError,
    >)
        ensures
            r matches Ok(records) && records@.len() == self.chains().len() && forall|i: int|
                0 <= i < records@.len() ==> attestation_record(
                    self.chains()[i],
                    *proof,
                    #[trigger] records@[i],
                ),
    {
        let mut records: Vec<ChainRecord> = Vec::new();
        let mut i: usize = 0;
        while i < self.adapters.len()
            invariant
                i <= self.adapters@.len(),
                records@.len() == i,
                forall|k: int|
                    0 <= k < i ==> attestation_record(
                        self.chains()[k],
                        *proof,
                        #[trigger] records@[k],
                    ),
            decreases self.adapters@.len() - i,
        {
            match self.adapters[i].record_swap(proof) {
                Ok(record) => records.push(record),
                Err(_) => {},
            }
            i = i + 1;
        }
        Ok(records)
    }
}

impl Default for ChainManager {
    /// A manager without adapters.
    fn default() -> (m: Self)
        ensures
            m.adapters() == Seq::<ChainAdapter>::empty(),
    {
        ChainManager::new()
    }
}

} // verus!
