use mutao::blockchain::ethereum::{EthereumAdapter, EthereumConfig};
use mutao::blockchain::solana::{SolanaAdapter, SolanaConfig};
use mutao::blockchain::{BlockchainError, ChainAdapter, ChainManager, ChainType, SwapProof, TransactionStatus};

fn eth() -> ChainAdapter {
    ChainAdapter::Ethereum(EthereumAdapter::new(EthereumConfig {
        rpc_url: "http://localhost:8545".into(),
        contract_address: "0x0".into(),
        chain_id: 1,
    }))
}

fn sol() -> ChainAdapter {
    ChainAdapter::Solana(SolanaAdapter::new(SolanaConfig { rpc_url: "http://localhost:8899".into(), program_id: "p".into() }))
}

fn sample_proof() -> SwapProof {
    SwapProof {
        item_id: "item-1".into(),
        from_user: "alice".into(),
        to_user: "bob".into(),
        item_name: "机械键盘".into(),
        message: "谢谢".into(),
        swap_count: 3,
    }
}

#[test]
fn manager_routes_by_chain() {
    let mut m = ChainManager::new();
    assert!(m.supported_chains().is_empty());
    m.register(sol());
    m.register(eth());
    assert_eq!(m.supported_chains(), vec![ChainType::Solana, ChainType::Ethereum]);
    assert_eq!(m.get_adapter(&ChainType::Ethereum).unwrap().chain_type(), ChainType::Ethereum);
    assert!(m.get_adapter(&ChainType::Move).is_none());
    match m.record_swap(&ChainType::Move, &sample_proof()) {
        Err(BlockchainError::UnsupportedChain(name)) => assert_eq!(name, "Move"),
        other => panic!("unexpected {other:?}"),
    }
    let rec = m.record_swap(&ChainType::Ethereum, &sample_proof()).unwrap();
    assert_eq!(rec.chain, ChainType::Ethereum);
    assert_eq!(rec.tx_hash, format!("0x{:064x}", 0));
    assert!(matches!(rec.status, TransactionStatus::Pending));
    let all = m.record_swap_all(&sample_proof()).unwrap();
    assert_eq!(all.len(), 2);
    assert_eq!(all[0].chain, ChainType::Solana);
    assert_eq!(all[0].tx_hash, "");
}

#[test]
fn record_data_is_proof_json() {
    let p = sample_proof();
    let expected: serde_json::Value = serde_json::from_str(
        r#"{"item_id": "item-1", "from_user": "alice", "to_user": "bob", "item_name": "机械键盘", "message": "谢谢", "swap_count": 3}"#,
    )
    .unwrap();
    let got: serde_json::Value = serde_json::from_str(&p.to_json()).unwrap();
    assert_eq!(got, expected);
    assert_eq!(p.to_json(), "{\"item_id\":\"item-1\",\"from_user\":\"alice\",\"to_user\":\"bob\",\"item_name\":\"机械键盘\",\"message\":\"谢谢\",\"swap_count\":3}");
    let rec = eth().record_swap(&p).unwrap();
    assert_eq!(rec.data, p.to_json());
    let rec_json: serde_json::Value = serde_json::from_str(&rec.to_json()).unwrap();
    assert_eq!(rec_json["status"], "Pending");
    assert_eq!(rec_json["data"], expected);
}

#[test]
fn adapters_report_nothing_yet() {
    for a in [eth(), sol()] {
        assert!(a.get_history("x").unwrap().is_empty());
        assert_eq!(a.get_swap_count("x").unwrap(), 0);
        assert!(!a.verify_transaction("0x1").unwrap());
    }
    assert_eq!(eth().chain_name(), "Ethereum");
    assert_eq!(sol().chain_name(), "Solana");
}

#[test]
fn chain_error_messages() {
    assert_eq!(BlockchainError::RpcError("timeout".into()).message(), "RPC 调用失败: timeout");
    assert_eq!(BlockchainError::UnsupportedChain("Move".into()).message(), "不支持的链: Move");
}

#[test]
fn failed_status_json() {
    let mut out = String::new();
    TransactionStatus::Failed("boom".into()).push_json(&mut out);
    assert_eq!(out, "{\"Failed\":\"boom\"}");
}
