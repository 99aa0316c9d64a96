use veilocity::indexer::sync_progress;
use veilocity::password::{validate_password, PasswordError};
use veilocity::config::SettingError;
use veilocity::display::format_timestamp;
use veilocity::anchor::{StateRootEntry, StateRootHistory};
use veilocity::config::{Config, NetworkConfig, ProverConfig, SyncConfig};
use veilocity::decimal::{parse_u128, u128_to_decimal};
use veilocity::display::{format_address, format_hash, step, ZkStage};
use veilocity::error::CoreError;
use veilocity::hexfmt::{hex_prefixed, strip_hex_prefix, trim_hex_prefix};
use veilocity::poseidon::u64_to_field;
use veilocity::prover::{CircuitType, Proof};
use veilocity::transaction::{
    DepositTransaction, Transaction, TransactionStatus, TransactionType, TransferTransaction,
    WithdrawTransaction,
};

#[test]
fn test_default_config() {
    let config = Config::default();
    assert_eq!(config.network.chain_id, 5003); // Sepolia
    assert_eq!(config.sync.poll_interval_secs, 12);
}

#[test]
fn test_network_configs() {
    let sepolia = NetworkConfig::sepolia();
    assert_eq!(sepolia.chain_id, 5003);

    let mainnet = NetworkConfig::mainnet();
    assert_eq!(mainnet.chain_id, 5000);
}

#[test]
fn test_format_address() {
    assert_eq!(
        format_address("0x1234567890abcdef1234567890abcdef12345678"),
        "0x12345678...345678"
    );
}

#[test]
fn test_format_hash() {
    assert_eq!(
        format_hash("0x1234567890abcdef1234567890abcdef"),
        "0x1234567890abcd..."
    );
}

#[test]
fn test_circuit_type_names() {
    assert_eq!(CircuitType::Deposit.name(), "deposit");
    assert_eq!(CircuitType::Withdraw.name(), "withdraw");
    assert_eq!(CircuitType::Transfer.name(), "transfer");
}

#[test]
fn test_proof_hex() {
    let proof = Proof::new(vec![1, 2, 3, 4], vec![], CircuitType::Deposit);
    assert_eq!(proof.proof_hex(), "0x01020304");
}

#[test]
fn test_state_root_history() {
    let mut history = StateRootHistory::with_capacity(3);

    let root1 = [1u8; 32];
    let root2 = [2u8; 32];
    let root3 = [3u8; 32];
    let root4 = [4u8; 32];

    history.add(StateRootEntry::new(root1, 100, 0, 1000));
    history.add(StateRootEntry::new(root2, 200, 1, 2000));
    history.add(StateRootEntry::new(root3, 300, 2, 3000));

    assert_eq!(history.len(), 3);
    assert!(history.contains(&root1));
    assert!(history.contains(&root2));
    assert!(history.contains(&root3));

    // Adding one more should evict the oldest
    history.add(StateRootEntry::new(root4, 400, 3, 4000));

    assert_eq!(history.len(), 3);
    assert!(!history.contains(&root1)); // Evicted
    assert!(history.contains(&root2));
    assert!(history.contains(&root3));
    assert!(history.contains(&root4));

    assert_eq!(history.latest_root(), Some(root4));
}

#[test]
fn history_helpers() {
    let mut history = StateRootHistory::new();
    assert!(history.is_empty());
    assert!(history.latest().is_none());
    assert_eq!(history.latest_root(), None);
    for i in 0..101u64 {
        history.add(StateRootEntry::new([i as u8; 32], i, i, i));
    }
    assert_eq!(history.len(), 100);
    assert_eq!(history.all()[0].block_number, 1);
    assert_eq!(history.latest().unwrap().block_number, 100);
    assert_eq!(history.get(&[5u8; 32]).unwrap().batch_index, 5);
    assert!(history.get(&[0u8; 32]).is_none());
    assert_eq!(
        history.all()[0].root_hex(),
        "0x0101010101010101010101010101010101010101010101010101010101010101"
    );
    history.clear();
    assert!(history.is_empty());

    let mut unbounded = StateRootHistory::default();
    unbounded.add(StateRootEntry::new([1u8; 32], 1, 1, 1));
    unbounded.add(StateRootEntry::new([2u8; 32], 2, 2, 2));
    assert_eq!(unbounded.len(), 1);
    assert_eq!(unbounded.latest_root(), Some([2u8; 32]));
}

#[test]
fn network_is_chosen_by_name_in_any_case() {
    assert_eq!(Config::for_network("mainnet").network.chain_id, 5000);
    assert_eq!(Config::for_network("MainNet").network.chain_id, 5000);
    assert_eq!(Config::for_network("sepolia").network.chain_id, 5003);
    assert_eq!(Config::for_network("anything").network.chain_id, 5003);
    let config = Config::for_network("mainnet");
    assert_eq!(config.network.rpc_url, "https://rpc.mantle.xyz");
    assert_eq!(config.network.explorer_url.as_deref(), Some("https://explorer.mantle.xyz"));
    assert!(config.network.vault_address.is_empty());
    assert!(config.data_dir.is_empty());
    let sepolia = NetworkConfig::default();
    assert_eq!(sepolia.rpc_url, "https://rpc.sepolia.mantle.xyz");
    assert_eq!(sepolia.explorer_url.as_deref(), Some("https://explorer.sepolia.mantle.xyz"));
    let prover = ProverConfig::default();
    assert_eq!((prover.threads, prover.cache_proofs, prover.circuits_path), (4, true, None));
    let sync = SyncConfig::default();
    assert_eq!((sync.poll_interval_secs, sync.confirmations), (12, 2));
    assert_eq!((sync.deployment_block, sync.indexer_url), (None, None));
}

#[test]
fn short_forms_leave_short_texts_alone() {
    assert_eq!(format_address("0x1234567890abcd"), "0x1234567890abcd");
    assert_eq!(format_address("0x1234567890abcde"), "0x12345678...0abcde");
    assert_eq!(format_address(""), "");
    assert_eq!(format_hash("0x1234567890abcdef12"), "0x1234567890abcdef12");
    assert_eq!(format_hash("0x1234567890abcdef123"), "0x1234567890abcd...");
    assert_eq!(step(3, "Sync"), "3. Sync");
    assert_eq!(step(255, ""), "255. ");
}

#[test]
fn stages_have_names_descriptions_and_icons() {
    assert_eq!(ZkStage::WitnessGeneration.name(), "Witness Generation");
    assert_eq!(ZkStage::Verification.name(), "Local Verification");
    assert_eq!(
        ZkStage::ProofComputation.description(),
        "Computing UltraPlonk proof using Barretenberg"
    );
    assert_eq!(ZkStage::ConstraintSatisfaction.icon(), "◇");
    assert_eq!(ZkStage::PolynomialCommitment.icon(), "◆");
    assert_eq!(ZkStage::PolynomialCommitment.name(), "Polynomial Commitment");
}

#[test]
fn decimal_text_is_written_and_read() {
    assert_eq!(u128_to_decimal(0), "0");
    assert_eq!(u128_to_decimal(10), "10");
    assert_eq!(u128_to_decimal(1_000_000_000_000_000_000), "1000000000000000000");
    assert_eq!(u128_to_decimal(u128::MAX), "340282366920938463463374607431768211455");
    assert_eq!(parse_u128("340282366920938463463374607431768211455"), Some(u128::MAX));
    assert_eq!(parse_u128("340282366920938463463374607431768211456"), None);
    assert_eq!(parse_u128("0012"), Some(12));
    assert_eq!(parse_u128("+12"), Some(12));
    assert_eq!(parse_u128(""), None);
    assert_eq!(parse_u128("+"), None);
    assert_eq!(parse_u128("-1"), None);
    assert_eq!(parse_u128("1 "), None);
    assert_eq!(parse_u128("12a"), None);
}

#[test]
fn hex_prefixes_are_stripped_once_or_all() {
    assert_eq!(strip_hex_prefix("0x0xab"), "0xab");
    assert_eq!(strip_hex_prefix("ab"), "ab");
    assert_eq!(strip_hex_prefix("0"), "0");
    assert_eq!(trim_hex_prefix("0x0xab"), "ab");
    assert_eq!(trim_hex_prefix("0x"), "");
    assert_eq!(trim_hex_prefix("x0ab"), "x0ab");
    assert_eq!(hex_prefixed(&[0x00, 0xff, 0x1a]), "0x00ff1a");
    assert_eq!(hex_prefixed(&[]), "0x");
}

#[test]
fn errors_describe_themselves() {
    assert_eq!(CoreError::TreeFull.message(), "Tree full");
    assert_eq!(CoreError::InvalidMerkleProof.message(), "Invalid Merkle proof");
    assert_eq!(CoreError::InvalidFieldElement.message(), "Invalid field element");
    assert_eq!(CoreError::InvalidSecretKey.message(), "Invalid secret key");
    assert_eq!(
        CoreError::AccountNotFound("7".to_string()).message(),
        "Account not found: 7"
    );
    assert_eq!(
        CoreError::NullifierUsed("ab".to_string()).message(),
        "Nullifier already used: ab"
    );
    assert_eq!(
        CoreError::InsufficientBalance { have: 10, need: 11 }.message(),
        "Insufficient balance: have 10, need 11"
    );
    assert_eq!(CoreError::Database("x".to_string()).message(), "Database error: x");
}

#[test]
fn transactions_start_pending_and_report_their_fields() {
    let deposit = DepositTransaction::new(u64_to_field(0xab), 5, 1000);
    assert_eq!(deposit.status, TransactionStatus::Pending);
    assert_eq!(
        deposit.commitment_hex(),
        "0x00000000000000000000000000000000000000000000000000000000000000ab"
    );
    assert!(deposit.tx_hash.is_none() && deposit.block_number.is_none());
    assert!(deposit.leaf_index.is_none());

    let transfer = TransferTransaction::new(
        u64_to_field(1),
        u64_to_field(2),
        6,
        u64_to_field(3),
        u64_to_field(4),
        2000,
    );
    assert_eq!(transfer.recipient_pubkey[31], 2);
    assert_eq!(transfer.old_state_root[31], 3);
    assert_eq!(transfer.new_state_root[31], 4);
    assert!(transfer.nullifier_hex().ends_with("01"));
    assert!(transfer.proof.is_none());

    let withdraw =
        WithdrawTransaction::new(u64_to_field(9), "0xabc".to_string(), 7, u64_to_field(8), 3000);
    assert_eq!(withdraw.recipient, "0xabc");
    assert!(withdraw.nullifier_hex().ends_with("09"));
    assert!(withdraw.state_root_hex().ends_with("08"));

    let all = vec![
        Transaction::Deposit(deposit),
        Transaction::Transfer(transfer),
        Transaction::Withdraw(withdraw),
    ];
    let types: Vec<TransactionType> = all.iter().map(|t| t.tx_type()).collect();
    assert_eq!(
        types,
        vec![TransactionType::Deposit, TransactionType::Transfer, TransactionType::Withdraw]
    );
    let amounts: Vec<u128> = all.iter().map(|t| t.amount()).collect();
    assert_eq!(amounts, vec![5, 6, 7]);
    let times: Vec<u64> = all.iter().map(|t| t.timestamp()).collect();
    assert_eq!(times, vec![1000, 2000, 3000]);
    assert!(all.iter().all(|t| t.status() == TransactionStatus::Pending));
    assert_eq!(TransactionStatus::Confirmed.name(), "confirmed");
    assert_eq!(TransactionType::Withdraw.name(), "withdraw");
}

#[test]
fn proofs_keep_their_inputs() {
    let proof = Proof::new(vec![0xde, 0xad], vec!["0x01".to_string()], CircuitType::Withdraw);
    assert_eq!(proof.circuit_type, "withdraw");
    assert_eq!(proof.public_inputs, vec!["0x01".to_string()]);
    assert_eq!(proof.proof_hex(), "0xdead");
    assert_eq!(Proof::new(vec![], vec![], CircuitType::Transfer).proof_hex(), "0x");
}

#[test]
fn indexer_progress_is_a_percentage() {
    assert_eq!(sync_progress(100, 100, 100), 100);
    assert_eq!(sync_progress(100, 100, 200), 0);
    assert_eq!(sync_progress(100, 150, 200), 50);
    assert_eq!(sync_progress(100, 199, 200), 99);
    assert_eq!(sync_progress(100, 200, 200), 100);
    assert_eq!(sync_progress(100, 201, 200), 100);
    assert_eq!(sync_progress(100, 50, 200), 0);
    assert_eq!(sync_progress(200, 50, 100), 100);
    assert_eq!(sync_progress(0, 1, 3), 33);
    assert_eq!(sync_progress(0, u64::MAX - 1, u64::MAX), 99);
}

#[test]
fn settings_are_set_by_name() {
    let mut config = Config::default();
    let address = "0x1234567890abcdef1234567890abcdef12345678";
    assert_eq!(config.set("VAULT", address), Ok(()));
    assert_eq!(config.network.vault_address, address);
    assert_eq!(config.set("vault-address", "1234"), Err(SettingError::InvalidVaultAddress));
    assert_eq!(
        config.set("vault_address", "1x1234567890abcdef1234567890abcdef12345678"),
        Err(SettingError::InvalidVaultAddress)
    );
    assert_eq!(config.network.vault_address, address);

    assert_eq!(config.set("rpc", "http://localhost:8545"), Ok(()));
    assert_eq!(config.network.rpc_url, "http://localhost:8545");
    assert_eq!(config.set("chain-id", "31337"), Ok(()));
    assert_eq!(config.network.chain_id, 31337);
    assert_eq!(config.set("chainid", "18446744073709551616"), Err(SettingError::InvalidChainId));
    assert_eq!(config.set("chain_id", "x"), Err(SettingError::InvalidChainId));
    assert_eq!(config.network.chain_id, 31337);
    assert_eq!(config.set("deployment_block", "12345"), Ok(()));
    assert_eq!(config.sync.deployment_block, Some(12345));
    assert_eq!(config.set("deployment-block", "-1"), Err(SettingError::InvalidBlockNumber));
    assert_eq!(
        config.set("Threads", "8"),
        Err(SettingError::UnknownKey("Threads".to_string()))
    );
}

#[test]
fn journal_times_are_shown_relative_to_now() {
    assert_eq!(format_timestamp(1000, 1000), "0s ago");
    assert_eq!(format_timestamp(1000, 1059), "59s ago");
    assert_eq!(format_timestamp(1000, 1060), "1m ago");
    assert_eq!(format_timestamp(1000, 4599), "59m ago");
    assert_eq!(format_timestamp(1000, 4600), "1h ago");
    assert_eq!(format_timestamp(1000, 87399), "23h ago");
    assert_eq!(format_timestamp(1000, 87400), "1d ago");
    assert_eq!(format_timestamp(1000, 999), "just now");
}

#[test]
fn passwords_must_be_long_and_mixed() {
    assert_eq!(validate_password("Abcdef1"), Err(PasswordError::TooShort));
    assert_eq!(validate_password(""), Err(PasswordError::TooShort));
    assert_eq!(validate_password("abcdefg1"), Err(PasswordError::TooPlain));
    assert_eq!(validate_password("ABCDEFG1"), Err(PasswordError::TooPlain));
    assert_eq!(validate_password("Abcdefgh"), Err(PasswordError::TooPlain));
    assert_eq!(validate_password("Abcdefg1"), Ok(()));
    assert_eq!(validate_password("Äbcdefg1"), Ok(()));
    assert_eq!(
        PasswordError::TooShort.message(),
        "Password must be at least 8 characters"
    );
    assert_eq!(
        PasswordError::TooPlain.message(),
        "Password must contain uppercase, lowercase, and a digit"
    );
}
