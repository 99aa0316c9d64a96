use veilocity::indexer::{deposits_response, sync_response, Indexer, IndexerState};
use veilocity::merkle::compute_root;
use veilocity::transition::{verify_full_transfer, TransferSide};
use veilocity::account::{AccountSecret, PrivateAccount};
use veilocity::error::{CoreError};
use veilocity::events::{
    DepositEvent,
    EventFilter,
    StateRootUpdatedEvent,
    VeilocityEvent,
    WithdrawalEvent,
    merge_events,
};
use veilocity::merkle::{MerkleTree};
use veilocity::poseidon::{
    PoseidonHasher,
    bytes_to_field,
    field_to_bytes,
    field_to_hex,
    u128_to_field,
    u64_to_field,
};
use veilocity::prover::{ProverError};
use veilocity::snapshot::{
    DepositInfo,
    SyncStateResponse,
    lookup_amount,
    parse_bytes32,
    snapshot_steps,
    sync_from_snapshot,
};
use veilocity::spend::{
    pack_recipient,
    prepare_deposit,
    prepare_transfer,
    prepare_withdraw,
    settle_spend,
};
use veilocity::state::{StateManager};
use veilocity::storage::{
    AccountRow,
    decode_account,
    decode_balance,
    decode_block,
    encode_account,
    encode_balance,
    encode_block,
};
use veilocity::sync::{
    BLOCKS_PER_BATCH,
    StepOutcome,
    SyncStep,
    apply_events,
    apply_step,
    check_deposit_ownership,
    create_account_from_deposit,
    first_block,
    next_batch,
    process_deposit,
    replay_steps,
    roots_match,
    sync_batch,
};
use veilocity::witness::{
    DepositWitness,
    FullTransferWitness,
    TREE_DEPTH,
    TransferWitness,
    WithdrawWitness,
};

#[test]
fn test_state_manager_creation() {
    let manager = StateManager::in_memory().unwrap();
    assert_eq!(manager.leaf_count(), 0);
}

#[test]
fn test_create_account() {
    let mut manager = StateManager::in_memory().unwrap();
    let secret = AccountSecret::generate();

    let account = manager.create_account(&secret, 0).unwrap();

    assert_eq!(account.index, 0);
    assert_eq!(account.balance, 0);
    assert_eq!(manager.leaf_count(), 1);
}

#[test]
fn test_account_persistence() {
    let mut manager = StateManager::in_memory().unwrap();
    let secret = AccountSecret::generate();

    let account = manager.create_account(&secret, 1_000_000_000).unwrap();
    let pubkey = account.pubkey;

    let retrieved = manager.get_account(&pubkey).unwrap().unwrap();
    assert_eq!(retrieved.balance, 1_000_000_000);
    assert_eq!(retrieved.index, account.index);
}

#[test]
fn test_nullifier_tracking() {
    let mut manager = StateManager::in_memory().unwrap();
    let nullifier = [1u8; 32];

    assert!(!manager.is_nullifier_used(&nullifier));

    manager.mark_nullifier_used(&nullifier).unwrap();
    assert!(manager.is_nullifier_used(&nullifier));

    // Double-use should fail
    assert!(manager.mark_nullifier_used(&nullifier).is_err());
}

#[test]
fn test_account_update() {
    let mut manager = StateManager::in_memory().unwrap();
    let secret = AccountSecret::generate();

    let mut account = manager.create_account(&secret, 1_000_000_000).unwrap();
    let root1 = manager.state_root();

    account.balance = 2_000_000_000;
    manager.update_account(&account).unwrap();
    let root2 = manager.state_root();

    assert_ne!(root1, root2);

    let retrieved = manager.get_account(&account.pubkey).unwrap().unwrap();
    assert_eq!(retrieved.balance, 2_000_000_000);
}

fn state_secret(value: u64) -> AccountSecret {
    AccountSecret::from_bytes(&field_to_bytes(&u64_to_field(value)))
}

#[test]
fn created_accounts_take_consecutive_positions_and_their_leaves() {
    let mut manager = StateManager::in_memory().unwrap();
    let mut hasher = PoseidonHasher::new();
    let first = manager.create_account(&state_secret(1), 10).unwrap();
    let second = manager.create_account(&state_secret(2), 20).unwrap();
    assert_eq!(first.index, 0);
    assert_eq!(second.index, 1);
    assert_eq!(manager.leaf_count(), 2);
    assert_eq!(manager.tree().get_leaf(0), Some(first.compute_leaf(&mut hasher)));
    assert_eq!(manager.tree().get_leaf(1), Some(second.compute_leaf(&mut hasher)));

    let mut tree = MerkleTree::new();
    tree.insert(first.compute_leaf(&mut hasher)).unwrap();
    tree.insert(second.compute_leaf(&mut hasher)).unwrap();
    assert_eq!(manager.state_root(), tree.root());

    let by_index = manager.get_account_by_index(1).unwrap().unwrap();
    assert_eq!(by_index.pubkey, second.pubkey);
    assert!(manager.get_account_by_index(2).unwrap().is_none());
    assert!(manager.get_account(&[0u8; 32]).unwrap().is_none());
}

#[test]
fn a_second_account_for_one_secret_is_refused() {
    let mut manager = StateManager::in_memory().unwrap();
    manager.create_account(&state_secret(1), 10).unwrap();
    let root = manager.state_root();
    let second = manager.create_account(&state_secret(1), 99);
    assert!(matches!(second, Err(CoreError::Database(_))));
    assert_eq!(manager.leaf_count(), 1);
    assert_eq!(manager.state_root(), root);
}

#[test]
fn update_of_an_unknown_position_is_refused() {
    let mut manager = StateManager::in_memory().unwrap();
    let account = manager.create_account(&state_secret(1), 10).unwrap();
    let root = manager.state_root();
    let stranger = PrivateAccount { index: 7, ..account };
    match manager.update_account(&stranger) {
        Err(CoreError::AccountNotFound(key)) => assert_eq!(key, "7"),
        other => panic!("unexpected result: {:?}", other),
    }
    assert_eq!(manager.state_root(), root);
}

#[test]
fn update_writes_the_leaf_of_the_stored_note() {
    let mut manager = StateManager::in_memory().unwrap();
    let mut hasher = PoseidonHasher::new();
    let secret = state_secret(42);
    let mut account = manager.create_account(&secret, 10).unwrap();
    let root_before = manager.state_root();
    assert!(account.debit(3));
    manager.update_account(&account).unwrap();

    let stored = manager.get_account(&account.pubkey).unwrap().unwrap();
    assert_eq!(stored.balance, 7);
    assert_eq!(stored.nonce, 1);
    let pubkey = secret.derive_pubkey(&mut hasher);
    let expected = hasher.hash3(&pubkey, &u128_to_field(7), &u64_to_field(1));
    assert_eq!(manager.tree().get_leaf(account.index), Some(expected));
    assert_ne!(manager.state_root(), root_before);
}

#[test]
fn nullifier_error_names_the_nullifier_in_hex() {
    let mut manager = StateManager::in_memory().unwrap();
    let mut nullifier = [0u8; 32];
    nullifier[0] = 0xab;
    nullifier[31] = 0x01;
    manager.mark_nullifier_used(&nullifier).unwrap();
    match manager.mark_nullifier_used(&nullifier) {
        Err(CoreError::NullifierUsed(text)) => assert_eq!(
            text,
            "ab00000000000000000000000000000000000000000000000000000000000001"
        ),
        other => panic!("unexpected result: {:?}", other),
    }
    assert_eq!(manager.stored_nullifiers(), vec![nullifier.to_vec()]);
}

#[test]
fn holder_nullifier_is_consumed_exactly_once() {
    let mut manager = StateManager::in_memory().unwrap();
    let secret = state_secret(42);
    let account = manager.create_account(&secret, 500).unwrap();
    let nullifier = field_to_bytes(&secret.compute_nullifier(
        manager.hasher(),
        account.index,
        account.nonce,
    ));
    assert!(manager.mark_nullifier_used(&nullifier).is_ok());
    assert!(matches!(
        manager.mark_nullifier_used(&nullifier),
        Err(CoreError::NullifierUsed(_))
    ));
    assert!(manager.is_nullifier_used(&nullifier));
}

#[test]
fn checkpoint_is_read_as_written() {
    let mut manager = StateManager::in_memory().unwrap();
    assert_eq!(manager.get_sync_checkpoint(), None);
    manager.set_sync_checkpoint(100).unwrap();
    assert_eq!(manager.get_sync_checkpoint(), Some(100));
    manager.set_sync_checkpoint(7).unwrap();
    assert_eq!(manager.get_sync_checkpoint(), Some(7));
}

#[test]
fn insert_leaf_appends_raw_leaves() {
    let mut manager = StateManager::in_memory().unwrap();
    assert_eq!(manager.insert_leaf(u64_to_field(5)).unwrap(), 0);
    assert_eq!(manager.insert_leaf(u64_to_field(6)).unwrap(), 1);
    let mut tree = MerkleTree::new();
    tree.insert(u64_to_field(5)).unwrap();
    tree.insert(u64_to_field(6)).unwrap();
    assert_eq!(manager.state_root(), tree.root());
    let proof = manager.get_merkle_proof(1);
    assert_eq!(proof, tree.get_proof(1));
    let root = tree.root();
    assert!(tree.verify_proof(u64_to_field(6), 1, &proof, root));
}

#[test]
fn a_restored_manager_has_the_same_state() {
    let mut manager = StateManager::in_memory().unwrap();
    let first = manager.create_account(&state_secret(1), 10).unwrap();
    let mut second = manager.create_account(&state_secret(2), 20).unwrap();
    manager.create_account(&state_secret(3), 30).unwrap();
    assert!(second.debit(5));
    manager.update_account(&second).unwrap();
    manager.mark_nullifier_used(&[4u8; 32]).unwrap();
    manager.mark_nullifier_used(&[5u8; 32]).unwrap();
    manager.set_sync_checkpoint(321).unwrap();

    let rows: Vec<AccountRow> = manager.stored_accounts().iter().map(encode_account).collect();
    let accounts: Vec<PrivateAccount> = rows.iter().map(decode_account).collect();
    let restored = StateManager::restore(
        &accounts,
        &manager.stored_nullifiers(),
        manager.get_sync_checkpoint(),
    )
    .unwrap();

    assert_eq!(restored.state_root(), manager.state_root());
    assert_eq!(restored.leaf_count(), manager.leaf_count());
    assert_eq!(restored.stored_nullifiers(), manager.stored_nullifiers());
    assert_eq!(restored.get_sync_checkpoint(), Some(321));
    let back = restored.get_account(&second.pubkey).unwrap().unwrap();
    assert_eq!(back.balance, 15);
    assert_eq!(back.nonce, 1);
    assert_eq!(back.index, 1);
    assert_eq!(restored.get_account(&first.pubkey).unwrap().unwrap().balance, 10);
    assert_eq!(restored.stored_accounts().len(), 3);
    assert!(restored.is_nullifier_used(&[4u8; 32]));
    assert!(!restored.is_nullifier_used(&[6u8; 32]));
}

#[test]
fn restoring_fills_gaps_with_the_empty_leaf() {
    let mut hasher = PoseidonHasher::new();
    let note = PrivateAccount::with_balance(&mut hasher, state_secret(9).secret(), 2, 50);
    let restored = StateManager::restore(&vec![note], &vec![], None).unwrap();
    assert_eq!(restored.leaf_count(), 3);
    let empty = restored.tree().empty_hash(0);
    assert_eq!(restored.tree().get_leaf(0), Some(empty));
    assert_eq!(restored.tree().get_leaf(1), Some(empty));
    assert_eq!(restored.tree().get_leaf(2), Some(note.compute_leaf(&mut hasher)));

    let mut tree = MerkleTree::new();
    tree.insert(empty).unwrap();
    tree.insert(empty).unwrap();
    tree.insert(note.compute_leaf(&mut hasher)).unwrap();
    assert_eq!(restored.state_root(), tree.root());
}

#[test]
fn restoring_refuses_notes_out_of_order_and_beyond_the_tree() {
    let mut hasher = PoseidonHasher::new();
    let a = PrivateAccount::with_balance(&mut hasher, state_secret(1).secret(), 3, 1);
    let b = PrivateAccount::with_balance(&mut hasher, state_secret(2).secret(), 3, 1);
    assert!(matches!(
        StateManager::restore(&vec![a, b], &vec![], None),
        Err(CoreError::Database(_))
    ));
    let again = PrivateAccount { index: 4, ..a };
    assert!(matches!(
        StateManager::restore(&vec![a, again], &vec![], None),
        Err(CoreError::Database(_))
    ));
    let far = PrivateAccount { index: 1 << 20, ..a };
    assert!(matches!(
        StateManager::restore(&vec![far], &vec![], None),
        Err(CoreError::TreeFull)
    ));
}

#[test]
fn stored_nullifiers_of_the_wrong_length_are_passed_over() {
    let restored = StateManager::restore(
        &vec![],
        &vec![vec![1u8; 32], vec![2u8; 31], vec![1u8; 32], vec![3u8; 32]],
        Some(5),
    )
    .unwrap();
    assert_eq!(restored.stored_nullifiers(), vec![vec![1u8; 32], vec![3u8; 32]]);
    assert_eq!(restored.get_sync_checkpoint(), Some(5));
}

#[test]
fn balances_and_blocks_are_stored_little_endian() {
    let blob = encode_balance(0x0102);
    assert_eq!(blob.len(), 16);
    assert_eq!(blob[0], 0x02);
    assert_eq!(blob[1], 0x01);
    assert_eq!(decode_balance(&blob), 0x0102);
    assert_eq!(decode_balance(&encode_balance(u128::MAX)), u128::MAX);
    assert_eq!(decode_balance(&[1u8; 15]), 0);
    let mut long = encode_balance(77);
    long.push(9);
    assert_eq!(decode_balance(&long), 77);

    assert_eq!(encode_block(0x0a0b), vec![0x0b, 0x0a, 0, 0, 0, 0, 0, 0]);
    assert_eq!(decode_block(&encode_block(u64::MAX)), u64::MAX);
    assert_eq!(decode_block(&[1u8; 7]), 0);
}

#[test]
fn rows_with_a_malformed_key_read_as_the_zero_key() {
    let row = AccountRow {
        pubkey: vec![1u8; 31],
        balance_le: encode_balance(5),
        nonce: 2,
        leaf_index: 3,
    };
    let account = decode_account(&row);
    assert_eq!(account.pubkey, [0u8; 32]);
    assert_eq!(account.balance, 5);
    assert_eq!(account.nonce, 2);
    assert_eq!(account.index, 3);
}

#[test]
fn the_journal_numbers_and_keeps_its_entries() {
    let mut manager = StateManager::in_memory().unwrap();
    let first = manager
        .record_transaction("deposit", 1_000_000_000_000_000_000, Some(&[0xab, 0xcd]), None, "pending", 50)
        .unwrap();
    let second = manager
        .record_transaction("transfer", 5, None, Some("0xrecipient"), "confirmed", 60)
        .unwrap();
    assert_eq!(first, 1);
    assert_eq!(second, 2);
    assert_eq!(manager.pending_transaction_count().unwrap(), 1);

    let entries = manager.get_transactions(10).unwrap();
    assert_eq!(entries.len(), 2);
    assert_eq!(entries[0].id, 2);
    assert_eq!(entries[0].tx_type, "transfer");
    assert_eq!(entries[0].status, "confirmed");
    assert_eq!(entries[0].created_at, 60);
    assert_eq!(entries[0].amount(), Some(5));
    assert_eq!(entries[0].recipient(), Some("0xrecipient".to_string()));
    assert_eq!(entries[0].tx_hash(), None);
    assert_eq!(entries[1].amount(), Some(1_000_000_000_000_000_000));
    assert_eq!(entries[1].tx_hash(), Some("abcd".to_string()));
    assert_eq!(entries[1].recipient(), None);

    assert_eq!(manager.get_transactions(1).unwrap().len(), 1);
    assert_eq!(manager.get_transactions(1).unwrap()[0].id, 2);
    assert_eq!(manager.get_transactions(0).unwrap().len(), 0);

    manager.update_transaction_status(1, "confirmed").unwrap();
    manager.update_transaction_status(9, "failed").unwrap();
    assert_eq!(manager.pending_transaction_count().unwrap(), 0);
    assert_eq!(manager.get_transactions(10).unwrap()[1].status, "confirmed");
}

fn sync_secret(value: u64) -> AccountSecret {
    AccountSecret::from_bytes(&field_to_bytes(&u64_to_field(value)))
}

fn deposit(secret: &AccountSecret, amount: u128, leaf_index: u64, block: u64) -> DepositEvent {
    let mut hasher = PoseidonHasher::new();
    let commitment = field_to_bytes(&secret.compute_deposit_commitment(&mut hasher, amount));
    DepositEvent::from_log(commitment, amount, leaf_index, 0, block, [block as u8; 32])
}

fn withdrawal(nullifier: [u8; 32], block: u64) -> WithdrawalEvent {
    WithdrawalEvent::from_log(nullifier, [7u8; 20], 1, block, [block as u8; 32])
}

#[test]
fn empty_to_single_deposit() {
    let secret = sync_secret(42);
    let mut state = StateManager::in_memory().unwrap();
    let event = deposit(&secret, 1_000_000_000_000_000_000, 0, 10);
    let stats = apply_events(&mut state, &secret, &vec![VeilocityEvent::Deposit(event)]).unwrap();

    assert_eq!(state.leaf_count(), 1);
    assert_eq!(stats.leaves_added, 1);
    assert_eq!(stats.own_deposits_found, 1);
    let pubkey = field_to_bytes(&secret.derive_pubkey(&mut PoseidonHasher::new()));
    let account = state.get_account(&pubkey).unwrap().unwrap();
    assert_eq!(account.balance, 1_000_000_000_000_000_000);
    assert_eq!(account.nonce, 0);
    assert_eq!(account.index, 0);

    let mut tree = MerkleTree::new();
    tree.update_leaf(0, bytes_to_field(&event.commitment)).unwrap();
    assert_eq!(state.state_root(), tree.root());
}

#[test]
fn foreign_deposit_is_counted_for_the_tree_only() {
    let secret = sync_secret(42);
    let stranger = sync_secret(99);
    let mut state = StateManager::in_memory().unwrap();
    let empty_root = state.state_root();
    let event = deposit(&stranger, 500_000_000_000_000_000, 0, 10);
    let stats = apply_events(&mut state, &secret, &vec![VeilocityEvent::Deposit(event)]).unwrap();

    assert_eq!(state.leaf_count(), 1);
    assert_ne!(state.state_root(), empty_root);
    assert_eq!(stats.own_deposits_found, 0);
    let pubkey = field_to_bytes(&secret.derive_pubkey(&mut PoseidonHasher::new()));
    assert!(state.get_account(&pubkey).unwrap().is_none());
    assert_eq!(state.stored_accounts().len(), 0);
}

#[test]
fn sync_fills_gaps_with_the_empty_leaf() {
    let secret = sync_secret(42);
    let mut state = StateManager::in_memory().unwrap();
    let commitment = field_to_bytes(&u64_to_field(123456));
    let event = DepositEvent::from_log(commitment, 5, 3, 0, 1, [0u8; 32]);
    assert_eq!(process_deposit(&mut state, &event).unwrap(), true);

    assert_eq!(state.leaf_count(), 4);
    let empty = state.tree().empty_hash(0);
    for i in 0..3 {
        assert_eq!(state.tree().get_leaf(i), Some(empty));
    }
    assert_eq!(state.tree().get_leaf(3), Some(u64_to_field(123456)));

    let mut tree = MerkleTree::new();
    for _ in 0..3 {
        tree.insert(empty).unwrap();
    }
    tree.insert(u64_to_field(123456)).unwrap();
    assert_eq!(state.state_root(), tree.root());

    // The same deposit again, and any earlier one, is passed over.
    let root = state.state_root();
    assert_eq!(process_deposit(&mut state, &event).unwrap(), false);
    let earlier = DepositEvent::from_log([9u8; 32], 5, 1, 0, 1, [0u8; 32]);
    assert_eq!(process_deposit(&mut state, &earlier).unwrap(), false);
    assert_eq!(state.state_root(), root);
    assert_eq!(state.leaf_count(), 4);
}

#[test]
fn a_deposit_beyond_the_tree_is_refused() {
    let mut state = StateManager::in_memory().unwrap();
    let root = state.state_root();
    let event = DepositEvent::from_log([1u8; 32], 5, 1 << 20, 0, 1, [0u8; 32]);
    assert!(matches!(process_deposit(&mut state, &event), Err(CoreError::TreeFull)));
    assert_eq!(state.leaf_count(), 0);
    assert_eq!(state.state_root(), root);

    let secret = sync_secret(1);
    let result = sync_batch(&mut state, &secret, &vec![VeilocityEvent::Deposit(event)], 50);
    assert!(matches!(result, Err(CoreError::TreeFull)));
    assert_eq!(state.get_sync_checkpoint(), None);
}

#[test]
fn ownership_is_decided_by_the_commitment() {
    let secret = sync_secret(42);
    let mut hasher = PoseidonHasher::new();
    let own = deposit(&secret, 77, 0, 1);
    assert!(check_deposit_ownership(&secret, &own, &mut hasher));
    let other_amount = DepositEvent { amount: 78, ..own };
    assert!(!check_deposit_ownership(&secret, &other_amount, &mut hasher));
    let foreign = deposit(&sync_secret(43), 77, 0, 1);
    assert!(!check_deposit_ownership(&secret, &foreign, &mut hasher));
}

#[test]
fn a_second_own_deposit_credits_the_same_note() {
    let secret = sync_secret(42);
    let stranger = sync_secret(7);
    let mut state = StateManager::in_memory().unwrap();
    let events = vec![
        VeilocityEvent::Deposit(deposit(&secret, 100, 0, 1)),
        VeilocityEvent::Deposit(deposit(&stranger, 5, 1, 2)),
        VeilocityEvent::Deposit(deposit(&secret, 30, 2, 3)),
    ];
    let stats = apply_events(&mut state, &secret, &events).unwrap();
    assert_eq!(stats.leaves_added, 3);
    assert_eq!(stats.own_deposits_found, 2);

    let accounts = state.stored_accounts();
    assert_eq!(accounts.len(), 1);
    assert_eq!(accounts[0].balance, 130);
    assert_eq!(accounts[0].index, 0);
    assert_eq!(accounts[0].nonce, 0);

    // The tree holds what the chain holds: the three commitments.
    let mut tree = MerkleTree::new();
    for event in &events {
        if let VeilocityEvent::Deposit(d) = event {
            tree.insert(bytes_to_field(&d.commitment)).unwrap();
        }
    }
    assert_eq!(state.state_root(), tree.root());
}

#[test]
fn replaying_a_stream_twice_changes_nothing() {
    let secret = sync_secret(42);
    let mut state = StateManager::in_memory().unwrap();
    let events = vec![
        VeilocityEvent::Deposit(deposit(&secret, 100, 0, 1)),
        VeilocityEvent::Withdrawal(withdrawal([3u8; 32], 2)),
        VeilocityEvent::Deposit(deposit(&sync_secret(8), 5, 2, 3)),
        VeilocityEvent::StateRootUpdated(StateRootUpdatedEvent::from_log(
            [0u8; 32], [1u8; 32], 1, 0, 3, [3u8; 32],
        )),
        VeilocityEvent::Withdrawal(withdrawal([3u8; 32], 4)),
        VeilocityEvent::Withdrawal(withdrawal([4u8; 32], 4)),
    ];
    let first = sync_batch(&mut state, &secret, &events, 4).unwrap();
    assert_eq!(first.leaves_added, 3);
    assert_eq!(first.nullifiers_added, 2);
    let root = state.state_root();
    let accounts = state.stored_accounts();
    let nullifiers = state.stored_nullifiers();

    let second = sync_batch(&mut state, &secret, &events, 4).unwrap();
    assert_eq!(second.leaves_added, 0);
    assert_eq!(second.own_deposits_found, 0);
    assert_eq!(second.nullifiers_added, 0);
    assert_eq!(state.state_root(), root);
    assert_eq!(state.leaf_count(), 3);
    assert_eq!(state.stored_nullifiers(), nullifiers);
    assert_eq!(state.stored_accounts().len(), accounts.len());
    assert_eq!(state.stored_accounts()[0].balance, 100);
    assert_eq!(state.get_sync_checkpoint(), Some(4));
}

#[test]
fn steps_report_what_they_did() {
    let secret = sync_secret(42);
    let mut state = StateManager::in_memory().unwrap();
    let own = deposit(&secret, 9, 0, 1);
    let leaf = SyncStep::Leaf { index: 0, commitment: own.commitment, amount: Some(9) };
    assert_eq!(
        apply_step(&mut state, &secret, &leaf).unwrap(),
        StepOutcome::LeafAdded { ours: true }
    );
    assert_eq!(apply_step(&mut state, &secret, &leaf).unwrap(), StepOutcome::LeafKnown);
    let unknown_amount = SyncStep::Leaf { index: 1, commitment: own.commitment, amount: None };
    assert_eq!(
        apply_step(&mut state, &secret, &unknown_amount).unwrap(),
        StepOutcome::LeafAdded { ours: false }
    );
    let spend = SyncStep::Spend { nullifier: [1u8; 32] };
    assert_eq!(apply_step(&mut state, &secret, &spend).unwrap(), StepOutcome::NullifierAdded);
    assert_eq!(apply_step(&mut state, &secret, &spend).unwrap(), StepOutcome::NullifierKnown);
    assert_eq!(apply_step(&mut state, &secret, &SyncStep::Note).unwrap(), StepOutcome::Noted);
    assert_eq!(state.stored_accounts()[0].balance, 9);

    let stats = replay_steps(&mut state, &secret, &vec![leaf, spend, SyncStep::Note]).unwrap();
    assert_eq!(stats.leaves_added, 0);
    assert_eq!(stats.nullifiers_added, 0);
}

#[test]
fn recognized_deposits_create_or_credit_without_touching_the_tree() {
    let secret = sync_secret(42);
    let mut state = StateManager::in_memory().unwrap();
    let event = deposit(&secret, 40, 0, 1);
    assert!(process_deposit(&mut state, &event).unwrap());
    let root = state.state_root();
    create_account_from_deposit(&mut state, &secret, &event).unwrap();
    assert_eq!(state.state_root(), root);
    assert_eq!(state.stored_accounts()[0].balance, 40);
    create_account_from_deposit(&mut state, &secret, &event).unwrap();
    assert_eq!(state.stored_accounts()[0].balance, 80);
    assert_eq!(state.state_root(), root);

    // A note cannot be created at a position that the tree does not hold.
    let mut fresh = StateManager::in_memory().unwrap();
    assert!(matches!(
        create_account_from_deposit(&mut fresh, &secret, &event),
        Err(CoreError::Database(_))
    ));
}

#[test]
fn events_are_merged_in_block_order_and_stay_in_order_within_a_block() {
    let secret = sync_secret(1);
    let deposits = vec![deposit(&secret, 1, 0, 5), deposit(&secret, 2, 1, 9)];
    let withdrawals = vec![withdrawal([1u8; 32], 5), withdrawal([2u8; 32], 3)];
    let updates = vec![StateRootUpdatedEvent::from_log([0u8; 32], [1u8; 32], 1, 0, 5, [0u8; 32])];
    let merged = merge_events(&deposits, &withdrawals, &updates);
    let blocks: Vec<u64> = merged.iter().map(|e| e.block_number()).collect();
    assert_eq!(blocks, vec![3, 5, 5, 5, 9]);
    assert!(matches!(merged[0], VeilocityEvent::Withdrawal(_)));
    assert!(matches!(merged[1], VeilocityEvent::Deposit(_)));
    assert!(matches!(merged[2], VeilocityEvent::Withdrawal(_)));
    assert!(matches!(merged[3], VeilocityEvent::StateRootUpdated(_)));
    assert!(matches!(merged[4], VeilocityEvent::Deposit(_)));
    assert_eq!(merged[1].tx_hash(), [5u8; 32]);
    assert_eq!(merge_events(&vec![], &vec![], &vec![]).len(), 0);
}

#[test]
fn event_helpers() {
    let secret = sync_secret(1);
    let d = deposit(&secret, 1, 0, 5);
    assert_eq!(d.commitment_hex().len(), 66);
    assert!(d.commitment_hex().starts_with("0x"));
    let w = withdrawal([0x0f; 32], 5);
    assert_eq!(
        w.nullifier_hex(),
        "0x0f0f0f0f0f0f0f0f0f0f0f0f0f0f0f0f0f0f0f0f0f0f0f0f0f0f0f0f0f0f0f0f"
    );
    let from = EventFilter::from_block(9);
    assert_eq!(from.from_block, Some(9));
    assert_eq!(from.to_block, None);
    let range = EventFilter::block_range(3, 8);
    assert_eq!((range.from_block, range.to_block), (Some(3), Some(8)));
    assert!(range.commitment.is_none() && range.nullifier.is_none());
    let all = EventFilter::default();
    assert!(all.from_block.is_none() && all.to_block.is_none());
}

#[test]
fn batches_cover_the_range_without_overlap() {
    assert_eq!(BLOCKS_PER_BATCH, 10000);
    assert_eq!(first_block(None, 500), Some(500));
    assert_eq!(first_block(Some(100), 500), Some(500));
    assert_eq!(first_block(Some(499), 500), Some(500));
    assert_eq!(first_block(Some(500), 500), Some(501));
    assert_eq!(first_block(Some(u64::MAX), 0), None);

    assert_eq!(next_batch(101, 100), None);
    assert_eq!(next_batch(100, 100), Some((100, 100)));
    assert_eq!(next_batch(1, 9999), Some((1, 9999)));
    assert_eq!(next_batch(1, 10000), Some((1, 10000)));
    assert_eq!(next_batch(1, 10001), Some((1, 10000)));
    assert_eq!(next_batch(10001, 25000), Some((10001, 20000)));
    assert_eq!(next_batch(u64::MAX - 5, u64::MAX), Some((u64::MAX - 5, u64::MAX)));
}

#[test]
fn local_root_is_compared_with_the_chain_root() {
    let mut state = StateManager::in_memory().unwrap();
    state.insert_leaf(u64_to_field(1)).unwrap();
    let root = field_to_bytes(&state.state_root());
    assert!(roots_match(&state, &root));
    assert!(!roots_match(&state, &[0u8; 32]));
}

fn hex32(bytes: &[u8; 32]) -> String {
    let mut text = String::from("0x");
    for b in bytes {
        text.push_str(&format!("{:02x}", b));
    }
    text
}

fn snapshot_of(leaves: &[[u8; 32]], nullifiers: &[[u8; 32]], root: String) -> SyncStateResponse {
    SyncStateResponse {
        state_root: root,
        leaves: leaves.iter().map(hex32).collect(),
        nullifiers: nullifiers.iter().map(hex32).collect(),
        last_block: 100,
        deposit_count: leaves.len() as u64,
        tvl_wei: "0".to_string(),
        is_syncing: false,
        sync_progress: 100,
    }
}

#[test]
fn snapshot_sync_converges() {
    let secret = sync_secret(42);
    let leaves = [
        field_to_bytes(&u64_to_field(11)),
        field_to_bytes(&u64_to_field(22)),
        field_to_bytes(&u64_to_field(33)),
    ];
    let mut tree = MerkleTree::new();
    for leaf in &leaves {
        tree.insert(bytes_to_field(leaf)).unwrap();
    }
    let snapshot = snapshot_of(&leaves, &[], hex32(&field_to_bytes(&tree.root())));

    let mut state = StateManager::in_memory().unwrap();
    let report = sync_from_snapshot(&mut state, &secret, &snapshot, &vec![]).unwrap();
    assert_eq!(state.leaf_count(), 3);
    assert_eq!(state.state_root(), tree.root());
    assert_eq!(state.get_sync_checkpoint(), Some(100));
    assert!(report.root_matches);
    assert_eq!(report.stats.leaves_added, 3);

    // Once more: nothing changes.
    let again = sync_from_snapshot(&mut state, &secret, &snapshot, &vec![]).unwrap();
    assert_eq!(again.stats.leaves_added, 0);
    assert_eq!(state.leaf_count(), 3);
    assert_eq!(state.state_root(), tree.root());
}

#[test]
fn snapshot_sync_recognizes_own_deposits_and_joins_nullifiers() {
    let secret = sync_secret(42);
    let own = deposit(&secret, 250, 1, 7);
    let leaves = [field_to_bytes(&u64_to_field(11)), own.commitment];
    let deposits = vec![
        DepositInfo {
            commitment: hex32(&leaves[0]),
            amount_wei: "250".to_string(),
            leaf_index: 0,
            block_number: 6,
            tx_hash: String::new(),
        },
        DepositInfo {
            commitment: hex32(&own.commitment),
            amount_wei: "250".to_string(),
            leaf_index: 1,
            block_number: 7,
            tx_hash: String::new(),
        },
    ];
    let snapshot = snapshot_of(&leaves, &[[5u8; 32], [6u8; 32]], "0xnothex".to_string());
    let mut state = StateManager::in_memory().unwrap();
    state.mark_nullifier_used(&[6u8; 32]).unwrap();

    let report = sync_from_snapshot(&mut state, &secret, &snapshot, &deposits).unwrap();
    assert!(!report.root_matches);
    assert_eq!(report.stats.own_deposits_found, 1);
    assert_eq!(report.stats.nullifiers_added, 1);
    let accounts = state.stored_accounts();
    assert_eq!(accounts.len(), 1);
    assert_eq!(accounts[0].balance, 250);
    assert_eq!(accounts[0].index, 1);
    assert!(state.is_nullifier_used(&[5u8; 32]));
    assert!(state.is_nullifier_used(&[6u8; 32]));
    assert_eq!(state.stored_nullifiers().len(), 2);
}

#[test]
fn a_malformed_snapshot_is_refused_as_a_whole() {
    let secret = sync_secret(42);
    let mut snapshot = snapshot_of(&[[1u8; 32]], &[], String::new());
    snapshot.leaves.push("0x1234".to_string());
    let mut state = StateManager::in_memory().unwrap();
    assert!(matches!(
        sync_from_snapshot(&mut state, &secret, &snapshot, &vec![]),
        Err(CoreError::InvalidFieldElement)
    ));
    assert_eq!(state.leaf_count(), 0);
    assert_eq!(state.get_sync_checkpoint(), None);
    assert!(matches!(snapshot_steps(&snapshot, &vec![]), Err(CoreError::InvalidFieldElement)));
}

#[test]
fn snapshot_scalars_and_amounts_are_read_leniently() {
    let digits = "00000000000000000000000000000000000000000000000000000000000000ff";
    let mut expected = [0u8; 32];
    expected[31] = 0xff;
    assert_eq!(parse_bytes32(digits), Some(expected));
    assert_eq!(parse_bytes32(&format!("0x{}", digits)), Some(expected));
    assert_eq!(parse_bytes32(&format!("0x0x{}", digits)), Some(expected));
    assert_eq!(parse_bytes32("0x00ff"), None);
    assert_eq!(parse_bytes32("0xzz"), None);

    let deposits = vec![
        DepositInfo {
            commitment: String::new(),
            amount_wei: "not a number".to_string(),
            leaf_index: 4,
            block_number: 0,
            tx_hash: String::new(),
        },
        DepositInfo {
            commitment: String::new(),
            amount_wei: "12".to_string(),
            leaf_index: 5,
            block_number: 0,
            tx_hash: String::new(),
        },
        DepositInfo {
            commitment: String::new(),
            amount_wei: "13".to_string(),
            leaf_index: 5,
            block_number: 0,
            tx_hash: String::new(),
        },
    ];
    assert_eq!(lookup_amount(&deposits, 4), Some(0));
    assert_eq!(lookup_amount(&deposits, 5), Some(12));
    assert_eq!(lookup_amount(&deposits, 6), None);
}

#[test]
fn test_deposit_witness_creation() {
    let commitment = u64_to_field(12345);
    let amount = u64_to_field(1_000_000_000);
    let secret = u64_to_field(54321);

    let witness = DepositWitness::new(commitment, amount, secret);
    assert!(!witness.commitment.is_empty());
    assert!(!witness.to_toml().is_empty());
}

#[test]
fn test_withdraw_witness_creation() {
    let witness = WithdrawWitness::new(
        u64_to_field(1),
        u64_to_field(2),
        u64_to_field(3),
        u64_to_field(4),
        u64_to_field(5),
        u64_to_field(6),
        u64_to_field(7),
        u64_to_field(8),
        vec![u64_to_field(0); TREE_DEPTH],
    )
    .unwrap();

    assert_eq!(witness.path.len(), TREE_DEPTH);
}

#[test]
fn test_withdraw_witness_invalid_path() {
    let result = WithdrawWitness::new(
        u64_to_field(1),
        u64_to_field(2),
        u64_to_field(3),
        u64_to_field(4),
        u64_to_field(5),
        u64_to_field(6),
        u64_to_field(7),
        u64_to_field(8),
        vec![u64_to_field(0); 10], // Wrong length
    );

    assert!(result.is_err());
}

#[test]
fn test_transfer_witness_creation() {
    let witness = TransferWitness::new(
        u64_to_field(1),
        u64_to_field(2),
        u64_to_field(3),
        u64_to_field(4),
        u64_to_field(5),
        u64_to_field(6),
        vec![u64_to_field(0); TREE_DEPTH],
        u64_to_field(7),
        u64_to_field(8),
    )
    .unwrap();

    assert_eq!(witness.sender_path.len(), TREE_DEPTH);
}

/// Generate a valid test withdraw witness with correct Merkle proof
#[test]
fn test_generate_valid_withdraw_witness() {
    let mut hasher = PoseidonHasher::new();

    // Test values matching circuit test
    let secret = u64_to_field(123456789);
    let balance = u64_to_field(2000000000000000000); // 2 MNT
    let nonce = u64_to_field(0);
    let index = u64_to_field(0);
    let amount = u64_to_field(1000000000000000000); // 1 MNT
    let recipient = u64_to_field(0x1234567890abcdef);

    // Compute derived values
    let pubkey = hasher.derive_pubkey(&secret);
    let leaf = hasher.compute_leaf(&pubkey, &balance, &nonce);
    let nullifier = hasher.compute_nullifier(&secret, &index, &nonce);

    // Build empty Merkle path (for leaf at index 0)
    let zero = u64_to_field(0);
    let mut empty = hasher.hash2(&zero, &zero);
    let mut path = Vec::new();

    for _ in 0..TREE_DEPTH {
        path.push(empty);
        empty = hasher.hash2(&empty, &empty);
    }

    // Compute state root from leaf and path
    let mut current = leaf;
    let index_val: u64 = 0;
    for i in 0..TREE_DEPTH {
        let sibling = path[i];
        let bit = (index_val >> i) & 1;
        if bit == 0 {
            current = hasher.hash2(&current, &sibling);
        } else {
            current = hasher.hash2(&sibling, &current);
        }
    }
    let state_root = current;

    // Create witness
    let witness = WithdrawWitness::new(
        state_root, nullifier, amount, recipient, secret, balance, nonce, index, path,
    )
    .unwrap();

    // Output the Prover.toml for debugging
    println!("=== Valid Prover.toml for Withdraw Circuit ===");
    println!("{}", witness.to_toml());
    println!("==============================================");

    // Verify witness is valid
    assert_eq!(witness.path.len(), TREE_DEPTH);
    assert!(!witness.state_root.is_empty());
    assert!(!witness.nullifier.is_empty());
}

fn scalar(value: u64) -> String {
    format!("0x{:064x}", value)
}

#[test]
fn deposit_witness_text_is_exact() {
    let witness = DepositWitness::new(u64_to_field(1), u64_to_field(2), u64_to_field(3));
    assert_eq!(witness.commitment, scalar(1));
    assert_eq!(
        witness.to_toml(),
        format!(
            "commitment = \"{}\"\namount = \"{}\"\nsecret = \"{}\"",
            scalar(1),
            scalar(2),
            scalar(3)
        )
    );
}

#[test]
fn withdraw_witness_text_is_exact() {
    let path = vec![u64_to_field(9); TREE_DEPTH];
    let witness = WithdrawWitness::new(
        u64_to_field(1),
        u64_to_field(2),
        u64_to_field(3),
        u64_to_field(4),
        u64_to_field(5),
        u64_to_field(6),
        u64_to_field(7),
        u64_to_field(8),
        path,
    )
    .unwrap();
    let items: Vec<String> = (0..TREE_DEPTH).map(|_| format!("\"{}\"", scalar(9))).collect();
    let expected = format!(
        "state_root = \"{}\"\nnullifier = \"{}\"\namount = \"{}\"\nrecipient = \"{}\"\nsecret = \"{}\"\nbalance = \"{}\"\nnonce = \"{}\"\nindex = \"{}\"\npath = [{}]",
        scalar(1),
        scalar(2),
        scalar(3),
        scalar(4),
        scalar(5),
        scalar(6),
        scalar(7),
        scalar(8),
        items.join(", ")
    );
    assert_eq!(witness.to_toml(), expected);
}

#[test]
fn transfer_witness_text_is_exact() {
    let path: Vec<_> = (0..TREE_DEPTH as u64).map(u64_to_field).collect();
    let witness = TransferWitness::new(
        u64_to_field(1),
        u64_to_field(2),
        u64_to_field(3),
        u64_to_field(4),
        u64_to_field(5),
        u64_to_field(6),
        path,
        u64_to_field(7),
        u64_to_field(8),
    )
    .unwrap();
    let items: Vec<String> = (0..TREE_DEPTH as u64).map(|i| format!("\"{}\"", scalar(i))).collect();
    let expected = format!(
        "old_state_root = \"{}\"\nnullifier = \"{}\"\nsender_secret = \"{}\"\nsender_balance = \"{}\"\nsender_nonce = \"{}\"\nsender_index = \"{}\"\nsender_path = [{}]\nrecipient_pubkey = \"{}\"\namount = \"{}\"",
        scalar(1),
        scalar(2),
        scalar(3),
        scalar(4),
        scalar(5),
        scalar(6),
        items.join(", "),
        scalar(7),
        scalar(8)
    );
    assert_eq!(witness.to_toml(), expected);
}

fn full_witness(lengths: [usize; 4]) -> Result<FullTransferWitness, ProverError> {
    FullTransferWitness::new(
        u64_to_field(1),
        u64_to_field(2),
        u64_to_field(3),
        u64_to_field(4),
        u64_to_field(5),
        u64_to_field(6),
        u64_to_field(7),
        vec![u64_to_field(20); lengths[0]],
        vec![u64_to_field(21); lengths[1]],
        u64_to_field(8),
        u64_to_field(9),
        u64_to_field(10),
        u64_to_field(11),
        vec![u64_to_field(22); lengths[2]],
        vec![u64_to_field(23); lengths[3]],
        u64_to_field(12),
    )
}

#[test]
fn full_transfer_witness_text_is_exact() {
    let witness = full_witness([TREE_DEPTH; 4]).unwrap();
    let list = |v: u64| -> String {
        let items: Vec<String> = (0..TREE_DEPTH).map(|_| format!("\"{}\"", scalar(v))).collect();
        items.join(", ")
    };
    let expected = format!(
        "old_state_root = \"{}\"\nnew_state_root = \"{}\"\nnullifier = \"{}\"\nsender_secret = \"{}\"\nsender_balance = \"{}\"\nsender_nonce = \"{}\"\nsender_index = \"{}\"\nsender_path_old = [{}]\nsender_path_new = [{}]\nrecipient_pubkey = \"{}\"\nrecipient_balance = \"{}\"\nrecipient_nonce = \"{}\"\nrecipient_index = \"{}\"\nrecipient_path_old = [{}]\nrecipient_path_new = [{}]\namount = \"{}\"",
        scalar(1),
        scalar(2),
        scalar(3),
        scalar(4),
        scalar(5),
        scalar(6),
        scalar(7),
        list(20),
        list(21),
        scalar(8),
        scalar(9),
        scalar(10),
        scalar(11),
        list(22),
        list(23),
        scalar(12)
    );
    assert_eq!(witness.to_toml(), expected);
}

#[test]
fn path_errors_name_the_path_and_its_length() {
    match full_witness([20, 19, 20, 3]) {
        Err(ProverError::InvalidInput(text)) => {
            assert_eq!(text, "sender_path_new must have 20 elements, got 19")
        }
        other => panic!("unexpected result: {:?}", other.map(|_| ())),
    }
    match full_witness([0, 19, 20, 3]) {
        Err(ProverError::InvalidInput(text)) => {
            assert_eq!(text, "sender_path_old must have 20 elements, got 0")
        }
        other => panic!("unexpected result: {:?}", other.map(|_| ())),
    }
    match full_witness([20, 20, 21, 3]) {
        Err(ProverError::InvalidInput(text)) => {
            assert_eq!(text, "recipient_path_old must have 20 elements, got 21")
        }
        other => panic!("unexpected result: {:?}", other.map(|_| ())),
    }
    match full_witness([20, 20, 20, 3]) {
        Err(ProverError::InvalidInput(text)) => {
            assert_eq!(text, "recipient_path_new must have 20 elements, got 3")
        }
        other => panic!("unexpected result: {:?}", other.map(|_| ())),
    }
    let withdraw = WithdrawWitness::new(
        u64_to_field(1),
        u64_to_field(2),
        u64_to_field(3),
        u64_to_field(4),
        u64_to_field(5),
        u64_to_field(6),
        u64_to_field(7),
        u64_to_field(8),
        vec![u64_to_field(0); 10],
    );
    match withdraw {
        Err(ProverError::InvalidInput(text)) => {
            assert_eq!(text, "Merkle path must have 20 elements, got 10")
        }
        other => panic!("unexpected result: {:?}", other.map(|_| ())),
    }
    let transfer = TransferWitness::new(
        u64_to_field(1),
        u64_to_field(2),
        u64_to_field(3),
        u64_to_field(4),
        u64_to_field(5),
        u64_to_field(6),
        vec![u64_to_field(0); 21],
        u64_to_field(7),
        u64_to_field(8),
    );
    match transfer {
        Err(ProverError::InvalidInput(text)) => {
            assert_eq!(text, "Sender Merkle path must have 20 elements, got 21")
        }
        other => panic!("unexpected result: {:?}", other.map(|_| ())),
    }
}

#[test]
fn recipient_packing_is_deterministic() {
    let address: [u8; 20] = [
        0x12, 0x34, 0x56, 0x78, 0x90, 0xab, 0xcd, 0xef, 0x11, 0x22, 0x33, 0x44, 0x55, 0x66, 0x77,
        0x88, 0xaa, 0xbb, 0xcc, 0xdd,
    ];
    let packed = pack_recipient(&address);
    // Twelve zero bytes, the first twelve address bytes, eight zero bytes.
    let mut expected = [0u8; 32];
    expected[12..24].copy_from_slice(&address[..12]);
    assert_eq!(field_to_bytes(&packed), expected);
    assert_eq!(
        field_to_hex(&packed),
        "0x0000000000000000000000001234567890abcdef112233440000000000000000"
    );
    assert_eq!(pack_recipient(&address), packed);
    // The last eight bytes of the address do not enter.
    let mut other = address;
    other[19] = 0;
    other[12] = 0xff;
    assert_eq!(pack_recipient(&other), packed);
    let mut changed = address;
    changed[11] = 0x45;
    assert_ne!(pack_recipient(&changed), packed);
    let mut full = [0u8; 32];
    for b in full[12..24].iter_mut() {
        *b = 0xff;
    }
    assert_eq!(field_to_bytes(&pack_recipient(&[0xff; 20])), full);
    assert_eq!(pack_recipient(&[0u8; 20]), u128_to_field(0));
    let mut low = [0u8; 20];
    low[11] = 1;
    let mut low_bytes = [0u8; 32];
    low_bytes[23] = 1;
    assert_eq!(field_to_bytes(&pack_recipient(&low)), low_bytes);
}

fn holder(value: u64) -> AccountSecret {
    AccountSecret::from_bytes(&field_to_bytes(&u64_to_field(value)))
}

#[test]
fn deposit_plan_carries_the_commitment() {
    let secret = holder(42);
    let mut hasher = PoseidonHasher::new();
    let plan = prepare_deposit(&secret, 1_000_000_000_000_000_000, &mut hasher);
    let commitment = secret.compute_deposit_commitment(&mut hasher, 1_000_000_000_000_000_000);
    assert_eq!(plan.commitment, field_to_bytes(&commitment));
    assert_eq!(plan.witness.commitment, field_to_hex(&commitment));
    assert_eq!(plan.witness.amount, field_to_hex(&u128_to_field(1_000_000_000_000_000_000)));
    assert_eq!(plan.witness.secret, field_to_hex(&u64_to_field(42)));
}

#[test]
fn withdraw_plan_is_assembled_from_the_state() {
    let secret = holder(42);
    let mut state = StateManager::in_memory().unwrap();
    state.insert_leaf(u64_to_field(77)).unwrap();
    let account = state.create_account(&secret, 10).unwrap();
    let mut hasher = PoseidonHasher::new();
    let recipient = [0x11u8; 20];

    let plan = prepare_withdraw(&state, &secret, 4, &recipient, &mut hasher).unwrap();
    let nullifier = secret.compute_nullifier(&mut hasher, 1, 0);
    assert_eq!(plan.account.index, 1);
    assert_eq!(plan.nullifier, field_to_bytes(&nullifier));
    assert_eq!(plan.state_root, field_to_bytes(&state.state_root()));
    assert_eq!(plan.witness.state_root, field_to_hex(&state.state_root()));
    assert_eq!(plan.witness.nullifier, field_to_hex(&nullifier));
    assert_eq!(plan.witness.amount, field_to_hex(&u64_to_field(4)));
    assert_eq!(plan.witness.recipient, field_to_hex(&pack_recipient(&recipient)));
    assert_eq!(plan.witness.secret, field_to_hex(&u64_to_field(42)));
    assert_eq!(plan.witness.balance, field_to_hex(&u64_to_field(10)));
    assert_eq!(plan.witness.nonce, field_to_hex(&u64_to_field(0)));
    assert_eq!(plan.witness.index, field_to_hex(&u64_to_field(1)));
    let path: Vec<String> = state.get_merkle_proof(1).iter().map(field_to_hex).collect();
    assert_eq!(plan.witness.path, path);
    assert_eq!(plan.witness.path[0], field_to_hex(&u64_to_field(77)));

    // The path proves the note's leaf against the root.
    let proof = state.get_merkle_proof(1);
    let leaf = account.compute_leaf(&mut hasher);
    assert!(MerkleTree::verify_proof_static(&mut hasher, leaf, 1, &proof, state.state_root()));
}

#[test]
fn transfer_plan_is_assembled_from_the_state() {
    let secret = holder(42);
    let mut state = StateManager::in_memory().unwrap();
    state.create_account(&secret, 10).unwrap();
    let mut hasher = PoseidonHasher::new();
    let recipient = hasher.derive_pubkey(&u64_to_field(99));

    let plan = prepare_transfer(&state, &secret, &recipient, 10, &mut hasher).unwrap();
    assert_eq!(plan.witness.old_state_root, field_to_hex(&state.state_root()));
    assert_eq!(plan.witness.recipient_pubkey, field_to_hex(&recipient));
    assert_eq!(plan.witness.amount, field_to_hex(&u64_to_field(10)));
    assert_eq!(plan.witness.sender_balance, field_to_hex(&u64_to_field(10)));
    assert_eq!(plan.witness.sender_path.len(), TREE_DEPTH);
    assert_eq!(
        plan.nullifier,
        field_to_bytes(&secret.compute_nullifier(&mut hasher, 0, 0))
    );
}

#[test]
fn spends_need_a_note_with_enough_balance() {
    let secret = holder(42);
    let mut state = StateManager::in_memory().unwrap();
    let mut hasher = PoseidonHasher::new();
    assert!(matches!(
        prepare_withdraw(&state, &secret, 1, &[0u8; 20], &mut hasher),
        Err(CoreError::AccountNotFound(_))
    ));
    assert!(matches!(settle_spend(&mut state, &secret, 1), Err(CoreError::AccountNotFound(_))));
    state.create_account(&secret, 10).unwrap();
    match prepare_withdraw(&state, &secret, 11, &[0u8; 20], &mut hasher) {
        Err(CoreError::InsufficientBalance { have, need }) => {
            assert_eq!((have, need), (10, 11))
        }
        _ => panic!("a withdrawal above the balance went through"),
    }
    let recipient = u64_to_field(1);
    assert!(matches!(
        prepare_transfer(&state, &secret, &recipient, 11, &mut hasher),
        Err(CoreError::InsufficientBalance { .. })
    ));
    let root = state.state_root();
    assert!(matches!(
        settle_spend(&mut state, &secret, 11),
        Err(CoreError::InsufficientBalance { .. })
    ));
    assert_eq!(state.state_root(), root);
    assert_eq!(state.stored_nullifiers().len(), 0);
}

#[test]
fn a_settled_spend_debits_writes_the_leaf_and_marks_the_nullifier() {
    let secret = holder(42);
    let mut state = StateManager::in_memory().unwrap();
    let mut hasher = PoseidonHasher::new();
    let account = state.create_account(&secret, 10).unwrap();
    let root_before = state.state_root();
    let nullifier = field_to_bytes(&secret.compute_nullifier(&mut hasher, 0, 0));

    let after = settle_spend(&mut state, &secret, 3).unwrap();
    assert_eq!(after.balance, 7);
    assert_eq!(after.nonce, account.nonce + 1);
    let pubkey = bytes_to_field(&account.pubkey);
    let leaf = hasher.hash3(&pubkey, &u128_to_field(7), &u64_to_field(1));
    assert_eq!(state.tree().get_leaf(0), Some(leaf));
    assert_ne!(state.state_root(), root_before);
    assert!(state.is_nullifier_used(&nullifier));
    assert_eq!(state.get_account(&account.pubkey).unwrap().unwrap().balance, 7);

    // The next spend has the next nullifier.
    let next = field_to_bytes(&secret.compute_nullifier(&mut hasher, 0, 1));
    assert!(!state.is_nullifier_used(&next));
    settle_spend(&mut state, &secret, 7).unwrap();
    assert!(state.is_nullifier_used(&next));
    assert_eq!(state.get_account(&account.pubkey).unwrap().unwrap().balance, 0);
}

#[test]
fn a_spend_whose_nullifier_is_used_changes_nothing() {
    let secret = holder(42);
    let mut state = StateManager::in_memory().unwrap();
    let mut hasher = PoseidonHasher::new();
    state.create_account(&secret, 10).unwrap();
    let nullifier = field_to_bytes(&secret.compute_nullifier(&mut hasher, 0, 0));
    state.mark_nullifier_used(&nullifier).unwrap();
    let root = state.state_root();
    assert!(matches!(settle_spend(&mut state, &secret, 3), Err(CoreError::NullifierUsed(_))));
    assert_eq!(state.state_root(), root);
    assert_eq!(state.stored_accounts()[0].balance, 10);
    assert_eq!(state.stored_accounts()[0].nonce, 0);
}

#[test]
fn the_indexer_collects_what_the_client_replays() {
    let secret = holder(42);
    let own = deposit(&secret, 250, 2, 7);
    let events = vec![
        VeilocityEvent::Deposit(deposit(&holder(7), 10, 0, 5)),
        VeilocityEvent::Withdrawal(withdrawal([9u8; 32], 6)),
        VeilocityEvent::Deposit(own),
        VeilocityEvent::Withdrawal(withdrawal([9u8; 32], 8)),
        VeilocityEvent::Deposit(deposit(&holder(7), 10, 0, 9)),
    ];
    let mut indexer = Indexer::new();
    indexer.index_events(&events, 9).unwrap();
    let served = indexer.state(3, "260".to_string(), false, 100);
    assert_eq!(served.leaves.len(), 3);
    assert_eq!(served.deposits.len(), 2);
    assert_eq!(served.withdrawals.len(), 2);
    assert_eq!(served.nullifiers, vec![[9u8; 32]]);
    assert_eq!(served.last_block, 9);
    assert_eq!(served.leaves[2], own.commitment);

    // Position 1 was skipped on chain; it holds the empty leaf.
    let tree = MerkleTree::new();
    assert_eq!(served.leaves[1], field_to_bytes(&tree.empty_hash(0)));

    let response = sync_response(&served);
    assert_eq!(response.leaves.len(), 3);
    assert_eq!(response.state_root, hex32(&served.state_root));
    assert_eq!(response.leaves[2], hex32(&own.commitment));
    assert_eq!(response.nullifiers, vec![hex32(&[9u8; 32])]);
    assert_eq!(response.tvl_wei, "260");
    let infos = deposits_response(&served);
    assert_eq!(infos.len(), 2);
    assert_eq!(infos[1].amount_wei, "250");
    assert_eq!(infos[1].leaf_index, 2);
    assert_eq!(infos[1].commitment, hex32(&own.commitment));

    // A client that replays the snapshot ends at the indexer's root.
    let mut state = StateManager::in_memory().unwrap();
    let report = sync_from_snapshot(&mut state, &secret, &response, &infos).unwrap();
    assert!(report.root_matches);
    assert_eq!(report.stats.own_deposits_found, 1);
    assert_eq!(state.stored_accounts()[0].balance, 250);
    assert_eq!(state.stored_accounts()[0].index, 2);
    assert_eq!(state.get_sync_checkpoint(), Some(9));

    let fresh = IndexerState::new();
    assert_eq!(fresh.state_root, field_to_bytes(&tree.root()));
    assert!(fresh.is_syncing);
    assert_eq!(fresh.tvl_wei, "0");
    assert_eq!(IndexerState::default().sync_progress, 0);
}

#[test]
fn the_indexer_refuses_a_deposit_beyond_the_tree() {
    let mut indexer = Indexer::new();
    let far = DepositEvent::from_log([1u8; 32], 5, 1 << 20, 0, 1, [0u8; 32]);
    assert!(matches!(
        indexer.index_event(&VeilocityEvent::Deposit(far)),
        Err(CoreError::TreeFull)
    ));
    assert!(matches!(
        indexer.index_events(&vec![VeilocityEvent::Deposit(far)], 77),
        Err(CoreError::TreeFull)
    ));
    let served = indexer.state(0, "0".to_string(), true, 0);
    assert_eq!(served.leaves.len(), 0);
    assert_eq!(served.last_block, 0);
}

#[test]
fn a_full_transfer_read_off_the_tree_passes_the_check() {
    let mut hasher = PoseidonHasher::new();
    let mut tree = MerkleTree::new();
    for i in 0..6u64 {
        tree.insert(u64_to_field(100 + i)).unwrap();
    }
    let (sender_index, recipient_index) = (4u64, 1u64);
    let sender_old = u64_to_field(104);
    let recipient_old = u64_to_field(101);
    let sender_new = u64_to_field(904);
    let recipient_new = u64_to_field(901);

    let old_root = tree.root();
    let sender_path_old = tree.get_proof(sender_index);
    let recipient_path_old = tree.get_proof(recipient_index);
    tree.update_leaf(sender_index, sender_new).unwrap();
    let intermediate = tree.root();
    let recipient_path_new = tree.get_proof(recipient_index);
    tree.update_leaf(recipient_index, recipient_new).unwrap();
    let new_root = tree.root();
    let sender_path_new = tree.get_proof(sender_index);

    assert_eq!(
        compute_root(&mut hasher, sender_new, sender_index, &sender_path_old),
        intermediate
    );
    assert_eq!(
        compute_root(&mut hasher, recipient_new, recipient_index, &recipient_path_new),
        new_root
    );

    let sender = TransferSide {
        index: sender_index,
        leaf_old: sender_old,
        leaf_new: sender_new,
        path_old: sender_path_old.clone(),
        path_new: sender_path_new.clone(),
    };
    let recipient = TransferSide {
        index: recipient_index,
        leaf_old: recipient_old,
        leaf_new: recipient_new,
        path_old: recipient_path_old.clone(),
        path_new: recipient_path_new.clone(),
    };
    assert!(verify_full_transfer(&mut hasher, old_root, new_root, &sender, &recipient));

    // Each part of the check matters.
    assert!(!verify_full_transfer(&mut hasher, new_root, new_root, &sender, &recipient));
    assert!(!verify_full_transfer(&mut hasher, old_root, intermediate, &sender, &recipient));
    let stale = TransferSide {
        index: recipient_index,
        leaf_old: recipient_old,
        leaf_new: recipient_new,
        path_old: recipient_path_old.clone(),
        path_new: recipient_path_old.clone(),
    };
    assert!(!verify_full_transfer(&mut hasher, old_root, new_root, &sender, &stale));
    let stale_sender = TransferSide {
        index: sender_index,
        leaf_old: sender_old,
        leaf_new: sender_new,
        path_old: sender_path_old.clone(),
        path_new: sender_path_old.clone(),
    };
    assert!(!verify_full_transfer(&mut hasher, old_root, new_root, &stale_sender, &recipient));
    let wrong_leaf = TransferSide {
        index: sender_index,
        leaf_old: u64_to_field(105),
        leaf_new: sender_new,
        path_old: sender_path_old.clone(),
        path_new: sender_path_new.clone(),
    };
    assert!(!verify_full_transfer(&mut hasher, old_root, new_root, &wrong_leaf, &recipient));
    let short = TransferSide {
        index: sender_index,
        leaf_old: sender_old,
        leaf_new: sender_new,
        path_old: sender_path_old[..19].to_vec(),
        path_new: sender_path_new,
    };
    assert!(!verify_full_transfer(&mut hasher, old_root, new_root, &short, &recipient));
}

#[test]
fn the_journal_is_read_in_the_order_of_its_times() {
    let mut manager = StateManager::in_memory().unwrap();
    manager.record_transaction("deposit", 1, None, None, "confirmed", 300).unwrap();
    manager.record_transaction("transfer", 2, None, None, "confirmed", 100).unwrap();
    manager.record_transaction("withdraw", 3, None, None, "confirmed", 300).unwrap();
    manager.record_transaction("deposit", 4, None, None, "confirmed", 200).unwrap();
    let ids: Vec<u64> = manager.get_transactions(10).unwrap().iter().map(|e| e.id).collect();
    // Latest time first; of the two entries of time 300 the later one first.
    assert_eq!(ids, vec![3, 1, 4, 2]);
    let ids: Vec<u64> = manager.get_transactions(2).unwrap().iter().map(|e| e.id).collect();
    assert_eq!(ids, vec![3, 1]);
    let times: Vec<u64> =
        manager.get_transactions(10).unwrap().iter().map(|e| e.created_at).collect();
    assert_eq!(times, vec![300, 300, 200, 100]);
}

#[test]
fn journal_data_holds_the_three_members() {
    let mut manager = StateManager::in_memory().unwrap();
    manager
        .record_transaction("withdraw", 12, Some(&[0x0a, 0xff]), Some("0xabc"), "pending", 5)
        .unwrap();
    let entry = &manager.get_transactions(1).unwrap()[0];
    let text = String::from_utf8(entry.data.clone()).unwrap();
    assert!(text.contains("\"amount\":\"12\""));
    assert!(text.contains("\"tx_hash\":\"0aff\""));
    assert!(text.contains("\"recipient\":\"0xabc\""));
    manager.record_transaction("deposit", 1, None, None, "pending", 6).unwrap();
    let entry = &manager.get_transactions(1).unwrap()[0];
    let text = String::from_utf8(entry.data.clone()).unwrap();
    assert!(text.contains("\"tx_hash\":null"));
    assert!(text.contains("\"recipient\":null"));
}

#[test]
fn a_credited_note_keeps_the_commitment_in_the_tree_until_it_is_spent() {
    let secret = holder(42);
    let mut hasher = PoseidonHasher::new();
    let mut state = StateManager::in_memory().unwrap();
    let event = deposit(&secret, 10, 0, 1);
    apply_events(&mut state, &secret, &vec![VeilocityEvent::Deposit(event)]).unwrap();
    let note = state.stored_accounts()[0];

    // Before the first spend the position holds the commitment of the deposit.
    let proof = state.get_merkle_proof(0);
    let root = state.state_root();
    let commitment = bytes_to_field(&event.commitment);
    assert!(MerkleTree::verify_proof_static(&mut hasher, commitment, 0, &proof, root));
    let leaf = note.compute_leaf(&mut hasher);
    assert!(!MerkleTree::verify_proof_static(&mut hasher, leaf, 0, &proof, root));

    // After a spend it holds the leaf of the note.
    let after = settle_spend(&mut state, &secret, 4).unwrap();
    let proof = state.get_merkle_proof(0);
    let root = state.state_root();
    let leaf = after.compute_leaf(&mut hasher);
    assert!(MerkleTree::verify_proof_static(&mut hasher, leaf, 0, &proof, root));
}
