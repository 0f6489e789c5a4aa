use gitgold::{Address, ErrorKind, KeyPair, Ledger, LedgerError, Transaction, TransactionType};
use sha2::{Digest, Sha256};

fn generate() -> KeyPair {
    KeyPair::generate().unwrap()
}

fn mint_tx(to: &str, amount: u64) -> Transaction {
    Transaction {
        tx_id: uuid::Uuid::new_v4().to_string(),
        tx_type: TransactionType::Mint,
        from: Address::system(),
        to: Address::new(to),
        amount,
        metadata: "{}".to_string(),
        timestamp: 1700000000,
        signature: String::new(),
        pubkey: String::new(),
    }
}

fn signed_tx(kp: &KeyPair, kind: TransactionType, to: &str, amount: u64) -> Transaction {
    let mut tx = Transaction {
        tx_id: uuid::Uuid::new_v4().to_string(),
        tx_type: kind,
        from: kp.address(),
        to: Address::new(to),
        amount,
        metadata: "{}".to_string(),
        timestamp: 1700000000,
        signature: String::new(),
        pubkey: hex::encode(kp.public_key().bytes),
    };
    tx.signature = hex::encode(kp.sign(&tx.signable_bytes()));
    tx
}

fn transfer_tx(kp: &KeyPair, to: &str, amount: u64) -> Transaction {
    signed_tx(kp, TransactionType::Transfer, to, amount)
}

#[test]
fn test_mint_and_balance() {
    let mut ledger = Ledger::in_memory().unwrap();
    ledger.append(mint_tx("alice", 1_000_000)).unwrap();
    assert_eq!(ledger.balance(&Address::new("alice")), 1_000_000);
}

#[test]
fn test_transfer_updates_balances() {
    let mut ledger = Ledger::in_memory().unwrap();
    let alice_kp = generate();
    let alice_addr = alice_kp.address();

    ledger.append(mint_tx(&alice_addr.0, 1_000_000)).unwrap();
    ledger.append(transfer_tx(&alice_kp, "bob", 400_000)).unwrap();

    assert_eq!(ledger.balance(&alice_addr), 600_000);
    assert_eq!(ledger.balance(&Address::new("bob")), 400_000);
}

#[test]
fn test_double_spend_rejected() {
    let mut ledger = Ledger::in_memory().unwrap();
    let alice_kp = generate();
    let alice_addr = alice_kp.address();

    ledger.append(mint_tx(&alice_addr.0, 500_000)).unwrap();
    ledger.append(transfer_tx(&alice_kp, "bob", 300_000)).unwrap();

    let result = ledger.append(transfer_tx(&alice_kp, "charlie", 300_000));
    assert!(matches!(result, Err(LedgerError::InsufficientBalance { .. })));
}

#[test]
fn test_signature_verification_failure() {
    let mut ledger = Ledger::in_memory().unwrap();
    let alice_kp = generate();
    let bob_kp = generate();
    let alice_addr = alice_kp.address();

    ledger.append(mint_tx(&alice_addr.0, 1_000_000)).unwrap();

    let mut bad_tx = transfer_tx(&bob_kp, "mallory", 300_000);
    bad_tx.from = alice_addr;

    let result = ledger.append(bad_tx);
    assert!(matches!(result, Err(LedgerError::InvalidSignature)));
}

#[test]
fn test_duplicate_tx_rejected() {
    let mut ledger = Ledger::in_memory().unwrap();
    let tx = mint_tx("alice", 1_000_000);
    let tx_id = tx.tx_id.clone();
    ledger.append(tx).unwrap();

    let duplicate = Transaction {
        tx_id: tx_id,
        tx_type: TransactionType::Mint,
        from: Address::system(),
        to: Address::new("alice"),
        amount: 999,
        metadata: "{}".to_string(),
        timestamp: 1700000000,
        signature: String::new(),
        pubkey: String::new(),
    };
    assert!(matches!(ledger.append(duplicate), Err(LedgerError::DuplicateTransaction(_))));
}

#[test]
fn test_burn() {
    let mut ledger = Ledger::in_memory().unwrap();
    let alice_kp = generate();
    let alice_addr = alice_kp.address();

    ledger.append(mint_tx(&alice_addr.0, 1_000_000)).unwrap();

    let mut burn = Transaction {
        tx_id: uuid::Uuid::new_v4().to_string(),
        tx_type: TransactionType::Burn,
        from: alice_addr.clone(),
        to: Address::system(),
        amount: 100_000,
        metadata: "{}".to_string(),
        timestamp: 1700000000,
        signature: String::new(),
        pubkey: hex::encode(alice_kp.public_key().bytes),
    };
    burn.signature = hex::encode(alice_kp.sign(&burn.signable_bytes()));

    ledger.append(burn).unwrap();
    assert_eq!(ledger.balance(&alice_addr), 900_000);
    assert_eq!(ledger.supply().total_burned(), 100_000);
}

#[test]
fn test_merkle_tree() {
    let mut ledger = Ledger::in_memory().unwrap();
    ledger.append(mint_tx("alice", 1_000_000)).unwrap();
    ledger.append(mint_tx("bob", 2_000_000)).unwrap();

    let tree = ledger.merkle_tree().unwrap();
    assert_eq!(tree.leaf_count(), 2);
    assert_ne!(tree.root(), [0u8; 32]);
}

#[test]
fn test_tx_count() {
    let mut ledger = Ledger::in_memory().unwrap();
    assert_eq!(ledger.tx_count(), 0);
    ledger.append(mint_tx("alice", 100)).unwrap();
    assert_eq!(ledger.tx_count(), 1);
    ledger.append(mint_tx("bob", 200)).unwrap();
    assert_eq!(ledger.tx_count(), 2);
}

#[test]
fn ledger_merkle_root_is_hash_of_the_two_transaction_hashes() {
    let mut ledger = Ledger::in_memory().unwrap();
    let a = mint_tx("alice", 1_000_000);
    let b = mint_tx("bob", 2_000_000);
    let mut joined = a.hash().to_vec();
    joined.extend_from_slice(&b.hash());
    let expected: [u8; 32] = Sha256::digest(&joined).into();
    ledger.append(a).unwrap();
    ledger.append(b).unwrap();
    assert_eq!(ledger.merkle_tree().unwrap().root(), expected);
}

#[test]
fn refused_append_changes_nothing() {
    let mut ledger = Ledger::in_memory().unwrap();
    let alice_kp = generate();
    let alice_addr = alice_kp.address();
    ledger.append(mint_tx(&alice_addr.0, 500_000)).unwrap();
    let result = ledger.append(transfer_tx(&alice_kp, "bob", 500_001));
    match result {
        Err(LedgerError::InsufficientBalance { needed, available }) => {
            assert_eq!(needed, 500_001);
            assert_eq!(available, 500_000);
        }
        other => panic!("unexpected: {:?}", other),
    }
    assert_eq!(ledger.balance(&alice_addr), 500_000);
    assert_eq!(ledger.balance(&Address::new("bob")), 0);
    assert_eq!(ledger.tx_count(), 1);
    assert_eq!(ledger.transactions().len(), 1);
    assert_eq!(ledger.supply().total_minted(), 500_000);
}

#[test]
fn mint_beyond_the_cap_is_refused() {
    let mut ledger = Ledger::with_supply_cap(1_000);
    ledger.append(mint_tx("alice", 600)).unwrap();
    let result = ledger.append(mint_tx("bob", 401));
    assert_eq!(result, Err(LedgerError::SupplyCapExceeded));
    assert_eq!(ledger.supply().total_minted(), 600);
    ledger.append(mint_tx("bob", 400)).unwrap();
    assert_eq!(ledger.supply().total_minted(), 1_000);
    assert_eq!(ledger.supply().cap(), 1_000);
    assert_eq!(ledger.balance(&Address::new("bob")), 400);
}

#[test]
fn pubkey_that_is_not_hex_is_an_invalid_transaction() {
    let mut ledger = Ledger::in_memory().unwrap();
    let kp = generate();
    let mut tx = transfer_tx(&kp, "bob", 1);
    tx.pubkey = "zz".to_string();
    assert_eq!(
        ledger.append(tx),
        Err(LedgerError::InvalidTransaction("Invalid hex in pubkey".to_string()))
    );
}

#[test]
fn signature_that_is_not_hex_is_an_invalid_transaction() {
    let mut ledger = Ledger::in_memory().unwrap();
    let kp = generate();
    ledger.append(mint_tx(&kp.address().0, 10)).unwrap();
    let mut tx = transfer_tx(&kp, "bob", 1);
    tx.signature = "abc".to_string();
    assert_eq!(
        ledger.append(tx),
        Err(LedgerError::InvalidTransaction("Invalid hex in signature".to_string()))
    );
}

#[test]
fn corrupted_signature_is_rejected() {
    let mut ledger = Ledger::in_memory().unwrap();
    let kp = generate();
    ledger.append(mint_tx(&kp.address().0, 10)).unwrap();
    let mut tx = transfer_tx(&kp, "bob", 1);
    tx.amount = 2;
    assert_eq!(ledger.append(tx), Err(LedgerError::InvalidSignature));
    let mut short = transfer_tx(&kp, "bob", 1);
    short.signature = "00ff".to_string();
    assert_eq!(ledger.append(short), Err(LedgerError::InvalidSignature));
}

#[test]
fn uppercase_hex_key_and_signature_are_accepted() {
    let mut ledger = Ledger::in_memory().unwrap();
    let kp = generate();
    ledger.append(mint_tx(&kp.address().0, 10)).unwrap();
    let mut tx = Transaction {
        tx_id: "upper".to_string(),
        tx_type: TransactionType::Transfer,
        from: kp.address(),
        to: Address::new("bob"),
        amount: 4,
        metadata: "{}".to_string(),
        timestamp: -5,
        signature: String::new(),
        pubkey: hex::encode_upper(kp.public_key().bytes),
    };
    tx.signature = hex::encode_upper(kp.sign(&tx.signable_bytes()));
    ledger.append(tx).unwrap();
    assert_eq!(ledger.balance(&Address::new("bob")), 4);
}

#[test]
fn reward_from_system_mints_and_credits() {
    let mut ledger = Ledger::in_memory().unwrap();
    let mut tx = mint_tx("carol", 250);
    tx.tx_type = TransactionType::ChallengeReward;
    ledger.append(tx).unwrap();
    assert_eq!(ledger.balance(&Address::new("carol")), 250);
    assert_eq!(ledger.supply().total_minted(), 250);
    assert_eq!(ledger.supply().circulating(), 250);
}

#[test]
fn balances_sum_to_circulating_supply() {
    let mut ledger = Ledger::in_memory().unwrap();
    let kp = generate();
    let addr = kp.address();
    ledger.append(mint_tx(&addr.0, 1_000)).unwrap();
    ledger.append(mint_tx("bob", 500)).unwrap();
    ledger.append(transfer_tx(&kp, "bob", 300)).unwrap();
    ledger.append(signed_tx(&kp, TransactionType::Burn, "system", 200)).unwrap();
    ledger.append(signed_tx(&kp, TransactionType::PushFee, &addr.0, 100)).unwrap();
    let sum = ledger.balance(&addr) + ledger.balance(&Address::new("bob"));
    assert_eq!(ledger.balance(&addr), 500);
    assert_eq!(ledger.balance(&Address::new("bob")), 800);
    assert_eq!(sum, ledger.supply().total_minted() - ledger.supply().total_burned());
    assert_eq!(ledger.balances().balance(&addr), 500);
}

#[test]
fn reopening_from_the_log_gives_the_same_state() {
    let mut ledger = Ledger::in_memory().unwrap();
    let kp = generate();
    let addr = kp.address();
    ledger.append(mint_tx(&addr.0, 1_000)).unwrap();
    ledger.append(transfer_tx(&kp, "bob", 300)).unwrap();
    ledger.append(signed_tx(&kp, TransactionType::Burn, "system", 200)).unwrap();

    let rows: Vec<Transaction> = ledger.transactions().clone();
    let reopened = Ledger::open(rows).unwrap();
    assert_eq!(reopened.balance(&addr), ledger.balance(&addr));
    assert_eq!(reopened.balance(&addr), 500);
    assert_eq!(reopened.balance(&Address::new("bob")), 300);
    assert_eq!(reopened.supply().total_minted(), 1_000);
    assert_eq!(reopened.supply().total_burned(), 200);
    assert_eq!(reopened.tx_count(), 3);
    assert_eq!(reopened.merkle_tree().unwrap().root(), ledger.merkle_tree().unwrap().root());
}

#[test]
fn rows_that_do_not_replay_are_corrupt() {
    let mut spend = mint_tx("bob", 5);
    spend.tx_type = TransactionType::Transfer;
    spend.from = Address::new("nobody");
    let result = Ledger::open(vec![mint_tx("alice", 10), spend]);
    assert!(matches!(result, Err(LedgerError::Corrupt)));
}

#[test]
fn replay_reports_the_first_failure_and_keeps_what_came_before() {
    let mut ledger = Ledger::with_supply_cap(100);
    let rows = vec![mint_tx("alice", 60), mint_tx("bob", 50), mint_tx("carol", 1)];
    let result = ledger.replay(&rows);
    assert_eq!(result, Err(LedgerError::SupplyCapExceeded));
    assert_eq!(ledger.balance(&Address::new("alice")), 60);
    assert_eq!(ledger.balance(&Address::new("carol")), 0);
    assert_eq!(ledger.tx_count(), 1);
}

#[test]
fn check_agrees_with_append_and_changes_nothing() {
    let mut ledger = Ledger::in_memory().unwrap();
    let tx = mint_tx("alice", 10);
    assert_eq!(ledger.check(&tx), Ok(()));
    assert_eq!(ledger.tx_count(), 0);
    assert_eq!(ledger.balance(&Address::new("alice")), 0);
    let again = gitgold::store::duplicate(&tx);
    ledger.append(tx).unwrap();
    let verdict = ledger.check(&again);
    assert_eq!(verdict.as_ref().map_err(|e| e.kind()), Err(ErrorKind::DuplicateTransaction));
    assert_eq!(verdict, Err(LedgerError::DuplicateTransaction(again.tx_id.clone())));
    let kp = generate();
    assert!(matches!(
        ledger.check(&transfer_tx(&kp, "bob", 1)),
        Err(LedgerError::InsufficientBalance { needed: 1, available: 0 })
    ));
}

#[test]
fn transfer_to_oneself_keeps_the_balance() {
    let mut ledger = Ledger::in_memory().unwrap();
    let kp = generate();
    let addr = kp.address();
    ledger.append(mint_tx(&addr.0, 70)).unwrap();
    ledger.append(transfer_tx(&kp, &addr.0, 70)).unwrap();
    assert_eq!(ledger.balance(&addr), 70);
}

#[test]
fn failed_replay_keeps_the_log_up_to_the_failure() {
    let mut ledger = Ledger::with_supply_cap(100);
    ledger.append(mint_tx("zed", 10)).unwrap();
    let rows = vec![mint_tx("alice", 60), mint_tx("bob", 50), mint_tx("carol", 1)];
    assert_eq!(ledger.replay(&rows), Err(LedgerError::SupplyCapExceeded));
    let log = ledger.transactions();
    assert_eq!(log.len(), 2);
    assert_eq!(log[1].tx_id, rows[0].tx_id);
    assert_eq!(ledger.balance(&Address::new("zed")), 10);
    assert_eq!(ledger.balance(&Address::new("alice")), 60);
    assert_eq!(ledger.balance(&Address::new("bob")), 0);
    assert_eq!(ledger.supply().total_minted(), 70);
    assert_eq!(ledger.tx_count(), 2);
}

#[test]
fn metadata_that_is_not_json_is_an_invalid_transaction() {
    let mut ledger = Ledger::in_memory().unwrap();
    let mut tx = mint_tx("alice", 5);
    tx.metadata = "not json".to_string();
    assert_eq!(
        ledger.check(&tx),
        Err(LedgerError::InvalidTransaction("Invalid JSON in metadata".to_string()))
    );
    assert_eq!(
        ledger.append(tx),
        Err(LedgerError::InvalidTransaction("Invalid JSON in metadata".to_string()))
    );
    assert_eq!(ledger.tx_count(), 0);
    let mut spaced = mint_tx("alice", 5);
    spaced.metadata = " { \"a\" : 1 } ".to_string();
    assert_eq!(spaced.check_metadata(), Ok(()));
    ledger.append(spaced).unwrap();
    assert_eq!(ledger.balance(&Address::new("alice")), 5);
}

#[test]
fn a_signed_field_changed_after_signing_is_an_invalid_signature() {
    let mut ledger = Ledger::in_memory().unwrap();
    let kp = generate();
    ledger.append(mint_tx(&kp.address().0, 100)).unwrap();
    let honest = transfer_tx(&kp, "bob", 10);

    let mut changed = vec![honest.clone(), honest.clone(), honest.clone(), honest.clone(), honest.clone(), honest.clone()];
    changed[0].tx_id.push('x');
    changed[1].to = Address::new("carol");
    changed[2].amount = 11;
    changed[3].timestamp += 1;
    changed[4].metadata = "{\"a\":1}".to_string();
    changed[5].metadata = "not json".to_string();
    for tx in changed {
        assert_eq!(ledger.append(tx), Err(LedgerError::InvalidSignature));
        assert_eq!(ledger.tx_count(), 1);
        assert_eq!(ledger.balance(&kp.address()), 100);
    }

    let other = generate();
    let mut resigned = honest.clone();
    resigned.signature = hex::encode(other.sign(&honest.signable_bytes()));
    assert_eq!(ledger.append(resigned), Err(LedgerError::InvalidSignature));

    let mut flipped = honest.clone();
    let first = if flipped.signature.starts_with('0') { "1" } else { "0" };
    flipped.signature.replace_range(0..1, first);
    assert_eq!(ledger.append(flipped), Err(LedgerError::InvalidSignature));
    assert_eq!(ledger.balance(&Address::new("bob")), 0);

    ledger.append(honest).unwrap();
    assert_eq!(ledger.balance(&Address::new("bob")), 10);
    assert_eq!(ledger.balance(&kp.address()), 90);
}
