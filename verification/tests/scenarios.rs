use iuna::genesis::GenesisBurn;
use iuna::gossip::GossipEnvelope;
use iuna::ledger::Ledger;
use iuna::node::{NodeConfig, NodeCore, DEFAULT_BURN_PER_BLOCK};
use iuna::peers::{PeerBook, PeerDirection};
use iuna::sorted::SortedMap;
use iuna::transaction::{Amount, Transaction, BLOCK_REWARD, MICRO_IUNA};
use iuna::vdf::{run_vdf, verify_vdf};
use iuna::wallet::Wallet;

fn iuna(amount: Amount) -> Amount {
    amount * MICRO_IUNA
}

fn node(_network_key: &str, wallet: Wallet, allocations: SortedMap<String, Amount>) -> NodeCore {
    NodeCore::new(NodeConfig {
        wallet,
        genesis_allocations: allocations,
        vdf_rounds: 25,
        burn_per_block: DEFAULT_BURN_PER_BLOCK,
        burn_fee: 1,
        pow_mining_workers: 1,
        recovery_vdf_top_rank_percent: 100,
    })
}

fn wallets(names: &[&str]) -> Vec<Wallet> {
    names.iter().map(|name| Wallet::from_seed(name)).collect()
}

fn allocations(wallets: &[Wallet], amount: Amount) -> SortedMap<String, Amount> {
    let mut allocations = SortedMap::new();
    for wallet in wallets {
        allocations.insert(wallet.address().to_string(), amount);
    }
    allocations
}

fn mine_wallet_burn_block(ledger: &mut Ledger, wallet: &Wallet, timestamp_ms: u64) -> String {
    let burn = ledger.build_burn(wallet, 1, 0).unwrap();
    ledger.submit_transaction(burn).unwrap();
    let block = ledger.mine_next_block(wallet, timestamp_ms).unwrap();
    let hash = block.hash.clone();
    ledger.apply_block(block).unwrap();
    hash
}

fn submit_burn(ledger: &mut Ledger, wallet: &Wallet, amount: Amount) {
    let tx = ledger.build_burn(wallet, amount, 0).unwrap();
    ledger.submit_transaction(tx).unwrap();
}

fn burn_tx(ledger: &Ledger, wallet: &Wallet, amount: Amount) -> Transaction {
    ledger.build_burn(wallet, amount, 0).unwrap()
}

fn transfer_tx(
    ledger: &Ledger,
    wallet: &Wallet,
    to: &str,
    amount: Amount,
) -> Transaction {
    ledger.build_transfer(wallet, to, amount, 0).unwrap()
}

fn transfer_fee_tx(
    ledger: &Ledger,
    wallet: &Wallet,
    to: &str,
    amount: Amount,
    fee: Amount,
) -> Transaction {
    ledger.build_transfer(wallet, to, amount, fee).unwrap()
}

fn fork_with_better_vrf_block(
    base: &Ledger,
    wallet: &Wallet,
    local_fork_block_hash: &str,
    first_timestamp_ms: u64,
) -> Option<Ledger> {
    for offset in 0..10_000 {
        let mut candidate = base.clone();
        let hash = mine_wallet_burn_block(&mut candidate, wallet, first_timestamp_ms + offset);
        if hash.as_str() < local_fork_block_hash {
            return Some(candidate);
        }
    }
    None
}

fn fork_with_worse_vrf_block(
    base: &Ledger,
    wallet: &Wallet,
    local_fork_block_hash: &str,
    first_timestamp_ms: u64,
) -> Option<Ledger> {
    for offset in 0..10_000 {
        let mut candidate = base.clone();
        let hash = mine_wallet_burn_block(&mut candidate, wallet, first_timestamp_ms + offset);
        if hash.as_str() > local_fork_block_hash {
            return Some(candidate);
        }
    }
    None
}

fn starter_node(wallet: Wallet) -> NodeCore {
    let mut genesis = SortedMap::new();
    genesis.insert(wallet.address().to_string(), 1);
    let ledger =
        Ledger::new_with_genesis_burns(genesis, vec![GenesisBurn::new(wallet.address(), 1)], 25)
            .unwrap();
    NodeCore::from_ledger_with_burn_fee_and_enabled(
        wallet,
        ledger,
        true,
        DEFAULT_BURN_PER_BLOCK,
        MICRO_IUNA,
    )
}

#[test]
fn genesis_burn_starts_chain_with_reward_and_first_leader() {
    let alice = Wallet::from_seed("alice");
    let node = starter_node(alice.clone());

    let genesis = &node.ledger().chain()[0];
    assert_eq!(node.ledger().balance_of(alice.address()), BLOCK_REWARD);
    assert_eq!(genesis.height, 0);
    assert_eq!(genesis.miner, alice.address());
    assert_eq!(genesis.reward, BLOCK_REWARD);
    assert_eq!(genesis.transactions.len(), 1);
    assert!(genesis.transactions[0].is_burn());
    assert_eq!(genesis.transactions[0].amount(), 1);
    assert_eq!(
        node.ledger().expected_leader_for_next_block().as_deref(),
        Some(alice.address())
    );
}

#[test]
fn burn_amount_weights_leader_selection() {
    let mut high_weight_leaders = 0;
    for sample in 0..100 {
        let low = Wallet::from_seed(&format!("weighted-low-{sample}"));
        let high = Wallet::from_seed(&format!("weighted-high-{sample}"));
        let mut allocations = SortedMap::new();
        allocations.insert(low.address().to_string(), 1_000);
        allocations.insert(high.address().to_string(), 1_000);
        let ledger = Ledger::new_with_genesis_burns(
            allocations,
            vec![
                GenesisBurn::new(low.address(), 1),
                GenesisBurn::new(high.address(), 99),
            ],
            25,
        )
        .unwrap();

        if ledger.expected_leader_for_next_block().as_deref() == Some(high.address()) {
            high_weight_leaders += 1;
        }
    }

    assert!(
        high_weight_leaders >= 90,
        "high burn ticket should win most weighted draws, won {high_weight_leaders}/100"
    );
}

#[test]
fn burn_in_block_creates_ticket_after_maturity_delay() {
    let alice = Wallet::from_seed("alice");
    let bob = Wallet::from_seed("bob");
    let mut allocations = SortedMap::new();
    allocations.insert(alice.address().to_string(), 1_000);
    allocations.insert(bob.address().to_string(), 1_000);

    let mut ledger = Ledger::new(allocations, 10);
    submit_burn(&mut ledger, &bob, 80);

    let launch_leader =
        if ledger.expected_leader_for_next_block().as_deref() == Some(alice.address()) {
            &alice
        } else {
            &bob
        };
    let first = ledger.mine_next_block(launch_leader, 1).unwrap();
    ledger.apply_block(first).unwrap();

    for height in 2..=3 {
        let leader_wallet =
            if ledger.expected_leader_for_next_block().as_deref() == Some(alice.address()) {
                &alice
            } else {
                &bob
            };
        submit_burn(&mut ledger, leader_wallet, 1);
        let block = ledger.mine_next_block(leader_wallet, height).unwrap();
        ledger.apply_block(block).unwrap();
    }

    assert_eq!(
        ledger.expected_leader_for_next_block().as_deref(),
        Some(bob.address())
    );

    assert!(
        ledger.mine_next_block(&alice, 4).is_err(),
        "the block 1 burn should not be eligible before its maturity delay, and only Bob should hold it at block 4"
    );

    submit_burn(&mut ledger, &bob, 1);
    assert!(ledger.mine_next_block(&bob, 4).is_ok());
}

#[test]
fn transfer_and_burn_update_balances_when_block_is_applied() {
    let alice = Wallet::from_seed("alice");
    let bob = Wallet::from_seed("bob");
    let mut allocations = SortedMap::new();
    allocations.insert(alice.address().to_string(), iuna(1_000));
    allocations.insert(bob.address().to_string(), iuna(100));

    let mut ledger = Ledger::new(allocations, 10);
    let transfer = transfer_tx(&ledger, &alice, bob.address(), iuna(125));
    ledger.submit_transaction(transfer).unwrap();
    let burn = burn_tx(&ledger, &alice, iuna(25));
    ledger.submit_transaction(burn).unwrap();
    let block = ledger.mine_next_block(&alice, 1).unwrap();
    ledger.apply_block(block).unwrap();

    assert_eq!(ledger.balance_of(alice.address()), iuna(850));
    assert_eq!(ledger.balance_of(bob.address()), iuna(225));
}

#[test]
fn forged_transaction_is_rejected() {
    let alice = Wallet::from_seed("alice");
    let bob = Wallet::from_seed("bob");
    let mut allocations = SortedMap::new();
    allocations.insert(alice.address().to_string(), 1_000);
    allocations.insert(bob.address().to_string(), 1_000);
    let mut ledger = Ledger::new(allocations, 10);

    let mut forged = burn_tx(&ledger, &bob, 10);
    if let Transaction::Burn { inputs, .. } = &mut forged {
        inputs[0].owner = alice.address().to_string();
    }

    let error = ledger.submit_transaction(forged).unwrap_err();
    assert!(error.message().contains("signature"));
}

#[test]
fn block_with_forged_transaction_is_rejected() {
    let alice = Wallet::from_seed("alice");
    let mut allocations = SortedMap::new();
    allocations.insert(alice.address().to_string(), 1_000);
    let mut ledger = Ledger::new(allocations, 10);
    submit_burn(&mut ledger, &alice, 1);

    let mut block = ledger.mine_next_block(&alice, 1).unwrap();
    if let Transaction::Burn { signature, .. } = &mut block.transactions[0] {
        signature.push_str("00");
    }
    block.vdf_output = run_vdf(&block.vdf_seed(), block.vdf_rounds);
    block.hash = block.compute_hash();

    let error = ledger.apply_block(block).unwrap_err();
    assert!(error.message().contains("signature"));
}

#[test]
fn forged_mine_action_cannot_introduce_luun() {
    let alice = Wallet::from_seed("forged-mine-alice");
    let mut allocations = SortedMap::new();
    allocations.insert(alice.address().to_string(), MICRO_IUNA);
    let mut ledger = Ledger::new(allocations, 10);

    let mut forged = ledger.build_mine(alice.address()).unwrap();
    if let Transaction::Mine { nonce, .. } = &mut forged {
        *nonce += 1;
    }

    let error = ledger.submit_transaction(forged).unwrap_err();
    assert!(error.message().contains("mine transaction proof hash is invalid"));
    assert_eq!(ledger.balance_of(alice.address()), MICRO_IUNA);
}

#[test]
fn burn_larger_than_mine_reward_is_paid_from_existing_utxos() {
    let alice = Wallet::from_seed("large-burn-existing-utxos-alice");
    let mut allocations = SortedMap::new();
    allocations.insert(alice.address().to_string(), BLOCK_REWARD + iuna(50));

    let mut ledger = Ledger::new(allocations, 10);
    let burn_amount = BLOCK_REWARD + iuna(25);
    let burn = ledger.build_burn(&alice, burn_amount, 0).unwrap();
    ledger.submit_transaction(burn).unwrap();

    let block = ledger.mine_next_block(&alice, 1).unwrap();
    assert_eq!(block.transactions[0].amount(), burn_amount);
    assert_eq!(block.reward, 0);

    ledger.apply_block(block).unwrap();
    assert_eq!(ledger.balance_of(alice.address()), iuna(25));
}

#[test]
fn burn_larger_than_existing_balance_cannot_use_next_block_reward() {
    let alice = Wallet::from_seed("large-burn-cannot-use-next-reward-alice");
    let mut allocations = SortedMap::new();
    allocations.insert(alice.address().to_string(), BLOCK_REWARD);

    let ledger = Ledger::new(allocations, 10);
    let error = ledger
        .build_burn(&alice, BLOCK_REWARD + MICRO_IUNA, 0)
        .unwrap_err();

    assert!(error.message().contains("insufficient funds"));
}

#[test]
fn transaction_fees_are_paid_to_the_block_miner() {
    let alice = Wallet::from_seed("fee-miner-alice");
    let bob = Wallet::from_seed("fee-payer-bob");
    let mut allocations = SortedMap::new();
    allocations.insert(alice.address().to_string(), MICRO_IUNA);
    allocations.insert(bob.address().to_string(), iuna(200));

    let mut ledger = Ledger::new_with_genesis_burns(
        allocations,
        vec![GenesisBurn::new(alice.address(), MICRO_IUNA)],
        10,
    )
    .unwrap();
    submit_burn(&mut ledger, &alice, MICRO_IUNA);
    let tx = transfer_fee_tx(&ledger, &bob, alice.address(), iuna(10), iuna(7));
    ledger.submit_transaction(tx).unwrap();

    let block = ledger.mine_next_block(&alice, 1).unwrap();
    assert_eq!(block.reward, iuna(7));
    ledger.apply_block(block).unwrap();

    assert_eq!(ledger.balance_of(alice.address()), iuna(116));
    assert_eq!(ledger.balance_of(bob.address()), iuna(183));
}

#[test]
fn miner_orders_block_transactions_by_fee_rate_after_required_burn() {
    let wallets = wallets(&["fee-order-alice", "fee-order-bob", "fee-order-carol"]);
    let alice = &wallets[0];
    let bob = &wallets[1];
    let carol = &wallets[2];
    let mut allocations = allocations(&wallets, 1_000);
    allocations.insert(alice.address().to_string(), 1);
    let mut ledger =
        Ledger::new_with_genesis_burns(allocations, vec![GenesisBurn::new(alice.address(), 1)], 10)
            .unwrap();
    let required_burn = burn_tx(&ledger, alice, 1);
    let low_fee = transfer_fee_tx(&ledger, bob, alice.address(), 1, 1);
    let high_fee = transfer_fee_tx(&ledger, carol, alice.address(), 1, 20);
    ledger.submit_transaction(low_fee.clone()).unwrap();
    ledger.submit_transaction(high_fee.clone()).unwrap();
    ledger.submit_transaction(required_burn.clone()).unwrap();

    let block = ledger.mine_next_block(alice, 1).unwrap();
    let signatures = block
        .transactions
        .iter()
        .map(|tx| tx.signature().to_string())
        .collect::<Vec<_>>();

    assert_eq!(signatures[0], required_burn.signature());
    assert!(
        signatures
            .iter()
            .position(|signature| signature == high_fee.signature())
            < signatures
                .iter()
                .position(|signature| signature == low_fee.signature())
    );
}

#[test]
fn transfer_that_would_overflow_recipient_balance_is_rejected() {
    let alice = Wallet::from_seed("alice");
    let bob = Wallet::from_seed("bob");
    let mut allocations = SortedMap::new();
    allocations.insert(alice.address().to_string(), 1);
    allocations.insert(bob.address().to_string(), Amount::MAX);

    let ledger = Ledger::new(allocations, 10);
    let error = ledger
        .build_transfer(&alice, bob.address(), 1, 0)
        .unwrap_err();

    assert!(error.message().contains("balance overflow"));
}

#[test]
fn mine_reward_that_would_overflow_recipient_balance_is_rejected() {
    let alice = Wallet::from_seed("alice");
    let mut allocations = SortedMap::new();
    allocations.insert(alice.address().to_string(), Amount::MAX);

    let ledger = Ledger::new(allocations, 10);
    let error = ledger.build_mine(alice.address()).unwrap_err();

    assert!(error.message().contains("balance overflow"));
}

#[test]
fn block_without_mature_ticket_cannot_be_mined() {
    let alice = Wallet::from_seed("alice");
    let allocations = SortedMap::new();

    let ledger = Ledger::new(allocations, 10);
    let error = ledger.mine_next_block(&alice, 1).unwrap_err();
    assert!(error.message().contains("mature burn ticket"));
}

#[test]
fn vdf_work_requires_at_least_one_pending_burn() {
    let alice = Wallet::from_seed("alice");
    let mut allocations = SortedMap::new();
    allocations.insert(alice.address().to_string(), 1_000);

    let ledger = Ledger::new(allocations, 10);
    let error = ledger.prepare_next_block(alice.address(), 1).unwrap_err();

    assert!(error.message().contains("at least one burn"));
}

#[test]
fn leader_block_without_burn_is_rejected() {
    let alice = Wallet::from_seed("alice");
    let mut allocations = SortedMap::new();
    allocations.insert(alice.address().to_string(), 1_000);

    let mut ledger = Ledger::new(allocations, 10);
    submit_burn(&mut ledger, &alice, 1);
    let mut block = ledger.mine_next_block(&alice, 1).unwrap();
    block.transactions.clear();
    block.hash = block.compute_hash();

    let error = ledger.apply_block(block).unwrap_err();
    assert!(error.message().contains("at least one burn"));
}

#[test]
fn block_hash_is_bound_to_block_contents() {
    let alice = Wallet::from_seed("alice");
    let mut allocations = SortedMap::new();
    allocations.insert(alice.address().to_string(), 1_000);

    let mut ledger = Ledger::new(allocations, 10);
    submit_burn(&mut ledger, &alice, 1);
    let mut block = ledger.mine_next_block(&alice, 1).unwrap();
    block.timestamp_ms += 1;

    let error = ledger.apply_block(block).unwrap_err();
    assert!(error.message().contains("block hash is invalid"));
}

#[test]
fn default_automatic_mining_does_not_burn() {
    assert_eq!(DEFAULT_BURN_PER_BLOCK, 0);

    let alice = Wallet::from_seed("alice");
    let mut allocations = SortedMap::new();
    allocations.insert(alice.address().to_string(), 1_000);
    let mut node = node("alice", alice.clone(), allocations);

    let outcome = node.automatic_mine_once(1);
    assert!(outcome.burned.is_none());
    assert!(outcome.block.is_none());
    assert!(
        outcome
            .skipped_reason
            .as_deref()
            .is_some_and(|reason| reason.contains("automatic mining is off"))
    );
    assert_eq!(node.ledger().balance_of(alice.address()), 1_000);
}

#[test]
fn burn_per_block_can_be_set_to_zero() {
    let alice = Wallet::from_seed("alice");
    let mut allocations = SortedMap::new();
    allocations.insert(alice.address().to_string(), 1_000);
    let mut node = node("alice", alice, allocations);

    let burned = node.set_burn_per_block(25).unwrap();
    assert!(burned.is_some());
    assert!(node.status().mining.automatic);
    assert_eq!(node.status().mining.burn_per_block, 25);
    let burned = node.set_burn_per_block(0).unwrap();
    assert!(burned.is_none());
    assert!(!node.status().mining.automatic);
    assert_eq!(node.status().mining.burn_per_block, 0);
}

#[test]
fn automatic_burn_status_shows_configured_fee() {
    let alice = Wallet::from_seed("auto-fee-status-alice");
    let mut allocations = SortedMap::new();
    allocations.insert(alice.address().to_string(), 1_000);
    let mut node = node("alice", alice, allocations);

    assert_eq!(node.status().mining.automatic_burn_fee, 1);

    node.set_burn_per_block(1).unwrap();
    assert_eq!(node.status().mining.burn_per_block, 1);
    assert_eq!(node.status().mining.automatic_burn_fee, 1);

    node.set_automatic_burn(50, 3).unwrap();
    assert_eq!(node.status().mining.burn_per_block, 50);
    assert_eq!(node.status().mining.automatic_burn_fee, 3);
}

#[test]
fn automatic_mining_waits_when_wallet_is_not_selected_leader() {
    let alice = Wallet::from_seed("alice");
    let bob = Wallet::from_seed("bob");
    let mut allocations = SortedMap::new();
    allocations.insert(alice.address().to_string(), 1_000);
    allocations.insert(bob.address().to_string(), 1_000);

    let mut ledger = Ledger::new(allocations.clone(), 25);
    submit_burn(&mut ledger, &alice, 1);
    let first = ledger.mine_next_block(&alice, 1).unwrap();
    ledger.apply_block(first).unwrap();

    let mut bob_node = node("bob", bob.clone(), allocations);
    bob_node.set_burn_per_block(10).unwrap();
    bob_node
        .receive(GossipEnvelope::Block(ledger.chain()[1].clone()))
        .unwrap();

    let outcome = bob_node.automatic_mine_once(2);
    assert!(outcome.burned.is_some());
    assert!(outcome.block.is_none());
    assert!(outcome.skipped_reason.unwrap().contains(alice.address()));
    assert_eq!(bob_node.ledger().chain().len(), 2);
}

#[test]
fn block_with_wrong_vdf_rounds_is_rejected() {
    let wallet = Wallet::from_seed("alice");
    let mut genesis = SortedMap::new();
    genesis.insert(wallet.address().to_string(), 1_000);
    let mut ledger =
        Ledger::new_with_genesis_burns(genesis, vec![GenesisBurn::new(wallet.address(), 1)], 25)
            .unwrap();
    submit_burn(&mut ledger, &wallet, 1);

    let mut block = ledger.mine_next_block(&wallet, 1).unwrap();
    block.vdf_rounds = 1;
    block.hash = block.compute_hash();
    block.vdf_output = run_vdf(&block.vdf_seed(), block.vdf_rounds);

    assert!(ledger.apply_block(block).is_err());
}

#[test]
fn vdf_solution_verifies_without_rerunning_delay() {
    let solution = run_vdf("test-seed", 128);

    assert!(verify_vdf("test-seed", 128, &solution));
    assert!(!verify_vdf("other-seed", 128, &solution));
    assert!(!verify_vdf("test-seed", 129, &solution));
    assert!(!verify_vdf("test-seed", 128, "not-a-vdf-solution"));
}

#[test]
fn conflicting_utxo_spends_are_not_accepted_together() {
    let wallet = Wallet::from_seed("alice");
    let mut genesis = SortedMap::new();
    genesis.insert(wallet.address().to_string(), 1_000);
    let mut ledger = Ledger::new(genesis, 25);

    let first = burn_tx(&ledger, &wallet, 3);
    let conflicting = burn_tx(&ledger, &wallet, 4);
    ledger.submit_transaction(first.clone()).unwrap();
    assert!(!ledger.submit_transaction(conflicting).unwrap());
    assert_eq!(ledger.pending().len(), 1);

    let block = ledger
        .prepare_next_block(wallet.address(), 1)
        .unwrap()
        .finish(&wallet, "test-vdf".to_string());
    assert_eq!(block.transactions.len(), 1);
    assert!(block.transactions.contains(&first));
}

#[test]
fn peer_book_tracks_multiple_peers_without_networking() {
    let mut peers = PeerBook::from_addresses(vec![
        "127.0.0.1:9444".to_string(),
        "127.0.0.1:9445".to_string(),
        "127.0.0.1:9444".to_string(),
    ]);

    peers.record_sent("127.0.0.1:9444", 2);
    peers.record_status("127.0.0.1:9444", 12, "tip-hash".to_string());
    peers.record_error("127.0.0.1:9445", "connection refused");
    peers.record_received("127.0.0.1:9555", 1);
    peers.record_inbound_error("127.0.0.1:56666", "invalid nonce");

    let mut list = peers.list();
    list.sort_by(|left, right| left.address.cmp(&right.address));
    assert_eq!(list.len(), 4);

    let outbound_addresses = peers.addresses();
    assert_eq!(outbound_addresses.len(), 2);
    assert!(outbound_addresses.contains(&"127.0.0.1:9444".to_string()));
    assert!(outbound_addresses.contains(&"127.0.0.1:9445".to_string()));
    assert!(!outbound_addresses.contains(&"127.0.0.1:56666".to_string()));

    let sent_peer = list
        .iter()
        .find(|peer| peer.address == "127.0.0.1:9444")
        .unwrap();
    assert_eq!(sent_peer.messages_sent, 2);
    assert_eq!(sent_peer.last_known_height, Some(12));
    assert_eq!(sent_peer.last_known_tip_hash.as_deref(), Some("tip-hash"));
    assert_eq!(sent_peer.last_error, None);

    let failed_peer = list
        .iter()
        .find(|peer| peer.address == "127.0.0.1:9445")
        .unwrap();
    assert_eq!(
        failed_peer.last_error.as_deref(),
        Some("connection refused")
    );

    let inbound_peer = list
        .iter()
        .find(|peer| peer.address == "127.0.0.1:9555")
        .unwrap();
    assert_eq!(inbound_peer.direction, PeerDirection::Inbound);
    assert_eq!(inbound_peer.messages_received, 1);

    let inbound_error = list
        .iter()
        .find(|peer| peer.address == "127.0.0.1:56666")
        .unwrap();
    assert_eq!(inbound_error.direction, PeerDirection::Inbound);
    assert_eq!(inbound_error.last_error.as_deref(), Some("invalid nonce"));
}

#[test]
fn chain_snapshot_round_trips_ledger_state() {
    let alice = Wallet::from_seed("alice");
    let mut allocations = SortedMap::new();
    allocations.insert(alice.address().to_string(), 1_000);

    let mut ledger = Ledger::new(allocations, 10);
    submit_burn(&mut ledger, &alice, 10);
    let block = ledger.mine_next_block(&alice, 1).unwrap();
    ledger.apply_block(block).unwrap();

    let restored = Ledger::from_snapshot(ledger.snapshot()).unwrap();
    assert_eq!(restored.status().height, ledger.status().height);
    assert_eq!(restored.status().tip_hash, ledger.status().tip_hash);
    assert_eq!(
        restored.balance_of(alice.address()),
        ledger.balance_of(alice.address())
    );
}

#[test]
fn running_node_rejects_snapshot_from_different_genesis() {
    let alice = Wallet::from_seed("alice");
    let bob = Wallet::from_seed("bob");

    let mut alice_genesis = SortedMap::new();
    alice_genesis.insert(alice.address().to_string(), 1_000);
    let alice_node = node("alice", alice, alice_genesis);

    let mut bob_genesis = SortedMap::new();
    bob_genesis.insert(bob.address().to_string(), 1_000);
    let mut bob_node = node("bob", bob, bob_genesis);

    let error = bob_node
        .import_chain_snapshot(alice_node.chain_snapshot())
        .unwrap_err();

    assert!(error.message().contains("genesis"));
}

#[test]
fn same_height_fork_snapshot_does_not_reorg() {
    let alice = Wallet::from_seed("alice");
    let bob = Wallet::from_seed("bob");
    let wallets = vec![alice.clone(), bob.clone()];
    let shared_genesis = allocations(&wallets, 1_000);
    let base = Ledger::new_with_genesis_burns(
        shared_genesis,
        vec![GenesisBurn::new(alice.address(), 1)],
        1,
    )
    .unwrap();
    let mut local = base.clone();

    let local_first_fork_hash = mine_wallet_burn_block(&mut local, &alice, 1);
    let remote = fork_with_worse_vrf_block(&base, &alice, &local_first_fork_hash, 1).unwrap();

    let local_tip = local.status().tip_hash;
    assert!(!local.extend_from_snapshot(remote.snapshot()).unwrap());
    assert_eq!(local.status().tip_hash, local_tip);
}

#[test]
fn fork_choice_preflight_rejects_non_matching_genesis_before_scoring() {
    let alice = Wallet::from_seed("preflight-genesis-alice");
    let bob = Wallet::from_seed("preflight-genesis-bob");
    let mut local_genesis = SortedMap::new();
    local_genesis.insert(alice.address().to_string(), 1_000);
    let mut remote_genesis = SortedMap::new();
    remote_genesis.insert(bob.address().to_string(), 1_000);
    let mut local = Ledger::new(local_genesis, 1);
    let mut remote = Ledger::new(remote_genesis, 1);

    mine_wallet_burn_block(&mut local, &alice, 1);
    for timestamp in 1..=3 {
        mine_wallet_burn_block(&mut remote, &bob, timestamp);
    }

    let local_tip = local.status().tip_hash;
    let error = local.extend_from_snapshot(remote.snapshot()).unwrap_err();

    assert!(error.message().contains("genesis"));
    assert_eq!(local.status().tip_hash, local_tip);
}

#[test]
fn fork_choice_preflight_rejects_invalid_fork_before_vrf_scoring() {
    let alice = Wallet::from_seed("preflight-invalid-alice");
    let shared_genesis = allocations(std::slice::from_ref(&alice), 10_000);
    let mut common = Ledger::new(shared_genesis, 1);
    for timestamp in 1..=5 {
        mine_wallet_burn_block(&mut common, &alice, timestamp);
    }

    let mut local = common.clone();
    let local_first_fork_hash = mine_wallet_burn_block(&mut local, &alice, 6);
    mine_wallet_burn_block(&mut local, &alice, 7);
    mine_wallet_burn_block(&mut local, &alice, 8);

    let remote = fork_with_better_vrf_block(&common, &alice, &local_first_fork_hash, 100).unwrap();
    assert!(remote.chain()[6].hash < local.chain()[6].hash);
    let mut invalid_snapshot = remote.snapshot();
    if let Some(transaction) = invalid_snapshot.blocks[6].transactions.first_mut() {
        match transaction {
            Transaction::Burn { signature, .. }
            | Transaction::Transfer { signature, .. }
            | Transaction::Mine { signature, .. } => signature.push_str("00"),
        }
    }

    let local_tip = local.status().tip_hash;
    let error = local.extend_from_snapshot(invalid_snapshot).unwrap_err();

    assert!(error.message().contains("invalid"));
    assert_eq!(local.status().height, 8);
    assert_eq!(local.status().tip_hash, local_tip);
}

#[test]
fn fork_conflict_before_last_six_blocks_is_finalized_even_if_remote_is_longer() {
    let alice = Wallet::from_seed("finality-alice");
    let shared_genesis = allocations(std::slice::from_ref(&alice), 10_000);
    let mut common = Ledger::new(shared_genesis, 1);
    mine_wallet_burn_block(&mut common, &alice, 1);

    let mut local = common.clone();
    for timestamp in 2..=8 {
        mine_wallet_burn_block(&mut local, &alice, timestamp);
    }

    let mut remote = common;
    for timestamp in 20..=29 {
        mine_wallet_burn_block(&mut remote, &alice, timestamp);
    }

    assert_eq!(local.status().height, 8);
    assert_eq!(remote.status().height, 11);
    let finalized_local_tip = local.status().tip_hash;

    assert!(
        !local.extend_from_snapshot(remote.snapshot()).unwrap(),
        "forks that rewrite blocks before the last six should not be accepted"
    );
    assert_eq!(local.status().height, 8);
    assert_eq!(local.status().tip_hash, finalized_local_tip);
}

#[test]
fn shorter_better_rank_fork_inside_last_six_does_not_beat_positive_quality() {
    let alice = Wallet::from_seed("better-vrf-alice");
    let shared_genesis = allocations(std::slice::from_ref(&alice), 10_000);
    let mut common = Ledger::new(shared_genesis, 1);
    for timestamp in 1..=5 {
        mine_wallet_burn_block(&mut common, &alice, timestamp);
    }

    let mut local = common.clone();
    let local_first_fork_hash = mine_wallet_burn_block(&mut local, &alice, 6);
    mine_wallet_burn_block(&mut local, &alice, 7);
    mine_wallet_burn_block(&mut local, &alice, 8);

    let remote = fork_with_better_vrf_block(&common, &alice, &local_first_fork_hash, 100).unwrap();

    assert_eq!(local.status().height, 8);
    assert_eq!(remote.status().height, 6);
    assert!(remote.status().height + 2 >= local.status().height);
    assert!(
        remote.chain()[6].hash < local.chain()[6].hash,
        "test setup should give the remote fork the better VRF leader score"
    );
    let remote_tip = remote.status().tip_hash;

    assert!(
        !local.extend_from_snapshot(remote.snapshot()).unwrap(),
        "a shorter fork should not beat greater positive chain quality"
    );
    assert_eq!(local.status().height, 8);
    assert_ne!(local.status().tip_hash, remote_tip);
}

#[test]
fn better_vrf_fork_inside_last_six_loses_when_more_than_two_blocks_shorter() {
    let alice = Wallet::from_seed("too-short-vrf-alice");
    let shared_genesis = allocations(std::slice::from_ref(&alice), 10_000);
    let mut common = Ledger::new(shared_genesis, 1);
    for timestamp in 1..=5 {
        mine_wallet_burn_block(&mut common, &alice, timestamp);
    }

    let mut local = common.clone();
    let local_first_fork_hash = mine_wallet_burn_block(&mut local, &alice, 6);
    mine_wallet_burn_block(&mut local, &alice, 7);
    mine_wallet_burn_block(&mut local, &alice, 8);
    mine_wallet_burn_block(&mut local, &alice, 9);

    let remote = fork_with_better_vrf_block(&common, &alice, &local_first_fork_hash, 100).unwrap();

    assert_eq!(local.status().height, 9);
    assert_eq!(remote.status().height, 6);
    assert!(remote.chain()[6].hash < local.chain()[6].hash);
    let local_tip = local.status().tip_hash;

    assert!(
        !local.extend_from_snapshot(remote.snapshot()).unwrap(),
        "even a better VRF fork should not win when more than two blocks shorter"
    );
    assert_eq!(local.status().height, 9);
    assert_eq!(local.status().tip_hash, local_tip);
}

#[test]
fn transactions_from_abandoned_fork_blocks_return_to_mempool_after_switch() {
    let alice = Wallet::from_seed("reorg-alice");
    let bob = Wallet::from_seed("reorg-bob");
    let carol = Wallet::from_seed("reorg-carol");
    let wallets = vec![alice.clone(), bob.clone(), carol.clone()];
    let shared_genesis = allocations(&wallets, 10_000);
    let mut common = Ledger::new_with_genesis_burns(
        shared_genesis,
        vec![GenesisBurn::new(alice.address(), 1)],
        1,
    )
    .unwrap();
    mine_wallet_burn_block(&mut common, &alice, 1);

    let mut local = common.clone();
    let abandoned_transfer = transfer_tx(&local, &bob, carol.address(), 7);
    local
        .submit_transaction(abandoned_transfer.clone())
        .unwrap();
    mine_wallet_burn_block(&mut local, &alice, 2);

    let mut remote = common;
    for timestamp in 20..=23 {
        mine_wallet_burn_block(&mut remote, &alice, timestamp);
    }

    assert!(local.extend_from_snapshot(remote.snapshot()).unwrap());
    assert!(
        local
            .pending()
            .iter()
            .any(|tx| tx.signature() == abandoned_transfer.signature()),
        "transactions mined only on the abandoned fork should return to the mempool"
    );
}

#[test]
fn longer_valid_fork_snapshot_reorgs_and_preserves_local_transactions() {
    let alice = Wallet::from_seed("alice");
    let bob = Wallet::from_seed("bob");
    let wallets = vec![alice.clone(), bob.clone()];
    let shared_genesis = allocations(&wallets, 1_000);
    let mut local = Ledger::new_with_genesis_burns(
        shared_genesis.clone(),
        vec![GenesisBurn::new(alice.address(), 1)],
        1,
    )
    .unwrap();
    let mut remote = Ledger::new_with_genesis_burns(
        shared_genesis,
        vec![GenesisBurn::new(alice.address(), 1)],
        1,
    )
    .unwrap();

    let local_burn = burn_tx(&local, &alice, 1);
    local.submit_transaction(local_burn.clone()).unwrap();
    let local_block = local.mine_next_block(&alice, 1).unwrap();
    local.apply_block(local_block).unwrap();
    let local_transfer = transfer_tx(&local, &bob, alice.address(), 5);
    local.submit_transaction(local_transfer.clone()).unwrap();

    submit_burn(&mut remote, &alice, 1);
    let remote_block_1 = remote.mine_next_block(&alice, 1).unwrap();
    remote.apply_block(remote_block_1).unwrap();
    submit_burn(&mut remote, &alice, 1);
    let remote_block_2 = remote.mine_next_block(&alice, 2).unwrap();
    remote.apply_block(remote_block_2).unwrap();

    let remote_tip = remote.status().tip_hash;
    assert!(local.extend_from_snapshot(remote.snapshot()).unwrap());
    assert_eq!(local.status().height, 2);
    assert_eq!(local.status().tip_hash, remote_tip);
    assert!(
        local
            .pending()
            .iter()
            .any(|tx| tx.signature() == local_transfer.signature())
    );
}

