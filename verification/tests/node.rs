use std::collections::BTreeSet;

use iuna::automatic::AUTO_BLOCK_ANCHOR_BURN_AMOUNT;
use iuna::block::{Block, FinalizerMode};
use iuna::genesis::GenesisBurn;
use iuna::gossip::GossipEnvelope;
use iuna::ledger::{Ledger, RECOVERY_BLOCK_DELAY_MS};
use iuna::network::InMemoryNetwork;
use iuna::node::{NodeConfig, NodeCore, DEFAULT_POW_MINING_WORKERS, MAX_POW_MINING_WORKERS};
use iuna::sorted::SortedMap;
use iuna::status::APP_VERSION;
use iuna::transaction::{OutPoint, Transaction, MICRO_IUNA, MINE_FINALIZER_FEE, MINE_REWARD};
use iuna::vdf::{run_vdf, VDF_TARGET_BLOCK_MS};
use iuna::wallet::Wallet;

fn one_allocation(address: String, amount: u64) -> SortedMap<String, u64> {
    let mut allocations = SortedMap::new();
    allocations.insert(address, amount);
    allocations
}

fn transaction_input_outpoints(transaction: &Transaction) -> BTreeSet<OutPoint> {
    match transaction {
        Transaction::Transfer { inputs, .. } | Transaction::Burn { inputs, .. } => {
            inputs.iter().map(|input| input.outpoint.clone()).collect()
        }
        Transaction::Mine { .. } => BTreeSet::new(),
    }
}

fn wallet_for_address<'a>(wallets: &'a [Wallet], address: &str) -> &'a Wallet {
    wallets
        .iter()
        .find(|wallet| wallet.address() == address)
        .unwrap_or_else(|| panic!("missing wallet for address {address}"))
}

fn queue_auto_pow_mine_action(node: &mut NodeCore) -> Transaction {
    node.set_pow_mining_enabled(true);
    (0..10_000)
        .find_map(|timestamp| node.prepare_automatic_mining(timestamp).pow_mined)
        .expect("test node should find a PoW mine action")
}

fn assert_block_has_mine_action(block: &Block) {
    assert!(
        block
            .transactions
            .iter()
            .any(|transaction| matches!(transaction, Transaction::Mine { .. })),
        "block {} should include a mine action",
        block.height
    );
}

#[test]
fn same_height_verified_import_does_not_reset_auto_burn_guard() {
    let alice = Wallet::from_seed("same-height-import-alice");
    let mut allocations = SortedMap::new();
    allocations.insert(alice.address().to_string(), MICRO_IUNA);
    let mut node = NodeCore::new(NodeConfig {
        wallet: alice,
        genesis_allocations: allocations,
        vdf_rounds: 10,
        burn_per_block: 1,
        burn_fee: 1,
        pow_mining_workers: 1,
        recovery_vdf_top_rank_percent: 100,
    });

    let first = node.prepare_automatic_mining(1);
    assert!(first.burned.is_some());
    assert_eq!(node.last_auto_burn_height, Some(0));

    let same_height_ledger = node.clone_ledger();
    assert!(!node.import_verified_ledger(same_height_ledger).unwrap());
    assert_eq!(node.last_auto_burn_height, Some(0));

    let second = node.prepare_automatic_mining(2);
    assert!(second.burned.is_none());
}

#[test]
fn automatic_pow_mining_searches_bounded_nonce_batches_per_tip() {
    let wallet = Wallet::from_seed("automatic-pow-mining-wallet");
    let ledger = Ledger::new_with_genesis_burns(
        one_allocation(wallet.address().to_string(), 1),
        vec![GenesisBurn::new(wallet.address(), 1)],
        10,
    )
    .unwrap();
    let mut node = NodeCore::from_ledger(wallet.clone(), ledger, 0);

    let disabled = node.prepare_automatic_mining(1);
    assert!(disabled.pow_mined.is_none());
    assert_eq!(
        disabled.skipped_reason.as_deref(),
        Some("automatic mining is off")
    );

    node.set_pow_mining_enabled(true);
    let first = node.prepare_automatic_mining(2);
    assert!(node.ledger().pending_blinded_transactions().len() <= 1);
    let first = std::iter::once(first)
        .chain((3..10_000).map(|timestamp| node.prepare_automatic_mining(timestamp)))
        .find(|plan| plan.pow_mined.is_some())
        .expect("bounded PoW search should eventually find a proof");
    let first_mine = first.pow_mined.as_ref().expect("PoW should be queued");
    let Transaction::Mine {
        anchor,
        recipient,
        difficulty_bits,
        ..
    } = first_mine
    else {
        panic!("expected mine transaction");
    };
    assert_eq!(anchor, &node.chain().last().unwrap().hash);
    assert_eq!(recipient, wallet.address());
    assert_eq!(
        *difficulty_bits,
        node.ledger().current_mine_difficulty_bits()
    );
    let first_pending = node.ledger().pending().len();
    assert!(first_pending >= 1);
    assert!(node.ledger().pending_blinded_transactions().is_empty());
    assert!(node
        .drain_outbox()
        .iter()
        .any(|envelope| matches!(envelope, GossipEnvelope::MineAction(tx) if tx.signature() == first_mine.signature())));
    assert!(
        node.status()
            .mining
            .last_auto_pow_mine_status
            .as_deref()
            .unwrap_or_default()
            .contains("queued")
    );

    let second = (10_000..20_000)
        .map(|timestamp| node.prepare_automatic_mining(timestamp))
        .find(|plan| plan.pow_mined.is_some())
        .expect("automatic PoW should keep searching the same tip after one proof");
    assert_ne!(
        second.pow_mined.as_ref().unwrap().signature(),
        first_mine.signature()
    );
    assert!(node.ledger().pending().len() > first_pending);
    assert!(node.ledger().pending_blinded_transactions().is_empty());
}

#[test]
fn automatic_pow_mining_can_tick_without_finalization() {
    let wallet = Wallet::from_seed("automatic-pow-independent-wallet");
    let mut allocations = SortedMap::new();
    allocations.insert(wallet.address().to_string(), 1);
    let mut node = NodeCore::new(NodeConfig {
        wallet,
        genesis_allocations: allocations,
        vdf_rounds: 10,
        burn_per_block: 0,
        burn_fee: 0,
        pow_mining_workers: 1,
        recovery_vdf_top_rank_percent: 100,
    });

    node.set_pow_mining_enabled(true);
    node.prepare_automatic_pow_mining().unwrap();
    let first_searched = node
        .auto_pow_mine_cursor
        .as_ref()
        .expect("PoW cursor should be initialized")
        .searched;

    node.prepare_automatic_pow_mining().unwrap();
    let second_searched = node
        .auto_pow_mine_cursor
        .as_ref()
        .expect("PoW cursor should keep tracking the current tip")
        .searched;

    assert!(second_searched > first_searched);
}

#[test]
fn disabling_automatic_pow_mining_clears_local_work() {
    let wallet = Wallet::from_seed("automatic-pow-disable-wallet");
    let mut allocations = SortedMap::new();
    allocations.insert(wallet.address().to_string(), 1);
    let mut node = NodeCore::new(NodeConfig {
        wallet,
        genesis_allocations: allocations,
        vdf_rounds: 10,
        burn_per_block: 0,
        burn_fee: 0,
        pow_mining_workers: 1,
        recovery_vdf_top_rank_percent: 100,
    });

    node.set_pow_mining_enabled(true);
    assert!(node.pow_mining_enabled());
    node.prepare_automatic_pow_mining().unwrap();
    assert!(node.auto_pow_mine_cursor.is_some());
    assert!(node.status().mining.last_auto_pow_mine_status.is_some());

    node.set_pow_mining_enabled(false);

    assert!(!node.pow_mining_enabled());
    assert!(node.auto_pow_mine_cursor.is_none());
    assert!(node.status().mining.last_auto_pow_mine_status.is_none());
}

#[test]
fn automatic_pow_mining_workers_are_clamped_and_reported() {
    let wallet = Wallet::from_seed("automatic-pow-workers-wallet");
    let mut node = NodeCore::new(NodeConfig {
        wallet,
        genesis_allocations: SortedMap::new(),
        vdf_rounds: 10,
        burn_per_block: 0,
        burn_fee: 0,
        pow_mining_workers: 99,
        recovery_vdf_top_rank_percent: 100,
    });

    assert_eq!(node.pow_mining_workers(), MAX_POW_MINING_WORKERS);
    assert_eq!(
        node.status().mining.max_pow_mining_workers,
        MAX_POW_MINING_WORKERS
    );

    node.set_pow_mining_workers(0);

    assert_eq!(node.pow_mining_workers(), DEFAULT_POW_MINING_WORKERS);
    assert_eq!(
        node.status().mining.pow_mining_workers,
        DEFAULT_POW_MINING_WORKERS
    );
}

#[test]
fn automatic_pow_mining_skips_unspendable_owned_blinded_payloads() {
    let alice = Wallet::from_seed("automatic-pow-stale-owned-blind-alice");
    let bob = Wallet::from_seed("automatic-pow-stale-owned-blind-bob");
    let mut allocations = SortedMap::new();
    allocations.insert(alice.address().to_string(), 10 * MICRO_IUNA);
    allocations.insert(bob.address().to_string(), MICRO_IUNA);
    let ledger = Ledger::new_with_genesis_burns(
        allocations,
        vec![GenesisBurn::new(bob.address(), MICRO_IUNA)],
        10,
    )
    .unwrap();
    let mut node = NodeCore::from_ledger(alice.clone(), ledger, 0);

    let blinded = node
        .blinded_burn_with_fee(MICRO_IUNA / 10, 7, node.chain_height() + 4)
        .unwrap();
    let mut finalizer_ledger = node.ledger().clone();
    let leader_burn = finalizer_ledger.build_burn(&bob, 1, 0).unwrap();
    finalizer_ledger.submit_transaction(leader_burn).unwrap();
    let commit_block = finalizer_ledger.mine_next_block(&bob, 1).unwrap();
    assert!(
        commit_block
            .blinded_transactions
            .iter()
            .any(|tx| tx.commitment == blinded.commitment)
    );
    finalizer_ledger.apply_block(commit_block).unwrap();
    assert!(node.import_verified_ledger(finalizer_ledger).unwrap());
    assert!(
        node.ledger()
            .has_unrevealed_blinded_transaction(&blinded.commitment)
    );

    node.set_pow_mining_enabled(true);

    assert!(node.prepare_automatic_pow_mining().is_ok());
}

#[test]
fn automatic_pow_mining_skips_stale_local_anchor_reservation() {
    let wallet = Wallet::from_seed("automatic-pow-stale-anchor-wallet");
    let mut stale_allocations = SortedMap::new();
    stale_allocations.insert(wallet.address().to_string(), MICRO_IUNA);
    let stale_ledger = Ledger::new(stale_allocations, 10);
    let stale_anchor = stale_ledger.build_burn(&wallet, 1, 0).unwrap();
    let live_ledger = Ledger::new(SortedMap::new(), 10);
    let mut node = NodeCore::from_ledger(wallet.clone(), live_ledger, 0);
    node.local_block_anchor_burn = Some((node.chain_height(), stale_anchor));
    node.set_pow_mining_enabled(true);

    assert!(node.prepare_automatic_pow_mining().is_ok());
}

#[test]
fn automatic_finalization_does_not_tick_pow_mining() {
    let wallet = Wallet::from_seed("automatic-pow-separated-finalizer-wallet");
    let mut node = NodeCore::new(NodeConfig {
        wallet,
        genesis_allocations: SortedMap::new(),
        vdf_rounds: 10,
        burn_per_block: 0,
        burn_fee: 0,
        pow_mining_workers: 1,
        recovery_vdf_top_rank_percent: 100,
    });

    node.set_pow_mining_enabled(true);
    let _ = node.prepare_automatic_finalization(1);

    assert!(node.auto_pow_mine_cursor.is_none());
}

#[test]
fn automatic_finalization_prepares_recovery_after_ticket_timeout() {
    let alice = Wallet::from_seed("automatic-recovery-alice");
    let bob = Wallet::from_seed("automatic-recovery-bob");
    let mut allocations = SortedMap::new();
    allocations.insert(alice.address().to_string(), 10 * MICRO_IUNA);
    allocations.insert(bob.address().to_string(), 10 * MICRO_IUNA);
    let ledger = Ledger::new_with_genesis_burns(
        allocations,
        vec![GenesisBurn::new(alice.address(), 1)],
        10,
    )
    .unwrap();
    let mut node = NodeCore::from_ledger(bob, ledger, 1);

    let early = node.prepare_automatic_finalization(RECOVERY_BLOCK_DELAY_MS - 1);
    assert!(early.work.is_none());
    assert!(
        early
            .skipped_reason
            .as_deref()
            .unwrap_or_default()
            .contains("waiting for selected finalizer")
    );

    let recovery = node.prepare_automatic_finalization(RECOVERY_BLOCK_DELAY_MS);
    let work = recovery.work.expect("recovery work should be prepared");
    let block = work.finish(
        node.wallet.unlocked().unwrap(),
        "preverified-vdf".to_string(),
    );

    assert_eq!(block.finalizer_mode, FinalizerMode::Recovery);
    assert!(block.leader_proof.is_none());
}

#[test]
fn automatic_finalization_respects_zero_recovery_vdf_threshold() {
    let alice = Wallet::from_seed("automatic-recovery-zero-alice");
    let bob = Wallet::from_seed("automatic-recovery-zero-bob");
    let mut allocations = SortedMap::new();
    allocations.insert(alice.address().to_string(), 10 * MICRO_IUNA);
    allocations.insert(bob.address().to_string(), 10 * MICRO_IUNA);
    let ledger = Ledger::new_with_genesis_burns(
        allocations,
        vec![GenesisBurn::new(alice.address(), 1)],
        10,
    )
    .unwrap();
    let mut node = NodeCore::from_ledger(bob, ledger, 1);
    node.set_recovery_vdf_top_rank_percent(0);

    let recovery = node.prepare_automatic_finalization(RECOVERY_BLOCK_DELAY_MS);

    assert!(recovery.work.is_none());
}

#[test]
fn automatic_pow_mining_uses_protocol_finalizer_fee() {
    let wallet = Wallet::from_seed("automatic-pow-mining-fee-wallet");
    let mut node = NodeCore::new(NodeConfig {
        wallet,
        genesis_allocations: SortedMap::new(),
        vdf_rounds: 10,
        burn_per_block: 0,
        burn_fee: 0,
        pow_mining_workers: 1,
        recovery_vdf_top_rank_percent: 100,
    });

    node.set_pow_mining_enabled(true);
    let plan = (1..10_000)
        .map(|timestamp| node.prepare_automatic_mining(timestamp))
        .find(|plan| plan.pow_mined.is_some())
        .expect("bounded PoW search should eventually find a proof");
    let mine = plan.pow_mined.expect("PoW should be queued");

    assert_eq!(mine.fee(), MINE_FINALIZER_FEE);
    assert_eq!(mine.amount(), MINE_REWARD);
    assert_eq!(
        node.status().mining.automatic_pow_mine_fee,
        MINE_FINALIZER_FEE
    );
}

#[test]
fn status_reports_package_version() {
    let wallet = Wallet::from_seed("status-version-wallet");
    let node = NodeCore::new(NodeConfig {
        wallet,
        genesis_allocations: SortedMap::new(),
        vdf_rounds: 1,
        burn_per_block: 0,
        burn_fee: 0,
        pow_mining_workers: 1,
        recovery_vdf_top_rank_percent: 100,
    });

    assert_eq!(node.status().app_version, APP_VERSION);
}

#[test]
fn automatic_pow_status_reports_setup_placeholder_wait() {
    let wallet = Wallet::from_seed("automatic-pow-setup-placeholder-wallet");
    let ledger = Ledger::new(SortedMap::new(), 1);
    let mut node = NodeCore::from_ledger(wallet, ledger, 0);

    node.set_pow_mining_enabled(true);

    assert_eq!(
        node.status().mining.last_auto_pow_mine_status.as_deref(),
        Some("waiting for a real chain before PoW mining can start")
    );
}

#[test]
fn fee_rate_transfer_and_burn_pay_at_least_bytes_times_rate() {
    let transfer_sender = Wallet::from_seed("fee-rate-transfer-sender");
    let transfer_recipient = Wallet::from_seed("fee-rate-transfer-recipient");
    let mut transfer_genesis = SortedMap::new();
    transfer_genesis.insert(transfer_sender.address().to_string(), 10 * MICRO_IUNA);
    let transfer_ledger = Ledger::new_with_genesis_burns(
        transfer_genesis,
        vec![GenesisBurn::new(transfer_sender.address(), MICRO_IUNA)],
        1,
    )
    .unwrap();
    let mut transfer_node = NodeCore::from_ledger(transfer_sender, transfer_ledger, 0);

    let (transfer, transfer_estimate) = transfer_node
        .transfer_with_fee_rate(transfer_recipient.address(), MICRO_IUNA, 2, &[])
        .unwrap();
    let transfer_blinded_bytes =
        transfer_node.ledger().pending_blinded_transactions()[0].fee_rate_size_bytes();
    assert_eq!(transfer_estimate.bytes, transfer_blinded_bytes);
    let minimum_transfer_fee = transfer_blinded_bytes as u64 * 2;
    assert!(transfer.fee() >= minimum_transfer_fee);
    assert!(transfer_node.ledger().pending().is_empty());
    assert_eq!(
        transfer_node.ledger().pending_blinded_transactions().len(),
        1
    );

    let burn_wallet = Wallet::from_seed("fee-rate-burn-wallet");
    let mut burn_genesis = SortedMap::new();
    burn_genesis.insert(burn_wallet.address().to_string(), 10 * MICRO_IUNA);
    let burn_ledger = Ledger::new_with_genesis_burns(
        burn_genesis,
        vec![GenesisBurn::new(burn_wallet.address(), MICRO_IUNA)],
        1,
    )
    .unwrap();
    let mut burn_node = NodeCore::from_ledger(burn_wallet, burn_ledger, 0);
    let (burn, burn_estimate) = burn_node.burn_with_fee_rate(MICRO_IUNA, 3).unwrap();
    let burn_blinded_bytes =
        burn_node.ledger().pending_blinded_transactions()[0].fee_rate_size_bytes();
    assert_eq!(burn_estimate.bytes, burn_blinded_bytes);
    let minimum_burn_fee = burn_blinded_bytes as u64 * 3;
    assert!(burn.fee() >= minimum_burn_fee);
    assert!(burn_node.ledger().pending().is_empty());
    assert_eq!(burn_node.ledger().pending_blinded_transactions().len(), 1);
}

#[test]
fn mempool_gossip_includes_blinded_transactions() {
    let alice = Wallet::from_seed("blinded-gossip-alice");
    let mut genesis = SortedMap::new();
    genesis.insert(alice.address().to_string(), 10 * MICRO_IUNA);
    let ledger = Ledger::new(genesis, 1);
    let blinded = ledger.build_blinded_burn(&alice, MICRO_IUNA, 7, 3).unwrap();
    let mut sender = NodeCore::from_ledger(alice.clone(), ledger.clone(), 0);
    let mut receiver = NodeCore::from_ledger(alice, ledger, 0);

    sender
        .receive_blinded_transaction(blinded.transaction.clone())
        .unwrap();
    for envelope in sender.mempool_gossip() {
        receiver.receive(envelope).unwrap();
    }

    assert_eq!(
        receiver.ledger().pending_blinded_transactions(),
        std::slice::from_ref(&blinded.transaction)
    );
}

#[test]
fn mempool_gossip_includes_public_mine_actions() {
    let alice = Wallet::from_seed("mine-gossip-alice");
    let ledger = Ledger::new(SortedMap::new(), 1);
    let mine = ledger.build_mine(alice.address()).unwrap();
    let mut sender = NodeCore::from_ledger(alice.clone(), ledger.clone(), 0);
    let mut receiver = NodeCore::from_ledger(alice, ledger, 0);

    sender.submit_public_mine_action(mine.clone()).unwrap();
    for envelope in sender.mempool_gossip() {
        receiver.receive(envelope).unwrap();
    }

    assert_eq!(receiver.ledger().pending(), std::slice::from_ref(&mine));
    assert!(receiver.ledger().pending_blinded_transactions().is_empty());
}

#[test]
fn receiving_blinded_reveal_batch_publishes_complete_committee_bundle() {
    let alice = Wallet::from_seed("immediate-bundle-alice");
    let bob = Wallet::from_seed("immediate-bundle-bob");
    let carol = Wallet::from_seed("immediate-bundle-carol");
    let dave = Wallet::from_seed("immediate-bundle-dave");
    let finalizers = [alice.clone(), bob.clone()];
    let mut allocations = SortedMap::new();
    allocations.insert(alice.address().to_string(), 10 * MICRO_IUNA);
    allocations.insert(bob.address().to_string(), 10 * MICRO_IUNA);
    allocations.insert(carol.address().to_string(), 10 * MICRO_IUNA);
    allocations.insert(dave.address().to_string(), 10 * MICRO_IUNA);
    let mut ledger = Ledger::new_with_genesis_burns(
        allocations,
        finalizers
            .iter()
            .map(|wallet| GenesisBurn::new(wallet.address(), MICRO_IUNA))
            .collect(),
        1,
    )
    .unwrap();
    let first = ledger
        .build_blinded_burn(&carol, 3, 100, ledger.height() + 4)
        .unwrap();
    let second = ledger
        .build_blinded_burn(&dave, 4, 100, ledger.height() + 4)
        .unwrap();
    ledger
        .submit_blinded_transaction(first.transaction.clone())
        .unwrap();
    ledger
        .submit_blinded_transaction(second.transaction.clone())
        .unwrap();
    let leader = ledger.expected_leader_for_next_block().unwrap();
    let leader_wallet = wallet_for_address(&finalizers, &leader);
    let burn = ledger.build_burn(leader_wallet, 1, 0).unwrap();
    ledger.submit_transaction(burn).unwrap();
    let commit_block = ledger.mine_next_block(leader_wallet, 1).unwrap();
    ledger.apply_locally_mined_block(commit_block).unwrap();

    let committee = ledger.reveal_committee_for_next_block();
    let committee_wallet = committee
        .iter()
        .filter_map(|member| {
            finalizers
                .iter()
                .find(|wallet| wallet.address() == member.owner)
        })
        .next()
        .expect("test finalizer should be in reveal committee");
    let mut committee_node = NodeCore::from_ledger(committee_wallet.clone(), ledger, 0);

    committee_node
        .receive(GossipEnvelope::BlindedReveals {
            reveals: vec![first.reveal.clone(), second.reveal.clone()],
        })
        .unwrap();
    let outbox = committee_node.drain_outbox();

    assert!(outbox.iter().any(|envelope| matches!(
        envelope,
        GossipEnvelope::BlindedReveal(reveal) if reveal.commitment == first.reveal.commitment
    )));
    assert!(outbox.iter().any(|envelope| matches!(
        envelope,
        GossipEnvelope::BlindedReveal(reveal) if reveal.commitment == second.reveal.commitment
    )));
    assert!(outbox.iter().any(|envelope| matches!(
        envelope,
        GossipEnvelope::RevealBundle(bundle)
            if bundle.member == committee_wallet.address()
                && bundle.reveals.len() == 2
                && bundle.reveals.iter().any(|reveal| reveal.commitment == first.reveal.commitment)
                && bundle.reveals.iter().any(|reveal| reveal.commitment == second.reveal.commitment)
    )));
}

#[test]
fn automatic_finalization_includes_reveals_with_two_nodes_and_one_burner() {
    let finalizer = Wallet::from_seed("single-burner-reveal-finalizer");
    let wallet = Wallet::from_seed("single-burner-reveal-wallet");
    let mut allocations = SortedMap::new();
    allocations.insert(finalizer.address().to_string(), 10 * MICRO_IUNA);
    allocations.insert(wallet.address().to_string(), 10 * MICRO_IUNA);
    let ledger = Ledger::new_with_genesis_burns(
        allocations,
        vec![GenesisBurn::new(finalizer.address(), MICRO_IUNA)],
        1,
    )
    .unwrap();
    let mut network = InMemoryNetwork::default();
    network.insert(
        "finalizer",
        NodeCore::from_ledger_with_burn_fee_and_enabled(
            finalizer.clone(),
            ledger.clone(),
            true,
            MICRO_IUNA / 10,
            1,
        ),
    );
    network.insert("wallet", NodeCore::from_ledger(wallet.clone(), ledger, 0));

    let blinded = network
        .node_mut("wallet")
        .unwrap()
        .blinded_burn_with_fee(MICRO_IUNA / 10, 1, 4)
        .unwrap();
    network.deliver_until_idle().unwrap();

    let commit_plan = network
        .node_mut("finalizer")
        .unwrap()
        .prepare_automatic_finalization(1);
    let commit_work = commit_plan
        .work
        .expect("finalizer should prepare commit block");
    let commit_vdf = run_vdf(commit_work.vdf_seed(), commit_work.vdf_rounds());
    let commit_block = network
        .node_mut("finalizer")
        .unwrap()
        .complete_prepared_block_at(commit_work, commit_vdf, 1)
        .unwrap();
    let wallet_commitment = blinded.commitment.clone();
    assert!(
        commit_block
            .blinded_transactions
            .iter()
            .any(|transaction| transaction.commitment == wallet_commitment),
        "first block should commit the wallet's blinded burn"
    );
    network.deliver_until_idle().unwrap();
    assert!(
        network
            .node("finalizer")
            .unwrap()
            .ledger()
            .pending_blinded_reveals()
            .iter()
            .any(|reveal| reveal.commitment == wallet_commitment),
        "finalizer should have received the reveal before building the next block"
    );
    assert!(
        network
            .node("wallet")
            .unwrap()
            .ledger()
            .pending_blinded_reveals()
            .iter()
            .any(|reveal| reveal.commitment == wallet_commitment),
        "wallet node should also keep the reveal in its mempool"
    );

    let reveal_plan = network
        .node_mut("finalizer")
        .unwrap()
        .prepare_automatic_finalization(2);
    let reveal_work = reveal_plan
        .work
        .expect("finalizer should prepare reveal block");
    let reveal_vdf = run_vdf(reveal_work.vdf_seed(), reveal_work.vdf_rounds());
    let reveal_block = network
        .node_mut("finalizer")
        .unwrap()
        .complete_prepared_block_at(reveal_work, reveal_vdf, 2)
        .unwrap();

    assert!(
        reveal_block
            .all_blinded_reveals()
            .iter()
            .any(|reveal| reveal.commitment == wallet_commitment),
        "automatic finalization should include the pending reveal without requiring an extra mempool poll"
    );
}

#[test]
fn genesis_transfer_arriving_during_vdf_with_peer_mines_does_not_stall_following_blocks() {
    let miner = Wallet::from_seed("during-vdf-miner");
    let (_finalizer, finalizer_node, block2_work) = (0..1_000)
        .find_map(|seed_index| {
            let finalizer = Wallet::from_seed(&format!("during-vdf-finalizer-{seed_index}"));
            let mut allocations = SortedMap::new();
            allocations.insert(finalizer.address().to_string(), 10 * MICRO_IUNA);
            let mut ledger = Ledger::new_with_genesis_burns(
                allocations,
                vec![GenesisBurn::new(finalizer.address(), MICRO_IUNA)],
                1,
            )
            .unwrap();
            let split = ledger
                .build_transfer(&finalizer, finalizer.address(), MICRO_IUNA / 10, 0)
                .ok()?;
            let split_change = OutPoint {
                txid: split.signature().to_string(),
                index: 1,
            };
            ledger.submit_transaction(split).ok()?;
            let burn = ledger
                .build_burn_with_inputs(&finalizer, 1, 0, &[split_change])
                .ok()?;
            ledger.submit_transaction(burn).ok()?;
            let block1 = ledger.mine_next_block(&finalizer, 1).ok()?;
            assert!(block1.blinded_transactions.is_empty());
            assert!(
                !block1
                    .transactions
                    .iter()
                    .any(|transaction| matches!(transaction, Transaction::Mine { .. })),
                "node B joins after block 1, so block 1 should not include B's mine action"
            );
            ledger.apply_block(block1).ok()?;
            let mut node = NodeCore::from_ledger_with_burn_fee_and_enabled(
                finalizer.clone(),
                ledger,
                true,
                0,
                100,
            );
            let block2_plan = node.prepare_automatic_finalization(2);
            let block2_work = block2_plan.work?;
            let (_, anchor_burn) = node.local_block_anchor_burn.clone()?;
            let anchor_inputs = transaction_input_outpoints(&anchor_burn);
            let anchor_total = node
                .ledger()
                .utxos_for_address(finalizer.address())
                .iter()
                .filter(|(outpoint, _)| anchor_inputs.contains(outpoint))
                .map(|(_, output)| output.amount)
                .sum::<u64>();
            if anchor_total >= 200_000 {
                return None;
            }
            Some((finalizer, node, block2_work))
        })
        .expect("test should find a seed where block 2 anchor uses the small reward UTXO");
    let mut network = InMemoryNetwork::default();
    network.insert("finalizer", finalizer_node);

    let miner_ledger =
        Ledger::from_snapshot(network.node("finalizer").unwrap().chain_snapshot()).unwrap();
    network.insert(
        "miner",
        NodeCore::from_ledger(miner.clone(), miner_ledger, 0),
    );

    queue_auto_pow_mine_action(network.node_mut("miner").unwrap());
    network.deliver_until_idle().unwrap();
    network
        .node_mut("finalizer")
        .unwrap()
        .transfer_with_fee_rate(miner.address(), MICRO_IUNA / 10, 100, &[])
        .unwrap();
    let blinded = network
        .node("finalizer")
        .unwrap()
        .ledger()
        .pending_blinded_transactions()
        .last()
        .cloned()
        .expect("A should queue the A -> B blinded transfer while block 2 VDF is running");
    network.deliver_until_idle().unwrap();
    assert!(
        network
            .node("finalizer")
            .unwrap()
            .ledger()
            .pending_blinded_transactions()
            .iter()
            .any(|tx| tx.commitment == blinded.commitment),
        "the finalizer should receive the blinded tx while block 2 VDF is running"
    );

    let block2_vdf = run_vdf(block2_work.vdf_seed(), block2_work.vdf_rounds());
    let block2 = network
        .node_mut("finalizer")
        .unwrap()
        .complete_prepared_block_at(block2_work, block2_vdf, 2)
        .unwrap();
    assert!(
        block2.blinded_transactions.is_empty(),
        "block 2 work was prepared before the blinded tx arrived"
    );
    assert!(
        !block2
            .transactions
            .iter()
            .any(|transaction| matches!(transaction, Transaction::Mine { .. })),
        "block 2 work was prepared before B's mine action arrived"
    );
    network.deliver_until_idle().unwrap();

    let block3_outcome = network
        .node_mut("finalizer")
        .unwrap()
        .automatic_mine_once(3);
    assert!(
        block3_outcome.block.is_some(),
        "finalizer should keep producing after the during-VDF blinded tx: {:?}",
        block3_outcome.skipped_reason
    );
    let block3 = block3_outcome.block.unwrap();
    assert!(
        block3
            .transactions
            .first()
            .is_some_and(Transaction::is_burn),
        "the mandatory anchor burn must be selected before during-VDF mempool items"
    );
    let committed_blinded = block3
        .blinded_transactions
        .iter()
        .any(|tx| tx.commitment == blinded.commitment);
    assert_block_has_mine_action(&block3);
    network.deliver_until_idle().unwrap();

    queue_auto_pow_mine_action(network.node_mut("miner").unwrap());
    network.deliver_until_idle().unwrap();
    let block4 = network
        .node_mut("finalizer")
        .unwrap()
        .automatic_mine_once(4)
        .block
        .expect("finalizer should keep producing the next block");
    if committed_blinded {
        assert!(
            block4
                .all_blinded_reveals()
                .iter()
                .any(|reveal| reveal.commitment == blinded.commitment),
            "the committed during-VDF blinded tx should reveal in a later block"
        );
    } else {
        assert!(
            network
                .node("finalizer")
                .unwrap()
                .ledger()
                .pending_blinded_transactions()
                .is_empty(),
            "a conflicting during-VDF blinded tx should be pruned after the anchor burn spends its input"
        );
        assert!(
            network
                .node("finalizer")
                .unwrap()
                .owned_blinded_transactions()
                .is_empty(),
            "owned blinded state should not keep rebroadcasting a pruned tx"
        );
        assert!(
            block4.all_blinded_reveals().is_empty(),
            "a pruned blinded tx was never committed, so there should be no reveal"
        );
    }
    assert_block_has_mine_action(&block4);
}

#[test]
fn own_blinded_transaction_arriving_during_vdf_does_not_starve_next_anchor_burn() {
    let recipient = Wallet::from_seed("during-vdf-own-recipient");
    let (mut node, block2_work, transfer_outpoint, transfer_amount) = (0..1_000)
        .find_map(|seed_index| {
            let finalizer =
                Wallet::from_seed(&format!("during-vdf-own-finalizer-{seed_index}"));
            let mut allocations = SortedMap::new();
            allocations.insert(finalizer.address().to_string(), 10 * MICRO_IUNA);
            let ledger = Ledger::new_with_genesis_burns(
                allocations,
                vec![GenesisBurn::new(finalizer.address(), MICRO_IUNA)],
                1,
            )
            .unwrap();
            let mut node = NodeCore::from_ledger_with_burn_fee_and_enabled(
                finalizer.clone(),
                ledger,
                true,
                0,
                1_000,
            );
            node.set_pow_mining_enabled(true);
            let block1 = node.automatic_mine_once(1).block?;
            assert!(block1.blinded_transactions.is_empty());

            let block2_plan = node.prepare_automatic_finalization(2);
            let block2_work = block2_plan.work?;
            let (_, anchor_burn) = node.local_block_anchor_burn.clone()?;
            let anchor_inputs = transaction_input_outpoints(&anchor_burn);
            let utxos = node.ledger().utxos_for_address(finalizer.address());
            let anchor_total = utxos
                .iter()
                .filter(|(outpoint, _)| anchor_inputs.contains(outpoint))
                .map(|(_, output)| output.amount)
                .sum::<u64>();
            let (transfer_outpoint, transfer_output) =
                utxos.into_iter().find(|(outpoint, output)| {
                    !anchor_inputs.contains(outpoint) && output.amount > MICRO_IUNA
                })?;
            if anchor_total >= 2_000_000 {
                return None;
            }
            Some((
                node,
                block2_work,
                transfer_outpoint,
                transfer_output.amount.min(MICRO_IUNA) / 10,
            ))
        })
        .expect("test should find a seed with live-like small-anchor/large-change UTXOs");

    node.transfer_with_fee_spending(
        recipient.address(),
        transfer_amount,
        1,
        &[transfer_outpoint],
    )
    .expect("wallet tx created while block 2 VDF is running");
    let blinded = node
        .ledger()
        .pending_blinded_transactions()
        .last()
        .cloned()
        .expect("wallet tx should be queued as a blinded transaction");

    let block2_vdf = run_vdf(block2_work.vdf_seed(), block2_work.vdf_rounds());
    let block2 = node
        .complete_prepared_block_at(block2_work, block2_vdf, 2)
        .unwrap();
    assert!(
        block2.blinded_transactions.is_empty(),
        "block 2 work was prepared before the blinded tx arrived"
    );
    assert!(
        node.ledger()
            .pending_blinded_transactions()
            .iter()
            .any(|tx| tx.commitment == blinded.commitment),
        "the during-VDF blinded tx should remain pending for block 3"
    );

    let block3_outcome = node.automatic_mine_once(3);
    assert!(
        block3_outcome.block.is_some(),
        "pending own blinded tx must not starve the next anchor burn: {:?}",
        block3_outcome.skipped_reason
    );
    let block3 = block3_outcome.block.unwrap();
    assert!(
        block3.blinded_transactions.is_empty()
            || block3
                .blinded_transactions
                .iter()
                .any(|tx| tx.commitment == blinded.commitment),
        "block 3 may include the during-VDF tx, but must not stall when the anchor burn has priority"
    );
}

#[test]
fn owned_blinded_transaction_reveals_after_commit_block_import() {
    let alice = Wallet::from_seed("owned-blinded-reveal-alice");
    let bob = Wallet::from_seed("owned-blinded-reveal-bob");
    let carol = Wallet::from_seed("owned-blinded-reveal-carol");
    let finalizers = [alice.clone(), bob.clone()];
    let mut allocations = SortedMap::new();
    allocations.insert(alice.address().to_string(), 10 * MICRO_IUNA);
    allocations.insert(bob.address().to_string(), 10 * MICRO_IUNA);
    allocations.insert(carol.address().to_string(), 10 * MICRO_IUNA);
    let ledger = Ledger::new_with_genesis_burns(
        allocations,
        finalizers
            .iter()
            .map(|wallet| GenesisBurn::new(wallet.address(), MICRO_IUNA))
            .collect(),
        1,
    )
    .unwrap();
    let mut wallet_node = NodeCore::from_ledger(carol.clone(), ledger.clone(), 0);
    let mut finalizer_ledger = ledger;

    let blinded = wallet_node
        .blinded_burn_with_fee(3, 7, wallet_node.chain_height() + 4)
        .unwrap();
    wallet_node.drain_outbox();
    finalizer_ledger
        .submit_blinded_transaction(blinded.clone())
        .unwrap();
    let leader = finalizer_ledger.expected_leader_for_next_block().unwrap();
    let finalizer = finalizers
        .iter()
        .find(|wallet| wallet.address() == leader)
        .unwrap();
    let burn = finalizer_ledger.build_burn(finalizer, 1, 0).unwrap();
    finalizer_ledger.submit_transaction(burn).unwrap();
    let commit_block = finalizer_ledger.mine_next_block(finalizer, 1).unwrap();

    wallet_node
        .receive(GossipEnvelope::Block(commit_block))
        .unwrap();
    let outbox = wallet_node.drain_outbox();

    assert!(
        wallet_node
            .ledger()
            .pending_blinded_reveals()
            .iter()
            .any(|reveal| reveal.commitment == blinded.commitment)
    );
    assert!(outbox.iter().any(|envelope| matches!(
        envelope,
        GossipEnvelope::BlindedReveal(reveal) if reveal.commitment == blinded.commitment
    )));
}

#[test]
fn status_wallet_balance_includes_owned_blinded_change_before_and_after_commit() {
    let alice = Wallet::from_seed("owned-blinded-balance-alice");
    let bob = Wallet::from_seed("owned-blinded-balance-bob");
    let carol = Wallet::from_seed("owned-blinded-balance-carol");
    let finalizers = [alice.clone(), bob.clone()];
    let starting_balance = 2 * MICRO_IUNA;
    let burn_amount = MICRO_IUNA / 10;
    let fee = MICRO_IUNA / 10;
    let expected_balance = starting_balance - burn_amount - fee;
    let mut allocations = SortedMap::new();
    allocations.insert(alice.address().to_string(), 10 * MICRO_IUNA);
    allocations.insert(bob.address().to_string(), 10 * MICRO_IUNA);
    allocations.insert(carol.address().to_string(), starting_balance);
    let ledger = Ledger::new_with_genesis_burns(
        allocations,
        finalizers
            .iter()
            .map(|wallet| GenesisBurn::new(wallet.address(), MICRO_IUNA))
            .collect(),
        1,
    )
    .unwrap();
    let mut wallet_node = NodeCore::from_ledger(carol.clone(), ledger.clone(), 0);
    let mut finalizer_ledger = ledger;

    let blinded = wallet_node
        .blinded_burn_with_fee(burn_amount, fee, wallet_node.chain_height() + 4)
        .unwrap();

    assert_eq!(wallet_node.status().wallet_balance, expected_balance);

    finalizer_ledger
        .submit_blinded_transaction(blinded.clone())
        .unwrap();
    let leader = finalizer_ledger.expected_leader_for_next_block().unwrap();
    let finalizer = finalizers
        .iter()
        .find(|wallet| wallet.address() == leader)
        .unwrap();
    let burn = finalizer_ledger.build_burn(finalizer, 1, 0).unwrap();
    finalizer_ledger.submit_transaction(burn).unwrap();
    let commit_block = finalizer_ledger.mine_next_block(finalizer, 1).unwrap();

    wallet_node
        .receive(GossipEnvelope::Block(commit_block))
        .unwrap();

    assert_eq!(wallet_node.ledger().balance_of(carol.address()), 0);
    assert_eq!(wallet_node.status().wallet_balance, expected_balance);
}

#[test]
fn owned_blinded_transaction_restore_requeues_pending_commit() {
    let alice = Wallet::from_seed("owned-blinded-restore-pending-alice");
    let bob = Wallet::from_seed("owned-blinded-restore-pending-bob");
    let mut allocations = SortedMap::new();
    allocations.insert(alice.address().to_string(), 10 * MICRO_IUNA);
    let ledger = Ledger::new(allocations, 1);
    let mut node = NodeCore::from_ledger(alice.clone(), ledger.clone(), 0);

    let blinded = node
        .blinded_transfer_with_fee(bob.address(), MICRO_IUNA, 7, node.chain_height() + 4)
        .unwrap();
    let owned = node.owned_blinded_transactions();
    let mut restarted = NodeCore::from_ledger(alice, ledger, 0);

    restarted.restore_owned_blinded_transactions(owned).unwrap();

    assert_eq!(
        restarted.ledger().pending_blinded_transactions(),
        std::slice::from_ref(&blinded)
    );
    let outbox = restarted.drain_outbox();
    assert!(outbox.iter().any(|envelope| matches!(
        envelope,
        GossipEnvelope::BlindedTransaction(transaction)
            if transaction.commitment == blinded.commitment
    )));
    assert!(!outbox.iter().any(|envelope| matches!(
        envelope,
        GossipEnvelope::BlindedReveal(reveal) if reveal.commitment == blinded.commitment
    )));
}

#[test]
fn owned_blinded_transaction_restore_publishes_reveal_after_commit() {
    let alice = Wallet::from_seed("owned-blinded-restore-reveal-alice");
    let bob = Wallet::from_seed("owned-blinded-restore-reveal-bob");
    let carol = Wallet::from_seed("owned-blinded-restore-reveal-carol");
    let finalizers = [alice.clone(), bob.clone()];
    let mut allocations = SortedMap::new();
    allocations.insert(alice.address().to_string(), 10 * MICRO_IUNA);
    allocations.insert(bob.address().to_string(), 10 * MICRO_IUNA);
    allocations.insert(carol.address().to_string(), 10 * MICRO_IUNA);
    let ledger = Ledger::new_with_genesis_burns(
        allocations,
        finalizers
            .iter()
            .map(|wallet| GenesisBurn::new(wallet.address(), MICRO_IUNA))
            .collect(),
        1,
    )
    .unwrap();
    let mut wallet_node = NodeCore::from_ledger(carol.clone(), ledger.clone(), 0);
    let mut finalizer_ledger = ledger;

    let blinded = wallet_node
        .blinded_burn_with_fee(3, 7, wallet_node.chain_height() + 4)
        .unwrap();
    let owned = wallet_node.owned_blinded_transactions();
    finalizer_ledger
        .submit_blinded_transaction(blinded.clone())
        .unwrap();
    let leader = finalizer_ledger.expected_leader_for_next_block().unwrap();
    let finalizer = finalizers
        .iter()
        .find(|wallet| wallet.address() == leader)
        .unwrap();
    let burn = finalizer_ledger.build_burn(finalizer, 1, 0).unwrap();
    finalizer_ledger.submit_transaction(burn).unwrap();
    let commit_block = finalizer_ledger.mine_next_block(finalizer, 1).unwrap();
    finalizer_ledger.apply_block(commit_block.clone()).unwrap();
    let mut restarted_ledger = NodeCore::from_ledger(
        carol,
        Ledger::from_snapshot(finalizer_ledger.snapshot()).unwrap(),
        0,
    );

    restarted_ledger
        .restore_owned_blinded_transactions(owned)
        .unwrap();

    assert!(
        restarted_ledger
            .ledger()
            .pending_blinded_reveals()
            .iter()
            .any(|reveal| reveal.commitment == blinded.commitment)
    );
    assert!(
        restarted_ledger
            .drain_outbox()
            .iter()
            .any(|envelope| matches!(
                envelope,
                GossipEnvelope::BlindedReveal(reveal) if reveal.commitment == blinded.commitment
            ))
    );
    assert!(
        commit_block
            .blinded_transactions
            .iter()
            .any(|transaction| transaction.commitment == blinded.commitment)
    );
}

#[test]
fn automatic_non_leader_burn_is_queued_as_blinded() {
    let alice = Wallet::from_seed("auto-blinded-burn-alice");
    let bob = Wallet::from_seed("auto-blinded-burn-bob");
    let carol = Wallet::from_seed("auto-blinded-burn-carol");
    let finalizers = [alice.clone(), bob.clone()];
    let mut allocations = SortedMap::new();
    allocations.insert(alice.address().to_string(), 10 * MICRO_IUNA);
    allocations.insert(bob.address().to_string(), 10 * MICRO_IUNA);
    allocations.insert(carol.address().to_string(), 10 * MICRO_IUNA);
    let ledger = Ledger::new_with_genesis_burns(
        allocations,
        finalizers
            .iter()
            .map(|wallet| GenesisBurn::new(wallet.address(), MICRO_IUNA))
            .collect(),
        1,
    )
    .unwrap();
    assert_eq!(ledger.finalizer_rank_for_next_block(carol.address()), None);
    let mut node = NodeCore::from_ledger_with_burn_fee_and_enabled(
        carol,
        ledger,
        true,
        MICRO_IUNA / 10,
        1,
    );

    let plan = node.prepare_automatic_finalization(1);
    let outbox = node.drain_outbox();

    assert!(plan.burned.is_some());
    assert!(node.ledger().pending().is_empty());
    assert_eq!(node.ledger().pending_blinded_transactions().len(), 1);
    assert!(
        outbox
            .iter()
            .any(|envelope| matches!(envelope, GossipEnvelope::BlindedTransaction(_)))
    );
}

#[test]
fn automatic_leader_prepares_anchor_and_blinded_burn() {
    let alice = Wallet::from_seed("auto-plaintext-burn-alice");
    let bob = Wallet::from_seed("auto-plaintext-burn-bob");
    let finalizers = [alice.clone(), bob.clone()];
    let mut allocations = SortedMap::new();
    allocations.insert(alice.address().to_string(), 10 * MICRO_IUNA);
    allocations.insert(bob.address().to_string(), 10 * MICRO_IUNA);
    let mut ledger = Ledger::new_with_genesis_burns(
        allocations,
        finalizers
            .iter()
            .map(|wallet| GenesisBurn::new(wallet.address(), MICRO_IUNA))
            .collect(),
        1,
    )
    .unwrap();
    let leader = ledger.expected_leader_for_next_block().unwrap();
    let leader_wallet = finalizers
        .iter()
        .find(|wallet| wallet.address() == leader)
        .unwrap()
        .clone();
    for wallet in &finalizers {
        let split = ledger
            .build_transfer(wallet, wallet.address(), MICRO_IUNA, 0)
            .unwrap();
        ledger.submit_transaction(split).unwrap();
    }
    let anchor = ledger.build_burn(&leader_wallet, 1, 0).unwrap();
    ledger.submit_transaction(anchor).unwrap();
    let split_block = ledger.mine_next_block(&leader_wallet, 1).unwrap();
    ledger.apply_block(split_block).unwrap();
    let leader = ledger.expected_leader_for_next_block().unwrap();
    let leader_wallet = finalizers
        .iter()
        .find(|wallet| wallet.address() == leader)
        .unwrap()
        .clone();
    let mut node = NodeCore::from_ledger_with_burn_fee_and_enabled(
        leader_wallet,
        ledger,
        true,
        MICRO_IUNA / 10,
        1,
    );

    let plan = node.prepare_automatic_finalization(1);
    let outbox = node.drain_outbox();

    assert!(plan.burned.is_some());
    assert!(node.ledger().pending().is_empty());
    assert_eq!(node.ledger().pending_blinded_transactions().len(), 1);
    let (_, anchor_burn) = node
        .local_block_anchor_burn
        .as_ref()
        .expect("leader anchor burn should be held locally");
    assert_eq!(anchor_burn.amount(), AUTO_BLOCK_ANCHOR_BURN_AMOUNT);
    assert!(
        outbox
            .iter()
            .any(|envelope| matches!(envelope, GossipEnvelope::BlindedTransaction(_)))
    );
    assert!(node.prepare_automatic_finalization(1).work.is_some());
}

#[test]
fn wallet_building_reserves_local_anchor_burn_inputs() {
    let alice = Wallet::from_seed("local-anchor-reserve-alice");
    let finalizers = [alice.clone()];
    let mut allocations = SortedMap::new();
    allocations.insert(alice.address().to_string(), 10 * MICRO_IUNA);
    let mut ledger = Ledger::new_with_genesis_burns(
        allocations,
        finalizers
            .iter()
            .map(|wallet| GenesisBurn::new(wallet.address(), MICRO_IUNA))
            .collect(),
        1,
    )
    .unwrap();
    let leader = ledger.expected_leader_for_next_block().unwrap();
    let leader_wallet = finalizers
        .iter()
        .find(|wallet| wallet.address() == leader)
        .unwrap()
        .clone();
    let split = ledger
        .build_transfer(&leader_wallet, leader_wallet.address(), MICRO_IUNA, 0)
        .unwrap();
    ledger.submit_transaction(split).unwrap();
    let anchor = ledger.build_burn(&leader_wallet, 1, 0).unwrap();
    ledger.submit_transaction(anchor).unwrap();
    let split_block = ledger.mine_next_block(&leader_wallet, 1).unwrap();
    ledger.apply_block(split_block).unwrap();
    let mut node =
        NodeCore::from_ledger_with_burn_fee_and_enabled(leader_wallet, ledger, true, 0, 1);

    let plan = node.prepare_automatic_finalization(1);
    assert!(plan.burned.is_some());
    assert!(node.status().wallet_balance < node.ledger().balance_of(node.wallet_address()));
    let (_, anchor_burn) = node
        .local_block_anchor_burn
        .clone()
        .expect("leader burn should be held as a local block anchor");
    let Transaction::Burn { inputs, .. } = anchor_burn else {
        panic!("local block anchor must be a burn");
    };
    let anchor_inputs = inputs
        .iter()
        .map(|input| input.outpoint.clone())
        .collect::<Vec<_>>();

    let blinded = node
        .blinded_burn_with_fee(MICRO_IUNA / 20, 1, node.chain_height() + 4)
        .unwrap();

    assert!(
        blinded
            .inputs
            .iter()
            .all(|input| !anchor_inputs.contains(&input.outpoint)),
        "blinded wallet transactions must not spend inputs reserved by the local anchor burn"
    );

    let work = node.prepare_next_block_with_local_anchor(2).unwrap();
    let vdf_output = run_vdf(work.vdf_seed(), work.vdf_rounds());
    let mut peer_ledger = node.clone_ledger();
    let block = node
        .complete_prepared_block_at(work, vdf_output, VDF_TARGET_BLOCK_MS * 2)
        .unwrap();
    assert!(block.transactions.iter().any(Transaction::is_burn));
    assert!(
        block
            .blinded_transactions
            .iter()
            .any(|transaction| transaction.commitment == blinded.commitment)
    );
    peer_ledger.apply_block_at(block, u64::MAX).unwrap();
    assert_eq!(
        node.ledger().status().tip_hash,
        peer_ledger.status().tip_hash
    );
}

#[test]
fn owned_blinded_transaction_restore_skips_stale_commit_with_spent_input() {
    let alice = Wallet::from_seed("owned-blinded-restore-stale-alice");
    let bob = Wallet::from_seed("owned-blinded-restore-stale-bob");
    let finalizers = [bob.clone()];
    let mut allocations = SortedMap::new();
    allocations.insert(alice.address().to_string(), MICRO_IUNA);
    allocations.insert(bob.address().to_string(), MICRO_IUNA);
    let ledger = Ledger::new_with_genesis_burns(
        allocations,
        finalizers
            .iter()
            .map(|wallet| GenesisBurn::new(wallet.address(), MICRO_IUNA))
            .collect(),
        1,
    )
    .unwrap();
    let mut wallet_node = NodeCore::from_ledger(alice.clone(), ledger.clone(), 0);

    wallet_node
        .blinded_burn_with_fee(MICRO_IUNA / 10, 7, wallet_node.chain_height() + 4)
        .unwrap();
    let owned = wallet_node.owned_blinded_transactions();
    let stale_conflict = ledger.build_burn(&alice, MICRO_IUNA / 10, 7).unwrap();
    let mut advanced_ledger = ledger;
    advanced_ledger.submit_transaction(stale_conflict).unwrap();
    let leader = advanced_ledger.expected_leader_for_next_block().unwrap();
    assert_eq!(leader, bob.address());
    let anchor_burn = advanced_ledger.build_burn(&bob, 1, 0).unwrap();
    advanced_ledger.submit_transaction(anchor_burn).unwrap();
    let block = advanced_ledger.mine_next_block(&bob, 1).unwrap();
    advanced_ledger.apply_block(block).unwrap();
    let mut restarted = NodeCore::from_ledger(alice, advanced_ledger, 0);

    restarted.restore_owned_blinded_transactions(owned).unwrap();

    assert!(restarted.owned_blinded_transactions().is_empty());
    assert!(restarted.ledger().pending_blinded_transactions().is_empty());
    assert!(restarted.drain_outbox().is_empty());
}

#[test]
fn inbound_blinded_transaction_conflicting_with_local_anchor_is_not_queued() {
    let alice = Wallet::from_seed("local-anchor-inbound-alice");
    let bob = Wallet::from_seed("local-anchor-inbound-bob");
    let finalizers = [alice.clone(), bob.clone()];
    let mut allocations = SortedMap::new();
    allocations.insert(alice.address().to_string(), 10 * MICRO_IUNA);
    allocations.insert(bob.address().to_string(), 10 * MICRO_IUNA);
    let ledger = Ledger::new_with_genesis_burns(
        allocations,
        finalizers
            .iter()
            .map(|wallet| GenesisBurn::new(wallet.address(), MICRO_IUNA))
            .collect(),
        1,
    )
    .unwrap();
    let leader = ledger.expected_leader_for_next_block().unwrap();
    let leader_wallet = finalizers
        .iter()
        .find(|wallet| wallet.address() == leader)
        .unwrap()
        .clone();
    let mut node = NodeCore::from_ledger_with_burn_fee_and_enabled(
        leader_wallet.clone(),
        ledger,
        true,
        MICRO_IUNA / 10,
        1,
    );

    let plan = node.prepare_automatic_finalization(1);
    assert!(plan.burned.is_some());
    let (_, anchor_burn) = node
        .local_block_anchor_burn
        .clone()
        .expect("leader burn should be held as a local block anchor");
    let anchor_inputs = transaction_input_outpoints(&anchor_burn)
        .into_iter()
        .collect::<Vec<_>>();
    let conflicting_payload = node
        .ledger()
        .build_transfer_with_inputs(&leader_wallet, bob.address(), 1, 0, &anchor_inputs)
        .unwrap();
    let conflicting = node
        .ledger()
        .build_blinded_transaction(&leader_wallet, conflicting_payload, node.chain_height() + 4)
        .unwrap();

    node.receive_blinded_transaction(conflicting.transaction)
        .unwrap();

    assert!(node.ledger().pending_blinded_transactions().is_empty());
    assert!(node.drain_outbox().is_empty());
    assert!(node.prepare_automatic_finalization(1).work.is_some());
}

#[test]
fn locally_produced_blocks_import_on_independent_peer_ledger() {
    let alice = Wallet::from_seed("producer-parity-alice");
    let bob = Wallet::from_seed("producer-parity-bob");
    let carol = Wallet::from_seed("producer-parity-carol");
    let wallets = [alice.clone(), bob.clone(), carol.clone()];
    let mut allocations = SortedMap::new();
    for wallet in &wallets {
        allocations.insert(wallet.address().to_string(), 20 * MICRO_IUNA);
    }
    let genesis_burns = wallets
        .iter()
        .map(|wallet| GenesisBurn::new(wallet.address(), MICRO_IUNA))
        .collect();
    let mut producer_ledger =
        Ledger::new_with_genesis_burns(allocations, genesis_burns, 1).unwrap();
    let mut peer_ledger = producer_ledger.clone();

    for step in 0..8 {
        assert_eq!(
            producer_ledger.status().tip_hash,
            peer_ledger.status().tip_hash
        );
        let leader = producer_ledger
            .expected_leader_for_next_block()
            .expect("test chain should have an eligible leader");
        let leader_wallet = wallet_for_address(&wallets, &leader).clone();
        let timestamp_ms = (step + 1) as u64 * VDF_TARGET_BLOCK_MS;
        let mut node = NodeCore::from_ledger_with_burn_fee_and_enabled(
            leader_wallet.clone(),
            producer_ledger.clone(),
            true,
            MICRO_IUNA / 10,
            1,
        );
        let plan = node.prepare_automatic_finalization(timestamp_ms);
        assert!(plan.burned.is_some());

        match step % 3 {
            0 => {
                let _ = node.blinded_burn_with_fee(1, 0, node.chain_height() + 4);
            }
            1 => {
                let recipient = wallets[(step + 1) % wallets.len()].address();
                let _ =
                    node.blinded_transfer_with_fee(recipient, 1, 0, node.chain_height() + 4);
            }
            _ => {}
        }

        let work = node
            .prepare_next_block_with_local_anchor(timestamp_ms)
            .unwrap();
        let vdf_output = run_vdf(work.vdf_seed(), work.vdf_rounds());
        let block = node
            .complete_prepared_block_at(work, vdf_output, timestamp_ms)
            .unwrap();
        peer_ledger.apply_block_at(block, u64::MAX).unwrap();
        producer_ledger = node.clone_ledger();
        assert_eq!(
            producer_ledger.status().tip_hash,
            peer_ledger.status().tip_hash
        );
    }
}
