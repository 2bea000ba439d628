use iuna::cli::setup_ledger;
use iuna::forks::revealed_blinded_transactions;
use iuna::genesis::GenesisBurn;
use iuna::gossip::{BlockInventory, GossipEnvelope};
use iuna::ledger::{Ledger, RECOVERY_BLOCK_DELAY_MS};
use iuna::mempool::TransactionSubmitOutcome;
use iuna::network::InMemoryNetwork;
use iuna::node::{NodeConfig, NodeCore};
use iuna::peers::{PeerBook, PEER_MISBEHAVIOR_BAN_SCORE};
use iuna::service::{publication_time, SkipNotice};
use iuna::sorted::SortedMap;
use iuna::stratum::StratumMineShare;
use iuna::transaction::{Transaction, MICRO_IUNA, MINE_FINALIZER_FEE};
use iuna::vdf::run_vdf;
use iuna::wallet::Wallet;

fn allocations(entries: &[(&Wallet, u64)]) -> SortedMap<String, u64> {
    let mut map = SortedMap::new();
    for (wallet, amount) in entries {
        map.insert(wallet.address().to_string(), *amount);
    }
    map
}

fn funded_ledger(wallet: &Wallet) -> Ledger {
    Ledger::new_with_genesis_burns(
        allocations(&[(wallet, 10 * MICRO_IUNA)]),
        vec![GenesisBurn::new(wallet.address(), 1)],
        1,
    )
    .unwrap()
}

fn setup_node(seed: &str) -> NodeCore {
    NodeCore::from_ledger(Wallet::from_seed(seed), setup_ledger(), 0)
}

#[test]
fn turns_wait_for_a_chain() {
    let mut node = setup_node("service-setup");
    assert!(!node.has_real_chain());
    assert!(node.finalization_turn(1).is_none());
    assert!(node.pow_mining_turn().is_none());
    assert!(node.unsaved_chain(None).is_none());
}

#[test]
fn finalization_turn_gives_the_plan_and_what_to_send() {
    let alice = Wallet::from_seed("service-finalizer-alice");
    let bob = Wallet::from_seed("service-finalizer-bob");
    let ledger = Ledger::new_with_genesis_burns(
        allocations(&[(&alice, 10 * MICRO_IUNA), (&bob, 10 * MICRO_IUNA)]),
        vec![GenesisBurn::new(alice.address(), 1)],
        10,
    )
    .unwrap();
    let mut node = NodeCore::from_ledger(bob, ledger, 1);

    let early = node.finalization_turn(RECOVERY_BLOCK_DELAY_MS - 1).unwrap();
    assert_eq!(early.height, 0);
    assert!(early.plan.work.is_none());
    assert!(early
        .plan
        .skipped_reason
        .as_deref()
        .unwrap()
        .contains("waiting for selected finalizer"));
    assert!(node.drain_outbox().is_empty());

    let late = node.finalization_turn(RECOVERY_BLOCK_DELAY_MS).unwrap();
    assert_eq!(late.plan.work.unwrap().height(), 1);
}

#[test]
fn finalization_turn_closes_a_block_with_the_delay_served() {
    let alice = Wallet::from_seed("service-closing-alice");
    let ledger = funded_ledger(&alice);
    let mut node = NodeCore::from_ledger(alice, ledger, 1);
    let turn = node.finalization_turn(1).unwrap();
    let work = turn.plan.work.expect("the only burner finalizes");
    let output = run_vdf(work.vdf_seed(), work.vdf_rounds());
    let time = publication_time(work.timestamp_ms(), 1).1;
    let block = node.complete_prepared_block_at(work, output, time).unwrap();
    assert_eq!(block.height, 1);
    assert_eq!(node.chain_height(), 1);
    assert!(node.drain_outbox().contains(&GossipEnvelope::Block(block)));
}

#[test]
fn pow_turn_searches_and_sends_what_it_finds() {
    let wallet = Wallet::from_seed("service-pow");
    let ledger = funded_ledger(&wallet);
    let mut node = NodeCore::from_ledger(wallet, ledger, 0);

    let idle = node.pow_mining_turn().unwrap();
    assert_eq!(idle.height, 0);
    assert!(idle.mined.is_none());
    assert!(idle.outbox.is_empty());

    node.set_pow_mining_enabled(true);
    let found = (0..10_000)
        .find_map(|_| {
            let turn = node.pow_mining_turn().unwrap();
            turn.mined.map(|mined| (mined, turn.outbox))
        })
        .expect("the search finds a proof");
    assert!(found.1.contains(&GossipEnvelope::MineAction(found.0.clone())));
    assert!(matches!(found.0, Transaction::Mine { .. }));
    assert!(node.drain_outbox().is_empty());
}

#[test]
fn sync_turn_starts_with_where_the_node_stands() {
    let wallet = Wallet::from_seed("service-sync");
    let ledger = funded_ledger(&wallet);
    let mut node = NodeCore::from_ledger(wallet, ledger, 0);
    let mined = node.mine_pow_reward().unwrap();
    let messages = node.sync_turn();
    assert!(matches!(
        &messages[0],
        GossipEnvelope::PeerStatus { height: 0, tip_hash, .. } if *tip_hash == node.chain()[0].hash
    ));
    assert_eq!(messages[1], GossipEnvelope::MineAction(mined.clone()));
    assert_eq!(messages[2], GossipEnvelope::MineActions { transactions: vec![mined] });
    assert_eq!(messages.len(), 3);
    assert!(node.drain_outbox().is_empty());
}

#[test]
fn a_chain_is_saved_once() {
    let wallet = Wallet::from_seed("service-saving");
    let mut ledger = funded_ledger(&wallet);
    let node = NodeCore::from_ledger(wallet.clone(), ledger.clone(), 0);
    let snapshot = node.unsaved_chain(None).unwrap();
    assert_eq!(snapshot, node.chain_snapshot());
    let tip = snapshot.blocks.last().unwrap().hash.clone();
    assert!(node.unsaved_chain(Some(&tip)).is_none());

    let burn = ledger.build_burn(&wallet, 1, 0).unwrap();
    ledger.submit_transaction(burn).unwrap();
    let block = ledger.mine_next_block(&wallet, 1_000).unwrap();
    ledger.apply_locally_mined_block(block).unwrap();
    let later = NodeCore::from_ledger(wallet, ledger, 0);
    assert_eq!(later.unsaved_chain(Some(&tip)).unwrap().blocks.len(), 2);
}

#[test]
fn blocks_are_not_published_before_their_slot() {
    assert_eq!(publication_time(5_000, 3_500), (1_500, 5_000));
    assert_eq!(publication_time(5_000, 5_000), (0, 5_000));
    assert_eq!(publication_time(5_000, 7_250), (0, 7_250));
}

#[test]
fn a_skip_is_news_once() {
    let mut notice = SkipNotice::new();
    assert!(notice.note(3, "waiting"));
    assert!(!notice.note(3, "waiting"));
    assert!(notice.note(3, "no ticket"));
    assert!(notice.note(4, "no ticket"));
    notice.clear();
    assert!(notice.note(4, "no ticket"));
}

#[test]
fn mine_one_finalizes_for_the_selected_burner() {
    let alice = Wallet::from_seed("operations-mine-one");
    let ledger = funded_ledger(&alice);
    let mut node = NodeCore::from_ledger(alice.clone(), ledger, 0);
    assert!(node.mine_one().is_err());
    let burn = node.ledger().build_burn(&alice, 1, 0).unwrap();
    assert_eq!(
        node.receive_transaction(burn.clone()).unwrap(),
        TransactionSubmitOutcome::Added
    );
    let block = node.mine_one_at(1_000).unwrap();
    assert_eq!(block.height, 1);
    assert!(block.transactions.iter().any(|t| t == &burn));
    assert_eq!(
        node.ledger().transaction_by_signature(burn.signature()),
        Some(burn)
    );
    assert!(node.ledger().transaction_by_signature("missing").is_none());
}

#[test]
fn locked_wallets_see_but_do_not_spend() {
    let alice = Wallet::from_seed("operations-locked");
    let ledger = funded_ledger(&alice);
    let mut node = NodeCore::from_locked_wallet_address(alice.address(), ledger, false, 0, 0);
    assert!(node.wallet_is_locked());
    assert_eq!(node.wallet_address(), alice.address());
    assert!(node.estimate_burn_fee(1, 1).is_err());
    assert!(node.mine_one_at(1_000).is_err());
    node.replace_wallet(alice.clone());
    assert!(!node.wallet_is_locked());
    assert_eq!(node.wallet_address(), alice.address());
    assert!(node.estimate_burn_fee(1, 1).unwrap().fee > 0);
}

#[test]
fn fees_are_estimated_by_size() {
    let alice = Wallet::from_seed("operations-fees-alice");
    let bob = Wallet::from_seed("operations-fees-bob");
    let node = NodeCore::from_ledger(alice.clone(), funded_ledger(&alice), 0);
    let burn = node.estimate_burn_fee(5, 2).unwrap();
    assert_eq!(burn.fee, 2 * burn.bytes as u64);
    let transfer = node.estimate_transfer_fee(bob.address(), 5, 3, &[]).unwrap();
    assert_eq!(transfer.fee, 3 * transfer.bytes as u64);
    assert!(transfer.bytes > burn.bytes);
    assert_eq!(node.estimate_mine_fee(9).unwrap().fee, MINE_FINALIZER_FEE);
}

#[test]
fn outside_miners_get_jobs_and_submit_shares() {
    let alice = Wallet::from_seed("operations-stratum");
    let mut node = NodeCore::from_ledger(alice.clone(), funded_ledger(&alice), 0);
    assert!(node.external_mine_job("not-an-address", 1).is_err());
    let job = node.external_mine_job(alice.address(), 1).unwrap();
    assert_eq!(job.template.recipient, alice.address());
    assert_eq!(job.template.anchor, node.chain()[0].hash);
    assert_eq!(job.template.salt, 1);
    assert_eq!(job.template.coinb1_hex().len(), 2 * job.template.coinbase_prefix.len());
    let mined = (0_u32..1_000_000)
        .find_map(|nonce| {
            let share = StratumMineShare {
                extranonce2: [0; 4],
                header_nonce: nonce.to_le_bytes(),
            };
            node.submit_external_mine(alice.address(), job.template.clone(), share).ok()
        })
        .expect("a share meets the difficulty");
    assert_eq!(node.pending_transactions(), vec![mined.clone()]);
    assert_eq!(node.drain_outbox(), vec![GossipEnvelope::MineAction(mined)]);
    let bob = Wallet::from_seed("operations-stratum-bob");
    let share = StratumMineShare {
        extranonce2: [0; 4],
        header_nonce: [0; 4],
    };
    assert!(node
        .submit_external_mine(bob.address(), job.template, share)
        .is_err());
}

#[test]
fn blocks_are_found_by_hash_and_asked_for_when_missing() {
    let alice = Wallet::from_seed("operations-inventory");
    let mut ledger = funded_ledger(&alice);
    let behind = NodeCore::from_ledger(alice.clone(), ledger.clone(), 0);
    let burn = ledger.build_burn(&alice, 1, 0).unwrap();
    ledger.submit_transaction(burn).unwrap();
    let block = ledger.mine_next_block(&alice, 1_000).unwrap();
    ledger.apply_locally_mined_block(block.clone()).unwrap();
    let ahead = NodeCore::from_ledger(alice, ledger, 0);

    let hashes = vec!["missing".to_string(), block.hash.clone()];
    assert_eq!(ahead.blocks_by_hash(&hashes), vec![block.clone()]);
    assert!(behind.blocks_by_hash(&hashes).is_empty());

    let inventory = [BlockInventory {
        height: 1,
        hash: block.hash.clone(),
    }];
    assert!(ahead.missing_inventory_requests(&inventory).is_empty());
    assert_eq!(
        behind.missing_inventory_requests(&inventory),
        vec![GossipEnvelope::BlockRequest {
            hashes: vec![block.hash.clone()]
        }]
    );

    let snapshot = ahead.chain_snapshot();
    assert_eq!(
        behind.ledger().missing_snapshot_blocks(&snapshot).unwrap(),
        vec![block.clone()]
    );
    assert!(revealed_blinded_transactions(&snapshot).unwrap().is_empty());
    let restored = Ledger::from_persisted_snapshot(snapshot).unwrap();
    assert_eq!(restored.tip().hash, block.hash);

    let mut receiving = behind;
    receiving.receive_block_at(block.clone(), 2_000).unwrap();
    assert_eq!(receiving.chain_height(), 1);
    let mut trusting = NodeCore::from_ledger(
        Wallet::from_seed("operations-inventory"),
        funded_ledger(&Wallet::from_seed("operations-inventory")),
        0,
    );
    trusting.receive_preverified_block_at(block, 2_000).unwrap();
    assert_eq!(trusting.chain_height(), 1);
}

#[test]
fn networks_pass_on_what_waits_and_catch_up() {
    let alice = Wallet::from_seed("operations-network-alice");
    let config = |wallet: Wallet| NodeConfig {
        wallet,
        genesis_allocations: allocations(&[(&alice, 10 * MICRO_IUNA)]),
        vdf_rounds: 1,
        burn_per_block: 0,
        burn_fee: 0,
        pow_mining_workers: 1,
        recovery_vdf_top_rank_percent: 100,
    };
    let mut network = InMemoryNetwork::new();
    network.insert("a", NodeCore::new(config(alice.clone())));
    network.insert("b", NodeCore::new(config(Wallet::from_seed("operations-network-bob"))));
    let mined = network.node_mut("a").unwrap().mine_pow_reward().unwrap();
    network.node_mut("a").unwrap().drain_outbox();
    assert!(network.node("b").unwrap().pending_transactions().is_empty());
    network.gossip_mempools_once().unwrap();
    assert_eq!(network.node("b").unwrap().pending_transactions(), vec![mined]);
    assert!(!network.sync_node_from_peer("a", "b", 10).unwrap());
    assert!(network.sync_node_from_peer("a", "missing", 10).is_err());
}

#[test]
fn misbehaving_peers_are_banned_now() {
    let mut peers = PeerBook::from_addresses(vec!["a:1".to_string(), "b:1".to_string(), "c:1".to_string()]);
    for _ in 0..PEER_MISBEHAVIOR_BAN_SCORE {
        assert!(!peers.is_banned("b:1"));
        peers.record_misbehavior("b:1", "bad block");
    }
    assert!(peers.is_banned("b:1"));
    assert!(!peers.is_banned("a:1"));
    assert_eq!(peers.addresses_except("c:1"), vec!["a:1".to_string()]);
}

#[test]
fn own_payments_are_marked_as_kept() {
    let alice = Wallet::from_seed("operations-outbox");
    let mut node = NodeCore::from_ledger(alice.clone(), funded_ledger(&alice), 0);
    node.blinded_burn_with_fee(1, 1, 10).unwrap();
    let version = node.owned_blinded_outbox_version();
    assert!(version > 0);
    node.mark_owned_blinded_outbox_persisted(version + 1);
    assert_eq!(node.owned_blinded_outbox_version(), version);
    node.mark_owned_blinded_outbox_persisted(version);
    assert_eq!(node.owned_blinded_outbox_version(), 0);
    let seen = node.wallet_view_ledger().unwrap();
    assert_eq!(
        seen.balance_of(alice.address()),
        node.wallet_projected_balance() + 2
    );
}

#[test]
fn difficulty_is_asked_for_by_height() {
    let alice = Wallet::from_seed("operations-difficulty");
    let ledger = funded_ledger(&alice);
    assert_eq!(
        ledger.mine_difficulty_bits_at_height(0),
        ledger.mine_difficulty_bits_at_height(1_000)
    );
}
