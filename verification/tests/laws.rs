use iuna::blinded::{BlindedReveal, RevealBundlePayload};
use iuna::block::{Block, FinalizerMode};
use iuna::genesis::GenesisBurn;
use iuna::gossip::{GossipEnvelope, TRANSACTION_BATCH_LIMIT};
use iuna::ledger::Ledger;
use iuna::mempool::TransactionSubmitOutcome;
use iuna::node::NodeCore;
use iuna::sorted::SortedMap;
use iuna::transaction::{Amount, Transaction, MICRO_IUNA, MINE_FINALIZER_FEE, MINE_REWARD};
use iuna::vdf::run_vdf;
use iuna::wallet::Wallet;

fn ledger_of(wallets: &[&Wallet]) -> Ledger {
    let mut allocations = SortedMap::new();
    for wallet in wallets {
        allocations.insert(wallet.address().to_string(), 100 * MICRO_IUNA);
    }
    let burns = wallets
        .iter()
        .map(|wallet| GenesisBurn::new(wallet.address(), MICRO_IUNA))
        .collect();
    Ledger::new_with_genesis_burns(allocations, burns, 1).unwrap()
}

fn ledger_with_payers(finalizer: &Wallet, payers: &[&Wallet]) -> Ledger {
    let mut allocations = SortedMap::new();
    allocations.insert(finalizer.address().to_string(), 100 * MICRO_IUNA);
    for wallet in payers {
        allocations.insert(wallet.address().to_string(), 100 * MICRO_IUNA);
    }
    let burns = vec![GenesisBurn::new(finalizer.address(), MICRO_IUNA)];
    Ledger::new_with_genesis_burns(allocations, burns, 1).unwrap()
}

fn leader<'a>(ledger: &Ledger, wallets: &[&'a Wallet]) -> &'a Wallet {
    let address = ledger.expected_leader_for_next_block().unwrap();
    wallets
        .iter()
        .find(|wallet| wallet.address() == address)
        .unwrap()
}

fn burn(ledger: &mut Ledger, wallet: &Wallet, amount: Amount, fee: Amount) -> Transaction {
    let burn = ledger.build_burn(wallet, amount, fee).unwrap();
    assert!(ledger.submit_transaction(burn.clone()).unwrap());
    burn
}

fn supply(ledger: &Ledger) -> Amount {
    ledger
        .status()
        .balances
        .entries()
        .iter()
        .map(|(_, amount)| amount)
        .sum()
}

#[test]
fn a_prepared_block_is_accepted() {
    let alice = Wallet::from_seed("laws-prepared-alice");
    let bob = Wallet::from_seed("laws-prepared-bob");
    let wallets = [&alice, &bob];
    let mut ledger = ledger_of(&wallets);
    for time in 1..=3 {
        let finalizer = leader(&ledger, &wallets);
        burn(&mut ledger, finalizer, 1, 0);
        let block = ledger.mine_next_block(finalizer, time).unwrap();
        ledger.apply_block(block.clone()).unwrap();
        assert_eq!(ledger.tip(), &block);
    }
}

#[test]
fn a_prepared_recovery_block_is_accepted() {
    let alice = Wallet::from_seed("laws-recovery-alice");
    let bob = Wallet::from_seed("laws-recovery-bob");
    let mut ledger = ledger_of(&[&alice, &bob]);
    burn(&mut ledger, &bob, 1, 0);
    let available = ledger.recovery_block_min_timestamp();
    assert!(ledger.prepare_recovery_block(bob.address(), available - 1).is_err());
    let work = ledger.prepare_recovery_block(bob.address(), available).unwrap();
    let block = work.finish(&bob, "served".to_string());
    assert_eq!(block.finalizer_mode, FinalizerMode::Recovery);
    let error = ledger.apply_block_at(block.clone(), available).unwrap_err();
    assert_eq!(error.message(), "block VDF output is invalid");
    assert_eq!(ledger.height(), 0);
    ledger.apply_preverified_block_at(block.clone(), available).unwrap();
    assert_eq!(ledger.tip(), &block);
}

#[test]
fn nothing_waits_twice() {
    let alice = Wallet::from_seed("laws-tidy-alice");
    let bob = Wallet::from_seed("laws-tidy-bob");
    let mut ledger = ledger_of(&[&alice, &bob]);
    let first = burn(&mut ledger, &alice, 1, 0);
    assert_eq!(
        ledger.submit_transaction_with_outcome(first).unwrap(),
        TransactionSubmitOutcome::AlreadyKnown
    );
    assert_eq!(ledger.pending().len(), 1);

    let sealed = ledger.build_blinded_burn(&bob, 1, 1, 3).unwrap();
    assert!(ledger.submit_blinded_transaction(sealed.transaction.clone()).unwrap());
    assert!(!ledger.submit_blinded_transaction(sealed.transaction).unwrap());
    assert_eq!(ledger.pending_blinded_transactions().len(), 1);
}

#[test]
fn sealing_twice_gives_different_envelopes() {
    let alice = Wallet::from_seed("laws-random-alice");
    let ledger = ledger_of(&[&alice]);
    let transaction = ledger.build_burn(&alice, 1, 1).unwrap();
    let first = ledger.build_blinded_transaction(&alice, transaction.clone(), 3).unwrap();
    let second = ledger.build_blinded_transaction(&alice, transaction, 3).unwrap();
    assert_ne!(first.reveal.key, second.reveal.key);
    assert_ne!(first.transaction.commitment, second.transaction.commitment);
}

#[test]
fn a_block_creates_only_what_is_mined() {
    let alice = Wallet::from_seed("laws-supply-alice");
    let bob = Wallet::from_seed("laws-supply-bob");
    let wallets = [&alice, &bob];
    let mut ledger = ledger_of(&wallets);
    let before = supply(&ledger);
    let finalizer = leader(&ledger, &wallets);
    burn(&mut ledger, finalizer, 7, 3);
    let mine = ledger.build_mine(bob.address()).unwrap();
    ledger.submit_transaction(mine).unwrap();
    let block = ledger.mine_next_block(finalizer, 1).unwrap();
    assert_eq!(block.transactions.len(), 2);
    assert_eq!(block.reward, 3 + MINE_FINALIZER_FEE);
    ledger.apply_block(block).unwrap();
    assert_eq!(supply(&ledger), before + MINE_REWARD + MINE_FINALIZER_FEE - 7);
}

#[test]
fn a_refused_block_changes_nothing() {
    let alice = Wallet::from_seed("laws-refused-alice");
    let mut ledger = ledger_of(&[&alice]);
    burn(&mut ledger, &alice, 1, 0);
    let block = ledger.mine_next_block(&alice, 1).unwrap();
    let before = ledger.snapshot();

    let unserved = Block {
        vdf_output: "00000000000000000000000000000001:00000000000000000000000000000001".to_string(),
        ..block.clone()
    }
    .sealed();
    let error = ledger.apply_block(unserved).unwrap_err();
    assert_eq!(error.message(), "leader signature is invalid");
    assert_eq!(ledger.snapshot(), before);

    let richer = Block {
        reward: block.reward + 1,
        ..block.clone()
    }
    .sealed();
    assert_eq!(ledger.apply_block(richer).unwrap_err().message(), "block reward is invalid");
    let faster = Block {
        vdf_rounds: block.vdf_rounds + 1,
        ..block.clone()
    }
    .sealed();
    assert_eq!(ledger.apply_block(faster).unwrap_err().message(), "block VDF rounds are invalid");
    let earlier = Block {
        timestamp_ms: 0,
        ..block.clone()
    }
    .sealed();
    assert_eq!(ledger.apply_block(earlier).unwrap_err().message(), "block timestamp must increase");
    let elsewhere = Block {
        prev_hash: "0".repeat(64),
        ..block.clone()
    }
    .sealed();
    assert_eq!(ledger.apply_block(elsewhere).unwrap_err().message(), "block does not extend local tip");
    let higher = Block {
        height: 5,
        ..block.clone()
    }
    .sealed();
    assert_eq!(ledger.apply_block(higher).unwrap_err().message(), "expected block height 1, got 5");
    let error = ledger.apply_preverified_block_at(
        Block {
            timestamp_ms: 1_000_000,
            ..block.clone()
        }
        .sealed(),
        1,
    );
    assert_eq!(error.unwrap_err().message(), "block timestamp is too far in the future");
    assert_eq!(ledger.snapshot(), before);
    ledger.apply_block(block).unwrap();
}

#[test]
fn a_block_is_accepted_again_without_effect() {
    let alice = Wallet::from_seed("laws-known-alice");
    let mut ledger = ledger_of(&[&alice]);
    burn(&mut ledger, &alice, 1, 0);
    let block = ledger.mine_next_block(&alice, 1).unwrap();
    ledger.apply_block(block.clone()).unwrap();
    let before = ledger.snapshot();
    ledger.apply_block(block).unwrap();
    assert_eq!(ledger.snapshot(), before);
    assert_eq!(ledger.height(), 1);
}

#[test]
fn the_median_time_is_that_of_the_middle_block() {
    let alice = Wallet::from_seed("laws-median-alice");
    let mut ledger = ledger_of(&[&alice]);
    for time in [10, 25, 40, 70] {
        burn(&mut ledger, &alice, 1, 0);
        let work = ledger.prepare_next_block(alice.address(), time).unwrap();
        ledger
            .apply_locally_mined_block(work.finish_at(&alice, "served".to_string(), time))
            .unwrap();
    }
    assert_eq!(ledger.median_time_past(), 25);
}

#[test]
fn balances_are_those_of_the_outputs() {
    let alice = Wallet::from_seed("laws-balances-alice");
    let bob = Wallet::from_seed("laws-balances-bob");
    let ledger = ledger_of(&[&alice, &bob]);
    for wallet in [&alice, &bob] {
        let sum: Amount = ledger
            .utxos_for_address(wallet.address())
            .iter()
            .map(|(_, output)| output.amount)
            .sum();
        assert_eq!(ledger.balance_of(wallet.address()), sum);
        assert_eq!(
            ledger.status().balances.get(&wallet.address().to_string()),
            Some(&sum)
        );
    }
}

#[test]
fn selected_inputs_are_enough() {
    let alice = Wallet::from_seed("laws-inputs-alice");
    let ledger = ledger_of(&[&alice]);
    let (inputs, total) = ledger.select_inputs(alice.address(), 150 * MICRO_IUNA).unwrap();
    assert!(total >= 150 * MICRO_IUNA);
    assert_eq!(inputs.len(), 2);
    let error = ledger.select_inputs(alice.address(), 1_000 * MICRO_IUNA).unwrap_err();
    assert!(error.message().contains("insufficient funds"));
}

#[test]
fn sorted_maps_give_back_what_was_put_in() {
    let mut map = SortedMap::new();
    map.insert("b".to_string(), 1_u64);
    map.insert("a".to_string(), 2);
    map.insert("b".to_string(), 3);
    assert_eq!(map.get(&"b".to_string()), Some(&3));
    assert_eq!(map.entries(), &vec![("a".to_string(), 2), ("b".to_string(), 3)]);
    assert_eq!(map.remove(&"a".to_string()), Some(2));
    assert_eq!(map.get(&"a".to_string()), None);
    assert_eq!(map.remove(&"a".to_string()), None);
}

#[test]
fn messages_that_wait_for_a_block_leave_the_chain_alone() {
    let alice = Wallet::from_seed("laws-messages-alice");
    let ledger = ledger_of(&[&alice]);
    let mine = ledger.build_mine(alice.address()).unwrap();
    let sealed = ledger.build_blinded_burn(&alice, 1, 1, 3).unwrap();
    let mut node = NodeCore::from_ledger(alice, ledger, 5);
    let before = node.chain_snapshot();
    let status = node.status();

    node.receive(GossipEnvelope::MineAction(mine)).unwrap();
    node.receive(GossipEnvelope::BlindedTransaction(sealed.transaction)).unwrap();
    node.receive(GossipEnvelope::BlindedReveal(sealed.reveal)).unwrap();
    assert_eq!(node.chain_snapshot(), before);
    assert_eq!(node.status().mining.burn_per_block, status.mining.burn_per_block);
    assert_eq!(node.wallet_address(), status.wallet_address);
    assert_eq!(node.drain_outbox().len(), 3);
}

#[test]
fn what_comes_again_is_not_passed_on_again() {
    let alice = Wallet::from_seed("laws-again-alice");
    let ledger = ledger_of(&[&alice]);
    let mine = ledger.build_mine(alice.address()).unwrap();
    let sealed = ledger.build_blinded_burn(&alice, 1, 1, 3).unwrap();
    let mut node = NodeCore::from_ledger(alice, ledger, 0);
    for expected in [3, 0] {
        node.receive(GossipEnvelope::MineAction(mine.clone())).unwrap();
        node.receive(GossipEnvelope::BlindedTransaction(sealed.transaction.clone())).unwrap();
        node.receive(GossipEnvelope::BlindedReveal(sealed.reveal.clone())).unwrap();
        assert_eq!(node.drain_outbox().len(), expected);
    }
}

#[test]
fn plain_payments_are_not_gossiped() {
    let alice = Wallet::from_seed("laws-plain-alice");
    let ledger = ledger_of(&[&alice]);
    let burn = ledger.build_burn(&alice, 1, 0).unwrap();
    let mut node = NodeCore::from_ledger(alice, ledger, 0);
    let error = node.receive(GossipEnvelope::MineAction(burn)).unwrap_err();
    assert_eq!(error.message(), "only mine actions may be gossiped as plaintext");
}

#[test]
fn two_bundles_for_one_slot_void_it() {
    let alice = Wallet::from_seed("laws-bundles-alice");
    let bob = Wallet::from_seed("laws-bundles-bob");
    let carol = Wallet::from_seed("laws-bundles-carol");
    let mut ledger = ledger_with_payers(&alice, &[&bob, &carol]);
    let sealed = [
        ledger.build_blinded_burn(&bob, 1, 1, 6).unwrap(),
        ledger.build_blinded_burn(&carol, 2, 1, 6).unwrap(),
    ];
    for built in &sealed {
        ledger.submit_blinded_transaction(built.transaction.clone()).unwrap();
    }
    burn(&mut ledger, &alice, 1, 0);
    let block = ledger.mine_next_block(&alice, 1).unwrap();
    assert_eq!(block.blinded_transactions.len(), 2);
    ledger.apply_block(block).unwrap();
    let slot = ledger.reveal_committee_for_next_block()[0].slot;
    let bundle = |reveals: Vec<BlindedReveal>| {
        alice.reveal_bundle(RevealBundlePayload {
            height: 2,
            prev_hash: ledger.tip().hash.clone(),
            slot,
            member: alice.address().to_string(),
            reveals,
        })
    };
    let first = bundle(vec![sealed[0].reveal.clone()]);
    let second = bundle(vec![sealed[1].reveal.clone()]);
    let mut node = NodeCore::from_ledger(alice.clone(), ledger.clone(), 0);

    node.receive(GossipEnvelope::RevealBundle(first.clone())).unwrap();
    assert_eq!(node.usable_reveal_bundles(), vec![first.clone()]);
    node.receive(GossipEnvelope::RevealBundle(second)).unwrap();
    assert!(node.usable_reveal_bundles().is_empty());
    node.receive(GossipEnvelope::RevealBundle(first)).unwrap();
    assert!(node.usable_reveal_bundles().is_empty());
}

#[test]
fn gossip_comes_in_batches() {
    let alice = Wallet::from_seed("laws-batches-alice");
    let ledger = ledger_of(&[&alice]);
    let mut node = NodeCore::from_ledger(alice.clone(), ledger, 0);
    for salt in 0..(TRANSACTION_BATCH_LIMIT as u64 + 2) {
        let found = node.ledger().search_mine(alice.address(), salt, 0, 1_000_000).unwrap();
        node.receive_mine_action(found.transaction.unwrap()).unwrap();
    }
    let sizes: Vec<usize> = node
        .mempool_gossip()
        .iter()
        .filter_map(|envelope| match envelope {
            GossipEnvelope::MineActions { transactions } => Some(transactions.len()),
            _ => None,
        })
        .collect();
    assert_eq!(sizes, vec![TRANSACTION_BATCH_LIMIT, 2]);
}

#[test]
fn a_burn_enters_the_draw_after_the_delay() {
    let alice = Wallet::from_seed("laws-draw-alice");
    let carol = Wallet::from_seed("laws-draw-carol");
    let mut ledger = ledger_of(&[&alice]);
    let to_carol = ledger.build_transfer(&alice, carol.address(), 10, 1).unwrap();
    ledger.submit_transaction(to_carol).unwrap();
    burn(&mut ledger, &alice, 1, 0);
    let first = ledger.mine_next_block(&alice, 1).unwrap();
    ledger.apply_block(first).unwrap();

    let entry = burn(&mut ledger, &carol, 7, 1);
    let second = ledger.mine_next_block(&alice, 2).unwrap();
    assert!(second.transactions.contains(&entry));
    ledger.apply_block(second).unwrap();
    for height in 3..=5 {
        let ranks = ledger.burn_leader_ranks_for_block(height).unwrap();
        let held = ranks.iter().find(|rank| rank.ticket_id == entry.signature());
        assert_eq!(held.is_some(), height == 5, "height {height}");
        if let Some(rank) = held {
            assert_eq!(rank.owner, carol.address());
            assert_eq!(rank.amount, 7);
            assert_eq!(rank.eligible_from_height, 5);
            assert_eq!(rank.eligible_until_height, 7);
        }
        let finalizer = leader(&ledger, &[&alice, &carol]);
        burn(&mut ledger, finalizer, 1, 0);
        let block = ledger.mine_next_block(finalizer, height).unwrap();
        ledger.apply_block(block).unwrap();
    }
}

#[test]
fn only_the_drawn_finalizer_comes_on_top() {
    let alice = Wallet::from_seed("laws-entitled-alice");
    let bob = Wallet::from_seed("laws-entitled-bob");
    let mut ledger = ledger_of(&[&alice, &bob]);
    let drawn = leader(&ledger, &[&alice, &bob]);
    let other = if drawn.address() == alice.address() { &bob } else { &alice };
    burn(&mut ledger, drawn, 1, 0);
    let work = ledger.prepare_next_block(drawn.address(), 1).unwrap();
    let output = run_vdf(work.vdf_seed(), work.vdf_rounds());
    let block = work.finish(drawn, output);

    let mut claimed = block.clone();
    claimed.miner = other.address().to_string();
    claimed.hash = claimed.compute_hash();
    assert!(ledger.apply_block_at(claimed, 1).is_err());
    let mut altered = block.clone();
    altered.timestamp_ms += 1;
    assert!(ledger.apply_block_at(altered, 1).is_err());
    let mut unproved = block.clone();
    unproved.leader_proof = None;
    unproved.hash = unproved.compute_hash();
    assert!(ledger.apply_block_at(unproved, 1).is_err());
    assert_eq!(ledger.height(), 0);
    ledger.apply_block_at(block.clone(), 1).unwrap();
    assert_eq!(ledger.tip(), &block);
}

#[test]
fn what_a_member_bundles_goes_into_the_next_block() {
    let alice = Wallet::from_seed("laws-own-bundle-alice");
    let bob = Wallet::from_seed("laws-own-bundle-bob");
    let carol = Wallet::from_seed("laws-own-bundle-carol");
    let mut ledger = ledger_with_payers(&alice, &[&bob, &carol]);
    let sealed = [
        ledger.build_blinded_burn(&bob, 1, 1, 6).unwrap(),
        ledger.build_blinded_burn(&carol, 2, 900, 6).unwrap(),
    ];
    for built in &sealed {
        ledger.submit_blinded_transaction(built.transaction.clone()).unwrap();
    }
    burn(&mut ledger, &alice, 1, 0);
    let block = ledger.mine_next_block(&alice, 1).unwrap();
    ledger.apply_block(block).unwrap();
    assert_eq!(ledger.build_reveal_bundle(&alice).unwrap(), None);

    for built in &sealed {
        assert!(ledger.submit_blinded_reveal(built.reveal.clone()).unwrap());
        assert!(!ledger.submit_blinded_reveal(built.reveal.clone()).unwrap());
    }
    assert!(ledger.reveal_committee_for_next_block().len() <= 3);
    let bundle = ledger.build_reveal_bundle(&alice).unwrap().unwrap();
    assert_eq!(bundle.reveals, vec![sealed[1].reveal.clone(), sealed[0].reveal.clone()]);
    let accepted = ledger.validate_next_block_reveal_bundles(vec![bundle.clone()]).unwrap();
    assert_eq!(accepted, vec![bundle.clone()]);
    let mut swapped = bundle;
    swapped.reveals.reverse();
    assert!(ledger.validate_next_block_reveal_bundles(vec![swapped]).is_err());
}
