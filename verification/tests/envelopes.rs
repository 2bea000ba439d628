use iuna::blinded::{
    blinded_transaction_commitment, encrypt_blinded_payload, BlindedReveal, BlindedTransaction, BuiltBlindedTransaction,
};
use iuna::crypto::hex_hash;
use iuna::document::transaction_bytes;
use iuna::genesis::GenesisBurn;
use iuna::hex::hex_encode;
use iuna::ledger::Ledger;
use iuna::mempool::TransactionSubmitOutcome;
use iuna::node::NodeCore;
use iuna::sealing::decrypt_blinded_transaction;
use iuna::sorted::SortedMap;
use iuna::transaction::{Amount, Transaction, MICRO_IUNA};
use iuna::wallet::Wallet;

fn chain_of(finalizer: &Wallet, payers: &[&Wallet]) -> Ledger {
    let mut allocations = SortedMap::new();
    allocations.insert(finalizer.address().to_string(), 10 * MICRO_IUNA);
    for wallet in payers {
        allocations.insert(wallet.address().to_string(), 10 * MICRO_IUNA);
    }
    let burns = vec![GenesisBurn::new(finalizer.address(), MICRO_IUNA)];
    Ledger::new_with_genesis_burns(allocations, burns, 1).unwrap()
}

fn next_block(ledger: &mut Ledger, finalizer: &Wallet) {
    let burn = ledger.build_burn(finalizer, 1, 0).unwrap();
    ledger.submit_transaction(burn).unwrap();
    let bundles = ledger.build_reveal_bundle(finalizer).unwrap().into_iter().collect();
    let timestamp_ms = ledger.tip().timestamp_ms + 1;
    let block = ledger
        .prepare_next_block_with_reveal_bundles(finalizer.address(), timestamp_ms, bundles)
        .unwrap()
        .finish(finalizer, "served".to_string());
    ledger.apply_preverified_block_at(block, u64::MAX).unwrap();
}

fn resealed(built: &BuiltBlindedTransaction, plaintext: &[u8]) -> (BlindedTransaction, BlindedReveal) {
    let (key, nonce) = ([7_u8; 32], [9_u8; 12]);
    let fee = built.transaction.fee;
    let expiry = built.transaction.expires_at_height;
    let ciphertext = encrypt_blinded_payload(&key, &nonce, fee, expiry, plaintext).unwrap();
    let mut envelope = built.transaction.clone();
    envelope.nonce = hex_encode(&nonce);
    envelope.encrypted_size = ciphertext.len() as u32;
    envelope.ciphertext = hex_encode(&ciphertext);
    envelope.payload_hash = hex_hash(plaintext);
    envelope.commitment = blinded_transaction_commitment(&envelope);
    let reveal = BlindedReveal { commitment: envelope.commitment.clone(), key: hex_encode(&key) };
    (envelope, reveal)
}

fn signed_by(
    wallet: &Wallet,
    envelope: &BlindedTransaction,
    change: impl Fn(&mut BlindedTransaction),
) -> BlindedTransaction {
    let mut changed = envelope.clone();
    change(&mut changed);
    let signature = wallet.sign_payload(&changed.authorization());
    for input in &mut changed.inputs {
        input.signature = signature.clone();
    }
    changed.commitment = blinded_transaction_commitment(&changed);
    changed
}

#[test]
fn an_included_envelope_holds_what_it_names_until_it_is_opened() {
    let alice = Wallet::from_seed("envelopes-alice");
    let bob = Wallet::from_seed("envelopes-bob");
    let mut ledger = chain_of(&alice, &[&bob]);
    let built = ledger.build_blinded_burn(&bob, 3, 6, 5).unwrap();
    let Transaction::Burn { inputs, .. } = &built.payload else {
        panic!("a burn was built");
    };
    assert_eq!(built.transaction.inputs.len(), inputs.len());
    let signature = bob.sign_payload(&built.transaction.authorization());
    for (named, spent) in built.transaction.inputs.iter().zip(inputs) {
        assert_eq!((&named.outpoint, &named.owner), (&spent.outpoint, &spent.owner));
        assert_eq!(named.signature, signature);
    }
    assert!(ledger.submit_blinded_transaction(built.transaction.clone()).unwrap());
    assert_eq!(ledger.balance_of(bob.address()), 10 * MICRO_IUNA);

    next_block(&mut ledger, &alice);
    assert_eq!(ledger.balance_of(bob.address()), 0);
    assert!(ledger.build_burn(&bob, 1, 0).is_err());

    ledger.submit_blinded_reveal(built.reveal.clone()).unwrap();
    let pending = ledger.pending_revealed_blinded_transactions();
    assert_eq!(pending.len(), 1);
    assert_eq!(pending[0].height, 2);
    assert_eq!(pending[0].commitment, built.transaction.commitment);
    assert_eq!(pending[0].included_by, alice.address());
    assert_eq!(pending[0].transaction, built.payload);
    let node = NodeCore::from_ledger(bob.clone(), ledger.clone(), 0);
    assert_eq!(node.pending_revealed_blinded_transactions(), pending);

    next_block(&mut ledger, &alice);
    assert!(ledger.pending_revealed_blinded_transactions().is_empty());
    assert_eq!(ledger.balance_of(bob.address()), 10 * MICRO_IUNA - 9);
}

#[test]
fn an_expired_envelope_gives_back_what_it_held() {
    let alice = Wallet::from_seed("expiry-alice");
    let bob = Wallet::from_seed("expiry-bob");
    let mut ledger = chain_of(&alice, &[&bob]);
    let built = ledger.build_blinded_burn(&bob, 3, 6, 3).unwrap();
    ledger.submit_blinded_transaction(built.transaction.clone()).unwrap();
    next_block(&mut ledger, &alice);
    next_block(&mut ledger, &alice);
    assert!(ledger.has_active_blinded_transaction(&built.transaction.commitment));
    assert_eq!(ledger.balance_of(bob.address()), 0);
    next_block(&mut ledger, &alice);
    assert!(!ledger.has_active_blinded_transaction(&built.transaction.commitment));
    assert_eq!(ledger.balance_of(bob.address()), 10 * MICRO_IUNA);
    let kept = Ledger::from_snapshot(ledger.snapshot());
    assert_eq!(kept.unwrap_err().message(), "block VDF output is invalid");
}

#[test]
fn envelopes_that_compete_may_wait_but_one_is_included() {
    let alice = Wallet::from_seed("pending-envelope-alice");
    let bob = Wallet::from_seed("pending-envelope-bob");
    let mut ledger = chain_of(&alice, &[&bob]);
    let first = ledger.build_blinded_burn(&bob, 1, 1, 5).unwrap();
    let second = ledger.build_blinded_burn(&bob, 2, 900, 5).unwrap();
    let plain = ledger.build_burn(&bob, 3, 0).unwrap();
    assert!(ledger.submit_blinded_transaction(first.transaction.clone()).unwrap());
    assert!(ledger.submit_blinded_transaction(second.transaction.clone()).unwrap());
    assert!(ledger.build_burn(&bob, 1, 0).is_err());

    let mut sealed_only = ledger.clone();
    next_block(&mut sealed_only, &alice);
    assert!(sealed_only.has_active_blinded_transaction(&second.transaction.commitment));
    assert!(!sealed_only.has_active_blinded_transaction(&first.transaction.commitment));
    assert!(sealed_only.pending_blinded_transactions().is_empty());
    let error = sealed_only.submit_blinded_transaction(first.transaction.clone()).unwrap_err();
    let outpoint = &first.transaction.inputs[0].outpoint;
    assert_eq!(
        error.message(),
        format!("blinded transaction spends missing output {}:{}", outpoint.txid, outpoint.index)
    );

    assert_eq!(
        ledger.submit_transaction_with_outcome(plain.clone()).unwrap(),
        TransactionSubmitOutcome::Added
    );
    assert!(ledger.submit_blinded_transaction(ledger.build_blinded_burn(&alice, 1, 1, 5).unwrap().transaction).unwrap());
    ledger.drop_pending_blinded_conflicting_with_transaction(&plain);
    assert_eq!(ledger.pending_blinded_transactions().len(), 1);
}

#[test]
fn a_sealed_payment_may_spend_the_change_of_another() {
    let alice = Wallet::from_seed("change-alice");
    let bob = Wallet::from_seed("change-bob");
    let mut node = NodeCore::from_ledger(bob.clone(), chain_of(&alice, &[&bob]), 0);
    let first = node.blinded_burn_with_fee(3, 6, 9).unwrap();
    let second = node.blinded_transfer_with_fee(alice.address(), 5, 2, 9).unwrap();
    let owned = node.owned_blinded_transactions();
    let payload = |envelope: &BlindedTransaction| {
        owned.iter().find(|kept| kept.transaction.commitment == envelope.commitment).unwrap().clone()
    };
    assert_eq!(second.inputs.len(), 1);
    assert_eq!(second.inputs[0].outpoint.txid, payload(&first).payload.signature());
    assert_eq!(node.ledger().pending_blinded_transactions().len(), 2);

    let mut ledger = node.ledger().clone();
    next_block(&mut ledger, &alice);
    assert!(ledger.has_active_blinded_transaction(&first.commitment));
    assert!(!ledger.has_active_blinded_transaction(&second.commitment));
    assert_eq!(ledger.pending_blinded_transactions().len(), 1);
    ledger.submit_blinded_reveal(payload(&first).reveal).unwrap();
    next_block(&mut ledger, &alice);
    assert_eq!(ledger.balance_of(bob.address()), 10 * MICRO_IUNA - 9);
    next_block(&mut ledger, &alice);
    assert!(ledger.has_active_blinded_transaction(&second.commitment));
    ledger.submit_blinded_reveal(payload(&second).reveal).unwrap();
    next_block(&mut ledger, &alice);
    assert_eq!(ledger.balance_of(bob.address()), 10 * MICRO_IUNA - 9 - 7);
}

#[test]
fn change_is_there_while_a_block_holds_what_was_spent() {
    let alice = Wallet::from_seed("held-change-alice");
    let bob = Wallet::from_seed("held-change-bob");
    let mut node = NodeCore::from_ledger(bob.clone(), chain_of(&alice, &[&bob]), 0);
    let first = node.blinded_burn_with_fee(3, 6, 9).unwrap();
    let mut ledger = node.ledger().clone();
    let burn = ledger.build_burn(&alice, 1, 0).unwrap();
    ledger.submit_transaction(burn).unwrap();
    let block = ledger
        .prepare_next_block_with_reveal_bundles(alice.address(), ledger.tip().timestamp_ms + 1, Vec::new())
        .unwrap()
        .finish(&alice, "served".to_string());
    node.receive_preverified_block_at(block, u64::MAX).unwrap();
    assert!(node.ledger().has_active_blinded_transaction(&first.commitment));
    assert_eq!(node.ledger().balance_of(bob.address()), 0);
    let second = node.blinded_burn_with_fee(1, 1, 9).unwrap();
    let owned = node.owned_blinded_transactions();
    let kept = owned.iter().find(|kept| kept.transaction.commitment == first.commitment).unwrap();
    assert_eq!(second.inputs[0].outpoint.txid, kept.payload.signature());
}

#[test]
fn an_envelope_must_be_funded_by_its_owner() {
    let alice = Wallet::from_seed("funded-alice");
    let bob = Wallet::from_seed("funded-bob");
    let mut ledger = chain_of(&alice, &[&bob]);
    let built = ledger.build_blinded_burn(&bob, 3, 6, 5).unwrap();

    let foreign = signed_by(&alice, &built.transaction, |envelope| {
        envelope.inputs[0].owner = alice.address().to_string();
    });
    let error = ledger.submit_blinded_transaction(foreign).unwrap_err();
    assert_eq!(error.message(), "blinded transaction input owner does not match spent output");

    let coming = signed_by(&bob, &built.transaction, |envelope| {
        envelope.inputs[0].outpoint.index += 1;
    });
    assert!(ledger.submit_blinded_transaction(coming.clone()).unwrap());
    assert_eq!(ledger.pending_blinded_transactions().len(), 1);
    assert!(ledger.valid_pending_blinded_transactions().is_empty());
    next_block(&mut ledger, &alice);
    assert!(!ledger.has_active_blinded_transaction(&coming.commitment));
}

#[test]
fn an_envelope_must_be_signed_by_the_owner_of_what_it_names() {
    let alice = Wallet::from_seed("forged-alice");
    let bob = Wallet::from_seed("forged-bob");
    let mut ledger = chain_of(&alice, &[&bob]);
    let built = ledger.build_blinded_burn(&bob, 3, 6, 5).unwrap();
    let unsigned = "blinded transaction is not signed by the owner of its inputs";

    let (copied, _) = resealed(&built, &transaction_bytes(&built.payload));
    assert_eq!(ledger.submit_blinded_transaction(copied.clone()).unwrap_err().message(), unsigned);
    let forged = signed_by(&alice, &built.transaction, |_| {});
    assert_eq!(ledger.submit_blinded_transaction(forged).unwrap_err().message(), unsigned);
    let mut outbidding = built.transaction.clone();
    outbidding.fee += 1;
    outbidding.commitment = blinded_transaction_commitment(&outbidding);
    assert_eq!(ledger.submit_blinded_transaction(outbidding).unwrap_err().message(), unsigned);
    let mut later = built.transaction.clone();
    later.expires_at_height += 1;
    later.commitment = blinded_transaction_commitment(&later);
    assert_eq!(ledger.submit_blinded_transaction(later).unwrap_err().message(), unsigned);
    let mixed = signed_by(&bob, &built.transaction, |envelope| {
        let mut other = envelope.inputs[0].clone();
        other.owner = alice.address().to_string();
        other.outpoint.index += 1;
        envelope.inputs.push(other);
    });
    assert_eq!(
        ledger.submit_blinded_transaction(mixed).unwrap_err().message(),
        "blinded transaction inputs must have one owner"
    );
    let mut partly = signed_by(&bob, &built.transaction, |envelope| {
        let mut other = envelope.inputs[0].clone();
        other.outpoint.index += 1;
        envelope.inputs.push(other);
    });
    partly.inputs[1].signature = "00".repeat(64);
    partly.commitment = blinded_transaction_commitment(&partly);
    assert_eq!(
        ledger.submit_blinded_transaction(partly).unwrap_err().message(),
        "blinded transaction inputs must have one signature"
    );
    assert!(ledger.pending_blinded_transactions().is_empty());

    let by_another = ledger.build_blinded_transaction(&alice, built.payload.clone(), 5).unwrap_err();
    assert_eq!(by_another.message(), unsigned);

    let burn = ledger.build_burn(&alice, 1, 0).unwrap();
    ledger.submit_transaction(burn).unwrap();
    let timestamp_ms = ledger.tip().timestamp_ms + 1;
    let mut block = ledger
        .prepare_next_block_with_reveal_bundles(alice.address(), timestamp_ms, Vec::new())
        .unwrap()
        .finish(&alice, "served".to_string());
    let honest = block.clone();
    block.blinded_transactions.push(copied);
    let error = ledger.apply_preverified_block_at(block.sealed(), u64::MAX).unwrap_err();
    assert_eq!(error.message(), unsigned);
    assert_eq!(ledger.balance_of(bob.address()), 10 * MICRO_IUNA);
    let mut taken = honest.clone();
    taken.blinded_transactions.push(built.transaction);
    ledger.apply_preverified_block_at(taken.sealed(), u64::MAX).unwrap();
    assert_eq!(ledger.balance_of(bob.address()), 0);
}

#[test]
fn the_payload_spends_what_the_envelope_names() {
    let alice = Wallet::from_seed("payload-alice");
    let bob = Wallet::from_seed("payload-bob");
    let ledger = chain_of(&alice, &[&bob]);
    let built = ledger.build_blinded_burn(&bob, 3, 6, 5).unwrap();
    let other = ledger.build_burn(&alice, 3, 6).unwrap();
    let (envelope, reveal) = resealed(&built, &transaction_bytes(&other));
    let error = decrypt_blinded_transaction(&envelope, &reveal).unwrap_err();
    assert_eq!(error.message(), "blinded transaction inputs do not match payload");
}

#[test]
fn a_payload_that_repeats_a_key_is_refused() {
    let alice = Wallet::from_seed("repeated-key-alice");
    let ledger = chain_of(&alice, &[]);
    let built = ledger.build_blinded_burn(&alice, 3, 6, 5).unwrap();
    let written = String::from_utf8(transaction_bytes(&built.payload)).unwrap();
    let (envelope, reveal) = resealed(&built, written.as_bytes());
    assert_eq!(decrypt_blinded_transaction(&envelope, &reveal).unwrap(), built.payload);

    let spaced = written.replace("\"fee\":6", "\"fee\" : 6 ");
    assert_ne!(spaced, written);
    let (envelope, reveal) = resealed(&built, spaced.as_bytes());
    assert_eq!(decrypt_blinded_transaction(&envelope, &reveal).unwrap(), built.payload);

    let unknown = written.replace("\"fee\":6", "\"note\":\"a:\\\"b:\\\\\",\"fee\":6");
    let (envelope, reveal) = resealed(&built, unknown.as_bytes());
    assert_eq!(decrypt_blinded_transaction(&envelope, &reveal).unwrap(), built.payload);

    let repeated = written.replace("\"fee\":6", "\"fee\":6,\"fee\":6");
    let (envelope, reveal) = resealed(&built, repeated.as_bytes());
    let error = decrypt_blinded_transaction(&envelope, &reveal).unwrap_err();
    assert_eq!(error.message(), "failed to decode blinded transaction payload");
}

#[test]
fn ranks_of_the_chain_are_the_committee() {
    let alice = Wallet::from_seed("ranks-alice");
    let mut ledger = chain_of(&alice, &[]);
    next_block(&mut ledger, &alice);
    next_block(&mut ledger, &alice);
    let ranks = ledger.burn_leader_ranks_for_block(3).unwrap();
    let committee = ledger.reveal_committee_for_next_block();
    assert!(!committee.is_empty());
    let first = ranks.len() - committee.len();
    for (slot, member) in committee.iter().enumerate() {
        let rank = &ranks[first + slot];
        assert_eq!(member.slot as usize, slot);
        assert_eq!((&member.ticket_id, &member.owner), (&rank.ticket_id, &rank.owner));
        assert_eq!((member.rank, member.amount), (rank.rank, rank.amount));
    }
    assert_eq!(ledger.expected_leader_for_next_block().unwrap(), ranks[0].owner);
}

#[test]
fn money_is_held_or_free() {
    let alice = Wallet::from_seed("money-alice");
    let bob = Wallet::from_seed("money-bob");
    let mut ledger = chain_of(&alice, &[&bob]);
    let free = |ledger: &Ledger| -> Amount { ledger.balance_of(alice.address()) + ledger.balance_of(bob.address()) };
    let before = free(&ledger);
    let built = ledger.build_blinded_burn(&bob, 3, 60, 5).unwrap();
    ledger.submit_blinded_transaction(built.transaction.clone()).unwrap();
    next_block(&mut ledger, &alice);
    assert_eq!(free(&ledger) + 10 * MICRO_IUNA + 1, before);
    ledger.submit_blinded_reveal(built.reveal).unwrap();
    next_block(&mut ledger, &alice);
    assert_eq!(free(&ledger) + 3 + 20 + 2, before);
}

#[test]
fn what_is_held_counts_in_a_balance() {
    let alice = Wallet::from_seed("room-alice");
    let bob = Wallet::from_seed("room-bob");
    let carol = Wallet::from_seed("room-carol");
    let mut allocations = SortedMap::new();
    allocations.insert(alice.address().to_string(), 10 * MICRO_IUNA);
    allocations.insert(bob.address().to_string(), Amount::MAX - 5);
    allocations.insert(carol.address().to_string(), 10 * MICRO_IUNA);
    let burns = vec![GenesisBurn::new(alice.address(), MICRO_IUNA)];
    let mut ledger = Ledger::new_with_genesis_burns(allocations, burns, 1).unwrap();
    let built = ledger.build_blinded_burn(&bob, 3, 6, 3).unwrap();
    ledger.submit_blinded_transaction(built.transaction.clone()).unwrap();
    next_block(&mut ledger, &alice);
    assert!(ledger.has_active_blinded_transaction(&built.transaction.commitment));
    assert_eq!(ledger.balance_of(bob.address()), 0);

    let elsewhere = chain_of(&alice, &[&bob, &carol]);
    let payment = elsewhere.build_transfer(&carol, bob.address(), 10, 0).unwrap();
    let overflow = format!("balance overflow for {}", bob.address());
    let error = ledger.build_transfer(&carol, bob.address(), 10, 0).unwrap_err();
    assert_eq!(error.message(), overflow);
    let mut paying = ledger.clone();
    let burn = paying.build_burn(&alice, 1, 0).unwrap();
    paying.submit_transaction(burn).unwrap();
    let timestamp_ms = paying.tip().timestamp_ms + 1;
    let mut block = paying
        .prepare_next_block_with_reveal_bundles(alice.address(), timestamp_ms, Vec::new())
        .unwrap()
        .finish(&alice, "served".to_string());
    block.transactions.push(payment.clone());
    let error = paying.apply_preverified_block_at(block.sealed(), u64::MAX).unwrap_err();
    assert_eq!(error.message(), overflow);

    let error = ledger.submit_transaction(payment).unwrap_err();
    assert_eq!(error.message(), overflow);
    next_block(&mut ledger, &alice);
    assert_eq!(ledger.height(), 2);
    assert_eq!(ledger.balance_of(bob.address()), 0);
    next_block(&mut ledger, &alice);
    assert_eq!(ledger.height(), 3);
    assert_eq!(ledger.balance_of(bob.address()), Amount::MAX - 5);
}
