//! A block that a ledger prepares is one that the ledger accepts.
use crate::block;
use crate::block::BlockView;
use crate::blocks;
use crate::blocks::MAX_BLOCK_TIMESTAMP_FUTURE_DRIFT_MS;
use crate::blinded;
use crate::blinded::{ActiveBlindedTransactionView, BlindedTransactionView, RevealBundleView};
use crate::crypto;
use crate::document;
use crate::error;
use crate::held;
use crate::hex;
use crate::ledger;
use crate::ledger::LedgerView;
use crate::locks;
use crate::locks::HoldingsView;
use crate::mempool;
use crate::model;
use crate::proposals;
use crate::proposals::PreparedBlockView;
use crate::replay;
use crate::rewards;
use crate::selection;
use crate::selection::{BlockSelectionView, WantedView};
use crate::sorted;
use crate::tickets;
use crate::tickets::BurnTicketView;
use crate::transaction::TransactionView;
use crate::utxo;
use crate::utxo::UtxosView;
use crate::vdf;
use crate::wallet;
use vstd::prelude::*;
use vstd::utf8::*;

verus! {

/// How many of the transactions have a signature.
pub open spec fn signed_times(transactions: Seq<TransactionView>, signature: Seq<char>) -> nat
    decreases transactions.len(),
{
    if transactions.len() == 0 {
        0
    } else {
        signed_times(transactions.drop_last(), signature) + if transactions.last().signature() == signature {
            1nat
        } else {
            0nat
        }
    }
}

/// How many of the envelopes have a commitment.
pub open spec fn sealed_times(envelopes: Seq<BlindedTransactionView>, commitment: Seq<char>) -> nat
    decreases envelopes.len(),
{
    if envelopes.len() == 0 {
        0
    } else {
        sealed_times(envelopes.drop_last(), commitment) + if envelopes.last().commitment == commitment {
            1nat
        } else {
            0nat
        }
    }
}

/// Whether an envelope is neither active nor in a block.
pub open spec fn is_new_envelope(l: LedgerView, t: BlindedTransactionView) -> bool {
    sorted::lookup(l.active_blinded, t.commitment) is None && !ledger::blinded_in_blocks(l.chain, t.commitment)
}

/// Whether nothing waits twice, and no envelope waits that a block holds.
pub open spec fn tidy(l: LedgerView) -> bool {
    &&& forall|s: Seq<char>| #[trigger] signed_times(l.pending, s) + signed_times(l.orphans, s) <= 1
    &&& forall|c: Seq<char>| #[trigger] sealed_times(l.pending_blinded, c) <= 1
    &&& forall|i: int|
        0 <= i < l.pending_blinded.len() ==> is_new_envelope(l, #[trigger] l.pending_blinded[i])
}

/// Whether every ticket has an id of its own.
pub open spec fn own_ids(held: Seq<BurnTicketView>) -> bool {
    forall|i: int, k: int| 0 <= i < k < held.len() ==> (#[trigger] held[i]).id != (#[trigger] held[k]).id
}

proof fn signed_times_of_none(transactions: Seq<TransactionView>, signature: Seq<char>)
    ensures
        signed_times(transactions, signature) == 0 <==> ledger::with_signature(transactions, signature) is None,
    decreases transactions.len(),
{
    if transactions.len() > 0 {
        signed_times_of_none(transactions.drop_last(), signature);
    }
}

proof fn signed_times_push(transactions: Seq<TransactionView>, t: TransactionView, signature: Seq<char>)
    ensures
        signed_times(transactions.push(t), signature) == signed_times(transactions, signature) + if t.signature()
            == signature {
            1nat
        } else {
            0nat
        },
{
    assert(transactions.push(t).drop_last() =~= transactions);
}

proof fn signed_times_remove(transactions: Seq<TransactionView>, n: int, signature: Seq<char>)
    requires
        0 <= n < transactions.len(),
    ensures
        signed_times(transactions, signature) == signed_times(transactions.remove(n), signature) + if transactions[n].signature()
            == signature {
            1nat
        } else {
            0nat
        },
    decreases transactions.len(),
{
    if n == transactions.len() - 1 {
        assert(transactions.remove(n) =~= transactions.drop_last());
    } else {
        signed_times_remove(transactions.drop_last(), n, signature);
        assert(transactions.remove(n).drop_last() =~= transactions.drop_last().remove(n));
        assert(transactions.remove(n).last() == transactions.last());
    }
}

proof fn signed_times_add(a: Seq<TransactionView>, b: Seq<TransactionView>, signature: Seq<char>)
    ensures
        signed_times(a + b, signature) == signed_times(a, signature) + signed_times(b, signature),
    decreases b.len(),
{
    if b.len() == 0 {
        assert(a + b =~= a);
    } else {
        signed_times_add(a, b.drop_last(), signature);
        assert((a + b).drop_last() =~= a + b.drop_last());
    }
}

proof fn signed_times_filter(transactions: Seq<TransactionView>, p: spec_fn(TransactionView) -> bool, signature: Seq<char>)
    ensures
        signed_times(transactions.filter(p), signature) <= signed_times(transactions, signature),
    decreases transactions.len(),
{
    reveal(Seq::filter);
    if transactions.len() > 0 {
        signed_times_filter(transactions.drop_last(), p, signature);
        signed_times_push(transactions.drop_last().filter(p), transactions.last(), signature);
    }
}

proof fn sealed_times_of_none(envelopes: Seq<BlindedTransactionView>, commitment: Seq<char>)
    ensures
        sealed_times(envelopes, commitment) == 0 <==> !ledger::commits(envelopes, commitment),
    decreases envelopes.len(),
{
    if envelopes.len() > 0 {
        sealed_times_of_none(envelopes.drop_last(), commitment);
        if ledger::commits(envelopes, commitment) {
            let i = choose|i: int| 0 <= i < envelopes.len() && (#[trigger] envelopes[i]).commitment == commitment;
            if i < envelopes.len() - 1 {
                assert(envelopes.drop_last()[i].commitment == commitment);
            }
        }
        if ledger::commits(envelopes.drop_last(), commitment) {
            let i = choose|i: int|
                0 <= i < envelopes.len() - 1 && (#[trigger] envelopes.drop_last()[i]).commitment == commitment;
            assert(envelopes[i].commitment == commitment);
        }
        if envelopes.last().commitment == commitment {
            assert(envelopes[envelopes.len() - 1].commitment == commitment);
        }
    }
}

proof fn sealed_times_push(envelopes: Seq<BlindedTransactionView>, t: BlindedTransactionView, commitment: Seq<char>)
    ensures
        sealed_times(envelopes.push(t), commitment) == sealed_times(envelopes, commitment) + if t.commitment
            == commitment {
            1nat
        } else {
            0nat
        },
{
    assert(envelopes.push(t).drop_last() =~= envelopes);
}

proof fn sealed_times_remove(envelopes: Seq<BlindedTransactionView>, n: int, commitment: Seq<char>)
    requires
        0 <= n < envelopes.len(),
    ensures
        sealed_times(envelopes, commitment) == sealed_times(envelopes.remove(n), commitment) + if envelopes[n].commitment
            == commitment {
            1nat
        } else {
            0nat
        },
    decreases envelopes.len(),
{
    if n == envelopes.len() - 1 {
        assert(envelopes.remove(n) =~= envelopes.drop_last());
    } else {
        sealed_times_remove(envelopes.drop_last(), n, commitment);
        assert(envelopes.remove(n).drop_last() =~= envelopes.drop_last().remove(n));
        assert(envelopes.remove(n).last() == envelopes.last());
    }
}

proof fn sealed_times_filter(
    envelopes: Seq<BlindedTransactionView>,
    p: spec_fn(BlindedTransactionView) -> bool,
    commitment: Seq<char>,
)
    ensures
        sealed_times(envelopes.filter(p), commitment) <= sealed_times(envelopes, commitment),
    decreases envelopes.len(),
{
    reveal(Seq::filter);
    if envelopes.len() > 0 {
        sealed_times_filter(envelopes.drop_last(), p, commitment);
        sealed_times_push(envelopes.drop_last().filter(p), envelopes.last(), commitment);
    }
}

/// What a pass finds to apply is on its terms, and nothing is found or left twice.
proof fn pass_is_sound(l: LedgerView, remaining: Seq<TransactionView>, u: UtxosView, signature: Seq<char>)
    ensures
        ({
            let (valid, left, v) = l.pass(remaining, u);
            &&& signed_times(valid, signature) + signed_times(left, signature) == signed_times(
                remaining,
                signature,
            )
            &&& forall|i: int| 0 <= i < valid.len() ==> l.terms_check(#[trigger] valid[i]) is Ok
        }),
    decreases remaining.len(),
{
    if remaining.len() > 0 {
        pass_is_sound(l, remaining.drop_last(), u, signature);
        let (valid, left, v) = l.pass(remaining.drop_last(), u);
        signed_times_push(valid, remaining.last(), signature);
        signed_times_push(left, remaining.last(), signature);
    }
}

proof fn applicable_is_sound(l: LedgerView, remaining: Seq<TransactionView>, u: UtxosView, signature: Seq<char>)
    ensures
        ({
            let found = l.applicable(remaining, u);
            &&& signed_times(found, signature) <= signed_times(remaining, signature)
            &&& forall|i: int| 0 <= i < found.len() ==> l.terms_check(#[trigger] found[i]) is Ok
        }),
    decreases remaining.len(),
{
    pass_is_sound(l, remaining, u, signature);
    let (valid, left, v) = l.pass(remaining, u);
    if !(remaining.len() == 0 || valid.len() == 0 || left.len() >= remaining.len()) {
        applicable_is_sound(l, left, v, signature);
        let more = l.applicable(left, v);
        signed_times_add(valid, more, signature);
        assert forall|i: int| 0 <= i < (valid + more).len() implies l.terms_check(#[trigger] (valid + more)[i]) is Ok by {
            if i >= valid.len() {
                assert((valid + more)[i] == more[i - valid.len()]);
            }
        }
    }
}

/// Whether items are on the terms of the chain and may go into its next block.
pub open spec fn on_terms(l: LedgerView, transactions: Seq<TransactionView>, envelopes: Seq<BlindedTransactionView>) -> bool {
    &&& forall|i: int| 0 <= i < transactions.len() ==> l.terms_check(#[trigger] transactions[i]) is Ok
    &&& forall|i: int|
        0 <= i < envelopes.len() ==> l.includable(#[trigger] envelopes[i]) && is_new_envelope(l, envelopes[i])
}

proof fn filled_is_sound(
    l: LedgerView,
    u: UtxosView,
    remaining: Seq<TransactionView>,
    envelopes: Seq<BlindedTransactionView>,
    s: BlockSelectionView,
    recovery: bool,
    signature: Seq<char>,
    commitment: Seq<char>,
)
    requires
        on_terms(l, remaining, envelopes),
        on_terms(l, s.transactions, s.blinded_transactions),
    ensures
        ({
            let r = l.filled(u, remaining, envelopes, s, recovery);
            &&& on_terms(l, r.transactions, r.blinded_transactions)
            &&& signed_times(r.transactions, signature) <= signed_times(s.transactions, signature) + signed_times(
                remaining,
                signature,
            )
            &&& sealed_times(r.blinded_transactions, commitment) <= sealed_times(s.blinded_transactions, commitment)
                + sealed_times(envelopes, commitment)
        }),
    decreases remaining.len() + envelopes.len(),
{
    let plain = selection::best(remaining, u, WantedView::Any);
    let envelope = selection::best_envelope(envelopes);
    if s.len() < l.launch_profile.max_block_transactions {
        if selection::takes_envelope(remaining, plain, envelopes, envelope) {
            let k = envelope->0;
            if 0 <= k < envelopes.len() {
                let rest = envelopes.remove(k);
                sealed_times_remove(envelopes, k, commitment);
                sealed_times_push(s.blinded_transactions, envelopes[k], commitment);
                filled_is_sound(l, u, remaining, rest, s.with_envelope(envelopes[k]), recovery, signature, commitment);
                filled_is_sound(l, u, remaining, rest, s, recovery, signature, commitment);
            }
        } else if let Some(i) = plain {
            if 0 <= i < remaining.len() {
                let t = remaining[i];
                let rest = remaining.remove(i);
                signed_times_remove(remaining, i, signature);
                signed_times_push(s.transactions, t, signature);
                filled_is_sound(
                    l,
                    utxo::applied(t, u).0,
                    rest,
                    envelopes,
                    s.with_plain(t),
                    recovery,
                    signature,
                    commitment,
                );
                filled_is_sound(l, u, rest, envelopes, s, recovery, signature, commitment);
            }
        }
    }
}

/// The items chosen for a block of a tidy ledger are on its terms, and none is chosen twice.
pub proof fn chosen_items_are_sound(l: LedgerView, first: WantedView, recovery: bool, signature: Seq<char>, commitment: Seq<char>)
    requires
        tidy(l),
    ensures
        ({
            let r = l.chosen_items(first, recovery);
            &&& on_terms(l, r.transactions, r.blinded_transactions)
            &&& signed_times(r.transactions, signature) <= 1
            &&& sealed_times(r.blinded_transactions, commitment) <= 1
        }),
{
    let remaining = l.valid_pending();
    let p = |t: BlindedTransactionView| l.includable(t);
    let envelopes = l.includable_envelopes();
    applicable_is_sound(l, l.pending, l.utxos, signature);
    sealed_times_filter(l.pending_blinded, p, commitment);
    assert(envelopes == l.pending_blinded.filter(p));
    assert(signed_times(l.pending, signature) + signed_times(l.orphans, signature) <= 1);
    assert(sealed_times(l.pending_blinded, commitment) <= 1);
    assert forall|i: int| 0 <= i < envelopes.len() implies l.includable(#[trigger] envelopes[i]) && is_new_envelope(
        l,
        envelopes[i],
    ) by {
        model::filter_keeps(l.pending_blinded, p, i);
    }
    let none = selection::nothing();
    selection::best_is_there(remaining, l.utxos, first);
    match selection::best(remaining, l.utxos, first) {
        None => filled_is_sound(l, l.utxos, remaining, envelopes, none, recovery, signature, commitment),
        Some(i) => {
            let t = remaining[i];
            let rest = remaining.remove(i);
            signed_times_remove(remaining, i, signature);
            signed_times_push(none.transactions, t, signature);
            assert(on_terms(l, rest, envelopes));
            filled_is_sound(
                l,
                utxo::applied(t, l.utxos).0,
                rest,
                envelopes,
                none.with_plain(t),
                recovery,
                signature,
                commitment,
            );
            filled_is_sound(l, l.utxos, rest, envelopes, none, recovery, signature, commitment);
        },
    }
}

proof fn transactions_are_accepted(l: LedgerView, transactions: Seq<TransactionView>, u: UtxosView)
    requires
        mempool::apply_all(transactions, u) is Ok,
        selection::all_have_room(l, transactions, u),
        forall|i: int| 0 <= i < transactions.len() ==> l.terms_check(#[trigger] transactions[i]) is Ok,
        forall|s: Seq<char>| #[trigger] signed_times(transactions, s) <= 1,
    ensures
        blocks::after_transactions(l, transactions, u) == mempool::apply_all(transactions, u),
    decreases transactions.len(),
{
    if transactions.len() > 0 {
        let t = transactions.last();
        assert forall|s: Seq<char>| #[trigger] signed_times(transactions.drop_last(), s) <= 1 by {
            assert(signed_times(transactions, s) <= 1);
        }
        transactions_are_accepted(l, transactions.drop_last(), u);
        assert(signed_times(transactions, t.signature()) <= 1);
        signed_times_of_none(transactions.drop_last(), t.signature());
        assert(l.terms_check(transactions[transactions.len() - 1]) is Ok);
    }
}

proof fn envelopes_are_accepted(l: LedgerView, envelopes: Seq<BlindedTransactionView>, height: u64)
    requires
        forall|i: int|
            0 <= i < envelopes.len() ==> l.includable(#[trigger] envelopes[i]) && is_new_envelope(l, envelopes[i]),
        forall|c: Seq<char>| #[trigger] sealed_times(envelopes, c) <= 1,
        height == l.height() + 1,
    ensures
        l.envelopes_check(envelopes, height) is Ok,
    decreases envelopes.len(),
{
    if envelopes.len() > 0 {
        let t = envelopes.last();
        assert forall|c: Seq<char>| #[trigger] sealed_times(envelopes.drop_last(), c) <= 1 by {
            assert(sealed_times(envelopes, c) <= 1);
        }
        envelopes_are_accepted(l, envelopes.drop_last(), height);
        assert(sealed_times(envelopes, t.commitment) <= 1);
        sealed_times_of_none(envelopes.drop_last(), t.commitment);
        assert(l.includable(envelopes[envelopes.len() - 1]));
    }
}

proof fn first_place_is_there(ranked: Seq<BurnTicketView>, owner: Seq<char>)
    ensures
        proposals::place_of_owner(ranked, owner) matches Some(i) ==> 0 <= i < ranked.len() && ranked[i].owner == owner,
    decreases ranked.len(),
{
    if ranked.len() > 0 {
        first_place_is_there(ranked.drop_last(), owner);
    }
}

proof fn ticket_is_pending(held: Seq<BurnTicketView>, n: int, height: u64)
    requires
        own_ids(held),
        0 <= n < held.len(),
        held[n].eligible(height),
    ensures
        tickets::pending_ticket(held, held[n].id, height) == Some(n),
    decreases held.len(),
{
    let id = held[n].id;
    let rest = held.drop_last();
    assert(own_ids(rest)) by {
        assert forall|i: int, k: int| 0 <= i < k < rest.len() implies (#[trigger] rest[i]).id != (#[trigger] rest[k]).id by {
            assert(held[i].id != held[k].id);
        }
    }
    if n < held.len() - 1 {
        assert(rest[n] == held[n]);
        ticket_is_pending(rest, n, height);
    } else {
        tickets::pending_ticket_is_there(rest, id, height);
        if let Some(k) = tickets::pending_ticket(rest, id, height) {
            assert(rest[k] == held[k]);
            assert(held[k].id != held[n].id);
        }
    }
}

proof fn tickets_are_created(height: u64, transactions: Seq<TransactionView>, l: LedgerView)
    requires
        height + l.launch_profile.ticket_maturity_delay_heights + l.launch_profile.ticket_expiry_window_heights
            <= u64::MAX,
        l.launch_profile.ticket_expiry_window_heights > 0,
    ensures
        tickets::created_tickets(height, transactions, l.launch_profile) is Ok,
    decreases transactions.len(),
{
    if transactions.len() > 0 {
        tickets_are_created(height, transactions.drop_last(), l);
    }
}

/// Whether a seed signs as `ed25519_dalek` does with the seed of a wallet: its key is a key, and
/// its signature of a text verifies.
pub open spec fn signs(seed: Seq<u8>, payload: Seq<char>) -> bool {
    let key = crypto::ed25519_public_key(seed);
    let signature = crypto::ed25519_signature(seed, encode_utf8(payload));
    &&& key.len() == 32
    &&& crypto::ed25519_is_key(key)
    &&& signature.len() == 64
    &&& crypto::ed25519_verifies(key, encode_utf8(payload), signature)
}

/// Whether the reveals of a block can be had in it: there is room for them, each opens an envelope
/// that was not opened before, and what they open still applies after the transactions.
pub open spec fn reveals_apply(l: LedgerView, b: BlockView, h: HoldingsView) -> bool {
    b.all_reveals().len() > 0 ==> {
        &&& b.transactions.len() + b.blinded_transactions.len() + b.all_reveals().len()
            <= l.launch_profile.max_block_transactions
        &&& error::first_refusal(b.all_reveals(), l.reveal_check()) is Ok
        &&& blocks::after_reveals(l, b.all_reveals(), b.miner, b.reveal_bundles.len(), h) is Ok
    }
}

/// What a finished block needs besides being prepared well: its text fits the byte limit, its
/// reveals apply, its reward and its tickets are no overflow, its time has come and its delay was
/// served.
pub open spec fn may_close(l: LedgerView, b: BlockView, verify: bool, now_ms: u64) -> bool {
    &&& l.launch_profile.max_block_transactions > 0
    &&& document::size_of(document::block_doc(b)) <= l.launch_profile.max_block_bytes
    &&& l.after_including(b) matches Ok(h) ==> reveals_apply(l, b, h) && (blocks::after_reveals(
        l,
        b.all_reveals(),
        b.miner,
        b.reveal_bundles.len(),
        h,
    ) matches Ok((g, _)) ==> (match rewards::with_reward(g.free, b) {
        Err(_) => false,
        Ok(w) => locks::room_check(w, g.locked) is Ok,
    }))
    &&& l.launch_profile.ticket_expiry_window_heights > 0
    &&& b.height + l.launch_profile.ticket_maturity_delay_heights + l.launch_profile.ticket_expiry_window_heights
        <= u64::MAX
    &&& b.timestamp_ms <= now_ms + MAX_BLOCK_TIMESTAMP_FUTURE_DRIFT_MS
    &&& verify ==> vdf::solution_verifies(b.vdf_seed(), b.vdf_rounds, b.vdf_output)
}

/// A block of chosen items that its finalizer may finalize, apart from when and on what.
pub open spec fn well_made(l: LedgerView, b: BlockView, first: WantedView, recovery: bool) -> bool {
    &&& b.height == l.next_height()
    &&& b.prev_hash == l.tip().hash
    &&& b.hash == b.computed_hash()
    &&& b.transactions == l.chosen_items(first, recovery).transactions
    &&& b.blinded_transactions == l.chosen_items(first, recovery).blinded_transactions
    &&& l.bundles_check(b.height, b.prev_hash, b.reveal_bundles) is Ok
    &&& rewards::reward_of(b.transactions) == Ok::<u64, Seq<char>>(b.reward)
    &&& l.owed_rounds(b) == Ok::<u64, Seq<char>>(b.vdf_rounds)
    &&& proposals::has_burn(b.transactions)
    &&& b.timestamp_ms > l.tip().timestamp_ms
    &&& l.slot_check(b) is Ok
    &&& l.finalizer_check(b) is Ok
    &&& tickets::tickets_after(b, l.tickets) is Ok
}

proof fn chosen_transactions_apply(l: LedgerView, b: BlockView, first: WantedView, recovery: bool)
    requires
        locks::fit_together(l.utxos, l.locked),
        tidy(l),
        b.transactions == l.chosen_items(first, recovery).transactions,
    ensures
        mempool::apply_all(b.transactions, l.utxos) is Ok,
        blocks::after_transactions(l, b.transactions, l.utxos) == mempool::apply_all(b.transactions, l.utxos),
{
    selection::chosen_items_fit(l, first, recovery);
    assert forall|s: Seq<char>| #[trigger] signed_times(b.transactions, s) <= 1 by {
        chosen_items_are_sound(l, first, recovery, s, Seq::<char>::empty());
    }
    chosen_items_are_sound(l, first, recovery, Seq::<char>::empty(), Seq::<char>::empty());
    transactions_are_accepted(l, b.transactions, l.utxos);
}

proof fn well_made_block_passes(l: LedgerView, b: BlockView, first: WantedView, recovery: bool, verify: bool, now_ms: u64)
    requires
        locks::fit_together(l.utxos, l.locked),
        l.valid(),
        tidy(l),
        l.chain.len() <= u64::MAX,
        well_made(l, b, first, recovery),
        may_close(l, b, verify, now_ms),
    ensures
        l.precheck(b, now_ms) == Ok::<bool, Seq<char>>(true),
{
    selection::chosen_items_fit(l, first, recovery);
    chosen_transactions_apply(l, b, first, recovery);
    assert forall|c: Seq<char>| #[trigger] sealed_times(b.blinded_transactions, c) <= 1 by {
        chosen_items_are_sound(l, first, recovery, Seq::<char>::empty(), c);
    }
    chosen_items_are_sound(l, first, recovery, Seq::<char>::empty(), Seq::<char>::empty());
    envelopes_are_accepted(l, b.blinded_transactions, b.height);
    blocks::median_is_in_the_middle(l.chain, l.chain.len() - 1);
    assert(error::first_refusal(b.all_reveals(), l.reveal_check()) is Ok);
    assert(l.header_check(b) is Ok);
    assert(l.time_check(b, now_ms) is Ok);
    assert(l.limits_check(b) is Ok);
    assert(l.content_check(b) is Ok);
}

proof fn chosen_items_are_included(l: LedgerView, b: BlockView, first: WantedView, recovery: bool)
    requires
        locks::fit_together(l.utxos, l.locked),
        tidy(l),
        b.transactions == l.chosen_items(first, recovery).transactions,
        b.blinded_transactions == l.chosen_items(first, recovery).blinded_transactions,
    ensures
        l.after_including(b) is Ok,
{
    chosen_transactions_apply(l, b, first, recovery);
    selection::chosen_items_fit(l, first, recovery);
    let u = mempool::apply_all(b.transactions, l.utxos)->Ok_0;
    assert(l.selection_locks(u, l.chosen_items(first, recovery)));
}

#[verifier::spinoff_prover]
proof fn closing_block_has_effects(l: LedgerView, b: BlockView, verify: bool, now_ms: u64)
    requires
        l.valid(),
        l.after_including(b) is Ok,
        tickets::tickets_after(b, l.tickets) is Ok,
        may_close(l, b, verify, now_ms),
    ensures
        l.block_effects(b) is Ok,
{
    held::expiry_refuses_no_block(l, b);
    let h = l.after_including(b)->Ok_0;
    let opened = blocks::after_reveals(l, b.all_reveals(), b.miner, b.reveal_bundles.len(), h);
    assert(opened is Ok);
    let (g, revealed) = opened->Ok_0;
    let w = rewards::with_reward(g.free, b)->Ok_0;
    assert(rewards::with_reward(g.free, b) is Ok);
    assert(l.after_expiry(b, (HoldingsView { free: w, locked: g.locked })) is Ok);
    tickets_are_created(b.height, b.transactions, l);
    tickets_are_created(b.height, revealed, l);
}

proof fn well_made_block_has_effects(l: LedgerView, b: BlockView, first: WantedView, recovery: bool, verify: bool, now_ms: u64)
    requires
        l.valid(),
        tidy(l),
        well_made(l, b, first, recovery),
        may_close(l, b, verify, now_ms),
    ensures
        l.block_effects(b) is Ok,
{
    chosen_items_are_included(l, b, first, recovery);
    closing_block_has_effects(l, b, verify, now_ms);
}

proof fn well_made_block_is_accepted(l: LedgerView, b: BlockView, first: WantedView, recovery: bool, verify: bool, now_ms: u64)
    requires
        l.valid(),
        tidy(l),
        l.chain.len() <= u64::MAX,
        well_made(l, b, first, recovery),
        may_close(l, b, verify, now_ms),
    ensures
        l.block_applied(b, verify, now_ms).0.chain == l.chain.push(b),
{
    reveal(LedgerView::block_applied);
    well_made_block_passes(l, b, first, recovery, verify, now_ms);
    well_made_block_has_effects(l, b, first, recovery, verify, now_ms);
    let (u, held) = l.block_effects(b)->Ok_0;
    mempool::promotion_only_moves(l.stacked(b, u, held).swept(b));
}

/// The block that a ticket holder prepares comes on top of the chain once its delay was served.
pub proof fn prepared_block_is_accepted(
    l: LedgerView,
    seed: Seq<u8>,
    timestamp_ms: u64,
    bundles: Seq<RevealBundleView>,
    required_burn: Option<Seq<char>>,
    p: PreparedBlockView,
    vdf_output: Seq<char>,
    verify: bool,
    now_ms: u64,
)
    requires
        l.valid(),
        tidy(l),
        own_ids(l.tickets),
        l.chain.len() <= u64::MAX,
        l.prepared(wallet::address_of(seed), timestamp_ms, bundles, required_burn) == Ok::<
            PreparedBlockView,
            Seq<char>,
        >(p),
        p.leader_ticket matches Some(ticket) ==> signs(
            seed,
            (block::LeaderProofPayloadView {
                height: p.height,
                prev_hash: p.prev_hash,
                finalizer_rank: p.finalizer_rank,
                vdf_output,
                ticket_id: ticket.id,
                ticket_amount: ticket.amount,
                ticket_owner: ticket.owner,
            }).canonical(),
        ),
        may_close(l, p.finished(seed, vdf_output, p.timestamp_ms), verify, now_ms),
    ensures
        l.block_applied(p.finished(seed, vdf_output, p.timestamp_ms), verify, now_ms).0.chain == l.chain.push(
            p.finished(seed, vdf_output, p.timestamp_ms),
        ),
{
    let miner = wallet::address_of(seed);
    let b = p.finished(seed, vdf_output, p.timestamp_ms);
    let first = selection::first_burn(required_burn, WantedView::Burn);
    proposals::finished_block_has_its_hash(p, seed, vdf_output, p.timestamp_ms);
    first_place_is_there(l.finalizers(l.next_height()), miner);
    let n = p.finalizer_rank as int;
    let ticket = l.finalizers(l.next_height())[n];
    assert(p.leader_ticket == Some(ticket));
    tickets::finalizers_hold_eligible_tickets(l.tip(), l.next_height(), l.tickets, n);
    let k = choose|k: int| 0 <= k < l.tickets.len() && l.tickets[k] == ticket;
    ticket_is_pending(l.tickets, k, l.next_height());
    let payload = block::LeaderProofPayloadView {
        height: p.height,
        prev_hash: p.prev_hash,
        finalizer_rank: p.finalizer_rank,
        vdf_output,
        ticket_id: ticket.id,
        ticket_amount: ticket.amount,
        ticket_owner: ticket.owner,
    };
    hex::decode_encode(crypto::ed25519_public_key(seed));
    hex::decode_encode(crypto::ed25519_signature(seed, encode_utf8(payload.canonical())));
    assert(tickets::leader_proof_check(b, l.tickets) is Ok);
    assert(l.finalizer_check(b) is Ok);
    well_made_block_is_accepted(l, b, first, false, verify, now_ms);
}

/// The block that anyone prepares when no ticket holder came comes on top of the chain once its
/// delay was served.
pub proof fn prepared_recovery_block_is_accepted(
    l: LedgerView,
    seed: Seq<u8>,
    timestamp_ms: u64,
    bundles: Seq<RevealBundleView>,
    required_burn: Option<Seq<char>>,
    p: PreparedBlockView,
    vdf_output: Seq<char>,
    verify: bool,
    now_ms: u64,
)
    requires
        l.valid(),
        tidy(l),
        l.chain.len() <= u64::MAX,
        l.tip().timestamp_ms < u64::MAX,
        l.prepared_recovery(
            wallet::address_of(seed),
            timestamp_ms,
            bundles,
            required_burn,
        ) == Ok::<PreparedBlockView, Seq<char>>(p),
        may_close(l, p.finished(seed, vdf_output, p.timestamp_ms), verify, now_ms),
    ensures
        l.block_applied(p.finished(seed, vdf_output, p.timestamp_ms), verify, now_ms).0.chain == l.chain.push(
            p.finished(seed, vdf_output, p.timestamp_ms),
        ),
{
    let b = p.finished(seed, vdf_output, p.timestamp_ms);
    let first = selection::first_burn(required_burn, WantedView::BurnFrom(wallet::address_of(seed)));
    proposals::finished_block_has_its_hash(p, seed, vdf_output, p.timestamp_ms);
    well_made_block_is_accepted(l, b, first, true, verify, now_ms);
}

/// Promoting orphans makes nothing wait twice.
proof fn promotion_keeps_tidy(l: LedgerView)
    requires
        tidy(l),
    ensures
        tidy(l.promoted().0),
    decreases l.orphans.len(),
{
    if l.pending.len() < tickets::MAX_PENDING_TRANSACTIONS {
        if let Ok(u) = l.after_pending() {
            if let Some(index) = l.promotable(u, l.orphans.len()).0 {
                if 0 <= index < l.orphans.len() {
                    let m = l.with_promoted(index);
                    assert forall|s: Seq<char>|
                        #[trigger] signed_times(m.pending, s) + signed_times(m.orphans, s) <= 1 by {
                        signed_times_push(l.pending, l.orphans[index], s);
                        signed_times_remove(l.orphans, index, s);
                        assert(signed_times(l.pending, s) + signed_times(l.orphans, s) <= 1);
                    }
                    assert forall|i: int| 0 <= i < m.pending_blinded.len() implies is_new_envelope(
                        m,
                        #[trigger] m.pending_blinded[i],
                    ) by {
                        assert(is_new_envelope(l, l.pending_blinded[i]));
                    }
                    promotion_keeps_tidy(m);
                }
            }
        }
    }
}

/// Submitting a transaction, an envelope or a reveal keeps a ledger tidy.
pub proof fn submitting_keeps_tidy(
    l: LedgerView,
    t: TransactionView,
    envelope: BlindedTransactionView,
    reveal: blinded::BlindedRevealView,
)
    requires
        tidy(l),
    ensures
        tidy(l.submitted(t).0),
        tidy(l.blinded_submitted(envelope).0),
        tidy(l.reveal_submitted(reveal).0),
{
    reveal(LedgerView::submitted);
    if !l.knows_transaction(t.signature()) {
        let waiting = LedgerView { pending: l.pending.push(t), ..l };
        let orphaned = LedgerView { orphans: l.orphans.push(t), ..l };
        signed_times_of_none(l.pending, t.signature());
        signed_times_of_none(l.orphans, t.signature());
        assert forall|s: Seq<char>|
            #[trigger] signed_times(waiting.pending, s) + signed_times(waiting.orphans, s) <= 1 by {
            signed_times_push(l.pending, t, s);
            assert(signed_times(l.pending, s) + signed_times(l.orphans, s) <= 1);
        }
        assert forall|s: Seq<char>|
            #[trigger] signed_times(orphaned.pending, s) + signed_times(orphaned.orphans, s) <= 1 by {
            signed_times_push(l.orphans, t, s);
            assert(signed_times(l.pending, s) + signed_times(l.orphans, s) <= 1);
        }
        assert forall|i: int| 0 <= i < l.pending_blinded.len() implies is_new_envelope(
            waiting,
            #[trigger] l.pending_blinded[i],
        ) && is_new_envelope(orphaned, l.pending_blinded[i]) by {
            assert(is_new_envelope(l, l.pending_blinded[i]));
        }
        assert(tidy(waiting));
        assert(tidy(orphaned));
        promotion_keeps_tidy(waiting);
    }
    let sealed = LedgerView { pending_blinded: l.pending_blinded.push(envelope), ..l };
    if !l.knows_blinded(envelope.commitment) {
        sealed_times_of_none(l.pending_blinded, envelope.commitment);
        assert forall|c: Seq<char>| #[trigger] sealed_times(sealed.pending_blinded, c) <= 1 by {
            sealed_times_push(l.pending_blinded, envelope, c);
            assert(sealed_times(l.pending_blinded, c) <= 1);
        }
        assert forall|i: int| 0 <= i < sealed.pending_blinded.len() implies is_new_envelope(
            sealed,
            #[trigger] sealed.pending_blinded[i],
        ) by {
            if i < l.pending_blinded.len() {
                assert(is_new_envelope(l, l.pending_blinded[i]));
            }
        }
        assert(tidy(sealed));
    }
    let revealing = LedgerView { pending_reveals: l.pending_reveals.push(reveal), ..l };
    assert forall|i: int| 0 <= i < revealing.pending_blinded.len() implies is_new_envelope(
        revealing,
        #[trigger] revealing.pending_blinded[i],
    ) by {
        assert(is_new_envelope(l, l.pending_blinded[i]));
    }
    assert(tidy(revealing));
}

/// The envelopes of a block become active, and no others do.
proof fn only_included_become_active(
    active: ledger::ActiveView,
    envelopes: Seq<BlindedTransactionView>,
    height: u64,
    miner: Seq<char>,
    commitment: Seq<char>,
)
    requires
        sorted::increasing::<String, ActiveBlindedTransactionView>(active),
        sorted::lookup(active, commitment) is None,
        !ledger::commits(envelopes, commitment),
    ensures
        sorted::increasing::<String, ActiveBlindedTransactionView>(
            replay::including(active, envelopes, height, miner),
        ),
        sorted::lookup(replay::including(active, envelopes, height, miner), commitment) is None,
    decreases envelopes.len(),
{
    if envelopes.len() > 0 {
        let rest = envelopes.drop_last();
        let t = envelopes.last();
        assert(!ledger::commits(rest, commitment)) by {
            if ledger::commits(rest, commitment) {
                let i = choose|i: int| 0 <= i < rest.len() && (#[trigger] rest[i]).commitment == commitment;
                assert(envelopes[i].commitment == commitment);
            }
        }
        assert(envelopes[envelopes.len() - 1].commitment != commitment);
        only_included_become_active(active, rest, height, miner, commitment);
        let entry = ActiveBlindedTransactionView { transaction: t, included_height: height, included_by: miner };
        sorted::with_increasing::<String, ActiveBlindedTransactionView>(
            replay::including(active, rest, height, miner),
            t.commitment,
            entry,
        );
        sorted::read_after_write::<String, ActiveBlindedTransactionView>(
            replay::including(active, rest, height, miner),
            t.commitment,
            entry,
            commitment,
        );
    }
}

/// Filtering the active envelopes activates none.
proof fn filtering_activates_nothing(
    active: ledger::ActiveView,
    p: spec_fn((Seq<char>, ActiveBlindedTransactionView)) -> bool,
    commitment: Seq<char>,
)
    requires
        sorted::increasing::<String, ActiveBlindedTransactionView>(active),
        sorted::lookup(active, commitment) is None,
    ensures
        sorted::lookup(active.filter(p), commitment) is None,
{
    if sorted::lookup(active.filter(p), commitment) is Some {
        let n = sorted::lookup_entry(active.filter(p), commitment);
        model::filter_keeps(active, p, n);
        let k = choose|k: int| 0 <= k < active.len() && #[trigger] active[k] == active.filter(p)[n];
        sorted::lookup_is_entry::<String, ActiveBlindedTransactionView>(active, k);
    }
}

/// Handing in a block keeps a ledger tidy.
pub proof fn blocks_keep_tidy(l: LedgerView, b: BlockView, verify: bool, now_ms: u64)
    requires
        l.valid(),
        tidy(l),
    ensures
        tidy(l.block_applied(b, verify, now_ms).0),
{
    reveal(LedgerView::block_applied);
    if let Ok((u, held)) = l.block_effects(b) {
        let m = l.stacked(b, u, held);
        let swept = m.swept(b);
        assert forall|s: Seq<char>| #[trigger] signed_times(swept.pending, s) + signed_times(swept.orphans, s) <= 1 by {
            signed_times_filter(l.pending, blocks::stays_pending(m, b.transactions), s);
            signed_times_filter(l.orphans, blocks::stays_orphan(m, b.transactions), s);
            assert(signed_times(l.pending, s) + signed_times(l.orphans, s) <= 1);
        }
        let p = blocks::stays_sealed(m, b.blinded_transactions);
        assert forall|c: Seq<char>| #[trigger] sealed_times(swept.pending_blinded, c) <= 1 by {
            sealed_times_filter(l.pending_blinded, p, c);
            assert(sealed_times(l.pending_blinded, c) <= 1);
        }
        assert forall|i: int| 0 <= i < swept.pending_blinded.len() implies is_new_envelope(
            swept,
            #[trigger] swept.pending_blinded[i],
        ) by {
            let t = swept.pending_blinded[i];
            model::filter_keeps(l.pending_blinded, p, i);
            let k = choose|k: int| 0 <= k < l.pending_blinded.len() && #[trigger] l.pending_blinded[k] == t;
            assert(is_new_envelope(l, l.pending_blinded[k]));
            let q = blocks::stays_active(b.all_reveals(), b.height);
            filtering_activates_nothing(l.active_blinded, q, t.commitment);
            sorted::filter_increasing::<String, ActiveBlindedTransactionView>(l.active_blinded, q);
            only_included_become_active(
                l.active_blinded.filter(q),
                b.blinded_transactions,
                b.height,
                b.miner,
                t.commitment,
            );
            if ledger::blinded_in_blocks(swept.chain, t.commitment) {
                let n = choose|n: int|
                    0 <= n < swept.chain.len() && ledger::commits(
                        (#[trigger] swept.chain[n]).blinded_transactions,
                        t.commitment,
                    );
                if n < l.chain.len() {
                    assert(ledger::commits(l.chain[n].blinded_transactions, t.commitment));
                }
            }
        }
        promotion_keeps_tidy(swept);
        let after = swept.promoted().0;
        let retargeted = LedgerView { vdf_rounds: blocks::next_rounds(after.chain, after.vdf_rounds), ..after };
        assert forall|i: int| 0 <= i < after.pending_blinded.len() implies is_new_envelope(
            retargeted,
            #[trigger] after.pending_blinded[i],
        ) by {
            assert(is_new_envelope(after, after.pending_blinded[i]));
        }
    }
}

/// A ledger in which nothing waits is tidy.
pub proof fn quiet_ledger_is_tidy(l: LedgerView)
    requires
        l.pending.len() == 0,
        l.orphans.len() == 0,
        l.pending_blinded.len() == 0,
    ensures
        tidy(l),
{
}

proof fn included_envelope_is_new(l: LedgerView, envelopes: Seq<BlindedTransactionView>, height: u64, n: int)
    requires
        0 <= n < envelopes.len(),
        l.envelopes_check(envelopes, height) is Ok,
    ensures
        is_new_envelope(l, envelopes[n]),
        !ledger::commits(envelopes.take(n), envelopes[n].commitment),
    decreases envelopes.len(),
{
    if n < envelopes.len() - 1 {
        included_envelope_is_new(l, envelopes.drop_last(), height, n);
        assert(envelopes.drop_last().take(n) =~= envelopes.take(n));
    } else {
        assert(envelopes.drop_last() =~= envelopes.take(n));
    }
}

/// No envelope comes on the chain twice, and none is opened twice: an envelope of a block that
/// extends the chain was on no block before, and what the block reveals was revealed by none.
pub proof fn nothing_is_included_twice(l: LedgerView, b: BlockView, verify: bool, now_ms: u64, n: int, k: int)
    requires
        l.block_applied(b, verify, now_ms).0.chain != l.chain,
    ensures
        0 <= n < b.blinded_transactions.len() ==> is_new_envelope(l, b.blinded_transactions[n]) && !ledger::commits(
            b.blinded_transactions.take(n),
            b.blinded_transactions[n].commitment,
        ),
        0 <= k < b.all_reveals().len() ==> !ledger::revealed_in_blocks(l.chain, b.all_reveals()[k].commitment),
{
    reveal(LedgerView::block_applied);
    assert(l.content_check(b) is Ok);
    if 0 <= n < b.blinded_transactions.len() {
        included_envelope_is_new(l, b.blinded_transactions, b.height, n);
    }
    if 0 <= k < b.all_reveals().len() {
        error::no_refusal(b.all_reveals(), l.reveal_check());
        assert(l.reveal_check()(b.all_reveals()[k]) is Ok);
    }
}

/// A ticket finalizes one block: once it was used, it is gone.
pub proof fn used_ticket_is_gone(b: BlockView, held: Seq<BurnTicketView>, n: int)
    requires
        own_ids(held),
        tickets::consumed(b, held) is Ok,
        0 <= n < (tickets::consumed(b, held)->Ok_0).len(),
    ensures
        (tickets::consumed(b, held)->Ok_0)[n].id != (b.leader_proof->0).ticket_id,
{
    let id = (b.leader_proof->0).ticket_id;
    let index = tickets::pending_ticket(held, id, b.height)->0;
    tickets::pending_ticket_is_there(held, id, b.height);
    let rest = held.remove(index);
    let p = tickets::outlives(b.height, false);
    model::filter_keeps(rest, p, n);
    let k = choose|k: int| 0 <= k < rest.len() && #[trigger] rest[k] == rest.filter(p)[n];
    if k < index {
        assert(rest[k] == held[k]);
        assert(held[k].id != held[index].id);
    } else {
        assert(rest[k] == held[k + 1]);
        assert(held[index].id != held[k + 1].id);
    }
}

} // verus!
