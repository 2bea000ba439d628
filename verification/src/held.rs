//! Every active envelope holds the outputs that it names, and no two hold the same.
use crate::blinded::{ActiveBlindedTransactionView, BlindedRevealView, BlindedTransactionView};
use crate::block;
use crate::block::BlockView;
use crate::blocks;
use crate::ledger::{ActiveView, LedgerView};
use crate::locks;
use crate::locks::HoldingsView;
use crate::model;
use crate::replay;
use crate::rewards;
use crate::sealing;
use crate::sorted;
use crate::tickets::BurnTicketView;
use crate::transaction::{OutPointView, TxInputView};
use crate::utxo;
use crate::utxo::UtxosView;
use vstd::prelude::*;

verus! {

/// Whether every output that inputs name is held.
pub open spec fn holds(inputs: Seq<TxInputView>, locked: UtxosView) -> bool {
    forall|k: OutPointView| #[trigger] utxo::spends(inputs, k) ==> sorted::lookup(locked, k) is Some
}

/// Whether no output is named twice.
pub open spec fn distinct(inputs: Seq<TxInputView>) -> bool {
    forall|i: int, j: int|
        0 <= i < j < inputs.len() ==> (#[trigger] inputs[i]).outpoint != (#[trigger] inputs[j]).outpoint
}

/// Whether every active envelope names different outputs and holds them, and no two hold the same.
#[verifier::opaque]
pub open spec fn all_held(active: ActiveView, locked: UtxosView) -> bool {
    &&& forall|c: Seq<char>|
        (#[trigger] sorted::lookup(active, c)) matches Some(a) ==> holds(a.transaction.inputs, locked) && distinct(
            a.transaction.inputs,
        )
    &&& forall|c: Seq<char>, d: Seq<char>, k: OutPointView|
        #![trigger sorted::lookup(active, c), sorted::lookup(active, d), names(active, c, k)]
        c != d && names(active, c, k) ==> !names(active, d, k)
}

/// Whether the active envelope of a commitment names an output.
pub open spec fn names(active: ActiveView, c: Seq<char>, k: OutPointView) -> bool {
    sorted::lookup(active, c) matches Some(a) && utxo::spends(a.transaction.inputs, k)
}

/// Nothing is active, so nothing need be held.
pub proof fn nothing_active_is_held(active: ActiveView, locked: UtxosView)
    requires
        active.len() == 0,
    ensures
        all_held(active, locked),
{
    reveal(all_held);
    assert forall|c: Seq<char>| (#[trigger] sorted::lookup(active, c)) is None by {
        sorted::lookup_absent(active, c);
    }
}

/// What envelopes name that a block includes was not held before.
proof fn included_were_free(envelopes: Seq<BlindedTransactionView>, h: HoldingsView, k: OutPointView)
    requires
        h.valid(),
        locks::lock_all(envelopes, h) is Ok,
        locks::reserves(envelopes, k),
    ensures
        sorted::lookup(h.locked, k) is None,
    decreases envelopes.len(),
{
    let earlier = envelopes.drop_last();
    let n = choose|n: int| 0 <= n < envelopes.len() && utxo::spends((#[trigger] envelopes[n]).inputs, k);
    locks::including_moves_money(earlier, h);
    let g = locks::lock_all(earlier, h)->Ok_0;
    if locks::reserves(earlier, k) {
        included_were_free(earlier, h, k);
    } else {
        if n < earlier.len() {
            assert(utxo::spends(earlier[n].inputs, k));
        }
        locks::others_are_left(earlier, h, k);
        locked_were_free(envelopes.last().inputs, g, k);
    }
}

proof fn locked_were_free(inputs: Seq<TxInputView>, h: HoldingsView, k: OutPointView)
    requires
        h.valid(),
        locks::lock(inputs, h) is Ok,
        utxo::spends(inputs, k),
    ensures
        sorted::lookup(h.locked, k) is None,
    decreases inputs.len(),
{
    let earlier = inputs.drop_last();
    locks::spends_one_more(inputs, k);
    locks::locking_takes_what_is_named(earlier, h);
    if utxo::spends(earlier, k) {
        locked_were_free(earlier, h, k);
    }
}

/// No two envelopes that a block includes name the same output.
proof fn included_are_apart(envelopes: Seq<BlindedTransactionView>, h: HoldingsView, m: int, n: int, k: OutPointView)
    requires
        h.valid(),
        locks::lock_all(envelopes, h) is Ok,
        0 <= m < n < envelopes.len(),
        utxo::spends(envelopes[m].inputs, k),
    ensures
        !utxo::spends(envelopes[n].inputs, k),
    decreases envelopes.len(),
{
    let earlier = envelopes.drop_last();
    locks::including_moves_money(earlier, h);
    if n < earlier.len() {
        included_are_apart(earlier, h, m, n, k);
    } else {
        assert(utxo::spends(earlier[m].inputs, k));
        assert(locks::reserves(earlier, k));
        locks::included_envelopes_hold_their_inputs(earlier, h, k);
        let g = locks::lock_all(earlier, h)->Ok_0;
        locks::locking_takes_what_is_named(envelopes.last().inputs, g);
        if utxo::spends(envelopes[n].inputs, k) {
            let inputs = envelopes[n].inputs;
            let i = choose|i: int| 0 <= i < inputs.len() && (#[trigger] inputs[i]).outpoint == k;
            assert(sorted::lookup(g.free, inputs[i].outpoint) is Some);
        }
    }
}

proof fn locked_is_distinct(inputs: Seq<TxInputView>, h: HoldingsView)
    requires
        h.valid(),
        locks::lock(inputs, h) is Ok,
    ensures
        distinct(inputs),
    decreases inputs.len(),
{
    if inputs.len() > 0 {
        let earlier = inputs.drop_last();
        let last = inputs.last().outpoint;
        locked_is_distinct(earlier, h);
        locks::locking_takes_what_is_named(earlier, h);
        let g = locks::lock(earlier, h)->Ok_0;
        assert(sorted::lookup(g.free, last) is Some);
        assert forall|i: int, j: int| 0 <= i < j < inputs.len() implies (#[trigger] inputs[i]).outpoint != (
        #[trigger] inputs[j]).outpoint by {
            assert(earlier[i] == inputs[i]);
            if j < earlier.len() {
                assert(earlier[j] == inputs[j]);
            } else if inputs[i].outpoint == last {
                assert(utxo::spends(earlier, last));
            }
        }
    }
}

/// An envelope that a block includes names different outputs.
proof fn included_is_distinct(envelopes: Seq<BlindedTransactionView>, h: HoldingsView, n: int)
    requires
        h.valid(),
        locks::lock_all(envelopes, h) is Ok,
        0 <= n < envelopes.len(),
    ensures
        distinct(envelopes[n].inputs),
    decreases envelopes.len(),
{
    let earlier = envelopes.drop_last();
    locks::including_moves_money(earlier, h);
    if n < earlier.len() {
        included_is_distinct(earlier, h, n);
    } else {
        locked_is_distinct(envelopes.last().inputs, locks::lock_all(earlier, h)->Ok_0);
    }
}

/// What is held can be released.
proof fn held_is_released(inputs: Seq<TxInputView>, h: HoldingsView)
    requires
        h.valid(),
        holds(inputs, h.locked),
        distinct(inputs),
    ensures
        locks::release(inputs, h) is Ok,
    decreases inputs.len(),
{
    if inputs.len() > 0 {
        let earlier = inputs.drop_last();
        let last = inputs.last().outpoint;
        assert forall|k: OutPointView| #[trigger] utxo::spends(earlier, k) implies sorted::lookup(
            h.locked,
            k,
        ) is Some by {
            locks::spends_one_more(inputs, k);
        }
        assert(distinct(earlier)) by {
            assert forall|i: int, j: int| 0 <= i < j < earlier.len() implies (#[trigger] earlier[i]).outpoint != (
            #[trigger] earlier[j]).outpoint by {
                assert(inputs[i].outpoint != inputs[j].outpoint);
            }
        }
        held_is_released(earlier, h);
        locks::releasing_moves_money(earlier, h);
        locks::spends_one_more(inputs, last);
        assert(!utxo::spends(earlier, last)) by {
            if utxo::spends(earlier, last) {
                let i = choose|i: int| 0 <= i < earlier.len() && (#[trigger] earlier[i]).outpoint == last;
                assert(inputs[i].outpoint == inputs[inputs.len() - 1].outpoint);
            }
        }
    }
}

/// Whether envelopes hold different outputs.
spec fn hold_apart(envelopes: Seq<BlindedTransactionView>, locked: UtxosView) -> bool {
    &&& forall|n: int|
        0 <= n < envelopes.len() ==> holds((#[trigger] envelopes[n]).inputs, locked) && distinct(envelopes[n].inputs)
    &&& forall|m: int, n: int, k: OutPointView|
        0 <= m < n < envelopes.len() && #[trigger] utxo::spends(envelopes[m].inputs, k) ==> !#[trigger] utxo::spends(
            envelopes[n].inputs,
            k,
        )
}

proof fn all_held_are_released(envelopes: Seq<BlindedTransactionView>, h: HoldingsView)
    requires
        h.valid(),
        hold_apart(envelopes, h.locked),
    ensures
        locks::release_all(envelopes, h) is Ok,
    decreases envelopes.len(),
{
    if envelopes.len() > 0 {
        let earlier = envelopes.drop_last();
        let last = envelopes[envelopes.len() - 1];
        assert(hold_apart(earlier, h.locked)) by {
            assert forall|n: int| 0 <= n < earlier.len() implies holds((#[trigger] earlier[n]).inputs, h.locked)
                && distinct(earlier[n].inputs) by {
                assert(envelopes[n] == earlier[n]);
            }
            assert forall|m: int, n: int, k: OutPointView|
                0 <= m < n < earlier.len() && #[trigger] utxo::spends(earlier[m].inputs, k) implies !#[trigger] utxo::spends(
                earlier[n].inputs,
                k,
            ) by {
                assert(utxo::spends(envelopes[m].inputs, k));
                assert(!utxo::spends(envelopes[n].inputs, k));
            }
        }
        all_held_are_released(earlier, h);
        locks::expiring_moves_money(earlier, h);
        let g = locks::release_all(earlier, h)->Ok_0;
        assert forall|k: OutPointView| #[trigger] utxo::spends(last.inputs, k) implies sorted::lookup(
            g.locked,
            k,
        ) is Some by {
            assert(!locks::reserves(earlier, k)) by {
                if locks::reserves(earlier, k) {
                    let m = choose|m: int| 0 <= m < earlier.len() && utxo::spends((#[trigger] earlier[m]).inputs, k);
                    assert(utxo::spends(envelopes[m].inputs, k));
                    assert(utxo::spends(envelopes[envelopes.len() - 1].inputs, k));
                }
            }
            expiry_leaves_the_others(earlier, h, k);
            assert(holds(last.inputs, h.locked));
        }
        held_is_released(last.inputs, g);
    }
}

/// What no revealed envelope names stays held.
proof fn reveals_leave_the_others(
    l: LedgerView,
    reveals: Seq<BlindedRevealView>,
    miner: Seq<char>,
    bundles: nat,
    h: HoldingsView,
    k: OutPointView,
)
    requires
        h.valid(),
        blocks::after_reveals(l, reveals, miner, bundles, h) is Ok,
        forall|i: int| 0 <= i < reveals.len() ==> !names(l.active_blinded, (#[trigger] reveals[i]).commitment, k),
    ensures
        sorted::lookup((blocks::after_reveals(l, reveals, miner, bundles, h)->Ok_0).0.locked, k) == sorted::lookup(
            h.locked,
            k,
        ),
    decreases reveals.len(),
{
    if reveals.len() > 0 {
        let earlier = reveals.drop_last();
        let r = reveals.last();
        assert forall|i: int| 0 <= i < earlier.len() implies !names(
            l.active_blinded,
            (#[trigger] earlier[i]).commitment,
            k,
        ) by {
            assert(earlier[i] == reveals[i]);
        }
        reveals_leave_the_others(l, earlier, miner, bundles, h, k);
        blocks::reveals_keep_balances_fitting(l, earlier, miner, bundles, h);
        let g = (blocks::after_reveals(l, earlier, miner, bundles, h)->Ok_0).0;
        assert(!names(l.active_blinded, reveals[reveals.len() - 1].commitment, k));
        reveal_leaves_the_others(l, r, miner, bundles, g, k);
    }
}

proof fn reveal_leaves_the_others(
    l: LedgerView,
    r: BlindedRevealView,
    miner: Seq<char>,
    bundles: nat,
    h: HoldingsView,
    k: OutPointView,
)
    requires
        h.valid(),
        blocks::after_reveal(l, r, miner, bundles, h) is Ok,
        !names(l.active_blinded, r.commitment, k),
    ensures
        sorted::lookup((blocks::after_reveal(l, r, miner, bundles, h)->Ok_0).0.locked, k) == sorted::lookup(h.locked, k),
{
    reveal(blocks::after_reveal);
    let active = sorted::lookup(l.active_blinded, r.commitment)->0;
    let t = l.opened_active(active, r)->Ok_0;
    sealing::opened_spends_alike(active.transaction, r);
    utxo::alike_spends(t.inputs(), active.transaction.inputs, k);
    locks::releasing_moves_money(t.inputs(), h);
}

/// What no expiring envelope names stays held.
proof fn expiry_leaves_the_others(envelopes: Seq<BlindedTransactionView>, h: HoldingsView, k: OutPointView)
    requires
        h.valid(),
        locks::release_all(envelopes, h) is Ok,
        !locks::reserves(envelopes, k),
    ensures
        sorted::lookup(locks::release_all(envelopes, h)->Ok_0.locked, k) == sorted::lookup(h.locked, k),
    decreases envelopes.len(),
{
    if envelopes.len() > 0 {
        let earlier = envelopes.drop_last();
        assert(!locks::reserves(earlier, k)) by {
            if locks::reserves(earlier, k) {
                let n = choose|n: int| 0 <= n < earlier.len() && utxo::spends((#[trigger] earlier[n]).inputs, k);
                assert(utxo::spends(envelopes[n].inputs, k));
            }
        }
        assert(!utxo::spends(envelopes[envelopes.len() - 1].inputs, k));
        expiry_leaves_the_others(earlier, h, k);
        locks::expiring_moves_money(earlier, h);
        locks::releasing_moves_money(envelopes.last().inputs, locks::release_all(earlier, h)->Ok_0);
    }
}

/// An envelope that passes a filter is an active one.
proof fn filtered_entry(active: ActiveView, p: spec_fn((Seq<char>, ActiveBlindedTransactionView)) -> bool, n: int)
    requires
        sorted::increasing::<String, ActiveBlindedTransactionView>(active),
        0 <= n < active.filter(p).len(),
    ensures
        p(active.filter(p)[n]),
        sorted::lookup(active, active.filter(p)[n].0) == Some(active.filter(p)[n].1),
{
    model::filter_keeps(active, p, n);
    let k = choose|k: int| 0 <= k < active.len() && #[trigger] active[k] == active.filter(p)[n];
    sorted::lookup_is_entry::<String, ActiveBlindedTransactionView>(active, k);
}

/// What a block leaves active was active and stays, or is included by it.
proof fn active_before_or_included(
    active: ActiveView,
    envelopes: Seq<BlindedTransactionView>,
    height: u64,
    miner: Seq<char>,
    c: Seq<char>,
)
    requires
        sorted::increasing::<String, ActiveBlindedTransactionView>(active),
    ensures
        sorted::lookup(replay::including(active, envelopes, height, miner), c) matches Some(a) ==> sorted::lookup(
            active,
            c,
        ) == Some(a) || exists|n: int|
            0 <= n < envelopes.len() && (#[trigger] envelopes[n]).commitment == c && a.transaction == envelopes[n],
    decreases envelopes.len(),
{
    if envelopes.len() > 0 {
        let earlier = envelopes.drop_last();
        let last = envelopes.last();
        active_before_or_included(active, earlier, height, miner, c);
        blocks::including_increasing(active, earlier, height, miner);
        let before = replay::including(active, earlier, height, miner);
        let entry = ActiveBlindedTransactionView { transaction: last, included_height: height, included_by: miner };
        sorted::read_after_write::<String, ActiveBlindedTransactionView>(before, last.commitment, entry, c);
        if c == last.commitment {
            assert(envelopes[envelopes.len() - 1].commitment == c);
        } else if let Some(a) = sorted::lookup(before, c) {
            if sorted::lookup(active, c) != Some(a) {
                let n = choose|n: int|
                    0 <= n < earlier.len() && (#[trigger] earlier[n]).commitment == c && a.transaction == earlier[n];
                assert(envelopes[n] == earlier[n]);
            }
        }
    }
}

/// Whether what a block leaves active under a commitment is an envelope that was active and that the
/// block neither opens nor lets expire.
spec fn stayed(l: LedgerView, b: BlockView, c: Seq<char>, a: ActiveBlindedTransactionView) -> bool {
    &&& sorted::lookup(l.active_blinded, c) == Some(a)
    &&& !block::reveals_commitment(b.all_reveals(), c)
    &&& b.height < a.transaction.expires_at_height
}

proof fn left_active(l: LedgerView, b: BlockView, h: HoldingsView, held: Seq<BurnTicketView>, c: Seq<char>)
    requires
        l.valid(),
    ensures
        sorted::lookup(l.stacked(b, h, held).active_blinded, c) matches Some(a) ==> stayed(l, b, c, a)
            || b.blinded_transactions.contains(a.transaction) && a.transaction.commitment == c,
{
    let p = blocks::stays_active(b.all_reveals(), b.height);
    let kept = l.active_blinded.filter(p);
    sorted::filter_increasing::<String, ActiveBlindedTransactionView>(l.active_blinded, p);
    active_before_or_included(kept, b.blinded_transactions, b.height, b.miner, c);
    if let Some(a) = sorted::lookup(l.stacked(b, h, held).active_blinded, c) {
        if sorted::lookup(kept, c) == Some(a) {
            let n = sorted::lookup_entry(kept, c);
            filtered_entry(l.active_blinded, p, n);
        }
    }
}

/// What an envelope that stays active names is still held after the block.
proof fn stayed_is_held(l: LedgerView, b: BlockView, c: Seq<char>, a: ActiveBlindedTransactionView, k: OutPointView)
    requires
        l.valid(),
        l.block_effects(b) is Ok,
        stayed(l, b, c, a),
        utxo::spends(a.transaction.inputs, k),
    ensures
        sorted::lookup((l.block_effects(b)->Ok_0).0.locked, k) is Some,
        !locks::reserves(b.blinded_transactions, k),
{
    reveal(all_held);
    let active = l.active_blinded;
    assert(names(active, c, k));
    assert(holds(a.transaction.inputs, l.locked));
    assert(sorted::lookup(l.locked, k) is Some);
    let u = blocks::after_transactions(l, b.transactions, l.utxos)->Ok_0;
    blocks::transactions_keep_balances_fitting(l, b.transactions, l.utxos);
    let h0 = HoldingsView { free: u, locked: l.locked };
    if locks::reserves(b.blinded_transactions, k) {
        included_were_free(b.blinded_transactions, h0, k);
    }
    locks::including_moves_money(b.blinded_transactions, h0);
    locks::others_are_left(b.blinded_transactions, h0, k);
    others_stay_held(l, b, c, k);
}

/// What is held once the envelopes of a block are in, and that no active envelope but one that stays
/// names, is held after the block.
proof fn others_stay_held(l: LedgerView, b: BlockView, c: Seq<char>, k: OutPointView)
    requires
        l.valid(),
        l.block_effects(b) is Ok,
        sorted::lookup(l.after_including(b)->Ok_0.locked, k) is Some,
        forall|d: Seq<char>| #[trigger] names(l.active_blinded, d, k) ==> d == c,
        names(l.active_blinded, c, k) ==> (sorted::lookup(l.active_blinded, c) matches Some(a) && stayed(l, b, c, a)),
    ensures
        sorted::lookup((l.block_effects(b)->Ok_0).0.locked, k) is Some,
{
    let active = l.active_blinded;
    let u = blocks::after_transactions(l, b.transactions, l.utxos)->Ok_0;
    blocks::transactions_keep_balances_fitting(l, b.transactions, l.utxos);
    locks::including_moves_money(b.blinded_transactions, HoldingsView { free: u, locked: l.locked });
    let h = l.after_including(b)->Ok_0;
    let reveals = b.all_reveals();
    assert forall|i: int| 0 <= i < reveals.len() implies !names(active, (#[trigger] reveals[i]).commitment, k) by {
        if names(active, reveals[i].commitment, k) {
            assert(reveals[i].commitment == c);
            assert(block::reveals_commitment(reveals, c));
        }
    }
    reveals_leave_the_others(l, reveals, b.miner, b.reveal_bundles.len(), h, k);
    blocks::reveals_keep_balances_fitting(l, reveals, b.miner, b.reveal_bundles.len(), h);
    let g = (blocks::after_reveals(l, reveals, b.miner, b.reveal_bundles.len(), h)->Ok_0).0;
    let w = rewards::with_reward(g.free, b)->Ok_0;
    rewards::reward_keeps_balances_fitting(g.free, b);
    locks::room_means_fits(w, g.locked);
    let p = blocks::lapses(reveals, b.height);
    let lapsed = l.lapsed(b);
    assert(!locks::reserves(lapsed, k)) by {
        if locks::reserves(lapsed, k) {
            let n = choose|n: int| 0 <= n < lapsed.len() && utxo::spends((#[trigger] lapsed[n]).inputs, k);
            filtered_entry(active, p, n);
            let e = active.filter(p)[n];
            assert(names(active, e.0, k));
        }
    }
    expiry_leaves_the_others(lapsed, HoldingsView { free: w, locked: g.locked }, k);
}

/// What an envelope names that a block includes is held after the block, and no active envelope
/// named it.
proof fn included_is_held(l: LedgerView, b: BlockView, n: int, k: OutPointView)
    requires
        l.valid(),
        l.block_effects(b) is Ok,
        0 <= n < b.blinded_transactions.len(),
        utxo::spends(b.blinded_transactions[n].inputs, k),
    ensures
        sorted::lookup((l.block_effects(b)->Ok_0).0.locked, k) is Some,
{
    reveal(all_held);
    let u = blocks::after_transactions(l, b.transactions, l.utxos)->Ok_0;
    blocks::transactions_keep_balances_fitting(l, b.transactions, l.utxos);
    let h0 = HoldingsView { free: u, locked: l.locked };
    assert(locks::reserves(b.blinded_transactions, k));
    included_were_free(b.blinded_transactions, h0, k);
    locks::included_envelopes_hold_their_inputs(b.blinded_transactions, h0, k);
    assert forall|d: Seq<char>| !#[trigger] names(l.active_blinded, d, k) by {
        if let Some(a) = sorted::lookup(l.active_blinded, d) {
            assert(holds(a.transaction.inputs, l.locked));
        }
    }
    others_stay_held(l, b, arbitrary(), k);
}

/// Active envelopes hold what they name after a block too.
pub proof fn next_block_is_held(l: LedgerView, b: BlockView)
    requires
        l.valid(),
        l.block_effects(b) is Ok,
    ensures
        ({
            let s = l.stacked(b, (l.block_effects(b)->Ok_0).0, (l.block_effects(b)->Ok_0).1);
            all_held(s.active_blinded, s.locked)
        }),
{
    reveal(all_held);
    let (h, held) = l.block_effects(b)->Ok_0;
    let s = l.stacked(b, h, held);
    let now = s.active_blinded;
    assert forall|c: Seq<char>| (#[trigger] sorted::lookup(now, c)) is Some implies holds(
        sorted::lookup(now, c)->0.transaction.inputs,
        s.locked,
    ) && distinct(sorted::lookup(now, c)->0.transaction.inputs) by {
        left_active(l, b, h, held, c);
        let a = sorted::lookup(now, c)->0;
        if !stayed(l, b, c, a) {
            let n = choose|n: int| 0 <= n < b.blinded_transactions.len() && b.blinded_transactions[n] == a.transaction;
            let u = blocks::after_transactions(l, b.transactions, l.utxos)->Ok_0;
            blocks::transactions_keep_balances_fitting(l, b.transactions, l.utxos);
            included_is_distinct(b.blinded_transactions, HoldingsView { free: u, locked: l.locked }, n);
        }
        assert forall|k: OutPointView| #[trigger] utxo::spends(a.transaction.inputs, k) implies sorted::lookup(
            s.locked,
            k,
        ) is Some by {
            if stayed(l, b, c, a) {
                stayed_is_held(l, b, c, a, k);
            } else {
                let n = choose|n: int| 0 <= n < b.blinded_transactions.len() && b.blinded_transactions[n] == a.transaction;
                included_is_held(l, b, n, k);
            }
        }
    }
    assert forall|c: Seq<char>, d: Seq<char>, k: OutPointView|
        #![trigger sorted::lookup(now, c), sorted::lookup(now, d), names(now, c, k)]
        c != d && names(now, c, k) implies !names(now, d, k) by {
        if names(now, d, k) {
            two_are_apart(l, b, c, d, k);
        }
    }
}

proof fn two_are_apart(l: LedgerView, b: BlockView, c: Seq<char>, d: Seq<char>, k: OutPointView)
    requires
        l.valid(),
        l.block_effects(b) is Ok,
        c != d,
        names(l.stacked(b, (l.block_effects(b)->Ok_0).0, (l.block_effects(b)->Ok_0).1).active_blinded, c, k),
    ensures
        !names(l.stacked(b, (l.block_effects(b)->Ok_0).0, (l.block_effects(b)->Ok_0).1).active_blinded, d, k),
{
    reveal(all_held);
    let (h, held) = l.block_effects(b)->Ok_0;
    let now = l.stacked(b, h, held).active_blinded;
    let envelopes = b.blinded_transactions;
    left_active(l, b, h, held, c);
    left_active(l, b, h, held, d);
    if names(now, d, k) {
        let x = sorted::lookup(now, c)->0;
        let y = sorted::lookup(now, d)->0;
        if stayed(l, b, c, x) {
            stayed_is_held(l, b, c, x, k);
        }
        if stayed(l, b, d, y) {
            stayed_is_held(l, b, d, y, k);
        }
        if stayed(l, b, c, x) && stayed(l, b, d, y) {
            assert(names(l.active_blinded, c, k) && names(l.active_blinded, d, k));
            assert(sorted::lookup(l.active_blinded, c) is Some && sorted::lookup(l.active_blinded, d) is Some);
        } else if stayed(l, b, c, x) {
            let n = choose|n: int| 0 <= n < envelopes.len() && envelopes[n] == y.transaction;
            assert(utxo::spends(envelopes[n].inputs, k));
        } else if stayed(l, b, d, y) {
            let m = choose|m: int| 0 <= m < envelopes.len() && envelopes[m] == x.transaction;
            assert(utxo::spends(envelopes[m].inputs, k));
        } else {
            let m = choose|m: int| 0 <= m < envelopes.len() && envelopes[m] == x.transaction;
            let n = choose|n: int| 0 <= n < envelopes.len() && envelopes[n] == y.transaction;
            let u = blocks::after_transactions(l, b.transactions, l.utxos)->Ok_0;
            blocks::transactions_keep_balances_fitting(l, b.transactions, l.utxos);
            let h0 = HoldingsView { free: u, locked: l.locked };
            if m < n {
                included_are_apart(envelopes, h0, m, n, k);
            } else {
                included_are_apart(envelopes, h0, n, m, k);
            }
        }
    }
}

/// What an expiring envelope names is held until it expires.
proof fn lapsing_is_held(l: LedgerView, b: BlockView, n: int)
    requires
        l.valid(),
        l.after_including(b) is Ok,
        blocks::after_reveals(
            l,
            b.all_reveals(),
            b.miner,
            b.reveal_bundles.len(),
            l.after_including(b)->Ok_0,
        ) is Ok,
        0 <= n < l.lapsed(b).len(),
    ensures
        distinct(l.lapsed(b)[n].inputs),
        holds(
            l.lapsed(b)[n].inputs,
            (blocks::after_reveals(
                l,
                b.all_reveals(),
                b.miner,
                b.reveal_bundles.len(),
                l.after_including(b)->Ok_0,
            )->Ok_0).0.locked,
        ),
{
    reveal(all_held);
    let active = l.active_blinded;
    let reveals = b.all_reveals();
    let p = blocks::lapses(reveals, b.height);
    filtered_entry(active, p, n);
    let (c, a) = active.filter(p)[n];
    let inputs = l.lapsed(b)[n].inputs;
    assert(inputs == a.transaction.inputs);
    let u = blocks::after_transactions(l, b.transactions, l.utxos)->Ok_0;
    blocks::transactions_keep_balances_fitting(l, b.transactions, l.utxos);
    let h0 = HoldingsView { free: u, locked: l.locked };
    locks::including_moves_money(b.blinded_transactions, h0);
    let h = l.after_including(b)->Ok_0;
    let g = (blocks::after_reveals(l, reveals, b.miner, b.reveal_bundles.len(), h)->Ok_0).0;
    assert forall|k: OutPointView| #[trigger] utxo::spends(inputs, k) implies sorted::lookup(g.locked, k) is Some by {
        assert(holds(a.transaction.inputs, l.locked));
        assert(sorted::lookup(l.locked, k) is Some);
        if locks::reserves(b.blinded_transactions, k) {
            included_were_free(b.blinded_transactions, h0, k);
        }
        locks::others_are_left(b.blinded_transactions, h0, k);
        assert forall|i: int| 0 <= i < reveals.len() implies !names(active, (#[trigger] reveals[i]).commitment, k) by {
            if names(active, reveals[i].commitment, k) {
                assert(names(active, c, k));
                assert(sorted::lookup(active, reveals[i].commitment) is Some);
                assert(reveals[i].commitment == c);
                assert(block::reveals_commitment(reveals, c));
            }
        }
        reveals_leave_the_others(l, reveals, b.miner, b.reveal_bundles.len(), h, k);
    }
}

/// Expiry stands in the way of no block: once its transactions, envelopes, reveals and reward are
/// accepted, what its expired envelopes hold is given back.
pub proof fn expiry_refuses_no_block(l: LedgerView, b: BlockView)
    requires
        l.valid(),
        l.after_including(b) is Ok,
    ensures
        blocks::after_reveals(
            l,
            b.all_reveals(),
            b.miner,
            b.reveal_bundles.len(),
            l.after_including(b)->Ok_0,
        ) matches Ok((g, _)) ==> (rewards::with_reward(g.free, b) matches Ok(w) ==> (locks::room_check(w, g.locked) is Ok
            ==> l.after_expiry(b, (HoldingsView { free: w, locked: g.locked })) is Ok)),
{
    let reveals = b.all_reveals();
    let u = blocks::after_transactions(l, b.transactions, l.utxos)->Ok_0;
    blocks::transactions_keep_balances_fitting(l, b.transactions, l.utxos);
    locks::including_moves_money(b.blinded_transactions, HoldingsView { free: u, locked: l.locked });
    let h = l.after_including(b)->Ok_0;
    blocks::reveals_keep_balances_fitting(l, reveals, b.miner, b.reveal_bundles.len(), h);
    if let Ok((g, _)) = blocks::after_reveals(l, reveals, b.miner, b.reveal_bundles.len(), h) {
        if let Ok(w) = rewards::with_reward(g.free, b) {
            if locks::room_check(w, g.locked) is Ok {
                rewards::reward_keeps_balances_fitting(g.free, b);
                locks::room_means_fits(w, g.locked);
                let last = HoldingsView { free: w, locked: g.locked };
                let lapsed = l.lapsed(b);
                assert forall|n: int| 0 <= n < lapsed.len() implies holds((#[trigger] lapsed[n]).inputs, last.locked)
                    && distinct(lapsed[n].inputs) by {
                    lapsing_is_held(l, b, n);
                }
                assert forall|m: int, n: int, k: OutPointView|
                    0 <= m < n < lapsed.len() && #[trigger] utxo::spends(lapsed[m].inputs, k) implies !#[trigger] utxo::spends(
                    lapsed[n].inputs,
                    k,
                ) by {
                    lapsing_are_apart(l, b, m, n, k);
                }
                all_held_are_released(lapsed, last);
            }
        }
    }
}

proof fn lapsing_are_apart(l: LedgerView, b: BlockView, m: int, n: int, k: OutPointView)
    requires
        l.valid(),
        0 <= m < n < l.lapsed(b).len(),
        utxo::spends(l.lapsed(b)[m].inputs, k),
    ensures
        !utxo::spends(l.lapsed(b)[n].inputs, k),
{
    reveal(all_held);
    let active = l.active_blinded;
    let p = blocks::lapses(b.all_reveals(), b.height);
    filtered_entry(active, p, m);
    filtered_entry(active, p, n);
    let (c, x) = active.filter(p)[m];
    let (d, y) = active.filter(p)[n];
    sorted::filter_increasing::<String, ActiveBlindedTransactionView>(active, p);
    assert(<String as sorted::Ordered>::before(active.filter(p)[m].0, active.filter(p)[n].0));
    <String as sorted::Ordered>::irreflexive(c);
    assert(names(active, c, k));
    assert(sorted::lookup(active, c) is Some && sorted::lookup(active, d) is Some);
    assert(!names(active, d, k));
}

/// In every ledger, an active envelope holds each output that it names, and no other active envelope
/// names one of them.
pub proof fn active_envelopes_hold_their_inputs(l: LedgerView, c: Seq<char>, d: Seq<char>, k: OutPointView)
    requires
        l.valid(),
        names(l.active_blinded, c, k),
    ensures
        sorted::lookup(l.locked, k) is Some,
        names(l.active_blinded, d, k) ==> c == d,
{
    reveal(all_held);
    let a = sorted::lookup(l.active_blinded, c)->0;
    assert(holds(a.transaction.inputs, l.locked));
    assert(sorted::lookup(l.active_blinded, d) is Some || sorted::lookup(l.active_blinded, d) is None);
}

} // verus!
