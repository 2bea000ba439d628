//! How much money a chain creates.
use crate::blinded::{ActiveBlindedTransactionView, BlindedRevealView, BlindedTransactionView};
use crate::block::BlockView;
use crate::blocks;
use crate::ledger::LedgerView;
use crate::locks;
use crate::locks::HoldingsView;
use crate::mempool;
use crate::rewards;
use crate::sorted;
use crate::transaction::{OutPoint, OutPointView, TransactionView, TxOutputView, MINE_REWARD};
use crate::utxo;
use crate::utxo::UtxosView;
use vstd::prelude::*;

verus! {

/// What the mine actions among transactions create: the reward, and the fee of the finalizer.
pub open spec fn issued(transactions: Seq<TransactionView>) -> nat
    decreases transactions.len(),
{
    if transactions.len() == 0 {
        0
    } else {
        issued(transactions.drop_last()) + if transactions.last() is Mine {
            MINE_REWARD as nat + transactions.last().fee() as nat
        } else {
            0nat
        }
    }
}

/// What the burns among transactions destroy.
pub open spec fn destroyed(transactions: Seq<TransactionView>) -> nat
    decreases transactions.len(),
{
    if transactions.len() == 0 {
        0
    } else {
        destroyed(transactions.drop_last()) + transactions.last().burned() as nat
    }
}

/// What nobody is paid of the fee of a sealed transaction.
pub open spec fn withheld(fee: u64, bundles: nat) -> nat {
    (fee - rewards::committer_fee(fee) - rewards::executor_fee(fee, bundles)) as nat
}

/// What nobody is paid of the fees of sealed transactions.
pub open spec fn withheld_of(opened: Seq<TransactionView>, bundles: nat) -> nat
    decreases opened.len(),
{
    if opened.len() == 0 {
        0
    } else {
        withheld_of(opened.drop_last(), bundles) + withheld(opened.last().fee(), bundles)
    }
}

/// The transactions that the reveals of a block open.
#[verifier::opaque]
pub open spec fn opened_in(l: LedgerView, b: BlockView) -> Seq<TransactionView> {
    match l.after_including(b) {
        Err(_) => Seq::<TransactionView>::empty(),
        Ok(h) => match blocks::after_reveals(l, b.all_reveals(), b.miner, b.reveal_bundles.len(), h) {
            Err(_) => Seq::<TransactionView>::empty(),
            Ok((_, opened)) => opened,
        },
    }
}

/// Whether the outputs of a transaction have references that nothing unspent has.
pub open spec fn adds_new(t: TransactionView, u: UtxosView) -> bool {
    if t is Mine {
        sorted::lookup(u, (OutPointView { txid: t.signature(), index: 0 })) is None
    } else {
        utxo::fresh(utxo::spend(t.inputs(), u).0, t.signature(), t.outputs().len()) && t.outputs().len()
            <= 0x1_0000_0000
    }
}

/// Whether each of the transactions only adds outputs with references that nothing unspent has.
pub open spec fn all_add_new(l: LedgerView, transactions: Seq<TransactionView>, u: UtxosView) -> bool
    decreases transactions.len(),
{
    transactions.len() > 0 ==> all_add_new(l, transactions.drop_last(), u) && (blocks::after_transactions(
        l,
        transactions.drop_last(),
        u,
    ) matches Ok(v) ==> adds_new(transactions.last(), v))
}

/// Whether entries have references that nothing unspent has.
pub open spec fn entries_are_new(u: UtxosView, entries: Seq<(OutPointView, TxOutputView)>) -> bool
    decreases entries.len(),
{
    entries.len() > 0 ==> entries_are_new(u, entries.drop_last()) && sorted::lookup(
        rewards::with_entries(u, entries.drop_last()),
        entries.last().0,
    ) is None
}

/// Whether a reveal only adds outputs with references that nothing unspent has.
pub open spec fn opening_adds_new(
    l: LedgerView,
    r: BlindedRevealView,
    miner: Seq<char>,
    bundles: nat,
    h: HoldingsView,
) -> bool {
    sorted::lookup(l.active_blinded, r.commitment) matches Some(active) ==> (l.opened_active(active, r) matches Ok(t)
        ==> locks::all_absent(t.inputs(), h.free) && (locks::release(t.inputs(), h) matches Ok(g) ==> adds_new(t, g.free)
        && entries_are_new(utxo::applied(t, g.free).0, rewards::fee_outputs(active, miner, t.fee(), bundles))))
}

/// Whether each of the reveals only adds outputs with references that nothing unspent has.
pub open spec fn all_openings_add_new(
    l: LedgerView,
    reveals: Seq<BlindedRevealView>,
    miner: Seq<char>,
    bundles: nat,
    h: HoldingsView,
) -> bool
    decreases reveals.len(),
{
    reveals.len() > 0 ==> all_openings_add_new(l, reveals.drop_last(), miner, bundles, h) && (blocks::after_reveals(
        l,
        reveals.drop_last(),
        miner,
        bundles,
        h,
    ) matches Ok((g, _)) ==> opening_adds_new(l, reveals.last(), miner, bundles, g))
}

/// Whether what envelopes give back has references that nothing unspent has.
pub open spec fn returned_are_new(envelopes: Seq<BlindedTransactionView>, h: HoldingsView) -> bool
    decreases envelopes.len(),
{
    envelopes.len() > 0 ==> returned_are_new(envelopes.drop_last(), h) && (locks::release_all(envelopes.drop_last(), h)
        matches Ok(g) ==> locks::all_absent(envelopes.last().inputs, g.free))
}

/// Whether every output that a block adds has a reference that nothing unspent has.
pub open spec fn block_adds_new(l: LedgerView, b: BlockView) -> bool {
    all_add_new(l, b.transactions, l.utxos) && (l.after_including(b) matches Ok(h) ==> all_openings_add_new(
        l,
        b.all_reveals(),
        b.miner,
        b.reveal_bundles.len(),
        h,
    ) && (blocks::after_reveals(l, b.all_reveals(), b.miner, b.reveal_bundles.len(), h) matches Ok((g, _))
        ==> sorted::lookup(g.free, rewards::reward_reference(b.hash)) is None && (rewards::with_reward(g.free, b)
        matches Ok(w) ==> returned_are_new(l.lapsed(b), (HoldingsView { free: w, locked: g.locked })))))
}

proof fn transactions_are_covered(l: LedgerView, transactions: Seq<TransactionView>, u: UtxosView)
    requires
        sorted::increasing::<OutPoint, TxOutputView>(u),
        utxo::balances_fit(u),
        locks::fit_together(u, l.locked),
        blocks::after_transactions(l, transactions, u) is Ok,
    ensures
        ({
            let v = blocks::after_transactions(l, transactions, u)->Ok_0;
            &&& sorted::increasing::<OutPoint, TxOutputView>(v)
            &&& utxo::balances_fit(v)
            &&& locks::fit_together(v, l.locked)
            &&& utxo::supply(v) + rewards::fees_of(transactions) + destroyed(transactions) <= utxo::supply(u) + issued(
                transactions,
            )
            &&& all_add_new(l, transactions, u) ==> utxo::supply(v) + rewards::fees_of(transactions) + destroyed(
                transactions,
            ) == utxo::supply(u) + issued(transactions)
        }),
    decreases transactions.len(),
{
    if transactions.len() > 0 {
        let t = transactions.last();
        transactions_are_covered(l, transactions.drop_last(), u);
        let v = blocks::after_transactions(l, transactions.drop_last(), u)->Ok_0;
        utxo::applying_keeps_balances_fitting(t, v);
        locks::room_means_fits(utxo::applied(t, v).0, l.locked);
        if t is Mine {
            utxo::mining_adds_the_reward(t, v);
        } else {
            utxo::transactions_conserve_money(t, v);
        }
    }
}

proof fn entries_add_up(u: UtxosView, entries: Seq<(OutPointView, TxOutputView)>)
    requires
        sorted::increasing::<OutPoint, TxOutputView>(u),
        entries_are_new(u, entries),
    ensures
        utxo::supply(rewards::with_entries(u, entries)) == utxo::supply(u) + utxo::sum_of(utxo::outputs_of(entries)),
    decreases entries.len(),
{
    if entries.len() > 0 {
        let earlier = entries.drop_last();
        entries_add_up(u, earlier);
        rewards::entries_keep_order(u, earlier, Seq::<char>::empty());
        let (k, v) = entries.last();
        utxo::effect_of_adding(rewards::with_entries(u, earlier), k, v, Seq::<char>::empty());
        assert(utxo::outputs_of(entries).drop_last() =~= utxo::outputs_of(earlier));
    }
}

proof fn fee_is_split(
    u: UtxosView,
    active: ActiveBlindedTransactionView,
    executor: Seq<char>,
    fee: u64,
    bundles: nat,
)
    requires
        sorted::increasing::<OutPoint, TxOutputView>(u),
        bundles <= 3,
        rewards::with_blinded_fees(u, active, executor, fee, bundles) is Ok,
    ensures
        utxo::supply(rewards::with_blinded_fees(u, active, executor, fee, bundles)->Ok_0) <= utxo::supply(u) + fee,
        entries_are_new(u, rewards::fee_outputs(active, executor, fee, bundles)) ==> utxo::supply(
            rewards::with_blinded_fees(u, active, executor, fee, bundles)->Ok_0,
        ) + withheld(fee, bundles) == utxo::supply(u) + fee,
{
    let entries = rewards::fee_outputs(active, executor, fee, bundles);
    rewards::fee_split_is_bounded(fee, bundles);
    rewards::entries_keep_order(u, entries, Seq::<char>::empty());
    let outputs = utxo::outputs_of(entries);
    reveal_with_fuel(utxo::sum_of, 3);
    assert(utxo::sum_of(outputs) == rewards::committer_fee(fee) + rewards::executor_fee(fee, bundles));
    if entries_are_new(u, entries) {
        entries_add_up(u, entries);
    }
}

proof fn reveal_is_covered(l: LedgerView, r: BlindedRevealView, miner: Seq<char>, bundles: nat, h: HoldingsView)
    requires
        h.valid(),
        bundles <= 3,
        blocks::after_reveal(l, r, miner, bundles, h) is Ok,
    ensures
        ({
            let (f, t) = blocks::after_reveal(l, r, miner, bundles, h)->Ok_0;
            let created = if t is Mine {
                MINE_REWARD as nat + t.fee() as nat
            } else {
                0nat
            };
            &&& f.valid()
            &&& f.supply() + t.burned() <= h.supply() + created
            &&& opening_adds_new(l, r, miner, bundles, h) ==> f.supply() + t.burned() + withheld(t.fee(), bundles)
                == h.supply() + created
        }),
{
    reveal(blocks::after_reveal);
    let active = sorted::lookup(l.active_blinded, r.commitment)->0;
    let t = l.opened_active(active, r)->Ok_0;
    locks::releasing_moves_money(t.inputs(), h);
    let g = locks::release(t.inputs(), h)->Ok_0;
    let v = utxo::applied(t, g.free).0;
    utxo::applying_keeps_balances_fitting(t, g.free);
    rewards::blinded_fees_keep_balances_fitting(v, active, miner, t.fee(), bundles);
    locks::room_means_fits(rewards::with_blinded_fees(v, active, miner, t.fee(), bundles)->Ok_0, g.locked);
    fee_is_split(v, active, miner, t.fee(), bundles);
    if t is Mine {
        utxo::mining_adds_the_reward(t, g.free);
    } else {
        utxo::transactions_conserve_money(t, g.free);
    }
}

proof fn reveals_are_covered(
    l: LedgerView,
    reveals: Seq<BlindedRevealView>,
    miner: Seq<char>,
    bundles: nat,
    h: HoldingsView,
)
    requires
        h.valid(),
        bundles <= 3,
        blocks::after_reveals(l, reveals, miner, bundles, h) is Ok,
    ensures
        ({
            let (g, opened) = blocks::after_reveals(l, reveals, miner, bundles, h)->Ok_0;
            &&& g.valid()
            &&& g.supply() + destroyed(opened) <= h.supply() + issued(opened)
            &&& all_openings_add_new(l, reveals, miner, bundles, h) ==> g.supply() + destroyed(opened) + withheld_of(
                opened,
                bundles,
            ) == h.supply() + issued(opened)
        }),
    decreases reveals.len(),
{
    if reveals.len() > 0 {
        reveals_are_covered(l, reveals.drop_last(), miner, bundles, h);
        let (g, earlier) = blocks::after_reveals(l, reveals.drop_last(), miner, bundles, h)->Ok_0;
        reveal_is_covered(l, reveals.last(), miner, bundles, g);
        let (f, t) = blocks::after_reveal(l, reveals.last(), miner, bundles, g)->Ok_0;
        assert(earlier.push(t).drop_last() =~= earlier);
    }
}

proof fn returns_add_up(envelopes: Seq<BlindedTransactionView>, h: HoldingsView)
    requires
        h.valid(),
        returned_are_new(envelopes, h),
    ensures
        locks::release_all(envelopes, h) matches Ok(g) ==> g.valid() && g.supply() == h.supply(),
    decreases envelopes.len(),
{
    if envelopes.len() > 0 {
        returns_add_up(envelopes.drop_last(), h);
        if let Ok(g) = locks::release_all(envelopes.drop_last(), h) {
            locks::releasing_moves_money(envelopes.last().inputs, g);
        }
    }
}

proof fn effects_are_covered(l: LedgerView, b: BlockView)
    requires
        l.valid(),
        b.reveal_bundles.len() <= 3,
        rewards::reward_of(b.transactions) == Ok::<u64, Seq<char>>(b.reward),
        l.block_effects(b) is Ok,
    ensures
        ({
            let f = (l.block_effects(b)->Ok_0).0;
            let opened = opened_in(l, b);
            &&& f.supply() + destroyed(b.transactions) + destroyed(opened) <= l.holdings().supply() + issued(
                b.transactions,
            ) + issued(opened)
            &&& block_adds_new(l, b) ==> f.supply() + destroyed(b.transactions) + destroyed(opened) + withheld_of(
                opened,
                b.reveal_bundles.len(),
            ) == l.holdings().supply() + issued(b.transactions) + issued(opened)
        }),
{
    reveal(opened_in);
    let u = blocks::after_transactions(l, b.transactions, l.utxos)->Ok_0;
    transactions_are_covered(l, b.transactions, l.utxos);
    locks::including_moves_money(b.blinded_transactions, HoldingsView { free: u, locked: l.locked });
    let h = l.after_including(b)->Ok_0;
    let (g, opened) = blocks::after_reveals(l, b.all_reveals(), b.miner, b.reveal_bundles.len(), h)->Ok_0;
    reveals_are_covered(l, b.all_reveals(), b.miner, b.reveal_bundles.len(), h);
    let reference = rewards::reward_reference(b.hash);
    let output = TxOutputView { address: b.miner, amount: b.reward };
    utxo::effect_of_adding(g.free, reference, output, Seq::<char>::empty());
    rewards::reward_keeps_balances_fitting(g.free, b);
    let w = rewards::with_reward(g.free, b)->Ok_0;
    let last = HoldingsView { free: w, locked: g.locked };
    locks::room_means_fits(w, g.locked);
    locks::expiring_moves_money(l.lapsed(b), last);
    if block_adds_new(l, b) {
        returns_add_up(l.lapsed(b), last);
    }
}

proof fn extending_block_is_checked(l: LedgerView, b: BlockView, verify: bool, now_ms: u64)
    requires
        l.valid(),
        l.block_applied(b, verify, now_ms).0.chain != l.chain,
    ensures
        b.reveal_bundles.len() <= 3,
        rewards::reward_of(b.transactions) == Ok::<u64, Seq<char>>(b.reward),
        l.block_effects(b) is Ok,
        l.block_applied(b, verify, now_ms).0.holdings() == (l.block_effects(b)->Ok_0).0,
{
    reveal(LedgerView::block_applied);
    assert(l.precheck(b, now_ms) == Ok::<bool, Seq<char>>(true));
    assert(l.next_block_check(b, now_ms) is Ok);
    let (f, held) = l.block_effects(b)->Ok_0;
    mempool::promotion_only_moves(l.stacked(b, f, held).swept(b));
}

/// A block creates no money but what the mine actions in it issue: what there is after it, unspent
/// or held by envelopes, and what it burned, is at most what there was before and what was issued.
pub proof fn blocks_create_only_what_is_mined(l: LedgerView, b: BlockView, verify: bool, now_ms: u64)
    requires
        l.valid(),
        l.block_applied(b, verify, now_ms).0.chain != l.chain,
    ensures
        l.block_applied(b, verify, now_ms).0.holdings().supply() + destroyed(b.transactions) + destroyed(
            opened_in(l, b),
        ) <= l.holdings().supply() + issued(b.transactions) + issued(opened_in(l, b)),
{
    extending_block_is_checked(l, b, verify, now_ms);
    effects_are_covered(l, b);
}

/// Where every output that a block adds has a reference that nothing unspent has, the block creates
/// what the mine actions in it issue, and destroys what it burns and what nobody is paid of the fees
/// of sealed transactions: no money comes or goes otherwise.
pub proof fn blocks_account_for_all_money(l: LedgerView, b: BlockView, verify: bool, now_ms: u64)
    requires
        l.valid(),
        l.block_applied(b, verify, now_ms).0.chain != l.chain,
        block_adds_new(l, b),
    ensures
        l.block_applied(b, verify, now_ms).0.holdings().supply() + destroyed(b.transactions) + destroyed(
            opened_in(l, b),
        ) + withheld_of(opened_in(l, b), b.reveal_bundles.len()) == l.holdings().supply() + issued(b.transactions)
            + issued(opened_in(l, b)),
{
    extending_block_is_checked(l, b, verify, now_ms);
    effects_are_covered(l, b);
}

} // verus!
