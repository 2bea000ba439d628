//! A chain tells everything about its ledger but what waits: a snapshot gives the ledger back.
use crate::blinded::{BlindedRevealView, BlindedTransactionView, RevealBundleView};
use crate::block::BlockView;
use crate::blocks;
use crate::forks;
use crate::forks::ChainSnapshotView;
use crate::genesis;
use crate::genesis::AllocationsView;
use crate::ledger;
use crate::ledger::LedgerView;
use crate::locks::HoldingsView;
use crate::lottery;
use crate::mempool;
use crate::model;
use crate::transaction::TransactionView;
use crate::utxo::UtxosView;
use crate::vdf;
use vstd::prelude::*;

verus! {

impl LedgerView {
    /// The ledger without what waits.
    pub open spec fn settled(self) -> LedgerView {
        LedgerView {
            pending: Seq::<TransactionView>::empty(),
            orphans: Seq::<TransactionView>::empty(),
            pending_blinded: Seq::<BlindedTransactionView>::empty(),
            pending_reveals: Seq::<BlindedRevealView>::empty(),
            ..self
        }
    }

    /// Whether the snapshot of this ledger gives it back, but for what waits.
    pub open spec fn restorable(self, now_ms: u64) -> bool {
        forks::restored(self.snapshot(), true, now_ms) == Ok::<LedgerView, Seq<char>>(self.settled())
    }
}

/// What waits does not matter to the checks on what a reveal opens.
proof fn same_terms(a: LedgerView, b: LedgerView)
    requires
        a.settled() == b.settled(),
    ensures
        a.chain == b.chain,
        a.utxos == b.utxos,
        a.locked == b.locked,
        a.tickets == b.tickets,
        a.active_blinded == b.active_blinded,
        a.vdf_rounds == b.vdf_rounds,
        a.launch_profile == b.launch_profile,
        forall|t: TransactionView| #[trigger] a.terms_check(t) == b.terms_check(t),
        forall|t: BlindedTransactionView| #[trigger] a.blinded_check(t) == b.blinded_check(t),
        forall|t: BlindedTransactionView| #[trigger] a.sealed_check(t) == b.sealed_check(t),
        forall|t: BlindedTransactionView| #[trigger] a.funding_check(t) == b.funding_check(t),
        forall|r: BlindedRevealView| #[trigger] a.opened_by(r) == b.opened_by(r),
{
    let (s, t) = (a.settled(), b.settled());
    assert(s.chain == t.chain && s.utxos == t.utxos && s.locked == t.locked && s.tickets == t.tickets && s.active_blinded
        == t.active_blinded && s.vdf_rounds == t.vdf_rounds && s.launch_profile == t.launch_profile);
}

proof fn same_bundle_reveals(a: LedgerView, b: LedgerView, reveals: Seq<BlindedRevealView>)
    requires
        a.settled() == b.settled(),
    ensures
        a.bundle_reveals_check(reveals) == b.bundle_reveals_check(reveals),
    decreases reveals.len(),
{
    if reveals.len() > 0 {
        same_terms(a, b);
        same_bundle_reveals(a, b, reveals.drop_last());
    }
}

proof fn same_each_bundle(
    a: LedgerView,
    b: LedgerView,
    height: u64,
    prev_hash: Seq<char>,
    bundles: Seq<RevealBundleView>,
)
    requires
        a.settled() == b.settled(),
    ensures
        a.each_bundle_check(height, prev_hash, bundles) == b.each_bundle_check(height, prev_hash, bundles),
    decreases bundles.len(),
{
    if bundles.len() > 0 {
        same_terms(a, b);
        same_each_bundle(a, b, height, prev_hash, bundles.drop_last());
        same_bundle_reveals(a, b, bundles.last().reveals);
    }
}

proof fn same_envelopes(a: LedgerView, b: LedgerView, envelopes: Seq<BlindedTransactionView>, height: u64)
    requires
        a.settled() == b.settled(),
    ensures
        a.envelopes_check(envelopes, height) == b.envelopes_check(envelopes, height),
    decreases envelopes.len(),
{
    if envelopes.len() > 0 {
        same_terms(a, b);
        same_envelopes(a, b, envelopes.drop_last(), height);
    }
}

proof fn same_content(a: LedgerView, b: LedgerView, block: BlockView)
    requires
        a.settled() == b.settled(),
    ensures
        a.content_check(block) == b.content_check(block),
{
    same_terms(a, b);
    same_each_bundle(a, b, block.height, block.prev_hash, block.reveal_bundles);
    same_envelopes(a, b, block.blinded_transactions, block.height);
    assert(a.bundles_check(block.height, block.prev_hash, block.reveal_bundles) == b.bundles_check(
        block.height,
        block.prev_hash,
        block.reveal_bundles,
    ));
    assert(a.reveal_check() =~= b.reveal_check());
    assert(a.finalizer_check(block) == b.finalizer_check(block));
}

/// A block that is refused or accepted is so whatever waits, and one that is accepted at a time is
/// accepted at any later time.
pub proof fn waiting_items_do_not_matter(a: LedgerView, b: LedgerView, block: BlockView, now_ms: u64, later_ms: u64)
    requires
        a.settled() == b.settled(),
        now_ms <= later_ms,
    ensures
        a.precheck(block, now_ms) == b.precheck(block, now_ms),
        a.precheck(block, now_ms) is Ok ==> b.precheck(block, later_ms) == a.precheck(block, now_ms),
{
    same_terms(a, b);
    same_content(a, b, block);
    assert(a.header_check(block) == b.header_check(block));
    assert(a.limits_check(block) == b.limits_check(block));
}

proof fn same_after_transactions(a: LedgerView, b: LedgerView, transactions: Seq<TransactionView>, u: UtxosView)
    requires
        a.settled() == b.settled(),
    ensures
        blocks::after_transactions(a, transactions, u) == blocks::after_transactions(b, transactions, u),
    decreases transactions.len(),
{
    if transactions.len() > 0 {
        same_terms(a, b);
        same_after_transactions(a, b, transactions.drop_last(), u);
    }
}

proof fn same_after_reveals(
    a: LedgerView,
    b: LedgerView,
    reveals: Seq<BlindedRevealView>,
    miner: Seq<char>,
    bundles: nat,
    u: HoldingsView,
)
    requires
        a.settled() == b.settled(),
    ensures
        blocks::after_reveals(a, reveals, miner, bundles, u) == blocks::after_reveals(b, reveals, miner, bundles, u),
    decreases reveals.len(),
{
    if reveals.len() > 0 {
        same_terms(a, b);
        same_after_reveals(a, b, reveals.drop_last(), miner, bundles, u);
        if let Ok((v, earlier)) = blocks::after_reveals(a, reveals.drop_last(), miner, bundles, u) {
            same_after_reveal(a, b, reveals.last(), miner, bundles, v);
        }
    }
}

proof fn same_after_reveal(
    a: LedgerView,
    b: LedgerView,
    r: BlindedRevealView,
    miner: Seq<char>,
    bundles: nat,
    u: HoldingsView,
)
    requires
        a.settled() == b.settled(),
    ensures
        blocks::after_reveal(a, r, miner, bundles, u) == blocks::after_reveal(b, r, miner, bundles, u),
{
    reveal(blocks::after_reveal);
    same_terms(a, b);
}

proof fn same_effects(a: LedgerView, b: LedgerView, block: BlockView)
    requires
        a.settled() == b.settled(),
    ensures
        a.block_effects(block) == b.block_effects(block),
{
    same_terms(a, b);
    same_after_transactions(a, b, block.transactions, a.utxos);
    assert(a.lapsed(block) == b.lapsed(block));
    if let Ok(h) = a.after_including(block) {
        same_after_reveals(a, b, block.all_reveals(), block.miner, block.reveal_bundles.len(), h);
    }
}

/// Nothing waits, so nothing is promoted.
proof fn nothing_to_promote(l: LedgerView)
    requires
        l.settled() == l,
    ensures
        l.promoted() == (l, Ok::<(), Seq<char>>(())),
{
    assert(l.pending.len() == 0);
    assert(l.orphans.len() == 0);
    assert(l.pass(l.pending, l.utxos).0.len() == 0);
    assert(l.valid_pending().len() == 0);
    assert(l.after_pending() == Ok::<UtxosView, Seq<char>>(l.utxos));
    assert(l.promotable(l.utxos, 0).0 is None);
}

proof fn nothing_stays<T>(s: Seq<T>, p: spec_fn(T) -> bool)
    requires
        s.len() == 0,
    ensures
        s.filter(p) == Seq::<T>::empty(),
{
    model::filter_empty(p);
    assert(s =~= Seq::<T>::empty());
}

/// A block on a ledger in which nothing waits.
proof fn block_on_settled(l: LedgerView, block: BlockView)
    requires
        l.settled() == l,
    ensures
        match l.block_effects(block) {
            Err(e) => l.with_block(block) == (l, Err::<(), Seq<char>>(e)),
            Ok((u, held)) => {
                let s = l.stacked(block, u, held);
                l.with_block(block) == (
                    LedgerView { vdf_rounds: blocks::next_rounds(s.chain, s.vdf_rounds), ..s },
                    Ok::<(), Seq<char>>(()),
                )
            },
        },
{
    if let Ok((u, held)) = l.block_effects(block) {
        let s = l.stacked(block, u, held);
        assert(l.pending.len() == 0 && l.orphans.len() == 0 && l.pending_blinded.len() == 0
            && l.pending_reveals.len() == 0);
        nothing_stays(s.pending, blocks::stays_pending(s, block.transactions));
        nothing_stays(s.orphans, blocks::stays_orphan(s, block.transactions));
        nothing_stays(s.pending_blinded, blocks::stays_sealed(s, block.blinded_transactions));
        nothing_stays(s.pending_reveals, blocks::stays_unrevealed(s, block.all_reveals()));
        assert(s.swept(block) =~= s);
        assert(s.settled() =~= s);
        nothing_to_promote(s);
    }
}

/// A block that a ledger accepts does to it, but for what waits, what it does to a ledger in which
/// nothing waits, at the same time or later.
pub proof fn block_on_settled_ledger(l: LedgerView, block: BlockView, verify: bool, now_ms: u64, later_ms: u64)
    requires
        l.block_applied(block, verify, now_ms).1 is Ok,
        now_ms <= later_ms,
        verify || vdf::solution_verifies(block.vdf_seed(), block.vdf_rounds, block.vdf_output),
    ensures
        l.settled().block_applied(block, true, later_ms) == (
            l.block_applied(block, verify, now_ms).0.settled(),
            Ok::<(), Seq<char>>(()),
        ),
{
    reveal(LedgerView::block_applied);
    let c = l.settled();
    assert(c.settled() =~= c);
    waiting_items_do_not_matter(l, c, block, now_ms, later_ms);
    if l.precheck(block, now_ms) == Ok::<bool, Seq<char>>(true) {
        same_effects(l, c, block);
        block_on_settled(c, block);
        let (u, held) = l.block_effects(block)->Ok_0;
        let s = l.stacked(block, u, held);
        mempool::promotion_only_moves(s.swept(block));
        let after = s.swept(block).promoted().0;
        assert(after.settled() =~= c.stacked(block, u, held));
        assert(l.block_applied(block, verify, now_ms).0.settled() =~= c.block_applied(block, true, later_ms).0);
    }
}

/// Blocks that are accepted one after another are so at any later time, with the same outcome.
proof fn grown_later(l: LedgerView, bs: Seq<BlockView>, now_ms: u64, later_ms: u64)
    requires
        l.settled() == l,
        now_ms <= later_ms,
        forks::grown(l, bs, true, now_ms) is Ok,
    ensures
        forks::grown(l, bs, true, later_ms) == forks::grown(l, bs, true, now_ms),
        forks::grown(l, bs, true, now_ms)->Ok_0.settled() == forks::grown(l, bs, true, now_ms)->Ok_0,
    decreases bs.len(),
{
    if bs.len() > 0 {
        grown_later(l, bs.drop_last(), now_ms, later_ms);
        let s = forks::grown(l, bs.drop_last(), true, now_ms)->Ok_0;
        block_on_settled_ledger(s, bs.last(), true, now_ms, later_ms);
        block_on_settled_ledger(s, bs.last(), true, now_ms, now_ms);
    }
}

proof fn started_is_settled(s: ChainSnapshotView)
    requires
        forks::started(s) is Ok,
    ensures
        forks::started(s)->Ok_0.settled() == forks::started(s)->Ok_0,
        forks::started(s)->Ok_0.chain == seq![s.blocks[0]],
        forks::started(s)->Ok_0.genesis_allocations == s.genesis_allocations,
        forks::started(s)->Ok_0.initial_vdf_rounds == s.vdf_rounds,
        forks::started(s)->Ok_0.launch_profile == s.launch_profile,
{
    reveal(forks::started);
    let l = forks::started(s)->Ok_0;
    assert(l.settled() =~= l);
}

/// Only the first block of a snapshot matters to how it starts.
proof fn same_start(a: ChainSnapshotView, b: ChainSnapshotView)
    requires
        a.blocks.len() > 0,
        b.blocks.len() > 0,
        a.blocks[0] == b.blocks[0],
        a.genesis_allocations == b.genesis_allocations,
        a.vdf_rounds == b.vdf_rounds,
        a.launch_profile == b.launch_profile,
    ensures
        forks::started(a) == forks::started(b),
{
    reveal(forks::started);
}

/// A ledger that its snapshot gives back at a time is given back at any later time.
pub proof fn restorable_later(l: LedgerView, now_ms: u64, later_ms: u64)
    requires
        l.restorable(now_ms),
        now_ms <= later_ms,
    ensures
        l.restorable(later_ms),
{
    started_is_settled(l.snapshot());
    grown_later(forks::started(l.snapshot())->Ok_0, l.chain.skip(1), now_ms, later_ms);
}

/// A new ledger is given back by its snapshot.
pub proof fn new_ledger_is_restorable(a: AllocationsView, transactions: Seq<TransactionView>, rounds: u64, now_ms: u64)
    requires
        ledger::initial_state(a, transactions, rounds) is Ok,
    ensures
        ledger::initial_state(a, transactions, rounds)->Ok_0.restorable(now_ms),
{
    let l = ledger::initial_state(a, transactions, rounds)->Ok_0;
    let s = l.snapshot();
    reveal(forks::started);
    genesis::first_block_passes(a, transactions);
    assert(s.blocks[0] == genesis::genesis_block(a, transactions));
    assert(s.blocks[0].transactions == transactions);
    assert(s.blocks.skip(1).len() == 0);
    assert(l.settled() =~= l);
}

/// Submitting transactions, envelopes and reveals leaves a ledger as restorable as it was.
pub proof fn submitting_keeps_restorable(
    l: LedgerView,
    t: TransactionView,
    e: BlindedTransactionView,
    r: BlindedRevealView,
    now_ms: u64,
)
    requires
        l.restorable(now_ms),
    ensures
        l.submitted(t).0.restorable(now_ms),
        l.blinded_submitted(e).0.restorable(now_ms),
        l.reveal_submitted(r).0.restorable(now_ms),
{
    forks::submitting_keeps_chain(l, t);
    assert(l.submitted(t).0.settled() =~= l.settled());
    assert(l.blinded_submitted(e).0.settled() =~= l.settled());
    assert(l.reveal_submitted(r).0.settled() =~= l.settled());
}

/// A block that is accepted, with its delay served, leaves a ledger that its snapshot gives back.
pub proof fn applying_keeps_restorable(l: LedgerView, block: BlockView, verify: bool, now_ms: u64, later_ms: u64)
    requires
        l.valid(),
        l.chain.len() <= u64::MAX,
        l.restorable(later_ms),
        l.block_applied(block, verify, now_ms).1 is Ok,
        now_ms <= later_ms,
        verify || vdf::solution_verifies(block.vdf_seed(), block.vdf_rounds, block.vdf_output),
    ensures
        l.block_applied(block, verify, now_ms).0.restorable(later_ms),
{
    let after = l.block_applied(block, verify, now_ms).0;
    blocks::block_extends_or_changes_nothing(l, block, verify, now_ms);
    if after != l {
        same_start(after.snapshot(), l.snapshot());
        assert(after.chain.skip(1).drop_last() =~= l.chain.skip(1));
        assert(after.chain.skip(1).last() == block);
        block_on_settled_ledger(l, block, verify, now_ms, later_ms);
    }
}

proof fn grown_keeps_restorable(start: LedgerView, bs: Seq<BlockView>, now_ms: u64)
    requires
        start.settled() == start,
        start.chain.len() == 1,
        forks::started(start.snapshot()) == Ok::<LedgerView, Seq<char>>(start),
        forks::grown(start, bs, true, now_ms) is Ok,
    ensures
        forks::grown(start, bs, true, now_ms)->Ok_0.restorable(now_ms),
        forks::grown(start, bs, true, now_ms)->Ok_0.chain.len() >= 1,
        forks::grown(start, bs, true, now_ms)->Ok_0.chain[0] == start.chain[0],
    decreases bs.len(),
{
    if bs.len() == 0 {
        assert(start.chain.skip(1).len() == 0);
    } else {
        grown_keeps_restorable(start, bs.drop_last(), now_ms);
        let l = forks::grown(start, bs.drop_last(), true, now_ms)->Ok_0;
        let b = bs.last();
        let after = forks::grown(start, bs, true, now_ms)->Ok_0;
        chain_grows_by_one(l, b, now_ms);
        if after.chain != l.chain {
            grown_later(start, bs.drop_last(), now_ms, now_ms);
            grown_later(start, bs, now_ms, now_ms);
            assert(after.chain.skip(1).drop_last() =~= l.chain.skip(1));
            assert(after.chain.skip(1).last() == b);
            same_start(after.snapshot(), l.snapshot());
            block_on_settled_ledger(l, b, true, now_ms, now_ms);
        }
    }
}

proof fn chain_grows_by_one(l: LedgerView, b: BlockView, now_ms: u64)
    ensures
        ({
            let after = l.block_applied(b, true, now_ms).0;
            &&& after == l || after.chain == l.chain.push(b)
            &&& after.genesis_allocations == l.genesis_allocations
            &&& after.launch_profile == l.launch_profile
            &&& after.initial_vdf_rounds == l.initial_vdf_rounds
        }),
{
    reveal(LedgerView::block_applied);
    if let Ok((u, held)) = l.block_effects(b) {
        mempool::promotion_only_moves(l.stacked(b, u, held).swept(b));
    }
}

/// A ledger that was made from a snapshot is given back by its own snapshot.
pub proof fn restored_ledger_is_restorable(s: ChainSnapshotView, now_ms: u64)
    requires
        forks::restored(s, true, now_ms) is Ok,
    ensures
        forks::restored(s, true, now_ms)->Ok_0.restorable(now_ms),
{
    started_is_settled(s);
    let start = forks::started(s)->Ok_0;
    reveal(forks::started);
    same_start(start.snapshot(), s);
    grown_keeps_restorable(start, s.blocks.skip(1), now_ms);
}

proof fn carrying_keeps_settled(
    l: LedgerView,
    transactions: Seq<TransactionView>,
    envelopes: Seq<BlindedTransactionView>,
    reveals: Seq<BlindedRevealView>,
)
    ensures
        forks::with_transactions(l, transactions).settled() == l.settled(),
        forks::with_envelopes(l, envelopes).settled() == l.settled(),
        forks::with_reveals(l, reveals).settled() == l.settled(),
    decreases transactions.len() + envelopes.len() + reveals.len(),
{
    let no_transactions = Seq::<TransactionView>::empty();
    let no_envelopes = Seq::<BlindedTransactionView>::empty();
    let no_reveals = Seq::<BlindedRevealView>::empty();
    if transactions.len() > 0 {
        carrying_keeps_settled(l, transactions.drop_last(), no_envelopes, no_reveals);
        let s = forks::with_transactions(l, transactions.drop_last());
        forks::submitting_keeps_chain(s, transactions.last());
        assert(s.submitted(transactions.last()).0.settled() =~= s.settled());
    }
    if envelopes.len() > 0 {
        carrying_keeps_settled(l, no_transactions, envelopes.drop_last(), no_reveals);
        let s = forks::with_envelopes(l, envelopes.drop_last());
        assert(s.blinded_submitted(envelopes.last()).0.settled() =~= s.settled());
    }
    if reveals.len() > 0 {
        carrying_keeps_settled(l, no_transactions, no_envelopes, reveals.drop_last());
        let s = forks::with_reveals(l, reveals.drop_last());
        assert(s.reveal_submitted(reveals.last()).0.settled() =~= s.settled());
    }
}

/// A chain that was left for that of a snapshot is exactly that of the snapshot, but for what
/// waits.
pub proof fn adopted_chain_is_the_snapshot(l: LedgerView, s: ChainSnapshotView, verify: bool, now_ms: u64)
    ensures
        l.extended(s, verify, now_ms).1 == Ok::<bool, Seq<char>>(true) ==> l.extended(s, verify, now_ms).0.settled()
            == forks::restored(s, verify, now_ms)->Ok_0.settled(),
        l.extended(s, verify, now_ms).1 != Ok::<bool, Seq<char>>(true) ==> l.extended(s, verify, now_ms).0 == l,
{
    if let Ok(candidate) = forks::restored(s, verify, now_ms) {
        if let Ok(shared) = l.shared_with(candidate) {
            let left = l.chain.skip(shared as int);
            let x = l.pending + l.orphans + forks::transactions_in(left);
            let y = l.pending_blinded + forks::envelopes_in(left);
            let z = l.pending_reveals + forks::reveals_in(left);
            let a = forks::with_transactions(candidate, x);
            carrying_keeps_settled(candidate, x, y, z);
            carrying_keeps_settled(a, x, y, z);
            carrying_keeps_settled(forks::with_envelopes(a, y), x, y, z);
        }
    }
}

/// A call that may change a ledger.
pub enum CallView {
    Transaction(TransactionView),
    Envelope(BlindedTransactionView),
    Reveal(BlindedRevealView),
    Block { block: BlockView, verify: bool, now_ms: u64 },
    Snapshot { snapshot: ChainSnapshotView, now_ms: u64 },
}

/// The ledger after a call.
pub open spec fn called(l: LedgerView, c: CallView) -> LedgerView {
    match c {
        CallView::Transaction(t) => l.submitted(t).0,
        CallView::Envelope(e) => l.blinded_submitted(e).0,
        CallView::Reveal(r) => l.reveal_submitted(r).0,
        CallView::Block { block, verify, now_ms } => l.block_applied(block, verify, now_ms).0,
        CallView::Snapshot { snapshot, now_ms } => l.extended(snapshot, true, now_ms).0,
    }
}

/// The ledger after calls, one after another.
pub open spec fn all_called(l: LedgerView, calls: Seq<CallView>) -> LedgerView
    decreases calls.len(),
{
    if calls.len() == 0 {
        l
    } else {
        called(all_called(l, calls.drop_last()), calls.last())
    }
}

/// Whether a call hands in no block whose delay was not served, and the block, if any, is accepted or
/// changes nothing.
pub open spec fn is_proper(l: LedgerView, c: CallView) -> bool {
    c matches CallView::Block { block, verify, now_ms } ==> {
        &&& verify || vdf::solution_verifies(block.vdf_seed(), block.vdf_rounds, block.vdf_output)
        &&& l.block_applied(block, verify, now_ms).1 is Ok || l.block_applied(block, verify, now_ms).0 == l
    }
}

/// Whether every call is proper where it is made.
pub open spec fn all_proper(l: LedgerView, calls: Seq<CallView>) -> bool
    decreases calls.len(),
{
    calls.len() > 0 ==> {
        let before = all_called(l, calls.drop_last());
        all_proper(l, calls.drop_last()) && before.valid() && before.chain.len() <= u64::MAX && is_proper(
            before,
            calls.last(),
        )
    }
}

proof fn call_keeps_restorable(l: LedgerView, c: CallView)
    requires
        l.valid(),
        l.chain.len() <= u64::MAX,
        l.restorable(u64::MAX),
        is_proper(l, c),
    ensures
        called(l, c).restorable(u64::MAX),
{
    match c {
        CallView::Transaction(t) => {
            submitting_keeps_restorable(l, t, arbitrary(), arbitrary(), u64::MAX);
        },
        CallView::Envelope(e) => {
            submitting_keeps_restorable(l, arbitrary(), e, arbitrary(), u64::MAX);
        },
        CallView::Reveal(r) => {
            submitting_keeps_restorable(l, arbitrary(), arbitrary(), r, u64::MAX);
        },
        CallView::Block { block, verify, now_ms } => {
            if l.block_applied(block, verify, now_ms).1 is Ok {
                applying_keeps_restorable(l, block, verify, now_ms, u64::MAX);
            }
        },
        CallView::Snapshot { snapshot, now_ms } => {
            adopted_chain_is_the_snapshot(l, snapshot, true, now_ms);
            if l.extended(snapshot, true, now_ms).1 == Ok::<bool, Seq<char>>(true) {
                let fresh = forks::restored(snapshot, true, now_ms)->Ok_0;
                let after = l.extended(snapshot, true, now_ms).0;
                restored_ledger_is_restorable(snapshot, now_ms);
                restorable_later(fresh, now_ms, u64::MAX);
                assert(after.settled().snapshot() == fresh.settled().snapshot());
                assert(after.snapshot() == fresh.snapshot());
            }
        },
    }
}

proof fn calls_keep_restorable(l: LedgerView, calls: Seq<CallView>)
    requires
        l.restorable(u64::MAX),
        all_proper(l, calls),
    ensures
        all_called(l, calls).restorable(u64::MAX),
    decreases calls.len(),
{
    if calls.len() > 0 {
        calls_keep_restorable(l, calls.drop_last());
        call_keeps_restorable(all_called(l, calls.drop_last()), calls.last());
    }
}

proof fn grown_chain_is_short(l: LedgerView, bs: Seq<BlockView>, verify: bool, now_ms: u64)
    requires
        l.chain.len() == 1,
        l.chain[0].height == 0,
        forks::grown(l, bs, verify, now_ms) is Ok,
    ensures
        1 <= forks::grown(l, bs, verify, now_ms)->Ok_0.chain.len() <= bs.len() + 1,
        forks::grown(l, bs, verify, now_ms)->Ok_0.height() < forks::grown(l, bs, verify, now_ms)->Ok_0.chain.len(),
    decreases bs.len(),
{
    if bs.len() > 0 {
        grown_chain_is_short(l, bs.drop_last(), verify, now_ms);
        let m = forks::grown(l, bs.drop_last(), verify, now_ms)->Ok_0;
        let b = bs.last();
        reveal(LedgerView::block_applied);
        if let Ok((u, held)) = m.block_effects(b) {
            mempool::promotion_only_moves(m.stacked(b, u, held).swept(b));
        }
    }
}

proof fn grown_needs_each(l: LedgerView, bs: Seq<BlockView>, verify: bool, now_ms: u64, n: int)
    requires
        0 <= n < bs.len(),
        forks::grown(l, bs, verify, now_ms) is Ok,
    ensures
        forks::grown(l, bs.take(n), verify, now_ms) is Ok,
        forks::grown(l, bs.take(n), verify, now_ms)->Ok_0.block_applied(bs[n], verify, now_ms).1 is Ok,
    decreases bs.len(),
{
    if n < bs.len() - 1 {
        assert(bs.drop_last().take(n) =~= bs.take(n));
        grown_needs_each(l, bs.drop_last(), verify, now_ms, n);
    } else {
        assert(bs.take(n) =~= bs.drop_last());
    }
}

/// A snapshot with a block that was altered after it was hashed is refused, whichever block it is.
pub proof fn altered_snapshot_is_refused(s: ChainSnapshotView, verify: bool, now_ms: u64, n: int)
    requires
        0 <= n < s.blocks.len(),
        s.blocks[n].height == n,
        s.blocks[n].hash != s.blocks[n].computed_hash(),
    ensures
        forks::restored(s, verify, now_ms) is Err,
{
    reveal(forks::started);
    if forks::restored(s, verify, now_ms) is Ok && n > 0 {
        let l = forks::started(s)->Ok_0;
        let bs = s.blocks.skip(1);
        grown_needs_each(l, bs, verify, now_ms, n - 1);
        grown_chain_is_short(l, bs.take(n - 1), verify, now_ms);
        let m = forks::grown(l, bs.take(n - 1), verify, now_ms)->Ok_0;
        lottery::altered_block_is_refused(m, s.blocks[n], verify, now_ms);
    }
}

/// Whatever was called on a ledger since it was made, the snapshot that is kept of it gives it back:
/// the same chain, balances, held outputs, tickets, rounds and next leader. What waited is gone.
pub proof fn kept_snapshot_gives_the_ledger_back(
    allocations: AllocationsView,
    transactions: Seq<TransactionView>,
    rounds: u64,
    calls: Seq<CallView>,
)
    requires
        ledger::initial_state(allocations, transactions, rounds) is Ok,
        all_proper(ledger::initial_state(allocations, transactions, rounds)->Ok_0, calls),
    ensures
        ({
            let l = all_called(ledger::initial_state(allocations, transactions, rounds)->Ok_0, calls);
            &&& forks::restored(l.snapshot(), true, u64::MAX) matches Ok(r)
            &&& r.snapshot() == l.snapshot()
            &&& r.utxos == l.utxos && r.locked == l.locked
            &&& r.tickets == l.tickets && r.active_blinded == l.active_blinded
            &&& r.vdf_rounds == l.vdf_rounds
            &&& r.next_leader() == l.next_leader()
            &&& r.pending.len() == 0 && r.orphans.len() == 0
            &&& r.pending_blinded.len() == 0 && r.pending_reveals.len() == 0
        }),
{
    let start = ledger::initial_state(allocations, transactions, rounds)->Ok_0;
    new_ledger_is_restorable(allocations, transactions, rounds, u64::MAX);
    calls_keep_restorable(start, calls);
    let l = all_called(start, calls);
    assert(l.settled().next_leader() == l.next_leader());
}

} // verus!
