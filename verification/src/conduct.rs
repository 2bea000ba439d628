//! What messages can and cannot make a node do.
use crate::blinded::{BlindedRevealView, BlindedTransactionView, BuiltBlindedTransactionView, RevealBundleView};
use crate::block::BlockView;
use crate::forks;
use crate::gossip::GossipView;
use crate::ledger;
use crate::ledger::LedgerView;
use crate::mempool;
use crate::mempool::TransactionSubmitOutcome;
use crate::model;
use crate::node;
use crate::node::{BundleSlot, NodeView, OwnedPayloadsView};
use crate::relay;
use crate::sorted;
use crate::sorted::Ordered;
use crate::transaction::TransactionView;
use vstd::prelude::*;

verus! {

/// Whether a node still has its wallet and its settings, and every message that it was to send.
pub open spec fn same_conduct(n: NodeView, m: NodeView) -> bool {
    &&& m.wallet == n.wallet
    &&& m.automatic_mining_enabled == n.automatic_mining_enabled
    &&& m.pow_mining_enabled == n.pow_mining_enabled
    &&& m.pow_mining_workers == n.pow_mining_workers
    &&& m.burn_per_block == n.burn_per_block
    &&& m.burn_fee == n.burn_fee
    &&& m.recovery_vdf_top_rank_percent == n.recovery_vdf_top_rank_percent
    &&& n.outbox.is_prefix_of(m.outbox)
}

/// Whether a node still has its chain, with all that follows from it; what waits may differ.
pub open spec fn same_chain(n: NodeView, m: NodeView) -> bool {
    m.ledger == (LedgerView {
        pending: m.ledger.pending,
        orphans: m.ledger.orphans,
        pending_blinded: m.ledger.pending_blinded,
        pending_reveals: m.ledger.pending_reveals,
        ..n.ledger
    })
}

/// What every step of a run keeps, the run keeps.
proof fn run_keeps<S, T>(s: S, items: Seq<T>, step: spec_fn(S, T) -> (S, Result<(), Seq<char>>), kept: spec_fn(S) -> bool)
    requires
        kept(s),
        forall|t: S, x: T| kept(t) ==> kept((#[trigger] step(t, x)).0),
    ensures
        kept(relay::run(s, items, step).0),
    decreases items.len(),
{
    if items.len() > 0 {
        run_keeps(s, items.drop_last(), step, kept);
    }
}

/// A single item that waits for a block changes nothing but what waits and what is passed on.
proof fn item_is_only_queued(
    n: NodeView,
    m: NodeView,
    t: TransactionView,
    envelope: BlindedTransactionView,
    reveal: BlindedRevealView,
    bundle: RevealBundleView,
)
    requires
        same_conduct(n, m),
        same_chain(n, m),
    ensures
        same_conduct(n, m.mine_taken(t).0) && same_chain(n, m.mine_taken(t).0),
        same_conduct(n, m.envelope_taken(envelope).0) && same_chain(n, m.envelope_taken(envelope).0),
        same_conduct(n, m.reveal_taken(reveal).0) && same_chain(n, m.reveal_taken(reveal).0),
        same_conduct(n, m.bundle_taken(bundle).0) && same_chain(n, m.bundle_taken(bundle).0),
        same_conduct(n, m.own_bundle_published().0) && same_chain(n, m.own_bundle_published().0),
{
    reveal(NodeView::own_bundle_published);
    forks::submitting_keeps_chain(m.ledger, t);
}

proof fn items_are_only_queued(n: NodeView, e: GossipView, times: Seq<u64>)
    requires
        !(e is Block),
        !(e is Blocks),
        !(e is ChainSnapshot),
    ensures
        same_conduct(n, n.received(e, times).0),
        same_chain(n, n.received(e, times).0),
{
    reveal(NodeView::received);
    let kept = |m: NodeView| same_conduct(n, m) && same_chain(n, m);
    let kept_pair = |s: (NodeView, bool)| same_conduct(n, s.0) && same_chain(n, s.0);
    assert forall|m: NodeView, t: TransactionView| kept(m) implies kept((#[trigger] relay::mine_step()(m, t)).0) by {
        item_is_only_queued(n, m, t, arbitrary(), arbitrary(), arbitrary());
    }
    assert forall|m: NodeView, t: BlindedTransactionView| kept(m) implies kept(
        (#[trigger] relay::envelope_step()(m, t)).0,
    ) by {
        item_is_only_queued(n, m, arbitrary(), t, arbitrary(), arbitrary());
    }
    assert forall|m: NodeView, r: BlindedRevealView| kept(m) implies kept((#[trigger] relay::publish_step()(m, r)).0) by {
        item_is_only_queued(n, m, arbitrary(), arbitrary(), r, arbitrary());
    }
    assert forall|s: (NodeView, bool), r: BlindedRevealView| kept_pair(s) implies kept_pair(
        (#[trigger] relay::reveal_step()(s, r)).0,
    ) by {
        item_is_only_queued(n, s.0, arbitrary(), arbitrary(), r, arbitrary());
    }
    assert forall|m: NodeView, b: RevealBundleView| kept(m) implies kept((#[trigger] relay::bundle_step()(m, b)).0) by {
        item_is_only_queued(n, m, arbitrary(), arbitrary(), arbitrary(), b);
    }
    assert(kept(n));
    match e {
        GossipView::BlindedTransaction(t) => {
            assert(kept(relay::envelope_step()(n, t).0));
        },
        GossipView::BlindedTransactions { transactions } => {
            run_keeps(n, transactions, relay::envelope_step(), kept);
        },
        GossipView::MineAction(t) => {
            assert(kept(relay::mine_step()(n, t).0));
        },
        GossipView::MineActions { transactions } => {
            run_keeps(n, transactions, relay::mine_step(), kept);
        },
        GossipView::BlindedReveal(r) => {
            assert(kept(relay::publish_step()(n, r).0));
        },
        GossipView::BlindedReveals { reveals } => {
            run_keeps((n, false), reveals, relay::reveal_step(), kept_pair);
            let s = relay::run((n, false), reveals, relay::reveal_step()).0;
            assert(kept_pair(s));
            item_is_only_queued(n, s.0, arbitrary(), arbitrary(), arbitrary(), arbitrary());
        },
        GossipView::RevealBundle(b) => {
            assert(kept(relay::bundle_step()(n, b).0));
        },
        GossipView::RevealBundles { bundles } => {
            run_keeps(n, bundles, relay::bundle_step(), kept);
        },
        _ => {},
    }
}

/// Only blocks and chains change the chain of a node: no other message does.
pub proof fn only_blocks_change_the_chain(n: NodeView, e: GossipView, times: Seq<u64>)
    requires
        !(e is Block),
        !(e is Blocks),
        !(e is ChainSnapshot),
    ensures
        same_chain(n, n.received(e, times).0),
{
    items_are_only_queued(n, e, times);
}

proof fn publishing_keeps_conduct(n: NodeView, m: NodeView, reveals: Seq<BlindedRevealView>)
    requires
        same_conduct(n, m),
    ensures
        same_conduct(n, relay::run(m, reveals, relay::publish_step()).0),
{
    let kept = |x: NodeView| same_conduct(n, x);
    assert forall|x: NodeView, r: BlindedRevealView| kept(x) implies kept((#[trigger] relay::publish_step()(x, r)).0) by {
    }
    run_keeps(m, reveals, relay::publish_step(), kept);
}

proof fn block_keeps_conduct(n: NodeView, m: NodeView, b: BlockView, verify: bool, now_ms: u64)
    requires
        same_conduct(n, m),
    ensures
        same_conduct(n, m.block_taken(b, verify, now_ms).0),
{
    let l = m.ledger.block_applied(b, verify, now_ms).0;
    let after = (NodeView { ledger: l, ..m }).after_block(b);
    publishing_keeps_conduct(n, after, relay::reveals_for(after.owned_reveals, b.blinded_transactions));
}

proof fn blocks_keep_conduct(n: NodeView, received: Seq<BlockView>, times: Seq<u64>)
    ensures
        same_conduct(n, n.blocks_relayed(received, times).0),
{
    let kept = |s: (NodeView, Seq<BlockView>)| same_conduct(n, s.0);
    assert forall|s: (NodeView, Seq<BlockView>), b: (BlockView, u64)| kept(s) implies kept(
        (#[trigger] relay::block_step()(s, b)).0,
    ) by {
        block_keeps_conduct(n, s.0, b.0, true, b.1);
    }
    let start = (n, Seq::<BlockView>::empty());
    assert(kept(start));
    run_keeps(start, relay::timed(received, times), relay::block_step(), kept);
}

proof fn import_keeps_conduct(n: NodeView, m: NodeView, previous_height: u64)
    requires
        same_conduct(n, m),
    ensures
        same_conduct(n, m.imported(previous_height).0),
{
    let kept = |x: NodeView| same_conduct(n, x);
    assert forall|x: NodeView, b: BlockView| kept(x) implies kept((#[trigger] relay::import_step()(x, b)).0) by {
        let y = x.bundles_pruned().owned_pruned(b);
        publishing_keeps_conduct(n, y, relay::reveals_for(y.owned_reveals, b.blinded_transactions));
    }
    run_keeps(m, m.imported_blocks(previous_height), relay::import_step(), kept);
}

/// No message changes the wallet or the settings of a node, or takes back what it was to send.
pub proof fn messages_keep_conduct(n: NodeView, e: GossipView, times: Seq<u64>)
    ensures
        same_conduct(n, n.received(e, times).0),
{
    reveal(NodeView::received);
    match e {
        GossipView::Block(b) => {
            block_keeps_conduct(n, n, b, true, times[0]);
        },
        GossipView::Blocks { blocks } => {
            blocks_keep_conduct(n, blocks, times);
        },
        GossipView::ChainSnapshot(s) => {
            let l = n.ledger.extended(s, true, times[0]).0;
            import_keeps_conduct(n, (NodeView { ledger: l, ..n }).restarted(), n.ledger.height());
        },
        _ => {
            items_are_only_queued(n, e, times);
        },
    }
}

/// An envelope, a reveal or a mine action that was taken in is known: when it comes again, the node
/// stays as it is and passes nothing on.
pub proof fn taken_items_are_known(n: NodeView, t: TransactionView, envelope: BlindedTransactionView, revealed: BlindedRevealView)
    ensures
        n.mine_taken(t).1 is Ok ==> n.mine_taken(t).0.mine_taken(t) == (n.mine_taken(t).0, Ok::<(), Seq<char>>(())),
        n.envelope_taken(envelope).1 is Ok ==> n.envelope_taken(envelope).0.envelope_taken(envelope) == (
            n.envelope_taken(envelope).0,
            Ok::<(), Seq<char>>(()),
        ),
        n.reveal_taken(revealed).1 is Ok ==> n.reveal_taken(revealed).0.reveal_taken(revealed) == (
            n.reveal_taken(revealed).0,
            Ok::<bool, Seq<char>>(false),
        ),
{
    mempool::added_envelope_is_known(n.ledger, envelope, revealed);
    if n.mine_taken(t).1 is Ok {
        match n.ledger.submitted(t) {
            (l, Ok(outcome)) => if outcome == TransactionSubmitOutcome::Added {
                mempool::added_transaction_is_known(n.ledger, t);
            } else {
                reveal(LedgerView::submitted);
                assert(l == n.ledger);
            },
            _ => {},
        }
    }
}

/// A kept envelope that names an output which the chain spent is not taken up again: the node stays as
/// it is.
pub proof fn stale_envelope_is_not_restored(n: NodeView, b: BuiltBlindedTransactionView, i: int)
    requires
        n.valid(),
        !n.ledger.knows_blinded(b.transaction.commitment),
        0 <= i < b.transaction.inputs.len(),
        sorted::lookup(n.ledger.utxos, b.transaction.inputs[i].outpoint) is None,
        ledger::spent_in_blocks(n.ledger.chain, b.transaction.inputs[i].outpoint),
    ensures
        n.restored_one(b) == n,
{
    mempool::unfunded_envelope_is_refused(n.ledger, b.transaction, i);
}

proof fn queueing_forgets_nothing(
    n: NodeView,
    l: LedgerView,
    payloads: OwnedPayloadsView,
    i: int,
    signature: Seq<char>,
)
    requires
        0 <= i <= payloads.len(),
        n.queued(l, payloads.take(i)).knows_transaction(signature),
    ensures
        n.queued(l, payloads).knows_transaction(signature),
    decreases payloads.len(),
{
    if i < payloads.len() {
        let earlier = payloads.drop_last();
        assert(earlier.take(i) =~= payloads.take(i));
        queueing_forgets_nothing(n, l, earlier, i, signature);
        let before = n.queued(l, earlier);
        let (commitment, payload) = payloads.last();
        assert(n.ready_for(before, commitment, payload).knows_transaction(signature));
        mempool::submitting_forgets_nothing(n.ready_for(before, commitment, payload), payload, signature);
    } else {
        assert(payloads.take(i) =~= payloads);
    }
}

/// A payment of the wallet that is still sealed is known to the ledger that the next payment is built
/// on, unless it was refused when its turn came.
pub proof fn own_payment_is_queued(n: NodeView, i: int)
    requires
        0 <= i < n.owned_payloads.len(),
        n.ledger.knows_unrevealed(n.owned_payloads[i].0),
        ({
            let (commitment, payload) = n.owned_payloads[i];
            let before = n.queued(n.reserved_ledger(), n.owned_payloads.take(i));
            n.ready_for(before, commitment, payload).submitted(payload).1 == Ok::<
                TransactionSubmitOutcome,
                Seq<char>,
            >(TransactionSubmitOutcome::Added) || before.knows_transaction(payload.signature())
        }),
    ensures
        n.build_ledger().knows_transaction(n.owned_payloads[i].1.signature()),
{
    let payloads = n.owned_payloads;
    let (commitment, payload) = payloads[i];
    let l = n.reserved_ledger();
    let before = n.queued(l, payloads.take(i));
    assert(payloads.take(i + 1).drop_last() =~= payloads.take(i));
    assert(payloads.take(i + 1).last() == payloads[i]);
    if !before.knows_transaction(payload.signature()) {
        mempool::added_transaction_is_known(n.ready_for(before, commitment, payload), payload);
    }
    queueing_forgets_nothing(n, l, payloads, i + 1, payload.signature());
}

/// The node with a slot voided.
pub open spec fn with_void_slot(n: NodeView, key: BundleSlot) -> NodeView {
    NodeView { bundles: sorted::without(n.bundles, key), equivocated: n.equivocated.push(key), ..n }
}

/// Two different bundles for one slot void it.
pub proof fn equivocation_voids_a_slot(n: NodeView, a: RevealBundleView, b: RevealBundleView)
    requires
        sorted::lookup(n.bundles, node::slot_of(a)) == Some(a),
        a.height == n.ledger.next_height(),
        node::slot_of(b) == node::slot_of(a),
        b.canonical() != a.canonical(),
        !n.equivocated.contains(node::slot_of(a)),
    ensures
        n.bundle_taken(b) == (with_void_slot(n, node::slot_of(a)), Ok::<(), Seq<char>>(())),
{
}

/// A bundle for a void slot is ignored, and none for it goes into the next block.
pub proof fn void_slot_stays_empty(n: NodeView, key: BundleSlot, b: RevealBundleView)
    requires
        n.valid(),
        n.equivocated.contains(key),
        node::slot_of(b) == key,
    ensures
        n.bundle_taken(b) == (n, Ok::<(), Seq<char>>(())),
        forall|i: int| 0 <= i < n.usable_bundles().len() ==> node::slot_of(#[trigger] n.usable_bundles()[i]) != key,
{
    assert forall|i: int| 0 <= i < n.usable_bundles().len() implies node::slot_of(#[trigger] n.usable_bundles()[i])
        != key by {
        usable_is_held(n, i);
    }
}

proof fn usable_is_held(n: NodeView, i: int)
    requires
        0 <= i < n.usable_bundles().len(),
    ensures
        ({
            let e = n.bundles.filter(relay::is_usable(n))[i];
            &&& n.usable_bundles()[i] == e.1
            &&& e.0.height == n.ledger.next_height()
            &&& !n.equivocated.contains(e.0)
            &&& exists|k: int| 0 <= k < n.bundles.len() && #[trigger] n.bundles[k] == e
        }),
{
    model::filter_keeps(n.bundles, relay::is_usable(n), i);
}

/// The bundles that a node may put into the next block are for that block, one for a slot at most,
/// in slot order.
pub proof fn usable_bundles_are_in_order(n: NodeView, i: int, k: int)
    requires
        n.valid(),
        0 <= i < k < n.usable_bundles().len(),
    ensures
        n.usable_bundles()[i].height == n.ledger.next_height(),
        n.usable_bundles()[k].height == n.ledger.next_height(),
        n.usable_bundles()[i].slot < n.usable_bundles()[k].slot,
{
    let p = relay::is_usable(n);
    let kept = n.bundles.filter(p);
    usable_is_held(n, i);
    usable_is_held(n, k);
    sorted::filter_increasing::<BundleSlot, RevealBundleView>(n.bundles, p);
    assert(<BundleSlot as Ordered>::before(kept[i].0, kept[k].0));
}

} // verus!
