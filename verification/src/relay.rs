//! What a node makes of the messages that it gets, and what it passes on.
use crate::blinded::{
    BlindedReveal, BlindedRevealView, BlindedTransaction, BlindedTransactionView, BuiltBlindedTransaction,
    BuiltBlindedTransactionView, OwnedBlindedTransaction, RevealBundle, RevealBundleView,
};
use crate::block;
use crate::block::{Block, BlockView};
use crate::crypto;
use crate::error;
use crate::error::Error;
use crate::forks::{ChainSnapshot, ChainSnapshotView};
use crate::gossip;
use crate::gossip::{
    BlockInventory, BlockInventoryView, GossipEnvelope, GossipView, ProtocolHello, ProtocolHelloView, BLOCK_REQUEST_LIMIT,
    NETWORK_ID, PROTOCOL_VERSION,
};
use crate::ledger;
use crate::ledger::{Ledger, LedgerView};
use crate::locks;
use crate::mempool::TransactionSubmitOutcome;
use crate::model;
use crate::model::Model;
use crate::node;
use crate::node::{BundleSlot, NodeCore, NodeView, NodeWallet, WalletView};
use crate::sorted;
use crate::sorted::SortedMap;
use crate::text;
use crate::transaction::{Transaction, TransactionView};
use vstd::prelude::*;

verus! {

pub const IMPORT_REBROADCAST_LIMIT: usize = 128;

/// A step on each item in turn; the first refusal stops.
pub open spec fn run<S, T>(s: S, items: Seq<T>, step: spec_fn(S, T) -> (S, Result<(), Seq<char>>)) -> (
    S,
    Result<(), Seq<char>>,
)
    decreases items.len(),
{
    if items.len() == 0 {
        (s, Ok(()))
    } else {
        match run(s, items.drop_last(), step) {
            (t, Err(e)) => (t, Err(e)),
            (t, Ok(_)) => step(t, items.last()),
        }
    }
}

/// A run that stopped stays stopped.
pub proof fn run_stops<S, T>(s: S, items: Seq<T>, step: spec_fn(S, T) -> (S, Result<(), Seq<char>>), n: int)
    requires
        0 <= n <= items.len(),
        run(s, items.take(n), step).1 is Err,
    ensures
        run(s, items, step) == run(s, items.take(n), step),
    decreases items.len(),
{
    if n == items.len() {
        model::take_all(items);
    } else {
        assert(items.drop_last().take(n) =~= items.take(n));
        run_stops(s, items.drop_last(), step, n);
    }
}

/// One more item of a run.
pub proof fn run_step<S, T>(s: S, items: Seq<T>, step: spec_fn(S, T) -> (S, Result<(), Seq<char>>), n: int)
    requires
        0 <= n < items.len(),
        run(s, items.take(n), step).1 is Ok,
    ensures
        run(s, items.take(n + 1), step) == step(run(s, items.take(n), step).0, items[n]),
        run(s, items.take(n + 1), step).1 is Err ==> run(s, items, step) == run(s, items.take(n + 1), step),
{
    assert(items.take(n + 1).drop_last() =~= items.take(n));
    if run(s, items.take(n + 1), step).1 is Err {
        run_stops(s, items, step, n + 1);
    }
}

/// The owned envelopes that stay once a block is on the chain: those that are still sealed.
pub open spec fn stays_owned<W>(n: NodeView, b: BlockView) -> spec_fn((Seq<char>, W)) -> bool {
    |e: (Seq<char>, W)|
        !block::reveals_commitment(b.all_reveals(), e.0) && n.ledger.knows_unrevealed(e.0) && sorted::lookup(
            n.owned_transactions,
            e.0,
        ) is Some
}

/// The bundles that are not of past blocks.
pub open spec fn is_ahead(height: u64) -> spec_fn((BundleSlot, RevealBundleView)) -> bool {
    |e: (BundleSlot, RevealBundleView)| e.0.height > height
}

pub open spec fn slot_is_ahead(height: u64) -> spec_fn(BundleSlot) -> bool {
    |s: BundleSlot| s.height > height
}

/// The bundles that the next block may carry.
pub open spec fn is_usable(n: NodeView) -> spec_fn((BundleSlot, RevealBundleView)) -> bool {
    |e: (BundleSlot, RevealBundleView)| e.0.height == n.ledger.next_height() && !n.equivocated.contains(e.0)
}

/// The reveals of entries.
pub open spec fn values<A, W>(entries: Seq<(A, W)>) -> Seq<W> {
    Seq::new(entries.len(), |i: int| entries[i].1)
}

pub open spec fn is_active(l: LedgerView) -> spec_fn((Seq<char>, BlindedRevealView)) -> bool {
    |e: (Seq<char>, BlindedRevealView)| sorted::lookup(l.active_blinded, e.0) is Some
}

/// The owned reveals of envelopes.
pub open spec fn reveals_for(owned: Seq<(Seq<char>, BlindedRevealView)>, envelopes: Seq<BlindedTransactionView>) -> Seq<
    BlindedRevealView,
>
    decreases envelopes.len(),
{
    if envelopes.len() == 0 {
        Seq::<BlindedRevealView>::empty()
    } else {
        let before = reveals_for(owned, envelopes.drop_last());
        match sorted::lookup(owned, envelopes.last().commitment) {
            Some(r) => before.push(r),
            None => before,
        }
    }
}

pub open spec fn publish_step() -> spec_fn(NodeView, BlindedRevealView) -> (NodeView, Result<(), Seq<char>>) {
    |n: NodeView, r: BlindedRevealView|
        match n.reveal_taken(r) {
            (m, Ok(_)) => (m, Ok(())),
            (m, Err(e)) => (m, Err(e)),
        }
}

pub open spec fn envelope_step() -> spec_fn(NodeView, BlindedTransactionView) -> (NodeView, Result<(), Seq<char>>) {
    |n: NodeView, t: BlindedTransactionView| n.envelope_taken(t)
}

pub open spec fn mine_step() -> spec_fn(NodeView, TransactionView) -> (NodeView, Result<(), Seq<char>>) {
    |n: NodeView, t: TransactionView| n.mine_taken(t)
}

pub open spec fn bundle_step() -> spec_fn(NodeView, RevealBundleView) -> (NodeView, Result<(), Seq<char>>) {
    |n: NodeView, b: RevealBundleView| n.bundle_taken(b)
}

/// Reveals one after another, with whether any was new.
pub open spec fn reveal_step() -> spec_fn((NodeView, bool), BlindedRevealView) -> (
    (NodeView, bool),
    Result<(), Seq<char>>,
) {
    |s: (NodeView, bool), r: BlindedRevealView|
        match s.0.reveal_taken(r) {
            (m, Ok(added)) => ((m, s.1 || added), Ok(())),
            (m, Err(e)) => ((m, s.1), Err(e)),
        }
}

/// Blocks one after another, each with the time at which it is looked at, and those that were new.
pub open spec fn block_step() -> spec_fn((NodeView, Seq<BlockView>), (BlockView, u64)) -> (
    (NodeView, Seq<BlockView>),
    Result<(), Seq<char>>,
) {
    |s: (NodeView, Seq<BlockView>), b: (BlockView, u64)|
        match s.0.block_taken(b.0, true, b.1) {
            (m, Ok(new)) => (
                (
                    m,
                    if new {
                        s.1.push(b.0)
                    } else {
                        s.1
                    },
                ),
                Ok(()),
            ),
            (m, Err(e)) => ((m, s.1), Err(e)),
        }
}

/// What an imported block changes.
pub open spec fn import_step() -> spec_fn(NodeView, BlockView) -> (NodeView, Result<(), Seq<char>>) {
    |n: NodeView, b: BlockView| n.bundles_pruned().owned_pruned(b).published_for(b)
}

/// Blocks, each with a time.
pub open spec fn timed(blocks: Seq<BlockView>, times: Seq<u64>) -> Seq<(BlockView, u64)> {
    Seq::new(blocks.len(), |i: int| (blocks[i], times[i]))
}

/// The messages that pass on blocks.
pub open spec fn block_messages(blocks: Seq<BlockView>) -> Seq<GossipView> {
    Seq::new(blocks.len(), |i: int| GossipView::Block(blocks[i]))
}

/// How often the clock is read for a message.
pub open spec fn clock_reads(e: GossipView) -> nat {
    match e {
        GossipView::Block(_) => 1,
        GossipView::ChainSnapshot(_) => 1,
        GossipView::Blocks { blocks } => blocks.len(),
        _ => 0,
    }
}

impl NodeView {
    /// The node after a mine action came in.
    pub open spec fn mine_taken(self, t: TransactionView) -> (NodeView, Result<(), Seq<char>>) {
        if !(t is Mine) {
            (self, Err("only mine actions may be gossiped as plaintext"@))
        } else {
            match self.ledger.submitted(t) {
                (l, Err(e)) => (NodeView { ledger: l, ..self }, Err(e)),
                (l, Ok(outcome)) => (
                    if outcome == TransactionSubmitOutcome::Added {
                        NodeView { ledger: l, ..self }.sending(GossipView::MineAction(t))
                    } else {
                        NodeView { ledger: l, ..self }
                    },
                    Ok(()),
                ),
            }
        }
    }

    /// Whether an envelope names what the open anchor of this node spends.
    pub open spec fn spends_anchor_inputs(self, t: BlindedTransactionView) -> bool {
        self.open_anchor(self.ledger) matches Some(burn) && locks::overlap(t.inputs, burn.inputs())
    }

    /// The node after an envelope came in. One that names what the open anchor spends is let be.
    pub open spec fn envelope_taken(self, t: BlindedTransactionView) -> (NodeView, Result<(), Seq<char>>) {
        if self.spends_anchor_inputs(t) {
            (self, Ok(()))
        } else {
            self.envelope_queued(t)
        }
    }

    /// The node after an envelope was handed to its ledger.
    pub open spec fn envelope_queued(self, t: BlindedTransactionView) -> (NodeView, Result<(), Seq<char>>) {
        match self.ledger.blinded_submitted(t) {
            (l, Err(e)) => (NodeView { ledger: l, ..self }, Err(e)),
            (l, Ok(added)) => (
                if added {
                    NodeView { ledger: l, ..self }.sending(GossipView::BlindedTransaction(t))
                } else {
                    NodeView { ledger: l, ..self }
                },
                Ok(()),
            ),
        }
    }

    /// The node after a reveal came in, and whether it was new.
    pub open spec fn reveal_taken(self, r: BlindedRevealView) -> (NodeView, Result<bool, Seq<char>>) {
        match self.ledger.reveal_submitted(r) {
            (l, Err(e)) => (NodeView { ledger: l, ..self }, Err(e)),
            (l, Ok(added)) => (
                if added {
                    NodeView { ledger: l, ..self }.sending(GossipView::BlindedReveal(r))
                } else {
                    NodeView { ledger: l, ..self }
                },
                Ok(added),
            ),
        }
    }

    /// The node with a bundle that it passes on.
    pub open spec fn with_bundle(self, b: RevealBundleView) -> NodeView {
        NodeView {
            bundles: sorted::with::<BundleSlot, RevealBundleView>(self.bundles, node::slot_of(b), b),
            ..self
        }.sending(GossipView::RevealBundle(b))
    }

    /// The node after a bundle came in. A member that signs two bundles for a slot has none.
    pub open spec fn bundle_taken(self, b: RevealBundleView) -> (NodeView, Result<(), Seq<char>>) {
        let key = node::slot_of(b);
        if b.height != self.ledger.next_height() || self.equivocated.contains(key) {
            (self, Ok(()))
        } else {
            match sorted::lookup(self.bundles, key) {
                Some(existing) => if existing.canonical() == b.canonical() {
                    (self, Ok(()))
                } else {
                    (
                        NodeView {
                            bundles: sorted::without(self.bundles, key),
                            equivocated: self.equivocated.push(key),
                            ..self
                        },
                        Ok(()),
                    )
                },
                None => match self.ledger.bundles_check(
                    self.ledger.next_height(),
                    self.ledger.tip().hash,
                    seq![b],
                ) {
                    Err(e) => (self, Err(e)),
                    Ok(_) => (self.with_bundle(b), Ok(())),
                },
            }
        }
    }

    /// The node with its own bundle for the next block, where it has one to give.
    #[verifier::opaque]
    pub open spec fn own_bundle_published(self) -> (NodeView, Result<(), Seq<char>>) {
        match self.wallet {
            WalletView::Locked(_) => (self, Ok(())),
            WalletView::Unlocked(seed) => match self.ledger.own_bundle(seed) {
                None => (self, Ok(())),
                Some(b) => if self.equivocated.contains(node::slot_of(b)) || sorted::lookup(
                    self.bundles,
                    node::slot_of(b),
                ) is Some {
                    (self, Ok(()))
                } else {
                    match self.ledger.bundles_check(self.ledger.next_height(), self.ledger.tip().hash, seq![b]) {
                        Err(e) => (self, Err(e)),
                        Ok(_) => (self.with_bundle(b), Ok(())),
                    }
                },
            },
        }
    }

    /// The bundles that the next block may carry, in slot order.
    pub open spec fn usable_bundles(self) -> Seq<RevealBundleView> {
        values(self.bundles.filter(is_usable(self)))
    }

    /// The node without the bundles of past blocks.
    pub open spec fn bundles_pruned(self) -> NodeView {
        NodeView {
            bundles: self.bundles.filter(is_ahead(self.ledger.height())),
            equivocated: self.equivocated.filter(slot_is_ahead(self.ledger.height())),
            ..self
        }
    }

    /// The node without an anchor burn of a past height.
    pub open spec fn anchor_cleared(self) -> NodeView {
        NodeView {
            anchor_burn: match self.anchor_burn {
                Some((height, burn)) => if height == self.ledger.height() {
                    Some((height, burn))
                } else {
                    None
                },
                None => None,
            },
            ..self
        }
    }

    /// The node without the envelopes that a block opened.
    pub open spec fn owned_pruned(self, b: BlockView) -> NodeView {
        let n = NodeView {
            owned_transactions: self.owned_transactions.filter(stays_owned(self, b)),
            owned_reveals: self.owned_reveals.filter(stays_owned(self, b)),
            owned_payloads: self.owned_payloads.filter(stays_owned(self, b)),
            ..self
        };
        if n.owned_transactions.len() + n.owned_reveals.len() + n.owned_payloads.len()
            == self.owned_transactions.len() + self.owned_reveals.len() + self.owned_payloads.len() {
            n
        } else {
            n.bumped()
        }
    }

    /// The node once it gave the reveals of its envelopes in a block.
    pub open spec fn published_for(self, b: BlockView) -> (NodeView, Result<(), Seq<char>>) {
        run(self, reveals_for(self.owned_reveals, b.blinded_transactions), publish_step())
    }

    /// The node once it gave the reveals of all its envelopes that are on the chain.
    pub open spec fn published_active(self) -> (NodeView, Result<(), Seq<char>>) {
        run(self, values(self.owned_reveals.filter(is_active(self.ledger))), publish_step())
    }

    /// The node once a block is on the chain.
    pub open spec fn after_block(self, b: BlockView) -> NodeView {
        self.anchor_cleared().bundles_pruned().owned_pruned(b)
    }

    /// The node after a block came in, and whether it was new.
    pub open spec fn block_taken(self, b: BlockView, verify: bool, now_ms: u64) -> (NodeView, Result<bool, Seq<char>>) {
        let (l, applied) = self.ledger.block_applied(b, verify, now_ms);
        let n = NodeView { ledger: l, ..self };
        match applied {
            Err(e) => (n, Err(e)),
            Ok(_) => if l.height() > self.ledger.height() {
                match n.after_block(b).published_for(b) {
                    (m, Err(e)) => (m, Err(e)),
                    (m, Ok(_)) => (m, Ok(true)),
                }
            } else {
                (n, Ok(false))
            },
        }
    }

    /// The node after a block came in that it passes on where it was new.
    pub open spec fn block_relayed(self, b: BlockView, verify: bool, now_ms: u64) -> (NodeView, Result<(), Seq<char>>) {
        match self.block_taken(b, verify, now_ms) {
            (m, Err(e)) => (m, Err(e)),
            (m, Ok(new)) => (
                if new {
                    m.sending(GossipView::Block(b))
                } else {
                    m
                },
                Ok(()),
            ),
        }
    }

    /// The node after blocks came in, each looked at at its time.
    pub open spec fn blocks_relayed(self, blocks: Seq<BlockView>, times: Seq<u64>) -> (NodeView, Result<(), Seq<char>>) {
        match run((self, Seq::<BlockView>::empty()), timed(blocks, times), block_step()) {
            ((m, _), Err(e)) => (m, Err(e)),
            ((m, new), Ok(_)) => (NodeView { outbox: m.outbox + block_messages(new), ..m }, Ok(())),
        }
    }

    /// The node with nothing left of what it did for an earlier chain.
    pub open spec fn restarted(self) -> NodeView {
        NodeView {
            last_auto_burn_height: None,
            last_auto_anchor_burn_height: None,
            last_auto_pow_mine_anchor: None,
            last_auto_pow_mine_status: None,
            cursor: None,
            ..self
        }.anchor_cleared().bundles_pruned()
    }

    /// The blocks above a height that are passed on.
    pub open spec fn imported_blocks(self, previous_height: u64) -> Seq<BlockView> {
        let n = self.ledger.chain.len() as int;
        let first = previous_height + 1;
        self.ledger.chain.subrange(
            first,
            if IMPORT_REBROADCAST_LIMIT < n - first {
                first + IMPORT_REBROADCAST_LIMIT
            } else {
                n
            },
        )
    }

    /// The node after it took over a chain that is higher than a height.
    pub open spec fn imported(self, previous_height: u64) -> (NodeView, Result<(), Seq<char>>) {
        if self.ledger.height() <= previous_height {
            (self, Ok(()))
        } else {
            match run(self, self.imported_blocks(previous_height), import_step()) {
                (m, Err(e)) => (m, Err(e)),
                (m, Ok(_)) => (
                    m.sending(GossipView::Blocks { blocks: self.imported_blocks(previous_height) }),
                    Ok(()),
                ),
            }
        }
    }

    /// The node after a chain came in.
    pub open spec fn snapshot_imported(self, s: ChainSnapshotView, now_ms: u64) -> (NodeView, Result<(), Seq<char>>) {
        let (l, extended) = self.ledger.extended(s, true, now_ms);
        let n = NodeView { ledger: l, ..self };
        match extended {
            Err(e) => (n, Err(e)),
            Ok(changed) => if changed {
                n.restarted().imported(self.ledger.height())
            } else {
                (n, Ok(()))
            },
        }
    }

    /// The node after a ledger was read from elsewhere, and whether it took it.
    pub open spec fn ledger_imported(self, l: LedgerView) -> (NodeView, Result<bool, Seq<char>>) {
        let other = l.chain[0].hash != self.ledger.chain[0].hash;
        let replaces = !self.has_real_chain() && other;
        if other && !replaces {
            (self, Err("chain snapshot genesis does not match local chain"@))
        } else if !replaces && l.height() <= self.ledger.height() {
            (self, Ok(false))
        } else {
            match (NodeView { ledger: l, ..self }).restarted().imported(self.ledger.height()) {
                (m, Err(e)) => (m, Err(e)),
                (m, Ok(_)) => (m, Ok(true)),
            }
        }
    }

    /// The node after reveals came in; new ones may give its own bundle something to hold.
    pub open spec fn reveals_taken(self, reveals: Seq<BlindedRevealView>) -> (NodeView, Result<(), Seq<char>>) {
        match run((self, false), reveals, reveal_step()) {
            ((m, _), Err(e)) => (m, Err(e)),
            ((m, added), Ok(_)) => if added {
                m.own_bundle_published()
            } else {
                (m, Ok(()))
            },
        }
    }

    /// The node after a message came in, with what the clock showed.
    #[verifier::opaque]
    pub open spec fn received(self, e: GossipView, times: Seq<u64>) -> (NodeView, Result<(), Seq<char>>) {
        match e {
            GossipView::BlindedTransaction(t) => self.envelope_taken(t),
            GossipView::BlindedTransactions { transactions } => run(self, transactions, envelope_step()),
            GossipView::MineAction(t) => self.mine_taken(t),
            GossipView::MineActions { transactions } => run(self, transactions, mine_step()),
            GossipView::BlindedReveal(r) => publish_step()(self, r),
            GossipView::BlindedReveals { reveals } => self.reveals_taken(reveals),
            GossipView::RevealBundle(b) => self.bundle_taken(b),
            GossipView::RevealBundles { bundles } => run(self, bundles, bundle_step()),
            GossipView::Block(b) => self.block_relayed(b, true, times[0]),
            GossipView::Blocks { blocks } => self.blocks_relayed(blocks, times),
            GossipView::ChainSnapshot(s) => self.snapshot_imported(s, times[0]),
            _ => (self, Ok(())),
        }
    }

    /// The node that owns an envelope.
    pub open spec fn owning(self, b: BuiltBlindedTransactionView) -> NodeView {
        let commitment = b.transaction.commitment;
        NodeView {
            owned_transactions: sorted::with::<String, BlindedTransactionView>(
                self.owned_transactions,
                commitment,
                b.transaction,
            ),
            owned_payloads: sorted::with::<String, TransactionView>(self.owned_payloads, commitment, b.payload),
            owned_reveals: sorted::with::<String, BlindedRevealView>(self.owned_reveals, commitment, b.reveal),
            ..self
        }
    }

    /// The node after the wallet gave out an envelope.
    pub open spec fn owned_submitted(self, b: BuiltBlindedTransactionView) -> (
        NodeView,
        Result<BlindedTransactionView, Seq<char>>,
    ) {
        match self.owning(b).bumped().envelope_queued(b.transaction) {
            (m, Err(e)) => (m, Err(e)),
            (m, Ok(_)) => (m, Ok(b.transaction)),
        }
    }

    /// The node after it mined a proof of work.
    pub open spec fn mine_submitted(self, t: TransactionView) -> (NodeView, Result<TransactionView, Seq<char>>) {
        if !(t is Mine) {
            (self, Err("only mine actions may be submitted as public mempool transactions"@))
        } else {
            match self.mine_taken(t) {
                (m, Err(e)) => (m, Err(e)),
                (m, Ok(_)) => (m, Ok(t)),
            }
        }
    }

    /// Whether a kept envelope is of no more use.
    pub open spec fn is_settled(self, b: BuiltBlindedTransactionView) -> bool {
        let commitment = b.transaction.commitment;
        b.reveal.commitment != commitment || self.ledger.knows_reveal(commitment) || (!self.ledger.knows_unrevealed(
            commitment,
        ) && b.transaction.expires_at_height <= self.ledger.next_height())
    }

    /// The node after it took up a kept envelope again.
    pub open spec fn restored_one(self, b: BuiltBlindedTransactionView) -> NodeView {
        if self.is_settled(b) {
            self
        } else {
            let (n, taken) = if self.ledger.knows_blinded(b.transaction.commitment) {
                (self, Ok(()))
            } else {
                self.envelope_queued(b.transaction)
            };
            if taken is Err || !n.ledger.knows_unrevealed(b.transaction.commitment) {
                n
            } else {
                n.owning(b)
            }
        }
    }

    /// The node without its envelopes.
    pub open spec fn disowned(self) -> NodeView {
        NodeView {
            owned_transactions: Seq::<(Seq<char>, BlindedTransactionView)>::empty(),
            owned_reveals: Seq::<(Seq<char>, BlindedRevealView)>::empty(),
            owned_payloads: Seq::<(Seq<char>, TransactionView)>::empty(),
            ..self
        }
    }

    pub open spec fn restored_all(self, kept: Seq<BuiltBlindedTransactionView>) -> NodeView
        decreases kept.len(),
    {
        if kept.len() == 0 {
            self
        } else {
            self.restored_all(kept.drop_last()).restored_one(kept.last())
        }
    }

    /// The node after it took up its kept envelopes again.
    pub open spec fn owned_restored(self, kept: Seq<BuiltBlindedTransactionView>) -> (NodeView, Result<(), Seq<char>>) {
        match self.disowned().restored_all(kept).published_active() {
            (m, Err(e)) => (m, Err(e)),
            (m, Ok(_)) => (m.bumped(), Ok(())),
        }
    }

    /// The messages that tell what waits for a block.
    #[verifier::opaque]
    pub open spec fn mempool_messages(self) -> Seq<GossipView> {
        let mines = gossip::batches(self.ledger.pending.filter(is_mine()));
        let envelopes = gossip::batches(self.ledger.pending_blinded);
        let reveals = gossip::batches(self.ledger.pending_reveals);
        let bundles = gossip::batches(self.usable_bundles());
        Seq::new(mines.len(), |i: int| GossipView::MineActions { transactions: mines[i] }) + Seq::new(
            envelopes.len(),
            |i: int| GossipView::BlindedTransactions { transactions: envelopes[i] },
        ) + Seq::new(reveals.len(), |i: int| GossipView::BlindedReveals { reveals: reveals[i] }) + Seq::new(
            bundles.len(),
            |i: int| GossipView::RevealBundles { bundles: bundles[i] },
        )
    }
}

pub open spec fn is_mine() -> spec_fn(TransactionView) -> bool {
    |t: TransactionView| t is Mine
}

/// The lowest height of a block that is missing and has others missing below it.
pub open spec fn first_gap(l: LedgerView, blocks: Seq<BlockInventoryView>) -> Option<u64>
    decreases blocks.len(),
{
    if blocks.len() == 0 {
        None
    } else {
        let before = first_gap(l, blocks.drop_last());
        let b = blocks.last();
        if ledger::with_hash(l.chain, b.hash) is Some || b.height <= l.height() + 1 {
            before
        } else {
            match before {
                Some(gap) => if gap <= b.height {
                    Some(gap)
                } else {
                    Some(b.height)
                },
                None => Some(b.height),
            }
        }
    }
}

/// The blocks to ask for by hash.
pub open spec fn is_wanted_block(l: LedgerView, gap: Option<u64>) -> spec_fn(BlockInventoryView) -> bool {
    |b: BlockInventoryView|
        ledger::with_hash(l.chain, b.hash) is None && (gap matches Some(g) ==> b.height < g)
}

pub open spec fn hashes_of(blocks: Seq<BlockInventoryView>) -> Seq<Seq<char>> {
    Seq::new(blocks.len(), |i: int| blocks[i].hash)
}

/// What to ask a peer for that has given blocks.
pub open spec fn inventory_requests(l: LedgerView, blocks: Seq<BlockInventoryView>) -> Seq<GossipView> {
    let gap = first_gap(l, blocks);
    let wanted = hashes_of(blocks.filter(is_wanted_block(l, gap)));
    let by_hash = if wanted.len() == 0 {
        Seq::<GossipView>::empty()
    } else {
        seq![GossipView::BlockRequest { hashes: wanted }]
    };
    if gap is Some {
        by_hash.push(
            GossipView::BlockRangeRequest {
                from_height: (l.height() + 1) as u64,
                limit: BLOCK_REQUEST_LIMIT,
            },
        )
    } else {
        by_hash
    }
}

fn slot_listed(slots: &Vec<BundleSlot>, key: BundleSlot) -> (r: bool)
    ensures
        r == slots@.contains(key),
{
    let mut i: usize = 0;
    while i < slots.len()
        invariant
            i <= slots.len(),
            forall|j: int| 0 <= j < i ==> slots@[j] != key,
        decreases slots.len() - i,
    {
        if slots[i] == key {
            return true;
        }
        i = i + 1;
    }
    false
}

fn retain_owned<W: Model>(node: &NodeCore, block: &Block, map: &SortedMap<String, W>) -> (r: SortedMap<String, W>)
    requires
        node.wf(),
        map.wf(),
    ensures
        r.wf(),
        r.deep_view() == map.deep_view().filter(stays_owned(node.deep_view(), block.deep_view())),
{
    broadcast use model::group_views;

    let ghost v = map.deep_view();
    let ghost p: spec_fn((Seq<char>, W::V)) -> bool = stays_owned(node.deep_view(), block.deep_view());
    let reveals = block.owned_reveals();
    let mut kept: Vec<(String, W)> = Vec::new();
    let mut i: usize = 0;
    proof {
        model::take_all(v);
        model::filter_empty(p);
        map.wf_is_increasing();
    }
    while i < map.len()
        invariant
            i <= v.len(),
            node.wf(),
            v == map.deep_view(),
            sorted::increasing::<String, W::V>(v),
            p == stays_owned::<W::V>(node.deep_view(), block.deep_view()),
            reveals.deep_view() == block.deep_view().all_reveals(),
            kept.deep_view() == v.take(i as int).filter(p),
        decreases v.len() - i,
    {
        let ghost before = kept.deep_view();
        proof {
            model::take_step(v, i as int);
            model::filter_push(v.take(i as int), v[i as int], p);
        }
        let entry = map.at(i);
        if !ledger::has_reveal(&reveals, entry.0.as_str()) && node.ledger.has_unrevealed_blinded_transaction(
            entry.0.as_str(),
        ) && node.owned_blinded_transactions.contains_key(&entry.0) {
            let copy = (entry.0.clone(), entry.1.duplicate());
            kept.push(copy);
            assert(kept.deep_view() == before.push(v[i as int]));
        }
        i = i + 1;
    }
    proof {
        model::take_all(v);
        sorted::filter_increasing::<String, W::V>(v, p);
    }
    SortedMap::from_sorted(kept)
}

impl NodeCore {
    /// Takes in a plain transaction, from the wallet's own user.
    pub fn receive_transaction(&mut self, tx: Transaction) -> (r: Result<TransactionSubmitOutcome, Error>)
        requires
            old(self).wf(),
        ensures
            final(self).wf(),
            final(self).deep_view() == (NodeView {
                ledger: old(self).deep_view().ledger.submitted(tx.deep_view()).0,
                ..old(self).deep_view()
            }),
            error::outcome(r) == old(self).deep_view().ledger.submitted(tx.deep_view()).1,
    {
        self.ledger.submit_transaction_with_outcome(tx)
    }

    pub(crate) fn send(&mut self, message: GossipEnvelope)
        requires
            old(self).wf(),
            message.deep_view().valid(),
        ensures
            final(self).wf(),
            final(self).deep_view() == old(self).deep_view().sending(message.deep_view()),
    {
        broadcast use model::group_views;

        let ghost m = message.deep_view();
        let ghost before = self.outbox.deep_view();
        self.outbox.push(message);
        assert(self.outbox.deep_view() == before.push(m));
    }

    /// Takes in a mine action.
    pub fn receive_mine_action(&mut self, tx: Transaction) -> (r: Result<(), Error>)
        requires
            old(self).wf(),
        ensures
            final(self).wf(),
            (final(self).deep_view(), error::outcome(r)) == old(self).deep_view().mine_taken(tx.deep_view()),
    {
        if !tx.is_mine() {
            return Err(Error::new("only mine actions may be gossiped as plaintext"));
        }
        let copy = tx.duplicate();
        match self.ledger.submit_transaction_with_outcome(copy) {
            Err(e) => Err(e),
            Ok(outcome) => {
                if outcome.added() {
                    self.send(GossipEnvelope::MineAction(tx));
                }
                Ok(())
            },
        }
    }

    fn blinded_transaction_conflicts_with_local_anchor(&self, tx: &BlindedTransaction) -> (r: bool)
        requires
            self.wf(),
        ensures
            r == self.deep_view().spends_anchor_inputs(tx.deep_view()),
    {
        match self.open_anchor_burn() {
            None => false,
            Some(burn) => {
                let inputs = burn.inputs();
                locks::inputs_overlap(&tx.inputs, &inputs)
            },
        }
    }

    /// Takes in an envelope.
    pub fn receive_blinded_transaction(&mut self, tx: BlindedTransaction) -> (r: Result<(), Error>)
        requires
            old(self).wf(),
        ensures
            final(self).wf(),
            (final(self).deep_view(), error::outcome(r)) == old(self).deep_view().envelope_taken(tx.deep_view()),
    {
        if self.blinded_transaction_conflicts_with_local_anchor(&tx) {
            return Ok(());
        }
        self.queue_blinded_transaction(tx)
    }

    fn queue_blinded_transaction(&mut self, tx: BlindedTransaction) -> (r: Result<(), Error>)
        requires
            old(self).wf(),
        ensures
            final(self).wf(),
            (final(self).deep_view(), error::outcome(r)) == old(self).deep_view().envelope_queued(tx.deep_view()),
    {
        let ghost n = self.deep_view();
        let copy = tx.duplicate();
        let submitted = self.ledger.submit_blinded_transaction(copy);
        proof {
            another_ledger(n, self.ledger.deep_view());
            assert(self.deep_view() == (NodeView { ledger: self.ledger.deep_view(), ..n }));
        }
        match submitted {
            Err(e) => Err(e),
            Ok(added) => {
                if added {
                    self.send(GossipEnvelope::BlindedTransaction(tx));
                }
                Ok(())
            },
        }
    }

    fn take_reveal(&mut self, reveal: BlindedReveal) -> (r: Result<bool, Error>)
        requires
            old(self).wf(),
        ensures
            final(self).wf(),
            (final(self).deep_view(), error::outcome(r)) == old(self).deep_view().reveal_taken(reveal.deep_view()),
    {
        let ghost n = self.deep_view();
        let copy = reveal.duplicate();
        let submitted = self.ledger.submit_blinded_reveal(copy);
        proof {
            another_ledger(n, self.ledger.deep_view());
            assert(self.deep_view() == (NodeView { ledger: self.ledger.deep_view(), ..n }));
        }
        match submitted {
            Err(e) => Err(e),
            Ok(added) => {
                if added {
                    self.send(GossipEnvelope::BlindedReveal(reveal));
                }
                Ok(added)
            },
        }
    }

    /// Takes in a reveal.
    pub fn receive_blinded_reveal(&mut self, reveal: BlindedReveal) -> (r: Result<(), Error>)
        requires
            old(self).wf(),
        ensures
            final(self).wf(),
            (final(self).deep_view(), error::outcome(r)) == publish_step()(old(self).deep_view(), reveal.deep_view()),
    {
        match self.take_reveal(reveal) {
            Ok(_) => Ok(()),
            Err(e) => Err(e),
        }
    }

    fn accept_bundle(&mut self, key: BundleSlot, bundle: RevealBundle) -> (r: Result<(), Error>)
        requires
            old(self).wf(),
            key == node::slot_of(bundle.deep_view()),
        ensures
            final(self).wf(),
            (final(self).deep_view(), error::outcome(r)) == match old(self).deep_view().ledger.bundles_check(
                old(self).deep_view().ledger.next_height(),
                old(self).deep_view().ledger.tip().hash,
                seq![bundle.deep_view()],
            ) {
                Err(e) => (old(self).deep_view(), Err(e)),
                Ok(_) => (old(self).deep_view().with_bundle(bundle.deep_view()), Ok(())),
            },
    {
        let mut single: Vec<RevealBundle> = Vec::new();
        single.push(bundle.duplicate());
        assert(single.deep_view() =~= seq![bundle.deep_view()]);
        match self.ledger.validate_next_block_reveal_bundles(single) {
            Err(e) => Err(e),
            Ok(_) => {
                let ghost n = self.deep_view();
                let ghost b = bundle.deep_view();
                self.reveal_bundles.insert(key, bundle.duplicate());
                proof {
                    self.reveal_bundles.wf_is_increasing();
                    keys_stay(n.bundles, key, b);
                }
                self.send(GossipEnvelope::RevealBundle(bundle));
                Ok(())
            },
        }
    }

    /// Takes in a bundle of reveals.
    pub fn receive_reveal_bundle(&mut self, bundle: RevealBundle) -> (r: Result<(), Error>)
        requires
            old(self).wf(),
        ensures
            final(self).wf(),
            (final(self).deep_view(), error::outcome(r)) == old(self).deep_view().bundle_taken(bundle.deep_view()),
    {
        if bundle.height != self.ledger.height() + 1 {
            return Ok(());
        }
        let key = BundleSlot { height: bundle.height, slot: bundle.slot };
        if slot_listed(&self.equivocated_reveal_bundle_slots, key) {
            return Ok(());
        }
        let known = match self.reveal_bundles.get(&key) {
            Some(existing) => Some(text::text_eq(existing.canonical().as_str(), bundle.canonical().as_str())),
            None => None,
        };
        match known {
            Some(same) => {
                if !same {
                    let ghost n = self.deep_view();
                    let _ = self.reveal_bundles.remove(&key);
                    self.equivocated_reveal_bundle_slots.push(key);
                    proof {
                        self.reveal_bundles.wf_is_increasing();
                        keys_left(n.bundles, key);
                        assert(self.deep_view().bundles == sorted::without(n.bundles, key));
                        assert(self.deep_view().outbox == n.outbox);
                    }
                }
                Ok(())
            },
            None => self.accept_bundle(key, bundle),
        }
    }

    /// Gives this node's own bundle for the next block, where it has one to give.
    pub(crate) fn publish_reveal_bundle_for_next_block(&mut self) -> (r: Result<(), Error>)
        requires
            old(self).wf(),
        ensures
            final(self).wf(),
            (final(self).deep_view(), error::outcome(r)) == old(self).deep_view().own_bundle_published(),
            final(self).deep_view().ledger == old(self).deep_view().ledger,
    {
        reveal(NodeView::own_bundle_published);
        let built = match &self.wallet {
            NodeWallet::Locked { .. } => {
                return Ok(());
            },
            NodeWallet::Unlocked(wallet) => self.ledger.build_reveal_bundle(wallet),
        };
        match built {
            Err(e) => Err(e),
            Ok(None) => Ok(()),
            Ok(Some(bundle)) => {
                let key = BundleSlot { height: bundle.height, slot: bundle.slot };
                if slot_listed(&self.equivocated_reveal_bundle_slots, key) || self.reveal_bundles.contains_key(&key) {
                    return Ok(());
                }
                self.accept_bundle(key, bundle)
            },
        }
    }

    /// The bundles that the next block may carry, in slot order.
    pub fn usable_reveal_bundles(&self) -> (r: Vec<RevealBundle>)
        requires
            self.wf(),
        ensures
            r.deep_view() == self.deep_view().usable_bundles(),
    {
        broadcast use model::group_views;

        let ghost v = self.deep_view().bundles;
        let ghost p = is_usable(self.deep_view());
        let next_height: u64 = self.ledger.height() + 1;
        let mut out: Vec<RevealBundle> = Vec::new();
        let mut i: usize = 0;
        proof {
            model::take_all(v);
            model::filter_empty(p);
            assert(out.deep_view() =~= values(v.take(0).filter(p)));
        }
        while i < self.reveal_bundles.len()
            invariant
                i <= v.len(),
                self.wf(),
                next_height == self.deep_view().ledger.next_height(),
                v == self.deep_view().bundles,
                p == is_usable(self.deep_view()),
                out.deep_view() == values(v.take(i as int).filter(p)),
            decreases v.len() - i,
        {
            let ghost before = out.deep_view();
            proof {
                model::take_step(v, i as int);
                model::filter_push(v.take(i as int), v[i as int], p);
            }
            let entry = self.reveal_bundles.at(i);
            if entry.0.height == next_height && !slot_listed(&self.equivocated_reveal_bundle_slots, entry.0) {
                out.push(entry.1.duplicate());
                assert(out.deep_view() == before.push(v[i as int].1));
                assert(out.deep_view() =~= values(v.take(i + 1).filter(p)));
            }
            i = i + 1;
        }
        proof {
            model::take_all(v);
        }
        out
    }

    fn prune_reveal_bundles(&mut self)
        requires
            old(self).wf(),
        ensures
            final(self).wf(),
            final(self).deep_view() == old(self).deep_view().bundles_pruned(),
    {
        broadcast use model::group_views;

        let ghost n = self.deep_view();
        let ghost v = n.bundles;
        let ghost s = n.equivocated;
        let height: u64 = self.ledger.height();
        let ghost p = is_ahead(height);
        let ghost q = slot_is_ahead(height);
        let mut kept: Vec<(BundleSlot, RevealBundle)> = Vec::new();
        let mut i: usize = 0;
        proof {
            model::take_all(v);
            model::filter_empty(p);
            self.reveal_bundles.wf_is_increasing();
        }
        while i < self.reveal_bundles.len()
            invariant
                i <= v.len(),
                v == self.reveal_bundles.deep_view(),
                p == is_ahead(height),
                kept.deep_view() == v.take(i as int).filter(p),
            decreases v.len() - i,
        {
            let ghost before = kept.deep_view();
            proof {
                model::take_step(v, i as int);
                model::filter_push(v.take(i as int), v[i as int], p);
            }
            let entry = self.reveal_bundles.at(i);
            if entry.0.height > height {
                let copy = (entry.0, entry.1.duplicate());
                kept.push(copy);
                assert(kept.deep_view() == before.push(v[i as int]));
            }
            i = i + 1;
        }
        let mut slots: Vec<BundleSlot> = Vec::new();
        let mut k: usize = 0;
        proof {
            model::take_all(v);
            model::take_all(s);
            model::filter_empty(q);
            sorted::filter_increasing::<BundleSlot, RevealBundleView>(v, p);
        }
        while k < self.equivocated_reveal_bundle_slots.len()
            invariant
                k <= s.len(),
                s == self.equivocated_reveal_bundle_slots@,
                q == slot_is_ahead(height),
                slots@ == s.take(k as int).filter(q),
            decreases s.len() - k,
        {
            proof {
                model::take_step(s, k as int);
                model::filter_push(s.take(k as int), s[k as int], q);
            }
            let slot = self.equivocated_reveal_bundle_slots[k];
            if slot.height > height {
                slots.push(slot);
            }
            k = k + 1;
        }
        proof {
            model::take_all(s);
        }
        self.reveal_bundles = SortedMap::from_sorted(kept);
        self.equivocated_reveal_bundle_slots = slots;
        assert forall|i: int| 0 <= i < self.deep_view().bundles.len() implies (#[trigger] self.deep_view().bundles[i]).0
            == node::slot_of(self.deep_view().bundles[i].1) by {
            let e = self.deep_view().bundles[i];
            assert(v.contains(e));
        }
    }

    fn prune_owned_blinded_payloads_for_block(&mut self, block: &Block)
        requires
            old(self).wf(),
        ensures
            final(self).wf(),
            final(self).deep_view() == old(self).deep_view().owned_pruned(block.deep_view()),
    {
        let before: u128 = self.owned_blinded_transactions.len() as u128 + self.owned_blinded_reveals.len() as u128
            + self.owned_blinded_payloads.len() as u128;
        let transactions = retain_owned(self, block, &self.owned_blinded_transactions);
        let reveals = retain_owned(self, block, &self.owned_blinded_reveals);
        let payloads = retain_owned(self, block, &self.owned_blinded_payloads);
        self.owned_blinded_transactions = transactions;
        self.owned_blinded_reveals = reveals;
        self.owned_blinded_payloads = payloads;
        proof {
            self.owned_blinded_transactions.wf_is_increasing();
            self.owned_blinded_reveals.wf_is_increasing();
            self.owned_blinded_payloads.wf_is_increasing();
        }
        let after: u128 = self.owned_blinded_transactions.len() as u128 + self.owned_blinded_reveals.len() as u128
            + self.owned_blinded_payloads.len() as u128;
        if before != after {
            self.bump_owned_blinded_outbox_version();
        }
    }

    fn clear_stale_local_block_anchor(&mut self)
        requires
            old(self).wf(),
        ensures
            final(self).wf(),
            final(self).deep_view() == old(self).deep_view().anchor_cleared(),
    {
        let stale = match &self.local_block_anchor_burn {
            Some(anchor) => anchor.0 != self.ledger.height(),
            None => false,
        };
        if stale {
            self.local_block_anchor_burn = None;
        }
    }

    fn publish_reveals(&mut self, reveals: &Vec<BlindedReveal>) -> (r: Result<(), Error>)
        requires
            old(self).wf(),
        ensures
            final(self).wf(),
            (final(self).deep_view(), error::outcome(r)) == run(
                old(self).deep_view(),
                reveals.deep_view(),
                publish_step(),
            ),
    {
        let ghost n = self.deep_view();
        let ghost v = reveals.deep_view();
        let ghost step = publish_step();
        let mut i: usize = 0;
        proof {
            model::take_all(v);
        }
        while i < reveals.len()
            invariant
                i <= reveals.len(),
                self.wf(),
                n == old(self).deep_view(),
                v == reveals.deep_view(),
                step == publish_step(),
                (self.deep_view(), Ok::<(), Seq<char>>(())) == run(n, v.take(i as int), step),
            decreases reveals.len() - i,
        {
            proof {
                run_step(n, v, step, i as int);
            }
            match self.receive_blinded_reveal(reveals[i].duplicate()) {
                Ok(_) => {},
                Err(e) => {
                    return Err(e);
                },
            }
            i = i + 1;
        }
        proof {
            model::take_all(v);
        }
        Ok(())
    }

    fn owned_reveals_for(&self, envelopes: &Vec<BlindedTransaction>) -> (r: Vec<BlindedReveal>)
        requires
            self.wf(),
        ensures
            r.deep_view() == reveals_for(self.deep_view().owned_reveals, envelopes.deep_view()),
    {
        broadcast use model::group_views;

        let ghost v = envelopes.deep_view();
        let ghost owned = self.deep_view().owned_reveals;
        let mut out: Vec<BlindedReveal> = Vec::new();
        let mut i: usize = 0;
        proof {
            model::take_all(v);
        }
        while i < envelopes.len()
            invariant
                i <= envelopes.len(),
                self.wf(),
                v == envelopes.deep_view(),
                owned == self.deep_view().owned_reveals,
                out.deep_view() == reveals_for(owned, v.take(i as int)),
            decreases envelopes.len() - i,
        {
            let ghost before = out.deep_view();
            proof {
                assert(v.take(i + 1).drop_last() =~= v.take(i as int));
                assert(v.take(i + 1).last() == v[i as int]);
            }
            if let Some(reveal) = self.owned_blinded_reveals.get(&envelopes[i].commitment) {
                let copy = reveal.duplicate();
                let ghost c = copy.deep_view();
                out.push(copy);
                assert(out.deep_view() == before.push(c));
            }
            i = i + 1;
        }
        proof {
            model::take_all(v);
        }
        out
    }

    pub(crate) fn publish_owned_reveals_for_block(&mut self, block: &Block) -> (r: Result<(), Error>)
        requires
            old(self).wf(),
        ensures
            final(self).wf(),
            (final(self).deep_view(), error::outcome(r)) == old(self).deep_view().published_for(block.deep_view()),
    {
        let reveals = self.owned_reveals_for(&block.blinded_transactions);
        self.publish_reveals(&reveals)
    }

    fn active_owned_reveals(&self) -> (r: Vec<BlindedReveal>)
        requires
            self.wf(),
        ensures
            r.deep_view() == values(self.deep_view().owned_reveals.filter(is_active(self.deep_view().ledger))),
    {
        broadcast use model::group_views;

        let ghost v = self.deep_view().owned_reveals;
        let ghost p = is_active(self.deep_view().ledger);
        let mut out: Vec<BlindedReveal> = Vec::new();
        let mut i: usize = 0;
        proof {
            model::take_all(v);
            model::filter_empty(p);
            assert(out.deep_view() =~= values(v.take(0).filter(p)));
        }
        while i < self.owned_blinded_reveals.len()
            invariant
                i <= v.len(),
                self.wf(),
                v == self.deep_view().owned_reveals,
                p == is_active(self.deep_view().ledger),
                out.deep_view() == values(v.take(i as int).filter(p)),
            decreases v.len() - i,
        {
            let ghost before = out.deep_view();
            proof {
                model::take_step(v, i as int);
                model::filter_push(v.take(i as int), v[i as int], p);
            }
            let entry = self.owned_blinded_reveals.at(i);
            if self.ledger.has_active_blinded_transaction(entry.0.as_str()) {
                out.push(entry.1.duplicate());
                assert(out.deep_view() == before.push(v[i as int].1));
                assert(out.deep_view() =~= values(v.take(i + 1).filter(p)));
            }
            i = i + 1;
        }
        proof {
            model::take_all(v);
        }
        out
    }

    pub(crate) fn settle_block(&mut self, block: &Block)
        requires
            old(self).wf(),
        ensures
            final(self).wf(),
            final(self).deep_view() == old(self).deep_view().after_block(block.deep_view()),
    {
        self.clear_stale_local_block_anchor();
        self.prune_reveal_bundles();
        self.prune_owned_blinded_payloads_for_block(block);
    }
}

/// A valid node stays valid with another valid ledger.
pub proof fn another_ledger(n: NodeView, l: LedgerView)
    requires
        n.valid(),
        l.valid(),
    ensures
        (NodeView { ledger: l, ..n }).valid(),
{
}

/// Keys that match what they stand for still do once an entry is put in.
proof fn keys_stay(s: Seq<(BundleSlot, RevealBundleView)>, key: BundleSlot, b: RevealBundleView)
    requires
        sorted::increasing::<BundleSlot, RevealBundleView>(s),
        forall|i: int| 0 <= i < s.len() ==> (#[trigger] s[i]).0 == node::slot_of(s[i].1),
        key == node::slot_of(b),
    ensures
        ({
            let t = sorted::with::<BundleSlot, RevealBundleView>(s, key, b);
            forall|i: int| 0 <= i < t.len() ==> (#[trigger] t[i]).0 == node::slot_of(t[i].1)
        }),
{
    let n = sorted::place_exists::<BundleSlot, RevealBundleView>(s, key);
    sorted::at_place::<BundleSlot, RevealBundleView>(s, key, b, n);
}

/// Keys that match what they stand for still do once an entry is taken out.
proof fn keys_left(s: Seq<(BundleSlot, RevealBundleView)>, key: BundleSlot)
    requires
        sorted::increasing::<BundleSlot, RevealBundleView>(s),
        forall|i: int| 0 <= i < s.len() ==> (#[trigger] s[i]).0 == node::slot_of(s[i].1),
    ensures
        ({
            let t = sorted::without(s, key);
            forall|i: int| 0 <= i < t.len() ==> (#[trigger] t[i]).0 == node::slot_of(t[i].1)
        }),
{
    let n = sorted::place_exists::<BundleSlot, RevealBundleView>(s, key);
    if s.len() > 0 {
        sorted::at_place::<BundleSlot, RevealBundleView>(s, key, s[0].1, n);
    } else {
        sorted::without_absent::<BundleSlot, RevealBundleView>(s, key);
    }
}

impl NodeCore {
    fn take_block(&mut self, block: &Block, verify_vdf: bool, now_ms: u64) -> (r: Result<bool, Error>)
        requires
            old(self).wf(),
        ensures
            final(self).wf(),
            (final(self).deep_view(), error::outcome(r)) == old(self).deep_view().block_taken(
                block.deep_view(),
                verify_vdf,
                now_ms,
            ),
    {
        let ghost n = self.deep_view();
        let previous_height: u64 = self.ledger.height();
        let applied = if verify_vdf {
            self.ledger.apply_block_at(block.duplicate(), now_ms)
        } else {
            self.ledger.apply_preverified_block_at(block.duplicate(), now_ms)
        };
        proof {
            another_ledger(n, self.ledger.deep_view());
            assert(self.deep_view() == (NodeView { ledger: self.ledger.deep_view(), ..n }));
        }
        match applied {
            Err(e) => Err(e),
            Ok(_) => {
                if self.ledger.height() > previous_height {
                    self.settle_block(block);
                    match self.publish_owned_reveals_for_block(block) {
                        Err(e) => Err(e),
                        Ok(_) => Ok(true),
                    }
                } else {
                    Ok(false)
                }
            },
        }
    }

    /// Takes in a block whose delay was checked elsewhere or is checked here.
    fn relay_block(&mut self, block: Block, verify_vdf: bool, now_ms: u64) -> (r: Result<(), Error>)
        requires
            old(self).wf(),
        ensures
            final(self).wf(),
            (final(self).deep_view(), error::outcome(r)) == old(self).deep_view().block_relayed(
                block.deep_view(),
                verify_vdf,
                now_ms,
            ),
    {
        match self.take_block(&block, verify_vdf, now_ms) {
            Err(e) => Err(e),
            Ok(new) => {
                if new {
                    self.send(GossipEnvelope::Block(block));
                }
                Ok(())
            },
        }
    }

    /// Takes in a block whose delay was checked before, at a time.
    pub fn receive_preverified_block_at(&mut self, block: Block, now_ms: u64) -> (r: Result<(), Error>)
        requires
            old(self).wf(),
        ensures
            final(self).wf(),
            (final(self).deep_view(), error::outcome(r)) == old(self).deep_view().block_relayed(
                block.deep_view(),
                false,
                now_ms,
            ),
    {
        self.relay_block(block, false, now_ms)
    }

    /// Takes in a block, at a time.
    pub fn receive_block_at(&mut self, block: Block, now_ms: u64) -> (r: Result<(), Error>)
        requires
            old(self).wf(),
        ensures
            final(self).wf(),
            (final(self).deep_view(), error::outcome(r)) == old(self).deep_view().block_relayed(
                block.deep_view(),
                true,
                now_ms,
            ),
    {
        self.relay_block(block, true, now_ms)
    }

    pub fn block_requires_vdf_verification_at(&self, block: &Block, now_ms: u64) -> (r: Result<bool, Error>)
        requires
            self.wf(),
        ensures
            error::outcome(r) == self.deep_view().ledger.precheck(block.deep_view(), now_ms),
    {
        self.ledger.block_requires_vdf_verification_at(block, now_ms)
    }

    fn relay_blocks(&mut self, blocks: Vec<Block>) -> (r: Result<(), Error>)
        requires
            old(self).wf(),
        ensures
            final(self).wf(),
            exists|times: Seq<u64>|
                times.len() == blocks.deep_view().len() && (final(self).deep_view(), error::outcome(r))
                    == #[trigger] old(self).deep_view().blocks_relayed(blocks.deep_view(), times),
    {
        broadcast use model::group_views;

        let ghost n = self.deep_view();
        let ghost start = (n, Seq::<BlockView>::empty());
        let ghost v = blocks.deep_view();
        let ghost step = block_step();
        let ghost mut times: Seq<u64> = Seq::empty();
        let mut imported: Vec<Block> = Vec::new();
        let mut i: usize = 0;
        proof {
            assert(timed(v.take(0), times) =~= Seq::<(BlockView, u64)>::empty());
            assert(imported.deep_view() =~= Seq::<BlockView>::empty());
        }
        while i < blocks.len()
            invariant
                i <= blocks.len(),
                self.wf(),
                n == old(self).deep_view(),
                start == (n, Seq::<BlockView>::empty()),
                v == blocks.deep_view(),
                step == block_step(),
                times.len() == i,
                ((self.deep_view(), imported.deep_view()), Ok::<(), Seq<char>>(())) == run(
                    start,
                    timed(v.take(i as int), times),
                    step,
                ),
            decreases blocks.len() - i,
        {
            let now: u64 = crypto::unix_now_ms();
            let ghost before = imported.deep_view();
            let ghost all = times.push(now) + Seq::new((v.len() - i - 1) as nat, |k: int| 0u64);
            proof {
                assert(timed(v, all).take(i as int) =~= timed(v.take(i as int), times));
                assert(timed(v, all).take(i + 1) =~= timed(v.take(i + 1), times.push(now)));
                run_step(start, timed(v, all), step, i as int);
                assert(timed(v, all)[i as int] == (v[i as int], now));
            }
            match self.take_block(&blocks[i], true, now) {
                Err(e) => {
                    proof {
                        assert(all.len() == v.len());
                        assert(n.blocks_relayed(v, all) == (self.deep_view(), Err::<(), Seq<char>>(e.deep_view())));
                    }
                    return Err(e);
                },
                Ok(new) => {
                    if new {
                        imported.push(blocks[i].duplicate());
                        assert(imported.deep_view() == before.push(v[i as int]));
                    }
                },
            }
            proof {
                times = times.push(now);
            }
            i = i + 1;
        }
        let ghost m = self.deep_view();
        let ghost new = imported.deep_view();
        proof {
            model::take_all(v);
            assert(m.outbox + block_messages(new.take(0)) =~= m.outbox);
        }
        let mut k: usize = 0;
        while k < imported.len()
            invariant
                k <= imported.len(),
                self.wf(),
                new == imported.deep_view(),
                self.deep_view() == (NodeView { outbox: m.outbox + block_messages(new.take(k as int)), ..m }),
            decreases imported.len() - k,
        {
            self.send(GossipEnvelope::Block(imported[k].duplicate()));
            proof {
                assert((m.outbox + block_messages(new.take(k as int))).push(GossipView::Block(new[k as int]))
                    =~= m.outbox + block_messages(new.take(k + 1)));
            }
            k = k + 1;
        }
        proof {
            model::take_all(new);
            assert(n.blocks_relayed(v, times) == (self.deep_view(), Ok::<(), Seq<char>>(())));
        }
        Ok(())
    }

    fn enqueue_imported_blocks(&mut self, previous_height: u64) -> (r: Result<(), Error>)
        requires
            old(self).wf(),
        ensures
            final(self).wf(),
            (final(self).deep_view(), error::outcome(r)) == old(self).deep_view().imported(previous_height),
    {
        if self.ledger.height() <= previous_height {
            return Ok(());
        }
        let blocks = self.ledger.blocks_from(previous_height + 1, IMPORT_REBROADCAST_LIMIT);
        let ghost n = self.deep_view();
        let ghost v = blocks.deep_view();
        let ghost step = import_step();
        let mut i: usize = 0;
        proof {
            assert(v == n.imported_blocks(previous_height));
            model::take_all(v);
        }
        while i < blocks.len()
            invariant
                i <= blocks.len(),
                self.wf(),
                n == old(self).deep_view(),
                n.ledger.height() > previous_height,
                v == blocks.deep_view(),
                v == n.imported_blocks(previous_height),
                step == import_step(),
                (self.deep_view(), Ok::<(), Seq<char>>(())) == run(n, v.take(i as int), step),
            decreases blocks.len() - i,
        {
            proof {
                run_step(n, v, step, i as int);
            }
            self.prune_reveal_bundles();
            self.prune_owned_blinded_payloads_for_block(&blocks[i]);
            match self.publish_owned_reveals_for_block(&blocks[i]) {
                Ok(_) => {},
                Err(e) => {
                    return Err(e);
                },
            }
            i = i + 1;
        }
        proof {
            model::take_all(v);
        }
        self.send(GossipEnvelope::Blocks { blocks });
        Ok(())
    }

    fn restart(&mut self)
        requires
            old(self).wf(),
        ensures
            final(self).wf(),
            final(self).deep_view() == old(self).deep_view().restarted(),
    {
        self.last_auto_burn_height = None;
        self.last_auto_anchor_burn_height = None;
        self.last_auto_pow_mine_anchor = None;
        self.last_auto_pow_mine_status = None;
        self.auto_pow_mine_cursor = None;
        self.clear_stale_local_block_anchor();
        self.prune_reveal_bundles();
    }

    /// Takes in a chain, at a time.
    pub fn import_chain_snapshot_at(&mut self, snapshot: ChainSnapshot, now_ms: u64) -> (r: Result<(), Error>)
        requires
            old(self).wf(),
            snapshot.genesis_allocations.wf(),
        ensures
            final(self).wf(),
            (final(self).deep_view(), error::outcome(r)) == old(self).deep_view().snapshot_imported(
                snapshot.deep_view(),
                now_ms,
            ),
    {
        let ghost n = self.deep_view();
        let previous_height: u64 = self.ledger.height();
        let extended = self.ledger.extend_from_snapshot_with_vdf_policy(snapshot, true, now_ms);
        proof {
            another_ledger(n, self.ledger.deep_view());
            assert(self.deep_view() == (NodeView { ledger: self.ledger.deep_view(), ..n }));
        }
        match extended {
            Err(e) => Err(e),
            Ok(changed) => {
                if changed {
                    self.restart();
                    self.enqueue_imported_blocks(previous_height)
                } else {
                    Ok(())
                }
            },
        }
    }

    /// Takes in a chain.
    pub fn import_chain_snapshot(&mut self, snapshot: ChainSnapshot) -> (r: Result<(), Error>)
        requires
            old(self).wf(),
            snapshot.genesis_allocations.wf(),
        ensures
            final(self).wf(),
            exists|now_ms: u64|
                (final(self).deep_view(), error::outcome(r)) == #[trigger] old(self).deep_view().snapshot_imported(
                    snapshot.deep_view(),
                    now_ms,
                ),
    {
        let now: u64 = crypto::unix_now_ms();
        self.import_chain_snapshot_at(snapshot, now)
    }

    /// Takes over a ledger that was checked before, where it is of this chain and higher.
    pub fn import_verified_ledger(&mut self, ledger: Ledger) -> (r: Result<bool, Error>)
        requires
            old(self).wf(),
            ledger.wf(),
        ensures
            final(self).wf(),
            (final(self).deep_view(), error::outcome(r)) == old(self).deep_view().ledger_imported(ledger.deep_view()),
    {
        let ghost n = self.deep_view();
        let other = !text::text_eq(ledger.genesis_hash(), self.ledger.genesis_hash());
        let replaces = self.ledger.is_setup_placeholder() && other;
        if other && !replaces {
            return Err(Error::new("chain snapshot genesis does not match local chain"));
        }
        let previous_height: u64 = self.ledger.height();
        if !replaces && ledger.height() <= previous_height {
            return Ok(false);
        }
        self.ledger = ledger;
        proof {
            another_ledger(n, self.ledger.deep_view());
            assert(self.deep_view() == (NodeView { ledger: self.ledger.deep_view(), ..n }));
        }
        self.restart();
        match self.enqueue_imported_blocks(previous_height) {
            Err(e) => Err(e),
            Ok(_) => Ok(true),
        }
    }

    fn receive_envelopes(&mut self, transactions: &Vec<BlindedTransaction>) -> (r: Result<(), Error>)
        requires
            old(self).wf(),
        ensures
            final(self).wf(),
            (final(self).deep_view(), error::outcome(r)) == run(
                old(self).deep_view(),
                transactions.deep_view(),
                envelope_step(),
            ),
    {
        let ghost n = self.deep_view();
        let ghost v = transactions.deep_view();
        let ghost step = envelope_step();
        let mut i: usize = 0;
        proof {
            model::take_all(v);
        }
        while i < transactions.len()
            invariant
                i <= transactions.len(),
                self.wf(),
                n == old(self).deep_view(),
                v == transactions.deep_view(),
                step == envelope_step(),
                (self.deep_view(), Ok::<(), Seq<char>>(())) == run(n, v.take(i as int), step),
            decreases transactions.len() - i,
        {
            proof {
                run_step(n, v, step, i as int);
            }
            match self.receive_blinded_transaction(transactions[i].duplicate()) {
                Ok(_) => {},
                Err(e) => {
                    return Err(e);
                },
            }
            i = i + 1;
        }
        proof {
            model::take_all(v);
        }
        Ok(())
    }

    fn receive_mine_actions(&mut self, transactions: &Vec<Transaction>) -> (r: Result<(), Error>)
        requires
            old(self).wf(),
        ensures
            final(self).wf(),
            (final(self).deep_view(), error::outcome(r)) == run(
                old(self).deep_view(),
                transactions.deep_view(),
                mine_step(),
            ),
    {
        let ghost n = self.deep_view();
        let ghost v = transactions.deep_view();
        let ghost step = mine_step();
        let mut i: usize = 0;
        proof {
            model::take_all(v);
        }
        while i < transactions.len()
            invariant
                i <= transactions.len(),
                self.wf(),
                n == old(self).deep_view(),
                v == transactions.deep_view(),
                step == mine_step(),
                (self.deep_view(), Ok::<(), Seq<char>>(())) == run(n, v.take(i as int), step),
            decreases transactions.len() - i,
        {
            proof {
                run_step(n, v, step, i as int);
            }
            match self.receive_mine_action(transactions[i].duplicate()) {
                Ok(_) => {},
                Err(e) => {
                    return Err(e);
                },
            }
            i = i + 1;
        }
        proof {
            model::take_all(v);
        }
        Ok(())
    }

    fn receive_reveal_bundles(&mut self, bundles: &Vec<RevealBundle>) -> (r: Result<(), Error>)
        requires
            old(self).wf(),
        ensures
            final(self).wf(),
            (final(self).deep_view(), error::outcome(r)) == run(
                old(self).deep_view(),
                bundles.deep_view(),
                bundle_step(),
            ),
    {
        let ghost n = self.deep_view();
        let ghost v = bundles.deep_view();
        let ghost step = bundle_step();
        let mut i: usize = 0;
        proof {
            model::take_all(v);
        }
        while i < bundles.len()
            invariant
                i <= bundles.len(),
                self.wf(),
                n == old(self).deep_view(),
                v == bundles.deep_view(),
                step == bundle_step(),
                (self.deep_view(), Ok::<(), Seq<char>>(())) == run(n, v.take(i as int), step),
            decreases bundles.len() - i,
        {
            proof {
                run_step(n, v, step, i as int);
            }
            match self.receive_reveal_bundle(bundles[i].duplicate()) {
                Ok(_) => {},
                Err(e) => {
                    return Err(e);
                },
            }
            i = i + 1;
        }
        proof {
            model::take_all(v);
        }
        Ok(())
    }

    fn receive_blinded_reveals(&mut self, reveals: &Vec<BlindedReveal>) -> (r: Result<(), Error>)
        requires
            old(self).wf(),
        ensures
            final(self).wf(),
            (final(self).deep_view(), error::outcome(r)) == old(self).deep_view().reveals_taken(reveals.deep_view()),
    {
        let ghost n = self.deep_view();
        let ghost v = reveals.deep_view();
        let ghost step = reveal_step();
        let mut added = false;
        let mut i: usize = 0;
        proof {
            model::take_all(v);
        }
        while i < reveals.len()
            invariant
                i <= reveals.len(),
                self.wf(),
                n == old(self).deep_view(),
                v == reveals.deep_view(),
                step == reveal_step(),
                ((self.deep_view(), added), Ok::<(), Seq<char>>(())) == run((n, false), v.take(i as int), step),
            decreases reveals.len() - i,
        {
            proof {
                run_step((n, false), v, step, i as int);
            }
            match self.take_reveal(reveals[i].duplicate()) {
                Ok(new) => {
                    added = added || new;
                },
                Err(e) => {
                    return Err(e);
                },
            }
            i = i + 1;
        }
        proof {
            model::take_all(v);
        }
        if added {
            self.publish_reveal_bundle_for_next_block()
        } else {
            Ok(())
        }
    }

    /// Takes in a message.
    pub fn receive(&mut self, envelope: GossipEnvelope) -> (r: Result<(), Error>)
        requires
            old(self).wf(),
            envelope.deep_view().valid(),
        ensures
            final(self).wf(),
            exists|times: Seq<u64>|
                times.len() == clock_reads(envelope.deep_view()) && (final(self).deep_view(), error::outcome(r))
                    == #[trigger] old(self).deep_view().received(envelope.deep_view(), times),
    {
        let ghost n = self.deep_view();
        let ghost v = envelope.deep_view();
        let ghost none = Seq::<u64>::empty();
        reveal(NodeView::received);
        assert(none.len() == 0);
        match envelope {
            GossipEnvelope::Block(block) => {
                let now: u64 = crypto::unix_now_ms();
                let ghost times = seq![now];
                let r = self.relay_block(block, true, now);
                assert((self.deep_view(), error::outcome(r)) == n.received(v, times));
                r
            },
            GossipEnvelope::Blocks { blocks } => {
                let ghost b = blocks.deep_view();
                let r = self.relay_blocks(blocks);
                proof {
                    let times = choose|times: Seq<u64>|
                        times.len() == b.len() && (self.deep_view(), error::outcome(r)) == #[trigger] n.blocks_relayed(
                            b,
                            times,
                        );
                    assert((self.deep_view(), error::outcome(r)) == n.received(v, times));
                }
                r
            },
            GossipEnvelope::ChainSnapshot(snapshot) => {
                proof {
                    snapshot.genesis_allocations.wf_is_increasing();
                }
                let now: u64 = crypto::unix_now_ms();
                let ghost times = seq![now];
                let r = self.import_chain_snapshot_at(snapshot, now);
                assert((self.deep_view(), error::outcome(r)) == n.received(v, times));
                r
            },
            other => {
                let r = self.receive_small(other);
                assert((self.deep_view(), error::outcome(r)) == n.received(v, none));
                r
            },
        }
    }

    fn receive_small(&mut self, envelope: GossipEnvelope) -> (r: Result<(), Error>)
        requires
            old(self).wf(),
            !(envelope is Block || envelope is Blocks || envelope is ChainSnapshot),
        ensures
            final(self).wf(),
            (final(self).deep_view(), error::outcome(r)) == old(self).deep_view().received(
                envelope.deep_view(),
                Seq::<u64>::empty(),
            ),
    {
        reveal(NodeView::received);
        match envelope {
            GossipEnvelope::BlindedTransaction(tx) => self.receive_blinded_transaction(tx),
            GossipEnvelope::BlindedTransactions { transactions } => self.receive_envelopes(&transactions),
            GossipEnvelope::MineAction(tx) => self.receive_mine_action(tx),
            GossipEnvelope::MineActions { transactions } => self.receive_mine_actions(&transactions),
            GossipEnvelope::BlindedReveal(reveal) => self.receive_blinded_reveal(reveal),
            GossipEnvelope::BlindedReveals { reveals } => self.receive_blinded_reveals(&reveals),
            GossipEnvelope::RevealBundle(bundle) => self.receive_reveal_bundle(bundle),
            GossipEnvelope::RevealBundles { bundles } => self.receive_reveal_bundles(&bundles),
            _ => Ok(()),
        }
    }
}

impl NodeCore {
    fn own(&mut self, owned: OwnedBlindedTransaction)
        requires
            old(self).wf(),
        ensures
            final(self).wf(),
            final(self).deep_view() == old(self).deep_view().owning(owned.deep_view()),
    {
        let commitment = owned.transaction.commitment.clone();
        self.owned_blinded_transactions.insert(commitment.clone(), owned.transaction);
        self.owned_blinded_payloads.insert(commitment.clone(), owned.payload);
        self.owned_blinded_reveals.insert(commitment, owned.reveal);
        proof {
            self.owned_blinded_transactions.wf_is_increasing();
            self.owned_blinded_reveals.wf_is_increasing();
            self.owned_blinded_payloads.wf_is_increasing();
        }
    }

    /// Gives out an envelope of the wallet.
    pub(crate) fn submit_owned_blinded_transaction(&mut self, built: BuiltBlindedTransaction) -> (r: Result<
        BlindedTransaction,
        Error,
    >)
        requires
            old(self).wf(),
        ensures
            final(self).wf(),
            (final(self).deep_view(), error::outcome(r)) == old(self).deep_view().owned_submitted(built.deep_view()),
    {
        let transaction = built.transaction.duplicate();
        self.own(
            OwnedBlindedTransaction {
                transaction: built.transaction,
                payload: built.payload,
                reveal: built.reveal,
            },
        );
        self.bump_owned_blinded_outbox_version();
        match self.queue_blinded_transaction(transaction.duplicate()) {
            Err(e) => Err(e),
            Ok(_) => Ok(transaction),
        }
    }

    /// Gives out a proof of work.
    pub fn submit_public_mine_action(&mut self, tx: Transaction) -> (r: Result<Transaction, Error>)
        requires
            old(self).wf(),
        ensures
            final(self).wf(),
            (final(self).deep_view(), error::outcome(r)) == old(self).deep_view().mine_submitted(tx.deep_view()),
    {
        if !tx.is_mine() {
            return Err(Error::new("only mine actions may be submitted as public mempool transactions"));
        }
        match self.receive_mine_action(tx.duplicate()) {
            Err(e) => Err(e),
            Ok(_) => Ok(tx),
        }
    }

    fn restore_owned(&mut self, owned: &OwnedBlindedTransaction)
        requires
            old(self).wf(),
        ensures
            final(self).wf(),
            final(self).deep_view() == old(self).deep_view().restored_one(owned.deep_view()),
    {
        let commitment = owned.transaction.commitment.as_str();
        if !text::text_eq(owned.reveal.commitment.as_str(), commitment) {
            return ;
        }
        if self.ledger.has_blinded_reveal(commitment) || (!self.ledger.has_unrevealed_blinded_transaction(commitment)
            && owned.transaction.expires_at_height <= self.ledger.height() + 1) {
            return ;
        }
        if !self.ledger.has_blinded_transaction(commitment) {
            match self.queue_blinded_transaction(owned.transaction.duplicate()) {
                Ok(_) => {},
                Err(_) => {
                    return ;
                },
            }
        }
        if self.ledger.has_unrevealed_blinded_transaction(commitment) {
            self.own(owned.duplicate());
        }
    }

    fn restore_each(&mut self, transactions: &Vec<OwnedBlindedTransaction>)
        requires
            old(self).wf(),
        ensures
            final(self).wf(),
            final(self).deep_view() == old(self).deep_view().restored_all(transactions.deep_view()),
    {
        let ghost n = self.deep_view();
        let ghost v = transactions.deep_view();
        let mut i: usize = 0;
        while i < transactions.len()
            invariant
                i <= transactions.len(),
                self.wf(),
                n == old(self).deep_view(),
                v == transactions.deep_view(),
                self.deep_view() == n.restored_all(v.take(i as int)),
            decreases transactions.len() - i,
        {
            proof {
                assert(v.take(i + 1).drop_last() =~= v.take(i as int));
                assert(v.take(i + 1).last() == v[i as int]);
            }
            self.restore_owned(&transactions[i]);
            i = i + 1;
        }
        proof {
            model::take_all(v);
        }
    }

    /// Takes up the kept envelopes of the wallet again.
    pub fn restore_owned_blinded_transactions(&mut self, transactions: Vec<OwnedBlindedTransaction>) -> (r: Result<
        (),
        Error,
    >)
        requires
            old(self).wf(),
        ensures
            final(self).wf(),
            (final(self).deep_view(), error::outcome(r)) == old(self).deep_view().owned_restored(
                transactions.deep_view(),
            ),
    {
        let ghost n = self.deep_view();
        let ghost v = transactions.deep_view();
        self.owned_blinded_transactions = SortedMap::new();
        self.owned_blinded_reveals = SortedMap::new();
        self.owned_blinded_payloads = SortedMap::new();
        proof {
            self.owned_blinded_transactions.wf_is_increasing();
            self.owned_blinded_reveals.wf_is_increasing();
            self.owned_blinded_payloads.wf_is_increasing();
        }
        assert(self.deep_view() == n.disowned());
        self.restore_each(&transactions);
        let reveals = self.active_owned_reveals();
        match self.publish_reveals(&reveals) {
            Err(e) => Err(e),
            Ok(_) => {
                self.bump_owned_blinded_outbox_version();
                Ok(())
            },
        }
    }

    fn pending_mine_actions(&self) -> (r: Vec<Transaction>)
        ensures
            r.deep_view() == self.deep_view().ledger.pending.filter(is_mine()),
    {
        broadcast use model::group_views;

        let ghost v = self.deep_view().ledger.pending;
        let ghost p = is_mine();
        let mut out: Vec<Transaction> = Vec::new();
        let mut i: usize = 0;
        proof {
            model::take_all(v);
            model::filter_empty(p);
        }
        while i < self.ledger.pending.len()
            invariant
                i <= v.len(),
                v == self.ledger.pending.deep_view(),
                p == is_mine(),
                out.deep_view() == v.take(i as int).filter(p),
            decreases v.len() - i,
        {
            let ghost before = out.deep_view();
            proof {
                model::take_step(v, i as int);
                model::filter_push(v.take(i as int), v[i as int], p);
            }
            if self.ledger.pending[i].is_mine() {
                out.push(self.ledger.pending[i].duplicate());
                assert(out.deep_view() == before.push(v[i as int]));
            }
            i = i + 1;
        }
        proof {
            model::take_all(v);
        }
        out
    }

    /// The messages that tell what waits for a block.
    pub fn mempool_gossip(&mut self) -> (r: Vec<GossipEnvelope>)
        requires
            old(self).wf(),
        ensures
            final(self).wf(),
            final(self).deep_view() == old(self).deep_view().own_bundle_published().0,
            r.deep_view() == final(self).deep_view().mempool_messages(),
    {
        let _ = self.publish_reveal_bundle_for_next_block();
        let mines = gossip::batched(&self.pending_mine_actions());
        let envelopes = gossip::batched(&self.ledger.pending_blinded);
        let reveals = gossip::batched(&self.ledger.pending_reveals);
        let bundles = gossip::batched(&self.usable_reveal_bundles());
        let ghost a = mines.deep_view();
        let ghost b = envelopes.deep_view();
        let ghost c = reveals.deep_view();
        let ghost d = bundles.deep_view();
        let mut out: Vec<GossipEnvelope> = Vec::new();
        let mut i: usize = 0;
        while i < mines.len()
            invariant
                i <= mines.len(),
                a == mines.deep_view(),
                out@.len() == i,
                forall|k: int| 0 <= k < i ==> (#[trigger] out@[k]).deep_view() == (GossipView::MineActions {
                    transactions: a[k],
                }),
            decreases mines.len() - i,
        {
            out.push(GossipEnvelope::MineActions { transactions: mines[i].duplicate() });
            i = i + 1;
        }
        let mut i: usize = 0;
        while i < envelopes.len()
            invariant
                i <= envelopes.len(),
                b == envelopes.deep_view(),
                out@.len() == a.len() + i,
                forall|k: int| 0 <= k < a.len() ==> (#[trigger] out@[k]).deep_view() == (GossipView::MineActions {
                    transactions: a[k],
                }),
                forall|k: int|
                    a.len() <= k < a.len() + i ==> (#[trigger] out@[k]).deep_view() == (
                    GossipView::BlindedTransactions { transactions: b[k - a.len()] }),
            decreases envelopes.len() - i,
        {
            out.push(GossipEnvelope::BlindedTransactions { transactions: envelopes[i].duplicate() });
            i = i + 1;
        }
        let ghost ab = a.len() + b.len();
        let mut i: usize = 0;
        while i < reveals.len()
            invariant
                i <= reveals.len(),
                c == reveals.deep_view(),
                ab == a.len() + b.len(),
                out@.len() == ab + i,
                forall|k: int| 0 <= k < a.len() ==> (#[trigger] out@[k]).deep_view() == (GossipView::MineActions {
                    transactions: a[k],
                }),
                forall|k: int|
                    a.len() <= k < ab ==> (#[trigger] out@[k]).deep_view() == (GossipView::BlindedTransactions {
                        transactions: b[k - a.len()],
                    }),
                forall|k: int|
                    ab <= k < ab + i ==> (#[trigger] out@[k]).deep_view() == (GossipView::BlindedReveals {
                        reveals: c[k - ab],
                    }),
            decreases reveals.len() - i,
        {
            out.push(GossipEnvelope::BlindedReveals { reveals: reveals[i].duplicate() });
            i = i + 1;
        }
        let ghost abc = ab + c.len();
        let mut i: usize = 0;
        while i < bundles.len()
            invariant
                i <= bundles.len(),
                d == bundles.deep_view(),
                ab == a.len() + b.len(),
                abc == ab + c.len(),
                out@.len() == abc + i,
                forall|k: int| 0 <= k < a.len() ==> (#[trigger] out@[k]).deep_view() == (GossipView::MineActions {
                    transactions: a[k],
                }),
                forall|k: int|
                    a.len() <= k < ab ==> (#[trigger] out@[k]).deep_view() == (GossipView::BlindedTransactions {
                        transactions: b[k - a.len()],
                    }),
                forall|k: int|
                    ab <= k < abc ==> (#[trigger] out@[k]).deep_view() == (GossipView::BlindedReveals {
                        reveals: c[k - ab],
                    }),
                forall|k: int|
                    abc <= k < abc + i ==> (#[trigger] out@[k]).deep_view() == (GossipView::RevealBundles {
                        bundles: d[k - abc],
                    }),
            decreases bundles.len() - i,
        {
            out.push(GossipEnvelope::RevealBundles { bundles: bundles[i].duplicate() });
            i = i + 1;
        }
        reveal(NodeView::mempool_messages);
        assert(out.deep_view() =~= self.deep_view().mempool_messages());
        out
    }

    /// What this node says of itself when a connection opens.
    pub fn hello(&self, listen_addr: Option<String>, node_id: Option<String>) -> (r: GossipEnvelope)
        requires
            self.wf(),
        ensures
            exists|time_ms: u64|
                r.deep_view() == #[trigger] self.deep_view().greeting(
                    listen_addr.deep_view(),
                    node_id.deep_view(),
                    time_ms,
                ),
    {
        let time_ms: u64 = crypto::unix_now_ms();
        let r = GossipEnvelope::Hello(
            ProtocolHello {
                protocol_version: PROTOCOL_VERSION,
                network_id: text::text(NETWORK_ID),
                genesis_hash: text::text(self.ledger.genesis_hash()),
                listen_addr,
                node_id,
                height: self.ledger.height(),
                tip_hash: self.ledger.tip().hash.clone(),
                time_ms,
            },
        );
        assert(r.deep_view() == self.deep_view().greeting(listen_addr.deep_view(), node_id.deep_view(), time_ms));
        r
    }

    /// The height and tip of this node.
    pub fn peer_status(&self) -> (r: GossipEnvelope)
        requires
            self.wf(),
        ensures
            exists|time_ms: u64| r.deep_view() == #[trigger] self.deep_view().standing(time_ms),
    {
        let time_ms: u64 = crypto::unix_now_ms();
        let r = GossipEnvelope::PeerStatus {
            height: self.ledger.height(),
            tip_hash: self.ledger.tip().hash.clone(),
            time_ms,
        };
        assert(r.deep_view() == self.deep_view().standing(time_ms));
        r
    }

    fn first_height_gap(&self, blocks: &[BlockInventory]) -> (r: Option<u64>)
        requires
            self.wf(),
        ensures
            r == first_gap(self.deep_view().ledger, model::views(blocks@)),
    {
        let ghost v = model::views(blocks@);
        let ghost l = self.deep_view().ledger;
        let height: u64 = self.ledger.height();
        let mut gap: Option<u64> = None;
        let mut i: usize = 0;
        proof {
            model::take_all(v);
        }
        while i < blocks.len()
            invariant
                i <= blocks@.len(),
                self.wf(),
                v == model::views(blocks@),
                l == self.deep_view().ledger,
                height == l.height(),
                height < usize::MAX,
                gap == first_gap(l, v.take(i as int)),
            decreases blocks@.len() - i,
        {
            proof {
                assert(v.take(i + 1).drop_last() =~= v.take(i as int));
                assert(v.take(i + 1).last() == blocks@[i as int].deep_view());
            }
            let block = &blocks[i];
            if !self.ledger.has_block(block.hash.as_str()) && block.height > height + 1 {
                gap = match gap {
                    Some(known) => if known <= block.height {
                        Some(known)
                    } else {
                        Some(block.height)
                    },
                    None => Some(block.height),
                };
            }
            i = i + 1;
        }
        proof {
            model::take_all(v);
        }
        gap
    }

    /// What to ask a peer for that has given blocks.
    pub fn missing_inventory_requests(&self, blocks: &[BlockInventory]) -> (r: Vec<GossipEnvelope>)
        requires
            self.wf(),
        ensures
            r.deep_view() == inventory_requests(self.deep_view().ledger, model::views(blocks@)),
    {
        broadcast use model::group_views;

        let ghost v = model::views(blocks@);
        let ghost l = self.deep_view().ledger;
        let gap = self.first_height_gap(blocks);
        let ghost p = is_wanted_block(l, gap);
        let mut hashes: Vec<String> = Vec::new();
        let mut i: usize = 0;
        proof {
            model::take_all(v);
            model::filter_empty(p);
            assert(hashes.deep_view() =~= hashes_of(v.take(0).filter(p)));
        }
        while i < blocks.len()
            invariant
                i <= blocks@.len(),
                self.wf(),
                v == model::views(blocks@),
                l == self.deep_view().ledger,
                p == is_wanted_block(l, gap),
                hashes.deep_view() == hashes_of(v.take(i as int).filter(p)),
            decreases blocks@.len() - i,
        {
            let ghost before = hashes.deep_view();
            proof {
                model::take_step(v, i as int);
                model::filter_push(v.take(i as int), v[i as int], p);
                assert(v[i as int] == blocks@[i as int].deep_view());
            }
            let block = &blocks[i];
            let below = match gap {
                Some(g) => block.height < g,
                None => true,
            };
            if !self.ledger.has_block(block.hash.as_str()) && below {
                hashes.push(block.hash.clone());
                assert(hashes.deep_view() == before.push(v[i as int].hash));
                assert(hashes.deep_view() =~= hashes_of(v.take(i + 1).filter(p)));
            }
            i = i + 1;
        }
        proof {
            model::take_all(v);
        }
        let ghost wanted = hashes.deep_view();
        let mut requests: Vec<GossipEnvelope> = Vec::new();
        if hashes.len() > 0 {
            requests.push(GossipEnvelope::BlockRequest { hashes });
            assert(requests.deep_view() =~= seq![GossipView::BlockRequest { hashes: wanted }]);
        } else {
            assert(requests.deep_view() =~= Seq::<GossipView>::empty());
        }
        if gap.is_some() {
            let ghost before = requests.deep_view();
            let range = GossipEnvelope::BlockRangeRequest {
                from_height: self.ledger.height() + 1,
                limit: BLOCK_REQUEST_LIMIT,
            };
            let ghost m = range.deep_view();
            requests.push(range);
            assert(requests.deep_view() == before.push(m));
        }
        requests
    }
}

impl NodeView {
    /// What the node says of itself when a connection opens.
    pub open spec fn greeting(self, listen_addr: Option<Seq<char>>, node_id: Option<Seq<char>>, time_ms: u64) -> GossipView {
        GossipView::Hello(
            ProtocolHelloView {
                protocol_version: PROTOCOL_VERSION,
                network_id: NETWORK_ID@,
                genesis_hash: self.ledger.chain[0].hash,
                listen_addr,
                node_id,
                height: self.ledger.height(),
                tip_hash: self.ledger.tip().hash,
                time_ms,
            },
        )
    }

    /// The height and tip of the node.
    pub open spec fn standing(self, time_ms: u64) -> GossipView {
        GossipView::PeerStatus { height: self.ledger.height(), tip_hash: self.ledger.tip().hash, time_ms }
    }
}

/// A mine action leaves the chain as it is.
pub proof fn mine_keeps_chain(n: NodeView, t: TransactionView)
    ensures
        n.mine_taken(t).0.ledger.chain == n.ledger.chain,
        n.mine_submitted(t).0.ledger.chain == n.ledger.chain,
{
    crate::forks::submitting_keeps_chain(n.ledger, t);
}

/// An envelope leaves the chain as it is.
pub proof fn envelope_keeps_chain(n: NodeView, t: BlindedTransactionView)
    ensures
        n.envelope_taken(t).0.ledger.chain == n.ledger.chain,
        n.envelope_queued(t).0.ledger.chain == n.ledger.chain,
{
}

} // verus!
