//! What nodes tell each other.
use crate::blinded::{
    BlindedReveal, BlindedRevealView, BlindedTransaction, BlindedTransactionView, RevealBundle, RevealBundleView,
};
use crate::block::{Block, BlockView};
use crate::forks::{ChainSnapshot, ChainSnapshotView};
use crate::model::Model;
use crate::sorted;
use crate::transaction::{Transaction, TransactionView};
use vstd::prelude::*;

verus! {

pub const PROTOCOL_VERSION: u32 = 1;

pub const NETWORK_ID: &'static str = "iuna-devnet-v3";

pub const BLOCK_REQUEST_LIMIT: usize = 128;

pub const TRANSACTION_BATCH_LIMIT: usize = 128;

/// What a node says of itself when a connection opens.
#[derive(Clone, Debug, Eq, PartialEq)]
pub struct ProtocolHello {
    pub protocol_version: u32,
    pub network_id: String,
    pub genesis_hash: String,
    pub listen_addr: Option<String>,
    pub node_id: Option<String>,
    pub height: u64,
    pub tip_hash: String,
    pub time_ms: u64,
}

/// A block that a node has.
#[derive(Clone, Debug, Eq, PartialEq)]
pub struct BlockInventory {
    pub height: u64,
    pub hash: String,
}

/// A message between nodes.
#[allow(inconsistent_fields)]
#[derive(Clone, Debug, Eq, PartialEq)]
pub enum GossipEnvelope {
    Hello(ProtocolHello),
    PeerStatus { height: u64, tip_hash: String, time_ms: u64 },
    ChainSnapshotRequest,
    BlockRangeRequest { from_height: u64, limit: usize },
    BlockRequest { hashes: Vec<String> },
    Inventory { blocks: Vec<BlockInventory> },
    BlindedTransaction(BlindedTransaction),
    BlindedTransactions { transactions: Vec<BlindedTransaction> },
    MineAction(Transaction),
    MineActions { transactions: Vec<Transaction> },
    BlindedReveal(BlindedReveal),
    BlindedReveals { reveals: Vec<BlindedReveal> },
    RevealBundle(RevealBundle),
    RevealBundles { bundles: Vec<RevealBundle> },
    Block(Block),
    Blocks { blocks: Vec<Block> },
    ChainSnapshot(ChainSnapshot),
    PeerAnnouncement { address: String, node_id: Option<String> },
    PeerVerificationChallenge { address: String, nonce: String },
    PeerVerificationResponse { address: String, nonce: String, node_id: String, signature: String },
    PeerList { peers: Vec<String> },
}

#[verifier::ext_equal]
pub struct ProtocolHelloView {
    pub protocol_version: u32,
    pub network_id: Seq<char>,
    pub genesis_hash: Seq<char>,
    pub listen_addr: Option<Seq<char>>,
    pub node_id: Option<Seq<char>>,
    pub height: u64,
    pub tip_hash: Seq<char>,
    pub time_ms: u64,
}

#[verifier::ext_equal]
pub struct BlockInventoryView {
    pub height: u64,
    pub hash: Seq<char>,
}

#[allow(inconsistent_fields)]
#[verifier::ext_equal]
pub enum GossipView {
    Hello(ProtocolHelloView),
    PeerStatus { height: u64, tip_hash: Seq<char>, time_ms: u64 },
    ChainSnapshotRequest,
    BlockRangeRequest { from_height: u64, limit: usize },
    BlockRequest { hashes: Seq<Seq<char>> },
    Inventory { blocks: Seq<BlockInventoryView> },
    BlindedTransaction(BlindedTransactionView),
    BlindedTransactions { transactions: Seq<BlindedTransactionView> },
    MineAction(TransactionView),
    MineActions { transactions: Seq<TransactionView> },
    BlindedReveal(BlindedRevealView),
    BlindedReveals { reveals: Seq<BlindedRevealView> },
    RevealBundle(RevealBundleView),
    RevealBundles { bundles: Seq<RevealBundleView> },
    Block(BlockView),
    Blocks { blocks: Seq<BlockView> },
    ChainSnapshot(ChainSnapshotView),
    PeerAnnouncement { address: Seq<char>, node_id: Option<Seq<char>> },
    PeerVerificationChallenge { address: Seq<char>, nonce: Seq<char> },
    PeerVerificationResponse { address: Seq<char>, nonce: Seq<char>, node_id: Seq<char>, signature: Seq<char> },
    PeerList { peers: Seq<Seq<char>> },
}

impl DeepView for ProtocolHello {
    type V = ProtocolHelloView;

    open spec fn deep_view(&self) -> ProtocolHelloView {
        ProtocolHelloView {
            protocol_version: self.protocol_version,
            network_id: self.network_id@,
            genesis_hash: self.genesis_hash@,
            listen_addr: self.listen_addr.deep_view(),
            node_id: self.node_id.deep_view(),
            height: self.height,
            tip_hash: self.tip_hash@,
            time_ms: self.time_ms,
        }
    }
}

impl DeepView for BlockInventory {
    type V = BlockInventoryView;

    open spec fn deep_view(&self) -> BlockInventoryView {
        BlockInventoryView { height: self.height, hash: self.hash@ }
    }
}

impl DeepView for GossipEnvelope {
    type V = GossipView;

    open spec fn deep_view(&self) -> GossipView {
        match self {
            GossipEnvelope::Hello(hello) => GossipView::Hello(hello.deep_view()),
            GossipEnvelope::PeerStatus { height, tip_hash, time_ms } => GossipView::PeerStatus {
                height: *height,
                tip_hash: tip_hash@,
                time_ms: *time_ms,
            },
            GossipEnvelope::ChainSnapshotRequest => GossipView::ChainSnapshotRequest,
            GossipEnvelope::BlockRangeRequest { from_height, limit } => GossipView::BlockRangeRequest {
                from_height: *from_height,
                limit: *limit,
            },
            GossipEnvelope::BlockRequest { hashes } => GossipView::BlockRequest { hashes: hashes.deep_view() },
            GossipEnvelope::Inventory { blocks } => GossipView::Inventory { blocks: blocks.deep_view() },
            GossipEnvelope::BlindedTransaction(t) => GossipView::BlindedTransaction(t.deep_view()),
            GossipEnvelope::BlindedTransactions { transactions } => GossipView::BlindedTransactions {
                transactions: transactions.deep_view(),
            },
            GossipEnvelope::MineAction(t) => GossipView::MineAction(t.deep_view()),
            GossipEnvelope::MineActions { transactions } => GossipView::MineActions {
                transactions: transactions.deep_view(),
            },
            GossipEnvelope::BlindedReveal(r) => GossipView::BlindedReveal(r.deep_view()),
            GossipEnvelope::BlindedReveals { reveals } => GossipView::BlindedReveals { reveals: reveals.deep_view() },
            GossipEnvelope::RevealBundle(b) => GossipView::RevealBundle(b.deep_view()),
            GossipEnvelope::RevealBundles { bundles } => GossipView::RevealBundles { bundles: bundles.deep_view() },
            GossipEnvelope::Block(b) => GossipView::Block(b.deep_view()),
            GossipEnvelope::Blocks { blocks } => GossipView::Blocks { blocks: blocks.deep_view() },
            GossipEnvelope::ChainSnapshot(s) => GossipView::ChainSnapshot(s.deep_view()),
            GossipEnvelope::PeerAnnouncement { address, node_id } => GossipView::PeerAnnouncement {
                address: address@,
                node_id: node_id.deep_view(),
            },
            GossipEnvelope::PeerVerificationChallenge { address, nonce } => GossipView::PeerVerificationChallenge {
                address: address@,
                nonce: nonce@,
            },
            GossipEnvelope::PeerVerificationResponse { address, nonce, node_id, signature } => {
                GossipView::PeerVerificationResponse {
                    address: address@,
                    nonce: nonce@,
                    node_id: node_id@,
                    signature: signature@,
                }
            },
            GossipEnvelope::PeerList { peers } => GossipView::PeerList { peers: peers.deep_view() },
        }
    }
}

impl GossipView {
    /// The message is well formed.
    pub open spec fn valid(self) -> bool {
        self matches GossipView::ChainSnapshot(s) ==> sorted::increasing::<String, u64>(s.genesis_allocations)
    }

    /// The message carries only what may be refused without harm: transactions and reveals.
    pub open spec fn is_transaction_like(self) -> bool {
        self is BlindedTransaction || self is BlindedTransactions || self is MineAction || self is MineActions
            || self is BlindedReveal || self is BlindedReveals
    }
}

impl ProtocolHello {
    fn duplicate(&self) -> (r: Self)
        ensures
            r.deep_view() == self.deep_view(),
    {
        ProtocolHello {
            protocol_version: self.protocol_version,
            network_id: self.network_id.clone(),
            genesis_hash: self.genesis_hash.clone(),
            listen_addr: self.listen_addr.duplicate(),
            node_id: self.node_id.duplicate(),
            height: self.height,
            tip_hash: self.tip_hash.clone(),
            time_ms: self.time_ms,
        }
    }
}

fn duplicate_inventory(blocks: &Vec<BlockInventory>) -> (r: Vec<BlockInventory>)
    ensures
        r.deep_view() == blocks.deep_view(),
{
    let mut out: Vec<BlockInventory> = Vec::new();
    let mut i: usize = 0;
    while i < blocks.len()
        invariant
            i <= blocks.len(),
            out@.len() == i,
            forall|j: int| 0 <= j < i ==> (#[trigger] out@[j]).deep_view() == blocks@[j].deep_view(),
        decreases blocks.len() - i,
    {
        out.push(BlockInventory { height: blocks[i].height, hash: blocks[i].hash.clone() });
        i = i + 1;
    }
    assert(out.deep_view() =~= blocks.deep_view());
    out
}

impl GossipEnvelope {
    pub fn duplicate(&self) -> (r: Self)
        ensures
            r.deep_view() == self.deep_view(),
    {
        match self {
            GossipEnvelope::Hello(hello) => GossipEnvelope::Hello(hello.duplicate()),
            GossipEnvelope::PeerStatus { height, tip_hash, time_ms } => GossipEnvelope::PeerStatus {
                height: *height,
                tip_hash: tip_hash.clone(),
                time_ms: *time_ms,
            },
            GossipEnvelope::ChainSnapshotRequest => GossipEnvelope::ChainSnapshotRequest,
            GossipEnvelope::BlockRangeRequest { from_height, limit } => GossipEnvelope::BlockRangeRequest {
                from_height: *from_height,
                limit: *limit,
            },
            GossipEnvelope::BlockRequest { hashes } => GossipEnvelope::BlockRequest { hashes: hashes.duplicate() },
            GossipEnvelope::Inventory { blocks } => GossipEnvelope::Inventory { blocks: duplicate_inventory(blocks) },
            GossipEnvelope::BlindedTransaction(t) => GossipEnvelope::BlindedTransaction(t.duplicate()),
            GossipEnvelope::BlindedTransactions { transactions } => GossipEnvelope::BlindedTransactions {
                transactions: transactions.duplicate(),
            },
            GossipEnvelope::MineAction(t) => GossipEnvelope::MineAction(t.duplicate()),
            GossipEnvelope::MineActions { transactions } => GossipEnvelope::MineActions {
                transactions: transactions.duplicate(),
            },
            GossipEnvelope::BlindedReveal(r) => GossipEnvelope::BlindedReveal(r.duplicate()),
            GossipEnvelope::BlindedReveals { reveals } => GossipEnvelope::BlindedReveals {
                reveals: reveals.duplicate(),
            },
            GossipEnvelope::RevealBundle(b) => GossipEnvelope::RevealBundle(b.duplicate()),
            GossipEnvelope::RevealBundles { bundles } => GossipEnvelope::RevealBundles {
                bundles: bundles.duplicate(),
            },
            GossipEnvelope::Block(b) => GossipEnvelope::Block(b.duplicate()),
            GossipEnvelope::Blocks { blocks } => GossipEnvelope::Blocks { blocks: blocks.duplicate() },
            GossipEnvelope::ChainSnapshot(s) => GossipEnvelope::ChainSnapshot(s.duplicate()),
            GossipEnvelope::PeerAnnouncement { address, node_id } => GossipEnvelope::PeerAnnouncement {
                address: address.clone(),
                node_id: node_id.duplicate(),
            },
            GossipEnvelope::PeerVerificationChallenge { address, nonce } => {
                GossipEnvelope::PeerVerificationChallenge { address: address.clone(), nonce: nonce.clone() }
            },
            GossipEnvelope::PeerVerificationResponse { address, nonce, node_id, signature } => {
                GossipEnvelope::PeerVerificationResponse {
                    address: address.clone(),
                    nonce: nonce.clone(),
                    node_id: node_id.clone(),
                    signature: signature.clone(),
                }
            },
            GossipEnvelope::PeerList { peers } => GossipEnvelope::PeerList { peers: peers.duplicate() },
        }
    }

    /// Whether the message carries only what may be refused without harm.
    pub fn is_transaction_like(&self) -> (r: bool)
        ensures
            r == self.deep_view().is_transaction_like(),
    {
        match self {
            GossipEnvelope::BlindedTransaction(_) => true,
            GossipEnvelope::BlindedTransactions { .. } => true,
            GossipEnvelope::MineAction(_) => true,
            GossipEnvelope::MineActions { .. } => true,
            GossipEnvelope::BlindedReveal(_) => true,
            GossipEnvelope::BlindedReveals { .. } => true,
            _ => false,
        }
    }
}

/// Items in batches of at most `TRANSACTION_BATCH_LIMIT`.
pub open spec fn batches<T>(items: Seq<T>) -> Seq<Seq<T>>
    decreases items.len(),
{
    if items.len() == 0 {
        Seq::<Seq<T>>::empty()
    } else if items.len() <= TRANSACTION_BATCH_LIMIT {
        seq![items]
    } else {
        seq![items.take(TRANSACTION_BATCH_LIMIT as int)] + batches(items.skip(TRANSACTION_BATCH_LIMIT as int))
    }
}

/// All batches together.
pub open spec fn rejoined<T>(parts: Seq<Seq<T>>) -> Seq<T>
    decreases parts.len(),
{
    if parts.len() == 0 {
        Seq::<T>::empty()
    } else {
        parts[0] + rejoined(parts.skip(1))
    }
}

/// Batches hold all items, in order, and none is empty or too long.
pub proof fn batches_hold_all<T>(items: Seq<T>)
    ensures
        rejoined(batches(items)) == items,
        forall|i: int| 0 <= i < batches(items).len() ==> 0 < (#[trigger] batches(items)[i]).len() <= TRANSACTION_BATCH_LIMIT,
    decreases items.len(),
{
    if items.len() > 0 {
        if items.len() <= TRANSACTION_BATCH_LIMIT {
            assert(batches(items).skip(1) =~= Seq::<Seq<T>>::empty());
            assert(rejoined(Seq::<Seq<T>>::empty()) == Seq::<T>::empty());
            assert(rejoined(batches(items)) =~= items);
        } else {
            let rest = batches(items.skip(TRANSACTION_BATCH_LIMIT as int));
            batches_hold_all(items.skip(TRANSACTION_BATCH_LIMIT as int));
            assert(batches(items).skip(1) =~= rest);
            assert(rejoined(batches(items)) =~= items);
            assert forall|i: int| 0 <= i < batches(items).len() implies 0 < (#[trigger] batches(items)[i]).len()
                <= TRANSACTION_BATCH_LIMIT by {
                if i > 0 {
                    assert(batches(items)[i] == rest[i - 1]);
                }
            }
        }
    }
}

/// Items in batches.
pub(crate) fn batched<T: Model>(items: &Vec<T>) -> (r: Vec<Vec<T>>)
    ensures
        r.deep_view() == batches(items.deep_view()),
{
    let ghost v = items.deep_view();
    let mut out: Vec<Vec<T>> = Vec::new();
    let mut start: usize = 0;
    assert(v.skip(0) =~= v);
    assert(out.deep_view() + batches(v.skip(0)) =~= batches(v));
    while start < items.len()
        invariant
            start <= items.len(),
            v == items.deep_view(),
            out.deep_view() + batches(v.skip(start as int)) == batches(v),
        decreases items.len() - start,
    {
        let count: usize = if items.len() - start < TRANSACTION_BATCH_LIMIT {
            items.len() - start
        } else {
            TRANSACTION_BATCH_LIMIT
        };
        let mut batch: Vec<T> = Vec::new();
        let mut i: usize = 0;
        while i < count
            invariant
                i <= count,
                start + count <= items.len(),
                batch@.len() == i,
                v == items.deep_view(),
                forall|j: int| 0 <= j < i ==> (#[trigger] batch@[j]).deep_view() == v[start + j],
            decreases count - i,
        {
            batch.push(items[start + i].duplicate());
            i = i + 1;
        }
        let ghost rest = v.skip(start as int);
        let ghost before = out.deep_view();
        assert(batch.deep_view() =~= rest.take(count as int));
        assert(rest.skip(count as int) =~= v.skip(start + count));
        proof {
            if rest.len() <= TRANSACTION_BATCH_LIMIT {
                assert(rest.take(count as int) =~= rest);
                assert(batches(rest) =~= seq![rest] + batches(rest.skip(count as int)));
            }
            assert(batches(rest) == seq![rest.take(count as int)] + batches(rest.skip(count as int)));
        }
        let ghost b = batch.deep_view();
        out.push(batch);
        assert(out.deep_view() =~= before.push(b));
        assert(before.push(b) + batches(v.skip(start + count)) =~= before + (seq![b] + batches(
            v.skip(start + count),
        )));
        start = start + count;
    }
    assert(v.skip(start as int) =~= Seq::<T::V>::empty());
    assert(out.deep_view() + Seq::<Seq<T::V>>::empty() =~= out.deep_view());
    out
}

} // verus!
