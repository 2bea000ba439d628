//! A node: its wallet, its ledger, its settings and what it has to say.
use crate::blinded::{
    BlindedReveal, BlindedRevealView, BlindedTransaction, BlindedTransactionView, BuiltBlindedTransactionView,
    OwnedBlindedTransaction, RevealBundle, RevealBundleView, RevealedBlindedTransaction,
};
use crate::block::{Block, BlockView};
use crate::error;
use crate::error::Error;
use crate::forks::ChainSnapshot;
use crate::genesis;
use crate::genesis::Allocations;
use crate::gossip::{GossipEnvelope, GossipView};
use crate::ledger;
use crate::ledger::{Ledger, LedgerView};
use crate::model;
use crate::model::Model;
use crate::sorted;
use crate::sorted::{Ordered, SortedMap};
use crate::text;
use crate::tickets::BurnLeaderRank;
use crate::transaction::{
    Amount, OutPoint, OutPointView, Transaction, TransactionView, TxInputView, TxOutputView, DEFAULT_FEE_PER_BYTE, MINE_REWARD,
};
use crate::utxo;
use crate::utxo::UtxosView;
use crate::wallet;
use crate::wallet::Wallet;
use vstd::prelude::*;

verus! {

pub const DEFAULT_BURN_PER_BLOCK: Amount = 0;

pub const DEFAULT_VDF_ROUNDS: u32 = 67_000_000;

pub const DEFAULT_POW_MINING_WORKERS: u8 = 1;

pub const MAX_POW_MINING_WORKERS: u8 = 64;

/// What a new node starts from.
#[derive(Clone, Debug)]
pub struct NodeConfig {
    pub wallet: Wallet,
    pub genesis_allocations: Allocations,
    pub vdf_rounds: u64,
    pub burn_per_block: Amount,
    pub burn_fee: Amount,
    pub pow_mining_workers: u8,
    pub recovery_vdf_top_rank_percent: u8,
}

/// The wallet of a node; of a locked one only the address is known.
#[derive(Clone, Debug)]
pub enum NodeWallet {
    Unlocked(Wallet),
    Locked { address: String },
}

/// How far the search for proofs of work on a tip has come.
#[derive(Clone, Debug, Eq, PartialEq)]
pub struct AutoPowMineCursor {
    pub anchor: String,
    pub salt: u64,
    pub next_nonce: u64,
    pub searched: u64,
}

/// The place of a reveal bundle.
#[derive(Clone, Copy, Debug, Eq, PartialEq, Structural)]
pub struct BundleSlot {
    pub height: u64,
    pub slot: u8,
}

#[derive(Clone, Debug)]
pub struct NodeCore {
    pub wallet: NodeWallet,
    pub ledger: Ledger,
    pub automatic_mining_enabled: bool,
    pub pow_mining_enabled: bool,
    pub pow_mining_workers: u8,
    pub burn_per_block: Amount,
    pub burn_fee: Amount,
    pub recovery_vdf_top_rank_percent: u8,
    pub last_auto_burn_height: Option<u64>,
    pub last_auto_anchor_burn_height: Option<u64>,
    pub last_auto_pow_mine_anchor: Option<String>,
    pub last_auto_pow_mine_status: Option<String>,
    pub auto_pow_mine_cursor: Option<AutoPowMineCursor>,
    pub owned_blinded_transactions: SortedMap<String, BlindedTransaction>,
    pub owned_blinded_reveals: SortedMap<String, BlindedReveal>,
    pub owned_blinded_payloads: SortedMap<String, Transaction>,
    pub owned_blinded_outbox_version: u64,
    pub reveal_bundles: SortedMap<BundleSlot, RevealBundle>,
    pub equivocated_reveal_bundle_slots: Vec<BundleSlot>,
    pub local_block_anchor_burn: Option<(u64, Transaction)>,
    pub outbox: Vec<GossipEnvelope>,
}

pub enum WalletView {
    Unlocked(Seq<u8>),
    Locked(Seq<char>),
}

#[verifier::ext_equal]
pub struct CursorView {
    pub anchor: Seq<char>,
    pub salt: u64,
    pub next_nonce: u64,
    pub searched: u64,
}

pub type OwnedTransactionsView = Seq<(Seq<char>, BlindedTransactionView)>;

pub type OwnedRevealsView = Seq<(Seq<char>, BlindedRevealView)>;

pub type OwnedPayloadsView = Seq<(Seq<char>, TransactionView)>;

#[verifier::ext_equal]
pub struct NodeView {
    pub wallet: WalletView,
    pub ledger: LedgerView,
    pub automatic_mining_enabled: bool,
    pub pow_mining_enabled: bool,
    pub pow_mining_workers: u8,
    pub burn_per_block: Amount,
    pub burn_fee: Amount,
    pub recovery_vdf_top_rank_percent: u8,
    pub last_auto_burn_height: Option<u64>,
    pub last_auto_anchor_burn_height: Option<u64>,
    pub last_auto_pow_mine_anchor: Option<Seq<char>>,
    pub last_auto_pow_mine_status: Option<Seq<char>>,
    pub cursor: Option<CursorView>,
    pub owned_transactions: OwnedTransactionsView,
    pub owned_reveals: OwnedRevealsView,
    pub owned_payloads: OwnedPayloadsView,
    pub owned_version: u64,
    pub bundles: Seq<(BundleSlot, RevealBundleView)>,
    pub equivocated: Seq<BundleSlot>,
    pub anchor_burn: Option<(u64, TransactionView)>,
    pub outbox: Seq<GossipView>,
}

impl DeepView for NodeWallet {
    type V = WalletView;

    open spec fn deep_view(&self) -> WalletView {
        match self {
            NodeWallet::Unlocked(wallet) => WalletView::Unlocked(wallet.seed()),
            NodeWallet::Locked { address } => WalletView::Locked(address@),
        }
    }
}

impl DeepView for AutoPowMineCursor {
    type V = CursorView;

    open spec fn deep_view(&self) -> CursorView {
        CursorView {
            anchor: self.anchor@,
            salt: self.salt,
            next_nonce: self.next_nonce,
            searched: self.searched,
        }
    }
}

impl DeepView for BundleSlot {
    type V = BundleSlot;

    open spec fn deep_view(&self) -> BundleSlot {
        *self
    }
}

impl Model for BundleSlot {
    fn duplicate(&self) -> (r: Self) {
        *self
    }

    fn same(&self, other: &Self) -> (r: bool) {
        *self == *other
    }
}

impl Ordered for BundleSlot {
    open spec fn before(a: BundleSlot, b: BundleSlot) -> bool {
        a.height < b.height || (a.height == b.height && a.slot < b.slot)
    }

    proof fn irreflexive(a: BundleSlot) {
    }

    proof fn transitive(a: BundleSlot, b: BundleSlot, c: BundleSlot) {
    }

    proof fn total(a: BundleSlot, b: BundleSlot) {
    }

    fn precedes(&self, other: &Self) -> (r: bool) {
        self.height < other.height || (self.height == other.height && self.slot < other.slot)
    }
}

impl DeepView for NodeCore {
    type V = NodeView;

    open spec fn deep_view(&self) -> NodeView {
        NodeView {
            wallet: self.wallet.deep_view(),
            ledger: self.ledger.deep_view(),
            automatic_mining_enabled: self.automatic_mining_enabled,
            pow_mining_enabled: self.pow_mining_enabled,
            pow_mining_workers: self.pow_mining_workers,
            burn_per_block: self.burn_per_block,
            burn_fee: self.burn_fee,
            recovery_vdf_top_rank_percent: self.recovery_vdf_top_rank_percent,
            last_auto_burn_height: self.last_auto_burn_height,
            last_auto_anchor_burn_height: self.last_auto_anchor_burn_height,
            last_auto_pow_mine_anchor: self.last_auto_pow_mine_anchor.deep_view(),
            last_auto_pow_mine_status: self.last_auto_pow_mine_status.deep_view(),
            cursor: self.auto_pow_mine_cursor.deep_view(),
            owned_transactions: self.owned_blinded_transactions.deep_view(),
            owned_reveals: self.owned_blinded_reveals.deep_view(),
            owned_payloads: self.owned_blinded_payloads.deep_view(),
            owned_version: self.owned_blinded_outbox_version,
            bundles: self.reveal_bundles.deep_view(),
            equivocated: self.equivocated_reveal_bundle_slots@,
            anchor_burn: self.local_block_anchor_burn.deep_view(),
            outbox: self.outbox.deep_view(),
        }
    }
}

impl WalletView {
    pub open spec fn address(self) -> Seq<char> {
        match self {
            WalletView::Unlocked(seed) => wallet::address_of(seed),
            WalletView::Locked(address) => address,
        }
    }

    pub open spec fn is_locked(self) -> bool {
        self is Locked
    }
}

/// A number of workers brought into its range.
pub open spec fn clamped_workers(workers: u8) -> u8 {
    if workers == 0 {
        DEFAULT_POW_MINING_WORKERS
    } else if workers > MAX_POW_MINING_WORKERS {
        MAX_POW_MINING_WORKERS
    } else {
        workers
    }
}

/// A percentage brought into its range.
pub open spec fn clamped_percent(percent: u8) -> u8 {
    if percent > 100 {
        100
    } else {
        percent
    }
}

/// Sums of amounts stop at the largest amount.
pub open spec fn plus(a: Amount, b: Amount) -> Amount {
    if a + b > u64::MAX {
        u64::MAX
    } else {
        (a + b) as u64
    }
}

/// Differences of amounts stop at zero.
pub open spec fn minus(a: Amount, b: Amount) -> Amount {
    if a < b {
        0
    } else {
        (a - b) as u64
    }
}

/// The outputs of a transaction to an address.
pub open spec fn outputs_total(outputs: Seq<TxOutputView>, address: Seq<char>) -> Amount
    decreases outputs.len(),
{
    if outputs.len() == 0 {
        0
    } else if outputs.last().address == address {
        plus(outputs_total(outputs.drop_last(), address), outputs.last().amount)
    } else {
        outputs_total(outputs.drop_last(), address)
    }
}

/// What a transaction gives to an address.
pub open spec fn output_total(t: TransactionView, address: Seq<char>) -> Amount {
    match t {
        TransactionView::Transfer { outputs, .. } => outputs_total(outputs, address),
        TransactionView::Burn { change, .. } => outputs_total(change, address),
        TransactionView::Mine { recipient, .. } => if recipient == address {
            MINE_REWARD
        } else {
            0
        },
    }
}

/// What an unspent output of an address is worth.
pub open spec fn worth(u: UtxosView, outpoint: OutPointView, address: Seq<char>) -> Option<Amount> {
    match sorted::lookup(u, outpoint) {
        Some(output) => if output.address == address {
            Some(output.amount)
        } else {
            None
        },
        None => None,
    }
}

pub open spec fn inputs_total(inputs: Seq<TxInputView>, address: Seq<char>, u: UtxosView) -> Amount
    decreases inputs.len(),
{
    if inputs.len() == 0 {
        0
    } else {
        let before = inputs_total(inputs.drop_last(), address, u);
        if inputs.last().owner != address {
            before
        } else {
            match worth(u, inputs.last().outpoint, address) {
                Some(amount) => plus(before, amount),
                None => before,
            }
        }
    }
}

/// What a transaction takes from the unspent outputs of an address.
pub open spec fn input_total(t: TransactionView, address: Seq<char>, u: UtxosView) -> Amount {
    match t {
        TransactionView::Transfer { inputs, .. } => inputs_total(inputs, address, u),
        TransactionView::Burn { inputs, .. } => inputs_total(inputs, address, u),
        TransactionView::Mine { .. } => 0,
    }
}

/// A balance once a transaction has taken and given.
pub open spec fn after_spending(balance: Amount, t: TransactionView, address: Seq<char>, u: UtxosView) -> Amount {
    plus(minus(balance, input_total(t, address, u)), output_total(t, address))
}

/// A node as it starts.
pub open spec fn fresh(
    wallet: WalletView,
    ledger: LedgerView,
    automatic_mining_enabled: bool,
    burn_per_block: Amount,
    burn_fee: Amount,
) -> NodeView {
    NodeView {
        wallet,
        ledger,
        automatic_mining_enabled,
        pow_mining_enabled: false,
        pow_mining_workers: DEFAULT_POW_MINING_WORKERS,
        burn_per_block,
        burn_fee,
        recovery_vdf_top_rank_percent: 100,
        last_auto_burn_height: None,
        last_auto_anchor_burn_height: None,
        last_auto_pow_mine_anchor: None,
        last_auto_pow_mine_status: None,
        cursor: None,
        owned_transactions: Seq::<(Seq<char>, BlindedTransactionView)>::empty(),
        owned_reveals: Seq::<(Seq<char>, BlindedRevealView)>::empty(),
        owned_payloads: Seq::<(Seq<char>, TransactionView)>::empty(),
        owned_version: 0,
        bundles: Seq::<(BundleSlot, RevealBundleView)>::empty(),
        equivocated: Seq::<BundleSlot>::empty(),
        anchor_burn: None,
        outbox: Seq::<GossipView>::empty(),
    }
}

impl NodeView {
    /// The parts of the node fit together.
    pub open spec fn valid(self) -> bool {
        &&& self.ledger.valid()
        &&& sorted::increasing::<String, BlindedTransactionView>(self.owned_transactions)
        &&& sorted::increasing::<String, BlindedRevealView>(self.owned_reveals)
        &&& sorted::increasing::<String, TransactionView>(self.owned_payloads)
        &&& sorted::increasing::<BundleSlot, RevealBundleView>(self.bundles)
        &&& forall|i: int|
            0 <= i < self.bundles.len() ==> (#[trigger] self.bundles[i]).0 == slot_of(self.bundles[i].1)
        &&& forall|i: int| 0 <= i < self.outbox.len() ==> (#[trigger] self.outbox[i]).valid()
        &&& 1 <= self.pow_mining_workers <= MAX_POW_MINING_WORKERS
        &&& self.recovery_vdf_top_rank_percent <= 100
    }

    /// The node with one more message to send.
    pub open spec fn sending(self, message: GossipView) -> NodeView {
        NodeView { outbox: self.outbox.push(message), ..self }
    }

    /// The node once the wallet's envelopes changed.
    pub open spec fn bumped(self) -> NodeView {
        NodeView { owned_version: plus(self.owned_version, 1), ..self }
    }

    /// The node with another wallet; what the old one had done is forgotten.
    pub open spec fn with_wallet(self, seed: Seq<u8>) -> NodeView {
        NodeView {
            wallet: WalletView::Unlocked(seed),
            last_auto_burn_height: None,
            last_auto_anchor_burn_height: None,
            last_auto_pow_mine_anchor: None,
            last_auto_pow_mine_status: None,
            cursor: None,
            owned_transactions: Seq::<(Seq<char>, BlindedTransactionView)>::empty(),
            owned_reveals: Seq::<(Seq<char>, BlindedRevealView)>::empty(),
            owned_payloads: Seq::<(Seq<char>, TransactionView)>::empty(),
            bundles: Seq::<(BundleSlot, RevealBundleView)>::empty(),
            equivocated: Seq::<BundleSlot>::empty(),
            anchor_burn: None,
            ..self
        }.bumped()
    }

    pub open spec fn with_pow_mining(self, enabled: bool) -> NodeView {
        NodeView {
            pow_mining_enabled: enabled,
            cursor: None,
            last_auto_pow_mine_anchor: if enabled {
                self.last_auto_pow_mine_anchor
            } else {
                None
            },
            last_auto_pow_mine_status: if enabled {
                Some("waiting for next automatic PoW mining tick"@)
            } else {
                None
            },
            ..self
        }
    }

    pub open spec fn with_workers(self, workers: u8) -> NodeView {
        if self.pow_mining_workers == clamped_workers(workers) {
            self
        } else {
            NodeView {
                pow_mining_workers: clamped_workers(workers),
                cursor: None,
                last_auto_pow_mine_status: if self.pow_mining_enabled {
                    Some("waiting for next automatic PoW mining tick"@)
                } else {
                    self.last_auto_pow_mine_status
                },
                ..self
            }
        }
    }

    /// Whether the ledger is of a real chain.
    pub open spec fn has_real_chain(self) -> bool {
        !(self.ledger.height() == 0 && self.ledger.genesis_allocations.len() == 0
            && self.ledger.chain[0].transactions.len() == 0 && self.ledger.pending.len() == 0)
    }

    /// The burn that anchors the next block of this node, while it is not on the chain.
    pub open spec fn open_anchor(self, l: LedgerView) -> Option<TransactionView> {
        match self.anchor_burn {
            Some((height, burn)) => if height == l.height() && !l.knows_transaction(burn.signature()) {
                Some(burn)
            } else {
                None
            },
            None => None,
        }
    }

    /// A ledger with payments of the wallet queued that are still sealed. What a payment leaves is
    /// there to be spent, also while a block holds what it spends.
    pub open spec fn queued(self, l: LedgerView, payloads: OwnedPayloadsView) -> LedgerView
        decreases payloads.len(),
    {
        if payloads.len() == 0 {
            l
        } else {
            let before = self.queued(l, payloads.drop_last());
            let (commitment, payload) = payloads.last();
            if self.ledger.knows_unrevealed(commitment) && !before.knows_transaction(payload.signature()) {
                self.ready_for(before, commitment, payload).submitted(payload).0
            } else {
                before
            }
        }
    }

    /// A ledger with the outputs of a payment, if a block included its envelope.
    pub open spec fn ready_for(self, l: LedgerView, commitment: Seq<char>, payload: TransactionView) -> LedgerView {
        if sorted::lookup(self.ledger.active_blinded, commitment) is Some {
            l.expecting(payload)
        } else {
            l
        }
    }

    /// The ledger as the owner of the wallet sees it.
    pub open spec fn wallet_ledger(self) -> Result<LedgerView, Seq<char>> {
        match self.open_anchor(self.ledger) {
            None => Ok(self.queued(self.ledger, self.owned_payloads)),
            Some(burn) => match self.ledger.submitted(burn) {
                (l, Ok(_)) => Ok(self.queued(l, self.owned_payloads)),
                (_, Err(e)) => Err(e),
            },
        }
    }

    /// The ledger with the outputs reserved that the anchor of the next block spends.
    pub open spec fn reserved_ledger(self) -> LedgerView {
        match self.open_anchor(self.ledger) {
            Some(burn) => self.ledger.reserved(burn),
            None => self.ledger,
        }
    }

    /// The ledger on which new payments of the wallet are built.
    pub open spec fn build_ledger(self) -> LedgerView {
        self.queued(self.reserved_ledger(), self.owned_payloads)
    }

    /// The balance with the sealed payments of the wallet counted in: what they spend is gone from
    /// the outputs once a block includes them.
    pub open spec fn with_payloads(self, payloads: OwnedPayloadsView) -> Amount
        decreases payloads.len(),
    {
        let address = self.wallet.address();
        if payloads.len() == 0 {
            utxo::balance(self.ledger.utxos, address) as Amount
        } else {
            let before = self.with_payloads(payloads.drop_last());
            let (commitment, payload) = payloads.last();
            if !self.ledger.knows_unrevealed(commitment) {
                before
            } else if sorted::lookup(self.ledger.active_blinded, commitment) is Some {
                plus(before, output_total(payload, address))
            } else {
                after_spending(before, payload, address, self.ledger.utxos)
            }
        }
    }

    /// The balance that the wallet will have once what it sent is on the chain.
    pub open spec fn projected_balance(self) -> Amount {
        let balance = self.with_payloads(self.owned_payloads);
        match self.open_anchor(self.ledger) {
            Some(burn) => after_spending(balance, burn, self.wallet.address(), self.ledger.utxos),
            None => balance,
        }
    }
}

/// A valid node stays valid with other settings.
pub proof fn settings_keep_validity(n: NodeView, m: NodeView)
    requires
        n.valid(),
        m.ledger == n.ledger,
        m.owned_transactions == n.owned_transactions,
        m.owned_reveals == n.owned_reveals,
        m.owned_payloads == n.owned_payloads,
        m.bundles == n.bundles,
        m.outbox == n.outbox,
        1 <= m.pow_mining_workers <= MAX_POW_MINING_WORKERS,
        m.recovery_vdf_top_rank_percent <= 100,
    ensures
        m.valid(),
{
}

/// The place that a bundle belongs to.
pub open spec fn slot_of(b: RevealBundleView) -> BundleSlot {
    BundleSlot { height: b.height, slot: b.slot }
}

/// The owned envelopes of which payload and reveal are known.
pub open spec fn owned_of(t: OwnedTransactionsView, p: OwnedPayloadsView, r: OwnedRevealsView) -> Seq<
    BuiltBlindedTransactionView,
>
    decreases t.len(),
{
    if t.len() == 0 {
        Seq::<BuiltBlindedTransactionView>::empty()
    } else {
        let before = owned_of(t.drop_last(), p, r);
        match (sorted::lookup(p, t.last().0), sorted::lookup(r, t.last().0)) {
            (Some(payload), Some(reveal)) => before.push(
                BuiltBlindedTransactionView { payload, transaction: t.last().1, reveal },
            ),
            _ => before,
        }
    }
}

/// The blocks of a chain that have given hashes.
pub open spec fn blocks_with(chain: Seq<BlockView>, hashes: Seq<Seq<char>>) -> Seq<BlockView>
    decreases hashes.len(),
{
    if hashes.len() == 0 {
        Seq::<BlockView>::empty()
    } else {
        match ledger::with_hash(chain, hashes.last()) {
            Some(b) => blocks_with(chain, hashes.drop_last()).push(b),
            None => blocks_with(chain, hashes.drop_last()),
        }
    }
}

impl NodeWallet {
    pub fn address(&self) -> (r: &str)
        ensures
            r@ == self.deep_view().address(),
    {
        match self {
            NodeWallet::Unlocked(wallet) => wallet.address(),
            NodeWallet::Locked { address } => address.as_str(),
        }
    }

    pub fn is_locked(&self) -> (r: bool)
        ensures
            r == self.deep_view().is_locked(),
    {
        match self {
            NodeWallet::Unlocked(_) => false,
            NodeWallet::Locked { .. } => true,
        }
    }

    pub fn unlocked(&self) -> (r: Result<&Wallet, Error>)
        ensures
            match r {
                Ok(wallet) => self.deep_view() == WalletView::Unlocked(wallet.seed()),
                Err(e) => self.deep_view() is Locked && e.deep_view() == "wallet is locked"@,
            },
    {
        match self {
            NodeWallet::Unlocked(wallet) => Ok(wallet),
            NodeWallet::Locked { .. } => Err(Error::new("wallet is locked")),
        }
    }
}

/// Brings a number of workers into its range.
pub fn clamp_pow_mining_workers(workers: u8) -> (r: u8)
    ensures
        r == clamped_workers(workers),
{
    if workers == 0 {
        DEFAULT_POW_MINING_WORKERS
    } else if workers > MAX_POW_MINING_WORKERS {
        MAX_POW_MINING_WORKERS
    } else {
        workers
    }
}

fn clamp_percent(percent: u8) -> (r: u8)
    ensures
        r == clamped_percent(percent),
{
    if percent > 100 {
        100
    } else {
        percent
    }
}

fn outputs_total_for_address(outputs: &Vec<crate::transaction::TxOutput>, address: &str) -> (r: Amount)
    ensures
        r == outputs_total(outputs.deep_view(), address@),
{
    let ghost v = outputs.deep_view();
    let mut total: Amount = 0;
    let mut i: usize = 0;
    proof {
        model::take_all(v);
    }
    while i < outputs.len()
        invariant
            i <= outputs.len(),
            v == outputs.deep_view(),
            total == outputs_total(v.take(i as int), address@),
        decreases outputs.len() - i,
    {
        proof {
            assert(v.take(i + 1).drop_last() =~= v.take(i as int));
        }
        if text::text_eq(outputs[i].address.as_str(), address) {
            total = total.saturating_add(outputs[i].amount);
        }
        i = i + 1;
    }
    proof {
        model::take_all(v);
    }
    total
}

/// What a transaction gives to an address.
pub fn transaction_output_total_for_address(transaction: &Transaction, address: &str) -> (r: Amount)
    ensures
        r == output_total(transaction.deep_view(), address@),
{
    match transaction {
        Transaction::Transfer { outputs, .. } => outputs_total_for_address(outputs, address),
        Transaction::Burn { change, .. } => outputs_total_for_address(change, address),
        Transaction::Mine { recipient, .. } => if text::text_eq(recipient.as_str(), address) {
            MINE_REWARD
        } else {
            0
        },
    }
}

fn inputs_total_for_address(
    inputs: &Vec<crate::transaction::TxInput>,
    address: &str,
    utxos: &utxo::Utxos,
) -> (r: Amount)
    requires
        utxos.wf(),
    ensures
        r == inputs_total(inputs.deep_view(), address@, utxos.deep_view()),
{
    let ghost v = inputs.deep_view();
    let ghost u = utxos.deep_view();
    let mut total: Amount = 0;
    let mut i: usize = 0;
    proof {
        model::take_all(v);
    }
    while i < inputs.len()
        invariant
            i <= inputs.len(),
            v == inputs.deep_view(),
            u == utxos.deep_view(),
            utxos.wf(),
            total == inputs_total(v.take(i as int), address@, u),
        decreases inputs.len() - i,
    {
        proof {
            assert(v.take(i + 1).drop_last() =~= v.take(i as int));
        }
        if text::text_eq(inputs[i].owner.as_str(), address) {
            if let Some(output) = utxos.get(&inputs[i].outpoint) {
                if text::text_eq(output.address.as_str(), address) {
                    total = total.saturating_add(output.amount);
                }
            }
        }
        i = i + 1;
    }
    proof {
        model::take_all(v);
    }
    total
}

/// What a transaction takes from the unspent outputs of an address.
pub fn transaction_input_total_from_outputs(transaction: &Transaction, address: &str, utxos: &utxo::Utxos) -> (r: Amount)
    requires
        utxos.wf(),
    ensures
        r == input_total(transaction.deep_view(), address@, utxos.deep_view()),
{
    match transaction {
        Transaction::Transfer { inputs, .. } => inputs_total_for_address(inputs, address, utxos),
        Transaction::Burn { inputs, .. } => inputs_total_for_address(inputs, address, utxos),
        Transaction::Mine { .. } => 0,
    }
}

impl NodeCore {
    /// The node is well formed.
    pub open spec fn wf(&self) -> bool {
        &&& self.deep_view().valid()
        &&& self.ledger.wf()
        &&& self.owned_blinded_transactions.wf()
        &&& self.owned_blinded_reveals.wf()
        &&& self.owned_blinded_payloads.wf()
        &&& self.reveal_bundles.wf()
    }

    pub fn new(config: NodeConfig) -> (r: Self)
        requires
            config.genesis_allocations.wf(),
            genesis::allocations_check(config.genesis_allocations.deep_view()) is Ok,
        ensures
            r.wf(),
            match ledger::initial_state(
                config.genesis_allocations.deep_view(),
                Seq::<TransactionView>::empty(),
                config.vdf_rounds,
            ) {
                Ok(l) => r.deep_view() == (NodeView {
                    recovery_vdf_top_rank_percent: clamped_percent(config.recovery_vdf_top_rank_percent),
                    ..fresh(
                        WalletView::Unlocked(config.wallet.seed()),
                        l,
                        config.burn_per_block > 0,
                        config.burn_per_block,
                        config.burn_fee,
                    ).with_workers(config.pow_mining_workers)
                }),
                Err(_) => false,
            },
    {
        let ledger = Ledger::new(config.genesis_allocations, config.vdf_rounds);
        let mut node = Self::from_ledger_with_burn_fee(
            config.wallet,
            ledger,
            config.burn_per_block,
            config.burn_fee,
        );
        node.set_pow_mining_workers(config.pow_mining_workers);
        node.set_recovery_vdf_top_rank_percent(config.recovery_vdf_top_rank_percent);
        node
    }

    pub fn from_ledger(wallet: Wallet, ledger: Ledger, burn_per_block: Amount) -> (r: Self)
        requires
            ledger.wf(),
        ensures
            r.wf(),
            r.deep_view() == fresh(
                WalletView::Unlocked(wallet.seed()),
                ledger.deep_view(),
                burn_per_block > 0,
                burn_per_block,
                DEFAULT_FEE_PER_BYTE,
            ),
    {
        Self::from_ledger_with_burn_fee(wallet, ledger, burn_per_block, DEFAULT_FEE_PER_BYTE)
    }

    pub fn from_locked_wallet_address(
        address: &str,
        ledger: Ledger,
        automatic_mining_enabled: bool,
        burn_per_block: Amount,
        burn_fee: Amount,
    ) -> (r: Self)
        requires
            ledger.wf(),
        ensures
            r.wf(),
            r.deep_view() == fresh(
                WalletView::Locked(address@),
                ledger.deep_view(),
                automatic_mining_enabled,
                burn_per_block,
                burn_fee,
            ),
    {
        Self::start(
            NodeWallet::Locked { address: text::text(address) },
            ledger,
            automatic_mining_enabled,
            burn_per_block,
            burn_fee,
        )
    }

    pub fn from_ledger_with_burn_fee(wallet: Wallet, ledger: Ledger, burn_per_block: Amount, burn_fee: Amount) -> (r: Self)
        requires
            ledger.wf(),
        ensures
            r.wf(),
            r.deep_view() == fresh(
                WalletView::Unlocked(wallet.seed()),
                ledger.deep_view(),
                burn_per_block > 0,
                burn_per_block,
                burn_fee,
            ),
    {
        Self::from_ledger_with_burn_fee_and_enabled(wallet, ledger, burn_per_block > 0, burn_per_block, burn_fee)
    }

    pub fn from_ledger_with_burn_fee_and_enabled(
        wallet: Wallet,
        ledger: Ledger,
        automatic_mining_enabled: bool,
        burn_per_block: Amount,
        burn_fee: Amount,
    ) -> (r: Self)
        requires
            ledger.wf(),
        ensures
            r.wf(),
            r.deep_view() == fresh(
                WalletView::Unlocked(wallet.seed()),
                ledger.deep_view(),
                automatic_mining_enabled,
                burn_per_block,
                burn_fee,
            ),
    {
        Self::start(NodeWallet::Unlocked(wallet), ledger, automatic_mining_enabled, burn_per_block, burn_fee)
    }

    fn start(
        wallet: NodeWallet,
        ledger: Ledger,
        automatic_mining_enabled: bool,
        burn_per_block: Amount,
        burn_fee: Amount,
    ) -> (r: Self)
        requires
            ledger.wf(),
        ensures
            r.wf(),
            r.deep_view() == fresh(
                wallet.deep_view(),
                ledger.deep_view(),
                automatic_mining_enabled,
                burn_per_block,
                burn_fee,
            ),
    {
        let r = NodeCore {
            wallet,
            ledger,
            automatic_mining_enabled,
            pow_mining_enabled: false,
            pow_mining_workers: DEFAULT_POW_MINING_WORKERS,
            burn_per_block,
            burn_fee,
            recovery_vdf_top_rank_percent: 100,
            last_auto_burn_height: None,
            last_auto_anchor_burn_height: None,
            last_auto_pow_mine_anchor: None,
            last_auto_pow_mine_status: None,
            auto_pow_mine_cursor: None,
            owned_blinded_transactions: SortedMap::new(),
            owned_blinded_reveals: SortedMap::new(),
            owned_blinded_payloads: SortedMap::new(),
            owned_blinded_outbox_version: 0,
            reveal_bundles: SortedMap::new(),
            equivocated_reveal_bundle_slots: Vec::new(),
            local_block_anchor_burn: None,
            outbox: Vec::new(),
        };
        proof {
            assert(r.outbox.deep_view() =~= Seq::<GossipView>::empty());
            r.owned_blinded_transactions.wf_is_increasing();
            r.owned_blinded_reveals.wf_is_increasing();
            r.owned_blinded_payloads.wf_is_increasing();
            r.reveal_bundles.wf_is_increasing();
        }
        r
    }

    pub fn wallet_address(&self) -> (r: &str)
        ensures
            r@ == self.deep_view().wallet.address(),
    {
        self.wallet.address()
    }

    pub fn wallet_is_locked(&self) -> (r: bool)
        ensures
            r == self.deep_view().wallet.is_locked(),
    {
        self.wallet.is_locked()
    }

    /// Counts a change of the owned envelopes.
    pub(crate) fn bump_owned_blinded_outbox_version(&mut self)
        requires
            old(self).wf(),
        ensures
            final(self).wf(),
            final(self).deep_view() == old(self).deep_view().bumped(),
    {
        self.owned_blinded_outbox_version = self.owned_blinded_outbox_version.saturating_add(1);
    }

    /// Takes another wallet.
    pub fn replace_wallet(&mut self, wallet: Wallet)
        requires
            old(self).wf(),
        ensures
            final(self).wf(),
            final(self).deep_view() == old(self).deep_view().with_wallet(wallet.seed()),
    {
        self.wallet = NodeWallet::Unlocked(wallet);
        self.last_auto_burn_height = None;
        self.last_auto_anchor_burn_height = None;
        self.last_auto_pow_mine_anchor = None;
        self.last_auto_pow_mine_status = None;
        self.auto_pow_mine_cursor = None;
        self.owned_blinded_transactions = SortedMap::new();
        self.owned_blinded_reveals = SortedMap::new();
        self.owned_blinded_payloads = SortedMap::new();
        self.reveal_bundles = SortedMap::new();
        self.equivocated_reveal_bundle_slots = Vec::new();
        self.local_block_anchor_burn = None;
        proof {
            self.owned_blinded_transactions.wf_is_increasing();
            self.owned_blinded_reveals.wf_is_increasing();
            self.owned_blinded_payloads.wf_is_increasing();
            self.reveal_bundles.wf_is_increasing();
        }
        self.bump_owned_blinded_outbox_version();
    }

    pub fn ledger(&self) -> (r: &Ledger)
        ensures
            *r == self.ledger,
    {
        &self.ledger
    }

    /// A copy of the ledger.
    pub fn clone_ledger(&self) -> (r: Ledger)
        requires
            self.wf(),
        ensures
            r.wf(),
            r.deep_view() == self.deep_view().ledger,
    {
        let r = self.ledger.duplicate();
        proof {
            r.wf_is_valid();
        }
        r
    }

    pub fn chain(&self) -> (r: &[Block])
        ensures
            model::views(r@) == self.deep_view().ledger.chain,
    {
        self.ledger.chain()
    }

    pub fn chain_height(&self) -> (r: u64)
        requires
            self.wf(),
        ensures
            r == self.deep_view().ledger.height(),
            r < u64::MAX,
    {
        self.ledger.height()
    }

    /// Whether the ledger is of a real chain, and no placeholder.
    pub fn has_real_chain(&self) -> (r: bool)
        requires
            self.wf(),
        ensures
            r == self.deep_view().has_real_chain(),
    {
        !self.ledger.is_setup_placeholder()
    }

    pub fn set_pow_mining_enabled(&mut self, enabled: bool)
        requires
            old(self).wf(),
        ensures
            final(self).wf(),
            final(self).deep_view() == old(self).deep_view().with_pow_mining(enabled),
    {
        self.pow_mining_enabled = enabled;
        self.auto_pow_mine_cursor = None;
        if !enabled {
            self.last_auto_pow_mine_anchor = None;
            self.last_auto_pow_mine_status = None;
        } else {
            self.last_auto_pow_mine_status = Some(text::text("waiting for next automatic PoW mining tick"));
        }
    }

    pub fn pow_mining_enabled(&self) -> (r: bool)
        ensures
            r == self.deep_view().pow_mining_enabled,
    {
        self.pow_mining_enabled
    }

    pub fn set_pow_mining_workers(&mut self, workers: u8)
        requires
            old(self).wf(),
        ensures
            final(self).wf(),
            final(self).deep_view() == old(self).deep_view().with_workers(workers),
    {
        let workers: u8 = clamp_pow_mining_workers(workers);
        if self.pow_mining_workers != workers {
            self.pow_mining_workers = workers;
            self.auto_pow_mine_cursor = None;
            if self.pow_mining_enabled {
                self.last_auto_pow_mine_status = Some(text::text("waiting for next automatic PoW mining tick"));
            }
        }
    }

    pub fn pow_mining_workers(&self) -> (r: u8)
        ensures
            r == self.deep_view().pow_mining_workers,
    {
        self.pow_mining_workers
    }

    pub fn set_recovery_vdf_top_rank_percent(&mut self, percent: u8)
        requires
            old(self).wf(),
        ensures
            final(self).wf(),
            final(self).deep_view() == (NodeView {
                recovery_vdf_top_rank_percent: clamped_percent(percent),
                ..old(self).deep_view()
            }),
    {
        self.recovery_vdf_top_rank_percent = clamp_percent(percent);
    }

    pub fn recent_blocks(&self, limit: usize) -> (r: Vec<Block>)
        requires
            self.wf(),
        ensures
            r.deep_view() == Seq::new(
                (if limit < self.deep_view().ledger.chain.len() {
                    limit as int
                } else {
                    self.deep_view().ledger.chain.len() as int
                }) as nat,
                |i: int| self.deep_view().ledger.chain[self.deep_view().ledger.chain.len() - 1 - i],
            ),
    {
        self.ledger.recent_blocks(limit)
    }

    pub fn blocks_before(&self, before_height: u64, limit: usize) -> (r: Vec<Block>)
        requires
            self.wf(),
        ensures
            ({
                let chain = self.deep_view().ledger.chain;
                let n = if before_height < chain.len() {
                    before_height as int
                } else {
                    chain.len() as int
                };
                r.deep_view() == Seq::new(
                    (if limit < n {
                        limit as int
                    } else {
                        n
                    }) as nat,
                    |i: int| chain[n - 1 - i],
                )
            }),
    {
        self.ledger.blocks_before(before_height, limit)
    }

    pub fn blocks_from(&self, from_height: u64, limit: usize) -> (r: Vec<Block>)
        requires
            self.wf(),
        ensures
            ({
                let n = self.deep_view().ledger.chain.len() as int;
                let first = if from_height < n {
                    from_height as int
                } else {
                    n
                };
                r.deep_view() == self.deep_view().ledger.chain.subrange(
                    first,
                    if limit < n - first {
                        first + limit
                    } else {
                        n
                    },
                )
            }),
    {
        self.ledger.blocks_from(from_height, limit)
    }

    pub fn burn_leader_ranks_for_block(&self, height: u64) -> (r: Result<Vec<BurnLeaderRank>, Error>)
        requires
            self.wf(),
        ensures
            error::outcome(r) == self.deep_view().ledger.leader_ranks(height),
    {
        self.ledger.burn_leader_ranks_for_block(height)
    }

    pub fn pending_transactions(&self) -> (r: Vec<Transaction>)
        ensures
            r.deep_view() == self.deep_view().ledger.pending,
    {
        self.ledger.pending.duplicate()
    }

    pub fn pending_blinded_transactions(&self) -> (r: Vec<BlindedTransaction>)
        ensures
            r.deep_view() == self.deep_view().ledger.pending_blinded,
    {
        self.ledger.pending_blinded.duplicate()
    }

    pub fn pending_blinded_reveals(&self) -> (r: Vec<BlindedReveal>)
        ensures
            r.deep_view() == self.deep_view().ledger.pending_reveals,
    {
        self.ledger.pending_reveals.duplicate()
    }

    /// The pending reveals that open an included envelope, each with what it opens.
    pub fn pending_revealed_blinded_transactions(&self) -> (r: Vec<RevealedBlindedTransaction>)
        requires
            self.wf(),
        ensures
            r.deep_view() == self.deep_view().ledger.opening(self.deep_view().ledger.pending_reveals),
    {
        self.ledger.pending_revealed_blinded_transactions()
    }

    /// The blocks of the chain that have given hashes.
    pub fn blocks_by_hash(&self, hashes: &[String]) -> (r: Vec<Block>)
        ensures
            r.deep_view() == blocks_with(self.deep_view().ledger.chain, model::views(hashes@)),
    {
        broadcast use model::group_views;

        let ghost v = model::views(hashes@);
        let ghost c = self.deep_view().ledger.chain;
        let mut out: Vec<Block> = Vec::new();
        let mut i: usize = 0;
        proof {
            model::take_all(v);
        }
        while i < hashes.len()
            invariant
                i <= hashes@.len(),
                v == model::views(hashes@),
                c == self.deep_view().ledger.chain,
                out.deep_view() == blocks_with(c, v.take(i as int)),
            decreases hashes@.len() - i,
        {
            proof {
                assert(v.take(i + 1).drop_last() =~= v.take(i as int));
                assert(v.take(i + 1).last() == hashes@[i as int]@);
            }
            if let Some(block) = self.ledger.block_by_hash(hashes[i].as_str()) {
                out.push(block);
            }
            i = i + 1;
        }
        proof {
            model::take_all(v);
        }
        out
    }

    /// The payments of the wallet that are still sealed.
    pub fn owned_blinded_payloads(&self) -> (r: Vec<Transaction>)
        ensures
            r.deep_view() == Seq::new(
                self.deep_view().owned_payloads.len(),
                |i: int| self.deep_view().owned_payloads[i].1,
            ),
    {
        let ghost v = self.deep_view().owned_payloads;
        let mut out: Vec<Transaction> = Vec::new();
        let mut i: usize = 0;
        while i < self.owned_blinded_payloads.len()
            invariant
                i <= v.len(),
                v == self.owned_blinded_payloads.deep_view(),
                out@.len() == i,
                forall|j: int| 0 <= j < i ==> (#[trigger] out@[j]).deep_view() == v[j].1,
            decreases v.len() - i,
        {
            out.push(self.owned_blinded_payloads.at(i).1.duplicate());
            i = i + 1;
        }
        assert(out.deep_view() =~= Seq::new(v.len(), |i: int| v[i].1));
        out
    }

    pub fn owned_blinded_outbox_version(&self) -> (r: u64)
        ensures
            r == self.deep_view().owned_version,
    {
        self.owned_blinded_outbox_version
    }

    /// The envelopes of the wallet with what they hold.
    pub fn owned_blinded_transactions(&self) -> (r: Vec<OwnedBlindedTransaction>)
        requires
            self.wf(),
        ensures
            r.deep_view() == owned_of(
                self.deep_view().owned_transactions,
                self.deep_view().owned_payloads,
                self.deep_view().owned_reveals,
            ),
    {
        broadcast use model::group_views;

        let ghost t = self.deep_view().owned_transactions;
        let ghost p = self.deep_view().owned_payloads;
        let ghost v = self.deep_view().owned_reveals;
        let mut out: Vec<OwnedBlindedTransaction> = Vec::new();
        let mut i: usize = 0;
        proof {
            model::take_all(t);
        }
        while i < self.owned_blinded_transactions.len()
            invariant
                i <= t.len(),
                self.wf(),
                t == self.deep_view().owned_transactions,
                p == self.deep_view().owned_payloads,
                v == self.deep_view().owned_reveals,
                out.deep_view() == owned_of(t.take(i as int), p, v),
            decreases t.len() - i,
        {
            let ghost before = out.deep_view();
            proof {
                assert(t.take(i + 1).drop_last() =~= t.take(i as int));
                assert(t.take(i + 1).last() == t[i as int]);
            }
            let entry = self.owned_blinded_transactions.at(i);
            match (self.owned_blinded_payloads.get(&entry.0), self.owned_blinded_reveals.get(&entry.0)) {
                (Some(payload), Some(reveal)) => {
                    let owned = OwnedBlindedTransaction {
                        transaction: entry.1.duplicate(),
                        payload: payload.duplicate(),
                        reveal: reveal.duplicate(),
                    };
                    let ghost o = owned.deep_view();
                    out.push(owned);
                    assert(out.deep_view() == before.push(o));
                },
                _ => {},
            }
            i = i + 1;
        }
        proof {
            model::take_all(t);
        }
        out
    }

    pub fn mark_owned_blinded_outbox_persisted(&mut self, version: u64)
        requires
            old(self).wf(),
        ensures
            final(self).wf(),
            final(self).deep_view() == (NodeView {
                owned_version: if old(self).deep_view().owned_version == version {
                    0
                } else {
                    old(self).deep_view().owned_version
                },
                ..old(self).deep_view()
            }),
    {
        if self.owned_blinded_outbox_version == version {
            self.owned_blinded_outbox_version = 0;
        }
    }

    pub fn chain_snapshot(&self) -> (r: ChainSnapshot)
        requires
            self.wf(),
        ensures
            r.deep_view() == self.deep_view().ledger.snapshot(),
            r.genesis_allocations.wf(),
    {
        self.ledger.snapshot()
    }

    /// Hands out the messages that wait to be sent.
    pub fn drain_outbox(&mut self) -> (r: Vec<GossipEnvelope>)
        requires
            old(self).wf(),
        ensures
            final(self).wf(),
            r.deep_view() == old(self).deep_view().outbox,
            final(self).deep_view() == (NodeView {
                outbox: Seq::<GossipView>::empty(),
                ..old(self).deep_view()
            }),
    {
        let mut out: Vec<GossipEnvelope> = Vec::new();
        std::mem::swap(&mut out, &mut self.outbox);
        assert(self.outbox.deep_view() =~= Seq::<GossipView>::empty());
        out
    }

    pub(crate) fn queue_owned_blinded_payloads(&self, ledger: &mut Ledger)
        requires
            self.wf(),
            old(ledger).wf(),
        ensures
            final(ledger).wf(),
            final(ledger).deep_view() == self.deep_view().queued(
                old(ledger).deep_view(),
                self.deep_view().owned_payloads,
            ),
    {
        let ghost v = self.deep_view().owned_payloads;
        let ghost l = ledger.deep_view();
        let mut i: usize = 0;
        proof {
            model::take_all(v);
        }
        while i < self.owned_blinded_payloads.len()
            invariant
                i <= v.len(),
                self.wf(),
                ledger.wf(),
                v == self.deep_view().owned_payloads,
                ledger.deep_view() == self.deep_view().queued(l, v.take(i as int)),
            decreases v.len() - i,
        {
            proof {
                assert(v.take(i + 1).drop_last() =~= v.take(i as int));
                assert(v.take(i + 1).last() == v[i as int]);
            }
            let entry = self.owned_blinded_payloads.at(i);
            if self.ledger.has_unrevealed_blinded_transaction(entry.0.as_str()) && !ledger.has_transaction(
                entry.1.signature(),
            ) {
                if self.ledger.active_blinded.contains_key(&entry.0) {
                    ledger.expect_outputs(&entry.1);
                }
                let _ = ledger.submit_transaction(entry.1.duplicate());
            }
            i = i + 1;
        }
        proof {
            model::take_all(v);
        }
    }

    fn anchor_on(&self, ledger: &Ledger) -> (r: Option<&Transaction>)
        requires
            ledger.wf(),
        ensures
            r.deep_view() == self.deep_view().open_anchor(ledger.deep_view()),
    {
        match &self.local_block_anchor_burn {
            Some(anchor) => if anchor.0 == ledger.height() && !ledger.has_transaction(anchor.1.signature()) {
                Some(&anchor.1)
            } else {
                None
            },
            None => None,
        }
    }

    /// The burn that anchors the next block of this node, while it is not on the chain.
    pub(crate) fn open_anchor_burn(&self) -> (r: Option<&Transaction>)
        requires
            self.wf(),
        ensures
            r.deep_view() == self.deep_view().open_anchor(self.deep_view().ledger),
    {
        self.anchor_on(&self.ledger)
    }

    /// The ledger as the owner of the wallet sees it.
    pub fn wallet_view_ledger(&self) -> (r: Result<Ledger, Error>)
        requires
            self.wf(),
        ensures
            error::outcome(r) == self.deep_view().wallet_ledger(),
            r matches Ok(l) ==> l.wf(),
    {
        let mut ledger = self.clone_ledger();
        if let Some(burn) = self.open_anchor_burn() {
            match ledger.submit_transaction(burn.duplicate()) {
                Ok(_) => {},
                Err(e) => {
                    return Err(e);
                },
            }
        }
        self.queue_owned_blinded_payloads(&mut ledger);
        Ok(ledger)
    }

    pub(crate) fn reserved_build_ledger(&self) -> (r: Ledger)
        requires
            self.wf(),
        ensures
            r.wf(),
            r.deep_view() == self.deep_view().reserved_ledger(),
    {
        let mut ledger = self.clone_ledger();
        if let Some(burn) = self.open_anchor_burn() {
            ledger.reserve_transaction_inputs(burn);
        }
        ledger
    }

    /// The ledger on which new payments of the wallet are built.
    pub(crate) fn wallet_build_ledger(&self) -> (r: Ledger)
        requires
            self.wf(),
        ensures
            r.wf(),
            r.deep_view() == self.deep_view().build_ledger(),
    {
        let mut ledger = self.reserved_build_ledger();
        self.queue_owned_blinded_payloads(&mut ledger);
        ledger
    }

    /// The balance that the wallet will have once what it sent is on the chain.
    pub fn wallet_projected_balance(&self) -> (r: Amount)
        requires
            self.wf(),
        ensures
            r == self.deep_view().projected_balance(),
    {
        let ghost v = self.deep_view().owned_payloads;
        let address = self.wallet.address();
        let mut balance: Amount = self.ledger.balance_of(address);
        let mut i: usize = 0;
        proof {
            model::take_all(v);
        }
        while i < self.owned_blinded_payloads.len()
            invariant
                i <= v.len(),
                self.wf(),
                v == self.deep_view().owned_payloads,
                address@ == self.deep_view().wallet.address(),
                balance == self.deep_view().with_payloads(v.take(i as int)),
            decreases v.len() - i,
        {
            proof {
                assert(v.take(i + 1).drop_last() =~= v.take(i as int));
                assert(v.take(i + 1).last() == v[i as int]);
            }
            let entry = self.owned_blinded_payloads.at(i);
            if self.ledger.has_unrevealed_blinded_transaction(entry.0.as_str()) {
                let given: Amount = transaction_output_total_for_address(&entry.1, address);
                if self.ledger.has_active_blinded_transaction(entry.0.as_str()) {
                    balance = balance.saturating_add(given);
                } else {
                    let taken: Amount = transaction_input_total_from_outputs(&entry.1, address, &self.ledger.utxos);
                    balance = balance.saturating_sub(taken).saturating_add(given);
                }
            }
            i = i + 1;
        }
        proof {
            model::take_all(v);
        }
        if let Some(burn) = self.open_anchor_burn() {
            let given: Amount = transaction_output_total_for_address(burn, address);
            let taken: Amount = transaction_input_total_from_outputs(burn, address, &self.ledger.utxos);
            balance = balance.saturating_sub(taken).saturating_add(given);
        }
        balance
    }
}

proof fn last_input_comes_last(a: Seq<TxInputView>, b: Seq<TxInputView>)
    requires
        b.len() > 0,
    ensures
        (a + b).drop_last() == a + b.drop_last(),
        (a + b).last() == b.last(),
{
    assert((a + b).drop_last() =~= a + b.drop_last());
}

/// What inputs take from an address is the sum of what each of them takes, up to the largest amount:
/// the amount of the unspent output that the input names, where both it and the input are the
/// address's, and nothing else.
pub proof fn inputs_are_added_up(a: Seq<TxInputView>, b: Seq<TxInputView>, one: TxInputView, address: Seq<char>, u: UtxosView)
    ensures
        ({
            let sum = inputs_total(a, address, u) + inputs_total(b, address, u);
            inputs_total(a + b, address, u) == if sum > 18_446_744_073_709_551_615 {
                18_446_744_073_709_551_615
            } else {
                sum
            }
        }),
        inputs_total(seq![one], address, u) == match sorted::lookup(u, one.outpoint) {
            Some(output) => if one.owner == address && output.address == address {
                output.amount as int
            } else {
                0
            },
            None => 0,
        },
        inputs_total(Seq::<TxInputView>::empty(), address, u) == 0,
    decreases b.len(),
{
    let single = seq![one];
    assert(single.drop_last() =~= Seq::<TxInputView>::empty());
    assert(inputs_total(single.drop_last(), address, u) == 0);
    assert(single.last() == one);
    if b.len() == 0 {
        assert(a + b =~= a);
    } else {
        inputs_are_added_up(a, b.drop_last(), one, address, u);
        last_input_comes_last(a, b);
    }
}

/// What outputs give to an address is the sum of those to it, up to the largest amount.
pub proof fn outputs_are_added_up(outputs: Seq<TxOutputView>, address: Seq<char>)
    ensures
        outputs_total(outputs, address) == if utxo::balance_in(outputs, address) > 18_446_744_073_709_551_615 {
            18_446_744_073_709_551_615
        } else {
            utxo::balance_in(outputs, address) as int
        },
    decreases outputs.len(),
{
    if outputs.len() > 0 {
        outputs_are_added_up(outputs.drop_last(), address);
    }
}

proof fn inputs_take_what_they_spend(inputs: Seq<TxInputView>, u: UtxosView, address: Seq<char>)
    requires
        sorted::increasing::<OutPoint, TxOutputView>(u),
        utxo::spend(inputs, u).1 is Ok,
    ensures
        inputs_total(inputs, address, u) + utxo::balance(utxo::spend(inputs, u).0, address) == utxo::balance(u, address),
        inputs_total(inputs, address, u) <= utxo::spend(inputs, u).1->Ok_0,
        (forall|i: int| 0 <= i < inputs.len() ==> (#[trigger] inputs[i]).owner == address) ==> inputs_total(
            inputs,
            address,
            u,
        ) == utxo::spend(inputs, u).1->Ok_0,
    decreases inputs.len(),
{
    if inputs.len() > 0 {
        let earlier = inputs.drop_last();
        let k = inputs.last().outpoint;
        let v = utxo::spend(earlier, u).0;
        inputs_take_what_they_spend(earlier, u, address);
        utxo::effect_of_spending(earlier, u, address);
        utxo::spending_only_removes(earlier, u, k);
        utxo::effect_of_removing(v, k, address);
        if forall|i: int| 0 <= i < inputs.len() ==> (#[trigger] inputs[i]).owner == address {
            assert forall|i: int| 0 <= i < earlier.len() implies (#[trigger] earlier[i]).owner == address by {
                assert(inputs[i].owner == address);
            }
            assert(inputs[inputs.len() - 1].owner == address);
        }
    }
}

proof fn inputs_have_one_owner(t: TransactionView)
    requires
        !(t is Mine),
        utxo::single_owner_check(t) is Ok,
    ensures
        forall|i: int| 0 <= i < t.inputs().len() ==> (#[trigger] t.inputs()[i]).owner == t.sender(),
{
    assert forall|i: int| 0 <= i < t.inputs().len() implies (#[trigger] t.inputs()[i]).owner == t.sender() by {
        assert(!(0 <= i < t.inputs().len() && t.inputs()[i].owner != t.inputs()[0].owner));
    }
}

proof fn part_of_the_outputs(outputs: Seq<TxOutputView>, address: Seq<char>)
    ensures
        utxo::balance_in(outputs, address) <= utxo::sum_of(outputs),
    decreases outputs.len(),
{
    if outputs.len() > 0 {
        part_of_the_outputs(outputs.drop_last(), address);
    }
}

/// What outputs give to others than an address.
pub open spec fn sent_to_others(outputs: Seq<TxOutputView>, address: Seq<char>) -> int {
    utxo::sum_of(outputs) - utxo::balance_in(outputs, address)
}

/// What an accepted payment takes from its sender is what it gives back, sends to others, burns and
/// pays as a fee; so the balance that is left is the one before less what is sent to others, burned and
/// paid as a fee. From others it takes nothing, and it gives them what it sends them.
pub proof fn payment_leaves_the_rest(t: TransactionView, u: UtxosView, balance: Amount, other: Seq<char>)
    requires
        sorted::increasing::<OutPoint, TxOutputView>(u),
        !(t is Mine),
        utxo::applies(t, u),
        input_total(t, t.sender(), u) <= balance,
        other != t.sender(),
    ensures
        input_total(t, t.sender(), u) == utxo::sum_of(t.outputs()) + t.fee() + t.burned(),
        input_total(t, t.sender(), u) <= utxo::balance(u, t.sender()),
        after_spending(balance, t, t.sender(), u) + sent_to_others(t.outputs(), t.sender()) + t.burned() + t.fee()
            == balance,
        input_total(t, other, u) == 0,
        balance + utxo::balance_in(t.outputs(), other) <= 18_446_744_073_709_551_615 ==> after_spending(balance, t, other, u)
            == balance + utxo::balance_in(t.outputs(), other),
{
    let sender = t.sender();
    inputs_have_one_owner(t);
    inputs_take_what_they_spend(t.inputs(), u, sender);
    outputs_are_added_up(t.outputs(), sender);
    outputs_are_added_up(t.outputs(), other);
    part_of_the_outputs(t.outputs(), sender);
    part_of_the_outputs(t.outputs(), other);
    strangers_give_nothing(t.inputs(), u, other, sender);
}

proof fn strangers_give_nothing(inputs: Seq<TxInputView>, u: UtxosView, address: Seq<char>, owner: Seq<char>)
    requires
        forall|i: int| 0 <= i < inputs.len() ==> (#[trigger] inputs[i]).owner == owner,
        owner != address,
    ensures
        inputs_total(inputs, address, u) == 0,
    decreases inputs.len(),
{
    if inputs.len() > 0 {
        let earlier = inputs.drop_last();
        assert forall|i: int| 0 <= i < earlier.len() implies (#[trigger] earlier[i]).owner == owner by {
            assert(inputs[i].owner == owner);
        }
        assert(inputs[inputs.len() - 1].owner == owner);
        strangers_give_nothing(earlier, u, address, owner);
    }
}

/// The projected balance after an accepted payment is the balance that the sender then has, where the
/// references of its outputs are new.
pub proof fn projection_comes_true(t: TransactionView, u: UtxosView, address: Seq<char>)
    requires
        sorted::increasing::<OutPoint, TxOutputView>(u),
        utxo::balance(u, address) <= 18_446_744_073_709_551_615,
        !(t is Mine),
        utxo::applies(t, u),
        utxo::fresh(utxo::spend(t.inputs(), u).0, t.signature(), t.outputs().len()),
        t.outputs().len() <= 0x1_0000_0000,
    ensures
        after_spending(utxo::balance(u, address) as u64, t, address, u) == utxo::balance(utxo::applied(t, u).0, address),
{
    let v = utxo::spend(t.inputs(), u).0;
    inputs_take_what_they_spend(t.inputs(), u, address);
    utxo::effect_of_spending(t.inputs(), u, address);
    utxo::effect_of_crediting(v, t.signature(), t.outputs(), address);
    utxo::no_overflow_means_fits(utxo::outputs_of(v) + t.outputs(), address);
    utxo::balance_in_append(utxo::outputs_of(v), t.outputs(), address);
    outputs_are_added_up(t.outputs(), address);
}

/// For a wallet with one payment of its own that waits to be included, and no anchor, the projected
/// balance is the balance less what is sent to others, burned and paid as a fee; with none that waits
/// it is the balance.
pub proof fn projected_balance_counts_a_waiting_payment(n: NodeView, commitment: Seq<char>, t: TransactionView)
    requires
        sorted::increasing::<OutPoint, TxOutputView>(n.ledger.utxos),
        utxo::balance(n.ledger.utxos, n.wallet.address()) <= 18_446_744_073_709_551_615,
        n.open_anchor(n.ledger) is None,
        n.owned_payloads.len() == 0 || n.owned_payloads == seq![(commitment, t)],
    ensures
        ({
            let balance = utxo::balance(n.ledger.utxos, n.wallet.address());
            let waits = n.owned_payloads.len() == 1 && n.ledger.knows_unrevealed(commitment);
            let included = sorted::lookup(n.ledger.active_blinded, commitment) is Some;
            &&& (!waits ==> n.projected_balance() == balance)
            &&& (waits && !included && !(t is Mine) && t.sender() == n.wallet.address() && utxo::applies(t, n.ledger.utxos)
                ==> n.projected_balance() + sent_to_others(t.outputs(), t.sender()) + t.burned() + t.fee() == balance)
        }),
{
    let u = n.ledger.utxos;
    let address = n.wallet.address();
    assert(n.with_payloads(Seq::<(Seq<char>, TransactionView)>::empty()) == utxo::balance(u, address));
    if n.owned_payloads.len() == 1 {
        assert(n.owned_payloads.drop_last() =~= Seq::<(Seq<char>, TransactionView)>::empty());
        assert(n.owned_payloads.last() == (commitment, t));
        if !(t is Mine) && t.sender() == address && utxo::applies(t, u) {
            inputs_take_what_they_spend(t.inputs(), u, address);
            payment_leaves_the_rest(t, u, utxo::balance(u, address) as u64, address.push('x'));
        }
    } else {
        assert(n.owned_payloads =~= Seq::<(Seq<char>, TransactionView)>::empty());
    }
}

/// Each further payment of the wallet that waits to be included lowers the projected balance by what
/// it sends to others, burns and pays as a fee, as long as the balance covers what it takes.
pub proof fn each_waiting_payment_counts(n: NodeView, earlier: OwnedPayloadsView, commitment: Seq<char>, t: TransactionView)
    requires
        sorted::increasing::<OutPoint, TxOutputView>(n.ledger.utxos),
        n.ledger.knows_unrevealed(commitment),
        sorted::lookup(n.ledger.active_blinded, commitment) is None,
        !(t is Mine),
        t.sender() == n.wallet.address(),
        utxo::applies(t, n.ledger.utxos),
        utxo::sum_of(t.outputs()) + t.fee() + t.burned() <= n.with_payloads(earlier),
    ensures
        n.with_payloads(earlier.push((commitment, t))) + sent_to_others(t.outputs(), t.sender()) + t.burned() + t.fee()
            == n.with_payloads(earlier),
{
    let u = n.ledger.utxos;
    let all = earlier.push((commitment, t));
    assert(all.drop_last() =~= earlier);
    assert(all.last() == (commitment, t));
    inputs_have_one_owner(t);
    inputs_take_what_they_spend(t.inputs(), u, t.sender());
    payment_leaves_the_rest(t, u, n.with_payloads(earlier), t.sender().push('x'));
}

} // verus!
