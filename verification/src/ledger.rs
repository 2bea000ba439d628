//! The ledger: a chain of blocks, the outputs it leaves and what waits to enter it.
use crate::blinded::{
    ActiveBlindedTransaction, ActiveBlindedTransactionView, BlindedReveal, BlindedRevealView,
    BlindedTransaction, BlindedTransactionView,
};
use crate::block;
use crate::block::{Block, BlockView};
use crate::bundling;
use crate::draw;
use crate::error;
use crate::error::Error;
use crate::genesis;
use crate::genesis::{Allocations, AllocationsView, GenesisBurn};
use crate::held;
use crate::locks;
use crate::locks::HoldingsView;
use crate::model;
use crate::model::Model;
use crate::proposals;
use crate::sorted;
use crate::sorted::SortedMap;
use crate::text;
use crate::tickets;
use crate::tickets::{BurnTicket, BurnTicketView, LaunchProfile, LaunchProfileView, MAX_PENDING_TRANSACTIONS};
use crate::transaction;
use crate::transaction::{
    Amount, OutPoint, OutPointView, Transaction, TransactionView, TxOutput, TxOutputView, MINE_REWARD,
};
use crate::utxo;
use crate::utxo::{Utxos, UtxosView};
use crate::vdf;
use vstd::prelude::*;
use vstd::string::*;

verus! {

pub const MAX_ORPHAN_TRANSACTIONS: usize = 1_024;

pub const RECOVERY_BLOCK_DELAY_MS: u64 = 1_800_000;

pub const BLOCK_MEDIAN_TIME_PAST_WINDOW: usize = 11;

/// The state of a node's chain.
#[derive(Clone, Debug)]
pub struct Ledger {
    pub chain: Vec<Block>,
    pub genesis_allocations: Allocations,
    pub utxos: Utxos,
    pub locked: Utxos,
    pub tickets: Vec<BurnTicket>,
    pub pending: Vec<Transaction>,
    pub orphans: Vec<Transaction>,
    pub pending_blinded: Vec<BlindedTransaction>,
    pub pending_reveals: Vec<BlindedReveal>,
    pub active_blinded: SortedMap<String, ActiveBlindedTransaction>,
    pub mine_reward: Amount,
    pub initial_vdf_rounds: u64,
    pub vdf_rounds: u64,
    pub launch_profile: LaunchProfile,
}

pub type ActiveView = Seq<(Seq<char>, ActiveBlindedTransactionView)>;

#[verifier::ext_equal]
pub struct LedgerView {
    pub chain: Seq<BlockView>,
    pub genesis_allocations: AllocationsView,
    pub utxos: UtxosView,
    pub locked: UtxosView,
    pub tickets: Seq<BurnTicketView>,
    pub pending: Seq<TransactionView>,
    pub orphans: Seq<TransactionView>,
    pub pending_blinded: Seq<BlindedTransactionView>,
    pub pending_reveals: Seq<BlindedRevealView>,
    pub active_blinded: ActiveView,
    pub mine_reward: Amount,
    pub initial_vdf_rounds: u64,
    pub vdf_rounds: u64,
    pub launch_profile: LaunchProfileView,
}

impl DeepView for Ledger {
    type V = LedgerView;

    open spec fn deep_view(&self) -> LedgerView {
        LedgerView {
            chain: self.chain.deep_view(),
            genesis_allocations: self.genesis_allocations.deep_view(),
            utxos: self.utxos.deep_view(),
            locked: self.locked.deep_view(),
            tickets: self.tickets.deep_view(),
            pending: self.pending.deep_view(),
            orphans: self.orphans.deep_view(),
            pending_blinded: self.pending_blinded.deep_view(),
            pending_reveals: self.pending_reveals.deep_view(),
            active_blinded: self.active_blinded.deep_view(),
            mine_reward: self.mine_reward,
            initial_vdf_rounds: self.initial_vdf_rounds,
            vdf_rounds: self.vdf_rounds,
            launch_profile: self.launch_profile.deep_view(),
        }
    }
}

/// The heights of a chain count up from zero, its times increase, and no block asks for more
/// rounds than there may be.
pub open spec fn chain_valid(chain: Seq<BlockView>) -> bool {
    &&& chain.len() > 0
    &&& forall|i: int| 0 <= i < chain.len() ==> (#[trigger] chain[i]).height == i
    &&& forall|i: int, k: int|
        0 <= i < k < chain.len() ==> (#[trigger] chain[i]).timestamp_ms < (#[trigger] chain[k]).timestamp_ms
    &&& forall|i: int| 0 <= i < chain.len() ==> (#[trigger] chain[i]).vdf_rounds <= vdf::MAX_VDF_ROUNDS
}

/// Every block bears the hash of what it holds, names the hash of the one before it, the first
/// names no block, and every block after the first holds a burn.
#[verifier::opaque]
pub open spec fn chain_linked(chain: Seq<BlockView>) -> bool {
    &&& chain.len() > 0 ==> chain[0].prev_hash == text::repeated('0', 64)
    &&& forall|i: int| 0 <= i < chain.len() ==> (#[trigger] chain[i]).hash == chain[i].computed_hash()
    &&& forall|i: int, k: int|
        0 <= i && k == i + 1 && k < chain.len() ==> (#[trigger] chain[k]).prev_hash == (#[trigger] chain[i]).hash
    &&& forall|i: int| 0 < i < chain.len() ==> proposals::has_burn((#[trigger] chain[i]).transactions)
}

/// Whether no commitment is revealed twice.
#[verifier::opaque]
pub open spec fn reveals_differ(reveals: Seq<BlindedRevealView>) -> bool {
    bundling::distinct(reveals)
}

proof fn first_block_is_linked(b: BlockView)
    requires
        b.prev_hash == text::repeated('0', 64),
        b.hash == b.computed_hash(),
    ensures
        chain_linked(seq![b]),
{
    reveal(chain_linked);
}

/// A chain stays linked with a block that names its tip.
pub proof fn next_block_is_linked(chain: Seq<BlockView>, b: BlockView)
    requires
        chain.len() > 0,
        chain_linked(chain),
        b.prev_hash == chain.last().hash,
        b.hash == b.computed_hash(),
        proposals::has_burn(b.transactions),
    ensures
        chain_linked(chain.push(b)),
{
    reveal(chain_linked);
    let c = chain.push(b);
    let n = chain.len() as int;
    assert(c[0] == chain[0]);
    assert forall|i: int| 0 <= i < c.len() implies (#[trigger] c[i]).hash == c[i].computed_hash() by {
        if i < n {
            assert(c[i] == chain[i]);
        }
    }
    assert forall|i: int, k: int| 0 <= i && k == i + 1 && k < c.len() implies (#[trigger] c[k]).prev_hash == (
    #[trigger] c[i]).hash by {
        assert(c[i] == chain[i]);
        if k < n {
            assert(chain[k].prev_hash == chain[i].hash);
        }
    }
    assert forall|i: int| 0 < i < c.len() implies proposals::has_burn((#[trigger] c[i]).transactions) by {
        if i < n {
            assert(c[i] == chain[i]);
        }
    }
}

/// On every chain, a block bears the hash of what it holds; the first names no block, and a later one
/// names the one before it and holds a burn.
pub proof fn every_block_is_linked(l: LedgerView, n: int)
    requires
        l.valid(),
        0 <= n < l.chain.len(),
    ensures
        l.chain[n].height == n,
        l.chain[n].hash == l.chain[n].computed_hash(),
        n == 0 ==> l.chain[n].prev_hash == text::repeated('0', 64),
        n > 0 ==> l.chain[n].prev_hash == l.chain[n - 1].hash,
        n > 0 ==> proposals::has_burn(l.chain[n].transactions),
        n > 0 ==> l.chain[n].timestamp_ms > l.chain[n - 1].timestamp_ms,
{
    reveal(chain_linked);
    if n > 0 {
        assert(l.chain[n].prev_hash == l.chain[n - 1].hash);
        assert(l.chain[n - 1].timestamp_ms < l.chain[n].timestamp_ms);
    }
}

/// Whether the owner of what it names signed every envelope.
#[verifier::opaque]
pub open spec fn owners_signed(envelopes: Seq<BlindedTransactionView>) -> bool {
    forall|i: int| 0 <= i < envelopes.len() ==> (#[trigger] envelopes[i]).owner_check() is Ok
}

/// Of signed envelopes, those that pass a filter are signed.
pub proof fn filtered_are_signed(envelopes: Seq<BlindedTransactionView>, p: spec_fn(BlindedTransactionView) -> bool)
    requires
        owners_signed(envelopes),
    ensures
        owners_signed(envelopes.filter(p)),
{
    reveal(owners_signed);
    assert forall|i: int| 0 <= i < envelopes.filter(p).len() implies (#[trigger] envelopes.filter(
        p,
    )[i]).owner_check() is Ok by {
        model::filter_keeps(envelopes, p, i);
        let k = choose|k: int| 0 <= k < envelopes.len() && #[trigger] envelopes[k] == envelopes.filter(p)[i];
        assert(envelopes[k].owner_check() is Ok);
    }
}

/// In every ledger, the owner of what a waiting envelope names signed it.
pub proof fn waiting_envelopes_are_signed(l: LedgerView, i: int, n: int)
    requires
        l.valid(),
        0 <= i < l.pending_blinded.len(),
        0 <= n < l.pending_blinded[i].inputs.len(),
    ensures
        l.pending_blinded[i].signed_by_owner_of(n),
{
    reveal(owners_signed);
    assert(l.pending_blinded[i].owner_check() is Ok);
}

impl LedgerView {
    /// What holds of every ledger.
    pub open spec fn valid(self) -> bool {
        &&& chain_valid(self.chain)
        &&& chain_linked(self.chain)
        &&& reveals_differ(self.pending_reveals)
        &&& owners_signed(self.pending_blinded)
        &&& utxo::all_signed(self.pending)
        &&& utxo::all_signed(self.orphans)
        &&& held::all_held(self.active_blinded, self.locked)
        &&& draw::in_step(
            self.chain,
            self.genesis_allocations,
            self.launch_profile,
            self.tickets,
            self.active_blinded,
        )
        &&& sorted::increasing::<String, u64>(self.genesis_allocations)
        &&& sorted::increasing::<OutPoint, TxOutputView>(self.utxos)
        &&& sorted::increasing::<OutPoint, TxOutputView>(self.locked)
        &&& sorted::increasing::<String, ActiveBlindedTransactionView>(self.active_blinded)
        &&& utxo::balances_fit(self.utxos)
        &&& locks::fit_together(self.utxos, self.locked)
        &&& self.pending.len() <= MAX_PENDING_TRANSACTIONS
        &&& self.orphans.len() <= MAX_ORPHAN_TRANSACTIONS
        &&& self.pending_blinded.len() <= MAX_PENDING_TRANSACTIONS
        &&& self.pending_reveals.len() <= MAX_PENDING_TRANSACTIONS
    }

    /// The unspent outputs, and those that envelopes hold.
    pub open spec fn holdings(self) -> HoldingsView {
        HoldingsView { free: self.utxos, locked: self.locked }
    }

    pub open spec fn tip(self) -> BlockView {
        self.chain.last()
    }

    pub open spec fn height(self) -> u64 {
        self.tip().height
    }

    /// The earliest time of a recovery block.
    pub open spec fn recovery_time(self) -> u64 {
        if self.tip().timestamp_ms + RECOVERY_BLOCK_DELAY_MS > u64::MAX {
            u64::MAX
        } else {
            (self.tip().timestamp_ms + RECOVERY_BLOCK_DELAY_MS) as u64
        }
    }

    pub open spec fn difficulty_at(self, height: u64) -> u32 {
        difficulty(self.chain, self.launch_profile.mine_difficulty_bits, 10, height as nat)
    }

    /// Whether a transaction with this signature is known.
    pub open spec fn knows_transaction(self, signature: Seq<char>) -> bool {
        self.transaction(signature) is Some
    }

    /// The transaction with a signature: pending, orphaned or in a block.
    pub open spec fn transaction(self, signature: Seq<char>) -> Option<TransactionView> {
        match with_signature(self.pending, signature) {
            Some(t) => Some(t),
            None => match with_signature(self.orphans, signature) {
                Some(t) => Some(t),
                None => in_blocks(self.chain, signature),
            },
        }
    }

    /// Whether an envelope is pending, active or in a block.
    pub open spec fn knows_blinded(self, commitment: Seq<char>) -> bool {
        self.knows_unrevealed(commitment) || blinded_in_blocks(self.chain, commitment)
    }

    /// Whether an envelope is pending or active.
    pub open spec fn knows_unrevealed(self, commitment: Seq<char>) -> bool {
        commits(self.pending_blinded, commitment) || sorted::lookup(self.active_blinded, commitment) is Some
    }

    /// Whether a reveal is pending or in a block.
    pub open spec fn knows_reveal(self, commitment: Seq<char>) -> bool {
        block::reveals_commitment(self.pending_reveals, commitment) || revealed_in_blocks(self.chain, commitment)
    }
}

/// The first transaction with a signature.
pub open spec fn with_signature(transactions: Seq<TransactionView>, signature: Seq<char>) -> Option<TransactionView>
    decreases transactions.len(),
{
    if transactions.len() == 0 {
        None
    } else {
        match with_signature(transactions.drop_last(), signature) {
            Some(t) => Some(t),
            None => if transactions.last().signature() == signature {
                Some(transactions.last())
            } else {
                None
            },
        }
    }
}

/// The first transaction of a chain with a signature.
pub open spec fn in_blocks(chain: Seq<BlockView>, signature: Seq<char>) -> Option<TransactionView>
    decreases chain.len(),
{
    if chain.len() == 0 {
        None
    } else {
        match in_blocks(chain.drop_last(), signature) {
            Some(t) => Some(t),
            None => with_signature(chain.last().transactions, signature),
        }
    }
}

/// Whether a commitment is among envelopes.
pub open spec fn commits(transactions: Seq<BlindedTransactionView>, commitment: Seq<char>) -> bool {
    exists|i: int| 0 <= i < transactions.len() && (#[trigger] transactions[i]).commitment == commitment
}

/// Whether a block of the chain holds the envelope.
pub open spec fn blinded_in_blocks(chain: Seq<BlockView>, commitment: Seq<char>) -> bool {
    exists|i: int| 0 <= i < chain.len() && commits((#[trigger] chain[i]).blinded_transactions, commitment)
}

/// Whether a transaction or an envelope of a block names an output.
pub open spec fn spent_in(b: BlockView, outpoint: OutPointView) -> bool {
    ||| exists|i: int|
        0 <= i < b.transactions.len() && utxo::spends((#[trigger] b.transactions[i]).inputs(), outpoint)
    ||| locks::reserves(b.blinded_transactions, outpoint)
}

/// Whether a block of the chain names an output.
pub open spec fn spent_in_blocks(chain: Seq<BlockView>, outpoint: OutPointView) -> bool {
    exists|i: int| 0 <= i < chain.len() && spent_in(#[trigger] chain[i], outpoint)
}

/// Whether a block of the chain reveals the envelope.
pub open spec fn revealed_in_blocks(chain: Seq<BlockView>, commitment: Seq<char>) -> bool {
    exists|i: int|
        0 <= i < chain.len() && block::reveals_commitment((#[trigger] chain[i]).all_reveals(), commitment)
}

/// The first block with a hash.
pub open spec fn with_hash(chain: Seq<BlockView>, hash: Seq<char>) -> Option<BlockView>
    decreases chain.len(),
{
    if chain.len() == 0 {
        None
    } else {
        match with_hash(chain.drop_last(), hash) {
            Some(b) => Some(b),
            None => if chain.last().hash == hash {
                Some(chain.last())
            } else {
                None
            },
        }
    }
}

/// The mine actions of the blocks in a range of heights.
pub open spec fn window_actions(chain: Seq<BlockView>, first: nat, last: nat) -> nat
    decreases chain.len(),
{
    if chain.len() == 0 {
        0
    } else {
        window_actions(chain.drop_last(), first, last) + if first <= chain.last().height <= last {
            tickets::mine_actions_in(chain.last().transactions)
        } else {
            0
        }
    }
}

/// The difficulty for an anchor: retargeted after each full window of ten blocks up to it.
pub open spec fn difficulty(chain: Seq<BlockView>, bits: u32, window_end: nat, anchor: nat) -> u32
    decreases anchor + 10 - window_end,
{
    if window_end > anchor {
        bits
    } else {
        difficulty(
            chain,
            tickets::retargeted_bits(bits, window_actions(chain, (window_end - 9) as nat, window_end)),
            window_end + 10,
            anchor,
        )
    }
}

proof fn many_actions(current: u32, n: nat, m: nat)
    requires
        n >= 40,
        m >= 40,
    ensures
        tickets::retargeted_bits(current, n) == tickets::retargeted_bits(current, m),
{
    reveal_with_fuel(tickets::doublings_within, 3);
}

proof fn signature_found(transactions: Seq<TransactionView>, signature: Seq<char>, n: int)
    requires
        0 <= n < transactions.len(),
        with_signature(transactions.take(n), signature) is None,
        transactions[n].signature() == signature,
    ensures
        with_signature(transactions, signature) == Some(transactions[n]),
    decreases transactions.len(),
{
    if n < transactions.len() - 1 {
        assert(transactions.drop_last().take(n) =~= transactions.take(n));
        signature_found(transactions.drop_last(), signature, n);
    } else {
        assert(transactions.drop_last() =~= transactions.take(n));
    }
}

/// The first transaction with a signature.
pub fn find_by_signature<'a>(transactions: &'a Vec<Transaction>, signature: &str) -> (r: Option<&'a Transaction>)
    ensures
        r.deep_view() == with_signature(transactions.deep_view(), signature@),
{
    let ghost v = transactions.deep_view();
    let mut i: usize = 0;
    proof {
        model::take_all(v);
    }
    while i < transactions.len()
        invariant
            i <= transactions.len(),
            v == transactions.deep_view(),
            with_signature(v.take(i as int), signature@) is None,
        decreases transactions.len() - i,
    {
        if text::text_eq(transactions[i].signature(), signature) {
            proof {
                signature_found(v, signature@, i as int);
            }
            return Some(&transactions[i]);
        }
        proof {
            assert(v.take(i + 1).drop_last() =~= v.take(i as int));
        }
        i = i + 1;
    }
    proof {
        model::take_all(v);
    }
    None
}

proof fn in_blocks_found(chain: Seq<BlockView>, signature: Seq<char>, n: int)
    requires
        0 <= n <= chain.len(),
        in_blocks(chain.take(n), signature) is Some,
    ensures
        in_blocks(chain, signature) == in_blocks(chain.take(n), signature),
    decreases chain.len(),
{
    if n < chain.len() {
        assert(chain.drop_last().take(n) =~= chain.take(n));
        in_blocks_found(chain.drop_last(), signature, n);
    } else {
        model::take_all(chain);
    }
}

proof fn with_hash_found(chain: Seq<BlockView>, hash: Seq<char>, n: int)
    requires
        0 <= n < chain.len(),
        with_hash(chain.take(n), hash) is None,
        chain[n].hash == hash,
    ensures
        with_hash(chain, hash) == Some(chain[n]),
    decreases chain.len(),
{
    if n < chain.len() - 1 {
        assert(chain.drop_last().take(n) =~= chain.take(n));
        with_hash_found(chain.drop_last(), hash, n);
    } else {
        assert(chain.drop_last() =~= chain.take(n));
    }
}

/// A block found by its hash is in the chain.
pub proof fn with_hash_is_there(chain: Seq<BlockView>, hash: Seq<char>)
    ensures
        with_hash(chain, hash) matches Some(b) ==> b.hash == hash && exists|i: int|
            0 <= i < chain.len() && #[trigger] chain[i] == b,
    decreases chain.len(),
{
    if chain.len() > 0 {
        with_hash_is_there(chain.drop_last(), hash);
        if let Some(b) = with_hash(chain.drop_last(), hash) {
            let i = choose|i: int| 0 <= i < chain.drop_last().len() && #[trigger] chain.drop_last()[i] == b;
            assert(chain[i] == b);
        } else {
            assert(chain[chain.len() - 1] == chain.last());
        }
    }
}

/// Whether a transaction or an envelope of a block names an output.
fn block_spends(b: &Block, outpoint: &OutPoint) -> (r: bool)
    ensures
        r == spent_in(b.deep_view(), outpoint.deep_view()),
{
    let ghost v = b.transactions.deep_view();
    let mut i: usize = 0;
    while i < b.transactions.len()
        invariant
            i <= b.transactions.len(),
            v == b.transactions.deep_view(),
            forall|j: int| 0 <= j < i ==> !utxo::spends((#[trigger] v[j]).inputs(), outpoint.deep_view()),
        decreases b.transactions.len() - i,
    {
        if utxo::inputs_spend(&b.transactions[i].inputs(), outpoint) {
            assert(utxo::spends(b.deep_view().transactions[i as int].inputs(), outpoint.deep_view()));
            return true;
        }
        assert(!utxo::spends(v[i as int].inputs(), outpoint.deep_view()));
        i = i + 1;
    }
    locks::envelopes_reserve(&b.blinded_transactions, outpoint)
}

/// Whether a commitment is among envelopes.
pub fn has_commitment(transactions: &Vec<BlindedTransaction>, commitment: &str) -> (r: bool)
    ensures
        r == commits(transactions.deep_view(), commitment@),
{
    let ghost v = transactions.deep_view();
    let mut i: usize = 0;
    while i < transactions.len()
        invariant
            i <= transactions.len(),
            v == transactions.deep_view(),
            forall|j: int| 0 <= j < i ==> (#[trigger] v[j]).commitment != commitment@,
        decreases transactions.len() - i,
    {
        if text::text_eq(transactions[i].commitment.as_str(), commitment) {
            assert(v[i as int].commitment == commitment@);
            return true;
        }
        i = i + 1;
    }
    false
}

/// Whether a commitment is among reveals.
pub fn has_reveal(reveals: &Vec<BlindedReveal>, commitment: &str) -> (r: bool)
    ensures
        r == block::reveals_commitment(reveals.deep_view(), commitment@),
{
    let ghost v = reveals.deep_view();
    let mut i: usize = 0;
    while i < reveals.len()
        invariant
            i <= reveals.len(),
            v == reveals.deep_view(),
            forall|j: int| 0 <= j < i ==> (#[trigger] v[j]).commitment != commitment@,
        decreases reveals.len() - i,
    {
        if text::text_eq(reveals[i].commitment.as_str(), commitment) {
            assert(v[i as int].commitment == commitment@);
            return true;
        }
        i = i + 1;
    }
    false
}

impl Ledger {
    /// The ledger is well formed.
    pub open spec fn wf(&self) -> bool {
        &&& self.deep_view().valid()
        &&& self.utxos.wf()
        &&& self.locked.wf()
        &&& self.genesis_allocations.wf()
        &&& self.active_blinded.wf()
    }

    /// A ledger whose view is valid is well formed.
    pub proof fn wf_is_valid(&self)
        ensures
            self.wf() == self.deep_view().valid(),
    {
        self.utxos.wf_is_increasing();
        self.locked.wf_is_increasing();
        self.genesis_allocations.wf_is_increasing();
        self.active_blinded.wf_is_increasing();
    }

    pub fn tip(&self) -> (b: &Block)
        requires
            self.wf(),
        ensures
            b.deep_view() == self.deep_view().tip(),
            b.height == self.chain.len() - 1,
    {
        &self.chain[self.chain.len() - 1]
    }

    pub fn height(&self) -> (h: u64)
        requires
            self.wf(),
        ensures
            h == self.deep_view().height(),
            h == self.chain.len() - 1,
    {
        self.tip().height
    }

    pub fn chain(&self) -> (r: &[Block])
        ensures
            model::views(r@) == self.deep_view().chain,
    {
        assert(model::views(self.chain@) =~= self.chain.deep_view());
        self.chain.as_slice()
    }

    pub fn genesis_hash(&self) -> (r: &str)
        requires
            self.wf(),
        ensures
            r@ == self.deep_view().chain[0].hash,
    {
        self.chain[0].hash.as_str()
    }

    /// Whether nothing was ever set up: no allocation, no block and nothing pending.
    pub fn is_setup_placeholder(&self) -> (r: bool)
        requires
            self.wf(),
        ensures
            r == (self.deep_view().height() == 0 && self.deep_view().genesis_allocations.len() == 0
                && self.deep_view().chain[0].transactions.len() == 0 && self.deep_view().pending.len() == 0),
    {
        self.height() == 0 && self.genesis_allocations.is_empty() && self.chain[0].transactions.len() == 0
            && self.pending.len() == 0
    }

    /// The last blocks, newest first.
    pub fn recent_blocks(&self, limit: usize) -> (r: Vec<Block>)
        requires
            self.wf(),
        ensures
            r.deep_view() == Seq::new(
                (if limit < self.deep_view().chain.len() {
                    limit as int
                } else {
                    self.deep_view().chain.len() as int
                }) as nat,
                |i: int| self.deep_view().chain[self.deep_view().chain.len() - 1 - i],
            ),
    {
        let r = self.blocks_before(u64::MAX, limit);
        let ghost count = self.chain.len();
        assert(count == self.deep_view().chain.len());
        assert(r.deep_view() =~= Seq::new(
            (if limit < self.deep_view().chain.len() {
                limit as int
            } else {
                self.deep_view().chain.len() as int
            }) as nat,
            |i: int| self.deep_view().chain[self.deep_view().chain.len() - 1 - i],
        ));
        r
    }

    /// The blocks below a height, newest first.
    pub fn blocks_before(&self, before_height: u64, limit: usize) -> (r: Vec<Block>)
        requires
            self.wf(),
        ensures
            ({
                let n = if before_height < self.deep_view().chain.len() {
                    before_height as int
                } else {
                    self.deep_view().chain.len() as int
                };
                r.deep_view() == Seq::new(
                    (if limit < n {
                        limit as int
                    } else {
                        n
                    }) as nat,
                    |i: int| self.deep_view().chain[n - 1 - i],
                )
            }),
    {
        let top: usize = if before_height < self.chain.len() as u64 {
            before_height as usize
        } else {
            self.chain.len()
        };
        let mut out: Vec<Block> = Vec::new();
        let mut i: usize = top;
        while i > 0 && out.len() < limit
            invariant
                i <= top <= self.chain.len(),
                out@.len() == top - i,
                out@.len() <= limit,
                forall|j: int|
                    0 <= j < out@.len() ==> (#[trigger] out@[j]).deep_view() == self.deep_view().chain[top - 1 - j],
            decreases i,
        {
            i = i - 1;
            out.push(self.chain[i].duplicate());
        }
        assert(out.deep_view() =~= Seq::new(
            (if limit < top {
                limit as int
            } else {
                top as int
            }) as nat,
            |i: int| self.deep_view().chain[top - 1 - i],
        ));
        out
    }

    /// The blocks from a height on, oldest first.
    pub fn blocks_from(&self, from_height: u64, limit: usize) -> (r: Vec<Block>)
        requires
            self.wf(),
        ensures
            ({
                let n = self.deep_view().chain.len() as int;
                let first = if from_height < n {
                    from_height as int
                } else {
                    n
                };
                r.deep_view() == self.deep_view().chain.subrange(
                    first,
                    if limit < n - first {
                        first + limit
                    } else {
                        n
                    },
                )
            }),
    {
        let first: usize = if from_height < self.chain.len() as u64 {
            from_height as usize
        } else {
            self.chain.len()
        };
        let ghost v = self.deep_view().chain;
        let mut out: Vec<Block> = Vec::new();
        let mut i: usize = first;
        while i < self.chain.len() && out.len() < limit
            invariant
                first <= i <= self.chain.len(),
                v == self.deep_view().chain,
                out@.len() == i - first,
                out@.len() <= limit,
                forall|j: int| 0 <= j < out@.len() ==> (#[trigger] out@[j]).deep_view() == v[first + j],
            decreases self.chain.len() - i,
        {
            out.push(self.chain[i].duplicate());
            i = i + 1;
        }
        assert(out.deep_view() =~= v.subrange(first as int, i as int));
        out
    }

    fn find_block(&self, hash: &str) -> (r: Option<&Block>)
        ensures
            r.deep_view() == with_hash(self.deep_view().chain, hash@),
            r matches Some(b) ==> self.deep_view().valid() ==> b.height < self.chain.len(),
    {
        let ghost v = self.deep_view().chain;
        let mut i: usize = 0;
        proof {
            model::take_all(v);
        }
        while i < self.chain.len()
            invariant
                i <= self.chain.len(),
                v == self.deep_view().chain,
                with_hash(v.take(i as int), hash@) is None,
            decreases self.chain.len() - i,
        {
            if text::text_eq(self.chain[i].hash.as_str(), hash) {
                proof {
                    with_hash_found(v, hash@, i as int);
                    assert(v[i as int] == self.chain@[i as int].deep_view());
                }
                return Some(&self.chain[i]);
            }
            proof {
                assert(v.take(i + 1).drop_last() =~= v.take(i as int));
            }
            i = i + 1;
        }
        proof {
            model::take_all(v);
        }
        None
    }

    pub(crate) fn anchor_height(&self, hash: &str) -> (r: Option<u64>)
        requires
            self.wf(),
        ensures
            match r {
                Some(h) => with_hash(self.deep_view().chain, hash@) matches Some(b) && b.height == h && h
                    < self.chain.len(),
                None => with_hash(self.deep_view().chain, hash@) is None,
            },
    {
        match self.find_block(hash) {
            Some(b) => Some(b.height),
            None => None,
        }
    }

    pub fn block_by_hash(&self, hash: &str) -> (r: Option<Block>)
        ensures
            r.deep_view() == with_hash(self.deep_view().chain, hash@),
    {
        match self.find_block(hash) {
            Some(b) => Some(b.duplicate()),
            None => None,
        }
    }

    pub fn has_block(&self, hash: &str) -> (r: bool)
        ensures
            r == (with_hash(self.deep_view().chain, hash@) is Some),
    {
        self.find_block(hash).is_some()
    }

    pub fn pending(&self) -> (r: &[Transaction])
        ensures
            model::views(r@) == self.deep_view().pending,
    {
        assert(model::views(self.pending@) =~= self.pending.deep_view());
        self.pending.as_slice()
    }

    pub fn pending_blinded_transactions(&self) -> (r: &[BlindedTransaction])
        ensures
            model::views(r@) == self.deep_view().pending_blinded,
    {
        assert(model::views(self.pending_blinded@) =~= self.pending_blinded.deep_view());
        self.pending_blinded.as_slice()
    }

    pub fn pending_blinded_reveals(&self) -> (r: &[BlindedReveal])
        ensures
            model::views(r@) == self.deep_view().pending_reveals,
    {
        assert(model::views(self.pending_reveals@) =~= self.pending_reveals.deep_view());
        self.pending_reveals.as_slice()
    }

    pub fn orphan_transactions(&self) -> (r: &[Transaction])
        ensures
            model::views(r@) == self.deep_view().orphans,
    {
        assert(model::views(self.orphans@) =~= self.orphans.deep_view());
        self.orphans.as_slice()
    }

    fn find_transaction(&self, signature: &str) -> (r: Option<&Transaction>)
        ensures
            r.deep_view() == self.deep_view().transaction(signature@),
    {
        let first = find_by_signature(&self.pending, signature);
        if first.is_some() {
            return first;
        }
        let second = find_by_signature(&self.orphans, signature);
        if second.is_some() {
            return second;
        }
        let ghost v = self.deep_view().chain;
        let mut i: usize = 0;
        proof {
            model::take_all(v);
        }
        while i < self.chain.len()
            invariant
                i <= self.chain.len(),
                v == self.deep_view().chain,
                in_blocks(v.take(i as int), signature@) is None,
                with_signature(self.deep_view().pending, signature@) is None,
                with_signature(self.deep_view().orphans, signature@) is None,
            decreases self.chain.len() - i,
        {
            proof {
                assert(v.take(i + 1).drop_last() =~= v.take(i as int));
            }
            let found = find_by_signature(&self.chain[i].transactions, signature);
            if found.is_some() {
                proof {
                    in_blocks_found(v, signature@, i + 1);
                }
                return found;
            }
            i = i + 1;
        }
        proof {
            model::take_all(v);
        }
        None
    }

    /// The transaction with a signature: pending, orphaned or in a block.
    pub fn transaction_by_signature(&self, signature: &str) -> (r: Option<Transaction>)
        ensures
            r.deep_view() == self.deep_view().transaction(signature@),
    {
        match self.find_transaction(signature) {
            Some(t) => Some(t.duplicate()),
            None => None,
        }
    }

    pub fn has_transaction(&self, signature: &str) -> (r: bool)
        ensures
            r == self.deep_view().knows_transaction(signature@),
    {
        self.find_transaction(signature).is_some()
    }

    pub(crate) fn blinded_on_chain(&self, commitment: &str) -> (r: bool)
        ensures
            r == blinded_in_blocks(self.deep_view().chain, commitment@),
    {
        let ghost v = self.deep_view().chain;
        let mut i: usize = 0;
        while i < self.chain.len()
            invariant
                i <= self.chain.len(),
                v == self.deep_view().chain,
                forall|j: int| 0 <= j < i ==> !commits((#[trigger] v[j]).blinded_transactions, commitment@),
            decreases self.chain.len() - i,
        {
            if has_commitment(&self.chain[i].blinded_transactions, commitment) {
                assert(commits(v[i as int].blinded_transactions, commitment@));
                return true;
            }
            i = i + 1;
        }
        false
    }

    /// Whether a block of the chain names an output.
    pub(crate) fn spent_on_chain(&self, outpoint: &OutPoint) -> (r: bool)
        ensures
            r == spent_in_blocks(self.deep_view().chain, outpoint.deep_view()),
    {
        let ghost v = self.deep_view().chain;
        let mut i: usize = 0;
        while i < self.chain.len()
            invariant
                i <= self.chain.len(),
                v == self.deep_view().chain,
                forall|j: int| 0 <= j < i ==> !spent_in(#[trigger] v[j], outpoint.deep_view()),
            decreases self.chain.len() - i,
        {
            if block_spends(&self.chain[i], outpoint) {
                assert(spent_in(v[i as int], outpoint.deep_view()));
                return true;
            }
            i = i + 1;
        }
        false
    }

    pub(crate) fn reveal_on_chain(&self, commitment: &str) -> (r: bool)
        ensures
            r == revealed_in_blocks(self.deep_view().chain, commitment@),
    {
        let ghost v = self.deep_view().chain;
        let mut i: usize = 0;
        while i < self.chain.len()
            invariant
                i <= self.chain.len(),
                v == self.deep_view().chain,
                forall|j: int|
                    0 <= j < i ==> !block::reveals_commitment((#[trigger] v[j]).all_reveals(), commitment@),
            decreases self.chain.len() - i,
        {
            let reveals = self.chain[i].all_blinded_reveals();
            if block::Block::contains_commitment(&reveals, commitment) {
                assert(block::reveals_commitment(v[i as int].all_reveals(), commitment@));
                return true;
            }
            i = i + 1;
        }
        false
    }

    pub fn has_blinded_transaction(&self, commitment: &str) -> (r: bool)
        requires
            self.wf(),
        ensures
            r == self.deep_view().knows_blinded(commitment@),
    {
        self.has_unrevealed_blinded_transaction(commitment) || self.blinded_on_chain(commitment)
    }

    pub fn has_unrevealed_blinded_transaction(&self, commitment: &str) -> (r: bool)
        requires
            self.wf(),
        ensures
            r == self.deep_view().knows_unrevealed(commitment@),
    {
        has_commitment(&self.pending_blinded, commitment) || self.has_active_blinded_transaction(commitment)
    }

    pub fn has_active_blinded_transaction(&self, commitment: &str) -> (r: bool)
        requires
            self.wf(),
        ensures
            r == (sorted::lookup(self.deep_view().active_blinded, commitment@) is Some),
    {
        let key = text::text(commitment);
        self.active_blinded.contains_key(&key)
    }

    pub fn has_blinded_reveal(&self, commitment: &str) -> (r: bool)
        ensures
            r == self.deep_view().knows_reveal(commitment@),
    {
        has_reveal(&self.pending_reveals, commitment) || self.reveal_on_chain(commitment)
    }

    pub fn vdf_rounds(&self) -> (r: u64)
        ensures
            r == self.deep_view().vdf_rounds,
    {
        self.vdf_rounds
    }

    pub fn launch_profile(&self) -> (r: &LaunchProfile)
        ensures
            r.deep_view() == self.deep_view().launch_profile,
    {
        &self.launch_profile
    }

    fn actions_between(&self, first: u128, last: u128) -> (r: u128)
        ensures
            r == window_actions(self.deep_view().chain, first as nat, last as nat),
    {
        let ghost v = self.deep_view().chain;
        let mut total: u128 = 0;
        let mut i: usize = 0;
        proof {
            model::take_all(v);
        }
        while i < self.chain.len()
            invariant
                i <= self.chain.len(),
                v == self.deep_view().chain,
                total <= i * 0xffff_ffff_ffff_ffffint,
                total == window_actions(v.take(i as int), first as nat, last as nat),
            decreases self.chain.len() - i,
        {
            proof {
                assert(v.take(i + 1).drop_last() =~= v.take(i as int));
                assert((i + 1) * 0xffff_ffff_ffff_ffffint <= 0xffff_ffff_ffff_ffff_ffff_ffff_ffff_ffffint
                    && (i + 1) * 0xffff_ffff_ffff_ffffint == i * 0xffff_ffff_ffff_ffffint
                    + 0xffff_ffff_ffff_ffffint) by (nonlinear_arith)
                    requires
                        i + 1 <= 0xffff_ffff_ffff_ffffint,
                        i >= 0,
                ;
            }
            let h: u128 = self.chain[i].height as u128;
            if first <= h && h <= last {
                total = total + tickets::mine_action_count(&self.chain[i]) as u128;
            }
            i = i + 1;
        }
        proof {
            model::take_all(v);
        }
        total
    }

    /// The difficulty for an anchor at a height.
    pub fn mine_difficulty_bits_for_anchor_height(&self, anchor_height: u64) -> (r: u32)
        ensures
            r == self.deep_view().difficulty_at(anchor_height),
    {
        let ghost v = self.deep_view().chain;
        let mut bits: u32 = self.launch_profile.mine_difficulty_bits;
        let mut window_end: u128 = 10;
        while window_end <= anchor_height as u128
            invariant
                10 <= window_end <= anchor_height as u128 + 10,
                v == self.deep_view().chain,
                difficulty(v, bits, window_end as nat, anchor_height as nat) == self.deep_view().difficulty_at(
                    anchor_height,
                ),
            decreases anchor_height + 10 - window_end,
        {
            let actions: u128 = self.actions_between(window_end - 9, window_end);
            let bounded: u64 = if actions > u64::MAX as u128 {
                u64::MAX
            } else {
                actions as u64
            };
            proof {
                if actions > u64::MAX {
                    many_actions(bits, actions as nat, u64::MAX as nat);
                }
            }
            bits = tickets::retarget_mine_difficulty_bits(bits, bounded);
            window_end = window_end + 10;
        }
        bits
    }

    pub fn current_mine_difficulty_bits(&self) -> (r: u32)
        requires
            self.wf(),
        ensures
            r == self.deep_view().difficulty_at(self.deep_view().height()),
    {
        self.mine_difficulty_bits_for_anchor_height(self.height())
    }

    pub fn mine_difficulty_bits_at_height(&self, height: u64) -> (r: u32)
        requires
            self.wf(),
        ensures
            r == self.deep_view().difficulty_at(
                if height < self.deep_view().height() {
                    height
                } else {
                    self.deep_view().height()
                },
            ),
    {
        let tip = self.height();
        self.mine_difficulty_bits_for_anchor_height(if height < tip {
            height
        } else {
            tip
        })
    }

    /// What an address holds.
    pub fn balance_of(&self, address: &str) -> (r: Amount)
        requires
            self.wf(),
        ensures
            r == utxo::balance(self.deep_view().utxos, address@),
    {
        let ghost u = self.deep_view().utxos;
        let ghost o = utxo::outputs_of(u);
        let mut total: u64 = 0;
        let mut i: usize = 0;
        proof {
            model::take_all(o);
        }
        while i < self.utxos.len()
            invariant
                i <= u.len(),
                u == self.deep_view().utxos,
                o == utxo::outputs_of(u),
                utxo::balance(u, address@) <= u64::MAX,
                total == utxo::balance_in(o.take(i as int), address@),
            decreases u.len() - i,
        {
            proof {
                assert(o.take(i + 1).drop_last() =~= o.take(i as int));
                utxo::balance_grows(o, i + 1, address@);
            }
            let entry = self.utxos.at(i);
            if text::text_eq(entry.1.address.as_str(), address) {
                total = total + entry.1.amount;
            }
            i = i + 1;
        }
        proof {
            model::take_all(o);
        }
        total
    }

    /// The outputs of an address, in the order of their references.
    pub fn utxos_for_address(&self, address: &str) -> (r: Vec<(OutPoint, TxOutput)>)
        ensures
            r.deep_view() == outputs_at(self.deep_view().utxos, address@),
    {
        entries_at(&self.utxos, address)
    }

    /// The time from which a recovery block is accepted.
    pub fn recovery_block_min_timestamp(&self) -> (r: u64)
        requires
            self.wf(),
        ensures
            r == self.deep_view().recovery_time(),
    {
        self.tip().timestamp_ms.saturating_add(RECOVERY_BLOCK_DELAY_MS)
    }

    pub fn recovery_block_available_at(&self, timestamp_ms: u64) -> (r: bool)
        requires
            self.wf(),
        ensures
            r == (timestamp_ms >= self.deep_view().recovery_time()),
    {
        timestamp_ms >= self.recovery_block_min_timestamp()
    }
}

/// The outputs of an address, in the order of their references.
pub open spec fn outputs_at(u: UtxosView, address: Seq<char>) -> UtxosView {
    u.filter(|e: (OutPointView, TxOutputView)| e.1.address == address)
}

/// The outputs of an address, in the order of their references.
pub fn entries_at(utxos: &Utxos, address: &str) -> (r: Vec<(OutPoint, TxOutput)>)
    ensures
        r.deep_view() == outputs_at(utxos.deep_view(), address@),
{
    broadcast use model::group_views;

    let ghost u = utxos.deep_view();
    let ghost p = |e: (OutPointView, TxOutputView)| e.1.address == address@;
    let mut out: Vec<(OutPoint, TxOutput)> = Vec::new();
    let mut i: usize = 0;
    proof {
        model::take_all(u);
        model::filter_empty(p);
    }
    while i < utxos.len()
        invariant
            i <= u.len(),
            u == utxos.deep_view(),
            p == (|e: (OutPointView, TxOutputView)| e.1.address == address@),
            out.deep_view() == u.take(i as int).filter(p),
        decreases u.len() - i,
    {
        proof {
            model::take_step(u, i as int);
            model::filter_push(u.take(i as int), u[i as int], p);
        }
        let entry = utxos.at(i);
        if text::text_eq(entry.1.address.as_str(), address) {
            out.push(entry.duplicate());
        }
        i = i + 1;
    }
    proof {
        model::take_all(u);
    }
    out
}

impl Model for Ledger {
    fn duplicate(&self) -> (r: Self) {
        Ledger {
            chain: self.chain.duplicate(),
            genesis_allocations: self.genesis_allocations.duplicate(),
            utxos: self.utxos.duplicate(),
            locked: self.locked.duplicate(),
            tickets: self.tickets.duplicate(),
            pending: self.pending.duplicate(),
            orphans: self.orphans.duplicate(),
            pending_blinded: self.pending_blinded.duplicate(),
            pending_reveals: self.pending_reveals.duplicate(),
            active_blinded: self.active_blinded.duplicate(),
            mine_reward: self.mine_reward,
            initial_vdf_rounds: self.initial_vdf_rounds,
            vdf_rounds: self.vdf_rounds,
            launch_profile: self.launch_profile.duplicate(),
        }
    }

    fn same(&self, other: &Self) -> (r: bool) {
        let first = self.chain.same(&other.chain) && self.genesis_allocations.same(&other.genesis_allocations)
            && self.utxos.same(&other.utxos) && self.locked.same(&other.locked) && self.tickets.same(&other.tickets) && self.pending.same(
            &other.pending,
        ) && self.orphans.same(&other.orphans);
        first && self.pending_blinded.same(&other.pending_blinded) && self.pending_reveals.same(
            &other.pending_reveals,
        ) && self.active_blinded.same(&other.active_blinded) && self.mine_reward == other.mine_reward
            && self.initial_vdf_rounds == other.initial_vdf_rounds && self.vdf_rounds == other.vdf_rounds
            && self.launch_profile.same(&other.launch_profile)
    }
}

/// The state of a new chain.
pub open spec fn initial_state(a: AllocationsView, genesis_transactions: Seq<TransactionView>, vdf_rounds: u64) -> Result<
    LedgerView,
    Seq<char>,
> {
    match genesis::allocations_check(a) {
        Err(e) => Err(e),
        Ok(_) => state_from_genesis(
            a,
            genesis::genesis_block(a, genesis_transactions),
            vdf_rounds,
            tickets::default_profile(),
        ),
    }
}

/// The state of a chain that has only its first block.
pub open spec fn state_from_genesis(
    a: AllocationsView,
    genesis_block: BlockView,
    vdf_rounds: u64,
    profile: LaunchProfileView,
) -> Result<LedgerView, Seq<char>> {
    match genesis::genesis_utxos(a, genesis_block) {
        Err(e) => Err(e),
        Ok(utxos) => match tickets::initial_tickets(a, genesis_block, profile) {
            Err(e) => Err(e),
            Ok(initial) => Ok(
                LedgerView {
                    chain: seq![genesis_block],
                    genesis_allocations: a,
                    utxos,
                    locked: Seq::<(OutPointView, TxOutputView)>::empty(),
                    tickets: initial,
                    pending: Seq::<TransactionView>::empty(),
                    orphans: Seq::<TransactionView>::empty(),
                    pending_blinded: Seq::<BlindedTransactionView>::empty(),
                    pending_reveals: Seq::<BlindedRevealView>::empty(),
                    active_blinded: Seq::<(Seq<char>, ActiveBlindedTransactionView)>::empty(),
                    mine_reward: MINE_REWARD,
                    initial_vdf_rounds: vdf_rounds,
                    vdf_rounds,
                    launch_profile: profile,
                },
            ),
        },
    }
}

/// The genesis transactions of burns out of allocations.
pub open spec fn genesis_burn_transactions(a: AllocationsView, burns: Seq<(Seq<char>, Amount)>) -> Result<
    Seq<TransactionView>,
    Seq<char>,
>
    decreases burns.len(),
{
    if burns.len() == 0 {
        Ok(Seq::<TransactionView>::empty())
    } else {
        match genesis_burn_transactions(a, burns.drop_last()) {
            Err(e) => Err(e),
            Ok(earlier) => match transaction::genesis_burn_of_allocation(
                burns.last().0,
                burns.last().1,
                genesis::allocated(a, burns.last().0) as u64,
            ) {
                Err(e) => Err(e),
                Ok(t) => Ok(earlier.push(t)),
            },
        }
    }
}

proof fn genesis_burn_transactions_stops(a: AllocationsView, burns: Seq<(Seq<char>, Amount)>, n: int)
    requires
        0 <= n <= burns.len(),
        genesis_burn_transactions(a, burns.take(n)) is Err,
    ensures
        genesis_burn_transactions(a, burns) == genesis_burn_transactions(a, burns.take(n)),
    decreases burns.len(),
{
    if n < burns.len() {
        assert(burns.drop_last().take(n) =~= burns.take(n));
        genesis_burn_transactions_stops(a, burns.drop_last(), n);
    } else {
        model::take_all(burns);
    }
}

impl Ledger {
    /// A chain without burns at its start. Where an allocation is at no address, or the first
    /// tickets cannot be made, there is no such chain.
    pub fn new(genesis_allocations: Allocations, vdf_rounds: u64) -> (r: Ledger)
        requires
            genesis_allocations.wf(),
            genesis::allocations_check(genesis_allocations.deep_view()) is Ok,
        ensures
            r.wf(),
            initial_state(genesis_allocations.deep_view(), Seq::<TransactionView>::empty(), vdf_rounds) == Ok::<
                LedgerView,
                Seq<char>,
            >(r.deep_view()),
    {
        let none: Vec<Transaction> = Vec::new();
        assert(none.deep_view() =~= Seq::<TransactionView>::empty());
        proof {
            empty_genesis_is_valid(genesis_allocations.deep_view(), vdf_rounds);
        }
        match Self::new_with_genesis_transactions(genesis_allocations, none, vdf_rounds) {
            Ok(ledger) => ledger,
            Err(_) => {
                assert(false);
                Self::placeholder(vdf_rounds)
            },
        }
    }

    fn placeholder(vdf_rounds: u64) -> (r: Ledger) {
        let allocations: Allocations = SortedMap::new();
        let genesis_block = genesis::build_genesis_block(&allocations, Vec::new());
        let profile: LaunchProfile = Default::default();
        Self::start(allocations, genesis_block, SortedMap::new(), Vec::new(), vdf_rounds, profile)
    }

    fn start(
        genesis_allocations: Allocations,
        genesis_block: Block,
        utxos: Utxos,
        initial: Vec<BurnTicket>,
        vdf_rounds: u64,
        launch_profile: LaunchProfile,
    ) -> (r: Ledger)
        ensures
            r.deep_view() == (LedgerView {
                chain: seq![genesis_block.deep_view()],
                genesis_allocations: genesis_allocations.deep_view(),
                utxos: utxos.deep_view(),
                locked: Seq::<(OutPointView, TxOutputView)>::empty(),
                tickets: initial.deep_view(),
                pending: Seq::<TransactionView>::empty(),
                orphans: Seq::<TransactionView>::empty(),
                pending_blinded: Seq::<BlindedTransactionView>::empty(),
                pending_reveals: Seq::<BlindedRevealView>::empty(),
                active_blinded: Seq::<(Seq<char>, ActiveBlindedTransactionView)>::empty(),
                mine_reward: MINE_REWARD,
                initial_vdf_rounds: vdf_rounds,
                vdf_rounds,
                launch_profile: launch_profile.deep_view(),
            }),
            r.utxos == utxos,
            r.genesis_allocations == genesis_allocations,
            r.active_blinded.wf(),
            r.locked.wf(),
    {
        let mut chain: Vec<Block> = Vec::new();
        chain.push(genesis_block);
        let ledger = Ledger {
            chain,
            genesis_allocations,
            utxos,
            locked: SortedMap::new(),
            tickets: initial,
            pending: Vec::new(),
            orphans: Vec::new(),
            pending_blinded: Vec::new(),
            pending_reveals: Vec::new(),
            active_blinded: SortedMap::new(),
            mine_reward: MINE_REWARD,
            initial_vdf_rounds: vdf_rounds,
            vdf_rounds,
            launch_profile,
        };
        assert(ledger.chain.deep_view() =~= seq![genesis_block.deep_view()]);
        assert(ledger.pending.deep_view() =~= Seq::<TransactionView>::empty());
        assert(ledger.orphans.deep_view() =~= Seq::<TransactionView>::empty());
        assert(ledger.pending_blinded.deep_view() =~= Seq::<BlindedTransactionView>::empty());
        assert(ledger.pending_reveals.deep_view() =~= Seq::<BlindedRevealView>::empty());
        ledger
    }

    /// The chain that has only a given first block.
    pub(crate) fn from_genesis(
        genesis_allocations: Allocations,
        genesis_block: Block,
        vdf_rounds: u64,
        launch_profile: LaunchProfile,
    ) -> (r: Result<Ledger, Error>)
        requires
            genesis_allocations.wf(),
            genesis_block.height == 0,
            genesis_block.vdf_rounds == 0,
            genesis_block.deep_view().prev_hash == text::repeated('0', 64),
            genesis_block.deep_view().hash == genesis_block.deep_view().computed_hash(),
        ensures
            error::outcome(r) == state_from_genesis(
                genesis_allocations.deep_view(),
                genesis_block.deep_view(),
                vdf_rounds,
                launch_profile.deep_view(),
            ),
            r matches Ok(l) ==> l.wf(),
    {
        let utxos = genesis::utxos_after_genesis(&genesis_allocations, &genesis_block)?;
        let initial = tickets::genesis_tickets(&genesis_allocations, &genesis_block, &launch_profile)?;
        proof {
            genesis_allocations.wf_is_increasing();
            genesis::genesis_balances_fit(genesis_allocations.deep_view(), genesis_block.deep_view());
        }
        let ledger = Self::start(
            genesis_allocations,
            genesis_block,
            utxos,
            initial,
            vdf_rounds,
            launch_profile,
        );
        proof {
            ledger.active_blinded.wf_is_increasing();
            ledger.locked.wf_is_increasing();
            first_block_is_linked(ledger.deep_view().chain[0]);
            draw::first_block_is_in_step(ledger.deep_view());
            held::nothing_active_is_held(ledger.deep_view().active_blinded, ledger.deep_view().locked);
            locks::nothing_held_fits(ledger.deep_view().utxos);
            reveal(owners_signed);
            reveal(utxo::all_signed);
            reveal(reveals_differ);
        }
        Ok(ledger)
    }

    fn new_with_genesis_transactions(
        genesis_allocations: Allocations,
        genesis_transactions: Vec<Transaction>,
        vdf_rounds: u64,
    ) -> (r: Result<Ledger, Error>)
        requires
            genesis_allocations.wf(),
        ensures
            error::outcome(r) == initial_state(
                genesis_allocations.deep_view(),
                genesis_transactions.deep_view(),
                vdf_rounds,
            ),
            r matches Ok(l) ==> l.wf(),
    {
        genesis::validate_genesis_allocations(&genesis_allocations)?;
        let genesis_block = genesis::build_genesis_block(&genesis_allocations, genesis_transactions);
        let profile: LaunchProfile = Default::default();
        Self::from_genesis(genesis_allocations, genesis_block, vdf_rounds, profile)
    }

    fn burn_transactions(genesis_allocations: &Allocations, genesis_burns: &Vec<GenesisBurn>) -> (r: Result<
        Vec<Transaction>,
        Error,
    >)
        requires
            genesis_allocations.wf(),
        ensures
            error::outcome(r) == genesis_burn_transactions(
                genesis_allocations.deep_view(),
                genesis_burns.deep_view(),
            ),
    {
        let ghost a = genesis_allocations.deep_view();
        let ghost v = genesis_burns.deep_view();
        let mut transactions: Vec<Transaction> = Vec::new();
        let mut i: usize = 0;
        proof {
            model::take_all(v);
            assert(transactions.deep_view() =~= Seq::<TransactionView>::empty());
        }
        while i < genesis_burns.len()
            invariant
                i <= genesis_burns.len(),
                a == genesis_allocations.deep_view(),
                v == genesis_burns.deep_view(),
                genesis_allocations.wf(),
                genesis_burn_transactions(a, v.take(i as int)) == Ok::<Seq<TransactionView>, Seq<char>>(
                    transactions.deep_view(),
                ),
            decreases genesis_burns.len() - i,
        {
            let burn = &genesis_burns[i];
            let allocation: u64 = match genesis_allocations.get(&burn.from) {
                Some(amount) => *amount,
                None => 0,
            };
            proof {
                assert(v.take(i + 1).drop_last() =~= v.take(i as int));
                assert(v.take(i + 1).last() == v[i as int]);
                if genesis_burn_transactions(a, v.take(i + 1)) is Err {
                    genesis_burn_transactions_stops(a, v, i + 1);
                }
            }
            let t = Transaction::genesis_burn_with_allocation(burn.from.as_str(), burn.amount, allocation)?;
            let ghost before = transactions.deep_view();
            let ghost added = t.deep_view();
            transactions.push(t);
            assert(transactions.deep_view() =~= before.push(added));
            i = i + 1;
        }
        proof {
            model::take_all(v);
        }
        Ok(transactions)
    }

    /// A chain with burns at its start.
    pub fn new_with_genesis_burns(
        genesis_allocations: Allocations,
        genesis_burns: Vec<GenesisBurn>,
        vdf_rounds: u64,
    ) -> (r: Result<Ledger, Error>)
        requires
            genesis_allocations.wf(),
        ensures
            error::outcome(r) == match genesis_burn_transactions(
                genesis_allocations.deep_view(),
                genesis_burns.deep_view(),
            ) {
                Err(e) => Err(e),
                Ok(transactions) => initial_state(genesis_allocations.deep_view(), transactions, vdf_rounds),
            },
            r matches Ok(l) ==> l.wf(),
    {
        let transactions = Self::burn_transactions(&genesis_allocations, &genesis_burns)?;
        Self::new_with_genesis_transactions(genesis_allocations, transactions, vdf_rounds)
    }
}

/// Without transactions the first block is always accepted.
proof fn empty_genesis_is_valid(a: AllocationsView, vdf_rounds: u64)
    requires
        genesis::allocations_check(a) is Ok,
    ensures
        initial_state(a, Seq::<TransactionView>::empty(), vdf_rounds) is Ok,
{
    let none = Seq::<TransactionView>::empty();
    let b = genesis::genesis_block(a, none);
    assert(b.reward == 0);
    assert(genesis::after_genesis_burns(genesis::allocation_utxos(a), none) is Ok);
    assert(tickets::burn_sources(none).len() == 0);
}

/// The mine actions of some blocks.
pub open spec fn actions_of(blocks: Seq<BlockView>) -> nat
    decreases blocks.len(),
{
    if blocks.len() == 0 {
        0
    } else {
        actions_of(blocks.drop_last()) + blocks.last().transactions.filter(|t: TransactionView| t is Mine).len()
    }
}

proof fn window_is_a_stretch(chain: Seq<BlockView>, first: nat, last: nat)
    requires
        first <= last + 1,
        forall|i: int| 0 <= i < chain.len() ==> (#[trigger] chain[i]).height == i,
    ensures
        ({
            let end = if chain.len() < last + 1 { chain.len() as int } else { (last + 1) as int };
            let start = if first < end { first as int } else { end };
            window_actions(chain, first, last) == actions_of(chain.subrange(start, end))
        }),
    decreases chain.len(),
{
    let end = if chain.len() < last + 1 { chain.len() as int } else { (last + 1) as int };
    let start = if first < end { first as int } else { end };
    let part = chain.subrange(start, end);
    if chain.len() > 0 {
        let earlier = chain.drop_last();
        assert forall|i: int| 0 <= i < earlier.len() implies (#[trigger] earlier[i]).height == i by {
            assert(chain[i].height == i);
        }
        window_is_a_stretch(earlier, first, last);
        assert(chain[chain.len() - 1].height == chain.len() - 1);
        tickets::mine_actions_are_counted(chain.last().transactions);
        let end0 = if earlier.len() < last + 1 { earlier.len() as int } else { (last + 1) as int };
        let start0 = if first < end0 { first as int } else { end0 };
        if first <= chain.len() - 1 <= last {
            assert(part.drop_last() =~= earlier.subrange(start0, end0));
            assert(part.last() == chain.last());
        } else if chain.len() - 1 > last {
            assert(part =~= earlier.subrange(start0, end0));
        } else {
            assert(part =~= Seq::<BlockView>::empty());
            assert(earlier.subrange(start0, end0) =~= Seq::<BlockView>::empty());
        }
    } else {
        assert(part =~= Seq::<BlockView>::empty());
    }
}

proof fn difficulty_goes_on(chain: Seq<BlockView>, bits: u32, window_end: nat, anchor: nat)
    requires
        window_end >= 10,
        anchor + 10 >= window_end,
        (anchor + 10 - window_end) % 10 == 0,
    ensures
        difficulty(chain, bits, window_end, anchor + 10) == tickets::retargeted_bits(
            difficulty(chain, bits, window_end, anchor),
            window_actions(chain, (anchor + 1) as nat, anchor + 10),
        ),
    decreases anchor + 10 - window_end,
{
    if window_end <= anchor {
        let next = tickets::retargeted_bits(bits, window_actions(chain, (window_end - 9) as nat, window_end));
        difficulty_goes_on(chain, next, window_end + 10, anchor);
    } else {
        assert(window_end == anchor + 10);
        reveal_with_fuel(difficulty, 3);
    }
}

proof fn difficulty_stays_in_a_window(chain: Seq<BlockView>, bits: u32, window_end: nat, anchor: nat, later: nat)
    requires
        window_end >= 10,
        anchor + 10 >= window_end,
        (anchor + 10 - window_end) % 10 == 0,
        anchor <= later < anchor + 10,
    ensures
        difficulty(chain, bits, window_end, later) == difficulty(chain, bits, window_end, anchor),
    decreases anchor + 10 - window_end,
{
    if window_end <= anchor {
        let next = tickets::retargeted_bits(bits, window_actions(chain, (window_end - 9) as nat, window_end));
        difficulty_stays_in_a_window(chain, next, window_end + 10, anchor, later);
    } else {
        assert(window_end == anchor + 10);
    }
}

/// The difficulty of mine actions starts with that of the launch, stays for ten blocks, and is
/// retargeted after each ten by the mine actions that these hold.
pub proof fn difficulty_is_retargeted_every_ten_blocks(l: LedgerView, windows: nat, height: u64)
    requires
        chain_valid(l.chain),
        10 * windows <= height < 10 * windows + 10,
        10 * windows < l.chain.len(),
        height <= 18_446_744_073_709_551_000,
    ensures
        windows == 0 ==> l.difficulty_at(height) == l.launch_profile.mine_difficulty_bits,
        windows > 0 ==> l.difficulty_at(height) == tickets::retargeted_bits(
            l.difficulty_at((10 * windows - 10) as u64),
            actions_of(l.chain.subrange(10 * windows - 9, (10 * windows + 1) as int)),
        ),
{
    let bits = l.launch_profile.mine_difficulty_bits;
    difficulty_stays_in_a_window(l.chain, bits, 10, 10 * windows, height as nat);
    if windows > 0 {
        let anchor = (10 * windows - 10) as nat;
        difficulty_goes_on(l.chain, bits, 10, anchor);
        assert(anchor + 10 == 10 * windows);
        window_is_a_stretch(l.chain, (anchor + 1) as nat, anchor + 10);
    }
}

} // verus!
