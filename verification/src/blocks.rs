//! Accepting blocks: the checks on a block and what it does to the ledger.
use crate::blinded::{
    ActiveBlindedTransaction, ActiveBlindedTransactionView, BlindedReveal, BlindedRevealView,
    BlindedTransaction, BlindedTransactionView,
};
use crate::block;
use crate::block::{Block, BlockView, FinalizerMode};
use crate::bundling;
use crate::crypto;
use crate::document;
use crate::draw;
use crate::error;
use crate::error::Error;
use crate::held;
use crate::ledger;
use crate::ledger::{ActiveView, Ledger, LedgerView, BLOCK_MEDIAN_TIME_PAST_WINDOW};
use crate::locks;
use crate::locks::{Holdings, HoldingsView};
use crate::mempool;
use crate::model;
use crate::model::Model;
use crate::proposals;
use crate::replay;
use crate::rewards;
use crate::sorted;
use crate::sorted::SortedMap;
use crate::text;
use crate::tickets;
use crate::tickets::{BurnTicket, BurnTicketView};
use crate::transaction::{OutPoint, Transaction, TransactionView, TxOutputView};
use crate::utxo;
use crate::utxo::{Utxos, UtxosView};
use crate::vdf;
use vstd::prelude::*;
use vstd::string::*;

verus! {

pub const VDF_RETARGET_WINDOW_BLOCKS: usize = 20;

pub const MAX_BLOCK_TIMESTAMP_FUTURE_DRIFT_MS: u64 = 120_000;

/// The time between two blocks that counts for a retarget: that of a block by the first finalizer.
pub open spec fn observed_time(parent: BlockView, child: BlockView) -> Option<nat> {
    if child.finalizer_mode != FinalizerMode::Ticket || child.finalizer_rank != 0 {
        None
    } else {
        Some(vdf::clamped_block_ms((child.timestamp_ms - parent.timestamp_ms) as nat))
    }
}

/// The sum and the number of the times that count, over the blocks from one place to another.
pub open spec fn observed_times(chain: Seq<BlockView>, first: int, end: int) -> (nat, nat)
    decreases end - first,
{
    if end <= first {
        (0, 0)
    } else {
        let (sum, count) = observed_times(chain, first, end - 1);
        match observed_time(chain[end - 2], chain[end - 1]) {
            None => (sum, count),
            Some(time) => (sum + time, count + 1),
        }
    }
}

/// The rounds for the block after a chain: retargeted by the last blocks' mean time.
pub open spec fn next_rounds(chain: Seq<BlockView>, current: u64) -> u64 {
    let n = chain.len() as int;
    let tip = chain.last();
    if tip.height < 2 {
        current
    } else {
        let first = if n > VDF_RETARGET_WINDOW_BLOCKS + 2 {
            n - VDF_RETARGET_WINDOW_BLOCKS
        } else {
            2
        };
        let (sum, count) = observed_times(chain, first, n);
        if count == 0 {
            current
        } else {
            vdf::retargeted_rounds(
                vdf::base_rounds(tip.vdf_rounds, tip.finalizer_rank) as nat,
                sum / count,
            ) as u64
        }
    }
}

/// How many of the last blocks the median time is taken of.
pub open spec fn median_window(chain: Seq<BlockView>) -> int {
    if chain.len() < BLOCK_MEDIAN_TIME_PAST_WINDOW {
        chain.len() as int
    } else {
        BLOCK_MEDIAN_TIME_PAST_WINDOW as int
    }
}

/// The median time of the last blocks: as the times of a chain increase, that of the middle block.
pub open spec fn median_time(chain: Seq<BlockView>) -> u64 {
    let n = median_window(chain);
    chain[chain.len() - n + n / 2].timestamp_ms
}

/// Half of the last blocks, rounded down, came before the median time.
pub proof fn median_is_in_the_middle(chain: Seq<BlockView>, i: int)
    requires
        ledger::chain_valid(chain),
        chain.len() - median_window(chain) <= i < chain.len(),
    ensures
        chain[i].timestamp_ms < median_time(chain) <==> i < chain.len() - median_window(chain) + median_window(
            chain,
        ) / 2,
        median_time(chain) <= chain.last().timestamp_ms,
{
    let m = chain.len() - median_window(chain) + median_window(chain) / 2;
    if i < m {
        assert(chain[i].timestamp_ms < chain[m].timestamp_ms);
    } else if i > m {
        assert(chain[m].timestamp_ms < chain[i].timestamp_ms);
    }
    if m < chain.len() - 1 {
        assert(chain[m].timestamp_ms < chain[chain.len() - 1].timestamp_ms);
    }
}

/// The outputs after the transactions of a block.
pub open spec fn after_transactions(l: LedgerView, transactions: Seq<TransactionView>, u: UtxosView) -> Result<
    UtxosView,
    Seq<char>,
>
    decreases transactions.len(),
{
    if transactions.len() == 0 {
        Ok(u)
    } else {
        let t = transactions.last();
        match after_transactions(l, transactions.drop_last(), u) {
            Err(e) => Err(e),
            Ok(v) => if ledger::with_signature(transactions.drop_last(), t.signature()) is Some {
                Err("duplicate transaction in block"@)
            } else {
                match l.terms_check(t) {
                    Err(e) => Err(e),
                    Ok(_) => match utxo::applied(t, v).1 {
                        Err(e) => Err(e),
                        Ok(_) => match locks::room_check(utxo::applied(t, v).0, l.locked) {
                            Err(e) => Err(e),
                            Ok(_) => Ok(utxo::applied(t, v).0),
                        },
                    },
                }
            },
        }
    }
}

/// The holdings after one reveal, and the transaction that it opens: what the envelope held pays
/// for the outputs of the transaction and the fees.
#[verifier::opaque]
pub open spec fn after_reveal(
    l: LedgerView,
    r: BlindedRevealView,
    miner: Seq<char>,
    bundles: nat,
    h: HoldingsView,
) -> Result<(HoldingsView, TransactionView), Seq<char>> {
    match sorted::lookup(l.active_blinded, r.commitment) {
        None => Err("blinded reveal does not reference an active blinded transaction"@),
        Some(active) => match l.opened_active(active, r) {
            Err(e) => Err(e),
            Ok(t) => match locks::release(t.inputs(), h) {
                Err(e) => Err(e),
                Ok(g) => match utxo::applied(t, g.free).1 {
                    Err(e) => Err(e),
                    Ok(_) => match rewards::with_blinded_fees(
                        utxo::applied(t, g.free).0,
                        active,
                        miner,
                        t.fee(),
                        bundles,
                    ) {
                        Err(e) => Err(e),
                        Ok(v) => match locks::room_check(v, g.locked) {
                            Err(e) => Err(e),
                            Ok(_) => Ok((HoldingsView { free: v, locked: g.locked }, t)),
                        },
                    },
                },
            },
        },
    }
}

/// The holdings after the reveals of a block, and the transactions that they open.
pub open spec fn after_reveals(
    l: LedgerView,
    reveals: Seq<BlindedRevealView>,
    miner: Seq<char>,
    bundles: nat,
    u: HoldingsView,
) -> Result<(HoldingsView, Seq<TransactionView>), Seq<char>>
    decreases reveals.len(),
{
    if reveals.len() == 0 {
        Ok((u, Seq::<TransactionView>::empty()))
    } else {
        match after_reveals(l, reveals.drop_last(), miner, bundles, u) {
            Err(e) => Err(e),
            Ok((v, earlier)) => match after_reveal(l, reveals.last(), miner, bundles, v) {
                Err(e) => Err(e),
                Ok((w, t)) => Ok((w, earlier.push(t))),
            },
        }
    }
}

/// The envelopes that stay active after a block: not revealed by it and not expired.
pub open spec fn stays_active(reveals: Seq<BlindedRevealView>, height: u64) -> spec_fn(
    (Seq<char>, ActiveBlindedTransactionView),
) -> bool {
    |e: (Seq<char>, ActiveBlindedTransactionView)|
        !block::reveals_commitment(reveals, e.0) && height < e.1.transaction.expires_at_height
}

/// The envelopes that expire with a block.
pub open spec fn lapses(reveals: Seq<BlindedRevealView>, height: u64) -> spec_fn(
    (Seq<char>, ActiveBlindedTransactionView),
) -> bool {
    |e: (Seq<char>, ActiveBlindedTransactionView)|
        !block::reveals_commitment(reveals, e.0) && height >= e.1.transaction.expires_at_height
}

/// The envelopes among active ones.
pub open spec fn envelopes_of(active: ActiveView) -> Seq<BlindedTransactionView> {
    Seq::new(active.len(), |i: int| active[i].1.transaction)
}

/// The pending transactions that a block leaves.
pub open spec fn stays_pending(l: LedgerView, mined: Seq<TransactionView>) -> spec_fn(TransactionView) -> bool {
    |t: TransactionView|
        ledger::with_signature(mined, t.signature()) is None && !utxo::has_missing_inputs(t, l.utxos)
            && l.terms_check(t) is Ok
}

/// The orphans that a block leaves.
pub open spec fn stays_orphan(l: LedgerView, mined: Seq<TransactionView>) -> spec_fn(TransactionView) -> bool {
    |t: TransactionView| ledger::with_signature(mined, t.signature()) is None && l.terms_check(t) is Ok
}

/// The pending envelopes that a block leaves.
pub open spec fn stays_sealed(l: LedgerView, included: Seq<BlindedTransactionView>) -> spec_fn(
    BlindedTransactionView,
) -> bool {
    |t: BlindedTransactionView|
        !ledger::commits(included, t.commitment) && l.height() < t.expires_at_height && l.blinded_check(t) is Ok
}

/// The pending reveals that a block leaves.
pub open spec fn stays_unrevealed(l: LedgerView, reveals: Seq<BlindedRevealView>) -> spec_fn(BlindedRevealView) -> bool {
    |r: BlindedRevealView| !block::reveals_commitment(reveals, r.commitment) && l.opened_by(r) is Ok
}

impl LedgerView {
    /// The rounds that a block must serve.
    pub open spec fn owed_rounds(self, b: BlockView) -> Result<u64, Seq<char>> {
        vdf::rounds_for_rank(
            self.vdf_rounds,
            match b.finalizer_mode {
                FinalizerMode::Ticket => b.finalizer_rank,
                FinalizerMode::Recovery => 0,
            },
        )
    }

    /// Place, hash, reward and rounds of the next block.
    pub open spec fn header_check(self, b: BlockView) -> Result<(), Seq<char>> {
        if b.height != self.next_height() {
            Err(
                "expected block height "@ + text::decimal(self.next_height() as nat) + ", got "@ + text::decimal(
                    b.height as nat,
                ),
            )
        } else if b.prev_hash != self.tip().hash {
            Err("block does not extend local tip"@)
        } else if b.computed_hash() != b.hash {
            Err("block hash is invalid"@)
        } else {
            match rewards::reward_of(b.transactions) {
                Err(e) => Err(e),
                Ok(reward) => if b.reward != reward {
                    Err("block reward is invalid"@)
                } else {
                    match self.owed_rounds(b) {
                        Err(e) => Err(e),
                        Ok(rounds) => if b.vdf_rounds != rounds {
                            Err("block VDF rounds are invalid"@)
                        } else {
                            Ok(())
                        },
                    }
                },
            }
        }
    }

    /// The time slot of a finalizer.
    pub open spec fn slot_check(self, b: BlockView) -> Result<(), Seq<char>> {
        match b.finalizer_mode {
            FinalizerMode::Recovery => Ok(()),
            FinalizerMode::Ticket => match proposals::earliest_time(self.tip(), b.finalizer_rank) {
                Err(e) => Err(e),
                Ok(earliest) => if b.timestamp_ms < earliest {
                    Err(
                        "block timestamp is before finalizer rank "@ + text::decimal(b.finalizer_rank as nat)
                            + " time slot "@ + text::decimal(earliest as nat),
                    )
                } else {
                    Ok(())
                },
            },
        }
    }

    /// The time of the next block.
    pub open spec fn time_check(self, b: BlockView, now_ms: u64) -> Result<(), Seq<char>> {
        if b.timestamp_ms <= self.tip().timestamp_ms {
            Err("block timestamp must increase"@)
        } else {
            match self.slot_check(b) {
                Err(e) => Err(e),
                Ok(_) => if b.timestamp_ms <= median_time(self.chain) {
                    Err("block timestamp must exceed median time past"@)
                } else if b.timestamp_ms > now_ms + MAX_BLOCK_TIMESTAMP_FUTURE_DRIFT_MS {
                    Err("block timestamp is too far in the future"@)
                } else {
                    Ok(())
                },
            }
        }
    }

    /// The number of items in a block and its size.
    pub open spec fn limits_check(self, b: BlockView) -> Result<(), Seq<char>> {
        let limit = self.launch_profile.max_block_transactions;
        if b.transactions.len() > limit {
            Err("block has too many transactions"@)
        } else if b.transactions.len() + b.blinded_transactions.len() + b.all_reveals().len() > limit {
            Err("block has too many transaction items"@)
        } else if document::size_of(document::block_doc(b)) > self.launch_profile.max_block_bytes {
            Err("block exceeds max block size"@)
        } else {
            Ok(())
        }
    }

    /// The envelopes of a block.
    pub open spec fn envelopes_check(self, envelopes: Seq<BlindedTransactionView>, height: u64) -> Result<
        (),
        Seq<char>,
    >
        decreases envelopes.len(),
    {
        if envelopes.len() == 0 {
            Ok(())
        } else {
            let t = envelopes.last();
            match self.envelopes_check(envelopes.drop_last(), height) {
                Err(e) => Err(e),
                Ok(_) => if ledger::commits(envelopes.drop_last(), t.commitment) {
                    Err("duplicate blinded transaction in block"@)
                } else {
                    match self.sealed_check(t) {
                        Err(e) => Err(e),
                        Ok(_) => if t.expires_at_height <= height {
                            Err("blinded transaction is expired for block height"@)
                        } else if sorted::lookup(self.active_blinded, t.commitment) is Some {
                            Err("blinded transaction is already active"@)
                        } else if ledger::blinded_in_blocks(self.chain, t.commitment) {
                            Err("blinded transaction is already on chain"@)
                        } else {
                            self.funding_check(t)
                        },
                    }
                },
            }
        }
    }

    /// One reveal of a block.
    pub open spec fn reveal_check(self) -> spec_fn(BlindedRevealView) -> Result<(), Seq<char>> {
        |r: BlindedRevealView|
            if ledger::revealed_in_blocks(self.chain, r.commitment) {
                Err("blinded reveal is already on chain"@)
            } else {
                match self.opened_by(r) {
                    Err(e) => Err(e),
                    Ok(_) => Ok(()),
                }
            }
    }

    /// Whether the finalizer of a block may finalize it.
    pub open spec fn finalizer_check(self, b: BlockView) -> Result<(), Seq<char>> {
        match b.finalizer_mode {
            FinalizerMode::Ticket => match self.finalizer_at(b.height, b.finalizer_rank) {
                None => Err("no selected ticket for block finalizer rank"@),
                Some(ticket) => if ticket.owner != b.miner {
                    Err(
                        "block finalizer "@ + b.miner + " is not selected for rank "@ + text::decimal(
                            b.finalizer_rank as nat,
                        ),
                    )
                } else if !(b.leader_proof matches Some(p) && p.ticket_id == ticket.id) {
                    Err("block does not prove the selected leader ticket"@)
                } else {
                    tickets::leader_proof_check(b, self.tickets)
                },
            },
            FinalizerMode::Recovery => if b.finalizer_rank != 0 {
                Err("recovery block finalizer rank must be 0"@)
            } else if b.leader_proof is Some {
                Err("recovery block must not carry a leader proof"@)
            } else if b.timestamp_ms < self.recovery_time() {
                Err(proposals::recovery_refusal(self.recovery_time()))
            } else {
                proposals::burn_from_check(b.transactions, b.miner)
            },
        }
    }

    /// What a block holds, and who finalized it.
    pub open spec fn content_check(self, b: BlockView) -> Result<(), Seq<char>> {
        match proposals::burn_check(b.transactions) {
            Err(e) => Err(e),
            Ok(_) => match self.bundles_check(b.height, b.prev_hash, b.reveal_bundles) {
                Err(e) => Err(e),
                Ok(_) => match self.envelopes_check(b.blinded_transactions, b.height) {
                    Err(e) => Err(e),
                    Ok(_) => match error::first_refusal(b.all_reveals(), self.reveal_check()) {
                        Err(e) => Err(e),
                        Ok(_) => self.finalizer_check(b),
                    },
                },
            },
        }
    }

    /// The checks on the next block, apart from its delay and its effects.
    pub open spec fn next_block_check(self, b: BlockView, now_ms: u64) -> Result<(), Seq<char>> {
        match self.header_check(b) {
            Err(e) => Err(e),
            Ok(_) => match self.time_check(b, now_ms) {
                Err(e) => Err(e),
                Ok(_) => match self.limits_check(b) {
                    Err(e) => Err(e),
                    Ok(_) => self.content_check(b),
                },
            },
        }
    }

    /// Whether a block is new and passes the checks apart from its delay and its effects.
    pub open spec fn precheck(self, b: BlockView, now_ms: u64) -> Result<bool, Seq<char>> {
        if b.height <= self.height() {
            if self.chain[b.height as int].hash == b.hash {
                Ok(false)
            } else {
                Err("block at height "@ + text::decimal(b.height as nat) + " conflicts with local chain"@)
            }
        } else {
            match self.next_block_check(b, now_ms) {
                Err(e) => Err(e),
                Ok(_) => Ok(true),
            }
        }
    }

    /// The envelopes that expire unopened with a block.
    pub open spec fn lapsed(self, b: BlockView) -> Seq<BlindedTransactionView> {
        envelopes_of(self.active_blinded.filter(lapses(b.all_reveals(), b.height)))
    }

    /// The holdings after the transactions of a block, and once what its envelopes name is locked.
    pub open spec fn after_including(self, b: BlockView) -> Result<HoldingsView, Seq<char>> {
        match after_transactions(self, b.transactions, self.utxos) {
            Err(e) => Err(e),
            Ok(u) => locks::lock_all(b.blinded_transactions, HoldingsView { free: u, locked: self.locked }),
        }
    }

    /// The holdings once what expires with a block is unspent again.
    pub open spec fn after_expiry(self, b: BlockView, h: HoldingsView) -> Result<HoldingsView, Seq<char>> {
        match locks::room_check(h.free, h.locked) {
            Err(e) => Err(e),
            Ok(_) => locks::release_all(self.lapsed(b), h),
        }
    }

    /// The holdings and tickets after a block: its transactions apply, its envelopes lock what they
    /// name, its reveals spend what was locked, its finalizer is paid, and what expired envelopes
    /// held is unspent again.
    pub open spec fn block_effects(self, b: BlockView) -> Result<(HoldingsView, Seq<BurnTicketView>), Seq<char>> {
        match self.after_including(b) {
            Err(e) => Err(e),
            Ok(h) => match after_reveals(self, b.all_reveals(), b.miner, b.reveal_bundles.len(), h) {
                Err(e) => Err(e),
                Ok((g, revealed)) => match tickets::tickets_after(b, self.tickets) {
                    Err(e) => Err(e),
                    Ok(kept) => match rewards::with_reward(g.free, b) {
                        Err(e) => Err(e),
                        Ok(w) => match self.after_expiry(b, HoldingsView { free: w, locked: g.locked }) {
                            Err(e) => Err(e),
                            Ok(f) => match tickets::created_tickets(b.height, b.transactions, self.launch_profile) {
                                Err(e) => Err(e),
                                Ok(created) => match tickets::created_tickets(
                                    b.height,
                                    revealed,
                                    self.launch_profile,
                                ) {
                                    Err(e) => Err(e),
                                    Ok(more) => Ok((f, kept + created + more)),
                                },
                            },
                        },
                    },
                },
            },
        }
    }

    /// The ledger with a block on top, before what waits is looked at again.
    pub open spec fn stacked(self, b: BlockView, h: HoldingsView, held: Seq<BurnTicketView>) -> LedgerView {
        LedgerView {
            chain: self.chain.push(b),
            utxos: h.free,
            locked: h.locked,
            tickets: held,
            active_blinded: replay::including(
                self.active_blinded.filter(stays_active(b.all_reveals(), b.height)),
                b.blinded_transactions,
                b.height,
                b.miner,
            ),
            ..self
        }
    }

    /// The ledger without what a block on top settled or made stale.
    pub open spec fn swept(self, b: BlockView) -> LedgerView {
        LedgerView {
            pending: self.pending.filter(stays_pending(self, b.transactions)),
            orphans: self.orphans.filter(stays_orphan(self, b.transactions)),
            pending_blinded: self.pending_blinded.filter(stays_sealed(self, b.blinded_transactions)),
            pending_reveals: self.pending_reveals.filter(stays_unrevealed(self, b.all_reveals())),
            ..self
        }
    }

    /// What a block does that passed the checks.
    pub open spec fn with_block(self, b: BlockView) -> (LedgerView, Result<(), Seq<char>>) {
        match self.block_effects(b) {
            Err(e) => (self, Err(e)),
            Ok((u, held)) => {
                let (after, r) = self.stacked(b, u, held).swept(b).promoted();
                match r {
                    Err(e) => (after, Err(e)),
                    Ok(_) => (
                        LedgerView { vdf_rounds: next_rounds(after.chain, after.vdf_rounds), ..after },
                        Ok(()),
                    ),
                }
            },
        }
    }

    /// What handing in a block does.
    #[verifier::opaque]
    pub open spec fn block_applied(self, b: BlockView, verify: bool, now_ms: u64) -> (
        LedgerView,
        Result<(), Seq<char>>,
    ) {
        match self.precheck(b, now_ms) {
            Err(e) => (self, Err(e)),
            Ok(false) => (self, Ok(())),
            Ok(true) => if verify && !vdf::solution_verifies(b.vdf_seed(), b.vdf_rounds, b.vdf_output) {
                (self, Err("block VDF output is invalid"@))
            } else {
                self.with_block(b)
            },
        }
    }
}

/// A block that is applied again changes nothing and is no error.
pub proof fn known_block_is_accepted(l: LedgerView, b: BlockView, verify: bool, now_ms: u64)
    requires
        l.valid(),
        0 <= b.height < l.chain.len(),
        l.chain[b.height as int].hash == b.hash,
    ensures
        l.block_applied(b, verify, now_ms) == (l, Ok::<(), Seq<char>>(())),
{
    reveal(LedgerView::block_applied);
}

/// A block either leaves the chain as it was or comes on top of it: one higher, on the hash of the
/// old tip, at a later time and under its own hash. What was on the chain stays.
pub proof fn block_extends_or_changes_nothing(l: LedgerView, b: BlockView, verify: bool, now_ms: u64)
    requires
        l.valid(),
        l.chain.len() <= u64::MAX,
    ensures
        ({
            let (after, r) = l.block_applied(b, verify, now_ms);
            ||| after == l
            ||| {
                &&& after.chain == l.chain.push(b)
                &&& after.height() == l.height() + 1
                &&& b.prev_hash == l.tip().hash
                &&& b.timestamp_ms > l.tip().timestamp_ms
                &&& b.hash == b.computed_hash()
                &&& rewards::reward_of(b.transactions) == Ok::<u64, Seq<char>>(b.reward)
                &&& after.genesis_allocations == l.genesis_allocations
                &&& after.launch_profile == l.launch_profile
                &&& after.initial_vdf_rounds == l.initial_vdf_rounds
            }
        }),
{
    reveal(LedgerView::block_applied);
    if let Ok((u, held)) = l.block_effects(b) {
        mempool::promotion_only_moves(l.stacked(b, u, held).swept(b));
        assert(l.stacked(b, u, held).chain.last() == b);
    }
}

/// A refused block changes nothing. The one exception is a block that passed every check and is on
/// the chain when moving orphans to the pending transactions fails, because what waits would
/// overflow a balance.
pub proof fn refused_block_changes_nothing(l: LedgerView, b: BlockView, verify: bool, now_ms: u64)
    requires
        l.block_applied(b, verify, now_ms).1 is Err,
    ensures
        l.block_applied(b, verify, now_ms).0 == l || {
            &&& l.next_block_check(b, now_ms) is Ok
            &&& verify ==> vdf::solution_verifies(b.vdf_seed(), b.vdf_rounds, b.vdf_output)
            &&& l.block_effects(b) matches Ok((h, held))
            &&& l.stacked(b, h, held).swept(b).promoted() == l.block_applied(b, verify, now_ms)
            &&& l.block_applied(b, verify, now_ms).0.chain == l.chain.push(b)
        },
{
    reveal(LedgerView::block_applied);
    if let Ok((h, held)) = l.block_effects(b) {
        mempool::promotion_only_moves(l.stacked(b, h, held).swept(b));
    }
}

/// A block whose delay was not served is refused, and the ledger stays as it was.
pub proof fn unserved_delay_is_refused(l: LedgerView, b: BlockView, now_ms: u64)
    requires
        l.valid(),
        b.height == l.next_height(),
        b.height > l.height(),
        !vdf::solution_verifies(b.vdf_seed(), b.vdf_rounds, b.vdf_output),
    ensures
        l.block_applied(b, true, now_ms).0 == l,
        l.block_applied(b, true, now_ms).1 is Err,
{
    reveal(LedgerView::block_applied);
}

proof fn after_transactions_stops(l: LedgerView, transactions: Seq<TransactionView>, u: UtxosView, n: int)
    requires
        0 <= n <= transactions.len(),
        after_transactions(l, transactions.take(n), u) is Err,
    ensures
        after_transactions(l, transactions, u) == after_transactions(l, transactions.take(n), u),
    decreases transactions.len(),
{
    if n < transactions.len() {
        assert(transactions.drop_last().take(n) =~= transactions.take(n));
        after_transactions_stops(l, transactions.drop_last(), u, n);
    } else {
        model::take_all(transactions);
    }
}

proof fn after_reveals_stops(
    l: LedgerView,
    reveals: Seq<BlindedRevealView>,
    miner: Seq<char>,
    bundles: nat,
    u: HoldingsView,
    n: int,
)
    requires
        0 <= n <= reveals.len(),
        after_reveals(l, reveals.take(n), miner, bundles, u) is Err,
    ensures
        after_reveals(l, reveals, miner, bundles, u) == after_reveals(l, reveals.take(n), miner, bundles, u),
    decreases reveals.len(),
{
    if n < reveals.len() {
        assert(reveals.drop_last().take(n) =~= reveals.take(n));
        after_reveals_stops(l, reveals.drop_last(), miner, bundles, u, n);
    } else {
        model::take_all(reveals);
    }
}

proof fn after_reveals_step(
    l: LedgerView,
    reveals: Seq<BlindedRevealView>,
    miner: Seq<char>,
    bundles: nat,
    u: HoldingsView,
    n: int,
)
    requires
        0 <= n < reveals.len(),
        after_reveals(l, reveals.take(n), miner, bundles, u) is Ok,
    ensures
        ({
            let (v, earlier) = after_reveals(l, reveals.take(n), miner, bundles, u)->Ok_0;
            match after_reveal(l, reveals[n], miner, bundles, v) {
                Err(e) => after_reveals(l, reveals, miner, bundles, u) == Err::<
                    (HoldingsView, Seq<TransactionView>),
                    Seq<char>,
                >(e),
                Ok((w, t)) => after_reveals(l, reveals.take(n + 1), miner, bundles, u) == Ok::<
                    (HoldingsView, Seq<TransactionView>),
                    Seq<char>,
                >((w, earlier.push(t))),
            }
        }),
{
    assert(reveals.take(n + 1).drop_last() =~= reveals.take(n));
    assert(reveals.take(n + 1).last() == reveals[n]);
    if after_reveals(l, reveals.take(n + 1), miner, bundles, u) is Err {
        after_reveals_stops(l, reveals, miner, bundles, u, n + 1);
    }
}

proof fn envelopes_check_stops(l: LedgerView, envelopes: Seq<BlindedTransactionView>, height: u64, n: int)
    requires
        0 <= n <= envelopes.len(),
        l.envelopes_check(envelopes.take(n), height) is Err,
    ensures
        l.envelopes_check(envelopes, height) == l.envelopes_check(envelopes.take(n), height),
    decreases envelopes.len(),
{
    if n < envelopes.len() {
        assert(envelopes.drop_last().take(n) =~= envelopes.take(n));
        envelopes_check_stops(l, envelopes.drop_last(), height, n);
    } else {
        model::take_all(envelopes);
    }
}

/// The transactions of a block keep the bound on balances.
pub proof fn transactions_keep_balances_fitting(l: LedgerView, transactions: Seq<TransactionView>, u: UtxosView)
    requires
        sorted::increasing::<OutPoint, TxOutputView>(u),
        utxo::balances_fit(u),
        locks::fit_together(u, l.locked),
    ensures
        after_transactions(l, transactions, u) matches Ok(v) ==> sorted::increasing::<OutPoint, TxOutputView>(v)
            && utxo::balances_fit(v) && locks::fit_together(v, l.locked),
    decreases transactions.len(),
{
    if transactions.len() > 0 {
        transactions_keep_balances_fitting(l, transactions.drop_last(), u);
        if let Ok(v) = after_transactions(l, transactions.drop_last(), u) {
            utxo::applying_keeps_balances_fitting(transactions.last(), v);
            locks::room_means_fits(utxo::applied(transactions.last(), v).0, l.locked);
        }
    }
}

proof fn reveal_keeps_balances_fitting(
    l: LedgerView,
    r: BlindedRevealView,
    miner: Seq<char>,
    bundles: nat,
    h: HoldingsView,
)
    requires
        h.valid(),
    ensures
        after_reveal(l, r, miner, bundles, h) matches Ok(s) ==> s.0.valid(),
{
    reveal(after_reveal);
    if let Ok((f, t)) = after_reveal(l, r, miner, bundles, h) {
        let active = sorted::lookup(l.active_blinded, r.commitment)->0;
        locks::releasing_moves_money(t.inputs(), h);
        let g = locks::release(t.inputs(), h)->Ok_0;
        utxo::applying_keeps_balances_fitting(t, g.free);
        rewards::blinded_fees_keep_balances_fitting(utxo::applied(t, g.free).0, active, miner, t.fee(), bundles);
        locks::room_means_fits(f.free, f.locked);
    }
}

/// The reveals of a block keep the bound on balances.
pub proof fn reveals_keep_balances_fitting(
    l: LedgerView,
    reveals: Seq<BlindedRevealView>,
    miner: Seq<char>,
    bundles: nat,
    h: HoldingsView,
)
    requires
        h.valid(),
    ensures
        after_reveals(l, reveals, miner, bundles, h) matches Ok(s) ==> s.0.valid(),
    decreases reveals.len(),
{
    if reveals.len() > 0 {
        reveals_keep_balances_fitting(l, reveals.drop_last(), miner, bundles, h);
        if let Ok((g, earlier)) = after_reveals(l, reveals.drop_last(), miner, bundles, h) {
            reveal_keeps_balances_fitting(l, reveals.last(), miner, bundles, g);
        }
    }
}

/// The outputs after a block keep the bound on balances.
pub proof fn block_keeps_balances_fitting(l: LedgerView, b: BlockView)
    requires
        l.valid(),
    ensures
        l.block_effects(b) matches Ok(s) ==> s.0.valid(),
{
    transactions_keep_balances_fitting(l, b.transactions, l.utxos);
    if let Ok(u) = after_transactions(l, b.transactions, l.utxos) {
        let start = HoldingsView { free: u, locked: l.locked };
        locks::including_moves_money(b.blinded_transactions, start);
        if let Ok(h) = l.after_including(b) {
            reveals_keep_balances_fitting(l, b.all_reveals(), b.miner, b.reveal_bundles.len(), h);
            if let Ok((g, revealed)) = after_reveals(l, b.all_reveals(), b.miner, b.reveal_bundles.len(), h) {
                if let Ok(w) = rewards::with_reward(g.free, b) {
                    rewards::reward_keeps_balances_fitting(g.free, b);
                    locks::room_means_fits(w, g.locked);
                    if locks::room_check(w, g.locked) is Ok {
                        locks::expiring_moves_money(l.lapsed(b), HoldingsView { free: w, locked: g.locked });
                    }
                }
            }
        }
    }
}

proof fn filter_shrinks<T>(s: Seq<T>, p: spec_fn(T) -> bool)
    ensures
        s.filter(p).len() <= s.len(),
{
    broadcast use vstd::seq_lib::group_filter_ensures;

}

/// The mean of the observed times is within the bounds that a retarget takes.
proof fn observed_times_bound(chain: Seq<BlockView>, first: int, end: int)
    ensures
        observed_times(chain, first, end).1 <= if end > first { end - first } else { 0 },
        observed_times(chain, first, end).0 <= observed_times(chain, first, end).1 * 1_200_000,
    decreases end - first,
{
    if end > first {
        observed_times_bound(chain, first, end - 1);
        let (sum, count) = observed_times(chain, first, end - 1);
        assert((count + 1) * 1_200_000 == count * 1_200_000 + 1_200_000);
    }
}

/// The time between two blocks that counts for a retarget.
pub fn vdf_retarget_observed_block_ms(parent: &Block, child: &Block) -> (r: Option<u64>)
    requires
        child.finalizer_mode == FinalizerMode::Ticket && child.finalizer_rank == 0 ==> parent.timestamp_ms
            <= child.timestamp_ms,
    ensures
        match r {
            Some(time) => observed_time(parent.deep_view(), child.deep_view()) == Some(time as nat),
            None => observed_time(parent.deep_view(), child.deep_view()) is None,
        },
{
    let first = match child.finalizer_mode {
        FinalizerMode::Ticket => child.finalizer_rank == 0,
        FinalizerMode::Recovery => false,
    };
    if !first {
        return None;
    }
    Some(vdf::clamped_vdf_retarget_observed_block_ms(child.timestamp_ms - parent.timestamp_ms))
}

fn signed_earlier(transactions: &Vec<Transaction>, n: usize) -> (r: bool)
    requires
        n < transactions.len(),
    ensures
        r == (ledger::with_signature(
            transactions.deep_view().take(n as int),
            transactions.deep_view()[n as int].signature(),
        ) is Some),
{
    let ghost v = transactions.deep_view();
    let ghost signature = v[n as int].signature();
    let mut i: usize = 0;
    proof {
        model::take_all(v);
    }
    while i < n
        invariant
            i <= n < transactions.len(),
            v == transactions.deep_view(),
            signature == v[n as int].signature(),
            ledger::with_signature(v.take(i as int), signature) is None,
        decreases n - i,
    {
        proof {
            assert(v.take(i + 1).drop_last() =~= v.take(i as int));
            assert(v.take(i + 1).last() == v[i as int]);
        }
        if text::text_eq(transactions[i].signature(), transactions[n].signature()) {
            proof {
                found_in_prefix(v, signature, i + 1, n as int);
            }
            return true;
        }
        i = i + 1;
    }
    false
}

proof fn found_in_prefix(transactions: Seq<TransactionView>, signature: Seq<char>, n: int, m: int)
    requires
        0 <= n <= m <= transactions.len(),
        ledger::with_signature(transactions.take(n), signature) is Some,
    ensures
        ledger::with_signature(transactions.take(m), signature) is Some,
    decreases m - n,
{
    if n < m {
        found_in_prefix(transactions, signature, n, m - 1);
        assert(transactions.take(m).drop_last() =~= transactions.take(m - 1));
    }
}

fn committed_earlier(envelopes: &Vec<BlindedTransaction>, n: usize) -> (r: bool)
    requires
        n < envelopes.len(),
    ensures
        r == ledger::commits(envelopes.deep_view().take(n as int), envelopes.deep_view()[n as int].commitment),
{
    let ghost v = envelopes.deep_view();
    let mut i: usize = 0;
    while i < n
        invariant
            i <= n < envelopes.len(),
            v == envelopes.deep_view(),
            forall|j: int| 0 <= j < i ==> (#[trigger] v[j]).commitment != v[n as int].commitment,
        decreases n - i,
    {
        if envelopes[i].commitment.same(&envelopes[n].commitment) {
            assert(v.take(n as int)[i as int].commitment == v[n as int].commitment);
            return true;
        }
        i = i + 1;
    }
    assert(!ledger::commits(v.take(n as int), v[n as int].commitment)) by {
        if ledger::commits(v.take(n as int), v[n as int].commitment) {
            let j = choose|j: int|
                0 <= j < v.take(n as int).len() && (#[trigger] v.take(n as int)[j]).commitment
                    == v[n as int].commitment;
            assert(v[j].commitment == v[n as int].commitment);
        }
    }
    false
}

impl Ledger {
    /// The median time of the last blocks.
    pub fn median_time_past(&self) -> (r: u64)
        requires
            self.wf(),
        ensures
            r == median_time(self.deep_view().chain),
    {
        let n: usize = if self.chain.len() < BLOCK_MEDIAN_TIME_PAST_WINDOW {
            self.chain.len()
        } else {
            BLOCK_MEDIAN_TIME_PAST_WINDOW
        };
        self.chain[self.chain.len() - n + n / 2].timestamp_ms
    }

    /// The rounds for the block after the tip.
    pub fn next_vdf_rounds_after_tip(&self) -> (r: u64)
        requires
            self.wf(),
        ensures
            r == next_rounds(self.deep_view().chain, self.deep_view().vdf_rounds),
    {
        let ghost c = self.deep_view().chain;
        let n: usize = self.chain.len();
        let tip = self.tip();
        if tip.height < 2 {
            return self.vdf_rounds;
        }
        let first: usize = if n > VDF_RETARGET_WINDOW_BLOCKS + 2 {
            n - VDF_RETARGET_WINDOW_BLOCKS
        } else {
            2
        };
        let mut total: u128 = 0;
        let mut count: u128 = 0;
        let mut i: usize = first;
        while i < n
            invariant
                2 <= first <= i <= n,
                n == self.chain.len(),
                self.wf(),
                c == self.deep_view().chain,
                (total as nat, count as nat) == observed_times(c, first as int, i as int),
            decreases n - i,
        {
            proof {
                observed_times_bound(c, first as int, i as int);
                assert(c[i - 1].timestamp_ms < c[i as int].timestamp_ms);
            }
            if let Some(time) = vdf_retarget_observed_block_ms(&self.chain[i - 1], &self.chain[i]) {
                total = total + time as u128;
                count = count + 1;
            }
            i = i + 1;
        }
        if count == 0 {
            return self.vdf_rounds;
        }
        proof {
            observed_times_bound(c, first as int, n as int);
            assert(total / count <= 1_200_000) by (nonlinear_arith)
                requires
                    total <= count * 1_200_000,
                    count > 0,
            ;
            assert(c[n - 1].vdf_rounds <= vdf::MAX_VDF_ROUNDS);
        }
        let mean: u64 = (total / count) as u64;
        let base: u64 = vdf::base_vdf_rounds_for_finalizer_rank(tip.vdf_rounds, tip.finalizer_rank);
        vdf::retarget_vdf_rounds(base, mean)
    }

    fn expected_vdf_rounds_for_block(&self, block: &Block) -> (r: Result<u64, Error>)
        ensures
            error::outcome(r) == self.deep_view().owed_rounds(block.deep_view()),
    {
        match block.finalizer_mode {
            FinalizerMode::Ticket => vdf::vdf_rounds_for_finalizer_rank(self.vdf_rounds, block.finalizer_rank),
            FinalizerMode::Recovery => vdf::vdf_rounds_for_finalizer_rank(self.vdf_rounds, 0),
        }
    }

    fn validate_header(&self, block: &Block) -> (r: Result<(), Error>)
        requires
            self.wf(),
        ensures
            error::outcome(r) == self.deep_view().header_check(block.deep_view()),
    {
        let expected: u64 = self.height() + 1;
        if block.height != expected {
            let mut message = text::text("expected block height ");
            text::push_decimal(&mut message, expected as u128);
            message.append(", got ");
            text::push_decimal(&mut message, block.height as u128);
            return Err(Error::of(message));
        }
        if !block.prev_hash.same(&self.tip().hash) {
            return Err(Error::new("block does not extend local tip"));
        }
        if !block.compute_hash().same(&block.hash) {
            return Err(Error::new("block hash is invalid"));
        }
        if block.reward != rewards::fee_reward(&block.transactions)? {
            return Err(Error::new("block reward is invalid"));
        }
        if block.vdf_rounds != self.expected_vdf_rounds_for_block(block)? {
            return Err(Error::new("block VDF rounds are invalid"));
        }
        Ok(())
    }

    fn validate_slot(&self, block: &Block) -> (r: Result<(), Error>)
        requires
            self.wf(),
        ensures
            error::outcome(r) == self.deep_view().slot_check(block.deep_view()),
    {
        match block.finalizer_mode {
            FinalizerMode::Recovery => Ok(()),
            FinalizerMode::Ticket => {
                let earliest: u64 = proposals::ticket_block_min_timestamp(self.tip(), block.finalizer_rank)?;
                if block.timestamp_ms < earliest {
                    let mut message = text::text("block timestamp is before finalizer rank ");
                    text::push_decimal(&mut message, block.finalizer_rank as u128);
                    message.append(" time slot ");
                    text::push_decimal(&mut message, earliest as u128);
                    return Err(Error::of(message));
                }
                Ok(())
            },
        }
    }

    fn validate_time(&self, block: &Block, now_ms: u64) -> (r: Result<(), Error>)
        requires
            self.wf(),
        ensures
            error::outcome(r) == self.deep_view().time_check(block.deep_view(), now_ms),
    {
        if block.timestamp_ms <= self.tip().timestamp_ms {
            return Err(Error::new("block timestamp must increase"));
        }
        self.validate_slot(block)?;
        if block.timestamp_ms <= self.median_time_past() {
            return Err(Error::new("block timestamp must exceed median time past"));
        }
        if block.timestamp_ms > now_ms.saturating_add(MAX_BLOCK_TIMESTAMP_FUTURE_DRIFT_MS) {
            return Err(Error::new("block timestamp is too far in the future"));
        }
        Ok(())
    }

    fn validate_limits(&self, block: &Block) -> (r: Result<(), Error>)
        ensures
            error::outcome(r) == self.deep_view().limits_check(block.deep_view()),
    {
        if block.transactions.len() > self.launch_profile.max_block_transactions {
            return Err(Error::new("block has too many transactions"));
        }
        let reveals = block.all_blinded_reveals();
        assert(model::views(reveals@).len() == reveals.len());
        let items: u128 = block.transactions.len() as u128 + block.blinded_transactions.len() as u128
            + reveals.len() as u128;
        if items > self.launch_profile.max_block_transactions as u128 {
            return Err(Error::new("block has too many transaction items"));
        }
        if block.serialized_size_bytes()? > self.launch_profile.max_block_bytes {
            return Err(Error::new("block exceeds max block size"));
        }
        Ok(())
    }

    fn validate_envelopes(&self, envelopes: &Vec<BlindedTransaction>, height: u64) -> (r: Result<(), Error>)
        requires
            self.wf(),
        ensures
            error::outcome(r) == self.deep_view().envelopes_check(envelopes.deep_view(), height),
    {
        let ghost v = envelopes.deep_view();
        let ghost l = self.deep_view();
        let mut i: usize = 0;
        proof {
            model::take_all(v);
        }
        while i < envelopes.len()
            invariant
                i <= envelopes.len(),
                self.wf(),
                v == envelopes.deep_view(),
                l == self.deep_view(),
                l.envelopes_check(v.take(i as int), height) is Ok,
            decreases envelopes.len() - i,
        {
            proof {
                assert(v.take(i + 1).drop_last() =~= v.take(i as int));
                assert(v.take(i + 1).last() == v[i as int]);
                if l.envelopes_check(v.take(i + 1), height) is Err {
                    envelopes_check_stops(l, v, height, i + 1);
                }
            }
            let envelope = &envelopes[i];
            if committed_earlier(envelopes, i) {
                return Err(Error::new("duplicate blinded transaction in block"));
            }
            self.validate_sealed_form(envelope)?;
            if envelope.expires_at_height <= height {
                return Err(Error::new("blinded transaction is expired for block height"));
            }
            if self.active_blinded.contains_key(&envelope.commitment) {
                return Err(Error::new("blinded transaction is already active"));
            }
            if self.blinded_on_chain(envelope.commitment.as_str()) {
                return Err(Error::new("blinded transaction is already on chain"));
            }
            self.validate_blinded_funding(envelope)?;
            i = i + 1;
        }
        proof {
            model::take_all(v);
        }
        Ok(())
    }

    fn validate_reveal(&self, reveal: &BlindedReveal) -> (r: Result<(), Error>)
        requires
            self.wf(),
        ensures
            error::outcome(r) == (self.deep_view().reveal_check())(reveal.deep_view()),
    {
        if self.reveal_on_chain(reveal.commitment.as_str()) {
            return Err(Error::new("blinded reveal is already on chain"));
        }
        let _ = self.pending_reveal_transaction(reveal)?;
        Ok(())
    }

    fn validate_reveals(&self, reveals: &Vec<BlindedReveal>) -> (r: Result<(), Error>)
        requires
            self.wf(),
        ensures
            error::outcome(r) == error::first_refusal(reveals.deep_view(), self.deep_view().reveal_check()),
    {
        let ghost v = reveals.deep_view();
        let ghost check = self.deep_view().reveal_check();
        let mut i: usize = 0;
        proof {
            model::take_all(v);
        }
        while i < reveals.len()
            invariant
                i <= reveals.len(),
                self.wf(),
                v == reveals.deep_view(),
                check == self.deep_view().reveal_check(),
                error::first_refusal(v.take(i as int), check) is Ok,
            decreases reveals.len() - i,
        {
            proof {
                error::refusal_step(v, check, i as int);
            }
            self.validate_reveal(&reveals[i])?;
            i = i + 1;
        }
        proof {
            model::take_all(v);
        }
        Ok(())
    }

    fn validate_finalizer(&self, block: &Block) -> (r: Result<(), Error>)
        requires
            self.wf(),
        ensures
            error::outcome(r) == self.deep_view().finalizer_check(block.deep_view()),
    {
        match block.finalizer_mode {
            FinalizerMode::Ticket => {
                let ticket = match self.ticket_for_finalizer_rank(block.height, block.finalizer_rank) {
                    Some(ticket) => ticket,
                    None => return Err(Error::new("no selected ticket for block finalizer rank")),
                };
                if !ticket.owner.same(&block.miner) {
                    let mut message = text::text("block finalizer ");
                    message.append(block.miner.as_str());
                    message.append(" is not selected for rank ");
                    text::push_decimal(&mut message, block.finalizer_rank as u128);
                    return Err(Error::of(message));
                }
                let proved = match &block.leader_proof {
                    Some(leader) => leader.ticket_id.same(&ticket.id),
                    None => false,
                };
                if !proved {
                    return Err(Error::new("block does not prove the selected leader ticket"));
                }
                tickets::verify_leader_proof(block, &self.tickets)
            },
            FinalizerMode::Recovery => {
                if block.finalizer_rank != 0 {
                    return Err(Error::new("recovery block finalizer rank must be 0"));
                }
                if block.leader_proof.is_some() {
                    return Err(Error::new("recovery block must not carry a leader proof"));
                }
                let earliest: u64 = self.recovery_block_min_timestamp();
                if block.timestamp_ms < earliest {
                    return Err(proposals::recovery_error(earliest));
                }
                proposals::ensure_block_has_burn_from(&block.transactions, block.miner.as_str())
            },
        }
    }

    fn validate_content(&self, block: &Block) -> (r: Result<(), Error>)
        requires
            self.wf(),
        ensures
            error::outcome(r) == self.deep_view().content_check(block.deep_view()),
    {
        proposals::ensure_block_has_burn(&block.transactions)?;
        let _ = self.validate_reveal_bundles_for_block(
            block.height,
            block.prev_hash.as_str(),
            block.reveal_bundles.duplicate(),
        )?;
        self.validate_envelopes(&block.blinded_transactions, block.height)?;
        let reveals = block.owned_reveals();
        self.validate_reveals(&reveals)?;
        self.validate_finalizer(block)
    }

    /// Whether a block is new and passes the checks apart from its delay and its effects.
    pub fn precheck_block_without_vdf_at(&self, block: &Block, now_ms: u64) -> (r: Result<bool, Error>)
        requires
            self.wf(),
        ensures
            error::outcome(r) == self.deep_view().precheck(block.deep_view(), now_ms),
    {
        if block.height <= self.height() {
            let existing = &self.chain[block.height as usize];
            assert(existing.deep_view() == self.deep_view().chain[block.height as int]);
            if existing.hash.same(&block.hash) {
                return Ok(false);
            }
            let mut message = text::text("block at height ");
            text::push_decimal(&mut message, block.height as u128);
            message.append(" conflicts with local chain");
            return Err(Error::of(message));
        }
        self.validate_header(block)?;
        self.validate_time(block, now_ms)?;
        self.validate_limits(block)?;
        self.validate_content(block)?;
        Ok(true)
    }

    /// Whether the delay of a block is to be checked.
    pub fn block_requires_vdf_verification_at(&self, block: &Block, now_ms: u64) -> (r: Result<bool, Error>)
        requires
            self.wf(),
        ensures
            error::outcome(r) == self.deep_view().precheck(block.deep_view(), now_ms),
    {
        self.precheck_block_without_vdf_at(block, now_ms)
    }

    fn apply_block_transactions(&self, transactions: &Vec<Transaction>) -> (r: Result<Utxos, Error>)
        requires
            self.wf(),
        ensures
            error::outcome(r) == after_transactions(
                self.deep_view(),
                transactions.deep_view(),
                self.deep_view().utxos,
            ),
            r matches Ok(u) ==> u.wf(),
    {
        let ghost v = transactions.deep_view();
        let ghost l = self.deep_view();
        let mut utxos = self.utxos.duplicate();
        let mut i: usize = 0;
        proof {
            model::take_all(v);
            self.utxos.wf_is_increasing();
            utxos.wf_is_increasing();
        }
        while i < transactions.len()
            invariant
                i <= transactions.len(),
                self.wf(),
                utxos.wf(),
                v == transactions.deep_view(),
                l == self.deep_view(),
                after_transactions(l, v.take(i as int), l.utxos) == Ok::<UtxosView, Seq<char>>(utxos.deep_view()),
            decreases transactions.len() - i,
        {
            proof {
                assert(v.take(i + 1).drop_last() =~= v.take(i as int));
                assert(v.take(i + 1).last() == v[i as int]);
                if after_transactions(l, v.take(i + 1), l.utxos) is Err {
                    after_transactions_stops(l, v, l.utxos, i + 1);
                }
            }
            if signed_earlier(transactions, i) {
                return Err(Error::new("duplicate transaction in block"));
            }
            self.validate_transaction_terms(&transactions[i])?;
            proof {
                utxos.wf_is_increasing();
                transactions_keep_balances_fitting(l, v.take(i as int), l.utxos);
                utxo::applying_keeps_balances_fitting(v[i as int], utxos.deep_view());
            }
            utxo::apply_transaction(&transactions[i], &mut utxos)?;
            locks::ensure_room(&utxos, &self.locked)?;
            i = i + 1;
        }
        proof {
            model::take_all(v);
        }
        Ok(utxos)
    }

    fn apply_block_reveal(&self, reveal: &BlindedReveal, miner: &str, bundles: usize, holdings: Holdings) -> (r: Result<
        (Holdings, Transaction),
        Error,
    >)
        requires
            self.wf(),
            holdings.wf(),
            holdings.deep_view().valid(),
        ensures
            match r {
                Ok(s) => s.0.wf() && after_reveal(
                    self.deep_view(),
                    reveal.deep_view(),
                    miner@,
                    bundles as nat,
                    holdings.deep_view(),
                ) == Ok::<(HoldingsView, TransactionView), Seq<char>>((s.0.deep_view(), s.1.deep_view())),
                Err(e) => after_reveal(
                    self.deep_view(),
                    reveal.deep_view(),
                    miner@,
                    bundles as nat,
                    holdings.deep_view(),
                ) == Err::<(HoldingsView, TransactionView), Seq<char>>(e.deep_view()),
            },
    {
        proof {
            reveal(after_reveal);
        }
        let mut now = holdings;
        let active = match self.active_blinded.get(&reveal.commitment) {
            Some(active) => active,
            None => return Err(
                Error::new("blinded reveal does not reference an active blinded transaction"),
            ),
        };
        let transaction = self.decrypt_active_blinded(active, reveal)?;
        let inputs = transaction.inputs();
        let ghost t = transaction.deep_view();
        proof {
            locks::releasing_moves_money(t.inputs(), holdings.deep_view());
        }
        locks::release_inputs(&inputs, &mut now.free, &mut now.locked)?;
        let ghost g = now.deep_view();
        proof {
            utxo::applying_keeps_balances_fitting(t, g.free);
        }
        utxo::apply_transaction(&transaction, &mut now.free)?;
        let ghost v = now.free.deep_view();
        rewards::credit_blinded_fee_outputs(&mut now.free, active, miner, &transaction, bundles)?;
        proof {
            rewards::blinded_fees_keep_balances_fitting(v, active.deep_view(), miner@, t.fee(), bundles as nat);
        }
        locks::ensure_room(&now.free, &now.locked)?;
        Ok((now, transaction))
    }

    fn apply_block_reveals(&self, reveals: &Vec<BlindedReveal>, miner: &str, bundles: usize, holdings: Holdings) -> (r: Result<
        (Holdings, Vec<Transaction>),
        Error,
    >)
        requires
            self.wf(),
            holdings.wf(),
            holdings.deep_view().valid(),
        ensures
            match r {
                Ok(s) => s.0.wf() && after_reveals(
                    self.deep_view(),
                    reveals.deep_view(),
                    miner@,
                    bundles as nat,
                    holdings.deep_view(),
                ) == Ok::<(HoldingsView, Seq<TransactionView>), Seq<char>>((s.0.deep_view(), s.1.deep_view())),
                Err(e) => after_reveals(
                    self.deep_view(),
                    reveals.deep_view(),
                    miner@,
                    bundles as nat,
                    holdings.deep_view(),
                ) == Err::<(HoldingsView, Seq<TransactionView>), Seq<char>>(e.deep_view()),
            },
    {
        let ghost l = self.deep_view();
        let ghost v = reveals.deep_view();
        let ghost u = holdings.deep_view();
        let mut now = holdings;
        let mut opened: Vec<Transaction> = Vec::new();
        let mut i: usize = 0;
        proof {
            model::take_all(v);
            assert(opened.deep_view() =~= Seq::<TransactionView>::empty());
        }
        while i < reveals.len()
            invariant
                i <= reveals.len(),
                self.wf(),
                now.wf(),
                l == self.deep_view(),
                v == reveals.deep_view(),
                u == holdings.deep_view(),
                u.valid(),
                after_reveals(l, v.take(i as int), miner@, bundles as nat, u) == Ok::<
                    (HoldingsView, Seq<TransactionView>),
                    Seq<char>,
                >((now.deep_view(), opened.deep_view())),
            decreases reveals.len() - i,
        {
            let ghost before = opened.deep_view();
            proof {
                after_reveals_step(l, v, miner@, bundles as nat, u, i as int);
                reveals_keep_balances_fitting(l, v.take(i as int), miner@, bundles as nat, u);
            }
            let (after, transaction) = self.apply_block_reveal(&reveals[i], miner, bundles, now)?;
            let ghost added = transaction.deep_view();
            now = after;
            opened.push(transaction);
            assert(opened.deep_view() =~= before.push(added));
            i = i + 1;
        }
        proof {
            model::take_all(v);
        }
        Ok((now, opened))
    }

    fn effects_of_block(&self, block: &Block) -> (r: Result<(Holdings, Vec<BurnTicket>), Error>)
        requires
            self.wf(),
        ensures
            match r {
                Ok(s) => s.0.wf() && self.deep_view().block_effects(block.deep_view()) == Ok::<
                    (HoldingsView, Seq<BurnTicketView>),
                    Seq<char>,
                >((s.0.deep_view(), s.1.deep_view())),
                Err(e) => self.deep_view().block_effects(block.deep_view()) == Err::<
                    (HoldingsView, Seq<BurnTicketView>),
                    Seq<char>,
                >(e.deep_view()),
            },
    {
        let reveals = block.owned_reveals();
        let free = self.apply_block_transactions(&block.transactions)?;
        let locked = self.locked.duplicate();
        proof {
            self.locked.wf_is_increasing();
            locked.wf_is_increasing();
        }
        let mut start = Holdings { free, locked };
        proof {
            transactions_keep_balances_fitting(self.deep_view(), block.deep_view().transactions, self.deep_view().utxos);
            locks::including_moves_money(block.deep_view().blinded_transactions, start.deep_view());
        }
        locks::lock_envelopes(&block.blinded_transactions, &mut start.free, &mut start.locked)?;
        let (mut now, revealed) = self.apply_block_reveals(
            &reveals,
            block.miner.as_str(),
            block.included_reveal_bundle_count(),
            start,
        )?;
        let mut held = tickets::apply_finalizer_ticket_effects(block, &self.tickets)?;
        let ghost kept = held.deep_view();
        proof {
            reveals_keep_balances_fitting(
                self.deep_view(),
                reveals.deep_view(),
                block.deep_view().miner,
                block.deep_view().reveal_bundles.len(),
                self.deep_view().after_including(block.deep_view())->Ok_0,
            );
        }
        let ghost g = now.free.deep_view();
        rewards::credit_reward_output(&mut now.free, block)?;
        proof {
            rewards::reward_keeps_balances_fitting(g, block.deep_view());
        }
        locks::ensure_room(&now.free, &now.locked)?;
        let lapsed = lapsed_envelopes(&self.active_blinded, &reveals, block.height);
        locks::release_envelopes(&lapsed, &mut now.free, &mut now.locked)?;
        let mut created = tickets::tickets_created_by_block(block, &self.launch_profile)?;
        let ghost made = created.deep_view();
        let mut more = tickets::tickets_created_by_transactions(block.height, &revealed, &self.launch_profile)?;
        let ghost added = more.deep_view();
        held.append(&mut created);
        assert(held.deep_view() =~= kept + made);
        held.append(&mut more);
        assert(held.deep_view() =~= kept + made + added);
        Ok((now, held))
    }
}

/// The envelopes that expire unopened with a block.
fn lapsed_envelopes(active: &replay::Actives, reveals: &Vec<BlindedReveal>, height: u64) -> (r: Vec<BlindedTransaction>)
    ensures
        r.deep_view() == envelopes_of(active.deep_view().filter(lapses(reveals.deep_view(), height))),
{
    broadcast use model::group_views;

    let ghost v = active.deep_view();
    let ghost p = lapses(reveals.deep_view(), height);
    let mut out: Vec<BlindedTransaction> = Vec::new();
    let mut i: usize = 0;
    proof {
        model::take_all(v);
        model::filter_empty(p);
        assert(out.deep_view() =~= envelopes_of(v.take(0).filter(p)));
    }
    while i < active.len()
        invariant
            i <= v.len(),
            v == active.deep_view(),
            p == lapses(reveals.deep_view(), height),
            out.deep_view() == envelopes_of(v.take(i as int).filter(p)),
        decreases v.len() - i,
    {
        let ghost before = v.take(i as int).filter(p);
        let ghost listed = out.deep_view();
        proof {
            model::take_step(v, i as int);
            model::filter_push(v.take(i as int), v[i as int], p);
        }
        let entry = active.at(i);
        if !ledger::has_reveal(reveals, entry.0.as_str()) && height >= entry.1.transaction.expires_at_height {
            out.push(entry.1.transaction.duplicate());
            assert(entry.deep_view() == v[i as int]);
            assert(out.deep_view() == listed.push(v[i as int].1.transaction));
            assert(out.deep_view() =~= envelopes_of(before.push(v[i as int])));
        }
        i = i + 1;
    }
    proof {
        model::take_all(v);
    }
    out
}

/// The envelopes that stay active after a block.
fn retain_active(active: &replay::Actives, reveals: &Vec<BlindedReveal>, height: u64) -> (r: replay::Actives)
    requires
        active.wf(),
    ensures
        r.wf(),
        r.deep_view() == active.deep_view().filter(stays_active(reveals.deep_view(), height)),
{
    broadcast use model::group_views;

    let ghost v = active.deep_view();
    let ghost p = stays_active(reveals.deep_view(), height);
    let mut out: Vec<(String, ActiveBlindedTransaction)> = Vec::new();
    let mut i: usize = 0;
    proof {
        model::take_all(v);
        model::filter_empty(p);
        active.wf_is_increasing();
        sorted::filter_increasing::<String, ActiveBlindedTransactionView>(v, p);
    }
    while i < active.len()
        invariant
            i <= v.len(),
            v == active.deep_view(),
            p == stays_active(reveals.deep_view(), height),
            out.deep_view() == v.take(i as int).filter(p),
        decreases v.len() - i,
    {
        proof {
            model::take_step(v, i as int);
            model::filter_push(v.take(i as int), v[i as int], p);
        }
        let entry = active.at(i);
        if !ledger::has_reveal(reveals, entry.0.as_str()) && height < entry.1.transaction.expires_at_height {
            out.push(entry.duplicate());
        }
        i = i + 1;
    }
    proof {
        model::take_all(v);
    }
    SortedMap::from_sorted(out)
}

impl Ledger {
    fn remaining_pending(&self, mined: &Vec<Transaction>) -> (r: Vec<Transaction>)
        requires
            self.wf(),
        ensures
            r.deep_view() == self.deep_view().pending.filter(stays_pending(self.deep_view(), mined.deep_view())),
    {
        broadcast use model::group_views;

        let ghost v = self.deep_view().pending;
        let ghost p = stays_pending(self.deep_view(), mined.deep_view());
        let mut out: Vec<Transaction> = Vec::new();
        let mut i: usize = 0;
        proof {
            model::take_all(v);
            model::filter_empty(p);
        }
        while i < self.pending.len()
            invariant
                i <= self.pending.len(),
                self.wf(),
                v == self.pending.deep_view(),
                p == stays_pending(self.deep_view(), mined.deep_view()),
                out.deep_view() == v.take(i as int).filter(p),
            decreases self.pending.len() - i,
        {
            proof {
                model::take_step(v, i as int);
                model::filter_push(v.take(i as int), v[i as int], p);
            }
            let item = &self.pending[i];
            if ledger::find_by_signature(mined, item.signature()).is_none() && !utxo::transaction_has_missing_inputs(
                item,
                &self.utxos,
            ) && self.validate_transaction_terms(item).is_ok() {
                out.push(item.duplicate());
            }
            i = i + 1;
        }
        proof {
            model::take_all(v);
        }
        out
    }

    fn remaining_orphans(&self, mined: &Vec<Transaction>) -> (r: Vec<Transaction>)
        requires
            self.wf(),
        ensures
            r.deep_view() == self.deep_view().orphans.filter(stays_orphan(self.deep_view(), mined.deep_view())),
    {
        broadcast use model::group_views;

        let ghost v = self.deep_view().orphans;
        let ghost p = stays_orphan(self.deep_view(), mined.deep_view());
        let mut out: Vec<Transaction> = Vec::new();
        let mut i: usize = 0;
        proof {
            model::take_all(v);
            model::filter_empty(p);
        }
        while i < self.orphans.len()
            invariant
                i <= self.orphans.len(),
                self.wf(),
                v == self.orphans.deep_view(),
                p == stays_orphan(self.deep_view(), mined.deep_view()),
                out.deep_view() == v.take(i as int).filter(p),
            decreases self.orphans.len() - i,
        {
            proof {
                model::take_step(v, i as int);
                model::filter_push(v.take(i as int), v[i as int], p);
            }
            let item = &self.orphans[i];
            if ledger::find_by_signature(mined, item.signature()).is_none() && self.validate_transaction_terms(item).is_ok() {
                out.push(item.duplicate());
            }
            i = i + 1;
        }
        proof {
            model::take_all(v);
        }
        out
    }

    fn remaining_envelopes(&self, included: &Vec<BlindedTransaction>) -> (r: Vec<BlindedTransaction>)
        requires
            self.wf(),
        ensures
            r.deep_view() == self.deep_view().pending_blinded.filter(stays_sealed(self.deep_view(), included.deep_view())),
    {
        broadcast use model::group_views;

        let ghost v = self.deep_view().pending_blinded;
        let ghost p = stays_sealed(self.deep_view(), included.deep_view());
        let mut out: Vec<BlindedTransaction> = Vec::new();
        let mut i: usize = 0;
        proof {
            model::take_all(v);
            model::filter_empty(p);
        }
        while i < self.pending_blinded.len()
            invariant
                i <= self.pending_blinded.len(),
                self.wf(),
                v == self.pending_blinded.deep_view(),
                p == stays_sealed(self.deep_view(), included.deep_view()),
                out.deep_view() == v.take(i as int).filter(p),
            decreases self.pending_blinded.len() - i,
        {
            proof {
                model::take_step(v, i as int);
                model::filter_push(v.take(i as int), v[i as int], p);
            }
            let item = &self.pending_blinded[i];
            assert(item.deep_view().owner_check() is Ok) by {
                reveal(ledger::owners_signed);
                assert(self.deep_view().pending_blinded[i as int].owner_check() is Ok);
            }
            if !ledger::has_commitment(included, item.commitment.as_str()) && self.height() < item.expires_at_height
                && self.revalidate_blinded_transaction(item).is_ok() {
                out.push(item.duplicate());
            }
            i = i + 1;
        }
        proof {
            model::take_all(v);
        }
        out
    }

    fn remaining_reveals(&self, reveals: &Vec<BlindedReveal>) -> (r: Vec<BlindedReveal>)
        requires
            self.wf(),
        ensures
            r.deep_view() == self.deep_view().pending_reveals.filter(stays_unrevealed(self.deep_view(), reveals.deep_view())),
    {
        broadcast use model::group_views;

        let ghost v = self.deep_view().pending_reveals;
        let ghost p = stays_unrevealed(self.deep_view(), reveals.deep_view());
        let mut out: Vec<BlindedReveal> = Vec::new();
        let mut i: usize = 0;
        proof {
            model::take_all(v);
            model::filter_empty(p);
        }
        while i < self.pending_reveals.len()
            invariant
                i <= self.pending_reveals.len(),
                self.wf(),
                v == self.pending_reveals.deep_view(),
                p == stays_unrevealed(self.deep_view(), reveals.deep_view()),
                out.deep_view() == v.take(i as int).filter(p),
            decreases self.pending_reveals.len() - i,
        {
            proof {
                model::take_step(v, i as int);
                model::filter_push(v.take(i as int), v[i as int], p);
            }
            let item = &self.pending_reveals[i];
            if !ledger::has_reveal(reveals, item.commitment.as_str()) && self.pending_reveal_transaction(item).is_ok() {
                out.push(item.duplicate());
            }
            i = i + 1;
        }
        proof {
            model::take_all(v);
        }
        out
    }

    /// Puts a block that passed the checks on top of the chain.
    fn stack_block(&mut self, block: Block, holdings: Holdings, held: Vec<BurnTicket>)
        requires
            old(self).wf(),
            holdings.wf(),
            holdings.deep_view().valid(),
            block.height == old(self).deep_view().next_height(),
            block.timestamp_ms > old(self).deep_view().tip().timestamp_ms,
            block.vdf_rounds <= vdf::MAX_VDF_ROUNDS,
            block.deep_view().prev_hash == old(self).deep_view().tip().hash,
            block.deep_view().hash == block.deep_view().computed_hash(),
            proposals::has_burn(block.deep_view().transactions),
            old(self).deep_view().block_effects(block.deep_view()) == Ok::<
                (HoldingsView, Seq<BurnTicketView>),
                Seq<char>,
            >((holdings.deep_view(), held.deep_view())),
        ensures
            final(self).wf(),
            final(self).deep_view() == old(self).deep_view().stacked(
                block.deep_view(),
                holdings.deep_view(),
                held.deep_view(),
            ),
    {
        let ghost l = self.deep_view();
        let ghost b = block.deep_view();
        let reveals = block.owned_reveals();
        assert(l.chain.len() == self.chain.len());
        assert(l.chain[l.chain.len() - 1].height == l.chain.len() - 1);
        assert(b.height == l.chain.len());
        let mut active = retain_active(&self.active_blinded, &reveals, block.height);
        replay::include_envelopes(&mut active, &block.blinded_transactions, block.height, &block.miner);
        let ghost h = holdings.deep_view();
        self.utxos = holdings.free;
        self.locked = holdings.locked;
        self.tickets = held;
        self.active_blinded = active;
        self.chain.push(block);
        proof {
            self.utxos.wf_is_increasing();
            self.locked.wf_is_increasing();
            self.active_blinded.wf_is_increasing();
            assert(self.chain.deep_view() =~= l.chain.push(b));
            assert(self.deep_view() == l.stacked(b, h, held.deep_view()));
            stacked_is_valid(l, b, h, held.deep_view());
        }
    }

    /// Drops what a block on top settled or made stale.
    fn sweep(&mut self, block: &Block)
        requires
            old(self).wf(),
        ensures
            final(self).wf(),
            final(self).deep_view() == old(self).deep_view().swept(block.deep_view()),
    {
        let ghost l = self.deep_view();
        let ghost b = block.deep_view();
        let reveals = block.owned_reveals();
        let pending = self.remaining_pending(&block.transactions);
        let orphans = self.remaining_orphans(&block.transactions);
        let envelopes = self.remaining_envelopes(&block.blinded_transactions);
        let unrevealed = self.remaining_reveals(&reveals);
        self.pending = pending;
        self.orphans = orphans;
        self.pending_blinded = envelopes;
        self.pending_reveals = unrevealed;
        proof {
            filter_shrinks(l.pending, stays_pending(l, b.transactions));
            filter_shrinks(l.orphans, stays_orphan(l, b.transactions));
            filter_shrinks(l.pending_blinded, stays_sealed(l, b.blinded_transactions));
            filter_shrinks(l.pending_reveals, stays_unrevealed(l, b.all_reveals()));
            reveal(ledger::reveals_differ);
            utxo::signed_filter(l.pending, stays_pending(l, b.transactions));
            utxo::signed_filter(l.orphans, stays_orphan(l, b.transactions));
            ledger::filtered_are_signed(l.pending_blinded, stays_sealed(l, b.blinded_transactions));
            bundling::filter_keeps_bundle(l, l.pending_reveals, stays_unrevealed(l, b.all_reveals()));
            assert(self.deep_view() == l.swept(b));
        }
    }

    /// Hands in a block at a time, with or without a check of its delay.
    fn apply_block_with_vdf_policy(&mut self, block: Block, should_verify_vdf: bool, now_ms: u64) -> (r: Result<(), Error>)
        requires
            old(self).wf(),
        ensures
            final(self).wf(),
            (final(self).deep_view(), error::outcome(r)) == old(self).deep_view().block_applied(
                block.deep_view(),
                should_verify_vdf,
                now_ms,
            ),
    {
        let ghost l = self.deep_view();
        let ghost b = block.deep_view();
        proof {
            reveal(LedgerView::block_applied);
        }
        if !self.precheck_block_without_vdf_at(&block, now_ms)? {
            return Ok(());
        }
        if should_verify_vdf {
            let seed = block.vdf_seed();
            if !vdf::verify_vdf(seed.as_str(), block.vdf_rounds, block.vdf_output.as_str()) {
                return Err(Error::new("block VDF output is invalid"));
            }
        }
        let (holdings, held) = self.effects_of_block(&block)?;
        proof {
            block_keeps_balances_fitting(l, b);
            checked_block_fits(l, b, now_ms);
        }
        let settled = block.duplicate();
        self.stack_block(block, holdings, held);
        self.sweep(&settled);
        self.promote_orphan_transactions()?;
        self.vdf_rounds = self.next_vdf_rounds_after_tip();
        Ok(())
    }

    /// Hands in a block now. The time is that of the system clock.
    pub fn apply_block(&mut self, block: Block) -> (r: Result<(), Error>)
        requires
            old(self).wf(),
        ensures
            final(self).wf(),
            exists|now_ms: u64|
                (final(self).deep_view(), error::outcome(r)) == #[trigger] old(self).deep_view().block_applied(
                    block.deep_view(),
                    true,
                    now_ms,
                ),
    {
        let now_ms: u64 = crypto::unix_now_ms();
        self.apply_block_at(block, now_ms)
    }

    /// Hands in a block at a time.
    pub fn apply_block_at(&mut self, block: Block, now_ms: u64) -> (r: Result<(), Error>)
        requires
            old(self).wf(),
        ensures
            final(self).wf(),
            (final(self).deep_view(), error::outcome(r)) == old(self).deep_view().block_applied(
                block.deep_view(),
                true,
                now_ms,
            ),
    {
        self.apply_block_with_vdf_policy(block, true, now_ms)
    }

    /// Hands in a block that was finished here, now.
    pub fn apply_locally_mined_block(&mut self, block: Block) -> (r: Result<(), Error>)
        requires
            old(self).wf(),
        ensures
            final(self).wf(),
            exists|now_ms: u64|
                (final(self).deep_view(), error::outcome(r)) == #[trigger] old(self).deep_view().block_applied(
                    block.deep_view(),
                    false,
                    now_ms,
                ),
    {
        self.apply_preverified_block(block)
    }

    /// Hands in a block whose delay was checked before, now.
    pub fn apply_preverified_block(&mut self, block: Block) -> (r: Result<(), Error>)
        requires
            old(self).wf(),
        ensures
            final(self).wf(),
            exists|now_ms: u64|
                (final(self).deep_view(), error::outcome(r)) == #[trigger] old(self).deep_view().block_applied(
                    block.deep_view(),
                    false,
                    now_ms,
                ),
    {
        let now_ms: u64 = crypto::unix_now_ms();
        self.apply_preverified_block_at(block, now_ms)
    }

    /// Hands in a block whose delay was checked before, at a time.
    pub fn apply_preverified_block_at(&mut self, block: Block, now_ms: u64) -> (r: Result<(), Error>)
        requires
            old(self).wf(),
        ensures
            final(self).wf(),
            (final(self).deep_view(), error::outcome(r)) == old(self).deep_view().block_applied(
                block.deep_view(),
                false,
                now_ms,
            ),
    {
        self.apply_block_with_vdf_policy(block, false, now_ms)
    }
}

pub(crate) proof fn including_increasing(active: ActiveView, envelopes: Seq<BlindedTransactionView>, height: u64, miner: Seq<char>)
    requires
        sorted::increasing::<String, ActiveBlindedTransactionView>(active),
    ensures
        sorted::increasing::<String, ActiveBlindedTransactionView>(
            replay::including(active, envelopes, height, miner),
        ),
    decreases envelopes.len(),
{
    if envelopes.len() > 0 {
        including_increasing(active, envelopes.drop_last(), height, miner);
        let t = envelopes.last();
        sorted::with_increasing::<String, ActiveBlindedTransactionView>(
            replay::including(active, envelopes.drop_last(), height, miner),
            t.commitment,
            ActiveBlindedTransactionView { transaction: t, included_height: height, included_by: miner },
        );
    }
}

/// The ledger stays well formed with a block on top.
pub proof fn stacked_is_valid(l: LedgerView, b: BlockView, h: HoldingsView, held: Seq<BurnTicketView>)
    requires
        l.valid(),
        b.height == l.chain.len(),
        b.timestamp_ms > l.tip().timestamp_ms,
        b.vdf_rounds <= vdf::MAX_VDF_ROUNDS,
        b.prev_hash == l.tip().hash,
        b.hash == b.computed_hash(),
        proposals::has_burn(b.transactions),
        h.valid(),
        l.block_effects(b) == Ok::<(HoldingsView, Seq<BurnTicketView>), Seq<char>>((h, held)),
    ensures
        l.stacked(b, h, held).valid(),
{
    ledger::next_block_is_linked(l.chain, b);
    draw::next_block_is_in_step(l, b);
    held::next_block_is_held(l, b);
    let s = l.stacked(b, h, held);
    let p = stays_active(b.all_reveals(), b.height);
    sorted::filter_increasing::<String, ActiveBlindedTransactionView>(l.active_blinded, p);
    including_increasing(l.active_blinded.filter(p), b.blinded_transactions, b.height, b.miner);
    let c = s.chain;
    let n = l.chain.len() as int;
    assert forall|i: int, k: int| 0 <= i < k < c.len() implies (#[trigger] c[i]).timestamp_ms < (
    #[trigger] c[k]).timestamp_ms by {
        if k == n {
            if i < n - 1 {
                assert(l.chain[i].timestamp_ms < l.chain[n - 1].timestamp_ms);
            }
        } else {
            assert(l.chain[i].timestamp_ms < l.chain[k].timestamp_ms);
        }
    }
    assert forall|i: int| 0 <= i < c.len() implies (#[trigger] c[i]).height == i by {
        if i < n {
            assert(l.chain[i].height == i);
        }
    }
    assert forall|i: int| 0 <= i < c.len() implies (#[trigger] c[i]).vdf_rounds <= vdf::MAX_VDF_ROUNDS by {
        if i < n {
            assert(l.chain[i].vdf_rounds <= vdf::MAX_VDF_ROUNDS);
        }
    }
}

proof fn checked_block_fits(l: LedgerView, b: BlockView, now_ms: u64)
    requires
        l.precheck(b, now_ms) == Ok::<bool, Seq<char>>(true),
    ensures
        b.height == l.next_height(),
        b.timestamp_ms > l.tip().timestamp_ms,
        b.vdf_rounds <= vdf::MAX_VDF_ROUNDS,
        b.prev_hash == l.tip().hash,
        b.hash == b.computed_hash(),
        proposals::has_burn(b.transactions),
{
}

/// Where the last blocks start whose times count for a retarget: the last twenty, none of them the
/// genesis block or the one after it.
pub open spec fn last_blocks_from(chain: Seq<BlockView>) -> int {
    if chain.len() >= 22 {
        chain.len() - 20
    } else {
        2
    }
}

/// Whether a block was finalized by the ticket that was drawn first.
pub open spec fn first_in_line(b: BlockView) -> bool {
    b.finalizer_mode is Ticket && b.finalizer_rank == 0
}

/// The time that a block of a chain took.
pub open spec fn time_taken(chain: Seq<BlockView>, i: int) -> int {
    chain[i].timestamp_ms - chain[i - 1].timestamp_ms
}

proof fn equal_blocks_give_equal_times(a: Seq<BlockView>, b: Seq<BlockView>, i: int, j: int, k: int)
    requires
        i >= 1,
        j >= 1,
        k >= 0,
        i + k <= a.len(),
        j + k <= b.len(),
        forall|m: int| #![trigger a[i - 1 + m]] 0 <= m <= k ==> a[i - 1 + m] == b[j - 1 + m],
    ensures
        observed_times(a, i, i + k) == observed_times(b, j, j + k),
    decreases k,
{
    if k > 0 {
        equal_blocks_give_equal_times(a, b, i, j, k - 1);
        assert(a[i - 1 + k] == b[j - 1 + k]);
        assert(a[i - 1 + (k - 1)] == b[j - 1 + (k - 1)]);
    }
}

/// The rounds after a tip depend only on the tip and the times between its last blocks: two chains
/// with the same last 21 blocks, none of them the genesis block, get the same rounds, and so do two of
/// one length that differ only in their genesis blocks.
pub proof fn rounds_depend_on_the_last_blocks(a: Seq<BlockView>, b: Seq<BlockView>, current: u64)
    requires
        (a.len() >= 22 && b.len() >= 22) || (a.len() == b.len() && a.len() >= 2),
        ({
            let k = if a.len() >= 22 { 21 } else { a.len() - 1 };
            a.skip(a.len() - k) == b.skip(b.len() - k)
        }),
    ensures
        next_rounds(a, current) == next_rounds(b, current),
{
    let k = if a.len() >= 22 { 21 } else { a.len() - 1 };
    let x = a.skip(a.len() - k);
    let y = b.skip(b.len() - k);
    let i = a.len() - k + 1;
    let j = b.len() - k + 1;
    assert(x[k - 1] == y[k - 1]);
    assert(a.last() == b.last());
    assert forall|m: int| #![trigger a[i - 1 + m]] 0 <= m <= k - 1 implies a[i - 1 + m] == b[j - 1 + m] by {
        assert(x[m] == y[m]);
    }
    equal_blocks_give_equal_times(a, b, i, j, k - 1);
}

proof fn times_add_up(chain: Seq<BlockView>, first: int, end: int)
    requires
        1 <= first <= end <= chain.len(),
        forall|i: int|
            first <= i < end ==> first_in_line(#[trigger] chain[i]) && 75_000 <= time_taken(chain, i) <= 1_200_000,
    ensures
        observed_times(chain, first, end).0 == chain[end - 1].timestamp_ms - chain[first - 1].timestamp_ms,
        observed_times(chain, first, end).1 == end - first,
    decreases end - first,
{
    if first < end {
        times_add_up(chain, first, end - 1);
        assert(first_in_line(chain[end - 1]) && 75_000 <= time_taken(chain, end - 1) <= 1_200_000);
    }
}

/// Where the last twenty blocks (or all but the genesis block and the next, where there are fewer)
/// were all finalized by the first in line and took neither less than 75 seconds nor more than twenty
/// minutes each, the rounds are retargeted by the time from the block before them to the tip, divided
/// by their number.
pub proof fn rounds_follow_the_mean_time(chain: Seq<BlockView>, current: u64)
    requires
        chain.len() >= 3,
        chain.last().height >= 2,
        1 <= vdf::base_rounds(chain.last().vdf_rounds, chain.last().finalizer_rank) <= 9_223_372_036_854_775_807,
        forall|i: int|
            last_blocks_from(chain) <= i < chain.len() ==> first_in_line(#[trigger] chain[i]) && 75_000 <= time_taken(
                chain,
                i,
            ) <= 1_200_000,
    ensures
        next_rounds(chain, current) == vdf::retargeted_rounds(
            vdf::base_rounds(chain.last().vdf_rounds, chain.last().finalizer_rank) as nat,
            ((chain.last().timestamp_ms - chain[last_blocks_from(chain) - 1].timestamp_ms) / (chain.len()
                - last_blocks_from(chain))) as nat,
        ),
{
    times_add_up(chain, last_blocks_from(chain), chain.len() as int);
    let (sum, count) = observed_times(chain, last_blocks_from(chain), chain.len() as int);
    vdf::retarget_is_bounded(
        vdf::base_rounds(chain.last().vdf_rounds, chain.last().finalizer_rank) as nat,
        sum / count,
    );
}

proof fn no_time_counts(chain: Seq<BlockView>, first: int, end: int)
    requires
        1 <= first <= end <= chain.len(),
        forall|i: int| first <= i < end ==> !first_in_line(#[trigger] chain[i]),
    ensures
        observed_times(chain, first, end) == (0nat, 0nat),
    decreases end - first,
{
    if first < end {
        no_time_counts(chain, first, end - 1);
        assert(!first_in_line(chain[end - 1]));
    }
}

/// The rounds stay where none of the last blocks was finalized by the first in line, and on a chain
/// that is not two blocks high.
pub proof fn rounds_stay_without_times(chain: Seq<BlockView>, current: u64)
    requires
        chain.last().height < 2 || (chain.len() >= 2 && forall|i: int|
            last_blocks_from(chain) <= i < chain.len() ==> !first_in_line(#[trigger] chain[i])),
    ensures
        next_rounds(chain, current) == current,
{
    if chain.last().height >= 2 {
        no_time_counts(chain, last_blocks_from(chain), chain.len() as int);
    }
}

proof fn times_lie_between(chain: Seq<BlockView>, first: int, end: int, low: nat, high: nat)
    requires
        1 <= first <= end <= chain.len(),
        75_000 <= low <= high <= 1_200_000,
        forall|i: int|
            first <= i < end && first_in_line(#[trigger] chain[i]) ==> (low == 75_000 || low <= time_taken(chain, i)) && (
            high == 1_200_000 || time_taken(chain, i) <= high),
        forall|i: int| first <= i < end && first_in_line(#[trigger] chain[i]) ==> 0 <= time_taken(chain, i),
    ensures
        low * observed_times(chain, first, end).1 <= observed_times(chain, first, end).0 <= high * observed_times(
            chain,
            first,
            end,
        ).1,
        (exists|i: int| first <= i < end && first_in_line(#[trigger] chain[i])) ==> observed_times(chain, first, end).1
            > 0,
    decreases end - first,
{
    if first < end {
        times_lie_between(chain, first, end - 1, low, high);
        let (sum, count) = observed_times(chain, first, end - 1);
        assert(low * (count + 1) == low * count + low) by (nonlinear_arith);
        assert(high * (count + 1) == high * count + high) by (nonlinear_arith);
        if first_in_line(chain[end - 1]) {
            vdf::block_time_is_clamped(time_taken(chain, end - 1) as nat);
        } else if exists|i: int| first <= i < end && first_in_line(#[trigger] chain[i]) {
            let i = choose|i: int| first <= i < end && first_in_line(#[trigger] chain[i]);
            assert(first <= i < end - 1 && first_in_line(chain[i]));
        }
    }
}

/// Only the times of blocks by the first in line count: where each of those among the last blocks
/// took a time between two bounds, the rounds lie between those for the bounds. So they fall where each
/// took more than 330 seconds, and rise where each took less than 270.
pub proof fn rounds_lie_between_those_of_the_times(chain: Seq<BlockView>, current: u64, low: nat, high: nat, one: int)
    requires
        chain.last().height >= 2,
        75_000 <= low <= high <= 1_200_000,
        last_blocks_from(chain) <= one < chain.len(),
        first_in_line(chain[one]),
        1 <= vdf::base_rounds(chain.last().vdf_rounds, chain.last().finalizer_rank) <= 9_223_372_036_854_775_807,
        forall|i: int|
            last_blocks_from(chain) <= i < chain.len() && first_in_line(#[trigger] chain[i]) ==> 0 <= time_taken(chain, i)
                && (low == 75_000 || low <= time_taken(chain, i)) && (high == 1_200_000 || time_taken(chain, i) <= high),
    ensures
        ({
            let base = vdf::base_rounds(chain.last().vdf_rounds, chain.last().finalizer_rank) as nat;
            let next = next_rounds(chain, current) as nat;
            &&& vdf::retargeted_rounds(base, high) <= next <= vdf::retargeted_rounds(base, low)
            &&& (low > 330_000 ==> next <= base)
            &&& (low > 330_000 && base > 1 ==> next < base)
            &&& (high < 270_000 ==> next >= base)
            &&& (high < 270_000 && 10 <= base < 9_223_372_036_854_775_807 ==> next > base)
            &&& (270_000 <= low && high <= 330_000 ==> next == base)
        }),
{
    let first = last_blocks_from(chain);
    let base = vdf::base_rounds(chain.last().vdf_rounds, chain.last().finalizer_rank) as nat;
    times_lie_between(chain, first, chain.len() as int, low, high);
    let (sum, count) = observed_times(chain, first, chain.len() as int);
    let mean = sum / count;
    assert(low <= mean <= high) by (nonlinear_arith)
        requires
            low * count <= sum <= high * count,
            count > 0,
            mean == sum / count,
    ;
    vdf::retarget_is_monotonic(base, low, mean);
    vdf::retarget_is_monotonic(base, mean, high);
    vdf::retarget_is_bounded(base, mean);
    vdf::retarget_is_bounded(base, low);
    vdf::retarget_is_bounded(base, high);
    let exact = base * 300_000 / mean;
    assert(exact * mean <= base * 300_000 < (exact + 1) * mean) by (nonlinear_arith)
        requires
            exact == base * 300_000 / mean,
            mean > 0,
    ;
    vdf::retarget_is_proportional(base, mean, exact);
}

} // verus!
