//! What a node does by itself: proofs of work, burns and blocks.
use crate::blinded::{BuiltBlindedTransaction, BuiltBlindedTransactionView};
use crate::block::{Block, BlockView};
use crate::builder;
use crate::builder::MineSearchOutcomeView;
use crate::crypto;
use crate::error;
use crate::error::Error;
use crate::forks;
use crate::gossip::{GossipEnvelope, GossipView};
use crate::ledger;
use crate::ledger::{Ledger, LedgerView};
use crate::model;
use crate::model::Model;
use crate::node;
use crate::node::{AutoPowMineCursor, CursorView, NodeCore, NodeView, WalletView};
use crate::payments;
use crate::payments::{Estimated, FeeEstimate, Payment, PaymentView, FEE_TRIES};
use crate::proposals::{PreparedBlock, PreparedBlockView};
use crate::relay;
use crate::text;
use crate::transaction::{Amount, OutPoint, OutPointView, Transaction, TransactionView, TxOutput, TxOutputView};
use crate::utxo;
use crate::utxo::UtxosView;
use crate::validate;
use crate::vdf;
use vstd::arithmetic::power2::*;
use vstd::prelude::*;
use vstd::string::*;
use vstd::utf8::*;

verus! {

pub const AUTO_POW_NONCE_ATTEMPTS_PER_WORKER_TICK: u64 = 100_000;

pub const AUTO_PLAINTEXT_BURN_BEFORE_RECOVERY_MS: u64 = 60_000;

pub const AUTO_BLOCK_ANCHOR_BURN_AMOUNT: Amount = 1;

pub const AUTO_BLOCK_ANCHOR_BURN_FEE: Amount = 0;

/// What a round of mining came to.
#[derive(Clone, Debug, Eq, PartialEq)]
pub struct AutoMineOutcome {
    pub pow_mined: Option<Transaction>,
    pub burned: Option<Transaction>,
    pub block: Option<Block>,
    pub skipped_reason: Option<String>,
}

/// What is left to do in a round of mining.
#[derive(Clone, Debug)]
pub struct AutoMinePlan {
    pub pow_mined: Option<Transaction>,
    pub burned: Option<Transaction>,
    pub work: Option<PreparedBlock>,
    pub skipped_reason: Option<String>,
}

#[verifier::ext_equal]
pub struct OutcomeView {
    pub pow_mined: Option<TransactionView>,
    pub burned: Option<TransactionView>,
    pub block: Option<BlockView>,
    pub skipped_reason: Option<Seq<char>>,
}

#[verifier::ext_equal]
pub struct PlanView {
    pub pow_mined: Option<TransactionView>,
    pub burned: Option<TransactionView>,
    pub work: Option<PreparedBlockView>,
    pub skipped_reason: Option<Seq<char>>,
}

/// What a search for proofs of work found.
pub struct PowFound {
    pub next_nonce: u64,
    pub attempts: u64,
    pub queued: u64,
    pub first: Option<TransactionView>,
}

impl DeepView for AutoMineOutcome {
    type V = OutcomeView;

    open spec fn deep_view(&self) -> OutcomeView {
        OutcomeView {
            pow_mined: self.pow_mined.deep_view(),
            burned: self.burned.deep_view(),
            block: self.block.deep_view(),
            skipped_reason: self.skipped_reason.deep_view(),
        }
    }
}

impl DeepView for AutoMinePlan {
    type V = PlanView;

    open spec fn deep_view(&self) -> PlanView {
        PlanView {
            pow_mined: self.pow_mined.deep_view(),
            burned: self.burned.deep_view(),
            work: self.work.deep_view(),
            skipped_reason: self.skipped_reason.deep_view(),
        }
    }
}

/// A plan with nothing in it.
pub open spec fn empty_plan() -> PlanView {
    PlanView { pow_mined: None, burned: None, work: None, skipped_reason: None }
}

impl PlanView {
    pub open spec fn skipped(self, reason: Seq<char>) -> PlanView {
        PlanView { skipped_reason: Some(reason), ..self }
    }

    /// The plan with work, or with why there is none.
    pub open spec fn working(self, work: Result<PreparedBlockView, Seq<char>>) -> PlanView {
        match work {
            Ok(w) => PlanView { work: Some(w), ..self },
            Err(e) => self.skipped(e),
        }
    }
}

/// How many of the ranked tickets run the delay of a block: a share of them, rounded up.
pub open spec fn allowed_ranks(count: nat, percent: u8) -> nat {
    let share = count * node::clamped_percent(percent) as nat;
    let capped = if share > usize::MAX {
        usize::MAX as nat
    } else {
        share
    };
    let rounded = if capped + 99 > usize::MAX {
        usize::MAX as nat
    } else {
        capped + 99
    };
    if count == 0 || percent == 0 {
        0
    } else {
        rounded / 100
    }
}

/// The draw by which a wallet joins the recovery of a tip.
pub open spec fn sample_percent(address: Seq<char>, tip_hash: Seq<char>) -> u8 {
    crypto::sha256(
        encode_utf8("iuna-recovery-vdf-sample:"@ + tip_hash + ":"@ + address),
    )[0] % 100
}

/// The salt of the search for proofs of work on an anchor.
pub open spec fn pow_salt(address: Seq<char>, anchor: Seq<char>) -> u64 {
    vdf::big_endian(
        crypto::sha256(encode_utf8("iuna-auto-pow:"@ + address + ":"@ + anchor)).take(8),
    ) as u64
}

/// The first of the smallest outputs that hold an amount.
pub open spec fn smallest(u: UtxosView, amount: Amount) -> Option<(OutPointView, TxOutputView)>
    decreases u.len(),
{
    if u.len() == 0 {
        None
    } else {
        let before = smallest(u.drop_last(), amount);
        if u.last().1.amount < amount {
            before
        } else {
            match before {
                Some(found) => if u.last().1.amount < found.1.amount {
                    Some(u.last())
                } else {
                    before
                },
                None => Some(u.last()),
            }
        }
    }
}

/// The smallest output that holds an amount is there, holds it, and none that holds it is smaller.
pub proof fn smallest_is_smallest(u: UtxosView, amount: Amount)
    ensures
        match smallest(u, amount) {
            Some(found) => {
                &&& found.1.amount >= amount
                &&& exists|i: int| 0 <= i < u.len() && #[trigger] u[i] == found
                &&& forall|i: int|
                    0 <= i < u.len() && (#[trigger] u[i]).1.amount >= amount ==> found.1.amount <= u[i].1.amount
            },
            None => forall|i: int| 0 <= i < u.len() ==> (#[trigger] u[i]).1.amount < amount,
        },
    decreases u.len(),
{
    if u.len() > 0 {
        let last = u.len() - 1;
        smallest_is_smallest(u.drop_last(), amount);
        if let Some(found) = smallest(u.drop_last(), amount) {
            let i = choose|i: int| 0 <= i < u.drop_last().len() && #[trigger] u.drop_last()[i] == found;
            assert(u[i] == found);
        }
        assert(u[last] == u.last());
        assert forall|i: int| 0 <= i < u.len() - 1 implies u.drop_last()[i] == #[trigger] u[i] by {
        }
    }
}

impl NodeView {
    /// Whether a rank of the wallet runs the delay of the next block.
    pub open spec fn rank_runs(self, rank: u32) -> bool {
        rank < allowed_ranks(
            self.ledger.finalizers(self.ledger.next_height()).len(),
            self.recovery_vdf_top_rank_percent,
        )
    }

    /// The rank of the wallet for the next block.
    pub open spec fn own_rank(self) -> Option<u32> {
        match self.ledger.finalizer_of(self.ledger.next_height(), self.wallet.address()) {
            Some(f) => Some(f.0),
            None => None,
        }
    }

    /// Whether the wallet takes part in a recovery at a time.
    pub open spec fn joins_recovery(self, timestamp_ms: u64) -> bool {
        &&& timestamp_ms >= self.ledger.recovery_time()
        &&& self.recovery_vdf_top_rank_percent == 100 || (self.recovery_vdf_top_rank_percent != 0
            && self.ledger.finalizers(self.ledger.next_height()).len() == 0 && sample_percent(
            self.wallet.address(),
            self.ledger.tip().hash,
        ) < self.recovery_vdf_top_rank_percent)
    }

    /// Whether the wallet may soon make a block, which needs a burn in the open.
    pub open spec fn needs_anchor(self, timestamp_ms: u64) -> bool {
        ||| self.own_rank() matches Some(rank) && self.rank_runs(rank)
        ||| self.joins_recovery(timestamp_ms)
        ||| node::plus(timestamp_ms, AUTO_PLAINTEXT_BURN_BEFORE_RECOVERY_MS) >= self.ledger.recovery_time()
    }

    /// The ledger on which the anchor of a block is built.
    pub open spec fn anchor_ledger(self) -> LedgerView {
        LedgerView {
            pending: Seq::<TransactionView>::empty(),
            pending_blinded: Seq::<crate::blinded::BlindedTransactionView>::empty(),
            ..self.reserved_ledger()
        }
    }

    /// The burn that would anchor the next block.
    pub open spec fn new_anchor(self, seed: Seq<u8>) -> Result<TransactionView, Seq<char>> {
        let l = self.anchor_ledger();
        let owned = ledger::outputs_at(l.spendable(), self.wallet.address());
        match smallest(owned, (AUTO_BLOCK_ANCHOR_BURN_AMOUNT + AUTO_BLOCK_ANCHOR_BURN_FEE) as Amount) {
            Some(found) => l.built_burn_of(
                seed,
                AUTO_BLOCK_ANCHOR_BURN_AMOUNT,
                AUTO_BLOCK_ANCHOR_BURN_FEE,
                seq![found.0],
            ),
            None => l.built_burn(seed, AUTO_BLOCK_ANCHOR_BURN_AMOUNT, AUTO_BLOCK_ANCHOR_BURN_FEE),
        }
    }

    /// The node with an anchor for the next block, where it needs one and has none.
    pub open spec fn anchor_burned(self, timestamp_ms: u64) -> (NodeView, Result<Option<TransactionView>, Seq<char>>) {
        let height = self.ledger.height();
        if !self.needs_anchor(timestamp_ms) || (self.anchor_burn matches Some((h, _)) && h == height)
            || self.last_auto_anchor_burn_height == Some(height) {
            (self, Ok(None))
        } else {
            match self.wallet {
                WalletView::Locked(_) => (self, Err("wallet is locked"@)),
                WalletView::Unlocked(seed) => match self.new_anchor(seed) {
                    Err(e) => (
                        NodeView { last_auto_anchor_burn_height: Some(height), ..self },
                        Err(error::in_context("automatic finalizer anchor burn failed"@, e)),
                    ),
                    Ok(burn) => (
                        NodeView {
                            anchor_burn: Some((height, burn)),
                            last_auto_anchor_burn_height: Some(height),
                            ..self
                        },
                        Ok(Some(burn)),
                    ),
                },
            }
        }
    }

    /// What the search for the largest burn that the balance pays for may give.
    pub open spec fn searching(
        self,
        l: LedgerView,
        balance: Amount,
        low: Amount,
        high: Amount,
        best: Option<BuiltBlindedTransactionView>,
        result: Option<BuiltBlindedTransactionView>,
    ) -> bool
        decreases
                if low > high {
                    0
                } else {
                    high - low + 1
                },
    {
        if low > high {
            result == best
        } else {
            let amount = (low + (high - low) / 2) as Amount;
            exists|found: Result<Estimated, Seq<char>>| #[trigger]
                self.burn_estimate_gives(l, amount, found) && if fits(found, amount, balance) {
                    if amount == u64::MAX {
                        result == Some(found->Ok_0.0)
                    } else {
                        self.searching(l, balance, (amount + 1) as Amount, high, Some(found->Ok_0.0), result)
                    }
                } else if amount == 0 {
                    result == best
                } else {
                    self.searching(l, balance, low, (amount - 1) as Amount, best, result)
                }
        }
    }

    /// What sealing a burn of an amount at the automatic fee rate may give.
    pub open spec fn burn_estimate_gives(self, l: LedgerView, amount: Amount, found: Result<Estimated, Seq<char>>) -> bool {
        payments::converges(
            PaymentView::Burn { amount },
            l,
            self.wallet,
            self.default_expiry(),
            self.burn_fee,
            0,
            None,
            FEE_TRIES as nat,
            found,
        )
    }

    /// What sealing a burn of an amount with a fee may give.
    pub open spec fn burn_gives(
        self,
        l: LedgerView,
        amount: Amount,
        fee: Amount,
        outcome: Result<BuiltBlindedTransactionView, Seq<char>>,
    ) -> bool {
        PaymentView::Burn { amount }.gives(l, self.wallet, self.default_expiry(), fee, outcome)
    }

    /// The amount that the automatic burn aims at.
    pub open spec fn burn_target(self, balance: Amount) -> Amount {
        if self.burn_per_block < balance {
            self.burn_per_block
        } else {
            balance
        }
    }

    /// What the choice of the automatic burn may give: the whole amount at the fee rate, else with
    /// the fee that is left, else the largest amount that the balance pays for.
    pub open spec fn best_burn_gives(
        self,
        l: LedgerView,
        balance: Amount,
        best: Option<BuiltBlindedTransactionView>,
    ) -> bool {
        let target = self.burn_target(balance);
        if target == 0 {
            best is None
        } else {
            exists|exact: Result<Estimated, Seq<char>>| #[trigger]
                self.burn_estimate_gives(l, target, exact) && self.best_after_exact(l, balance, exact, best)
        }
    }

    /// What the choice may give once the whole amount at the fee rate gave an estimate.
    pub open spec fn best_after_exact(
        self,
        l: LedgerView,
        balance: Amount,
        exact: Result<Estimated, Seq<char>>,
        best: Option<BuiltBlindedTransactionView>,
    ) -> bool {
        let target = self.burn_target(balance);
        if fits(exact, target, balance) {
            best == Some(exact->Ok_0.0)
        } else if self.burn_per_block <= balance {
            exists|fixed: Result<BuiltBlindedTransactionView, Seq<char>>| #[trigger]
                self.burn_gives(l, target, (balance - target) as Amount, fixed) && match fixed {
                    Ok(b) => best == Some(b),
                    Err(_) => self.searching(l, balance, 1, target, None, best),
                }
        } else {
            self.searching(l, balance, 1, target, None, best)
        }
    }

    /// What the automatic burn of a height may give.
    pub open spec fn auto_burn_gives(
        self,
        timestamp_ms: u64,
        after: NodeView,
        r: Result<Option<TransactionView>, Seq<char>>,
    ) -> bool {
        let height = self.ledger.height();
        if !self.automatic_mining_enabled {
            after == self && r == Ok::<Option<TransactionView>, Seq<char>>(None)
        } else {
            match self.anchor_burned(timestamp_ms) {
                (n, Err(e)) => after == n && r == Err::<Option<TransactionView>, Seq<char>>(e),
                (n, Ok(anchor)) => if n.burn_per_block == 0 {
                    after == (NodeView { last_auto_burn_height: Some(height), ..n }) && r == Ok::<
                        Option<TransactionView>,
                        Seq<char>,
                    >(anchor)
                } else if n.last_auto_burn_height == Some(height) {
                    after == n && r == Ok::<Option<TransactionView>, Seq<char>>(anchor)
                } else {
                    exists|best: Option<BuiltBlindedTransactionView>| #[trigger]
                        n.best_burn_gives(
                            n.build_ledger(),
                            utxo::balance(n.ledger.utxos, n.wallet.address()) as Amount,
                            best,
                        ) && (after, r) == n.burned(height, anchor, best)
                },
            }
        }
    }

    /// The node after it gave out the automatic burn of a height.
    pub open spec fn burned(
        self,
        height: u64,
        anchor: Option<TransactionView>,
        best: Option<BuiltBlindedTransactionView>,
    ) -> (NodeView, Result<Option<TransactionView>, Seq<char>>) {
        match best {
            None => (NodeView { last_auto_burn_height: Some(height), ..self }, Ok(anchor)),
            Some(b) => match self.owned_submitted(b) {
                (m, Err(e)) => (m, Err(e)),
                (m, Ok(_)) => (NodeView { last_auto_burn_height: Some(height), ..m }, Ok(Some(b.payload))),
            },
        }
    }

    /// The ledger with the anchor of the next block in it, and the anchor's signature; what pending
    /// envelopes name is the anchor's to spend.
    pub open spec fn anchored(self) -> (LedgerView, Option<Seq<char>>) {
        match self.open_anchor(self.ledger) {
            None => (self.ledger, None),
            Some(burn) => match self.ledger.without_conflicting(burn).submitted(burn) {
                (l, Ok(_)) => (l, Some(burn.signature())),
                (l, Err(_)) => (l, None),
            },
        }
    }

    /// The next block of the wallet.
    pub open spec fn next_work(self, timestamp_ms: u64) -> Result<PreparedBlockView, Seq<char>> {
        self.anchored().0.prepared(
            self.wallet.address(),
            timestamp_ms,
            self.usable_bundles(),
            self.anchored().1,
        )
    }

    /// The recovery block of the wallet.
    pub open spec fn recovery_work(self, timestamp_ms: u64) -> Result<PreparedBlockView, Seq<char>> {
        self.anchored().0.prepared_recovery(
            self.wallet.address(),
            timestamp_ms,
            self.usable_bundles(),
            self.anchored().1,
        )
    }

    /// The plan with the work that the wallet may do.
    pub open spec fn work_plan(self, timestamp_ms: u64, plan: PlanView) -> PlanView {
        match self.own_rank() {
            Some(rank) => if self.rank_runs(rank) {
                plan.working(self.next_work(timestamp_ms))
            } else {
                plan.skipped(rank_refusal(rank, self.recovery_vdf_top_rank_percent))
            },
            None => if self.joins_recovery(timestamp_ms) {
                plan.working(self.recovery_work(timestamp_ms))
            } else {
                PlanView {
                    skipped_reason: match self.ledger.next_leader() {
                        Some(leader) => Some(waiting_for(leader)),
                        None => None,
                    },
                    ..plan
                }
            },
        }
    }

    /// The node after it planned a block, and the plan.
    pub open spec fn block_planned(self, timestamp_ms: u64, plan: PlanView) -> (NodeView, PlanView) {
        match self.own_bundle_published() {
            (n, Err(e)) => (n, plan.skipped(e)),
            (n, Ok(_)) => (n, n.work_plan(timestamp_ms, plan)),
        }
    }

    /// What planning a block may give once the burn of its height may give a result.
    pub open spec fn planned_after_burn(
        self,
        timestamp_ms: u64,
        plan: PlanView,
        burned: Result<Option<TransactionView>, Seq<char>>,
    ) -> (NodeView, PlanView) {
        match burned {
            Err(e) => (self, plan.skipped("automatic burn failed: "@ + e)),
            Ok(t) => self.block_planned(timestamp_ms, PlanView { burned: t, ..plan }),
        }
    }

    /// What burning and planning a block may give.
    pub open spec fn burn_and_plan_gives(
        self,
        timestamp_ms: u64,
        start: PlanView,
        after: NodeView,
        plan: PlanView,
    ) -> bool {
        exists|m: NodeView, r: Result<Option<TransactionView>, Seq<char>>| #[trigger]
            self.auto_burn_gives(timestamp_ms, m, r) && (after, plan) == m.planned_after_burn(timestamp_ms, start, r)
    }

    /// What planning the next block by itself may give.
    #[verifier::opaque]
    pub open spec fn finalization_gives(self, timestamp_ms: u64, after: NodeView, plan: PlanView) -> bool {
        if self.wallet.is_locked() {
            after == self && plan == empty_plan().skipped("wallet is locked"@)
        } else if !self.automatic_mining_enabled {
            after == self && plan == empty_plan().skipped("automatic mining is off"@)
        } else {
            self.burn_and_plan_gives(timestamp_ms, empty_plan(), after, plan)
        }
    }

    /// The cursor of the search for proofs of work on the tip.
    pub open spec fn pow_cursor(self) -> CursorView {
        match self.cursor {
            Some(c) => if c.anchor == self.ledger.tip().hash {
                c
            } else {
                new_cursor(self.wallet.address(), self.ledger.tip().hash)
            },
            None => new_cursor(self.wallet.address(), self.ledger.tip().hash),
        }
    }

    /// What is tried next of the search for proofs of work.
    pub open spec fn pow_try(self, salt: u64, nonce: u64, remaining: u64) -> Result<MineSearchOutcomeView, Seq<char>> {
        match validate::address_check(self.wallet.address(), "mine recipient"@) {
            Err(e) => Err(e),
            Ok(_) => self.build_ledger().searched(self.wallet.address(), salt, nonce, 0, remaining as nat),
        }
    }

    /// The node after it searched for proofs of work and gave out those that it found.
    pub open spec fn pow_searched(self, salt: u64, nonce: u64, remaining: u64, found: PowFound) -> (
        NodeView,
        Result<PowFound, Seq<char>>,
    )
        decreases remaining,
    {
        if remaining == 0 {
            (self, Ok(PowFound { next_nonce: nonce, ..found }))
        } else {
            proof {
                builder::search_is_bounded(
                    self.build_ledger(),
                    self.wallet.address(),
                    salt,
                    nonce,
                    0,
                    remaining as nat,
                );
            }
            match self.pow_try(salt, nonce, remaining) {
                Err(e) => (self, Err(e)),
                Ok(o) => {
                    let tried = PowFound {
                        next_nonce: o.next_nonce,
                        attempts: node::plus(found.attempts, o.attempts),
                        ..found
                    };
                    match o.transaction {
                        None => (self, Ok(tried)),
                        Some(t) => match self.mine_submitted(t) {
                            (m, Err(e)) => (m, Err(e)),
                            (m, Ok(_)) => m.pow_searched(
                                salt,
                                o.next_nonce,
                                (remaining - o.attempts) as u64,
                                PowFound {
                                    queued: node::plus(found.queued, 1),
                                    first: if found.first is Some {
                                        found.first
                                    } else {
                                        Some(t)
                                    },
                                    ..tried
                                },
                            ),
                        },
                    }
                },
            }
        }
    }

    /// How many nonces a tick tries.
    pub open spec fn pow_budget(self) -> u64 {
        (AUTO_POW_NONCE_ATTEMPTS_PER_WORKER_TICK * self.pow_mining_workers) as u64
    }

    /// The node after a tick of the search for proofs of work, with the first that it found.
    pub open spec fn pow_mined(self) -> (NodeView, Result<Option<TransactionView>, Seq<char>>) {
        if !self.pow_mining_enabled {
            (NodeView { last_auto_pow_mine_status: None, cursor: None, ..self }, Ok(None))
        } else {
            let c = self.pow_cursor();
            let start = NodeView { cursor: Some(c), ..self };
            match start.pow_searched(c.salt, c.next_nonce, self.pow_budget(), nothing_found()) {
                (m, Err(e)) => (m, Err(e)),
                (m, Ok(found)) => {
                    let searched = node::plus(c.searched, found.attempts);
                    let n = NodeView {
                        cursor: Some(CursorView { next_nonce: found.next_nonce, searched, ..c }),
                        ..m
                    };
                    match found.first {
                        None => (
                            NodeView { last_auto_pow_mine_status: Some(no_proof_yet(searched)), ..n },
                            Ok(None),
                        ),
                        Some(t) => (
                            NodeView {
                                last_auto_pow_mine_anchor: Some(c.anchor),
                                last_auto_pow_mine_status: Some(proofs_queued(found.queued, searched)),
                                ..n
                            },
                            Ok(Some(t)),
                        ),
                    }
                },
            }
        }
    }

    /// The node after a tick of the search for proofs of work that is asked for from outside.
    pub open spec fn pow_ticked(self) -> (NodeView, Result<Option<TransactionView>, Seq<char>>) {
        if self.wallet.is_locked() {
            (self.lock_noted(), Ok(None))
        } else if self.pow_mining_enabled && !self.has_real_chain() {
            (
                NodeView {
                    last_auto_pow_mine_status: Some("waiting for a real chain before PoW mining can start"@),
                    cursor: None,
                    ..self
                },
                Ok(None),
            )
        } else {
            self.pow_mined()
        }
    }

    /// The node that says why it finds no proofs of work.
    pub open spec fn lock_noted(self) -> NodeView {
        if self.pow_mining_enabled {
            NodeView { last_auto_pow_mine_status: Some("wallet is locked"@), ..self }
        } else {
            self
        }
    }

    /// What a round of mining may plan.
    pub open spec fn mining_gives(self, timestamp_ms: u64, after: NodeView, plan: PlanView) -> bool {
        if self.wallet.is_locked() {
            after == self.lock_noted() && plan == empty_plan().skipped("wallet is locked"@)
        } else {
            match self.pow_mined() {
                (m, Err(e)) => {
                    let message = "automatic PoW mining failed: "@ + e;
                    after == (NodeView { last_auto_pow_mine_status: Some(message), ..m }) && plan
                        == empty_plan().skipped(message)
                },
                (m, Ok(mined)) => {
                    let start = PlanView { pow_mined: mined, ..empty_plan() };
                    if !m.automatic_mining_enabled {
                        after == m && plan == start.skipped("automatic mining is off"@)
                    } else {
                        m.burn_and_plan_gives(timestamp_ms, start, after, plan)
                    }
                },
            }
        }
    }

    /// The node after a block of its own was finished.
    pub open spec fn completed(self, p: PreparedBlockView, vdf_output: Seq<char>, timestamp_ms: u64, now_ms: u64) -> (
        NodeView,
        Result<BlockView, Seq<char>>,
    ) {
        match self.wallet {
            WalletView::Locked(_) => (self, Err("wallet is locked"@)),
            WalletView::Unlocked(seed) => {
                let b = p.finished(seed, vdf_output, p.finish_time(timestamp_ms));
                match self.own_block_taken(b, now_ms) {
                    (m, Err(e)) => (m, Err(e)),
                    (m, Ok(_)) => (m, Ok(b)),
                }
            },
        }
    }

    /// The node after a block of its own came on the chain.
    pub open spec fn own_block_taken(self, b: BlockView, now_ms: u64) -> (NodeView, Result<(), Seq<char>>) {
        let (l, applied) = self.ledger.block_applied(b, false, now_ms);
        let n = NodeView { ledger: l, ..self };
        match applied {
            Err(e) => (n, Err(e)),
            Ok(_) => n.after_block(b).sending(GossipView::Block(b)).published_for(b),
        }
    }

    /// The node after it made the next block.
    pub open spec fn mined_one(self, timestamp_ms: u64, now_ms: u64) -> (NodeView, Result<BlockView, Seq<char>>) {
        match self.own_bundle_published() {
            (n, Err(e)) => (n, Err(e)),
            (n, Ok(_)) => match n.next_work(timestamp_ms) {
                Err(e) => (n, Err(e)),
                Ok(p) => n.completed(p, vdf::vdf_solution(p.vdf_seed, p.vdf_rounds), timestamp_ms, now_ms),
            },
        }
    }

    /// The node after it carried out a plan, and what came of it.
    pub open spec fn carried_out(self, plan: PlanView, timestamp_ms: u64, now_ms: u64) -> (NodeView, OutcomeView) {
        let o = OutcomeView {
            pow_mined: plan.pow_mined,
            burned: plan.burned,
            block: None,
            skipped_reason: plan.skipped_reason,
        };
        match plan.work {
            None => (self, o),
            Some(p) => match self.completed(p, vdf::vdf_solution(p.vdf_seed, p.vdf_rounds), timestamp_ms, now_ms) {
                (m, Ok(b)) => (m, OutcomeView { block: Some(b), skipped_reason: None, ..o }),
                (m, Err(e)) => (m, OutcomeView { skipped_reason: Some(e), ..o }),
            },
        }
    }

    /// The node with other settings of the automatic burn.
    pub open spec fn with_burn_settings(self, enabled: bool, amount: Amount, fee: Amount) -> NodeView {
        let starts = (!self.automatic_mining_enabled || self.burn_per_block == 0) && enabled && amount > 0;
        NodeView {
            automatic_mining_enabled: enabled,
            burn_per_block: amount,
            burn_fee: fee,
            last_auto_burn_height: if starts {
                None
            } else {
                self.last_auto_burn_height
            },
            last_auto_anchor_burn_height: if starts {
                None
            } else {
                self.last_auto_anchor_burn_height
            },
            ..self
        }
    }
}

impl NodeView {
    /// What other settings of the automatic burn may give, at whatever time they are made.
    pub open spec fn burn_settings_give(
        self,
        enabled: bool,
        amount: Amount,
        fee: Amount,
        after: NodeView,
        r: Result<Option<TransactionView>, Seq<char>>,
    ) -> bool {
        let n = self.with_burn_settings(enabled, amount, fee);
        exists|now_ms: u64| #[trigger] n.auto_burn_gives(now_ms, after, r)
    }
}

/// Whether a burn and its fee fit in a balance.
pub open spec fn fits(found: Result<Estimated, Seq<char>>, amount: Amount, balance: Amount) -> bool {
    found matches Ok((_, estimate)) && amount + estimate.fee <= balance
}

pub open spec fn new_cursor(address: Seq<char>, anchor: Seq<char>) -> CursorView {
    CursorView { anchor, salt: pow_salt(address, anchor), next_nonce: 0, searched: 0 }
}

pub open spec fn nothing_found() -> PowFound {
    PowFound { next_nonce: 0, attempts: 0, queued: 0, first: None }
}

pub open spec fn rank_refusal(rank: u32, percent: u8) -> Seq<char> {
    "wallet finalizer rank "@ + text::decimal(rank as nat) + " is outside the top "@ + text::decimal(percent as nat)
        + "% VDF threshold"@
}

pub open spec fn waiting_for(leader: Seq<char>) -> Seq<char> {
    "wallet is waiting for selected finalizer "@ + leader + " to finish the VDF"@
}

pub open spec fn no_proof_yet(searched: u64) -> Seq<char> {
    "searched "@ + text::decimal(searched as nat) + " PoW nonces for the current tip; no proof yet"@
}

pub open spec fn proofs_queued(queued: u64, searched: u64) -> Seq<char> {
    "queued "@ + text::decimal(queued as nat) + " mine action"@ + (if queued == 1 {
        ""@
    } else {
        "s"@
    }) + " after "@ + text::decimal(searched as nat) + " PoW nonce attempts for the current tip"@
}

/// How many of the ranked tickets run the delay of a block.
pub fn allowed_recovery_vdf_rank_count(rank_count: usize, percent: u8) -> (r: usize)
    ensures
        r == allowed_ranks(rank_count as nat, percent),
{
    if rank_count == 0 || percent == 0 {
        return 0;
    }
    let share: usize = if percent > 100 {
        100
    } else {
        percent as usize
    };
    let product: usize = match rank_count.checked_mul(share) {
        Some(product) => product,
        None => usize::MAX,
    };
    product.saturating_add(99) / 100
}

/// The draw by which a wallet joins the recovery of a tip.
pub fn recovery_vdf_sample_percent(address: &str, tip_hash: &str) -> (r: u8)
    ensures
        r == sample_percent(address@, tip_hash@),
{
    let mut preimage = text::text("iuna-recovery-vdf-sample:");
    preimage.append(tip_hash);
    preimage.append(":");
    preimage.append(address);
    let digest = crypto::sha256_digest(preimage.as_str().as_bytes());
    digest[0] % 100
}

/// The salt of the search for proofs of work on an anchor.
pub fn auto_pow_salt(wallet_address: &str, anchor: &str) -> (r: u64)
    ensures
        r == pow_salt(wallet_address@, anchor@),
{
    let mut preimage = text::text("iuna-auto-pow:");
    preimage.append(wallet_address);
    preimage.append(":");
    preimage.append(anchor);
    let digest = crypto::sha256_digest(preimage.as_str().as_bytes());
    proof {
        lemma2_to64();
        lemma2_to64_rest();
    }
    vdf::leading_number(digest.as_slice(), 8) as u64
}

fn find_smallest(outputs: &Vec<(OutPoint, TxOutput)>, amount: Amount) -> (r: Option<OutPoint>)
    ensures
        match r {
            Some(outpoint) => smallest(outputs.deep_view(), amount) matches Some(found) && found.0
                == outpoint.deep_view(),
            None => smallest(outputs.deep_view(), amount) is None,
        },
{
    let ghost v = outputs.deep_view();
    let mut best: Option<usize> = None;
    let mut i: usize = 0;
    proof {
        model::take_all(v);
    }
    while i < outputs.len()
        invariant
            i <= outputs.len(),
            v == outputs.deep_view(),
            match best {
                Some(k) => k < i && smallest(v.take(i as int), amount) == Some(v[k as int]),
                None => smallest(v.take(i as int), amount) is None,
            },
        decreases outputs.len() - i,
    {
        proof {
            assert(v.take(i + 1).drop_last() =~= v.take(i as int));
            assert(v.take(i + 1).last() == v[i as int]);
        }
        if outputs[i].1.amount >= amount {
            let better = match best {
                Some(k) => outputs[i].1.amount < outputs[k].1.amount,
                None => true,
            };
            if better {
                best = Some(i);
            }
        }
        i = i + 1;
    }
    proof {
        model::take_all(v);
    }
    match best {
        Some(k) => Some(outputs[k].0.duplicate()),
        None => None,
    }
}

fn fits_balance(found: &Result<(BuiltBlindedTransaction, FeeEstimate), Error>, amount: Amount, balance: Amount) -> (r: bool)
    ensures
        r == fits(error::outcome(*found), amount, balance),
{
    match found {
        Ok((_, estimate)) => match amount.checked_add(estimate.fee) {
            Some(required) => required <= balance,
            None => false,
        },
        Err(_) => false,
    }
}

impl NodeCore {
    fn wallet_rank_runs_vdf(&self, rank: u32) -> (r: bool)
        requires
            self.wf(),
        ensures
            r == self.deep_view().rank_runs(rank),
    {
        let count: usize = self.ledger.finalizer_rank_count_for_next_block();
        let allowed: usize = allowed_recovery_vdf_rank_count(count, self.recovery_vdf_top_rank_percent);
        (rank as usize) < allowed
    }

    fn wallet_rank(&self) -> (r: Option<u32>)
        requires
            self.wf(),
        ensures
            r == self.deep_view().own_rank(),
    {
        self.ledger.finalizer_rank_for_next_block(self.wallet.address())
    }

    fn should_prepare_recovery_vdf(&self, timestamp_ms: u64) -> (r: bool)
        requires
            self.wf(),
        ensures
            r == self.deep_view().joins_recovery(timestamp_ms),
    {
        if !self.ledger.recovery_block_available_at(timestamp_ms) {
            return false;
        }
        if self.recovery_vdf_top_rank_percent == 100 {
            return true;
        }
        if self.recovery_vdf_top_rank_percent == 0 {
            return false;
        }
        if self.ledger.finalizer_rank_count_for_next_block() > 0 {
            return false;
        }
        let tip = self.ledger.tip();
        recovery_vdf_sample_percent(self.wallet.address(), tip.hash.as_str()) < self.recovery_vdf_top_rank_percent
    }

    fn automatic_burn_needs_plaintext_anchor(&self, timestamp_ms: u64) -> (r: bool)
        requires
            self.wf(),
        ensures
            r == self.deep_view().needs_anchor(timestamp_ms),
    {
        let leads = match self.wallet_rank() {
            Some(rank) => self.wallet_rank_runs_vdf(rank),
            None => false,
        };
        leads || self.should_prepare_recovery_vdf(timestamp_ms) || timestamp_ms.saturating_add(
            AUTO_PLAINTEXT_BURN_BEFORE_RECOVERY_MS,
        ) >= self.ledger.recovery_block_min_timestamp()
    }

    fn wallet_anchor_build_ledger(&self) -> (r: Ledger)
        requires
            self.wf(),
        ensures
            r.wf(),
            r.deep_view() == self.deep_view().anchor_ledger(),
    {
        let mut ledger = self.reserved_build_ledger();
        ledger.clear_pending_transactions();
        ledger.clear_pending_blinded_transactions();
        ledger
    }

    fn build_anchor(&self, wallet: &crate::wallet::Wallet) -> (r: Result<Transaction, Error>)
        requires
            self.wf(),
            self.deep_view().wallet == WalletView::Unlocked(wallet.seed()),
        ensures
            error::outcome(r) == self.deep_view().new_anchor(wallet.seed()),
    {
        let ledger = self.wallet_anchor_build_ledger();
        let required: Amount = AUTO_BLOCK_ANCHOR_BURN_AMOUNT + AUTO_BLOCK_ANCHOR_BURN_FEE;
        let outputs = match ledger.available_utxos_for_address(wallet.address()) {
            Ok(outputs) => outputs,
            Err(e) => {
                return Err(e);
            },
        };
        match find_smallest(&outputs, required) {
            Some(outpoint) => {
                let mut chosen: Vec<OutPoint> = Vec::new();
                chosen.push(outpoint);
                assert(model::views(chosen@) =~= seq![outpoint.deep_view()]);
                ledger.build_burn_with_inputs(
                    wallet,
                    AUTO_BLOCK_ANCHOR_BURN_AMOUNT,
                    AUTO_BLOCK_ANCHOR_BURN_FEE,
                    chosen.as_slice(),
                )
            },
            None => ledger.build_burn(wallet, AUTO_BLOCK_ANCHOR_BURN_AMOUNT, AUTO_BLOCK_ANCHOR_BURN_FEE),
        }
    }

    fn prepare_automatic_anchor_burn(&mut self, timestamp_ms: u64) -> (r: Result<Option<Transaction>, Error>)
        requires
            old(self).wf(),
        ensures
            final(self).wf(),
            final(self).deep_view().ledger == old(self).deep_view().ledger,
            (final(self).deep_view(), error::outcome(r)) == old(self).deep_view().anchor_burned(timestamp_ms),
    {
        let height: u64 = self.ledger.height();
        if !self.automatic_burn_needs_plaintext_anchor(timestamp_ms) {
            return Ok(None);
        }
        let anchored = match &self.local_block_anchor_burn {
            Some(anchor) => anchor.0 == height,
            None => false,
        };
        let tried = match self.last_auto_anchor_burn_height {
            Some(h) => h == height,
            None => false,
        };
        if anchored || tried {
            return Ok(None);
        }
        let built = match self.wallet.unlocked() {
            Err(e) => {
                return Err(e);
            },
            Ok(wallet) => self.build_anchor(wallet),
        };
        self.last_auto_anchor_burn_height = Some(height);
        match built {
            Err(e) => Err(e.context("automatic finalizer anchor burn failed")),
            Ok(burn) => {
                self.local_block_anchor_burn = Some((height, burn.duplicate()));
                Ok(Some(burn))
            },
        }
    }

    fn build_blinded_burn_with_fee_rate_on_ledger(&self, ledger: &Ledger, amount: Amount) -> (r: Result<
        (BuiltBlindedTransaction, FeeEstimate),
        Error,
    >)
        requires
            self.wf(),
            ledger.wf(),
        ensures
            self.deep_view().burn_estimate_gives(ledger.deep_view(), amount, error::outcome(r)),
    {
        let expires_at_height: u64 = self.default_blinded_transaction_expiry_height();
        payments::converge_fee_by_byte(
            &Payment::Burn { amount },
            ledger,
            &self.wallet,
            expires_at_height,
            self.burn_fee,
        )
    }

    fn build_blinded_burn_with_fee_on_ledger(&self, ledger: &Ledger, amount: Amount, fee: Amount) -> (r: Result<
        BuiltBlindedTransaction,
        Error,
    >)
        requires
            self.wf(),
            ledger.wf(),
        ensures
            self.deep_view().burn_gives(ledger.deep_view(), amount, fee, error::outcome(r)),
    {
        let expires_at_height: u64 = self.default_blinded_transaction_expiry_height();
        payments::try_payment(&Payment::Burn { amount }, ledger, &self.wallet, expires_at_height, fee)
    }

    /// Searches the largest burn that the balance pays for.
    fn search_largest_burn(&self, ledger: &Ledger, balance: Amount, target: Amount) -> (r: Option<BuiltBlindedTransaction>)
        requires
            self.wf(),
            ledger.wf(),
            target >= 1,
        ensures
            self.deep_view().searching(ledger.deep_view(), balance, 1, target, None, r.deep_view()),
    {
        let ghost n = self.deep_view();
        let ghost l = ledger.deep_view();
        let mut low: Amount = 1;
        let mut high: Amount = target;
        let mut best: Option<BuiltBlindedTransaction> = None;
        while low <= high
            invariant
                self.wf(),
                ledger.wf(),
                n == self.deep_view(),
                l == ledger.deep_view(),
                low >= 1,
                forall|result: Option<BuiltBlindedTransactionView>| #[trigger]
                    n.searching(l, balance, low, high, best.deep_view(), result) ==> n.searching(
                        l,
                        balance,
                        1,
                        target,
                        None,
                        result,
                    ),
            decreases
                    if low > high {
                        0
                    } else {
                        high - low + 1
                    },
        {
            let ghost known = best.deep_view();
            let amount: Amount = low + (high - low) / 2;
            let found = self.build_blinded_burn_with_fee_rate_on_ledger(ledger, amount);
            let ghost outcome = error::outcome(found);
            assert(n.burn_estimate_gives(l, amount, outcome));
            let fit = fits_balance(&found, amount, balance);
            if fit {
                match found {
                    Ok((built, _)) => {
                        let ghost b = built.deep_view();
                        if amount == u64::MAX {
                            assert(n.searching(l, balance, low, high, known, Some(b)));
                            return Some(built);
                        }
                        best = Some(built);
                        let ghost next = (amount + 1) as Amount;
                        proof {
                            assert forall|result: Option<BuiltBlindedTransactionView>| #[trigger]
                                n.searching(l, balance, next, high, best.deep_view(), result) implies n.searching(
                                l,
                                balance,
                                1,
                                target,
                                None,
                                result,
                            ) by {
                                assert(n.searching(l, balance, low, high, known, result));
                            }
                        }
                        low = amount + 1;
                    },
                    Err(_) => {
                        return best;
                    },
                }
            } else {
                let ghost next = (amount - 1) as Amount;
                proof {
                    assert forall|result: Option<BuiltBlindedTransactionView>| #[trigger]
                        n.searching(l, balance, low, next, known, result) implies n.searching(
                        l,
                        balance,
                        1,
                        target,
                        None,
                        result,
                    ) by {
                        assert(n.searching(l, balance, low, high, known, result));
                    }
                }
                high = amount - 1;
            }
        }
        assert(n.searching(l, balance, low, high, best.deep_view(), best.deep_view()));
        best
    }

    fn best_automatic_burn_on_ledger(&self, ledger: &Ledger, balance: Amount) -> (r: Option<BuiltBlindedTransaction>)
        requires
            self.wf(),
            ledger.wf(),
        ensures
            self.deep_view().best_burn_gives(ledger.deep_view(), balance, r.deep_view()),
    {
        let ghost n = self.deep_view();
        let ghost l = ledger.deep_view();
        let target: Amount = if self.burn_per_block < balance {
            self.burn_per_block
        } else {
            balance
        };
        if target == 0 {
            return None;
        }
        let exact = self.build_blinded_burn_with_fee_rate_on_ledger(ledger, target);
        let ghost e = error::outcome(exact);
        assert(n.burn_estimate_gives(l, target, e));
        assert(target == n.burn_target(balance));
        if fits_balance(&exact, target, balance) {
            if let Ok((built, _)) = exact {
                assert(n.best_after_exact(l, balance, e, Some(built.deep_view())));
                return Some(built);
            }
        }
        if self.burn_per_block <= balance {
            let fixed = self.build_blinded_burn_with_fee_on_ledger(ledger, target, balance - target);
            let ghost f = error::outcome(fixed);
            assert(n.burn_gives(l, target, (balance - target) as Amount, f));
            if let Ok(built) = fixed {
                assert(n.best_after_exact(l, balance, e, Some(built.deep_view())));
                return Some(built);
            }
        }
        let largest = self.search_largest_burn(ledger, balance, target);
        assert(n.best_after_exact(l, balance, e, largest.deep_view()));
        largest
    }

    /// Burns what the settings ask for at the height of the chain.
    pub(crate) fn prepare_automatic_burn(&mut self, timestamp_ms: u64) -> (r: Result<Option<Transaction>, Error>)
        requires
            old(self).wf(),
        ensures
            final(self).wf(),
            final(self).deep_view().ledger.chain == old(self).deep_view().ledger.chain,
            old(self).deep_view().auto_burn_gives(timestamp_ms, final(self).deep_view(), error::outcome(r)),
    {
        let height: u64 = self.ledger.height();
        if !self.automatic_mining_enabled {
            return Ok(None);
        }
        let anchor = match self.prepare_automatic_anchor_burn(timestamp_ms) {
            Err(e) => {
                return Err(e);
            },
            Ok(anchor) => anchor,
        };
        let ghost n = self.deep_view();
        if self.burn_per_block == 0 {
            self.last_auto_burn_height = Some(height);
            return Ok(anchor);
        }
        let done = match self.last_auto_burn_height {
            Some(h) => h == height,
            None => false,
        };
        if done {
            return Ok(anchor);
        }
        let balance: Amount = self.ledger.balance_of(self.wallet.address());
        let ledger = self.wallet_build_ledger();
        let best = self.best_automatic_burn_on_ledger(&ledger, balance);
        let ghost b = best.deep_view();
        assert(n.best_burn_gives(n.build_ledger(), utxo::balance(n.ledger.utxos, n.wallet.address()) as Amount, b));
        match best {
            None => {
                self.last_auto_burn_height = Some(height);
                assert((self.deep_view(), Ok::<Option<TransactionView>, Seq<char>>(anchor.deep_view())) == n.burned(
                    height,
                    anchor.deep_view(),
                    b,
                ));
                Ok(anchor)
            },
            Some(built) => {
                let burn = built.payload.duplicate();
                proof {
                    relay::envelope_keeps_chain(n.owning(built.deep_view()).bumped(), built.deep_view().transaction);
                }
                match self.submit_owned_blinded_transaction(built) {
                    Err(e) => Err(e),
                    Ok(_) => {
                        self.last_auto_burn_height = Some(height);
                        Ok(Some(burn))
                    },
                }
            },
        }
    }

    /// Sets the automatic burn of a block, at the fee rate that is set.
    pub fn set_burn_per_block(&mut self, amount: Amount) -> (r: Result<Option<Transaction>, Error>)
        requires
            old(self).wf(),
        ensures
            final(self).wf(),
            old(self).deep_view().burn_settings_give(
                amount > 0,
                amount,
                old(self).deep_view().burn_fee,
                final(self).deep_view(),
                error::outcome(r),
            ),
    {
        let fee: Amount = self.burn_fee;
        self.set_automatic_burn_settings(amount > 0, amount, fee)
    }

    /// Sets the automatic burn of a block and its fee rate.
    pub fn set_automatic_burn(&mut self, amount: Amount, fee: Amount) -> (r: Result<Option<Transaction>, Error>)
        requires
            old(self).wf(),
        ensures
            final(self).wf(),
            old(self).deep_view().burn_settings_give(
                amount > 0,
                amount,
                fee,
                final(self).deep_view(),
                error::outcome(r),
            ),
    {
        self.set_automatic_burn_settings(amount > 0, amount, fee)
    }

    /// Sets whether the node mines by itself, what it burns and at which fee rate.
    pub fn set_automatic_burn_settings(&mut self, enabled: bool, amount: Amount, fee: Amount) -> (r: Result<
        Option<Transaction>,
        Error,
    >)
        requires
            old(self).wf(),
        ensures
            final(self).wf(),
            old(self).deep_view().burn_settings_give(
                enabled,
                amount,
                fee,
                final(self).deep_view(),
                error::outcome(r),
            ),
    {
        let ghost n = self.deep_view();
        let was_disabled = !self.automatic_mining_enabled || self.burn_per_block == 0;
        self.automatic_mining_enabled = enabled;
        self.burn_per_block = amount;
        self.burn_fee = fee;
        if was_disabled && enabled && amount > 0 {
            self.last_auto_burn_height = None;
            self.last_auto_anchor_burn_height = None;
        }
        proof {
            node::settings_keep_validity(n, self.deep_view());
            assert(self.deep_view() == n.with_burn_settings(enabled, amount, fee));
        }
        let now: u64 = crypto::unix_now_ms();
        self.prepare_automatic_burn(now)
    }
}

fn rank_message(rank: u32, percent: u8) -> (r: String)
    ensures
        r@ == rank_refusal(rank, percent),
{
    let mut message = text::text("wallet finalizer rank ");
    text::push_decimal(&mut message, rank as u128);
    message.append(" is outside the top ");
    text::push_decimal(&mut message, percent as u128);
    message.append("% VDF threshold");
    message
}

fn waiting_message(leader: &str) -> (r: String)
    ensures
        r@ == waiting_for(leader@),
{
    let mut message = text::text("wallet is waiting for selected finalizer ");
    message.append(leader);
    message.append(" to finish the VDF");
    message
}

fn no_proof_message(searched: u64) -> (r: String)
    ensures
        r@ == no_proof_yet(searched),
{
    let mut message = text::text("searched ");
    text::push_decimal(&mut message, searched as u128);
    message.append(" PoW nonces for the current tip; no proof yet");
    message
}

fn queued_message(queued: u64, searched: u64) -> (r: String)
    ensures
        r@ == proofs_queued(queued, searched),
{
    let mut message = text::text("queued ");
    text::push_decimal(&mut message, queued as u128);
    message.append(" mine action");
    if queued == 1 {
        message.append("");
    } else {
        message.append("s");
    }
    message.append(" after ");
    text::push_decimal(&mut message, searched as u128);
    message.append(" PoW nonce attempts for the current tip");
    message
}

fn failure_message(what: &str, error: &Error) -> (r: String)
    ensures
        r@ == what@ + error.deep_view(),
{
    let mut message = text::text(what);
    message.append(error.message());
    message
}

impl AutoMinePlan {
    fn empty() -> (r: Self)
        ensures
            r.deep_view() == empty_plan(),
    {
        AutoMinePlan { pow_mined: None, burned: None, work: None, skipped_reason: None }
    }

    fn skip(self, reason: String) -> (r: Self)
        ensures
            r.deep_view() == self.deep_view().skipped(reason@),
    {
        AutoMinePlan { pow_mined: self.pow_mined, burned: self.burned, work: self.work, skipped_reason: Some(reason) }
    }

    fn with_work(self, work: Result<PreparedBlock, Error>) -> (r: Self)
        ensures
            r.deep_view() == self.deep_view().working(error::outcome(work)),
    {
        match work {
            Ok(w) => AutoMinePlan {
                pow_mined: self.pow_mined,
                burned: self.burned,
                work: Some(w),
                skipped_reason: self.skipped_reason,
            },
            Err(e) => self.skip(e.message),
        }
    }
}

impl NodeCore {
    fn ledger_with_local_block_anchor(&self) -> (r: (Ledger, Option<String>))
        requires
            self.wf(),
        ensures
            r.0.wf(),
            (r.0.deep_view(), r.1.deep_view()) == self.deep_view().anchored(),
            r.0.deep_view().chain == self.deep_view().ledger.chain,
    {
        let mut ledger = self.clone_ledger();
        match self.open_anchor_burn() {
            None => (ledger, None),
            Some(burn) => {
                ledger.drop_pending_blinded_conflicting_with_transaction(burn);
                proof {
                    forks::submitting_keeps_chain(ledger.deep_view(), burn.deep_view());
                }
                match ledger.submit_transaction(burn.duplicate()) {
                    Ok(_) => (ledger, Some(text::text(burn.signature()))),
                    Err(_) => (ledger, None),
                }
            },
        }
    }

    /// The next block of the wallet, with the anchor of this node in it.
    pub fn prepare_next_block_with_local_anchor(&self, timestamp_ms: u64) -> (r: Result<PreparedBlock, Error>)
        requires
            self.wf(),
        ensures
            error::outcome(r) == self.deep_view().next_work(timestamp_ms),
    {
        let (ledger, signature) = self.ledger_with_local_block_anchor();
        let bundles = self.usable_reveal_bundles();
        let required: Option<&str> = match &signature {
            Some(s) => Some(s.as_str()),
            None => None,
        };
        ledger.prepare_next_block_with_required_burn_and_reveal_bundles(
            self.wallet.address(),
            timestamp_ms,
            bundles,
            required,
        )
    }

    /// The recovery block of the wallet, with the anchor of this node in it.
    pub fn prepare_recovery_block_with_local_anchor(&self, timestamp_ms: u64) -> (r: Result<PreparedBlock, Error>)
        requires
            self.wf(),
            self.deep_view().ledger.tip().timestamp_ms < u64::MAX || timestamp_ms < u64::MAX,
        ensures
            error::outcome(r) == self.deep_view().recovery_work(timestamp_ms),
    {
        let (ledger, signature) = self.ledger_with_local_block_anchor();
        let bundles = self.usable_reveal_bundles();
        let required: Option<&str> = match &signature {
            Some(s) => Some(s.as_str()),
            None => None,
        };
        ledger.prepare_recovery_block_with_required_burn_and_reveal_bundles(
            self.wallet.address(),
            timestamp_ms,
            bundles,
            required,
        )
    }

    fn plan_work(&self, timestamp_ms: u64, plan: AutoMinePlan) -> (r: AutoMinePlan)
        requires
            self.wf(),
            self.deep_view().ledger.tip().timestamp_ms < u64::MAX || timestamp_ms < u64::MAX,
        ensures
            r.deep_view() == self.deep_view().work_plan(timestamp_ms, plan.deep_view()),
    {
        match self.wallet_rank() {
            Some(rank) => if self.wallet_rank_runs_vdf(rank) {
                plan.with_work(self.prepare_next_block_with_local_anchor(timestamp_ms))
            } else {
                plan.skip(rank_message(rank, self.recovery_vdf_top_rank_percent))
            },
            None => if self.should_prepare_recovery_vdf(timestamp_ms) {
                plan.with_work(self.prepare_recovery_block_with_local_anchor(timestamp_ms))
            } else {
                let reason = match self.ledger.expected_leader_for_next_block() {
                    Some(leader) => Some(waiting_message(leader.as_str())),
                    None => None,
                };
                AutoMinePlan {
                    pow_mined: plan.pow_mined,
                    burned: plan.burned,
                    work: plan.work,
                    skipped_reason: reason,
                }
            },
        }
    }

    fn burn_and_plan(&mut self, timestamp_ms: u64, plan: AutoMinePlan) -> (r: AutoMinePlan)
        requires
            old(self).wf(),
            old(self).deep_view().ledger.tip().timestamp_ms < u64::MAX || timestamp_ms < u64::MAX,
        ensures
            final(self).wf(),
            old(self).deep_view().burn_and_plan_gives(
                timestamp_ms,
                plan.deep_view(),
                final(self).deep_view(),
                r.deep_view(),
            ),
    {
        let ghost n = self.deep_view();
        let ghost start = plan.deep_view();
        let burned = self.prepare_automatic_burn(timestamp_ms);
        let ghost m = self.deep_view();
        let ghost b = error::outcome(burned);
        assert(n.auto_burn_gives(timestamp_ms, m, b));
        match burned {
            Err(e) => plan.skip(failure_message("automatic burn failed: ", &e)),
            Ok(tx) => {
                let plan = AutoMinePlan {
                    pow_mined: plan.pow_mined,
                    burned: tx,
                    work: plan.work,
                    skipped_reason: plan.skipped_reason,
                };
                match self.publish_reveal_bundle_for_next_block() {
                    Err(e) => plan.skip(e.message),
                    Ok(_) => self.plan_work(timestamp_ms, plan),
                }
            },
        }
    }

    /// Burns and plans the next block, where the settings ask for it.
    pub fn prepare_automatic_finalization(&mut self, timestamp_ms: u64) -> (r: AutoMinePlan)
        requires
            old(self).wf(),
            old(self).deep_view().ledger.tip().timestamp_ms < u64::MAX || timestamp_ms < u64::MAX,
        ensures
            final(self).wf(),
            old(self).deep_view().finalization_gives(timestamp_ms, final(self).deep_view(), r.deep_view()),
    {
        proof {
            reveal(NodeView::finalization_gives);
        }
        if self.wallet.is_locked() {
            return AutoMinePlan::empty().skip(text::text("wallet is locked"));
        }
        if !self.automatic_mining_enabled {
            return AutoMinePlan::empty().skip(text::text("automatic mining is off"));
        }
        self.burn_and_plan(timestamp_ms, AutoMinePlan::empty())
    }

    fn take_pow_cursor(&self) -> (r: AutoPowMineCursor)
        requires
            self.wf(),
        ensures
            r.deep_view() == self.deep_view().pow_cursor(),
    {
        let anchor = self.ledger.tip().hash.clone();
        if let Some(cursor) = &self.auto_pow_mine_cursor {
            if text::text_eq(cursor.anchor.as_str(), anchor.as_str()) {
                return AutoPowMineCursor {
                    anchor,
                    salt: cursor.salt,
                    next_nonce: cursor.next_nonce,
                    searched: cursor.searched,
                };
            }
        }
        let salt: u64 = auto_pow_salt(self.wallet.address(), anchor.as_str());
        AutoPowMineCursor { anchor, salt, next_nonce: 0, searched: 0 }
    }

    fn try_pow(&self, salt: u64, nonce: u64, remaining: u64) -> (r: Result<builder::MineSearchOutcome, Error>)
        requires
            self.wf(),
        ensures
            error::outcome(r) == self.deep_view().pow_try(salt, nonce, remaining),
    {
        let ledger = self.wallet_build_ledger();
        ledger.search_mine(self.wallet.address(), salt, nonce, remaining)
    }

    /// Searches for proofs of work on the tip and gives out those that it finds.
    fn search_pow(&mut self, salt: u64, start_nonce: u64, budget: u64) -> (r: Result<
        (u64, u64, u64, Option<Transaction>),
        Error,
    >)
        requires
            old(self).wf(),
        ensures
            final(self).wf(),
            final(self).deep_view().ledger.chain == old(self).deep_view().ledger.chain,
            final(self).deep_view().cursor == old(self).deep_view().cursor,
            match r {
                Ok(found) => old(self).deep_view().pow_searched(salt, start_nonce, budget, nothing_found()) == (
                    final(self).deep_view(),
                    Ok::<PowFound, Seq<char>>(
                        PowFound {
                            next_nonce: found.0,
                            attempts: found.1,
                            queued: found.2,
                            first: found.3.deep_view(),
                        },
                    ),
                ),
                Err(e) => old(self).deep_view().pow_searched(salt, start_nonce, budget, nothing_found()) == (
                    final(self).deep_view(),
                    Err::<PowFound, Seq<char>>(e.deep_view()),
                ),
            },
    {
        let ghost n = self.deep_view();
        let ghost goal = n.pow_searched(salt, start_nonce, budget, nothing_found());
        let mut nonce: u64 = start_nonce;
        let mut remaining: u64 = budget;
        let mut attempts: u64 = 0;
        let mut queued: u64 = 0;
        let mut first: Option<Transaction> = None;
        let ghost mut found = nothing_found();
        while remaining > 0
            invariant
                self.wf(),
                n == old(self).deep_view(),
                self.deep_view().ledger.chain == n.ledger.chain,
                self.deep_view().cursor == n.cursor,
                goal == n.pow_searched(salt, start_nonce, budget, nothing_found()),
                found.attempts == attempts,
                found.queued == queued,
                found.first == first.deep_view(),
                goal == self.deep_view().pow_searched(salt, nonce, remaining, found),
            decreases remaining,
        {
            let ghost m = self.deep_view();
            proof {
                builder::search_is_bounded(
                    m.build_ledger(),
                    m.wallet.address(),
                    salt,
                    nonce,
                    0,
                    remaining as nat,
                );
            }
            let outcome = match self.try_pow(salt, nonce, remaining) {
                Err(e) => {
                    return Err(e);
                },
                Ok(outcome) => outcome,
            };
            attempts = attempts.saturating_add(outcome.attempts);
            let ghost o = outcome.deep_view();
            proof {
                found = PowFound { next_nonce: o.next_nonce, attempts, ..found };
            }
            match outcome.transaction {
                None => {
                    return Ok((outcome.next_nonce, attempts, queued, first));
                },
                Some(tx) => {
                    proof {
                        relay::mine_keeps_chain(m, tx.deep_view());
                    }
                    match self.submit_public_mine_action(tx.duplicate()) {
                        Err(e) => {
                            return Err(e);
                        },
                        Ok(_) => {},
                    }
                    queued = queued.saturating_add(1);
                    if first.is_none() {
                        first = Some(tx);
                    }
                    proof {
                        found = PowFound { queued, first: first.deep_view(), ..found };
                    }
                },
            }
            remaining = remaining - outcome.attempts;
            nonce = outcome.next_nonce;
        }
        Ok((nonce, attempts, queued, first))
    }

    fn prepare_automatic_pow_mine(&mut self) -> (r: Result<Option<Transaction>, Error>)
        requires
            old(self).wf(),
        ensures
            final(self).wf(),
            final(self).deep_view().ledger.chain == old(self).deep_view().ledger.chain,
            (final(self).deep_view(), error::outcome(r)) == old(self).deep_view().pow_mined(),
    {
        if !self.pow_mining_enabled {
            self.last_auto_pow_mine_status = None;
            self.auto_pow_mine_cursor = None;
            return Ok(None);
        }
        let ghost n = self.deep_view();
        let cursor = self.take_pow_cursor();
        let anchor = cursor.anchor.clone();
        let salt: u64 = cursor.salt;
        let next_nonce: u64 = cursor.next_nonce;
        let before: u64 = cursor.searched;
        let ghost c = cursor.deep_view();
        let budget: u64 = AUTO_POW_NONCE_ATTEMPTS_PER_WORKER_TICK * self.pow_mining_workers as u64;
        self.auto_pow_mine_cursor = Some(cursor);
        proof {
            node::settings_keep_validity(n, self.deep_view());
            assert(self.deep_view() == (NodeView { cursor: Some(c), ..n }));
        }
        match self.search_pow(salt, next_nonce, budget) {
            Err(e) => Err(e),
            Ok((nonce, attempts, queued, first)) => {
                let ghost m = self.deep_view();
                let searched: u64 = before.saturating_add(attempts);
                self.auto_pow_mine_cursor = Some(
                    AutoPowMineCursor { anchor: anchor.clone(), salt, next_nonce: nonce, searched },
                );
                let r = match first {
                    None => {
                        self.last_auto_pow_mine_status = Some(no_proof_message(searched));
                        Ok(None)
                    },
                    Some(tx) => {
                        self.last_auto_pow_mine_anchor = Some(anchor);
                        self.last_auto_pow_mine_status = Some(queued_message(queued, searched));
                        Ok(Some(tx))
                    },
                };
                proof {
                    node::settings_keep_validity(m, self.deep_view());
                }
                r
            },
        }
    }

    fn note_lock(&mut self)
        requires
            old(self).wf(),
        ensures
            final(self).wf(),
            final(self).deep_view() == old(self).deep_view().lock_noted(),
    {
        if self.pow_mining_enabled {
            self.last_auto_pow_mine_status = Some(text::text("wallet is locked"));
        }
    }

    /// A tick of the search for proofs of work.
    pub fn prepare_automatic_pow_mining(&mut self) -> (r: Result<Option<Transaction>, Error>)
        requires
            old(self).wf(),
        ensures
            final(self).wf(),
            (final(self).deep_view(), error::outcome(r)) == old(self).deep_view().pow_ticked(),
    {
        if self.wallet.is_locked() {
            self.note_lock();
            return Ok(None);
        }
        if self.pow_mining_enabled && !self.has_real_chain() {
            let ghost n = self.deep_view();
            self.last_auto_pow_mine_status = Some(text::text("waiting for a real chain before PoW mining can start"));
            self.auto_pow_mine_cursor = None;
            proof {
                node::settings_keep_validity(n, self.deep_view());
            }
            return Ok(None);
        }
        self.prepare_automatic_pow_mine()
    }

    /// Says why the search for proofs of work failed.
    pub fn record_automatic_pow_mining_error(&mut self, message: String)
        requires
            old(self).wf(),
        ensures
            final(self).wf(),
            final(self).deep_view() == (NodeView {
                last_auto_pow_mine_status: Some(message@),
                ..old(self).deep_view()
            }),
    {
        self.last_auto_pow_mine_status = Some(message);
    }

    /// Searches for proofs of work, burns and plans the next block, where the settings ask for it.
    pub fn prepare_automatic_mining(&mut self, timestamp_ms: u64) -> (r: AutoMinePlan)
        requires
            old(self).wf(),
            old(self).deep_view().ledger.tip().timestamp_ms < u64::MAX || timestamp_ms < u64::MAX,
        ensures
            final(self).wf(),
            old(self).deep_view().mining_gives(timestamp_ms, final(self).deep_view(), r.deep_view()),
    {
        if self.wallet.is_locked() {
            self.note_lock();
            return AutoMinePlan::empty().skip(text::text("wallet is locked"));
        }
        match self.prepare_automatic_pow_mine() {
            Err(e) => {
                let message = failure_message("automatic PoW mining failed: ", &e);
                self.last_auto_pow_mine_status = Some(message.clone());
                AutoMinePlan::empty().skip(message)
            },
            Ok(mined) => {
                let plan = AutoMinePlan { pow_mined: mined, burned: None, work: None, skipped_reason: None };
                if !self.automatic_mining_enabled {
                    return plan.skip(text::text("automatic mining is off"));
                }
                self.burn_and_plan(timestamp_ms, plan)
            },
        }
    }

    /// Takes in a block of the wallet whose delay was run, with the time of the clock.
    pub fn complete_prepared_block_with_clock(
        &mut self,
        work: PreparedBlock,
        vdf_output: String,
        timestamp_ms: u64,
        now_ms: u64,
    ) -> (r: Result<Block, Error>)
        requires
            old(self).wf(),
        ensures
            final(self).wf(),
            (final(self).deep_view(), error::outcome(r)) == old(self).deep_view().completed(
                work.deep_view(),
                vdf_output@,
                timestamp_ms,
                now_ms,
            ),
    {
        let block = match self.wallet.unlocked() {
            Err(e) => {
                return Err(e);
            },
            Ok(wallet) => work.finish_at(wallet, vdf_output, timestamp_ms),
        };
        match self.take_own_block(&block, now_ms) {
            Err(e) => Err(e),
            Ok(_) => Ok(block),
        }
    }

    fn take_own_block(&mut self, block: &Block, now_ms: u64) -> (r: Result<(), Error>)
        requires
            old(self).wf(),
        ensures
            final(self).wf(),
            (final(self).deep_view(), error::outcome(r)) == old(self).deep_view().own_block_taken(
                block.deep_view(),
                now_ms,
            ),
    {
        let ghost n = self.deep_view();
        let applied = self.ledger.apply_preverified_block_at(block.duplicate(), now_ms);
        proof {
            relay::another_ledger(n, self.ledger.deep_view());
            assert(self.deep_view() == (NodeView { ledger: self.ledger.deep_view(), ..n }));
        }
        match applied {
            Err(e) => Err(e),
            Ok(_) => {
                self.settle_block(block);
                self.send(GossipEnvelope::Block(block.duplicate()));
                self.publish_owned_reveals_for_block(block)
            },
        }
    }

    /// Takes in a block of the wallet whose delay was run, at a time.
    pub fn complete_prepared_block_at(&mut self, work: PreparedBlock, vdf_output: String, timestamp_ms: u64) -> (r: Result<
        Block,
        Error,
    >)
        requires
            old(self).wf(),
        ensures
            final(self).wf(),
            exists|now_ms: u64|
                (final(self).deep_view(), error::outcome(r)) == #[trigger] old(self).deep_view().completed(
                    work.deep_view(),
                    vdf_output@,
                    timestamp_ms,
                    now_ms,
                ),
    {
        let now: u64 = crypto::unix_now_ms();
        self.complete_prepared_block_with_clock(work, vdf_output, timestamp_ms, now)
    }

    /// Takes in a block of the wallet whose delay was run.
    pub fn complete_prepared_block(&mut self, work: PreparedBlock, vdf_output: String) -> (r: Result<Block, Error>)
        requires
            old(self).wf(),
        ensures
            final(self).wf(),
            exists|timestamp_ms: u64, now_ms: u64|
                (final(self).deep_view(), error::outcome(r)) == #[trigger] old(self).deep_view().completed(
                    work.deep_view(),
                    vdf_output@,
                    timestamp_ms,
                    now_ms,
                ),
    {
        let timestamp_ms: u64 = crypto::unix_now_ms();
        let now: u64 = crypto::unix_now_ms();
        self.complete_prepared_block_with_clock(work, vdf_output, timestamp_ms, now)
    }

    /// Makes the next block, with the time of the clock.
    pub fn mine_one_with_clock(&mut self, timestamp_ms: u64, now_ms: u64) -> (r: Result<Block, Error>)
        requires
            old(self).wf(),
        ensures
            final(self).wf(),
            (final(self).deep_view(), error::outcome(r)) == old(self).deep_view().mined_one(timestamp_ms, now_ms),
    {
        match self.publish_reveal_bundle_for_next_block() {
            Err(e) => {
                return Err(e);
            },
            Ok(_) => {},
        }
        let work = match self.prepare_next_block_with_local_anchor(timestamp_ms) {
            Err(e) => {
                return Err(e);
            },
            Ok(work) => work,
        };
        let vdf_output = vdf::run_vdf(work.vdf_seed(), work.vdf_rounds());
        self.complete_prepared_block_with_clock(work, vdf_output, timestamp_ms, now_ms)
    }

    /// Makes the next block at a time.
    pub fn mine_one_at(&mut self, timestamp_ms: u64) -> (r: Result<Block, Error>)
        requires
            old(self).wf(),
        ensures
            final(self).wf(),
            exists|now_ms: u64|
                (final(self).deep_view(), error::outcome(r)) == #[trigger] old(self).deep_view().mined_one(
                    timestamp_ms,
                    now_ms,
                ),
    {
        let now: u64 = crypto::unix_now_ms();
        self.mine_one_with_clock(timestamp_ms, now)
    }

    /// Makes the next block.
    pub fn mine_one(&mut self) -> (r: Result<Block, Error>)
        requires
            old(self).wf(),
        ensures
            final(self).wf(),
            exists|timestamp_ms: u64, now_ms: u64|
                (final(self).deep_view(), error::outcome(r)) == #[trigger] old(self).deep_view().mined_one(
                    timestamp_ms,
                    now_ms,
                ),
    {
        let timestamp_ms: u64 = crypto::unix_now_ms();
        let now: u64 = crypto::unix_now_ms();
        self.mine_one_with_clock(timestamp_ms, now)
    }

    /// A round of mining.
    pub fn automatic_mine_once(&mut self, timestamp_ms: u64) -> (r: AutoMineOutcome)
        requires
            old(self).wf(),
            old(self).deep_view().ledger.tip().timestamp_ms < u64::MAX || timestamp_ms < u64::MAX,
        ensures
            final(self).wf(),
            exists|m: NodeView, plan: PlanView, now_ms: u64|
                old(self).deep_view().mining_gives(timestamp_ms, m, plan) && (final(self).deep_view(), r.deep_view())
                    == #[trigger] m.carried_out(plan, timestamp_ms, now_ms),
    {
        let plan = self.prepare_automatic_mining(timestamp_ms);
        let ghost m = self.deep_view();
        let ghost p = plan.deep_view();
        let now: u64 = crypto::unix_now_ms();
        match plan.work {
            None => {
                let r = AutoMineOutcome {
                    pow_mined: plan.pow_mined,
                    burned: plan.burned,
                    block: None,
                    skipped_reason: plan.skipped_reason,
                };
                assert((self.deep_view(), r.deep_view()) == m.carried_out(p, timestamp_ms, now));
                r
            },
            Some(work) => {
                let vdf_output = vdf::run_vdf(work.vdf_seed(), work.vdf_rounds());
                let r = match self.complete_prepared_block_with_clock(work, vdf_output, timestamp_ms, now) {
                    Ok(block) => AutoMineOutcome {
                        pow_mined: plan.pow_mined,
                        burned: plan.burned,
                        block: Some(block),
                        skipped_reason: None,
                    },
                    Err(e) => AutoMineOutcome {
                        pow_mined: plan.pow_mined,
                        burned: plan.burned,
                        block: None,
                        skipped_reason: Some(e.message),
                    },
                };
                assert((self.deep_view(), r.deep_view()) == m.carried_out(p, timestamp_ms, now));
                r
            },
        }
    }
}

} // verus!
