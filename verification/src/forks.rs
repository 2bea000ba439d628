//! Snapshots of a chain, and the choice between two chains.
use crate::blinded::{
    BlindedReveal, BlindedRevealView, BlindedTransaction, BlindedTransactionView, RevealedBlindedTransaction,
};
use crate::block::{Block, BlockView};
use crate::block;
use crate::crypto;
use crate::error;
use crate::error::Error;
use crate::genesis;
use crate::genesis::{Allocations, AllocationsView};
use crate::ledger;
use crate::ledger::{Ledger, LedgerView};
use crate::model;
use crate::model::Model;
use crate::replay;
use crate::tickets::{LaunchProfile, LaunchProfileView};
use crate::transaction::{Transaction, TransactionView};
use vstd::prelude::*;
use vstd::string::*;

verus! {

pub const FORK_FINALITY_DEPTH: u64 = 6;

/// A chain with what it started from.
#[derive(Clone, Debug, Eq, PartialEq)]
pub struct ChainSnapshot {
    pub genesis_allocations: Allocations,
    pub vdf_rounds: u64,
    pub launch_profile: LaunchProfile,
    pub blocks: Vec<Block>,
}

#[verifier::ext_equal]
pub struct ChainSnapshotView {
    pub genesis_allocations: AllocationsView,
    pub vdf_rounds: u64,
    pub launch_profile: LaunchProfileView,
    pub blocks: Seq<BlockView>,
}

impl DeepView for ChainSnapshot {
    type V = ChainSnapshotView;

    open spec fn deep_view(&self) -> ChainSnapshotView {
        ChainSnapshotView {
            genesis_allocations: self.genesis_allocations.deep_view(),
            vdf_rounds: self.vdf_rounds,
            launch_profile: self.launch_profile.deep_view(),
            blocks: self.blocks.deep_view(),
        }
    }
}

impl Model for ChainSnapshot {
    fn duplicate(&self) -> (r: Self) {
        ChainSnapshot {
            genesis_allocations: self.genesis_allocations.duplicate(),
            vdf_rounds: self.vdf_rounds,
            launch_profile: self.launch_profile.duplicate(),
            blocks: self.blocks.duplicate(),
        }
    }

    fn same(&self, other: &Self) -> (r: bool) {
        self.genesis_allocations.same(&other.genesis_allocations) && self.vdf_rounds == other.vdf_rounds
            && self.launch_profile.same(&other.launch_profile) && self.blocks.same(&other.blocks)
    }
}

/// The ledger after blocks, each of which must be accepted.
pub open spec fn grown(l: LedgerView, blocks: Seq<BlockView>, verify: bool, now_ms: u64) -> Result<LedgerView, Seq<char>>
    decreases blocks.len(),
{
    if blocks.len() == 0 {
        Ok(l)
    } else {
        match grown(l, blocks.drop_last(), verify, now_ms) {
            Err(e) => Err(e),
            Ok(s) => match s.block_applied(blocks.last(), verify, now_ms).1 {
                Err(e) => Err(e),
                Ok(_) => Ok(s.block_applied(blocks.last(), verify, now_ms).0),
            },
        }
    }
}

/// The ledger with the first block of a snapshot.
#[verifier::opaque]
pub open spec fn started(s: ChainSnapshotView) -> Result<LedgerView, Seq<char>> {
    if s.blocks.len() == 0 {
        Err("chain snapshot is empty"@)
    } else {
        match genesis::allocations_check(s.genesis_allocations) {
            Err(e) => Err(e),
            Ok(_) => match genesis::genesis_block_check(s.blocks[0]) {
                Err(e) => Err(e),
                Ok(_) => if s.blocks[0] != genesis::genesis_block(s.genesis_allocations, s.blocks[0].transactions) {
                    Err("chain snapshot genesis does not match its allocations and transactions"@)
                } else {
                    ledger::state_from_genesis(
                        s.genesis_allocations,
                        s.blocks[0],
                        s.vdf_rounds,
                        s.launch_profile,
                    )
                },
            },
        }
    }
}

/// The ledger of a snapshot, with every block checked again.
pub open spec fn restored(s: ChainSnapshotView, verify: bool, now_ms: u64) -> Result<LedgerView, Seq<char>> {
    match started(s) {
        Err(e) => Err(e),
        Ok(l) => grown(l, s.blocks.skip(1), verify, now_ms),
    }
}

/// How many blocks two chains have in common, counted from a place on.
pub open spec fn common_from(a: Seq<BlockView>, b: Seq<BlockView>, n: nat) -> nat
    decreases a.len() - n,
{
    if n < a.len() && n < b.len() && a[n as int] == b[n as int] {
        common_from(a, b, n + 1)
    } else {
        n
    }
}

/// How many blocks two chains have in common at their start.
pub open spec fn common(a: Seq<BlockView>, b: Seq<BlockView>) -> nat {
    common_from(a, b, 0)
}

/// Of two chains, whether the second has the better block where one of two blocks at a height
/// first outranks the other.
pub open spec fn has_better_block(a: Seq<BlockView>, b: Seq<BlockView>, n: nat) -> bool
    decreases a.len() - n,
{
    if n < a.len() && n < b.len() {
        if a[n as int].outranks(b[n as int]) {
            false
        } else if b[n as int].outranks(a[n as int]) {
            true
        } else {
            has_better_block(a, b, n + 1)
        }
    } else {
        false
    }
}

/// Whether to leave one chain for another that has the first `shared` blocks in common with it.
pub open spec fn switches(a: Seq<BlockView>, b: Seq<BlockView>, shared: nat) -> bool {
    let height = a.last().height;
    let floor = if height < FORK_FINALITY_DEPTH {
        0
    } else {
        height - FORK_FINALITY_DEPTH
    };
    if b.last().height == height && b.last().hash == a.last().hash {
        false
    } else if shared - 1 < floor {
        false
    } else if b.last().height != height {
        b.last().height > height
    } else {
        has_better_block(a, b, shared)
    }
}

/// The transactions of blocks.
pub open spec fn transactions_in(blocks: Seq<BlockView>) -> Seq<TransactionView>
    decreases blocks.len(),
{
    if blocks.len() == 0 {
        Seq::<TransactionView>::empty()
    } else {
        transactions_in(blocks.drop_last()) + blocks.last().transactions
    }
}

/// The envelopes of blocks.
pub open spec fn envelopes_in(blocks: Seq<BlockView>) -> Seq<BlindedTransactionView>
    decreases blocks.len(),
{
    if blocks.len() == 0 {
        Seq::<BlindedTransactionView>::empty()
    } else {
        envelopes_in(blocks.drop_last()) + blocks.last().blinded_transactions
    }
}

/// The reveals of blocks.
pub open spec fn reveals_in(blocks: Seq<BlockView>) -> Seq<BlindedRevealView>
    decreases blocks.len(),
{
    if blocks.len() == 0 {
        Seq::<BlindedRevealView>::empty()
    } else {
        reveals_in(blocks.drop_last()) + blocks.last().all_reveals()
    }
}

/// The ledger after transactions were submitted that are not on its chain.
pub open spec fn with_transactions(l: LedgerView, transactions: Seq<TransactionView>) -> LedgerView
    decreases transactions.len(),
{
    if transactions.len() == 0 {
        l
    } else {
        let s = with_transactions(l, transactions.drop_last());
        let t = transactions.last();
        if ledger::in_blocks(l.chain, t.signature()) is Some {
            s
        } else {
            s.submitted(t).0
        }
    }
}

/// The ledger after envelopes were submitted that are not on its chain.
pub open spec fn with_envelopes(l: LedgerView, envelopes: Seq<BlindedTransactionView>) -> LedgerView
    decreases envelopes.len(),
{
    if envelopes.len() == 0 {
        l
    } else {
        let s = with_envelopes(l, envelopes.drop_last());
        let t = envelopes.last();
        if ledger::blinded_in_blocks(l.chain, t.commitment) {
            s
        } else {
            s.blinded_submitted(t).0
        }
    }
}

/// The ledger after reveals were submitted that are not on its chain.
pub open spec fn with_reveals(l: LedgerView, reveals: Seq<BlindedRevealView>) -> LedgerView
    decreases reveals.len(),
{
    if reveals.len() == 0 {
        l
    } else {
        let s = with_reveals(l, reveals.drop_last());
        let r = reveals.last();
        if ledger::revealed_in_blocks(l.chain, r.commitment) {
            s
        } else {
            s.reveal_submitted(r).0
        }
    }
}

impl LedgerView {
    /// This ledger as a chain with what it started from.
    pub open spec fn snapshot(self) -> ChainSnapshotView {
        ChainSnapshotView {
            genesis_allocations: self.genesis_allocations,
            vdf_rounds: self.initial_vdf_rounds,
            launch_profile: self.launch_profile,
            blocks: self.chain,
        }
    }

    /// Whether a snapshot is of this chain's kind; if so, its height.
    pub open spec fn identity_check(self, s: ChainSnapshotView) -> Result<u64, Seq<char>> {
        if s.blocks.len() == 0 {
            Err("chain snapshot is empty"@)
        } else if s.vdf_rounds != self.initial_vdf_rounds {
            Err("chain snapshot initial VDF rounds do not match local chain"@)
        } else if s.launch_profile != self.launch_profile {
            Err("chain snapshot launch profile does not match local chain"@)
        } else if s.genesis_allocations != self.genesis_allocations {
            Err("chain snapshot genesis allocations do not match local chain"@)
        } else if s.blocks[0].hash != self.chain[0].hash {
            Err("chain snapshot genesis does not match local chain"@)
        } else {
            Ok(s.blocks.last().height)
        }
    }

    /// The blocks of a higher snapshot that this chain lacks.
    pub open spec fn missing(self, s: ChainSnapshotView) -> Result<Seq<BlockView>, Seq<char>> {
        match self.identity_check(s) {
            Err(e) => Err(e),
            Ok(height) => if height <= self.height() {
                Ok(Seq::<BlockView>::empty())
            } else if common(self.chain, s.blocks) == 0 {
                Err("chain snapshot has no common genesis block"@)
            } else {
                Ok(s.blocks.skip(common(self.chain, s.blocks) as int))
            },
        }
    }

    /// How many blocks this chain shares with a candidate.
    pub open spec fn shared_with(self, candidate: LedgerView) -> Result<nat, Seq<char>> {
        if candidate.chain[0].hash != self.chain[0].hash || common(self.chain, candidate.chain) == 0 {
            Err("candidate chain has no common genesis block"@)
        } else {
            Ok(common(self.chain, candidate.chain))
        }
    }

    /// A candidate with what waits here, and with what only the blocks that are left held.
    pub open spec fn carried_to(self, candidate: LedgerView, shared: nat) -> LedgerView {
        let left = self.chain.skip(shared as int);
        let a = with_transactions(candidate, self.pending + self.orphans + transactions_in(left));
        let b = with_envelopes(a, self.pending_blinded + envelopes_in(left));
        with_reveals(b, self.pending_reveals + reveals_in(left))
    }

    /// What handing in a snapshot does.
    pub open spec fn extended(self, s: ChainSnapshotView, verify: bool, now_ms: u64) -> (
        LedgerView,
        Result<bool, Seq<char>>,
    ) {
        match self.identity_check(s) {
            Err(e) => (self, Err(e)),
            Ok(_) => match restored(s, verify, now_ms) {
                Err(e) => (self, Err(e)),
                Ok(candidate) => match self.shared_with(candidate) {
                    Err(e) => (self, Err(e)),
                    Ok(shared) => if switches(self.chain, candidate.chain, shared) {
                        (self.carried_to(candidate, shared), Ok(true))
                    } else {
                        (self, Ok(false))
                    },
                },
            },
        }
    }
}

proof fn grown_stops(l: LedgerView, blocks: Seq<BlockView>, verify: bool, now_ms: u64, n: int)
    requires
        0 <= n <= blocks.len(),
        grown(l, blocks.take(n), verify, now_ms) is Err,
    ensures
        grown(l, blocks, verify, now_ms) == grown(l, blocks.take(n), verify, now_ms),
    decreases blocks.len(),
{
    if n < blocks.len() {
        assert(blocks.drop_last().take(n) =~= blocks.take(n));
        grown_stops(l, blocks.drop_last(), verify, now_ms, n);
    } else {
        model::take_all(blocks);
    }
}

proof fn common_from_start(a: Seq<BlockView>, b: Seq<BlockView>, n: nat)
    requires
        n <= a.len(),
        n <= b.len(),
        forall|i: int| 0 <= i < n ==> #[trigger] a[i] == b[i],
    ensures
        common(a, b) == common_from(a, b, n),
    decreases n,
{
    if n > 0 {
        common_from_start(a, b, (n - 1) as nat);
        assert(a[n - 1] == b[n - 1]);
    }
}

/// The common blocks are equal, and the next ones are not.
pub proof fn common_is_longest(a: Seq<BlockView>, b: Seq<BlockView>, n: nat)
    ensures
        n <= common_from(a, b, n),
        n <= a.len() && n <= b.len() ==> common_from(a, b, n) <= a.len() && common_from(a, b, n) <= b.len(),
        forall|i: int| n <= i < common_from(a, b, n) ==> #[trigger] a[i] == b[i],
        common_from(a, b, n) < a.len() && common_from(a, b, n) < b.len() ==> a[common_from(a, b, n) as int]
            != b[common_from(a, b, n) as int],
    decreases a.len() - n,
{
    if n < a.len() && n < b.len() && a[n as int] == b[n as int] {
        common_is_longest(a, b, n + 1);
    }
}

/// A chain is never left for one that parts from it below the finality depth, for a lower one, or
/// for itself.
pub proof fn finality_is_kept(a: Seq<BlockView>, b: Seq<BlockView>, shared: nat)
    requires
        a.len() > 0,
        b.len() > 0,
        switches(a, b, shared),
    ensures
        shared - 1 + FORK_FINALITY_DEPTH >= a.last().height,
        b.last().height >= a.last().height,
        b.last() != a.last(),
{
}

/// Of two chains of one height that part at one place, at most one is left for the other.
pub proof fn fork_choice_is_consistent(a: Seq<BlockView>, b: Seq<BlockView>, shared: nat)
    requires
        a.len() > 0,
        b.len() > 0,
        switches(a, b, shared),
    ensures
        !switches(b, a, shared),
{
    if a.last().height == b.last().height {
        better_block_is_one_sided(a, b, shared);
    }
}

proof fn better_block_is_one_sided(a: Seq<BlockView>, b: Seq<BlockView>, n: nat)
    requires
        has_better_block(a, b, n),
    ensures
        !has_better_block(b, a, n),
    decreases a.len() - n,
{
    if n < a.len() && n < b.len() {
        block::outranking_is_an_order(a[n as int], b[n as int], a[n as int]);
        if !a[n as int].outranks(b[n as int]) && !b[n as int].outranks(a[n as int]) {
            better_block_is_one_sided(a, b, n + 1);
        }
    }
}

fn count_common(a: &Vec<Block>, b: &Vec<Block>) -> (r: usize)
    ensures
        r == common(a.deep_view(), b.deep_view()),
        r <= a.len(),
        r <= b.len(),
{
    let ghost v = a.deep_view();
    let ghost w = b.deep_view();
    let mut n: usize = 0;
    while n < a.len() && n < b.len()
        invariant_except_break
            n <= a.len(),
            n <= b.len(),
            v == a.deep_view(),
            w == b.deep_view(),
            forall|i: int| 0 <= i < n ==> #[trigger] v[i] == w[i],
            common(v, w) == common_from(v, w, n as nat),
        ensures
            n <= a.len(),
            n <= b.len(),
            n == common(v, w),
        decreases a.len() - n,
    {
        if !a[n].same(&b[n]) {
            proof {
                common_from_start(v, w, n as nat);
                assert(v[n as int] != w[n as int]);
            }
            break;
        }
        n = n + 1;
        proof {
            common_from_start(v, w, n as nat);
        }
    }
    n
}

fn better_block_from(a: &Vec<Block>, b: &Vec<Block>, start: usize) -> (r: bool)
    ensures
        r == has_better_block(a.deep_view(), b.deep_view(), start as nat),
{
    let ghost v = a.deep_view();
    let ghost w = b.deep_view();
    let mut n: usize = start;
    while n < a.len() && n < b.len()
        invariant
            v == a.deep_view(),
            w == b.deep_view(),
            has_better_block(v, w, start as nat) == has_better_block(v, w, n as nat),
        decreases a.len() - n,
    {
        assert(v[n as int] == a@[n as int].deep_view());
        assert(w[n as int] == b@[n as int].deep_view());
        if a[n].outranks(&b[n]) {
            return false;
        }
        if b[n].outranks(&a[n]) {
            return true;
        }
        n = n + 1;
    }
    false
}

/// The transactions that a chain's reveals opened.
pub fn revealed_blinded_transactions(snapshot: &ChainSnapshot) -> (r: Result<Vec<RevealedBlindedTransaction>, Error>)
    ensures
        error::outcome(r) == match replay::revealing(snapshot.deep_view().blocks) {
            Ok((revealed, _)) => Ok(revealed),
            Err(e) => Err(e),
        },
{
    replay::revealed_in(&snapshot.blocks)
}

impl Ledger {
    /// This ledger as a chain with what it started from.
    pub fn snapshot(&self) -> (r: ChainSnapshot)
        requires
            self.wf(),
        ensures
            r.deep_view() == self.deep_view().snapshot(),
            r.genesis_allocations.wf(),
    {
        let genesis_allocations = self.genesis_allocations.duplicate();
        proof {
            self.genesis_allocations.wf_is_increasing();
            genesis_allocations.wf_is_increasing();
        }
        ChainSnapshot {
            genesis_allocations,
            vdf_rounds: self.initial_vdf_rounds,
            launch_profile: self.launch_profile.duplicate(),
            blocks: self.chain.duplicate(),
        }
    }

    fn start_snapshot(
        genesis_allocations: Allocations,
        vdf_rounds: u64,
        launch_profile: LaunchProfile,
        blocks: &Vec<Block>,
    ) -> (r: Result<Ledger, Error>)
        requires
            genesis_allocations.wf(),
        ensures
            error::outcome(r) == started(
                ChainSnapshotView {
                    genesis_allocations: genesis_allocations.deep_view(),
                    vdf_rounds,
                    launch_profile: launch_profile.deep_view(),
                    blocks: blocks.deep_view(),
                },
            ),
            r matches Ok(l) ==> l.wf(),
    {
        reveal(started);
        if blocks.len() == 0 {
            return Err(Error::new("chain snapshot is empty"));
        }
        genesis::validate_genesis_allocations(&genesis_allocations)?;
        genesis::validate_genesis_block(&blocks[0])?;
        let expected = genesis::build_genesis_block(&genesis_allocations, blocks[0].transactions.duplicate());
        if !blocks[0].same(&expected) {
            return Err(
                Error::new("chain snapshot genesis does not match its allocations and transactions"),
            );
        }
        let first = blocks[0].duplicate();
        assert(first.deep_view() == expected.deep_view());
        Self::from_genesis(genesis_allocations, first, vdf_rounds, launch_profile)
    }

    /// The ledger of a snapshot at a time, with or without a check of its delays.
    fn from_snapshot_with_vdf_policy(snapshot: ChainSnapshot, verify_vdf: bool, now_ms: u64) -> (r: Result<
        Ledger,
        Error,
    >)
        requires
            snapshot.genesis_allocations.wf(),
        ensures
            error::outcome(r) == restored(snapshot.deep_view(), verify_vdf, now_ms),
            r matches Ok(l) ==> l.wf(),
    {
        let blocks = snapshot.blocks;
        let ghost s = snapshot.deep_view();
        let ghost v = s.blocks.skip(1);
        let mut ledger = Self::start_snapshot(
            snapshot.genesis_allocations,
            snapshot.vdf_rounds,
            snapshot.launch_profile,
            &blocks,
        )?;
        let ghost start = ledger.deep_view();
        proof {
            assert(started(s) == Ok::<LedgerView, Seq<char>>(start));
            reveal(started);
            model::take_all(v);
        }
        let mut i: usize = 1;
        while i < blocks.len()
            invariant
                1 <= i <= blocks.len(),
                s == snapshot.deep_view(),
                s.blocks == blocks.deep_view(),
                v == s.blocks.skip(1),
                started(s) == Ok::<LedgerView, Seq<char>>(start),
                ledger.wf(),
                grown(start, v.take(i - 1), verify_vdf, now_ms) == Ok::<LedgerView, Seq<char>>(
                    ledger.deep_view(),
                ),
            decreases blocks.len() - i,
        {
            proof {
                assert(v.take(i as int).drop_last() =~= v.take(i - 1));
                assert(v.take(i as int).last() == s.blocks[i as int]);
                if grown(start, v.take(i as int), verify_vdf, now_ms) is Err {
                    grown_stops(start, v, verify_vdf, now_ms, i as int);
                }
            }
            let block = blocks[i].duplicate();
            if verify_vdf {
                ledger.apply_block_at(block, now_ms)?;
            } else {
                ledger.apply_preverified_block_at(block, now_ms)?;
            }
            i = i + 1;
        }
        proof {
            model::take_all(v);
        }
        Ok(ledger)
    }

    /// The ledger of a snapshot now. The time is that of the system clock.
    pub fn from_snapshot(snapshot: ChainSnapshot) -> (r: Result<Ledger, Error>)
        requires
            snapshot.genesis_allocations.wf(),
        ensures
            exists|now_ms: u64| error::outcome(r) == #[trigger] restored(snapshot.deep_view(), true, now_ms),
            r matches Ok(l) ==> l.wf(),
    {
        let now_ms: u64 = crypto::unix_now_ms();
        Self::from_snapshot_at(snapshot, now_ms)
    }

    /// The ledger of a snapshot that was kept, whatever the time is.
    pub fn from_persisted_snapshot(snapshot: ChainSnapshot) -> (r: Result<Ledger, Error>)
        requires
            snapshot.genesis_allocations.wf(),
        ensures
            error::outcome(r) == restored(snapshot.deep_view(), true, u64::MAX),
            r matches Ok(l) ==> l.wf(),
    {
        Self::from_snapshot_at(snapshot, u64::MAX)
    }

    /// The ledger of a snapshot at a time.
    pub fn from_snapshot_at(snapshot: ChainSnapshot, now_ms: u64) -> (r: Result<Ledger, Error>)
        requires
            snapshot.genesis_allocations.wf(),
        ensures
            error::outcome(r) == restored(snapshot.deep_view(), true, now_ms),
            r matches Ok(l) ==> l.wf(),
    {
        Self::from_snapshot_with_vdf_policy(snapshot, true, now_ms)
    }

    fn validate_snapshot_identity(&self, snapshot: &ChainSnapshot) -> (r: Result<u64, Error>)
        requires
            self.wf(),
        ensures
            error::outcome(r) == self.deep_view().identity_check(snapshot.deep_view()),
    {
        if snapshot.blocks.len() == 0 {
            return Err(Error::new("chain snapshot is empty"));
        }
        if snapshot.vdf_rounds != self.initial_vdf_rounds {
            return Err(Error::new("chain snapshot initial VDF rounds do not match local chain"));
        }
        if !snapshot.launch_profile.same(&self.launch_profile) {
            return Err(Error::new("chain snapshot launch profile does not match local chain"));
        }
        if !snapshot.genesis_allocations.same(&self.genesis_allocations) {
            return Err(Error::new("chain snapshot genesis allocations do not match local chain"));
        }
        if !snapshot.blocks[0].hash.same(&self.chain[0].hash) {
            return Err(Error::new("chain snapshot genesis does not match local chain"));
        }
        Ok(snapshot.blocks[snapshot.blocks.len() - 1].height)
    }

    /// The blocks of a higher snapshot that this chain lacks.
    pub fn missing_snapshot_blocks(&self, snapshot: &ChainSnapshot) -> (r: Result<Vec<Block>, Error>)
        requires
            self.wf(),
        ensures
            error::outcome(r) == self.deep_view().missing(snapshot.deep_view()),
    {
        let remote_height: u64 = self.validate_snapshot_identity(snapshot)?;
        let mut out: Vec<Block> = Vec::new();
        if remote_height <= self.height() {
            assert(out.deep_view() =~= Seq::<BlockView>::empty());
            return Ok(out);
        }
        let shared: usize = count_common(&self.chain, &snapshot.blocks);
        if shared == 0 {
            return Err(Error::new("chain snapshot has no common genesis block"));
        }
        let mut i: usize = shared;
        while i < snapshot.blocks.len()
            invariant
                shared <= i <= snapshot.blocks.len(),
                out@.len() == i - shared,
                forall|j: int|
                    0 <= j < out@.len() ==> (#[trigger] out@[j]).deep_view() == snapshot.deep_view().blocks[shared + j],
            decreases snapshot.blocks.len() - i,
        {
            out.push(snapshot.blocks[i].duplicate());
            i = i + 1;
        }
        assert(out.deep_view() =~= snapshot.deep_view().blocks.skip(shared as int));
        Ok(out)
    }

    fn shared_with_candidate(&self, candidate: &Ledger) -> (r: Result<usize, Error>)
        requires
            self.wf(),
            candidate.wf(),
        ensures
            match r {
                Ok(n) => self.deep_view().shared_with(candidate.deep_view()) == Ok::<nat, Seq<char>>(n as nat) && 1
                    <= n <= self.chain.len(),
                Err(e) => self.deep_view().shared_with(candidate.deep_view()) == Err::<nat, Seq<char>>(
                    e.deep_view(),
                ),
            },
    {
        if !candidate.chain[0].hash.same(&self.chain[0].hash) {
            return Err(Error::new("candidate chain has no common genesis block"));
        }
        let shared: usize = count_common(&self.chain, &candidate.chain);
        if shared == 0 {
            return Err(Error::new("candidate chain has no common genesis block"));
        }
        Ok(shared)
    }

    /// Whether to leave this chain for a candidate.
    fn choose_fork(&self, candidate: &Ledger, shared: usize) -> (r: bool)
        requires
            self.wf(),
            candidate.wf(),
            shared >= 1,
        ensures
            r == switches(self.deep_view().chain, candidate.deep_view().chain, shared as nat),
    {
        let local_height: u64 = self.height();
        let remote_height: u64 = candidate.height();
        if remote_height == local_height && candidate.tip().hash.same(&self.tip().hash) {
            return false;
        }
        let floor: u64 = local_height.saturating_sub(FORK_FINALITY_DEPTH);
        let ancestor: u64 = (shared - 1) as u64;
        if ancestor < floor {
            return false;
        }
        if remote_height != local_height {
            return remote_height > local_height;
        }
        better_block_from(&self.chain, &candidate.chain, shared)
    }

    fn resubmit_transactions(&mut self, transactions: &Vec<Transaction>)
        requires
            old(self).wf(),
        ensures
            final(self).wf(),
            final(self).deep_view() == with_transactions(old(self).deep_view(), transactions.deep_view()),
    {
        let ghost v = transactions.deep_view();
        let ghost l = self.deep_view();
        let mut i: usize = 0;
        proof {
            model::take_all(v);
        }
        while i < transactions.len()
            invariant
                i <= transactions.len(),
                self.wf(),
                v == transactions.deep_view(),
                l == old(self).deep_view(),
                self.deep_view() == with_transactions(l, v.take(i as int)),
                self.deep_view().chain == l.chain,
            decreases transactions.len() - i,
        {
            proof {
                assert(v.take(i + 1).drop_last() =~= v.take(i as int));
                assert(v.take(i + 1).last() == v[i as int]);
                submitting_keeps_chain(self.deep_view(), v[i as int]);
            }
            if !self.transaction_on_chain(transactions[i].signature()) {
                let _ = self.submit_transaction(transactions[i].duplicate());
            }
            i = i + 1;
        }
        proof {
            model::take_all(v);
        }
    }

    fn transaction_on_chain(&self, signature: &str) -> (r: bool)
        ensures
            r == (ledger::in_blocks(self.deep_view().chain, signature@) is Some),
    {
        let ghost v = self.deep_view().chain;
        let mut i: usize = 0;
        proof {
            model::take_all(v);
        }
        while i < self.chain.len()
            invariant
                i <= self.chain.len(),
                v == self.deep_view().chain,
                ledger::in_blocks(v.take(i as int), signature@) is None,
            decreases self.chain.len() - i,
        {
            proof {
                assert(v.take(i + 1).drop_last() =~= v.take(i as int));
                assert(v.take(i + 1).last() == v[i as int]);
            }
            if ledger::find_by_signature(&self.chain[i].transactions, signature).is_some() {
                proof {
                    on_chain_from(v, signature@, i + 1);
                }
                return true;
            }
            i = i + 1;
        }
        proof {
            model::take_all(v);
        }
        false
    }

    fn resubmit_envelopes(&mut self, envelopes: &Vec<BlindedTransaction>)
        requires
            old(self).wf(),
        ensures
            final(self).wf(),
            final(self).deep_view() == with_envelopes(old(self).deep_view(), envelopes.deep_view()),
    {
        let ghost v = envelopes.deep_view();
        let ghost l = self.deep_view();
        let mut i: usize = 0;
        proof {
            model::take_all(v);
        }
        while i < envelopes.len()
            invariant
                i <= envelopes.len(),
                self.wf(),
                v == envelopes.deep_view(),
                l == old(self).deep_view(),
                self.deep_view() == with_envelopes(l, v.take(i as int)),
                self.deep_view().chain == l.chain,
            decreases envelopes.len() - i,
        {
            proof {
                assert(v.take(i + 1).drop_last() =~= v.take(i as int));
                assert(v.take(i + 1).last() == v[i as int]);
            }
            if !self.blinded_on_chain(envelopes[i].commitment.as_str()) {
                let _ = self.submit_blinded_transaction(envelopes[i].duplicate());
            }
            i = i + 1;
        }
        proof {
            model::take_all(v);
        }
    }

    fn resubmit_reveals(&mut self, reveals: &Vec<BlindedReveal>)
        requires
            old(self).wf(),
        ensures
            final(self).wf(),
            final(self).deep_view() == with_reveals(old(self).deep_view(), reveals.deep_view()),
    {
        let ghost v = reveals.deep_view();
        let ghost l = self.deep_view();
        let mut i: usize = 0;
        proof {
            model::take_all(v);
        }
        while i < reveals.len()
            invariant
                i <= reveals.len(),
                self.wf(),
                v == reveals.deep_view(),
                l == old(self).deep_view(),
                self.deep_view() == with_reveals(l, v.take(i as int)),
                self.deep_view().chain == l.chain,
            decreases reveals.len() - i,
        {
            proof {
                assert(v.take(i + 1).drop_last() =~= v.take(i as int));
                assert(v.take(i + 1).last() == v[i as int]);
            }
            if !self.reveal_on_chain(reveals[i].commitment.as_str()) {
                let _ = self.submit_blinded_reveal(reveals[i].duplicate());
            }
            i = i + 1;
        }
        proof {
            model::take_all(v);
        }
    }

    /// Leaves this chain for a candidate, taking along what waits and what only the blocks that
    /// are left held.
    fn replace_with_better_chain(&mut self, candidate: Ledger, shared: usize)
        requires
            old(self).wf(),
            candidate.wf(),
            shared <= old(self).chain.len(),
        ensures
            final(self).wf(),
            final(self).deep_view() == old(self).deep_view().carried_to(candidate.deep_view(), shared as nat),
    {
        let ghost l = self.deep_view();
        let ghost left = l.chain.skip(shared as int);
        let mut transactions = self.pending.duplicate();
        let mut orphans = self.orphans.duplicate();
        let mut envelopes = self.pending_blinded.duplicate();
        let mut reveals = self.pending_reveals.duplicate();
        transactions.append(&mut orphans);
        assert(transactions.deep_view() =~= l.pending + l.orphans);
        proof {
            model::take_all(left);
            assert(transactions.deep_view() =~= l.pending + l.orphans + transactions_in(left.take(0)));
            assert(envelopes.deep_view() =~= l.pending_blinded + envelopes_in(left.take(0)));
            assert(reveals.deep_view() =~= l.pending_reveals + reveals_in(left.take(0)));
        }
        let mut i: usize = shared;
        while i < self.chain.len()
            invariant
                shared <= i <= self.chain.len(),
                l == self.deep_view(),
                l == old(self).deep_view(),
                left == l.chain.skip(shared as int),
                transactions.deep_view() == l.pending + l.orphans + transactions_in(left.take(i - shared)),
                envelopes.deep_view() == l.pending_blinded + envelopes_in(left.take(i - shared)),
                reveals.deep_view() == l.pending_reveals + reveals_in(left.take(i - shared)),
            decreases self.chain.len() - i,
        {
            let ghost n = i - shared;
            let ghost (x, y, z) = (transactions.deep_view(), envelopes.deep_view(), reveals.deep_view());
            let block = &self.chain[i];
            proof {
                assert(left.take(n + 1).drop_last() =~= left.take(n));
                assert(left.take(n + 1).last() == l.chain[i as int]);
            }
            let mut more = block.transactions.duplicate();
            transactions.append(&mut more);
            assert(transactions.deep_view() =~= x + l.chain[i as int].transactions);
            assert(transactions.deep_view() =~= l.pending + l.orphans + transactions_in(left.take(n + 1)));
            let mut sealed = block.blinded_transactions.duplicate();
            envelopes.append(&mut sealed);
            assert(envelopes.deep_view() =~= y + l.chain[i as int].blinded_transactions);
            assert(envelopes.deep_view() =~= l.pending_blinded + envelopes_in(left.take(n + 1)));
            let mut opened = block.owned_reveals();
            reveals.append(&mut opened);
            assert(reveals.deep_view() =~= z + l.chain[i as int].all_reveals());
            assert(reveals.deep_view() =~= l.pending_reveals + reveals_in(left.take(n + 1)));
            i = i + 1;
        }
        proof {
            model::take_all(left);
        }
        let mut next = candidate;
        next.resubmit_transactions(&transactions);
        next.resubmit_envelopes(&envelopes);
        next.resubmit_reveals(&reveals);
        *self = next;
    }

    pub(crate) fn extend_from_snapshot_with_vdf_policy(&mut self, snapshot: ChainSnapshot, verify_vdf: bool, now_ms: u64) -> (r: Result<
        bool,
        Error,
    >)
        requires
            old(self).wf(),
            snapshot.genesis_allocations.wf(),
        ensures
            final(self).wf(),
            (final(self).deep_view(), error::outcome(r)) == old(self).deep_view().extended(
                snapshot.deep_view(),
                verify_vdf,
                now_ms,
            ),
    {
        let _ = self.validate_snapshot_identity(&snapshot)?;
        let candidate = Self::from_snapshot_with_vdf_policy(snapshot, verify_vdf, now_ms)?;
        let shared: usize = self.shared_with_candidate(&candidate)?;
        if !self.choose_fork(&candidate, shared) {
            return Ok(false);
        }
        self.replace_with_better_chain(candidate, shared);
        Ok(true)
    }

    /// Hands in a snapshot now, and says whether this chain was left for it.
    pub fn extend_from_snapshot(&mut self, snapshot: ChainSnapshot) -> (r: Result<bool, Error>)
        requires
            old(self).wf(),
            snapshot.genesis_allocations.wf(),
        ensures
            final(self).wf(),
            exists|now_ms: u64|
                (final(self).deep_view(), error::outcome(r)) == #[trigger] old(self).deep_view().extended(
                    snapshot.deep_view(),
                    true,
                    now_ms,
                ),
    {
        let now_ms: u64 = crypto::unix_now_ms();
        self.extend_from_snapshot_with_vdf_policy(snapshot, true, now_ms)
    }

    /// Hands in a snapshot whose delays were checked before, at a time.
    pub fn extend_from_preverified_snapshot_at(&mut self, snapshot: ChainSnapshot, now_ms: u64) -> (r: Result<bool, Error>)
        requires
            old(self).wf(),
            snapshot.genesis_allocations.wf(),
        ensures
            final(self).wf(),
            (final(self).deep_view(), error::outcome(r)) == old(self).deep_view().extended(
                snapshot.deep_view(),
                false,
                now_ms,
            ),
    {
        self.extend_from_snapshot_with_vdf_policy(snapshot, false, now_ms)
    }
}

proof fn on_chain_from(chain: Seq<BlockView>, signature: Seq<char>, n: int)
    requires
        0 <= n <= chain.len(),
        ledger::in_blocks(chain.take(n), signature) is Some,
    ensures
        ledger::in_blocks(chain, signature) is Some,
    decreases chain.len() - n,
{
    if n < chain.len() {
        assert(chain.take(n + 1).drop_last() =~= chain.take(n));
        on_chain_from(chain, signature, n + 1);
    } else {
        model::take_all(chain);
    }
}

/// Submitting a transaction changes only what waits.
pub proof fn submitting_keeps_chain(l: LedgerView, t: TransactionView)
    ensures
        ({
            let s = l.submitted(t).0;
            s == (LedgerView { pending: s.pending, orphans: s.orphans, ..l })
        }),
{
    reveal(LedgerView::submitted);
    crate::mempool::promotion_only_moves(LedgerView { pending: l.pending.push(t), ..l });
}

/// Whether two chains stand equal at some heights: neither block outranks the other there.
pub open spec fn stand_equal(a: Seq<BlockView>, b: Seq<BlockView>, from: int, to: int) -> bool {
    forall|i: int|
        from <= i < to ==> !(#[trigger] a[i]).outranks(b[i]) && !b[i].outranks(a[i])
}

proof fn first_outranking_block_decides(a: Seq<BlockView>, b: Seq<BlockView>, start: nat, n: nat)
    requires
        start <= n < a.len(),
        n < b.len(),
        stand_equal(a, b, start as int, n as int),
        b[n as int].outranks(a[n as int]),
    ensures
        has_better_block(a, b, start),
        !has_better_block(b, a, start),
    decreases n - start,
{
    block::outranking_is_an_order(a[n as int], b[n as int], a[n as int]);
    if start < n {
        assert(!a[start as int].outranks(b[start as int]) && !b[start as int].outranks(a[start as int]));
        first_outranking_block_decides(a, b, start + 1, n);
    }
}

proof fn equal_chains_have_no_better_block(a: Seq<BlockView>, b: Seq<BlockView>, start: nat)
    requires
        forall|i: int|
            start <= i < a.len() && i < b.len() ==> !(#[trigger] a[i]).outranks(b[i]) && !b[i].outranks(a[i]),
    ensures
        !has_better_block(a, b, start),
        !has_better_block(b, a, start),
    decreases a.len() - start,
{
    if start < a.len() && start < b.len() {
        assert(!a[start as int].outranks(b[start as int]) && !b[start as int].outranks(a[start as int]));
        equal_chains_have_no_better_block(a, b, start + 1);
    }
}

/// Of two different chains of one height that part within the last six blocks, exactly one is left
/// for the other where some block outranks the one at its height: the chain whose block does so at the
/// first such height is kept.
pub proof fn chain_with_the_outranking_block_is_kept(a: Seq<BlockView>, b: Seq<BlockView>, n: nat)
    requires
        a.len() > 0,
        b.len() > 0,
        a[0] == b[0],
        a.last().height == b.last().height,
        a.last().hash != b.last().hash,
        common(a, b) + 5 >= a.last().height,
        common(a, b) <= n < a.len(),
        n < b.len(),
        stand_equal(a, b, common(a, b) as int, n as int),
        b[n as int].outranks(a[n as int]),
    ensures
        switches(a, b, common(a, b)),
        !switches(b, a, common(b, a)),
{
    common_is_symmetric(a, b, 0);
    common_is_longest(a, b, 1);
    first_outranking_block_decides(a, b, common(a, b), n);
}

/// Of two chains of one height neither is left for the other where no block outranks the one at its
/// height, or where they part more than six blocks below the tip.
pub proof fn equal_chains_are_kept(a: Seq<BlockView>, b: Seq<BlockView>)
    requires
        a.len() > 0,
        b.len() > 0,
        a[0] == b[0],
        a.last().height == b.last().height,
        (common(a, b) + 5 < a.last().height || a.last().hash == b.last().hash || (forall|i: int|
            common(a, b) <= i < a.len() && i < b.len() ==> !(#[trigger] a[i]).outranks(b[i]) && !b[i].outranks(a[i]))),
    ensures
        !switches(a, b, common(a, b)),
        !switches(b, a, common(b, a)),
{
    common_is_symmetric(a, b, 0);
    common_is_longest(a, b, 1);
    if common(a, b) + 5 >= a.last().height && a.last().hash != b.last().hash {
        equal_chains_have_no_better_block(a, b, common(a, b));
    }
}

/// A chain is left for a higher one that parts from it within its last six blocks, and for no lower
/// one.
pub proof fn higher_chain_is_taken(a: Seq<BlockView>, b: Seq<BlockView>)
    requires
        a.len() > 0,
        b.len() > 0,
        a[0] == b[0],
        a.last().height < b.last().height,
    ensures
        switches(a, b, common(a, b)) <==> common(a, b) + 5 >= a.last().height,
        !switches(b, a, common(b, a)),
{
    common_is_longest(a, b, 1);
}

proof fn common_is_symmetric(a: Seq<BlockView>, b: Seq<BlockView>, n: nat)
    ensures
        common_from(a, b, n) == common_from(b, a, n),
    decreases a.len() - n,
{
    if n < a.len() && n < b.len() && a[n as int] == b[n as int] {
        common_is_symmetric(a, b, n + 1);
    }
}

/// What blocks hold is what each holds, in their order: nothing is left out and nothing added.
pub proof fn items_of_blocks_are_joined(a: Seq<BlockView>, b: Seq<BlockView>, one: BlockView)
    ensures
        transactions_in(a + b) == transactions_in(a) + transactions_in(b),
        envelopes_in(a + b) == envelopes_in(a) + envelopes_in(b),
        reveals_in(a + b) == reveals_in(a) + reveals_in(b),
        transactions_in(seq![one]) == one.transactions,
        envelopes_in(seq![one]) == one.blinded_transactions,
        reveals_in(seq![one]) == one.all_reveals(),
        transactions_in(Seq::<BlockView>::empty()).len() == 0,
        envelopes_in(Seq::<BlockView>::empty()).len() == 0,
        reveals_in(Seq::<BlockView>::empty()).len() == 0,
    decreases b.len(),
{
    let single = seq![one];
    let none = Seq::<BlockView>::empty();
    assert(single.drop_last() =~= none);
    assert(single.last() == one);
    assert(transactions_in(none).len() == 0 && envelopes_in(none).len() == 0 && reveals_in(none).len() == 0);
    assert(transactions_in(single) == transactions_in(single.drop_last()) + one.transactions);
    assert(envelopes_in(single) == envelopes_in(single.drop_last()) + one.blinded_transactions);
    assert(reveals_in(single) == reveals_in(single.drop_last()) + one.all_reveals());
    assert(transactions_in(single) =~= one.transactions);
    assert(envelopes_in(single) =~= one.blinded_transactions);
    assert(reveals_in(single) =~= one.all_reveals());
    if b.len() == 0 {
        assert(a + b =~= a);
        assert(transactions_in(a) + transactions_in(b) =~= transactions_in(a));
        assert(envelopes_in(a) + envelopes_in(b) =~= envelopes_in(a));
        assert(reveals_in(a) + reveals_in(b) =~= reveals_in(a));
    } else {
        let c = b.drop_last();
        items_of_blocks_are_joined(a, c, one);
        assert((a + b).drop_last() =~= a + c);
        assert((a + b).last() == b.last());
        assert(transactions_in(a + b) =~= transactions_in(a) + transactions_in(b));
        assert(envelopes_in(a + b) =~= envelopes_in(a) + envelopes_in(b));
        assert(reveals_in(a + b) =~= reveals_in(a) + reveals_in(b));
    }
}

} // verus!
