//! Who finalizes the next block, and the block before its delay was served.
use crate::blinded;
use crate::blinded::{BlindedTransaction, BlindedTransactionView, RevealBundle, RevealBundleView};
use crate::block;
use crate::block::{
    Block, BlockView, FinalizerMode, LeaderProof, LeaderProofPayload, LeaderProofPayloadView, LeaderProofView,
};
use crate::error;
use crate::error::Error;
use crate::ledger::{Ledger, LedgerView};
use crate::model;
use crate::model::Model;
use crate::rewards;
use crate::selection;
use crate::selection::WantedView;
use crate::sorted;
use crate::sorted::SortedMap;
use crate::text;
use crate::tickets;
use crate::tickets::{BurnTicket, BurnTicketView};
use crate::transaction::{Amount, Transaction, TransactionView};
use crate::utxo;
use crate::utxo::Utxos;
use crate::vdf;
use crate::vdf::VDF_TARGET_BLOCK_MS;
use crate::wallet::Wallet;
use vstd::prelude::*;
use vstd::string::*;

verus! {

/// A block whose delay has not been served yet.
#[derive(Clone, Debug)]
pub struct PreparedBlock {
    pub height: u64,
    pub prev_hash: String,
    pub timestamp_ms: u64,
    pub miner: String,
    pub finalizer_mode: FinalizerMode,
    pub finalizer_rank: u32,
    pub reward: Amount,
    pub vdf_rounds: u64,
    pub vdf_seed: String,
    pub leader_ticket: Option<BurnTicket>,
    pub blinded_transactions: Vec<BlindedTransaction>,
    pub reveal_bundles: Vec<RevealBundle>,
    pub transactions: Vec<Transaction>,
}

#[verifier::ext_equal]
pub struct PreparedBlockView {
    pub height: u64,
    pub prev_hash: Seq<char>,
    pub timestamp_ms: u64,
    pub miner: Seq<char>,
    pub finalizer_mode: FinalizerMode,
    pub finalizer_rank: u32,
    pub reward: Amount,
    pub vdf_rounds: u64,
    pub vdf_seed: Seq<char>,
    pub leader_ticket: Option<BurnTicketView>,
    pub blinded_transactions: Seq<BlindedTransactionView>,
    pub reveal_bundles: Seq<RevealBundleView>,
    pub transactions: Seq<TransactionView>,
}

impl DeepView for PreparedBlock {
    type V = PreparedBlockView;

    open spec fn deep_view(&self) -> PreparedBlockView {
        PreparedBlockView {
            height: self.height,
            prev_hash: self.prev_hash@,
            timestamp_ms: self.timestamp_ms,
            miner: self.miner@,
            finalizer_mode: self.finalizer_mode,
            finalizer_rank: self.finalizer_rank,
            reward: self.reward,
            vdf_rounds: self.vdf_rounds,
            vdf_seed: self.vdf_seed@,
            leader_ticket: self.leader_ticket.deep_view(),
            blinded_transactions: self.blinded_transactions.deep_view(),
            reveal_bundles: self.reveal_bundles.deep_view(),
            transactions: self.transactions.deep_view(),
        }
    }
}

/// A short account of a ledger.
#[derive(Clone, Debug, Eq, PartialEq)]
pub struct ChainStatus {
    pub height: u64,
    pub tip_hash: String,
    pub next_leader: Option<String>,
    pub launch_profile_hash: String,
    pub mine_reward: Amount,
    pub current_mine_difficulty_bits: u32,
    pub balances: SortedMap<String, u64>,
    pub pending_transactions: usize,
}

/// The place of the first ticket of an owner.
pub open spec fn place_of_owner(ranked: Seq<BurnTicketView>, owner: Seq<char>) -> Option<int>
    decreases ranked.len(),
{
    if ranked.len() == 0 {
        None
    } else {
        match place_of_owner(ranked.drop_last(), owner) {
            Some(i) => Some(i),
            None => if ranked.last().owner == owner {
                Some(ranked.len() - 1)
            } else {
                None
            },
        }
    }
}

/// The earliest time of a block by the finalizer of a rank.
pub open spec fn earliest_time(parent: BlockView, rank: u32) -> Result<u64, Seq<char>> {
    let time = parent.timestamp_ms + if rank == 0 {
        1
    } else {
        VDF_TARGET_BLOCK_MS * rank
    };
    if time > u64::MAX {
        Err("finalizer rank minimum timestamp overflow"@)
    } else {
        Ok(time as u64)
    }
}

/// Whether there is a burn among transactions.
pub open spec fn has_burn(transactions: Seq<TransactionView>) -> bool {
    exists|i: int| 0 <= i < transactions.len() && (#[trigger] transactions[i]).is_burn()
}

/// Whether there is a burn of an owner among transactions.
pub open spec fn has_burn_from(transactions: Seq<TransactionView>, owner: Seq<char>) -> bool {
    exists|i: int|
        0 <= i < transactions.len() && (#[trigger] transactions[i]).is_burn() && transactions[i].sender() == owner
}

pub open spec fn burn_check(transactions: Seq<TransactionView>) -> Result<(), Seq<char>> {
    if has_burn(transactions) {
        Ok(())
    } else {
        Err("block must include at least one burn transaction"@)
    }
}

pub open spec fn burn_from_check(transactions: Seq<TransactionView>, owner: Seq<char>) -> Result<(), Seq<char>> {
    if has_burn_from(transactions, owner) {
        Ok(())
    } else {
        Err("recovery block must include a burn from the finalizer"@)
    }
}

pub open spec fn recovery_refusal(earliest: u64) -> Seq<char> {
    "recovery block is not available before timestamp "@ + text::decimal(earliest as nat)
}

pub open spec fn later(a: u64, b: u64) -> u64 {
    if a < b {
        b
    } else {
        a
    }
}

/// What each address holds.
pub open spec fn balances_of(outputs: Seq<crate::transaction::TxOutputView>) -> Seq<(Seq<char>, u64)>
    decreases outputs.len(),
{
    if outputs.len() == 0 {
        Seq::<(Seq<char>, u64)>::empty()
    } else {
        let earlier = balances_of(outputs.drop_last());
        let output = outputs.last();
        let sum = utxo::recorded(earlier, output.address) + output.amount;
        sorted::with::<String, u64>(
            earlier,
            output.address,
            if sum > u64::MAX {
                u64::MAX
            } else {
                sum as u64
            },
        )
    }
}

impl PreparedBlockView {
    /// The proof that the finalizer of this block holds its ticket.
    pub open spec fn leader_proof(self, seed: Seq<u8>, vdf_output: Seq<char>) -> Option<LeaderProofView> {
        match self.leader_ticket {
            None => None,
            Some(ticket) => Some(
                block::leader_proof_of(
                    LeaderProofPayloadView {
                        height: self.height,
                        prev_hash: self.prev_hash,
                        finalizer_rank: self.finalizer_rank,
                        vdf_output,
                        ticket_id: ticket.id,
                        ticket_amount: ticket.amount,
                        ticket_owner: ticket.owner,
                    },
                    seed,
                ),
            ),
        }
    }

    /// The block once its delay was served, without its hash.
    pub open spec fn unhashed(self, seed: Seq<u8>, vdf_output: Seq<char>, timestamp_ms: u64) -> BlockView {
        BlockView {
            height: self.height,
            prev_hash: self.prev_hash,
            timestamp_ms,
            miner: self.miner,
            finalizer_mode: self.finalizer_mode,
            finalizer_rank: self.finalizer_rank,
            reward: self.reward,
            vdf_rounds: self.vdf_rounds,
            vdf_output,
            leader_proof: self.leader_proof(seed, vdf_output),
            blinded_transactions: self.blinded_transactions,
            reveal_bundles: self.reveal_bundles,
            transactions: self.transactions,
            hash: Seq::<char>::empty(),
        }
    }

    /// The block once its delay was served.
    pub open spec fn finished(self, seed: Seq<u8>, vdf_output: Seq<char>, timestamp_ms: u64) -> BlockView {
        let unhashed = self.unhashed(seed, vdf_output, timestamp_ms);
        BlockView { hash: unhashed.computed_hash(), ..unhashed }
    }

    /// The time of the block, when its delay was served at a time.
    pub open spec fn finish_time(self, timestamp_ms: u64) -> u64 {
        match self.finalizer_mode {
            FinalizerMode::Ticket => later(timestamp_ms, self.timestamp_ms),
            FinalizerMode::Recovery => self.timestamp_ms,
        }
    }
}

/// A finished block carries the hash of what it holds.
pub proof fn finished_block_has_its_hash(p: PreparedBlockView, seed: Seq<u8>, vdf_output: Seq<char>, timestamp_ms: u64)
    ensures
        p.finished(seed, vdf_output, timestamp_ms).hash == p.finished(
            seed,
            vdf_output,
            timestamp_ms,
        ).computed_hash(),
{
    let b = p.unhashed(seed, vdf_output, timestamp_ms);
    block::hash_ignores_hash(b, b.computed_hash());
}

impl LedgerView {
    /// The ticket of the finalizer of a rank.
    pub open spec fn finalizer_at(self, height: u64, rank: u32) -> Option<BurnTicketView> {
        if rank < self.finalizers(height).len() {
            Some(self.finalizers(height)[rank as int])
        } else {
            None
        }
    }

    /// The first ticket of a miner, with its rank.
    pub open spec fn finalizer_of(self, height: u64, miner: Seq<char>) -> Option<(u32, BurnTicketView)> {
        match place_of_owner(self.finalizers(height), miner) {
            Some(i) if i <= u32::MAX => Some((i as u32, self.finalizers(height)[i])),
            _ => None,
        }
    }

    /// The owner of the first ticket for the next block.
    pub open spec fn next_leader(self) -> Option<Seq<char>> {
        match self.finalizer_at(self.next_height(), 0) {
            Some(ticket) => Some(ticket.owner),
            None => None,
        }
    }

    /// The next block of a ticket holder, before its delay.
    pub open spec fn prepared(
        self,
        miner: Seq<char>,
        timestamp_ms: u64,
        bundles: Seq<RevealBundleView>,
        required_burn: Option<Seq<char>>,
    ) -> Result<PreparedBlockView, Seq<char>> {
        match self.finalizer_of(self.next_height(), miner) {
            None => Err("cannot mine block without a mature burn ticket"@),
            Some((rank, ticket)) => match self.bundles_check(self.next_height(), self.tip().hash, bundles) {
                Err(e) => Err(e),
                Ok(_) => {
                    let items = self.chosen_items(
                        selection::first_burn(required_burn, WantedView::Burn),
                        false,
                    );
                    match burn_check(items.transactions) {
                        Err(e) => Err(e),
                        Ok(_) => match earliest_time(self.tip(), rank) {
                            Err(e) => Err(e),
                            Ok(earliest) => match rewards::reward_of(items.transactions) {
                                Err(e) => Err(e),
                                Ok(reward) => match vdf::rounds_for_rank(self.vdf_rounds, rank) {
                                    Err(e) => Err(e),
                                    Ok(rounds) => Ok(
                                        PreparedBlockView {
                                            height: self.next_height(),
                                            prev_hash: self.tip().hash,
                                            timestamp_ms: later(timestamp_ms, earliest),
                                            miner,
                                            finalizer_mode: FinalizerMode::Ticket,
                                            finalizer_rank: rank,
                                            reward,
                                            vdf_rounds: rounds,
                                            vdf_seed: block::child_seed(
                                                self.tip().hash,
                                                self.next_height(),
                                                blinded::slot_hashes(bundles),
                                            ),
                                            leader_ticket: Some(ticket),
                                            blinded_transactions: items.blinded_transactions,
                                            reveal_bundles: bundles,
                                            transactions: items.transactions,
                                        },
                                    ),
                                },
                            },
                        },
                    }
                },
            },
        }
    }

    /// The next block when no ticket holder came, before its delay.
    pub open spec fn prepared_recovery(
        self,
        miner: Seq<char>,
        timestamp_ms: u64,
        bundles: Seq<RevealBundleView>,
        required_burn: Option<Seq<char>>,
    ) -> Result<PreparedBlockView, Seq<char>> {
        if timestamp_ms < self.recovery_time() {
            Err(recovery_refusal(self.recovery_time()))
        } else {
            match self.bundles_check(self.next_height(), self.tip().hash, bundles) {
                Err(e) => Err(e),
                Ok(_) => {
                    let items = self.chosen_items(
                        selection::first_burn(required_burn, WantedView::BurnFrom(miner)),
                        true,
                    );
                    match burn_check(items.transactions) {
                        Err(e) => Err(e),
                        Ok(_) => match burn_from_check(items.transactions, miner) {
                            Err(e) => Err(e),
                            Ok(_) => match rewards::reward_of(items.transactions) {
                                Err(e) => Err(e),
                                Ok(reward) => match vdf::rounds_for_rank(self.vdf_rounds, 0) {
                                    Err(e) => Err(e),
                                    Ok(rounds) => {
                                        let time = later(timestamp_ms, (self.tip().timestamp_ms + 1) as u64);
                                        Ok(
                                            PreparedBlockView {
                                                height: self.next_height(),
                                                prev_hash: self.tip().hash,
                                                timestamp_ms: time,
                                                miner,
                                                finalizer_mode: FinalizerMode::Recovery,
                                                finalizer_rank: 0,
                                                reward,
                                                vdf_rounds: rounds,
                                                vdf_seed: block::recovery_child_seed(
                                                    self.tip().hash,
                                                    self.next_height(),
                                                    time,
                                                    blinded::slot_hashes(bundles),
                                                ),
                                                leader_ticket: None,
                                                blinded_transactions: items.blinded_transactions,
                                                reveal_bundles: bundles,
                                                transactions: items.transactions,
                                            },
                                        )
                                    },
                                },
                            },
                        },
                    }
                },
            }
        }
    }

    /// The block that serving the delay of a prepared block gives.
    pub open spec fn mined(p: Result<PreparedBlockView, Seq<char>>, seed: Seq<u8>) -> Result<BlockView, Seq<char>> {
        match p {
            Err(e) => Err(e),
            Ok(prepared) => Ok(
                prepared.finished(
                    seed,
                    vdf::vdf_solution(prepared.vdf_seed, prepared.vdf_rounds),
                    prepared.timestamp_ms,
                ),
            ),
        }
    }
}

/// The seed of a prepared block's delay is the seed of the finished block.
pub proof fn finished_block_keeps_seed(
    l: LedgerView,
    miner: Seq<char>,
    timestamp_ms: u64,
    bundles: Seq<RevealBundleView>,
    required_burn: Option<Seq<char>>,
    seed: Seq<u8>,
    vdf_output: Seq<char>,
    at: u64,
)
    ensures
        l.prepared(miner, timestamp_ms, bundles, required_burn) matches Ok(p) ==> p.finished(
            seed,
            vdf_output,
            p.finish_time(at),
        ).vdf_seed() == p.vdf_seed,
        l.prepared_recovery(miner, timestamp_ms, bundles, required_burn) matches Ok(p) ==> p.finished(
            seed,
            vdf_output,
            p.finish_time(at),
        ).vdf_seed() == p.vdf_seed,
{
}

/// A prepared block comes after the tip: one higher, on its hash, at a later time.
pub proof fn prepared_block_extends_the_tip(
    l: LedgerView,
    miner: Seq<char>,
    timestamp_ms: u64,
    bundles: Seq<RevealBundleView>,
    required_burn: Option<Seq<char>>,
)
    requires
        l.valid(),
        l.tip().timestamp_ms < u64::MAX,
        l.chain.len() <= u64::MAX,
    ensures
        l.prepared(miner, timestamp_ms, bundles, required_burn) matches Ok(p) ==> p.height == l.height() + 1 && p.prev_hash
            == l.tip().hash && p.timestamp_ms > l.tip().timestamp_ms && has_burn(p.transactions),
        l.prepared_recovery(miner, timestamp_ms, bundles, required_burn) matches Ok(p) ==> p.height == l.height() + 1
            && p.prev_hash == l.tip().hash && p.timestamp_ms > l.tip().timestamp_ms && has_burn_from(
            p.transactions,
            miner,
        ),
{
}

proof fn place_found(ranked: Seq<BurnTicketView>, owner: Seq<char>, n: int)
    requires
        0 <= n < ranked.len(),
        place_of_owner(ranked.take(n), owner) is None,
        ranked[n].owner == owner,
    ensures
        place_of_owner(ranked, owner) == Some(n),
    decreases ranked.len(),
{
    if n < ranked.len() - 1 {
        assert(ranked.drop_last().take(n) =~= ranked.take(n));
        place_found(ranked.drop_last(), owner, n);
    } else {
        assert(ranked.drop_last() =~= ranked.take(n));
    }
}

fn find_owner(ranked: &Vec<BurnTicket>, owner: &str) -> (r: Option<usize>)
    ensures
        match r {
            Some(i) => place_of_owner(ranked.deep_view(), owner@) == Some(i as int) && i < ranked.len(),
            None => place_of_owner(ranked.deep_view(), owner@) is None,
        },
{
    let ghost v = ranked.deep_view();
    let mut i: usize = 0;
    proof {
        model::take_all(v);
    }
    while i < ranked.len()
        invariant
            i <= ranked.len(),
            v == ranked.deep_view(),
            place_of_owner(v.take(i as int), owner@) is None,
        decreases ranked.len() - i,
    {
        if text::text_eq(ranked[i].owner.as_str(), owner) {
            proof {
                place_found(v, owner@, i as int);
            }
            return Some(i);
        }
        proof {
            assert(v.take(i + 1).drop_last() =~= v.take(i as int));
        }
        i = i + 1;
    }
    proof {
        model::take_all(v);
    }
    None
}

/// The earliest time of a block by the finalizer of a rank.
pub fn ticket_block_min_timestamp(parent: &Block, rank: u32) -> (r: Result<u64, Error>)
    ensures
        error::outcome(r) == earliest_time(parent.deep_view(), rank),
{
    let delay: u64 = if rank == 0 {
        1
    } else {
        VDF_TARGET_BLOCK_MS * rank as u64
    };
    match parent.timestamp_ms.checked_add(delay) {
        Some(time) => Ok(time),
        None => Err(Error::new("finalizer rank minimum timestamp overflow")),
    }
}

pub fn ensure_block_has_burn(transactions: &Vec<Transaction>) -> (r: Result<(), Error>)
    ensures
        error::outcome(r) == burn_check(transactions.deep_view()),
{
    let ghost v = transactions.deep_view();
    let mut i: usize = 0;
    while i < transactions.len()
        invariant
            i <= transactions.len(),
            v == transactions.deep_view(),
            forall|j: int| 0 <= j < i ==> !(#[trigger] v[j]).is_burn(),
        decreases transactions.len() - i,
    {
        if transactions[i].is_burn() {
            assert(v[i as int].is_burn());
            return Ok(());
        }
        i = i + 1;
    }
    Err(Error::new("block must include at least one burn transaction"))
}

pub fn ensure_block_has_burn_from(transactions: &Vec<Transaction>, miner: &str) -> (r: Result<(), Error>)
    ensures
        error::outcome(r) == burn_from_check(transactions.deep_view(), miner@),
{
    let ghost v = transactions.deep_view();
    let mut i: usize = 0;
    while i < transactions.len()
        invariant
            i <= transactions.len(),
            v == transactions.deep_view(),
            forall|j: int| 0 <= j < i ==> !((#[trigger] v[j]).is_burn() && v[j].sender() == miner@),
        decreases transactions.len() - i,
    {
        if transactions[i].is_burn() && text::text_eq(transactions[i].sender(), miner) {
            assert(v[i as int].is_burn() && v[i as int].sender() == miner@);
            return Ok(());
        }
        i = i + 1;
    }
    Err(Error::new("recovery block must include a burn from the finalizer"))
}

pub(crate) fn recovery_error(earliest: u64) -> (r: Error)
    ensures
        r.deep_view() == recovery_refusal(earliest),
{
    let mut message = text::text("recovery block is not available before timestamp ");
    text::push_decimal(&mut message, earliest as u128);
    Error::of(message)
}

/// What each address holds.
pub fn balances_from_utxos(utxos: &Utxos) -> (r: SortedMap<String, u64>)
    ensures
        r.wf(),
        r.deep_view() == balances_of(utxo::outputs_of(utxos.deep_view())),
{
    let ghost o = utxo::outputs_of(utxos.deep_view());
    let mut balances: SortedMap<String, u64> = SortedMap::new();
    let mut i: usize = 0;
    proof {
        model::take_all(o);
    }
    while i < utxos.len()
        invariant
            i <= o.len(),
            o == utxo::outputs_of(utxos.deep_view()),
            balances.wf(),
            balances.deep_view() == balances_of(o.take(i as int)),
        decreases o.len() - i,
    {
        proof {
            assert(o.take(i + 1).drop_last() =~= o.take(i as int));
            assert(o.take(i + 1).last() == o[i as int]);
        }
        let entry = utxos.at(i);
        let held: u64 = match balances.get(&entry.1.address) {
            Some(amount) => *amount,
            None => 0,
        };
        balances.insert(entry.1.address.clone(), held.saturating_add(entry.1.amount));
        i = i + 1;
    }
    proof {
        model::take_all(o);
    }
    balances
}

/// The recorded balance of an address is what its outputs hold, where that fits.
pub proof fn balances_are_recorded(outputs: Seq<crate::transaction::TxOutputView>, address: Seq<char>)
    requires
        utxo::balance_in(outputs, address) <= u64::MAX,
    ensures
        sorted::increasing::<String, u64>(balances_of(outputs)),
        utxo::recorded(balances_of(outputs), address) == utxo::balance_in(outputs, address),
    decreases outputs.len(),
{
    if outputs.len() > 0 {
        let earlier = outputs.drop_last();
        let output = outputs.last();
        balances_are_recorded(earlier, address);
        let sum = utxo::recorded(balances_of(earlier), output.address) + output.amount;
        let kept = if sum > u64::MAX {
            u64::MAX
        } else {
            sum as u64
        };
        sorted::with_increasing::<String, u64>(balances_of(earlier), output.address, kept);
        sorted::read_after_write::<String, u64>(balances_of(earlier), output.address, kept, address);
    }
}

impl PreparedBlock {
    pub fn vdf_seed(&self) -> (r: &str)
        ensures
            r@ == self.deep_view().vdf_seed,
    {
        self.vdf_seed.as_str()
    }

    pub fn vdf_rounds(&self) -> (r: u64)
        ensures
            r == self.deep_view().vdf_rounds,
    {
        self.vdf_rounds
    }

    pub fn height(&self) -> (r: u64)
        ensures
            r == self.deep_view().height,
    {
        self.height
    }

    pub fn timestamp_ms(&self) -> (r: u64)
        ensures
            r == self.deep_view().timestamp_ms,
    {
        self.timestamp_ms
    }

    /// The block once its delay was served.
    pub fn finish(self, wallet: &Wallet, vdf_output: String) -> (r: Block)
        ensures
            r.deep_view() == self.deep_view().finished(
                wallet.seed(),
                vdf_output@,
                self.deep_view().timestamp_ms,
            ),
    {
        let timestamp_ms: u64 = self.timestamp_ms;
        self.finish_with_timestamp(wallet, vdf_output, timestamp_ms)
    }

    /// The block once its delay was served at a time.
    pub fn finish_at(self, wallet: &Wallet, vdf_output: String, timestamp_ms: u64) -> (r: Block)
        ensures
            r.deep_view() == self.deep_view().finished(
                wallet.seed(),
                vdf_output@,
                self.deep_view().finish_time(timestamp_ms),
            ),
    {
        let time: u64 = match self.finalizer_mode {
            FinalizerMode::Ticket => if timestamp_ms < self.timestamp_ms {
                self.timestamp_ms
            } else {
                timestamp_ms
            },
            FinalizerMode::Recovery => self.timestamp_ms,
        };
        self.finish_with_timestamp(wallet, vdf_output, time)
    }

    fn finish_with_timestamp(self, wallet: &Wallet, vdf_output: String, timestamp_ms: u64) -> (r: Block)
        ensures
            r.deep_view() == self.deep_view().finished(wallet.seed(), vdf_output@, timestamp_ms),
    {
        let leader_proof: Option<LeaderProof> = match &self.leader_ticket {
            None => None,
            Some(ticket) => {
                let payload = LeaderProofPayload {
                    height: self.height,
                    prev_hash: self.prev_hash.clone(),
                    finalizer_rank: self.finalizer_rank,
                    vdf_output: vdf_output.clone(),
                    ticket_id: ticket.id.clone(),
                    ticket_amount: ticket.amount,
                    ticket_owner: ticket.owner.clone(),
                };
                Some(wallet.leader_proof(&payload))
            },
        };
        let block = Block {
            height: self.height,
            prev_hash: self.prev_hash,
            timestamp_ms,
            miner: self.miner,
            finalizer_mode: self.finalizer_mode,
            finalizer_rank: self.finalizer_rank,
            reward: self.reward,
            vdf_rounds: self.vdf_rounds,
            vdf_output,
            leader_proof,
            blinded_transactions: self.blinded_transactions,
            reveal_bundles: self.reveal_bundles,
            transactions: self.transactions,
            hash: String::new(),
        };
        let ghost p = self.deep_view();
        assert(block.hash@ =~= Seq::<char>::empty());
        assert(block.deep_view() == p.unhashed(wallet.seed(), vdf_output@, timestamp_ms));
        block.sealed()
    }
}

impl Ledger {
    /// The ticket of the finalizer of a rank.
    pub fn ticket_for_finalizer_rank(&self, height: u64, rank: u32) -> (r: Option<BurnTicket>)
        requires
            self.wf(),
        ensures
            r.deep_view() == self.deep_view().finalizer_at(height, rank),
    {
        let ranked = tickets::ranked_tickets_for_height(self.tip(), height, &self.tickets);
        if (rank as u64) < ranked.len() as u64 {
            Some(ranked[rank as usize].duplicate())
        } else {
            None
        }
    }

    fn finalizer_ticket_for_miner(&self, height: u64, miner: &str) -> (r: Option<(u32, BurnTicket)>)
        requires
            self.wf(),
        ensures
            match r {
                Some(f) => self.deep_view().finalizer_of(height, miner@) == Some((f.0, f.1.deep_view())),
                None => self.deep_view().finalizer_of(height, miner@) is None,
            },
    {
        let ranked = tickets::ranked_tickets_for_height(self.tip(), height, &self.tickets);
        match find_owner(&ranked, miner) {
            Some(i) => if i as u64 <= u32::MAX as u64 {
                Some((i as u32, ranked[i].duplicate()))
            } else {
                None
            },
            None => None,
        }
    }

    /// The owner of the first ticket for the next block.
    pub fn expected_leader_for_next_block(&self) -> (r: Option<String>)
        requires
            self.wf(),
        ensures
            r.deep_view() == self.deep_view().next_leader(),
    {
        match self.ticket_for_finalizer_rank(self.height() + 1, 0) {
            Some(ticket) => Some(ticket.owner),
            None => None,
        }
    }

    /// The best rank that a miner has for the next block.
    pub fn finalizer_rank_for_next_block(&self, miner: &str) -> (r: Option<u32>)
        requires
            self.wf(),
        ensures
            r == match self.deep_view().finalizer_of(self.deep_view().next_height(), miner@) {
                Some(f) => Some(f.0),
                None => None,
            },
    {
        match self.finalizer_ticket_for_miner(self.height() + 1, miner) {
            Some(f) => Some(f.0),
            None => None,
        }
    }

    /// How many finalizers the next block has.
    pub fn finalizer_rank_count_for_next_block(&self) -> (r: usize)
        requires
            self.wf(),
        ensures
            r == self.deep_view().finalizers(self.deep_view().next_height()).len(),
    {
        let ranked = tickets::ranked_tickets_for_height(self.tip(), self.height() + 1, &self.tickets);
        ranked.len()
    }

    /// A short account of this ledger.
    pub fn status(&self) -> (r: ChainStatus)
        requires
            self.wf(),
        ensures
            r.height == self.deep_view().height(),
            r.tip_hash@ == self.deep_view().tip().hash,
            r.next_leader.deep_view() == self.deep_view().next_leader(),
            r.launch_profile_hash@ == self.deep_view().launch_profile.hash(),
            r.mine_reward == self.deep_view().mine_reward,
            r.current_mine_difficulty_bits == self.deep_view().difficulty_at(self.deep_view().height()),
            r.balances.wf(),
            r.balances.deep_view() == balances_of(utxo::outputs_of(self.deep_view().utxos)),
            r.pending_transactions == self.deep_view().pending.len() + self.deep_view().pending_blinded.len()
                + self.deep_view().pending_reveals.len(),
    {
        ChainStatus {
            height: self.height(),
            tip_hash: self.tip().hash.clone(),
            next_leader: self.expected_leader_for_next_block(),
            launch_profile_hash: self.launch_profile.hash(),
            mine_reward: self.mine_reward,
            current_mine_difficulty_bits: self.current_mine_difficulty_bits(),
            balances: balances_from_utxos(&self.utxos),
            pending_transactions: self.pending.len() + self.pending_blinded.len() + self.pending_reveals.len(),
        }
    }

    pub fn prepare_next_block(&self, miner: &str, timestamp_ms: u64) -> (r: Result<PreparedBlock, Error>)
        requires
            self.wf(),
        ensures
            error::outcome(r) == self.deep_view().prepared(
                miner@,
                timestamp_ms,
                Seq::<RevealBundleView>::empty(),
                None,
            ),
    {
        let none: Vec<RevealBundle> = Vec::new();
        assert(none.deep_view() =~= Seq::<RevealBundleView>::empty());
        self.prepare_next_block_with_reveal_bundles(miner, timestamp_ms, none)
    }

    pub fn prepare_next_block_with_reveal_bundles(
        &self,
        miner: &str,
        timestamp_ms: u64,
        reveal_bundles: Vec<RevealBundle>,
    ) -> (r: Result<PreparedBlock, Error>)
        requires
            self.wf(),
        ensures
            error::outcome(r) == self.deep_view().prepared(
                miner@,
                timestamp_ms,
                reveal_bundles.deep_view(),
                None,
            ),
    {
        self.prepare_next_block_with_required_burn_and_reveal_bundles(miner, timestamp_ms, reveal_bundles, None)
    }

    /// The next block of a ticket holder, before its delay; a required burn comes first.
    pub fn prepare_next_block_with_required_burn_and_reveal_bundles(
        &self,
        miner: &str,
        timestamp_ms: u64,
        reveal_bundles: Vec<RevealBundle>,
        required_burn: Option<&str>,
    ) -> (r: Result<PreparedBlock, Error>)
        requires
            self.wf(),
        ensures
            error::outcome(r) == self.deep_view().prepared(
                miner@,
                timestamp_ms,
                reveal_bundles.deep_view(),
                required_burn.deep_view(),
            ),
    {
        let height: u64 = self.height() + 1;
        let (finalizer_rank, leader_ticket) = match self.finalizer_ticket_for_miner(height, miner) {
            Some(f) => f,
            None => return Err(Error::new("cannot mine block without a mature burn ticket")),
        };
        let bundles = self.validate_next_block_reveal_bundles(reveal_bundles)?;
        let items = self.select_block_transactions(required_burn);
        ensure_block_has_burn(&items.transactions)?;
        let tip = self.tip();
        let earliest: u64 = ticket_block_min_timestamp(tip, finalizer_rank)?;
        let reward: u64 = rewards::fee_reward(&items.transactions)?;
        let vdf_rounds: u64 = vdf::vdf_rounds_for_finalizer_rank(self.vdf_rounds, finalizer_rank)?;
        let hashes = blinded::reveal_bundle_hashes(&bundles);
        Ok(
            PreparedBlock {
                height,
                prev_hash: tip.hash.clone(),
                timestamp_ms: if timestamp_ms < earliest {
                    earliest
                } else {
                    timestamp_ms
                },
                miner: text::text(miner),
                finalizer_mode: FinalizerMode::Ticket,
                finalizer_rank,
                reward,
                vdf_rounds,
                vdf_seed: block::vdf_seed_for_child(tip.hash.as_str(), height, &hashes),
                leader_ticket: Some(leader_ticket),
                blinded_transactions: items.blinded_transactions,
                reveal_bundles: bundles,
                transactions: items.transactions,
            },
        )
    }

    pub fn prepare_recovery_block(&self, miner: &str, timestamp_ms: u64) -> (r: Result<PreparedBlock, Error>)
        requires
            self.wf(),
            self.deep_view().tip().timestamp_ms < u64::MAX || timestamp_ms < u64::MAX,
        ensures
            error::outcome(r) == self.deep_view().prepared_recovery(
                miner@,
                timestamp_ms,
                Seq::<RevealBundleView>::empty(),
                None,
            ),
    {
        let none: Vec<RevealBundle> = Vec::new();
        assert(none.deep_view() =~= Seq::<RevealBundleView>::empty());
        self.prepare_recovery_block_with_reveal_bundles(miner, timestamp_ms, none)
    }

    pub fn prepare_recovery_block_with_reveal_bundles(
        &self,
        miner: &str,
        timestamp_ms: u64,
        reveal_bundles: Vec<RevealBundle>,
    ) -> (r: Result<PreparedBlock, Error>)
        requires
            self.wf(),
            self.deep_view().tip().timestamp_ms < u64::MAX || timestamp_ms < u64::MAX,
        ensures
            error::outcome(r) == self.deep_view().prepared_recovery(
                miner@,
                timestamp_ms,
                reveal_bundles.deep_view(),
                None,
            ),
    {
        self.prepare_recovery_block_with_required_burn_and_reveal_bundles(
            miner,
            timestamp_ms,
            reveal_bundles,
            None,
        )
    }

    /// The next block when no ticket holder came, before its delay; a required burn comes first.
    pub fn prepare_recovery_block_with_required_burn_and_reveal_bundles(
        &self,
        miner: &str,
        timestamp_ms: u64,
        reveal_bundles: Vec<RevealBundle>,
        required_burn: Option<&str>,
    ) -> (r: Result<PreparedBlock, Error>)
        requires
            self.wf(),
            self.deep_view().tip().timestamp_ms < u64::MAX || timestamp_ms < u64::MAX,
        ensures
            error::outcome(r) == self.deep_view().prepared_recovery(
                miner@,
                timestamp_ms,
                reveal_bundles.deep_view(),
                required_burn.deep_view(),
            ),
    {
        let height: u64 = self.height() + 1;
        let earliest: u64 = self.recovery_block_min_timestamp();
        if timestamp_ms < earliest {
            return Err(recovery_error(earliest));
        }
        let bundles = self.validate_next_block_reveal_bundles(reveal_bundles)?;
        let items = self.select_recovery_block_transactions(miner, required_burn);
        ensure_block_has_burn(&items.transactions)?;
        ensure_block_has_burn_from(&items.transactions, miner)?;
        let tip = self.tip();
        let time: u64 = if timestamp_ms < tip.timestamp_ms + 1 {
            tip.timestamp_ms + 1
        } else {
            timestamp_ms
        };
        let reward: u64 = rewards::fee_reward(&items.transactions)?;
        let vdf_rounds: u64 = vdf::vdf_rounds_for_finalizer_rank(self.vdf_rounds, 0)?;
        let hashes = blinded::reveal_bundle_hashes(&bundles);
        Ok(
            PreparedBlock {
                height,
                prev_hash: tip.hash.clone(),
                timestamp_ms: time,
                miner: text::text(miner),
                finalizer_mode: FinalizerMode::Recovery,
                finalizer_rank: 0,
                reward,
                vdf_rounds,
                vdf_seed: block::recovery_vdf_seed_for_child(tip.hash.as_str(), height, time, &hashes),
                leader_ticket: None,
                blinded_transactions: items.blinded_transactions,
                reveal_bundles: bundles,
                transactions: items.transactions,
            },
        )
    }

    /// Prepares the next block and serves its delay.
    pub fn mine_next_block(&self, wallet: &Wallet, timestamp_ms: u64) -> (r: Result<Block, Error>)
        requires
            self.wf(),
        ensures
            error::outcome(r) == LedgerView::mined(
                self.deep_view().prepared(
                    crate::wallet::address_of(wallet.seed()),
                    timestamp_ms,
                    Seq::<RevealBundleView>::empty(),
                    None,
                ),
                wallet.seed(),
            ),
    {
        let prepared = self.prepare_next_block(wallet.address(), timestamp_ms)?;
        let vdf_output = vdf::run_vdf(prepared.vdf_seed(), prepared.vdf_rounds());
        Ok(prepared.finish(wallet, vdf_output))
    }

    /// Prepares a recovery block and serves its delay.
    pub fn mine_recovery_block(&self, wallet: &Wallet, timestamp_ms: u64) -> (r: Result<Block, Error>)
        requires
            self.wf(),
            self.deep_view().tip().timestamp_ms < u64::MAX || timestamp_ms < u64::MAX,
        ensures
            error::outcome(r) == LedgerView::mined(
                self.deep_view().prepared_recovery(
                    crate::wallet::address_of(wallet.seed()),
                    timestamp_ms,
                    Seq::<RevealBundleView>::empty(),
                    None,
                ),
                wallet.seed(),
            ),
    {
        let prepared = self.prepare_recovery_block(wallet.address(), timestamp_ms)?;
        let vdf_output = vdf::run_vdf(prepared.vdf_seed(), prepared.vdf_rounds());
        Ok(prepared.finish(wallet, vdf_output))
    }
}

/// The finalizer of a rank may not finalize before the ranks before it have had five minutes each
/// since the block before, and the first not before that block.
pub proof fn later_ranks_wait_longer(parent: BlockView, rank: u32)
    ensures
        ({
            let time = parent.timestamp_ms + if rank == 0 { 1 } else { 300_000 * rank };
            &&& (earliest_time(parent, rank) is Ok <==> time <= 18_446_744_073_709_551_615)
            &&& (earliest_time(parent, rank) is Ok ==> earliest_time(parent, rank)->Ok_0 == time)
        }),
{
}

} // verus!
