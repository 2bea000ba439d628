//! The tickets and envelopes of a ledger are those that its chain gives, so what is drawn from a
//! chain is drawn alike by everyone who has it.
use crate::blinded::{
    ActiveBlindedTransactionView, BlindedRevealView, RevealCommitteeMemberView, RevealedBlindedTransactionView,
};
use crate::block;
use crate::block::{BlockView, FinalizerMode};
use crate::blocks;
use crate::bundling;
use crate::committee;
use crate::genesis::AllocationsView;
use crate::ledger::{ActiveView, LedgerView};
use crate::locks::HoldingsView;
use crate::lottery;
use crate::model;
use crate::replay;
use crate::sorted;
use crate::tickets;
use crate::tickets::{BurnTicketView, LaunchProfileView};
use crate::transaction::TransactionView;
use vstd::prelude::*;

verus! {

/// Whether tickets and active envelopes are those that replaying a chain gives.
#[verifier::opaque]
pub open spec fn in_step(
    chain: Seq<BlockView>,
    allocations: AllocationsView,
    profile: LaunchProfileView,
    held: Seq<BurnTicketView>,
    active: ActiveView,
) -> bool {
    committee::replayed_chain(chain, allocations, profile, chain.len()) == Ok::<
        (Seq<BurnTicketView>, ActiveView),
        Seq<char>,
    >((held, active))
}

/// The envelopes that reveals do not open.
pub open spec fn unrevealed(reveals: Seq<BlindedRevealView>) -> spec_fn((Seq<char>, ActiveBlindedTransactionView)) -> bool {
    |e: (Seq<char>, ActiveBlindedTransactionView)| !block::reveals_commitment(reveals, e.0)
}

proof fn filter_everything<T>(s: Seq<T>, p: spec_fn(T) -> bool)
    requires
        forall|x: T| #[trigger] p(x),
    ensures
        s.filter(p) == s,
    decreases s.len(),
{
    if s.len() == 0 {
        model::filter_empty(p);
        assert(s =~= Seq::<T>::empty());
    } else {
        filter_everything(s.drop_last(), p);
        model::filter_push(s.drop_last(), s.last(), p);
        assert(s =~= s.drop_last().push(s.last()));
        assert(p(s.last()));
    }
}

proof fn one_more_revealed(reveals: Seq<BlindedRevealView>, commitment: Seq<char>)
    requires
        reveals.len() > 0,
    ensures
        block::reveals_commitment(reveals, commitment) <==> block::reveals_commitment(reveals.drop_last(), commitment)
            || reveals.last().commitment == commitment,
{
    let earlier = reveals.drop_last();
    if block::reveals_commitment(earlier, commitment) {
        let i = choose|i: int| 0 <= i < earlier.len() && (#[trigger] earlier[i]).commitment == commitment;
        assert(reveals[i].commitment == commitment);
    }
    if reveals.last().commitment == commitment {
        assert(reveals[reveals.len() - 1].commitment == commitment);
    }
    if block::reveals_commitment(reveals, commitment) {
        let i = choose|i: int| 0 <= i < reveals.len() && (#[trigger] reveals[i]).commitment == commitment;
        if i < earlier.len() {
            assert(earlier[i].commitment == commitment);
        }
    }
}

/// The envelopes that are left once one more is opened.
proof fn one_fewer_is_left(active: ActiveView, reveals: Seq<BlindedRevealView>)
    requires
        reveals.len() > 0,
    ensures
        active.filter(unrevealed(reveals)) == sorted::without(
            active.filter(unrevealed(reveals.drop_last())),
            reveals.last().commitment,
        ),
{
    let p = unrevealed(reveals.drop_last());
    let both = unrevealed(reveals);
    assert forall|e: (Seq<char>, ActiveBlindedTransactionView)| #[trigger] both(e) == (p(e) && e.0
        != reveals.last().commitment) by {
        one_more_revealed(reveals, e.0);
    }
    sorted::filter_without(active, p, reveals.last().commitment, both);
}

/// What no reveal opens is left as it was.
proof fn unopened_are_left(active: ActiveView, reveals: Seq<BlindedRevealView>, k: Seq<char>)
    requires
        sorted::increasing::<String, ActiveBlindedTransactionView>(active),
        !block::reveals_commitment(reveals, k),
    ensures
        sorted::lookup(active.filter(unrevealed(reveals)), k) == sorted::lookup(active, k),
    decreases reveals.len(),
{
    if reveals.len() == 0 {
        filter_everything(active, unrevealed(reveals));
    } else {
        let earlier = reveals.drop_last();
        one_more_revealed(reveals, k);
        unopened_are_left(active, earlier, k);
        one_fewer_is_left(active, reveals);
        sorted::filter_increasing::<String, ActiveBlindedTransactionView>(active, unrevealed(earlier));
        sorted::read_after_removal::<String, ActiveBlindedTransactionView>(
            active.filter(unrevealed(earlier)),
            reveals.last().commitment,
            k,
        );
    }
}

proof fn one_opening_agrees(
    l: LedgerView,
    r: BlindedRevealView,
    miner: Seq<char>,
    bundles: nat,
    h: HoldingsView,
    left: ActiveView,
    height: u64,
)
    requires
        blocks::after_reveal(l, r, miner, bundles, h) is Ok,
        sorted::lookup(left, r.commitment) == sorted::lookup(l.active_blinded, r.commitment),
    ensures
        replay::opened(left, r, height) matches Ok(one) && one.transaction == (blocks::after_reveal(
            l,
            r,
            miner,
            bundles,
            h,
        )->Ok_0).1,
{
    reveal(blocks::after_reveal);
}

/// What the reveals of a block open in a ledger is what replaying opens, and the same envelopes are
/// left.
proof fn openings_agree(
    l: LedgerView,
    reveals: Seq<BlindedRevealView>,
    miner: Seq<char>,
    bundles: nat,
    h: HoldingsView,
    height: u64,
)
    requires
        sorted::increasing::<String, ActiveBlindedTransactionView>(l.active_blinded),
        blocks::after_reveals(l, reveals, miner, bundles, h) is Ok,
        bundling::distinct(reveals),
    ensures
        replay::opening(l.active_blinded, reveals, height) matches Ok((revealed, left))
            && committee::revealed_transactions(revealed) == (blocks::after_reveals(
            l,
            reveals,
            miner,
            bundles,
            h,
        )->Ok_0).1 && left == l.active_blinded.filter(unrevealed(reveals)),
    decreases reveals.len(),
{
    let active = l.active_blinded;
    if reveals.len() == 0 {
        filter_everything(active, unrevealed(reveals));
        assert(committee::revealed_transactions(Seq::<RevealedBlindedTransactionView>::empty()) =~= Seq::<
            TransactionView,
        >::empty());
    } else {
        let earlier = reveals.drop_last();
        let r = reveals.last();
        assert(bundling::distinct(earlier)) by {
            assert forall|i: int, k: int| 0 <= i < k < earlier.len() implies (#[trigger] earlier[i]).commitment != (
            #[trigger] earlier[k]).commitment by {
                assert(reveals[i].commitment != reveals[k].commitment);
            }
        }
        assert(!block::reveals_commitment(earlier, r.commitment)) by {
            if block::reveals_commitment(earlier, r.commitment) {
                let i = choose|i: int| 0 <= i < earlier.len() && (#[trigger] earlier[i]).commitment == r.commitment;
                assert(reveals[i].commitment != reveals[reveals.len() - 1].commitment);
            }
        }
        openings_agree(l, earlier, miner, bundles, h, height);
        let (revealed, left) = replay::opening(active, earlier, height)->Ok_0;
        let (g, opened) = blocks::after_reveals(l, earlier, miner, bundles, h)->Ok_0;
        unopened_are_left(active, earlier, r.commitment);
        one_opening_agrees(l, r, miner, bundles, g, left, height);
        one_fewer_is_left(active, reveals);
        let t = (blocks::after_reveal(l, r, miner, bundles, g)->Ok_0).1;
        let one = replay::opened(left, r, height)->Ok_0;
        assert(committee::revealed_transactions(revealed.push(one)) =~= opened.push(t));
    }
}

/// A block does to the tickets and envelopes of a ledger what replaying it does.
proof fn block_is_replayed_alike(l: LedgerView, b: BlockView)
    requires
        l.valid(),
        l.block_effects(b) is Ok,
    ensures
        ({
            let (h, held) = l.block_effects(b)->Ok_0;
            committee::replayed_block(b, l.tickets, l.active_blinded, l.launch_profile) == Ok::<
                (Seq<BurnTicketView>, ActiveView),
                Seq<char>,
            >((held, l.stacked(b, h, held).active_blinded))
        }),
{
    let h = l.after_including(b)->Ok_0;
    let reveals = b.all_reveals();
    block::first_reveals_distinct(block::bundle_reveals(b.reveal_bundles));
    openings_agree(l, reveals, b.miner, b.reveal_bundles.len(), h, b.height);
    let (revealed, left) = replay::opening(l.active_blinded, reveals, b.height)->Ok_0;
    let p = unrevealed(reveals);
    let q = replay::unexpired(b.height);
    let both = blocks::stays_active(reveals, b.height);
    assert forall|e: (Seq<char>, ActiveBlindedTransactionView)| #[trigger] both(e) == (p(e) && q(e)) by {}
    model::filter_twice(l.active_blinded, p, q, both);
}

proof fn prefix_is_replayed_alike(
    chain: Seq<BlockView>,
    b: BlockView,
    allocations: AllocationsView,
    profile: LaunchProfileView,
    count: nat,
)
    requires
        0 < count <= chain.len(),
    ensures
        committee::replayed_chain(chain.push(b), allocations, profile, count) == committee::replayed_chain(
            chain,
            allocations,
            profile,
            count,
        ),
    decreases count,
{
    assert(chain.push(b)[0] == chain[0]);
    if count > 1 {
        prefix_is_replayed_alike(chain, b, allocations, profile, (count - 1) as nat);
        assert(chain.push(b)[count - 1] == chain[count - 1]);
    }
}

/// A ledger with one block is in step.
pub proof fn first_block_is_in_step(l: LedgerView)
    requires
        l.chain.len() == 1,
        tickets::initial_tickets(l.genesis_allocations, l.chain[0], l.launch_profile) == Ok::<
            Seq<BurnTicketView>,
            Seq<char>,
        >(l.tickets),
        l.active_blinded.len() == 0,
    ensures
        in_step(l.chain, l.genesis_allocations, l.launch_profile, l.tickets, l.active_blinded),
{
    reveal(in_step);
    assert(l.active_blinded =~= Seq::<(Seq<char>, ActiveBlindedTransactionView)>::empty());
}

/// A ledger stays in step with a block on top.
pub proof fn next_block_is_in_step(l: LedgerView, b: BlockView)
    requires
        l.valid(),
        l.block_effects(b) is Ok,
    ensures
        ({
            let s = l.stacked(b, (l.block_effects(b)->Ok_0).0, (l.block_effects(b)->Ok_0).1);
            in_step(s.chain, s.genesis_allocations, s.launch_profile, s.tickets, s.active_blinded)
        }),
{
    reveal(in_step);
    let n = l.chain.len();
    prefix_is_replayed_alike(l.chain, b, l.genesis_allocations, l.launch_profile, n);
    block_is_replayed_alike(l, b);
    assert(l.chain.push(b)[n as int] == b);
}

/// The ranks that the chain gives for the next block are those of the tickets that the ledger holds:
/// rank by rank the same ticket, owner and amount.
pub proof fn ranks_are_those_of_the_tickets(l: LedgerView)
    requires
        l.valid(),
        l.chain.len() <= u64::MAX,
    ensures
        l.leader_ranks(l.next_height()) matches Ok(ranks) && {
            let finalizers = l.finalizers(l.next_height());
            &&& ranks.len() == finalizers.len()
            &&& forall|i: int|
                0 <= i < ranks.len() ==> (#[trigger] ranks[i]) == committee::leader_rank(finalizers[i], i)
        },
{
    reveal(in_step);
    let height = l.next_height();
    assert(l.chain[l.chain.len() - 1].height == l.chain.len() - 1);
    assert(height == l.chain.len());
    assert(l.chain[height - 1] == l.tip());
}

/// Who finalizes a block by ticket holds the rank that the block states, among the ranks that the
/// chain before it gives.
pub proof fn finalizer_holds_its_rank(l: LedgerView, b: BlockView, verify: bool, now_ms: u64)
    requires
        l.valid(),
        l.chain.len() <= u64::MAX,
        lottery::extends(l, b, verify, now_ms),
        b.finalizer_mode == FinalizerMode::Ticket,
    ensures
        l.leader_ranks(b.height) matches Ok(ranks) && {
            &&& b.finalizer_rank < ranks.len()
            &&& ranks[b.finalizer_rank as int].rank == b.finalizer_rank
            &&& ranks[b.finalizer_rank as int].owner == b.miner
            &&& b.leader_proof matches Some(p) && p.ticket_id == ranks[b.finalizer_rank as int].ticket_id
        },
{
    lottery::finalizer_was_entitled(l, b, verify, now_ms);
    reveal(LedgerView::block_applied);
    assert(l.chain.push(b).len() == l.chain.len() + 1);
    assert(b.height == l.next_height());
    ranks_are_those_of_the_tickets(l);
}

proof fn members_are_ranked(ranked: Seq<BurnTicketView>, first: nat, count: nat, n: int)
    requires
        first + count <= ranked.len(),
        ranked.len() <= u32::MAX,
        count <= 3,
        0 <= n < count,
    ensures
        committee::members(ranked, first, count).len() == count,
        committee::members(ranked, first, count)[n] == (RevealCommitteeMemberView {
            slot: n as u8,
            rank: (first + n) as u32,
            ticket_id: ranked[first + n].id,
            owner: ranked[first + n].owner,
            amount: ranked[first + n].amount,
        }),
    decreases count,
{
    if count > 1 {
        members_are_ranked(ranked, first, (count - 1) as nat, if n < count - 1 { n } else { 0 });
    } else {
        assert(committee::members(ranked, first, 0).len() == 0);
    }
}

/// The reveal committee of the next block holds its last ranks, at most three, in their order.
pub proof fn committee_is_the_last_ranks(l: LedgerView, n: int)
    requires
        l.valid(),
        l.chain.len() <= u64::MAX,
        l.finalizers(l.next_height()).len() <= u32::MAX,
        0 <= n < l.finalizers(l.next_height()).len(),
        n < 3,
    ensures
        l.leader_ranks(l.next_height()) matches Ok(ranks) && {
            let members = l.committee(l.next_height());
            let first = ranks.len() - members.len();
            &&& members.len() == if ranks.len() < 3 { ranks.len() } else { 3 }
            &&& members[n].slot == n
            &&& members[n].rank == ranks[first + n].rank
            &&& members[n].ticket_id == ranks[first + n].ticket_id
            &&& members[n].owner == ranks[first + n].owner
            &&& members[n].amount == ranks[first + n].amount
        },
{
    ranks_are_those_of_the_tickets(l);
    let ranked = l.finalizers(l.next_height());
    let first = if ranked.len() < 3 {
        0nat
    } else {
        (ranked.len() - 3) as nat
    };
    members_are_ranked(ranked, first, (ranked.len() - first) as nat, n);
}

} // verus!
