//! Who may finalize a block, and how burns enter the draw.
use crate::block::{BlockView, FinalizerMode};
use crate::blocks;
use crate::blocks::MAX_BLOCK_TIMESTAMP_FUTURE_DRIFT_MS;
use crate::crypto;
use crate::document;
use crate::ledger::LedgerView;
use crate::mempool;
use crate::model;
use crate::proposals;
use crate::supply;
use crate::text;
use crate::tickets;
use crate::tickets::{BurnTicketView, LaunchProfileView};
use crate::transaction::TransactionView;
use crate::vdf;
use vstd::prelude::*;
use vstd::string::*;
use vstd::utf8::*;

verus! {

/// Whether handing in a block puts it on top of the chain.
pub open spec fn extends(l: LedgerView, b: BlockView, verify: bool, now_ms: u64) -> bool {
    l.block_applied(b, verify, now_ms).0.chain == l.chain.push(b)
}

proof fn extending_passes_the_checks(l: LedgerView, b: BlockView, verify: bool, now_ms: u64)
    requires
        extends(l, b, verify, now_ms),
    ensures
        l.next_block_check(b, now_ms) is Ok,
        l.block_effects(b) is Ok,
        l.block_applied(b, verify, now_ms).0.tickets == (l.block_effects(b)->Ok_0).1,
        verify ==> vdf::solution_verifies(b.vdf_seed(), b.vdf_rounds, b.vdf_output),
{
    reveal(LedgerView::block_applied);
    assert(l.chain.push(b).len() == l.chain.len() + 1);
    if let Ok((u, held)) = l.block_effects(b) {
        mempool::promotion_only_moves(l.stacked(b, u, held).swept(b));
    }
}

/// A block that was altered after it was hashed is refused, and the ledger stays as it was, unless
/// it bears the hash of the block that the chain has at its height.
pub proof fn altered_block_is_refused(l: LedgerView, b: BlockView, verify: bool, now_ms: u64)
    requires
        b.hash != b.computed_hash(),
        b.height <= l.height() ==> l.chain[b.height as int].hash != b.hash,
    ensures
        l.block_applied(b, verify, now_ms).0 == l,
        l.block_applied(b, verify, now_ms).1 is Err,
{
    reveal(LedgerView::block_applied);
}

/// A block on top of the chain holds a burn, served the delay that its rank owes, stays within the
/// limits on items and bytes, and is not ahead of the clock by more than the drift.
pub proof fn extending_block_is_in_bounds(l: LedgerView, b: BlockView, verify: bool, now_ms: u64)
    requires
        extends(l, b, verify, now_ms),
    ensures
        proposals::has_burn(b.transactions),
        l.owed_rounds(b) == Ok::<u64, Seq<char>>(b.vdf_rounds),
        verify ==> vdf::solution_verifies(b.vdf_seed(), b.vdf_rounds, b.vdf_output),
        b.transactions.len() + b.blinded_transactions.len() + b.all_reveals().len()
            <= l.launch_profile.max_block_transactions,
        document::size_of(document::block_doc(b)) <= l.launch_profile.max_block_bytes,
        blocks::median_time(l.chain) < b.timestamp_ms <= now_ms + MAX_BLOCK_TIMESTAMP_FUTURE_DRIFT_MS,
{
    extending_passes_the_checks(l, b, verify, now_ms);
}

/// A block on top of the chain was finalized by who holds the ticket that was drawn for its rank,
/// who signed it, in the time slot of that rank; or it came after the time for recovery, with a
/// burn of its own finalizer.
pub proof fn finalizer_was_entitled(l: LedgerView, b: BlockView, verify: bool, now_ms: u64)
    requires
        l.valid(),
        extends(l, b, verify, now_ms),
    ensures
        match b.finalizer_mode {
            FinalizerMode::Ticket => {
                &&& l.finalizer_at(b.height, b.finalizer_rank) matches Some(ticket)
                &&& l.tickets.contains(ticket)
                &&& ticket.eligible(b.height)
                &&& ticket.owner == b.miner
                &&& b.leader_proof matches Some(p)
                &&& p.ticket_id == ticket.id
                &&& p.public_key == b.miner
                &&& tickets::leader_proof_check(b, l.tickets) is Ok
                &&& proposals::earliest_time(l.tip(), b.finalizer_rank) matches Ok(earliest)
                &&& earliest <= b.timestamp_ms
            },
            FinalizerMode::Recovery => {
                &&& b.finalizer_rank == 0
                &&& b.leader_proof is None
                &&& l.recovery_time() <= b.timestamp_ms
                &&& proposals::has_burn_from(b.transactions, b.miner)
            },
        },
{
    extending_passes_the_checks(l, b, verify, now_ms);
    if b.finalizer_mode == FinalizerMode::Ticket {
        tickets::finalizers_hold_eligible_tickets(l.tip(), b.height, l.tickets, b.finalizer_rank as int);
    }
}

proof fn every_burn_gives_a_ticket(height: u64, transactions: Seq<TransactionView>, profile: LaunchProfileView, n: int)
    requires
        tickets::tickets_of(height, transactions, profile) is Ok,
        0 <= n < transactions.len(),
    ensures
        tickets::ticket_of(height, transactions[n], profile) is Ok,
        tickets::ticket_of(height, transactions[n], profile) matches Ok(Some(t)) ==> (tickets::tickets_of(
            height,
            transactions,
            profile,
        )->Ok_0).contains(t),
    decreases transactions.len(),
{
    let all = tickets::tickets_of(height, transactions, profile)->Ok_0;
    let earlier = tickets::tickets_of(height, transactions.drop_last(), profile)->Ok_0;
    if n < transactions.len() - 1 {
        every_burn_gives_a_ticket(height, transactions.drop_last(), profile, n);
        if let Ok(Some(t)) = tickets::ticket_of(height, transactions[n], profile) {
            let k = choose|k: int| 0 <= k < earlier.len() && earlier[k] == t;
            assert(all[k] == t);
        }
    } else if let Ok(Some(t)) = tickets::ticket_of(height, transactions[n], profile) {
        assert(all[earlier.len() as int] == t);
    }
}

/// Whether a ticket is that of a burn among transactions.
pub open spec fn is_ticket_among(
    t: BurnTicketView,
    height: u64,
    transactions: Seq<TransactionView>,
    profile: LaunchProfileView,
) -> bool {
    exists|k: int|
        0 <= k < transactions.len() && #[trigger] tickets::ticket_of(height, transactions[k], profile) == Ok::<
            Option<BurnTicketView>,
            Seq<char>,
        >(Some(t))
}

proof fn every_ticket_has_a_burn(height: u64, transactions: Seq<TransactionView>, profile: LaunchProfileView, n: int)
    requires
        tickets::tickets_of(height, transactions, profile) is Ok,
        0 <= n < (tickets::tickets_of(height, transactions, profile)->Ok_0).len(),
    ensures
        is_ticket_among((tickets::tickets_of(height, transactions, profile)->Ok_0)[n], height, transactions, profile),
    decreases transactions.len(),
{
    if transactions.len() > 0 {
        let t = (tickets::tickets_of(height, transactions, profile)->Ok_0)[n];
        let earlier = tickets::tickets_of(height, transactions.drop_last(), profile)->Ok_0;
        if n < earlier.len() {
            every_ticket_has_a_burn(height, transactions.drop_last(), profile, n);
            let k = choose|k: int|
                0 <= k < transactions.len() - 1 && #[trigger] tickets::ticket_of(
                    height,
                    transactions.drop_last()[k],
                    profile,
                ) == Ok::<Option<BurnTicketView>, Seq<char>>(Some(t));
            assert(transactions[k] == transactions.drop_last()[k]);
        } else {
            assert(tickets::ticket_of(height, transactions[transactions.len() - 1], profile) == Ok::<
                Option<BurnTicketView>,
                Seq<char>,
            >(Some(t)));
        }
    }
}

/// The tickets after a block: those that outlive it, those of its burns, and those of the burns that
/// it reveals.
proof fn tickets_after_a_block(l: LedgerView, b: BlockView)
    requires
        l.block_effects(b) is Ok,
    ensures
        tickets::tickets_after(b, l.tickets) is Ok,
        tickets::tickets_of(b.height, b.transactions, l.launch_profile) is Ok,
        tickets::tickets_of(b.height, supply::opened_in(l, b), l.launch_profile) is Ok,
        (l.block_effects(b)->Ok_0).1 == tickets::tickets_after(b, l.tickets)->Ok_0 + tickets::tickets_of(
            b.height,
            b.transactions,
            l.launch_profile,
        )->Ok_0 + tickets::tickets_of(b.height, supply::opened_in(l, b), l.launch_profile)->Ok_0,
{
    reveal(supply::opened_in);
}

/// Each burn of a block has its ticket after it.
proof fn each_burn_has_a_ticket(
    b: BlockView,
    held: Seq<BurnTicketView>,
    opened: Seq<TransactionView>,
    profile: LaunchProfileView,
    after: Seq<BurnTicketView>,
    t: TransactionView,
)
    requires
        tickets::tickets_of(b.height, b.transactions, profile) is Ok,
        tickets::tickets_of(b.height, opened, profile) is Ok,
        after == tickets::tickets_after(b, held)->Ok_0 + tickets::tickets_of(b.height, b.transactions, profile)->Ok_0
            + tickets::tickets_of(b.height, opened, profile)->Ok_0,
        b.transactions.contains(t) || opened.contains(t),
    ensures
        tickets::ticket_of(b.height, t, profile) is Ok,
        tickets::ticket_of(b.height, t, profile) matches Ok(Some(ticket)) ==> after.contains(ticket),
{
    let kept = tickets::tickets_after(b, held)->Ok_0;
    let created = tickets::tickets_of(b.height, b.transactions, profile)->Ok_0;
    let more = tickets::tickets_of(b.height, opened, profile)->Ok_0;
    if b.transactions.contains(t) {
        let n = choose|n: int| 0 <= n < b.transactions.len() && b.transactions[n] == t;
        every_burn_gives_a_ticket(b.height, b.transactions, profile, n);
        if let Ok(Some(ticket)) = tickets::ticket_of(b.height, t, profile) {
            let k = choose|k: int| 0 <= k < created.len() && created[k] == ticket;
            assert(after[kept.len() + k] == ticket);
        }
    } else {
        let n = choose|n: int| 0 <= n < opened.len() && opened[n] == t;
        every_burn_gives_a_ticket(b.height, opened, profile, n);
        if let Ok(Some(ticket)) = tickets::ticket_of(b.height, t, profile) {
            let k = choose|k: int| 0 <= k < more.len() && more[k] == ticket;
            assert(after[kept.len() + created.len() + k] == ticket);
        }
    }
}

/// Every burn that a block on top of the chain holds, in the clear or revealed, enters the draw: its
/// ticket is of the burned amount, belongs to who burned it, and can be drawn after the delay, for
/// as long as the window.
pub proof fn burns_enter_the_draw(l: LedgerView, b: BlockView, verify: bool, now_ms: u64, t: TransactionView)
    requires
        extends(l, b, verify, now_ms),
        b.transactions.contains(t) || supply::opened_in(l, b).contains(t),
        t is Burn && t->Burn_inputs.len() > 0 && t->Burn_amount > 0,
    ensures
        ({
            let from = b.height + l.launch_profile.ticket_maturity_delay_heights;
            let until = from + l.launch_profile.ticket_expiry_window_heights - 1;
            &&& until <= u64::MAX
            &&& l.block_applied(b, verify, now_ms).0.tickets.contains(
                BurnTicketView {
                    id: t.signature(),
                    owner: t->Burn_inputs[0].owner,
                    amount: t->Burn_amount,
                    eligible_from_height: from as u64,
                    eligible_until_height: until as u64,
                },
            )
        }),
{
    extending_passes_the_checks(l, b, verify, now_ms);
    tickets_after_a_block(l, b);
    let after = l.block_applied(b, verify, now_ms).0.tickets;
    each_burn_has_a_ticket(b, l.tickets, supply::opened_in(l, b), l.launch_profile, after, t);
}

/// Each ticket after a block was held before it or is that of a burn in it.
proof fn each_ticket_has_a_source(
    b: BlockView,
    held: Seq<BurnTicketView>,
    opened: Seq<TransactionView>,
    profile: LaunchProfileView,
    after: Seq<BurnTicketView>,
    n: int,
)
    requires
        tickets::tickets_after(b, held) is Ok,
        tickets::tickets_of(b.height, b.transactions, profile) is Ok,
        tickets::tickets_of(b.height, opened, profile) is Ok,
        after == tickets::tickets_after(b, held)->Ok_0 + tickets::tickets_of(b.height, b.transactions, profile)->Ok_0
            + tickets::tickets_of(b.height, opened, profile)->Ok_0,
        0 <= n < after.len(),
    ensures
        held.contains(after[n]) || is_ticket_among(after[n], b.height, b.transactions, profile) || is_ticket_among(
            after[n],
            b.height,
            opened,
            profile,
        ),
{
    let kept = tickets::tickets_after(b, held)->Ok_0;
    let created = tickets::tickets_of(b.height, b.transactions, profile)->Ok_0;
    if n < kept.len() {
        kept_ticket_was_held(b, held, n);
    } else if n < kept.len() + created.len() {
        every_ticket_has_a_burn(b.height, b.transactions, profile, n - kept.len());
    } else {
        every_ticket_has_a_burn(b.height, opened, profile, n - kept.len() - created.len());
    }
}

/// A ticket is held only for a burn: after a block there is no ticket that was not there before it
/// and is not that of a burn in it.
pub proof fn tickets_come_from_burns(l: LedgerView, b: BlockView, verify: bool, now_ms: u64, n: int)
    requires
        extends(l, b, verify, now_ms),
        0 <= n < l.block_applied(b, verify, now_ms).0.tickets.len(),
    ensures
        ({
            let t = l.block_applied(b, verify, now_ms).0.tickets[n];
            ||| l.tickets.contains(t)
            ||| is_ticket_among(t, b.height, b.transactions, l.launch_profile)
            ||| is_ticket_among(t, b.height, supply::opened_in(l, b), l.launch_profile)
        }),
{
    extending_passes_the_checks(l, b, verify, now_ms);
    tickets_after_a_block(l, b);
    let after = l.block_applied(b, verify, now_ms).0.tickets;
    each_ticket_has_a_source(b, l.tickets, supply::opened_in(l, b), l.launch_profile, after, n);
}

proof fn kept_ticket_was_held(b: BlockView, held: Seq<BurnTicketView>, n: int)
    requires
        tickets::tickets_after(b, held) is Ok,
        0 <= n < (tickets::tickets_after(b, held)->Ok_0).len(),
    ensures
        held.contains((tickets::tickets_after(b, held)->Ok_0)[n]),
{
    match b.finalizer_mode {
        FinalizerMode::Ticket => {
            let id = (b.leader_proof->0).ticket_id;
            let index = tickets::pending_ticket(held, id, b.height)->0;
            tickets::pending_ticket_is_there(held, id, b.height);
            let rest = held.remove(index);
            let p = tickets::outlives(b.height, false);
            model::filter_keeps(rest, p, n);
            let k = choose|k: int| 0 <= k < rest.len() && #[trigger] rest[k] == rest.filter(p)[n];
            assert(rest[k] == held[if k < index { k } else { k + 1 }]);
        },
        FinalizerMode::Recovery => {
            model::filter_keeps(held, tickets::outlives(b.height, true), n);
        },
    }
}

/// The text whose hash draws the finalizer of a rank.
pub open spec fn draw_text(parent: BlockView, height: u64, rank: nat) -> Seq<char> {
    if rank == 0 {
        "iuna-ticket-draw:"@ + text::decimal(height as nat) + ":"@ + parent.hash + ":"@ + parent.vdf_output
    } else {
        "iuna-ticket-draw-rank:"@ + text::decimal(height as nat) + ":"@ + text::decimal(rank) + ":"@ + parent.hash + ":"@
            + parent.vdf_output
    }
}

/// For every rank the draw is the remainder, by the weight that is left, of the number that the first
/// sixteen bytes of the hash of the rank's text write: each number below the weight is drawn where
/// these bytes write it.
pub proof fn draw_is_the_number_in_the_hash(parent: BlockView, height: u64, rank: nat, total: nat, number: nat)
    requires
        total > 0,
        vdf::number_has_bytes(number, crypto::sha256(encode_utf8(draw_text(parent, height, rank))).take(16)),
    ensures
        tickets::ticket_draw(parent, height, rank, total) == number % total,
        number < total ==> tickets::ticket_draw(parent, height, rank, total) == number,
{
    vdf::bytes_write_one_number(crypto::sha256(encode_utf8(draw_text(parent, height, rank))).take(16), number);
    if number < total {
        vstd::arithmetic::div_mod::lemma_small_mod(number, total);
    }
}

/// There is one number that the first sixteen bytes of a hash write, and each number below 2^128 is
/// written by some sixteen bytes.
pub proof fn sixteen_bytes_reach_every_number(bytes: Seq<u8>, number: nat)
    requires
        bytes.len() == 16,
        number < vstd::arithmetic::power::pow(256, 16),
    ensures
        exists|n: nat| #[trigger] vdf::number_has_bytes(n, bytes),
        exists|b: Seq<u8>| b.len() == 16 && #[trigger] vdf::number_has_bytes(number, b),
{
    vdf::bytes_write_one_number(bytes, 0);
    assert(vdf::number_has_bytes(vdf::big_endian(bytes), bytes));
    let b = Seq::new(
        16,
        |i: int| ((number as int / vstd::arithmetic::power::pow(256, (15 - i) as nat)) % 256) as u8,
    );
    assert(vdf::number_has_bytes(number, b));
}

/// Some ticket is drawn by every draw below the weight.
proof fn some_ticket_is_drawn(tickets: Seq<BurnTicketView>, draw: nat)
    requires
        draw < tickets::weight(tickets),
    ensures
        exists|i: int| #[trigger] tickets::drawn_index(tickets, draw, i),
    decreases tickets.len(),
{
    let earlier = tickets.drop_last();
    let n = earlier.len() as int;
    model::take_all(tickets);
    assert(tickets.take(n) =~= earlier);
    if draw < tickets::weight(earlier) {
        some_ticket_is_drawn(earlier, draw);
        let i = choose|i: int| #[trigger] tickets::drawn_index(earlier, draw, i);
        assert(earlier.take(i) =~= tickets.take(i));
        assert(earlier.take(i + 1) =~= tickets.take(i + 1));
        assert(tickets::drawn_index(tickets, draw, i));
    } else {
        assert(tickets::drawn_index(tickets, draw, n));
    }
}

/// The draws that fall on a ticket.
pub open spec fn draws_of(tickets: Seq<BurnTicketView>, index: int) -> Set<int> {
    Set::new(|draw: int| 0 <= draw < tickets::weight(tickets) && tickets::drawn_index(tickets, draw as nat, index))
}

/// Of the draws below the weight, as many fall on a ticket as was burned for it, and each falls on one
/// ticket: the first with which the burned amounts, added up in order, exceed the draw.
pub proof fn share_of_the_draws_is_what_was_burned(tickets: Seq<BurnTicketView>, index: int, draw: nat)
    requires
        0 <= index < tickets.len(),
        draw < tickets::weight(tickets),
    ensures
        draws_of(tickets, index).finite(),
        draws_of(tickets, index).len() == tickets[index].amount,
        exists|i: int| #[trigger] tickets::drawn_index(tickets, draw, i),
        tickets::drawn_index(tickets, draw, index) <==> (burned_up_to(tickets, index) <= draw < burned_up_to(
            tickets,
            index + 1,
        )),
        tickets::weight(tickets) == burned_up_to(tickets, tickets.len() as int),
{
    let low = tickets::weight(tickets.take(index)) as int;
    let high = tickets::weight(tickets.take(index + 1)) as int;
    tickets::weight_step(tickets, index);
    tickets::weight_grows(tickets, index + 1, tickets.len() as int);
    model::take_all(tickets);
    vstd::set_lib::lemma_int_range(low, high);
    assert(draws_of(tickets, index) =~= vstd::set_lib::set_int_range(low, high));
    some_ticket_is_drawn(tickets, draw);
    burned_is_weight(tickets, index);
    burned_is_weight(tickets, index + 1);
    burned_is_weight(tickets, tickets.len() as int);
}

/// What was burned for the first tickets.
pub open spec fn burned_up_to(tickets: Seq<BurnTicketView>, count: int) -> int
    decreases count,
{
    if count <= 0 {
        0
    } else {
        tickets[count - 1].amount + burned_up_to(tickets, count - 1)
    }
}

proof fn burned_is_weight(tickets: Seq<BurnTicketView>, count: int)
    requires
        0 <= count <= tickets.len(),
    ensures
        burned_up_to(tickets, count) == tickets::weight(tickets.take(count)),
    decreases count,
{
    if count > 0 {
        burned_is_weight(tickets, count - 1);
        tickets::weight_step(tickets, count - 1);
    }
}

proof fn selection_is_drawn(parent: BlockView, height: u64, rank: nat, tickets: Seq<BurnTicketView>)
    requires
        tickets::weight(tickets) > 0,
    ensures
        ({
            let i = tickets::selected_index(parent, height, rank, tickets);
            &&& 0 <= i < tickets.len()
            &&& tickets[i].amount > 0
            &&& burned_up_to(tickets, i) <= tickets::ticket_draw(parent, height, rank, tickets::weight(tickets))
                < burned_up_to(tickets, i + 1)
        }),
{
    let draw = tickets::ticket_draw(parent, height, rank, tickets::weight(tickets));
    vdf::bytes_write_one_number(crypto::sha256(encode_utf8(draw_text(parent, height, rank))).take(16), 0);
    let number = vdf::big_endian(crypto::sha256(encode_utf8(draw_text(parent, height, rank))).take(16));
    draw_is_the_number_in_the_hash(parent, height, rank, tickets::weight(tickets), number);
    vstd::arithmetic::div_mod::lemma_mod_bound(number as int, tickets::weight(tickets) as int);
    some_ticket_is_drawn(tickets, draw);
    let i = tickets::selected_index(parent, height, rank, tickets);
    assert(tickets::drawn_index(tickets, draw, i));
    tickets::weight_step(tickets, i);
    burned_is_weight(tickets, i);
    burned_is_weight(tickets, i + 1);
}

/// How often a ticket stands in a list.
pub open spec fn times(tickets: Seq<BurnTicketView>, t: BurnTicketView) -> nat {
    tickets.to_multiset().count(t)
}

proof fn times_after_removal(tickets: Seq<BurnTicketView>, i: int, t: BurnTicketView)
    requires
        0 <= i < tickets.len(),
    ensures
        times(tickets, t) == times(tickets.remove(i), t) + if tickets[i] == t {
            1nat
        } else {
            0
        },
{
    broadcast use vstd::seq_lib::to_multiset_remove;

    tickets.to_multiset_ensures();
    assert(tickets.contains(tickets[i]));
    assert(tickets.to_multiset().count(tickets[i]) > 0);
    assert(tickets.remove(i).to_multiset() == tickets.to_multiset().remove(tickets[i]));
}

proof fn times_with_first(first: BurnTicketView, rest: Seq<BurnTicketView>, t: BurnTicketView)
    ensures
        times(seq![first] + rest, t) == times(rest, t) + if first == t {
            1nat
        } else {
            0
        },
{
    let whole = seq![first] + rest;
    times_after_removal(whole, 0, t);
    assert(whole.remove(0) =~= rest);
}

proof fn times_of_nothing(t: BurnTicketView)
    ensures
        times(Seq::<BurnTicketView>::empty(), t) == 0,
{
    let none = Seq::<BurnTicketView>::empty();
    none.to_multiset_ensures();
    assert(!none.contains(t));
}

proof fn weightless_tickets_burned_nothing(tickets: Seq<BurnTicketView>, i: int)
    requires
        tickets::weight(tickets) == 0,
        0 <= i < tickets.len(),
    ensures
        tickets[i].amount == 0,
{
    tickets::weight_step(tickets, i);
    tickets::weight_grows(tickets, i + 1, tickets.len() as int);
    model::take_all(tickets);
}

proof fn ranking_ranks_each_once(parent: BlockView, height: u64, rank: nat, tickets: Seq<BurnTicketView>, t: BurnTicketView)
    ensures
        times(tickets::ranking(parent, height, rank, tickets), t) == if t.amount > 0 {
            times(tickets, t)
        } else {
            0
        },
    decreases tickets.len(),
{
    if tickets::weight(tickets) == 0 {
        times_of_nothing(t);
        if t.amount > 0 && times(tickets, t) > 0 {
            tickets.to_multiset_ensures();
            let i = choose|i: int| 0 <= i < tickets.len() && tickets[i] == t;
            weightless_tickets_burned_nothing(tickets, i);
        }
    } else {
        let i = tickets::selected_index(parent, height, rank, tickets);
        selection_is_drawn(parent, height, rank, tickets);
        ranking_ranks_each_once(parent, height, rank + 1, tickets.remove(i), t);
        times_after_removal(tickets, i, t);
        times_with_first(tickets[i], tickets::ranking(parent, height, rank + 1, tickets.remove(i)), t);
    }
}

proof fn times_after_filter(tickets: Seq<BurnTicketView>, p: spec_fn(BurnTicketView) -> bool, t: BurnTicketView)
    ensures
        times(tickets.filter(p), t) == if p(t) {
            times(tickets, t)
        } else {
            0
        },
    decreases tickets.len(),
{
    if tickets.len() == 0 {
        model::filter_empty(p);
        times_of_nothing(t);
        assert(tickets =~= Seq::<BurnTicketView>::empty());
    } else {
        let earlier = tickets.drop_last();
        let last = tickets.last();
        times_after_filter(earlier, p, t);
        assert(tickets =~= earlier.push(last));
        model::filter_push(earlier, last, p);
        times_after_removal(tickets, tickets.len() - 1, t);
        assert(tickets.remove(tickets.len() - 1) =~= earlier);
        if p(last) {
            let whole = earlier.filter(p).push(last);
            times_after_removal(whole, whole.len() - 1, t);
            assert(whole.remove(whole.len() - 1) =~= earlier.filter(p));
        }
    }
}

/// Every ticket that may finalize a block and that something was burned for is ranked for it, as often
/// as it is held, and no other is ranked.
pub proof fn every_eligible_ticket_is_ranked_once(
    parent: BlockView,
    height: u64,
    held: Seq<BurnTicketView>,
    t: BurnTicketView,
)
    ensures
        times(tickets::ranked(parent, height, held), t) == if t.amount > 0 && t.eligible_from_height <= height
            <= t.eligible_until_height {
            times(held, t)
        } else {
            0
        },
{
    let p = |t: BurnTicketView| t.eligible(height);
    ranking_ranks_each_once(parent, height, 0, held.filter(p), t);
    times_after_filter(held, p, t);
}

/// Whether a list holds items of another, in its order.
pub open spec fn keeps_order(part: Seq<BurnTicketView>, whole: Seq<BurnTicketView>, places: Seq<int>) -> bool {
    &&& places.len() == part.len()
    &&& forall|i: int| 0 <= i < places.len() ==> 0 <= #[trigger] places[i] < whole.len() && part[i] == whole[places[i]]
    &&& forall|i: int, k: int| 0 <= i < k < places.len() ==> #[trigger] places[i] < #[trigger] places[k]
}

/// What is left of tickets once those of some ranks were drawn.
pub open spec fn is_left(whole: Seq<BurnTicketView>, drawn: Seq<BurnTicketView>, left: Seq<BurnTicketView>) -> bool {
    &&& forall|t: BurnTicketView| #[trigger] times(left, t) + times(drawn, t) == times(whole, t)
    &&& exists|places: Seq<int>| #[trigger] keeps_order(left, whole, places)
}

/// Whether a draw falls on a ticket of a list: what was burned for those before it does not exceed
/// the draw, and with what was burned for it it does.
pub open spec fn falls_on(draw: nat, left: Seq<BurnTicketView>, i: int) -> bool {
    0 <= i < left.len() && burned_up_to(left, i) <= draw < burned_up_to(left, i + 1)
}

/// Whether a ticket is the one that a rank's draw picks among what is left.
pub open spec fn is_picked(
    parent: BlockView,
    height: u64,
    rank: nat,
    left: Seq<BurnTicketView>,
    i: int,
    t: BurnTicketView,
) -> bool {
    falls_on(tickets::ticket_draw(parent, height, rank, burned_up_to(left, left.len() as int) as nat), left, i)
        && left[i] == t
}

spec fn left_after(parent: BlockView, height: u64, rank: nat, tickets: Seq<BurnTicketView>, n: nat) -> Seq<BurnTicketView>
    decreases n,
{
    if n == 0 {
        tickets
    } else {
        left_after(
            parent,
            height,
            rank + 1,
            tickets.remove(tickets::selected_index(parent, height, rank, tickets)),
            (n - 1) as nat,
        )
    }
}

proof fn order_without_one(part: Seq<BurnTicketView>, whole: Seq<BurnTicketView>, i: int, places: Seq<int>)
    requires
        0 <= i < whole.len(),
        keeps_order(part, whole.remove(i), places),
    ensures
        keeps_order(part, whole, Seq::new(places.len(), |k: int| if places[k] < i { places[k] } else { places[k] + 1 })),
{
    let wider = Seq::new(places.len(), |k: int| if places[k] < i { places[k] } else { places[k] + 1 });
    assert forall|k: int| 0 <= k < wider.len() implies 0 <= #[trigger] wider[k] < whole.len() && part[k]
        == whole[wider[k]] by {
        assert(0 <= places[k] < whole.remove(i).len());
    }
    assert forall|k: int, m: int| 0 <= k < m < wider.len() implies #[trigger] wider[k] < #[trigger] wider[m] by {
        assert(places[k] < places[m]);
    }
}

proof fn rank_is_picked(parent: BlockView, height: u64, rank: nat, tickets: Seq<BurnTicketView>, n: nat)
    requires
        n < tickets::ranking(parent, height, rank, tickets).len(),
    ensures
        ({
            let ranking = tickets::ranking(parent, height, rank, tickets);
            let left = left_after(parent, height, rank, tickets, n);
            &&& is_left(tickets, ranking.take(n as int), left)
            &&& exists|i: int| #[trigger] is_picked(parent, height, (rank + n) as nat, left, i, ranking[n as int])
        }),
    decreases n,
{
    let ranking = tickets::ranking(parent, height, rank, tickets);
    let i = tickets::selected_index(parent, height, rank, tickets);
    selection_is_drawn(parent, height, rank, tickets);
    let left = left_after(parent, height, rank, tickets, n);
    if n == 0 {
        model::take_all(tickets);
        burned_is_weight(tickets, tickets.len() as int);
        assert(ranking.take(0) =~= Seq::<BurnTicketView>::empty());
        assert forall|t: BurnTicketView| #[trigger] times(left, t) + times(ranking.take(0), t) == times(tickets, t) by {
            times_of_nothing(t);
        }
        assert(keeps_order(left, tickets, Seq::new(tickets.len(), |k: int| k)));
        assert(rank + n == rank);
        assert(is_picked(parent, height, (rank + n) as nat, left, i, ranking[n as int]));
    } else {
        let rest = tickets.remove(i);
        let further = tickets::ranking(parent, height, rank + 1, rest);
        rank_is_picked(parent, height, rank + 1, rest, (n - 1) as nat);
        assert(ranking =~= seq![tickets[i]] + further);
        assert(ranking.take(n as int) =~= seq![tickets[i]] + further.take(n - 1));
        assert forall|t: BurnTicketView| #[trigger]
            times(left, t) + times(ranking.take(n as int), t) == times(tickets, t) by {
            times_after_removal(tickets, i, t);
            times_with_first(tickets[i], further.take(n - 1), t);
            assert(times(left, t) + times(further.take(n - 1), t) == times(rest, t));
        }
        let places = choose|places: Seq<int>| #[trigger] keeps_order(left, rest, places);
        order_without_one(left, tickets, i, places);
        assert(ranking[n as int] == further[n - 1]);
        assert((rank + 1) + (n - 1) == rank + n);
        let k = choose|k: int| #[trigger]
            is_picked(parent, height, ((rank + 1) + (n - 1) as nat) as nat, left, k, further[(n - 1) as nat as int]);
        assert(is_picked(parent, height, (rank + n) as nat, left, k, ranking[n as int]));
        assert(is_left(tickets, ranking.take(n as int), left));
    }
}

/// The finalizer of each rank is drawn from the eligible tickets that the earlier ranks left, in the
/// order in which they are held, with what was burned for each as its weight.
pub proof fn each_rank_is_drawn_from_what_is_left(parent: BlockView, height: u64, held: Seq<BurnTicketView>, n: nat)
    requires
        n < tickets::ranked(parent, height, held).len(),
    ensures
        exists|left: Seq<BurnTicketView>, i: int|
            is_left(
                held.filter(|t: BurnTicketView| t.eligible_from_height <= height <= t.eligible_until_height),
                tickets::ranked(parent, height, held).take(n as int),
                left,
            ) && #[trigger] is_picked(parent, height, n, left, i, tickets::ranked(parent, height, held)[n as int]),
{
    let p = |t: BurnTicketView| t.eligible(height);
    let q = |t: BurnTicketView| t.eligible_from_height <= height <= t.eligible_until_height;
    assert(p =~= q);
    let eligible = held.filter(p);
    rank_is_picked(parent, height, 0, eligible, n);
    let left = left_after(parent, height, 0, eligible, n);
    let i = choose|i: int| #[trigger] is_picked(parent, height, n, left, i, tickets::ranked(parent, height, held)[n as int]);
    assert(is_picked(parent, height, n, left, i, tickets::ranked(parent, height, held)[n as int]));
}

/// A block that extends the chain ran the rounds that its finalizer owed, and came in its time slot: of
/// a ticket's rank the base rounds once and once more for each rank before it, and not before these
/// ranks had five minutes each; of the recovery the base rounds. The rounds for the next block are then
/// retargeted on the chain with the block.
pub proof fn extending_block_ran_its_rounds(l: LedgerView, b: BlockView, verify: bool, now_ms: u64)
    requires
        extends(l, b, verify, now_ms),
        l.block_applied(b, verify, now_ms).1 is Ok,
    ensures
        b.finalizer_mode is Ticket ==> b.vdf_rounds == l.vdf_rounds * (b.finalizer_rank + 1),
        b.finalizer_mode is Recovery ==> b.vdf_rounds == l.vdf_rounds,
        b.finalizer_mode is Ticket ==> b.timestamp_ms >= l.tip().timestamp_ms + 300_000 * b.finalizer_rank,
        b.timestamp_ms > l.tip().timestamp_ms,
        b.timestamp_ms <= now_ms + 120_000,
        l.block_applied(b, verify, now_ms).0.vdf_rounds == blocks::next_rounds(l.chain.push(b), l.vdf_rounds),
{
    extending_passes_the_checks(l, b, verify, now_ms);
    reveal(LedgerView::block_applied);
    assert(l.chain.push(b).len() == l.chain.len() + 1);
    if let Ok((u, held)) = l.block_effects(b) {
        mempool::promotion_only_moves(l.stacked(b, u, held).swept(b));
    }
    proposals::later_ranks_wait_longer(l.tip(), b.finalizer_rank);
    vdf::later_ranks_run_more_rounds(l.vdf_rounds, b.finalizer_rank);
    vdf::later_ranks_run_more_rounds(l.vdf_rounds, 0);
}

} // verus!
