//! Burn tickets: who may finalize a block, in which order, and how tickets come and go.
use crate::block::{Block, BlockView, FinalizerMode, LeaderProofPayload, LeaderProofPayloadView};
use crate::crypto;
use crate::error;
use crate::error::Error;
use crate::hex;
use crate::model;
use crate::model::Model;
use crate::sorted::SortedMap;
use crate::text;
use crate::transaction::{Amount, Transaction, TransactionView};
use crate::vdf;
use vstd::prelude::*;
use vstd::string::*;
use vstd::utf8::*;

verus! {

pub const DEFAULT_TICKET_MATURITY_DELAY: u64 = 3;

pub const DEFAULT_TICKET_EXPIRY_WINDOW: u64 = 3;

pub const MINE_DIFFICULTY_BITS: u32 = 12;

pub const MAX_PENDING_TRANSACTIONS: usize = 10_000;

pub const MAX_BLOCK_TRANSACTIONS: usize = 1_000;

pub const MAX_BLOCK_BYTES: usize = 100_000;

pub const MINE_RETARGET_WINDOW_BLOCKS: u64 = 10;

pub const MINE_TARGET_ACTIONS_PER_BLOCK: u64 = 1;

pub const MINE_MAX_RETARGET_STEP_BITS: u32 = 2;

pub const MINE_MIN_DIFFICULTY_BITS: u32 = 1;

pub const MINE_MAX_DIFFICULTY_BITS: u32 = 32;

/// The parameters that a chain is launched with.
#[derive(Clone, Debug, Eq, PartialEq)]
pub struct LaunchProfile {
    pub profile_id: String,
    pub ticket_maturity_delay_heights: u64,
    pub ticket_expiry_window_heights: u64,
    pub mine_difficulty_bits: u32,
    pub max_pending_transactions: usize,
    pub max_block_transactions: usize,
    pub max_block_bytes: usize,
}

#[verifier::ext_equal]
pub struct LaunchProfileView {
    pub profile_id: Seq<char>,
    pub ticket_maturity_delay_heights: u64,
    pub ticket_expiry_window_heights: u64,
    pub mine_difficulty_bits: u32,
    pub max_pending_transactions: usize,
    pub max_block_transactions: usize,
    pub max_block_bytes: usize,
}

impl DeepView for LaunchProfile {
    type V = LaunchProfileView;

    open spec fn deep_view(&self) -> LaunchProfileView {
        LaunchProfileView {
            profile_id: self.profile_id@,
            ticket_maturity_delay_heights: self.ticket_maturity_delay_heights,
            ticket_expiry_window_heights: self.ticket_expiry_window_heights,
            mine_difficulty_bits: self.mine_difficulty_bits,
            max_pending_transactions: self.max_pending_transactions,
            max_block_transactions: self.max_block_transactions,
            max_block_bytes: self.max_block_bytes,
        }
    }
}

impl Model for LaunchProfile {
    fn duplicate(&self) -> (r: Self) {
        LaunchProfile {
            profile_id: self.profile_id.clone(),
            ticket_maturity_delay_heights: self.ticket_maturity_delay_heights,
            ticket_expiry_window_heights: self.ticket_expiry_window_heights,
            mine_difficulty_bits: self.mine_difficulty_bits,
            max_pending_transactions: self.max_pending_transactions,
            max_block_transactions: self.max_block_transactions,
            max_block_bytes: self.max_block_bytes,
        }
    }

    fn same(&self, other: &Self) -> (r: bool) {
        self.profile_id.same(&other.profile_id) && self.ticket_maturity_delay_heights
            == other.ticket_maturity_delay_heights && self.ticket_expiry_window_heights
            == other.ticket_expiry_window_heights && self.mine_difficulty_bits == other.mine_difficulty_bits
            && self.max_pending_transactions == other.max_pending_transactions && self.max_block_transactions
            == other.max_block_transactions && self.max_block_bytes == other.max_block_bytes
    }
}

/// The profile of the development network.
pub open spec fn default_profile() -> LaunchProfileView {
    LaunchProfileView {
        profile_id: "iuna-devnet-v5"@,
        ticket_maturity_delay_heights: DEFAULT_TICKET_MATURITY_DELAY,
        ticket_expiry_window_heights: DEFAULT_TICKET_EXPIRY_WINDOW,
        mine_difficulty_bits: MINE_DIFFICULTY_BITS,
        max_pending_transactions: MAX_PENDING_TRANSACTIONS,
        max_block_transactions: MAX_BLOCK_TRANSACTIONS,
        max_block_bytes: MAX_BLOCK_BYTES,
    }
}

impl Default for LaunchProfile {
    fn default() -> (r: Self)
        ensures
            r.deep_view() == default_profile(),
    {
        LaunchProfile {
            profile_id: text::text("iuna-devnet-v5"),
            ticket_maturity_delay_heights: DEFAULT_TICKET_MATURITY_DELAY,
            ticket_expiry_window_heights: DEFAULT_TICKET_EXPIRY_WINDOW,
            mine_difficulty_bits: MINE_DIFFICULTY_BITS,
            max_pending_transactions: MAX_PENDING_TRANSACTIONS,
            max_block_transactions: MAX_BLOCK_TRANSACTIONS,
            max_block_bytes: MAX_BLOCK_BYTES,
        }
    }
}

impl LaunchProfileView {
    /// The hash that names a profile.
    pub open spec fn hash(self) -> Seq<char> {
        crypto::hash_of(
            "iuna-launch-profile:"@ + self.profile_id + ":"@ + text::decimal(
                self.ticket_maturity_delay_heights as nat,
            ) + ":"@ + text::decimal(self.ticket_expiry_window_heights as nat) + ":"@ + text::decimal(
                self.mine_difficulty_bits as nat,
            ) + ":"@ + text::decimal(self.max_pending_transactions as nat) + ":"@ + text::decimal(
                self.max_block_transactions as nat,
            ) + ":"@ + text::decimal(self.max_block_bytes as nat),
        )
    }
}

impl LaunchProfile {
    /// The hash that names a profile.
    pub fn hash(&self) -> (r: String)
        ensures
            r@ == self.deep_view().hash(),
    {
        let mut t = text::text("iuna-launch-profile:");
        t.append(self.profile_id.as_str());
        t.append(":");
        text::push_decimal(&mut t, self.ticket_maturity_delay_heights as u128);
        t.append(":");
        text::push_decimal(&mut t, self.ticket_expiry_window_heights as u128);
        t.append(":");
        text::push_decimal(&mut t, self.mine_difficulty_bits as u128);
        t.append(":");
        text::push_decimal(&mut t, self.max_pending_transactions as u128);
        t.append(":");
        text::push_decimal(&mut t, self.max_block_transactions as u128);
        t.append(":");
        text::push_decimal(&mut t, self.max_block_bytes as u128);
        crypto::hash_text(t.as_str())
    }
}

/// The right to finalize a block in a range of heights, weighted by what was burned.
#[derive(Clone, Debug, Eq, PartialEq)]
pub struct BurnTicket {
    pub id: String,
    pub owner: String,
    pub amount: Amount,
    pub eligible_from_height: u64,
    pub eligible_until_height: u64,
}

/// A ticket with its place among the finalizers of a block.
#[derive(Clone, Debug, Eq, PartialEq)]
pub struct BurnLeaderRank {
    pub rank: u32,
    pub ticket_id: String,
    pub owner: String,
    pub amount: Amount,
    pub eligible_from_height: u64,
    pub eligible_until_height: u64,
}

#[verifier::ext_equal]
pub struct BurnTicketView {
    pub id: Seq<char>,
    pub owner: Seq<char>,
    pub amount: Amount,
    pub eligible_from_height: u64,
    pub eligible_until_height: u64,
}

#[verifier::ext_equal]
pub struct BurnLeaderRankView {
    pub rank: u32,
    pub ticket_id: Seq<char>,
    pub owner: Seq<char>,
    pub amount: Amount,
    pub eligible_from_height: u64,
    pub eligible_until_height: u64,
}

impl DeepView for BurnTicket {
    type V = BurnTicketView;

    open spec fn deep_view(&self) -> BurnTicketView {
        BurnTicketView {
            id: self.id@,
            owner: self.owner@,
            amount: self.amount,
            eligible_from_height: self.eligible_from_height,
            eligible_until_height: self.eligible_until_height,
        }
    }
}

impl DeepView for BurnLeaderRank {
    type V = BurnLeaderRankView;

    open spec fn deep_view(&self) -> BurnLeaderRankView {
        BurnLeaderRankView {
            rank: self.rank,
            ticket_id: self.ticket_id@,
            owner: self.owner@,
            amount: self.amount,
            eligible_from_height: self.eligible_from_height,
            eligible_until_height: self.eligible_until_height,
        }
    }
}

impl Model for BurnTicket {
    fn duplicate(&self) -> (r: Self) {
        BurnTicket {
            id: self.id.clone(),
            owner: self.owner.clone(),
            amount: self.amount,
            eligible_from_height: self.eligible_from_height,
            eligible_until_height: self.eligible_until_height,
        }
    }

    fn same(&self, other: &Self) -> (r: bool) {
        self.id.same(&other.id) && self.owner.same(&other.owner) && self.amount == other.amount
            && self.eligible_from_height == other.eligible_from_height && self.eligible_until_height
            == other.eligible_until_height
    }
}

impl BurnTicketView {
    /// Whether the ticket may finalize a block of this height.
    pub open spec fn eligible(self, height: u64) -> bool {
        self.eligible_from_height <= height <= self.eligible_until_height
    }
}

pub fn ticket_is_eligible_for_height(ticket: &BurnTicket, height: u64) -> (r: bool)
    ensures
        r == ticket.deep_view().eligible(height),
{
    ticket.eligible_from_height <= height && height <= ticket.eligible_until_height
}

/// The sum of the burned amounts.
pub open spec fn weight(tickets: Seq<BurnTicketView>) -> nat
    decreases tickets.len(),
{
    if tickets.len() == 0 {
        0
    } else {
        weight(tickets.drop_last()) + tickets.last().amount as nat
    }
}

/// The ticket that a draw below the total weight falls on.
pub open spec fn drawn_index(tickets: Seq<BurnTicketView>, draw: nat, index: int) -> bool {
    0 <= index < tickets.len() && weight(tickets.take(index)) <= draw < weight(tickets.take(index + 1))
}

/// The pseudo-random number that selects the finalizer of a rank.
pub open spec fn ticket_draw(parent: BlockView, height: u64, rank: nat, total: nat) -> nat {
    let seed = if rank == 0 {
        "iuna-ticket-draw:"@ + text::decimal(height as nat) + ":"@ + parent.hash + ":"@ + parent.vdf_output
    } else {
        "iuna-ticket-draw-rank:"@ + text::decimal(height as nat) + ":"@ + text::decimal(rank) + ":"@
            + parent.hash + ":"@ + parent.vdf_output
    };
    vdf::big_endian(crypto::sha256(encode_utf8(seed)).take(16)) % total
}

/// The ticket that is drawn for a rank.
pub open spec fn selected_index(parent: BlockView, height: u64, rank: nat, tickets: Seq<BurnTicketView>) -> int {
    choose|index: int| drawn_index(tickets, ticket_draw(parent, height, rank, weight(tickets)), index)
}

/// Tickets in the order in which they are drawn, without replacement, until no weight is left.
pub open spec fn ranking(parent: BlockView, height: u64, rank: nat, tickets: Seq<BurnTicketView>) -> Seq<BurnTicketView>
    decreases tickets.len(),
{
    if weight(tickets) == 0 {
        Seq::<BurnTicketView>::empty()
    } else {
        let index = selected_index(parent, height, rank, tickets);
        if 0 <= index < tickets.len() {
            seq![tickets[index]] + ranking(parent, height, rank + 1, tickets.remove(index))
        } else {
            Seq::<BurnTicketView>::empty()
        }
    }
}

/// The finalizers of a block in their order.
pub open spec fn ranked(parent: BlockView, height: u64, tickets: Seq<BurnTicketView>) -> Seq<BurnTicketView> {
    ranking(parent, height, 0, tickets.filter(|t: BurnTicketView| t.eligible(height)))
}

pub proof fn weight_step(tickets: Seq<BurnTicketView>, n: int)
    requires
        0 <= n < tickets.len(),
    ensures
        weight(tickets.take(n + 1)) == weight(tickets.take(n)) + tickets[n].amount,
{
    assert(tickets.take(n + 1).drop_last() =~= tickets.take(n));
}

pub proof fn weight_grows(tickets: Seq<BurnTicketView>, n: int, m: int)
    requires
        0 <= n <= m <= tickets.len(),
    ensures
        weight(tickets.take(n)) <= weight(tickets.take(m)),
    decreases m - n,
{
    if n < m {
        weight_step(tickets, n);
        weight_grows(tickets, n + 1, m);
    }
}

/// A draw falls on one ticket only.
pub proof fn drawn_index_unique(tickets: Seq<BurnTicketView>, draw: nat, a: int, b: int)
    requires
        drawn_index(tickets, draw, a),
        drawn_index(tickets, draw, b),
    ensures
        a == b,
{
    if a < b {
        weight_grows(tickets, a + 1, b);
    } else if b < a {
        weight_grows(tickets, b + 1, a);
    }
}

pub proof fn weight_bound(tickets: Seq<BurnTicketView>)
    ensures
        weight(tickets) <= tickets.len() * u64::MAX,
    decreases tickets.len(),
{
    if tickets.len() > 0 {
        weight_bound(tickets.drop_last());
        assert(tickets.len() * u64::MAX == (tickets.len() - 1) * u64::MAX + u64::MAX) by (nonlinear_arith)
            requires
                tickets.len() > 0,
        ;
    }
}

fn weighted_ticket_draw(parent: &Block, target_height: u64, rank: u64, total_weight: u128) -> (r: u128)
    requires
        total_weight > 0,
    ensures
        r == ticket_draw(parent.deep_view(), target_height, rank as nat, total_weight as nat),
        r < total_weight,
{
    let mut t = if rank == 0 {
        let mut t = text::text("iuna-ticket-draw:");
        text::push_decimal(&mut t, target_height as u128);
        t
    } else {
        let mut t = text::text("iuna-ticket-draw-rank:");
        text::push_decimal(&mut t, target_height as u128);
        t.append(":");
        text::push_decimal(&mut t, rank as u128);
        t
    };
    t.append(":");
    t.append(parent.hash.as_str());
    t.append(":");
    t.append(parent.vdf_output.as_str());
    let digest = crypto::sha256_digest(t.as_str().as_bytes());
    vdf::leading_number(digest.as_slice(), 16) % total_weight
}

fn total_weight(tickets: &Vec<BurnTicket>) -> (r: u128)
    ensures
        r == weight(tickets.deep_view()),
{
    let ghost v = tickets.deep_view();
    let mut total: u128 = 0;
    let mut i: usize = 0;
    proof {
        model::take_all(v);
    }
    while i < tickets.len()
        invariant
            i <= tickets.len(),
            v == tickets.deep_view(),
            total == weight(v.take(i as int)),
        decreases tickets.len() - i,
    {
        proof {
            weight_step(v, i as int);
            weight_bound(v.take(i + 1));
            assert((i + 1) * u64::MAX <= u128::MAX) by (nonlinear_arith)
                requires
                    i + 1 <= 0xffff_ffff_ffff_ffffu64,
            ;
        }
        total = total + tickets[i].amount as u128;
        i = i + 1;
    }
    proof {
        model::take_all(v);
    }
    total
}

fn select_weighted_ticket_index(parent: &Block, target_height: u64, rank: u64, tickets: &Vec<BurnTicket>) -> (r: Option<
    usize,
>)
    ensures
        match r {
            Some(index) => {
                &&& weight(tickets.deep_view()) > 0
                &&& index < tickets.len()
                &&& index == selected_index(parent.deep_view(), target_height, rank as nat, tickets.deep_view())
            },
            None => weight(tickets.deep_view()) == 0,
        },
{
    let ghost v = tickets.deep_view();
    let total = total_weight(tickets);
    if total == 0 {
        return None;
    }
    let draw = weighted_ticket_draw(parent, target_height, rank, total);
    let mut cumulative: u128 = 0;
    let mut i: usize = 0;
    proof {
        model::take_all(v);
    }
    while i < tickets.len()
        invariant
            i <= tickets.len(),
            v == tickets.deep_view(),
            total == weight(v),
            draw < total,
            draw == ticket_draw(parent.deep_view(), target_height, rank as nat, weight(v)),
            cumulative == weight(v.take(i as int)),
            cumulative <= draw,
        decreases tickets.len() - i,
    {
        proof {
            weight_step(v, i as int);
            weight_grows(v, i + 1, v.len() as int);
            model::take_all(v);
        }
        cumulative = cumulative + tickets[i].amount as u128;
        if draw < cumulative {
            proof {
                assert(drawn_index(v, draw as nat, i as int));
                let chosen = selected_index(parent.deep_view(), target_height, rank as nat, v);
                drawn_index_unique(v, draw as nat, i as int, chosen);
            }
            return Some(i);
        }
        i = i + 1;
    }
    proof {
        model::take_all(v);
        assert(false);
    }
    None
}

fn eligible_tickets(tickets: &Vec<BurnTicket>, height: u64) -> (r: Vec<BurnTicket>)
    ensures
        r.deep_view() == tickets.deep_view().filter(|t: BurnTicketView| t.eligible(height)),
{
    broadcast use model::group_views;

    let ghost v = tickets.deep_view();
    let ghost p = |t: BurnTicketView| t.eligible(height);
    let mut out: Vec<BurnTicket> = Vec::new();
    let mut i: usize = 0;
    proof {
        model::take_all(v);
        model::filter_empty(p);
    }
    while i < tickets.len()
        invariant
            i <= tickets.len(),
            v == tickets.deep_view(),
            p == (|t: BurnTicketView| t.eligible(height)),
            out.deep_view() == v.take(i as int).filter(p),
        decreases tickets.len() - i,
    {
        proof {
            model::take_step(v, i as int);
            model::filter_push(v.take(i as int), v[i as int], p);
        }
        if ticket_is_eligible_for_height(&tickets[i], height) {
            out.push(tickets[i].duplicate());
        }
        i = i + 1;
    }
    proof {
        model::take_all(v);
    }
    out
}

/// The finalizers of a block in their order.
pub fn ranked_tickets_for_height(parent: &Block, target_height: u64, tickets: &Vec<BurnTicket>) -> (r: Vec<BurnTicket>)
    ensures
        r.deep_view() == ranked(parent.deep_view(), target_height, tickets.deep_view()),
{
    broadcast use model::group_views;

    let mut remaining = eligible_tickets(tickets, target_height);
    let ghost whole = remaining.deep_view();
    let ghost b = parent.deep_view();
    let ghost count = remaining.len();
    let mut out: Vec<BurnTicket> = Vec::new();
    let mut rank: u64 = 0;
    let mut next = select_weighted_ticket_index(parent, target_height, rank, &remaining);
    assert(out.deep_view() + ranking(b, target_height, 0, whole) =~= ranking(b, target_height, 0, whole));
    while next.is_some()
        invariant
            b == parent.deep_view(),
            rank + remaining.len() == count,
            count <= usize::MAX,
            ranking(b, target_height, 0, whole) == out.deep_view() + ranking(
                b,
                target_height,
                rank as nat,
                remaining.deep_view(),
            ),
            match next {
                Some(index) => {
                    &&& weight(remaining.deep_view()) > 0
                    &&& index < remaining.len()
                    &&& index == selected_index(b, target_height, rank as nat, remaining.deep_view())
                },
                None => weight(remaining.deep_view()) == 0,
            },
        decreases remaining.len(),
    {
        let index: usize = next.unwrap();
        let ghost before = remaining.deep_view();
        let ghost listed = out.deep_view();
        let ticket = remaining.remove(index);
        out.push(ticket);
        proof {
            assert(remaining.deep_view() == before.remove(index as int));
            assert(out.deep_view() == listed.push(before[index as int]));
            assert(listed + (seq![before[index as int]] + ranking(
                b,
                target_height,
                (rank + 1) as nat,
                remaining.deep_view(),
            )) =~= out.deep_view() + ranking(b, target_height, (rank + 1) as nat, remaining.deep_view()));
        }
        rank = rank + 1;
        next = select_weighted_ticket_index(parent, target_height, rank, &remaining);
    }
    assert(ranking(b, target_height, rank as nat, remaining.deep_view()) =~= Seq::<BurnTicketView>::empty());
    assert(out.deep_view() + Seq::<BurnTicketView>::empty() =~= out.deep_view());
    out
}

/// Every ticket in the ranking is one of the eligible tickets.
pub proof fn ranking_is_drawn(parent: BlockView, height: u64, rank: nat, tickets: Seq<BurnTicketView>, n: int)
    requires
        0 <= n < ranking(parent, height, rank, tickets).len(),
    ensures
        tickets.contains(ranking(parent, height, rank, tickets)[n]),
    decreases tickets.len(),
{
    let index = selected_index(parent, height, rank, tickets);
    let rest = tickets.remove(index);
    if n == 0 {
        assert(tickets[index] == ranking(parent, height, rank, tickets)[0]);
    } else {
        ranking_is_drawn(parent, height, rank + 1, rest, n - 1);
        let t = ranking(parent, height, rank + 1, rest)[n - 1];
        assert(ranking(parent, height, rank, tickets)[n] == t);
        let k = choose|k: int| 0 <= k < rest.len() && rest[k] == t;
        let m = if k < index { k } else { k + 1 };
        assert(tickets[m] == t);
    }
}

/// What a filter leaves was there and passes.
proof fn filtered_item(tickets: Seq<BurnTicketView>, p: spec_fn(BurnTicketView) -> bool, n: int)
    requires
        0 <= n < tickets.filter(p).len(),
    ensures
        p(tickets.filter(p)[n]),
        tickets.contains(tickets.filter(p)[n]),
    decreases tickets.len(),
{
    reveal(Seq::filter);
    let d = tickets.drop_last();
    if n < d.filter(p).len() {
        filtered_item(d, p, n);
        let k = choose|k: int| 0 <= k < d.len() && d[k] == d.filter(p)[n];
        assert(tickets[k] == tickets.filter(p)[n]);
    } else {
        assert(tickets[tickets.len() - 1] == tickets.filter(p)[n]);
    }
}

/// Only holders of eligible tickets rank as finalizers.
pub proof fn finalizers_hold_eligible_tickets(parent: BlockView, height: u64, tickets: Seq<BurnTicketView>, n: int)
    requires
        0 <= n < ranked(parent, height, tickets).len(),
    ensures
        tickets.contains(ranked(parent, height, tickets)[n]),
        ranked(parent, height, tickets)[n].eligible(height),
{
    let p = |t: BurnTicketView| t.eligible(height);
    let f = tickets.filter(p);
    ranking_is_drawn(parent, height, 0, f, n);
    let t = ranked(parent, height, tickets)[n];
    let k = choose|k: int| 0 <= k < f.len() && f[k] == t;
    filtered_item(tickets, p, k);
}

/// The ticket that a burn creates, if it creates one.
pub open spec fn ticket_of(height: u64, t: TransactionView, profile: LaunchProfileView) -> Result<
    Option<BurnTicketView>,
    Seq<char>,
> {
    match t {
        TransactionView::Burn { inputs, amount, signature, .. } => if inputs.len() == 0 || amount == 0 {
            Ok(None)
        } else if height + profile.ticket_maturity_delay_heights > u64::MAX {
            Err("ticket target height overflow at block "@ + text::decimal(height as nat))
        } else if height + profile.ticket_maturity_delay_heights + (profile.ticket_expiry_window_heights - 1)
            > u64::MAX {
            Err("ticket expiry height overflow at block "@ + text::decimal(height as nat))
        } else {
            Ok(
                Some(
                    BurnTicketView {
                        id: signature,
                        owner: inputs[0].owner,
                        amount,
                        eligible_from_height: (height + profile.ticket_maturity_delay_heights) as u64,
                        eligible_until_height: (height + profile.ticket_maturity_delay_heights + (
                        profile.ticket_expiry_window_heights - 1)) as u64,
                    },
                ),
            )
        },
        _ => Ok(None),
    }
}

/// The tickets of burns, in order.
pub open spec fn tickets_of(height: u64, transactions: Seq<TransactionView>, profile: LaunchProfileView) -> Result<
    Seq<BurnTicketView>,
    Seq<char>,
>
    decreases transactions.len(),
{
    if transactions.len() == 0 {
        Ok(Seq::<BurnTicketView>::empty())
    } else {
        match tickets_of(height, transactions.drop_last(), profile) {
            Err(e) => Err(e),
            Ok(earlier) => match ticket_of(height, transactions.last(), profile) {
                Err(e) => Err(e),
                Ok(None) => Ok(earlier),
                Ok(Some(ticket)) => Ok(earlier.push(ticket)),
            },
        }
    }
}

/// The tickets that the burns of a block create.
pub open spec fn created_tickets(height: u64, transactions: Seq<TransactionView>, profile: LaunchProfileView) -> Result<
    Seq<BurnTicketView>,
    Seq<char>,
> {
    if profile.ticket_expiry_window_heights == 0 {
        Err("ticket expiry window must be at least one height"@)
    } else {
        tickets_of(height, transactions, profile)
    }
}

proof fn tickets_of_stops(height: u64, transactions: Seq<TransactionView>, profile: LaunchProfileView, n: int)
    requires
        0 <= n <= transactions.len(),
        tickets_of(height, transactions.take(n), profile) is Err,
    ensures
        tickets_of(height, transactions, profile) == tickets_of(height, transactions.take(n), profile),
    decreases transactions.len(),
{
    if n < transactions.len() {
        assert(transactions.drop_last().take(n) =~= transactions.take(n));
        tickets_of_stops(height, transactions.drop_last(), profile, n);
    } else {
        model::take_all(transactions);
    }
}

fn ticket_for(height: u64, transaction: &Transaction, profile: &LaunchProfile) -> (r: Result<Option<BurnTicket>, Error>)
    requires
        profile.ticket_expiry_window_heights > 0,
    ensures
        error::outcome(r) == ticket_of(height, transaction.deep_view(), profile.deep_view()),
{
    match transaction {
        Transaction::Burn { inputs, amount, signature, .. } => {
            if inputs.len() == 0 || *amount == 0 {
                return Ok(None);
            }
            let from: u64 = match height.checked_add(profile.ticket_maturity_delay_heights) {
                Some(h) => h,
                None => {
                    let mut message = text::text("ticket target height overflow at block ");
                    text::push_decimal(&mut message, height as u128);
                    return Err(Error::of(message));
                },
            };
            let until: u64 = match from.checked_add(profile.ticket_expiry_window_heights - 1) {
                Some(h) => h,
                None => {
                    let mut message = text::text("ticket expiry height overflow at block ");
                    text::push_decimal(&mut message, height as u128);
                    return Err(Error::of(message));
                },
            };
            Ok(
                Some(
                    BurnTicket {
                        id: signature.clone(),
                        owner: inputs[0].owner.clone(),
                        amount: *amount,
                        eligible_from_height: from,
                        eligible_until_height: until,
                    },
                ),
            )
        },
        _ => Ok(None),
    }
}

/// The tickets that burns create.
pub fn tickets_created_by_transactions(
    block_height: u64,
    transactions: &Vec<Transaction>,
    profile: &LaunchProfile,
) -> (r: Result<Vec<BurnTicket>, Error>)
    ensures
        error::outcome(r) == created_tickets(block_height, transactions.deep_view(), profile.deep_view()),
{
    broadcast use model::group_views;

    if profile.ticket_expiry_window_heights == 0 {
        return Err(Error::new("ticket expiry window must be at least one height"));
    }
    let ghost v = transactions.deep_view();
    let ghost p = profile.deep_view();
    let mut tickets: Vec<BurnTicket> = Vec::new();
    let mut i: usize = 0;
    proof {
        model::take_all(v);
    }
    while i < transactions.len()
        invariant
            i <= transactions.len(),
            v == transactions.deep_view(),
            p == profile.deep_view(),
            profile.ticket_expiry_window_heights > 0,
            tickets_of(block_height, v.take(i as int), p) == Ok::<Seq<BurnTicketView>, Seq<char>>(
                tickets.deep_view(),
            ),
        decreases transactions.len() - i,
    {
        proof {
            assert(v.take(i + 1).drop_last() =~= v.take(i as int));
            if tickets_of(block_height, v.take(i + 1), p) is Err {
                tickets_of_stops(block_height, v, p, i + 1);
            }
        }
        let ghost before = tickets.deep_view();
        let created = ticket_for(block_height, &transactions[i], profile)?;
        if let Some(ticket) = created {
            let ghost added = ticket.deep_view();
            tickets.push(ticket);
            assert(tickets.deep_view() =~= before.push(added));
        }
        i = i + 1;
    }
    proof {
        model::take_all(v);
    }
    Ok(tickets)
}

/// The tickets that the burns of a block create.
pub fn tickets_created_by_block(block: &Block, profile: &LaunchProfile) -> (r: Result<Vec<BurnTicket>, Error>)
    ensures
        error::outcome(r) == created_tickets(
            block.height,
            block.deep_view().transactions,
            profile.deep_view(),
        ),
{
    tickets_created_by_transactions(block.height, &block.transactions, profile)
}

/// Who holds what in the first heights of a chain, with the id that tickets derive from.
pub struct TicketSource {
    pub owner: String,
    pub amount: Amount,
    pub id: String,
}

#[verifier::ext_equal]
pub struct TicketSourceView {
    pub owner: Seq<char>,
    pub amount: Amount,
    pub id: Seq<char>,
}

impl DeepView for TicketSource {
    type V = TicketSourceView;

    open spec fn deep_view(&self) -> TicketSourceView {
        TicketSourceView { owner: self.owner@, amount: self.amount, id: self.id@ }
    }
}

/// The source that a genesis burn is, if it is one.
pub open spec fn burn_source(t: TransactionView) -> Option<TicketSourceView> {
    match t {
        TransactionView::Burn { inputs, amount, signature, .. } => if inputs.len() > 0 && amount > 0 {
            Some(TicketSourceView { owner: inputs[0].owner, amount, id: signature })
        } else {
            None
        },
        _ => None,
    }
}

pub open spec fn burn_sources(transactions: Seq<TransactionView>) -> Seq<TicketSourceView>
    decreases transactions.len(),
{
    if transactions.len() == 0 {
        Seq::<TicketSourceView>::empty()
    } else {
        match burn_source(transactions.last()) {
            Some(source) => burn_sources(transactions.drop_last()).push(source),
            None => burn_sources(transactions.drop_last()),
        }
    }
}

/// The last address, in order, with an allocation.
pub open spec fn last_funded(allocations: Seq<(Seq<char>, u64)>) -> Option<(Seq<char>, u64)>
    decreases allocations.len(),
{
    if allocations.len() == 0 {
        None
    } else if allocations.last().1 > 0 {
        Some(allocations.last())
    } else {
        last_funded(allocations.drop_last())
    }
}

/// The ticket of a source for one of the first heights.
pub open spec fn bootstrap_ticket(source: TicketSourceView, height: nat, genesis_hash: Seq<char>) -> BurnTicketView {
    BurnTicketView {
        id: crypto::hash_of(
            "iuna-genesis-bootstrap-ticket:"@ + genesis_hash + ":"@ + source.id + ":"@ + text::decimal(height),
        ),
        owner: source.owner,
        amount: source.amount,
        eligible_from_height: height as u64,
        eligible_until_height: height as u64,
    }
}

/// A ticket of each source for each of the first heights.
pub open spec fn bootstrap_tickets(sources: Seq<TicketSourceView>, heights: nat, genesis_hash: Seq<char>) -> Seq<
    BurnTicketView,
>
    decreases heights,
{
    if heights == 0 {
        Seq::<BurnTicketView>::empty()
    } else {
        bootstrap_tickets(sources, (heights - 1) as nat, genesis_hash) + Seq::new(
            sources.len(),
            |i: int| bootstrap_ticket(sources[i], heights, genesis_hash),
        )
    }
}

/// The tickets that a chain starts with.
pub open spec fn initial_tickets(
    allocations: Seq<(Seq<char>, u64)>,
    genesis: BlockView,
    profile: LaunchProfileView,
) -> Result<Seq<BurnTicketView>, Seq<char>> {
    let burns = burn_sources(genesis.transactions);
    if profile.ticket_maturity_delay_heights == 0 {
        created_tickets(genesis.height, genesis.transactions, profile)
    } else if burns.len() > 0 {
        Ok(bootstrap_tickets(burns, profile.ticket_maturity_delay_heights as nat, genesis.hash))
    } else {
        match last_funded(allocations) {
            None => Ok(Seq::<BurnTicketView>::empty()),
            Some((owner, amount)) => Ok(
                bootstrap_tickets(
                    seq![
                        TicketSourceView {
                            owner,
                            amount: 1,
                            id: crypto::hash_of(
                                "iuna-genesis-ticket:"@ + owner + ":"@ + text::decimal(amount as nat) + ":"@
                                    + genesis.hash,
                            ),
                        },
                    ],
                    profile.ticket_maturity_delay_heights as nat,
                    genesis.hash,
                ),
            ),
        }
    }
}

fn genesis_bootstrap_tickets(sources: &Vec<TicketSource>, heights: u64, genesis_hash: &str) -> (r: Vec<BurnTicket>)
    ensures
        r.deep_view() == bootstrap_tickets(sources.deep_view(), heights as nat, genesis_hash@),
{
    broadcast use model::group_views;

    let ghost s = sources.deep_view();
    let mut tickets: Vec<BurnTicket> = Vec::new();
    let mut h: u64 = 0;
    while h < heights
        invariant
            h <= heights,
            s == sources.deep_view(),
            tickets.deep_view() == bootstrap_tickets(s, h as nat, genesis_hash@),
        decreases heights - h,
    {
        h = h + 1;
        let ghost before = tickets.deep_view();
        let ghost row = Seq::new(s.len(), |i: int| bootstrap_ticket(s[i], h as nat, genesis_hash@));
        let mut i: usize = 0;
        assert(before + row.take(0) =~= before);
        while i < sources.len()
            invariant
                i <= sources.len(),
                s == sources.deep_view(),
                row == Seq::new(s.len(), |i: int| bootstrap_ticket(s[i], h as nat, genesis_hash@)),
                tickets.deep_view() == before + row.take(i as int),
            decreases sources.len() - i,
        {
            let mut t = text::text("iuna-genesis-bootstrap-ticket:");
            t.append(genesis_hash);
            t.append(":");
            t.append(sources[i].id.as_str());
            t.append(":");
            text::push_decimal(&mut t, h as u128);
            tickets.push(
                BurnTicket {
                    id: crypto::hash_text(t.as_str()),
                    owner: sources[i].owner.clone(),
                    amount: sources[i].amount,
                    eligible_from_height: h,
                    eligible_until_height: h,
                },
            );
            proof {
                assert((before + row.take(i as int)).push(row[i as int]) =~= before + row.take(i + 1));
            }
            i = i + 1;
        }
        proof {
            model::take_all(row);
        }
    }
    tickets
}

fn genesis_burn_sources(transactions: &Vec<Transaction>) -> (r: Vec<TicketSource>)
    ensures
        r.deep_view() == burn_sources(transactions.deep_view()),
{
    broadcast use model::group_views;

    let ghost v = transactions.deep_view();
    let mut sources: Vec<TicketSource> = Vec::new();
    let mut i: usize = 0;
    proof {
        model::take_all(v);
    }
    while i < transactions.len()
        invariant
            i <= transactions.len(),
            v == transactions.deep_view(),
            sources.deep_view() == burn_sources(v.take(i as int)),
        decreases transactions.len() - i,
    {
        proof {
            assert(v.take(i + 1).drop_last() =~= v.take(i as int));
        }
        if let Transaction::Burn { inputs, amount, signature, .. } = &transactions[i] {
            if inputs.len() > 0 && *amount > 0 {
                sources.push(
                    TicketSource { owner: inputs[0].owner.clone(), amount: *amount, id: signature.clone() },
                );
            }
        }
        i = i + 1;
    }
    proof {
        model::take_all(v);
    }
    sources
}

/// The tickets that a chain starts with.
pub fn genesis_tickets(allocations: &SortedMap<String, u64>, genesis: &Block, profile: &LaunchProfile) -> (r: Result<
    Vec<BurnTicket>,
    Error,
>)
    ensures
        error::outcome(r) == initial_tickets(
            allocations.deep_view(),
            genesis.deep_view(),
            profile.deep_view(),
        ),
{
    if profile.ticket_maturity_delay_heights == 0 {
        return tickets_created_by_block(genesis, profile);
    }
    let burns = genesis_burn_sources(&genesis.transactions);
    if burns.len() > 0 {
        return Ok(
            genesis_bootstrap_tickets(&burns, profile.ticket_maturity_delay_heights, genesis.hash.as_str()),
        );
    }
    let ghost a = allocations.deep_view();
    let mut i: usize = allocations.len();
    proof {
        model::take_all(a);
    }
    while i > 0
        invariant
            i <= a.len(),
            a == allocations.deep_view(),
            profile.ticket_maturity_delay_heights > 0,
            burn_sources(genesis.deep_view().transactions).len() == 0,
            last_funded(a) == last_funded(a.take(i as int)),
        decreases i,
    {
        i = i - 1;
        let entry = allocations.at(i);
        proof {
            assert(a.take(i + 1).drop_last() =~= a.take(i as int));
            assert(a.take(i + 1).last() == a[i as int]);
        }
        if entry.1 > 0 {
            let mut t = text::text("iuna-genesis-ticket:");
            t.append(entry.0.as_str());
            t.append(":");
            text::push_decimal(&mut t, entry.1 as u128);
            t.append(":");
            t.append(genesis.hash.as_str());
            let mut sources: Vec<TicketSource> = Vec::new();
            sources.push(
                TicketSource { owner: entry.0.clone(), amount: 1, id: crypto::hash_text(t.as_str()) },
            );
            assert(sources.deep_view() =~= seq![
                TicketSourceView { owner: entry.0@, amount: 1, id: crypto::hash_of(t@) },
            ]);
            return Ok(
                genesis_bootstrap_tickets(
                    &sources,
                    profile.ticket_maturity_delay_heights,
                    genesis.hash.as_str(),
                ),
            );
        }
    }
    let none: Vec<BurnTicket> = Vec::new();
    assert(none.deep_view() =~= Seq::<BurnTicketView>::empty());
    Ok(none)
}

/// The first ticket with an id that may finalize at a height.
pub open spec fn pending_ticket(tickets: Seq<BurnTicketView>, id: Seq<char>, height: u64) -> Option<int>
    decreases tickets.len(),
{
    if tickets.len() == 0 {
        None
    } else {
        match pending_ticket(tickets.drop_last(), id, height) {
            Some(index) => Some(index),
            None => if tickets.last().id == id && tickets.last().eligible(height) {
                Some(tickets.len() - 1)
            } else {
                None
            },
        }
    }
}

proof fn pending_ticket_found(tickets: Seq<BurnTicketView>, id: Seq<char>, height: u64, n: int)
    requires
        0 <= n < tickets.len(),
        pending_ticket(tickets.take(n), id, height) is None,
        tickets[n].id == id,
        tickets[n].eligible(height),
    ensures
        pending_ticket(tickets, id, height) == Some(n),
    decreases tickets.len(),
{
    if n < tickets.len() - 1 {
        assert(tickets.drop_last().take(n) =~= tickets.take(n));
        pending_ticket_found(tickets.drop_last(), id, height, n);
    } else {
        assert(tickets.drop_last() =~= tickets.take(n));
    }
}

/// A pending ticket is where it is said to be.
pub proof fn pending_ticket_is_there(tickets: Seq<BurnTicketView>, id: Seq<char>, height: u64)
    ensures
        pending_ticket(tickets, id, height) matches Some(n) ==> 0 <= n < tickets.len() && tickets[n].id == id
            && tickets[n].eligible(height),
    decreases tickets.len(),
{
    if tickets.len() > 0 {
        pending_ticket_is_there(tickets.drop_last(), id, height);
    }
}

fn find_pending_ticket(tickets: &Vec<BurnTicket>, id: &String, height: u64) -> (r: Option<usize>)
    ensures
        match r {
            Some(n) => pending_ticket(tickets.deep_view(), id@, height) == Some(n as int) && n < tickets.len(),
            None => pending_ticket(tickets.deep_view(), id@, height) is None,
        },
{
    let ghost v = tickets.deep_view();
    let mut i: usize = 0;
    proof {
        model::take_all(v);
    }
    while i < tickets.len()
        invariant
            i <= tickets.len(),
            v == tickets.deep_view(),
            pending_ticket(v.take(i as int), id@, height) is None,
        decreases tickets.len() - i,
    {
        if tickets[i].id.same(id) && ticket_is_eligible_for_height(&tickets[i], height) {
            proof {
                pending_ticket_found(v, id@, height, i as int);
            }
            return Some(i);
        }
        proof {
            assert(v.take(i + 1).drop_last() =~= v.take(i as int));
        }
        i = i + 1;
    }
    proof {
        model::take_all(v);
    }
    None
}

/// Tickets that are still good after a height; a recovery also voids those that could have
/// finalized it.
pub open spec fn outlives(height: u64, voids_eligible: bool) -> spec_fn(BurnTicketView) -> bool {
    |t: BurnTicketView| !(voids_eligible && t.eligible(height)) && t.eligible_until_height > height
}

/// The tickets after the one that a block names was used, without those that expire.
pub open spec fn consumed(block: BlockView, tickets: Seq<BurnTicketView>) -> Result<Seq<BurnTicketView>, Seq<char>> {
    match block.leader_proof {
        None => Err("block is missing leader proof"@),
        Some(proof) => match pending_ticket(tickets, proof.ticket_id, block.height) {
            None => Err("leader ticket is not pending for block "@ + text::decimal(block.height as nat)),
            Some(index) => Ok(tickets.remove(index).filter(outlives(block.height, false))),
        },
    }
}

/// The tickets after a block: the one that was used is gone, and so are those that expire.
pub open spec fn tickets_after(block: BlockView, tickets: Seq<BurnTicketView>) -> Result<Seq<BurnTicketView>, Seq<char>> {
    match block.finalizer_mode {
        FinalizerMode::Ticket => consumed(block, tickets),
        FinalizerMode::Recovery => Ok(tickets.filter(outlives(block.height, true))),
    }
}

fn retain_unexpired(tickets: &Vec<BurnTicket>, height: u64, drop_eligible: bool) -> (r: Vec<BurnTicket>)
    ensures
        r.deep_view() == tickets.deep_view().filter(outlives(height, drop_eligible)),
{
    broadcast use model::group_views;

    let ghost v = tickets.deep_view();
    let ghost p = outlives(height, drop_eligible);
    let mut out: Vec<BurnTicket> = Vec::new();
    let mut i: usize = 0;
    proof {
        model::take_all(v);
        model::filter_empty(p);
    }
    while i < tickets.len()
        invariant
            i <= tickets.len(),
            v == tickets.deep_view(),
            p == outlives(height, drop_eligible),
            out.deep_view() == v.take(i as int).filter(p),
        decreases tickets.len() - i,
    {
        proof {
            model::take_step(v, i as int);
            model::filter_push(v.take(i as int), v[i as int], p);
        }
        let dropped = drop_eligible && ticket_is_eligible_for_height(&tickets[i], height);
        if !dropped && tickets[i].eligible_until_height > height {
            out.push(tickets[i].duplicate());
        }
        i = i + 1;
    }
    proof {
        model::take_all(v);
    }
    out
}

/// Uses the ticket that a block names. A refusal changes nothing.
pub fn consume_leader_ticket(block: &Block, tickets: &mut Vec<BurnTicket>) -> (r: Result<(), Error>)
    ensures
        match r {
            Ok(_) => consumed(block.deep_view(), old(tickets).deep_view()) == Ok::<Seq<BurnTicketView>, Seq<char>>(
                final(tickets).deep_view(),
            ),
            Err(e) => consumed(block.deep_view(), old(tickets).deep_view()) == Err::<Seq<BurnTicketView>, Seq<char>>(
                e.deep_view(),
            ) && final(tickets).deep_view() == old(tickets).deep_view(),
        },
{
    broadcast use model::group_views;

    let proof_ = match &block.leader_proof {
        Some(p) => p,
        None => return Err(Error::new("block is missing leader proof")),
    };
    match find_pending_ticket(tickets, &proof_.ticket_id, block.height) {
        None => {
            let mut message = text::text("leader ticket is not pending for block ");
            text::push_decimal(&mut message, block.height as u128);
            Err(Error::of(message))
        },
        Some(index) => {
            let _ = tickets.remove(index);
            let left = retain_unexpired(tickets, block.height, false);
            *tickets = left;
            Ok(())
        },
    }
}

/// The tickets after a block.
pub fn apply_finalizer_ticket_effects(block: &Block, tickets: &Vec<BurnTicket>) -> (r: Result<Vec<BurnTicket>, Error>)
    ensures
        error::outcome(r) == tickets_after(block.deep_view(), tickets.deep_view()),
{
    match block.finalizer_mode {
        FinalizerMode::Ticket => {
            let mut left = tickets.duplicate();
            match consume_leader_ticket(block, &mut left) {
                Ok(_) => Ok(left),
                Err(e) => Err(e),
            }
        },
        FinalizerMode::Recovery => {
            Ok(retain_unexpired(tickets, block.height, true))
        },
    }
}

proof fn filter_holds(tickets: Seq<BurnTicketView>, p: spec_fn(BurnTicketView) -> bool)
    ensures
        forall|i: int| 0 <= i < tickets.filter(p).len() ==> p(#[trigger] tickets.filter(p)[i]),
{
    broadcast use vstd::seq_lib::group_filter_ensures;

    let s = tickets.filter(p);
    assert forall|i: int| 0 <= i < s.len() implies p(#[trigger] s[i]) by {
        assert(s.contains(s[i]));
    }
}

/// After a block no ticket is left that expires with it or before.
pub proof fn no_expired_tickets(block: BlockView, tickets: Seq<BurnTicketView>)
    requires
        tickets_after(block, tickets) is Ok,
    ensures
        forall|i: int|
            0 <= i < tickets_after(block, tickets)->Ok_0.len() ==> (
            #[trigger] tickets_after(block, tickets)->Ok_0[i]).eligible_until_height > block.height,
{
    match block.finalizer_mode {
        FinalizerMode::Ticket => {
            let index = pending_ticket(tickets, block.leader_proof->0.ticket_id, block.height)->0;
            filter_holds(tickets.remove(index), outlives(block.height, false));
        },
        FinalizerMode::Recovery => {
            filter_holds(tickets, outlives(block.height, true));
        },
    }
}

/// The signature of a text by the key at an address, or why it is refused.
pub open spec fn address_signature_check(
    address: Seq<char>,
    payload: Seq<char>,
    signature: Seq<char>,
    label: Seq<char>,
) -> Result<(), Seq<char>> {
    match hex::exact_bytes_of(address, 32) {
        Err(e) => Err(error::in_context("invalid "@ + label + " public key "@ + address, e)),
        Ok(key) => match hex::exact_bytes_of(signature, 64) {
            Err(e) => Err(error::in_context("invalid "@ + label + " signature hex"@, e)),
            Ok(bytes) => if !crypto::ed25519_is_key(key) {
                Err("invalid "@ + label + " public key"@)
            } else if !crypto::ed25519_verifies(key, encode_utf8(payload), bytes) {
                Err(label + " signature is invalid"@)
            } else {
                Ok(())
            },
        },
    }
}

/// Checks the signature of a text by the key at an address.
pub fn verify_address_signature(address: &str, payload: &str, signature: &str, label: &str) -> (r: Result<(), Error>)
    ensures
        error::outcome(r) == address_signature_check(address@, payload@, signature@, label@),
{
    let mut prefix = text::text("invalid ");
    prefix.append(label);
    let key = match hex::decode_hex_array(address, 32) {
        Ok(key) => key,
        Err(e) => {
            prefix.append(" public key ");
            prefix.append(address);
            return Err(e.context(prefix.as_str()));
        },
    };
    let bytes = match hex::decode_hex_array(signature, 64) {
        Ok(bytes) => bytes,
        Err(e) => {
            prefix.append(" signature hex");
            return Err(e.context(prefix.as_str()));
        },
    };
    if !crypto::is_public_key(key.as_slice()) {
        prefix.append(" public key");
        return Err(Error::of(prefix));
    }
    if crypto::signature_verifies(key.as_slice(), payload.as_bytes(), bytes.as_slice()) {
        Ok(())
    } else {
        let mut message = text::text(label);
        message.append(" signature is invalid");
        Err(Error::of(message))
    }
}

/// Whether the leader proof of a block is signed for a pending ticket of its finalizer.
pub open spec fn leader_proof_check(block: BlockView, tickets: Seq<BurnTicketView>) -> Result<(), Seq<char>> {
    match block.leader_proof {
        None => Err("block is missing leader proof"@),
        Some(proof) => if proof.public_key != block.miner {
            Err("leader proof public key does not match block finalizer"@)
        } else {
            match pending_ticket(tickets, proof.ticket_id, block.height) {
                None => Err("leader ticket is not pending for this height"@),
                Some(index) => {
                    let ticket = tickets[index];
                    if ticket.owner != block.miner {
                        Err("leader ticket owner does not match block finalizer"@)
                    } else {
                        address_signature_check(
                            proof.public_key,
                            LeaderProofPayloadView {
                                height: block.height,
                                prev_hash: block.prev_hash,
                                finalizer_rank: block.finalizer_rank,
                                vdf_output: block.vdf_output,
                                ticket_id: ticket.id,
                                ticket_amount: ticket.amount,
                                ticket_owner: ticket.owner,
                            }.canonical(),
                            proof.signature,
                            "leader"@,
                        )
                    }
                },
            }
        },
    }
}

/// Checks the leader proof of a block.
pub fn verify_leader_proof(block: &Block, tickets: &Vec<BurnTicket>) -> (r: Result<(), Error>)
    ensures
        error::outcome(r) == leader_proof_check(block.deep_view(), tickets.deep_view()),
{
    let proof_ = match &block.leader_proof {
        Some(p) => p,
        None => return Err(Error::new("block is missing leader proof")),
    };
    if !proof_.public_key.same(&block.miner) {
        return Err(Error::new("leader proof public key does not match block finalizer"));
    }
    let ticket = match find_pending_ticket(tickets, &proof_.ticket_id, block.height) {
        Some(index) => &tickets[index],
        None => return Err(Error::new("leader ticket is not pending for this height")),
    };
    if !ticket.owner.same(&block.miner) {
        return Err(Error::new("leader ticket owner does not match block finalizer"));
    }
    let payload = LeaderProofPayload {
        height: block.height,
        prev_hash: block.prev_hash.clone(),
        finalizer_rank: block.finalizer_rank,
        vdf_output: block.vdf_output.clone(),
        ticket_id: ticket.id.clone(),
        ticket_amount: ticket.amount,
        ticket_owner: ticket.owner.clone(),
    };
    let t = payload.canonical();
    verify_address_signature(
        proof_.public_key.as_str(),
        t.as_str(),
        proof_.signature.as_str(),
        "leader",
    )
}

/// How many doublings of `d` stay within `n`.
pub open spec fn doublings_within(n: nat, d: nat) -> nat
    decreases n - d,
{
    if d == 0 || 2 * d > n {
        0
    } else {
        1 + doublings_within(n, 2 * d)
    }
}

pub fn floor_log2_ratio(numerator: u64, denominator: u64) -> (r: u32)
    ensures
        r == doublings_within(numerator as nat, denominator as nat),
{
    if denominator == 0 || numerator <= denominator {
        return 0;
    }
    let mut step: u32 = 0;
    let mut threshold: u64 = denominator;
    let ghost total = doublings_within(numerator as nat, denominator as nat);
    proof {
        vstd::arithmetic::power2::lemma2_to64();
        vstd::arithmetic::power2::lemma2_to64_rest();
        assert(numerator < denominator * 0x1_0000_0000_0000_0000int) by (nonlinear_arith)
            requires
                denominator >= 1,
                numerator <= 0xffff_ffff_ffff_ffffu64,
        ;
        doublings_bound(numerator as nat, denominator as nat, 64);
    }
    while threshold <= numerator / 2
        invariant
            threshold > 0,
            total <= 64,
            step + doublings_within(numerator as nat, threshold as nat) == total,
        decreases numerator - threshold,
    {
        threshold = threshold * 2;
        step = step + 1;
    }
    step
}

proof fn doublings_bound(n: nat, d: nat, bits: nat)
    requires
        d > 0,
        n < d * vstd::arithmetic::power2::pow2(bits),
    ensures
        doublings_within(n, d) <= bits,
    decreases bits,
{
    if 2 * d <= n {
        if bits == 0 {
            vstd::arithmetic::power2::lemma2_to64();
        } else {
            let b = (bits - 1) as nat;
            vstd::arithmetic::power2::lemma_pow2_unfold(bits);
            assert(d * (2 * vstd::arithmetic::power2::pow2(b)) == (2 * d) * vstd::arithmetic::power2::pow2(b))
                by (nonlinear_arith);
            doublings_bound(n, 2 * d, b);
        }
    }
}

pub open spec fn clamp_bits(bits: int) -> u32 {
    if bits < MINE_MIN_DIFFICULTY_BITS {
        MINE_MIN_DIFFICULTY_BITS
    } else if bits > MINE_MAX_DIFFICULTY_BITS {
        MINE_MAX_DIFFICULTY_BITS
    } else {
        bits as u32
    }
}

/// By how many bits the difficulty moves after a window with this many mine actions.
pub open spec fn retarget_step(mine_actions: nat) -> nat {
    let doublings = if mine_actions > 10 {
        doublings_within(mine_actions, 10)
    } else if mine_actions == 0 {
        2
    } else {
        doublings_within(10, mine_actions)
    };
    if doublings > 2 {
        2
    } else {
        doublings
    }
}

/// The difficulty after a window: a bit more for each doubling of the target, a bit less for each
/// halving, two at most.
pub open spec fn retargeted_bits(current: u32, mine_actions: nat) -> u32 {
    if mine_actions > 10 {
        clamp_bits(current + retarget_step(mine_actions))
    } else if mine_actions == 10 {
        clamp_bits(current as int)
    } else {
        clamp_bits(current - retarget_step(mine_actions))
    }
}

fn clamp_difficulty(bits: u32) -> (r: u32)
    ensures
        r == clamp_bits(bits as int),
{
    if bits < MINE_MIN_DIFFICULTY_BITS {
        MINE_MIN_DIFFICULTY_BITS
    } else if bits > MINE_MAX_DIFFICULTY_BITS {
        MINE_MAX_DIFFICULTY_BITS
    } else {
        bits
    }
}

/// The difficulty after a window.
pub fn retarget_mine_difficulty_bits(current: u32, mine_actions: u64) -> (r: u32)
    ensures
        r == retargeted_bits(current, mine_actions as nat),
{
    let target: u64 = MINE_RETARGET_WINDOW_BLOCKS * MINE_TARGET_ACTIONS_PER_BLOCK;
    if mine_actions == target {
        return clamp_difficulty(current);
    }
    let doublings: u32 = if mine_actions > target {
        floor_log2_ratio(mine_actions, target)
    } else if mine_actions == 0 {
        MINE_MAX_RETARGET_STEP_BITS
    } else {
        floor_log2_ratio(target, mine_actions)
    };
    let step: u32 = if doublings > MINE_MAX_RETARGET_STEP_BITS {
        MINE_MAX_RETARGET_STEP_BITS
    } else {
        doublings
    };
    if mine_actions > target {
        clamp_difficulty(current.saturating_add(step))
    } else {
        clamp_difficulty(current.saturating_sub(step))
    }
}

/// A retarget moves the difficulty by at most two bits and keeps it in its range.
pub proof fn difficulty_retarget_is_bounded(current: u32, mine_actions: nat)
    requires
        MINE_MIN_DIFFICULTY_BITS <= current <= MINE_MAX_DIFFICULTY_BITS,
    ensures
        ({
            let next = retargeted_bits(current, mine_actions);
            &&& MINE_MIN_DIFFICULTY_BITS <= next <= MINE_MAX_DIFFICULTY_BITS
            &&& next <= current + 2
            &&& current <= next + 2
            &&& (mine_actions >= 10 ==> next >= current)
            &&& (mine_actions <= 10 ==> next <= current)
        }),
{
}

/// The number of mine actions.
pub open spec fn mine_actions_in(transactions: Seq<TransactionView>) -> nat
    decreases transactions.len(),
{
    if transactions.len() == 0 {
        0
    } else {
        mine_actions_in(transactions.drop_last()) + if transactions.last() is Mine {
            1nat
        } else {
            0
        }
    }
}

/// The number of mine actions of a block.
pub fn mine_action_count(block: &Block) -> (r: u64)
    ensures
        r == mine_actions_in(block.deep_view().transactions),
        r <= block.deep_view().transactions.len(),
{
    let ghost v = block.transactions.deep_view();
    let mut count: u64 = 0;
    let mut i: usize = 0;
    proof {
        model::take_all(v);
    }
    while i < block.transactions.len()
        invariant
            i <= block.transactions.len(),
            v == block.transactions.deep_view(),
            count <= i,
            count == mine_actions_in(v.take(i as int)),
        decreases block.transactions.len() - i,
    {
        proof {
            assert(v.take(i + 1).drop_last() =~= v.take(i as int));
        }
        if block.transactions[i].is_mine() {
            count = count + 1;
        }
        i = i + 1;
    }
    proof {
        model::take_all(v);
    }
    count
}

/// The difficulty after a window of ten blocks that should hold ten mine actions: one bit more from
/// twenty on, two from forty on; one bit less at five or fewer, two at two or fewer; within one and
/// thirty-two bits.
pub proof fn difficulty_follows_the_mine_actions(current: u32, mine_actions: nat)
    ensures
        ({
            let wanted = current + if mine_actions >= 40 {
                2int
            } else if mine_actions >= 20 {
                1
            } else if mine_actions > 5 {
                0
            } else if mine_actions > 2 {
                -1
            } else {
                -2
            };
            let next = retargeted_bits(current, mine_actions);
            &&& (wanted < 1 ==> next == 1)
            &&& (wanted > 32 ==> next == 32)
            &&& (1 <= wanted <= 32 ==> next == wanted)
        }),
{
    reveal_with_fuel(doublings_within, 5);
}

/// The mine actions are counted each once.
pub proof fn mine_actions_are_counted(transactions: Seq<TransactionView>)
    ensures
        mine_actions_in(transactions) == transactions.filter(|t: TransactionView| t is Mine).len(),
    decreases transactions.len(),
{
    let p = |t: TransactionView| t is Mine;
    if transactions.len() == 0 {
        model::filter_empty(p);
        assert(transactions =~= Seq::<TransactionView>::empty());
    } else {
        mine_actions_are_counted(transactions.drop_last());
        assert(transactions =~= transactions.drop_last().push(transactions.last()));
        model::filter_push(transactions.drop_last(), transactions.last(), p);
    }
}

} // verus!
