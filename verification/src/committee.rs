//! The reveal committee of a block, its bundles, and the ranking of finalizers.
use crate::acceptance;
use crate::blinded;
use crate::blinded::{
    BlindedReveal, BlindedRevealView, RevealBundle, RevealBundlePayload, RevealBundlePayloadView,
    RevealBundleView, RevealCommitteeMember, RevealCommitteeMemberView, MAX_REVEAL_BUNDLE_BYTES,
};
use crate::block;
use crate::block::{Block, BlockView};
use crate::bundling;
use crate::document;
use crate::error;
use crate::error::Error;
use crate::genesis::AllocationsView;
use crate::ledger::{ActiveView, Ledger, LedgerView};
use crate::model;
use crate::model::Model;
use crate::replay;
use crate::sorted;
use crate::sorted::SortedMap;
use crate::text;
use crate::tickets;
use crate::tickets::{BurnLeaderRank, BurnLeaderRankView, BurnTicket, BurnTicketView, LaunchProfileView};
use crate::transaction::{Amount, Transaction, TransactionView};
use crate::wallet;
use crate::wallet::Wallet;
use vstd::prelude::*;
use vstd::string::*;

verus! {

/// A committee member: the holder of the ticket at a place of the ranking.
pub open spec fn member_at(ranked: Seq<BurnTicketView>, first: nat, slot: nat) -> RevealCommitteeMemberView {
    let t = ranked[(first + slot) as int];
    RevealCommitteeMemberView {
        slot: slot as u8,
        rank: (first + slot) as u32,
        ticket_id: t.id,
        owner: t.owner,
        amount: t.amount,
    }
}

/// The holders of the last three tickets of a ranking. Places beyond the range of ranks are left
/// out.
pub open spec fn last_three(ranked: Seq<BurnTicketView>) -> Seq<RevealCommitteeMemberView> {
    let first = if ranked.len() < 3 {
        0
    } else {
        (ranked.len() - 3) as nat
    };
    members(ranked, first, (ranked.len() - first) as nat)
}

pub open spec fn members(ranked: Seq<BurnTicketView>, first: nat, count: nat) -> Seq<RevealCommitteeMemberView>
    decreases count,
{
    if count == 0 {
        Seq::<RevealCommitteeMemberView>::empty()
    } else {
        let earlier = members(ranked, first, (count - 1) as nat);
        if first + count - 1 <= u32::MAX {
            earlier.push(member_at(ranked, first, (count - 1) as nat))
        } else {
            earlier
        }
    }
}

/// The first member with an owner.
pub open spec fn member_of(committee: Seq<RevealCommitteeMemberView>, owner: Seq<char>) -> Option<
    RevealCommitteeMemberView,
>
    decreases committee.len(),
{
    if committee.len() == 0 {
        None
    } else {
        match member_of(committee.drop_last(), owner) {
            Some(m) => Some(m),
            None => if committee.last().owner == owner {
                Some(committee.last())
            } else {
                None
            },
        }
    }
}

/// The last member with a slot.
pub open spec fn member_in_slot(committee: Seq<RevealCommitteeMemberView>, slot: u8) -> Option<
    RevealCommitteeMemberView,
>
    decreases committee.len(),
{
    if committee.len() == 0 {
        None
    } else if committee.last().slot == slot {
        Some(committee.last())
    } else {
        member_in_slot(committee.drop_last(), slot)
    }
}

impl LedgerView {
    /// The finalizers of the block at a height, in their order.
    pub open spec fn finalizers(self, height: u64) -> Seq<BurnTicketView> {
        tickets::ranked(self.tip(), height, self.tickets)
    }

    pub open spec fn next_height(self) -> u64 {
        (self.height() + 1) as u64
    }

    /// The reveal committee of the block at a height.
    pub open spec fn committee(self, height: u64) -> Seq<RevealCommitteeMemberView> {
        last_three(self.finalizers(height))
    }

    /// Fee rate and fee of the envelope that a reveal opens.
    pub open spec fn reveal_key(self, r: BlindedRevealView) -> (nat, Amount) {
        match sorted::lookup(self.active_blinded, r.commitment) {
            None => (0, 0),
            Some(active) => (
                rate(active.transaction.fee, document::size_of(document::blinded_doc(active.transaction))),
                active.transaction.fee,
            ),
        }
    }

    /// Whether one reveal goes before another in a bundle: the higher fee key, then the lower
    /// commitment.
    pub open spec fn reveal_before(self, a: BlindedRevealView, b: BlindedRevealView) -> bool {
        key_above(self.reveal_key(a), self.reveal_key(b)) || (self.reveal_key(a) == self.reveal_key(b)
            && text::text_before(a.commitment, b.commitment))
    }

    /// A list with a reveal put after those that do not come after it.
    pub open spec fn placed(self, list: Seq<BlindedRevealView>, r: BlindedRevealView) -> Seq<BlindedRevealView> {
        list.filter(|e: BlindedRevealView| !self.reveal_before(r, e)) + seq![r] + list.filter(
            |e: BlindedRevealView| self.reveal_before(r, e),
        )
    }

    /// Reveals in the order of a bundle.
    pub open spec fn ordered_reveals(self, reveals: Seq<BlindedRevealView>) -> Seq<BlindedRevealView>
        decreases reveals.len(),
    {
        if reveals.len() == 0 {
            Seq::<BlindedRevealView>::empty()
        } else {
            self.placed(self.ordered_reveals(reveals.drop_last()), reveals.last())
        }
    }

    /// The bundle of a committee member for the next block, unsigned.
    pub open spec fn bundle_payload(self, slot: u8, member: Seq<char>, reveals: Seq<BlindedRevealView>) -> RevealBundlePayloadView {
        RevealBundlePayloadView {
            height: self.next_height(),
            prev_hash: self.tip().hash,
            slot,
            member,
            reveals,
        }
    }

    /// The reveals that fit a bundle, taken greedily in order.
    pub open spec fn fitting_reveals(self, reveals: Seq<BlindedRevealView>, slot: u8, seed: Seq<u8>) -> Seq<
        BlindedRevealView,
    >
        decreases reveals.len(),
    {
        if reveals.len() == 0 {
            Seq::<BlindedRevealView>::empty()
        } else {
            let chosen = self.fitting_reveals(reveals.drop_last(), slot, seed);
            let candidate = chosen.push(reveals.last());
            let bundle = block::signed_bundle(
                self.bundle_payload(slot, wallet::address_of(seed), candidate),
                seed,
            );
            if document::size_of(document::bundle_doc(bundle)) <= MAX_REVEAL_BUNDLE_BYTES {
                candidate
            } else {
                chosen
            }
        }
    }

    /// The bundle that a wallet contributes to the next block, if it is on the committee and has
    /// something to reveal.
    pub open spec fn own_bundle(self, seed: Seq<u8>) -> Option<RevealBundleView> {
        match member_of(self.committee(self.next_height()), wallet::address_of(seed)) {
            None => None,
            Some(member) => {
                let openable = self.pending_reveals.filter(|r: BlindedRevealView| self.opened_by(r) is Ok);
                let chosen = self.fitting_reveals(self.ordered_reveals(openable), member.slot, seed);
                if chosen.len() == 0 {
                    None
                } else {
                    Some(
                        block::signed_bundle(
                            self.bundle_payload(member.slot, wallet::address_of(seed), chosen),
                            seed,
                        ),
                    )
                }
            },
        }
    }

    /// The reveals of a bundle: none twice, each opening an envelope, in fee order.
    pub open spec fn bundle_reveals_check(self, reveals: Seq<BlindedRevealView>) -> Result<(), Seq<char>>
        decreases reveals.len(),
    {
        if reveals.len() == 0 {
            Ok(())
        } else {
            let earlier = reveals.drop_last();
            match self.bundle_reveals_check(earlier) {
                Err(e) => Err(e),
                Ok(_) => if block::reveals_commitment(earlier, reveals.last().commitment) {
                    Err("duplicate blinded reveal in reveal bundle"@)
                } else {
                    match self.opened_by(reveals.last()) {
                        Err(e) => Err(e),
                        Ok(_) => if earlier.len() > 0 && self.reveal_before(reveals.last(), earlier.last()) {
                            Err("reveal bundle is not fee ordered"@)
                        } else {
                            Ok(())
                        },
                    }
                },
            }
        }
    }

    /// One bundle of a block, given those before it.
    pub open spec fn bundle_check(
        self,
        height: u64,
        prev_hash: Seq<char>,
        earlier: Seq<RevealBundleView>,
        bundle: RevealBundleView,
    ) -> Result<(), Seq<char>> {
        if bundle.height != height {
            Err("reveal bundle height is invalid"@)
        } else if bundle.prev_hash != prev_hash {
            Err("reveal bundle parent hash is invalid"@)
        } else if bundle.slot >= 3 {
            Err("reveal bundle slot is invalid"@)
        } else if bundled_by(earlier, bundle.member) {
            Err("duplicate reveal bundle member"@)
        } else {
            match member_in_slot(self.committee(height), bundle.slot) {
                None => Err("reveal bundle slot is not assigned"@),
                Some(member) => if bundle.member != member.owner {
                    Err("reveal bundle member is not assigned to slot"@)
                } else if document::size_of(document::bundle_doc(bundle)) > MAX_REVEAL_BUNDLE_BYTES {
                    Err("reveal bundle exceeds max size"@)
                } else {
                    match tickets::address_signature_check(
                        bundle.member,
                        bundle.payload().canonical(),
                        bundle.signature,
                        "reveal bundle"@,
                    ) {
                        Err(e) => Err(e),
                        Ok(_) => self.bundle_reveals_check(bundle.reveals),
                    }
                },
            }
        }
    }

    pub open spec fn each_bundle_check(self, height: u64, prev_hash: Seq<char>, bundles: Seq<RevealBundleView>) -> Result<
        (),
        Seq<char>,
    >
        decreases bundles.len(),
    {
        if bundles.len() == 0 {
            Ok(())
        } else {
            match self.each_bundle_check(height, prev_hash, bundles.drop_last()) {
                Err(e) => Err(e),
                Ok(_) => self.bundle_check(height, prev_hash, bundles.drop_last(), bundles.last()),
            }
        }
    }

    /// The bundles of a block: at most three, by slot, each signed by the member of its slot.
    pub open spec fn bundles_check(self, height: u64, prev_hash: Seq<char>, bundles: Seq<RevealBundleView>) -> Result<
        (),
        Seq<char>,
    > {
        if bundles.len() > 3 {
            Err("block has too many reveal bundles"@)
        } else if !slots_increase(bundles) {
            Err("reveal bundles are not in slot order"@)
        } else {
            self.each_bundle_check(height, prev_hash, bundles)
        }
    }
}

/// Whether one of the bundles is of a member.
pub open spec fn bundled_by(bundles: Seq<RevealBundleView>, member: Seq<char>) -> bool {
    exists|i: int| 0 <= i < bundles.len() && (#[trigger] bundles[i]).member == member
}

/// Whether the slots increase from each bundle to the next.
pub open spec fn slots_increase(bundles: Seq<RevealBundleView>) -> bool
    decreases bundles.len(),
{
    bundles.len() < 2 || (slots_increase(bundles.drop_last()) && bundles[bundles.len() - 2].slot
        < bundles.last().slot)
}

/// Micro-units of fee for a million bytes.
pub open spec fn rate(fee: Amount, size: nat) -> nat {
    if size == 0 {
        0
    } else {
        fee as nat * 1_000_000 / size
    }
}

pub open spec fn key_above(a: (nat, Amount), b: (nat, Amount)) -> bool {
    a.0 > b.0 || (a.0 == b.0 && a.1 > b.1)
}

proof fn member_of_found(committee: Seq<RevealCommitteeMemberView>, owner: Seq<char>, n: int)
    requires
        0 <= n < committee.len(),
        member_of(committee.take(n), owner) is None,
        committee[n].owner == owner,
    ensures
        member_of(committee, owner) == Some(committee[n]),
    decreases committee.len(),
{
    if n < committee.len() - 1 {
        assert(committee.drop_last().take(n) =~= committee.take(n));
        member_of_found(committee.drop_last(), owner, n);
    } else {
        assert(committee.drop_last() =~= committee.take(n));
    }
}

fn find_member(committee: &Vec<RevealCommitteeMember>, owner: &str) -> (r: Option<u8>)
    ensures
        match r {
            Some(slot) => member_of(committee.deep_view(), owner@) matches Some(m) && m.slot == slot,
            None => member_of(committee.deep_view(), owner@) is None,
        },
{
    let ghost v = committee.deep_view();
    let mut i: usize = 0;
    proof {
        model::take_all(v);
    }
    while i < committee.len()
        invariant
            i <= committee.len(),
            v == committee.deep_view(),
            member_of(v.take(i as int), owner@) is None,
        decreases committee.len() - i,
    {
        if text::text_eq(committee[i].owner.as_str(), owner) {
            proof {
                member_of_found(v, owner@, i as int);
            }
            return Some(committee[i].slot);
        }
        proof {
            assert(v.take(i + 1).drop_last() =~= v.take(i as int));
        }
        i = i + 1;
    }
    proof {
        model::take_all(v);
    }
    None
}

fn find_slot(committee: &Vec<RevealCommitteeMember>, slot: u8) -> (r: Option<&RevealCommitteeMember>)
    ensures
        r.deep_view() == member_in_slot(committee.deep_view(), slot),
{
    let ghost v = committee.deep_view();
    let mut i: usize = committee.len();
    proof {
        model::take_all(v);
    }
    while i > 0
        invariant
            i <= committee.len(),
            v == committee.deep_view(),
            member_in_slot(v, slot) == member_in_slot(v.take(i as int), slot),
        decreases i,
    {
        i = i - 1;
        proof {
            assert(v.take(i + 1).drop_last() =~= v.take(i as int));
            assert(v.take(i + 1).last() == v[i as int]);
        }
        if committee[i].slot == slot {
            return Some(&committee[i]);
        }
    }
    None
}

fn increasing_slots(bundles: &Vec<RevealBundle>) -> (r: bool)
    ensures
        r == slots_increase(bundles.deep_view()),
{
    let ghost v = bundles.deep_view();
    let mut i: usize = 1;
    if bundles.len() < 2 {
        return true;
    }
    proof {
        assert(slots_increase(v.take(1)));
    }
    while i < bundles.len()
        invariant
            1 <= i <= bundles.len(),
            v == bundles.deep_view(),
            slots_increase(v.take(i as int)),
        decreases bundles.len() - i,
    {
        proof {
            assert(v.take(i + 1).drop_last() =~= v.take(i as int));
        }
        if bundles[i - 1].slot >= bundles[i].slot {
            proof {
                assert(!slots_increase(v.take(i + 1)));
                slots_increase_prefix(v, i + 1);
            }
            return false;
        }
        i = i + 1;
    }
    proof {
        model::take_all(v);
    }
    true
}

proof fn slots_increase_prefix(bundles: Seq<RevealBundleView>, n: int)
    requires
        0 <= n <= bundles.len(),
        !slots_increase(bundles.take(n)),
    ensures
        !slots_increase(bundles),
    decreases bundles.len(),
{
    if n < bundles.len() {
        assert(bundles.drop_last().take(n) =~= bundles.take(n));
        slots_increase_prefix(bundles.drop_last(), n);
    } else {
        model::take_all(bundles);
    }
}

impl Ledger {
    /// The reveal committee of the block at a height.
    pub fn reveal_committee_for_height(&self, height: u64) -> (r: Vec<RevealCommitteeMember>)
        requires
            self.wf(),
        ensures
            r.deep_view() == self.deep_view().committee(height),
    {
        broadcast use model::group_views;

        let ranked = tickets::ranked_tickets_for_height(self.tip(), height, &self.tickets);
        let ghost v = ranked.deep_view();
        let first: usize = if ranked.len() < 3 {
            0
        } else {
            ranked.len() - 3
        };
        let mut out: Vec<RevealCommitteeMember> = Vec::new();
        let mut i: usize = first;
        while i < ranked.len()
            invariant
                first <= i <= ranked.len(),
                ranked.len() - first <= 3,
                v == ranked.deep_view(),
                out.deep_view() == members(v, first as nat, (i - first) as nat),
            decreases ranked.len() - i,
        {
            let slot: usize = i - first;
            if i as u64 <= u32::MAX as u64 {
                let t = &ranked[i];
                let ghost before = out.deep_view();
                out.push(
                    RevealCommitteeMember {
                        slot: slot as u8,
                        rank: i as u32,
                        ticket_id: t.id.clone(),
                        owner: t.owner.clone(),
                        amount: t.amount,
                    },
                );
                assert(out.deep_view() =~= before.push(member_at(v, first as nat, slot as nat)));
            }
            i = i + 1;
        }
        out
    }

    /// The reveal committee of the next block.
    pub fn reveal_committee_for_next_block(&self) -> (r: Vec<RevealCommitteeMember>)
        requires
            self.wf(),
        ensures
            r.deep_view() == self.deep_view().committee(self.deep_view().next_height()),
    {
        self.reveal_committee_for_height(self.height() + 1)
    }

    fn reveal_fee_order_key(&self, reveal: &BlindedReveal) -> (r: (u128, Amount))
        requires
            self.wf(),
        ensures
            (r.0 as nat, r.1) == self.deep_view().reveal_key(reveal.deep_view()),
    {
        match self.active_blinded.get(&reveal.commitment) {
            None => (0, 0),
            Some(active) => {
                let size: usize = active.transaction.fee_rate_size_bytes();
                let rate: u128 = if size == 0 {
                    0
                } else {
                    active.transaction.fee as u128 * 1_000_000 / size as u128
                };
                (rate, active.transaction.fee)
            },
        }
    }

    fn reveal_goes_before(&self, a: &BlindedReveal, b: &BlindedReveal) -> (r: bool)
        requires
            self.wf(),
        ensures
            r == self.deep_view().reveal_before(a.deep_view(), b.deep_view()),
    {
        let x = self.reveal_fee_order_key(a);
        let y = self.reveal_fee_order_key(b);
        if x.0 != y.0 {
            x.0 > y.0
        } else if x.1 != y.1 {
            x.1 > y.1
        } else {
            text::text_precedes(a.commitment.as_str(), b.commitment.as_str())
        }
    }

    fn place_reveal(&self, list: &Vec<BlindedReveal>, reveal: &BlindedReveal) -> (r: Vec<BlindedReveal>)
        requires
            self.wf(),
        ensures
            r.deep_view() == self.deep_view().placed(list.deep_view(), reveal.deep_view()),
    {
        broadcast use model::group_views;

        let ghost v = list.deep_view();
        let ghost l = self.deep_view();
        let ghost x = reveal.deep_view();
        let ghost p = |e: BlindedRevealView| !l.reveal_before(x, e);
        let ghost q = |e: BlindedRevealView| l.reveal_before(x, e);
        let mut front: Vec<BlindedReveal> = Vec::new();
        let mut back: Vec<BlindedReveal> = Vec::new();
        let mut i: usize = 0;
        proof {
            model::take_all(v);
            model::filter_empty(p);
            model::filter_empty(q);
        }
        while i < list.len()
            invariant
                i <= list.len(),
                self.wf(),
                v == list.deep_view(),
                l == self.deep_view(),
                x == reveal.deep_view(),
                p == (|e: BlindedRevealView| !l.reveal_before(x, e)),
                q == (|e: BlindedRevealView| l.reveal_before(x, e)),
                front.deep_view() == v.take(i as int).filter(p),
                back.deep_view() == v.take(i as int).filter(q),
            decreases list.len() - i,
        {
            proof {
                model::take_step(v, i as int);
                model::filter_push(v.take(i as int), v[i as int], p);
                model::filter_push(v.take(i as int), v[i as int], q);
            }
            if self.reveal_goes_before(reveal, &list[i]) {
                back.push(list[i].duplicate());
            } else {
                front.push(list[i].duplicate());
            }
            i = i + 1;
        }
        proof {
            model::take_all(v);
        }
        let ghost f = front.deep_view();
        front.push(reveal.duplicate());
        assert(front.deep_view() =~= f + seq![x]);
        front.append(&mut back);
        front
    }

    fn order_reveals(&self, reveals: &Vec<BlindedReveal>) -> (r: Vec<BlindedReveal>)
        requires
            self.wf(),
        ensures
            r.deep_view() == self.deep_view().ordered_reveals(reveals.deep_view()),
    {
        let ghost v = reveals.deep_view();
        let mut out: Vec<BlindedReveal> = Vec::new();
        let mut i: usize = 0;
        proof {
            model::take_all(v);
            assert(out.deep_view() =~= Seq::<BlindedRevealView>::empty());
        }
        while i < reveals.len()
            invariant
                i <= reveals.len(),
                self.wf(),
                v == reveals.deep_view(),
                out.deep_view() == self.deep_view().ordered_reveals(v.take(i as int)),
            decreases reveals.len() - i,
        {
            proof {
                assert(v.take(i + 1).drop_last() =~= v.take(i as int));
            }
            out = self.place_reveal(&out, &reveals[i]);
            i = i + 1;
        }
        proof {
            model::take_all(v);
        }
        out
    }

    fn signed_own_bundle(&self, wallet: &Wallet, slot: u8, reveals: Vec<BlindedReveal>) -> (r: RevealBundle)
        requires
            self.wf(),
        ensures
            r.deep_view() == block::signed_bundle(
                self.deep_view().bundle_payload(
                    slot,
                    wallet::address_of(wallet.seed()),
                    reveals.deep_view(),
                ),
                wallet.seed(),
            ),
            acceptance::signs(wallet.seed(), r.deep_view().payload().canonical()),
    {
        wallet.reveal_bundle(
            RevealBundlePayload {
                height: self.height() + 1,
                prev_hash: self.tip().hash.clone(),
                slot,
                member: text::text(wallet.address()),
                reveals,
            },
        )
    }

    /// The bundle that a wallet contributes to the next block, if it is on the committee and has
    /// something to reveal.
    pub fn build_reveal_bundle(&self, wallet: &Wallet) -> (r: Result<Option<RevealBundle>, Error>)
        requires
            self.wf(),
        ensures
            error::outcome(r) == Ok::<Option<RevealBundleView>, Seq<char>>(
                self.deep_view().own_bundle(wallet.seed()),
            ),
            r matches Ok(Some(b)) ==> {
                let l = self.deep_view();
                &&& l.bundles_check(l.next_height(), l.tip().hash, seq![b.deep_view()]) is Ok
                &&& b.reveals.deep_view().len() > 0
                &&& forall|i: int|
                    0 <= i < b.reveals.deep_view().len() ==> l.pending_reveals.contains(
                        #[trigger] b.reveals.deep_view()[i],
                    )
            },
    {
        let committee = self.reveal_committee_for_next_block();
        let slot: u8 = match find_member(&committee, wallet.address()) {
            Some(slot) => slot,
            None => return Ok(None),
        };
        let openable = self.valid_pending_blinded_reveals();
        let ordered = self.order_reveals(&openable);
        let ghost v = ordered.deep_view();
        let mut chosen: Vec<BlindedReveal> = Vec::new();
        let mut i: usize = 0;
        proof {
            model::take_all(v);
            assert(chosen.deep_view() =~= Seq::<BlindedRevealView>::empty());
        }
        while i < ordered.len()
            invariant
                i <= ordered.len(),
                self.wf(),
                v == ordered.deep_view(),
                chosen.deep_view() == self.deep_view().fitting_reveals(v.take(i as int), slot, wallet.seed()),
            decreases ordered.len() - i,
        {
            proof {
                assert(v.take(i + 1).drop_last() =~= v.take(i as int));
                assert(v.take(i + 1).last() == v[i as int]);
            }
            let ghost before = chosen.deep_view();
            let mut candidate = chosen.duplicate();
            candidate.push(ordered[i].duplicate());
            assert(candidate.deep_view() =~= before.push(v[i as int]));
            let bundle = self.signed_own_bundle(wallet, slot, candidate.duplicate());
            if bundle.serialized_size_bytes()? <= MAX_REVEAL_BUNDLE_BYTES {
                chosen = candidate;
            }
            i = i + 1;
        }
        proof {
            model::take_all(v);
        }
        if chosen.len() == 0 {
            return Ok(None);
        }
        let bundle = self.signed_own_bundle(wallet, slot, chosen);
        proof {
            bundling::own_bundle_is_accepted(self.deep_view(), wallet.seed(), bundle.deep_view());
        }
        Ok(Some(bundle))
    }

    fn validate_bundle_reveals(&self, reveals: &Vec<BlindedReveal>) -> (r: Result<(), Error>)
        requires
            self.wf(),
        ensures
            error::outcome(r) == self.deep_view().bundle_reveals_check(reveals.deep_view()),
    {
        let ghost v = reveals.deep_view();
        let ghost l = self.deep_view();
        let mut i: usize = 0;
        proof {
            model::take_all(v);
        }
        while i < reveals.len()
            invariant
                i <= reveals.len(),
                self.wf(),
                v == reveals.deep_view(),
                l == self.deep_view(),
                l.bundle_reveals_check(v.take(i as int)) is Ok,
            decreases reveals.len() - i,
        {
            proof {
                assert(v.take(i + 1).drop_last() =~= v.take(i as int));
                assert(v.take(i + 1).last() == v[i as int]);
                if l.bundle_reveals_check(v.take(i + 1)) is Err {
                    bundle_reveals_check_stops(l, v, i + 1);
                }
            }
            let mut j: usize = 0;
            while j < i
                invariant
                    j <= i < reveals.len(),
                    v == reveals.deep_view(),
                    l == self.deep_view(),
                    l.bundle_reveals_check(v.take(i as int)) is Ok,
                    v.take(i + 1).drop_last() == v.take(i as int),
                    v.take(i + 1).last() == v[i as int],
                    l.bundle_reveals_check(v.take(i + 1)) is Err ==> l.bundle_reveals_check(v)
                        == l.bundle_reveals_check(v.take(i + 1)),
                    forall|k: int| 0 <= k < j ==> (#[trigger] v[k]).commitment != v[i as int].commitment,
                decreases i - j,
            {
                if reveals[j].commitment.same(&reveals[i].commitment) {
                    assert(v.take(i as int)[j as int].commitment == v[i as int].commitment);
                    assert(block::reveals_commitment(v.take(i as int), v[i as int].commitment));
                    return Err(Error::new("duplicate blinded reveal in reveal bundle"));
                }
                j = j + 1;
            }
            assert(!block::reveals_commitment(v.take(i as int), v[i as int].commitment)) by {
                if block::reveals_commitment(v.take(i as int), v[i as int].commitment) {
                    let k = choose|k: int|
                        0 <= k < v.take(i as int).len() && (#[trigger] v.take(i as int)[k]).commitment
                            == v[i as int].commitment;
                    assert(v[k].commitment == v[i as int].commitment);
                }
            }
            let _ = self.pending_reveal_transaction(&reveals[i])?;
            if i > 0 && self.reveal_goes_before(&reveals[i], &reveals[i - 1]) {
                return Err(Error::new("reveal bundle is not fee ordered"));
            }
            i = i + 1;
        }
        proof {
            model::take_all(v);
        }
        Ok(())
    }

    fn validate_bundle(
        &self,
        height: u64,
        prev_hash: &str,
        committee: &Vec<RevealCommitteeMember>,
        bundles: &Vec<RevealBundle>,
        i: usize,
    ) -> (r: Result<(), Error>)
        requires
            self.wf(),
            i < bundles.len(),
            committee.deep_view() == self.deep_view().committee(height),
        ensures
            error::outcome(r) == self.deep_view().bundle_check(
                height,
                prev_hash@,
                bundles.deep_view().take(i as int),
                bundles.deep_view()[i as int],
            ),
    {
        let bundle = &bundles[i];
        if bundle.height != height {
            return Err(Error::new("reveal bundle height is invalid"));
        }
        if !text::text_eq(bundle.prev_hash.as_str(), prev_hash) {
            return Err(Error::new("reveal bundle parent hash is invalid"));
        }
        if bundle.slot >= 3 {
            return Err(Error::new("reveal bundle slot is invalid"));
        }
        if member_bundled(bundles, i) {
            return Err(Error::new("duplicate reveal bundle member"));
        }
        let member = match find_slot(committee, bundle.slot) {
            Some(m) => m,
            None => return Err(Error::new("reveal bundle slot is not assigned")),
        };
        if !bundle.member.same(&member.owner) {
            return Err(Error::new("reveal bundle member is not assigned to slot"));
        }
        if bundle.serialized_size_bytes()? > MAX_REVEAL_BUNDLE_BYTES {
            return Err(Error::new("reveal bundle exceeds max size"));
        }
        let payload = bundle.canonical_payload();
        tickets::verify_address_signature(
            bundle.member.as_str(),
            payload.as_str(),
            bundle.signature.as_str(),
            "reveal bundle",
        )?;
        self.validate_bundle_reveals(&bundle.reveals)
    }

    /// Checks the bundles of a block.
    pub fn validate_reveal_bundles_for_block(
        &self,
        expected_height: u64,
        expected_prev_hash: &str,
        bundles: Vec<RevealBundle>,
    ) -> (r: Result<Vec<RevealBundle>, Error>)
        requires
            self.wf(),
        ensures
            error::outcome(r) == match self.deep_view().bundles_check(
                expected_height,
                expected_prev_hash@,
                bundles.deep_view(),
            ) {
                Ok(_) => Ok(bundles.deep_view()),
                Err(e) => Err(e),
            },
    {
        if bundles.len() > 3 {
            return Err(Error::new("block has too many reveal bundles"));
        }
        if !increasing_slots(&bundles) {
            return Err(Error::new("reveal bundles are not in slot order"));
        }
        let committee = self.reveal_committee_for_height(expected_height);
        let ghost v = bundles.deep_view();
        let ghost l = self.deep_view();
        let mut i: usize = 0;
        proof {
            model::take_all(v);
        }
        while i < bundles.len()
            invariant
                i <= bundles.len(),
                bundles.len() <= 3,
                slots_increase(v),
                self.wf(),
                v == bundles.deep_view(),
                l == self.deep_view(),
                committee.deep_view() == l.committee(expected_height),
                l.each_bundle_check(expected_height, expected_prev_hash@, v.take(i as int)) is Ok,
            decreases bundles.len() - i,
        {
            proof {
                assert(v.take(i + 1).drop_last() =~= v.take(i as int));
                assert(v.take(i + 1).last() == v[i as int]);
                if l.each_bundle_check(expected_height, expected_prev_hash@, v.take(i + 1)) is Err {
                    each_bundle_check_stops(l, expected_height, expected_prev_hash@, v, i + 1);
                }
            }
            self.validate_bundle(expected_height, expected_prev_hash, &committee, &bundles, i)?;
            i = i + 1;
        }
        proof {
            model::take_all(v);
        }
        Ok(bundles)
    }

    /// Checks bundles for the next block.
    pub fn validate_next_block_reveal_bundles(&self, bundles: Vec<RevealBundle>) -> (r: Result<
        Vec<RevealBundle>,
        Error,
    >)
        requires
            self.wf(),
        ensures
            error::outcome(r) == match self.deep_view().bundles_check(
                self.deep_view().next_height(),
                self.deep_view().tip().hash,
                bundles.deep_view(),
            ) {
                Ok(_) => Ok(bundles.deep_view()),
                Err(e) => Err(e),
            },
    {
        self.validate_reveal_bundles_for_block(self.height() + 1, self.tip().hash.as_str(), bundles)
    }
}

fn member_bundled(bundles: &Vec<RevealBundle>, count: usize) -> (r: bool)
    requires
        count < bundles.len(),
    ensures
        r == bundled_by(bundles.deep_view().take(count as int), bundles.deep_view()[count as int].member),
{
    let ghost v = bundles.deep_view();
    let mut i: usize = 0;
    while i < count
        invariant
            i <= count < bundles.len(),
            v == bundles.deep_view(),
            forall|j: int| 0 <= j < i ==> (#[trigger] v[j]).member != v[count as int].member,
        decreases count - i,
    {
        if bundles[i].member.same(&bundles[count].member) {
            assert(v.take(count as int)[i as int].member == v[count as int].member);
            return true;
        }
        i = i + 1;
    }
    assert(!bundled_by(v.take(count as int), v[count as int].member)) by {
        if bundled_by(v.take(count as int), v[count as int].member) {
            let j = choose|j: int|
                0 <= j < v.take(count as int).len() && (#[trigger] v.take(count as int)[j]).member
                    == v[count as int].member;
            assert(v[j].member == v[count as int].member);
        }
    }
    false
}

proof fn bundle_reveals_check_stops(l: LedgerView, reveals: Seq<BlindedRevealView>, n: int)
    requires
        0 <= n <= reveals.len(),
        l.bundle_reveals_check(reveals.take(n)) is Err,
    ensures
        l.bundle_reveals_check(reveals) == l.bundle_reveals_check(reveals.take(n)),
    decreases reveals.len(),
{
    if n < reveals.len() {
        assert(reveals.drop_last().take(n) =~= reveals.take(n));
        bundle_reveals_check_stops(l, reveals.drop_last(), n);
    } else {
        model::take_all(reveals);
    }
}

proof fn each_bundle_check_stops(
    l: LedgerView,
    height: u64,
    prev_hash: Seq<char>,
    bundles: Seq<RevealBundleView>,
    n: int,
)
    requires
        0 <= n <= bundles.len(),
        l.each_bundle_check(height, prev_hash, bundles.take(n)) is Err,
    ensures
        l.each_bundle_check(height, prev_hash, bundles) == l.each_bundle_check(height, prev_hash, bundles.take(n)),
    decreases bundles.len(),
{
    if n < bundles.len() {
        assert(bundles.drop_last().take(n) =~= bundles.take(n));
        each_bundle_check_stops(l, height, prev_hash, bundles.drop_last(), n);
    } else {
        model::take_all(bundles);
    }
}

/// The transactions that were revealed.
pub open spec fn revealed_transactions(revealed: Seq<blinded::RevealedBlindedTransactionView>) -> Seq<TransactionView> {
    Seq::new(revealed.len(), |i: int| revealed[i].transaction)
}

/// The transactions that were revealed.
pub fn transactions_of(revealed: &Vec<blinded::RevealedBlindedTransaction>) -> (r: Vec<Transaction>)
    ensures
        r.deep_view() == revealed_transactions(revealed.deep_view()),
{
    let mut out: Vec<Transaction> = Vec::new();
    let mut i: usize = 0;
    while i < revealed.len()
        invariant
            i <= revealed.len(),
            out@.len() == i,
            forall|j: int| 0 <= j < i ==> (#[trigger] out@[j]).deep_view() == revealed@[j].transaction.deep_view(),
        decreases revealed.len() - i,
    {
        out.push(revealed[i].transaction.duplicate());
        i = i + 1;
    }
    assert(out.deep_view() =~= revealed_transactions(revealed.deep_view()));
    out
}

/// Tickets and envelopes while a chain is replayed.
pub struct ReplayState {
    pub tickets: Vec<BurnTicket>,
    pub active: replay::Actives,
}

/// What one block does to tickets and envelopes.
pub open spec fn replayed_block(
    block: BlockView,
    held: Seq<BurnTicketView>,
    active: ActiveView,
    profile: LaunchProfileView,
) -> Result<(Seq<BurnTicketView>, ActiveView), Seq<char>> {
    match tickets::tickets_after(block, held) {
        Err(e) => Err(e),
        Ok(kept) => match tickets::created_tickets(block.height, block.transactions, profile) {
            Err(e) => Err(e),
            Ok(created) => match replay::opening(active, block.all_reveals(), block.height) {
                Err(e) => Err(e),
                Ok((revealed, left)) => match tickets::created_tickets(
                    block.height,
                    revealed_transactions(revealed),
                    profile,
                ) {
                    Err(e) => Err(e),
                    Ok(more) => Ok((kept + created + more, replay::actives_after(left, block))),
                },
            },
        },
    }
}

/// Tickets and envelopes after the first `count` blocks of a chain.
pub open spec fn replayed_chain(
    chain: Seq<BlockView>,
    allocations: AllocationsView,
    profile: LaunchProfileView,
    count: nat,
) -> Result<(Seq<BurnTicketView>, ActiveView), Seq<char>>
    decreases count,
{
    if count <= 1 {
        match tickets::initial_tickets(allocations, chain[0], profile) {
            Err(e) => Err(e),
            Ok(initial) => Ok((initial, Seq::<(Seq<char>, blinded::ActiveBlindedTransactionView)>::empty())),
        }
    } else {
        match replayed_chain(chain, allocations, profile, (count - 1) as nat) {
            Err(e) => Err(e),
            Ok((held, active)) => replayed_block(chain[count - 1], held, active, profile),
        }
    }
}

impl LedgerView {
    /// Tickets and envelopes after the first `count` blocks.
    pub open spec fn replayed(self, count: nat) -> Result<(Seq<BurnTicketView>, ActiveView), Seq<char>> {
        replayed_chain(self.chain, self.genesis_allocations, self.launch_profile, count)
    }

    /// The finalizers of the block at a height, as the chain stood before it.
    pub open spec fn leader_ranks(self, height: u64) -> Result<Seq<BurnLeaderRankView>, Seq<char>> {
        if height == 0 {
            Ok(Seq::<BurnLeaderRankView>::empty())
        } else if height > self.chain.len() {
            Err("missing parent block for height "@ + text::decimal(height as nat))
        } else {
            match self.replayed(height as nat) {
                Err(e) => Err(e),
                Ok((held, _)) => {
                    let ranked = tickets::ranked(self.chain[height - 1], height, held);
                    Ok(Seq::new(ranked.len(), |i: int| leader_rank(ranked[i], i)))
                },
            }
        }
    }
}

pub open spec fn leader_rank(t: BurnTicketView, rank: int) -> BurnLeaderRankView {
    BurnLeaderRankView {
        rank: rank as u32,
        ticket_id: t.id,
        owner: t.owner,
        amount: t.amount,
        eligible_from_height: t.eligible_from_height,
        eligible_until_height: t.eligible_until_height,
    }
}

fn replay_block(block: &Block, state: ReplayState, profile: &tickets::LaunchProfile) -> (r: Result<ReplayState, Error>)
    requires
        state.active.wf(),
    ensures
        match r {
            Ok(s) => s.active.wf() && replayed_block(
                block.deep_view(),
                state.tickets.deep_view(),
                state.active.deep_view(),
                profile.deep_view(),
            ) == Ok::<(Seq<BurnTicketView>, ActiveView), Seq<char>>(
                (s.tickets.deep_view(), s.active.deep_view()),
            ),
            Err(e) => replayed_block(
                block.deep_view(),
                state.tickets.deep_view(),
                state.active.deep_view(),
                profile.deep_view(),
            ) == Err::<(Seq<BurnTicketView>, ActiveView), Seq<char>>(e.deep_view()),
        },
{
    broadcast use model::group_views;

    let mut active = state.active;
    let mut held = tickets::apply_finalizer_ticket_effects(block, &state.tickets)?;
    let ghost kept = held.deep_view();
    let mut created = tickets::tickets_created_by_block(block, profile)?;
    let ghost made = created.deep_view();
    let revealed = replay::open_block_reveals(&mut active, block)?;
    let transactions = transactions_of(&revealed);
    let mut more = tickets::tickets_created_by_transactions(block.height, &transactions, profile)?;
    let ghost added = more.deep_view();
    held.append(&mut created);
    assert(held.deep_view() =~= kept + made);
    held.append(&mut more);
    assert(held.deep_view() =~= kept + made + added);
    let next = replay::actives_after_block(&active, block);
    Ok(ReplayState { tickets: held, active: next })
}

proof fn replayed_stops(l: LedgerView, n: nat, m: nat)
    requires
        1 <= n <= m,
        l.replayed(n) is Err,
    ensures
        l.replayed(m) == l.replayed(n),
    decreases m - n,
{
    if n < m {
        replayed_stops(l, n, (m - 1) as nat);
    }
}

impl Ledger {
    /// The finalizers of the block at a height, as the chain stood before it.
    pub fn burn_leader_ranks_for_block(&self, height: u64) -> (r: Result<Vec<BurnLeaderRank>, Error>)
        requires
            self.wf(),
        ensures
            error::outcome(r) == self.deep_view().leader_ranks(height),
    {
        let ghost l = self.deep_view();
        if height == 0 {
            let none: Vec<BurnLeaderRank> = Vec::new();
            assert(none.deep_view() =~= Seq::<BurnLeaderRankView>::empty());
            return Ok(none);
        }
        if height > self.chain.len() as u64 {
            let mut message = text::text("missing parent block for height ");
            text::push_decimal(&mut message, height as u128);
            return Err(Error::of(message));
        }
        let initial = match tickets::genesis_tickets(
            &self.genesis_allocations,
            &self.chain[0],
            &self.launch_profile,
        ) {
            Ok(initial) => initial,
            Err(e) => {
                proof {
                    replayed_stops(l, 1, height as nat);
                }
                return Err(e);
            },
        };
        let mut state = ReplayState { tickets: initial, active: SortedMap::new() };
        let mut i: usize = 1;
        while i < height as usize
            invariant
                1 <= i <= height <= self.chain.len(),
                l == self.deep_view(),
                state.active.wf(),
                l.replayed(i as nat) == Ok::<(Seq<BurnTicketView>, ActiveView), Seq<char>>(
                    (state.tickets.deep_view(), state.active.deep_view()),
                ),
            decreases height - i,
        {
            proof {
                assert(l.chain[i as int] == self.chain@[i as int].deep_view());
                if l.replayed((i + 1) as nat) is Err {
                    replayed_stops(l, (i + 1) as nat, height as nat);
                }
            }
            state = replay_block(&self.chain[i], state, &self.launch_profile)?;
            i = i + 1;
        }
        let ranked = tickets::ranked_tickets_for_height(
            &self.chain[height as usize - 1],
            height,
            &state.tickets,
        );
        let mut out: Vec<BurnLeaderRank> = Vec::new();
        let mut k: usize = 0;
        while k < ranked.len()
            invariant
                k <= ranked.len(),
                out@.len() == k,
                forall|j: int|
                    0 <= j < k ==> (#[trigger] out@[j]).deep_view() == leader_rank(ranked@[j].deep_view(), j),
            decreases ranked.len() - k,
        {
            let t = &ranked[k];
            out.push(
                BurnLeaderRank {
                    rank: k as u32,
                    ticket_id: t.id.clone(),
                    owner: t.owner.clone(),
                    amount: t.amount,
                    eligible_from_height: t.eligible_from_height,
                    eligible_until_height: t.eligible_until_height,
                },
            );
            k = k + 1;
        }
        let ghost v = ranked.deep_view();
        assert(out.deep_view() =~= Seq::new(v.len(), |i: int| leader_rank(v[i], i)));
        Ok(out)
    }
}

} // verus!
