//! What a committee member bundles passes the checks on bundles.
use crate::acceptance;
use crate::blinded::{BlindedRevealView, RevealBundleView, RevealCommitteeMemberView, MAX_REVEAL_BUNDLE_BYTES};
use crate::block;
use crate::block::BlockView;
use crate::blocks;
use crate::committee;
use crate::crypto;
use crate::document;
use crate::hex;
use crate::ledger;
use crate::ledger::LedgerView;
use crate::mempool;
use crate::model;
use crate::text;
use crate::tickets::BurnTicketView;
use crate::wallet;
use vstd::prelude::*;
use vstd::utf8::*;

verus! {

/// Whether no commitment is revealed twice.
pub open spec fn distinct(reveals: Seq<BlindedRevealView>) -> bool {
    forall|i: int, k: int|
        0 <= i < k < reveals.len() ==> (#[trigger] reveals[i]).commitment != (#[trigger] reveals[k]).commitment
}

/// Whether reveals are in the order of a bundle.
pub open spec fn in_order(l: LedgerView, reveals: Seq<BlindedRevealView>) -> bool {
    forall|i: int, k: int|
        0 <= i < k < reveals.len() ==> !l.reveal_before(#[trigger] reveals[k], #[trigger] reveals[i])
}

/// Whether every reveal opens an envelope.
pub open spec fn all_open(l: LedgerView, reveals: Seq<BlindedRevealView>) -> bool {
    forall|i: int| 0 <= i < reveals.len() ==> l.opened_by(#[trigger] reveals[i]) is Ok
}

proof fn reveals_are_ordered(l: LedgerView, a: BlindedRevealView, b: BlindedRevealView, c: BlindedRevealView)
    ensures
        !(l.reveal_before(a, b) && l.reveal_before(b, a)),
        l.reveal_before(a, b) && l.reveal_before(b, c) ==> l.reveal_before(a, c),
{
    let x = encode_utf8(a.commitment);
    let y = encode_utf8(b.commitment);
    let z = encode_utf8(c.commitment);
    text::bytes_before_irreflexive(x);
    if text::bytes_before(x, y) && text::bytes_before(y, x) {
        text::bytes_before_transitive(x, y, x);
    }
    if text::bytes_before(x, y) && text::bytes_before(y, z) {
        text::bytes_before_transitive(x, y, z);
    }
}

pub(crate) proof fn filter_keeps_bundle(l: LedgerView, s: Seq<BlindedRevealView>, p: spec_fn(BlindedRevealView) -> bool)
    ensures
        distinct(s) ==> distinct(s.filter(p)),
        in_order(l, s) ==> in_order(l, s.filter(p)),
        all_open(l, s) ==> all_open(l, s.filter(p)),
{
    let f = s.filter(p);
    assert forall|i: int, k: int| 0 <= i < k < f.len() implies (distinct(s) ==> (#[trigger] f[i]).commitment != (
    #[trigger] f[k]).commitment) && (in_order(l, s) ==> !l.reveal_before(f[k], f[i])) by {
        model::filter_keeps_order(s, p, i, k);
        let (a, b) = choose|a: int, b: int|
            0 <= a < b < s.len() && #[trigger] s[a] == f[i] && #[trigger] s[b] == f[k];
        assert(distinct(s) ==> s[a].commitment != s[b].commitment);
        assert(in_order(l, s) ==> !l.reveal_before(s[b], s[a]));
    }
    assert forall|i: int| 0 <= i < f.len() && all_open(l, s) implies l.opened_by(#[trigger] f[i]) is Ok by {
        model::filter_keeps(s, p, i);
    }
}

/// What was placed is what was there, and the reveal.
proof fn placed_items(l: LedgerView, list: Seq<BlindedRevealView>, r: BlindedRevealView, n: int)
    requires
        0 <= n < l.placed(list, r).len(),
    ensures
        l.placed(list, r)[n] == r || list.contains(l.placed(list, r)[n]),
{
    let before = |e: BlindedRevealView| !l.reveal_before(r, e);
    let after = |e: BlindedRevealView| l.reveal_before(r, e);
    let k = list.filter(before).len();
    if n < k {
        model::filter_keeps(list, before, n);
    } else if n > k {
        model::filter_keeps(list, after, n - k - 1);
    }
}

proof fn placing_keeps_order(l: LedgerView, list: Seq<BlindedRevealView>, r: BlindedRevealView)
    requires
        in_order(l, list),
    ensures
        in_order(l, l.placed(list, r)),
{
    let before = |e: BlindedRevealView| !l.reveal_before(r, e);
    let after = |e: BlindedRevealView| l.reveal_before(r, e);
    let first = list.filter(before);
    let last = list.filter(after);
    let all = l.placed(list, r);
    assert(all == first + seq![r] + last);
    filter_keeps_bundle(l, list, before);
    filter_keeps_bundle(l, list, after);
    assert forall|i: int, k: int| 0 <= i < k < all.len() implies !l.reveal_before(
        #[trigger] all[k],
        #[trigger] all[i],
    ) by {
        let n = first.len();
        if i < n {
            model::filter_keeps(list, before, i);
            assert(all[i] == first[i]);
        }
        if k > n {
            model::filter_keeps(list, after, k - n - 1);
            assert(all[k] == last[k - n - 1]);
        }
        if k < n {
            assert(all[k] == first[k]);
        } else if i > n {
            assert(all[i] == last[i - n - 1]);
        } else {
            reveals_are_ordered(l, r, all[k], all[i]);
        }
    }
}

proof fn placing_keeps_distinct(l: LedgerView, list: Seq<BlindedRevealView>, r: BlindedRevealView)
    requires
        distinct(list),
        !block::reveals_commitment(list, r.commitment),
    ensures
        distinct(l.placed(list, r)),
{
    let before = |e: BlindedRevealView| !l.reveal_before(r, e);
    let after = |e: BlindedRevealView| l.reveal_before(r, e);
    let first = list.filter(before);
    let last = list.filter(after);
    let all = l.placed(list, r);
    assert(all == first + seq![r] + last);
    filter_keeps_bundle(l, list, before);
    filter_keeps_bundle(l, list, after);
    assert forall|i: int, k: int| 0 <= i < k < all.len() implies (#[trigger] all[i]).commitment != (
    #[trigger] all[k]).commitment by {
        let n = first.len();
        if i < n {
            model::filter_keeps(list, before, i);
            assert(all[i] == first[i]);
        }
        if k > n {
            model::filter_keeps(list, after, k - n - 1);
            assert(all[k] == last[k - n - 1]);
        }
        if k < n {
            assert(all[k] == first[k]);
        } else if i > n {
            assert(all[i] == last[i - n - 1]);
        } else if i < n && k > n {
            let a = choose|a: int| 0 <= a < list.len() && #[trigger] list[a] == first[i];
            let b = choose|b: int| 0 <= b < list.len() && #[trigger] list[b] == last[k - n - 1];
            assert(a != b);
            if a < b {
                assert(list[a].commitment != list[b].commitment);
            } else {
                assert(list[b].commitment != list[a].commitment);
            }
        }
    }
}

/// Putting reveals in order keeps them, and sorts them.
pub proof fn ordering_sorts(l: LedgerView, reveals: Seq<BlindedRevealView>)
    ensures
        in_order(l, l.ordered_reveals(reveals)),
        distinct(reveals) ==> distinct(l.ordered_reveals(reveals)),
        forall|i: int| 0 <= i < l.ordered_reveals(reveals).len() ==> reveals.contains(#[trigger] l.ordered_reveals(reveals)[i]),
    decreases reveals.len(),
{
    if reveals.len() > 0 {
        let earlier = reveals.drop_last();
        let list = l.ordered_reveals(earlier);
        let r = reveals.last();
        ordering_sorts(l, earlier);
        placing_keeps_order(l, list, r);
        if distinct(reveals) {
            assert forall|i: int, k: int| 0 <= i < k < earlier.len() implies (#[trigger] earlier[i]).commitment != (
            #[trigger] earlier[k]).commitment by {
                assert(reveals[i].commitment != reveals[k].commitment);
            }
            assert forall|i: int| 0 <= i < list.len() implies (#[trigger] list[i]).commitment != r.commitment by {
                let a = choose|a: int| 0 <= a < earlier.len() && earlier[a] == list[i];
                assert(reveals[a].commitment != reveals[reveals.len() - 1].commitment);
            }
            placing_keeps_distinct(l, list, r);
        }
        let all = l.ordered_reveals(reveals);
        assert forall|i: int| 0 <= i < all.len() implies reveals.contains(#[trigger] all[i]) by {
            placed_items(l, list, r, i);
            if all[i] == r {
                assert(reveals[reveals.len() - 1] == all[i]);
            } else {
                let b = choose|b: int| 0 <= b < list.len() && list[b] == all[i];
                let a = choose|a: int| 0 <= a < earlier.len() && earlier[a] == list[b];
                assert(reveals[a] == all[i]);
            }
        }
    }
}

/// What fits a bundle is in it, in order, and the bundle is not too long.
proof fn fitting_reveals_fit(l: LedgerView, reveals: Seq<BlindedRevealView>, slot: u8, seed: Seq<u8>)
    requires
        in_order(l, reveals),
        distinct(reveals),
    ensures
        ({
            let chosen = l.fitting_reveals(reveals, slot, seed);
            &&& in_order(l, chosen)
            &&& distinct(chosen)
            &&& forall|i: int| 0 <= i < chosen.len() ==> reveals.contains(#[trigger] chosen[i])
            &&& chosen.len() > 0 ==> document::size_of(
                document::bundle_doc(block::signed_bundle(l.bundle_payload(slot, wallet::address_of(seed), chosen), seed)),
            ) <= MAX_REVEAL_BUNDLE_BYTES
        }),
    decreases reveals.len(),
{
    if reveals.len() > 0 {
        let earlier = reveals.drop_last();
        let r = reveals.last();
        assert forall|i: int, k: int| 0 <= i < k < earlier.len() implies (#[trigger] earlier[i]).commitment != (
        #[trigger] earlier[k]).commitment && !l.reveal_before(earlier[k], earlier[i]) by {
            assert(reveals[i].commitment != reveals[k].commitment);
            assert(!l.reveal_before(reveals[k], reveals[i]));
        }
        fitting_reveals_fit(l, earlier, slot, seed);
        let before = l.fitting_reveals(earlier, slot, seed);
        let chosen = l.fitting_reveals(reveals, slot, seed);
        assert forall|i: int| 0 <= i < before.len() implies reveals.contains(#[trigger] before[i]) && before[i].commitment
            != r.commitment && !l.reveal_before(r, before[i]) by {
            let a = choose|a: int| 0 <= a < earlier.len() && earlier[a] == before[i];
            assert(reveals[a] == before[i]);
            assert(reveals[reveals.len() - 1] == r);
        }
        if chosen != before {
            assert(chosen == before.push(r));
            assert forall|i: int| 0 <= i < chosen.len() implies reveals.contains(#[trigger] chosen[i]) by {
                if i < before.len() {
                    assert(chosen[i] == before[i]);
                } else {
                    assert(reveals[reveals.len() - 1] == chosen[i]);
                }
            }
            assert forall|i: int, k: int| 0 <= i < k < chosen.len() implies (#[trigger] chosen[i]).commitment != (
            #[trigger] chosen[k]).commitment && !l.reveal_before(chosen[k], chosen[i]) by {
                assert(chosen[i] == before[i]);
                if k < before.len() {
                    assert(chosen[k] == before[k]);
                }
            }
        }
    }
}

proof fn sound_reveals_pass(l: LedgerView, reveals: Seq<BlindedRevealView>)
    requires
        in_order(l, reveals),
        distinct(reveals),
        all_open(l, reveals),
    ensures
        l.bundle_reveals_check(reveals) is Ok,
    decreases reveals.len(),
{
    if reveals.len() > 0 {
        let earlier = reveals.drop_last();
        let last = reveals.len() - 1;
        assert forall|i: int| 0 <= i < earlier.len() implies l.opened_by(#[trigger] earlier[i]) is Ok && earlier[i].commitment
            != reveals.last().commitment by {
            assert(l.opened_by(reveals[i]) is Ok);
            assert(reveals[i].commitment != reveals[last].commitment);
        }
        assert forall|i: int, k: int| 0 <= i < k < earlier.len() implies (#[trigger] earlier[i]).commitment != (
        #[trigger] earlier[k]).commitment && !l.reveal_before(earlier[k], earlier[i]) by {
            assert(reveals[i].commitment != reveals[k].commitment);
            assert(!l.reveal_before(reveals[k], reveals[i]));
        }
        sound_reveals_pass(l, earlier);
        assert(l.opened_by(reveals[last]) is Ok);
        if earlier.len() > 0 {
            assert(!l.reveal_before(reveals[last], reveals[last - 1]));
            assert(earlier.last() == reveals[last - 1]);
        }
    }
}

/// The members of a committee have the slots in turn.
proof fn slots_in_turn(ranked: Seq<BurnTicketView>, first: nat, count: nat)
    ensures
        committee::members(ranked, first, count).len() <= count,
        forall|i: int|
            0 <= i < committee::members(ranked, first, count).len() ==> #[trigger] committee::members(
                ranked,
                first,
                count,
            )[i] == committee::member_at(ranked, first, i as nat),
        first + count - 1 <= u32::MAX ==> committee::members(ranked, first, count).len() == count,
    decreases count,
{
    if count > 0 {
        slots_in_turn(ranked, first, (count - 1) as nat);
    }
}

/// A committee has at most three members, the slots of which are counted from zero.
pub proof fn committee_is_small(l: LedgerView, height: u64)
    ensures
        l.committee(height).len() <= 3,
        forall|i: int| 0 <= i < l.committee(height).len() ==> (#[trigger] l.committee(height)[i]).slot == i,
{
    let ranked = l.finalizers(height);
    let first: nat = if ranked.len() < 3 {
        0
    } else {
        (ranked.len() - 3) as nat
    };
    slots_in_turn(ranked, first, (ranked.len() - first) as nat);
}

proof fn member_of_is_there(members: Seq<RevealCommitteeMemberView>, owner: Seq<char>)
    ensures
        committee::member_of(members, owner) matches Some(m) ==> m.owner == owner && members.contains(m),
    decreases members.len(),
{
    if members.len() > 0 {
        member_of_is_there(members.drop_last(), owner);
        if let Some(m) = committee::member_of(members.drop_last(), owner) {
            let i = choose|i: int| 0 <= i < members.len() - 1 && members.drop_last()[i] == m;
            assert(members[i] == m);
        } else if members.last().owner == owner {
            assert(members[members.len() - 1] == members.last());
        }
    }
}

proof fn member_has_its_slot(members: Seq<RevealCommitteeMemberView>, n: int)
    requires
        0 <= n < members.len(),
        forall|i: int| 0 <= i < members.len() ==> (#[trigger] members[i]).slot == i,
    ensures
        committee::member_in_slot(members, members[n].slot) == Some(members[n]),
    decreases members.len(),
{
    if n < members.len() - 1 {
        let earlier = members.drop_last();
        assert forall|i: int| 0 <= i < earlier.len() implies (#[trigger] earlier[i]).slot == i by {
            assert(members[i].slot == i);
        }
        assert(members[members.len() - 1].slot == members.len() - 1);
        assert(members[n].slot == n);
        member_has_its_slot(earlier, n);
    }
}

/// The bundle that a committee member makes for the next block is not empty, holds pending reveals
/// only, and passes the checks on the bundles of the block.
pub proof fn own_bundle_is_accepted(l: LedgerView, seed: Seq<u8>, b: RevealBundleView)
    requires
        l.valid(),
        l.own_bundle(seed) == Some(b),
        acceptance::signs(seed, b.payload().canonical()),
    ensures
        l.bundles_check(l.next_height(), l.tip().hash, seq![b]) is Ok,
        b.reveals.len() > 0,
        forall|i: int| 0 <= i < b.reveals.len() ==> l.pending_reveals.contains(#[trigger] b.reveals[i]),
{
    reveal(ledger::reveals_differ);
    let height = l.next_height();
    let address = wallet::address_of(seed);
    let members = l.committee(height);
    member_of_is_there(members, address);
    committee_is_small(l, height);
    let member = committee::member_of(members, address)->0;
    let n = choose|n: int| 0 <= n < members.len() && members[n] == member;
    member_has_its_slot(members, n);
    let opens = |r: BlindedRevealView| l.opened_by(r) is Ok;
    let openable = l.pending_reveals.filter(opens);
    filter_keeps_bundle(l, l.pending_reveals, opens);
    ordering_sorts(l, openable);
    let ordered = l.ordered_reveals(openable);
    fitting_reveals_fit(l, ordered, member.slot, seed);
    let chosen = l.fitting_reveals(ordered, member.slot, seed);
    assert forall|i: int| 0 <= i < chosen.len() implies l.opened_by(#[trigger] chosen[i]) is Ok
        && l.pending_reveals.contains(chosen[i]) by {
        let a = choose|a: int| 0 <= a < ordered.len() && ordered[a] == chosen[i];
        let k = choose|k: int| 0 <= k < openable.len() && openable[k] == ordered[a];
        model::filter_keeps(l.pending_reveals, opens, k);
    }
    sound_reveals_pass(l, chosen);
    assert(b.reveals == chosen);
    assert(b.slot == n && n < 3);
    hex::decode_encode(crypto::ed25519_public_key(seed));
    hex::decode_encode(crypto::ed25519_signature(seed, encode_utf8(b.payload().canonical())));
    let payload = l.bundle_payload(member.slot, address, chosen);
    assert(b.payload() == payload);
    let one = seq![b];
    assert(one.drop_last() =~= Seq::<RevealBundleView>::empty());
    assert(one.last() == b);
    assert(l.each_bundle_check(height, l.tip().hash, one.drop_last()) is Ok);
    assert(l.bundle_check(height, l.tip().hash, one.drop_last(), b) is Ok);
}

/// No reveal waits twice, whatever is submitted.
pub proof fn submitting_keeps_reveals_distinct(l: LedgerView, r: BlindedRevealView)
    requires
        distinct(l.pending_reveals),
    ensures
        distinct(l.reveal_submitted(r).0.pending_reveals),
{
    let after = l.reveal_submitted(r).0.pending_reveals;
    if after != l.pending_reveals {
        assert(after == l.pending_reveals.push(r));
        assert forall|i: int, k: int| 0 <= i < k < after.len() implies (#[trigger] after[i]).commitment != (
        #[trigger] after[k]).commitment by {
            assert(after[i] == l.pending_reveals[i]);
            if k < l.pending_reveals.len() {
                assert(after[k] == l.pending_reveals[k]);
            }
        }
    }
}

/// No reveal waits twice, whatever block is handed in.
pub proof fn blocks_keep_reveals_distinct(l: LedgerView, b: BlockView, verify: bool, now_ms: u64)
    requires
        distinct(l.pending_reveals),
    ensures
        distinct(l.block_applied(b, verify, now_ms).0.pending_reveals),
{
    reveal(LedgerView::block_applied);
    if let Ok((u, held)) = l.block_effects(b) {
        let m = l.stacked(b, u, held);
        filter_keeps_bundle(m, l.pending_reveals, blocks::stays_unrevealed(m, b.all_reveals()));
        mempool::promotion_only_moves(m.swept(b));
    }
}

} // verus!
