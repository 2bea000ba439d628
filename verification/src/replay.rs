//! Envelopes that blocks included, and what later blocks reveal of them.
use crate::blinded::{
    ActiveBlindedTransaction, ActiveBlindedTransactionView, BlindedReveal, BlindedRevealView,
    BlindedTransaction, BlindedTransactionView, RevealedBlindedTransaction, RevealedBlindedTransactionView,
};
use crate::block::{Block, BlockView};
use crate::error;
use crate::error::Error;
use crate::ledger::ActiveView;
use crate::model;
use crate::model::Model;
use crate::sealing;
use crate::sorted;
use crate::sorted::SortedMap;
use crate::text;
use vstd::prelude::*;
use vstd::string::*;

verus! {

pub type Actives = SortedMap<String, ActiveBlindedTransaction>;

/// Envelopes that have not expired at a height.
pub open spec fn unexpired(height: u64) -> spec_fn((Seq<char>, ActiveBlindedTransactionView)) -> bool {
    |e: (Seq<char>, ActiveBlindedTransactionView)| height < e.1.transaction.expires_at_height
}

/// The envelopes after those of a block are added.
pub open spec fn including(active: ActiveView, envelopes: Seq<BlindedTransactionView>, height: u64, miner: Seq<char>) -> ActiveView
    decreases envelopes.len(),
{
    if envelopes.len() == 0 {
        active
    } else {
        sorted::with::<String, ActiveBlindedTransactionView>(
            including(active, envelopes.drop_last(), height, miner),
            envelopes.last().commitment,
            ActiveBlindedTransactionView {
                transaction: envelopes.last(),
                included_height: height,
                included_by: miner,
            },
        )
    }
}

/// What a block reveals, and the envelopes that are left; or why a reveal is refused.
pub open spec fn opening(active: ActiveView, reveals: Seq<BlindedRevealView>, height: u64) -> Result<
    (Seq<RevealedBlindedTransactionView>, ActiveView),
    Seq<char>,
>
    decreases reveals.len(),
{
    if reveals.len() == 0 {
        Ok((Seq::<RevealedBlindedTransactionView>::empty(), active))
    } else {
        match opening(active, reveals.drop_last(), height) {
            Err(e) => Err(e),
            Ok((earlier, left)) => match opened(left, reveals.last(), height) {
                Err(e) => Err(e),
                Ok(revealed) => Ok(
                    (earlier.push(revealed), sorted::without(left, reveals.last().commitment)),
                ),
            },
        }
    }
}

/// What one reveal opens.
pub open spec fn opened(active: ActiveView, reveal: BlindedRevealView, height: u64) -> Result<
    RevealedBlindedTransactionView,
    Seq<char>,
> {
    match sorted::lookup(active, reveal.commitment) {
        None => Err(
            "block "@ + text::decimal(height as nat) + " reveals unknown blinded transaction "@ + reveal.commitment,
        ),
        Some(envelope) => match sealing::decrypted(envelope.transaction, reveal) {
            Err(e) => Err(e),
            Ok(t) => if t.fee() != envelope.transaction.fee {
                Err("block "@ + text::decimal(height as nat) + " blinded reveal fee does not match envelope"@)
            } else {
                Ok(
                    RevealedBlindedTransactionView {
                        height,
                        commitment: reveal.commitment,
                        included_by: envelope.included_by,
                        transaction: t,
                    },
                )
            },
        },
    }
}

/// The envelopes after a block: what it reveals and what expires is gone, what it includes is new.
pub open spec fn actives_after(left: ActiveView, block: BlockView) -> ActiveView {
    including(left.filter(unexpired(block.height)), block.blinded_transactions, block.height, block.miner)
}

/// Everything that a chain reveals, with the envelopes that are left.
pub open spec fn revealing(blocks: Seq<BlockView>) -> Result<
    (Seq<RevealedBlindedTransactionView>, ActiveView),
    Seq<char>,
>
    decreases blocks.len(),
{
    if blocks.len() == 0 {
        Ok(
            (
                Seq::<RevealedBlindedTransactionView>::empty(),
                Seq::<(Seq<char>, ActiveBlindedTransactionView)>::empty(),
            ),
        )
    } else {
        match revealing(blocks.drop_last()) {
            Err(e) => Err(e),
            Ok((earlier, active)) => match opening(active, blocks.last().all_reveals(), blocks.last().height) {
                Err(e) => Err(e),
                Ok((revealed, left)) => Ok((earlier + revealed, actives_after(left, blocks.last()))),
            },
        }
    }
}

/// Drops the envelopes that have expired at a height.
pub fn retain_unexpired(active: &Actives, height: u64) -> (r: Actives)
    requires
        active.wf(),
    ensures
        r.wf(),
        r.deep_view() == active.deep_view().filter(unexpired(height)),
{
    broadcast use model::group_views;

    let ghost v = active.deep_view();
    let ghost p = unexpired(height);
    let mut out: Vec<(String, ActiveBlindedTransaction)> = Vec::new();
    let mut i: usize = 0;
    proof {
        model::take_all(v);
        model::filter_empty(p);
        active.wf_is_increasing();
        sorted::filter_increasing::<String, ActiveBlindedTransactionView>(v, p);
    }
    while i < active.len()
        invariant
            i <= v.len(),
            v == active.deep_view(),
            p == unexpired(height),
            out.deep_view() == v.take(i as int).filter(p),
        decreases v.len() - i,
    {
        proof {
            model::take_step(v, i as int);
            model::filter_push(v.take(i as int), v[i as int], p);
        }
        let entry = active.at(i);
        if height < entry.1.transaction.expires_at_height {
            out.push(entry.duplicate());
        }
        i = i + 1;
    }
    proof {
        model::take_all(v);
    }
    SortedMap::from_sorted(out)
}

/// Adds the envelopes of a block.
pub fn include_envelopes(active: &mut Actives, envelopes: &Vec<BlindedTransaction>, height: u64, miner: &String)
    requires
        old(active).wf(),
    ensures
        final(active).wf(),
        final(active).deep_view() == including(old(active).deep_view(), envelopes.deep_view(), height, miner@),
{
    let ghost v = envelopes.deep_view();
    let ghost a = active.deep_view();
    let mut i: usize = 0;
    proof {
        model::take_all(v);
    }
    while i < envelopes.len()
        invariant
            i <= envelopes.len(),
            v == envelopes.deep_view(),
            active.wf(),
            active.deep_view() == including(a, v.take(i as int), height, miner@),
        decreases envelopes.len() - i,
    {
        proof {
            assert(v.take(i + 1).drop_last() =~= v.take(i as int));
        }
        active.insert(
            envelopes[i].commitment.clone(),
            ActiveBlindedTransaction {
                transaction: envelopes[i].duplicate(),
                included_height: height,
                included_by: miner.clone(),
            },
        );
        i = i + 1;
    }
    proof {
        model::take_all(v);
    }
}

fn open_reveal(active: &Actives, reveal: &BlindedReveal, height: u64) -> (r: Result<RevealedBlindedTransaction, Error>)
    requires
        active.wf(),
    ensures
        error::outcome(r) == opened(active.deep_view(), reveal.deep_view(), height),
{
    match active.get(&reveal.commitment) {
        None => {
            let mut message = text::text("block ");
            text::push_decimal(&mut message, height as u128);
            message.append(" reveals unknown blinded transaction ");
            message.append(reveal.commitment.as_str());
            Err(Error::of(message))
        },
        Some(envelope) => {
            let t = sealing::decrypt_blinded_transaction(&envelope.transaction, reveal)?;
            if t.fee() != envelope.transaction.fee {
                let mut message = text::text("block ");
                text::push_decimal(&mut message, height as u128);
                message.append(" blinded reveal fee does not match envelope");
                return Err(Error::of(message));
            }
            Ok(
                RevealedBlindedTransaction {
                    height,
                    commitment: reveal.commitment.clone(),
                    included_by: envelope.included_by.clone(),
                    transaction: t,
                },
            )
        },
    }
}

proof fn opening_stops(active: ActiveView, reveals: Seq<BlindedRevealView>, height: u64, n: int)
    requires
        0 <= n <= reveals.len(),
        opening(active, reveals.take(n), height) is Err,
    ensures
        opening(active, reveals, height) == opening(active, reveals.take(n), height),
    decreases reveals.len(),
{
    if n < reveals.len() {
        assert(reveals.drop_last().take(n) =~= reveals.take(n));
        opening_stops(active, reveals.drop_last(), height, n);
    } else {
        model::take_all(reveals);
    }
}

/// Opens the reveals of a block one after another. After a refusal the envelopes are of no use.
pub fn open_block_reveals(active: &mut Actives, block: &Block) -> (r: Result<Vec<RevealedBlindedTransaction>, Error>)
    requires
        old(active).wf(),
    ensures
        final(active).wf(),
        match r {
            Ok(revealed) => opening(
                old(active).deep_view(),
                block.deep_view().all_reveals(),
                block.height,
            ) == Ok::<(Seq<RevealedBlindedTransactionView>, ActiveView), Seq<char>>(
                (revealed.deep_view(), final(active).deep_view()),
            ),
            Err(e) => opening(old(active).deep_view(), block.deep_view().all_reveals(), block.height) == Err::<
                (Seq<RevealedBlindedTransactionView>, ActiveView),
                Seq<char>,
            >(e.deep_view()),
        },
{
    broadcast use model::group_views;

    let reveals = block.all_blinded_reveals();
    let ghost v = model::views(reveals@);
    let ghost a = active.deep_view();
    let mut revealed: Vec<RevealedBlindedTransaction> = Vec::new();
    let mut i: usize = 0;
    proof {
        model::take_all(v);
    }
    while i < reveals.len()
        invariant
            i <= reveals.len(),
            v == model::views(reveals@),
            v == block.deep_view().all_reveals(),
            a == old(active).deep_view(),
            active.wf(),
            opening(a, v.take(i as int), block.height) == Ok::<
                (Seq<RevealedBlindedTransactionView>, ActiveView),
                Seq<char>,
            >((revealed.deep_view(), active.deep_view())),
        decreases reveals.len() - i,
    {
        proof {
            assert(v.take(i + 1).drop_last() =~= v.take(i as int));
            assert(v.take(i + 1).last() == v[i as int]);
            if opening(a, v.take(i + 1), block.height) is Err {
                opening_stops(a, v, block.height, i + 1);
            }
        }
        let ghost before = revealed.deep_view();
        let opened_one = open_reveal(active, reveals[i], block.height)?;
        let ghost added = opened_one.deep_view();
        revealed.push(opened_one);
        assert(revealed.deep_view() =~= before.push(added));
        let _ = active.remove(&reveals[i].commitment);
        i = i + 1;
    }
    proof {
        model::take_all(v);
    }
    Ok(revealed)
}

/// The envelopes after a block.
pub fn actives_after_block(left: &Actives, block: &Block) -> (r: Actives)
    requires
        left.wf(),
    ensures
        r.wf(),
        r.deep_view() == actives_after(left.deep_view(), block.deep_view()),
{
    let mut active = retain_unexpired(left, block.height);
    include_envelopes(&mut active, &block.blinded_transactions, block.height, &block.miner);
    active
}

proof fn revealing_stops(blocks: Seq<BlockView>, n: int)
    requires
        0 <= n <= blocks.len(),
        revealing(blocks.take(n)) is Err,
    ensures
        revealing(blocks) == revealing(blocks.take(n)),
    decreases blocks.len(),
{
    if n < blocks.len() {
        assert(blocks.drop_last().take(n) =~= blocks.take(n));
        revealing_stops(blocks.drop_last(), n);
    } else {
        model::take_all(blocks);
    }
}

/// Everything that blocks reveal.
pub fn revealed_in(blocks: &Vec<Block>) -> (r: Result<Vec<RevealedBlindedTransaction>, Error>)
    ensures
        error::outcome(r) == match revealing(blocks.deep_view()) {
            Ok((revealed, _)) => Ok(revealed),
            Err(e) => Err(e),
        },
{
    broadcast use model::group_views;

    let ghost v = blocks.deep_view();
    let mut active: Actives = SortedMap::new();
    let mut all: Vec<RevealedBlindedTransaction> = Vec::new();
    let mut i: usize = 0;
    proof {
        model::take_all(v);
        assert(all.deep_view() =~= Seq::<RevealedBlindedTransactionView>::empty());
    }
    while i < blocks.len()
        invariant
            i <= blocks.len(),
            v == blocks.deep_view(),
            active.wf(),
            revealing(v.take(i as int)) == Ok::<(Seq<RevealedBlindedTransactionView>, ActiveView), Seq<char>>(
                (all.deep_view(), active.deep_view()),
            ),
        decreases blocks.len() - i,
    {
        proof {
            assert(v.take(i + 1).drop_last() =~= v.take(i as int));
            assert(v.take(i + 1).last() == v[i as int]);
            if revealing(v.take(i + 1)) is Err {
                revealing_stops(v, i + 1);
            }
        }
        let ghost before = all.deep_view();
        let mut revealed = open_block_reveals(&mut active, &blocks[i])?;
        let ghost added = revealed.deep_view();
        all.append(&mut revealed);
        assert(all.deep_view() =~= before + added);
        active = actives_after_block(&active, &blocks[i]);
        i = i + 1;
    }
    proof {
        model::take_all(v);
    }
    Ok(all)
}

} // verus!
