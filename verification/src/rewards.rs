//! What finalizers, committers and revealers are paid.
use crate::blinded::{ActiveBlindedTransaction, ActiveBlindedTransactionView};
use crate::block::{Block, BlockView};
use crate::error;
use crate::error::Error;
use crate::model;
use crate::sorted;
use crate::text;
use crate::transaction::{Amount, OutPoint, OutPointView, Transaction, TransactionView, TxOutput, TxOutputView};
use crate::utxo;
use crate::utxo::{Utxos, UtxosView};
use vstd::prelude::*;
use vstd::string::*;

verus! {

/// The sum of the fees.
pub open spec fn fees_of(transactions: Seq<TransactionView>) -> nat
    decreases transactions.len(),
{
    if transactions.len() == 0 {
        0
    } else {
        fees_of(transactions.drop_last()) + transactions.last().fee() as nat
    }
}

/// What the finalizer of a block earns.
pub open spec fn reward_of(transactions: Seq<TransactionView>) -> Result<Amount, Seq<char>> {
    if fees_of(transactions) > u64::MAX {
        Err("block fees overflow"@)
    } else {
        Ok(fees_of(transactions) as u64)
    }
}

proof fn fees_grow(transactions: Seq<TransactionView>, n: int)
    requires
        0 <= n <= transactions.len(),
    ensures
        fees_of(transactions.take(n)) <= fees_of(transactions),
    decreases transactions.len(),
{
    if n < transactions.len() {
        assert(transactions.drop_last().take(n) =~= transactions.take(n));
        fees_grow(transactions.drop_last(), n);
    } else {
        model::take_all(transactions);
    }
}

/// What the finalizer of a block earns: the fees of its transactions.
pub fn fee_reward(transactions: &Vec<Transaction>) -> (r: Result<Amount, Error>)
    ensures
        error::outcome(r) == reward_of(transactions.deep_view()),
{
    let ghost v = transactions.deep_view();
    let mut total: u64 = 0;
    let mut i: usize = 0;
    proof {
        model::take_all(v);
    }
    while i < transactions.len()
        invariant
            i <= transactions.len(),
            v == transactions.deep_view(),
            total == fees_of(v.take(i as int)),
        decreases transactions.len() - i,
    {
        proof {
            assert(v.take(i + 1).drop_last() =~= v.take(i as int));
            fees_grow(v, i + 1);
        }
        match total.checked_add(transactions[i].fee()) {
            None => return Err(Error::new("block fees overflow")),
            Some(sum) => {
                total = sum;
            },
        }
        i = i + 1;
    }
    proof {
        model::take_all(v);
    }
    Ok(total)
}

/// Where the reward of a block goes.
pub open spec fn reward_reference(block_hash: Seq<char>) -> OutPointView {
    OutPointView { txid: block_hash, index: u32::MAX }
}

/// Where the committer of a sealed transaction is paid.
pub open spec fn committer_reference(commitment: Seq<char>) -> OutPointView {
    OutPointView { txid: commitment, index: 4_294_967_294 }
}

/// Where the revealer of a sealed transaction is paid.
pub open spec fn executor_reference(commitment: Seq<char>) -> OutPointView {
    OutPointView { txid: commitment, index: 4_294_967_293 }
}

/// The unspent outputs after a block paid its reward.
pub open spec fn with_reward(u: UtxosView, block: BlockView) -> Result<UtxosView, Seq<char>> {
    let output = TxOutputView { address: block.miner, amount: block.reward };
    if block.reward == 0 {
        Ok(u)
    } else {
        match utxo::overflow_check(u, seq![output]) {
            Err(e) => Err(e),
            Ok(_) => Ok(
                sorted::with::<OutPoint, TxOutputView>(u, reward_reference(block.hash), output),
            ),
        }
    }
}

/// Pays the reward of a block. A refusal changes nothing.
pub fn credit_reward_output(utxos: &mut Utxos, block: &Block) -> (r: Result<(), Error>)
    requires
        old(utxos).wf(),
    ensures
        final(utxos).wf(),
        match r {
            Ok(_) => with_reward(old(utxos).deep_view(), block.deep_view()) == Ok::<UtxosView, Seq<char>>(
                final(utxos).deep_view(),
            ),
            Err(e) => with_reward(old(utxos).deep_view(), block.deep_view()) == Err::<UtxosView, Seq<char>>(
                e.deep_view(),
            ) && final(utxos).deep_view() == old(utxos).deep_view(),
        },
{
    if block.reward == 0 {
        return Ok(());
    }
    let mut outputs: Vec<TxOutput> = Vec::new();
    outputs.push(TxOutput { address: block.miner.clone(), amount: block.reward });
    assert(outputs.deep_view() =~= seq![TxOutputView { address: block.miner@, amount: block.reward }]);
    utxo::ensure_outputs_do_not_overflow(utxos, &outputs)?;
    utxos.insert(
        OutPoint { txid: block.hash.clone(), index: u32::MAX },
        TxOutput { address: block.miner.clone(), amount: block.reward },
    );
    Ok(())
}

/// The half of a fee for who included the envelope.
pub open spec fn committer_fee(fee: Amount) -> Amount {
    fee / 2
}

/// The other half for who finalizes the reveal, a third of it for each bundle.
pub open spec fn executor_fee(fee: Amount, bundles: nat) -> nat {
    let scaled = (fee - fee / 2) * bundles;
    (if scaled > u64::MAX {
        u64::MAX as int
    } else {
        scaled
    }) as nat / 3
}

/// The outputs that a revealed transaction pays its fee to.
pub open spec fn fee_outputs(active: ActiveBlindedTransactionView, executor: Seq<char>, fee: Amount, bundles: nat) -> Seq<
    (OutPointView, TxOutputView),
> {
    let first = if committer_fee(fee) > 0 {
        seq![
            (
                committer_reference(active.transaction.commitment),
                TxOutputView { address: active.included_by, amount: committer_fee(fee) },
            ),
        ]
    } else {
        Seq::<(OutPointView, TxOutputView)>::empty()
    };
    if executor_fee(fee, bundles) > 0 {
        first.push(
            (
                executor_reference(active.transaction.commitment),
                TxOutputView { address: executor, amount: executor_fee(fee, bundles) as u64 },
            ),
        )
    } else {
        first
    }
}

pub open spec fn with_entries(u: UtxosView, entries: Seq<(OutPointView, TxOutputView)>) -> UtxosView
    decreases entries.len(),
{
    if entries.len() == 0 {
        u
    } else {
        sorted::with::<OutPoint, TxOutputView>(
            with_entries(u, entries.drop_last()),
            entries.last().0,
            entries.last().1,
        )
    }
}

/// The unspent outputs after the fee of a revealed transaction was paid.
pub open spec fn with_blinded_fees(
    u: UtxosView,
    active: ActiveBlindedTransactionView,
    executor: Seq<char>,
    fee: Amount,
    bundles: nat,
) -> Result<UtxosView, Seq<char>> {
    let entries = fee_outputs(active, executor, fee, bundles);
    if fee == 0 {
        Ok(u)
    } else {
        match utxo::overflow_check(u, utxo::outputs_of(entries)) {
            Err(e) => Err(e),
            Ok(_) => Ok(with_entries(u, entries)),
        }
    }
}

fn executor_share(fee: Amount, bundles: usize) -> (r: u64)
    ensures
        r == executor_fee(fee, bundles as nat),
{
    let full: u64 = fee - fee / 2;
    assert(full * bundles <= 0xffff_ffff_ffff_ffff_ffff_ffff_ffff_ffffu128) by (nonlinear_arith)
        requires
            full <= 0xffff_ffff_ffff_ffffu64,
            bundles <= 0xffff_ffff_ffff_ffffu64,
    ;
    let scaled: u128 = full as u128 * bundles as u128;
    let bounded: u64 = if scaled > u64::MAX as u128 {
        u64::MAX
    } else {
        scaled as u64
    };
    bounded / 3
}

/// Pays the fee of a revealed transaction. A refusal changes nothing.
pub fn credit_blinded_fee_outputs(
    utxos: &mut Utxos,
    active: &ActiveBlindedTransaction,
    reveal_executor: &str,
    transaction: &Transaction,
    included_reveal_bundle_count: usize,
) -> (r: Result<(), Error>)
    requires
        old(utxos).wf(),
    ensures
        final(utxos).wf(),
        match r {
            Ok(_) => with_blinded_fees(
                old(utxos).deep_view(),
                active.deep_view(),
                reveal_executor@,
                transaction.deep_view().fee(),
                included_reveal_bundle_count as nat,
            ) == Ok::<UtxosView, Seq<char>>(final(utxos).deep_view()),
            Err(e) => with_blinded_fees(
                old(utxos).deep_view(),
                active.deep_view(),
                reveal_executor@,
                transaction.deep_view().fee(),
                included_reveal_bundle_count as nat,
            ) == Err::<UtxosView, Seq<char>>(e.deep_view()) && final(utxos).deep_view() == old(
                utxos,
            ).deep_view(),
        },
{
    let fee = transaction.fee();
    if fee == 0 {
        return Ok(());
    }
    let ghost u = utxos.deep_view();
    let first: u64 = fee / 2;
    let second: u64 = executor_share(fee, included_reveal_bundle_count);
    let ghost entries = fee_outputs(
        active.deep_view(),
        reveal_executor@,
        fee,
        included_reveal_bundle_count as nat,
    );
    let mut outputs: Vec<TxOutput> = Vec::new();
    if first > 0 {
        outputs.push(TxOutput { address: active.included_by.clone(), amount: first });
    }
    if second > 0 {
        outputs.push(TxOutput { address: text::text(reveal_executor), amount: second });
    }
    assert(outputs.deep_view() =~= utxo::outputs_of(entries));
    utxo::ensure_outputs_do_not_overflow(utxos, &outputs)?;
    proof {
        assert(entries.take(0) =~= Seq::<(OutPointView, TxOutputView)>::empty());
        assert(with_entries(u, entries.take(0)) == u);
        if entries.len() >= 1 {
            assert(entries.take(1).drop_last() =~= entries.take(0));
        }
        if entries.len() >= 2 {
            assert(entries.take(2).drop_last() =~= entries.take(1));
        }
        model::take_all(entries);
    }
    if first > 0 {
        utxos.insert(
            OutPoint { txid: active.transaction.commitment.clone(), index: 4_294_967_294 },
            TxOutput { address: active.included_by.clone(), amount: first },
        );
        assert(utxos.deep_view() == with_entries(u, entries.take(1)));
    }
    if second > 0 {
        utxos.insert(
            OutPoint { txid: active.transaction.commitment.clone(), index: 4_294_967_293 },
            TxOutput { address: text::text(reveal_executor), amount: second },
        );
        assert(utxos.deep_view() == with_entries(u, entries.take(entries.len() as int)));
    }
    Ok(())
}

/// The two shares of a fee never exceed the fee. With all three bundles they are the fee exactly,
/// as long as three times the second half is an amount; without a bundle only the first is paid.
pub proof fn fee_split_is_bounded(fee: Amount, bundles: nat)
    requires
        bundles <= 3,
    ensures
        committer_fee(fee) + executor_fee(fee, bundles) <= fee,
        bundles == 3 && (fee - fee / 2) * 3 <= u64::MAX ==> committer_fee(fee) + executor_fee(fee, bundles) == fee,
        bundles == 0 ==> executor_fee(fee, bundles) == 0,
{
    let full = fee - fee / 2;
    assert(full * bundles <= full * 3) by (nonlinear_arith)
        requires
            bundles <= 3,
            full >= 0,
    ;
    assert(full * 0 == 0);
}

/// Adding entries one by one keeps the order of references.
pub proof fn entries_keep_order(u: UtxosView, entries: Seq<(OutPointView, TxOutputView)>, address: Seq<char>)
    requires
        sorted::increasing::<OutPoint, TxOutputView>(u),
    ensures
        sorted::increasing::<OutPoint, TxOutputView>(with_entries(u, entries)),
        utxo::balance(with_entries(u, entries), address) <= utxo::balance(u, address) + utxo::balance_in(
            utxo::outputs_of(entries),
            address,
        ),
        utxo::supply(with_entries(u, entries)) <= utxo::supply(u) + utxo::sum_of(utxo::outputs_of(entries)),
    decreases entries.len(),
{
    if entries.len() > 0 {
        let d = entries.drop_last();
        entries_keep_order(u, d, address);
        let w = with_entries(u, d);
        utxo::effect_of_adding(w, entries.last().0, entries.last().1, address);
        sorted::with_increasing::<OutPoint, TxOutputView>(w, entries.last().0, entries.last().1);
        assert(utxo::outputs_of(entries).drop_last() =~= utxo::outputs_of(d));
    }
}

/// Paying fees keeps every balance an amount.
pub proof fn blinded_fees_keep_balances_fitting(
    u: UtxosView,
    active: ActiveBlindedTransactionView,
    executor: Seq<char>,
    fee: Amount,
    bundles: nat,
)
    requires
        sorted::increasing::<OutPoint, TxOutputView>(u),
        utxo::balances_fit(u),
        with_blinded_fees(u, active, executor, fee, bundles) is Ok,
    ensures
        sorted::increasing::<OutPoint, TxOutputView>(with_blinded_fees(u, active, executor, fee, bundles)->Ok_0),
        utxo::balances_fit(with_blinded_fees(u, active, executor, fee, bundles)->Ok_0),
{
    let entries = fee_outputs(active, executor, fee, bundles);
    let w = with_blinded_fees(u, active, executor, fee, bundles)->Ok_0;
    entries_keep_order(u, entries, Seq::<char>::empty());
    assert forall|address: Seq<char>| #[trigger] utxo::balance(w, address) <= u64::MAX by {
        assert(utxo::balance(u, address) <= u64::MAX);
        if fee > 0 {
            entries_keep_order(u, entries, address);
            utxo::no_overflow_means_fits(utxo::outputs_of(u) + utxo::outputs_of(entries), address);
            utxo::balance_in_append(utxo::outputs_of(u), utxo::outputs_of(entries), address);
        }
    }
}

/// Paying the reward of a block keeps every balance an amount.
pub proof fn reward_keeps_balances_fitting(u: UtxosView, block: BlockView)
    requires
        sorted::increasing::<OutPoint, TxOutputView>(u),
        utxo::balances_fit(u),
        with_reward(u, block) is Ok,
    ensures
        sorted::increasing::<OutPoint, TxOutputView>(with_reward(u, block)->Ok_0),
        utxo::balances_fit(with_reward(u, block)->Ok_0),
{
    let output = TxOutputView { address: block.miner, amount: block.reward };
    let entries = seq![(reward_reference(block.hash), output)];
    assert(entries.drop_last() =~= Seq::<(OutPointView, TxOutputView)>::empty());
    assert(with_entries(u, entries.drop_last()) == u);
    assert(utxo::outputs_of(entries) =~= seq![output]);
    let w = with_reward(u, block)->Ok_0;
    entries_keep_order(u, entries, Seq::<char>::empty());
    assert(block.reward > 0 ==> w == with_entries(u, entries));
    assert forall|address: Seq<char>| #[trigger] utxo::balance(w, address) <= u64::MAX by {
        assert(utxo::balance(u, address) <= u64::MAX);
        if block.reward > 0 {
            entries_keep_order(u, entries, address);
            utxo::no_overflow_means_fits(utxo::outputs_of(u) + seq![output], address);
            utxo::balance_in_append(utxo::outputs_of(u), seq![output], address);
        }
    }
}

/// The fees of transactions are those of each, added up.
pub proof fn fees_are_added_up(a: Seq<TransactionView>, b: Seq<TransactionView>, one: TransactionView)
    ensures
        fees_of(a + b) == fees_of(a) + fees_of(b),
        fees_of(seq![one]) == one.fee(),
        fees_of(Seq::<TransactionView>::empty()) == 0,
    decreases b.len(),
{
    let single = seq![one];
    assert(single.drop_last() =~= Seq::<TransactionView>::empty());
    assert(fees_of(single.drop_last()) == 0);
    assert(single.last() == one);
    if b.len() == 0 {
        assert(a + b =~= a);
    } else {
        fees_are_added_up(a, b.drop_last(), one);
        assert((a + b).drop_last() =~= a + b.drop_last());
        assert((a + b).last() == b.last());
    }
}

/// The reward of a block goes to who finalized it, whole, and to no one else; where nothing is due
/// nothing changes.
pub proof fn reward_goes_to_the_finalizer(u: UtxosView, block: BlockView, address: Seq<char>)
    requires
        sorted::increasing::<OutPoint, TxOutputView>(u),
        with_reward(u, block) is Ok,
        sorted::lookup(u, OutPointView { txid: block.hash, index: 4_294_967_295 }) is None,
    ensures
        utxo::balance(with_reward(u, block)->Ok_0, address) == utxo::balance(u, address) + if address == block.miner {
            block.reward as int
        } else {
            0
        },
        block.reward > 0 ==> sorted::lookup(
            with_reward(u, block)->Ok_0,
            OutPointView { txid: block.hash, index: 4_294_967_295 },
        ) == Some(TxOutputView { address: block.miner, amount: block.reward }),
        block.reward == 0 ==> with_reward(u, block)->Ok_0 == u,
{
    let output = TxOutputView { address: block.miner, amount: block.reward };
    utxo::effect_of_adding(u, reward_reference(block.hash), output, address);
    sorted::read_after_write::<OutPoint, TxOutputView>(
        u,
        reward_reference(block.hash),
        output,
        reward_reference(block.hash),
    );
}

/// Half of the fee of a revealed transaction, rounded down, goes to who included its envelope; of the
/// other half a third for each of the three bundles goes to who finalizes the reveal; no one else is
/// paid.
pub proof fn fee_goes_to_committer_and_executor(
    u: UtxosView,
    active: ActiveBlindedTransactionView,
    executor: Seq<char>,
    fee: Amount,
    bundles: nat,
    address: Seq<char>,
)
    requires
        sorted::increasing::<OutPoint, TxOutputView>(u),
        with_blinded_fees(u, active, executor, fee, bundles) is Ok,
        bundles <= 3,
        fee <= 12_297_829_382_473_034_410,
        sorted::lookup(u, OutPointView { txid: active.transaction.commitment, index: 4_294_967_294 }) is None,
        sorted::lookup(u, OutPointView { txid: active.transaction.commitment, index: 4_294_967_293 }) is None,
    ensures
        ({
            let first = fee / 2;
            let second = (fee - first) * bundles / 3;
            utxo::balance(with_blinded_fees(u, active, executor, fee, bundles)->Ok_0, address) == utxo::balance(u, address)
                + (if address == active.included_by { first as int } else { 0 }) + (if address == executor {
                second
            } else {
                0
            })
        }),
{
    let full = fee - fee / 2;
    assert(0 <= full * bundles <= full * 3) by (nonlinear_arith)
        requires
            0 <= bundles <= 3,
            full >= 0,
    ;
    let one = committer_reference(active.transaction.commitment);
    let two = executor_reference(active.transaction.commitment);
    let first = TxOutputView { address: active.included_by, amount: committer_fee(fee) };
    let second = TxOutputView { address: executor, amount: executor_fee(fee, bundles) as u64 };
    let entries = fee_outputs(active, executor, fee, bundles);
    let none = Seq::<(OutPointView, TxOutputView)>::empty();
    assert(with_entries(u, none) == u);
    let v = if committer_fee(fee) > 0 { sorted::with::<OutPoint, TxOutputView>(u, one, first) } else { u };
    utxo::effect_of_adding(u, one, first, address);
    sorted::with_increasing::<OutPoint, TxOutputView>(u, one, first);
    sorted::read_after_write::<OutPoint, TxOutputView>(u, one, first, two);
    utxo::effect_of_adding(v, two, second, address);
    if fee > 0 {
        if committer_fee(fee) > 0 {
            let start = seq![(one, first)];
            assert(start.drop_last() =~= none);
            assert(with_entries(u, start) == v);
            if executor_fee(fee, bundles) > 0 {
                assert(entries.drop_last() =~= start);
            } else {
                assert(entries =~= start);
            }
        } else if executor_fee(fee, bundles) > 0 {
            assert(entries.drop_last() =~= none);
        }
    } else {
        assert(full * bundles == 0);
    }
}

} // verus!
