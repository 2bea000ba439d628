//! Unspent outputs, and what a transaction does to them.
use crate::error;
use crate::error::Error;
use crate::model;
use crate::model::Model;
use crate::sorted;
use crate::sorted::SortedMap;
use crate::text;
use crate::transaction;
use crate::transaction::{
    Amount, OutPoint, OutPointView, Transaction, TransactionView, TxInput, TxInputView, TxOutput,
    TxOutputView, MINE_REWARD,
};
use vstd::prelude::*;
use vstd::string::*;

verus! {

/// The unspent outputs, in the order of their references.
pub type Utxos = SortedMap<OutPoint, TxOutput>;

pub type UtxosView = Seq<(OutPointView, TxOutputView)>;

/// The outputs without their references.
pub open spec fn outputs_of(u: UtxosView) -> Seq<TxOutputView> {
    Seq::new(u.len(), |i: int| u[i].1)
}

/// What an address holds among outputs.
pub open spec fn balance_in(outputs: Seq<TxOutputView>, address: Seq<char>) -> nat
    decreases outputs.len(),
{
    if outputs.len() == 0 {
        0
    } else {
        balance_in(outputs.drop_last(), address) + if outputs.last().address == address {
            outputs.last().amount as nat
        } else {
            0
        }
    }
}

/// The sum of the amounts.
pub open spec fn sum_of(outputs: Seq<TxOutputView>) -> nat
    decreases outputs.len(),
{
    if outputs.len() == 0 {
        0
    } else {
        sum_of(outputs.drop_last()) + outputs.last().amount as nat
    }
}

/// What an address holds.
pub open spec fn balance(u: UtxosView, address: Seq<char>) -> nat {
    balance_in(outputs_of(u), address)
}

/// All the money there is.
pub open spec fn supply(u: UtxosView) -> nat {
    sum_of(outputs_of(u))
}

/// The address whose balance first exceeds the range of amounts, adding outputs up in order.
pub open spec fn overflow_in(outputs: Seq<TxOutputView>) -> Option<Seq<char>>
    decreases outputs.len(),
{
    if outputs.len() == 0 {
        None
    } else {
        match overflow_in(outputs.drop_last()) {
            Some(address) => Some(address),
            None => if balance_in(outputs, outputs.last().address) > u64::MAX {
                Some(outputs.last().address)
            } else {
                None
            },
        }
    }
}

/// Whether no balance exceeds the range of amounts once outputs are added.
pub open spec fn overflow_check(u: UtxosView, outputs: Seq<TxOutputView>) -> Result<(), Seq<char>> {
    match overflow_in(outputs_of(u) + outputs) {
        Some(address) => Err("balance overflow for "@ + address),
        None => Ok(()),
    }
}

/// Every balance is an amount.
pub open spec fn balances_fit(u: UtxosView) -> bool {
    forall|address: Seq<char>| #[trigger] balance(u, address) <= u64::MAX
}

/// What is left, and what was taken out, when inputs are spent one after another. Outputs that
/// were taken out before a refusal stay out.
pub open spec fn spend(inputs: Seq<TxInputView>, u: UtxosView) -> (UtxosView, Result<Amount, Seq<char>>)
    decreases inputs.len(),
{
    if inputs.len() == 0 {
        (u, Ok(0))
    } else {
        let (v, so_far) = spend(inputs.drop_last(), u);
        let input = inputs.last();
        match so_far {
            Err(e) => (v, Err(e)),
            Ok(total) => if spends(inputs.drop_last(), input.outpoint) {
                (v, Err("duplicate input in transaction"@))
            } else {
                match sorted::lookup(v, input.outpoint) {
                    None => (v, Err("transaction spends missing output "@ + input.outpoint.id())),
                    Some(output) => (
                        sorted::without(v, input.outpoint),
                        if output.address != input.owner {
                            Err("transaction input owner does not match spent output"@)
                        } else if total + output.amount > u64::MAX {
                            Err("transaction input total overflows"@)
                        } else {
                            Ok((total + output.amount) as u64)
                        },
                    ),
                }
            },
        }
    }
}

/// Whether one of the inputs spends the output.
pub open spec fn spends(inputs: Seq<TxInputView>, outpoint: OutPointView) -> bool {
    exists|i: int| 0 <= i < inputs.len() && (#[trigger] inputs[i]).outpoint == outpoint
}

/// Inputs that differ only in their signatures spend the same.
pub proof fn alike_spends(a: Seq<TxInputView>, b: Seq<TxInputView>, k: OutPointView)
    requires
        transaction::spend_alike(a, b),
    ensures
        spends(a, k) == spends(b, k),
{
    let (x, y) = (transaction::unsigned(a), transaction::unsigned(b));
    assert(x.len() == a.len() && y.len() == b.len());
    if spends(a, k) {
        let i = choose|i: int| 0 <= i < a.len() && (#[trigger] a[i]).outpoint == k;
        assert(x[i] == y[i]);
        assert(b[i].outpoint == k);
    }
    if spends(b, k) {
        let i = choose|i: int| 0 <= i < b.len() && (#[trigger] b[i]).outpoint == k;
        assert(x[i] == y[i]);
        assert(a[i].outpoint == k);
    }
}

/// The outputs of a transaction, each under the id of the transaction and its place.
pub open spec fn credit(u: UtxosView, txid: Seq<char>, outputs: Seq<TxOutputView>) -> UtxosView
    decreases outputs.len(),
{
    if outputs.len() == 0 {
        u
    } else {
        sorted::with::<OutPoint, TxOutputView>(
            credit(u, txid, outputs.drop_last()),
            OutPointView { txid, index: (outputs.len() - 1) as u32 },
            outputs.last(),
        )
    }
}

/// One owner for all inputs, of which there is at least one.
pub open spec fn single_owner_check(t: TransactionView) -> Result<(), Seq<char>> {
    if t is Mine {
        Ok(())
    } else if t.inputs().len() == 0 {
        Err("transaction has no inputs"@)
    } else if exists|i: int|
        0 <= i < t.inputs().len() && (#[trigger] t.inputs()[i]).owner != t.inputs()[0].owner {
        Err("transaction inputs must have one owner"@)
    } else {
        Ok(())
    }
}

/// Whether the inputs pay exactly for the outputs, the fee and the burn.
pub open spec fn balance_check(t: TransactionView, input_total: Amount) -> Result<(), Seq<char>> {
    let output_total = sum_of(t.outputs());
    if output_total > u64::MAX {
        Err("transaction outputs overflow"@)
    } else if output_total + t.fee() > u64::MAX {
        Err("transaction outputs plus fee overflow"@)
    } else if output_total + t.fee() + t.burned() > u64::MAX {
        Err("transaction outputs plus burn overflow"@)
    } else if input_total != output_total + t.fee() + t.burned() {
        Err("transaction inputs do not balance outputs, burn, and fee"@)
    } else {
        Ok(())
    }
}

/// What a transaction does to the unspent outputs, and whether it is accepted. A refused
/// transaction may have taken inputs out.
pub open spec fn applied(t: TransactionView, u: UtxosView) -> (UtxosView, Result<(), Seq<char>>) {
    match t.signature_check() {
        Err(e) => (u, Err(e)),
        Ok(_) => if t is Mine {
            match overflow_check(u, t.outputs()) {
                Err(e) => (u, Err(e)),
                Ok(_) => (
                    sorted::with::<OutPoint, TxOutputView>(
                        u,
                        OutPointView { txid: t.signature(), index: 0 },
                        t.outputs()[0],
                    ),
                    Ok(()),
                ),
            }
        } else {
            match single_owner_check(t) {
                Err(e) => (u, Err(e)),
                Ok(_) => {
                    let (v, spent) = spend(t.inputs(), u);
                    match spent {
                        Err(e) => (v, Err(e)),
                        Ok(total) => match balance_check(t, total) {
                            Err(e) => (v, Err(e)),
                            Ok(_) => match overflow_check(v, t.outputs()) {
                                Err(e) => (v, Err(e)),
                                Ok(_) => (credit(v, t.signature(), t.outputs()), Ok(())),
                            },
                        },
                    }
                },
            }
        },
    }
}

/// Whether a transaction would be accepted.
pub open spec fn applies(t: TransactionView, u: UtxosView) -> bool {
    applied(t, u).1 is Ok
}

/// The outputs in the order of their references.
pub fn utxo_outputs(utxos: &Utxos) -> (r: Vec<TxOutput>)
    ensures
        r.deep_view() == outputs_of(utxos.deep_view()),
{
    let mut out: Vec<TxOutput> = Vec::new();
    let mut i: usize = 0;
    while i < utxos.len()
        invariant
            i <= utxos.deep_view().len(),
            out@.len() == i,
            forall|j: int| 0 <= j < i ==> (#[trigger] out@[j]).deep_view() == utxos.deep_view()[j].1,
        decreases utxos.deep_view().len() - i,
    {
        out.push(utxos.at(i).1.duplicate());
        i = i + 1;
    }
    assert(out.deep_view() =~= outputs_of(utxos.deep_view()));
    out
}

/// The balance recorded for an address, none meaning zero.
pub open spec fn recorded(balances: Seq<(Seq<char>, u64)>, address: Seq<char>) -> nat {
    match sorted::lookup(balances, address) {
        Some(amount) => amount as nat,
        None => 0,
    }
}

/// Refuses outputs that would lift a balance out of the range of amounts.
pub fn ensure_outputs_do_not_overflow(utxos: &Utxos, outputs: &Vec<TxOutput>) -> (r: Result<(), Error>)
    ensures
        error::outcome(r) == overflow_check(utxos.deep_view(), outputs.deep_view()),
{
    broadcast use model::group_views;

    let mut all = utxo_outputs(utxos);
    let mut more = outputs.duplicate();
    let ghost whole = outputs_of(utxos.deep_view()) + outputs.deep_view();
    all.append(&mut more);
    assert(all.deep_view() =~= whole);
    let mut balances: SortedMap<String, u64> = SortedMap::new();
    let mut i: usize = 0;
    proof {
        model::take_all(whole);
    }
    while i < all.len()
        invariant
            i <= all.len(),
            all.deep_view() == whole,
            whole == outputs_of(utxos.deep_view()) + outputs.deep_view(),
            balances.wf(),
            overflow_in(whole.take(i as int)) is None,
            forall|a: Seq<char>| #[trigger] recorded(balances.deep_view(), a) == balance_in(whole.take(i as int), a),
        decreases all.len() - i,
    {
        let ghost prefix = whole.take(i + 1);
        let ghost before = balances.deep_view();
        let output = &all[i];
        let held: u64 = match balances.get(&output.address) {
            Some(amount) => *amount,
            None => 0,
        };
        proof {
            assert(prefix.drop_last() =~= whole.take(i as int));
            assert(prefix.last() == output.deep_view());
            assert(held == recorded(before, output.address@));
        }
        match held.checked_add(output.amount) {
            None => {
                proof {
                    assert(overflow_in(prefix) == Some(output.address@));
                    overflow_is_first(whole, i + 1);
                }
                let mut message = text::text("balance overflow for ");
                message.append(output.address.as_str());
                return Err(Error::of(message));
            },
            Some(sum) => {
                proof {
                    balances.wf_is_increasing();
                }
                balances.insert(output.address.clone(), sum);
                assert forall|a: Seq<char>| #[trigger] recorded(balances.deep_view(), a) == balance_in(prefix, a) by {
                    sorted::read_after_write::<String, u64>(before, output.address@, sum, a);
                    assert(recorded(before, a) == balance_in(whole.take(i as int), a));
                }
            },
        }
        i = i + 1;
    }
    proof {
        model::take_all(whole);
    }
    Ok(())
}

/// An overflow in a prefix is the overflow of the whole.
proof fn overflow_is_first(outputs: Seq<TxOutputView>, n: int)
    requires
        0 <= n <= outputs.len(),
        overflow_in(outputs.take(n)) is Some,
    ensures
        overflow_in(outputs) == overflow_in(outputs.take(n)),
    decreases outputs.len(),
{
    if n < outputs.len() {
        assert(outputs.drop_last().take(n) =~= outputs.take(n));
        overflow_is_first(outputs.drop_last(), n);
    } else {
        model::take_all(outputs);
    }
}

fn already_spent(inputs: &Vec<TxInput>, count: usize) -> (r: bool)
    requires
        count < inputs.len(),
    ensures
        r == spends(inputs.deep_view().take(count as int), inputs.deep_view()[count as int].outpoint),
{
    let ghost v = inputs.deep_view();
    let mut i: usize = 0;
    while i < count
        invariant
            i <= count < inputs.len(),
            v == inputs.deep_view(),
            forall|j: int| 0 <= j < i ==> (#[trigger] v[j]).outpoint != v[count as int].outpoint,
        decreases count - i,
    {
        if inputs[i].outpoint.same(&inputs[count].outpoint) {
            assert(v.take(count as int)[i as int].outpoint == v[count as int].outpoint);
            return true;
        }
        i = i + 1;
    }
    assert(!spends(v.take(count as int), v[count as int].outpoint)) by {
        if spends(v.take(count as int), v[count as int].outpoint) {
            let j = choose|j: int|
                0 <= j < v.take(count as int).len() && (#[trigger] v.take(count as int)[j]).outpoint
                    == v[count as int].outpoint;
            assert(v[j].outpoint == v[count as int].outpoint);
        }
    }
    false
}

/// A refusal in the middle of spending is the refusal of the whole.
proof fn spend_stops(inputs: Seq<TxInputView>, u: UtxosView, n: int)
    requires
        0 <= n <= inputs.len(),
        spend(inputs.take(n), u).1 is Err,
    ensures
        spend(inputs, u) == spend(inputs.take(n), u),
    decreases inputs.len(),
{
    if n < inputs.len() {
        assert(inputs.drop_last().take(n) =~= inputs.take(n));
        spend_stops(inputs.drop_last(), u, n);
    } else {
        model::take_all(inputs);
    }
}

pub(crate) fn spend_inputs(inputs: &Vec<TxInput>, utxos: &mut Utxos) -> (r: Result<Amount, Error>)
    requires
        old(utxos).wf(),
    ensures
        final(utxos).wf(),
        final(utxos).deep_view() == spend(inputs.deep_view(), old(utxos).deep_view()).0,
        error::outcome(r) == spend(inputs.deep_view(), old(utxos).deep_view()).1,
{
    let ghost v = inputs.deep_view();
    let ghost u = utxos.deep_view();
    let mut total: u64 = 0;
    let mut i: usize = 0;
    proof {
        model::take_all(v);
    }
    while i < inputs.len()
        invariant
            i <= inputs.len(),
            v == inputs.deep_view(),
            u == old(utxos).deep_view(),
            utxos.wf(),
            spend(v.take(i as int), u) == (utxos.deep_view(), Ok::<u64, Seq<char>>(total)),
        decreases inputs.len() - i,
    {
        let input = &inputs[i];
        proof {
            assert(v.take(i + 1).drop_last() =~= v.take(i as int));
            assert(v.take(i + 1).last() == v[i as int]);
            if spend(v.take(i + 1), u).1 is Err {
                spend_stops(v, u, i + 1);
            }
            utxos.wf_is_increasing();
        }
        if already_spent(inputs, i) {
            return Err(Error::new("duplicate input in transaction"));
        }
        match utxos.remove(&input.outpoint) {
            None => {
                proof {
                    sorted::without_absent::<OutPoint, TxOutputView>(spend(v.take(i as int), u).0, v[i as int].outpoint);
                }
                let mut message = text::text("transaction spends missing output ");
                message.append(input.outpoint.id().as_str());
                return Err(Error::of(message));
            },
            Some(output) => {
                if !output.address.same(&input.owner) {
                    return Err(Error::new("transaction input owner does not match spent output"));
                }
                match total.checked_add(output.amount) {
                    None => return Err(Error::new("transaction input total overflows")),
                    Some(sum) => {
                        total = sum;
                    },
                }
            },
        }
        i = i + 1;
    }
    proof {
        model::take_all(v);
    }
    Ok(total)
}

fn ensure_single_input_owner(transaction: &Transaction) -> (r: Result<(), Error>)
    ensures
        error::outcome(r) == single_owner_check(transaction.deep_view()),
{
    if transaction.is_mine() {
        return Ok(());
    }
    let inputs = transaction.inputs();
    let ghost v = transaction.deep_view().inputs();
    if inputs.len() == 0 {
        return Err(Error::new("transaction has no inputs"));
    }
    let mut i: usize = 0;
    while i < inputs.len()
        invariant
            i <= inputs.len(),
            inputs.len() > 0,
            v == inputs.deep_view(),
            v == transaction.deep_view().inputs(),
            !(transaction.deep_view() is Mine),
            forall|j: int| 0 <= j < i ==> (#[trigger] v[j]).owner == v[0].owner,
        decreases inputs.len() - i,
    {
        if !inputs[i].owner.same(&inputs[0].owner) {
            assert(v[i as int].owner != v[0].owner);
            return Err(Error::new("transaction inputs must have one owner"));
        }
        i = i + 1;
    }
    Ok(())
}

proof fn sum_grows(outputs: Seq<TxOutputView>, n: int)
    requires
        0 <= n <= outputs.len(),
    ensures
        sum_of(outputs.take(n)) <= sum_of(outputs),
    decreases outputs.len(),
{
    if n < outputs.len() {
        assert(outputs.drop_last().take(n) =~= outputs.take(n));
        sum_grows(outputs.drop_last(), n);
    } else {
        model::take_all(outputs);
    }
}

fn ensure_balanced(transaction: &Transaction, outputs: &Vec<TxOutput>, input_total: Amount) -> (r: Result<(), Error>)
    requires
        outputs.deep_view() == transaction.deep_view().outputs(),
    ensures
        error::outcome(r) == balance_check(transaction.deep_view(), input_total),
{
    let ghost v = outputs.deep_view();
    let mut output_total: u64 = 0;
    let mut i: usize = 0;
    proof {
        model::take_all(v);
    }
    while i < outputs.len()
        invariant
            i <= outputs.len(),
            v == outputs.deep_view(),
            v == transaction.deep_view().outputs(),
            output_total == sum_of(v.take(i as int)),
        decreases outputs.len() - i,
    {
        proof {
            assert(v.take(i + 1).drop_last() =~= v.take(i as int));
            sum_grows(v, i + 1);
        }
        match output_total.checked_add(outputs[i].amount) {
            None => return Err(Error::new("transaction outputs overflow")),
            Some(sum) => {
                output_total = sum;
            },
        }
        i = i + 1;
    }
    proof {
        model::take_all(v);
    }
    let with_fee: u64 = match output_total.checked_add(transaction.fee()) {
        None => return Err(Error::new("transaction outputs plus fee overflow")),
        Some(sum) => sum,
    };
    let required: u64 = match with_fee.checked_add(transaction.burned()) {
        None => return Err(Error::new("transaction outputs plus burn overflow")),
        Some(sum) => sum,
    };
    if input_total != required {
        return Err(Error::new("transaction inputs do not balance outputs, burn, and fee"));
    }
    Ok(())
}

pub(crate) fn credit_outputs(utxos: &mut Utxos, txid: &str, outputs: &Vec<TxOutput>)
    requires
        old(utxos).wf(),
    ensures
        final(utxos).wf(),
        final(utxos).deep_view() == credit(old(utxos).deep_view(), txid@, outputs.deep_view()),
{
    let ghost v = outputs.deep_view();
    let ghost u = utxos.deep_view();
    let mut i: usize = 0;
    proof {
        model::take_all(v);
    }
    while i < outputs.len()
        invariant
            i <= outputs.len(),
            v == outputs.deep_view(),
            utxos.wf(),
            utxos.deep_view() == credit(u, txid@, v.take(i as int)),
        decreases outputs.len() - i,
    {
        proof {
            assert(v.take(i + 1).drop_last() =~= v.take(i as int));
        }
        utxos.insert(OutPoint { txid: text::text(txid), index: i as u32 }, outputs[i].duplicate());
        i = i + 1;
    }
    proof {
        model::take_all(v);
    }
}

/// Whether every transaction is signed by its sender, or proves its work.
#[verifier::opaque]
pub open spec fn all_signed(transactions: Seq<TransactionView>) -> bool {
    forall|i: int| 0 <= i < transactions.len() ==> (#[trigger] transactions[i]).signature_check() is Ok
}

pub(crate) proof fn signed_push(transactions: Seq<TransactionView>, t: TransactionView)
    requires
        all_signed(transactions),
        t.signature_check() is Ok,
    ensures
        all_signed(transactions.push(t)),
{
    reveal(all_signed);
}

pub(crate) proof fn signed_remove(transactions: Seq<TransactionView>, n: int)
    requires
        all_signed(transactions),
        0 <= n < transactions.len(),
    ensures
        transactions[n].signature_check() is Ok,
        all_signed(transactions.remove(n)),
{
    reveal(all_signed);
    assert(transactions[n].signature_check() is Ok);
    assert forall|i: int| 0 <= i < transactions.remove(n).len() implies (#[trigger] transactions.remove(
        n,
    )[i]).signature_check() is Ok by {
        if i < n {
            assert(transactions[i].signature_check() is Ok);
        } else {
            assert(transactions[i + 1].signature_check() is Ok);
        }
    }
}

pub(crate) proof fn signed_filter(transactions: Seq<TransactionView>, p: spec_fn(TransactionView) -> bool)
    requires
        all_signed(transactions),
    ensures
        all_signed(transactions.filter(p)),
{
    reveal(all_signed);
    assert forall|i: int| 0 <= i < transactions.filter(p).len() implies (#[trigger] transactions.filter(
        p,
    )[i]).signature_check() is Ok by {
        model::filter_keeps(transactions, p, i);
        let k = choose|k: int| 0 <= k < transactions.len() && #[trigger] transactions[k] == transactions.filter(p)[i];
        assert(transactions[k].signature_check() is Ok);
    }
}

/// Applies a transaction to the unspent outputs.
pub fn apply_transaction(transaction: &Transaction, utxos: &mut Utxos) -> (r: Result<(), Error>)
    requires
        old(utxos).wf(),
    ensures
        final(utxos).wf(),
        final(utxos).deep_view() == applied(transaction.deep_view(), old(utxos).deep_view()).0,
        error::outcome(r) == applied(transaction.deep_view(), old(utxos).deep_view()).1,
{
    transaction.verify_signature()?;
    apply_signed_transaction(transaction, utxos)
}

/// Applies a transaction that is known to be signed to the unspent outputs.
pub(crate) fn apply_signed_transaction(transaction: &Transaction, utxos: &mut Utxos) -> (r: Result<(), Error>)
    requires
        old(utxos).wf(),
        transaction.deep_view().signature_check() is Ok,
    ensures
        final(utxos).wf(),
        final(utxos).deep_view() == applied(transaction.deep_view(), old(utxos).deep_view()).0,
        error::outcome(r) == applied(transaction.deep_view(), old(utxos).deep_view()).1,
{
    let outputs = transaction.outputs();
    if transaction.is_mine() {
        ensure_outputs_do_not_overflow(utxos, &outputs)?;
        utxos.insert(
            OutPoint { txid: text::text(transaction.signature()), index: 0 },
            outputs[0].duplicate(),
        );
        return Ok(());
    }
    ensure_single_input_owner(transaction)?;
    let inputs = transaction.inputs();
    let input_total = spend_inputs(&inputs, utxos)?;
    ensure_balanced(transaction, &outputs, input_total)?;
    ensure_outputs_do_not_overflow(utxos, &outputs)?;
    credit_outputs(utxos, transaction.signature(), &outputs);
    Ok(())
}

/// Whether a transaction that is known to be signed would be accepted.
pub(crate) fn transaction_applies(transaction: &Transaction, utxos: &Utxos) -> (r: bool)
    requires
        utxos.wf(),
        transaction.deep_view().signature_check() is Ok,
    ensures
        r == applies(transaction.deep_view(), utxos.deep_view()),
{
    let mut scratch = utxos.duplicate();
    proof {
        utxos.wf_is_increasing();
        scratch.wf_is_increasing();
    }
    apply_signed_transaction(transaction, &mut scratch).is_ok()
}

/// Whether some input of the transaction is spent by one of the others.
pub open spec fn spent_by(t: TransactionView, others: Seq<TransactionView>) -> bool {
    exists|i: int, k: int|
        0 <= i < t.inputs().len() && 0 <= k < others.len() && spends(
            (#[trigger] others[k]).inputs(),
            (#[trigger] t.inputs()[i]).outpoint,
        )
}

/// Whether some input of the transaction is not among the unspent outputs.
pub open spec fn has_missing_inputs(t: TransactionView, u: UtxosView) -> bool {
    exists|i: int| 0 <= i < t.inputs().len() && sorted::lookup(u, (#[trigger] t.inputs()[i]).outpoint) is None
}

pub(crate) fn inputs_spend(inputs: &Vec<TxInput>, outpoint: &OutPoint) -> (r: bool)
    ensures
        r == spends(inputs.deep_view(), outpoint.deep_view()),
{
    let mut i: usize = 0;
    while i < inputs.len()
        invariant
            i <= inputs.len(),
            forall|j: int| 0 <= j < i ==> (#[trigger] inputs.deep_view()[j]).outpoint != outpoint.deep_view(),
        decreases inputs.len() - i,
    {
        if inputs[i].outpoint.same(outpoint) {
            assert(inputs.deep_view()[i as int].outpoint == outpoint.deep_view());
            return true;
        }
        i = i + 1;
    }
    false
}

pub fn transaction_inputs_spent_by(transaction: &Transaction, pending: &Vec<Transaction>) -> (r: bool)
    ensures
        r == spent_by(transaction.deep_view(), pending.deep_view()),
{
    let inputs = transaction.inputs();
    let ghost t = transaction.deep_view();
    let ghost p = pending.deep_view();
    let mut k: usize = 0;
    while k < pending.len()
        invariant
            k <= pending.len(),
            p == pending.deep_view(),
            t == transaction.deep_view(),
            inputs.deep_view() == t.inputs(),
            forall|i: int, j: int|
                0 <= i < t.inputs().len() && 0 <= j < k ==> !spends(
                    (#[trigger] p[j]).inputs(),
                    (#[trigger] t.inputs()[i]).outpoint,
                ),
        decreases pending.len() - k,
    {
        let other = pending[k].inputs();
        let mut i: usize = 0;
        while i < inputs.len()
            invariant
                i <= inputs.len(),
                k < pending.len(),
                p == pending.deep_view(),
                t == transaction.deep_view(),
                other.deep_view() == p[k as int].inputs(),
                inputs.deep_view() == t.inputs(),
                forall|j: int|
                    0 <= j < i ==> !spends(p[k as int].inputs(), (#[trigger] t.inputs()[j]).outpoint),
            decreases inputs.len() - i,
        {
            if inputs_spend(&other, &inputs[i].outpoint) {
                assert(spends(p[k as int].inputs(), t.inputs()[i as int].outpoint));
                return true;
            }
            i = i + 1;
        }
        k = k + 1;
    }
    false
}

pub fn transaction_has_missing_inputs(transaction: &Transaction, utxos: &Utxos) -> (r: bool)
    requires
        utxos.wf(),
    ensures
        r == has_missing_inputs(transaction.deep_view(), utxos.deep_view()),
{
    let inputs = transaction.inputs();
    let ghost t = transaction.deep_view();
    let mut i: usize = 0;
    while i < inputs.len()
        invariant
            i <= inputs.len(),
            utxos.wf(),
            t == transaction.deep_view(),
            inputs.deep_view() == t.inputs(),
            forall|j: int|
                0 <= j < i ==> sorted::lookup(utxos.deep_view(), (#[trigger] t.inputs()[j]).outpoint) is Some,
        decreases inputs.len() - i,
    {
        if !utxos.contains_key(&inputs[i].outpoint) {
            assert(sorted::lookup(utxos.deep_view(), t.inputs()[i as int].outpoint) is None);
            return true;
        }
        i = i + 1;
    }
    false
}

pub proof fn balance_in_append(a: Seq<TxOutputView>, b: Seq<TxOutputView>, address: Seq<char>)
    ensures
        balance_in(a + b, address) == balance_in(a, address) + balance_in(b, address),
    decreases b.len(),
{
    if b.len() == 0 {
        assert(a + b =~= a);
    } else {
        assert((a + b).drop_last() =~= a + b.drop_last());
        balance_in_append(a, b.drop_last(), address);
    }
}

pub proof fn sum_of_append(a: Seq<TxOutputView>, b: Seq<TxOutputView>)
    ensures
        sum_of(a + b) == sum_of(a) + sum_of(b),
    decreases b.len(),
{
    if b.len() == 0 {
        assert(a + b =~= a);
    } else {
        assert((a + b).drop_last() =~= a + b.drop_last());
        sum_of_append(a, b.drop_last());
    }
}

/// What one output adds to the balance of an address.
pub open spec fn share(output: TxOutputView, address: Seq<char>) -> nat {
    if output.address == address {
        output.amount as nat
    } else {
        0
    }
}

pub proof fn single_output(output: TxOutputView, address: Seq<char>)
    ensures
        balance_in(seq![output], address) == share(output, address),
        sum_of(seq![output]) == output.amount,
{
    let s = seq![output];
    assert(s.drop_last() =~= Seq::<TxOutputView>::empty());
    assert(balance_in(s.drop_last(), address) == 0);
    assert(sum_of(s.drop_last()) == 0);
}

/// Splitting outputs around one place.
proof fn split_outputs(u: UtxosView, n: int, address: Seq<char>)
    requires
        0 <= n < u.len(),
    ensures
        balance(u, address) == balance(u.take(n), address) + share(u[n].1, address) + balance(
            u.skip(n + 1),
            address,
        ),
        supply(u) == supply(u.take(n)) + u[n].1.amount + supply(u.skip(n + 1)),
{
    let a = outputs_of(u.take(n));
    let b = seq![u[n].1];
    let c = outputs_of(u.skip(n + 1));
    assert(outputs_of(u) =~= a + b + c);
    balance_in_append(a + b, c, address);
    balance_in_append(a, b, address);
    sum_of_append(a + b, c);
    sum_of_append(a, b);
    single_output(u[n].1, address);
}

/// The amounts around a place where nothing is.
proof fn join_outputs(u: UtxosView, n: int, address: Seq<char>)
    requires
        0 <= n <= u.len(),
    ensures
        balance(u, address) == balance(u.take(n), address) + balance(u.skip(n), address),
        supply(u) == supply(u.take(n)) + supply(u.skip(n)),
{
    let a = outputs_of(u.take(n));
    let c = outputs_of(u.skip(n));
    assert(outputs_of(u) =~= a + c);
    balance_in_append(a, c, address);
    sum_of_append(a, c);
}

/// The amount that an output in the map takes up, none meaning zero.
pub open spec fn held(u: UtxosView, outpoint: OutPointView) -> nat {
    match sorted::lookup(u, outpoint) {
        Some(output) => output.amount as nat,
        None => 0,
    }
}

pub open spec fn held_share(u: UtxosView, outpoint: OutPointView, address: Seq<char>) -> nat {
    match sorted::lookup(u, outpoint) {
        Some(output) => share(output, address),
        None => 0,
    }
}

/// What adding an output does to balances and to the supply.
pub proof fn effect_of_adding(u: UtxosView, k: OutPointView, v: TxOutputView, address: Seq<char>)
    requires
        sorted::increasing::<OutPoint, TxOutputView>(u),
    ensures
        balance(sorted::with::<OutPoint, TxOutputView>(u, k, v), address) + held_share(u, k, address) == balance(
            u,
            address,
        ) + share(v, address),
        supply(sorted::with::<OutPoint, TxOutputView>(u, k, v)) + held(u, k) == supply(u) + v.amount,
{
    let n = sorted::place_exists::<OutPoint, TxOutputView>(u, k);
    sorted::at_place::<OutPoint, TxOutputView>(u, k, v, n);
    let w = sorted::with::<OutPoint, TxOutputView>(u, k, v);
    split_outputs(w, n, address);
    if n < u.len() && u[n].0 == k {
        split_outputs(u, n, address);
        assert(w.take(n) =~= u.take(n));
        assert(w.skip(n + 1) =~= u.skip(n + 1));
    } else {
        join_outputs(u, n, address);
        assert(w.take(n) =~= u.take(n));
        assert(w.skip(n + 1) =~= u.skip(n));
    }
}

/// What taking an output out does to balances and to the supply.
pub proof fn effect_of_removing(u: UtxosView, k: OutPointView, address: Seq<char>)
    requires
        sorted::increasing::<OutPoint, TxOutputView>(u),
    ensures
        balance(sorted::without(u, k), address) + held_share(u, k, address) == balance(u, address),
        supply(sorted::without(u, k)) + held(u, k) == supply(u),
{
    let n = sorted::place_exists::<OutPoint, TxOutputView>(u, k);
    sorted::at_place::<OutPoint, TxOutputView>(u, k, arbitrary(), n);
    let w = sorted::without(u, k);
    if n < u.len() && u[n].0 == k {
        split_outputs(u, n, address);
        join_outputs(w, n, address);
        assert(w.take(n) =~= u.take(n));
        assert(w.skip(n) =~= u.skip(n + 1));
    }
}

pub proof fn balance_grows(outputs: Seq<TxOutputView>, n: int, address: Seq<char>)
    requires
        0 <= n <= outputs.len(),
    ensures
        balance_in(outputs.take(n), address) <= balance_in(outputs, address),
{
    assert(outputs =~= outputs.take(n) + outputs.skip(n));
    balance_in_append(outputs.take(n), outputs.skip(n), address);
}

/// Where no overflow is found, every balance is an amount.
pub proof fn no_overflow_means_fits(outputs: Seq<TxOutputView>, address: Seq<char>)
    requires
        overflow_in(outputs) is None,
    ensures
        balance_in(outputs, address) <= u64::MAX,
    decreases outputs.len(),
{
    if outputs.len() > 0 {
        no_overflow_means_fits(outputs.drop_last(), address);
    }
}

/// Where every balance is an amount, no overflow is found.
pub proof fn fits_means_no_overflow(outputs: Seq<TxOutputView>)
    requires
        forall|address: Seq<char>| #[trigger] balance_in(outputs, address) <= u64::MAX,
    ensures
        overflow_in(outputs) is None,
    decreases outputs.len(),
{
    if outputs.len() > 0 {
        let d = outputs.drop_last();
        assert forall|address: Seq<char>| #[trigger] balance_in(d, address) <= u64::MAX by {
            assert(balance_in(outputs, address) <= u64::MAX);
        }
        fits_means_no_overflow(d);
    }
}

/// Spending inputs takes exactly their amounts out, and adds nothing.
pub proof fn effect_of_spending(inputs: Seq<TxInputView>, u: UtxosView, address: Seq<char>)
    requires
        sorted::increasing::<OutPoint, TxOutputView>(u),
    ensures
        sorted::increasing::<OutPoint, TxOutputView>(spend(inputs, u).0),
        balance(spend(inputs, u).0, address) <= balance(u, address),
        supply(spend(inputs, u).0) <= supply(u),
        spend(inputs, u).1 matches Ok(total) ==> supply(spend(inputs, u).0) + total == supply(u),
    decreases inputs.len(),
{
    if inputs.len() > 0 {
        let d = inputs.drop_last();
        effect_of_spending(d, u, address);
        let v = spend(d, u).0;
        let k = inputs.last().outpoint;
        effect_of_removing(v, k, address);
        sorted::with_increasing::<OutPoint, TxOutputView>(v, k, arbitrary());
    }
}

/// The references that the outputs of a transaction get.
pub open spec fn fresh(u: UtxosView, txid: Seq<char>, count: nat) -> bool {
    forall|i: int|
        0 <= i < count ==> sorted::lookup(u, #[trigger] output_reference(txid, i)) is None
}

pub open spec fn output_reference(txid: Seq<char>, place: int) -> OutPointView {
    OutPointView { txid, index: place as u32 }
}

/// Crediting outputs adds at most their amounts; exactly these where the references are new.
pub proof fn effect_of_crediting(u: UtxosView, txid: Seq<char>, outputs: Seq<TxOutputView>, address: Seq<char>)
    requires
        sorted::increasing::<OutPoint, TxOutputView>(u),
    ensures
        sorted::increasing::<OutPoint, TxOutputView>(credit(u, txid, outputs)),
        balance(credit(u, txid, outputs), address) <= balance(u, address) + balance_in(outputs, address),
        supply(credit(u, txid, outputs)) <= supply(u) + sum_of(outputs),
        fresh(u, txid, outputs.len()) && outputs.len() <= 0x1_0000_0000 ==> {
            &&& balance(credit(u, txid, outputs), address) == balance(u, address) + balance_in(outputs, address)
            &&& supply(credit(u, txid, outputs)) == supply(u) + sum_of(outputs)
            &&& forall|k: OutPointView|
                (forall|i: int| 0 <= i < outputs.len() ==> k != #[trigger] output_reference(txid, i))
                    ==> #[trigger] sorted::lookup(credit(u, txid, outputs), k) == sorted::lookup(u, k)
        },
    decreases outputs.len(),
{
    if outputs.len() > 0 {
        let d = outputs.drop_last();
        let c = credit(u, txid, d);
        let k = output_reference(txid, outputs.len() - 1);
        let v = outputs.last();
        effect_of_crediting(u, txid, d, address);
        effect_of_adding(c, k, v, address);
        sorted::with_increasing::<OutPoint, TxOutputView>(c, k, v);
        if fresh(u, txid, outputs.len()) && outputs.len() <= 0x1_0000_0000 {
            assert forall|i: int| 0 <= i < d.len() implies sorted::lookup(u, #[trigger] output_reference(txid, i)) is None by {
                assert(0 <= i < outputs.len());
            }
            assert forall|i: int| 0 <= i < d.len() implies k != #[trigger] output_reference(txid, i) by {
                assert(k.index == (outputs.len() - 1) as u32);
                assert((outputs.len() - 1) as u32 == outputs.len() - 1);
                assert(i as u32 == i);
            }
            assert(sorted::lookup(c, k) == sorted::lookup(u, k));
            let w = credit(u, txid, outputs);
            assert forall|x: OutPointView|
                (forall|i: int| 0 <= i < outputs.len() ==> x != #[trigger] output_reference(txid, i)) implies
                #[trigger] sorted::lookup(w, x) == sorted::lookup(u, x) by {
                sorted::read_after_write::<OutPoint, TxOutputView>(c, k, v, x);
                assert(x != output_reference(txid, outputs.len() - 1));
                assert forall|i: int| 0 <= i < d.len() implies x != #[trigger] output_reference(txid, i) by {
                    assert(0 <= i < outputs.len());
                }
                assert(sorted::lookup(c, x) == sorted::lookup(u, x));
            }
        }
    }
}

/// Whatever becomes of a transaction, the references stay in order and every balance stays an
/// amount.
pub proof fn applying_keeps_balances_fitting(t: TransactionView, u: UtxosView)
    requires
        sorted::increasing::<OutPoint, TxOutputView>(u),
        balances_fit(u),
    ensures
        sorted::increasing::<OutPoint, TxOutputView>(applied(t, u).0),
        balances_fit(applied(t, u).0),
{
    let w = applied(t, u).0;
    let v = spend(t.inputs(), u).0;
    assert forall|address: Seq<char>| #[trigger] balance(w, address) <= u64::MAX by {
        assert(balance(u, address) <= u64::MAX);
        effect_of_spending(t.inputs(), u, address);
        if t is Mine {
            if w != u {
                no_overflow_means_fits(outputs_of(u) + t.outputs(), address);
                balance_in_append(outputs_of(u), t.outputs(), address);
                single_output(t.outputs()[0], address);
                assert(t.outputs() =~= seq![t.outputs()[0]]);
                effect_of_adding(u, OutPointView { txid: t.signature(), index: 0 }, t.outputs()[0], address);
            }
        } else if applied(t, u).1 is Ok {
            no_overflow_means_fits(outputs_of(v) + t.outputs(), address);
            balance_in_append(outputs_of(v), t.outputs(), address);
            effect_of_crediting(v, t.signature(), t.outputs(), address);
        }
    }
    effect_of_spending(t.inputs(), u, Seq::<char>::empty());
    if t is Mine {
        sorted::with_increasing::<OutPoint, TxOutputView>(
            u,
            OutPointView { txid: t.signature(), index: 0 },
            t.outputs()[0],
        );
    } else {
        effect_of_crediting(v, t.signature(), t.outputs(), Seq::<char>::empty());
    }
}

/// An accepted transfer or burn creates no money: what is left, the fee and the burn are at most
/// what was there, and exactly that where the references of its outputs are new.
pub proof fn transactions_conserve_money(t: TransactionView, u: UtxosView)
    requires
        sorted::increasing::<OutPoint, TxOutputView>(u),
        !(t is Mine),
        applies(t, u),
    ensures
        supply(applied(t, u).0) + t.fee() + t.burned() <= supply(u),
        fresh(spend(t.inputs(), u).0, t.signature(), t.outputs().len()) && t.outputs().len() <= 0x1_0000_0000
            ==> supply(applied(t, u).0) + t.fee() + t.burned() == supply(u),
{
    let v = spend(t.inputs(), u).0;
    effect_of_spending(t.inputs(), u, Seq::<char>::empty());
    effect_of_crediting(v, t.signature(), t.outputs(), Seq::<char>::empty());
}

/// An accepted mine action adds at most the mine reward, and exactly that where it is new.
pub proof fn mining_adds_the_reward(t: TransactionView, u: UtxosView)
    requires
        sorted::increasing::<OutPoint, TxOutputView>(u),
        t is Mine,
        applies(t, u),
    ensures
        supply(applied(t, u).0) <= supply(u) + MINE_REWARD,
        sorted::lookup(u, OutPointView { txid: t.signature(), index: 0 }) is None ==> supply(applied(t, u).0)
            == supply(u) + MINE_REWARD,
{
    effect_of_adding(
        u,
        OutPointView { txid: t.signature(), index: 0 },
        t.outputs()[0],
        Seq::<char>::empty(),
    );
}

proof fn spent_inputs_are_gone(inputs: Seq<TxInputView>, u: UtxosView, n: int)
    requires
        sorted::increasing::<OutPoint, TxOutputView>(u),
        spend(inputs, u).1 is Ok,
        0 <= n < inputs.len(),
    ensures
        sorted::lookup(u, inputs[n].outpoint) is Some,
        sorted::lookup(spend(inputs, u).0, inputs[n].outpoint) is None,
    decreases inputs.len(),
{
    let d = inputs.drop_last();
    let k = inputs.last().outpoint;
    effect_of_spending(d, u, Seq::<char>::empty());
    let v = spend(d, u).0;
    sorted::read_after_removal::<OutPoint, TxOutputView>(v, k, inputs[n].outpoint);
    if n < d.len() {
        spent_inputs_are_gone(d, u, n);
    } else {
        spending_only_removes(d, u, k);
    }
}

pub proof fn spending_only_removes(inputs: Seq<TxInputView>, u: UtxosView, k: OutPointView)
    requires
        sorted::increasing::<OutPoint, TxOutputView>(u),
    ensures
        sorted::lookup(spend(inputs, u).0, k) is Some ==> sorted::lookup(spend(inputs, u).0, k)
            == sorted::lookup(u, k),
    decreases inputs.len(),
{
    if inputs.len() > 0 {
        let d = inputs.drop_last();
        effect_of_spending(d, u, Seq::<char>::empty());
        spending_only_removes(d, u, k);
        sorted::read_after_removal::<OutPoint, TxOutputView>(spend(d, u).0, inputs.last().outpoint, k);
    }
}

proof fn missing_input_refused(inputs: Seq<TxInputView>, u: UtxosView, n: int)
    requires
        sorted::increasing::<OutPoint, TxOutputView>(u),
        0 <= n < inputs.len(),
        sorted::lookup(u, inputs[n].outpoint) is None,
    ensures
        spend(inputs, u).1 is Err,
    decreases inputs.len(),
{
    if spend(inputs, u).1 is Ok {
        spent_inputs_are_gone(inputs, u, n);
    }
}

/// What was spent cannot be spent again: after an accepted transfer or burn whose inputs are not
/// among its own outputs, a transaction that spends one of the same outputs is refused.
pub proof fn no_double_spend(t: TransactionView, other: TransactionView, u: UtxosView, i: int, k: int)
    requires
        sorted::increasing::<OutPoint, TxOutputView>(u),
        !(t is Mine),
        !(other is Mine),
        applies(t, u),
        0 <= i < t.inputs().len(),
        0 <= k < other.inputs().len(),
        other.inputs()[k].outpoint == t.inputs()[i].outpoint,
        t.inputs()[i].outpoint.txid != t.signature(),
        fresh(spend(t.inputs(), u).0, t.signature(), t.outputs().len()),
        t.outputs().len() <= 0x1_0000_0000,
    ensures
        !applies(other, applied(t, u).0),
{
    let v = spend(t.inputs(), u).0;
    let w = applied(t, u).0;
    let x = t.inputs()[i].outpoint;
    effect_of_spending(t.inputs(), u, Seq::<char>::empty());
    effect_of_crediting(v, t.signature(), t.outputs(), Seq::<char>::empty());
    spent_inputs_are_gone(t.inputs(), u, i);
    assert forall|j: int| 0 <= j < t.outputs().len() implies x != #[trigger] output_reference(t.signature(), j) by {}
    assert(sorted::lookup(w, x) == sorted::lookup(v, x));
    missing_input_refused(other.inputs(), w, k);
}

} // verus!
