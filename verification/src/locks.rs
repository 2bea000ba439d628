//! What sealed transactions hold: the outputs that an envelope names leave the unspent outputs when
//! a block includes it, and come back when it is opened or expires.
use crate::blinded::{BlindedTransaction, BlindedTransactionView};
use crate::error;
use crate::error::Error;
use crate::model;
use crate::model::Model;
use crate::sorted;
use crate::text;
use crate::transaction::{OutPoint, OutPointView, TxInput, TxInputView, TxOutputView};
use crate::utxo;
use crate::utxo::{Utxos, UtxosView};
use vstd::prelude::*;
use vstd::string::*;

verus! {

/// The unspent outputs, and those that envelopes hold.
#[verifier::ext_equal]
pub struct HoldingsView {
    pub free: UtxosView,
    pub locked: UtxosView,
}

/// The unspent outputs, and those that envelopes hold.
#[derive(Debug)]
pub struct Holdings {
    pub free: Utxos,
    pub locked: Utxos,
}

impl DeepView for Holdings {
    type V = HoldingsView;

    open spec fn deep_view(&self) -> HoldingsView {
        HoldingsView { free: self.free.deep_view(), locked: self.locked.deep_view() }
    }
}

impl Holdings {
    pub open spec fn wf(&self) -> bool {
        self.free.wf() && self.locked.wf()
    }
}

impl HoldingsView {
    /// What holds of every ledger's holdings.
    pub open spec fn valid(self) -> bool {
        &&& sorted::increasing::<OutPoint, TxOutputView>(self.free)
        &&& sorted::increasing::<OutPoint, TxOutputView>(self.locked)
        &&& utxo::balances_fit(self.free)
        &&& fit_together(self.free, self.locked)
    }

    /// All the money there is.
    pub open spec fn supply(self) -> nat {
        utxo::supply(self.free) + utxo::supply(self.locked)
    }
}

/// Every balance is an amount, with what is held counted in.
#[verifier::opaque]
pub open spec fn fit_together(free: UtxosView, locked: UtxosView) -> bool {
    forall|address: Seq<char>| #[trigger] utxo::balance(free, address) + utxo::balance(locked, address) <= u64::MAX
}

/// Whether no balance exceeds the range of amounts, with what is held counted in.
#[verifier::opaque]
pub open spec fn room_check(free: UtxosView, locked: UtxosView) -> Result<(), Seq<char>> {
    utxo::overflow_check(free, utxo::outputs_of(locked))
}

/// There is room exactly where every balance is an amount.
pub proof fn room_means_fits(free: UtxosView, locked: UtxosView)
    ensures
        room_check(free, locked) is Ok <==> fit_together(free, locked),
{
    reveal(fit_together);
    reveal(room_check);
    let (a, b) = (utxo::outputs_of(free), utxo::outputs_of(locked));
    if room_check(free, locked) is Ok {
        assert forall|address: Seq<char>| #[trigger]
            utxo::balance(free, address) + utxo::balance(locked, address) <= u64::MAX by {
            utxo::no_overflow_means_fits(a + b, address);
            utxo::balance_in_append(a, b, address);
        }
    }
    if fit_together(free, locked) {
        assert forall|address: Seq<char>| #[trigger] utxo::balance_in(a + b, address) <= u64::MAX by {
            utxo::balance_in_append(a, b, address);
            assert(utxo::balance(free, address) + utxo::balance(locked, address) <= u64::MAX);
        }
        utxo::fits_means_no_overflow(a + b);
    }
}

/// Where nothing is held, nothing more is counted in.
pub proof fn nothing_held_fits(free: UtxosView)
    requires
        utxo::balances_fit(free),
    ensures
        fit_together(free, Seq::<(OutPointView, TxOutputView)>::empty()),
{
    reveal(fit_together);
    let none = Seq::<(OutPointView, TxOutputView)>::empty();
    assert forall|address: Seq<char>| #[trigger]
        utxo::balance(free, address) + utxo::balance(none, address) <= u64::MAX by {
        assert(utxo::outputs_of(none).len() == 0);
    }
}

/// What fits still fits once some of it is gone.
pub proof fn less_still_fits(free: UtxosView, left: UtxosView, locked: UtxosView)
    requires
        fit_together(free, locked),
        forall|address: Seq<char>| #[trigger] utxo::balance(left, address) <= utxo::balance(free, address),
    ensures
        fit_together(left, locked),
{
    reveal(fit_together);
    assert forall|address: Seq<char>| #[trigger]
        utxo::balance(left, address) + utxo::balance(locked, address) <= u64::MAX by {
        assert(utxo::balance(free, address) + utxo::balance(locked, address) <= u64::MAX);
    }
}

/// Refuses outputs that together with those held would lift a balance out of the range of amounts.
pub fn ensure_room(free: &Utxos, locked: &Utxos) -> (r: Result<(), Error>)
    requires
        utxo::balances_fit(free.deep_view()),
    ensures
        error::outcome(r) == room_check(free.deep_view(), locked.deep_view()),
{
    proof {
        reveal(room_check);
    }
    if locked.is_empty() {
        proof {
            let u = free.deep_view();
            assert(utxo::outputs_of(u) + utxo::outputs_of(locked.deep_view()) =~= utxo::outputs_of(u));
            assert forall|address: Seq<char>| #[trigger] utxo::balance_in(utxo::outputs_of(u), address) <= u64::MAX by {
                assert(utxo::balance(u, address) <= u64::MAX);
            }
            utxo::fits_means_no_overflow(utxo::outputs_of(u));
        }
        return Ok(());
    }
    utxo::ensure_outputs_do_not_overflow(free, &utxo::utxo_outputs(locked))
}

/// The holdings once the outputs that inputs name are locked.
pub open spec fn lock(inputs: Seq<TxInputView>, h: HoldingsView) -> Result<HoldingsView, Seq<char>>
    decreases inputs.len(),
{
    if inputs.len() == 0 {
        Ok(h)
    } else {
        match lock(inputs.drop_last(), h) {
            Err(e) => Err(e),
            Ok(g) => lock_one(inputs.last(), g),
        }
    }
}

pub open spec fn lock_one(input: TxInputView, h: HoldingsView) -> Result<HoldingsView, Seq<char>> {
    match sorted::lookup(h.free, input.outpoint) {
        None => Err("blinded transaction spends missing output "@ + input.outpoint.id()),
        Some(output) => if output.address != input.owner {
            Err("blinded transaction input owner does not match spent output"@)
        } else if sorted::lookup(h.locked, input.outpoint) is Some {
            Err("blinded transaction spends locked output "@ + input.outpoint.id())
        } else {
            Ok(
                HoldingsView {
                    free: sorted::without(h.free, input.outpoint),
                    locked: sorted::with::<OutPoint, TxOutputView>(h.locked, input.outpoint, output),
                },
            )
        },
    }
}

/// The holdings once the outputs that inputs name are unspent again.
pub open spec fn release(inputs: Seq<TxInputView>, h: HoldingsView) -> Result<HoldingsView, Seq<char>>
    decreases inputs.len(),
{
    if inputs.len() == 0 {
        Ok(h)
    } else {
        match release(inputs.drop_last(), h) {
            Err(e) => Err(e),
            Ok(g) => release_one(inputs.last(), g),
        }
    }
}

pub open spec fn release_one(input: TxInputView, h: HoldingsView) -> Result<HoldingsView, Seq<char>> {
    match sorted::lookup(h.locked, input.outpoint) {
        None => Err("blinded transaction input is not locked: "@ + input.outpoint.id()),
        Some(output) => Ok(
            HoldingsView {
                free: sorted::with::<OutPoint, TxOutputView>(h.free, input.outpoint, output),
                locked: sorted::without(h.locked, input.outpoint),
            },
        ),
    }
}

/// The holdings once envelopes are included, one after another.
pub open spec fn lock_all(envelopes: Seq<BlindedTransactionView>, h: HoldingsView) -> Result<HoldingsView, Seq<char>>
    decreases envelopes.len(),
{
    if envelopes.len() == 0 {
        Ok(h)
    } else {
        match lock_all(envelopes.drop_last(), h) {
            Err(e) => Err(e),
            Ok(g) => lock(envelopes.last().inputs, g),
        }
    }
}

/// The holdings once envelopes expired, one after another.
pub open spec fn release_all(envelopes: Seq<BlindedTransactionView>, h: HoldingsView) -> Result<HoldingsView, Seq<char>>
    decreases envelopes.len(),
{
    if envelopes.len() == 0 {
        Ok(h)
    } else {
        match release_all(envelopes.drop_last(), h) {
            Err(e) => Err(e),
            Ok(g) => release(envelopes.last().inputs, g),
        }
    }
}

/// Whether an envelope names an output.
pub open spec fn reserves(envelopes: Seq<BlindedTransactionView>, outpoint: OutPointView) -> bool {
    exists|i: int| 0 <= i < envelopes.len() && utxo::spends((#[trigger] envelopes[i]).inputs, outpoint)
}

/// Whether two lists of inputs name an output in common.
pub open spec fn overlap(a: Seq<TxInputView>, b: Seq<TxInputView>) -> bool {
    exists|i: int| 0 <= i < a.len() && utxo::spends(b, (#[trigger] a[i]).outpoint)
}

/// Outputs without those that inputs name.
pub open spec fn dropped(u: UtxosView, inputs: Seq<TxInputView>) -> UtxosView
    decreases inputs.len(),
{
    if inputs.len() == 0 {
        u
    } else {
        sorted::without(dropped(u, inputs.drop_last()), inputs.last().outpoint)
    }
}

/// Outputs without those that envelopes name.
pub open spec fn unreserved(u: UtxosView, envelopes: Seq<BlindedTransactionView>) -> UtxosView
    decreases envelopes.len(),
{
    if envelopes.len() == 0 {
        u
    } else {
        dropped(unreserved(u, envelopes.drop_last()), envelopes.last().inputs)
    }
}

proof fn lock_stops(inputs: Seq<TxInputView>, h: HoldingsView, n: int)
    requires
        0 <= n <= inputs.len(),
        lock(inputs.take(n), h) is Err,
    ensures
        lock(inputs, h) == lock(inputs.take(n), h),
    decreases inputs.len(),
{
    if n < inputs.len() {
        assert(inputs.drop_last().take(n) =~= inputs.take(n));
        lock_stops(inputs.drop_last(), h, n);
    } else {
        model::take_all(inputs);
    }
}

proof fn release_stops(inputs: Seq<TxInputView>, h: HoldingsView, n: int)
    requires
        0 <= n <= inputs.len(),
        release(inputs.take(n), h) is Err,
    ensures
        release(inputs, h) == release(inputs.take(n), h),
    decreases inputs.len(),
{
    if n < inputs.len() {
        assert(inputs.drop_last().take(n) =~= inputs.take(n));
        release_stops(inputs.drop_last(), h, n);
    } else {
        model::take_all(inputs);
    }
}

pub proof fn lock_all_stops(envelopes: Seq<BlindedTransactionView>, h: HoldingsView, n: int)
    requires
        0 <= n <= envelopes.len(),
        lock_all(envelopes.take(n), h) is Err,
    ensures
        lock_all(envelopes, h) == lock_all(envelopes.take(n), h),
    decreases envelopes.len(),
{
    if n < envelopes.len() {
        assert(envelopes.drop_last().take(n) =~= envelopes.take(n));
        lock_all_stops(envelopes.drop_last(), h, n);
    } else {
        model::take_all(envelopes);
    }
}

proof fn release_all_stops(envelopes: Seq<BlindedTransactionView>, h: HoldingsView, n: int)
    requires
        0 <= n <= envelopes.len(),
        release_all(envelopes.take(n), h) is Err,
    ensures
        release_all(envelopes, h) == release_all(envelopes.take(n), h),
    decreases envelopes.len(),
{
    if n < envelopes.len() {
        assert(envelopes.drop_last().take(n) =~= envelopes.take(n));
        release_all_stops(envelopes.drop_last(), h, n);
    } else {
        model::take_all(envelopes);
    }
}

proof fn lock_one_keeps(input: TxInputView, h: HoldingsView)
    requires
        h.valid(),
    ensures
        lock_one(input, h) matches Ok(g) ==> g.valid() && g.supply() == h.supply(),
{
    reveal(fit_together);
    if let Ok(g) = lock_one(input, h) {
        let output = sorted::lookup(h.free, input.outpoint)->0;
        sorted::with_increasing::<OutPoint, TxOutputView>(h.locked, input.outpoint, output);
        sorted::with_increasing::<OutPoint, TxOutputView>(h.free, input.outpoint, output);
        utxo::effect_of_removing(h.free, input.outpoint, Seq::<char>::empty());
        utxo::effect_of_adding(h.locked, input.outpoint, output, Seq::<char>::empty());
        assert forall|address: Seq<char>| #[trigger]
            utxo::balance(g.free, address) + utxo::balance(g.locked, address) <= u64::MAX by {
            utxo::effect_of_removing(h.free, input.outpoint, address);
            utxo::effect_of_adding(h.locked, input.outpoint, output, address);
            assert(utxo::balance(h.free, address) + utxo::balance(h.locked, address) <= u64::MAX);
        }
    }
}

proof fn release_one_keeps(input: TxInputView, h: HoldingsView)
    requires
        h.valid(),
    ensures
        release_one(input, h) matches Ok(g) ==> g.valid() && g.supply() <= h.supply() && (sorted::lookup(
            h.free,
            input.outpoint,
        ) is None ==> g.supply() == h.supply()),
{
    reveal(fit_together);
    if let Ok(g) = release_one(input, h) {
        let output = sorted::lookup(h.locked, input.outpoint)->0;
        sorted::with_increasing::<OutPoint, TxOutputView>(h.free, input.outpoint, output);
        sorted::with_increasing::<OutPoint, TxOutputView>(h.locked, input.outpoint, output);
        utxo::effect_of_removing(h.locked, input.outpoint, Seq::<char>::empty());
        utxo::effect_of_adding(h.free, input.outpoint, output, Seq::<char>::empty());
        assert forall|address: Seq<char>| #[trigger]
            utxo::balance(g.free, address) + utxo::balance(g.locked, address) <= u64::MAX by {
            utxo::effect_of_removing(h.locked, input.outpoint, address);
            utxo::effect_of_adding(h.free, input.outpoint, output, address);
            assert(utxo::balance(h.free, address) + utxo::balance(h.locked, address) <= u64::MAX);
        }
    }
}

/// Locking outputs moves them, and no money comes or goes.
pub proof fn locking_moves_money(inputs: Seq<TxInputView>, h: HoldingsView)
    requires
        h.valid(),
    ensures
        lock(inputs, h) matches Ok(g) ==> g.valid() && g.supply() == h.supply(),
    decreases inputs.len(),
{
    if inputs.len() > 0 {
        locking_moves_money(inputs.drop_last(), h);
        if let Ok(g) = lock(inputs.drop_last(), h) {
            lock_one_keeps(inputs.last(), g);
        }
    }
}

/// Locking takes outputs that were unspent and belong to who spends them. Those are held afterwards and
/// not unspent; all others stay as they were.
pub proof fn locking_takes_what_is_named(inputs: Seq<TxInputView>, h: HoldingsView)
    requires
        h.valid(),
    ensures
        lock(inputs, h) matches Ok(g) ==> {
            &&& forall|k: OutPointView|
                #[trigger] sorted::lookup(g.free, k) == if utxo::spends(inputs, k) {
                    None
                } else {
                    sorted::lookup(h.free, k)
                }
            &&& forall|k: OutPointView|
                #[trigger] sorted::lookup(g.locked, k) == if utxo::spends(inputs, k) {
                    sorted::lookup(h.free, k)
                } else {
                    sorted::lookup(h.locked, k)
                }
            &&& forall|i: int|
                0 <= i < inputs.len() ==> (sorted::lookup(h.free, (#[trigger] inputs[i]).outpoint) matches Some(output)
                    && output.address == inputs[i].owner)
        },
    decreases inputs.len(),
{
    if inputs.len() > 0 {
        let earlier = inputs.drop_last();
        let input = inputs.last();
        locking_takes_what_is_named(earlier, h);
        locking_moves_money(earlier, h);
        if let Ok(g) = lock(earlier, h) {
            if let Ok(f) = lock_one(input, g) {
                let output = sorted::lookup(g.free, input.outpoint)->0;
                assert(!utxo::spends(earlier, input.outpoint));
                assert forall|k: OutPointView| #[trigger] sorted::lookup(f.free, k) == if utxo::spends(inputs, k) {
                    None
                } else {
                    sorted::lookup(h.free, k)
                } by {
                    sorted::read_after_removal::<OutPoint, TxOutputView>(g.free, input.outpoint, k);
                    spends_one_more(inputs, k);
                }
                assert forall|k: OutPointView| #[trigger] sorted::lookup(f.locked, k) == if utxo::spends(inputs, k) {
                    sorted::lookup(h.free, k)
                } else {
                    sorted::lookup(h.locked, k)
                } by {
                    sorted::read_after_write::<OutPoint, TxOutputView>(g.locked, input.outpoint, output, k);
                    spends_one_more(inputs, k);
                }
                assert forall|i: int| 0 <= i < inputs.len() implies (sorted::lookup(
                    h.free,
                    (#[trigger] inputs[i]).outpoint,
                ) matches Some(o) && o.address == inputs[i].owner) by {
                    if i < earlier.len() {
                        assert(earlier[i] == inputs[i]);
                    }
                }
            }
        }
    }
}

/// Included envelopes hold what they name: it was unspent or brought by an earlier step of the
/// block, and afterwards it is held and not unspent.
pub proof fn included_envelopes_hold_their_inputs(envelopes: Seq<BlindedTransactionView>, h: HoldingsView, k: OutPointView)
    requires
        h.valid(),
        reserves(envelopes, k),
    ensures
        lock_all(envelopes, h) matches Ok(g) ==> {
            &&& sorted::lookup(h.free, k) is Some
            &&& sorted::lookup(g.free, k) is None
            &&& sorted::lookup(g.locked, k) == sorted::lookup(h.free, k)
        },
    decreases envelopes.len(),
{
    let earlier = envelopes.drop_last();
    let last = envelopes.last();
    let n = choose|n: int| 0 <= n < envelopes.len() && utxo::spends((#[trigger] envelopes[n]).inputs, k);
    including_moves_money(earlier, h);
    others_are_left(earlier, h, k);
    if let Ok(g) = lock_all(earlier, h) {
        locking_takes_what_is_named(last.inputs, g);
        if n < earlier.len() {
            assert(utxo::spends(earlier[n].inputs, k));
            assert(reserves(earlier, k));
        }
        if reserves(earlier, k) {
            included_envelopes_hold_their_inputs(earlier, h, k);
            if lock(last.inputs, g) is Ok && utxo::spends(last.inputs, k) {
                let i = choose|i: int| 0 <= i < last.inputs.len() && (#[trigger] last.inputs[i]).outpoint == k;
                assert(sorted::lookup(g.free, last.inputs[i].outpoint) is Some);
            }
        } else if lock(last.inputs, g) is Ok {
            let i = choose|i: int| 0 <= i < last.inputs.len() && (#[trigger] last.inputs[i]).outpoint == k;
            assert(sorted::lookup(g.free, last.inputs[i].outpoint) is Some);
        }
    }
}

pub proof fn others_are_left(envelopes: Seq<BlindedTransactionView>, h: HoldingsView, k: OutPointView)
    requires
        h.valid(),
    ensures
        !reserves(envelopes, k) ==> (lock_all(envelopes, h) matches Ok(g) ==> sorted::lookup(g.free, k)
            == sorted::lookup(h.free, k) && sorted::lookup(g.locked, k) == sorted::lookup(h.locked, k)),
    decreases envelopes.len(),
{
    if envelopes.len() > 0 && !reserves(envelopes, k) {
        let earlier = envelopes.drop_last();
        assert(!reserves(earlier, k)) by {
            if reserves(earlier, k) {
                let n = choose|n: int| 0 <= n < earlier.len() && utxo::spends((#[trigger] earlier[n]).inputs, k);
                assert(utxo::spends(envelopes[n].inputs, k));
            }
        }
        assert(!utxo::spends(envelopes[envelopes.len() - 1].inputs, k));
        others_are_left(earlier, h, k);
        including_moves_money(earlier, h);
        if let Ok(g) = lock_all(earlier, h) {
            locking_takes_what_is_named(envelopes.last().inputs, g);
        }
    }
}

/// Including envelopes moves money, and none comes or goes.
pub proof fn including_moves_money(envelopes: Seq<BlindedTransactionView>, h: HoldingsView)
    requires
        h.valid(),
    ensures
        lock_all(envelopes, h) matches Ok(g) ==> g.valid() && g.supply() == h.supply(),
    decreases envelopes.len(),
{
    if envelopes.len() > 0 {
        including_moves_money(envelopes.drop_last(), h);
        if let Ok(g) = lock_all(envelopes.drop_last(), h) {
            locking_moves_money(envelopes.last().inputs, g);
        }
    }
}

/// Whether none of the outputs that inputs name is unspent.
pub open spec fn all_absent(inputs: Seq<TxInputView>, u: UtxosView) -> bool {
    forall|i: int| 0 <= i < inputs.len() ==> sorted::lookup(u, (#[trigger] inputs[i]).outpoint) is None
}

/// Releasing outputs creates no money, and loses none where they are not unspent already.
pub proof fn releasing_moves_money(inputs: Seq<TxInputView>, h: HoldingsView)
    requires
        h.valid(),
    ensures
        release(inputs, h) matches Ok(g) ==> {
            &&& g.valid()
            &&& g.supply() <= h.supply()
            &&& all_absent(inputs, h.free) ==> g.supply() == h.supply()
            &&& forall|k: OutPointView|
                !utxo::spends(inputs, k) ==> #[trigger] sorted::lookup(g.free, k) == sorted::lookup(h.free, k)
            &&& forall|k: OutPointView|
                #[trigger] sorted::lookup(g.locked, k) == if utxo::spends(inputs, k) {
                    None
                } else {
                    sorted::lookup(h.locked, k)
                }
        },
    decreases inputs.len(),
{
    if inputs.len() > 0 {
        let earlier = inputs.drop_last();
        let input = inputs.last();
        releasing_moves_money(earlier, h);
        if let Ok(g) = release(earlier, h) {
            release_one_keeps(input, g);
            if let Ok(f) = release_one(input, g) {
                let output = sorted::lookup(g.locked, input.outpoint)->0;
                assert(!utxo::spends(earlier, input.outpoint));
                assert(inputs[inputs.len() - 1] == input);
                if all_absent(inputs, h.free) {
                    assert(sorted::lookup(h.free, inputs[inputs.len() - 1].outpoint) is None);
                    assert forall|i: int| 0 <= i < earlier.len() implies sorted::lookup(
                        h.free,
                        (#[trigger] earlier[i]).outpoint,
                    ) is None by {
                        assert(inputs[i] == earlier[i]);
                    }
                }
                assert forall|k: OutPointView| #[trigger] sorted::lookup(f.locked, k) == if utxo::spends(inputs, k) {
                    None
                } else {
                    sorted::lookup(h.locked, k)
                } by {
                    sorted::read_after_removal::<OutPoint, TxOutputView>(g.locked, input.outpoint, k);
                    spends_one_more(inputs, k);
                }
                assert forall|k: OutPointView| !utxo::spends(inputs, k) implies #[trigger] sorted::lookup(f.free, k)
                    == sorted::lookup(h.free, k) by {
                    sorted::read_after_write::<OutPoint, TxOutputView>(g.free, input.outpoint, output, k);
                    spends_one_more(inputs, k);
                }
            }
        }
    }
}

pub(crate) proof fn spends_one_more(inputs: Seq<TxInputView>, k: OutPointView)
    requires
        inputs.len() > 0,
    ensures
        utxo::spends(inputs, k) <==> utxo::spends(inputs.drop_last(), k) || inputs.last().outpoint == k,
{
    let earlier = inputs.drop_last();
    if utxo::spends(earlier, k) {
        let i = choose|i: int| 0 <= i < earlier.len() && (#[trigger] earlier[i]).outpoint == k;
        assert(inputs[i].outpoint == k);
    }
    if inputs.last().outpoint == k {
        assert(inputs[inputs.len() - 1].outpoint == k);
    }
    if utxo::spends(inputs, k) {
        let i = choose|i: int| 0 <= i < inputs.len() && (#[trigger] inputs[i]).outpoint == k;
        if i < earlier.len() {
            assert(earlier[i].outpoint == k);
        }
    }
}

/// Expiring envelopes create no money.
pub proof fn expiring_moves_money(envelopes: Seq<BlindedTransactionView>, h: HoldingsView)
    requires
        h.valid(),
    ensures
        release_all(envelopes, h) matches Ok(g) ==> g.valid() && g.supply() <= h.supply(),
    decreases envelopes.len(),
{
    if envelopes.len() > 0 {
        expiring_moves_money(envelopes.drop_last(), h);
        if let Ok(g) = release_all(envelopes.drop_last(), h) {
            releasing_moves_money(envelopes.last().inputs, g);
        }
    }
}

proof fn dropping_keeps_balances(u: UtxosView, inputs: Seq<TxInputView>)
    requires
        sorted::increasing::<OutPoint, TxOutputView>(u),
        utxo::balances_fit(u),
    ensures
        sorted::increasing::<OutPoint, TxOutputView>(dropped(u, inputs)),
        utxo::balances_fit(dropped(u, inputs)),
    decreases inputs.len(),
{
    if inputs.len() > 0 {
        let v = dropped(u, inputs.drop_last());
        let k = inputs.last().outpoint;
        dropping_keeps_balances(u, inputs.drop_last());
        sorted::with_increasing::<OutPoint, TxOutputView>(v, k, TxOutputView { address: Seq::<char>::empty(), amount: 0 });
        assert forall|address: Seq<char>| #[trigger] utxo::balance(sorted::without(v, k), address) <= u64::MAX by {
            utxo::effect_of_removing(v, k, address);
            assert(utxo::balance(v, address) <= u64::MAX);
        }
    }
}

/// Leaving out what envelopes name keeps the bound on balances.
pub proof fn unreserved_keeps_balances(u: UtxosView, envelopes: Seq<BlindedTransactionView>)
    requires
        sorted::increasing::<OutPoint, TxOutputView>(u),
        utxo::balances_fit(u),
    ensures
        sorted::increasing::<OutPoint, TxOutputView>(unreserved(u, envelopes)),
        utxo::balances_fit(unreserved(u, envelopes)),
    decreases envelopes.len(),
{
    if envelopes.len() > 0 {
        unreserved_keeps_balances(u, envelopes.drop_last());
        dropping_keeps_balances(unreserved(u, envelopes.drop_last()), envelopes.last().inputs);
    }
}

fn failed(message: &str, outpoint: &OutPoint) -> (r: Error)
    ensures
        r.deep_view() == message@ + outpoint.deep_view().id(),
{
    let mut t = text::text(message);
    t.append(outpoint.id().as_str());
    Error::of(t)
}

/// Locks the outputs that inputs name.
pub fn lock_inputs(inputs: &Vec<TxInput>, free: &mut Utxos, locked: &mut Utxos) -> (r: Result<(), Error>)
    requires
        old(free).wf(),
        old(locked).wf(),
    ensures
        final(free).wf(),
        final(locked).wf(),
        match r {
            Ok(_) => lock(
                inputs.deep_view(),
                HoldingsView { free: old(free).deep_view(), locked: old(locked).deep_view() },
            ) == Ok::<HoldingsView, Seq<char>>(
                HoldingsView { free: final(free).deep_view(), locked: final(locked).deep_view() },
            ),
            Err(e) => lock(
                inputs.deep_view(),
                HoldingsView { free: old(free).deep_view(), locked: old(locked).deep_view() },
            ) == Err::<HoldingsView, Seq<char>>(e.deep_view()),
        },
{
    let ghost v = inputs.deep_view();
    let ghost h = HoldingsView { free: free.deep_view(), locked: locked.deep_view() };
    let mut i: usize = 0;
    while i < inputs.len()
        invariant
            i <= inputs.len(),
            v == inputs.deep_view(),
            free.wf(),
            locked.wf(),
            h == (HoldingsView { free: old(free).deep_view(), locked: old(locked).deep_view() }),
            lock(v.take(i as int), h) == Ok::<HoldingsView, Seq<char>>(
                HoldingsView { free: free.deep_view(), locked: locked.deep_view() },
            ),
        decreases inputs.len() - i,
    {
        let input = &inputs[i];
        proof {
            assert(v.take(i + 1).drop_last() =~= v.take(i as int));
            assert(v.take(i + 1).last() == input.deep_view());
            if lock(v.take(i + 1), h) is Err {
                lock_stops(v, h, i + 1);
            }
        }
        let output = match free.get(&input.outpoint) {
            Some(output) => output.duplicate(),
            None => return Err(failed("blinded transaction spends missing output ", &input.outpoint)),
        };
        if !output.address.same(&input.owner) {
            return Err(Error::new("blinded transaction input owner does not match spent output"));
        }
        if locked.contains_key(&input.outpoint) {
            return Err(failed("blinded transaction spends locked output ", &input.outpoint));
        }
        free.remove(&input.outpoint);
        locked.insert(input.outpoint.duplicate(), output);
        i = i + 1;
    }
    proof {
        model::take_all(v);
    }
    Ok(())
}

/// Makes the outputs that inputs name unspent again.
pub fn release_inputs(inputs: &Vec<TxInput>, free: &mut Utxos, locked: &mut Utxos) -> (r: Result<(), Error>)
    requires
        old(free).wf(),
        old(locked).wf(),
    ensures
        final(free).wf(),
        final(locked).wf(),
        match r {
            Ok(_) => release(
                inputs.deep_view(),
                HoldingsView { free: old(free).deep_view(), locked: old(locked).deep_view() },
            ) == Ok::<HoldingsView, Seq<char>>(
                HoldingsView { free: final(free).deep_view(), locked: final(locked).deep_view() },
            ),
            Err(e) => release(
                inputs.deep_view(),
                HoldingsView { free: old(free).deep_view(), locked: old(locked).deep_view() },
            ) == Err::<HoldingsView, Seq<char>>(e.deep_view()),
        },
{
    let ghost v = inputs.deep_view();
    let ghost h = HoldingsView { free: free.deep_view(), locked: locked.deep_view() };
    let mut i: usize = 0;
    while i < inputs.len()
        invariant
            i <= inputs.len(),
            v == inputs.deep_view(),
            free.wf(),
            locked.wf(),
            h == (HoldingsView { free: old(free).deep_view(), locked: old(locked).deep_view() }),
            release(v.take(i as int), h) == Ok::<HoldingsView, Seq<char>>(
                HoldingsView { free: free.deep_view(), locked: locked.deep_view() },
            ),
        decreases inputs.len() - i,
    {
        let input = &inputs[i];
        proof {
            assert(v.take(i + 1).drop_last() =~= v.take(i as int));
            assert(v.take(i + 1).last() == input.deep_view());
            if release(v.take(i + 1), h) is Err {
                release_stops(v, h, i + 1);
            }
        }
        let output = match locked.get(&input.outpoint) {
            Some(output) => output.duplicate(),
            None => return Err(failed("blinded transaction input is not locked: ", &input.outpoint)),
        };
        locked.remove(&input.outpoint);
        free.insert(input.outpoint.duplicate(), output);
        i = i + 1;
    }
    proof {
        model::take_all(v);
    }
    Ok(())
}

/// Locks what envelopes name, one after another.
pub fn lock_envelopes(envelopes: &Vec<BlindedTransaction>, free: &mut Utxos, locked: &mut Utxos) -> (r: Result<(), Error>)
    requires
        old(free).wf(),
        old(locked).wf(),
    ensures
        final(free).wf(),
        final(locked).wf(),
        match r {
            Ok(_) => lock_all(
                envelopes.deep_view(),
                HoldingsView { free: old(free).deep_view(), locked: old(locked).deep_view() },
            ) == Ok::<HoldingsView, Seq<char>>(
                HoldingsView { free: final(free).deep_view(), locked: final(locked).deep_view() },
            ),
            Err(e) => lock_all(
                envelopes.deep_view(),
                HoldingsView { free: old(free).deep_view(), locked: old(locked).deep_view() },
            ) == Err::<HoldingsView, Seq<char>>(e.deep_view()),
        },
{
    let ghost v = envelopes.deep_view();
    let ghost h = HoldingsView { free: free.deep_view(), locked: locked.deep_view() };
    let mut i: usize = 0;
    while i < envelopes.len()
        invariant
            i <= envelopes.len(),
            v == envelopes.deep_view(),
            free.wf(),
            locked.wf(),
            h == (HoldingsView { free: old(free).deep_view(), locked: old(locked).deep_view() }),
            lock_all(v.take(i as int), h) == Ok::<HoldingsView, Seq<char>>(
                HoldingsView { free: free.deep_view(), locked: locked.deep_view() },
            ),
        decreases envelopes.len() - i,
    {
        proof {
            assert(v.take(i + 1).drop_last() =~= v.take(i as int));
            assert(v.take(i + 1).last() == envelopes@[i as int].deep_view());
            if lock_all(v.take(i + 1), h) is Err {
                lock_all_stops(v, h, i + 1);
            }
        }
        lock_inputs(&envelopes[i].inputs, free, locked)?;
        i = i + 1;
    }
    proof {
        model::take_all(v);
    }
    Ok(())
}

/// Releases what expired envelopes name, one after another.
pub fn release_envelopes(envelopes: &Vec<BlindedTransaction>, free: &mut Utxos, locked: &mut Utxos) -> (r: Result<
    (),
    Error,
>)
    requires
        old(free).wf(),
        old(locked).wf(),
    ensures
        final(free).wf(),
        final(locked).wf(),
        match r {
            Ok(_) => release_all(
                envelopes.deep_view(),
                HoldingsView { free: old(free).deep_view(), locked: old(locked).deep_view() },
            ) == Ok::<HoldingsView, Seq<char>>(
                HoldingsView { free: final(free).deep_view(), locked: final(locked).deep_view() },
            ),
            Err(e) => release_all(
                envelopes.deep_view(),
                HoldingsView { free: old(free).deep_view(), locked: old(locked).deep_view() },
            ) == Err::<HoldingsView, Seq<char>>(e.deep_view()),
        },
{
    let ghost v = envelopes.deep_view();
    let ghost h = HoldingsView { free: free.deep_view(), locked: locked.deep_view() };
    let mut i: usize = 0;
    while i < envelopes.len()
        invariant
            i <= envelopes.len(),
            v == envelopes.deep_view(),
            free.wf(),
            locked.wf(),
            h == (HoldingsView { free: old(free).deep_view(), locked: old(locked).deep_view() }),
            release_all(v.take(i as int), h) == Ok::<HoldingsView, Seq<char>>(
                HoldingsView { free: free.deep_view(), locked: locked.deep_view() },
            ),
        decreases envelopes.len() - i,
    {
        proof {
            assert(v.take(i + 1).drop_last() =~= v.take(i as int));
            assert(v.take(i + 1).last() == envelopes@[i as int].deep_view());
            if release_all(v.take(i + 1), h) is Err {
                release_all_stops(v, h, i + 1);
            }
        }
        release_inputs(&envelopes[i].inputs, free, locked)?;
        i = i + 1;
    }
    proof {
        model::take_all(v);
    }
    Ok(())
}

/// Whether an envelope names an output.
pub fn envelopes_reserve(envelopes: &Vec<BlindedTransaction>, outpoint: &OutPoint) -> (r: bool)
    ensures
        r == reserves(envelopes.deep_view(), outpoint.deep_view()),
{
    let ghost v = envelopes.deep_view();
    let mut i: usize = 0;
    while i < envelopes.len()
        invariant
            i <= envelopes.len(),
            v == envelopes.deep_view(),
            forall|k: int| 0 <= k < i ==> !utxo::spends((#[trigger] v[k]).inputs, outpoint.deep_view()),
        decreases envelopes.len() - i,
    {
        if utxo::inputs_spend(&envelopes[i].inputs, outpoint) {
            assert(utxo::spends(v[i as int].inputs, outpoint.deep_view()));
            return true;
        }
        assert(!utxo::spends(v[i as int].inputs, outpoint.deep_view()));
        i = i + 1;
    }
    false
}

/// Whether two lists of inputs name an output in common.
pub fn inputs_overlap(a: &Vec<TxInput>, b: &Vec<TxInput>) -> (r: bool)
    ensures
        r == overlap(a.deep_view(), b.deep_view()),
{
    let ghost v = a.deep_view();
    let mut i: usize = 0;
    while i < a.len()
        invariant
            i <= a.len(),
            v == a.deep_view(),
            forall|k: int| 0 <= k < i ==> !utxo::spends(b.deep_view(), (#[trigger] v[k]).outpoint),
        decreases a.len() - i,
    {
        if utxo::inputs_spend(b, &a[i].outpoint) {
            assert(utxo::spends(b.deep_view(), v[i as int].outpoint));
            return true;
        }
        assert(!utxo::spends(b.deep_view(), v[i as int].outpoint));
        i = i + 1;
    }
    false
}

/// Takes out what envelopes name.
pub fn drop_reserved(utxos: &mut Utxos, envelopes: &Vec<BlindedTransaction>)
    requires
        old(utxos).wf(),
    ensures
        final(utxos).wf(),
        final(utxos).deep_view() == unreserved(old(utxos).deep_view(), envelopes.deep_view()),
{
    let ghost v = envelopes.deep_view();
    let ghost u = utxos.deep_view();
    let mut i: usize = 0;
    while i < envelopes.len()
        invariant
            i <= envelopes.len(),
            v == envelopes.deep_view(),
            u == old(utxos).deep_view(),
            utxos.wf(),
            utxos.deep_view() == unreserved(u, v.take(i as int)),
        decreases envelopes.len() - i,
    {
        let inputs = &envelopes[i].inputs;
        let ghost w = inputs.deep_view();
        let ghost before = utxos.deep_view();
        let mut k: usize = 0;
        while k < inputs.len()
            invariant
                k <= inputs.len(),
                w == inputs.deep_view(),
                utxos.wf(),
                utxos.deep_view() == dropped(before, w.take(k as int)),
            decreases inputs.len() - k,
        {
            utxos.remove(&inputs[k].outpoint);
            proof {
                assert(w.take(k + 1).drop_last() =~= w.take(k as int));
                assert(w.take(k + 1).last() == inputs@[k as int].deep_view());
            }
            k = k + 1;
        }
        proof {
            model::take_all(w);
            assert(v.take(i + 1).drop_last() =~= v.take(i as int));
            assert(v.take(i + 1).last() == envelopes@[i as int].deep_view());
        }
        i = i + 1;
    }
    proof {
        model::take_all(v);
    }
}

} // verus!
