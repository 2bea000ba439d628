//! Building transactions on the outputs that a ledger leaves to be spent.
use crate::blinded;
use crate::blinded::{
    BlindedTransactionView, BuiltBlindedTransaction, BuiltBlindedTransactionView, BLINDED_KEY_BYTES,
    BLINDED_NONCE_BYTES, MAX_BLINDED_TRANSACTION_EXPIRY_HEIGHTS,
};
use crate::crypto;
use crate::error;
use crate::error::Error;
use crate::hex;
use crate::ledger;
use crate::ledger::{Ledger, LedgerView};
use crate::locks;
use crate::mempool;
use crate::model;
use crate::model::Model;
use crate::sealing;
use crate::sorted;
use crate::stratum;
use crate::stratum::{StratumMineShare, StratumMineTemplate};
use crate::text;
use crate::tickets::MAX_PENDING_TRANSACTIONS;
use crate::transaction;
use crate::transaction::{
    Amount, OutPoint, OutPointView, Transaction, TransactionView, TxInputView, TxOutput, TxOutputView,
    UnsignedTxInput, UnsignedTxInputView, UnsignedUtxoTransaction, UnsignedView,
};
use crate::utxo;
use crate::utxo::UtxosView;
use crate::validate;
use crate::wallet;
use crate::wallet::Wallet;
use vstd::prelude::*;
use vstd::string::*;
use vstd::utf8::*;

verus! {

/// What a search for a proof of work found.
#[derive(Clone, Debug, Eq, PartialEq)]
pub struct MineSearchOutcome {
    pub transaction: Option<Transaction>,
    pub next_nonce: u64,
    pub attempts: u64,
}

#[verifier::ext_equal]
pub struct MineSearchOutcomeView {
    pub transaction: Option<TransactionView>,
    pub next_nonce: u64,
    pub attempts: u64,
}

impl DeepView for MineSearchOutcome {
    type V = MineSearchOutcomeView;

    open spec fn deep_view(&self) -> MineSearchOutcomeView {
        MineSearchOutcomeView {
            transaction: self.transaction.deep_view(),
            next_nonce: self.next_nonce,
            attempts: self.attempts,
        }
    }
}

/// The least number of leading outputs, at least one, that together reach an amount.
pub open spec fn enough(outputs: Seq<TxOutputView>, amount: Amount) -> Option<nat>
    decreases outputs.len(),
{
    if outputs.len() == 0 {
        None
    } else {
        match enough(outputs.drop_last(), amount) {
            Some(count) => Some(count),
            None => if utxo::sum_of(outputs) >= amount {
                Some(outputs.len())
            } else {
                None
            },
        }
    }
}

/// The inputs that spend outputs of an owner.
pub open spec fn inputs_of(references: Seq<OutPointView>, owner: Seq<char>) -> Seq<UnsignedTxInputView> {
    Seq::new(references.len(), |i: int| UnsignedTxInputView { outpoint: references[i], owner })
}

/// The references of outputs.
pub open spec fn references_of(u: UtxosView) -> Seq<OutPointView> {
    Seq::new(u.len(), |i: int| u[i].0)
}

/// The first outputs of an address that reach an amount, and what they hold.
pub open spec fn selected(u: UtxosView, address: Seq<char>, amount: Amount) -> Result<
    (Seq<UnsignedTxInputView>, Amount),
    Seq<char>,
> {
    let owned = ledger::outputs_at(u, address);
    match enough(utxo::outputs_of(owned), amount) {
        None => Err("insufficient funds for "@ + address),
        Some(count) => Ok(
            (
                inputs_of(references_of(owned.take(count as int)), address),
                utxo::sum_of(utxo::outputs_of(owned.take(count as int))) as Amount,
            ),
        ),
    }
}

/// What chosen outputs of an address hold.
pub open spec fn chosen_total(u: UtxosView, address: Seq<char>, outpoints: Seq<OutPointView>) -> Result<Amount, Seq<char>>
    decreases outpoints.len(),
{
    if outpoints.len() == 0 {
        Ok(0)
    } else {
        let earlier = outpoints.drop_last();
        let outpoint = outpoints.last();
        match chosen_total(u, address, earlier) {
            Err(e) => Err(e),
            Ok(total) => if earlier.contains(outpoint) {
                Err("selected UTXO "@ + outpoint.id() + " is duplicated"@)
            } else {
                match sorted::lookup(u, outpoint) {
                    None => Err("selected UTXO "@ + outpoint.id() + " is not spendable"@),
                    Some(output) => if output.address != address {
                        Err("selected UTXO "@ + outpoint.id() + " is not owned by "@ + address)
                    } else if total + output.amount > u64::MAX {
                        Err("selected input total overflows"@)
                    } else {
                        Ok((total + output.amount) as Amount)
                    },
                }
            },
        }
    }
}

/// Chosen outputs of an address, if they reach an amount, and what they hold.
pub open spec fn chosen(u: UtxosView, address: Seq<char>, amount: Amount, outpoints: Seq<OutPointView>) -> Result<
    (Seq<UnsignedTxInputView>, Amount),
    Seq<char>,
> {
    if outpoints.len() == 0 {
        Err("at least one UTXO must be selected"@)
    } else {
        match chosen_total(u, address, outpoints) {
            Err(e) => Err(e),
            Ok(total) => if total < amount {
                Err("selected UTXOs do not cover transfer amount plus fee"@)
            } else {
                Ok((inputs_of(outpoints, address), total))
            },
        }
    }
}

/// An output to an address, or none where there is nothing to pay.
pub open spec fn paid(address: Seq<char>, amount: int) -> Seq<TxOutputView> {
    if amount > 0 {
        seq![TxOutputView { address, amount: amount as Amount }]
    } else {
        Seq::<TxOutputView>::empty()
    }
}

/// An unsigned transfer out of inputs, with what is left paid back.
pub open spec fn transfer_out_of(
    inputs: Seq<UnsignedTxInputView>,
    total: Amount,
    from: Seq<char>,
    to: Seq<char>,
    amount: Amount,
    fee: Amount,
) -> UnsignedView {
    UnsignedView::Transfer {
        inputs,
        outputs: seq![TxOutputView { address: to, amount }] + paid(from, total - amount - fee),
        fee,
    }
}

/// An unsigned burn out of inputs, with what is left paid back.
pub open spec fn burn_out_of(
    inputs: Seq<UnsignedTxInputView>,
    total: Amount,
    from: Seq<char>,
    amount: Amount,
    fee: Amount,
) -> UnsignedView {
    UnsignedView::Burn { inputs, change: paid(from, total - amount - fee), amount, fee }
}

/// A transaction with its wallet's signature.
pub open spec fn signed_by(u: UnsignedView, seed: Seq<u8>) -> TransactionView {
    u.signed(wallet::signature_of(seed, u.canonical()))
}

/// A mine transaction on an anchor, proved by its own hash.
pub open spec fn mine_transaction(recipient: Seq<char>, anchor: Seq<char>, salt: u64, nonce: u64, bits: u32) -> TransactionView {
    TransactionView::Mine {
        recipient,
        anchor,
        salt,
        nonce,
        difficulty_bits: bits,
        proof_header: None,
        signature: crypto::hash_of(transaction::mine_text(recipient, anchor, salt, nonce, bits)),
    }
}

impl LedgerView {
    /// Whether a transaction can be added to what is pending.
    pub open spec fn new_check(self, t: TransactionView) -> Result<(), Seq<char>> {
        match self.terms_check(t) {
            Err(e) => Err(e),
            Ok(_) => self.room_after(t, self.spendable()),
        }
    }

    pub open spec fn checked(self, t: TransactionView) -> Result<TransactionView, Seq<char>> {
        match self.new_check(t) {
            Err(e) => Err(e),
            Ok(_) => Ok(t),
        }
    }

    /// The transfer that a wallet builds.
    pub open spec fn built_transfer(self, seed: Seq<u8>, to: Seq<char>, amount: Amount, fee: Amount) -> Result<
        TransactionView,
        Seq<char>,
    > {
        let from = wallet::address_of(seed);
        match validate::address_check(to, "transfer recipient"@) {
            Err(e) => Err(e),
            Ok(_) => if amount + fee > u64::MAX {
                Err("transfer amount plus fee overflows"@)
            } else {
                match selected(self.spendable(), from, (amount + fee) as Amount) {
                    Err(e) => Err(e),
                    Ok((inputs, total)) => self.checked(
                        signed_by(transfer_out_of(inputs, total, from, to, amount, fee), seed),
                    ),
                }
            },
        }
    }

    /// The transfer that a wallet builds out of chosen outputs.
    pub open spec fn built_transfer_of(
        self,
        seed: Seq<u8>,
        to: Seq<char>,
        amount: Amount,
        fee: Amount,
        outpoints: Seq<OutPointView>,
    ) -> Result<TransactionView, Seq<char>> {
        let from = wallet::address_of(seed);
        match validate::address_check(to, "transfer recipient"@) {
            Err(e) => Err(e),
            Ok(_) => if amount + fee > u64::MAX {
                Err("transfer amount plus fee overflows"@)
            } else {
                match chosen(self.spendable(), from, (amount + fee) as Amount, outpoints) {
                    Err(e) => Err(e),
                    Ok((inputs, total)) => self.checked(
                        signed_by(transfer_out_of(inputs, total, from, to, amount, fee), seed),
                    ),
                }
            },
        }
    }

    /// The burn that a wallet builds.
    pub open spec fn built_burn(self, seed: Seq<u8>, amount: Amount, fee: Amount) -> Result<
        TransactionView,
        Seq<char>,
    > {
        let from = wallet::address_of(seed);
        if amount + fee > u64::MAX {
            Err("burn amount plus fee overflows"@)
        } else {
            match selected(self.spendable(), from, (amount + fee) as Amount) {
                Err(e) => Err(e),
                Ok((inputs, total)) => self.checked(
                    signed_by(burn_out_of(inputs, total, from, amount, fee), seed),
                ),
            }
        }
    }

    /// The burn that a wallet builds out of chosen outputs.
    pub open spec fn built_burn_of(self, seed: Seq<u8>, amount: Amount, fee: Amount, outpoints: Seq<OutPointView>) -> Result<
        TransactionView,
        Seq<char>,
    > {
        let from = wallet::address_of(seed);
        if amount + fee > u64::MAX {
            Err("burn amount plus fee overflows"@)
        } else {
            match chosen(self.spendable(), from, (amount + fee) as Amount, outpoints) {
                Err(e) => Err(e),
                Ok((inputs, total)) => self.checked(
                    signed_by(burn_out_of(inputs, total, from, amount, fee), seed),
                ),
            }
        }
    }

    /// The ledger without the outputs that a transaction spends, if all are there.
    pub open spec fn reserved(self, t: TransactionView) -> LedgerView {
        match utxo::spend(t.inputs(), self.utxos).1 {
            Err(_) => self,
            Ok(_) => LedgerView { utxos: utxo::spend(t.inputs(), self.utxos).0, ..self },
        }
    }

    /// The ledger with the outputs of a transaction that is to come, where no balance overflows.
    pub open spec fn expecting(self, t: TransactionView) -> LedgerView {
        let u = utxo::credit(self.utxos, t.signature(), t.outputs());
        if utxo::overflow_check(self.utxos, t.outputs()) is Ok && locks::room_check(u, self.locked) is Ok {
            LedgerView { utxos: u, ..self }
        } else {
            self
        }
    }

    /// Whether an envelope with these terms may be made.
    pub open spec fn blinding_check(self, t: TransactionView, fee: Amount, expires_at_height: u64) -> Result<
        (),
        Seq<char>,
    > {
        if expires_at_height <= self.height() {
            Err("blinded transaction expiry must be in the future"@)
        } else if expires_at_height > self.height() + MAX_BLINDED_TRANSACTION_EXPIRY_HEIGHTS {
            Err("blinded transaction expiry is too far in the future"@)
        } else if fee != t.fee() {
            Err("blinded transaction fee must match plaintext transaction fee"@)
        } else {
            Ok(())
        }
    }

    /// The envelope of a transaction under a key and nonce, signed with a seed and checked against
    /// this chain.
    pub open spec fn enveloped(
        self,
        seed: Seq<u8>,
        t: TransactionView,
        expires_at_height: u64,
        key: Seq<u8>,
        nonce: Seq<u8>,
    ) -> Result<BuiltBlindedTransactionView, Seq<char>> {
        match sealing::sealed_transaction(seed, t, expires_at_height, key, nonce) {
            Err(e) => Err(e),
            Ok(built) => match self.blinded_check(built.transaction) {
                Err(e) => Err(e),
                Ok(_) => Ok(built),
            },
        }
    }

    /// What blinding may give: the terms are refused, or there was no randomness, or the outcome
    /// is that of some key and nonce.
    pub open spec fn blinding_gives(
        self,
        seed: Seq<u8>,
        t: TransactionView,
        fee: Amount,
        expires_at_height: u64,
        outcome: Result<BuiltBlindedTransactionView, Seq<char>>,
    ) -> bool {
        match self.blinding_check(t, fee, expires_at_height) {
            Err(e) => outcome == Err::<BuiltBlindedTransactionView, Seq<char>>(e),
            Ok(_) => self.sealing_gives(seed, t, expires_at_height, outcome) || no_randomness(outcome),
        }
    }

    pub open spec fn sealing_gives(
        self,
        seed: Seq<u8>,
        t: TransactionView,
        expires_at_height: u64,
        outcome: Result<BuiltBlindedTransactionView, Seq<char>>,
    ) -> bool {
        exists|key: Seq<u8>, nonce: Seq<u8>|
            key.len() == 32 && nonce.len() == 12 && outcome == #[trigger] self.enveloped(
                seed,
                t,
                expires_at_height,
                key,
                nonce,
            )
    }

    /// The mine transaction on the tip with a nonce.
    pub open spec fn mine_at(self, recipient: Seq<char>, salt: u64, nonce: u64) -> TransactionView {
        mine_transaction(recipient, self.tip().hash, salt, nonce, self.difficulty_at(self.height()))
    }

    /// Whether a nonce proves work that is not known yet.
    pub open spec fn proves_work(self, recipient: Seq<char>, salt: u64, nonce: u64) -> bool {
        let t = self.mine_at(recipient, salt, nonce);
        stratum::meets_difficulty(t.signature(), self.difficulty_at(self.height())) && !self.knows_transaction(
            t.signature(),
        )
    }

    /// Whether a nonce is the least that proves work.
    pub open spec fn least_proof(self, recipient: Seq<char>, salt: u64, nonce: u64) -> bool {
        self.proves_work(recipient, salt, nonce) && forall|earlier: u64|
            earlier < nonce ==> !#[trigger] self.proves_work(recipient, salt, earlier)
    }

    /// The outcome of a search: each nonce in turn, from the last back to the first.
    pub open spec fn searched(self, recipient: Seq<char>, salt: u64, nonce: u64, attempts: u64, left: nat) -> Result<
        MineSearchOutcomeView,
        Seq<char>,
    >
        decreases left,
    {
        if left == 0 {
            Ok(MineSearchOutcomeView { transaction: None, next_nonce: nonce, attempts })
        } else if self.proves_work(recipient, salt, nonce) {
            match self.checked(self.mine_at(recipient, salt, nonce)) {
                Err(e) => Err(e),
                Ok(t) => Ok(
                    MineSearchOutcomeView {
                        transaction: Some(t),
                        next_nonce: nonce_after(nonce),
                        attempts: (attempts + 1) as u64,
                    },
                ),
            }
        } else {
            self.searched(recipient, salt, nonce_after(nonce), (attempts + 1) as u64, (left - 1) as nat)
        }
    }

    /// The mine transaction of a share of a template.
    pub open spec fn stratum_mine(self, recipient: Seq<char>, anchor: Seq<char>, salt: u64, bits: u32, nonce: u64) -> Result<
        TransactionView,
        Seq<char>,
    > {
        match stratum::header(recipient, anchor, salt, nonce, bits) {
            Err(e) => Err(e),
            Ok(header) => self.checked(
                TransactionView::Mine {
                    recipient,
                    anchor,
                    salt,
                    nonce,
                    difficulty_bits: bits,
                    proof_header: Some(hex::text_of(header)),
                    signature: stratum::header_signature(header),
                },
            ),
        }
    }

    /// The references that this ledger holds or that what is pending spends.
    pub open spec fn references(self) -> Seq<OutPointView> {
        references_of(self.utxos) + spent_references(self.pending)
    }

    /// How many references name an address.
    pub open spec fn mentions(self, address: Seq<char>) -> nat {
        self.references().filter(|o: OutPointView| text::occurs_in(o.txid, address)).len()
    }
}

pub open spec fn input_references(inputs: Seq<TxInputView>) -> Seq<OutPointView> {
    Seq::new(inputs.len(), |i: int| inputs[i].outpoint)
}

/// The references that transactions spend.
pub open spec fn spent_references(transactions: Seq<TransactionView>) -> Seq<OutPointView>
    decreases transactions.len(),
{
    if transactions.len() == 0 {
        Seq::<OutPointView>::empty()
    } else {
        spent_references(transactions.drop_last()) + input_references(transactions.last().inputs())
    }
}

/// Whether an outcome says that the system gave no randomness.
pub open spec fn no_randomness(outcome: Result<BuiltBlindedTransactionView, Seq<char>>) -> bool {
    exists|cause: Seq<char>| #[trigger]
        no_randomness_for(cause, outcome)
}

pub open spec fn no_randomness_for(cause: Seq<char>, outcome: Result<BuiltBlindedTransactionView, Seq<char>>) -> bool {
    outcome == Err::<BuiltBlindedTransactionView, Seq<char>>(
        "failed to generate blinded transaction key: "@ + cause,
    ) || outcome == Err::<BuiltBlindedTransactionView, Seq<char>>(
        "failed to generate blinded transaction nonce: "@ + cause,
    )
}

/// What blinding a transaction gives holds that transaction: the envelope names its inputs, their
/// owner signed it, it bears the transaction's fee and the expiry that was asked for, its commitment
/// covers them, its ciphertext has the size that it states, and the ledger that it was built on takes
/// it, unless it has it already or no more envelopes may wait.
pub proof fn built_envelope_is_accepted(
    l: LedgerView,
    seed: Seq<u8>,
    t: TransactionView,
    fee: Amount,
    expires_at_height: u64,
    b: BuiltBlindedTransactionView,
)
    requires
        l.blinding_gives(seed, t, fee, expires_at_height, Ok::<BuiltBlindedTransactionView, Seq<char>>(b)),
    ensures
        b.payload == t,
        transaction::spend_alike(b.transaction.inputs, t.inputs()),
        forall|n: int| 0 <= n < t.inputs().len() ==> #[trigger] b.transaction.signed_by_owner_of(n),
        b.transaction.fee == fee,
        b.transaction.expires_at_height == expires_at_height,
        b.transaction.commitment == b.transaction.expected_commitment(),
        b.reveal.commitment == b.transaction.commitment,
        b.transaction.ciphertext.len() == 2 * b.transaction.encrypted_size,
        !l.knows_blinded(b.transaction.commitment) && l.pending_blinded.len()
            < MAX_PENDING_TRANSACTIONS ==> l.blinded_submitted(b.transaction) == (
            LedgerView { pending_blinded: l.pending_blinded.push(b.transaction), ..l },
            Ok::<bool, Seq<char>>(true),
        ),
{
    assert(l.sealing_gives(seed, t, expires_at_height, Ok::<BuiltBlindedTransactionView, Seq<char>>(b)));
    let (key, nonce) = choose|key: Seq<u8>, nonce: Seq<u8>|
        key.len() == 32 && nonce.len() == 12 && Ok::<BuiltBlindedTransactionView, Seq<char>>(b)
            == #[trigger] l.enveloped(seed, t, expires_at_height, key, nonce);
    sealing::sealed_parts(seed, t, expires_at_height, key, nonce);
    assert(l.blinded_check(b.transaction) is Ok);
    assert(b.transaction.inputs.len() == t.inputs().len()) by {
        assert(transaction::unsigned(b.transaction.inputs).len() == transaction::unsigned(t.inputs()).len());
    }
    assert forall|n: int| 0 <= n < t.inputs().len() implies #[trigger] b.transaction.signed_by_owner_of(n) by {
        mempool::owner_agreed(l, b.transaction, Seq::empty(), 0, n);
    }
}

/// The nonce after a nonce; after the last comes the first.
pub open spec fn nonce_after(nonce: u64) -> u64 {
    if nonce == u64::MAX {
        0
    } else {
        (nonce + 1) as u64
    }
}

/// A search tries at most as many nonces as it may, and at least one where it finds a proof.
pub proof fn search_is_bounded(l: LedgerView, recipient: Seq<char>, salt: u64, nonce: u64, attempts: u64, left: nat)
    requires
        attempts + left <= u64::MAX,
    ensures
        l.searched(recipient, salt, nonce, attempts, left) matches Ok(o) ==> {
            &&& attempts <= o.attempts <= attempts + left
            &&& o.transaction is Some ==> o.attempts > attempts
            &&& o.transaction is None ==> o.attempts == attempts + left
        },
    decreases left,
{
    if left > 0 && !l.proves_work(recipient, salt, nonce) {
        search_is_bounded(l, recipient, salt, nonce_after(nonce), (attempts + 1) as u64, (left - 1) as nat);
    }
}

/// The outputs at an address hold its balance.
pub proof fn owned_sum(u: UtxosView, address: Seq<char>)
    ensures
        utxo::sum_of(utxo::outputs_of(ledger::outputs_at(u, address))) == utxo::balance(u, address),
    decreases u.len(),
{
    let p = |e: (OutPointView, TxOutputView)| e.1.address == address;
    if u.len() == 0 {
        model::filter_empty(p);
        assert(u =~= Seq::<(OutPointView, TxOutputView)>::empty());
    } else {
        let v = u.drop_last();
        owned_sum(v, address);
        assert(u =~= v.push(u.last()));
        model::filter_push(v, u.last(), p);
        assert(utxo::outputs_of(u).drop_last() =~= utxo::outputs_of(v));
        if u.last().1.address == address {
            let owned = ledger::outputs_at(u, address);
            assert(utxo::outputs_of(owned).drop_last() =~= utxo::outputs_of(ledger::outputs_at(v, address)));
        }
    }
}

proof fn prefix_sum(outputs: Seq<TxOutputView>, n: int)
    requires
        0 <= n <= outputs.len(),
    ensures
        utxo::sum_of(outputs.take(n)) <= utxo::sum_of(outputs),
    decreases outputs.len(),
{
    if n < outputs.len() {
        assert(outputs.drop_last().take(n) =~= outputs.take(n));
        prefix_sum(outputs.drop_last(), n);
    } else {
        model::take_all(outputs);
    }
}

proof fn enough_found(outputs: Seq<TxOutputView>, amount: Amount, n: int)
    requires
        0 < n <= outputs.len(),
        enough(outputs.take(n - 1), amount) is None,
        utxo::sum_of(outputs.take(n)) >= amount,
    ensures
        enough(outputs, amount) == Some(n as nat),
    decreases outputs.len(),
{
    if n < outputs.len() {
        assert(outputs.drop_last().take(n) =~= outputs.take(n));
        assert(outputs.drop_last().take(n - 1) =~= outputs.take(n - 1));
        enough_found(outputs.drop_last(), amount, n);
    } else {
        model::take_all(outputs);
        assert(outputs.drop_last() =~= outputs.take(n - 1));
    }
}

/// The selected inputs reach the amount.
pub proof fn enough_is_enough(outputs: Seq<TxOutputView>, amount: Amount)
    ensures
        enough(outputs, amount) matches Some(count) ==> 0 < count <= outputs.len() && utxo::sum_of(
            outputs.take(count as int),
        ) >= amount,
    decreases outputs.len(),
{
    if outputs.len() > 0 {
        enough_is_enough(outputs.drop_last(), amount);
        model::take_all(outputs);
        if let Some(count) = enough(outputs.drop_last(), amount) {
            assert(outputs.drop_last().take(count as int) =~= outputs.take(count as int));
        }
    }
}

/// What is left to be spent keeps the bound on balances.
pub proof fn spending_keeps_balances_fitting(transactions: Seq<TransactionView>, u: UtxosView)
    requires
        sorted::increasing::<OutPoint, TxOutputView>(u),
        utxo::balances_fit(u),
    ensures
        sorted::increasing::<OutPoint, TxOutputView>(mempool::apply_spending(transactions, u)),
        utxo::balances_fit(mempool::apply_spending(transactions, u)),
    decreases transactions.len(),
{
    if transactions.len() > 0 {
        spending_keeps_balances_fitting(transactions.drop_last(), u);
        utxo::applying_keeps_balances_fitting(
            transactions.last(),
            mempool::apply_spending(transactions.drop_last(), u),
        );
    }
}

proof fn chosen_total_stops(u: UtxosView, address: Seq<char>, outpoints: Seq<OutPointView>, n: int)
    requires
        0 <= n <= outpoints.len(),
        chosen_total(u, address, outpoints.take(n)) is Err,
    ensures
        chosen_total(u, address, outpoints) == chosen_total(u, address, outpoints.take(n)),
    decreases outpoints.len(),
{
    if n < outpoints.len() {
        assert(outpoints.drop_last().take(n) =~= outpoints.take(n));
        chosen_total_stops(u, address, outpoints.drop_last(), n);
    } else {
        model::take_all(outpoints);
    }
}

fn repeats_earlier(outpoints: &[OutPoint], n: usize) -> (r: bool)
    requires
        n < outpoints@.len(),
    ensures
        r == model::views(outpoints@).take(n as int).contains(model::views(outpoints@)[n as int]),
{
    let ghost v = model::views(outpoints@);
    let mut i: usize = 0;
    while i < n
        invariant
            i <= n < outpoints@.len(),
            v == model::views(outpoints@),
            forall|j: int| 0 <= j < i ==> #[trigger] v[j] != v[n as int],
        decreases n - i,
    {
        if outpoints[i].same(&outpoints[n]) {
            assert(v.take(n as int)[i as int] == v[n as int]);
            return true;
        }
        i = i + 1;
    }
    assert(!v.take(n as int).contains(v[n as int])) by {
        if v.take(n as int).contains(v[n as int]) {
            let j = choose|j: int| 0 <= j < v.take(n as int).len() && #[trigger] v.take(n as int)[j] == v[n as int];
            assert(v[j] == v[n as int]);
        }
    }
    false
}

fn selected_refusal(outpoint: &OutPoint, why: &str) -> (r: Error)
    ensures
        r.deep_view() == "selected UTXO "@ + outpoint.deep_view().id() + why@,
{
    let mut message = text::text("selected UTXO ");
    let id = outpoint.id();
    message.append(id.as_str());
    message.append(why);
    Error::of(message)
}

fn append_paid(outputs: &mut Vec<TxOutput>, address: &str, amount: u64)
    ensures
        final(outputs).deep_view() == old(outputs).deep_view() + paid(address@, amount as int),
{
    broadcast use model::group_views;

    let ghost before = outputs.deep_view();
    if amount > 0 {
        outputs.push(TxOutput { address: text::text(address), amount });
        assert(outputs.deep_view() =~= before + paid(address@, amount as int));
    } else {
        assert(outputs.deep_view() =~= before + paid(address@, amount as int));
    }
}

fn transfer_from(
    wallet: &Wallet,
    inputs: Vec<UnsignedTxInput>,
    total: Amount,
    to: &str,
    amount: Amount,
    fee: Amount,
) -> (r: Transaction)
    requires
        amount + fee <= total,
    ensures
        r.deep_view() == signed_by(
            transfer_out_of(
                inputs.deep_view(),
                total,
                wallet::address_of(wallet.seed()),
                to@,
                amount,
                fee,
            ),
            wallet.seed(),
        ),
{
    let mut outputs: Vec<TxOutput> = Vec::new();
    outputs.push(TxOutput { address: text::text(to), amount });
    assert(outputs.deep_view() =~= seq![TxOutputView { address: to@, amount }]);
    append_paid(&mut outputs, wallet.address(), total - amount - fee);
    let unsigned = UnsignedUtxoTransaction::Transfer { inputs, outputs, fee };
    assert(unsigned.deep_view() == transfer_out_of(
        inputs.deep_view(),
        total,
        wallet::address_of(wallet.seed()),
        to@,
        amount,
        fee,
    ));
    unsigned.sign(wallet)
}

fn burn_from(wallet: &Wallet, inputs: Vec<UnsignedTxInput>, total: Amount, amount: Amount, fee: Amount) -> (r: Transaction)
    requires
        amount + fee <= total,
    ensures
        r.deep_view() == signed_by(
            burn_out_of(inputs.deep_view(), total, wallet::address_of(wallet.seed()), amount, fee),
            wallet.seed(),
        ),
{
    let mut change: Vec<TxOutput> = Vec::new();
    assert(change.deep_view() =~= Seq::<TxOutputView>::empty());
    append_paid(&mut change, wallet.address(), total - amount - fee);
    let ghost from = wallet::address_of(wallet.seed());
    assert(change.deep_view() =~= paid(from, total - amount - fee));
    let unsigned = UnsignedUtxoTransaction::Burn { inputs, change, amount, fee };
    assert(unsigned.deep_view() == burn_out_of(inputs.deep_view(), total, from, amount, fee));
    unsigned.sign(wallet)
}

proof fn spendable_keeps_balances_fitting(l: LedgerView)
    requires
        l.valid(),
    ensures
        sorted::increasing::<OutPoint, TxOutputView>(l.spendable()),
        utxo::balances_fit(l.spendable()),
{
    spending_keeps_balances_fitting(l.valid_pending(), l.utxos);
    locks::unreserved_keeps_balances(mempool::apply_spending(l.valid_pending(), l.utxos), l.pending_blinded);
}

impl Ledger {
    pub fn select_inputs(&self, address: &str, amount: Amount) -> (r: Result<(Vec<UnsignedTxInput>, Amount), Error>)
        requires
            self.wf(),
        ensures
            match r {
                Ok(s) => selected(self.deep_view().spendable(), address@, amount) == Ok::<
                    (Seq<UnsignedTxInputView>, Amount),
                    Seq<char>,
                >((s.0.deep_view(), s.1)) && s.1 >= amount,
                Err(e) => selected(self.deep_view().spendable(), address@, amount) == Err::<
                    (Seq<UnsignedTxInputView>, Amount),
                    Seq<char>,
                >(e.deep_view()),
            },
    {
        let utxos = self.utxos_after_spendable_pending();
        let owned = ledger::entries_at(&utxos, address);
        let ghost u = utxos.deep_view();
        let ghost v = owned.deep_view();
        let ghost o = utxo::outputs_of(v);
        proof {
            spendable_keeps_balances_fitting(self.deep_view());
            owned_sum(u, address@);
            model::take_all(o);
        }
        let mut inputs: Vec<UnsignedTxInput> = Vec::new();
        let mut total: u64 = 0;
        let mut i: usize = 0;
        while i < owned.len()
            invariant
                i <= owned.len(),
                u == self.deep_view().spendable(),
                v == owned.deep_view(),
                v == ledger::outputs_at(u, address@),
                o == utxo::outputs_of(v),
                o.len() == owned.len(),
                utxo::sum_of(o) <= u64::MAX,
                total == utxo::sum_of(o.take(i as int)),
                enough(o.take(i as int), amount) is None,
                inputs@.len() == i,
                forall|j: int|
                    0 <= j < i ==> (#[trigger] inputs@[j]).deep_view() == (UnsignedTxInputView {
                        outpoint: v[j].0,
                        owner: address@,
                    }),
            decreases owned.len() - i,
        {
            proof {
                assert(o.take(i + 1).drop_last() =~= o.take(i as int));
                prefix_sum(o, i + 1);
                assert(o[i as int] == v[i as int].1);
                assert(v[i as int] == owned@[i as int].deep_view());
            }
            inputs.push(UnsignedTxInput { outpoint: owned[i].0.duplicate(), owner: text::text(address) });
            total = total + owned[i].1.amount;
            i = i + 1;
            if total >= amount {
                proof {
                    enough_found(o, amount, i as int);
                    assert(inputs.deep_view() =~= inputs_of(references_of(v.take(i as int)), address@));
                    assert(utxo::outputs_of(v.take(i as int)) =~= o.take(i as int));
                }
                return Ok((inputs, total));
            }
        }
        proof {
            model::take_all(o);
        }
        let mut message = text::text("insufficient funds for ");
        message.append(address);
        Err(Error::of(message))
    }

    fn select_inputs_by_outpoint(&self, address: &str, amount: Amount, outpoints: &[OutPoint]) -> (r: Result<
        (Vec<UnsignedTxInput>, Amount),
        Error,
    >)
        requires
            self.wf(),
        ensures
            match r {
                Ok(s) => chosen(self.deep_view().spendable(), address@, amount, model::views(outpoints@)) == Ok::<
                    (Seq<UnsignedTxInputView>, Amount),
                    Seq<char>,
                >((s.0.deep_view(), s.1)) && s.1 >= amount,
                Err(e) => chosen(self.deep_view().spendable(), address@, amount, model::views(outpoints@)) == Err::<
                    (Seq<UnsignedTxInputView>, Amount),
                    Seq<char>,
                >(e.deep_view()),
            },
    {
        if outpoints.len() == 0 {
            return Err(Error::new("at least one UTXO must be selected"));
        }
        let utxos = self.utxos_after_spendable_pending();
        let ghost u = utxos.deep_view();
        let ghost v = model::views(outpoints@);
        let mut inputs: Vec<UnsignedTxInput> = Vec::new();
        let mut total: u64 = 0;
        let mut i: usize = 0;
        proof {
            model::take_all(v);
        }
        while i < outpoints.len()
            invariant
                i <= outpoints@.len(),
                outpoints@.len() > 0,
                utxos.wf(),
                u == utxos.deep_view(),
                u == self.deep_view().spendable(),
                v == model::views(outpoints@),
                chosen_total(u, address@, v.take(i as int)) == Ok::<Amount, Seq<char>>(total),
                inputs@.len() == i,
                forall|j: int|
                    0 <= j < i ==> (#[trigger] inputs@[j]).deep_view() == (UnsignedTxInputView {
                        outpoint: v[j],
                        owner: address@,
                    }),
            decreases outpoints@.len() - i,
        {
            proof {
                assert(v.take(i + 1).drop_last() =~= v.take(i as int));
                assert(v.take(i + 1).last() == v[i as int]);
                if chosen_total(u, address@, v.take(i + 1)) is Err {
                    chosen_total_stops(u, address@, v, i + 1);
                }
            }
            let outpoint = &outpoints[i];
            if repeats_earlier(outpoints, i) {
                return Err(selected_refusal(outpoint, " is duplicated"));
            }
            let output = match utxos.get(outpoint) {
                Some(output) => output,
                None => return Err(selected_refusal(outpoint, " is not spendable")),
            };
            if !text::text_eq(output.address.as_str(), address) {
                let mut error = selected_refusal(outpoint, " is not owned by ");
                error.message.append(address);
                return Err(error);
            }
            inputs.push(UnsignedTxInput { outpoint: outpoint.duplicate(), owner: text::text(address) });
            total = match total.checked_add(output.amount) {
                Some(sum) => sum,
                None => return Err(Error::new("selected input total overflows")),
            };
            i = i + 1;
        }
        proof {
            model::take_all(v);
        }
        if total < amount {
            return Err(Error::new("selected UTXOs do not cover transfer amount plus fee"));
        }
        assert(inputs.deep_view() =~= inputs_of(v, address@));
        Ok((inputs, total))
    }

    fn validate_new_transaction(&self, transaction: &Transaction) -> (r: Result<(), Error>)
        requires
            self.wf(),
        ensures
            error::outcome(r) == self.deep_view().new_check(transaction.deep_view()),
    {
        self.validate_transaction_terms(transaction)?;
        let mut utxos = self.utxos_after_spendable_pending();
        proof {
            self.utxos.wf_is_increasing();
            utxos.wf_is_increasing();
            spendable_keeps_balances_fitting(self.deep_view());
            utxo::applying_keeps_balances_fitting(transaction.deep_view(), utxos.deep_view());
        }
        utxo::apply_transaction(transaction, &mut utxos)?;
        locks::ensure_room(&utxos, &self.locked)
    }

    /// A transfer out of the first outputs of a wallet that reach amount and fee.
    pub fn build_transfer(&self, wallet: &Wallet, to: &str, amount: Amount, fee: Amount) -> (r: Result<
        Transaction,
        Error,
    >)
        requires
            self.wf(),
        ensures
            error::outcome(r) == self.deep_view().built_transfer(wallet.seed(), to@, amount, fee),
    {
        validate::validate_address(to, "transfer recipient")?;
        let required: u64 = match amount.checked_add(fee) {
            Some(sum) => sum,
            None => return Err(Error::new("transfer amount plus fee overflows")),
        };
        let (inputs, total) = self.select_inputs(wallet.address(), required)?;
        let transaction = transfer_from(wallet, inputs, total, to, amount, fee);
        self.validate_new_transaction(&transaction)?;
        Ok(transaction)
    }

    /// A transfer out of chosen outputs of a wallet.
    pub fn build_transfer_with_inputs(
        &self,
        wallet: &Wallet,
        to: &str,
        amount: Amount,
        fee: Amount,
        outpoints: &[OutPoint],
    ) -> (r: Result<Transaction, Error>)
        requires
            self.wf(),
        ensures
            error::outcome(r) == self.deep_view().built_transfer_of(
                wallet.seed(),
                to@,
                amount,
                fee,
                model::views(outpoints@),
            ),
    {
        validate::validate_address(to, "transfer recipient")?;
        let required: u64 = match amount.checked_add(fee) {
            Some(sum) => sum,
            None => return Err(Error::new("transfer amount plus fee overflows")),
        };
        let (inputs, total) = self.select_inputs_by_outpoint(wallet.address(), required, outpoints)?;
        let transaction = transfer_from(wallet, inputs, total, to, amount, fee);
        self.validate_new_transaction(&transaction)?;
        Ok(transaction)
    }

    /// A burn out of the first outputs of a wallet that reach amount and fee.
    pub fn build_burn(&self, wallet: &Wallet, amount: Amount, fee: Amount) -> (r: Result<Transaction, Error>)
        requires
            self.wf(),
        ensures
            error::outcome(r) == self.deep_view().built_burn(wallet.seed(), amount, fee),
    {
        let required: u64 = match amount.checked_add(fee) {
            Some(sum) => sum,
            None => return Err(Error::new("burn amount plus fee overflows")),
        };
        let (inputs, total) = self.select_inputs(wallet.address(), required)?;
        let transaction = burn_from(wallet, inputs, total, amount, fee);
        self.validate_new_transaction(&transaction)?;
        Ok(transaction)
    }

    /// A burn out of chosen outputs of a wallet.
    pub fn build_burn_with_inputs(&self, wallet: &Wallet, amount: Amount, fee: Amount, outpoints: &[OutPoint]) -> (r: Result<
        Transaction,
        Error,
    >)
        requires
            self.wf(),
        ensures
            error::outcome(r) == self.deep_view().built_burn_of(
                wallet.seed(),
                amount,
                fee,
                model::views(outpoints@),
            ),
    {
        let required: u64 = match amount.checked_add(fee) {
            Some(sum) => sum,
            None => return Err(Error::new("burn amount plus fee overflows")),
        };
        let (inputs, total) = self.select_inputs_by_outpoint(wallet.address(), required, outpoints)?;
        let transaction = burn_from(wallet, inputs, total, amount, fee);
        self.validate_new_transaction(&transaction)?;
        Ok(transaction)
    }

    /// Takes the outputs that a transaction spends out of what can be spent, if all are there.
    pub fn reserve_transaction_inputs(&mut self, transaction: &Transaction)
        requires
            old(self).wf(),
        ensures
            final(self).wf(),
            final(self).deep_view() == old(self).deep_view().reserved(transaction.deep_view()),
    {
        let ghost l = self.deep_view();
        let ghost t = transaction.deep_view();
        let mut utxos = self.utxos.duplicate();
        proof {
            self.utxos.wf_is_increasing();
            utxos.wf_is_increasing();
        }
        let inputs = transaction.inputs();
        if utxo::spend_inputs(&inputs, &mut utxos).is_ok() {
            proof {
                assert forall|address: Seq<char>| #[trigger] utxo::balance(utxos.deep_view(), address)
                    <= u64::MAX by {
                    utxo::effect_of_spending(t.inputs(), l.utxos, address);
                }
                assert forall|address: Seq<char>| #[trigger] utxo::balance(utxos.deep_view(), address) <= utxo::balance(
                    l.utxos,
                    address,
                ) by {
                    utxo::effect_of_spending(t.inputs(), l.utxos, address);
                }
                locks::less_still_fits(l.utxos, utxos.deep_view(), l.locked);
                utxo::effect_of_spending(t.inputs(), l.utxos, Seq::<char>::empty());
                utxos.wf_is_increasing();
            }
            self.utxos = utxos;
            assert(self.deep_view() == l.reserved(t));
        }
    }

    /// Adds the outputs of a transaction that is to come, where no balance overflows.
    pub(crate) fn expect_outputs(&mut self, transaction: &Transaction)
        requires
            old(self).wf(),
        ensures
            final(self).wf(),
            final(self).deep_view() == old(self).deep_view().expecting(transaction.deep_view()),
    {
        let ghost l = self.deep_view();
        let ghost t = transaction.deep_view();
        let outputs = transaction.outputs();
        if utxo::ensure_outputs_do_not_overflow(&self.utxos, &outputs).is_err() {
            return;
        }
        let mut utxos = self.utxos.duplicate();
        proof {
            self.utxos.wf_is_increasing();
            utxos.wf_is_increasing();
        }
        utxo::credit_outputs(&mut utxos, transaction.signature(), &outputs);
        proof {
            utxos.wf_is_increasing();
            assert forall|address: Seq<char>| #[trigger] utxo::balance(utxos.deep_view(), address) <= u64::MAX by {
                utxo::effect_of_crediting(l.utxos, t.signature(), t.outputs(), address);
                utxo::no_overflow_means_fits(utxo::outputs_of(l.utxos) + t.outputs(), address);
                utxo::balance_in_append(utxo::outputs_of(l.utxos), t.outputs(), address);
            }
            locks::room_means_fits(utxos.deep_view(), l.locked);
        }
        if locks::ensure_room(&utxos, &self.locked).is_err() {
            return;
        }
        self.utxos = utxos;
        assert(self.deep_view() == l.expecting(t));
    }

    /// Drops the pending transactions.
    pub fn clear_pending_transactions(&mut self)
        requires
            old(self).wf(),
        ensures
            final(self).wf(),
            final(self).deep_view() == (LedgerView {
                pending: Seq::<TransactionView>::empty(),
                ..old(self).deep_view()
            }),
    {
        self.pending = Vec::new();
        proof {
            reveal(utxo::all_signed);
        }
        assert(self.pending.deep_view() =~= Seq::<TransactionView>::empty());
    }

    /// Drops the pending envelopes.
    pub fn clear_pending_blinded_transactions(&mut self)
        requires
            old(self).wf(),
        ensures
            final(self).wf(),
            final(self).deep_view() == (LedgerView {
                pending_blinded: Seq::<BlindedTransactionView>::empty(),
                ..old(self).deep_view()
            }),
    {
        self.pending_blinded = Vec::new();
        assert(self.pending_blinded.deep_view() =~= Seq::<BlindedTransactionView>::empty());
        proof {
            reveal(ledger::owners_signed);
        }
    }

    /// The envelope of a transaction under a key and nonce, signed by a wallet.
    pub fn envelope(
        &self,
        wallet: &Wallet,
        transaction: Transaction,
        expires_at_height: u64,
        key: &[u8],
        nonce: &[u8],
    ) -> (r: Result<BuiltBlindedTransaction, Error>)
        requires
            self.wf(),
            key@.len() == 32,
            nonce@.len() == 12,
        ensures
            error::outcome(r) == self.deep_view().enveloped(
                wallet.seed(),
                transaction.deep_view(),
                expires_at_height,
                key@,
                nonce@,
            ),
            r matches Ok(b) ==> sealing::decrypted(b.transaction.deep_view(), b.reveal.deep_view()) == Ok::<
                TransactionView,
                Seq<char>,
            >(transaction.deep_view()) && b.payload.deep_view() == transaction.deep_view(),
    {
        let built = sealing::seal_transaction(wallet, transaction, expires_at_height, key, nonce)?;
        self.validate_blinded_transaction(&built.transaction)?;
        Ok(built)
    }

    fn validate_blinding(&self, transaction: &Transaction, fee: Amount, expires_at_height: u64) -> (r: Result<(), Error>)
        requires
            self.wf(),
        ensures
            error::outcome(r) == self.deep_view().blinding_check(
                transaction.deep_view(),
                fee,
                expires_at_height,
            ),
    {
        if expires_at_height <= self.height() {
            return Err(Error::new("blinded transaction expiry must be in the future"));
        }
        if expires_at_height > self.height().saturating_add(MAX_BLINDED_TRANSACTION_EXPIRY_HEIGHTS) {
            return Err(Error::new("blinded transaction expiry is too far in the future"));
        }
        if fee != transaction.fee() {
            return Err(Error::new("blinded transaction fee must match plaintext transaction fee"));
        }
        Ok(())
    }

    /// Seals a transaction under a random key and nonce, and signs the envelope.
    pub fn blind_transaction(
        &self,
        wallet: &Wallet,
        transaction: Transaction,
        fee: Amount,
        expires_at_height: u64,
    ) -> (r: Result<BuiltBlindedTransaction, Error>)
        requires
            self.wf(),
        ensures
            self.deep_view().blinding_gives(
                wallet.seed(),
                transaction.deep_view(),
                fee,
                expires_at_height,
                error::outcome(r),
            ),
            r matches Ok(b) ==> sealing::decrypted(b.transaction.deep_view(), b.reveal.deep_view()) == Ok::<
                TransactionView,
                Seq<char>,
            >(transaction.deep_view()) && b.payload.deep_view() == transaction.deep_view(),
    {
        self.validate_blinding(&transaction, fee, expires_at_height)?;
        let key = match crypto::random_bytes(BLINDED_KEY_BYTES) {
            Ok(key) => key,
            Err(cause) => {
                let mut message = text::text("failed to generate blinded transaction key: ");
                message.append(cause.as_str());
                let error = Error::of(message);
                assert(no_randomness_for(
                    cause@,
                    Err::<BuiltBlindedTransactionView, Seq<char>>(error.deep_view()),
                ));
                return Err(error);
            },
        };
        let nonce = match crypto::random_bytes(BLINDED_NONCE_BYTES) {
            Ok(nonce) => nonce,
            Err(cause) => {
                let mut message = text::text("failed to generate blinded transaction nonce: ");
                message.append(cause.as_str());
                let error = Error::of(message);
                assert(no_randomness_for(
                    cause@,
                    Err::<BuiltBlindedTransactionView, Seq<char>>(error.deep_view()),
                ));
                return Err(error);
            },
        };
        self.envelope(wallet, transaction, expires_at_height, key.as_slice(), nonce.as_slice())
    }

    /// A burn in an envelope.
    pub fn build_blinded_burn(&self, wallet: &Wallet, amount: Amount, fee: Amount, expires_at_height: u64) -> (r: Result<
        BuiltBlindedTransaction,
        Error,
    >)
        requires
            self.wf(),
        ensures
            match self.deep_view().built_burn(wallet.seed(), amount, fee) {
                Err(e) => error::outcome(r) == Err::<BuiltBlindedTransactionView, Seq<char>>(e),
                Ok(t) => self.deep_view().blinding_gives(
                    wallet.seed(),
                    t,
                    fee,
                    expires_at_height,
                    error::outcome(r),
                ),
            },
            r matches Ok(b) ==> sealing::decrypted(b.transaction.deep_view(), b.reveal.deep_view()) == Ok::<
                TransactionView,
                Seq<char>,
            >(b.payload.deep_view()),
    {
        let transaction = self.build_burn(wallet, amount, fee)?;
        self.blind_transaction(wallet, transaction, fee, expires_at_height)
    }

    /// A transfer in an envelope.
    pub fn build_blinded_transfer(
        &self,
        wallet: &Wallet,
        to: &str,
        amount: Amount,
        fee: Amount,
        expires_at_height: u64,
    ) -> (r: Result<BuiltBlindedTransaction, Error>)
        requires
            self.wf(),
        ensures
            match self.deep_view().built_transfer(wallet.seed(), to@, amount, fee) {
                Err(e) => error::outcome(r) == Err::<BuiltBlindedTransactionView, Seq<char>>(e),
                Ok(t) => self.deep_view().blinding_gives(
                    wallet.seed(),
                    t,
                    fee,
                    expires_at_height,
                    error::outcome(r),
                ),
            },
            r matches Ok(b) ==> sealing::decrypted(b.transaction.deep_view(), b.reveal.deep_view()) == Ok::<
                TransactionView,
                Seq<char>,
            >(b.payload.deep_view()),
    {
        let transaction = self.build_transfer(wallet, to, amount, fee)?;
        self.blind_transaction(wallet, transaction, fee, expires_at_height)
    }

    /// A given transaction in an envelope that a wallet signs.
    pub fn build_blinded_transaction(
        &self,
        wallet: &Wallet,
        transaction: Transaction,
        expires_at_height: u64,
    ) -> (r: Result<BuiltBlindedTransaction, Error>)
        requires
            self.wf(),
        ensures
            self.deep_view().blinding_gives(
                wallet.seed(),
                transaction.deep_view(),
                transaction.deep_view().fee(),
                expires_at_height,
                error::outcome(r),
            ),
            r matches Ok(b) ==> sealing::decrypted(b.transaction.deep_view(), b.reveal.deep_view()) == Ok::<
                TransactionView,
                Seq<char>,
            >(transaction.deep_view()),
    {
        let fee = transaction.fee();
        self.blind_transaction(wallet, transaction, fee, expires_at_height)
    }

    /// The mine transaction of a nonce, if it proves work that is not known yet.
    fn try_nonce(&self, recipient: &str, salt: u64, nonce: u64, difficulty_bits: u32) -> (r: Option<Transaction>)
        requires
            self.wf(),
            difficulty_bits == self.deep_view().difficulty_at(self.deep_view().height()),
        ensures
            match r {
                Some(t) => self.deep_view().proves_work(recipient@, salt, nonce) && t.deep_view()
                    == self.deep_view().mine_at(recipient@, salt, nonce),
                None => !self.deep_view().proves_work(recipient@, salt, nonce),
            },
    {
        let anchor = self.tip().hash.as_str();
        let signature = transaction::mine_signature(recipient, anchor, salt, nonce, difficulty_bits);
        if !stratum::hash_meets_difficulty(signature.as_str(), difficulty_bits) {
            return None;
        }
        if self.has_transaction(signature.as_str()) {
            return None;
        }
        Some(
            Transaction::Mine {
                recipient: text::text(recipient),
                anchor: text::text(anchor),
                salt,
                nonce,
                difficulty_bits,
                proof_header: None,
                signature,
            },
        )
    }

    /// The mine transaction with the least nonce that proves work.
    pub fn build_mine(&self, recipient: &str) -> (r: Result<Transaction, Error>)
        requires
            self.wf(),
        ensures
            match validate::address_check(recipient@, "mine recipient"@) {
                Err(e) => error::outcome(r) == Err::<TransactionView, Seq<char>>(e),
                Ok(_) => {
                    ||| error::outcome(r) == Err::<TransactionView, Seq<char>>(
                        "could not find valid mine proof"@,
                    ) && forall|nonce: u64|
                        nonce < u64::MAX ==> !#[trigger] self.deep_view().proves_work(recipient@, 1, nonce)
                    ||| exists|nonce: u64| #[trigger]
                        self.deep_view().least_proof(recipient@, 1, nonce) && nonce < u64::MAX
                            && error::outcome(r) == self.deep_view().checked(
                            self.deep_view().mine_at(recipient@, 1, nonce),
                        )
                },
            },
    {
        validate::validate_address(recipient, "mine recipient")?;
        let salt: u64 = 1;
        let difficulty_bits: u32 = self.current_mine_difficulty_bits();
        let mut nonce: u64 = 0;
        while nonce < u64::MAX
            invariant
                self.wf(),
                salt == 1,
                difficulty_bits == self.deep_view().difficulty_at(self.deep_view().height()),
                validate::address_check(recipient@, "mine recipient"@) is Ok,
                forall|earlier: u64|
                    earlier < nonce ==> !#[trigger] self.deep_view().proves_work(recipient@, 1, earlier),
            decreases u64::MAX - nonce,
        {
            if let Some(transaction) = self.try_nonce(recipient, salt, nonce, difficulty_bits) {
                assert(self.deep_view().least_proof(recipient@, 1, nonce));
                self.validate_new_transaction(&transaction)?;
                return Ok(transaction);
            }
            nonce = nonce + 1;
        }
        Err(Error::new("could not find valid mine proof"))
    }

    /// Tries nonces in turn, up to a number of attempts.
    pub fn search_mine(&self, recipient: &str, salt: u64, start_nonce: u64, max_attempts: u64) -> (r: Result<
        MineSearchOutcome,
        Error,
    >)
        requires
            self.wf(),
        ensures
            error::outcome(r) == match validate::address_check(recipient@, "mine recipient"@) {
                Err(e) => Err(e),
                Ok(_) => self.deep_view().searched(recipient@, salt, start_nonce, 0, max_attempts as nat),
            },
    {
        validate::validate_address(recipient, "mine recipient")?;
        let difficulty_bits: u32 = self.current_mine_difficulty_bits();
        let mut attempts: u64 = 0;
        let mut nonce: u64 = start_nonce;
        while attempts < max_attempts
            invariant
                self.wf(),
                attempts <= max_attempts,
                difficulty_bits == self.deep_view().difficulty_at(self.deep_view().height()),
                validate::address_check(recipient@, "mine recipient"@) is Ok,
                self.deep_view().searched(recipient@, salt, start_nonce, 0, max_attempts as nat)
                    == self.deep_view().searched(
                    recipient@,
                    salt,
                    nonce,
                    attempts,
                    (max_attempts - attempts) as nat,
                ),
            decreases max_attempts - attempts,
        {
            attempts = attempts + 1;
            let next_nonce: u64 = match nonce.checked_add(1) {
                Some(next) => next,
                None => 0,
            };
            if let Some(transaction) = self.try_nonce(recipient, salt, nonce, difficulty_bits) {
                self.validate_new_transaction(&transaction)?;
                return Ok(MineSearchOutcome { transaction: Some(transaction), next_nonce, attempts });
            }
            nonce = next_nonce;
        }
        Ok(MineSearchOutcome { transaction: None, next_nonce: nonce, attempts })
    }

    /// The template of work on an anchor.
    pub fn stratum_mine_template(&self, recipient: &str, anchor: &str, salt: u64, difficulty_bits: u32) -> (r: Result<
        StratumMineTemplate,
        Error,
    >)
        ensures
            match r {
                Ok(t) => stratum::template_refusal(recipient@, anchor@) is None && stratum::template_matches(
                    t,
                    recipient@,
                    anchor@,
                    salt,
                    difficulty_bits,
                ),
                Err(e) => stratum::template_refusal(recipient@, anchor@) == Some(e.deep_view()),
            },
    {
        stratum::stratum_mine_template(recipient, anchor, salt, difficulty_bits)
    }

    /// The mine transaction of a share of a template.
    pub fn build_stratum_mine(&self, template: StratumMineTemplate, share: StratumMineShare) -> (r: Result<
        Transaction,
        Error,
    >)
        requires
            self.wf(),
        ensures
            error::outcome(r) == self.deep_view().stratum_mine(
                template.recipient@,
                template.anchor@,
                template.salt,
                template.difficulty_bits,
                stratum::packed_nonce(share.extranonce2@, share.header_nonce@) as u64,
            ),
    {
        let nonce: u64 = stratum::pack_stratum_nonce(share.extranonce2, share.header_nonce);
        let header = stratum::stratum_mine_header_bytes(
            template.recipient.as_str(),
            template.anchor.as_str(),
            template.salt,
            nonce,
            template.difficulty_bits,
        )?;
        let transaction = Transaction::Mine {
            recipient: template.recipient,
            anchor: template.anchor,
            salt: template.salt,
            nonce,
            difficulty_bits: template.difficulty_bits,
            proof_header: Some(hex::hex_encode(header.as_slice())),
            signature: stratum::stratum_mine_signature(header.as_slice()),
        };
        self.validate_new_transaction(&transaction)?;
        Ok(transaction)
    }

    /// One more than the number of references that name an address.
    pub fn next_nonce(&self, address: &str) -> (r: u64)
        requires
            self.deep_view().mentions(address@) < u64::MAX,
        ensures
            r == self.deep_view().mentions(address@) + 1,
    {
        let references = self.reference_list();
        let ghost v = references.deep_view();
        let ghost p = |o: OutPointView| text::occurs_in(o.txid, address@);
        let mut count: usize = 0;
        let mut i: usize = 0;
        proof {
            model::take_all(v);
            model::filter_empty(p);
        }
        while i < references.len()
            invariant
                i <= references.len(),
                count <= i,
                v == references.deep_view(),
                p == (|o: OutPointView| text::occurs_in(o.txid, address@)),
                count == v.take(i as int).filter(p).len(),
            decreases references.len() - i,
        {
            proof {
                model::take_step(v, i as int);
                model::filter_push(v.take(i as int), v[i as int], p);
            }
            if text::text_contains(references[i].txid.as_str(), address) {
                count = count + 1;
            }
            i = i + 1;
        }
        proof {
            model::take_all(v);
        }
        count as u64 + 1
    }

    fn reference_list(&self) -> (r: Vec<OutPoint>)
        ensures
            r.deep_view() == self.deep_view().references(),
    {
        broadcast use model::group_views;

        let ghost u = self.deep_view().utxos;
        let ghost p = self.deep_view().pending;
        let mut out: Vec<OutPoint> = Vec::new();
        let mut i: usize = 0;
        proof {
            assert(out.deep_view() =~= references_of(u.take(0)));
        }
        while i < self.utxos.len()
            invariant
                i <= u.len(),
                u == self.deep_view().utxos,
                out.deep_view() == references_of(u.take(i as int)),
            decreases u.len() - i,
        {
            let ghost before = out.deep_view();
            let reference = self.utxos.at(i).0.duplicate();
            assert(reference.deep_view() == u[i as int].0);
            out.push(reference);
            assert(out.deep_view() == before.push(u[i as int].0));
            i = i + 1;
            assert(out.deep_view() =~= references_of(u.take(i as int)));
        }
        proof {
            model::take_all(u);
            model::take_all(p);
            assert(out.deep_view() =~= references_of(u) + spent_references(p.take(0)));
        }
        let mut k: usize = 0;
        while k < self.pending.len()
            invariant
                k <= self.pending.len(),
                p == self.pending.deep_view(),
                out.deep_view() == references_of(u) + spent_references(p.take(k as int)),
            decreases self.pending.len() - k,
        {
            let inputs = self.pending[k].inputs();
            let ghost before = out.deep_view();
            let ghost w = inputs.deep_view();
            let mut j: usize = 0;
            assert(out.deep_view() =~= before + input_references(w.take(0)));
            while j < inputs.len()
                invariant
                    j <= inputs.len(),
                    w == inputs.deep_view(),
                    out.deep_view() == before + input_references(w.take(j as int)),
                decreases inputs.len() - j,
            {
                let ghost now = out.deep_view();
                out.push(inputs[j].outpoint.duplicate());
                assert(out.deep_view() == now.push(w[j as int].outpoint));
                j = j + 1;
                assert(out.deep_view() =~= before + input_references(w.take(j as int)));
            }
            proof {
                model::take_all(w);
                assert(p.take(k + 1).drop_last() =~= p.take(k as int));
                assert(out.deep_view() =~= references_of(u) + spent_references(p.take(k + 1)));
            }
            k = k + 1;
        }
        proof {
            model::take_all(p);
        }
        out
    }
}

/// The selected outputs are no more than are needed: without the last of them the amount is not
/// reached. None are selected only where all together do not reach it, or there are none.
pub proof fn no_more_than_needed(outputs: Seq<TxOutputView>, amount: Amount, n: int)
    requires
        0 < n <= outputs.len(),
    ensures
        enough(outputs, amount) matches Some(count) ==> (n < count ==> utxo::sum_of(outputs.take(n)) < amount),
        enough(outputs, amount) is None ==> utxo::sum_of(outputs.take(n)) < amount,
    decreases outputs.len(),
{
    model::take_all(outputs);
    if n < outputs.len() {
        no_more_than_needed(outputs.drop_last(), amount, n);
        assert(outputs.drop_last().take(n) =~= outputs.take(n));
    } else {
        enough_is_enough(outputs.drop_last(), amount);
    }
}

/// An address has inputs for an amount exactly where it holds an output and its balance reaches the
/// amount. They spend its own outputs, from the first on, and what they hold reaches the amount.
pub proof fn balance_is_spendable(u: UtxosView, address: Seq<char>, amount: Amount)
    requires
        utxo::balance(u, address) <= 18_446_744_073_709_551_615,
    ensures
        selected(u, address, amount) is Ok <==> ledger::outputs_at(u, address).len() > 0 && utxo::balance(u, address)
            >= amount,
        selected(u, address, amount) matches Ok((inputs, total)) ==> {
            let owned = ledger::outputs_at(u, address);
            &&& 0 < inputs.len() <= owned.len()
            &&& total >= amount
            &&& total == utxo::sum_of(utxo::outputs_of(owned.take(inputs.len() as int)))
            &&& inputs.len() > 1 ==> utxo::sum_of(utxo::outputs_of(owned.take(inputs.len() - 1))) < amount
            &&& forall|i: int|
                0 <= i < inputs.len() ==> (#[trigger] inputs[i]).owner == address && inputs[i].outpoint == owned[i].0
        },
{
    let owned = ledger::outputs_at(u, address);
    let outputs = utxo::outputs_of(owned);
    owned_sum(u, address);
    enough_is_enough(outputs, amount);
    model::take_all(outputs);
    if outputs.len() > 0 {
        no_more_than_needed(outputs, amount, outputs.len() as int);
    }
    if let Some(count) = enough(outputs, amount) {
        prefix_sum(outputs, count as int);
        assert(utxo::outputs_of(owned.take(count as int)) =~= outputs.take(count as int));
        if count > 1 {
            no_more_than_needed(outputs, amount, count - 1);
            assert(utxo::outputs_of(owned.take(count - 1)) =~= outputs.take(count - 1));
        }
    }
}

/// What chosen outputs hold is what each holds, added up: each is unspent, the owner's, and chosen
/// once.
pub proof fn chosen_outputs_are_added_up(u: UtxosView, address: Seq<char>, outpoints: Seq<OutPointView>, outputs: Seq<TxOutputView>)
    requires
        outputs.len() == outpoints.len(),
    ensures
        chosen_total(u, address, outpoints) is Ok ==> outpoints.no_duplicates() && (forall|i: int|
            0 <= i < outpoints.len() ==> (sorted::lookup(u, #[trigger] outpoints[i]) matches Some(o) && o.address
                == address)),
        (forall|i: int|
            0 <= i < outpoints.len() ==> sorted::lookup(u, #[trigger] outpoints[i]) == Some(outputs[i]) && outputs[i].address
                == address) && outpoints.no_duplicates() ==> (if utxo::sum_of(outputs) <= 18_446_744_073_709_551_615 {
            chosen_total(u, address, outpoints) matches Ok(total) && total == utxo::sum_of(outputs)
        } else {
            chosen_total(u, address, outpoints) is Err
        }),
    decreases outpoints.len(),
{
    if outpoints.len() > 0 {
        let earlier = outpoints.drop_last();
        let n = outpoints.len() - 1;
        chosen_outputs_are_added_up(u, address, earlier, outputs.drop_last());
        if chosen_total(u, address, outpoints) is Ok {
            assert forall|i: int, k: int| 0 <= i < outpoints.len() && 0 <= k < outpoints.len() && i != k implies outpoints[i]
                != outpoints[k] by {
                if i < n && k < n {
                    assert(earlier[i] != earlier[k]);
                } else if i < n {
                    assert(earlier[i] == outpoints[i]);
                    assert(earlier.contains(earlier[i]));
                } else {
                    assert(earlier[k] == outpoints[k]);
                    assert(earlier.contains(earlier[k]));
                }
            }
            assert forall|i: int| 0 <= i < outpoints.len() implies (sorted::lookup(u, #[trigger] outpoints[i]) is Some
                && sorted::lookup(u, outpoints[i])->0.address == address) by {
                if i < n {
                    assert(earlier[i] == outpoints[i]);
                }
            }
        }
        if (forall|i: int|
            0 <= i < outpoints.len() ==> sorted::lookup(u, #[trigger] outpoints[i]) == Some(outputs[i]) && outputs[i].address
                == address) && outpoints.no_duplicates() {
            assert forall|i: int| 0 <= i < earlier.len() implies sorted::lookup(u, #[trigger] earlier[i]) == Some(
                outputs.drop_last()[i],
            ) && outputs.drop_last()[i].address == address by {
                assert(earlier[i] == outpoints[i]);
            }
            assert(earlier.no_duplicates()) by {
                assert forall|i: int, k: int| 0 <= i < earlier.len() && 0 <= k < earlier.len() && i != k implies earlier[i]
                    != earlier[k] by {
                    assert(outpoints[i] != outpoints[k]);
                }
            }
            assert(sorted::lookup(u, outpoints[n]) == Some(outputs[n]));
            if earlier.contains(outpoints[n]) {
                let i = choose|i: int| 0 <= i < earlier.len() && earlier[i] == outpoints[n];
                assert(outpoints[i] != outpoints[n]);
            }
        }
    }
}

/// A transfer that a wallet builds applies to what can be spent, is signed by the wallet, pays the
/// amount to the recipient and the fee, and gives all that is left back to the wallet.
pub proof fn built_transfer_pays(l: LedgerView, seed: Seq<u8>, to: Seq<char>, amount: Amount, fee: Amount)
    requires
        l.built_transfer(seed, to, amount, fee) is Ok,
    ensures
        ({
            let t = l.built_transfer(seed, to, amount, fee)->Ok_0;
            &&& t is Transfer
            &&& pays(t, l.spendable(), wallet::address_of(seed), fee)
            &&& 1 <= t.outputs().len() <= 2
            &&& t.outputs()[0] == TxOutputView { address: to, amount }
            &&& (t.outputs().len() == 2 ==> t.outputs()[1].address == wallet::address_of(seed) && t.outputs()[1].amount > 0)
        }),
{
    let t = l.built_transfer(seed, to, amount, fee)->Ok_0;
    inputs_are_the_senders(t, l.spendable());
}

/// A transfer out of chosen outputs spends exactly these, in their order; else it is as any.
pub proof fn built_transfer_spends_the_chosen(
    l: LedgerView,
    seed: Seq<u8>,
    to: Seq<char>,
    amount: Amount,
    fee: Amount,
    outpoints: Seq<OutPointView>,
)
    requires
        l.built_transfer_of(seed, to, amount, fee, outpoints) is Ok,
    ensures
        ({
            let t = l.built_transfer_of(seed, to, amount, fee, outpoints)->Ok_0;
            &&& t is Transfer
            &&& pays(t, l.spendable(), wallet::address_of(seed), fee)
            &&& t.inputs().len() == outpoints.len()
            &&& forall|i: int| 0 <= i < outpoints.len() ==> (#[trigger] t.inputs()[i]).outpoint == outpoints[i]
            &&& 1 <= t.outputs().len() <= 2
            &&& t.outputs()[0] == TxOutputView { address: to, amount }
            &&& (t.outputs().len() == 2 ==> t.outputs()[1].address == wallet::address_of(seed) && t.outputs()[1].amount > 0)
        }),
{
    let t = l.built_transfer_of(seed, to, amount, fee, outpoints)->Ok_0;
    inputs_are_the_senders(t, l.spendable());
}

/// A burn that a wallet builds applies to what can be spent, is signed by the wallet, burns the
/// amount, pays the fee, and gives all that is left back to the wallet.
pub proof fn built_burn_burns(l: LedgerView, seed: Seq<u8>, amount: Amount, fee: Amount)
    requires
        l.built_burn(seed, amount, fee) is Ok,
    ensures
        ({
            let t = l.built_burn(seed, amount, fee)->Ok_0;
            &&& t is Burn
            &&& t.burned() == amount
            &&& pays(t, l.spendable(), wallet::address_of(seed), fee)
            &&& t.outputs().len() <= 1
            &&& (t.outputs().len() == 1 ==> t.outputs()[0].address == wallet::address_of(seed) && t.outputs()[0].amount > 0)
        }),
{
    let t = l.built_burn(seed, amount, fee)->Ok_0;
    inputs_are_the_senders(t, l.spendable());
}

/// A burn out of chosen outputs spends exactly these, in their order; else it is as any.
pub proof fn built_burn_spends_the_chosen(
    l: LedgerView,
    seed: Seq<u8>,
    amount: Amount,
    fee: Amount,
    outpoints: Seq<OutPointView>,
)
    requires
        l.built_burn_of(seed, amount, fee, outpoints) is Ok,
    ensures
        ({
            let t = l.built_burn_of(seed, amount, fee, outpoints)->Ok_0;
            &&& t is Burn
            &&& t.burned() == amount
            &&& pays(t, l.spendable(), wallet::address_of(seed), fee)
            &&& t.inputs().len() == outpoints.len()
            &&& forall|i: int| 0 <= i < outpoints.len() ==> (#[trigger] t.inputs()[i]).outpoint == outpoints[i]
            &&& t.outputs().len() <= 1
            &&& (t.outputs().len() == 1 ==> t.outputs()[0].address == wallet::address_of(seed) && t.outputs()[0].amount > 0)
        }),
{
    let t = l.built_burn_of(seed, amount, fee, outpoints)->Ok_0;
    inputs_are_the_senders(t, l.spendable());
}

/// Whether a payment of an address applies to outputs, carries a fee, and takes exactly what it gives,
/// burns and pays.
pub open spec fn pays(t: TransactionView, u: UtxosView, from: Seq<char>, fee: Amount) -> bool {
    &&& t.fee() == fee
    &&& t.sender() == from
    &&& t.signature_check() is Ok
    &&& forall|i: int| 0 <= i < t.inputs().len() ==> (#[trigger] t.inputs()[i]).owner == from
    &&& utxo::spend(t.inputs(), u).1 matches Ok(total) && total == utxo::sum_of(t.outputs()) + fee + t.burned()
}

proof fn inputs_are_the_senders(t: TransactionView, u: UtxosView)
    requires
        !(t is Mine),
        utxo::applies(t, u),
    ensures
        t.inputs().len() > 0,
        forall|i: int| 0 <= i < t.inputs().len() ==> (#[trigger] t.inputs()[i]).owner == t.sender(),
{
    assert forall|i: int| 0 <= i < t.inputs().len() implies (#[trigger] t.inputs()[i]).owner == t.sender() by {
        assert(!(0 <= i < t.inputs().len() && t.inputs()[i].owner != t.inputs()[0].owner));
    }
}

/// The nonce some steps after another; after the largest comes zero.
pub open spec fn nonce_at(nonce: u64, steps: nat) -> u64 {
    ((nonce + steps) % 0x1_0000_0000_0000_0000) as u64
}

/// A search finds the first nonce that proves work: none before it does, the transaction it gives is
/// the one with that nonce, and it goes on after it. Where it finds none, none of those it may try
/// proves work.
pub proof fn search_finds_the_first_proof(
    l: LedgerView,
    recipient: Seq<char>,
    salt: u64,
    nonce: u64,
    attempts: u64,
    left: nat,
    k: nat,
)
    requires
        attempts + left <= 18_446_744_073_709_551_615,
        l.searched(recipient, salt, nonce, attempts, left) is Ok,
    ensures
        ({
            let o = l.searched(recipient, salt, nonce, attempts, left)->Ok_0;
            let tried = (o.attempts - attempts) as nat;
            &&& o.attempts >= attempts
            &&& o.next_nonce == nonce_at(nonce, tried)
            &&& (o.transaction is None ==> tried == left && (k < left ==> !l.proves_work(recipient, salt, nonce_at(nonce, k))))
            &&& (o.transaction matches Some(t) ==> {
                &&& 1 <= tried <= left
                &&& t == l.mine_at(recipient, salt, nonce_at(nonce, (tried - 1) as nat))
                &&& l.proves_work(recipient, salt, nonce_at(nonce, (tried - 1) as nat))
                &&& (k < tried - 1 ==> !l.proves_work(recipient, salt, nonce_at(nonce, k)))
            })
        }),
    decreases left,
{
    vstd::arithmetic::div_mod::lemma_small_mod(nonce as nat, 0x1_0000_0000_0000_0000);
    assert(nonce_at(nonce, 0) == nonce);
    assert(nonce_at(nonce, 1) == nonce_after(nonce));
    if left > 0 && !l.proves_work(recipient, salt, nonce) {
        let next = nonce_after(nonce);
        let o = l.searched(recipient, salt, nonce, attempts, left)->Ok_0;
        search_finds_the_first_proof(
            l,
            recipient,
            salt,
            next,
            (attempts + 1) as u64,
            (left - 1) as nat,
            if k > 0 { (k - 1) as nat } else { 0 },
        );
        let tried = (o.attempts - attempts) as nat;
        if k > 0 {
            nonces_follow(nonce, (k - 1) as nat);
        }
        nonces_follow(nonce, (tried - 1) as nat);
        if tried > 1 {
            nonces_follow(nonce, (tried - 2) as nat);
        }
    }
}

proof fn nonces_follow(nonce: u64, steps: nat)
    ensures
        nonce_at(nonce_after(nonce), steps) == nonce_at(nonce, steps + 1),
{
    let m: int = 0x1_0000_0000_0000_0000;
    if nonce == u64::MAX {
        vstd::arithmetic::div_mod::lemma_mod_add_multiples_vanish(steps as int, m);
        assert(nonce + (steps + 1) == m + steps);
    }
}

/// A nonce that proves work gives a transaction that proves it to everyone.
pub proof fn proven_work_is_accepted(l: LedgerView, recipient: Seq<char>, salt: u64, nonce: u64)
    requires
        l.proves_work(recipient, salt, nonce),
    ensures
        l.mine_at(recipient, salt, nonce).signature_check() is Ok,
        l.mine_at(recipient, salt, nonce)->anchor == l.tip().hash,
        l.mine_at(recipient, salt, nonce)->recipient == recipient,
        l.mine_at(recipient, salt, nonce)->difficulty_bits == l.difficulty_at(l.height()),
        !l.knows_transaction(l.mine_at(recipient, salt, nonce).signature()),
{
}

} // verus!
