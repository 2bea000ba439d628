//! What waits to enter the chain: which transactions are acceptable, and in which order they apply.
use crate::blinded;
use crate::blinded::{
    ActiveBlindedTransaction, ActiveBlindedTransactionView, BlindedReveal, BlindedRevealView,
    BlindedTransaction, BlindedTransactionView, RevealedBlindedTransaction, RevealedBlindedTransactionView,
    MAX_BLINDED_TRANSACTION_EXPIRY_HEIGHTS,
};
use crate::block;
use crate::block::BlockView;
use crate::bundling;
use crate::error;
use crate::error::Error;
use crate::genesis;
use crate::hex;
use crate::ledger;
use crate::ledger::{Ledger, LedgerView, MAX_ORPHAN_TRANSACTIONS};
use crate::locks;
use crate::model;
use crate::model::Model;
use crate::sealing;
use crate::sorted;
use crate::text;
use crate::tickets::MAX_PENDING_TRANSACTIONS;
use crate::transaction::{OutPoint, Transaction, TransactionView, TxInput, TxInputView, TxOutput, TxOutputView};
use crate::utxo;
use crate::utxo::{Utxos, UtxosView};
use crate::validate;
use vstd::prelude::*;
use vstd::string::*;

verus! {

pub const MINE_MAX_ANCHOR_AGE_BLOCKS: u64 = 10;

/// What became of a submitted transaction.
#[derive(Clone, Copy, Debug, Eq, PartialEq, Structural)]
pub enum TransactionSubmitOutcome {
    Added,
    AlreadyKnown,
    ConflictsWithPending,
}

impl DeepView for TransactionSubmitOutcome {
    type V = TransactionSubmitOutcome;

    open spec fn deep_view(&self) -> TransactionSubmitOutcome {
        *self
    }
}

impl TransactionSubmitOutcome {
    pub fn added(self) -> (r: bool)
        ensures
            r == (self == TransactionSubmitOutcome::Added),
    {
        match self {
            TransactionSubmitOutcome::Added => true,
            _ => false,
        }
    }
}

/// The form of an input.
pub open spec fn input_check() -> spec_fn(TxInputView) -> Result<(), Seq<char>> {
    |i: TxInputView|
        match validate::protocol_id_check(i.outpoint.txid, "input outpoint txid"@) {
            Err(e) => Err(e),
            Ok(_) => match validate::address_check(i.owner, "input owner"@) {
                Err(e) => Err(e),
                Ok(_) => validate::signature_check(i.signature, "input signature"@),
            },
        }
}

/// The form of inputs; or the refusal of the first bad one.
pub open spec fn inputs_check(inputs: Seq<TxInputView>) -> Result<(), Seq<char>> {
    error::first_refusal(inputs, input_check())
}

fn validate_transaction_inputs(inputs: &Vec<TxInput>) -> (r: Result<(), Error>)
    ensures
        error::outcome(r) == inputs_check(inputs.deep_view()),
{
    let ghost v = inputs.deep_view();
    let mut i: usize = 0;
    proof {
        model::take_all(v);
    }
    while i < inputs.len()
        invariant
            i <= inputs.len(),
            v == inputs.deep_view(),
            error::first_refusal(v.take(i as int), input_check()) is Ok,
        decreases inputs.len() - i,
    {
        proof {
            error::refusal_step(v, input_check(), i as int);
        }
        validate::validate_protocol_id(inputs[i].outpoint.txid.as_str(), "input outpoint txid")?;
        validate::validate_address(inputs[i].owner.as_str(), "input owner")?;
        validate::validate_signature(inputs[i].signature.as_str(), "input signature")?;
        i = i + 1;
    }
    proof {
        model::take_all(v);
    }
    Ok(())
}

/// The form of a transfer or burn.
pub open spec fn spending_terms_check(inputs: Seq<TxInputView>, outputs: Seq<TxOutputView>, signature: Seq<char>) -> Result<
    (),
    Seq<char>,
> {
    match inputs_check(inputs) {
        Err(e) => Err(e),
        Ok(_) => match genesis::outputs_check(outputs) {
            Err(e) => Err(e),
            Ok(_) => validate::signature_check(signature, "transaction signature"@),
        },
    }
}

/// The form of a mine action.
pub open spec fn mine_form_check(
    recipient: Seq<char>,
    anchor: Seq<char>,
    proof_header: Option<Seq<char>>,
    signature: Seq<char>,
) -> Result<(), Seq<char>> {
    match validate::address_check(recipient, "mine recipient"@) {
        Err(e) => Err(e),
        Ok(_) => match validate::hash_check(anchor, "mine transaction anchor"@) {
            Err(e) => Err(e),
            Ok(_) => match validate::hash_check(signature, "mine transaction proof hash"@) {
                Err(e) => Err(e),
                Ok(_) => match proof_header {
                    Some(h) => validate::stratum_header_check(h),
                    None => Ok(()),
                },
            },
        },
    }
}

impl LedgerView {
    /// Whether a transaction may enter this chain, apart from what it spends.
    pub open spec fn terms_check(self, t: TransactionView) -> Result<(), Seq<char>> {
        match t {
            TransactionView::Transfer { inputs, outputs, signature, .. } => spending_terms_check(
                inputs,
                outputs,
                signature,
            ),
            TransactionView::Burn { inputs, change, signature, .. } => spending_terms_check(
                inputs,
                change,
                signature,
            ),
            TransactionView::Mine { recipient, anchor, difficulty_bits, proof_header, signature, .. } => {
                match mine_form_check(recipient, anchor, proof_header, signature) {
                    Err(e) => Err(e),
                    Ok(_) => match ledger::with_hash(self.chain, anchor) {
                        None => Err("mine transaction anchor is not on this chain"@),
                        Some(b) => if self.height() - b.height > MINE_MAX_ANCHOR_AGE_BLOCKS {
                            Err("mine transaction anchor is too old"@)
                        } else if difficulty_bits != self.difficulty_at(b.height) {
                            Err("mine transaction difficulty is invalid"@)
                        } else {
                            Ok(())
                        },
                    },
                }
            },
        }
    }

    /// One pass over transactions: which apply one after another, which are left, and what the
    /// outputs then are.
    pub open spec fn pass(self, remaining: Seq<TransactionView>, u: UtxosView) -> (
        Seq<TransactionView>,
        Seq<TransactionView>,
        UtxosView,
    )
        decreases remaining.len(),
    {
        if remaining.len() == 0 {
            (Seq::<TransactionView>::empty(), Seq::<TransactionView>::empty(), u)
        } else {
            let (valid, left, v) = self.pass(remaining.drop_last(), u);
            let t = remaining.last();
            if self.terms_check(t) is Err {
                (valid, left.push(t), v)
            } else if utxo::applies(t, v) {
                (valid.push(t), left, utxo::applied(t, v).0)
            } else {
                (valid, left.push(t), utxo::applied(t, v).0)
            }
        }
    }

    /// Passes until one finds nothing: the transactions that apply, in the order in which they do.
    pub open spec fn applicable(self, remaining: Seq<TransactionView>, u: UtxosView) -> Seq<TransactionView>
        decreases remaining.len(),
    {
        let (valid, left, v) = self.pass(remaining, u);
        if remaining.len() == 0 || valid.len() == 0 || left.len() >= remaining.len() {
            valid
        } else {
            valid + self.applicable(left, v)
        }
    }

    /// The pending transactions that apply.
    pub open spec fn valid_pending(self) -> Seq<TransactionView> {
        self.applicable(self.pending, self.utxos)
    }

    /// The outputs once the pending transactions applied.
    pub open spec fn after_pending(self) -> Result<UtxosView, Seq<char>> {
        apply_all(self.valid_pending(), self.utxos)
    }

    /// The outputs that can be spent: those after the pending transfers and burns that no pending
    /// envelope names.
    pub open spec fn spendable(self) -> UtxosView {
        locks::unreserved(apply_spending(self.valid_pending(), self.utxos), self.pending_blinded)
    }

    /// Looks for an orphan whose inputs have come and that nothing pending spends, among the first `n`.
    pub open spec fn promotable(self, u: UtxosView, n: nat) -> (Option<int>, UtxosView)
        decreases n,
    {
        if n == 0 {
            (None, u)
        } else {
            let (found, v) = self.promotable(u, (n - 1) as nat);
            let t = self.orphans[n - 1];
            if found is Some {
                (found, v)
            } else if utxo::spent_by(t, self.pending) || utxo::has_missing_inputs(t, v) || self.terms_check(t) is Err {
                (None, v)
            } else if utxo::applies(t, v) {
                (Some(n - 1), utxo::applied(t, v).0)
            } else {
                (None, utxo::applied(t, v).0)
            }
        }
    }

    /// The ledger with one orphan moved to the pending transactions.
    pub open spec fn with_promoted(self, index: int) -> LedgerView {
        LedgerView {
            pending: self.pending.push(self.orphans[index]),
            orphans: self.orphans.remove(index),
            ..self
        }
    }

    /// The ledger once every orphan whose inputs have come is pending.
    pub open spec fn promoted(self) -> (LedgerView, Result<(), Seq<char>>)
        decreases self.orphans.len(),
    {
        if self.pending.len() >= MAX_PENDING_TRANSACTIONS {
            (self, Ok(()))
        } else {
            match self.after_pending() {
                Err(e) => (self, Err(e)),
                Ok(u) => match self.promotable(u, self.orphans.len()).0 {
                    None => (self, Ok(())),
                    Some(index) => if 0 <= index < self.orphans.len() {
                        self.with_promoted(index).promoted()
                    } else {
                        (self, Ok(()))
                    },
                },
            }
        }
    }

    /// Whether a transaction applies and leaves room for what is held.
    pub open spec fn room_after(self, t: TransactionView, u: UtxosView) -> Result<(), Seq<char>> {
        match utxo::applied(t, u).1 {
            Err(e) => Err(e),
            Ok(_) => locks::room_check(utxo::applied(t, u).0, self.locked),
        }
    }

    /// What submitting a transaction does.
    #[verifier::opaque]
    pub open spec fn submitted(self, t: TransactionView) -> (
        LedgerView,
        Result<TransactionSubmitOutcome, Seq<char>>,
    ) {
        if self.knows_transaction(t.signature()) {
            (self, Ok(TransactionSubmitOutcome::AlreadyKnown))
        } else {
            match t.signature_check() {
                Err(e) => (self, Err(e)),
                Ok(_) => match self.terms_check(t) {
                    Err(e) => (self, Err(e)),
                    Ok(_) => if utxo::spent_by(t, self.pending) || utxo::spent_by(t, self.orphans) {
                        (self, Ok(TransactionSubmitOutcome::ConflictsWithPending))
                    } else if self.pending.len() >= MAX_PENDING_TRANSACTIONS {
                        (self, Err("mempool is full"@))
                    } else {
                        match self.after_pending() {
                            Err(e) => (self, Err(e)),
                            Ok(u) => if utxo::has_missing_inputs(t, u) {
                                if self.orphans.len() >= MAX_ORPHAN_TRANSACTIONS {
                                    (self, Err("orphan transaction pool is full"@))
                                } else {
                                    (
                                        LedgerView { orphans: self.orphans.push(t), ..self },
                                        Ok(TransactionSubmitOutcome::Added),
                                    )
                                }
                            } else {
                                match self.room_after(t, u) {
                                    Err(e) => (self, Err(e)),
                                    Ok(_) => {
                                        let (after, r) = LedgerView {
                                            pending: self.pending.push(t),
                                            ..self
                                        }.promoted();
                                        match r {
                                            Err(e) => (after, Err(e)),
                                            Ok(_) => (after, Ok(TransactionSubmitOutcome::Added)),
                                        }
                                    },
                                }
                            },
                        }
                    },
                },
            }
        }
    }

    /// Whether an envelope may wait at this height.
    pub open spec fn blinded_check(self, t: BlindedTransactionView) -> Result<(), Seq<char>> {
        match self.sealed_check(t) {
            Err(e) => Err(e),
            Ok(_) => self.claim_check(t),
        }
    }

    /// The form of an envelope.
    pub open spec fn sealed_check(self, t: BlindedTransactionView) -> Result<(), Seq<char>> {
        match validate::hash_check(t.commitment, "blinded transaction commitment"@) {
            Err(e) => Err(e),
            Ok(_) => match validate::hash_check(t.payload_hash, "blinded transaction payload hash"@) {
                Err(e) => Err(e),
                Ok(_) => match validate::bytes_check(t.nonce, 12, "invalid blinded transaction nonce"@) {
                    Err(e) => Err(e),
                    Ok(_) => match hex::bytes_of(t.ciphertext) {
                        Err(e) => Err(error::in_context("invalid blinded transaction ciphertext"@, e)),
                        Ok(c) => self.envelope_check(t, c.len()),
                    },
                },
            },
        }
    }

    /// The size, expiry and commitment of an envelope.
    pub open spec fn envelope_check(self, t: BlindedTransactionView, size: nat) -> Result<(), Seq<char>> {
        if size == 0 {
            Err("blinded transaction ciphertext is empty"@)
        } else if size != t.encrypted_size {
            Err("blinded transaction encrypted size is invalid"@)
        } else if t.expires_at_height <= self.height() {
            Err("blinded transaction is expired"@)
        } else if t.expires_at_height > self.height() + MAX_BLINDED_TRANSACTION_EXPIRY_HEIGHTS {
            Err("blinded transaction expiry is too far in the future"@)
        } else if t.commitment != t.expected_commitment() {
            Err("blinded transaction commitment is invalid"@)
        } else {
            Ok(())
        }
    }

    /// Whether the owner of what an envelope names signed it, and could own that: an output that is
    /// unspent is the owner's, and any other is still to come.
    pub open spec fn claim_check(self, t: BlindedTransactionView) -> Result<(), Seq<char>> {
        match inputs_check(t.inputs) {
            Err(e) => Err(e),
            Ok(_) => match t.owner_check() {
                Err(e) => Err(e),
                Ok(_) => error::first_refusal(t.inputs, coming_check(self.utxos, self.chain)),
            },
        }
    }

    /// Whether an envelope names unspent outputs of an owner who signed it.
    pub open spec fn funding_check(self, t: BlindedTransactionView) -> Result<(), Seq<char>> {
        match inputs_check(t.inputs) {
            Err(e) => Err(e),
            Ok(_) => match t.owner_check() {
                Err(e) => Err(e),
                Ok(_) => self.unspent_check(t.inputs),
            },
        }
    }

    /// Whether inputs name unspent outputs of their owners.
    pub open spec fn unspent_check(self, inputs: Seq<TxInputView>) -> Result<(), Seq<char>> {
        match locks::lock(inputs, self.holdings()) {
            Err(e) => Err(e),
            Ok(_) => Ok(()),
        }
    }

    /// What submitting an envelope does.
    pub open spec fn blinded_submitted(self, t: BlindedTransactionView) -> (LedgerView, Result<bool, Seq<char>>) {
        if self.knows_blinded(t.commitment) {
            (self, Ok(false))
        } else {
            match self.blinded_check(t) {
                Err(e) => (self, Err(e)),
                Ok(_) => if self.pending_blinded.len() >= MAX_PENDING_TRANSACTIONS {
                    (self, Err("blinded mempool is full"@))
                } else {
                    (LedgerView { pending_blinded: self.pending_blinded.push(t), ..self }, Ok(true))
                },
            }
        }
    }

    /// What submitting a reveal does.
    pub open spec fn reveal_submitted(self, r: BlindedRevealView) -> (LedgerView, Result<bool, Seq<char>>) {
        if self.knows_reveal(r.commitment) {
            (self, Ok(false))
        } else {
            match reveal_form_check(r) {
                Err(e) => (self, Err(e)),
                Ok(_) => if self.pending_reveals.len() >= MAX_PENDING_TRANSACTIONS {
                    (self, Err("blinded reveal pool is full"@))
                } else {
                    (LedgerView { pending_reveals: self.pending_reveals.push(r), ..self }, Ok(true))
                },
            }
        }
    }

    /// The transaction that a reveal opens, of an envelope that a block included.
    pub open spec fn opened_active(self, active: ActiveBlindedTransactionView, r: BlindedRevealView) -> Result<
        TransactionView,
        Seq<char>,
    > {
        if self.height() >= active.transaction.expires_at_height {
            Err("blinded transaction reveal is expired"@)
        } else {
            match sealing::decrypted(active.transaction, r) {
                Err(e) => Err(e),
                Ok(t) => if t.fee() != active.transaction.fee {
                    Err("blinded transaction reveal fee does not match envelope"@)
                } else {
                    match self.terms_check(t) {
                        Err(e) => Err(e),
                        Ok(_) => Ok(t),
                    }
                },
            }
        }
    }

    /// The transaction that a pending reveal opens.
    pub open spec fn opened_by(self, r: BlindedRevealView) -> Result<TransactionView, Seq<char>> {
        match reveal_form_check(r) {
            Err(e) => Err(e),
            Ok(_) => match sorted::lookup(self.active_blinded, r.commitment) {
                None => Err("blinded reveal does not reference an active blinded transaction"@),
                Some(active) => self.opened_active(active, r),
            },
        }
    }

    /// What reveals open once the next block has them, for those that open an included envelope.
    pub open spec fn opening(self, reveals: Seq<BlindedRevealView>) -> Seq<RevealedBlindedTransactionView>
        decreases reveals.len(),
    {
        if reveals.len() == 0 {
            Seq::<RevealedBlindedTransactionView>::empty()
        } else {
            let earlier = self.opening(reveals.drop_last());
            let r = reveals.last();
            match (sorted::lookup(self.active_blinded, r.commitment), self.opened_by(r)) {
                (Some(active), Ok(transaction)) => earlier.push(
                    RevealedBlindedTransactionView {
                        height: self.next_height(),
                        commitment: r.commitment,
                        included_by: active.included_by,
                        transaction,
                    },
                ),
                _ => earlier,
            }
        }
    }

    /// The ledger without the pending envelopes that name what a transaction spends.
    pub open spec fn without_conflicting(self, t: TransactionView) -> LedgerView {
        LedgerView {
            pending_blinded: self.pending_blinded.filter(
                |e: BlindedTransactionView| !locks::overlap(e.inputs, t.inputs()),
            ),
            ..self
        }
    }

    /// The envelopes that the next block may include.
    pub open spec fn includable(self, t: BlindedTransactionView) -> bool {
        t.expires_at_height > self.height() + 1 && self.blinded_check(t) is Ok && self.unspent_check(t.inputs) is Ok
    }
}

/// Whether the output that an input names is unspent and the owner's, or still to come: no block of
/// the chain names it.
pub open spec fn coming_check(u: UtxosView, chain: Seq<BlockView>) -> spec_fn(TxInputView) -> Result<(), Seq<char>> {
    |i: TxInputView|
        match sorted::lookup(u, i.outpoint) {
            Some(output) => if output.address != i.owner {
                Err("blinded transaction input owner does not match spent output"@)
            } else {
                Ok(())
            },
            None => if ledger::spent_in_blocks(chain, i.outpoint) {
                Err("blinded transaction spends missing output "@ + i.outpoint.id())
            } else {
                Ok(())
            },
        }
}

/// The form of a reveal.
pub open spec fn reveal_form_check(r: BlindedRevealView) -> Result<(), Seq<char>> {
    match validate::hash_check(r.commitment, "blinded reveal commitment"@) {
        Err(e) => Err(e),
        Ok(_) => validate::bytes_check(r.key, 32, "invalid blinded reveal key"@),
    }
}

/// The outputs after transactions, all of which must be accepted.
pub open spec fn apply_all(transactions: Seq<TransactionView>, u: UtxosView) -> Result<UtxosView, Seq<char>>
    decreases transactions.len(),
{
    if transactions.len() == 0 {
        Ok(u)
    } else {
        match apply_all(transactions.drop_last(), u) {
            Err(e) => Err(e),
            Ok(v) => match utxo::applied(transactions.last(), v).1 {
                Err(e) => Err(e),
                Ok(_) => Ok(utxo::applied(transactions.last(), v).0),
            },
        }
    }
}

/// The outputs after the transfers and burns among transactions, those that are refused left out.
pub open spec fn apply_spending(transactions: Seq<TransactionView>, u: UtxosView) -> UtxosView
    decreases transactions.len(),
{
    if transactions.len() == 0 {
        u
    } else {
        let v = apply_spending(transactions.drop_last(), u);
        let t = transactions.last();
        if !(t is Mine) && utxo::applies(t, v) {
            utxo::applied(t, v).0
        } else {
            v
        }
    }
}

proof fn apply_all_stops(transactions: Seq<TransactionView>, u: UtxosView, n: int)
    requires
        0 <= n <= transactions.len(),
        apply_all(transactions.take(n), u) is Err,
    ensures
        apply_all(transactions, u) == apply_all(transactions.take(n), u),
    decreases transactions.len(),
{
    if n < transactions.len() {
        assert(transactions.drop_last().take(n) =~= transactions.take(n));
        apply_all_stops(transactions.drop_last(), u, n);
    } else {
        model::take_all(transactions);
    }
}

/// A pass sorts the transactions into those that apply and those that are left.
pub proof fn pass_partitions(l: LedgerView, remaining: Seq<TransactionView>, u: UtxosView)
    ensures
        l.pass(remaining, u).0.len() + l.pass(remaining, u).1.len() == remaining.len(),
    decreases remaining.len(),
{
    if remaining.len() > 0 {
        pass_partitions(l, remaining.drop_last(), u);
    }
}

proof fn promotable_stays(l: LedgerView, u: UtxosView, n: nat, m: nat)
    requires
        n <= m,
        l.promotable(u, n).0 is Some,
    ensures
        l.promotable(u, m) == l.promotable(u, n),
    decreases m - n,
{
    if n < m {
        promotable_stays(l, u, n, (m - 1) as nat);
    }
}

/// Accepted transactions keep the bound on balances.
proof fn applying_all_keeps_balances_fitting(transactions: Seq<TransactionView>, u: UtxosView)
    requires
        sorted::increasing::<OutPoint, TxOutputView>(u),
        utxo::balances_fit(u),
    ensures
        apply_all(transactions, u) matches Ok(v) ==> sorted::increasing::<OutPoint, TxOutputView>(v)
            && utxo::balances_fit(v),
    decreases transactions.len(),
{
    if transactions.len() > 0 {
        applying_all_keeps_balances_fitting(transactions.drop_last(), u);
        if let Ok(v) = apply_all(transactions.drop_last(), u) {
            utxo::applying_keeps_balances_fitting(transactions.last(), v);
        }
    }
}

/// Promoting orphans touches nothing but the two pools, keeps the pools within their limits and
/// loses no transaction.
pub proof fn promotion_only_moves(l: LedgerView)
    ensures
        ({
            let p = l.promoted().0;
            &&& p == (LedgerView { pending: p.pending, orphans: p.orphans, ..l })
            &&& p.pending.len() + p.orphans.len() == l.pending.len() + l.orphans.len()
            &&& p.orphans.len() <= l.orphans.len()
            &&& l.pending.len() <= MAX_PENDING_TRANSACTIONS ==> p.pending.len() <= MAX_PENDING_TRANSACTIONS
        }),
    decreases l.orphans.len(),
{
    if l.pending.len() < MAX_PENDING_TRANSACTIONS {
        if let Ok(u) = l.after_pending() {
            if let Some(index) = l.promotable(u, l.orphans.len()).0 {
                if 0 <= index < l.orphans.len() {
                    promotion_only_moves(l.with_promoted(index));
                }
            }
        }
    }
}

/// Applies signed transactions one after another, stopping at the first refusal.
fn apply_transactions(transactions: &Vec<Transaction>, utxos: &Utxos) -> (r: Result<Utxos, Error>)
    requires
        utxos.wf(),
        utxo::all_signed(transactions.deep_view()),
    ensures
        error::outcome(r) == apply_all(transactions.deep_view(), utxos.deep_view()),
        r matches Ok(u) ==> u.wf(),
{
    let ghost v = transactions.deep_view();
    let ghost u = utxos.deep_view();
    let mut now = utxos.duplicate();
    let mut i: usize = 0;
    proof {
        model::take_all(v);
        utxos.wf_is_increasing();
        now.wf_is_increasing();
    }
    while i < transactions.len()
        invariant
            i <= transactions.len(),
            v == transactions.deep_view(),
            u == utxos.deep_view(),
            now.wf(),
            utxo::all_signed(v),
            apply_all(v.take(i as int), u) == Ok::<UtxosView, Seq<char>>(now.deep_view()),
        decreases transactions.len() - i,
    {
        proof {
            assert(v.take(i + 1).drop_last() =~= v.take(i as int));
            if apply_all(v.take(i + 1), u) is Err {
                apply_all_stops(v, u, i + 1);
            }
        }
        assert(v[i as int].signature_check() is Ok) by {
            reveal(utxo::all_signed);
        }
        utxo::apply_signed_transaction(&transactions[i], &mut now)?;
        i = i + 1;
    }
    proof {
        model::take_all(v);
    }
    Ok(now)
}

fn apply_spending_transactions(transactions: &Vec<Transaction>, utxos: &Utxos) -> (r: Utxos)
    requires
        utxos.wf(),
        utxo::all_signed(transactions.deep_view()),
    ensures
        r.wf(),
        r.deep_view() == apply_spending(transactions.deep_view(), utxos.deep_view()),
{
    let ghost v = transactions.deep_view();
    let ghost u = utxos.deep_view();
    let mut now = utxos.duplicate();
    let mut i: usize = 0;
    proof {
        model::take_all(v);
        utxos.wf_is_increasing();
        now.wf_is_increasing();
    }
    while i < transactions.len()
        invariant
            i <= transactions.len(),
            v == transactions.deep_view(),
            u == utxos.deep_view(),
            now.wf(),
            utxo::all_signed(v),
            now.deep_view() == apply_spending(v.take(i as int), u),
        decreases transactions.len() - i,
    {
        proof {
            assert(v.take(i + 1).drop_last() =~= v.take(i as int));
        }
        if !transactions[i].is_mine() {
            let mut candidate = now.duplicate();
            proof {
                now.wf_is_increasing();
                candidate.wf_is_increasing();
            }
            assert(v[i as int].signature_check() is Ok) by {
                reveal(utxo::all_signed);
            }
            if utxo::apply_signed_transaction(&transactions[i], &mut candidate).is_ok() {
                now = candidate;
            }
        }
        i = i + 1;
    }
    proof {
        model::take_all(v);
    }
    now
}

fn validate_mine_form(recipient: &String, anchor: &String, proof_header: &Option<String>, signature: &String) -> (r: Result<
    (),
    Error,
>)
    ensures
        error::outcome(r) == mine_form_check(
            recipient@,
            anchor@,
            proof_header.deep_view(),
            signature@,
        ),
{
    validate::validate_address(recipient.as_str(), "mine recipient")?;
    validate::validate_hash(anchor.as_str(), "mine transaction anchor")?;
    validate::validate_hash(signature.as_str(), "mine transaction proof hash")?;
    match proof_header {
        Some(header) => validate::validate_stratum_header(header.as_str()),
        None => Ok(()),
    }
}

/// The form of a reveal.
pub fn validate_blinded_reveal_terms(reveal: &BlindedReveal) -> (r: Result<(), Error>)
    ensures
        error::outcome(r) == reveal_form_check(reveal.deep_view()),
{
    validate::validate_hash(reveal.commitment.as_str(), "blinded reveal commitment")?;
    validate::validate_bytes(reveal.key.as_str(), 32, "invalid blinded reveal key")
}

impl Ledger {
    /// Whether a transaction may enter this chain, apart from what it spends.
    pub fn validate_transaction_terms(&self, transaction: &Transaction) -> (r: Result<(), Error>)
        requires
            self.wf(),
        ensures
            error::outcome(r) == self.deep_view().terms_check(transaction.deep_view()),
    {
        match transaction {
            Transaction::Transfer { inputs, outputs, signature, .. } => {
                validate_transaction_inputs(inputs)?;
                genesis::validate_transaction_outputs(outputs)?;
                validate::validate_signature(signature.as_str(), "transaction signature")
            },
            Transaction::Burn { inputs, change, signature, .. } => {
                validate_transaction_inputs(inputs)?;
                genesis::validate_transaction_outputs(change)?;
                validate::validate_signature(signature.as_str(), "transaction signature")
            },
            Transaction::Mine { recipient, anchor, difficulty_bits, proof_header, signature, .. } => {
                validate_mine_form(recipient, anchor, proof_header, signature)?;
                let anchor_height: u64 = match self.anchor_height(anchor.as_str()) {
                    Some(h) => h,
                    None => return Err(Error::new("mine transaction anchor is not on this chain")),
                };
                let age: u64 = self.height().saturating_sub(anchor_height);
                if age > MINE_MAX_ANCHOR_AGE_BLOCKS {
                    return Err(Error::new("mine transaction anchor is too old"));
                }
                if *difficulty_bits != self.mine_difficulty_bits_for_anchor_height(anchor_height) {
                    return Err(Error::new("mine transaction difficulty is invalid"));
                }
                Ok(())
            },
        }
    }

    #[verifier::rlimit(30)]
    fn run_pass(&self, remaining: &Vec<Transaction>, utxos: &mut Utxos) -> (r: (Vec<Transaction>, Vec<Transaction>))
        requires
            self.wf(),
            old(utxos).wf(),
            utxo::all_signed(remaining.deep_view()),
        ensures
            final(utxos).wf(),
            utxo::all_signed(r.0.deep_view()),
            utxo::all_signed(r.1.deep_view()),
            (r.0.deep_view(), r.1.deep_view(), final(utxos).deep_view()) == self.deep_view().pass(
                remaining.deep_view(),
                old(utxos).deep_view(),
            ),
    {
        broadcast use model::group_views;

        let ghost v = remaining.deep_view();
        let ghost u = utxos.deep_view();
        let ghost l = self.deep_view();
        let mut valid: Vec<Transaction> = Vec::new();
        let mut left: Vec<Transaction> = Vec::new();
        let mut i: usize = 0;
        proof {
            model::take_all(v);
            assert(utxo::all_signed(valid.deep_view()) && utxo::all_signed(left.deep_view())) by {
                reveal(utxo::all_signed);
            }
        }
        while i < remaining.len()
            invariant
                i <= remaining.len(),
                self.wf(),
                l == self.deep_view(),
                v == remaining.deep_view(),
                utxos.wf(),
                utxo::all_signed(v),
                utxo::all_signed(valid.deep_view()),
                utxo::all_signed(left.deep_view()),
                (valid.deep_view(), left.deep_view(), utxos.deep_view()) == l.pass(v.take(i as int), u),
            decreases remaining.len() - i,
        {
            proof {
                assert(v.take(i + 1).drop_last() =~= v.take(i as int));
                assert(v.take(i + 1).last() == v[i as int]);
            }
            let t = &remaining[i];
            proof {
                assert(v[i as int].signature_check() is Ok) by {
                    reveal(utxo::all_signed);
                }
                utxo::signed_push(valid.deep_view(), v[i as int]);
                utxo::signed_push(left.deep_view(), v[i as int]);
            }
            let ghost before = (valid.deep_view(), left.deep_view());
            let accepted = self.validate_transaction_terms(t).is_ok() && utxo::apply_signed_transaction(
                t,
                utxos,
            ).is_ok();
            if accepted {
                valid.push(t.duplicate());
                assert(valid.deep_view() =~= before.0.push(v[i as int]));
            } else {
                left.push(t.duplicate());
                assert(left.deep_view() =~= before.1.push(v[i as int]));
            }
            i = i + 1;
        }
        proof {
            model::take_all(v);
        }
        (valid, left)
    }

    /// The pending transactions that apply, in the order in which they do.
    pub fn valid_pending_transactions(&self) -> (r: Vec<Transaction>)
        requires
            self.wf(),
        ensures
            r.deep_view() == self.deep_view().valid_pending(),
            utxo::all_signed(r.deep_view()),
    {
        broadcast use model::group_views;

        let ghost l = self.deep_view();
        let mut utxos = self.utxos.duplicate();
        let mut remaining = self.pending.duplicate();
        let mut out: Vec<Transaction> = Vec::new();
        let mut progressed = true;
        proof {
            self.utxos.wf_is_increasing();
            utxos.wf_is_increasing();
            assert(utxo::all_signed(out.deep_view())) by {
                reveal(utxo::all_signed);
            }
            assert(out.deep_view() + l.applicable(remaining.deep_view(), utxos.deep_view())
                =~= l.applicable(remaining.deep_view(), utxos.deep_view()));
        }
        while progressed
            invariant
                self.wf(),
                l == self.deep_view(),
                utxos.wf(),
                utxo::all_signed(remaining.deep_view()),
                utxo::all_signed(out.deep_view()),
                progressed ==> l.valid_pending() == out.deep_view() + l.applicable(
                    remaining.deep_view(),
                    utxos.deep_view(),
                ),
                !progressed ==> l.valid_pending() == out.deep_view(),
            decreases remaining.len() + (if progressed { 1int } else { 0 }),
        {
            let ghost before = remaining.deep_view();
            let ghost start = utxos.deep_view();
            let ghost found = out.deep_view();
            let (mut valid, left) = self.run_pass(&remaining, &mut utxos);
            proof {
                pass_partitions(l, before, start);
            }
            progressed = remaining.len() > 0 && valid.len() > 0;
            out.append(&mut valid);
            remaining = left;
            proof {
                let v = l.pass(before, start).0;
                assert(out.deep_view() =~= found + v);
                assert(utxo::all_signed(out.deep_view())) by {
                    reveal(utxo::all_signed);
                }
                assert(found + (v + l.applicable(remaining.deep_view(), utxos.deep_view())) =~= out.deep_view()
                    + l.applicable(remaining.deep_view(), utxos.deep_view()));
                assert(found + v =~= out.deep_view());
            }
        }
        out
    }

    /// The outputs once the pending transactions applied.
    pub fn utxos_after_valid_pending(&self) -> (r: Result<Utxos, Error>)
        requires
            self.wf(),
        ensures
            error::outcome(r) == self.deep_view().after_pending(),
            r matches Ok(u) ==> u.wf(),
    {
        let valid = self.valid_pending_transactions();
        apply_transactions(&valid, &self.utxos)
    }

    /// The outputs that can be spent: those after the pending transfers and burns.
    pub fn utxos_after_spendable_pending(&self) -> (r: Utxos)
        requires
            self.wf(),
        ensures
            r.wf(),
            r.deep_view() == self.deep_view().spendable(),
    {
        let valid = self.valid_pending_transactions();
        let mut utxos = apply_spending_transactions(&valid, &self.utxos);
        locks::drop_reserved(&mut utxos, &self.pending_blinded);
        utxos
    }

    /// The outputs of an address that can be spent.
    pub fn available_utxos_for_address(&self, address: &str) -> (r: Result<Vec<(OutPoint, TxOutput)>, Error>)
        requires
            self.wf(),
        ensures
            r is Ok,
            r->Ok_0.deep_view() == ledger::outputs_at(self.deep_view().spendable(), address@),
    {
        let utxos = self.utxos_after_spendable_pending();
        Ok(ledger::entries_at(&utxos, address))
    }

    fn find_promotable(&self, utxos: &mut Utxos) -> (r: Option<usize>)
        requires
            self.wf(),
            old(utxos).wf(),
        ensures
            match r {
                Some(i) => self.deep_view().promotable(old(utxos).deep_view(), self.orphans.len() as nat).0 == Some(
                    i as int,
                ) && i < self.orphans.len(),
                None => self.deep_view().promotable(old(utxos).deep_view(), self.orphans.len() as nat).0 is None,
            },
    {
        let ghost u = utxos.deep_view();
        let ghost l = self.deep_view();
        let mut i: usize = 0;
        while i < self.orphans.len()
            invariant
                i <= self.orphans.len(),
                self.wf(),
                l == self.deep_view(),
                u == old(utxos).deep_view(),
                utxos.wf(),
                l.promotable(u, i as nat) == (None::<int>, utxos.deep_view()),
            decreases self.orphans.len() - i,
        {
            let t = &self.orphans[i];
            assert(t.deep_view() == l.orphans[i as int]);
            assert(l.orphans[i as int].signature_check() is Ok) by {
                reveal(utxo::all_signed);
            }
            if !utxo::transaction_inputs_spent_by(t, &self.pending) && !utxo::transaction_has_missing_inputs(t, utxos)
                && self.validate_transaction_terms(t).is_ok() && utxo::apply_signed_transaction(t, utxos).is_ok() {
                proof {
                    promotable_stays(l, u, (i + 1) as nat, self.orphans.len() as nat);
                }
                return Some(i);
            }
            i = i + 1;
        }
        None
    }

    /// Makes every orphan pending whose inputs have come.
    pub(crate) fn promote_orphan_transactions(&mut self) -> (r: Result<(), Error>)
        requires
            old(self).wf(),
        ensures
            final(self).wf(),
            (final(self).deep_view(), error::outcome(r)) == old(self).deep_view().promoted(),
    {
        let ghost start = self.deep_view();
        proof {
            promotion_only_moves(start);
        }
        loop
            invariant
                self.wf(),
                start == old(self).deep_view(),
                start.promoted() == self.deep_view().promoted(),
            decreases self.orphans.len(),
        {
            if self.pending.len() >= MAX_PENDING_TRANSACTIONS {
                return Ok(());
            }
            let mut utxos = self.utxos_after_valid_pending()?;
            match self.find_promotable(&mut utxos) {
                None => return Ok(()),
                Some(index) => {
                    let ghost before = self.deep_view();
                    let t = self.orphans.remove(index);
                    self.pending.push(t);
                    proof {
                        utxo::signed_remove(before.orphans, index as int);
                        utxo::signed_push(before.pending, before.orphans[index as int]);
                        assert(self.deep_view().pending =~= before.with_promoted(index as int).pending);
                        assert(self.deep_view().orphans =~= before.with_promoted(index as int).orphans);
                        assert(self.deep_view() == before.with_promoted(index as int));
                    }
                },
            }
        }
    }

    /// Submits a transaction, and says whether it was new.
    pub fn submit_transaction(&mut self, transaction: Transaction) -> (r: Result<bool, Error>)
        requires
            old(self).wf(),
        ensures
            final(self).wf(),
            final(self).deep_view() == old(self).deep_view().submitted(transaction.deep_view()).0,
            error::outcome(r) == match old(self).deep_view().submitted(transaction.deep_view()).1 {
                Ok(outcome) => Ok(outcome == TransactionSubmitOutcome::Added),
                Err(e) => Err(e),
            },
    {
        let outcome = self.submit_transaction_with_outcome(transaction)?;
        Ok(outcome.added())
    }

    /// Submits a transaction.
    pub fn submit_transaction_with_outcome(&mut self, transaction: Transaction) -> (r: Result<
        TransactionSubmitOutcome,
        Error,
    >)
        requires
            old(self).wf(),
        ensures
            final(self).wf(),
            (final(self).deep_view(), error::outcome(r)) == old(self).deep_view().submitted(
                transaction.deep_view(),
            ),
    {
        let ghost start = self.deep_view();
        let ghost t = transaction.deep_view();
        proof {
            reveal(LedgerView::submitted);
        }
        if self.has_transaction(transaction.signature()) {
            return Ok(TransactionSubmitOutcome::AlreadyKnown);
        }
        transaction.verify_signature()?;
        self.validate_transaction_terms(&transaction)?;
        if utxo::transaction_inputs_spent_by(&transaction, &self.pending) {
            return Ok(TransactionSubmitOutcome::ConflictsWithPending);
        }
        if utxo::transaction_inputs_spent_by(&transaction, &self.orphans) {
            return Ok(TransactionSubmitOutcome::ConflictsWithPending);
        }
        if self.pending.len() >= MAX_PENDING_TRANSACTIONS {
            return Err(Error::new("mempool is full"));
        }
        let mut utxos = self.utxos_after_valid_pending()?;
        if utxo::transaction_has_missing_inputs(&transaction, &utxos) {
            if self.orphans.len() >= MAX_ORPHAN_TRANSACTIONS {
                return Err(Error::new("orphan transaction pool is full"));
            }
            self.orphans.push(transaction);
            proof {
                utxo::signed_push(start.orphans, t);
                assert(self.deep_view().orphans =~= start.orphans.push(t));
                assert(self.deep_view() == (LedgerView { orphans: start.orphans.push(t), ..start }));
            }
            return Ok(TransactionSubmitOutcome::Added);
        }
        proof {
            utxos.wf_is_increasing();
            self.utxos.wf_is_increasing();
            applying_all_keeps_balances_fitting(start.valid_pending(), start.utxos);
            utxo::applying_keeps_balances_fitting(t, utxos.deep_view());
        }
        utxo::apply_signed_transaction(&transaction, &mut utxos)?;
        locks::ensure_room(&utxos, &self.locked)?;
        self.pending.push(transaction);
        proof {
            utxo::signed_push(start.pending, t);
            assert(self.deep_view().pending =~= start.pending.push(t));
            assert(self.deep_view() == (LedgerView { pending: start.pending.push(t), ..start }));
        }
        self.promote_orphan_transactions()?;
        Ok(TransactionSubmitOutcome::Added)
    }

    /// Whether an envelope may wait at this height.
    pub fn validate_blinded_transaction(&self, transaction: &BlindedTransaction) -> (r: Result<(), Error>)
        requires
            self.wf(),
        ensures
            error::outcome(r) == self.deep_view().blinded_check(transaction.deep_view()),
    {
        self.validate_sealed_form(transaction)?;
        self.validate_blinded_claim(transaction)
    }

    pub(crate) fn validate_sealed_form(&self, transaction: &BlindedTransaction) -> (r: Result<(), Error>)
        requires
            self.wf(),
        ensures
            error::outcome(r) == self.deep_view().sealed_check(transaction.deep_view()),
    {
        validate::validate_hash(transaction.commitment.as_str(), "blinded transaction commitment")?;
        validate::validate_hash(transaction.payload_hash.as_str(), "blinded transaction payload hash")?;
        validate::validate_bytes(transaction.nonce.as_str(), 12, "invalid blinded transaction nonce")?;
        let ciphertext = match hex::decode_hex(transaction.ciphertext.as_str()) {
            Ok(c) => c,
            Err(e) => return Err(e.context("invalid blinded transaction ciphertext")),
        };
        if ciphertext.len() == 0 {
            return Err(Error::new("blinded transaction ciphertext is empty"));
        }
        if ciphertext.len() as u64 != transaction.encrypted_size as u64 {
            return Err(Error::new("blinded transaction encrypted size is invalid"));
        }
        let height = self.height();
        if transaction.expires_at_height <= height {
            return Err(Error::new("blinded transaction is expired"));
        }
        if transaction.expires_at_height as u128 > height as u128
            + MAX_BLINDED_TRANSACTION_EXPIRY_HEIGHTS as u128 {
            return Err(Error::new("blinded transaction expiry is too far in the future"));
        }
        let expected = blinded::blinded_transaction_commitment(transaction);
        if !transaction.commitment.same(&expected) {
            return Err(Error::new("blinded transaction commitment is invalid"));
        }
        Ok(())
    }

    /// Whether the owner of what an envelope names signed it, and could own that.
    fn validate_blinded_claim(&self, transaction: &BlindedTransaction) -> (r: Result<(), Error>)
        requires
            self.wf(),
        ensures
            error::outcome(r) == self.deep_view().claim_check(transaction.deep_view()),
    {
        validate_transaction_inputs(&transaction.inputs)?;
        transaction.verify_owner()?;
        self.validate_coming(transaction)
    }

    /// Whether an envelope that is known to be signed may wait at this height.
    pub(crate) fn revalidate_blinded_transaction(&self, transaction: &BlindedTransaction) -> (r: Result<(), Error>)
        requires
            self.wf(),
            transaction.deep_view().owner_check() is Ok,
        ensures
            error::outcome(r) == self.deep_view().blinded_check(transaction.deep_view()),
    {
        self.validate_sealed_form(transaction)?;
        validate_transaction_inputs(&transaction.inputs)?;
        self.validate_coming(transaction)
    }

    /// Whether each output that an envelope names is unspent and its owner's, or still to come.
    fn validate_coming(&self, transaction: &BlindedTransaction) -> (r: Result<(), Error>)
        requires
            self.wf(),
        ensures
            error::outcome(r) == error::first_refusal(
                transaction.deep_view().inputs,
                coming_check(self.deep_view().utxos, self.deep_view().chain),
            ),
    {
        let ghost v = transaction.inputs.deep_view();
        let ghost check = coming_check(self.deep_view().utxos, self.deep_view().chain);
        let mut i: usize = 0;
        proof {
            model::take_all(v);
        }
        while i < transaction.inputs.len()
            invariant
                i <= transaction.inputs.len(),
                self.wf(),
                v == transaction.inputs.deep_view(),
                check == coming_check(self.deep_view().utxos, self.deep_view().chain),
                error::first_refusal(v.take(i as int), check) is Ok,
            decreases transaction.inputs.len() - i,
        {
            proof {
                error::refusal_step(v, check, i as int);
            }
            let input = &transaction.inputs[i];
            match self.utxos.get(&input.outpoint) {
                Some(output) => {
                    if !output.address.same(&input.owner) {
                        return Err(Error::new("blinded transaction input owner does not match spent output"));
                    }
                },
                None => {
                    if self.spent_on_chain(&input.outpoint) {
                        let mut message = text::text("blinded transaction spends missing output ");
                        message.append(input.outpoint.id().as_str());
                        return Err(Error::of(message));
                    }
                },
            }
            i = i + 1;
        }
        proof {
            model::take_all(v);
        }
        Ok(())
    }

    /// Whether an envelope names unspent outputs of an owner who signed it.
    pub(crate) fn validate_blinded_funding(&self, transaction: &BlindedTransaction) -> (r: Result<(), Error>)
        requires
            self.wf(),
        ensures
            error::outcome(r) == self.deep_view().funding_check(transaction.deep_view()),
    {
        validate_transaction_inputs(&transaction.inputs)?;
        transaction.verify_owner()?;
        self.validate_unspent(transaction)
    }

    /// Whether an envelope names unspent outputs of their owners.
    fn validate_unspent(&self, transaction: &BlindedTransaction) -> (r: Result<(), Error>)
        requires
            self.wf(),
        ensures
            error::outcome(r) == self.deep_view().unspent_check(transaction.deep_view().inputs),
    {
        let mut free = self.utxos.duplicate();
        let mut locked = self.locked.duplicate();
        proof {
            self.utxos.wf_is_increasing();
            self.locked.wf_is_increasing();
            free.wf_is_increasing();
            locked.wf_is_increasing();
        }
        locks::lock_inputs(&transaction.inputs, &mut free, &mut locked)
    }

    /// Submits an envelope, and says whether it was new.
    pub fn submit_blinded_transaction(&mut self, transaction: BlindedTransaction) -> (r: Result<bool, Error>)
        requires
            old(self).wf(),
        ensures
            final(self).wf(),
            (final(self).deep_view(), error::outcome(r)) == old(self).deep_view().blinded_submitted(
                transaction.deep_view(),
            ),
    {
        if self.has_blinded_transaction(transaction.commitment.as_str()) {
            return Ok(false);
        }
        self.validate_blinded_transaction(&transaction)?;
        if self.pending_blinded.len() >= MAX_PENDING_TRANSACTIONS {
            return Err(Error::new("blinded mempool is full"));
        }
        let ghost start = self.deep_view();
        let ghost t = transaction.deep_view();
        self.pending_blinded.push(transaction);
        proof {
            reveal(ledger::owners_signed);
            assert(self.deep_view().pending_blinded =~= start.pending_blinded.push(t));
            assert(self.deep_view() == (LedgerView { pending_blinded: start.pending_blinded.push(t), ..start }));
        }
        Ok(true)
    }

    /// Submits a reveal, and says whether it was new.
    pub fn submit_blinded_reveal(&mut self, reveal: BlindedReveal) -> (r: Result<bool, Error>)
        requires
            old(self).wf(),
        ensures
            final(self).wf(),
            (final(self).deep_view(), error::outcome(r)) == old(self).deep_view().reveal_submitted(
                reveal.deep_view(),
            ),
    {
        if self.has_blinded_reveal(reveal.commitment.as_str()) {
            return Ok(false);
        }
        validate_blinded_reveal_terms(&reveal)?;
        if self.pending_reveals.len() >= MAX_PENDING_TRANSACTIONS {
            return Err(Error::new("blinded reveal pool is full"));
        }
        let ghost start = self.deep_view();
        let ghost t = reveal.deep_view();
        self.pending_reveals.push(reveal);
        proof {
            reveal(ledger::reveals_differ);
            bundling::submitting_keeps_reveals_distinct(start, t);
            assert(self.deep_view().pending_reveals =~= start.pending_reveals.push(t));
            assert(self.deep_view() == (LedgerView { pending_reveals: start.pending_reveals.push(t), ..start }));
        }
        Ok(true)
    }

    /// The transaction that a reveal opens, of an envelope that a block included.
    pub fn decrypt_active_blinded(&self, active: &ActiveBlindedTransaction, reveal: &BlindedReveal) -> (r: Result<
        Transaction,
        Error,
    >)
        requires
            self.wf(),
        ensures
            error::outcome(r) == self.deep_view().opened_active(active.deep_view(), reveal.deep_view()),
    {
        if self.height() >= active.transaction.expires_at_height {
            return Err(Error::new("blinded transaction reveal is expired"));
        }
        let transaction = sealing::decrypt_blinded_transaction(&active.transaction, reveal)?;
        if transaction.fee() != active.transaction.fee {
            return Err(Error::new("blinded transaction reveal fee does not match envelope"));
        }
        self.validate_transaction_terms(&transaction)?;
        Ok(transaction)
    }

    /// The transaction that a pending reveal opens.
    pub fn pending_reveal_transaction(&self, reveal: &BlindedReveal) -> (r: Result<Transaction, Error>)
        requires
            self.wf(),
        ensures
            error::outcome(r) == self.deep_view().opened_by(reveal.deep_view()),
    {
        validate_blinded_reveal_terms(reveal)?;
        match self.active_blinded.get(&reveal.commitment) {
            None => Err(Error::new("blinded reveal does not reference an active blinded transaction")),
            Some(active) => self.decrypt_active_blinded(active, reveal),
        }
    }

    /// The envelopes that the next block may include.
    pub fn valid_pending_blinded_transactions(&self) -> (r: Vec<BlindedTransaction>)
        requires
            self.wf(),
        ensures
            r.deep_view() == self.deep_view().pending_blinded.filter(
                |t: BlindedTransactionView| self.deep_view().includable(t),
            ),
    {
        broadcast use model::group_views;

        let ghost v = self.pending_blinded.deep_view();
        let ghost l = self.deep_view();
        let ghost p = |t: BlindedTransactionView| self.deep_view().includable(t);
        let next: u64 = self.height() + 1;
        let mut out: Vec<BlindedTransaction> = Vec::new();
        let mut i: usize = 0;
        proof {
            model::take_all(v);
            model::filter_empty(p);
        }
        while i < self.pending_blinded.len()
            invariant
                i <= self.pending_blinded.len(),
                self.wf(),
                v == self.pending_blinded.deep_view(),
                l == self.deep_view(),
                p == (|t: BlindedTransactionView| self.deep_view().includable(t)),
                next == l.height() + 1,
                out.deep_view() == v.take(i as int).filter(p),
            decreases self.pending_blinded.len() - i,
        {
            proof {
                model::take_step(v, i as int);
                model::filter_push(v.take(i as int), v[i as int], p);
            }
            assert(v[i as int].owner_check() is Ok) by {
                reveal(ledger::owners_signed);
            }
            if self.pending_blinded[i].expires_at_height > next && self.revalidate_blinded_transaction(
                &self.pending_blinded[i],
            ).is_ok() && self.validate_unspent(&self.pending_blinded[i]).is_ok() {
                out.push(self.pending_blinded[i].duplicate());
            }
            i = i + 1;
        }
        proof {
            model::take_all(v);
        }
        out
    }

    /// The pending reveals that open an included envelope, each with what it opens.
    pub fn pending_revealed_blinded_transactions(&self) -> (r: Vec<RevealedBlindedTransaction>)
        requires
            self.wf(),
        ensures
            r.deep_view() == self.deep_view().opening(self.deep_view().pending_reveals),
    {
        broadcast use model::group_views;

        let ghost v = self.pending_reveals.deep_view();
        let ghost l = self.deep_view();
        let next: u64 = self.height() + 1;
        let mut out: Vec<RevealedBlindedTransaction> = Vec::new();
        let mut i: usize = 0;
        assert(out.deep_view() =~= l.opening(v.take(0)));
        while i < self.pending_reveals.len()
            invariant
                i <= self.pending_reveals.len(),
                self.wf(),
                v == self.pending_reveals.deep_view(),
                l == self.deep_view(),
                next == l.next_height(),
                out.deep_view() == l.opening(v.take(i as int)),
            decreases self.pending_reveals.len() - i,
        {
            proof {
                assert(v.take(i + 1).drop_last() =~= v.take(i as int));
                assert(v.take(i + 1).last() == v[i as int]);
            }
            let reveal = &self.pending_reveals[i];
            if let Some(active) = self.active_blinded.get(&reveal.commitment) {
                if let Ok(transaction) = self.pending_reveal_transaction(reveal) {
                    let entry = RevealedBlindedTransaction {
                        height: next,
                        commitment: text::text(reveal.commitment.as_str()),
                        included_by: text::text(active.included_by.as_str()),
                        transaction,
                    };
                    out.push(entry);
                }
            }
            i = i + 1;
        }
        proof {
            model::take_all(v);
        }
        out
    }

    /// Drops the pending envelopes that name what a transaction spends.
    pub fn drop_pending_blinded_conflicting_with_transaction(&mut self, transaction: &Transaction)
        requires
            old(self).wf(),
        ensures
            final(self).wf(),
            final(self).deep_view() == old(self).deep_view().without_conflicting(transaction.deep_view()),
    {
        broadcast use model::group_views;

        let ghost v = self.pending_blinded.deep_view();
        let ghost t = transaction.deep_view();
        let ghost p = |e: BlindedTransactionView| !locks::overlap(e.inputs, t.inputs());
        let inputs = transaction.inputs();
        let mut kept: Vec<BlindedTransaction> = Vec::new();
        let mut i: usize = 0;
        proof {
            model::take_all(v);
            model::filter_empty(p);
        }
        while i < self.pending_blinded.len()
            invariant
                i <= self.pending_blinded.len(),
                v == self.pending_blinded.deep_view(),
                inputs.deep_view() == t.inputs(),
                p == (|e: BlindedTransactionView| !locks::overlap(e.inputs, t.inputs())),
                kept.deep_view() == v.take(i as int).filter(p),
            decreases self.pending_blinded.len() - i,
        {
            proof {
                model::take_step(v, i as int);
                model::filter_push(v.take(i as int), v[i as int], p);
            }
            if !locks::inputs_overlap(&self.pending_blinded[i].inputs, &inputs) {
                kept.push(self.pending_blinded[i].duplicate());
            }
            i = i + 1;
        }
        proof {
            model::take_all(v);
            ledger::filtered_are_signed(v, p);
        }
        self.pending_blinded = kept;
    }

    /// The pending reveals that open an included envelope.
    pub fn valid_pending_blinded_reveals(&self) -> (r: Vec<BlindedReveal>)
        requires
            self.wf(),
        ensures
            r.deep_view() == self.deep_view().pending_reveals.filter(
                |t: BlindedRevealView| self.deep_view().opened_by(t) is Ok,
            ),
    {
        broadcast use model::group_views;

        let ghost v = self.pending_reveals.deep_view();
        let ghost p = |t: BlindedRevealView| self.deep_view().opened_by(t) is Ok;
        let mut out: Vec<BlindedReveal> = Vec::new();
        let mut i: usize = 0;
        proof {
            model::take_all(v);
            model::filter_empty(p);
        }
        while i < self.pending_reveals.len()
            invariant
                i <= self.pending_reveals.len(),
                self.wf(),
                v == self.pending_reveals.deep_view(),
                p == (|t: BlindedRevealView| self.deep_view().opened_by(t) is Ok),
                out.deep_view() == v.take(i as int).filter(p),
            decreases self.pending_reveals.len() - i,
        {
            proof {
                model::take_step(v, i as int);
                model::filter_push(v.take(i as int), v[i as int], p);
            }
            if self.pending_reveal_transaction(&self.pending_reveals[i]).is_ok() {
                out.push(self.pending_reveals[i].duplicate());
            }
            i = i + 1;
        }
        proof {
            model::take_all(v);
        }
        out
    }
}

/// A signature is found exactly where a transaction carries it.
pub proof fn signature_is_there(transactions: Seq<TransactionView>, signature: Seq<char>)
    ensures
        ledger::with_signature(transactions, signature) is Some <==> exists|i: int|
            0 <= i < transactions.len() && (#[trigger] transactions[i]).signature() == signature,
    decreases transactions.len(),
{
    if transactions.len() > 0 {
        let earlier = transactions.drop_last();
        signature_is_there(earlier, signature);
        if ledger::with_signature(earlier, signature) is Some {
            let i = choose|i: int| 0 <= i < earlier.len() && (#[trigger] earlier[i]).signature() == signature;
            assert(transactions[i].signature() == signature);
        } else if transactions.last().signature() == signature {
            assert(transactions[transactions.len() - 1].signature() == signature);
        } else if exists|i: int|
            0 <= i < transactions.len() && (#[trigger] transactions[i]).signature() == signature {
            let i = choose|i: int|
                0 <= i < transactions.len() && (#[trigger] transactions[i]).signature() == signature;
            assert(earlier[i].signature() == signature);
        }
    }
}

/// Moving an orphan forgets no transaction.
proof fn moving_forgets_nothing(l: LedgerView, index: int, signature: Seq<char>)
    requires
        l.knows_transaction(signature),
        0 <= index < l.orphans.len(),
    ensures
        l.with_promoted(index).knows_transaction(signature),
{
    let next = l.with_promoted(index);
    signature_is_there(l.pending, signature);
    signature_is_there(l.orphans, signature);
    signature_is_there(next.pending, signature);
    signature_is_there(next.orphans, signature);
    if ledger::with_signature(l.pending, signature) is Some {
        let i = choose|i: int| 0 <= i < l.pending.len() && (#[trigger] l.pending[i]).signature() == signature;
        assert(next.pending[i].signature() == signature);
    } else if ledger::with_signature(l.orphans, signature) is Some {
        let i = choose|i: int| 0 <= i < l.orphans.len() && (#[trigger] l.orphans[i]).signature() == signature;
        if i == index {
            assert(next.pending[l.pending.len() as int].signature() == signature);
        } else if i < index {
            assert(next.orphans[i].signature() == signature);
        } else {
            assert(next.orphans[i - 1].signature() == signature);
        }
    }
}

/// Promoting orphans forgets no transaction.
pub proof fn promotion_forgets_nothing(l: LedgerView, signature: Seq<char>)
    requires
        l.knows_transaction(signature),
    ensures
        l.promoted().0.knows_transaction(signature),
    decreases l.orphans.len(),
{
    if l.pending.len() < MAX_PENDING_TRANSACTIONS {
        if let Ok(u) = l.after_pending() {
            if let Some(index) = l.promotable(u, l.orphans.len()).0 {
                if 0 <= index < l.orphans.len() {
                    moving_forgets_nothing(l, index, signature);
                    promotion_forgets_nothing(l.with_promoted(index), signature);
                }
            }
        }
    }
}

/// A transaction that was added is known: submitting it again changes nothing.
pub proof fn added_transaction_is_known(l: LedgerView, t: TransactionView)
    requires
        l.submitted(t).1 == Ok::<TransactionSubmitOutcome, Seq<char>>(TransactionSubmitOutcome::Added),
    ensures
        l.submitted(t).0.knows_transaction(t.signature()),
        l.submitted(t).0.submitted(t) == (
            l.submitted(t).0,
            Ok::<TransactionSubmitOutcome, Seq<char>>(TransactionSubmitOutcome::AlreadyKnown),
        ),
{
    reveal(LedgerView::submitted);
    let pending = LedgerView { pending: l.pending.push(t), ..l };
    let orphaned = LedgerView { orphans: l.orphans.push(t), ..l };
    signature_is_there(pending.pending, t.signature());
    signature_is_there(orphaned.orphans, t.signature());
    assert(pending.pending[l.pending.len() as int] == t);
    assert(orphaned.orphans[l.orphans.len() as int] == t);
    assert(pending.knows_transaction(t.signature()));
    assert(orphaned.knows_transaction(t.signature()));
    promotion_forgets_nothing(pending, t.signature());
}

/// Submitting a transaction forgets none.
pub proof fn submitting_forgets_nothing(l: LedgerView, t: TransactionView, signature: Seq<char>)
    requires
        l.knows_transaction(signature),
    ensures
        l.submitted(t).0.knows_transaction(signature),
{
    reveal(LedgerView::submitted);
    let pending = LedgerView { pending: l.pending.push(t), ..l };
    let orphaned = LedgerView { orphans: l.orphans.push(t), ..l };
    signature_is_there(l.pending, signature);
    signature_is_there(l.orphans, signature);
    signature_is_there(pending.pending, signature);
    signature_is_there(orphaned.orphans, signature);
    if ledger::with_signature(l.pending, signature) is Some {
        let i = choose|i: int| 0 <= i < l.pending.len() && (#[trigger] l.pending[i]).signature() == signature;
        assert(pending.pending[i].signature() == signature);
    } else if ledger::with_signature(l.orphans, signature) is Some {
        let i = choose|i: int| 0 <= i < l.orphans.len() && (#[trigger] l.orphans[i]).signature() == signature;
        assert(orphaned.orphans[i].signature() == signature);
    }
    promotion_forgets_nothing(pending, signature);
}

/// The ledger with other envelopes waiting.
pub open spec fn with_waiting(l: LedgerView, envelopes: Seq<BlindedTransactionView>) -> LedgerView {
    LedgerView { pending_blinded: envelopes, ..l }
}

proof fn same_pass(
    l: LedgerView,
    envelopes: Seq<BlindedTransactionView>,
    remaining: Seq<TransactionView>,
    u: UtxosView,
)
    ensures
        with_waiting(l, envelopes).pass(remaining, u) == l.pass(remaining, u),
    decreases remaining.len(),
{
    if remaining.len() > 0 {
        same_pass(l, envelopes, remaining.drop_last(), u);
        assert(with_waiting(l, envelopes).terms_check(remaining.last()) == l.terms_check(remaining.last()));
    }
}

proof fn same_applicable(
    l: LedgerView,
    envelopes: Seq<BlindedTransactionView>,
    remaining: Seq<TransactionView>,
    u: UtxosView,
)
    ensures
        with_waiting(l, envelopes).applicable(remaining, u) == l.applicable(remaining, u),
    decreases remaining.len(),
{
    same_pass(l, envelopes, remaining, u);
    let (valid, left, v) = l.pass(remaining, u);
    if remaining.len() > 0 && valid.len() > 0 && left.len() < remaining.len() {
        same_applicable(l, envelopes, left, v);
    }
}

proof fn same_promotable(l: LedgerView, envelopes: Seq<BlindedTransactionView>, u: UtxosView, n: nat)
    ensures
        with_waiting(l, envelopes).promotable(u, n) == l.promotable(u, n),
    decreases n,
{
    if n > 0 {
        same_promotable(l, envelopes, u, (n - 1) as nat);
        assert(with_waiting(l, envelopes).terms_check(l.orphans[n - 1]) == l.terms_check(l.orphans[n - 1]));
    }
}

proof fn same_promoted(l: LedgerView, envelopes: Seq<BlindedTransactionView>)
    ensures
        with_waiting(l, envelopes).promoted() == (with_waiting(l.promoted().0, envelopes), l.promoted().1),
    decreases l.orphans.len(),
{
    let m = with_waiting(l, envelopes);
    same_applicable(l, envelopes, l.pending, l.utxos);
    if l.pending.len() < MAX_PENDING_TRANSACTIONS {
        if let Ok(u) = l.after_pending() {
            same_promotable(l, envelopes, u, l.orphans.len());
            if let Some(index) = l.promotable(u, l.orphans.len()).0 {
                if 0 <= index < l.orphans.len() {
                    same_promoted(l.with_promoted(index), envelopes);
                    assert(m.with_promoted(index) == with_waiting(l.with_promoted(index), envelopes));
                }
            }
        }
    }
}

/// Waiting envelopes stand in the way of no plain transaction: whatever envelopes wait, submitting one
/// gives the same outcome and leaves the envelopes as they are.
pub proof fn waiting_envelopes_do_not_matter(
    l: LedgerView,
    t: TransactionView,
    envelopes: Seq<BlindedTransactionView>,
)
    ensures
        with_waiting(l, envelopes).submitted(t) == (with_waiting(l.submitted(t).0, envelopes), l.submitted(t).1),
{
    reveal(LedgerView::submitted);
    let m = with_waiting(l, envelopes);
    assert(m.knows_transaction(t.signature()) == l.knows_transaction(t.signature()));
    assert(m.terms_check(t) == l.terms_check(t));
    same_applicable(l, envelopes, l.pending, l.utxos);
    assert(m.after_pending() == l.after_pending());
    let next = LedgerView { pending: l.pending.push(t), ..l };
    same_promoted(next, envelopes);
    assert((LedgerView { pending: m.pending.push(t), ..m }) == with_waiting(next, envelopes));
}

/// A transaction that is known, spends what another pending one spends, or has a bad signature or
/// bad terms changes nothing.
pub proof fn refused_transaction_changes_nothing(l: LedgerView, t: TransactionView)
    requires
        l.knows_transaction(t.signature()) || t.signature_check() is Err || l.terms_check(t) is Err || utxo::spent_by(
            t,
            l.pending,
        ) || utxo::spent_by(t, l.orphans),
    ensures
        l.submitted(t).0 == l,
        l.submitted(t).1 != Ok::<TransactionSubmitOutcome, Seq<char>>(TransactionSubmitOutcome::Added),
{
    reveal(LedgerView::submitted);
}

/// A block with an envelope that names an output which is not unspent, or not its owner's, is refused.
/// Where the chain spent the output, or it is another's, the envelope is refused alone too.
pub proof fn unfunded_envelope_is_refused(l: LedgerView, t: BlindedTransactionView, n: int)
    requires
        l.valid(),
        0 <= n < t.inputs.len(),
        match sorted::lookup(l.utxos, t.inputs[n].outpoint) {
            Some(output) => output.address != t.inputs[n].owner,
            None => true,
        },
    ensures
        !l.includable(t),
        forall|envelopes: Seq<BlindedTransactionView>, height: u64|
            envelopes.contains(t) ==> #[trigger] l.envelopes_check(envelopes, height) is Err,
        sorted::lookup(l.utxos, t.inputs[n].outpoint) is Some || ledger::spent_in_blocks(
            l.chain,
            t.inputs[n].outpoint,
        ) ==> l.blinded_check(t) is Err && (!l.knows_blinded(t.commitment) ==> l.blinded_submitted(t).0 == l
            && l.blinded_submitted(t).1 is Err),
{
    locks::locking_takes_what_is_named(t.inputs, l.holdings());
    assert(l.funding_check(t) is Err);
    assert forall|envelopes: Seq<BlindedTransactionView>, height: u64|
        envelopes.contains(t) implies #[trigger] l.envelopes_check(envelopes, height) is Err by {
        let i = envelopes.index_of(t);
        if l.envelopes_check(envelopes, height) is Ok {
            checked_envelopes_are_funded(l, envelopes, height, i);
        }
    }
    if sorted::lookup(l.utxos, t.inputs[n].outpoint) is Some || ledger::spent_in_blocks(
        l.chain,
        t.inputs[n].outpoint,
    ) {
        assert(coming_check(l.utxos, l.chain)(t.inputs[n]) is Err);
        if error::first_refusal(t.inputs, coming_check(l.utxos, l.chain)) is Ok {
            error::no_refusal(t.inputs, coming_check(l.utxos, l.chain));
        }
    }
}

/// The envelopes of a block that is accepted are funded.
pub proof fn checked_envelopes_are_funded(
    l: LedgerView,
    envelopes: Seq<BlindedTransactionView>,
    height: u64,
    n: int,
)
    requires
        0 <= n < envelopes.len(),
        l.envelopes_check(envelopes, height) is Ok,
    ensures
        l.sealed_check(envelopes[n]) is Ok,
        l.funding_check(envelopes[n]) is Ok,
    decreases envelopes.len(),
{
    if n < envelopes.len() - 1 {
        checked_envelopes_are_funded(l, envelopes.drop_last(), height, n);
    }
}

/// Nobody locks what is another's: an envelope is accepted, alone or in a block, only where each output
/// that it names is claimed by one who signed the envelope: its fee, size, expiry, nonce, sealed
/// content and inputs.
pub proof fn owner_agreed(
    l: LedgerView,
    t: BlindedTransactionView,
    envelopes: Seq<BlindedTransactionView>,
    height: u64,
    n: int,
)
    requires
        0 <= n < t.inputs.len(),
        l.blinded_check(t) is Ok || l.includable(t) || l.funding_check(t) is Ok || (envelopes.contains(t)
            && l.envelopes_check(envelopes, height) is Ok),
    ensures
        t.signed_by_owner_of(n),
        t.inputs[n].owner == t.inputs[0].owner,
{
    if envelopes.contains(t) && l.envelopes_check(envelopes, height) is Ok {
        checked_envelopes_are_funded(l, envelopes, height, envelopes.index_of(t));
    }
    assert(t.owner_check() is Ok);
}

/// An envelope whose owner did not sign it is refused: the ledger stays as it was, and so does one that
/// is given a block with it.
pub proof fn unsigned_envelope_is_refused(l: LedgerView, t: BlindedTransactionView, n: int)
    requires
        0 <= n < t.inputs.len(),
        !t.signed_by_owner_of(n),
        !l.knows_blinded(t.commitment),
    ensures
        l.blinded_submitted(t).0 == l,
        l.blinded_submitted(t).1 is Err,
        forall|envelopes: Seq<BlindedTransactionView>, height: u64|
            envelopes.contains(t) ==> #[trigger] l.envelopes_check(envelopes, height) is Err,
{
    if l.blinded_check(t) is Ok {
        owner_agreed(l, t, seq![t], 0, n);
    }
    assert forall|envelopes: Seq<BlindedTransactionView>, height: u64|
        envelopes.contains(t) implies #[trigger] l.envelopes_check(envelopes, height) is Err by {
        if l.envelopes_check(envelopes, height) is Ok {
            owner_agreed(l, t, envelopes, height, n);
        }
    }
}

/// An envelope or a reveal that was added is known: submitting it again changes nothing.
pub proof fn added_envelope_is_known(l: LedgerView, t: BlindedTransactionView, r: BlindedRevealView)
    ensures
        l.blinded_submitted(t).1 == Ok::<bool, Seq<char>>(true) ==> l.blinded_submitted(t).0.blinded_submitted(t) == (
            l.blinded_submitted(t).0,
            Ok::<bool, Seq<char>>(false),
        ),
        l.reveal_submitted(r).1 == Ok::<bool, Seq<char>>(true) ==> l.reveal_submitted(r).0.reveal_submitted(r) == (
            l.reveal_submitted(r).0,
            Ok::<bool, Seq<char>>(false),
        ),
{
    let a = l.blinded_submitted(t).0;
    if l.blinded_submitted(t).1 == Ok::<bool, Seq<char>>(true) {
        assert(a.pending_blinded[l.pending_blinded.len() as int].commitment == t.commitment);
        assert(ledger::commits(a.pending_blinded, t.commitment));
    }
    let b = l.reveal_submitted(r).0;
    if l.reveal_submitted(r).1 == Ok::<bool, Seq<char>>(true) {
        assert(b.pending_reveals[l.pending_reveals.len() as int].commitment == r.commitment);
        assert(block::reveals_commitment(b.pending_reveals, r.commitment));
    }
}

} // verus!
