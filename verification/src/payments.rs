//! Payments of a node's wallet, and the fees that they take.
use crate::blinded;
use crate::blinded::{
    BlindedTransaction, BlindedTransactionView, BuiltBlindedTransaction, BuiltBlindedTransactionView,
    MAX_BLINDED_TRANSACTION_EXPIRY_HEIGHTS,
};
use crate::document;
use crate::error;
use crate::error::Error;
use crate::ledger::{Ledger, LedgerView};
use crate::model;
use crate::model::Model;
use crate::node;
use crate::node::{NodeCore, NodeView, NodeWallet, WalletView};
use crate::stratum;
use crate::stratum::{StratumMineShare, StratumMineTemplate};
use crate::text;
use crate::transaction;
use crate::transaction::{
    Amount, OutPoint, OutPointView, Transaction, TransactionView, DEFAULT_TRANSACTION_FEE,
};
use crate::validate;
use vstd::prelude::*;

verus! {

/// How often a fee is tried before it is taken as it is.
pub const FEE_TRIES: u64 = 64;

/// The size of a transaction and the fee for it.
#[derive(Clone, Copy, Debug, Eq, PartialEq, Structural)]
pub struct FeeEstimate {
    pub bytes: usize,
    pub fee: Amount,
}

/// Work for a miner outside the node.
#[derive(Clone, Debug, Eq, PartialEq)]
pub struct ExternalMineJob {
    pub template: StratumMineTemplate,
}

/// A payment whose fee is still open.
#[derive(Clone, Debug)]
pub enum Payment {
    Burn { amount: Amount },
    Transfer { to: String, amount: Amount, outpoints: Vec<OutPoint> },
}

#[allow(inconsistent_fields)]
#[verifier::ext_equal]
pub enum PaymentView {
    Burn { amount: Amount },
    Transfer { to: Seq<char>, amount: Amount, outpoints: Seq<OutPointView> },
}

impl DeepView for Payment {
    type V = PaymentView;

    open spec fn deep_view(&self) -> PaymentView {
        match self {
            Payment::Burn { amount } => PaymentView::Burn { amount: *amount },
            Payment::Transfer { to, amount, outpoints } => PaymentView::Transfer {
                to: to@,
                amount: *amount,
                outpoints: outpoints.deep_view(),
            },
        }
    }
}

impl DeepView for FeeEstimate {
    type V = FeeEstimate;

    open spec fn deep_view(&self) -> FeeEstimate {
        *self
    }
}

/// The size that the fee rate of an envelope is measured by.
pub open spec fn envelope_size(t: BlindedTransactionView) -> nat {
    document::size_of(document::blinded_doc(t))
}

impl PaymentView {
    /// The payment with a fee.
    pub open spec fn built(self, l: LedgerView, seed: Seq<u8>, fee: Amount) -> Result<TransactionView, Seq<char>> {
        match self {
            PaymentView::Burn { amount } => l.built_burn(seed, amount, fee),
            PaymentView::Transfer { to, amount, outpoints } => if outpoints.len() == 0 {
                l.built_transfer(seed, to, amount, fee)
            } else {
                l.built_transfer_of(seed, to, amount, fee, outpoints)
            },
        }
    }

    /// What sealing the payment with a fee may give.
    #[verifier::opaque]
    pub open spec fn gives(
        self,
        l: LedgerView,
        w: WalletView,
        expires_at_height: u64,
        fee: Amount,
        outcome: Result<BuiltBlindedTransactionView, Seq<char>>,
    ) -> bool {
        match w {
            WalletView::Locked(_) => outcome == Err::<BuiltBlindedTransactionView, Seq<char>>("wallet is locked"@),
            WalletView::Unlocked(seed) => match self.built(l, seed, fee) {
                Err(e) => outcome == Err::<BuiltBlindedTransactionView, Seq<char>>(e),
                Ok(t) => l.blinding_gives(seed, t, t.fee(), expires_at_height, outcome),
            },
        }
    }
}

pub type Estimated = (BuiltBlindedTransactionView, FeeEstimate);

/// The fee that an envelope owes at a rate.
pub open spec fn owed_fee(b: BuiltBlindedTransactionView, rate: Amount) -> int {
    rate * envelope_size(b.transaction)
}

pub open spec fn fee_overflow<T>() -> Result<T, Seq<char>> {
    Err("fee per byte times blinded transaction bytes overflows"@)
}

pub open spec fn estimated(b: BuiltBlindedTransactionView, fee: Amount) -> Estimated {
    (b, FeeEstimate { bytes: envelope_size(b.transaction) as usize, fee })
}

/// The cheaper of what was found and what is at hand.
pub open spec fn cheaper(best: Option<Estimated>, b: BuiltBlindedTransactionView, fee: Amount) -> Option<Estimated> {
    match best {
        Some(known) => if fee < known.1.fee {
            Some(estimated(b, fee))
        } else {
            best
        },
        None => Some(estimated(b, fee)),
    }
}

/// What the last try may give, at the fee that the one before it owed.
pub open spec fn last_try_gives(
    p: PaymentView,
    l: LedgerView,
    w: WalletView,
    expires_at_height: u64,
    rate: Amount,
    fee: Amount,
    result: Result<Estimated, Seq<char>>,
) -> bool {
    exists|outcome: Result<BuiltBlindedTransactionView, Seq<char>>| #[trigger]
        p.gives(l, w, expires_at_height, fee, outcome) && result == match outcome {
            Err(e) => Err(e),
            Ok(b) => if owed_fee(b, rate) > u64::MAX {
                fee_overflow()
            } else if fee < owed_fee(b, rate) {
                Err("fee per byte did not converge"@)
            } else {
                Ok(estimated(b, fee))
            },
        }
}

/// What the search for the fee at a rate may give: each try takes the fee that the one before it
/// owed, until an envelope owes what it pays.
pub open spec fn converges(
    p: PaymentView,
    l: LedgerView,
    w: WalletView,
    expires_at_height: u64,
    rate: Amount,
    fee: Amount,
    best: Option<Estimated>,
    left: nat,
    result: Result<Estimated, Seq<char>>,
) -> bool
    decreases left, 1nat,
{
    exists|outcome: Result<BuiltBlindedTransactionView, Seq<char>>| #[trigger]
        p.gives(l, w, expires_at_height, fee, outcome) && converges_after(
            p,
            l,
            w,
            expires_at_height,
            rate,
            fee,
            best,
            left,
            outcome,
            result,
        )
}

/// What the search may give once a try gave an outcome.
pub open spec fn converges_after(
    p: PaymentView,
    l: LedgerView,
    w: WalletView,
    expires_at_height: u64,
    rate: Amount,
    fee: Amount,
    best: Option<Estimated>,
    left: nat,
    outcome: Result<BuiltBlindedTransactionView, Seq<char>>,
    result: Result<Estimated, Seq<char>>,
) -> bool
    decreases left, 0nat,
{
    match outcome {
        Err(e) => result == Err::<Estimated, Seq<char>>(e),
        Ok(b) => {
            let owed = owed_fee(b, rate);
            if owed > u64::MAX {
                result == fee_overflow::<Estimated>()
            } else if left == 0 {
                if fee >= owed {
                    result == Ok::<Estimated, Seq<char>>(cheaper(best, b, fee)->0)
                } else {
                    last_try_gives(p, l, w, expires_at_height, rate, owed as Amount, result)
                }
            } else if fee == owed {
                result == Ok::<Estimated, Seq<char>>(estimated(b, fee))
            } else {
                converges(
                    p,
                    l,
                    w,
                    expires_at_height,
                    rate,
                    owed as Amount,
                    if fee > owed {
                        cheaper(best, b, fee)
                    } else {
                        best
                    },
                    (left - 1) as nat,
                    result,
                )
            }
        },
    }
}

/// A try that did not end the search leads to what the next one gives.
proof fn search_goes_on(
    p: PaymentView,
    l: LedgerView,
    w: WalletView,
    expires_at_height: u64,
    rate: Amount,
    fee: Amount,
    best: Option<Estimated>,
    left: nat,
    b: BuiltBlindedTransactionView,
    result: Result<Estimated, Seq<char>>,
)
    requires
        p.gives(l, w, expires_at_height, fee, Ok(b)),
        owed_fee(b, rate) <= u64::MAX,
        fee != owed_fee(b, rate),
        left > 0,
        converges(
            p,
            l,
            w,
            expires_at_height,
            rate,
            owed_fee(b, rate) as Amount,
            if fee > owed_fee(b, rate) {
                cheaper(best, b, fee)
            } else {
                best
            },
            (left - 1) as nat,
            result,
        ),
    ensures
        converges(p, l, w, expires_at_height, rate, fee, best, left, result),
{
    assert(converges_after(p, l, w, expires_at_height, rate, fee, best, left, Ok(b), result));
}

/// A try that ended the search gives its result.
proof fn search_ends(
    p: PaymentView,
    l: LedgerView,
    w: WalletView,
    expires_at_height: u64,
    rate: Amount,
    fee: Amount,
    best: Option<Estimated>,
    left: nat,
    outcome: Result<BuiltBlindedTransactionView, Seq<char>>,
    result: Result<Estimated, Seq<char>>,
)
    requires
        p.gives(l, w, expires_at_height, fee, outcome),
        converges_after(p, l, w, expires_at_height, rate, fee, best, left, outcome, result),
    ensures
        converges(p, l, w, expires_at_height, rate, fee, best, left, result),
{
}

/// An estimate pays what its envelope owes.
pub open spec fn pays_its_way(e: Estimated, rate: Amount) -> bool {
    e.1.fee >= owed_fee(e.0, rate) && e.1.bytes == envelope_size(e.0.transaction) as usize
}

/// Whatever fee the search ends with, it pays the envelope at the rate.
pub proof fn converged_fee_pays(
    p: PaymentView,
    l: LedgerView,
    w: WalletView,
    expires_at_height: u64,
    rate: Amount,
    fee: Amount,
    best: Option<Estimated>,
    left: nat,
    result: Result<Estimated, Seq<char>>,
)
    requires
        converges(p, l, w, expires_at_height, rate, fee, best, left, result),
        best matches Some(b) ==> pays_its_way(b, rate),
    ensures
        result matches Ok(e) ==> pays_its_way(e, rate),
    decreases left,
{
    let outcome = choose|outcome: Result<BuiltBlindedTransactionView, Seq<char>>| #[trigger]
        p.gives(l, w, expires_at_height, fee, outcome) && converges_after(
            p,
            l,
            w,
            expires_at_height,
            rate,
            fee,
            best,
            left,
            outcome,
            result,
        );
    if let Ok(b) = outcome {
        let owed = owed_fee(b, rate);
        if owed <= u64::MAX && left > 0 && fee != owed {
            let next = if fee > owed {
                cheaper(best, b, fee)
            } else {
                best
            };
            converged_fee_pays(p, l, w, expires_at_height, rate, owed as Amount, next, (left - 1) as nat, result);
        }
    }
}

impl NodeView {
    /// The height until which a new envelope of the wallet may be opened.
    pub open spec fn default_expiry(self) -> u64 {
        node::plus(self.ledger.height(), MAX_BLINDED_TRANSACTION_EXPIRY_HEIGHTS)
    }

    /// What sealing and giving out a payment of the wallet may give.
    pub open spec fn sealed_submission_gives(
        self,
        t: TransactionView,
        after: NodeView,
        r: Result<TransactionView, Seq<char>>,
    ) -> bool {
        exists|outcome: Result<BuiltBlindedTransactionView, Seq<char>>| #[trigger]
            self.ledger.blinding_gives(self.seed(), t, t.fee(), self.default_expiry(), outcome) && match outcome {
                Err(e) => after == self && r == Err::<TransactionView, Seq<char>>(e),
                Ok(b) => after == self.owned_submitted(b).0 && r == match self.owned_submitted(b).1 {
                    Ok(_) => Ok(t),
                    Err(e) => Err(e),
                },
            }
    }

    /// What giving out a payment may give that was built, or refused.
    pub open spec fn payment_gives(
        self,
        built: Result<TransactionView, Seq<char>>,
        after: NodeView,
        r: Result<TransactionView, Seq<char>>,
    ) -> bool {
        match self.wallet {
            WalletView::Locked(_) => after == self && r == Err::<TransactionView, Seq<char>>("wallet is locked"@),
            WalletView::Unlocked(_) => match built {
                Err(e) => after == self && r == Err::<TransactionView, Seq<char>>(e),
                Ok(t) => self.sealed_submission_gives(t, after, r),
            },
        }
    }

    /// The seed of the wallet, where it is unlocked.
    pub open spec fn seed(self) -> Seq<u8> {
        self.wallet->Unlocked_0
    }

    /// What giving out an envelope may give whose sealing may give an outcome.
    pub open spec fn envelope_submission(
        self,
        outcome: Result<BuiltBlindedTransactionView, Seq<char>>,
        after: NodeView,
        r: Result<BlindedTransactionView, Seq<char>>,
    ) -> bool {
        match outcome {
            Err(e) => after == self && r == Err::<BlindedTransactionView, Seq<char>>(e),
            Ok(b) => (after, r) == self.owned_submitted(b),
        }
    }

    /// What the search for the fee of a payment may give.
    pub open spec fn rated_gives(self, p: PaymentView, rate: Amount, result: Result<Estimated, Seq<char>>) -> bool {
        converges(
            p,
            self.build_ledger(),
            self.wallet,
            self.default_expiry(),
            rate,
            0,
            None,
            FEE_TRIES as nat,
            result,
        )
    }

    /// What giving out a payment at a fee rate may give.
    pub open spec fn rated_payment_gives(
        self,
        p: PaymentView,
        rate: Amount,
        after: NodeView,
        r: Result<(TransactionView, FeeEstimate), Seq<char>>,
    ) -> bool {
        exists|result: Result<Estimated, Seq<char>>| #[trigger]
            self.rated_gives(p, rate, result) && match result {
                Err(e) => after == self && r == Err::<(TransactionView, FeeEstimate), Seq<char>>(e),
                Ok((b, estimate)) => after == self.owned_submitted(b).0 && r == match self.owned_submitted(b).1 {
                    Ok(_) => Ok((b.payload, estimate)),
                    Err(e) => Err(e),
                },
            }
    }

    /// What the estimate of a fee may give.
    pub open spec fn estimate_gives(self, p: PaymentView, rate: Amount, r: Result<FeeEstimate, Seq<char>>) -> bool {
        exists|result: Result<Estimated, Seq<char>>| #[trigger]
            self.rated_gives(p, rate, result) && r == match result {
                Err(e) => Err(e),
                Ok((_, estimate)) => Ok(estimate),
            }
    }
}

pub(crate) fn try_payment(
    payment: &Payment,
    ledger: &Ledger,
    wallet: &NodeWallet,
    expires_at_height: u64,
    fee: Amount,
) -> (r: Result<BuiltBlindedTransaction, Error>)
    requires
        ledger.wf(),
    ensures
        payment.deep_view().gives(
            ledger.deep_view(),
            wallet.deep_view(),
            expires_at_height,
            fee,
            error::outcome(r),
        ),
{
    broadcast use model::group_views;

    reveal(PaymentView::gives);
    let wallet = match wallet.unlocked() {
        Ok(wallet) => wallet,
        Err(e) => {
            return Err(e);
        },
    };
    let built = match payment {
        Payment::Burn { amount } => ledger.build_burn(wallet, *amount, fee),
        Payment::Transfer { to, amount, outpoints } => if outpoints.len() == 0 {
            ledger.build_transfer(wallet, to.as_str(), *amount, fee)
        } else {
            ledger.build_transfer_with_inputs(wallet, to.as_str(), *amount, fee, outpoints.as_slice())
        },
    };
    match built {
        Err(e) => Err(e),
        Ok(tx) => ledger.build_blinded_transaction(wallet, tx, expires_at_height),
    }
}

/// The fee that an envelope owes at a rate, where it fits.
fn required_fee(built: &BuiltBlindedTransaction, fee_per_byte: Amount) -> (r: Option<(usize, Amount)>)
    ensures
        match r {
            Some((bytes, fee)) => bytes == envelope_size(built.deep_view().transaction) && fee == owed_fee(
                built.deep_view(),
                fee_per_byte,
            ),
            None => owed_fee(built.deep_view(), fee_per_byte) > u64::MAX,
        },
{
    let bytes: usize = built.transaction.fee_rate_size_bytes();
    match fee_per_byte.checked_mul(bytes as u64) {
        Some(fee) => Some((bytes, fee)),
        None => None,
    }
}

fn fee_overflow_error() -> (r: Error)
    ensures
        Err::<Estimated, Seq<char>>(r.deep_view()) == fee_overflow::<Estimated>(),
{
    Error::new("fee per byte times blinded transaction bytes overflows")
}

fn take_cheaper(
    best: Option<(BuiltBlindedTransaction, FeeEstimate)>,
    built: BuiltBlindedTransaction,
    bytes: usize,
    fee: Amount,
) -> (r: Option<(BuiltBlindedTransaction, FeeEstimate)>)
    requires
        bytes == envelope_size(built.deep_view().transaction),
    ensures
        r.deep_view() == cheaper(best.deep_view(), built.deep_view(), fee),
        r is Some,
{
    match best {
        Some(known) => if fee < known.1.fee {
            Some((built, FeeEstimate { bytes, fee }))
        } else {
            Some(known)
        },
        None => Some((built, FeeEstimate { bytes, fee })),
    }
}

fn last_try(
    payment: &Payment,
    ledger: &Ledger,
    wallet: &NodeWallet,
    expires_at_height: u64,
    fee_per_byte: Amount,
    fee: Amount,
) -> (r: Result<(BuiltBlindedTransaction, FeeEstimate), Error>)
    requires
        ledger.wf(),
    ensures
        last_try_gives(
            payment.deep_view(),
            ledger.deep_view(),
            wallet.deep_view(),
            expires_at_height,
            fee_per_byte,
            fee,
            error::outcome(r),
        ),
{
    let tried = try_payment(payment, ledger, wallet, expires_at_height, fee);
    let ghost outcome = error::outcome(tried);
    match tried {
        Err(e) => Err(e),
        Ok(built) => match required_fee(&built, fee_per_byte) {
            None => Err(fee_overflow_error()),
            Some((bytes, required)) => if fee < required {
                Err(Error::new("fee per byte did not converge"))
            } else {
                Ok((built, FeeEstimate { bytes, fee }))
            },
        },
    }
}

/// Searches the fee that a payment owes at a rate per byte of its envelope.
pub fn converge_fee_by_byte(
    payment: &Payment,
    ledger: &Ledger,
    wallet: &NodeWallet,
    expires_at_height: u64,
    fee_per_byte: Amount,
) -> (r: Result<(BuiltBlindedTransaction, FeeEstimate), Error>)
    requires
        ledger.wf(),
    ensures
        converges(
            payment.deep_view(),
            ledger.deep_view(),
            wallet.deep_view(),
            expires_at_height,
            fee_per_byte,
            0,
            None,
            FEE_TRIES as nat,
            error::outcome(r),
        ),
        r matches Ok(e) ==> pays_its_way(e.deep_view(), fee_per_byte),
{
    let ghost p = payment.deep_view();
    let ghost l = ledger.deep_view();
    let ghost w = wallet.deep_view();
    let ghost x = expires_at_height;
    let ghost rate = fee_per_byte;
    let mut fee: Amount = 0;
    let mut best: Option<(BuiltBlindedTransaction, FeeEstimate)> = None;
    let mut left: u64 = FEE_TRIES;
    while left > 0
        invariant
            ledger.wf(),
            p == payment.deep_view(),
            l == ledger.deep_view(),
            w == wallet.deep_view(),
            x == expires_at_height,
            rate == fee_per_byte,
            forall|result: Result<Estimated, Seq<char>>| #[trigger]
                converges(p, l, w, x, rate, fee, best.deep_view(), left as nat, result) ==> converges(
                    p,
                    l,
                    w,
                    x,
                    rate,
                    0,
                    None,
                    FEE_TRIES as nat,
                    result,
                ),
        decreases left,
    {
        let ghost known = best.deep_view();
        let ghost next = (left - 1) as nat;
        let tried = try_payment(payment, ledger, wallet, expires_at_height, fee);
        let ghost outcome = error::outcome(tried);
        let built = match tried {
            Err(e) => {
                proof {
                    search_ends(p, l, w, x, rate, fee, known, left as nat, outcome, Err(e.deep_view()));
                }
                return Err(e);
            },
            Ok(built) => built,
        };
        let ghost b = built.deep_view();
        match required_fee(&built, fee_per_byte) {
            None => {
                let e = fee_overflow_error();
                proof {
                    search_ends(p, l, w, x, rate, fee, known, left as nat, outcome, Err(e.deep_view()));
                }
                return Err(e);
            },
            Some((bytes, required)) => {
                if fee == required {
                    proof {
                        let result = Ok::<Estimated, Seq<char>>(estimated(b, fee));
                        search_ends(p, l, w, x, rate, fee, known, left as nat, outcome, result);
                        converged_fee_pays(p, l, w, x, rate, 0, None, FEE_TRIES as nat, result);
                    }
                    return Ok((built, FeeEstimate { bytes, fee }));
                }
                if fee > required {
                    best = take_cheaper(best, built, bytes, fee);
                }
                proof {
                    assert forall|result: Result<Estimated, Seq<char>>| #[trigger]
                        converges(
                            p,
                            l,
                            w,
                            x,
                            rate,
                            required,
                            best.deep_view(),
                            next,
                            result,
                        ) implies converges(p, l, w, x, rate, 0, None, FEE_TRIES as nat, result) by {
                        search_goes_on(p, l, w, x, rate, fee, known, left as nat, b, result);
                    }
                }
                fee = required;
            },
        }
        left = left - 1;
        assert(left as nat == next);
    }
    let ghost known = best.deep_view();
    let tried = try_payment(payment, ledger, wallet, expires_at_height, fee);
    let ghost outcome = error::outcome(tried);
    let built = match tried {
        Err(e) => {
            proof {
                search_ends(p, l, w, x, rate, fee, known, 0, outcome, Err(e.deep_view()));
            }
            return Err(e);
        },
        Ok(built) => built,
    };
    let ghost b = built.deep_view();
    match required_fee(&built, fee_per_byte) {
        None => {
            let e = fee_overflow_error();
            proof {
                search_ends(p, l, w, x, rate, fee, known, 0, outcome, Err(e.deep_view()));
            }
            Err(e)
        },
        Some((bytes, required)) => {
            if fee >= required {
                best = take_cheaper(best, built, bytes, fee);
                proof {
                    let result = Ok::<Estimated, Seq<char>>(cheaper(known, b, fee)->0);
                    search_ends(p, l, w, x, rate, fee, known, 0, outcome, result);
                    converged_fee_pays(p, l, w, x, rate, 0, None, FEE_TRIES as nat, result);
                }
                match best {
                    Some(found) => Ok(found),
                    None => Err(fee_overflow_error()),
                }
            } else {
                let r = last_try(payment, ledger, wallet, expires_at_height, fee_per_byte, required);
                proof {
                    search_ends(p, l, w, x, rate, fee, known, 0, outcome, error::outcome(r));
                    converged_fee_pays(p, l, w, x, rate, 0, None, FEE_TRIES as nat, error::outcome(r));
                }
                r
            }
        },
    }
}

impl NodeCore {
    /// The height until which a new envelope of the wallet may be opened.
    pub fn default_blinded_transaction_expiry_height(&self) -> (r: u64)
        requires
            self.wf(),
        ensures
            r == self.deep_view().default_expiry(),
    {
        self.ledger.height().saturating_add(MAX_BLINDED_TRANSACTION_EXPIRY_HEIGHTS)
    }

    fn submit_transaction_as_owned_blinded(&mut self, tx: Transaction) -> (r: Result<Transaction, Error>)
        requires
            old(self).wf(),
            old(self).deep_view().wallet is Unlocked,
        ensures
            final(self).wf(),
            old(self).deep_view().sealed_submission_gives(
                tx.deep_view(),
                final(self).deep_view(),
                error::outcome(r),
            ),
    {
        let expires_at_height: u64 = self.default_blinded_transaction_expiry_height();
        let sealed = match self.wallet.unlocked() {
            Err(e) => {
                return Err(e);
            },
            Ok(wallet) => self.ledger.build_blinded_transaction(wallet, tx.duplicate(), expires_at_height),
        };
        let ghost outcome = error::outcome(sealed);
        assert(self.deep_view().ledger.blinding_gives(
            self.deep_view().seed(),
            tx.deep_view(),
            tx.deep_view().fee(),
            self.deep_view().default_expiry(),
            outcome,
        ));
        match sealed {
            Err(e) => Err(e),
            Ok(built) => match self.submit_owned_blinded_transaction(built) {
                Err(e) => Err(e),
                Ok(_) => Ok(tx),
            },
        }
    }

    /// Burns an amount without a fee.
    pub fn burn(&mut self, amount: Amount) -> (r: Result<Transaction, Error>)
        requires
            old(self).wf(),
        ensures
            final(self).wf(),
            old(self).deep_view().payment_gives(
                old(self).deep_view().build_ledger().built_burn(old(self).deep_view().seed(), amount, 0),
                final(self).deep_view(),
                error::outcome(r),
            ),
    {
        self.burn_with_fee(amount, 0)
    }

    /// Burns an amount.
    pub fn burn_with_fee(&mut self, amount: Amount, fee: Amount) -> (r: Result<Transaction, Error>)
        requires
            old(self).wf(),
        ensures
            final(self).wf(),
            old(self).deep_view().payment_gives(
                old(self).deep_view().build_ledger().built_burn(old(self).deep_view().seed(), amount, fee),
                final(self).deep_view(),
                error::outcome(r),
            ),
    {
        let ledger = self.wallet_build_ledger();
        let built = match self.wallet.unlocked() {
            Err(e) => {
                return Err(e);
            },
            Ok(wallet) => ledger.build_burn(wallet, amount, fee),
        };
        match built {
            Err(e) => Err(e),
            Ok(tx) => self.submit_transaction_as_owned_blinded(tx),
        }
    }

    /// Transfers an amount at the usual fee.
    pub fn transfer(&mut self, to: &str, amount: Amount) -> (r: Result<Transaction, Error>)
        requires
            old(self).wf(),
        ensures
            final(self).wf(),
            old(self).deep_view().payment_gives(
                old(self).deep_view().build_ledger().built_transfer(
                    old(self).deep_view().seed(),
                    to@,
                    amount,
                    DEFAULT_TRANSACTION_FEE,
                ),
                final(self).deep_view(),
                error::outcome(r),
            ),
    {
        self.transfer_with_fee(to, amount, DEFAULT_TRANSACTION_FEE)
    }

    /// Transfers an amount.
    pub fn transfer_with_fee(&mut self, to: &str, amount: Amount, fee: Amount) -> (r: Result<Transaction, Error>)
        requires
            old(self).wf(),
        ensures
            final(self).wf(),
            old(self).deep_view().payment_gives(
                old(self).deep_view().build_ledger().built_transfer(old(self).deep_view().seed(), to@, amount, fee),
                final(self).deep_view(),
                error::outcome(r),
            ),
    {
        let ledger = self.wallet_build_ledger();
        let built = match self.wallet.unlocked() {
            Err(e) => {
                return Err(e);
            },
            Ok(wallet) => ledger.build_transfer(wallet, to, amount, fee),
        };
        match built {
            Err(e) => Err(e),
            Ok(tx) => self.submit_transaction_as_owned_blinded(tx),
        }
    }

    /// Transfers an amount out of chosen outputs.
    pub fn transfer_with_fee_spending(&mut self, to: &str, amount: Amount, fee: Amount, outpoints: &[OutPoint]) -> (r: Result<
        Transaction,
        Error,
    >)
        requires
            old(self).wf(),
        ensures
            final(self).wf(),
            old(self).deep_view().payment_gives(
                old(self).deep_view().build_ledger().built_transfer_of(
                    old(self).deep_view().seed(),
                    to@,
                    amount,
                    fee,
                    model::views(outpoints@),
                ),
                final(self).deep_view(),
                error::outcome(r),
            ),
    {
        let ledger = self.wallet_build_ledger();
        let built = match self.wallet.unlocked() {
            Err(e) => {
                return Err(e);
            },
            Ok(wallet) => ledger.build_transfer_with_inputs(wallet, to, amount, fee, outpoints),
        };
        match built {
            Err(e) => Err(e),
            Ok(tx) => self.submit_transaction_as_owned_blinded(tx),
        }
    }

    fn submit_sealed(&mut self, sealed: Result<BuiltBlindedTransaction, Error>) -> (r: Result<BlindedTransaction, Error>)
        requires
            old(self).wf(),
        ensures
            final(self).wf(),
            old(self).deep_view().envelope_submission(
                error::outcome(sealed),
                final(self).deep_view(),
                error::outcome(r),
            ),
    {
        match sealed {
            Err(e) => Err(e),
            Ok(built) => self.submit_owned_blinded_transaction(built),
        }
    }

    /// Burns an amount in an envelope that may be opened until a height.
    pub fn blinded_burn_with_fee(&mut self, amount: Amount, fee: Amount, expires_at_height: u64) -> (r: Result<
        BlindedTransaction,
        Error,
    >)
        requires
            old(self).wf(),
        ensures
            final(self).wf(),
            old(self).deep_view().sealed_at_gives(
                old(self).deep_view().build_ledger().built_burn(old(self).deep_view().seed(), amount, fee),
                fee,
                expires_at_height,
                final(self).deep_view(),
                error::outcome(r),
            ),
    {
        let ledger = self.wallet_build_ledger();
        let sealed = match self.wallet.unlocked() {
            Err(e) => {
                return Err(e);
            },
            Ok(wallet) => ledger.build_blinded_burn(wallet, amount, fee, expires_at_height),
        };
        let ghost outcome = error::outcome(sealed);
        let r = self.submit_sealed(sealed);
        assert(old(self).deep_view().envelope_submission(outcome, self.deep_view(), error::outcome(r)));
        r
    }

    /// Transfers an amount in an envelope that may be opened until a height.
    pub fn blinded_transfer_with_fee(&mut self, to: &str, amount: Amount, fee: Amount, expires_at_height: u64) -> (r: Result<
        BlindedTransaction,
        Error,
    >)
        requires
            old(self).wf(),
        ensures
            final(self).wf(),
            old(self).deep_view().sealed_at_gives(
                old(self).deep_view().build_ledger().built_transfer(old(self).deep_view().seed(), to@, amount, fee),
                fee,
                expires_at_height,
                final(self).deep_view(),
                error::outcome(r),
            ),
    {
        let ledger = self.wallet_build_ledger();
        let sealed = match self.wallet.unlocked() {
            Err(e) => {
                return Err(e);
            },
            Ok(wallet) => ledger.build_blinded_transfer(wallet, to, amount, fee, expires_at_height),
        };
        let ghost outcome = error::outcome(sealed);
        let r = self.submit_sealed(sealed);
        assert(old(self).deep_view().envelope_submission(outcome, self.deep_view(), error::outcome(r)));
        r
    }

    fn build_with_fee_rate(&self, payment: &Payment, fee_per_byte: Amount) -> (r: Result<
        (BuiltBlindedTransaction, FeeEstimate),
        Error,
    >)
        requires
            self.wf(),
        ensures
            self.deep_view().rated_gives(payment.deep_view(), fee_per_byte, error::outcome(r)),
            r matches Ok(e) ==> pays_its_way(e.deep_view(), fee_per_byte),
    {
        let ledger = self.wallet_build_ledger();
        let expires_at_height: u64 = self.default_blinded_transaction_expiry_height();
        converge_fee_by_byte(payment, &ledger, &self.wallet, expires_at_height, fee_per_byte)
    }

    fn pay_with_fee_rate(&mut self, payment: &Payment, fee_per_byte: Amount) -> (r: Result<
        (Transaction, FeeEstimate),
        Error,
    >)
        requires
            old(self).wf(),
        ensures
            final(self).wf(),
            old(self).deep_view().rated_payment_gives(
                payment.deep_view(),
                fee_per_byte,
                final(self).deep_view(),
                error::outcome(r),
            ),
    {
        let found = self.build_with_fee_rate(payment, fee_per_byte);
        let ghost result = error::outcome(found);
        assert(self.deep_view().rated_gives(payment.deep_view(), fee_per_byte, result));
        match found {
            Err(e) => Err(e),
            Ok((built, estimate)) => {
                let tx = built.payload.duplicate();
                match self.submit_owned_blinded_transaction(built) {
                    Err(e) => Err(e),
                    Ok(_) => Ok((tx, estimate)),
                }
            },
        }
    }

    fn estimate_fee(&self, payment: &Payment, fee_per_byte: Amount) -> (r: Result<FeeEstimate, Error>)
        requires
            self.wf(),
        ensures
            self.deep_view().estimate_gives(payment.deep_view(), fee_per_byte, error::outcome(r)),
    {
        let found = self.build_with_fee_rate(payment, fee_per_byte);
        let ghost result = error::outcome(found);
        assert(self.deep_view().rated_gives(payment.deep_view(), fee_per_byte, result));
        match found {
            Err(e) => Err(e),
            Ok((_, estimate)) => Ok(estimate),
        }
    }

    /// Burns an amount at a fee rate.
    pub fn burn_with_fee_rate(&mut self, amount: Amount, fee_per_byte: Amount) -> (r: Result<
        (Transaction, FeeEstimate),
        Error,
    >)
        requires
            old(self).wf(),
        ensures
            final(self).wf(),
            old(self).deep_view().rated_payment_gives(
                PaymentView::Burn { amount },
                fee_per_byte,
                final(self).deep_view(),
                error::outcome(r),
            ),
    {
        self.pay_with_fee_rate(&Payment::Burn { amount }, fee_per_byte)
    }

    /// The fee for a burn at a fee rate.
    pub fn estimate_burn_fee(&self, amount: Amount, fee_per_byte: Amount) -> (r: Result<FeeEstimate, Error>)
        requires
            self.wf(),
        ensures
            self.deep_view().estimate_gives(PaymentView::Burn { amount }, fee_per_byte, error::outcome(r)),
    {
        self.estimate_fee(&Payment::Burn { amount }, fee_per_byte)
    }

    /// Transfers an amount at a fee rate, out of chosen outputs where some are chosen.
    pub fn transfer_with_fee_rate(&mut self, to: &str, amount: Amount, fee_per_byte: Amount, outpoints: &[OutPoint]) -> (r: Result<
        (Transaction, FeeEstimate),
        Error,
    >)
        requires
            old(self).wf(),
        ensures
            final(self).wf(),
            old(self).deep_view().rated_payment_gives(
                PaymentView::Transfer { to: to@, amount, outpoints: model::views(outpoints@) },
                fee_per_byte,
                final(self).deep_view(),
                error::outcome(r),
            ),
    {
        let payment = transfer_of(to, amount, outpoints);
        self.pay_with_fee_rate(&payment, fee_per_byte)
    }

    /// The fee for a transfer at a fee rate.
    pub fn estimate_transfer_fee(&self, to: &str, amount: Amount, fee_per_byte: Amount, outpoints: &[OutPoint]) -> (r: Result<
        FeeEstimate,
        Error,
    >)
        requires
            self.wf(),
        ensures
            self.deep_view().estimate_gives(
                PaymentView::Transfer { to: to@, amount, outpoints: model::views(outpoints@) },
                fee_per_byte,
                error::outcome(r),
            ),
    {
        let payment = transfer_of(to, amount, outpoints);
        self.estimate_fee(&payment, fee_per_byte)
    }

    /// Searches a proof of work for the wallet and gives it out.
    pub fn mine_pow_reward(&mut self) -> (r: Result<Transaction, Error>)
        requires
            old(self).wf(),
        ensures
            final(self).wf(),
            exists|built: Result<TransactionView, Seq<char>>| #[trigger]
                old(self).deep_view().proof_gives(built) && match built {
                    Err(e) => final(self).deep_view() == old(self).deep_view() && error::outcome(r) == Err::<
                        TransactionView,
                        Seq<char>,
                    >(e),
                    Ok(t) => (final(self).deep_view(), error::outcome(r)) == old(self).deep_view().mine_submitted(t),
                },
    {
        let built = self.ledger.build_mine(self.wallet.address());
        let ghost outcome = error::outcome(built);
        assert(self.deep_view().proof_gives(outcome));
        match built {
            Err(e) => Err(e),
            Ok(tx) => self.submit_public_mine_action(tx),
        }
    }

    /// The fee for a proof of work.
    pub fn estimate_mine_fee(&self, _fee_per_byte: Amount) -> (r: Result<FeeEstimate, Error>)
        requires
            self.wf(),
        ensures
            exists|built: Result<TransactionView, Seq<char>>| #[trigger]
                self.deep_view().proof_gives(built) && error::outcome(r) == match built {
                    Err(e) => Err(e),
                    Ok(t) => Ok(FeeEstimate { bytes: t.economic_size() as usize, fee: t.fee() }),
                },
    {
        let built = self.ledger.build_mine(self.wallet.address());
        let ghost outcome = error::outcome(built);
        assert(self.deep_view().proof_gives(outcome));
        match built {
            Err(e) => Err(e),
            Ok(tx) => {
                proof {
                    transaction::mine_is_small(tx.deep_view());
                }
                Ok(FeeEstimate { bytes: tx.economic_size_bytes(), fee: tx.fee() })
            },
        }
    }

    /// Work on the tip for a miner outside the node.
    pub fn external_mine_job(&self, recipient: &str, salt: u64) -> (r: Result<ExternalMineJob, Error>)
        requires
            self.wf(),
        ensures
            match r {
                Ok(job) => stratum::template_refusal(recipient@, self.deep_view().ledger.tip().hash) is None
                    && stratum::template_matches(
                    job.template,
                    recipient@,
                    self.deep_view().ledger.tip().hash,
                    salt,
                    self.deep_view().ledger.difficulty_at(self.deep_view().ledger.height()),
                ),
                Err(e) => stratum::template_refusal(recipient@, self.deep_view().ledger.tip().hash) == Some(
                    e.deep_view(),
                ),
            },
    {
        let bits: u32 = self.ledger.current_mine_difficulty_bits();
        let tip = self.ledger.tip();
        match self.ledger.stratum_mine_template(recipient, tip.hash.as_str(), salt, bits) {
            Ok(template) => Ok(ExternalMineJob { template }),
            Err(e) => Err(e),
        }
    }

    /// Takes in a proof of work from a miner outside the node.
    pub fn submit_external_mine(&mut self, recipient: &str, template: StratumMineTemplate, share: StratumMineShare) -> (r: Result<
        Transaction,
        Error,
    >)
        requires
            old(self).wf(),
        ensures
            final(self).wf(),
            (final(self).deep_view(), error::outcome(r)) == match old(self).deep_view().ledger.stratum_mine(
                template.recipient@,
                template.anchor@,
                template.salt,
                template.difficulty_bits,
                stratum::packed_nonce(share.extranonce2@, share.header_nonce@) as u64,
            ) {
                Err(e) => (old(self).deep_view(), Err(e)),
                Ok(t) => if t.to() != Some(recipient@) {
                    (old(self).deep_view(), Err("submitted mine recipient does not match worker"@))
                } else {
                    old(self).deep_view().mine_submitted(t)
                },
            },
    {
        let built = self.ledger.build_stratum_mine(template, share);
        match built {
            Err(e) => Err(e),
            Ok(tx) => {
                let matches = match tx.to() {
                    Some(to) => text::text_eq(to, recipient),
                    None => false,
                };
                if !matches {
                    return Err(Error::new("submitted mine recipient does not match worker"));
                }
                self.submit_public_mine_action(tx)
            },
        }
    }
}

fn transfer_of(to: &str, amount: Amount, outpoints: &[OutPoint]) -> (r: Payment)
    ensures
        r.deep_view() == (PaymentView::Transfer { to: to@, amount, outpoints: model::views(outpoints@) }),
{
    let mut chosen: Vec<OutPoint> = Vec::new();
    let mut i: usize = 0;
    while i < outpoints.len()
        invariant
            i <= outpoints@.len(),
            chosen@.len() == i,
            forall|j: int| 0 <= j < i ==> (#[trigger] chosen@[j]).deep_view() == outpoints@[j].deep_view(),
        decreases outpoints@.len() - i,
    {
        chosen.push(outpoints[i].duplicate());
        i = i + 1;
    }
    assert(chosen.deep_view() =~= model::views(outpoints@));
    Payment::Transfer { to: text::text(to), amount, outpoints: chosen }
}

impl NodeView {
    /// What giving out a payment in an envelope may give that was built, or refused.
    pub open spec fn sealed_at_gives(
        self,
        built: Result<TransactionView, Seq<char>>,
        fee: Amount,
        expires_at_height: u64,
        after: NodeView,
        r: Result<BlindedTransactionView, Seq<char>>,
    ) -> bool {
        match self.wallet {
            WalletView::Locked(_) => after == self && r == Err::<BlindedTransactionView, Seq<char>>("wallet is locked"@),
            WalletView::Unlocked(_) => match built {
                Err(e) => after == self && r == Err::<BlindedTransactionView, Seq<char>>(e),
                Ok(t) => exists|outcome: Result<BuiltBlindedTransactionView, Seq<char>>|
                    self.build_ledger().blinding_gives(self.seed(), t, fee, expires_at_height, outcome)
                        && #[trigger] self.envelope_submission(outcome, after, r),
            },
        }
    }

    /// What the search for a proof of work for the wallet may give.
    pub open spec fn proof_gives(self, built: Result<TransactionView, Seq<char>>) -> bool {
        let address = self.wallet.address();
        match validate::address_check(address, "mine recipient"@) {
            Err(e) => built == Err::<TransactionView, Seq<char>>(e),
            Ok(_) => {
                ||| built == Err::<TransactionView, Seq<char>>("could not find valid mine proof"@) && forall|nonce: u64|
                    nonce < u64::MAX ==> !#[trigger] self.ledger.proves_work(address, 1, nonce)
                ||| exists|nonce: u64| #[trigger]
                    self.ledger.least_proof(address, 1, nonce) && nonce < u64::MAX && built == self.ledger.checked(
                        self.ledger.mine_at(address, 1, nonce),
                    )
            },
        }
    }
}

} // verus!
