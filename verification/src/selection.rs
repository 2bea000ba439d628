//! Choosing what goes into the next block: the best paying items that fit.
use crate::blinded::{BlindedTransaction, BlindedTransactionView, RevealBundleView};
use crate::block::{Block, BlockView, FinalizerMode, LeaderProof, LeaderProofView};
use crate::committee;
use crate::document;
use crate::ledger::{Ledger, LedgerView};
use crate::locks;
use crate::locks::HoldingsView;
use crate::mempool;
use crate::model;
use crate::model::Model;
use crate::text;
use crate::transaction::{Transaction, TransactionView};
use crate::utxo;
use crate::utxo::{Utxos, UtxosView};
use vstd::prelude::*;
use vstd::utf8::*;
use vstd::string::*;

verus! {

/// The items chosen for a block.
#[derive(Clone, Debug)]
pub struct BlockSelection {
    pub transactions: Vec<Transaction>,
    pub blinded_transactions: Vec<BlindedTransaction>,
}

#[verifier::ext_equal]
pub struct BlockSelectionView {
    pub transactions: Seq<TransactionView>,
    pub blinded_transactions: Seq<BlindedTransactionView>,
}

impl DeepView for BlockSelection {
    type V = BlockSelectionView;

    open spec fn deep_view(&self) -> BlockSelectionView {
        BlockSelectionView {
            transactions: self.transactions.deep_view(),
            blinded_transactions: self.blinded_transactions.deep_view(),
        }
    }
}

/// Which transactions a place in a block is open to.
#[derive(Clone, Debug)]
pub enum Wanted {
    Any,
    Burn,
    BurnFrom(String),
    BurnSigned(String),
}

pub enum WantedView {
    Any,
    Burn,
    BurnFrom(Seq<char>),
    BurnSigned(Seq<char>),
}

impl DeepView for Wanted {
    type V = WantedView;

    open spec fn deep_view(&self) -> WantedView {
        match self {
            Wanted::Any => WantedView::Any,
            Wanted::Burn => WantedView::Burn,
            Wanted::BurnFrom(owner) => WantedView::BurnFrom(owner@),
            Wanted::BurnSigned(signature) => WantedView::BurnSigned(signature@),
        }
    }
}

/// Whether a transaction is of the wanted kind.
pub open spec fn is_wanted(wanted: WantedView, t: TransactionView) -> bool {
    match wanted {
        WantedView::Any => true,
        WantedView::Burn => t.is_burn(),
        WantedView::BurnFrom(owner) => t.is_burn() && t.sender() == owner,
        WantedView::BurnSigned(signature) => t.is_burn() && t.signature() == signature,
    }
}

/// Whether a transaction pays more than another: by fee rate, then fee, then burns first, then the
/// lower signature.
pub open spec fn pays_more(a: TransactionView, b: TransactionView) -> bool {
    ||| a.fee_rate() > b.fee_rate()
    ||| a.fee_rate() == b.fee_rate() && a.fee() > b.fee()
    ||| a.fee_rate() == b.fee_rate() && a.fee() == b.fee() && a.is_burn() && !b.is_burn()
    ||| a.fee_rate() == b.fee_rate() && a.fee() == b.fee() && a.is_burn() == b.is_burn() && text::text_before(
        a.signature(),
        b.signature(),
    )
}

/// The place of the best paying transaction that is wanted and applies; of equals the last.
pub open spec fn best(transactions: Seq<TransactionView>, u: UtxosView, wanted: WantedView) -> Option<int>
    decreases transactions.len(),
{
    if transactions.len() == 0 {
        None
    } else {
        let earlier = best(transactions.drop_last(), u, wanted);
        let t = transactions.last();
        if !is_wanted(wanted, t) || !utxo::applies(t, u) {
            earlier
        } else {
            match earlier {
                Some(i) if pays_more(transactions[i], t) => Some(i),
                _ => Some(transactions.len() - 1),
            }
        }
    }
}

/// The fee rate of an envelope.
pub open spec fn envelope_rate(t: BlindedTransactionView) -> nat {
    committee::rate(t.fee, document::size_of(document::blinded_doc(t)))
}

/// Whether an envelope pays more than another: by fee rate, then fee, then the lower commitment.
pub open spec fn envelope_pays_more(a: BlindedTransactionView, b: BlindedTransactionView) -> bool {
    ||| envelope_rate(a) > envelope_rate(b)
    ||| envelope_rate(a) == envelope_rate(b) && a.fee > b.fee
    ||| envelope_rate(a) == envelope_rate(b) && a.fee == b.fee && text::text_before(a.commitment, b.commitment)
}

/// The place of the best paying envelope; of equals the last.
pub open spec fn best_envelope(transactions: Seq<BlindedTransactionView>) -> Option<int>
    decreases transactions.len(),
{
    if transactions.len() == 0 {
        None
    } else {
        match best_envelope(transactions.drop_last()) {
            Some(i) if envelope_pays_more(transactions[i], transactions.last()) => Some(i),
            _ => Some(transactions.len() - 1),
        }
    }
}

/// A block with every field as long as it can be, for the size of a selection.
pub open spec fn widest_block(s: BlockSelectionView, recovery: bool) -> BlockView {
    let hash = text::repeated('f', 64);
    BlockView {
        height: u64::MAX,
        prev_hash: hash,
        timestamp_ms: u64::MAX,
        miner: hash,
        finalizer_mode: if recovery {
            FinalizerMode::Recovery
        } else {
            FinalizerMode::Ticket
        },
        finalizer_rank: 0,
        reward: u64::MAX,
        vdf_rounds: u64::MAX,
        vdf_output: hash,
        leader_proof: if recovery {
            None
        } else {
            Some(
                LeaderProofView {
                    ticket_id: hash,
                    public_key: hash,
                    signature: text::repeated('f', 128),
                },
            )
        },
        blinded_transactions: s.blinded_transactions,
        reveal_bundles: Seq::<RevealBundleView>::empty(),
        transactions: s.transactions,
        hash,
    }
}

/// The size that a selection is taken to have.
pub open spec fn estimated_size(s: BlockSelectionView, recovery: bool) -> nat {
    document::size_of(document::block_doc(widest_block(s, recovery)))
}

impl BlockSelectionView {
    pub open spec fn with_plain(self, t: TransactionView) -> BlockSelectionView {
        BlockSelectionView { transactions: self.transactions.push(t), ..self }
    }

    pub open spec fn with_envelope(self, t: BlindedTransactionView) -> BlockSelectionView {
        BlockSelectionView { blinded_transactions: self.blinded_transactions.push(t), ..self }
    }

    pub open spec fn len(self) -> nat {
        self.transactions.len() + self.blinded_transactions.len()
    }
}

/// The selection of nothing.
pub open spec fn nothing() -> BlockSelectionView {
    BlockSelectionView {
        transactions: Seq::<TransactionView>::empty(),
        blinded_transactions: Seq::<BlindedTransactionView>::empty(),
    }
}

/// The next item: the envelope only where it pays a higher rate than the transaction.
pub open spec fn takes_envelope(
    remaining: Seq<TransactionView>,
    plain: Option<int>,
    envelopes: Seq<BlindedTransactionView>,
    envelope: Option<int>,
) -> bool {
    match (plain, envelope) {
        (Some(i), Some(k)) => envelope_rate(envelopes[k]) > remaining[i].fee_rate(),
        (None, Some(_)) => true,
        _ => false,
    }
}

impl LedgerView {
    /// Whether a selection fits its block: within the byte limit, no balance overflows, and what its
    /// envelopes name is there to be locked once its transactions left the outputs `u`.
    pub open spec fn selection_fits(self, u: UtxosView, s: BlockSelectionView, recovery: bool) -> bool {
        estimated_size(s, recovery) <= self.launch_profile.max_block_bytes && self.selection_locks(u, s)
    }

    /// Whether there is room for the outputs `u` beside those held, and what the envelopes of a
    /// selection name is among them to be locked.
    pub open spec fn selection_locks(self, u: UtxosView, s: BlockSelectionView) -> bool {
        locks::room_check(u, self.locked) is Ok && locks::lock_all(s.blinded_transactions, (HoldingsView { free: u, locked: self.locked })) is Ok
    }

    /// Fills a selection with the best items that fit, one at a time.
    pub open spec fn filled(
        self,
        u: UtxosView,
        remaining: Seq<TransactionView>,
        envelopes: Seq<BlindedTransactionView>,
        s: BlockSelectionView,
        recovery: bool,
    ) -> BlockSelectionView
        decreases remaining.len() + envelopes.len(),
    {
        let plain = best(remaining, u, WantedView::Any);
        let envelope = best_envelope(envelopes);
        if s.len() >= self.launch_profile.max_block_transactions {
            s
        } else if takes_envelope(remaining, plain, envelopes, envelope) {
            let k = envelope->0;
            if !(0 <= k < envelopes.len()) {
                s
            } else {
                let with = s.with_envelope(envelopes[k]);
                let rest = envelopes.remove(k);
                if self.selection_fits(u, with, recovery) {
                    self.filled(u, remaining, rest, with, recovery)
                } else {
                    self.filled(u, remaining, rest, s, recovery)
                }
            }
        } else {
            match plain {
                None => s,
                Some(i) => if !(0 <= i < remaining.len()) {
                    s
                } else {
                    let t = remaining[i];
                    let with = s.with_plain(t);
                    let rest = remaining.remove(i);
                    let left = utxo::applied(t, u).0;
                    if self.selection_fits(left, with, recovery) {
                        self.filled(left, rest, envelopes, with, recovery)
                    } else {
                        self.filled(u, rest, envelopes, s, recovery)
                    }
                },
            }
        }
    }

    /// The envelopes that may go into a block.
    pub open spec fn includable_envelopes(self) -> Seq<BlindedTransactionView> {
        self.pending_blinded.filter(|t: BlindedTransactionView| self.includable(t))
    }

    /// The items for the next block: a burn first, then the best that fit.
    pub open spec fn chosen_items(self, first: WantedView, recovery: bool) -> BlockSelectionView {
        let remaining = self.valid_pending();
        match best(remaining, self.utxos, first) {
            None => self.filled(self.utxos, remaining, self.includable_envelopes(), nothing(), recovery),
            Some(i) => {
                let t = remaining[i];
                let rest = remaining.remove(i);
                let with = nothing().with_plain(t);
                if self.selection_fits(utxo::applied(t, self.utxos).0, with, recovery) {
                    self.filled(
                        utxo::applied(t, self.utxos).0,
                        rest,
                        self.includable_envelopes(),
                        with,
                        recovery,
                    )
                } else {
                    self.filled(self.utxos, rest, self.includable_envelopes(), nothing(), recovery)
                }
            },
        }
    }
}

/// The best place is a place of a wanted transaction that applies.
pub proof fn best_is_there(transactions: Seq<TransactionView>, u: UtxosView, wanted: WantedView)
    ensures
        best(transactions, u, wanted) matches Some(i) ==> 0 <= i < transactions.len() && is_wanted(
            wanted,
            transactions[i],
        ) && utxo::applies(transactions[i], u),
    decreases transactions.len(),
{
    if transactions.len() > 0 {
        best_is_there(transactions.drop_last(), u, wanted);
    }
}

/// Texts are ordered: one of two comes first or they encode alike, and being no later carries over.
proof fn text_order(a: Seq<char>, b: Seq<char>, c: Seq<char>)
    ensures
        !(text::text_before(a, b) && text::text_before(b, a)),
        !text::text_before(a, b) && !text::text_before(b, c) ==> !text::text_before(a, c),
{
    let x = encode_utf8(a);
    let y = encode_utf8(b);
    let z = encode_utf8(c);
    text::bytes_before_irreflexive(x);
    text::bytes_before_total(x, y);
    text::bytes_before_total(y, z);
    if text::bytes_before(x, y) && text::bytes_before(y, x) {
        text::bytes_before_transitive(x, y, x);
    }
    if text::bytes_before(x, z) && text::bytes_before(y, x) {
        text::bytes_before_transitive(y, x, z);
    }
}

/// Paying more is an order: no two transactions both pay more than the other, and not paying more
/// carries over.
pub proof fn paying_more_is_an_order(a: TransactionView, b: TransactionView, c: TransactionView)
    ensures
        !(pays_more(a, b) && pays_more(b, a)),
        !pays_more(a, b) && !pays_more(b, c) ==> !pays_more(a, c),
{
    text_order(a.signature(), b.signature(), c.signature());
}

/// No wanted transaction that applies pays more than the best.
pub proof fn best_pays_most(transactions: Seq<TransactionView>, u: UtxosView, wanted: WantedView, n: int)
    requires
        0 <= n < transactions.len(),
        is_wanted(wanted, transactions[n]),
        utxo::applies(transactions[n], u),
    ensures
        best(transactions, u, wanted) matches Some(i) && !pays_more(transactions[n], transactions[i]),
    decreases transactions.len(),
{
    let earlier = transactions.drop_last();
    let t = transactions.last();
    let x = transactions[n];
    best_is_there(earlier, u, wanted);
    if n < earlier.len() {
        assert(earlier[n] == x);
        best_pays_most(earlier, u, wanted, n);
        let i = best(earlier, u, wanted)->0;
        assert(earlier[i] == transactions[i]);
        no_more_than_the_later(x, transactions[i], t);
    } else {
        match best(earlier, u, wanted) {
            Some(i) => {
                assert(earlier[i] == transactions[i]);
                no_more_than_the_later(t, t, transactions[i]);
            },
            None => {
                no_more_than_the_later(t, t, t);
            },
        }
    }
}

proof fn no_more_than_the_later(a: TransactionView, b: TransactionView, c: TransactionView)
    ensures
        !pays_more(a, a),
        pays_more(c, b) ==> !pays_more(b, c),
        !pays_more(a, b) && !pays_more(b, c) ==> !pays_more(a, c),
{
    paying_more_is_an_order(a, b, c);
    paying_more_is_an_order(a, a, a);
    paying_more_is_an_order(b, c, b);
}

pub proof fn best_envelope_is_there(transactions: Seq<BlindedTransactionView>)
    ensures
        best_envelope(transactions) matches Some(i) ==> 0 <= i < transactions.len(),
        best_envelope(transactions) is None <==> transactions.len() == 0,
    decreases transactions.len(),
{
    if transactions.len() > 0 {
        best_envelope_is_there(transactions.drop_last());
    }
}

proof fn envelopes_are_ordered(a: BlindedTransactionView, b: BlindedTransactionView, c: BlindedTransactionView)
    ensures
        !(envelope_pays_more(a, b) && envelope_pays_more(b, a)),
        !envelope_pays_more(a, b) && !envelope_pays_more(b, c) ==> !envelope_pays_more(a, c),
{
    text_order(a.commitment, b.commitment, c.commitment);
}

/// No envelope pays more than the best.
pub proof fn best_envelope_pays_most(transactions: Seq<BlindedTransactionView>, n: int)
    requires
        0 <= n < transactions.len(),
    ensures
        best_envelope(transactions) matches Some(i) && !envelope_pays_more(transactions[n], transactions[i]),
    decreases transactions.len(),
{
    let earlier = transactions.drop_last();
    let t = transactions.last();
    let x = transactions[n];
    best_envelope_is_there(earlier);
    envelopes_are_ordered(t, t, t);
    if n < earlier.len() {
        best_envelope_pays_most(earlier, n);
    }
    if let Some(i) = best_envelope(earlier) {
        let best = earlier[i];
        envelopes_are_ordered(best, t, best);
        envelopes_are_ordered(x, best, t);
    }
}

/// A filled selection stays within the item limit and the byte limit of its block.
pub proof fn filled_fits(
    l: LedgerView,
    u: UtxosView,
    remaining: Seq<TransactionView>,
    envelopes: Seq<BlindedTransactionView>,
    s: BlockSelectionView,
    recovery: bool,
)
    ensures
        ({
            let r = l.filled(u, remaining, envelopes, s, recovery);
            &&& r.len() <= l.launch_profile.max_block_transactions || r == s
            &&& estimated_size(r, recovery) <= l.launch_profile.max_block_bytes || r == s
        }),
    decreases remaining.len() + envelopes.len(),
{
    let plain = best(remaining, u, WantedView::Any);
    let envelope = best_envelope(envelopes);
    if s.len() < l.launch_profile.max_block_transactions {
        if takes_envelope(remaining, plain, envelopes, envelope) {
            let k = envelope->0;
            if 0 <= k < envelopes.len() {
                filled_fits(l, u, remaining, envelopes.remove(k), s.with_envelope(envelopes[k]), recovery);
                filled_fits(l, u, remaining, envelopes.remove(k), s, recovery);
            }
        } else if let Some(i) = plain {
            if 0 <= i < remaining.len() {
                let t = remaining[i];
                filled_fits(
                    l,
                    utxo::applied(t, u).0,
                    remaining.remove(i),
                    envelopes,
                    s.with_plain(t),
                    recovery,
                );
                filled_fits(l, u, remaining.remove(i), envelopes, s, recovery);
            }
        }
    }
}

/// Whether there is room after each of some transactions for what they leave beside what is held.
pub open spec fn all_have_room(l: LedgerView, transactions: Seq<TransactionView>, u: UtxosView) -> bool
    decreases transactions.len(),
{
    transactions.len() > 0 ==> all_have_room(l, transactions.drop_last(), u) && (mempool::apply_all(
        transactions,
        u,
    ) matches Ok(v) ==> locks::room_check(v, l.locked) is Ok)
}

/// The transactions of a filled selection apply one after another, and what its envelopes name is
/// there to be locked after them.
pub proof fn filled_applies(
    l: LedgerView,
    base: UtxosView,
    u: UtxosView,
    remaining: Seq<TransactionView>,
    envelopes: Seq<BlindedTransactionView>,
    s: BlockSelectionView,
    recovery: bool,
)
    requires
        mempool::apply_all(s.transactions, base) == Ok::<UtxosView, Seq<char>>(u),
        all_have_room(l, s.transactions, base),
        l.selection_locks(u, s),
    ensures
        mempool::apply_all(l.filled(u, remaining, envelopes, s, recovery).transactions, base) matches Ok(v)
            && l.selection_locks(v, l.filled(u, remaining, envelopes, s, recovery)),
        all_have_room(l, l.filled(u, remaining, envelopes, s, recovery).transactions, base),
    decreases remaining.len() + envelopes.len(),
{
    let plain = best(remaining, u, WantedView::Any);
    let envelope = best_envelope(envelopes);
    if s.len() < l.launch_profile.max_block_transactions {
        if takes_envelope(remaining, plain, envelopes, envelope) {
            let k = envelope->0;
            if 0 <= k < envelopes.len() {
                let with = s.with_envelope(envelopes[k]);
                if l.selection_fits(u, with, recovery) {
                    filled_applies(l, base, u, remaining, envelopes.remove(k), with, recovery);
                }
                filled_applies(l, base, u, remaining, envelopes.remove(k), s, recovery);
            }
        } else if let Some(i) = plain {
            best_is_there(remaining, u, WantedView::Any);
            let t = remaining[i];
            assert(s.with_plain(t).transactions.drop_last() =~= s.transactions);
            let left = utxo::applied(t, u).0;
            if l.selection_fits(left, s.with_plain(t), recovery) {
                filled_applies(l, base, left, remaining.remove(i), envelopes, s.with_plain(t), recovery);
            }
            filled_applies(l, base, u, remaining.remove(i), envelopes, s, recovery);
        }
    }
}

/// The items chosen for a block stay within its limits, unless there is only the one burn that
/// comes first or nothing at all, its transactions apply one after another, and what its envelopes
/// name is there to be locked after them.
pub proof fn chosen_items_fit(l: LedgerView, first: WantedView, recovery: bool)
    requires
        locks::fit_together(l.utxos, l.locked),
    ensures
        ({
            let r = l.chosen_items(first, recovery);
            &&& r.len() <= l.launch_profile.max_block_transactions || r.len() <= 1
            &&& estimated_size(r, recovery) <= l.launch_profile.max_block_bytes || r == nothing()
            &&& mempool::apply_all(r.transactions, l.utxos) matches Ok(u) && l.selection_locks(u, r)
            &&& all_have_room(l, r.transactions, l.utxos)
        }),
{
    locks::room_means_fits(l.utxos, l.locked);
    let remaining = l.valid_pending();
    let envelopes = l.includable_envelopes();
    best_is_there(remaining, l.utxos, first);
    assert(mempool::apply_all(nothing().transactions, l.utxos) == Ok::<UtxosView, Seq<char>>(l.utxos));
    match best(remaining, l.utxos, first) {
        None => {
            filled_fits(l, l.utxos, remaining, envelopes, nothing(), recovery);
            filled_applies(l, l.utxos, l.utxos, remaining, envelopes, nothing(), recovery);
        },
        Some(i) => {
            let t = remaining[i];
            let with = nothing().with_plain(t);
            let u = utxo::applied(t, l.utxos).0;
            assert(with.transactions.drop_last() =~= nothing().transactions);
            assert(with.len() == 1);
            assert(mempool::apply_all(with.transactions, l.utxos) == Ok::<UtxosView, Seq<char>>(u));
            if l.selection_fits(u, with, recovery) {
                assert(all_have_room(l, with.transactions.drop_last(), l.utxos));
                assert(all_have_room(l, with.transactions, l.utxos));
            }
            filled_fits(l, u, remaining.remove(i), envelopes, with, recovery);
            if l.selection_fits(u, with, recovery) {
                filled_applies(l, l.utxos, u, remaining.remove(i), envelopes, with, recovery);
            }
            filled_fits(l, l.utxos, remaining.remove(i), envelopes, nothing(), recovery);
            filled_applies(l, l.utxos, l.utxos, remaining.remove(i), envelopes, nothing(), recovery);
        },
    }
}

fn wants(wanted: &Wanted, transaction: &Transaction) -> (r: bool)
    ensures
        r == is_wanted(wanted.deep_view(), transaction.deep_view()),
{
    match wanted {
        Wanted::Any => true,
        Wanted::Burn => transaction.is_burn(),
        Wanted::BurnFrom(owner) => transaction.is_burn() && text::text_eq(transaction.sender(), owner.as_str()),
        Wanted::BurnSigned(signature) => transaction.is_burn() && text::text_eq(
            transaction.signature(),
            signature.as_str(),
        ),
    }
}

fn pays_more_than(a: &Transaction, b: &Transaction) -> (r: bool)
    ensures
        r == pays_more(a.deep_view(), b.deep_view()),
{
    let x: u128 = a.fee_rate_key();
    let y: u128 = b.fee_rate_key();
    if x != y {
        return x > y;
    }
    if a.fee() != b.fee() {
        return a.fee() > b.fee();
    }
    if a.is_burn() != b.is_burn() {
        return a.is_burn();
    }
    text::text_precedes(a.signature(), b.signature())
}

fn best_selectable_transaction_index(transactions: &Vec<Transaction>, utxos: &Utxos, wanted: &Wanted) -> (r: Option<
    usize,
>)
    requires
        utxos.wf(),
        utxo::all_signed(transactions.deep_view()),
    ensures
        match r {
            Some(i) => best(transactions.deep_view(), utxos.deep_view(), wanted.deep_view()) == Some(i as int) && i
                < transactions.len() && utxo::applies(transactions.deep_view()[i as int], utxos.deep_view()),
            None => best(transactions.deep_view(), utxos.deep_view(), wanted.deep_view()) is None,
        },
{
    let ghost v = transactions.deep_view();
    let ghost u = utxos.deep_view();
    let mut found: Option<usize> = None;
    let mut i: usize = 0;
    proof {
        model::take_all(v);
    }
    while i < transactions.len()
        invariant
            i <= transactions.len(),
            v == transactions.deep_view(),
            u == utxos.deep_view(),
            utxos.wf(),
            utxo::all_signed(v),
            match found {
                Some(k) => best(v.take(i as int), u, wanted.deep_view()) == Some(k as int) && k < i,
                None => best(v.take(i as int), u, wanted.deep_view()) is None,
            },
        decreases transactions.len() - i,
    {
        proof {
            assert(v.take(i + 1).drop_last() =~= v.take(i as int));
            assert(v.take(i + 1).last() == v[i as int]);
        }
        assert(v[i as int].signature_check() is Ok) by {
            reveal(utxo::all_signed);
        }
        if wants(wanted, &transactions[i]) && utxo::transaction_applies(&transactions[i], utxos) {
            found = match found {
                Some(k) => if pays_more_than(&transactions[k], &transactions[i]) {
                    Some(k)
                } else {
                    Some(i)
                },
                None => Some(i),
            };
        }
        i = i + 1;
    }
    proof {
        model::take_all(v);
        best_is_there(v, u, wanted.deep_view());
    }
    found
}

fn blinded_fee_rate_key(transaction: &BlindedTransaction) -> (r: u128)
    ensures
        r == envelope_rate(transaction.deep_view()),
{
    let size: usize = transaction.fee_rate_size_bytes();
    if size == 0 {
        return 0;
    }
    transaction.fee as u128 * 1_000_000 / size as u128
}

fn envelope_pays_more_than(a: &BlindedTransaction, b: &BlindedTransaction) -> (r: bool)
    ensures
        r == envelope_pays_more(a.deep_view(), b.deep_view()),
{
    let x: u128 = blinded_fee_rate_key(a);
    let y: u128 = blinded_fee_rate_key(b);
    if x != y {
        return x > y;
    }
    if a.fee != b.fee {
        return a.fee > b.fee;
    }
    text::text_precedes(a.commitment.as_str(), b.commitment.as_str())
}

fn best_selectable_blinded_index(transactions: &Vec<BlindedTransaction>) -> (r: Option<usize>)
    ensures
        match r {
            Some(i) => best_envelope(transactions.deep_view()) == Some(i as int) && i < transactions.len(),
            None => best_envelope(transactions.deep_view()) is None,
        },
{
    let ghost v = transactions.deep_view();
    let mut found: Option<usize> = None;
    let mut i: usize = 0;
    proof {
        model::take_all(v);
    }
    while i < transactions.len()
        invariant
            i <= transactions.len(),
            v == transactions.deep_view(),
            match found {
                Some(k) => best_envelope(v.take(i as int)) == Some(k as int) && k < i,
                None => best_envelope(v.take(i as int)) is None,
            },
        decreases transactions.len() - i,
    {
        proof {
            assert(v.take(i + 1).drop_last() =~= v.take(i as int));
            assert(v.take(i + 1).last() == v[i as int]);
        }
        found = match found {
            Some(k) => if envelope_pays_more_than(&transactions[k], &transactions[i]) {
                Some(k)
            } else {
                Some(i)
            },
            None => Some(i),
        };
        i = i + 1;
    }
    proof {
        model::take_all(v);
    }
    found
}

pub fn estimated_block_selection_size_bytes(selection: &BlockSelection, recovery: bool) -> (r: usize)
    ensures
        r == estimated_size(selection.deep_view(), recovery),
{
    proof {
        reveal_strlit("f");
        assert("f"@ =~= seq!['f']);
    }
    let leader_proof = if recovery {
        None
    } else {
        Some(
            LeaderProof {
                ticket_id: text::repeat("f", 64),
                public_key: text::repeat("f", 64),
                signature: text::repeat("f", 128),
            },
        )
    };
    let block = Block {
        height: u64::MAX,
        prev_hash: text::repeat("f", 64),
        timestamp_ms: u64::MAX,
        miner: text::repeat("f", 64),
        finalizer_mode: if recovery {
            FinalizerMode::Recovery
        } else {
            FinalizerMode::Ticket
        },
        finalizer_rank: 0,
        reward: u64::MAX,
        vdf_rounds: u64::MAX,
        vdf_output: text::repeat("f", 64),
        leader_proof,
        blinded_transactions: selection.blinded_transactions.duplicate(),
        reveal_bundles: Vec::new(),
        transactions: selection.transactions.duplicate(),
        hash: text::repeat("f", 64),
    };
    assert(block.reveal_bundles.deep_view() =~= Seq::<RevealBundleView>::empty());
    assert(block.deep_view() == widest_block(selection.deep_view(), recovery));
    match block.serialized_size_bytes() {
        Ok(size) => size,
        Err(_) => usize::MAX,
    }
}

impl BlockSelection {
    fn duplicate_with_plain(&self, t: &Transaction) -> (r: BlockSelection)
        ensures
            r.deep_view() == self.deep_view().with_plain(t.deep_view()),
    {
        broadcast use model::group_views;

        let mut transactions = self.transactions.duplicate();
        let ghost before = transactions.deep_view();
        transactions.push(t.duplicate());
        assert(transactions.deep_view() == before.push(t.deep_view()));
        BlockSelection { transactions, blinded_transactions: self.blinded_transactions.duplicate() }
    }

    fn duplicate_with_envelope(&self, t: &BlindedTransaction) -> (r: BlockSelection)
        ensures
            r.deep_view() == self.deep_view().with_envelope(t.deep_view()),
    {
        broadcast use model::group_views;

        let mut blinded_transactions = self.blinded_transactions.duplicate();
        let ghost before = blinded_transactions.deep_view();
        blinded_transactions.push(t.duplicate());
        assert(blinded_transactions.deep_view() == before.push(t.deep_view()));
        BlockSelection { transactions: self.transactions.duplicate(), blinded_transactions }
    }

    fn count(&self) -> (r: u128)
        ensures
            r == self.deep_view().len(),
    {
        self.transactions.len() as u128 + self.blinded_transactions.len() as u128
    }
}

impl Ledger {
    /// Whether a selection that leaves these outputs fits its block.
    fn fits_block(&self, utxos: &Utxos, selection: &BlockSelection, recovery: bool) -> (r: bool)
        requires
            self.wf(),
            utxos.wf(),
            utxo::balances_fit(utxos.deep_view()),
        ensures
            r == self.deep_view().selection_fits(utxos.deep_view(), selection.deep_view(), recovery),
    {
        if estimated_block_selection_size_bytes(selection, recovery) > self.launch_profile.max_block_bytes {
            return false;
        }
        if locks::ensure_room(utxos, &self.locked).is_err() {
            return false;
        }
        let mut free = utxos.duplicate();
        let mut locked = self.locked.duplicate();
        proof {
            utxos.wf_is_increasing();
            self.locked.wf_is_increasing();
            free.wf_is_increasing();
            locked.wf_is_increasing();
        }
        match locks::lock_envelopes(&selection.blinded_transactions, &mut free, &mut locked) {
            Ok(_) => true,
            Err(_) => false,
        }
    }

    /// Fills a selection with the best items that fit, one at a time.
    fn fill_selection(
        &self,
        utxos: Utxos,
        remaining: Vec<Transaction>,
        remaining_blinded: Vec<BlindedTransaction>,
        selection: BlockSelection,
        recovery: bool,
    ) -> (r: BlockSelection)
        requires
            self.wf(),
            utxos.wf(),
            utxo::balances_fit(utxos.deep_view()),
            utxo::all_signed(remaining.deep_view()),
        ensures
            r.deep_view() == self.deep_view().filled(
                utxos.deep_view(),
                remaining.deep_view(),
                remaining_blinded.deep_view(),
                selection.deep_view(),
                recovery,
            ),
    {
        broadcast use model::group_views;

        let ghost l = self.deep_view();
        let ghost goal = l.filled(
            utxos.deep_view(),
            remaining.deep_view(),
            remaining_blinded.deep_view(),
            selection.deep_view(),
            recovery,
        );
        let mut now = utxos;
        let mut rest = remaining;
        let mut envelopes = remaining_blinded;
        let mut chosen = selection;
        let any = Wanted::Any;
        while chosen.count() < self.launch_profile.max_block_transactions as u128
            invariant_except_break
                self.wf(),
                l == self.deep_view(),
                now.wf(),
                utxo::balances_fit(now.deep_view()),
                utxo::all_signed(rest.deep_view()),
                any == Wanted::Any,
                goal == l.filled(
                    now.deep_view(),
                    rest.deep_view(),
                    envelopes.deep_view(),
                    chosen.deep_view(),
                    recovery,
                ),
            ensures
                goal == chosen.deep_view(),
            decreases rest.len() + envelopes.len(),
        {
            let plain = best_selectable_transaction_index(&rest, &now, &any);
            let envelope = best_selectable_blinded_index(&envelopes);
            let takes = match (plain, envelope) {
                (Some(i), Some(k)) => blinded_fee_rate_key(&envelopes[k]) > rest[i].fee_rate_key(),
                (None, Some(_)) => true,
                _ => false,
            };
            assert(takes == takes_envelope(
                rest.deep_view(),
                best(rest.deep_view(), now.deep_view(), WantedView::Any),
                envelopes.deep_view(),
                best_envelope(envelopes.deep_view()),
            ));
            if takes {
                if let Some(k) = envelope {
                    let ghost before = envelopes.deep_view();
                    let item = envelopes.remove(k);
                    assert(item.deep_view() == before[k as int]);
                    assert(envelopes.deep_view() =~= before.remove(k as int));
                    let candidate = chosen.duplicate_with_envelope(&item);
                    if self.fits_block(&now, &candidate, recovery) {
                        chosen = candidate;
                    }
                }
            } else if let Some(i) = plain {
                let ghost before = rest.deep_view();
                let item = rest.remove(i);
                assert(item.deep_view() == before[i as int]);
                proof {
                    utxo::signed_remove(before, i as int);
                }
                assert(rest.deep_view() =~= before.remove(i as int));
                let candidate = chosen.duplicate_with_plain(&item);
                let mut left = now.duplicate();
                proof {
                    now.wf_is_increasing();
                    left.wf_is_increasing();
                }
                proof {
                    utxo::applying_keeps_balances_fitting(item.deep_view(), now.deep_view());
                }
                let applied = utxo::apply_signed_transaction(&item, &mut left);
                assert(applied is Ok);
                if self.fits_block(&left, &candidate, recovery) {
                    now = left;
                    chosen = candidate;
                }
            } else {
                break;
            }
        }
        chosen
    }

    /// The items for the next block; in a recovery block the first burn is the finalizer's own.
    fn select_with_first(&self, first: Wanted, recovery: bool) -> (r: BlockSelection)
        requires
            self.wf(),
        ensures
            r.deep_view() == self.deep_view().chosen_items(first.deep_view(), recovery),
    {
        broadcast use model::group_views;

        let mut utxos = self.utxos.duplicate();
        proof {
            self.utxos.wf_is_increasing();
            utxos.wf_is_increasing();
        }
        let mut remaining = self.valid_pending_transactions();
        let envelopes = self.valid_pending_blinded_transactions();
        let mut selection = BlockSelection { transactions: Vec::new(), blinded_transactions: Vec::new() };
        proof {
            let l = self.deep_view();
            assert(selection.deep_view() =~= nothing());
            assert(envelopes.deep_view() == l.includable_envelopes());
        }
        if let Some(i) = best_selectable_transaction_index(&remaining, &utxos, &first) {
            let ghost before = remaining.deep_view();
            let item = remaining.remove(i);
            assert(item.deep_view() == before[i as int]);
            proof {
                utxo::signed_remove(before, i as int);
            }
            assert(remaining.deep_view() =~= before.remove(i as int));
            let candidate = selection.duplicate_with_plain(&item);
            let mut left = utxos.duplicate();
            proof {
                left.wf_is_increasing();
                utxo::applying_keeps_balances_fitting(item.deep_view(), utxos.deep_view());
            }
            let applied = utxo::apply_signed_transaction(&item, &mut left);
            assert(applied is Ok);
            if self.fits_block(&left, &candidate, recovery) {
                utxos = left;
                selection = candidate;
            }
        }
        self.fill_selection(utxos, remaining, envelopes, selection, recovery)
    }

    /// The items for the next block of a ticket holder; a required burn comes first.
    pub fn select_block_transactions(&self, required_burn: Option<&str>) -> (r: BlockSelection)
        requires
            self.wf(),
        ensures
            r.deep_view() == self.deep_view().chosen_items(
                first_burn(required_burn.deep_view(), WantedView::Burn),
                false,
            ),
    {
        match required_burn {
            Some(signature) => self.select_with_first(Wanted::BurnSigned(text::text(signature)), false),
            None => self.select_with_first(Wanted::Burn, false),
        }
    }

    /// The items for a recovery block; a required burn comes first.
    pub fn select_recovery_block_transactions(&self, miner: &str, required_burn: Option<&str>) -> (r: BlockSelection)
        requires
            self.wf(),
        ensures
            r.deep_view() == self.deep_view().chosen_items(
                first_burn(required_burn.deep_view(), WantedView::BurnFrom(miner@)),
                true,
            ),
    {
        match required_burn {
            Some(signature) => self.select_with_first(Wanted::BurnSigned(text::text(signature)), true),
            None => self.select_with_first(Wanted::BurnFrom(text::text(miner)), true),
        }
    }
}

/// What the first burn of a block must be: the required one, if there is one.
pub open spec fn first_burn(required: Option<Seq<char>>, otherwise: WantedView) -> WantedView {
    match required {
        Some(signature) => WantedView::BurnSigned(signature),
        None => otherwise,
    }
}

/// A transaction pays more than another with the higher fee for its size; where both pay the same
/// rate, with the higher fee; then as a burn; then with the signature that comes first. Two that stand
/// equal have the same signature.
pub proof fn what_pays_more(a: TransactionView, b: TransactionView)
    ensures
        a.fee_rate() > b.fee_rate() ==> pays_more(a, b) && !pays_more(b, a),
        a.fee_rate() == b.fee_rate() && a.fee() > b.fee() ==> pays_more(a, b) && !pays_more(b, a),
        a.fee_rate() == b.fee_rate() && a.fee() == b.fee() && a is Burn && !(b is Burn) ==> pays_more(a, b) && !pays_more(
            b,
            a,
        ),
        a.fee_rate() == b.fee_rate() && a.fee() == b.fee() && (a is Burn) == (b is Burn) ==> (pays_more(a, b)
            <==> text::text_before(a.signature(), b.signature())),
        !pays_more(a, b) && !pays_more(b, a) ==> a.fee_rate() == b.fee_rate() && a.fee() == b.fee() && a.signature()
            == b.signature(),
        a.economic_size() > 0 ==> a.fee_rate() * a.economic_size() <= a.fee() * 1_000_000 < (a.fee_rate() + 1)
            * a.economic_size(),
{
    paying_more_is_an_order(a, b, a);
    text::bytes_before_total(encode_utf8(a.signature()), encode_utf8(b.signature()));
    text::encoding_injective(a.signature(), b.signature());
    let n = a.fee() as nat * 1_000_000;
    let d = a.economic_size();
    if d > 0 {
        assert((n / d) * d <= n < (n / d + 1) * d) by (nonlinear_arith)
            requires
                d > 0,
        ;
    }
}

/// An envelope pays more than another with the higher fee for its size; where both pay the same rate,
/// with the higher fee; then with the commitment that comes first.
pub proof fn what_envelope_pays_more(a: BlindedTransactionView, b: BlindedTransactionView)
    ensures
        envelope_rate(a) > envelope_rate(b) ==> envelope_pays_more(a, b) && !envelope_pays_more(b, a),
        envelope_rate(a) == envelope_rate(b) && a.fee > b.fee ==> envelope_pays_more(a, b) && !envelope_pays_more(b, a),
        envelope_rate(a) == envelope_rate(b) && a.fee == b.fee ==> (envelope_pays_more(a, b) <==> text::text_before(
            a.commitment,
            b.commitment,
        )),
        document::size_of(document::blinded_doc(a)) > 0 ==> envelope_rate(a) * document::size_of(document::blinded_doc(a))
            <= a.fee * 1_000_000 < (envelope_rate(a) + 1) * document::size_of(document::blinded_doc(a)),
{
    text_order(a.commitment, b.commitment, a.commitment);
    let n = a.fee as nat * 1_000_000;
    let d = document::size_of(document::blinded_doc(a));
    if d > 0 {
        assert((n / d) * d <= n < (n / d + 1) * d) by (nonlinear_arith)
            requires
                d > 0,
        ;
    }
}

/// The first items of a selection.
pub open spec fn first_items(r: BlockSelectionView, n: int, m: int) -> BlockSelectionView {
    BlockSelectionView {
        transactions: r.transactions.take(n),
        blinded_transactions: r.blinded_transactions.take(m),
    }
}

/// Whether an envelope did not fit once some items were chosen.
pub open spec fn envelope_did_not_fit(
    l: LedgerView,
    base: UtxosView,
    r: BlockSelectionView,
    e: BlindedTransactionView,
    recovery: bool,
    n: int,
    m: int,
) -> bool {
    &&& 0 <= n <= r.transactions.len()
    &&& 0 <= m <= r.blinded_transactions.len()
    &&& mempool::apply_all(r.transactions.take(n), base) matches Ok(v) && !l.selection_fits(
        v,
        first_items(r, n, m).with_envelope(e),
        recovery,
    )
}

/// Whether a transaction did not fit once some items were chosen.
pub open spec fn transaction_did_not_fit(
    l: LedgerView,
    base: UtxosView,
    r: BlockSelectionView,
    t: TransactionView,
    recovery: bool,
    n: int,
    m: int,
) -> bool {
    &&& 0 <= n <= r.transactions.len()
    &&& 0 <= m <= r.blinded_transactions.len()
    &&& mempool::apply_all(r.transactions.take(n), base) matches Ok(v) && !l.selection_fits(
        utxo::applied(t, v).0,
        first_items(r, n, m).with_plain(t),
        recovery,
    )
}

/// Whether a selection starts with the items of another.
#[verifier::opaque]
pub open spec fn starts_with_items(r: BlockSelectionView, s: BlockSelectionView) -> bool {
    &&& s.transactions.len() <= r.transactions.len()
    &&& s.blinded_transactions.len() <= r.blinded_transactions.len()
    &&& first_items(r, s.transactions.len() as int, s.blinded_transactions.len() as int) == s
}

proof fn starts_with_itself(s: BlockSelectionView)
    ensures
        starts_with_items(s, s),
{
    reveal(starts_with_items);
    assert(s.transactions.take(s.transactions.len() as int) =~= s.transactions);
    assert(s.blinded_transactions.take(s.blinded_transactions.len() as int) =~= s.blinded_transactions);
}

proof fn starts_with_fewer(r: BlockSelectionView, s: BlockSelectionView, t: TransactionView, e: BlindedTransactionView)
    ensures
        starts_with_items(r, s.with_plain(t)) ==> starts_with_items(r, s),
        starts_with_items(r, s.with_envelope(e)) ==> starts_with_items(r, s),
{
    reveal(starts_with_items);
    let a = s.with_plain(t);
    let b = s.with_envelope(e);
    assert(a.transactions.take(s.transactions.len() as int) =~= s.transactions);
    assert(b.blinded_transactions.take(s.blinded_transactions.len() as int) =~= s.blinded_transactions);
    assert(s.transactions.take(s.transactions.len() as int) =~= s.transactions);
    assert(s.blinded_transactions.take(s.blinded_transactions.len() as int) =~= s.blinded_transactions);
    if starts_with_items(r, a) {
        shorter_start(r, a, s);
    }
    if starts_with_items(r, b) {
        shorter_start(r, b, s);
    }
}

proof fn filling_starts_with(
    l: LedgerView,
    u: UtxosView,
    remaining: Seq<TransactionView>,
    envelopes: Seq<BlindedTransactionView>,
    s: BlockSelectionView,
    recovery: bool,
)
    ensures
        starts_with_items(l.filled(u, remaining, envelopes, s, recovery), s),
    decreases remaining.len() + envelopes.len(),
{
    let plain = best(remaining, u, WantedView::Any);
    let envelope = best_envelope(envelopes);
    let r = l.filled(u, remaining, envelopes, s, recovery);
    starts_with_itself(s);
    if s.len() < l.launch_profile.max_block_transactions {
        if takes_envelope(remaining, plain, envelopes, envelope) {
            let k = envelope->0;
            if 0 <= k < envelopes.len() {
                let with = s.with_envelope(envelopes[k]);
                if l.selection_fits(u, with, recovery) {
                    filling_starts_with(l, u, remaining, envelopes.remove(k), with, recovery);
                    starts_with_fewer(r, s, arbitrary(), envelopes[k]);
                } else {
                    filling_starts_with(l, u, remaining, envelopes.remove(k), s, recovery);
                }
            }
        } else if let Some(i) = plain {
            if 0 <= i < remaining.len() {
                let t = remaining[i];
                let left = utxo::applied(t, u).0;
                if l.selection_fits(left, s.with_plain(t), recovery) {
                    filling_starts_with(l, left, remaining.remove(i), envelopes, s.with_plain(t), recovery);
                    starts_with_fewer(r, s, t, arbitrary());
                } else {
                    filling_starts_with(l, u, remaining.remove(i), envelopes, s, recovery);
                }
            }
        }
    }
}

proof fn filling_adds_to_the_end(
    l: LedgerView,
    u: UtxosView,
    remaining: Seq<TransactionView>,
    envelopes: Seq<BlindedTransactionView>,
    s: BlockSelectionView,
    recovery: bool,
)
    ensures
        ({
            let r = l.filled(u, remaining, envelopes, s, recovery);
            &&& s.transactions.len() <= r.transactions.len()
            &&& s.blinded_transactions.len() <= r.blinded_transactions.len()
            &&& first_items(r, s.transactions.len() as int, s.blinded_transactions.len() as int) == s
        }),
{
    reveal(starts_with_items);
    filling_starts_with(l, u, remaining, envelopes, s, recovery);
}

proof fn shorter_start(r: BlockSelectionView, with: BlockSelectionView, s: BlockSelectionView)
    requires
        with.transactions.len() <= r.transactions.len(),
        with.blinded_transactions.len() <= r.blinded_transactions.len(),
        first_items(r, with.transactions.len() as int, with.blinded_transactions.len() as int) == with,
        s.transactions.len() <= with.transactions.len(),
        s.blinded_transactions.len() <= with.blinded_transactions.len(),
        with.transactions.take(s.transactions.len() as int) == s.transactions,
        with.blinded_transactions.take(s.blinded_transactions.len() as int) == s.blinded_transactions,
    ensures
        first_items(r, s.transactions.len() as int, s.blinded_transactions.len() as int) == s,
{
    let n = s.transactions.len() as int;
    let m = s.blinded_transactions.len() as int;
    assert(r.transactions.take(with.transactions.len() as int).take(n) =~= r.transactions.take(n));
    assert(r.blinded_transactions.take(with.blinded_transactions.len() as int).take(m) =~= r.blinded_transactions.take(m));
}

proof fn applied_one_more(s: BlockSelectionView, t: TransactionView, base: UtxosView, u: UtxosView)
    requires
        mempool::apply_all(s.transactions, base) == Ok::<UtxosView, Seq<char>>(u),
        utxo::applies(t, u),
    ensures
        mempool::apply_all(s.with_plain(t).transactions, base) == Ok::<UtxosView, Seq<char>>(utxo::applied(t, u).0),
{
    assert(s.with_plain(t).transactions.drop_last() =~= s.transactions);
    assert(s.with_plain(t).transactions.last() == t);
}

proof fn still_among<T>(s: Seq<T>, i: int, k: int) -> (j: int)
    requires
        0 <= i < s.len(),
        0 <= k < s.len(),
        k != i,
    ensures
        0 <= j < s.remove(i).len(),
        s.remove(i)[j] == s[k],
{
    if k < i {
        k
    } else {
        k - 1
    }
}

/// Filling a selection leaves an envelope out only where the selection is full, or where the envelope
/// did not fit when its turn came.
pub proof fn left_out_envelope_did_not_fit(
    l: LedgerView,
    base: UtxosView,
    u: UtxosView,
    remaining: Seq<TransactionView>,
    envelopes: Seq<BlindedTransactionView>,
    s: BlockSelectionView,
    recovery: bool,
    k: int,
)
    requires
        mempool::apply_all(s.transactions, base) == Ok::<UtxosView, Seq<char>>(u),
        0 <= k < envelopes.len(),
    ensures
        ({
            let r = l.filled(u, remaining, envelopes, s, recovery);
            ||| r.len() >= l.launch_profile.max_block_transactions
            ||| r.blinded_transactions.contains(envelopes[k])
            ||| exists|n: int, m: int| #[trigger] envelope_did_not_fit(l, base, r, envelopes[k], recovery, n, m)
        }),
    decreases remaining.len() + envelopes.len(),
{
    let plain = best(remaining, u, WantedView::Any);
    let envelope = best_envelope(envelopes);
    let r = l.filled(u, remaining, envelopes, s, recovery);
    best_is_there(remaining, u, WantedView::Any);
    best_envelope_is_there(envelopes);
    if s.len() < l.launch_profile.max_block_transactions {
        filling_adds_to_the_end(l, u, remaining, envelopes, s, recovery);
        if takes_envelope(remaining, plain, envelopes, envelope) {
            let i = envelope->0;
            let e = envelopes[i];
            let with = s.with_envelope(e);
            let fits = l.selection_fits(u, with, recovery);
            if k == i {
                if fits {
                    filling_adds_to_the_end(l, u, remaining, envelopes.remove(i), with, recovery);
                    let m = s.blinded_transactions.len() as int;
                    assert(with.blinded_transactions[m] == e);
                    assert(r.blinded_transactions.take(m + 1)[m] == r.blinded_transactions[m]);
                    assert(r.blinded_transactions[m] == e);
                } else {
                    assert(envelope_did_not_fit(
                        l,
                        base,
                        r,
                        e,
                        recovery,
                        s.transactions.len() as int,
                        s.blinded_transactions.len() as int,
                    ));
                }
            } else {
                let j = still_among(envelopes, i, k);
                if fits {
                    left_out_envelope_did_not_fit(l, base, u, remaining, envelopes.remove(i), with, recovery, j);
                } else {
                    left_out_envelope_did_not_fit(l, base, u, remaining, envelopes.remove(i), s, recovery, j);
                }
            }
        } else {
            let i = plain->0;
            let t = remaining[i];
            let left = utxo::applied(t, u).0;
            applied_one_more(s, t, base, u);
            if l.selection_fits(left, s.with_plain(t), recovery) {
                left_out_envelope_did_not_fit(l, base, left, remaining.remove(i), envelopes, s.with_plain(t), recovery, k);
            } else {
                left_out_envelope_did_not_fit(l, base, u, remaining.remove(i), envelopes, s, recovery, k);
            }
        }
    }
}

/// Filling a selection leaves a transaction out only where the selection is full, where the
/// transaction did not fit when its turn came, or where it does not apply once all that was chosen did.
pub proof fn left_out_transaction_did_not_fit(
    l: LedgerView,
    base: UtxosView,
    u: UtxosView,
    remaining: Seq<TransactionView>,
    envelopes: Seq<BlindedTransactionView>,
    s: BlockSelectionView,
    recovery: bool,
    k: int,
)
    requires
        mempool::apply_all(s.transactions, base) == Ok::<UtxosView, Seq<char>>(u),
        0 <= k < remaining.len(),
    ensures
        ({
            let r = l.filled(u, remaining, envelopes, s, recovery);
            ||| r.len() >= l.launch_profile.max_block_transactions
            ||| r.transactions.contains(remaining[k])
            ||| mempool::apply_all(r.transactions, base) matches Ok(v) && !utxo::applies(remaining[k], v)
            ||| exists|n: int, m: int| #[trigger] transaction_did_not_fit(l, base, r, remaining[k], recovery, n, m)
        }),
    decreases remaining.len() + envelopes.len(),
{
    let plain = best(remaining, u, WantedView::Any);
    let envelope = best_envelope(envelopes);
    let r = l.filled(u, remaining, envelopes, s, recovery);
    best_is_there(remaining, u, WantedView::Any);
    best_envelope_is_there(envelopes);
    if s.len() < l.launch_profile.max_block_transactions {
        filling_adds_to_the_end(l, u, remaining, envelopes, s, recovery);
        if takes_envelope(remaining, plain, envelopes, envelope) {
            let i = envelope->0;
            let with = s.with_envelope(envelopes[i]);
            if l.selection_fits(u, with, recovery) {
                left_out_transaction_did_not_fit(l, base, u, remaining, envelopes.remove(i), with, recovery, k);
            } else {
                left_out_transaction_did_not_fit(l, base, u, remaining, envelopes.remove(i), s, recovery, k);
            }
        } else if let Some(i) = plain {
            let t = remaining[i];
            let left = utxo::applied(t, u).0;
            let with = s.with_plain(t);
            let fits = l.selection_fits(left, with, recovery);
            applied_one_more(s, t, base, u);
            if k == i {
                if fits {
                    filling_adds_to_the_end(l, left, remaining.remove(i), envelopes, with, recovery);
                    let n = s.transactions.len() as int;
                    assert(with.transactions[n] == t);
                    assert(r.transactions.take(n + 1)[n] == r.transactions[n]);
                    assert(r.transactions[n] == t);
                } else {
                    assert(transaction_did_not_fit(
                        l,
                        base,
                        r,
                        t,
                        recovery,
                        s.transactions.len() as int,
                        s.blinded_transactions.len() as int,
                    ));
                }
            } else {
                let j = still_among(remaining, i, k);
                if fits {
                    left_out_transaction_did_not_fit(l, base, left, remaining.remove(i), envelopes, with, recovery, j);
                } else {
                    left_out_transaction_did_not_fit(l, base, u, remaining.remove(i), envelopes, s, recovery, j);
                }
            }
        } else {
            if utxo::applies(remaining[k], u) {
                best_pays_most(remaining, u, WantedView::Any, k);
            }
        }
    }
}

/// Each transaction that filling a selection adds pays the most of those that then apply: one that
/// pays more was chosen before it, or did not fit.
pub proof fn chosen_transaction_pays_the_most(
    l: LedgerView,
    base: UtxosView,
    u: UtxosView,
    remaining: Seq<TransactionView>,
    envelopes: Seq<BlindedTransactionView>,
    s: BlockSelectionView,
    recovery: bool,
    k: int,
    n: int,
    v: UtxosView,
)
    requires
        mempool::apply_all(s.transactions, base) == Ok::<UtxosView, Seq<char>>(u),
        0 <= k < remaining.len(),
        s.transactions.len() <= n < l.filled(u, remaining, envelopes, s, recovery).transactions.len(),
        mempool::apply_all(l.filled(u, remaining, envelopes, s, recovery).transactions.take(n), base) == Ok::<
            UtxosView,
            Seq<char>,
        >(v),
        utxo::applies(remaining[k], v),
        pays_more(remaining[k], l.filled(u, remaining, envelopes, s, recovery).transactions[n]),
    ensures
        ({
            let r = l.filled(u, remaining, envelopes, s, recovery);
            ||| r.transactions.take(n).contains(remaining[k])
            ||| exists|i: int, m: int| i <= n && #[trigger] transaction_did_not_fit(l, base, r, remaining[k], recovery, i, m)
        }),
    decreases remaining.len() + envelopes.len(),
{
    let plain = best(remaining, u, WantedView::Any);
    let envelope = best_envelope(envelopes);
    let r = l.filled(u, remaining, envelopes, s, recovery);
    let at = s.transactions.len() as int;
    best_is_there(remaining, u, WantedView::Any);
    best_envelope_is_there(envelopes);
    if s.len() < l.launch_profile.max_block_transactions {
        filling_adds_to_the_end(l, u, remaining, envelopes, s, recovery);
        if takes_envelope(remaining, plain, envelopes, envelope) {
            let i = envelope->0;
            let with = s.with_envelope(envelopes[i]);
            if l.selection_fits(u, with, recovery) {
                chosen_transaction_pays_the_most(l, base, u, remaining, envelopes.remove(i), with, recovery, k, n, v);
            } else {
                chosen_transaction_pays_the_most(l, base, u, remaining, envelopes.remove(i), s, recovery, k, n, v);
            }
        } else if let Some(i) = plain {
            let t = remaining[i];
            let left = utxo::applied(t, u).0;
            let with = s.with_plain(t);
            let fits = l.selection_fits(left, with, recovery);
            applied_one_more(s, t, base, u);
            if fits {
                filling_adds_to_the_end(l, left, remaining.remove(i), envelopes, with, recovery);
                assert(with.transactions[at] == t);
                assert(r.transactions.take(at + 1)[at] == r.transactions[at]);
                assert(r.transactions[at] == t);
                if n == at {
                    assert(r.transactions.take(n) == s.transactions);
                    assert(u == v);
                    best_pays_most(remaining, u, WantedView::Any, k);
                } else if k == i {
                    assert(r.transactions.take(n)[at] == t);
                } else {
                    let j = still_among(remaining, i, k);
                    chosen_transaction_pays_the_most(l, base, left, remaining.remove(i), envelopes, with, recovery, j, n, v);
                }
            } else if k == i {
                assert(transaction_did_not_fit(l, base, r, t, recovery, at, s.blinded_transactions.len() as int));
            } else {
                let j = still_among(remaining, i, k);
                chosen_transaction_pays_the_most(l, base, u, remaining.remove(i), envelopes, s, recovery, j, n, v);
            }
        }
    }
}

/// Of a transaction and an envelope the envelope comes first only where it pays the higher rate.
pub proof fn higher_rate_comes_first(
    remaining: Seq<TransactionView>,
    i: int,
    envelopes: Seq<BlindedTransactionView>,
    k: int,
)
    ensures
        takes_envelope(remaining, Some(i), envelopes, Some(k)) <==> envelope_rate(envelopes[k]) > remaining[i].fee_rate(),
        takes_envelope(remaining, None, envelopes, Some(k)),
        !takes_envelope(remaining, Some(i), envelopes, None),
        !takes_envelope(remaining, None, envelopes, None),
{
}

/// The block starts with the best paying transaction of the wanted kind that applies, if it fits.
pub proof fn wanted_transaction_comes_first(l: LedgerView, first: WantedView, recovery: bool, k: int)
    requires
        0 <= k < l.valid_pending().len(),
        is_wanted(first, l.valid_pending()[k]),
        utxo::applies(l.valid_pending()[k], l.utxos),
        forall|t: TransactionView|
            #[trigger] l.valid_pending().contains(t) ==> l.selection_fits(
                utxo::applied(t, l.utxos).0,
                nothing().with_plain(t),
                recovery,
            ),
    ensures
        ({
            let r = l.chosen_items(first, recovery).transactions;
            &&& r.len() > 0
            &&& is_wanted(first, r[0])
            &&& !pays_more(l.valid_pending()[k], r[0])
        }),
{
    let remaining = l.valid_pending();
    best_pays_most(remaining, l.utxos, first, k);
    best_is_there(remaining, l.utxos, first);
    let i = best(remaining, l.utxos, first)->0;
    let t = remaining[i];
    let with = nothing().with_plain(t);
    assert(remaining.contains(t));
    filling_adds_to_the_end(
        l,
        utxo::applied(t, l.utxos).0,
        remaining.remove(i),
        l.includable_envelopes(),
        with,
        recovery,
    );
    let r = l.chosen_items(first, recovery).transactions;
    assert(r.take(1)[0] == r[0]);
    assert(with.transactions[0] == t);
}

} // verus!
