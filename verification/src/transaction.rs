//! Transactions over unspent outputs: their texts, sizes and signatures.
use crate::crypto;
use crate::error;
use crate::error::Error;
use crate::hex;
use crate::model;
use crate::model::Model;
use crate::sorted::Ordered;
use crate::stratum;
use crate::text;
use crate::wallet;
use crate::wallet::Wallet;
use vstd::arithmetic::power::*;
use vstd::prelude::*;
use vstd::string::*;
use vstd::utf8::*;

verus! {

pub type Amount = u64;

pub const MICRO_IUNA: Amount = 1_000_000;

pub const BLOCK_REWARD: Amount = 100_000_000;

pub const MINE_REWARD: Amount = MICRO_IUNA;

pub const MINE_FINALIZER_FEE: Amount = MICRO_IUNA;

pub const DEFAULT_MINE_FEE: Amount = MINE_FINALIZER_FEE;

pub const DEFAULT_TRANSACTION_FEE: Amount = MICRO_IUNA;

pub const DEFAULT_FEE_PER_BYTE: Amount = 1;

/// A reference to an output: the id of what created it, and its place there.
#[derive(Clone, Debug, Eq, Ord, PartialEq, PartialOrd)]
pub struct OutPoint {
    pub txid: String,
    pub index: u32,
}

/// An output that a transaction spends.
#[derive(Clone, Debug, Eq, PartialEq)]
pub struct TxInput {
    pub outpoint: OutPoint,
    pub owner: String,
    pub signature: String,
}

/// An amount at an address.
#[derive(Clone, Debug, Eq, PartialEq)]
pub struct TxOutput {
    pub address: String,
    pub amount: Amount,
}

/// A transfer, a burn, or a mine action that creates money by proof of work.
#[derive(Clone, Debug, Eq, PartialEq)]
pub enum Transaction {
    Transfer { inputs: Vec<TxInput>, outputs: Vec<TxOutput>, fee: Amount, signature: String },
    Burn { inputs: Vec<TxInput>, change: Vec<TxOutput>, amount: Amount, fee: Amount, signature: String },
    Mine {
        recipient: String,
        anchor: String,
        salt: u64,
        nonce: u64,
        difficulty_bits: u32,
        proof_header: Option<String>,
        signature: String,
    },
}

#[verifier::ext_equal]
pub struct OutPointView {
    pub txid: Seq<char>,
    pub index: u32,
}

#[verifier::ext_equal]
pub struct TxInputView {
    pub outpoint: OutPointView,
    pub owner: Seq<char>,
    pub signature: Seq<char>,
}

#[verifier::ext_equal]
pub struct TxOutputView {
    pub address: Seq<char>,
    pub amount: Amount,
}

#[verifier::ext_equal]
pub enum TransactionView {
    Transfer { inputs: Seq<TxInputView>, outputs: Seq<TxOutputView>, fee: Amount, signature: Seq<char> },
    Burn {
        inputs: Seq<TxInputView>,
        change: Seq<TxOutputView>,
        amount: Amount,
        fee: Amount,
        signature: Seq<char>,
    },
    Mine {
        recipient: Seq<char>,
        anchor: Seq<char>,
        salt: u64,
        nonce: u64,
        difficulty_bits: u32,
        proof_header: Option<Seq<char>>,
        signature: Seq<char>,
    },
}

impl DeepView for OutPoint {
    type V = OutPointView;

    open spec fn deep_view(&self) -> OutPointView {
        OutPointView { txid: self.txid@, index: self.index }
    }
}

impl DeepView for TxInput {
    type V = TxInputView;

    open spec fn deep_view(&self) -> TxInputView {
        TxInputView { outpoint: self.outpoint.deep_view(), owner: self.owner@, signature: self.signature@ }
    }
}

impl DeepView for TxOutput {
    type V = TxOutputView;

    open spec fn deep_view(&self) -> TxOutputView {
        TxOutputView { address: self.address@, amount: self.amount }
    }
}

impl DeepView for Transaction {
    type V = TransactionView;

    open spec fn deep_view(&self) -> TransactionView {
        match self {
            Transaction::Transfer { inputs, outputs, fee, signature } => TransactionView::Transfer {
                inputs: inputs.deep_view(),
                outputs: outputs.deep_view(),
                fee: *fee,
                signature: signature@,
            },
            Transaction::Burn { inputs, change, amount, fee, signature } => TransactionView::Burn {
                inputs: inputs.deep_view(),
                change: change.deep_view(),
                amount: *amount,
                fee: *fee,
                signature: signature@,
            },
            Transaction::Mine { recipient, anchor, salt, nonce, difficulty_bits, proof_header, signature } =>
            TransactionView::Mine {
                recipient: recipient@,
                anchor: anchor@,
                salt: *salt,
                nonce: *nonce,
                difficulty_bits: *difficulty_bits,
                proof_header: proof_header.deep_view(),
                signature: signature@,
            },
        }
    }
}

impl Model for OutPoint {
    fn duplicate(&self) -> (r: Self) {
        OutPoint { txid: self.txid.clone(), index: self.index }
    }

    fn same(&self, other: &Self) -> (r: bool) {
        self.index == other.index && self.txid.same(&other.txid)
    }
}

/// Outpoints are ordered by id, then by place.
impl Ordered for OutPoint {
    open spec fn before(a: OutPointView, b: OutPointView) -> bool {
        text::text_before(a.txid, b.txid) || (a.txid == b.txid && a.index < b.index)
    }

    proof fn irreflexive(a: OutPointView) {
        <String as Ordered>::irreflexive(a.txid);
    }

    proof fn transitive(a: OutPointView, b: OutPointView, c: OutPointView) {
        if text::text_before(a.txid, b.txid) && text::text_before(b.txid, c.txid) {
            <String as Ordered>::transitive(a.txid, b.txid, c.txid);
        }
    }

    proof fn total(a: OutPointView, b: OutPointView) {
        <String as Ordered>::total(a.txid, b.txid);
    }

    fn precedes(&self, other: &Self) -> (r: bool) {
        if self.txid.same(&other.txid) {
            proof {
                <String as Ordered>::irreflexive(self.txid@);
            }
            self.index < other.index
        } else {
            self.txid.precedes(&other.txid)
        }
    }
}

impl Model for TxInput {
    fn duplicate(&self) -> (r: Self) {
        TxInput {
            outpoint: self.outpoint.duplicate(),
            owner: self.owner.clone(),
            signature: self.signature.clone(),
        }
    }

    fn same(&self, other: &Self) -> (r: bool) {
        self.outpoint.same(&other.outpoint) && self.owner.same(&other.owner) && self.signature.same(
            &other.signature,
        )
    }
}

impl Model for TxOutput {
    fn duplicate(&self) -> (r: Self) {
        TxOutput { address: self.address.clone(), amount: self.amount }
    }

    fn same(&self, other: &Self) -> (r: bool) {
        self.amount == other.amount && self.address.same(&other.address)
    }
}

impl Model for Transaction {
    fn duplicate(&self) -> (r: Self) {
        match self {
            Transaction::Transfer { inputs, outputs, fee, signature } => Transaction::Transfer {
                inputs: inputs.duplicate(),
                outputs: outputs.duplicate(),
                fee: *fee,
                signature: signature.clone(),
            },
            Transaction::Burn { inputs, change, amount, fee, signature } => Transaction::Burn {
                inputs: inputs.duplicate(),
                change: change.duplicate(),
                amount: *amount,
                fee: *fee,
                signature: signature.clone(),
            },
            Transaction::Mine { recipient, anchor, salt, nonce, difficulty_bits, proof_header, signature } =>
            Transaction::Mine {
                recipient: recipient.clone(),
                anchor: anchor.clone(),
                salt: *salt,
                nonce: *nonce,
                difficulty_bits: *difficulty_bits,
                proof_header: proof_header.duplicate(),
                signature: signature.clone(),
            },
        }
    }

    fn same(&self, other: &Self) -> (r: bool) {
        match (self, other) {
            (
                Transaction::Transfer { inputs: i, outputs: o, fee: f, signature: s },
                Transaction::Transfer { inputs, outputs, fee, signature },
            ) => i.same(inputs) && o.same(outputs) && *f == *fee && s.same(signature),
            (
                Transaction::Burn { inputs: i, change: c, amount: a, fee: f, signature: s },
                Transaction::Burn { inputs, change, amount, fee, signature },
            ) => i.same(inputs) && c.same(change) && *a == *amount && *f == *fee && s.same(signature),
            (
                Transaction::Mine {
                    recipient: r,
                    anchor: a,
                    salt: t,
                    nonce: n,
                    difficulty_bits: d,
                    proof_header: p,
                    signature: s,
                },
                Transaction::Mine { recipient, anchor, salt, nonce, difficulty_bits, proof_header, signature },
            ) => r.same(recipient) && a.same(anchor) && *t == *salt && *n == *nonce && *d == *difficulty_bits
                && p.same(proof_header) && s.same(signature),
            _ => false,
        }
    }
}

/// The part of an input that is signed.
#[derive(Clone, Debug, Eq, PartialEq)]
pub struct UnsignedTxInput {
    pub outpoint: OutPoint,
    pub owner: String,
}

/// A transfer or burn before it is signed.
#[derive(Clone, Debug, Eq, PartialEq)]
pub enum UnsignedUtxoTransaction {
    Transfer { inputs: Vec<UnsignedTxInput>, outputs: Vec<TxOutput>, fee: Amount },
    Burn { inputs: Vec<UnsignedTxInput>, change: Vec<TxOutput>, amount: Amount, fee: Amount },
}

#[verifier::ext_equal]
pub struct UnsignedTxInputView {
    pub outpoint: OutPointView,
    pub owner: Seq<char>,
}

#[verifier::ext_equal]
pub enum UnsignedView {
    Transfer { inputs: Seq<UnsignedTxInputView>, outputs: Seq<TxOutputView>, fee: Amount },
    Burn { inputs: Seq<UnsignedTxInputView>, change: Seq<TxOutputView>, amount: Amount, fee: Amount },
}

impl DeepView for UnsignedTxInput {
    type V = UnsignedTxInputView;

    open spec fn deep_view(&self) -> UnsignedTxInputView {
        UnsignedTxInputView { outpoint: self.outpoint.deep_view(), owner: self.owner@ }
    }
}

impl DeepView for UnsignedUtxoTransaction {
    type V = UnsignedView;

    open spec fn deep_view(&self) -> UnsignedView {
        match self {
            UnsignedUtxoTransaction::Transfer { inputs, outputs, fee } => UnsignedView::Transfer {
                inputs: inputs.deep_view(),
                outputs: outputs.deep_view(),
                fee: *fee,
            },
            UnsignedUtxoTransaction::Burn { inputs, change, amount, fee } => UnsignedView::Burn {
                inputs: inputs.deep_view(),
                change: change.deep_view(),
                amount: *amount,
                fee: *fee,
            },
        }
    }
}

impl OutPointView {
    /// The text of a reference.
    pub open spec fn id(self) -> Seq<char> {
        self.txid + ":"@ + text::decimal(self.index as nat)
    }
}

impl OutPoint {
    /// The text of a reference.
    pub fn id(&self) -> (r: String)
        ensures
            r@ == self.deep_view().id(),
    {
        let mut t = self.txid.clone();
        t.append(":");
        text::push_decimal(&mut t, self.index as u128);
        t
    }
}

impl TxInputView {
    /// The text of an input with its signature.
    pub open spec fn signed_text(self) -> Seq<char> {
        self.without_signature().canonical() + ":"@ + self.signature
    }
}

/// The texts of the inputs with their signatures, joined.
pub open spec fn signed_inputs_text(inputs: Seq<TxInputView>) -> Seq<char> {
    text::joined(Seq::new(inputs.len(), |i: int| inputs[i].signed_text()))
}

/// The texts of the inputs with their signatures, joined.
pub(crate) fn signed_text_of(inputs: &Vec<TxInput>) -> (r: String)
    ensures
        r@ == signed_inputs_text(inputs.deep_view()),
{
    let mut parts: Vec<String> = Vec::new();
    let mut i: usize = 0;
    while i < inputs.len()
        invariant
            i <= inputs.len(),
            parts@.len() == i,
            forall|j: int| 0 <= j < i ==> (#[trigger] parts@[j])@ == inputs@[j].deep_view().signed_text(),
        decreases inputs.len() - i,
    {
        let mut t = inputs[i].without_signature().canonical();
        t.append(":");
        t.append(inputs[i].signature.as_str());
        parts.push(t);
        i = i + 1;
    }
    let ghost v = inputs.deep_view();
    assert(parts.deep_view() =~= Seq::new(v.len(), |i: int| v[i].signed_text()));
    text::join(&parts)
}

impl UnsignedTxInputView {
    pub open spec fn canonical(self) -> Seq<char> {
        self.outpoint.txid + ":"@ + text::decimal(self.outpoint.index as nat) + ":"@ + self.owner
    }
}

impl UnsignedTxInput {
    fn canonical(&self) -> (r: String)
        ensures
            r@ == self.deep_view().canonical(),
    {
        let mut t = self.outpoint.txid.clone();
        t.append(":");
        text::push_decimal(&mut t, self.outpoint.index as u128);
        t.append(":");
        t.append(self.owner.as_str());
        t
    }
}

impl TxOutputView {
    pub open spec fn canonical(self) -> Seq<char> {
        self.address + ":"@ + text::decimal(self.amount as nat)
    }
}

impl TxOutput {
    fn canonical(&self) -> (r: String)
        ensures
            r@ == self.deep_view().canonical(),
    {
        let mut t = self.address.clone();
        t.append(":");
        text::push_decimal(&mut t, self.amount as u128);
        t
    }
}

/// The texts of the inputs, joined.
pub open spec fn inputs_text(inputs: Seq<UnsignedTxInputView>) -> Seq<char> {
    text::joined(Seq::new(inputs.len(), |i: int| inputs[i].canonical()))
}

/// The texts of the outputs, joined.
pub open spec fn outputs_text(outputs: Seq<TxOutputView>) -> Seq<char> {
    text::joined(Seq::new(outputs.len(), |i: int| outputs[i].canonical()))
}

pub(crate) fn canonical_inputs(inputs: &Vec<UnsignedTxInput>) -> (r: String)
    ensures
        r@ == inputs_text(inputs.deep_view()),
{
    let mut parts: Vec<String> = Vec::new();
    let mut i: usize = 0;
    while i < inputs.len()
        invariant
            i <= inputs.len(),
            parts@.len() == i,
            forall|j: int| 0 <= j < i ==> (#[trigger] parts@[j])@ == inputs@[j].deep_view().canonical(),
        decreases inputs.len() - i,
    {
        parts.push(inputs[i].canonical());
        i = i + 1;
    }
    let ghost v = inputs.deep_view();
    assert(parts.deep_view() =~= Seq::new(v.len(), |i: int| v[i].canonical()));
    text::join(&parts)
}

fn canonical_outputs(outputs: &Vec<TxOutput>) -> (r: String)
    ensures
        r@ == outputs_text(outputs.deep_view()),
{
    let mut parts: Vec<String> = Vec::new();
    let mut i: usize = 0;
    while i < outputs.len()
        invariant
            i <= outputs.len(),
            parts@.len() == i,
            forall|j: int| 0 <= j < i ==> (#[trigger] parts@[j])@ == outputs@[j].deep_view().canonical(),
        decreases outputs.len() - i,
    {
        parts.push(outputs[i].canonical());
        i = i + 1;
    }
    let ghost v = outputs.deep_view();
    assert(parts.deep_view() =~= Seq::new(v.len(), |i: int| v[i].canonical()));
    text::join(&parts)
}

impl UnsignedView {
    pub open spec fn inputs(self) -> Seq<UnsignedTxInputView> {
        match self {
            UnsignedView::Transfer { inputs, .. } => inputs,
            UnsignedView::Burn { inputs, .. } => inputs,
        }
    }

    /// The text that is signed.
    pub open spec fn canonical(self) -> Seq<char> {
        match self {
            UnsignedView::Transfer { inputs, outputs, fee } => "utxo-transfer:"@ + inputs_text(inputs) + ":"@
                + outputs_text(outputs) + ":"@ + text::decimal(fee as nat),
            UnsignedView::Burn { inputs, change, amount, fee } => "utxo-burn:"@ + inputs_text(inputs) + ":"@
                + outputs_text(change) + ":"@ + text::decimal(amount as nat) + ":"@ + text::decimal(
                fee as nat,
            ),
        }
    }

    /// The transaction with one signature on it and on each of its inputs.
    pub open spec fn signed(self, signature: Seq<char>) -> TransactionView {
        let signed_inputs = Seq::new(
            self.inputs().len(),
            |i: int|
                TxInputView {
                    outpoint: self.inputs()[i].outpoint,
                    owner: self.inputs()[i].owner,
                    signature,
                },
        );
        match self {
            UnsignedView::Transfer { outputs, fee, .. } => TransactionView::Transfer {
                inputs: signed_inputs,
                outputs,
                fee,
                signature,
            },
            UnsignedView::Burn { change, amount, fee, .. } => TransactionView::Burn {
                inputs: signed_inputs,
                change,
                amount,
                fee,
                signature,
            },
        }
    }
}

fn signed_inputs(inputs: &Vec<UnsignedTxInput>, signature: &String) -> (r: Vec<TxInput>)
    ensures
        r.deep_view() == Seq::new(
            inputs.deep_view().len(),
            |i: int|
                TxInputView {
                    outpoint: inputs.deep_view()[i].outpoint,
                    owner: inputs.deep_view()[i].owner,
                    signature: signature@,
                },
        ),
{
    let mut out: Vec<TxInput> = Vec::new();
    let mut i: usize = 0;
    while i < inputs.len()
        invariant
            i <= inputs.len(),
            out@.len() == i,
            forall|j: int|
                0 <= j < i ==> (#[trigger] out@[j]).deep_view() == (TxInputView {
                    outpoint: inputs@[j].outpoint.deep_view(),
                    owner: inputs@[j].owner@,
                    signature: signature@,
                }),
        decreases inputs.len() - i,
    {
        out.push(
            TxInput {
                outpoint: inputs[i].outpoint.duplicate(),
                owner: inputs[i].owner.clone(),
                signature: signature.clone(),
            },
        );
        i = i + 1;
    }
    assert(out.deep_view() =~= Seq::new(
        inputs.deep_view().len(),
        |i: int|
            TxInputView {
                outpoint: inputs.deep_view()[i].outpoint,
                owner: inputs.deep_view()[i].owner,
                signature: signature@,
            },
    ));
    out
}

impl UnsignedUtxoTransaction {
    /// Signs with a wallet.
    pub fn sign(self, wallet: &Wallet) -> (r: Transaction)
        ensures
            r.deep_view() == self.deep_view().signed(
                wallet::signature_of(wallet.seed(), self.deep_view().canonical()),
            ),
            crypto::ed25519_signature(wallet.seed(), encode_utf8(self.deep_view().canonical())).len() == 64,
            crypto::ed25519_verifies(
                crypto::ed25519_public_key(wallet.seed()),
                encode_utf8(self.deep_view().canonical()),
                crypto::ed25519_signature(wallet.seed(), encode_utf8(self.deep_view().canonical())),
            ),
    {
        let payload = self.canonical();
        let signature = wallet.sign_payload(payload.as_str());
        let ghost v = self.deep_view();
        match self {
            UnsignedUtxoTransaction::Transfer { inputs, outputs, fee } => {
                let inputs = signed_inputs(&inputs, &signature);
                let r = Transaction::Transfer { inputs, outputs, fee, signature };
                assert(r.deep_view() =~= v.signed(signature@));
                r
            },
            UnsignedUtxoTransaction::Burn { inputs, change, amount, fee } => {
                let inputs = signed_inputs(&inputs, &signature);
                let r = Transaction::Burn { inputs, change, amount, fee, signature };
                assert(r.deep_view() =~= v.signed(signature@));
                r
            },
        }
    }

    /// The text that is signed.
    pub fn canonical(&self) -> (r: String)
        ensures
            r@ == self.deep_view().canonical(),
    {
        match self {
            UnsignedUtxoTransaction::Transfer { inputs, outputs, fee } => {
                let mut t = text::text("utxo-transfer:");
                t.append(canonical_inputs(inputs).as_str());
                t.append(":");
                t.append(canonical_outputs(outputs).as_str());
                t.append(":");
                text::push_decimal(&mut t, *fee as u128);
                t
            },
            UnsignedUtxoTransaction::Burn { inputs, change, amount, fee } => {
                let mut t = text::text("utxo-burn:");
                t.append(canonical_inputs(inputs).as_str());
                t.append(":");
                t.append(canonical_outputs(change).as_str());
                t.append(":");
                text::push_decimal(&mut t, *amount as u128);
                t.append(":");
                text::push_decimal(&mut t, *fee as u128);
                t
            },
        }
    }
}

impl TxInputView {
    pub open spec fn without_signature(self) -> UnsignedTxInputView {
        UnsignedTxInputView { outpoint: self.outpoint, owner: self.owner }
    }
}

impl TxInput {
    pub fn without_signature(&self) -> (r: UnsignedTxInput)
        ensures
            r.deep_view() == self.deep_view().without_signature(),
    {
        UnsignedTxInput { outpoint: self.outpoint.duplicate(), owner: self.owner.clone() }
    }
}

/// The inputs without their signatures.
pub open spec fn unsigned(inputs: Seq<TxInputView>) -> Seq<UnsignedTxInputView> {
    Seq::new(inputs.len(), |i: int| inputs[i].without_signature())
}

/// Whether two lists of inputs spend the same outputs of the same owners, in the same order.
pub open spec fn spend_alike(a: Seq<TxInputView>, b: Seq<TxInputView>) -> bool {
    unsigned(a) == unsigned(b)
}

/// Whether two lists of inputs spend the same outputs of the same owners, in the same order.
pub(crate) fn inputs_spend_alike(a: &Vec<TxInput>, b: &Vec<TxInput>) -> (r: bool)
    ensures
        r == spend_alike(a.deep_view(), b.deep_view()),
{
    let ghost x = unsigned(a.deep_view());
    let ghost y = unsigned(b.deep_view());
    if a.len() != b.len() {
        assert(x.len() != y.len());
        return false;
    }
    let mut i: usize = 0;
    while i < a.len()
        invariant
            i <= a.len(),
            a.len() == b.len(),
            x == unsigned(a.deep_view()),
            y == unsigned(b.deep_view()),
            forall|j: int| 0 <= j < i ==> #[trigger] x[j] == y[j],
        decreases a.len() - i,
    {
        if !a[i].outpoint.same(&b[i].outpoint) || !a[i].owner.same(&b[i].owner) {
            assert(x[i as int] != y[i as int]);
            return false;
        }
        i = i + 1;
    }
    assert(x =~= y);
    true
}

/// The inputs, each with the same signature.
pub open spec fn signed_with(inputs: Seq<TxInputView>, signature: Seq<char>) -> Seq<TxInputView> {
    Seq::new(
        inputs.len(),
        |i: int| TxInputView { outpoint: inputs[i].outpoint, owner: inputs[i].owner, signature },
    )
}

/// The inputs, each with the same signature.
pub(crate) fn sign_inputs_with(inputs: &Vec<TxInput>, signature: &str) -> (r: Vec<TxInput>)
    ensures
        r.deep_view() == signed_with(inputs.deep_view(), signature@),
        spend_alike(r.deep_view(), inputs.deep_view()),
{
    let mut out: Vec<TxInput> = Vec::new();
    let mut i: usize = 0;
    while i < inputs.len()
        invariant
            i <= inputs.len(),
            out@.len() == i,
            forall|j: int|
                0 <= j < i ==> (#[trigger] out@[j]).deep_view() == signed_with(inputs.deep_view(), signature@)[j],
        decreases inputs.len() - i,
    {
        out.push(
            TxInput {
                outpoint: inputs[i].outpoint.duplicate(),
                owner: inputs[i].owner.clone(),
                signature: text::text(signature),
            },
        );
        i = i + 1;
    }
    assert(out.deep_view() =~= signed_with(inputs.deep_view(), signature@));
    proof {
        signing_spends_alike(inputs.deep_view(), signature@);
    }
    out
}

pub proof fn signing_spends_alike(inputs: Seq<TxInputView>, signature: Seq<char>)
    ensures
        spend_alike(signed_with(inputs, signature), inputs),
{
    assert(unsigned(signed_with(inputs, signature)) =~= unsigned(inputs));
}

pub(crate) fn unsigned_inputs(inputs: &Vec<TxInput>) -> (r: Vec<UnsignedTxInput>)
    ensures
        r.deep_view() == unsigned(inputs.deep_view()),
{
    let mut out: Vec<UnsignedTxInput> = Vec::new();
    let mut i: usize = 0;
    while i < inputs.len()
        invariant
            i <= inputs.len(),
            out@.len() == i,
            forall|j: int|
                0 <= j < i ==> (#[trigger] out@[j]).deep_view() == inputs@[j].deep_view().without_signature(),
        decreases inputs.len() - i,
    {
        out.push(inputs[i].without_signature());
        i = i + 1;
    }
    assert(out.deep_view() =~= unsigned(inputs.deep_view()));
    out
}

/// The text whose hash is the proof of a mine action.
pub open spec fn mine_text(recipient: Seq<char>, anchor: Seq<char>, salt: u64, nonce: u64, bits: u32) -> Seq<char> {
    "iuna-mine:"@ + recipient + ":"@ + anchor + ":"@ + text::decimal(salt as nat) + ":"@ + text::decimal(
        nonce as nat,
    ) + ":"@ + text::decimal(bits as nat)
}

fn mine_payload(recipient: &str, anchor: &str, salt: u64, nonce: u64, difficulty_bits: u32) -> (r: String)
    ensures
        r@ == mine_text(recipient@, anchor@, salt, nonce, difficulty_bits),
{
    let mut t = text::text("iuna-mine:");
    t.append(recipient);
    t.append(":");
    t.append(anchor);
    t.append(":");
    text::push_decimal(&mut t, salt as u128);
    t.append(":");
    text::push_decimal(&mut t, nonce as u128);
    t.append(":");
    text::push_decimal(&mut t, difficulty_bits as u128);
    t
}

/// The proof hash of a mine action.
pub fn mine_signature(recipient: &str, anchor: &str, salt: u64, nonce: u64, difficulty_bits: u32) -> (r: String)
    ensures
        r@ == crypto::hash_of(mine_text(recipient@, anchor@, salt, nonce, difficulty_bits)),
{
    let payload = mine_payload(recipient, anchor, salt, nonce, difficulty_bits);
    crypto::hash_text(payload.as_str())
}

/// The output that an allocation at the start of the chain stands for.
pub open spec fn allocation_outpoint(address: Seq<char>) -> OutPointView {
    OutPointView { txid: crypto::hash_of("iuna-genesis-allocation:"@ + address), index: 0 }
}

pub fn genesis_allocation_outpoint(address: &str) -> (r: OutPoint)
    ensures
        r.deep_view() == allocation_outpoint(address@),
{
    let mut t = text::text("iuna-genesis-allocation:");
    t.append(address);
    OutPoint { txid: crypto::hash_text(t.as_str()), index: 0 }
}

/// The burn of a genesis allocation, leaving `change`.
pub open spec fn genesis_burn_view(from: Seq<char>, amount: Amount, change: Seq<TxOutputView>) -> TransactionView {
    let input = TxInputView { outpoint: allocation_outpoint(from), owner: from, signature: "genesis"@ };
    let unsigned_burn = UnsignedView::Burn { inputs: seq![input.without_signature()], change, amount, fee: 0 };
    TransactionView::Burn {
        inputs: seq![input],
        change,
        amount,
        fee: 0,
        signature: crypto::hash_of("iuna-genesis-burn:"@ + unsigned_burn.canonical()),
    }
}

/// The burn of `amount` out of a genesis allocation, the rest returned.
pub open spec fn genesis_burn_of_allocation(from: Seq<char>, amount: Amount, allocation: Amount) -> Result<
    TransactionView,
    Seq<char>,
> {
    if amount > allocation {
        Err("genesis burn exceeds allocation"@)
    } else {
        Ok(
            genesis_burn_view(
                from,
                amount,
                if allocation > amount {
                    seq![TxOutputView { address: from, amount: (allocation - amount) as u64 }]
                } else {
                    Seq::<TxOutputView>::empty()
                },
            ),
        )
    }
}

impl TransactionView {
    pub open spec fn inputs(self) -> Seq<TxInputView> {
        match self {
            TransactionView::Transfer { inputs, .. } => inputs,
            TransactionView::Burn { inputs, .. } => inputs,
            TransactionView::Mine { .. } => Seq::<TxInputView>::empty(),
        }
    }

    pub open spec fn outputs(self) -> Seq<TxOutputView> {
        match self {
            TransactionView::Transfer { outputs, .. } => outputs,
            TransactionView::Burn { change, .. } => change,
            TransactionView::Mine { recipient, .. } => seq![TxOutputView { address: recipient, amount: MINE_REWARD }],
        }
    }

    pub open spec fn sender(self) -> Seq<char> {
        match self {
            TransactionView::Mine { recipient, .. } => recipient,
            _ => if self.inputs().len() > 0 {
                self.inputs()[0].owner
            } else {
                ""@
            },
        }
    }

    pub open spec fn to(self) -> Option<Seq<char>> {
        match self {
            TransactionView::Transfer { outputs, .. } => if outputs.len() > 0 {
                Some(outputs[0].address)
            } else {
                None
            },
            TransactionView::Burn { .. } => None,
            TransactionView::Mine { recipient, .. } => Some(recipient),
        }
    }

    pub open spec fn amount(self) -> Amount {
        match self {
            TransactionView::Transfer { outputs, .. } => if outputs.len() > 0 {
                outputs[0].amount
            } else {
                0
            },
            TransactionView::Burn { amount, .. } => amount,
            TransactionView::Mine { .. } => MINE_REWARD,
        }
    }

    pub open spec fn fee(self) -> Amount {
        match self {
            TransactionView::Transfer { fee, .. } => fee,
            TransactionView::Burn { fee, .. } => fee,
            TransactionView::Mine { .. } => MINE_FINALIZER_FEE,
        }
    }

    /// What leaves circulation.
    pub open spec fn burned(self) -> Amount {
        match self {
            TransactionView::Burn { amount, .. } => amount,
            _ => 0,
        }
    }

    pub open spec fn signature(self) -> Seq<char> {
        match self {
            TransactionView::Transfer { signature, .. } => signature,
            TransactionView::Burn { signature, .. } => signature,
            TransactionView::Mine { signature, .. } => signature,
        }
    }

    pub open spec fn is_burn(self) -> bool {
        self is Burn
    }

    pub open spec fn total_debit(self) -> Result<Amount, Seq<char>> {
        if self is Mine {
            Ok(0)
        } else if self.amount() + self.fee() > u64::MAX {
            Err("transaction amount plus fee overflows"@)
        } else {
            Ok((self.amount() + self.fee()) as u64)
        }
    }

    /// The text that is signed.
    pub open spec fn signing_payload(self) -> Seq<char> {
        match self {
            TransactionView::Transfer { inputs, outputs, fee, .. } => UnsignedView::Transfer {
                inputs: unsigned(inputs),
                outputs,
                fee,
            }.canonical(),
            TransactionView::Burn { inputs, change, amount, fee, .. } => UnsignedView::Burn {
                inputs: unsigned(inputs),
                change,
                amount,
                fee,
            }.canonical(),
            TransactionView::Mine { recipient, anchor, salt, nonce, difficulty_bits, .. } => mine_text(
                recipient,
                anchor,
                salt,
                nonce,
                difficulty_bits,
            ),
        }
    }

    /// The text that block hashes cover.
    pub open spec fn canonical(self) -> Seq<char> {
        self.signing_payload() + ":"@ + self.signature()
    }

    /// Whether every input carries the signature `s`.
    pub open spec fn inputs_signed(self, s: Seq<char>) -> bool {
        forall|i: int| 0 <= i < self.inputs().len() ==> (#[trigger] self.inputs()[i]).signature == s
    }

    /// The proof hash that a mine action must carry.
    pub open spec fn expected_proof(
        recipient: Seq<char>,
        anchor: Seq<char>,
        salt: u64,
        nonce: u64,
        bits: u32,
        proof_header: Option<Seq<char>>,
    ) -> Result<Seq<char>, Seq<char>> {
        match proof_header {
            None => Ok(crypto::hash_of(mine_text(recipient, anchor, salt, nonce, bits))),
            Some(given) => match stratum::header(recipient, anchor, salt, nonce, bits) {
                Err(e) => Err(e),
                Ok(h) => if given != hex::text_of(h) {
                    Err("mine transaction proof header is invalid"@)
                } else {
                    Ok(stratum::header_signature(h))
                },
            },
        }
    }

    /// Whether the transaction is signed by its sender, or proves its work; or why not.
    pub open spec fn signature_check(self) -> Result<(), Seq<char>> {
        match self {
            TransactionView::Mine { recipient, anchor, salt, nonce, difficulty_bits, proof_header, signature } => {
                match Self::expected_proof(recipient, anchor, salt, nonce, difficulty_bits, proof_header) {
                    Err(e) => Err(e),
                    Ok(expected) => if signature != expected {
                        Err("mine transaction proof hash is invalid"@)
                    } else if !stratum::meets_difficulty(signature, difficulty_bits) {
                        Err("mine transaction proof does not meet difficulty"@)
                    } else {
                        Ok(())
                    },
                }
            },
            _ => if starts_with(self.signature(), "iuna-genesis-burn:"@) || self.inputs_signed("genesis"@) {
                Ok(())
            } else if !self.inputs_signed(self.signature()) {
                Err("transaction input signature does not match transaction signature"@)
            } else {
                match hex::exact_bytes_of(self.sender(), 32) {
                    Err(e) => Err(error::in_context("invalid public key for "@ + self.sender(), e)),
                    Ok(key) => match hex::exact_bytes_of(self.signature(), 64) {
                        Err(e) => Err(error::in_context("invalid signature hex"@, e)),
                        Ok(signature) => if !crypto::ed25519_is_key(key) {
                            Err("invalid transaction public key"@)
                        } else if !crypto::ed25519_verifies(
                            key,
                            encode_utf8(self.signing_payload()),
                            signature,
                        ) {
                            Err("transaction signature is invalid"@)
                        } else {
                            Ok(())
                        },
                    },
                }
            },
        }
    }

    /// The number of bytes that fees are measured by.
    pub open spec fn economic_size(self) -> nat {
        match self {
            TransactionView::Transfer { inputs, outputs, fee, .. } => 1 + compact_size(inputs.len())
                + inputs_size(inputs) + compact_size(outputs.len()) + outputs_size(outputs) + compact_size(
                fee as nat,
            ) + 64,
            TransactionView::Burn { inputs, change, amount, fee, .. } => 1 + compact_size(inputs.len())
                + inputs_size(inputs) + compact_size(change.len()) + outputs_size(change) + compact_size(
                amount as nat,
            ) + compact_size(fee as nat) + 64,
            TransactionView::Mine { salt, nonce, difficulty_bits, proof_header, .. } => 1 + 32 + 32
                + compact_size(salt as nat) + compact_size(nonce as nat) + compact_size(difficulty_bits as nat)
                + 1 + (if proof_header is Some { 80nat } else { 0 }) + 32,
        }
    }

    /// Micro-units of fee for a million bytes.
    pub open spec fn fee_rate(self) -> nat {
        self.fee() as nat * 1_000_000 / self.economic_size()
    }
}

/// Whether a text starts with another.
pub open spec fn starts_with(whole: Seq<char>, part: Seq<char>) -> bool {
    text::stands_at(encode_utf8(whole), encode_utf8(part), 0)
}

/// The bytes of a number in groups of seven bits.
pub open spec fn compact_size(n: nat) -> nat
    decreases n,
{
    if n < 128 {
        1
    } else {
        1 + compact_size(n / 128)
    }
}

/// The bytes of a transaction id: 32 where it has 32, else 64.
pub open spec fn id_size(value: Seq<char>) -> nat {
    if hex::bytes_of(value) matches Ok(b) && b.len() == 32 {
        32
    } else {
        64
    }
}

pub open spec fn inputs_size(inputs: Seq<TxInputView>) -> nat
    decreases inputs.len(),
{
    if inputs.len() == 0 {
        0
    } else {
        inputs_size(inputs.drop_last()) + id_size(inputs.last().outpoint.txid) + compact_size(
            inputs.last().outpoint.index as nat,
        ) + 32
    }
}

pub open spec fn outputs_size(outputs: Seq<TxOutputView>) -> nat
    decreases outputs.len(),
{
    if outputs.len() == 0 {
        0
    } else {
        outputs_size(outputs.drop_last()) + 32 + compact_size(outputs.last().amount as nat)
    }
}

proof fn compact_size_bound(n: nat, groups: nat)
    requires
        groups >= 1,
        n < pow(128, groups),
    ensures
        1 <= compact_size(n) <= groups,
    decreases groups,
{
    reveal(pow);
    if n >= 128 {
        if groups == 1 {
            lemma_pow1(128);
        }
        let g = (groups - 1) as nat;
        assert(n / 128 < pow(128, g));
        compact_size_bound(n / 128, g);
    }
}

proof fn compact_size_of_u128(n: u128)
    ensures
        1 <= compact_size(n as nat) <= 19,
{
    assert(pow(128, 19) > n) by {
        lemma_pow_adds(128, 16, 3);
        lemma_pow_adds(128, 8, 8);
        lemma_pow_adds(128, 4, 4);
        lemma_pow_adds(128, 2, 2);
        lemma_pow_adds(128, 2, 1);
        lemma_square_is_pow2(128);
        lemma_pow1(128);
        let a = 16384int;
        assert(128int * 128int == a);
        let b = 268435456int;
        assert(a * a == b);
        let c = 72057594037927936int;
        assert(b * b == c);
        assert(72057594037927936int * 72057594037927936int == 5192296858534827628530496329220096int);
        assert(c * c == 5192296858534827628530496329220096int);
        assert(5192296858534827628530496329220096int * 2097152int > 0xffff_ffff_ffff_ffff_ffff_ffff_ffff_ffffint);
    }
    compact_size_bound(n as nat, 19);
}

/// A mine transaction takes few bytes.
pub proof fn mine_is_small(t: TransactionView)
    requires
        t is Mine,
    ensures
        t.economic_size() <= 1_000,
{
    if let TransactionView::Mine { salt, nonce, difficulty_bits, .. } = t {
        compact_size_of_u128(salt as u128);
        compact_size_of_u128(nonce as u128);
        compact_size_of_u128(difficulty_bits as u128);
    }
}

/// The bytes of a number in groups of seven bits.
pub fn compact_len(value: u128) -> (r: u128)
    ensures
        r == compact_size(value as nat),
        1 <= r <= 19,
{
    let mut v: u128 = value;
    let mut bytes: u128 = 1;
    proof {
        compact_size_of_u128(value);
    }
    while v >= 0x80
        invariant
            bytes - 1 + compact_size(v as nat) == compact_size(value as nat),
            1 <= compact_size(value as nat) <= 19,
            1 <= bytes <= 19,
        decreases v,
    {
        proof {
            compact_size_of_u128(v / 128);
        }
        v = v / 128;
        bytes = bytes + 1;
    }
    bytes
}

fn protocol_id_size_bytes(value: &str) -> (r: u128)
    ensures
        r == id_size(value@),
{
    match hex::decode_hex(value) {
        Ok(bytes) => if bytes.len() == 32 {
            32
        } else {
            64
        },
        Err(_) => 64,
    }
}

fn compact_inputs_size_bytes(inputs: &Vec<TxInput>) -> (r: u128)
    ensures
        r == inputs_size(inputs.deep_view()),
        r <= 115 * inputs.len(),
{
    let mut total: u128 = 0;
    let mut i: usize = 0;
    let ghost v = inputs.deep_view();
    proof {
        model::take_all(v);
    }
    while i < inputs.len()
        invariant
            i <= inputs.len(),
            v == inputs.deep_view(),
            total == inputs_size(v.take(i as int)),
            total <= 115 * i,
        decreases inputs.len() - i,
    {
        assert(v.take(i + 1).drop_last() =~= v.take(i as int));
        total = total + protocol_id_size_bytes(inputs[i].outpoint.txid.as_str()) + compact_len(
            inputs[i].outpoint.index as u128,
        ) + 32;
        i = i + 1;
    }
    total
}

fn compact_outputs_size_bytes(outputs: &Vec<TxOutput>) -> (r: u128)
    ensures
        r == outputs_size(outputs.deep_view()),
        r <= 51 * outputs.len(),
{
    let mut total: u128 = 0;
    let mut i: usize = 0;
    let ghost v = outputs.deep_view();
    proof {
        model::take_all(v);
    }
    while i < outputs.len()
        invariant
            i <= outputs.len(),
            v == outputs.deep_view(),
            total == outputs_size(v.take(i as int)),
            total <= 51 * i,
        decreases outputs.len() - i,
    {
        assert(v.take(i + 1).drop_last() =~= v.take(i as int));
        total = total + 32 + compact_len(outputs[i].amount as u128);
        i = i + 1;
    }
    total
}

/// Whether a text starts with another.
pub fn text_starts_with(whole: &str, part: &str) -> (r: bool)
    ensures
        r == starts_with(whole@, part@),
{
    let x = whole.as_bytes();
    let y = part.as_bytes();
    if y.len() > x.len() {
        return false;
    }
    let mut i: usize = 0;
    while i < y.len()
        invariant
            i <= y.len() <= x.len(),
            x@ == encode_utf8(whole@),
            y@ == encode_utf8(part@),
            forall|j: int| 0 <= j < i ==> x@[j] == y@[j],
        decreases y.len() - i,
    {
        if x[i] != y[i] {
            assert(x@.subrange(0, y@.len() as int)[i as int] != y@[i as int]);
            return false;
        }
        i = i + 1;
    }
    assert(x@.subrange(0, y@.len() as int) =~= y@);
    true
}

pub(crate) fn all_owned(inputs: &Vec<TxInput>, owner: &str) -> (r: bool)
    ensures
        r == (forall|i: int|
            0 <= i < inputs.deep_view().len() ==> (#[trigger] inputs.deep_view()[i]).owner == owner@),
{
    let mut i: usize = 0;
    while i < inputs.len()
        invariant
            i <= inputs.len(),
            forall|j: int| 0 <= j < i ==> (#[trigger] inputs.deep_view()[j]).owner == owner@,
        decreases inputs.len() - i,
    {
        if !text::text_eq(inputs[i].owner.as_str(), owner) {
            assert(inputs.deep_view()[i as int].owner != owner@);
            return false;
        }
        i = i + 1;
    }
    true
}

pub(crate) fn all_signed(inputs: &Vec<TxInput>, signature: &str) -> (r: bool)
    ensures
        r == (forall|i: int|
            0 <= i < inputs.deep_view().len() ==> (#[trigger] inputs.deep_view()[i]).signature == signature@),
{
    let mut i: usize = 0;
    while i < inputs.len()
        invariant
            i <= inputs.len(),
            forall|j: int| 0 <= j < i ==> (#[trigger] inputs.deep_view()[j]).signature == signature@,
        decreases inputs.len() - i,
    {
        if !text::text_eq(inputs[i].signature.as_str(), signature) {
            assert(inputs.deep_view()[i as int].signature != signature@);
            return false;
        }
        i = i + 1;
    }
    true
}

impl Transaction {
    /// The burn of a genesis allocation without change.
    pub fn genesis_burn(from: &str, amount: Amount) -> (r: Transaction)
        ensures
            r.deep_view() == genesis_burn_view(from@, amount, Seq::<TxOutputView>::empty()),
    {
        let change: Vec<TxOutput> = Vec::new();
        assert(change.deep_view() =~= Seq::<TxOutputView>::empty());
        Self::genesis_burn_with_change(text::text(from), amount, change)
    }

    /// The burn of `amount` out of a genesis allocation, the rest returned as change.
    pub fn genesis_burn_with_allocation(from: &str, amount: Amount, allocation: Amount) -> (r: Result<
        Transaction,
        Error,
    >)
        ensures
            error::outcome(r) == genesis_burn_of_allocation(from@, amount, allocation),
    {
        if amount > allocation {
            return Err(Error::new("genesis burn exceeds allocation"));
        }
        let from = text::text(from);
        let change_amount: u64 = allocation - amount;
        let mut change: Vec<TxOutput> = Vec::new();
        if change_amount > 0 {
            change.push(TxOutput { address: from.clone(), amount: change_amount });
        }
        assert(change.deep_view() =~= if allocation > amount {
            seq![TxOutputView { address: from@, amount: (allocation - amount) as u64 }]
        } else {
            Seq::<TxOutputView>::empty()
        });
        Ok(Self::genesis_burn_with_change(from, amount, change))
    }

    fn genesis_burn_with_change(from: String, amount: Amount, change: Vec<TxOutput>) -> (r: Transaction)
        ensures
            r.deep_view() == genesis_burn_view(from@, amount, change.deep_view()),
    {
        let input = TxInput {
            outpoint: genesis_allocation_outpoint(from.as_str()),
            owner: from,
            signature: text::text("genesis"),
        };
        let mut unsigned_list: Vec<UnsignedTxInput> = Vec::new();
        unsigned_list.push(input.without_signature());
        assert(unsigned_list.deep_view() =~= seq![input.deep_view().without_signature()]);
        let unsigned_burn = UnsignedUtxoTransaction::Burn {
            inputs: unsigned_list,
            change: change.duplicate(),
            amount,
            fee: 0,
        };
        let mut t = text::text("iuna-genesis-burn:");
        t.append(unsigned_burn.canonical().as_str());
        let signature = crypto::hash_text(t.as_str());
        let mut inputs: Vec<TxInput> = Vec::new();
        inputs.push(input);
        assert(inputs.deep_view() =~= seq![input.deep_view()]);
        Transaction::Burn { inputs, change, amount, fee: 0, signature }
    }

    /// The owner of the first input, or the recipient of a mine action.
    pub fn sender(&self) -> (r: &str)
        ensures
            r@ == self.deep_view().sender(),
    {
        match self {
            Transaction::Transfer { inputs, .. } => if inputs.len() > 0 {
                inputs[0].owner.as_str()
            } else {
                ""
            },
            Transaction::Burn { inputs, .. } => if inputs.len() > 0 {
                inputs[0].owner.as_str()
            } else {
                ""
            },
            Transaction::Mine { recipient, .. } => recipient.as_str(),
        }
    }

    /// The address that receives, for a transfer or mine action.
    pub fn to(&self) -> (r: Option<&str>)
        ensures
            r.deep_view() == self.deep_view().to(),
    {
        match self {
            Transaction::Transfer { outputs, .. } => if outputs.len() > 0 {
                Some(outputs[0].address.as_str())
            } else {
                None
            },
            Transaction::Burn { .. } => None,
            Transaction::Mine { recipient, .. } => Some(recipient.as_str()),
        }
    }

    pub fn amount(&self) -> (r: Amount)
        ensures
            r == self.deep_view().amount(),
    {
        match self {
            Transaction::Transfer { outputs, .. } => if outputs.len() > 0 {
                outputs[0].amount
            } else {
                0
            },
            Transaction::Burn { amount, .. } => *amount,
            Transaction::Mine { .. } => MINE_REWARD,
        }
    }

    pub fn fee(&self) -> (r: Amount)
        ensures
            r == self.deep_view().fee(),
    {
        match self {
            Transaction::Transfer { fee, .. } => *fee,
            Transaction::Burn { fee, .. } => *fee,
            Transaction::Mine { .. } => MINE_FINALIZER_FEE,
        }
    }

    /// What a burn takes out of circulation.
    pub fn burned(&self) -> (r: Amount)
        ensures
            r == self.deep_view().burned(),
    {
        match self {
            Transaction::Burn { amount, .. } => *amount,
            _ => 0,
        }
    }

    /// Amount and fee together.
    pub fn total_debit(&self) -> (r: Result<Amount, Error>)
        ensures
            error::outcome(r) == self.deep_view().total_debit(),
    {
        if self.is_mine() {
            return Ok(0);
        }
        match self.amount().checked_add(self.fee()) {
            Some(total) => Ok(total),
            None => Err(Error::new("transaction amount plus fee overflows")),
        }
    }

    pub fn signature(&self) -> (r: &str)
        ensures
            r@ == self.deep_view().signature(),
    {
        match self {
            Transaction::Transfer { signature, .. } => signature.as_str(),
            Transaction::Burn { signature, .. } => signature.as_str(),
            Transaction::Mine { signature, .. } => signature.as_str(),
        }
    }

    pub fn is_burn(&self) -> (r: bool)
        ensures
            r == self.deep_view().is_burn(),
    {
        match self {
            Transaction::Burn { .. } => true,
            _ => false,
        }
    }

    pub fn is_mine(&self) -> (r: bool)
        ensures
            r == (self.deep_view() is Mine),
    {
        match self {
            Transaction::Mine { .. } => true,
            _ => false,
        }
    }

    /// The text that block hashes cover.
    pub fn canonical(&self) -> (r: String)
        ensures
            r@ == self.deep_view().canonical(),
    {
        let mut t = self.signing_payload();
        t.append(":");
        t.append(self.signature());
        t
    }

    /// The text that is signed.
    pub fn signing_payload(&self) -> (r: String)
        ensures
            r@ == self.deep_view().signing_payload(),
    {
        match self {
            Transaction::Transfer { inputs, outputs, fee, .. } => {
                let u = UnsignedUtxoTransaction::Transfer {
                    inputs: unsigned_inputs(inputs),
                    outputs: outputs.duplicate(),
                    fee: *fee,
                };
                u.canonical()
            },
            Transaction::Burn { inputs, change, amount, fee, .. } => {
                let u = UnsignedUtxoTransaction::Burn {
                    inputs: unsigned_inputs(inputs),
                    change: change.duplicate(),
                    amount: *amount,
                    fee: *fee,
                };
                u.canonical()
            },
            Transaction::Mine { recipient, anchor, salt, nonce, difficulty_bits, .. } => mine_payload(
                recipient.as_str(),
                anchor.as_str(),
                *salt,
                *nonce,
                *difficulty_bits,
            ),
        }
    }

    /// The outputs that it spends.
    pub fn inputs(&self) -> (r: Vec<TxInput>)
        ensures
            r.deep_view() == self.deep_view().inputs(),
    {
        match self {
            Transaction::Transfer { inputs, .. } => inputs.duplicate(),
            Transaction::Burn { inputs, .. } => inputs.duplicate(),
            Transaction::Mine { .. } => {
                let none: Vec<TxInput> = Vec::new();
                assert(none.deep_view() =~= Seq::<TxInputView>::empty());
                none
            },
        }
    }

    /// The outputs that it creates.
    pub fn outputs(&self) -> (r: Vec<TxOutput>)
        ensures
            r.deep_view() == self.deep_view().outputs(),
    {
        match self {
            Transaction::Transfer { outputs, .. } => outputs.duplicate(),
            Transaction::Burn { change, .. } => change.duplicate(),
            Transaction::Mine { recipient, .. } => {
                let mut outputs: Vec<TxOutput> = Vec::new();
                outputs.push(TxOutput { address: recipient.clone(), amount: MINE_REWARD });
                assert(outputs.deep_view() =~= seq![
                    TxOutputView { address: recipient@, amount: MINE_REWARD },
                ]);
                outputs
            },
        }
    }

    /// Checks that the sender signed, or that the work was done.
    pub fn verify_signature(&self) -> (r: Result<(), Error>)
        ensures
            error::outcome(r) == self.deep_view().signature_check(),
    {
        if let Transaction::Mine { recipient, anchor, salt, nonce, difficulty_bits, proof_header, signature } = self {
            let expected = match proof_header {
                Some(given) => {
                    let header = stratum::stratum_mine_header_bytes(
                        recipient.as_str(),
                        anchor.as_str(),
                        *salt,
                        *nonce,
                        *difficulty_bits,
                    )?;
                    let expected_header = hex::hex_encode(header.as_slice());
                    if !given.same(&expected_header) {
                        return Err(Error::new("mine transaction proof header is invalid"));
                    }
                    stratum::stratum_mine_signature(header.as_slice())
                },
                None => mine_signature(
                    recipient.as_str(),
                    anchor.as_str(),
                    *salt,
                    *nonce,
                    *difficulty_bits,
                ),
            };
            if !signature.same(&expected) {
                return Err(Error::new("mine transaction proof hash is invalid"));
            }
            if !stratum::hash_meets_difficulty(signature.as_str(), *difficulty_bits) {
                return Err(Error::new("mine transaction proof does not meet difficulty"));
            }
            return Ok(());
        }
        let inputs = self.inputs();
        if text_starts_with(self.signature(), "iuna-genesis-burn:") || all_signed(&inputs, "genesis") {
            return Ok(());
        }
        if !all_signed(&inputs, self.signature()) {
            return Err(Error::new("transaction input signature does not match transaction signature"));
        }
        let sender = self.sender();
        let public_key = match hex::decode_hex_array(sender, 32) {
            Ok(key) => key,
            Err(e) => {
                let mut context = text::text("invalid public key for ");
                context.append(sender);
                return Err(e.context(context.as_str()));
            },
        };
        let signature = match hex::decode_hex_array(self.signature(), 64) {
            Ok(signature) => signature,
            Err(e) => return Err(e.context("invalid signature hex")),
        };
        if !crypto::is_public_key(public_key.as_slice()) {
            return Err(Error::new("invalid transaction public key"));
        }
        let payload = self.signing_payload();
        if crypto::signature_verifies(
            public_key.as_slice(),
            payload.as_str().as_bytes(),
            signature.as_slice(),
        ) {
            Ok(())
        } else {
            Err(Error::new("transaction signature is invalid"))
        }
    }

    /// The number of bytes that fees are measured by, exactly.
    pub fn economic_size(&self) -> (r: u128)
        ensures
            r == self.deep_view().economic_size(),
            r >= 1,
    {
        match self {
            Transaction::Transfer { inputs, outputs, fee, .. } => 1 + compact_len(inputs.len() as u128)
                + compact_inputs_size_bytes(inputs) + compact_len(outputs.len() as u128)
                + compact_outputs_size_bytes(outputs) + compact_len(*fee as u128) + 64,
            Transaction::Burn { inputs, change, amount, fee, .. } => 1 + compact_len(inputs.len() as u128)
                + compact_inputs_size_bytes(inputs) + compact_len(change.len() as u128)
                + compact_outputs_size_bytes(change) + compact_len(*amount as u128) + compact_len(
                *fee as u128,
            ) + 64,
            Transaction::Mine { salt, nonce, difficulty_bits, proof_header, .. } => {
                let header: u128 = if proof_header.is_some() {
                    80
                } else {
                    0
                };
                1 + 32 + 32 + compact_len(*salt as u128) + compact_len(*nonce as u128) + compact_len(
                    *difficulty_bits as u128,
                ) + 1 + header + 32
            },
        }
    }

    /// The number of bytes that fees are measured by.
    pub fn economic_size_bytes(&self) -> (r: usize)
        requires
            self.deep_view().economic_size() <= usize::MAX,
        ensures
            r == self.deep_view().economic_size(),
    {
        self.economic_size() as usize
    }

    /// Micro-units of fee for a million bytes.
    pub fn fee_rate_key(&self) -> (r: u128)
        ensures
            r == self.deep_view().fee_rate(),
    {
        self.fee() as u128 * 1_000_000 / self.economic_size()
    }
}

/// What a wallet signs for its own inputs passes the signature check.
pub proof fn signed_transaction_verifies(u: UnsignedView, seed: Seq<u8>)
    requires
        u.inputs().len() > 0,
        u.inputs()[0].owner == wallet::address_of(seed),
        crypto::ed25519_public_key(seed).len() == 32,
        crypto::ed25519_is_key(crypto::ed25519_public_key(seed)),
        crypto::ed25519_signature(seed, encode_utf8(u.canonical())).len() == 64,
        crypto::ed25519_verifies(
            crypto::ed25519_public_key(seed),
            encode_utf8(u.canonical()),
            crypto::ed25519_signature(seed, encode_utf8(u.canonical())),
        ),
    ensures
        u.signed(wallet::signature_of(seed, u.canonical())).signature_check() is Ok,
{
    let signature = wallet::signature_of(seed, u.canonical());
    let t = u.signed(signature);
    assert(t.inputs_signed(signature));
    assert(unsigned(t.inputs()) =~= u.inputs());
    assert(t.signing_payload() == u.canonical());
    hex::decode_encode(crypto::ed25519_public_key(seed));
    hex::decode_encode(crypto::ed25519_signature(seed, encode_utf8(u.canonical())));
}

/// An accepted mine action has done its work: the number in the digest of what it commits to (its
/// recipient, anchor, salt, nonce and difficulty) is below two to the power of the digest's bits less
/// its difficulty.
pub proof fn accepted_mine_action_has_done_its_work(t: TransactionView, number: nat)
    requires
        t is Mine,
        t->proof_header is None,
        t.signature_check() is Ok,
        t->difficulty_bits <= 256,
        ({
            let digest = crypto::sha256(
                encode_utf8(
                    "iuna-mine:"@ + t->recipient + ":"@ + t->anchor + ":"@ + text::decimal(t->salt as nat) + ":"@
                        + text::decimal(t->nonce as nat) + ":"@ + text::decimal(t->difficulty_bits as nat),
                ),
            );
            digest.len() == 32 && crate::vdf::number_has_bytes(number, digest)
        }),
    ensures
        number < vstd::arithmetic::power2::pow2((256 - t->difficulty_bits) as nat),
{
    let text = mine_text(t->recipient, t->anchor, t->salt, t->nonce, t->difficulty_bits);
    stratum::difficulty_bounds_the_digest(crypto::sha256(encode_utf8(text)), number, t->difficulty_bits);
}

/// A number takes as many bytes as it has groups of seven bits: it fits in some groups exactly when it
/// is below that power of 128.
pub proof fn compact_size_counts_groups(n: nat, groups: nat)
    requires
        groups >= 1,
    ensures
        compact_size(n) >= 1,
        compact_size(n) <= groups <==> n < pow(128, groups),
    decreases groups,
{
    reveal(pow);
    if n < pow(128, groups) {
        compact_size_bound(n, groups);
    } else {
        lemma_pow1(128);
        if groups == 1 {
            assert(n >= 128);
            assert(compact_size(n / 128) >= 1) by {
                reveal_with_fuel(compact_size, 2);
            }
        } else {
            let g = (groups - 1) as nat;
            let p = pow(128, g);
            assert(pow(128, groups) == 128 * p);
            lemma_pow_positive(128, g);
            assert(n >= 128);
            assert(n / 128 >= p) by (nonlinear_arith)
                requires
                    n >= 128 * p,
            ;
            compact_size_counts_groups(n / 128, g);
        }
    }
}

/// What inputs and outputs add to the size is what each adds.
pub proof fn sizes_are_added_up(inputs: Seq<TxInputView>, input: TxInputView, outputs: Seq<TxOutputView>, output: TxOutputView)
    ensures
        inputs_size(inputs.push(input)) == inputs_size(inputs) + id_size(input.outpoint.txid) + compact_size(
            input.outpoint.index as nat,
        ) + 32,
        outputs_size(outputs.push(output)) == outputs_size(outputs) + 32 + compact_size(output.amount as nat),
        inputs_size(Seq::<TxInputView>::empty()) == 0,
        outputs_size(Seq::<TxOutputView>::empty()) == 0,
{
    assert(inputs.push(input).drop_last() =~= inputs);
    assert(outputs.push(output).drop_last() =~= outputs);
}

} // verus!
