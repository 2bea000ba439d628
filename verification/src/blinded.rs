//! Transactions whose content is sealed until a committee reveals it.
use crate::crypto;
use crate::error;
use crate::error::Error;
use crate::hex;
use crate::model;
use crate::model::Model;
use crate::text;
use crate::transaction;
use crate::transaction::{Amount, Transaction, TransactionView, TxInput, TxInputView};
use vstd::prelude::*;
use vstd::string::*;
use vstd::utf8::*;

verus! {

pub const MAX_BLINDED_TRANSACTION_EXPIRY_HEIGHTS: u64 = 20;

pub const REVEAL_COMMITTEE_SIZE: usize = 3;

pub const MAX_REVEAL_BUNDLE_BYTES: usize = 10_000;

pub const BLINDED_KEY_BYTES: usize = 32;

pub const BLINDED_NONCE_BYTES: usize = 12;

/// The longest content that an envelope can seal.
pub const MAX_SEALED_BYTES: u64 = 274_877_906_816;

/// The envelope of a sealed transaction. It names what the sealed transaction spends, and bears the
/// owner's signature of the envelope on each.
#[derive(Clone, Debug, Eq, PartialEq)]
pub struct BlindedTransaction {
    pub commitment: String,
    pub inputs: Vec<TxInput>,
    pub fee: Amount,
    pub encrypted_size: u32,
    pub expires_at_height: u64,
    pub nonce: String,
    pub ciphertext: String,
    pub payload_hash: String,
}

/// The key of a sealed transaction.
#[derive(Clone, Debug, Eq, PartialEq)]
pub struct BlindedReveal {
    pub commitment: String,
    pub key: String,
}

/// A sealed transaction with its content and key.
#[derive(Clone, Debug, Eq, PartialEq)]
pub struct BuiltBlindedTransaction {
    pub payload: Transaction,
    pub transaction: BlindedTransaction,
    pub reveal: BlindedReveal,
}

/// A sealed transaction that a wallet made and still holds the key of.
#[derive(Clone, Debug, Eq, PartialEq)]
pub struct OwnedBlindedTransaction {
    pub transaction: BlindedTransaction,
    pub payload: Transaction,
    pub reveal: BlindedReveal,
}

/// A transaction that a block revealed.
#[derive(Clone, Debug, Eq, PartialEq)]
pub struct RevealedBlindedTransaction {
    pub height: u64,
    pub commitment: String,
    pub included_by: String,
    pub transaction: Transaction,
}

/// A sealed transaction that a block included and none has revealed.
#[derive(Clone, Debug, Eq, PartialEq)]
pub struct ActiveBlindedTransaction {
    pub transaction: BlindedTransaction,
    pub included_height: u64,
    pub included_by: String,
}

/// The reveals that one committee member signs for a block.
#[derive(Clone, Debug, Eq, PartialEq)]
pub struct RevealBundle {
    pub height: u64,
    pub prev_hash: String,
    pub slot: u8,
    pub member: String,
    pub reveals: Vec<BlindedReveal>,
    pub signature: String,
}

/// A reveal bundle before it is signed.
#[derive(Clone, Debug, Eq, PartialEq)]
pub struct RevealBundlePayload {
    pub height: u64,
    pub prev_hash: String,
    pub slot: u8,
    pub member: String,
    pub reveals: Vec<BlindedReveal>,
}

/// A holder of one of the last tickets, who may reveal.
#[derive(Clone, Debug, Eq, PartialEq)]
pub struct RevealCommitteeMember {
    pub slot: u8,
    pub rank: u32,
    pub ticket_id: String,
    pub owner: String,
    pub amount: Amount,
}

#[verifier::ext_equal]
pub struct BlindedTransactionView {
    pub commitment: Seq<char>,
    pub inputs: Seq<TxInputView>,
    pub fee: Amount,
    pub encrypted_size: u32,
    pub expires_at_height: u64,
    pub nonce: Seq<char>,
    pub ciphertext: Seq<char>,
    pub payload_hash: Seq<char>,
}

#[verifier::ext_equal]
pub struct BlindedRevealView {
    pub commitment: Seq<char>,
    pub key: Seq<char>,
}

#[verifier::ext_equal]
pub struct BuiltBlindedTransactionView {
    pub payload: TransactionView,
    pub transaction: BlindedTransactionView,
    pub reveal: BlindedRevealView,
}

#[verifier::ext_equal]
pub struct RevealedBlindedTransactionView {
    pub height: u64,
    pub commitment: Seq<char>,
    pub included_by: Seq<char>,
    pub transaction: TransactionView,
}

#[verifier::ext_equal]
pub struct ActiveBlindedTransactionView {
    pub transaction: BlindedTransactionView,
    pub included_height: u64,
    pub included_by: Seq<char>,
}

#[verifier::ext_equal]
pub struct RevealBundleView {
    pub height: u64,
    pub prev_hash: Seq<char>,
    pub slot: u8,
    pub member: Seq<char>,
    pub reveals: Seq<BlindedRevealView>,
    pub signature: Seq<char>,
}

#[verifier::ext_equal]
pub struct RevealBundlePayloadView {
    pub height: u64,
    pub prev_hash: Seq<char>,
    pub slot: u8,
    pub member: Seq<char>,
    pub reveals: Seq<BlindedRevealView>,
}

#[verifier::ext_equal]
pub struct RevealCommitteeMemberView {
    pub slot: u8,
    pub rank: u32,
    pub ticket_id: Seq<char>,
    pub owner: Seq<char>,
    pub amount: Amount,
}

impl DeepView for BlindedTransaction {
    type V = BlindedTransactionView;

    open spec fn deep_view(&self) -> BlindedTransactionView {
        BlindedTransactionView {
            commitment: self.commitment@,
            inputs: self.inputs.deep_view(),
            fee: self.fee,
            encrypted_size: self.encrypted_size,
            expires_at_height: self.expires_at_height,
            nonce: self.nonce@,
            ciphertext: self.ciphertext@,
            payload_hash: self.payload_hash@,
        }
    }
}

impl DeepView for BlindedReveal {
    type V = BlindedRevealView;

    open spec fn deep_view(&self) -> BlindedRevealView {
        BlindedRevealView { commitment: self.commitment@, key: self.key@ }
    }
}

impl DeepView for BuiltBlindedTransaction {
    type V = BuiltBlindedTransactionView;

    open spec fn deep_view(&self) -> BuiltBlindedTransactionView {
        BuiltBlindedTransactionView {
            payload: self.payload.deep_view(),
            transaction: self.transaction.deep_view(),
            reveal: self.reveal.deep_view(),
        }
    }
}

/// An owned sealed transaction is modelled like a built one.
impl DeepView for OwnedBlindedTransaction {
    type V = BuiltBlindedTransactionView;

    open spec fn deep_view(&self) -> BuiltBlindedTransactionView {
        BuiltBlindedTransactionView {
            payload: self.payload.deep_view(),
            transaction: self.transaction.deep_view(),
            reveal: self.reveal.deep_view(),
        }
    }
}

impl DeepView for RevealedBlindedTransaction {
    type V = RevealedBlindedTransactionView;

    open spec fn deep_view(&self) -> RevealedBlindedTransactionView {
        RevealedBlindedTransactionView {
            height: self.height,
            commitment: self.commitment@,
            included_by: self.included_by@,
            transaction: self.transaction.deep_view(),
        }
    }
}

impl DeepView for ActiveBlindedTransaction {
    type V = ActiveBlindedTransactionView;

    open spec fn deep_view(&self) -> ActiveBlindedTransactionView {
        ActiveBlindedTransactionView {
            transaction: self.transaction.deep_view(),
            included_height: self.included_height,
            included_by: self.included_by@,
        }
    }
}

impl DeepView for RevealBundle {
    type V = RevealBundleView;

    open spec fn deep_view(&self) -> RevealBundleView {
        RevealBundleView {
            height: self.height,
            prev_hash: self.prev_hash@,
            slot: self.slot,
            member: self.member@,
            reveals: self.reveals.deep_view(),
            signature: self.signature@,
        }
    }
}

impl DeepView for RevealBundlePayload {
    type V = RevealBundlePayloadView;

    open spec fn deep_view(&self) -> RevealBundlePayloadView {
        RevealBundlePayloadView {
            height: self.height,
            prev_hash: self.prev_hash@,
            slot: self.slot,
            member: self.member@,
            reveals: self.reveals.deep_view(),
        }
    }
}

impl DeepView for RevealCommitteeMember {
    type V = RevealCommitteeMemberView;

    open spec fn deep_view(&self) -> RevealCommitteeMemberView {
        RevealCommitteeMemberView {
            slot: self.slot,
            rank: self.rank,
            ticket_id: self.ticket_id@,
            owner: self.owner@,
            amount: self.amount,
        }
    }
}

impl Model for BlindedTransaction {
    fn duplicate(&self) -> (r: Self) {
        BlindedTransaction {
            commitment: self.commitment.clone(),
            inputs: self.inputs.duplicate(),
            fee: self.fee,
            encrypted_size: self.encrypted_size,
            expires_at_height: self.expires_at_height,
            nonce: self.nonce.clone(),
            ciphertext: self.ciphertext.clone(),
            payload_hash: self.payload_hash.clone(),
        }
    }

    fn same(&self, other: &Self) -> (r: bool) {
        self.commitment.same(&other.commitment) && self.inputs.same(&other.inputs) && self.fee == other.fee && self.encrypted_size
            == other.encrypted_size && self.expires_at_height == other.expires_at_height && self.nonce.same(
            &other.nonce,
        ) && self.ciphertext.same(&other.ciphertext) && self.payload_hash.same(&other.payload_hash)
    }
}

impl Model for BlindedReveal {
    fn duplicate(&self) -> (r: Self) {
        BlindedReveal { commitment: self.commitment.clone(), key: self.key.clone() }
    }

    fn same(&self, other: &Self) -> (r: bool) {
        self.commitment.same(&other.commitment) && self.key.same(&other.key)
    }
}

impl Model for OwnedBlindedTransaction {
    fn duplicate(&self) -> (r: Self) {
        OwnedBlindedTransaction {
            transaction: self.transaction.duplicate(),
            payload: self.payload.duplicate(),
            reveal: self.reveal.duplicate(),
        }
    }

    fn same(&self, other: &Self) -> (r: bool) {
        self.transaction.same(&other.transaction) && self.payload.same(&other.payload) && self.reveal.same(
            &other.reveal,
        )
    }
}

impl Model for ActiveBlindedTransaction {
    fn duplicate(&self) -> (r: Self) {
        ActiveBlindedTransaction {
            transaction: self.transaction.duplicate(),
            included_height: self.included_height,
            included_by: self.included_by.clone(),
        }
    }

    fn same(&self, other: &Self) -> (r: bool) {
        self.transaction.same(&other.transaction) && self.included_height == other.included_height
            && self.included_by.same(&other.included_by)
    }
}

impl Model for RevealBundle {
    fn duplicate(&self) -> (r: Self) {
        RevealBundle {
            height: self.height,
            prev_hash: self.prev_hash.clone(),
            slot: self.slot,
            member: self.member.clone(),
            reveals: self.reveals.duplicate(),
            signature: self.signature.clone(),
        }
    }

    fn same(&self, other: &Self) -> (r: bool) {
        self.height == other.height && self.prev_hash.same(&other.prev_hash) && self.slot == other.slot
            && self.member.same(&other.member) && self.reveals.same(&other.reveals) && self.signature.same(
            &other.signature,
        )
    }
}

impl BlindedTransactionView {
    /// The text of everything but the commitment and the inputs.
    pub open spec fn terms(self) -> Seq<char> {
        text::decimal(self.fee as nat) + ":"@ + text::decimal(self.encrypted_size as nat) + ":"@ + text::decimal(
            self.expires_at_height as nat,
        ) + ":"@ + self.nonce + ":"@ + self.ciphertext + ":"@ + self.payload_hash + ":"@
    }

    /// The text that the commitment covers.
    pub open spec fn canonical(self) -> Seq<char> {
        "blinded-tx:"@ + self.terms() + transaction::signed_inputs_text(self.inputs)
    }

    /// The text that the owner of the inputs signs.
    pub open spec fn authorization(self) -> Seq<char> {
        "blinded-inputs:"@ + self.terms() + transaction::inputs_text(transaction::unsigned(self.inputs))
    }

    /// Whether the inputs have one owner, who signed the envelope; or why not. An envelope without
    /// inputs has no owner.
    pub open spec fn owner_check(self) -> Result<(), Seq<char>> {
        if self.inputs.len() == 0 {
            Ok(())
        } else {
            let owner = self.inputs[0].owner;
            let signature = self.inputs[0].signature;
            if exists|i: int| 0 <= i < self.inputs.len() && (#[trigger] self.inputs[i]).owner != owner {
                Err("blinded transaction inputs must have one owner"@)
            } else if exists|i: int| 0 <= i < self.inputs.len() && (#[trigger] self.inputs[i]).signature != signature {
                Err("blinded transaction inputs must have one signature"@)
            } else {
                match hex::exact_bytes_of(owner, 32) {
                    Err(e) => Err(error::in_context("invalid public key for "@ + owner, e)),
                    Ok(key) => match hex::exact_bytes_of(signature, 64) {
                        Err(e) => Err(error::in_context("invalid signature hex"@, e)),
                        Ok(bytes) => if !crypto::ed25519_is_key(key) {
                            Err("invalid blinded transaction public key"@)
                        } else if !crypto::ed25519_verifies(key, encode_utf8(self.authorization()), bytes) {
                            Err("blinded transaction is not signed by the owner of its inputs"@)
                        } else {
                            Ok(())
                        },
                    },
                }
            }
        }
    }

    /// Whether the owner of an input signed the envelope.
    pub open spec fn signed_by_owner_of(self, n: int) -> bool {
        &&& hex::exact_bytes_of(self.inputs[n].owner, 32) matches Ok(key)
        &&& hex::exact_bytes_of(self.inputs[n].signature, 64) matches Ok(signature)
        &&& crypto::ed25519_is_key(key)
        &&& crypto::ed25519_verifies(key, encode_utf8(self.authorization()), signature)
    }

    /// The commitment that the envelope must carry.
    pub open spec fn expected_commitment(self) -> Seq<char> {
        crypto::hash_of(self.canonical())
    }
}

impl BlindedTransaction {
    pub fn id(&self) -> (r: &str)
        ensures
            r@ == self.deep_view().commitment,
    {
        self.commitment.as_str()
    }

    /// The text that the commitment covers.
    pub fn canonical(&self) -> (r: String)
        ensures
            r@ == self.deep_view().canonical(),
    {
        let mut t = text::text("blinded-tx:");
        t.append(self.terms().as_str());
        t.append(transaction::signed_text_of(&self.inputs).as_str());
        t
    }

    /// The text of everything but the commitment and the inputs.
    fn terms(&self) -> (r: String)
        ensures
            r@ == self.deep_view().terms(),
    {
        let mut t = String::new();
        text::push_decimal(&mut t, self.fee as u128);
        t.append(":");
        text::push_decimal(&mut t, self.encrypted_size as u128);
        t.append(":");
        text::push_decimal(&mut t, self.expires_at_height as u128);
        t.append(":");
        t.append(self.nonce.as_str());
        t.append(":");
        t.append(self.ciphertext.as_str());
        t.append(":");
        t.append(self.payload_hash.as_str());
        t.append(":");
        assert(t@ =~= self.deep_view().terms());
        t
    }

    /// The text that the owner of the inputs signs.
    pub fn authorization(&self) -> (r: String)
        ensures
            r@ == self.deep_view().authorization(),
    {
        let mut t = text::text("blinded-inputs:");
        t.append(self.terms().as_str());
        t.append(transaction::canonical_inputs(&transaction::unsigned_inputs(&self.inputs)).as_str());
        t
    }

    /// Checks that the inputs have one owner, who signed the envelope.
    pub fn verify_owner(&self) -> (r: Result<(), Error>)
        ensures
            error::outcome(r) == self.deep_view().owner_check(),
    {
        if self.inputs.len() == 0 {
            return Ok(());
        }
        let owner = self.inputs[0].owner.as_str();
        let signature = self.inputs[0].signature.as_str();
        if !transaction::all_owned(&self.inputs, owner) {
            return Err(Error::new("blinded transaction inputs must have one owner"));
        }
        if !transaction::all_signed(&self.inputs, signature) {
            return Err(Error::new("blinded transaction inputs must have one signature"));
        }
        let key = match hex::decode_hex_array(owner, 32) {
            Ok(key) => key,
            Err(e) => {
                let mut context = text::text("invalid public key for ");
                context.append(owner);
                return Err(e.context(context.as_str()));
            },
        };
        let bytes = match hex::decode_hex_array(signature, 64) {
            Ok(bytes) => bytes,
            Err(e) => return Err(e.context("invalid signature hex")),
        };
        if !crypto::is_public_key(key.as_slice()) {
            return Err(Error::new("invalid blinded transaction public key"));
        }
        let text = self.authorization();
        if crypto::signature_verifies(key.as_slice(), text.as_str().as_bytes(), bytes.as_slice()) {
            Ok(())
        } else {
            Err(Error::new("blinded transaction is not signed by the owner of its inputs"))
        }
    }
}

/// The commitment of an envelope: the hash of its text, which leaves the commitment out.
pub fn blinded_transaction_commitment(transaction: &BlindedTransaction) -> (r: String)
    ensures
        r@ == transaction.deep_view().expected_commitment(),
        crypto::sha256(encode_utf8(transaction.deep_view().canonical())).len() == 32,
{
    let t = transaction.canonical();
    crypto::hash_text(t.as_str())
}

impl BlindedRevealView {
    pub open spec fn canonical(self) -> Seq<char> {
        "blinded-reveal:"@ + self.commitment + ":"@ + self.key
    }
}

impl BlindedReveal {
    pub fn canonical(&self) -> (r: String)
        ensures
            r@ == self.deep_view().canonical(),
    {
        let mut t = text::text("blinded-reveal:");
        t.append(self.commitment.as_str());
        t.append(":");
        t.append(self.key.as_str());
        t
    }
}

/// The texts of reveals, joined.
pub open spec fn reveals_text(reveals: Seq<BlindedRevealView>) -> Seq<char> {
    text::joined(Seq::new(reveals.len(), |i: int| reveals[i].canonical()))
}

/// The texts of reveals, joined.
pub fn canonical_reveals(reveals: &Vec<BlindedReveal>) -> (r: String)
    ensures
        r@ == reveals_text(reveals.deep_view()),
{
    let mut parts: Vec<String> = Vec::new();
    let mut i: usize = 0;
    while i < reveals.len()
        invariant
            i <= reveals.len(),
            parts@.len() == i,
            forall|j: int| 0 <= j < i ==> (#[trigger] parts@[j])@ == reveals@[j].deep_view().canonical(),
        decreases reveals.len() - i,
    {
        parts.push(reveals[i].canonical());
        i = i + 1;
    }
    let ghost v = reveals.deep_view();
    assert(parts.deep_view() =~= Seq::new(v.len(), |i: int| v[i].canonical()));
    text::join(&parts)
}

impl RevealBundlePayloadView {
    /// The text that the member signs.
    pub open spec fn canonical(self) -> Seq<char> {
        "iuna-reveal-bundle-v1:"@ + text::decimal(self.height as nat) + ":"@ + self.prev_hash + ":"@
            + text::decimal(self.slot as nat) + ":"@ + self.member + ":"@ + reveals_text(self.reveals)
    }
}

impl RevealBundlePayload {
    /// The text that the member signs.
    pub fn canonical(&self) -> (r: String)
        ensures
            r@ == self.deep_view().canonical(),
    {
        let mut t = text::text("iuna-reveal-bundle-v1:");
        text::push_decimal(&mut t, self.height as u128);
        t.append(":");
        t.append(self.prev_hash.as_str());
        t.append(":");
        text::push_decimal(&mut t, self.slot as u128);
        t.append(":");
        t.append(self.member.as_str());
        t.append(":");
        t.append(canonical_reveals(&self.reveals).as_str());
        t
    }
}

impl RevealBundleView {
    /// The bundle without its signature.
    pub open spec fn payload(self) -> RevealBundlePayloadView {
        RevealBundlePayloadView {
            height: self.height,
            prev_hash: self.prev_hash,
            slot: self.slot,
            member: self.member,
            reveals: self.reveals,
        }
    }

    pub open spec fn canonical(self) -> Seq<char> {
        self.payload().canonical() + ":"@ + self.signature
    }
}

impl RevealBundle {
    /// The text that the member signed.
    pub fn canonical_payload(&self) -> (r: String)
        ensures
            r@ == self.deep_view().payload().canonical(),
    {
        let payload = RevealBundlePayload {
            height: self.height,
            prev_hash: self.prev_hash.clone(),
            slot: self.slot,
            member: self.member.clone(),
            reveals: self.reveals.duplicate(),
        };
        payload.canonical()
    }

    /// The text that the bundle hash covers.
    pub fn canonical(&self) -> (r: String)
        ensures
            r@ == self.deep_view().canonical(),
    {
        let mut t = self.canonical_payload();
        t.append(":");
        t.append(self.signature.as_str());
        t
    }

    pub fn bundle_hash(&self) -> (r: String)
        ensures
            r@ == crypto::hash_of(self.deep_view().canonical()),
    {
        let t = self.canonical();
        crypto::hash_text(t.as_str())
    }
}

/// The bundle hash of a slot that nobody filled.
pub open spec fn default_bundle_hash(slot: nat) -> Seq<char> {
    crypto::hash_of("iuna-default-reveal-bundle-v1:"@ + text::decimal(slot))
}

pub fn default_reveal_bundle_hash(slot: usize) -> (r: String)
    ensures
        r@ == default_bundle_hash(slot as nat),
{
    let mut t = text::text("iuna-default-reveal-bundle-v1:");
    text::push_decimal(&mut t, slot as u128);
    crypto::hash_text(t.as_str())
}

/// The first bundle for a slot.
pub open spec fn bundle_for_slot(bundles: Seq<RevealBundleView>, slot: nat) -> Option<RevealBundleView>
    decreases bundles.len(),
{
    if bundles.len() == 0 {
        None
    } else {
        match bundle_for_slot(bundles.drop_last(), slot) {
            Some(bundle) => Some(bundle),
            None => if bundles.last().slot == slot {
                Some(bundles.last())
            } else {
                None
            },
        }
    }
}

/// The hash that stands for a slot.
pub open spec fn slot_hash(bundles: Seq<RevealBundleView>, slot: nat) -> Seq<char> {
    match bundle_for_slot(bundles, slot) {
        Some(bundle) => crypto::hash_of(bundle.canonical()),
        None => default_bundle_hash(slot),
    }
}

/// The hashes of the three slots.
pub open spec fn slot_hashes(bundles: Seq<RevealBundleView>) -> Seq<Seq<char>> {
    seq![slot_hash(bundles, 0), slot_hash(bundles, 1), slot_hash(bundles, 2)]
}

proof fn bundle_found(bundles: Seq<RevealBundleView>, slot: nat, n: int)
    requires
        0 <= n < bundles.len(),
        bundle_for_slot(bundles.take(n), slot) is None,
        bundles[n].slot == slot,
    ensures
        bundle_for_slot(bundles, slot) == Some(bundles[n]),
    decreases bundles.len(),
{
    if n < bundles.len() - 1 {
        assert(bundles.drop_last().take(n) =~= bundles.take(n));
        bundle_found(bundles.drop_last(), slot, n);
    } else {
        assert(bundles.drop_last() =~= bundles.take(n));
    }
}

fn slot_bundle_hash(bundles: &Vec<RevealBundle>, slot: usize) -> (r: String)
    ensures
        r@ == slot_hash(bundles.deep_view(), slot as nat),
{
    let ghost v = bundles.deep_view();
    let mut i: usize = 0;
    proof {
        model::take_all(v);
    }
    while i < bundles.len()
        invariant
            i <= bundles.len(),
            v == bundles.deep_view(),
            bundle_for_slot(v.take(i as int), slot as nat) is None,
        decreases bundles.len() - i,
    {
        if bundles[i].slot as usize == slot {
            proof {
                bundle_found(v, slot as nat, i as int);
            }
            return bundles[i].bundle_hash();
        }
        proof {
            assert(v.take(i + 1).drop_last() =~= v.take(i as int));
        }
        i = i + 1;
    }
    proof {
        model::take_all(v);
    }
    default_reveal_bundle_hash(slot)
}

/// The hashes of the three slots.
pub fn reveal_bundle_hashes(bundles: &Vec<RevealBundle>) -> (r: [String; 3])
    ensures
        model::views(r@) == slot_hashes(bundles.deep_view()),
{
    let r = [slot_bundle_hash(bundles, 0), slot_bundle_hash(bundles, 1), slot_bundle_hash(bundles, 2)];
    assert(model::views(r@) =~= slot_hashes(bundles.deep_view()));
    r
}

/// The associated data that a sealing is bound to.
pub open spec fn payload_aad(fee: Amount, expires_at_height: u64) -> Seq<char> {
    "iuna-blinded-payload-v1:"@ + text::decimal(fee as nat) + ":"@ + text::decimal(expires_at_height as nat)
}

fn blinded_payload_aad(fee: Amount, expires_at_height: u64) -> (r: String)
    ensures
        r@ == payload_aad(fee, expires_at_height),
{
    let mut t = text::text("iuna-blinded-payload-v1:");
    text::push_decimal(&mut t, fee as u128);
    t.append(":");
    text::push_decimal(&mut t, expires_at_height as u128);
    t
}

/// Seals the content of a transaction under a key and nonce.
pub fn encrypt_blinded_payload(
    key: &[u8],
    nonce: &[u8],
    fee: Amount,
    expires_at_height: u64,
    plaintext: &[u8],
) -> (r: Result<Vec<u8>, Error>)
    requires
        key@.len() == 32,
        nonce@.len() == 12,
    ensures
        match r {
            Ok(c) => {
                let aad = encode_utf8(payload_aad(fee, expires_at_height));
                &&& plaintext@.len() <= MAX_SEALED_BYTES
                &&& c@ == crypto::sealed(key@, nonce@, aad, plaintext@)
                &&& c@.len() == plaintext@.len() + 16
                &&& crypto::opened(key@, nonce@, aad, c@) == Some(plaintext@)
            },
            Err(e) => plaintext@.len() > MAX_SEALED_BYTES && e.deep_view()
                == "failed to encrypt blinded transaction payload"@,
        },
{
    if plaintext.len() as u128 > MAX_SEALED_BYTES as u128 {
        return Err(Error::new("failed to encrypt blinded transaction payload"));
    }
    let aad = blinded_payload_aad(fee, expires_at_height);
    match crypto::seal(key, nonce, aad.as_str().as_bytes(), plaintext) {
        Some(c) => Ok(c),
        None => Err(Error::new("failed to encrypt blinded transaction payload")),
    }
}

/// Opens the sealed content of a transaction.
pub fn decrypt_blinded_payload(
    key: &[u8],
    nonce: &[u8],
    fee: Amount,
    expires_at_height: u64,
    ciphertext: &[u8],
) -> (r: Result<Vec<u8>, Error>)
    requires
        key@.len() == 32,
        nonce@.len() == 12,
    ensures
        match r {
            Ok(m) => crypto::opened(
                key@,
                nonce@,
                encode_utf8(payload_aad(fee, expires_at_height)),
                ciphertext@,
            ) == Some(m@),
            Err(e) => crypto::opened(
                key@,
                nonce@,
                encode_utf8(payload_aad(fee, expires_at_height)),
                ciphertext@,
            ) is None && e.deep_view() == "failed to decrypt blinded transaction payload"@,
        },
{
    let aad = blinded_payload_aad(fee, expires_at_height);
    match crypto::open_sealed(key, nonce, aad.as_str().as_bytes(), ciphertext) {
        Some(m) => Ok(m),
        None => Err(Error::new("failed to decrypt blinded transaction payload")),
    }
}

} // verus!
