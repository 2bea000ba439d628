//! Blocks: their content, hashes and the proof of their finalizer.
use crate::acceptance;
use crate::blinded;
use crate::blinded::{
    BlindedReveal, BlindedRevealView, BlindedTransaction, BlindedTransactionView, RevealBundle,
    RevealBundleView,
};
use crate::crypto;
use crate::model;
use crate::model::Model;
use crate::text;
use crate::transaction::{Amount, Transaction, TransactionView};
use crate::wallet;
use crate::wallet::Wallet;
use vstd::prelude::*;
use vstd::string::*;
use vstd::utf8::*;

verus! {

/// How the finalizer of a block was chosen.
#[derive(Clone, Copy, Debug, Default, Eq, PartialEq, Structural)]
pub enum FinalizerMode {
    #[default]
    Ticket,
    Recovery,
}

/// The signature of the holder of the selected ticket.
#[derive(Clone, Debug, Eq, PartialEq)]
pub struct LeaderProof {
    pub ticket_id: String,
    pub public_key: String,
    pub signature: String,
}

/// What the holder of a ticket signs.
#[derive(Clone, Debug, Eq, PartialEq)]
pub struct LeaderProofPayload {
    pub height: u64,
    pub prev_hash: String,
    pub finalizer_rank: u32,
    pub vdf_output: String,
    pub ticket_id: String,
    pub ticket_amount: Amount,
    pub ticket_owner: String,
}

#[derive(Clone, Debug, Eq, PartialEq)]
pub struct Block {
    pub height: u64,
    pub prev_hash: String,
    pub timestamp_ms: u64,
    pub miner: String,
    pub finalizer_mode: FinalizerMode,
    pub finalizer_rank: u32,
    pub reward: Amount,
    pub vdf_rounds: u64,
    pub vdf_output: String,
    pub leader_proof: Option<LeaderProof>,
    pub blinded_transactions: Vec<BlindedTransaction>,
    pub reveal_bundles: Vec<RevealBundle>,
    pub transactions: Vec<Transaction>,
    pub hash: String,
}

#[verifier::ext_equal]
pub struct LeaderProofView {
    pub ticket_id: Seq<char>,
    pub public_key: Seq<char>,
    pub signature: Seq<char>,
}

#[verifier::ext_equal]
pub struct LeaderProofPayloadView {
    pub height: u64,
    pub prev_hash: Seq<char>,
    pub finalizer_rank: u32,
    pub vdf_output: Seq<char>,
    pub ticket_id: Seq<char>,
    pub ticket_amount: Amount,
    pub ticket_owner: Seq<char>,
}

#[verifier::ext_equal]
pub struct BlockView {
    pub height: u64,
    pub prev_hash: Seq<char>,
    pub timestamp_ms: u64,
    pub miner: Seq<char>,
    pub finalizer_mode: FinalizerMode,
    pub finalizer_rank: u32,
    pub reward: Amount,
    pub vdf_rounds: u64,
    pub vdf_output: Seq<char>,
    pub leader_proof: Option<LeaderProofView>,
    pub blinded_transactions: Seq<BlindedTransactionView>,
    pub reveal_bundles: Seq<RevealBundleView>,
    pub transactions: Seq<TransactionView>,
    pub hash: Seq<char>,
}

impl DeepView for FinalizerMode {
    type V = FinalizerMode;

    open spec fn deep_view(&self) -> FinalizerMode {
        *self
    }
}

impl DeepView for LeaderProof {
    type V = LeaderProofView;

    open spec fn deep_view(&self) -> LeaderProofView {
        LeaderProofView {
            ticket_id: self.ticket_id@,
            public_key: self.public_key@,
            signature: self.signature@,
        }
    }
}

impl DeepView for LeaderProofPayload {
    type V = LeaderProofPayloadView;

    open spec fn deep_view(&self) -> LeaderProofPayloadView {
        LeaderProofPayloadView {
            height: self.height,
            prev_hash: self.prev_hash@,
            finalizer_rank: self.finalizer_rank,
            vdf_output: self.vdf_output@,
            ticket_id: self.ticket_id@,
            ticket_amount: self.ticket_amount,
            ticket_owner: self.ticket_owner@,
        }
    }
}

impl DeepView for Block {
    type V = BlockView;

    open spec fn deep_view(&self) -> BlockView {
        BlockView {
            height: self.height,
            prev_hash: self.prev_hash@,
            timestamp_ms: self.timestamp_ms,
            miner: self.miner@,
            finalizer_mode: self.finalizer_mode,
            finalizer_rank: self.finalizer_rank,
            reward: self.reward,
            vdf_rounds: self.vdf_rounds,
            vdf_output: self.vdf_output@,
            leader_proof: self.leader_proof.deep_view(),
            blinded_transactions: self.blinded_transactions.deep_view(),
            reveal_bundles: self.reveal_bundles.deep_view(),
            transactions: self.transactions.deep_view(),
            hash: self.hash@,
        }
    }
}

impl Model for LeaderProof {
    fn duplicate(&self) -> (r: Self) {
        LeaderProof {
            ticket_id: self.ticket_id.clone(),
            public_key: self.public_key.clone(),
            signature: self.signature.clone(),
        }
    }

    fn same(&self, other: &Self) -> (r: bool) {
        self.ticket_id.same(&other.ticket_id) && self.public_key.same(&other.public_key) && self.signature.same(
            &other.signature,
        )
    }
}

impl Model for Block {
    fn duplicate(&self) -> (r: Self) {
        Block {
            height: self.height,
            prev_hash: self.prev_hash.clone(),
            timestamp_ms: self.timestamp_ms,
            miner: self.miner.clone(),
            finalizer_mode: self.finalizer_mode,
            finalizer_rank: self.finalizer_rank,
            reward: self.reward,
            vdf_rounds: self.vdf_rounds,
            vdf_output: self.vdf_output.clone(),
            leader_proof: self.leader_proof.duplicate(),
            blinded_transactions: self.blinded_transactions.duplicate(),
            reveal_bundles: self.reveal_bundles.duplicate(),
            transactions: self.transactions.duplicate(),
            hash: self.hash.clone(),
        }
    }

    fn same(&self, other: &Self) -> (r: bool) {
        let head = self.height == other.height && self.prev_hash.same(&other.prev_hash) && self.timestamp_ms
            == other.timestamp_ms && self.miner.same(&other.miner) && self.finalizer_mode
            == other.finalizer_mode && self.finalizer_rank == other.finalizer_rank && self.reward
            == other.reward && self.vdf_rounds == other.vdf_rounds && self.vdf_output.same(&other.vdf_output);
        head && self.leader_proof.same(&other.leader_proof) && self.blinded_transactions.same(
            &other.blinded_transactions,
        ) && self.reveal_bundles.same(&other.reveal_bundles) && self.transactions.same(&other.transactions)
            && self.hash.same(&other.hash)
    }
}

/// Among the places in a fork, a ticket block goes before a recovery block.
pub open spec fn mode_rank(mode: FinalizerMode) -> u8 {
    match mode {
        FinalizerMode::Ticket => 0,
        FinalizerMode::Recovery => 1,
    }
}

impl FinalizerMode {
    pub fn fork_choice_rank(self) -> (r: u8)
        ensures
            r == mode_rank(self),
    {
        match self {
            FinalizerMode::Ticket => 0,
            FinalizerMode::Recovery => 1,
        }
    }
}

impl LeaderProofView {
    /// The hash that breaks ties between blocks of one rank.
    pub open spec fn rank(self) -> Seq<char> {
        crypto::hash_of("iuna-leader-rank:"@ + self.ticket_id + ":"@ + self.signature)
    }

    pub open spec fn canonical(self) -> Seq<char> {
        self.ticket_id + ":"@ + self.public_key + ":"@ + self.signature
    }
}

impl LeaderProof {
    pub fn rank(&self) -> (r: String)
        ensures
            r@ == self.deep_view().rank(),
    {
        let mut t = text::text("iuna-leader-rank:");
        t.append(self.ticket_id.as_str());
        t.append(":");
        t.append(self.signature.as_str());
        crypto::hash_text(t.as_str())
    }

    fn canonical(&self) -> (r: String)
        ensures
            r@ == self.deep_view().canonical(),
    {
        let mut t = self.ticket_id.clone();
        t.append(":");
        t.append(self.public_key.as_str());
        t.append(":");
        t.append(self.signature.as_str());
        t
    }
}

impl LeaderProofPayloadView {
    /// The text that the holder of the ticket signs.
    pub open spec fn canonical(self) -> Seq<char> {
        if self.finalizer_rank == 0 {
            "iuna-leader-proof:"@ + text::decimal(self.height as nat) + ":"@ + self.prev_hash + ":"@
                + self.vdf_output + ":"@ + self.ticket_id + ":"@ + text::decimal(self.ticket_amount as nat) + ":"@
                + self.ticket_owner
        } else {
            "iuna-leader-proof-v2:"@ + text::decimal(self.height as nat) + ":"@ + self.prev_hash + ":"@
                + text::decimal(self.finalizer_rank as nat) + ":"@ + self.vdf_output + ":"@ + self.ticket_id
                + ":"@ + text::decimal(self.ticket_amount as nat) + ":"@ + self.ticket_owner
        }
    }
}

impl LeaderProofPayload {
    /// The text that the holder of the ticket signs.
    pub fn canonical(&self) -> (r: String)
        ensures
            r@ == self.deep_view().canonical(),
    {
        if self.finalizer_rank == 0 {
            let mut t = text::text("iuna-leader-proof:");
            text::push_decimal(&mut t, self.height as u128);
            t.append(":");
            t.append(self.prev_hash.as_str());
            t.append(":");
            t.append(self.vdf_output.as_str());
            t.append(":");
            t.append(self.ticket_id.as_str());
            t.append(":");
            text::push_decimal(&mut t, self.ticket_amount as u128);
            t.append(":");
            t.append(self.ticket_owner.as_str());
            t
        } else {
            let mut t = text::text("iuna-leader-proof-v2:");
            text::push_decimal(&mut t, self.height as u128);
            t.append(":");
            t.append(self.prev_hash.as_str());
            t.append(":");
            text::push_decimal(&mut t, self.finalizer_rank as u128);
            t.append(":");
            t.append(self.vdf_output.as_str());
            t.append(":");
            t.append(self.ticket_id.as_str());
            t.append(":");
            text::push_decimal(&mut t, self.ticket_amount as u128);
            t.append(":");
            t.append(self.ticket_owner.as_str());
            t
        }
    }
}

/// The proof that a wallet makes for a ticket.
pub open spec fn leader_proof_of(payload: LeaderProofPayloadView, seed: Seq<u8>) -> LeaderProofView {
    LeaderProofView {
        ticket_id: payload.ticket_id,
        public_key: wallet::address_of(seed),
        signature: wallet::signature_of(seed, payload.canonical()),
    }
}

impl Wallet {
    /// Signs for a ticket.
    pub fn leader_proof(&self, payload: &LeaderProofPayload) -> (r: LeaderProof)
        ensures
            r.deep_view() == leader_proof_of(payload.deep_view(), self.seed()),
    {
        let t = payload.canonical();
        let signature = self.sign_payload(t.as_str());
        LeaderProof { ticket_id: payload.ticket_id.clone(), public_key: text::text(self.address()), signature }
    }

    /// Signs a bundle of reveals.
    pub fn reveal_bundle(&self, payload: blinded::RevealBundlePayload) -> (r: RevealBundle)
        ensures
            r.deep_view() == signed_bundle(payload.deep_view(), self.seed()),
            acceptance::signs(self.seed(), payload.deep_view().canonical()),
    {
        let t = payload.canonical();
        let signature = self.sign_payload(t.as_str());
        RevealBundle {
            height: payload.height,
            prev_hash: payload.prev_hash,
            slot: payload.slot,
            member: text::text(self.address()),
            reveals: payload.reveals,
            signature,
        }
    }
}

/// The bundle that a wallet signs.
pub open spec fn signed_bundle(payload: blinded::RevealBundlePayloadView, seed: Seq<u8>) -> RevealBundleView {
    RevealBundleView {
        height: payload.height,
        prev_hash: payload.prev_hash,
        slot: payload.slot,
        member: wallet::address_of(seed),
        reveals: payload.reveals,
        signature: wallet::signature_of(seed, payload.canonical()),
    }
}

/// The reveals of all bundles, one bundle after another.
pub open spec fn bundle_reveals(bundles: Seq<RevealBundleView>) -> Seq<BlindedRevealView>
    decreases bundles.len(),
{
    if bundles.len() == 0 {
        Seq::<BlindedRevealView>::empty()
    } else {
        bundle_reveals(bundles.drop_last()) + bundles.last().reveals
    }
}

/// Whether a commitment is among reveals.
pub open spec fn reveals_commitment(reveals: Seq<BlindedRevealView>, commitment: Seq<char>) -> bool {
    exists|i: int| 0 <= i < reveals.len() && (#[trigger] reveals[i]).commitment == commitment
}

/// The first reveal of each commitment.
pub open spec fn first_reveals(reveals: Seq<BlindedRevealView>) -> Seq<BlindedRevealView>
    decreases reveals.len(),
{
    if reveals.len() == 0 {
        Seq::<BlindedRevealView>::empty()
    } else {
        let earlier = first_reveals(reveals.drop_last());
        if reveals_commitment(earlier, reveals.last().commitment) {
            earlier
        } else {
            earlier.push(reveals.last())
        }
    }
}

/// No commitment is revealed twice.
pub proof fn first_reveals_distinct(reveals: Seq<BlindedRevealView>)
    ensures
        forall|i: int, k: int|
            0 <= i < k < first_reveals(reveals).len() ==> (#[trigger] first_reveals(reveals)[i]).commitment != (
            #[trigger] first_reveals(reveals)[k]).commitment,
    decreases reveals.len(),
{
    if reveals.len() > 0 {
        first_reveals_distinct(reveals.drop_last());
        let earlier = first_reveals(reveals.drop_last());
        let now = first_reveals(reveals);
        assert forall|i: int, k: int| 0 <= i < k < now.len() implies (#[trigger] now[i]).commitment != (
        #[trigger] now[k]).commitment by {
            if !reveals_commitment(earlier, reveals.last().commitment) {
                assert(now[i] == earlier[i]);
                if k < earlier.len() {
                    assert(now[k] == earlier[k]);
                }
            }
        }
    }
}

/// Items by their texts, joined.
pub open spec fn transactions_text(transactions: Seq<TransactionView>) -> Seq<char> {
    text::joined(Seq::new(transactions.len(), |i: int| transactions[i].canonical()))
}

pub open spec fn blinded_text(transactions: Seq<BlindedTransactionView>) -> Seq<char> {
    text::joined(Seq::new(transactions.len(), |i: int| transactions[i].canonical()))
}

pub open spec fn bundles_text(bundles: Seq<RevealBundleView>) -> Seq<char> {
    text::joined(Seq::new(bundles.len(), |i: int| bundles[i].canonical()))
}

/// The texts of transactions, joined.
pub fn canonical_transactions(transactions: &Vec<Transaction>) -> (r: String)
    ensures
        r@ == transactions_text(transactions.deep_view()),
{
    let mut parts: Vec<String> = Vec::new();
    let mut i: usize = 0;
    while i < transactions.len()
        invariant
            i <= transactions.len(),
            parts@.len() == i,
            forall|j: int| 0 <= j < i ==> (#[trigger] parts@[j])@ == transactions@[j].deep_view().canonical(),
        decreases transactions.len() - i,
    {
        parts.push(transactions[i].canonical());
        i = i + 1;
    }
    let ghost v = transactions.deep_view();
    assert(parts.deep_view() =~= Seq::new(v.len(), |i: int| v[i].canonical()));
    text::join(&parts)
}

fn canonical_blinded(transactions: &Vec<BlindedTransaction>) -> (r: String)
    ensures
        r@ == blinded_text(transactions.deep_view()),
{
    let mut parts: Vec<String> = Vec::new();
    let mut i: usize = 0;
    while i < transactions.len()
        invariant
            i <= transactions.len(),
            parts@.len() == i,
            forall|j: int| 0 <= j < i ==> (#[trigger] parts@[j])@ == transactions@[j].deep_view().canonical(),
        decreases transactions.len() - i,
    {
        parts.push(transactions[i].canonical());
        i = i + 1;
    }
    let ghost v = transactions.deep_view();
    assert(parts.deep_view() =~= Seq::new(v.len(), |i: int| v[i].canonical()));
    text::join(&parts)
}

fn canonical_bundles(bundles: &Vec<RevealBundle>) -> (r: String)
    ensures
        r@ == bundles_text(bundles.deep_view()),
{
    let mut parts: Vec<String> = Vec::new();
    let mut i: usize = 0;
    while i < bundles.len()
        invariant
            i <= bundles.len(),
            parts@.len() == i,
            forall|j: int| 0 <= j < i ==> (#[trigger] parts@[j])@ == bundles@[j].deep_view().canonical(),
        decreases bundles.len() - i,
    {
        parts.push(bundles[i].canonical());
        i = i + 1;
    }
    let ghost v = bundles.deep_view();
    assert(parts.deep_view() =~= Seq::new(v.len(), |i: int| v[i].canonical()));
    text::join(&parts)
}

/// The seed of the delay function of a ticket block.
pub open spec fn child_seed(prev_hash: Seq<char>, height: u64, hashes: Seq<Seq<char>>) -> Seq<char> {
    crypto::hash_of(
        "iuna-vdf-child:"@ + prev_hash + ":"@ + text::decimal(height as nat) + ":"@ + text::joined(hashes),
    )
}

/// The seed of the delay function of a recovery block.
pub open spec fn recovery_child_seed(prev_hash: Seq<char>, height: u64, timestamp_ms: u64, hashes: Seq<Seq<char>>) -> Seq<
    char,
> {
    crypto::hash_of(
        "iuna-recovery-vdf-child:"@ + prev_hash + ":"@ + text::decimal(height as nat) + ":"@ + text::decimal(
            timestamp_ms as nat,
        ) + ":"@ + text::joined(hashes),
    )
}

fn canonical_reveal_bundle_hashes(bundle_hashes: &[String; 3]) -> (r: String)
    ensures
        r@ == text::joined(model::views(bundle_hashes@)),
{
    let mut parts: Vec<String> = Vec::new();
    parts.push(bundle_hashes[0].clone());
    parts.push(bundle_hashes[1].clone());
    parts.push(bundle_hashes[2].clone());
    assert(parts.deep_view() =~= model::views(bundle_hashes@));
    text::join(&parts)
}

pub fn vdf_seed_for_child(prev_hash: &str, height: u64, bundle_hashes: &[String; 3]) -> (r: String)
    ensures
        r@ == child_seed(prev_hash@, height, model::views(bundle_hashes@)),
{
    let mut t = text::text("iuna-vdf-child:");
    t.append(prev_hash);
    t.append(":");
    text::push_decimal(&mut t, height as u128);
    t.append(":");
    t.append(canonical_reveal_bundle_hashes(bundle_hashes).as_str());
    crypto::hash_text(t.as_str())
}

pub fn recovery_vdf_seed_for_child(prev_hash: &str, height: u64, timestamp_ms: u64, bundle_hashes: &[String; 3]) -> (r:
    String)
    ensures
        r@ == recovery_child_seed(prev_hash@, height, timestamp_ms, model::views(bundle_hashes@)),
{
    let mut t = text::text("iuna-recovery-vdf-child:");
    t.append(prev_hash);
    t.append(":");
    text::push_decimal(&mut t, height as u128);
    t.append(":");
    text::push_decimal(&mut t, timestamp_ms as u128);
    t.append(":");
    t.append(canonical_reveal_bundle_hashes(bundle_hashes).as_str());
    crypto::hash_text(t.as_str())
}

impl BlockView {
    /// The reveals that count: the first of each commitment.
    pub open spec fn all_reveals(self) -> Seq<BlindedRevealView> {
        first_reveals(bundle_reveals(self.reveal_bundles))
    }

    /// The seed of the delay function.
    pub open spec fn vdf_seed(self) -> Seq<char> {
        let hashes = blinded::slot_hashes(self.reveal_bundles);
        match self.finalizer_mode {
            FinalizerMode::Ticket => child_seed(self.prev_hash, self.height, hashes),
            FinalizerMode::Recovery => recovery_child_seed(self.prev_hash, self.height, self.timestamp_ms, hashes),
        }
    }

    pub open spec fn leader_text(self) -> Seq<char> {
        match self.leader_proof {
            Some(proof) => proof.canonical(),
            None => Seq::<char>::empty(),
        }
    }

    /// The start of the content text of a block without sealed items.
    pub open spec fn plain_prefix(self, leader: Seq<char>) -> Seq<char> {
        if self.finalizer_mode == FinalizerMode::Recovery {
            "block-content-recovery-v1:"@ + text::decimal(self.height as nat) + ":"@ + self.prev_hash + ":"@
                + text::decimal(self.timestamp_ms as nat) + ":"@ + self.miner + ":"@ + text::decimal(
                self.reward as nat,
            ) + ":"@ + text::decimal(self.vdf_rounds as nat) + ":"@ + leader
        } else if self.finalizer_rank == 0 {
            "block-content:"@ + text::decimal(self.height as nat) + ":"@ + self.prev_hash + ":"@ + text::decimal(
                self.timestamp_ms as nat,
            ) + ":"@ + self.miner + ":"@ + text::decimal(self.reward as nat) + ":"@ + text::decimal(
                self.vdf_rounds as nat,
            ) + ":"@ + leader
        } else {
            "block-content-v2:"@ + text::decimal(self.height as nat) + ":"@ + self.prev_hash + ":"@
                + text::decimal(self.timestamp_ms as nat) + ":"@ + self.miner + ":"@ + text::decimal(
                self.finalizer_rank as nat,
            ) + ":"@ + text::decimal(self.reward as nat) + ":"@ + text::decimal(self.vdf_rounds as nat) + ":"@
                + leader
        }
    }

    /// The text that the content hash covers.
    pub open spec fn content_text(self) -> Seq<char> {
        let leader = self.leader_text();
        let txs = transactions_text(self.transactions);
        if self.blinded_transactions.len() > 0 || self.reveal_bundles.len() > 0 {
            "block-content-v3:"@ + text::decimal(self.height as nat) + ":"@ + self.prev_hash + ":"@
                + text::decimal(self.timestamp_ms as nat) + ":"@ + self.miner + ":"@ + text::decimal(
                self.finalizer_rank as nat,
            ) + ":"@ + text::decimal(self.reward as nat) + ":"@ + text::decimal(self.vdf_rounds as nat) + ":"@
                + leader + ":"@ + txs + ":"@ + ("blinded-v2:"@ + blinded_text(self.blinded_transactions)
                + ":reveals:"@ + blinded::reveals_text(self.all_reveals()) + ":bundles:"@ + bundles_text(
                self.reveal_bundles,
            ))
        } else {
            self.plain_prefix(leader) + ":"@ + txs
        }
    }

    /// The hash that the block must carry.
    pub open spec fn computed_hash(self) -> Seq<char> {
        crypto::hash_of(
            "block:"@ + crypto::hash_of(self.content_text()) + ":"@ + self.vdf_seed() + ":"@ + self.vdf_output,
        )
    }

    /// The hash by which blocks of one rank are compared.
    pub open spec fn proof_rank(self) -> Seq<char> {
        match self.leader_proof {
            Some(proof) => proof.rank(),
            None => self.hash,
        }
    }

    /// Whether the block stands better than another at the same height of a fork: a ticket block
    /// before a recovery block, then the lower rank, then the lower proof hash.
    pub open spec fn outranks(self, other: BlockView) -> bool {
        let m = mode_rank(self.finalizer_mode);
        let n = mode_rank(other.finalizer_mode);
        m < n || (m == n && (self.finalizer_rank < other.finalizer_rank || (self.finalizer_rank
            == other.finalizer_rank && text::text_before(self.proof_rank(), other.proof_rank()))))
    }
}

impl Block {
    /// Whether a commitment is among reveals.
    fn revealed(reveals: &Vec<&BlindedReveal>, commitment: &String) -> (r: bool)
        ensures
            r == reveals_commitment(model::views(reveals@), commitment@),
    {
        let ghost v = model::views(reveals@);
        let mut i: usize = 0;
        while i < reveals.len()
            invariant
                i <= reveals.len(),
                v == model::views(reveals@),
                forall|j: int| 0 <= j < i ==> (#[trigger] v[j]).commitment != commitment@,
            decreases reveals.len() - i,
        {
            if reveals[i].commitment.same(commitment) {
                assert(v[i as int].commitment == commitment@);
                return true;
            }
            i = i + 1;
        }
        false
    }

    /// Whether a commitment is among reveals.
    pub fn contains_commitment(reveals: &Vec<&BlindedReveal>, commitment: &str) -> (r: bool)
        ensures
            r == reveals_commitment(model::views(reveals@), commitment@),
    {
        let commitment = text::text(commitment);
        Self::revealed(reveals, &commitment)
    }

    /// The reveals that count: the first of each commitment.
    pub fn all_blinded_reveals(&self) -> (r: Vec<&BlindedReveal>)
        ensures
            model::views(r@) == self.deep_view().all_reveals(),
    {
        broadcast use model::group_views;

        let ghost b = self.reveal_bundles.deep_view();
        let mut out: Vec<&BlindedReveal> = Vec::new();
        let mut i: usize = 0;
        proof {
            model::take_all(b);
        }
        while i < self.reveal_bundles.len()
            invariant
                i <= self.reveal_bundles.len(),
                b == self.reveal_bundles.deep_view(),
                model::views(out@) == first_reveals(bundle_reveals(b.take(i as int))),
            decreases self.reveal_bundles.len() - i,
        {
            let reveals = &self.reveal_bundles[i].reveals;
            let ghost before = bundle_reveals(b.take(i as int));
            let ghost added = reveals.deep_view();
            let mut j: usize = 0;
            proof {
                assert(b.take(i + 1).drop_last() =~= b.take(i as int));
                assert(before + added.take(0) =~= before);
            }
            while j < reveals.len()
                invariant
                    j <= reveals.len(),
                    added == reveals.deep_view(),
                    model::views(out@) == first_reveals(before + added.take(j as int)),
                decreases reveals.len() - j,
            {
                proof {
                    let whole = before + added.take(j + 1);
                    assert(whole.drop_last() =~= before + added.take(j as int));
                    assert(whole.last() == added[j as int]);
                }
                if !Self::revealed(&out, &reveals[j].commitment) {
                    let ghost o = out@;
                    out.push(&reveals[j]);
                    assert(model::views(out@) =~= model::views(o).push(added[j as int]));
                }
                j = j + 1;
            }
            proof {
                model::take_all(added);
            }
            i = i + 1;
        }
        proof {
            model::take_all(b);
        }
        out
    }

    pub(crate) fn owned_reveals(&self) -> (r: Vec<BlindedReveal>)
        ensures
            r.deep_view() == self.deep_view().all_reveals(),
    {
        let reveals = self.all_blinded_reveals();
        let mut out: Vec<BlindedReveal> = Vec::new();
        let mut i: usize = 0;
        while i < reveals.len()
            invariant
                i <= reveals.len(),
                out@.len() == i,
                forall|j: int| 0 <= j < i ==> (#[trigger] out@[j]).deep_view() == model::views(reveals@)[j],
            decreases reveals.len() - i,
        {
            out.push(reveals[i].duplicate());
            i = i + 1;
        }
        assert(out.deep_view() =~= model::views(reveals@));
        out
    }

    pub fn reveal_bundle_hashes(&self) -> (r: [String; 3])
        ensures
            model::views(r@) == blinded::slot_hashes(self.deep_view().reveal_bundles),
    {
        blinded::reveal_bundle_hashes(&self.reveal_bundles)
    }

    pub fn included_reveal_bundle_count(&self) -> (r: usize)
        ensures
            r == self.deep_view().reveal_bundles.len(),
    {
        self.reveal_bundles.len()
    }

    /// The seed of the delay function.
    pub fn vdf_seed(&self) -> (r: String)
        ensures
            r@ == self.deep_view().vdf_seed(),
    {
        let bundle_hashes = self.reveal_bundle_hashes();
        match self.finalizer_mode {
            FinalizerMode::Ticket => vdf_seed_for_child(self.prev_hash.as_str(), self.height, &bundle_hashes),
            FinalizerMode::Recovery => recovery_vdf_seed_for_child(
                self.prev_hash.as_str(),
                self.height,
                self.timestamp_ms,
                &bundle_hashes,
            ),
        }
    }

    fn leader_text(&self) -> (r: String)
        ensures
            r@ == self.deep_view().leader_text(),
    {
        match &self.leader_proof {
            Some(proof) => proof.canonical(),
            None => String::new(),
        }
    }

    fn legacy_content_hash_prefix(&self, leader_proof: &str) -> (r: String)
        ensures
            r@ == self.deep_view().plain_prefix(leader_proof@),
    {
        let ranked = self.finalizer_mode != FinalizerMode::Recovery && self.finalizer_rank != 0;
        let mut t = if self.finalizer_mode == FinalizerMode::Recovery {
            text::text("block-content-recovery-v1:")
        } else if self.finalizer_rank == 0 {
            text::text("block-content:")
        } else {
            text::text("block-content-v2:")
        };
        text::push_decimal(&mut t, self.height as u128);
        t.append(":");
        t.append(self.prev_hash.as_str());
        t.append(":");
        text::push_decimal(&mut t, self.timestamp_ms as u128);
        t.append(":");
        t.append(self.miner.as_str());
        t.append(":");
        if ranked {
            text::push_decimal(&mut t, self.finalizer_rank as u128);
            t.append(":");
        }
        text::push_decimal(&mut t, self.reward as u128);
        t.append(":");
        text::push_decimal(&mut t, self.vdf_rounds as u128);
        t.append(":");
        t.append(leader_proof);
        t
    }

    fn content_hash(&self) -> (r: String)
        ensures
            r@ == crypto::hash_of(self.deep_view().content_text()),
    {
        let txs = canonical_transactions(&self.transactions);
        let leader = self.leader_text();
        if self.blinded_transactions.len() > 0 || self.reveal_bundles.len() > 0 {
            let blinded_part = canonical_blinded(&self.blinded_transactions);
            let reveals = self.owned_reveals();
            let reveal_part = blinded::canonical_reveals(&reveals);
            let bundle_part = canonical_bundles(&self.reveal_bundles);
            let mut items = text::text("blinded-v2:");
            items.append(blinded_part.as_str());
            items.append(":reveals:");
            items.append(reveal_part.as_str());
            items.append(":bundles:");
            items.append(bundle_part.as_str());
            let mut t = text::text("block-content-v3:");
            text::push_decimal(&mut t, self.height as u128);
            t.append(":");
            t.append(self.prev_hash.as_str());
            t.append(":");
            text::push_decimal(&mut t, self.timestamp_ms as u128);
            t.append(":");
            t.append(self.miner.as_str());
            t.append(":");
            text::push_decimal(&mut t, self.finalizer_rank as u128);
            t.append(":");
            text::push_decimal(&mut t, self.reward as u128);
            t.append(":");
            text::push_decimal(&mut t, self.vdf_rounds as u128);
            t.append(":");
            t.append(leader.as_str());
            t.append(":");
            t.append(txs.as_str());
            t.append(":");
            t.append(items.as_str());
            crypto::hash_text(t.as_str())
        } else {
            let mut t = self.legacy_content_hash_prefix(leader.as_str());
            t.append(":");
            t.append(txs.as_str());
            crypto::hash_text(t.as_str())
        }
    }

    /// The hash that the block must carry.
    pub fn compute_hash(&self) -> (r: String)
        ensures
            r@ == self.deep_view().computed_hash(),
    {
        let mut t = text::text("block:");
        t.append(self.content_hash().as_str());
        t.append(":");
        t.append(self.vdf_seed().as_str());
        t.append(":");
        t.append(self.vdf_output.as_str());
        crypto::hash_text(t.as_str())
    }

    fn proof_rank(&self) -> (r: String)
        ensures
            r@ == self.deep_view().proof_rank(),
    {
        match &self.leader_proof {
            Some(proof) => proof.rank(),
            None => self.hash.clone(),
        }
    }

    /// Whether the block stands better than another at the same height of a fork.
    pub fn outranks(&self, other: &Block) -> (r: bool)
        ensures
            r == self.deep_view().outranks(other.deep_view()),
    {
        let m = self.finalizer_mode.fork_choice_rank();
        let n = other.finalizer_mode.fork_choice_rank();
        if m != n {
            m < n
        } else if self.finalizer_rank != other.finalizer_rank {
            self.finalizer_rank < other.finalizer_rank
        } else {
            text::text_precedes(self.proof_rank().as_str(), other.proof_rank().as_str())
        }
    }

    /// Puts the right hash on a block.
    pub fn sealed(self) -> (r: Block)
        ensures
            r.deep_view() == (BlockView {
                hash: (BlockView { hash: Seq::<char>::empty(), ..self.deep_view() }).computed_hash(),
                ..self.deep_view()
            }),
    {
        let mut block = self;
        block.hash = String::new();
        let hash = block.compute_hash();
        block.hash = hash;
        block
    }
}

/// The hash of a block covers everything but the hash itself.
pub proof fn hash_ignores_hash(b: BlockView, hash: Seq<char>)
    ensures
        (BlockView { hash, ..b }).computed_hash() == b.computed_hash(),
{
    let c = BlockView { hash, ..b };
    assert(c.content_text() == b.content_text());
    assert(c.vdf_seed() == b.vdf_seed());
}

/// Of two blocks at one height, at most one outranks the other, and three compare consistently.
pub proof fn outranking_is_an_order(a: BlockView, b: BlockView, c: BlockView)
    ensures
        !a.outranks(a),
        a.outranks(b) ==> !b.outranks(a),
        a.outranks(b) && b.outranks(c) ==> a.outranks(c),
{
    let x = encode_utf8(a.proof_rank());
    let y = encode_utf8(b.proof_rank());
    let z = encode_utf8(c.proof_rank());
    text::bytes_before_irreflexive(x);
    if text::bytes_before(x, y) && text::bytes_before(y, z) {
        text::bytes_before_transitive(x, y, z);
    }
    if text::bytes_before(x, y) && text::bytes_before(y, x) {
        text::bytes_before_transitive(x, y, x);
    }
}

/// A block that a ticket finalized outranks one of the recovery; of two of one kind the one with the
/// lower rank does; of two of one rank the one whose proof has the hash that comes first. Two blocks
/// stand equal only where all three are the same.
pub proof fn what_makes_a_block_outrank(a: BlockView, b: BlockView)
    ensures
        a.finalizer_mode is Ticket && b.finalizer_mode is Recovery ==> a.outranks(b) && !b.outranks(a),
        a.finalizer_mode == b.finalizer_mode && a.finalizer_rank < b.finalizer_rank ==> a.outranks(b) && !b.outranks(a),
        a.finalizer_mode == b.finalizer_mode && a.finalizer_rank == b.finalizer_rank ==> (a.outranks(b)
            <==> text::text_before(a.proof_rank(), b.proof_rank())),
        !a.outranks(b) && !b.outranks(a) ==> a.finalizer_mode == b.finalizer_mode && a.finalizer_rank
            == b.finalizer_rank && a.proof_rank() == b.proof_rank(),
        a.leader_proof is Some ==> a.proof_rank() == crypto::hash_of(
            "iuna-leader-rank:"@ + a.leader_proof->0.ticket_id + ":"@ + a.leader_proof->0.signature,
        ),
        a.leader_proof is None ==> a.proof_rank() == a.hash,
{
    text::bytes_before_total(encode_utf8(a.proof_rank()), encode_utf8(b.proof_rank()));
    text::encoding_injective(a.proof_rank(), b.proof_rank());
    outranking_is_an_order(a, b, a);
}

} // verus!
