//! The JSON documents of transactions, envelopes, bundles and blocks.
use crate::blinded::{BlindedRevealView, BlindedTransaction, BlindedTransactionView, RevealBundle, RevealBundleView};
use crate::block::{Block, BlockView, FinalizerMode, LeaderProof, LeaderProofView};
use crate::error::Error;
use crate::json;
use crate::json::{Json, JsonView};
use crate::text;
use crate::transaction::{
    OutPoint, OutPointView, Transaction, TransactionView, TxInput, TxInputView, TxOutput, TxOutputView,
};
use vstd::prelude::*;
use vstd::string::*;

verus! {

pub type Fields = Seq<(Seq<char>, JsonView)>;

pub open spec fn text_field(key: Seq<char>, value: Seq<char>) -> (Seq<char>, JsonView) {
    (key, JsonView::Text(value))
}

pub open spec fn number_field(key: Seq<char>, value: u64) -> (Seq<char>, JsonView) {
    (key, JsonView::Number(value))
}

pub open spec fn outpoint_doc(o: OutPointView) -> JsonView {
    JsonView::Object(seq![text_field("txid"@, o.txid), number_field("index"@, o.index as u64)])
}

pub open spec fn input_doc(i: TxInputView) -> JsonView {
    JsonView::Object(
        seq![
            ("outpoint"@, outpoint_doc(i.outpoint)),
            text_field("owner"@, i.owner),
            text_field("signature"@, i.signature),
        ],
    )
}

pub open spec fn output_doc(o: TxOutputView) -> JsonView {
    JsonView::Object(seq![text_field("address"@, o.address), number_field("amount"@, o.amount)])
}

pub open spec fn inputs_doc(inputs: Seq<TxInputView>) -> JsonView {
    JsonView::List(Seq::new(inputs.len(), |i: int| input_doc(inputs[i])))
}

pub open spec fn outputs_doc(outputs: Seq<TxOutputView>) -> JsonView {
    JsonView::List(Seq::new(outputs.len(), |i: int| output_doc(outputs[i])))
}

pub open spec fn transaction_fields(t: TransactionView) -> Fields {
    match t {
        TransactionView::Transfer { inputs, outputs, fee, signature } => seq![
            text_field("kind"@, "transfer"@),
            ("inputs"@, inputs_doc(inputs)),
            ("outputs"@, outputs_doc(outputs)),
            number_field("fee"@, fee),
            text_field("signature"@, signature),
        ],
        TransactionView::Burn { inputs, change, amount, fee, signature } => seq![
            text_field("kind"@, "burn"@),
            ("inputs"@, inputs_doc(inputs)),
            ("change"@, outputs_doc(change)),
            number_field("amount"@, amount),
            number_field("fee"@, fee),
            text_field("signature"@, signature),
        ],
        TransactionView::Mine { recipient, anchor, salt, nonce, difficulty_bits, proof_header, signature } => {
            let head = seq![
                text_field("kind"@, "mine"@),
                text_field("recipient"@, recipient),
                text_field("anchor"@, anchor),
                number_field("salt"@, salt),
                number_field("nonce"@, nonce),
                number_field("difficulty_bits"@, difficulty_bits as u64),
            ];
            match proof_header {
                Some(h) => head.push(text_field("proof_header"@, h)).push(text_field("signature"@, signature)),
                None => head.push(text_field("signature"@, signature)),
            }
        },
    }
}

/// The document of a transaction, tagged by its kind.
pub open spec fn transaction_doc(t: TransactionView) -> JsonView {
    JsonView::Object(transaction_fields(t))
}

pub open spec fn blinded_doc(t: BlindedTransactionView) -> JsonView {
    JsonView::Object(
        seq![
            text_field("commitment"@, t.commitment),
            ("inputs"@, inputs_doc(t.inputs)),
            number_field("fee"@, t.fee),
            number_field("encryptedSize"@, t.encrypted_size as u64),
            number_field("expiresAtHeight"@, t.expires_at_height),
            text_field("nonce"@, t.nonce),
            text_field("ciphertext"@, t.ciphertext),
            text_field("payloadHash"@, t.payload_hash),
        ],
    )
}

pub open spec fn reveal_doc(r: BlindedRevealView) -> JsonView {
    JsonView::Object(seq![text_field("commitment"@, r.commitment), text_field("key"@, r.key)])
}

pub open spec fn bundle_doc(b: RevealBundleView) -> JsonView {
    JsonView::Object(
        seq![
            number_field("height"@, b.height),
            text_field("prevHash"@, b.prev_hash),
            number_field("slot"@, b.slot as u64),
            text_field("member"@, b.member),
            ("reveals"@, JsonView::List(Seq::new(b.reveals.len(), |i: int| reveal_doc(b.reveals[i])))),
            text_field("signature"@, b.signature),
        ],
    )
}

pub open spec fn leader_doc(p: Option<LeaderProofView>) -> JsonView {
    match p {
        None => JsonView::Null,
        Some(p) => JsonView::Object(
            seq![
                text_field("ticket_id"@, p.ticket_id),
                text_field("public_key"@, p.public_key),
                text_field("signature"@, p.signature),
            ],
        ),
    }
}

pub open spec fn mode_text(mode: FinalizerMode) -> Seq<char> {
    match mode {
        FinalizerMode::Ticket => "ticket"@,
        FinalizerMode::Recovery => "recovery"@,
    }
}

pub open spec fn block_fields(b: BlockView) -> Fields {
    seq![
        number_field("height"@, b.height),
        text_field("prev_hash"@, b.prev_hash),
        number_field("timestamp_ms"@, b.timestamp_ms),
        text_field("miner"@, b.miner),
        text_field("finalizer_mode"@, mode_text(b.finalizer_mode)),
        number_field("finalizer_rank"@, b.finalizer_rank as u64),
        number_field("reward"@, b.reward),
        number_field("vdf_rounds"@, b.vdf_rounds),
        text_field("vdf_output"@, b.vdf_output),
        ("leader_proof"@, leader_doc(b.leader_proof)),
        (
            "blinded_transactions"@,
            JsonView::List(Seq::new(b.blinded_transactions.len(), |i: int| blinded_doc(b.blinded_transactions[i]))),
        ),
        (
            "reveal_bundles"@,
            JsonView::List(Seq::new(b.reveal_bundles.len(), |i: int| bundle_doc(b.reveal_bundles[i]))),
        ),
        (
            "transactions"@,
            JsonView::List(Seq::new(b.transactions.len(), |i: int| transaction_doc(b.transactions[i]))),
        ),
        text_field("hash"@, b.hash),
    ]
}

pub open spec fn block_doc(b: BlockView) -> JsonView {
    JsonView::Object(block_fields(b))
}

/// The size of the text of a document.
pub open spec fn size_of(document: JsonView) -> nat {
    json::json_text(document).len()
}

fn put(fields: &mut Vec<(String, Json)>, key: &str, value: Json)
    ensures
        final(fields).deep_view() == old(fields).deep_view().push((key@, value.deep_view())),
{
    let ghost before = fields.deep_view();
    fields.push((text::text(key), value));
    assert(fields.deep_view() =~= before.push((key@, value.deep_view())));
}

fn put_text(fields: &mut Vec<(String, Json)>, key: &str, value: &str)
    ensures
        final(fields).deep_view() == old(fields).deep_view().push(text_field(key@, value@)),
{
    put(fields, key, Json::Text(text::text(value)));
}

fn put_number(fields: &mut Vec<(String, Json)>, key: &str, value: u64)
    ensures
        final(fields).deep_view() == old(fields).deep_view().push(number_field(key@, value)),
{
    put(fields, key, Json::Number(value));
}

fn no_fields() -> (r: Vec<(String, Json)>)
    ensures
        r.deep_view() == Seq::<(Seq<char>, JsonView)>::empty(),
{
    let r: Vec<(String, Json)> = Vec::new();
    assert(r.deep_view() =~= Seq::<(Seq<char>, JsonView)>::empty());
    r
}

fn object(fields: Vec<(String, Json)>) -> (r: Json)
    ensures
        r.deep_view() == JsonView::Object(fields.deep_view()),
{
    proof {
        json::object_view(fields);
    }
    Json::Object(fields)
}

fn outpoint_json(o: &OutPoint) -> (r: Json)
    ensures
        r.deep_view() == outpoint_doc(o.deep_view()),
{
    let mut f = no_fields();
    put_text(&mut f, "txid", o.txid.as_str());
    put_number(&mut f, "index", o.index as u64);
    assert(f.deep_view() =~= outpoint_doc(o.deep_view())->Object_0);
    object(f)
}

fn inputs_json(inputs: &Vec<TxInput>) -> (r: Json)
    ensures
        r.deep_view() == inputs_doc(inputs.deep_view()),
{
    let mut items: Vec<Json> = Vec::new();
    let mut i: usize = 0;
    while i < inputs.len()
        invariant
            i <= inputs.len(),
            items@.len() == i,
            forall|j: int| 0 <= j < i ==> (#[trigger] items@[j]).deep_view() == input_doc(inputs@[j].deep_view()),
        decreases inputs.len() - i,
    {
        let mut f = no_fields();
        put(&mut f, "outpoint", outpoint_json(&inputs[i].outpoint));
        put_text(&mut f, "owner", inputs[i].owner.as_str());
        put_text(&mut f, "signature", inputs[i].signature.as_str());
        assert(f.deep_view() =~= input_doc(inputs@[i as int].deep_view())->Object_0);
        items.push(object(f));
        i = i + 1;
    }
    proof {
        json::list_view(items);
        let v = inputs.deep_view();
        assert(items.deep_view() =~= Seq::new(v.len(), |i: int| input_doc(v[i])));
    }
    Json::List(items)
}

fn outputs_json(outputs: &Vec<TxOutput>) -> (r: Json)
    ensures
        r.deep_view() == outputs_doc(outputs.deep_view()),
{
    let mut items: Vec<Json> = Vec::new();
    let mut i: usize = 0;
    while i < outputs.len()
        invariant
            i <= outputs.len(),
            items@.len() == i,
            forall|j: int| 0 <= j < i ==> (#[trigger] items@[j]).deep_view() == output_doc(outputs@[j].deep_view()),
        decreases outputs.len() - i,
    {
        let mut f = no_fields();
        put_text(&mut f, "address", outputs[i].address.as_str());
        put_number(&mut f, "amount", outputs[i].amount);
        assert(f.deep_view() =~= output_doc(outputs@[i as int].deep_view())->Object_0);
        items.push(object(f));
        i = i + 1;
    }
    proof {
        json::list_view(items);
        let v = outputs.deep_view();
        assert(items.deep_view() =~= Seq::new(v.len(), |i: int| output_doc(v[i])));
    }
    Json::List(items)
}

/// The document of a transaction.
pub fn transaction_json(t: &Transaction) -> (r: Json)
    ensures
        r.deep_view() == transaction_doc(t.deep_view()),
{
    let mut f = no_fields();
    match t {
        Transaction::Transfer { inputs, outputs, fee, signature } => {
            put_text(&mut f, "kind", "transfer");
            put(&mut f, "inputs", inputs_json(inputs));
            put(&mut f, "outputs", outputs_json(outputs));
            put_number(&mut f, "fee", *fee);
            put_text(&mut f, "signature", signature.as_str());
        },
        Transaction::Burn { inputs, change, amount, fee, signature } => {
            put_text(&mut f, "kind", "burn");
            put(&mut f, "inputs", inputs_json(inputs));
            put(&mut f, "change", outputs_json(change));
            put_number(&mut f, "amount", *amount);
            put_number(&mut f, "fee", *fee);
            put_text(&mut f, "signature", signature.as_str());
        },
        Transaction::Mine { recipient, anchor, salt, nonce, difficulty_bits, proof_header, signature } => {
            put_text(&mut f, "kind", "mine");
            put_text(&mut f, "recipient", recipient.as_str());
            put_text(&mut f, "anchor", anchor.as_str());
            put_number(&mut f, "salt", *salt);
            put_number(&mut f, "nonce", *nonce);
            put_number(&mut f, "difficulty_bits", *difficulty_bits as u64);
            if let Some(header) = proof_header {
                put_text(&mut f, "proof_header", header.as_str());
            }
            put_text(&mut f, "signature", signature.as_str());
        },
    }
    assert(f.deep_view() =~= transaction_fields(t.deep_view()));
    object(f)
}

fn blinded_json(t: &BlindedTransaction) -> (r: Json)
    ensures
        r.deep_view() == blinded_doc(t.deep_view()),
{
    let mut f = no_fields();
    put_text(&mut f, "commitment", t.commitment.as_str());
    put(&mut f, "inputs", inputs_json(&t.inputs));
    put_number(&mut f, "fee", t.fee);
    put_number(&mut f, "encryptedSize", t.encrypted_size as u64);
    put_number(&mut f, "expiresAtHeight", t.expires_at_height);
    put_text(&mut f, "nonce", t.nonce.as_str());
    put_text(&mut f, "ciphertext", t.ciphertext.as_str());
    put_text(&mut f, "payloadHash", t.payload_hash.as_str());
    assert(f.deep_view() =~= blinded_doc(t.deep_view())->Object_0);
    object(f)
}

fn bundle_json(b: &RevealBundle) -> (r: Json)
    ensures
        r.deep_view() == bundle_doc(b.deep_view()),
{
    let mut items: Vec<Json> = Vec::new();
    let mut i: usize = 0;
    while i < b.reveals.len()
        invariant
            i <= b.reveals.len(),
            items@.len() == i,
            forall|j: int| 0 <= j < i ==> (#[trigger] items@[j]).deep_view() == reveal_doc(b.reveals@[j].deep_view()),
        decreases b.reveals.len() - i,
    {
        let mut f = no_fields();
        put_text(&mut f, "commitment", b.reveals[i].commitment.as_str());
        put_text(&mut f, "key", b.reveals[i].key.as_str());
        assert(f.deep_view() =~= reveal_doc(b.reveals@[i as int].deep_view())->Object_0);
        items.push(object(f));
        i = i + 1;
    }
    proof {
        json::list_view(items);
        let v = b.deep_view();
        assert(items.deep_view() =~= Seq::new(v.reveals.len(), |i: int| reveal_doc(v.reveals[i])));
    }
    let mut f = no_fields();
    put_number(&mut f, "height", b.height);
    put_text(&mut f, "prevHash", b.prev_hash.as_str());
    put_number(&mut f, "slot", b.slot as u64);
    put_text(&mut f, "member", b.member.as_str());
    put(&mut f, "reveals", Json::List(items));
    put_text(&mut f, "signature", b.signature.as_str());
    assert(f.deep_view() =~= bundle_doc(b.deep_view())->Object_0);
    object(f)
}

fn leader_json(p: &Option<LeaderProof>) -> (r: Json)
    ensures
        r.deep_view() == leader_doc(p.deep_view()),
{
    match p {
        None => Json::Null,
        Some(p) => {
            let mut f = no_fields();
            put_text(&mut f, "ticket_id", p.ticket_id.as_str());
            put_text(&mut f, "public_key", p.public_key.as_str());
            put_text(&mut f, "signature", p.signature.as_str());
            assert(f.deep_view() =~= leader_doc(Some(p.deep_view()))->Object_0);
            object(f)
        },
    }
}

fn blinded_list_json(list: &Vec<BlindedTransaction>) -> (r: Json)
    ensures
        r.deep_view() == JsonView::List(
            Seq::new(list.deep_view().len(), |i: int| blinded_doc(list.deep_view()[i])),
        ),
{
    let mut items: Vec<Json> = Vec::new();
    let mut i: usize = 0;
    while i < list.len()
        invariant
            i <= list.len(),
            items@.len() == i,
            forall|j: int| 0 <= j < i ==> (#[trigger] items@[j]).deep_view() == blinded_doc(list@[j].deep_view()),
        decreases list.len() - i,
    {
        items.push(blinded_json(&list[i]));
        i = i + 1;
    }
    proof {
        json::list_view(items);
        assert(items.deep_view() =~= Seq::new(
            list.deep_view().len(),
            |i: int| blinded_doc(list.deep_view()[i]),
        ));
    }
    Json::List(items)
}

fn bundle_list_json(list: &Vec<RevealBundle>) -> (r: Json)
    ensures
        r.deep_view() == JsonView::List(
            Seq::new(list.deep_view().len(), |i: int| bundle_doc(list.deep_view()[i])),
        ),
{
    let mut items: Vec<Json> = Vec::new();
    let mut i: usize = 0;
    while i < list.len()
        invariant
            i <= list.len(),
            items@.len() == i,
            forall|j: int| 0 <= j < i ==> (#[trigger] items@[j]).deep_view() == bundle_doc(list@[j].deep_view()),
        decreases list.len() - i,
    {
        items.push(bundle_json(&list[i]));
        i = i + 1;
    }
    proof {
        json::list_view(items);
        assert(items.deep_view() =~= Seq::new(
            list.deep_view().len(),
            |i: int| bundle_doc(list.deep_view()[i]),
        ));
    }
    Json::List(items)
}

fn transaction_list_json(list: &Vec<Transaction>) -> (r: Json)
    ensures
        r.deep_view() == JsonView::List(
            Seq::new(list.deep_view().len(), |i: int| transaction_doc(list.deep_view()[i])),
        ),
{
    let mut items: Vec<Json> = Vec::new();
    let mut i: usize = 0;
    while i < list.len()
        invariant
            i <= list.len(),
            items@.len() == i,
            forall|j: int|
                0 <= j < i ==> (#[trigger] items@[j]).deep_view() == transaction_doc(list@[j].deep_view()),
        decreases list.len() - i,
    {
        items.push(transaction_json(&list[i]));
        i = i + 1;
    }
    proof {
        json::list_view(items);
        assert(items.deep_view() =~= Seq::new(
            list.deep_view().len(),
            |i: int| transaction_doc(list.deep_view()[i]),
        ));
    }
    Json::List(items)
}

/// The document of a block.
pub fn block_json(b: &Block) -> (r: Json)
    ensures
        r.deep_view() == block_doc(b.deep_view()),
{
    let mut f = no_fields();
    put_number(&mut f, "height", b.height);
    put_text(&mut f, "prev_hash", b.prev_hash.as_str());
    put_number(&mut f, "timestamp_ms", b.timestamp_ms);
    put_text(&mut f, "miner", b.miner.as_str());
    let mode = match b.finalizer_mode {
        FinalizerMode::Ticket => "ticket",
        FinalizerMode::Recovery => "recovery",
    };
    put_text(&mut f, "finalizer_mode", mode);
    put_number(&mut f, "finalizer_rank", b.finalizer_rank as u64);
    put_number(&mut f, "reward", b.reward);
    put_number(&mut f, "vdf_rounds", b.vdf_rounds);
    put_text(&mut f, "vdf_output", b.vdf_output.as_str());
    put(&mut f, "leader_proof", leader_json(&b.leader_proof));
    put(&mut f, "blinded_transactions", blinded_list_json(&b.blinded_transactions));
    put(&mut f, "reveal_bundles", bundle_list_json(&b.reveal_bundles));
    put(&mut f, "transactions", transaction_list_json(&b.transactions));
    put_text(&mut f, "hash", b.hash.as_str());
    assert(f.deep_view() =~= block_fields(b.deep_view()));
    object(f)
}

/// Keys that differ in their length or in their first or last character.
spec fn mark(key: Seq<char>) -> (nat, char, char) {
    (key.len(), key[0], key[key.len() - 1])
}

pub proof fn small_docs_fit(o: OutPointView, i: TxInputView, out: TxOutputView, depth: nat)
    requires
        depth >= 2,
    ensures
        json::fits(outpoint_doc(o), depth),
        json::fits(input_doc(i), depth),
        json::fits(output_doc(out), depth),
{
    reveal_strlit("txid");
    reveal_strlit("index");
    reveal_strlit("outpoint");
    reveal_strlit("owner");
    reveal_strlit("signature");
    reveal_strlit("address");
    reveal_strlit("amount");
    reveal_with_fuel(json::fits, 3);
    assert("txid"@.len() == 4 && "index"@.len() == 5 && "outpoint"@.len() == 8 && "owner"@.len() == 5
        && "signature"@.len() == 9 && "address"@.len() == 7 && "amount"@.len() == 6);
    let f = outpoint_doc(o)->Object_0;
    assert(f.len() == 2);
    let g = outpoint_doc(i.outpoint)->Object_0;
    assert(g.len() == 2);
    assert(json::fits(outpoint_doc(i.outpoint), (depth - 1) as nat));
    let h = input_doc(i)->Object_0;
    assert(h.len() == 3);
    let k = output_doc(out)->Object_0;
    assert(k.len() == 2);
}

/// The document of every transaction can be written and read back.
pub proof fn transaction_doc_fits(t: TransactionView, depth: nat)
    requires
        depth >= 4,
    ensures
        json::fits(transaction_doc(t), depth),
{
    reveal_strlit("kind");
    reveal_strlit("inputs");
    reveal_strlit("outputs");
    reveal_strlit("change");
    reveal_strlit("amount");
    reveal_strlit("fee");
    reveal_strlit("signature");
    reveal_strlit("recipient");
    reveal_strlit("anchor");
    reveal_strlit("salt");
    reveal_strlit("nonce");
    reveal_strlit("difficulty_bits");
    reveal_strlit("proof_header");
    let d1 = (depth - 1) as nat;
    let d2 = (depth - 2) as nat;
    let arbitrary_outpoint = OutPointView { txid: Seq::<char>::empty(), index: 0 };
    let arbitrary_output = TxOutputView { address: Seq::<char>::empty(), amount: 0 };
    assert(mark("kind"@) == (4nat, 'k', 'd'));
    assert(mark("inputs"@) == (6nat, 'i', 's'));
    assert(mark("outputs"@) == (7nat, 'o', 's'));
    assert(mark("change"@) == (6nat, 'c', 'e'));
    assert(mark("amount"@) == (6nat, 'a', 't'));
    assert(mark("fee"@) == (3nat, 'f', 'e'));
    assert(mark("signature"@) == (9nat, 's', 'e'));
    assert(mark("recipient"@) == (9nat, 'r', 't'));
    assert(mark("anchor"@) == (6nat, 'a', 'r'));
    assert(mark("salt"@) == (4nat, 's', 't'));
    assert(mark("nonce"@) == (5nat, 'n', 'e'));
    assert(mark("difficulty_bits"@) == (15nat, 'd', 's'));
    assert(mark("proof_header"@) == (12nat, 'p', 'r'));
    let f = transaction_fields(t);
    match t {
        TransactionView::Transfer { inputs, outputs, .. } => {
            assert forall|i: int| 0 <= i < inputs.len() implies json::fits(#[trigger] input_doc(inputs[i]), d2) by {
                small_docs_fit(arbitrary_outpoint, inputs[i], arbitrary_output, d2);
            }
            assert forall|i: int| 0 <= i < outputs.len() implies json::fits(#[trigger] output_doc(outputs[i]), d2) by {
                small_docs_fit(
                    arbitrary_outpoint,
                    TxInputView {
                        outpoint: arbitrary_outpoint,
                        owner: Seq::<char>::empty(),
                        signature: Seq::<char>::empty(),
                    },
                    outputs[i],
                    d2,
                );
            }
            assert(json::fits(inputs_doc(inputs), d1));
            assert(json::fits(outputs_doc(outputs), d1));
            assert(f.len() == 5);
        },
        TransactionView::Burn { inputs, change, .. } => {
            assert forall|i: int| 0 <= i < inputs.len() implies json::fits(#[trigger] input_doc(inputs[i]), d2) by {
                small_docs_fit(arbitrary_outpoint, inputs[i], arbitrary_output, d2);
            }
            assert forall|i: int| 0 <= i < change.len() implies json::fits(#[trigger] output_doc(change[i]), d2) by {
                small_docs_fit(
                    arbitrary_outpoint,
                    TxInputView {
                        outpoint: arbitrary_outpoint,
                        owner: Seq::<char>::empty(),
                        signature: Seq::<char>::empty(),
                    },
                    change[i],
                    d2,
                );
            }
            assert(json::fits(inputs_doc(inputs), d1));
            assert(json::fits(outputs_doc(change), d1));
            assert(f.len() == 6);
        },
        TransactionView::Mine { .. } => {
            assert(7 <= f.len() <= 8);
        },
    }
    assert forall|i: int, k: int| 0 <= i < k < f.len() implies (#[trigger] f[i]).0 != (#[trigger] f[k]).0 by {
        assert(mark(f[i].0) != mark(f[k].0));
    }
    assert forall|i: int| 0 <= i < f.len() implies json::fits((#[trigger] f[i]).1, d1) by {}
}

proof fn blinded_doc_fits(t: BlindedTransactionView, depth: nat)
    requires
        depth >= 4,
    ensures
        json::fits(blinded_doc(t), depth),
{
    reveal_strlit("commitment");
    reveal_strlit("fee");
    reveal_strlit("encryptedSize");
    reveal_strlit("expiresAtHeight");
    reveal_strlit("nonce");
    reveal_strlit("ciphertext");
    reveal_strlit("payloadHash");
    assert(mark("commitment"@) == (10nat, 'c', 't'));
    assert(mark("fee"@) == (3nat, 'f', 'e'));
    assert(mark("encryptedSize"@) == (13nat, 'e', 'e'));
    assert(mark("expiresAtHeight"@) == (15nat, 'e', 't'));
    assert(mark("nonce"@) == (5nat, 'n', 'e'));
    assert(mark("ciphertext"@) == (10nat, 'c', 't'));
    assert(mark("payloadHash"@) == (11nat, 'p', 'h'));
    reveal_strlit("inputs");
    assert(mark("inputs"@) == (6nat, 'i', 's'));
    assert("commitment"@[1] == 'o' && "ciphertext"@[1] == 'i');
    let f = blinded_doc(t)->Object_0;
    assert(f.len() == 8);
    let d1 = (depth - 1) as nat;
    let d2 = (depth - 2) as nat;
    assert forall|i: int| 0 <= i < t.inputs.len() implies json::fits(#[trigger] input_doc(t.inputs[i]), d2) by {
        small_docs_fit(
            t.inputs[i].outpoint,
            t.inputs[i],
            TxOutputView { address: Seq::<char>::empty(), amount: 0 },
            d2,
        );
    }
    assert(json::fits(inputs_doc(t.inputs), d1));
    assert forall|i: int, k: int| 0 <= i < k < f.len() implies (#[trigger] f[i]).0 != (#[trigger] f[k]).0 by {
        if !(i == 0 && k == 6) {
            assert(mark(f[i].0) != mark(f[k].0));
        }
    }
    assert forall|i: int| 0 <= i < f.len() implies json::fits((#[trigger] f[i]).1, d1) by {}
}

proof fn bundle_doc_fits(b: RevealBundleView, depth: nat)
    requires
        depth >= 3,
    ensures
        json::fits(bundle_doc(b), depth),
{
    reveal_strlit("commitment");
    reveal_strlit("key");
    reveal_strlit("height");
    reveal_strlit("prevHash");
    reveal_strlit("slot");
    reveal_strlit("member");
    reveal_strlit("reveals");
    reveal_strlit("signature");
    assert(mark("height"@) == (6nat, 'h', 't'));
    assert(mark("prevHash"@) == (8nat, 'p', 'h'));
    assert(mark("slot"@) == (4nat, 's', 't'));
    assert(mark("member"@) == (6nat, 'm', 'r'));
    assert(mark("reveals"@) == (7nat, 'r', 's'));
    assert(mark("signature"@) == (9nat, 's', 'e'));
    assert("commitment"@.len() == 10 && "key"@.len() == 3);
    let d1 = (depth - 1) as nat;
    let d2 = (depth - 2) as nat;
    assert forall|i: int| 0 <= i < b.reveals.len() implies json::fits(#[trigger] reveal_doc(b.reveals[i]), d2) by {
        let f = reveal_doc(b.reveals[i])->Object_0;
        assert(f.len() == 2);
        assert forall|k: int| 0 <= k < f.len() implies json::fits((#[trigger] f[k]).1, (d2 - 1) as nat) by {}
    }
    let list = JsonView::List(Seq::new(b.reveals.len(), |i: int| reveal_doc(b.reveals[i])));
    assert(json::fits(list, d1));
    let f = bundle_doc(b)->Object_0;
    assert(f.len() == 6);
    assert forall|i: int, k: int| 0 <= i < k < f.len() implies (#[trigger] f[i]).0 != (#[trigger] f[k]).0 by {
        assert(mark(f[i].0) != mark(f[k].0));
    }
    assert forall|i: int| 0 <= i < f.len() implies json::fits((#[trigger] f[i]).1, d1) by {}
}

proof fn leader_doc_fits(p: Option<LeaderProofView>, depth: nat)
    requires
        depth >= 1,
    ensures
        json::fits(leader_doc(p), depth),
{
    if p is Some {
        reveal_strlit("ticket_id");
        reveal_strlit("public_key");
        reveal_strlit("signature");
        assert(mark("ticket_id"@) == (9nat, 't', 'd'));
        assert(mark("public_key"@) == (10nat, 'p', 'y'));
        assert(mark("signature"@) == (9nat, 's', 'e'));
        let f = leader_doc(p)->Object_0;
        assert(f.len() == 3);
        assert forall|i: int, k: int| 0 <= i < k < f.len() implies (#[trigger] f[i]).0 != (#[trigger] f[k]).0 by {
            assert(mark(f[i].0) != mark(f[k].0));
        }
        assert forall|i: int| 0 <= i < f.len() implies json::fits((#[trigger] f[i]).1, (depth - 1) as nat) by {}
    }
}

proof fn block_keys_differ(b: BlockView)
    ensures
        block_fields(b).len() == 14,
        forall|i: int, k: int|
            0 <= i < k < 14 ==> (#[trigger] block_fields(b)[i]).0 != (#[trigger] block_fields(b)[k]).0,
{
    reveal_strlit("height");
    reveal_strlit("prev_hash");
    reveal_strlit("timestamp_ms");
    reveal_strlit("miner");
    reveal_strlit("finalizer_mode");
    reveal_strlit("finalizer_rank");
    reveal_strlit("reward");
    reveal_strlit("vdf_rounds");
    reveal_strlit("vdf_output");
    reveal_strlit("leader_proof");
    reveal_strlit("blinded_transactions");
    reveal_strlit("reveal_bundles");
    reveal_strlit("transactions");
    reveal_strlit("hash");
    assert(mark("height"@) == (6nat, 'h', 't'));
    assert(mark("prev_hash"@) == (9nat, 'p', 'h'));
    assert(mark("timestamp_ms"@) == (12nat, 't', 's'));
    assert(mark("miner"@) == (5nat, 'm', 'r'));
    assert(mark("finalizer_mode"@) == (14nat, 'f', 'e'));
    assert(mark("finalizer_rank"@) == (14nat, 'f', 'k'));
    assert(mark("reward"@) == (6nat, 'r', 'd'));
    assert(mark("vdf_rounds"@) == (10nat, 'v', 's'));
    assert(mark("vdf_output"@) == (10nat, 'v', 't'));
    assert(mark("leader_proof"@) == (12nat, 'l', 'f'));
    assert(mark("blinded_transactions"@) == (20nat, 'b', 's'));
    assert(mark("reveal_bundles"@) == (14nat, 'r', 's'));
    assert(mark("transactions"@) == (12nat, 't', 's'));
    assert(mark("hash"@) == (4nat, 'h', 'h'));
    assert("timestamp_ms"@[1] == 'i' && "transactions"@[1] == 'r');
    let f = block_fields(b);
    assert forall|i: int, k: int| 0 <= i < k < 14 implies (#[trigger] f[i]).0 != (#[trigger] f[k]).0 by {
        if !(i == 2 && k == 12) {
            assert(mark(f[i].0) != mark(f[k].0));
        }
    }
}

/// The document of every block can be written and read back.
pub proof fn block_doc_fits(b: BlockView, depth: nat)
    requires
        depth >= 6,
    ensures
        json::fits(block_doc(b), depth),
{
    let d1 = (depth - 1) as nat;
    let d2 = (depth - 2) as nat;
    let f = block_fields(b);
    block_keys_differ(b);
    leader_doc_fits(b.leader_proof, d1);
    assert forall|i: int| 0 <= i < b.blinded_transactions.len() implies json::fits(
        #[trigger] blinded_doc(b.blinded_transactions[i]),
        d2,
    ) by {
        blinded_doc_fits(b.blinded_transactions[i], d2);
    }
    assert forall|i: int| 0 <= i < b.reveal_bundles.len() implies json::fits(
        #[trigger] bundle_doc(b.reveal_bundles[i]),
        d2,
    ) by {
        bundle_doc_fits(b.reveal_bundles[i], d2);
    }
    assert forall|i: int| 0 <= i < b.transactions.len() implies json::fits(
        #[trigger] transaction_doc(b.transactions[i]),
        d2,
    ) by {
        transaction_doc_fits(b.transactions[i], d2);
    }
    assert(json::fits(f[9].1, d1));
    assert(json::fits(f[10].1, d1));
    assert(json::fits(f[11].1, d1));
    assert(json::fits(f[12].1, d1));
    assert forall|i: int| 0 <= i < f.len() implies json::fits((#[trigger] f[i]).1, d1) by {}
}

/// The JSON text of a transaction.
pub fn transaction_bytes(t: &Transaction) -> (r: Vec<u8>)
    ensures
        r@ == json::json_text(transaction_doc(t.deep_view())),
        json::json_document(r@) == Some(transaction_doc(t.deep_view())),
        json::written_once(r@, transaction_doc(t.deep_view())),
{
    let document = transaction_json(t);
    proof {
        transaction_doc_fits(t.deep_view(), 16);
    }
    json::write_json(&document)
}

impl Transaction {
    /// The size of the JSON text.
    pub fn serialized_size_bytes(&self) -> (r: Result<usize, Error>)
        ensures
            r is Ok,
            r->Ok_0 == size_of(transaction_doc(self.deep_view())),
    {
        Ok(transaction_bytes(self).len())
    }
}

impl BlindedTransaction {
    /// The size of the JSON text.
    pub fn serialized_size_bytes(&self) -> (r: Result<usize, Error>)
        ensures
            r is Ok,
            r->Ok_0 == size_of(blinded_doc(self.deep_view())),
    {
        Ok(self.fee_rate_size_bytes())
    }

    /// The size that the fee rate of an envelope is measured by.
    pub fn fee_rate_size_bytes(&self) -> (r: usize)
        ensures
            r == size_of(blinded_doc(self.deep_view())),
    {
        let document = blinded_json(self);
        proof {
            blinded_doc_fits(self.deep_view(), 16);
        }
        json::write_json(&document).len()
    }
}

impl RevealBundle {
    /// The size of the JSON text.
    pub fn serialized_size_bytes(&self) -> (r: Result<usize, Error>)
        ensures
            r is Ok,
            r->Ok_0 == size_of(bundle_doc(self.deep_view())),
    {
        let document = bundle_json(self);
        proof {
            bundle_doc_fits(self.deep_view(), 16);
        }
        Ok(json::write_json(&document).len())
    }
}

impl Block {
    /// The size of the JSON text.
    pub fn serialized_size_bytes(&self) -> (r: Result<usize, Error>)
        ensures
            r is Ok,
            r->Ok_0 == size_of(block_doc(self.deep_view())),
    {
        let document = block_json(self);
        proof {
            block_doc_fits(self.deep_view(), 16);
        }
        Ok(json::write_json(&document).len())
    }
}

} // verus!
