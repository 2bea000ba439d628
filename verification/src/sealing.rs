//! Sealing a transaction into an envelope, and opening it again.
use crate::blinded;
use crate::blinded::{
    BlindedReveal, BlindedRevealView, BlindedTransaction, BlindedTransactionView, BuiltBlindedTransaction,
    BuiltBlindedTransactionView,
};
use crate::crypto;
use crate::document;
use crate::error;
use crate::error::Error;
use crate::hex;
use crate::json;
use crate::json::{Json, JsonView};
use crate::model::Model;
use crate::sorted;
use crate::text;
use crate::transaction;
use crate::transaction::{
    OutPoint, OutPointView, Transaction, TransactionView, TxInput, TxInputView, TxOutput, TxOutputView,
};
use crate::wallet;
use crate::wallet::Wallet;
use vstd::prelude::*;
use vstd::string::*;
use vstd::utf8::*;

verus! {

pub open spec fn text_at(document: JsonView, key: Seq<char>, place: nat, count: nat) -> Option<Seq<char>> {
    match json::part(document, key, place, count) {
        Some(JsonView::Text(t)) => Some(t),
        _ => None,
    }
}

pub open spec fn number_at(document: JsonView, key: Seq<char>, place: nat, count: nat) -> Option<u64> {
    match json::part(document, key, place, count) {
        Some(JsonView::Number(n)) => Some(n),
        _ => None,
    }
}

/// A number that is zero where the field is missing.
pub open spec fn number_or_zero_at(document: JsonView, key: Seq<char>, place: nat, count: nat) -> Option<u64> {
    match json::part(document, key, place, count) {
        None => Some(0),
        Some(JsonView::Number(n)) => Some(n),
        _ => None,
    }
}

/// A number below 2^32.
pub open spec fn small_number_at(document: JsonView, key: Seq<char>, place: nat, count: nat) -> Option<u32> {
    match number_at(document, key, place, count) {
        Some(n) => if n <= u32::MAX {
            Some(n as u32)
        } else {
            None
        },
        None => None,
    }
}

/// A text that may be missing or null.
pub open spec fn optional_text_at(document: JsonView, key: Seq<char>, place: nat, count: nat) -> Option<Option<Seq<char>>> {
    match json::part(document, key, place, count) {
        None => Some(None),
        Some(JsonView::Null) => Some(None),
        Some(JsonView::Text(t)) => Some(Some(t)),
        _ => None,
    }
}

pub open spec fn list_at(document: JsonView, key: Seq<char>, place: nat, count: nat) -> Option<Seq<JsonView>> {
    match json::part(document, key, place, count) {
        Some(JsonView::List(items)) => Some(items),
        _ => None,
    }
}

pub open spec fn outpoint_of(document: JsonView) -> Option<OutPointView> {
    match (text_at(document, "txid"@, 0, 2), small_number_at(document, "index"@, 1, 2)) {
        (Some(txid), Some(index)) => Some(OutPointView { txid, index }),
        _ => None,
    }
}

pub open spec fn outpoint_at(document: JsonView, key: Seq<char>, place: nat, count: nat) -> Option<OutPointView> {
    match json::part(document, key, place, count) {
        Some(d) => outpoint_of(d),
        None => None,
    }
}

pub open spec fn input_of(document: JsonView) -> Option<TxInputView> {
    match (outpoint_at(document, "outpoint"@, 0, 3), text_at(document, "owner"@, 1, 3), text_at(document, "signature"@, 2, 3)) {
        (Some(outpoint), Some(owner), Some(signature)) => Some(TxInputView { outpoint, owner, signature }),
        _ => None,
    }
}

pub open spec fn output_of(document: JsonView) -> Option<TxOutputView> {
    match (text_at(document, "address"@, 0, 2), number_at(document, "amount"@, 1, 2)) {
        (Some(address), Some(amount)) => Some(TxOutputView { address, amount }),
        _ => None,
    }
}

pub open spec fn inputs_at(document: JsonView, key: Seq<char>, place: nat, count: nat) -> Option<Seq<TxInputView>> {
    match list_at(document, key, place, count) {
        None => None,
        Some(items) => if forall|i: int| 0 <= i < items.len() ==> input_of(#[trigger] items[i]) is Some {
            Some(Seq::new(items.len(), |i: int| input_of(items[i])->0))
        } else {
            None
        },
    }
}

pub open spec fn outputs_at(document: JsonView, key: Seq<char>, place: nat, count: nat) -> Option<Seq<TxOutputView>> {
    match list_at(document, key, place, count) {
        None => None,
        Some(items) => if forall|i: int| 0 <= i < items.len() ==> output_of(#[trigger] items[i]) is Some {
            Some(Seq::new(items.len(), |i: int| output_of(items[i])->0))
        } else {
            None
        },
    }
}

pub open spec fn transfer_of(document: JsonView) -> Option<TransactionView> {
    match (
        inputs_at(document, "inputs"@, 1, 5),
        outputs_at(document, "outputs"@, 2, 5),
        number_or_zero_at(document, "fee"@, 3, 5),
        text_at(document, "signature"@, 4, 5),
    ) {
        (Some(inputs), Some(outputs), Some(fee), Some(signature)) => Some(
            TransactionView::Transfer { inputs, outputs, fee, signature },
        ),
        _ => None,
    }
}

pub open spec fn burn_of(document: JsonView) -> Option<TransactionView> {
    match (
        inputs_at(document, "inputs"@, 1, 6),
        outputs_at(document, "change"@, 2, 6),
        number_at(document, "amount"@, 3, 6),
        number_or_zero_at(document, "fee"@, 4, 6),
        text_at(document, "signature"@, 5, 6),
    ) {
        (Some(inputs), Some(change), Some(amount), Some(fee), Some(signature)) => Some(
            TransactionView::Burn { inputs, change, amount, fee, signature },
        ),
        _ => None,
    }
}

pub open spec fn mine_of(document: JsonView) -> Option<TransactionView> {
    match (
        (text_at(document, "recipient"@, 1, 8), text_at(document, "anchor"@, 2, 8), number_or_zero_at(document, "salt"@, 3, 8)),
        (
            number_at(document, "nonce"@, 4, 8),
            small_number_at(document, "difficulty_bits"@, 5, 8),
            optional_text_at(document, "proof_header"@, 6, 8),
            text_at(document, "signature"@, 7, 8),
        ),
    ) {
        (
            (Some(recipient), Some(anchor), Some(salt)),
            (Some(nonce), Some(difficulty_bits), Some(proof_header), Some(signature)),
        ) => Some(
            TransactionView::Mine { recipient, anchor, salt, nonce, difficulty_bits, proof_header, signature },
        ),
        _ => None,
    }
}

/// What kind of transaction a document says that it holds: under its key in an object, first in a
/// list.
pub open spec fn kind_of(document: JsonView) -> Option<Seq<char>> {
    match document {
        JsonView::List(items) => if items.len() > 0 {
            match items[0] {
                JsonView::Text(t) => Some(t),
                _ => None,
            }
        } else {
            None
        },
        _ => match json::field(document, "kind"@) {
            Some(JsonView::Text(t)) => Some(t),
            _ => None,
        },
    }
}

/// The transaction in a document, if it is one: an object with the fields, in any order, or a list
/// of them, in theirs.
pub open spec fn transaction_of(document: JsonView) -> Option<TransactionView> {
    match kind_of(document) {
        None => None,
        Some(kind) => if kind == "transfer"@ {
            transfer_of(document)
        } else if kind == "burn"@ {
            burn_of(document)
        } else if kind == "mine"@ {
            mine_of(document)
        } else {
            None
        },
    }
}

fn get_text(document: &Json, key: &str, place: usize, count: usize) -> (r: Option<String>)
    requires
        place < count,
    ensures
        r.deep_view() == text_at(document.deep_view(), key@, place as nat, count as nat),
{
    match document.part(key, place, count) {
        Some(value) => match value.as_text() {
            Some(t) => Some(t.clone()),
            None => None,
        },
        None => None,
    }
}

fn get_number(document: &Json, key: &str, place: usize, count: usize) -> (r: Option<u64>)
    requires
        place < count,
    ensures
        r == number_at(document.deep_view(), key@, place as nat, count as nat),
{
    match document.part(key, place, count) {
        Some(value) => value.as_number(),
        None => None,
    }
}

fn get_number_or_zero(document: &Json, key: &str, place: usize, count: usize) -> (r: Option<u64>)
    requires
        place < count,
    ensures
        r == number_or_zero_at(document.deep_view(), key@, place as nat, count as nat),
{
    match document.part(key, place, count) {
        Some(value) => value.as_number(),
        None => Some(0),
    }
}

fn get_small_number(document: &Json, key: &str, place: usize, count: usize) -> (r: Option<u32>)
    requires
        place < count,
    ensures
        r == small_number_at(document.deep_view(), key@, place as nat, count as nat),
{
    match get_number(document, key, place, count) {
        Some(n) => if n <= u32::MAX as u64 {
            Some(n as u32)
        } else {
            None
        },
        None => None,
    }
}

fn get_optional_text(document: &Json, key: &str, place: usize, count: usize) -> (r: Option<Option<String>>)
    requires
        place < count,
    ensures
        r.deep_view() == optional_text_at(document.deep_view(), key@, place as nat, count as nat),
{
    match document.part(key, place, count) {
        None => Some(None),
        Some(Json::Null) => Some(None),
        Some(Json::Text(t)) => Some(Some(t.clone())),
        _ => None,
    }
}

fn get_input(document: &Json) -> (r: Option<TxInput>)
    ensures
        r.deep_view() == input_of(document.deep_view()),
{
    let outpoint = match document.part("outpoint", 0, 3) {
        Some(d) => match (get_text(d, "txid", 0, 2), get_small_number(d, "index", 1, 2)) {
            (Some(txid), Some(index)) => Some(OutPoint { txid, index }),
            _ => None,
        },
        None => None,
    };
    match (outpoint, get_text(document, "owner", 1, 3), get_text(document, "signature", 2, 3)) {
        (Some(outpoint), Some(owner), Some(signature)) => Some(TxInput { outpoint, owner, signature }),
        _ => None,
    }
}

fn get_output(document: &Json) -> (r: Option<TxOutput>)
    ensures
        r.deep_view() == output_of(document.deep_view()),
{
    match (get_text(document, "address", 0, 2), get_number(document, "amount", 1, 2)) {
        (Some(address), Some(amount)) => Some(TxOutput { address, amount }),
        _ => None,
    }
}

fn get_inputs(document: &Json, key: &str, place: usize, count: usize) -> (r: Option<Vec<TxInput>>)
    requires
        place < count,
    ensures
        r.deep_view() == inputs_at(document.deep_view(), key@, place as nat, count as nat),
{
    let items = match document.part(key, place, count) {
        Some(value) => match value.as_list() {
            Some(items) => items,
            None => return None,
        },
        None => return None,
    };
    let ghost v = items.deep_view();
    let mut out: Vec<TxInput> = Vec::new();
    let mut i: usize = 0;
    while i < items.len()
        invariant
            i <= items.len(),
            v == items.deep_view(),
            list_at(document.deep_view(), key@, place as nat, count as nat) == Some(v),
            out@.len() == i,
            forall|j: int| 0 <= j < i ==> input_of(#[trigger] v[j]) == Some(out@[j].deep_view()),
        decreases items.len() - i,
    {
        match get_input(&items[i]) {
            Some(input) => out.push(input),
            None => {
                assert(input_of(v[i as int]) is None);
                return None;
            },
        }
        i = i + 1;
    }
    assert(out.deep_view() =~= Seq::new(v.len(), |i: int| input_of(v[i])->0));
    Some(out)
}

fn get_outputs(document: &Json, key: &str, place: usize, count: usize) -> (r: Option<Vec<TxOutput>>)
    requires
        place < count,
    ensures
        r.deep_view() == outputs_at(document.deep_view(), key@, place as nat, count as nat),
{
    let items = match document.part(key, place, count) {
        Some(value) => match value.as_list() {
            Some(items) => items,
            None => return None,
        },
        None => return None,
    };
    let ghost v = items.deep_view();
    let mut out: Vec<TxOutput> = Vec::new();
    let mut i: usize = 0;
    while i < items.len()
        invariant
            i <= items.len(),
            v == items.deep_view(),
            list_at(document.deep_view(), key@, place as nat, count as nat) == Some(v),
            out@.len() == i,
            forall|j: int| 0 <= j < i ==> output_of(#[trigger] v[j]) == Some(out@[j].deep_view()),
        decreases items.len() - i,
    {
        match get_output(&items[i]) {
            Some(output) => out.push(output),
            None => {
                assert(output_of(v[i as int]) is None);
                return None;
            },
        }
        i = i + 1;
    }
    assert(out.deep_view() =~= Seq::new(v.len(), |i: int| output_of(v[i])->0));
    Some(out)
}

fn get_transfer(document: &Json) -> (r: Option<Transaction>)
    ensures
        r.deep_view() == transfer_of(document.deep_view()),
{
    match (
        get_inputs(document, "inputs", 1, 5),
        get_outputs(document, "outputs", 2, 5),
        get_number_or_zero(document, "fee", 3, 5),
        get_text(document, "signature", 4, 5),
    ) {
        (Some(inputs), Some(outputs), Some(fee), Some(signature)) => Some(
            Transaction::Transfer { inputs, outputs, fee, signature },
        ),
        _ => None,
    }
}

fn get_burn(document: &Json) -> (r: Option<Transaction>)
    ensures
        r.deep_view() == burn_of(document.deep_view()),
{
    match (
        get_inputs(document, "inputs", 1, 6),
        get_outputs(document, "change", 2, 6),
        get_number(document, "amount", 3, 6),
        get_number_or_zero(document, "fee", 4, 6),
        get_text(document, "signature", 5, 6),
    ) {
        (Some(inputs), Some(change), Some(amount), Some(fee), Some(signature)) => Some(
            Transaction::Burn { inputs, change, amount, fee, signature },
        ),
        _ => None,
    }
}

fn get_mine(document: &Json) -> (r: Option<Transaction>)
    ensures
        r.deep_view() == mine_of(document.deep_view()),
{
    match (
        (get_text(document, "recipient", 1, 8), get_text(document, "anchor", 2, 8), get_number_or_zero(document, "salt", 3, 8)),
        (
            get_number(document, "nonce", 4, 8),
            get_small_number(document, "difficulty_bits", 5, 8),
            get_optional_text(document, "proof_header", 6, 8),
            get_text(document, "signature", 7, 8),
        ),
    ) {
        (
            (Some(recipient), Some(anchor), Some(salt)),
            (Some(nonce), Some(difficulty_bits), Some(proof_header), Some(signature)),
        ) => Some(
            Transaction::Mine { recipient, anchor, salt, nonce, difficulty_bits, proof_header, signature },
        ),
        _ => None,
    }
}

fn get_kind(document: &Json) -> (r: Option<String>)
    ensures
        r.deep_view() == kind_of(document.deep_view()),
{
    let value = match document.as_list() {
        Some(items) => if items.len() > 0 {
            &items[0]
        } else {
            return None;
        },
        None => match document.get("kind") {
            Some(value) => value,
            None => return None,
        },
    };
    match value.as_text() {
        Some(t) => Some(t.clone()),
        None => None,
    }
}

/// The transaction in a document, if it is one.
pub fn transaction_from_json(document: &Json) -> (r: Option<Transaction>)
    ensures
        r.deep_view() == transaction_of(document.deep_view()),
{
    match get_kind(document) {
        None => None,
        Some(kind) => if text::text_eq(kind.as_str(), "transfer") {
            get_transfer(document)
        } else if text::text_eq(kind.as_str(), "burn") {
            get_burn(document)
        } else if text::text_eq(kind.as_str(), "mine") {
            get_mine(document)
        } else {
            None
        },
    }
}

/// A field of an object whose keys all differ.
proof fn field_found(fields: document::Fields, n: int)
    requires
        json::fits(JsonView::Object(fields), 16),
        0 <= n < fields.len(),
    ensures
        json::field(JsonView::Object(fields), fields[n].0) == Some(fields[n].1),
{
    sorted::lookup_at(fields, n);
}

proof fn input_round_trip(i: TxInputView)
    ensures
        input_of(document::input_doc(i)) == Some(i),
{
    document::small_docs_fit(
        i.outpoint,
        i,
        TxOutputView { address: Seq::<char>::empty(), amount: 0 },
        16,
    );
    let f = document::input_doc(i)->Object_0;
    field_found(f, 0);
    field_found(f, 1);
    field_found(f, 2);
    let o = document::outpoint_doc(i.outpoint)->Object_0;
    field_found(o, 0);
    field_found(o, 1);
}

proof fn output_round_trip(o: TxOutputView)
    ensures
        output_of(document::output_doc(o)) == Some(o),
{
    let outpoint = OutPointView { txid: Seq::<char>::empty(), index: 0 };
    document::small_docs_fit(
        outpoint,
        TxInputView { outpoint, owner: Seq::<char>::empty(), signature: Seq::<char>::empty() },
        o,
        16,
    );
    let f = document::output_doc(o)->Object_0;
    field_found(f, 0);
    field_found(f, 1);
}

proof fn inputs_round_trip(document: JsonView, key: Seq<char>, place: nat, count: nat, inputs: Seq<TxInputView>)
    requires
        json::part(document, key, place, count) == Some(document::inputs_doc(inputs)),
    ensures
        inputs_at(document, key, place, count) == Some(inputs),
{
    let items = document::inputs_doc(inputs)->List_0;
    assert forall|i: int| 0 <= i < items.len() implies input_of(#[trigger] items[i]) == Some(inputs[i]) by {
        input_round_trip(inputs[i]);
    }
    assert(Seq::new(items.len(), |i: int| input_of(items[i])->0) =~= inputs);
}

proof fn outputs_round_trip(document: JsonView, key: Seq<char>, place: nat, count: nat, outputs: Seq<TxOutputView>)
    requires
        json::part(document, key, place, count) == Some(document::outputs_doc(outputs)),
    ensures
        outputs_at(document, key, place, count) == Some(outputs),
{
    let items = document::outputs_doc(outputs)->List_0;
    assert forall|i: int| 0 <= i < items.len() implies output_of(#[trigger] items[i]) == Some(outputs[i]) by {
        output_round_trip(outputs[i]);
    }
    assert(Seq::new(items.len(), |i: int| output_of(items[i])->0) =~= outputs);
}

/// The document of a transaction holds that transaction.
pub proof fn transaction_round_trip(t: TransactionView)
    ensures
        transaction_of(document::transaction_doc(t)) == Some(t),
{
    document::transaction_doc_fits(t, 16);
    let d = document::transaction_doc(t);
    let f = document::transaction_fields(t);
    reveal_strlit("transfer");
    reveal_strlit("burn");
    reveal_strlit("mine");
    assert("transfer"@.len() == 8 && "burn"@.len() == 4 && "mine"@.len() == 4);
    assert("burn"@[0] == 'b' && "mine"@[0] == 'm');
    field_found(f, 0);
    field_found(f, 1);
    field_found(f, 2);
    field_found(f, 3);
    field_found(f, 4);
    match t {
        TransactionView::Transfer { inputs, outputs, .. } => {
            inputs_round_trip(d, "inputs"@, 1, 5, inputs);
            outputs_round_trip(d, "outputs"@, 2, 5, outputs);
        },
        TransactionView::Burn { inputs, change, .. } => {
            field_found(f, 5);
            inputs_round_trip(d, "inputs"@, 1, 6, inputs);
            outputs_round_trip(d, "change"@, 2, 6, change);
        },
        TransactionView::Mine { proof_header, .. } => {
            field_found(f, 5);
            field_found(f, 6);
            if proof_header is Some {
                field_found(f, 7);
            } else {
                reveal_strlit("kind");
                reveal_strlit("signature");
                reveal_strlit("recipient");
                reveal_strlit("anchor");
                reveal_strlit("salt");
                reveal_strlit("nonce");
                reveal_strlit("difficulty_bits");
                reveal_strlit("proof_header");
                assert("proof_header"@.len() == 12);
                assert(f.len() == 7);
                assert forall|i: int| 0 <= i < f.len() implies (#[trigger] f[i]).0 != "proof_header"@ by {
                    assert(f[i].0.len() != 12);
                }
                sorted::lookup_absent(f, "proof_header"@);
            }
        },
    }
}

/// What opening an envelope with a reveal gives. A payload that writes a key of an object twice is
/// refused.
pub open spec fn decrypted(t: BlindedTransactionView, reveal: BlindedRevealView) -> Result<TransactionView, Seq<char>> {
    if reveal.commitment != t.commitment {
        Err("blinded reveal commitment does not match transaction"@)
    } else {
        match hex::exact_bytes_of(reveal.key, 32) {
            Err(e) => Err(error::in_context("invalid blinded reveal key"@, e)),
            Ok(key) => match hex::exact_bytes_of(t.nonce, 12) {
                Err(e) => Err(error::in_context("invalid blinded transaction nonce"@, e)),
                Ok(nonce) => match hex::bytes_of(t.ciphertext) {
                    Err(e) => Err(error::in_context("invalid blinded transaction ciphertext"@, e)),
                    Ok(ciphertext) => match crypto::opened(
                        key,
                        nonce,
                        encode_utf8(blinded::payload_aad(t.fee, t.expires_at_height)),
                        ciphertext,
                    ) {
                        None => Err("failed to decrypt blinded transaction payload"@),
                        Some(plaintext) => if hex::text_of(crypto::sha256(plaintext)) != t.payload_hash {
                            Err("blinded transaction payload hash is invalid"@)
                        } else {
                            match json::json_document(plaintext) {
                                None => Err("failed to decode blinded transaction payload"@),
                                Some(document) => if !json::written_once(plaintext, document) {
                                    Err("failed to decode blinded transaction payload"@)
                                } else {
                                    match transaction_of(document) {
                                        None => Err("failed to decode blinded transaction payload"@),
                                        Some(transaction) => if !transaction::spend_alike(
                                            transaction.inputs(),
                                            t.inputs,
                                        ) {
                                            Err("blinded transaction inputs do not match payload"@)
                                        } else {
                                            Ok(transaction)
                                        },
                                    }
                                },
                            }
                        },
                    },
                },
            },
        }
    }
}

/// What an envelope holds spends what the envelope names.
pub proof fn opened_spends_alike(t: BlindedTransactionView, reveal: BlindedRevealView)
    ensures
        decrypted(t, reveal) matches Ok(payload) ==> transaction::spend_alike(payload.inputs(), t.inputs),
{
}

/// Opens an envelope with a reveal.
pub fn decrypt_blinded_transaction(transaction: &BlindedTransaction, reveal: &BlindedReveal) -> (r: Result<
    Transaction,
    Error,
>)
    ensures
        error::outcome(r) == decrypted(transaction.deep_view(), reveal.deep_view()),
{
    if !reveal.commitment.same(&transaction.commitment) {
        return Err(Error::new("blinded reveal commitment does not match transaction"));
    }
    let key = match hex::decode_hex_array(reveal.key.as_str(), 32) {
        Ok(key) => key,
        Err(e) => return Err(e.context("invalid blinded reveal key")),
    };
    let nonce = match hex::decode_hex_array(transaction.nonce.as_str(), 12) {
        Ok(nonce) => nonce,
        Err(e) => return Err(e.context("invalid blinded transaction nonce")),
    };
    let ciphertext = match hex::decode_hex(transaction.ciphertext.as_str()) {
        Ok(ciphertext) => ciphertext,
        Err(e) => return Err(e.context("invalid blinded transaction ciphertext")),
    };
    assert(ciphertext.deep_view() =~= ciphertext@);
    let plaintext = blinded::decrypt_blinded_payload(
        key.as_slice(),
        nonce.as_slice(),
        transaction.fee,
        transaction.expires_at_height,
        ciphertext.as_slice(),
    )?;
    if !crypto::hex_hash(plaintext.as_slice()).same(&transaction.payload_hash) {
        return Err(Error::new("blinded transaction payload hash is invalid"));
    }
    match json::read_json(plaintext.as_slice()) {
        None => Err(Error::new("failed to decode blinded transaction payload")),
        Some(document) => if !document.is_written_once(plaintext.as_slice()) {
            Err(Error::new("failed to decode blinded transaction payload"))
        } else {
            match transaction_from_json(&document) {
                None => Err(Error::new("failed to decode blinded transaction payload")),
                Some(t) => if !transaction::inputs_spend_alike(&t.inputs(), &transaction.inputs) {
                    Err(Error::new("blinded transaction inputs do not match payload"))
                } else {
                    Ok(t)
                },
            }
        },
    }
}

/// The envelope of a transaction under a key and nonce, signed with a seed, and the reveal that opens
/// it.
pub open spec fn sealed_transaction(
    seed: Seq<u8>,
    t: TransactionView,
    expires_at_height: u64,
    key: Seq<u8>,
    nonce: Seq<u8>,
) -> Result<BuiltBlindedTransactionView, Seq<char>> {
    let plaintext = json::json_text(document::transaction_doc(t));
    let ciphertext = crypto::sealed(
        key,
        nonce,
        encode_utf8(blinded::payload_aad(t.fee(), expires_at_height)),
        plaintext,
    );
    if plaintext.len() > blinded::MAX_SEALED_BYTES {
        Err("failed to encrypt blinded transaction payload"@)
    } else if plaintext.len() + 16 > u32::MAX {
        Err("blinded transaction ciphertext is too large"@)
    } else {
        let draft = BlindedTransactionView {
            commitment: Seq::<char>::empty(),
            inputs: t.inputs(),
            fee: t.fee(),
            encrypted_size: (plaintext.len() + 16) as u32,
            expires_at_height,
            nonce: hex::text_of(nonce),
            ciphertext: hex::text_of(ciphertext),
            payload_hash: hex::text_of(crypto::sha256(plaintext)),
        };
        let signature = wallet::signature_of(seed, draft.authorization());
        let envelope = BlindedTransactionView { inputs: transaction::signed_with(t.inputs(), signature), ..draft };
        let commitment = envelope.expected_commitment();
        Ok(
            BuiltBlindedTransactionView {
                payload: t,
                transaction: BlindedTransactionView { commitment, ..envelope },
                reveal: BlindedRevealView { commitment, key: hex::text_of(key) },
            },
        )
    }
}

/// The envelope of a transaction names its inputs, bears its fee and the expiry, and its commitment
/// covers them.
pub proof fn sealed_parts(seed: Seq<u8>, t: TransactionView, expires_at_height: u64, key: Seq<u8>, nonce: Seq<u8>)
    ensures
        sealed_transaction(seed, t, expires_at_height, key, nonce) matches Ok(b) ==> {
            &&& b.payload == t
            &&& transaction::spend_alike(b.transaction.inputs, t.inputs())
            &&& b.transaction.fee == t.fee()
            &&& b.transaction.expires_at_height == expires_at_height
            &&& b.transaction.commitment == b.transaction.expected_commitment()
            &&& b.reveal.commitment == b.transaction.commitment
            &&& hex::bytes_of(b.transaction.ciphertext) matches Ok(c)
            &&& b.transaction.ciphertext.len() == 2 * c.len()
        },
{
    if let Ok(b) = sealed_transaction(seed, t, expires_at_height, key, nonce) {
        transaction::signing_spends_alike(
            t.inputs(),
            wallet::signature_of(
                seed,
                (BlindedTransactionView {
                    commitment: Seq::<char>::empty(),
                    inputs: t.inputs(),
                    ..b.transaction
                }).authorization(),
            ),
        );
        hex::decode_encode(
            crypto::sealed(
                key,
                nonce,
                encode_utf8(blinded::payload_aad(t.fee(), expires_at_height)),
                json::json_text(document::transaction_doc(t)),
            ),
        );
        assert(b.transaction.expected_commitment() == (BlindedTransactionView {
            commitment: Seq::<char>::empty(),
            ..b.transaction
        }).expected_commitment());
    }
}

/// Seals a transaction under a key and nonce, and signs the envelope. Opening it with the reveal gives
/// the transaction back.
pub fn seal_transaction(
    wallet: &Wallet,
    transaction: Transaction,
    expires_at_height: u64,
    key: &[u8],
    nonce: &[u8],
) -> (r: Result<BuiltBlindedTransaction, Error>)
    requires
        key@.len() == 32,
        nonce@.len() == 12,
    ensures
        error::outcome(r) == sealed_transaction(
            wallet.seed(),
            transaction.deep_view(),
            expires_at_height,
            key@,
            nonce@,
        ),
        r matches Ok(b) ==> {
            &&& decrypted(b.transaction.deep_view(), b.reveal.deep_view()) == Ok::<TransactionView, Seq<char>>(
                transaction.deep_view(),
            )
            &&& hex::bytes_of(b.transaction.ciphertext@) matches Ok(c) && c.len() == b.transaction.encrypted_size
            &&& hex::exact_bytes_of(b.transaction.commitment@, 32) is Ok
            &&& hex::exact_bytes_of(b.transaction.payload_hash@, 32) is Ok
            &&& hex::exact_bytes_of(b.transaction.nonce@, 12) is Ok
        },
{
    let fee = transaction.fee();
    let plaintext = document::transaction_bytes(&transaction);
    let payload_hash = crypto::hex_hash(plaintext.as_slice());
    let ciphertext = blinded::encrypt_blinded_payload(
        key,
        nonce,
        fee,
        expires_at_height,
        plaintext.as_slice(),
    )?;
    if ciphertext.len() as u128 > u32::MAX as u128 {
        return Err(Error::new("blinded transaction ciphertext is too large"));
    }
    let mut envelope = BlindedTransaction {
        commitment: String::new(),
        inputs: transaction.inputs(),
        fee,
        encrypted_size: ciphertext.len() as u32,
        expires_at_height,
        nonce: hex::hex_encode(nonce),
        ciphertext: hex::hex_encode(ciphertext.as_slice()),
        payload_hash,
    };
    let signature = wallet.sign_payload(envelope.authorization().as_str());
    envelope.inputs = transaction::sign_inputs_with(&envelope.inputs, signature.as_str());
    let commitment = blinded::blinded_transaction_commitment(&envelope);
    envelope.commitment = commitment.clone();
    let reveal = BlindedReveal { commitment, key: hex::hex_encode(key) };
    proof {
        hex::decode_encode(key@);
        hex::decode_encode(nonce@);
        hex::decode_encode(ciphertext@);
        hex::decode_encode(crypto::sha256(plaintext@));
        hex::decode_encode(crypto::sha256(encode_utf8(envelope.deep_view().canonical())));
        transaction_round_trip(transaction.deep_view());
    }
    Ok(BuiltBlindedTransaction { payload: transaction, transaction: envelope, reveal })
}

} // verus!
