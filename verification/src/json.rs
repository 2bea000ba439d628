//! JSON documents, written and read by `serde_json`.
use crate::model;
use serde_json::Value;
use vstd::prelude::*;

verus! {

/// A JSON document. Numbers that are no `u64` are all `Other`.
#[derive(Debug)]
pub enum Json {
    Null,
    Bool(bool),
    Number(u64),
    Text(String),
    List(Vec<Json>),
    Object(Vec<(String, Json)>),
    Other,
}

/// The model of a document.
pub enum JsonView {
    Null,
    Bool(bool),
    Number(u64),
    Text(Seq<char>),
    List(Seq<JsonView>),
    Object(Seq<(Seq<char>, JsonView)>),
    Other,
}

pub open spec fn json_view(j: Json) -> JsonView
    decreases j,
{
    match j {
        Json::Null => JsonView::Null,
        Json::Bool(b) => JsonView::Bool(b),
        Json::Number(n) => JsonView::Number(n),
        Json::Text(t) => JsonView::Text(t@),
        Json::List(items) => JsonView::List(
            Seq::new(
                items@.len(),
                |i: int|
                    if 0 <= i < items@.len() {
                        json_view(items@[i])
                    } else {
                        JsonView::Null
                    },
            ),
        ),
        Json::Object(fields) => JsonView::Object(
            Seq::new(
                fields@.len(),
                |i: int|
                    if 0 <= i < fields@.len() {
                        (fields@[i].0@, json_view(fields@[i].1))
                    } else {
                        (Seq::<char>::empty(), JsonView::Null)
                    },
            ),
        ),
        Json::Other => JsonView::Other,
    }
}

impl DeepView for Json {
    type V = JsonView;

    open spec fn deep_view(&self) -> JsonView {
        json_view(*self)
    }
}

pub proof fn list_view(items: Vec<Json>)
    ensures
        Json::List(items).deep_view() == JsonView::List(items.deep_view()),
{
    assert(Json::List(items).deep_view()->List_0 =~= items.deep_view());
}

pub proof fn object_view(fields: Vec<(String, Json)>)
    ensures
        Json::Object(fields).deep_view() == JsonView::Object(fields.deep_view()),
{
    assert(Json::Object(fields).deep_view()->Object_0 =~= fields.deep_view());
}

/// Whether a document of at most `depth` levels can be written and read back: no `Other`, and no
/// key twice in one object.
pub open spec fn fits(j: JsonView, depth: nat) -> bool
    decreases depth,
{
    match j {
        JsonView::List(items) => depth > 0 && forall|i: int|
            0 <= i < items.len() ==> fits(#[trigger] items[i], (depth - 1) as nat),
        JsonView::Object(fields) => {
            &&& depth > 0
            &&& forall|i: int| 0 <= i < fields.len() ==> fits((#[trigger] fields[i]).1, (depth - 1) as nat)
            &&& forall|i: int, k: int|
                0 <= i < k < fields.len() ==> (#[trigger] fields[i]).0 != (#[trigger] fields[k]).0
        },
        JsonView::Other => false,
        _ => true,
    }
}

/// Where a reader of JSON text stands: how many members it has passed, whether it is inside a text,
/// and whether a backslash came last.
pub open spec fn scanned(bytes: Seq<u8>) -> (nat, bool, bool)
    decreases bytes.len(),
{
    if bytes.len() == 0 {
        (0, false, false)
    } else {
        let (members, in_text, escaped) = scanned(bytes.drop_last());
        let b = bytes.last();
        if in_text {
            (members, escaped || b != 0x22, !escaped && b == 0x5c)
        } else if b == 0x3a {
            (members + 1, false, false)
        } else {
            (members, b == 0x22, false)
        }
    }
}

/// How many members the objects of a JSON text have, as they are written: one for each colon that
/// is not inside a text.
pub open spec fn members_written(bytes: Seq<u8>) -> nat {
    scanned(bytes).0
}

/// How many members the objects of a document have.
pub open spec fn members_read(j: JsonView) -> nat
    decreases j, 0nat,
{
    match j {
        JsonView::List(items) => members_of_items(items, items.len()),
        JsonView::Object(fields) => members_of_fields(fields, fields.len()),
        _ => 0,
    }
}

/// How many members the first documents of a list have.
pub open spec fn members_of_items(items: Seq<JsonView>, count: nat) -> nat
    decreases items, count,
{
    if count == 0 || count > items.len() {
        0
    } else {
        members_of_items(items, (count - 1) as nat) + members_read(items[count - 1])
    }
}

/// How many members the first fields of an object are and have.
pub open spec fn members_of_fields(fields: Seq<(Seq<char>, JsonView)>, count: nat) -> nat
    decreases fields, count,
{
    if count == 0 || count > fields.len() {
        0
    } else {
        members_of_fields(fields, (count - 1) as nat) + 1 + members_read(fields[count - 1].1)
    }
}

/// Whether a text writes every member that is read of it once: a key that an object repeats is
/// written more often than it is read.
pub open spec fn written_once(bytes: Seq<u8>, document: JsonView) -> bool {
    members_written(bytes) == members_read(document)
}

/// The text that `serde_json` writes for a document.
pub uninterp spec fn json_text(document: JsonView) -> Seq<u8>;

/// The document that `serde_json` reads in a text, if it is JSON.
pub uninterp spec fn json_document(bytes: Seq<u8>) -> Option<JsonView>;

#[verifier::external_type_specification]
#[verifier::external_body]
pub struct ExValue(serde_json::Value);

/// The `serde_json::Value` of a document: one arm for each kind, fields moved.
#[verifier::external_body]
fn to_value(document: &Json) -> Value {
    match document {
        Json::Null | Json::Other => Value::Null,
        Json::Bool(flag) => Value::Bool(*flag),
        Json::Number(number) => Value::from(*number),
        Json::Text(text) => Value::String(text.clone()),
        Json::List(items) => Value::Array(items.iter().map(to_value).collect()),
        Json::Object(fields) => {
            Value::Object(fields.iter().map(|(key, value)| (key.clone(), to_value(value))).collect())
        }
    }
}

/// The document of a `serde_json::Value`: one arm for each kind, fields moved.
#[verifier::external_body]
fn from_value(value: Value) -> Json {
    match value {
        Value::Null => Json::Null,
        Value::Bool(flag) => Json::Bool(flag),
        Value::Number(number) => number.as_u64().map_or(Json::Other, Json::Number),
        Value::String(text) => Json::Text(text),
        Value::Array(items) => Json::List(items.into_iter().map(from_value).collect()),
        Value::Object(fields) => {
            Json::Object(fields.into_iter().map(|(key, value)| (key, from_value(value))).collect())
        }
    }
}

/// `serde_json::to_vec` on a `Value`. The text depends on the document alone, fields keep their
/// order, reading the text gives the document back, and each member is written once, with a colon
/// outside every text.
#[verifier::external_body]
pub(crate) fn write_json(document: &Json) -> (bytes: Vec<u8>)
    requires
        fits(document.deep_view(), 16),
    ensures
        bytes@ == json_text(document.deep_view()),
        json_document(bytes@) == Some(document.deep_view()),
        written_once(bytes@, document.deep_view()),
{
    serde_json::to_vec(&to_value(document)).unwrap_or_default()
}

/// `serde_json::from_slice` into a `Value`: the document in the text, or nothing. Of a key that an
/// object repeats, the last value counts.
#[verifier::external_body]
pub(crate) fn read_json(bytes: &[u8]) -> (document: Option<Json>)
    ensures
        document.deep_view() == json_document(bytes@),
{
    serde_json::from_slice::<Value>(bytes).ok().map(from_value)
}

/// How many members the objects of a JSON text have, as they are written.
fn count_written(bytes: &[u8]) -> (r: usize)
    ensures
        r == members_written(bytes@),
{
    let mut members: usize = 0;
    let mut in_text = false;
    let mut escaped = false;
    let mut i: usize = 0;
    assert(bytes@.take(0) =~= Seq::<u8>::empty());
    while i < bytes.len()
        invariant
            i <= bytes@.len(),
            members <= i,
            scanned(bytes@.take(i as int)) == (members as nat, in_text, escaped),
        decreases bytes@.len() - i,
    {
        proof {
            assert(bytes@.take(i + 1).drop_last() =~= bytes@.take(i as int));
            assert(bytes@.take(i + 1).last() == bytes@[i as int]);
        }
        let b: u8 = bytes[i];
        if in_text {
            in_text = escaped || b != 0x22;
            escaped = !escaped && b == 0x5c;
        } else if b == 0x3a {
            members = members + 1;
        } else {
            in_text = b == 0x22;
        }
        i = i + 1;
    }
    assert(bytes@.take(i as int) =~= bytes@);
    members
}

/// A count, as far as it can be told.
pub open spec fn capped(n: nat) -> u128 {
    if n > u128::MAX {
        u128::MAX
    } else {
        n as u128
    }
}

fn capped_sum(a: u128, b: u128) -> (r: u128)
    ensures
        r == capped((a + b) as nat),
{
    if a > u128::MAX - b {
        u128::MAX
    } else {
        a + b
    }
}

fn count_items(items: &Vec<Json>) -> (r: u128)
    ensures
        r == capped(members_of_items(items.deep_view(), items.deep_view().len())),
    decreases items,
{
    let ghost v = items.deep_view();
    let mut sum: u128 = 0;
    let mut i: usize = 0;
    while i < items.len()
        invariant
            i <= items.len(),
            v == items.deep_view(),
            sum == capped(members_of_items(v, i as nat)),
        decreases items.len() - i,
    {
        assert(v[i as int] == items@[i as int].deep_view());
        assert(decreases_to!(items => items@));
        let more: u128 = items[i].count_members();
        sum = capped_sum(sum, more);
        i = i + 1;
    }
    sum
}

fn count_fields(fields: &Vec<(String, Json)>) -> (r: u128)
    ensures
        r == capped(members_of_fields(fields.deep_view(), fields.deep_view().len())),
    decreases fields,
{
    let ghost v = fields.deep_view();
    let mut sum: u128 = 0;
    let mut i: usize = 0;
    while i < fields.len()
        invariant
            i <= fields.len(),
            v == fields.deep_view(),
            sum == capped(members_of_fields(v, i as nat)),
        decreases fields.len() - i,
    {
        assert(v[i as int] == fields@[i as int].deep_view());
        assert(decreases_to!(fields => fields@));
        let more: u128 = fields[i].1.count_members();
        sum = capped_sum(capped_sum(sum, 1), more);
        i = i + 1;
    }
    sum
}

impl Json {
    /// How many members the objects of the document have.
    fn count_members(&self) -> (r: u128)
        ensures
            r == capped(members_read(self.deep_view())),
        decreases self,
    {
        match self {
            Json::List(items) => {
                proof {
                    list_view(*items);
                }
                count_items(items)
            },
            Json::Object(fields) => {
                proof {
                    object_view(*fields);
                }
                count_fields(fields)
            },
            _ => 0,
        }
    }

    /// Whether a text writes every member of the document once.
    pub(crate) fn is_written_once(&self, bytes: &[u8]) -> (r: bool)
        ensures
            r == written_once(bytes@, self.deep_view()),
    {
        count_written(bytes) as u128 == self.count_members()
    }
}

/// The value of a field of an object.
pub open spec fn field(document: JsonView, key: Seq<char>) -> Option<JsonView> {
    match document {
        JsonView::Object(fields) => crate::sorted::lookup(fields, key),
        _ => None,
    }
}

/// The part of a document that stands for a field: under its key in an object, at its place in a
/// list of all fields.
pub open spec fn part(document: JsonView, key: Seq<char>, place: nat, count: nat) -> Option<JsonView> {
    match document {
        JsonView::List(items) => if items.len() == count {
            Some(items[place as int])
        } else {
            None
        },
        _ => field(document, key),
    }
}

impl Json {
    /// The part of a document that stands for a field.
    pub fn part(&self, key: &str, place: usize, count: usize) -> (r: Option<&Json>)
        requires
            place < count,
        ensures
            r.deep_view() == part(self.deep_view(), key@, place as nat, count as nat),
    {
        match self.as_list() {
            Some(items) => if items.len() == count {
                Some(&items[place])
            } else {
                None
            },
            None => self.get(key),
        }
    }

    /// The value of a field of an object.
    pub fn get(&self, key: &str) -> (r: Option<&Json>)
        ensures
            r.deep_view() == field(self.deep_view(), key@),
    {
        match self {
            Json::Object(fields) => {
                proof {
                    object_view(*fields);
                    model::take_all(fields.deep_view());
                }
                let mut i: usize = fields.len();
                while i > 0
                    invariant
                        i <= fields.len(),
                        self.deep_view() == JsonView::Object(fields.deep_view()),
                        crate::sorted::lookup(fields.deep_view(), key@) == crate::sorted::lookup(
                            fields.deep_view().take(i as int),
                            key@,
                        ),
                    decreases i,
                {
                    i = i - 1;
                    let ghost f = fields.deep_view();
                    proof {
                        assert(f.take(i + 1).drop_last() =~= f.take(i as int));
                        assert(f.take(i + 1).last() == f[i as int]);
                    }
                    if crate::text::text_eq(fields[i].0.as_str(), key) {
                        return Some(&fields[i].1);
                    }
                }
                assert(fields.deep_view().take(0).len() == 0);
                None
            },
            _ => None,
        }
    }

    pub fn as_text(&self) -> (r: Option<&String>)
        ensures
            r.deep_view() == match self.deep_view() {
                JsonView::Text(t) => Some(t),
                _ => None,
            },
    {
        match self {
            Json::Text(t) => Some(t),
            _ => None,
        }
    }

    pub fn as_number(&self) -> (r: Option<u64>)
        ensures
            r == match self.deep_view() {
                JsonView::Number(n) => Some(n),
                _ => None,
            },
    {
        match self {
            Json::Number(n) => Some(*n),
            _ => None,
        }
    }

    pub fn as_list(&self) -> (r: Option<&Vec<Json>>)
        ensures
            r.deep_view() == match self.deep_view() {
                JsonView::List(items) => Some(items),
                _ => None,
            },
    {
        match self {
            Json::List(items) => {
                proof {
                    list_view(*items);
                }
                Some(items)
            },
            _ => None,
        }
    }
}

} // verus!
