use vstd::prelude::*;

verus! {

/// `serde_json::Number`, a number of a JSON document. It is carried along; nothing is
/// read of it.
#[verifier::external_type_specification]
#[verifier::external_body]
pub struct ExNumber(serde_json::Number);

/// `serde_json::Error`, the error of a reading or a writing. Nothing is read of it.
#[verifier::external_type_specification]
#[verifier::external_body]
pub struct ExError(serde_json::Error);

/// `serde_json::Value`, a JSON document as `serde_json` holds it. It only passes
/// between `serde_json` and the functions that move it into and out of a `Json`.
#[verifier::external_type_specification]
#[verifier::external_body]
pub struct ExValue(serde_json::Value);

/// A JSON document. The members of an object are kept as a list, in the order
/// in which they stand.
#[derive(Debug, PartialEq)]
pub enum Json {
    Null,
    Bool(bool),
    Number(serde_json::Number),
    Str(String),
    Array(Vec<Json>),
    Object(Vec<(String, Json)>),
}

/// The mathematical value of a `Json`.
pub enum JsonView {
    Null,
    Bool(bool),
    Number(serde_json::Number),
    Str(Seq<char>),
    Array(Seq<JsonView>),
    Object(Seq<(Seq<char>, JsonView)>),
}

/// The mathematical value of a document.
pub open spec fn view_of(doc: Json) -> JsonView
    decreases doc,
{
    match doc {
        Json::Null => JsonView::Null,
        Json::Bool(b) => JsonView::Bool(b),
        Json::Number(n) => JsonView::Number(n),
        Json::Str(s) => JsonView::Str(s@),
        Json::Array(items) => JsonView::Array(
            Seq::new(
                items.len() as nat,
                |i: int|
                    if 0 <= i < items.len() {
                        view_of(items[i])
                    } else {
                        JsonView::Null
                    },
            ),
        ),
        Json::Object(members) => JsonView::Object(
            Seq::new(
                members.len() as nat,
                |i: int|
                    if 0 <= i < members.len() {
                        (members[i].0@, view_of(members[i].1))
                    } else {
                        (Seq::empty(), JsonView::Null)
                    },
            ),
        ),
    }
}

impl View for Json {
    type V = JsonView;

    open spec fn view(&self) -> JsonView {
        view_of(*self)
    }
}

/// The views of a list of documents, in order.
pub open spec fn json_views(items: Seq<Json>) -> Seq<JsonView> {
    Seq::new(items.len(), |i: int| items[i]@)
}

/// The members of an object, as they are listed: each a key with its value.
pub type Members = Seq<(Seq<char>, JsonView)>;

/// The views of the members of an object, in order.
pub open spec fn member_views(members: Seq<(String, Json)>) -> Members {
    Seq::new(members.len(), |i: int| (members[i].0@, members[i].1@))
}

/// The view of an array is the array of the views.
pub proof fn lemma_array_view(items: Vec<Json>)
    ensures
        Json::Array(items)@ == JsonView::Array(json_views(items@)),
{
    assert(Json::Array(items)@->Array_0 =~= json_views(items@));
}

/// The view of an object is the object of its members' views.
pub proof fn lemma_object_view(members: Vec<(String, Json)>)
    ensures
        Json::Object(members)@ == JsonView::Object(member_views(members@)),
{
    assert(Json::Object(members)@->Object_0 =~= member_views(members@));
}

/// The document that `serde_json::from_str` reads from a text, moved into a
/// `Json`; `None` where it reads none. What it is for a given text is not stated
/// here: only that it depends on the text alone.
pub uninterp spec fn json_parse(text: Seq<char>) -> Option<JsonView>;

/// The text that `serde_json::to_string` writes for a document, moved into a
/// `serde_json::Value`; `None` where it writes none. What it is for a given
/// document is not stated here: only that it depends on the document alone.
pub uninterp spec fn json_text(doc: JsonView) -> Option<Seq<char>>;

/// Moves a `serde_json::Value` into a `Json`, variant by variant: a field goes
/// over as it is, the items of an array in their order, the members of an
/// object in the order in which `serde_json::Map` hands them out. Nothing is
/// claimed of the result.
#[verifier::external_body]
fn from_value(value: serde_json::Value) -> Json {
    match value {
        serde_json::Value::Null => Json::Null,
        serde_json::Value::Bool(b) => Json::Bool(b),
        serde_json::Value::Number(n) => Json::Number(n),
        serde_json::Value::String(s) => Json::Str(s),
        serde_json::Value::Array(items) => Json::Array(items.into_iter().map(from_value).collect()),
        serde_json::Value::Object(members) => Json::Object(
            members.into_iter().map(|(key, value)| (key, from_value(value))).collect(),
        ),
    }
}

/// Reads a text with `serde_json::from_str` as a `serde_json::Value` and moves
/// the value into a `Json`. Believed, not proved: the outcome depends on the
/// text alone, so that it is the document that `json_parse` names, or an error
/// where `json_parse` names none.
#[verifier::external_body]
pub(crate) fn parse_json(text: &str) -> (parsed: Result<Json, serde_json::Error>)
    ensures
        match parsed {
            Ok(doc) => json_parse(text@) == Some(doc@),
            Err(_) => json_parse(text@) is None,
        },
{
    serde_json::from_str::<serde_json::Value>(text).map(from_value)
}

/// Moves a copy of a `Json` into a `serde_json::Value`, variant by variant: a
/// field goes over as it is, the items of an array in their order, the members
/// of an object into a `serde_json::Map`. Nothing is claimed of the result.
#[verifier::external_body]
fn to_value(doc: &Json) -> serde_json::Value {
    match doc {
        Json::Null => serde_json::Value::Null,
        Json::Bool(b) => serde_json::Value::Bool(*b),
        Json::Number(n) => serde_json::Value::Number(n.clone()),
        Json::Str(s) => serde_json::Value::String(s.clone()),
        Json::Array(items) => serde_json::Value::Array(items.iter().map(to_value).collect()),
        Json::Object(members) => serde_json::Value::Object(
            members.iter().map(|(key, value)| (key.clone(), to_value(value))).collect(),
        ),
    }
}

/// Moves the document of a snapshot into a `serde_json::Value` and writes it
/// with `serde_json::to_string`. Believed, not proved: the outcome depends on
/// the document alone, so that it is the text that `json_text` names, or an error
/// where `json_text` names none. Only documents of the shape of a snapshot are
/// written, which are four levels deep.
#[verifier::external_body]
pub(crate) fn render_json(doc: &Json) -> (rendered: Result<String, serde_json::Error>)
    requires
        crate::snapshot::decode_document(doc@) is Some,
    ensures
        match rendered {
            Ok(text) => json_text(doc@) == Some(text@),
            Err(_) => json_text(doc@) is None,
        },
{
    serde_json::to_string(&to_value(doc))
}

} // verus!
