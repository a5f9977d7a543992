//! Provider payloads.
//!
//! Payloads are `serde_json` documents. What a document holds is modelled by
//! [`JsonView`]; the functions here read, build, parse and render documents in
//! those terms.

use vstd::prelude::*;

verus! {

/// Declares `serde_json::Value`, a JSON document.
#[verifier::external_type_specification]
#[verifier::external_body]
pub struct ExJson(serde_json::Value);

/// What a JSON document holds.
pub ghost enum JsonView {
    /// Nothing.
    Null,
    /// A truth value.
    Truth(bool),
    /// A whole number.
    Integer(int),
    /// A number with a fraction or an exponent, as it is written.
    Decimal(Seq<char>),
    /// A text.
    Text(Seq<char>),
    /// A list.
    List(Seq<JsonView>),
    /// Values by key.
    Object(Map<Seq<char>, JsonView>),
}

impl JsonView {
    /// The value under a key; nothing where there is none.
    pub open spec fn member(self, key: Seq<char>) -> JsonView {
        match self {
            JsonView::Object(fields) => if fields.contains_key(key) {
                fields[key]
            } else {
                JsonView::Null
            },
            _ => JsonView::Null,
        }
    }

    /// The value at a position; nothing where there is none.
    pub open spec fn at(self, index: int) -> JsonView {
        match self {
            JsonView::List(items) => if 0 <= index < items.len() {
                items[index]
            } else {
                JsonView::Null
            },
            _ => JsonView::Null,
        }
    }

    /// The text, where it is one.
    pub open spec fn text(self) -> Option<Seq<char>> {
        match self {
            JsonView::Text(text) => Some(text),
            _ => None,
        }
    }

    /// The text, or another where it is none.
    pub open spec fn text_or(self, other: Seq<char>) -> Seq<char> {
        match self {
            JsonView::Text(text) => text,
            _ => other,
        }
    }

    /// The whole number, where it is one that 64 bits with a sign can hold.
    pub open spec fn integer(self) -> Option<i64> {
        match self {
            JsonView::Integer(number) => if i64::MIN <= number <= i64::MAX {
                Some(number as i64)
            } else {
                None
            },
            _ => None,
        }
    }

    /// The whole number, or another where it is none.
    pub open spec fn integer_or(self, other: i64) -> i64 {
        match self.integer() {
            Some(number) => number,
            None => other,
        }
    }

    /// The whole number, where it is one that 64 bits without a sign can hold.
    pub open spec fn unsigned(self) -> Option<u64> {
        match self {
            JsonView::Integer(number) => if 0 <= number <= u64::MAX {
                Some(number as u64)
            } else {
                None
            },
            _ => None,
        }
    }
}

/// What a document holds.
pub uninterp spec fn json_content(document: serde_json::Value) -> JsonView;

/// What a list of documents holds.
pub open spec fn json_contents(documents: Seq<serde_json::Value>) -> Seq<JsonView> {
    documents.map_values(|document: serde_json::Value| json_content(document))
}

/// What optional documents hold.
pub open spec fn optional_content(document: Option<serde_json::Value>) -> Option<JsonView> {
    match document {
        Some(value) => Some(json_content(value)),
        None => None,
    }
}

/// What a byte string holds as JSON, or why it is none.
pub uninterp spec fn json_document(bytes: Seq<u8>) -> Result<JsonView, Seq<char>>;

/// A document as compact bytes, or why it cannot be rendered.
pub uninterp spec fn json_rendering(document: JsonView) -> Result<Seq<u8>, Seq<char>>;

/// A document as compact text.
pub uninterp spec fn json_display(document: JsonView) -> Seq<char>;

/// Parses bytes with `serde_json::from_slice`: what comes out, and the text of the error
/// where nothing does, is a function of the bytes.
#[verifier::external_body]
pub(crate) fn parse_json(bytes: &[u8]) -> (document: Result<serde_json::Value, String>)
    ensures
        match document {
            Ok(value) => json_document(bytes@) == Ok::<JsonView, Seq<char>>(json_content(value)),
            Err(message) => json_document(bytes@) == Err::<JsonView, Seq<char>>(message@),
        },
{
    serde_json::from_slice(bytes).map_err(|error: serde_json::Error| error.to_string())
}

/// Renders a document with `serde_json::to_vec`: the bytes, and the text of the error
/// where there are none, are a function of what the document holds.
#[verifier::external_body]
pub(crate) fn render_json(document: &serde_json::Value) -> (bytes: Result<Vec<u8>, String>)
    ensures
        match bytes {
            Ok(made) => json_rendering(json_content(*document)) == Ok::<Seq<u8>, Seq<char>>(made@),
            Err(message) => json_rendering(json_content(*document)) == Err::<Seq<u8>, Seq<char>>(
                message@,
            ),
        },
{
    serde_json::to_vec(document).map_err(|error| error.to_string())
}

/// Renders a document with the `Display` of `serde_json::Value`: the text is a function of
/// what the document holds.
#[verifier::external_body]
pub(crate) fn display_json(document: &serde_json::Value) -> (text: String)
    ensures
        text@ == json_display(json_content(*document)),
{
    document.to_string()
}

/// Copies a document with the `Clone` of `serde_json::Value`: the copy holds the same.
#[verifier::external_body]
pub(crate) fn copy_json(document: &serde_json::Value) -> (copy: serde_json::Value)
    ensures
        json_content(copy) == json_content(*document),
{
    document.clone()
}

/// Looks up a key with the indexing of `serde_json::Value`, which gives null where the
/// document is no object or has no such key.
#[verifier::external_body]
pub(crate) fn member<'a>(document: &'a serde_json::Value, key: &str) -> (value: &'a serde_json::Value)
    ensures
        json_content(*value) == json_content(*document).member(key@),
{
    &document[key]
}

/// Looks up a position with the indexing of `serde_json::Value`, which gives null where the
/// document is no list or is too short.
#[verifier::external_body]
pub(crate) fn element(document: &serde_json::Value, index: usize) -> (value: &serde_json::Value)
    ensures
        json_content(*value) == json_content(*document).at(index as int),
{
    &document[index]
}

/// Reads a text with `serde_json::Value::as_str`.
#[verifier::external_body]
pub(crate) fn text_of_json(document: &serde_json::Value) -> (text: Option<&str>)
    ensures
        match text {
            Some(found) => json_content(*document).text() == Some(found@),
            None => json_content(*document).text() is None,
        },
{
    document.as_str()
}

/// Reads a whole number with `serde_json::Value::as_i64`, which gives those that fit.
#[verifier::external_body]
pub(crate) fn integer_of_json(document: &serde_json::Value) -> (number: Option<i64>)
    ensures
        number == json_content(*document).integer(),
{
    document.as_i64()
}

/// Reads a whole number with `serde_json::Value::as_u64`, which gives those that fit.
#[verifier::external_body]
pub(crate) fn unsigned_of_json(document: &serde_json::Value) -> (number: Option<u64>)
    ensures
        number == json_content(*document).unsigned(),
{
    document.as_u64()
}

/// Tells objects with `serde_json::Value::is_object`.
#[verifier::external_body]
pub(crate) fn is_json_object(document: &serde_json::Value) -> (object: bool)
    ensures
        object == (json_content(*document) is Object),
{
    document.is_object()
}

/// Reads a list with `serde_json::Value::as_array`.
#[verifier::external_body]
pub(crate) fn list_of_json(document: &serde_json::Value) -> (list: Option<&Vec<serde_json::Value>>)
    ensures
        match list {
            Some(items) => json_content(*document) == JsonView::List(json_contents(items@)),
            None => !(json_content(*document) is List),
        },
{
    document.as_array()
}

/// Makes the document `serde_json::Value::Null`.
#[verifier::external_body]
pub(crate) fn null_json() -> (document: serde_json::Value)
    ensures
        json_content(document) == JsonView::Null,
{
    serde_json::Value::Null
}

/// Makes a `serde_json::Value::Bool`.
#[verifier::external_body]
pub(crate) fn truth_json(truth: bool) -> (document: serde_json::Value)
    ensures
        json_content(document) == JsonView::Truth(truth),
{
    serde_json::Value::Bool(truth)
}

/// Makes a `serde_json::Value::String`.
#[verifier::external_body]
pub(crate) fn text_json(text: &str) -> (document: serde_json::Value)
    ensures
        json_content(document) == JsonView::Text(text@),
{
    serde_json::Value::String(text.to_owned())
}

/// Makes a `serde_json::Value::Array`.
#[verifier::external_body]
pub(crate) fn list_json(items: Vec<serde_json::Value>) -> (document: serde_json::Value)
    ensures
        json_content(document) == JsonView::List(json_contents(items@)),
{
    serde_json::Value::Array(items)
}

/// Makes a `serde_json::Value::Object` of a new `serde_json::Map`, which is empty.
#[verifier::external_body]
pub(crate) fn empty_object() -> (document: serde_json::Value)
    ensures
        json_content(document) == JsonView::Object(Map::empty()),
{
    serde_json::Value::Object(serde_json::Map::new())
}

/// Stores a value under a key of an object with `serde_json::Map::insert`, which replaces
/// what was stored under the key before.
#[verifier::external_body]
pub(crate) fn insert_member(document: &mut serde_json::Value, key: &str, value: serde_json::Value)
    requires
        json_content(*old(document)) is Object,
    ensures
        json_content(*final(document)) == JsonView::Object(
            json_content(*old(document))->Object_0.insert(key@, json_content(value)),
        ),
{
    document.as_object_mut().expect("an object").insert(key.to_owned(), value);
}

/// The text of a document under a key, or another where there is none.
pub(crate) fn text_member(document: &serde_json::Value, key: &str, other: &str) -> (text: String)
    ensures
        text@ == json_content(*document).member(key@).text_or(other@),
{
    match text_of_json(member(document, key)) {
        Some(text) => text.to_owned(),
        None => other.to_owned(),
    }
}

/// The text of a document under a key, if there is one.
pub(crate) fn optional_member(document: &serde_json::Value, key: &str) -> (text: Option<String>)
    ensures
        crate::text::optional_text(text) == json_content(*document).member(key@).text(),
{
    match text_of_json(member(document, key)) {
        Some(text) => Some(text.to_owned()),
        None => None,
    }
}

/// A document of an optional text; null where there is none.
pub open spec fn optional_json(text: Option<Seq<char>>) -> JsonView {
    match text {
        Some(found) => JsonView::Text(found),
        None => JsonView::Null,
    }
}

/// Makes the document of an optional text.
pub(crate) fn make_optional_json(text: &Option<String>) -> (document: serde_json::Value)
    ensures
        json_content(document) == optional_json(crate::text::optional_text(*text)),
{
    match text {
        Some(found) => text_json(found.as_str()),
        None => null_json(),
    }
}

/// Objects, made field by field.
pub(crate) struct ObjectBuilder {
    document: serde_json::Value,
}

impl ObjectBuilder {
    #[verifier::type_invariant]
    spec fn holds_object(self) -> bool {
        json_content(self.document) is Object
    }

    /// What the object holds so far.
    pub closed spec fn content(self) -> Map<Seq<char>, JsonView> {
        json_content(self.document)->Object_0
    }

    /// An empty object.
    pub(crate) fn new() -> (builder: Self)
        ensures
            builder.content() == Map::<Seq<char>, JsonView>::empty(),
    {
        ObjectBuilder { document: empty_object() }
    }

    /// Add a field, in place of one with the same key.
    pub(crate) fn with(self, key: &str, value: serde_json::Value) -> (builder: Self)
        ensures
            builder.content() == self.content().insert(key@, json_content(value)),
    {
        proof {
            use_type_invariant(&self);
        }
        let mut document = self.document;
        insert_member(&mut document, key, value);
        ObjectBuilder { document }
    }

    /// The object.
    pub(crate) fn build(self) -> (document: serde_json::Value)
        ensures
            json_content(document) == JsonView::Object(self.content()),
    {
        proof {
            use_type_invariant(&self);
        }
        self.document
    }
}

} // verus!
