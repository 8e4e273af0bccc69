//! JSON values, and how their fields are read.
use vstd::prelude::*;
use crate::text::same_text;

verus! {

/// A JSON value. Of a number it keeps what is a `u64`; the keys of an object are unique.
#[derive(Debug)]
pub enum Json {
    Null,
    Bool(bool),
    Number(Option<u64>),
    Text(String),
    Array(Vec<Json>),
    Object(Vec<(String, Json)>),
}

/// A JSON value by its contents.
pub enum JsonView {
    Null,
    Bool(bool),
    Number(Option<u64>),
    Text(Seq<char>),
    Array(Seq<JsonView>),
    Object(Seq<(Seq<char>, JsonView)>),
}

/// What a JSON value holds.
pub open spec fn json_view(json: Json) -> JsonView
    decreases json,
{
    match json {
        Json::Null => JsonView::Null,
        Json::Bool(b) => JsonView::Bool(b),
        Json::Number(n) => JsonView::Number(n),
        Json::Text(s) => JsonView::Text(s@),
        Json::Array(values) => JsonView::Array(
            Seq::new(
                values@.len(),
                |i: int|
                    if 0 <= i < values@.len() {
                        json_view(values@[i])
                    } else {
                        JsonView::Null
                    },
            ),
        ),
        Json::Object(fields) => JsonView::Object(
            Seq::new(
                fields@.len(),
                |i: int|
                    if 0 <= i < fields@.len() {
                        (fields@[i].0@, json_view(fields@[i].1))
                    } else {
                        (Seq::empty(), JsonView::Null)
                    },
            ),
        ),
    }
}

impl View for Json {
    type V = JsonView;

    open spec fn view(&self) -> JsonView {
        json_view(*self)
    }
}

/// `serde_json::Value`.
#[verifier::external_type_specification]
#[verifier::external_body]
pub struct ExValue(serde_json::Value);

/// What `serde_json::from_str` makes of a text: its value, or the words of its error.
pub uninterp spec fn json_of_text(text: Seq<char>) -> Result<JsonView, Seq<char>>;

/// A `serde_json::Value` as a value of the library, variant by variant; nothing is claimed of it.
#[verifier::external_body]
fn json_of_value(value: serde_json::Value) -> (r: Json) {
    match value {
        serde_json::Value::Null => Json::Null,
        serde_json::Value::Bool(b) => Json::Bool(b),
        serde_json::Value::Number(n) => Json::Number(n.as_u64()),
        serde_json::Value::String(s) => Json::Text(s),
        serde_json::Value::Array(values) => Json::Array(
            values.into_iter().map(json_of_value).collect(),
        ),
        serde_json::Value::Object(fields) => Json::Object(
            fields.into_iter().map(|field| (field.0, json_of_value(field.1))).collect(),
        ),
    }
}

/// Calls `serde_json::from_str`. Claimed of it is that what it makes of a text, and the words of
/// its error, depend on the text alone.
#[verifier::external_body]
pub(crate) fn parse_json(text: &str) -> (r: Result<Json, String>)
    ensures
        match r {
            Ok(json) => json_of_text(text@) == Ok::<JsonView, Seq<char>>(json@),
            Err(message) => json_of_text(text@) == Err::<JsonView, Seq<char>>(message@),
        },
{
    match serde_json::from_str(text) {
        Ok(value) => Ok(json_of_value(value)),
        Err(error) => Err(error.to_string()),
    }
}

// ---------------------------------------------------------------------------
// Fields
// ---------------------------------------------------------------------------

/// The value of the first field of that name from a position on.
pub open spec fn field_from(
    fields: Seq<(Seq<char>, JsonView)>,
    name: Seq<char>,
    at: int,
) -> Option<JsonView>
    decreases fields.len() - at,
{
    if at < 0 || at >= fields.len() {
        None
    } else if fields[at].0 == name {
        Some(fields[at].1)
    } else {
        field_from(fields, name, at + 1)
    }
}

impl JsonView {
    /// The value of a field, where this is an object that has it.
    pub open spec fn field(self, name: Seq<char>) -> Option<JsonView> {
        match self {
            JsonView::Object(fields) => field_from(fields, name, 0),
            _ => None,
        }
    }

    /// The text, where this is one.
    pub open spec fn text(self) -> Option<Seq<char>> {
        match self {
            JsonView::Text(s) => Some(s),
            _ => None,
        }
    }

    /// The number, where this is one that is a `u64`.
    pub open spec fn number(self) -> Option<u64> {
        match self {
            JsonView::Number(n) => n,
            _ => None,
        }
    }

    /// The values, where this is an array.
    pub open spec fn values(self) -> Option<Seq<JsonView>> {
        match self {
            JsonView::Array(values) => Some(values),
            _ => None,
        }
    }

    /// The text of a field, where it has one.
    pub open spec fn text_field(self, name: Seq<char>) -> Option<Seq<char>> {
        match self.field(name) {
            Some(value) => value.text(),
            None => None,
        }
    }

    /// The number of a field, where it has one that is a `u64`.
    pub open spec fn number_field(self, name: Seq<char>) -> Option<u64> {
        match self.field(name) {
            Some(value) => value.number(),
            None => None,
        }
    }

    /// The values of a field, where it has an array.
    pub open spec fn values_field(self, name: Seq<char>) -> Option<Seq<JsonView>> {
        match self.field(name) {
            Some(value) => value.values(),
            None => None,
        }
    }
}

/// What a reference to a JSON value holds.
pub open spec fn opt_view(o: Option<&Json>) -> Option<JsonView> {
    match o {
        Some(json) => Some(json@),
        None => None,
    }
}

/// What values hold.
pub open spec fn json_views(s: Seq<Json>) -> Seq<JsonView> {
    s.map_values(|json: Json| json@)
}

impl Json {
    /// The value of a field, where this is an object that has it.
    pub fn get(&self, name: &str) -> (r: Option<&Json>)
        ensures
            opt_view(r) == self@.field(name@),
    {
        match self {
            Json::Object(fields) => {
                let ghost all = self@->Object_0;
                let mut at: usize = 0;
                while at < fields.len()
                    invariant
                        at <= fields.len(),
                        all.len() == fields.len(),
                        forall|i: int|
                            0 <= i < fields.len() ==> #[trigger] all[i] == (
                                fields@[i].0@,
                                fields@[i].1@,
                            ),
                        field_from(all, name@, at as int) == field_from(all, name@, 0),
                        self@.field(name@) == field_from(all, name@, 0),
                    decreases fields.len() - at,
                {
                    assert(all[at as int] == (fields@[at as int].0@, fields@[at as int].1@));
                    if same_text(fields[at].0.as_str(), name) {
                        return Some(&fields[at].1);
                    }
                    at += 1;
                }
                None
            },
            _ => None,
        }
    }

    /// The text, where this is one.
    pub fn as_text(&self) -> (r: Option<&str>)
        ensures
            r is Some <==> self@.text() is Some,
            r matches Some(s) ==> self@.text() == Some(s@),
    {
        match self {
            Json::Text(s) => Some(s.as_str()),
            _ => None,
        }
    }

    /// The number, where this is one that is a `u64`.
    pub fn as_number(&self) -> (r: Option<u64>)
        ensures
            r == self@.number(),
    {
        match self {
            Json::Number(n) => *n,
            _ => None,
        }
    }

    /// The values, where this is an array.
    pub fn as_values(&self) -> (r: Option<&Vec<Json>>)
        ensures
            r is Some <==> self@.values() is Some,
            r matches Some(values) ==> self@.values() == Some(json_views(values@)),
    {
        match self {
            Json::Array(values) => {
                assert(self@->Array_0 =~= json_views(values@));
                Some(values)
            },
            _ => None,
        }
    }

    /// The text of a field, where it has one.
    pub fn text_field(&self, name: &str) -> (r: Option<&str>)
        ensures
            r is Some <==> self@.text_field(name@) is Some,
            r matches Some(s) ==> self@.text_field(name@) == Some(s@),
    {
        match self.get(name) {
            Some(value) => value.as_text(),
            None => None,
        }
    }

    /// The number of a field, where it has one that is a `u64`.
    pub fn number_field(&self, name: &str) -> (r: Option<u64>)
        ensures
            r == self@.number_field(name@),
    {
        match self.get(name) {
            Some(value) => value.as_number(),
            None => None,
        }
    }

    /// The values of a field, where it has an array.
    pub fn values_field(&self, name: &str) -> (r: Option<&Vec<Json>>)
        ensures
            r is Some <==> self@.values_field(name@) is Some,
            r matches Some(values) ==> self@.values_field(name@) == Some(json_views(values@)),
    {
        match self.get(name) {
            Some(value) => value.as_values(),
            None => None,
        }
    }
}

} // verus!
