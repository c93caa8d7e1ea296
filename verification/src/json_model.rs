//! JSON values and their mathematical model.
//!
//! An object keeps its members in insertion order. A number that is no integer
//! of 64 bits is held as the text that it is printed as.

use vstd::prelude::*;

verus! {

/// A JSON number.
pub enum JsonNumber {
    /// A non-negative integer.
    Unsigned(u64),
    /// A negative integer.
    Negative(i64),
    /// Any other number, as it is printed.
    Float(String),
}

/// A JSON value.
pub enum Json {
    /// `null`.
    Null,
    /// `true` or `false`.
    Bool(bool),
    /// A number.
    Number(JsonNumber),
    /// A string.
    String(String),
    /// An array.
    Array(Vec<Json>),
    /// An object, its members in insertion order.
    Object(Vec<Member>),
}

/// One member of a JSON object.
pub struct Member {
    /// The member's name.
    pub name: String,
    /// The member's value.
    pub value: Json,
}

/// The model of a [`JsonNumber`].
pub enum NumberView {
    /// A non-negative integer.
    Unsigned(u64),
    /// A negative integer.
    Negative(i64),
    /// Any other number, as it is printed.
    Float(Seq<char>),
}

/// The model of a [`Json`].
pub enum JsonView {
    /// `null`.
    Null,
    /// `true` or `false`.
    Bool(bool),
    /// A number.
    Number(NumberView),
    /// A string.
    String(Seq<char>),
    /// An array.
    Array(Seq<JsonView>),
    /// An object, its members in insertion order.
    Object(Seq<(Seq<char>, JsonView)>),
}

/// The members of a JSON object: names with their values, in order.
pub type Members = Seq<(Seq<char>, JsonView)>;

impl View for JsonNumber {
    type V = NumberView;

    open spec fn view(&self) -> NumberView {
        match *self {
            JsonNumber::Unsigned(n) => NumberView::Unsigned(n),
            JsonNumber::Negative(n) => NumberView::Negative(n),
            JsonNumber::Float(text) => NumberView::Float(text@),
        }
    }
}

/// The model of `value`.
pub closed spec fn json_view(value: Json) -> JsonView
    decreases value,
{
    match value {
        Json::Null => JsonView::Null,
        Json::Bool(b) => JsonView::Bool(b),
        Json::Number(n) => JsonView::Number(n@),
        Json::String(s) => JsonView::String(s@),
        Json::Array(items) => JsonView::Array(
            Seq::new(
                items@.len(),
                |i: int|
                    if 0 <= i < items@.len() {
                        json_view(items@[i])
                    } else {
                        JsonView::Null
                    },
            ),
        ),
        Json::Object(members) => JsonView::Object(
            Seq::new(
                members@.len(),
                |i: int|
                    if 0 <= i < members@.len() {
                        (members@[i].name@, json_view(members@[i].value))
                    } else {
                        (Seq::empty(), JsonView::Null)
                    },
            ),
        ),
    }
}

impl View for Json {
    type V = JsonView;

    open spec fn view(&self) -> JsonView {
        json_view(*self)
    }
}

/// The models of `items`, in order.
pub open spec fn items_view(items: Seq<Json>) -> Seq<JsonView> {
    Seq::new(items.len(), |i: int| items[i]@)
}

/// The model of an object that holds `members`.
pub open spec fn members_view(members: Seq<Member>) -> Members {
    Seq::new(members.len(), |i: int| (members[i].name@, members[i].value@))
}

/// What the model of each shape of value is.
pub broadcast proof fn view_of(value: Json)
    ensures
        #[trigger] json_view(value) == (match value {
            Json::Null => JsonView::Null,
            Json::Bool(b) => JsonView::Bool(b),
            Json::Number(n) => JsonView::Number(n@),
            Json::String(s) => JsonView::String(s@),
            Json::Array(items) => JsonView::Array(items_view(items@)),
            Json::Object(members) => JsonView::Object(members_view(members@)),
        }),
{
    match value {
        Json::Array(items) => {
            assert(json_view(value)->Array_0 =~= items_view(items@));
        },
        Json::Object(members) => {
            assert(json_view(value)->Object_0 =~= members_view(members@));
        },
        _ => {},
    }
}

/// The model of values, by shape.
pub broadcast group group_json_view {
    view_of,
}

} // verus!
