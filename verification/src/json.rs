//! Operations on JSON values.

use vstd::prelude::*;

pub use crate::json_model::{
    group_json_view, items_view, members_view, Json, JsonNumber, JsonView, Member, Members, NumberView,
};
use crate::text::same_text;

verus! {

broadcast use group_json_view;

/// The position of the first member named `name`.
pub open spec fn position_of(members: Members, name: Seq<char>) -> Option<int>
    decreases members.len(),
{
    if members.len() == 0 {
        None
    } else {
        match position_of(members.drop_last(), name) {
            Some(i) => Some(i),
            None => if members.last().0 == name {
                Some(members.len() - 1)
            } else {
                None
            },
        }
    }
}

/// What `position_of` finds: the first member of that name, if there is one.
pub proof fn lemma_position_of(members: Members, name: Seq<char>)
    ensures
        match position_of(members, name) {
            Some(i) => {
                &&& 0 <= i < members.len()
                &&& members[i].0 == name
                &&& forall|j: int| 0 <= j < i ==> (#[trigger] members[j]).0 != name
            },
            None => forall|j: int| 0 <= j < members.len() ==> (#[trigger] members[j]).0 != name,
        },
    decreases members.len(),
{
    if members.len() > 0 {
        lemma_position_of(members.drop_last(), name);
        let front = members.drop_last();
        match position_of(front, name) {
            Some(i) => {
                assert(members[i] == front[i]);
                assert forall|j: int| 0 <= j < i implies (#[trigger] members[j]).0 != name by {
                    assert(members[j] == front[j]);
                }
            },
            None => {
                assert forall|j: int| 0 <= j < front.len() implies (#[trigger] members[j]).0
                    != name by {
                    assert(members[j] == front[j]);
                }
            },
        }
    }
}

/// Whether the first member of that name stands at `i`.
pub proof fn lemma_position_is(members: Members, name: Seq<char>, i: int)
    requires
        0 <= i < members.len(),
        members[i].0 == name,
        forall|j: int| 0 <= j < i ==> (#[trigger] members[j]).0 != name,
    ensures
        position_of(members, name) == Some(i),
{
    lemma_position_of(members, name);
    match position_of(members, name) {
        Some(k) => {
            if k < i {
                assert(members[k].0 != name);
            }
        },
        None => {},
    }
}

/// No member has that name.
pub proof fn lemma_position_absent(members: Members, name: Seq<char>)
    requires
        forall|j: int| 0 <= j < members.len() ==> (#[trigger] members[j]).0 != name,
    ensures
        position_of(members, name) is None,
{
    lemma_position_of(members, name);
}

/// The members after `name` was given the value `value`: in place where the name
/// is there, at the end where it is not.
pub open spec fn with_member(members: Members, name: Seq<char>, value: JsonView) -> Members {
    match position_of(members, name) {
        Some(i) => members.update(i, (name, value)),
        None => members.push((name, value)),
    }
}

/// The members after `name` was taken out: the last member takes its place.
pub open spec fn without_member(members: Members, name: Seq<char>) -> Members {
    match position_of(members, name) {
        Some(i) => if i == members.len() - 1 {
            members.drop_last()
        } else {
            members.update(i, members.last()).drop_last()
        },
        None => members,
    }
}

/// The value of the member `name`, where there is one.
pub open spec fn member(members: Members, name: Seq<char>) -> Option<JsonView> {
    match position_of(members, name) {
        Some(i) => Some(members[i].1),
        None => None,
    }
}

/// A member that was given a value has it.
pub proof fn lemma_member_with(members: Members, name: Seq<char>, value: JsonView)
    ensures
        member(with_member(members, name, value), name) == Some(value),
{
    lemma_position_of(members, name);
    let after = with_member(members, name, value);
    let at = match position_of(members, name) {
        Some(i) => i,
        None => members.len() as int,
    };
    assert forall|j: int| 0 <= j < at implies (#[trigger] after[j]).0 != name by {
        assert(members[j].0 != name);
    }
    lemma_position_is(after, name, at);
}

/// Giving one member a value leaves the others.
pub proof fn lemma_member_with_other(
    members: Members,
    name: Seq<char>,
    value: JsonView,
    other: Seq<char>,
)
    requires
        other != name,
    ensures
        member(with_member(members, name, value), other) == member(members, other),
{
    lemma_position_of(members, name);
    lemma_position_of(members, other);
    let after = with_member(members, name, value);
    match position_of(members, other) {
        Some(at) => {
            assert forall|j: int| 0 <= j < at implies (#[trigger] after[j]).0 != other by {
                assert(members[j].0 != other);
            }
            assert(after[at] == members[at]);
            lemma_position_is(after, other, at);
        },
        None => {
            assert forall|j: int| 0 <= j < after.len() implies (#[trigger] after[j]).0 != other by {
                if j < members.len() {
                    assert(members[j].0 != other);
                }
            }
            lemma_position_absent(after, other);
        },
    }
}

/// An object that was given a member has it.
pub proof fn lemma_get_with(object: JsonView, name: Seq<char>, value: JsonView)
    requires
        object is Object,
    ensures
        object.with(name, value).get(name) == Some(value),
{
    lemma_member_with(object->Object_0, name, value);
}

/// Giving an object one member leaves the others.
pub proof fn lemma_get_with_other(
    object: JsonView,
    name: Seq<char>,
    value: JsonView,
    other: Seq<char>,
)
    requires
        other != name,
    ensures
        object.with(name, value).get(other) == object.get(other),
{
    if let JsonView::Object(members) = object {
        lemma_member_with_other(members, name, value, other);
    }
}

/// Whether no two members have one name.
pub open spec fn distinct_names(members: Members) -> bool {
    forall|i: int, j: int|
        0 <= i < j < members.len() ==> (#[trigger] members[i]).0 != (#[trigger] members[j]).0
}

/// Giving a member a value keeps names distinct.
pub proof fn lemma_with_stays_distinct(members: Members, name: Seq<char>, value: JsonView)
    requires
        distinct_names(members),
    ensures
        distinct_names(with_member(members, name, value)),
{
    lemma_position_of(members, name);
}

/// Taking a member out leaves the others.
pub proof fn lemma_member_without_other(members: Members, name: Seq<char>, other: Seq<char>)
    requires
        distinct_names(members),
        other != name,
    ensures
        member(without_member(members, name), other) == member(members, other),
{
    lemma_position_of(members, name);
    lemma_position_of(members, other);
    let after = without_member(members, name);
    match position_of(members, name) {
        None => {},
        Some(gone) => {
            let last = members.len() - 1;
            match position_of(members, other) {
                Some(at) => {
                    let now = if at == last {
                        gone
                    } else {
                        at
                    };
                    assert(after[now] == members[at]);
                    assert forall|j: int| 0 <= j < now implies (#[trigger] after[j]).0 != other by {
                        if j == gone {
                            assert(after[j] == members[last]);
                            assert(members[last].0 != members[at].0);
                        } else {
                            assert(after[j] == members[j]);
                        }
                    }
                    lemma_position_is(after, other, now);
                },
                None => {
                    assert forall|j: int| 0 <= j < after.len() implies (#[trigger] after[j]).0
                        != other by {
                        if j == gone {
                            assert(after[j] == members[last]);
                        } else {
                            assert(after[j] == members[j]);
                        }
                    }
                    lemma_position_absent(after, other);
                },
            }
        },
    }
}

impl JsonView {
    /// The value of the member `name`, where this is an object that has one.
    pub open spec fn get(self, name: Seq<char>) -> Option<JsonView> {
        match self {
            JsonView::Object(members) => member(members, name),
            _ => None,
        }
    }

    /// The text, where this is a string.
    pub open spec fn text(self) -> Option<Seq<char>> {
        match self {
            JsonView::String(s) => Some(s),
            _ => None,
        }
    }

    /// The number, where this is a non-negative integer of 64 bits.
    pub open spec fn unsigned(self) -> Option<u64> {
        match self {
            JsonView::Number(NumberView::Unsigned(n)) => Some(n),
            _ => None,
        }
    }

    /// The boolean, where this is one.
    pub open spec fn boolean(self) -> Option<bool> {
        match self {
            JsonView::Bool(b) => Some(b),
            _ => None,
        }
    }

    /// The items, where this is an array.
    pub open spec fn items(self) -> Option<Seq<JsonView>> {
        match self {
            JsonView::Array(items) => Some(items),
            _ => None,
        }
    }

    /// The text of the member `name`.
    pub open spec fn get_text(self, name: Seq<char>) -> Option<Seq<char>> {
        match self.get(name) {
            Some(value) => value.text(),
            None => None,
        }
    }

    /// The non-negative integer of the member `name`.
    pub open spec fn get_unsigned(self, name: Seq<char>) -> Option<u64> {
        match self.get(name) {
            Some(value) => value.unsigned(),
            None => None,
        }
    }

    /// This value with the member `name` set, where it is an object.
    pub open spec fn with(self, name: Seq<char>, value: JsonView) -> JsonView {
        match self {
            JsonView::Object(members) => JsonView::Object(with_member(members, name, value)),
            _ => self,
        }
    }

    /// This value without the member `name`.
    pub open spec fn without(self, name: Seq<char>) -> JsonView {
        match self {
            JsonView::Object(members) => JsonView::Object(without_member(members, name)),
            _ => self,
        }
    }
}

/// Whether no object inside `value` has two members of one name, and each
/// negative integer is below zero.
pub open spec fn well_formed(value: JsonView) -> bool
    decreases value,
{
    match value {
        JsonView::Number(NumberView::Negative(n)) => n < 0,
        JsonView::Array(items) => forall|i: int|
            0 <= i < items.len() ==> well_formed(#[trigger] items[i]),
        JsonView::Object(members) => {
            &&& distinct_names(members)
            &&& forall|i: int| 0 <= i < members.len() ==> well_formed((#[trigger] members[i]).1)
        },
        _ => true,
    }
}

/// Where the first member named `name` stands.
pub fn find_member(members: &Vec<Member>, name: &str) -> (found: Option<usize>)
    ensures
        match found {
            Some(i) => position_of(members_view(members@), name@) == Some(i as int),
            None => position_of(members_view(members@), name@) is None,
        },
        found is Some ==> found->0 < members.len(),
{
    let ghost view = members_view(members@);
    let mut i: usize = 0;
    while i < members.len()
        invariant
            view == members_view(members@),
            i <= members.len(),
            forall|j: int| 0 <= j < i ==> (#[trigger] view[j]).0 != name@,
        decreases members.len() - i,
    {
        if same_text(members[i].name.as_str(), name) {
            proof {
                lemma_position_is(view, name@, i as int);
            }
            return Some(i);
        }
        i = i + 1;
    }
    proof {
        lemma_position_absent(view, name@);
    }
    None
}

/// Sets the member `name` to `value`: in place where it is there, at the end
/// where it is not.
pub fn set_member(members: &mut Vec<Member>, name: &str, value: Json)
    ensures
        members_view(final(members)@) == with_member(members_view(old(members)@), name@, value@),
{
    match find_member(members, name) {
        Some(i) => {
            members.set(i, Member { name: name.to_owned(), value });
        },
        None => {
            members.push(Member { name: name.to_owned(), value });
        },
    }
    proof {
        assert(members_view(members@) =~= with_member(
            members_view(old(members)@),
            name@,
            value@,
        ));
    }
}

/// Takes the member `name` out, where it is there; the last member takes its
/// place.
pub fn take_member(members: &mut Vec<Member>, name: &str) -> (taken: Option<Json>)
    ensures
        members_view(final(members)@) == without_member(members_view(old(members)@), name@),
        match taken {
            Some(value) => member(members_view(old(members)@), name@) == Some(value@),
            None => member(members_view(old(members)@), name@) is None,
        },
{
    match find_member(members, name) {
        Some(i) => {
            let removed = members.swap_remove(i);
            proof {
                assert(members_view(members@) =~= without_member(
                    members_view(old(members)@),
                    name@,
                ));
            }
            Some(removed.value)
        },
        None => None,
    }
}

/// Appends a member that no member is named like yet.
pub fn push_member(members: &mut Vec<Member>, name: &str, value: Json)
    ensures
        members_view(final(members)@) == members_view(old(members)@).push((name@, value@)),
{
    members.push(Member { name: name.to_owned(), value });
    proof {
        assert(members_view(members@) =~= members_view(old(members)@).push((name@, value@)));
    }
}

/// The model of no members.
pub proof fn lemma_no_members()
    ensures
        members_view(Seq::empty()) == Seq::<(Seq<char>, JsonView)>::empty(),
{
    assert(members_view(Seq::empty()) =~= Seq::<(Seq<char>, JsonView)>::empty());
}

/// An empty list of members.
pub fn no_members() -> (members: Vec<Member>)
    ensures
        members_view(members@) == Seq::<(Seq<char>, JsonView)>::empty(),
{
    proof {
        lemma_no_members();
    }
    Vec::new()
}

/// Appends `item` to `items`.
pub fn push_item(items: &mut Vec<Json>, item: Json)
    ensures
        items_view(final(items)@) == items_view(old(items)@).push(item@),
{
    items.push(item);
    proof {
        assert(items_view(items@) =~= items_view(old(items)@).push(item@));
    }
}

/// A string value.
pub fn string(text: &str) -> (value: Json)
    ensures
        value@ == JsonView::String(text@),
{
    Json::String(text.to_owned())
}

/// A number value.
pub fn unsigned(n: u64) -> (value: Json)
    ensures
        value@ == JsonView::Number(NumberView::Unsigned(n)),
{
    Json::Number(JsonNumber::Unsigned(n))
}

/// A copy of `items`.
pub fn clone_items(items: &Vec<Json>) -> (copy: Vec<Json>)
    ensures
        items_view(copy@) == items_view(items@),
    decreases items,
{
    let mut copy: Vec<Json> = Vec::new();
    let mut i: usize = 0;
    while i < items.len()
        invariant
            i <= items.len(),
            copy.len() == i,
            forall|j: int| 0 <= j < i ==> (#[trigger] copy@[j])@ == items@[j]@,
        decreases items.len() - i,
    {
        copy.push(items[i].clone());
        i = i + 1;
    }
    proof {
        assert(items_view(copy@) =~= items_view(items@));
    }
    copy
}

/// A copy of `members`.
pub fn clone_members(members: &Vec<Member>) -> (copy: Vec<Member>)
    ensures
        members_view(copy@) == members_view(members@),
    decreases members,
{
    let mut copy: Vec<Member> = Vec::new();
    let mut i: usize = 0;
    while i < members.len()
        invariant
            i <= members.len(),
            copy.len() == i,
            forall|j: int|
                0 <= j < i ==> (#[trigger] copy@[j]).value@ == members@[j].value@ && copy@[j].name@
                    == members@[j].name@,
        decreases members.len() - i,
    {
        copy.push(Member { name: members[i].name.clone(), value: members[i].value.clone() });
        i = i + 1;
    }
    proof {
        assert(members_view(copy@) =~= members_view(members@));
    }
    copy
}

impl Clone for JsonNumber {
    fn clone(&self) -> (copy: Self)
        ensures
            copy@ == self@,
    {
        match self {
            JsonNumber::Unsigned(n) => JsonNumber::Unsigned(*n),
            JsonNumber::Negative(n) => JsonNumber::Negative(*n),
            JsonNumber::Float(text) => JsonNumber::Float(text.clone()),
        }
    }
}

impl Clone for Json {
    fn clone(&self) -> (copy: Self)
        ensures
            copy@ == self@,
        decreases self,
    {
        match self {
            Json::Null => Json::Null,
            Json::Bool(b) => Json::Bool(*b),
            Json::Number(n) => Json::Number(n.clone()),
            Json::String(s) => Json::String(s.clone()),
            Json::Array(items) => Json::Array(clone_items(items)),
            Json::Object(members) => Json::Object(clone_members(members)),
        }
    }
}

impl Json {
    /// The value of the member `name`, where this is an object that has one.
    pub fn get(&self, name: &str) -> (found: Option<&Json>)
        ensures
            match found {
                Some(value) => self@.get(name@) == Some(value@),
                None => self@.get(name@) is None,
            },
    {
        match self {
            Json::Object(members) => match find_member(members, name) {
                Some(i) => Some(&members[i].value),
                None => None,
            },
            _ => None,
        }
    }

    /// The text, where this is a string.
    pub fn as_str(&self) -> (text: Option<&str>)
        ensures
            match text {
                Some(s) => self@.text() == Some(s@),
                None => self@.text() is None,
            },
    {
        match self {
            Json::String(s) => Some(s.as_str()),
            _ => None,
        }
    }

    /// The number, where this is a non-negative integer of 64 bits.
    pub fn as_u64(&self) -> (number: Option<u64>)
        ensures
            number == self@.unsigned(),
    {
        match self {
            Json::Number(JsonNumber::Unsigned(n)) => Some(*n),
            _ => None,
        }
    }

    /// The boolean, where this is one.
    pub fn as_bool(&self) -> (boolean: Option<bool>)
        ensures
            boolean == self@.boolean(),
    {
        match self {
            Json::Bool(b) => Some(*b),
            _ => None,
        }
    }

    /// The items, where this is an array.
    pub fn as_array(&self) -> (items: Option<&Vec<Json>>)
        ensures
            match items {
                Some(items) => self@.items() == Some(items_view(items@)),
                None => self@.items() is None,
            },
    {
        match self {
            Json::Array(items) => Some(items),
            _ => None,
        }
    }

    /// Whether this is `null`.
    pub fn is_null(&self) -> (null: bool)
        ensures
            null == (self@ == JsonView::Null),
    {
        match self {
            Json::Null => true,
            _ => false,
        }
    }

    /// Whether this is an object.
    pub fn is_object(&self) -> (object: bool)
        ensures
            object == (self@ is Object),
    {
        match self {
            Json::Object(_) => true,
            _ => false,
        }
    }

    /// The text of the member `name`.
    pub fn get_str(&self, name: &str) -> (text: Option<&str>)
        ensures
            match text {
                Some(s) => self@.get_text(name@) == Some(s@),
                None => self@.get_text(name@) is None,
            },
    {
        match self.get(name) {
            Some(value) => value.as_str(),
            None => None,
        }
    }

    /// The non-negative integer of the member `name`.
    pub fn get_u64(&self, name: &str) -> (number: Option<u64>)
        ensures
            number == self@.get_unsigned(name@),
    {
        match self.get(name) {
            Some(value) => value.as_u64(),
            None => None,
        }
    }

    /// Sets the member `name`, where this is an object.
    pub fn set(&mut self, name: &str, value: Json)
        ensures
            final(self)@ == old(self)@.with(name@, value@),
    {
        match self {
            Json::Object(members) => set_member(members, name, value),
            _ => {},
        }
    }

    /// Takes the member `name` out, where this is an object that has one.
    pub fn take_member(&mut self, name: &str) -> (taken: Option<Json>)
        ensures
            final(self)@ == old(self)@.without(name@),
            match taken {
                Some(value) => old(self)@.get(name@) == Some(value@),
                None => old(self)@.get(name@) is None,
            },
    {
        match self {
            Json::Object(members) => take_member(members, name),
            _ => None,
        }
    }

    /// Takes the whole value out and leaves `null`.
    pub fn take(&mut self) -> (value: Json)
        ensures
            value@ == old(self)@,
            final(self)@ == JsonView::Null,
    {
        let mut value = Json::Null;
        std::mem::swap(&mut value, self);
        value
    }
}

} // verus!
