//! The record of a completed response.

use vstd::prelude::*;

use crate::json::{
    clone_items, items_view, lemma_position_is, no_members, push_item, push_member, string, Json,
    JsonNumber, JsonView, NumberView,
};
use crate::state_owner::{OwnerView, StateOwner};

verus! {

broadcast use crate::json_model::group_json_view;

/// One stored response.
pub struct ResponseRecord {
    /// The response's id.
    pub id: String,
    /// Whose response it is.
    pub owner: StateOwner,
    /// When it was created.
    pub created_at: i64,
    /// The model that made it.
    pub model: String,
    /// The response.
    pub response_object: Json,
    /// The input of the request.
    pub input: Json,
    /// The history that a follow-up request begins with.
    pub messages: Json,
}

/// The model of a [`ResponseRecord`].
#[verifier::ext_equal]
pub struct RecordView {
    /// The response's id.
    pub id: Seq<char>,
    /// Whose response it is.
    pub owner: OwnerView,
    /// When it was created.
    pub created_at: i64,
    /// The model that made it.
    pub model: Seq<char>,
    /// The response.
    pub response_object: JsonView,
    /// The input of the request.
    pub input: JsonView,
    /// The history that a follow-up request begins with.
    pub messages: JsonView,
}

impl View for ResponseRecord {
    type V = RecordView;

    open spec fn view(&self) -> RecordView {
        RecordView {
            id: self.id@,
            owner: self.owner@,
            created_at: self.created_at,
            model: self.model@,
            response_object: self.response_object@,
            input: self.input@,
            messages: self.messages@,
        }
    }
}

/// The integer of a value, where it is one of 64 bits with a sign.
pub open spec fn signed_of(value: JsonView) -> Option<i64> {
    match value {
        JsonView::Number(NumberView::Unsigned(n)) => if n <= i64::MAX {
            Some(n as i64)
        } else {
            None
        },
        JsonView::Number(NumberView::Negative(n)) => Some(n),
        _ => None,
    }
}

/// The integer of a member.
pub open spec fn signed_member(value: JsonView, name: Seq<char>) -> Option<i64> {
    match value.get(name) {
        Some(held) => signed_of(held),
        None => None,
    }
}

/// Reads the integer of a member.
fn read_signed(value: &Json, name: &str) -> (number: Option<i64>)
    ensures
        number == signed_member(value@, name@),
{
    match value.get(name) {
        Some(Json::Number(JsonNumber::Unsigned(n))) => if *n <= i64::MAX as u64 {
            Some(*n as i64)
        } else {
            None
        },
        Some(Json::Number(JsonNumber::Negative(n))) => Some(*n),
        _ => None,
    }
}

/// A text as a user message.
pub open spec fn user_message(text: Seq<char>) -> JsonView {
    JsonView::Object(
        Seq::empty().push(("type"@, JsonView::String("message"@))).push(
            ("role"@, JsonView::String("user"@)),
        ).push(("content"@, JsonView::String(text))),
    )
}

/// The items of a stored input: its list, its text as a user message, any other
/// value as it is.
pub open spec fn stored_items(input: JsonView) -> Seq<JsonView> {
    match input {
        JsonView::Null => Seq::empty(),
        JsonView::Array(items) => items,
        JsonView::String(text) => Seq::empty().push(user_message(text)),
        other => Seq::empty().push(other),
    }
}

/// Reads the items of a stored input.
pub fn stored_input_items(input: &Json) -> (items: Vec<Json>)
    ensures
        items_view(items@) == stored_items(input@),
{
    let mut items: Vec<Json> = Vec::new();
    assert(items_view(items@) =~= Seq::empty());
    match input {
        Json::Null => {},
        Json::Array(held) => {
            items = clone_items(held);
        },
        Json::String(text) => {
            let mut message = no_members();
            push_member(&mut message, "type", string("message"));
            push_member(&mut message, "role", string("user"));
            push_member(&mut message, "content", string(text.as_str()));
            push_item(&mut items, Json::Object(message));
        },
        other => push_item(&mut items, other.clone()),
    }
    items
}

/// The items of a response's output: its list, any other value but `null` as it
/// is.
pub open spec fn output_items(output: Option<JsonView>) -> Seq<JsonView> {
    match output {
        Some(JsonView::Array(items)) => items,
        Some(JsonView::Null) => Seq::empty(),
        Some(other) => Seq::empty().push(other),
        None => Seq::empty(),
    }
}

/// The stored history: the input, then the output.
pub open spec fn stored_messages(input: JsonView, output: Option<JsonView>) -> JsonView {
    JsonView::Array(stored_items(input) + output_items(output))
}

/// Appends copies of items.
fn extend_items(items: &mut Vec<Json>, more: &Vec<Json>)
    ensures
        items_view(final(items)@) == items_view(old(items)@) + items_view(more@),
{
    let ghost start = items_view(items@);
    let ghost view = items_view(more@);
    let mut i: usize = 0;
    assert(start + view.take(0) =~= start);
    while i < more.len()
        invariant
            view == items_view(more@),
            i <= more.len(),
            items_view(items@) == start + view.take(i as int),
        decreases more.len() - i,
    {
        push_item(items, more[i].clone());
        assert((start + view.take(i as int)).push(view[i as int]) =~= start + view.take(i + 1));
        i = i + 1;
    }
    assert(view.take(i as int) =~= view);
}

/// Builds the stored history from a request's input and a response's output.
pub fn assemble_stored_messages(input: &Json, output: Option<&Json>) -> (messages: Json)
    ensures
        messages@ == stored_messages(
            input@,
            match output {
                Some(output) => Some(output@),
                None => None,
            },
        ),
{
    let mut messages = stored_input_items(input);
    let ghost start = items_view(messages@);
    assert(start + Seq::<JsonView>::empty() =~= start);
    match output {
        Some(Json::Array(items)) => extend_items(&mut messages, items),
        Some(Json::Null) => {},
        Some(other) => {
            push_item(&mut messages, other.clone());
            assert(start.push(other@) =~= start + Seq::<JsonView>::empty().push(other@));
        },
        None => {},
    }
    Json::Array(messages)
}

/// The input of a record: the request's, else the response's, else `null`.
pub open spec fn recorded_input(response: JsonView, request_input: Option<JsonView>) -> JsonView {
    match request_input {
        Some(input) => input,
        None => match response.get("input"@) {
            Some(input) => input,
            None => JsonView::Null,
        },
    }
}

/// The record of a response; `None` where it is incomplete: without an id, a
/// creation time or a model.
pub open spec fn record_of(
    response: JsonView,
    owner: OwnerView,
    request_input: Option<JsonView>,
    state_messages: Option<Seq<JsonView>>,
) -> Option<RecordView> {
    match (
        response.get_text("id"@),
        signed_member(response, "created_at"@),
        response.get_text("model"@),
    ) {
        (Some(id), Some(created_at), Some(model)) => {
            let input = recorded_input(response, request_input);
            let history = match state_messages {
                Some(messages) => JsonView::Array(messages),
                None => input,
            };
            Some(
                RecordView {
                    id,
                    owner,
                    created_at,
                    model,
                    response_object: response,
                    input,
                    messages: stored_messages(history, response.get("output"@)),
                },
            )
        },
        _ => None,
    }
}

/// Record assembly of the Responses API.
pub struct ResponsesService {}

impl ResponsesService {
    /// Assembles a record from a completed response.
    ///
    /// Returns `None` when the response is `null` (an incomplete stream) or is
    /// missing a required field. `request_input` is the original request's input;
    /// `state_messages` is the accumulated history where there is one.
    pub fn build_record(
        response_object: Json,
        owner: StateOwner,
        request_input: Option<Json>,
        state_messages: Option<Vec<Json>>,
    ) -> (record: Option<ResponseRecord>)
        ensures
            ({
                let expected = record_of(
                    response_object@,
                    owner@,
                    match request_input {
                        Some(input) => Some(input@),
                        None => None,
                    },
                    match state_messages {
                        Some(messages) => Some(items_view(messages@)),
                        None => None,
                    },
                );
                match record {
                    Some(record) => expected == Some(record@),
                    None => expected is None,
                }
            }),
    {
        let id = match response_object.get_str("id") {
            Some(id) => id.to_owned(),
            None => return None,
        };
        let created_at = match read_signed(&response_object, "created_at") {
            Some(created_at) => created_at,
            None => return None,
        };
        let model = match response_object.get_str("model") {
            Some(model) => model.to_owned(),
            None => return None,
        };
        let input = match request_input {
            Some(input) => input,
            None => match response_object.get("input") {
                Some(input) => input.clone(),
                None => Json::Null,
            },
        };
        let messages = match state_messages {
            Some(messages) => assemble_stored_messages(
                &Json::Array(messages),
                response_object.get("output"),
            ),
            None => assemble_stored_messages(&input, response_object.get("output")),
        };
        let record = ResponseRecord {
            id,
            owner,
            created_at,
            model,
            response_object,
            input,
            messages,
        };
        Some(record)
    }
}

/// A stored history begins with the accumulated history where there is one, and
/// nothing of it is dropped or reordered.
pub proof fn lemma_history_is_kept(
    response: JsonView,
    owner: OwnerView,
    request_input: Option<JsonView>,
    messages: Seq<JsonView>,
)
    requires
        record_of(response, owner, request_input, Some(messages)) is Some,
    ensures
        ({
            let stored = record_of(response, owner, request_input, Some(messages))->0.messages;
            &&& stored is Array
            &&& stored->Array_0.len() >= messages.len()
            &&& stored->Array_0.take(messages.len() as int) == messages
        }),
{
    let all = messages + output_items(response.get("output"@));
    assert(all.take(messages.len() as int) =~= messages);
}

/// A record is made exactly of responses with an id, a creation time that is an
/// integer of 64 bits, and a model. It carries all three, the owner and the whole
/// response, and the input that was asked with: the request's, or else the one that
/// the response repeats.
pub proof fn lemma_record_tells_the_response(
    response: JsonView,
    owner: OwnerView,
    request_input: Option<JsonView>,
    state_messages: Option<Seq<JsonView>>,
)
    ensures
        ({
            let record = record_of(response, owner, request_input, state_messages);
            let whole = match response.get("created_at"@) {
                Some(JsonView::Number(NumberView::Unsigned(n))) => n <= i64::MAX,
                Some(JsonView::Number(NumberView::Negative(_))) => true,
                _ => false,
            };
            &&& record is Some <==> {
                &&& response.get("id"@) is Some && response.get("id"@)->0 is String
                &&& response.get("model"@) is Some && response.get("model"@)->0 is String
                &&& whole
            }
            &&& record is Some ==> {
                let record = record->0;
                &&& response.get("id"@) == Some(JsonView::String(record.id))
                &&& response.get("model"@) == Some(JsonView::String(record.model))
                &&& match response.get("created_at"@)->0 {
                    JsonView::Number(NumberView::Unsigned(n)) => record.created_at == n,
                    JsonView::Number(NumberView::Negative(n)) => record.created_at == n,
                    _ => false,
                }
                &&& record.owner == owner
                &&& record.response_object == response
                &&& request_input is Some ==> record.input == request_input->0
                &&& request_input is None && response.get("input"@) is Some ==> record.input
                    == response.get("input"@)->0
                &&& request_input is None && response.get("input"@) is None ==> record.input
                    == JsonView::Null
            }
        }),
{
}

/// Whether `items` are what a conversation turn was begun with: a list item by
/// item, a text as one message of the user, nothing for `null`, and any other value
/// alone.
pub open spec fn begins_turn(input: JsonView, items: Seq<JsonView>) -> bool {
    match input {
        JsonView::Array(given) => items == given,
        JsonView::String(text) => {
            &&& items.len() == 1
            &&& items[0].get("type"@) == Some(JsonView::String("message"@))
            &&& items[0].get("role"@) == Some(JsonView::String("user"@))
            &&& items[0].get("content"@) == Some(JsonView::String(text))
        },
        JsonView::Null => items.len() == 0,
        other => items.len() == 1 && items[0] == other,
    }
}

/// The items that a text input is stored as.
proof fn lemma_stored_items(input: JsonView)
    ensures
        begins_turn(input, stored_items(input)),
{
    if let JsonView::String(text) = input {
        reveal_strlit("type");
        reveal_strlit("role");
        reveal_strlit("content");
        assert("type"@.len() == 4 && "role"@.len() == 4 && "content"@.len() == 7);
        assert("type"@[0] == 't' && "role"@[0] == 'r');
        let message = user_message(text);
        let members = message->Object_0;
        lemma_position_is(members, "type"@, 0);
        lemma_position_is(members, "role"@, 1);
        lemma_position_is(members, "content"@, 2);
    }
}

/// The stored history of a response loses nothing: it is the accumulated history,
/// or without one what the turn was begun with, and behind that the whole output of
/// the response, item by item and in order. An output that is no list counts as one
/// item.
pub proof fn lemma_history_ends_with_output(
    response: JsonView,
    owner: OwnerView,
    request_input: Option<JsonView>,
    state_messages: Option<Seq<JsonView>>,
)
    requires
        record_of(response, owner, request_input, state_messages) is Some,
    ensures
        ({
            let record = record_of(response, owner, request_input, state_messages)->0;
            let output = response.get("output"@);
            let added: nat = match output {
                Some(JsonView::Array(items)) => items.len(),
                Some(JsonView::Null) => 0,
                Some(_) => 1,
                None => 0,
            };
            &&& record.messages is Array
            &&& record.messages->Array_0.len() >= added
            &&& {
                let all = record.messages->Array_0;
                let begun = all.take(all.len() - added);
                &&& match state_messages {
                    Some(history) => begun == history,
                    None => begins_turn(record.input, begun),
                }
                &&& match output {
                    Some(JsonView::Array(items)) => forall|i: int|
                        0 <= i < items.len() ==> all[begun.len() + i] == #[trigger] items[i],
                    Some(JsonView::Null) => true,
                    Some(other) => all.last() == other,
                    None => true,
                }
            }
        }),
{
    let record = record_of(response, owner, request_input, state_messages)->0;
    let history = match state_messages {
        Some(messages) => JsonView::Array(messages),
        None => record.input,
    };
    lemma_stored_items(history);
    let first = stored_items(history);
    let second = output_items(response.get("output"@));
    assert((first + second).take(first.len() as int) =~= first);
}

/// A history that is assembled is what the turn was begun with and behind it the whole
/// output, item by item and in order.
pub proof fn lemma_assembled_history(input: JsonView, output: Option<JsonView>)
    ensures
        ({
            let messages = stored_messages(input, output);
            let items = match output {
                Some(JsonView::Array(items)) => items,
                Some(JsonView::Null) => Seq::empty(),
                Some(other) => seq![other],
                None => Seq::empty(),
            };
            &&& messages is Array
            &&& messages->Array_0.len() >= items.len()
            &&& {
                let begun = messages->Array_0.len() - items.len();
                &&& begins_turn(input, messages->Array_0.take(begun))
                &&& messages->Array_0.skip(begun) == items
            }
        }),
{
    lemma_stored_items(input);
    let first = stored_items(input);
    let second = output_items(output);
    assert((first + second).take(first.len() as int) =~= first);
    assert((first + second).skip(first.len() as int) =~= second);
    if let Some(other) = output {
        assert(Seq::<JsonView>::empty().push(other) =~= seq![other]);
    }
}

} // verus!
