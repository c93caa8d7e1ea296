//! What a stream's events leave in the request's state: items in their places,
//! arguments as they were sent, and the provider's own response at the end.

use vstd::prelude::*;

use crate::json::{
    distinct_names, lemma_get_with, lemma_get_with_other, lemma_member_with,
    lemma_member_with_other, lemma_member_without_other, well_formed, JsonView, NumberView,
};
use crate::openai::sse::{is_terminal_type, EventView};
use crate::openai::state::StateView;
use crate::openai::stream_events::accumulator::{
    argument_key, call_completed, final_arguments, first_with_id, held_arguments, items_with_done,
    metadata_accumulated, parser_accumulated, position_in_round, response_accumulated,
    state_accumulated, target_of, terminal_response, with_items,
};
use crate::openai::stream_events::emission::state_or_blank;
use crate::openai::stream_events::parser_state::ParserView;
use crate::openai::usage::lemma_usage_adds_up;
use crate::openai::web_search::turns::lemma_decimal_injective;
use crate::text::{decimal, utf8};

verus! {

/// The output items of a response.
pub open spec fn listed(response: JsonView) -> Seq<JsonView> {
    match response.get("output"@) {
        Some(JsonView::Array(items)) => items,
        _ => Seq::empty(),
    }
}

/// Whether only the response of a state changed, and of it only the output items.
pub open spec fn only_items_changed(before: StateView, after: StateView) -> bool {
    &&& after == (StateView { response_object: after.response_object, ..before })
    &&& after.response_object is Object
    &&& before.response_object is Object ==> forall|name: Seq<char>|
        #![trigger after.response_object.get(name)]
        name != "output"@ ==> after.response_object.get(name) == before.response_object.get(name)
}

/// Items that a state is given are its items, and nothing else changes.
proof fn lemma_given_items(state: StateView, items: Seq<JsonView>)
    ensures
        ({
            let after = with_items(state, items);
            &&& listed(after.response_object) == items
            &&& only_items_changed(state, after)
        }),
{
    let members = match state.response_object {
        JsonView::Object(members) => members,
        _ => Seq::empty(),
    };
    let list = JsonView::Array(items);
    lemma_member_with(members, "output"@, list);
    let after = with_items(state, items);
    assert forall|name: Seq<char>|
        name != "output"@ && state.response_object is Object implies #[trigger] after.response_object.get(
        name,
    ) == state.response_object.get(name) by {
        lemma_member_with_other(members, "output"@, list, name);
    }
}

/// The event types that are told apart are different.
proof fn lemma_event_types()
    ensures
        "response.completed"@ != "response.incomplete"@,
        "response.completed"@ != "response.failed"@,
        "response.incomplete"@ != "response.failed"@,
        forall|t: Seq<char>|
            #[trigger] is_terminal_type(t) ==> t != "response.output_item.added"@ && t != "response.output_item.done"@ && t
                != "response.function_call_arguments.delta"@ && t
                != "response.function_call_arguments.done"@,
        "response.output_item.added"@ != "response.output_item.done"@,
        "response.output_item.added"@ != "response.function_call_arguments.delta"@,
        "response.output_item.added"@ != "response.function_call_arguments.done"@,
        "response.output_item.done"@ != "response.function_call_arguments.delta"@,
        "response.output_item.done"@ != "response.function_call_arguments.done"@,
        "response.function_call_arguments.delta"@ != "response.function_call_arguments.done"@,
        "arguments"@ != "status"@,
        "arguments"@ != "type"@,
        "status"@ != "type"@,
{
    reveal_strlit("response.completed");
    reveal_strlit("response.incomplete");
    reveal_strlit("response.failed");
    reveal_strlit("response.output_item.added");
    reveal_strlit("response.output_item.done");
    reveal_strlit("response.function_call_arguments.delta");
    reveal_strlit("response.function_call_arguments.done");
    reveal_strlit("arguments");
    reveal_strlit("status");
    reveal_strlit("type");
    assert("response.completed"@.len() == 18);
    assert("response.incomplete"@.len() == 19);
    assert("response.failed"@.len() == 15);
    assert("response.output_item.added"@.len() == 26);
    assert("response.output_item.done"@.len() == 25);
    assert("response.function_call_arguments.delta"@.len() == 38);
    assert("response.function_call_arguments.done"@.len() == 37);
    assert("arguments"@.len() == 9 && "status"@.len() == 6 && "type"@.len() == 4);
}

/// An item that is announced comes behind all others, as it was announced.
pub proof fn lemma_announced_item_is_held(
    parser: ParserView,
    state: Option<StateView>,
    event: EventView,
)
    requires
        event.event_type == "response.output_item.added"@,
        event.payload.get("item"@) is Some,
    ensures
        ({
            let before = state_or_blank(state);
            let after = state_accumulated(parser, state, event);
            &&& after is Some
            &&& listed(after->0.response_object) == listed(before.response_object).push(
                event.payload.get("item"@)->0,
            )
            &&& only_items_changed(before, after->0)
            &&& parser_accumulated(parser, event) == parser
        }),
{
    lemma_event_types();
    let before = state_or_blank(state);
    lemma_given_items(before, listed(before.response_object).push(event.payload.get("item"@)->0));
}

/// The first item with an id is the first one.
proof fn lemma_first_with_id(items: Seq<JsonView>, id: Seq<char>)
    ensures
        match first_with_id(items, id) {
            Some(at) => {
                &&& 0 <= at < items.len()
                &&& items[at].get("id"@) == Some(JsonView::String(id))
                &&& forall|j: int|
                    0 <= j < at ==> (#[trigger] items[j]).get("id"@) != Some(JsonView::String(id))
            },
            None => forall|j: int|
                0 <= j < items.len() ==> (#[trigger] items[j]).get("id"@) != Some(
                    JsonView::String(id),
                ),
        },
    decreases items.len(),
{
    if items.len() > 0 {
        lemma_first_with_id(items.drop_last(), id);
        let front = items.drop_last();
        assert forall|j: int| 0 <= j < front.len() implies front[j] == items[j] by {}
        assert(items.last() == items[items.len() - 1]);
        assert((items.last().get_text("id"@) == Some(id)) == (items.last().get("id"@) == Some(
            JsonView::String(id),
        )));
    }
}

/// Whether two items have one id.
pub open spec fn has_same_id(a: JsonView, b: JsonView) -> bool {
    b.get("id"@) is Some && b.get("id"@)->0 is String && a.get("id"@) == b.get("id"@)
}

/// An item that is finished is held as it was finished: in place of the one at its
/// index, counted from where its round began; else in place of the first one with its
/// id; else behind all others. No other item changes.
pub proof fn lemma_finished_item_is_held(
    parser: ParserView,
    state: Option<StateView>,
    event: EventView,
)
    requires
        event.event_type == "response.output_item.done"@,
        event.payload.get("item"@) is Some,
    ensures
        ({
            let before = state_or_blank(state);
            let after = state_accumulated(parser, state, event);
            let item = event.payload.get("item"@)->0;
            let held = listed(before.response_object);
            &&& after is Some
            &&& only_items_changed(before, after->0)
            &&& {
                let items = listed(after->0.response_object);
                &&& exists|at: int|
                    {
                        &&& 0 <= at < items.len()
                        &&& #[trigger] items[at] == item
                        &&& items.len() == if at < held.len() {
                            held.len()
                        } else {
                            held.len() + 1
                        }
                        &&& forall|i: int|
                            0 <= i < held.len() && i != at ==> #[trigger] items[i] == held[i]
                        &&& match event.payload.get("output_index"@) {
                            Some(JsonView::Number(NumberView::Unsigned(index))) => {
                                let place = if index >= parser.offset {
                                    index - parser.offset
                                } else {
                                    0
                                };
                                if place < held.len() {
                                    at == place
                                } else {
                                    at < held.len() ==> has_same_id(held[at], item)
                                }
                            },
                            _ => at < held.len() ==> has_same_id(held[at], item),
                        }
                        &&& at == held.len() ==> match item.get("id"@) {
                            Some(JsonView::String(id)) => forall|j: int|
                                0 <= j < held.len() ==> (#[trigger] held[j]).get("id"@) != item.get(
                                    "id"@,
                                ),
                            _ => true,
                        }
                    }
            }
        }),
{
    lemma_event_types();
    let before = state_or_blank(state);
    let held = listed(before.response_object);
    let item = event.payload.get("item"@)->0;
    let items = items_with_done(
        held,
        item,
        position_in_round(event.payload, parser.offset),
    );
    lemma_given_items(before, items);
    if let Some(JsonView::String(id)) = item.get("id"@) {
        lemma_first_with_id(held, id);
    }
    let position = position_in_round(
        event.payload,
        parser.offset,
    );
    if position is Some && position->0 < held.len() {
        assert(items[position->0] == item);
    } else {
        let same = match item.get_text("id"@) {
            Some(id) => first_with_id(held, id),
            None => None,
        };
        match same {
            Some(at) => {
                assert(items[at] == item);
            },
            None => {
                assert(items[held.len() as int] == item);
            },
        }
    }
}

/// Deltas add up: of a call that is not refused, a delta comes behind what was held
/// of its arguments, where both together are within the cap; and nothing of any other
/// call changes.
pub proof fn lemma_deltas_add_up(
    parser: ParserView,
    event: EventView,
    key: Seq<char>,
    delta: Seq<char>,
)
    requires
        event.event_type == "response.function_call_arguments.delta"@,
        argument_key(event.payload) == Some(key),
        event.payload.get("delta"@) == Some(JsonView::String(delta)),
        !parser.rejected.contains(key),
    ensures
        ({
            let after = parser_accumulated(parser, event);
            let longer = held_arguments(parser, key) + delta;
            &&& utf8(held_arguments(parser, key)).len() + utf8(delta).len()
                <= parser.max_argument_bytes ==> {
                &&& after.args.dom().contains(key)
                &&& after.args[key] == longer
                &&& after.rejected == parser.rejected
            }
            &&& utf8(held_arguments(parser, key)).len() + utf8(delta).len()
                > parser.max_argument_bytes ==> {
                &&& !after.args.dom().contains(key)
                &&& after.rejected == parser.rejected.insert(key)
            }
            &&& forall|other: Seq<char>|
                other != key ==> {
                    &&& #[trigger] after.args.dom().contains(other) == parser.args.dom().contains(
                        other,
                    )
                    &&& after.args[other] == parser.args[other]
                }
            &&& after == (ParserView { args: after.args, rejected: after.rejected, ..parser })
        }),
{
    lemma_event_types();
    assert(event.payload.get_text("delta"@) == Some(delta));
}

/// A finished call holds the arguments that its end states, else all that its deltas
/// added up to. The item is the one with the event's id, else the one at its index in
/// this round. Nothing but its arguments and its status changes, and a status that is
/// settled stays.
pub proof fn lemma_finished_call_holds_arguments(
    parser: ParserView,
    state: Option<StateView>,
    event: EventView,
    key: Seq<char>,
    at: int,
)
    requires
        event.event_type == "response.function_call_arguments.done"@,
        argument_key(event.payload) == Some(key),
        !parser.rejected.contains(key),
        match event.payload.get("arguments"@) {
            Some(JsonView::String(arguments)) => utf8(arguments).len() <= parser.max_argument_bytes,
            _ => true,
        },
        ({
            let held = listed(state_or_blank(state).response_object);
            &&& 0 <= at < held.len()
            &&& held[at].get("type"@) == Some(JsonView::String("function_call"@))
            &&& match event.payload.get("item_id"@) {
                Some(JsonView::String(id)) => {
                    &&& held[at].get("id"@) == Some(JsonView::String(id))
                    &&& forall|j: int|
                        0 <= j < at ==> (#[trigger] held[j]).get("id"@) != Some(
                            JsonView::String(id),
                        )
                },
                _ => event.payload.get("output_index"@) == Some(
                    JsonView::Number(NumberView::Unsigned((at + parser.offset) as u64)),
                ) && at + parser.offset <= u64::MAX,
            }
        }),
    ensures
        ({
            let before = state_or_blank(state);
            let after = state_accumulated(parser, state, event);
            let held = listed(before.response_object);
            let arguments = match event.payload.get("arguments"@) {
                Some(JsonView::String(arguments)) => arguments,
                _ => held_arguments(parser, key),
            };
            &&& after is Some
            &&& only_items_changed(before, after->0)
            &&& {
                let items = listed(after->0.response_object);
                &&& items.len() == held.len()
                &&& forall|i: int| 0 <= i < held.len() && i != at ==> #[trigger] items[i] == held[i]
                &&& items[at].get("arguments"@) == Some(JsonView::String(arguments))
                &&& items[at].get("status"@) == (if held[at].get("status"@) == Some(
                    JsonView::String("incomplete"@),
                ) {
                    held[at].get("status"@)
                } else {
                    Some(JsonView::String("completed"@))
                })
                &&& forall|name: Seq<char>|
                    #![trigger items[at].get(name)]
                    name != "arguments"@ && name != "status"@ ==> items[at].get(name)
                        == held[at].get(name)
            }
            &&& !parser_accumulated(parser, event).args.dom().contains(key)
        }),
{
    lemma_event_types();
    let before = state_or_blank(state);
    let held = listed(before.response_object);
    let arguments = final_arguments(parser, event.payload)->0;
    if let Some(JsonView::String(id)) = event.payload.get("item_id"@) {
        lemma_first_with_id(held, id);
        let first = first_with_id(held, id)->0;
        if first < at {
            assert(held[first].get("id"@) != Some(JsonView::String(id)));
        } else if first > at {
            assert(held[at].get("id"@) == Some(JsonView::String(id)));
        }
    }
    assert(target_of(held, event.payload, parser.offset) == Some(at));
    let item = held[at];
    let text = JsonView::String(arguments);
    let filled = item.with("arguments"@, text);
    let done = JsonView::String("completed"@);
    let completed = call_completed(item, arguments);
    lemma_get_with(item, "arguments"@, text);
    lemma_get_with_other(item, "arguments"@, text, "status"@);
    lemma_get_with(filled, "status"@, done);
    lemma_get_with_other(filled, "status"@, done, "arguments"@);
    assert forall|name: Seq<char>|
        name != "arguments"@ && name != "status"@ implies #[trigger] completed.get(name)
        == item.get(name) by {
        lemma_get_with_other(item, "arguments"@, text, name);
        lemma_get_with_other(filled, "status"@, done, name);
    }
    lemma_given_items(before, held.update(at, completed));
}

/// A call whose arguments were refused stays as it was.
pub proof fn lemma_refused_call_is_left(
    parser: ParserView,
    state: Option<StateView>,
    event: EventView,
    key: Seq<char>,
)
    requires
        argument_key(event.payload) == Some(key),
        parser.rejected.contains(key),
        event.event_type == "response.function_call_arguments.delta"@ || event.event_type
            == "response.function_call_arguments.done"@,
    ensures
        state_accumulated(parser, state, event) == state,
        parser_accumulated(parser, event) == parser,
{
    lemma_event_types();
}

/// A terminal event is authoritative: the response is the provider's, member by
/// member, but for the usage, which is that of all rounds; and the status that is
/// told is the one that the event's type states.
pub proof fn lemma_terminal_response_is_held(
    parser: ParserView,
    state: Option<StateView>,
    event: EventView,
    metadata: Map<Seq<char>, Seq<char>>,
)
    requires
        event.event_type == "response.completed"@ || event.event_type == "response.incomplete"@
            || event.event_type == "response.failed"@,
        event.payload.get("response"@) is Some,
        event.payload.get("response"@)->0 is Object,
        distinct_names(event.payload.get("response"@)->0->Object_0),
    ensures
        ({
            let before = state_or_blank(state);
            let response = event.payload.get("response"@)->0;
            let after = state_accumulated(parser, state, event);
            let told = metadata_accumulated(metadata, event);
            &&& after is Some
            &&& after->0 == (StateView {
                response_object: after->0.response_object,
                usage: after->0.usage,
                template: JsonView::Null,
                ..before
            })
            &&& forall|name: Seq<char>|
                #![trigger after->0.response_object.get(name)]
                name != "usage"@ ==> after->0.response_object.get(name) == response.get(name)
            &&& match response.get("usage"@) {
                None => after->0.usage == before.usage,
                Some(JsonView::Null) => after->0.usage == before.usage,
                Some(usage) => before.usage == JsonView::Null ==> after->0.usage == usage,
            }
            &&& after->0.usage != JsonView::Null ==> after->0.response_object.get("usage"@) == Some(
                after->0.usage,
            )
            &&& told.dom().contains("responses.status"@)
            &&& event.event_type == "response.completed"@ ==> told["responses.status"@]
                == "completed"@
            &&& event.event_type == "response.incomplete"@ ==> told["responses.status"@]
                == "incomplete"@
            &&& event.event_type == "response.failed"@ ==> told["responses.status"@] == "failed"@
            &&& forall|key: Seq<char>|
                key != "responses.status"@ ==> {
                    &&& #[trigger] told.dom().contains(key) == metadata.dom().contains(key)
                    &&& told[key] == metadata[key]
                }
        }),
{
    lemma_event_types();
    let before = state_or_blank(state);
    let response = terminal_response(event.payload);
    let after = response_accumulated(before, response);
    let bare = response.without("usage"@);
    lemma_get_with(bare, "usage"@, after.usage);
    assert forall|name: Seq<char>| name != "usage"@ implies #[trigger] after.response_object.get(
        name,
    ) == response.get(name) by {
        lemma_member_without_other(response->Object_0, "usage"@, name);
        lemma_get_with_other(bare, "usage"@, after.usage, name);
    }
}

/// Events of every other type leave the state and the parser as they are.
pub proof fn lemma_other_events_change_nothing(
    parser: ParserView,
    state: Option<StateView>,
    event: EventView,
    metadata: Map<Seq<char>, Seq<char>>,
)
    requires
        event.event_type != "response.completed"@,
        event.event_type != "response.incomplete"@,
        event.event_type != "response.failed"@,
        event.event_type != "response.output_item.added"@,
        event.event_type != "response.output_item.done"@,
        event.event_type != "response.function_call_arguments.delta"@,
        event.event_type != "response.function_call_arguments.done"@,
    ensures
        state_accumulated(parser, state, event) == state,
        parser_accumulated(parser, event) == parser,
        metadata_accumulated(metadata, event) == metadata,
{
}

/// Calls are told apart: events with different item ids, or without one and with
/// different indexes, are about different calls, and those with one id about one.
pub proof fn lemma_calls_are_told_apart(a: JsonView, b: JsonView)
    ensures
        match (a.get("item_id"@), b.get("item_id"@)) {
            (Some(JsonView::String(x)), Some(JsonView::String(y))) => {
                &&& argument_key(a) is Some
                &&& x != y ==> argument_key(a) != argument_key(b)
                &&& x == y ==> argument_key(a) == argument_key(b)
            },
            (Some(JsonView::String(_)), _) => argument_key(a) is Some && argument_key(a)
                != argument_key(b),
            (_, Some(JsonView::String(_))) => argument_key(b) is Some && argument_key(a)
                != argument_key(b),
            _ => match (a.get("output_index"@), b.get("output_index"@)) {
                (
                    Some(JsonView::Number(NumberView::Unsigned(x))),
                    Some(JsonView::Number(NumberView::Unsigned(y))),
                ) => {
                    &&& argument_key(a) is Some
                    &&& x != y ==> argument_key(a) != argument_key(b)
                    &&& x == y ==> argument_key(a) == argument_key(b)
                },
                _ => true,
            },
        },
{
    reveal_strlit("item:");
    reveal_strlit("index:");
    assert("item:"@.len() == 5 && "index:"@.len() == 6);
    let x = argument_key(a);
    let y = argument_key(b);
    if x is Some && y is Some && x == y {
        let text = x->0;
        assert("item:"@[1] == 't' && "index:"@[1] == 'n');
        match (a.get_text("item_id"@), b.get_text("item_id"@)) {
            (Some(p), Some(q)) => {
                assert(p =~= text.skip(5));
                assert(q =~= text.skip(5));
            },
            (Some(p), None) => {
                assert(text[1] == 't');
            },
            (None, Some(q)) => {
                assert(text[1] == 't');
            },
            (None, None) => {
                let m = a.get_unsigned("output_index"@)->0;
                let n = b.get_unsigned("output_index"@)->0;
                assert(decimal(m as nat) =~= text.skip(6));
                assert(decimal(n as nat) =~= text.skip(6));
                lemma_decimal_injective(m as nat, n as nat);
            },
        }
    }
}

/// The usage of all rounds is the sum of theirs, field by field: of a field that the
/// rounds before and the terminal response both count, the sum is kept; a field of one
/// of them alone is kept as it is.
pub proof fn lemma_usage_is_summed(
    parser: ParserView,
    state: Option<StateView>,
    event: EventView,
    usage: JsonView,
    name: Seq<char>,
)
    requires
        event.event_type == "response.completed"@ || event.event_type == "response.incomplete"@
            || event.event_type == "response.failed"@,
        event.payload.get("response"@) is Some,
        event.payload.get("response"@)->0.get("usage"@) == Some(usage),
        usage is Object,
        well_formed(usage),
        state_or_blank(state).usage is Object,
        well_formed(state_or_blank(state).usage),
    ensures
        ({
            let before = state_or_blank(state).usage;
            let after = state_accumulated(parser, state, event);
            &&& after is Some
            &&& match (before.get(name), usage.get(name)) {
                (
                    Some(JsonView::Number(NumberView::Unsigned(a))),
                    Some(JsonView::Number(NumberView::Unsigned(b))),
                ) => a + b <= u64::MAX ==> after->0.usage.get(name) == Some(
                    JsonView::Number(NumberView::Unsigned((a + b) as u64)),
                ),
                (None, value) => after->0.usage.get(name) == value,
                (value, None) => after->0.usage.get(name) == value,
                _ => true,
            }
        }),
{
    lemma_event_types();
    lemma_usage_adds_up(state_or_blank(state).usage, usage, name);
}

} // verus!
