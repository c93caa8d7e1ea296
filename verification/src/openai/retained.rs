//! The budget on the payload that a request may retain: what counts, and whether
//! more of it fits.

use vstd::prelude::*;

use crate::collections::TextSet;
use crate::json::{items_view, Json, JsonView};
use crate::json_text::byte_len_of;
use crate::openai::state::{DispatchFailure, FailureView, ResponsesState, StateView};
use crate::openai::usage::{fitting, text_len};

verus! {

broadcast use crate::json_model::group_json_view;

/// The bytes of the compact texts of values, all together.
pub open spec fn items_bytes(items: Seq<JsonView>) -> nat
    decreases items.len(),
{
    if items.len() == 0 {
        0
    } else {
        items_bytes(items.drop_last()) + text_len(items.last())
    }
}

/// The payload that a request retains: its output, both of its histories, the ids
/// of executed items, and what filters hold outside.
pub open spec fn retained_bytes(state: StateView) -> nat {
    items_bytes(state.output) + items_bytes(state.messages) + items_bytes(state.persisted_messages)
        + state.executed_bytes + state.external as nat
}

/// Whether `additional` bytes more may be retained.
pub open spec fn can_retain(state: StateView, additional: nat) -> bool {
    match state.limit {
        Some(limit) => retained_bytes(state) + additional <= limit,
        None => true,
    }
}

/// Whether `removed` bytes may be replaced by `added` ones, with `staging` bytes
/// held on top meanwhile.
pub open spec fn can_replace(state: StateView, removed: nat, added: nat, staging: nat) -> bool {
    match state.limit {
        Some(limit) => retained_bytes(state) + staging <= limit && retained_bytes(state) - removed
            + added <= limit,
        None => true,
    }
}

/// The sum of two sizes, where it is a `usize`.
pub(crate) fn sum_of(a: Option<usize>, b: Option<usize>, Ghost(x): Ghost<nat>, Ghost(y): Ghost<nat>) -> (sum:
    Option<usize>)
    requires
        a == fitting(x),
        b == fitting(y),
    ensures
        sum == fitting(x + y),
{
    match (a, b) {
        (Some(a), Some(b)) => a.checked_add(b),
        _ => None,
    }
}

/// A multiple of a size, where it is a `usize`.
pub(crate) fn multiple_of(a: Option<usize>, factor: usize, Ghost(x): Ghost<nat>) -> (product: Option<
    usize,
>)
    requires
        a == fitting(x),
        factor > 0,
    ensures
        product == fitting((x * factor) as nat),
{
    match a {
        Some(a) => a.checked_mul(factor),
        None => {
            assert(x * factor > usize::MAX) by (nonlinear_arith)
                requires
                    x > usize::MAX,
                    factor > 0,
            ;
            None
        },
    }
}

/// The values up to `n` have no more bytes than all of them.
proof fn lemma_items_bytes_grow(items: Seq<JsonView>, n: int)
    requires
        0 <= n <= items.len(),
    ensures
        items_bytes(items.take(n)) <= items_bytes(items),
    decreases items.len(),
{
    if n == items.len() {
        assert(items.take(n) =~= items);
    } else {
        assert(items.drop_last().take(n) =~= items.take(n));
        lemma_items_bytes_grow(items.drop_last(), n);
    }
}

/// The bytes of values once one of them was replaced.
pub proof fn lemma_items_bytes_update(items: Seq<JsonView>, at: int, value: JsonView)
    requires
        0 <= at < items.len(),
    ensures
        items_bytes(items.update(at, value)) == items_bytes(items) - text_len(items[at]) + text_len(
            value,
        ),
        text_len(items[at]) <= items_bytes(items),
    decreases items.len(),
{
    let after = items.update(at, value);
    if at == items.len() - 1 {
        assert(after.drop_last() =~= items.drop_last());
    } else {
        assert(after.drop_last() =~= items.drop_last().update(at, value));
        lemma_items_bytes_update(items.drop_last(), at, value);
    }
}

/// The bytes of values behind other values.
pub proof fn lemma_items_bytes_concat(a: Seq<JsonView>, b: Seq<JsonView>)
    ensures
        items_bytes(a + b) == items_bytes(a) + items_bytes(b),
    decreases b.len(),
{
    if b.len() == 0 {
        assert(a + b =~= a);
    } else {
        assert((a + b).drop_last() =~= a + b.drop_last());
        lemma_items_bytes_concat(a, b.drop_last());
    }
}

/// Counts the compact bytes of a value.
pub fn retained_json_bytes(value: &Json) -> (bytes: usize)
    ensures
        bytes == text_len(value@),
{
    byte_len_of(value)
}

/// Counts the compact bytes of values.
pub fn retained_json_values_bytes(values: &Vec<Json>) -> (bytes: Option<usize>)
    ensures
        bytes == fitting(items_bytes(items_view(values@))),
{
    let ghost view = items_view(values@);
    let mut bytes: usize = 0;
    let mut i: usize = 0;
    assert(items_bytes(view.take(0)) == 0);
    while i < values.len()
        invariant
            view == items_view(values@),
            i <= values.len(),
            bytes == items_bytes(view.take(i as int)),
        decreases values.len() - i,
    {
        proof {
            assert(view.take(i + 1).drop_last() =~= view.take(i as int));
            lemma_items_bytes_grow(view, i + 1);
        }
        bytes = match bytes.checked_add(byte_len_of(&values[i])) {
            Some(sum) => sum,
            None => return None,
        };
        i = i + 1;
    }
    assert(view.take(i as int) =~= view);
    Some(bytes)
}

/// The state once a budget error dropped the retained payload.
pub open spec fn discarded(state: StateView) -> StateView {
    StateView {
        output: Seq::empty(),
        messages: Seq::empty(),
        persisted_messages: Seq::empty(),
        executed: Set::empty(),
        executed_bytes: 0,
        payload_failed: true,
        ..state
    }
}

/// The state once the budget was exceeded: the payload is dropped, and the loop
/// ends with a server error.
pub open spec fn budget_failed(state: StateView, message: Seq<char>) -> StateView {
    StateView {
        dispatch_failure: Some(
            FailureView { status: 502, code: "server_error"@, message },
        ),
        ..discarded(state)
    }
}

impl ResponsesState {
    /// Counts the payload that the request retains; `None` where the number is no
    /// `usize`.
    pub fn retained_payload_bytes(&self) -> (bytes: Option<usize>)
        ensures
            bytes == fitting(retained_bytes(self@)),
    {
        let ghost a = items_bytes(self@.output);
        let ghost b = items_bytes(self@.messages);
        let ghost c = items_bytes(self@.persisted_messages);
        let ghost d = self@.executed_bytes;
        let output = retained_json_values_bytes(&self.accumulated_output);
        let messages = retained_json_values_bytes(&self.messages);
        let persisted = retained_json_values_bytes(&self.persisted_messages);
        let executed = self.locally_executed_output_items.byte_count();
        let histories = sum_of(
            sum_of(output, messages, Ghost(a), Ghost(b)),
            persisted,
            Ghost(a + b),
            Ghost(c),
        );
        let owned = sum_of(histories, executed, Ghost(a + b + c), Ghost(d));
        sum_of(
            owned,
            Some(self.external_payload_bytes),
            Ghost(a + b + c + d),
            Ghost(self.external_payload_bytes as nat),
        )
    }

    /// Whether `additional` bytes more may be retained.
    pub fn can_retain_payload(&self, additional: usize) -> (fits: bool)
        ensures
            fits == can_retain(self@, additional as nat),
    {
        let limit = match self.retained_payload_limit {
            Some(limit) => limit,
            None => return true,
        };
        match self.retained_payload_bytes() {
            Some(held) => held <= limit && additional <= limit - held,
            None => false,
        }
    }

    /// Whether `removed` bytes may be replaced by `added` ones, with `staging`
    /// bytes held on top meanwhile.
    pub fn can_replace_retained_payload(&self, removed: usize, added: usize, staging: usize) -> (fits:
        bool)
        requires
            removed <= retained_bytes(self@),
        ensures
            fits == can_replace(self@, removed as nat, added as nat, staging as nat),
    {
        let limit = match self.retained_payload_limit {
            Some(limit) => limit,
            None => return true,
        };
        match self.retained_payload_bytes() {
            Some(held) => held <= limit && staging <= limit - held && added <= limit - (held
                - removed),
            None => false,
        }
    }

    /// Counts `bytes` that a filter holds outside; `false` where the sum is no
    /// `usize`.
    pub fn retain_external_payload_bytes(&mut self, bytes: usize) -> (counted: bool)
        ensures
            counted == (old(self)@.external + bytes <= usize::MAX),
            final(self)@ == (if counted {
                StateView { external: (old(self)@.external + bytes) as usize, ..old(self)@ }
            } else {
                old(self)@
            }),
    {
        match self.external_payload_bytes.checked_add(bytes) {
            Some(sum) => {
                self.external_payload_bytes = sum;
                true
            },
            None => false,
        }
    }

    /// Stops counting `bytes` that a filter held outside.
    pub fn release_external_payload_bytes(&mut self, bytes: usize)
        ensures
            final(self)@ == (StateView {
                external: if old(self)@.external >= bytes {
                    (old(self)@.external - bytes) as usize
                } else {
                    0
                },
                ..old(self)@
            }),
    {
        self.external_payload_bytes = self.external_payload_bytes.saturating_sub(bytes);
    }

    /// Drops the retained payload after a budget error.
    pub fn discard_payload_for_budget_error(&mut self)
        ensures
            final(self)@ == discarded(old(self)@),
    {
        let ghost before = self@;
        self.accumulated_output = Vec::new();
        self.messages = Vec::new();
        self.persisted_messages = Vec::new();
        self.locally_executed_output_items = TextSet::new();
        self.retained_payload_failed = true;
        assert(self@ =~= discarded(before));
    }

    /// Drops the retained payload and ends the loop with a server error.
    pub fn fail_budget(&mut self, message: &str)
        ensures
            final(self)@ == budget_failed(old(self)@, message@),
    {
        let ghost before = self@;
        self.discard_payload_for_budget_error();
        self.dispatch_failure = Some(
            DispatchFailure {
                status: 502,
                code: "server_error".to_owned(),
                message: message.to_owned(),
            },
        );
        assert(self@ =~= budget_failed(before, message@));
    }
}

/// A request that exceeded its budget retains nothing but what filters hold
/// outside.
pub proof fn lemma_discarded_retains_nothing(state: StateView)
    ensures
        retained_bytes(discarded(state)) == state.external,
{
}

/// A request that exceeded its budget ends with a server error that says why; all that
/// it retained is gone, and nothing else of it changes.
pub proof fn lemma_budget_failure_is_told(state: StateView, message: Seq<char>)
    ensures
        ({
            let after = budget_failed(state, message);
            &&& after.payload_failed
            &&& after.dispatch_failure is Some
            &&& after.dispatch_failure->0.status == 502
            &&& after.dispatch_failure->0.code == "server_error"@
            &&& after.dispatch_failure->0.message == message
            &&& after.output.len() == 0 && after.messages.len() == 0
            &&& after.persisted_messages.len() == 0
            &&& after == (StateView {
                output: after.output,
                messages: after.messages,
                persisted_messages: after.persisted_messages,
                executed: after.executed,
                executed_bytes: after.executed_bytes,
                payload_failed: true,
                dispatch_failure: after.dispatch_failure,
                ..state
            })
        }),
{
}

/// What is retained counts once for each place that holds it, and a limit admits
/// exactly what fits beside it; without a limit everything is admitted.
pub proof fn lemma_retained_counts(state: StateView, item: JsonView, more: nat)
    ensures
        retained_bytes(StateView { output: state.output.push(item), ..state }) == retained_bytes(
            state,
        ) + text_len(item),
        retained_bytes(StateView { messages: state.messages.push(item), ..state })
            == retained_bytes(state) + text_len(item),
        retained_bytes(
            StateView { persisted_messages: state.persisted_messages.push(item), ..state },
        ) == retained_bytes(state) + text_len(item),
        state.limit is None ==> can_retain(state, more),
        state.limit is Some ==> can_retain(state, more) == (retained_bytes(state) + more
            <= state.limit->0),
{
    assert(state.output.push(item).drop_last() =~= state.output);
    assert(state.messages.push(item).drop_last() =~= state.messages);
    assert(state.persisted_messages.push(item).drop_last() =~= state.persisted_messages);
}

} // verus!
