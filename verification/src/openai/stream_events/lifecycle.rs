//! The lifecycle that a locally executed tool item owes the client, and the plan
//! of the events that are still missing.

use vstd::prelude::*;

use crate::json::{Json, JsonView};
use crate::openai::state::{EmittedItem, EmittedView};
use crate::text::{begins_with, same_text, starts_with};

verus! {

broadcast use crate::json_model::group_json_view;

/// Whether an output item is of a kind that a tool-dispatch filter generates.
pub open spec fn is_local_tool(item: JsonView) -> bool {
    match item.get_text("type"@) {
        Some(kind) => kind == "mcp_call"@ || kind == "mcp_approval_request"@ || kind
            == "web_search_call"@,
        None => false,
    }
}

/// Whether an output item is of a kind that a tool-dispatch filter generates.
pub fn is_local_tool_item(item: &Json) -> (local: bool)
    ensures
        local == is_local_tool(item@),
{
    match item.get_str("type") {
        Some(kind) => same_text(kind, "mcp_call") || same_text(kind, "mcp_approval_request")
            || same_text(kind, "web_search_call"),
        None => false,
    }
}

/// Whether an event type is a tool-specific progress or outcome event.
pub open spec fn is_progress_type(event_type: Seq<char>) -> bool {
    begins_with(event_type, "response.web_search_call."@) || begins_with(
        event_type,
        "response.mcp_call."@,
    )
}

/// Whether an event type is a tool-specific progress or outcome event that the
/// model backend streams in-band. Observing one proves that this phase reached
/// the client.
pub fn is_local_tool_progress_event(event_type: &str) -> (progress: bool)
    ensures
        progress == is_progress_type(event_type@),
{
    starts_with(event_type, "response.web_search_call.") || starts_with(
        event_type,
        "response.mcp_call.",
    )
}

/// Whether a member is there and not `null`.
pub open spec fn is_set(item: JsonView, name: Seq<char>) -> bool {
    item.get(name) is Some && item.get(name)->0 != JsonView::Null
}

/// The ordered tool-specific events that a local item owes the client between
/// its announcement and its finalization.
pub open spec fn expected_phases(item: JsonView) -> Seq<Seq<char>> {
    match item.get_text("type"@) {
        Some(kind) => if kind == "mcp_call"@ {
            Seq::empty().push("response.mcp_call.in_progress"@).push(
                if is_set(item, "error"@) {
                    "response.mcp_call.failed"@
                } else {
                    "response.mcp_call.completed"@
                },
            )
        } else if kind == "web_search_call"@ {
            let leading = Seq::empty().push("response.web_search_call.in_progress"@).push(
                "response.web_search_call.searching"@,
            );
            if item.get_text("status"@) == Some("completed"@) {
                leading.push("response.web_search_call.completed"@)
            } else {
                leading
            }
        } else {
            Seq::empty()
        },
        None => Seq::empty(),
    }
}

/// The texts of phases.
pub open spec fn phases_view(phases: Seq<&'static str>) -> Seq<Seq<char>> {
    Seq::new(phases.len(), |i: int| phases[i]@)
}

/// The full ordered tool-specific lifecycle that a local item owes the client.
///
/// `mcp_call` progresses to `completed` or `failed`; `web_search_call` progresses
/// to `completed` only when it actually completed. `mcp_approval_request` has no
/// progress events of its own.
pub fn expected_phase_events(item: &Json) -> (phases: Vec<&'static str>)
    ensures
        phases_view(phases@) == expected_phases(item@),
{
    let mut phases: Vec<&'static str> = Vec::new();
    if let Some(kind) = item.get_str("type") {
        if same_text(kind, "mcp_call") {
            let failed = match item.get("error") {
                Some(error) => !error.is_null(),
                None => false,
            };
            phases.push("response.mcp_call.in_progress");
            if failed {
                phases.push("response.mcp_call.failed");
            } else {
                phases.push("response.mcp_call.completed");
            }
        } else if same_text(kind, "web_search_call") {
            phases.push("response.web_search_call.in_progress");
            phases.push("response.web_search_call.searching");
            let completed = match item.get_str("status") {
                Some(status) => same_text(status, "completed"),
                None => false,
            };
            if completed {
                phases.push("response.web_search_call.completed");
            }
        }
    }
    assert(phases_view(phases@) =~= expected_phases(item@));
    phases
}

/// The number of expected phases up to and with the last one that was streamed.
pub open spec fn frontier(expected: Seq<Seq<char>>, streamed: Set<Seq<char>>) -> nat
    decreases expected.len(),
{
    if expected.len() == 0 {
        0
    } else if streamed.contains(expected.last()) {
        expected.len()
    } else {
        frontier(expected.drop_last(), streamed)
    }
}

/// Which parts of a local item's lifecycle are emitted.
#[verifier::ext_equal]
pub struct PlanView {
    /// The item is announced.
    pub emit_added: bool,
    /// The progress and outcome events, in order.
    pub phases: Seq<Seq<char>>,
    /// The item is finalized.
    pub emit_done: bool,
}

/// The phases that were streamed of an item.
pub open spec fn streamed_of(previous: Option<EmittedView>) -> Set<Seq<char>> {
    match previous {
        Some(emitted) => emitted.phases,
        None => Set::empty(),
    }
}

/// The events that an item still owes the client: the announcement where it was
/// never announced, the phases behind those that were streamed, and the
/// finalization where it was not delivered or the content changed since. `None`
/// where nothing is owed.
pub open spec fn plan_of(previous: Option<EmittedView>, item: JsonView, digest: u64) -> Option<
    PlanView,
> {
    let expected = expected_phases(item);
    let reached = frontier(expected, streamed_of(previous));
    let announced = previous is Some && previous->0.added;
    let delivered = previous is Some && previous->0.done;
    let changed = previous is None || previous->0.content_digest != digest;
    let plan = PlanView {
        emit_added: !announced,
        phases: expected.skip(reached as int),
        emit_done: !delivered || changed,
    };
    if announced && plan.phases.len() == 0 && !plan.emit_done {
        None
    } else {
        Some(plan)
    }
}

/// Which parts of a local item's lifecycle a single synthesis pass must emit.
pub struct EmissionPlan {
    /// Whether to announce the item.
    pub emit_added: bool,
    /// The progress and outcome events, in order.
    pub phases: Vec<&'static str>,
    /// Whether to finalize the item.
    pub emit_done: bool,
}

impl View for EmissionPlan {
    type V = PlanView;

    open spec fn view(&self) -> PlanView {
        PlanView {
            emit_added: self.emit_added,
            phases: phases_view(self.phases@),
            emit_done: self.emit_done,
        }
    }
}

/// The model of optional milestones.
pub open spec fn previous_view(previous: Option<&EmittedItem>) -> Option<EmittedView> {
    match previous {
        Some(emitted) => Some(emitted@),
        None => None,
    }
}

/// The number of expected phases up to and with the last one that was streamed.
///
/// This is the frontier behind which progress events may be synthesized. A phase
/// before it was either streamed or deliberately skipped by the backend; emitting
/// it now would place it behind a later phase that was already sent.
fn streamed_frontier(expected: &Vec<&'static str>, previous: Option<&EmittedItem>) -> (reached:
    usize)
    ensures
        reached == frontier(phases_view(expected@), streamed_of(previous_view(previous))),
        reached <= expected.len(),
{
    let ghost view = phases_view(expected@);
    let ghost streamed = streamed_of(previous_view(previous));
    let emitted = match previous {
        Some(emitted) => emitted,
        None => {
            proof {
                lemma_nothing_streamed(view);
            }
            return 0;
        },
    };
    let mut reached: usize = expected.len();
    assert(view.take(reached as int) =~= view);
    while reached > 0 && !emitted.streamed_phases.contains(expected[reached - 1])
        invariant
            view == phases_view(expected@),
            streamed == emitted.streamed_phases@,
            reached <= expected.len(),
            frontier(view, streamed) == frontier(view.take(reached as int), streamed),
        decreases reached,
    {
        assert(view.take(reached as int).drop_last() =~= view.take(reached - 1));
        reached = reached - 1;
    }
    if reached > 0 {
        assert(view.take(reached as int).last() == expected@[reached - 1]@);
    }
    reached
}

/// Where nothing was streamed, the frontier is at the start.
proof fn lemma_nothing_streamed(expected: Seq<Seq<char>>)
    ensures
        frontier(expected, Set::empty()) == 0,
    decreases expected.len(),
{
    if expected.len() > 0 {
        lemma_nothing_streamed(expected.drop_last());
    }
}

/// Decides whether a locally generated item still owes the client any events and,
/// if so, exactly which lifecycle milestones this synthesis pass must emit.
pub fn plan_pending_item(previous: Option<&EmittedItem>, item: &Json, digest: u64) -> (plan: Option<
    EmissionPlan,
>)
    ensures
        match plan {
            Some(plan) => plan_of(previous_view(previous), item@, digest) == Some(plan@),
            None => plan_of(previous_view(previous), item@, digest) is None,
        },
{
    let expected = expected_phase_events(item);
    let reached = streamed_frontier(&expected, previous);
    let ghost view = phases_view(expected@);
    let mut phases: Vec<&'static str> = Vec::new();
    let mut i: usize = reached;
    assert(phases_view(phases@) =~= view.subrange(reached as int, reached as int));
    while i < expected.len()
        invariant
            view == phases_view(expected@),
            reached <= i <= expected.len(),
            phases_view(phases@) == view.subrange(reached as int, i as int),
        decreases expected.len() - i,
    {
        let ghost before = phases_view(phases@);
        phases.push(expected[i]);
        assert(phases_view(phases@) =~= before.push(view[i as int]));
        assert(view.subrange(reached as int, i + 1) =~= view.subrange(
            reached as int,
            i as int,
        ).push(view[i as int]));
        i = i + 1;
    }
    assert(phases_view(phases@) =~= view.skip(reached as int));
    let (announced, delivered, changed) = match previous {
        Some(emitted) => (
            emitted.added,
            emitted.done_delivered,
            emitted.content_digest != digest,
        ),
        None => (false, false, true),
    };
    let emit_done = !delivered || changed;
    if announced && phases.len() == 0 && !emit_done {
        return None;
    }
    Some(EmissionPlan { emit_added: !announced, phases, emit_done })
}

/// The milestones after a plan was carried out.
pub open spec fn after_plan(
    previous: Option<EmittedView>,
    plan: PlanView,
    digest: u64,
) -> EmittedView {
    EmittedView {
        added: true,
        content_digest: digest,
        phases: streamed_of(previous).union(plan.phases.to_set()),
        done: (previous is Some && previous->0.done) || plan.emit_done,
    }
}

/// What the frontier is: no expected phase behind it was streamed, and the one
/// before it was.
pub proof fn lemma_frontier(expected: Seq<Seq<char>>, streamed: Set<Seq<char>>)
    ensures
        frontier(expected, streamed) <= expected.len(),
        forall|i: int|
            frontier(expected, streamed) <= i < expected.len() ==> !streamed.contains(
                #[trigger] expected[i],
            ),
        frontier(expected, streamed) > 0 ==> streamed.contains(
            expected[frontier(expected, streamed) - 1],
        ),
    decreases expected.len(),
{
    if expected.len() > 0 && !streamed.contains(expected.last()) {
        let rest = expected.drop_last();
        lemma_frontier(rest, streamed);
        assert forall|i: int| frontier(expected, streamed) <= i < expected.len() implies !streamed.contains(
            #[trigger] expected[i],
        ) by {
            if i < rest.len() {
                assert(rest[i] == expected[i]);
            }
        }
    }
}

/// A plan never repeats a phase that was streamed, and never puts one behind a
/// later phase that was streamed: it emits a closing part of the lifecycle, and
/// every phase that was streamed comes before that part.
pub proof fn lemma_plan_keeps_order(previous: Option<EmittedView>, item: JsonView, digest: u64)
    requires
        plan_of(previous, item, digest) is Some,
    ensures
        ({
            let expected = expected_phases(item);
            let phases = plan_of(previous, item, digest)->0.phases;
            let start = expected.len() - phases.len();
            &&& 0 <= start
            &&& phases == expected.skip(start)
            &&& forall|k: int|
                0 <= k < phases.len() ==> !streamed_of(previous).contains(#[trigger] phases[k])
            &&& forall|i: int|
                0 <= i < expected.len() && streamed_of(previous).contains(#[trigger] expected[i])
                    ==> i < start
        }),
{
    let expected = expected_phases(item);
    let streamed = streamed_of(previous);
    lemma_frontier(expected, streamed);
    let phases = plan_of(previous, item, digest)->0.phases;
    let reached = frontier(expected, streamed);
    assert forall|k: int| 0 <= k < phases.len() implies !streamed.contains(#[trigger] phases[k]) by {
        assert(phases[k] == expected[reached + k]);
    }
}

/// Once a plan was carried out, the item owes nothing more: a second pass over
/// the same content emits nothing.
pub proof fn lemma_plan_settles(previous: Option<EmittedView>, item: JsonView, digest: u64)
    ensures
        match plan_of(previous, item, digest) {
            Some(plan) => plan_of(Some(after_plan(previous, plan, digest)), item, digest) is None,
            None => true,
        },
{
    match plan_of(previous, item, digest) {
        Some(plan) => {
            let expected = expected_phases(item);
            let next = after_plan(previous, plan, digest);
            let reached = frontier(expected, streamed_of(previous));
            lemma_frontier(expected, streamed_of(previous));
            if expected.len() > 0 {
                let last = expected[expected.len() - 1];
                if reached < expected.len() {
                    let phases = expected.skip(reached as int);
                    assert(phases[phases.len() - 1] == last);
                    assert(phases.to_set().contains(last));
                }
                assert(next.phases.contains(last));
                assert(frontier(expected, next.phases) == expected.len());
            }
            assert(expected.skip(frontier(expected, next.phases) as int).len() == 0);
        },
        None => {},
    }
}

} // verus!
