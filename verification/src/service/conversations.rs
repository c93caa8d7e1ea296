//! Conversation items: their normal form, and the records that hold them.

use vstd::prelude::*;

use crate::json::{
    distinct_names, items_view, lemma_get_with, lemma_get_with_other, lemma_member_without_other,
    lemma_position_is, lemma_with_stays_distinct, no_members, push_item, push_member, string, with_member, Json,
    JsonView, Members,
};
use crate::state_owner::{OwnerView, StateOwner};
use crate::text::{decimal, same_text, with_decimal};
use vstd::string::StringExecFns;

verus! {

broadcast use crate::json_model::group_json_view;

/// Most items of one request.
pub const MAX_ITEMS_PER_REQUEST: usize = 20;

/// Why records could not be made or stored.
pub enum StoreError {
    /// The input is malformed.
    InvalidInput(String),
}

/// The message of an error.
pub open spec fn error_message(error: StoreError) -> Seq<char> {
    match error {
        StoreError::InvalidInput(message) => message@,
    }
}

/// One stored conversation item.
pub struct ConversationItemRecord {
    /// The item's id.
    pub item_id: String,
    /// Whose item it is.
    pub owner: StateOwner,
    /// The conversation that it belongs to.
    pub conversation_id: String,
    /// The item.
    pub item_data: Json,
    /// When it was created.
    pub created_at: i64,
    /// Its position in the conversation.
    pub position: i64,
}

/// The model of a [`ConversationItemRecord`].
#[verifier::ext_equal]
pub struct ItemRecordView {
    /// The item's id.
    pub item_id: Seq<char>,
    /// Whose item it is.
    pub owner: OwnerView,
    /// The conversation that it belongs to.
    pub conversation_id: Seq<char>,
    /// The item.
    pub item_data: JsonView,
    /// When it was created.
    pub created_at: i64,
    /// Its position in the conversation.
    pub position: i64,
}

impl View for ConversationItemRecord {
    type V = ItemRecordView;

    open spec fn view(&self) -> ItemRecordView {
        ItemRecordView {
            item_id: self.item_id@,
            owner: self.owner@,
            conversation_id: self.conversation_id@,
            item_data: self.item_data@,
            created_at: self.created_at,
            position: self.position,
        }
    }
}

/// The models of records.
pub open spec fn records_view(records: Seq<ConversationItemRecord>) -> Seq<ItemRecordView> {
    Seq::new(records.len(), |i: int| records[i]@)
}

/// Builds an invalid-input error from a client-facing message.
fn invalid(message: &str) -> (error: StoreError)
    ensures
        error_message(error) == message@,
{
    StoreError::InvalidInput(message.to_owned())
}

/// Rejects a request whose item count exceeds the shared bound.
pub fn validate_item_count(item_count: usize) -> (result: Result<(), StoreError>)
    ensures
        match result {
            Ok(_) => item_count <= MAX_ITEMS_PER_REQUEST,
            Err(error) => item_count > MAX_ITEMS_PER_REQUEST && error_message(error)
                == "items may contain at most "@ + decimal(20) + " entries"@,
        },
{
    if item_count > MAX_ITEMS_PER_REQUEST {
        let mut message = with_decimal("items may contain at most ", 20);
        message.append(" entries");
        return Err(StoreError::InvalidInput(message));
    }
    Ok(())
}

/// The first position whose id stands at an earlier one too.
pub open spec fn first_repeat(ids: Seq<Seq<char>>, n: int) -> Option<int>
    decreases n,
{
    if n <= 0 {
        None
    } else {
        match first_repeat(ids, n - 1) {
            Some(at) => Some(at),
            None => if ids.take(n - 1).contains(ids[n - 1]) {
                Some(n - 1)
            } else {
                None
            },
        }
    }
}

/// The ids of records.
pub open spec fn record_ids(records: Seq<ConversationItemRecord>) -> Seq<Seq<char>> {
    Seq::new(records.len(), |i: int| records[i].item_id@)
}

/// Whether one of the first `n` records has an id.
fn has_id(records: &Vec<ConversationItemRecord>, n: usize, id: &str) -> (found: bool)
    requires
        n <= records.len(),
    ensures
        found == record_ids(records@).take(n as int).contains(id@),
{
    let ghost ids = record_ids(records@).take(n as int);
    let mut i: usize = 0;
    while i < n
        invariant
            n <= records.len(),
            i <= n,
            ids == record_ids(records@).take(n as int),
            forall|j: int| 0 <= j < i ==> #[trigger] ids[j] != id@,
        decreases n - i,
    {
        if same_text(records[i].item_id.as_str(), id) {
            assert(ids[i as int] == id@);
            return true;
        }
        i = i + 1;
    }
    false
}

/// A repeat stays the first one.
proof fn lemma_repeat_stays(ids: Seq<Seq<char>>, n: int, m: int)
    requires
        0 <= n <= m,
        first_repeat(ids, n) is Some,
    ensures
        first_repeat(ids, m) == first_repeat(ids, n),
    decreases m,
{
    if n < m {
        lemma_repeat_stays(ids, n, m - 1);
    }
}

/// Returns the first duplicate item id of a request.
pub fn duplicate_item_id(records: &Vec<ConversationItemRecord>) -> (id: Option<&str>)
    ensures
        ({
            let ids = record_ids(records@);
            match (id, first_repeat(ids, ids.len() as int)) {
                (Some(id), Some(at)) => id@ == ids[at],
                (None, None) => true,
                _ => false,
            }
        }),
{
    let ghost ids = record_ids(records@);
    let mut i: usize = 0;
    while i < records.len()
        invariant
            ids == record_ids(records@),
            ids.len() == records@.len(),
            i <= records.len(),
            first_repeat(ids, i as int) is None,
        decreases records.len() - i,
    {
        if has_id(records, i, records[i].item_id.as_str()) {
            proof {
                assert(first_repeat(ids, i + 1) == Some(i as int));
                lemma_repeat_stays(ids, i + 1, ids.len() as int);
            }
            return Some(records[i].item_id.as_str());
        }
        i = i + 1;
    }
    None
}

/// No id is a duplicate exactly where all ids are different.
pub proof fn lemma_no_duplicate(ids: Seq<Seq<char>>)
    ensures
        first_repeat(ids, ids.len() as int) is None <==> ids.no_duplicates(),
{
    lemma_no_repeat_before(ids, ids.len() as int);
    assert(ids.take(ids.len() as int) =~= ids);
}

/// Nothing repeats among the first `n` ids exactly where they are all different.
proof fn lemma_no_repeat_before(ids: Seq<Seq<char>>, n: int)
    requires
        0 <= n <= ids.len(),
    ensures
        first_repeat(ids, n) is None <==> ids.take(n).no_duplicates(),
    decreases n,
{
    if n > 0 {
        lemma_no_repeat_before(ids, n - 1);
        let front = ids.take(n - 1);
        let all = ids.take(n);
        assert(forall|i: int| 0 <= i < n - 1 ==> front[i] == all[i]);
        if front.no_duplicates() && !front.contains(ids[n - 1]) {
            assert forall|i: int, j: int| 0 <= i < all.len() && 0 <= j < all.len() && i
                != j implies all[i] != all[j] by {
                if i == n - 1 {
                    assert(front[j] == all[j]);
                    assert(front.contains(front[j]));
                } else if j == n - 1 {
                    assert(front[i] == all[i]);
                    assert(front.contains(front[i]));
                } else {
                    assert(front[i] == all[i] && front[j] == all[j]);
                }
            }
        }
        if all.no_duplicates() {
            assert forall|i: int, j: int| 0 <= i < front.len() && 0 <= j < front.len() && i
                != j implies front[i] != front[j] by {
                assert(front[i] == all[i] && front[j] == all[j]);
            }
            if front.contains(ids[n - 1]) {
                let i = choose|i: int| 0 <= i < front.len() && front[i] == ids[n - 1];
                assert(all[i] == all[n - 1]);
            }
        }
    }
}

/// Whether a member is absent or `null`.
pub open spec fn is_unset(value: JsonView, name: Seq<char>) -> bool {
    match value.get(name) {
        Some(held) => held == JsonView::Null,
        None => true,
    }
}

/// Whether a member is absent or `null`.
fn unset(value: &Json, name: &str) -> (found: bool)
    ensures
        found == is_unset(value@, name@),
{
    match value.get(name) {
        Some(held) => held.is_null(),
        None => true,
    }
}

/// An empty list.
fn empty_list() -> (list: Json)
    ensures
        list@ == JsonView::Array(Seq::empty()),
{
    let none: Vec<Json> = Vec::new();
    assert(items_view(none@) =~= Seq::empty());
    Json::Array(none)
}

/// A value with an empty list for a member that is absent or `null`.
pub open spec fn with_list(value: JsonView, name: Seq<char>) -> JsonView {
    if is_unset(value, name) {
        value.with(name, JsonView::Array(Seq::empty()))
    } else {
        value
    }
}

/// Fills in an empty list for a member that is absent or `null`.
fn fill_list(value: &mut Json, name: &str)
    ensures
        final(value)@ == with_list(old(value)@, name@),
{
    if unset(value, name) {
        value.set(name, empty_list());
    }
}

/// A part of an assistant's message: output text has annotations and log
/// probabilities.
pub open spec fn normalized_part(part: JsonView) -> JsonView {
    if part.get_text("type"@) == Some("output_text"@) {
        with_list(with_list(part, "annotations"@), "logprobs"@)
    } else {
        part
    }
}

/// Parts of an assistant's message.
pub open spec fn normalized_parts(parts: Seq<JsonView>) -> Seq<JsonView> {
    Seq::new(parts.len(), |i: int| normalized_part(parts[i]))
}

/// Fills in what some backends omit of a part of an assistant's message.
fn normalize_assistant_part(part: &mut Json)
    ensures
        final(part)@ == normalized_part(old(part)@),
{
    let is_text = match part.get_str("type") {
        Some(kind) => same_text(kind, "output_text"),
        None => false,
    };
    if is_text {
        fill_list(part, "annotations");
        fill_list(part, "logprobs");
    }
}

/// Fills in the optional fields that some backends omit or send as `null` on
/// assistant text parts.
pub fn normalize_assistant_content_parts(parts: &mut Vec<Json>)
    ensures
        items_view(final(parts)@) == normalized_parts(items_view(old(parts)@)),
{
    let ghost start = items_view(parts@);
    let ghost all = normalized_parts(start);
    let mut i: usize = 0;
    while i < parts.len()
        invariant
            all == normalized_parts(start),
            start.len() == parts@.len(),
            i <= parts.len(),
            forall|j: int| 0 <= j < i ==> (#[trigger] parts@[j])@ == all[j],
            forall|j: int| i <= j < parts@.len() ==> (#[trigger] parts@[j])@ == start[j],
        decreases parts.len() - i,
    {
        let ghost before = parts@;
        normalize_assistant_part(&mut parts[i]);
        assert(forall|j: int| 0 <= j < parts@.len() && j != i ==> parts@[j] == before[j]);
        i = i + 1;
    }
    assert(items_view(parts@) =~= all);
}

/// The only part of a message that was given as text.
pub open spec fn text_part(role: Seq<char>, text: Seq<char>) -> JsonView {
    let kind = if role == "assistant"@ {
        "output_text"@
    } else {
        "input_text"@
    };
    let plain: Members = Seq::empty().push(("type"@, JsonView::String(kind))).push(
        ("text"@, JsonView::String(text)),
    );
    if role == "assistant"@ {
        JsonView::Object(
            plain.push(("annotations"@, JsonView::Array(Seq::empty()))).push(
                ("logprobs"@, JsonView::Array(Seq::empty())),
            ),
        )
    } else {
        JsonView::Object(plain)
    }
}

/// The content of a message in list form.
pub open spec fn normalized_content(role: Seq<char>, content: JsonView) -> Result<
    JsonView,
    Seq<char>,
> {
    match content {
        JsonView::String(text) => Ok(
            JsonView::Array(Seq::empty().push(text_part(role, text))),
        ),
        JsonView::Array(parts) => if role == "assistant"@ {
            Ok(JsonView::Array(normalized_parts(parts)))
        } else {
            Ok(JsonView::Array(parts))
        },
        _ => Err("message content must be a string or array"@),
    }
}

/// Builds the only part of a message that was given as text.
fn build_text_part(role: &str, text: &str) -> (part: Json)
    ensures
        part@ == text_part(role@, text@),
{
    let assistant = same_text(role, "assistant");
    let mut part = no_members();
    push_member(
        &mut part,
        "type",
        string(
            if assistant {
                "output_text"
            } else {
                "input_text"
            },
        ),
    );
    push_member(&mut part, "text", string(text));
    if assistant {
        push_member(&mut part, "annotations", empty_list());
        push_member(&mut part, "logprobs", empty_list());
    }
    Json::Object(part)
}

/// Converts message content to the list form that the API returns.
pub fn normalize_message_content(role: &str, content: Json) -> (result: Result<Json, StoreError>)
    ensures
        match result {
            Ok(value) => normalized_content(role@, content@) == Ok::<JsonView, Seq<char>>(value@),
            Err(error) => normalized_content(role@, content@) == Err::<JsonView, Seq<char>>(
                error_message(error),
            ),
        },
{
    match content {
        Json::String(text) => {
            let mut parts: Vec<Json> = Vec::new();
            assert(items_view(parts@) =~= Seq::empty());
            push_item(&mut parts, build_text_part(role, text.as_str()));
            Ok(Json::Array(parts))
        },
        Json::Array(parts) => {
            let mut parts = parts;
            if same_text(role, "assistant") {
                normalize_assistant_content_parts(&mut parts);
            }
            Ok(Json::Array(parts))
        },
        _ => Err(invalid("message content must be a string or array")),
    }
}

/// The role of a message.
pub open spec fn role_of(item: JsonView) -> Result<Seq<char>, Seq<char>> {
    match item.get("role"@) {
        Some(JsonView::String(role)) => if role.len() > 0 {
            Ok(role)
        } else {
            Err("message role must not be empty"@)
        },
        Some(_) => Err("message role must be a string"@),
        None => Err("message role is required"@),
    }
}

/// An item with a status, where it has none.
pub open spec fn with_status(item: JsonView) -> JsonView {
    if item.get("status"@) is None {
        item.with("status"@, JsonView::String("completed"@))
    } else {
        item
    }
}

/// A message in its normal form: content as a list, and a status. Other items are
/// left.
pub open spec fn normalized_message(item: JsonView) -> Result<JsonView, Seq<char>> {
    if item.get_text("type"@) != Some("message"@) {
        Ok(item)
    } else {
        match role_of(item) {
            Err(message) => Err(message),
            Ok(role) => match item.get("content"@) {
                None => Err("message content is required"@),
                Some(content) => match normalized_content(role, content) {
                    Err(message) => Err(message),
                    Ok(content) => Ok(
                        with_status(item.without("content"@).with("content"@, content)),
                    ),
                },
            },
        }
    }
}

/// The role of a message.
fn read_role(item: &Json) -> (result: Result<String, StoreError>)
    ensures
        match result {
            Ok(role) => role_of(item@) == Ok::<Seq<char>, Seq<char>>(role@),
            Err(error) => role_of(item@) == Err::<Seq<char>, Seq<char>>(error_message(error)),
        },
{
    match item.get("role") {
        Some(Json::String(role)) => if role.as_str().unicode_len() > 0 {
            Ok(role.clone())
        } else {
            Err(invalid("message role must not be empty"))
        },
        Some(_) => Err(invalid("message role must be a string")),
        None => Err(invalid("message role is required")),
    }
}

/// Brings a message into its normal form.
pub fn normalize_message_item(item: Json) -> (result: Result<Json, StoreError>)
    ensures
        match result {
            Ok(value) => normalized_message(item@) == Ok::<JsonView, Seq<char>>(value@),
            Err(error) => normalized_message(item@) == Err::<JsonView, Seq<char>>(
                error_message(error),
            ),
        },
{
    let is_message = match item.get_str("type") {
        Some(kind) => same_text(kind, "message"),
        None => false,
    };
    if !is_message {
        return Ok(item);
    }
    let role = match read_role(&item) {
        Ok(role) => role,
        Err(error) => return Err(error),
    };
    let mut item = item;
    let content = match item.take_member("content") {
        Some(content) => content,
        None => return Err(invalid("message content is required")),
    };
    let content = match normalize_message_content(role.as_str(), content) {
        Ok(content) => content,
        Err(error) => return Err(error),
    };
    item.set("content", content);
    if item.get("status").is_none() {
        item.set("status", string("completed"));
    }
    Ok(item)
}

/// An item whose absent or `null` status is `completed`.
pub open spec fn with_default_status(item: JsonView) -> JsonView {
    if is_unset(item, "status"@) {
        item.with("status"@, JsonView::String("completed"@))
    } else {
        item
    }
}

/// Sets an absent or `null` status to `completed`.
fn default_item_status(item: &mut Json)
    ensures
        final(item)@ == with_default_status(old(item)@),
{
    if unset(item, "status") {
        item.set("status", string("completed"));
    }
}

/// The id of an item; `None` where one has to be generated.
pub open spec fn given_id(item: JsonView) -> Result<Option<Seq<char>>, Seq<char>> {
    match item.get("id"@) {
        Some(JsonView::String(id)) => if id.len() > 0 {
            Ok(Some(id))
        } else {
            Err("item id must not be empty"@)
        },
        Some(JsonView::Null) => Ok(None),
        None => Ok(None),
        Some(_) => Err("item id must be a string"@),
    }
}

/// An item in its normal form with its id, where `generated` is the id of an item
/// that has none. Its schema was not looked at.
pub open spec fn prepared_item(item: JsonView, generated: Seq<char>) -> Result<
    (Seq<char>, JsonView),
    Seq<char>,
> {
    if !(item is Object) {
        Err("each item must be a JSON object"@)
    } else {
        match given_id(item) {
            Err(message) => Err(message),
            Ok(given) => {
                let id = match given {
                    Some(id) => id,
                    None => generated,
                };
                match normalized_message(item.with("id"@, JsonView::String(id))) {
                    Err(message) => Err(message),
                    Ok(normal) => Ok((id, with_default_status(normal))),
                }
            },
        }
    }
}

/// What validating a normalized item against its schema came to.
pub open spec fn verdict_view(verdict: Result<(), String>) -> Result<(), Seq<char>> {
    match verdict {
        Ok(_) => Ok(()),
        Err(message) => Err(message@),
    }
}

/// An item in its normal form with its id, where `verdict` is what validating that
/// form against its schema came to.
pub open spec fn normalized_item(
    item: JsonView,
    generated: Seq<char>,
    verdict: Result<(), Seq<char>>,
) -> Result<(Seq<char>, JsonView), Seq<char>> {
    match prepared_item(item, generated) {
        Err(message) => Err(message),
        Ok(prepared) => match verdict {
            Ok(_) => Ok(prepared),
            Err(message) => Err(message),
        },
    }
}

/// Whether an item needs a generated id.
pub open spec fn needs_id(item: JsonView) -> bool {
    item is Object && given_id(item) == Ok::<Option<Seq<char>>, Seq<char>>(None)
}

/// Ensures that an item is an object, has an id, and is in its normal form.
///
/// The result also tells whether the generated id was used. The schema of the
/// normal form is not looked at.
pub fn prepare_item(item: Json, generated: &str) -> (result: Result<
    (String, Json, bool),
    StoreError,
>)
    ensures
        match result {
            Ok((id, normal, used)) => prepared_item(item@, generated@) == Ok::<
                (Seq<char>, JsonView),
                Seq<char>,
            >((id@, normal@)) && used == needs_id(item@),
            Err(error) => prepared_item(item@, generated@) == Err::<
                (Seq<char>, JsonView),
                Seq<char>,
            >(error_message(error)),
        },
{
    if !item.is_object() {
        return Err(invalid("each item must be a JSON object"));
    }
    let (id, used) = match item.get("id") {
        Some(Json::String(id)) => if id.as_str().unicode_len() > 0 {
            (id.clone(), false)
        } else {
            return Err(invalid("item id must not be empty"));
        },
        Some(Json::Null) => (generated.to_owned(), true),
        None => (generated.to_owned(), true),
        Some(_) => return Err(invalid("item id must be a string")),
    };
    let mut item = item;
    item.set("id", string(id.as_str()));
    let mut normal = match normalize_message_item(item) {
        Ok(normal) => normal,
        Err(error) => return Err(error),
    };
    default_item_status(&mut normal);
    Ok((id, normal, used))
}

/// Brings an item into its normal form, and refuses one whose normal form does not
/// match its schema. `verdict` is what validating the normal form that
/// [`prepare_item`] gives came to.
///
/// The result also tells whether the generated id was used.
pub fn normalize_item(item: Json, generated: &str, verdict: &Result<(), String>) -> (result: Result<
    (String, Json, bool),
    StoreError,
>)
    ensures
        match result {
            Ok((id, normal, used)) => normalized_item(
                item@,
                generated@,
                verdict_view(*verdict),
            ) == Ok::<(Seq<char>, JsonView), Seq<char>>((id@, normal@)) && used == needs_id(item@),
            Err(error) => normalized_item(item@, generated@, verdict_view(*verdict)) == Err::<
                (Seq<char>, JsonView),
                Seq<char>,
            >(error_message(error)),
        },
{
    match prepare_item(item, generated) {
        Ok(prepared) => match verdict {
            Ok(_) => Ok(prepared),
            Err(message) => Err(StoreError::InvalidInput(message.clone())),
        },
        Err(error) => Err(error),
    }
}

/// The sum of a position and an offset, at most the largest position.
pub open spec fn position_at(start: i64, offset: int) -> i64 {
    let bounded = if offset <= i64::MAX {
        offset
    } else {
        i64::MAX as int
    };
    if start + bounded <= i64::MAX {
        (start + bounded) as i64
    } else {
        i64::MAX
    }
}

/// What all records of one request have in common.
pub struct RecordBase<'a> {
    /// Whose items they are.
    pub owner: &'a StateOwner,
    /// The conversation that they belong to.
    pub conversation_id: &'a str,
    /// When they were created.
    pub created_at: i64,
    /// The position of the first.
    pub start_position: i64,
}

/// The number of ids that the first `n` items use of those generated.
pub open spec fn ids_used(items: Seq<JsonView>, n: int) -> nat
    decreases n,
{
    if n <= 0 {
        0
    } else {
        ids_used(items, n - 1) + if needs_id(items[n - 1]) {
            1nat
        } else {
            0nat
        }
    }
}

/// No more ids are used than there are items.
proof fn lemma_ids_used(items: Seq<JsonView>, n: int)
    requires
        0 <= n,
    ensures
        ids_used(items, n) <= n,
    decreases n,
{
    if n > 0 {
        lemma_ids_used(items, n - 1);
    }
}

/// The records of the first `n` items, or the first reason why an item is
/// refused. Items without an id take the generated ids in order; each normal form
/// has its own verdict.
pub open spec fn records_of(
    owner: OwnerView,
    conversation_id: Seq<char>,
    created_at: i64,
    start_position: i64,
    items: Seq<JsonView>,
    generated: Seq<Seq<char>>,
    verdicts: Seq<Result<(), String>>,
    n: int,
) -> Result<Seq<ItemRecordView>, Seq<char>>
    decreases n,
{
    if n <= 0 {
        Ok(Seq::empty())
    } else {
        match records_of(
            owner,
            conversation_id,
            created_at,
            start_position,
            items,
            generated,
            verdicts,
            n - 1,
        ) {
            Err(message) => Err(message),
            Ok(front) => match normalized_item(
                items[n - 1],
                generated[ids_used(items, n - 1) as int],
                verdict_view(verdicts[n - 1]),
            ) {
                Err(message) => Err(message),
                Ok((item_id, item_data)) => Ok(
                    front.push(
                        ItemRecordView {
                            item_id,
                            owner,
                            conversation_id,
                            item_data,
                            created_at,
                            position: position_at(start_position, n - 1),
                        },
                    ),
                ),
            },
        }
    }
}

/// A refused item refuses the request.
proof fn lemma_records_stay(
    owner: OwnerView,
    conversation_id: Seq<char>,
    created_at: i64,
    start_position: i64,
    items: Seq<JsonView>,
    generated: Seq<Seq<char>>,
    verdicts: Seq<Result<(), String>>,
    n: int,
    m: int,
)
    requires
        0 <= n <= m,
        records_of(owner, conversation_id, created_at, start_position, items, generated, verdicts, n) is Err,
    ensures
        records_of(owner, conversation_id, created_at, start_position, items, generated, verdicts, m)
            == records_of(
            owner,
            conversation_id,
            created_at,
            start_position,
            items,
            generated,
            verdicts,
            n,
        ),
    decreases m,
{
    if n < m {
        lemma_records_stay(
            owner,
            conversation_id,
            created_at,
            start_position,
            items,
            generated,
            verdicts,
            n,
            m - 1,
        );
    }
}

/// Computes the position of an item.
fn item_position(start: i64, index: usize) -> (position: i64)
    ensures
        position == position_at(start, index as int),
{
    let offset: i64 = if index as u64 <= i64::MAX as u64 {
        index as i64
    } else {
        i64::MAX
    };
    if start > 0 && offset > i64::MAX - start {
        i64::MAX
    } else {
        start + offset
    }
}

/// Builds store records for conversation items.
///
/// `generated` holds fresh ids for items that have none; a request of so many items
/// needs at most as many. `verdicts` holds for each item what validating its normal
/// form against its schema came to.
pub fn build_item_records(
    base: &RecordBase<'_>,
    items: &Vec<Json>,
    generated: &Vec<String>,
    verdicts: &Vec<Result<(), String>>,
) -> (result: Result<Vec<ConversationItemRecord>, StoreError>)
    requires
        generated.len() >= items.len(),
        verdicts.len() >= items.len(),
    ensures
        ({
            let expected = records_of(
                base.owner@,
                base.conversation_id@,
                base.created_at,
                base.start_position,
                items_view(items@),
                crate::openai::state::texts_view(generated@),
                verdicts@,
                items@.len() as int,
            );
            match result {
                Ok(records) => expected == Ok::<Seq<ItemRecordView>, Seq<char>>(
                    records_view(records@),
                ),
                Err(error) => expected == Err::<Seq<ItemRecordView>, Seq<char>>(
                    error_message(error),
                ),
            }
        }),
{
    let ghost owner = base.owner@;
    let ghost conversation = base.conversation_id@;
    let ghost created = base.created_at;
    let ghost start = base.start_position;
    let ghost view = items_view(items@);
    let ghost ids = crate::openai::state::texts_view(generated@);
    let mut records: Vec<ConversationItemRecord> = Vec::new();
    let mut used: usize = 0;
    let mut i: usize = 0;
    assert(records_view(records@) =~= Seq::empty());
    while i < items.len()
        invariant
            owner == base.owner@,
            conversation == base.conversation_id@,
            created == base.created_at,
            start == base.start_position,
            view == items_view(items@),
            view.len() == items@.len(),
            ids == crate::openai::state::texts_view(generated@),
            generated.len() >= items.len(),
            verdicts.len() >= items.len(),
            i <= items.len(),
            used == ids_used(view, i as int),
            used <= i,
            records_of(owner, conversation, created, start, view, ids, verdicts@, i as int) == Ok::<
                Seq<ItemRecordView>,
                Seq<char>,
            >(records_view(records@)),
        decreases items.len() - i,
    {
        let ghost front = records_view(records@);
        assert(items@[i as int]@ == view[i as int]);
        assert(ids[used as int] == generated@[used as int]@);
        match normalize_item(items[i].clone(), generated[used].as_str(), &verdicts[i]) {
            Ok((item_id, item_data, took)) => {
                if took {
                    used = used + 1;
                }
                let record = ConversationItemRecord {
                    item_id,
                    owner: base.owner.clone(),
                    conversation_id: base.conversation_id.to_owned(),
                    item_data,
                    created_at: base.created_at,
                    position: item_position(base.start_position, i),
                };
                records.push(record);
                assert(records_view(records@) =~= front.push(record@));
            },
            Err(error) => {
                proof {
                    lemma_records_stay(
                        owner,
                        conversation,
                        created,
                        start,
                        view,
                        ids,
                        verdicts@,
                        i + 1,
                        view.len() as int,
                    );
                }
                return Err(error);
            },
        }
        i = i + 1;
    }
    Ok(records)
}

/// Every record of a request belongs to the owner and the conversation it was made
/// for, and stands at the position of its item.
pub proof fn lemma_records_belong_to_owner(
    owner: OwnerView,
    conversation_id: Seq<char>,
    created_at: i64,
    start_position: i64,
    items: Seq<JsonView>,
    generated: Seq<Seq<char>>,
    verdicts: Seq<Result<(), String>>,
    n: int,
)
    requires
        0 <= n <= items.len(),
        records_of(owner, conversation_id, created_at, start_position, items, generated, verdicts, n) is Ok,
    ensures
        ({
            let records = records_of(
                owner,
                conversation_id,
                created_at,
                start_position,
                items,
                generated,
                verdicts,
                n,
            )->Ok_0;
            &&& records.len() == n
            &&& forall|i: int|
                0 <= i < n ==> {
                    let record = #[trigger] records[i];
                    &&& record.owner == owner
                    &&& record.conversation_id == conversation_id
                    &&& record.created_at == created_at
                    &&& record.position == position_at(start_position, i)
                }
        }),
    decreases n,
{
    if n > 0 {
        lemma_records_belong_to_owner(
            owner,
            conversation_id,
            created_at,
            start_position,
            items,
            generated,
            verdicts,
            n - 1,
        );
    }
}

/// A normalized item is an object that carries its id, and a status that is not
/// `null`.
pub proof fn lemma_normalized_item_is_complete(
    item: Members,
    generated: Seq<char>,
    verdict: Result<(), Seq<char>>,
)
    requires
        distinct_names(item),
        normalized_item(JsonView::Object(item), generated, verdict) is Ok,
    ensures
        ({
            let (id, normal) = normalized_item(JsonView::Object(item), generated, verdict)->Ok_0;
            &&& normal is Object
            &&& normal.get_text("id"@) == Some(id)
            &&& !is_unset(normal, "status"@)
        }),
{
    reveal_strlit("id");
    reveal_strlit("status");
    reveal_strlit("content");
    assert("id"@.len() == 2);
    assert("status"@.len() == 6);
    assert("content"@.len() == 7);
    let object = JsonView::Object(item);
    let (id, normal) = normalized_item(object, generated, verdict)->Ok_0;
    let named = object.with("id"@, JsonView::String(id));
    let members = with_member(item, "id"@, JsonView::String(id));
    lemma_get_with(object, "id"@, JsonView::String(id));
    lemma_with_stays_distinct(item, "id"@, JsonView::String(id));
    let message = normalized_message(named)->Ok_0;
    assert(message is Object);
    if named.get_text("type"@) == Some("message"@) {
        let content = normalized_content(
            role_of(named)->Ok_0,
            named.get("content"@)->0,
        )->Ok_0;
        let bare = named.without("content"@);
        lemma_member_without_other(members, "content"@, "id"@);
        lemma_get_with_other(bare, "content"@, content, "id"@);
        lemma_get_with_other(
            bare.with("content"@, content),
            "status"@,
            JsonView::String("completed"@),
            "id"@,
        );
    }
    lemma_get_with(message, "status"@, JsonView::String("completed"@));
    lemma_get_with_other(message, "status"@, JsonView::String("completed"@), "id"@);
}

/// Whether a part of an assistant's message still says what it said: members are
/// only filled in, and only the two lists that output text carries.
pub open spec fn keeps_part(given: JsonView, kept: JsonView) -> bool {
    &&& forall|name: Seq<char>|
        #![trigger kept.get(name)]
        name != "annotations"@ && name != "logprobs"@ ==> kept.get(name) == given.get(name)
    &&& forall|name: Seq<char>|
        #![trigger given.get(name)]
        given.get(name) is Some && given.get(name)->0 != JsonView::Null ==> kept.get(name)
            == given.get(name)
    &&& given.get("type"@) != Some(JsonView::String("output_text"@)) ==> kept == given
    &&& given.get("type"@) == Some(JsonView::String("output_text"@)) ==> {
        &&& given.get("annotations"@) is None ==> kept.get("annotations"@) == Some(
            JsonView::Array(Seq::empty()),
        )
        &&& given.get("logprobs"@) is None ==> kept.get("logprobs"@) == Some(
            JsonView::Array(Seq::empty()),
        )
        &&& kept.get("annotations"@) != Some(JsonView::Null)
        &&& kept.get("logprobs"@) != Some(JsonView::Null)
    }
}

/// Whether the content of a message still says what it said: a text is the only
/// part, a list has its parts one by one.
pub open spec fn keeps_content(role: Seq<char>, given: JsonView, kept: JsonView) -> bool {
    &&& kept is Array
    &&& match given {
        JsonView::String(text) => {
            let parts = kept->Array_0;
            &&& parts.len() == 1
            &&& parts[0].get("text"@) == Some(JsonView::String(text))
            &&& parts[0].get("type"@) == Some(
                JsonView::String(
                    if role == "assistant"@ {
                        "output_text"@
                    } else {
                        "input_text"@
                    },
                ),
            )
        },
        JsonView::Array(parts) => {
            &&& kept->Array_0.len() == parts.len()
            &&& role != "assistant"@ ==> kept->Array_0 == parts
            &&& role == "assistant"@ ==> forall|i: int|
                0 <= i < parts.len() ==> keeps_part(#[trigger] parts[i], kept->Array_0[i])
        },
        _ => false,
    }
}

/// Whether an item still says what it said: only its id, its status and the form of
/// a message's content may have changed.
pub open spec fn keeps_item(given: JsonView, kept: JsonView) -> bool {
    &&& kept is Object
    &&& forall|name: Seq<char>|
        #![trigger kept.get(name)]
        name != "id"@ && name != "status"@ && name != "content"@ ==> kept.get(name) == given.get(
            name,
        )
    &&& given.get("type"@) != Some(JsonView::String("message"@)) ==> kept.get("content"@)
        == given.get("content"@)
    &&& given.get("type"@) == Some(JsonView::String("message"@)) ==> {
        &&& given.get("role"@) is Some && given.get("role"@)->0 is String
        &&& given.get("content"@) is Some && kept.get("content"@) is Some
        &&& keeps_content(
            given.get("role"@)->0->String_0,
            given.get("content"@)->0,
            kept.get("content"@)->0,
        )
    }
    &&& match given.get("status"@) {
        Some(JsonView::Null) => kept.get("status"@) == Some(JsonView::String("completed"@)),
        Some(status) => kept.get("status"@) == Some(status),
        None => kept.get("status"@) == Some(JsonView::String("completed"@)),
    }
}

/// An empty list is filled in only where nothing was.
proof fn lemma_list_filled(value: JsonView, name: Seq<char>)
    ensures
        forall|other: Seq<char>|
            #![trigger with_list(value, name).get(other)]
            other != name ==> with_list(value, name).get(other) == value.get(other),
        value.get(name) is Some && value.get(name)->0 != JsonView::Null ==> with_list(
            value,
            name,
        ) == value,
        value is Object && is_unset(value, name) ==> with_list(value, name).get(name) == Some(
            JsonView::Array(Seq::empty()),
        ),
        value is Object ==> with_list(value, name) is Object,
{
    let empty = JsonView::Array(Seq::empty());
    assert forall|other: Seq<char>| other != name implies #[trigger] with_list(value, name).get(
        other,
    ) == value.get(other) by {
        lemma_get_with_other(value, name, empty, other);
    }
    if value is Object {
        lemma_get_with(value, name, empty);
    }
}

/// What becomes of a part of an assistant's message.
proof fn lemma_part_is_kept(part: JsonView)
    ensures
        keeps_part(part, normalized_part(part)),
{
    reveal_strlit("annotations");
    reveal_strlit("logprobs");
    assert("annotations"@.len() == 11 && "logprobs"@.len() == 8);
    let first = with_list(part, "annotations"@);
    lemma_list_filled(part, "annotations"@);
    lemma_list_filled(first, "logprobs"@);
}

/// What becomes of a message's content.
proof fn lemma_content_is_kept(role: Seq<char>, content: JsonView)
    ensures
        match normalized_content(role, content) {
            Ok(kept) => keeps_content(role, content, kept),
            Err(_) => !(content is String) && !(content is Array),
        },
{
    match content {
        JsonView::String(text) => {
            reveal_strlit("type");
            reveal_strlit("text");
            assert("type"@[1] == 'y' && "text"@[1] == 'e');
            let part = text_part(role, text);
            lemma_position_is(part->Object_0, "type"@, 0);
            lemma_position_is(part->Object_0, "text"@, 1);
        },
        JsonView::Array(parts) => {
            assert forall|i: int| 0 <= i < parts.len() implies keeps_part(
                #[trigger] parts[i],
                normalized_parts(parts)[i],
            ) by {
                lemma_part_is_kept(parts[i]);
            }
        },
        _ => {},
    }
}

/// The normal form of an item loses nothing: every member but the id, the status
/// and a message's content stands as it was given, the content keeps its text or its
/// parts one by one, and an id or a status that was given stays.
///
/// An item is refused exactly where it is no object, where its id is empty or no
/// text, where it is a message without a role or with content that is neither text
/// nor list, or where its schema was found violated.
pub proof fn lemma_normal_form_keeps_item(
    item: Members,
    generated: Seq<char>,
    verdict: Result<(), Seq<char>>,
)
    requires
        distinct_names(item),
    ensures
        ({
            let given = JsonView::Object(item);
            let bad_id = match given.get("id"@) {
                Some(JsonView::String(id)) => id.len() == 0,
                Some(JsonView::Null) => false,
                Some(_) => true,
                None => false,
            };
            let bad_message = given.get("type"@) == Some(JsonView::String("message"@)) && !{
                &&& given.get("role"@) is Some && given.get("role"@)->0 is String
                    && given.get("role"@)->0->String_0.len() > 0
                &&& given.get("content"@) is Some && (given.get("content"@)->0 is String
                    || given.get("content"@)->0 is Array)
            };
            match normalized_item(given, generated, verdict) {
                Ok((id, kept)) => {
                    &&& !bad_id && !bad_message && verdict is Ok
                    &&& keeps_item(given, kept)
                    &&& kept.get("id"@) == Some(JsonView::String(id))
                    &&& match given.get("id"@) {
                        Some(JsonView::String(given)) => id == given,
                        _ => id == generated,
                    }
                },
                Err(_) => bad_id || bad_message || verdict is Err,
            }
        }),
{
    reveal_strlit("id");
    reveal_strlit("status");
    reveal_strlit("content");
    reveal_strlit("type");
    reveal_strlit("role");
    assert("id"@.len() == 2 && "status"@.len() == 6 && "content"@.len() == 7);
    assert("type"@.len() == 4 && "role"@.len() == 4);
    let given = JsonView::Object(item);
    if let Ok(chosen) = given_id(given) {
        let id = match chosen {
            Some(id) => id,
            None => generated,
        };
        let value = JsonView::String(id);
        let named = given.with("id"@, value);
        let members = with_member(item, "id"@, value);
        lemma_with_stays_distinct(item, "id"@, value);
        lemma_get_with(given, "id"@, value);
        assert forall|name: Seq<char>| name != "id"@ implies #[trigger] named.get(name)
            == given.get(name) by {
            lemma_get_with_other(given, "id"@, value, name);
        }
        assert(named.get("type"@) == given.get("type"@));
        assert(named.get("role"@) == given.get("role"@));
        assert(named.get("content"@) == given.get("content"@));
        assert(named.get("status"@) == given.get("status"@));
        if named.get_text("type"@) == Some("message"@) && role_of(named) is Ok && named.get(
            "content"@,
        ) is Some {
            let role = role_of(named)->Ok_0;
            lemma_content_is_kept(role, named.get("content"@)->0);
            if let Ok(content) = normalized_content(role, named.get("content"@)->0) {
                let bare = named.without("content"@);
                let filled = bare.with("content"@, content);
                lemma_get_with(bare, "content"@, content);
                assert forall|name: Seq<char>| name != "content"@ implies #[trigger] filled.get(
                    name,
                ) == named.get(name) by {
                    lemma_member_without_other(members, "content"@, name);
                    lemma_get_with_other(bare, "content"@, content, name);
                }
                lemma_status_is_filled(filled);
                assert(filled.get("status"@) == given.get("status"@));
                assert(filled.get("id"@) == Some(value));
            }
        } else {
            lemma_status_is_filled(named);
        }
    }
}

/// A status is filled in only where none was given, and nothing else changes.
proof fn lemma_status_is_filled(item: JsonView)
    requires
        item is Object,
    ensures
        ({
            let once = with_status(item);
            let kept = with_default_status(once);
            let plain = with_default_status(item);
            &&& kept is Object && plain is Object
            &&& forall|name: Seq<char>|
                #![trigger kept.get(name)]
                name != "status"@ ==> kept.get(name) == item.get(name)
            &&& forall|name: Seq<char>|
                #![trigger plain.get(name)]
                name != "status"@ ==> plain.get(name) == item.get(name)
            &&& kept.get("status"@) == plain.get("status"@)
            &&& match item.get("status"@) {
                Some(JsonView::Null) => kept.get("status"@) == Some(
                    JsonView::String("completed"@),
                ),
                Some(status) => kept.get("status"@) == Some(status),
                None => kept.get("status"@) == Some(JsonView::String("completed"@)),
            }
        }),
{
    let done = JsonView::String("completed"@);
    let once = with_status(item);
    lemma_get_with(item, "status"@, done);
    lemma_get_with(once, "status"@, done);
    assert forall|name: Seq<char>| name != "status"@ implies #[trigger] with_default_status(
        once,
    ).get(name) == item.get(name) by {
        lemma_get_with_other(item, "status"@, done, name);
        lemma_get_with_other(once, "status"@, done, name);
    }
    assert forall|name: Seq<char>| name != "status"@ implies #[trigger] with_default_status(
        item,
    ).get(name) == item.get(name) by {
        lemma_get_with_other(item, "status"@, done, name);
    }
}

/// How many of the first `n` items were given without an id.
pub open spec fn missing_ids(items: Seq<JsonView>, n: int) -> nat
    decreases n,
{
    if n <= 0 {
        0
    } else if items[n - 1].get("id"@) is None || items[n - 1].get("id"@) == Some(JsonView::Null) {
        missing_ids(items, n - 1) + 1
    } else {
        missing_ids(items, n - 1)
    }
}

/// The records of a request hold its items one by one and in order: each says what
/// its item said, under the id that the item gave or else the next generated one.
pub proof fn lemma_records_hold_items(
    owner: OwnerView,
    conversation_id: Seq<char>,
    created_at: i64,
    start_position: i64,
    items: Seq<JsonView>,
    generated: Seq<Seq<char>>,
    verdicts: Seq<Result<(), String>>,
    n: int,
)
    requires
        0 <= n <= items.len(),
        forall|i: int|
            0 <= i < items.len() && #[trigger] items[i] is Object ==> distinct_names(
                items[i]->Object_0,
            ),
        records_of(owner, conversation_id, created_at, start_position, items, generated, verdicts, n) is Ok,
    ensures
        ({
            let records = records_of(
                owner,
                conversation_id,
                created_at,
                start_position,
                items,
                generated,
                verdicts,
                n,
            )->Ok_0;
            &&& records.len() == n
            &&& forall|i: int|
                0 <= i < n ==> {
                    let record = #[trigger] records[i];
                    &&& keeps_item(items[i], record.item_data)
                    &&& record.item_data.get("id"@) == Some(JsonView::String(record.item_id))
                    &&& match items[i].get("id"@) {
                        Some(JsonView::String(given)) => record.item_id == given,
                        _ => record.item_id == generated[missing_ids(items, i) as int],
                    }
                }
            &&& ids_used(items, n) == missing_ids(items, n)
            &&& missing_ids(items, n) <= n
        }),
    decreases n,
{
    lemma_ids_used(items, n);
    if n > 0 {
        lemma_records_hold_items(
            owner,
            conversation_id,
            created_at,
            start_position,
            items,
            generated,
            verdicts,
            n - 1,
        );
        let item = items[n - 1];
        let id = generated[ids_used(items, n - 1) as int];
        assert(item is Object);
        lemma_normal_form_keeps_item(item->Object_0, id, verdict_view(verdicts[n - 1]));
    }
}

/// Whether an item can be stored: it is an object, its id is absent, `null` or a text
/// that is not empty, and a message has a role and its content as a text or a list.
pub open spec fn can_be_stored(item: JsonView) -> bool {
    &&& item is Object
    &&& match item.get("id"@) {
        None => true,
        Some(JsonView::Null) => true,
        Some(JsonView::String(id)) => id.len() > 0,
        _ => false,
    }
    &&& item.get("type"@) == Some(JsonView::String("message"@)) ==> {
        &&& match item.get("role"@) {
            Some(JsonView::String(role)) => role.len() > 0,
            _ => false,
        }
        &&& match item.get("content"@) {
            Some(JsonView::String(_)) => true,
            Some(JsonView::Array(_)) => true,
            _ => false,
        }
    }
}

/// An item is refused exactly where it cannot be stored or its schema refuses its
/// normal form.
pub proof fn lemma_storable_item_is_accepted(
    item: JsonView,
    generated: Seq<char>,
    verdict: Result<(), Seq<char>>,
)
    ensures
        prepared_item(item, generated) is Ok <==> can_be_stored(item),
        normalized_item(item, generated, verdict) is Ok <==> can_be_stored(item) && verdict is Ok,
{
    if item is Object {
        reveal_strlit("id");
        reveal_strlit("type");
        reveal_strlit("role");
        reveal_strlit("content");
        assert("id"@.len() == 2 && "type"@.len() == 4 && "role"@.len() == 4);
        assert("content"@.len() == 7);
        if let Ok(given) = given_id(item) {
            let id = match given {
                Some(id) => id,
                None => generated,
            };
            let value = JsonView::String(id);
            lemma_get_with_other(item, "id"@, value, "type"@);
            lemma_get_with_other(item, "id"@, value, "role"@);
            lemma_get_with_other(item, "id"@, value, "content"@);
        }
    }
}

/// The items of a request are stored, or refused as a whole: exactly where one of them
/// cannot be stored or is refused by its schema.
pub proof fn lemma_storable_items_are_accepted(
    owner: OwnerView,
    conversation_id: Seq<char>,
    created_at: i64,
    start_position: i64,
    items: Seq<JsonView>,
    generated: Seq<Seq<char>>,
    verdicts: Seq<Result<(), String>>,
    n: int,
)
    requires
        0 <= n <= items.len(),
    ensures
        records_of(owner, conversation_id, created_at, start_position, items, generated, verdicts, n)
            is Ok <==> forall|i: int|
            0 <= i < n ==> can_be_stored(#[trigger] items[i]) && verdicts[i] is Ok,
    decreases n,
{
    if n > 0 {
        lemma_storable_items_are_accepted(
            owner,
            conversation_id,
            created_at,
            start_position,
            items,
            generated,
            verdicts,
            n - 1,
        );
        lemma_storable_item_is_accepted(
            items[n - 1],
            generated[ids_used(items, n - 1) as int],
            verdict_view(verdicts[n - 1]),
        );
        let accepted = records_of(
            owner,
            conversation_id,
            created_at,
            start_position,
            items,
            generated,
            verdicts,
            n,
        ) is Ok;
        if forall|i: int| 0 <= i < n ==> can_be_stored(#[trigger] items[i]) && verdicts[i] is Ok {
            assert(can_be_stored(items[n - 1]) && verdicts[n - 1] is Ok);
            assert forall|i: int| 0 <= i < n - 1 implies can_be_stored(#[trigger] items[i])
                && verdicts[i] is Ok by {}
            assert(records_of(
                owner,
                conversation_id,
                created_at,
                start_position,
                items,
                generated,
                verdicts,
                n - 1,
            ) is Ok);
            assert(verdict_view(verdicts[n - 1]) is Ok);
            assert(normalized_item(
                items[n - 1],
                generated[ids_used(items, n - 1) as int],
                verdict_view(verdicts[n - 1]),
            ) is Ok);
            assert(accepted);
        }
        if accepted {
            assert forall|i: int| 0 <= i < n implies can_be_stored(#[trigger] items[i])
                && verdicts[i] is Ok by {
                if i == n - 1 {
                    assert(can_be_stored(items[n - 1]));
                }
            }
        }
    }
}

/// Items stand one behind the other, from the position that the first one is given,
/// as long as there are positions.
pub proof fn lemma_positions_are_consecutive(start: i64, i: int)
    requires
        0 <= i,
    ensures
        start + i <= i64::MAX && i <= i64::MAX ==> position_at(start, i) == start + i,
        start >= 0 && start + i > i64::MAX ==> position_at(start, i) == i64::MAX,
{
}

/// The first repeated id is found: it stands at an earlier position too, and no id
/// before it is repeated; none is found exactly where all are different.
pub proof fn lemma_first_repeat(ids: Seq<Seq<char>>, n: int)
    requires
        0 <= n <= ids.len(),
    ensures
        match first_repeat(ids, n) {
            Some(at) => {
                &&& 0 <= at < n
                &&& exists|i: int| 0 <= i < at && #[trigger] ids[i] == ids[at]
                &&& forall|i: int, j: int| 0 <= i < j < at ==> #[trigger] ids[i] != #[trigger] ids[j]
            },
            None => forall|i: int, j: int|
                0 <= i < j < n ==> #[trigger] ids[i] != #[trigger] ids[j],
        },
    decreases n,
{
    if n > 0 {
        lemma_first_repeat(ids, n - 1);
        let front = ids.take(n - 1);
        if first_repeat(ids, n - 1) is None {
            if front.contains(ids[n - 1]) {
                let i = choose|i: int| 0 <= i < front.len() && front[i] == ids[n - 1];
                assert(ids[i] == ids[n - 1]);
            } else {
                assert forall|i: int, j: int| 0 <= i < j < n implies #[trigger] ids[i]
                    != #[trigger] ids[j] by {
                    if j == n - 1 {
                        assert(front[i] == ids[i]);
                    }
                }
            }
        }
    }
}

} // verus!
