//! Records of conversation items.

use praxis_apis::json::Json;
use praxis_apis::json_text::{bytes_of, parse_json};
use praxis_apis::service::conversations::{
    build_item_records, duplicate_item_id, prepare_item, validate_item_count, RecordBase, StoreError,
};
use praxis_apis::state_owner::StateOwner;

/// The value that a text holds.
fn j(text: &str) -> Json {
    parse_json(text.as_bytes()).unwrap()
}

/// The same value, to be looked into.
fn v(value: &Json) -> serde_json::Value {
    serde_json::from_slice(&bytes_of(value)).unwrap()
}

fn empty_list() -> serde_json::Value {
    serde_json::Value::Array(Vec::new())
}

/// A validated owner of a fixed tenant and issuer.
fn owner(subject: &str) -> StateOwner {
    StateOwner::from_trusted_parts("tenant-a".to_owned(), "issuer-a".to_owned(), subject.to_owned())
        .ok()
        .unwrap()
}

fn base(owner: &StateOwner, start_position: i64) -> RecordBase<'_> {
    RecordBase { owner, conversation_id: "conv_1", created_at: 1000, start_position }
}

/// Sequential item ids.
fn counter() -> Vec<String> {
    (1..=20).map(|n| format!("item_{n}")).collect()
}

/// Every item matches its schema.
fn accepted() -> Vec<Result<(), String>> {
    (0..20).map(|_| Ok(())).collect()
}

#[test]
fn build_item_records_generates_ids_for_items_without_them() {
    let o = owner("alice");
    let records = build_item_records(&base(&o, 0), &vec![j(r#"{"type": "message", "role": "user", "content": "hi"}"#)], &counter(), &accepted())
    .ok().unwrap();
    assert_eq!(records.len(), 1);
    assert_eq!(records[0].item_id, "item_1");
    assert_eq!(records[0].conversation_id, "conv_1");
    assert_eq!(records[0].owner.subject(), o.subject());
    assert_eq!(records[0].position, 0);
    assert_eq!(v(&records[0].item_data)["id"], "item_1");
}

#[test]
fn build_item_records_preserves_explicit_ids_and_positions() {
    let o = owner("alice");
    let records = build_item_records(&base(&o, 5), &vec![
            j(r#"{"id": "given_a", "type": "message", "role": "user", "content": "one"}"#),
            j(r#"{"id": "given_b", "type": "message", "role": "user", "content": "two"}"#),
        ], &counter(), &accepted())
    .ok().unwrap();
    assert_eq!(records[0].item_id, "given_a");
    assert_eq!(records[0].position, 5);
    assert_eq!(records[1].item_id, "given_b");
    assert_eq!(records[1].position, 6);
}

#[test]
fn build_item_records_normalizes_assistant_message_content() {
    let o = owner("alice");
    let records = build_item_records(&base(&o, 0), &vec![j(r#"{"type": "message", "role": "assistant", "content": "done"}"#)], &counter(), &accepted())
    .ok().unwrap();
    let item = v(&records[0].item_data);
    let content = &item["content"][0];
    assert_eq!(content["type"], "output_text");
    assert_eq!(content["text"], "done");
    assert_eq!(content["annotations"], empty_list());
    assert_eq!(content["logprobs"], empty_list());
}

#[test]
fn build_item_records_rejects_non_object_item() {
    let o = owner("alice");
    let err = build_item_records(&base(&o, 0), &vec![j(r#""not an object""#)], &counter(), &accepted()).err().unwrap();
    assert!(matches!(err, StoreError::InvalidInput(_)));
}

#[test]
fn validate_item_count_and_duplicate_detection() {
    validate_item_count(20).ok().unwrap();
    assert!(matches!(validate_item_count(21), Err(StoreError::InvalidInput(_))));

    let o = owner("alice");
    let records = build_item_records(&base(&o, 0), &vec![
            j(r#"{"id": "dup", "type": "message", "role": "user", "content": "a"}"#),
            j(r#"{"id": "dup", "type": "message", "role": "user", "content": "b"}"#),
        ], &counter(), &accepted())
    .ok().unwrap();
    assert_eq!(duplicate_item_id(&records), Some("dup"));
}

#[test]
fn items_that_do_not_match_their_schema_are_refused() {
    let o = owner("alice");
    let items = vec![
        j(r#"{"type": "message", "role": "user", "content": "a"}"#),
        j(r#"{"type": "unheard_of"}"#),
        j("7"),
    ];
    let verdicts = vec![Ok(()), Err("unknown item type".to_owned()), Ok(())];
    match build_item_records(&base(&o, 0), &items, &counter(), &verdicts) {
        Err(StoreError::InvalidInput(message)) => assert_eq!(message, "unknown item type"),
        Ok(_) => panic!("the second item does not match its schema"),
    }
    let verdicts = vec![Ok(()), Ok(()), Err("late".to_owned())];
    match build_item_records(&base(&o, 0), &items, &counter(), &verdicts) {
        Err(StoreError::InvalidInput(message)) => {
            assert_eq!(message, "each item must be a JSON object");
        },
        Ok(_) => panic!("the third item is no object"),
    }
    let (id, normal, used) = prepare_item(j(r#"{"type": "unheard_of"}"#), "fresh").ok().unwrap();
    assert_eq!((id.as_str(), used), ("fresh", true));
    assert_eq!(v(&normal)["status"], "completed");
}
