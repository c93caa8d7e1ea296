//! Results that filters publish for the routing of a request.

use vstd::prelude::*;

use crate::collections::{texts_of_map, TextMap};
use crate::header::{is_safe_promoted_value, is_safe_value};
use crate::text::{byte_len, chars_of, utf8};

verus! {

/// Maximum length of a result key in bytes.
pub const MAX_KEY_LEN: usize = 64;

/// Maximum length of a result value in bytes.
pub const MAX_VALUE_LEN: usize = 256;

/// Maximum number of keys of one filter.
pub const MAX_ENTRIES: usize = 128;

/// Whether a character may stand in a result key.
pub open spec fn is_key_char(c: char) -> bool {
    'a' <= c <= 'z' || 'A' <= c <= 'Z' || '0' <= c <= '9' || c == '_' || c == '-'
}

/// Whether a text may be a result key.
pub open spec fn is_result_key(key: Seq<char>) -> bool {
    &&& 1 <= utf8(key).len() <= MAX_KEY_LEN
    &&& forall|i: int| 0 <= i < key.len() ==> is_key_char(#[trigger] key[i])
}

/// Whether a text may be a result.
pub open spec fn is_result_value(value: Seq<char>) -> bool {
    utf8(value).len() <= MAX_VALUE_LEN && is_safe_value(value)
}

/// Whether a text may be a result key.
fn valid_key(key: &str) -> (valid: bool)
    ensures
        valid == is_result_key(key@),
{
    let len = byte_len(key);
    if len == 0 || len > MAX_KEY_LEN {
        return false;
    }
    let chars = chars_of(key);
    let mut i: usize = 0;
    while i < chars.len()
        invariant
            chars@ == key@,
            i <= chars.len(),
            forall|j: int| 0 <= j < i ==> is_key_char(#[trigger] key@[j]),
        decreases chars.len() - i,
    {
        let c = chars[i];
        let lower = 'a' <= c && c <= 'z';
        let upper = 'A' <= c && c <= 'Z';
        let digit = '0' <= c && c <= '9';
        if !(lower || upper || digit || c == '_' || c == '-') {
            assert(!is_key_char(key@[i as int]));
            return false;
        }
        i = i + 1;
    }
    true
}


/// Whether one more result can be published under `key`.
pub open spec fn accepts(
    results: Map<Seq<char>, Seq<char>>,
    key: Seq<char>,
    value: Seq<char>,
) -> bool {
    &&& is_result_key(key)
    &&& is_result_value(value)
    &&& results.dom().contains(key) || results.dom().len() < MAX_ENTRIES
}

/// Publishes a result; one that is malformed or over the cap is refused.
pub fn set_result(results: &mut TextMap<String>, key: &str, value: &str) -> (set: bool)
    ensures
        set == accepts(texts_of_map(old(results)@), key@, value@),
        texts_of_map(final(results)@) == (if set {
            texts_of_map(old(results)@).insert(key@, value@)
        } else {
            texts_of_map(old(results)@)
        }),
{
    assert(texts_of_map(results@).dom() =~= results@.dom());
    if !valid_key(key) || byte_len(value) > MAX_VALUE_LEN || !is_safe_promoted_value(value) {
        return false;
    }
    if !results.contains(key) && results.size() >= MAX_ENTRIES {
        return false;
    }
    results.put_text(key, value);
    true
}

/// What filters published, by filter.
pub open spec fn published_view(results: Map<Seq<char>, TextMap<String>>) -> Map<
    Seq<char>,
    Map<Seq<char>, Seq<char>>,
> {
    Map::new(
        |key: Seq<char>| results.dom().contains(key),
        |key: Seq<char>| texts_of_map(results[key]@),
    )
}

/// What a filter published.
pub open spec fn results_of(
    results: Map<Seq<char>, Map<Seq<char>, Seq<char>>>,
    filter: Seq<char>,
) -> Map<Seq<char>, Seq<char>> {
    if results.dom().contains(filter) {
        results[filter]
    } else {
        Map::empty()
    }
}

/// What filters published once `filter` tried to publish a result.
pub open spec fn published(
    results: Map<Seq<char>, Map<Seq<char>, Seq<char>>>,
    filter: Seq<char>,
    key: Seq<char>,
    value: Seq<char>,
) -> Map<Seq<char>, Map<Seq<char>, Seq<char>>> {
    let held = results_of(results, filter);
    results.insert(
        filter,
        if accepts(held, key, value) {
            held.insert(key, value)
        } else {
            held
        },
    )
}

/// Publishes a result of a filter.
pub fn publish_result(
    results: &mut TextMap<TextMap<String>>,
    filter: &str,
    key: &str,
    value: &str,
) -> (set: bool)
    ensures
        set == accepts(results_of(published_view(old(results)@), filter@), key@, value@),
        published_view(final(results)@) == published(
            published_view(old(results)@),
            filter@,
            key@,
            value@,
        ),
{
    let ghost before = results@;
    let mut held = match results.remove(filter) {
        Some(held) => held,
        None => {
            let empty: TextMap<String> = TextMap::new();
            assert(texts_of_map(empty@) =~= Map::empty());
            empty
        },
    };
    let set = set_result(&mut held, key, value);
    results.insert(filter, held);
    assert(published_view(results@) =~= published(published_view(before), filter@, key@, value@));
    set
}

/// What a filter publishes is read back, unless it is refused; nothing that was
/// published under another key or by another filter changes.
pub proof fn lemma_published_result_is_read(
    results: Map<Seq<char>, Map<Seq<char>, Seq<char>>>,
    filter: Seq<char>,
    key: Seq<char>,
    value: Seq<char>,
)
    ensures
        ({
            let after = published(results, filter, key, value);
            let before = if results.dom().contains(filter) {
                results[filter]
            } else {
                Map::empty()
            };
            &&& after.dom().contains(filter)
            &&& accepts(before, key, value) ==> after[filter].dom().contains(key)
                && after[filter][key] == value
            &&& !accepts(before, key, value) ==> after[filter] == before
            &&& forall|other: Seq<char>|
                other != key ==> {
                    &&& #[trigger] after[filter].dom().contains(other) == before.dom().contains(
                        other,
                    )
                    &&& before.dom().contains(other) ==> after[filter][other] == before[other]
                }
            &&& forall|other: Seq<char>|
                other != filter ==> {
                    &&& #[trigger] after.dom().contains(other) == results.dom().contains(other)
                    &&& results.dom().contains(other) ==> after[other] == results[other]
                }
        }),
{
}

/// A result is accepted where its key is a short word, its value a short text without
/// control characters, and there is room: one more of the same key always has room.
pub proof fn lemma_accepted_results(
    results: Map<Seq<char>, Seq<char>>,
    key: Seq<char>,
    value: Seq<char>,
)
    ensures
        accepts(results, key, value) ==> {
            &&& 1 <= utf8(key).len() <= 64
            &&& utf8(value).len() <= 256
            &&& results.dom().contains(key) || results.dom().len() < 128
            &&& forall|i: int|
                0 <= i < value.len() ==> {
                    let c = #[trigger] value[i];
                    c == '\t' || (' ' <= c && c != '\x7f')
                }
        },
        results.dom().contains(key) && is_result_key(key) && is_result_value(value) ==> accepts(
            results,
            key,
            value,
        ),
{
}

} // verus!
