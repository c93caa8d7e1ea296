//! Rules for promoting body-derived data to headers, metadata and filter results.

use vstd::prelude::*;
use vstd::string::StringExecFns;

use crate::header::{
    hop_by_hop, is_header_name, is_safe_promoted_value, is_safe_value, parse_header_name,
};
use crate::text::{
    ascii_lower, begins_with, byte_len, lower_char, same_text, starts_with, to_lowercase_ascii,
    utf8,
};

verus! {

/// Longest value that may be promoted to a header, metadata key, or filter result.
pub const MAX_PROMOTED_VALUE_LEN: usize = 256;

/// Whether `val` is within the length limit and safe for HTTP header use.
pub fn is_promotable_value(val: &str) -> (promotable: bool)
    ensures
        promotable == (utf8(val@).len() <= MAX_PROMOTED_VALUE_LEN && is_safe_value(val@)),
{
    byte_len(val) <= MAX_PROMOTED_VALUE_LEN && is_safe_promoted_value(val)
}

/// Whether `name`, in lowercase, is controlled by the transport.
pub open spec fn transport_controlled(name: Seq<char>) -> bool {
    name == "content-length"@ || name == "host"@ || hop_by_hop(name)
}

/// Whether `name`, in lowercase, carries credentials or provider API keys.
pub open spec fn carries_credentials(name: Seq<char>) -> bool {
    ||| name == "authorization"@
    ||| name == "proxy-authorization"@
    ||| name == "cookie"@
    ||| name == "set-cookie"@
    ||| name == "www-authenticate"@
    ||| name == "x-api-key"@
    ||| name == "api-key"@
    ||| name == "x-goog-api-key"@
}

/// The texts of a list.
pub open spec fn texts(list: Seq<&str>) -> Seq<Seq<char>> {
    Seq::new(list.len(), |i: int| list[i]@)
}

/// Whether one of `list` is `name`, whatever the case of ASCII letters.
pub open spec fn listed(list: Seq<Seq<char>>, name: Seq<char>) -> bool {
    exists|i: int| 0 <= i < list.len() && ascii_lower(#[trigger] list[i]) == ascii_lower(name)
}

/// Whether `name` begins with one of `prefixes`.
pub open spec fn has_prefix(prefixes: Seq<Seq<char>>, name: Seq<char>) -> bool {
    exists|i: int| 0 <= i < prefixes.len() && begins_with(name, #[trigger] prefixes[i])
}

/// Whether `name`, in lowercase, must not be overwritten: it belongs to the
/// transport, to credentials, or to the internal namespace outside what
/// `dedicated` and `prefixes` open.
pub open spec fn unsafe_target(
    name: Seq<char>,
    dedicated: Seq<Seq<char>>,
    prefixes: Seq<Seq<char>>,
) -> bool {
    ||| transport_controlled(name)
    ||| carries_credentials(name)
    ||| !listed(dedicated, name) && !has_prefix(prefixes, name) && begins_with(name, "x-praxis-"@)
}

/// Namespaces that classification filters may overwrite when the call site does
/// not pin a single dedicated header.
pub open spec fn ai_fact_prefixes() -> Seq<Seq<char>> {
    seq!["x-praxis-ai-"@, "x-praxis-responses-"@]
}

/// Dedicated model-identity headers that model rewrite may overwrite.
pub open spec fn model_identity_headers() -> Seq<Seq<char>> {
    seq!["x-praxis-ai-effective-model"@, "x-praxis-ai-original-model"@]
}

/// Whether `name`, in lowercase, names a header that holds for one hop alone.
fn is_hop_by_hop(name: &str) -> (found: bool)
    ensures
        found == hop_by_hop(name@),
{
    same_text(name, "connection") || same_text(name, "keep-alive") || same_text(
        name,
        "proxy-authenticate",
    ) || same_text(name, "proxy-authorization") || same_text(name, "te") || same_text(
        name,
        "trailer",
    ) || same_text(name, "transfer-encoding") || same_text(name, "upgrade")
}

/// Hop-by-hop, framing, Host, and proxy-auth names that must not be used as
/// promotion-header targets.
pub fn is_transport_controlled_header(name: &str) -> (controlled: bool)
    ensures
        controlled == transport_controlled(ascii_lower(name@)),
{
    is_transport_controlled_header_lowercase(to_lowercase_ascii(name).as_str())
}

/// Like [`is_transport_controlled_header`], but `name` must already be a
/// lowercase HTTP field name.
#[must_use]
pub fn is_transport_controlled_header_lowercase(name: &str) -> (controlled: bool)
    ensures
        controlled == transport_controlled(name@),
{
    same_text(name, "content-length") || same_text(name, "host") || is_hop_by_hop(name)
}

/// Whether `name` is known to carry credentials or provider API keys.
pub fn is_credential_header(name: &str) -> (credential: bool)
    ensures
        credential == carries_credentials(ascii_lower(name@)),
{
    is_credential_header_lowercase(to_lowercase_ascii(name).as_str())
}

/// Like [`is_credential_header`], but `name` must already be lowercase.
fn is_credential_header_lowercase(name: &str) -> (credential: bool)
    ensures
        credential == carries_credentials(name@),
{
    same_text(name, "authorization") || same_text(name, "proxy-authorization") || same_text(
        name,
        "cookie",
    ) || same_text(name, "set-cookie") || same_text(name, "www-authenticate") || same_text(
        name,
        "x-api-key",
    ) || same_text(name, "api-key") || same_text(name, "x-goog-api-key")
}

/// Whether `name` is unsafe as a body-derived promotion-header target.
///
/// Blocks transport-controlled names, request credentials, and internal
/// `x-praxis-*` headers outside the AI fact namespaces.
pub fn is_unsafe_promotion_header(name: &str) -> (blocked: bool)
    ensures
        blocked == unsafe_target(ascii_lower(name@), Seq::empty(), ai_fact_prefixes()),
{
    let prefixes = ["x-praxis-ai-", "x-praxis-responses-"];
    proof {
        assert(texts(prefixes@) =~= ai_fact_prefixes());
        assert(texts(Seq::empty()) =~= Seq::<Seq<char>>::empty());
    }
    is_unsafe_promotion_target(name, &[], &prefixes)
}

/// Whether `name` is unsafe as a client-derived model-identity promotion target.
///
/// In addition to transport and credential names, this rejects other internal
/// classification and routing facts.
pub fn is_unsafe_model_identity_promotion_header(name: &str) -> (blocked: bool)
    ensures
        blocked == unsafe_target(ascii_lower(name@), model_identity_headers(), Seq::empty()),
{
    let dedicated = ["x-praxis-ai-effective-model", "x-praxis-ai-original-model"];
    proof {
        assert(texts(dedicated@) =~= model_identity_headers());
        assert(texts(Seq::empty()) =~= Seq::<Seq<char>>::empty());
    }
    is_unsafe_promotion_target(name, &dedicated, &[])
}

/// Whether `name` is unsafe for the given dedicated names and prefixes.
fn is_unsafe_promotion_target(name: &str, dedicated: &[&str], prefixes: &[&str]) -> (blocked: bool)
    ensures
        blocked == unsafe_target(ascii_lower(name@), texts(dedicated@), texts(prefixes@)),
{
    is_unsafe_promotion_target_lowercase(to_lowercase_ascii(name).as_str(), dedicated, prefixes)
}

/// Like [`is_unsafe_promotion_target`], but `name` must already be lowercase.
fn is_unsafe_promotion_target_lowercase(
    name: &str,
    dedicated: &[&str],
    prefixes: &[&str],
) -> (blocked: bool)
    ensures
        blocked == unsafe_target(name@, texts(dedicated@), texts(prefixes@)),
{
    if is_transport_controlled_header_lowercase(name) || is_credential_header_lowercase(name) {
        return true;
    }
    let lower = to_lowercase_ascii(name);
    let mut i: usize = 0;
    while i < dedicated.len()
        invariant
            lower@ == ascii_lower(name@),
            i <= dedicated.len(),
            !transport_controlled(name@),
            !carries_credentials(name@),
            forall|j: int|
                0 <= j < i ==> ascii_lower(#[trigger] texts(dedicated@)[j]) != ascii_lower(name@),
        decreases dedicated.len() - i,
    {
        if same_text(to_lowercase_ascii(dedicated[i]).as_str(), lower.as_str()) {
            assert(ascii_lower(texts(dedicated@)[i as int]) == ascii_lower(name@));
            return false;
        }
        i = i + 1;
    }
    let mut k: usize = 0;
    while k < prefixes.len()
        invariant
            k <= prefixes.len(),
            !transport_controlled(name@),
            !carries_credentials(name@),
            forall|j: int| 0 <= j < k ==> !begins_with(name@, #[trigger] texts(prefixes@)[j]),
        decreases prefixes.len() - k,
    {
        if starts_with(name, prefixes[k]) {
            assert(begins_with(name@, texts(prefixes@)[k as int]));
            return false;
        }
        k = k + 1;
    }
    starts_with(name, "x-praxis-")
}

/// Why a header name was refused.
pub open spec fn promotion_error(
    filter: Seq<char>,
    field: Seq<char>,
    name: Option<Seq<char>>,
    dedicated: Seq<Seq<char>>,
    prefixes: Seq<Seq<char>>,
) -> Option<Seq<char>> {
    match name {
        None => None,
        Some(name) => if name.len() == 0 {
            Some(filter + ": "@ + field + " header name must not be empty"@)
        } else if !is_header_name(name) {
            Some(filter + ": "@ + field + " header name is not a valid HTTP header name"@)
        } else if unsafe_target(ascii_lower(name), dedicated, prefixes) {
            Some(
                filter + ": '"@ + field
                    + "' must not use transport, credential, or internal header '"@ + ascii_lower(
                    name,
                ) + "'"@,
            )
        } else {
            None
        },
    }
}

/// The text of an optional name.
pub open spec fn text_of(name: Option<&str>) -> Option<Seq<char>> {
    match name {
        Some(name) => Some(name@),
        None => None,
    }
}

/// The outcome that an error text stands for.
pub open spec fn outcome_is(result: Result<(), String>, error: Option<Seq<char>>) -> bool {
    match result {
        Ok(_) => error is None,
        Err(message) => error == Some(message@),
    }
}

/// Validates syntax and rejects unsafe promotion-header targets.
///
/// Allows dedicated AI fact namespaces (`x-praxis-ai-*`,
/// `x-praxis-responses-*`) and custom non-`x-praxis-*` headers.
pub fn validate_promotion_header(filter: &str, field: &str, name: Option<&str>) -> (result: Result<
    (),
    String,
>)
    ensures
        outcome_is(
            result,
            promotion_error(filter@, field@, text_of(name), Seq::empty(), ai_fact_prefixes()),
        ),
{
    let prefixes = ["x-praxis-ai-", "x-praxis-responses-"];
    proof {
        assert(texts(prefixes@) =~= ai_fact_prefixes());
        assert(texts(Seq::empty()) =~= Seq::<Seq<char>>::empty());
    }
    validate_target(filter, field, name, &[], &prefixes)
}

/// Validates a header that will receive a client-derived model string.
pub fn validate_model_identity_promotion_header(
    filter: &str,
    field: &str,
    name: Option<&str>,
) -> (result: Result<(), String>)
    ensures
        outcome_is(
            result,
            promotion_error(filter@, field@, text_of(name), model_identity_headers(), Seq::empty()),
        ),
{
    let dedicated = ["x-praxis-ai-effective-model", "x-praxis-ai-original-model"];
    proof {
        assert(texts(dedicated@) =~= model_identity_headers());
    }
    validate_dedicated_promotion_header(filter, field, name, &dedicated)
}

/// Validates a header that may overwrite only `dedicated` internal names.
///
/// Custom non-`x-praxis-*` names remain allowed. Any other `x-praxis-*` name,
/// including other AI classification facts, is rejected.
pub fn validate_dedicated_promotion_header(
    filter: &str,
    field: &str,
    name: Option<&str>,
    dedicated: &[&str],
) -> (result: Result<(), String>)
    ensures
        outcome_is(
            result,
            promotion_error(filter@, field@, text_of(name), texts(dedicated@), Seq::empty()),
        ),
{
    proof {
        assert(texts(Seq::empty()) =~= Seq::<Seq<char>>::empty());
    }
    validate_target(filter, field, name, dedicated, &[])
}

/// Validates syntax, and rejects a target outside what is open.
fn validate_target(
    filter: &str,
    field: &str,
    name: Option<&str>,
    dedicated: &[&str],
    prefixes: &[&str],
) -> (result: Result<(), String>)
    ensures
        outcome_is(
            result,
            promotion_error(
                filter@,
                field@,
                text_of(name),
                texts(dedicated@),
                texts(prefixes@),
            ),
        ),
{
    match validate_header_name(filter, field, name) {
        Ok(()) => reject_unsafe_promotion_target(filter, field, name, dedicated, prefixes),
        Err(message) => Err(message),
    }
}

/// Validates an optional header name.
fn validate_header_name(filter: &str, field: &str, name: Option<&str>) -> (result: Result<
    (),
    String,
>)
    ensures
        match name {
            None => result is Ok,
            Some(name) => if name@.len() == 0 {
                result is Err && result->Err_0@ == filter@ + ": "@ + field@
                    + " header name must not be empty"@
            } else if !is_header_name(name@) {
                result is Err && result->Err_0@ == filter@ + ": "@ + field@
                    + " header name is not a valid HTTP header name"@
            } else {
                result is Ok
            },
        },
{
    let name = match name {
        Some(name) => name,
        None => return Ok(()),
    };
    if name.is_empty() {
        let mut message = filter.to_owned();
        message.append(": ");
        message.append(field);
        message.append(" header name must not be empty");
        return Err(message);
    }
    if parse_header_name(name).is_none() {
        let mut message = filter.to_owned();
        message.append(": ");
        message.append(field);
        message.append(" header name is not a valid HTTP header name");
        return Err(message);
    }
    Ok(())
}

/// Rejects a promotion target that would overwrite transport or routing state.
fn reject_unsafe_promotion_target(
    filter: &str,
    field: &str,
    name: Option<&str>,
    dedicated: &[&str],
    prefixes: &[&str],
) -> (result: Result<(), String>)
    ensures
        match name {
            None => result is Ok,
            Some(name) => if unsafe_target(ascii_lower(name@), texts(dedicated@), texts(prefixes@)) {
                result is Err && result->Err_0@ == filter@ + ": '"@ + field@
                    + "' must not use transport, credential, or internal header '"@ + ascii_lower(
                    name@,
                ) + "'"@
            } else {
                result is Ok
            },
        },
{
    let raw = match name {
        Some(raw) => raw,
        None => return Ok(()),
    };
    let normalized = to_lowercase_ascii(raw);
    if is_unsafe_promotion_target_lowercase(normalized.as_str(), dedicated, prefixes) {
        let mut message = filter.to_owned();
        message.append(": '");
        message.append(field);
        message.append("' must not use transport, credential, or internal header '");
        message.append(normalized.as_str());
        message.append("'");
        return Err(message);
    }
    Ok(())
}

/// Whether the fields at `i` and `j` name one header.
pub open spec fn clash(fields: Seq<(&str, Option<&str>)>, i: int, j: int) -> bool {
    fields[i].1 is Some && fields[j].1 is Some && ascii_lower(fields[i].1->0@) == ascii_lower(
        fields[j].1->0@,
    )
}

/// Whether no two of the first `n` fields name one header.
pub open spec fn no_clash(fields: Seq<(&str, Option<&str>)>, n: int) -> bool {
    forall|i: int, j: int| 0 <= i < j < n ==> !#[trigger] clash(fields, i, j)
}

/// Rejects two configured promotion fields that resolve to the same header.
///
/// `None` entries are skipped. Comparison is ASCII case-insensitive. The error
/// names the first field that repeats a header and the field that had it.
pub fn reject_duplicate_promotion_fields(
    filter: &str,
    fields: &[(&str, Option<&str>)],
) -> (result: Result<(), String>)
    ensures
        result is Ok == no_clash(fields@, fields@.len() as int),
        result is Err ==> exists|i: int, j: int|
            0 <= i < j < fields@.len() && #[trigger] clash(fields@, i, j) && no_clash(fields@, j)
                && result->Err_0@ == filter@ + ": '"@ + fields@[j].0@ + "' and '"@ + fields@[i].0@
                + "' must not use the same header name"@,
{
    let mut j: usize = 0;
    while j < fields.len()
        invariant
            j <= fields.len(),
            no_clash(fields@, j as int),
        decreases fields.len() - j,
    {
        if let Some(raw) = fields[j].1 {
            let normalized = to_lowercase_ascii(raw);
            let mut i: usize = 0;
            while i < j
                invariant
                    i <= j < fields.len(),
                    no_clash(fields@, j as int),
                    fields@[j as int].1 == Some(raw),
                    normalized@ == ascii_lower(raw@),
                    forall|k: int| 0 <= k < i ==> !#[trigger] clash(fields@, k, j as int),
                decreases j - i,
            {
                if let Some(other) = fields[i].1 {
                    if same_text(to_lowercase_ascii(other).as_str(), normalized.as_str()) {
                        assert(clash(fields@, i as int, j as int));
                        let mut message = filter.to_owned();
                        message.append(": '");
                        message.append(fields[j].0);
                        message.append("' and '");
                        message.append(fields[i].0);
                        message.append("' must not use the same header name");
                        return Err(message);
                    }
                }
                i = i + 1;
            }
        }
        j = j + 1;
    }
    Ok(())
}

/// Lowering twice is lowering once.
proof fn lemma_lower_twice(name: Seq<char>)
    ensures
        ascii_lower(ascii_lower(name)) == ascii_lower(name),
{
    assert forall|i: int| 0 <= i < name.len() implies lower_char(lower_char(#[trigger] name[i]))
        == lower_char(name[i]) by {}
    assert(ascii_lower(ascii_lower(name)) =~= ascii_lower(name));
}

/// A header may be promoted to or not whatever the case of its letters.
pub proof fn lemma_target_ignores_case(
    name: Seq<char>,
    other: Seq<char>,
    dedicated: Seq<Seq<char>>,
    prefixes: Seq<Seq<char>>,
)
    requires
        ascii_lower(name) == ascii_lower(other),
    ensures
        unsafe_target(ascii_lower(name), dedicated, prefixes) == unsafe_target(
            ascii_lower(other),
            dedicated,
            prefixes,
        ),
        unsafe_target(ascii_lower(ascii_lower(name)), dedicated, prefixes) == unsafe_target(
            ascii_lower(name),
            dedicated,
            prefixes,
        ),
{
    lemma_lower_twice(name);
}

/// What may carry a model identity may be promoted to in general: every header
/// that promotion refuses, model identity refuses too.
pub proof fn lemma_model_identity_is_stricter(name: Seq<char>)
    requires
        unsafe_target(ascii_lower(name), Seq::empty(), ai_fact_prefixes()),
    ensures
        unsafe_target(ascii_lower(name), model_identity_headers(), Seq::empty()),
{
    let lower = ascii_lower(name);
    if !transport_controlled(lower) && !carries_credentials(lower) {
        if listed(model_identity_headers(), lower) {
            lemma_lower_twice(name);
            reveal_strlit("x-praxis-ai-effective-model");
            reveal_strlit("x-praxis-ai-original-model");
            reveal_strlit("x-praxis-ai-");
            let i = choose|i: int|
                0 <= i < model_identity_headers().len() && ascii_lower(
                    #[trigger] model_identity_headers()[i],
                ) == ascii_lower(lower);
            let dedicated = model_identity_headers()[i];
            assert(ascii_lower(dedicated) =~= dedicated);
            assert(lower == dedicated);
            assert(lower.take(12) =~= "x-praxis-ai-"@);
            assert(begins_with(lower, ai_fact_prefixes()[0]));
        }
    }
}

/// Whether a header, in lowercase, belongs to the transport or to credentials.
pub open spec fn is_protected(name: Seq<char>) -> bool {
    ||| name == "content-length"@ || name == "host"@ || name == "connection"@
    ||| name == "keep-alive"@ || name == "proxy-authenticate"@ || name == "proxy-authorization"@
    ||| name == "te"@ || name == "trailer"@ || name == "transfer-encoding"@ || name == "upgrade"@
    ||| name == "authorization"@ || name == "cookie"@ || name == "set-cookie"@
    ||| name == "www-authenticate"@ || name == "x-api-key"@ || name == "api-key"@
    ||| name == "x-goog-api-key"@
}

/// What belongs to the transport or to credentials is never a target, whatever is
/// opened; what begins with the internal prefix is one only where it is opened, by its
/// name or by a prefix of it; and every other header is one.
pub proof fn lemma_targets(
    name: Seq<char>,
    dedicated: Seq<Seq<char>>,
    prefixes: Seq<Seq<char>>,
    i: int,
)
    ensures
        ({
            let lower = ascii_lower(name);
            let internal = lower.len() >= 9 && lower.take(9) == "x-praxis-"@;
            &&& is_protected(lower) ==> unsafe_target(lower, dedicated, prefixes)
            &&& !is_protected(lower) && !internal ==> !unsafe_target(lower, dedicated, prefixes)
            &&& !is_protected(lower) && 0 <= i < dedicated.len() && ascii_lower(dedicated[i])
                == lower ==> !unsafe_target(lower, dedicated, prefixes)
            &&& !is_protected(lower) && 0 <= i < prefixes.len() && lower.len() >= prefixes[i].len()
                && lower.take(prefixes[i].len() as int) == prefixes[i] ==> !unsafe_target(
                lower,
                dedicated,
                prefixes,
            )
            &&& internal && dedicated.len() == 0 && prefixes.len() == 0 ==> unsafe_target(
                lower,
                dedicated,
                prefixes,
            )
        }),
{
    reveal_strlit("x-praxis-");
    let lower = ascii_lower(name);
    assert("x-praxis-"@.len() == 9);
    lemma_lower_twice(name);
    if 0 <= i < dedicated.len() && ascii_lower(dedicated[i]) == lower {
        assert(listed(dedicated, lower));
    }
    if 0 <= i < prefixes.len() && lower.len() >= prefixes[i].len() && lower.take(
        prefixes[i].len() as int,
    ) == prefixes[i] {
        assert(begins_with(lower, prefixes[i]));
    }
}

/// A name is accepted exactly where it is absent, or a header name that is a target.
pub proof fn lemma_accepted_names(
    filter: Seq<char>,
    field: Seq<char>,
    name: Option<Seq<char>>,
    dedicated: Seq<Seq<char>>,
    prefixes: Seq<Seq<char>>,
)
    ensures
        promotion_error(filter, field, name, dedicated, prefixes) is None <==> match name {
            None => true,
            Some(name) => is_header_name(name) && !unsafe_target(
                ascii_lower(name),
                dedicated,
                prefixes,
            ),
        },
{
}

} // verus!
