//! Usage accumulation for the Responses API.
//!
//! Every iterative flow (streaming, agentic loop, file search) shares the one
//! recursive merge of this module.

use vstd::prelude::*;

use crate::json::{
    distinct_names, find_member, lemma_position_absent, lemma_position_is, lemma_position_of,
    member, members_view, position_of, well_formed, Json, JsonNumber, JsonView, Member, Members,
    NumberView,
};
use crate::json_text::{byte_len_of, compact_members, compact_text, quoted, quoted_byte_len};
use crate::text::{decimal, lemma_utf8_concat, utf8};

verus! {

broadcast use crate::json_model::group_json_view;

/// The sum of two unsigned integers, at most the largest one.
pub open spec fn saturating_sum(left: u64, right: u64) -> u64 {
    if left + right > u64::MAX {
        u64::MAX
    } else {
        (left + right) as u64
    }
}

/// `current` merged into `accumulated`: objects member by member, unsigned
/// integers by a saturating sum; anything else is replaced.
pub open spec fn merged(accumulated: JsonView, current: JsonView) -> JsonView
    decreases current,
{
    match (accumulated, current) {
        (JsonView::Object(a), JsonView::Object(c)) => JsonView::Object(merged_members(a, c)),
        (
            JsonView::Number(NumberView::Unsigned(left)),
            JsonView::Number(NumberView::Unsigned(right)),
        ) => JsonView::Number(NumberView::Unsigned(saturating_sum(left, right))),
        _ => current,
    }
}

/// The members of `c` merged into the members `a`, one after the other: into the
/// member of that name, or behind all others where there is none.
pub open spec fn merged_members(a: Members, c: Members) -> Members
    decreases c,
{
    if c.len() == 0 {
        a
    } else {
        let front = merged_members(a, c.subrange(0, c.len() - 1));
        let name = c[c.len() - 1].0;
        match position_of(front, name) {
            Some(i) => front.update(i, (name, merged(front[i].1, c[c.len() - 1].1))),
            None => front.push(c[c.len() - 1]),
        }
    }
}

/// Saturating recursive sum that consumes the current usage tree.
///
/// Newly introduced fields and replacement values are moved into the
/// accumulator.
pub fn merge_usage_owned(accumulated: &mut Json, current: Json)
    ensures
        final(accumulated)@ == merged(old(accumulated)@, current@),
    decreases current,
{
    match current {
        Json::Object(members) => match accumulated {
            Json::Object(held) => merge_members_owned(held, members),
            _ => {
                *accumulated = Json::Object(members);
            },
        },
        Json::Number(JsonNumber::Unsigned(right)) => match accumulated {
            Json::Number(JsonNumber::Unsigned(left)) => {
                let sum = left.saturating_add(right);
                *accumulated = Json::Number(JsonNumber::Unsigned(sum));
            },
            _ => {
                *accumulated = Json::Number(JsonNumber::Unsigned(right));
            },
        },
        _ => {
            *accumulated = current;
        },
    }
}

/// Merges the members of one object into those of another.
fn merge_members_owned(held: &mut Vec<Member>, members: Vec<Member>)
    ensures
        members_view(final(held)@) == merged_members(
            members_view(old(held)@),
            members_view(members@),
        ),
    decreases members,
{
    let ghost start = members_view(held@);
    let ghost given = members@;
    let ghost view = members_view(given);
    let mut rest = members;
    let mut i: usize = 0;
    while i < rest.len()
        invariant
            start == members_view(old(held)@),
            view == members_view(given),
            given == members@,
            rest.len() == given.len(),
            i <= rest.len(),
            forall|j: int| i <= j < rest.len() ==> #[trigger] rest@[j] == given[j],
            members_view(held@) == merged_members(start, view.subrange(0, i as int)),
        decreases rest.len() - i,
    {
        let mut next = Member { name: String::new(), value: Json::Null };
        std::mem::swap(&mut next, &mut rest[i]);
        assert(next == given[i as int]);
        let ghost part = view.subrange(0, i + 1);
        assert(part.subrange(0, part.len() - 1) =~= view.subrange(0, i as int));
        assert(part[i as int] == (next.name@, next.value@));
        let ghost before = members_view(held@);
        match find_member(held, next.name.as_str()) {
            Some(at) => {
                merge_usage_owned(&mut held[at].value, next.value);
                proof {
                    lemma_position_of(before, next.name@);
                    assert(members_view(held@) =~= before.update(
                        at as int,
                        (next.name@, merged(before[at as int].1, next.value@)),
                    ));
                }
            },
            None => {
                held.push(next);
                assert(members_view(held@) =~= before.push((next.name@, next.value@)));
            },
        }
        i = i + 1;
    }
    assert(view.subrange(0, i as int) =~= view);
}

/// Saturating recursive sum for numeric token-usage fields.
///
/// Objects are merged member by member and keep newly introduced keys, unsigned
/// integers are added up to their maximum, and everything else is replaced.
pub fn merge_usage(accumulated: &mut Json, current: &Json)
    ensures
        final(accumulated)@ == merged(old(accumulated)@, current@),
{
    merge_usage_owned(accumulated, current.clone());
}

/// The number of UTF-8 bytes of a value's compact text.
pub open spec fn text_len(value: JsonView) -> nat {
    utf8(compact_text(value)).len()
}

/// The number of UTF-8 bytes of one member's compact text.
pub open spec fn entry_len(entry: (Seq<char>, JsonView)) -> nat {
    utf8(quoted(entry.0)).len() + 1 + text_len(entry.1)
}

/// The number of UTF-8 bytes of the compact texts of members, without commas.
pub open spec fn entries_len(members: Members) -> nat
    decreases members.len(),
{
    if members.len() == 0 {
        0
    } else {
        entries_len(members.drop_last()) + entry_len(members.last())
    }
}

/// The number of commas between `n` parts.
pub open spec fn commas(n: nat) -> nat {
    if n == 0 {
        0
    } else {
        (n - 1) as nat
    }
}

/// One ASCII character is one byte.
proof fn lemma_ascii_byte(c: char)
    requires
        (c as u32) < 128,
    ensures
        utf8(seq![c]).len() == 1,
{
    assert(vstd::utf8::is_ascii_chars(seq![c]));
    vstd::utf8::is_ascii_chars_encode_utf8(seq![c]);
}

/// The size of members' texts: the entries and the commas between them.
proof fn lemma_members_len(members: Members)
    ensures
        utf8(compact_members(members)).len() == entries_len(members) + commas(members.len()),
    decreases members.len(),
{
    if members.len() == 0 {
        assert(compact_members(members) =~= Seq::empty());
    } else {
        let last = members[members.len() - 1];
        let tail = quoted(last.0) + seq![':'] + compact_text(last.1);
        lemma_utf8_concat(quoted(last.0) + seq![':'], compact_text(last.1));
        lemma_utf8_concat(quoted(last.0), seq![':']);
        lemma_ascii_byte(':');
        assert(utf8(tail).len() == entry_len(last));
        if members.len() == 1 {
            assert(members.drop_last() =~= Seq::empty());
            assert(entries_len(members.drop_last()) == 0);
            assert(members[0] == last);
        } else {
            let front = members.subrange(0, members.len() - 1);
            assert(front =~= members.drop_last());
            lemma_members_len(front);
            let head = compact_members(front) + seq![','];
            lemma_utf8_concat(compact_members(front), seq![',']);
            lemma_ascii_byte(',');
            lemma_utf8_concat(head, tail);
            assert(compact_members(members) =~= head + tail);
        }
    }
}

/// The size of an object's text: the braces, the entries and the commas.
proof fn lemma_object_len(members: Members)
    ensures
        text_len(JsonView::Object(members)) == 2 + entries_len(members) + commas(members.len()),
{
    lemma_members_len(members);
    let inner = compact_members(members);
    lemma_utf8_concat(seq!['{'], inner);
    lemma_utf8_concat(seq!['{'] + inner, seq!['}']);
    lemma_ascii_byte('{');
    lemma_ascii_byte('}');
}

/// The decimal digits of a number are ASCII characters.
proof fn lemma_decimal_ascii(n: nat)
    ensures
        forall|i: int|
            0 <= i < decimal(n).len() ==> '0' <= #[trigger] decimal(n)[i] && decimal(n)[i] <= '9',
    decreases n,
{
    if n >= 10 {
        lemma_decimal_ascii(n / 10);
        let front = decimal(n / 10);
        assert forall|i: int| 0 <= i < decimal(n).len() implies '0' <= #[trigger] decimal(n)[i]
            && decimal(n)[i] <= '9' by {
            if i < front.len() {
                assert(decimal(n)[i] == front[i]);
            }
        }
    }
}

/// The members of `c` whose names are not among those of `a`, in order.
pub open spec fn fresh_members(a: Members, c: Members) -> Members
    decreases c.len(),
{
    if c.len() == 0 {
        Seq::empty()
    } else {
        let front = fresh_members(a, c.drop_last());
        if position_of(a, c.last().0) is None {
            front.push(c.last())
        } else {
            front
        }
    }
}

/// The member `entry`, merged with the member of its name in `c`.
pub open spec fn merged_entry(entry: (Seq<char>, JsonView), c: Members) -> (Seq<char>, JsonView) {
    match member(c, entry.0) {
        Some(value) => (entry.0, merged(entry.1, value)),
        None => entry,
    }
}

/// The members of `a` merged with those of `c` of the same name, and behind them
/// the other members of `c`.
pub open spec fn united(a: Members, c: Members) -> Members {
    Seq::new(a.len(), |i: int| merged_entry(a[i], c)) + fresh_members(a, c)
}

/// Names of `fresh_members` come from `c` and are not in `a`.
proof fn lemma_fresh_names(a: Members, c: Members)
    ensures
        forall|i: int|
            0 <= i < fresh_members(a, c).len() ==> position_of(
                a,
                (#[trigger] fresh_members(a, c)[i]).0,
            ) is None,
        forall|i: int|
            0 <= i < fresh_members(a, c).len() ==> c.contains(#[trigger] fresh_members(a, c)[i]),
    decreases c.len(),
{
    if c.len() > 0 {
        let rest = c.drop_last();
        lemma_fresh_names(a, rest);
        let all = fresh_members(a, c);
        let front = fresh_members(a, rest);
        assert forall|i: int| 0 <= i < all.len() implies position_of(a, (#[trigger] all[i]).0)
            is None && c.contains(all[i]) by {
            if i < front.len() {
                assert(all[i] == front[i]);
                assert(rest.contains(front[i]));
                let k = choose|k: int| 0 <= k < rest.len() && rest[k] == front[i];
                assert(c[k] == all[i]);
            } else {
                assert(all[i] == c[c.len() - 1]);
            }
        }
    }
}

/// The member of a name is the same without a last member of another name.
proof fn lemma_member_of_front(c: Members, name: Seq<char>)
    requires
        c.len() > 0,
        c.last().0 != name,
    ensures
        member(c, name) == member(c.drop_last(), name),
{
    let rest = c.drop_last();
    lemma_position_of(c, name);
    lemma_position_of(rest, name);
    match position_of(rest, name) {
        Some(i) => {
            assert(rest[i] == c[i]);
        },
        None => {},
    }
}

/// Where names are distinct, merging one after the other unites the members.
proof fn lemma_merged_is_united(a: Members, c: Members)
    requires
        distinct_names(a),
        distinct_names(c),
    ensures
        merged_members(a, c) == united(a, c),
    decreases c.len(),
{
    if c.len() == 0 {
        assert forall|i: int| 0 <= i < a.len() implies #[trigger] merged_entry(a[i], c) == a[i] by {
            assert(position_of(c, a[i].0) is None);
        }
        assert(united(a, c) =~= a);
    } else {
        let rest = c.drop_last();
        let last = c.last();
        assert(c.subrange(0, c.len() - 1) =~= rest);
        assert(distinct_names(rest)) by {
            assert forall|i: int, j: int| 0 <= i < j < rest.len() implies (#[trigger] rest[i]).0 != (
            #[trigger] rest[j]).0 by {
                assert(rest[i] == c[i] && rest[j] == c[j]);
            }
        }
        lemma_merged_is_united(a, rest);
        let front = united(a, rest);
        let fresh = fresh_members(a, rest);
        lemma_fresh_names(a, rest);
        lemma_position_of(a, last.0);
        lemma_position_of(rest, last.0);
        assert(position_of(rest, last.0) is None) by {
            match position_of(rest, last.0) {
                Some(k) => {
                    assert(rest[k] == c[k]);
                    assert(c[k].0 != c[c.len() - 1].0);
                },
                None => {},
            }
        }
        lemma_position_of(c, last.0);
        assert(member(c, last.0) == Some(last.1)) by {
            lemma_position_is_last(c);
        }
        match position_of(a, last.0) {
            Some(i) => {
                assert forall|j: int| 0 <= j < i implies (#[trigger] front[j]).0 != last.0 by {
                    assert(front[j].0 == a[j].0);
                }
                assert(front[i] == merged_entry(a[i], rest));
                lemma_position_is(front, last.0, i);
                assert forall|j: int| 0 <= j < a.len() implies #[trigger] merged_members(a, c)[j]
                    == merged_entry(a[j], c) by {
                    if j != i {
                        if j < i {
                            assert(a[j].0 != a[i].0);
                        } else {
                            assert(a[i].0 != a[j].0);
                        }
                        lemma_member_of_front(c, a[j].0);
                        assert(front[j] == merged_entry(a[j], rest));
                    }
                }
                assert(merged_members(a, c) =~= united(a, c));
            },
            None => {
                assert forall|j: int| 0 <= j < front.len() implies (#[trigger] front[j]).0
                    != last.0 by {
                    if j < a.len() {
                        assert(front[j].0 == a[j].0);
                    } else {
                        let entry = fresh[j - a.len()];
                        assert(front[j] == entry);
                        assert(rest.contains(entry));
                        let k = choose|k: int| 0 <= k < rest.len() && rest[k] == entry;
                        assert(rest[k] == c[k]);
                        assert(c[k].0 != c[c.len() - 1].0);
                    }
                }
                lemma_position_absent(front, last.0);
                assert forall|j: int| 0 <= j < a.len() implies #[trigger] merged_members(a, c)[j]
                    == merged_entry(a[j], c) by {
                    assert(a[j].0 != last.0);
                    lemma_member_of_front(c, a[j].0);
                    assert(front[j] == merged_entry(a[j], rest));
                }
                assert(merged_members(a, c) =~= united(a, c));
            },
        }
    }
}

/// The last of members with distinct names is the one of its name.
proof fn lemma_position_is_last(c: Members)
    requires
        c.len() > 0,
        distinct_names(c),
    ensures
        member(c, c.last().0) == Some(c.last().1),
{
    let at = c.len() - 1;
    assert forall|j: int| 0 <= j < at implies (#[trigger] c[j]).0 != c[at].0 by {}
    lemma_position_is(c, c.last().0, at);
}

/// The entries of two lists, one behind the other.
proof fn lemma_entries_len_concat(a: Members, b: Members)
    ensures
        entries_len(a + b) == entries_len(a) + entries_len(b),
    decreases b.len(),
{
    if b.len() == 0 {
        assert(a + b =~= a);
    } else {
        assert((a + b).drop_last() =~= a + b.drop_last());
        lemma_entries_len_concat(a, b.drop_last());
    }
}

/// Ten to the power of `k`.
spec fn power_of_ten(k: nat) -> nat
    decreases k,
{
    if k == 0 {
        1
    } else {
        10 * power_of_ten((k - 1) as nat)
    }
}

/// A number below ten to the power of `k` has at most `k` digits.
proof fn lemma_digits_bound(n: nat, k: nat)
    requires
        n < power_of_ten(k),
        k >= 1,
    ensures
        1 <= decimal(n).len() <= k,
    decreases k,
{
    if n >= 10 {
        if k == 1 {
            assert(power_of_ten(1) == 10) by {
                reveal_with_fuel(power_of_ten, 2);
            }
        } else {
            lemma_digits_bound(n / 10, (k - 1) as nat);
        }
    }
}

/// The number of decimal digits in an unsigned integer.
pub fn decimal_len(value: u64) -> (len: usize)
    ensures
        len == decimal(value as nat).len(),
{
    proof {
        reveal_with_fuel(power_of_ten, 21);
        lemma_digits_bound(value as nat, 20);
    }
    let mut rest: u64 = value;
    let mut len: usize = 1;
    while rest >= 10
        invariant
            decimal(value as nat).len() <= 20,
            decimal(value as nat).len() == decimal(rest as nat).len() + len - 1,
        decreases rest,
    {
        rest = rest / 10;
        len = len + 1;
    }
    len
}

/// `n` where it is a `usize`.
pub open spec fn fitting(n: nat) -> Option<usize> {
    if n <= usize::MAX {
        Some(n as usize)
    } else {
        None
    }
}

/// The size of the entry `name` with a value of size `value_len`, added to `bytes`.
fn add_entry_len(bytes: usize, name: &str, value_len: usize) -> (sum: Option<usize>)
    ensures
        sum == fitting((bytes + utf8(quoted(name@)).len() + 1 + value_len) as nat),
{
    let name_len = quoted_byte_len(name);
    match bytes.checked_add(name_len) {
        Some(sum) => match sum.checked_add(1) {
            Some(sum) => sum.checked_add(value_len),
            None => None,
        },
        None => None,
    }
}

/// Compact JSON bytes of the value produced by [`merge_usage_owned`] without
/// constructing a second usage tree; `None` where their number is no `usize`.
pub fn merged_usage_json_bytes(accumulated: &Json, current: &Json) -> (bytes: Option<usize>)
    requires
        well_formed(accumulated@),
        well_formed(current@),
    ensures
        bytes == fitting(text_len(merged(accumulated@, current@))),
    decreases current,
{
    match current {
        Json::Object(members) => match accumulated {
            Json::Object(held) => merged_members_json_bytes(held, members),
            _ => Some(byte_len_of(current)),
        },
        Json::Number(JsonNumber::Unsigned(right)) => match accumulated {
            Json::Number(JsonNumber::Unsigned(left)) => {
                let sum: u64 = left.saturating_add(*right);
                proof {
                    lemma_decimal_ascii(sum as nat);
                    assert(vstd::utf8::is_ascii_chars(decimal(sum as nat)));
                    vstd::utf8::is_ascii_chars_encode_utf8(decimal(sum as nat));
                }
                Some(decimal_len(sum))
            },
            _ => Some(byte_len_of(current)),
        },
        _ => Some(byte_len_of(current)),
    }
}

/// Compact JSON bytes of the object that merging `members` into `held` gives.
fn merged_members_json_bytes(held: &Vec<Member>, members: &Vec<Member>) -> (bytes: Option<usize>)
    requires
        well_formed(JsonView::Object(members_view(held@))),
        well_formed(JsonView::Object(members_view(members@))),
    ensures
        bytes == fitting(
            text_len(
                JsonView::Object(merged_members(members_view(held@), members_view(members@))),
            ),
        ),
    decreases members,
{
    let ghost a = members_view(held@);
    let ghost c = members_view(members@);
    let ghost whole = united(a, c);
    let ghost mapped = Seq::new(a.len(), |i: int| merged_entry(a[i], c));
    let ghost fresh = fresh_members(a, c);
    proof {
        lemma_merged_is_united(a, c);
        lemma_object_len(whole);
        lemma_entries_len_concat(mapped, fresh);
    }
    let mut bytes: usize = 2;
    let mut entries: usize = 0;
    let mut i: usize = 0;
    assert(mapped.take(0) =~= Seq::empty());
    while i < held.len()
        invariant
            a == members_view(held@),
            c == members_view(members@),
            well_formed(JsonView::Object(a)),
            well_formed(JsonView::Object(c)),
            mapped == Seq::new(a.len(), |i: int| merged_entry(a[i], c)),
            fresh == fresh_members(a, c),
            whole == mapped + fresh,
            merged_members(a, c) == whole,
            text_len(JsonView::Object(whole)) == 2 + entries_len(mapped) + entries_len(fresh)
                + commas(whole.len()),
            i <= held.len(),
            entries == i,
            bytes == 2 + entries_len(mapped.take(i as int)),
        decreases held.len() - i,
    {
        proof {
            lemma_entries_len_prefix(mapped, i + 1);
            assert(mapped.take(i + 1).drop_last() =~= mapped.take(i as int));
            assert(mapped.take(i + 1).last() == merged_entry(a[i as int], c));
            assert(a[i as int] == (held@[i as int].name@, held@[i as int].value@));
            assert(well_formed(a[i as int].1));
        }
        let found = find_member(members, held[i].name.as_str());
        let value_len = match found {
            Some(at) => {
                assert(c[at as int] == (members@[at as int].name@, members@[at as int].value@));
                assert(well_formed(c[at as int].1));
                match merged_usage_json_bytes(&held[i].value, &members[at].value) {
                    Some(len) => len,
                    None => return None,
                }
            },
            None => byte_len_of(&held[i].value),
        };
        bytes = match add_entry_len(bytes, held[i].name.as_str(), value_len) {
            Some(sum) => sum,
            None => return None,
        };
        entries = entries + 1;
        i = i + 1;
    }
    assert(mapped.take(i as int) =~= mapped);
    proof {
        lemma_entries_len_count(mapped);
    }
    let mut k: usize = 0;
    assert(c.take(0) =~= Seq::empty());
    while k < members.len()
        invariant
            a == members_view(held@),
            c == members_view(members@),
            fresh == fresh_members(a, c),
            whole == mapped + fresh,
            mapped.len() == a.len() == held.len(),
            merged_members(a, c) == whole,
            text_len(JsonView::Object(whole)) == 2 + entries_len(mapped) + entries_len(fresh)
                + commas(whole.len()),
            k <= members.len(),
            entries == mapped.len() + fresh_members(a, c.take(k as int)).len(),
            entries <= bytes,
            bytes == 2 + entries_len(mapped) + entries_len(fresh_members(a, c.take(k as int))),
        decreases members.len() - k,
    {
        proof {
            lemma_fresh_prefix(a, c, k + 1);
            assert(c.take(k + 1).drop_last() =~= c.take(k as int));
            assert(c.take(k + 1).last() == c[k as int]);
            assert(c[k as int] == (members@[k as int].name@, members@[k as int].value@));
        }
        if find_member(held, members[k].name.as_str()).is_none() {
            let ghost front = fresh_members(a, c.take(k as int));
            assert(front.push(c[k as int]).drop_last() =~= front);
            bytes = match add_entry_len(
                bytes,
                members[k].name.as_str(),
                byte_len_of(&members[k].value),
            ) {
                Some(sum) => sum,
                None => return None,
            };
            entries = entries + 1;
        }
        k = k + 1;
    }
    assert(c.take(k as int) =~= c);
    bytes.checked_add(entries.saturating_sub(1))
}

/// A leading part of entries is no larger than all of them.
proof fn lemma_entries_len_prefix(members: Members, n: int)
    requires
        0 <= n <= members.len(),
    ensures
        entries_len(members.take(n)) <= entries_len(members),
        n <= entries_len(members.take(n)),
    decreases members.len() - n,
{
    if n == members.len() {
        assert(members.take(n) =~= members);
        lemma_entries_len_count(members);
    } else {
        lemma_entries_len_prefix(members, n + 1);
        assert(members.take(n + 1).drop_last() =~= members.take(n));
        lemma_entries_len_count(members.take(n));
    }
}

/// Every entry has at least one byte.
proof fn lemma_entries_len_count(members: Members)
    ensures
        members.len() <= entries_len(members),
    decreases members.len(),
{
    if members.len() > 0 {
        lemma_entries_len_count(members.drop_last());
    }
}

/// The fresh members of a leading part take no more room than all of them.
proof fn lemma_fresh_prefix(a: Members, c: Members, n: int)
    requires
        0 <= n <= c.len(),
    ensures
        entries_len(fresh_members(a, c.take(n))) <= entries_len(fresh_members(a, c)),
    decreases c.len() - n,
{
    if n == c.len() {
        assert(c.take(n) =~= c);
    } else {
        lemma_fresh_prefix(a, c, n + 1);
        let longer = c.take(n + 1);
        assert(longer.drop_last() =~= c.take(n));
        let front = fresh_members(a, c.take(n));
        if position_of(a, longer.last().0) is None {
            assert(front.push(longer.last()).drop_last() =~= front);
        }
    }
}

/// A fresh member of `c` is among the fresh members.
proof fn lemma_fresh_holds(a: Members, c: Members, k: int)
    requires
        0 <= k < c.len(),
        position_of(a, c[k].0) is None,
    ensures
        fresh_members(a, c).contains(c[k]),
    decreases c.len(),
{
    let rest = c.drop_last();
    let front = fresh_members(a, rest);
    let all = fresh_members(a, c);
    if k == c.len() - 1 {
        assert(all[front.len() as int] == c[k]);
    } else {
        lemma_fresh_holds(a, rest, k);
        let j = choose|j: int| 0 <= j < front.len() && front[j] == c[k];
        assert(all[j] == c[k]);
    }
}

/// Fresh members of distinct members are distinct.
proof fn lemma_fresh_distinct(a: Members, c: Members)
    requires
        distinct_names(c),
    ensures
        distinct_names(fresh_members(a, c)),
    decreases c.len(),
{
    if c.len() > 0 {
        let rest = c.drop_last();
        assert forall|i: int, j: int| 0 <= i < j < rest.len() implies (#[trigger] rest[i]).0 != (
        #[trigger] rest[j]).0 by {
            assert(rest[i] == c[i] && rest[j] == c[j]);
        }
        lemma_fresh_distinct(a, rest);
        lemma_fresh_names(a, rest);
        let front = fresh_members(a, rest);
        let all = fresh_members(a, c);
        assert forall|i: int, j: int| 0 <= i < j < all.len() implies (#[trigger] all[i]).0 != (
        #[trigger] all[j]).0 by {
            assert(all[i] == front[i]);
            if j < front.len() {
                assert(all[j] == front[j]);
            } else {
                assert(rest.contains(front[i]));
                let k = choose|k: int| 0 <= k < rest.len() && rest[k] == front[i];
                assert(rest[k] == c[k]);
                assert(c[k].0 != c[c.len() - 1].0);
            }
        }
    }
}

/// Merging loses no field: what was accumulated keeps its place and its name, and
/// every field of the current usage is there.
pub proof fn lemma_merge_keeps_fields(a: Members, c: Members)
    requires
        distinct_names(a),
        distinct_names(c),
    ensures
        forall|i: int|
            0 <= i < a.len() ==> (#[trigger] merged_members(a, c)[i]).0 == a[i].0,
        forall|k: int|
            0 <= k < c.len() ==> position_of(merged_members(a, c), (#[trigger] c[k]).0) is Some,
        merged_members(a, c).len() >= a.len(),
{
    lemma_merged_is_united(a, c);
    let all = united(a, c);
    assert forall|k: int| 0 <= k < c.len() implies position_of(all, (#[trigger] c[k]).0)
        is Some by {
        lemma_position_of(all, c[k].0);
        lemma_position_of(a, c[k].0);
        match position_of(a, c[k].0) {
            Some(i) => {
                assert(all[i].0 == a[i].0);
            },
            None => {
                lemma_fresh_holds(a, c, k);
                let fresh = fresh_members(a, c);
                let j = choose|j: int| 0 <= j < fresh.len() && fresh[j] == c[k];
                assert(all[a.len() + j] == fresh[j]);
            },
        }
    }
}

/// Merging well-formed usage gives well-formed usage.
pub proof fn lemma_merge_keeps_well_formed(accumulated: JsonView, current: JsonView)
    requires
        well_formed(accumulated),
        well_formed(current),
    ensures
        well_formed(merged(accumulated, current)),
    decreases current,
{
    match (accumulated, current) {
        (JsonView::Object(a), JsonView::Object(c)) => {
            lemma_merged_is_united(a, c);
            lemma_fresh_names(a, c);
            lemma_fresh_distinct(a, c);
            let all = united(a, c);
            let fresh = fresh_members(a, c);
            assert forall|i: int, j: int| 0 <= i < j < all.len() implies (#[trigger] all[i]).0 != (
            #[trigger] all[j]).0 by {
                if j < a.len() {
                    assert(all[i].0 == a[i].0 && all[j].0 == a[j].0);
                } else if i < a.len() {
                    assert(all[i].0 == a[i].0);
                    assert(all[j] == fresh[j - a.len()]);
                    lemma_position_of(a, all[j].0);
                } else {
                    assert(all[i] == fresh[i - a.len()] && all[j] == fresh[j - a.len()]);
                }
            }
            assert forall|i: int| 0 <= i < all.len() implies well_formed((#[trigger] all[i]).1) by {
                if i < a.len() {
                    assert(all[i] == merged_entry(a[i], c));
                    assert(well_formed(a[i].1));
                    lemma_position_of(c, a[i].0);
                    match position_of(c, a[i].0) {
                        Some(k) => {
                            assert(well_formed(c[k].1));
                            lemma_merge_keeps_well_formed(a[i].1, c[k].1);
                        },
                        None => {},
                    }
                } else {
                    assert(all[i] == fresh[i - a.len()]);
                    assert(c.contains(all[i]));
                    let k = choose|k: int| 0 <= k < c.len() && c[k] == all[i];
                    assert(well_formed(c[k].1));
                }
            }
        },
        _ => {},
    }
}

/// Usage adds up, field by field: of a field that both count, the sum is kept, at
/// most the largest number there is; a field that only one of them has is kept as it
/// is; and what is nested adds up in the same way.
pub proof fn lemma_usage_adds_up(accumulated: JsonView, current: JsonView, name: Seq<char>)
    requires
        accumulated is Object,
        current is Object,
        well_formed(accumulated),
        well_formed(current),
    ensures
        ({
            let total = merged(accumulated, current).get(name);
            match (accumulated.get(name), current.get(name)) {
                (
                    Some(JsonView::Number(NumberView::Unsigned(a))),
                    Some(JsonView::Number(NumberView::Unsigned(b))),
                ) => if a + b <= u64::MAX {
                    total == Some(JsonView::Number(NumberView::Unsigned((a + b) as u64)))
                } else {
                    total == Some(JsonView::Number(NumberView::Unsigned(u64::MAX)))
                },
                (Some(JsonView::Object(a)), Some(JsonView::Object(c))) => total == Some(
                    merged(JsonView::Object(a), JsonView::Object(c)),
                ),
                (_, Some(value)) => total == Some(value),
                (value, None) => total == value,
            }
        }),
{
    let a = accumulated->Object_0;
    let c = current->Object_0;
    lemma_merged_is_united(a, c);
    let all = united(a, c);
    let fresh = fresh_members(a, c);
    lemma_position_of(a, name);
    lemma_position_of(c, name);
    lemma_fresh_names(a, c);
    match position_of(a, name) {
        Some(i) => {
            assert forall|j: int| 0 <= j < i implies (#[trigger] all[j]).0 != name by {
                assert(all[j].0 == a[j].0);
            }
            assert(all[i].0 == name);
            lemma_position_is(all, name, i);
        },
        None => match position_of(c, name) {
            Some(k) => {
                lemma_fresh_holds(a, c, k);
                let j = choose|j: int| 0 <= j < fresh.len() && fresh[j] == c[k];
                let at = a.len() + j;
                assert(all[at] == c[k]);
                lemma_position_of(all, name);
                let first = position_of(all, name)->0;
                if first < a.len() {
                    assert(all[first].0 == a[first].0);
                } else {
                    assert(all[first] == fresh[first - a.len()]);
                    assert(c.contains(fresh[first - a.len()]));
                    let m = choose|m: int| 0 <= m < c.len() && c[m] == fresh[first - a.len()];
                    assert(c[m].0 == c[k].0);
                }
            },
            None => {
                assert forall|j: int| 0 <= j < all.len() implies (#[trigger] all[j]).0 != name by {
                    if j < a.len() {
                        assert(all[j].0 == a[j].0);
                    } else {
                        assert(all[j] == fresh[j - a.len()]);
                        assert(c.contains(fresh[j - a.len()]));
                    }
                }
                lemma_position_absent(all, name);
            },
        },
    }
}

} // verus!
