//! Fixed-size content digest of an output item.
//!
//! The digest is compared across rounds to detect when a previously streamed item
//! changed. It is taken over a canonical encoding: each value leads with a tag of
//! its type, texts end with a byte that no text holds, containers lead with their
//! length, and object members come in the order of their names. So it depends on
//! content alone: the order of an object's members does not count.

use std::collections::hash_map::DefaultHasher;
use std::hash::Hasher;

use vstd::prelude::*;
use vstd::std_specs::hash::DefaultHasherAdditionalSpecFns;

use crate::json::{
    distinct_names, find_member, items_view, lemma_position_is, lemma_position_of, member,
    members_view, position_of, well_formed, Json, JsonNumber, JsonView, Member, Members,
    NumberView,
};
use crate::text::{lemma_utf8_injective, push_text, utf8};
use crate::text_order::{lemma_sorted_alike, names_of, sorted_names, text_order};

verus! {

broadcast use crate::json_model::group_json_view;

/// The eight bytes of `n`, the lowest first.
pub open spec fn eight_bytes(n: u64) -> Seq<u8> {
    seq![
        (n & 0xff) as u8,
        ((n >> 8) & 0xff) as u8,
        ((n >> 16) & 0xff) as u8,
        ((n >> 24) & 0xff) as u8,
        ((n >> 32) & 0xff) as u8,
        ((n >> 40) & 0xff) as u8,
        ((n >> 48) & 0xff) as u8,
        ((n >> 56) & 0xff) as u8,
    ]
}

/// The bytes of a text and the byte that ends it.
pub open spec fn ended_text(s: Seq<char>) -> Seq<u8> {
    utf8(s).push(0xff)
}

/// The encoding of a number: integers by sign and magnitude, other numbers by
/// their text.
pub open spec fn canonical_number(n: NumberView) -> Seq<u8> {
    match n {
        NumberView::Unsigned(n) => seq![0u8, 0u8] + eight_bytes(n),
        NumberView::Negative(n) => if n < 0 {
            seq![0u8, 1u8] + eight_bytes((-n) as u64)
        } else {
            seq![0u8, 0u8] + eight_bytes(n as u64)
        },
        NumberView::Float(text) => seq![1u8] + ended_text(text),
    }
}

/// The names of members.
pub open spec fn member_names(members: Members) -> Seq<Seq<char>> {
    Seq::new(members.len(), |i: int| members[i].0)
}

/// The canonical encoding of a value.
pub open spec fn canonical(value: JsonView) -> Seq<u8>
    decreases value, 0nat,
{
    match value {
        JsonView::Null => seq![0u8],
        JsonView::Bool(b) => seq![1u8, if b { 1u8 } else { 0u8 }],
        JsonView::Number(n) => seq![2u8] + canonical_number(n),
        JsonView::String(s) => seq![3u8] + ended_text(s),
        JsonView::Array(items) => seq![4u8] + eight_bytes(items.len() as u64) + canonical_items(
            items,
        ),
        JsonView::Object(members) => seq![5u8] + eight_bytes(members.len() as u64)
            + canonical_members(members, member_names(members).sort_by(text_order())),
    }
}

/// The canonical encodings of values, one behind the other.
pub open spec fn canonical_items(items: Seq<JsonView>) -> Seq<u8>
    decreases items, 0nat,
{
    if items.len() == 0 {
        Seq::empty()
    } else {
        canonical_items(items.subrange(0, items.len() - 1)) + canonical(items[items.len() - 1])
    }
}

/// The encodings of the members with the given names, one behind the other.
pub open spec fn canonical_members(members: Members, names: Seq<Seq<char>>) -> Seq<u8>
    decreases members, names.len(),
{
    if names.len() == 0 {
        Seq::empty()
    } else {
        let front = canonical_members(members, names.drop_last());
        match position_of(members, names.last()) {
            Some(i) => if 0 <= i < members.len() {
                front + ended_text(names.last()) + canonical(members[i].1)
            } else {
                front
            },
            None => front,
        }
    }
}

/// Appends the eight bytes of `n` to `out`.
fn push_eight_bytes(out: &mut Vec<u8>, n: u64)
    ensures
        final(out)@ == old(out)@ + eight_bytes(n),
{
    out.push((n & 0xff) as u8);
    out.push(((n >> 8) & 0xff) as u8);
    out.push(((n >> 16) & 0xff) as u8);
    out.push(((n >> 24) & 0xff) as u8);
    out.push(((n >> 32) & 0xff) as u8);
    out.push(((n >> 40) & 0xff) as u8);
    out.push(((n >> 48) & 0xff) as u8);
    out.push(((n >> 56) & 0xff) as u8);
    assert(out@ =~= old(out)@ + eight_bytes(n));
}

/// Appends the bytes of `s` and the byte that ends it to `out`.
fn push_ended_text(out: &mut Vec<u8>, s: &str)
    ensures
        final(out)@ == old(out)@ + ended_text(s@),
{
    push_text(out, s);
    out.push(0xff);
    assert(out@ =~= old(out)@ + ended_text(s@));
}

/// Appends the encoding of a number to `out`.
fn encode_number(n: &JsonNumber, out: &mut Vec<u8>)
    ensures
        final(out)@ == old(out)@ + canonical_number(n@),
{
    match n {
        JsonNumber::Unsigned(n) => {
            out.push(0);
            out.push(0);
            push_eight_bytes(out, *n);
        },
        JsonNumber::Negative(n) => {
            let n: i64 = *n;
            out.push(0);
            if n < 0 {
                out.push(1);
                let magnitude: u64 = if n == i64::MIN {
                    9223372036854775808u64
                } else {
                    (-n) as u64
                };
                push_eight_bytes(out, magnitude);
            } else {
                out.push(0);
                push_eight_bytes(out, n as u64);
            }
        },
        JsonNumber::Float(text) => {
            out.push(1);
            push_ended_text(out, text.as_str());
        },
    }
    assert(out@ =~= old(out)@ + canonical_number(n@));
}

/// Appends the canonical encoding of `value` to `out`.
pub fn encode_canonical(value: &Json, out: &mut Vec<u8>)
    ensures
        final(out)@ == old(out)@ + canonical(value@),
    decreases value, 0nat,
{
    match value {
        Json::Null => out.push(0),
        Json::Bool(b) => {
            out.push(1);
            out.push(if *b { 1 } else { 0 });
        },
        Json::Number(n) => {
            out.push(2);
            encode_number(n, out);
        },
        Json::String(s) => {
            out.push(3);
            push_ended_text(out, s.as_str());
        },
        Json::Array(items) => {
            out.push(4);
            push_eight_bytes(out, items.len() as u64);
            encode_items(items, out);
        },
        Json::Object(members) => {
            out.push(5);
            push_eight_bytes(out, members.len() as u64);
            encode_members(members, out);
        },
    }
    assert(out@ =~= old(out)@ + canonical(value@));
}

/// Appends the canonical encodings of `items` to `out`.
fn encode_items(items: &Vec<Json>, out: &mut Vec<u8>)
    ensures
        final(out)@ == old(out)@ + canonical_items(items_view(items@)),
    decreases items, 0nat,
{
    let ghost view = items_view(items@);
    let mut i: usize = 0;
    assert(out@ =~= old(out)@ + canonical_items(view.subrange(0, 0)));
    while i < items.len()
        invariant
            view == items_view(items@),
            i <= items.len(),
            out@ == old(out)@ + canonical_items(view.subrange(0, i as int)),
        decreases items.len() - i,
    {
        let ghost part = view.subrange(0, i + 1);
        assert(part.subrange(0, part.len() - 1) =~= view.subrange(0, i as int));
        assert(part[i as int] == items@[i as int]@);
        encode_canonical(&items[i], out);
        assert(out@ =~= old(out)@ + canonical_items(part));
        i = i + 1;
    }
    assert(view.subrange(0, i as int) =~= view);
}

/// The names of `members`.
fn names_in(members: &Vec<Member>) -> (names: Vec<String>)
    ensures
        names_of(names@) == member_names(members_view(members@)),
{
    let mut names: Vec<String> = Vec::new();
    let mut i: usize = 0;
    while i < members.len()
        invariant
            i <= members.len(),
            names.len() == i,
            forall|j: int| 0 <= j < i ==> (#[trigger] names@[j])@ == members@[j].name@,
        decreases members.len() - i,
    {
        names.push(members[i].name.clone());
        i = i + 1;
    }
    assert(names_of(names@) =~= member_names(members_view(members@)));
    names
}

/// Appends the encodings of `members` to `out`, in the order of their names.
fn encode_members(members: &Vec<Member>, out: &mut Vec<u8>)
    ensures
        final(out)@ == old(out)@ + canonical_members(
            members_view(members@),
            member_names(members_view(members@)).sort_by(text_order()),
        ),
    decreases members, 0nat,
{
    let ghost view = members_view(members@);
    let names = names_in(members);
    let sorted = sorted_names(&names);
    let ghost order = names_of(sorted@);
    let mut i: usize = 0;
    assert(out@ =~= old(out)@ + canonical_members(view, order.take(0)));
    while i < sorted.len()
        invariant
            view == members_view(members@),
            order == names_of(sorted@),
            i <= sorted.len(),
            out@ == old(out)@ + canonical_members(view, order.take(i as int)),
        decreases sorted.len() - i,
    {
        let ghost part = order.take(i + 1);
        assert(part.drop_last() =~= order.take(i as int));
        assert(part.last() == sorted@[i as int]@);
        if let Some(at) = find_member(members, sorted[i].as_str()) {
            push_ended_text(out, sorted[i].as_str());
            encode_canonical(&members[at].value, out);
            assert(view[at as int].1 == members@[at as int].value@);
        }
        assert(out@ =~= old(out)@ + canonical_members(view, part));
        i = i + 1;
    }
    assert(order.take(i as int) =~= order);
}

/// The digest of a value.
pub open spec fn digest_of(value: JsonView) -> u64 {
    DefaultHasher::spec_finish(seq![canonical(value)])
}

/// Fixed-size content digest of an output item, compared across rounds to detect
/// when a previously streamed item changed.
pub fn item_digest(item: &Json) -> (digest: u64)
    ensures
        digest == digest_of(item@),
{
    let mut bytes: Vec<u8> = Vec::new();
    encode_canonical(item, &mut bytes);
    assert(bytes@ =~= canonical(item@));
    let mut hasher = DefaultHasher::new();
    hasher.write(bytes.as_slice());
    assert(hasher@ =~= seq![canonical(item@)]);
    hasher.finish()
}

/// Whether two values have the same content: everything is equal but for the
/// order of the members of objects.
pub open spec fn same_content(a: JsonView, b: JsonView) -> bool
    decreases a,
{
    match (a, b) {
        (JsonView::Array(x), JsonView::Array(y)) => x.len() == y.len() && forall|i: int|
            0 <= i < x.len() ==> same_content(#[trigger] x[i], y[i]),
        (JsonView::Object(x), JsonView::Object(y)) => {
            &&& x.len() == y.len()
            &&& forall|name: Seq<char>|
                #[trigger] member_names(x).contains(name) <==> member_names(y).contains(name)
            &&& forall|i: int|
                0 <= i < x.len() ==> member(y, (#[trigger] x[i]).0) is Some && same_content(
                    x[i].1,
                    member(y, x[i].0)->0,
                )
        },
        _ => a == b,
    }
}

/// Distinct members have distinct names, each of which is found.
proof fn lemma_names(members: Members)
    requires
        distinct_names(members),
    ensures
        member_names(members).no_duplicates(),
        forall|i: int|
            0 <= i < members.len() ==> position_of(members, (#[trigger] members[i]).0) == Some(i),
        forall|name: Seq<char>|
            #[trigger] member_names(members).contains(name) <==> position_of(members, name)
                is Some,
{
    let names = member_names(members);
    assert forall|i: int, j: int|
        0 <= i < names.len() && 0 <= j < names.len() && i != j implies names[i] != names[j] by {
        if i < j {
            assert(members[i].0 != members[j].0);
        } else {
            assert(members[j].0 != members[i].0);
        }
    }
    assert forall|i: int| 0 <= i < members.len() implies position_of(
        members,
        (#[trigger] members[i]).0,
    ) == Some(i) by {
        lemma_position_is(members, members[i].0, i);
    }
    assert forall|name: Seq<char>|
        #[trigger] names.contains(name) <==> position_of(members, name) is Some by {
        lemma_position_of(members, name);
        if names.contains(name) {
            let k = choose|k: int| 0 <= k < names.len() && names[k] == name;
            assert(members[k].0 == name);
        }
        match position_of(members, name) {
            Some(k) => {
                assert(names[k] == name);
            },
            None => {},
        }
    }
}

/// Items of the same content have one encoding.
proof fn lemma_same_items(x: Seq<JsonView>, y: Seq<JsonView>)
    requires
        x.len() == y.len(),
        forall|i: int| 0 <= i < x.len() ==> same_content(#[trigger] x[i], y[i]),
        forall|i: int| 0 <= i < x.len() ==> well_formed(#[trigger] x[i]),
        forall|i: int| 0 <= i < y.len() ==> well_formed(#[trigger] y[i]),
    ensures
        canonical_items(x) == canonical_items(y),
    decreases x, 1nat,
{
    if x.len() > 0 {
        let n = x.len() - 1;
        let xs = x.subrange(0, n);
        let ys = y.subrange(0, n);
        assert forall|i: int| 0 <= i < xs.len() implies same_content(#[trigger] xs[i], ys[i]) by {
            assert(xs[i] == x[i] && ys[i] == y[i]);
        }
        assert forall|i: int| 0 <= i < xs.len() implies well_formed(#[trigger] xs[i]) by {
            assert(xs[i] == x[i]);
        }
        assert forall|i: int| 0 <= i < ys.len() implies well_formed(#[trigger] ys[i]) by {
            assert(ys[i] == y[i]);
        }
        lemma_same_items(xs, ys);
        assert(same_content(x[n], y[n]));
        lemma_member_order_does_not_count(x[n], y[n]);
    }
}

/// Members of the same content have one encoding under the same names.
proof fn lemma_same_members(x: Members, y: Members, names: Seq<Seq<char>>)
    requires
        distinct_names(x),
        distinct_names(y),
        forall|i: int|
            0 <= i < x.len() ==> member(y, (#[trigger] x[i]).0) is Some && same_content(
                x[i].1,
                member(y, x[i].0)->0,
            ),
        forall|i: int| 0 <= i < x.len() ==> well_formed((#[trigger] x[i]).1),
        forall|i: int| 0 <= i < y.len() ==> well_formed((#[trigger] y[i]).1),
        forall|k: int| 0 <= k < names.len() ==> member_names(x).contains(#[trigger] names[k]),
    ensures
        canonical_members(x, names) == canonical_members(y, names),
    decreases x, 1 + names.len(),
{
    if names.len() > 0 {
        let rest = names.drop_last();
        assert forall|k: int| 0 <= k < rest.len() implies member_names(x).contains(
            #[trigger] rest[k],
        ) by {
            assert(rest[k] == names[k]);
        }
        lemma_same_members(x, y, rest);
        let name = names[names.len() - 1];
        assert(member_names(x).contains(name));
        lemma_names(x);
        lemma_position_of(x, name);
        let i = position_of(x, name)->0;
        assert(x[i].0 == name);
        lemma_position_of(y, name);
        let j = position_of(y, name)->0;
        assert(well_formed(x[i].1) && well_formed(y[j].1));
        lemma_member_order_does_not_count(x[i].1, y[j].1);
    }
}

/// Values of the same content have one canonical encoding, and so one digest: the
/// order of the members of objects, at any depth, does not count.
pub proof fn lemma_member_order_does_not_count(a: JsonView, b: JsonView)
    requires
        well_formed(a),
        well_formed(b),
        same_content(a, b),
    ensures
        canonical(a) == canonical(b),
        digest_of(a) == digest_of(b),
    decreases a, 0nat,
{
    match (a, b) {
        (JsonView::Array(x), JsonView::Array(y)) => {
            lemma_same_items(x, y);
        },
        (JsonView::Object(x), JsonView::Object(y)) => {
            lemma_names(x);
            lemma_names(y);
            lemma_sorted_alike(member_names(x), member_names(y));
            let order = member_names(x).sort_by(text_order());
            crate::text_order::lemma_text_order();
            member_names(x).lemma_sort_by_ensures(text_order());
            assert forall|k: int| 0 <= k < order.len() implies member_names(x).contains(
                #[trigger] order[k],
            ) by {
                assert(order.contains(order[k]));
            }
            lemma_same_members(x, y, order);
        },
        _ => {},
    }
}

/// No byte of a text is the one that ends a text.
proof fn lemma_text_byte(s: Seq<char>, i: int)
    requires
        0 <= i < utf8(s).len(),
    ensures
        utf8(s)[i] != 0xff,
{
    let bytes = utf8(s);
    vstd::utf8::encode_utf8_valid_utf8(s);
    vstd::utf8::is_char_boundary_iff_not_is_continuation_byte(bytes, i);
    vstd::utf8::is_char_boundary_iff_is_leading_byte(bytes, i);
}

/// Ended texts that begin one byte string are one text.
proof fn lemma_ended_text_prefix(a: Seq<char>, b: Seq<char>, s: Seq<u8>, t: Seq<u8>)
    requires
        ended_text(a) + s == ended_text(b) + t,
    ensures
        a == b,
        s == t,
{
    let whole = ended_text(a) + s;
    let other = ended_text(b) + t;
    let n = utf8(a).len() as int;
    let m = utf8(b).len() as int;
    assert(whole[n] == 0xff);
    assert(other[m] == 0xff);
    if n < m {
        lemma_text_byte(b, n);
        assert(other[n] == utf8(b)[n]);
    }
    if m < n {
        lemma_text_byte(a, m);
        assert(whole[m] == utf8(a)[m]);
    }
    assert(utf8(a) =~= whole.take(n));
    assert(utf8(b) =~= other.take(n));
    lemma_utf8_injective(a, b);
    assert(s =~= whole.skip(n + 1));
    assert(t =~= other.skip(n + 1));
}

/// Eight bytes that begin one byte string are of one number.
proof fn lemma_eight_bytes_prefix(n: u64, m: u64, s: Seq<u8>, t: Seq<u8>)
    requires
        eight_bytes(n) + s == eight_bytes(m) + t,
    ensures
        n == m,
        s == t,
{
    let a = eight_bytes(n);
    let b = eight_bytes(m);
    let whole = a + s;
    let other = b + t;
    assert(whole[0] == a[0] && other[0] == b[0]);
    assert(whole[1] == a[1] && other[1] == b[1]);
    assert(whole[2] == a[2] && other[2] == b[2]);
    assert(whole[3] == a[3] && other[3] == b[3]);
    assert(whole[4] == a[4] && other[4] == b[4]);
    assert(whole[5] == a[5] && other[5] == b[5]);
    assert(whole[6] == a[6] && other[6] == b[6]);
    assert(whole[7] == a[7] && other[7] == b[7]);
    assert(n == m) by (bit_vector)
        requires
            (n & 0xff) as u8 == (m & 0xff) as u8,
            ((n >> 8) & 0xff) as u8 == ((m >> 8) & 0xff) as u8,
            ((n >> 16) & 0xff) as u8 == ((m >> 16) & 0xff) as u8,
            ((n >> 24) & 0xff) as u8 == ((m >> 24) & 0xff) as u8,
            ((n >> 32) & 0xff) as u8 == ((m >> 32) & 0xff) as u8,
            ((n >> 40) & 0xff) as u8 == ((m >> 40) & 0xff) as u8,
            ((n >> 48) & 0xff) as u8 == ((m >> 48) & 0xff) as u8,
            ((n >> 56) & 0xff) as u8 == ((m >> 56) & 0xff) as u8,
    ;
    assert(s =~= whole.skip(8));
    assert(t =~= other.skip(8));
}

/// Whether the containers inside `value` have at most as many parts as a length
/// of 64 bits can tell.
pub open spec fn countable(value: JsonView) -> bool
    decreases value,
{
    match value {
        JsonView::Array(items) => items.len() <= u64::MAX && forall|i: int|
            0 <= i < items.len() ==> countable(#[trigger] items[i]),
        JsonView::Object(members) => members.len() <= u64::MAX && forall|i: int|
            0 <= i < members.len() ==> countable((#[trigger] members[i]).1),
        _ => true,
    }
}

/// The encodings of numbers that begin one byte string are of one number.
proof fn lemma_number_prefix(a: NumberView, b: NumberView, s: Seq<u8>, t: Seq<u8>)
    requires
        well_formed(JsonView::Number(a)),
        well_formed(JsonView::Number(b)),
        canonical_number(a) + s == canonical_number(b) + t,
    ensures
        a == b,
        s == t,
{
    let whole = canonical_number(a) + s;
    let other = canonical_number(b) + t;
    assert(whole[0] == canonical_number(a)[0]);
    assert(other[0] == canonical_number(b)[0]);
    match (a, b) {
        (NumberView::Float(x), NumberView::Float(y)) => {
            assert(whole.skip(1) =~= ended_text(x) + s);
            assert(other.skip(1) =~= ended_text(y) + t);
            lemma_ended_text_prefix(x, y, s, t);
        },
        (NumberView::Float(_), _) => {},
        (_, NumberView::Float(_)) => {},
        _ => {
            assert(whole[1] == canonical_number(a)[1]);
            assert(other[1] == canonical_number(b)[1]);
            let n = magnitude(a);
            let m = magnitude(b);
            assert(whole.skip(2) =~= eight_bytes(n) + s);
            assert(other.skip(2) =~= eight_bytes(m) + t);
            lemma_eight_bytes_prefix(n, m, s, t);
        },
    }
}

/// The magnitude of an integer.
spec fn magnitude(n: NumberView) -> u64 {
    match n {
        NumberView::Unsigned(n) => n,
        NumberView::Negative(n) => (-n) as u64,
        NumberView::Float(_) => 0,
    }
}

/// The encodings of two lists, one behind the other.
proof fn lemma_items_concat(x: Seq<JsonView>, y: Seq<JsonView>)
    ensures
        canonical_items(x + y) == canonical_items(x) + canonical_items(y),
    decreases y.len(),
{
    if y.len() == 0 {
        assert(x + y =~= x);
        assert(canonical_items(x) + canonical_items(y) =~= canonical_items(x));
    } else {
        let whole = x + y;
        let n = y.len() - 1;
        assert(whole.subrange(0, whole.len() - 1) =~= x + y.subrange(0, n));
        lemma_items_concat(x, y.subrange(0, n));
        assert(canonical_items(x + y) =~= canonical_items(x) + canonical_items(y));
    }
}

/// As many items whose encodings begin one byte string have the same content.
proof fn lemma_items_prefix(x: Seq<JsonView>, y: Seq<JsonView>, s: Seq<u8>, t: Seq<u8>)
    requires
        x.len() == y.len(),
        forall|i: int| 0 <= i < x.len() ==> well_formed(#[trigger] x[i]) && countable(x[i]),
        forall|i: int| 0 <= i < y.len() ==> well_formed(#[trigger] y[i]) && countable(y[i]),
        canonical_items(x) + s == canonical_items(y) + t,
    ensures
        forall|i: int| 0 <= i < x.len() ==> same_content(#[trigger] x[i], y[i]),
        s == t,
    decreases x, 1nat,
{
    if x.len() == 0 {
        assert(canonical_items(x) + s =~= s);
        assert(canonical_items(y) + t =~= t);
    } else {
        let xs = x.subrange(1, x.len() as int);
        let ys = y.subrange(1, y.len() as int);
        assert(x =~= seq![x[0]] + xs);
        assert(y =~= seq![y[0]] + ys);
        lemma_items_concat(seq![x[0]], xs);
        lemma_items_concat(seq![y[0]], ys);
        lemma_one_item(x[0]);
        lemma_one_item(y[0]);
        assert(canonical(x[0]) + (canonical_items(xs) + s) =~= canonical_items(x) + s);
        assert(canonical(y[0]) + (canonical_items(ys) + t) =~= canonical_items(y) + t);
        lemma_canonical_prefix(x[0], y[0], canonical_items(xs) + s, canonical_items(ys) + t);
        assert forall|i: int| 0 <= i < xs.len() implies well_formed(#[trigger] xs[i]) && countable(
            xs[i],
        ) by {
            assert(xs[i] == x[i + 1]);
        }
        assert forall|i: int| 0 <= i < ys.len() implies well_formed(#[trigger] ys[i]) && countable(
            ys[i],
        ) by {
            assert(ys[i] == y[i + 1]);
        }
        lemma_items_prefix(xs, ys, s, t);
        assert forall|i: int| 0 <= i < x.len() implies same_content(#[trigger] x[i], y[i]) by {
            if i > 0 {
                assert(xs[i - 1] == x[i] && ys[i - 1] == y[i]);
            }
        }
    }
}

/// The encoding of one item.
proof fn lemma_one_item(v: JsonView)
    ensures
        canonical_items(seq![v]) == canonical(v),
{
    let one = seq![v];
    assert(one.subrange(0, 0) =~= Seq::empty());
    assert(canonical_items(one.subrange(0, 0)) =~= Seq::empty());
    assert(canonical_items(one) =~= canonical(v));
}

/// The encodings of members by names, one list of names behind the other.
proof fn lemma_members_concat(x: Members, a: Seq<Seq<char>>, b: Seq<Seq<char>>)
    ensures
        canonical_members(x, a + b) == canonical_members(x, a) + canonical_members(x, b),
    decreases b.len(),
{
    if b.len() == 0 {
        assert(a + b =~= a);
        assert(canonical_members(x, a) + canonical_members(x, b) =~= canonical_members(x, a));
    } else {
        assert((a + b).drop_last() =~= a + b.drop_last());
        lemma_members_concat(x, a, b.drop_last());
        lemma_position_of(x, b.last());
        assert(canonical_members(x, a + b) =~= canonical_members(x, a) + canonical_members(x, b));
    }
}

/// The encoding of one member.
proof fn lemma_one_member(x: Members, name: Seq<char>)
    requires
        position_of(x, name) is Some,
    ensures
        canonical_members(x, seq![name]) == ended_text(name) + canonical(member(x, name)->0),
{
    lemma_position_of(x, name);
    let one = seq![name];
    assert(one.drop_last() =~= Seq::empty());
    assert(canonical_members(x, one.drop_last()) =~= Seq::empty());
    assert(canonical_members(x, one) =~= ended_text(name) + canonical(member(x, name)->0));
}

/// As many members whose encodings begin one byte string have the same names and
/// the same content.
proof fn lemma_members_prefix(
    x: Members,
    y: Members,
    a: Seq<Seq<char>>,
    b: Seq<Seq<char>>,
    s: Seq<u8>,
    t: Seq<u8>,
)
    requires
        a.len() == b.len(),
        forall|i: int| 0 <= i < x.len() ==> well_formed((#[trigger] x[i]).1) && countable(x[i].1),
        forall|i: int| 0 <= i < y.len() ==> well_formed((#[trigger] y[i]).1) && countable(y[i].1),
        forall|k: int| 0 <= k < a.len() ==> position_of(x, #[trigger] a[k]) is Some,
        forall|k: int| 0 <= k < b.len() ==> position_of(y, #[trigger] b[k]) is Some,
        canonical_members(x, a) + s == canonical_members(y, b) + t,
    ensures
        a == b,
        forall|k: int|
            0 <= k < a.len() ==> same_content(
                member(x, #[trigger] a[k])->0,
                member(y, a[k])->0,
            ),
        s == t,
    decreases x, 1 + a.len(),
{
    if a.len() == 0 {
        assert(a =~= b);
        assert(canonical_members(x, a) + s =~= s);
        assert(canonical_members(y, b) + t =~= t);
    } else {
        let rest_a = a.subrange(1, a.len() as int);
        let rest_b = b.subrange(1, b.len() as int);
        assert(a =~= seq![a[0]] + rest_a);
        assert(b =~= seq![b[0]] + rest_b);
        lemma_members_concat(x, seq![a[0]], rest_a);
        lemma_members_concat(y, seq![b[0]], rest_b);
        lemma_one_member(x, a[0]);
        lemma_one_member(y, b[0]);
        let u = member(x, a[0])->0;
        let v = member(y, b[0])->0;
        let after_u = canonical_members(x, rest_a) + s;
        let after_v = canonical_members(y, rest_b) + t;
        assert(ended_text(a[0]) + (canonical(u) + after_u) =~= canonical_members(x, a) + s);
        assert(ended_text(b[0]) + (canonical(v) + after_v) =~= canonical_members(y, b) + t);
        lemma_ended_text_prefix(a[0], b[0], canonical(u) + after_u, canonical(v) + after_v);
        lemma_position_of(x, a[0]);
        lemma_position_of(y, b[0]);
        let i = position_of(x, a[0])->0;
        let j = position_of(y, b[0])->0;
        assert(well_formed(x[i].1) && well_formed(y[j].1));
        lemma_canonical_prefix(x[i].1, y[j].1, after_u, after_v);
        assert forall|k: int| 0 <= k < rest_a.len() implies position_of(x, #[trigger] rest_a[k])
            is Some by {
            assert(rest_a[k] == a[k + 1]);
        }
        assert forall|k: int| 0 <= k < rest_b.len() implies position_of(y, #[trigger] rest_b[k])
            is Some by {
            assert(rest_b[k] == b[k + 1]);
        }
        lemma_members_prefix(x, y, rest_a, rest_b, s, t);
        assert forall|k: int| 0 <= k < a.len() implies same_content(
            member(x, #[trigger] a[k])->0,
            member(y, a[k])->0,
        ) by {
            if k > 0 {
                assert(rest_a[k - 1] == a[k]);
            }
        }
    }
}

/// Sorting keeps the names.
proof fn lemma_sorted_keeps(names: Seq<Seq<char>>)
    ensures
        names.sort_by(text_order()).len() == names.len(),
        forall|name: Seq<char>|
            #[trigger] names.contains(name) <==> names.sort_by(text_order()).contains(name),
{
    crate::text_order::lemma_text_order();
    names.lemma_sort_by_ensures(text_order());
    let sorted = names.sort_by(text_order());
    vstd::seq_lib::to_multiset_len(names);
    vstd::seq_lib::to_multiset_len(sorted);
    assert forall|name: Seq<char>| #[trigger] names.contains(name) <==> sorted.contains(name) by {
        vstd::seq_lib::to_multiset_contains(names, name);
        vstd::seq_lib::to_multiset_contains(sorted, name);
    }
}

/// Objects with as many members whose encodings begin one byte string have the
/// same content.
proof fn lemma_object_prefix(x: Members, y: Members, s: Seq<u8>, t: Seq<u8>)
    requires
        x.len() == y.len(),
        well_formed(JsonView::Object(x)),
        well_formed(JsonView::Object(y)),
        countable(JsonView::Object(x)),
        countable(JsonView::Object(y)),
        canonical_members(x, member_names(x).sort_by(text_order())) + s == canonical_members(
            y,
            member_names(y).sort_by(text_order()),
        ) + t,
    ensures
        same_content(JsonView::Object(x), JsonView::Object(y)),
        s == t,
    decreases x, 1 + x.len() + 1,
{
    lemma_names(x);
    lemma_names(y);
    let m = member_names(x);
    let n = member_names(y);
    lemma_sorted_keeps(m);
    lemma_sorted_keeps(n);
    let p = m.sort_by(text_order());
    let q = n.sort_by(text_order());
    assert forall|k: int| 0 <= k < p.len() implies position_of(x, #[trigger] p[k]) is Some by {
        assert(p.contains(p[k]));
        assert(m.contains(p[k]));
    }
    assert forall|k: int| 0 <= k < q.len() implies position_of(y, #[trigger] q[k]) is Some by {
        assert(q.contains(q[k]));
        assert(n.contains(q[k]));
    }
    lemma_members_prefix(x, y, p, q, s, t);
    assert forall|i: int| 0 <= i < x.len() implies member(y, (#[trigger] x[i]).0) is Some
        && same_content(x[i].1, member(y, x[i].0)->0) by {
        assert(m[i] == x[i].0);
        assert(m.contains(x[i].0));
        assert(p.contains(x[i].0));
        let k = choose|k: int| 0 <= k < p.len() && p[k] == x[i].0;
        assert(same_content(member(x, p[k])->0, member(y, p[k])->0));
        assert(n.contains(x[i].0));
    }
}

/// The first byte of an encoding tells the type.
proof fn lemma_tag(v: JsonView)
    ensures
        canonical(v).len() > 0,
        canonical(v)[0] == (match v {
            JsonView::Null => 0u8,
            JsonView::Bool(_) => 1u8,
            JsonView::Number(_) => 2u8,
            JsonView::String(_) => 3u8,
            JsonView::Array(_) => 4u8,
            JsonView::Object(_) => 5u8,
        }),
{
}

/// Canonical encodings that begin one byte string are of values of the same
/// content: values of different shapes cannot collide.
proof fn lemma_canonical_prefix(a: JsonView, b: JsonView, s: Seq<u8>, t: Seq<u8>)
    requires
        well_formed(a),
        well_formed(b),
        countable(a),
        countable(b),
        canonical(a) + s == canonical(b) + t,
    ensures
        same_content(a, b),
        s == t,
    decreases a, 0nat,
{
    let whole = canonical(a) + s;
    let other = canonical(b) + t;
    lemma_tag(a);
    lemma_tag(b);
    assert(whole[0] == canonical(a)[0]);
    assert(other[0] == canonical(b)[0]);
    match (a, b) {
        (JsonView::Null, JsonView::Null) => {
            assert(whole.skip(1) =~= s);
            assert(other.skip(1) =~= t);
        },
        (JsonView::Bool(x), JsonView::Bool(y)) => {
            assert(whole[1] == canonical(a)[1]);
            assert(other[1] == canonical(b)[1]);
            assert(whole.skip(2) =~= s);
            assert(other.skip(2) =~= t);
        },
        (JsonView::Number(x), JsonView::Number(y)) => {
            assert(whole.skip(1) =~= canonical_number(x) + s);
            assert(other.skip(1) =~= canonical_number(y) + t);
            lemma_number_prefix(x, y, s, t);
        },
        (JsonView::String(x), JsonView::String(y)) => {
            assert(whole.skip(1) =~= ended_text(x) + s);
            assert(other.skip(1) =~= ended_text(y) + t);
            lemma_ended_text_prefix(x, y, s, t);
        },
        (JsonView::Array(x), JsonView::Array(y)) => {
            assert(whole.skip(1) =~= eight_bytes(x.len() as u64) + (canonical_items(x) + s));
            assert(other.skip(1) =~= eight_bytes(y.len() as u64) + (canonical_items(y) + t));
            lemma_eight_bytes_prefix(
                x.len() as u64,
                y.len() as u64,
                canonical_items(x) + s,
                canonical_items(y) + t,
            );
            lemma_items_prefix(x, y, s, t);
        },
        (JsonView::Object(x), JsonView::Object(y)) => {
            let p = member_names(x).sort_by(text_order());
            let q = member_names(y).sort_by(text_order());
            assert(whole.skip(1) =~= eight_bytes(x.len() as u64) + (canonical_members(x, p) + s));
            assert(other.skip(1) =~= eight_bytes(y.len() as u64) + (canonical_members(y, q) + t));
            lemma_eight_bytes_prefix(
                x.len() as u64,
                y.len() as u64,
                canonical_members(x, p) + s,
                canonical_members(y, q) + t,
            );
            lemma_object_prefix(x, y, s, t);
        },
        _ => {},
    }
}

/// Only values of the same content have one canonical encoding: a change of any
/// value inside an item changes what is hashed.
pub proof fn lemma_encoding_tells_content_apart(a: JsonView, b: JsonView)
    requires
        well_formed(a),
        well_formed(b),
        countable(a),
        countable(b),
        canonical(a) == canonical(b),
    ensures
        same_content(a, b),
{
    assert(canonical(a) + Seq::empty() =~= canonical(a));
    assert(canonical(b) + Seq::empty() =~= canonical(b));
    lemma_canonical_prefix(a, b, Seq::empty(), Seq::empty());
}

} // verus!
