//! JSON text: parsing, and the compact form that values are written in.

use serde_json::Value;
use vstd::prelude::*;
use vstd::string::StringExecFns;

use crate::json_model::{
    items_view, members_view, Json, JsonNumber, JsonView, Member, Members, NumberView,
};
use crate::text::{byte_len, decimal, push_decimal, push_text, utf8};

verus! {

broadcast use crate::json_model::group_json_view;

/// One lowercase hexadecimal digit.
pub open spec fn hex_char(d: int) -> char {
    if d < 10 {
        (48 + d) as char
    } else {
        (87 + d) as char
    }
}

/// The characters that stand for `c` inside a quoted string.
pub open spec fn escaped(c: char) -> Seq<char> {
    if c == '"' {
        seq!['\\', '"']
    } else if c == '\\' {
        seq!['\\', '\\']
    } else if c == '\x08' {
        seq!['\\', 'b']
    } else if c == '\x0c' {
        seq!['\\', 'f']
    } else if c == '\n' {
        seq!['\\', 'n']
    } else if c == '\r' {
        seq!['\\', 'r']
    } else if c == '\t' {
        seq!['\\', 't']
    } else if (c as int) < 32 {
        seq!['\\', 'u', '0', '0', hex_char(c as int / 16), hex_char(c as int % 16)]
    } else {
        seq![c]
    }
}

/// The characters that stand for `s` inside a quoted string.
pub open spec fn escaped_all(s: Seq<char>) -> Seq<char>
    decreases s.len(),
{
    if s.len() == 0 {
        Seq::empty()
    } else {
        escaped_all(s.drop_last()) + escaped(s.last())
    }
}

/// `s` as a JSON string: in quotes, with quotes, backslashes and control
/// characters escaped.
pub open spec fn quoted(s: Seq<char>) -> Seq<char> {
    seq!['"'] + escaped_all(s) + seq!['"']
}

/// `to_string` on a `serde_json::Value` that is a string writes the string in
/// quotes. It escapes quotes, backslashes and the characters below the space, and
/// leaves every other character as it is.
#[verifier::external_body]
pub(crate) fn quote(s: &str) -> (text: String)
    ensures
        text@ == quoted(s@),
{
    serde_json::Value::from(s).to_string()
}

/// The text of a number.
pub open spec fn number_text(n: NumberView) -> Seq<char> {
    match n {
        NumberView::Unsigned(n) => decimal(n as nat),
        NumberView::Negative(n) => if n < 0 {
            seq!['-'] + decimal((-n) as nat)
        } else {
            decimal(n as nat)
        },
        NumberView::Float(text) => text,
    }
}

/// The compact text of a value: no white space between its parts.
pub open spec fn compact_text(value: JsonView) -> Seq<char>
    decreases value,
{
    match value {
        JsonView::Null => seq!['n', 'u', 'l', 'l'],
        JsonView::Bool(true) => seq!['t', 'r', 'u', 'e'],
        JsonView::Bool(false) => seq!['f', 'a', 'l', 's', 'e'],
        JsonView::Number(n) => number_text(n),
        JsonView::String(s) => quoted(s),
        JsonView::Array(items) => seq!['['] + compact_items(items) + seq![']'],
        JsonView::Object(members) => seq!['{'] + compact_members(members) + seq!['}'],
    }
}

/// The texts of values, with commas between them.
pub open spec fn compact_items(items: Seq<JsonView>) -> Seq<char>
    decreases items,
{
    if items.len() == 0 {
        Seq::empty()
    } else if items.len() == 1 {
        compact_text(items[0])
    } else {
        compact_items(items.subrange(0, items.len() - 1)) + seq![','] + compact_text(
            items[items.len() - 1],
        )
    }
}

/// The texts of members, with commas between them.
pub open spec fn compact_members(members: Members) -> Seq<char>
    decreases members,
{
    if members.len() == 0 {
        Seq::empty()
    } else if members.len() == 1 {
        quoted(members[0].0) + seq![':'] + compact_text(members[0].1)
    } else {
        compact_members(members.subrange(0, members.len() - 1)) + seq![','] + quoted(
            members[members.len() - 1].0,
        ) + seq![':'] + compact_text(members[members.len() - 1].1)
    }
}

/// Appends the text of a number to `out`.
fn write_number(n: &JsonNumber, out: &mut String)
    ensures
        final(out)@ == old(out)@ + number_text(n@),
{
    match n {
        JsonNumber::Unsigned(n) => push_decimal(out, *n),
        JsonNumber::Negative(n) => {
            let n: i64 = *n;
            if n < 0 {
                out.push('-');
                let magnitude: u64 = if n == i64::MIN {
                    9223372036854775808u64
                } else {
                    (-n) as u64
                };
                push_decimal(out, magnitude);
                proof {
                    assert(out@ =~= old(out)@ + number_text(NumberView::Negative(n)));
                }
            } else {
                push_decimal(out, n as u64);
            }
        },
        JsonNumber::Float(text) => out.append(text.as_str()),
    }
}

/// Appends the compact text of `value` to `out`.
fn write_value(value: &Json, out: &mut String)
    ensures
        final(out)@ == old(out)@ + compact_text(value@),
    decreases value,
{
    match value {
        Json::Null => {
            proof {
                reveal_strlit("null");
            }
            out.append("null");
            assert("null"@ =~= seq!['n', 'u', 'l', 'l']);
        },
        Json::Bool(b) => {
            if *b {
                proof {
                    reveal_strlit("true");
                }
                out.append("true");
                assert("true"@ =~= seq!['t', 'r', 'u', 'e']);
            } else {
                proof {
                    reveal_strlit("false");
                }
                out.append("false");
                assert("false"@ =~= seq!['f', 'a', 'l', 's', 'e']);
            }
        },
        Json::Number(n) => write_number(n, out),
        Json::String(s) => out.append(quote(s.as_str()).as_str()),
        Json::Array(items) => {
            out.push('[');
            write_items(items, out);
            out.push(']');
            assert(out@ =~= old(out)@ + compact_text(value@));
        },
        Json::Object(members) => {
            out.push('{');
            write_members(members, out);
            out.push('}');
            assert(out@ =~= old(out)@ + compact_text(value@));
        },
    }
}

/// Appends the texts of `items` to `out`, with commas between them.
fn write_items(items: &Vec<Json>, out: &mut String)
    ensures
        final(out)@ == old(out)@ + compact_items(items_view(items@)),
    decreases items,
{
    let ghost view = items_view(items@);
    let mut i: usize = 0;
    assert(view.subrange(0, 0) =~= Seq::empty());
    while i < items.len()
        invariant
            view == items_view(items@),
            i <= items.len(),
            out@ == old(out)@ + compact_items(view.subrange(0, i as int)),
        decreases items.len() - i,
    {
        let ghost part = view.subrange(0, i + 1);
        proof {
            assert(part.subrange(0, part.len() - 1) =~= view.subrange(0, i as int));
            assert(part[i as int] == items@[i as int]@);
        }
        if i > 0 {
            out.push(',');
        }
        write_value(&items[i], out);
        proof {
            assert(out@ =~= old(out)@ + compact_items(part));
        }
        i = i + 1;
    }
    assert(view.subrange(0, i as int) =~= view);
}

/// Appends the texts of `members` to `out`, with commas between them.
fn write_members(members: &Vec<Member>, out: &mut String)
    ensures
        final(out)@ == old(out)@ + compact_members(members_view(members@)),
    decreases members,
{
    let ghost view = members_view(members@);
    let mut i: usize = 0;
    assert(view.subrange(0, 0) =~= Seq::empty());
    while i < members.len()
        invariant
            view == members_view(members@),
            i <= members.len(),
            out@ == old(out)@ + compact_members(view.subrange(0, i as int)),
        decreases members.len() - i,
    {
        let ghost part = view.subrange(0, i + 1);
        proof {
            assert(part.subrange(0, part.len() - 1) =~= view.subrange(0, i as int));
            assert(part[i as int] == (members@[i as int].name@, members@[i as int].value@));
        }
        if i > 0 {
            out.push(',');
        }
        out.append(quote(members[i].name.as_str()).as_str());
        out.push(':');
        write_value(&members[i].value, out);
        proof {
            assert(out@ =~= old(out)@ + compact_members(part));
        }
        i = i + 1;
    }
    assert(view.subrange(0, i as int) =~= view);
}

/// The compact text of `value`.
pub fn text_of(value: &Json) -> (text: String)
    ensures
        text@ == compact_text(value@),
{
    let mut out = String::new();
    write_value(value, &mut out);
    assert(out@ =~= compact_text(value@));
    out
}

/// The UTF-8 bytes of the compact text of `value`.
pub fn bytes_of(value: &Json) -> (bytes: Vec<u8>)
    ensures
        bytes@ == utf8(compact_text(value@)),
{
    let text = text_of(value);
    let mut bytes: Vec<u8> = Vec::new();
    push_text(&mut bytes, text.as_str());
    assert(bytes@ =~= utf8(compact_text(value@)));
    bytes
}

/// The number of UTF-8 bytes of the compact text of `value`.
pub fn byte_len_of(value: &Json) -> (len: usize)
    ensures
        len == utf8(compact_text(value@)).len(),
{
    let text = text_of(value);
    byte_len(text.as_str())
}

/// The number of UTF-8 bytes of the JSON string that holds `s`.
pub fn quoted_byte_len(s: &str) -> (len: usize)
    ensures
        len == utf8(quoted(s@)).len(),
{
    let text = quote(s);
    byte_len(text.as_str())
}

/// A value of `serde_json`.
#[verifier::external_type_specification]
#[verifier::external_body]
pub struct ExSerdeValue(serde_json::Value);

/// What a value of `serde_json` holds.
pub uninterp spec fn contents(value: serde_json::Value) -> JsonView;

/// A value of `serde_json`, taken apart by one level.
enum Parts {
    /// `null`.
    Null,
    /// `true` or `false`.
    Bool(bool),
    /// A number.
    Number(JsonNumber),
    /// A string.
    Text(String),
    /// The items of an array.
    Items(Vec<Value>),
    /// The names and values of an object's members, in order.
    Members(Vec<(String, Value)>),
}

/// What the items of an array hold.
spec fn items_contents(items: Seq<Value>) -> Seq<JsonView> {
    Seq::new(items.len(), |i: int| contents(items[i]))
}

/// What the members of an object hold.
spec fn members_contents(members: Seq<(String, Value)>) -> Members {
    Seq::new(members.len(), |i: int| (members[i].0@, contents(members[i].1)))
}

/// What the parts of a value hold together.
spec fn parts_contents(parts: Parts) -> JsonView {
    match parts {
        Parts::Null => JsonView::Null,
        Parts::Bool(b) => JsonView::Bool(b),
        Parts::Number(n) => JsonView::Number(n@),
        Parts::Text(s) => JsonView::String(s@),
        Parts::Items(items) => JsonView::Array(items_contents(items@)),
        Parts::Members(members) => JsonView::Object(members_contents(members@)),
    }
}

/// Takes a `serde_json::Value` apart: its parts, in order, hold together what the
/// value holds. A number that is no integer of 64 bits is given as
/// `serde_json::Number` prints it.
#[verifier::external_body]
fn take_apart(value: Value) -> (parts: Parts)
    ensures
        parts_contents(parts) == contents(value),
{
    match value {
        Value::Null => Parts::Null,
        Value::Bool(b) => Parts::Bool(b),
        Value::Number(n) => Parts::Number(match (n.as_u64(), n.as_i64()) {
            (Some(u), _) => JsonNumber::Unsigned(u),
            (None, Some(i)) => JsonNumber::Negative(i),
            (None, None) => JsonNumber::Float(n.to_string()),
        }),
        Value::String(s) => Parts::Text(s),
        Value::Array(items) => Parts::Items(items),
        Value::Object(members) => Parts::Members(members.into_iter().collect()),
    }
}

/// The value that a value of `serde_json` holds.
fn from_serde(value: Value) -> (converted: Json)
    ensures
        converted@ == contents(value),
    decreases contents(value),
{
    let ghost whole = contents(value);
    match take_apart(value) {
        Parts::Null => Json::Null,
        Parts::Bool(b) => Json::Bool(b),
        Parts::Number(n) => Json::Number(n),
        Parts::Text(s) => Json::String(s),
        Parts::Items(items) => {
            let ghost all = items@;
            let mut converted: Vec<Json> = Vec::new();
            for item in it: items
                invariant
                    whole == contents(value),
                    whole == JsonView::Array(items_contents(all)),
                    it.seq() == all,
                    converted@.len() == it.index(),
                    forall|j: int|
                        0 <= j < it.index() ==> (#[trigger] converted@[j])@ == contents(all[j]),
            {
                assert(items_contents(all)[it.index() as int] == contents(item));
                assert(decreases_to!(whole => whole->Array_0[it.index() as int]));
                converted.push(from_serde(item));
            }
            assert(items_view(converted@) =~= items_contents(all));
            Json::Array(converted)
        },
        Parts::Members(members) => {
            let ghost all = members@;
            let mut converted: Vec<Member> = Vec::new();
            for member in it: members
                invariant
                    whole == contents(value),
                    whole == JsonView::Object(members_contents(all)),
                    it.seq() == all,
                    converted@.len() == it.index(),
                    forall|j: int|
                        0 <= j < it.index() ==> (#[trigger] converted@[j]).name@ == all[j].0@
                            && converted@[j].value@ == contents(all[j].1),
            {
                assert(members_contents(all)[it.index() as int].1 == contents(member.1));
                assert(decreases_to!(whole => whole->Object_0[it.index() as int].1));
                let (name, held) = member;
                converted.push(Member { name, value: from_serde(held) });
            }
            assert(members_view(converted@) =~= members_contents(all));
            Json::Object(converted)
        },
    }
}

/// What `serde_json::from_slice` makes of a byte string: what the value holds that
/// it is the text of, or the error's text where it is the text of none.
pub uninterp spec fn parsed(bytes: Seq<u8>) -> Result<JsonView, Seq<char>>;

/// `serde_json::from_slice` parses one JSON value, or says why the bytes are
/// none. Objects of the value have no two members of one name, integers that it
/// holds as negative are below zero, and the text of a number holds no control
/// character.
#[verifier::external_body]
fn parse_slice(bytes: &[u8]) -> (result: Result<Value, String>)
    ensures
        match result {
            Ok(value) => parsed(bytes@) == Ok::<JsonView, Seq<char>>(contents(value))
                && crate::json::well_formed(contents(value)) && floats_are_plain(contents(value)),
            Err(message) => parsed(bytes@) == Err::<JsonView, Seq<char>>(message@),
        },
{
    serde_json::from_slice::<Value>(bytes).map_err(|error| error.to_string())
}

/// Parses one JSON value, or says why the bytes are none.
pub fn parse_json(bytes: &[u8]) -> (result: Result<Json, String>)
    ensures
        match result {
            Ok(value) => parsed(bytes@) == Ok::<JsonView, Seq<char>>(value@)
                && crate::json::well_formed(value@) && floats_are_plain(value@),
            Err(message) => parsed(bytes@) == Err::<JsonView, Seq<char>>(message@),
        },
{
    match parse_slice(bytes) {
        Ok(value) => Ok(from_serde(value)),
        Err(message) => Err(message),
    }
}

/// Whether a text holds no control character below the space.
pub open spec fn is_plain(text: Seq<char>) -> bool {
    forall|i: int| 0 <= i < text.len() ==> #[trigger] text[i] >= ' '
}

/// Whether the texts of all numbers inside a value are plain.
pub open spec fn floats_are_plain(value: JsonView) -> bool
    decreases value,
{
    match value {
        JsonView::Number(NumberView::Float(text)) => is_plain(text),
        JsonView::Array(items) => forall|i: int|
            0 <= i < items.len() ==> floats_are_plain(#[trigger] items[i]),
        JsonView::Object(members) => forall|i: int|
            0 <= i < members.len() ==> floats_are_plain((#[trigger] members[i]).1),
        _ => true,
    }
}

/// Plain texts one behind the other are plain.
proof fn lemma_plain_concat(a: Seq<char>, b: Seq<char>)
    requires
        is_plain(a),
        is_plain(b),
    ensures
        is_plain(a + b),
{
    assert forall|i: int| 0 <= i < (a + b).len() implies #[trigger] (a + b)[i] >= ' ' by {
        if i < a.len() {
            assert((a + b)[i] == a[i]);
        } else {
            assert((a + b)[i] == b[i - a.len()]);
        }
    }
}

/// A hexadecimal digit is no control character.
proof fn lemma_hex_char(d: int)
    ensures
        0 <= d < 16 ==> hex_char(d) >= ' ',
{
    if 0 <= d < 10 {
        assert(hex_char(d) as int == 48 + d);
    } else if 10 <= d < 16 {
        assert(hex_char(d) as int == 87 + d);
    }
}

/// What stands for one character is plain.
proof fn lemma_escape_is_plain(c: char)
    ensures
        is_plain(escaped(c)),
{
    lemma_hex_char(c as int % 16);
    lemma_hex_char(c as int / 16);
    let e = escaped(c);
    if c == '"' || c == '\\' || c == '\x08' || c == '\x0c' || c == '\n' || c == '\r' || c == '\t' {
        assert(e.len() == 2 && e[0] == '\\');
        assert(e[1] >= ' ');
    } else if (c as int) < 32 {
        assert(e.len() == 6);
        assert(e[0] == '\\' && e[1] == 'u' && e[2] == '0' && e[3] == '0');
        assert(e[4] >= ' ');
        assert(e[5] >= ' ');
    } else {
        assert(e.len() == 1 && e[0] == c);
    }
}

/// An escaped string is plain.
proof fn lemma_escaped_is_plain(s: Seq<char>)
    ensures
        is_plain(escaped_all(s)),
    decreases s.len(),
{
    if s.len() > 0 {
        lemma_escaped_is_plain(s.drop_last());
        lemma_escape_is_plain(s.last());
        lemma_plain_concat(escaped_all(s.drop_last()), escaped(s.last()));
    }
}

/// A quoted string is plain.
proof fn lemma_quoted_is_plain(s: Seq<char>)
    ensures
        is_plain(quoted(s)),
{
    lemma_escaped_is_plain(s);
    lemma_plain_concat(seq!['"'], escaped_all(s));
    lemma_plain_concat(seq!['"'] + escaped_all(s), seq!['"']);
}

/// Decimal digits are plain.
proof fn lemma_decimal_is_plain(n: nat)
    ensures
        is_plain(decimal(n)),
    decreases n,
{
    if n >= 10 {
        lemma_decimal_is_plain(n / 10);
    }
}

/// The text of a value is plain: it takes one line, whatever its strings hold.
pub proof fn lemma_compact_text_is_plain(value: JsonView)
    requires
        floats_are_plain(value),
    ensures
        is_plain(compact_text(value)),
    decreases value,
{
    match value {
        JsonView::Null => {},
        JsonView::Bool(_) => {},
        JsonView::Number(NumberView::Unsigned(n)) => lemma_decimal_is_plain(n as nat),
        JsonView::Number(NumberView::Negative(n)) => {
            lemma_decimal_is_plain((-n) as nat);
            lemma_decimal_is_plain(n as nat);
            lemma_plain_concat(seq!['-'], decimal((-n) as nat));
        },
        JsonView::Number(NumberView::Float(_)) => {},
        JsonView::String(s) => lemma_quoted_is_plain(s),
        JsonView::Array(items) => {
            lemma_compact_items_is_plain(items);
            lemma_plain_concat(seq!['['], compact_items(items));
            lemma_plain_concat(seq!['['] + compact_items(items), seq![']']);
        },
        JsonView::Object(members) => {
            lemma_compact_members_is_plain(members);
            lemma_plain_concat(seq!['{'], compact_members(members));
            lemma_plain_concat(seq!['{'] + compact_members(members), seq!['}']);
        },
    }
}

/// The texts of values are plain.
proof fn lemma_compact_items_is_plain(items: Seq<JsonView>)
    requires
        forall|i: int| 0 <= i < items.len() ==> floats_are_plain(#[trigger] items[i]),
    ensures
        is_plain(compact_items(items)),
    decreases items,
{
    if items.len() == 1 {
        lemma_compact_text_is_plain(items[0]);
    } else if items.len() > 1 {
        let last = items.len() - 1;
        let front = items.subrange(0, last);
        lemma_compact_items_is_plain(front);
        lemma_compact_text_is_plain(items[last]);
        lemma_plain_concat(compact_items(front), seq![',']);
        lemma_plain_concat(compact_items(front) + seq![','], compact_text(items[last]));
    }
}

/// The texts of members are plain.
proof fn lemma_compact_members_is_plain(members: Members)
    requires
        forall|i: int| 0 <= i < members.len() ==> floats_are_plain((#[trigger] members[i]).1),
    ensures
        is_plain(compact_members(members)),
    decreases members,
{
    if members.len() == 1 {
        lemma_quoted_is_plain(members[0].0);
        lemma_compact_text_is_plain(members[0].1);
        lemma_plain_concat(quoted(members[0].0), seq![':']);
        lemma_plain_concat(quoted(members[0].0) + seq![':'], compact_text(members[0].1));
    } else if members.len() > 1 {
        let last = members.len() - 1;
        let front = members.subrange(0, last);
        let (name, value) = members[last];
        lemma_compact_members_is_plain(front);
        lemma_quoted_is_plain(name);
        lemma_compact_text_is_plain(value);
        let a = compact_members(front) + seq![','];
        lemma_plain_concat(compact_members(front), seq![',']);
        lemma_plain_concat(a, quoted(name));
        lemma_plain_concat(a + quoted(name), seq![':']);
        lemma_plain_concat(a + quoted(name) + seq![':'], compact_text(value));
    }
}

/// The text of a list holds the texts of its items, in order and with one comma
/// between two of them: one more item comes behind the others.
pub proof fn lemma_list_text(items: Seq<JsonView>, item: JsonView)
    ensures
        compact_text(JsonView::Array(Seq::empty())) == "[]"@,
        ({
            let text = compact_text(JsonView::Array(items.push(item)));
            if items.len() == 0 {
                text == "["@ + compact_text(item) + "]"@
            } else {
                text == compact_text(JsonView::Array(items)).drop_last() + ","@ + compact_text(item)
                    + "]"@
            }
        }),
{
    reveal_strlit("[]");
    reveal_strlit("[");
    reveal_strlit("]");
    reveal_strlit(",");
    assert(compact_text(JsonView::Array(Seq::empty())) =~= "[]"@);
    let more = items.push(item);
    let text = compact_text(JsonView::Array(more));
    assert(more.subrange(0, more.len() - 1) =~= items);
    if items.len() == 0 {
        assert(text =~= "["@ + compact_text(item) + "]"@);
    } else {
        let front = compact_text(JsonView::Array(items));
        assert(front.drop_last() =~= seq!['['] + compact_items(items));
        assert(text =~= front.drop_last() + ","@ + compact_text(item) + "]"@);
    }
}

/// The text of an object holds its members, in order and with one comma between two of
/// them, each as its quoted name, a colon and the text of its value.
pub proof fn lemma_object_text(members: Members, name: Seq<char>, value: JsonView)
    ensures
        compact_text(JsonView::Object(Seq::empty())) == "{}"@,
        ({
            let text = compact_text(JsonView::Object(members.push((name, value))));
            let entry = quoted(name) + ":"@ + compact_text(value);
            if members.len() == 0 {
                text == "{"@ + entry + "}"@
            } else {
                text == compact_text(JsonView::Object(members)).drop_last() + ","@ + entry + "}"@
            }
        }),
{
    reveal_strlit("{}");
    reveal_strlit("{");
    reveal_strlit("}");
    reveal_strlit(",");
    reveal_strlit(":");
    assert(compact_text(JsonView::Object(Seq::empty())) =~= "{}"@);
    let more = members.push((name, value));
    let text = compact_text(JsonView::Object(more));
    let entry = quoted(name) + ":"@ + compact_text(value);
    assert(more.subrange(0, more.len() - 1) =~= members);
    if members.len() == 0 {
        assert(text =~= "{"@ + entry + "}"@);
    } else {
        let front = compact_text(JsonView::Object(members));
        assert(front.drop_last() =~= seq!['{'] + compact_members(members));
        assert(text =~= front.drop_last() + ","@ + entry + "}"@);
    }
}

/// The texts of what holds nothing else: words, numbers in decimal digits, quoted
/// strings.
pub proof fn lemma_scalar_text(n: u64, m: i64, s: Seq<char>)
    ensures
        compact_text(JsonView::Null) == "null"@,
        compact_text(JsonView::Bool(true)) == "true"@,
        compact_text(JsonView::Bool(false)) == "false"@,
        compact_text(JsonView::Number(NumberView::Unsigned(n))) == decimal(n as nat),
        m < 0 ==> compact_text(JsonView::Number(NumberView::Negative(m))) == "-"@ + decimal(
            (-m) as nat,
        ),
        compact_text(JsonView::String(s)) == quoted(s),
        compact_text(JsonView::Number(NumberView::Float(s))) == s,
{
    reveal_strlit("null");
    reveal_strlit("true");
    reveal_strlit("false");
    reveal_strlit("-");
    assert(compact_text(JsonView::Null) =~= "null"@);
    assert(compact_text(JsonView::Bool(true)) =~= "true"@);
    assert(compact_text(JsonView::Bool(false)) =~= "false"@);
    if m < 0 {
        assert(seq!['-'] =~= "-"@);
    }
}

} // verus!
