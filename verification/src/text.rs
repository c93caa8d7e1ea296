//! Text helpers: comparison, search, slicing and number formatting over the
//! characters of a string.

use vstd::prelude::*;
use vstd::string::StringExecFns;
use vstd::utf8::encode_utf8;

verus! {

/// `String::push` appends one character at the end of the string.
pub assume_specification[ std::string::String::push ](s: &mut std::string::String, ch: char)
    ensures
        final(s)@ == old(s)@.push(ch),
;

/// The bytes of a text in UTF-8.
pub open spec fn utf8(chars: Seq<char>) -> Seq<u8> {
    encode_utf8(chars)
}

/// Equal UTF-8 bytes come from equal characters.
pub proof fn lemma_utf8_injective(a: Seq<char>, b: Seq<char>)
    requires
        utf8(a) == utf8(b),
    ensures
        a == b,
{
    vstd::utf8::encode_utf8_decode_utf8(a);
    vstd::utf8::encode_utf8_decode_utf8(b);
}

/// The UTF-8 bytes of a concatenation are the concatenated UTF-8 bytes.
pub proof fn lemma_utf8_concat(a: Seq<char>, b: Seq<char>)
    ensures
        utf8(a + b) == utf8(a) + utf8(b),
    decreases a.len(),
{
    if a.len() == 0 {
        assert(a + b =~= b);
    } else {
        assert((a + b).drop_first() =~= a.drop_first() + b);
        lemma_utf8_concat(a.drop_first(), b);
    }
}

/// The number of UTF-8 bytes in `s`.
pub fn byte_len(s: &str) -> (len: usize)
    ensures
        len == utf8(s@).len(),
{
    s.as_bytes().len()
}

/// Whether two texts hold the same characters.
pub fn same_text(a: &str, b: &str) -> (same: bool)
    ensures
        same == (a@ == b@),
{
    let left = a.as_bytes();
    let right = b.as_bytes();
    proof {
        if utf8(a@) == utf8(b@) {
            lemma_utf8_injective(a@, b@);
        }
    }
    if left.len() != right.len() {
        return false;
    }
    let mut i: usize = 0;
    while i < left.len()
        invariant
            left@ == utf8(a@),
            right@ == utf8(b@),
            left.len() == right.len(),
            i <= left.len(),
            left@.take(i as int) =~= right@.take(i as int),
        decreases left.len() - i,
    {
        if left[i] != right[i] {
            return false;
        }
        i = i + 1;
    }
    proof {
        assert(left@ =~= left@.take(i as int));
        assert(right@ =~= right@.take(i as int));
    }
    true
}

/// The characters of `s`.
pub fn chars_of(s: &str) -> (chars: Vec<char>)
    ensures
        chars@ == s@,
{
    let mut chars: Vec<char> = Vec::new();
    for c in it: s.chars()
        invariant
            it.seq() == s@,
            chars@ == s@.take(it.index() as int),
    {
        proof {
            assert(s@.take(it.index() + 1) =~= s@.take(it.index() as int).push(c));
        }
        chars.push(c);
    }
    proof {
        assert(s@.take(s@.len() as int) =~= s@);
    }
    chars
}

/// The part of `chars` from `from` up to `to`, as a string.
pub fn string_between(chars: &Vec<char>, from: usize, to: usize) -> (s: String)
    requires
        from <= to <= chars.len(),
    ensures
        s@ == chars@.subrange(from as int, to as int),
{
    let mut s = String::new();
    let mut i: usize = from;
    while i < to
        invariant
            from <= i <= to <= chars.len(),
            s@ == chars@.subrange(from as int, i as int),
        decreases to - i,
    {
        proof {
            assert(chars@.subrange(from as int, i + 1)
                =~= chars@.subrange(from as int, i as int).push(chars@[i as int]));
        }
        s.push(chars[i]);
        i = i + 1;
    }
    s
}

/// Whether `s` begins with `prefix`.
pub open spec fn begins_with(s: Seq<char>, prefix: Seq<char>) -> bool {
    prefix.len() <= s.len() && s.take(prefix.len() as int) == prefix
}

/// Whether `s` begins with `prefix`.
pub fn starts_with(s: &str, prefix: &str) -> (found: bool)
    ensures
        found == begins_with(s@, prefix@),
{
    let text = chars_of(s);
    let head = chars_of(prefix);
    if head.len() > text.len() {
        return false;
    }
    let mut i: usize = 0;
    while i < head.len()
        invariant
            text@ == s@,
            head@ == prefix@,
            head.len() <= text.len(),
            i <= head.len(),
            s@.take(i as int) =~= prefix@.take(i as int),
        decreases head.len() - i,
    {
        if text[i] != head[i] {
            proof {
                assert(s@.take(prefix@.len() as int)[i as int] != prefix@[i as int]);
            }
            return false;
        }
        i = i + 1;
    }
    proof {
        assert(prefix@.take(i as int) =~= prefix@);
    }
    true
}

/// The decimal digits of `n`, without leading zeros.
pub open spec fn decimal(n: nat) -> Seq<char>
    decreases n,
{
    if n < 10 {
        seq![digit_char(n)]
    } else {
        decimal(n / 10).push(digit_char(n % 10))
    }
}

/// The character of one decimal digit.
pub open spec fn digit_char(d: nat) -> char {
    if d == 0 {
        '0'
    } else if d == 1 {
        '1'
    } else if d == 2 {
        '2'
    } else if d == 3 {
        '3'
    } else if d == 4 {
        '4'
    } else if d == 5 {
        '5'
    } else if d == 6 {
        '6'
    } else if d == 7 {
        '7'
    } else if d == 8 {
        '8'
    } else {
        '9'
    }
}

/// The character of one decimal digit.
fn digit(d: u64) -> (c: char)
    requires
        d < 10,
    ensures
        c == digit_char(d as nat),
{
    if d == 0 {
        '0'
    } else if d == 1 {
        '1'
    } else if d == 2 {
        '2'
    } else if d == 3 {
        '3'
    } else if d == 4 {
        '4'
    } else if d == 5 {
        '5'
    } else if d == 6 {
        '6'
    } else if d == 7 {
        '7'
    } else if d == 8 {
        '8'
    } else {
        '9'
    }
}

/// Appends the decimal digits of `n` to `out`.
pub fn push_decimal(out: &mut String, n: u64)
    ensures
        final(out)@ == old(out)@ + decimal(n as nat),
    decreases n,
{
    if n >= 10 {
        push_decimal(out, n / 10);
    }
    let ghost before = out@;
    out.push(digit(n % 10));
    proof {
        assert(out@ =~= old(out)@ + decimal(n as nat));
    }
}

/// The value of a decimal digit.
pub open spec fn digit_value(c: char) -> nat {
    (c as int - '0' as int) as nat
}

/// Whether a text consists of decimal digits.
pub open spec fn are_digits(text: Seq<char>) -> bool {
    forall|i: int| 0 <= i < text.len() ==> '0' <= #[trigger] text[i] <= '9'
}

/// The number that decimal digits stand for.
pub open spec fn digits_value(text: Seq<char>) -> nat
    decreases text.len(),
{
    if text.len() == 0 {
        0
    } else {
        digits_value(text.drop_last()) * 10 + digit_value(text.last())
    }
}

/// A text without a leading plus sign.
pub open spec fn unsigned_digits(text: Seq<char>) -> Seq<char> {
    if text.len() > 0 && text[0] == '+' {
        text.drop_first()
    } else {
        text
    }
}

/// The number that a text stands for: decimal digits, after a plus sign or none.
pub open spec fn usize_of(text: Seq<char>) -> Option<usize> {
    let digits = unsigned_digits(text);
    if digits.len() > 0 && are_digits(digits) && digits_value(digits) <= usize::MAX {
        Some(digits_value(digits) as usize)
    } else {
        None
    }
}

/// More digits stand for no smaller a number.
proof fn lemma_digits_grow(text: Seq<char>, n: int)
    requires
        0 <= n <= text.len(),
    ensures
        digits_value(text.take(n)) <= digits_value(text),
    decreases text.len() - n,
{
    if n < text.len() {
        lemma_digits_grow(text, n + 1);
        assert(text.take(n + 1).drop_last() =~= text.take(n));
    } else {
        assert(text.take(n) =~= text);
    }
}

/// Reads a number.
pub fn parse_usize(text: &str) -> (number: Option<usize>)
    ensures
        number == usize_of(text@),
{
    let chars = chars_of(text);
    let start: usize = if chars.len() > 0 && chars[0] == '+' {
        1
    } else {
        0
    };
    let ghost digits = unsigned_digits(text@);
    assert(digits =~= chars@.skip(start as int));
    if start == chars.len() {
        return None;
    }
    let mut value: usize = 0;
    let mut i: usize = start;
    assert(digits.take(0) =~= Seq::empty());
    while i < chars.len()
        invariant
            start <= i <= chars.len(),
            digits == chars@.skip(start as int),
            digits == unsigned_digits(text@),
            digits.len() > 0,
            forall|j: int| 0 <= j < i - start ==> '0' <= #[trigger] digits[j] <= '9',
            value == digits_value(digits.take(i - start)),
        decreases chars.len() - i,
    {
        let c = chars[i];
        assert(c == digits[i - start]);
        if !('0' <= c && c <= '9') {
            return None;
        }
        assert(digits.take(i - start + 1).drop_last() =~= digits.take(i - start));
        let digit: usize = c as usize - '0' as usize;
        proof {
            lemma_digits_grow(digits, i - start + 1);
        }
        let tens = match value.checked_mul(10) {
            Some(tens) => tens,
            None => return None,
        };
        value = match tens.checked_add(digit) {
            Some(sum) => sum,
            None => return None,
        };
        i = i + 1;
    }
    assert(digits.take(i - start) =~= digits);
    Some(value)
}

/// Decimal digits stand for the number that they were written for.
proof fn lemma_digits_of_decimal(n: nat)
    ensures
        are_digits(decimal(n)),
        decimal(n).len() > 0,
        digits_value(decimal(n)) == n,
    decreases n,
{
    assert(forall|d: nat| d < 10 ==> '0' <= #[trigger] digit_char(d) <= '9');
    assert(forall|d: nat| d < 10 ==> #[trigger] digit_value(digit_char(d)) == d);
    if n < 10 {
        reveal_with_fuel(digits_value, 2);
        assert(decimal(n).drop_last() =~= Seq::empty());
        assert(digit_value(digit_char(n)) == n);
    } else {
        lemma_digits_of_decimal(n / 10);
        assert(decimal(n).drop_last() =~= decimal(n / 10));
        assert(digit_value(digit_char(n % 10)) == n % 10);
    }
}

/// A number is read back from its decimal digits.
pub proof fn lemma_usize_of_decimal(n: usize)
    ensures
        usize_of(decimal(n as nat)) == Some(n),
{
    lemma_digits_of_decimal(n as nat);
    assert('0' <= decimal(n as nat)[0]);
}

/// The text `prefix` followed by the decimal digits of `n`.
pub fn with_decimal(prefix: &str, n: u64) -> (s: String)
    ensures
        s@ == prefix@ + decimal(n as nat),
{
    let mut s = prefix.to_owned();
    push_decimal(&mut s, n);
    s
}

/// The text `left` followed by the text `right`.
pub fn join(left: &str, right: &str) -> (s: String)
    ensures
        s@ == left@ + right@,
{
    let mut s = left.to_owned();
    s.append(right);
    s
}

/// Appends the UTF-8 bytes of `s` to `out`.
pub fn push_text(out: &mut Vec<u8>, s: &str)
    ensures
        final(out)@ == old(out)@ + utf8(s@),
{
    let bytes = s.as_bytes();
    out.extend_from_slice(bytes);
    proof {
        assert(out@ =~= old(out)@ + utf8(s@));
    }
}

/// `c` with an uppercase ASCII letter replaced by its lowercase form.
pub open spec fn lower_char(c: char) -> char {
    if 'A' <= c && c <= 'Z' {
        ((c as u32) + 32) as char
    } else {
        c
    }
}

/// `s` with each uppercase ASCII letter replaced by its lowercase form.
pub open spec fn ascii_lower(s: Seq<char>) -> Seq<char> {
    Seq::new(s.len(), |i: int| lower_char(s[i]))
}

/// `c` with an uppercase ASCII letter replaced by its lowercase form.
fn lowercase_char(c: char) -> (lower: char)
    ensures
        lower == lower_char(c),
{
    if 'A' <= c && c <= 'Z' {
        ((c as u8) + 32) as char
    } else {
        c
    }
}

/// `s` with each uppercase ASCII letter replaced by its lowercase form.
pub fn to_lowercase_ascii(s: &str) -> (lower: String)
    ensures
        lower@ == ascii_lower(s@),
{
    let chars = chars_of(s);
    let mut lower = String::new();
    let mut i: usize = 0;
    while i < chars.len()
        invariant
            chars@ == s@,
            i <= chars.len(),
            lower@ == ascii_lower(s@).take(i as int),
        decreases chars.len() - i,
    {
        proof {
            assert(ascii_lower(s@).take(i + 1)
                =~= ascii_lower(s@).take(i as int).push(lower_char(s@[i as int])));
        }
        lower.push(lowercase_char(chars[i]));
        i = i + 1;
    }
    proof {
        assert(ascii_lower(s@).take(i as int) =~= ascii_lower(s@));
    }
    lower
}

/// Whether the bytes from `start` up to `end` of `s` are whole characters of it.
pub open spec fn is_byte_range(s: Seq<char>, start: int, end: int) -> bool {
    &&& 0 <= start <= end <= utf8(s).len()
    &&& vstd::utf8::is_char_boundary(utf8(s), start)
    &&& vstd::utf8::is_char_boundary(utf8(s), end)
}

/// A character boundary stays one in the text that begins at an earlier one.
proof fn lemma_boundary_in_tail(bytes: Seq<u8>, start: int, end: int)
    requires
        vstd::utf8::valid_utf8(bytes),
        0 <= start <= end <= bytes.len(),
        vstd::utf8::is_char_boundary(bytes, start),
        vstd::utf8::is_char_boundary(bytes, end),
    ensures
        vstd::utf8::is_char_boundary(bytes.subrange(start, bytes.len() as int), end - start),
{
    let tail = bytes.subrange(start, bytes.len() as int);
    vstd::utf8::valid_utf8_split(bytes, start);
    if end == bytes.len() {
        vstd::utf8::is_char_boundary_start_end_of_seq(tail);
    } else {
        vstd::utf8::is_char_boundary_iff_not_is_continuation_byte(bytes, end);
        vstd::utf8::is_char_boundary_iff_not_is_continuation_byte(tail, end - start);
    }
}

/// The end of a leading part of a text is a character boundary of it.
pub proof fn lemma_prefix_boundary(pre: Seq<char>, rest: Seq<char>)
    ensures
        vstd::utf8::is_char_boundary(utf8(pre + rest), utf8(pre).len() as int),
{
    let bytes = utf8(pre + rest);
    lemma_utf8_concat(pre, rest);
    vstd::utf8::encode_utf8_valid_utf8(pre + rest);
    vstd::utf8::encode_utf8_valid_utf8(rest);
    if utf8(rest).len() == 0 {
        vstd::utf8::is_char_boundary_start_end_of_seq(bytes);
    } else {
        let at = utf8(pre).len() as int;
        vstd::utf8::is_char_boundary_start_end_of_seq(utf8(rest));
        vstd::utf8::is_char_boundary_iff_not_is_continuation_byte(utf8(rest), 0);
        assert(bytes[at] == utf8(rest)[0]);
        vstd::utf8::is_char_boundary_iff_not_is_continuation_byte(bytes, at);
    }
}

/// A character boundary of a text is one of every text that begins with it.
pub proof fn lemma_boundary_in_longer(pre: Seq<char>, rest: Seq<char>, at: int)
    requires
        0 <= at <= utf8(pre).len(),
        vstd::utf8::is_char_boundary(utf8(pre), at),
    ensures
        vstd::utf8::is_char_boundary(utf8(pre + rest), at),
{
    lemma_utf8_concat(pre, rest);
    vstd::utf8::encode_utf8_valid_utf8(pre);
    vstd::utf8::encode_utf8_valid_utf8(pre + rest);
    if at == utf8(pre).len() {
        lemma_prefix_boundary(pre, rest);
    } else {
        vstd::utf8::is_char_boundary_iff_not_is_continuation_byte(utf8(pre), at);
        vstd::utf8::is_char_boundary_iff_not_is_continuation_byte(utf8(pre + rest), at);
    }
}

/// A part of a text lies at the byte offsets that the lengths of what is before
/// it and of itself give.
pub proof fn lemma_middle_bytes(pre: Seq<char>, mid: Seq<char>, post: Seq<char>)
    ensures
        is_byte_range(
            pre + mid + post,
            utf8(pre).len() as int,
            (utf8(pre).len() + utf8(mid).len()) as int,
        ),
        utf8(pre + mid + post).subrange(
            utf8(pre).len() as int,
            (utf8(pre).len() + utf8(mid).len()) as int,
        ) == utf8(mid),
{
    lemma_utf8_concat(pre, mid);
    lemma_utf8_concat(pre + mid, post);
    lemma_prefix_boundary(pre + mid, post);
    assert(pre + mid + post =~= pre + (mid + post));
    lemma_prefix_boundary(pre, mid + post);
    assert(utf8(pre + mid + post).subrange(
        utf8(pre).len() as int,
        (utf8(pre).len() + utf8(mid).len()) as int,
    ) =~= utf8(mid));
}

/// The part of `s` from byte `start` up to byte `end`, where these are whole
/// characters of it.
pub fn slice_bytes<'a>(s: &'a str, start: usize, end: usize) -> (part: Option<&'a str>)
    ensures
        part is Some == is_byte_range(s@, start as int, end as int),
        part is Some ==> utf8(part->0@) == utf8(s@).subrange(start as int, end as int),
{
    let len = byte_len(s);
    if start > end || end > len || !s.is_char_boundary(start) || !s.is_char_boundary(end) {
        return None;
    }
    proof {
        vstd::utf8::encode_utf8_valid_utf8(s@);
        lemma_boundary_in_tail(utf8(s@), start as int, end as int);
    }
    let tail = s.split_at(start).1;
    let part = tail.split_at(end - start).0;
    proof {
        assert(utf8(part@) =~= utf8(s@).subrange(start as int, end as int));
    }
    Some(part)
}

/// Whether a character is white space.
pub open spec fn is_white_space(c: char) -> bool {
    ||| '\t' <= c <= '\r'
    ||| c == ' '
    ||| c == '\u{85}'
    ||| c == '\u{A0}'
    ||| c == '\u{1680}'
    ||| '\u{2000}' <= c <= '\u{200A}'
    ||| c == '\u{2028}'
    ||| c == '\u{2029}'
    ||| c == '\u{202F}'
    ||| c == '\u{205F}'
    ||| c == '\u{3000}'
}

/// Whether a character is white space.
fn white_space(c: char) -> (white: bool)
    ensures
        white == is_white_space(c),
{
    ('\t' <= c && c <= '\r') || c == ' ' || c == '\u{85}' || c == '\u{A0}' || c == '\u{1680}' || (
    '\u{2000}' <= c && c <= '\u{200A}') || c == '\u{2028}' || c == '\u{2029}' || c == '\u{202F}'
        || c == '\u{205F}' || c == '\u{3000}'
}

/// A text without leading white space.
pub open spec fn trimmed_start(text: Seq<char>) -> Seq<char>
    decreases text.len(),
{
    if text.len() > 0 && is_white_space(text[0]) {
        trimmed_start(text.skip(1))
    } else {
        text
    }
}

/// A text without trailing white space.
pub open spec fn trimmed_end(text: Seq<char>) -> Seq<char>
    decreases text.len(),
{
    if text.len() > 0 && is_white_space(text.last()) {
        trimmed_end(text.drop_last())
    } else {
        text
    }
}

/// A text without leading and trailing white space.
pub open spec fn trimmed(text: Seq<char>) -> Seq<char> {
    trimmed_end(trimmed_start(text))
}

/// The text without leading and trailing white space.
pub fn trim(text: &str) -> (bare: String)
    ensures
        bare@ == trimmed(text@),
{
    let chars = chars_of(text);
    let ghost view = chars@;
    let mut from: usize = 0;
    assert(view.skip(0) =~= view);
    while from < chars.len() && white_space(chars[from])
        invariant
            view == chars@,
            from <= chars.len(),
            trimmed_start(view) == trimmed_start(view.skip(from as int)),
        decreases chars.len() - from,
    {
        assert(view.skip(from as int).skip(1) =~= view.skip(from + 1));
        from = from + 1;
    }
    let ghost opened = view.skip(from as int);
    let mut to: usize = chars.len();
    assert(opened =~= view.subrange(from as int, to as int));
    while to > from && white_space(chars[to - 1])
        invariant
            view == chars@,
            from <= to <= chars.len(),
            trimmed_end(opened) == trimmed_end(view.subrange(from as int, to as int)),
        decreases to - from,
    {
        assert(view.subrange(from as int, to as int).drop_last() =~= view.subrange(
            from as int,
            to - 1,
        ));
        to = to - 1;
    }
    string_between(&chars, from, to)
}

/// Trimming takes white space off both ends and nothing else: what is left is the
/// middle of the text, and neither begins nor ends with white space.
pub proof fn lemma_trimmed(text: Seq<char>)
    ensures
        exists|from: int, to: int|
            {
                &&& 0 <= from <= to <= text.len()
                &&& trimmed(text) == #[trigger] text.subrange(from, to)
                &&& forall|i: int| 0 <= i < from ==> is_white_space(#[trigger] text[i])
                &&& forall|i: int| to <= i < text.len() ==> is_white_space(#[trigger] text[i])
            },
        trimmed(text).len() > 0 ==> !is_white_space(trimmed(text)[0]) && !is_white_space(
            trimmed(text).last(),
        ),
{
    let from = lemma_trimmed_start(text);
    let opened = text.skip(from);
    let n = lemma_trimmed_end(opened);
    let to = from + n;
    assert(trimmed(text) =~= text.subrange(from, to));
    assert forall|i: int| to <= i < text.len() implies is_white_space(#[trigger] text[i]) by {
        assert(opened[i - from] == text[i]);
    }
}

/// Where a text begins once leading white space is gone.
proof fn lemma_trimmed_start(text: Seq<char>) -> (from: int)
    ensures
        0 <= from <= text.len(),
        trimmed_start(text) == text.skip(from),
        forall|i: int| 0 <= i < from ==> is_white_space(#[trigger] text[i]),
        from < text.len() ==> !is_white_space(text[from]),
    decreases text.len(),
{
    if text.len() > 0 && is_white_space(text[0]) {
        let rest = text.skip(1);
        let n = lemma_trimmed_start(rest);
        assert(rest.skip(n) =~= text.skip(n + 1));
        assert forall|i: int| 0 <= i < n + 1 implies is_white_space(#[trigger] text[i]) by {
            if i > 0 {
                assert(rest[i - 1] == text[i]);
            }
        }
        if n + 1 < text.len() {
            assert(rest[n] == text[n + 1]);
        }
        n + 1
    } else {
        assert(text.skip(0) =~= text);
        0
    }
}

/// Where a text ends once trailing white space is gone.
proof fn lemma_trimmed_end(text: Seq<char>) -> (to: int)
    ensures
        0 <= to <= text.len(),
        trimmed_end(text) == text.take(to),
        forall|i: int| to <= i < text.len() ==> is_white_space(#[trigger] text[i]),
        to > 0 ==> !is_white_space(text[to - 1]),
    decreases text.len(),
{
    if text.len() > 0 && is_white_space(text.last()) {
        let front = text.drop_last();
        let n = lemma_trimmed_end(front);
        assert(front.take(n) =~= text.take(n));
        assert forall|i: int| n <= i < text.len() implies is_white_space(#[trigger] text[i]) by {
            if i < front.len() {
                assert(front[i] == text[i]);
            }
        }
        n
    } else {
        assert(text.take(text.len() as int) =~= text);
        text.len() as int
    }
}

/// Lowering a text keeps its length, lowers its capital letters and leaves every other
/// character.
pub proof fn lemma_lowered(text: Seq<char>, i: int)
    requires
        0 <= i < text.len(),
    ensures
        ascii_lower(text).len() == text.len(),
        'A' <= text[i] <= 'Z' ==> ascii_lower(text)[i] as u32 == text[i] as u32 + 32,
        !('A' <= text[i] <= 'Z') ==> ascii_lower(text)[i] == text[i],
{
}

} // verus!
