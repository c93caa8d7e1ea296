//! What holds of every match of a path: templates and paths are told apart segment
//! by segment, and each parameter stands for the segment at its own position.

use vstd::prelude::*;

use crate::operation::{
    admits, captures, distinct_captures, fits, is_parameter, literal_segments, normalized,
    parameter_name, rank, route, segment, segment_bounds, winner, without_query, Capture,
    OperationEntry, Transport,
};
use crate::text::{lemma_utf8_concat, utf8};

verus! {

/// Segments with slashes between them.
pub open spec fn joined(parts: Seq<Seq<char>>) -> Seq<char>
    decreases parts.len(),
{
    if parts.len() == 0 {
        Seq::empty()
    } else if parts.len() == 1 {
        parts[0]
    } else {
        joined(parts.drop_last()) + seq!['/'] + parts.last()
    }
}

/// Whether parts are segments: there is one at least, and none holds a slash.
pub open spec fn are_segments(parts: Seq<Seq<char>>) -> bool {
    &&& parts.len() >= 1
    &&& forall|i: int, k: int|
        0 <= i < parts.len() && 0 <= k < parts[i].len() ==> #[trigger] parts[i][k] != '/'
}

/// A template segment that declares the parameter `name`.
pub open spec fn placeholder(name: Seq<char>) -> Seq<char> {
    seq!['{'] + name + seq!['}']
}

/// Whether a template segment declares a parameter.
pub open spec fn is_placeholder(part: Seq<char>) -> bool {
    exists|name: Seq<char>| part == #[trigger] placeholder(name)
}

/// Where the `i`-th segment begins in the joined text, in characters.
pub open spec fn begin_of(parts: Seq<Seq<char>>, i: int) -> int {
    if i == 0 {
        0
    } else {
        (joined(parts.take(i)).len() + 1) as int
    }
}

/// Characters that are no slash extend the last segment.
proof fn lemma_bounds_extend(s: Seq<char>, part: Seq<char>)
    requires
        forall|k: int| 0 <= k < part.len() ==> #[trigger] part[k] != '/',
    ensures
        segment_bounds(s).len() >= 1,
        segment_bounds(s).last().1 == s.len(),
        segment_bounds(s + part) == segment_bounds(s).update(
            segment_bounds(s).len() - 1,
            (segment_bounds(s).last().0, (s.len() + part.len()) as int),
        ),
    decreases s.len() + part.len(),
{
    if part.len() == 0 {
        assert(s + part =~= s);
        if s.len() > 0 {
            lemma_bounds_extend(s.drop_last(), Seq::empty());
        }
        assert(segment_bounds(s).update(
            segment_bounds(s).len() - 1,
            (segment_bounds(s).last().0, s.len() as int),
        ) =~= segment_bounds(s));
    } else {
        let front = part.drop_last();
        assert forall|k: int| 0 <= k < front.len() implies #[trigger] front[k] != '/' by {
            assert(front[k] == part[k]);
        }
        lemma_bounds_extend(s, front);
        let whole = s + part;
        assert(whole.drop_last() =~= s + front);
        assert(whole.last() == part[part.len() - 1]);
        assert(segment_bounds(whole) =~= segment_bounds(s).update(
            segment_bounds(s).len() - 1,
            (segment_bounds(s).last().0, (s.len() + part.len()) as int),
        ));
    }
}

/// The bounds of joined segments are those of the segments.
proof fn lemma_joined_bounds(parts: Seq<Seq<char>>)
    requires
        are_segments(parts),
    ensures
        segment_bounds(joined(parts)).len() == parts.len(),
        forall|i: int|
            0 <= i < parts.len() ==> #[trigger] segment_bounds(joined(parts))[i] == (
                begin_of(parts, i),
                begin_of(parts, i) + parts[i].len(),
            ),
    decreases parts.len(),
{
    let last = parts.last();
    assert forall|k: int| 0 <= k < last.len() implies #[trigger] last[k] != '/' by {
        assert(parts[parts.len() - 1][k] != '/');
    }
    if parts.len() == 1 {
        lemma_bounds_extend(Seq::empty(), last);
        assert(Seq::<char>::empty() + last =~= joined(parts));
    } else {
        let front = parts.drop_last();
        assert(are_segments(front)) by {
            assert forall|i: int, k: int|
                0 <= i < front.len() && 0 <= k < front[i].len() implies #[trigger] front[i][k]
                != '/' by {
                assert(parts[i][k] != '/');
            }
        }
        lemma_joined_bounds(front);
        let head = joined(front);
        let opened = head + seq!['/'];
        assert(opened.drop_last() =~= head);
        lemma_bounds_extend(opened, last);
        assert(parts.take(parts.len() - 1) =~= front);
        assert(joined(parts) =~= opened + last);
        assert forall|i: int| 0 <= i < parts.len() implies #[trigger] segment_bounds(
            joined(parts),
        )[i] == (begin_of(parts, i), begin_of(parts, i) + parts[i].len()) by {
            if i < front.len() {
                assert(front.take(i) =~= parts.take(i));
                assert(segment_bounds(head)[i] == (
                    begin_of(front, i),
                    begin_of(front, i) + front[i].len(),
                ));
            }
        }
    }
}

/// The text before a segment and the segment itself stand where they were joined.
proof fn lemma_joined_parts(parts: Seq<Seq<char>>, i: int)
    requires
        are_segments(parts),
        0 <= i < parts.len(),
    ensures
        begin_of(parts, i) + parts[i].len() <= joined(parts).len(),
        joined(parts).subrange(begin_of(parts, i), begin_of(parts, i) + parts[i].len())
            == parts[i],
        i > 0 ==> joined(parts).take(begin_of(parts, i)) == joined(parts.take(i)) + seq!['/'],
    decreases parts.len(),
{
    if parts.len() == 1 {
        assert(joined(parts).subrange(0, parts[0].len() as int) =~= parts[0]);
    } else {
        let front = parts.drop_last();
        assert(are_segments(front)) by {
            assert forall|j: int, k: int|
                0 <= j < front.len() && 0 <= k < front[j].len() implies #[trigger] front[j][k]
                != '/' by {
                assert(parts[j][k] != '/');
            }
        }
        let head = joined(front);
        let whole = joined(parts);
        assert(parts.take(parts.len() - 1) =~= front);
        if i == parts.len() - 1 {
            assert(whole.subrange(begin_of(parts, i), begin_of(parts, i) + parts[i].len())
                =~= parts[i]);
            assert(whole.take(begin_of(parts, i)) =~= head + seq!['/']);
        } else {
            lemma_joined_parts(front, i);
            assert(front.take(i) =~= parts.take(i));
            let from = begin_of(parts, i);
            let to = from + parts[i].len();
            assert(whole.subrange(from, to) =~= head.subrange(from, to));
            if i > 0 {
                assert(whole.take(from) =~= head.take(from));
            }
        }
    }
}

/// Joined segments are told apart again.
proof fn lemma_joined_segment(parts: Seq<Seq<char>>, i: int)
    requires
        are_segments(parts),
        0 <= i < parts.len(),
    ensures
        segment_bounds(joined(parts)).len() == parts.len(),
        segment(joined(parts), i) == parts[i],
{
    lemma_joined_bounds(parts);
    lemma_joined_parts(parts, i);
}

/// What declares a parameter.
proof fn lemma_placeholder(part: Seq<char>)
    ensures
        is_parameter(part) == is_placeholder(part),
        is_parameter(part) ==> part == placeholder(parameter_name(part)),
        forall|name: Seq<char>|
            part == #[trigger] placeholder(name) ==> parameter_name(part) == name,
{
    if is_parameter(part) {
        assert(part =~= placeholder(parameter_name(part)));
    }
    assert forall|name: Seq<char>| part == #[trigger] placeholder(name) implies parameter_name(part)
        == name && is_parameter(part) by {
        assert(part[0] == '{');
        assert(part.last() == '}');
        assert(parameter_name(part) =~= name);
    }
}

/// How many of the first `n` template segments declare a parameter.
pub open spec fn placeholders(parts: Seq<Seq<char>>, n: int) -> nat
    decreases n,
{
    if n <= 0 {
        0
    } else if is_placeholder(parts[n - 1]) {
        placeholders(parts, n - 1) + 1
    } else {
        placeholders(parts, n - 1)
    }
}

/// Whether a capture is that of the parameter at position `i`: its name is the
/// declared one, its value the path's segment at the same position, and its offset
/// the bytes before that segment.
pub open spec fn captures_position(
    capture: Capture,
    template: Seq<Seq<char>>,
    path: Seq<Seq<char>>,
    i: int,
) -> bool {
    &&& template[i] == placeholder(capture.name)
    &&& capture.value == path[i]
    &&& capture.start == if i == 0 {
        0
    } else {
        utf8(joined(path.take(i))).len() + 1
    }
}

/// The captures of the first `n` segments, one for each parameter, in order.
proof fn lemma_captures_by_position(template: Seq<Seq<char>>, path: Seq<Seq<char>>, n: int)
    requires
        are_segments(template),
        are_segments(path),
        template.len() == path.len(),
        0 <= n <= template.len(),
    ensures
        ({
            let all = captures(joined(template), joined(path), n);
            &&& all.len() == placeholders(template, n)
            &&& forall|i: int|
                0 <= i < n && is_placeholder(#[trigger] template[i]) ==> placeholders(template, i)
                    < all.len() && captures_position(
                    all[placeholders(template, i) as int],
                    template,
                    path,
                    i,
                )
        }),
    decreases n,
{
    if n > 0 {
        let t = joined(template);
        let p = joined(path);
        lemma_captures_by_position(template, path, n - 1);
        lemma_joined_segment(template, n - 1);
        lemma_joined_segment(path, n - 1);
        lemma_joined_bounds(path);
        lemma_joined_parts(path, n - 1);
        lemma_placeholder(template[n - 1]);
        let front = captures(t, p, n - 1);
        let all = captures(t, p, n);
        if is_placeholder(template[n - 1]) {
            let capture = all.last();
            if n - 1 == 0 {
                assert(p.take(0) =~= Seq::<char>::empty());
                assert(utf8(Seq::<char>::empty()).len() == 0);
            } else {
                lemma_utf8_concat(joined(path.take(n - 1)), seq!['/']);
                lemma_slash_byte();
            }
            assert(captures_position(capture, template, path, n - 1));
            assert forall|i: int| 0 <= i < n && is_placeholder(
                #[trigger] template[i],
            ) implies placeholders(template, i) < all.len() && captures_position(
                all[placeholders(template, i) as int],
                template,
                path,
                i,
            ) by {
                if i < n - 1 {
                    assert(all[placeholders(template, i) as int] == front[placeholders(
                        template,
                        i,
                    ) as int]);
                }
            }
        }
    }
}

/// A slash is one byte.
proof fn lemma_slash_byte()
    ensures
        utf8(seq!['/']).len() == 1,
{
    reveal_with_fuel(vstd::utf8::encode_utf8, 2);
    assert(seq!['/'].drop_first() =~= Seq::<char>::empty());
}

/// A template fits a path exactly where both have as many segments, every literal
/// segment is met by itself and every parameter by a segment that is not empty, no
/// name is declared twice, and there are no more parameters than can be held.
///
/// The captures are positional: there is one for each parameter, in order, and it
/// has the declared name, the segment of the path at the same position, and the
/// offset at which that segment begins.
pub proof fn lemma_captures_are_positional(template: Seq<Seq<char>>, path: Seq<Seq<char>>)
    requires
        are_segments(template),
        are_segments(path),
    ensures
        ({
            let found = route(joined(template), joined(path));
            let fits = {
                &&& template.len() == path.len()
                &&& forall|i: int|
                    0 <= i < template.len() ==> if is_placeholder(#[trigger] template[i]) {
                        path[i].len() > 0
                    } else {
                        path[i] == template[i]
                    }
                &&& forall|i: int, j: int|
                    0 <= i < j < template.len() && is_placeholder(template[i])
                        ==> #[trigger] template[i] != #[trigger] template[j]
                &&& placeholders(template, template.len() as int) <= 4
            };
            &&& found is Some <==> fits
            &&& found is Some ==> {
                &&& found->0.len() == placeholders(template, template.len() as int)
                &&& forall|i: int|
                    0 <= i < template.len() && is_placeholder(#[trigger] template[i])
                        ==> captures_position(
                        found->0[placeholders(template, i) as int],
                        template,
                        path,
                        i,
                    )
            }
        }),
{
    let t = joined(template);
    let p = joined(path);
    lemma_joined_bounds(template);
    lemma_joined_bounds(path);
    if template.len() == path.len() {
        let count = template.len() as int;
        lemma_captures_by_position(template, path, count);
        let all = captures(t, p, count);
        assert forall|i: int| 0 <= i < count implies admits(#[trigger] segment(t, i), segment(p, i))
            == (if is_placeholder(template[i]) {
            path[i].len() > 0
        } else {
            path[i] == template[i]
        }) by {
            lemma_joined_segment(template, i);
            lemma_joined_segment(path, i);
            lemma_placeholder(template[i]);
        }
        assert forall|i: int|
            0 <= i < count && admits(segment(t, i), segment(p, i)) implies if is_placeholder(
            #[trigger] template[i],
        ) {
            path[i].len() > 0
        } else {
            path[i] == template[i]
        } by {
            assert(admits(segment(t, i), segment(p, i)) == (if is_placeholder(template[i]) {
                path[i].len() > 0
            } else {
                path[i] == template[i]
            }));
        }
        if route(t, p) is Some {
            assert forall|i: int| 0 <= i < count implies if is_placeholder(#[trigger] template[i]) {
                path[i].len() > 0
            } else {
                path[i] == template[i]
            } by {
                assert(admits(segment(t, i), segment(p, i)));
            }
        }
        lemma_names_differ(template, path);
    }
}

/// Names are captured twice exactly where they are declared twice.
proof fn lemma_names_differ(template: Seq<Seq<char>>, path: Seq<Seq<char>>)
    requires
        are_segments(template),
        are_segments(path),
        template.len() == path.len(),
    ensures
        distinct_captures(captures(joined(template), joined(path), template.len() as int)) <==> (
        forall|i: int, j: int|
            0 <= i < j < template.len() && is_placeholder(template[i])
                ==> #[trigger] template[i] != #[trigger] template[j]),
{
    let count = template.len() as int;
    let all = captures(joined(template), joined(path), count);
    lemma_captures_by_position(template, path, count);
    if distinct_captures(all) {
        assert forall|i: int, j: int|
            0 <= i < j < template.len() && is_placeholder(template[i]) implies #[trigger] template[i]
            != #[trigger] template[j] by {
            if template[i] == template[j] {
                lemma_placeholders_grow(template, i + 1, j);
                let a = placeholders(template, i) as int;
                let b = placeholders(template, j) as int;
                assert(captures_position(all[a], template, path, i));
                assert(captures_position(all[b], template, path, j));
                lemma_placeholder(template[i]);
                assert(all[a].name == all[b].name);
            }
        }
    }
    if forall|i: int, j: int|
        0 <= i < j < template.len() && is_placeholder(template[i]) ==> #[trigger] template[i]
            != #[trigger] template[j] {
        assert forall|a: int, b: int| 0 <= a < b < all.len() implies (#[trigger] all[a]).name != (
        #[trigger] all[b]).name by {
            lemma_placeholder_at(template, count, a);
            lemma_placeholder_at(template, count, b);
            let i = choose|i: int|
                0 <= i < count && is_placeholder(#[trigger] template[i]) && placeholders(
                    template,
                    i,
                ) == a;
            let j = choose|j: int|
                0 <= j < count && is_placeholder(#[trigger] template[j]) && placeholders(
                    template,
                    j,
                ) == b;
            assert(captures_position(all[a], template, path, i));
            assert(captures_position(all[b], template, path, j));
            if j <= i {
                lemma_placeholders_grow(template, j, i);
            }
            assert(template[i] != template[j]);
        }
    }
}

/// More segments declare no fewer parameters.
proof fn lemma_placeholders_grow(template: Seq<Seq<char>>, i: int, j: int)
    requires
        i <= j,
    ensures
        placeholders(template, i) <= placeholders(template, j),
    decreases j - i,
{
    if i < j {
        lemma_placeholders_grow(template, i, j - 1);
    }
}

/// Each parameter stands at some position.
proof fn lemma_placeholder_at(template: Seq<Seq<char>>, n: int, k: int)
    requires
        0 <= n <= template.len(),
        0 <= k < placeholders(template, n),
    ensures
        exists|i: int|
            0 <= i < n && is_placeholder(#[trigger] template[i]) && placeholders(template, i) == k,
    decreases n,
{
    if n > 0 {
        if k < placeholders(template, n - 1) {
            lemma_placeholder_at(template, n - 1, k);
            let i = choose|i: int|
                0 <= i < n - 1 && is_placeholder(#[trigger] template[i]) && placeholders(
                    template,
                    i,
                ) == k;
            assert(is_placeholder(template[i]));
        } else {
            assert(is_placeholder(template[n - 1]));
        }
    }
}

/// A template ranks by its segments that declare no parameter.
pub proof fn lemma_rank_counts_literals(template: Seq<Seq<char>>)
    requires
        are_segments(template),
    ensures
        rank(joined(template)) + placeholders(template, template.len() as int) == template.len(),
{
    lemma_joined_bounds(template);
    lemma_literals(template, template.len() as int);
}

/// Each of the first `n` segments is literal or declares a parameter.
proof fn lemma_literals(template: Seq<Seq<char>>, n: int)
    requires
        are_segments(template),
        0 <= n <= template.len(),
    ensures
        literal_segments(joined(template), n) + placeholders(template, n) == n,
    decreases n,
{
    if n > 0 {
        lemma_literals(template, n - 1);
        lemma_joined_segment(template, n - 1);
        lemma_placeholder(template[n - 1]);
    }
}

/// What wins has the method and the transport that were asked for.
pub proof fn lemma_winner_is_asked_for<T: OperationEntry>(
    specs: Seq<T>,
    method: Seq<char>,
    path: Seq<char>,
    transport: Transport,
    n: int,
)
    requires
        0 <= n <= specs.len(),
    ensures
        match winner(specs, method, path, transport, n) {
            Some(i) => {
                &&& 0 <= i < n
                &&& specs[i].operation().method.label() == method
                &&& specs[i].operation().transport == transport
                &&& route(specs[i].operation().runtime_path@, normalized(path)) is Some
            },
            None => forall|j: int|
                0 <= j < n ==> {
                    let operation = (#[trigger] specs[j]).operation();
                    ||| operation.method.label() != method
                    ||| operation.transport != transport
                    ||| route(operation.runtime_path@, normalized(path)) is None
                },
        },
    decreases n,
{
    if n > 0 {
        lemma_winner_is_asked_for(specs, method, path, transport, n - 1);
    }
}

/// A path is matched up to its query string, and without one slash at its end
/// unless nothing else is left.
pub proof fn lemma_path_is_matched_up_to_query(path: Seq<char>, query: Seq<char>)
    requires
        !path.contains('?'),
    ensures
        without_query(path) == path,
        without_query(path + seq!['?'] + query) == path,
        path.len() < 2 || path.last() != '/' ==> normalized(path) == path,
        path.len() >= 1 ==> normalized(path + seq!['/']) == path,
    decreases path.len(),
{
    let slashed = path + seq!['/'];
    lemma_no_query(path);
    assert forall|i: int| 0 <= i < slashed.len() implies slashed[i] != '?' by {
        if i < path.len() {
            assert(path.contains(path[i]));
        }
    }
    assert(!slashed.contains('?'));
    lemma_no_query(slashed);
    assert(slashed.drop_last() =~= path);
    lemma_query_dropped(path, query);
}

/// A path without a query string is left.
proof fn lemma_no_query(path: Seq<char>)
    requires
        !path.contains('?'),
    ensures
        without_query(path) == path,
    decreases path.len(),
{
    if path.len() > 0 {
        assert(path.contains(path[0]));
        assert forall|c: char| path.drop_first().contains(c) implies path.contains(c) by {
            let i = choose|i: int| 0 <= i < path.drop_first().len() && path.drop_first()[i] == c;
            assert(path[i + 1] == c);
        }
        lemma_no_query(path.drop_first());
        assert(seq![path[0]] + path.drop_first() =~= path);
    }
}

/// A query string is dropped with its mark.
proof fn lemma_query_dropped(path: Seq<char>, query: Seq<char>)
    requires
        !path.contains('?'),
    ensures
        without_query(path + seq!['?'] + query) == path,
    decreases path.len(),
{
    let full = path + seq!['?'] + query;
    if path.len() == 0 {
        assert(full[0] == '?');
        assert(path =~= Seq::<char>::empty());
    } else {
        assert(path.contains(path[0]));
        assert(full[0] == path[0]);
        assert forall|c: char| path.drop_first().contains(c) implies path.contains(c) by {
            let i = choose|i: int| 0 <= i < path.drop_first().len() && path.drop_first()[i] == c;
            assert(path[i + 1] == c);
        }
        lemma_query_dropped(path.drop_first(), query);
        assert(full.drop_first() =~= path.drop_first() + seq!['?'] + query);
        assert(seq![path[0]] + path.drop_first() =~= path);
    }
}

} // verus!
