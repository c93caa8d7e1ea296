//! The order of texts by code points, and sorting by it.

use vstd::prelude::*;
use vstd::relations::{
    antisymmetric, reflexive, sorted_by, strongly_connected, total_ordering, transitive,
};

use crate::text::chars_of;

verus! {

/// Whether `a` does not come after `b` in the order by code points.
pub open spec fn text_le(a: Seq<char>, b: Seq<char>) -> bool
    decreases a.len(),
{
    if a.len() == 0 {
        true
    } else if b.len() == 0 {
        false
    } else if a[0] != b[0] {
        a[0] < b[0]
    } else {
        text_le(a.drop_first(), b.drop_first())
    }
}

/// The order by code points, as a function.
pub open spec fn text_order() -> spec_fn(Seq<char>, Seq<char>) -> bool {
    |a: Seq<char>, b: Seq<char>| text_le(a, b)
}

/// Every text is in order with itself.
proof fn lemma_reflexive(a: Seq<char>)
    ensures
        text_le(a, a),
    decreases a.len(),
{
    if a.len() > 0 {
        lemma_reflexive(a.drop_first());
    }
}

/// Two texts in order both ways are one.
proof fn lemma_antisymmetric(a: Seq<char>, b: Seq<char>)
    requires
        text_le(a, b),
        text_le(b, a),
    ensures
        a == b,
    decreases a.len(),
{
    if a.len() > 0 && b.len() > 0 {
        lemma_antisymmetric(a.drop_first(), b.drop_first());
        assert(a =~= seq![a[0]] + a.drop_first());
        assert(b =~= seq![b[0]] + b.drop_first());
    } else {
        assert(a =~= b);
    }
}

/// The order is transitive.
proof fn lemma_transitive(a: Seq<char>, b: Seq<char>, c: Seq<char>)
    requires
        text_le(a, b),
        text_le(b, c),
    ensures
        text_le(a, c),
    decreases a.len(),
{
    if a.len() > 0 && a[0] == b[0] && b[0] == c[0] {
        lemma_transitive(a.drop_first(), b.drop_first(), c.drop_first());
    }
}

/// Any two texts are in order one way or the other.
proof fn lemma_connected(a: Seq<char>, b: Seq<char>)
    ensures
        text_le(a, b) || text_le(b, a),
    decreases a.len(),
{
    if a.len() > 0 && b.len() > 0 && a[0] == b[0] {
        lemma_connected(a.drop_first(), b.drop_first());
    }
}

/// The order by code points is a total order.
pub proof fn lemma_text_order()
    ensures
        total_ordering(text_order()),
{
    let r = text_order();
    assert(reflexive(r)) by {
        assert forall|a: Seq<char>| #[trigger] r(a, a) by {
            lemma_reflexive(a);
        }
    }
    assert(antisymmetric(r)) by {
        assert forall|a: Seq<char>, b: Seq<char>| #[trigger] r(a, b) && #[trigger] r(b, a) implies a
            == b by {
            lemma_antisymmetric(a, b);
        }
    }
    assert(transitive(r)) by {
        assert forall|a: Seq<char>, b: Seq<char>, c: Seq<char>| #[trigger] r(a, b)
            && #[trigger] r(b, c) implies r(a, c) by {
            lemma_transitive(a, b, c);
        }
    }
    assert(strongly_connected(r)) by {
        assert forall|a: Seq<char>, b: Seq<char>| #[trigger] r(a, b) || #[trigger] r(b, a) by {
            lemma_connected(a, b);
        }
    }
}

/// What is left of two texts with a common beginning decides their order.
proof fn lemma_common_start(a: Seq<char>, b: Seq<char>, n: int)
    requires
        0 <= n <= a.len(),
        n <= b.len(),
        forall|i: int| 0 <= i < n ==> a[i] == b[i],
    ensures
        text_le(a, b) == text_le(a.skip(n), b.skip(n)),
    decreases n,
{
    if n == 0 {
        assert(a.skip(0) =~= a);
        assert(b.skip(0) =~= b);
    } else {
        lemma_common_start(a.drop_first(), b.drop_first(), n - 1);
        assert(a.drop_first().skip(n - 1) =~= a.skip(n));
        assert(b.drop_first().skip(n - 1) =~= b.skip(n));
    }
}

/// Whether `a` does not come after `b` in the order by code points.
pub fn not_after(a: &str, b: &str) -> (ordered: bool)
    ensures
        ordered == text_le(a@, b@),
{
    let left = chars_of(a);
    let right = chars_of(b);
    let mut i: usize = 0;
    while i < left.len() && i < right.len() && left[i] == right[i]
        invariant
            left@ == a@,
            right@ == b@,
            i <= left.len(),
            i <= right.len(),
            forall|j: int| 0 <= j < i ==> a@[j] == b@[j],
        decreases left.len() - i,
    {
        i = i + 1;
    }
    proof {
        lemma_common_start(a@, b@, i as int);
    }
    if i == left.len() {
        true
    } else if i == right.len() {
        false
    } else {
        left[i] < right[i]
    }
}

/// The texts of names.
pub open spec fn names_of(names: Seq<String>) -> Seq<Seq<char>> {
    Seq::new(names.len(), |i: int| names[i]@)
}

/// Puts `name` into sorted names, at its place.
fn insert_sorted(names: &mut Vec<String>, name: String)
    requires
        sorted_by(names_of(old(names)@), text_order()),
    ensures
        sorted_by(names_of(final(names)@), text_order()),
        names_of(final(names)@).to_multiset() == names_of(old(names)@).to_multiset().insert(name@),
{
    let ghost before = names_of(names@);
    let mut at: usize = 0;
    while at < names.len() && !not_after(name.as_str(), names[at].as_str())
        invariant
            before == names_of(names@),
            at <= names.len(),
            forall|j: int| 0 <= j < at ==> !text_le(name@, #[trigger] before[j]),
        decreases names.len() - at,
    {
        at = at + 1;
    }
    names.insert(at, name);
    proof {
        let after = names_of(names@);
        assert(after =~= before.insert(at as int, name@));
        vstd::seq_lib::to_multiset_insert(before, at as int, name@);
        lemma_text_order();
        let r = text_order();
        assert forall|i: int, j: int| 0 <= i < j < after.len() implies #[trigger] r(
            after[i],
            after[j],
        ) by {
            if i == at {
                assert(after[j] == before[j - 1]);
                assert(text_le(name@, before[at as int]));
                if j - 1 > at {
                    assert(r(before[at as int], before[j - 1]));
                    lemma_transitive(name@, before[at as int], before[j - 1]);
                }
            } else if j == at {
                assert(after[i] == before[i]);
                assert(!text_le(name@, before[i]));
                lemma_connected(name@, before[i]);
            } else {
                let k = if i < at {
                    i
                } else {
                    i - 1
                };
                let m = if j < at {
                    j
                } else {
                    j - 1
                };
                assert(after[i] == before[k] && after[j] == before[m]);
                assert(r(before[k], before[m]));
            }
        }
    }
}

/// `names` in the order by code points.
pub fn sorted_names(names: &Vec<String>) -> (sorted: Vec<String>)
    ensures
        names_of(sorted@) == names_of(names@).sort_by(text_order()),
{
    let ghost view = names_of(names@);
    let mut sorted: Vec<String> = Vec::new();
    let mut i: usize = 0;
    assert(names_of(sorted@) =~= Seq::empty());
    assert(view.take(0) =~= Seq::empty());
    while i < names.len()
        invariant
            view == names_of(names@),
            i <= names.len(),
            sorted_by(names_of(sorted@), text_order()),
            names_of(sorted@).to_multiset() == view.take(i as int).to_multiset(),
        decreases names.len() - i,
    {
        insert_sorted(&mut sorted, names[i].clone());
        proof {
            assert(view.take(i + 1) =~= view.take(i as int).push(view[i as int]));
            vstd::seq_lib::to_multiset_build(view.take(i as int), view[i as int]);
        }
        i = i + 1;
    }
    proof {
        assert(view.take(i as int) =~= view);
        lemma_text_order();
        view.lemma_sort_by_ensures(text_order());
        vstd::seq_lib::lemma_sorted_unique(
            names_of(sorted@),
            view.sort_by(text_order()),
            text_order(),
        );
    }
    sorted
}

/// Names that hold the same texts, each once, are sorted alike.
pub proof fn lemma_sorted_alike(a: Seq<Seq<char>>, b: Seq<Seq<char>>)
    requires
        a.no_duplicates(),
        b.no_duplicates(),
        forall|x: Seq<char>| a.contains(x) <==> b.contains(x),
    ensures
        a.sort_by(text_order()) == b.sort_by(text_order()),
{
    lemma_text_order();
    a.lemma_multiset_has_no_duplicates();
    b.lemma_multiset_has_no_duplicates();
    broadcast use vstd::seq_lib::group_to_multiset_ensures;

    assert forall|x: Seq<char>| #[trigger] a.to_multiset().count(x) == b.to_multiset().count(x) by {
        assert(a.contains(x) <==> a.to_multiset().count(x) > 0);
        assert(b.contains(x) <==> b.to_multiset().count(x) > 0);
        if a.contains(x) {
            assert(a.to_multiset().contains(x));
            assert(b.to_multiset().contains(x));
        }
    }
    assert(a.to_multiset() =~= b.to_multiset());
    a.lemma_sort_by_ensures(text_order());
    b.lemma_sort_by_ensures(text_order());
    vstd::seq_lib::lemma_sorted_unique(
        a.sort_by(text_order()),
        b.sort_by(text_order()),
        text_order(),
    );
}

} // verus!
