//! Maps and sets keyed by text.

use vstd::prelude::*;

use crate::text::{byte_len, same_text, utf8};

verus! {

/// The map that entries stand for: of entries with one key the first counts.
pub open spec fn map_of<V>(entries: Seq<(String, V)>) -> Map<Seq<char>, V>
    decreases entries.len(),
{
    if entries.len() == 0 {
        Map::empty()
    } else {
        let front = map_of(entries.drop_last());
        if front.dom().contains(entries.last().0@) {
            front
        } else {
            front.insert(entries.last().0@, entries.last().1)
        }
    }
}

/// The first entry of a key.
spec fn first_of<V>(entries: Seq<(String, V)>, key: Seq<char>) -> int
    decreases entries.len(),
{
    if entries.len() == 0 {
        -1
    } else {
        let front = first_of(entries.drop_last(), key);
        if front >= 0 {
            front
        } else if entries.last().0@ == key {
            entries.len() - 1
        } else {
            -1
        }
    }
}

/// What `first_of` finds.
proof fn lemma_first_of<V>(entries: Seq<(String, V)>, key: Seq<char>)
    ensures
        first_of(entries, key) >= 0 ==> {
            &&& first_of(entries, key) < entries.len()
            &&& entries[first_of(entries, key)].0@ == key
            &&& forall|j: int|
                0 <= j < first_of(entries, key) ==> (#[trigger] entries[j]).0@ != key
        },
        first_of(entries, key) < 0 ==> forall|j: int|
            0 <= j < entries.len() ==> (#[trigger] entries[j]).0@ != key,
    decreases entries.len(),
{
    if entries.len() > 0 {
        let rest = entries.drop_last();
        lemma_first_of(rest, key);
        if first_of(rest, key) >= 0 {
            assert(rest[first_of(rest, key)] == entries[first_of(rest, key)]);
            assert forall|j: int| 0 <= j < first_of(entries, key) implies (#[trigger] entries[j]).0@
                != key by {
                assert(rest[j] == entries[j]);
            }
        } else {
            assert forall|j: int| 0 <= j < rest.len() implies (#[trigger] entries[j]).0@ != key by {
                assert(rest[j] == entries[j]);
            }
        }
    }
}

/// The map of entries holds under a key what its first entry holds.
proof fn lemma_map_of<V>(entries: Seq<(String, V)>, key: Seq<char>)
    ensures
        map_of(entries).dom().contains(key) == (first_of(entries, key) >= 0),
        first_of(entries, key) >= 0 ==> first_of(entries, key) < entries.len() && map_of(
            entries,
        )[key] == entries[first_of(entries, key)].1,
    decreases entries.len(),
{
    if entries.len() > 0 {
        lemma_map_of(entries.drop_last(), key);
    }
}

/// Where the first entry of a key stands.
proof fn lemma_first_is<V>(entries: Seq<(String, V)>, key: Seq<char>, i: int)
    requires
        0 <= i < entries.len(),
        entries[i].0@ == key,
        forall|j: int| 0 <= j < i ==> (#[trigger] entries[j]).0@ != key,
    ensures
        first_of(entries, key) == i,
{
    lemma_first_of(entries, key);
    let f = first_of(entries, key);
    if 0 <= f < i {
        assert(entries[f].0@ != key);
    }
}

/// A map whose keys are texts.
pub struct TextMap<V> {
    entries: Vec<(String, V)>,
}

impl<V> View for TextMap<V> {
    type V = Map<Seq<char>, V>;

    closed spec fn view(&self) -> Map<Seq<char>, V> {
        map_of(self.entries@)
    }
}

impl<V> TextMap<V> {
    /// An empty map.
    pub fn new() -> (map: Self)
        ensures
            map@ == Map::<Seq<char>, V>::empty(),
    {
        TextMap { entries: Vec::new() }
    }

    /// Where the first entry of `key` stands.
    fn find(&self, key: &str) -> (found: Option<usize>)
        ensures
            match found {
                Some(i) => {
                    &&& i < self.entries@.len()
                    &&& self.entries@[i as int].0@ == key@
                    &&& forall|j: int| 0 <= j < i ==> (#[trigger] self.entries@[j]).0@ != key@
                    &&& self@.dom().contains(key@)
                    &&& self@[key@] == self.entries@[i as int].1
                },
                None => !self@.dom().contains(key@),
            },
    {
        let mut i: usize = 0;
        while i < self.entries.len()
            invariant
                i <= self.entries.len(),
                forall|j: int| 0 <= j < i ==> (#[trigger] self.entries@[j]).0@ != key@,
            decreases self.entries.len() - i,
        {
            if same_text(self.entries[i].0.as_str(), key) {
                proof {
                    lemma_first_is(self.entries@, key@, i as int);
                    lemma_map_of(self.entries@, key@);
                }
                return Some(i);
            }
            i = i + 1;
        }
        proof {
            lemma_first_of(self.entries@, key@);
            lemma_map_of(self.entries@, key@);
        }
        None
    }

    /// The value under `key`.
    pub fn get(&self, key: &str) -> (found: Option<&V>)
        ensures
            match found {
                Some(value) => self@.dom().contains(key@) && self@[key@] == *value,
                None => !self@.dom().contains(key@),
            },
    {
        match self.find(key) {
            Some(i) => Some(&self.entries[i].1),
            None => None,
        }
    }

    /// Whether there is a value under `key`.
    pub fn contains(&self, key: &str) -> (found: bool)
        ensures
            found == self@.dom().contains(key@),
    {
        self.find(key).is_some()
    }

    /// How many keys the map has.
    pub fn size(&self) -> (size: usize)
        ensures
            self@.dom().finite(),
            size == self@.dom().len(),
    {
        let mut size: usize = 0;
        let mut i: usize = 0;
        assert(self.entries@.take(0) =~= Seq::empty());
        while i < self.entries.len()
            invariant
                size <= i <= self.entries.len(),
                map_of(self.entries@.take(i as int)).dom().finite(),
                size == map_of(self.entries@.take(i as int)).dom().len(),
            decreases self.entries.len() - i,
        {
            let ghost front = self.entries@.take(i as int);
            proof {
                assert(self.entries@.take(i + 1).drop_last() =~= front);
                lemma_first_of(front, self.entries@[i as int].0@);
                lemma_map_of(front, self.entries@[i as int].0@);
                lemma_first_of(self.entries@, self.entries@[i as int].0@);
            }
            let ghost key = self.entries@[i as int].0@;
            proof {
                lemma_map_of(self.entries@, key);
                assert(first_of(self.entries@, key) >= 0);
            }
            match self.find(self.entries[i].0.as_str()) {
                Some(first) => if first == i {
                    assert(first_of(front, key) < 0) by {
                        if first_of(front, key) >= 0 {
                            assert(self.entries@[first_of(front, key)] == front[first_of(
                                front,
                                key,
                            )]);
                        }
                    }
                    size = size + 1;
                } else {
                    assert(first < i);
                    assert(front[first as int] == self.entries@[first as int]);
                },
                None => {},
            }
            i = i + 1;
        }
        assert(self.entries@.take(i as int) =~= self.entries@);
        size
    }

    /// Puts `value` under `key`.
    pub fn insert(&mut self, key: &str, value: V)
        ensures
            final(self)@ == old(self)@.insert(key@, value),
    {
        let ghost before = self.entries@;
        match self.find(key) {
            Some(i) => {
                self.entries.set(i, (key.to_owned(), value));
            },
            None => {
                self.entries.push((key.to_owned(), value));
            },
        }
        proof {
            let after = self.entries@;
            assert forall|k: Seq<char>|
                map_of(after).dom().contains(k) <==> #[trigger] map_of(before).insert(
                    key@,
                    value,
                ).dom().contains(k) by {
                lemma_same_key_sets(before, after, key@, value, k);
            }
            assert forall|k: Seq<char>| map_of(after).dom().contains(k) implies #[trigger] map_of(
                after,
            )[k] == map_of(before).insert(key@, value)[k] by {
                lemma_same_key_sets(before, after, key@, value, k);
            }
            assert(map_of(after) =~= map_of(before).insert(key@, value));
        }
    }

    /// Takes the value under `key` out.
    pub fn remove(&mut self, key: &str) -> (taken: Option<V>)
        ensures
            final(self)@ == old(self)@.remove(key@),
            match taken {
                Some(value) => old(self)@.dom().contains(key@) && old(self)@[key@] == value,
                None => !old(self)@.dom().contains(key@),
            },
    {
        let ghost before = self.entries@;
        let mut kept: Vec<(String, V)> = Vec::new();
        let mut taken: Option<V> = None;
        let mut rest: Vec<(String, V)> = Vec::new();
        std::mem::swap(&mut rest, &mut self.entries);
        assert(before.skip(0) =~= before);
        let ghost mut done: Seq<(String, V)> = Seq::empty();
        while rest.len() > 0
            invariant
                done + rest@ == before,
                map_of(kept@) == map_of(done).remove(key@),
                match taken {
                    Some(value) => map_of(done).dom().contains(key@) && map_of(done)[key@] == value,
                    None => !map_of(done).dom().contains(key@),
                },
            decreases rest.len(),
        {
            let ghost earlier = rest@;
            let ghost kept_before = kept@;
            let entry = rest.remove(0);
            proof {
                let next = done.push(entry);
                assert(next + rest@ =~= before);
                assert(next.drop_last() =~= done);
                assert(kept_before.push(entry).drop_last() =~= kept_before);
            }
            if same_text(entry.0.as_str(), key) {
                if taken.is_none() {
                    taken = Some(entry.1);
                }
                proof {
                    assert(map_of(done.push(entry)).remove(key@) =~= map_of(done).remove(key@));
                    done = done.push(entry);
                }
            } else {
                kept.push(entry);
                proof {
                    assert(map_of(kept@) =~= map_of(done.push(entry)).remove(key@));
                    done = done.push(entry);
                }
            }
        }
        assert(done =~= before);
        self.entries = kept;
        taken
    }
}

/// Setting the first entry of a key, or appending one, sets the key.
proof fn lemma_same_key_sets<V>(
    before: Seq<(String, V)>,
    after: Seq<(String, V)>,
    key: Seq<char>,
    value: V,
    k: Seq<char>,
)
    requires
        ({
            ||| exists|i: int, name: String|
                0 <= i < before.len() && before[i].0@ == key && name@ == key && (forall|j: int|
                    0 <= j < i ==> (#[trigger] before[j]).0@ != key) && after
                    == #[trigger] before.update(i, (name, value))
            ||| exists|name: String|
                name@ == key && after == #[trigger] before.push((name, value)) && !map_of(
                    before,
                ).dom().contains(key)
        }),
    ensures
        map_of(after).dom().contains(k) <==> map_of(before).insert(key, value).dom().contains(k),
        map_of(after).dom().contains(k) ==> map_of(after)[k] == map_of(before).insert(
            key,
            value,
        )[k],
{
    lemma_map_of(before, k);
    lemma_map_of(after, k);
    lemma_map_of(before, key);
    if exists|i: int, name: String|
        0 <= i < before.len() && before[i].0@ == key && name@ == key && (forall|j: int|
            0 <= j < i ==> (#[trigger] before[j]).0@ != key) && after == #[trigger] before.update(
            i,
            (name, value),
        ) {
        let (i, name) = choose|i: int, name: String|
            0 <= i < before.len() && before[i].0@ == key && name@ == key && (forall|j: int|
                0 <= j < i ==> (#[trigger] before[j]).0@ != key) && after
                == #[trigger] before.update(i, (name, value));
        lemma_first_is(before, key, i);
        lemma_first_of(before, k);
        lemma_first_of(after, k);
        if k == key {
            assert(after[i].0@ == k);
            assert forall|j: int| 0 <= j < i implies (#[trigger] after[j]).0@ != k by {
                assert(before[j].0@ != k);
            }
            lemma_first_is(after, k, i);
        } else if first_of(before, k) >= 0 {
            let f = first_of(before, k);
            assert(after[f] == before[f]);
            assert forall|j: int| 0 <= j < f implies (#[trigger] after[j]).0@ != k by {
                assert(before[j].0@ != k);
            }
            lemma_first_is(after, k, f);
        } else if first_of(after, k) >= 0 {
            let f = first_of(after, k);
            assert(before[f].0@ == k);
        }
    } else {
        let name = choose|name: String|
            name@ == key && after == #[trigger] before.push((name, value));
        assert(after.drop_last() =~= before);
    }
}

/// A set of texts.
pub struct TextSet {
    entries: Vec<String>,
}

impl View for TextSet {
    type V = Set<Seq<char>>;

    closed spec fn view(&self) -> Set<Seq<char>> {
        Set::new(
            |k: Seq<char>|
                exists|i: int| 0 <= i < self.entries@.len() && (#[trigger] self.entries@[i])@ == k,
        )
    }
}

/// The bytes of texts, all together.
pub open spec fn texts_bytes(texts: Seq<String>) -> nat
    decreases texts.len(),
{
    if texts.len() == 0 {
        0
    } else {
        texts_bytes(texts.drop_last()) + utf8(texts.last()@).len()
    }
}

/// Fewer texts have no more bytes.
proof fn lemma_texts_bytes_grow(texts: Seq<String>, n: int)
    requires
        0 <= n <= texts.len(),
    ensures
        texts_bytes(texts.take(n)) <= texts_bytes(texts),
    decreases texts.len(),
{
    if n == texts.len() {
        assert(texts.take(n) =~= texts);
    } else {
        assert(texts.drop_last().take(n) =~= texts.take(n));
        lemma_texts_bytes_grow(texts.drop_last(), n);
    }
}

/// The same texts have the same bytes.
proof fn lemma_same_bytes(a: Seq<String>, b: Seq<String>)
    requires
        a.len() == b.len(),
        forall|i: int| 0 <= i < a.len() ==> (#[trigger] a[i])@ == b[i]@,
    ensures
        texts_bytes(a) == texts_bytes(b),
    decreases a.len(),
{
    if a.len() > 0 {
        assert(a[a.len() - 1]@ == b[a.len() - 1]@);
        lemma_same_bytes(a.drop_last(), b.drop_last());
    }
}

impl TextSet {
    /// The bytes of the texts in the set, all together.
    pub closed spec fn byte_size(self) -> nat {
        texts_bytes(self.entries@)
    }

    /// Counts the bytes of the texts in the set; `None` where their number is no
    /// `usize`.
    pub fn byte_count(&self) -> (bytes: Option<usize>)
        ensures
            match bytes {
                Some(bytes) => bytes == self.byte_size(),
                None => self.byte_size() > usize::MAX,
            },
    {
        let mut bytes: usize = 0;
        let mut i: usize = 0;
        while i < self.entries.len()
            invariant
                i <= self.entries.len(),
                bytes == texts_bytes(self.entries@.take(i as int)),
            decreases self.entries.len() - i,
        {
            proof {
                assert(self.entries@.take(i + 1).drop_last() =~= self.entries@.take(i as int));
                lemma_texts_bytes_grow(self.entries@, i + 1);
            }
            bytes = match bytes.checked_add(byte_len(self.entries[i].as_str())) {
                Some(sum) => sum,
                None => return None,
            };
            i = i + 1;
        }
        assert(self.entries@.take(i as int) =~= self.entries@);
        Some(bytes)
    }

    /// An empty set.
    pub fn new() -> (set: Self)
        ensures
            set@ == Set::<Seq<char>>::empty(),
            set.byte_size() == 0,
    {
        let set = TextSet { entries: Vec::new() };
        assert(set@ =~= Set::<Seq<char>>::empty());
        set
    }

    /// A copy of the set.
    pub fn copy(&self) -> (copy: Self)
        ensures
            copy@ == self@,
            copy.byte_size() == self.byte_size(),
    {
        let mut entries: Vec<String> = Vec::new();
        let mut i: usize = 0;
        while i < self.entries.len()
            invariant
                i <= self.entries.len(),
                entries.len() == i,
                forall|j: int| 0 <= j < i ==> (#[trigger] entries@[j])@ == self.entries@[j]@,
            decreases self.entries.len() - i,
        {
            entries.push(self.entries[i].clone());
            i = i + 1;
        }
        proof {
            lemma_same_bytes(entries@, self.entries@);
        }
        let copy = TextSet { entries };
        assert forall|k: Seq<char>| #[trigger] copy@.contains(k) <==> self@.contains(k) by {
            if copy@.contains(k) {
                let j = choose|j: int|
                    0 <= j < copy.entries@.len() && (#[trigger] copy.entries@[j])@ == k;
                assert(self.entries@[j]@ == k);
            }
            if self@.contains(k) {
                let j = choose|j: int|
                    0 <= j < self.entries@.len() && (#[trigger] self.entries@[j])@ == k;
                assert(copy.entries@[j]@ == k);
            }
        }
        assert(copy@ =~= self@);
        copy
    }

    /// Whether `key` is in the set.
    pub fn contains(&self, key: &str) -> (found: bool)
        ensures
            found == self@.contains(key@),
    {
        let mut i: usize = 0;
        while i < self.entries.len()
            invariant
                i <= self.entries.len(),
                forall|j: int| 0 <= j < i ==> (#[trigger] self.entries@[j])@ != key@,
            decreases self.entries.len() - i,
        {
            if same_text(self.entries[i].as_str(), key) {
                return true;
            }
            i = i + 1;
        }
        false
    }

    /// Puts `key` into the set.
    pub fn insert(&mut self, key: &str)
        ensures
            final(self)@ == old(self)@.insert(key@),
            final(self).byte_size() == old(self).byte_size() + (if old(self)@.contains(key@) {
                0
            } else {
                utf8(key@).len()
            }),
    {
        if !self.contains(key) {
            let ghost before = self.entries@;
            self.entries.push(key.to_owned());
            assert(self.entries@.drop_last() =~= before);
            proof {
                assert forall|k: Seq<char>| #[trigger] self@.contains(k) <==> old(self)@.insert(
                    key@,
                ).contains(k) by {
                    if self@.contains(k) {
                        let i = choose|i: int|
                            0 <= i < self.entries@.len() && (#[trigger] self.entries@[i])@ == k;
                        if i < before.len() {
                            assert(before[i] == self.entries@[i]);
                        }
                    }
                    if old(self)@.contains(k) {
                        let i = choose|i: int| 0 <= i < before.len() && (#[trigger] before[i])@ == k;
                        assert(self.entries@[i] == before[i]);
                    }
                    assert(self.entries@[before.len() as int]@ == key@);
                }
            }
        }
        assert(self@ =~= old(self)@.insert(key@));
    }
}

/// The texts of a map.
pub open spec fn texts_of_map(map: Map<Seq<char>, String>) -> Map<Seq<char>, Seq<char>> {
    Map::new(|key: Seq<char>| map.dom().contains(key), |key: Seq<char>| map[key]@)
}

/// The text of the key `key`, where the map has it.
pub open spec fn text_at(map: Map<Seq<char>, Seq<char>>, key: Seq<char>) -> Option<Seq<char>> {
    if map.dom().contains(key) {
        Some(map[key])
    } else {
        None
    }
}

/// The bytes of the texts that a map holds, all together; its keys do not count.
pub open spec fn values_bytes(map: Map<Seq<char>, Seq<char>>) -> nat
    decreases map.dom().len(),
    when map.dom().finite()
{
    if map.dom().len() == 0 {
        0
    } else {
        let key = map.dom().choose();
        utf8(map[key]).len() + values_bytes(map.remove(key))
    }
}

/// The bytes of a map are those of any of its texts and of the others.
proof fn lemma_values_bytes_remove(map: Map<Seq<char>, Seq<char>>, key: Seq<char>)
    requires
        map.dom().finite(),
        map.dom().contains(key),
    ensures
        values_bytes(map) == utf8(map[key]).len() + values_bytes(map.remove(key)),
    decreases map.dom().len(),
{
    let first = map.dom().choose();
    assert(map.dom().contains(first));
    assert(map.remove(first).dom() =~= map.dom().remove(first));
    assert(map.remove(key).dom() =~= map.dom().remove(key));
    if first != key {
        lemma_values_bytes_remove(map.remove(first), key);
        lemma_values_bytes_remove(map.remove(key), first);
        assert(map.remove(first).remove(key) =~= map.remove(key).remove(first));
    }
}

/// One more text adds its bytes.
proof fn lemma_values_bytes_insert(
    map: Map<Seq<char>, Seq<char>>,
    key: Seq<char>,
    value: Seq<char>,
)
    requires
        map.dom().finite(),
        !map.dom().contains(key),
    ensures
        values_bytes(map.insert(key, value)) == values_bytes(map) + utf8(value).len(),
{
    let more = map.insert(key, value);
    assert(more.dom() =~= map.dom().insert(key));
    lemma_values_bytes_remove(more, key);
    assert(more.remove(key) =~= map);
}

/// The texts of entries are finitely many, and more entries have no fewer bytes.
proof fn lemma_entry_bytes(entries: Seq<(String, String)>, n: int)
    requires
        0 <= n <= entries.len(),
    ensures
        texts_of_map(map_of(entries)).dom().finite(),
        values_bytes(texts_of_map(map_of(entries.take(n)))) <= values_bytes(
            texts_of_map(map_of(entries)),
        ),
    decreases entries.len(),
{
    if entries.len() == 0 {
        assert(texts_of_map(map_of(entries)).dom() =~= Set::empty());
        assert(entries.take(n) =~= entries);
    } else {
        let rest = entries.drop_last();
        lemma_entry_step(entries);
        if n == entries.len() {
            lemma_entry_bytes(rest, n - 1);
            assert(entries.take(n) =~= entries);
        } else {
            lemma_entry_bytes(rest, n);
            assert(rest.take(n) =~= entries.take(n));
        }
    }
}

/// What the last entry adds to the texts: itself, where its key is new.
proof fn lemma_entry_step(entries: Seq<(String, String)>)
    requires
        entries.len() > 0,
    ensures
        ({
            let before = texts_of_map(map_of(entries.drop_last()));
            let after = texts_of_map(map_of(entries));
            let (key, value) = entries.last();
            &&& before.dom().contains(key@) == map_of(entries.drop_last()).dom().contains(key@)
            &&& after == if before.dom().contains(key@) {
                before
            } else {
                before.insert(key@, value@)
            }
            &&& before.dom().finite() ==> {
                &&& after.dom().finite()
                &&& values_bytes(after) == values_bytes(before) + if before.dom().contains(key@) {
                    0nat
                } else {
                    utf8(value@).len()
                }
            }
        }),
{
    let before = texts_of_map(map_of(entries.drop_last()));
    let after = texts_of_map(map_of(entries));
    let (key, value) = entries.last();
    if !before.dom().contains(key@) {
        assert(after =~= before.insert(key@, value@));
        assert(before.insert(key@, value@).dom() =~= before.dom().insert(key@));
        if before.dom().finite() {
            lemma_values_bytes_insert(before, key@, value@);
        }
    }
}

/// Entries with the same texts stand for maps of the same texts.
proof fn lemma_same_texts(a: Seq<(String, String)>, b: Seq<(String, String)>)
    requires
        a.len() == b.len(),
        forall|i: int|
            0 <= i < a.len() ==> (#[trigger] a[i]).0@ == b[i].0@ && a[i].1@ == b[i].1@,
    ensures
        texts_of_map(map_of(a)) == texts_of_map(map_of(b)),
    decreases a.len(),
{
    if a.len() > 0 {
        let c = a.drop_last();
        let d = b.drop_last();
        assert forall|i: int| 0 <= i < c.len() implies (#[trigger] c[i]).0@ == d[i].0@ && c[i].1@
            == d[i].1@ by {
            assert(a[i].0@ == b[i].0@ && a[i].1@ == b[i].1@);
        }
        lemma_same_texts(c, d);
        lemma_entry_step(a);
        lemma_entry_step(b);
        assert(a[a.len() - 1].0@ == b[a.len() - 1].0@);
    } else {
        assert(texts_of_map(map_of(a)) =~= texts_of_map(map_of(b)));
    }
}

impl TextMap<String> {
    /// A copy of the map.
    pub fn copy(&self) -> (copy: Self)
        ensures
            texts_of_map(copy@) == texts_of_map(self@),
    {
        let mut entries: Vec<(String, String)> = Vec::new();
        let mut i: usize = 0;
        while i < self.entries.len()
            invariant
                i <= self.entries.len(),
                entries.len() == i,
                forall|j: int|
                    0 <= j < i ==> (#[trigger] entries@[j]).0@ == self.entries@[j].0@
                        && entries@[j].1@ == self.entries@[j].1@,
            decreases self.entries.len() - i,
        {
            entries.push((self.entries[i].0.clone(), self.entries[i].1.clone()));
            i = i + 1;
        }
        proof {
            lemma_same_texts(entries@, self.entries@);
        }
        TextMap { entries }
    }

    /// Counts the bytes of the texts in the map; `None` where their number is no
    /// `usize`.
    pub fn value_bytes(&self) -> (bytes: Option<usize>)
        ensures
            match bytes {
                Some(bytes) => bytes == values_bytes(texts_of_map(self@)),
                None => values_bytes(texts_of_map(self@)) > usize::MAX,
            },
    {
        let ghost all = self.entries@;
        let mut bytes: usize = 0;
        let mut i: usize = 0;
        proof {
            lemma_entry_bytes(all.take(0), 0);
            assert(texts_of_map(map_of(all.take(0))).dom() =~= Set::empty());
        }
        while i < self.entries.len()
            invariant
                all == self.entries@,
                i <= self.entries.len(),
                bytes == values_bytes(texts_of_map(map_of(all.take(i as int)))),
            decreases self.entries.len() - i,
        {
            let ghost front = all.take(i as int);
            let ghost key = all[i as int].0@;
            proof {
                assert(all.take(i + 1).drop_last() =~= front);
                lemma_entry_bytes(front, 0);
                lemma_entry_step(all.take(i + 1));
                lemma_entry_bytes(all, i + 1);
                lemma_first_of(front, key);
                lemma_map_of(front, key);
                lemma_first_of(all, key);
                lemma_map_of(all, key);
            }
            match self.find(self.entries[i].0.as_str()) {
                Some(first) => if first == i {
                    assert(first_of(front, key) < 0) by {
                        if first_of(front, key) >= 0 {
                            assert(all[first_of(front, key)] == front[first_of(front, key)]);
                        }
                    }
                    bytes = match bytes.checked_add(byte_len(self.entries[i].1.as_str())) {
                        Some(sum) => sum,
                        None => return None,
                    };
                } else {
                    assert(first < i);
                    assert(front[first as int] == all[first as int]);
                },
                None => {},
            }
            i = i + 1;
        }
        assert(all.take(i as int) =~= all);
        Some(bytes)
    }

    /// Gives the key `key` the text `value`.
    pub fn put_text(&mut self, key: &str, value: &str)
        ensures
            texts_of_map(final(self)@) == texts_of_map(old(self)@).insert(key@, value@),
    {
        let ghost before = self@;
        self.insert(key, value.to_owned());
        assert(texts_of_map(self@) =~= texts_of_map(before).insert(key@, value@));
    }

    /// The text of the key `key`.
    pub fn text(&self, key: &str) -> (text: Option<&str>)
        ensures
            match text {
                Some(text) => text_at(texts_of_map(self@), key@) == Some(text@),
                None => text_at(texts_of_map(self@), key@) is None,
            },
    {
        match self.get(key) {
            Some(text) => Some(text.as_str()),
            None => None,
        }
    }

    /// Takes the key `key` out.
    pub fn take_text(&mut self, key: &str) -> (taken: Option<String>)
        ensures
            texts_of_map(final(self)@) == texts_of_map(old(self)@).remove(key@),
            match taken {
                Some(text) => text_at(texts_of_map(old(self)@), key@) == Some(text@),
                None => text_at(texts_of_map(old(self)@), key@) is None,
            },
    {
        let ghost before = self@;
        let taken = self.remove(key);
        assert(texts_of_map(self@) =~= texts_of_map(before).remove(key@));
        taken
    }
}

} // verus!
