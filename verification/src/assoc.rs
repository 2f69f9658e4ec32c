//! Lists of named entries, read by name.
use crate::text::same;
use vstd::prelude::*;

verus! {

/// The names of a list of entries.
pub open spec fn keys<V>(entries: Seq<(Seq<char>, V)>) -> Seq<Seq<char>> {
    entries.map_values(|e: (Seq<char>, V)| e.0)
}

/// The place of the first entry called `key`, or the length of the list.
pub open spec fn place<V>(entries: Seq<(Seq<char>, V)>, key: Seq<char>) -> int
    decreases entries.len(),
{
    if entries.len() == 0 {
        0
    } else if entries[0].0 == key {
        0
    } else {
        1 + place(entries.drop_first(), key)
    }
}

/// The value of the first entry called `key`.
pub open spec fn lookup<V>(entries: Seq<(Seq<char>, V)>, key: Seq<char>) -> Option<V> {
    if place(entries, key) < entries.len() {
        Some(entries[place(entries, key)].1)
    } else {
        None
    }
}

/// The list with the value of `key` set to `value`: in place, or at the end where there was none.
pub open spec fn put<V>(entries: Seq<(Seq<char>, V)>, key: Seq<char>, value: V) -> Seq<
    (Seq<char>, V),
> {
    if place(entries, key) < entries.len() {
        entries.update(place(entries, key), (key, value))
    } else {
        entries.push((key, value))
    }
}

/// The list without its first entry called `key`.
pub open spec fn without<V>(entries: Seq<(Seq<char>, V)>, key: Seq<char>) -> Seq<(Seq<char>, V)> {
    if place(entries, key) < entries.len() {
        entries.remove(place(entries, key))
    } else {
        entries
    }
}

/// No two entries have one name.
pub open spec fn distinct<V>(entries: Seq<(Seq<char>, V)>) -> bool {
    forall|i: int, j: int| 0 <= i < j < entries.len() ==> entries[i].0 != entries[j].0
}

/// Where the first entry called `key` stands.
pub proof fn lemma_place<V>(entries: Seq<(Seq<char>, V)>, key: Seq<char>)
    ensures
        0 <= place(entries, key) <= entries.len(),
        place(entries, key) < entries.len() ==> entries[place(entries, key)].0 == key,
        forall|j: int| 0 <= j < place(entries, key) ==> (#[trigger] entries[j]).0 != key,
    decreases entries.len(),
{
    if entries.len() != 0 && entries[0].0 != key {
        let rest = entries.drop_first();
        lemma_place(rest, key);
        assert forall|j: int| 0 <= j < place(entries, key) implies (#[trigger] entries[j]).0
            != key by {
            if j > 0 {
                assert(rest[j - 1] == entries[j]);
            }
        }
    }
}

/// A place with the name, and none before it, is the place.
pub proof fn lemma_place_is<V>(entries: Seq<(Seq<char>, V)>, key: Seq<char>, i: int)
    requires
        0 <= i <= entries.len(),
        i < entries.len() ==> entries[i].0 == key,
        forall|j: int| 0 <= j < i ==> (#[trigger] entries[j]).0 != key,
    ensures
        place(entries, key) == i,
{
    lemma_place(entries, key);
    let p = place(entries, key);
    if p < i {
        assert(entries[p].0 != key);
    }
    if p > i {
        assert(entries[i].0 != key);
    }
}

/// What was put under a name is found there, and nothing else changes.
pub proof fn put_then_lookup<V>(
    entries: Seq<(Seq<char>, V)>,
    key: Seq<char>,
    value: V,
    other: Seq<char>,
)
    ensures
        lookup(put(entries, key, value), other) == (if other == key {
            Some(value)
        } else {
            lookup(entries, other)
        }),
        distinct(entries) ==> distinct(put(entries, key, value)),
{
    lemma_place(entries, key);
    lemma_place(entries, other);
    let after = put(entries, key, value);
    let p = place(entries, key);
    if other == key {
        lemma_place_is(after, key, p);
    } else {
        let q = place(entries, other);
        if q < entries.len() || p < entries.len() {
            lemma_place_is(after, other, q);
        } else {
            lemma_place_is(after, other, after.len() as int);
        }
    }
}

/// What was taken out under a name is not found any more, and nothing else changes.
pub proof fn without_then_lookup<V>(
    entries: Seq<(Seq<char>, V)>,
    key: Seq<char>,
    other: Seq<char>,
)
    requires
        distinct(entries),
    ensures
        lookup(without(entries, key), other) == (if other == key {
            None
        } else {
            lookup(entries, other)
        }),
        distinct(without(entries, key)),
{
    lemma_place(entries, key);
    lemma_place(entries, other);
    let after = without(entries, key);
    let p = place(entries, key);
    if p < entries.len() {
        assert forall|j: int| 0 <= j < after.len() implies after[j] == (if j < p {
            entries[j]
        } else {
            entries[j + 1]
        }) by {}
        if other == key {
            assert forall|j: int| 0 <= j < after.len() implies (#[trigger] after[j]).0 != key by {
                if j >= p {
                    assert(entries[p].0 != entries[j + 1].0);
                }
            }
            lemma_place_is(after, other, after.len() as int);
        } else {
            let q = place(entries, other);
            let r = if q > p {
                q - 1
            } else {
                q
            };
            assert forall|j: int| 0 <= j < r implies (#[trigger] after[j]).0 != other by {
                if j < p {
                    assert(entries[j].0 != other);
                } else {
                    assert(entries[j + 1].0 != other);
                }
            }
            lemma_place_is(after, other, r);
        }
    }
}

/// The place of the first entry called `key`, or the length of the list.
pub fn place_of<V>(entries: &Vec<(String, V)>, key: &str) -> (r: usize)
    ensures
        r <= entries@.len(),
        r < entries@.len() ==> entries@[r as int].0@ == key@,
        forall|j: int| 0 <= j < r ==> (#[trigger] entries@[j]).0@ != key@,
{
    let mut i: usize = 0;
    while i < entries.len()
        invariant
            i <= entries@.len(),
            forall|j: int| 0 <= j < i ==> (#[trigger] entries@[j]).0@ != key@,
        decreases entries@.len() - i,
    {
        if same(entries[i].0.as_str(), key) {
            return i;
        }
        i += 1;
    }
    i
}

/// An entry is found under its name, where no entry before it has that name; under a name that no
/// entry has, nothing is found.
pub proof fn entries_are_found_by_name<V>(entries: Seq<(Seq<char>, V)>, key: Seq<char>, i: int)
    requires
        0 <= i <= entries.len(),
        i < entries.len() ==> entries[i].0 == key,
        forall|j: int| 0 <= j < i ==> (#[trigger] entries[j]).0 != key,
    ensures
        i < entries.len() ==> lookup(entries, key) == Some(entries[i].1),
        i == entries.len() ==> lookup(entries, key) is None,
{
    lemma_place_is(entries, key, i);
}

/// Putting a value under a name moves no entry: it takes the place of the entry with that name, or
/// comes last. Taking one out leaves the others in their order.
pub proof fn entries_keep_their_places<V>(
    entries: Seq<(Seq<char>, V)>,
    key: Seq<char>,
    value: V,
    i: int,
)
    requires
        0 <= i <= entries.len(),
        i < entries.len() ==> entries[i].0 == key,
        forall|j: int| 0 <= j < i ==> (#[trigger] entries[j]).0 != key,
    ensures
        i < entries.len() ==> put(entries, key, value) == entries.update(i, (key, value)),
        i == entries.len() ==> put(entries, key, value) == entries.push((key, value)),
        i < entries.len() ==> without(entries, key) == entries.take(i) + entries.skip(i + 1),
        i == entries.len() ==> without(entries, key) == entries,
{
    lemma_place_is(entries, key, i);
    if i < entries.len() {
        assert(entries.remove(i) =~= entries.take(i) + entries.skip(i + 1));
    }
}

/// A list all of whose elements are wanted stays as it is.
pub proof fn lemma_filter_all<A>(s: Seq<A>, pred: spec_fn(A) -> bool)
    requires
        forall|k: int| 0 <= k < s.len() ==> pred(#[trigger] s[k]),
    ensures
        s.filter(pred) == s,
    decreases s.len(),
{
    reveal(Seq::filter);
    if s.len() > 0 {
        let front = s.drop_last();
        assert forall|k: int| 0 <= k < front.len() implies pred(#[trigger] front[k]) by {
            assert(front[k] == s[k]);
        }
        lemma_filter_all(front, pred);
        assert(pred(s[s.len() - 1]));
        assert(s =~= front.push(s.last()));
    }
}

/// Nothing is left of a list none of whose elements is wanted.
pub proof fn lemma_filter_none<A>(s: Seq<A>, pred: spec_fn(A) -> bool)
    requires
        forall|k: int| 0 <= k < s.len() ==> !pred(#[trigger] s[k]),
    ensures
        s.filter(pred) == Seq::<A>::empty(),
    decreases s.len(),
{
    reveal(Seq::filter);
    if s.len() > 0 {
        let front = s.drop_last();
        assert forall|k: int| 0 <= k < front.len() implies !pred(#[trigger] front[k]) by {
            assert(front[k] == s[k]);
        }
        lemma_filter_none(front, pred);
        assert(!pred(s[s.len() - 1]));
    }
}

} // verus!
