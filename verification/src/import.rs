//! Importing a text with one resource or a list of them.
use crate::errors::{AtomicError, AtomicResult, ErrorView};
use crate::json::{Json, JsonValue};
use crate::parse::{ParseOpts, Schema, Stop, StopView, check_valid_url, parse_json_ad_map_to_resource};
use crate::text::{cat2, same};
use crate::urls;
use crate::values::{Resource, ResourceView};
use vstd::prelude::*;

verus! {

broadcast use {crate::json::lemma_view_containers, Seq::lemma_filter_push};

/// Whether a document describes a property.
pub open spec fn is_property(object: Json) -> bool {
    match object {
        Json::Object(members) => match crate::assoc::lookup(members, urls::IS_A@) {
            Some(Json::Array(classes)) => classes.contains(Json::Text(urls::PROPERTY@)),
            _ => false,
        },
        _ => false,
    }
}

/// Whether a document describes a property.
pub fn object_is_property(object: &JsonValue) -> (r: bool)
    ensures
        r == is_property(object@),
{
    if let JsonValue::Object(members) = object {
        if let Some(JsonValue::Array(classes)) = crate::json::get_member(members, urls::IS_A) {
            let ghost all = crate::json::items_view(classes@);
            let mut i: usize = 0;
            while i < classes.len()
                invariant
                    i <= classes@.len(),
                    all == crate::json::items_view(classes@),
                    is_property(object@) == all.contains(Json::Text(urls::PROPERTY@)),
                    forall|j: int| 0 <= j < i ==> all[j] != Json::Text(urls::PROPERTY@),
                decreases classes@.len() - i,
            {
                assert(all[i as int] == classes@[i as int]@);
                if let JsonValue::Text(class) = &classes[i] {
                    if same(class.as_str(), urls::PROPERTY) {
                        return true;
                    }
                }
                i += 1;
            }
        }
    }
    false
}

/// The local id by which a document names its parent.
pub open spec fn local_parent(value: Json) -> Option<Seq<char>> {
    match value {
        Json::Object(members) => match crate::assoc::lookup(members, urls::PARENT@) {
            Some(Json::Text(parent)) => if crate::parse::valid_url(parent) {
                None
            } else {
                Some(parent)
            },
            _ => None,
        },
        _ => None,
    }
}

/// The local id by which a document names its parent.
pub fn get_parent_to_pull(value: &JsonValue) -> (r: Option<String>)
    ensures
        crate::text::opt(r) == local_parent(value@),
{
    if let JsonValue::Object(members) = value {
        if let Some(JsonValue::Text(parent)) = crate::json::get_member(members, urls::PARENT) {
            if check_valid_url(parent.as_str()).is_err() {
                return Some(parent.clone());
            }
        }
    }
    None
}

/// Whether a document has this local id.
pub open spec fn has_local_id(value: Json, local_id: Seq<char>) -> bool {
    match value {
        Json::Object(members) => crate::assoc::lookup(members, urls::LOCAL_ID@) == Some(
            Json::Text(local_id),
        ),
        _ => false,
    }
}

/// The first element of a list that has this local id.
pub open spec fn with_local_id(array: Seq<Json>, local_id: Seq<char>) -> Option<Json>
    decreases array.len(),
{
    if array.len() == 0 {
        None
    } else if has_local_id(array[0], local_id) {
        Some(array[0])
    } else {
        with_local_id(array.drop_first(), local_id)
    }
}

/// What a document that may be missing says.
pub open spec fn opt_json(value: Option<JsonValue>) -> Option<Json> {
    match value {
        Some(v) => Some(v@),
        None => None,
    }
}

/// The first element of a list that has this local id.
pub fn find_parent_in_array(parent_subject: &str, array: &Vec<JsonValue>) -> (r: Option<JsonValue>)
    ensures
        opt_json(r) == with_local_id(crate::json::items_view(array@), parent_subject@),
{
    let ghost all = crate::json::items_view(array@);
    let mut i: usize = 0;
    assert(all.skip(0) =~= all);
    while i < array.len()
        invariant
            i <= array@.len(),
            all == crate::json::items_view(array@),
            with_local_id(all, parent_subject@) == with_local_id(
                all.skip(i as int),
                parent_subject@,
            ),
        decreases array@.len() - i,
    {
        assert(all.skip(i as int)[0] == array@[i as int]@);
        assert(all.skip(i as int).drop_first() =~= all.skip(i + 1));
        if let JsonValue::Object(members) = &array[i] {
            if let Some(JsonValue::Text(id)) = crate::json::get_member(members, urls::LOCAL_ID) {
                if same(id.as_str(), parent_subject) {
                    return Some(array[i].copy());
                }
            }
        }
        i += 1;
    }
    None
}

/// The element of a list that has to come before this one: the parent of a property.
pub open spec fn parent_to_pull(value: Json, array: Seq<Json>) -> Option<Json> {
    if is_property(value) {
        match local_parent(value) {
            Some(parent) => with_local_id(array, parent),
            None => None,
        }
    } else {
        None
    }
}

/// Whether a list has an element that is the same document.
pub open spec fn includes_same(list: Seq<Json>, value: Json) -> bool {
    exists|i: int| 0 <= i < list.len() && crate::json::same_json(#[trigger] list[i], value)
}

/// The place of the first element that is the same document, or the length of the list.
pub open spec fn same_at(list: Seq<Json>, value: Json) -> nat
    decreases list.len(),
{
    if list.len() == 0 || crate::json::same_json(list[0], value) {
        0
    } else {
        1 + same_at(list.drop_first(), value)
    }
}

proof fn lemma_same_at_is(list: Seq<Json>, value: Json, k: int)
    requires
        0 <= k <= list.len(),
        forall|j: int| 0 <= j < k ==> !crate::json::same_json(#[trigger] list[j], value),
        k < list.len() ==> crate::json::same_json(list[k], value),
    ensures
        same_at(list, value) == k,
    decreases list.len(),
{
    if k > 0 {
        let rest = list.drop_first();
        assert(!crate::json::same_json(list[0], value));
        assert forall|j: int| 0 <= j < k - 1 implies !crate::json::same_json(
            #[trigger] rest[j],
            value,
        ) by {
            assert(!crate::json::same_json(list[j + 1], value));
        }
        lemma_same_at_is(rest, value, k - 1);
    }
}

proof fn lemma_same_at(list: Seq<Json>, value: Json)
    ensures
        same_at(list, value) <= list.len(),
        same_at(list, value) < list.len() ==> crate::json::same_json(
            list[same_at(list, value) as int],
            value,
        ),
        same_at(list, value) < list.len() <==> includes_same(list, value),
    decreases list.len(),
{
    if list.len() > 0 {
        if crate::json::same_json(list[0], value) {
            assert(includes_same(list, value));
        } else {
            let rest = list.drop_first();
            lemma_same_at(rest, value);
            if includes_same(rest, value) {
                let j = choose|j: int|
                    0 <= j < rest.len() && crate::json::same_json(#[trigger] rest[j], value);
                assert(crate::json::same_json(list[j + 1], value));
            }
            if includes_same(list, value) {
                let j = choose|j: int|
                    0 <= j < list.len() && crate::json::same_json(#[trigger] list[j], value);
                assert(crate::json::same_json(rest[j - 1], value));
            }
        }
    }
}

/// A list with an element at its front. One that is in the list already is moved.
pub open spec fn moved_to_front(list: Seq<Json>, value: Json) -> Seq<Json> {
    let k = same_at(list, value);
    if k < list.len() {
        seq![list[k as int]] + list.remove(k as int)
    } else {
        seq![value] + list
    }
}

/// A list with the parent of an element moved to its front, then the parent of that, and so on, at
/// most `steps` of them.
pub open spec fn with_parents(list: Seq<Json>, value: Json, array: Seq<Json>, steps: nat) -> Seq<
    Json,
>
    decreases steps,
{
    if steps == 0 {
        list
    } else {
        match parent_to_pull(value, array) {
            Some(parent) => with_parents(
                moved_to_front(list, parent),
                parent,
                array,
                (steps - 1) as nat,
            ),
            None => list,
        }
    }
}

/// What one element does to a list in which parents stand in front.
pub open spec fn pull_step(list: Seq<Json>, value: Json, array: Seq<Json>) -> Seq<Json> {
    let pulled = with_parents(list, value, array, array.len());
    if includes_same(pulled, value) {
        pulled
    } else {
        pulled.push(value)
    }
}

/// The first `n` elements of a list with the parents of properties moved to the front. An element
/// that is there already is left out.
pub open spec fn pulled(array: Seq<Json>, n: nat) -> Seq<Json>
    decreases n,
{
    if n == 0 || n > array.len() {
        Seq::empty()
    } else {
        pull_step(pulled(array, (n - 1) as nat), array[n - 1], array)
    }
}

/// Finds an element that is the same document.
fn find_same(list: &Vec<JsonValue>, value: &JsonValue) -> (r: usize)
    ensures
        r == same_at(crate::json::items_view(list@), value@),
        r <= list@.len(),
{
    let ghost all = crate::json::items_view(list@);
    let mut i: usize = 0;
    while i < list.len()
        invariant
            i <= list@.len(),
            all == crate::json::items_view(list@),
            forall|j: int|
                0 <= j < i ==> !crate::json::same_json(#[trigger] all[j], value@),
        decreases list@.len() - i,
    {
        assert(all[i as int] == list@[i as int]@);
        if list[i].same(value) {
            proof {
                lemma_same_at_is(all, value@, i as int);
            }
            return i;
        }
        i += 1;
    }
    proof {
        lemma_same_at_is(all, value@, i as int);
    }
    i
}

/// Puts an element at the front of a list.
fn move_to_front(list: &mut Vec<JsonValue>, value: JsonValue)
    ensures
        crate::json::items_view(final(list)@) == moved_to_front(
            crate::json::items_view(old(list)@),
            value@,
        ),
{
    let ghost before = crate::json::items_view(list@);
    let k = find_same(list, &value);
    if k < list.len() {
        assert(before[k as int] == list@[k as int]@);
        let found = list.remove(k);
        list.insert(0, found);
        assert(crate::json::items_view(list@) =~= seq![before[k as int]] + before.remove(k as int));
    } else {
        list.insert(0, value);
        assert(crate::json::items_view(list@) =~= seq![value@] + before);
    }
}

/// Moves the parents of an element to the front of a list.
fn pull_parents(list: &mut Vec<JsonValue>, value: &JsonValue, array: &Vec<JsonValue>, steps: usize)
    ensures
        crate::json::items_view(final(list)@) == with_parents(
            crate::json::items_view(old(list)@),
            value@,
            crate::json::items_view(array@),
            steps as nat,
        ),
    decreases steps,
{
    if steps > 0 && object_is_property(value) {
        if let Some(parent_subject) = get_parent_to_pull(value) {
            if let Some(parent) = find_parent_in_array(parent_subject.as_str(), array) {
                let next = parent.copy();
                move_to_front(list, parent);
                pull_parents(list, &next, array, steps - 1);
            }
        }
    }
}

/// Moves the parents of properties to the front of a list, where they are in it.
pub fn pull_parents_of_props_to_front(array: &Vec<JsonValue>) -> (r: Vec<JsonValue>)
    ensures
        crate::json::items_view(r@) == pulled(crate::json::items_view(array@), array@.len()),
{
    let mut list: Vec<JsonValue> = Vec::new();
    let ghost all = crate::json::items_view(array@);
    assert(crate::json::items_view(list@) =~= Seq::empty());
    let n: usize = array.len();
    let mut i: usize = 0;
    while i < n
        invariant
            i <= n == array@.len(),
            all == crate::json::items_view(array@),
            crate::json::items_view(list@) == pulled(all, i as nat),
        decreases n - i,
    {
        let value = &array[i];
        assert(all[i as int] == value@);
        pull_parents(&mut list, value, array, n);
        let ghost middle = crate::json::items_view(list@);
        proof {
            lemma_same_at(middle, value@);
        }
        if find_same(&list, value) == list.len() {
            list.push(value.copy());
            assert(crate::json::items_view(list@) =~= middle.push(value@));
        }
        i += 1;
    }
    list
}

/// A list with the properties moved to the front. Otherwise the order stays.
pub open spec fn properties_first(array: Seq<Json>) -> Seq<Json> {
    array.filter(|v: Json| is_property(v)) + array.filter(|v: Json| !is_property(v))
}

/// The elements of a list that are properties, or those that are not.
fn select(array: &Vec<JsonValue>, properties: bool) -> (r: Vec<JsonValue>)
    ensures
        crate::json::items_view(r@) == crate::json::items_view(array@).filter(
            |v: Json| is_property(v) == properties,
        ),
{
    let mut list: Vec<JsonValue> = Vec::new();
    let ghost all = crate::json::items_view(array@);
    let ghost wanted = |v: Json| is_property(v) == properties;
    let mut i: usize = 0;
    proof {
        reveal(Seq::filter);
        assert(all.take(0).filter(wanted) =~= crate::json::items_view(list@));
    }
    while i < array.len()
        invariant
            i <= array@.len(),
            all == crate::json::items_view(array@),
            wanted == (|v: Json| is_property(v) == properties),
            crate::json::items_view(list@) == all.take(i as int).filter(wanted),
        decreases array@.len() - i,
    {
        let ghost before = crate::json::items_view(list@);
        assert(all[i as int] == array@[i as int]@);
        assert(all.take(i + 1) =~= all.take(i as int).push(all[i as int]));
        if object_is_property(&array[i]) == properties {
            list.push(array[i].copy());
            assert(crate::json::items_view(list@) =~= before.push(all[i as int]));
        }
        i += 1;
    }
    assert(all.take(array@.len() as int) =~= all);
    list
}

/// Moves the properties of a list to the front, because other elements might use them.
pub fn sort_properties_first(array: &Vec<JsonValue>) -> (r: Vec<JsonValue>)
    ensures
        crate::json::items_view(r@) == properties_first(crate::json::items_view(array@)),
{
    let mut list = select(array, true);
    let mut rest = select(array, false);
    let ghost all = crate::json::items_view(array@);
    let ghost front = crate::json::items_view(list@);
    let ghost back = crate::json::items_view(rest@);
    list.append(&mut rest);
    proof {
        assert((|v: Json| is_property(v) == true) =~= (|v: Json| is_property(v)));
        assert((|v: Json| is_property(v) == false) =~= (|v: Json| !is_property(v)));
        assert(crate::json::items_view(list@) =~= front + back);
    }
    list
}

/// Moving the properties to the front leaves no property behind another element, and keeps every
/// element as often as it occurs.
pub proof fn properties_come_first(array: Seq<Json>, i: int, j: int)
    ensures
        0 <= i < j < properties_first(array).len() && is_property(properties_first(array)[j])
            ==> is_property(properties_first(array)[i]),
        properties_first(array).to_multiset() == array.to_multiset(),
{
    let front = array.filter(|v: Json| is_property(v));
    let back = array.filter(|v: Json| !is_property(v));
    broadcast use vstd::seq_lib::group_filter_ensures;

    if 0 <= i < j < properties_first(array).len() && is_property(properties_first(array)[j]) {
        if j >= front.len() {
            assert(properties_first(array)[j] == back[j - front.len()]);
        }
        assert(properties_first(array)[i] == front[i]);
    }
    lemma_partition(array);
}

proof fn lemma_partition(array: Seq<Json>)
    ensures
        properties_first(array).to_multiset() == array.to_multiset(),
    decreases array.len(),
{
    reveal(Seq::filter);
    let front = array.filter(|v: Json| is_property(v));
    let back = array.filter(|v: Json| !is_property(v));
    broadcast use vstd::seq_lib::group_to_multiset_ensures;

    vstd::seq_lib::lemma_multiset_commutative(front, back);
    if array.len() > 0 {
        let rest = array.drop_last();
        lemma_partition(rest);
        let rest_front = rest.filter(|v: Json| is_property(v));
        let rest_back = rest.filter(|v: Json| !is_property(v));
        vstd::seq_lib::lemma_multiset_commutative(rest_front, rest_back);
        assert(array =~= rest.push(array.last()));
        assert(array.to_multiset() =~= rest.to_multiset().insert(array.last()));
        if is_property(array.last()) {
            assert(front =~= rest_front.push(array.last()));
            assert(back =~= rest_back);
        } else {
            assert(front =~= rest_front);
            assert(back =~= rest_back.push(array.last()));
        }
        assert(properties_first(array).to_multiset() =~= array.to_multiset());
    } else {
        assert(properties_first(array) =~= array);
    }
}

proof fn lemma_with_local_id(array: Seq<Json>, local_id: Seq<char>)
    ensures
        with_local_id(array, local_id) matches Some(v) ==> array.contains(v) && has_local_id(
            v,
            local_id,
        ),
    decreases array.len(),
{
    if array.len() > 0 {
        lemma_with_local_id(array.drop_first(), local_id);
        if !has_local_id(array[0], local_id) && with_local_id(array, local_id) is Some {
            let v = with_local_id(array, local_id)->0;
            let k = array.drop_first().index_of(v);
            assert(array[k + 1] == v);
        } else if has_local_id(array[0], local_id) {
            assert(array.contains(array[0]));
        }
    }
}

proof fn lemma_parent_is_listed(value: Json, array: Seq<Json>)
    ensures
        parent_to_pull(value, array) matches Some(parent) ==> array.contains(parent),
{
    if is_property(value) && local_parent(value) is Some {
        lemma_with_local_id(array, local_parent(value)->0);
    }
}

proof fn lemma_moving_keeps(list: Seq<Json>, value: Json, other: Json)
    requires
        includes_same(list, other),
    ensures
        includes_same(moved_to_front(list, value), other),
{
    lemma_same_at(list, value);
    let after = moved_to_front(list, value);
    let k = same_at(list, value) as int;
    let j = choose|j: int| 0 <= j < list.len() && crate::json::same_json(#[trigger] list[j], other);
    if k < list.len() {
        if j == k {
            assert(after[0] == list[j]);
        } else if j < k {
            assert(after[j + 1] == list[j]);
        } else {
            assert(after[j] == list[j]);
        }
    } else {
        assert(after[j + 1] == list[j]);
    }
}

proof fn lemma_parents_keep(
    list: Seq<Json>,
    value: Json,
    array: Seq<Json>,
    steps: nat,
    other: Json,
)
    requires
        includes_same(list, other),
    ensures
        includes_same(with_parents(list, value, array, steps), other),
    decreases steps,
{
    if steps > 0 && parent_to_pull(value, array) is Some {
        let parent = parent_to_pull(value, array)->0;
        lemma_moving_keeps(list, parent, other);
        lemma_parents_keep(
            moved_to_front(list, parent),
            parent,
            array,
            (steps - 1) as nat,
            other,
        );
    }
}

/// Moving parents to the front keeps every element of the list: it, or the same document, is in
/// the result.
pub proof fn pulling_keeps_every_element(array: Seq<Json>, n: nat, i: int)
    requires
        0 <= i < n <= array.len(),
    ensures
        includes_same(pulled(array, n), array[i]),
    decreases n,
{
    let before = pulled(array, (n - 1) as nat);
    let value = array[n - 1];
    let middle = with_parents(before, value, array, array.len());
    let after = pulled(array, n);
    if i < n - 1 {
        pulling_keeps_every_element(array, (n - 1) as nat, i);
        lemma_parents_keep(before, value, array, array.len(), array[i]);
        let k = choose|k: int|
            0 <= k < middle.len() && crate::json::same_json(#[trigger] middle[k], array[i]);
        assert(after[k] == middle[k]);
    } else if !includes_same(middle, value) {
        crate::json::same_json_reflexive(value);
        assert(after[middle.len() as int] == value);
    }
}

/// Whether all elements of a list are elements of another one.
pub open spec fn drawn_from(list: Seq<Json>, array: Seq<Json>) -> bool {
    forall|k: int| 0 <= k < list.len() ==> array.contains(#[trigger] list[k])
}

proof fn lemma_moving_draws(list: Seq<Json>, value: Json, array: Seq<Json>)
    requires
        drawn_from(list, array),
        array.contains(value),
    ensures
        drawn_from(moved_to_front(list, value), array),
{
    lemma_same_at(list, value);
    let after = moved_to_front(list, value);
    let k = same_at(list, value) as int;
    assert forall|j: int| 0 <= j < after.len() implies array.contains(#[trigger] after[j]) by {
        if k < list.len() {
            if j == 0 {
                assert(after[j] == list[k]);
            } else if j <= k {
                assert(after[j] == list[j - 1]);
            } else {
                assert(after[j] == list[j]);
            }
        } else if j > 0 {
            assert(after[j] == list[j - 1]);
        }
    }
}

proof fn lemma_parents_draw(list: Seq<Json>, value: Json, array: Seq<Json>, steps: nat)
    requires
        drawn_from(list, array),
    ensures
        drawn_from(with_parents(list, value, array, steps), array),
    decreases steps,
{
    if steps > 0 && parent_to_pull(value, array) is Some {
        let parent = parent_to_pull(value, array)->0;
        lemma_parent_is_listed(value, array);
        lemma_moving_draws(list, parent, array);
        lemma_parents_draw(moved_to_front(list, parent), parent, array, (steps - 1) as nat);
    }
}

/// Moving parents to the front adds no element that the list does not have.
pub proof fn pulling_adds_nothing(array: Seq<Json>, n: nat)
    ensures
        drawn_from(pulled(array, n), array),
    decreases n,
{
    if 0 < n <= array.len() {
        let before = pulled(array, (n - 1) as nat);
        pulling_adds_nothing(array, (n - 1) as nat);
        lemma_parents_draw(before, array[n - 1], array, array.len());
        assert(array.contains(array[n - 1]));
    }
}

/// Whether no two elements of a list are the same document.
pub open spec fn all_different(array: Seq<Json>) -> bool {
    forall|i: int, j: int|
        0 <= i < array.len() && 0 <= j < array.len() && i != j ==> !crate::json::same_json(
            #[trigger] array[i],
            #[trigger] array[j],
        )
}

proof fn lemma_different(array: Seq<Json>, a: Json, b: Json)
    requires
        all_different(array),
        array.contains(a),
        array.contains(b),
    ensures
        crate::json::same_json(a, b) <==> a == b,
{
    crate::json::same_json_reflexive(a);
    let i = array.index_of(a);
    let j = array.index_of(b);
    assert(array[i] == a && array[j] == b);
}

/// In a list of different elements, the place of an element of it.
proof fn lemma_different_at(list: Seq<Json>, value: Json, array: Seq<Json>)
    requires
        all_different(array),
        drawn_from(list, array),
        array.contains(value),
    ensures
        same_at(list, value) <= list.len(),
        same_at(list, value) < list.len() ==> list[same_at(list, value) as int] == value,
        same_at(list, value) < list.len() <==> list.contains(value),
        includes_same(list, value) <==> list.contains(value),
{
    lemma_same_at(list, value);
    if same_at(list, value) < list.len() {
        lemma_different(array, list[same_at(list, value) as int], value);
    }
    if list.contains(value) {
        crate::json::same_json_reflexive(value);
        assert(crate::json::same_json(list[list.index_of(value)], value));
    }
}

proof fn lemma_moving_is_unique(list: Seq<Json>, value: Json, array: Seq<Json>)
    requires
        all_different(array),
        drawn_from(list, array),
        array.contains(value),
        list.no_duplicates(),
    ensures
        moved_to_front(list, value).no_duplicates(),
        moved_to_front(list, value)[0] == value,
        moved_to_front(list, value).len() > 0,
{
    lemma_different_at(list, value, array);
    let after = moved_to_front(list, value);
    let k = same_at(list, value) as int;
    assert forall|i: int, j: int|
        0 <= i < after.len() && 0 <= j < after.len() && i != j implies after[i] != after[j] by {
        if k < list.len() {
            let a = if i == 0 {
                k
            } else if i <= k {
                i - 1
            } else {
                i
            };
            let b = if j == 0 {
                k
            } else if j <= k {
                j - 1
            } else {
                j
            };
            assert(after[i] == list[a] && after[j] == list[b]);
        } else {
            if i > 0 {
                assert(after[i] == list[i - 1]);
            }
            if j > 0 {
                assert(after[j] == list[j - 1]);
            }
        }
    }
}

/// The document that is `k` parents above another one.
pub open spec fn above(value: Json, array: Seq<Json>, k: nat) -> Option<Json>
    decreases k,
{
    if k == 0 {
        Some(value)
    } else {
        match above(value, array, (k - 1) as nat) {
            Some(lower) => parent_to_pull(lower, array),
            None => None,
        }
    }
}

/// Whether a document is above itself.
pub open spec fn above_itself(value: Json, array: Seq<Json>) -> bool {
    exists|k: nat| k > 0 && #[trigger] above(value, array, k) == Some(value)
}

proof fn lemma_above_parent(value: Json, array: Seq<Json>, k: nat)
    requires
        parent_to_pull(value, array) is Some,
    ensures
        above(parent_to_pull(value, array)->0, array, k) == above(value, array, k + 1),
    decreases k,
{
    if k > 0 {
        lemma_above_parent(value, array, (k - 1) as nat);
    } else {
        reveal_with_fuel(above, 2);
    }
}

proof fn lemma_loops_go_on(value: Json, array: Seq<Json>)
    requires
        above_itself(value, array),
        parent_to_pull(value, array) is Some,
    ensures
        above_itself(parent_to_pull(value, array)->0, array),
{
    let parent = parent_to_pull(value, array)->0;
    let k = choose|k: nat| k > 0 && #[trigger] above(value, array, k) == Some(value);
    lemma_above_parent(value, array, k);
    assert(above(parent, array, k) == Some(parent));
}

/// Whether the parent of an element stands before it in a list, where the element is in it.
pub open spec fn below_parent(list: Seq<Json>, value: Json, array: Seq<Json>) -> bool {
    parent_to_pull(value, array) matches Some(parent) ==> forall|b: int|
        0 <= b < list.len() && #[trigger] list[b] == value ==> stands_before(list, parent, b)
}

/// Whether an element stands before a place of a list.
pub open spec fn stands_before(list: Seq<Json>, value: Json, b: int) -> bool {
    exists|a: int| 0 <= a < b && #[trigger] list[a] == value
}

/// Whether all elements of a list stand after their parents, but for `left_out` and those that are
/// above themselves.
pub open spec fn in_order(list: Seq<Json>, array: Seq<Json>, left_out: Option<Json>) -> bool {
    forall|value: Json|
        !above_itself(value, array) && Some(value) != left_out ==> #[trigger] below_parent(
            list,
            value,
            array,
        )
}

/// Moving the parent of the element that is left out to the front leaves out the parent.
proof fn lemma_moving_in_order(
    list: Seq<Json>,
    array: Seq<Json>,
    left_out: Option<Json>,
    parent: Json,
)
    requires
        all_different(array),
        drawn_from(list, array),
        list.no_duplicates(),
        array.contains(parent),
        in_order(list, array, left_out),
        left_out matches Some(value) ==> parent_to_pull(value, array) == Some(parent),
    ensures
        in_order(moved_to_front(list, parent), array, Some(parent)),
{
    lemma_different_at(list, parent, array);
    let after = moved_to_front(list, parent);
    let k = same_at(list, parent) as int;
    assert forall|value: Json|
        !above_itself(value, array) && Some(value) != Some(parent) implies #[trigger] below_parent(
        after,
        value,
        array,
    ) by {
        if parent_to_pull(value, array) is Some {
            let own = parent_to_pull(value, array)->0;
            assert forall|b: int| 0 <= b < after.len() && #[trigger] after[b] == value implies
                stands_before(after, own, b) by {
                assert(after[0] == parent);
                assert(b > 0);
                if own != parent {
                    assert(below_parent(list, value, array));
                    let old_b = if k < list.len() && b > k {
                        b
                    } else {
                        b - 1
                    };
                    assert(list[old_b] == value);
                    assert(stands_before(list, own, old_b));
                    let a = choose|a: int| 0 <= a < old_b && #[trigger] list[a] == own;
                    let new_a = if k < list.len() && a > k {
                        a
                    } else {
                        a + 1
                    };
                    assert(after[new_a] == own);
                }
            }
        }
    }
}

proof fn lemma_loops_in_order(list: Seq<Json>, value: Json, array: Seq<Json>, steps: nat)
    requires
        all_different(array),
        drawn_from(list, array),
        list.no_duplicates(),
        above_itself(value, array),
        in_order(list, array, None),
    ensures
        in_order(with_parents(list, value, array, steps), array, None),
        with_parents(list, value, array, steps).no_duplicates(),
    decreases steps,
{
    if steps > 0 && parent_to_pull(value, array) is Some {
        let parent = parent_to_pull(value, array)->0;
        let after = moved_to_front(list, parent);
        lemma_parent_is_listed(value, array);
        lemma_loops_go_on(value, array);
        lemma_moving_in_order(list, array, None, parent);
        lemma_moving_draws(list, parent, array);
        lemma_moving_is_unique(list, parent, array);
        assert(in_order(after, array, None));
        lemma_loops_in_order(after, parent, array, (steps - 1) as nat);
    }
}

/// Whether the elements of a path are each the parent of the one before, and `value` is that of the
/// last one.
pub open spec fn is_path(path: Seq<Json>, value: Json, array: Seq<Json>) -> bool {
    &&& forall|j: int|
        0 <= j < path.len() - 1 ==> parent_to_pull(#[trigger] path[j], array) == Some(path[j + 1])
    &&& path.len() > 0 ==> parent_to_pull(path.last(), array) == Some(value)
}

proof fn lemma_path_above(path: Seq<Json>, value: Json, array: Seq<Json>, i: int, m: nat)
    requires
        is_path(path, value, array),
        0 <= i,
        i + m < path.len(),
    ensures
        above(path[i], array, m) == Some(path[i + m]),
    decreases m,
{
    if m > 0 {
        lemma_path_above(path, value, array, i, (m - 1) as nat);
        assert(parent_to_pull(path[i + m - 1], array) == Some(path[i + m - 1 + 1]));
    }
}

proof fn lemma_path_is_new(path: Seq<Json>, value: Json, array: Seq<Json>)
    requires
        is_path(path, value, array),
        !above_itself(value, array),
    ensures
        !path.contains(value),
{
    if path.contains(value) {
        let i = path.index_of(value);
        let m = (path.len() - 1 - i) as nat;
        lemma_path_above(path, value, array, i, m);
        assert(above(value, array, m) == Some(path.last()));
        assert(above(value, array, m + 1) == Some(value));
    }
}

proof fn lemma_path_is_short(path: Seq<Json>, array: Seq<Json>)
    requires
        path.no_duplicates(),
        drawn_from(path, array),
    ensures
        path.len() <= array.len(),
{
    path.unique_seq_to_set();
    array.lemma_cardinality_of_set();
    assert(path.to_set().subset_of(array.to_set()));
    vstd::set_lib::lemma_len_subset(path.to_set(), array.to_set());
}

proof fn lemma_parents_in_order(
    list: Seq<Json>,
    value: Json,
    array: Seq<Json>,
    steps: nat,
    path: Seq<Json>,
)
    requires
        all_different(array),
        drawn_from(list, array),
        list.no_duplicates(),
        array.contains(value),
        is_path(path, value, array),
        path.no_duplicates(),
        drawn_from(path, array),
        steps + path.len() == array.len(),
        in_order(list, array, Some(value)),
    ensures
        ({
            let after = with_parents(list, value, array, steps);
            &&& in_order(after, array, None)
            &&& after.no_duplicates()
            &&& !above_itself(value, array) ==> (parent_to_pull(value, array) matches Some(parent)
                ==> after.contains(parent))
        }),
    decreases steps,
{
    let after = with_parents(list, value, array, steps);
    if above_itself(value, array) {
        assert(in_order(list, array, None));
        lemma_loops_in_order(list, value, array, steps);
    } else {
        lemma_path_is_new(path, value, array);
        let longer = path.push(value);
        assert(drawn_from(longer, array));
        lemma_path_is_short(longer, array);
        lemma_parent_is_listed(value, array);
        match parent_to_pull(value, array) {
            Some(parent) => {
                let moved = moved_to_front(list, parent);
                lemma_moving_in_order(list, array, Some(value), parent);
                lemma_moving_draws(list, parent, array);
                lemma_moving_is_unique(list, parent, array);
                assert(is_path(longer, parent, array)) by {
                    assert forall|j: int| 0 <= j < longer.len() - 1 implies parent_to_pull(
                        #[trigger] longer[j],
                        array,
                    ) == Some(longer[j + 1]) by {
                        if j < path.len() - 1 {
                            assert(parent_to_pull(path[j], array) == Some(path[j + 1]));
                        }
                    }
                }
                lemma_parents_in_order(moved, parent, array, (steps - 1) as nat, longer);
                crate::json::same_json_reflexive(parent);
                assert(crate::json::same_json(moved[0], parent));
                lemma_parents_keep(moved, parent, array, (steps - 1) as nat, parent);
                lemma_parents_draw(moved, parent, array, (steps - 1) as nat);
                lemma_different_at(after, parent, array);
            },
            None => {
                assert(in_order(list, array, None)) by {
                    assert(below_parent(list, value, array));
                }
            },
        }
    }
}

proof fn lemma_pulled_in_order(array: Seq<Json>, n: nat)
    requires
        all_different(array),
    ensures
        in_order(pulled(array, n), array, None),
        pulled(array, n).no_duplicates(),
    decreases n,
{
    if 0 < n <= array.len() {
        let before = pulled(array, (n - 1) as nat);
        let value = array[n - 1];
        let middle = with_parents(before, value, array, array.len());
        let after = pulled(array, n);
        lemma_pulled_in_order(array, (n - 1) as nat);
        pulling_adds_nothing(array, (n - 1) as nat);
        assert(in_order(before, array, Some(value)));
        assert(array.contains(value));
        lemma_parents_in_order(before, value, array, array.len(), Seq::empty());
        lemma_parents_draw(before, value, array, array.len());
        lemma_different_at(middle, value, array);
        if !includes_same(middle, value) {
            assert forall|v: Json| !above_itself(v, array) implies #[trigger] below_parent(
                after,
                v,
                array,
            ) by {
                if parent_to_pull(v, array) is Some {
                    let own = parent_to_pull(v, array)->0;
                    assert forall|b: int| 0 <= b < after.len() && #[trigger] after[b] == v implies
                        stands_before(after, own, b) by {
                        if b < middle.len() {
                            assert(below_parent(middle, v, array));
                            assert(middle[b] == v);
                            assert(stands_before(middle, own, b));
                            let a = choose|a: int| 0 <= a < b && #[trigger] middle[a] == own;
                            assert(after[a] == own);
                        } else {
                            assert(v == value);
                            let a = middle.index_of(own);
                            assert(after[a] == own);
                        }
                    }
                }
            }
        }
    }
}

/// Where all elements of a list are different, moving parents to the front only changes their
/// order.
pub proof fn pulling_is_a_permutation(array: Seq<Json>)
    requires
        all_different(array),
    ensures
        pulled(array, array.len()).to_multiset() == array.to_multiset(),
{
    broadcast use vstd::seq_lib::group_to_multiset_ensures;

    let after = pulled(array, array.len());
    lemma_pulled_in_order(array, array.len());
    pulling_adds_nothing(array, array.len());
    assert(array.no_duplicates()) by {
        assert forall|i: int, j: int|
            0 <= i < array.len() && 0 <= j < array.len() && i != j implies array[i] != array[j] by {
            crate::json::same_json_reflexive(array[i]);
        }
    }
    after.lemma_multiset_has_no_duplicates();
    array.lemma_multiset_has_no_duplicates();
    assert forall|v: Json| after.to_multiset().count(v) == array.to_multiset().count(v) by {
        if array.contains(v) {
            let i = array.index_of(v);
            pulling_keeps_every_element(array, array.len(), i);
            lemma_different_at(after, v, array);
        }
        if after.contains(v) {
            assert(array.contains(after[after.index_of(v)]));
        }
        assert(after.contains(v) <==> array.contains(v));
        assert(after.to_multiset().contains(v) <==> after.contains(v));
        assert(array.to_multiset().contains(v) <==> array.contains(v));
    }
    assert(after.to_multiset() =~= array.to_multiset());
}

/// The parent of a property that is in the list, and is named by a local id, stands before it,
/// where all elements are different and the property is not above itself.
pub proof fn parents_come_first(array: Seq<Json>, i: int, b: int)
    requires
        all_different(array),
        0 <= i < array.len(),
        parent_to_pull(array[i], array) is Some,
        !above_itself(array[i], array),
        0 <= b < pulled(array, array.len()).len(),
        pulled(array, array.len())[b] == array[i],
    ensures
        stands_before(pulled(array, array.len()), parent_to_pull(array[i], array)->0, b),
{
    lemma_pulled_in_order(array, array.len());
    assert(below_parent(pulled(array, array.len()), array[i], array));
}

/// A property whose parent is no property is not above itself, so its parent stands before it.
pub proof fn parents_that_are_no_properties_come_first(array: Seq<Json>, i: int, b: int)
    requires
        all_different(array),
        0 <= i < array.len(),
        parent_to_pull(array[i], array) matches Some(parent) && !is_property(parent),
        0 <= b < pulled(array, array.len()).len(),
        pulled(array, array.len())[b] == array[i],
    ensures
        stands_before(pulled(array, array.len()), parent_to_pull(array[i], array)->0, b),
{
    let value = array[i];
    assert forall|k: nat| k > 0 implies #[trigger] above(value, array, k) != Some(value) by {
        lemma_ends_at_once(value, array, k);
    }
    parents_come_first(array, i, b);
}

proof fn lemma_ends_at_once(value: Json, array: Seq<Json>, k: nat)
    requires
        k > 0,
        parent_to_pull(value, array) matches Some(parent) && !is_property(parent),
    ensures
        k == 1 ==> above(value, array, k) == parent_to_pull(value, array),
        k > 1 ==> above(value, array, k) is None,
        above(value, array, k) != Some(value),
    decreases k,
{
    reveal_with_fuel(above, 2);
    if k > 1 {
        lemma_ends_at_once(value, array, (k - 1) as nat);
    }
}

/// An import: the documents that are left to be parsed and saved, one after the other.
pub struct Import {
    pub items: Vec<JsonValue>,
    /// How many of them are done.
    pub done: usize,
    /// Whether the text was a list.
    pub listed: bool,
}

/// What an [Import] says.
pub struct ImportView {
    pub items: Seq<Json>,
    pub done: nat,
    pub listed: bool,
}

impl View for Import {
    type V = ImportView;

    open spec fn view(&self) -> ImportView {
        ImportView {
            items: crate::json::items_view(self.items@),
            done: self.done as nat,
            listed: self.listed,
        }
    }
}

/// The import of a text: a list with properties and their parents in front, or a single resource.
pub open spec fn import_of(text: Seq<char>) -> Result<ImportView, ErrorView> {
    match crate::json_text::json_read(text) {
        Err(complaint) => Err(
            crate::errors::unparsable("Invalid JSON: "@ + complaint, None, None),
        ),
        Ok(Json::Array(array)) => {
            let sorted = properties_first(array);
            Ok(ImportView { items: pulled(sorted, sorted.len()), done: 0, listed: true })
        },
        Ok(Json::Object(members)) => Ok(
            ImportView { items: seq![Json::Object(members)], done: 0, listed: false },
        ),
        Ok(_) => Err(crate::errors::other("Root JSON element must be an object or array."@)),
    }
}

/// Whether a document is the parent of a property of a list, and is in the list.
pub open spec fn is_pulled(value: Json, array: Seq<Json>) -> bool {
    exists|i: int|
        0 <= i < array.len() && (parent_to_pull(#[trigger] array[i], array) matches Some(parent)
            && crate::json::same_json(value, parent))
}

/// Whether all documents of a list are properties or parents of properties.
pub open spec fn all_needed_first(list: Seq<Json>, array: Seq<Json>) -> bool {
    forall|k: int|
        0 <= k < list.len() ==> is_property(#[trigger] list[k]) || is_pulled(list[k], array)
}

proof fn lemma_needed_with_parents(list: Seq<Json>, value: Json, array: Seq<Json>, steps: nat)
    requires
        all_needed_first(list, array),
        array.contains(value),
    ensures
        all_needed_first(with_parents(list, value, array, steps), array),
    decreases steps,
{
    if steps > 0 && parent_to_pull(value, array) is Some {
        let parent = parent_to_pull(value, array)->0;
        let after = moved_to_front(list, parent);
        lemma_parent_is_listed(value, array);
        lemma_same_at(list, parent);
        crate::json::same_json_reflexive(parent);
        let i = array.index_of(value);
        assert(parent_to_pull(array[i], array) == Some(parent));
        assert(is_pulled(parent, array));
        let k = same_at(list, parent) as int;
        assert forall|j: int| 0 <= j < after.len() implies is_property(#[trigger] after[j])
            || is_pulled(after[j], array) by {
            if k < list.len() {
                let m = if j == 0 {
                    k
                } else if j <= k {
                    j - 1
                } else {
                    j
                };
                assert(after[j] == list[m]);
            } else if j > 0 {
                assert(after[j] == list[j - 1]);
            }
        }
        lemma_needed_with_parents(after, parent, array, (steps - 1) as nat);
    }
}

/// Whether before each property of a list stand only properties and parents of properties.
pub open spec fn needed_first(list: Seq<Json>, array: Seq<Json>) -> bool {
    forall|a: int, b: int|
        0 <= a < b < list.len() && is_property(#[trigger] list[b]) ==> is_property(
            #[trigger] list[a],
        ) || is_pulled(list[a], array)
}

proof fn lemma_needed_pulled(array: Seq<Json>, n: nat, properties: nat)
    requires
        n <= array.len(),
        properties <= array.len(),
        forall|i: int| 0 <= i < properties ==> is_property(#[trigger] array[i]),
        forall|i: int| properties <= i < array.len() ==> !is_property(#[trigger] array[i]),
    ensures
        n <= properties ==> all_needed_first(pulled(array, n), array),
        needed_first(pulled(array, n), array),
    decreases n,
{
    if n > 0 {
        let before = pulled(array, (n - 1) as nat);
        let value = array[n - 1];
        lemma_needed_pulled(array, (n - 1) as nat, properties);
        assert(array.contains(value));
        if n <= properties {
            lemma_needed_with_parents(before, value, array, array.len());
        }
    }
}

proof fn lemma_sorted(array: Seq<Json>)
    ensures
        ({
            let sorted = properties_first(array);
            let properties = array.filter(|v: Json| is_property(v)).len();
            &&& properties <= sorted.len()
            &&& forall|i: int| 0 <= i < properties ==> is_property(#[trigger] sorted[i])
            &&& forall|i: int| properties <= i < sorted.len() ==> !is_property(#[trigger] sorted[i])
        }),
{
    broadcast use vstd::seq_lib::group_filter_ensures;

    let front = array.filter(|v: Json| is_property(v));
    let back = array.filter(|v: Json| !is_property(v));
    let sorted = properties_first(array);
    assert forall|i: int| 0 <= i < front.len() implies is_property(#[trigger] sorted[i]) by {
        assert(sorted[i] == front[i]);
    }
    assert forall|i: int| front.len() <= i < sorted.len() implies !is_property(
        #[trigger] sorted[i],
    ) by {
        assert(sorted[i] == back[i - front.len()]);
    }
}

/// In an import of a list, before each property stand only properties and parents of properties.
pub proof fn imports_start_with_properties(text: Seq<char>, array: Seq<Json>)
    requires
        crate::json_text::json_read(text) == Ok::<Json, Seq<char>>(Json::Array(array)),
    ensures
        import_of(text) is Ok,
        needed_first(import_of(text)->Ok_0.items, properties_first(array)),
{
    let sorted = properties_first(array);
    lemma_sorted(array);
    lemma_needed_pulled(
        sorted,
        sorted.len(),
        array.filter(|v: Json| is_property(v)).len(),
    );
}

proof fn lemma_sorted_different(array: Seq<Json>)
    requires
        all_different(array),
    ensures
        all_different(properties_first(array)),
        forall|v: Json| #[trigger] properties_first(array).contains(v) <==> array.contains(v),
{
    broadcast use vstd::seq_lib::group_to_multiset_ensures;

    let sorted = properties_first(array);
    lemma_partition(array);
    assert(array.no_duplicates()) by {
        assert forall|i: int, j: int|
            0 <= i < array.len() && 0 <= j < array.len() && i != j implies array[i] != array[j] by {
            crate::json::same_json_reflexive(array[i]);
        }
    }
    array.lemma_multiset_has_no_duplicates();
    sorted.lemma_multiset_has_no_duplicates_conv();
    assert forall|v: Json| #[trigger] sorted.contains(v) <==> array.contains(v) by {
        assert(sorted.to_multiset().contains(v) <==> sorted.contains(v));
        assert(array.to_multiset().contains(v) <==> array.contains(v));
    }
    assert forall|i: int, j: int|
        0 <= i < sorted.len() && 0 <= j < sorted.len() && i
            != j implies !crate::json::same_json(#[trigger] sorted[i], #[trigger] sorted[j]) by {
        assert(sorted.contains(sorted[i]) && sorted.contains(sorted[j]));
        lemma_different(array, sorted[i], sorted[j]);
    }
}

/// An import of a list of different documents has these documents, each once, and a property that
/// is not above itself stands after its parent, where that is in the list.
pub proof fn imports_put_parents_first(text: Seq<char>, array: Seq<Json>, value: Json, b: int)
    requires
        crate::json_text::json_read(text) == Ok::<Json, Seq<char>>(Json::Array(array)),
        all_different(array),
    ensures
        import_of(text) is Ok,
        import_of(text)->Ok_0.items.to_multiset() == array.to_multiset(),
        ({
            let items = import_of(text)->Ok_0.items;
            let sorted = properties_first(array);
            0 <= b < items.len() && items[b] == value && !above_itself(value, sorted) ==> (
            parent_to_pull(value, sorted) matches Some(parent) ==> stands_before(items, parent, b))
        }),
{
    let sorted = properties_first(array);
    let items = import_of(text)->Ok_0.items;
    lemma_sorted_different(array);
    lemma_partition(array);
    pulling_is_a_permutation(sorted);
    if 0 <= b < items.len() && items[b] == value && !above_itself(value, sorted)
        && parent_to_pull(value, sorted) is Some {
        pulling_adds_nothing(sorted, sorted.len());
        assert(sorted.contains(items[b]));
        parents_come_first(sorted, sorted.index_of(value), b);
    }
}

/// What an import says about something that went wrong with a resource.
pub open spec fn import_error(listed: bool, message: Seq<char>) -> ErrorView {
    crate::errors::other(
        if listed {
            "Unable to process resource in array. "@ + message
        } else {
            "Unable to parse object. "@ + message
        },
    )
}

/// The next resource of an import. There is none where all are done.
pub open spec fn next_resource(import: ImportView, known: crate::parse::Known) -> Result<
    Option<ResourceView>,
    StopView,
> {
    if import.done >= import.items.len() {
        Ok(None)
    } else {
        match import.items[import.done as int] {
            Json::Object(members) => match crate::parse::resource_of(known, None, members) {
                Ok(resource) => Ok(Some(resource)),
                Err(StopView::Error(e)) => Err(
                    StopView::Error(import_error(import.listed, e.message)),
                ),
                Err(StopView::Ask(q)) => Err(StopView::Ask(q)),
            },
            other => Err(
                StopView::Error(
                    crate::errors::other(
                        "Wrong datatype, expected object, got: "@ + crate::json_text::json_debug(
                            crate::json_text::settle(other),
                        ),
                    ),
                ),
            ),
        }
    }
}

/// What asking for the next resource of an import comes to.
pub open spec fn next_outcome(r: Result<Option<Resource>, Stop>) -> Result<
    Option<ResourceView>,
    StopView,
> {
    match r {
        Ok(Some(resource)) => Ok(Some(resource@)),
        Ok(None) => Ok(None),
        Err(s) => Err(s@),
    }
}

impl Import {
    /// There are never more documents done than there are.
    pub open spec fn wf(&self) -> bool {
        self.done <= self.items@.len()
    }

    /// Parses the next resource. It is to be saved before the one after it is parsed, because that
    /// one might use it.
    pub fn next(&self, schema: &Schema, parse_opts: &ParseOpts) -> (r: Result<
        Option<Resource>,
        Stop,
    >)
        ensures
            next_outcome(r) == next_resource(self@, crate::parse::known(*schema, *parse_opts)),
    {
        if self.done >= self.items.len() {
            return Ok(None);
        }
        assert(self@.items[self.done as int] == self.items@[self.done as int]@);
        match &self.items[self.done] {
            JsonValue::Object(members) => match parse_json_ad_map_to_resource(
                members,
                None,
                schema,
                parse_opts,
            ) {
                Ok(resource) => Ok(Some(resource)),
                Err(Stop::Error(e)) => Err(Stop::Error(self.fail(&e))),
                Err(Stop::Ask(q)) => Err(Stop::Ask(q)),
            },
            other => {
                let text = crate::json_text::debug_json(other);
                Err(
                    Stop::Error(
                        AtomicError::other_error(
                            cat2("Wrong datatype, expected object, got: ", text.as_str()),
                        ),
                    ),
                )
            },
        }
    }

    /// The error of the import where the next resource could not be parsed or saved.
    pub fn fail(&self, e: &AtomicError) -> (r: AtomicError)
        ensures
            r@ == import_error(self@.listed, e@.message),
    {
        if self.listed {
            AtomicError::in_context("Unable to process resource in array. ", e)
        } else {
            AtomicError::in_context("Unable to parse object. ", e)
        }
    }

    /// Goes on to the resource after the next one.
    pub fn advance(&mut self)
        requires
            old(self).wf(),
        ensures
            final(self).wf(),
            final(self)@ == (ImportView {
                done: if old(self)@.done < old(self)@.items.len() {
                    old(self)@.done + 1
                } else {
                    old(self)@.done
                },
                ..old(self)@
            }),
    {
        if self.done < self.items.len() {
            self.done = self.done + 1;
        }
    }
}

/// Starts the import of a text with one resource or a list of them.
pub fn parse_json_ad_string(string: &str) -> (r: AtomicResult<Import>)
    ensures
        match r {
            Ok(import) => import.wf() && import_of(string@) == Ok::<ImportView, ErrorView>(import@),
            Err(e) => import_of(string@) == Err::<ImportView, ErrorView>(e@),
        },
{
    match crate::json_text::read_json(string) {
        Err(complaint) => {
            let message = cat2("Invalid JSON: ", complaint.as_str());
            Err(AtomicError::parse_error(message.as_str(), None, None))
        },
        Ok(JsonValue::Array(array)) => {
            let sorted = sort_properties_first(&array);
            let items = pull_parents_of_props_to_front(&sorted);
            Ok(Import { items, done: 0, listed: true })
        },
        Ok(JsonValue::Object(members)) => {
            let mut items: Vec<JsonValue> = Vec::new();
            items.push(JsonValue::Object(members));
            assert(crate::json::items_view(items@) =~= seq![
                Json::Object(crate::json::members_view(members@)),
            ]);
            Ok(Import { items, done: 0, listed: false })
        },
        Ok(_) => Err(
            AtomicError::other_error("Root JSON element must be an object or array.".to_owned()),
        ),
    }
}

proof fn lemma_first_with_local_id(array: Seq<Json>, local_id: Seq<char>, i: int)
    requires
        0 <= i < array.len(),
        has_local_id(array[i], local_id),
        forall|j: int| 0 <= j < i ==> !has_local_id(#[trigger] array[j], local_id),
    ensures
        with_local_id(array, local_id) == Some(array[i]),
    decreases array.len(),
{
    if i > 0 {
        assert(!has_local_id(array[0], local_id));
        let rest = array.drop_first();
        assert forall|j: int| 0 <= j < i - 1 implies !has_local_id(
            #[trigger] rest[j],
            local_id,
        ) by {
            assert(!has_local_id(array[j + 1], local_id));
        }
        lemma_first_with_local_id(rest, local_id, i - 1);
    }
}

/// The parent that is pulled for a property is the first document whose local id is what the
/// property calls its parent, where that is no address.
pub proof fn parents_are_found_by_their_local_id(
    members: Seq<(Seq<char>, Json)>,
    classes: Seq<Json>,
    parent: Seq<char>,
    array: Seq<Json>,
    i: int,
    own: Seq<(Seq<char>, Json)>,
)
    requires
        crate::assoc::lookup(members, urls::IS_A@) == Some(Json::Array(classes)),
        crate::assoc::lookup(members, urls::PARENT@) == Some(Json::Text(parent)),
        0 <= i < array.len(),
        array[i] == Json::Object(own),
        crate::assoc::lookup(own, urls::LOCAL_ID@) == Some(Json::Text(parent)),
        forall|j: int|
            0 <= j < i ==> ((#[trigger] array[j]) matches Json::Object(m) ==> crate::assoc::lookup(
                m,
                urls::LOCAL_ID@,
            ) != Some(Json::Text(parent))),
    ensures
        classes.contains(Json::Text(urls::PROPERTY@)) && !"http"@.is_prefix_of(parent)
            ==> parent_to_pull(Json::Object(members), array) == Some(array[i]),
        !classes.contains(Json::Text(urls::PROPERTY@)) || "http"@.is_prefix_of(parent)
            ==> parent_to_pull(Json::Object(members), array) is None,
{
    lemma_first_with_local_id(array, parent, i);
}

/// A document that is pulled as a parent is in the list, and has the local id by which the property
/// names its parent.
pub proof fn pulled_parents_are_parents(value: Json, array: Seq<Json>)
    requires
        parent_to_pull(value, array) is Some,
    ensures
        array.contains(parent_to_pull(value, array)->0),
        value matches Json::Object(members) && (crate::assoc::lookup(members, urls::IS_A@) matches
            Some(Json::Array(classes)) && classes.contains(Json::Text(urls::PROPERTY@))) && (
        crate::assoc::lookup(members, urls::PARENT@) matches Some(Json::Text(parent)) && (
        parent_to_pull(value, array)->0 matches Json::Object(own) && crate::assoc::lookup(
            own,
            urls::LOCAL_ID@,
        ) == Some(Json::Text(parent)))),
{
    lemma_parent_is_listed(value, array);
    lemma_with_local_id(array, local_parent(value)->0);
}

/// A single document is imported as it is, and neither a text that is no document nor one that is
/// neither an object nor a list is imported.
pub proof fn single_documents_are_imported(text: Seq<char>)
    ensures
        crate::json_text::json_read(text) matches Ok(Json::Object(members)) ==> (import_of(
            text,
        ) matches Ok(import) && import.items == seq![Json::Object(members)] && import.done == 0
            && !import.listed),
        crate::json_text::json_read(text) matches Ok(Json::Array(array)) ==> (import_of(
            text,
        ) matches Ok(import) && import.done == 0 && import.listed),
        import_of(text) is Ok ==> (crate::json_text::json_read(text) matches Ok(document) && (
        document is Object || document is Array)),
        crate::json_text::json_read(text) matches Err(complaint) ==> (import_of(text) matches Err(e)
            && e.error_type is ParseError && complaint.is_suffix_of(e.message)),
{
    if let Err(complaint) = crate::json_text::json_read(text) {
        let message = import_of(text)->Err_0.message;
        assert(message.subrange(message.len() - complaint.len(), message.len() as int)
            =~= complaint);
    }
}

/// An import hands out what its documents describe, one after the other, until all are done. What is
/// wrong with a document is passed on, with what was being done, and so are questions.
pub proof fn imports_hand_out_what_documents_describe(
    import: ImportView,
    known: crate::parse::Known,
)
    ensures
        import.done >= import.items.len() <==> next_resource(import, known) == Ok::<
            Option<ResourceView>,
            StopView,
        >(None),
        import.done < import.items.len() ==> match import.items[import.done as int] {
            Json::Object(members) => match crate::parse::resource_of(known, None, members) {
                Ok(resource) => next_resource(import, known) == Ok::<
                    Option<ResourceView>,
                    StopView,
                >(Some(resource)),
                Err(StopView::Ask(q)) => next_resource(import, known) == Err::<
                    Option<ResourceView>,
                    StopView,
                >(StopView::Ask(q)),
                Err(StopView::Error(cause)) => next_resource(import, known) matches Err(
                    StopView::Error(e),
                ) && cause.message.is_suffix_of(e.message),
            },
            _ => next_resource(import, known) is Err,
        },
{
    if import.done < import.items.len() {
        if let Json::Object(members) = import.items[import.done as int] {
            if let Err(StopView::Error(cause)) = crate::parse::resource_of(known, None, members) {
                let message = next_resource(import, known)->Err_0->Error_0.message;
                assert(message.subrange(
                    message.len() - cause.message.len(),
                    message.len() as int,
                ) =~= cause.message);
            }
        }
    }
}

/// What is wrong with a resource is told with what was being done: a list was being worked through, or
/// a single document parsed.
pub proof fn errors_say_what_was_imported(listed: bool, message: Seq<char>)
    ensures
        message.is_suffix_of(import_error(listed, message).message),
        listed ==> "Unable to process resource in array. "@.is_prefix_of(
            import_error(listed, message).message,
        ),
        !listed ==> "Unable to parse object. "@.is_prefix_of(import_error(listed, message).message),
{
    let whole = import_error(listed, message).message;
    let front = if listed {
        "Unable to process resource in array. "@
    } else {
        "Unable to parse object. "@
    };
    assert(whole.subrange(whole.len() - message.len(), whole.len() as int) =~= message);
    assert(whole.subrange(0, front.len() as int) =~= front);
}

/// Moving the properties to the front changes neither the order of the properties nor the order of the
/// other documents.
pub proof fn properties_keep_their_order(array: Seq<Json>)
    ensures
        properties_first(array).filter(|v: Json| is_property(v)) == array.filter(
            |v: Json| is_property(v),
        ),
        properties_first(array).filter(|v: Json| !is_property(v)) == array.filter(
            |v: Json| !is_property(v),
        ),
{
    broadcast use vstd::seq_lib::group_filter_ensures;

    let yes = |v: Json| is_property(v);
    let no = |v: Json| !is_property(v);
    let front = array.filter(yes);
    let back = array.filter(no);
    Seq::filter_distributes_over_add(front, back, yes);
    Seq::filter_distributes_over_add(front, back, no);
    crate::assoc::lemma_filter_all(front, yes);
    crate::assoc::lemma_filter_all(back, no);
    crate::assoc::lemma_filter_none(front, no);
    crate::assoc::lemma_filter_none(back, yes);
    assert(front + Seq::<Json>::empty() =~= front);
    assert(Seq::<Json>::empty() + back =~= back);
}

/// A list of different documents none of which has a parent to be moved stays as it is.
pub proof fn lists_without_parents_stay_as_they_are(array: Seq<Json>, n: nat)
    requires
        n <= array.len(),
        forall|i: int| 0 <= i < array.len() ==> parent_to_pull(#[trigger] array[i], array) is None,
        forall|i: int, j: int|
            0 <= i < j < array.len() ==> !crate::json::same_json(
                #[trigger] array[i],
                #[trigger] array[j],
            ),
    ensures
        pulled(array, n) == array.take(n as int),
    decreases n,
{
    if n > 0 {
        lists_without_parents_stay_as_they_are(array, (n - 1) as nat);
        let before = array.take(n - 1);
        let value = array[n - 1];
        assert(parent_to_pull(value, array) is None);
        assert(with_parents(before, value, array, array.len()) == before);
        assert(!includes_same(before, value)) by {
            if includes_same(before, value) {
                let i = choose|i: int|
                    0 <= i < before.len() && crate::json::same_json(#[trigger] before[i], value);
                assert(before[i] == array[i]);
            }
        }
        assert(array.take(n as int) =~= before.push(value));
    } else {
        assert(array.take(0) =~= Seq::empty());
    }
}

} // verus!
