//! JSON documents as trees of plain values.
use crate::assoc::place_of;
use crate::text::same;
use vstd::prelude::*;

verus! {

/// What a JSON document says.
pub enum Json {
    Null,
    Bool(bool),
    /// A number, in the text that it is written with.
    Number(Seq<char>),
    Text(Seq<char>),
    Array(Seq<Json>),
    /// The members of an object, in the order in which they are walked.
    Object(Seq<(Seq<char>, Json)>),
}

/// A JSON document.
pub enum JsonValue {
    Null,
    Bool(bool),
    /// A number, in the text that it is written with.
    Number(String),
    Text(String),
    Array(Vec<JsonValue>),
    /// The members of an object, in the order in which they are walked.
    Object(Vec<(String, JsonValue)>),
}

/// What a JSON document in memory says.
pub open spec fn json_view(value: JsonValue) -> Json
    decreases value,
{
    match value {
        JsonValue::Null => Json::Null,
        JsonValue::Bool(b) => Json::Bool(b),
        JsonValue::Number(n) => Json::Number(n@),
        JsonValue::Text(t) => Json::Text(t@),
        JsonValue::Array(items) => Json::Array(
            Seq::new(
                items@.len(),
                |i: int|
                    if 0 <= i < items@.len() {
                        json_view(items@[i])
                    } else {
                        Json::Null
                    },
            ),
        ),
        JsonValue::Object(members) => Json::Object(
            Seq::new(
                members@.len(),
                |i: int|
                    if 0 <= i < members@.len() {
                        (members@[i].0@, json_view(members@[i].1))
                    } else {
                        (Seq::empty(), Json::Null)
                    },
            ),
        ),
    }
}

impl View for JsonValue {
    type V = Json;

    open spec fn view(&self) -> Json {
        json_view(*self)
    }
}

/// What the elements of an array say.
pub open spec fn items_view(items: Seq<JsonValue>) -> Seq<Json> {
    Seq::new(items.len(), |i: int| json_view(items[i]))
}

/// What the members of an object say.
pub open spec fn members_view(members: Seq<(String, JsonValue)>) -> Seq<(Seq<char>, Json)> {
    Seq::new(members.len(), |i: int| (members[i].0@, json_view(members[i].1)))
}

proof fn lemma_view_array(items: Vec<JsonValue>)
    ensures
        json_view(JsonValue::Array(items)) == Json::Array(items_view(items@)),
{
    assert(json_view(JsonValue::Array(items))->Array_0 =~= items_view(items@));
}

proof fn lemma_view_object(members: Vec<(String, JsonValue)>)
    ensures
        json_view(JsonValue::Object(members)) == Json::Object(members_view(members@)),
{
    assert(json_view(JsonValue::Object(members))->Object_0 =~= members_view(members@));
}

/// An array says what its elements say, an object what its members say.
pub broadcast proof fn lemma_view_containers(value: JsonValue)
    ensures
        match value {
            JsonValue::Array(items) => #[trigger] json_view(value) == Json::Array(
                items_view(items@),
            ),
            JsonValue::Object(members) => json_view(value) == Json::Object(members_view(members@)),
            _ => true,
        },
{
    match value {
        JsonValue::Array(items) => lemma_view_array(items),
        JsonValue::Object(members) => lemma_view_object(members),
        _ => {},
    }
}

/// Whether two numbers are the same number. A zero with a fraction has two texts.
pub open spec fn same_number(a: Seq<char>, b: Seq<char>) -> bool {
    a == b || (fraction_zero(a) && fraction_zero(b))
}

/// The texts of zero as a number with a fraction.
pub open spec fn fraction_zero(a: Seq<char>) -> bool {
    a == "0.0"@ || a == "-0.0"@
}

/// Whether two documents are the same document.
pub open spec fn same_json(a: Json, b: Json) -> bool
    decreases a,
{
    match (a, b) {
        (Json::Null, Json::Null) => true,
        (Json::Bool(x), Json::Bool(y)) => x == y,
        (Json::Number(x), Json::Number(y)) => same_number(x, y),
        (Json::Text(x), Json::Text(y)) => x == y,
        (Json::Array(x), Json::Array(y)) => {
            &&& x.len() == y.len()
            &&& forall|i: int| 0 <= i < x.len() ==> same_json(#[trigger] x[i], y[i])
        },
        (Json::Object(x), Json::Object(y)) => {
            &&& x.len() == y.len()
            &&& forall|i: int|
                0 <= i < x.len() ==> (#[trigger] x[i]).0 == y[i].0 && same_json(x[i].1, y[i].1)
        },
        _ => false,
    }
}

/// A document is the same as itself.
pub proof fn same_json_reflexive(a: Json)
    ensures
        same_json(a, a),
    decreases a,
{
    match a {
        Json::Array(x) => {
            assert forall|i: int| 0 <= i < x.len() implies same_json(#[trigger] x[i], x[i]) by {
                same_json_reflexive(x[i]);
            }
        },
        Json::Object(x) => {
            assert forall|i: int| 0 <= i < x.len() implies same_json((#[trigger] x[i]).1, x[i].1) by {
                same_json_reflexive(x[i].1);
            }
        },
        _ => {},
    }
}

fn same_number_text(a: &str, b: &str) -> (r: bool)
    ensures
        r == same_number(a@, b@),
{
    same(a, b) || ((same(a, "0.0") || same(a, "-0.0")) && (same(b, "0.0") || same(b, "-0.0")))
}

impl JsonValue {
    /// A copy that says the same.
    pub fn copy(&self) -> (r: JsonValue)
        ensures
            r@ == self@,
        decreases self,
    {
        broadcast use lemma_view_containers;

        match self {
            JsonValue::Null => JsonValue::Null,
            JsonValue::Bool(b) => JsonValue::Bool(*b),
            JsonValue::Number(n) => JsonValue::Number(n.clone()),
            JsonValue::Text(t) => JsonValue::Text(t.clone()),
            JsonValue::Array(items) => {
                let mut copies: Vec<JsonValue> = Vec::new();
                let mut i: usize = 0;
                while i < items.len()
                    invariant
                        i <= items@.len(),
                        *self == JsonValue::Array(*items),
                        copies@.len() == i,
                        forall|k: int| 0 <= k < i ==> json_view(copies@[k]) == json_view(items@[k]),
                    decreases items@.len() - i,
                {
                    assert(decreases_to!(*self => self->Array_0));
                    let copied = items[i].copy();
                    copies.push(copied);
                    i += 1;
                }
                assert(items_view(copies@) =~= items_view(items@));
                JsonValue::Array(copies)
            },
            JsonValue::Object(members) => {
                let mut copies: Vec<(String, JsonValue)> = Vec::new();
                let mut i: usize = 0;
                while i < members.len()
                    invariant
                        i <= members@.len(),
                        *self == JsonValue::Object(*members),
                        copies@.len() == i,
                        forall|k: int|
                            0 <= k < i ==> json_view((#[trigger] copies@[k]).1) == json_view(
                                members@[k].1,
                            ) && copies@[k].0@ == members@[k].0@,
                    decreases members@.len() - i,
                {
                    assert(decreases_to!(*self => self->Object_0));
                    let copied = members[i].1.copy();
                    copies.push((members[i].0.clone(), copied));
                    i += 1;
                }
                assert(members_view(copies@) =~= members_view(members@));
                JsonValue::Object(copies)
            },
        }
    }

    /// Whether two documents are the same document.
    pub fn same(&self, other: &JsonValue) -> (r: bool)
        ensures
            r == same_json(self@, other@),
        decreases self,
    {
        broadcast use lemma_view_containers;

        match (self, other) {
            (JsonValue::Null, JsonValue::Null) => true,
            (JsonValue::Bool(x), JsonValue::Bool(y)) => *x == *y,
            (JsonValue::Number(x), JsonValue::Number(y)) => same_number_text(
                x.as_str(),
                y.as_str(),
            ),
            (JsonValue::Text(x), JsonValue::Text(y)) => same(x.as_str(), y.as_str()),
            (JsonValue::Array(x), JsonValue::Array(y)) => {
                if x.len() != y.len() {
                    return false;
                }
                let mut i: usize = 0;
                while i < x.len()
                    invariant
                        i <= x@.len() == y@.len(),
                        *self == JsonValue::Array(*x),
                        *other == JsonValue::Array(*y),
                        self@ == Json::Array(items_view(x@)),
                        other@ == Json::Array(items_view(y@)),
                        forall|k: int|
                            0 <= k < i ==> same_json(
                                #[trigger] items_view(x@)[k],
                                items_view(y@)[k],
                            ),
                    decreases x@.len() - i,
                {
                    if !x[i].same(&y[i]) {
                        assert(!same_json(items_view(x@)[i as int], items_view(y@)[i as int]));
                        return false;
                    }
                    i += 1;
                }
                true
            },
            (JsonValue::Object(x), JsonValue::Object(y)) => {
                if x.len() != y.len() {
                    return false;
                }
                let mut i: usize = 0;
                while i < x.len()
                    invariant
                        i <= x@.len() == y@.len(),
                        *self == JsonValue::Object(*x),
                        *other == JsonValue::Object(*y),
                        self@ == Json::Object(members_view(x@)),
                        other@ == Json::Object(members_view(y@)),
                        forall|k: int|
                            0 <= k < i ==> (#[trigger] members_view(x@)[k]).0 == members_view(
                                y@,
                            )[k].0 && same_json(members_view(x@)[k].1, members_view(y@)[k].1),
                    decreases x@.len() - i,
                {
                    if !same(x[i].0.as_str(), y[i].0.as_str()) || !x[i].1.same(&y[i].1) {
                        let ghost bad = members_view(x@)[i as int];
                        return false;
                    }
                    i += 1;
                }
                true
            },
            _ => false,
        }
    }
}

/// The value of the member called `key`, the first one of that name.
pub fn get_member<'a>(members: &'a Vec<(String, JsonValue)>, key: &str) -> (r: Option<
    &'a JsonValue,
>)
    ensures
        match r {
            Some(value) => crate::assoc::lookup(members_view(members@), key@) == Some(value@),
            None => crate::assoc::lookup(members_view(members@), key@) is None,
        },
{
    let i = place_of(members, key);
    proof {
        crate::assoc::lemma_place_is(members_view(members@), key@, i as int);
    }
    if i < members.len() {
        Some(&members[i].1)
    } else {
        None
    }
}

/// Being the same document goes both ways.
pub proof fn same_json_symmetric(a: Json, b: Json)
    ensures
        same_json(a, b) == same_json(b, a),
    decreases a,
{
    match (a, b) {
        (Json::Array(x), Json::Array(y)) => {
            if x.len() == y.len() {
                assert forall|i: int| 0 <= i < x.len() implies same_json(#[trigger] x[i], y[i])
                    == same_json(y[i], x[i]) by {
                    same_json_symmetric(x[i], y[i]);
                }
                assert(same_json(a, b) ==> same_json(b, a)) by {
                    if same_json(a, b) {
                        assert forall|i: int| 0 <= i < y.len() implies same_json(
                            #[trigger] y[i],
                            x[i],
                        ) by {
                            assert(same_json(x[i], y[i]));
                        }
                    }
                }
                assert(same_json(b, a) ==> same_json(a, b)) by {
                    if same_json(b, a) {
                        assert forall|i: int| 0 <= i < x.len() implies same_json(
                            #[trigger] x[i],
                            y[i],
                        ) by {
                            assert(same_json(y[i], x[i]));
                        }
                    }
                }
            }
        },
        (Json::Object(x), Json::Object(y)) => {
            if x.len() == y.len() {
                assert forall|i: int| 0 <= i < x.len() implies same_json(
                    (#[trigger] x[i]).1,
                    y[i].1,
                ) == same_json(y[i].1, x[i].1) by {
                    same_json_symmetric(x[i].1, y[i].1);
                }
                assert(same_json(a, b) ==> same_json(b, a)) by {
                    if same_json(a, b) {
                        assert forall|i: int| 0 <= i < y.len() implies (#[trigger] y[i]).0 == x[i].0
                            && same_json(y[i].1, x[i].1) by {
                            assert(x[i].0 == y[i].0 && same_json(x[i].1, y[i].1));
                        }
                    }
                }
                assert(same_json(b, a) ==> same_json(a, b)) by {
                    if same_json(b, a) {
                        assert forall|i: int| 0 <= i < x.len() implies (#[trigger] x[i]).0 == y[i].0
                            && same_json(x[i].1, y[i].1) by {
                            assert(y[i].0 == x[i].0 && same_json(y[i].1, x[i].1));
                        }
                    }
                }
            }
        },
        _ => {},
    }
}

/// Documents that are the same are equal wherever they hold no numbers: texts, truth values, the
/// number of elements and the names of members are told apart.
pub proof fn same_documents_say_the_same(a: Json, b: Json)
    requires
        same_json(a, b),
    ensures
        a is Text || a is Bool || a is Null || b is Text || b is Bool || b is Null ==> a == b,
        a matches Json::Array(x) ==> (b matches Json::Array(y) && x.len() == y.len()),
        a matches Json::Object(x) ==> (b matches Json::Object(y) && x.len() == y.len() && forall|
            i: int,
        |
            0 <= i < x.len() ==> (#[trigger] x[i]).0 == y[i].0),
        a matches Json::Number(x) ==> (b matches Json::Number(y) && (x == y || ((x == "0.0"@ || x
            == "-0.0"@) && (y == "0.0"@ || y == "-0.0"@)))),
{
}

/// Documents are the same if and only if their parts are: elements at the same places, and members
/// with the same names at the same places. The two zeros with a fraction are the same number.
pub proof fn documents_are_the_same_where_their_parts_are(
    x: Seq<Json>,
    y: Seq<Json>,
    a: Seq<(Seq<char>, Json)>,
    b: Seq<(Seq<char>, Json)>,
    m: Seq<char>,
    n: Seq<char>,
)
    ensures
        same_json(Json::Array(x), Json::Array(y)) <==> x.len() == y.len() && forall|i: int|
            0 <= i < x.len() ==> same_json(#[trigger] x[i], y[i]),
        same_json(Json::Object(a), Json::Object(b)) <==> a.len() == b.len() && forall|i: int|
            0 <= i < a.len() ==> (#[trigger] a[i]).0 == b[i].0 && same_json(a[i].1, b[i].1),
        (m == "0.0"@ || m == "-0.0"@) && (n == "0.0"@ || n == "-0.0"@) ==> same_json(
            Json::Number(m),
            Json::Number(n),
        ),
        m != n && m != "0.0"@ && m != "-0.0"@ ==> !same_json(Json::Number(m), Json::Number(n)),
{
}

} // verus!
