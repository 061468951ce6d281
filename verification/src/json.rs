//! JSON values as plain data: trees whose objects keep their keys in order.
use vstd::prelude::*;

use crate::text::{
    comes_before, same_text, text_less, text_less_irreflexive, text_less_total,
    text_less_transitive,
};

verus! {

/// The number type of `serde_json`; carries the numbers that are not integers
/// of 64 bits.
#[verifier::external_type_specification]
#[verifier::external_body]
pub struct ExNumber(serde_json::Number);

/// The JSON tree of `serde_json`.
#[verifier::external_type_specification]
#[verifier::external_body]
pub struct ExValue(serde_json::Value);

/// The error type of `serde_json`.
#[verifier::external_type_specification]
#[verifier::external_body]
pub struct ExJsonError(serde_json::Error);

/// A number: a natural number, a negative integer, or any other number.
#[derive(Debug, PartialEq)]
pub enum JsonNumber {
    Natural(u64),
    Negative(i64),
    Other(serde_json::Number),
}

/// A JSON value.
#[derive(Debug, PartialEq)]
pub enum Json {
    Null,
    Bool(bool),
    Number(JsonNumber),
    Text(String),
    Array(Vec<Json>),
    Object(JsonMap),
}

/// The members of a JSON object, in the order of their keys.
#[derive(Debug, PartialEq)]
pub struct JsonMap {
    pub entries: Vec<(String, Json)>,
}

/// What a JSON value holds.
pub enum JsonModel {
    Null,
    Bool(bool),
    Number(JsonNumber),
    Text(Seq<char>),
    Array(Seq<JsonModel>),
    Object(Seq<(Seq<char>, JsonModel)>),
}

pub open spec fn json_model(json: Json) -> JsonModel
    decreases json,
{
    match json {
        Json::Null => JsonModel::Null,
        Json::Bool(b) => JsonModel::Bool(b),
        Json::Number(n) => JsonModel::Number(n),
        Json::Text(t) => JsonModel::Text(t@),
        Json::Array(items) => JsonModel::Array(
            Seq::new(
                items@.len(),
                |i: int|
                    if 0 <= i < items@.len() {
                        json_model(items@[i])
                    } else {
                        JsonModel::Null
                    },
            ),
        ),
        Json::Object(map) => JsonModel::Object(
            Seq::new(
                map.entries@.len(),
                |i: int|
                    if 0 <= i < map.entries@.len() {
                        (map.entries@[i].0@, json_model(map.entries@[i].1))
                    } else {
                        (Seq::empty(), JsonModel::Null)
                    },
            ),
        ),
    }
}

impl View for Json {
    type V = JsonModel;

    open spec fn view(&self) -> JsonModel {
        json_model(*self)
    }
}

// ---------------------------------------------------------------------------
// Views
// ---------------------------------------------------------------------------

/// What a list of values holds.
pub open spec fn array_model(items: Seq<Json>) -> Seq<JsonModel> {
    items.map_values(|item: Json| item@)
}

/// What a list of members holds.
pub open spec fn members_model(entries: Seq<(String, Json)>) -> Seq<(Seq<char>, JsonModel)> {
    entries.map_values(|entry: (String, Json)| (entry.0@, entry.1@))
}

/// What an optional value holds.
pub open spec fn option_model(json: Option<&Json>) -> Option<JsonModel> {
    match json {
        Some(j) => Some(j@),
        None => None,
    }
}

impl View for JsonMap {
    type V = Seq<(Seq<char>, JsonModel)>;

    open spec fn view(&self) -> Seq<(Seq<char>, JsonModel)> {
        members_model(self.entries@)
    }
}

/// An array holds what its items hold.
pub broadcast proof fn array_view(items: Vec<Json>)
    ensures
        #[trigger] Json::Array(items)@ == JsonModel::Array(array_model(items@)),
{
    assert(Json::Array(items)@->Array_0 =~= array_model(items@));
}

/// An object holds what its members hold.
pub broadcast proof fn object_view(map: JsonMap)
    ensures
        #[trigger] Json::Object(map)@ == JsonModel::Object(map@),
{
    assert(Json::Object(map)@->Object_0 =~= map@);
}

// ---------------------------------------------------------------------------
// Members of an object
// ---------------------------------------------------------------------------

/// The position of the first member `key`, or the number of members if there
/// is none.
pub open spec fn member_index(entries: Seq<(Seq<char>, JsonModel)>, key: Seq<char>) -> int
    decreases entries.len(),
{
    if entries.len() == 0 || entries[0].0 == key {
        0
    } else {
        1 + member_index(entries.drop_first(), key)
    }
}

/// The value of the member `key`, if there is one.
pub open spec fn member(
    entries: Seq<(Seq<char>, JsonModel)>,
    key: Seq<char>,
) -> Option<JsonModel> {
    let at = member_index(entries, key);
    if at < entries.len() {
        Some(entries[at].1)
    } else {
        None
    }
}

/// The position of the first member whose key comes after `key`.
pub open spec fn order_index(entries: Seq<(Seq<char>, JsonModel)>, key: Seq<char>) -> int
    decreases entries.len(),
{
    if entries.len() == 0 || text_less(key, entries[0].0) {
        0
    } else {
        1 + order_index(entries.drop_first(), key)
    }
}

/// The members with `key` set to `value`: a member that is there keeps its
/// place, a new one stands before the first whose key comes after its own.
pub open spec fn with_member(
    entries: Seq<(Seq<char>, JsonModel)>,
    key: Seq<char>,
    value: JsonModel,
) -> Seq<(Seq<char>, JsonModel)> {
    let at = member_index(entries, key);
    if at < entries.len() {
        entries.update(at, (key, value))
    } else {
        entries.insert(order_index(entries, key), (key, value))
    }
}

/// The members without `key`.
pub open spec fn without_member(
    entries: Seq<(Seq<char>, JsonModel)>,
    key: Seq<char>,
) -> Seq<(Seq<char>, JsonModel)>
    decreases entries.len(),
{
    if entries.len() == 0 {
        entries
    } else if entries[0].0 == key {
        without_member(entries.drop_first(), key)
    } else {
        seq![entries[0]] + without_member(entries.drop_first(), key)
    }
}

/// Whether the keys stand in their order, each once.
pub open spec fn in_key_order(entries: Seq<(Seq<char>, JsonModel)>) -> bool {
    forall|i: int, j: int|
        0 <= i < j < entries.len() ==> text_less(#[trigger] entries[i].0, #[trigger] entries[j].0)
}

/// `member_index` is the first position of its key.
pub proof fn member_index_is_first(entries: Seq<(Seq<char>, JsonModel)>, key: Seq<char>)
    ensures
        0 <= member_index(entries, key) <= entries.len(),
        member_index(entries, key) < entries.len() ==> entries[member_index(entries, key)].0
            == key,
        forall|i: int| 0 <= i < member_index(entries, key) ==> (#[trigger] entries[i]).0 != key,
    decreases entries.len(),
{
    if entries.len() > 0 && entries[0].0 != key {
        let rest = entries.drop_first();
        member_index_is_first(rest, key);
        assert forall|i: int| 0 <= i < member_index(entries, key) implies (
        #[trigger] entries[i]).0 != key by {
            if i > 0 {
                assert(rest[i - 1] == entries[i]);
            }
        }
    }
}

/// A position that is the first of its key is `member_index`.
pub proof fn member_index_unique(entries: Seq<(Seq<char>, JsonModel)>, key: Seq<char>, at: int)
    requires
        0 <= at <= entries.len(),
        at < entries.len() ==> entries[at].0 == key,
        forall|i: int| 0 <= i < at ==> (#[trigger] entries[i]).0 != key,
    ensures
        member_index(entries, key) == at,
{
    member_index_is_first(entries, key);
    let found = member_index(entries, key);
    if found < at {
        assert(entries[found].0 == key);
    }
}

/// `order_index` is the first position whose key comes after `key`.
pub proof fn order_index_is_first(entries: Seq<(Seq<char>, JsonModel)>, key: Seq<char>)
    ensures
        0 <= order_index(entries, key) <= entries.len(),
        order_index(entries, key) < entries.len() ==> text_less(
            key,
            entries[order_index(entries, key)].0,
        ),
        forall|i: int|
            0 <= i < order_index(entries, key) ==> !text_less(key, (#[trigger] entries[i]).0),
    decreases entries.len(),
{
    if entries.len() > 0 && !text_less(key, entries[0].0) {
        let rest = entries.drop_first();
        order_index_is_first(rest, key);
        assert forall|i: int| 0 <= i < order_index(entries, key) implies !text_less(
            key,
            (#[trigger] entries[i]).0,
        ) by {
            if i > 0 {
                assert(rest[i - 1] == entries[i]);
            }
        }
    }
}

/// Setting a member gives it the new value and leaves the others as they were.
pub proof fn member_of_with_member(
    entries: Seq<(Seq<char>, JsonModel)>,
    key: Seq<char>,
    value: JsonModel,
    other: Seq<char>,
)
    ensures
        member(with_member(entries, key, value), other) == if other == key {
            Some(value)
        } else {
            member(entries, other)
        },
{
    let after = with_member(entries, key, value);
    let at = member_index(entries, key);
    let asked = member_index(entries, other);
    member_index_is_first(entries, key);
    member_index_is_first(entries, other);
    order_index_is_first(entries, key);
    if at < entries.len() {
        assert forall|i: int| 0 <= i < asked implies (#[trigger] after[i]).0 != other by {
            assert(entries[i].0 != other);
        }
        member_index_unique(after, other, asked);
    } else {
        let place = order_index(entries, key);
        if other == key {
            assert forall|i: int| 0 <= i < place implies (#[trigger] after[i]).0 != key by {
                assert(entries[i].0 != key);
            }
            member_index_unique(after, key, place);
        } else {
            let moved = if asked < place {
                asked
            } else {
                asked + 1
            };
            assert forall|i: int| 0 <= i < moved implies (#[trigger] after[i]).0 != other by {
                if i < place {
                    assert(entries[i].0 != other);
                } else if i > place {
                    assert(entries[i - 1].0 != other);
                }
            }
            if asked < entries.len() {
                assert(after[moved] == entries[asked]);
            }
            member_index_unique(after, other, moved);
        }
    }
}

/// Setting a member twice is setting it to the second value.
pub proof fn with_member_twice(
    entries: Seq<(Seq<char>, JsonModel)>,
    key: Seq<char>,
    first: JsonModel,
    second: JsonModel,
)
    ensures
        with_member(with_member(entries, key, first), key, second) == with_member(
            entries,
            key,
            second,
        ),
{
    let once = with_member(entries, key, first);
    let at = member_index(entries, key);
    member_index_is_first(entries, key);
    order_index_is_first(entries, key);
    if at < entries.len() {
        assert forall|i: int| 0 <= i < at implies (#[trigger] once[i]).0 != key by {
            assert(entries[i].0 != key);
        }
        member_index_unique(once, key, at);
    } else {
        let place = order_index(entries, key);
        assert forall|i: int| 0 <= i < place implies (#[trigger] once[i]).0 != key by {
            assert(entries[i].0 != key);
        }
        member_index_unique(once, key, place);
    }
    assert(with_member(once, key, second) =~= with_member(entries, key, second));
}

/// Setting a member to the value it has changes nothing.
pub proof fn with_member_same(
    entries: Seq<(Seq<char>, JsonModel)>,
    key: Seq<char>,
    value: JsonModel,
)
    requires
        member(entries, key) == Some(value),
    ensures
        with_member(entries, key, value) == entries,
{
    member_index_is_first(entries, key);
    assert(with_member(entries, key, value) =~= entries);
}

/// Removing a member leaves no value for it and leaves the others as they were.
pub proof fn member_of_without_member(
    entries: Seq<(Seq<char>, JsonModel)>,
    key: Seq<char>,
    other: Seq<char>,
)
    ensures
        member(without_member(entries, key), other) == if other == key {
            None
        } else {
            member(entries, other)
        },
    decreases entries.len(),
{
    if entries.len() > 0 {
        let rest = entries.drop_first();
        let kept = without_member(rest, key);
        assert((seq![entries[0]] + kept).drop_first() == kept);
        member_of_without_member(rest, key, other);
        member_index_is_first(rest, other);
        member_index_is_first(kept, other);
        assert(member(entries, other) == if entries[0].0 == other {
            Some(entries[0].1)
        } else {
            member(rest, other)
        });
        if entries[0].0 != key {
            let all = seq![entries[0]] + kept;
            assert(member(all, other) == if entries[0].0 == other {
                Some(entries[0].1)
            } else {
                member(kept, other)
            });
        }
    }
}

/// Setting a member keeps the keys in order.
pub proof fn with_member_keeps_order(
    entries: Seq<(Seq<char>, JsonModel)>,
    key: Seq<char>,
    value: JsonModel,
)
    requires
        in_key_order(entries),
    ensures
        in_key_order(with_member(entries, key, value)),
{
    let after = with_member(entries, key, value);
    let at = member_index(entries, key);
    let place = order_index(entries, key);
    member_index_is_first(entries, key);
    order_index_is_first(entries, key);
    assert forall|i: int, j: int| 0 <= i < j < after.len() implies text_less(
        #[trigger] after[i].0,
        #[trigger] after[j].0,
    ) by {
        if at < entries.len() {
            assert(after[i].0 == entries[i].0);
            assert(after[j].0 == entries[j].0);
        } else if j < place {
            assert(after[i] == entries[i]);
            assert(after[j] == entries[j]);
        } else if j == place {
            assert(after[i] == entries[i]);
            assert(entries[i].0 != key);
            text_less_total(entries[i].0, key);
        } else {
            assert(after[j] == entries[j - 1]);
            if i < place {
                assert(after[i] == entries[i]);
            } else if i == place {
                if place < j - 1 {
                    text_less_transitive(key, entries[place].0, entries[j - 1].0);
                }
            } else {
                assert(after[i] == entries[i - 1]);
            }
        }
    }
}

/// Removing a member keeps the keys in order.
pub proof fn without_member_keeps_order(entries: Seq<(Seq<char>, JsonModel)>, key: Seq<char>)
    requires
        in_key_order(entries),
    ensures
        in_key_order(without_member(entries, key)),
        forall|i: int|
            0 <= i < without_member(entries, key).len() ==> exists|k: int|
                0 <= k < entries.len() && entries[k] == #[trigger] without_member(
                    entries,
                    key,
                )[i],
    decreases entries.len(),
{
    let after = without_member(entries, key);
    if entries.len() > 0 {
        let rest = entries.drop_first();
        assert(in_key_order(rest)) by {
            assert forall|i: int, j: int| 0 <= i < j < rest.len() implies text_less(
                #[trigger] rest[i].0,
                #[trigger] rest[j].0,
            ) by {
                assert(text_less(entries[i + 1].0, entries[j + 1].0));
            }
        }
        without_member_keeps_order(rest, key);
        let kept = without_member(rest, key);
        assert forall|i: int| 0 <= i < kept.len() implies exists|k: int|
            1 <= k < entries.len() && entries[k] == #[trigger] kept[i] by {
            let k = choose|k: int| 0 <= k < rest.len() && rest[k] == kept[i];
            assert(entries[k + 1] == kept[i]);
        }
        if entries[0].0 == key {
            assert(after == kept);
        } else {
            assert forall|i: int| 0 <= i < after.len() implies exists|k: int|
                0 <= k < entries.len() && entries[k] == #[trigger] after[i] by {
                if i == 0 {
                    assert(entries[0] == after[0]);
                } else {
                    assert(after[i] == kept[i - 1]);
                }
            }
            assert forall|i: int, j: int| 0 <= i < j < after.len() implies text_less(
                #[trigger] after[i].0,
                #[trigger] after[j].0,
            ) by {
                assert(after[j] == kept[j - 1]);
                if i == 0 {
                    let k = choose|k: int|
                        1 <= k < entries.len() && entries[k] == kept[j - 1];
                    assert(text_less(entries[0].0, entries[k].0));
                } else {
                    assert(after[i] == kept[i - 1]);
                }
            }
        }
    }
}

/// In order, a key stands once: the member at a position is the one found by
/// its key.
pub proof fn member_at(entries: Seq<(Seq<char>, JsonModel)>, at: int)
    requires
        in_key_order(entries),
        0 <= at < entries.len(),
    ensures
        member(entries, entries[at].0) == Some(entries[at].1),
{
    text_less_irreflexive(entries[at].0);
    assert forall|i: int| 0 <= i < at implies (#[trigger] entries[i]).0 != entries[at].0 by {
        assert(text_less(entries[i].0, entries[at].0));
    }
    member_index_unique(entries, entries[at].0, at);
}

/// Members in key order are given by what stands under each key.
pub proof fn same_members(one: Seq<(Seq<char>, JsonModel)>, other: Seq<(Seq<char>, JsonModel)>)
    requires
        in_key_order(one),
        in_key_order(other),
        forall|key: Seq<char>| #[trigger] member(one, key) == member(other, key),
    ensures
        one == other,
    decreases one.len(),
{
    if one.len() == 0 {
        if other.len() > 0 {
            member_at(other, 0);
            assert(member(one, other[0].0) == member(other, other[0].0));
        }
        assert(one =~= other);
    } else {
        member_at(one, 0);
        let key = one[0].0;
        assert(member(one, key) == member(other, key));
        member_index_is_first(other, key);
        let at = member_index(other, key);
        if at > 0 {
            member_at(other, 0);
            let first = other[0].0;
            assert(member(one, first) == member(other, first));
            member_index_is_first(one, first);
            let place = member_index(one, first);
            assert(text_less(first, other[at].0));
            if place > 0 {
                assert(text_less(one[0].0, one[place].0));
                text_less_transitive(first, key, first);
            }
            text_less_irreflexive(first);
        }
        assert(at == 0);
        assert(other[0].0 == key);
        let less = one.drop_first();
        let other_less = other.drop_first();
        assert forall|k: Seq<char>| #[trigger] member(less, k) == member(other_less, k) by {
            assert(member(one, k) == member(other, k));
            if k == key {
                member_index_is_first(less, k);
                member_index_is_first(other_less, k);
                text_less_irreflexive(k);
                if member_index(less, k) < less.len() {
                    assert(less[member_index(less, k)] == one[member_index(less, k) + 1]);
                    assert(text_less(one[0].0, one[member_index(less, k) + 1].0));
                }
                if member_index(other_less, k) < other_less.len() {
                    assert(other_less[member_index(other_less, k)] == other[member_index(
                        other_less,
                        k,
                    ) + 1]);
                    assert(text_less(other[0].0, other[member_index(other_less, k) + 1].0));
                }
            } else {
                member_index_is_first(less, k);
                member_index_is_first(other_less, k);
                assert(member_index(one, k) == 1 + member_index(less, k));
                assert(member_index(other, k) == 1 + member_index(other_less, k));
            }
        }
        assert forall|i: int, j: int| 0 <= i < j < less.len() implies text_less(
            #[trigger] less[i].0,
            #[trigger] less[j].0,
        ) by {
            assert(text_less(one[i + 1].0, one[j + 1].0));
        }
        assert forall|i: int, j: int| 0 <= i < j < other_less.len() implies text_less(
            #[trigger] other_less[i].0,
            #[trigger] other_less[j].0,
        ) by {
            assert(text_less(other[i + 1].0, other[j + 1].0));
        }
        same_members(less, other_less);
        assert(one =~= seq![one[0]] + less);
        assert(other =~= seq![other[0]] + other_less);
    }
}

impl JsonMap {
    /// An object without members.
    pub fn new() -> (map: JsonMap)
        ensures
            map@ == Seq::<(Seq<char>, JsonModel)>::empty(),
    {
        let map = JsonMap { entries: Vec::new() };
        assert(map@ =~= Seq::<(Seq<char>, JsonModel)>::empty());
        map
    }

    /// The position of the member `key`, or the number of members.
    fn position(&self, key: &str) -> (at: usize)
        ensures
            at == member_index(self@, key@),
            at <= self.entries.len(),
    {
        let mut i: usize = 0;
        while i < self.entries.len()
            invariant
                i <= self.entries.len(),
                forall|k: int| 0 <= k < i ==> (#[trigger] self@[k]).0 != key@,
            decreases self.entries.len() - i,
        {
            if same_text(self.entries[i].0.as_str(), key) {
                proof {
                    member_index_unique(self@, key@, i as int);
                }
                return i;
            }
            assert(self@[i as int].0 != key@);
            i += 1;
        }
        proof {
            member_index_unique(self@, key@, i as int);
        }
        i
    }

    /// The value of the member `key`.
    pub fn get(&self, key: &str) -> (value: Option<&Json>)
        ensures
            option_model(value) == member(self@, key@),
    {
        let at: usize = self.position(key);
        if at < self.entries.len() {
            Some(&self.entries[at].1)
        } else {
            None
        }
    }

    /// Whether there is a member `key`.
    pub fn contains_key(&self, key: &str) -> (found: bool)
        ensures
            found == member(self@, key@) is Some,
    {
        self.position(key) < self.entries.len()
    }

    /// The value of the member `key`, to be changed in place.
    pub fn get_mut(&mut self, key: &str) -> (value: Option<&mut Json>)
        ensures
            match value {
                Some(v) => {
                    &&& member(old(self)@, key@) == Some(v@)
                    &&& final(self)@ == with_member(old(self)@, key@, final(v)@)
                },
                None => member(old(self)@, key@) is None && final(self)@ == old(self)@,
            },
    {
        let at: usize = self.position(key);
        let ghost before = self.entries@;
        if at < self.entries.len() {
            let entry: &mut (String, Json) = &mut self.entries[at];
            let value: &mut Json = &mut entry.1;
            proof {
                member_index_is_first(members_model(before), key@);
                assert(members_model(before.update(at as int, (before[at as int].0, *final(value))))
                    =~= members_model(before).update(at as int, (key@, final(value)@)));
            }
            Some(value)
        } else {
            None
        }
    }

    /// Sets the member `key` to `value`.
    pub fn insert(&mut self, key: String, value: Json)
        ensures
            final(self)@ == with_member(old(self)@, key@, value@),
    {
        let ghost before = self@;
        let at: usize = self.position(key.as_str());
        if at < self.entries.len() {
            proof {
                member_index_is_first(before, key@);
            }
            let ghost entry = (key@, value@);
            self.entries.set(at, (key, value));
            assert(self@ == before.update(at as int, entry));
            return ;
        }
        let mut place: usize = 0;
        assert(before.skip(0) == before);
        while place < self.entries.len() && !comes_before(
            key.as_str(),
            self.entries[place].0.as_str(),
        )
            invariant
                place <= self.entries.len(),
                self@ == before,
                before == old(self)@,
                order_index(before, key@) == place + order_index(before.skip(place as int), key@),
            decreases self.entries.len() - place,
        {
            assert(before.skip(place as int)[0] == before[place as int]);
            assert(before.skip(place as int).drop_first() == before.skip(place + 1));
            place += 1;
        }
        assert(place < before.len() ==> before.skip(place as int)[0] == before[place as int]);
        let ghost entry = (key@, value@);
        self.entries.insert(place, (key, value));
        assert(self@ == before.insert(place as int, entry));
    }

    /// Removes the member `key`.
    pub fn remove(&mut self, key: &str)
        ensures
            final(self)@ == without_member(old(self)@, key@),
    {
        let ghost before = self@;
        let mut i: usize = 0;
        assert(before.skip(0) == before);
        assert(before.take(0) + without_member(before, key@) == without_member(before, key@));
        while i < self.entries.len()
            invariant
                i <= self.entries.len(),
                self@.take(i as int) + without_member(self@.skip(i as int), key@)
                    == without_member(before, key@),
            decreases self.entries.len() - i,
        {
            let ghost now = self@;
            assert(now.skip(i as int)[0] == now[i as int]);
            assert(now.skip(i as int).drop_first() == now.skip(i + 1));
            if same_text(self.entries[i].0.as_str(), key) {
                self.entries.remove(i);
                assert(self@.take(i as int) == now.take(i as int));
                assert(self@.skip(i as int) == now.skip(i + 1));
            } else {
                assert(now.take(i as int) + (seq![now[i as int]] + without_member(
                    now.skip(i + 1),
                    key@,
                )) == now.take(i + 1) + without_member(now.skip(i + 1), key@));
                i += 1;
            }
        }
        assert(self@.take(i as int) + without_member(self@.skip(i as int), key@) == self@);
    }
}

// ---------------------------------------------------------------------------
// Copies
// ---------------------------------------------------------------------------

/// Calls `serde_json::Number::clone`: the copy is the same number.
#[verifier::external_body]
fn clone_number(number: &serde_json::Number) -> (copy: serde_json::Number)
    ensures
        copy == *number,
{
    number.clone()
}

impl Clone for JsonNumber {
    fn clone(&self) -> (copy: Self)
        ensures
            copy == *self,
    {
        match self {
            JsonNumber::Natural(n) => JsonNumber::Natural(*n),
            JsonNumber::Negative(n) => JsonNumber::Negative(*n),
            JsonNumber::Other(n) => JsonNumber::Other(clone_number(n)),
        }
    }
}

impl Clone for Json {
    fn clone(&self) -> (copy: Self)
        ensures
            copy@ == self@,
        decreases self,
    {
        match self {
            Json::Null => Json::Null,
            Json::Bool(b) => Json::Bool(*b),
            Json::Number(n) => Json::Number(n.clone()),
            Json::Text(t) => Json::Text(t.clone()),
            Json::Array(items) => {
                let mut copies: Vec<Json> = Vec::new();
                let mut i: usize = 0;
                while i < items.len()
                    invariant
                        i <= items.len(),
                        copies.len() == i,
                        *self == Json::Array(*items),
                        forall|k: int| 0 <= k < i ==> #[trigger] copies@[k]@ == items@[k]@,
                    decreases items.len() - i,
                {
                    assert(decreases_to!(*self => self->Array_0));
                    assert(decreases_to!(items@ => items@[i as int]));
                    copies.push(items[i].clone());
                    i += 1;
                }
                proof {
                    array_view(copies);
                    array_view(*items);
                    assert(array_model(copies@) == array_model(items@));
                }
                Json::Array(copies)
            },
            Json::Object(map) => {
                let mut copies: Vec<(String, Json)> = Vec::new();
                let mut i: usize = 0;
                while i < map.entries.len()
                    invariant
                        i <= map.entries.len(),
                        copies.len() == i,
                        *self == Json::Object(*map),
                        forall|k: int|
                            0 <= k < i ==> (#[trigger] copies@[k]).0@ == map.entries@[k].0@
                                && copies@[k].1@ == map.entries@[k].1@,
                    decreases map.entries.len() - i,
                {
                    assert(decreases_to!(*self => self->Object_0));
                    assert(decreases_to!(self->Object_0 => self->Object_0.entries));
                    assert(decreases_to!(map.entries@ => map.entries@[i as int]));
                    assert(decreases_to!(map.entries@[i as int] => map.entries@[i as int].1));
                    copies.push((map.entries[i].0.clone(), map.entries[i].1.clone()));
                    i += 1;
                }
                let copy = JsonMap { entries: copies };
                proof {
                    object_view(copy);
                    object_view(*map);
                    assert(copy@ == map@);
                }
                Json::Object(copy)
            },
        }
    }
}

impl Clone for JsonMap {
    fn clone(&self) -> (copy: Self)
        ensures
            copy@ == self@,
    {
        let mut copies: Vec<(String, Json)> = Vec::new();
        let mut i: usize = 0;
        while i < self.entries.len()
            invariant
                i <= self.entries.len(),
                copies.len() == i,
                forall|k: int|
                    0 <= k < i ==> (#[trigger] copies@[k]).0@ == self.entries@[k].0@
                        && copies@[k].1@ == self.entries@[k].1@,
            decreases self.entries.len() - i,
        {
            copies.push((self.entries[i].0.clone(), self.entries[i].1.clone()));
            i += 1;
        }
        let copy = JsonMap { entries: copies };
        assert(copy@ == self@);
        copy
    }
}

// ---------------------------------------------------------------------------
// Parsing and printing
// ---------------------------------------------------------------------------

/// What a `serde_json::Value` holds.
pub uninterp spec fn value_model(value: serde_json::Value) -> JsonModel;

/// The `serde_json::Value` that holds what `json` holds.
pub uninterp spec fn value_of(json: JsonModel) -> serde_json::Value;

/// What `serde_json::from_str::<serde_json::Value>` returns for a text.
pub uninterp spec fn parse_outcome(text: Seq<char>) -> Result<
    serde_json::Value,
    serde_json::Error,
>;

/// How a `serde_json::Error` displays.
pub uninterp spec fn error_text(error: serde_json::Error) -> Seq<char>;

/// What `serde_json::to_string_pretty` returns for a value, if it succeeds.
pub uninterp spec fn pretty_text(value: serde_json::Value) -> Option<Seq<char>>;

/// What `serde_json::to_string` returns for a string, if it succeeds.
pub uninterp spec fn quoted_text(text: Seq<char>) -> Option<Seq<char>>;

/// Takes a `serde_json::Value` apart, node by node: integers of 64 bits become
/// plain integers, the members of an object keep the order of its map.
#[verifier::external_body]
pub(crate) fn json_from_value(value: serde_json::Value) -> (json: Json)
    ensures
        json@ == value_model(value),
{
    match value {
        serde_json::Value::Null => Json::Null,
        serde_json::Value::Bool(b) => Json::Bool(b),
        serde_json::Value::Number(n) => Json::Number(match (n.as_u64(), n.as_i64()) {
            (Some(natural), _) => JsonNumber::Natural(natural),
            (None, Some(negative)) => JsonNumber::Negative(negative),
            (None, None) => JsonNumber::Other(n),
        }),
        serde_json::Value::String(t) => Json::Text(t),
        serde_json::Value::Array(a) => Json::Array(a.into_iter().map(json_from_value).collect()),
        serde_json::Value::Object(map) => Json::Object(JsonMap {
            entries: map.into_iter().map(|(k, v)| (k, json_from_value(v))).collect(),
        }),
    }
}

/// Whether a JSON value stands as it is read: its numbers are integers of 64
/// bits, those below zero kept as such, and the keys of its objects stand in
/// their order.
pub open spec fn is_plain(json: JsonModel) -> bool
    decreases json,
{
    match json {
        JsonModel::Number(JsonNumber::Negative(n)) => n < 0,
        JsonModel::Number(JsonNumber::Other(_)) => false,
        JsonModel::Array(items) => forall|i: int|
            0 <= i < items.len() ==> is_plain(#[trigger] items[i]),
        JsonModel::Object(members) => in_key_order(members) && forall|i: int|
            0 <= i < members.len() ==> is_plain((#[trigger] members[i]).1),
        _ => true,
    }
}

/// Whether arrays and objects stand in one another at most `levels` deep.
pub open spec fn is_shallow(json: JsonModel, levels: nat) -> bool
    decreases json,
{
    match json {
        JsonModel::Array(items) => levels > 0 && forall|i: int|
            0 <= i < items.len() ==> is_shallow(#[trigger] items[i], (levels - 1) as nat),
        JsonModel::Object(members) => levels > 0 && forall|i: int|
            0 <= i < members.len() ==> is_shallow(
                (#[trigger] members[i]).1,
                (levels - 1) as nat,
            ),
        _ => true,
    }
}

/// How deep arrays and objects may stand in one another for `serde_json` to
/// parse them.
pub const MAX_DEPTH: usize = 127;

/// Whether a JSON value reads back when it is printed: it is plain and not too
/// deep.
pub open spec fn can_read_back(json: JsonModel) -> bool {
    is_plain(json) && is_shallow(json, MAX_DEPTH as nat)
}

/// Whether a value that can be read back was printed, and reads back.
pub open spec fn printed_to_read(
    value: serde_json::Value,
    text: Result<String, serde_json::Error>,
) -> bool {
    can_read_back(value_model(value)) ==> match text {
        Ok(t) => parse_outcome(t@) is Ok && value_model(parse_outcome(t@)->Ok_0) == value_model(
            value,
        ),
        Err(_) => false,
    }
}

/// Builds the `serde_json::Value` of a JSON value, node by node. Taken apart
/// again, a plain one is what it was.
#[verifier::external_body]
pub(crate) fn value_from_json(json: &Json) -> (value: serde_json::Value)
    ensures
        value == value_of(json@),
        is_plain(json@) ==> value_model(value) == json@,
{
    match json {
        Json::Null => serde_json::Value::Null,
        Json::Bool(b) => serde_json::Value::Bool(*b),
        Json::Number(JsonNumber::Natural(n)) => serde_json::Value::from(*n),
        Json::Number(JsonNumber::Negative(n)) => serde_json::Value::from(*n),
        Json::Number(JsonNumber::Other(n)) => serde_json::Value::Number(n.clone()),
        Json::Text(t) => serde_json::Value::String(t.clone()),
        Json::Array(a) => serde_json::Value::Array(a.iter().map(value_from_json).collect()),
        Json::Object(map) => serde_json::Value::Object(
            map.entries.iter().map(|(k, v)| (k.clone(), value_from_json(v))).collect(),
        ),
    }
}

/// Calls `serde_json::from_str::<serde_json::Value>`; the outcome depends on
/// the text alone.
#[verifier::external_body]
fn parse_value(text: &str) -> (outcome: Result<serde_json::Value, serde_json::Error>)
    ensures
        outcome == parse_outcome(text@),
{
    serde_json::from_str(text)
}

/// Calls `ToString::to_string` on a `serde_json::Error`.
#[verifier::external_body]
pub(crate) fn json_error_text(error: &serde_json::Error) -> (text: String)
    ensures
        text@ == error_text(*error),
{
    error.to_string()
}

/// Calls `serde_json::to_string_pretty` on a `serde_json::Value`; the text
/// depends on the value alone. `serde_json::from_str` reads back what was
/// printed, if it holds no number but integers of 64 bits and is not too deep
/// for the parser.
#[verifier::external_body]
fn pretty_value(value: &serde_json::Value) -> (text: Result<String, serde_json::Error>)
    ensures
        match text {
            Ok(t) => pretty_text(*value) == Some(t@),
            Err(_) => pretty_text(*value) is None,
        },
        printed_to_read(*value, text),
{
    serde_json::to_string_pretty(value)
}

/// Calls `serde_json::to_string` on a string: the string literal of JSON for
/// it, which depends on the string alone.
#[verifier::external_body]
fn quote_text(text: &str) -> (quoted: Result<String, serde_json::Error>)
    ensures
        match quoted {
            Ok(q) => quoted_text(text@) == Some(q@),
            Err(_) => quoted_text(text@) is None,
        },
{
    serde_json::to_string(text)
}

/// What parsing a text gives: a JSON value, or the message of the parser.
pub open spec fn parsed_json(text: Seq<char>) -> Result<JsonModel, Seq<char>> {
    match parse_outcome(text) {
        Ok(value) => Ok(value_model(value)),
        Err(error) => Err(error_text(error)),
    }
}

/// Parses a JSON text.
pub fn parse_json(text: &str) -> (outcome: Result<Json, String>)
    ensures
        match outcome {
            Ok(json) => parsed_json(text@) == Ok::<JsonModel, Seq<char>>(json@),
            Err(message) => parsed_json(text@) == Err::<JsonModel, Seq<char>>(message@),
        },
{
    match parse_value(text) {
        Ok(value) => Ok(json_from_value(value)),
        Err(error) => Err(json_error_text(&error)),
    }
}

/// The text of a JSON value over several lines; `None` where the printer fails.
pub open spec fn printed_json(json: JsonModel) -> Option<Seq<char>> {
    pretty_text(value_of(json))
}

/// Prints a JSON value over several lines; `None` where the printer fails. What
/// can be read back is printed, and parsing the text gives it again.
pub fn print_pretty(json: &Json) -> (text: Option<String>)
    ensures
        crate::text::text_view(text) == printed_json(json@),
        can_read_back(json@) ==> text is Some,
        can_read_back(json@) ==> parsed_json(text->0@) == Ok::<JsonModel, Seq<char>>(json@),
{
    let value = value_from_json(json);
    match pretty_value(&value) {
        Ok(text) => Some(text),
        Err(_) => None,
    }
}

/// What `serde_json::to_string_pretty` returns for an ordered map of members,
/// if it succeeds.
pub uninterp spec fn ordered_text(members: Seq<(Seq<char>, JsonModel)>) -> Option<Seq<char>>;

/// Calls `serde_json::to_string_pretty` on an `indexmap::IndexMap` of the
/// members, which keeps their order.
#[verifier::external_body]
fn pretty_members(members: &JsonMap) -> (text: Result<String, serde_json::Error>)
    ensures
        match text {
            Ok(t) => ordered_text(members@) == Some(t@),
            Err(_) => ordered_text(members@) is None,
        },
{
    let map: indexmap::IndexMap<String, serde_json::Value> =
        members.entries.iter().map(|(k, v)| (k.clone(), value_from_json(v))).collect();
    serde_json::to_string_pretty(&map)
}

/// Prints the members of an object over several lines, in their order; `None`
/// where the printer fails.
pub fn print_members(members: &JsonMap) -> (text: Option<String>)
    ensures
        crate::text::text_view(text) == ordered_text(members@),
{
    match pretty_members(members) {
        Ok(text) => Some(text),
        Err(_) => None,
    }
}

/// The JSON string literal of a text; an empty literal where the printer
/// fails.
pub open spec fn string_literal(text: Seq<char>) -> Seq<char> {
    match quoted_text(text) {
        Some(quoted) => quoted,
        None => "\"\""@,
    }
}

/// The JSON string literal of a text.
pub fn print_string_literal(text: &str) -> (literal: String)
    ensures
        literal@ == string_literal(text@),
{
    match quote_text(text) {
        Ok(quoted) => quoted,
        Err(_) => "\"\"".to_owned(),
    }
}

} // verus!
