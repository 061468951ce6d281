//! What reading the metadata gives back of what was written to it.
use vstd::prelude::*;

use crate::fixtures::{fixture_index, with_fixture, FixtureModel};
use crate::json::{
    in_key_order, member, member_at, member_index, member_index_is_first, member_index_unique,
    member_of_with_member, member_of_without_member, order_index, order_index_is_first, with_member,
    with_member_keeps_order, without_member, JsonModel,
};
use crate::metadata::{
    addressed, data_in, data_of, empty_data, fixture_json, fixture_list, fixture_members,
    fixture_of, fixtures_json, fixtures_of, nb_members, optional_fixtures_json, optional_test_json,
    optional_text_json, sha_json, sha_of, shas_json, shas_of, test_json, test_of, unknown_members,
    with_field, with_nb_members, with_optional_field, without_field, writable, DataModel, ShaModel,
    TestModel, METADATA_KEY,
};
use crate::text::{text_less, text_less_irreflexive};

verus! {

/// Whether the metadata of a cell is absent or well formed.
pub open spec fn well_formed(additional: Seq<(Seq<char>, JsonModel)>) -> bool {
    writable(additional) && data_of(JsonModel::Object(nb_members(additional))) is Some
}

/// The metadata of a cell, empty if there is none.
pub open spec fn data_or_empty(additional: Seq<(Seq<char>, JsonModel)>) -> DataModel {
    match data_in(additional) {
        Some(data) => data,
        None => empty_data(),
    }
}

/// The names of the known fields differ.
pub proof fn field_names_differ()
    ensures
        "fixtures"@ != "diff"@,
        "fixtures"@ != "test"@,
        "fixtures"@ != "shas"@,
        "diff"@ != "test"@,
        "diff"@ != "shas"@,
        "test"@ != "shas"@,
{
    reveal_strlit("fixtures");
    reveal_strlit("diff");
    reveal_strlit("test");
    reveal_strlit("shas");
    assert("diff"@[0] == 'd');
    assert("test"@[0] == 't');
    assert("shas"@[0] == 's');
}

// ---------------------------------------------------------------------------
// Single values
// ---------------------------------------------------------------------------

/// The members of a two-member object, by key.
proof fn pair_members(
    key: Seq<char>,
    value: JsonModel,
    other_key: Seq<char>,
    other_value: JsonModel,
)
    requires
        key != other_key,
    ensures
        member(seq![(key, value), (other_key, other_value)], key) == Some(value),
        member(seq![(key, value), (other_key, other_value)], other_key) == Some(other_value),
{
    let members = seq![(key, value), (other_key, other_value)];
    member_index_unique(members, key, 0);
    member_index_unique(members, other_key, 1);
}

/// A test reads back from the JSON that is written for it.
pub proof fn test_reads_back(test: TestModel)
    ensures
        test_of(test_json(test)) == Some(test),
{
    reveal_strlit("name");
    reveal_strlit("source");
    assert("name"@.len() != "source"@.len());
    pair_members(
        "name"@,
        JsonModel::Text(test.name),
        "source"@,
        JsonModel::Text(test.source),
    );
}

/// A recorded SHA reads back from the JSON that is written for it.
pub proof fn sha_reads_back(entry: ShaModel)
    ensures
        sha_of(sha_json(entry)) == Some(entry),
{
    reveal_strlit("cell_id");
    reveal_strlit("sha");
    assert("cell_id"@.len() != "sha"@.len());
    pair_members(
        "cell_id"@,
        JsonModel::Text(entry.cell_id),
        "sha"@,
        JsonModel::Text(entry.sha),
    );
}

/// Recorded SHAs read back from the JSON that is written for them.
pub proof fn shas_read_back(shas: Seq<ShaModel>)
    ensures
        shas_of(shas_json(shas)) == Some(shas),
    decreases shas.len(),
{
    let items = shas.map_values(|entry: ShaModel| sha_json(entry));
    if shas.len() == 0 {
        assert(shas =~= Seq::empty());
    } else {
        shas_read_back(shas.drop_last());
        sha_reads_back(shas.last());
        assert(items.drop_last() =~= shas.drop_last().map_values(|entry: ShaModel| sha_json(entry)));
        assert(items.last() == sha_json(shas.last()));
        assert(shas.drop_last().push(shas.last()) =~= shas);
    }
}

/// A fixture reads back from the JSON that is written for it.
pub proof fn fixture_reads_back(fixture: FixtureModel)
    ensures
        fixture_of(fixture_json(fixture)) == Some(fixture),
{
    reveal_strlit("description");
    reveal_strlit("priority");
    reveal_strlit("source");
    let members = fixture_json(fixture)->Object_0;
    assert(members[0].0 == "description"@);
    assert(members[1].0 == "priority"@);
    assert(members[2].0 == "source"@);
    assert("description"@.len() == 11);
    assert("priority"@.len() == 8);
    assert("source"@.len() == 6);
    member_index_unique(members, "description"@, 0);
    member_index_unique(members, "priority"@, 1);
    member_index_unique(members, "source"@, 2);
}

// ---------------------------------------------------------------------------
// Fixtures by name
// ---------------------------------------------------------------------------

/// The fixture `name`, if there is one.
pub open spec fn fixture_named(
    entries: Seq<(Seq<char>, FixtureModel)>,
    name: Seq<char>,
) -> Option<FixtureModel> {
    let at = fixture_index(entries, name);
    if at < entries.len() {
        Some(entries[at].1)
    } else {
        None
    }
}

/// Whether no name stands twice.
pub open spec fn names_differ(entries: Seq<(Seq<char>, FixtureModel)>) -> bool {
    forall|i: int, j: int|
        0 <= i < j < entries.len() ==> (#[trigger] entries[i]).0 != (#[trigger] entries[j]).0
}

/// Whether the names stand in their order, each once.
pub open spec fn in_name_order(entries: Seq<(Seq<char>, FixtureModel)>) -> bool {
    forall|i: int, j: int|
        0 <= i < j < entries.len() ==> text_less(
            (#[trigger] entries[i]).0,
            (#[trigger] entries[j]).0,
        )
}

pub proof fn fixture_index_is_first(entries: Seq<(Seq<char>, FixtureModel)>, name: Seq<char>)
    ensures
        0 <= fixture_index(entries, name) <= entries.len(),
        fixture_index(entries, name) < entries.len() ==> entries[fixture_index(entries, name)].0
            == name,
        forall|i: int| 0 <= i < fixture_index(entries, name) ==> (#[trigger] entries[i]).0 != name,
    decreases entries.len(),
{
    if entries.len() > 0 && entries[0].0 != name {
        let rest = entries.drop_first();
        fixture_index_is_first(rest, name);
        assert forall|i: int| 0 <= i < fixture_index(entries, name) implies (
        #[trigger] entries[i]).0 != name by {
            if i > 0 {
                assert(rest[i - 1] == entries[i]);
            }
        }
    }
}

pub proof fn fixture_index_unique(entries: Seq<(Seq<char>, FixtureModel)>, name: Seq<char>, at: int)
    requires
        0 <= at <= entries.len(),
        at < entries.len() ==> entries[at].0 == name,
        forall|i: int| 0 <= i < at ==> (#[trigger] entries[i]).0 != name,
    ensures
        fixture_index(entries, name) == at,
{
    fixture_index_is_first(entries, name);
    let found = fixture_index(entries, name);
    if found < at {
        assert(entries[found].0 == name);
    }
}

/// Setting a fixture gives its name the new fixture, leaves the others as they
/// were and makes no name stand twice.
pub proof fn fixture_named_after_set(
    entries: Seq<(Seq<char>, FixtureModel)>,
    name: Seq<char>,
    fixture: FixtureModel,
    other: Seq<char>,
)
    requires
        names_differ(entries),
    ensures
        fixture_named(with_fixture(entries, name, fixture), other) == if other == name {
            Some(fixture)
        } else {
            fixture_named(entries, other)
        },
        names_differ(with_fixture(entries, name, fixture)),
{
    let after = with_fixture(entries, name, fixture);
    let at = fixture_index(entries, name);
    fixture_index_is_first(entries, name);
    fixture_index_is_first(entries, other);
    let asked = fixture_index(entries, other);
    if at < entries.len() {
        assert forall|i: int| 0 <= i < asked implies (#[trigger] after[i]).0 != other by {
            assert(entries[i].0 != other);
        }
        fixture_index_unique(after, other, asked);
        assert forall|i: int, j: int| 0 <= i < j < after.len() implies (#[trigger] after[i]).0 != (
        #[trigger] after[j]).0 by {
            assert(after[i].0 == entries[i].0);
            assert(after[j].0 == entries[j].0);
        }
    } else {
        assert forall|i: int| 0 <= i < asked implies (#[trigger] after[i]).0 != other by {
            assert(entries[i].0 != other);
        }
        if other != name && asked == entries.len() {
            assert forall|i: int| 0 <= i < asked + 1 implies (#[trigger] after[i]).0 != other by {
                if i < entries.len() {
                    assert(entries[i].0 != other);
                }
            }
            fixture_index_unique(after, other, asked + 1);
        } else {
            fixture_index_unique(after, other, asked);
        }
        assert forall|i: int, j: int| 0 <= i < j < after.len() implies (#[trigger] after[i]).0 != (
        #[trigger] after[j]).0 by {
            assert(after[i] == entries[i]);
            if j < entries.len() {
                assert(after[j] == entries[j]);
            }
        }
    }
}

/// The member of a fixture in the JSON object of fixtures, and its order.
pub proof fn fixture_members_by_name(entries: Seq<(Seq<char>, FixtureModel)>, name: Seq<char>)
    requires
        names_differ(entries),
    ensures
        in_key_order(fixture_members(entries)),
        member(fixture_members(entries), name) == match fixture_named(entries, name) {
            Some(f) => Some(fixture_json(f)),
            None => None,
        },
    decreases entries.len(),
{
    fixture_index_is_first(entries, name);
    if entries.len() > 0 {
        let front = entries.drop_last();
        let last = entries.last();
        assert(names_differ(front));
        fixture_members_by_name(front, name);
        fixture_members_by_name(front, last.0);
        with_member_keeps_order(fixture_members(front), last.0, fixture_json(last.1));
        member_of_with_member(fixture_members(front), last.0, fixture_json(last.1), name);
        fixture_index_is_first(front, name);
        let at = fixture_index(front, name);
        if last.0 == name {
            assert forall|i: int| 0 <= i < front.len() implies (#[trigger] entries[i]).0
                != name by {
                assert(entries[i].0 != entries[entries.len() - 1].0);
            }
            fixture_index_unique(entries, name, entries.len() - 1);
        } else if at < front.len() {
            assert forall|i: int| 0 <= i < at implies (#[trigger] entries[i]).0 != name by {
                assert(front[i] == entries[i]);
            }
            assert(entries[at] == front[at]);
            fixture_index_unique(entries, name, at);
        } else {
            assert forall|i: int| 0 <= i < entries.len() implies (#[trigger] entries[i]).0
                != name by {
                if i < front.len() {
                    assert(front[i] == entries[i]);
                }
            }
            fixture_index_unique(entries, name, entries.len() as int);
        }
    }
}

/// Members in key order whose values are all fixtures read back as a list with
/// the same names.
proof fn fixture_list_in_order(members: Seq<(Seq<char>, JsonModel)>)
    requires
        in_key_order(members),
        forall|i: int| 0 <= i < members.len() ==> fixture_of((#[trigger] members[i]).1) is Some,
    ensures
        fixture_list(members) == Some(
            Seq::new(
                members.len(),
                |i: int| (members[i].0, fixture_of(members[i].1)->0),
            ),
        ),
    decreases members.len(),
{
    let all = Seq::new(members.len(), |i: int| (members[i].0, fixture_of(members[i].1)->0));
    if members.len() == 0 {
        assert(all =~= Seq::empty());
    } else {
        let front = members.drop_last();
        assert forall|i: int| 0 <= i < front.len() implies fixture_of(
            (#[trigger] front[i]).1,
        ) is Some by {
            assert(front[i] == members[i]);
        }
        fixture_list_in_order(front);
        let head = Seq::new(front.len(), |i: int| (front[i].0, fixture_of(front[i].1)->0));
        let last = members.last();
        assert(fixture_of(members[members.len() - 1].1) is Some);
        assert forall|i: int| 0 <= i < head.len() implies (#[trigger] head[i]).0 != last.0 by {
            assert(text_less(members[i].0, members[members.len() - 1].0));
            text_less_irreflexive(last.0);
        }
        fixture_index_unique(head, last.0, head.len() as int);
        assert(head.push((last.0, fixture_of(last.1)->0)) =~= all);
    }
}

/// Fixtures read back from the JSON that is written for them: the same
/// fixtures under the same names, in the order of the names.
pub proof fn fixtures_read_back(entries: Seq<(Seq<char>, FixtureModel)>)
    requires
        names_differ(entries),
    ensures
        fixtures_of(fixtures_json(entries)) is Some,
        in_name_order(fixtures_of(fixtures_json(entries))->0),
        forall|name: Seq<char>|
            #[trigger] fixture_named(fixtures_of(fixtures_json(entries))->0, name)
                == fixture_named(entries, name),
{
    let members = fixture_members(entries);
    fixture_members_by_name(entries, Seq::empty());
    assert forall|i: int| 0 <= i < members.len() implies fixture_of(
        (#[trigger] members[i]).1,
    ) is Some by {
        member_at(members, i);
        fixture_members_by_name(entries, members[i].0);
        let f = fixture_named(entries, members[i].0)->0;
        fixture_reads_back(f);
    }
    fixture_list_in_order(members);
    let read = fixtures_of(fixtures_json(entries))->0;
    assert forall|name: Seq<char>|
        #[trigger] fixture_named(read, name) == fixture_named(entries, name) by {
        fixture_members_by_name(entries, name);
        member_index_is_first(members, name);
        let at = member_index(members, name);
        assert forall|i: int| 0 <= i < at implies (#[trigger] read[i]).0 != name by {
            assert(members[i].0 != name);
        }
        fixture_index_unique(read, name, at);
        if at < members.len() {
            let f = fixture_named(entries, name)->0;
            fixture_reads_back(f);
        }
    }
}

/// Fixtures whose names stand in order read back just as they are.
pub proof fn ordered_fixtures_read_back(entries: Seq<(Seq<char>, FixtureModel)>)
    requires
        in_name_order(entries),
    ensures
        fixtures_of(fixtures_json(entries)) == Some(entries),
    decreases entries.len(),
{
    assert forall|i: int, j: int| 0 <= i < j < entries.len() implies (#[trigger] entries[i]).0 != (
    #[trigger] entries[j]).0 by {
        text_less_irreflexive(entries[j].0);
    }
    fixture_members_are_mapped(entries);
    let members = fixture_members(entries);
    assert forall|i: int, j: int| 0 <= i < j < members.len() implies text_less(
        (#[trigger] members[i]).0,
        (#[trigger] members[j]).0,
    ) by {
        assert(text_less(entries[i].0, entries[j].0));
    }
    assert forall|i: int| 0 <= i < members.len() implies fixture_of(
        (#[trigger] members[i]).1,
    ) is Some by {
        fixture_reads_back(entries[i].1);
    }
    fixture_list_in_order(members);
    let read = Seq::new(members.len(), |i: int| (members[i].0, fixture_of(members[i].1)->0));
    assert forall|i: int| 0 <= i < entries.len() implies read[i] == entries[i] by {
        fixture_reads_back(entries[i].1);
    }
    assert(read =~= entries);
}

/// In name order the members of the JSON object stand as the fixtures do.
proof fn fixture_members_are_mapped(entries: Seq<(Seq<char>, FixtureModel)>)
    requires
        in_name_order(entries),
    ensures
        fixture_members(entries) == Seq::new(
            entries.len(),
            |i: int| (entries[i].0, fixture_json(entries[i].1)),
        ),
    decreases entries.len(),
{
    let all = Seq::new(entries.len(), |i: int| (entries[i].0, fixture_json(entries[i].1)));
    if entries.len() == 0 {
        assert(all =~= Seq::empty());
    } else {
        let front = entries.drop_last();
        let last = entries.last();
        fixture_members_are_mapped(front);
        let members = fixture_members(front);
        assert forall|i: int| 0 <= i < members.len() implies (#[trigger] members[i]).0 != last.0
            && !text_less(last.0, members[i].0) by {
            assert(text_less(entries[i].0, entries[entries.len() - 1].0));
            text_less_irreflexive(last.0);
            if text_less(last.0, members[i].0) {
                crate::text::text_less_transitive(last.0, members[i].0, last.0);
            }
        }
        member_index_unique(members, last.0, members.len() as int);
        order_index_is_first(members, last.0);
        let place = order_index(members, last.0);
        if place < members.len() {
            assert(text_less(last.0, members[place].0));
        }
        assert(members.insert(members.len() as int, (last.0, fixture_json(last.1))) =~= all);
    }
}

// ---------------------------------------------------------------------------
// Fields
// ---------------------------------------------------------------------------

/// Two removals may be done in either order.
proof fn without_member_commutes(
    entries: Seq<(Seq<char>, JsonModel)>,
    one: Seq<char>,
    other: Seq<char>,
)
    ensures
        without_member(without_member(entries, one), other) == without_member(
            without_member(entries, other),
            one,
        ),
    decreases entries.len(),
{
    if entries.len() > 0 {
        let rest = entries.drop_first();
        without_member_commutes(rest, one, other);
        let a = without_member(rest, one);
        let b = without_member(rest, other);
        assert((seq![entries[0]] + a).drop_first() =~= a);
        assert((seq![entries[0]] + b).drop_first() =~= b);
    }
}

/// Removing a member that is not there changes nothing; removing one twice is
/// removing it once.
proof fn without_absent_member(entries: Seq<(Seq<char>, JsonModel)>, key: Seq<char>)
    requires
        forall|i: int| 0 <= i < entries.len() ==> (#[trigger] entries[i]).0 != key,
    ensures
        without_member(entries, key) == entries,
    decreases entries.len(),
{
    if entries.len() > 0 {
        let rest = entries.drop_first();
        assert forall|i: int| 0 <= i < rest.len() implies (#[trigger] rest[i]).0 != key by {
            assert(rest[i] == entries[i + 1]);
        }
        without_absent_member(rest, key);
        assert(entries[0].0 != key);
        assert(seq![entries[0]] + rest =~= entries);
    }
}

/// Removal works piece by piece.
proof fn without_member_of_sum(
    a: Seq<(Seq<char>, JsonModel)>,
    b: Seq<(Seq<char>, JsonModel)>,
    key: Seq<char>,
)
    ensures
        without_member(a + b, key) == without_member(a, key) + without_member(b, key),
    decreases a.len(),
{
    if a.len() == 0 {
        assert(a + b =~= b);
        assert(without_member(a, key) + without_member(b, key) =~= without_member(b, key));
    } else {
        let rest = a.drop_first();
        without_member_of_sum(rest, b, key);
        assert((a + b).drop_first() =~= rest + b);
        assert((a + b)[0] == a[0]);
        if a[0].0 != key {
            assert(seq![a[0]] + (without_member(rest, key) + without_member(b, key)) =~= (seq![a[0]]
                + without_member(rest, key)) + without_member(b, key));
        }
    }
}

/// Setting a member and then removing it is removing it.
pub proof fn without_member_just_set(
    entries: Seq<(Seq<char>, JsonModel)>,
    key: Seq<char>,
    value: JsonModel,
)
    ensures
        without_member(with_member(entries, key, value), key) == without_member(entries, key),
{
    member_index_is_first(entries, key);
    order_index_is_first(entries, key);
    let at = member_index(entries, key);
    let one = seq![(key, value)];
    assert(one.drop_first() =~= Seq::<(Seq<char>, JsonModel)>::empty());
    assert(without_member(one, key) =~= Seq::<(Seq<char>, JsonModel)>::empty()) by {
        assert(without_member(one.drop_first(), key) =~= Seq::<(Seq<char>, JsonModel)>::empty());
    }
    if at < entries.len() {
        let front = entries.take(at);
        let back = entries.skip(at + 1);
        let was = seq![entries[at]];
        assert(was.drop_first() =~= Seq::<(Seq<char>, JsonModel)>::empty());
        assert(without_member(was, key) =~= Seq::<(Seq<char>, JsonModel)>::empty()) by {
            assert(without_member(was.drop_first(), key) =~= Seq::<
                (Seq<char>, JsonModel),
            >::empty());
        }
        assert(entries =~= front + was + back);
        assert(with_member(entries, key, value) =~= front + one + back);
        without_member_of_sum(front + was, back, key);
        without_member_of_sum(front, was, key);
        without_member_of_sum(front + one, back, key);
        without_member_of_sum(front, one, key);
    } else {
        let place = order_index(entries, key);
        let front = entries.take(place);
        let back = entries.skip(place);
        assert(entries =~= front + back);
        assert(with_member(entries, key, value) =~= front + one + back);
        without_member_of_sum(front, back, key);
        without_member_of_sum(front + one, back, key);
        without_member_of_sum(front, one, key);
        assert(without_member(front, key) + Seq::<(Seq<char>, JsonModel)>::empty()
            =~= without_member(front, key));
    }
}

/// Removing a member twice is removing it once.
proof fn without_member_twice(entries: Seq<(Seq<char>, JsonModel)>, key: Seq<char>)
    ensures
        without_member(without_member(entries, key), key) == without_member(entries, key),
    decreases entries.len(),
{
    if entries.len() > 0 {
        let rest = entries.drop_first();
        without_member_twice(rest, key);
        let kept = without_member(rest, key);
        assert((seq![entries[0]] + kept).drop_first() =~= kept);
    }
}

/// Whether `key` is the name of a known field.
pub open spec fn known_field(key: Seq<char>) -> bool {
    key == "fixtures"@ || key == "diff"@ || key == "test"@ || key == "shas"@
}

/// What is unknown stays the same when two lists of members differ in one
/// known field only.
proof fn unknown_members_same(
    members: Seq<(Seq<char>, JsonModel)>,
    changed: Seq<(Seq<char>, JsonModel)>,
    key: Seq<char>,
)
    requires
        known_field(key),
        without_member(members, key) == without_member(changed, key),
    ensures
        unknown_members(members) == unknown_members(changed),
{
    let f = "fixtures"@;
    let d = "diff"@;
    let t = "test"@;
    let s = "shas"@;
    assert forall|m: Seq<(Seq<char>, JsonModel)>| #[trigger]
        unknown_members(m) == without_member(
            without_member(without_member(without_member(m, key), f), d),
            t,
        ) || key != s by {
        without_member_commutes(m, f, s);
        without_member_commutes(without_member(m, f), d, s);
        without_member_commutes(without_member(without_member(m, f), d), t, s);
    }
    assert forall|m: Seq<(Seq<char>, JsonModel)>| #[trigger]
        unknown_members(m) == without_member(
            without_member(without_member(without_member(m, key), f), d),
            s,
        ) || key != t by {
        without_member_commutes(m, f, t);
        without_member_commutes(without_member(m, f), d, t);
    }
    assert forall|m: Seq<(Seq<char>, JsonModel)>| #[trigger]
        unknown_members(m) == without_member(
            without_member(without_member(without_member(m, key), f), t),
            s,
        ) || key != d by {
        without_member_commutes(m, f, d);
    }
}

/// The members of the metadata object after it is written.
proof fn members_written(
    additional: Seq<(Seq<char>, JsonModel)>,
    members: Seq<(Seq<char>, JsonModel)>,
)
    ensures
        member(with_nb_members(additional, members), METADATA_KEY@) == Some(
            JsonModel::Object(members),
        ),
        nb_members(with_nb_members(additional, members)) == members,
        writable(with_nb_members(additional, members)),
{
    member_of_with_member(
        additional,
        METADATA_KEY@,
        JsonModel::Object(members),
        METADATA_KEY@,
    );
}

/// The members of the metadata object after one of its fields is changed.
proof fn field_changed(
    members: Seq<(Seq<char>, JsonModel)>,
    changed: Seq<(Seq<char>, JsonModel)>,
    key: Seq<char>,
    value: Option<JsonModel>,
)
    requires
        known_field(key),
        changed == match value {
            Some(v) => with_member(members, key, v),
            None => without_member(members, key),
        },
    ensures
        member(changed, key) == value,
        forall|other: Seq<char>|
            other != key ==> #[trigger] member(changed, other) == member(members, other),
        unknown_members(changed) == unknown_members(members),
{
    match value {
        Some(v) => {
            member_of_with_member(members, key, v, key);
            assert forall|other: Seq<char>| other != key implies #[trigger] member(changed, other)
                == member(members, other) by {
                member_of_with_member(members, key, v, other);
            }
            without_member_just_set(members, key, v);
        },
        None => {
            member_of_without_member(members, key, key);
            assert forall|other: Seq<char>| other != key implies #[trigger] member(changed, other)
                == member(members, other) by {
                member_of_without_member(members, key, other);
            }
            without_member_twice(members, key);
        },
    }
    unknown_members_same(members, changed, key);
}

/// The free-form metadata after a field is set or removed, over its members.
proof fn optional_field_written(
    additional: Seq<(Seq<char>, JsonModel)>,
    key: Seq<char>,
    value: Option<JsonModel>,
)
    requires
        writable(additional),
        value is Some || member(additional, METADATA_KEY@) is Some,
    ensures
        member(with_optional_field(additional, key, value), METADATA_KEY@) == Some(
            JsonModel::Object(
                match value {
                    Some(v) => with_member(nb_members(additional), key, v),
                    None => without_member(nb_members(additional), key),
                },
            ),
        ),
{
    let members = match value {
        Some(v) => with_member(nb_members(additional), key, v),
        None => without_member(nb_members(additional), key),
    };
    members_written(additional, members);
}

/// What the members of an absent metadata object hold: nothing.
proof fn data_of_nothing()
    ensures
        data_of(JsonModel::Object(Seq::empty())) == Some(empty_data()),
{
    assert(unknown_members(Seq::empty()) =~= Seq::empty());
}

/// What the members of the metadata object are after a known field is set or
/// removed.
pub proof fn field_is_set(
    additional: Seq<(Seq<char>, JsonModel)>,
    key: Seq<char>,
    value: Option<JsonModel>,
)
    requires
        writable(additional),
        known_field(key),
    ensures
        writable(with_optional_field(additional, key, value)),
        member(nb_members(with_optional_field(additional, key, value)), key) == value,
        forall|other: Seq<char>|
            other != key ==> #[trigger] member(
                nb_members(with_optional_field(additional, key, value)),
                other,
            ) == member(nb_members(additional), other),
{
    let members = nb_members(additional);
    let changed = match value {
        Some(v) => with_member(members, key, v),
        None => without_member(members, key),
    };
    field_changed(members, changed, key, value);
    members_written(additional, changed);
}

/// Whether the metadata of a cell can be written to, and its known fields but
/// for the recorded SHAs are well formed.
pub open spec fn well_formed_but_shas(additional: Seq<(Seq<char>, JsonModel)>) -> bool {
    let members = nb_members(additional);
    &&& writable(additional)
    &&& member(members, "fixtures"@) matches Some(json) ==> fixtures_of(json) is Some
    &&& member(members, "diff"@) matches Some(json) ==> json is Text
    &&& member(members, "test"@) matches Some(json) ==> test_of(json) is Some
}

/// Where only the recorded SHAs may be malformed, recording others makes the
/// metadata well formed.
pub proof fn recorded_shas_read_back(additional: Seq<(Seq<char>, JsonModel)>, shas: Seq<ShaModel>)
    requires
        well_formed_but_shas(additional),
    ensures
        well_formed(with_field(additional, "shas"@, shas_json(shas))),
        data_in(with_field(additional, "shas"@, shas_json(shas))) is Some,
        data_in(with_field(additional, "shas"@, shas_json(shas)))->0.shas == Some(shas),
{
    field_names_differ();
    shas_read_back(shas);
    field_is_set(additional, "shas"@, Some(shas_json(shas)));
    members_written(additional, with_member(nb_members(additional), "shas"@, shas_json(shas)));
}

/// Removing what is no known field leaves the known ones as they are.
pub proof fn unknown_field_removed(additional: Seq<(Seq<char>, JsonModel)>, key: Seq<char>)
    requires
        well_formed(additional),
        !known_field(key),
    ensures
        well_formed(without_field(additional, key)),
        data_in(without_field(additional, key)) is Some <==> data_in(additional) is Some,
        data_or_empty(without_field(additional, key)) == (DataModel {
            extra: without_member(data_or_empty(additional).extra, key),
            ..data_or_empty(additional)
        }),
        member(nb_members(without_field(additional, key)), key) is None,
{
    let members = nb_members(additional);
    let changed = without_member(members, key);
    let f = "fixtures"@;
    let d = "diff"@;
    let t = "test"@;
    let s = "shas"@;
    members_written(additional, changed);
    member_of_without_member(members, key, key);
    member_of_without_member(members, key, f);
    member_of_without_member(members, key, d);
    member_of_without_member(members, key, t);
    member_of_without_member(members, key, s);
    without_member_commutes(members, key, f);
    without_member_commutes(without_member(members, f), key, d);
    without_member_commutes(without_member(without_member(members, f), d), key, t);
    without_member_commutes(
        without_member(without_member(without_member(members, f), d), t),
        key,
        s,
    );
    assert(unknown_members(changed) == without_member(unknown_members(members), key));
    data_of_nothing();
    assert(without_member(Seq::<(Seq<char>, JsonModel)>::empty(), key) =~= Seq::<
        (Seq<char>, JsonModel),
    >::empty());
}

/// A diff that is written reads back, and nothing else of the metadata
/// changes; removing the diff leaves none.
pub proof fn diff_reads_back(additional: Seq<(Seq<char>, JsonModel)>, diff: Option<Seq<char>>)
    requires
        well_formed(additional),
    ensures
        data_or_empty(
            with_optional_field(
                additional,
                "diff"@,
                optional_text_json(diff),
            ),
        ) == (DataModel { diff, ..data_or_empty(additional) }),
        well_formed(
            with_optional_field(
                additional,
                "diff"@,
                optional_text_json(diff),
            ),
        ),
{
    field_names_differ();
    data_of_nothing();
    let value = optional_text_json(diff);
    let members = nb_members(additional);
    if value is Some || member(additional, METADATA_KEY@) is Some {
        optional_field_written(additional, "diff"@, value);
        let changed = match value {
            Some(v) => with_member(members, "diff"@, v),
            None => without_member(members, "diff"@),
        };
        field_changed(members, changed, "diff"@, value);
    }
}

/// A test that is written reads back, and nothing else of the metadata
/// changes; removing the test leaves none.
pub proof fn test_field_reads_back(
    additional: Seq<(Seq<char>, JsonModel)>,
    test: Option<TestModel>,
)
    requires
        well_formed(additional),
    ensures
        data_or_empty(
            with_optional_field(
                additional,
                "test"@,
                optional_test_json(test),
            ),
        ) == (DataModel { test, ..data_or_empty(additional) }),
        well_formed(
            with_optional_field(
                additional,
                "test"@,
                optional_test_json(test),
            ),
        ),
{
    field_names_differ();
    data_of_nothing();
    if test is Some {
        test_reads_back(test->0);
    }
    let value = optional_test_json(test);
    let members = nb_members(additional);
    if value is Some || member(additional, METADATA_KEY@) is Some {
        optional_field_written(additional, "test"@, value);
        let changed = match value {
            Some(v) => with_member(members, "test"@, v),
            None => without_member(members, "test"@),
        };
        field_changed(members, changed, "test"@, value);
    }
}

/// Recorded SHAs that are written read back, and nothing else of the metadata
/// changes.
pub proof fn shas_field_reads_back(additional: Seq<(Seq<char>, JsonModel)>, shas: Seq<ShaModel>)
    requires
        well_formed(additional),
    ensures
        data_or_empty(with_field(additional, "shas"@, shas_json(shas))) == (DataModel {
            shas: Some(shas),
            ..data_or_empty(additional)
        }),
        well_formed(with_field(additional, "shas"@, shas_json(shas))),
{
    field_names_differ();
    data_of_nothing();
    shas_read_back(shas);
    let value = Some(shas_json(shas));
    let members = nb_members(additional);
    optional_field_written(additional, "shas"@, value);
    field_changed(members, with_member(members, "shas"@, shas_json(shas)), "shas"@, value);
}

/// Fixtures that are written read back under their names, in the order of the
/// names, and nothing else of the metadata changes; removing the fixtures
/// leaves none.
pub proof fn fixtures_field_reads_back(
    additional: Seq<(Seq<char>, JsonModel)>,
    fixtures: Option<Seq<(Seq<char>, FixtureModel)>>,
)
    requires
        well_formed(additional),
        fixtures is Some ==> names_differ(fixtures->0),
    ensures
        ({
            let before = data_or_empty(additional);
            let after = data_or_empty(
                with_optional_field(
                    additional,
                    "fixtures"@,
                    optional_fixtures_json(fixtures),
                ),
            );
            &&& well_formed(
                with_optional_field(
                    additional,
                    "fixtures"@,
                    optional_fixtures_json(fixtures),
                ),
            )
            &&& after == (DataModel { fixtures: after.fixtures, ..before })
            &&& (after.fixtures is Some <==> fixtures is Some)
            &&& fixtures is Some ==> in_name_order(after.fixtures->0) && forall|name: Seq<char>|
                #[trigger] fixture_named(after.fixtures->0, name) == fixture_named(
                    fixtures->0,
                    name,
                )
        }),
{
    field_names_differ();
    data_of_nothing();
    if fixtures is Some {
        fixtures_read_back(fixtures->0);
    }
    let value = optional_fixtures_json(fixtures);
    let members = nb_members(additional);
    if value is Some || member(additional, METADATA_KEY@) is Some {
        optional_field_written(additional, "fixtures"@, value);
        let changed = match value {
            Some(v) => with_member(members, "fixtures"@, v),
            None => without_member(members, "fixtures"@),
        };
        field_changed(members, changed, "fixtures"@, value);
    }
}

/// Marking a cell as addressed gives it metadata without changing any field.
pub proof fn addressed_has_data(additional: Seq<(Seq<char>, JsonModel)>)
    requires
        writable(additional),
    ensures
        data_in(addressed(additional)) is Some,
        data_or_empty(addressed(additional)) == data_or_empty(additional),
        addressed(addressed(additional)) == addressed(additional),
{
    data_of_nothing();
    members_written(additional, nb_members(additional));
    crate::json::with_member_twice(
        additional,
        METADATA_KEY@,
        JsonModel::Object(nb_members(additional)),
        JsonModel::Object(nb_members(additional)),
    );
}

/// Clearing the metadata leaves none, and leaves what else stands beside it.
pub proof fn cleared_has_no_data(additional: Seq<(Seq<char>, JsonModel)>, other: Seq<char>)
    ensures
        data_in(without_member(additional, METADATA_KEY@)) is None,
        other != METADATA_KEY@ ==> member(without_member(additional, METADATA_KEY@), other)
            == member(additional, other),
{
    member_of_without_member(additional, METADATA_KEY@, METADATA_KEY@);
    member_of_without_member(additional, METADATA_KEY@, other);
}

/// Setting a field leaves metadata writable.
pub proof fn with_field_is_writable(
    additional: Seq<(Seq<char>, JsonModel)>,
    members: Seq<(Seq<char>, JsonModel)>,
)
    ensures
        writable(with_nb_members(additional, members)),
{
    member_of_with_member(
        additional,
        METADATA_KEY@,
        JsonModel::Object(members),
        METADATA_KEY@,
    );
}

/// Removing or setting a field leaves metadata writable.
pub proof fn optional_field_is_writable(
    additional: Seq<(Seq<char>, JsonModel)>,
    key: Seq<char>,
    value: Option<JsonModel>,
)
    requires
        writable(additional),
    ensures
        writable(with_optional_field(additional, key, value)),
{
    match value {
        Some(v) => with_field_is_writable(
            additional,
            with_member(nb_members(additional), key, v),
        ),
        None => {
            if member(additional, METADATA_KEY@) is Some {
                with_field_is_writable(
                    additional,
                    without_member(nb_members(additional), key),
                );
            }
        },
    }
}

/// Fixtures, tests and recorded SHAs are also read from lists of their fields, in
/// the order of the fields.
pub proof fn lists_of_fields_are_read(
    description: Seq<char>,
    priority: i64,
    source: Seq<char>,
    name: Seq<char>,
    cell_id: Seq<char>,
    sha: Seq<char>,
)
    ensures
        crate::metadata::fixture_of(
            JsonModel::Array(
                seq![
                    JsonModel::Text(description),
                    crate::metadata::integer_json(priority),
                    JsonModel::Text(source),
                ],
            ),
        ) == Some(FixtureModel { description, priority, source }),
        test_of(JsonModel::Array(seq![JsonModel::Text(name), JsonModel::Text(source)])) == Some(
            TestModel { name, source },
        ),
        crate::metadata::sha_of(
            JsonModel::Array(seq![JsonModel::Text(cell_id), JsonModel::Text(sha)]),
        ) == Some(ShaModel { cell_id, sha }),
{
}

/// Source code that is stored in several strings is read as one, in their order.
pub proof fn lines_of_source_are_joined(lines: Seq<Seq<char>>)
    ensures
        crate::metadata::source_of(
            JsonModel::Array(lines.map_values(|line: Seq<char>| JsonModel::Text(line))),
        ) == Some(crate::text::concatenated(lines)),
    decreases lines.len(),
{
    let items = lines.map_values(|line: Seq<char>| JsonModel::Text(line));
    if lines.len() > 0 {
        let front = lines.drop_last();
        lines_of_source_are_joined(front);
        assert(items.drop_last() =~= front.map_values(|line: Seq<char>| JsonModel::Text(line)));
    }
}

} // verus!
