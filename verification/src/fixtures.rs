//! Fixtures of a cell: named pieces of setup code, kept in the order in which
//! they were added and run in the order of their priority.
use indexmap::IndexMap;
use vstd::prelude::*;

verus! {

/// The ordered map of `indexmap`.
#[verifier::external_type_specification]
#[verifier::external_body]
#[verifier::reject_recursive_types(K)]
#[verifier::reject_recursive_types(V)]
#[verifier::reject_recursive_types(S)]
pub struct ExIndexMap<K, V, S>(indexmap::IndexMap<K, V, S>);

/// Setup code that prepares the state a cell needs.
#[derive(Debug, PartialEq)]
pub struct Fixture {
    pub description: String,
    pub priority: i64,
    pub source: String,
}

/// What a fixture holds.
pub struct FixtureModel {
    pub description: Seq<char>,
    pub priority: i64,
    pub source: Seq<char>,
}

impl View for Fixture {
    type V = FixtureModel;

    open spec fn view(&self) -> FixtureModel {
        FixtureModel {
            description: self.description@,
            priority: self.priority,
            source: self.source@,
        }
    }
}

impl Clone for Fixture {
    fn clone(&self) -> (copy: Self)
        ensures
            copy == *self,
    {
        Fixture {
            description: self.description.clone(),
            priority: self.priority,
            source: self.source.clone(),
        }
    }
}

/// Fixtures by name.
pub type FixtureMap = IndexMap<String, Fixture>;

// ---------------------------------------------------------------------------
// The map of fixtures
// ---------------------------------------------------------------------------

/// The names and fixtures that a map holds, in its order.
pub uninterp spec fn fixture_entries(map: IndexMap<String, Fixture>) -> Seq<
    (Seq<char>, FixtureModel),
>;

/// The position of the fixture `name`, or the number of fixtures if there is
/// none.
pub open spec fn fixture_index(entries: Seq<(Seq<char>, FixtureModel)>, name: Seq<char>) -> int
    decreases entries.len(),
{
    if entries.len() == 0 || entries[0].0 == name {
        0
    } else {
        1 + fixture_index(entries.drop_first(), name)
    }
}

/// The fixtures with `name` set: one that is there keeps its place, a new one
/// comes last.
pub open spec fn with_fixture(
    entries: Seq<(Seq<char>, FixtureModel)>,
    name: Seq<char>,
    fixture: FixtureModel,
) -> Seq<(Seq<char>, FixtureModel)> {
    let at = fixture_index(entries, name);
    if at < entries.len() {
        entries.update(at, (name, fixture))
    } else {
        entries.push((name, fixture))
    }
}

/// The fixtures without `name`; the others keep their order.
pub open spec fn without_fixture(
    entries: Seq<(Seq<char>, FixtureModel)>,
    name: Seq<char>,
) -> Seq<(Seq<char>, FixtureModel)> {
    let at = fixture_index(entries, name);
    if at < entries.len() {
        entries.remove(at)
    } else {
        entries
    }
}

/// Calls `IndexMap::new`: the map is empty.
#[verifier::external_body]
pub(crate) fn new_fixtures() -> (map: FixtureMap)
    ensures
        fixture_entries(map) == Seq::<(Seq<char>, FixtureModel)>::empty(),
{
    IndexMap::new()
}

/// Calls `IndexMap::insert`: a key that is there keeps its place and gets the
/// new value, a new key comes last.
#[verifier::external_body]
pub(crate) fn insert_fixture(map: &mut FixtureMap, name: String, fixture: Fixture)
    ensures
        fixture_entries(*final(map)) == with_fixture(
            fixture_entries(*old(map)),
            name@,
            fixture@,
        ),
{
    map.insert(name, fixture);
}

/// Calls `IndexMap::shift_remove`: the key leaves, the others keep their
/// order.
#[verifier::external_body]
pub(crate) fn remove_fixture(map: &mut FixtureMap, name: &str)
    ensures
        fixture_entries(*final(map)) == without_fixture(fixture_entries(*old(map)), name@),
{
    map.shift_remove(name);
}

/// Calls `IndexMap::len`: the number of keys.
#[verifier::external_body]
pub(crate) fn fixture_count(map: &FixtureMap) -> (count: usize)
    ensures
        count == fixture_entries(*map).len(),
{
    map.len()
}

/// Calls `IndexMap::get_index`: the key and the value at a position, `None`
/// past the end.
#[verifier::external_body]
pub(crate) fn fixture_at(map: &FixtureMap, index: usize) -> (entry: Option<(&String, &Fixture)>)
    ensures
        match entry {
            Some((name, fixture)) => index < fixture_entries(*map).len() && fixture_entries(
                *map,
            )[index as int] == (name@, fixture@),
            None => index >= fixture_entries(*map).len(),
        },
{
    map.get_index(index)
}

// ---------------------------------------------------------------------------
// The order in which fixtures run
// ---------------------------------------------------------------------------

/// What a list of named fixtures holds.
pub open spec fn named_fixtures(list: Seq<(String, Fixture)>) -> Seq<(Seq<char>, FixtureModel)> {
    list.map_values(|entry: (String, Fixture)| (entry.0@, entry.1@))
}

/// The position behind the last entry of `sorted` whose priority is at most
/// `priority`, counted from the end.
pub open spec fn priority_index(
    sorted: Seq<(Seq<char>, FixtureModel)>,
    priority: i64,
) -> int
    decreases sorted.len(),
{
    if sorted.len() == 0 || sorted.last().1.priority <= priority {
        sorted.len() as int
    } else {
        priority_index(sorted.drop_last(), priority)
    }
}

/// The fixtures by priority; those of equal priority keep their order.
pub open spec fn by_priority(entries: Seq<(Seq<char>, FixtureModel)>) -> Seq<
    (Seq<char>, FixtureModel),
>
    decreases entries.len(),
{
    if entries.len() == 0 {
        entries
    } else {
        let sorted = by_priority(entries.drop_last());
        sorted.insert(priority_index(sorted, entries.last().1.priority), entries.last())
    }
}

/// Whether priorities never decrease from one entry to a later one.
pub open spec fn priorities_ascend(entries: Seq<(Seq<char>, FixtureModel)>) -> bool {
    forall|i: int, j: int|
        0 <= i < j < entries.len() ==> (#[trigger] entries[i]).1.priority <= (
        #[trigger] entries[j]).1.priority
}

pub proof fn priority_index_splits(sorted: Seq<(Seq<char>, FixtureModel)>, priority: i64)
    requires
        priorities_ascend(sorted),
    ensures
        0 <= priority_index(sorted, priority) <= sorted.len(),
        forall|i: int|
            0 <= i < priority_index(sorted, priority) ==> (#[trigger] sorted[i]).1.priority
                <= priority,
        forall|i: int|
            priority_index(sorted, priority) <= i < sorted.len() ==> (
            #[trigger] sorted[i]).1.priority > priority,
    decreases sorted.len(),
{
    if sorted.len() > 0 {
        let less = sorted.drop_last();
        if sorted.last().1.priority > priority {
            assert(priorities_ascend(less));
            priority_index_splits(less, priority);
            let at = priority_index(less, priority);
            assert forall|i: int| 0 <= i < at implies (#[trigger] sorted[i]).1.priority
                <= priority by {
                assert(less[i] == sorted[i]);
            }
            assert forall|i: int| at <= i < sorted.len() implies (#[trigger] sorted[i]).1.priority
                > priority by {
                if i < less.len() {
                    assert(less[i] == sorted[i]);
                }
            }
        }
    }
}

/// `by_priority` holds the same fixtures, in ascending order of priority.
pub proof fn by_priority_sorts(entries: Seq<(Seq<char>, FixtureModel)>)
    ensures
        priorities_ascend(by_priority(entries)),
        by_priority(entries).to_multiset() == entries.to_multiset(),
        by_priority(entries).len() == entries.len(),
    decreases entries.len(),
{
    broadcast use vstd::seq_lib::group_to_multiset_ensures;

    if entries.len() > 0 {
        let before = by_priority(entries.drop_last());
        let entry = entries.last();
        by_priority_sorts(entries.drop_last());
        priority_index_splits(before, entry.1.priority);
        let at = priority_index(before, entry.1.priority);
        let after = before.insert(at, entry);
        assert forall|i: int, j: int| 0 <= i < j < after.len() implies (
        #[trigger] after[i]).1.priority <= (#[trigger] after[j]).1.priority by {
            if j < at {
                assert(after[i] == before[i]);
                assert(after[j] == before[j]);
            } else if j == at {
                assert(after[i] == before[i]);
            } else {
                assert(after[j] == before[j - 1]);
                if i < at {
                    assert(after[i] == before[i]);
                } else if i > at {
                    assert(after[i] == before[i - 1]);
                }
            }
        }
        assert(entries == entries.drop_last().push(entry));
        assert(after.to_multiset() == before.to_multiset().insert(entry));
    }
}

/// The fixtures of a map by priority; those of equal priority keep the order
/// of the map.
pub fn fixtures_by_priority(map: &FixtureMap) -> (sorted: Vec<(String, Fixture)>)
    ensures
        named_fixtures(sorted@) == by_priority(fixture_entries(*map)),
{
    let ghost entries = fixture_entries(*map);
    let mut sorted: Vec<(String, Fixture)> = Vec::new();
    let count: usize = fixture_count(map);
    let mut i: usize = 0;
    assert(named_fixtures(sorted@) =~= by_priority(entries.take(0)));
    while i < count
        invariant
            i <= count,
            count == entries.len(),
            entries == fixture_entries(*map),
            named_fixtures(sorted@) == by_priority(entries.take(i as int)),
        decreases count - i,
    {
        let ghost done = named_fixtures(sorted@);
        assert(entries.take(i + 1).drop_last() == entries.take(i as int));
        assert(entries.take(i + 1).last() == entries[i as int]);
        match fixture_at(map, i) {
            Some((name, fixture)) => {
                let mut at: usize = sorted.len();
                assert(done.take(at as int) == done);
                while at > 0 && sorted[at - 1].1.priority > fixture.priority
                    invariant
                        at <= sorted.len(),
                        done == named_fixtures(sorted@),
                        priority_index(done, fixture.priority) == priority_index(
                            done.take(at as int),
                            fixture.priority,
                        ),
                    decreases at,
                {
                    assert(done.take(at as int).drop_last() == done.take(at - 1));
                    assert(done.take(at as int).last() == done[at - 1]);
                    at -= 1;
                }
                assert(at > 0 ==> done.take(at as int).last() == done[at - 1]);
                let ghost entry = (name@, fixture@);
                sorted.insert(at, (name.clone(), fixture.clone()));
                assert(named_fixtures(sorted@) =~= done.insert(at as int, entry));
            },
            None => {},
        }
        i += 1;
    }
    assert(entries.take(i as int) == entries);
    sorted
}

} // verus!
