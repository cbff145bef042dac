//! The table of running network instances: their names and their ids.
use dashmap::DashMap;
use vstd::prelude::*;

verus! {

/// `dashmap`'s concurrent hash map.
#[verifier::external_type_specification]
#[verifier::external_body]
#[verifier::reject_recursive_types(K)]
#[verifier::reject_recursive_types(V)]
#[verifier::reject_recursive_types(S)]
pub struct ExDashMap<K, V, S>(dashmap::DashMap<K, V, S>);

/// What a map from names to ids holds.
pub uninterp spec fn map_contents(m: DashMap<String, u128>) -> Map<Seq<char>, u128>;

/// The table without instances.
pub open spec fn no_instances() -> Map<Seq<char>, u128> {
    Map::empty()
}

/// The contents of strings.
pub open spec fn text_views(names: Seq<String>) -> Seq<Seq<char>> {
    names.map_values(|n: String| n@)
}

/// `DashMap::new`: an empty map.
#[verifier::external_body]
fn map_new() -> (r: DashMap<String, u128>)
    ensures
        map_contents(r) == no_instances(),
{
    DashMap::new()
}

/// `DashMap::insert`: the key gets the value, and the value that it had comes
/// back.
#[verifier::external_body]
fn map_insert(m: &mut DashMap<String, u128>, key: String, value: u128) -> (r: Option<u128>)
    ensures
        map_contents(*final(m)) == map_contents(*old(m)).insert(key@, value),
        r == (if map_contents(*old(m)).contains_key(key@) {
            Some(map_contents(*old(m))[key@])
        } else {
            None
        }),
{
    m.insert(key, value)
}

/// `DashMap::get`: the value of the key, if it has one.
#[verifier::external_body]
fn map_get(m: &DashMap<String, u128>, key: &String) -> (r: Option<u128>)
    ensures
        r == (if map_contents(*m).contains_key(key@) {
            Some(map_contents(*m)[key@])
        } else {
            None
        }),
{
    m.get(key).map(|id| *id)
}

/// `DashMap::contains_key`: tells whether the key has a value.
#[verifier::external_body]
fn map_contains_key(m: &DashMap<String, u128>, key: &String) -> (r: bool)
    ensures
        r == map_contents(*m).contains_key(key@),
{
    m.contains_key(key)
}

/// `DashMap::is_empty`: tells whether no key has a value.
#[verifier::external_body]
fn map_is_empty(m: &DashMap<String, u128>) -> (r: bool)
    ensures
        r == (map_contents(*m) == no_instances()),
{
    m.is_empty()
}

/// `DashMap::clear`: no key has a value any more.
#[verifier::external_body]
fn map_clear(m: &mut DashMap<String, u128>)
    ensures
        map_contents(*final(m)) == no_instances(),
{
    m.clear()
}

/// `DashMap::retain` with the test that the key is one of `names`: those keys
/// keep their values, the others lose them.
#[verifier::external_body]
fn map_retain_names(m: &mut DashMap<String, u128>, names: &Vec<String>)
    ensures
        map_contents(*final(m)) == map_contents(*old(m)).restrict(text_views(names@).to_set()),
{
    m.retain(|key, _| has_name(names, key))
}

/// The value of the first item of `DashMap::iter`: there is one exactly if the
/// map is not empty, and it is the value of some key. Of which key is not stated,
/// as the order of the items is left to the hasher.
#[verifier::external_body]
fn map_first_value(m: &DashMap<String, u128>) -> (r: Option<u128>)
    ensures
        r is None <==> map_contents(*m) == no_instances(),
        r matches Some(id) ==> exists|name: Seq<char>| #[trigger]
            map_contents(*m).contains_key(name) && map_contents(*m)[name] == id,
{
    m.iter().next().map(|entry| *entry.value())
}

/// Tells whether `name` is one of `names`.
pub fn has_name(names: &Vec<String>, name: &String) -> (r: bool)
    ensures
        r == text_views(names@).contains(name@),
{
    let mut i: usize = 0;
    while i < names.len()
        invariant
            i <= names@.len(),
            forall|j: int| 0 <= j < i ==> text_views(names@)[j] != name@,
        decreases names@.len() - i,
    {
        if names[i] == *name {
            assert(text_views(names@)[i as int] == name@);
            return true;
        }
        i += 1;
    }
    false
}

/// The ids of those of `names` that `table` holds, in the order of `names`.
pub open spec fn ids_of(table: Map<Seq<char>, u128>, names: Seq<Seq<char>>) -> Seq<u128>
    decreases names.len(),
{
    if names.len() == 0 {
        Seq::empty()
    } else if table.contains_key(names.last()) {
        ids_of(table, names.drop_last()).push(table[names.last()])
    } else {
        ids_of(table, names.drop_last())
    }
}

/// The running instances: each has a name of its own, and an id by which the
/// instance manager knows it.
pub struct InstanceTable {
    ids: DashMap<String, u128>,
}

impl View for InstanceTable {
    type V = Map<Seq<char>, u128>;

    closed spec fn view(&self) -> Map<Seq<char>, u128> {
        map_contents(self.ids)
    }
}

impl InstanceTable {
    /// A table without instances.
    pub fn new() -> (r: InstanceTable)
        ensures
            r@ == no_instances(),
    {
        InstanceTable { ids: map_new() }
    }

    /// Enters the instance `name` with its id.
    pub fn insert(&mut self, name: String, id: u128)
        ensures
            final(self)@ == old(self)@.insert(name@, id),
    {
        map_insert(&mut self.ids, name, id);
    }

    /// Tells whether an instance of that name runs.
    pub fn contains(&self, name: &String) -> (r: bool)
        ensures
            r == self@.contains_key(name@),
    {
        map_contains_key(&self.ids, name)
    }

    /// Tells whether no instance runs.
    pub fn is_empty(&self) -> (r: bool)
        ensures
            r == (self@ == no_instances()),
    {
        map_is_empty(&self.ids)
    }

    /// The id of some running instance; of the one instance, where one runs.
    pub fn get_instance_id(&self) -> (r: Option<u128>)
        ensures
            r is None <==> self@ == no_instances(),
            r matches Some(id) ==> self@.contains_value(id),
    {
        map_first_value(&self.ids)
    }

    /// The ids of those of `names` that run, in the order of `names`.
    pub fn ids(&self, names: &Vec<String>) -> (r: Vec<u128>)
        ensures
            r@ == ids_of(self@, text_views(names@)),
    {
        let mut ids: Vec<u128> = Vec::new();
        let mut i: usize = 0;
        while i < names.len()
            invariant
                i <= names@.len(),
                ids@ == ids_of(self@, text_views(names@).take(i as int)),
            decreases names@.len() - i,
        {
            assert(text_views(names@).take(i + 1).drop_last() =~= text_views(names@).take(
                i as int,
            ));
            if let Some(id) = map_get(&self.ids, &names[i]) {
                ids.push(id);
            }
            i += 1;
        }
        assert(text_views(names@).take(i as int) =~= text_views(names@));
        ids
    }

    /// Forgets all instances but those of `names`.
    pub fn retain(&mut self, names: &Vec<String>)
        ensures
            final(self)@ == old(self)@.restrict(text_views(names@).to_set()),
    {
        map_retain_names(&mut self.ids, names);
    }

    /// Forgets all instances.
    pub fn clear(&mut self)
        ensures
            final(self)@ == no_instances(),
    {
        map_clear(&mut self.ids);
    }
}

/// Nothing runs exactly if no name does.
pub proof fn law_nothing_runs(table: Map<Seq<char>, u128>)
    ensures
        table == no_instances() <==> forall|name: Seq<char>| !#[trigger] table.contains_key(name),
{
    if forall|name: Seq<char>| !#[trigger] table.contains_key(name) {
        assert(table =~= no_instances());
    }
}

/// The contents of strings are those of each string, in its place.
pub proof fn law_text_views_by_item(names: Seq<String>, i: int)
    requires
        0 <= i < names.len(),
    ensures
        text_views(names).len() == names.len(),
        text_views(names)[i] == names[i]@,
{
}

/// Every name counts by itself: the ids of two groups of names are those of the first
/// and then those of the second; a name that runs gives its id, and one that does not
/// gives nothing.
pub proof fn law_ids_name_by_name(
    table: Map<Seq<char>, u128>,
    first: Seq<Seq<char>>,
    second: Seq<Seq<char>>,
    name: Seq<char>,
)
    ensures
        ids_of(table, first + second) == ids_of(table, first) + ids_of(table, second),
        ids_of(table, Seq::<Seq<char>>::empty()) == Seq::<u128>::empty(),
        ids_of(table, seq![name]) == if table.contains_key(name) {
            seq![table[name]]
        } else {
            Seq::<u128>::empty()
        },
    decreases second.len(),
{
    let one = seq![name];
    assert(one.drop_last() =~= Seq::<Seq<char>>::empty());
    assert(ids_of(table, one.drop_last()) =~= Seq::<u128>::empty());
    assert(table.contains_key(name) ==> ids_of(table, one) =~= seq![table[name]]);
    if second.len() == 0 {
        assert(first + second =~= first);
        assert(ids_of(table, first) + ids_of(table, second) =~= ids_of(table, first));
    } else {
        law_ids_name_by_name(table, first, second.drop_last(), name);
        assert((first + second).drop_last() =~= first + second.drop_last());
        assert((first + second).last() == second.last());
        assert(ids_of(table, first + second) =~= ids_of(table, first) + ids_of(table, second));
    }
}

/// Where every name runs, every name gives its id, in its place.
pub proof fn law_every_running_name_gives_its_id(
    table: Map<Seq<char>, u128>,
    names: Seq<Seq<char>>,
)
    requires
        forall|i: int| 0 <= i < names.len() ==> table.contains_key(#[trigger] names[i]),
    ensures
        ids_of(table, names).len() == names.len(),
        forall|i: int|
            0 <= i < names.len() ==> #[trigger] ids_of(table, names)[i] == table[names[i]],
    decreases names.len(),
{
    if names.len() > 0 {
        let front = names.drop_last();
        assert(forall|i: int| 0 <= i < front.len() ==> #[trigger] front[i] == names[i]);
        assert(table.contains_key(names[names.len() - 1]));
        law_every_running_name_gives_its_id(table, front);
        assert forall|i: int| 0 <= i < names.len() implies #[trigger] ids_of(table, names)[i]
            == table[names[i]] by {
            if i < front.len() {
                assert(ids_of(table, front)[i] == table[front[i]]);
            }
        }
    }
}

} // verus!
