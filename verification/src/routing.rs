//! The routing table: from server names to entries.
//!
//! A table is built once from the entries of a configuration, in their
//! order. Where several entries bear one name, the last of them is the one
//! that the table holds. Names are compared character by character, so
//! upper and lower case differ.

use crate::config::{views_of, EntryView, ServerEntry};
use vstd::hash_map::StringHashMap;
use vstd::prelude::*;

verus! {

/// Whether `i` is the last position of `entries` whose entry bears `name`.
pub open spec fn is_last_named(entries: Seq<EntryView>, name: Seq<char>, i: int) -> bool {
    &&& 0 <= i < entries.len()
    &&& entries[i].name == name
    &&& forall|j: int| i < j < entries.len() ==> (#[trigger] entries[j]).name != name
}

/// The table that `entries` define: it knows the names that occur in
/// `entries`, and holds for each of them the last entry that bears it.
pub open spec fn routes_of(entries: Seq<EntryView>) -> Map<Seq<char>, EntryView> {
    Map::new(
        |name: Seq<char>| exists|i: int| is_last_named(entries, name, i),
        |name: Seq<char>| entries[choose|i: int| is_last_named(entries, name, i)],
    )
}

/// Maps server names to entries.
pub struct RoutingTable {
    routes: StringHashMap<ServerEntry>,
}

impl View for RoutingTable {
    type V = Map<Seq<char>, EntryView>;

    closed spec fn view(&self) -> Map<Seq<char>, EntryView> {
        self.routes@.map_values(|e: ServerEntry| e@)
    }
}

impl RoutingTable {
    /// Builds the table of `entries`. Every sequence of entries has one.
    pub fn build(entries: Vec<ServerEntry>) -> (table: RoutingTable)
        ensures
            table@ == routes_of(views_of(entries@)),
    {
        let ghost given = entries@;
        let ghost mut done: int = 0;
        let mut routes: StringHashMap<ServerEntry> = StringHashMap::new();
        proof {
            assert(routes@.map_values(|e: ServerEntry| e@) =~= routes_of(
                views_of(given.take(0)),
            ));
        }
        for entry in it: entries
            invariant
                it.seq() == given,
                done == it.index(),
                routes@.map_values(|e: ServerEntry| e@) == routes_of(views_of(given.take(done))),
        {
            assert(0 <= done < given.len() && entry == given[done]);
            let ghost before = routes@;
            let key = entry.name.clone();
            routes.insert(key, entry);
            proof {
                assert(views_of(given.take(done + 1)) =~= views_of(given.take(done)).push(entry@));
                lemma_routes_push(views_of(given.take(done)), entry@);
                assert(routes@.map_values(|e: ServerEntry| e@) =~= before.map_values(
                    |e: ServerEntry| e@,
                ).insert(entry@.name, entry@));
                done = done + 1;
            }
        }
        assert(given.take(done) =~= given);
        RoutingTable { routes }
    }

    /// Looks up the entry that bears exactly the name `name`.
    pub fn lookup(&self, name: &str) -> (found: Option<&ServerEntry>)
        ensures
            match found {
                Some(entry) => self@.contains_key(name@) && entry@ == self@[name@],
                None => !self@.contains_key(name@),
            },
    {
        self.routes.get(name)
    }
}

/// No name has two last positions.
pub proof fn lemma_last_is_unique(entries: Seq<EntryView>, name: Seq<char>, i: int, j: int)
    requires
        is_last_named(entries, name, i),
        is_last_named(entries, name, j),
    ensures
        i == j,
{
    if i < j {
        assert(entries[j].name != name);
    }
    if j < i {
        assert(entries[i].name != name);
    }
}

/// A name that occurs has a last position.
pub proof fn lemma_last_exists(entries: Seq<EntryView>, name: Seq<char>, i: int)
    requires
        0 <= i < entries.len(),
        entries[i].name == name,
    ensures
        exists|j: int| is_last_named(entries, name, j),
    decreases entries.len() - i,
{
    if exists|j: int| i < j < entries.len() && (#[trigger] entries[j]).name == name {
        let j = choose|j: int| i < j < entries.len() && (#[trigger] entries[j]).name == name;
        lemma_last_exists(entries, name, j);
    } else {
        assert(is_last_named(entries, name, i));
    }
}

/// The table holds for a name the entry at the name's last position:
/// of entries that bear one name, the last one wins.
pub proof fn lemma_last_wins(entries: Seq<EntryView>, name: Seq<char>, i: int)
    requires
        is_last_named(entries, name, i),
    ensures
        routes_of(entries).contains_key(name),
        routes_of(entries)[name] == entries[i],
{
    let chosen = choose|j: int| is_last_named(entries, name, j);
    lemma_last_is_unique(entries, name, i, chosen);
}

/// The table knows exactly the names that occur in the entries, and the
/// entry that it holds for a name bears that name, character for
/// character.
pub proof fn lemma_lookup_is_exact(entries: Seq<EntryView>, name: Seq<char>)
    ensures
        routes_of(entries).contains_key(name) <==> exists|i: int|
            0 <= i < entries.len() && (#[trigger] entries[i]).name == name,
        routes_of(entries).contains_key(name) ==> routes_of(entries)[name].name == name,
{
    if routes_of(entries).contains_key(name) {
        let i = choose|i: int| is_last_named(entries, name, i);
        assert(0 <= i < entries.len() && entries[i].name == name);
    }
    if exists|i: int| 0 <= i < entries.len() && (#[trigger] entries[i]).name == name {
        let i = choose|i: int| 0 <= i < entries.len() && (#[trigger] entries[i]).name == name;
        lemma_last_exists(entries, name, i);
    }
}

/// One more entry at the end puts that entry under its name and leaves the
/// other names as they were.
pub proof fn lemma_routes_push(entries: Seq<EntryView>, entry: EntryView)
    ensures
        routes_of(entries.push(entry)) == routes_of(entries).insert(entry.name, entry),
{
    let longer = entries.push(entry);
    let n = entries.len() as int;
    assert(is_last_named(longer, entry.name, n));
    lemma_last_wins(longer, entry.name, n);
    assert forall|name: Seq<char>, i: int| name != entry.name implies (is_last_named(
        longer,
        name,
        i,
    ) <==> is_last_named(entries, name, i)) by {
        if is_last_named(longer, name, i) {
            assert(longer[i].name == name);
            assert(i < n);
            assert forall|j: int| i < j < entries.len() implies (#[trigger] entries[j]).name
                != name by {
                assert(longer[j] == entries[j]);
            }
        }
        if is_last_named(entries, name, i) {
            assert forall|j: int| i < j < longer.len() implies (#[trigger] longer[j]).name
                != name by {
                if j < n {
                    assert(longer[j] == entries[j]);
                }
            }
        }
    }
    assert forall|name: Seq<char>| #[trigger]
        routes_of(longer).contains_key(name) && name != entry.name implies routes_of(
        longer,
    )[name] == routes_of(entries)[name] by {
        let i = choose|i: int| is_last_named(longer, name, i);
        assert(is_last_named(entries, name, i));
        lemma_last_wins(entries, name, i);
    }
    assert(routes_of(longer) =~= routes_of(entries).insert(entry.name, entry));
}

} // verus!
