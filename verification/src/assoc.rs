//! Lists of named values, read as mappings from names.
//!
//! The directory and the mailbox keep their entries in a vector, each
//! name once. Their contracts speak of the mapping that such a vector
//! stands for; this module defines that mapping and proves how it changes
//! when the vector does.

use vstd::prelude::*;

verus! {

/// `listing` lists `mapping`: every name of the mapping occurs in it
/// exactly once, with its value, and nothing else does. The order is left
/// open.
pub open spec fn lists<V>(listing: Seq<(Seq<char>, V)>, mapping: Map<Seq<char>, V>) -> bool {
    &&& distinct(listing)
    &&& forall|i: int|
        0 <= i < listing.len() ==> mapping.contains_pair(
            (#[trigger] listing[i]).0,
            listing[i].1,
        )
    &&& forall|name: Seq<char>| #[trigger] mapping.contains_key(name) ==> holds(listing, name)
}

/// No name occurs twice.
pub open spec fn distinct<V>(entries: Seq<(Seq<char>, V)>) -> bool {
    forall|i: int, j: int|
        0 <= i < j < entries.len() ==> (#[trigger] entries[i]).0 != (#[trigger] entries[j]).0
}

/// Whether `name` occurs among `entries`.
pub open spec fn holds<V>(entries: Seq<(Seq<char>, V)>, name: Seq<char>) -> bool {
    exists|i: int| 0 <= i < entries.len() && (#[trigger] entries[i]).0 == name
}

/// The mapping that a list of entries stands for: each name that occurs,
/// with the value of an entry that has it.
pub open spec fn as_map<V>(entries: Seq<(Seq<char>, V)>) -> Map<Seq<char>, V> {
    Map::new(
        |name: Seq<char>| holds(entries, name),
        |name: Seq<char>|
            entries[choose|i: int| 0 <= i < entries.len() && (#[trigger] entries[i]).0 == name].1,
    )
}

/// Each entry of a list without repeated names is a pair of its mapping.
pub proof fn lemma_as_map_at<V>(entries: Seq<(Seq<char>, V)>, i: int)
    requires
        distinct(entries),
        0 <= i < entries.len(),
    ensures
        as_map(entries).contains_pair(entries[i].0, entries[i].1),
{
    let name = entries[i].0;
    let k = choose|k: int| 0 <= k < entries.len() && (#[trigger] entries[k]).0 == name;
    assert(k == i);
}

/// Appending an entry under a new name inserts it into the mapping.
pub proof fn lemma_as_map_push<V>(entries: Seq<(Seq<char>, V)>, name: Seq<char>, value: V)
    requires
        distinct(entries),
        !holds(entries, name),
    ensures
        distinct(entries.push((name, value))),
        as_map(entries.push((name, value))) == as_map(entries).insert(name, value),
{
    let longer = entries.push((name, value));
    assert forall|n: Seq<char>| holds(longer, n) <==> (n == name || holds(entries, n)) by {
        if holds(longer, n) {
            let i = choose|i: int| 0 <= i < longer.len() && (#[trigger] longer[i]).0 == n;
            if i < entries.len() {
                assert(entries[i].0 == n);
            }
        }
        if holds(entries, n) {
            let i = choose|i: int| 0 <= i < entries.len() && (#[trigger] entries[i]).0 == n;
            assert(longer[i].0 == n);
        }
        if n == name {
            assert(longer[entries.len() as int].0 == n);
        }
    }
    assert forall|n: Seq<char>| holds(longer, n) implies #[trigger] as_map(longer)[n] == as_map(
        entries,
    ).insert(name, value)[n] by {
        let i = choose|i: int| 0 <= i < longer.len() && (#[trigger] longer[i]).0 == n;
        lemma_as_map_at(longer, i);
        if i < entries.len() {
            lemma_as_map_at(entries, i);
        }
    }
    assert(as_map(longer) =~= as_map(entries).insert(name, value));
}

/// Taking an entry out removes its name from the mapping.
pub proof fn lemma_as_map_remove<V>(entries: Seq<(Seq<char>, V)>, at: int)
    requires
        distinct(entries),
        0 <= at < entries.len(),
    ensures
        distinct(entries.remove(at)),
        !holds(entries.remove(at), entries[at].0),
        as_map(entries.remove(at)) == as_map(entries).remove(entries[at].0),
{
    let name = entries[at].0;
    let shorter = entries.remove(at);
    assert forall|i: int| 0 <= i < shorter.len() implies #[trigger] shorter[i] == entries[if i
        < at {
        i
    } else {
        i + 1
    }] by {}
    assert forall|n: Seq<char>| holds(shorter, n) <==> (n != name && holds(entries, n)) by {
        if holds(shorter, n) {
            let i = choose|i: int| 0 <= i < shorter.len() && (#[trigger] shorter[i]).0 == n;
            let k = if i < at {
                i
            } else {
                i + 1
            };
            assert(entries[k].0 == n);
        }
        if n != name && holds(entries, n) {
            let k = choose|k: int| 0 <= k < entries.len() && (#[trigger] entries[k]).0 == n;
            let i = if k < at {
                k
            } else {
                k - 1
            };
            assert(shorter[i].0 == n);
        }
    }
    assert forall|n: Seq<char>| holds(shorter, n) implies #[trigger] as_map(shorter)[n] == as_map(
        entries,
    )[n] by {
        let i = choose|i: int| 0 <= i < shorter.len() && (#[trigger] shorter[i]).0 == n;
        let k = if i < at {
            i
        } else {
            i + 1
        };
        lemma_as_map_at(shorter, i);
        lemma_as_map_at(entries, k);
    }
    assert(as_map(shorter) =~= as_map(entries).remove(name));
}

/// A list without repeated names lists its own mapping, and is empty
/// exactly if the mapping is.
pub proof fn lemma_as_map_lists<V>(entries: Seq<(Seq<char>, V)>)
    requires
        distinct(entries),
    ensures
        lists(entries, as_map(entries)),
        entries.len() == 0 <==> as_map(entries) == Map::<Seq<char>, V>::empty(),
{
    assert forall|i: int| 0 <= i < entries.len() implies as_map(entries).contains_pair(
        (#[trigger] entries[i]).0,
        entries[i].1,
    ) by {
        lemma_as_map_at(entries, i);
    }
    if entries.len() == 0 {
        assert(as_map(entries) =~= Map::<Seq<char>, V>::empty());
    } else {
        lemma_as_map_at(entries, 0);
    }
}

} // verus!
