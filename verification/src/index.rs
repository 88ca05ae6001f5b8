//! The correspondence between a sequence of names and the map that finds
//! each name's position.

use vstd::prelude::*;

verus! {

/// `dict` maps exactly the names of `names`, each to its position.
pub open spec fn indexes(dict: Map<Seq<char>, usize>, names: Seq<Seq<char>>) -> bool {
    &&& dict.dom().finite()
    &&& dict.len() == names.len()
    &&& forall|i: int|
        0 <= i < names.len() ==> dict.contains_key(#[trigger] names[i]) && dict[names[i]] == i
    &&& forall|name: Seq<char>| #[trigger]
        dict.contains_key(name) ==> dict[name] < names.len() && names[dict[name] as int] == name
}

/// A sequence of names that has an index holds no name twice.
pub proof fn lemma_indexed_names_distinct(dict: Map<Seq<char>, usize>, names: Seq<Seq<char>>)
    requires
        indexes(dict, names),
    ensures
        names.no_duplicates(),
{
    assert forall|i: int, j: int| 0 <= i < names.len() && 0 <= j < names.len() && i != j implies names[i]
        != names[j] by {
        assert(dict[names[i]] == i);
        assert(dict[names[j]] == j);
    }
}

/// A name is among the names exactly when the index has it, and then the
/// index gives its only position.
pub proof fn lemma_index_finds(dict: Map<Seq<char>, usize>, names: Seq<Seq<char>>, name: Seq<char>)
    requires
        indexes(dict, names),
    ensures
        dict.contains_key(name) <==> names.contains(name),
        dict.contains_key(name) ==> names.index_of(name) == dict[name],
{
    if dict.contains_key(name) {
        assert(names[dict[name] as int] == name);
        let k = names.index_of(name);
        assert(0 <= k < names.len() && names[k] == name);
        assert(dict[names[k]] == k);
    }
    if names.contains(name) {
        let k = choose|k: int| 0 <= k < names.len() && names[k] == name;
        assert(dict.contains_key(names[k]));
    }
}

/// Appending a new name, and mapping it to the position it takes, keeps the
/// correspondence.
pub proof fn lemma_index_grows(dict: Map<Seq<char>, usize>, names: Seq<Seq<char>>, name: Seq<char>)
    requires
        indexes(dict, names),
        !dict.contains_key(name),
        names.len() <= usize::MAX,
    ensures
        indexes(dict.insert(name, names.len() as usize), names.push(name)),
{
    let grown = dict.insert(name, names.len() as usize);
    let longer = names.push(name);
    assert(grown.dom() =~= dict.dom().insert(name));
    assert forall|i: int| 0 <= i < longer.len() implies grown.contains_key(#[trigger] longer[i])
        && grown[longer[i]] == i by {
        if i < names.len() {
            assert(dict.contains_key(names[i]));
        }
    }
    assert forall|other: Seq<char>| #[trigger] grown.contains_key(other) implies grown[other]
        < longer.len() && longer[grown[other] as int] == other by {
        if other != name {
            assert(dict.contains_key(other));
        }
    }
}

} // verus!
