//! A table that hands out keys for names on demand: a name asked for the
//! first time is entered, and keeps its key from then on.

use vstd::prelude::*;
use vstd::hash_map::StringHashMap;
use crate::index;

pub mod boolean;

verus! {

/// The kinds of value.
pub enum Value {
    Boolean(boolean::Boolean),
}

/// The key that `name` has once it was asked for: its place among `names`
/// if it is one of them, the next place if it is not.
pub open spec fn key_of(names: Seq<Seq<char>>, name: Seq<char>) -> int {
    if names.contains(name) {
        names.index_of(name)
    } else {
        names.len() as int
    }
}

/// The names once `name` was asked for: it is added at the end unless it is
/// already one of them.
pub open spec fn with_name(names: Seq<Seq<char>>, name: Seq<char>) -> Seq<Seq<char>> {
    if names.contains(name) {
        names
    } else {
        names.push(name)
    }
}

/// The key that a name gets is the place where the name then stands.
pub proof fn lemma_key_finds_name(names: Seq<Seq<char>>, name: Seq<char>)
    ensures
        0 <= key_of(names, name) < with_name(names, name).len(),
        with_name(names, name)[key_of(names, name)] == name,
{
    if names.contains(name) {
        let key = names.index_of(name);
        assert(0 <= key < names.len() && names[key] == name);
    }
}

/// Asking for a name keeps the names free of repetitions.
pub proof fn lemma_with_name_distinct(names: Seq<Seq<char>>, name: Seq<char>)
    requires
        names.no_duplicates(),
    ensures
        with_name(names, name).no_duplicates(),
{
    if !names.contains(name) {
        let longer = names.push(name);
        assert forall|i: int, j: int|
            0 <= i < longer.len() && 0 <= j < longer.len() && i != j implies longer[i]
            != longer[j] by {
            if i < names.len() && j < names.len() {
            } else if i < names.len() {
                assert(names[i] != name);
            } else {
                assert(names[j] != name);
            }
        }
    }
}

/// Keys are stable: a name that has a key keeps it whatever name is asked
/// for afterwards, and asking for the same name again gives the same key and
/// adds nothing.
pub proof fn lemma_keys_stable(names: Seq<Seq<char>>, name: Seq<char>, later: Seq<char>)
    requires
        names.no_duplicates(),
    ensures
        key_of(with_name(with_name(names, name), later), name) == key_of(names, name),
        with_name(with_name(names, name), name) == with_name(names, name),
{
    lemma_key_finds_name(names, name);
    lemma_with_name_distinct(names, name);
    let once = with_name(names, name);
    lemma_with_name_distinct(once, later);
    let twice = with_name(once, later);
    let key = key_of(names, name);
    assert(once[key] == name);
    assert(once.contains(name));
    assert(twice[key] == name);
    assert(twice.contains(name));
    let found = twice.index_of(name);
    assert(0 <= found < twice.len() && twice[found] == name);
}

/// A name that was asked for.
pub struct Variable {
    name: String,
}

impl View for Variable {
    type V = Seq<char>;

    closed spec fn view(&self) -> Seq<char> {
        self.name@
    }
}

impl Variable {
    pub fn new(name: String) -> (variable: Self)
        ensures
            variable@ == name@,
    {
        Self { name }
    }

    pub fn get_name(&self) -> (name: &str)
        ensures
            name@ == self@,
    {
        self.name.as_str()
    }
}

/// The table of names. Its view is the names by key.
pub struct Database {
    dict: StringHashMap<usize>,
    list: Vec<Variable>,
}

impl View for Database {
    type V = Seq<Seq<char>>;

    closed spec fn view(&self) -> Seq<Seq<char>> {
        self.list@.map_values(|variable: Variable| variable@)
    }
}

impl Database {
    #[verifier::type_invariant]
    spec fn inv(&self) -> bool {
        index::indexes(self.dict@, self@)
    }

    pub fn new() -> (database: Self)
        ensures
            database@ == Seq::<Seq<char>>::empty(),
    {
        let database = Self { dict: StringHashMap::new(), list: Vec::new() };
        proof {
            assert(database@ =~= Seq::<Seq<char>>::empty());
        }
        database
    }

    /// The number of names.
    pub fn len(&self) -> (n: usize)
        ensures
            n == self@.len(),
    {
        self.list.len()
    }

    /// The number of distinct names.
    pub fn name_count(&self) -> (n: usize)
        ensures
            n == self@.to_set().len(),
            n == self@.len(),
    {
        proof {
            use_type_invariant(self);
            index::lemma_indexed_names_distinct(self.dict@, self@);
            self@.unique_seq_to_set();
        }
        self.dict.len()
    }

    /// The key of `name`. A name that has none yet is entered and gets the
    /// next one.
    pub fn get_key(&mut self, name: &str) -> (key: usize)
        ensures
            key == key_of(old(self)@, name@),
            final(self)@ == with_name(old(self)@, name@),
            final(self)@.no_duplicates(),
            key < final(self)@.len(),
            final(self)@[key as int] == name@,
    {
        proof {
            use_type_invariant(&*self);
            lemma_key_finds_name(self@, name@);
            index::lemma_index_finds(self.dict@, self@, name@);
            index::lemma_indexed_names_distinct(self.dict@, self@);
        }
        match self.dict.get(name) {
            Some(value) => *value,
            None => {
                let mut taken = Database::new();
                std::mem::swap(self, &mut taken);
                let Database { mut dict, mut list } = taken;
                list.push(Variable::new(name.to_owned()));
                dict.insert(name.to_owned(), list.len() - 1);
                proof {
                    index::lemma_index_grows(old(self).dict@, old(self)@, name@);
                    assert(list@.map_values(|variable: Variable| variable@) =~= old(self)@.push(
                        name@,
                    ));
                }
                let grown = Database { dict, list };
                proof {
                    index::lemma_indexed_names_distinct(grown.dict@, grown@);
                }
                *self = grown;
                self.list.len() - 1
            },
        }
    }

    /// The variable with the key `id`, if there is one.
    pub fn get_variable(&self, id: usize) -> (variable: Option<&Variable>)
        ensures
            match variable {
                Some(variable) => id < self@.len() && variable@ == self@[id as int],
                None => id >= self@.len(),
            },
    {
        if id < self.list.len() {
            Some(&self.list[id])
        } else {
            None
        }
    }
}

} // verus!
