//! Boolean values and the variables that stand for them.

use vstd::prelude::*;
use vstd::string::StringExecFns;
use crate::value::{key_of, with_name, Database};

verus! {

/// A boolean value.
pub enum Boolean {
    Constant(Constant),
}

/// A boolean constant.
pub struct Constant {
    value: bool,
}

impl View for Constant {
    type V = bool;

    closed spec fn view(&self) -> bool {
        self.value
    }
}

impl Constant {
    pub fn new(value: bool) -> (constant: Self)
        ensures
            constant@ == value,
    {
        Self { value: value }
    }

    /// The boolean that the constant holds.
    pub fn export(&self) -> (value: bool)
        ensures
            value == self@,
    {
        self.value
    }

    /// The constant as text: `1` for true, `0` for false.
    pub fn to_string(&self) -> (text: String)
        ensures
            text@ == (if self@ {
                seq!['1']
            } else {
                seq!['0']
            }),
    {
        proof {
            reveal_strlit("1");
            reveal_strlit("0");
        }
        let text = if self.value {
            String::from_str("1")
        } else {
            String::from_str("0")
        };
        assert(text@ =~= (if self@ {
            seq!['1']
        } else {
            seq!['0']
        }));
        text
    }
}

/// A variable, known by the key that the table has for its name.
pub struct Variable {
    id: usize,
}

impl View for Variable {
    type V = usize;

    closed spec fn view(&self) -> usize {
        self.id
    }
}

impl Variable {
    /// The variable `name` of the table: the name is entered if the table
    /// does not have it yet.
    pub fn new(name: &str, database: &mut Database) -> (variable: Self)
        ensures
            variable@ == key_of(old(database)@, name@),
            final(database)@ == with_name(old(database)@, name@),
            final(database)@.no_duplicates(),
            variable@ < final(database)@.len(),
            final(database)@[variable@ as int] == name@,
    {
        Self { id: database.get_key(name) }
    }

    /// The key of the variable.
    pub fn id(&self) -> (id: usize)
        ensures
            id == self@,
    {
        self.id
    }
}

} // verus!
