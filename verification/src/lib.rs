//! A symbol table of named boolean unknowns and the algebra that resolves
//! them to constants.
//!
//! A [`Database`] holds the declared names in the order of their declaration.
//! A name is declared once, gets the next identity, counted from zero, and
//! keeps it: entries are never removed, renumbered or bound anew. Each entry
//! is bound to an [`Expression`], which the table stores and hands out
//! without looking into it.
//!
//! The nodes of [`boolean`] are constants, references to an identity, and
//! declared variables. Resolving a node follows the chain of references
//! through the table until it ends at a constant, or fails with the reason
//! why it ends at none. A chain that returns to an identity it has read
//! before is reported as [`SymError::CycleDetected`].
//!
//! What the table is, as a mathematical value, and the laws that hold of it
//! are in [`table`]; what resolution is, and its laws, in
//! [`boolean::resolution`].

use vstd::prelude::*;
use vstd::hash_map::StringHashMap;
use crate::boolean::{Boolean, BooleanView};
use crate::table::{Binding, Table};

pub mod boolean;
pub mod decimal;
mod index;
pub mod table;
pub mod traits;
pub mod value;

verus! {

/// Why a declaration was refused.
#[derive(Debug, Clone, Copy, PartialEq, Eq, Structural)]
pub enum DeclareError {
    /// The name is already declared in the table.
    NameExists,
}

/// Why a lookup or a resolution gave no value.
#[derive(Debug, Clone, Copy, PartialEq, Eq, Structural)]
pub enum SymError {
    /// No variable of that name is declared.
    VariableMissing,
    /// No entry has that identity.
    IdentityMissing,
    /// The chain of references returns to an identity it has already visited.
    CycleDetected,
}

/// What a name can be bound to.
#[derive(Debug, PartialEq)]
pub enum Expression {
    Boolean(Boolean),
}

/// What an [`Expression`] is, as a mathematical value.
pub enum ExpressionView {
    Boolean(BooleanView),
}

impl View for Expression {
    type V = ExpressionView;

    open spec fn view(&self) -> ExpressionView {
        match self {
            Expression::Boolean(b) => ExpressionView::Boolean(b@),
        }
    }
}

struct Entry {
    name: String,
    expression: Expression,
}

impl View for Entry {
    type V = Binding;

    closed spec fn view(&self) -> Binding {
        Binding { name: self.name@, expression: self.expression@ }
    }
}

/// The symbol table. Names are declared once and keep the identity they got.
pub struct Database {
    dict: StringHashMap<usize>,
    list: Vec<Entry>,
}

impl View for Database {
    type V = Table;

    closed spec fn view(&self) -> Table {
        Table { entries: self.list@.map_values(|entry: Entry| entry@) }
    }
}

impl Database {
    spec fn stored_names(&self) -> Seq<Seq<char>> {
        self.list@.map_values(|entry: Entry| entry.name@)
    }

    #[verifier::type_invariant]
    spec fn inv(&self) -> bool {
        index::indexes(self.dict@, self.stored_names())
    }

    proof fn lemma_view_names(&self)
        ensures
            self@.names() == self.stored_names(),
    {
        assert(self@.names() =~= self.stored_names());
    }

    pub fn new() -> (database: Self)
        ensures
            database@ == Table::empty(),
            database@.valid(),
    {
        let database = Self { dict: StringHashMap::new(), list: Vec::new() };
        proof {
            assert(database@.entries =~= Seq::<Binding>::empty());
        }
        database
    }

    /// Declares `name` and binds it to `expression`. A free name gets the
    /// next identity; a name that is taken is refused and nothing changes.
    pub fn declare(&mut self, name: &str, expression: Expression) -> (declared: Result<
        usize,
        DeclareError,
    >)
        ensures
            match declared {
                Ok(id) => old(self)@.declare_answer(name@) == Ok::<nat, DeclareError>(id as nat)
                    && final(self)@.identity_of(name@) == id,
                Err(e) => old(self)@.declare_answer(name@) == Err::<nat, DeclareError>(e),
            },
            final(self)@ == old(self)@.declare(name@, expression@),
            final(self)@.declared(name@),
            final(self)@.valid(),
    {
        proof {
            use_type_invariant(&*self);
            self.lemma_view_names();
            index::lemma_index_finds(self.dict@, self.stored_names(), name@);
            index::lemma_indexed_names_distinct(self.dict@, self.stored_names());
            self@.lemma_declare_valid(name@, expression@);
        }
        if self.dict.contains_key(name) {
            return Err(DeclareError::NameExists);
        }
        let mut taken = Database::new();
        std::mem::swap(self, &mut taken);
        let Database { mut dict, mut list } = taken;
        let index = list.len();
        dict.insert(name.to_owned(), index);
        list.push(Entry { name: name.to_owned(), expression });
        proof {
            index::lemma_index_grows(old(self).dict@, old(self).stored_names(), name@);
            assert(list@.map_values(|entry: Entry| entry.name@) =~= old(self).stored_names().push(
                name@,
            ));
        }
        let grown = Database { dict, list };
        proof {
            index::lemma_indexed_names_distinct(grown.dict@, grown.stored_names());
            grown.lemma_view_names();
            assert(grown@.entries =~= old(self)@.push(name@, expression@).entries);
            grown@.lemma_lookup_symmetry(index as int);
        }
        *self = grown;
        Ok(index)
    }

    /// The identity of the variable `name`: that of the one entry with this
    /// name.
    pub fn get_key(&self, name: &str) -> (key: Result<usize, SymError>)
        ensures
            self@.valid(),
            match key {
                Ok(id) => self@.declared(name@) && id == self@.identity_of(name@) && id
                    < self@.len() && self@.entries[id as int].name == name@,
                Err(e) => e == SymError::VariableMissing && !self@.declared(name@),
            },
    {
        proof {
            use_type_invariant(self);
            self.lemma_view_names();
            index::lemma_index_finds(self.dict@, self.stored_names(), name@);
            index::lemma_indexed_names_distinct(self.dict@, self.stored_names());
            if self@.declared(name@) {
                self@.lemma_identity_names(name@);
            }
        }
        match self.dict.get(name) {
            Some(value) => Ok(*value),
            None => Err(SymError::VariableMissing),
        }
    }

    /// The expression that the entry `id` is bound to.
    pub fn get_variable(&self, id: usize) -> (variable: Result<&Expression, SymError>)
        ensures
            match variable {
                Ok(expression) => id < self@.len() && expression@ == self@.entries[id as int].expression,
                Err(e) => e == SymError::IdentityMissing && id >= self@.len(),
            },
    {
        if id < self.list.len() {
            Ok(&self.list[id].expression)
        } else {
            Err(SymError::IdentityMissing)
        }
    }

    /// The name of the entry `id`.
    pub fn get_name(&self, id: usize) -> (name: Result<&str, SymError>)
        ensures
            match name {
                Ok(name) => id < self@.len() && name@ == self@.entries[id as int].name,
                Err(e) => e == SymError::IdentityMissing && id >= self@.len(),
            },
    {
        if id < self.list.len() {
            Ok(self.list[id].name.as_str())
        } else {
            Err(SymError::IdentityMissing)
        }
    }

    /// The number of entries.
    pub fn len(&self) -> (n: usize)
        ensures
            n == self@.len(),
    {
        self.list.len()
    }

    /// The number of distinct names that are declared.
    pub fn name_count(&self) -> (n: usize)
        ensures
            n == self@.names().to_set().len(),
            n == self@.len(),
    {
        proof {
            use_type_invariant(self);
            self.lemma_view_names();
            index::lemma_indexed_names_distinct(self.dict@, self.stored_names());
            self.stored_names().unique_seq_to_set();
        }
        self.dict.len()
    }
}

} // verus!
