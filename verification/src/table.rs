//! The symbol table as a mathematical value, and what holds of it.

use vstd::prelude::*;
use crate::{DeclareError, ExpressionView};

verus! {

/// One entry of the table: a name and the expression it is bound to.
pub struct Binding {
    pub name: Seq<char>,
    pub expression: ExpressionView,
}

/// The entries of the table in the order of their declaration. The identity
/// of an entry is its index.
pub struct Table {
    pub entries: Seq<Binding>,
}

impl Table {
    pub open spec fn empty() -> Table {
        Table { entries: Seq::empty() }
    }

    pub open spec fn len(self) -> nat {
        self.entries.len()
    }

    /// The declared names, by identity.
    pub open spec fn names(self) -> Seq<Seq<char>> {
        Seq::new(self.entries.len(), |id: int| self.entries[id].name)
    }

    pub open spec fn declared(self, name: Seq<char>) -> bool {
        self.names().contains(name)
    }

    /// The identity of a declared name.
    pub open spec fn identity_of(self, name: Seq<char>) -> int {
        self.names().index_of(name)
    }

    /// No name is declared twice.
    pub open spec fn valid(self) -> bool {
        self.names().no_duplicates()
    }

    /// The table with one more entry at its end.
    pub open spec fn push(self, name: Seq<char>, expression: ExpressionView) -> Table {
        Table { entries: self.entries.push(Binding { name, expression }) }
    }

    /// The table after an attempt to declare `name`: unchanged where the name
    /// is taken, one entry longer where it is free.
    pub open spec fn declare(self, name: Seq<char>, expression: ExpressionView) -> Table {
        if self.declared(name) {
            self
        } else {
            self.push(name, expression)
        }
    }

    /// What an attempt to declare `name` answers: the next identity, or that
    /// the name is taken.
    pub open spec fn declare_answer(self, name: Seq<char>) -> Result<nat, DeclareError> {
        if self.declared(name) {
            Err(DeclareError::NameExists)
        } else {
            Ok(self.len())
        }
    }

    /// The table after the attempts to declare each of `declarations` in turn.
    pub open spec fn declare_all(self, declarations: Seq<Binding>) -> Table
        decreases declarations.len(),
    {
        if declarations.len() == 0 {
            self
        } else {
            self.declare_all(declarations.drop_last()).declare(
                declarations.last().name,
                declarations.last().expression,
            )
        }
    }

    /// What the last of `declarations`, attempted in turn, is answered.
    pub open spec fn last_answer(self, declarations: Seq<Binding>) -> Result<nat, DeclareError>
        recommends
            declarations.len() > 0,
    {
        self.declare_all(declarations.drop_last()).declare_answer(declarations.last().name)
    }

    /// How many of `declarations`, attempted in turn, are accepted.
    pub open spec fn accepted(self, declarations: Seq<Binding>) -> nat
        decreases declarations.len(),
    {
        if declarations.len() == 0 {
            0
        } else {
            self.accepted(declarations.drop_last()) + if self.last_answer(declarations) is Ok {
                1nat
            } else {
                0nat
            }
        }
    }

    /// The names of a table grow with its entries.
    pub proof fn lemma_push_names(self, name: Seq<char>, expression: ExpressionView)
        ensures
            self.push(name, expression).names() == self.names().push(name),
    {
        assert(self.push(name, expression).names() =~= self.names().push(name));
    }

    /// A declaration keeps a table free of repeated names.
    pub proof fn lemma_declare_valid(self, name: Seq<char>, expression: ExpressionView)
        requires
            self.valid(),
        ensures
            self.declare(name, expression).valid(),
            self.declare(name, expression).declared(name),
    {
        self.lemma_push_names(name, expression);
        if !self.declared(name) {
            let grown = self.names().push(name);
            assert(grown[self.names().len() as int] == name);
            assert forall|i: int, j: int|
                0 <= i < grown.len() && 0 <= j < grown.len() && i != j implies grown[i]
                != grown[j] by {
                if i < self.names().len() && j < self.names().len() {
                    assert(self.names()[i] != self.names()[j]);
                } else if i < self.names().len() {
                    assert(self.names()[i] != name);
                } else {
                    assert(self.names()[j] != name);
                }
            }
        }
    }

    /// Declaring a name twice: the first attempt is accepted exactly when the
    /// name was free, the second is refused with `NameExists` whatever came
    /// of the first, and it leaves the table, and so the number of entries,
    /// as the first attempt left it.
    pub proof fn lemma_declare_twice(
        self,
        name: Seq<char>,
        first: ExpressionView,
        second: ExpressionView,
    )
        ensures
            self.declare_answer(name) is Ok <==> !self.declared(name),
            self.declare(name, first).declare_answer(name) == Err::<nat, DeclareError>(
                DeclareError::NameExists,
            ),
            self.declare(name, first).declare(name, second) == self.declare(name, first),
            self.declare(name, first).declare(name, second).len() == self.declare(name, first).len(),
    {
        self.lemma_push_names(name, first);
        if !self.declared(name) {
            assert(self.names().push(name)[self.names().len() as int] == name);
        }
    }

    /// After any attempts, the table has one more entry for each accepted
    /// one.
    pub proof fn lemma_length_counts_accepted(self, declarations: Seq<Binding>)
        ensures
            self.declare_all(declarations).len() == self.len() + self.accepted(declarations),
        decreases declarations.len(),
    {
        if declarations.len() > 0 {
            self.lemma_length_counts_accepted(declarations.drop_last());
        }
    }

    /// Identities count up from zero: of attempts made in turn on an empty
    /// table, the one accepted as the k-th gets the identity k - 1.
    pub proof fn lemma_identities_count_up(declarations: Seq<Binding>, k: nat)
        requires
            declarations.len() > 0,
            Table::empty().last_answer(declarations) is Ok,
            Table::empty().accepted(declarations) == k,
        ensures
            Table::empty().last_answer(declarations) == Ok::<nat, DeclareError>((k - 1) as nat),
    {
        Table::empty().lemma_length_counts_accepted(declarations.drop_last());
    }

    /// Identities are stable: whatever is declared later, an entry keeps its
    /// place, its name and its expression.
    pub proof fn lemma_identities_stable(self, declarations: Seq<Binding>, id: int)
        requires
            0 <= id < self.len(),
        ensures
            id < self.declare_all(declarations).len(),
            self.declare_all(declarations).entries[id] == self.entries[id],
        decreases declarations.len(),
    {
        if declarations.len() > 0 {
            self.lemma_identities_stable(declarations.drop_last(), id);
        }
    }

    /// A declared name keeps its identity whatever is declared later.
    pub proof fn lemma_names_keep_identity(self, declarations: Seq<Binding>, name: Seq<char>)
        requires
            self.valid(),
            self.declared(name),
        ensures
            self.declare_all(declarations).declared(name),
            self.declare_all(declarations).identity_of(name) == self.identity_of(name),
    {
        self.lemma_identity_names(name);
        self.lemma_identities_stable(declarations, self.identity_of(name));
        self.lemma_declare_all_valid(declarations);
        self.declare_all(declarations).lemma_lookup_symmetry(self.identity_of(name));
    }

    /// Any run of declarations keeps a table free of repeated names.
    pub proof fn lemma_declare_all_valid(self, declarations: Seq<Binding>)
        requires
            self.valid(),
        ensures
            self.declare_all(declarations).valid(),
        decreases declarations.len(),
    {
        if declarations.len() > 0 {
            self.lemma_declare_all_valid(declarations.drop_last());
            self.declare_all(declarations.drop_last()).lemma_declare_valid(
                declarations.last().name,
                declarations.last().expression,
            );
        }
    }

    /// Lookup by name and lookup by identity are inverse to each other: the
    /// name of the entry `id` has the identity `id`, and no other.
    pub proof fn lemma_lookup_symmetry(self, id: int)
        requires
            self.valid(),
            0 <= id < self.len(),
        ensures
            self.declared(self.entries[id].name),
            self.identity_of(self.entries[id].name) == id,
    {
        let name = self.entries[id].name;
        assert(self.names()[id] == name);
        let found = self.identity_of(name);
        assert(0 <= found < self.names().len() && self.names()[found] == name);
    }

    /// The identity of a declared name is that of an entry with this name.
    pub proof fn lemma_identity_names(self, name: Seq<char>)
        requires
            self.declared(name),
        ensures
            0 <= self.identity_of(name) < self.len(),
            self.entries[self.identity_of(name)].name == name,
    {
        let found = self.identity_of(name);
        assert(0 <= found < self.names().len() && self.names()[found] == name);
    }
}

} // verus!
