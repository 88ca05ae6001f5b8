//! The three kinds of boolean node.

use vstd::prelude::*;
use vstd::string::StringExecFns;
use crate::boolean::{resolved, Boolean, BooleanView};
use crate::decimal::{decimal, to_decimal};
use crate::table::Table;
use crate::traits;
use crate::{Database, DeclareError, Expression, ExpressionView, SymError};

verus! {

/// A boolean constant: the end of every successful resolution.
#[derive(Debug, Clone, Copy, PartialEq, Eq, Structural)]
pub struct Constant {
    value: bool,
}

impl View for Constant {
    type V = bool;

    closed spec fn view(&self) -> bool {
        self.value
    }
}

impl Constant {
    pub fn new(value: bool) -> (constant: Self)
        ensures
            constant@ == value,
    {
        Self { value }
    }

    /// The boolean that the constant holds.
    pub fn value(&self) -> (value: bool)
        ensures
            value == self@,
    {
        self.value
    }

    /// Resolves the constant, which is the constant itself.
    pub fn to_bool(&self, database: &Database) -> (constant: Constant)
        ensures
            constant == *self,
            database@.resolution(BooleanView::Constant(self@)) == Ok::<bool, SymError>(constant@),
    {
        proof {
            database@.lemma_constant_resolves(self@);
        }
        *self
    }

    /// The constant as text: `1` for true, `0` for false.
    pub fn to_string(&self) -> (text: String)
        ensures
            text@ == (if self@ {
                seq!['1']
            } else {
                seq!['0']
            }),
    {
        proof {
            reveal_strlit("1");
            reveal_strlit("0");
        }
        let text = if self.value {
            String::from_str("1")
        } else {
            String::from_str("0")
        };
        assert(text@ =~= (if self@ {
            seq!['1']
        } else {
            seq!['0']
        }));
        text
    }
}

/// A reference to the table entry with a given identity.
#[derive(Debug, Clone, Copy, PartialEq, Eq, Structural)]
pub struct Reference {
    id: usize,
}

impl View for Reference {
    type V = usize;

    closed spec fn view(&self) -> usize {
        self.id
    }
}

impl Reference {
    pub fn new(id: usize) -> (reference: Self)
        ensures
            reference@ == id,
    {
        Self { id }
    }

    /// The identity that the reference points to.
    pub fn id(&self) -> (id: usize)
        ensures
            id == self@,
    {
        self.id
    }

    /// Resolves the reference: the expression bound to its identity is
    /// resolved in turn, until a constant is reached. Fails with
    /// `IdentityMissing` where the chain reaches an identity the table lacks,
    /// with `VariableMissing` where it reaches a variable never declared,
    /// and with `CycleDetected` where it has no end.
    pub fn to_bool(&self, database: &Database) -> (constant: Result<Constant, SymError>)
        ensures
            resolved(constant) == database@.resolution(BooleanView::Reference(self@)),
    {
        Boolean::Reference(*self).to_bool(database)
    }

    /// The reference as text: its identity in decimal.
    pub fn to_string(&self) -> (text: String)
        ensures
            text@ == decimal(self@ as nat),
    {
        to_decimal(self.id)
    }
}

/// A named variable, with the identity the table gave it when it was
/// declared.
#[derive(Debug, PartialEq)]
pub struct Variable {
    name: String,
    id: Option<usize>,
}

/// What a [`Variable`] is, as a mathematical value.
pub struct VariableView {
    pub name: Seq<char>,
    pub id: Option<usize>,
}

impl View for Variable {
    type V = VariableView;

    closed spec fn view(&self) -> VariableView {
        VariableView { name: self.name@, id: self.id }
    }
}

impl traits::Variable for Variable {
    open spec fn name(&self) -> Seq<char> {
        self@.name
    }

    open spec fn identity(&self) -> Option<usize> {
        self@.id
    }

    fn get_name(&self) -> (name: &str) {
        self.name.as_str()
    }

    fn set_id(&mut self, id: usize) {
        self.id = Some(id);
    }
}

impl Table {
    /// The variable `name` as this table would declare it next: with the
    /// identity of the entry that the declaration adds.
    pub open spec fn fresh(self, name: Seq<char>) -> VariableView {
        VariableView { name, id: Some(self.len() as usize) }
    }

    /// A variable that is bound to itself refers to its own entry: it stands
    /// for no constant, and its resolution is `CycleDetected`.
    pub proof fn lemma_unbound_unresolved(self, variable: VariableView)
        requires
            variable.id is Some,
            variable.id.unwrap() < self.len(),
            self.entries[variable.id.unwrap() as int].expression == ExpressionView::Boolean(
                BooleanView::Variable(variable),
            ),
        ensures
            self.resolution(BooleanView::Variable(variable)) == Err::<bool, SymError>(
                SymError::CycleDetected,
            ),
    {
        let node = BooleanView::Variable(variable);
        assert(self.walk(node, 1) == self.walk(self.step(node), 0));
        self.lemma_cycle_detected(node, 0, 1);
    }
}

impl Variable {
    /// Declares `name` as a new unknown and returns the variable with the
    /// identity it got. The unknown is bound to itself. Where the name is
    /// taken, nothing is declared and no variable is made.
    pub fn new(name: String, database: &mut Database) -> (declared: Result<Variable, DeclareError>)
        ensures
            match declared {
                Ok(variable) => old(database)@.declare_answer(name@) is Ok && variable@ == old(
                    database,
                )@.fresh(name@),
                Err(e) => old(database)@.declare_answer(name@) == Err::<nat, DeclareError>(e),
            },
            declared is Ok ==> final(database)@.resolution(
                BooleanView::Variable(old(database)@.fresh(name@)),
            ) == Err::<bool, SymError>(SymError::CycleDetected),
            final(database)@ == old(database)@.declare(
                name@,
                ExpressionView::Boolean(BooleanView::Variable(old(database)@.fresh(name@))),
            ),
            final(database)@.valid(),
    {
        let stored = Variable { name: name.clone(), id: Some(database.len()) };
        match database.declare(name.as_str(), Expression::Boolean(Boolean::Variable(stored))) {
            Ok(id) => {
                let mut variable = Variable { name, id: None };
                traits::Variable::set_id(&mut variable, id);
                proof {
                    database@.lemma_unbound_unresolved(variable@);
                }
                Ok(variable)
            },
            Err(e) => Err(e),
        }
    }

    /// The name of the variable.
    pub fn name(&self) -> (name: &str)
        ensures
            name@ == self@.name,
    {
        self.name.as_str()
    }

    /// The identity of the variable, if it is declared.
    pub fn id(&self) -> (id: Option<usize>)
        ensures
            id == self@.id,
    {
        self.id
    }

    /// Resolves the variable: one that was never declared fails with
    /// `VariableMissing`, a declared one resolves as a reference to its
    /// identity does.
    pub fn to_bool(&self, database: &Database) -> (constant: Result<Constant, SymError>)
        ensures
            resolved(constant) == database@.resolution(BooleanView::Variable(self@)),
            self@.id is Some ==> resolved(constant) == database@.resolution(
                BooleanView::Reference(self@.id.unwrap()),
            ),
            self@.id is None ==> constant == Err::<Constant, SymError>(SymError::VariableMissing),
    {
        match self.id {
            None => {
                proof {
                    database@.lemma_missing_fails(BooleanView::Variable(self@));
                }
                Err(SymError::VariableMissing)
            },
            Some(id) => {
                proof {
                    database@.lemma_same_target(
                        BooleanView::Variable(self@),
                        BooleanView::Reference(id),
                    );
                }
                Reference::new(id).to_bool(database)
            },
        }
    }

    /// The variable as text: its name.
    pub fn to_string(&self) -> (text: String)
        ensures
            text@ == self@.name,
    {
        self.name.clone()
    }
}

} // verus!
