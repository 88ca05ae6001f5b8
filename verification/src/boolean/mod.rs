//! The boolean value algebra: constants, references into the table, and
//! declared variables.

use vstd::prelude::*;
use crate::boolean::value::{Constant, Reference, Variable, VariableView};
use crate::decimal::decimal;
use crate::{Database, Expression, SymError};

pub mod resolution;
pub mod value;

verus! {

/// One node of a boolean expression.
#[derive(Debug, PartialEq)]
pub enum Boolean {
    Constant(Constant),
    Reference(Reference),
    Variable(Variable),
}

/// What a [`Boolean`] node is, as a mathematical value.
pub enum BooleanView {
    Constant(bool),
    Reference(usize),
    Variable(VariableView),
}

impl View for Boolean {
    type V = BooleanView;

    open spec fn view(&self) -> BooleanView {
        match self {
            Boolean::Constant(constant) => BooleanView::Constant(constant@),
            Boolean::Reference(reference) => BooleanView::Reference(reference@),
            Boolean::Variable(variable) => BooleanView::Variable(variable@),
        }
    }
}

/// What a resolution gave, with the constant as the boolean it holds.
pub open spec fn resolved(constant: Result<Constant, SymError>) -> Result<bool, SymError> {
    match constant {
        Ok(constant) => Ok(constant@),
        Err(e) => Err(e),
    }
}

impl BooleanView {
    /// The node as text: a constant as `1` or `0`, a reference as its
    /// identity in decimal, a variable as its name.
    pub open spec fn text(self) -> Seq<char> {
        match self {
            BooleanView::Constant(value) => if value {
                seq!['1']
            } else {
                seq!['0']
            },
            BooleanView::Reference(id) => decimal(id as nat),
            BooleanView::Variable(variable) => variable.name,
        }
    }
}

impl Boolean {
    /// Resolves the node against the table: follows the chain of references
    /// from it until it ends, and gives the constant it ends with or the
    /// reason why it ends with none. A chain that has not ended after as
    /// many hops as the table has entries never ends, and is reported as
    /// `CycleDetected`.
    pub fn to_bool(&self, database: &Database) -> (constant: Result<Constant, SymError>)
        ensures
            resolved(constant) == database@.resolution(self@),
    {
        let limit = database.len();
        let mut current: &Boolean = self;
        let mut hops: usize = 0;
        loop
            invariant
                limit == database@.len(),
                hops <= limit,
                current@ == database@.walk(self@, hops as nat),
                forall|earlier: nat| earlier < hops ==> !database@.settles(self@, earlier),
            decreases limit - hops,
        {
            let id = match current {
                Boolean::Constant(constant) => {
                    proof {
                        database@.lemma_resolution_ends(self@, hops as nat);
                    }
                    return Ok(*constant);
                },
                Boolean::Reference(reference) => reference.id(),
                Boolean::Variable(variable) => match variable.id() {
                    Some(id) => id,
                    None => {
                        proof {
                            database@.lemma_resolution_ends(self@, hops as nat);
                        }
                        return Err(SymError::VariableMissing);
                    },
                },
            };
            match database.get_variable(id) {
                Err(e) => {
                    proof {
                        database@.lemma_resolution_ends(self@, hops as nat);
                    }
                    return Err(e);
                },
                Ok(expression) => {
                    if hops == limit {
                        proof {
                            let repeat = database@.lemma_long_chain_repeats(self@);
                            database@.lemma_cycle_detected(self@, repeat.0, repeat.1);
                        }
                        return Err(SymError::CycleDetected);
                    }
                    proof {
                        database@.lemma_walk_next(self@, hops as nat);
                    }
                    current = match expression {
                        Expression::Boolean(next) => next,
                    };
                    hops = hops + 1;
                },
            }
        }
    }

    /// The node as text.
    pub fn to_string(&self) -> (text: String)
        ensures
            text@ == self@.text(),
    {
        match self {
            Boolean::Constant(constant) => constant.to_string(),
            Boolean::Reference(reference) => reference.to_string(),
            Boolean::Variable(variable) => variable.to_string(),
        }
    }
}

} // verus!
