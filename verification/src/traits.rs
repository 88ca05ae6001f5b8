//! What the table asks of anything that is declared into it.

use vstd::prelude::*;

verus! {

/// A thing with a name that gets an identity once, when it is declared.
pub trait Variable {
    /// The name it is declared under.
    spec fn name(&self) -> Seq<char>;

    /// The identity it was given, if it is declared.
    spec fn identity(&self) -> Option<usize>;

    fn get_name(&self) -> (name: &str)
        ensures
            name@ == self.name(),
    ;

    /// Gives the variable its identity. It takes one only once.
    fn set_id(&mut self, id: usize)
        requires
            old(self).identity() is None,
        ensures
            final(self).identity() == Some(id),
            final(self).name() == old(self).name(),
    ;
}

} // verus!
