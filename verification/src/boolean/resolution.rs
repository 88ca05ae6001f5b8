//! What it means to resolve a node against a table, and what holds of it.
//!
//! A node is settled when it yields a result without a further entry being
//! read: a constant, a variable that was never declared, or a reference to an
//! identity the table does not have. Any other node refers to an entry, and
//! resolving it means resolving the expression bound there. The resolution of
//! a node is what this chain ends with, or `CycleDetected` where it has no
//! end.

use vstd::prelude::*;
use vstd::set_lib::{lemma_int_range, lemma_len_subset, set_int_range};
use crate::boolean::BooleanView;
use crate::table::Table;
use crate::{ExpressionView, SymError};

verus! {

impl BooleanView {
    /// The identity that the node refers to, if it refers to one.
    pub open spec fn target(self) -> Option<usize> {
        match self {
            BooleanView::Constant(_) => None,
            BooleanView::Reference(id) => Some(id),
            BooleanView::Variable(variable) => variable.id,
        }
    }
}

impl Table {
    /// What `node` yields by itself, if no entry has to be read for it.
    pub open spec fn settled(self, node: BooleanView) -> Option<Result<bool, SymError>> {
        match node {
            BooleanView::Constant(value) => Some(Ok(value)),
            _ => match node.target() {
                None => Some(Err(SymError::VariableMissing)),
                Some(id) => if id < self.len() {
                    None
                } else {
                    Some(Err(SymError::IdentityMissing))
                },
            },
        }
    }

    /// The node that resolving `node` goes on with: the expression bound to
    /// the entry it refers to, or the node itself once it is settled.
    pub open spec fn step(self, node: BooleanView) -> BooleanView {
        if self.settled(node) is Some {
            node
        } else {
            match self.entries[node.target().unwrap() as int].expression {
                ExpressionView::Boolean(next) => next,
            }
        }
    }

    /// The node reached from `node` after `hops` steps.
    pub open spec fn walk(self, node: BooleanView, hops: nat) -> BooleanView
        decreases hops,
    {
        if hops == 0 {
            node
        } else {
            self.walk(self.step(node), (hops - 1) as nat)
        }
    }

    /// The chain from `node` has ended after `hops` steps.
    pub open spec fn settles(self, node: BooleanView, hops: nat) -> bool {
        self.settled(self.walk(node, hops)) is Some
    }

    /// The constant that `node` stands for, or why it stands for none.
    pub open spec fn resolution(self, node: BooleanView) -> Result<bool, SymError> {
        if exists|hops: nat| self.settles(node, hops) {
            let hops = choose|hops: nat| self.settles(node, hops);
            self.settled(self.walk(node, hops)).unwrap()
        } else {
            Err(SymError::CycleDetected)
        }
    }

    /// Walking `first` steps and then `then` steps is walking their sum.
    pub proof fn lemma_walk_add(self, node: BooleanView, first: nat, then: nat)
        ensures
            self.walk(node, first + then) == self.walk(self.walk(node, first), then),
        decreases first,
    {
        if first > 0 {
            self.lemma_walk_add(self.step(node), (first - 1) as nat, then);
        }
    }

    /// One more hop is one step from where the walk stood.
    pub proof fn lemma_walk_next(self, node: BooleanView, hops: nat)
        ensures
            self.walk(node, hops + 1) == self.step(self.walk(node, hops)),
    {
        self.lemma_walk_add(node, hops, 1);
        let reached = self.walk(node, hops);
        assert(self.walk(reached, 1) == self.walk(self.step(reached), 0));
    }

    /// A chain that has ended stays where it ended.
    pub proof fn lemma_settled_stays(self, node: BooleanView, hops: nat, more: nat)
        requires
            self.settles(node, hops),
        ensures
            self.walk(node, hops + more) == self.walk(node, hops),
        decreases more,
    {
        if more > 0 {
            self.lemma_settled_stays(node, hops, (more - 1) as nat);
            self.lemma_walk_next(node, (hops + more - 1) as nat);
        }
    }

    /// Where the chain from a node ends, at a constant or at a failure, the
    /// resolution of the node is what it ends with, however long the chain.
    pub proof fn lemma_resolution_ends(self, node: BooleanView, hops: nat)
        requires
            self.settles(node, hops),
        ensures
            self.resolution(node) == self.settled(self.walk(node, hops)).unwrap(),
    {
        let chosen = choose|chosen: nat| self.settles(node, chosen);
        if chosen <= hops {
            self.lemma_settled_stays(node, chosen, (hops - chosen) as nat);
        } else {
            self.lemma_settled_stays(node, hops, (chosen - hops) as nat);
        }
    }

    /// Resolving a node is resolving the node its step leads to.
    pub proof fn lemma_resolution_steps(self, node: BooleanView)
        ensures
            self.resolution(node) == self.resolution(self.step(node)),
    {
        let next = self.step(node);
        if self.settled(node) is None {
            if exists|hops: nat| self.settles(node, hops) {
                let hops = choose|hops: nat| self.settles(node, hops);
                assert(hops > 0);
                assert(self.settles(next, (hops - 1) as nat));
                self.lemma_resolution_ends(node, hops);
                self.lemma_resolution_ends(next, (hops - 1) as nat);
            } else {
                assert forall|hops: nat| !self.settles(next, hops) by {
                    assert(self.walk(node, hops + 1) == self.walk(next, hops));
                    assert(!self.settles(node, hops + 1));
                }
            }
        }
    }

    /// A constant resolves to itself.
    pub proof fn lemma_constant_resolves(self, value: bool)
        ensures
            self.resolution(BooleanView::Constant(value)) == Ok::<bool, SymError>(value),
    {
        let node = BooleanView::Constant(value);
        assert(self.settles(node, 0));
        self.lemma_resolution_ends(node, 0);
    }

    /// A node that refers to an identity the table does not have resolves to
    /// `IdentityMissing`, a variable that was never declared to
    /// `VariableMissing`: no value stands in for what is missing.
    pub proof fn lemma_missing_fails(self, node: BooleanView)
        requires
            !(node is Constant),
        ensures
            node.target() is None ==> self.resolution(node) == Err::<bool, SymError>(
                SymError::VariableMissing,
            ),
            node.target() is Some && node.target().unwrap() >= self.len() ==> self.resolution(node)
                == Err::<bool, SymError>(SymError::IdentityMissing),
    {
        if self.settled(node) is Some {
            assert(self.settles(node, 0));
            self.lemma_resolution_ends(node, 0);
        }
    }

    /// Two nodes that refer to the same identity resolve alike: a declared
    /// variable behaves as a reference to its identity.
    pub proof fn lemma_same_target(self, one: BooleanView, other: BooleanView)
        requires
            one.target() is Some,
            one.target() == other.target(),
        ensures
            self.resolution(one) == self.resolution(other),
    {
        if self.settled(one) is Some {
            self.lemma_missing_fails(one);
            self.lemma_missing_fails(other);
        } else {
            self.lemma_resolution_steps(one);
            self.lemma_resolution_steps(other);
        }
    }

    /// A chain of three references that ends at a constant resolves to that
    /// constant.
    pub proof fn lemma_chain_resolves(self, a: usize, b: usize, c: usize, value: bool)
        requires
            a < self.len(),
            b < self.len(),
            c < self.len(),
            self.entries[a as int].expression == ExpressionView::Boolean(BooleanView::Reference(b)),
            self.entries[b as int].expression == ExpressionView::Boolean(BooleanView::Reference(c)),
            self.entries[c as int].expression == ExpressionView::Boolean(
                BooleanView::Constant(value),
            ),
        ensures
            self.resolution(BooleanView::Reference(a)) == Ok::<bool, SymError>(value),
    {
        self.lemma_resolution_steps(BooleanView::Reference(a));
        self.lemma_resolution_steps(BooleanView::Reference(b));
        self.lemma_resolution_steps(BooleanView::Reference(c));
        self.lemma_constant_resolves(value);
    }

    proof fn lemma_cycle_never_settles(self, node: BooleanView, early: nat, late: nat, hops: nat)
        requires
            early < late,
            !self.settles(node, early),
            self.walk(node, early).target() == self.walk(node, late).target(),
        ensures
            !self.settles(node, hops),
        decreases hops,
    {
        if self.settles(node, hops) {
            if hops <= late {
                self.lemma_settled_stays(node, hops, (late - hops) as nat);
                if hops <= early {
                    self.lemma_settled_stays(node, hops, (early - hops) as nat);
                }
            } else {
                let period = (late - early) as nat;
                let rest = (hops - late - 1) as nat;
                self.lemma_walk_next(node, early);
                self.lemma_walk_next(node, late);
                self.lemma_walk_add(node, early + 1, rest);
                self.lemma_walk_add(node, late + 1, rest);
                assert(self.walk(node, hops) == self.walk(node, (hops - period) as nat));
                self.lemma_cycle_never_settles(node, early, late, (hops - period) as nat);
            }
        }
    }

    /// A chain that comes back to an identity it has read before has no end:
    /// the resolution of its first node is `CycleDetected`.
    pub proof fn lemma_cycle_detected(self, node: BooleanView, early: nat, late: nat)
        requires
            early < late,
            !self.settles(node, early),
            self.walk(node, early).target() == self.walk(node, late).target(),
        ensures
            self.resolution(node) == Err::<bool, SymError>(SymError::CycleDetected),
    {
        assert forall|hops: nat| !self.settles(node, hops) by {
            self.lemma_cycle_never_settles(node, early, late, hops);
        }
    }

    /// A chain that has not ended after as many hops as the table has
    /// entries has read some identity twice.
    pub proof fn lemma_long_chain_repeats(self, node: BooleanView) -> (repeat: (nat, nat))
        requires
            forall|hops: nat| hops <= self.len() ==> !self.settles(node, hops),
        ensures
            repeat.0 < repeat.1 <= self.len(),
            self.walk(node, repeat.0).target() == self.walk(node, repeat.1).target(),
    {
        let visited = Seq::new(
            self.len() + 1,
            |hops: int| self.walk(node, hops as nat).target().unwrap() as int,
        );
        assert forall|hops: int| 0 <= hops < visited.len() implies 0 <= #[trigger] visited[hops]
            < self.len() by {
            assert(!self.settles(node, hops as nat));
        }
        lemma_repeats(visited, self.len());
        let (i, j) = choose|i: int, j: int|
            0 <= i < j < visited.len() && visited[i] == visited[j];
        assert(!self.settles(node, i as nat));
        assert(!self.settles(node, j as nat));
        (i as nat, j as nat)
    }

    /// Resolution fails with `CycleDetected` only where the chain comes back
    /// to an identity it has read before, and that within as many hops as the
    /// table has entries.
    pub proof fn lemma_cycle_only(self, node: BooleanView) -> (repeat: (nat, nat))
        requires
            self.resolution(node) == Err::<bool, SymError>(SymError::CycleDetected),
        ensures
            repeat.0 < repeat.1 <= self.len(),
            !self.settles(node, repeat.0),
            self.walk(node, repeat.0).target() == self.walk(node, repeat.1).target(),
    {
        assert forall|hops: nat| !self.settles(node, hops) by {
            if self.settles(node, hops) {
                self.lemma_resolution_ends(node, hops);
            }
        }
        self.lemma_long_chain_repeats(node)
    }
}

/// Among more than `bound` numbers below `bound`, two are the same.
proof fn lemma_repeats(numbers: Seq<int>, bound: nat)
    requires
        numbers.len() > bound,
        forall|i: int| 0 <= i < numbers.len() ==> 0 <= #[trigger] numbers[i] < bound,
    ensures
        exists|i: int, j: int| 0 <= i < j < numbers.len() && numbers[i] == numbers[j],
{
    if numbers.no_duplicates() {
        numbers.unique_seq_to_set();
        lemma_int_range(0, bound as int);
        assert(numbers.to_set().subset_of(set_int_range(0, bound as int)));
        lemma_len_subset(numbers.to_set(), set_int_range(0, bound as int));
    } else {
        let (i, j) = choose|i: int, j: int|
            0 <= i < numbers.len() && 0 <= j < numbers.len() && i != j && numbers[i] == numbers[j];
        if i < j {
            assert(0 <= i < j < numbers.len() && numbers[i] == numbers[j]);
        } else {
            assert(0 <= j < i < numbers.len() && numbers[j] == numbers[i]);
        }
    }
}

} // verus!
