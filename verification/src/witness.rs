//! The witness: the values bound to the targets of a circuit.

use crate::circuit::{check_holds, constraint_holds, Circuit, CircuitView, Constraint, Target};
use crate::error::Error;
use crate::field::{all_canonical, is_canonical, MODULUS};
use std::collections::HashMap;
use vstd::prelude::*;

verus! {

broadcast use vstd::std_specs::hash::group_hash_axioms;

/// The value that the target `i` has: the constant that it is fixed to, or
/// else the value that the witness binds to it.
pub open spec fn target_value(view: CircuitView, w: Map<usize, u32>, i: int) -> Option<u32> {
    match view.constants[i] {
        Some(c) => Some(c),
        None => if w.contains_key(i as usize) {
            Some(w[i as usize])
        } else {
            None
        },
    }
}

/// Whether `i` is a target without a value.
pub open spec fn is_unbound(view: CircuitView, w: Map<usize, u32>, i: int) -> bool {
    0 <= i < view.num_targets() && target_value(view, w, i) is None
}

/// Whether `i` is a target that is fixed to a constant and bound to another value.
pub open spec fn is_conflict(view: CircuitView, w: Map<usize, u32>, i: int) -> bool {
    &&& 0 <= i < view.num_targets()
    &&& view.constants[i] matches Some(c)
    &&& w.contains_key(i as usize)
    &&& w[i as usize] != c
}

/// Whether `unbound` lists the targets without a value, each once and in
/// increasing order.
pub open spec fn lists_unbound(unbound: Seq<usize>, view: CircuitView, w: Map<usize, u32>) -> bool {
    &&& forall|j: int| 0 <= j < unbound.len() ==> is_unbound(view, w, #[trigger] unbound[j] as int)
    &&& forall|j: int, k: int| 0 <= j < k < unbound.len() ==> unbound[j] < unbound[k]
    &&& forall|i: int| #[trigger] is_unbound(view, w, i) ==> unbound.contains(i as usize)
}

/// Whether every target has a value, and no constant is bound to another value.
pub open spec fn is_complete(view: CircuitView, w: Map<usize, u32>) -> bool {
    &&& forall|i: int| !is_unbound(view, w, i)
    &&& forall|i: int| !is_conflict(view, w, i)
}

/// The values of the targets, in the order of the targets. A target
/// without a value stands as zero.
pub open spec fn assignment(view: CircuitView, w: Map<usize, u32>) -> Seq<u32> {
    Seq::new(
        view.num_targets(),
        |i: int|
            match target_value(view, w, i) {
                Some(v) => v,
                None => 0u32,
            },
    )
}

/// Whether the constraint `id` is the first that does not hold of `values`.
pub open spec fn is_first_failure(view: CircuitView, values: Seq<u32>, id: int) -> bool {
    &&& 0 <= id < view.constraints.len()
    &&& !constraint_holds(view.constraints[id], values)
    &&& forall|k: int| 0 <= k < id ==> constraint_holds(#[trigger] view.constraints[k], values)
}

/// What finalizing a witness for a circuit returns.
///
/// Targets without a value come first, then a constant bound to another
/// value, then the constraints in the order of their registration: an
/// expression that is not zero is a `ConstraintViolation` at row 0, a zero
/// modulus a `DivisionByZero`, a value out of its range a `RangeViolation`.
pub open spec fn finalize_outcome(
    view: CircuitView,
    w: Map<usize, u32>,
    res: Result<Vec<u32>, Error>,
) -> bool {
    match res {
        Ok(values) => {
            &&& is_complete(view, w)
            &&& values@ == assignment(view, w)
            &&& view.satisfied_by(values@)
        },
        Err(Error::IncompleteWitness { unbound }) => unbound@.len() > 0 && lists_unbound(
            unbound@,
            view,
            w,
        ),
        Err(Error::DuplicateAssignment { target }) => {
            &&& forall|i: int| !is_unbound(view, w, i)
            &&& is_conflict(view, w, target as int)
            &&& forall|i: int| 0 <= i < target ==> !is_conflict(view, w, i)
        },
        Err(Error::ConstraintViolation { row, constraint_id }) => {
            &&& row == 0
            &&& is_complete(view, w)
            &&& is_first_failure(view, assignment(view, w), constraint_id as int)
            &&& view.constraints[constraint_id as int] is Zero
        },
        Err(Error::RangeViolation { constraint_id }) => {
            &&& is_complete(view, w)
            &&& is_first_failure(view, assignment(view, w), constraint_id as int)
            &&& view.constraints[constraint_id as int] is Less
                || view.constraints[constraint_id as int] is NoWrap
        },
        Err(Error::DivisionByZero) => {
            &&& is_complete(view, w)
            &&& exists|id: int| #[trigger]
                is_first_failure(view, assignment(view, w), id) && view.constraints[id] is NonZero
        },
        Err(Error::InvalidInput) => false,
    }
}

/// A witness that is complete and whose assignment satisfies the circuit
/// is finalized to that assignment.
pub proof fn lemma_satisfying_witness_is_accepted(
    view: CircuitView,
    w: Map<usize, u32>,
    res: Result<Vec<u32>, Error>,
)
    requires
        is_complete(view, w),
        view.satisfied_by(assignment(view, w)),
        finalize_outcome(view, w, res),
    ensures
        res matches Ok(values) && values@ == assignment(view, w),
{
    let values = assignment(view, w);
    match res {
        Ok(_) => {},
        Err(Error::IncompleteWitness { unbound }) => {
            assert(is_unbound(view, w, unbound@[0] as int));
        },
        Err(Error::DuplicateAssignment { target }) => {},
        Err(Error::ConstraintViolation { row, constraint_id }) => {
            assert(constraint_holds(view.constraints[constraint_id as int], values));
        },
        Err(Error::RangeViolation { constraint_id }) => {
            assert(constraint_holds(view.constraints[constraint_id as int], values));
        },
        Err(Error::DivisionByZero) => {
            let id = choose|id: int| #[trigger]
                is_first_failure(view, values, id) && view.constraints[id] is NonZero;
            assert(constraint_holds(view.constraints[id], values));
        },
        Err(Error::InvalidInput) => {},
    }
}

/// A partial assignment of field elements to targets.
pub struct Witness {
    values: HashMap<usize, u32>,
}

impl View for Witness {
    type V = Map<usize, u32>;

    closed spec fn view(&self) -> Map<usize, u32> {
        self.values@
    }
}

impl Witness {
    /// The invariant of a witness: every bound value is a canonical representative.
    pub open spec fn wf(&self) -> bool {
        forall|k: usize| self@.contains_key(k) ==> is_canonical(#[trigger] self@[k])
    }

    /// The witness that binds no target.
    pub fn new() -> (w: Witness)
        ensures
            w.wf(),
            w@ == Map::<usize, u32>::empty(),
    {
        Witness { values: HashMap::new() }
    }

    /// The value bound to `t`, if there is one.
    pub fn get(&self, t: Target) -> (v: Option<u32>)
        ensures
            v == if self@.contains_key(t.index) {
                Some(self@[t.index])
            } else {
                None
            },
    {
        match self.values.get(&t.index) {
            Some(v) => Some(*v),
            None => None,
        }
    }

    /// Binds `value` to `t`.
    ///
    /// Binding the value that `t` already has changes nothing. Fails with
    /// `DuplicateAssignment` where `t` has another value, and with
    /// `InvalidInput` where `value` is no canonical representative; the
    /// witness is then unchanged.
    pub fn set(&mut self, t: Target, value: u32) -> (res: Result<(), Error>)
        requires
            old(self).wf(),
        ensures
            final(self).wf(),
            match res {
                Ok(_) => {
                    &&& is_canonical(value)
                    &&& old(self)@.contains_key(t.index) ==> old(self)@[t.index] == value
                    &&& final(self)@ == old(self)@.insert(t.index, value)
                },
                Err(Error::InvalidInput) => !is_canonical(value) && final(self)@ == old(self)@,
                Err(Error::DuplicateAssignment { target }) => {
                    &&& is_canonical(value)
                    &&& target == t.index
                    &&& old(self)@.contains_key(t.index)
                    &&& old(self)@[t.index] != value
                    &&& final(self)@ == old(self)@
                },
                Err(_) => false,
            },
    {
        if value >= MODULUS {
            return Err(Error::InvalidInput);
        }
        match self.get(t) {
            Some(bound) => {
                if bound != value {
                    return Err(Error::DuplicateAssignment { target: t.index });
                }
                proof {
                    assert(self@ =~= old(self)@.insert(t.index, value));
                }
                Ok(())
            },
            None => {
                self.values.insert(t.index, value);
                Ok(())
            },
        }
    }

    /// Completes the witness with the constants of `circuit` and checks it
    /// against the constraints of the circuit.
    ///
    /// Returns the value of every target, in the order of the targets, where
    /// every target has a value and every constraint holds.
    pub fn finalize(self, circuit: &Circuit) -> (res: Result<Vec<u32>, Error>)
        requires
            self.wf(),
            circuit.wf(),
        ensures
            finalize_outcome(circuit@, self@, res),
    {
        let ghost view = circuit@;
        let ghost w = self@;
        let n = circuit.num_targets();
        let mut values: Vec<u32> = Vec::with_capacity(n);
        let mut unbound: Vec<usize> = Vec::new();
        let mut conflict: Option<usize> = None;
        let mut i: usize = 0;
        while i < n
            invariant
                i <= n,
                n == view.num_targets(),
                view == circuit@,
                w == self@,
                self.wf(),
                circuit.wf(),
                values@.len() == i,
                all_canonical(values@),
                forall|j: int|
                    0 <= j < i ==> (is_unbound(view, w, j) || target_value(view, w, j) == Some(
                        #[trigger] values@[j],
                    )),
                forall|j: int|
                    0 <= j < unbound@.len() ==> is_unbound(view, w, #[trigger] unbound@[j] as int)
                        && unbound@[j] < i,
                forall|j: int, k: int| 0 <= j < k < unbound@.len() ==> unbound@[j] < unbound@[k],
                forall|j: int|
                    0 <= j < i && #[trigger] is_unbound(view, w, j) ==> unbound@.contains(
                        j as usize,
                    ),
                match conflict {
                    Some(t) => t < i && is_conflict(view, w, t as int) && forall|j: int|
                        0 <= j < t ==> !is_conflict(view, w, j),
                    None => forall|j: int| 0 <= j < i ==> !is_conflict(view, w, j),
                },
            decreases n - i,
        {
            let t = Target { index: i };
            let ghost listed = unbound@;
            let bound = self.get(t);
            match circuit.constant_of(t) {
                Some(c) => {
                    match bound {
                        Some(v) => {
                            if v != c && conflict.is_none() {
                                conflict = Some(i);
                            }
                        },
                        None => {},
                    }
                    values.push(c);
                },
                None => {
                    match bound {
                        Some(v) => {
                            values.push(v);
                        },
                        None => {
                            unbound.push(i);
                            values.push(0);
                            assert(unbound@[listed.len() as int] == i);
                        },
                    }
                },
            }
            proof {
                assert forall|j: int|
                    0 <= j < i + 1 && #[trigger] is_unbound(view, w, j) implies unbound@.contains(
                    j as usize,
                ) by {
                    if j < i {
                        let at = choose|at: int| 0 <= at < listed.len() && listed[at] == j as usize;
                        assert(unbound@[at] == j as usize);
                    }
                }
            }
            i += 1;
        }
        if unbound.len() > 0 {
            return Err(Error::IncompleteWitness { unbound });
        }
        proof {
            assert forall|j: int| !is_unbound(view, w, j) by {
                if is_unbound(view, w, j) {
                    assert(unbound@.contains(j as usize));
                }
            }
        }
        match conflict {
            Some(target) => {
                return Err(Error::DuplicateAssignment { target });
            },
            None => {},
        }
        assert(values@ =~= assignment(view, w));
        let constraints = circuit.constraints();
        let mut k: usize = 0;
        while k < constraints.len()
            invariant
                k <= constraints@.len(),
                constraints@ == view.constraints,
                view == circuit@,
                w == self@,
                view.wf(),
                values@.len() == view.num_targets(),
                all_canonical(values@),
                is_complete(view, w),
                values@ == assignment(view, w),
                forall|j: int| 0 <= j < k ==> constraint_holds(#[trigger] constraints@[j], values@),
            decreases constraints@.len() - k,
        {
            if !check_holds(&constraints[k], &values) {
                assert(is_first_failure(view, values@, k as int));
                match &constraints[k] {
                    Constraint::Zero(_) => {
                        assert(view.constraints[k as int] is Zero);
                        return Err(Error::ConstraintViolation { row: 0, constraint_id: k });
                    },
                    Constraint::NonZero(_) => {
                        assert(view.constraints[k as int] is NonZero);
                        return Err(Error::DivisionByZero);
                    },
                    Constraint::Less { .. } => {
                        assert(view.constraints[k as int] is Less);
                        return Err(Error::RangeViolation { constraint_id: k });
                    },
                    Constraint::NoWrap { .. } => {
                        assert(view.constraints[k as int] is NoWrap);
                        return Err(Error::RangeViolation { constraint_id: k });
                    },
                }
            }
            k += 1;
        }
        Ok(values)
    }
}

} // verus!
