//! Division with remainder on the canonical representatives of field elements.
//!
//! For a dividend `a` and a modulus `b` the gadget adds a quotient `q` and a
//! remainder `r` with three constraints: the division identity `a = q * b + r`
//! in the field, the range `r < b`, and the bound `q * b + r < MODULUS` on the
//! quotient, all over canonical representatives. Together they leave one
//! pair: the quotient and the remainder of the integers. The identity alone
//! would leave one pair for every `r`.
//!
//! The range is a constraint of its own kind, on canonical representatives.
//! A backend whose field has no order enforces it through the bits of the
//! remainder and of its slack, as [`crate::gadgets::range`] does.

use crate::air::{expr_value, expr_wf, Expr};
use crate::circuit::{constraint_holds, Circuit, CircuitView, Constraint, Target};
use crate::error::Error;
use crate::field::{
    all_canonical, field_add, field_mul, field_sub, lemma_difference_is_zero_iff_equal, MODULUS,
};
use crate::matrix::cell;
use vstd::arithmetic::div_mod::{
    lemma_fundamental_div_mod, lemma_fundamental_div_mod_converse, lemma_mod_bound,
    lemma_small_mod,
};
use vstd::arithmetic::mul::lemma_mul_nonnegative;
use vstd::prelude::*;

verus! {

/// The constraint that `a = q * b + r` in the field.
pub open spec fn division_identity(a: Target, b: Target, q: Target, r: Target) -> Constraint {
    Constraint::Zero(
        Expr::Cur(a.index).minus(
            Expr::Cur(q.index).times(Expr::Cur(b.index)).plus(Expr::Cur(r.index)),
        ),
    )
}

/// Whether a division by `b` has to register that `b` is not zero: `b` is
/// no constant, and no constraint says so yet.
pub open spec fn needs_nonzero(view: CircuitView, b: Target) -> bool {
    view.constants[b.index as int] is None && !view.constraints.contains(Constraint::NonZero(b))
}

/// The circuit after a division of `a` by `b`: two more targets, the
/// quotient and then the remainder; the constraint that `b` is not zero, where
/// it is needed; and the identity, the range and the bound on the quotient.
pub open spec fn with_division(view: CircuitView, a: Target, b: Target) -> CircuitView {
    let q = Target { index: view.num_targets() as usize };
    let r = Target { index: (view.num_targets() + 1) as usize };
    let grown = view.with_target(None).with_target(None);
    let guarded = if needs_nonzero(view, b) {
        grown.with_constraint(Constraint::NonZero(b))
    } else {
        grown
    };
    guarded.with_constraint(division_identity(a, b, q, r)).with_constraint(
        Constraint::Less { value: r, bound: b },
    ).with_constraint(Constraint::NoWrap { quotient: q, divisor: b, remainder: r })
}

/// What a division of `a` by `b` does to a circuit and returns.
pub open spec fn division_outcome(
    before: CircuitView,
    after: CircuitView,
    a: Target,
    b: Target,
    res: Result<(Target, Target), Error>,
) -> bool {
    match res {
        Ok((q, r)) => {
            &&& before.knows(a) && before.knows(b)
            &&& before.constants[b.index as int] != Some(0u32)
            &&& q.index == before.num_targets()
            &&& r.index == before.num_targets() + 1
            &&& after == with_division(before, a, b)
        },
        Err(Error::InvalidInput) => !(before.knows(a) && before.knows(b)) && after == before,
        Err(Error::DivisionByZero) => {
            &&& before.knows(a) && before.knows(b)
            &&& before.constants[b.index as int] == Some(0u32)
            &&& after == before
        },
        Err(_) => false,
    }
}

/// A circuit builder that can divide with remainder.
pub trait CircuitBuilderModular: Sized {
    /// Whether the builder can take one more division.
    spec fn can_divide(&self) -> bool;

    /// What `div_rem` does to the builder and returns.
    spec fn divided(
        &self,
        after: &Self,
        a: Target,
        b: Target,
        res: Result<(Target, Target), Error>,
    ) -> bool;

    /// What `rem` does to the builder and returns.
    spec fn reduced(&self, after: &Self, a: Target, b: Target, res: Result<Target, Error>) -> bool;

    /// Adds the quotient and the remainder of `a` by `b`.
    fn div_rem(&mut self, a: Target, b: Target) -> (res: Result<(Target, Target), Error>)
        requires
            old(self).can_divide(),
        ensures
            old(self).divided(final(self), a, b, res),
    ;

    /// Adds the remainder of `a` by `b`.
    fn rem(&mut self, a: Target, b: Target) -> (res: Result<Target, Error>)
        requires
            old(self).can_divide(),
        ensures
            old(self).reduced(final(self), a, b, res),
    ;
}

/// Decides whether a constraint of `circuit` says that `b` is not zero.
pub fn has_nonzero(circuit: &Circuit, b: Target) -> (found: bool)
    ensures
        found == circuit@.constraints.contains(Constraint::NonZero(b)),
{
    let constraints = circuit.constraints();
    let mut i: usize = 0;
    while i < constraints.len()
        invariant
            i <= constraints@.len(),
            constraints@ == circuit@.constraints,
            forall|k: int| 0 <= k < i ==> constraints@[k] != Constraint::NonZero(b),
        decreases constraints@.len() - i,
    {
        match &constraints[i] {
            Constraint::NonZero(t) => {
                if t.index == b.index {
                    assert(constraints@[i as int] == Constraint::NonZero(b));
                    return true;
                }
            },
            _ => {},
        }
        i += 1;
    }
    false
}

impl CircuitBuilderModular for Circuit {
    /// The circuit is well formed, and the machine can number two more
    /// targets and four more constraints.
    open spec fn can_divide(&self) -> bool {
        self.wf() && self.has_room(2, 4)
    }

    open spec fn divided(
        &self,
        after: &Self,
        a: Target,
        b: Target,
        res: Result<(Target, Target), Error>,
    ) -> bool {
        after.wf() && division_outcome(self@, after@, a, b, res)
    }

    open spec fn reduced(&self, after: &Self, a: Target, b: Target, res: Result<Target, Error>) -> bool {
        &&& after.wf()
        &&& match res {
            Ok(r) => division_outcome(
                self@,
                after@,
                a,
                b,
                Ok((Target { index: self@.num_targets() as usize }, r)),
            ),
            Err(e) => division_outcome(self@, after@, a, b, Err(e)),
        }
    }

    /// Adds the quotient and the remainder of `a` by `b`, and the constraints
    /// that make them so.
    ///
    /// Fails, leaving the circuit unchanged, with `InvalidInput` where `a`
    /// or `b` is no target of the circuit, and with `DivisionByZero` where `b`
    /// is fixed to zero.
    fn div_rem(&mut self, a: Target, b: Target) -> (res: Result<(Target, Target), Error>) {
        let n = self.num_targets();
        if a.index >= n || b.index >= n {
            return Err(Error::InvalidInput);
        }
        let fixed = self.constant_of(b);
        match fixed {
            Some(c) => {
                if c == 0 {
                    return Err(Error::DivisionByZero);
                }
            },
            None => {},
        }
        let guard = fixed.is_none() && !has_nonzero(self, b);
        let q = self.add_virtual_target();
        let r = self.add_virtual_target();
        if guard {
            let registered = self.register(Constraint::NonZero(b));
            assert(registered is Ok);
        }
        let identity = Constraint::Zero(
            Expr::Cur(a.index).minus(
                Expr::Cur(q.index).times(Expr::Cur(b.index)).plus(Expr::Cur(r.index)),
            ),
        );
        proof {
            reveal_with_fuel(expr_wf, 4);
        }
        let registered = self.register(identity);
        assert(registered is Ok);
        let registered = self.register(Constraint::Less { value: r, bound: b });
        assert(registered is Ok);
        let registered = self.register(
            Constraint::NoWrap { quotient: q, divisor: b, remainder: r },
        );
        assert(registered is Ok);
        Ok((q, r))
    }

    /// Adds the remainder of `a` by `b`, as [`CircuitBuilderModular::div_rem`] does.
    fn rem(&mut self, a: Target, b: Target) -> (res: Result<Target, Error>) {
        match self.div_rem(a, b) {
            Ok((_q, r)) => Ok(r),
            Err(e) => Err(e),
        }
    }
}

/// What the identity, the range and the bound on the quotient say of the
/// canonical representatives `a`, `b`, `q` and `r`.
pub open spec fn division_holds(a: int, b: int, q: int, r: int) -> bool {
    &&& field_sub(a, field_add(field_mul(q, b), r)) == 0
    &&& r < b
    &&& q * b + r < MODULUS
}

/// The three constraints hold of exactly one pair: the quotient and the
/// remainder of the division of the integers `a` and `b`, where `b` is not
/// zero, and of none where it is.
pub proof fn lemma_division_is_exact(a: int, b: int, q: int, r: int)
    requires
        0 <= a < MODULUS,
        0 <= b < MODULUS,
        0 <= q < MODULUS,
        0 <= r < MODULUS,
    ensures
        division_holds(a, b, q, r) <==> (b != 0 && q == a / b && r == a % b),
{
    let x = q * b;
    let p = MODULUS as int;
    lemma_mul_nonnegative(q, b);
    if b != 0 && q == a / b && r == a % b {
        lemma_fundamental_div_mod(a, b);
        lemma_mod_bound(a, b);
        assert(b * (a / b) == x) by (nonlinear_arith)
            requires
                x == q * b,
                q == a / b,
        ;
        assert(a == x + r);
    }
    if x + r < p {
        // Below the modulus the field computes with the integers themselves.
        lemma_small_mod(x as nat, p as nat);
        lemma_small_mod((x + r) as nat, p as nat);
        assert(field_add(field_mul(q, b), r) == x + r);
        lemma_difference_is_zero_iff_equal(a, x + r);
    }
    if division_holds(a, b, q, r) {
        assert(a == x + r);
        lemma_fundamental_div_mod_converse(a, b, q, r);
    }
}

/// The constraints that a division registers hold of an assignment exactly
/// where it gives the quotient and the remainder of the integers.
pub proof fn lemma_division_constraints_are_exact(
    values: Seq<u32>,
    a: Target,
    b: Target,
    q: Target,
    r: Target,
)
    requires
        all_canonical(values),
        a.index < values.len(),
        b.index < values.len(),
        q.index < values.len(),
        r.index < values.len(),
    ensures
        ({
            &&& constraint_holds(division_identity(a, b, q, r), values)
            &&& constraint_holds(Constraint::Less { value: r, bound: b }, values)
            &&& constraint_holds(
                Constraint::NoWrap { quotient: q, divisor: b, remainder: r },
                values,
            )
        }) <==> ({
            &&& values[b.index as int] != 0
            &&& values[q.index as int] == values[a.index as int] / values[b.index as int]
            &&& values[r.index as int] == values[a.index as int] % values[b.index as int]
        }),
{
    let va = values[a.index as int] as int;
    let vb = values[b.index as int] as int;
    let vq = values[q.index as int] as int;
    let vr = values[r.index as int] as int;
    assert(constraint_holds(division_identity(a, b, q, r), values) <==> field_sub(
        va,
        field_add(field_mul(vq, vb), vr),
    ) == 0) by {
        reveal_with_fuel(expr_value, 4);
        assert(cell(values, values.len(), 0, a.index as int) == values[a.index as int]);
        assert(cell(values, values.len(), 0, b.index as int) == values[b.index as int]);
        assert(cell(values, values.len(), 0, q.index as int) == values[q.index as int]);
        assert(cell(values, values.len(), 0, r.index as int) == values[r.index as int]);
    }
    lemma_division_is_exact(va, vb, vq, vr);
}

} // verus!
