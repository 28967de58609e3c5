//! Circuits: targets that stand for field elements not yet known, and the
//! constraints registered on them.
//!
//! The targets of a circuit are numbered from zero. A constraint reads a
//! complete assignment as one row, with the target's number as the column.

use crate::air::{check_expr, eval_expr, expr_value, expr_wf, lemma_wf_allows_two_rows, Expr};
use crate::error::Error;
use crate::field::{all_canonical, is_canonical, MODULUS};
use vstd::prelude::*;

verus! {

/// A handle for a value of a circuit: its number within the circuit.
#[derive(Debug, Clone, Copy, PartialEq, Eq, Hash)]
pub struct Target {
    pub index: usize,
}

/// The target with the number `i`.
pub open spec fn target(i: int) -> Target {
    Target { index: i as usize }
}

/// A condition on the values of a circuit's targets.
#[derive(Debug, PartialEq, Eq)]
pub enum Constraint {
    /// The expression is zero. It reads the target `i` as `Expr::Cur(i)`.
    Zero(Expr),
    /// The target is not the zero element.
    NonZero(Target),
    /// The canonical representative of `value` is below that of `bound`.
    Less { value: Target, bound: Target },
    /// The canonical representatives satisfy `quotient * divisor + remainder
    /// < MODULUS`: as integers they do not reach the modulus, so that the
    /// field equation between them is an equation of integers.
    NoWrap { quotient: Target, divisor: Target, remainder: Target },
}

/// Whether `c` reads only targets below `targets`.
pub open spec fn constraint_wf(c: Constraint, targets: nat) -> bool {
    match c {
        Constraint::Zero(e) => expr_wf(e, targets, false),
        Constraint::NonZero(t) => t.index < targets,
        Constraint::Less { value, bound } => value.index < targets && bound.index < targets,
        Constraint::NoWrap { quotient, divisor, remainder } => {
            &&& quotient.index < targets
            &&& divisor.index < targets
            &&& remainder.index < targets
        },
    }
}

/// Decides [`constraint_wf`].
pub fn check_constraint(c: &Constraint, targets: usize) -> (ok: bool)
    ensures
        ok == constraint_wf(*c, targets as nat),
{
    match c {
        Constraint::Zero(e) => check_expr(e, targets, false),
        Constraint::NonZero(t) => t.index < targets,
        Constraint::Less { value, bound } => value.index < targets && bound.index < targets,
        Constraint::NoWrap { quotient, divisor, remainder } => quotient.index < targets
            && divisor.index < targets && remainder.index < targets,
    }
}

/// Whether `c` holds where the target `i` has the value `values[i]`.
pub open spec fn constraint_holds(c: Constraint, values: Seq<u32>) -> bool {
    match c {
        Constraint::Zero(e) => expr_value(e, values, values.len(), 0, 0) == 0,
        Constraint::NonZero(t) => values[t.index as int] != 0,
        Constraint::Less { value, bound } => values[value.index as int] < values[bound.index as int],
        Constraint::NoWrap { quotient, divisor, remainder } => values[quotient.index as int]
            * values[divisor.index as int] + values[remainder.index as int] < MODULUS,
    }
}

/// Decides [`constraint_holds`].
pub fn check_holds(c: &Constraint, values: &Vec<u32>) -> (ok: bool)
    requires
        constraint_wf(*c, values@.len()),
        all_canonical(values@),
    ensures
        ok == constraint_holds(*c, values@),
{
    match c {
        Constraint::Zero(e) => {
            proof {
                lemma_wf_allows_two_rows(*e, values@.len());
            }
            eval_expr(e, values.as_slice(), values.len(), 0, 0) == 0
        },
        Constraint::NonZero(t) => values[t.index] != 0,
        Constraint::Less { value, bound } => values[value.index] < values[bound.index],
        Constraint::NoWrap { quotient, divisor, remainder } => {
            let q = values[quotient.index] as u64;
            let d = values[divisor.index] as u64;
            let r = values[remainder.index] as u64;
            assert(q * d <= 0x7fff_ffff * 0x7fff_ffff) by (nonlinear_arith)
                requires
                    q < 0x7fff_ffff,
                    d < 0x7fff_ffff,
            ;
            q * d + r < MODULUS as u64
        },
    }
}

/// The constraint that `out` is the sum of `a` and `b`.
pub open spec fn sum_constraint(a: Target, b: Target, out: Target) -> Constraint {
    Constraint::Zero(Expr::Cur(out.index).minus(Expr::Cur(a.index).plus(Expr::Cur(b.index))))
}

/// The constraint that `out` is the difference of `a` and `b`.
pub open spec fn difference_constraint(a: Target, b: Target, out: Target) -> Constraint {
    Constraint::Zero(Expr::Cur(out.index).minus(Expr::Cur(a.index).minus(Expr::Cur(b.index))))
}

/// The constraint that `out` is the product of `a` and `b`.
pub open spec fn product_constraint(a: Target, b: Target, out: Target) -> Constraint {
    Constraint::Zero(Expr::Cur(out.index).minus(Expr::Cur(a.index).times(Expr::Cur(b.index))))
}

/// The constraint that `a` and `b` are equal.
pub open spec fn equality_constraint(a: Target, b: Target) -> Constraint {
    Constraint::Zero(Expr::Cur(a.index).minus(Expr::Cur(b.index)))
}

/// What a circuit is: for each target the constant that it is fixed to, if
/// any; the constraints in the order of their registration; and the targets
/// that are public, in the order of their declaration.
pub struct CircuitView {
    pub constants: Seq<Option<u32>>,
    pub constraints: Seq<Constraint>,
    pub public_inputs: Seq<Target>,
}

impl CircuitView {
    /// The number of targets.
    pub open spec fn num_targets(self) -> nat {
        self.constants.len()
    }

    /// Whether `t` is a target of the circuit.
    pub open spec fn knows(self, t: Target) -> bool {
        t.index < self.constants.len()
    }

    /// The invariant of a circuit: constants are canonical, and constraints
    /// and public inputs speak of the circuit's own targets.
    pub open spec fn wf(self) -> bool {
        &&& forall|i: int|
            0 <= i < self.constants.len() ==> (#[trigger] self.constants[i] matches Some(c)
                ==> is_canonical(c))
        &&& forall|i: int|
            0 <= i < self.constraints.len() ==> constraint_wf(
                #[trigger] self.constraints[i],
                self.constants.len(),
            )
        &&& forall|i: int|
            0 <= i < self.public_inputs.len() ==> self.knows(#[trigger] self.public_inputs[i])
    }

    /// The circuit with one more target, fixed to `constant` if there is one.
    pub open spec fn with_target(self, constant: Option<u32>) -> CircuitView {
        CircuitView {
            constants: self.constants.push(constant),
            constraints: self.constraints,
            public_inputs: self.public_inputs,
        }
    }

    /// The circuit with `count` more targets, none of them fixed.
    pub open spec fn with_targets(self, count: nat) -> CircuitView {
        CircuitView {
            constants: self.constants + Seq::new(count, |i: int| None::<u32>),
            constraints: self.constraints,
            public_inputs: self.public_inputs,
        }
    }

    /// The circuit with one more constraint.
    pub open spec fn with_constraint(self, c: Constraint) -> CircuitView {
        CircuitView {
            constants: self.constants,
            constraints: self.constraints.push(c),
            public_inputs: self.public_inputs,
        }
    }

    /// The circuit with one more public input.
    pub open spec fn with_public_input(self, t: Target) -> CircuitView {
        CircuitView {
            constants: self.constants,
            constraints: self.constraints,
            public_inputs: self.public_inputs.push(t),
        }
    }

    /// Whether `values` assigns a value to every target, fixed targets get
    /// their constants, and every constraint holds.
    pub open spec fn satisfied_by(self, values: Seq<u32>) -> bool {
        &&& values.len() == self.constants.len()
        &&& all_canonical(values)
        &&& forall|i: int|
            0 <= i < self.constants.len() ==> (#[trigger] self.constants[i] matches Some(c)
                ==> values[i] == c)
        &&& forall|i: int|
            0 <= i < self.constraints.len() ==> constraint_holds(
                #[trigger] self.constraints[i],
                values,
            )
    }
}

/// A circuit under construction.
pub struct Circuit {
    constants: Vec<Option<u32>>,
    constraints: Vec<Constraint>,
    public_inputs: Vec<Target>,
}

impl View for Circuit {
    type V = CircuitView;

    closed spec fn view(&self) -> CircuitView {
        CircuitView {
            constants: self.constants@,
            constraints: self.constraints@,
            public_inputs: self.public_inputs@,
        }
    }
}

impl Circuit {
    /// The invariant of the circuit.
    pub open spec fn wf(&self) -> bool {
        self@.wf()
    }

    /// Whether the machine can number `targets` more targets and
    /// `constraints` more constraints.
    pub open spec fn has_room(&self, targets: nat, constraints: nat) -> bool {
        &&& self@.constants.len() + targets <= usize::MAX
        &&& self@.constraints.len() + constraints <= usize::MAX
    }

    /// The circuit without targets.
    pub fn new() -> (circuit: Circuit)
        ensures
            circuit.wf(),
            circuit@.constants.len() == 0,
            circuit@.constraints.len() == 0,
            circuit@.public_inputs.len() == 0,
    {
        Circuit { constants: Vec::new(), constraints: Vec::new(), public_inputs: Vec::new() }
    }

    /// The number of targets.
    pub fn num_targets(&self) -> (n: usize)
        ensures
            n == self@.num_targets(),
    {
        self.constants.len()
    }

    /// The number of constraints.
    pub fn num_constraints(&self) -> (n: usize)
        ensures
            n == self@.constraints.len(),
    {
        self.constraints.len()
    }

    /// The constant that `t` is fixed to, if `t` is a target that is fixed.
    pub fn constant_of(&self, t: Target) -> (c: Option<u32>)
        ensures
            c == if self@.knows(t) {
                self@.constants[t.index as int]
            } else {
                None
            },
    {
        if t.index < self.constants.len() {
            self.constants[t.index]
        } else {
            None
        }
    }

    /// The public inputs, in the order of their declaration.
    pub fn public_inputs(&self) -> (targets: &Vec<Target>)
        ensures
            targets@ == self@.public_inputs,
    {
        &self.public_inputs
    }

    /// The values of the public inputs under the assignment `values`, in
    /// the order of their declaration.
    ///
    /// Fails with `InvalidInput` where `values` has another length than the
    /// circuit has targets.
    pub fn public_values(&self, values: &Vec<u32>) -> (res: Result<Vec<u32>, Error>)
        requires
            self.wf(),
        ensures
            match res {
                Ok(public) => {
                    &&& values@.len() == self@.num_targets()
                    &&& public@ == Seq::new(
                        self@.public_inputs.len(),
                        |i: int| values@[self@.public_inputs[i].index as int],
                    )
                },
                Err(e) => values@.len() != self@.num_targets() && e == Error::InvalidInput,
            },
    {
        if values.len() != self.constants.len() {
            return Err(Error::InvalidInput);
        }
        let mut public: Vec<u32> = Vec::with_capacity(self.public_inputs.len());
        let mut i: usize = 0;
        while i < self.public_inputs.len()
            invariant
                i <= self.public_inputs@.len(),
                self.wf(),
                values@.len() == self@.num_targets(),
                public@.len() == i,
                forall|j: int|
                    0 <= j < i ==> #[trigger] public@[j] == values@[self@.public_inputs[j].index as int],
            decreases self.public_inputs@.len() - i,
        {
            assert(self@.knows(self@.public_inputs[i as int]));
            public.push(values[self.public_inputs[i].index]);
            i += 1;
        }
        proof {
            assert(public@ =~= Seq::new(
                self@.public_inputs.len(),
                |i: int| values@[self@.public_inputs[i].index as int],
            ));
        }
        Ok(public)
    }

    /// The constraints, in the order of their registration.
    pub fn constraints(&self) -> (constraints: &Vec<Constraint>)
        ensures
            constraints@ == self@.constraints,
    {
        &self.constraints
    }

    /// Adds a target whose value the witness gives.
    pub fn add_virtual_target(&mut self) -> (t: Target)
        requires
            old(self).wf(),
            old(self).has_room(1, 0),
        ensures
            final(self).wf(),
            t.index == old(self)@.num_targets(),
            final(self)@ == old(self)@.with_target(None),
    {
        let t = Target { index: self.constants.len() };
        self.constants.push(None);
        proof {
            lemma_more_targets_keep_wf(old(self)@, self@);
        }
        t
    }

    /// Adds `count` targets whose values the witness gives.
    pub fn add_virtual_targets(&mut self, count: usize) -> (targets: Vec<Target>)
        requires
            old(self).wf(),
            old(self).has_room(count as nat, 0),
        ensures
            final(self).wf(),
            targets@.len() == count,
            forall|i: int|
                0 <= i < count ==> (#[trigger] targets@[i]).index == old(self)@.num_targets() + i,
            final(self)@ == old(self)@.with_targets(count as nat),
    {
        let mut targets: Vec<Target> = Vec::with_capacity(count);
        let mut i: usize = 0;
        while i < count
            invariant
                i <= count,
                self.wf(),
                old(self).has_room(count as nat, 0),
                targets@.len() == i,
                forall|k: int|
                    0 <= k < i ==> (#[trigger] targets@[k]).index == old(self)@.num_targets() + k,
                self@ == old(self)@.with_targets(i as nat),
            decreases count - i,
        {
            let t = self.add_virtual_target();
            targets.push(t);
            i += 1;
            proof {
                assert(self@.constants =~= old(self)@.with_targets(i as nat).constants);
            }
        }
        proof {
            assert(old(self)@.with_targets(0).constants =~= old(self)@.constants);
        }
        targets
    }

    /// Adds a target fixed to the field element `value`.
    ///
    /// Fails with `InvalidInput`, leaving the circuit unchanged, where
    /// `value` is no canonical representative.
    pub fn constant(&mut self, value: u32) -> (res: Result<Target, Error>)
        requires
            old(self).wf(),
            old(self).has_room(1, 0),
        ensures
            final(self).wf(),
            match res {
                Ok(t) => {
                    &&& is_canonical(value)
                    &&& t.index == old(self)@.num_targets()
                    &&& final(self)@ == old(self)@.with_target(Some(value))
                },
                Err(e) => !is_canonical(value) && e == Error::InvalidInput && final(self)@ == old(
                    self,
                )@,
            },
    {
        if value >= MODULUS {
            return Err(Error::InvalidInput);
        }
        let t = Target { index: self.constants.len() };
        self.constants.push(Some(value));
        proof {
            lemma_more_targets_keep_wf(old(self)@, self@);
        }
        Ok(t)
    }

    /// Registers the constraint `c`.
    ///
    /// Fails with `InvalidInput`, leaving the circuit unchanged, where `c`
    /// reads anything but targets of the circuit.
    pub fn register(&mut self, c: Constraint) -> (res: Result<(), Error>)
        requires
            old(self).wf(),
            old(self).has_room(0, 1),
        ensures
            final(self).wf(),
            match res {
                Ok(_) => {
                    &&& constraint_wf(c, old(self)@.num_targets())
                    &&& final(self)@ == old(self)@.with_constraint(c)
                },
                Err(e) => {
                    &&& !constraint_wf(c, old(self)@.num_targets())
                    &&& e == Error::InvalidInput
                    &&& final(self)@ == old(self)@
                },
            },
    {
        if !check_constraint(&c, self.constants.len()) {
            return Err(Error::InvalidInput);
        }
        self.constraints.push(c);
        proof {
            assert(self@.constants == old(self)@.constants);
            assert(self@.public_inputs == old(self)@.public_inputs);
            assert forall|i: int| 0 <= i < self@.constraints.len() implies constraint_wf(
                #[trigger] self@.constraints[i],
                self@.constants.len(),
            ) by {
                if i < old(self)@.constraints.len() {
                    assert(self@.constraints[i] == old(self)@.constraints[i]);
                }
            }
        }
        Ok(())
    }

    /// Adds a target for the sum of `a` and `b`, with the constraint that says so.
    ///
    /// Fails with `InvalidInput`, leaving the circuit unchanged, where `a`
    /// or `b` is no target of the circuit.
    pub fn add(&mut self, a: Target, b: Target) -> (res: Result<Target, Error>)
        requires
            old(self).wf(),
            old(self).has_room(1, 1),
        ensures
            final(self).wf(),
            match res {
                Ok(t) => {
                    &&& old(self)@.knows(a) && old(self)@.knows(b)
                    &&& t.index == old(self)@.num_targets()
                    &&& final(self)@ == old(self)@.with_target(None).with_constraint(
                        sum_constraint(a, b, t),
                    )
                },
                Err(e) => {
                    &&& !(old(self)@.knows(a) && old(self)@.knows(b))
                    &&& e == Error::InvalidInput
                    &&& final(self)@ == old(self)@
                },
            },
    {
        if a.index >= self.constants.len() || b.index >= self.constants.len() {
            return Err(Error::InvalidInput);
        }
        let t = self.add_virtual_target();
        let c = Constraint::Zero(
            Expr::Cur(t.index).minus(Expr::Cur(a.index).plus(Expr::Cur(b.index))),
        );
        proof {
            reveal_with_fuel(expr_wf, 3);
        }
        match self.register(c) {
            Ok(_) => Ok(t),
            Err(e) => Err(e),
        }
    }

    /// Adds a target for the difference of `a` and `b`, with the constraint that says so.
    ///
    /// Fails with `InvalidInput`, leaving the circuit unchanged, where `a`
    /// or `b` is no target of the circuit.
    pub fn sub(&mut self, a: Target, b: Target) -> (res: Result<Target, Error>)
        requires
            old(self).wf(),
            old(self).has_room(1, 1),
        ensures
            final(self).wf(),
            match res {
                Ok(t) => {
                    &&& old(self)@.knows(a) && old(self)@.knows(b)
                    &&& t.index == old(self)@.num_targets()
                    &&& final(self)@ == old(self)@.with_target(None).with_constraint(
                        difference_constraint(a, b, t),
                    )
                },
                Err(e) => {
                    &&& !(old(self)@.knows(a) && old(self)@.knows(b))
                    &&& e == Error::InvalidInput
                    &&& final(self)@ == old(self)@
                },
            },
    {
        if a.index >= self.constants.len() || b.index >= self.constants.len() {
            return Err(Error::InvalidInput);
        }
        let t = self.add_virtual_target();
        let c = Constraint::Zero(
            Expr::Cur(t.index).minus(Expr::Cur(a.index).minus(Expr::Cur(b.index))),
        );
        proof {
            reveal_with_fuel(expr_wf, 3);
        }
        match self.register(c) {
            Ok(_) => Ok(t),
            Err(e) => Err(e),
        }
    }

    /// Adds a target for the product of `a` and `b`, with the constraint that says so.
    ///
    /// Fails with `InvalidInput`, leaving the circuit unchanged, where `a`
    /// or `b` is no target of the circuit.
    pub fn mul(&mut self, a: Target, b: Target) -> (res: Result<Target, Error>)
        requires
            old(self).wf(),
            old(self).has_room(1, 1),
        ensures
            final(self).wf(),
            match res {
                Ok(t) => {
                    &&& old(self)@.knows(a) && old(self)@.knows(b)
                    &&& t.index == old(self)@.num_targets()
                    &&& final(self)@ == old(self)@.with_target(None).with_constraint(
                        product_constraint(a, b, t),
                    )
                },
                Err(e) => {
                    &&& !(old(self)@.knows(a) && old(self)@.knows(b))
                    &&& e == Error::InvalidInput
                    &&& final(self)@ == old(self)@
                },
            },
    {
        if a.index >= self.constants.len() || b.index >= self.constants.len() {
            return Err(Error::InvalidInput);
        }
        let t = self.add_virtual_target();
        let c = Constraint::Zero(
            Expr::Cur(t.index).minus(Expr::Cur(a.index).times(Expr::Cur(b.index))),
        );
        proof {
            reveal_with_fuel(expr_wf, 3);
        }
        match self.register(c) {
            Ok(_) => Ok(t),
            Err(e) => Err(e),
        }
    }

    /// Registers the constraint that `a` and `b` are equal.
    ///
    /// Fails with `InvalidInput`, leaving the circuit unchanged, where `a`
    /// or `b` is no target of the circuit.
    pub fn connect(&mut self, a: Target, b: Target) -> (res: Result<(), Error>)
        requires
            old(self).wf(),
            old(self).has_room(0, 1),
        ensures
            final(self).wf(),
            match res {
                Ok(_) => {
                    &&& old(self)@.knows(a) && old(self)@.knows(b)
                    &&& final(self)@ == old(self)@.with_constraint(equality_constraint(a, b))
                },
                Err(e) => {
                    &&& !(old(self)@.knows(a) && old(self)@.knows(b))
                    &&& e == Error::InvalidInput
                    &&& final(self)@ == old(self)@
                },
            },
    {
        if a.index >= self.constants.len() || b.index >= self.constants.len() {
            return Err(Error::InvalidInput);
        }
        let c = Constraint::Zero(Expr::Cur(a.index).minus(Expr::Cur(b.index)));
        proof {
            reveal_with_fuel(expr_wf, 2);
        }
        self.register(c)
    }

    /// Declares `t` a public input.
    ///
    /// Fails with `InvalidInput`, leaving the circuit unchanged, where `t`
    /// is no target of the circuit.
    pub fn register_public_input(&mut self, t: Target) -> (res: Result<(), Error>)
        requires
            old(self).wf(),
        ensures
            final(self).wf(),
            match res {
                Ok(_) => old(self)@.knows(t) && final(self)@ == old(self)@.with_public_input(t),
                Err(e) => !old(self)@.knows(t) && e == Error::InvalidInput && final(self)@ == old(
                    self,
                )@,
            },
    {
        if t.index >= self.constants.len() {
            return Err(Error::InvalidInput);
        }
        self.public_inputs.push(t);
        proof {
            assert forall|i: int| 0 <= i < self@.public_inputs.len() implies self@.knows(
                #[trigger] self@.public_inputs[i],
            ) by {
                if i < old(self)@.public_inputs.len() {
                    assert(self@.public_inputs[i] == old(self)@.public_inputs[i]);
                }
            }
            assert(self@.constants == old(self)@.constants);
            assert(self@.constraints == old(self)@.constraints);
        }
        Ok(())
    }
}

/// Constraints that read the targets of a circuit still do so after targets
/// were added.
pub proof fn lemma_more_targets_keep_wf(before: CircuitView, after: CircuitView)
    requires
        before.wf(),
        after.constraints == before.constraints,
        after.public_inputs == before.public_inputs,
        after.constants.len() >= before.constants.len(),
        forall|i: int| 0 <= i < before.constants.len() ==> after.constants[i] == before.constants[i],
        forall|i: int|
            before.constants.len() <= i < after.constants.len() ==> (
            #[trigger] after.constants[i] matches Some(c) ==> is_canonical(c)),
    ensures
        after.wf(),
{
    assert forall|i: int| 0 <= i < after.constraints.len() implies constraint_wf(
        #[trigger] after.constraints[i],
        after.constants.len(),
    ) by {
        let c = before.constraints[i];
        assert(constraint_wf(c, before.constants.len()));
        match c {
            Constraint::Zero(e) => {
                lemma_wider_keeps_wf(e, before.constants.len(), after.constants.len());
            },
            _ => {},
        }
    }
    assert forall|i: int| 0 <= i < after.constants.len() implies (
    #[trigger] after.constants[i] matches Some(c) ==> is_canonical(c)) by {
        if i < before.constants.len() {
            assert(after.constants[i] == before.constants[i]);
        }
    }
}

/// An expression that is well formed for some width is so for any larger one.
pub proof fn lemma_wider_keeps_wf(e: Expr, width: nat, wider: nat)
    requires
        expr_wf(e, width, false),
        width <= wider,
    ensures
        expr_wf(e, wider, false),
    decreases e,
{
    match e {
        Expr::Add(l, r) => {
            lemma_wider_keeps_wf(*l, width, wider);
            lemma_wider_keeps_wf(*r, width, wider);
        },
        Expr::Sub(l, r) => {
            lemma_wider_keeps_wf(*l, width, wider);
            lemma_wider_keeps_wf(*r, width, wider);
        },
        Expr::Mul(l, r) => {
            lemma_wider_keeps_wf(*l, width, wider);
            lemma_wider_keeps_wf(*r, width, wider);
        },
        _ => {},
    }
}

} // verus!
