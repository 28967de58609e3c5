//! Ranges by bits: how a backend whose field has no order enforces that a
//! canonical representative lies below a bound.
//!
//! A value is written as a sum of bits weighted by powers of two. With at
//! most [`MAX_BITS`] bits such a sum stays below the modulus, so the equation in
//! the field is an equation of integers and the value lies below that power of
//! two. A value lies below a bound where it and the slack up to the bound are
//! both written so.

use crate::air::{expr_value, expr_wf, Expr};
use crate::circuit::{constraint_holds, target, Circuit, CircuitView, Constraint, Target};
use crate::error::Error;
use crate::field::{
    all_canonical, field_add, field_mul, lemma_boolean_values,
    lemma_difference_is_zero_iff_equal, lemma_field_results_are_canonical, MODULUS,
};
use crate::matrix::cell;
use vstd::arithmetic::div_mod::{lemma_mod_breakdown, lemma_mod_self_0, lemma_small_mod};
use vstd::arithmetic::mul::{lemma_mul_basics, lemma_mul_is_commutative};
use vstd::arithmetic::power2::{
    lemma2_to64, lemma_pow2_pos, lemma_pow2_strictly_increases, lemma_pow2_unfold, pow2,
};
use vstd::prelude::*;

verus! {

/// The largest number of bits of a decomposition: two numbers of so many
/// bits add up to less than the modulus.
pub const MAX_BITS: usize = 30;

/// The constraint that `t` is zero or one: `t * (t - 1)` is zero.
pub open spec fn boolean_constraint(t: Target) -> Constraint {
    Constraint::Zero(Expr::Cur(t.index).times(Expr::Cur(t.index).minus(Expr::Const(1))))
}

/// The sum of the targets `first`, `first + 1`, ... weighted by the powers
/// of two, `count` of them.
pub open spec fn weighted_sum(first: nat, count: nat) -> Expr
    decreases count,
{
    if count == 0 {
        Expr::Const(0)
    } else {
        weighted_sum(first, (count - 1) as nat).plus(
            Expr::Const(pow2((count - 1) as nat) as u32).times(
                Expr::Cur((first + count - 1) as usize),
            ),
        )
    }
}

/// The constraint that `value` is the weighted sum of `count` targets from `first` on.
pub open spec fn decomposition_constraint(value: Target, first: nat, count: nat) -> Constraint {
    Constraint::Zero(Expr::Cur(value.index).minus(weighted_sum(first, count)))
}

/// The number that the values of `count` targets from `first` on make as
/// bits, the first being the lowest.
pub open spec fn bits_value(values: Seq<u32>, first: nat, count: nat) -> int
    decreases count,
{
    if count == 0 {
        0
    } else {
        bits_value(values, first, (count - 1) as nat) + pow2((count - 1) as nat) * values[first
            + count - 1]
    }
}

/// Whether the values of `count` targets from `first` on are zero or one.
pub open spec fn are_bits(values: Seq<u32>, first: nat, count: nat) -> bool {
    forall|i: int| first <= i < first + count ==> #[trigger] values[i] <= 1
}

/// The circuit after the decomposition of `value` into `count` bits: so
/// many more targets, the constraint on each that it is zero or one, and the
/// constraint that `value` is their weighted sum.
pub open spec fn with_decomposition(view: CircuitView, value: Target, count: nat) -> CircuitView {
    let first = view.num_targets();
    CircuitView {
        constants: view.constants + Seq::new(count, |i: int| None::<u32>),
        constraints: view.constraints + Seq::new(
            count,
            |i: int| boolean_constraint(target(first + i)),
        ) + seq![decomposition_constraint(value, first, count)],
        public_inputs: view.public_inputs,
    }
}

/// The powers of two up to the largest number of bits lie below the modulus.
pub proof fn lemma_pow2_is_small(k: nat)
    requires
        k <= MAX_BITS,
    ensures
        0 < pow2(k) <= 0x4000_0000,
        pow2(k) < MODULUS,
{
    lemma2_to64();
    if k < 30 {
        lemma_pow2_strictly_increases(k, 30);
    }
    lemma_pow2_pos(k);
}

/// The weighted sum reads only the targets that it sums.
pub proof fn lemma_weighted_sum_wf(first: nat, count: nat, targets: nat)
    requires
        count <= MAX_BITS,
        first + count <= targets,
        targets <= usize::MAX,
    ensures
        expr_wf(weighted_sum(first, count), targets, false),
    decreases count,
{
    if count > 0 {
        lemma_weighted_sum_wf(first, (count - 1) as nat, targets);
        lemma_pow2_is_small((count - 1) as nat);
        reveal_with_fuel(expr_wf, 3);
    }
}

/// The constraint that a target is zero or one holds exactly where its
/// value is zero or one.
pub proof fn lemma_boolean_constraint_holds(values: Seq<u32>, t: Target)
    requires
        all_canonical(values),
        t.index < values.len(),
    ensures
        constraint_holds(boolean_constraint(t), values) <==> values[t.index as int] <= 1,
{
    reveal_with_fuel(expr_value, 4);
    assert(cell(values, values.len(), 0, t.index as int) == values[t.index as int]);
    lemma_boolean_values(values[t.index as int] as int);
}

/// Bits make a number below the power of two of their count, and their
/// weighted sum in the field is that number.
pub proof fn lemma_weighted_sum_value(values: Seq<u32>, first: nat, count: nat)
    requires
        count <= MAX_BITS,
        first + count <= values.len(),
        values.len() <= usize::MAX,
        are_bits(values, first, count),
    ensures
        0 <= bits_value(values, first, count) < pow2(count),
        expr_value(weighted_sum(first, count), values, values.len(), 0, 0) == bits_value(
            values,
            first,
            count,
        ),
    decreases count,
{
    lemma2_to64();
    if count > 0 {
        let k = (count - 1) as nat;
        lemma_weighted_sum_value(values, first, k);
        lemma_pow2_is_small(k);
        lemma_pow2_is_small(count);
        lemma_pow2_unfold(count);
        let at = first as int + k as int;
        let bit = values[at] as int;
        let low = bits_value(values, first, k);
        let term = pow2(k) * bit;
        assert(bit == 0 || bit == 1);
        assert(term == 0 || term == pow2(k)) by {
            lemma_mul_basics(pow2(k) as int);
        }
        assert(cell(values, values.len(), 0, at) == values[at]);
        reveal_with_fuel(expr_value, 3);
        lemma_small_mod(term as nat, MODULUS as nat);
        lemma_small_mod((low + term) as nat, MODULUS as nat);
        assert(field_mul(pow2(k) as int, bit) == term);
        assert(field_add(low, term) == low + term);
    }
}

/// Soundness of the decomposition: where the constraints on the bits and
/// on their weighted sum hold, the value is the number that the bits make, and
/// so lies below the power of two of their count.
pub proof fn lemma_decomposition_is_sound(values: Seq<u32>, value: Target, first: nat, count: nat)
    requires
        all_canonical(values),
        count <= MAX_BITS,
        first + count <= values.len(),
        values.len() <= usize::MAX,
        value.index < values.len(),
        forall|i: int|
            0 <= i < count ==> constraint_holds(
                #[trigger] boolean_constraint(target(first + i)),
                values,
            ),
        constraint_holds(decomposition_constraint(value, first, count), values),
    ensures
        are_bits(values, first, count),
        values[value.index as int] == bits_value(values, first, count),
        values[value.index as int] < pow2(count),
{
    assert forall|i: int| first <= i < first + count implies #[trigger] values[i] <= 1 by {
        assert(constraint_holds(boolean_constraint(target(first + (i - first))), values));
        lemma_boolean_constraint_holds(values, target(i));
    }
    lemma_weighted_sum_value(values, first, count);
    lemma_decomposition_constraint_holds(values, value, first, count);
}

/// For bits, the constraint on their weighted sum holds exactly where the
/// value is the number that they make.
pub proof fn lemma_decomposition_constraint_holds(
    values: Seq<u32>,
    value: Target,
    first: nat,
    count: nat,
)
    requires
        all_canonical(values),
        count <= MAX_BITS,
        first + count <= values.len(),
        values.len() <= usize::MAX,
        value.index < values.len(),
        are_bits(values, first, count),
    ensures
        constraint_holds(decomposition_constraint(value, first, count), values)
            <==> values[value.index as int] == bits_value(values, first, count),
{
    lemma_weighted_sum_value(values, first, count);
    lemma_pow2_is_small(count);
    reveal_with_fuel(expr_value, 2);
    assert(cell(values, values.len(), 0, value.index as int) == values[value.index as int]);
    lemma_difference_is_zero_iff_equal(
        values[value.index as int] as int,
        bits_value(values, first, count),
    );
}

/// Decomposes `value` into `count` bits: adds the bits as targets, with
/// the constraints that each is zero or one and that `value` is their weighted
/// sum. Returns the bits, the lowest first.
///
/// Fails with `InvalidInput`, leaving the circuit unchanged, where `value`
/// is no target of the circuit or `count` is above [`MAX_BITS`].
pub fn decompose(circuit: &mut Circuit, value: Target, count: usize) -> (res: Result<
    Vec<Target>,
    Error,
>)
    requires
        old(circuit).wf(),
        old(circuit).has_room(count as nat, (count + 1) as nat),
    ensures
        final(circuit).wf(),
        match res {
            Ok(bits) => {
                &&& old(circuit)@.knows(value)
                &&& count <= MAX_BITS
                &&& bits@ == Seq::new(
                    count as nat,
                    |i: int| target(old(circuit)@.num_targets() + i),
                )
                &&& final(circuit)@ == with_decomposition(old(circuit)@, value, count as nat)
            },
            Err(e) => {
                &&& !(old(circuit)@.knows(value) && count <= MAX_BITS)
                &&& e == Error::InvalidInput
                &&& final(circuit)@ == old(circuit)@
            },
        },
{
    let first = circuit.num_targets();
    if value.index >= first || count > MAX_BITS {
        return Err(Error::InvalidInput);
    }
    let bits = circuit.add_virtual_targets(count);
    let ghost grown = circuit@;
    let mut sum = Expr::Const(0);
    let mut power: u32 = 1;
    let mut i: usize = 0;
    proof {
        lemma2_to64();
    }
    while i < count
        invariant
            i <= count <= MAX_BITS,
            circuit.wf(),
            old(circuit).has_room(count as nat, (count + 1) as nat),
            first == old(circuit)@.num_targets(),
            grown == old(circuit)@.with_targets(count as nat),
            circuit@.constants == grown.constants,
            circuit@.public_inputs == grown.public_inputs,
            circuit@.constraints =~= grown.constraints + Seq::new(
                i as nat,
                |j: int| boolean_constraint(target(first + j)),
            ),
            bits@.len() == count,
            forall|j: int| 0 <= j < count ==> (#[trigger] bits@[j]).index == first + j,
            sum == weighted_sum(first as nat, i as nat),
            power == pow2(i as nat),
        decreases count - i,
    {
        let bit = bits[i];
        let boolean = Constraint::Zero(
            Expr::Cur(bit.index).times(Expr::Cur(bit.index).minus(Expr::Const(1))),
        );
        proof {
            reveal_with_fuel(expr_wf, 4);
            assert(boolean == boolean_constraint(target(first + i)));
        }
        let registered = circuit.register(boolean);
        assert(registered is Ok);
        sum = sum.plus(Expr::Const(power).times(Expr::Cur(bit.index)));
        proof {
            lemma_pow2_is_small(i as nat);
            lemma_pow2_is_small((i + 1) as nat);
            lemma_pow2_unfold((i + 1) as nat);
        }
        power = power * 2;
        i += 1;
    }
    proof {
        lemma_weighted_sum_wf(first as nat, count as nat, circuit@.num_targets());
        reveal_with_fuel(expr_wf, 2);
    }
    let registered = circuit.register(Constraint::Zero(Expr::Cur(value.index).minus(sum)));
    assert(registered is Ok);
    proof {
        let expected = with_decomposition(old(circuit)@, value, count as nat);
        assert(circuit@.constants =~= expected.constants);
        assert(circuit@.constraints =~= expected.constraints);
        assert(bits@ =~= Seq::new(count as nat, |i: int| target(first + i)));
    }
    Ok(bits)
}

/// The bit number `i` of `v`, the lowest being number zero.
pub open spec fn digit(v: int, i: nat) -> int {
    (v / (pow2(i) as int)) % 2
}

/// Whether the values of `count` targets from `first` on are the bits of `v`.
pub open spec fn are_digits(values: Seq<u32>, first: nat, count: nat, v: int) -> bool {
    forall|i: int| 0 <= i < count ==> #[trigger] values[first + i] == digit(v, i as nat)
}

/// The bits of a number make that number, up to the power of two of their count.
pub proof fn lemma_digits_make_value(values: Seq<u32>, first: nat, count: nat, v: int)
    requires
        0 <= v,
        are_digits(values, first, count, v),
    ensures
        are_bits(values, first, count),
        bits_value(values, first, count) == v % (pow2(count) as int),
    decreases count,
{
    lemma2_to64();
    assert forall|i: int| first <= i < first + count implies #[trigger] values[i] <= 1 by {
        assert(values[first + (i - first)] == digit(v, (i - first) as nat));
    }
    if count == 0 {
        assert(v % 1 == 0);
    } else {
        let k = (count - 1) as nat;
        assert(are_digits(values, first, k, v));
        lemma_digits_make_value(values, first, k, v);
        lemma_pow2_pos(k);
        lemma_pow2_unfold(count);
        lemma_mod_breakdown(v, pow2(k) as int, 2);
        assert(values[first as int + k as int] == digit(v, k));
        lemma_mul_is_commutative(pow2(k) as int, 2);
    }
}

/// Completeness of the decomposition: a value below the power of two of
/// the count satisfies the constraints together with its bits.
pub proof fn lemma_decomposition_is_complete(
    values: Seq<u32>,
    value: Target,
    first: nat,
    count: nat,
)
    requires
        all_canonical(values),
        count <= MAX_BITS,
        first + count <= values.len(),
        values.len() <= usize::MAX,
        value.index < values.len(),
        values[value.index as int] < pow2(count),
        are_digits(values, first, count, values[value.index as int] as int),
    ensures
        forall|i: int|
            0 <= i < count ==> constraint_holds(
                #[trigger] boolean_constraint(target(first + i)),
                values,
            ),
        constraint_holds(decomposition_constraint(value, first, count), values),
{
    let v = values[value.index as int] as int;
    lemma_digits_make_value(values, first, count, v);
    lemma_small_mod(v as nat, pow2(count));
    assert forall|i: int| 0 <= i < count implies constraint_holds(
        #[trigger] boolean_constraint(target(first + i)),
        values,
    ) by {
        lemma_boolean_constraint_holds(values, target(first + i));
    }
    lemma_decomposition_constraint_holds(values, value, first, count);
}

/// The constraint that `value`, `slack` and one add up to `bound` in the field.
pub open spec fn slack_constraint(value: Target, slack: Target, bound: Target) -> Constraint {
    Constraint::Zero(
        Expr::Cur(value.index).plus(Expr::Cur(slack.index)).plus(Expr::Const(1)).minus(
            Expr::Cur(bound.index),
        ),
    )
}

/// The circuit after `value` is bounded by `bound` with `count` bits: the
/// decomposition of `value`, one more target for the slack, the decomposition
/// of the slack, and the constraint that ties value, slack and bound.
pub open spec fn with_bound(view: CircuitView, value: Target, bound: Target, count: nat) -> CircuitView {
    let slack = target((view.num_targets() + count) as int);
    with_decomposition(with_decomposition(view, value, count).with_target(None), slack, count)
        .with_constraint(slack_constraint(value, slack, bound))
}

/// The targets that bounding a value adds.
pub struct RangeTargets {
    /// The bits of the value, the lowest first.
    pub value_bits: Vec<Target>,
    /// What the value lacks to the bound, less one.
    pub slack: Target,
    /// The bits of the slack, the lowest first.
    pub slack_bits: Vec<Target>,
}

/// Bounds `value` by `bound` with `count` bits: decomposes `value`, adds a
/// slack and decomposes it, and constrains value, slack and one to add up to
/// `bound`.
///
/// Fails with `InvalidInput`, leaving the circuit unchanged, where `value`
/// or `bound` is no target of the circuit or `count` is above [`MAX_BITS`].
pub fn bound_by_bits(circuit: &mut Circuit, value: Target, bound: Target, count: usize) -> (res:
    Result<RangeTargets, Error>)
    requires
        old(circuit).wf(),
        old(circuit).has_room((2 * count + 1) as nat, (2 * count + 3) as nat),
    ensures
        final(circuit).wf(),
        match res {
            Ok(added) => {
                &&& old(circuit)@.knows(value) && old(circuit)@.knows(bound)
                &&& count <= MAX_BITS
                &&& added.value_bits@ == Seq::new(
                    count as nat,
                    |i: int| target(old(circuit)@.num_targets() + i),
                )
                &&& added.slack == target(old(circuit)@.num_targets() + count)
                &&& added.slack_bits@ == Seq::new(
                    count as nat,
                    |i: int| target(old(circuit)@.num_targets() + count + 1 + i),
                )
                &&& final(circuit)@ == with_bound(old(circuit)@, value, bound, count as nat)
            },
            Err(e) => {
                &&& !(old(circuit)@.knows(value) && old(circuit)@.knows(bound) && count
                    <= MAX_BITS)
                &&& e == Error::InvalidInput
                &&& final(circuit)@ == old(circuit)@
            },
        },
{
    let first = circuit.num_targets();
    if value.index >= first || bound.index >= first || count > MAX_BITS {
        return Err(Error::InvalidInput);
    }
    let value_bits = match decompose(circuit, value, count) {
        Ok(bits) => bits,
        Err(e) => {
            return Err(e);
        },
    };
    let slack = circuit.add_virtual_target();
    let slack_bits = match decompose(circuit, slack, count) {
        Ok(bits) => bits,
        Err(e) => {
            assert(false);
            return Err(e);
        },
    };
    proof {
        reveal_with_fuel(expr_wf, 5);
        assert(slack_bits@ =~= Seq::new(count as nat, |i: int| target(first + count + 1 + i)));
    }
    let registered = circuit.register(
        Constraint::Zero(
            Expr::Cur(value.index).plus(Expr::Cur(slack.index)).plus(Expr::Const(1)).minus(
                Expr::Cur(bound.index),
            ),
        ),
    );
    assert(registered is Ok);
    Ok(RangeTargets { value_bits, slack, slack_bits })
}

/// The constraint on value, slack and bound holds exactly where the three
/// canonical representatives satisfy it in the field.
pub proof fn lemma_slack_constraint_holds(
    values: Seq<u32>,
    value: Target,
    slack: Target,
    bound: Target,
)
    requires
        all_canonical(values),
        value.index < values.len(),
        slack.index < values.len(),
        bound.index < values.len(),
    ensures
        constraint_holds(slack_constraint(value, slack, bound), values) <==> field_add(
            field_add(values[value.index as int] as int, values[slack.index as int] as int),
            1,
        ) == values[bound.index as int],
{
    reveal_with_fuel(expr_value, 4);
    assert(cell(values, values.len(), 0, value.index as int) == values[value.index as int]);
    assert(cell(values, values.len(), 0, slack.index as int) == values[slack.index as int]);
    assert(cell(values, values.len(), 0, bound.index as int) == values[bound.index as int]);
    let sum = field_add(values[value.index as int] as int, values[slack.index as int] as int);
    lemma_field_results_are_canonical(sum, 1);
    lemma_difference_is_zero_iff_equal(field_add(sum, 1), values[bound.index as int] as int);
}

/// Soundness of the bound: where the constraints that bounding registers
/// hold and the bound is not zero, the value lies below the bound, as the range
/// constraint says.
pub proof fn lemma_bound_is_sound(
    values: Seq<u32>,
    value: Target,
    bound: Target,
    first: nat,
    count: nat,
)
    requires
        all_canonical(values),
        count <= MAX_BITS,
        first + 2 * count + 1 <= values.len(),
        values.len() <= usize::MAX,
        value.index < values.len(),
        bound.index < values.len(),
        forall|i: int|
            0 <= i < count ==> constraint_holds(
                #[trigger] boolean_constraint(target(first + i)),
                values,
            ),
        constraint_holds(decomposition_constraint(value, first, count), values),
        forall|i: int|
            0 <= i < count ==> constraint_holds(
                #[trigger] boolean_constraint(target(first + count + 1 + i)),
                values,
            ),
        constraint_holds(
            decomposition_constraint(target((first + count) as int), first + count + 1, count),
            values,
        ),
        constraint_holds(slack_constraint(value, target((first + count) as int), bound), values),
        constraint_holds(Constraint::NonZero(bound), values),
    ensures
        constraint_holds(Constraint::Less { value, bound }, values),
{
    let slack = target((first + count) as int);
    let r = values[value.index as int] as int;
    let s = values[slack.index as int] as int;
    lemma_decomposition_is_sound(values, value, first, count);
    lemma_decomposition_is_sound(values, slack, first + count + 1, count);
    lemma_pow2_is_small(count);
    lemma_slack_constraint_holds(values, value, slack, bound);
    // Two numbers of at most thirty bits and one add up to the modulus at most.
    lemma_small_mod((r + s) as nat, MODULUS as nat);
    if r + s + 1 < MODULUS {
        lemma_small_mod((r + s + 1) as nat, MODULUS as nat);
    } else {
        lemma_mod_self_0(MODULUS as int);
    }
}

/// Completeness of the bound: a value below a bound that is at most the
/// power of two of the count satisfies the constraints together with its bits,
/// the slack and the bits of the slack.
pub proof fn lemma_bound_is_complete(
    values: Seq<u32>,
    value: Target,
    bound: Target,
    first: nat,
    count: nat,
)
    requires
        all_canonical(values),
        count <= MAX_BITS,
        first + 2 * count + 1 <= values.len(),
        values.len() <= usize::MAX,
        value.index < values.len(),
        bound.index < values.len(),
        values[value.index as int] < values[bound.index as int] <= pow2(count),
        values[(first + count) as int] == values[bound.index as int] - 1 - values[value.index as int],
        are_digits(values, first, count, values[value.index as int] as int),
        are_digits(values, first + count + 1, count, values[(first + count) as int] as int),
    ensures
        forall|i: int|
            0 <= i < count ==> constraint_holds(
                #[trigger] boolean_constraint(target(first + i)),
                values,
            ),
        constraint_holds(decomposition_constraint(value, first, count), values),
        forall|i: int|
            0 <= i < count ==> constraint_holds(
                #[trigger] boolean_constraint(target(first + count + 1 + i)),
                values,
            ),
        constraint_holds(
            decomposition_constraint(target((first + count) as int), first + count + 1, count),
            values,
        ),
        constraint_holds(slack_constraint(value, target((first + count) as int), bound), values),
{
    let slack = target((first + count) as int);
    let r = values[value.index as int] as int;
    let s = values[slack.index as int] as int;
    lemma_pow2_is_small(count);
    lemma_decomposition_is_complete(values, value, first, count);
    lemma_decomposition_is_complete(values, slack, first + count + 1, count);
    lemma_slack_constraint_holds(values, value, slack, bound);
    lemma_small_mod((r + s) as nat, MODULUS as nat);
    lemma_small_mod((r + s + 1) as nat, MODULUS as nat);
}

} // verus!
