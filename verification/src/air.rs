//! Constraint expressions and constraint sets: the description of a
//! computation as conditions on the first row, on the last row and on every
//! pair of adjacent rows of its trace.

use crate::field::{
    all_canonical, field_add, field_mul, field_sub, is_canonical, m31_add, m31_mul, m31_sub,
    MODULUS,
};
use crate::matrix::cell;
use vstd::prelude::*;

verus! {

/// An arithmetic expression over the entries of one row, or of a row and the
/// row that follows it. A constraint holds where its expression is zero.
#[derive(Debug, PartialEq, Eq)]
pub enum Expr {
    /// A field element, as its canonical representative.
    Const(u32),
    /// The entry of the current row in the given column.
    Cur(usize),
    /// The entry of the next row in the given column.
    Next(usize),
    /// The sum of two expressions.
    Add(Box<Expr>, Box<Expr>),
    /// The difference of two expressions.
    Sub(Box<Expr>, Box<Expr>),
    /// The product of two expressions.
    Mul(Box<Expr>, Box<Expr>),
}

impl Expr {
    /// The sum of `self` and `rhs`.
    pub open spec fn spec_plus(self, rhs: Expr) -> Expr {
        Expr::Add(Box::new(self), Box::new(rhs))
    }

    /// The sum of `self` and `rhs`.
    #[verifier::when_used_as_spec(spec_plus)]
    pub fn plus(self, rhs: Expr) -> (e: Expr)
        ensures
            e == self.spec_plus(rhs),
    {
        Expr::Add(Box::new(self), Box::new(rhs))
    }

    /// The difference of `self` and `rhs`: zero where the two are equal.
    pub open spec fn spec_minus(self, rhs: Expr) -> Expr {
        Expr::Sub(Box::new(self), Box::new(rhs))
    }

    /// The difference of `self` and `rhs`: zero where the two are equal.
    #[verifier::when_used_as_spec(spec_minus)]
    pub fn minus(self, rhs: Expr) -> (e: Expr)
        ensures
            e == self.spec_minus(rhs),
    {
        Expr::Sub(Box::new(self), Box::new(rhs))
    }

    /// The product of `self` and `rhs`.
    pub open spec fn spec_times(self, rhs: Expr) -> Expr {
        Expr::Mul(Box::new(self), Box::new(rhs))
    }

    /// The product of `self` and `rhs`.
    #[verifier::when_used_as_spec(spec_times)]
    pub fn times(self, rhs: Expr) -> (e: Expr)
        ensures
            e == self.spec_times(rhs),
    {
        Expr::Mul(Box::new(self), Box::new(rhs))
    }
}

/// Whether `e` can be evaluated on rows of `width` entries: its constants are
/// canonical, its columns lie below `width`, and it reads a next row only where
/// `two_rows` allows it.
pub open spec fn expr_wf(e: Expr, width: nat, two_rows: bool) -> bool
    decreases e,
{
    match e {
        Expr::Const(c) => is_canonical(c),
        Expr::Cur(c) => c < width,
        Expr::Next(c) => two_rows && c < width,
        Expr::Add(l, r) => expr_wf(*l, width, two_rows) && expr_wf(*r, width, two_rows),
        Expr::Sub(l, r) => expr_wf(*l, width, two_rows) && expr_wf(*r, width, two_rows),
        Expr::Mul(l, r) => expr_wf(*l, width, two_rows) && expr_wf(*r, width, two_rows),
    }
}

/// The value of `e`, as a canonical representative, where row `cur` of the
/// trace is the current row and row `next` the next one.
pub open spec fn expr_value(e: Expr, cells: Seq<u32>, width: nat, cur: int, next: int) -> int
    decreases e,
{
    match e {
        Expr::Const(c) => c as int,
        Expr::Cur(c) => cell(cells, width, cur, c as int) as int,
        Expr::Next(c) => cell(cells, width, next, c as int) as int,
        Expr::Add(l, r) => field_add(
            expr_value(*l, cells, width, cur, next),
            expr_value(*r, cells, width, cur, next),
        ),
        Expr::Sub(l, r) => field_sub(
            expr_value(*l, cells, width, cur, next),
            expr_value(*r, cells, width, cur, next),
        ),
        Expr::Mul(l, r) => field_mul(
            expr_value(*l, cells, width, cur, next),
            expr_value(*r, cells, width, cur, next),
        ),
    }
}

/// Decides [`expr_wf`].
pub fn check_expr(e: &Expr, width: usize, two_rows: bool) -> (ok: bool)
    ensures
        ok == expr_wf(*e, width as nat, two_rows),
    decreases *e,
{
    match e {
        Expr::Const(c) => *c < MODULUS,
        Expr::Cur(c) => *c < width,
        Expr::Next(c) => two_rows && *c < width,
        Expr::Add(l, r) => check_expr(l, width, two_rows) && check_expr(r, width, two_rows),
        Expr::Sub(l, r) => check_expr(l, width, two_rows) && check_expr(r, width, two_rows),
        Expr::Mul(l, r) => check_expr(l, width, two_rows) && check_expr(r, width, two_rows),
    }
}

/// Reads the entry in row `r` and column `c` of a trace.
pub fn read_cell(cells: &[u32], width: usize, r: usize, c: usize) -> (v: u32)
    requires
        c < width,
        (r + 1) * width <= cells@.len(),
    ensures
        v == cell(cells@, width as nat, r as int, c as int),
        all_canonical(cells@) ==> is_canonical(v),
{
    let len = cells.len();
    assert(r * width + width == (r + 1) * width) by (nonlinear_arith);
    assert(r * width + c < len);
    cells[r * width + c]
}

/// Evaluates `e` with row `cur` as the current row and row `next` as the next one.
pub fn eval_expr(e: &Expr, cells: &[u32], width: usize, cur: usize, next: usize) -> (v: u32)
    requires
        expr_wf(*e, width as nat, true),
        all_canonical(cells@),
        (cur + 1) * width <= cells@.len(),
        (next + 1) * width <= cells@.len(),
    ensures
        v == expr_value(*e, cells@, width as nat, cur as int, next as int),
        is_canonical(v),
    decreases *e,
{
    match e {
        Expr::Const(c) => *c,
        Expr::Cur(c) => read_cell(cells, width, cur, *c),
        Expr::Next(c) => read_cell(cells, width, next, *c),
        Expr::Add(l, r) => {
            let a = eval_expr(l, cells, width, cur, next);
            let b = eval_expr(r, cells, width, cur, next);
            m31_add(a, b)
        },
        Expr::Sub(l, r) => {
            let a = eval_expr(l, cells, width, cur, next);
            let b = eval_expr(r, cells, width, cur, next);
            m31_sub(a, b)
        },
        Expr::Mul(l, r) => {
            let a = eval_expr(l, cells, width, cur, next);
            let b = eval_expr(r, cells, width, cur, next);
            m31_mul(a, b)
        },
    }
}


/// The constraints of a computation on a trace of `width` columns.
///
/// A constraint is identified by its position in the concatenation of
/// `first_row`, `last_row` and `transition`.
#[derive(Debug, PartialEq, Eq)]
pub struct ConstraintSet {
    /// The number of columns of the traces that the constraints apply to.
    pub width: usize,
    /// Expressions that are zero on the first row.
    pub first_row: Vec<Expr>,
    /// Expressions that are zero on the last row.
    pub last_row: Vec<Expr>,
    /// Expressions that are zero on every row and the row after it.
    pub transition: Vec<Expr>,
}

/// Whether every expression of `exprs` satisfies [`expr_wf`].
pub open spec fn all_wf(exprs: Seq<Expr>, width: nat, two_rows: bool) -> bool {
    forall|i: int| 0 <= i < exprs.len() ==> expr_wf(#[trigger] exprs[i], width, two_rows)
}

impl ConstraintSet {
    /// The number of constraints.
    pub open spec fn count(&self) -> nat {
        self.first_row@.len() + self.last_row@.len() + self.transition@.len()
    }

    /// The invariant of a constraint set: every expression reads only columns
    /// below `width`, only transition constraints read a next row, and every
    /// constraint has an identifier.
    pub open spec fn wf(&self) -> bool {
        &&& self.count() <= usize::MAX
        &&& all_wf(self.first_row@, self.width as nat, false)
        &&& all_wf(self.last_row@, self.width as nat, false)
        &&& all_wf(self.transition@, self.width as nat, true)
    }

    /// Decides [`ConstraintSet::wf`].
    pub fn is_well_formed(&self) -> (ok: bool)
        ensures
            ok == self.wf(),
    {
        let nf = self.first_row.len();
        let nl = self.last_row.len();
        let nt = self.transition.len();
        if nl > usize::MAX - nf || nt > usize::MAX - nf - nl {
            return false;
        }
        check_exprs(&self.first_row, self.width, false) && check_exprs(
            &self.last_row,
            self.width,
            false,
        ) && check_exprs(&self.transition, self.width, true)
    }
}

/// Decides [`all_wf`].
pub fn check_exprs(exprs: &Vec<Expr>, width: usize, two_rows: bool) -> (ok: bool)
    ensures
        ok == all_wf(exprs@, width as nat, two_rows),
{
    let mut i: usize = 0;
    while i < exprs.len()
        invariant
            i <= exprs@.len(),
            forall|k: int| 0 <= k < i ==> expr_wf(#[trigger] exprs@[k], width as nat, two_rows),
        decreases exprs@.len() - i,
    {
        if !check_expr(&exprs[i], width, two_rows) {
            return false;
        }
        i += 1;
    }
    true
}

/// A well-formed expression without a next row is also well formed where a
/// next row is allowed.
pub proof fn lemma_wf_allows_two_rows(e: Expr, width: nat)
    requires
        expr_wf(e, width, false),
    ensures
        expr_wf(e, width, true),
    decreases e,
{
    match e {
        Expr::Add(l, r) => {
            lemma_wf_allows_two_rows(*l, width);
            lemma_wf_allows_two_rows(*r, width);
        },
        Expr::Sub(l, r) => {
            lemma_wf_allows_two_rows(*l, width);
            lemma_wf_allows_two_rows(*r, width);
        },
        Expr::Mul(l, r) => {
            lemma_wf_allows_two_rows(*l, width);
            lemma_wf_allows_two_rows(*r, width);
        },
        _ => {},
    }
}

/// Finds the first expression of `exprs` that is not zero on the rows `cur`
/// and `next`.
pub fn first_nonzero(exprs: &Vec<Expr>, cells: &[u32], width: usize, cur: usize, next: usize) -> (found: Option<usize>)
    requires
        all_wf(exprs@, width as nat, true),
        all_canonical(cells@),
        (cur + 1) * width <= cells@.len(),
        (next + 1) * width <= cells@.len(),
    ensures
        match found {
            Some(j) => {
                &&& j < exprs@.len()
                &&& expr_value(exprs@[j as int], cells@, width as nat, cur as int, next as int) != 0
                &&& forall|k: int|
                    0 <= k < j ==> expr_value(
                        #[trigger] exprs@[k],
                        cells@,
                        width as nat,
                        cur as int,
                        next as int,
                    ) == 0
            },
            None => forall|k: int|
                0 <= k < exprs@.len() ==> expr_value(
                    #[trigger] exprs@[k],
                    cells@,
                    width as nat,
                    cur as int,
                    next as int,
                ) == 0,
        },
{
    let mut j: usize = 0;
    while j < exprs.len()
        invariant
            j <= exprs@.len(),
            all_wf(exprs@, width as nat, true),
            all_canonical(cells@),
            (cur + 1) * width <= cells@.len(),
            (next + 1) * width <= cells@.len(),
            forall|k: int|
                0 <= k < j ==> expr_value(
                    #[trigger] exprs@[k],
                    cells@,
                    width as nat,
                    cur as int,
                    next as int,
                ) == 0,
        decreases exprs@.len() - j,
    {
        if eval_expr(&exprs[j], cells, width, cur, next) != 0 {
            return Some(j);
        }
        j += 1;
    }
    None
}

} // verus!
