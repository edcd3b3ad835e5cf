//! The linear program in standard form: maximize `c . x` subject to
//! `A x <= b` and `x >= 0`.

use crate::rational::{copy_rows, copy_values, real_rows, reals, Rational};
use crate::sums::dot;
use vstd::prelude::*;

verus! {

/// A linear program in standard form, as mathematics sees it.
pub struct Model {
    /// The objective's coefficients, one for each variable.
    pub c: Seq<real>,
    /// The constraints' coefficients, one row for each constraint.
    pub a: Seq<Seq<real>>,
    /// The constraints' right-hand sides.
    pub b: Seq<real>,
}

impl Model {
    /// The number of variables.
    pub open spec fn n(self) -> int {
        self.c.len() as int
    }

    /// The number of constraints.
    pub open spec fn m(self) -> int {
        self.b.len() as int
    }

    /// The objective at the point `x`.
    pub open spec fn objective(self, x: Seq<real>) -> real {
        dot(self.c, x)
    }

    /// The left-hand side of constraint `k` at the point `x`.
    pub open spec fn row(self, k: int, x: Seq<real>) -> real {
        dot(self.a[k], x)
    }

    /// The point `x` is feasible: it has a value for each variable, none of
    /// them negative, and meets every constraint.
    pub open spec fn feasible(self, x: Seq<real>) -> bool {
        &&& x.len() == self.n()
        &&& forall|j: int| 0 <= j < self.n() ==> x[j] >= 0real
        &&& forall|k: int| 0 <= k < self.m() ==> self.row(k, x) <= self.b[k]
    }

    /// The point `x`, followed by what it leaves of each constraint.
    pub open spec fn with_slack(self, x: Seq<real>) -> Seq<real> {
        Seq::new(
            (self.n() + self.m()) as nat,
            |i: int|
                if i < self.n() {
                    x[i]
                } else {
                    self.b[i - self.n()] - self.row(i - self.n(), x)
                },
        )
    }

    /// There is one row for each right-hand side, and every row has one
    /// coefficient for each variable.
    pub open spec fn wf(self) -> bool {
        &&& self.a.len() == self.b.len()
        &&& forall|i: int| 0 <= i < self.a.len() ==> (#[trigger] self.a[i]).len() == self.c.len()
    }
}

/// Why a linear program was refused.
#[derive(Debug, Clone, Copy, PartialEq, Eq, Structural)]
pub enum ConfigError {
    /// The number of rows differs from the number of right-hand sides.
    ConstraintCount,
    /// Some row has not one coefficient for each variable.
    RowLength,
}

/// A linear program in standard form whose dimensions agree.
#[derive(Debug)]
pub struct StandardForm {
    c: Vec<Rational>,
    a: Vec<Vec<Rational>>,
    b: Vec<Rational>,
}

impl View for StandardForm {
    type V = Model;

    closed spec fn view(&self) -> Model {
        Model { c: reals(self.c@), a: real_rows(self.a@), b: reals(self.b@) }
    }
}

impl Clone for StandardForm {
    fn clone(&self) -> (r: Self)
        ensures
            r@ == self@,
    {
        proof {
            use_type_invariant(self);
        }
        StandardForm {
            c: copy_values(&self.c),
            a: copy_rows(&self.a),
            b: copy_values(&self.b),
        }
    }
}

/// Every one of the rows has `n` entries.
pub open spec fn rows_have_length(a: Seq<Vec<Rational>>, n: nat) -> bool {
    forall|i: int| 0 <= i < a.len() ==> (#[trigger] a[i]).len() == n
}

impl StandardForm {
    #[verifier::type_invariant]
    spec fn inv(self) -> bool {
        &&& self.a.len() == self.b.len()
        &&& rows_have_length(self.a@, self.c@.len())
        &&& self.c.len() + self.b.len() < usize::MAX
    }

    /// The program with objective `c`, constraint rows `a` and right-hand
    /// sides `b`, or the reason why the three do not fit together. The row
    /// count is looked at first.
    pub fn new(c: Vec<Rational>, a: Vec<Vec<Rational>>, b: Vec<Rational>) -> (r: Result<
        StandardForm,
        ConfigError,
    >)
        requires
            c.len() + b.len() < usize::MAX,
        ensures
            r is Ok <==> a.len() == b.len() && rows_have_length(a@, c@.len()),
            r is Ok ==> r->Ok_0@ == (Model { c: reals(c@), a: real_rows(a@), b: reals(b@) })
                && r->Ok_0@.wf(),
            r matches Err(e) ==> (e == ConfigError::ConstraintCount <==> a.len() != b.len()),
    {
        if a.len() != b.len() {
            return Err(ConfigError::ConstraintCount);
        }
        let mut i: usize = 0;
        while i < a.len()
            invariant
                i <= a.len(),
                a.len() == b.len(),
                c.len() + b.len() < usize::MAX,
                forall|k: int| 0 <= k < i ==> (#[trigger] a@[k]).len() == c@.len(),
            decreases a.len() - i,
        {
            if a[i].len() != c.len() {
                return Err(ConfigError::RowLength);
            }
            i += 1;
        }
        Ok(StandardForm { c, a, b })
    }

    /// The number of variables.
    pub fn dimensions(&self) -> (r: usize)
        ensures
            r == self@.n(),
    {
        self.c.len()
    }

    /// The number of constraints. The dimensions of every program of this type
    /// agree, and its variables and constraints can be counted together.
    pub fn num_constraints(&self) -> (r: usize)
        ensures
            r == self@.m(),
            self@.wf(),
            self@.n() + self@.m() < usize::MAX,
    {
        proof {
            use_type_invariant(self);
            assert forall|i: int| 0 <= i < self@.a.len() implies (#[trigger] self@.a[i]).len()
                == self@.c.len() by {
                assert(self.a@[i].len() == self.c@.len());
            }
        }
        self.b.len()
    }

    /// The objective's coefficient of variable `j`.
    pub fn objective(&self, j: usize) -> (r: &Rational)
        requires
            j < self@.n(),
        ensures
            r@ == self@.c[j as int],
    {
        &self.c[j]
    }

    /// The coefficient of variable `j` in constraint `i`.
    pub fn coefficient(&self, i: usize, j: usize) -> (r: &Rational)
        requires
            i < self@.m(),
            j < self@.n(),
        ensures
            r@ == self@.a[i as int][j as int],
    {
        proof {
            use_type_invariant(self);
        }
        &self.a[i][j]
    }

    /// The right-hand side of constraint `i`.
    pub fn bound(&self, i: usize) -> (r: &Rational)
        requires
            i < self@.m(),
        ensures
            r@ == self@.b[i as int],
    {
        &self.b[i]
    }
}

} // verus!
