//! The slack form of a linear program as mathematics sees it, and the pivot.
//!
//! In slack form every variable is either basic or nonbasic. Each basic
//! variable `i` is given by `x[i] = b[i] - sum of a[i][j] * x[j]` over the
//! nonbasic `j`, and the objective is `v + sum of c[j] * x[j]` over the
//! nonbasic `j`. The vectors and the matrix are indexed by all variables;
//! entries at other places than these are not read.

use crate::model::Model;
use crate::sums::masked_dot;
use vstd::prelude::*;

verus! {

/// The tolerance of every comparison: one hundred-millionth.
pub open spec fn eps() -> real {
    1real / 100000000real
}

/// A linear program in slack form.
pub struct Tableau {
    /// For each variable, whether it is basic.
    pub basic: Seq<bool>,
    /// The coefficient of a nonbasic variable in the row of a basic one.
    pub a: Seq<Seq<real>>,
    /// The value of each basic variable where the nonbasic ones are zero.
    pub b: Seq<real>,
    /// The reduced cost of each nonbasic variable.
    pub c: Seq<real>,
    /// The objective where the nonbasic variables are zero.
    pub v: real,
}

impl Tableau {
    /// The number of variables.
    pub open spec fn size(self) -> int {
        self.basic.len() as int
    }

    /// The vectors have one entry for each variable, and the matrix is square
    /// with one row for each.
    pub open spec fn wf(self) -> bool {
        &&& self.a.len() == self.basic.len()
        &&& self.b.len() == self.basic.len()
        &&& self.c.len() == self.basic.len()
        &&& forall|i: int|
            0 <= i < self.a.len() ==> (#[trigger] self.a[i]).len() == self.basic.len()
    }

    /// Variable `i` exists and is basic.
    pub open spec fn is_basic(self, i: int) -> bool {
        0 <= i < self.size() && self.basic[i]
    }

    /// Variable `j` exists and is nonbasic.
    pub open spec fn is_nonbasic(self, j: int) -> bool {
        0 <= j < self.size() && !self.basic[j]
    }

    /// The pair can be pivoted on: `leaving` is basic, `entering` is nonbasic,
    /// and the coefficient of the one in the row of the other is not zero.
    pub open spec fn can_pivot(self, leaving: int, entering: int) -> bool {
        &&& self.is_basic(leaving)
        &&& self.is_nonbasic(entering)
        &&& self.a[leaving][entering] != 0real
    }

    /// The value that `entering` takes when it replaces `leaving`.
    pub open spec fn entering_value(self, leaving: int, entering: int) -> real {
        self.b[leaving] / self.a[leaving][entering]
    }

    /// The coefficient of variable `j` in the row of `entering` after the
    /// pivot: the old row of `leaving` divided by the pivot element, with
    /// `leaving` in the place of `entering`.
    pub open spec fn entering_row(self, leaving: int, entering: int, j: int) -> real {
        if j == leaving {
            1real / self.a[leaving][entering]
        } else if self.is_nonbasic(j) && j != entering {
            self.a[leaving][j] / self.a[leaving][entering]
        } else {
            0real
        }
    }

    /// The value of variable `i` after the pivot.
    pub open spec fn pivot_b(self, leaving: int, entering: int, i: int) -> real {
        if i == entering {
            self.entering_value(leaving, entering)
        } else if self.is_basic(i) && i != leaving {
            self.b[i] - self.a[i][entering] * self.entering_value(leaving, entering)
        } else {
            0real
        }
    }

    /// The coefficient of variable `j` in the row of variable `i` after the
    /// pivot.
    pub open spec fn pivot_a(self, leaving: int, entering: int, i: int, j: int) -> real {
        if i == entering {
            self.entering_row(leaving, entering, j)
        } else if self.is_basic(i) && i != leaving {
            if j == leaving {
                -self.a[i][entering] * self.entering_row(leaving, entering, leaving)
            } else if self.is_nonbasic(j) && j != entering {
                self.a[i][j] - self.a[i][entering] * self.entering_row(leaving, entering, j)
            } else {
                0real
            }
        } else {
            0real
        }
    }

    /// The reduced cost of variable `j` after the pivot.
    pub open spec fn pivot_c(self, leaving: int, entering: int, j: int) -> real {
        if j == leaving {
            -self.c[entering] * self.entering_row(leaving, entering, leaving)
        } else if self.is_nonbasic(j) && j != entering {
            self.c[j] - self.c[entering] * self.entering_row(leaving, entering, j)
        } else {
            0real
        }
    }

    /// The tableau after `entering` has become basic in the place of
    /// `leaving`. Entries that the slack form does not read are zero.
    pub open spec fn pivot(self, leaving: int, entering: int) -> Tableau {
        Tableau {
            basic: self.basic.update(leaving, false).update(entering, true),
            a: Seq::new(
                self.size() as nat,
                |i: int|
                    Seq::new(
                        self.size() as nat,
                        |j: int| self.pivot_a(leaving, entering, i, j),
                    ),
            ),
            b: Seq::new(self.size() as nat, |i: int| self.pivot_b(leaving, entering, i)),
            c: Seq::new(self.size() as nat, |j: int| self.pivot_c(leaving, entering, j)),
            v: self.v + self.c[entering] * self.entering_value(leaving, entering),
        }
    }

    /// The basic solution: each basic variable at its value, the others at
    /// zero.
    pub open spec fn basic_solution(self) -> Seq<real> {
        Seq::new(self.size() as nat, |i: int| if self.basic[i] { self.b[i] } else { 0real })
    }

    /// For each variable, whether it is nonbasic.
    pub open spec fn free(self) -> Seq<bool> {
        Seq::new(self.size() as nat, |j: int| !self.basic[j])
    }

    /// The objective at `x`: `v` plus the reduced cost times the value, over
    /// the nonbasic variables.
    pub open spec fn objective(self, x: Seq<real>) -> real {
        self.v + masked_dot(self.free(), self.c, x, self.size())
    }

    /// What the nonbasic variables take from the basic variable `i` at `x`:
    /// the coefficient times the value, over the nonbasic variables.
    pub open spec fn row_sum(self, i: int, x: Seq<real>) -> real {
        masked_dot(self.free(), self.a[i], x, self.size())
    }

    /// `x` gives every variable a value, and the values meet the equation of
    /// every basic variable.
    pub open spec fn solved_by(self, x: Seq<real>) -> bool {
        &&& x.len() == self.size()
        &&& forall|i: int| self.is_basic(i) ==> x[i] == self.b[i] - self.row_sum(i, x)
    }
}

/// The slack form in which the variables of `s` are nonbasic and one slack
/// variable for each constraint, placed after them, is basic.
pub open spec fn plain_slack(s: Model) -> Tableau {
    let n = s.n();
    let size = (s.n() + s.m()) as nat;
    Tableau {
        basic: Seq::new(size, |i: int| i >= n),
        a: Seq::new(
            size,
            |i: int| Seq::new(size, |j: int| if i >= n && j < n { s.a[i - n][j] } else { 0real }),
        ),
        b: Seq::new(size, |i: int| if i >= n { s.b[i - n] } else { 0real }),
        c: Seq::new(size, |j: int| if j < n { s.c[j] } else { 0real }),
        v: 0real,
    }
}

/// The slack form of the auxiliary program of `s`: as [`plain_slack`], with
/// one more nonbasic variable at the end, whose coefficient is -1 in every
/// row, and with the objective to maximize its negation.
pub open spec fn auxiliary_slack(s: Model) -> Tableau {
    let n = s.n();
    let aux = s.n() + s.m();
    let size = (s.n() + s.m() + 1) as nat;
    Tableau {
        basic: Seq::new(size, |i: int| n <= i < aux),
        a: Seq::new(
            size,
            |i: int|
                Seq::new(
                    size,
                    |j: int|
                        if n <= i < aux && j < n {
                            s.a[i - n][j]
                        } else if n <= i < aux && j == aux {
                            -1real
                        } else {
                            0real
                        },
                ),
        ),
        b: Seq::new(size, |i: int| if n <= i < aux { s.b[i - n] } else { 0real }),
        c: Seq::new(size, |j: int| if j == aux { -1real } else { 0real }),
        v: 0real,
    }
}

/// A pivot keeps the shape of the tableau.
pub proof fn pivot_keeps_shape(t: Tableau, leaving: int, entering: int)
    requires
        t.wf(),
        0 <= leaving < t.size(),
        0 <= entering < t.size(),
    ensures
        t.pivot(leaving, entering).wf(),
        t.pivot(leaving, entering).size() == t.size(),
{
}

/// A pivot makes `entering` basic and `leaving` nonbasic and leaves every
/// other variable on its side.
pub proof fn pivot_exchanges(t: Tableau, leaving: int, entering: int)
    requires
        t.wf(),
        t.is_basic(leaving),
        t.is_nonbasic(entering),
    ensures
        t.pivot(leaving, entering).is_basic(entering),
        t.pivot(leaving, entering).is_nonbasic(leaving),
        forall|i: int|
            i != leaving && i != entering ==> (t.pivot(leaving, entering).is_basic(i)
                <==> t.is_basic(i)),
{
}

} // verus!
