//! The slack form that the solver pivots on.
//!
//! A [`SlackForm`] is immutable: a pivot builds a new one.

use crate::model::{Model, StandardForm};
use crate::rational::{copy_rows, copy_values, real_rows, reals, Rational};
use crate::sums::masked_dot;
use crate::tableau::{auxiliary_slack, plain_slack, Tableau};
use vstd::prelude::*;

verus! {

/// A linear program in slack form, with the partition of its variables held
/// as one flag for each variable.
#[derive(Debug)]
pub struct SlackForm {
    basic: Vec<bool>,
    a: Vec<Vec<Rational>>,
    b: Vec<Rational>,
    c: Vec<Rational>,
    v: Rational,
}

impl View for SlackForm {
    type V = Tableau;

    closed spec fn view(&self) -> Tableau {
        Tableau {
            basic: self.basic@,
            a: real_rows(self.a@),
            b: reals(self.b@),
            c: reals(self.c@),
            v: self.v@,
        }
    }
}

impl Clone for SlackForm {
    fn clone(&self) -> (r: Self)
        ensures
            r@ == self@,
    {
        proof {
            use_type_invariant(self);
        }
        let basic = self.basic.clone();
        assert(basic@ =~= self.basic@);
        SlackForm {
            basic,
            a: copy_rows(&self.a),
            b: copy_values(&self.b),
            c: copy_values(&self.c),
            v: self.v.clone(),
        }
    }
}

impl SlackForm {
    #[verifier::type_invariant]
    spec fn inv(self) -> bool {
        &&& self.a.len() == self.basic.len()
        &&& self.b.len() == self.basic.len()
        &&& self.c.len() == self.basic.len()
        &&& forall|i: int|
            0 <= i < self.a.len() ==> (#[trigger] self.a@[i]).len() == self.basic.len()
    }

    /// The number of variables. The vectors and the matrix of every slack
    /// form of this type have that size.
    pub fn size(&self) -> (r: usize)
        ensures
            r == self@.size(),
            self@.wf(),
    {
        proof {
            use_type_invariant(self);
            assert forall|i: int| 0 <= i < self@.a.len() implies (#[trigger] self@.a[i]).len()
                == self@.basic.len() by {
                assert(self.a@[i].len() == self.basic.len());
            }
        }
        self.basic.len()
    }

    /// Whether variable `i` is basic.
    pub fn is_basic(&self, i: usize) -> (r: bool)
        requires
            i < self@.size(),
        ensures
            r == self@.basic[i as int],
    {
        self.basic[i]
    }

    /// The coefficient of variable `j` in the row of variable `i`.
    pub fn a(&self, i: usize, j: usize) -> (r: &Rational)
        requires
            i < self@.size(),
            j < self@.size(),
        ensures
            r@ == self@.a[i as int][j as int],
    {
        proof {
            use_type_invariant(self);
        }
        &self.a[i][j]
    }

    /// The value of variable `i`.
    pub fn b(&self, i: usize) -> (r: &Rational)
        requires
            i < self@.size(),
        ensures
            r@ == self@.b[i as int],
    {
        proof {
            use_type_invariant(self);
        }
        &self.b[i]
    }

    /// The reduced cost of variable `j`.
    pub fn c(&self, j: usize) -> (r: &Rational)
        requires
            j < self@.size(),
        ensures
            r@ == self@.c[j as int],
    {
        proof {
            use_type_invariant(self);
        }
        &self.c[j]
    }

    /// The objective where the nonbasic variables are zero.
    pub fn v(&self) -> (r: &Rational)
        ensures
            r@ == self@.v,
    {
        &self.v
    }

    /// The variables that are basic, or with `basic` false those that are
    /// nonbasic, in rising order.
    fn side(&self, basic: bool) -> (r: Vec<usize>)
        ensures
            forall|k: int|
                0 <= k < r.len() ==> r@[k] < self@.size() && self@.basic[r@[k] as int] == basic,
            forall|i: int|
                0 <= i < self@.size() && self@.basic[i] == basic ==> r@.contains(i as usize),
            forall|k: int, l: int| 0 <= k < l < r.len() ==> r@[k] < r@[l],
    {
        let n = self.size();
        let mut r: Vec<usize> = Vec::new();
        let mut i: usize = 0;
        while i < n
            invariant
                i <= n,
                n == self@.size(),
                forall|k: int| 0 <= k < r.len() ==> r@[k] < i && self@.basic[r@[k] as int] == basic,
                forall|j: int| 0 <= j < i && self@.basic[j] == basic ==> r@.contains(j as usize),
                forall|k: int, l: int| 0 <= k < l < r.len() ==> r@[k] < r@[l],
            decreases n - i,
        {
            if self.is_basic(i) == basic {
                let ghost before = r@;
                r.push(i);
                assert forall|j: int| 0 <= j <= i && self@.basic[j] == basic implies r@.contains(
                    j as usize,
                ) by {
                    if j < i {
                        let k = choose|k: int| 0 <= k < before.len() && before[k] == j as usize;
                        assert(r@[k] == j as usize);
                    } else {
                        assert(r@[r.len() - 1] == i);
                    }
                }
            }
            i += 1;
        }
        r
    }

    /// The basic variables, in rising order.
    pub fn basic(&self) -> (r: Vec<usize>)
        ensures
            forall|k: int| 0 <= k < r.len() ==> self@.is_basic(r@[k] as int),
            forall|i: int| self@.is_basic(i) ==> r@.contains(i as usize),
            forall|k: int, l: int| 0 <= k < l < r.len() ==> r@[k] < r@[l],
    {
        self.side(true)
    }

    /// The nonbasic variables, in rising order.
    pub fn nonbasic(&self) -> (r: Vec<usize>)
        ensures
            forall|k: int| 0 <= k < r.len() ==> self@.is_nonbasic(r@[k] as int),
            forall|i: int| self@.is_nonbasic(i) ==> r@.contains(i as usize),
            forall|k: int, l: int| 0 <= k < l < r.len() ==> r@[k] < r@[l],
    {
        self.side(false)
    }

    /// The slack form with the given parts.
    pub(crate) fn from_parts(
        basic: Vec<bool>,
        a: Vec<Vec<Rational>>,
        b: Vec<Rational>,
        c: Vec<Rational>,
        v: Rational,
    ) -> (r: SlackForm)
        requires
            a.len() == basic.len(),
            b.len() == basic.len(),
            c.len() == basic.len(),
            forall|i: int| 0 <= i < a.len() ==> (#[trigger] a@[i]).len() == basic.len(),
        ensures
            r@ == (Tableau {
                basic: basic@,
                a: real_rows(a@),
                b: reals(b@),
                c: reals(c@),
                v: v@,
            }),
    {
        SlackForm { basic, a, b, c, v }
    }

    /// The row of `entering` after the pivot.
    fn pivot_row(&self, leaving: usize, entering: usize) -> (row: Vec<Rational>)
        requires
            self@.can_pivot(leaving as int, entering as int),
        ensures
            row.len() == self@.size(),
            forall|j: int|
                0 <= j < row.len() ==> (#[trigger] row@[j])@ == self@.entering_row(
                    leaving as int,
                    entering as int,
                    j,
                ),
    {
        let n = self.size();
        let p = self.a(leaving, entering);
        let mut row: Vec<Rational> = Vec::new();
        let mut j: usize = 0;
        while j < n
            invariant
                j <= n,
                n == self@.size(),
                self@.wf(),
                self@.can_pivot(leaving as int, entering as int),
                p@ == self@.a[leaving as int][entering as int],
                row.len() == j,
                forall|k: int|
                    0 <= k < j ==> (#[trigger] row@[k])@ == self@.entering_row(
                        leaving as int,
                        entering as int,
                        k,
                    ),
            decreases n - j,
        {
            let x = if j == leaving {
                Rational::from_int(1).div(p)
            } else if !self.is_basic(j) && j != entering {
                self.a(leaving, j).div(p)
            } else {
                Rational::from_int(0)
            };
            row.push(x);
            j += 1;
        }
        row
    }

    /// The values after the pivot, `value` being the value of `entering`.
    fn pivot_values(&self, leaving: usize, entering: usize, value: &Rational) -> (b: Vec<Rational>)
        requires
            self@.can_pivot(leaving as int, entering as int),
            value@ == self@.entering_value(leaving as int, entering as int),
        ensures
            b.len() == self@.size(),
            reals(b@) == self@.pivot(leaving as int, entering as int).b,
    {
        let n = self.size();
        let mut b: Vec<Rational> = Vec::new();
        let mut i: usize = 0;
        while i < n
            invariant
                i <= n,
                n == self@.size(),
                self@.wf(),
                self@.can_pivot(leaving as int, entering as int),
                value@ == self@.entering_value(leaving as int, entering as int),
                b.len() == i,
                forall|k: int|
                    0 <= k < i ==> (#[trigger] b@[k])@ == self@.pivot_b(
                        leaving as int,
                        entering as int,
                        k,
                    ),
            decreases n - i,
        {
            let x = if i == entering {
                value.clone()
            } else if self.is_basic(i) && i != leaving {
                self.b(i).sub(&self.a(i, entering).mul(value))
            } else {
                Rational::from_int(0)
            };
            b.push(x);
            i += 1;
        }
        assert(reals(b@) =~= self@.pivot(leaving as int, entering as int).b);
        b
    }

    /// Row `i` of the matrix after the pivot, `row` being the row of
    /// `entering`.
    fn pivot_matrix_row(
        &self,
        leaving: usize,
        entering: usize,
        row: &Vec<Rational>,
        i: usize,
    ) -> (r: Vec<Rational>)
        requires
            self@.can_pivot(leaving as int, entering as int),
            i < self@.size(),
            row.len() == self@.size(),
            forall|j: int|
                0 <= j < row.len() ==> (#[trigger] row@[j])@ == self@.entering_row(
                    leaving as int,
                    entering as int,
                    j,
                ),
        ensures
            r.len() == self@.size(),
            reals(r@) == self@.pivot(leaving as int, entering as int).a[i as int],
    {
        let n = self.size();
        let mut r: Vec<Rational> = Vec::new();
        let mut j: usize = 0;
        while j < n
            invariant
                j <= n,
                n == self@.size(),
                i < n,
                self@.wf(),
                self@.can_pivot(leaving as int, entering as int),
                row.len() == n,
                forall|k: int|
                    0 <= k < row.len() ==> (#[trigger] row@[k])@ == self@.entering_row(
                        leaving as int,
                        entering as int,
                        k,
                    ),
                r.len() == j,
                forall|k: int|
                    0 <= k < j ==> (#[trigger] r@[k])@ == self@.pivot_a(
                        leaving as int,
                        entering as int,
                        i as int,
                        k,
                    ),
            decreases n - j,
        {
            let x = if i == entering {
                row[j].clone()
            } else if self.is_basic(i) && i != leaving {
                if j == leaving {
                    self.a(i, entering).neg().mul(&row[leaving])
                } else if !self.is_basic(j) && j != entering {
                    self.a(i, j).sub(&self.a(i, entering).mul(&row[j]))
                } else {
                    Rational::from_int(0)
                }
            } else {
                Rational::from_int(0)
            };
            r.push(x);
            j += 1;
        }
        assert(reals(r@) =~= self@.pivot(leaving as int, entering as int).a[i as int]);
        r
    }

    /// The reduced costs after the pivot, `row` being the row of `entering`.
    fn pivot_costs(&self, leaving: usize, entering: usize, row: &Vec<Rational>) -> (c: Vec<
        Rational,
    >)
        requires
            self@.can_pivot(leaving as int, entering as int),
            row.len() == self@.size(),
            forall|j: int|
                0 <= j < row.len() ==> (#[trigger] row@[j])@ == self@.entering_row(
                    leaving as int,
                    entering as int,
                    j,
                ),
        ensures
            c.len() == self@.size(),
            reals(c@) == self@.pivot(leaving as int, entering as int).c,
    {
        let n = self.size();
        let mut c: Vec<Rational> = Vec::new();
        let mut j: usize = 0;
        while j < n
            invariant
                j <= n,
                n == self@.size(),
                self@.wf(),
                self@.can_pivot(leaving as int, entering as int),
                row.len() == n,
                forall|k: int|
                    0 <= k < row.len() ==> (#[trigger] row@[k])@ == self@.entering_row(
                        leaving as int,
                        entering as int,
                        k,
                    ),
                c.len() == j,
                forall|k: int|
                    0 <= k < j ==> (#[trigger] c@[k])@ == self@.pivot_c(
                        leaving as int,
                        entering as int,
                        k,
                    ),
            decreases n - j,
        {
            let x = if j == leaving {
                self.c(entering).neg().mul(&row[leaving])
            } else if !self.is_basic(j) && j != entering {
                self.c(j).sub(&self.c(entering).mul(&row[j]))
            } else {
                Rational::from_int(0)
            };
            c.push(x);
            j += 1;
        }
        assert(reals(c@) =~= self@.pivot(leaving as int, entering as int).c);
        c
    }

    /// The partition after the pivot.
    fn pivot_partition(&self, leaving: usize, entering: usize) -> (basic: Vec<bool>)
        requires
            leaving < self@.size(),
            entering < self@.size(),
        ensures
            basic@ == self@.basic.update(leaving as int, false).update(entering as int, true),
    {
        let n = self.size();
        let mut basic: Vec<bool> = Vec::new();
        let mut i: usize = 0;
        while i < n
            invariant
                i <= n,
                n == self@.size(),
                leaving < n,
                entering < n,
                basic.len() == i,
                forall|k: int|
                    0 <= k < i ==> basic@[k] == self@.basic.update(leaving as int, false).update(
                        entering as int,
                        true,
                    )[k],
            decreases n - i,
        {
            let x = if i == entering {
                true
            } else if i == leaving {
                false
            } else {
                self.is_basic(i)
            };
            basic.push(x);
            i += 1;
        }
        assert(basic@ =~= self@.basic.update(leaving as int, false).update(entering as int, true));
        basic
    }

    /// The slack form in which `entering` is basic in the place of
    /// `leaving`.
    pub fn pivot(&self, leaving: usize, entering: usize) -> (r: SlackForm)
        requires
            self@.can_pivot(leaving as int, entering as int),
        ensures
            r@ == self@.pivot(leaving as int, entering as int),
    {
        let n = self.size();
        let value = self.b(leaving).div(self.a(leaving, entering));
        let row = self.pivot_row(leaving, entering);
        let b = self.pivot_values(leaving, entering, &value);
        let c = self.pivot_costs(leaving, entering, &row);
        let basic = self.pivot_partition(leaving, entering);
        let v = self.v().add(&self.c(entering).mul(&value));
        let mut a: Vec<Vec<Rational>> = Vec::new();
        let mut i: usize = 0;
        while i < n
            invariant
                i <= n,
                n == self@.size(),
                self@.wf(),
                self@.can_pivot(leaving as int, entering as int),
                row.len() == n,
                forall|k: int|
                    0 <= k < row.len() ==> (#[trigger] row@[k])@ == self@.entering_row(
                        leaving as int,
                        entering as int,
                        k,
                    ),
                a.len() == i,
                forall|k: int| 0 <= k < i ==> (#[trigger] a@[k]).len() == n,
                forall|k: int|
                    0 <= k < i ==> reals(#[trigger] a@[k]@) == self@.pivot(
                        leaving as int,
                        entering as int,
                    ).a[k],
            decreases n - i,
        {
            let r = self.pivot_matrix_row(leaving, entering, &row, i);
            a.push(r);
            i += 1;
        }
        assert(real_rows(a@) =~= self@.pivot(leaving as int, entering as int).a);
        SlackForm { basic, a, b, c, v }
    }

    /// The basic solution: each basic variable at its value, the others at
    /// zero.
    pub fn get_basic_solution(&self) -> (solution: Vec<Rational>)
        ensures
            solution.len() == self@.size(),
            reals(solution@) == self@.basic_solution(),
    {
        let n = self.size();
        let mut solution: Vec<Rational> = Vec::new();
        let mut i: usize = 0;
        while i < n
            invariant
                i <= n,
                n == self@.size(),
                self@.wf(),
                solution.len() == i,
                forall|k: int|
                    0 <= k < i ==> (#[trigger] solution@[k])@ == self@.basic_solution()[k],
            decreases n - i,
        {
            let x = if self.is_basic(i) {
                self.b(i).clone()
            } else {
                Rational::from_int(0)
            };
            solution.push(x);
            i += 1;
        }
        assert(reals(solution@) =~= self@.basic_solution());
        solution
    }

    /// The objective at `solution`, which has one entry for each variable.
    pub fn get_objective(&self, solution: &Vec<Rational>) -> (obj: Rational)
        requires
            solution.len() == self@.size(),
        ensures
            obj@ == self@.objective(reals(solution@)),
    {
        let n = self.size();
        let mut obj = self.v().clone();
        let mut j: usize = 0;
        while j < n
            invariant
                j <= n,
                n == self@.size(),
                self@.wf(),
                solution.len() == n,
                obj@ == self@.v + masked_dot(self@.free(), self@.c, reals(solution@), j as int),
            decreases n - j,
        {
            if !self.is_basic(j) {
                obj = obj.add(&self.c(j).mul(&solution[j]));
            }
            j += 1;
        }
        obj
    }
}

/// The entry of the initial slack form of `s` at row `i` and column `j`; with
/// `auxiliary`, of the slack form of its auxiliary program.
spec fn initial_a(s: Model, auxiliary: bool, i: int, j: int) -> real {
    if s.n() <= i < s.n() + s.m() && j < s.n() {
        s.a[i - s.n()][j]
    } else if auxiliary && s.n() <= i < s.n() + s.m() && j == s.n() + s.m() {
        -1real
    } else {
        0real
    }
}

impl StandardForm {
    /// One row of the initial slack form.
    fn initial_row(&self, auxiliary: bool, i: usize) -> (r: Vec<Rational>)
        requires
            i < self@.n() + self@.m() + if auxiliary { 1int } else { 0int },
        ensures
            r.len() == self@.n() + self@.m() + if auxiliary { 1int } else { 0int },
            forall|j: int|
                0 <= j < r.len() ==> (#[trigger] r@[j])@ == initial_a(
                    self@,
                    auxiliary,
                    i as int,
                    j,
                ),
    {
        let n = self.dimensions();
        let m = self.num_constraints();
        let size = if auxiliary { n + m + 1 } else { n + m };
        let mut r: Vec<Rational> = Vec::new();
        let mut j: usize = 0;
        while j < size
            invariant
                j <= size,
                n == self@.n(),
                m == self@.m(),
                self@.wf(),
                size == n + m + if auxiliary { 1int } else { 0int },
                i < size,
                r.len() == j,
                forall|k: int|
                    0 <= k < j ==> (#[trigger] r@[k])@ == initial_a(
                        self@,
                        auxiliary,
                        i as int,
                        k,
                    ),
            decreases size - j,
        {
            let x = if n <= i && i < n + m && j < n {
                self.coefficient(i - n, j).clone()
            } else if auxiliary && n <= i && i < n + m && j == n + m {
                Rational::from_int(-1)
            } else {
                Rational::from_int(0)
            };
            r.push(x);
            j += 1;
        }
        r
    }

    /// The initial slack form; with `auxiliary`, that of the auxiliary
    /// program.
    fn initial_slack(&self, auxiliary: bool) -> (r: SlackForm)
        ensures
            r@ == if auxiliary { auxiliary_slack(self@) } else { plain_slack(self@) },
    {
        let n = self.dimensions();
        let m = self.num_constraints();
        let size = if auxiliary { n + m + 1 } else { n + m };
        let mut basic: Vec<bool> = Vec::new();
        let mut a: Vec<Vec<Rational>> = Vec::new();
        let mut b: Vec<Rational> = Vec::new();
        let mut c: Vec<Rational> = Vec::new();
        let mut i: usize = 0;
        while i < size
            invariant
                i <= size,
                n == self@.n(),
                m == self@.m(),
                self@.wf(),
                size == n + m + if auxiliary { 1int } else { 0int },
                basic.len() == i,
                a.len() == i,
                b.len() == i,
                c.len() == i,
                forall|k: int| 0 <= k < i ==> basic@[k] == (n <= k < n + m),
                forall|k: int| 0 <= k < i ==> (#[trigger] a@[k]).len() == size,
                forall|k: int, j: int|
                    0 <= k < i && 0 <= j < size ==> (#[trigger] a@[k]@[j])@ == initial_a(
                        self@,
                        auxiliary,
                        k,
                        j,
                    ),
                forall|k: int|
                    0 <= k < i ==> (#[trigger] b@[k])@ == if n <= k < n + m {
                        self@.b[k - n]
                    } else {
                        0real
                    },
                forall|k: int|
                    0 <= k < i ==> (#[trigger] c@[k])@ == if auxiliary {
                        if k == n + m {
                            -1real
                        } else {
                            0real
                        }
                    } else if k < n {
                        self@.c[k]
                    } else {
                        0real
                    },
            decreases size - i,
        {
            basic.push(n <= i && i < n + m);
            a.push(self.initial_row(auxiliary, i));
            b.push(
                if n <= i && i < n + m {
                    self.bound(i - n).clone()
                } else {
                    Rational::from_int(0)
                },
            );
            c.push(
                if auxiliary {
                    if i == n + m {
                        Rational::from_int(-1)
                    } else {
                        Rational::from_int(0)
                    }
                } else if i < n {
                    self.objective(i).clone()
                } else {
                    Rational::from_int(0)
                },
            );
            i += 1;
        }
        let r = SlackForm::from_parts(basic, a, b, c, Rational::from_int(0));
        proof {
            let t = if auxiliary { auxiliary_slack(self@) } else { plain_slack(self@) };
            assert(r@.basic =~= t.basic);
            assert(r@.b =~= t.b);
            assert(r@.c =~= t.c);
            assert(r@.a =~~= t.a);
        }
        r
    }

    /// The slack form in which the variables of the program are nonbasic and
    /// the slack variables, one for each constraint, are basic.
    pub fn into_slack_form(&self) -> (r: SlackForm)
        ensures
            r@ == plain_slack(self@),
    {
        self.initial_slack(false)
    }

    /// The slack form of the auxiliary program: one more nonbasic variable,
    /// placed last, is subtracted from every constraint, and the objective is
    /// its negation.
    pub fn into_auxiliary_slack_form(&self) -> (r: SlackForm)
        ensures
            r@ == auxiliary_slack(self@),
    {
        self.initial_slack(true)
    }
}

} // verus!
