//! The first phase: a slack form whose basic solution is feasible, or the
//! finding that the program has no feasible point.

use crate::model::{Model, StandardForm};
use crate::optimize::{
    entering, first_improving, leaving, leaving_limits, optimize, run, tolerance, Optimized,
    Outcome,
};
use crate::rational::{magnitude, reals, Rational};
use crate::slack::SlackForm;
use crate::tableau::{auxiliary_slack, eps, pivot_keeps_shape, plain_slack, Tableau};
use vstd::prelude::*;

verus! {

/// Why the solver stopped without an answer.
#[derive(Debug, Clone, Copy, PartialEq, Eq, Structural)]
pub enum SolveError {
    /// A pivot was due and none was left of those allowed.
    PivotLimit,
    /// The auxiliary variable stayed basic, and its row holds no coefficient
    /// beyond the tolerance to pivot it out on.
    AuxiliaryStuck,
}

/// Every right-hand side is at least the negated tolerance: the initial
/// slack form is feasible.
pub open spec fn starts_feasible(s: Model) -> bool {
    forall|i: int| 0 <= i < s.m() ==> s.b[i] >= -eps()
}

/// The index of the most negative of the first `k` entries of `b`: the
/// entries are gone through in order, and an entry replaces the one held so
/// far only where it is smaller by more than the tolerance.
pub open spec fn most_negative_upto(b: Seq<real>, k: int) -> int
    decreases k,
{
    if k <= 1 {
        0
    } else {
        let held = most_negative_upto(b, k - 1);
        if b[held] - b[k - 1] > eps() {
            k - 1
        } else {
            held
        }
    }
}

/// The index of the most negative entry of `b`.
pub open spec fn most_negative(b: Seq<real>) -> int {
    most_negative_upto(b, b.len() as int)
}

/// Variable `j` is nonbasic and its coefficient in `row` is beyond the
/// tolerance.
pub open spec fn replaces(t: Tableau, row: int, j: int) -> bool {
    t.is_nonbasic(j) && magnitude(t.a[row][j]) > eps()
}

/// Variable `j` can replace the variable of `row`, and no variable before it
/// can.
pub open spec fn first_replacing(t: Tableau, row: int, j: int) -> bool {
    replaces(t, row, j) && forall|i: int| 0 <= i < j ==> !replaces(t, row, i)
}

/// The variable of smallest index that can replace the variable of `row`, if
/// there is one.
pub open spec fn replacement(t: Tableau, row: int) -> Option<int> {
    if exists|j: int| first_replacing(t, row, j) {
        Some(choose|j: int| first_replacing(t, row, j))
    } else {
        None
    }
}

/// The program's objective coefficients of the basic variables below `k`,
/// each times that variable's coefficient on `j`, summed.
pub open spec fn basic_cost_upto(s: Model, t: Tableau, j: int, k: int) -> real
    decreases k,
{
    if k <= 0 {
        0real
    } else if t.basic[k - 1] {
        basic_cost_upto(s, t, j, k - 1) + s.c[k - 1] * t.a[k - 1][j]
    } else {
        basic_cost_upto(s, t, j, k - 1)
    }
}

/// The program's objective coefficients of the basic variables below `k`,
/// each times that variable's value, summed.
pub open spec fn basic_value_upto(s: Model, t: Tableau, k: int) -> real
    decreases k,
{
    if k <= 0 {
        0real
    } else if t.basic[k - 1] {
        basic_value_upto(s, t, k - 1) + s.c[k - 1] * t.b[k - 1]
    } else {
        basic_value_upto(s, t, k - 1)
    }
}

/// The reduced cost of variable `j` once the basic variables are eliminated
/// from the objective of `s`.
pub open spec fn restored_cost(s: Model, t: Tableau, j: int) -> real {
    if t.basic[j] {
        0real
    } else if j < s.n() {
        0real + s.c[j] - basic_cost_upto(s, t, j, s.n())
    } else {
        0real - basic_cost_upto(s, t, j, s.n())
    }
}

/// The slack form of `s` over the basis of `t`, a slack form of the
/// auxiliary program in which the auxiliary variable is nonbasic: the
/// auxiliary variable is dropped, and the objective of `s` is written over
/// the nonbasic variables.
pub open spec fn restored(s: Model, t: Tableau) -> Tableau {
    let size = (s.n() + s.m()) as nat;
    Tableau {
        basic: Seq::new(size, |i: int| t.basic[i]),
        a: Seq::new(size, |i: int| Seq::new(size, |j: int| t.a[i][j])),
        b: Seq::new(size, |i: int| t.b[i]),
        c: Seq::new(size, |j: int| restored_cost(s, t, j)),
        v: basic_value_upto(s, t, s.n()),
    }
}

/// The slack form that the first phase starts its improvement loop from: that
/// of the auxiliary program, after the auxiliary variable has entered for the
/// slack variable of the most negative right-hand side.
pub open spec fn first_auxiliary(s: Model) -> Tableau {
    auxiliary_slack(s).pivot(s.n() + most_negative(s.b), s.n() + s.m())
}

/// The most negative of the first `k` entries is one of them.
pub proof fn most_negative_in_range(b: Seq<real>, k: int)
    requires
        k >= 1,
    ensures
        0 <= most_negative_upto(b, k) < k,
    decreases k,
{
    if k > 1 {
        most_negative_in_range(b, k - 1);
    }
}

/// The first pivot of the first phase can be made, and keeps the shape of the
/// tableau.
pub proof fn first_auxiliary_shape(s: Model)
    requires
        s.wf(),
        s.m() > 0,
    ensures
        auxiliary_slack(s).can_pivot(s.n() + most_negative(s.b), s.n() + s.m()),
        first_auxiliary(s).wf(),
        first_auxiliary(s).size() == s.n() + s.m() + 1,
{
    most_negative_in_range(s.b, s.m());
    pivot_keeps_shape(auxiliary_slack(s), s.n() + most_negative(s.b), s.n() + s.m());
}

/// The first phase with at most `pivots` pivots in its improvement loop:
/// the initial slack form where that is feasible; else the auxiliary program
/// is solved from the pivot that brings the auxiliary variable in for the
/// slack variable of the most negative right-hand side, and the program is
/// feasible exactly if the auxiliary variable ends within the tolerance of
/// zero. That loop never finds its objective unbounded, so where it ends
/// without an optimum the pivots have run out.
pub open spec fn phase_one(s: Model, pivots: nat) -> Result<Option<Tableau>, SolveError> {
    if starts_feasible(s) {
        Ok(Some(plain_slack(s)))
    } else {
        let aux = s.n() + s.m();
        match run(first_auxiliary(s), pivots) {
            Outcome::Optimal(t) => if magnitude(t.basic_solution()[aux]) <= eps() {
                if t.basic[aux] {
                    match replacement(t, aux) {
                        None => Err(SolveError::AuxiliaryStuck),
                        Some(j) => Ok(Some(restored(s, t.pivot(aux, j)))),
                    }
                } else {
                    Ok(Some(restored(s, t)))
                }
            } else {
                Ok(None)
            },
            _ => Err(SolveError::PivotLimit),
        }
    }
}

/// The improvement loop keeps the shape of the tableau.
pub proof fn run_keeps_shape(t: Tableau, pivots: nat)
    requires
        t.wf(),
    ensures
        run(t, pivots) matches Outcome::Optimal(u) ==> u.wf() && u.size() == t.size(),
    decreases pivots,
{
    if let Some(e) = entering(t) {
        assert(first_improving(t, e));
        if let Some(l) = leaving(t, e) {
            leaving_limits(t, e, t.size());
            pivot_keeps_shape(t, l, e);
            if pivots > 0 {
                run_keeps_shape(t.pivot(l, e), (pivots - 1) as nat);
            }
        }
    }
}

/// What a result of the first phase stands for.
pub open spec fn start_view(r: Result<Option<SlackForm>, SolveError>) -> Result<
    Option<Tableau>,
    SolveError,
> {
    match r {
        Ok(Some(t)) => Ok(Some(t@)),
        Ok(None) => Ok(None),
        Err(e) => Err(e),
    }
}

/// Whether the initial slack form of `standard` is feasible.
pub fn starts_feasible_check(standard: &StandardForm) -> (r: bool)
    ensures
        r == starts_feasible(standard@),
{
    let m = standard.num_constraints();
    let low = tolerance().neg();
    let mut i: usize = 0;
    while i < m
        invariant
            i <= m,
            m == standard@.m(),
            low@ == -eps(),
            forall|k: int| 0 <= k < i ==> standard@.b[k] >= -eps(),
        decreases m - i,
    {
        if standard.bound(i).lt(&low) {
            return false;
        }
        i += 1;
    }
    true
}

/// The index of the most negative right-hand side of `standard`, which has a
/// constraint.
pub fn most_negative_bound(standard: &StandardForm) -> (k: usize)
    requires
        standard@.m() > 0,
    ensures
        k == most_negative(standard@.b),
        k < standard@.m(),
{
    let m = standard.num_constraints();
    let tol = tolerance();
    let mut k: usize = 0;
    let mut i: usize = 1;
    while i < m
        invariant
            1 <= i <= m,
            m == standard@.m(),
            tol@ == eps(),
            k < i,
            k == most_negative_upto(standard@.b, i as int),
        decreases m - i,
    {
        if standard.bound(k).sub(standard.bound(i)).gt(&tol) {
            k = i;
        }
        i += 1;
    }
    k
}

/// The variable that replaces the variable of `row` in the basis of `t`.
pub fn choose_replacement(t: &SlackForm, row: usize) -> (r: Option<usize>)
    requires
        row < t@.size(),
    ensures
        r is Some <==> replacement(t@, row as int) is Some,
        r matches Some(j) ==> replacement(t@, row as int) == Some(j as int),
{
    let n = t.size();
    let tol = tolerance();
    let mut j: usize = 0;
    while j < n
        invariant
            j <= n,
            n == t@.size(),
            row < n,
            t@.wf(),
            tol@ == eps(),
            forall|i: int| 0 <= i < j ==> !replaces(t@, row as int, i),
        decreases n - j,
    {
        if !t.is_basic(j) && t.a(row, j).abs().gt(&tol) {
            assert(first_replacing(t@, row as int, j as int));
            assert forall|k: int| first_replacing(t@, row as int, k) implies k == j by {
                if k < j {
                } else if k > j {
                    assert(replaces(t@, row as int, j as int));
                }
            }
            return Some(j);
        }
        j += 1;
    }
    assert forall|k: int| !first_replacing(t@, row as int, k) by {
        if replaces(t@, row as int, k) {
            assert(0 <= k < n);
        }
    }
    None
}

/// The reduced cost of variable `j` in the slack form restored from `t`.
fn restore_cost(standard: &StandardForm, t: &SlackForm, j: usize) -> (r: Rational)
    requires
        t@.size() == standard@.n() + standard@.m() + 1,
        j < standard@.n() + standard@.m(),
    ensures
        r@ == restored_cost(standard@, t@, j as int),
{
    let n = standard.dimensions();
    let size = t.size();
    if t.is_basic(j) {
        return Rational::from_int(0);
    }
    let mut sum = Rational::from_int(0);
    let mut i: usize = 0;
    while i < n
        invariant
            i <= n,
            n == standard@.n(),
            size == t@.size(),
            t@.wf(),
            size == standard@.n() + standard@.m() + 1,
            j < size,
            sum@ == basic_cost_upto(standard@, t@, j as int, i as int),
        decreases n - i,
    {
        if t.is_basic(i) {
            sum = sum.add(&standard.objective(i).mul(t.a(i, j)));
        }
        i += 1;
    }
    let mut c = Rational::from_int(0);
    if j < n {
        c = c.add(standard.objective(j));
    }
    c.sub(&sum)
}

/// The objective of `standard` at the basic solution of `t`.
fn restore_value(standard: &StandardForm, t: &SlackForm) -> (r: Rational)
    requires
        t@.size() == standard@.n() + standard@.m() + 1,
    ensures
        r@ == basic_value_upto(standard@, t@, standard@.n()),
{
    let n = standard.dimensions();
    let size = t.size();
    let mut sum = Rational::from_int(0);
    let mut i: usize = 0;
    while i < n
        invariant
            i <= n,
            n == standard@.n(),
            size == t@.size(),
            t@.wf(),
            size == standard@.n() + standard@.m() + 1,
            sum@ == basic_value_upto(standard@, t@, i as int),
        decreases n - i,
    {
        if t.is_basic(i) {
            sum = sum.add(&standard.objective(i).mul(t.b(i)));
        }
        i += 1;
    }
    sum
}

/// Row `i` of the slack form restored from `t`.
fn restore_row(t: &SlackForm, i: usize, size: usize) -> (r: Vec<Rational>)
    requires
        i < size < t@.size(),
    ensures
        r.len() == size,
        forall|j: int| 0 <= j < size ==> (#[trigger] r@[j])@ == t@.a[i as int][j],
{
    let n = t.size();
    let mut r: Vec<Rational> = Vec::new();
    let mut j: usize = 0;
    while j < size
        invariant
            j <= size,
            i < size < n,
            n == t@.size(),
            r.len() == j,
            forall|k: int| 0 <= k < j ==> (#[trigger] r@[k])@ == t@.a[i as int][k],
        decreases size - j,
    {
        r.push(t.a(i, j).clone());
        j += 1;
    }
    r
}

/// The slack form of `standard` over the basis of `t`, a slack form of its
/// auxiliary program.
pub fn restore(standard: &StandardForm, t: &SlackForm) -> (r: SlackForm)
    requires
        t@.size() == standard@.n() + standard@.m() + 1,
    ensures
        r@ == restored(standard@, t@),
{
    let n = standard.dimensions();
    let m = standard.num_constraints();
    let size = n + m;
    let full = t.size();
    let mut basic: Vec<bool> = Vec::new();
    let mut a: Vec<Vec<Rational>> = Vec::new();
    let mut b: Vec<Rational> = Vec::new();
    let mut c: Vec<Rational> = Vec::new();
    let mut i: usize = 0;
    while i < size
        invariant
            i <= size,
            n == standard@.n(),
            m == standard@.m(),
            size == n + m,
            full == t@.size(),
            full == size + 1,
            t@.wf(),
            basic.len() == i,
            a.len() == i,
            b.len() == i,
            c.len() == i,
            forall|k: int| 0 <= k < i ==> basic@[k] == t@.basic[k],
            forall|k: int| 0 <= k < i ==> (#[trigger] a@[k]).len() == size,
            forall|k: int, j: int|
                0 <= k < i && 0 <= j < size ==> (#[trigger] a@[k]@[j])@ == t@.a[k][j],
            forall|k: int| 0 <= k < i ==> (#[trigger] b@[k])@ == t@.b[k],
            forall|k: int| 0 <= k < i ==> (#[trigger] c@[k])@ == restored_cost(standard@, t@, k),
        decreases size - i,
    {
        basic.push(t.is_basic(i));
        a.push(restore_row(t, i, size));
        b.push(t.b(i).clone());
        c.push(restore_cost(standard, t, i));
        i += 1;
    }
    let v = restore_value(standard, t);
    let r = SlackForm::from_parts(basic, a, b, c, v);
    proof {
        let u = restored(standard@, t@);
        assert(r@.basic =~= u.basic);
        assert(r@.b =~= u.b);
        assert(r@.c =~= u.c);
        assert(r@.a =~~= u.a);
    }
    r
}

/// The first phase with at most `max_pivots` pivots in its improvement loop:
/// a feasible slack form of `standard`, or `None` where the program has no
/// feasible point.
pub fn initialize_simplex_bounded(standard: &StandardForm, max_pivots: u64) -> (r: Result<
    Option<SlackForm>,
    SolveError,
>)
    ensures
        start_view(r) == phase_one(standard@, max_pivots as nat),
{
    if starts_feasible_check(standard) {
        return Ok(Some(standard.into_slack_form()));
    }
    let n = standard.dimensions();
    let m = standard.num_constraints();
    let aux = n + m;
    let k = most_negative_bound(standard);
    proof {
        first_auxiliary_shape(standard@);
    }
    let first = standard.into_auxiliary_slack_form().pivot(n + k, aux);
    proof {
        run_keeps_shape(first@, max_pivots as nat);
    }
    match optimize(first, max_pivots) {
        Optimized::Optimal(t) => {
            let size = t.size();
            let solution = t.get_basic_solution();
            assert(solution@[aux as int]@ == reals(solution@)[aux as int]);
            if solution[aux].abs().le(&tolerance()) {
                if t.is_basic(aux) {
                    match choose_replacement(&t, aux) {
                        None => Err(SolveError::AuxiliaryStuck),
                        Some(j) => {
                            assert(first_replacing(t@, aux as int, j as int));
                            proof {
                                pivot_keeps_shape(t@, aux as int, j as int);
                            }
                            let out = t.pivot(aux, j);
                            Ok(Some(restore(standard, &out)))
                        },
                    }
                } else {
                    Ok(Some(restore(standard, &t)))
                }
            } else {
                Ok(None)
            }
        },
        _ => Err(SolveError::PivotLimit),
    }
}

/// The first phase: a feasible slack form of `standard`, or `None` where the
/// program has no feasible point. The improvement loop is given as many
/// pivots as a `u64` counts.
pub fn initialize_simplex(standard: &StandardForm) -> (r: Result<Option<SlackForm>, SolveError>)
    ensures
        start_view(r) == phase_one(standard@, u64::MAX as nat),
{
    initialize_simplex_bounded(standard, u64::MAX)
}

} // verus!
