//! The auxiliary program: its improvement loop never finds it unbounded, and
//! its variable can always be pivoted out of the basis, unless the program
//! has a hundred million constraints or more.

use crate::equations::{pivot_keeps_solutions, run_keeps_solutions};
use crate::model::Model;
use crate::optimize::{
    entering, first_improving, improving, leaving, leaving_limits, limits, run, Outcome,
};
use crate::phase_one::{
    first_auxiliary, first_auxiliary_shape, first_replacing, most_negative,
    most_negative_in_range, phase_one, replacement, replaces, run_keeps_shape, starts_feasible,
    SolveError,
};
use crate::rational::magnitude;
use crate::sums::{
    masked_dot, masked_dot_agrees, masked_dot_bounded, masked_dot_combined, masked_dot_of_zeros,
    masked_dot_skips, total_upto,
};
use crate::tableau::{auxiliary_slack, eps, pivot_keeps_shape, Tableau};
use vstd::prelude::*;

verus! {

/// The objective is the negation of the basic variable `aux`: the reduced
/// cost of each nonbasic variable is its coefficient in the row of `aux`.
pub open spec fn linked(t: Tableau, aux: int) -> bool {
    t.is_basic(aux) && forall|j: int| t.is_nonbasic(j) ==> t.c[j] == t.a[aux][j]
}

/// After the first pivot of the first phase the objective is the negation of
/// the auxiliary variable.
pub proof fn first_auxiliary_is_linked(s: Model)
    requires
        s.wf(),
        s.m() > 0,
    ensures
        linked(first_auxiliary(s), s.n() + s.m()),
{
    most_negative_in_range(s.b, s.m());
    let t = auxiliary_slack(s);
    let l = s.n() + most_negative(s.b);
    let aux = s.n() + s.m();
    pivot_keeps_shape(t, l, aux);
    let u = t.pivot(l, aux);
    assert forall|j: int| u.is_nonbasic(j) implies u.c[j] == u.a[aux][j] by {
        let r = t.entering_row(l, aux, j);
        assert(u.a[aux][j] == r);
        assert(t.c[aux] == -1real);
        assert(-(-1real) * r == r) by (nonlinear_arith);
        assert((-1real) * r == -r) by (nonlinear_arith);
    }
}

/// A pivot that leaves `aux` basic keeps the objective the negation of
/// `aux`.
proof fn pivot_keeps_link(t: Tableau, aux: int, l: int, e: int)
    requires
        t.wf(),
        linked(t, aux),
        t.can_pivot(l, e),
        l != aux,
    ensures
        linked(t.pivot(l, e), aux),
{
    let u = t.pivot(l, e);
    assert forall|j: int| u.is_nonbasic(j) implies u.c[j] == u.a[aux][j] by {
        assert(u.a[aux][j] == t.pivot_a(l, e, aux, j));
        assert(u.c[j] == t.pivot_c(l, e, j));
        assert(t.c[e] == t.a[aux][e]);
        if j != l {
            assert(t.is_nonbasic(j));
        }
    }
}

/// A pivot in which `aux` leaves ends the improvement loop: no variable is
/// improving after it.
proof fn pivot_on_aux_settles(t: Tableau, aux: int, e: int)
    requires
        t.wf(),
        linked(t, aux),
        t.can_pivot(aux, e),
    ensures
        entering(t.pivot(aux, e)) is None,
{
    let u = t.pivot(aux, e);
    let p = t.a[aux][e];
    assert(t.c[e] == p);
    assert forall|j: int| !improving(u, j) by {
        if u.is_nonbasic(j) {
            assert(u.c[j] == t.pivot_c(aux, e, j));
            if j == aux {
                assert(-p * (1real / p) == -1real) by (nonlinear_arith)
                    requires
                        p != 0real,
                ;
            } else {
                assert(t.is_nonbasic(j));
                let x = t.a[aux][j];
                assert(t.c[j] == x);
                assert(x - p * (x / p) == 0real) by (nonlinear_arith)
                    requires
                        p != 0real,
                ;
            }
        }
    }
}

/// Where the objective is the negation of a basic variable, the improvement
/// loop never finds it unbounded: the row of that variable limits every
/// improving variable.
pub proof fn auxiliary_run_is_bounded(t: Tableau, aux: int, pivots: nat)
    requires
        t.wf(),
        linked(t, aux),
    ensures
        !(run(t, pivots) is Unbounded),
    decreases pivots,
{
    if let Some(e) = entering(t) {
        assert(first_improving(t, e));
        leaving_limits(t, e, t.size());
        assert(limits(t, e, aux));
        let l = leaving(t, e)->Some_0;
        pivot_keeps_shape(t, l, e);
        if pivots > 0 {
            if l == aux {
                pivot_on_aux_settles(t, aux, e);
            } else {
                pivot_keeps_link(t, aux, l, e);
                auxiliary_run_is_bounded(t.pivot(l, e), aux, (pivots - 1) as nat);
            }
        }
    }
}

/// The first phase fails for want of pivots exactly where its improvement
/// loop runs out of them.
pub proof fn first_phase_runs_out(s: Model, pivots: nat)
    requires
        s.wf(),
    ensures
        phase_one(s, pivots) == Err::<Option<Tableau>, SolveError>(SolveError::PivotLimit)
            <==> !starts_feasible(s) && run(first_auxiliary(s), pivots) is OutOfPivots,
{
    if !starts_feasible(s) {
        first_auxiliary_shape(s);
        first_auxiliary_is_linked(s);
        auxiliary_run_is_bounded(first_auxiliary(s), s.n() + s.m(), pivots);
    }
}

/// The program has fewer constraints than the tolerance has parts in one.
pub open spec fn few_constraints(s: Model) -> bool {
    s.m() < 100000000
}

/// The values that solve the auxiliary program with every variable of the
/// program at zero and the auxiliary variable at `tau`: each slack variable
/// is its right-hand side plus `tau`.
pub open spec fn lifted(s: Model, tau: real) -> Seq<real> {
    Seq::new(
        (s.n() + s.m() + 1) as nat,
        |i: int|
            if i < s.n() {
                0real
            } else if i < s.n() + s.m() {
                s.b[i - s.n()] + tau
            } else {
                tau
            },
    )
}

/// One for each slack variable, zero for the others.
pub open spec fn slack_ones(s: Model) -> Seq<real> {
    Seq::new(
        (s.n() + s.m() + 1) as nat,
        |i: int| if s.n() <= i < s.n() + s.m() { 1real } else { 0real },
    )
}

/// The lifted values solve the equations of the auxiliary program.
proof fn lifted_solves(s: Model, tau: real)
    requires
        s.wf(),
    ensures
        auxiliary_slack(s).solved_by(lifted(s, tau)),
{
    let t = auxiliary_slack(s);
    let x = lifted(s, tau);
    let aux = s.n() + s.m();
    assert forall|i: int| t.is_basic(i) implies x[i] == t.b[i] - t.row_sum(i, x) by {
        masked_dot_of_zeros(t.free(), t.a[i], x, aux);
        assert((-1real) * tau == -tau) by (nonlinear_arith);
    }
}

/// The sum of the first `k` entries of [`slack_ones`].
proof fn total_of_slack_ones(s: Model, k: int)
    requires
        0 <= k <= s.n() + s.m() + 1,
    ensures
        total_upto(slack_ones(s), k) == if k <= s.n() {
            0real
        } else if k <= s.n() + s.m() {
            (k - s.n()) as real
        } else {
            s.m() as real
        },
    decreases k,
{
    if k > 0 {
        total_of_slack_ones(s, k - 1);
    }
}

/// In a difference of two sums over the same indices with the same weights,
/// the values can be subtracted first.
proof fn masked_dot_of_difference(
    keep: Seq<bool>,
    w: Seq<real>,
    x1: Seq<real>,
    x0: Seq<real>,
    d: Seq<real>,
    k: int,
)
    requires
        forall|j: int| 0 <= j < k && keep[j] ==> d[j] == x1[j] - x0[j],
    ensures
        masked_dot(keep, w, x1, k) - masked_dot(keep, w, x0, k) == masked_dot(keep, w, d, k),
    decreases k,
{
    if k > 0 {
        masked_dot_of_difference(keep, w, x1, x0, d, k - 1);
        if keep[k - 1] {
            let (c, a, b) = (w[k - 1], x1[k - 1], x0[k - 1]);
            assert(c * a - c * b == c * (a - b)) by (nonlinear_arith);
        }
    }
}

/// In a slack form of the auxiliary program that the lifted values solve
/// and in which the auxiliary variable is basic, the coefficients of the
/// nonbasic slack variables in its row add up to minus one.
proof fn auxiliary_row_adds_up(s: Model, t: Tableau)
    requires
        s.wf(),
        t.wf(),
        t.size() == s.n() + s.m() + 1,
        t.is_basic(s.n() + s.m()),
        t.solved_by(lifted(s, 0real)),
        t.solved_by(lifted(s, 1real)),
    ensures
        masked_dot(t.free(), t.a[s.n() + s.m()], slack_ones(s), t.size()) == -1real,
{
    let aux = s.n() + s.m();
    let (x0, x1) = (lifted(s, 0real), lifted(s, 1real));
    assert(x0[aux] == t.b[aux] - t.row_sum(aux, x0));
    assert(x1[aux] == t.b[aux] - t.row_sum(aux, x1));
    masked_dot_of_difference(t.free(), t.a[aux], x1, x0, slack_ones(s), t.size());
}

/// Where the program has few constraints, a slack form of the auxiliary
/// program that the lifted values solve, with the auxiliary variable basic,
/// holds a coefficient beyond the tolerance in the row of that variable.
proof fn auxiliary_row_is_not_flat(s: Model, t: Tableau, aux: int)
    requires
        s.wf(),
        few_constraints(s),
        aux == s.n() + s.m(),
        t.wf(),
        t.size() == aux + 1,
        t.is_basic(aux),
        t.solved_by(lifted(s, 0real)),
        t.solved_by(lifted(s, 1real)),
    ensures
        exists|j: int| replaces(t, aux, j),
{
    let size = t.size();
    if forall|j: int| !replaces(t, aux, j) {
        let row = t.a[aux];
        let zeros = Seq::new(size as nat, |j: int| 0real);
        let minus = Seq::new(size as nat, |j: int| -row[j]);
        let ones = slack_ones(s);
        auxiliary_row_adds_up(s, t);
        masked_dot_skips(t.free(), zeros, ones, 0, size);
        masked_dot_combined(t.free(), minus, zeros, 1real, row, ones, size);
        assert(masked_dot(t.free(), minus, ones, size) == 1real);
        assert forall|j: int| 0 <= j < size && t.free()[j] implies minus[j] <= eps() by {
            assert(!replaces(t, aux, j));
            assert(t.is_nonbasic(j));
            assert(magnitude(row[j]) <= eps());
        }
        masked_dot_bounded(t.free(), minus, ones, eps(), size);
        total_of_slack_ones(s, size);
        let m = s.m() as real;
        assert(eps() * m < 1real);
        assert(false);
    }
}

/// Where the program has few constraints, the first phase never finds the
/// auxiliary variable stuck in the basis.
pub proof fn auxiliary_is_never_stuck(s: Model, pivots: nat)
    requires
        s.wf(),
        few_constraints(s),
    ensures
        phase_one(s, pivots) != Err::<Option<Tableau>, SolveError>(SolveError::AuxiliaryStuck),
{
    if !starts_feasible(s) {
        let aux = s.n() + s.m();
        let first = first_auxiliary(s);
        first_auxiliary_shape(s);
        run_keeps_shape(first, pivots);
        if let Outcome::Optimal(t) = run(first, pivots) {
            if t.basic[aux] {
                let (x0, x1) = (lifted(s, 0real), lifted(s, 1real));
                lifted_solves(s, 0real);
                lifted_solves(s, 1real);
                pivot_keeps_solutions(auxiliary_slack(s), s.n() + most_negative(s.b), aux, x0);
                pivot_keeps_solutions(auxiliary_slack(s), s.n() + most_negative(s.b), aux, x1);
                run_keeps_solutions(first, pivots, x0);
                run_keeps_solutions(first, pivots, x1);
                auxiliary_row_is_not_flat(s, t, aux);
                least_replacing(t, aux, choose|j: int| replaces(t, aux, j));
            }
        }
    }
}

/// Where some variable can replace the variable of `row`, one of them is the
/// first.
proof fn least_replacing(t: Tableau, row: int, j: int)
    requires
        replaces(t, row, j),
    ensures
        replacement(t, row) is Some,
    decreases j,
{
    if forall|i: int| 0 <= i < j ==> !replaces(t, row, i) {
        assert(first_replacing(t, row, j));
    } else {
        let i = choose|i: int| 0 <= i < j && replaces(t, row, i);
        least_replacing(t, row, i);
    }
}

} // verus!
