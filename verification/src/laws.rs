//! What holds of the solver on every input.

use crate::auxiliary::first_phase_runs_out;
use crate::equations::{phase_one_keeps_solutions, plain_slack_means, run_keeps_solutions};
use crate::model::Model;
use crate::optimize::{entering, first_improving, improving, leaving, leaving_limits, run, Outcome};
use crate::phase_one::{
    first_auxiliary, phase_one, run_keeps_shape, starts_feasible, SolveError,
};
use crate::solver::{last_tableau, phase_one_shape, solve, Answer};
use crate::sums::{masked_dot_bounded, masked_dot_of_zeros, total};
use crate::tableau::{eps, pivot_keeps_shape, plain_slack, Tableau};
use vstd::prelude::*;

verus! {

/// Where no right-hand side is negative, the first phase gives the initial
/// slack form as it is, without a pivot.
pub proof fn feasible_start_is_kept(s: Model, pivots: nat)
    requires
        s.wf(),
        forall|i: int| 0 <= i < s.m() ==> s.b[i] >= 0real,
    ensures
        phase_one(s, pivots) == Ok::<Option<Tableau>, SolveError>(Some(plain_slack(s))),
{
    assert(starts_feasible(s));
}

/// Where the improvement loop ends at an optimum, no reduced cost of a
/// nonbasic variable of the last tableau exceeds the tolerance.
pub proof fn optimum_has_no_improving_cost(t: Tableau, pivots: nat)
    requires
        t.wf(),
    ensures
        run(t, pivots) matches Outcome::Optimal(u) ==> forall|j: int|
            u.is_nonbasic(j) ==> u.c[j] <= eps(),
    decreases pivots,
{
    match entering(t) {
        None => {
            assert forall|j: int| t.is_nonbasic(j) implies t.c[j] <= eps() by {
                if t.c[j] > eps() {
                    least_improving(t, j);
                }
            }
        },
        Some(e) => {
            assert(first_improving(t, e));
            if let Some(l) = leaving(t, e) {
                leaving_limits(t, e, t.size());
                pivot_keeps_shape(t, l, e);
                if pivots > 0 {
                    optimum_has_no_improving_cost(t.pivot(l, e), (pivots - 1) as nat);
                }
            }
        },
    }
}

/// Where some variable is improving, one of them is the first.
proof fn least_improving(t: Tableau, j: int)
    requires
        improving(t, j),
    ensures
        exists|k: int| first_improving(t, k),
    decreases j,
{
    if forall|i: int| 0 <= i < j ==> !improving(t, i) {
        assert(first_improving(t, j));
    } else {
        let i = choose|i: int| 0 <= i < j && improving(t, i);
        least_improving(t, i);
    }
}

/// The objective at the basic solution is the tableau's `v`: the nonbasic
/// variables are zero there.
pub proof fn objective_at_basic_solution(t: Tableau)
    requires
        t.wf(),
    ensures
        t.objective(t.basic_solution()) == t.v,
{
    masked_dot_of_zeros(t.free(), t.c, t.basic_solution(), t.size());
}

/// The basic solution meets the equation of every basic variable.
pub proof fn basic_solution_solves(t: Tableau)
    requires
        t.wf(),
    ensures
        t.solved_by(t.basic_solution()),
{
    assert forall|i: int| t.is_basic(i) implies t.basic_solution()[i] == t.b[i] - t.row_sum(
        i,
        t.basic_solution(),
    ) by {
        masked_dot_of_zeros(t.free(), t.a[i], t.basic_solution(), t.size());
    }
}

/// Where the solver finds an optimum, no reduced cost of a nonbasic variable
/// of the slack form that it ends at exceeds the tolerance.
pub proof fn answer_is_optimal(s: Model, pivots: nat)
    requires
        s.wf(),
    ensures
        solve(s, pivots) matches Ok(Answer::Feasible(x, z)) ==> last_tableau(s, pivots) is Some,
        last_tableau(s, pivots) matches Some(u) ==> forall|j: int|
            u.is_nonbasic(j) ==> u.c[j] <= eps(),
{
    if let Ok(Some(t)) = phase_one(s, pivots) {
        phase_one_shape(s, pivots);
        optimum_has_no_improving_cost(t, pivots);
    }
}

/// Where the solver finds an optimum, its answer is the basic solution of
/// the slack form that it ends at, cut to the variables of the program. The
/// objective that it reports is the objective of the program at that point,
/// and the value of each slack variable there is what the point leaves of
/// its constraint.
pub proof fn answer_solves_the_equations(s: Model, pivots: nat)
    requires
        s.wf(),
    ensures
        match (solve(s, pivots), last_tableau(s, pivots)) {
            (Ok(Answer::Feasible(x, z)), Some(u)) => {
                &&& x == u.basic_solution().take(s.n())
                &&& x.len() == s.n()
                &&& z == s.objective(x)
                &&& forall|k: int|
                    0 <= k < s.m() ==> s.row(k, x) + u.basic_solution()[s.n() + k] == s.b[k]
            },
            (Ok(Answer::Feasible(x, z)), None) => false,
            _ => true,
        },
{
    if let Ok(Answer::Feasible(x, z)) = solve(s, pivots) {
        let t = phase_one(s, pivots)->Ok_0->Some_0;
        let u = run(t, pivots)->Optimal_0;
        let full = u.basic_solution();
        phase_one_shape(s, pivots);
        run_keeps_shape(t, pivots);
        basic_solution_solves(u);
        run_keeps_solutions(t, pivots, full);
        phase_one_keeps_solutions(s, pivots, full);
        plain_slack_means(s, full);
        objective_at_basic_solution(u);
    }
}

/// Where the solver finds an optimum and no variable of the slack form that
/// it ends at is below the negated tolerance in the basic solution, the
/// answer meets the constraints of the program within the tolerance, and
/// none of its entries is below the negated tolerance.
pub proof fn answer_is_feasible(s: Model, pivots: nat)
    requires
        s.wf(),
        last_tableau(s, pivots) matches Some(u) ==> forall|i: int|
            0 <= i < u.size() ==> u.basic_solution()[i] >= -eps(),
    ensures
        solve(s, pivots) matches Ok(Answer::Feasible(x, z)) ==> {
            &&& forall|j: int| 0 <= j < s.n() ==> x[j] >= -eps()
            &&& forall|k: int| 0 <= k < s.m() ==> s.row(k, x) <= s.b[k] + eps()
        },
{
    if let Ok(Answer::Feasible(x, z)) = solve(s, pivots) {
        answer_solves_the_equations(s, pivots);
        let t = phase_one(s, pivots)->Ok_0->Some_0;
        let u = run(t, pivots)->Optimal_0;
        phase_one_shape(s, pivots);
        run_keeps_shape(t, pivots);
        assert forall|k: int| 0 <= k < s.m() implies s.row(k, x) <= s.b[k] + eps() by {
            assert(u.basic_solution()[s.n() + k] >= -eps());
        }
        assert forall|j: int| 0 <= j < s.n() implies x[j] >= -eps() by {
            assert(u.basic_solution()[j] >= -eps());
        }
    }
}

/// Where the solver finds an optimum, no feasible point is better than its
/// answer by more than the tolerance allows: the objective at a feasible
/// point exceeds the objective that the solver reports by at most the
/// tolerance times the sum of the point's values and of what it leaves of
/// the constraints.
pub proof fn answer_is_nearly_best(s: Model, pivots: nat, p: Seq<real>)
    requires
        s.wf(),
        s.feasible(p),
    ensures
        solve(s, pivots) matches Ok(Answer::Feasible(x, z)) ==> s.objective(p) <= z + eps()
            * total(s.with_slack(p)),
{
    if let Ok(Answer::Feasible(x, z)) = solve(s, pivots) {
        let t = phase_one(s, pivots)->Ok_0->Some_0;
        let u = run(t, pivots)->Optimal_0;
        let y = s.with_slack(p);
        phase_one_shape(s, pivots);
        run_keeps_shape(t, pivots);
        assert(y.take(s.n()) =~= p);
        plain_slack_means(s, y);
        phase_one_keeps_solutions(s, pivots, y);
        run_keeps_solutions(t, pivots, y);
        optimum_has_no_improving_cost(t, pivots);
        objective_at_basic_solution(u);
        assert forall|j: int| 0 <= j < u.size() && u.free()[j] implies u.c[j] <= eps() by {
            assert(u.is_nonbasic(j));
        }
        masked_dot_bounded(u.free(), u.c, y, eps(), u.size());
    }
}

/// Where the improvement loop ends without running out of pivots, it ends
/// the same with any larger number of pivots allowed.
pub proof fn run_is_stable(t: Tableau, pivots: nat, more: nat)
    requires
        pivots <= more,
        !(run(t, pivots) is OutOfPivots),
    ensures
        run(t, more) == run(t, pivots),
    decreases pivots,
{
    if let Some(e) = entering(t) {
        if let Some(l) = leaving(t, e) {
            run_is_stable(t.pivot(l, e), (pivots - 1) as nat, (more - 1) as nat);
        }
    }
}

/// Where the solver does not run out of pivots, its result is the same with
/// any larger number of pivots allowed.
pub proof fn solve_is_stable(s: Model, pivots: nat, more: nat)
    requires
        s.wf(),
        pivots <= more,
        solve(s, pivots) != Err::<Answer, SolveError>(SolveError::PivotLimit),
    ensures
        solve(s, more) == solve(s, pivots),
{
    if !starts_feasible(s) {
        first_phase_runs_out(s, pivots);
        run_is_stable(first_auxiliary(s), pivots, more);
    }
    if let Ok(Some(t)) = phase_one(s, pivots) {
        run_is_stable(t, pivots, more);
    }
}

} // verus!
