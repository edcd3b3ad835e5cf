//! The solver: the first phase, then the improvement loop on the program's
//! own objective, then the answer read off the last slack form.

use crate::model::{Model, StandardForm};
use crate::optimize::{optimize, run, Optimized, Outcome};
use crate::phase_one::{
    initialize_simplex_bounded, phase_one, restored, run_keeps_shape, SolveError,
};
use crate::rational::{reals, Rational};
use crate::tableau::{plain_slack, Tableau};
use vstd::prelude::*;

verus! {

/// The answer to a linear program.
#[derive(Debug)]
pub enum LPResult {
    /// A best point, one value for each variable of the program, and the
    /// objective there.
    Feasible((Vec<Rational>, Rational)),
    /// No point meets the constraints.
    Infeasible,
    /// The objective grows without limit.
    Unbounded,
}

/// The answer to a linear program, as mathematics sees it.
pub enum Answer {
    /// A best point and the objective there.
    Feasible(Seq<real>, real),
    /// No point meets the constraints.
    Infeasible,
    /// The objective grows without limit.
    Unbounded,
}

impl View for LPResult {
    type V = Answer;

    open spec fn view(&self) -> Answer {
        match self {
            LPResult::Feasible(p) => Answer::Feasible(reals(p.0@), p.1@),
            LPResult::Infeasible => Answer::Infeasible,
            LPResult::Unbounded => Answer::Unbounded,
        }
    }
}

/// What the solver's result stands for.
pub open spec fn result_view(r: Result<LPResult, SolveError>) -> Result<Answer, SolveError> {
    match r {
        Ok(a) => Ok(a@),
        Err(e) => Err(e),
    }
}

/// The answer that the last slack form `t` of a program with `n` variables
/// gives: the first `n` entries of its basic solution, and the objective
/// there.
pub open spec fn answer_of(t: Tableau, n: int) -> Answer {
    Answer::Feasible(t.basic_solution().take(n), t.objective(t.basic_solution()))
}

/// The solver with at most `pivots` pivots in each of its two improvement
/// loops.
pub open spec fn solve(s: Model, pivots: nat) -> Result<Answer, SolveError> {
    match phase_one(s, pivots) {
        Err(e) => Err(e),
        Ok(None) => Ok(Answer::Infeasible),
        Ok(Some(t)) => match run(t, pivots) {
            Outcome::OutOfPivots => Err(SolveError::PivotLimit),
            Outcome::Unbounded => Ok(Answer::Unbounded),
            Outcome::Optimal(u) => Ok(answer_of(u, s.n())),
        },
    }
}

/// The slack form that the solver reads its answer from, where it finds an
/// optimum.
pub open spec fn last_tableau(s: Model, pivots: nat) -> Option<Tableau> {
    match phase_one(s, pivots) {
        Ok(Some(t)) => match run(t, pivots) {
            Outcome::Optimal(u) => Some(u),
            _ => None,
        },
        _ => None,
    }
}

/// The slack form that the first phase gives has one variable for each
/// variable and each constraint of the program.
pub proof fn phase_one_shape(s: Model, pivots: nat)
    requires
        s.wf(),
    ensures
        phase_one(s, pivots) matches Ok(Some(t)) ==> t.wf() && t.size() == s.n() + s.m(),
{
    if let Ok(Some(t)) = phase_one(s, pivots) {
        assert(t == plain_slack(s) || exists|u: Tableau| t == restored(s, u));
    }
}

/// Solves `standard` with at most `max_pivots` pivots in each of the two
/// improvement loops.
pub fn simplex_bounded(standard: &StandardForm, max_pivots: u64) -> (r: Result<
    LPResult,
    SolveError,
>)
    ensures
        result_view(r) == solve(standard@, max_pivots as nat),
{
    let n = standard.dimensions();
    let m = standard.num_constraints();
    let slack = match initialize_simplex_bounded(standard, max_pivots) {
        Err(e) => {
            return Err(e);
        },
        Ok(None) => {
            return Ok(LPResult::Infeasible);
        },
        Ok(Some(t)) => t,
    };
    proof {
        phase_one_shape(standard@, max_pivots as nat);
        run_keeps_shape(slack@, max_pivots as nat);
    }
    match optimize(slack, max_pivots) {
        Optimized::OutOfPivots => Err(SolveError::PivotLimit),
        Optimized::Unbounded => Ok(LPResult::Unbounded),
        Optimized::Optimal(last) => {
            let basic_solution = last.get_basic_solution();
            let optimal = last.get_objective(&basic_solution);
            let mut solution: Vec<Rational> = Vec::new();
            let mut j: usize = 0;
            while j < n
                invariant
                    j <= n,
                    n <= basic_solution.len(),
                    solution.len() == j,
                    forall|k: int| 0 <= k < j ==> (#[trigger] solution@[k])@ == basic_solution@[k]@,
                decreases n - j,
            {
                solution.push(basic_solution[j].clone());
                j += 1;
            }
            assert(reals(solution@) =~= last@.basic_solution().take(n as int));
            Ok(LPResult::Feasible((solution, optimal)))
        },
    }
}

/// Solves `standard`. Each of the two improvement loops is given as many
/// pivots as a `u64` counts.
pub fn simplex(standard: &StandardForm) -> (r: Result<LPResult, SolveError>)
    ensures
        result_view(r) == solve(standard@, u64::MAX as nat),
{
    simplex_bounded(standard, u64::MAX)
}

} // verus!
