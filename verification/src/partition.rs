//! The partition of the variables: a slack form has one basic variable for
//! each constraint, before and after every pivot.

use crate::model::Model;
use crate::optimize::{entering, first_improving, leaving, leaving_limits, run, Outcome};
use crate::phase_one::{
    first_auxiliary, first_auxiliary_shape, first_replacing, most_negative, phase_one,
    replacement, restored, run_keeps_shape, starts_feasible,
};
use crate::solver::{last_tableau, phase_one_shape};
use crate::tableau::{auxiliary_slack, pivot_keeps_shape, plain_slack, Tableau};
use vstd::prelude::*;

verus! {

/// How many of the first `k` flags are set.
pub open spec fn count_set(flags: Seq<bool>, k: int) -> nat
    decreases k,
{
    if k <= 0 {
        0
    } else if flags[k - 1] {
        count_set(flags, k - 1) + 1
    } else {
        count_set(flags, k - 1)
    }
}

/// The number of basic variables.
pub open spec fn basic_count(t: Tableau) -> nat {
    count_set(t.basic, t.size())
}

/// Flags that agree below `k` count the same.
proof fn count_agrees(f: Seq<bool>, g: Seq<bool>, k: int)
    requires
        forall|i: int| 0 <= i < k ==> f[i] == g[i],
    ensures
        count_set(f, k) == count_set(g, k),
    decreases k,
{
    if k > 0 {
        count_agrees(f, g, k - 1);
    }
}

/// Setting a flag that was clear adds one to the count.
proof fn count_after_set(f: Seq<bool>, k: int, i: int)
    requires
        0 <= i < k <= f.len(),
        !f[i],
    ensures
        count_set(f.update(i, true), k) == count_set(f, k) + 1,
    decreases k,
{
    if i == k - 1 {
        count_agrees(f, f.update(i, true), k - 1);
    } else {
        count_after_set(f, k - 1, i);
    }
}

/// Clearing a flag that was set takes one from the count.
proof fn count_after_clear(f: Seq<bool>, k: int, i: int)
    requires
        0 <= i < k <= f.len(),
        f[i],
    ensures
        count_set(f.update(i, false), k) + 1 == count_set(f, k),
    decreases k,
{
    if i == k - 1 {
        count_agrees(f, f.update(i, false), k - 1);
    } else {
        count_after_clear(f, k - 1, i);
    }
}

/// Of the flags that are set from `from` on and clear before, `k - from` are
/// set below `k`.
proof fn count_of_tail(f: Seq<bool>, from: int, k: int)
    requires
        0 <= from <= k,
        forall|i: int| 0 <= i < k ==> f[i] == (i >= from),
    ensures
        count_set(f, k) == k - from,
    decreases k,
{
    if k > from {
        count_of_tail(f, from, k - 1);
    } else if k > 0 {
        count_of_tail(f, k - 1, k - 1);
    }
}

/// A pivot keeps the number of basic variables: one leaves and one enters.
pub proof fn pivot_keeps_basic_count(t: Tableau, leaving: int, entering: int)
    requires
        t.wf(),
        t.is_basic(leaving),
        t.is_nonbasic(entering),
    ensures
        basic_count(t.pivot(leaving, entering)) == basic_count(t),
{
    count_after_clear(t.basic, t.size(), leaving);
    count_after_set(t.basic.update(leaving, false), t.size(), entering);
}

/// The improvement loop keeps the number of basic variables.
pub proof fn run_keeps_basic_count(t: Tableau, pivots: nat)
    requires
        t.wf(),
    ensures
        run(t, pivots) matches Outcome::Optimal(u) ==> basic_count(u) == basic_count(t),
    decreases pivots,
{
    if let Some(e) = entering(t) {
        assert(first_improving(t, e));
        if let Some(l) = leaving(t, e) {
            leaving_limits(t, e, t.size());
            pivot_keeps_shape(t, l, e);
            pivot_keeps_basic_count(t, l, e);
            if pivots > 0 {
                run_keeps_basic_count(t.pivot(l, e), (pivots - 1) as nat);
            }
        }
    }
}

/// The initial slack form, and that of the auxiliary program, have one basic
/// variable for each constraint.
pub proof fn initial_basic_count(s: Model)
    requires
        s.wf(),
    ensures
        basic_count(plain_slack(s)) == s.m(),
        basic_count(auxiliary_slack(s)) == s.m(),
{
    let size = s.n() + s.m();
    count_of_tail(plain_slack(s).basic, s.n(), size);
    count_of_tail(auxiliary_slack(s).basic, s.n(), size);
}

/// The slack form that the first phase gives has one basic variable for each
/// constraint.
pub proof fn phase_one_basic_count(s: Model, pivots: nat)
    requires
        s.wf(),
    ensures
        phase_one(s, pivots) matches Ok(Some(t)) ==> basic_count(t) == s.m(),
{
    initial_basic_count(s);
    if let Ok(Some(r)) = phase_one(s, pivots) {
        if !starts_feasible(s) {
            let aux = s.n() + s.m();
            let first = first_auxiliary(s);
            first_auxiliary_shape(s);
            pivot_keeps_basic_count(auxiliary_slack(s), s.n() + most_negative(s.b), aux);
            run_keeps_shape(first, pivots);
            run_keeps_basic_count(first, pivots);
            let t = run(first, pivots)->Optimal_0;
            let last = if t.basic[aux] {
                t.pivot(aux, replacement(t, aux)->Some_0)
            } else {
                t
            };
            if t.basic[aux] {
                let j = replacement(t, aux)->Some_0;
                assert(first_replacing(t, aux, j));
                pivot_keeps_shape(t, aux, j);
                pivot_keeps_basic_count(t, aux, j);
            }
            assert(r == restored(s, last));
            count_agrees(r.basic, last.basic, aux);
        }
    }
}

/// The slack form that the solver reads its answer from has one basic
/// variable for each constraint.
pub proof fn last_basic_count(s: Model, pivots: nat)
    requires
        s.wf(),
    ensures
        last_tableau(s, pivots) matches Some(u) ==> basic_count(u) == s.m(),
{
    if let Ok(Some(t)) = phase_one(s, pivots) {
        phase_one_shape(s, pivots);
        phase_one_basic_count(s, pivots);
        run_keeps_basic_count(t, pivots);
    }
}

} // verus!
