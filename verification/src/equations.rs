//! Pivots keep the solutions: whatever solves the equations of a tableau
//! after pivots solved them before, with the same objective.

use crate::model::Model;
use crate::optimize::{entering, first_improving, leaving, leaving_limits, run, Outcome};
use crate::phase_one::{
    basic_cost_upto, basic_value_upto, first_auxiliary, first_auxiliary_shape,
    first_replacing, most_negative, phase_one, replacement, restored, restored_cost,
    run_keeps_shape, starts_feasible,
};
use crate::sums::{
    masked_dot, masked_dot_agrees, masked_dot_combined, masked_dot_divided, masked_dot_skips,
    masked_dot_split, masked_dot_with, masked_dot_without,
};
use crate::tableau::{auxiliary_slack, pivot_keeps_shape, plain_slack, Tableau};
use vstd::prelude::*;

verus! {

/// The nonbasic variables after a pivot are those before it, without
/// `entering` and with `leaving`.
proof fn free_after_pivot(t: Tableau, l: int, e: int)
    requires
        t.wf(),
        t.can_pivot(l, e),
    ensures
        t.pivot(l, e).free() == t.free().update(e, false).update(l, true),
{
    assert(t.pivot(l, e).free() =~= t.free().update(e, false).update(l, true));
}

/// The sum of a row after the pivot, in terms of sums before it over the
/// nonbasic variables other than `entering`.
proof fn sum_after_pivot(t: Tableau, l: int, e: int, w: Seq<real>, x: Seq<real>)
    requires
        t.wf(),
        t.can_pivot(l, e),
        x.len() == t.size(),
        w.len() == t.size(),
    ensures
        masked_dot(t.pivot(l, e).free(), w, x, t.size()) == masked_dot(
            t.free().update(e, false),
            w,
            x,
            t.size(),
        ) + w[l] * x[l],
{
    free_after_pivot(t, l, e);
    masked_dot_with(t.free().update(e, false), w, x, t.size(), l);
}

/// The sums of the rows and of the objective before and after a pivot, over
/// the nonbasic variables other than `entering`.
proof fn pivot_sums(t: Tableau, l: int, e: int, x: Seq<real>)
    requires
        t.wf(),
        t.can_pivot(l, e),
        x.len() == t.size(),
    ensures
        ({
            let u = t.pivot(l, e);
            let rest = t.free().update(e, false);
            let p = t.a[l][e];
            let n = t.size();
            let rl = masked_dot(rest, t.a[l], x, n);
            &&& forall|i: int|
                t.is_basic(i) ==> #[trigger] t.row_sum(i, x) == masked_dot(rest, t.a[i], x, n)
                    + t.a[i][e] * x[e]
            &&& u.row_sum(e, x) == rl / p + (1real / p) * x[l]
            &&& forall|i: int|
                t.is_basic(i) && i != l ==> #[trigger] u.row_sum(i, x) == (masked_dot(
                    rest,
                    t.a[i],
                    x,
                    n,
                ) - t.a[i][e] * (rl / p)) + (-t.a[i][e] * (1real / p)) * x[l]
            &&& t.objective(x) == t.v + (masked_dot(rest, t.c, x, n) + t.c[e] * x[e])
            &&& u.objective(x) == (t.v + t.c[e] * (t.b[l] / p)) + ((masked_dot(rest, t.c, x, n)
                - t.c[e] * (rl / p)) + (-t.c[e] * (1real / p)) * x[l])
        }),
{
    let u = t.pivot(l, e);
    let n = t.size();
    let p = t.a[l][e];
    let rest = t.free().update(e, false);
    pivot_keeps_shape(t, l, e);
    let rl = masked_dot(rest, t.a[l], x, n);
    let re = masked_dot(rest, u.a[e], x, n);
    assert(re == rl / p) by {
        assert forall|j: int| 0 <= j < n && rest[j] implies u.a[e][j] == t.a[l][j] / p by {
            assert(u.a[e][j] == t.pivot_a(l, e, e, j));
        }
        masked_dot_divided(rest, u.a[e], t.a[l], p, x, n);
    }
    assert(u.row_sum(e, x) == rl / p + (1real / p) * x[l]) by {
        assert(u.a[e][l] == t.pivot_a(l, e, e, l));
        sum_after_pivot(t, l, e, u.a[e], x);
    }
    assert forall|i: int| t.is_basic(i) implies #[trigger] t.row_sum(i, x) == masked_dot(
        rest,
        t.a[i],
        x,
        n,
    ) + t.a[i][e] * x[e] by {
        masked_dot_without(t.free(), t.a[i], x, n, e);
    }
    assert forall|i: int| t.is_basic(i) && i != l implies #[trigger] u.row_sum(i, x) == (
    masked_dot(rest, t.a[i], x, n) - t.a[i][e] * (rl / p)) + (-t.a[i][e] * (1real / p)) * x[l] by {
        let aie = t.a[i][e];
        assert forall|j: int| 0 <= j < n && rest[j] implies u.a[i][j] == t.a[i][j] - aie
            * u.a[e][j] by {
            assert(u.a[i][j] == t.pivot_a(l, e, i, j));
            assert(u.a[e][j] == t.pivot_a(l, e, e, j));
        }
        masked_dot_combined(rest, u.a[i], t.a[i], aie, u.a[e], x, n);
        assert(u.a[i][l] == t.pivot_a(l, e, i, l));
        sum_after_pivot(t, l, e, u.a[i], x);
    }
    let ce = t.c[e];
    assert forall|j: int| 0 <= j < n && rest[j] implies u.c[j] == t.c[j] - ce * u.a[e][j] by {
        assert(u.c[j] == t.pivot_c(l, e, j));
        assert(u.a[e][j] == t.pivot_a(l, e, e, j));
    }
    masked_dot_combined(rest, u.c, t.c, ce, u.a[e], x, n);
    masked_dot_without(t.free(), t.c, x, n, e);
    sum_after_pivot(t, l, e, u.c, x);
    assert(u.c[l] == t.pivot_c(l, e, l));
}

/// A pivot keeps the solutions: the same values solve the equations before
/// and after it, and the objective at them is the same.
pub proof fn pivot_keeps_solutions(t: Tableau, l: int, e: int, x: Seq<real>)
    requires
        t.wf(),
        t.can_pivot(l, e),
        x.len() == t.size(),
    ensures
        t.pivot(l, e).solved_by(x) <==> t.solved_by(x),
        t.solved_by(x) ==> t.objective(x) == t.pivot(l, e).objective(x),
{
    let u = t.pivot(l, e);
    let n = t.size();
    let p = t.a[l][e];
    let rest = t.free().update(e, false);
    pivot_keeps_shape(t, l, e);
    pivot_sums(t, l, e, x);
    let rl = masked_dot(rest, t.a[l], x, n);
    let (xe, xl, bl) = (x[e], x[l], t.b[l]);
    assert(u.b[e] == t.pivot_b(l, e, e));
    // The equation of `leaving` before the pivot is that of `entering` after it.
    assert(xl == bl - (rl + p * xe) <==> xe == bl / p - (rl / p + (1real / p) * xl))
        by (nonlinear_arith)
        requires
            p != 0real,
    ;
    assert(t.is_basic(l) && u.is_basic(e));
    assert(t.row_sum(l, x) == rl + p * xe);
    if u.solved_by(x) {
        assert(xe == u.b[e] - u.row_sum(e, x));
        assert forall|i: int| t.is_basic(i) implies x[i] == t.b[i] - t.row_sum(i, x) by {
            if i != l {
                assert(u.is_basic(i));
                assert(u.b[i] == t.pivot_b(l, e, i));
                let (xi, bi, aie) = (x[i], t.b[i], t.a[i][e]);
                let ri = masked_dot(rest, t.a[i], x, n);
                assert(xi == u.b[i] - u.row_sum(i, x));
                assert(xi == bi - (ri + aie * xe)) by (nonlinear_arith)
                    requires
                        p != 0real,
                        xe == bl / p - (rl / p + (1real / p) * xl),
                        xi == (bi - aie * (bl / p)) - ((ri - aie * (rl / p)) + (-aie * (1real
                            / p)) * xl),
                ;
            }
        }
    }
    if t.solved_by(x) {
        assert(xl == t.b[l] - t.row_sum(l, x));
        assert forall|i: int| u.is_basic(i) implies x[i] == u.b[i] - u.row_sum(i, x) by {
            if i != e {
                assert(t.is_basic(i) && i != l);
                assert(u.b[i] == t.pivot_b(l, e, i));
                let (xi, bi, aie) = (x[i], t.b[i], t.a[i][e]);
                let ri = masked_dot(rest, t.a[i], x, n);
                assert(xi == t.b[i] - t.row_sum(i, x));
                assert(xi == (bi - aie * (bl / p)) - ((ri - aie * (rl / p)) + (-aie * (1real / p))
                    * xl)) by (nonlinear_arith)
                    requires
                        p != 0real,
                        xe == bl / p - (rl / p + (1real / p) * xl),
                        xi == bi - (ri + aie * xe),
                ;
            }
        }
        let (v, ce) = (t.v, t.c[e]);
        let c0 = masked_dot(rest, t.c, x, n);
        assert(v + (c0 + ce * xe) == (v + ce * (bl / p)) + ((c0 - ce * (rl / p)) + (-ce * (1real
            / p)) * xl)) by (nonlinear_arith)
            requires
                p != 0real,
                xe == bl / p - (rl / p + (1real / p) * xl),
        ;
    }
}

/// The improvement loop keeps the solutions: the same values solve the
/// equations of the tableau that it starts from and of the one that it ends
/// at, and the objective at them is the same.
pub proof fn run_keeps_solutions(t: Tableau, pivots: nat, x: Seq<real>)
    requires
        t.wf(),
        x.len() == t.size(),
    ensures
        run(t, pivots) matches Outcome::Optimal(u) ==> (u.solved_by(x) <==> t.solved_by(x)) && (
        t.solved_by(x) ==> t.objective(x) == u.objective(x)),
    decreases pivots,
{
    if let Some(e) = entering(t) {
        assert(first_improving(t, e));
        if let Some(l) = leaving(t, e) {
            leaving_limits(t, e, t.size());
            pivot_keeps_shape(t, l, e);
            if pivots > 0 {
                run_keeps_solutions(t.pivot(l, e), (pivots - 1) as nat, x);
                pivot_keeps_solutions(t, l, e, x);
            }
        }
    }
}

/// The equations and the objective of the initial slack form are those of
/// the program: each slack variable is what its constraint leaves.
pub proof fn plain_slack_means(s: Model, y: Seq<real>)
    requires
        s.wf(),
        y.len() == s.n() + s.m(),
    ensures
        plain_slack(s).solved_by(y) <==> forall|k: int|
            0 <= k < s.m() ==> y[s.n() + k] == s.b[k] - s.row(k, y.take(s.n())),
        plain_slack(s).objective(y) == s.objective(y.take(s.n())),
{
    let t = plain_slack(s);
    let n = s.n();
    let size = n + s.m();
    let x = y.take(n);
    let all = Seq::new(n as nat, |j: int| true);
    assert forall|k: int| 0 <= k < s.m() implies t.row_sum(n + k, y) == s.row(k, x) by {
        masked_dot_skips(t.free(), t.a[n + k], y, n, size);
        assert(s.a[k].len() == n);
        masked_dot_agrees(t.free(), t.a[n + k], y, all, s.a[k], x, n);
    }
    assert(t.objective(y) == s.objective(x)) by {
        masked_dot_skips(t.free(), t.c, y, n, size);
        masked_dot_agrees(t.free(), t.c, y, all, s.c, x, n);
    }
    if t.solved_by(y) {
        assert forall|k: int| 0 <= k < s.m() implies y[n + k] == s.b[k] - s.row(k, x) by {
            assert(t.is_basic(n + k));
        }
    }
    if forall|k: int| 0 <= k < s.m() ==> y[n + k] == s.b[k] - s.row(k, x) {
        assert forall|i: int| t.is_basic(i) implies y[i] == t.b[i] - t.row_sum(i, y) by {
            let k = i - n;
            assert(t.row_sum(n + k, y) == s.row(k, x));
        }
    }
}

/// The values that solve the equations of the program are those that solve
/// the equations of its auxiliary program with the auxiliary variable at
/// zero.
pub proof fn auxiliary_means(s: Model, y: Seq<real>)
    requires
        s.wf(),
        y.len() == s.n() + s.m(),
    ensures
        auxiliary_slack(s).solved_by(y.push(0real)) <==> plain_slack(s).solved_by(y),
{
    let t = plain_slack(s);
    let u = auxiliary_slack(s);
    let x = y.push(0real);
    let size = s.n() + s.m();
    assert forall|i: int| t.is_basic(i) implies u.row_sum(i, x) == t.row_sum(i, y) by {
        masked_dot_agrees(u.free(), u.a[i], x, t.free(), t.a[i], y, size);
        let last = u.a[i][size];
        assert(last * 0real == 0real) by (nonlinear_arith);
    }
    if u.solved_by(x) {
        assert forall|i: int| t.is_basic(i) implies y[i] == t.b[i] - t.row_sum(i, y) by {
            assert(u.is_basic(i));
            assert(x[i] == u.b[i] - u.row_sum(i, x));
        }
    }
    if t.solved_by(y) {
        assert forall|i: int| u.is_basic(i) implies x[i] == u.b[i] - u.row_sum(i, x) by {
            assert(t.is_basic(i));
            assert(y[i] == t.b[i] - t.row_sum(i, y));
        }
    }
}

/// The values that solve the equations restored from a slack form of the
/// auxiliary program are those that solve that slack form with the auxiliary
/// variable at zero.
pub proof fn restored_means(s: Model, t: Tableau, y: Seq<real>)
    requires
        s.wf(),
        t.wf(),
        t.size() == s.n() + s.m() + 1,
        t.is_nonbasic(s.n() + s.m()),
        y.len() == s.n() + s.m(),
    ensures
        t.solved_by(y.push(0real)) <==> restored(s, t).solved_by(y),
{
    let r = restored(s, t);
    let x = y.push(0real);
    let size = s.n() + s.m();
    assert forall|i: int| r.is_basic(i) implies t.row_sum(i, x) == r.row_sum(i, y) by {
        masked_dot_agrees(t.free(), t.a[i], x, r.free(), r.a[i], y, size);
        let last = t.a[i][size];
        assert(last * 0real == 0real) by (nonlinear_arith);
    }
    if r.solved_by(y) {
        assert forall|i: int| t.is_basic(i) implies x[i] == t.b[i] - t.row_sum(i, x) by {
            assert(r.is_basic(i));
            assert(y[i] == r.b[i] - r.row_sum(i, y));
        }
    }
    if t.solved_by(x) {
        assert forall|i: int| r.is_basic(i) implies y[i] == r.b[i] - r.row_sum(i, y) by {
            assert(t.is_basic(i));
            assert(x[i] == t.b[i] - t.row_sum(i, x));
        }
    }
}

/// The program's objective coefficients of the basic variables below `k`,
/// each times what the nonbasic variables take from that variable at `y`,
/// summed.
pub open spec fn weighted_rows(s: Model, r: Tableau, y: Seq<real>, k: int) -> real
    decreases k,
{
    if k <= 0 {
        0real
    } else if r.basic[k - 1] {
        weighted_rows(s, r, y, k - 1) + s.c[k - 1] * r.row_sum(k - 1, y)
    } else {
        weighted_rows(s, r, y, k - 1)
    }
}

/// The sums over rows and over columns agree: the costs of the basic
/// variables below `k`, carried to the columns, weigh `y` as the rows do.
proof fn columns_weigh_as_rows(s: Model, t: Tableau, y: Seq<real>, k: int)
    requires
        s.wf(),
        t.wf(),
        t.size() == s.n() + s.m() + 1,
        0 <= k <= s.n(),
    ensures
        masked_dot(
            restored(s, t).free(),
            Seq::new((s.n() + s.m()) as nat, |j: int| basic_cost_upto(s, t, j, k)),
            y,
            s.n() + s.m(),
        ) == weighted_rows(s, restored(s, t), y, k),
    decreases k,
{
    let r = restored(s, t);
    let size = s.n() + s.m();
    let w = Seq::new(size as nat, |j: int| basic_cost_upto(s, t, j, k));
    if k == 0 {
        masked_dot_skips(r.free(), w, y, 0, size);
    } else {
        columns_weigh_as_rows(s, t, y, k - 1);
        let before = Seq::new(size as nat, |j: int| basic_cost_upto(s, t, j, k - 1));
        if t.basic[k - 1] {
            let c = s.c[k - 1];
            assert forall|j: int| 0 <= j < size && r.free()[j] implies w[j] == before[j] - (-c)
                * r.a[k - 1][j] by {
                let a = t.a[k - 1][j];
                assert(r.a[k - 1][j] == a);
                assert(c * a == -((-c) * a)) by (nonlinear_arith);
            }
            masked_dot_combined(r.free(), w, before, -c, r.a[k - 1], y, size);
            let row = r.row_sum(k - 1, y);
            assert(c * row == -((-c) * row)) by (nonlinear_arith);
        } else {
            masked_dot_agrees(r.free(), w, y, r.free(), before, y, size);
        }
    }
}

/// Where `y` solves the restored equations, what the nonbasic variables take
/// from each basic variable is its value less its entry of `y`.
proof fn rows_are_what_is_taken(s: Model, t: Tableau, y: Seq<real>, k: int)
    requires
        s.wf(),
        t.wf(),
        t.size() == s.n() + s.m() + 1,
        0 <= k <= s.n(),
        restored(s, t).solved_by(y),
    ensures
        weighted_rows(s, restored(s, t), y, k) == basic_value_upto(s, t, k) - masked_dot(
            restored(s, t).basic,
            s.c,
            y,
            k,
        ),
    decreases k,
{
    let r = restored(s, t);
    if k > 0 {
        rows_are_what_is_taken(s, t, y, k - 1);
        if r.basic[k - 1] {
            assert(r.is_basic(k - 1));
            let (c, b, v, row) = (s.c[k - 1], t.b[k - 1], y[k - 1], r.row_sum(k - 1, y));
            assert(r.b[k - 1] == b);
            assert(v == b - row);
            assert(c * row == c * b - c * v) by (nonlinear_arith)
                requires
                    v == b - row,
            ;
        }
    }
}

/// The objective restored over the basis of a slack form of the auxiliary
/// program is the objective of the program, at whatever solves the restored
/// equations.
pub proof fn restored_objective(s: Model, t: Tableau, y: Seq<real>)
    requires
        s.wf(),
        t.wf(),
        t.size() == s.n() + s.m() + 1,
        restored(s, t).solved_by(y),
    ensures
        restored(s, t).objective(y) == s.objective(y.take(s.n())),
{
    let r = restored(s, t);
    let n = s.n();
    let size = s.n() + s.m();
    let padded = Seq::new(size as nat, |j: int| if j < n { s.c[j] } else { 0real });
    let carried = Seq::new(size as nat, |j: int| basic_cost_upto(s, t, j, n));
    assert forall|j: int| 0 <= j < size && r.free()[j] implies r.c[j] == padded[j] - 1real
        * carried[j] by {
        assert(r.c[j] == restored_cost(s, t, j));
    }
    masked_dot_combined(r.free(), r.c, padded, 1real, carried, y, size);
    columns_weigh_as_rows(s, t, y, n);
    rows_are_what_is_taken(s, t, y, n);
    masked_dot_skips(r.free(), padded, y, n, size);
    masked_dot_agrees(r.basic, s.c, y, Seq::new(size as nat, |j: int| !r.free()[j]), padded, y, n);
    masked_dot_split(r.free(), padded, y, n);
    masked_dot_agrees(
        Seq::new(size as nat, |j: int| true),
        padded,
        y,
        Seq::new(n as nat, |j: int| true),
        s.c,
        y.take(n),
        n,
    );
}

/// The first phase keeps the solutions: the values that solve the equations
/// of the slack form that it gives are those that solve the equations of the
/// program, and the objective of that slack form at them is the objective of
/// the program.
pub proof fn phase_one_keeps_solutions(s: Model, pivots: nat, y: Seq<real>)
    requires
        s.wf(),
        y.len() == s.n() + s.m(),
    ensures
        phase_one(s, pivots) matches Ok(Some(t)) ==> (t.solved_by(y) <==> plain_slack(
            s,
        ).solved_by(y)) && (t.solved_by(y) ==> t.objective(y) == s.objective(y.take(s.n()))),
{
    let n = s.n();
    let aux = s.n() + s.m();
    if let Ok(Some(r)) = phase_one(s, pivots) {
        if starts_feasible(s) {
            plain_slack_means(s, y);
        } else {
            assert(s.m() > 0);
            let first = first_auxiliary(s);
            first_auxiliary_shape(s);
            run_keeps_shape(first, pivots);
            let t = run(first, pivots)->Optimal_0;
            let x = y.push(0real);
            let last = if t.basic[aux] {
                t.pivot(aux, replacement(t, aux)->Some_0)
            } else {
                t
            };
            if t.basic[aux] {
                let j = replacement(t, aux)->Some_0;
                assert(first_replacing(t, aux, j));
                pivot_keeps_shape(t, aux, j);
                pivot_keeps_solutions(t, aux, j, x);
            }
            restored_means(s, last, y);
            run_keeps_solutions(first, pivots, x);
            pivot_keeps_solutions(auxiliary_slack(s), n + most_negative(s.b), aux, x);
            auxiliary_means(s, y);
            if r.solved_by(y) {
                restored_objective(s, last, y);
            }
        }
    }
}

} // verus!
