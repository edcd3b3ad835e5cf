//! The improvement loop: which variable enters, which leaves, and when to
//! stop.
//!
//! Both choices take the smallest index that qualifies, which is Bland's
//! rule.

use crate::rational::Rational;
use crate::slack::SlackForm;
use crate::tableau::{eps, pivot_keeps_shape, Tableau};
use vstd::prelude::*;

verus! {

/// Variable `j` is nonbasic and raising it raises the objective by more than
/// the tolerance allows to ignore.
pub open spec fn improving(t: Tableau, j: int) -> bool {
    t.is_nonbasic(j) && t.c[j] > eps()
}

/// Variable `j` is improving and no variable before it is.
pub open spec fn first_improving(t: Tableau, j: int) -> bool {
    improving(t, j) && forall|i: int| 0 <= i < j ==> !improving(t, i)
}

/// The entering variable: the improving variable of smallest index, if there
/// is one.
pub open spec fn entering(t: Tableau) -> Option<int> {
    if exists|j: int| first_improving(t, j) {
        Some(choose|j: int| first_improving(t, j))
    } else {
        None
    }
}

/// Row `i` limits how far `entering` can be raised: `i` is basic and its
/// coefficient on `entering` is above the tolerance.
pub open spec fn limits(t: Tableau, entering: int, i: int) -> bool {
    t.is_basic(i) && t.a[i][entering] > eps()
}

/// How far row `i` lets `entering` be raised.
pub open spec fn step_of(t: Tableau, entering: int, i: int) -> real {
    t.b[i] / t.a[i][entering]
}

/// The leaving variable among the rows below `k`: the rows that limit
/// `entering` are gone through in order, and a row replaces the one held so
/// far only where its step is smaller by more than the tolerance.
pub open spec fn leaving_upto(t: Tableau, entering: int, k: int) -> Option<int>
    decreases k,
{
    if k <= 0 {
        None
    } else {
        let held = leaving_upto(t, entering, k - 1);
        if !limits(t, entering, k - 1) {
            held
        } else {
            match held {
                None => Some(k - 1),
                Some(l) => if step_of(t, entering, l) - step_of(t, entering, k - 1) > eps() {
                    Some(k - 1)
                } else {
                    Some(l)
                },
            }
        }
    }
}

/// The leaving variable for `entering`, if any row limits it.
pub open spec fn leaving(t: Tableau, entering: int) -> Option<int> {
    leaving_upto(t, entering, t.size())
}

/// How the improvement loop ends.
pub enum Outcome {
    /// No variable is improving; the tableau is the last one.
    Optimal(Tableau),
    /// A variable is improving and no row limits it.
    Unbounded,
    /// A pivot was due and none was left of those allowed.
    OutOfPivots,
}

/// The improvement loop from `t`, with at most `pivots` pivots.
pub open spec fn run(t: Tableau, pivots: nat) -> Outcome
    decreases pivots,
{
    match entering(t) {
        None => Outcome::Optimal(t),
        Some(e) => match leaving(t, e) {
            None => Outcome::Unbounded,
            Some(l) => if pivots == 0 {
                Outcome::OutOfPivots
            } else {
                run(t.pivot(l, e), (pivots - 1) as nat)
            },
        },
    }
}

/// The leaving variable among the rows below `k` is one of them and limits
/// `entering`; there is none exactly where no such row limits it.
pub proof fn leaving_limits(t: Tableau, entering: int, k: int)
    requires
        k <= t.size(),
    ensures
        leaving_upto(t, entering, k) matches Some(l) ==> 0 <= l < k && limits(t, entering, l),
        leaving_upto(t, entering, k) is None <==> forall|i: int|
            0 <= i < k ==> !limits(t, entering, i),
    decreases k,
{
    if k > 0 {
        leaving_limits(t, entering, k - 1);
        if leaving_upto(t, entering, k) is None {
            assert forall|i: int| 0 <= i < k implies !limits(t, entering, i) by {
                if i < k - 1 {
                } else {
                }
            }
        }
    }
}

/// The tolerance as a number.
pub fn tolerance() -> (r: Rational)
    ensures
        r@ == eps(),
{
    let r = Rational::from_fraction(1, 100000000);
    r.unwrap()
}

/// The entering variable of `t`.
pub fn choose_entering(t: &SlackForm) -> (r: Option<usize>)
    ensures
        r is Some <==> entering(t@) is Some,
        r matches Some(j) ==> entering(t@) == Some(j as int),
{
    let n = t.size();
    let tol = tolerance();
    let mut j: usize = 0;
    while j < n
        invariant
            j <= n,
            n == t@.size(),
            t@.wf(),
            tol@ == eps(),
            forall|i: int| 0 <= i < j ==> !improving(t@, i),
        decreases n - j,
    {
        if !t.is_basic(j) && t.c(j).gt(&tol) {
            assert(first_improving(t@, j as int));
            assert forall|k: int| first_improving(t@, k) implies k == j by {
                if k < j {
                } else if k > j {
                    assert(improving(t@, j as int));
                }
            }
            return Some(j);
        }
        j += 1;
    }
    assert forall|k: int| !first_improving(t@, k) by {
        if improving(t@, k) {
            assert(0 <= k < n);
        }
    }
    None
}

/// The leaving variable of `t` for `entering`.
pub fn choose_leaving(t: &SlackForm, entering: usize) -> (r: Option<usize>)
    requires
        entering < t@.size(),
    ensures
        r is Some <==> leaving(t@, entering as int) is Some,
        r matches Some(l) ==> leaving(t@, entering as int) == Some(l as int),
{
    let n = t.size();
    let tol = tolerance();
    let mut held: Option<usize> = None;
    let mut step = Rational::from_int(0);
    let mut i: usize = 0;
    while i < n
        invariant
            i <= n,
            n == t@.size(),
            entering < n,
            t@.wf(),
            tol@ == eps(),
            held is Some <==> leaving_upto(t@, entering as int, i as int) is Some,
            held matches Some(l) ==> leaving_upto(t@, entering as int, i as int) == Some(l as int)
                && step@ == step_of(t@, entering as int, l as int),
        decreases n - i,
    {
        if t.is_basic(i) && t.a(i, entering).gt(&tol) {
            let s = t.b(i).div(t.a(i, entering));
            let replace = match held {
                None => true,
                Some(_) => step.sub(&s).gt(&tol),
            };
            if replace {
                held = Some(i);
                step = s;
            }
        }
        i += 1;
    }
    held
}

/// How a run of the improvement loop ended.
pub enum Optimized {
    /// No variable is improving; the slack form is the last one.
    Optimal(SlackForm),
    /// A variable is improving and no row limits it.
    Unbounded,
    /// A pivot was due and none was left of those allowed.
    OutOfPivots,
}

impl View for Optimized {
    type V = Outcome;

    open spec fn view(&self) -> Outcome {
        match self {
            Optimized::Optimal(t) => Outcome::Optimal(t@),
            Optimized::Unbounded => Outcome::Unbounded,
            Optimized::OutOfPivots => Outcome::OutOfPivots,
        }
    }
}

/// Runs the improvement loop from `t` with at most `max_pivots` pivots.
pub fn optimize(t: SlackForm, max_pivots: u64) -> (r: Optimized)
    ensures
        r@ == run(t@, max_pivots as nat),
{
    let ghost start = t@;
    let mut current = t;
    assert(current@ == start);
    let mut left: u64 = max_pivots;
    loop
        invariant
            start == t@,
            run(current@, left as nat) == run(start, max_pivots as nat),
        decreases left,
    {
        let n = current.size();
        match choose_entering(&current) {
            None => {
                return Optimized::Optimal(current);
            },
            Some(e) => {
                assert(first_improving(current@, e as int));
                match choose_leaving(&current, e) {
                    None => {
                        return Optimized::Unbounded;
                    },
                    Some(l) => {
                        if left == 0 {
                            return Optimized::OutOfPivots;
                        }
                        proof {
                            leaving_limits(current@, e as int, current@.size());
                            pivot_keeps_shape(current@, l as int, e as int);
                        }
                        current = current.pivot(l, e);
                        left = left - 1;
                    },
                }
            },
        }
    }
}

} // verus!
