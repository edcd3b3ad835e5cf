use simplex::optimize::{choose_entering, choose_leaving, optimize, tolerance, Optimized};
use simplex::phase_one::{most_negative_bound, starts_feasible_check};
use simplex::{initialize_simplex, simplex, LPResult, Rational, SlackForm, StandardForm};

fn q(n: i64, d: u64) -> Rational {
    Rational::from_fraction(n, d).unwrap()
}

fn whole(xs: &[i64]) -> Vec<Rational> {
    xs.iter().map(|&x| Rational::from_int(x)).collect()
}

fn program(c: &[i64], a: &[Vec<i64>], b: &[i64]) -> StandardForm {
    StandardForm::new(whole(c), a.iter().map(|row| whole(row)).collect(), whole(b)).unwrap()
}

fn same(a: &Rational, b: &Rational) -> bool {
    !a.lt(b) && !b.lt(a)
}

fn same_slack(s: &SlackForm, t: &SlackForm) -> bool {
    s.size() == t.size()
        && s.basic() == t.basic()
        && same(s.v(), t.v())
        && (0..s.size()).all(|i| {
            same(s.b(i), t.b(i))
                && same(s.c(i), t.c(i))
                && (0..s.size()).all(|j| same(s.a(i, j), t.a(i, j)))
        })
}

fn textbook() -> StandardForm {
    program(
        &[3, 1, 2],
        &[vec![1, 1, 3], vec![2, 2, 5], vec![4, 1, 2]],
        &[30, 24, 36],
    )
}

#[test]
fn slack_form_of_a_program() {
    let t = textbook().into_slack_form();
    assert_eq!(t.size(), 6);
    assert_eq!(t.nonbasic(), vec![0, 1, 2]);
    assert_eq!(t.basic(), vec![3, 4, 5]);
    let a = [[1, 1, 3], [2, 2, 5], [4, 1, 2]];
    let b = [30, 24, 36];
    let c = [3, 1, 2];
    for i in 0..6 {
        for j in 0..6 {
            let expected = if i >= 3 && j < 3 { a[i - 3][j] } else { 0 };
            assert!(same(t.a(i, j), &Rational::from_int(expected)));
        }
        assert!(same(t.b(i), &Rational::from_int(if i >= 3 { b[i - 3] } else { 0 })));
        assert!(same(t.c(i), &Rational::from_int(if i < 3 { c[i] } else { 0 })));
        assert_eq!(t.is_basic(i), i >= 3);
    }
    assert!(same(t.v(), &Rational::from_int(0)));
}

#[test]
fn slack_form_where_rows_and_columns_differ() {
    let s = program(&[1, 2, 3], &[vec![4, 5, 6]], &[7]);
    let t = s.into_slack_form();
    assert_eq!(t.size(), 4);
    assert_eq!(t.basic(), vec![3]);
    assert!(same(t.a(3, 0), &Rational::from_int(4)));
    assert!(same(t.a(3, 1), &Rational::from_int(5)));
    assert!(same(t.a(3, 2), &Rational::from_int(6)));
    assert!(same(t.b(3), &Rational::from_int(7)));
}

#[test]
fn auxiliary_slack_form_of_a_program() {
    let t = program(&[2, -1], &[vec![2, -1], vec![1, -5]], &[2, -4]).into_auxiliary_slack_form();
    assert_eq!(t.size(), 5);
    assert_eq!(t.nonbasic(), vec![0, 1, 4]);
    assert_eq!(t.basic(), vec![2, 3]);
    let a = [[2, -1], [1, -5]];
    for i in 0..5 {
        for j in 0..5 {
            let expected = if i == 2 || i == 3 {
                if j < 2 {
                    a[i - 2][j]
                } else if j == 4 {
                    -1
                } else {
                    0
                }
            } else {
                0
            };
            assert!(same(t.a(i, j), &Rational::from_int(expected)));
        }
        assert!(same(t.c(i), &Rational::from_int(if i == 4 { -1 } else { 0 })));
    }
    assert!(same(t.b(2), &Rational::from_int(2)));
    assert!(same(t.b(3), &Rational::from_int(-4)));
    assert!(same(t.v(), &Rational::from_int(0)));
}

#[test]
fn pivot_rewrites_the_tableau() {
    let t = textbook().into_slack_form();
    let u = t.pivot(5, 0);
    assert_eq!(u.basic(), vec![0, 3, 4]);
    assert_eq!(u.nonbasic(), vec![1, 2, 5]);
    assert!(same(u.b(0), &Rational::from_int(9)));
    assert!(same(u.b(3), &Rational::from_int(21)));
    assert!(same(u.b(4), &Rational::from_int(6)));
    assert!(same(u.a(0, 1), &q(1, 4)));
    assert!(same(u.a(0, 2), &q(1, 2)));
    assert!(same(u.a(0, 5), &q(1, 4)));
    assert!(same(u.a(3, 1), &q(3, 4)));
    assert!(same(u.a(3, 2), &q(5, 2)));
    assert!(same(u.a(3, 5), &q(-1, 4)));
    assert!(same(u.a(4, 1), &q(3, 2)));
    assert!(same(u.a(4, 2), &Rational::from_int(4)));
    assert!(same(u.a(4, 5), &q(-1, 2)));
    assert!(same(u.c(1), &q(1, 4)));
    assert!(same(u.c(2), &q(1, 2)));
    assert!(same(u.c(5), &q(-3, 4)));
    assert!(same(u.v(), &Rational::from_int(27)));
    // What the slack form does not read is zero.
    for i in [1, 2, 5] {
        assert!(same(u.b(i), &Rational::from_int(0)));
        for j in 0..6 {
            assert!(same(u.a(i, j), &Rational::from_int(0)));
        }
    }
    for j in [0, 3, 4] {
        assert!(same(u.c(j), &Rational::from_int(0)));
        for i in 0..6 {
            assert!(same(u.a(i, j), &Rational::from_int(0)));
        }
    }
    // The tableau that was pivoted is as it was.
    assert!(same_slack(&t, &textbook().into_slack_form()));
    assert!(same_slack(&u.clone(), &u));
}

#[test]
fn basic_solution_and_objective() {
    let u = textbook().into_slack_form().pivot(5, 0);
    let solution = u.get_basic_solution();
    let expected = whole(&[9, 0, 0, 21, 6, 0]);
    assert_eq!(solution.len(), 6);
    for i in 0..6 {
        assert!(same(&solution[i], &expected[i]));
    }
    assert!(same(&u.get_objective(&solution), &Rational::from_int(27)));
    // 27 + 1/4 * 4 + 1/2 * 2 - 3/4 * 8
    let point = whole(&[1, 4, 2, 1, 1, 8]);
    assert!(same(&u.get_objective(&point), &Rational::from_int(23)));
}

#[test]
fn entering_variable_is_the_first_that_improves() {
    let t = program(&[0, 2, 5], &[vec![1, 1, 1]], &[4]).into_slack_form();
    assert_eq!(choose_entering(&t), Some(1));
    let t = program(&[-1, 0, -3], &[vec![1, 1, 1]], &[4]).into_slack_form();
    assert_eq!(choose_entering(&t), None);
}

#[test]
fn reduced_cost_at_the_tolerance_does_not_improve() {
    let at = StandardForm::new(vec![tolerance()], vec![whole(&[1])], whole(&[1])).unwrap();
    assert_eq!(choose_entering(&at.into_slack_form()), None);
    let above = tolerance().add(&q(1, 1_000_000_000_000));
    let over = StandardForm::new(vec![above], vec![whole(&[1])], whole(&[1])).unwrap();
    assert_eq!(choose_entering(&over.into_slack_form()), Some(0));
}

#[test]
fn leaving_variable_has_the_smallest_step() {
    let t = textbook().into_slack_form();
    assert_eq!(choose_leaving(&t, 0), Some(5));
    assert_eq!(choose_leaving(&t, 1), Some(4));
    assert_eq!(choose_leaving(&t, 2), Some(4));
}

#[test]
fn tied_steps_keep_the_first_row() {
    let t = program(&[1], &[vec![1], vec![2], vec![1]], &[3, 6, 3]).into_slack_form();
    assert_eq!(choose_leaving(&t, 0), Some(1));
    // A step that is smaller by less than the tolerance does not replace.
    let nearly = Rational::from_int(3).sub(&q(1, 1_000_000_000));
    let s = StandardForm::new(
        whole(&[1]),
        vec![whole(&[1]), whole(&[1])],
        vec![Rational::from_int(3), nearly],
    )
    .unwrap();
    assert_eq!(choose_leaving(&s.into_slack_form(), 0), Some(1));
    // One that is smaller by more does.
    let clearly = Rational::from_int(3).sub(&q(1, 10_000_000));
    let s = StandardForm::new(
        whole(&[1]),
        vec![whole(&[1]), whole(&[1])],
        vec![Rational::from_int(3), clearly],
    )
    .unwrap();
    assert_eq!(choose_leaving(&s.into_slack_form(), 0), Some(2));
}

#[test]
fn no_row_limits_an_unbounded_variable() {
    let t = program(&[1, 1], &[vec![-1, 1], vec![0, 1]], &[1, 2]).into_slack_form();
    assert_eq!(choose_leaving(&t, 0), None);
    assert_eq!(choose_leaving(&t, 1), Some(2));
}

#[test]
fn optimum_has_no_improving_variable() {
    let t = textbook().into_slack_form();
    match optimize(t, 100) {
        Optimized::Optimal(last) => {
            for j in last.nonbasic() {
                assert!(last.c(j).le(&tolerance()));
            }
            assert_eq!(last.basic(), vec![0, 1, 3]);
            assert!(same(last.v(), &Rational::from_int(28)));
        }
        _ => panic!("no optimum"),
    }
}

#[test]
fn improvement_loop_reports_how_it_ends() {
    assert!(matches!(optimize(textbook().into_slack_form(), 1), Optimized::OutOfPivots));
    assert!(matches!(optimize(textbook().into_slack_form(), 2), Optimized::Optimal(_)));
    let open = program(&[1], &[vec![-1]], &[1]).into_slack_form();
    assert!(matches!(optimize(open, 5), Optimized::Unbounded));
    let done = program(&[-1], &[vec![1]], &[1]).into_slack_form();
    assert!(matches!(optimize(done, 0), Optimized::Optimal(_)));
}

#[test]
fn feasible_start_is_returned_as_it_is() {
    let s = textbook();
    let t = initialize_simplex(&s).unwrap().unwrap();
    assert!(same_slack(&t, &s.into_slack_form()));
    let zero = program(&[1, 1], &[vec![1, 2], vec![3, 1]], &[0, 0]);
    let t = initialize_simplex(&zero).unwrap().unwrap();
    assert!(same_slack(&t, &zero.into_slack_form()));
}

#[test]
fn start_within_the_tolerance_counts_as_feasible() {
    let at = StandardForm::new(whole(&[1]), vec![whole(&[1])], vec![tolerance().neg()]).unwrap();
    assert!(starts_feasible_check(&at));
    let t = initialize_simplex(&at).unwrap().unwrap();
    assert!(same_slack(&t, &at.into_slack_form()));
    let below = tolerance().neg().sub(&q(1, 1_000_000_000_000));
    let under = StandardForm::new(whole(&[1]), vec![whole(&[1])], vec![below]).unwrap();
    assert!(!starts_feasible_check(&under));
}

#[test]
fn most_negative_bound_keeps_the_first_of_a_tie() {
    let s = program(&[1], &[vec![1], vec![1], vec![1], vec![1]], &[-1, -3, -3, 2]);
    assert_eq!(most_negative_bound(&s), 1);
    let nearly = Rational::from_int(-3).sub(&q(1, 1_000_000_000));
    let s = StandardForm::new(
        whole(&[1]),
        vec![whole(&[1]), whole(&[1])],
        vec![Rational::from_int(-3), nearly],
    )
    .unwrap();
    assert_eq!(most_negative_bound(&s), 0);
}

#[test]
fn auxiliary_variable_left_basic_is_pivoted_out() {
    // x >= 1 and x <= 1: the auxiliary variable ends basic at zero.
    let s = program(&[1], &[vec![-1], vec![1]], &[-1, 1]);
    let t = initialize_simplex(&s).unwrap().unwrap();
    assert_eq!(t.size(), 3);
    assert_eq!(t.basic().len(), 2);
    match simplex(&s) {
        Ok(LPResult::Feasible((solution, objective))) => {
            assert!(same(&solution[0], &Rational::from_int(1)));
            assert!(same(&objective, &Rational::from_int(1)));
        }
        other => panic!("{:?}", other),
    }
}

#[test]
fn objective_is_the_objective_at_the_answer() {
    let c = [1, -1, 1];
    let s = program(&c, &[vec![2, -1, 2], vec![2, -3, 1], vec![-1, 1, -2]], &[4, -5, -1]);
    match simplex(&s) {
        Ok(LPResult::Feasible((solution, objective))) => {
            let mut at = Rational::from_int(0);
            for j in 0..3 {
                at = at.add(&Rational::from_int(c[j]).mul(&solution[j]));
            }
            assert!(same(&at, &objective));
        }
        other => panic!("{:?}", other),
    }
}

#[test]
fn coefficient_within_the_tolerance_does_not_limit() {
    // The first constraint holds x to 1, but its coefficient is within the
    // tolerance, so only the second limits x.
    let tiny = q(1, 1_000_000_000);
    let s = StandardForm::new(
        whole(&[1]),
        vec![vec![tiny.clone()], whole(&[1])],
        vec![tiny, Rational::from_int(100)],
    )
    .unwrap();
    match simplex(&s) {
        Ok(LPResult::Feasible((solution, objective))) => {
            assert!(same(&solution[0], &Rational::from_int(100)));
            assert!(same(&objective, &Rational::from_int(100)));
        }
        other => panic!("{:?}", other),
    }
}
