use std::collections::HashSet;

use approx::Relative;
use simplex::{
    initialize_simplex, simplex, simplex_bounded, LPResult, Rational, SolveError, StandardForm,
};

const EPS: f64 = 1e-8;

/// The rational number that `x` is, exactly.
fn exact(x: f64) -> Rational {
    assert!(x.is_finite());
    let bits = x.to_bits();
    let exponent = ((bits >> 52) & 0x7ff) as i64;
    let fraction = (bits & ((1u64 << 52) - 1)) as i64;
    let (mantissa, power) = if exponent == 0 {
        (fraction, -1074)
    } else {
        (fraction | (1i64 << 52), exponent - 1075)
    };
    let mut r = Rational::from_int(if bits >> 63 == 1 { -mantissa } else { mantissa });
    let two = Rational::from_int(2);
    for _ in 0..power.abs() {
        r = if power > 0 { r.mul(&two) } else { r.div(&two) };
    }
    r
}

/// The float nearest to `r`, for numbers whose parts a float holds.
fn approximate(r: &Rational) -> f64 {
    let (negative, numerator, denominator) = r.parts();
    let float_of = |digits: &Vec<u32>| {
        digits.iter().rev().fold(0.0, |acc, &d| acc * 4294967296.0 + d as f64)
    };
    let magnitude = float_of(&numerator) / float_of(&denominator);
    if negative {
        -magnitude
    } else {
        magnitude
    }
}

fn vector(xs: &[f64]) -> Vec<Rational> {
    xs.iter().map(|&x| exact(x)).collect()
}

fn matrix(rows: &[Vec<f64>]) -> Vec<Vec<Rational>> {
    rows.iter().map(|row| vector(row)).collect()
}

fn floats(xs: &[Rational]) -> Vec<f64> {
    xs.iter().map(approximate).collect()
}

fn standard(c: Vec<f64>, a: Vec<Vec<f64>>, b: Vec<f64>) -> StandardForm {
    StandardForm::new(vector(&c), matrix(&a), vector(&b)).unwrap()
}

#[test]
fn test_feasible() {
    let c = vec![3.0, 1.0, 2.0];
    let a = vec![
        vec![1.0, 1.0, 3.0],
        vec![2.0, 2.0, 5.0],
        vec![4.0, 1.0, 2.0],
    ];
    let b = vec![30.0, 24.0, 36.0];
    let standard_form = standard(c, a, b);

    match simplex(&standard_form).unwrap() {
        LPResult::Feasible((solution, optimal)) => {
            assert!(Relative::default().eq(&floats(&solution)[..], &[8.0, 4.0, 0.0][..]));
            assert!(Relative::default().eq(&approximate(&optimal), &28.0));
        }
        _ => unreachable!(),
    };

    let c = vec![10.0, 1.0];
    let b = vec![1.0, 100.0];
    let a = vec![vec![1.0, 0.0], vec![20.0, 1.0]];
    let standard_form = standard(c, a, b);
    match simplex(&standard_form).unwrap() {
        LPResult::Feasible((solution, optimal)) => {
            assert!(Relative::default().eq(&floats(&solution)[..], &[0.0, 100.0][..]));
            assert!(Relative::default().eq(&approximate(&optimal), &100.0));
        }
        _ => unreachable!(),
    };

    let c = vec![-2.0, -3.0, -1.0];
    let b = vec![-8.0, -6.0];
    let a = vec![vec![-1.0, -4.0, -2.0], vec![-3.0, -2.0, 0.0]];
    let standard_form = standard(c, a, b);
    match simplex(&standard_form).unwrap() {
        LPResult::Feasible((solution, optimal)) => {
            assert!(Relative::default().eq(&floats(&solution)[..], &[0.8, 1.8, 0.0][..]));
            assert!(Relative::default().eq(&approximate(&optimal), &-7.0));
        }
        _ => unreachable!(),
    };

    let c = vec![1.0, -1.0, 1.0];
    let b = vec![4.0, -5.0, -1.0];
    let a = vec![
        vec![2.0, -1.0, 2.0],
        vec![2.0, -3.0, 1.0],
        vec![-1.0, 1.0, -2.0],
    ];
    let standard_form = standard(c, a, b);
    match simplex(&standard_form).unwrap() {
        LPResult::Feasible((solution, optimal)) => {
            assert!(Relative::default().eq(&floats(&solution)[..], &[0.0, 2.8, 3.4][..]));
            assert!(Relative::default().epsilon(EPS).eq(&approximate(&optimal), &0.6));
        }
        _ => unreachable!(),
    };
}

#[test]
fn test_unbounded() {
    let c = vec![1.0, 3.0, -1.0];
    let b = vec![10.0, 10.0, 10.0];
    let a = vec![
        vec![2.0, 2.0, -1.0],
        vec![3.0, -2.0, 1.0],
        vec![1.0, -3.0, 1.0],
    ];

    let standard_form = standard(c, a, b);
    match simplex(&standard_form).unwrap() {
        LPResult::Unbounded => (),
        _ => unreachable!(),
    };
}

#[test]
fn test_infeasible() {
    let c = vec![3.0, 1.0];
    let b = vec![-1.0, -3.0, 2.0];
    let a = vec![vec![1.0, -1.0], vec![-1.0, -1.0], vec![2.0, 1.0]];

    let standard_form = standard(c, a, b);
    match simplex(&standard_form).unwrap() {
        LPResult::Infeasible => (),
        _ => unreachable!(),
    };
}

#[test]
fn test_initialize_simplex() {
    let c = vec![2.0, -1.0];
    let a = vec![vec![2.0, -1.0], vec![1.0, -5.0]];
    let b = vec![2.0, -4.0];
    let standard_form = standard(c, a, b);
    let slack = initialize_simplex(&standard_form).unwrap().unwrap();

    let mut nonbasic = HashSet::new();
    nonbasic.insert(0);
    nonbasic.insert(3);
    assert_eq!(slack.nonbasic().into_iter().collect::<HashSet<usize>>(), nonbasic);

    let mut basic = HashSet::new();
    basic.insert(1);
    basic.insert(2);
    assert_eq!(slack.basic().into_iter().collect::<HashSet<usize>>(), basic);

    assert!(Relative::default().eq(&approximate(slack.v()), &-0.8));

    let c_expect = vec![1.8, 0.0, 0.0, -0.2];
    for &j in nonbasic.iter() {
        assert!(Relative::default().eq(&approximate(slack.c(j)), &c_expect[j]));
    }

    let b_expect = vec![0.0, 0.8, 2.8, 0.0];
    for &i in basic.iter() {
        assert!(Relative::default().eq(&approximate(slack.b(i)), &b_expect[i]));
    }

    let a_expect = vec![
        vec![0.0, 0.0, 0.0, 0.0],
        vec![-0.2, 0.0, 0.0, -0.2],
        vec![1.8, 0.0, 0.0, -0.2],
        vec![0.0, 0.0, 0.0, 0.0],
    ];
    for &i in basic.iter() {
        for &j in nonbasic.iter() {
            assert!(Relative::default().eq(&approximate(slack.a(i, j)), &a_expect[i][j]));
        }
    }
}

#[test]
fn known_program_with_three_constraints() {
    let s = standard(
        vec![3.0, 1.0, 2.0],
        vec![vec![1.0, 1.0, 3.0], vec![2.0, 2.0, 5.0], vec![4.0, 1.0, 2.0]],
        vec![30.0, 24.0, 36.0],
    );
    match simplex(&s) {
        Ok(LPResult::Feasible((solution, objective))) => {
            assert_eq!(floats(&solution), vec![8.0, 4.0, 0.0]);
            assert_eq!(approximate(&objective), 28.0);
        }
        other => panic!("{:?}", other),
    }
}

#[test]
fn known_program_with_two_constraints() {
    let s = standard(vec![10.0, 1.0], vec![vec![1.0, 0.0], vec![20.0, 1.0]], vec![1.0, 100.0]);
    match simplex(&s) {
        Ok(LPResult::Feasible((solution, objective))) => {
            assert_eq!(floats(&solution), vec![0.0, 100.0]);
            assert_eq!(approximate(&objective), 100.0);
        }
        other => panic!("{:?}", other),
    }
}

#[test]
fn known_program_that_needs_the_first_phase() {
    let s = standard(
        vec![1.0, -1.0, 1.0],
        vec![vec![2.0, -1.0, 2.0], vec![2.0, -3.0, 1.0], vec![-1.0, 1.0, -2.0]],
        vec![4.0, -5.0, -1.0],
    );
    match simplex(&s) {
        Ok(LPResult::Feasible((solution, objective))) => {
            assert_eq!(solution[0].parts(), Rational::from_int(0).parts());
            assert_eq!(solution[1].parts(), Rational::from_fraction(14, 5).unwrap().parts());
            assert_eq!(solution[2].parts(), Rational::from_fraction(17, 5).unwrap().parts());
            assert_eq!(objective.parts(), Rational::from_fraction(3, 5).unwrap().parts());
        }
        other => panic!("{:?}", other),
    }
}

#[test]
fn known_unbounded_program() {
    let s = standard(
        vec![1.0, 3.0, -1.0],
        vec![vec![2.0, 2.0, -1.0], vec![3.0, -2.0, 1.0], vec![1.0, -3.0, 1.0]],
        vec![10.0, 10.0, 10.0],
    );
    assert!(matches!(simplex(&s), Ok(LPResult::Unbounded)));
}

#[test]
fn known_infeasible_program() {
    let s = standard(
        vec![3.0, 1.0],
        vec![vec![1.0, -1.0], vec![-1.0, -1.0], vec![2.0, 1.0]],
        vec![-1.0, -3.0, 2.0],
    );
    assert!(matches!(simplex(&s), Ok(LPResult::Infeasible)));
}

#[test]
fn program_without_constraints() {
    let rising = standard(vec![1.0], vec![], vec![]);
    assert!(matches!(simplex(&rising), Ok(LPResult::Unbounded)));
    let falling = standard(vec![-1.0], vec![], vec![]);
    match simplex(&falling) {
        Ok(LPResult::Feasible((solution, objective))) => {
            assert_eq!(floats(&solution), vec![0.0]);
            assert_eq!(approximate(&objective), 0.0);
        }
        other => panic!("{:?}", other),
    }
}

#[test]
fn pivot_limit_is_reported() {
    let s = standard(
        vec![3.0, 1.0, 2.0],
        vec![vec![1.0, 1.0, 3.0], vec![2.0, 2.0, 5.0], vec![4.0, 1.0, 2.0]],
        vec![30.0, 24.0, 36.0],
    );
    assert!(matches!(simplex_bounded(&s, 0), Err(SolveError::PivotLimit)));
    assert!(matches!(simplex_bounded(&s, 1), Err(SolveError::PivotLimit)));
    assert!(matches!(simplex_bounded(&s, 2), Ok(LPResult::Feasible(_))));
}

#[test]
fn degenerate_program_ends_within_few_pivots() {
    // Three of the ratios of the first pivot are tied at zero.
    let s = standard(
        vec![10.0, -57.0, -9.0, -24.0],
        vec![
            vec![0.5, -5.5, -2.5, 9.0],
            vec![0.5, -1.5, -0.5, 1.0],
            vec![1.0, 0.0, 0.0, 0.0],
        ],
        vec![0.0, 0.0, 1.0],
    );
    match simplex_bounded(&s, 20) {
        Ok(LPResult::Feasible((solution, objective))) => {
            assert_eq!(floats(&solution), vec![1.0, 0.0, 1.0, 0.0]);
            assert_eq!(approximate(&objective), 1.0);
        }
        other => panic!("{:?}", other),
    }
}

#[test]
fn answer_meets_the_constraints() {
    let c = vec![1.0, -1.0, 1.0];
    let a = vec![vec![2.0, -1.0, 2.0], vec![2.0, -3.0, 1.0], vec![-1.0, 1.0, -2.0]];
    let b = vec![4.0, -5.0, -1.0];
    let s = standard(c, a.clone(), b.clone());
    match simplex(&s) {
        Ok(LPResult::Feasible((solution, _))) => {
            let x = floats(&solution);
            for j in 0..x.len() {
                assert!(x[j] >= -EPS);
            }
            for i in 0..a.len() {
                let lhs: f64 = (0..x.len()).map(|j| a[i][j] * x[j]).sum();
                assert!(lhs <= b[i] + EPS);
            }
        }
        other => panic!("{:?}", other),
    }
}

#[test]
fn no_feasible_point_is_better_than_the_answer() {
    let c = [3.0, 1.0, 2.0];
    let a = [[1.0, 1.0, 3.0], [2.0, 2.0, 5.0], [4.0, 1.0, 2.0]];
    let b = [30.0, 24.0, 36.0];
    let s = standard(c.to_vec(), a.iter().map(|row| row.to_vec()).collect(), b.to_vec());
    let best = match simplex(&s) {
        Ok(LPResult::Feasible((_, objective))) => approximate(&objective),
        other => panic!("{:?}", other),
    };
    let mut feasible_points = 0;
    for x0 in 0..10 {
        for x1 in 0..13 {
            for x2 in 0..6 {
                let x = [x0 as f64, x1 as f64, x2 as f64];
                let meets = (0..3).all(|i| (0..3).map(|j| a[i][j] * x[j]).sum::<f64>() <= b[i]);
                if meets {
                    feasible_points += 1;
                    let at: f64 = (0..3).map(|j| c[j] * x[j]).sum();
                    assert!(at <= best + EPS);
                }
            }
        }
    }
    assert!(feasible_points > 100);
}

#[test]
fn coefficient_within_the_tolerance_does_not_bound() {
    // x is at most a thousand million, but its only coefficient is within
    // the tolerance.
    let tiny = Rational::from_fraction(1, 1_000_000_000).unwrap();
    let s = StandardForm::new(
        vec![Rational::from_int(1)],
        vec![vec![tiny]],
        vec![Rational::from_int(1)],
    )
    .unwrap();
    assert!(matches!(simplex(&s), Ok(LPResult::Unbounded)));
}
