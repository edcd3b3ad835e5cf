use simplex::{ConfigError, Rational, StandardForm};

fn whole(xs: &[i64]) -> Vec<Rational> {
    xs.iter().map(|&x| Rational::from_int(x)).collect()
}

#[test]
fn row_of_wrong_length_is_refused() {
    let r = StandardForm::new(whole(&[1, 2]), vec![whole(&[1, 2]), whole(&[1])], whole(&[3, 4]));
    assert_eq!(r.err(), Some(ConfigError::RowLength));
    let r = StandardForm::new(whole(&[1, 2]), vec![whole(&[1, 2, 3])], whole(&[3]));
    assert_eq!(r.err(), Some(ConfigError::RowLength));
}

#[test]
fn wrong_number_of_rows_is_refused() {
    let r = StandardForm::new(whole(&[1, 2]), vec![whole(&[1, 2])], whole(&[3, 4]));
    assert_eq!(r.err(), Some(ConfigError::ConstraintCount));
    let r = StandardForm::new(whole(&[1]), vec![whole(&[1]), whole(&[2])], whole(&[3]));
    assert_eq!(r.err(), Some(ConfigError::ConstraintCount));
    // The row count is looked at before the rows.
    let r = StandardForm::new(whole(&[1]), vec![whole(&[1, 2]), whole(&[2])], whole(&[3]));
    assert_eq!(r.err(), Some(ConfigError::ConstraintCount));
}

#[test]
fn fitting_dimensions_are_accepted() {
    let s = StandardForm::new(whole(&[1, 2]), vec![whole(&[1, 2]), whole(&[3, 4])], whole(&[5, 6]))
        .unwrap();
    assert_eq!(s.dimensions(), 2);
    assert_eq!(s.num_constraints(), 2);
    assert_eq!(s.objective(1).parts(), Rational::from_int(2).parts());
    assert_eq!(s.coefficient(1, 0).parts(), Rational::from_int(3).parts());
    assert_eq!(s.bound(0).parts(), Rational::from_int(5).parts());
    let empty = StandardForm::new(vec![], vec![], vec![]).unwrap();
    assert_eq!(empty.dimensions(), 0);
    assert_eq!(empty.num_constraints(), 0);
}
