use simplex::Rational;

fn q(n: i64, d: u64) -> Rational {
    Rational::from_fraction(n, d).unwrap()
}

fn same(a: &Rational, b: &Rational) -> bool {
    !a.lt(b) && !b.lt(a)
}

#[test]
fn fraction_with_zero_denominator_is_none() {
    assert!(Rational::from_fraction(1, 0).is_none());
    assert!(Rational::from_fraction(0, 0).is_none());
    assert!(Rational::from_fraction(0, 1).is_some());
}

#[test]
fn fractions_come_in_lowest_terms() {
    assert_eq!(q(2, 4).parts(), (false, vec![1], vec![2]));
    assert_eq!(q(-6, 4).parts(), (true, vec![3], vec![2]));
    assert_eq!(q(5, 1).parts(), Rational::from_int(5).parts());
}

#[test]
fn whole_numbers_at_the_ends_of_the_range() {
    let (negative, numerator, denominator) = Rational::from_int(i64::MIN).parts();
    assert!(negative);
    assert_eq!(numerator, vec![0, 0x8000_0000]);
    assert_eq!(denominator, vec![1]);
    let (negative, numerator, _) = Rational::from_int(i64::MAX).parts();
    assert!(!negative);
    assert_eq!(numerator, vec![0xffff_ffff, 0x7fff_ffff]);
    let (_, numerator, denominator) = Rational::from_fraction(1, u64::MAX).unwrap().parts();
    assert_eq!(numerator, vec![1]);
    assert_eq!(denominator, vec![0xffff_ffff, 0xffff_ffff]);
}

#[test]
fn sums() {
    assert!(same(&q(1, 2).add(&q(1, 3)), &q(5, 6)));
    assert!(same(&q(1, 2).add(&q(-1, 3)), &q(1, 6)));
    assert!(same(&q(-1, 2).add(&q(1, 3)), &q(-1, 6)));
    assert!(same(&q(-1, 2).add(&q(-1, 3)), &q(-5, 6)));
    assert!(same(&q(1, 2).add(&q(-1, 2)), &q(0, 1)));
    assert_eq!(q(1, 2).add(&q(1, 3)).parts(), (false, vec![5], vec![6]));
}

#[test]
fn differences() {
    assert!(same(&q(1, 2).sub(&q(1, 3)), &q(1, 6)));
    assert!(same(&q(1, 3).sub(&q(1, 2)), &q(-1, 6)));
    assert!(same(&q(-1, 3).sub(&q(1, 2)), &q(-5, 6)));
    assert_eq!(q(3, 4).sub(&q(1, 4)).parts(), (false, vec![1], vec![2]));
}

#[test]
fn products_and_quotients() {
    assert!(same(&q(2, 3).mul(&q(-3, 4)), &q(-1, 2)));
    assert!(same(&q(-2, 3).mul(&q(-3, 4)), &q(1, 2)));
    assert!(same(&q(2, 3).div(&q(-4, 3)), &q(-1, 2)));
    assert!(same(&q(7, 1).div(&q(7, 2)), &q(2, 1)));
    assert_eq!(q(2, 3).mul(&q(3, 4)).parts(), (false, vec![1], vec![2]));
    assert_eq!(q(1, 3).div(&q(2, 3)).parts(), (false, vec![1], vec![2]));
}

#[test]
fn products_beyond_sixty_four_bits() {
    let big = Rational::from_int(i64::MAX);
    let square = big.mul(&big);
    let (negative, numerator, denominator) = square.parts();
    assert!(!negative);
    assert_eq!(numerator, vec![1, 0, 0xffff_ffff, 0x3fff_ffff]);
    assert_eq!(denominator, vec![1]);
    assert!(same(&square.div(&big), &big));
}

#[test]
fn negation_and_absolute_value() {
    assert!(same(&q(1, 2).neg(), &q(-1, 2)));
    assert!(same(&q(-1, 2).neg(), &q(1, 2)));
    assert!(same(&q(0, 1).neg(), &q(0, 1)));
    assert!(same(&q(-1, 2).abs(), &q(1, 2)));
    assert!(same(&q(1, 2).abs(), &q(1, 2)));
}

#[test]
fn order() {
    assert!(q(1, 3).lt(&q(1, 2)));
    assert!(!q(1, 2).lt(&q(1, 3)));
    assert!(!q(1, 2).lt(&q(2, 4)));
    assert!(q(-1, 2).lt(&q(1, 3)));
    assert!(!q(1, 3).lt(&q(-1, 2)));
    assert!(q(-1, 2).lt(&q(-1, 3)));
    assert!(!q(-1, 3).lt(&q(-1, 2)));
    assert!(!q(0, 1).neg().lt(&q(0, 1)));
    assert!(q(0, 1).neg().lt(&q(1, 9)));
    assert!(q(1, 2).gt(&q(1, 3)));
    assert!(q(1, 2).le(&q(1, 2)));
    assert!(q(1, 2).ge(&q(1, 2)));
    assert!(!q(1, 3).ge(&q(1, 2)));
}

#[test]
fn copies_are_equal() {
    let a = q(-7, 9);
    assert_eq!(a.clone().parts(), a.parts());
}
