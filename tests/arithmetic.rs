use rap_interval::range::{ArithOp, Range, RangeType, UnaryKind, DOMAIN_MAX, DOMAIN_MIN};

fn reg(lo: i64, hi: i64) -> Range {
    Range::new(lo, hi, RangeType::Regular)
}

#[test]
fn add_takes_endpoint_sums() {
    assert_eq!(reg(1, 5).binary(ArithOp::Add, &reg(10, 20)), reg(11, 25));
}

#[test]
fn sub_crosses_endpoints() {
    assert_eq!(reg(1, 5).binary(ArithOp::Sub, &reg(10, 20)), reg(-19, -5));
}

#[test]
fn mul_takes_min_and_max_of_products() {
    assert_eq!(reg(-2, 3).binary(ArithOp::Mul, &reg(4, 5)), reg(-10, 15));
}

#[test]
fn div_truncates_toward_zero() {
    assert_eq!(reg(-7, 7).binary(ArithOp::Div, &reg(2, 2)), reg(-3, 3));
}

#[test]
fn rem_follows_the_dividend() {
    assert_eq!(reg(-7, -7).binary(ArithOp::Rem, &reg(2, 2)), reg(-1, -1));
}

#[test]
fn div_by_range_with_zero_is_full() {
    assert_eq!(reg(1, 5).binary(ArithOp::Div, &reg(-1, 1)), Range::full());
    assert_eq!(reg(1, 5).binary(ArithOp::Rem, &reg(0, 0)), Range::full());
}

#[test]
fn add_saturates_at_max() {
    assert_eq!(reg(DOMAIN_MAX, DOMAIN_MAX).binary(ArithOp::Add, &reg(1, 1)), reg(DOMAIN_MAX, DOMAIN_MAX));
}

#[test]
fn mul_saturates_at_both_ends() {
    assert_eq!(
        reg(DOMAIN_MIN, DOMAIN_MAX).binary(ArithOp::Mul, &reg(2, 2)),
        reg(DOMAIN_MIN, DOMAIN_MAX)
    );
}

#[test]
fn empty_absorbs() {
    assert!(Range::empty().binary(ArithOp::Add, &reg(1, 2)).is_empty());
    assert!(reg(1, 2).binary(ArithOp::Mul, &Range::empty()).is_empty());
}

#[test]
fn unknown_is_forced_to_full() {
    let r = Range::unknown().binary(ArithOp::Add, &reg(0, 0));
    assert_eq!(r, Range::full());
}

#[test]
fn neg_saturates() {
    assert_eq!(reg(DOMAIN_MIN, 3).unary(UnaryKind::Neg), reg(-3, DOMAIN_MAX));
    assert_eq!(reg(0, 3).unary(UnaryKind::Not), reg(-4, -1));
}

#[test]
fn intersect_and_union() {
    assert_eq!(reg(1, 5).intersect(&reg(4, 7)), reg(4, 5));
    assert!(reg(1, 2).intersect(&reg(4, 7)).is_empty());
    assert_eq!(reg(1, 5).union(&reg(4, 7)), reg(1, 7));
    assert_eq!(Range::unknown().union(&reg(4, 7)), reg(4, 7));
}

#[test]
fn generic_containers() {
    let g = rap_interval::generics::GenericStruct::new("Hello");
    assert_eq!(g.field, "Hello");
    let c = rap_interval::generics::ConstGenericStruct { array: [1, 2, 3, 4] };
    assert_eq!(c.len(), 4);
}
