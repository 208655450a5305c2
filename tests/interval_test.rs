use rap_interval::range::{Range, RangeType};

#[test]
fn test_range_creation() {
    let range = Range::new(1, 10, RangeType::Regular);
    assert_eq!(range.get_lower(), 1);
    assert_eq!(range.get_upper(), 10);
    assert_eq!(range.rtype, RangeType::Regular);
}

#[test]
fn test_set_lower() {
    let mut range = Range::new(1, 10, RangeType::Regular);
    range.set_lower(5);
    assert_eq!(range.get_lower(), 5);
}

#[test]
fn test_set_upper() {
    let mut range = Range::new(1, 10, RangeType::Regular);
    range.set_upper(15);
    assert_eq!(range.get_upper(), 15);
}

#[test]
fn test_is_unknown() {
    let range = Range::new(1, 10, RangeType::Unknown);
    assert!(range.is_unknown());
}

#[test]
fn test_set_unknown() {
    let mut range = Range::new(1, 10, RangeType::Regular);
    range.set_unknown();
    assert!(range.is_unknown());
}

#[test]
fn test_is_regular() {
    let range = Range::new(1, 10, RangeType::Regular);
    assert!(range.is_regular());
}

#[test]
fn test_set_regular() {
    let mut range = Range::new(1, 10, RangeType::Empty);
    range.set_regular();
    assert!(range.is_regular());
}

#[test]
fn test_is_empty() {
    let range = Range::new(1, 10, RangeType::Empty);
    assert!(range.is_empty());
}

#[test]
fn test_set_empty() {
    let mut range = Range::new(1, 10, RangeType::Regular);
    range.set_empty();
    assert!(range.is_empty());
}

#[test]
fn test_edge_case_max_range() {
    let range = Range::new(i64::MIN, i64::MAX, RangeType::Regular);
    assert_eq!(range.get_lower(), i64::MIN);
    assert_eq!(range.get_upper(), i64::MAX);
}
