use axi_shadow::range::{parse_range, RangeError};

#[test]
fn empty_input_means_no_bounds() {
    assert_eq!(parse_range(""), Ok((0, 0)));
}

#[test]
fn single_number_is_the_start() {
    assert_eq!(parse_range("100"), Ok((100, 0)));
    assert_eq!(parse_range("0"), Ok((0, 0)));
}

#[test]
fn two_numbers_are_start_and_end() {
    assert_eq!(parse_range("5,10"), Ok((5, 10)));
    assert_eq!(parse_range("7,7"), Ok((7, 7)));
}

#[test]
fn empty_start_means_zero() {
    assert_eq!(parse_range(",7"), Ok((0, 7)));
}

#[test]
fn start_after_end_is_rejected() {
    assert_eq!(parse_range("9,1"), Err(RangeError::StartAfterEnd));
}

#[test]
fn non_numeric_part_is_rejected() {
    assert_eq!(parse_range("abc"), Err(RangeError::InvalidNumber));
    assert_eq!(parse_range("5,x"), Err(RangeError::InvalidNumber));
    assert_eq!(parse_range("x,5"), Err(RangeError::InvalidNumber));
    assert_eq!(parse_range("5,"), Err(RangeError::InvalidNumber));
    assert_eq!(parse_range(","), Err(RangeError::InvalidNumber));
}

#[test]
fn too_many_parts_are_ignored() {
    assert_eq!(parse_range("1,2,3"), Ok((0, 0)));
}

#[test]
fn sixty_four_bit_bounds() {
    assert_eq!(parse_range("18446744073709551615"), Ok((u64::MAX, 0)));
    assert_eq!(parse_range("18446744073709551616"), Err(RangeError::InvalidNumber));
}
