use btwn::{parse_range, FilterError, Interval};

#[test]
fn it_parses_inclusive_ranges_correctly() {
    let range: &str = "1...5";

    let iv = parse_range(range).unwrap();

    assert_eq!(iv.start, 0);
    assert_eq!(iv.end, 5);
}

#[test]
fn it_parses_exclusive_ranges_correctly() {
    let range: &str = "1..5";

    let iv = parse_range(range).unwrap();

    assert_eq!(iv.start, 0);
    assert_eq!(iv.end, 4);
}

fn iv(start: usize, end: usize) -> Interval {
    Interval { start, end }
}

#[test]
fn single_value_selects_one_line() {
    assert_eq!(parse_range("3"), Ok(iv(2, 3)));
    assert_eq!(parse_range("1"), Ok(iv(0, 1)));
    assert_eq!(parse_range("42"), Ok(iv(41, 42)));
}

#[test]
fn bounded_forms_normalise() {
    assert_eq!(parse_range("2..6"), Ok(iv(1, 5)));
    assert_eq!(parse_range("2...6"), Ok(iv(1, 6)));
}

#[test]
fn open_bounds() {
    assert_eq!(parse_range("3.."), Ok(iv(2, usize::MAX)));
    assert_eq!(parse_range("3..."), Ok(iv(2, usize::MAX)));
    assert_eq!(parse_range("..4"), Ok(iv(0, 3)));
    assert_eq!(parse_range("...4"), Ok(iv(0, 4)));
    assert_eq!(parse_range(".."), Ok(iv(0, usize::MAX)));
    assert_eq!(parse_range("..."), Ok(iv(0, usize::MAX)));
    assert_eq!(parse_range(""), Ok(iv(0, usize::MAX)));
}

#[test]
fn zero_bounds_saturate() {
    assert_eq!(parse_range("0"), Ok(iv(0, 0)));
    assert_eq!(parse_range("0...3"), Ok(iv(0, 3)));
    assert_eq!(parse_range("..0"), Ok(iv(0, 0)));
}

#[test]
fn exclusive_matches_inclusive_one_below() {
    assert_eq!(parse_range("2..6"), parse_range("2...5"));
    assert_eq!(parse_range("7..8"), parse_range("7...7"));
    assert_eq!(parse_range("0..10"), parse_range("0...9"));
}

#[test]
fn malformed_expressions_are_refused() {
    assert_eq!(parse_range("abc"), Err(FilterError::InvalidRangeSyntax));
    assert_eq!(parse_range("5...2"), Err(FilterError::InvalidRangeSyntax));
    assert_eq!(parse_range("2.6"), Err(FilterError::InvalidRangeSyntax));
}

#[test]
fn other_malformed_expressions_are_refused() {
    assert_eq!(parse_range("5..3"), Err(FilterError::InvalidRangeSyntax));
    assert_eq!(parse_range(" 3"), Err(FilterError::InvalidRangeSyntax));
    assert_eq!(parse_range("3 "), Err(FilterError::InvalidRangeSyntax));
    assert_eq!(parse_range("+3"), Err(FilterError::InvalidRangeSyntax));
    assert_eq!(parse_range("-3"), Err(FilterError::InvalidRangeSyntax));
    assert_eq!(parse_range("1...2...3"), Err(FilterError::InvalidRangeSyntax));
    assert_eq!(parse_range("1..2..3"), Err(FilterError::InvalidRangeSyntax));
    assert_eq!(parse_range("1....3"), Err(FilterError::InvalidRangeSyntax));
    assert_eq!(parse_range("a..3"), Err(FilterError::InvalidRangeSyntax));
    assert_eq!(parse_range("3..b"), Err(FilterError::InvalidRangeSyntax));
}

#[test]
fn largest_numbers() {
    assert_eq!(
        parse_range("18446744073709551615"),
        Ok(iv(usize::MAX - 1, usize::MAX))
    );
    assert_eq!(
        parse_range("18446744073709551616"),
        Err(FilterError::InvalidRangeSyntax)
    );
    assert_eq!(
        parse_range("1...99999999999999999999"),
        Err(FilterError::InvalidRangeSyntax)
    );
}

#[test]
fn contains_is_half_open() {
    let i = iv(1, 3);
    assert!(!i.contains(0));
    assert!(i.contains(1));
    assert!(i.contains(2));
    assert!(!i.contains(3));
}
