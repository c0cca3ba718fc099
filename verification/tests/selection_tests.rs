use trache::selection::parse_selection;

#[test]
fn test_parse_selection_single() {
    assert_eq!(parse_selection("3", 5).unwrap(), vec![3]);
}

#[test]
fn test_parse_selection_range() {
    assert_eq!(parse_selection("2-4", 5).unwrap(), vec![2, 3, 4]);
}

#[test]
fn test_parse_selection_mixed() {
    assert_eq!(parse_selection("1,3-5,7", 7).unwrap(), vec![1, 3, 4, 5, 7]);
}

#[test]
fn test_parse_selection_dedup() {
    assert_eq!(parse_selection("1,1,2", 3).unwrap(), vec![1, 2]);
}

#[test]
fn test_parse_selection_out_of_range() {
    assert!(parse_selection("0", 5).is_err());
    assert!(parse_selection("6", 5).is_err());
}

#[test]
fn test_parse_selection_invalid() {
    assert!(parse_selection("abc", 5).is_err());
    assert!(parse_selection("5-3", 5).is_err());
}

#[test]
fn test_parse_selection_whitespace() {
    assert_eq!(parse_selection(" 1 , 3 - 5 ", 5).unwrap(), vec![1, 3, 4, 5]);
}

#[test]
fn test_parse_selection_unsorted_input_sorted() {
    assert_eq!(parse_selection("5,1,3", 5).unwrap(), vec![1, 3, 5]);
}

#[test]
fn test_parse_selection_overlapping_ranges() {
    assert_eq!(parse_selection("1-3,2-4", 5).unwrap(), vec![1, 2, 3, 4]);
}

#[test]
fn test_parse_selection_plus_sign() {
    // The standard library's unsigned parse accepts a leading plus.
    assert_eq!(parse_selection("+3", 5).unwrap(), vec![3]);
}

#[test]
fn test_parse_selection_stray_commas() {
    // Blank tokens are skipped; all-blank input is an empty selection.
    assert_eq!(parse_selection(",2,,4,", 5).unwrap(), vec![2, 4]);
    assert_eq!(parse_selection(" , ", 5).unwrap(), Vec::<usize>::new());
}

#[test]
fn test_parse_selection_range_whitespace_around_hyphen() {
    assert_eq!(parse_selection("2 - 3", 5).unwrap(), vec![2, 3]);
}

#[test]
fn test_parse_selection_error_messages() {
    assert_eq!(parse_selection("abc", 5).unwrap_err(), "invalid number: 'abc'");
    assert_eq!(parse_selection("5-3", 5).unwrap_err(), "invalid range: 5-3");
    assert_eq!(parse_selection("6", 5).unwrap_err(), "selection 6 out of range (1-5)");
    assert_eq!(parse_selection("0", 5).unwrap_err(), "selection 0 out of range (1-5)");
    assert_eq!(parse_selection("4-9", 5).unwrap_err(), "selection 6 out of range (1-5)");
}

#[test]
fn test_parse_selection_overflow_rejected() {
    assert!(parse_selection("99999999999999999999999999", 5).is_err());
}

#[test]
fn test_parse_selection_double_hyphen() {
    // A range splits at the first hyphen; the right side must be a number.
    assert!(parse_selection("1-2-3", 5).is_err());
    assert!(parse_selection("-3", 5).is_err());
}
