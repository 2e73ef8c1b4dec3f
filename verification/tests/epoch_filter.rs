use eval_search::filter::{EpochSpecError, IntFilter};
use eval_search::text::{char_is_space, chars_of, parse_unsigned, str_equal};

fn accepted(spec: &str, upto: u32) -> Vec<u32> {
    let filter = IntFilter::from_str(spec).unwrap();
    (0..=upto).filter(|e| filter.filter(e)).collect()
}

#[test]
fn all_accepts_every_epoch() {
    let filter = IntFilter::from_str("all").unwrap();
    assert!(matches!(filter, IntFilter::All));
    for epoch in [0, 1, 2, 1000, u32::MAX] {
        assert!(filter.filter(&epoch));
    }
}

#[test]
fn range_accepts_both_ends_and_what_lies_between() {
    assert_eq!(accepted("2-5", 10), vec![2, 3, 4, 5]);
    let filter = IntFilter::from_str("2-5").unwrap();
    assert!(!filter.filter(&1));
    assert!(!filter.filter(&6));
    assert!(matches!(filter, IntFilter::Range(2, 5)));
}

#[test]
fn range_of_one_epoch() {
    assert_eq!(accepted("2-2", 10), vec![2]);
}

#[test]
fn range_with_ends_crossed_accepts_nothing() {
    assert_eq!(accepted("5-2", 10), Vec::<u32>::new());
}

#[test]
fn list_accepts_its_members_only() {
    assert_eq!(accepted("1,3,7", 10), vec![1, 3, 7]);
    assert_eq!(accepted("7", 10), vec![7]);
    assert_eq!(accepted("3,3,3", 10), vec![3]);
}

#[test]
fn list_items_may_have_space_around_them() {
    assert_eq!(accepted(" 1 ,\t3,7\n", 10), vec![1, 3, 7]);
    assert_eq!(accepted("\u{a0}4\u{3000}", 10), vec![4]);
}

#[test]
fn plus_sign_is_accepted() {
    assert_eq!(accepted("+4", 10), vec![4]);
    assert_eq!(accepted("+2-+3", 10), vec![2, 3]);
}

#[test]
fn largest_number_fits() {
    let filter = IntFilter::from_str("4294967295").unwrap();
    assert!(filter.filter(&u32::MAX));
    assert!(!filter.filter(&0));
    let range = IntFilter::from_str("0-4294967295").unwrap();
    assert!(range.filter(&u32::MAX) && range.filter(&0));
}

fn error_of(spec: &str) -> EpochSpecError {
    IntFilter::from_str(spec).unwrap_err()
}

#[test]
fn malformed_range_is_refused() {
    for spec in ["1-2-3", "3-", "-3", "-", "a-b", "1 - 2", " 1-2", "1-2 ", "1-4294967296", "1--2", "all-1"] {
        assert_eq!(error_of(spec), EpochSpecError::InvalidRange, "{:?}", spec);
    }
}

#[test]
fn malformed_list_is_refused() {
    for spec in ["", "a", "1,,2", "1,2,", ",1", "1;2", "1.5", "4294967296", "1 2", "ALL", "all ", "+", "1,+", "0x10"] {
        assert_eq!(error_of(spec), EpochSpecError::InvalidList, "{:?}", spec);
    }
}

#[test]
fn white_space_is_what_the_standard_library_calls_so() {
    let mut c = 0u32;
    while c <= 0x10ffff {
        if let Some(ch) = char::from_u32(c) {
            assert_eq!(char_is_space(ch), ch.is_whitespace(), "U+{:04X}", c);
        }
        c += 1;
    }
}

#[test]
fn unsigned_numbers_are_read_as_the_standard_library_reads_them() {
    for text in [
        "", "0", "7", "007", "+7", "-7", "+", "-", "++7", "+-7", "7+", " 7", "7 ", "1_000", "4294967295",
        "4294967296", "04294967295", "99999999999999999999", "１２", "٣", "1e3", "0x1f", "12a", "a12",
    ] {
        assert_eq!(parse_unsigned(text), text.parse::<u32>().ok(), "{:?}", text);
    }
}

#[test]
fn text_is_taken_character_by_character() {
    assert_eq!(chars_of("aé😀"), vec!['a', 'é', '😀']);
    assert_eq!(chars_of(""), Vec::<char>::new());
    assert!(str_equal("é", "é"));
    assert!(str_equal("", ""));
    assert!(!str_equal("ab", "abc"));
    assert!(!str_equal("abc", "abd"));
}
