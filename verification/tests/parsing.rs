use mlp_trainer::parsing::{parse_line, parse_line_u64, parse_u64};

#[test]
fn split_basic() {
    assert_eq!(parse_line("1,2,3", ','), vec!["1", "2", "3"]);
}

#[test]
fn split_keeps_fields_as_they_stand() {
    assert_eq!(parse_line("1.5,+1,-2,1e3,x", ','), vec!["1.5", "+1", "-2", "1e3", "x"]);
}

#[test]
fn split_no_separator() {
    assert_eq!(parse_line("42", ','), vec!["42"]);
}

#[test]
fn split_empty_string_is_one_empty_field() {
    assert_eq!(parse_line("", ','), vec![""]);
}

#[test]
fn split_empty_fields_kept() {
    assert_eq!(parse_line("1,,2", ','), vec!["1", "", "2"]);
    assert_eq!(parse_line(",1,", ','), vec!["", "1", ""]);
}

#[test]
fn split_other_separator() {
    assert_eq!(parse_line("3 1 4", ' '), vec!["3", "1", "4"]);
    assert_eq!(parse_line("3,1", ' '), vec!["3,1"]);
}

#[test]
fn numeral_basic() {
    assert_eq!(parse_u64("42"), Some(42));
    assert_eq!(parse_u64("0"), Some(0));
    assert_eq!(parse_u64("007"), Some(7));
}

#[test]
fn numeral_rejects_non_digits() {
    assert_eq!(parse_u64(""), None);
    assert_eq!(parse_u64("1.5"), None);
    assert_eq!(parse_u64("+1"), None);
    assert_eq!(parse_u64("-1"), None);
    assert_eq!(parse_u64(" 1"), None);
    assert_eq!(parse_u64("1e3"), None);
}

#[test]
fn numeral_bounds() {
    assert_eq!(parse_u64("18446744073709551615"), Some(u64::MAX));
    assert_eq!(parse_u64("18446744073709551616"), None);
    assert_eq!(parse_u64("99999999999999999999999"), None);
}

#[test]
fn numeric_line_basic() {
    assert_eq!(parse_line_u64("1,2,3", ','), Some(vec![1, 2, 3]));
    assert_eq!(parse_line_u64("42", ','), Some(vec![42]));
    assert_eq!(parse_line_u64("007,010", ','), Some(vec![7, 10]));
}

#[test]
fn numeric_line_rejects_bad_fields() {
    assert_eq!(parse_line_u64("", ','), None);
    assert_eq!(parse_line_u64("1,,2", ','), None);
    assert_eq!(parse_line_u64("1,2,", ','), None);
    assert_eq!(parse_line_u64(",1,2", ','), None);
    assert_eq!(parse_line_u64("1,a,3", ','), None);
    assert_eq!(parse_line_u64("1, 2", ','), None);
    assert_eq!(parse_line_u64("1.5,2", ','), None);
    assert_eq!(parse_line_u64("18446744073709551616", ','), None);
}

#[test]
fn numeric_line_long_record() {
    let mut s = String::new();
    let mut expected: Vec<u64> = Vec::new();
    for i in 0..100u64 {
        if i > 0 {
            s.push(',');
        }
        s.push_str(&format!("{}", i * 7));
        expected.push(i * 7);
    }
    assert_eq!(parse_line_u64(&s, ','), Some(expected));
}
