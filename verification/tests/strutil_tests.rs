use interpro_filter::expr::Expr;
use interpro_filter::strutil::{
    chars_of, chars_to_string, parse_u64, split_chars, starts_with_chars, trim_chars, u64_string,
};

fn cv(s: &str) -> Vec<char> {
    s.chars().collect()
}

#[test]
fn parse_u64_reads_plain_decimals() {
    assert_eq!(parse_u64(&cv("0")), Some(0));
    assert_eq!(parse_u64(&cv("007")), Some(7));
    assert_eq!(parse_u64(&cv("18446744073709551615")), Some(u64::MAX));
}

#[test]
fn parse_u64_rejects_bad_input() {
    assert_eq!(parse_u64(&cv("")), None);
    assert_eq!(parse_u64(&cv("12a")), None);
    assert_eq!(parse_u64(&cv("-1")), None);
    assert_eq!(parse_u64(&cv("18446744073709551616")), None);
}

#[test]
fn u64_string_renders_decimals() {
    assert_eq!(u64_string(0), "0");
    assert_eq!(u64_string(42), "42");
    assert_eq!(u64_string(u64::MAX), "18446744073709551615");
}

#[test]
fn count_overflowing_u64_is_an_evaluation_error() {
    let expr = Expr::from_string("a$18446744073709551616").unwrap();
    assert!(expr.matches(&["a"]).is_err());
}

#[test]
fn chars_round_trip_through_string() {
    let v = cv("nøt ascii → ok");
    assert_eq!(chars_to_string(&v), "nøt ascii → ok");
    assert_eq!(chars_of("nøt ascii → ok"), v);
}

#[test]
fn split_keeps_empty_fields() {
    let fields = split_chars(&cv("a;;b;"), ';');
    let fields: Vec<String> = fields.iter().map(|f| f.iter().collect()).collect();
    assert_eq!(fields, vec!["a", "", "b", ""]);
}

#[test]
fn trim_removes_outer_whitespace_only() {
    assert_eq!(chars_to_string(&trim_chars(&cv("  a b\t"))), "a b");
    assert_eq!(chars_to_string(&trim_chars(&cv(""))), "");
}

#[test]
fn prefix_test_matches_str_semantics() {
    assert!(starts_with_chars(&cv("## FASTA ## extra"), &cv("## FASTA ##")));
    assert!(!starts_with_chars(&cv("## FAST"), &cv("## FASTA ##")));
}
