use computer_use_cli::input::{key_code, parse_point};
use computer_use_cli::selector::{Criterion, Selector, DEFAULT_TEXT_DEPTH};

fn single(q: &str) -> Criterion {
    let mut s = Selector::parse(q);
    assert_eq!(s.steps.len(), 1);
    s.steps.pop().unwrap()
}

#[test]
fn parses_wildcard() {
    assert!(matches!(single("*"), Criterion::Any));
    assert!(matches!(single(""), Criterion::Any));
    assert!(matches!(single("  >>  "), Criterion::Any));
}

#[test]
fn parses_prefixed_criteria() {
    assert!(matches!(single("role:button"), Criterion::Role(r) if r == "button"));
    assert!(matches!(single("name:OK"), Criterion::Name(n, true) if n == "OK"));
    assert!(matches!(single("text:Submit"), Criterion::Text(t, d) if t == "Submit" && d == DEFAULT_TEXT_DEPTH));
    assert!(matches!(single("index:12"), Criterion::Index(12)));
}

#[test]
fn unknown_forms_fall_back_to_name_contains() {
    assert!(matches!(single("Submit"), Criterion::Name(n, false) if n == "Submit"));
    assert!(matches!(single("index:abc"), Criterion::Name(n, false) if n == "index:abc"));
    assert!(matches!(single("index:"), Criterion::Name(n, false) if n == "index:"));
    assert!(matches!(
        single("index:999999999999999999999999"),
        Criterion::Name(n, false) if n == "index:999999999999999999999999"
    ));
    assert!(matches!(single("**"), Criterion::Name(n, false) if n == "**"));
}

#[test]
fn parses_chains_and_trims_spaces() {
    let s = Selector::parse("  role:window >> role:button  >>name:OK ");
    assert_eq!(s.steps.len(), 3);
    assert!(matches!(&s.steps[0], Criterion::Role(r) if r == "window"));
    assert!(matches!(&s.steps[1], Criterion::Role(r) if r == "button"));
    assert!(matches!(&s.steps[2], Criterion::Name(n, true) if n == "OK"));
    let e = Selector::parse("role:a >>  >> role:b");
    assert_eq!(e.steps.len(), 2);
    let odd = Selector::parse("a>>>b");
    assert_eq!(odd.steps.len(), 2);
    assert!(matches!(&odd.steps[1], Criterion::Name(n, false) if n == ">b"));
}

#[test]
fn key_codes_for_named_keys() {
    assert_eq!(key_code("Return"), Some(36));
    assert_eq!(key_code("Enter"), Some(36));
    assert_eq!(key_code("Tab"), Some(48));
    assert_eq!(key_code("Space"), Some(49));
    assert_eq!(key_code("Escape"), Some(53));
    assert_eq!(key_code("F1"), None);
}

#[test]
fn points_parse_like_integers() {
    assert_eq!(parse_point("120,40"), Some((120, 40)));
    assert_eq!(parse_point("-5,+7"), Some((-5, 7)));
    assert_eq!(parse_point("-2147483648,2147483647"), Some((i32::MIN, i32::MAX)));
    assert_eq!(parse_point("2147483648,0"), None);
    assert_eq!(parse_point("1,2,3"), None);
    assert_eq!(parse_point("12"), None);
    assert_eq!(parse_point(" 1,2"), None);
    assert_eq!(parse_point(",2"), None);
    assert_eq!(parse_point("-,2"), None);
}
