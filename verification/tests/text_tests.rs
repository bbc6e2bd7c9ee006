use chatty::text::{chars_of, find_in, push_decimal, push_signed_decimal, text_between};

#[test]
fn decimal_digits() {
    let mut out = String::from("n=");
    push_decimal(&mut out, 0);
    assert_eq!(out, "n=0");
    let mut out = String::new();
    push_decimal(&mut out, 18446744073709551615);
    assert_eq!(out, "18446744073709551615");
    let mut out = String::new();
    push_decimal(&mut out, 1000);
    assert_eq!(out, "1000");
}

#[test]
fn signed_decimal_digits() {
    let mut out = String::new();
    push_signed_decimal(&mut out, -42);
    assert_eq!(out, "-42");
    let mut out = String::new();
    push_signed_decimal(&mut out, 2147483647);
    assert_eq!(out, "2147483647");
    let mut out = String::new();
    push_signed_decimal(&mut out, i32::MIN);
    assert_eq!(out, "-2147483648");
}

#[test]
fn finding_patterns() {
    let text = chars_of("a: b: c");
    let pattern = vec![':', ' '];
    assert_eq!(find_in(&text, 0, text.len(), &pattern), Some(1));
    assert_eq!(find_in(&text, 2, text.len(), &pattern), Some(4));
    assert_eq!(find_in(&text, 5, text.len(), &pattern), None);
    assert_eq!(find_in(&text, 0, 2, &pattern), None);
}

#[test]
fn characters_and_substrings() {
    assert_eq!(chars_of("héllo"), vec!['h', 'é', 'l', 'l', 'o']);
    assert_eq!(text_between("héllo", 1, 3), "él");
    assert_eq!(text_between("héllo", 2, 2), "");
}
