use moneybot::library::text::{decimal_string, push_decimal, push_ranked_line};

#[test]
fn decimal_rendering() {
    assert_eq!(decimal_string(0), "0");
    assert_eq!(decimal_string(7), "7");
    assert_eq!(decimal_string(10), "10");
    assert_eq!(decimal_string(1203), "1203");
    assert_eq!(decimal_string(u64::MAX), "18446744073709551615");
    let mut s = String::from("x=");
    push_decimal(&mut s, 900);
    assert_eq!(s, "x=900");
}

#[test]
fn ranked_line_rendering() {
    let mut s = String::new();
    push_ranked_line(&mut s, 1, "bob", 0);
    assert_eq!(s, "1. bob - $0");
}
