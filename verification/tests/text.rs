use bullet_hell::text::{push_decimal, push_signed};

#[test]
fn decimal_digits() {
    let mut s = String::new();
    push_decimal(&mut s, 0);
    assert_eq!(s, "0");
    let mut s = String::from("x=");
    push_decimal(&mut s, 1234567890);
    assert_eq!(s, "x=1234567890");
    let mut s = String::new();
    push_decimal(&mut s, u128::MAX);
    assert_eq!(s, u128::MAX.to_string());
}

#[test]
fn signed_digits() {
    let mut s = String::new();
    push_signed(&mut s, -42);
    assert_eq!(s, "-42");
    let mut s = String::new();
    push_signed(&mut s, 7);
    assert_eq!(s, "7");
    let mut s = String::new();
    push_signed(&mut s, i64::MIN as i128);
    assert_eq!(s, i64::MIN.to_string());
}
