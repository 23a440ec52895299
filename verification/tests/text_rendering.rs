use rustwave_bot::text::{join_lines, magnitude, push_i64, push_i64_signed, push_u64, string_of};

#[test]
fn unsigned_decimal() {
    for n in [0u64, 7, 10, 99, 100, 12345, u64::MAX] {
        let mut s = String::from("x");
        push_u64(&mut s, n);
        assert_eq!(s, format!("x{n}"));
    }
}

#[test]
fn signed_decimal_and_plus_sign() {
    for n in [0i64, 5, -5, 1000, -1000, i64::MIN, i64::MAX] {
        let mut s = String::new();
        push_i64(&mut s, n);
        assert_eq!(s, n.to_string());
        let mut p = String::new();
        push_i64_signed(&mut p, n);
        assert_eq!(p, format!("{n:+}"));
    }
}

#[test]
fn magnitude_of_extremes() {
    assert_eq!(magnitude(i64::MIN), 9223372036854775808u64);
    assert_eq!(magnitude(-3), 3);
    assert_eq!(magnitude(3), 3);
}

#[test]
fn joining_lines() {
    assert_eq!(join_lines(vec![]), "");
    assert_eq!(join_lines(vec!["a".to_string()]), "a");
    assert_eq!(join_lines(vec!["a".to_string(), "b".to_string(), "c".to_string()]), "a\nb\nc");
    assert_eq!(string_of("hello"), "hello");
}
