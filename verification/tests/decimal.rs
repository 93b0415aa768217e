use fuzzcheck::decimal::{format_complexity, format_decimal, push_decimal, COMPLEXITY_SCALE};

#[test]
fn decimal_notation() {
    assert_eq!(format_decimal(0), "0");
    assert_eq!(format_decimal(7), "7");
    assert_eq!(format_decimal(10), "10");
    assert_eq!(format_decimal(1234567890), "1234567890");
    assert_eq!(format_decimal(u64::MAX), "18446744073709551615");
}

#[test]
fn decimal_notation_is_appended() {
    let mut text = String::from("id ");
    push_decimal(&mut text, 42);
    assert_eq!(text, "id 42");
}

#[test]
fn complexity_has_four_decimals() {
    assert_eq!(COMPLEXITY_SCALE, 10_000);
    assert_eq!(format_complexity(0), "0.0000");
    assert_eq!(format_complexity(1), "0.0001");
    assert_eq!(format_complexity(50_000), "5.0000");
    assert_eq!(format_complexity(100_000), "10.0000");
    assert_eq!(format_complexity(123_456), "12.3456");
    assert_eq!(format_complexity(9_999), "0.9999");
    assert_eq!(format_complexity(u64::MAX), "1844674407370955.1615");
}

#[test]
fn complexity_notation_agrees_with_float_formatting() {
    let values: [f64; 4] = [10.0, 5.0, 0.25, 3.1416];
    for v in values {
        let units = (v * 10_000.0).round() as u64;
        assert_eq!(format_complexity(units), format!("{:.4}", v));
    }
}
