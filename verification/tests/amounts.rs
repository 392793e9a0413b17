use bill_unify::amount::amount_of;
use bill_unify::amount::amount_of_float;
use bill_unify::amount::amount_of_int;
use bill_unify::amount::amount_of_text;
use bill_unify::amount::MAX_UNSCALED;
use bill_unify::cell::Cell;
use bill_unify::cell::TimeUnit;

#[test]
fn text_amounts_are_rounded_to_hundredths() {
    assert_eq!(amount_of_text("-1234.567"), Some(123457));
    assert_eq!(amount_of_text("1234.567"), Some(123457));
    assert_eq!(amount_of_text("100.00"), Some(10000));
    assert_eq!(amount_of_text("100"), Some(10000));
    assert_eq!(amount_of_text("100."), Some(10000));
    assert_eq!(amount_of_text(".5"), Some(50));
    assert_eq!(amount_of_text("+0.07"), Some(7));
    assert_eq!(amount_of_text("0.1"), Some(10));
    assert_eq!(amount_of_text("007.25"), Some(725));
}

#[test]
fn a_half_hundredth_rounds_up() {
    assert_eq!(amount_of_text("0.005"), Some(1));
    assert_eq!(amount_of_text("0.004999"), Some(0));
    assert_eq!(amount_of_text("0.0049"), Some(0));
    assert_eq!(amount_of_text("-2.675"), Some(268));
    assert_eq!(amount_of_text("9.995"), Some(1000));
    assert_eq!(amount_of_text("0.994"), Some(99));
}

#[test]
fn text_that_is_no_decimal_gives_null() {
    for bad in [
        "", "-", "+", ".", "-.", "abc", "1,000.00", " 1", "1 ", "1.2.3", "--1", "1-", "NaN", "inf", "１２", "1e", "1e+",
        "1e-", "e5", ".e5", "-e5", "1e5x", "1e 5", "1ee5", "1e5e5", "1e5.0", "1e.5", "1x5", "0x10",
    ] {
        assert_eq!(amount_of_text(bad), None, "{:?}", bad);
    }
}

#[test]
fn text_amounts_may_have_an_exponent() {
    assert_eq!(amount_of_text("1e3"), Some(100000));
    assert_eq!(amount_of_text("1E3"), Some(100000));
    assert_eq!(amount_of_text("1e+2"), Some(10000));
    assert_eq!(amount_of_text("1.5e2"), Some(15000));
    assert_eq!(amount_of_text("1.e2"), Some(10000));
    assert_eq!(amount_of_text(".5e1"), Some(500));
    assert_eq!(amount_of_text("1234.567e0"), Some(123457));
    assert_eq!(amount_of_text("12345.67e-1"), Some(123457));
    assert_eq!(amount_of_text("-1.234567e3"), Some(123457));
    assert_eq!(amount_of_text("+1.234564e3"), Some(123456));
    assert_eq!(amount_of_text("00012e0003"), Some(1200000));
    assert_eq!(amount_of_text("1e-0"), Some(100));
    assert_eq!(amount_of_text("1e-1"), Some(10));
    assert_eq!(amount_of_text("1e-2"), Some(1));
    assert_eq!(amount_of_text("5e-3"), Some(1));
    assert_eq!(amount_of_text("4e-3"), Some(0));
    assert_eq!(amount_of_text("49e-4"), Some(0));
    assert_eq!(amount_of_text("50e-4"), Some(1));
    assert_eq!(amount_of_text("9e-4"), Some(0));
    assert_eq!(amount_of_text("1e-400"), Some(0));
    assert_eq!(amount_of_text("123456e-999999999999999999999999999999999999999999999"), Some(0));
    assert_eq!(amount_of_text("0e999999999999999999999999999999999999999999"), Some(0));
    assert_eq!(amount_of_text("0.000e39"), Some(0));
    assert_eq!(amount_of_text("0.000e40"), Some(0));
    assert_eq!(amount_of_text("1e1000000000000000000000000000000000000000"), None);
    assert_eq!(amount_of_text("1e35"), Some(10_000_000_000_000_000_000_000_000_000_000_000_000));
    assert_eq!(amount_of_text("9.999e35"), Some(99_990_000_000_000_000_000_000_000_000_000_000_000));
    assert_eq!(amount_of_text("1e36"), None);
    assert_eq!(amount_of_text("0.001e39"), None);
    assert_eq!(amount_of_text("0.0000000001e45"), Some(10_000_000_000_000_000_000_000_000_000_000_000_000));
    assert_eq!(amount_of_text("0.0000000001e46"), None);
    assert_eq!(amount_of_text("1e40"), None);
    let long = format!("{}e-78", "9".repeat(80));
    assert_eq!(amount_of_text(&long), Some(10000));
    let long = format!("{}e-79", "1".repeat(80));
    assert_eq!(amount_of_text(&long), Some(111));
}

#[test]
fn text_amounts_stop_at_38_digits() {
    let max = "999999999999999999999999999999999999.99";
    assert_eq!(amount_of_text(max), Some(MAX_UNSCALED));
    assert_eq!(amount_of_text("999999999999999999999999999999999999.994"), Some(MAX_UNSCALED));
    assert_eq!(amount_of_text("999999999999999999999999999999999999.995"), None);
    assert_eq!(amount_of_text("1000000000000000000000000000000000000"), None);
    assert_eq!(amount_of_text("1000000000000000000000000000000000000.00"), None);
    let long = "9".repeat(80);
    assert_eq!(amount_of_text(&long), None);
    let fraction = format!("0.{}", "3".repeat(80));
    assert_eq!(amount_of_text(&fraction), Some(33));
}

#[test]
fn integer_amounts_are_magnitudes() {
    assert_eq!(amount_of_int(0), 0);
    assert_eq!(amount_of_int(5), 500);
    assert_eq!(amount_of_int(-5), 500);
    assert_eq!(amount_of_int(i64::MAX), 922337203685477580700);
    assert_eq!(amount_of_int(i64::MIN), 922337203685477580800);
}

#[test]
fn float_amounts_are_rounded_magnitudes() {
    assert_eq!(amount_of_float((-1234.567f64).to_bits()), Some(123457));
    assert_eq!(amount_of_float(1234.567f64.to_bits()), Some(123457));
    assert_eq!(amount_of_float(100.0f64.to_bits()), Some(10000));
    assert_eq!(amount_of_float(0.0f64.to_bits()), Some(0));
    assert_eq!(amount_of_float((-0.0f64).to_bits()), Some(0));
    assert_eq!(amount_of_float(0.125f64.to_bits()), Some(13));
    assert_eq!(amount_of_float(0.375f64.to_bits()), Some(38));
    assert_eq!(amount_of_float(0.004f64.to_bits()), Some(0));
    assert_eq!(amount_of_float(0.006f64.to_bits()), Some(1));
    assert_eq!(amount_of_float(1e-300f64.to_bits()), Some(0));
    assert_eq!(amount_of_float(f64::MIN_POSITIVE.to_bits()), Some(0));
    assert_eq!(amount_of_float(5e-324f64.to_bits()), Some(0));
    assert_eq!(amount_of_float(4503599627370496.0f64.to_bits()), Some(450359962737049600));
    assert_eq!(amount_of_float(1e15f64.to_bits()), Some(100000000000000000));
}

#[test]
fn floats_that_are_no_amount_give_null() {
    assert_eq!(amount_of_float(f64::NAN.to_bits()), None);
    assert_eq!(amount_of_float(f64::INFINITY.to_bits()), None);
    assert_eq!(amount_of_float(f64::NEG_INFINITY.to_bits()), None);
    assert_eq!(amount_of_float(1e37f64.to_bits()), None);
    assert_eq!(amount_of_float(f64::MAX.to_bits()), None);
    let near = 1e35f64;
    let got = amount_of_float(near.to_bits()).unwrap();
    assert_eq!(got, 9999999999999999686336610791797555200);
    assert!(got <= MAX_UNSCALED);
}

#[test]
fn amount_of_a_cell_goes_by_its_type() {
    assert_eq!(amount_of(&Cell::Int(-12)), Some(1200));
    assert_eq!(amount_of(&Cell::Float(2.5f64.to_bits())), Some(250));
    assert_eq!(amount_of(&Cell::Str("3.14159".to_string())), Some(314));
    assert_eq!(amount_of(&Cell::Str("2.5E1".to_string())), Some(2500));
    assert_eq!(amount_of(&Cell::Str("三".to_string())), None);
    assert_eq!(amount_of(&Cell::Bool(true)), None);
    assert_eq!(amount_of(&Cell::Datetime(1, TimeUnit::Milliseconds)), None);
    assert_eq!(amount_of(&Cell::Duration(1)), None);
    assert_eq!(amount_of(&Cell::Null), None);
}

#[test]
fn amounts_are_never_negative() {
    for text in ["-0.01", "-999.999", "-0", "-.5"] {
        assert!(amount_of_text(text).unwrap() >= 0);
    }
    for v in [-1i64, i64::MIN, -100] {
        assert!(amount_of_int(v) >= 0);
    }
    for x in [-0.01f64, -1e20, -5e-324] {
        assert!(amount_of_float(x.to_bits()).unwrap() >= 0);
    }
}
