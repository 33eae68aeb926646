use icecutter::decimal::{
    capped_digits_value, concat_chars, prefix_to, rounded_value, scaled_fraction, scaled_value,
};

fn c(s: &str) -> Vec<char> {
    s.chars().collect()
}

const UNIT: u64 = 1 << 26;

#[test]
fn fractions_in_steps_of_two_to_the_minus_26() {
    assert_eq!(scaled_fraction(&c("")), 0);
    assert_eq!(scaled_fraction(&c("5")), UNIT / 2);
    assert_eq!(scaled_fraction(&c("25")), UNIT / 4);
    assert_eq!(scaled_fraction(&c("1")), UNIT / 10);
    assert_eq!(scaled_fraction(&c("999999999999")), UNIT - 1);
}

#[test]
fn decimal_values_with_a_point() {
    // 1.5
    assert_eq!(scaled_value(&c("15"), 1), 3 * UNIT / 2);
    // 150
    assert_eq!(scaled_value(&c("15"), 3), 1 << 32);
    // 15
    assert_eq!(scaled_value(&c("15"), 2), 15 * UNIT);
    // 0.015
    assert_eq!(scaled_value(&c("15"), -1), 15 * UNIT / 1000);
    // 0.0000000015: below one step
    assert_eq!(scaled_value(&c("15"), -8), 0);
    // 000042 with the point after all digits
    assert_eq!(scaled_value(&c("000042"), 6), 42 * UNIT);
    assert_eq!(scaled_value(&c("000"), 100), 0);
    assert_eq!(scaled_value(&c("7"), 1 << 70), 1 << 32);
}

#[test]
fn rounding_through_f32() {
    assert_eq!(rounded_value(0), 0);
    assert_eq!(rounded_value(UNIT / 2 - 2), 0);
    // just below one half: the nearest f32 is one half, which rounds up
    assert_eq!(rounded_value(UNIT / 2 - 1), 1);
    assert_eq!(rounded_value(UNIT), 1);
    assert_eq!(rounded_value(3 * UNIT / 2 - 5), 1);
    assert_eq!(rounded_value(3 * UNIT / 2 - 4), 2);
    assert_eq!(rounded_value(59 * UNIT), 59);
    assert_eq!(rounded_value(119 * UNIT / 2 - 129), 59);
    assert_eq!(rounded_value(119 * UNIT / 2 - 128), 60);
    assert_eq!(rounded_value(1 << 32), 60);
    assert_eq!(rounded_value(u64::MAX), 60);
}

#[test]
fn capped_digit_values() {
    assert_eq!(capped_digits_value(&c(""), 64), 0);
    assert_eq!(capped_digits_value(&c("63"), 64), 63);
    assert_eq!(capped_digits_value(&c("64"), 64), 64);
    assert_eq!(capped_digits_value(&c("99999999999999999999999999999999999999999"), 64), 64);
    assert_eq!(capped_digits_value(&c("1234"), 1 << 100), 1234);
}

#[test]
fn pieces_of_digit_runs() {
    assert_eq!(prefix_to(&c("12345"), 2), c("12"));
    assert_eq!(prefix_to(&c("12345"), 0), c(""));
    assert_eq!(concat_chars(&c("12"), &c("345")), c("12345"));
    assert_eq!(concat_chars(&c(""), &c("")), c(""));
}
