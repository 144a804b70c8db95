use bf_compiler::decimal::{decimal_len, decimal_string, successor_decimal_string};

#[test]
fn numerals_of_small_numbers() {
    assert_eq!(decimal_string(0), "0");
    assert_eq!(decimal_string(7), "7");
    assert_eq!(decimal_string(10), "10");
    assert_eq!(decimal_string(30000), "30000");
    assert_eq!(decimal_string(65535), "65535");
}

#[test]
fn numerals_agree_with_the_standard_library() {
    for n in [0usize, 1, 9, 10, 11, 99, 100, 101, 255, 256, 1000, 123456789, usize::MAX] {
        assert_eq!(decimal_string(n), n.to_string());
        assert_eq!(decimal_len(n), n.to_string().len());
    }
}

#[test]
fn successor_numerals() {
    assert_eq!(successor_decimal_string(0), "1");
    assert_eq!(successor_decimal_string(5), "6");
    assert_eq!(successor_decimal_string(9), "10");
    assert_eq!(successor_decimal_string(99), "100");
    assert_eq!(successor_decimal_string(usize::MAX - 1), usize::MAX.to_string());
}

#[test]
fn successor_of_the_largest_word() {
    let expected = (usize::MAX as u128 + 1).to_string();
    assert_eq!(successor_decimal_string(usize::MAX), expected);
}
