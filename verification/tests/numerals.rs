use ethers_etherscan::digits::{decimal_text, is_decimal_numeral};
use ethers_etherscan::uint::U256;

fn max_u256() -> U256 {
    U256([u64::MAX, u64::MAX, u64::MAX, u64::MAX])
}

#[test]
fn decimal_numeral_is_read_in_base_ten() {
    assert_eq!(U256::parse_numeral("21000"), Some(U256([21000, 0, 0, 0])));
    assert_eq!(U256::parse_numeral("0"), Some(U256([0, 0, 0, 0])));
    assert_eq!(U256::parse_numeral("10"), Some(U256::from_u64(10)));
}

#[test]
fn prefixed_numeral_is_read_in_base_sixteen() {
    assert_eq!(U256::parse_numeral("0x5208"), Some(U256([21000, 0, 0, 0])));
    assert_eq!(U256::parse_numeral("0x10"), Some(U256::from_u64(16)));
    assert_eq!(U256::parse_numeral("0xFf"), Some(U256::from_u64(255)));
    assert_eq!(U256::parse_numeral("0xabcdef"), Some(U256::from_u64(0xabcdef)));
    assert_eq!(U256::parse_numeral("0xABCDEF"), Some(U256::from_u64(0xabcdef)));
}

#[test]
fn digits_alone_never_choose_the_base() {
    // without a prefix the text is decimal, also where it would read as hexadecimal
    assert_eq!(U256::parse_numeral("1234"), Some(U256::from_u64(1234)));
    assert_eq!(U256::parse_numeral("12ab"), None);
    assert_eq!(U256::parse_numeral("ff"), None);
    // with the prefix it is hexadecimal, also where the digits are all decimal
    assert_eq!(U256::parse_numeral("0x1234"), Some(U256::from_u64(0x1234)));
}

#[test]
fn cross_encoding_gives_the_same_number() {
    let pairs = [
        ("0x0", "0"),
        ("0x1", "1"),
        ("0x5208", "21000"),
        ("0xffffffffffffffff", "18446744073709551615"),
        ("0x10000000000000000", "18446744073709551616"),
        ("0x2e90edd000", "200000000000"),
        (
            "0xffffffffffffffffffffffffffffffffffffffffffffffffffffffffffffffff",
            "115792089237316195423570985008687907853269984665640564039457584007913129639935",
        ),
    ];
    for (hex, dec) in pairs {
        let a = U256::parse_numeral(hex);
        let b = U256::parse_numeral(dec);
        assert!(a.is_some(), "{hex}");
        assert_eq!(a, b, "{hex} and {dec}");
    }
}

#[test]
fn words_are_least_significant_first() {
    assert_eq!(U256::parse_numeral("18446744073709551616"), Some(U256([0, 1, 0, 0])));
    assert_eq!(U256::parse_numeral("0x10000000000000000"), Some(U256([0, 1, 0, 0])));
    let four_words = format!("0x4{:016x}{:016x}{:016x}", 3, 2, 1);
    assert_eq!(four_words.len(), 2 + 1 + 48);
    assert_eq!(U256::parse_numeral(&four_words), Some(U256([1, 2, 3, 4])));
    assert_eq!(
        U256::parse_numeral("0x000000000000000400000000000000030000000000000002000000000000000a"),
        Some(U256([10, 2, 3, 4]))
    );
}

#[test]
fn largest_number_is_accepted_and_the_next_refused() {
    let max = "115792089237316195423570985008687907853269984665640564039457584007913129639935";
    let next = "115792089237316195423570985008687907853269984665640564039457584007913129639936";
    assert_eq!(U256::parse_numeral(max), Some(max_u256()));
    assert_eq!(U256::parse_numeral(next), None);
    assert_eq!(U256::parse_decimal(max), Some(max_u256()));
    assert_eq!(U256::parse_decimal(next), None);
    let max_hex = format!("0x{}", "f".repeat(64));
    let next_hex = format!("0x1{}", "0".repeat(64));
    assert_eq!(U256::parse_numeral(&max_hex), Some(max_u256()));
    assert_eq!(U256::parse_numeral(&next_hex), None);
}

#[test]
fn zeros_in_front_change_nothing() {
    assert_eq!(U256::parse_numeral("000021000"), Some(U256::from_u64(21000)));
    assert_eq!(U256::parse_numeral("0x00005208"), Some(U256::from_u64(21000)));
    assert_eq!(U256::parse_numeral("0x0000"), Some(U256::zero()));
    // more than 64 digits, but a number that fits
    let long_hex = format!("0x{}5208", "0".repeat(80));
    assert_eq!(U256::parse_numeral(&long_hex), Some(U256::from_u64(21000)));
    let long_max = format!("0x{}{}", "0".repeat(7), "f".repeat(64));
    assert_eq!(U256::parse_numeral(&long_max), Some(max_u256()));
    let long_over = format!("0x{}1{}", "0".repeat(7), "0".repeat(64));
    assert_eq!(U256::parse_numeral(&long_over), None);
    let long_dec = format!("{}21000", "0".repeat(100));
    assert_eq!(U256::parse_numeral(&long_dec), Some(U256::from_u64(21000)));
}

#[test]
fn text_that_is_no_numeral_is_refused() {
    for text in [
        "", "0x", "0X10", "x10", "+5", "-5", " 5", "5 ", "1_000", "1.5", "1e3", "0xg", "0x12 ",
        "latest", "١٢٣", "0x１２", "12é",
    ] {
        assert_eq!(U256::parse_numeral(text), None, "{text:?}");
    }
}

#[test]
fn parse_decimal_takes_no_prefix() {
    assert_eq!(U256::parse_decimal("27"), Some(U256::from_u64(27)));
    assert_eq!(U256::parse_decimal("0x1b"), None);
    assert_eq!(U256::parse_decimal(""), None);
    assert_eq!(U256::parse_decimal("2a"), None);
}

#[test]
fn to_u64_is_exact() {
    assert_eq!(U256::from_u64(0).to_u64(), Some(0));
    assert_eq!(U256::from_u64(u64::MAX).to_u64(), Some(u64::MAX));
    assert_eq!(U256([5, 1, 0, 0]).to_u64(), None);
    assert_eq!(U256([5, 0, 1, 0]).to_u64(), None);
    assert_eq!(U256([5, 0, 0, 1]).to_u64(), None);
    assert_eq!(U256::zero(), U256([0, 0, 0, 0]));
}

#[test]
fn numerals_agree_with_the_outside_integer() {
    for text in ["0", "7", "21000", "340282366920938463463374607431768211456", "99999999999999999999999999999"] {
        let ours = U256::parse_numeral(text).unwrap();
        let theirs = ethers_core::types::U256::from_dec_str(text).unwrap();
        assert_eq!(ours.0, theirs.0, "{text}");
    }
    for text in ["0x0", "0x7", "0x5208", "0xdeadbeefdeadbeefdeadbeefdeadbeefdeadbeef", "0xabc"] {
        let ours = U256::parse_numeral(text).unwrap();
        let theirs: ethers_core::types::U256 = text.parse().unwrap();
        assert_eq!(ours.0, theirs.0, "{text}");
    }
}

#[test]
fn decimal_text_has_no_leading_zeros() {
    assert_eq!(decimal_text(0), "0");
    assert_eq!(decimal_text(7), "7");
    assert_eq!(decimal_text(10), "10");
    assert_eq!(decimal_text(10_000), "10000");
    assert_eq!(decimal_text(99_999_999), "99999999");
    assert_eq!(decimal_text(1_000_000_007), "1000000007");
    assert_eq!(decimal_text(u64::MAX), "18446744073709551615");
}

#[test]
fn decimal_text_reads_back() {
    for n in [0u64, 1, 9, 10, 11, 99, 100, 12345, 99_999_999, u64::MAX - 1, u64::MAX] {
        let text = decimal_text(n);
        assert_eq!(text, n.to_string());
        assert!(is_decimal_numeral(&text));
        assert_eq!(U256::parse_numeral(&text), Some(U256::from_u64(n)));
    }
}

#[test]
fn decimal_numeral_needs_a_digit_and_only_digits() {
    assert!(is_decimal_numeral("0"));
    assert!(is_decimal_numeral("0123456789"));
    assert!(!is_decimal_numeral(""));
    assert!(!is_decimal_numeral("12a"));
    assert!(!is_decimal_numeral("0x12"));
    assert!(!is_decimal_numeral("１２"));
    assert!(!is_decimal_numeral("/"));
    assert!(!is_decimal_numeral(":"));
}
