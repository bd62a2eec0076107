use shoehorn::number::{push_decimal, read_number};
use shoehorn::text::chars_of;

fn decimal(n: u128) -> String {
    let mut s = String::new();
    push_decimal(&mut s, n);
    s
}

#[test]
fn decimals_are_those_of_the_standard_library() {
    let numbers = [
        0u128,
        1,
        9,
        10,
        99,
        100,
        1_700_000_000_123,
        u64::MAX as u128,
        u128::MAX,
    ];
    for n in numbers {
        assert_eq!(decimal(n), n.to_string());
    }
    let mut s = "task=".to_string();
    push_decimal(&mut s, 407);
    assert_eq!(s, "task=407");
}

#[test]
fn decimals_are_read_back() {
    for n in [0u64, 7, 80, 65535, 65536, u64::MAX] {
        assert_eq!(read_number(&chars_of(&decimal(n as u128)), 10, u64::MAX), Some(n));
    }
}

#[test]
fn reading_is_that_of_the_standard_library() {
    let texts = [
        "", "+", "-", "0", "+0", "-0", "00", "007", "+5", "++5", "5+", " 5", "5 ", "12a", "a",
        "65535", "65536", "+65535", "99999999999999999999", "18446744073709551615",
        "18446744073709551616", "0000000000000000000000000000042", "\u{661}", "1_000", "ff", "FF",
        "fFfF", "ffffffffffffffff", "10000000000000000", "g", "0x10", "1e3",
    ];
    for t in texts {
        let c = chars_of(t);
        assert_eq!(read_number(&c, 10, u64::MAX), t.parse::<u64>().ok(), "{:?}", t);
        assert_eq!(
            read_number(&c, 10, 65535),
            t.parse::<u16>().ok().map(|n| n as u64),
            "{:?}",
            t
        );
        assert_eq!(
            read_number(&c, 16, u64::MAX),
            u64::from_str_radix(t, 16).ok(),
            "{:?}",
            t
        );
    }
}
