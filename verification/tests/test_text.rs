use krillkounter::text::{
    chars_of, decimal_string, is_whitespace, parse_u64, signed_decimal_string, trim,
    IntErrorKind,
};

#[test]
fn whitespace_matches_std_for_every_char() {
    for n in 0u32..=0x10FFFF {
        if let Some(c) = char::from_u32(n) {
            assert_eq!(is_whitespace(c), c.is_whitespace(), "char {:#x}", n);
        }
    }
}

#[test]
fn trim_matches_std() {
    let samples = [
        "",
        "   ",
        "abc",
        "  abc  ",
        "\t\n 42 \r\n",
        "\u{3000}x y\u{2028}",
        "\u{a0}",
        " a b ",
    ];
    for s in samples {
        assert_eq!(trim(s), s.trim(), "sample {:?}", s);
    }
}

fn parse(s: &str) -> Result<u64, IntErrorKind> {
    let cs = chars_of(s);
    parse_u64(cs.as_slice())
}

#[test]
fn parse_matches_std() {
    let samples = [
        "0",
        "42",
        "+42",
        "18446744073709551615",
        "18446744073709551616",
        "99999999999999999999x",
        "1x",
        "+",
        "-",
        "-5",
        "",
        " 1",
        "007",
    ];
    for s in samples {
        let ours = parse(s);
        let theirs = s.parse::<u64>();
        match (ours, theirs) {
            (Ok(a), Ok(b)) => assert_eq!(a, b, "sample {:?}", s),
            (Err(k), Err(e)) => {
                let expected = match e.kind() {
                    std::num::IntErrorKind::Empty => IntErrorKind::Empty,
                    std::num::IntErrorKind::InvalidDigit => IntErrorKind::InvalidDigit,
                    std::num::IntErrorKind::PosOverflow => IntErrorKind::PosOverflow,
                    other => panic!("unexpected kind {:?}", other),
                };
                assert_eq!(k, expected, "sample {:?}", s);
            }
            (a, b) => panic!("sample {:?}: {:?} vs {:?}", s, a, b),
        }
    }
}

#[test]
fn decimal_rendering() {
    assert_eq!(decimal_string(0), "0");
    assert_eq!(decimal_string(1234567890), "1234567890");
    assert_eq!(decimal_string(u64::MAX), u64::MAX.to_string());
    assert_eq!(signed_decimal_string(-1), "-1");
    assert_eq!(signed_decimal_string(i32::MIN), i32::MIN.to_string());
    assert_eq!(signed_decimal_string(32), "32");
}

#[test]
fn chars_of_keeps_order() {
    assert_eq!(chars_of("añb"), vec!['a', 'ñ', 'b']);
}
