use vigil::text::{
    comes_before, has_char, parse_i32, parse_u32, parse_unsigned, same, show, show_signed, trim,
};

#[test]
fn trimming_agrees_with_std() {
    for s in ["", "  ", " a b ", "\n7\n", "\u{3000}x\u{85}", "\u{200b}x", "x\u{2003}\u{a0}", "\u{1680}"] {
        assert_eq!(trim(s), s.trim(), "{:?}", s);
    }
}

#[test]
fn numbers_agree_with_std() {
    for s in [
        "", "0", "7", "+7", "-7", "-", "+", "007", "4294967295", "4294967296", "2147483647",
        "2147483648", "-2147483648", "-2147483649", " 7", "7 ", "1_000", "18446744073709551615",
        "18446744073709551616", "99999999999999999999999", "\u{661}", "++1", "+-1", "-0",
    ] {
        assert_eq!(parse_u32(s), s.parse::<u32>().ok(), "{:?}", s);
        assert_eq!(parse_i32(s), s.parse::<i32>().ok(), "{:?}", s);
        assert_eq!(parse_unsigned(s, u64::MAX), s.parse::<u64>().ok(), "{:?}", s);
    }
    for n in [0, 9, 10, 65_536, u64::MAX] {
        assert_eq!(show(n), n.to_string());
        assert_eq!(parse_unsigned(&show(n), u64::MAX), Some(n));
    }
    for i in [0, -1, 42, i32::MIN, i32::MAX] {
        assert_eq!(show_signed(i), i.to_string());
        assert_eq!(parse_i32(&show_signed(i)), Some(i));
    }
}

#[test]
fn texts_are_compared_like_strings() {
    let words = ["", "a", "aa", "ab", "b", "B", "\u{e9}", "e", "\u{10000}", "\u{ffff}", "z"];
    for a in words {
        for b in words {
            assert_eq!(same(a, b), a == b);
            assert_eq!(comes_before(a, b), a < b, "{:?} {:?}", a, b);
        }
    }
    assert!(has_char("a\0b", '\0'));
    assert!(!has_char("ab", '\0'));
}
