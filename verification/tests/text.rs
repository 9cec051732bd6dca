use ftl_stats::text::{colon_hex_string, parse_u32_str, trim, u32_to_decimal};

#[test]
fn decimal_formatting() {
    assert_eq!(u32_to_decimal(0), "0");
    assert_eq!(u32_to_decimal(10), "10");
    assert_eq!(u32_to_decimal(305419896), "305419896");
}

#[test]
fn colon_hex_formatting() {
    assert_eq!(colon_hex_string(&[]), "");
    assert_eq!(colon_hex_string(&[0x0a]), "0a");
    assert_eq!(colon_hex_string(&[0xde, 0xad, 0xbe, 0xef, 0x01, 0xff]), "de:ad:be:ef:01:ff");
}

#[test]
fn trim_like_std() {
    for s in ["", " ", " a ", "\u{a0}x y\u{2028}", "\tq\n\u{85}", "abc"] {
        assert_eq!(trim(s), s.trim());
    }
}

#[test]
fn parse_u32_like_std() {
    for s in ["", "+", "0", "+12", "-1", "4294967295", "4294967296", "99999999999", "1a", "٣"] {
        assert_eq!(parse_u32_str(s), s.parse::<u32>().ok(), "input {:?}", s);
    }
}
