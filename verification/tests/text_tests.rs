use node_red_proxy::text;

#[test]
fn decimal_rendering() {
    assert_eq!(text::u128_to_decimal(0), "0");
    assert_eq!(text::u128_to_decimal(7), "7");
    assert_eq!(text::u128_to_decimal(10), "10");
    assert_eq!(text::u128_to_decimal(65535), "65535");
    assert_eq!(text::u128_to_decimal(u128::MAX), u128::MAX.to_string());
}

#[test]
fn parse_u32_like_std() {
    for s in ["0", "7", "+5", "007", "", "+", "-1", "4294967295", "4294967296", "12a", " 1", "99999999999999999999"] {
        assert_eq!(text::parse_u32(s), s.parse::<u32>().ok(), "input {:?}", s);
    }
}

#[test]
fn parse_u8_like_std() {
    for s in ["0", "255", "256", "+1", "1.", "", "abc"] {
        assert_eq!(text::parse_u8(s), s.parse::<u8>().ok(), "input {:?}", s);
    }
}

#[test]
fn split_like_std() {
    for s in ["", "a", "a.b", ".a.", "..", "192.168.0.1"] {
        let expected: Vec<String> = s.split('.').map(|p| p.to_string()).collect();
        assert_eq!(text::split_string(s, '.'), expected, "input {:?}", s);
    }
}

#[test]
fn dotted_quad_addresses() {
    assert_eq!(text::parse_dotted_quad("192.168.0.7"), Some((192, 168, 0, 7)));
    assert_eq!(text::parse_dotted_quad("1.2.3.4.5"), Some((1, 2, 3, 4)));
    assert_eq!(text::parse_dotted_quad("1.2.3"), None);
    assert_eq!(text::parse_dotted_quad("1.2.3.256"), None);
    assert_eq!(text::parse_dotted_quad("1.2.3.4.x"), None);
    assert_eq!(text::parse_dotted_quad("localhost"), None);
}

#[test]
fn lexicographic_order_like_str() {
    let words = ["", "a", "ab", "b", "B", "äb", "a b", "Flow 1", "Flow 10", "Flow 2"];
    for a in words {
        for b in words {
            assert_eq!(text::lex_less(a, b), a < b, "{:?} < {:?}", a, b);
        }
    }
}

#[test]
fn suffix_like_str() {
    for (s, x) in [("Flow (transferred)", "(transferred)"), ("Flow", "(transferred)"), ("", ""), ("abc", "")] {
        assert_eq!(text::str_ends_with(s, x), s.ends_with(x));
    }
}

#[test]
fn decimal_reads_back() {
    for n in [0u32, 1, 9, 10, 99, 100, 65535, 4294967295] {
        assert_eq!(text::parse_u32(text::u128_to_decimal(n as u128).as_str()), Some(n));
    }
}
