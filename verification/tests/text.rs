use zj_agent::text::{
    concat2, join_strings, parse_u32_str, replace_all, trim_end_matching, trim_string,
    u64_to_decimal, u64_to_hex16,
};

#[test]
fn decimal_formatting_matches_display() {
    for n in [0u64, 7, 10, 99, 100, 1234567890, u64::MAX] {
        assert_eq!(u64_to_decimal(n), format!("{}", n));
    }
}

#[test]
fn hex_formatting_matches_padded_lower_hex() {
    for n in [0u64, 1, 0xabc, 0xdead_beef, u64::MAX] {
        assert_eq!(u64_to_hex16(n), format!("{:016x}", n));
    }
}

#[test]
fn u32_parsing_matches_str_parse() {
    let cases = ["0", "12", "+5", "-1", "", "+", " 1", "4294967295", "4294967296", "007", "1a"];
    for c in cases {
        assert_eq!(parse_u32_str(c), c.parse::<u32>().ok(), "{:?}", c);
    }
}

#[test]
fn trimming_matches_str_trim() {
    let cases = ["", "  ", " a b ", "\t\nx\u{3000}", "\u{85}y\u{a0}"];
    for c in cases {
        assert_eq!(trim_string(c), c.trim(), "{:?}", c);
    }
}

#[test]
fn trailing_characters_are_trimmed() {
    assert_eq!(trim_end_matching("ws://h:1///", '/'), "ws://h:1");
    assert_eq!(trim_end_matching("abc", '/'), "abc");
    assert_eq!(trim_end_matching("///", '/'), "");
}

#[test]
fn joining_and_replacing_match_std() {
    let parts = vec!["a".to_string(), "".to_string(), "c".to_string()];
    assert_eq!(join_strings(&parts, ", "), parts.join(", "));
    assert_eq!(join_strings(&vec![], "x"), "");
    for (s, p, r) in [("aaa", "aa", "b"), ("xyz", "q", "r"), ("a\\nb", "\\n", "\r"), ("", "a", "b")] {
        assert_eq!(replace_all(s, p, r), s.replace(p, r), "{:?}", s);
    }
    assert_eq!(concat2("ab", "cd"), "abcd");
}
