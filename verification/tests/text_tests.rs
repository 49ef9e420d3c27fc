use tcexchange_backend::text::{
    chars_lt, chars_of, contains_str, decimal_i32, decimal_u64, decimal_usize, join_strings,
    split_words, string_of, trim_str, utf8_len_of,
};

fn words_of(s: &str) -> Vec<String> {
    let cs = chars_of(s);
    split_words(&cs).iter().map(|w| string_of(w)).collect()
}

#[test]
fn split_words_matches_split_whitespace() {
    for s in [
        "",
        "   ",
        "what is KIT?",
        "  leading and trailing  ",
        "tabs\tand\nnewlines\r\nmixed",
        "ideographic\u{3000}space and\u{a0}nbsp",
        "é è\u{2028}ü",
    ] {
        let expected: Vec<String> = s.split_whitespace().map(|w| w.to_string()).collect();
        assert_eq!(words_of(s), expected, "input {:?}", s);
    }
}

#[test]
fn trim_matches_str_trim() {
    for s in ["", "  x  ", "\u{3000}x\u{2028}", "\n\tKIT\n", "no-trim", " \u{85} "] {
        assert_eq!(trim_str(s), s.trim().to_string(), "input {:?}", s);
    }
}

#[test]
fn decimal_rendering() {
    assert_eq!(decimal_u64(0), "0");
    assert_eq!(decimal_u64(1234567890), "1234567890");
    assert_eq!(decimal_u64(u64::MAX), u64::MAX.to_string());
    assert_eq!(decimal_usize(42), "42");
    assert_eq!(decimal_i32(-7), "-7");
    assert_eq!(decimal_i32(i32::MIN), "-2147483648");
    assert_eq!(decimal_i32(i32::MAX), "2147483647");
}

#[test]
fn join_like_std() {
    let parts = vec!["a".to_string(), "b".to_string(), "c".to_string()];
    assert_eq!(join_strings(&parts, ", "), "a, b, c");
    assert_eq!(join_strings(&parts[..1], ", "), "a");
    assert_eq!(join_strings(&parts[..0], ", "), "");
}

#[test]
fn substring_search() {
    let hay = chars_of("can we speak in english");
    assert!(contains_str(&hay, "english"));
    assert!(contains_str(&hay, ""));
    assert!(!contains_str(&hay, "french"));
    assert!(!contains_str(&chars_of("ab"), "abc"));
}

#[test]
fn utf8_length_is_byte_length() {
    for s in ["", "kit", "été", "黑风雷", "👨‍👩"] {
        assert_eq!(utf8_len_of(&chars_of(s)), s.len() as u128);
    }
}

#[test]
fn code_point_order_matches_string_order() {
    let samples = ["", "a", "ab", "b", "Z", "Åland", "Éire", "zz", "é"];
    for x in samples {
        for y in samples {
            assert_eq!(chars_lt(&chars_of(x), &chars_of(y)), x < y, "{:?} < {:?}", x, y);
        }
    }
}
