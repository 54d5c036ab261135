use ai_search_demo::query::QueryParser;
use ai_search_demo::text::{
    chars_of, is_space_char, join_with_space, read_digits, read_unsigned, same_text, split_chars,
    string_of, trimmed, write_decimal,
};

fn s(v: Vec<char>) -> String {
    v.into_iter().collect()
}

#[test]
fn strings_and_characters() {
    let v = chars_of("héllo 世界");
    assert_eq!(v.len(), 8);
    assert_eq!(string_of(&v), "héllo 世界");
    assert!(same_text("abc", "abc"));
    assert!(!same_text("abc", "abd"));
    assert!(!same_text("abc", "ab"));
    assert!(same_text("", ""));
}

#[test]
fn whitespace_is_what_the_standard_library_says() {
    for u in 0..=0x11_0000u32 {
        if let Some(c) = char::from_u32(u) {
            assert_eq!(is_space_char(c), c.is_whitespace(), "{:x}", u);
        }
    }
}

#[test]
fn trimming() {
    for text in ["", " ", "a", " a", "a ", "  a b  ", "\t\n x \u{3000}", "\u{a0}y\u{2003}", "  "] {
        assert_eq!(s(trimmed(&chars_of(text))), text.trim(), "{:?}", text);
    }
}

#[test]
fn splitting_and_joining() {
    for text in ["", ",", "a", "a,b", "a,,b", ",a,", "pdf, md ,txt", ",,"] {
        let parts: Vec<String> = split_chars(&chars_of(text), ',').into_iter().map(s).collect();
        let expected: Vec<String> = text.split(',').map(|p| p.to_string()).collect();
        assert_eq!(parts, expected, "{:?}", text);
    }
    let parts = vec![chars_of("a"), chars_of(""), chars_of("b c")];
    assert_eq!(s(join_with_space(&parts)), "a  b c");
    assert_eq!(s(join_with_space(&vec![])), "");
    assert_eq!(s(join_with_space(&vec![chars_of("only")])), "only");
}

#[test]
fn decimal_numbers() {
    for n in [0u64, 1, 9, 10, 11, 99, 100, 12345, 4294967295, 4294967296, u64::MAX - 1, u64::MAX] {
        assert_eq!(s(write_decimal(n)), n.to_string());
        let v = chars_of(&n.to_string());
        assert_eq!(read_digits(&v, 0, v.len(), u64::MAX), Some(n));
        assert_eq!(read_unsigned(&v, u64::MAX), Some(n));
        assert_eq!(read_unsigned(&chars_of(&format!("+{}", n)), u64::MAX), Some(n));
    }
    for text in ["", "+", "-1", "1a", "a1", " 1", "1 ", "١", "++1", "18446744073709551616"] {
        assert_eq!(read_unsigned(&chars_of(text), u64::MAX), text.parse::<u64>().ok(), "{:?}", text);
    }
    for text in ["0", "00007", "255", "256", "+255", "4294967295", "4294967296"] {
        assert_eq!(
            read_unsigned(&chars_of(text), 0xffff_ffff),
            text.parse::<u32>().ok().map(|n| n as u64),
            "{:?}",
            text
        );
        assert_eq!(
            read_unsigned(&chars_of(text), 255),
            text.parse::<u8>().ok().map(|n| n as u64),
            "{:?}",
            text
        );
    }
    let v = chars_of("ab123cd");
    assert_eq!(read_digits(&v, 2, 5, 1000), Some(123));
    assert_eq!(read_digits(&v, 2, 5, 122), None);
    assert_eq!(read_digits(&v, 2, 2, 1000), None);
    assert_eq!(read_digits(&v, 1, 5, 1000), None);
}

#[test]
fn decimals_in_units() {
    let p = QueryParser::new();
    assert_eq!(p.parse_size_bytes("12", "75", "b"), Some(12));
    assert_eq!(p.parse_size_bytes("12", "75", "kb"), Some(13056));
    assert_eq!(p.parse_size_bytes("12", "75", "mb"), Some(13_369_344));
    assert_eq!(p.parse_size_bytes("12", "75", "gb"), Some(13_690_208_256));
    assert_eq!(p.parse_size_bytes("12", "", "kb"), Some(12 * 1024));
    assert_eq!(p.parse_size_bytes("2", "7", "kb"), Some(2764));
    assert_eq!(p.parse_size_bytes("18014398509481984", "", "kb"), Some(u64::MAX));
    assert_eq!(p.parse_size_bytes("18014398509481983", "", "kb"), Some(u64::MAX));
    assert_eq!(
        p.parse_size_bytes("18014398509481980", "", "kb"),
        Some(18014398509481980 * 1024)
    );
}
