use zdefuser::text::{
    chars_of, contains, contains_folded, ends_with, escape_quotes, str_eq, string_of, u64_to_decimal,
};

#[test]
fn decimal_rendering() {
    assert_eq!(u64_to_decimal(0), "0");
    assert_eq!(u64_to_decimal(7), "7");
    assert_eq!(u64_to_decimal(10), "10");
    assert_eq!(u64_to_decimal(1_048_576), "1048576");
    assert_eq!(u64_to_decimal(u64::MAX), u64::MAX.to_string());
}

#[test]
fn substring_tests() {
    assert!(contains("abcabd", "abd"));
    assert!(contains("abc", ""));
    assert!(!contains("ab", "abc"));
    assert!(ends_with("x.tar.gz", ".gz"));
    assert!(!ends_with("gz", ".gz"));
    assert!(str_eq("ä", "ä"));
    assert!(!str_eq("a", "ab"));
    assert!(contains_folded("Bad PassWord", "password"));
    assert!(!contains_folded("passwor d", "password"));
}

#[test]
fn char_round_trip() {
    let s = "héllo \u{202E}";
    assert_eq!(string_of(&chars_of(s)), s);
    assert_eq!(escape_quotes("say \"hi\""), "say \\\"hi\\\"");
}
