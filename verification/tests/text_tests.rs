use openvm_hip::text::{decimal_string, parse_usize_str, split_trimmed_nonempty, str_starts_with, trim_str};

#[test]
fn decimal_rendering() {
    assert_eq!(decimal_string(0), "0");
    assert_eq!(decimal_string(7), "7");
    assert_eq!(decimal_string(1234567890), "1234567890");
    assert_eq!(decimal_string(usize::MAX), usize::MAX.to_string());
}

#[test]
fn parsing_matches_std() {
    for s in ["0", "42", "+42", "", "+", "-1", " 1", "1 ", "18446744073709551615", "18446744073709551616", "99999999999999999999", "007", "1a"] {
        assert_eq!(parse_usize_str(s), s.parse::<usize>().ok(), "input {:?}", s);
    }
}

#[test]
fn trimming_and_prefixes() {
    for s in ["", "   ", " a ", "\t\na b\r\n", "\u{3000}x\u{85}", "abc"] {
        assert_eq!(trim_str(s), s.trim());
    }
    assert!(str_starts_with("gfx1100", "gfx"));
    assert!(!str_starts_with("gf", "gfx"));
    assert!(str_starts_with("x", ""));
}

#[test]
fn splitting() {
    assert_eq!(split_trimmed_nonempty("a, b,,c ,", ','), vec!["a", "b", "c"]);
    assert!(split_trimmed_nonempty("", ',').is_empty());
    assert_eq!(split_trimmed_nonempty("x", ','), vec!["x"]);
}
