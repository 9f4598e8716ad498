use lson::literal::{is_bool, is_decimal_digit, is_float, is_integer, is_wrapped};

fn chars(s: &str) -> Vec<char> {
    s.chars().collect()
}

fn every_text(alphabet: &[char], longest: usize) -> Vec<String> {
    let mut all = vec![String::new()];
    let mut last = vec![String::new()];
    for _ in 0..longest {
        let mut next = Vec::new();
        for s in &last {
            for c in alphabet {
                let mut t = s.clone();
                t.push(*c);
                next.push(t);
            }
        }
        all.extend(next.iter().cloned());
        last = next;
    }
    all
}

#[test]
fn integers_are_what_parses_as_i32() {
    for s in every_text(&['0', '1', '9', '+', '-', ' ', 'a', '.'], 5) {
        assert_eq!(is_integer(&chars(&s)), s.parse::<i32>().is_ok(), "{:?}", s);
    }
}

#[test]
fn integers_end_at_the_limits_of_i32() {
    for (s, wanted) in [
        ("2147483647", true),
        ("2147483648", false),
        ("+2147483647", true),
        ("+2147483648", false),
        ("-2147483648", true),
        ("-2147483649", false),
        ("00000000000000000000000000001", true),
        ("99999999999999999999999999999", false),
        ("-0", true),
        ("42", true),
        ("\u{664}\u{662}", false),
        ("1_000", false),
        ("0x10", false),
    ] {
        assert_eq!(is_integer(&chars(s)), wanted, "{:?}", s);
        assert_eq!(s.parse::<i32>().is_ok(), wanted, "{:?}", s);
    }
}

#[test]
fn floats_are_what_parses_as_f32() {
    for s in every_text(&['0', '7', '.', 'e', 'E', '+', '-', 'n', 'a', ' '], 5) {
        assert_eq!(is_float(&chars(&s)), s.parse::<f32>().is_ok(), "{:?}", s);
    }
}

#[test]
fn floats_include_the_special_values() {
    for s in every_text(&['i', 'I', 'n', 'N', 'f', 'F', 'a', '+', '-'], 4) {
        assert_eq!(is_float(&chars(&s)), s.parse::<f32>().is_ok(), "{:?}", s);
    }
    for (s, wanted) in [
        ("infinity", true),
        ("INFINITY", true),
        ("+Infinity", true),
        ("-iNfInItY", true),
        ("infinit", false),
        ("infinityy", false),
        ("in", false),
        ("nan", true),
        ("-NaN", true),
        ("3.14", true),
        ("-3.14", true),
        ("2.5E10", true),
        ("2.5e-10", true),
        ("5.", true),
        (".5", true),
        ("007", true),
        ("1e", false),
        ("1e+", false),
        (".", false),
        ("+.", false),
        (".e1", false),
        ("1.e1", true),
        ("1e400", true),
        ("1e99999999999999999999999", true),
        ("0.000000000000000000000000000000000000000000000000000000000001", true),
        ("123456789012345678901234567890123456789012345678901234567890", true),
        ("1.5f", false),
        (" 1.5", false),
        ("1.5 ", false),
        ("1..5", false),
        ("1e5.5", false),
        ("", false),
        ("+", false),
    ] {
        assert_eq!(is_float(&chars(s)), wanted, "{:?}", s);
        assert_eq!(s.parse::<f32>().is_ok(), wanted, "{:?}", s);
    }
}

#[test]
fn booleans_are_true_and_false() {
    for s in ["true", "false", "True", "FALSE", "", "t", "truee", " true", "0", "1"] {
        assert_eq!(is_bool(&chars(s)), s.parse::<bool>().is_ok(), "{:?}", s);
    }
    assert!(is_bool(&chars("true")));
    assert!(is_bool(&chars("false")));
}

#[test]
fn quoted_text_begins_and_ends_with_the_quote() {
    assert!(is_wrapped(&chars("\"Ann\""), '"'));
    assert!(is_wrapped(&chars("\"\""), '"'));
    assert!(is_wrapped(&chars("\""), '"'));
    assert!(!is_wrapped(&chars(""), '"'));
    assert!(!is_wrapped(&chars("\"Ann"), '"'));
    assert!(!is_wrapped(&chars("Ann\""), '"'));
    assert!(!is_wrapped(&chars("'a'"), '"'));
    assert!(is_wrapped(&chars("'a'"), '\''));
}

#[test]
fn digits_are_the_ten_ascii_digits() {
    for code in 0..=0x10FFFFu32 {
        if let Some(c) = char::from_u32(code) {
            assert_eq!(is_decimal_digit(c), c.is_ascii_digit());
        }
    }
}
