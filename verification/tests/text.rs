use inboxhunter::text::{
    chars_of, contains_chars, copy_opt, decimal_string, digits_string, find_chars, is_whitespace,
    parse_i64_chars, parse_trimmed_i64, push_chars, push_decimal, push_digits, push_str_chars,
    str_eq, string_of, trim_chars,
};

fn chars(s: &str) -> Vec<char> {
    s.chars().collect()
}

#[test]
fn strings_to_characters_and_back() {
    for s in ["", "abc", "\u{2705} done", "a\u{26a0}\u{fe0f}b", "\u{1f389}"] {
        assert_eq!(chars_of(s), chars(s));
        assert_eq!(string_of(&chars(s)), s);
        assert_eq!(string_of(&chars_of(s)), s);
    }
}

#[test]
fn find_gives_the_first_place() {
    assert_eq!(find_chars(&chars("hello world"), &chars("o")), Some(4));
    assert_eq!(find_chars(&chars("hello world"), &chars("world")), Some(6));
    assert_eq!(find_chars(&chars("hello world"), &chars("hello world")), Some(0));
    assert_eq!(find_chars(&chars("hello"), &chars("hello!")), None);
    assert_eq!(find_chars(&chars("hello"), &chars("x")), None);
    assert_eq!(find_chars(&chars("hello"), &chars("")), Some(0));
    assert_eq!(find_chars(&chars(""), &chars("")), Some(0));
    assert_eq!(find_chars(&chars(""), &chars("a")), None);
    assert_eq!(find_chars(&chars("aaab"), &chars("aab")), Some(1));
    assert_eq!(find_chars(&chars("abab"), &chars("b")), Some(1));
}

#[test]
fn find_counts_characters() {
    // two characters before the match, seven bytes
    assert_eq!(find_chars(&chars("\u{2705}\u{1f389}x"), &chars("x")), Some(2));
    assert_eq!("\u{2705}\u{1f389}x".find('x'), Some(7));
}

#[test]
fn contains_agrees_with_std() {
    let hays = ["", "a", "ERROR", "xxERRORxx", "ERRO", "\u{26a0}\u{fe0f}", "\u{26a0}", "abcabc"];
    let needles = ["", "a", "ERROR", "RR", "\u{26a0}\u{fe0f}", "\u{fe0f}", "cab", "abcabcd"];
    for h in hays {
        for n in needles {
            assert_eq!(contains_chars(&chars(h), &chars(n)), h.contains(n));
            assert_eq!(find_chars(&chars(h), &chars(n)).is_some(), h.contains(n));
        }
    }
}

#[test]
fn equality_of_strings() {
    assert!(str_eq("", ""));
    assert!(str_eq("abc", "abc"));
    assert!(!str_eq("abc", "abd"));
    assert!(!str_eq("abc", "ab"));
    assert!(!str_eq("", "a"));
    assert!(str_eq("\u{e9}", "\u{e9}"));
    assert!(!str_eq("\u{e9}", "e\u{301}"));
}

#[test]
fn appending_characters() {
    let mut out = chars("ab");
    push_chars(&mut out, &chars("cd"));
    push_str_chars(&mut out, "ef");
    push_chars(&mut out, &vec![]);
    assert_eq!(out, chars("abcdef"));
}

#[test]
fn decimal_writing_agrees_with_std() {
    for n in [
        0i64,
        1,
        -1,
        9,
        10,
        11,
        99,
        100,
        -100,
        12345,
        -9876543210,
        i64::MAX,
        i64::MIN,
        i64::MIN + 1,
    ] {
        assert_eq!(decimal_string(n), n.to_string());
        let mut out = chars("x");
        push_decimal(&mut out, n);
        assert_eq!(string_of(&out), format!("x{}", n));
    }
    for n in [0u64, 7, 10, 1000, u64::MAX] {
        assert_eq!(digits_string(n), n.to_string());
        let mut out = Vec::new();
        push_digits(&mut out, n);
        assert_eq!(string_of(&out), n.to_string());
    }
    assert_eq!(decimal_string(-42), "-42");
    assert_eq!(digits_string(18446744073709551615), "18446744073709551615");
}

#[test]
fn white_space_agrees_with_std() {
    for code in 0..=0x10FFFFu32 {
        if let Some(c) = char::from_u32(code) {
            assert_eq!(is_whitespace(c), c.is_whitespace(), "U+{:04X}", code);
        }
    }
}

#[test]
fn trimming_agrees_with_std() {
    for s in [
        "",
        " ",
        "a",
        " a",
        "a ",
        "  a b  ",
        "\t\n a \r\n",
        "\u{a0}x\u{3000}",
        "\u{200b}x",
        " \u{2003} ",
        "x y",
    ] {
        assert_eq!(string_of(&trim_chars(&chars(s))), s.trim());
    }
}

#[test]
fn parsing_agrees_with_std() {
    for s in [
        "",
        "0",
        "-0",
        "+0",
        "12",
        "-12",
        "+12",
        "--1",
        "+-1",
        "1-",
        "1.0",
        " 1",
        "1 ",
        "0x10",
        "007",
        "9223372036854775807",
        "9223372036854775808",
        "-9223372036854775808",
        "-9223372036854775809",
        "99999999999999999999999999999999999999999999",
        "-99999999999999999999999999999999999999999999",
        "00000000000000000000000000000000000000000001",
        "\u{661}\u{662}",
        "1e3",
        "+",
        "-",
    ] {
        assert_eq!(parse_i64_chars(&chars(s)), s.parse::<i64>().ok(), "{:?}", s);
        assert_eq!(parse_trimmed_i64(s), s.trim().parse::<i64>().ok(), "{:?}", s);
    }
}

#[test]
fn copies_of_optional_strings() {
    assert_eq!(copy_opt(&None), None);
    assert_eq!(copy_opt(&Some("a".to_string())), Some("a".to_string()));
}
