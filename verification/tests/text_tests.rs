use rmon::text::{
    chars_of, parse_u32_chars, parse_u64_chars, parse_usize_chars, push_decimal, split_lines, split_tokens,
    string_of, strip_end_chars, trim_chars,
};

fn chars(s: &str) -> Vec<char> {
    chars_of(s)
}

fn texts(v: Vec<Vec<char>>) -> Vec<String> {
    v.iter().map(|x| string_of(x)).collect()
}

#[test]
fn lines_follow_str_lines() {
    for s in ["", "a", "a\n", "a\r\nb", "a\n\nb\n", "\n", "x\ry\n", "last\r"] {
        let expected: Vec<String> = s.lines().map(|l| l.to_string()).collect();
        assert_eq!(texts(split_lines(&chars(s))), expected, "input {:?}", s);
    }
}

#[test]
fn tokens_follow_split_whitespace() {
    for s in ["", "  a  b ", "a\tb\u{3000}c", "one", " \n "] {
        let expected: Vec<String> = s.split_whitespace().map(|l| l.to_string()).collect();
        assert_eq!(texts(split_tokens(&chars(s))), expected, "input {:?}", s);
    }
}

#[test]
fn trimming() {
    assert_eq!(string_of(&trim_chars(&chars("  42\n"))), "42");
    assert_eq!(string_of(&trim_chars(&chars("\u{a0}x y\t"))), "x y");
    assert_eq!(string_of(&trim_chars(&chars("   "))), "");
    assert_eq!(string_of(&strip_end_chars(&chars("1842,,"), ',')), "1842");
    assert_eq!(string_of(&strip_end_chars(&chars(",a,"), ',')), ",a");
}

#[test]
fn parsing_matches_str_parse() {
    for s in ["0", "+5", "", "+", "-1", " 5", "12a", "18446744073709551615", "18446744073709551616", "007"] {
        assert_eq!(parse_u64_chars(&chars(s)), s.parse::<u64>().ok(), "input {:?}", s);
    }
    for s in ["4294967295", "4294967296", "17"] {
        assert_eq!(parse_u32_chars(&chars(s)), s.parse::<u32>().ok(), "input {:?}", s);
    }
    assert_eq!(parse_usize_chars(&chars("8")), Some(8));
}

#[test]
fn decimal_printing() {
    for n in [0u64, 7, 10, 255, 1234567890, u64::MAX] {
        let mut s = String::from("x=");
        push_decimal(&mut s, n);
        assert_eq!(s, format!("x={}", n));
        assert_eq!(parse_u64_chars(&chars(&s[2..])), Some(n));
    }
}
