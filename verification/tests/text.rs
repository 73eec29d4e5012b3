use port_scanner::text::{get_first_line, split_chars, str_chars, trim_chars};

fn chars(s: &str) -> Vec<char> {
    s.chars().collect()
}

#[test]
fn first_line_of_text() {
    assert_eq!(get_first_line("白日依山尽...\n黄河入海流"), "白日依山尽...");
    assert_eq!(get_first_line("白日依山尽..."), "白日依山尽...");
    assert_eq!(get_first_line(""), "");
    assert_eq!(get_first_line("\nsecond"), "");
    assert_eq!(get_first_line("one\r\ntwo"), "one");
    assert_eq!(get_first_line("one\r"), "one\r");
    assert_eq!(get_first_line("a\rb\nc"), "a\rb");
}

#[test]
fn first_line_agrees_with_lines() {
    for s in ["", "x", "x\n", "x\r\n", "\r\n", "\r", "a\nb\nc", "é\r\r\n"] {
        assert_eq!(get_first_line(s), s.lines().next().unwrap_or(""));
    }
}

#[test]
fn splitting_keeps_empty_pieces() {
    assert_eq!(split_chars(&chars("a,,b,"), ','), vec![chars("a"), chars(""), chars("b"), chars("")]);
    assert_eq!(split_chars(&chars(""), ','), vec![chars("")]);
    assert_eq!(split_chars(&chars("abc"), ','), vec![chars("abc")]);
}

#[test]
fn trimming() {
    assert_eq!(trim_chars(&chars("  a b \t\n")), chars("a b"));
    assert_eq!(trim_chars(&chars("   ")), chars(""));
    assert_eq!(trim_chars(&chars("\u{2003}x\u{85}")), chars("x"));
}

#[test]
fn characters_of_a_string() {
    assert_eq!(str_chars("añb"), vec!['a', 'ñ', 'b']);
    assert_eq!(str_chars(""), Vec::<char>::new());
}

#[test]
fn whitespace_is_the_listed_white_space_set() {
    let listed = |c: char| {
        ('\u{9}'..='\u{d}').contains(&c)
            || c == '\u{20}'
            || c == '\u{85}'
            || c == '\u{a0}'
            || c == '\u{1680}'
            || ('\u{2000}'..='\u{200a}').contains(&c)
            || c == '\u{2028}'
            || c == '\u{2029}'
            || c == '\u{202f}'
            || c == '\u{205f}'
            || c == '\u{3000}'
    };
    for code in 0u32..=0x10FFFF {
        if let Some(c) = char::from_u32(code) {
            let trimmed_away = trim_chars(&vec![c]).is_empty();
            assert_eq!(trimmed_away, listed(c), "U+{:04X}", code);
        }
    }
}

#[test]
fn whitespace_agrees_with_std() {
    for code in 0u32..=0x10FFFF {
        if let Some(c) = char::from_u32(code) {
            assert_eq!(port_scanner::text::is_whitespace(c), c.is_whitespace(), "U+{:04X}", code);
        }
    }
}
