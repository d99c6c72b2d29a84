use ai_reader::text::{chars_of, is_blank_text, is_whitespace, string_from_chars, trim_text};

#[test]
fn whitespace_matches_std_for_every_char() {
    for u in 0u32..=0x10ffff {
        if let Some(c) = char::from_u32(u) {
            assert_eq!(is_whitespace(c), c.is_whitespace(), "code point {:#x}", u);
        }
    }
}

#[test]
fn whitespace_examples() {
    assert!(is_whitespace(' '));
    assert!(is_whitespace('\t'));
    assert!(is_whitespace('\n'));
    assert!(is_whitespace('\u{3000}'));
    assert!(!is_whitespace('a'));
    assert!(!is_whitespace('.'));
    assert!(!is_whitespace('\u{200b}'));
}

#[test]
fn trim_matches_std() {
    let samples = [
        "",
        " ",
        "   \t\n ",
        "hello",
        "  hello  ",
        "\u{3000}wide\u{2003}",
        " a b ",
        "\n\nline\n",
        "x ",
        " x",
    ];
    for s in samples.iter() {
        assert_eq!(trim_text(s), s.trim(), "sample {:?}", s);
    }
}

#[test]
fn blank_text() {
    assert!(is_blank_text(""));
    assert!(is_blank_text(" \t\n\u{a0}"));
    assert!(!is_blank_text("  .  "));
    assert!(!is_blank_text("word"));
}

#[test]
fn chars_round_trip() {
    let s = "héllo, wörld";
    let cs = chars_of(s);
    assert_eq!(cs, s.chars().collect::<Vec<char>>());
    assert_eq!(string_from_chars(&cs, 0, cs.len()), s);
    assert_eq!(string_from_chars(&cs, 1, 5), "éllo");
    assert_eq!(string_from_chars(&cs, 3, 3), "");
}
