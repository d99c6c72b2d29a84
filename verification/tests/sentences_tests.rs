use ai_reader::sentences::split_into_sentences;

#[test]
fn splits_after_each_mark() {
    assert_eq!(
        split_into_sentences("Hello world. How are you? Fine!"),
        vec!["Hello world.", " How are you?", " Fine!"]
    );
}

#[test]
fn keeps_unfinished_tail() {
    assert_eq!(split_into_sentences("One. Two"), vec!["One.", " Two"]);
    assert_eq!(split_into_sentences("no mark at all"), vec!["no mark at all"]);
}

#[test]
fn line_breaks_end_sentences() {
    assert_eq!(split_into_sentences("first line\nsecond line"), vec!["first line\n", "second line"]);
}

#[test]
fn drops_blank_pieces() {
    assert_eq!(split_into_sentences("a\n\n\nb"), vec!["a\n", "b"]);
    assert_eq!(split_into_sentences("Hi.   \n"), vec!["Hi."]);
    assert_eq!(split_into_sentences("End.   "), vec!["End."]);
}

#[test]
fn blank_text_has_no_sentences() {
    assert!(split_into_sentences("").is_empty());
    assert!(split_into_sentences("   \t \n  ").is_empty());
}

#[test]
fn lone_marks_are_sentences() {
    assert_eq!(split_into_sentences("Wait... what"), vec!["Wait.", ".", ".", " what"]);
    assert_eq!(split_into_sentences("?!"), vec!["?", "!"]);
}

#[test]
fn only_white_space_is_lost() {
    let text = "  Alpha beta. \n Gamma?\n\n  delta! epsilon ";
    let joined: String = split_into_sentences(text).concat();
    let strip = |s: &str| s.chars().filter(|c| !c.is_whitespace()).collect::<String>();
    assert_eq!(strip(&joined), strip(text));
    for s in split_into_sentences(text) {
        assert!(!s.trim().is_empty());
        let marks: Vec<usize> = s
            .char_indices()
            .filter(|(_, c)| matches!(c, '.' | '?' | '!' | '\n'))
            .map(|(i, _)| i)
            .collect();
        assert!(marks.is_empty() || (marks.len() == 1 && marks[0] + 1 == s.len()));
    }
}
