use ai_reader::voice::{contains_chars, pick_voice, preferred_voice};

fn names(v: &[&str]) -> Vec<String> {
    v.iter().map(|s| s.to_string()).collect()
}

#[test]
fn picks_zira() {
    let v = names(&["Microsoft David Desktop", "Microsoft Zira Desktop", "Microsoft Mark"]);
    assert_eq!(pick_voice(&v), Some(1));
}

#[test]
fn matches_case_insensitively() {
    // only matches once the name is lower-cased
    let v = names(&["English Male", "ENGLISH FEMALE"]);
    assert_eq!(pick_voice(&v), Some(1));
    assert_eq!(preferred_voice(&v), None);
}

#[test]
fn first_match_wins() {
    let v = names(&["female voice", "Zira"]);
    assert_eq!(pick_voice(&v), Some(0));
}

#[test]
fn no_preferred_voice() {
    let v = names(&["David", "Mark", "Hazel"]);
    assert_eq!(pick_voice(&v), None);
    assert_eq!(pick_voice(&vec![]), None);
}

#[test]
fn substring_search() {
    let hay: Vec<char> = "abcabd".chars().collect();
    assert!(contains_chars(&hay, &"abd".chars().collect()));
    assert!(contains_chars(&hay, &vec![]));
    assert!(!contains_chars(&hay, &"abe".chars().collect()));
    assert!(!contains_chars(&vec![], &vec!['a']));
}
