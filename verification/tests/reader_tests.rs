use ai_reader::reader::{Reader, SpeechCommand};

fn speak(i: usize) -> SpeechCommand {
    SpeechCommand { stop: false, speak: Some(i) }
}

fn quiet() -> SpeechCommand {
    SpeechCommand { stop: false, speak: None }
}

fn loaded(text: &str) -> Reader {
    let mut r = Reader::new();
    let c = r.load_text(text);
    assert_eq!(c, SpeechCommand { stop: true, speak: Some(0) });
    r
}

#[test]
fn new_reader_is_empty() {
    let r = Reader::new();
    assert!(r.sentences().is_empty());
    assert_eq!(r.current_index(), 0);
    assert!(!r.is_playing());
    assert_eq!(r.play_label(), " > ");
}

#[test]
fn blank_clipboard_is_ignored() {
    let mut r = loaded("One. Two.");
    r.fast_forward();
    let c = r.load_text("  \n ");
    assert_eq!(c, quiet());
    assert_eq!(r.sentences().len(), 2);
    assert_eq!(r.current_index(), 1);
    assert!(r.is_playing());
}

#[test]
fn loading_starts_reading_the_first_sentence() {
    let r = loaded("One. Two. Three.");
    assert_eq!(r.sentences(), &vec!["One.".to_string(), " Two.".to_string(), " Three.".to_string()]);
    assert_eq!(r.current_index(), 0);
    assert!(r.is_playing());
    assert_eq!(r.play_label(), " | | ");
}

#[test]
fn reading_advances_when_a_heard_sentence_ends() {
    let mut r = loaded("One. Two.");
    // not yet heard speaking: nothing happens
    assert_eq!(r.tick(false), quiet());
    assert_eq!(r.current_index(), 0);
    // speaking
    assert_eq!(r.tick(true), quiet());
    assert_eq!(r.tick(true), quiet());
    // finished: next sentence
    assert_eq!(r.tick(false), speak(1));
    assert_eq!(r.current_index(), 1);
    assert!(r.is_playing());
    assert_eq!(r.tick(true), quiet());
    // last one finished: reading ends past the end
    assert_eq!(r.tick(false), quiet());
    assert_eq!(r.current_index(), 2);
    assert!(!r.is_playing());
    // play does nothing at the end
    assert_eq!(r.toggle_play(), quiet());
    assert!(!r.is_playing());
}

#[test]
fn pause_and_resume() {
    let mut r = loaded("One. Two. Three.");
    r.fast_forward();
    assert_eq!(r.toggle_play(), SpeechCommand { stop: true, speak: None });
    assert!(!r.is_playing());
    assert_eq!(r.toggle_play(), speak(1));
    assert!(r.is_playing());
}

#[test]
fn rewind_and_forward() {
    let mut r = loaded("One. Two. Three.");
    assert_eq!(r.rewind(), SpeechCommand { stop: true, speak: Some(0) });
    assert_eq!(r.current_index(), 0);
    assert_eq!(r.fast_forward(), SpeechCommand { stop: true, speak: Some(1) });
    assert_eq!(r.fast_forward(), SpeechCommand { stop: true, speak: Some(2) });
    // no further than the last sentence
    assert_eq!(r.fast_forward(), SpeechCommand { stop: true, speak: Some(2) });
    assert_eq!(r.current_index(), 2);
    assert_eq!(r.rewind(), SpeechCommand { stop: true, speak: Some(1) });
    assert_eq!(r.current_index(), 1);
}

#[test]
fn skipping_while_paused_does_not_speak() {
    let mut r = loaded("One. Two.");
    r.toggle_play();
    assert_eq!(r.fast_forward(), SpeechCommand { stop: true, speak: None });
    assert_eq!(r.current_index(), 1);
    assert_eq!(r.rewind(), SpeechCommand { stop: true, speak: None });
    assert_eq!(r.current_index(), 0);
}

#[test]
fn skipping_cancels_a_pending_advance() {
    let mut r = loaded("One. Two. Three.");
    r.tick(true);
    r.fast_forward();
    // the engine is silent after the stop; this must not skip another sentence
    assert_eq!(r.tick(false), quiet());
    assert_eq!(r.current_index(), 1);
}

#[test]
fn stop_goes_back_to_the_start() {
    let mut r = loaded("One. Two. Three.");
    r.fast_forward();
    r.fast_forward();
    assert_eq!(r.stop(), SpeechCommand { stop: true, speak: None });
    assert_eq!(r.current_index(), 0);
    assert!(!r.is_playing());
    assert_eq!(r.toggle_play(), speak(0));
}

#[test]
fn nothing_loaded_nothing_played() {
    let mut r = Reader::new();
    assert_eq!(r.toggle_play(), quiet());
    assert_eq!(r.tick(false), quiet());
    assert_eq!(r.rewind(), SpeechCommand { stop: true, speak: None });
    assert_eq!(r.fast_forward(), SpeechCommand { stop: true, speak: None });
    assert_eq!(r.current_index(), 0);
}
