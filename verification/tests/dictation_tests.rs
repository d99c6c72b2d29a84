use ai_reader::dictation::{
    append_transcript, join_segments, missing_model_message, Dictation, DictationPhase,
    RecordButton,
};
use ai_reader::needs_repaint;
use ai_reader::reader::Reader;

#[test]
fn appends_with_a_space() {
    let mut t = String::from("Hello");
    append_transcript(&mut t, "  world  ");
    assert_eq!(t, "Hello world");
}

#[test]
fn no_extra_space_after_a_space_or_into_empty_text() {
    let mut t = String::from("Hello ");
    append_transcript(&mut t, " world");
    assert_eq!(t, "Hello world");
    let mut e = String::new();
    append_transcript(&mut e, "\n first words \n");
    assert_eq!(e, "first words");
}

#[test]
fn blank_transcription_changes_nothing() {
    let mut t = String::from("Keep");
    append_transcript(&mut t, "   \n");
    assert_eq!(t, "Keep");
    append_transcript(&mut t, "");
    assert_eq!(t, "Keep");
}

#[test]
fn space_after_a_line_break() {
    let mut t = String::from("line\n");
    append_transcript(&mut t, "next");
    assert_eq!(t, "line\n next");
}

#[test]
fn segments_are_joined_in_order() {
    let segs = vec![" Hello".to_string(), " there,".to_string(), " friend.".to_string()];
    assert_eq!(join_segments(&segs), " Hello there, friend.");
    assert_eq!(join_segments(&vec![]), "");
}

#[test]
fn dictation_cycle() {
    let mut d = Dictation::new();
    assert_eq!(d.phase, DictationPhase::Idle);
    assert_eq!(d.record_button(), RecordButton::Start);
    assert!(!d.is_busy());
    d.start_recording();
    assert_eq!(d.record_button(), RecordButton::Stop);
    assert!(d.is_busy());
    d.stop_recording();
    assert_eq!(d.record_button(), RecordButton::Busy);
    d.finish_transcription(&vec![" Hello".to_string(), " world. ".to_string()]);
    assert_eq!(d.phase, DictationPhase::Idle);
    assert_eq!(d.text, "Hello world.");
    d.start_recording();
    d.stop_recording();
    d.finish_transcription(&vec![" Again.".to_string()]);
    assert_eq!(d.text, "Hello world. Again.");
}

#[test]
fn missing_model_replaces_the_text() {
    let mut d = Dictation::new();
    d.text = "draft".to_string();
    d.start_recording();
    d.stop_recording();
    d.report_missing_model();
    assert_eq!(d.text, "Error: ggml-tiny.en.bin not found!");
    assert_eq!(missing_model_message(), "Error: ggml-tiny.en.bin not found!");
    assert_eq!(d.phase, DictationPhase::Idle);
}

#[test]
fn repaint_while_busy() {
    let mut r = Reader::new();
    let mut d = Dictation::new();
    assert!(!needs_repaint(&r, &d));
    d.start_recording();
    assert!(needs_repaint(&r, &d));
    d.finish_transcription(&vec![]);
    assert!(!needs_repaint(&r, &d));
    r.load_text("Read me.");
    assert!(needs_repaint(&r, &d));
}
