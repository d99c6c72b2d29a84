//! Dictation: the recording / transcribing cycle and how transcribed words
//! are added to the dictated text.
use vstd::prelude::*;
use vstd::string::StringExecFns;
use crate::text::{chars_of, is_blank, lemma_trim, push_char, trim, trim_bounds, string_from_chars};

verus! {

/// Where dictation stands.
#[derive(Clone, Copy, Debug, PartialEq, Eq, Structural)]
pub enum DictationPhase {
    /// Waiting for the user to start.
    Idle,
    /// Capturing audio.
    Recording,
    /// Turning the captured audio into text.
    Transcribing,
}

/// The button the dictation screen shows.
#[derive(Clone, Copy, Debug, PartialEq, Eq, Structural)]
pub enum RecordButton {
    /// "Start dictation": clicking it starts recording.
    Start,
    /// "Stop recording": clicking it stops and transcribes.
    Stop,
    /// "Transcribing": not clickable.
    Busy,
}

/// The button shown in each phase.
pub open spec fn button_for(phase: DictationPhase) -> RecordButton {
    match phase {
        DictationPhase::Idle => RecordButton::Start,
        DictationPhase::Recording => RecordButton::Stop,
        DictationPhase::Transcribing => RecordButton::Busy,
    }
}

/// The transcribed segments, one after the other.
pub open spec fn joined(segments: Seq<String>) -> Seq<char>
    decreases segments.len(),
{
    if segments.len() == 0 {
        Seq::empty()
    } else {
        joined(segments.drop_last()) + segments.last()@
    }
}

/// `text` after adding the transcription `heard`: its words without the
/// surrounding white space, after a space unless `text` is empty or
/// already ends with one; nothing is added when `heard` is blank.
pub open spec fn appended(text: Seq<char>, heard: Seq<char>) -> Seq<char> {
    let words = trim(heard);
    if words.len() == 0 {
        text
    } else if text.len() > 0 && text.last() != ' ' {
        text + seq![' '] + words
    } else {
        text + words
    }
}

/// The segments of a transcription put together in order.
pub fn join_segments(segments: &Vec<String>) -> (r: String)
    ensures
        r@ == joined(segments@),
{
    let mut r = String::new();
    let mut i: usize = 0;
    assert(segments@.take(0) =~= Seq::<String>::empty());
    while i < segments.len()
        invariant
            i <= segments@.len(),
            r@ == joined(segments@.take(i as int)),
        decreases segments.len() - i,
    {
        r.append(segments[i].as_str());
        assert(segments@.take(i + 1).drop_last() =~= segments@.take(i as int));
        i += 1;
    }
    assert(segments@.take(segments@.len() as int) =~= segments@);
    r
}

/// Adds the words of a transcription to `text`, as `appended` says.
pub fn append_transcript(text: &mut String, heard: &str)
    ensures
        final(text)@ == appended(old(text)@, heard@),
{
    let hc = chars_of(heard);
    let (a, b) = trim_bounds(&hc);
    if a == b {
        return;
    }
    let words = string_from_chars(&hc, a, b);
    let tc = chars_of(text.as_str());
    if tc.len() > 0 && tc[tc.len() - 1] != ' ' {
        push_char(text, ' ');
    }
    text.append(words.as_str());
}

/// What the dictated text shows when no speech model could be loaded.
pub fn missing_model_message() -> (r: String)
    ensures
        r@ == "Error: ggml-tiny.en.bin not found!"@,
{
    String::from_str("Error: ggml-tiny.en.bin not found!")
}

/// The dictation screen's state: the dictated text, which the user may also
/// edit by hand, and the phase.
pub struct Dictation {
    pub text: String,
    pub phase: DictationPhase,
}

impl Dictation {
    /// Nothing dictated yet, waiting to start.
    pub fn new() -> (r: Dictation)
        ensures
            r.text@ == Seq::<char>::empty(),
            r.phase == DictationPhase::Idle,
    {
        Dictation { text: String::new(), phase: DictationPhase::Idle }
    }

    /// The button to show.
    pub fn record_button(&self) -> (r: RecordButton)
        ensures
            r == button_for(self.phase),
    {
        match self.phase {
            DictationPhase::Idle => RecordButton::Start,
            DictationPhase::Recording => RecordButton::Stop,
            DictationPhase::Transcribing => RecordButton::Busy,
        }
    }

    /// Audio capture has started.
    pub fn start_recording(&mut self)
        ensures
            final(self).phase == DictationPhase::Recording,
            final(self).text == old(self).text,
    {
        self.phase = DictationPhase::Recording;
    }

    /// Audio capture has stopped; transcription begins.
    pub fn stop_recording(&mut self)
        ensures
            final(self).phase == DictationPhase::Transcribing,
            final(self).text == old(self).text,
    {
        self.phase = DictationPhase::Transcribing;
    }

    /// The transcription came back as `segments`: their words are added to
    /// the text and dictation is idle again.
    pub fn finish_transcription(&mut self, segments: &Vec<String>)
        ensures
            final(self).phase == DictationPhase::Idle,
            final(self).text@ == appended(old(self).text@, joined(segments@)),
    {
        let heard = join_segments(segments);
        append_transcript(&mut self.text, heard.as_str());
        self.phase = DictationPhase::Idle;
    }

    /// No speech model could be loaded: the text is replaced by a message
    /// saying so and dictation is idle again.
    pub fn report_missing_model(&mut self)
        ensures
            final(self).phase == DictationPhase::Idle,
            final(self).text@ == "Error: ggml-tiny.en.bin not found!"@,
    {
        self.text = missing_model_message();
        self.phase = DictationPhase::Idle;
    }

    /// Whether audio is being captured or transcribed.
    pub fn is_busy(&self) -> (r: bool)
        ensures
            r == (self.phase != DictationPhase::Idle),
    {
        match self.phase {
            DictationPhase::Idle => false,
            _ => true,
        }
    }
}

/// Adding a transcription keeps what was there: the old text is a prefix
/// of the new one.
pub proof fn lemma_append_keeps_text(text: Seq<char>, heard: Seq<char>)
    ensures
        text.len() <= appended(text, heard).len(),
        appended(text, heard).take(text.len() as int) == text,
{
    let r = appended(text, heard);
    assert(r.take(text.len() as int) =~= text);
}

/// The new words end the text, and a blank transcription changes nothing.
pub proof fn lemma_append_adds_words(text: Seq<char>, heard: Seq<char>)
    ensures
        is_blank(heard) ==> appended(text, heard) == text,
        !is_blank(heard) ==> appended(text, heard).len() >= trim(heard).len() > 0 && appended(
            text,
            heard,
        ).skip(appended(text, heard).len() - trim(heard).len()) == trim(heard),
{
    lemma_trim(heard);
    let r = appended(text, heard);
    let w = trim(heard);
    if !is_blank(heard) {
        assert(r.skip(r.len() - w.len()) =~= w);
    }
}

/// The new words are never glued to the old text: when both are
/// non-empty, a space stands right before the new words.
pub proof fn lemma_append_separates(text: Seq<char>, heard: Seq<char>)
    requires
        text.len() > 0,
        !is_blank(heard),
    ensures
        appended(text, heard)[appended(text, heard).len() - trim(heard).len() - 1] == ' ',
{
    lemma_trim(heard);
}

/// Exactly one space is put in, and only when the old text is non-empty,
/// does not already end with a space, and the transcription has words:
/// the result is the old text, that optional space and the trimmed words,
/// nothing else.
pub proof fn lemma_append_length(text: Seq<char>, heard: Seq<char>)
    ensures
        appended(text, heard).len() == text.len() + trim(heard).len() + (if text.len() > 0
            && text.last() != ' ' && !is_blank(heard) {
            1int
        } else {
            0int
        }),
{
    lemma_trim(heard);
}

/// Joining two lists of segments one after the other is joining each and
/// putting the results together.
pub proof fn lemma_joined_concat(a: Seq<String>, b: Seq<String>)
    ensures
        joined(a + b) == joined(a) + joined(b),
    decreases b.len(),
{
    if b.len() == 0 {
        assert(a + b =~= a);
        assert(joined(a) + joined(b) =~= joined(a));
    } else {
        assert((a + b).drop_last() =~= a + b.drop_last());
        assert((a + b).last() == b.last());
        lemma_joined_concat(a, b.drop_last());
        assert(joined(a) + (joined(b.drop_last()) + b.last()@) =~= joined(a) + joined(
            b.drop_last(),
        ) + b.last()@);
    }
}

/// A single segment joined is that segment.
pub proof fn lemma_joined_single(x: String)
    ensures
        joined(seq![x]) == x@,
{
    assert(seq![x].drop_last() =~= Seq::<String>::empty());
    assert(seq![x].last() == x);
    assert(joined(Seq::<String>::empty()) == Seq::<char>::empty());
    assert(Seq::<char>::empty() + x@ =~= x@);
}

/// Idle shows the start button, recording the stop button, transcribing
/// the busy one; different phases show different buttons.
pub proof fn lemma_record_buttons()
    ensures
        button_for(DictationPhase::Idle) == RecordButton::Start,
        button_for(DictationPhase::Recording) == RecordButton::Stop,
        button_for(DictationPhase::Transcribing) == RecordButton::Busy,
{
}

} // verus!
