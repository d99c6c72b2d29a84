//! Read-aloud playback: which sentence is current, whether reading goes on,
//! and what the speech engine is told after each event.
use vstd::prelude::*;
use crate::sentences::{
    lemma_sentence_count, lemma_sentence_count_bound, lemma_sentence_shape, sentences,
    split_into_sentences,
};
use crate::text::{is_blank, is_blank_text};

verus! {

/// What the speech engine is told to do after an event: first stop what it
/// is saying (when `stop`), then start on the sentence at `speak`, if any.
#[derive(Clone, Copy, Debug, PartialEq, Eq, Structural)]
pub struct SpeechCommand {
    pub stop: bool,
    pub speak: Option<usize>,
}

/// The abstract state of the reader.
pub struct ReaderModel {
    /// The sentences being read.
    pub sentences: Seq<Seq<char>>,
    /// Index of the current sentence.
    pub position: nat,
    /// Whether reading is under way.
    pub playing: bool,
    /// Whether the engine has been seen speaking the current sentence.
    pub heard_speech: bool,
}

/// No action at all.
pub open spec fn quiet() -> SpeechCommand {
    SpeechCommand { stop: false, speak: None }
}

/// What every reader state satisfies.
pub open spec fn model_wf(m: ReaderModel) -> bool {
    &&& m.sentences.len() <= usize::MAX
    &&& m.position <= m.sentences.len()
    &&& m.playing ==> m.position < m.sentences.len()
    &&& !m.playing ==> !m.heard_speech
    &&& forall|i: int| 0 <= i < m.sentences.len() ==> !is_blank(#[trigger] m.sentences[i])
}

/// The reader before anything has been loaded.
pub open spec fn initial_model() -> ReaderModel {
    ReaderModel { sentences: Seq::empty(), position: 0, playing: false, heard_speech: false }
}

/// A new text to read (the clipboard's): a blank one is ignored; otherwise
/// its sentences replace the old ones and reading starts at the first.
pub open spec fn load_step(m: ReaderModel, text: Seq<char>) -> (ReaderModel, SpeechCommand) {
    if is_blank(text) {
        (m, quiet())
    } else {
        (
            ReaderModel {
                sentences: sentences(text),
                position: 0,
                playing: true,
                heard_speech: false,
            },
            SpeechCommand { stop: true, speak: Some(0) },
        )
    }
}

/// A periodic look at whether the engine is still speaking: once a
/// sentence that was heard has ended, reading moves to the next one, or
/// ends after the last.
pub open spec fn tick_step(m: ReaderModel, speaking: bool) -> (ReaderModel, SpeechCommand) {
    if !m.playing {
        (m, quiet())
    } else if m.heard_speech && !speaking {
        let next = m.position + 1;
        if next < m.sentences.len() {
            (
                ReaderModel { position: next, heard_speech: false, ..m },
                SpeechCommand { stop: false, speak: Some(next as usize) },
            )
        } else {
            (ReaderModel { position: next, playing: false, heard_speech: false, ..m }, quiet())
        }
    } else if speaking {
        (ReaderModel { heard_speech: true, ..m }, quiet())
    } else {
        (m, quiet())
    }
}

/// Back one sentence (not before the first); speech stops and, while
/// reading, restarts on the new current sentence.
pub open spec fn rewind_step(m: ReaderModel) -> (ReaderModel, SpeechCommand) {
    let p: nat = if m.position > 0 {
        (m.position - 1) as nat
    } else {
        0
    };
    (
        ReaderModel { position: p, heard_speech: false, ..m },
        SpeechCommand {
            stop: true,
            speak: if m.playing && p < m.sentences.len() {
                Some(p as usize)
            } else {
                None
            },
        },
    )
}

/// Forward one sentence (not past the last); speech stops and, while
/// reading, restarts on the new current sentence.
pub open spec fn forward_step(m: ReaderModel) -> (ReaderModel, SpeechCommand) {
    let p: nat = if m.position + 1 < m.sentences.len() {
        m.position + 1
    } else {
        m.position
    };
    (
        ReaderModel { position: p, heard_speech: false, ..m },
        SpeechCommand {
            stop: true,
            speak: if m.playing && p < m.sentences.len() {
                Some(p as usize)
            } else {
                None
            },
        },
    )
}

/// Play / pause: pausing stops speech; playing resumes at the current
/// sentence, if there is one.
pub open spec fn toggle_step(m: ReaderModel) -> (ReaderModel, SpeechCommand) {
    if m.playing {
        (
            ReaderModel { playing: false, heard_speech: false, ..m },
            SpeechCommand { stop: true, speak: None },
        )
    } else if m.position < m.sentences.len() {
        (
            ReaderModel { playing: true, ..m },
            SpeechCommand { stop: false, speak: Some(m.position as usize) },
        )
    } else {
        (m, quiet())
    }
}

/// Stop: speech stops and the reader goes back to the first sentence.
pub open spec fn stop_step(m: ReaderModel) -> (ReaderModel, SpeechCommand) {
    (
        ReaderModel { position: 0, playing: false, heard_speech: false, ..m },
        SpeechCommand { stop: true, speak: None },
    )
}

/// The read-aloud state: the sentences, the current one, and whether
/// reading is under way.
pub struct Reader {
    sentences: Vec<String>,
    current_idx: usize,
    is_playing: bool,
    was_speaking: bool,
}

impl View for Reader {
    type V = ReaderModel;

    closed spec fn view(&self) -> ReaderModel {
        ReaderModel {
            sentences: self.sentences@.map_values(|s: String| s@),
            position: self.current_idx as nat,
            playing: self.is_playing,
            heard_speech: self.was_speaking,
        }
    }
}

impl Reader {
    #[verifier::type_invariant]
    spec fn inv(&self) -> bool {
        model_wf(self@)
    }

    /// The reader with nothing loaded.
    pub fn new() -> (r: Reader)
        ensures
            r@ == initial_model(),
    {
        let r = Reader {
            sentences: Vec::new(),
            current_idx: 0,
            is_playing: false,
            was_speaking: false,
        };
        assert(r@.sentences =~= Seq::<Seq<char>>::empty());
        r
    }

    /// Loads a new text (the clipboard's) as `load_step` says: a blank
    /// text changes nothing; otherwise reading starts on its first sentence.
    pub fn load_text(&mut self, text: &str) -> (cmd: SpeechCommand)
        ensures
            (final(self)@, cmd) == load_step(old(self)@, text@),
            model_wf(final(self)@),
    {
        proof {
            use_type_invariant(&*self);
        }
        if is_blank_text(text) {
            return SpeechCommand { stop: false, speak: None };
        }
        let split = split_into_sentences(text);
        proof {
            lemma_sentence_count(text@);
            lemma_sentence_shape(text@);
        }
        self.was_speaking = false;
        self.is_playing = false;
        self.current_idx = 0;
        assert forall|i: int| 0 <= i < split@.len() implies !is_blank(#[trigger] split@[i]@) by {
            assert(split@[i]@ == sentences(text@)[i]);
        }
        let count: usize = split.len();
        assert(split@.len() == count);
        assert forall|i: int| #![trigger split@[i]] 0 <= i < split@.len() implies !is_blank(split@.map_values(|s: String| s@)[i]) by {
            assert(split@[i]@ == sentences(text@)[i]);
        }
        self.sentences = split;
        assert(self@.sentences =~= sentences(text@));
        self.is_playing = true;
        SpeechCommand { stop: true, speak: Some(0) }
    }

    /// Takes note of whether the engine is speaking, as `tick_step` says.
    pub fn tick(&mut self, speaking: bool) -> (cmd: SpeechCommand)
        ensures
            (final(self)@, cmd) == tick_step(old(self)@, speaking),
            model_wf(final(self)@),
    {
        proof {
            use_type_invariant(&*self);
        }
        if !self.is_playing {
            return SpeechCommand { stop: false, speak: None };
        }
        if self.was_speaking && !speaking {
            self.was_speaking = false;
            if self.current_idx + 1 < self.sentences.len() {
                self.current_idx = self.current_idx + 1;
                SpeechCommand { stop: false, speak: Some(self.current_idx) }
            } else {
                self.is_playing = false;
                self.current_idx = self.current_idx + 1;
                SpeechCommand { stop: false, speak: None }
            }
        } else {
            if speaking {
                self.was_speaking = true;
            }
            SpeechCommand { stop: false, speak: None }
        }
    }

    /// Back one sentence, as `rewind_step` says.
    pub fn rewind(&mut self) -> (cmd: SpeechCommand)
        ensures
            (final(self)@, cmd) == rewind_step(old(self)@),
            model_wf(final(self)@),
    {
        proof {
            use_type_invariant(&*self);
        }
        self.was_speaking = false;
        if self.current_idx > 0 {
            self.current_idx = self.current_idx - 1;
        }
        let speak = if self.is_playing && self.current_idx < self.sentences.len() {
            Some(self.current_idx)
        } else {
            None
        };
        SpeechCommand { stop: true, speak }
    }

    /// Forward one sentence, as `forward_step` says.
    pub fn fast_forward(&mut self) -> (cmd: SpeechCommand)
        ensures
            (final(self)@, cmd) == forward_step(old(self)@),
            model_wf(final(self)@),
    {
        proof {
            use_type_invariant(&*self);
        }
        self.was_speaking = false;
        if self.sentences.len() > 0 && self.current_idx < self.sentences.len() - 1 {
            self.current_idx = self.current_idx + 1;
        }
        let speak = if self.is_playing && self.current_idx < self.sentences.len() {
            Some(self.current_idx)
        } else {
            None
        };
        SpeechCommand { stop: true, speak }
    }

    /// Play / pause, as `toggle_step` says.
    pub fn toggle_play(&mut self) -> (cmd: SpeechCommand)
        ensures
            (final(self)@, cmd) == toggle_step(old(self)@),
            model_wf(final(self)@),
    {
        proof {
            use_type_invariant(&*self);
        }
        if self.is_playing {
            self.was_speaking = false;
            self.is_playing = false;
            SpeechCommand { stop: true, speak: None }
        } else if self.current_idx < self.sentences.len() {
            self.is_playing = true;
            SpeechCommand { stop: false, speak: Some(self.current_idx) }
        } else {
            SpeechCommand { stop: false, speak: None }
        }
    }

    /// Stop, as `stop_step` says.
    pub fn stop(&mut self) -> (cmd: SpeechCommand)
        ensures
            (final(self)@, cmd) == stop_step(old(self)@),
            model_wf(final(self)@),
    {
        proof {
            use_type_invariant(&*self);
        }
        self.was_speaking = false;
        self.is_playing = false;
        self.current_idx = 0;
        SpeechCommand { stop: true, speak: None }
    }

    /// The sentences, in order.
    pub fn sentences(&self) -> (r: &Vec<String>)
        ensures
            r@.len() == self@.sentences.len(),
            forall|i: int| 0 <= i < r@.len() ==> #[trigger] r@[i]@ == self@.sentences[i],
    {
        &self.sentences
    }

    /// Index of the current sentence.
    pub fn current_index(&self) -> (r: usize)
        ensures
            r == self@.position,
    {
        self.current_idx
    }

    /// Whether reading is under way.
    pub fn is_playing(&self) -> (r: bool)
        ensures
            r == self@.playing,
    {
        self.is_playing
    }

    /// Label of the play / pause button.
    pub fn play_label(&self) -> (r: &'static str)
        ensures
            r@ == (if self@.playing {
                " | | "@
            } else {
                " > "@
            }),
    {
        if self.is_playing {
            " | | "
        } else {
            " > "
        }
    }
}

/// A step leaves a well-formed state, and when it tells the engine to
/// speak, it names the new current sentence, which exists.
pub open spec fn sound_step(step: (ReaderModel, SpeechCommand)) -> bool {
    &&& model_wf(step.0)
    &&& step.1.speak matches Some(i) ==> i == step.0.position && i < step.0.sentences.len()
}

/// Every event keeps the reader well formed, and whatever the engine is
/// told to speak is the current sentence, which exists (a loaded text that
/// is not blank always has a first sentence).
pub proof fn lemma_steps_sound(m: ReaderModel, text: Seq<char>, speaking: bool)
    requires
        model_wf(m),
        text.len() <= usize::MAX,
    ensures
        sound_step(load_step(m, text)),
        sound_step(tick_step(m, speaking)),
        sound_step(rewind_step(m)),
        sound_step(forward_step(m)),
        sound_step(toggle_step(m)),
        sound_step(stop_step(m)),
{
    lemma_sentence_count(text);
    lemma_sentence_shape(text);
    lemma_sentence_count_bound(text);
}

/// Reading a text: a blank one changes nothing and asks nothing of the
/// engine; any other replaces the sentences by its own, of which there is
/// at least one, and interrupts the engine to speak the first.
pub proof fn lemma_load_reads_from_first(m: ReaderModel, text: Seq<char>)
    ensures
        is_blank(text) ==> load_step(m, text) == (m, quiet()),
        !is_blank(text) ==> {
            let (n, c) = load_step(m, text);
            &&& n.sentences == sentences(text)
            &&& n.sentences.len() > 0
            &&& n.position == 0
            &&& n.playing
            &&& c == (SpeechCommand { stop: true, speak: Some(0) })
        },
{
    lemma_sentence_count(text);
}

/// Once the engine has been heard speaking the current sentence and then
/// falls silent, the next sentence is spoken; after the last one reading
/// stops.
pub proof fn lemma_sentence_finished_moves_on(m: ReaderModel)
    requires
        model_wf(m),
        m.playing,
    ensures
        ({
            let (heard, c1) = tick_step(m, true);
            let (next, c2) = tick_step(heard, false);
            &&& c1 == quiet()
            &&& next.position == m.position + 1
            &&& next.sentences == m.sentences
            &&& if m.position + 1 < m.sentences.len() {
                next.playing && c2 == (SpeechCommand {
                    stop: false,
                    speak: Some((m.position + 1) as usize),
                })
            } else {
                !next.playing && c2 == quiet()
            }
        }),
{
}

/// Pausing stops speech, and pressing play again resumes on the sentence
/// that was interrupted.
pub proof fn lemma_pause_then_play_resumes(m: ReaderModel)
    requires
        model_wf(m),
        m.playing,
    ensures
        toggle_step(m).1 == (SpeechCommand { stop: true, speak: None }),
        !toggle_step(m).0.playing,
        toggle_step(toggle_step(m).0).0.playing,
        toggle_step(toggle_step(m).0).0.position == m.position,
        toggle_step(toggle_step(m).0).1.speak == Some(m.position as usize),
{
}

/// Skipping forward and then back returns to the same sentence.
pub proof fn lemma_forward_then_rewind(m: ReaderModel)
    requires
        model_wf(m),
        m.position + 1 < m.sentences.len(),
    ensures
        rewind_step(forward_step(m).0).0.position == m.position,
        rewind_step(forward_step(m).0).0.playing == m.playing,
        rewind_step(forward_step(m).0).0.sentences == m.sentences,
{
}

/// Skipping back and then forward returns to the same sentence.
pub proof fn lemma_rewind_then_forward(m: ReaderModel)
    requires
        model_wf(m),
        0 < m.position < m.sentences.len(),
    ensures
        forward_step(rewind_step(m).0).0.position == m.position,
        forward_step(rewind_step(m).0).0.playing == m.playing,
        forward_step(rewind_step(m).0).0.sentences == m.sentences,
{
}

/// After Stop, play starts over from the first sentence.
pub proof fn lemma_stop_then_play_starts_over(m: ReaderModel)
    requires
        model_wf(m),
        m.sentences.len() > 0,
    ensures
        !stop_step(m).0.playing,
        toggle_step(stop_step(m).0).0.position == 0,
        toggle_step(stop_step(m).0).1 == (SpeechCommand { stop: false, speak: Some(0) }),
{
}

/// Reading never interrupts the engine on its own and only moves forward,
/// one sentence at a time, once a sentence that was heard has ended; past
/// the last sentence it stops; when not reading nothing changes.
pub proof fn lemma_tick_progress(m: ReaderModel, speaking: bool)
    requires
        model_wf(m),
    ensures
        !tick_step(m, speaking).1.stop,
        tick_step(m, speaking).0.sentences == m.sentences,
        tick_step(m, speaking).0.position == m.position || (tick_step(m, speaking).0.position
            == m.position + 1 && m.playing && m.heard_speech && !speaking),
        tick_step(m, speaking).0.position == m.sentences.len() ==> !tick_step(m, speaking).0.playing,
        !m.playing ==> tick_step(m, speaking) == (m, quiet()),
{
}

/// What a tick does, for every state: when not reading, nothing; while the
/// engine speaks, the current sentence is marked as heard; once a heard
/// sentence has ended, reading moves exactly one sentence on, the new one
/// not yet heard, and speaks it (or stops after the last); a silent engine
/// on a sentence not yet heard is waited for. A tick never interrupts.
pub proof fn lemma_tick_law(m: ReaderModel, speaking: bool)
    requires
        model_wf(m),
    ensures
        ({
            let (n, c) = tick_step(m, speaking);
            &&& !c.stop
            &&& n.sentences == m.sentences
            &&& !m.playing ==> n == m && c == quiet()
            &&& m.playing && speaking ==> n.position == m.position && n.playing && n.heard_speech
                && c == quiet()
            &&& m.playing && !speaking && !m.heard_speech ==> n == m && c == quiet()
            &&& m.playing && !speaking && m.heard_speech ==> {
                &&& n.position == m.position + 1
                &&& !n.heard_speech
                &&& if m.position + 1 < m.sentences.len() {
                    n.playing && c.speak == Some((m.position + 1) as usize)
                } else {
                    !n.playing && c.speak is None
                }
            }
        }),
{
}

/// Right after reading has moved on to the next sentence, that sentence
/// has not been heard yet: a tick with a silent engine keeps the position
/// and does nothing, so no sentence is skipped before the engine starts it.
pub proof fn lemma_advance_waits_for_next_sentence(m: ReaderModel)
    requires
        model_wf(m),
        m.playing,
        m.heard_speech,
        m.position + 1 < m.sentences.len(),
    ensures
        ({
            let n = tick_step(m, false).0;
            &&& n.position == m.position + 1
            &&& !n.heard_speech
            &&& tick_step(n, false) == (n, quiet())
        }),
{
}

/// Rewind moves back exactly one sentence from every position above the
/// first, the end of the text included, and stays on the first; it always
/// stops speech, forgets what was heard, keeps reading or paused as it was,
/// and while reading speaks the new current sentence.
pub proof fn lemma_rewind_law(m: ReaderModel)
    requires
        model_wf(m),
    ensures
        ({
            let (n, c) = rewind_step(m);
            &&& m.position > 0 ==> n.position + 1 == m.position
            &&& m.position == 0 ==> n.position == 0
            &&& n.sentences == m.sentences
            &&& n.playing == m.playing
            &&& !n.heard_speech
            &&& c.stop
            &&& c.speak == (if m.playing {
                Some(n.position as usize)
            } else {
                None
            })
        }),
{
}

/// Forward moves on exactly one sentence unless the current one is the
/// last (or reading is past the end), where it stays; it always stops
/// speech, forgets what was heard, keeps reading or paused as it was, and
/// while reading speaks the new current sentence.
pub proof fn lemma_forward_law(m: ReaderModel)
    requires
        model_wf(m),
    ensures
        ({
            let (n, c) = forward_step(m);
            &&& m.position + 1 < m.sentences.len() ==> n.position == m.position + 1
            &&& m.position + 1 >= m.sentences.len() ==> n.position == m.position
            &&& n.sentences == m.sentences
            &&& n.playing == m.playing
            &&& !n.heard_speech
            &&& c.stop
            &&& c.speak == (if m.playing {
                Some(n.position as usize)
            } else {
                None
            })
        }),
{
}

/// Play / pause never moves the position. Pausing stops speech and nothing
/// else is said; playing from a pause speaks the current sentence without
/// interrupting and without counting it as heard, so a silent engine right
/// after is waited for; at the end of the text play does nothing.
pub proof fn lemma_toggle_law(m: ReaderModel)
    requires
        model_wf(m),
    ensures
        ({
            let (n, c) = toggle_step(m);
            &&& n.position == m.position
            &&& n.sentences == m.sentences
            &&& !n.heard_speech
            &&& m.playing ==> !n.playing && c == (SpeechCommand { stop: true, speak: None })
            &&& !m.playing && m.position < m.sentences.len() ==> {
                &&& n.playing
                &&& c == (SpeechCommand { stop: false, speak: Some(m.position as usize) })
                &&& tick_step(n, false) == (n, quiet())
            }
            &&& !m.playing && m.position == m.sentences.len() ==> n == m && c == quiet()
        }),
{
}

/// Stop silences the engine and goes back, paused, to the first sentence,
/// keeping the sentences.
pub proof fn lemma_stop_law(m: ReaderModel)
    requires
        model_wf(m),
    ensures
        ({
            let (n, c) = stop_step(m);
            &&& n.position == 0
            &&& !n.playing
            &&& !n.heard_speech
            &&& n.sentences == m.sentences
            &&& c == (SpeechCommand { stop: true, speak: None })
        }),
{
}

} // verus!
