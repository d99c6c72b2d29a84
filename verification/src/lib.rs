//! Sentence splitting, read-aloud playback control, dictation bookkeeping
//! and voice choice for a small text-to-speech / speech-to-text desktop
//! helper.
use vstd::prelude::*;
use crate::dictation::{Dictation, DictationPhase};
use crate::reader::Reader;

pub mod dictation;
pub mod reader;
pub mod sentences;
pub mod text;
pub mod voice;

verus! {

/// The window keeps redrawing while something is under way: reading,
/// recording or transcribing.
pub fn needs_repaint(reader: &Reader, dictation: &Dictation) -> (r: bool)
    ensures
        r == (reader@.playing || dictation.phase != DictationPhase::Idle),
{
    dictation.is_busy() || reader.is_playing()
}

} // verus!
