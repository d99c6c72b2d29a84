# ai_reader

A small desktop helper that reads the clipboard aloud sentence by sentence
and turns dictated speech into text.

- `src/` is the verified library (Verus):
  - `text`: white space, trimming, characters of a string;
  - `sentences`: cutting a text into the sentences that are read aloud;
  - `reader`: the read-aloud state machine (load, tick, rewind, play/pause,
    stop, forward) and the commands it gives the speech engine;
  - `dictation`: the recording / transcribing cycle and how transcribed
    words are added to the dictated text;
  - `voice`: choosing the preferred voice by name.
- `app/` is the window (eframe), clipboard (arboard), speech engine (tts),
  microphone (cpal) and speech model (whisper-rs), which hand plain values
  to the library and carry out what it decides.
- `tests/` exercises the library on concrete values.
