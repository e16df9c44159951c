# fretscope

The verified core of a guitar pitch/key analysis plugin.

- `src/theory.rs` — note names and labels, tunings, scales and modes, chords,
  the mapping of scales and chords onto the fretboard, and barre-chord voicings,
  with the laws they keep (interval data well formed, modes of the major scale,
  soundness and completeness of the fretboard mapping, voicings that sound only
  chord tones and are rooted on their lowest string).
- `src/note_log.rs` — the bounded, phrase-aware log of played notes.
- `src/pitch.rs` — windowing of the incoming sample stream for the pitch
  detector, and the naming of detected MIDI notes.
- `src/key_detect.rs` — naming of detected keys.
- `src/editor.rs` — the editor's decisions: visible fretboard positions and
  markers, dot labels, key source, tuning choice and the custom tuning editor.
- `app/` — the plugin itself (audio processing, floating-point pitch and key
  detection, the egui editor) around the library.
