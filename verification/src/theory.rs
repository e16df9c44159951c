//! Music theory engine: scales, modes, chord voicings, and fretboard mapping.
//!
//! All interval data is defined as semitone offsets from the root (pitch class 0-11).

use vstd::prelude::*;

verus! {

// ── Note names ──

/// Name of a pitch class (0 = C, ..., 11 = B), sharps spelled with `#`.
pub open spec fn pitch_class_name(pc: int) -> Seq<char> {
    if pc == 0 { "C"@ }
    else if pc == 1 { "C#"@ }
    else if pc == 2 { "D"@ }
    else if pc == 3 { "D#"@ }
    else if pc == 4 { "E"@ }
    else if pc == 5 { "F"@ }
    else if pc == 6 { "F#"@ }
    else if pc == 7 { "G"@ }
    else if pc == 8 { "G#"@ }
    else if pc == 9 { "A"@ }
    else if pc == 10 { "A#"@ }
    else { "B"@ }
}

/// The one-character text of a decimal digit.
pub open spec fn digit_text(d: int) -> Seq<char> {
    if d == 0 { "0"@ }
    else if d == 1 { "1"@ }
    else if d == 2 { "2"@ }
    else if d == 3 { "3"@ }
    else if d == 4 { "4"@ }
    else if d == 5 { "5"@ }
    else if d == 6 { "6"@ }
    else if d == 7 { "7"@ }
    else if d == 8 { "8"@ }
    else { "9"@ }
}

/// Decimal digits of a natural number, most significant first.
pub open spec fn decimal_digits(n: nat) -> Seq<char>
    decreases n,
{
    if n < 10 {
        digit_text(n as int)
    } else {
        decimal_digits(n / 10) + digit_text((n % 10) as int)
    }
}

/// Decimal text of an integer, with a leading `-` when negative.
pub open spec fn decimal(n: int) -> Seq<char> {
    if n < 0 {
        "-"@ + decimal_digits((-n) as nat)
    } else {
        decimal_digits(n as nat)
    }
}

/// Octave number of a MIDI note in scientific pitch notation (MIDI 60 = C4).
pub open spec fn midi_octave(midi: int) -> int {
    midi / 12 - 1
}

/// Label of a MIDI note: its note name followed by its octave, e.g. "E2".
pub open spec fn midi_label(midi: u8) -> Seq<char> {
    pitch_class_name((midi % 12) as int) + decimal(midi_octave(midi as int))
}

/// Get note name for a MIDI note number.
pub fn note_name(midi: u8) -> (name: &'static str)
    ensures
        name@ == pitch_class_name((midi % 12) as int),
{
    let pc = midi % 12;
    if pc == 0 { "C" }
    else if pc == 1 { "C#" }
    else if pc == 2 { "D" }
    else if pc == 3 { "D#" }
    else if pc == 4 { "E" }
    else if pc == 5 { "F" }
    else if pc == 6 { "F#" }
    else if pc == 7 { "G" }
    else if pc == 8 { "G#" }
    else if pc == 9 { "A" }
    else if pc == 10 { "A#" }
    else { "B" }
}

/// Get all note names, indexed by pitch class.
pub fn all_note_names() -> (names: &'static [&'static str; 12])
    ensures
        forall|i: int| 0 <= i < 12 ==> (#[trigger] names[i])@ == pitch_class_name(i),
{
    &["C", "C#", "D", "D#", "E", "F", "F#", "G", "G#", "A", "A#", "B"]
}

fn digit_str(d: u32) -> (s: &'static str)
    requires
        d < 10,
    ensures
        s@ == digit_text(d as int),
{
    if d == 0 { "0" }
    else if d == 1 { "1" }
    else if d == 2 { "2" }
    else if d == 3 { "3" }
    else if d == 4 { "4" }
    else if d == 5 { "5" }
    else if d == 6 { "6" }
    else if d == 7 { "7" }
    else if d == 8 { "8" }
    else { "9" }
}

fn append_digits(s: &mut String, n: u32)
    ensures
        final(s)@ == old(s)@ + decimal_digits(n as nat),
    decreases n,
{
    if n < 10 {
        s.append(digit_str(n));
    } else {
        append_digits(s, n / 10);
        s.append(digit_str(n % 10));
        proof {
            assert(old(s)@ + decimal_digits((n / 10) as nat) + digit_text((n % 10) as int)
                =~= old(s)@ + decimal_digits(n as nat));
        }
    }
}

/// Appends the decimal text of `x` to `s`.
fn append_decimal(s: &mut String, x: i32)
    ensures
        final(s)@ == old(s)@ + decimal(x as int),
{
    if x < 0 {
        s.append("-");
        let magnitude: i64 = -(x as i64);
        append_digits(s, magnitude as u32);
        proof {
            assert(old(s)@ + "-"@ + decimal_digits((-x) as nat) =~= old(s)@ + decimal(x as int));
        }
    } else {
        append_digits(s, x as u32);
    }
}

/// All note names with octaves for MIDI range (useful for custom tuning picker).
pub fn midi_to_label(midi: u8) -> (label: String)
    ensures
        label@ == midi_label(midi),
{
    let octave: i32 = (midi as i32 / 12) - 1;
    let mut label = String::from_str(note_name(midi));
    append_decimal(&mut label, octave);
    label
}

// ── Tunings ──

/// Tuning preset: name + MIDI note numbers (low to high).
#[derive(Debug, Clone)]
pub struct Tuning {
    pub name: String,
    pub notes: Vec<u8>,
}

impl Tuning {
    /// Number of strings.
    pub fn string_count(&self) -> (n: usize)
        ensures
            n == self.notes@.len(),
    {
        self.notes.len()
    }

    /// Label of the open note of one string ("E2"), or "?" past the last string.
    pub fn note_label(&self, string_idx: usize) -> (label: String)
        ensures
            label@ == (if string_idx < self.notes@.len() {
                midi_label(self.notes@[string_idx as int])
            } else {
                "?"@
            }),
    {
        if string_idx < self.notes.len() {
            midi_to_label(self.notes[string_idx])
        } else {
            String::from_str("?")
        }
    }
}

/// Names of the preset tunings, in the order `preset_tunings` lists them.
pub open spec fn preset_names() -> Seq<Seq<char>> {
    seq![
        "Standard (EADGBE)"@,
        "Drop D (DADGBE)"@,
        "Drop C (CADGBE)"@,
        "Open G (DGDGBD)"@,
        "Open D (DADF#AD)"@,
        "DADGAD"@,
        "Half Step Down"@,
        "Full Step Down"@,
        "7-String Standard"@,
        "7-String Drop A"@,
        "8-String Standard"@,
        "Bass 4-String (EADG)"@,
        "Bass 5-String (BEADG)"@,
    ]
}

/// Open-string MIDI notes of the preset tunings (low string first).
pub open spec fn preset_notes() -> Seq<Seq<u8>> {
    seq![
        seq![40u8, 45, 50, 55, 59, 64],
        seq![38u8, 45, 50, 55, 59, 64],
        seq![36u8, 43, 48, 53, 57, 62],
        seq![38u8, 43, 50, 55, 59, 62],
        seq![38u8, 45, 50, 54, 57, 62],
        seq![38u8, 45, 50, 55, 57, 62],
        seq![39u8, 44, 49, 54, 58, 63],
        seq![38u8, 43, 48, 53, 57, 62],
        seq![35u8, 40, 45, 50, 55, 59, 64],
        seq![33u8, 40, 45, 50, 55, 59, 64],
        seq![30u8, 35, 40, 45, 50, 55, 59, 64],
        seq![28u8, 33, 38, 43],
        seq![23u8, 28, 33, 38, 43],
    ]
}

fn tuning(name: &str, notes: Vec<u8>) -> (t: Tuning)
    ensures
        t.name@ == name@,
        t.notes@ == notes@,
{
    Tuning { name: String::from_str(name), notes }
}

/// The built-in tunings: guitar (6, 7 and 8 strings) and bass.
pub fn preset_tunings() -> (presets: Vec<Tuning>)
    ensures
        presets@.len() == preset_names().len(),
        forall|i: int| 0 <= i < presets@.len() ==> {
            &&& (#[trigger] presets@[i]).name@ == preset_names()[i]
            &&& presets@[i].notes@ == preset_notes()[i]
        },
{
    let presets = vec![
        tuning("Standard (EADGBE)", vec![40, 45, 50, 55, 59, 64]),
        tuning("Drop D (DADGBE)", vec![38, 45, 50, 55, 59, 64]),
        tuning("Drop C (CADGBE)", vec![36, 43, 48, 53, 57, 62]),
        tuning("Open G (DGDGBD)", vec![38, 43, 50, 55, 59, 62]),
        tuning("Open D (DADF#AD)", vec![38, 45, 50, 54, 57, 62]),
        tuning("DADGAD", vec![38, 45, 50, 55, 57, 62]),
        tuning("Half Step Down", vec![39, 44, 49, 54, 58, 63]),
        tuning("Full Step Down", vec![38, 43, 48, 53, 57, 62]),
        tuning("7-String Standard", vec![35, 40, 45, 50, 55, 59, 64]),
        tuning("7-String Drop A", vec![33, 40, 45, 50, 55, 59, 64]),
        tuning("8-String Standard", vec![30, 35, 40, 45, 50, 55, 59, 64]),
        tuning("Bass 4-String (EADG)", vec![28, 33, 38, 43]),
        tuning("Bass 5-String (BEADG)", vec![23, 28, 33, 38, 43]),
    ];
    presets
}

// ── Scale definitions (semitone intervals from root) ──

/// A scale or mode, each defined by its semitone intervals from the root.
#[derive(Debug, Clone, Copy, PartialEq, Eq, Structural)]
pub enum ScaleType {
    Major,
    NaturalMinor,
    HarmonicMinor,
    MelodicMinor,
    PentatonicMajor,
    PentatonicMinor,
    Blues,
    WholeTone,
    Diminished,
    // Modes of the major scale
    Dorian,
    Phrygian,
    Lydian,
    Mixolydian,
    Aeolian,
    Locrian,
}

/// Semitone intervals of a scale type, from the root upwards.
pub open spec fn scale_intervals(scale: ScaleType) -> Seq<u8> {
    match scale {
        ScaleType::Major => seq![0u8, 2, 4, 5, 7, 9, 11],
        ScaleType::NaturalMinor => seq![0u8, 2, 3, 5, 7, 8, 10],
        ScaleType::HarmonicMinor => seq![0u8, 2, 3, 5, 7, 8, 11],
        ScaleType::MelodicMinor => seq![0u8, 2, 3, 5, 7, 9, 11],
        ScaleType::PentatonicMajor => seq![0u8, 2, 4, 7, 9],
        ScaleType::PentatonicMinor => seq![0u8, 3, 5, 7, 10],
        ScaleType::Blues => seq![0u8, 3, 5, 6, 7, 10],
        ScaleType::WholeTone => seq![0u8, 2, 4, 6, 8, 10],
        ScaleType::Diminished => seq![0u8, 2, 3, 5, 6, 8, 9, 11],
        ScaleType::Dorian => seq![0u8, 2, 3, 5, 7, 9, 10],
        ScaleType::Phrygian => seq![0u8, 1, 3, 5, 7, 8, 10],
        ScaleType::Lydian => seq![0u8, 2, 4, 6, 7, 9, 11],
        ScaleType::Mixolydian => seq![0u8, 2, 4, 5, 7, 9, 10],
        ScaleType::Aeolian => seq![0u8, 2, 3, 5, 7, 8, 10],
        ScaleType::Locrian => seq![0u8, 1, 3, 5, 6, 8, 10],
    }
}

/// Display name of a scale type.
pub open spec fn scale_name(scale: ScaleType) -> Seq<char> {
    match scale {
        ScaleType::Major => "Major (Ionian)"@,
        ScaleType::NaturalMinor => "Natural Minor"@,
        ScaleType::HarmonicMinor => "Harmonic Minor"@,
        ScaleType::MelodicMinor => "Melodic Minor"@,
        ScaleType::PentatonicMajor => "Pentatonic Major"@,
        ScaleType::PentatonicMinor => "Pentatonic Minor"@,
        ScaleType::Blues => "Blues"@,
        ScaleType::WholeTone => "Whole Tone"@,
        ScaleType::Diminished => "Diminished"@,
        ScaleType::Dorian => "Dorian"@,
        ScaleType::Phrygian => "Phrygian"@,
        ScaleType::Lydian => "Lydian"@,
        ScaleType::Mixolydian => "Mixolydian"@,
        ScaleType::Aeolian => "Aeolian"@,
        ScaleType::Locrian => "Locrian"@,
    }
}

/// Every scale type, in menu order.
pub open spec fn all_scale_types() -> Seq<ScaleType> {
    seq![
        ScaleType::Major,
        ScaleType::NaturalMinor,
        ScaleType::HarmonicMinor,
        ScaleType::MelodicMinor,
        ScaleType::PentatonicMajor,
        ScaleType::PentatonicMinor,
        ScaleType::Blues,
        ScaleType::WholeTone,
        ScaleType::Diminished,
        ScaleType::Dorian,
        ScaleType::Phrygian,
        ScaleType::Lydian,
        ScaleType::Mixolydian,
        ScaleType::Aeolian,
        ScaleType::Locrian,
    ]
}

impl ScaleType {
    /// Semitone intervals from the root.
    pub fn intervals(&self) -> (ivs: &'static [u8])
        ensures
            ivs@ == scale_intervals(*self),
    {
        match self {
            ScaleType::Major => &[0, 2, 4, 5, 7, 9, 11],
            ScaleType::NaturalMinor => &[0, 2, 3, 5, 7, 8, 10],
            ScaleType::HarmonicMinor => &[0, 2, 3, 5, 7, 8, 11],
            ScaleType::MelodicMinor => &[0, 2, 3, 5, 7, 9, 11],
            ScaleType::PentatonicMajor => &[0, 2, 4, 7, 9],
            ScaleType::PentatonicMinor => &[0, 3, 5, 7, 10],
            ScaleType::Blues => &[0, 3, 5, 6, 7, 10],
            ScaleType::WholeTone => &[0, 2, 4, 6, 8, 10],
            ScaleType::Diminished => &[0, 2, 3, 5, 6, 8, 9, 11],
            ScaleType::Dorian => &[0, 2, 3, 5, 7, 9, 10],
            ScaleType::Phrygian => &[0, 1, 3, 5, 7, 8, 10],
            ScaleType::Lydian => &[0, 2, 4, 6, 7, 9, 11],
            ScaleType::Mixolydian => &[0, 2, 4, 5, 7, 9, 10],
            ScaleType::Aeolian => &[0, 2, 3, 5, 7, 8, 10],
            ScaleType::Locrian => &[0, 1, 3, 5, 6, 8, 10],
        }
    }

    /// Display name.
    pub fn name(&self) -> (name: &'static str)
        ensures
            name@ == scale_name(*self),
    {
        match self {
            ScaleType::Major => "Major (Ionian)",
            ScaleType::NaturalMinor => "Natural Minor",
            ScaleType::HarmonicMinor => "Harmonic Minor",
            ScaleType::MelodicMinor => "Melodic Minor",
            ScaleType::PentatonicMajor => "Pentatonic Major",
            ScaleType::PentatonicMinor => "Pentatonic Minor",
            ScaleType::Blues => "Blues",
            ScaleType::WholeTone => "Whole Tone",
            ScaleType::Diminished => "Diminished",
            ScaleType::Dorian => "Dorian",
            ScaleType::Phrygian => "Phrygian",
            ScaleType::Lydian => "Lydian",
            ScaleType::Mixolydian => "Mixolydian",
            ScaleType::Aeolian => "Aeolian",
            ScaleType::Locrian => "Locrian",
        }
    }

    /// Every scale type, in menu order.
    pub fn all() -> (all: &'static [ScaleType])
        ensures
            all@ == all_scale_types(),
    {
        &[
            ScaleType::Major,
            ScaleType::NaturalMinor,
            ScaleType::HarmonicMinor,
            ScaleType::MelodicMinor,
            ScaleType::PentatonicMajor,
            ScaleType::PentatonicMinor,
            ScaleType::Blues,
            ScaleType::WholeTone,
            ScaleType::Diminished,
            ScaleType::Dorian,
            ScaleType::Phrygian,
            ScaleType::Lydian,
            ScaleType::Mixolydian,
            ScaleType::Aeolian,
            ScaleType::Locrian,
        ]
    }
}

// ── Chord definitions ──

/// A chord quality, defined by its semitone intervals from the root.
#[derive(Debug, Clone, Copy, PartialEq, Eq, Structural)]
pub enum ChordType {
    Major,
    Minor,
    Dominant7,
    Major7,
    Minor7,
    Diminished,
    Augmented,
    Sus2,
    Sus4,
    Add9,
    Power,
}

/// Semitone intervals of a chord type, from the root upwards.
pub open spec fn chord_intervals(chord: ChordType) -> Seq<u8> {
    match chord {
        ChordType::Major => seq![0u8, 4, 7],
        ChordType::Minor => seq![0u8, 3, 7],
        ChordType::Dominant7 => seq![0u8, 4, 7, 10],
        ChordType::Major7 => seq![0u8, 4, 7, 11],
        ChordType::Minor7 => seq![0u8, 3, 7, 10],
        ChordType::Diminished => seq![0u8, 3, 6],
        ChordType::Augmented => seq![0u8, 4, 8],
        ChordType::Sus2 => seq![0u8, 2, 7],
        ChordType::Sus4 => seq![0u8, 5, 7],
        ChordType::Add9 => seq![0u8, 2, 4, 7],
        ChordType::Power => seq![0u8, 7],
    }
}

/// Symbol suffix of a chord type (after the root name).
pub open spec fn chord_suffix(chord: ChordType) -> Seq<char> {
    match chord {
        ChordType::Major => ""@,
        ChordType::Minor => "m"@,
        ChordType::Dominant7 => "7"@,
        ChordType::Major7 => "maj7"@,
        ChordType::Minor7 => "m7"@,
        ChordType::Diminished => "dim"@,
        ChordType::Augmented => "aug"@,
        ChordType::Sus2 => "sus2"@,
        ChordType::Sus4 => "sus4"@,
        ChordType::Add9 => "add9"@,
        ChordType::Power => "5"@,
    }
}

/// Every chord type, in menu order.
pub open spec fn all_chord_types() -> Seq<ChordType> {
    seq![
        ChordType::Major,
        ChordType::Minor,
        ChordType::Dominant7,
        ChordType::Major7,
        ChordType::Minor7,
        ChordType::Diminished,
        ChordType::Augmented,
        ChordType::Sus2,
        ChordType::Sus4,
        ChordType::Add9,
        ChordType::Power,
    ]
}

impl ChordType {
    /// Semitone intervals from the root.
    pub fn intervals(&self) -> (ivs: &'static [u8])
        ensures
            ivs@ == chord_intervals(*self),
    {
        match self {
            ChordType::Major => &[0, 4, 7],
            ChordType::Minor => &[0, 3, 7],
            ChordType::Dominant7 => &[0, 4, 7, 10],
            ChordType::Major7 => &[0, 4, 7, 11],
            ChordType::Minor7 => &[0, 3, 7, 10],
            ChordType::Diminished => &[0, 3, 6],
            ChordType::Augmented => &[0, 4, 8],
            ChordType::Sus2 => &[0, 2, 7],
            ChordType::Sus4 => &[0, 5, 7],
            ChordType::Add9 => &[0, 2, 4, 7],
            ChordType::Power => &[0, 7],
        }
    }

    /// Symbol suffix, e.g. "m7".
    pub fn suffix(&self) -> (suffix: &'static str)
        ensures
            suffix@ == chord_suffix(*self),
    {
        match self {
            ChordType::Major => "",
            ChordType::Minor => "m",
            ChordType::Dominant7 => "7",
            ChordType::Major7 => "maj7",
            ChordType::Minor7 => "m7",
            ChordType::Diminished => "dim",
            ChordType::Augmented => "aug",
            ChordType::Sus2 => "sus2",
            ChordType::Sus4 => "sus4",
            ChordType::Add9 => "add9",
            ChordType::Power => "5",
        }
    }

    /// Every chord type, in menu order.
    pub fn all() -> (all: &'static [ChordType])
        ensures
            all@ == all_chord_types(),
    {
        &[
            ChordType::Major,
            ChordType::Minor,
            ChordType::Dominant7,
            ChordType::Major7,
            ChordType::Minor7,
            ChordType::Diminished,
            ChordType::Augmented,
            ChordType::Sus2,
            ChordType::Sus4,
            ChordType::Add9,
            ChordType::Power,
        ]
    }
}

/// Label of a scale degree (1-based); "?" outside 1..=7.
pub open spec fn degree_text(degree: u8) -> Seq<char> {
    if 1 <= degree <= 7 { digit_text(degree as int) } else { "?"@ }
}

/// Get the scale degree label for a given degree number (1-based).
pub fn degree_label(degree: u8) -> (label: &'static str)
    ensures
        label@ == degree_text(degree),
{
    match degree {
        1 => "1",
        2 => "2",
        3 => "3",
        4 => "4",
        5 => "5",
        6 => "6",
        7 => "7",
        _ => "?",
    }
}

// ── Fretboard position mapping ──

/// Highest fret that the fretboard mappings consider.
pub const MAX_FRETS: u8 = 30;

/// One place on the fretboard where a scale or chord tone sounds.
#[derive(Debug, Clone)]
pub struct FretPosition {
    /// Guitar string (0 = lowest, N = highest)
    pub string: u8,
    /// Fret number (0 = open)
    pub fret: u8,
    /// MIDI note number
    pub midi_note: u8,
    /// Note name
    pub note_name: String,
    /// Whether this is the root of the scale/chord
    pub is_root: bool,
    /// Interval from root (semitones)
    pub interval: u8,
    /// Scale degree (1-based index in the scale, 0 if not in scale)
    pub scale_degree: u8,
}

/// A fretboard position as mathematical values.
pub struct PositionModel {
    pub string: u8,
    pub fret: u8,
    pub midi_note: u8,
    pub note_name: Seq<char>,
    pub is_root: bool,
    pub interval: u8,
    pub scale_degree: u8,
}

impl View for FretPosition {
    type V = PositionModel;

    open spec fn view(&self) -> PositionModel {
        PositionModel {
            string: self.string,
            fret: self.fret,
            midi_note: self.midi_note,
            note_name: self.note_name@,
            is_root: self.is_root,
            interval: self.interval,
            scale_degree: self.scale_degree,
        }
    }
}

/// Highest fret mapped for a requested fret count.
pub open spec fn fret_limit(num_frets: u8) -> int {
    if num_frets < MAX_FRETS { num_frets as int } else { MAX_FRETS as int }
}

/// Semitones from the root pitch class up to pitch class `pc`, as the
/// mappings compute it.
pub open spec fn interval_from_root(pc: int, root_pc: int) -> int {
    (pc + 12 - root_pc) % 12
}

/// 1-based position of `interval` in `ivs` (its first occurrence), 0 if absent.
pub open spec fn degree_of(ivs: Seq<u8>, interval: u8) -> int {
    match ivs.index_of_first(interval) {
        Some(i) => i + 1,
        None => 0,
    }
}

/// The interval of the note at `fret` on a string tuned to `open_note`.
pub open spec fn fret_interval(root_pc: u8, open_note: u8, fret: int) -> int {
    interval_from_root((open_note + fret) % 12, root_pc as int)
}

/// The position at `fret` on string `string_idx` (tuned to `open_note`).
pub open spec fn position_model(
    root_pc: u8,
    ivs: Seq<u8>,
    string_idx: int,
    open_note: u8,
    fret: int,
) -> PositionModel {
    let midi = open_note + fret;
    let interval = fret_interval(root_pc, open_note, fret);
    PositionModel {
        string: string_idx as u8,
        fret: fret as u8,
        midi_note: midi as u8,
        note_name: pitch_class_name(midi % 12),
        is_root: interval == 0,
        interval: interval as u8,
        scale_degree: degree_of(ivs, interval as u8) as u8,
    }
}

/// Positions of the tones of `ivs` on one string, over frets `0..n`, fret by fret.
pub open spec fn string_positions(
    root_pc: u8,
    ivs: Seq<u8>,
    string_idx: int,
    open_note: u8,
    n: int,
) -> Seq<PositionModel>
    decreases n,
{
    if n <= 0 {
        Seq::empty()
    } else {
        let before = string_positions(root_pc, ivs, string_idx, open_note, n - 1);
        if ivs.contains(fret_interval(root_pc, open_note, n - 1) as u8) {
            before.push(position_model(root_pc, ivs, string_idx, open_note, n - 1))
        } else {
            before
        }
    }
}

/// Positions on strings `0..k` of `notes`, string by string, over frets `0..n`.
pub open spec fn board_positions(
    root_pc: u8,
    ivs: Seq<u8>,
    notes: Seq<u8>,
    n: int,
    k: int,
) -> Seq<PositionModel>
    decreases k,
{
    if k <= 0 {
        Seq::empty()
    } else {
        board_positions(root_pc, ivs, notes, n, k - 1)
            + string_positions(root_pc, ivs, k - 1, notes[k - 1], n)
    }
}

/// Every position of the tones of `ivs` over the whole tuning, lowest string
/// first and, on each string, lowest fret first, up to `fret_limit(num_frets)`.
pub open spec fn fretboard_positions(
    root_pc: u8,
    ivs: Seq<u8>,
    notes: Seq<u8>,
    num_frets: u8,
) -> Seq<PositionModel> {
    board_positions(root_pc, ivs, notes, fret_limit(num_frets) + 1, notes.len() as int)
}

/// The mapping of a root and tuning is computable without overflow: every
/// mapped MIDI note fits in a byte, and no pitch class lies more than an
/// octave below the root.
pub open spec fn positions_computable(root_pc: u8, notes: Seq<u8>, num_frets: u8) -> bool {
    forall|s: int, f: int|
        0 <= s < notes.len() && 0 <= f <= fret_limit(num_frets)
            ==> #[trigger] fret_computable(root_pc, notes[s], f)
}

/// The note at `fret` on a string tuned to `open_note` fits in a byte, and its
/// pitch class lies no more than an octave below the root.
pub open spec fn fret_computable(root_pc: u8, open_note: u8, fret: int) -> bool {
    &&& open_note + fret <= 255
    &&& (open_note + fret) % 12 + 12 >= root_pc
}

/// First index of `x` in `ivs`, if any.
fn first_index_of(ivs: &[u8], x: u8) -> (idx: Option<usize>)
    ensures
        match idx {
            Some(i) => i < ivs.len() && ivs@.index_of_first(x) == Some(i as int),
            None => ivs@.index_of_first(x) is None,
        },
{
    let mut i: usize = 0;
    while i < ivs.len()
        invariant
            0 <= i <= ivs@.len(),
            forall|k: int| 0 <= k < i ==> ivs@[k] != x,
        decreases ivs@.len() - i,
    {
        if ivs[i] == x {
            proof {
                ivs@.index_of_first_ensures(x);
            }
            return Some(i);
        }
        i = i + 1;
    }
    proof {
        ivs@.index_of_first_ensures(x);
    }
    None
}

proof fn lemma_map_push(s: Seq<FretPosition>, p: FretPosition)
    ensures
        s.push(p).map_values(|q: FretPosition| q@) == s.map_values(|q: FretPosition| q@).push(p@),
{
    assert(s.push(p).map_values(|q: FretPosition| q@) =~= s.map_values(|q: FretPosition| q@).push(p@));
}

/// Map a set of intervals over a root onto the fretboard.
fn map_intervals(root_pc: u8, intervals: &[u8], tuning: &Tuning, num_frets: u8) -> (positions: Vec<FretPosition>)
    requires
        positions_computable(root_pc, tuning.notes@, num_frets),
    ensures
        positions@.map_values(|p: FretPosition| p@)
            == fretboard_positions(root_pc, intervals@, tuning.notes@, num_frets),
{
    let max_fret: u8 = if num_frets < MAX_FRETS { num_frets } else { MAX_FRETS };
    let ghost ivs = intervals@;
    let ghost notes = tuning.notes@;
    let ghost n = fret_limit(num_frets) + 1;
    let mut positions: Vec<FretPosition> = Vec::new();
    let mut string_idx: usize = 0;
    while string_idx < tuning.notes.len()
        invariant
            0 <= string_idx <= notes.len(),
            notes == tuning.notes@,
            ivs == intervals@,
            max_fret == fret_limit(num_frets),
            n == max_fret + 1,
            positions_computable(root_pc, notes, num_frets),
            positions@.map_values(|p: FretPosition| p@)
                == board_positions(root_pc, ivs, notes, n, string_idx as int),
        decreases notes.len() - string_idx,
    {
        let open_note = tuning.notes[string_idx];
        let ghost before = positions@.map_values(|p: FretPosition| p@);
        let mut fret: u8 = 0;
        while fret <= max_fret
            invariant
                0 <= string_idx < notes.len(),
                notes == tuning.notes@,
                ivs == intervals@,
                open_note == notes[string_idx as int],
                max_fret == fret_limit(num_frets),
                max_fret <= MAX_FRETS,
                fret <= max_fret + 1,
                positions_computable(root_pc, notes, num_frets),
                before == board_positions(root_pc, ivs, notes, n, string_idx as int),
                positions@.map_values(|p: FretPosition| p@)
                    == before + string_positions(root_pc, ivs, string_idx as int, open_note, fret as int),
            decreases max_fret + 1 - fret,
        {
            assert(fret_computable(root_pc, notes[string_idx as int], fret as int));
            let midi = open_note + fret;
            let pc = midi % 12;
            let interval_from_root = (pc + 12 - root_pc) % 12;
            let found = first_index_of(intervals, interval_from_root);
            proof {
                ivs.index_of_first_ensures(interval_from_root);
            }
            match found {
                Some(d) => {
                    let pos = FretPosition {
                        string: #[verifier::truncate] (string_idx as u8),
                        fret,
                        midi_note: midi,
                        note_name: String::from_str(note_name(midi)),
                        is_root: interval_from_root == 0,
                        interval: interval_from_root,
                        scale_degree: #[verifier::truncate] ((d + 1) as u8),
                    };
                    proof {
                        lemma_map_push(positions@, pos);
                        assert(pos@ == position_model(root_pc, ivs, string_idx as int, open_note, fret as int));
                    }
                    positions.push(pos);
                    proof {
                        assert(before + string_positions(root_pc, ivs, string_idx as int, open_note, fret + 1)
                            =~= (before + string_positions(root_pc, ivs, string_idx as int, open_note, fret as int)).push(pos@));
                    }
                },
                None => {},
            }
            fret = fret + 1;
        }
        proof {
            assert(board_positions(root_pc, ivs, notes, n, string_idx + 1)
                == before + string_positions(root_pc, ivs, string_idx as int, open_note, n));
        }
        string_idx = string_idx + 1;
    }
    positions
}

/// Map a scale onto the fretboard, returning all positions where scale tones appear.
pub fn scale_positions(root_pc: u8, scale: ScaleType, tuning: &Tuning, num_frets: u8) -> (positions: Vec<FretPosition>)
    requires
        positions_computable(root_pc, tuning.notes@, num_frets),
    ensures
        positions@.map_values(|p: FretPosition| p@)
            == fretboard_positions(root_pc, scale_intervals(scale), tuning.notes@, num_frets),
{
    map_intervals(root_pc, scale.intervals(), tuning, num_frets)
}

/// Map a chord onto the fretboard.
pub fn chord_positions(root_pc: u8, chord: ChordType, tuning: &Tuning, num_frets: u8) -> (positions: Vec<FretPosition>)
    requires
        positions_computable(root_pc, tuning.notes@, num_frets),
    ensures
        positions@.map_values(|p: FretPosition| p@)
            == fretboard_positions(root_pc, chord_intervals(chord), tuning.notes@, num_frets),
{
    map_intervals(root_pc, chord.intervals(), tuning, num_frets)
}

// ── Chord voicings ──

/// Common open/barre chord voicings for guitar.
/// Each voicing is a fret for each of the 6 strings of standard tuning
/// (low E to high E); -1 means the string is muted/not played.
#[derive(Debug, Clone)]
pub struct ChordVoicing {
    pub name: String,
    pub chord_type: ChordType,
    /// Fret for each string (low E to high E). -1 = muted.
    pub frets: [i8; 6],
    /// Root note pitch class
    pub root_pc: u8,
}

/// A chord voicing as mathematical values.
pub struct VoicingModel {
    pub name: Seq<char>,
    pub chord_type: ChordType,
    pub frets: Seq<i8>,
    pub root_pc: u8,
}

impl View for ChordVoicing {
    type V = VoicingModel;

    open spec fn view(&self) -> VoicingModel {
        VoicingModel {
            name: self.name@,
            chord_type: self.chord_type,
            frets: self.frets@,
            root_pc: self.root_pc,
        }
    }
}

/// Fret of the root on the low E string (pitch class 4).
pub open spec fn e_root_fret(root_pc: u8) -> i8 {
    ((root_pc + 8) % 12) as i8
}

/// Fret of the root on the A string (pitch class 9).
pub open spec fn a_root_fret(root_pc: u8) -> i8 {
    ((root_pc + 3) % 12) as i8
}

/// Name of a voicing: root name, chord suffix, and the shape it is played with.
pub open spec fn voicing_name(root_pc: u8, chord_type: ChordType, shape: Seq<char>) -> Seq<char> {
    pitch_class_name(root_pc as int) + chord_suffix(chord_type) + shape
}

/// A voicing of `chord_type` over `root_pc` with the given frets.
pub open spec fn voicing_model(root_pc: u8, chord_type: ChordType, shape: Seq<char>, frets: Seq<i8>) -> VoicingModel {
    VoicingModel { name: voicing_name(root_pc, chord_type, shape), chord_type, frets, root_pc }
}

/// The voicings `common_voicings` gives, in order: E-shape barre chords,
/// then A-shape barre chords, then the E-shape power chord.
pub open spec fn voicings_of(root_pc: u8, chord_type: ChordType) -> Seq<VoicingModel> {
    let e = e_root_fret(root_pc);
    let a = a_root_fret(root_pc);
    let e_shape = " (E shape)"@;
    let a_shape = " (A shape)"@;
    match chord_type {
        ChordType::Major => seq![
            voicing_model(root_pc, chord_type, e_shape, seq![e, (e + 2) as i8, (e + 2) as i8, (e + 1) as i8, e, e]),
            voicing_model(root_pc, chord_type, a_shape, seq![-1i8, a, (a + 2) as i8, (a + 2) as i8, (a + 2) as i8, a]),
        ],
        ChordType::Minor => seq![
            voicing_model(root_pc, chord_type, e_shape, seq![e, (e + 2) as i8, (e + 2) as i8, e, e, e]),
            voicing_model(root_pc, chord_type, a_shape, seq![-1i8, a, (a + 2) as i8, (a + 2) as i8, (a + 1) as i8, a]),
        ],
        ChordType::Power => seq![
            voicing_model(root_pc, chord_type, a_shape, seq![-1i8, a, (a + 2) as i8, (a + 2) as i8, -1i8, -1i8]),
            voicing_model(root_pc, chord_type, e_shape, seq![e, (e + 2) as i8, (e + 2) as i8, -1i8, -1i8, -1i8]),
        ],
        _ => Seq::empty(),
    }
}

fn voicing(root_name: &str, chord_type: ChordType, shape: &str, frets: [i8; 6], root_pc: u8) -> (v: ChordVoicing)
    ensures
        v.name@ == root_name@ + chord_suffix(chord_type) + shape@,
        v.chord_type == chord_type,
        v.frets@ == frets@,
        v.root_pc == root_pc,
{
    let mut name = String::from_str(root_name);
    name.append(chord_type.suffix());
    name.append(shape);
    ChordVoicing { name, chord_type, frets, root_pc }
}

proof fn lemma_map_push_voicing(s: Seq<ChordVoicing>, v: ChordVoicing)
    ensures
        s.push(v).map_values(|q: ChordVoicing| q@) == s.map_values(|q: ChordVoicing| q@).push(v@),
{
    assert(s.push(v).map_values(|q: ChordVoicing| q@) =~= s.map_values(|q: ChordVoicing| q@).push(v@));
}

/// Get common voicings for a given root and chord type.
/// These are standard guitar chord shapes transposed to the requested root.
pub fn common_voicings(root_pc: u8, chord_type: ChordType) -> (voicings: Vec<ChordVoicing>)
    requires
        root_pc < 12,
    ensures
        voicings@.map_values(|v: ChordVoicing| v@) == voicings_of(root_pc, chord_type),
{
    let root_name = note_name(root_pc);
    let mut voicings: Vec<ChordVoicing> = Vec::new();
    let ghost e_shape = " (E shape)"@;
    let ghost a_shape = " (A shape)"@;

    // E-shape barre chord (root on 6th string); E is pitch class 4
    let e_string_root_fret: i8 = (root_pc as i8 - 4 + 12) % 12;
    assert(e_string_root_fret == e_root_fret(root_pc));
    match chord_type {
        ChordType::Major => {
            let f = e_string_root_fret;
            let v = voicing(root_name, chord_type, " (E shape)", [f, f + 2, f + 2, f + 1, f, f], root_pc);
            proof { lemma_map_push_voicing(voicings@, v); }
            voicings.push(v);
        },
        ChordType::Minor => {
            let f = e_string_root_fret;
            let v = voicing(root_name, chord_type, " (E shape)", [f, f + 2, f + 2, f, f, f], root_pc);
            proof { lemma_map_push_voicing(voicings@, v); }
            voicings.push(v);
        },
        _ => {},
    }

    // A-shape barre chord (root on 5th string); A is pitch class 9
    let a_string_root_fret: i8 = (root_pc as i8 - 9 + 12) % 12;
    assert(a_string_root_fret == a_root_fret(root_pc));
    match chord_type {
        ChordType::Major => {
            let f = a_string_root_fret;
            let v = voicing(root_name, chord_type, " (A shape)", [-1, f, f + 2, f + 2, f + 2, f], root_pc);
            proof { lemma_map_push_voicing(voicings@, v); }
            voicings.push(v);
        },
        ChordType::Minor => {
            let f = a_string_root_fret;
            let v = voicing(root_name, chord_type, " (A shape)", [-1, f, f + 2, f + 2, f + 1, f], root_pc);
            proof { lemma_map_push_voicing(voicings@, v); }
            voicings.push(v);
        },
        ChordType::Power => {
            let f = a_string_root_fret;
            let v = voicing(root_name, chord_type, " (A shape)", [-1, f, f + 2, f + 2, -1, -1], root_pc);
            proof { lemma_map_push_voicing(voicings@, v); }
            voicings.push(v);
        },
        _ => {},
    }

    // E-shape power chord (root on 6th string)
    if chord_type == ChordType::Power {
        let f = e_string_root_fret;
        let v = voicing(root_name, chord_type, " (E shape)", [f, f + 2, f + 2, -1, -1, -1], root_pc);
        proof { lemma_map_push_voicing(voicings@, v); }
        voicings.push(v);
    }
    proof {
        assert(voicings@.map_values(|v: ChordVoicing| v@) =~= voicings_of(root_pc, chord_type));
    }
    voicings
}

// ── Laws ──

/// Interval data is well formed: it starts at the root (0), rises strictly,
/// and stays within one octave (every entry is a pitch class 0-11).
pub open spec fn intervals_well_formed(ivs: Seq<u8>) -> bool {
    &&& ivs.len() > 0
    &&& ivs[0] == 0
    &&& forall|i: int, j: int| 0 <= i < j < ivs.len() ==> ivs[i] < ivs[j]
    &&& forall|i: int| 0 <= i < ivs.len() ==> ivs[i] < 12
}

/// Every scale's intervals start at the root, rise strictly and stay below
/// an octave.
pub proof fn lemma_scale_intervals_well_formed(scale: ScaleType)
    ensures
        intervals_well_formed(scale_intervals(scale)),
{
}

/// Every chord's intervals start at the root, rise strictly and stay below
/// an octave.
pub proof fn lemma_chord_intervals_well_formed(chord: ChordType)
    ensures
        intervals_well_formed(chord_intervals(chord)),
{
}

/// The `k`-th mode of a scale: the same notes, read from its `k`-th degree.
pub open spec fn mode_of(ivs: Seq<u8>, k: int) -> Seq<u8> {
    Seq::new(ivs.len(), |i: int| ((ivs[(i + k) % (ivs.len() as int)] + 12 - ivs[k]) % 12) as u8)
}

/// The modes of the major scale, from Ionian (the major scale itself) to Locrian.
pub open spec fn major_mode(k: int) -> ScaleType {
    if k == 0 { ScaleType::Major }
    else if k == 1 { ScaleType::Dorian }
    else if k == 2 { ScaleType::Phrygian }
    else if k == 3 { ScaleType::Lydian }
    else if k == 4 { ScaleType::Mixolydian }
    else if k == 5 { ScaleType::Aeolian }
    else { ScaleType::Locrian }
}

/// The Dorian, Phrygian, Lydian, Mixolydian, Aeolian and Locrian scales are
/// the modes of the major scale: the major scale read from its 2nd to 7th degree.
#[verifier::spinoff_prover]
pub proof fn lemma_major_modes(k: int)
    requires
        0 <= k < 7,
    ensures
        scale_intervals(major_mode(k)) == mode_of(scale_intervals(ScaleType::Major), k),
{
    let major = scale_intervals(ScaleType::Major);
    if k == 0 {
        assert(scale_intervals(ScaleType::Major) =~= mode_of(major, 0));
    } else if k == 1 {
        assert(scale_intervals(ScaleType::Dorian) =~= mode_of(major, 1));
    } else if k == 2 {
        assert(scale_intervals(ScaleType::Phrygian) =~= mode_of(major, 2));
    } else if k == 3 {
        assert(scale_intervals(ScaleType::Lydian) =~= mode_of(major, 3));
    } else if k == 4 {
        assert(scale_intervals(ScaleType::Mixolydian) =~= mode_of(major, 4));
    } else if k == 5 {
        assert(scale_intervals(ScaleType::Aeolian) =~= mode_of(major, 5));
    } else {
        assert(scale_intervals(ScaleType::Locrian) =~= mode_of(major, 6));
    }
}

/// The Aeolian mode is the natural minor scale.
pub proof fn lemma_aeolian_is_natural_minor()
    ensures
        scale_intervals(ScaleType::Aeolian) == scale_intervals(ScaleType::NaturalMinor),
{
}

/// Every preset tuning lists its strings from low to high.
pub proof fn lemma_presets_low_to_high(t: int, i: int, j: int)
    requires
        0 <= t < preset_notes().len(),
        0 <= i < j < preset_notes()[t].len(),
    ensures
        preset_notes()[t][i] < preset_notes()[t][j],
{
}

/// `p` is the position at its own fret, below `n`, on string `s` tuned to
/// `open_note`, and that fret sounds a tone of `ivs`.
pub open spec fn on_string(root_pc: u8, ivs: Seq<u8>, s: int, open_note: u8, n: int, p: PositionModel) -> bool {
    &&& 0 <= p.fret < n
    &&& ivs.contains(fret_interval(root_pc, open_note, p.fret as int) as u8)
    &&& p == position_model(root_pc, ivs, s, open_note, p.fret as int)
}

proof fn lemma_string_positions_sound(root_pc: u8, ivs: Seq<u8>, s: int, open_note: u8, n: int)
    requires
        n <= 256,
    ensures
        forall|i: int| 0 <= i < string_positions(root_pc, ivs, s, open_note, n).len() ==>
            on_string(root_pc, ivs, s, open_note, n, #[trigger] string_positions(root_pc, ivs, s, open_note, n)[i]),
    decreases n,
{
    if n > 0 {
        lemma_string_positions_sound(root_pc, ivs, s, open_note, n - 1);
        let before = string_positions(root_pc, ivs, s, open_note, n - 1);
        let all = string_positions(root_pc, ivs, s, open_note, n);
        assert forall|i: int| 0 <= i < all.len() implies on_string(root_pc, ivs, s, open_note, n, #[trigger] all[i]) by {
            if i < before.len() {
                assert(all[i] == before[i]);
                assert(on_string(root_pc, ivs, s, open_note, n - 1, before[i]));
            } else {
                assert(all[i] == position_model(root_pc, ivs, s, open_note, n - 1));
            }
        }
    }
}

proof fn lemma_string_positions_complete(root_pc: u8, ivs: Seq<u8>, s: int, open_note: u8, n: int, f: int)
    requires
        0 <= f < n,
        ivs.contains(fret_interval(root_pc, open_note, f) as u8),
    ensures
        exists|i: int| 0 <= i < string_positions(root_pc, ivs, s, open_note, n).len()
            && #[trigger] string_positions(root_pc, ivs, s, open_note, n)[i]
                == position_model(root_pc, ivs, s, open_note, f),
    decreases n,
{
    let all = string_positions(root_pc, ivs, s, open_note, n);
    let before = string_positions(root_pc, ivs, s, open_note, n - 1);
    if f < n - 1 {
        lemma_string_positions_complete(root_pc, ivs, s, open_note, n - 1, f);
        let i = choose|i: int| 0 <= i < before.len() && before[i] == position_model(root_pc, ivs, s, open_note, f);
        assert(all[i] == before[i]);
    } else {
        assert(all[before.len() as int] == position_model(root_pc, ivs, s, open_note, f));
    }
}

/// The `i`-th position of `board_positions` lies on one of the first `k` strings.
pub open spec fn on_board(root_pc: u8, ivs: Seq<u8>, notes: Seq<u8>, n: int, k: int, p: PositionModel) -> bool {
    exists|s: int| 0 <= s < k && #[trigger] on_string(root_pc, ivs, s, notes[s], n, p)
}

proof fn lemma_board_positions_sound(root_pc: u8, ivs: Seq<u8>, notes: Seq<u8>, n: int, k: int)
    requires
        k <= notes.len(),
        n <= 256,
    ensures
        forall|i: int| 0 <= i < board_positions(root_pc, ivs, notes, n, k).len() ==>
            on_board(root_pc, ivs, notes, n, k, #[trigger] board_positions(root_pc, ivs, notes, n, k)[i]),
    decreases k,
{
    if k > 0 {
        lemma_board_positions_sound(root_pc, ivs, notes, n, k - 1);
        let sk = k - 1;
        lemma_string_positions_sound(root_pc, ivs, sk, notes[sk], n);
        let before = board_positions(root_pc, ivs, notes, n, k - 1);
        let last = string_positions(root_pc, ivs, sk, notes[sk], n);
        let all = board_positions(root_pc, ivs, notes, n, k);
        assert forall|i: int| 0 <= i < all.len() implies on_board(root_pc, ivs, notes, n, k, #[trigger] all[i]) by {
            if i < before.len() {
                assert(all[i] == before[i]);
                assert(on_board(root_pc, ivs, notes, n, k - 1, before[i]));
                let s = choose|s: int| 0 <= s < k - 1 && #[trigger] on_string(root_pc, ivs, s, notes[s], n, before[i]);
                assert(on_string(root_pc, ivs, s, notes[s], n, all[i]));
            } else {
                let j = i - before.len();
                assert(all[i] == last[j]);
                assert(on_string(root_pc, ivs, sk, notes[sk], n, last[j]));
                assert(on_string(root_pc, ivs, sk, notes[sk], n, all[i]));
            }
        }
    }
}

proof fn lemma_board_positions_complete(root_pc: u8, ivs: Seq<u8>, notes: Seq<u8>, n: int, k: int, s: int, f: int)
    requires
        k <= notes.len(),
        0 <= s < k,
        0 <= f < n,
        ivs.contains(fret_interval(root_pc, notes[s], f) as u8),
    ensures
        exists|i: int| 0 <= i < board_positions(root_pc, ivs, notes, n, k).len()
            && #[trigger] board_positions(root_pc, ivs, notes, n, k)[i]
                == position_model(root_pc, ivs, s, notes[s], f),
    decreases k,
{
    let before = board_positions(root_pc, ivs, notes, n, k - 1);
    let all = board_positions(root_pc, ivs, notes, n, k);
    if s < k - 1 {
        lemma_board_positions_complete(root_pc, ivs, notes, n, k - 1, s, f);
        let i = choose|i: int| 0 <= i < before.len() && before[i] == position_model(root_pc, ivs, s, notes[s], f);
        assert(all[i] == before[i]);
    } else {
        lemma_string_positions_complete(root_pc, ivs, s, notes[s], n, f);
        let last = string_positions(root_pc, ivs, s, notes[s], n);
        let j = choose|j: int| 0 <= j < last.len() && last[j] == position_model(root_pc, ivs, s, notes[s], f);
        assert(all[before.len() + j] == last[j]);
    }
}

/// What holds of each position that a fretboard mapping gives: it lies on a
/// string of the tuning, within the fret limit, sounds the open note plus its
/// fret, its interval from the root is one of `ivs`, it is marked as root
/// exactly when that interval is 0, it is named after its pitch class, and
/// its degree is the 1-based place of its interval in `ivs`.
pub open spec fn position_sound(root_pc: u8, ivs: Seq<u8>, notes: Seq<u8>, num_frets: u8, p: PositionModel) -> bool {
    &&& exists|s: int| #![trigger notes[s]] 0 <= s < notes.len() && p.string == s as u8 && p.midi_note == notes[s] + p.fret
    &&& p.fret <= fret_limit(num_frets)
    &&& p.interval == interval_from_root((p.midi_note % 12) as int, root_pc as int)
    &&& ivs.contains(p.interval)
    &&& p.is_root == (p.interval == 0)
    &&& p.note_name == pitch_class_name((p.midi_note % 12) as int)
    &&& p.scale_degree == degree_of(ivs, p.interval) as u8
}

/// Soundness of the fretboard mapping: every position it gives is a tone of
/// the scale or chord at a real place on the board (see `position_sound`).
pub proof fn lemma_fretboard_positions_sound(root_pc: u8, ivs: Seq<u8>, notes: Seq<u8>, num_frets: u8)
    requires
        positions_computable(root_pc, notes, num_frets),
    ensures
        forall|i: int| 0 <= i < fretboard_positions(root_pc, ivs, notes, num_frets).len() ==>
            position_sound(root_pc, ivs, notes, num_frets, #[trigger] fretboard_positions(root_pc, ivs, notes, num_frets)[i]),
{
    let n = fret_limit(num_frets) + 1;
    let all = fretboard_positions(root_pc, ivs, notes, num_frets);
    lemma_board_positions_sound(root_pc, ivs, notes, n, notes.len() as int);
    assert forall|i: int| 0 <= i < all.len() implies position_sound(root_pc, ivs, notes, num_frets, #[trigger] all[i]) by {
        assert(on_board(root_pc, ivs, notes, n, notes.len() as int, all[i]));
        let s = choose|s: int| 0 <= s < notes.len() && #[trigger] on_string(root_pc, ivs, s, notes[s], n, all[i]);
        let p = all[i];
        assert(fret_computable(root_pc, notes[s], p.fret as int));
        assert(p.midi_note == notes[s] + p.fret);
    }
}

/// Completeness of the fretboard mapping: every place on the board, within
/// the fret limit, whose note is a tone of the scale or chord is given.
pub proof fn lemma_fretboard_positions_complete(root_pc: u8, ivs: Seq<u8>, notes: Seq<u8>, num_frets: u8, s: int, f: int)
    requires
        0 <= s < notes.len(),
        0 <= f <= fret_limit(num_frets),
        ivs.contains(fret_interval(root_pc, notes[s], f) as u8),
    ensures
        exists|i: int| 0 <= i < fretboard_positions(root_pc, ivs, notes, num_frets).len()
            && #[trigger] fretboard_positions(root_pc, ivs, notes, num_frets)[i]
                == position_model(root_pc, ivs, s, notes[s], f),
{
    let n = fret_limit(num_frets) + 1;
    lemma_board_positions_complete(root_pc, ivs, notes, n, notes.len() as int, s, f);
    let all = board_positions(root_pc, ivs, notes, n, notes.len() as int);
    let i = choose|i: int| 0 <= i < all.len() && all[i] == position_model(root_pc, ivs, s, notes[s], f);
    assert(fretboard_positions(root_pc, ivs, notes, num_frets)[i] == position_model(root_pc, ivs, s, notes[s], f));
}

/// Every position marked as a root carries the root's note name.
pub proof fn lemma_root_positions_named_after_root(root_pc: u8, ivs: Seq<u8>, notes: Seq<u8>, num_frets: u8, i: int)
    requires
        root_pc < 12,
        positions_computable(root_pc, notes, num_frets),
        0 <= i < fretboard_positions(root_pc, ivs, notes, num_frets).len(),
        fretboard_positions(root_pc, ivs, notes, num_frets)[i].is_root,
    ensures
        fretboard_positions(root_pc, ivs, notes, num_frets)[i].note_name == pitch_class_name(root_pc as int),
        fretboard_positions(root_pc, ivs, notes, num_frets)[i].midi_note % 12 == root_pc,
{
    lemma_fretboard_positions_sound(root_pc, ivs, notes, num_frets);
    let p = fretboard_positions(root_pc, ivs, notes, num_frets)[i];
    assert(position_sound(root_pc, ivs, notes, num_frets, p));
}

/// Standard guitar tuning (E A D G B E), the tuning the voicings are shaped for.
pub open spec fn standard_tuning() -> Seq<u8> {
    preset_notes()[0]
}

/// Pitch class `pc` is a tone of `chord` built on `root_pc`.
pub open spec fn is_chord_tone(root_pc: u8, chord: ChordType, pc: int) -> bool {
    chord_intervals(chord).contains(interval_from_root(pc, root_pc as int) as u8)
}

/// Each voicing frets all six strings of a standard-tuned guitar (-1 = muted),
/// within the first 13 frets, and every string it plays sounds a tone of the
/// chord.
pub proof fn lemma_voicings_sound(root_pc: u8, chord_type: ChordType, v: int, s: int)
    requires
        root_pc < 12,
        0 <= v < voicings_of(root_pc, chord_type).len(),
        0 <= s < 6,
    ensures
        voicings_of(root_pc, chord_type)[v].frets.len() == 6,
        -1 <= voicings_of(root_pc, chord_type)[v].frets[s] <= 13,
        voicings_of(root_pc, chord_type)[v].frets[s] >= 0 ==> is_chord_tone(
            root_pc,
            chord_type,
            (standard_tuning()[s] + voicings_of(root_pc, chord_type)[v].frets[s]) % 12,
        ),
{
}

/// The lowest string that a voicing plays sounds the chord's root.
pub proof fn lemma_voicings_rooted(root_pc: u8, chord_type: ChordType, v: int)
    requires
        root_pc < 12,
        0 <= v < voicings_of(root_pc, chord_type).len(),
    ensures
        ({
            let frets = voicings_of(root_pc, chord_type)[v].frets;
            let low = if frets[0] >= 0 { 0int } else { 1int };
            &&& frets[low] >= 0
            &&& (standard_tuning()[low] + frets[low]) % 12 == root_pc
        }),
{
}

/// Barre-chord voicings exist exactly for major, minor and power chords.
pub proof fn lemma_voicings_exist(root_pc: u8, chord_type: ChordType)
    ensures
        (voicings_of(root_pc, chord_type).len() > 0) == (chord_type == ChordType::Major
            || chord_type == ChordType::Minor || chord_type == ChordType::Power),
{
}

// ── How the mapping depends on the fret count and on the intervals ──

/// Positions on a fret below `n`.
pub open spec fn below_fret(n: int) -> spec_fn(PositionModel) -> bool {
    |p: PositionModel| (p.fret as int) < n
}

proof fn lemma_filter_push<A>(s: Seq<A>, x: A, pred: spec_fn(A) -> bool)
    ensures
        s.push(x).filter(pred) == (if pred(x) { s.filter(pred).push(x) } else { s.filter(pred) }),
{
    reveal(Seq::filter);
    assert(s.push(x).drop_last() =~= s);
}

proof fn lemma_filter_keeps_all<A>(s: Seq<A>, pred: spec_fn(A) -> bool)
    requires
        forall|i: int| 0 <= i < s.len() ==> pred(#[trigger] s[i]),
    ensures
        s.filter(pred) == s,
    decreases s.len(),
{
    reveal(Seq::filter);
    if s.len() > 0 {
        let prev = s.drop_last();
        assert forall|i: int| 0 <= i < prev.len() implies pred(#[trigger] prev[i]) by {
            assert(prev[i] == s[i]);
        }
        lemma_filter_keeps_all(prev, pred);
        assert(s.filter(pred) =~= prev.push(s.last()));
        assert(prev.push(s.last()) =~= s);
    }
}

proof fn lemma_string_positions_fewer_frets(root_pc: u8, ivs: Seq<u8>, s: int, open_note: u8, a: int, b: int)
    requires
        0 <= a <= b <= 256,
    ensures
        string_positions(root_pc, ivs, s, open_note, a)
            == string_positions(root_pc, ivs, s, open_note, b).filter(below_fret(a)),
    decreases b,
{
    if b == a {
        lemma_string_positions_sound(root_pc, ivs, s, open_note, a);
        let sp = string_positions(root_pc, ivs, s, open_note, a);
        assert forall|i: int| 0 <= i < sp.len() implies below_fret(a)(#[trigger] sp[i]) by {
            assert(on_string(root_pc, ivs, s, open_note, a, sp[i]));
        }
        lemma_filter_keeps_all(sp, below_fret(a));
    } else {
        lemma_string_positions_fewer_frets(root_pc, ivs, s, open_note, a, b - 1);
        let prev = string_positions(root_pc, ivs, s, open_note, b - 1);
        let x = position_model(root_pc, ivs, s, open_note, b - 1);
        lemma_filter_push(prev, x, below_fret(a));
    }
}

proof fn lemma_board_positions_fewer_frets(root_pc: u8, ivs: Seq<u8>, notes: Seq<u8>, a: int, b: int, k: int)
    requires
        0 <= a <= b <= 256,
        k <= notes.len(),
    ensures
        board_positions(root_pc, ivs, notes, a, k) == board_positions(root_pc, ivs, notes, b, k).filter(below_fret(a)),
    decreases k,
{
    reveal(Seq::filter);
    if k > 0 {
        lemma_board_positions_fewer_frets(root_pc, ivs, notes, a, b, k - 1);
        lemma_string_positions_fewer_frets(root_pc, ivs, k - 1, notes[k - 1], a, b);
        Seq::filter_distributes_over_add(
            board_positions(root_pc, ivs, notes, b, k - 1),
            string_positions(root_pc, ivs, k - 1, notes[k - 1], b),
            below_fret(a),
        );
    }
}

/// A smaller fret count keeps, in order, exactly the positions of a larger
/// one that lie at or below its fret limit; from `MAX_FRETS` frets up the
/// mapping no longer changes.
pub proof fn lemma_fewer_frets_keep_prefix(root_pc: u8, ivs: Seq<u8>, notes: Seq<u8>, n1: u8, n2: u8)
    requires
        n1 <= n2,
    ensures
        fretboard_positions(root_pc, ivs, notes, n1)
            == fretboard_positions(root_pc, ivs, notes, n2).filter(below_fret(fret_limit(n1) + 1)),
        n1 >= MAX_FRETS ==> fretboard_positions(root_pc, ivs, notes, n1) == fretboard_positions(root_pc, ivs, notes, n2),
        n2 >= MAX_FRETS ==> fretboard_positions(root_pc, ivs, notes, n2) == fretboard_positions(root_pc, ivs, notes, MAX_FRETS),
{
    lemma_board_positions_fewer_frets(
        root_pc,
        ivs,
        notes,
        fret_limit(n1) + 1,
        fret_limit(n2) + 1,
        notes.len() as int,
    );
}

/// A position with its degree left out: where it is and what it sounds.
pub open spec fn without_degree(p: PositionModel) -> PositionModel {
    PositionModel { scale_degree: 0, ..p }
}

/// Positions whose interval is one of `ivs`.
pub open spec fn tone_of(ivs: Seq<u8>) -> spec_fn(PositionModel) -> bool {
    |p: PositionModel| ivs.contains(p.interval)
}

/// Positions with their degrees left out.
pub open spec fn places(ps: Seq<PositionModel>) -> Seq<PositionModel> {
    ps.map_values(|p: PositionModel| without_degree(p))
}

proof fn lemma_places_push(ps: Seq<PositionModel>, p: PositionModel)
    ensures
        places(ps.push(p)) == places(ps).push(without_degree(p)),
{
    assert(places(ps.push(p)) =~= places(ps).push(without_degree(p)));
}

proof fn lemma_places_add(a: Seq<PositionModel>, b: Seq<PositionModel>)
    ensures
        places(a + b) == places(a) + places(b),
{
    assert(places(a + b) =~= places(a) + places(b));
}

proof fn lemma_string_chord_in_scale(root_pc: u8, civs: Seq<u8>, sivs: Seq<u8>, s: int, open_note: u8, n: int)
    requires
        forall|x: u8| civs.contains(x) ==> sivs.contains(x),
    ensures
        places(string_positions(root_pc, civs, s, open_note, n))
            == places(string_positions(root_pc, sivs, s, open_note, n).filter(tone_of(civs))),
    decreases n,
{
    reveal(Seq::filter);
    if n > 0 {
        lemma_string_chord_in_scale(root_pc, civs, sivs, s, open_note, n - 1);
        let cprev = string_positions(root_pc, civs, s, open_note, n - 1);
        let sprev = string_positions(root_pc, sivs, s, open_note, n - 1);
        let x = position_model(root_pc, sivs, s, open_note, n - 1);
        let y = position_model(root_pc, civs, s, open_note, n - 1);
        let iv = fret_interval(root_pc, open_note, n - 1) as u8;
        assert(without_degree(x) == without_degree(y));
        assert(x.interval == iv);
        if civs.contains(iv) {
            assert(sivs.contains(iv));
            lemma_filter_push(sprev, x, tone_of(civs));
            lemma_places_push(cprev, y);
            lemma_places_push(sprev.filter(tone_of(civs)), x);
        } else if sivs.contains(iv) {
            lemma_filter_push(sprev, x, tone_of(civs));
        }
    }
}

proof fn lemma_board_chord_in_scale(root_pc: u8, civs: Seq<u8>, sivs: Seq<u8>, notes: Seq<u8>, n: int, k: int)
    requires
        forall|x: u8| civs.contains(x) ==> sivs.contains(x),
        k <= notes.len(),
    ensures
        places(board_positions(root_pc, civs, notes, n, k))
            == places(board_positions(root_pc, sivs, notes, n, k).filter(tone_of(civs))),
    decreases k,
{
    reveal(Seq::filter);
    if k > 0 {
        lemma_board_chord_in_scale(root_pc, civs, sivs, notes, n, k - 1);
        lemma_string_chord_in_scale(root_pc, civs, sivs, k - 1, notes[k - 1], n);
        let cb = board_positions(root_pc, civs, notes, n, k - 1);
        let cs = string_positions(root_pc, civs, k - 1, notes[k - 1], n);
        let sb = board_positions(root_pc, sivs, notes, n, k - 1);
        let ss = string_positions(root_pc, sivs, k - 1, notes[k - 1], n);
        Seq::filter_distributes_over_add(sb, ss, tone_of(civs));
        lemma_places_add(cb, cs);
        lemma_places_add(sb.filter(tone_of(civs)), ss.filter(tone_of(civs)));
    }
}

/// For a chord whose intervals all lie in a scale, the chord's positions are,
/// in order and in everything but their degree, the scale's positions whose
/// interval is a chord tone.
pub proof fn lemma_chord_positions_within_scale(root_pc: u8, chord: ChordType, scale: ScaleType, notes: Seq<u8>, num_frets: u8)
    requires
        forall|x: u8| chord_intervals(chord).contains(x) ==> scale_intervals(scale).contains(x),
    ensures
        places(fretboard_positions(root_pc, chord_intervals(chord), notes, num_frets))
            == places(fretboard_positions(root_pc, scale_intervals(scale), notes, num_frets).filter(
                tone_of(chord_intervals(chord)),
            )),
{
    lemma_board_chord_in_scale(
        root_pc,
        chord_intervals(chord),
        scale_intervals(scale),
        notes,
        fret_limit(num_frets) + 1,
        notes.len() as int,
    );
}

// ── The tables, from music theory ──

/// `ivs` is the scale whose successive degrees lie `steps` semitones apart:
/// it starts at the root, each degree is the previous one plus its step, and
/// the last step returns to the octave.
pub open spec fn has_steps(ivs: Seq<u8>, steps: Seq<int>) -> bool {
    &&& ivs.len() == steps.len()
    &&& ivs.len() > 0
    &&& ivs[0] == 0
    &&& forall|i: int| 0 <= i < ivs.len() - 1 ==> #[trigger] ivs[i + 1] == ivs[i] + steps[i]
    &&& ivs.last() + steps.last() == 12
}

/// The degrees of `ivs` at the (0-based) positions `positions`.
pub open spec fn degrees(ivs: Seq<u8>, positions: Seq<int>) -> Seq<u8> {
    Seq::new(positions.len(), |j: int| ivs[positions[j]])
}

/// The major scale is whole, whole, half, whole, whole, whole, half steps.
pub proof fn lemma_major_scale_steps()
    ensures
        has_steps(scale_intervals(ScaleType::Major), seq![2int, 2, 1, 2, 2, 2, 1]),
{
    let ivs = scale_intervals(ScaleType::Major);
    let steps = seq![2int, 2, 1, 2, 2, 2, 1];
    assert forall|i: int| 0 <= i < ivs.len() - 1 implies #[trigger] ivs[i + 1] == ivs[i] + steps[i] by {
        assert(0 <= i < 6);
    }
}

/// The minor scales and the pentatonic and blues scales, from the major and
/// natural minor scales: harmonic minor raises the natural minor's 7th,
/// melodic minor its 6th and 7th; major pentatonic leaves out the major
/// scale's 4th and 7th, minor pentatonic the natural minor's 2nd and 6th; the
/// blues scale adds the flat 5th (6 semitones) to the minor pentatonic.
pub proof fn lemma_scales_from_major_and_minor()
    ensures
        scale_intervals(ScaleType::HarmonicMinor) == scale_intervals(ScaleType::NaturalMinor).update(6, 11),
        scale_intervals(ScaleType::MelodicMinor)
            == scale_intervals(ScaleType::NaturalMinor).update(5, 9).update(6, 11),
        scale_intervals(ScaleType::PentatonicMajor)
            == degrees(scale_intervals(ScaleType::Major), seq![0int, 1, 2, 4, 5]),
        scale_intervals(ScaleType::PentatonicMinor)
            == degrees(scale_intervals(ScaleType::NaturalMinor), seq![0int, 2, 3, 4, 6]),
        scale_intervals(ScaleType::Blues) == scale_intervals(ScaleType::PentatonicMinor).insert(3, 6),
{
    let minor = scale_intervals(ScaleType::NaturalMinor);
    assert(scale_intervals(ScaleType::HarmonicMinor) =~= minor.update(6, 11));
    assert(scale_intervals(ScaleType::MelodicMinor) =~= minor.update(5, 9).update(6, 11));
    assert(scale_intervals(ScaleType::PentatonicMajor) =~= degrees(scale_intervals(ScaleType::Major), seq![0int, 1, 2, 4, 5]));
    assert(scale_intervals(ScaleType::PentatonicMinor) =~= degrees(minor, seq![0int, 2, 3, 4, 6]));
    assert(scale_intervals(ScaleType::Blues) =~= scale_intervals(ScaleType::PentatonicMinor).insert(3, 6));
}

/// The symmetric scales: whole tone is six whole steps; diminished alternates
/// whole and half steps.
pub proof fn lemma_symmetric_scale_steps()
    ensures
        has_steps(scale_intervals(ScaleType::WholeTone), seq![2int, 2, 2, 2, 2, 2]),
        has_steps(scale_intervals(ScaleType::Diminished), seq![2int, 1, 2, 1, 2, 1, 2, 1]),
{
    let wt = scale_intervals(ScaleType::WholeTone);
    let wt_steps = seq![2int, 2, 2, 2, 2, 2];
    assert forall|i: int| 0 <= i < wt.len() - 1 implies #[trigger] wt[i + 1] == wt[i] + wt_steps[i] by {
        assert(0 <= i < 5);
    }
    let dim = scale_intervals(ScaleType::Diminished);
    let dim_steps = seq![2int, 1, 2, 1, 2, 1, 2, 1];
    assert forall|i: int| 0 <= i < dim.len() - 1 implies #[trigger] dim[i + 1] == dim[i] + dim_steps[i] by {
        assert(0 <= i < 7);
    }
}

/// Chords are built from scale degrees: triads from the 1st, 3rd and 5th
/// (major from the major scale, minor from natural minor, diminished from
/// Locrian, augmented from whole tone), sevenths add the 7th (dominant from
/// Mixolydian, major seventh from major, minor seventh from natural minor),
/// sus2 and sus4 replace the 3rd by the 2nd or 4th, add9 adds the 2nd (the
/// 9th an octave down) to the major triad, and a power chord is root and 5th.
#[verifier::spinoff_prover]
pub proof fn lemma_chords_from_scale_degrees()
    ensures
        chord_intervals(ChordType::Major) == degrees(scale_intervals(ScaleType::Major), seq![0int, 2, 4]),
        chord_intervals(ChordType::Minor) == degrees(scale_intervals(ScaleType::NaturalMinor), seq![0int, 2, 4]),
        chord_intervals(ChordType::Diminished) == degrees(scale_intervals(ScaleType::Locrian), seq![0int, 2, 4]),
        chord_intervals(ChordType::Augmented) == degrees(scale_intervals(ScaleType::WholeTone), seq![0int, 2, 4]),
        chord_intervals(ChordType::Dominant7)
            == degrees(scale_intervals(ScaleType::Mixolydian), seq![0int, 2, 4, 6]),
        chord_intervals(ChordType::Major7) == degrees(scale_intervals(ScaleType::Major), seq![0int, 2, 4, 6]),
        chord_intervals(ChordType::Minor7)
            == degrees(scale_intervals(ScaleType::NaturalMinor), seq![0int, 2, 4, 6]),
        chord_intervals(ChordType::Sus2) == degrees(scale_intervals(ScaleType::Major), seq![0int, 1, 4]),
        chord_intervals(ChordType::Sus4) == degrees(scale_intervals(ScaleType::Major), seq![0int, 3, 4]),
        chord_intervals(ChordType::Add9) == degrees(scale_intervals(ScaleType::Major), seq![0int, 1, 2, 4]),
        chord_intervals(ChordType::Power) == degrees(scale_intervals(ScaleType::Major), seq![0int, 4]),
{
    let major = scale_intervals(ScaleType::Major);
    let minor = scale_intervals(ScaleType::NaturalMinor);
    assert(chord_intervals(ChordType::Major) =~= degrees(major, seq![0int, 2, 4]));
    assert(chord_intervals(ChordType::Minor) =~= degrees(minor, seq![0int, 2, 4]));
    assert(chord_intervals(ChordType::Diminished) =~= degrees(scale_intervals(ScaleType::Locrian), seq![0int, 2, 4]));
    assert(chord_intervals(ChordType::Augmented) =~= degrees(scale_intervals(ScaleType::WholeTone), seq![0int, 2, 4]));
    assert(chord_intervals(ChordType::Dominant7) =~= degrees(scale_intervals(ScaleType::Mixolydian), seq![0int, 2, 4, 6]));
    assert(chord_intervals(ChordType::Major7) =~= degrees(major, seq![0int, 2, 4, 6]));
    assert(chord_intervals(ChordType::Minor7) =~= degrees(minor, seq![0int, 2, 4, 6]));
    assert(chord_intervals(ChordType::Sus2) =~= degrees(major, seq![0int, 1, 4]));
    assert(chord_intervals(ChordType::Sus4) =~= degrees(major, seq![0int, 3, 4]));
    assert(chord_intervals(ChordType::Add9) =~= degrees(major, seq![0int, 1, 2, 4]));
    assert(chord_intervals(ChordType::Power) =~= degrees(major, seq![0int, 4]));
}

/// The natural note letters, in the order of the C major scale's degrees.
pub open spec fn natural_letters() -> Seq<char> {
    seq!['C', 'D', 'E', 'F', 'G', 'A', 'B']
}

proof fn lemma_note_name_texts()
    ensures
        "C"@ == seq!['C'],
        "C#"@ == seq!['C', '#'],
        "D"@ == seq!['D'],
        "D#"@ == seq!['D', '#'],
        "E"@ == seq!['E'],
        "F"@ == seq!['F'],
        "F#"@ == seq!['F', '#'],
        "G"@ == seq!['G'],
        "G#"@ == seq!['G', '#'],
        "A"@ == seq!['A'],
        "A#"@ == seq!['A', '#'],
        "B"@ == seq!['B'],
{
    reveal_strlit("C");
    reveal_strlit("C#");
    reveal_strlit("D");
    reveal_strlit("D#");
    reveal_strlit("E");
    reveal_strlit("F");
    reveal_strlit("F#");
    reveal_strlit("G");
    reveal_strlit("G#");
    reveal_strlit("A");
    reveal_strlit("A#");
    reveal_strlit("B");
}

/// Each note name spells its pitch class: the letter of the C major degree at
/// or just below it, followed by '#' exactly when the pitch class is not in
/// C major.
pub proof fn lemma_note_names_spell_pitch_classes(pc: int, k: int)
    requires
        0 <= pc < 12,
        0 <= k < 7,
        scale_intervals(ScaleType::Major)[k] <= pc,
        k == 6 || pc < scale_intervals(ScaleType::Major)[k + 1],
    ensures
        pitch_class_name(pc) == seq![natural_letters()[k]] + (if pc == scale_intervals(ScaleType::Major)[k] {
            Seq::<char>::empty()
        } else {
            seq!['#']
        }),
{
    lemma_note_name_texts();
    let name = pitch_class_name(pc);
    let expected = seq![natural_letters()[k]] + (if pc == scale_intervals(ScaleType::Major)[k] {
        Seq::<char>::empty()
    } else {
        seq!['#']
    });
    assert(name =~= expected);
}

/// Distinct pitch classes have distinct names.
pub proof fn lemma_note_names_distinct(a: int, b: int)
    requires
        0 <= a < 12,
        0 <= b < 12,
        a != b,
    ensures
        pitch_class_name(a) != pitch_class_name(b),
{
    lemma_note_name_texts();
    let na = pitch_class_name(a);
    let nb = pitch_class_name(b);
    if na.len() == nb.len() {
        if na[0] == nb[0] {
            assert(na.len() == 2);
            assert(na[1] == '#' && nb[1] == '#');
            assert(false);
        }
    }
}

/// Every string of `notes` moved by the matching number of semitones in `by`.
pub open spec fn retuned(notes: Seq<u8>, by: Seq<int>) -> Seq<u8> {
    Seq::new(notes.len(), |i: int| (notes[i] + by[i]) as u8)
}

/// Every string of `notes` moved by `by` semitones.
pub open spec fn transposed(notes: Seq<u8>, by: int) -> Seq<u8> {
    Seq::new(notes.len(), |i: int| (notes[i] + by) as u8)
}

/// Standard guitar tuning: six strings from E2 (pitch class 4 in octave 2),
/// each a perfect fourth (5 semitones) above the one below, except a major
/// third (4 semitones) from the G string to the B string.
pub proof fn lemma_standard_tuning()
    ensures
        standard_tuning().len() == 6,
        standard_tuning()[0] % 12 == 4,
        midi_octave(standard_tuning()[0] as int) == 2,
        forall|i: int| 0 <= i < 5 ==> #[trigger] standard_tuning()[i + 1]
            == standard_tuning()[i] + (if i == 3 { 4int } else { 5int }),
{
    let t = standard_tuning();
    assert forall|i: int| 0 <= i < 5 implies #[trigger] t[i + 1] == t[i] + (if i == 3 { 4int } else { 5int }) by {
        assert(0 <= i < 5);
    }
}

/// The other presets, from standard tuning: drop tunings lower the lowest
/// string a whole step (Drop C also tunes every string a whole step down);
/// the open tunings and DADGAD retune single strings; half and full step down
/// transpose every string; extended-range guitars add strings a fourth below
/// (B1 for seven strings, then F#1 for eight); basses are the guitar's lowest
/// strings an octave down, the five-string adding a low B a fourth below.
#[verifier::spinoff_prover]
pub proof fn lemma_presets_from_standard()
    ensures
        preset_notes()[1] == retuned(standard_tuning(), seq![-2int, 0, 0, 0, 0, 0]),
        preset_notes()[2] == transposed(preset_notes()[1], -2),
        preset_notes()[3] == retuned(standard_tuning(), seq![-2int, -2, 0, 0, 0, -2]),
        preset_notes()[4] == retuned(standard_tuning(), seq![-2int, 0, 0, -1, -2, -2]),
        preset_notes()[5] == retuned(standard_tuning(), seq![-2int, 0, 0, 0, -2, -2]),
        preset_notes()[6] == transposed(standard_tuning(), -1),
        preset_notes()[7] == transposed(standard_tuning(), -2),
        preset_notes()[8] == seq![(standard_tuning()[0] - 5) as u8] + standard_tuning(),
        preset_notes()[9] == retuned(preset_notes()[8], seq![-2int, 0, 0, 0, 0, 0, 0]),
        preset_notes()[10] == seq![(preset_notes()[8][0] - 5) as u8] + preset_notes()[8],
        preset_notes()[11] == transposed(standard_tuning().take(4), -12),
        preset_notes()[12] == seq![(preset_notes()[11][0] - 5) as u8] + preset_notes()[11],
{
    let std = standard_tuning();
    let p = preset_notes();
    assert(p[1] =~= retuned(std, seq![-2int, 0, 0, 0, 0, 0]));
    assert(p[2] =~= transposed(p[1], -2));
    assert(p[3] =~= retuned(std, seq![-2int, -2, 0, 0, 0, -2]));
    assert(p[4] =~= retuned(std, seq![-2int, 0, 0, -1, -2, -2]));
    assert(p[5] =~= retuned(std, seq![-2int, 0, 0, 0, -2, -2]));
    assert(p[6] =~= transposed(std, -1));
    assert(p[7] =~= transposed(std, -2));
    assert(p[8] =~= seq![(std[0] - 5) as u8] + std);
    assert(p[9] =~= retuned(p[8], seq![-2int, 0, 0, 0, 0, 0, 0]));
    assert(p[10] =~= seq![(p[8][0] - 5) as u8] + p[8]);
    assert(p[11] =~= transposed(std.take(4), -12));
    assert(p[12] =~= seq![(p[11][0] - 5) as u8] + p[11]);
}

/// What string `s` of a standard-tuned guitar sounds at `fret`: its interval
/// above the root, or -1 when the string is muted.
pub open spec fn string_interval(root_pc: u8, s: int, fret: i8) -> int {
    if fret < 0 {
        -1
    } else {
        interval_from_root((standard_tuning()[s] + fret) % 12, root_pc as int)
    }
}

/// The intervals a voicing sounds, string by string (-1 = muted).
pub open spec fn shape_intervals(root_pc: u8, frets: Seq<i8>) -> Seq<int> {
    Seq::new(6, |s: int| string_interval(root_pc, s, frets[s]))
}

/// The shapes, as the intervals they sound from the low E string up: the
/// E-shape major chord is root, 5th, root, 3rd, 5th, root (the minor one with
/// the minor 3rd); the A-shape leaves the low E string out and starts on the
/// A string; the power chords sound root, 5th, root. Every fretted string lies
/// on the root's fret on the lowest played string or at most two frets above
/// it, and that fret is below 12.
#[verifier::spinoff_prover]
pub proof fn lemma_voicing_shapes(root_pc: u8)
    requires
        root_pc < 12,
    ensures
        shape_intervals(root_pc, voicings_of(root_pc, ChordType::Major)[0].frets) == seq![0int, 7, 0, 4, 7, 0],
        shape_intervals(root_pc, voicings_of(root_pc, ChordType::Major)[1].frets) == seq![-1int, 0, 7, 0, 4, 7],
        shape_intervals(root_pc, voicings_of(root_pc, ChordType::Minor)[0].frets) == seq![0int, 7, 0, 3, 7, 0],
        shape_intervals(root_pc, voicings_of(root_pc, ChordType::Minor)[1].frets) == seq![-1int, 0, 7, 0, 3, 7],
        shape_intervals(root_pc, voicings_of(root_pc, ChordType::Power)[0].frets) == seq![-1int, 0, 7, 0, -1, -1],
        shape_intervals(root_pc, voicings_of(root_pc, ChordType::Power)[1].frets) == seq![0int, 7, 0, -1, -1, -1],
        forall|ct: ChordType, v: int, s: int|
            0 <= v < voicings_of(root_pc, ct).len() && 0 <= s < 6
                && #[trigger] voicings_of(root_pc, ct)[v].frets[s] >= 0 ==> {
                let frets = voicings_of(root_pc, ct)[v].frets;
                let low = if frets[0] >= 0 { frets[0] } else { frets[1] };
                &&& 0 <= low < 12
                &&& low <= frets[s] <= low + 2
            },
{
    let e = e_root_fret(root_pc);
    let a = a_root_fret(root_pc);
    assert(shape_intervals(root_pc, voicings_of(root_pc, ChordType::Major)[0].frets) =~= seq![0int, 7, 0, 4, 7, 0]);
    assert(shape_intervals(root_pc, voicings_of(root_pc, ChordType::Major)[1].frets) =~= seq![-1int, 0, 7, 0, 4, 7]);
    assert(shape_intervals(root_pc, voicings_of(root_pc, ChordType::Minor)[0].frets) =~= seq![0int, 7, 0, 3, 7, 0]);
    assert(shape_intervals(root_pc, voicings_of(root_pc, ChordType::Minor)[1].frets) =~= seq![-1int, 0, 7, 0, 3, 7]);
    assert(shape_intervals(root_pc, voicings_of(root_pc, ChordType::Power)[0].frets) =~= seq![-1int, 0, 7, 0, -1, -1]);
    assert(shape_intervals(root_pc, voicings_of(root_pc, ChordType::Power)[1].frets) =~= seq![0int, 7, 0, -1, -1, -1]);
}

proof fn lemma_digit_texts()
    ensures
        "0"@ == seq!['0'],
        "1"@ == seq!['1'],
        "2"@ == seq!['2'],
        "3"@ == seq!['3'],
        "4"@ == seq!['4'],
        "5"@ == seq!['5'],
        "6"@ == seq!['6'],
        "7"@ == seq!['7'],
        "8"@ == seq!['8'],
        "9"@ == seq!['9'],
        "?"@ == seq!['?'],
{
    reveal_strlit("0");
    reveal_strlit("1");
    reveal_strlit("2");
    reveal_strlit("3");
    reveal_strlit("4");
    reveal_strlit("5");
    reveal_strlit("6");
    reveal_strlit("7");
    reveal_strlit("8");
    reveal_strlit("9");
    reveal_strlit("?");
}

/// The text of digit `d` is the single character whose code is that of '0'
/// plus `d`.
pub proof fn lemma_digit_text_is_digit(d: int)
    requires
        0 <= d < 10,
    ensures
        digit_text(d) == seq![((48 + d) as u32) as char],
{
    lemma_digit_texts();
}

/// A degree label is the degree's number for degrees 1 to 7, and "?" otherwise.
pub proof fn lemma_degree_label_is_number(degree: u8)
    ensures
        1 <= degree <= 7 ==> degree_text(degree) == decimal(degree as int),
        1 <= degree <= 7 ==> degree_text(degree) == seq![((48 + degree) as u32) as char],
        !(1 <= degree <= 7) ==> degree_text(degree) == seq!['?'],
{
    lemma_digit_texts();
}

} // verus!
