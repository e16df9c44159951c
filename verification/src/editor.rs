//! The decisions behind the plugin's editor: which fretboard positions and
//! markers are drawn and how they are labelled, which key and tuning are
//! shown, and how the custom tuning and view settings are edited.

use vstd::prelude::*;
use crate::theory::{
    ChordType, FretPosition, ScaleType, Tuning, chord_suffix, degree_label, degree_text,
    preset_notes, scale_intervals,
};

verus! {

/// How the fretboard is drawn.
pub struct DisplayOptions {
    pub flipped: bool,
    pub show_note_names: bool,
    pub show_glow: bool,
    pub show_fret_numbers: bool,
    /// Bitmask of which scale degrees to show (bit 0 = 1st, bit 1 = 2nd, etc.)
    pub degree_mask: u8,
    /// 0 = note letter, 1 = scale degree, 2 = both
    pub note_label_mode: u8,
    /// Show fret 0 as a column on the board
    pub show_open_fret: bool,
    /// Number of frets to display
    pub display_frets: u8,
    /// Number of strings in current tuning
    pub num_strings: u8,
}

// ── Fretboard ──

/// Frets marked with a single dot.
pub open spec fn single_dot_frets() -> Seq<u8> {
    seq![3u8, 5, 7, 9, 15, 17, 19, 21, 24, 27]
}

/// Frets marked with two dots.
pub open spec fn double_dot_frets() -> Seq<u8> {
    seq![12u8, 24]
}

/// The marked frets among the first `k` of `frets` that fall in the view
/// (frets `start_fret + 1 ..= start_fret + display_frets`), as display
/// columns counted from `start_fret`, in order.
pub open spec fn markers_in_view(frets: Seq<u8>, k: int, start_fret: u8, display_frets: u8) -> Seq<u8>
    decreases k,
{
    if k <= 0 {
        Seq::empty()
    } else {
        let before = markers_in_view(frets, k - 1, start_fret, display_frets);
        let fret = frets[k - 1];
        if fret > start_fret && fret <= start_fret + display_frets {
            before.push((fret - start_fret) as u8)
        } else {
            before
        }
    }
}

fn markers(frets: &[u8], start_fret: u8, display_frets: u8) -> (columns: Vec<u8>)
    requires
        forall|i: int| 0 <= i < frets@.len() && frets@[i] > start_fret ==> start_fret + display_frets <= 255,
    ensures
        columns@ == markers_in_view(frets@, frets@.len() as int, start_fret, display_frets),
{
    let mut columns: Vec<u8> = Vec::new();
    let mut i: usize = 0;
    while i < frets.len()
        invariant
            0 <= i <= frets@.len(),
            forall|j: int| 0 <= j < frets@.len() && frets@[j] > start_fret ==> start_fret + display_frets <= 255,
            columns@ == markers_in_view(frets@, i as int, start_fret, display_frets),
        decreases frets@.len() - i,
    {
        let fret = frets[i];
        if fret > start_fret && fret <= start_fret + display_frets {
            columns.push(fret - start_fret);
        }
        i = i + 1;
    }
    columns
}

/// Display columns of the single-dot fret markers in view.
pub fn single_dot_columns(start_fret: u8, display_frets: u8) -> (columns: Vec<u8>)
    requires
        start_fret < 27 ==> start_fret + display_frets <= 255,
    ensures
        columns@ == markers_in_view(single_dot_frets(), 10, start_fret, display_frets),
{
    let frets: &[u8] = &[3, 5, 7, 9, 15, 17, 19, 21, 24, 27];
    assert(frets@ == single_dot_frets());
    markers(frets, start_fret, display_frets)
}

/// Display columns of the double-dot fret markers in view.
pub fn double_dot_columns(start_fret: u8, display_frets: u8) -> (columns: Vec<u8>)
    requires
        start_fret < 24 ==> start_fret + display_frets <= 255,
    ensures
        columns@ == markers_in_view(double_dot_frets(), 2, start_fret, display_frets),
{
    let frets: &[u8] = &[12, 24];
    assert(frets@ == double_dot_frets());
    markers(frets, start_fret, display_frets)
}

/// Scale degree `degree` (1-based) is switched on in `mask`.
pub open spec fn degree_enabled(mask: u8, degree: u8) -> bool {
    mask & (1u8 << ((degree - 1) as u8)) != 0
}

/// 2 to the power `k`: the value of bit `k`.
pub open spec fn bit_value(k: int) -> int
    decreases k,
{
    if k <= 0 { 1 } else { 2 * bit_value(k - 1) }
}

/// Bit `degree - 1` of `mask` is set, read arithmetically (bit 0 = 1st
/// degree, ..., bit 7 = 8th degree).
pub open spec fn degree_bit(mask: u8, degree: u8) -> bool {
    (mask as int / bit_value(degree - 1)) % 2 == 1
}

/// The mask test that the fretboard and the degree buttons use reads the
/// degree's own bit: bit 0 for the 1st degree up to bit 7 for the 8th.
pub proof fn lemma_degree_enabled_reads_its_bit(mask: u8, degree: u8)
    requires
        1 <= degree <= 8,
    ensures
        degree_enabled(mask, degree) == degree_bit(mask, degree),
{
    reveal_with_fuel(bit_value, 8);
    if degree == 1 {
        assert((mask & (1u8 << 0u8) != 0) == (mask % 2 == 1)) by (bit_vector);
    } else if degree == 2 {
        assert((mask & (1u8 << 1u8) != 0) == ((mask / 2) % 2 == 1)) by (bit_vector);
    } else if degree == 3 {
        assert((mask & (1u8 << 2u8) != 0) == ((mask / 4) % 2 == 1)) by (bit_vector);
    } else if degree == 4 {
        assert((mask & (1u8 << 3u8) != 0) == ((mask / 8) % 2 == 1)) by (bit_vector);
    } else if degree == 5 {
        assert((mask & (1u8 << 4u8) != 0) == ((mask / 16) % 2 == 1)) by (bit_vector);
    } else if degree == 6 {
        assert((mask & (1u8 << 5u8) != 0) == ((mask / 32) % 2 == 1)) by (bit_vector);
    } else if degree == 7 {
        assert((mask & (1u8 << 6u8) != 0) == ((mask / 64) % 2 == 1)) by (bit_vector);
    } else {
        assert((mask & (1u8 << 7u8) != 0) == ((mask / 128) % 2 == 1)) by (bit_vector);
    }
}

/// A position is drawn when its fret is in view, its string exists, and its
/// scale degree is not filtered out (all degrees show when the mask is 0xFF,
/// and positions without a degree always show).
pub open spec fn is_visible(
    fret: u8,
    string: u8,
    scale_degree: u8,
    start_fret: u8,
    display_frets: u8,
    num_strings: u8,
    degree_mask: u8,
) -> bool {
    &&& start_fret <= fret <= start_fret + display_frets
    &&& string < num_strings
    &&& (degree_mask == 0xFF || scale_degree == 0 || degree_enabled(degree_mask, scale_degree))
}

/// The view can be tested for a position without overflow: the last fret in
/// view fits in a byte whenever the position is not below the view, and a degree that must be checked against the mask
/// has a bit in it.
pub open spec fn visibility_computable(pos: FretPosition, start_fret: u8, opts: DisplayOptions) -> bool {
    &&& pos.fret >= start_fret ==> start_fret + opts.display_frets <= 255
    &&& (start_fret <= pos.fret <= start_fret + opts.display_frets && pos.string < opts.num_strings
        && opts.degree_mask != 0xFF && pos.scale_degree > 0) ==> pos.scale_degree <= 8
}

/// Whether a scale/chord position is drawn on the fretboard.
pub fn position_visible(pos: &FretPosition, start_fret: u8, opts: &DisplayOptions) -> (visible: bool)
    requires
        visibility_computable(*pos, start_fret, *opts),
    ensures
        visible == is_visible(
            pos.fret,
            pos.string,
            pos.scale_degree,
            start_fret,
            opts.display_frets,
            opts.num_strings,
            opts.degree_mask,
        ),
        visible == (start_fret <= pos.fret <= start_fret + opts.display_frets
            && pos.string < opts.num_strings
            && (opts.degree_mask == 0xFF || pos.scale_degree == 0 || degree_bit(opts.degree_mask, pos.scale_degree))),
{
    proof {
        if 1 <= pos.scale_degree <= 8 {
            lemma_degree_enabled_reads_its_bit(opts.degree_mask, pos.scale_degree);
        }
    }
    if pos.fret < start_fret || pos.fret > start_fret + opts.display_frets {
        return false;
    }
    if pos.string >= opts.num_strings {
        return false;
    }
    // Filter by scale degree mask
    if opts.degree_mask != 0xFF && pos.scale_degree > 0 {
        let bit = 1u8 << (pos.scale_degree - 1);
        if opts.degree_mask & bit == 0 {
            return false;
        }
    }
    true
}

/// Row (from the top) on which a string is drawn: low strings at the top,
/// or at the bottom when the fretboard is flipped.
pub fn string_row(opts: &DisplayOptions, string_idx: u8) -> (row: u8)
    requires
        opts.flipped ==> string_idx < opts.num_strings,
    ensures
        row == (if opts.flipped { opts.num_strings - 1 - string_idx } else { string_idx as int }),
{
    if opts.flipped {
        (opts.num_strings - 1) - string_idx
    } else {
        string_idx
    }
}

/// Text drawn on a note dot for a label mode: 0 the note letter, 1 the scale
/// degree, 2 both on two lines; any other mode the note letter.
pub open spec fn dot_label(note_name: Seq<char>, scale_degree: u8, mode: u8) -> Seq<char> {
    if mode == 1 {
        degree_text(scale_degree)
    } else if mode == 2 {
        note_name + "\n"@ + degree_text(scale_degree)
    } else {
        note_name
    }
}

/// Label of a note dot.
pub fn note_label(pos: &FretPosition, mode: u8) -> (label: String)
    ensures
        label@ == dot_label(pos.note_name@, pos.scale_degree, mode),
{
    match mode {
        0 => pos.note_name.clone(),
        1 => String::from_str(degree_label(pos.scale_degree)),
        2 => {
            let mut label = pos.note_name.clone();
            label.append("\n");
            label.append(degree_label(pos.scale_degree));
            label
        },
        _ => pos.note_name.clone(),
    }
}

/// How a note dot is drawn.
#[derive(Debug, Clone, Copy, PartialEq, Eq, Structural)]
pub enum DotStyle {
    /// The note being played right now.
    Active,
    /// The root of the scale or chord.
    Root,
    /// Any other scale or chord tone.
    ScaleTone,
}

/// Style of the dot at a position: the note being played wins, then the root.
pub fn dot_style(pos: &FretPosition, active_midi: Option<u8>) -> (style: DotStyle)
    ensures
        style == (if active_midi == Some(pos.midi_note) {
            DotStyle::Active
        } else if pos.is_root {
            DotStyle::Root
        } else {
            DotStyle::ScaleTone
        }),
{
    let is_active = match active_midi {
        Some(m) => m == pos.midi_note,
        None => false,
    };
    if is_active {
        DotStyle::Active
    } else if pos.is_root {
        DotStyle::Root
    } else {
        DotStyle::ScaleTone
    }
}

// ── View settings ──

/// The degree mask with the bit of degree `deg` (0-based) flipped.
pub fn toggle_degree(mask: u8, deg: u8) -> (toggled: u8)
    requires
        deg < 8,
    ensures
        toggled == mask ^ (1u8 << deg),
{
    mask ^ (1u8 << deg)
}

/// The label mode after the label button is pressed: letter, degree, both, letter, ...
pub fn next_label_mode(mode: u8) -> (next: u8)
    requires
        mode < 255,
    ensures
        next == (mode + 1) % 3,
{
    (mode + 1) % 3
}

/// Caption of the label mode button.
pub fn label_mode_text(mode: u8) -> (text: &'static str)
    ensures
        text@ == (if mode == 0 { "Label: ABC"@ } else if mode == 1 { "Label: 123"@ } else { "Label: A/1"@ }),
{
    match mode {
        0 => "Label: ABC",
        1 => "Label: 123",
        _ => "Label: A/1",
    }
}

// ── Tuning selection and the custom tuning editor ──

/// Tuning index that selects the custom tuning.
pub const CUSTOM_TUNING: usize = usize::MAX;

/// Which tuning the editor shows.
#[derive(Debug, Clone, Copy, PartialEq, Eq, Structural)]
pub enum TuningChoice {
    /// The user's custom tuning.
    Custom,
    /// The preset with this index.
    Preset(usize),
}

/// The tuning shown for a selected index: the custom tuning when it is
/// selected and exists (else the first preset), otherwise the selected preset,
/// or the last one when the index is past the end.
pub fn tuning_choice(tuning_idx: usize, has_custom: bool, num_presets: usize) -> (choice: TuningChoice)
    requires
        !(tuning_idx == CUSTOM_TUNING && has_custom) ==> num_presets > 0,
    ensures
        choice == (if tuning_idx == CUSTOM_TUNING {
            if has_custom { TuningChoice::Custom } else { TuningChoice::Preset(0) }
        } else if tuning_idx < num_presets {
            TuningChoice::Preset(tuning_idx)
        } else {
            TuningChoice::Preset((num_presets - 1) as usize)
        }),
{
    if tuning_idx == CUSTOM_TUNING {
        if has_custom { TuningChoice::Custom } else { TuningChoice::Preset(0) }
    } else if tuning_idx < num_presets - 1 {
        TuningChoice::Preset(tuning_idx)
    } else {
        TuningChoice::Preset(num_presets - 1)
    }
}

/// Most strings a custom tuning can have.
pub const MAX_CUSTOM_STRINGS: usize = 12;

/// Highest MIDI note a custom string can be tuned to.
pub const MAX_CUSTOM_NOTE: u8 = 127;

/// Lowest MIDI note a custom string can be tuned down to.
pub const MIN_CUSTOM_NOTE: u8 = 20;

/// Remove the highest string of a custom tuning, keeping at least one.
/// Returns whether the tuning changed (it is then named "Custom").
pub fn remove_custom_string(tuning: &mut Tuning) -> (changed: bool)
    ensures
        changed == (old(tuning).notes@.len() > 1),
        changed ==> final(tuning).notes@ == old(tuning).notes@.drop_last() && final(tuning).name@ == "Custom"@,
        !changed ==> final(tuning).notes@ == old(tuning).notes@ && final(tuning).name@ == old(tuning).name@,
{
    if tuning.notes.len() > 1 {
        tuning.notes.pop();
        tuning.name = String::from_str("Custom");
        true
    } else {
        false
    }
}

/// Note of a string added above `last` (a fourth up, at most `MAX_CUSTOM_NOTE`).
pub open spec fn added_string_note(last: Option<u8>) -> u8 {
    let below = match last { Some(n) => n as int, None => 64 };
    if below + 5 < MAX_CUSTOM_NOTE { (below + 5) as u8 } else { MAX_CUSTOM_NOTE }
}

/// Add a string a fourth above the highest one (E4 if there is none), while
/// the tuning has fewer than `MAX_CUSTOM_STRINGS` strings. Returns whether the
/// tuning changed (it is then named "Custom").
pub fn add_custom_string(tuning: &mut Tuning) -> (changed: bool)
    requires
        old(tuning).notes@.len() > 0 && old(tuning).notes@.len() < MAX_CUSTOM_STRINGS
            ==> old(tuning).notes@.last() <= 250,
    ensures
        changed == (old(tuning).notes@.len() < MAX_CUSTOM_STRINGS),
        changed ==> final(tuning).name@ == "Custom"@ && final(tuning).notes@ == old(tuning).notes@.push(
            added_string_note(if old(tuning).notes@.len() > 0 { Some(old(tuning).notes@.last()) } else { None }),
        ),
        !changed ==> final(tuning).notes@ == old(tuning).notes@ && final(tuning).name@ == old(tuning).name@,
{
    if tuning.notes.len() < MAX_CUSTOM_STRINGS {
        let n = tuning.notes.len();
        let last: u8 = if n > 0 { tuning.notes[n - 1] } else { 64 };
        let note = if last + 5 < MAX_CUSTOM_NOTE { last + 5 } else { MAX_CUSTOM_NOTE };
        tuning.notes.push(note);
        tuning.name = String::from_str("Custom");
        true
    } else {
        false
    }
}

/// Tune string `string_idx` a semitone down, unless it is at `MIN_CUSTOM_NOTE`
/// or below. Returns whether the tuning changed (it is then named "Custom").
pub fn lower_custom_string(tuning: &mut Tuning, string_idx: usize) -> (changed: bool)
    requires
        string_idx < old(tuning).notes@.len(),
    ensures
        changed == (old(tuning).notes@[string_idx as int] > MIN_CUSTOM_NOTE),
        changed ==> final(tuning).name@ == "Custom"@ && final(tuning).notes@ == old(tuning).notes@.update(
            string_idx as int,
            (old(tuning).notes@[string_idx as int] - 1) as u8,
        ),
        !changed ==> final(tuning).notes@ == old(tuning).notes@ && final(tuning).name@ == old(tuning).name@,
{
    let midi = tuning.notes[string_idx];
    if midi > MIN_CUSTOM_NOTE {
        tuning.notes.set(string_idx, midi - 1);
        tuning.name = String::from_str("Custom");
        true
    } else {
        false
    }
}

/// Tune string `string_idx` a semitone up, unless it is at `MAX_CUSTOM_NOTE`
/// or above. Returns whether the tuning changed (it is then named "Custom").
pub fn raise_custom_string(tuning: &mut Tuning, string_idx: usize) -> (changed: bool)
    requires
        string_idx < old(tuning).notes@.len(),
    ensures
        changed == (old(tuning).notes@[string_idx as int] < MAX_CUSTOM_NOTE),
        changed ==> final(tuning).name@ == "Custom"@ && final(tuning).notes@ == old(tuning).notes@.update(
            string_idx as int,
            (old(tuning).notes@[string_idx as int] + 1) as u8,
        ),
        !changed ==> final(tuning).notes@ == old(tuning).notes@ && final(tuning).name@ == old(tuning).name@,
{
    let midi = tuning.notes[string_idx];
    if midi < MAX_CUSTOM_NOTE {
        tuning.notes.set(string_idx, midi + 1);
        tuning.name = String::from_str("Custom");
        true
    } else {
        false
    }
}

// ── Key panel ──

/// Manual root value meaning "detect the key".
pub const AUTO_ROOT: u8 = 255;

/// Where the displayed key comes from.
#[derive(Debug, Clone, Copy, PartialEq, Eq, Structural)]
pub enum KeySource {
    /// A root the user picked (pitch class 0-11), shown as its major key.
    Manual(u8),
    /// The key the user locked.
    Locked,
    /// The best detected key.
    Detected,
}

/// The key panel: key display, root selection, lock, scale and chord pickers.
pub struct KeyPanel;

/// What pressing the lock button does.
pub struct LockToggle<K> {
    /// Whether the key is locked afterwards.
    pub locked: bool,
    /// The key to store as the locked key, if the press stores one (the
    /// stored value itself may be "no key").
    pub store: Option<Option<K>>,
}

impl KeyPanel {
    /// Where the displayed key comes from: a manually picked root wins, then
    /// a locked key, else detection.
    pub fn key_source(manual_root: u8, is_locked: bool) -> (source: KeySource)
        ensures
            source == (if manual_root < 12 {
                KeySource::Manual(manual_root)
            } else if is_locked {
                KeySource::Locked
            } else {
                KeySource::Detected
            }),
    {
        if manual_root < 12 {
            KeySource::Manual(manual_root)
        } else if is_locked {
            KeySource::Locked
        } else {
            KeySource::Detected
        }
    }

    /// Pressing the lock button flips the lock; locking stores the best
    /// detected key (or none, if nothing is detected), unlocking stores nothing.
    pub fn toggle_lock<K>(is_locked: bool, best_detected: Option<K>) -> (toggle: LockToggle<K>)
        ensures
            toggle.locked == !is_locked,
            toggle.store == (if !is_locked { Some(best_detected) } else { None::<Option<K>> }),
    {
        let locked = !is_locked;
        if locked {
            LockToggle { locked, store: Some(best_detected) }
        } else {
            LockToggle { locked, store: None }
        }
    }

    /// Label of a chord in the chord picker: the key's root name (if a key is
    /// shown) followed by the chord suffix.
    pub fn chord_label(root: Option<&str>, chord: ChordType) -> (label: String)
        ensures
            label@ == (match root {
                Some(r) => r@ + chord_suffix(chord),
                None => chord_suffix(chord),
            }),
    {
        match root {
            Some(r) => {
                let mut label = String::from_str(r);
                label.append(chord.suffix());
                label
            },
            None => String::from_str(chord.suffix()),
        }
    }
}

// ── Note log widget ──

/// The note log panel.
pub struct NoteLogWidget;

/// Pitch class `pc` lies in the major (or natural minor) scale on `root`.
pub open spec fn pitch_in_key(pc: u8, root: u8, is_major: bool) -> bool {
    let ivs = if is_major { scale_intervals(ScaleType::Major) } else { scale_intervals(ScaleType::NaturalMinor) };
    ivs.contains(((pc + 12 - root) % 12) as u8)
}

impl NoteLogWidget {
    /// Whether a logged note (pitch class `pc`) is in the displayed key; the
    /// key's root index is read as a byte.
    pub fn in_key(pc: u8, root_idx: usize, is_major: bool) -> (in_key: bool)
        requires
            pc + 12 <= 255,
            (#[verifier::truncate] (root_idx as u8)) <= pc + 12,
        ensures
            in_key == pitch_in_key(pc, #[verifier::truncate] (root_idx as u8), is_major),
    {
        let interval = (pc + 12 - #[verifier::truncate] (root_idx as u8)) % 12;
        // Check if this pitch class is in the major/minor scale
        let scale_pcs: &[u8] = if is_major { &[0, 2, 4, 5, 7, 9, 11] } else { &[0, 2, 3, 5, 7, 8, 10] };
        proof {
            assert(scale_pcs@ == if is_major { scale_intervals(ScaleType::Major) } else { scale_intervals(ScaleType::NaturalMinor) });
        }
        let mut i: usize = 0;
        while i < scale_pcs.len()
            invariant
                0 <= i <= scale_pcs@.len(),
                forall|k: int| 0 <= k < i ==> scale_pcs@[k] != interval,
                scale_pcs@ == (if is_major { scale_intervals(ScaleType::Major) } else { scale_intervals(ScaleType::NaturalMinor) }),
                interval == ((pc + 12 - (#[verifier::truncate] (root_idx as u8))) % 12) as u8,
            decreases scale_pcs@.len() - i,
        {
            if scale_pcs[i] == interval {
                assert(scale_pcs@[i as int] == interval);
                return true;
            }
            i = i + 1;
        }
        false
    }
}

// ── Laws ──

/// Pressing a degree button switches that degree's visibility and leaves
/// every other degree as it was; pressing it twice restores the mask.
pub proof fn lemma_toggle_degree(mask: u8, deg: u8, other: u8)
    requires
        deg < 8,
        other < 8,
    ensures
        degree_enabled(mask ^ (1u8 << deg), (deg + 1) as u8) == !degree_enabled(mask, (deg + 1) as u8),
        other != deg ==> degree_enabled(mask ^ (1u8 << deg), (other + 1) as u8) == degree_enabled(mask, (other + 1) as u8),
        (mask ^ (1u8 << deg)) ^ (1u8 << deg) == mask,
{
    assert(((mask ^ (1u8 << deg)) & (1u8 << deg) != 0) == !(mask & (1u8 << deg) != 0)) by (bit_vector)
        requires deg < 8;
    assert(other != deg ==> (((mask ^ (1u8 << deg)) & (1u8 << other) != 0) == (mask & (1u8 << other) != 0))) by (bit_vector)
        requires deg < 8, other < 8;
    assert((mask ^ (1u8 << deg)) ^ (1u8 << deg) == mask) by (bit_vector);
    assert(((deg + 1) as u8 - 1) as u8 == deg);
    assert(((other + 1) as u8 - 1) as u8 == other);
}

/// The label mode cycles through letter, degree and both, and comes back
/// after three presses.
pub proof fn lemma_label_mode_cycles(mode: u8)
    requires
        mode < 3,
    ensures
        (((((mode + 1) % 3) + 1) % 3) + 1) % 3 == mode,
{
}

/// A custom tuning the editor can produce: one to `MAX_CUSTOM_STRINGS`
/// strings, each tuned between `MIN_CUSTOM_NOTE` and `MAX_CUSTOM_NOTE`.
pub open spec fn custom_tuning_ok(notes: Seq<u8>) -> bool {
    &&& 1 <= notes.len() <= MAX_CUSTOM_STRINGS
    &&& forall|i: int| 0 <= i < notes.len() ==> MIN_CUSTOM_NOTE <= #[trigger] notes[i] <= MAX_CUSTOM_NOTE
}

/// Every preset is a tuning the custom editor can start from.
pub proof fn lemma_presets_custom_ok(t: int)
    requires
        0 <= t < preset_notes().len(),
    ensures
        custom_tuning_ok(preset_notes()[t]),
{
}

/// The custom tuning editor's four edits keep a tuning within the editor's
/// limits.
pub proof fn lemma_custom_edits_stay_ok(notes: Seq<u8>, i: int)
    requires
        custom_tuning_ok(notes),
        0 <= i < notes.len(),
    ensures
        notes.len() > 1 ==> custom_tuning_ok(notes.drop_last()),
        notes.len() < MAX_CUSTOM_STRINGS ==> custom_tuning_ok(notes.push(added_string_note(Some(notes.last())))),
        notes[i] > MIN_CUSTOM_NOTE ==> custom_tuning_ok(notes.update(i, (notes[i] - 1) as u8)),
        notes[i] < MAX_CUSTOM_NOTE ==> custom_tuning_ok(notes.update(i, (notes[i] + 1) as u8)),
{
    let pushed = notes.push(added_string_note(Some(notes.last())));
    assert forall|j: int| 0 <= j < pushed.len() implies MIN_CUSTOM_NOTE <= #[trigger] pushed[j] <= MAX_CUSTOM_NOTE by {
        if j < notes.len() {
            assert(pushed[j] == notes[j]);
        } else {
            assert(notes[notes.len() - 1] >= MIN_CUSTOM_NOTE);
        }
    }
}

/// Raising a custom string a semitone and lowering it again restores the
/// tuning, and so does lowering then raising a string within the editor's range.
pub proof fn lemma_raise_lower_undo(notes: Seq<u8>, i: int)
    requires
        0 <= i < notes.len(),
    ensures
        notes[i] < MAX_CUSTOM_NOTE ==> ({
            let raised = notes.update(i, (notes[i] + 1) as u8);
            raised[i] > MIN_CUSTOM_NOTE ==> raised.update(i, (raised[i] - 1) as u8) == notes
        }),
        MIN_CUSTOM_NOTE < notes[i] <= MAX_CUSTOM_NOTE ==> ({
            let lowered = notes.update(i, (notes[i] - 1) as u8);
            lowered[i] < MAX_CUSTOM_NOTE && lowered.update(i, (lowered[i] + 1) as u8) == notes
        }),
{
    if notes[i] < MAX_CUSTOM_NOTE {
        let raised = notes.update(i, (notes[i] + 1) as u8);
        assert(raised.update(i, (raised[i] - 1) as u8) =~= notes);
    }
    if notes[i] > MIN_CUSTOM_NOTE {
        let lowered = notes.update(i, (notes[i] - 1) as u8);
        assert(lowered.update(i, (lowered[i] + 1) as u8) =~= notes);
    }
}

/// A position is drawn exactly when its fret is in view, its string exists,
/// and its degree's own bit is set in the mask (every degree shows under
/// 0xFF, and a position without a degree always shows).
pub proof fn lemma_visibility_by_degree_bits(
    fret: u8,
    string: u8,
    scale_degree: u8,
    start_fret: u8,
    display_frets: u8,
    num_strings: u8,
    degree_mask: u8,
)
    requires
        scale_degree <= 8,
    ensures
        is_visible(fret, string, scale_degree, start_fret, display_frets, num_strings, degree_mask) == (
            start_fret <= fret <= start_fret + display_frets
            && string < num_strings
            && (degree_mask == 0xFF || scale_degree == 0 || degree_bit(degree_mask, scale_degree))),
{
    if scale_degree >= 1 {
        lemma_degree_enabled_reads_its_bit(degree_mask, scale_degree);
    }
}

} // verus!
