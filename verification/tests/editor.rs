use fretscope::editor::{
    add_custom_string, dot_style, double_dot_columns, DotStyle, label_mode_text, lower_custom_string, next_label_mode,
    note_label, position_visible, raise_custom_string, remove_custom_string, single_dot_columns,
    string_row, toggle_degree, tuning_choice, DisplayOptions, KeyPanel, KeySource, NoteLogWidget,
    TuningChoice, AUTO_ROOT, CUSTOM_TUNING,
};
use fretscope::key_detect::key_display_name;
use fretscope::theory::{preset_tunings, ChordType, FretPosition, Tuning};

fn opts() -> DisplayOptions {
    DisplayOptions {
        flipped: false,
        show_note_names: true,
        show_glow: true,
        show_fret_numbers: true,
        degree_mask: 0xFF,
        note_label_mode: 0,
        show_open_fret: false,
        display_frets: 16,
        num_strings: 6,
    }
}

fn pos(string: u8, fret: u8, degree: u8) -> FretPosition {
    FretPosition {
        string,
        fret,
        midi_note: 40 + fret,
        note_name: "E".to_string(),
        is_root: degree == 1,
        interval: 0,
        scale_degree: degree,
    }
}

#[test]
fn visibility_by_fret_string_and_degree() {
    let mut o = opts();
    assert!(position_visible(&pos(0, 0, 1), 0, &o));
    assert!(position_visible(&pos(5, 16, 3), 0, &o));
    assert!(!position_visible(&pos(0, 17, 3), 0, &o));
    assert!(!position_visible(&pos(6, 3, 3), 0, &o));
    assert!(!position_visible(&pos(0, 2, 3), 3, &o));
    o.degree_mask = 0b0000_0101; // 1st and 3rd only
    assert!(position_visible(&pos(0, 3, 1), 0, &o));
    assert!(!position_visible(&pos(0, 3, 2), 0, &o));
    assert!(position_visible(&pos(0, 3, 3), 0, &o));
    assert!(position_visible(&pos(0, 3, 0), 0, &o));
}

#[test]
fn string_rows_flip() {
    let mut o = opts();
    assert_eq!(string_row(&o, 0), 0);
    o.flipped = true;
    assert_eq!(string_row(&o, 0), 5);
    assert_eq!(string_row(&o, 5), 0);
}

#[test]
fn fret_markers_in_view() {
    assert_eq!(single_dot_columns(0, 16), vec![3, 5, 7, 9, 15]);
    assert_eq!(double_dot_columns(0, 16), vec![12]);
    assert_eq!(single_dot_columns(5, 12), vec![2, 4, 10, 12]);
    assert_eq!(double_dot_columns(10, 20), vec![2, 14]);
    assert!(single_dot_columns(27, 3).is_empty());
}

#[test]
fn dot_labels() {
    let p = pos(0, 3, 5);
    assert_eq!(note_label(&p, 0), "E");
    assert_eq!(note_label(&p, 1), "5");
    assert_eq!(note_label(&p, 2), "E\n5");
    assert_eq!(note_label(&p, 7), "E");
    assert_eq!(note_label(&pos(0, 3, 0), 1), "?");
}

#[test]
fn settings_buttons() {
    assert_eq!(toggle_degree(0xFF, 2), 0xFB);
    assert_eq!(toggle_degree(toggle_degree(0x5A, 6), 6), 0x5A);
    assert_eq!(next_label_mode(0), 1);
    assert_eq!(next_label_mode(2), 0);
    assert_eq!(next_label_mode(9), 1);
    assert_eq!(label_mode_text(0), "Label: ABC");
    assert_eq!(label_mode_text(1), "Label: 123");
    assert_eq!(label_mode_text(2), "Label: A/1");
}

#[test]
fn tuning_selection() {
    assert_eq!(tuning_choice(3, false, 13), TuningChoice::Preset(3));
    assert_eq!(tuning_choice(99, false, 13), TuningChoice::Preset(12));
    assert_eq!(tuning_choice(CUSTOM_TUNING, true, 13), TuningChoice::Custom);
    assert_eq!(tuning_choice(CUSTOM_TUNING, false, 13), TuningChoice::Preset(0));
}

#[test]
fn custom_tuning_edits() {
    let mut t: Tuning = preset_tunings()[0].clone();
    assert!(add_custom_string(&mut t));
    assert_eq!(t.notes, vec![40, 45, 50, 55, 59, 64, 69]);
    assert_eq!(t.name, "Custom");
    assert!(remove_custom_string(&mut t));
    assert!(lower_custom_string(&mut t, 0));
    assert_eq!(t.notes[0], 39);
    assert!(raise_custom_string(&mut t, 0));
    assert_eq!(t.notes[0], 40);

    let mut one = Tuning { name: "x".to_string(), notes: vec![126] };
    assert!(!remove_custom_string(&mut one));
    assert_eq!(one.name, "x");
    assert!(add_custom_string(&mut one));
    assert_eq!(one.notes, vec![126, 127]);
    assert!(!raise_custom_string(&mut one, 1));
    let mut low = Tuning { name: "y".to_string(), notes: vec![20] };
    assert!(!lower_custom_string(&mut low, 0));
    let mut empty = Tuning { name: "z".to_string(), notes: vec![] };
    assert!(add_custom_string(&mut empty));
    assert_eq!(empty.notes, vec![69]);
    let mut full = Tuning { name: "f".to_string(), notes: vec![40; 12] };
    assert!(!add_custom_string(&mut full));
    assert_eq!(full.notes.len(), 12);
}

#[test]
fn key_panel_decisions() {
    assert_eq!(KeyPanel::key_source(4, true), KeySource::Manual(4));
    assert_eq!(KeyPanel::key_source(AUTO_ROOT, true), KeySource::Locked);
    assert_eq!(KeyPanel::key_source(AUTO_ROOT, false), KeySource::Detected);
    assert_eq!(KeyPanel::chord_label(Some("A"), ChordType::Minor7), "Am7");
    assert_eq!(KeyPanel::chord_label(None, ChordType::Sus2), "sus2");
    assert_eq!(key_display_name("C#", false), "C# Minor");
    assert_eq!(key_display_name("G", true), "G Major");
}

#[test]
fn note_log_key_colouring() {
    // A minor: A B C D E F G
    assert!(NoteLogWidget::in_key(9, 9, false));
    assert!(NoteLogWidget::in_key(0, 9, false));
    assert!(!NoteLogWidget::in_key(1, 9, false));
    // D major has F#
    assert!(NoteLogWidget::in_key(6, 2, true));
    assert!(!NoteLogWidget::in_key(5, 2, true));
}

#[test]
fn dot_styles() {
    let root = pos(0, 0, 1);
    let tone = pos(0, 3, 3);
    assert_eq!(dot_style(&root, None), DotStyle::Root);
    assert_eq!(dot_style(&tone, Some(99)), DotStyle::ScaleTone);
    assert_eq!(dot_style(&tone, Some(43)), DotStyle::Active);
    assert_eq!(dot_style(&root, Some(40)), DotStyle::Active);
}

#[test]
fn lock_toggle() {
    let lock = KeyPanel::toggle_lock(false, Some("C Major"));
    assert!(lock.locked);
    assert_eq!(lock.store, Some(Some("C Major")));
    let unlock = KeyPanel::toggle_lock(true, Some("C Major"));
    assert!(!unlock.locked);
    assert_eq!(unlock.store, None);
    let nothing: fretscope::editor::LockToggle<&str> = KeyPanel::toggle_lock(false, None);
    assert_eq!(nothing.store, Some(None));
}
