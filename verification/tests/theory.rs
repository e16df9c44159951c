use fretscope::theory::{
    all_note_names, chord_positions, common_voicings, degree_label, midi_to_label, note_name,
    preset_tunings, scale_positions, ChordType, ScaleType, Tuning,
};

#[test]
fn test_c_major_scale_intervals() {
    let intervals = ScaleType::Major.intervals();
    assert_eq!(intervals, &[0, 2, 4, 5, 7, 9, 11]);
}

#[test]
fn test_scale_positions_contain_root() {
    let std_tuning = &preset_tunings()[0]; // Standard EADGBE
    let positions = scale_positions(0, ScaleType::Major, std_tuning, 24); // C Major
    let roots: Vec<_> = positions.iter().filter(|p| p.is_root).collect();
    assert!(!roots.is_empty());
    assert!(roots.iter().all(|p| p.note_name == "C"));
}

#[test]
fn test_a_minor_pentatonic() {
    let intervals = ScaleType::PentatonicMinor.intervals();
    assert_eq!(intervals, &[0, 3, 5, 7, 10]);
}

#[test]
fn note_names_follow_pitch_class() {
    assert_eq!(note_name(60), "C");
    assert_eq!(note_name(61), "C#");
    assert_eq!(note_name(69), "A");
    assert_eq!(note_name(71), "B");
    assert_eq!(note_name(72), "C");
    assert_eq!(all_note_names().len(), 12);
    assert_eq!(all_note_names()[6], "F#");
}

#[test]
fn midi_labels_carry_octave() {
    assert_eq!(midi_to_label(60), "C4");
    assert_eq!(midi_to_label(40), "E2");
    assert_eq!(midi_to_label(0), "C-1");
    assert_eq!(midi_to_label(11), "B-1");
    assert_eq!(midi_to_label(127), "G9");
    assert_eq!(midi_to_label(255), "D#20");
}

#[test]
fn tuning_string_labels() {
    let std = &preset_tunings()[0];
    assert_eq!(std.string_count(), 6);
    assert_eq!(std.note_label(0), "E2");
    assert_eq!(std.note_label(5), "E4");
    assert_eq!(std.note_label(6), "?");
    let bass = &preset_tunings()[12];
    assert_eq!(bass.name, "Bass 5-String (BEADG)");
    assert_eq!(bass.notes, vec![23, 28, 33, 38, 43]);
}

#[test]
fn presets_are_listed_low_to_high() {
    let presets = preset_tunings();
    assert_eq!(presets.len(), 13);
    for t in &presets {
        for w in t.notes.windows(2) {
            assert!(w[0] < w[1], "{}", t.name);
        }
    }
}

#[test]
fn scale_and_chord_names() {
    assert_eq!(ScaleType::Major.name(), "Major (Ionian)");
    assert_eq!(ScaleType::WholeTone.name(), "Whole Tone");
    assert_eq!(ScaleType::all().len(), 15);
    assert_eq!(ScaleType::all()[9], ScaleType::Dorian);
    assert_eq!(ChordType::Major.suffix(), "");
    assert_eq!(ChordType::Major7.suffix(), "maj7");
    assert_eq!(ChordType::Power.suffix(), "5");
    assert_eq!(ChordType::all().len(), 11);
    assert_eq!(ChordType::Dominant7.intervals(), &[0, 4, 7, 10]);
}

#[test]
fn intervals_rise_from_root_within_octave() {
    for s in ScaleType::all() {
        let ivs = s.intervals();
        assert_eq!(ivs[0], 0);
        assert!(ivs.windows(2).all(|w| w[0] < w[1]));
        assert!(ivs.iter().all(|&i| i < 12));
    }
    for c in ChordType::all() {
        let ivs = c.intervals();
        assert_eq!(ivs[0], 0);
        assert!(ivs.windows(2).all(|w| w[0] < w[1]));
        assert!(ivs.iter().all(|&i| i < 12));
    }
}

#[test]
fn dorian_is_major_read_from_second_degree() {
    let major = ScaleType::Major.intervals();
    let dorian: Vec<u8> = (0..7).map(|i| (major[(i + 1) % 7] + 12 - major[1]) % 12).collect();
    assert_eq!(ScaleType::Dorian.intervals(), dorian.as_slice());
    assert_eq!(ScaleType::Aeolian.intervals(), ScaleType::NaturalMinor.intervals());
}

#[test]
fn degree_labels() {
    assert_eq!(degree_label(1), "1");
    assert_eq!(degree_label(7), "7");
    assert_eq!(degree_label(0), "?");
    assert_eq!(degree_label(8), "?");
}

#[test]
fn scale_positions_exact_on_one_string() {
    let t = Tuning { name: "one".to_string(), notes: vec![40] }; // low E
    // E minor pentatonic on the low E string, frets 0..=5
    let positions = scale_positions(4, ScaleType::PentatonicMinor, &t, 5);
    let frets: Vec<u8> = positions.iter().map(|p| p.fret).collect();
    assert_eq!(frets, vec![0, 3, 5]);
    let p = &positions[1];
    assert_eq!(p.string, 0);
    assert_eq!(p.midi_note, 43);
    assert_eq!(p.note_name, "G");
    assert_eq!(p.interval, 3);
    assert_eq!(p.scale_degree, 2);
    assert!(!p.is_root);
    assert!(positions[0].is_root);
    assert_eq!(positions[2].note_name, "A");
    assert_eq!(positions[2].scale_degree, 3);
}

#[test]
fn scale_positions_cap_at_thirty_frets() {
    let t = Tuning { name: "one".to_string(), notes: vec![40] };
    let positions = scale_positions(4, ScaleType::Major, &t, 200);
    assert!(positions.iter().all(|p| p.fret <= 30));
    assert_eq!(positions.last().unwrap().fret, 29); // E + 29 = A (a major-scale tone of E)
    assert!(positions.iter().any(|p| p.fret == 24 && p.is_root));
}

#[test]
fn positions_ordered_by_string_then_fret() {
    let std = &preset_tunings()[0];
    let positions = chord_positions(9, ChordType::Minor, std, 12);
    for w in positions.windows(2) {
        assert!(w[0].string < w[1].string || (w[0].string == w[1].string && w[0].fret < w[1].fret));
    }
    assert!(positions.iter().all(|p| [0u8, 3, 7].contains(&p.interval)));
    assert_eq!(positions.iter().filter(|p| p.string == 0).count(), 4); // E:0, A:5, C:8, E:12
}

#[test]
fn empty_tuning_has_no_positions() {
    let t = Tuning { name: "none".to_string(), notes: vec![] };
    assert!(scale_positions(0, ScaleType::Blues, &t, 24).is_empty());
}

#[test]
fn voicings_of_c_major() {
    let v = common_voicings(0, ChordType::Major);
    assert_eq!(v.len(), 2);
    assert_eq!(v[0].name, "C (E shape)");
    assert_eq!(v[0].frets, [8, 10, 10, 9, 8, 8]);
    assert_eq!(v[1].name, "C (A shape)");
    assert_eq!(v[1].frets, [-1, 3, 5, 5, 5, 3]);
    assert_eq!(v[1].root_pc, 0);
    assert_eq!(v[1].chord_type, ChordType::Major);
}

#[test]
fn voicings_of_power_and_minor() {
    let p = common_voicings(4, ChordType::Power);
    assert_eq!(p.len(), 2);
    assert_eq!(p[0].name, "E5 (A shape)");
    assert_eq!(p[0].frets, [-1, 7, 9, 9, -1, -1]);
    assert_eq!(p[1].name, "E5 (E shape)");
    assert_eq!(p[1].frets, [0, 2, 2, -1, -1, -1]);
    let m = common_voicings(9, ChordType::Minor);
    assert_eq!(m[0].name, "Am (E shape)");
    assert_eq!(m[0].frets, [5, 7, 7, 5, 5, 5]);
    assert_eq!(m[1].frets, [-1, 0, 2, 2, 1, 0]);
    assert!(common_voicings(2, ChordType::Sus4).is_empty());
}

#[test]
fn voicings_sound_chord_tones() {
    let std = [40u8, 45, 50, 55, 59, 64];
    for root in 0u8..12 {
        for &ct in ChordType::all() {
            for v in common_voicings(root, ct) {
                for (s, &f) in v.frets.iter().enumerate() {
                    if f >= 0 {
                        let pc = (std[s] + f as u8) % 12;
                        let iv = (pc + 12 - root) % 12;
                        assert!(ct.intervals().contains(&iv));
                    }
                }
            }
        }
    }
}

#[test]
fn voicings_rooted_on_lowest_played_string() {
    let std = [40u8, 45, 50, 55, 59, 64];
    for root in 0u8..12 {
        for &ct in ChordType::all() {
            for v in common_voicings(root, ct) {
                let low = v.frets.iter().position(|&f| f >= 0).unwrap();
                assert!(low <= 1);
                assert_eq!((std[low] + v.frets[low] as u8) % 12, root);
                assert!(v.frets.iter().all(|&f| (-1..=13).contains(&f)));
            }
        }
    }
}

#[test]
fn fewer_frets_keep_prefix() {
    let std = &preset_tunings()[0];
    let long = scale_positions(7, ScaleType::Mixolydian, std, 22);
    let short = scale_positions(7, ScaleType::Mixolydian, std, 9);
    let kept: Vec<(u8, u8)> = long.iter().filter(|p| p.fret <= 9).map(|p| (p.string, p.fret)).collect();
    let got: Vec<(u8, u8)> = short.iter().map(|p| (p.string, p.fret)).collect();
    assert_eq!(got, kept);
    let capped: Vec<(u8, u8)> = scale_positions(7, ScaleType::Major, std, 30).iter().map(|p| (p.string, p.fret)).collect();
    let beyond: Vec<(u8, u8)> = scale_positions(7, ScaleType::Major, std, 120).iter().map(|p| (p.string, p.fret)).collect();
    assert_eq!(capped, beyond);
}

#[test]
fn chord_positions_are_scale_chord_tones() {
    let std = &preset_tunings()[0];
    let chord = chord_positions(9, ChordType::Minor, std, 15);
    let scale = scale_positions(9, ScaleType::NaturalMinor, std, 15);
    let from_scale: Vec<(u8, u8, u8)> = scale
        .iter()
        .filter(|p| ChordType::Minor.intervals().contains(&p.interval))
        .map(|p| (p.string, p.fret, p.interval))
        .collect();
    let got: Vec<(u8, u8, u8)> = chord.iter().map(|p| (p.string, p.fret, p.interval)).collect();
    assert_eq!(got, from_scale);
}
