use chord_quiz::chord::{Chord, Clef, Kind};
use chord_quiz::pitch::{Accidental, Step, Tpc, TpcOctave};
use chord_quiz::quiz::{quiz_chord, random_chord, root_range};
use chord_quiz::score::StaffPosition;

const KINDS: [Kind; 9] = [
    Kind::Maj,
    Kind::Min,
    Kind::Dim,
    Kind::Aug,
    Kind::Dom7,
    Kind::Maj7,
    Kind::Min7,
    Kind::Min7b5,
    Kind::Dim7,
];

fn pitch(step: Step, acc: Accidental, octave: i8) -> TpcOctave {
    TpcOctave(step.with_accidental(acc), octave)
}

fn is_double(t: &Tpc) -> bool {
    matches!(
        t.altered_step().1,
        Some(Accidental::DblFlat) | Some(Accidental::DblSharp)
    )
}

#[test]
fn roots_in_single_accidental_range_build() {
    for kind in KINDS {
        let low = kind.flattest_root_no_dbl_flat().fifths();
        let high = kind.sharpest_root_no_dbl_sharp().fifths();
        for f in low..=high {
            for octave in 2..5 {
                let root = TpcOctave(Tpc::new(f).unwrap(), octave);
                let chord = Chord::new(root, kind).expect("root in range builds");
                assert!(chord.pitches().iter().all(|p| !is_double(&p.0)));
            }
        }
    }
}

#[test]
fn roots_in_double_accidental_range_build() {
    for kind in KINDS {
        let low = kind.flattest_root().fifths();
        let high = kind.sharpest_root().fifths();
        for f in low..=high {
            assert!(Chord::new(TpcOctave(Tpc::new(f).unwrap(), 3), kind).is_some());
        }
    }
}

#[test]
fn one_step_beyond_single_range_needs_double() {
    for kind in KINDS {
        let below = kind.flattest_root_no_dbl_flat().fifths() - 1;
        let above = kind.sharpest_root_no_dbl_sharp().fifths() + 1;
        for f in [below, above] {
            let chord = Chord::new(TpcOctave(Tpc::new(f).unwrap(), 4), kind).unwrap();
            assert!(chord.pitches().iter().any(|p| is_double(&p.0)));
        }
    }
}

#[test]
fn one_step_beyond_double_range_fails() {
    let below = Kind::Dim7.flattest_root().fifths() - 1;
    assert_eq!(below, -7);
    assert!(Chord::new(TpcOctave(Tpc::new(below).unwrap(), 4), Kind::Dim7).is_none());
    let above = Kind::Aug.sharpest_root().fifths() + 1;
    assert_eq!(above, 12);
    assert!(Chord::new(TpcOctave(Tpc::new(above).unwrap(), 4), Kind::Aug).is_none());
}

#[test]
fn root_bounds_per_quality() {
    assert_eq!(Kind::Maj.flattest_root().fifths(), -8);
    assert_eq!(Kind::Maj.flattest_root_no_dbl_flat().fifths(), -8);
    assert_eq!(Kind::Maj.sharpest_root().fifths(), 12);
    assert_eq!(Kind::Maj.sharpest_root_no_dbl_sharp().fifths(), 8);
    assert_eq!(Kind::Dim7.flattest_root().fifths(), -6);
    assert_eq!(Kind::Dim7.flattest_root_no_dbl_flat().fifths(), 1);
    assert_eq!(Kind::Aug.sharpest_root().fifths(), 11);
    assert_eq!(Kind::Aug.sharpest_root_no_dbl_sharp().fifths(), 4);
    assert_eq!(Kind::Min7b5.flattest_root_no_dbl_flat().fifths(), -2);
}

#[test]
fn root_range_follows_the_setting() {
    let (low, high) = root_range(&Kind::Dim7, true);
    assert_eq!((low.fifths(), high.fifths()), (-6, 12));
    let (low, high) = root_range(&Kind::Dim7, false);
    assert_eq!((low.fifths(), high.fifths()), (1, 12));
}

#[test]
fn pitch_list_follows_interval_table() {
    for kind in KINDS {
        let root = pitch(Step::D, Accidental::Natural, 3);
        let chord = Chord::new(root, kind).unwrap();
        let intervals = kind.intervals();
        assert_eq!(chord.pitches().len(), intervals.len());
        for (p, i) in chord.pitches().iter().zip(intervals.iter()) {
            assert_eq!(Some(*p), root.plus(*i));
        }
        assert_eq!(chord.pitches()[0], root);
        assert_eq!(chord.root(), root);
        assert_eq!(chord.kind(), kind);
    }
}

#[test]
fn intervals_tables() {
    assert_eq!(Kind::Maj.intervals().len(), 3);
    assert_eq!(Kind::Dim7.intervals().len(), 4);
    let dom7: Vec<i8> = Kind::Dom7.intervals().iter().map(|i| i.fifths()).collect();
    assert_eq!(dom7, vec![0, 4, 1, -2]);
}

#[test]
fn f_sharp_dominant_seventh() {
    let chord = Chord::new(pitch(Step::F, Accidental::Sharp, 3), Kind::Dom7).unwrap();
    let fifths: Vec<i8> = chord.pitches().iter().map(|p| p.0.fifths()).collect();
    assert_eq!(fifths, vec![6, 10, 7, 4]);
    let octaves: Vec<i8> = chord.pitches().iter().map(|p| p.1).collect();
    assert_eq!(octaves, vec![3, 3, 4, 4]);
}

#[test]
fn staff_positions_rise_from_root() {
    for kind in KINDS {
        for clef in [Clef::G, Clef::C, Clef::F] {
            let root = pitch(Step::A, Accidental::Flat, 3);
            let chord = Chord::new(root, kind).unwrap();
            let positions = chord.staff_positions(&clef);
            assert_eq!(positions[0], clef.position(&root));
            assert!(positions.windows(2).all(|w| w[0].value() <= w[1].value()));
        }
    }
}

#[test]
fn clef_positions() {
    assert_eq!(Clef::G.position(&pitch(Step::E, Accidental::Natural, 4)).value(), 0);
    assert_eq!(Clef::G.position(&pitch(Step::C, Accidental::Natural, 4)).value(), -2);
    assert_eq!(Clef::F.position(&pitch(Step::G, Accidental::Natural, 2)).value(), 0);
    assert_eq!(Clef::C.position(&pitch(Step::C, Accidental::Sharp, 4)).value(), 4);
    assert_eq!(Clef::F.position(&pitch(Step::A, Accidental::Natural, 3)).value(), 8);
}

#[test]
fn clef_for_root() {
    assert_eq!(Clef::for_root(&pitch(Step::C, Accidental::Natural, 4)), Clef::G);
    assert_eq!(Clef::for_root(&pitch(Step::F, Accidental::Natural, 3)), Clef::G);
    assert_eq!(Clef::for_root(&pitch(Step::E, Accidental::Natural, 3)), Clef::F);
    assert_eq!(Clef::for_root(&pitch(Step::B, Accidental::Natural, 2)), Clef::F);
}

#[test]
fn clef_glyphs() {
    assert_eq!(Clef::G.to_glyph(), '\u{e050}');
    assert_eq!(Clef::F.to_glyph(), '\u{e062}');
    assert_eq!(Clef::C.to_glyph(), '@');
}

#[test]
fn f_diminished_accidentals() {
    let chord = Chord::new(pitch(Step::F, Accidental::Natural, 4), Kind::Dim).unwrap();
    let fifths: Vec<i8> = chord.pitches().iter().map(|p| p.0.fifths()).collect();
    assert_eq!(fifths, vec![-1, -4, -7]);
    let accs = chord.accidentals(&Clef::G);
    assert_eq!(
        accs,
        vec![
            (Accidental::Flat, StaffPosition::new(3)),
            (Accidental::Flat, StaffPosition::new(5)),
        ]
    );
}

#[test]
fn accidental_count_matches_altered_pitches() {
    for kind in KINDS {
        for f in -8..=12 {
            let Some(chord) = Chord::new(TpcOctave(Tpc::new(f).unwrap(), 3), kind) else {
                continue;
            };
            let altered = chord
                .pitches()
                .iter()
                .filter(|p| p.0.altered_step().1.is_some())
                .count();
            assert_eq!(chord.accidentals(&Clef::F).len(), altered);
        }
    }
}

#[test]
fn display_names() {
    let c = pitch(Step::C, Accidental::Natural, 4);
    assert_eq!(Chord::new(c, Kind::Maj).unwrap().display_name(), "C");
    assert_eq!(Chord::new(c, Kind::Min7b5).unwrap().display_name(), "Cm7\u{266d}5");
    let f = pitch(Step::F, Accidental::Natural, 4);
    assert_eq!(Chord::new(f, Kind::Dim).unwrap().display_name(), "Fm\u{266d}5");
    let fs = pitch(Step::F, Accidental::Sharp, 3);
    assert_eq!(Chord::new(fs, Kind::Dim7).unwrap().display_name(), "F\u{266f}dim7");
    let bbb = pitch(Step::B, Accidental::DblFlat, 3);
    assert_eq!(Chord::new(bbb, Kind::Aug).unwrap().display_name(), "B\u{266d}\u{266d}+");
    let e = pitch(Step::E, Accidental::Flat, 3);
    assert_eq!(Chord::new(e, Kind::Maj7).unwrap().display_name(), "E\u{266d}maj7");
}

#[test]
fn default_chord_is_c_major() {
    let chord = Chord::default();
    assert_eq!(chord.display_name(), "C");
    assert_eq!(chord.root(), pitch(Step::C, Accidental::Natural, 4));
    assert_eq!(chord.clone().pitches().len(), 3);
}

#[test]
fn kind_numbering() {
    assert_eq!(Kind::from_index(0), Kind::Maj);
    assert_eq!(Kind::from_index(5), Kind::Dim7);
    assert_eq!(Kind::from_index(8), Kind::Min7b5);
    assert_eq!(Kind::from_index(40), Kind::Min7b5);
}

#[test]
fn quiz_chord_checks_draws() {
    assert!(quiz_chord(Kind::Dim7, 0, 3, false).is_none());
    let chord = quiz_chord(Kind::Dim7, 1, 3, false).unwrap();
    assert_eq!(chord.display_name(), "Gdim7");
    assert!(quiz_chord(Kind::Dim7, 12, 3, false).is_none());
    assert!(quiz_chord(Kind::Maj, 0, 5, true).is_none());
    assert!(quiz_chord(Kind::Maj, 0, 1, true).is_none());
    assert!(quiz_chord(Kind::Maj, -8, 2, true).is_some());
}

#[test]
fn random_chords_stay_in_range() {
    for dbl in [false, true] {
        for _ in 0..200 {
            let chord = random_chord(dbl);
            let kind = chord.kind();
            let (low, high) = root_range(&kind, dbl);
            let root = chord.root();
            assert!(low.fifths() <= root.0.fifths() && root.0.fifths() < high.fifths());
            assert!((2..5).contains(&root.1));
            if !dbl {
                assert!(chord.pitches().iter().all(|p| !is_double(&p.0)));
            }
        }
    }
}
