use chord_quiz::pitch::{Accidental, Interval, Step, Tpc, TpcOctave};

fn tpc(fifths: i8) -> Tpc {
    Tpc::new(fifths).unwrap()
}

#[test]
fn tpc_new_checks_the_range() {
    assert!(Tpc::new(-15).is_some());
    assert!(Tpc::new(19).is_some());
    assert!(Tpc::new(-16).is_none());
    assert!(Tpc::new(20).is_none());
    assert_eq!(tpc(7).fifths(), 7);
}

#[test]
fn step_reads_the_letter() {
    assert_eq!(tpc(0).step(), Step::C);
    assert_eq!(tpc(1).step(), Step::G);
    assert_eq!(tpc(-1).step(), Step::F);
    assert_eq!(tpc(6).step(), Step::F);
    assert_eq!(tpc(-4).step(), Step::A);
    assert_eq!(tpc(19).step(), Step::B);
}

#[test]
fn altered_step_of_naturals_and_altered() {
    assert_eq!(tpc(0).altered_step(), (Step::C, None));
    assert_eq!(tpc(5).altered_step(), (Step::B, None));
    assert_eq!(tpc(-1).altered_step(), (Step::F, None));
    assert_eq!(tpc(13).altered_step(), (Step::F, Some(Accidental::DblSharp)));
    assert_eq!(tpc(-4).altered_step(), (Step::A, Some(Accidental::Flat)));
    assert_eq!(tpc(-15).altered_step(), (Step::F, Some(Accidental::DblFlat)));
    assert_eq!(tpc(7).altered_step(), (Step::C, Some(Accidental::Sharp)));
}

#[test]
fn with_accidental_spells() {
    assert_eq!(Step::A.with_accidental(Accidental::Flat).fifths(), -4);
    assert_eq!(Step::C.with_accidental(Accidental::Natural).fifths(), 0);
    assert_eq!(Step::F.with_accidental(Accidental::Sharp).fifths(), 6);
    assert_eq!(Step::E.with_accidental(Accidental::DblFlat).fifths(), -10);
    assert_eq!(Step::B.with_accidental(Accidental::DblSharp).fifths(), 19);
}

#[test]
fn plus_and_minus_intervals() {
    assert_eq!(tpc(0).plus(Interval::Maj3).map(|t| t.fifths()), Some(4));
    assert_eq!(tpc(6).plus(Interval::Dim5).map(|t| t.fifths()), Some(0));
    assert!(tpc(-15).plus(Interval::Dim5).is_none());
    assert!(tpc(16).plus(Interval::Maj3).is_none());
    assert_eq!(tpc(-15).minus(Interval::Dim7).map(|t| t.fifths()), Some(-6));
    assert!(tpc(-15).minus(Interval::Perfect5).is_none());
}

#[test]
fn octave_rises_when_the_letter_wraps() {
    let a4 = TpcOctave(tpc(3), 4);
    let c5 = a4.plus(Interval::Min3).unwrap();
    assert_eq!(c5, TpcOctave(tpc(0), 5));
    let c4 = TpcOctave(tpc(0), 4);
    assert_eq!(c4.plus(Interval::Maj3).unwrap(), TpcOctave(tpc(4), 4));
    let b3 = TpcOctave(tpc(5), 3);
    assert_eq!(b3.plus(Interval::Perfect5).unwrap(), TpcOctave(tpc(6), 4));
    assert!(TpcOctave(tpc(16), 4).plus(Interval::Maj3).is_none());
}

#[test]
fn interval_displacements() {
    assert_eq!(Interval::Unison.fifths(), 0);
    assert_eq!(Interval::Dim7.fifths(), -9);
    assert_eq!(Interval::Aug5.fifths(), 8);
    assert_eq!(Interval::Min7.fifths(), -2);
}

#[test]
fn names_and_symbols() {
    assert_eq!(Step::G.name(), "G");
    assert_eq!(Accidental::DblFlat.symbol(), "\u{266d}\u{266d}");
    assert_eq!(Accidental::Sharp.symbol(), "\u{266f}");
    assert_eq!(Accidental::Natural.symbol(), "");
    assert_eq!(Accidental::Flat.to_alteration(), -1);
    assert_eq!(Step::from_index(4), Step::G);
    assert_eq!(Step::B.to_index(), 6);
}
