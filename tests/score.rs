use chord_quiz::chord::{Chord, Clef, Kind};
use chord_quiz::pitch::{Accidental, Step, TpcOctave};
use chord_quiz::score::{
    accidental_glyph, c_7, c_maj_7, leger_lines, triad_example, Builder, Primitive,
    StaffPosition, ACCIDENTAL_FLAT, ACCIDENTAL_SHARP, NOTEHEAD_WHOLE,
};

fn values(ps: &[StaffPosition]) -> Vec<i32> {
    ps.iter().map(|p| p.value()).collect()
}

fn lines(ps: &[Primitive]) -> usize {
    ps.iter().filter(|p| matches!(p, Primitive::Line { .. })).count()
}

#[test]
fn leger_lines_below_and_above() {
    let legers = leger_lines(&StaffPosition::new(-4), &StaffPosition::new(12));
    assert_eq!(values(&legers), vec![-4, -2, 10, 12]);
}

#[test]
fn leger_lines_for_spaces_and_inside_staff() {
    assert_eq!(values(&leger_lines(&StaffPosition::new(-5), &StaffPosition::new(11))), vec![-4, -2, 10]);
    assert_eq!(values(&leger_lines(&StaffPosition::new(-1), &StaffPosition::new(9))), Vec::<i32>::new());
    assert_eq!(values(&leger_lines(&StaffPosition::new(0), &StaffPosition::new(8))), Vec::<i32>::new());
    assert_eq!(values(&leger_lines(&StaffPosition::new(-2), &StaffPosition::new(10))), vec![-2, 10]);
}

#[test]
fn chord_draws_legers_then_noteheads() {
    let positions = [StaffPosition::new(-4), StaffPosition::new(4), StaffPosition::new(12)];
    let score = Builder::new().space(100).chord(&positions).into_svg();
    // five staff lines, four leger lines, three noteheads
    assert_eq!(score.primitives.len(), 12);
    assert_eq!(lines(&score.primitives), 9);
    assert_eq!(
        score.primitives[5],
        Primitive::Line { x1: 3000, y1: 24000, x2: 11752, y2: 24000, thickness: 640 }
    );
    assert_eq!(
        score.primitives[11],
        Primitive::Glyph { glyph: NOTEHEAD_WHOLE, x: 4000, y: -8000 }
    );
}

#[test]
fn staff_heights() {
    assert_eq!(StaffPosition::new(0).to_y(), 16000);
    assert_eq!(StaffPosition::new(8).to_y(), 0);
    assert_eq!(StaffPosition::new(-3).to_y(), 22000);
    assert_eq!(StaffPosition::new(5).plus(2).value(), 7);
}

#[test]
fn cursor_never_moves_back() {
    let mut cursors = vec![];
    let b = Builder::new();
    cursors.push(b.cursor());
    let b = b.space(50);
    cursors.push(b.cursor());
    let b = b.clef(&Clef::G);
    cursors.push(b.cursor());
    let b = b.space(600);
    cursors.push(b.cursor());
    let b = b.accidentals(&[(Accidental::Sharp, StaffPosition::new(3))]);
    cursors.push(b.cursor());
    let b = b.chord(&[StaffPosition::new(3)]);
    cursors.push(b.cursor());
    let b = b.barline();
    cursors.push(b.cursor());
    let b = b.space(0);
    cursors.push(b.cursor());
    assert_eq!(cursors, vec![0, 2000, 2000, 26000, 26000, 26000, 27920, 27920]);
    assert!(cursors.windows(2).all(|w| w[0] <= w[1]));
}

#[test]
fn barline_strokes() {
    let score = Builder::new().space(25).barline().into_svg();
    assert_eq!(score.viewport.width, 1000 + 1920 + 16000);
    assert_eq!(
        score.primitives[5],
        Primitive::Line { x1: 1000, y1: 0, x2: 1000, y2: 16000, thickness: 640 }
    );
    assert_eq!(
        score.primitives[6],
        Primitive::Line { x1: 2600, y1: 0, x2: 2600, y2: 16000, thickness: 640 }
    );
}

#[test]
fn staff_spans_the_cursor() {
    let score = Builder::new().space(300).into_svg();
    assert_eq!(score.primitives.len(), 5);
    assert_eq!(
        score.primitives[4],
        Primitive::Line { x1: 0, y1: 16000, x2: 12000, y2: 16000, thickness: 520 }
    );
    assert_eq!(score.viewport.x, -8000);
    assert_eq!(score.viewport.y, -16000);
    assert_eq!(score.viewport.width, 28000);
    assert_eq!(score.viewport.height, 48000);
}

#[test]
fn clef_glyph_heights() {
    let score = Builder::new().clef(&Clef::G).clef(&Clef::F).clef(&Clef::C).into_svg();
    assert_eq!(score.primitives[5], Primitive::Glyph { glyph: '\u{e050}', x: 0, y: 12000 });
    assert_eq!(score.primitives[6], Primitive::Glyph { glyph: '\u{e062}', x: 0, y: 4000 });
    assert_eq!(score.primitives[7], Primitive::Glyph { glyph: '@', x: 0, y: 8000 });
}

#[test]
fn accidentals_sorted_and_in_columns() {
    let accs = [
        (Accidental::Sharp, StaffPosition::new(0)),
        (Accidental::Flat, StaffPosition::new(2)),
        (Accidental::Sharp, StaffPosition::new(8)),
    ];
    let score = Builder::new().space(1000).accidentals(&accs).into_svg();
    let glyphs: Vec<Primitive> = score.primitives[5..].to_vec();
    assert_eq!(
        glyphs,
        vec![
            Primitive::Glyph { glyph: ACCIDENTAL_SHARP, x: 40000, y: 0 },
            Primitive::Glyph { glyph: ACCIDENTAL_FLAT, x: 40000, y: 12000 },
            Primitive::Glyph { glyph: ACCIDENTAL_SHARP, x: 36000, y: 16000 },
        ]
    );
}

#[test]
fn accidentals_close_together_step_left() {
    let accs = [
        (Accidental::Flat, StaffPosition::new(1)),
        (Accidental::Flat, StaffPosition::new(3)),
        (Accidental::Flat, StaffPosition::new(5)),
        (Accidental::Flat, StaffPosition::new(-1)),
    ];
    let score = Builder::new().space(1000).accidentals(&accs).into_svg();
    let xs: Vec<i64> = score.primitives[5..]
        .iter()
        .map(|p| match p {
            Primitive::Glyph { x, .. } => *x,
            Primitive::Line { x1, .. } => *x1,
        })
        .collect();
    // 5, 3, 1 share one column; -1 lies six steps below 5 and starts another
    assert_eq!(xs, vec![40000, 36000, 32000, 40000]);
}

#[test]
fn accidental_glyphs() {
    assert_eq!(accidental_glyph(&Accidental::DblFlat), '\u{e264}');
    assert_eq!(accidental_glyph(&Accidental::Natural), '\u{e261}');
    assert_eq!(accidental_glyph(&Accidental::DblSharp), '\u{e263}');
}

#[test]
fn triads_and_examples() {
    let score = triad_example(-2);
    // staff, clef, one leger line, three noteheads, two barline strokes
    assert_eq!(score.primitives.len(), 5 + 1 + 1 + 3 + 2);
    assert_eq!(score.viewport.width, 51920 + 16000);
    let score = c_maj_7();
    assert_eq!(score.primitives.len(), 5 + 1 + 1 + 4 + 2);
    let score = c_7();
    assert_eq!(score.primitives.len(), 5 + 1 + 1 + 1 + 4 + 2);
    assert_eq!(score.viewport.width, 57920 + 16000);
    assert_eq!(score.primitives[6], Primitive::Glyph { glyph: ACCIDENTAL_FLAT, x: 26000, y: 8000 });
}

#[test]
fn chord_drawing() {
    let root = TpcOctave(Step::F.with_accidental(Accidental::Natural), 4);
    let chord = Chord::new(root, Kind::Dim).unwrap();
    let score = chord.drawing_commands(None);
    assert_eq!(score.viewport.width, 57920 + 16000);
    // staff, clef, two flats, three noteheads, barline
    assert_eq!(score.primitives.len(), 5 + 1 + 2 + 3 + 2);
    assert_eq!(score.primitives[5], Primitive::Glyph { glyph: '\u{e050}', x: 2000, y: 12000 });
    assert_eq!(score.primitives[6], Primitive::Glyph { glyph: ACCIDENTAL_FLAT, x: 26000, y: 6000 });
    assert_eq!(score.primitives[7], Primitive::Glyph { glyph: ACCIDENTAL_FLAT, x: 22000, y: 10000 });
    assert_eq!(score.primitives[8], Primitive::Glyph { glyph: NOTEHEAD_WHOLE, x: 32000, y: 14000 });
    let bass = chord.drawing_commands(Some(Clef::F));
    assert_eq!(bass.primitives[5], Primitive::Glyph { glyph: '\u{e062}', x: 2000, y: 4000 });
    assert_eq!(chord.to_svg().primitives, score.primitives);
}

#[test]
fn accidentals_at_equal_positions_keep_their_order() {
    let accs = [
        (Accidental::Flat, StaffPosition::new(3)),
        (Accidental::Sharp, StaffPosition::new(3)),
        (Accidental::Sharp, StaffPosition::new(7)),
    ];
    let score = Builder::new().accidentals(&accs).into_svg();
    assert_eq!(
        score.primitives[5..].to_vec(),
        vec![
            Primitive::Glyph { glyph: ACCIDENTAL_SHARP, x: 0, y: 2000 },
            Primitive::Glyph { glyph: ACCIDENTAL_FLAT, x: -4000, y: 10000 },
            Primitive::Glyph { glyph: ACCIDENTAL_SHARP, x: -8000, y: 10000 },
        ]
    );
}

#[test]
fn triad_stacks_thirds() {
    let score = Builder::new().triad(&StaffPosition::new(6)).into_svg();
    // staff, one leger line at 10, three noteheads
    assert_eq!(score.primitives.len(), 5 + 1 + 3);
    assert_eq!(score.primitives[6], Primitive::Glyph { glyph: NOTEHEAD_WHOLE, x: 0, y: 4000 });
    assert_eq!(score.primitives[8], Primitive::Glyph { glyph: NOTEHEAD_WHOLE, x: 0, y: -4000 });
}
