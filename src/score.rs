//! Engraving layout: staff positions, and a builder that lays out a clef,
//! accidentals, noteheads, leger lines and a barline as drawing primitives.
//!
//! Coordinates are integers in thousandths of a drawing unit; a staff space
//! is four units. The bottom staff line is at height 16 units and heights
//! grow downward.
use crate::chord::Clef;
use crate::pitch::Accidental;
use vstd::prelude::*;

verus! {

/// A place on the staff in diatonic steps above the bottom line; two steps
/// make one staff space.
#[derive(Clone, Copy, Debug, PartialEq, Eq, Structural, PartialOrd, Ord)]
pub struct StaffPosition(i32);

impl View for StaffPosition {
    type V = int;

    closed spec fn view(&self) -> int {
        self.0 as int
    }
}

impl StaffPosition {
    pub fn new(pos: i32) -> (r: StaffPosition)
        ensures
            r@ == pos,
    {
        StaffPosition(pos)
    }

    pub fn value(&self) -> (r: i32)
        ensures
            r == self@,
    {
        self.0
    }
    /// Height of the position on the drawing, in thousandths of a unit.
    pub fn to_y(&self) -> (r: i64)
        ensures
            r == y_of(self@),
    {
        STAFF_HEIGHT - (STAFF_SPACE / 2) * (self.0 as i64)
    }

    /// The position `steps` diatonic steps higher.
    pub fn plus(&self, steps: i32) -> (r: StaffPosition)
        requires
            i32::MIN <= self@ + steps <= i32::MAX,
        ensures
            r@ == self@ + steps,
    {
        StaffPosition(self.0 + steps)
    }
}

/// Height on the drawing of staff position `pos`: the bottom line is 16
/// units down and each step is half a staff space.
pub open spec fn y_of(pos: int) -> int {
    STAFF_HEIGHT - (STAFF_SPACE / 2) * pos
}

/// Distance between two staff lines, in thousandths of a unit.
pub const STAFF_SPACE: i64 = 4000;

/// Height of the bottom staff line below the top one.
pub const STAFF_HEIGHT: i64 = 16000;

/// Stroke width of the staff lines.
pub const STAFF_LINE_THICKNESS: i64 = 520;

/// Stroke width of a leger line.
pub const LEGER_LINE_THICKNESS: i64 = 640;

/// Length of a leger line.
pub const LEGER_LINE_LENGTH: i64 = 8752;

/// How far a leger line starts left of its notehead.
pub const LEGER_LINE_OVERHANG: i64 = 1000;

/// Stroke width of a thin barline.
pub const THIN_BARLINE_THICKNESS: i64 = 640;

/// Gap between the two strokes of a double barline.
pub const BARLINE_SEPARATION: i64 = 1600;

/// Distance that a barline moves the cursor: the gap between its strokes
/// and half a stroke.
pub const BARLINE_ADVANCE: i64 = 1920;

/// Largest cursor a layout may reach, far beyond any staff drawn.
pub const MAX_CURSOR: i64 = 1_000_000_000_000;

/// Most accidentals laid out in one call.
pub const MAX_ACCIDENTALS: usize = 1_000_000;

pub const NOTEHEAD_WHOLE: char = '\u{e0a2}';

pub const ACCIDENTAL_FLAT: char = '\u{e260}';

pub const ACCIDENTAL_NATURAL: char = '\u{e261}';

pub const ACCIDENTAL_SHARP: char = '\u{e262}';

pub const ACCIDENTAL_DOUBLE_SHARP: char = '\u{e263}';

pub const ACCIDENTAL_DOUBLE_FLAT: char = '\u{e264}';

pub open spec fn glyph_of(acc: Accidental) -> char {
    match acc {
        Accidental::DblFlat => ACCIDENTAL_DOUBLE_FLAT,
        Accidental::Flat => ACCIDENTAL_FLAT,
        Accidental::Natural => ACCIDENTAL_NATURAL,
        Accidental::Sharp => ACCIDENTAL_SHARP,
        Accidental::DblSharp => ACCIDENTAL_DOUBLE_SHARP,
    }
}

/// The font glyph of an accidental.
pub fn accidental_glyph(acc: &Accidental) -> (r: char)
    ensures
        r == glyph_of(*acc),
{
    match acc {
        Accidental::DblFlat => ACCIDENTAL_DOUBLE_FLAT,
        Accidental::Flat => ACCIDENTAL_FLAT,
        Accidental::Natural => ACCIDENTAL_NATURAL,
        Accidental::Sharp => ACCIDENTAL_SHARP,
        Accidental::DblSharp => ACCIDENTAL_DOUBLE_SHARP,
    }
}

/// One drawing primitive. Coordinates are in thousandths of a unit, with
/// heights growing downward.
#[derive(Clone, Copy, Debug, PartialEq, Eq, Structural)]
pub enum Primitive {
    /// A font glyph with its origin at (x, y).
    Glyph { glyph: char, x: i64, y: i64 },
    /// A straight stroke from (x1, y1) to (x2, y2).
    Line { x1: i64, y1: i64, x2: i64, y2: i64, thickness: i64 },
}

/// The rectangle of the drawing that is shown.
#[derive(Clone, Copy, Debug, PartialEq, Eq, Structural)]
pub struct Viewport {
    pub x: i64,
    pub y: i64,
    pub width: i64,
    pub height: i64,
}

/// A finished drawing: what to show, and the primitives in drawing order.
#[derive(Debug)]
pub struct Score {
    pub viewport: Viewport,
    pub primitives: Vec<Primitive>,
}

/// The state of a layout: the cursor, and the primitives emitted so far.
pub struct BuilderView {
    pub cursor: int,
    pub primitives: Seq<Primitive>,
}

pub open spec fn clef_y(clef: Clef) -> int {
    match clef {
        Clef::G => STAFF_SPACE * 3,
        Clef::F => STAFF_SPACE as int,
        Clef::C => STAFF_SPACE * 2,
    }
}

/// The two strokes of a barline at `x`.
pub open spec fn barline_primitives(x: int) -> Seq<Primitive> {
    seq![
        Primitive::Line { x1: x as i64, y1: 0, x2: x as i64, y2: STAFF_HEIGHT, thickness: THIN_BARLINE_THICKNESS },
        Primitive::Line {
            x1: (x + BARLINE_SEPARATION) as i64,
            y1: 0,
            x2: (x + BARLINE_SEPARATION) as i64,
            y2: STAFF_HEIGHT,
            thickness: THIN_BARLINE_THICKNESS,
        },
    ]
}

/// The five staff lines, from x = 0 to `width`, top line first.
pub open spec fn staff_primitives(width: int) -> Seq<Primitive> {
    Seq::new(
        5,
        |k: int|
            Primitive::Line {
                x1: 0,
                y1: (STAFF_SPACE * k) as i64,
                x2: width as i64,
                y2: (STAFF_SPACE * k) as i64,
                thickness: STAFF_LINE_THICKNESS,
            },
    )
}

/// Accumulates a layout from left to right along a cursor that only moves
/// rightwards.
pub struct Builder {
    cursor: i64,
    nodes: Vec<Primitive>,
}

impl View for Builder {
    type V = BuilderView;

    closed spec fn view(&self) -> BuilderView {
        BuilderView { cursor: self.cursor as int, primitives: self.nodes@ }
    }
}

impl Builder {
    #[verifier::type_invariant]
    spec fn inv(self) -> bool {
        0 <= self.cursor <= MAX_CURSOR
    }

    /// An empty layout with the cursor at the left edge.
    pub fn new() -> (r: Builder)
        ensures
            r@.cursor == 0,
            r@.primitives == Seq::<Primitive>::empty(),
    {
        Builder { cursor: 0, nodes: Vec::new() }
    }

    /// Where the next element goes.
    pub fn cursor(&self) -> (r: i64)
        ensures
            r == self@.cursor,
            0 <= r <= MAX_CURSOR,
    {
        proof {
            use_type_invariant(self);
        }
        self.cursor
    }

    /// Moves the cursor rightwards by `hundredths` hundredths of a staff
    /// space.
    pub fn space(self, hundredths: u32) -> (r: Builder)
        requires
            self@.cursor + (STAFF_SPACE / 100) * hundredths <= MAX_CURSOR,
        ensures
            r@.cursor == self@.cursor + (STAFF_SPACE / 100) * hundredths,
            r@.primitives == self@.primitives,
            r@ == apply(self@, LayoutOp::Space(hundredths as nat)),
    {
        proof {
            use_type_invariant(&self);
        }
        let Builder { cursor, nodes } = self;
        Builder { cursor: cursor + (STAFF_SPACE / 100) * (hundredths as i64), nodes }
    }

    /// Draws the clef at the cursor.
    pub fn clef(self, clef: &Clef) -> (r: Builder)
        ensures
            r@.cursor == self@.cursor,
            r@.primitives == self@.primitives.push(
                Primitive::Glyph { glyph: clef.glyph(), x: self@.cursor as i64, y: clef_y(*clef) as i64 },
            ),
            r@ == apply(self@, LayoutOp::Clef(*clef)),
    {
        proof {
            use_type_invariant(&self);
        }
        let y = match clef {
            Clef::G => STAFF_SPACE * 3,
            Clef::F => STAFF_SPACE,
            Clef::C => STAFF_SPACE * 2,
        };
        let Builder { cursor, mut nodes } = self;
        nodes.push(Primitive::Glyph { glyph: clef.to_glyph(), x: cursor, y });
        Builder { cursor, nodes }
    }

    /// Draws a double barline at the cursor and moves past it.
    pub fn barline(self) -> (r: Builder)
        requires
            self@.cursor + BARLINE_ADVANCE <= MAX_CURSOR,
        ensures
            r@.cursor == self@.cursor + BARLINE_ADVANCE,
            r@.primitives == self@.primitives + barline_primitives(self@.cursor),
            r@ == apply(self@, LayoutOp::Barline),
    {
        proof {
            use_type_invariant(&self);
        }
        let Builder { cursor, mut nodes } = self;
        nodes.push(Primitive::Line { x1: cursor, y1: 0, x2: cursor, y2: STAFF_HEIGHT, thickness: THIN_BARLINE_THICKNESS });
        let x = cursor + BARLINE_SEPARATION;
        nodes.push(Primitive::Line { x1: x, y1: 0, x2: x, y2: STAFF_HEIGHT, thickness: THIN_BARLINE_THICKNESS });
        assert(nodes@ =~= self@.primitives + barline_primitives(self@.cursor));
        Builder { cursor: cursor + BARLINE_SEPARATION + THIN_BARLINE_THICKNESS / 2, nodes }
    }

    /// The finished drawing: the staff across the whole width, then every
    /// element in the order it was added.
    pub fn into_svg(self) -> (r: Score)
        ensures
            r.viewport.x == -2 * STAFF_SPACE,
            r.viewport.y == -STAFF_HEIGHT,
            r.viewport.width == self@.cursor + STAFF_HEIGHT,
            r.viewport.height == 3 * STAFF_HEIGHT,
            r.primitives@ == staff_primitives(self@.cursor) + self@.primitives,
    {
        proof {
            use_type_invariant(&self);
        }
        let Builder { cursor, nodes } = self;
        let mut primitives = staff(cursor);
        let mut i: usize = 0;
        while i < nodes.len()
            invariant
                0 <= i <= nodes.len(),
                primitives@ == staff_primitives(cursor as int) + nodes@.take(i as int),
            decreases nodes.len() - i,
        {
            primitives.push(nodes[i]);
            assert(nodes@.take(i + 1) =~= nodes@.take(i as int).push(nodes@[i as int]));
            i = i + 1;
        }
        assert(nodes@.take(i as int) =~= nodes@);
        Score {
            viewport: Viewport {
                x: -2 * STAFF_SPACE,
                y: -STAFF_HEIGHT,
                width: cursor + STAFF_HEIGHT,
                height: 3 * STAFF_HEIGHT,
            },
            primitives,
        }
    }
}

/// The five staff lines across `width`.
fn staff(width: i64) -> (r: Vec<Primitive>)
    ensures
        r@ == staff_primitives(width as int),
{
    let mut lines: Vec<Primitive> = Vec::new();
    let mut k: i64 = 0;
    while k < 5
        invariant
            0 <= k <= 5,
            lines@ == staff_primitives(width as int).take(k as int),
        decreases 5 - k,
    {
        lines.push(Primitive::Line { x1: 0, y1: STAFF_SPACE * k, x2: width, y2: STAFF_SPACE * k, thickness: STAFF_LINE_THICKNESS });
        assert(lines@ =~= staff_primitives(width as int).take(k + 1));
        k = k + 1;
    }
    assert(lines@ =~= staff_primitives(width as int));
    lines
}

/// Accidentals paired with staff positions, as values.
pub open spec fn entries_view(s: Seq<(Accidental, StaffPosition)>) -> Seq<(Accidental, int)> {
    s.map_values(|e: (Accidental, StaffPosition)| (e.0, e.1@))
}

/// Where an entry at `pos` goes into `t`, which runs from high to low: after
/// the leading entries at `pos` or above.
pub open spec fn insertion_index(t: Seq<(Accidental, int)>, pos: int) -> int
    decreases t.len(),
{
    if t.len() == 0 || t[0].1 < pos {
        0
    } else {
        1 + insertion_index(t.drop_first(), pos)
    }
}

/// `s` sorted from the highest staff position down; entries at the same
/// position keep their order.
pub open spec fn sorted_high_to_low(s: Seq<(Accidental, int)>) -> Seq<(Accidental, int)>
    decreases s.len(),
{
    if s.len() == 0 {
        s
    } else {
        let t = sorted_high_to_low(s.drop_last());
        t.insert(insertion_index(t, s.last().1), s.last())
    }
}

/// The first entry of the column that entry `i` of `s` (sorted from high to
/// low) is written in. A column takes entries until one lies six or more
/// steps below its first; that one starts the next column.
pub open spec fn column_start(s: Seq<(Accidental, int)>, i: int) -> int
    decreases i,
{
    if i <= 0 {
        0
    } else {
        let top = column_start(s, i - 1);
        if s[top].1 - s[i].1 >= 6 {
            i
        } else {
            top
        }
    }
}

/// Horizontal offset of entry `i`: one staff space leftwards for each entry
/// before it in its column.
pub open spec fn indent_of(s: Seq<(Accidental, int)>, i: int) -> int {
    -STAFF_SPACE * (i - column_start(s, i))
}

/// The glyphs of accidentals sorted from high to low, laid out in columns
/// from `x` leftwards.
pub open spec fn accidental_primitives(s: Seq<(Accidental, int)>, x: int) -> Seq<Primitive> {
    Seq::new(
        s.len(),
        |i: int|
            Primitive::Glyph {
                glyph: glyph_of(s[i].0),
                x: (x + indent_of(s, i)) as i64,
                y: y_of(s[i].1) as i64,
            },
    )
}

proof fn lemma_column_start_bounds(s: Seq<(Accidental, int)>, i: int)
    requires
        0 <= i,
    ensures
        0 <= column_start(s, i) <= i,
    decreases i,
{
    if i > 0 {
        lemma_column_start_bounds(s, i - 1);
    }
}

proof fn lemma_insertion_index_bounds(t: Seq<(Accidental, int)>, pos: int)
    ensures
        0 <= insertion_index(t, pos) <= t.len(),
    decreases t.len(),
{
    if t.len() > 0 && t[0].1 >= pos {
        lemma_insertion_index_bounds(t.drop_first(), pos);
    }
}

/// Whether `s` runs from the highest staff position down.
pub open spec fn high_to_low(s: Seq<(Accidental, int)>) -> bool {
    forall|i: int, j: int| 0 <= i < j < s.len() ==> s[i].1 >= s[j].1
}

proof fn lemma_insertion_index_splits(t: Seq<(Accidental, int)>, pos: int)
    ensures
        forall|i: int| 0 <= i < insertion_index(t, pos) ==> (#[trigger] t[i]).1 >= pos,
        insertion_index(t, pos) < t.len() ==> t[insertion_index(t, pos)].1 < pos,
    decreases t.len(),
{
    lemma_insertion_index_bounds(t, pos);
    if t.len() > 0 && t[0].1 >= pos {
        let rest = t.drop_first();
        lemma_insertion_index_splits(rest, pos);
        assert forall|i: int| 0 <= i < insertion_index(t, pos) implies (#[trigger] t[i]).1 >= pos by {
            if i > 0 {
                assert(t[i] == rest[i - 1]);
            }
        }
        let k = insertion_index(rest, pos);
        lemma_insertion_index_bounds(rest, pos);
        assert(insertion_index(t, pos) == k + 1);
        if k + 1 < t.len() {
            assert(t[k + 1] == rest[k]);
        }
    }
}

/// The accidentals of a layout come out as a rearrangement of those given,
/// from the highest staff position down.
pub proof fn lemma_sorted_high_to_low(s: Seq<(Accidental, int)>)
    ensures
        high_to_low(sorted_high_to_low(s)),
        sorted_high_to_low(s).to_multiset() == s.to_multiset(),
    decreases s.len(),
{
    broadcast use vstd::seq_lib::group_to_multiset_ensures;

    if s.len() > 0 {
        let rest = s.drop_last();
        let x = s.last();
        let t = sorted_high_to_low(rest);
        lemma_sorted_high_to_low(rest);
        lemma_insertion_index_bounds(t, x.1);
        lemma_insertion_index_splits(t, x.1);
        let k = insertion_index(t, x.1);
        let u = t.insert(k, x);
        assert forall|i: int, j: int| 0 <= i < j < u.len() implies u[i].1 >= u[j].1 by {
            if j < k {
                assert(u[i] == t[i] && u[j] == t[j]);
            } else if j == k {
                assert(u[i] == t[i]);
            } else if i < k {
                assert(u[i] == t[i] && u[j] == t[j - 1]);
            } else if i == k {
                assert(u[j] == t[j - 1]);
                assert(t[k].1 < x.1);
                assert(k == j - 1 || t[k].1 >= t[j - 1].1);
            } else {
                assert(u[i] == t[i - 1] && u[j] == t[j - 1]);
            }
        }
        assert(u.remove(k) =~= t);
        assert(s =~= rest.push(x));
        assert(u[k] == x);
        assert(u.to_multiset() =~= t.to_multiset().insert(x));
    }
}

/// The entries sorted from the highest staff position down, equal positions
/// in their given order.
fn sort_high_to_low(accs: &[(Accidental, StaffPosition)]) -> (r: Vec<(Accidental, StaffPosition)>)
    ensures
        entries_view(r@) == sorted_high_to_low(entries_view(accs@)),
{
    let ghost ev = entries_view(accs@);
    let mut sorted: Vec<(Accidental, StaffPosition)> = Vec::new();
    let mut i: usize = 0;
    assert(ev.take(0) =~= Seq::<(Accidental, int)>::empty());
    while i < accs.len()
        invariant
            0 <= i <= accs.len(),
            ev == entries_view(accs@),
            entries_view(sorted@) == sorted_high_to_low(ev.take(i as int)),
        decreases accs.len() - i,
    {
        let p = accs[i].1.value();
        let ghost t = entries_view(sorted@);
        let mut k: usize = 0;
        assert(t.skip(0) =~= t);
        while k < sorted.len() && sorted[k].1.value() >= p
            invariant
                0 <= k <= sorted.len(),
                t == entries_view(sorted@),
                insertion_index(t, p as int) == k + insertion_index(t.skip(k as int), p as int),
            decreases sorted.len() - k,
        {
            assert(t.skip(k as int)[0] == t[k as int]);
            assert(t.skip(k as int).drop_first() =~= t.skip(k + 1));
            k = k + 1;
        }
        proof {
            if k < sorted.len() {
                assert(t.skip(k as int)[0] == t[k as int]);
            }
            assert(ev.take(i + 1).drop_last() =~= ev.take(i as int));
            assert(ev.take(i + 1).last() == ev[i as int]);
            assert(ev[i as int] == (accs@[i as int].0, accs@[i as int].1@));
        }
        sorted.insert(k, accs[i]);
        assert(entries_view(sorted@) =~= t.insert(k as int, ev[i as int]));
        i = i + 1;
    }
    assert(ev.take(i as int) =~= ev);
    sorted
}

/// Horizontal offsets of accidentals sorted from high to low, so that close
/// ones stand side by side and distant ones share a column.
fn align_accidentals(accs: &[(Accidental, StaffPosition)]) -> (r: Vec<i64>)
    requires
        accs.len() <= MAX_ACCIDENTALS,
    ensures
        r@.len() == accs.len(),
        forall|i: int| 0 <= i < accs.len() ==> r@[i] == indent_of(entries_view(accs@), i),
{
    let ghost ev = entries_view(accs@);
    let mut indents: Vec<i64> = Vec::new();
    let mut top: usize = 0;
    let mut indent: i64 = 0;
    let mut i: usize = 0;
    while i < accs.len()
        invariant
            0 <= i <= accs.len() <= MAX_ACCIDENTALS,
            ev == entries_view(accs@),
            ev.len() == accs.len(),
            top == column_start(ev, i - 1),
            top <= i,
            i > 0 ==> top < i,
            indent == -4000 * (i - top),
            -4_000_000_000 <= indent <= 0,
            indents@.len() == i,
            forall|j: int| 0 <= j < i ==> indents@[j] == indent_of(ev, j),
        decreases accs.len() - i,
    {
        proof {
            if i > 0 {
                lemma_column_start_bounds(ev, i - 1);
            }
            assert(ev[top as int] == (accs@[top as int].0, accs@[top as int].1@));
            assert(ev[i as int] == (accs@[i as int].0, accs@[i as int].1@));
        }
        if accs[top].1.value() as i64 - accs[i].1.value() as i64 >= 6 {
            top = i;
            indent = 0;
        }
        indents.push(indent);
        indent = indent - STAFF_SPACE;
        i = i + 1;
    }
    indents
}

/// The lowest leger line that a note at `pos` below the staff needs: on a
/// line, its own; in a space, the line just above it.
pub open spec fn lowest_leger(pos: int) -> int {
    if pos % 2 == 0 {
        pos
    } else if pos < 0 {
        pos + 1
    } else {
        pos - 1
    }
}

/// Leger lines for notes from `bottom` to `top`: the line positions from the
/// lowest one up to the line below the staff (-2), then from the line above
/// the staff (10) up to `top`.
pub open spec fn leger_positions(bottom: int, top: int) -> Seq<int> {
    let low = lowest_leger(bottom);
    let below = if low <= -2 {
        Seq::new(((-2 - low) / 2 + 1) as nat, |k: int| low + 2 * k)
    } else {
        Seq::empty()
    };
    let above = if top >= 10 {
        Seq::new(((top - 10) / 2 + 1) as nat, |k: int| 10 + 2 * k)
    } else {
        Seq::empty()
    };
    below + above
}

/// The lowest of `s`.
pub open spec fn lowest_of(s: Seq<int>) -> int
    decreases s.len(),
{
    if s.len() <= 1 {
        if s.len() == 1 {
            s[0]
        } else {
            0
        }
    } else if s.last() < lowest_of(s.drop_last()) {
        s.last()
    } else {
        lowest_of(s.drop_last())
    }
}

/// The highest of `s`.
pub open spec fn highest_of(s: Seq<int>) -> int
    decreases s.len(),
{
    if s.len() <= 1 {
        if s.len() == 1 {
            s[0]
        } else {
            0
        }
    } else if s.last() > highest_of(s.drop_last()) {
        s.last()
    } else {
        highest_of(s.drop_last())
    }
}

/// Staff positions as values.
pub open spec fn positions_view(s: Seq<StaffPosition>) -> Seq<int> {
    s.map_values(|p: StaffPosition| p@)
}

/// A chord drawn at `x`: its leger lines, then one whole notehead per
/// position.
pub open spec fn chord_primitives(ps: Seq<int>, x: int) -> Seq<Primitive> {
    let legers = leger_positions(lowest_of(ps), highest_of(ps));
    Seq::new(
        legers.len(),
        |k: int|
            Primitive::Line {
                x1: (x - LEGER_LINE_OVERHANG) as i64,
                y1: y_of(legers[k]) as i64,
                x2: (x - LEGER_LINE_OVERHANG + LEGER_LINE_LENGTH) as i64,
                y2: y_of(legers[k]) as i64,
                thickness: LEGER_LINE_THICKNESS,
            },
    ) + Seq::new(
        ps.len(),
        |k: int| Primitive::Glyph { glyph: NOTEHEAD_WHOLE, x: x as i64, y: y_of(ps[k]) as i64 },
    )
}

/// The positions of the leger lines that notes from `bottom` to `top` need,
/// below the staff first.
pub fn leger_lines(bottom: &StaffPosition, top: &StaffPosition) -> (r: Vec<StaffPosition>)
    ensures
        positions_view(r@) == leger_positions(bottom@, top@),
{
    let b = bottom.value();
    let low: i64 = (b - b % 2) as i64;
    let ghost below = if low <= -2 {
        Seq::new(((-2 - low) / 2 + 1) as nat, |k: int| low + 2 * k)
    } else {
        Seq::<int>::empty()
    };
    assert(low == lowest_leger(bottom@));
    let mut legers: Vec<StaffPosition> = Vec::new();
    let mut l: i64 = low;
    let ghost mut c: int = 0;
    while l <= -2
        invariant
            low == lowest_leger(bottom@),
            low % 2 == 0,
            i32::MIN <= low <= i32::MAX,
            low <= l <= if low <= -2 { 0 } else { low },
            l == low + 2 * c,
            positions_view(legers@) =~= Seq::new(c as nat, |k: int| low + 2 * k),
        decreases 0 - l,
    {
        let ghost before = positions_view(legers@);
        legers.push(StaffPosition::new(l as i32));
        assert(positions_view(legers@) =~= before.push(l as int));
        l = l + 2;
        proof {
            c = c + 1;
        }
    }
    assert(positions_view(legers@) =~= below);
    let t = top.value() as i64;
    let mut l: i64 = 10;
    let ghost mut d: int = 0;
    while l <= t
        invariant
            10 <= l <= if t >= 10 { t + 2 } else { 10 },
            l == 10 + 2 * d,
            t == top@,
            t <= i32::MAX,
            positions_view(legers@) =~= below + Seq::new(d as nat, |k: int| 10 + 2 * k),
        decreases t + 2 - l,
    {
        let ghost before = positions_view(legers@);
        legers.push(StaffPosition::new(l as i32));
        assert(positions_view(legers@) =~= before.push(l as int));
        l = l + 2;
        proof {
            d = d + 1;
        }
    }
    legers
}

impl Builder {
    /// Draws accidentals at the cursor: sorted from the highest position
    /// down, in columns leftwards from the cursor, where each entry steps one
    /// staff space left of the one before it until an entry six or more steps
    /// below its column's first starts a new column back at the cursor.
    pub fn accidentals(self, accs: &[(Accidental, StaffPosition)]) -> (r: Builder)
        requires
            accs.len() <= MAX_ACCIDENTALS,
        ensures
            r@.cursor == self@.cursor,
            r@.primitives == self@.primitives + accidental_primitives(
                sorted_high_to_low(entries_view(accs@)),
                self@.cursor,
            ),
            r@ == apply(self@, LayoutOp::Accidentals(entries_view(accs@))),
    {
        proof {
            use_type_invariant(&self);
        }
        let sorted = sort_high_to_low(accs);
        proof {
            lemma_sorted_len(entries_view(accs@));
        }
        let indents = align_accidentals(sorted.as_slice());
        let ghost s = sorted_high_to_low(entries_view(accs@));
        let Builder { cursor, mut nodes } = self;
        let mut i: usize = 0;
        while i < sorted.len()
            invariant
                0 <= i <= sorted.len(),
                0 <= cursor <= MAX_CURSOR,
                sorted.len() <= MAX_ACCIDENTALS,
                s == entries_view(sorted@),
                indents@.len() == sorted.len(),
                forall|j: int| 0 <= j < sorted.len() ==> indents@[j] == indent_of(s, j),
                nodes@ == self@.primitives + accidental_primitives(s, cursor as int).take(i as int),
            decreases sorted.len() - i,
        {
            proof {
                lemma_column_start_bounds(s, i as int);
                let span = i - column_start(s, i as int);
                assert(s[i as int] == (sorted@[i as int].0, sorted@[i as int].1@));
                assert(indent_of(s, i as int) == -STAFF_SPACE * span);
                assert(-4_000_000_000 <= -STAFF_SPACE * span <= 0) by (nonlinear_arith)
                    requires
                        STAFF_SPACE == 4000,
                        0 <= span <= 1_000_000,
                ;
            }
            let (acc, pos) = sorted[i];
            nodes.push(Primitive::Glyph { glyph: accidental_glyph(&acc), x: cursor + indents[i], y: pos.to_y() });
            assert(accidental_primitives(s, cursor as int).take(i + 1) =~= accidental_primitives(s, cursor as int).take(i as int).push(accidental_primitives(s, cursor as int)[i as int]));
            i = i + 1;
        }
        assert(accidental_primitives(s, cursor as int).take(i as int) =~= accidental_primitives(s, cursor as int));
        Builder { cursor, nodes }
    }

    /// Draws a chord at the cursor: the leger lines its lowest and highest
    /// notes need, then a whole notehead at each position.
    pub fn chord(self, staff_positions: &[StaffPosition]) -> (r: Builder)
        requires
            staff_positions.len() > 0,
        ensures
            r@.cursor == self@.cursor,
            r@.primitives == self@.primitives + chord_primitives(positions_view(staff_positions@), self@.cursor),
            r@ == apply(self@, LayoutOp::Chord(positions_view(staff_positions@))),
    {
        proof {
            use_type_invariant(&self);
        }
        let ghost ps = positions_view(staff_positions@);
        let mut bottom = staff_positions[0];
        let mut top = staff_positions[0];
        let mut i: usize = 1;
        assert(ps.take(1).drop_last() =~= Seq::<int>::empty());
        while i < staff_positions.len()
            invariant
                1 <= i <= staff_positions.len(),
                ps == positions_view(staff_positions@),
                bottom@ == lowest_of(ps.take(i as int)),
                top@ == highest_of(ps.take(i as int)),
            decreases staff_positions.len() - i,
        {
            assert(ps.take(i + 1).drop_last() =~= ps.take(i as int));
            let p = staff_positions[i];
            if p.value() < bottom.value() {
                bottom = p;
            }
            if p.value() > top.value() {
                top = p;
            }
            i = i + 1;
        }
        assert(ps.take(i as int) =~= ps);
        let legers = leger_lines(&bottom, &top);
        let ghost all = chord_primitives(ps, self@.cursor);
        let Builder { cursor, mut nodes } = self;
        let mut k: usize = 0;
        while k < legers.len()
            invariant
                0 <= k <= legers.len(),
                0 <= cursor <= MAX_CURSOR,
                cursor == self@.cursor,
                all == chord_primitives(ps, self@.cursor),
                positions_view(legers@) == leger_positions(lowest_of(ps), highest_of(ps)),
                nodes@ == self@.primitives + all.take(k as int),
            decreases legers.len() - k,
        {
            let y = legers[k].to_y();
            nodes.push(Primitive::Line {
                x1: cursor - LEGER_LINE_OVERHANG,
                y1: y,
                x2: cursor - LEGER_LINE_OVERHANG + LEGER_LINE_LENGTH,
                y2: y,
                thickness: LEGER_LINE_THICKNESS,
            });
            assert(all.take(k + 1) =~= all.take(k as int).push(all[k as int]));
            k = k + 1;
        }
        let mut j: usize = 0;
        while j < staff_positions.len()
            invariant
                0 <= j <= staff_positions.len(),
                0 <= cursor <= MAX_CURSOR,
                cursor == self@.cursor,
                ps == positions_view(staff_positions@),
                all == chord_primitives(ps, self@.cursor),
                legers@.len() + staff_positions.len() == all.len(),
                nodes@ == self@.primitives + all.take(legers@.len() + j),
            decreases staff_positions.len() - j,
        {
            nodes.push(note(cursor, &staff_positions[j]));
            assert(all.take(legers@.len() + j + 1) =~= all.take(legers@.len() + j).push(all[legers@.len() + j]));
            j = j + 1;
        }
        assert(all.take(legers@.len() + j) =~= all);
        Builder { cursor, nodes }
    }

    /// Draws a root-position triad at the cursor, on `bottom` and the two
    /// thirds above it.
    pub fn triad(self, bottom: &StaffPosition) -> (r: Builder)
        requires
            bottom@ + 4 <= i32::MAX,
        ensures
            r@.cursor == self@.cursor,
            r@.primitives == self@.primitives + chord_primitives(
                seq![bottom@, bottom@ + 2, bottom@ + 4],
                self@.cursor,
            ),
    {
        let staff_positions = vec![bottom.plus(0), bottom.plus(2), bottom.plus(4)];
        assert(positions_view(staff_positions@) =~= seq![bottom@, bottom@ + 2, bottom@ + 4]);
        self.chord(staff_positions.as_slice())
    }
}

/// A whole notehead at `cursor` on `staff_pos`.
fn note(cursor: i64, staff_pos: &StaffPosition) -> (r: Primitive)
    ensures
        r == (Primitive::Glyph { glyph: NOTEHEAD_WHOLE, x: cursor, y: y_of(staff_pos@) as i64 }),
{
    Primitive::Glyph { glyph: NOTEHEAD_WHOLE, x: cursor, y: staff_pos.to_y() }
}

proof fn lemma_sorted_len(s: Seq<(Accidental, int)>)
    ensures
        sorted_high_to_low(s).len() == s.len(),
    decreases s.len(),
{
    if s.len() > 0 {
        lemma_sorted_len(s.drop_last());
        lemma_insertion_index_bounds(sorted_high_to_low(s.drop_last()), s.last().1);
    }
}

/// One call on a layout, as a value.
pub enum LayoutOp {
    Space(nat),
    Clef(Clef),
    Accidentals(Seq<(Accidental, int)>),
    Chord(Seq<int>),
    Barline,
}

/// The layout after one call.
pub open spec fn apply(b: BuilderView, op: LayoutOp) -> BuilderView {
    match op {
        LayoutOp::Space(n) => BuilderView { cursor: b.cursor + (STAFF_SPACE / 100) * n, primitives: b.primitives },
        LayoutOp::Clef(c) => BuilderView {
            cursor: b.cursor,
            primitives: b.primitives.push(
                Primitive::Glyph { glyph: c.glyph(), x: b.cursor as i64, y: clef_y(c) as i64 },
            ),
        },
        LayoutOp::Accidentals(s) => BuilderView {
            cursor: b.cursor,
            primitives: b.primitives + accidental_primitives(sorted_high_to_low(s), b.cursor),
        },
        LayoutOp::Chord(ps) => BuilderView {
            cursor: b.cursor,
            primitives: b.primitives + chord_primitives(ps, b.cursor),
        },
        LayoutOp::Barline => BuilderView {
            cursor: b.cursor + BARLINE_ADVANCE,
            primitives: b.primitives + barline_primitives(b.cursor),
        },
    }
}

/// The layout after a sequence of calls, in order.
pub open spec fn apply_all(b: BuilderView, ops: Seq<LayoutOp>) -> BuilderView
    decreases ops.len(),
{
    if ops.len() == 0 {
        b
    } else {
        apply(apply_all(b, ops.drop_last()), ops.last())
    }
}

/// Along any sequence of layout calls the cursor never moves leftwards, so
/// from a start at or right of zero it never goes below zero.
pub proof fn lemma_cursor_never_moves_back(b: BuilderView, ops: Seq<LayoutOp>, i: int, j: int)
    requires
        0 <= i <= j <= ops.len(),
    ensures
        apply_all(b, ops.take(i)).cursor <= apply_all(b, ops.take(j)).cursor,
        b.cursor >= 0 ==> apply_all(b, ops.take(j)).cursor >= 0,
    decreases j,
{
    if j > 0 {
        lemma_cursor_never_moves_back(b, ops, if i < j { i } else { 0 }, j - 1);
        assert(ops.take(j).drop_last() =~= ops.take(j - 1));
    } else {
        assert(ops.take(0) =~= Seq::<LayoutOp>::empty());
    }
}

/// The staff positions of C major seventh in bass clef: C3, E3, G3, B3.
pub open spec fn c_maj_7_positions() -> Seq<int> {
    seq![-2, 0, 2, 4]
}

/// C major seventh in bass clef, without accidentals.
pub fn c_maj_7() -> (r: Score)
    ensures
        r.viewport.width == 51_920 + STAFF_HEIGHT,
        r.primitives@ == staff_primitives(51_920) + seq![
            Primitive::Glyph { glyph: Clef::F.glyph(), x: 2000, y: clef_y(Clef::F) as i64 },
        ] + chord_primitives(c_maj_7_positions(), 26_000) + barline_primitives(50_000),
{
    let staff_positions = vec![
        StaffPosition(-2),
        StaffPosition(0),
        StaffPosition(2),
        StaffPosition(4),
    ];
    assert(positions_view(staff_positions@) =~= c_maj_7_positions());
    let r = Builder::new().space(50).clef(&Clef::F).space(600).chord(staff_positions.as_slice()).space(
        600,
    ).barline().into_svg();
    assert(r.primitives@ =~= staff_primitives(51_920) + seq![
        Primitive::Glyph { glyph: Clef::F.glyph(), x: 2000, y: clef_y(Clef::F) as i64 },
    ] + chord_primitives(c_maj_7_positions(), 26_000) + barline_primitives(50_000));
    r
}

/// C dominant seventh in treble clef, written E4, G4, B flat 4, D5 with the
/// flat before the B.
pub fn c_7() -> (r: Score)
    ensures
        r.viewport.width == 57_920 + STAFF_HEIGHT,
        r.primitives@ == staff_primitives(57_920) + seq![
            Primitive::Glyph { glyph: Clef::G.glyph(), x: 2000, y: clef_y(Clef::G) as i64 },
        ] + accidental_primitives(seq![(Accidental::Flat, 4)], 26_000) + chord_primitives(
            c_maj_7_positions(),
            32_000,
        ) + barline_primitives(56_000),
{
    let staff_positions = vec![
        StaffPosition(-2),
        StaffPosition(0),
        StaffPosition(2),
        StaffPosition(4),
    ];
    assert(positions_view(staff_positions@) =~= c_maj_7_positions());
    let accs = vec![(Accidental::Flat, StaffPosition::new(4))];
    let ghost ev = entries_view(accs@);
    assert(ev =~= seq![(Accidental::Flat, 4int)]);
    assert(ev.drop_last() =~= Seq::<(Accidental, int)>::empty());
    assert(sorted_high_to_low(ev.drop_last()) == Seq::<(Accidental, int)>::empty());
    assert(insertion_index(Seq::<(Accidental, int)>::empty(), 4) == 0);
    assert(sorted_high_to_low(ev) =~= seq![(Accidental::Flat, 4int)]);
    let r = Builder::new().space(50).clef(&Clef::G).space(600).accidentals(accs.as_slice()).space(
        150,
    ).chord(staff_positions.as_slice()).space(600).barline().into_svg();
    assert(r.primitives@ =~= staff_primitives(57_920) + seq![
        Primitive::Glyph { glyph: Clef::G.glyph(), x: 2000, y: clef_y(Clef::G) as i64 },
    ] + accidental_primitives(seq![(Accidental::Flat, 4)], 26_000) + chord_primitives(
        c_maj_7_positions(),
        32_000,
    ) + barline_primitives(56_000));
    r
}

/// A root-position triad on `bottom` in treble clef.
pub fn triad_example(bottom: i32) -> (r: Score)
    requires
        bottom + 4 <= i32::MAX,
    ensures
        r.viewport.width == 51_920 + STAFF_HEIGHT,
        r.primitives@ == staff_primitives(51_920) + seq![
            Primitive::Glyph { glyph: Clef::G.glyph(), x: 2000, y: clef_y(Clef::G) as i64 },
        ] + chord_primitives(seq![bottom as int, bottom + 2, bottom + 4], 26_000)
            + barline_primitives(50_000),
{
    let r = Builder::new().space(50).clef(&Clef::G).space(600).triad(&StaffPosition(bottom)).space(
        600,
    ).barline().into_svg();
    assert(r.primitives@ =~= staff_primitives(51_920) + seq![
        Primitive::Glyph { glyph: Clef::G.glyph(), x: 2000, y: clef_y(Clef::G) as i64 },
    ] + chord_primitives(seq![bottom as int, bottom + 2, bottom + 4], 26_000) + barline_primitives(
        50_000,
    ));
    r
}

} // verus!
