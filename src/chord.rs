//! Chord qualities and their interval tables, chords built from a root, and
//! the clefs that place their pitches on the staff.
use crate::pitch::{
    accidental_of, pitch_above, pitch_plus, representable, step_of, Accidental, Interval, Step,
    Tpc, TpcOctave, B_SHARP, F_FLAT, MAX_FIFTHS, MIN_FIFTHS,
};
use crate::score::{
    accidental_primitives, barline_primitives, chord_primitives, clef_y, positions_view,
    sorted_high_to_low, staff_primitives, Builder, Primitive, Score, StaffPosition, STAFF_HEIGHT,
    STAFF_SPACE,
};
use vstd::prelude::*;

verus! {

/// Font glyph of the treble clef.
pub const G_CLEF: char = '\u{e050}';

/// Font glyph of the bass clef.
pub const F_CLEF: char = '\u{e062}';

/// A clef, which fixes the letter and octave of the bottom staff line.
#[derive(Clone, Copy, Debug, PartialEq, Eq, Structural)]
pub enum Clef {
    /// Bottom staff line E4.
    G,
    /// Bottom staff line F3.
    C,
    /// Bottom staff line G2.
    F,
}

impl Clef {
    /// The letter and octave of the bottom staff line.
    pub open spec fn bottom(self) -> (Step, int) {
        match self {
            Clef::G => (Step::E, 4),
            Clef::C => (Step::F, 3),
            Clef::F => (Step::G, 2),
        }
    }

    /// Staff position of a pitch given as (line of fifths, octave).
    pub open spec fn position_of(self, p: (int, int)) -> int {
        step_of(p.0).index() - self.bottom().0.index() + 7 * (p.1 - self.bottom().1)
    }

    fn bottom_staff_position(&self) -> (r: (Step, i8))
        ensures
            r.0 == self.bottom().0,
            r.1 == self.bottom().1,
    {
        match self {
            Clef::G => (Step::E, 4),
            Clef::C => (Step::F, 3),
            Clef::F => (Step::G, 2),
        }
    }

    /// The font glyph of the clef.
    pub open spec fn glyph(self) -> char {
        match self {
            Clef::G => G_CLEF,
            Clef::C => '@',
            Clef::F => F_CLEF,
        }
    }

    pub fn to_glyph(&self) -> (r: char)
        ensures
            r == self.glyph(),
    {
        match self {
            Clef::G => G_CLEF,
            Clef::C => '@',
            Clef::F => F_CLEF,
        }
    }

    /// Diatonic steps from the bottom staff line to the pitch.
    pub fn position(&self, tpc_octave: &TpcOctave) -> (r: StaffPosition)
        ensures
            r@ == self.position_of(tpc_octave@),
            -1000 < r@ < 1000,
    {
        let step = tpc_octave.0.step();
        let (bottom_step, bottom_octave) = self.bottom_staff_position();
        let step_delta = step.to_index() as i32 - bottom_step.to_index() as i32;
        let octave_delta = 7 * (tpc_octave.1 as i32 - bottom_octave as i32);
        StaffPosition::new(step_delta + octave_delta)
    }

    /// The clef for a root given as (line of fifths, octave).
    pub open spec fn for_root_spec(root: (int, int)) -> Clef {
        if root.1 >= 4 || (root.1 >= 3 && step_of(root.0).index() > Step::E.index()) {
            Clef::G
        } else {
            Clef::F
        }
    }

    /// The clef a chord on `root` is written in: treble for roots from F3
    /// upward, bass below.
    pub fn for_root(root: &TpcOctave) -> (r: Clef)
        ensures
            r == Clef::for_root_spec(root@),
    {
        if root.1 >= 4 || (root.1 >= 3 && root.0.step().to_index() > Step::E.to_index()) {
            Clef::G
        } else {
            Clef::F
        }
    }
}

/// A chord quality.
#[derive(Clone, Copy, Debug, PartialEq, Eq, Structural)]
pub enum Kind {
    Maj,
    Min,
    Dim,
    Aug,
    Dom7,
    Maj7,
    Min7,
    Min7b5,
    Dim7,
}

/// The lowest line-of-fifths displacement among `s`.
pub open spec fn flattest_of(s: Seq<Interval>) -> int
    decreases s.len(),
{
    if s.len() <= 1 {
        if s.len() == 1 {
            s[0].fifths_spec()
        } else {
            0
        }
    } else {
        let m = flattest_of(s.drop_last());
        if s.last().fifths_spec() < m {
            s.last().fifths_spec()
        } else {
            m
        }
    }
}

/// The highest line-of-fifths displacement among `s`.
pub open spec fn sharpest_of(s: Seq<Interval>) -> int
    decreases s.len(),
{
    if s.len() <= 1 {
        if s.len() == 1 {
            s[0].fifths_spec()
        } else {
            0
        }
    } else {
        let m = sharpest_of(s.drop_last());
        if s.last().fifths_spec() > m {
            s.last().fifths_spec()
        } else {
            m
        }
    }
}

impl Kind {
    /// The intervals above the root, root first.
    pub open spec fn interval_seq(self) -> Seq<Interval> {
        match self {
            Kind::Maj => seq![Interval::Unison, Interval::Maj3, Interval::Perfect5],
            Kind::Min => seq![Interval::Unison, Interval::Min3, Interval::Perfect5],
            Kind::Dim => seq![Interval::Unison, Interval::Min3, Interval::Dim5],
            Kind::Aug => seq![Interval::Unison, Interval::Maj3, Interval::Aug5],
            Kind::Dom7 => seq![Interval::Unison, Interval::Maj3, Interval::Perfect5, Interval::Min7],
            Kind::Maj7 => seq![Interval::Unison, Interval::Maj3, Interval::Perfect5, Interval::Maj7],
            Kind::Min7 => seq![Interval::Unison, Interval::Min3, Interval::Perfect5, Interval::Min7],
            Kind::Min7b5 => seq![Interval::Unison, Interval::Min3, Interval::Dim5, Interval::Min7],
            Kind::Dim7 => seq![Interval::Unison, Interval::Min3, Interval::Dim5, Interval::Dim7],
        }
    }

    /// Whether every pitch of the chord on a root at `root` on the line of
    /// fifths is representable.
    pub open spec fn builds_on(self, root: int) -> bool {
        forall|j: int|
            0 <= j < self.interval_seq().len() ==> representable(
                root + #[trigger] self.interval_seq()[j].fifths_spec(),
            )
    }

    /// The pitches of the chord on `root`, in the order of the interval
    /// table, or `None` where one of them is not representable.
    pub open spec fn pitches_on(self, root: (int, int)) -> Option<Seq<(int, int)>> {
        if self.builds_on(root.0) {
            Some(Seq::new(self.interval_seq().len(), |j: int| pitch_above(root, self.interval_seq()[j])))
        } else {
            None
        }
    }

    /// The quality as it is written after the root in a chord name.
    pub open spec fn suffix_spec(self) -> Seq<char> {
        match self {
            Kind::Aug => "+"@,
            Kind::Maj => ""@,
            Kind::Min => "m"@,
            Kind::Dim => "m\u{266d}5"@,
            Kind::Maj7 => "maj7"@,
            Kind::Min7 => "m7"@,
            Kind::Dom7 => "7"@,
            Kind::Dim7 => "dim7"@,
            Kind::Min7b5 => "m7\u{266d}5"@,
        }
    }

    /// The quality's suffix in a chord name.
    pub fn suffix(&self) -> (r: &'static str)
        ensures
            r@ == self.suffix_spec(),
    {
        match self {
            Kind::Aug => "+",
            Kind::Maj => "",
            Kind::Min => "m",
            Kind::Dim => "m\u{266d}5",
            Kind::Maj7 => "maj7",
            Kind::Min7 => "m7",
            Kind::Dom7 => "7",
            Kind::Dim7 => "dim7",
            Kind::Min7b5 => "m7\u{266d}5",
        }
    }

    /// The intervals above the root, root first.
    pub fn intervals(&self) -> (r: Vec<Interval>)
        ensures
            r@ == self.interval_seq(),
    {
        let r = match self {
            Kind::Maj => vec![Interval::Unison, Interval::Maj3, Interval::Perfect5],
            Kind::Min => vec![Interval::Unison, Interval::Min3, Interval::Perfect5],
            Kind::Dim => vec![Interval::Unison, Interval::Min3, Interval::Dim5],
            Kind::Aug => vec![Interval::Unison, Interval::Maj3, Interval::Aug5],
            Kind::Dom7 => vec![Interval::Unison, Interval::Maj3, Interval::Perfect5, Interval::Min7],
            Kind::Maj7 => vec![Interval::Unison, Interval::Maj3, Interval::Perfect5, Interval::Maj7],
            Kind::Min7 => vec![Interval::Unison, Interval::Min3, Interval::Perfect5, Interval::Min7],
            Kind::Min7b5 => vec![Interval::Unison, Interval::Min3, Interval::Dim5, Interval::Min7],
            Kind::Dim7 => vec![Interval::Unison, Interval::Min3, Interval::Dim5, Interval::Dim7],
        };
        assert(r@ =~= self.interval_seq());
        r
    }

    /// The pitches of the chord on `root`, root first; `None` as soon as one
    /// would need more than a double accidental.
    pub fn with_root(&self, root: &TpcOctave) -> (r: Option<Vec<TpcOctave>>)
        requires
            root.1 < i8::MAX,
        ensures
            r is Some <==> self.pitches_on(root@) is Some,
            r matches Some(v) ==> self.pitches_on(root@) == Some(v@.map_values(|p: TpcOctave| p@)),
    {
        let intervals = self.intervals();
        let mut tpcs: Vec<TpcOctave> = Vec::new();
        let mut i: usize = 0;
        while i < intervals.len()
            invariant
                root.1 < i8::MAX,
                intervals@ == self.interval_seq(),
                0 <= i <= intervals.len(),
                tpcs@.len() == i,
                forall|j: int| 0 <= j < i ==> representable(root@.0 + #[trigger] intervals@[j].fifths_spec()),
                forall|j: int| 0 <= j < i ==> #[trigger] tpcs@[j]@ == pitch_above(root@, intervals@[j]),
            decreases intervals.len() - i,
        {
            match root.plus(intervals[i]) {
                Some(p) => tpcs.push(p),
                None => {
                    assert(!self.builds_on(root@.0)) by {
                        assert(!representable(root@.0 + self.interval_seq()[i as int].fifths_spec()));
                    }
                    return None;
                },
            }
            i = i + 1;
        }
        assert(tpcs@.map_values(|p: TpcOctave| p@) =~= Seq::new(self.interval_seq().len(), |j: int| pitch_above(root@, self.interval_seq()[j])));
        Some(tpcs)
    }

    /// The line-of-fifths place of the flattest root whose chord stays
    /// representable (with `allow_double`) or free of double flats (without),
    /// and never itself flatter than F flat.
    pub open spec fn flattest_root_spec(self, allow_double: bool) -> int {
        let lowest = if allow_double {
            MIN_FIFTHS - flattest_of(self.interval_seq())
        } else {
            F_FLAT - flattest_of(self.interval_seq())
        };
        if lowest < F_FLAT {
            F_FLAT as int
        } else {
            lowest
        }
    }

    /// The line-of-fifths place of the sharpest root whose chord stays
    /// representable (with `allow_double`) or free of double sharps (without),
    /// and never itself sharper than B sharp.
    pub open spec fn sharpest_root_spec(self, allow_double: bool) -> int {
        let highest = if allow_double {
            MAX_FIFTHS - sharpest_of(self.interval_seq())
        } else {
            B_SHARP - sharpest_of(self.interval_seq())
        };
        if highest > B_SHARP {
            B_SHARP as int
        } else {
            highest
        }
    }

    /// The interval of the table that lies furthest flatwards.
    fn flattest_interval(&self) -> (r: Interval)
        ensures
            r.fifths_spec() == flattest_of(self.interval_seq()),
    {
        let intervals = self.intervals();
        let mut best = intervals[0];
        let mut i: usize = 1;
        assert(intervals@.take(1).drop_last() =~= Seq::<Interval>::empty());
        while i < intervals.len()
            invariant
                intervals@ == self.interval_seq(),
                1 <= i <= intervals.len(),
                best.fifths_spec() == flattest_of(intervals@.take(i as int)),
            decreases intervals.len() - i,
        {
            assert(intervals@.take(i + 1).drop_last() =~= intervals@.take(i as int));
            if intervals[i].fifths() < best.fifths() {
                best = intervals[i];
            }
            i = i + 1;
        }
        assert(intervals@.take(i as int) =~= intervals@);
        best
    }

    /// The interval of the table that lies furthest sharpwards.
    fn sharpest_interval(&self) -> (r: Interval)
        ensures
            r.fifths_spec() == sharpest_of(self.interval_seq()),
    {
        let intervals = self.intervals();
        let mut best = intervals[0];
        let mut i: usize = 1;
        while i < intervals.len()
            invariant
                intervals@ == self.interval_seq(),
                1 <= i <= intervals.len(),
                best.fifths_spec() == sharpest_of(intervals@.take(i as int)),
            decreases intervals.len() - i,
        {
            assert(intervals@.take(i + 1).drop_last() =~= intervals@.take(i as int));
            if intervals[i].fifths() > best.fifths() {
                best = intervals[i];
            }
            i = i + 1;
        }
        assert(intervals@.take(i as int) =~= intervals@);
        best
    }

    /// Every interval table holds the unison and lies within a ninth of it
    /// on the line of fifths.
    pub(crate) proof fn lemma_table_bounds(self)
        ensures
            -9 <= flattest_of(self.interval_seq()) <= 0,
            0 <= sharpest_of(self.interval_seq()) <= 8,
    {
        let s = self.interval_seq();
        lemma_flattest_of(s);
        lemma_sharpest_of(s);
        assert(s[0].fifths_spec() == 0);
        let j = choose|j: int| 0 <= j < s.len() && flattest_of(s) == #[trigger] s[j].fifths_spec();
        let k = choose|k: int| 0 <= k < s.len() && sharpest_of(s) == #[trigger] s[k].fifths_spec();
        assert(-9 <= s[j].fifths_spec() <= 8);
        assert(-9 <= s[k].fifths_spec() <= 8);
    }

    /// Roots from which `boundary` lies an interval of the table below; the
    /// result never lies below F flat.
    fn root_above(&self, boundary: i8) -> (r: Tpc)
        requires
            boundary == MIN_FIFTHS || boundary == F_FLAT,
        ensures
            r@ == (if boundary - flattest_of(self.interval_seq()) < F_FLAT {
                F_FLAT as int
            } else {
                boundary - flattest_of(self.interval_seq())
            }),
    {
        proof {
            self.lemma_table_bounds();
        }
        let flattest = self.flattest_interval();
        let root = Tpc::new(boundary).unwrap().minus(flattest).unwrap();
        if root.fifths() < F_FLAT {
            Tpc::new(F_FLAT).unwrap()
        } else {
            root
        }
    }

    /// Roots from which `boundary` lies an interval of the table above; the
    /// result never lies above B sharp.
    fn root_below(&self, boundary: i8) -> (r: Tpc)
        requires
            boundary == MAX_FIFTHS || boundary == B_SHARP,
        ensures
            r@ == (if boundary - sharpest_of(self.interval_seq()) > B_SHARP {
                B_SHARP as int
            } else {
                boundary - sharpest_of(self.interval_seq())
            }),
    {
        proof {
            self.lemma_table_bounds();
        }
        let sharpest = self.sharpest_interval();
        let root = Tpc::new(boundary).unwrap().minus(sharpest).unwrap();
        if root.fifths() > B_SHARP {
            Tpc::new(B_SHARP).unwrap()
        } else {
            root
        }
    }

    /// The flattest root for which the chord is representable, with
    /// double accidentals allowed.
    pub fn flattest_root(&self) -> (r: Tpc)
        ensures
            r@ == self.flattest_root_spec(true),
    {
        self.root_above(MIN_FIFTHS)
    }

    /// The flattest root for which the chord needs no double flat.
    pub fn flattest_root_no_dbl_flat(&self) -> (r: Tpc)
        ensures
            r@ == self.flattest_root_spec(false),
    {
        self.root_above(F_FLAT)
    }

    /// The sharpest root for which the chord is representable, with
    /// double accidentals allowed.
    pub fn sharpest_root(&self) -> (r: Tpc)
        ensures
            r@ == self.sharpest_root_spec(true),
    {
        self.root_below(MAX_FIFTHS)
    }

    /// The sharpest root for which the chord needs no double sharp.
    pub fn sharpest_root_no_dbl_sharp(&self) -> (r: Tpc)
        ensures
            r@ == self.sharpest_root_spec(false),
    {
        self.root_below(B_SHARP)
    }
}

proof fn lemma_flattest_of(s: Seq<Interval>)
    requires
        s.len() >= 1,
    ensures
        forall|j: int| 0 <= j < s.len() ==> flattest_of(s) <= #[trigger] s[j].fifths_spec(),
        exists|j: int| 0 <= j < s.len() && flattest_of(s) == #[trigger] s[j].fifths_spec(),
    decreases s.len(),
{
    if s.len() > 1 {
        lemma_flattest_of(s.drop_last());
        let j = choose|j: int| 0 <= j < s.len() - 1 && flattest_of(s.drop_last()) == #[trigger] s.drop_last()[j].fifths_spec();
        assert(s.drop_last()[j] == s[j]);
        assert forall|k: int| 0 <= k < s.len() implies flattest_of(s) <= #[trigger] s[k].fifths_spec() by {
            if k < s.len() - 1 {
                assert(s.drop_last()[k] == s[k]);
            }
        }
        if s.last().fifths_spec() < flattest_of(s.drop_last()) {
            assert(flattest_of(s) == s[s.len() - 1].fifths_spec());
        } else {
            assert(flattest_of(s) == s[j].fifths_spec());
        }
    } else {
        assert(flattest_of(s) == s[0].fifths_spec());
    }
}

proof fn lemma_sharpest_of(s: Seq<Interval>)
    requires
        s.len() >= 1,
    ensures
        forall|j: int| 0 <= j < s.len() ==> sharpest_of(s) >= #[trigger] s[j].fifths_spec(),
        exists|j: int| 0 <= j < s.len() && sharpest_of(s) == #[trigger] s[j].fifths_spec(),
    decreases s.len(),
{
    if s.len() > 1 {
        lemma_sharpest_of(s.drop_last());
        let j = choose|j: int| 0 <= j < s.len() - 1 && sharpest_of(s.drop_last()) == #[trigger] s.drop_last()[j].fifths_spec();
        assert(s.drop_last()[j] == s[j]);
        assert forall|k: int| 0 <= k < s.len() implies sharpest_of(s) >= #[trigger] s[k].fifths_spec() by {
            if k < s.len() - 1 {
                assert(s.drop_last()[k] == s[k]);
            }
        }
        if s.last().fifths_spec() > sharpest_of(s.drop_last()) {
            assert(sharpest_of(s) == s[s.len() - 1].fifths_spec());
        } else {
            assert(sharpest_of(s) == s[j].fifths_spec());
        }
    } else {
        assert(sharpest_of(s) == s[0].fifths_spec());
    }
}

/// Every root from the flattest to the sharpest root of a quality builds its
/// chord. Where double accidentals are not allowed, no pitch of that chord
/// needs one: each lies between F flat and B sharp on the line of fifths.
pub proof fn lemma_roots_in_range_build(kind: Kind, root: int, allow_double: bool)
    requires
        kind.flattest_root_spec(allow_double) <= root <= kind.sharpest_root_spec(allow_double),
    ensures
        kind.builds_on(root),
        !allow_double ==> forall|j: int|
            0 <= j < kind.interval_seq().len() ==> F_FLAT <= root
                + #[trigger] kind.interval_seq()[j].fifths_spec() <= B_SHARP,
{
    lemma_flattest_of(kind.interval_seq());
    lemma_sharpest_of(kind.interval_seq());
}

/// One step flatwards of the flattest root without double accidentals, or
/// one step sharpwards of the sharpest, the chord still builds but one of its
/// pitches needs a double accidental.
pub proof fn lemma_beyond_single_range(kind: Kind, root: int)
    requires
        root == kind.flattest_root_spec(false) - 1 || root == kind.sharpest_root_spec(false) + 1,
    ensures
        kind.builds_on(root),
        exists|j: int|
            0 <= j < kind.interval_seq().len() && !(F_FLAT <= root
                + #[trigger] kind.interval_seq()[j].fifths_spec() <= B_SHARP),
{
    let s = kind.interval_seq();
    kind.lemma_table_bounds();
    lemma_flattest_of(s);
    lemma_sharpest_of(s);
    assert(s[0].fifths_spec() == 0);
    if root == kind.flattest_root_spec(false) - 1 {
        let j = choose|j: int| 0 <= j < s.len() && flattest_of(s) == #[trigger] s[j].fifths_spec();
        assert(root + s[j].fifths_spec() < F_FLAT);
    } else {
        let j = choose|j: int| 0 <= j < s.len() && sharpest_of(s) == #[trigger] s[j].fifths_spec();
        assert(root + s[j].fifths_spec() > B_SHARP);
    }
}

/// With double accidentals allowed, one step beyond a bound that the
/// interval table sets (rather than the limit of F flat or B sharp on the
/// root itself), the chord cannot be built.
pub proof fn lemma_beyond_double_range(kind: Kind, root: int)
    requires
        (root == kind.flattest_root_spec(true) - 1 && MIN_FIFTHS - flattest_of(kind.interval_seq())
            >= F_FLAT) || (root == kind.sharpest_root_spec(true) + 1 && MAX_FIFTHS - sharpest_of(
            kind.interval_seq(),
        ) <= B_SHARP),
    ensures
        !kind.builds_on(root),
{
    let s = kind.interval_seq();
    lemma_flattest_of(s);
    lemma_sharpest_of(s);
    if root == kind.flattest_root_spec(true) - 1 && MIN_FIFTHS - flattest_of(s) >= F_FLAT {
        let j = choose|j: int| 0 <= j < s.len() && flattest_of(s) == #[trigger] s[j].fifths_spec();
        assert(!representable(root + s[j].fifths_spec()));
    } else {
        let j = choose|j: int| 0 <= j < s.len() && sharpest_of(s) == #[trigger] s[j].fifths_spec();
        assert(!representable(root + s[j].fifths_spec()));
    }
}

/// A chord as a value: its root, its quality, and its pitches as
/// (line of fifths, octave) pairs, root first.
pub struct ChordView {
    pub root: (int, int),
    pub kind: Kind,
    pub pitches: Seq<(int, int)>,
}

/// A chord built from a root and a quality, with its pitches spelled out.
#[derive(Debug, PartialEq)]
pub struct Chord {
    root: TpcOctave,
    kind: Kind,
    tpcs: Vec<TpcOctave>,
}

impl View for Chord {
    type V = ChordView;

    closed spec fn view(&self) -> ChordView {
        ChordView {
            root: self.root@,
            kind: self.kind,
            pitches: self.tpcs@.map_values(|p: TpcOctave| p@),
        }
    }
}

/// `pos` raised by whole octaves of seven steps to the lowest place at or
/// above `floor`; unchanged where it already lies there.
pub open spec fn raised_above(pos: int, floor: int) -> int {
    if pos >= floor {
        pos
    } else {
        pos + 7 * ((floor - pos + 6) / 7)
    }
}

/// Staff positions of `pitches` under `clef`, each raised by octaves to lie
/// at or above the first.
pub open spec fn staff_positions_of(pitches: Seq<(int, int)>, clef: Clef) -> Seq<int> {
    Seq::new(
        pitches.len(),
        |i: int| raised_above(clef.position_of(pitches[i]), clef.position_of(pitches[0])),
    )
}

/// `pos` raised by whole octaves to lie at or above `floor`.
fn raise_above(pos: i32, floor: i32) -> (r: i32)
    requires
        -1000 < pos < 1000,
        -1000 < floor < 1000,
    ensures
        r == raised_above(pos as int, floor as int),
{
    let mut p = pos;
    let ghost mut k: int = 0;
    while p < floor
        invariant
            p == pos + 7 * k,
            k >= 0,
            k > 0 ==> p - 7 < floor,
            -1000 < pos < 1000,
            -1000 < floor < 1000,
            p < 1007,
        decreases floor + 7 - p,
    {
        p = p + 7;
        proof {
            k = k + 1;
        }
    }
    p
}

/// The accidental that a pitch needs, with the staff position it stands at.
pub open spec fn accidental_entry() -> spec_fn((int, int)) -> Option<(Accidental, int)> {
    |e: (int, int)|
        match accidental_of(e.0) {
            Some(a) => Some((a, e.1)),
            None => None,
        }
}

/// For pitches at the given staff positions, the accidentals to write and
/// where, in the order of the pitches, leaving out the naturals.
pub open spec fn accidentals_of(pitches: Seq<(int, int)>, positions: Seq<int>) -> Seq<(Accidental, int)> {
    Seq::new(pitches.len(), |i: int| (pitches[i].0, positions[i])).filter_map(accidental_entry())
}

/// The chord's name: root letter, its accidental, and the quality's suffix.
pub open spec fn name_of(root: int, kind: Kind) -> Seq<char> {
    step_of(root).name_spec() + match accidental_of(root) {
        Some(a) => a.symbol_spec(),
        None => Seq::empty(),
    } + kind.suffix_spec()
}

impl Clone for Chord {
    fn clone(&self) -> (r: Chord)
        ensures
            r@ == self@,
    {
        proof {
            use_type_invariant(self);
        }
        let tpcs = self.tpcs.clone();
        assert(tpcs@ =~= self.tpcs@);
        Chord { root: self.root, kind: self.kind, tpcs }
    }
}

impl Chord {
    #[verifier::type_invariant]
    spec fn inv(self) -> bool {
        self.kind.pitches_on(self.root@) == Some(self.tpcs@.map_values(|p: TpcOctave| p@))
    }

    /// The chord of quality `kind` on `root`; `None` where one of its
    /// pitches would need more than a double accidental.
    pub fn new(root: TpcOctave, kind: Kind) -> (r: Option<Chord>)
        requires
            root.1 < i8::MAX,
        ensures
            r is Some <==> kind.builds_on(root@.0),
            r matches Some(c) ==> c@ == (ChordView {
                root: root@,
                kind,
                pitches: kind.pitches_on(root@).unwrap(),
            }),
    {
        match kind.with_root(&root) {
            Some(tpcs) => Some(Chord { root, kind, tpcs }),
            None => None,
        }
    }

    /// Staff positions of the pitches under `clef`, each raised by octaves
    /// to lie at or above the root.
    pub fn staff_positions(&self, clef: &Clef) -> (r: Vec<StaffPosition>)
        ensures
            r@.map_values(|p: StaffPosition| p@) == staff_positions_of(self@.pitches, *clef),
    {
        proof {
            use_type_invariant(self);
            assert(self.tpcs@.map_values(|p: TpcOctave| p@).len() == self.tpcs@.len());
        }
        let root_position = clef.position(&self.tpcs[0]).value();
        let mut positions: Vec<StaffPosition> = Vec::new();
        let mut i: usize = 0;
        while i < self.tpcs.len()
            invariant
                0 <= i <= self.tpcs.len(),
                self.tpcs.len() >= 1,
                root_position == clef.position_of(self.tpcs@[0]@),
                -1000 < root_position < 1000,
                positions@.len() == i,
                forall|j: int|
                    0 <= j < i ==> (#[trigger] positions@[j])@ == raised_above(
                        clef.position_of(self.tpcs@[j]@),
                        root_position as int,
                    ),
            decreases self.tpcs.len() - i,
        {
            let pos = raise_above(clef.position(&self.tpcs[i]).value(), root_position);
            positions.push(StaffPosition::new(pos));
            i = i + 1;
        }
        assert(positions@.map_values(|p: StaffPosition| p@) =~= staff_positions_of(self@.pitches, *clef));
        positions
    }

    /// The accidentals to write, each with the staff position of its pitch
    /// under `clef`, in the order of the pitches; naturals need none.
    pub fn accidentals(&self, clef: &Clef) -> (r: Vec<(Accidental, StaffPosition)>)
        ensures
            r@.len() <= self@.pitches.len(),
            r@.map_values(|e: (Accidental, StaffPosition)| (e.0, e.1@)) == accidentals_of(
                self@.pitches,
                staff_positions_of(self@.pitches, *clef),
            ),
    {
        let positions = self.staff_positions(clef);
        let ghost zipped = Seq::new(
            self@.pitches.len(),
            |i: int| (self@.pitches[i].0, staff_positions_of(self@.pitches, *clef)[i]),
        );
        proof {
            use_type_invariant(self);
            let pv = positions@.map_values(|p: StaffPosition| p@);
            assert(pv.len() == positions@.len());
            assert(self@.pitches.len() == self.tpcs@.len());
            assert forall|j: int| 0 <= j < self.tpcs.len() implies (#[trigger] zipped[j]) == (self.tpcs@[j]@.0, positions@[j]@) by {
                assert(pv[j] == positions@[j]@);
                assert(self@.pitches[j] == self.tpcs@[j]@);
            }
        }
        let mut r: Vec<(Accidental, StaffPosition)> = Vec::new();
        let mut i: usize = 0;
        assert(zipped.take(0) =~= Seq::<(int, int)>::empty());
        while i < self.tpcs.len()
            invariant
                0 <= i <= self.tpcs.len(),
                zipped.len() == self.tpcs.len(),
                positions@.len() == self.tpcs.len(),
                forall|j: int| 0 <= j < self.tpcs.len() ==> (#[trigger] zipped[j]) == (self.tpcs@[j]@.0, positions@[j]@),
                r@.map_values(|e: (Accidental, StaffPosition)| (e.0, e.1@)) == zipped.take(i as int).filter_map(accidental_entry()),
                r@.len() <= i,
            decreases self.tpcs.len() - i,
        {
            proof {
                zipped.lemma_filter_map_take_succ(accidental_entry(), i as int);
            }
            let (_, acc) = self.tpcs[i].0.altered_step();
            match acc {
                Some(a) => {
                    r.push((a, positions[i]));
                    assert(r@.map_values(|e: (Accidental, StaffPosition)| (e.0, e.1@)) =~= zipped.take(i as int).filter_map(accidental_entry()) + seq![(a, positions@[i as int]@)]);
                },
                None => {},
            }
            i = i + 1;
        }
        assert(zipped.take(i as int) =~= zipped);
        r
    }

    /// The chord's name, as in "C", "Cm7♭5" or "F♯dim7".
    pub fn display_name(&self) -> (r: String)
        ensures
            r@ == name_of(self@.root.0, self@.kind),
    {
        let (step, alter) = self.root.0.altered_step();
        let mut name = String::from_str(step.name());
        match alter {
            Some(acc) => name.append(acc.symbol()),
            None => {},
        }
        name.append(self.kind.suffix());
        name
    }
}

/// A built chord has one pitch per interval of its quality, in the order of
/// the table: pitch `j` is the root plus interval `j`.
pub proof fn lemma_pitches_follow_intervals(kind: Kind, root: (int, int))
    requires
        kind.builds_on(root.0),
    ensures
        kind.pitches_on(root).unwrap().len() == kind.interval_seq().len(),
        forall|j: int|
            0 <= j < kind.interval_seq().len() ==> pitch_plus(root, #[trigger] kind.interval_seq()[j])
                == Some(kind.pitches_on(root).unwrap()[j]),
{
}

/// An interval above a pitch lands as many staff steps higher as the
/// interval spans, whatever the clef.
pub proof fn lemma_position_above(clef: Clef, p: (int, int), interval: Interval)
    requires
        representable(p.0),
        representable(p.0 + interval.fifths_spec()),
    ensures
        clef.position_of(pitch_above(p, interval)) == clef.position_of(p) + interval.steps(),
{
}

/// Under any clef, the staff positions of a built chord rise (never fall)
/// from the first, which is the root's own position.
pub proof fn lemma_positions_rise(kind: Kind, root: (int, int), clef: Clef)
    requires
        kind.builds_on(root.0),
    ensures
        staff_positions_of(kind.pitches_on(root).unwrap(), clef)[0] == clef.position_of(root),
        forall|i: int, j: int|
            0 <= i <= j < kind.interval_seq().len() ==> staff_positions_of(
                kind.pitches_on(root).unwrap(),
                clef,
            )[i] <= staff_positions_of(kind.pitches_on(root).unwrap(), clef)[j],
{
    let s = kind.interval_seq();
    let pitches = kind.pitches_on(root).unwrap();
    let ps = staff_positions_of(pitches, clef);
    let base = clef.position_of(root);
    assert(s[0] == Interval::Unison);
    assert(pitches[0] == root);
    assert forall|j: int| 0 <= j < s.len() implies #[trigger] ps[j] == base + s[j].steps() by {
        assert(representable(root.0 + s[j].fifths_spec()));
        lemma_position_above(clef, root, s[j]);
        assert(pitches[j] == pitch_above(root, s[j]));
    }
    kind.lemma_steps_rise();
}

impl Kind {
    /// The interval tables go up by thirds: the staff steps they span never
    /// fall along a table.
    proof fn lemma_steps_rise(self)
        ensures
            forall|i: int, j: int|
                0 <= i <= j < self.interval_seq().len() ==> (#[trigger] self.interval_seq()[i]).steps()
                    <= (#[trigger] self.interval_seq()[j]).steps(),
    {
        let s = self.interval_seq();
        assert(forall|i: int| 0 <= i < s.len() ==> (#[trigger] s[i]).steps() == 2 * i);
    }
}

/// How many of `pitches` need an accidental.
pub open spec fn altered_count(pitches: Seq<(int, int)>) -> nat
    decreases pitches.len(),
{
    if pitches.len() == 0 {
        0
    } else {
        altered_count(pitches.drop_last()) + if accidental_of(pitches.last().0) is Some {
            1nat
        } else {
            0nat
        }
    }
}

/// A chord carries one accidental for each pitch that is not one of the
/// seven naturals, and no other.
pub proof fn lemma_accidental_count(pitches: Seq<(int, int)>, positions: Seq<int>)
    requires
        positions.len() == pitches.len(),
    ensures
        accidentals_of(pitches, positions).len() == altered_count(pitches),
    decreases pitches.len(),
{
    if pitches.len() > 0 {
        let n = pitches.len() - 1;
        lemma_accidental_count(pitches.drop_last(), positions.drop_last());
        let zipped = Seq::new(pitches.len(), |i: int| (pitches[i].0, positions[i]));
        assert(zipped.drop_last() =~= Seq::new(
            pitches.drop_last().len(),
            |i: int| (pitches.drop_last()[i].0, positions.drop_last()[i]),
        ));
    }
}

/// The clef a chord is drawn in: the one asked for, else the one its root
/// calls for.
pub open spec fn chosen_clef(root: (int, int), clef_override: Option<Clef>) -> Clef {
    match clef_override {
        Some(c) => c,
        None => Clef::for_root_spec(root),
    }
}

/// The drawing of a chord under `clef`: clef, accidentals, noteheads with
/// their leger lines, and a closing double barline, on a staff across all of
/// them.
pub open spec fn drawing_of(c: ChordView, clef: Clef) -> Seq<Primitive> {
    let positions = staff_positions_of(c.pitches, clef);
    staff_primitives(57_920) + seq![
        Primitive::Glyph { glyph: clef.glyph(), x: 2000, y: clef_y(clef) as i64 },
    ] + accidental_primitives(sorted_high_to_low(accidentals_of(c.pitches, positions)), 26_000)
        + chord_primitives(positions, 32_000) + barline_primitives(56_000)
}

impl Chord {
    /// The chord drawn on a staff: in `clef_override` if given, else in
    /// treble or bass clef after its root.
    pub fn drawing_commands(&self, clef_override: Option<Clef>) -> (r: Score)
        ensures
            r.viewport.x == -2 * STAFF_SPACE,
            r.viewport.y == -STAFF_HEIGHT,
            r.viewport.width == 57_920 + STAFF_HEIGHT,
            r.viewport.height == 3 * STAFF_HEIGHT,
            r.primitives@ == drawing_of(self@, chosen_clef(self@.root, clef_override)),
    {
        proof {
            use_type_invariant(self);
        }
        let clef = match clef_override {
            Some(c) => c,
            None => Clef::for_root(&self.root),
        };
        let accidentals = self.accidentals(&clef);
        let positions = self.staff_positions(&clef);
        proof {
            assert(positions@.map_values(|p: StaffPosition| p@).len() == positions@.len());
            assert(self@.pitches.len() == self.tpcs@.len());
            assert(positions_view(positions@) == positions@.map_values(|p: StaffPosition| p@));
        }
        let r = Builder::new().space(50).clef(&clef).space(600).accidentals(accidentals.as_slice()).space(
            150,
        ).chord(positions.as_slice()).space(600).barline().into_svg();
        assert(r.primitives@ =~= drawing_of(self@, clef));
        r
    }

    /// The chord drawn on a staff in the clef its root calls for.
    pub fn to_svg(&self) -> (r: Score)
        ensures
            r.viewport.width == 57_920 + STAFF_HEIGHT,
            r.primitives@ == drawing_of(self@, Clef::for_root_spec(self@.root)),
    {
        self.drawing_commands(None)
    }
}

impl Default for Chord {
    /// C major on middle C.
    fn default() -> (r: Chord)
        ensures
            r@ == (ChordView {
                root: (0, 4),
                kind: Kind::Maj,
                pitches: Kind::Maj.pitches_on((0, 4)).unwrap(),
            }),
    {
        let root = TpcOctave(Tpc::new(0).unwrap(), 4);
        assert(Kind::Maj.builds_on(0));
        Chord::new(root, Kind::Maj).unwrap()
    }
}

impl Chord {
    pub fn root(&self) -> (r: TpcOctave)
        ensures
            r@ == self@.root,
    {
        self.root
    }

    pub fn kind(&self) -> (r: Kind)
        ensures
            r == self@.kind,
    {
        self.kind
    }

    /// The pitches, root first, in the order of the quality's intervals.
    pub fn pitches(&self) -> (r: &[TpcOctave])
        ensures
            r@.map_values(|p: TpcOctave| p@) == self@.pitches,
    {
        self.tpcs.as_slice()
    }
}

} // verus!
