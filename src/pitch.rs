//! Spelled pitches on the line of fifths, letters, accidentals and intervals.
//!
//! A spelled pitch is an integer on the line of fifths, where each unit is a
//! perfect fifth and C is zero. Only spellings with at most a double
//! accidental are representable. The arithmetic itself is done by the
//! `tonality` crate.
use num_traits::FromPrimitive;
use vstd::prelude::*;

verus! {

/// Line-of-fifths value of F double flat, the flattest spelling.
pub const MIN_FIFTHS: i8 = -15;

/// Line-of-fifths value of B double sharp, the sharpest spelling.
pub const MAX_FIFTHS: i8 = 19;

/// Line-of-fifths value of F flat, the flattest spelling without a double flat.
pub const F_FLAT: i8 = -8;

/// Line-of-fifths value of B sharp, the sharpest spelling without a double sharp.
pub const B_SHARP: i8 = 12;

/// Whether the spelling at `fifths` needs at most a double accidental.
pub open spec fn representable(fifths: int) -> bool {
    MIN_FIFTHS <= fifths <= MAX_FIFTHS
}

/// One of the seven letters, in the order of the scale from C.
#[derive(Clone, Copy, Debug, PartialEq, Eq, Structural)]
pub enum Step {
    C,
    D,
    E,
    F,
    G,
    A,
    B,
}

impl Step {
    /// Place in the scale from C, counting from zero.
    pub open spec fn index(self) -> int {
        match self {
            Step::C => 0,
            Step::D => 1,
            Step::E => 2,
            Step::F => 3,
            Step::G => 4,
            Step::A => 5,
            Step::B => 6,
        }
    }

    /// Line-of-fifths value of the letter without an accidental.
    pub open spec fn natural_fifths(self) -> int {
        match self {
            Step::C => 0,
            Step::D => 2,
            Step::E => 4,
            Step::F => -1,
            Step::G => 1,
            Step::A => 3,
            Step::B => 5,
        }
    }

    pub fn to_index(&self) -> (r: u8)
        ensures
            r == self.index(),
    {
        match self {
            Step::C => 0,
            Step::D => 1,
            Step::E => 2,
            Step::F => 3,
            Step::G => 4,
            Step::A => 5,
            Step::B => 6,
        }
    }

    /// The letter at place `i` of the scale from C.
    pub open spec fn at(i: int) -> Step {
        if i <= 0 {
            Step::C
        } else if i == 1 {
            Step::D
        } else if i == 2 {
            Step::E
        } else if i == 3 {
            Step::F
        } else if i == 4 {
            Step::G
        } else if i == 5 {
            Step::A
        } else {
            Step::B
        }
    }

    pub fn from_index(i: u8) -> (r: Step)
        requires
            i < 7,
        ensures
            r.index() == i,
            r == Step::at(i as int),
    {
        match i {
            0 => Step::C,
            1 => Step::D,
            2 => Step::E,
            3 => Step::F,
            4 => Step::G,
            5 => Step::A,
            _ => Step::B,
        }
    }

    /// The letter as it is written in a chord name.
    pub open spec fn name_spec(self) -> Seq<char> {
        match self {
            Step::C => "C"@,
            Step::D => "D"@,
            Step::E => "E"@,
            Step::F => "F"@,
            Step::G => "G"@,
            Step::A => "A"@,
            Step::B => "B"@,
        }
    }

    pub fn name(&self) -> (r: &'static str)
        ensures
            r@ == self.name_spec(),
    {
        match self {
            Step::C => "C",
            Step::D => "D",
            Step::E => "E",
            Step::F => "F",
            Step::G => "G",
            Step::A => "A",
            Step::B => "B",
        }
    }

    /// The spelling made of this letter and an accidental.
    pub fn with_accidental(self, acc: Accidental) -> (r: Tpc)
        ensures
            r@ == self.natural_fifths() + 7 * acc.alteration(),
    {
        let v = tonality_with_accidental(self.to_index(), acc.to_alteration());
        Tpc { fifths: v }
    }
}

/// A sign that moves a letter by up to two semitones.
#[derive(Clone, Copy, Debug, PartialEq, Eq, Structural)]
pub enum Accidental {
    DblFlat,
    Flat,
    Natural,
    Sharp,
    DblSharp,
}

impl Accidental {
    /// Semitones by which the sign moves its letter.
    pub open spec fn alteration(self) -> int {
        match self {
            Accidental::DblFlat => -2,
            Accidental::Flat => -1,
            Accidental::Natural => 0,
            Accidental::Sharp => 1,
            Accidental::DblSharp => 2,
        }
    }

    /// The sign for an alteration of `a` semitones, clamped to a double
    /// accidental.
    pub open spec fn from_alteration(a: int) -> Accidental {
        if a <= -2 {
            Accidental::DblFlat
        } else if a == -1 {
            Accidental::Flat
        } else if a == 0 {
            Accidental::Natural
        } else if a == 1 {
            Accidental::Sharp
        } else {
            Accidental::DblSharp
        }
    }

    pub fn to_alteration(&self) -> (r: i8)
        ensures
            r == self.alteration(),
    {
        match self {
            Accidental::DblFlat => -2,
            Accidental::Flat => -1,
            Accidental::Natural => 0,
            Accidental::Sharp => 1,
            Accidental::DblSharp => 2,
        }
    }

    /// The sign as it is written in a chord name.
    pub open spec fn symbol_spec(self) -> Seq<char> {
        match self {
            Accidental::DblFlat => "\u{266d}\u{266d}"@,
            Accidental::Flat => "\u{266d}"@,
            Accidental::Natural => ""@,
            Accidental::Sharp => "\u{266f}"@,
            Accidental::DblSharp => "\u{266f}\u{266f}"@,
        }
    }

    pub fn symbol(&self) -> (r: &'static str)
        ensures
            r@ == self.symbol_spec(),
    {
        match self {
            Accidental::DblFlat => "\u{266d}\u{266d}",
            Accidental::Flat => "\u{266d}",
            Accidental::Natural => "",
            Accidental::Sharp => "\u{266f}",
            Accidental::DblSharp => "\u{266f}\u{266f}",
        }
    }

    fn of_alteration(a: i8) -> (r: Accidental)
        requires
            -2 <= a <= 2,
        ensures
            r == Accidental::from_alteration(a as int),
            r.alteration() == a,
    {
        if a <= -2 {
            Accidental::DblFlat
        } else if a == -1 {
            Accidental::Flat
        } else if a == 0 {
            Accidental::Natural
        } else if a == 1 {
            Accidental::Sharp
        } else {
            Accidental::DblSharp
        }
    }
}

/// The intervals that chords are built from, each a fixed displacement on
/// the line of fifths.
#[derive(Clone, Copy, Debug, PartialEq, Eq, Structural)]
pub enum Interval {
    Dim7,
    Dim5,
    Min3,
    Min7,
    Unison,
    Perfect5,
    Maj3,
    Maj7,
    Aug5,
}

impl Interval {
    pub open spec fn fifths_spec(self) -> int {
        match self {
            Interval::Dim7 => -9,
            Interval::Dim5 => -6,
            Interval::Min3 => -3,
            Interval::Min7 => -2,
            Interval::Unison => 0,
            Interval::Perfect5 => 1,
            Interval::Maj3 => 4,
            Interval::Maj7 => 5,
            Interval::Aug5 => 8,
        }
    }

    /// Diatonic steps spanned: 0 for a unison, 2 for a third, 4 for a fifth,
    /// 6 for a seventh.
    pub open spec fn steps(self) -> int {
        match self {
            Interval::Unison => 0,
            Interval::Min3 | Interval::Maj3 => 2,
            Interval::Dim5 | Interval::Perfect5 | Interval::Aug5 => 4,
            Interval::Dim7 | Interval::Min7 | Interval::Maj7 => 6,
        }
    }

    /// Displacement on the line of fifths.
    pub fn fifths(&self) -> (r: i8)
        ensures
            r == self.fifths_spec(),
            -12 <= r <= 12,
    {
        match self {
            Interval::Dim7 => -9,
            Interval::Dim5 => -6,
            Interval::Min3 => -3,
            Interval::Min7 => -2,
            Interval::Unison => 0,
            Interval::Perfect5 => 1,
            Interval::Maj3 => 4,
            Interval::Maj7 => 5,
            Interval::Aug5 => 8,
        }
    }
}

/// The letter of the spelling at `fifths` on the line of fifths.
pub open spec fn step_of(fifths: int) -> Step {
    let r = fifths % 7;
    if r == 0 {
        Step::C
    } else if r == 1 {
        Step::G
    } else if r == 2 {
        Step::D
    } else if r == 3 {
        Step::A
    } else if r == 4 {
        Step::E
    } else if r == 5 {
        Step::B
    } else {
        Step::F
    }
}

/// The accidental that the spelling at `fifths` needs with no key signature:
/// none for the seven naturals F C G D A E B.
pub open spec fn accidental_of(fifths: int) -> Option<Accidental> {
    if -1 <= fifths <= 5 {
        None
    } else {
        Some(Accidental::from_alteration((fifths + 1) / 7))
    }
}

/// A spelled pitch class: a letter with at most a double accidental, placed
/// on the line of fifths. Ordered by that place.
#[derive(Clone, Copy, Debug, PartialEq, Eq, Structural, PartialOrd, Ord)]
pub struct Tpc {
    fifths: i8,
}

impl View for Tpc {
    type V = int;

    closed spec fn view(&self) -> int {
        self.fifths as int
    }
}

impl Tpc {
    #[verifier::type_invariant]
    spec fn inv(self) -> bool {
        representable(self.fifths as int)
    }

    /// The spelling at `fifths` on the line of fifths, if it is representable.
    pub fn new(fifths: i8) -> (r: Option<Tpc>)
        ensures
            r is Some <==> representable(fifths as int),
            r matches Some(t) ==> t@ == fifths,
    {
        if MIN_FIFTHS <= fifths && fifths <= MAX_FIFTHS {
            Some(Tpc { fifths })
        } else {
            None
        }
    }

    /// The place on the line of fifths.
    pub fn fifths(&self) -> (r: i8)
        ensures
            r == self@,
            representable(r as int),
    {
        proof {
            use_type_invariant(self);
        }
        self.fifths
    }

    /// The letter, with the accidental stripped.
    pub fn step(&self) -> (r: Step)
        ensures
            r == step_of(self@),
    {
        proof {
            use_type_invariant(self);
        }
        Step::from_index(tonality_step(self.fifths))
    }

    /// The letter and, unless the spelling is one of the seven naturals, its
    /// accidental.
    pub fn altered_step(&self) -> (r: (Step, Option<Accidental>))
        ensures
            r.0 == step_of(self@),
            r.1 == accidental_of(self@),
    {
        proof {
            use_type_invariant(self);
        }
        let (step, alteration) = tonality_altered_step(self.fifths);
        let acc = match alteration {
            Some(a) => Some(Accidental::of_alteration(a)),
            None => None,
        };
        (Step::from_index(step), acc)
    }

    /// The spelling an interval above; `None` where it would need more than a
    /// double accidental.
    pub fn plus(&self, interval: Interval) -> (r: Option<Tpc>)
        ensures
            r is Some <==> representable(self@ + interval.fifths_spec()),
            r matches Some(t) ==> t@ == self@ + interval.fifths_spec(),
    {
        proof {
            use_type_invariant(self);
        }
        match tonality_add(self.fifths, interval.fifths()) {
            Some(v) => Some(Tpc { fifths: v }),
            None => None,
        }
    }

    /// The spelling an interval below; `None` where it would need more than a
    /// double accidental.
    pub fn minus(&self, interval: Interval) -> (r: Option<Tpc>)
        ensures
            r is Some <==> representable(self@ - interval.fifths_spec()),
            r matches Some(t) ==> t@ == self@ - interval.fifths_spec(),
    {
        proof {
            use_type_invariant(self);
        }
        match tonality_sub(self.fifths, interval.fifths()) {
            Some(v) => Some(Tpc { fifths: v }),
            None => None,
        }
    }
}

/// A spelled pitch in an octave. The octave number goes up between B and C,
/// as in scientific pitch notation.
#[derive(Clone, Copy, Debug, PartialEq, Eq, Structural)]
pub struct TpcOctave(pub Tpc, pub i8);

impl View for TpcOctave {
    type V = (int, int);

    open spec fn view(&self) -> (int, int) {
        (self.0@, self.1 as int)
    }
}

/// The pitch an interval above `p`, given as (line of fifths, octave), with
/// no bound on the spelling: the octave goes up where the letter wraps past B.
pub open spec fn pitch_above(p: (int, int), interval: Interval) -> (int, int) {
    let f = p.0 + interval.fifths_spec();
    if step_of(f).index() < step_of(p.0).index() {
        (f, p.1 + 1)
    } else {
        (f, p.1)
    }
}

/// The pitch an interval above `p`, or `None` where its spelling would need
/// more than a double accidental.
pub open spec fn pitch_plus(p: (int, int), interval: Interval) -> Option<(int, int)> {
    if representable(p.0 + interval.fifths_spec()) {
        Some(pitch_above(p, interval))
    } else {
        None
    }
}

impl TpcOctave {
    /// The pitch an interval above; `None` where its spelling would need
    /// more than a double accidental.
    pub fn plus(&self, interval: Interval) -> (r: Option<TpcOctave>)
        requires
            self.1 < i8::MAX,
        ensures
            r is Some <==> pitch_plus(self@, interval) is Some,
            r matches Some(p) ==> pitch_plus(self@, interval) == Some(p@),
    {
        match self.0.plus(interval) {
            Some(t) => {
                if t.step().to_index() < self.0.step().to_index() {
                    Some(TpcOctave(t, self.1 + 1))
                } else {
                    Some(TpcOctave(t, self.1))
                }
            },
            None => None,
        }
    }
}

/// Relies on tonality's `Step::with_accidental`: the spelling of a letter
/// under an accidental, the natural's place moved by seven fifths per
/// semitone.
#[verifier::external_body]
fn tonality_with_accidental(step: u8, alteration: i8) -> (r: i8)
    requires
        step < 7,
        -2 <= alteration <= 2,
    ensures
        r == Step::at(step as int).natural_fifths() + 7 * alteration,
{
    let s: tonality::Step = FromPrimitive::from_u8(step).unwrap();
    let a: tonality::Accidental = FromPrimitive::from_i8(alteration).unwrap();
    s.with_accidental(a) as i8
}

/// Relies on tonality's `Tpc::step`: the letter of a spelling, read from its
/// place on the line of fifths modulo seven.
#[verifier::external_body]
fn tonality_step(fifths: i8) -> (r: u8)
    requires
        representable(fifths as int),
    ensures
        r == step_of(fifths as int).index(),
{
    let t: tonality::Tpc = FromPrimitive::from_i8(fifths).unwrap();
    t.step() as u8
}

/// Relies on tonality's `Tpc::altered_step` with no key: the letter, and the
/// accidental as its alteration in semitones unless the spelling is natural.
#[verifier::external_body]
fn tonality_altered_step(fifths: i8) -> (r: (u8, Option<i8>))
    requires
        representable(fifths as int),
    ensures
        r.0 == step_of(fifths as int).index(),
        r.1 is None <==> accidental_of(fifths as int) is None,
        r.1 matches Some(a) ==> -2 <= a <= 2 && Some(Accidental::from_alteration(a as int))
            == accidental_of(fifths as int),
{
    let t: tonality::Tpc = FromPrimitive::from_i8(fifths).unwrap();
    let (step, acc) = t.altered_step(None);
    (step as u8, acc.map(|a| a as i8))
}

/// Relies on tonality's `Tpc + Interval`: the sum on the line of fifths, or
/// `None` where it falls outside the representable spellings.
#[verifier::external_body]
fn tonality_add(fifths: i8, interval: i8) -> (r: Option<i8>)
    requires
        representable(fifths as int),
        -12 <= interval <= 12,
    ensures
        r is Some <==> representable(fifths + interval),
        r matches Some(v) ==> v == fifths + interval,
{
    let t: tonality::Tpc = FromPrimitive::from_i8(fifths).unwrap();
    let i: tonality::Interval = FromPrimitive::from_i8(interval).unwrap();
    (t + i).map(|v| v as i8)
}

/// Relies on tonality's `Tpc - Interval`: the difference on the line of
/// fifths, or `None` where it falls outside the representable spellings.
#[verifier::external_body]
fn tonality_sub(fifths: i8, interval: i8) -> (r: Option<i8>)
    requires
        representable(fifths as int),
        -12 <= interval <= 12,
    ensures
        r is Some <==> representable(fifths - interval),
        r matches Some(v) ==> v == fifths - interval,
{
    let t: tonality::Tpc = FromPrimitive::from_i8(fifths).unwrap();
    let i: tonality::Interval = FromPrimitive::from_i8(interval).unwrap();
    (t - i).map(|v| v as i8)
}

} // verus!
