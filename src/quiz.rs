//! Drawing a chord for a quiz round: a random quality, a root in the range
//! that keeps the chord representable, and an octave.
use crate::chord::{Chord, ChordView, Kind, lemma_roots_in_range_build};
use crate::pitch::{Tpc, TpcOctave};
use rand::Rng;
use vstd::prelude::*;

verus! {

/// Number of chord qualities a quiz draws from.
pub const KIND_COUNT: u32 = 9;

/// Lowest octave a quiz root is drawn in.
pub const LOWEST_OCTAVE: i8 = 2;

/// One above the highest octave a quiz root is drawn in.
pub const OCTAVE_LIMIT: i8 = 5;

impl Kind {
    pub open spec fn at_index(n: int) -> Kind {
        if n == 0 {
            Kind::Maj
        } else if n == 1 {
            Kind::Min
        } else if n == 2 {
            Kind::Dim
        } else if n == 3 {
            Kind::Aug
        } else if n == 4 {
            Kind::Dom7
        } else if n == 5 {
            Kind::Dim7
        } else if n == 6 {
            Kind::Maj7
        } else if n == 7 {
            Kind::Min7
        } else {
            Kind::Min7b5
        }
    }

    /// The quality numbered `n` in the quiz's draw; numbers from eight on
    /// give the half-diminished seventh.
    pub fn from_index(n: u32) -> (r: Kind)
        ensures
            r == Kind::at_index(n as int),
    {
        match n {
            0 => Kind::Maj,
            1 => Kind::Min,
            2 => Kind::Dim,
            3 => Kind::Aug,
            4 => Kind::Dom7,
            5 => Kind::Dim7,
            6 => Kind::Maj7,
            7 => Kind::Min7,
            _ => Kind::Min7b5,
        }
    }
}

/// The flattest and the sharpest root of `kind`, with or without double
/// accidentals.
pub fn root_range(kind: &Kind, use_dbl_accidentals: bool) -> (r: (Tpc, Tpc))
    ensures
        r.0@ == kind.flattest_root_spec(use_dbl_accidentals),
        r.1@ == kind.sharpest_root_spec(use_dbl_accidentals),
        r.0@ < r.1@,
{
    proof {
        lemma_root_range_nonempty(*kind, use_dbl_accidentals);
    }
    if use_dbl_accidentals {
        (kind.flattest_root(), kind.sharpest_root())
    } else {
        (kind.flattest_root_no_dbl_flat(), kind.sharpest_root_no_dbl_sharp())
    }
}

proof fn lemma_root_range_nonempty(kind: Kind, allow_double: bool)
    ensures
        kind.flattest_root_spec(allow_double) < kind.sharpest_root_spec(allow_double),
{
    kind.lemma_table_bounds();
}

/// The chord of a quiz round from its draws: quality `kind`, root `root` on
/// the line of fifths, octave `octave`. `Some` exactly when the root lies
/// from the flattest root of `kind` up to, but not including, the sharpest,
/// and the octave from the lowest up to, but not including, the limit.
pub fn quiz_chord(kind: Kind, root: i64, octave: i64, use_dbl_accidentals: bool) -> (r: Option<Chord>)
    ensures
        r is Some <==> (kind.flattest_root_spec(use_dbl_accidentals) <= root
            < kind.sharpest_root_spec(use_dbl_accidentals) && LOWEST_OCTAVE <= octave < OCTAVE_LIMIT),
        r matches Some(c) ==> c@ == (ChordView {
            root: (root as int, octave as int),
            kind,
            pitches: kind.pitches_on((root as int, octave as int)).unwrap(),
        }),
{
    let (low, high) = root_range(&kind, use_dbl_accidentals);
    if root < low.fifths() as i64 || root >= high.fifths() as i64 || octave < LOWEST_OCTAVE as i64
        || octave >= OCTAVE_LIMIT as i64 {
        return None;
    }
    proof {
        lemma_roots_in_range_build(kind, root as int, use_dbl_accidentals);
    }
    let tpc = Tpc::new(root as i8).unwrap();
    Chord::new(TpcOctave(tpc, octave as i8), kind)
}

/// A random chord for a quiz round: any quality, a root from its flattest up
/// to (not including) its sharpest root, in octave 2, 3 or 4.
pub fn random_chord(use_dbl_accidentals: bool) -> (r: Chord)
    ensures
        r@.kind.flattest_root_spec(use_dbl_accidentals) <= r@.root.0
            < r@.kind.sharpest_root_spec(use_dbl_accidentals),
        LOWEST_OCTAVE <= r@.root.1 < OCTAVE_LIMIT,
        r@.pitches == r@.kind.pitches_on(r@.root).unwrap(),
{
    let kind = Kind::from_index(random_in(0, KIND_COUNT as i64) as u32);
    let (low, high) = root_range(&kind, use_dbl_accidentals);
    let root = random_in(low.fifths() as i64, high.fifths() as i64);
    let octave = random_in(LOWEST_OCTAVE as i64, OCTAVE_LIMIT as i64);
    quiz_chord(kind, root, octave, use_dbl_accidentals).unwrap()
}

/// Relies on rand's `Rng::gen_range` on the thread-local generator: a value
/// from `low` up to, not including, `high`. It panics unless `low < high`.
#[verifier::external_body]
fn random_in(low: i64, high: i64) -> (r: i64)
    requires
        low < high,
    ensures
        low <= r < high,
{
    rand::thread_rng().gen_range(low, high)
}

} // verus!
