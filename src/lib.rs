//! Spelled chords on a five-line staff: enharmonic pitch arithmetic on the
//! line of fifths, chord construction from a root and a quality, staff
//! positions under a clef, and an engraving layout of glyphs and lines.

pub mod chord;
pub mod pitch;
pub mod quiz;
pub mod score;
