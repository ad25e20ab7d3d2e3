//! A Euclidean-rhythm MIDI step sequencer engine: the rhythm decision, the
//! value mapping of analog control readings, the tempo derivation and the
//! per-step state machine that decides which MIDI bytes go out and when.
use vstd::prelude::*;

pub mod maths;
pub mod patterns;
pub mod sequencer;

verus! {

} // verus!
