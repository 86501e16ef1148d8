//! The data model of the decoder: light states, timed events, the fixed
//! catalog of Morse timing primitives, scored values and the error type.

use vstd::prelude::*;

verus! {

/// A sample timestamp, in the caller's time units.
pub type Time = i64;

/// A raw intensity reading from the light sensor.
pub type LightIntensity = i64;

/// Binary state of the light sensor during one maximal run.
#[derive(PartialEq, Eq, Copy, Clone, Debug, Structural)]
pub enum LightState {
    Light,
    Dark,
}

/// Everything that can go fatally wrong in the decoding pipeline.
#[derive(PartialEq, Eq, Copy, Clone, Debug, Structural)]
pub enum MorseErr {
    /// No candidate matched, or there was nothing to score: the event
    /// list was empty, or the search window held no unit duration.
    TooFewTLEs,
    /// The unit-duration search window is wider than the fixed scratch
    /// buffer that collects one score per candidate duration.
    TooManyUnitMillisGuessesToTry,
    /// Event extraction would need more events than the fixed capacity.
    TooManyTLEs,
}

/// A value paired with its error score; lower scores are better fits.
#[derive(PartialEq, Eq, Copy, Clone, Debug)]
pub struct Scored<T> {
    pub item: T,
    pub score: i64,
}

/// One maximal run of constant light state, with its duration in time units.
#[derive(PartialEq, Eq, Copy, Clone, Debug, Structural)]
pub struct TimedLightEvent {
    pub light_state: LightState,
    pub duration: i64,
}

/// One Morse timing primitive: a light state held for `units` unit durations.
#[derive(PartialEq, Eq, Copy, Clone, Debug, Structural)]
pub struct MorseCandidate {
    pub light_state: LightState,
    pub units: i64,
}

/// The decoded Morse alphabet, plus a sentinel for unclassifiable events.
#[derive(PartialEq, Eq, Copy, Clone, Debug, Structural)]
pub enum Morse {
    Dot,
    Dash,
    SymbolGap,
    LetterGap,
    WordGap,
    Error,
}

/// The fixed catalog of Morse timing primitives: dot, dash, intra-symbol
/// gap, inter-letter gap and inter-word gap. It is never mutated and holds
/// at least one candidate per light state.
pub open spec fn catalog() -> Seq<MorseCandidate> {
    seq![
        MorseCandidate { light_state: LightState::Light, units: 1 },
        MorseCandidate { light_state: LightState::Light, units: 3 },
        MorseCandidate { light_state: LightState::Dark, units: 1 },
        MorseCandidate { light_state: LightState::Dark, units: 3 },
        MorseCandidate { light_state: LightState::Dark, units: 7 },
    ]
}

/// The catalog as an executable vector, in catalog order.
pub fn morse_candidates() -> (v: Vec<MorseCandidate>)
    ensures
        v@ == catalog(),
{
    let mut v: Vec<MorseCandidate> = Vec::new();
    v.push(MorseCandidate { light_state: LightState::Light, units: 1 });
    v.push(MorseCandidate { light_state: LightState::Light, units: 3 });
    v.push(MorseCandidate { light_state: LightState::Dark, units: 1 });
    v.push(MorseCandidate { light_state: LightState::Dark, units: 3 });
    v.push(MorseCandidate { light_state: LightState::Dark, units: 7 });
    proof {
        assert(v@ =~= catalog());
    }
    v
}

} // verus!
