//! Decoding of Morse-coded messages received as timed light/dark runs.
//!
//! The pipeline turns raw `(time, intensity)` samples into timed light
//! events, classifies each event against the Morse timing primitives under
//! a hypothesized unit duration, searches a window of unit durations for
//! the one that best explains the whole sequence, and finally translates
//! the winning symbol stream into words and letters through the static
//! code table.

pub mod classify;
pub mod decode;
pub mod estimate;
pub mod extract;
pub mod pipeline;
pub mod scorebuf;
pub mod types;

pub use classify::best_error;
pub use classify::calc_error;
pub use decode::decode_message;
pub use decode::decode_word;
pub use decode::letter_code;
pub use decode::lookup_letter;
pub use decode::mc_to_morse;
pub use decode::split_slice;
pub use decode::translate;
pub use estimate::estimate_unit_time;
pub use estimate::score_possible_unit_millis;
pub use extract::convert;
pub use pipeline::decode_transmission;
pub use types::LightIntensity;
pub use types::LightState;
pub use types::Time;
pub use types::Morse;
pub use types::MorseCandidate;
pub use types::MorseErr;
pub use types::Scored;
pub use types::TimedLightEvent;
