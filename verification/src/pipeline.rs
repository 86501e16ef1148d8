//! The whole decoding pipeline in one call: extract timed events from raw
//! samples, estimate the unit duration over a bounded search window, and
//! decode the events into words under the winning duration.

use vstd::prelude::*;

use crate::decode::decode_message;
use crate::decode::spec_symbols;
use crate::decode::spec_translate;
use crate::estimate::best_unit;
use crate::estimate::estimate_unit_time;
use crate::estimate::lemma_best_unit_characterizes;
use crate::estimate::lemma_total_score_bound;
use crate::estimate::total_score;
use crate::extract::convert;
use crate::extract::events_of_model;
use crate::extract::spec_extract;
use crate::extract::times_monotone;
use crate::extract::MAX_EVENTS;
use crate::scorebuf::UNIT_SCRATCH_CAPACITY;
use crate::types::LightIntensity;
use crate::types::MorseErr;
use crate::types::Time;

verus! {

/// Runs the full pipeline: thresholds and coalesces the samples into
/// timed light events, searches `[min_millis, max_millis)` for the unit
/// duration with the minimum total classification error, re-classifies
/// every event under that duration and decodes the symbol stream into
/// words. Each stage's failure propagates unchanged, and a failed decode
/// yields no words at all.
pub fn decode_transmission(
    samples: &[(Time, LightIntensity)],
    threshold: LightIntensity,
    start_time: Time,
    min_millis: i64,
    max_millis: i64,
) -> (r: Result<Vec<Vec<char>>, MorseErr>)
    requires
        0 <= start_time,
        samples@.len() > 0 ==> start_time <= samples@[0].0,
        times_monotone(samples@),
        0 <= min_millis,
        7 * max_millis <= i64::MAX,
        samples@.len() > 0 ==> (MAX_EVENTS as int) * ((samples@[samples@.len() - 1].0
            - start_time) + 7 * max_millis) <= i64::MAX,
    ensures
        ({
            let model = spec_extract(samples@, threshold as int, start_time as int);
            let evs = events_of_model(model);
            match r {
                Ok(words) => {
                    &&& model.len() <= MAX_EVENTS as int
                    &&& max_millis - min_millis <= UNIT_SCRATCH_CAPACITY as int
                    &&& model.len() > 0
                    &&& min_millis < max_millis
                    &&& (match best_unit(evs, min_millis as int, max_millis as int) {
                        Some(b) => words@.map_values(|w: Vec<char>| w@) == spec_translate(
                            spec_symbols(evs, b.0),
                        ),
                        None => false,
                    })
                },
                Err(MorseErr::TooManyTLEs) => model.len() > MAX_EVENTS as int,
                Err(MorseErr::TooManyUnitMillisGuessesToTry) => model.len() <= MAX_EVENTS as int
                    && max_millis - min_millis > UNIT_SCRATCH_CAPACITY as int,
                Err(MorseErr::TooFewTLEs) => model.len() <= MAX_EVENTS as int && max_millis
                    - min_millis <= UNIT_SCRATCH_CAPACITY as int && (model.len() == 0
                    || min_millis >= max_millis),
            }
        }),
{
    let ghost thr = threshold as int;
    let ghost start = start_time as int;
    let ghost mn = min_millis as int;
    let ghost mx = max_millis as int;
    let ghost model = spec_extract(samples@, thr, start);
    let events = match convert(samples, threshold, start_time) {
        Ok(e) => e,
        Err(e) => {
            return Err(e);
        },
    };
    proof {
        assert(events_of_model(model) =~= events@);
        if samples@.len() > 0 {
            let span = samples@[samples@.len() - 1].0 - start_time;
            assert forall|w: int| mn <= w < mx implies total_score(events@, w) <= i64::MAX by {
                lemma_total_score_bound(events@, w, span);
                assert(events@.len() * (span + 7 * w) <= (MAX_EVENTS as int) * (span + 7 * mx))
                    by (nonlinear_arith)
                    requires
                        0 <= events@.len() <= MAX_EVENTS as int,
                        0 <= span + 7 * w <= span + 7 * mx,
                ;
            }
        } else {
            assert(events@.len() == 0);
            assert forall|w: int| mn <= w < mx implies total_score(events@, w) <= i64::MAX by {
                assert(total_score(events@, w) == 0);
            }
        }
    }
    let best = match estimate_unit_time(events.as_slice(), min_millis, max_millis) {
        Ok(b) => b,
        Err(e) => {
            return Err(e);
        },
    };
    proof {
        lemma_best_unit_characterizes(events@, mn, mx);
    }
    let words = decode_message(events.as_slice(), best.item);
    Ok(words)
}

} // verus!
