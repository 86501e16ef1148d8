//! The event extractor: thresholds raw `(time, intensity)` samples into a
//! binary light state and coalesces consecutive same-state samples into
//! timed light events.

use vstd::prelude::*;

use crate::types::LightIntensity;
use crate::types::LightState;
use crate::types::MorseErr;
use crate::types::Time;
use crate::types::TimedLightEvent;

verus! {

/// How many timed light events one extraction may produce: the fixed
/// capacity of the event sequence.
pub const MAX_EVENTS: usize = 1024;

/// Thresholding of one intensity reading: strictly brighter than the
/// threshold counts as light, anything else as dark.
pub open spec fn state_of(intensity: int, threshold: int) -> LightState {
    if intensity > threshold {
        LightState::Light
    } else {
        LightState::Dark
    }
}

/// Sample times never decrease.
pub open spec fn times_monotone(samples: Seq<(Time, LightIntensity)>) -> bool {
    forall|i: int, j: int|
        0 <= i <= j < samples.len() ==> #[trigger] samples[i].0 <= #[trigger] samples[j].0
}

/// The runs that remain when the walk stands at sample `i` inside a run
/// of state `cur` that began at time `run_start`: each state change emits
/// the closed run, and the final run is emitted at end of input, closed
/// at the last sample's time.
pub open spec fn extract_from(
    samples: Seq<(Time, LightIntensity)>,
    threshold: int,
    i: int,
    run_start: int,
    cur: LightState,
) -> Seq<(LightState, int)>
    decreases samples.len() - i,
{
    if i >= samples.len() {
        seq![(cur, samples[samples.len() - 1].0 - run_start)]
    } else {
        let st = state_of(samples[i].1 as int, threshold);
        if st == cur {
            extract_from(samples, threshold, i + 1, run_start, cur)
        } else {
            seq![(cur, samples[i].0 - run_start)] + extract_from(
                samples,
                threshold,
                i + 1,
                samples[i].0 as int,
                st,
            )
        }
    }
}

/// The timed runs of a sample sequence: the first run starts at
/// `start_time`, and each run carries its light state and duration.
pub open spec fn spec_extract(
    samples: Seq<(Time, LightIntensity)>,
    threshold: int,
    start_time: int,
) -> Seq<(LightState, int)> {
    if samples.len() == 0 {
        Seq::empty()
    } else {
        extract_from(samples, threshold, 1, start_time, state_of(samples[0].1 as int, threshold))
    }
}

/// The walk always emits at least the run it stands in.
pub proof fn lemma_extract_from_len(
    samples: Seq<(Time, LightIntensity)>,
    threshold: int,
    i: int,
    run_start: int,
    cur: LightState,
)
    ensures
        extract_from(samples, threshold, i, run_start, cur).len() >= 1,
    decreases samples.len() - i,
{
    if i < samples.len() {
        let st = state_of(samples[i].1 as int, threshold);
        if st == cur {
            lemma_extract_from_len(samples, threshold, i + 1, run_start, cur);
        } else {
            lemma_extract_from_len(samples, threshold, i + 1, samples[i].0 as int, st);
        }
    }
}

/// The events of a sequence, abstracted to their light state and
/// mathematical duration.
pub open spec fn model_of(evs: Seq<TimedLightEvent>) -> Seq<(LightState, int)> {
    evs.map_values(|e: TimedLightEvent| (e.light_state, e.duration as int))
}

/// The timed light events of an abstract run sequence whose durations
/// fit the event type.
pub open spec fn events_of_model(m: Seq<(LightState, int)>) -> Seq<TimedLightEvent> {
    m.map_values(|p: (LightState, int)| TimedLightEvent { light_state: p.0, duration: p.1 as i64 })
}

/// Walks the samples once and emits one timed light event per maximal run
/// of constant thresholded state. The first run starts at `start_time`;
/// a state change at a sample closes the prior run at that sample's time;
/// the trailing run is closed at the last sample's time. Fails with
/// `TooManyTLEs` exactly when the runs outnumber the fixed capacity.
pub fn convert(samples: &[(Time, LightIntensity)], threshold: LightIntensity, start_time: Time) -> (r:
    Result<Vec<TimedLightEvent>, MorseErr>)
    requires
        0 <= start_time,
        samples@.len() > 0 ==> start_time <= samples@[0].0,
        times_monotone(samples@),
    ensures
        (match r {
            Ok(evs) => {
                &&& spec_extract(samples@, threshold as int, start_time as int).len()
                    <= MAX_EVENTS as int
                &&& model_of(evs@) == spec_extract(samples@, threshold as int, start_time as int)
                &&& forall|j: int|
                    0 <= j < evs@.len() ==> 0 <= (#[trigger] evs@[j]).duration && (samples@.len()
                        > 0 ==> evs@[j].duration <= samples@[samples@.len() - 1].0 - start_time)
            },
            Err(MorseErr::TooManyTLEs) => spec_extract(
                samples@,
                threshold as int,
                start_time as int,
            ).len() > MAX_EVENTS as int,
            Err(_) => false,
        }),
{
    let ghost thr = threshold as int;
    let ghost start = start_time as int;
    let n = samples.len();
    if n == 0 {
        let evs: Vec<TimedLightEvent> = Vec::new();
        proof {
            assert(model_of(evs@) =~= spec_extract(samples@, thr, start));
        }
        return Ok(evs);
    }
    let mut events: Vec<TimedLightEvent> = Vec::new();
    let first = samples[0];
    let mut cur_state = if first.1 > threshold {
        LightState::Light
    } else {
        LightState::Dark
    };
    let mut run_start = start_time;
    let mut i: usize = 1;
    while i < n
        invariant
            n == samples@.len(),
            1 <= i <= n,
            times_monotone(samples@),
            0 <= start_time <= samples@[0].0,
            start_time <= run_start,
            run_start <= samples@[i - 1].0,
            thr == threshold as int,
            start == start_time as int,
            events@.len() <= MAX_EVENTS,
            spec_extract(samples@, thr, start) =~= model_of(events@) + extract_from(
                samples@,
                thr,
                i as int,
                run_start as int,
                cur_state,
            ),
            forall|j: int|
                0 <= j < events@.len() ==> 0 <= (#[trigger] events@[j]).duration
                    && events@[j].duration <= samples@[n - 1].0 - start_time,
        decreases n - i,
    {
        let s = samples[i];
        let st = if s.1 > threshold {
            LightState::Light
        } else {
            LightState::Dark
        };
        proof {
            assert(samples@[i - 1].0 <= samples@[i as int].0);
            assert(samples@[i as int].0 <= samples@[n - 1].0);
        }
        if st == cur_state {
            i += 1;
        } else {
            if events.len() == MAX_EVENTS {
                proof {
                    lemma_extract_from_len(samples@, thr, i as int + 1, samples@[i as int].0 as int, st);
                }
                return Err(MorseErr::TooManyTLEs);
            }
            let duration = s.0 - run_start;
            let ghost before = events@;
            events.push(TimedLightEvent { light_state: cur_state, duration });
            proof {
                assert(model_of(events@) =~= model_of(before) + seq![
                    (cur_state, duration as int),
                ]);
                assert(model_of(before) + (seq![(cur_state, duration as int)] + extract_from(
                    samples@,
                    thr,
                    i as int + 1,
                    s.0 as int,
                    st,
                )) =~= model_of(events@) + extract_from(
                    samples@,
                    thr,
                    i as int + 1,
                    s.0 as int,
                    st,
                ));
            }
            run_start = s.0;
            cur_state = st;
            i += 1;
        }
    }
    if events.len() == MAX_EVENTS {
        return Err(MorseErr::TooManyTLEs);
    }
    proof {
        assert(samples@[i - 1].0 == samples@[n - 1].0);
    }
    let duration = samples[n - 1].0 - run_start;
    let ghost before = events@;
    events.push(TimedLightEvent { light_state: cur_state, duration });
    proof {
        assert(model_of(events@) =~= model_of(before) + seq![(cur_state, duration as int)]);
        assert(model_of(events@) =~= spec_extract(samples@, thr, start));
    }
    Ok(events)
}

} // verus!
