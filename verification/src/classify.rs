//! The candidate classifier: scores one timed event against a Morse timing
//! primitive under a hypothesized unit duration, and finds the best-matching
//! primitive in the fixed catalog.

use vstd::prelude::*;

use crate::types::catalog;
use crate::types::LightState;
use crate::types::morse_candidates;
use crate::types::MorseCandidate;
use crate::types::MorseErr;
use crate::types::Scored;
use crate::types::TimedLightEvent;

verus! {

/// Absolute value of a mathematical integer.
pub open spec fn abs_val(x: int) -> int {
    if x < 0 {
        -x
    } else {
        x
    }
}

/// The classification distance: undefined when the light states differ,
/// otherwise how far the observed duration is from the candidate's
/// expected duration under unit duration `u`.
pub open spec fn spec_calc_error(e: TimedLightEvent, c: MorseCandidate, u: int) -> Option<int> {
    if e.light_state == c.light_state {
        Some(abs_val(e.duration - c.units * u))
    } else {
        None
    }
}

/// The best match in the candidate sequence `s`, scanned left to right:
/// a later candidate displaces the current best only on a strictly lower
/// score, so among equal scores the earliest candidate wins.
pub open spec fn best_over(s: Seq<MorseCandidate>, e: TimedLightEvent, u: int) -> Option<
    (MorseCandidate, int),
>
    decreases s.len(),
{
    if s.len() == 0 {
        None
    } else {
        let prev = best_over(s.drop_last(), e, u);
        match spec_calc_error(e, s.last(), u) {
            None => prev,
            Some(err) => match prev {
                None => Some((s.last(), err)),
                Some(p) => if err < p.1 {
                    Some((s.last(), err))
                } else {
                    prev
                },
            },
        }
    }
}

/// The best match for an event in the fixed catalog.
pub open spec fn spec_best_error(e: TimedLightEvent, u: int) -> Option<(MorseCandidate, int)> {
    best_over(catalog(), e, u)
}

/// The candidate at index `i` of `s` wins the scan with score `sc`: it
/// matches the event's light state, scores `sc`, every earlier matching
/// candidate scores strictly worse, and no matching candidate scores better.
pub open spec fn is_best_at(s: Seq<MorseCandidate>, e: TimedLightEvent, u: int, i: int, sc: int) -> bool {
    &&& 0 <= i < s.len()
    &&& s[i].light_state == e.light_state
    &&& sc == abs_val(e.duration - s[i].units * u)
    &&& forall|j: int|
        0 <= j < i && s[j].light_state == e.light_state ==> abs_val(e.duration - s[j].units * u)
            > sc
    &&& forall|j: int|
        0 <= j < s.len() && s[j].light_state == e.light_state ==> abs_val(
            e.duration - s[j].units * u,
        ) >= sc
}

/// The scan result is exactly the first minimally-scoring matching
/// candidate, and there is none only when no candidate matches the
/// event's light state.
pub proof fn lemma_best_over_characterizes(s: Seq<MorseCandidate>, e: TimedLightEvent, u: int)
    ensures
        (match best_over(s, e, u) {
            None => forall|j: int| 0 <= j < s.len() ==> s[j].light_state != e.light_state,
            Some(b) => exists|i: int| is_best_at(s, e, u, i, b.1) && s[i] == b.0,
        }),
    decreases s.len(),
{
    if s.len() > 0 {
        let pre = s.drop_last();
        lemma_best_over_characterizes(pre, e, u);
        let c = s.last();
        let n = s.len() - 1;
        assert(forall|j: int| 0 <= j < n ==> s[j] == pre[j]);
        match best_over(s, e, u) {
            None => {
            },
            Some(b) => {
                match best_over(pre, e, u) {
                    None => {
                        // every earlier candidate mismatches; the winner is the last element
                        assert(is_best_at(s, e, u, n, b.1) && s[n] == b.0);
                    },
                    Some(p) => {
                        let i = choose|i: int| is_best_at(pre, e, u, i, p.1) && pre[i] == p.0;
                        if c.light_state == e.light_state && abs_val(e.duration - c.units * u)
                            < p.1 {
                            assert(is_best_at(s, e, u, n, b.1) && s[n] == b.0);
                        } else {
                            assert(is_best_at(s, e, u, i, b.1) && s[i] == b.0);
                        }
                    },
                }
            },
        }
    }
}

/// Scores `event` against `candidate` under the hypothesized unit duration.
/// Returns `None` exactly when the light states differ; otherwise the
/// absolute difference between the observed duration and the candidate's
/// expected duration.
pub fn calc_error(event: &TimedLightEvent, candidate: &MorseCandidate, unit_millis: i64) -> (r:
    Option<i64>)
    requires
        0 <= event.duration,
        0 <= candidate.units,
        0 <= unit_millis,
        candidate.units * unit_millis <= i64::MAX,
    ensures
        (match r {
            Some(err) => Some(err as int) == spec_calc_error(*event, *candidate, unit_millis as int),
            None => spec_calc_error(*event, *candidate, unit_millis as int) is None,
        }),
{
    if event.light_state == candidate.light_state {
        let expected = candidate.units * unit_millis;
        let diff = event.duration - expected;
        if diff < 0 {
            Some(-diff)
        } else {
            Some(diff)
        }
    } else {
        None
    }
}

/// The catalog holds a candidate for either light state, so the scan over
/// it always finds a best match.
pub proof fn lemma_best_error_is_some(e: TimedLightEvent, u: int)
    ensures
        spec_best_error(e, u) is Some,
{
    lemma_best_over_characterizes(catalog(), e, u);
    if spec_best_error(e, u) is None {
        assert(catalog()[0].light_state == LightState::Light);
        assert(catalog()[2].light_state == LightState::Dark);
    }
}

/// The best match never pairs an event with a candidate of the other
/// light state.
pub proof fn lemma_best_error_matches_state(e: TimedLightEvent, u: int)
    ensures
        (match spec_best_error(e, u) {
            Some(b) => b.0.light_state == e.light_state && catalog().contains(b.0),
            None => false,
        }),
{
    lemma_best_error_is_some(e, u);
    lemma_best_over_characterizes(catalog(), e, u);
    let b = spec_best_error(e, u).unwrap();
    let i = choose|i: int| is_best_at(catalog(), e, u, i, b.1) && catalog()[i] == b.0;
    assert(catalog()[i] == b.0);
}

/// Scaling by a positive constant distributes over the absolute value.
proof fn lemma_abs_scale(k: int, x: int)
    requires
        k > 0,
    ensures
        abs_val(k * x) == k * abs_val(x),
{
    if x < 0 {
        assert(k * x < 0 && k * x == -(k * -x)) by (nonlinear_arith)
            requires
                k > 0,
                x < 0,
        ;
    } else {
        assert(k * x >= 0) by (nonlinear_arith)
            requires
                k > 0,
                x >= 0,
        ;
    }
}

/// Scaling every duration and the unit duration by one positive constant
/// leaves the winning candidate of the scan unchanged and scales the
/// winning score by that constant.
pub proof fn lemma_best_over_scale_covariant(
    s: Seq<MorseCandidate>,
    e1: TimedLightEvent,
    e2: TimedLightEvent,
    u1: int,
    u2: int,
    k: int,
)
    requires
        k > 0,
        e2.light_state == e1.light_state,
        e2.duration == k * e1.duration,
        u2 == k * u1,
    ensures
        (match (best_over(s, e1, u1), best_over(s, e2, u2)) {
            (None, None) => true,
            (Some(b1), Some(b2)) => b2.0 == b1.0 && b2.1 == k * b1.1,
            _ => false,
        }),
    decreases s.len(),
{
    if s.len() > 0 {
        lemma_best_over_scale_covariant(s.drop_last(), e1, e2, u1, u2, k);
        let c = s.last();
        if c.light_state == e1.light_state {
            let x1 = e1.duration - c.units * u1;
            assert(e2.duration - c.units * u2 == k * x1) by (nonlinear_arith)
                requires
                    e2.duration == k * e1.duration,
                    u2 == k * u1,
                    x1 == e1.duration - c.units * u1,
            ;
            lemma_abs_scale(k, x1);
            match (best_over(s.drop_last(), e1, u1), best_over(s.drop_last(), e2, u2)) {
                (Some(p1), Some(p2)) => {
                    assert(abs_val(x1) < p1.1 <==> k * abs_val(x1) < k * p1.1)
                        by (nonlinear_arith)
                        requires
                            k > 0,
                    ;
                },
                _ => {},
            }
        }
    }
}

/// The catalog-level corollary: joint positive scaling of an event's
/// duration and the unit duration never changes which catalog candidate
/// wins classification.
pub proof fn lemma_classification_scale_covariant(
    e1: TimedLightEvent,
    e2: TimedLightEvent,
    u1: int,
    u2: int,
    k: int,
)
    requires
        k > 0,
        e2.light_state == e1.light_state,
        e2.duration == k * e1.duration,
        u2 == k * u1,
    ensures
        (match (spec_best_error(e1, u1), spec_best_error(e2, u2)) {
            (Some(b1), Some(b2)) => b2.0 == b1.0 && b2.1 == k * b1.1,
            _ => false,
        }),
{
    lemma_best_error_is_some(e1, u1);
    lemma_best_over_scale_covariant(catalog(), e1, e2, u1, u2, k);
}

/// Finds the best-matching Morse timing primitive for one event under the
/// hypothesized unit duration, together with its error score. Candidates
/// of the other light state are skipped; among equal scores the earliest
/// catalog entry wins. With the fixed catalog a match always exists, so
/// the call always succeeds.
pub fn best_error(event: &TimedLightEvent, unit_millis: i64) -> (r: Result<
    Scored<MorseCandidate>,
    MorseErr,
>)
    requires
        0 <= event.duration,
        0 <= unit_millis,
        7 * unit_millis <= i64::MAX,
    ensures
        r is Ok,
        (match r {
            Ok(s) => spec_best_error(*event, unit_millis as int) == Some((s.item, s.score as int))
                && s.item.light_state == event.light_state,
            Err(_) => false,
        }),
{
    let ghost u = unit_millis as int;
    let candidates = morse_candidates();
    let mut best: Option<Scored<MorseCandidate>> = None;
    let mut i: usize = 0;
    while i < candidates.len()
        invariant
            u == unit_millis as int,
            candidates@ == catalog(),
            i <= candidates@.len(),
            0 <= event.duration,
            0 <= unit_millis,
            7 * unit_millis <= i64::MAX,
            (match best {
                None => best_over(catalog().take(i as int), *event, u) is None,
                Some(s) => best_over(catalog().take(i as int), *event, u) == Some(
                    (s.item, s.score as int),
                ),
            }),
        decreases candidates@.len() - i,
    {
        let c = candidates[i];
        proof {
            assert(0 <= c.units <= 7);
            assert(c.units * unit_millis <= 7 * unit_millis) by (nonlinear_arith)
                requires
                    0 <= unit_millis,
                    c.units <= 7,
            ;
            assert(catalog().take(i as int + 1).drop_last() =~= catalog().take(i as int));
            assert(catalog().take(i as int + 1).last() == catalog()[i as int]);
        }
        match calc_error(event, &c, unit_millis) {
            Some(err) => {
                best = match best {
                    Some(b) => if err < b.score {
                        Some(Scored { item: c, score: err })
                    } else {
                        Some(b)
                    },
                    None => Some(Scored { item: c, score: err }),
                };
            },
            None => {},
        }
        i += 1;
    }
    proof {
        assert(catalog().take(candidates@.len() as int) =~= catalog());
        lemma_best_error_matches_state(*event, u);
    }
    match best {
        Some(b) => Ok(b),
        None => {
            proof {
                lemma_best_error_is_some(*event, u);
            }
            Err(MorseErr::TooFewTLEs)
        },
    }
}

} // verus!
