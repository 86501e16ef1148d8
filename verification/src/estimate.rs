//! The unit-time estimator: scores every candidate unit duration in a
//! bounded window by summing each event's best classification error, and
//! selects the duration with the minimum total score.

use vstd::prelude::*;

use crate::classify::abs_val;
use crate::classify::best_error;
use crate::classify::is_best_at;
use crate::classify::lemma_best_error_is_some;
use crate::classify::lemma_best_over_characterizes;
use crate::classify::spec_best_error;
use crate::scorebuf::score_buf_contents;
use crate::scorebuf::score_buf_get;
use crate::scorebuf::score_buf_len;
use crate::scorebuf::score_buf_new;
use crate::scorebuf::score_buf_push;
use crate::scorebuf::ScoreBuf;
use crate::scorebuf::UNIT_SCRATCH_CAPACITY;
use crate::types::catalog;
use crate::types::LightState;
use crate::types::MorseErr;
use crate::types::Scored;
use crate::types::TimedLightEvent;

verus! {

/// Every event carries a non-negative duration, as produced by the event
/// extractor from non-decreasing sample times.
pub open spec fn events_wf(s: Seq<TimedLightEvent>) -> bool {
    forall|i: int| 0 <= i < s.len() ==> 0 <= s[i].duration
}

/// The score of an event's best catalog match (zero in the unreachable
/// case that nothing matches).
pub open spec fn event_best_score(e: TimedLightEvent, u: int) -> int {
    match spec_best_error(e, u) {
        Some(b) => b.1,
        None => 0,
    }
}

/// The total classification error of an event sequence under unit
/// duration `u`: the sum of every event's best score.
pub open spec fn total_score(s: Seq<TimedLightEvent>, u: int) -> int
    decreases s.len(),
{
    if s.len() == 0 {
        0
    } else {
        total_score(s.drop_last(), u) + event_best_score(s.last(), u)
    }
}

/// A best score is an absolute difference, hence never negative.
pub proof fn lemma_event_best_score_nonneg(e: TimedLightEvent, u: int)
    ensures
        event_best_score(e, u) >= 0,
{
    lemma_best_over_characterizes(catalog(), e, u);
    match spec_best_error(e, u) {
        Some(b) => {
            let i = choose|i: int| is_best_at(catalog(), e, u, i, b.1) && catalog()[i] == b.0;
            assert(b.1 == abs_val(e.duration - catalog()[i].units * u));
        },
        None => {},
    }
}

/// A sum of non-negative scores is non-negative.
pub proof fn lemma_total_score_nonneg(s: Seq<TimedLightEvent>, u: int)
    ensures
        total_score(s, u) >= 0,
    decreases s.len(),
{
    if s.len() > 0 {
        lemma_total_score_nonneg(s.drop_last(), u);
        lemma_event_best_score_nonneg(s.last(), u);
    }
}

/// Extending a prefix by one event adds exactly that event's best score.
pub proof fn lemma_total_score_take_succ(s: Seq<TimedLightEvent>, i: int, u: int)
    requires
        0 <= i < s.len(),
    ensures
        total_score(s.take(i + 1), u) == total_score(s.take(i), u) + event_best_score(s[i], u),
{
    assert(s.take(i + 1).drop_last() =~= s.take(i));
    assert(s.take(i + 1).last() == s[i]);
}

/// A prefix never scores more than the whole sequence.
pub proof fn lemma_total_score_take_le(s: Seq<TimedLightEvent>, i: int, u: int)
    requires
        0 <= i <= s.len(),
    ensures
        total_score(s.take(i), u) <= total_score(s, u),
    decreases s.len() - i,
{
    if i == s.len() {
        assert(s.take(i) =~= s);
    } else {
        lemma_total_score_take_succ(s, i, u);
        lemma_event_best_score_nonneg(s[i], u);
        lemma_total_score_take_le(s, i + 1, u);
    }
}

/// Sums every event's best classification error under the hypothesized
/// unit duration, pairing the total with the duration itself. With the
/// fixed catalog every event classifies, so the call always succeeds.
pub fn score_possible_unit_millis(unit_millis: i64, timings: &[TimedLightEvent]) -> (r: Result<
    Scored<i64>,
    MorseErr,
>)
    requires
        events_wf(timings@),
        0 <= unit_millis,
        7 * unit_millis <= i64::MAX,
        total_score(timings@, unit_millis as int) <= i64::MAX,
    ensures
        r is Ok,
        (match r {
            Ok(s) => s.item == unit_millis && s.score as int == total_score(
                timings@,
                unit_millis as int,
            ),
            Err(_) => false,
        }),
{
    let ghost u = unit_millis as int;
    let mut sum: i64 = 0;
    let mut i: usize = 0;
    while i < timings.len()
        invariant
            u == unit_millis as int,
            events_wf(timings@),
            0 <= unit_millis,
            7 * unit_millis <= i64::MAX,
            total_score(timings@, u) <= i64::MAX,
            i <= timings@.len(),
            sum as int == total_score(timings@.take(i as int), u),
        decreases timings@.len() - i,
    {
        let event = timings[i];
        let scored = match best_error(&event, unit_millis) {
            Ok(s) => s,
            Err(e) => {
                return Err(e);
            },
        };
        proof {
            lemma_total_score_take_succ(timings@, i as int, u);
            lemma_total_score_take_le(timings@, i as int + 1, u);
            lemma_total_score_nonneg(timings@.take(i as int), u);
            lemma_event_best_score_nonneg(timings@[i as int], u);
        }
        sum = sum + scored.score;
        i += 1;
    }
    proof {
        assert(timings@.take(timings@.len() as int) =~= timings@);
    }
    Ok(Scored { item: unit_millis, score: sum })
}

/// An event's best score never exceeds `dmax + 7*u` when its duration is
/// at most `dmax`: the matching one-unit candidate already comes that
/// close.
pub proof fn lemma_event_best_score_bound(e: TimedLightEvent, u: int, dmax: int)
    requires
        0 <= e.duration <= dmax,
        0 <= u,
    ensures
        event_best_score(e, u) <= dmax + 7 * u,
{
    lemma_best_error_is_some(e, u);
    lemma_best_over_characterizes(catalog(), e, u);
    let b = spec_best_error(e, u).unwrap();
    let i = choose|i: int| is_best_at(catalog(), e, u, i, b.1) && catalog()[i] == b.0;
    if e.light_state == LightState::Light {
        assert(catalog()[0].light_state == e.light_state && catalog()[0].units == 1);
        assert(b.1 <= abs_val(e.duration - 1 * u));
    } else {
        assert(catalog()[2].light_state == e.light_state && catalog()[2].units == 1);
        assert(b.1 <= abs_val(e.duration - 1 * u));
    }
    assert(abs_val(e.duration - 1 * u) <= dmax + 7 * u);
}

/// Bounds the total score by elementary input bounds: with every duration
/// at most `dmax`, the total under unit duration `u` is at most
/// `len * (dmax + 7*u)`. Callers use this to discharge the estimator's
/// no-overflow precondition.
pub proof fn lemma_total_score_bound(s: Seq<TimedLightEvent>, u: int, dmax: int)
    requires
        0 <= u,
        0 <= dmax,
        forall|i: int| 0 <= i < s.len() ==> 0 <= #[trigger] s[i].duration <= dmax,
    ensures
        total_score(s, u) <= s.len() * (dmax + 7 * u),
    decreases s.len(),
{
    if s.len() > 0 {
        lemma_total_score_bound(s.drop_last(), u, dmax);
        lemma_event_best_score_bound(s.last(), u, dmax);
        let n = s.len() as int;
        let x = dmax + 7 * u;
        assert((n - 1) * x + x == n * x) by (nonlinear_arith);
    }
}

/// The lowest-scoring unit duration in `[min, max)`, scanned in
/// increasing order: a later duration displaces the current best only on
/// a strictly lower total score, so among equal scores the lowest
/// duration wins.
pub open spec fn best_unit(s: Seq<TimedLightEvent>, min: int, max: int) -> Option<(int, int)>
    decreases max - min,
{
    if min >= max {
        None
    } else {
        let prev = best_unit(s, min, max - 1);
        let sc = total_score(s, max - 1);
        match prev {
            None => Some((max - 1, sc)),
            Some(p) => if sc < p.1 {
                Some((max - 1, sc))
            } else {
                prev
            },
        }
    }
}

/// The unit duration `uu` wins the search over `[min, max)` with total
/// score `sc`: it lies in the window, scores `sc`, every lower duration
/// in the window scores strictly worse, and no duration scores better.
pub open spec fn is_best_unit_at(
    s: Seq<TimedLightEvent>,
    min: int,
    max: int,
    uu: int,
    sc: int,
) -> bool {
    &&& min <= uu < max
    &&& sc == total_score(s, uu)
    &&& forall|w: int| min <= w < uu ==> total_score(s, w) > sc
    &&& forall|w: int| min <= w < max ==> total_score(s, w) >= sc
}

/// The search result is exactly the lowest duration attaining the minimum
/// total score, and there is none only for an empty window.
pub proof fn lemma_best_unit_characterizes(s: Seq<TimedLightEvent>, min: int, max: int)
    ensures
        (match best_unit(s, min, max) {
            None => min >= max,
            Some(b) => is_best_unit_at(s, min, max, b.0, b.1),
        }),
    decreases max - min,
{
    if min < max {
        lemma_best_unit_characterizes(s, min, max - 1);
    }
}

/// The estimator is deterministic: its result is a function of the event
/// list and the search window alone, so any two results computed from
/// identical inputs are identical.
pub proof fn lemma_estimate_deterministic(
    s: Seq<TimedLightEvent>,
    min: int,
    max: int,
    r1: Option<(int, int)>,
    r2: Option<(int, int)>,
)
    requires
        r1 == best_unit(s, min, max),
        r2 == best_unit(s, min, max),
    ensures
        r1 == r2,
{
}

/// The first `len` entries of the scratch buffer tabulate the search: the
/// entry at position `j` pairs the unit duration `mn + j` with the total
/// score of the events under that duration.
pub open spec fn score_table(
    c: Seq<(i64, i64)>,
    evs: Seq<TimedLightEvent>,
    mn: int,
    len: int,
) -> bool {
    forall|j: int|
        0 <= j < len ==> (#[trigger] c[j]).0 as int == mn + j && c[j].1 as int == total_score(
            evs,
            mn + j,
        )
}

/// Searches every integer unit duration in `[min_millis, max_millis)` and
/// returns the one whose total classification error over `timings` is
/// minimal, with that total as its score; among equal totals the lowest
/// duration wins. Fails with `TooManyUnitMillisGuessesToTry` when the
/// window is wider than the scratch capacity, and with `TooFewTLEs` when
/// the event list is empty or the window holds no duration.
pub fn estimate_unit_time(timings: &[TimedLightEvent], min_millis: i64, max_millis: i64) -> (r:
    Result<Scored<i64>, MorseErr>)
    requires
        events_wf(timings@),
        0 <= min_millis,
        7 * max_millis <= i64::MAX,
        forall|w: int|
            min_millis <= w < max_millis ==> total_score(timings@, w) <= i64::MAX,
    ensures
        (match r {
            Ok(s) => {
                &&& max_millis - min_millis <= UNIT_SCRATCH_CAPACITY as int
                &&& timings@.len() > 0
                &&& min_millis < max_millis
                &&& best_unit(timings@, min_millis as int, max_millis as int) == Some(
                    (s.item as int, s.score as int),
                )
            },
            Err(MorseErr::TooManyUnitMillisGuessesToTry) => max_millis - min_millis
                > UNIT_SCRATCH_CAPACITY as int,
            Err(MorseErr::TooFewTLEs) => max_millis - min_millis <= UNIT_SCRATCH_CAPACITY as int
                && (timings@.len() == 0 || min_millis >= max_millis),
            Err(_) => false,
        }),
{
    let ghost evs = timings@;
    let ghost mn = min_millis as int;
    let ghost mx = max_millis as int;
    if (max_millis as i128) - (min_millis as i128) > (UNIT_SCRATCH_CAPACITY as i128) {
        return Err(MorseErr::TooManyUnitMillisGuessesToTry);
    }
    if timings.len() == 0 {
        return Err(MorseErr::TooFewTLEs);
    }
    if min_millis >= max_millis {
        return Err(MorseErr::TooFewTLEs);
    }
    let mut scores = score_buf_new();
    let mut u = min_millis;
    while u < max_millis
        invariant
            evs == timings@,
            mn == min_millis as int,
            mx == max_millis as int,
            events_wf(evs),
            0 <= min_millis,
            min_millis <= u <= max_millis,
            7 * max_millis <= i64::MAX,
            mx - mn <= UNIT_SCRATCH_CAPACITY as int,
            forall|w: int| mn <= w < mx ==> total_score(evs, w) <= i64::MAX,
            score_buf_contents(scores).len() == u - min_millis,
            score_table(score_buf_contents(scores), evs, mn, u - mn),
        decreases max_millis - u,
    {
        let scored = match score_possible_unit_millis(u, timings) {
            Ok(s) => s,
            Err(e) => {
                return Err(e);
            },
        };
        let ghost before = score_buf_contents(scores);
        match score_buf_push(&mut scores, (u, scored.score)) {
            Ok(_) => {},
            Err(_) => {
                return Err(MorseErr::TooManyUnitMillisGuessesToTry);
            },
        }
        proof {
            let after = score_buf_contents(scores);
            assert(after == before.push((u, scored.score)));
            assert forall|j: int| 0 <= j < u - mn + 1 implies (#[trigger] after[j]).0 as int == mn
                + j && after[j].1 as int == total_score(evs, mn + j) by {
                if j < u - mn {
                    assert(after[j] == before[j]);
                } else {
                    assert(after[j] == (u, scored.score));
                }
            }
        }
        u = u + 1;
    }
    let n = score_buf_len(&scores);
    let first = score_buf_get(&scores, 0);
    let mut best = Scored { item: first.0, score: first.1 };
    let mut j: usize = 1;
    proof {
        assert(best_unit(evs, mn, mn) is None);
        assert(best_unit(evs, mn, mn + 1) == Some((mn, total_score(evs, mn))));
    }
    while j < n
        invariant
            evs == timings@,
            mn == min_millis as int,
            mx == max_millis as int,
            n == score_buf_contents(scores).len(),
            n == mx - mn,
            1 <= j <= n,
            score_table(score_buf_contents(scores), evs, mn, n as int),
            best_unit(evs, mn, mn + j as int) == Some((best.item as int, best.score as int)),
        decreases n - j,
    {
        let cand = score_buf_get(&scores, j);
        proof {
            assert(best_unit(evs, mn, mn + j as int + 1) == {
                let prev = best_unit(evs, mn, mn + j as int);
                let sc = total_score(evs, mn + j as int);
                match prev {
                    None => Some((mn + j as int, sc)),
                    Some(p) => if sc < p.1 {
                        Some((mn + j as int, sc))
                    } else {
                        prev
                    },
                }
            });
        }
        if cand.1 < best.score {
            best = Scored { item: cand.0, score: cand.1 };
        }
        j += 1;
    }
    Ok(best)
}

} // verus!
