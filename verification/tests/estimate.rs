use morse_utils::estimate_unit_time;
use morse_utils::score_possible_unit_millis;
use morse_utils::LightState;
use morse_utils::MorseErr;
use morse_utils::Scored;
use morse_utils::TimedLightEvent;

fn helper_fill_events_slice<const N: usize>(
    durations: &[i64],
    vec: &mut heapless::Vec<TimedLightEvent, N>,
) {
    for (i, duration) in durations.iter().enumerate() {
        vec.push(TimedLightEvent {
            light_state: {
                if i % 2 == 0 {
                    LightState::Dark
                } else {
                    LightState::Dark
                }
            },
            duration: *duration,
        })
        .unwrap();
    }
}

const TEST_DURATIONS: [i64; 52] = [
    700, 300, 100, 100, 100, 100, 100, 100, 300, 300, 100, 300, 100, 300, 300, 100, 100, 100, 100,
    300, 300, 300, 300, 300, 300, 100, 300, 300, 300, 100, 100, 700, 300, 100, 300, 100, 300, 300,
    300, 100, 300, 100, 300, 300, 100, 100, 100, 100, 300, 100, 100, 700,
];

#[test]
fn test_estimate() {
    let mut timed_light_events: heapless::Vec<TimedLightEvent, 128> = heapless::Vec::new();
    helper_fill_events_slice(&TEST_DURATIONS, &mut timed_light_events);
    assert_eq!(
        Scored {
            item: 100,
            score: 0
        },
        estimate_unit_time(&timed_light_events, 0, 10000).unwrap()
    );
}

#[test]
fn lib_test_estimate() {
    let mut timed_light_events: heapless::Vec<TimedLightEvent, 128> = heapless::Vec::new();
    helper_fill_events_slice(&TEST_DURATIONS, &mut timed_light_events);
    assert_eq!(
        Scored {
            item: 100,
            score: 0
        },
        estimate_unit_time(&timed_light_events, 1, 5000).unwrap()
    );
}

#[test]
fn estimate_is_deterministic() {
    let mut events: heapless::Vec<TimedLightEvent, 128> = heapless::Vec::new();
    helper_fill_events_slice(&[90, 310, 120, 280, 710], &mut events);
    let first = estimate_unit_time(&events, 1, 500).unwrap();
    let second = estimate_unit_time(&events, 1, 500).unwrap();
    assert_eq!(first, second);
}

#[test]
fn estimate_empty_events_is_too_few() {
    let events: [TimedLightEvent; 0] = [];
    assert_eq!(
        Err(MorseErr::TooFewTLEs),
        estimate_unit_time(&events, 0, 100)
    );
}

#[test]
fn estimate_empty_window_is_too_few() {
    let mut events: heapless::Vec<TimedLightEvent, 16> = heapless::Vec::new();
    helper_fill_events_slice(&[100, 300], &mut events);
    assert_eq!(
        Err(MorseErr::TooFewTLEs),
        estimate_unit_time(&events, 50, 50)
    );
}

#[test]
fn estimate_window_wider_than_scratch_fails() {
    let mut events: heapless::Vec<TimedLightEvent, 16> = heapless::Vec::new();
    helper_fill_events_slice(&[100, 300], &mut events);
    assert_eq!(
        Err(MorseErr::TooManyUnitMillisGuessesToTry),
        estimate_unit_time(&events, 0, 10001)
    );
}

#[test]
fn estimate_tie_prefers_lowest_unit() {
    // A Dark run of 12 fits perfectly both as three units of 4 and as one
    // unit of 12; the lower duration must win the tie.
    let events = [TimedLightEvent {
        light_state: LightState::Dark,
        duration: 12,
    }];
    assert_eq!(
        Scored { item: 4, score: 0 },
        estimate_unit_time(&events, 4, 13).unwrap()
    );
}

#[test]
fn score_sums_best_errors() {
    // Dark 90 under unit 100 misses the one-unit gap by 10; Dark 320
    // misses the three-unit gap by 20; the totals add up.
    let mut events: heapless::Vec<TimedLightEvent, 16> = heapless::Vec::new();
    helper_fill_events_slice(&[90, 320], &mut events);
    assert_eq!(
        Scored {
            item: 100,
            score: 30
        },
        score_possible_unit_millis(100, &events).unwrap()
    );
}

#[test]
fn score_of_empty_events_is_zero() {
    let events: [TimedLightEvent; 0] = [];
    assert_eq!(
        Scored {
            item: 40,
            score: 0
        },
        score_possible_unit_millis(40, &events).unwrap()
    );
}
