use morse_utils::convert;
use morse_utils::LightState;
use morse_utils::MorseErr;
use morse_utils::TimedLightEvent;

#[test]
fn convert_coalesces_runs() {
    let intensities: [(i64, i64); 10] = [
        (5, 50),
        (10, 50),
        (15, 500),
        (20, 50),
        (25, 500),
        (30, 50),
        (35, 500),
        (40, 50),
        (60, 51),
        (70, 500),
    ];
    let events = convert(&intensities, 275, 0).unwrap();
    let expected = [
        (LightState::Dark, 15),
        (LightState::Light, 5),
        (LightState::Dark, 5),
        (LightState::Light, 5),
        (LightState::Dark, 5),
        (LightState::Light, 5),
        (LightState::Dark, 30),
        (LightState::Light, 0),
    ];
    assert_eq!(expected.len(), events.len());
    for (event, (state, duration)) in events.iter().zip(expected.iter()) {
        assert_eq!(
            TimedLightEvent {
                light_state: *state,
                duration: *duration,
            },
            *event
        );
    }
}

#[test]
fn convert_empty_samples_yield_no_events() {
    let samples: [(i64, i64); 0] = [];
    let events = convert(&samples, 100, 0).unwrap();
    assert!(events.is_empty());
}

#[test]
fn convert_single_sample_is_one_run() {
    let samples = [(40, 500)];
    let events = convert(&samples, 100, 10).unwrap();
    assert_eq!(1, events.len());
    assert_eq!(
        TimedLightEvent {
            light_state: LightState::Light,
            duration: 30,
        },
        events[0]
    );
}

#[test]
fn convert_threshold_is_strict() {
    // An intensity equal to the threshold counts as dark.
    let samples = [(0, 100), (10, 101)];
    let events = convert(&samples, 100, 0).unwrap();
    assert_eq!(
        TimedLightEvent {
            light_state: LightState::Dark,
            duration: 10,
        },
        events[0]
    );
    assert_eq!(
        TimedLightEvent {
            light_state: LightState::Light,
            duration: 0,
        },
        events[1]
    );
}

#[test]
fn convert_overflowing_capacity_fails() {
    // Alternating samples make one run each; more runs than the fixed
    // event capacity must be refused, not truncated.
    let mut samples: Vec<(i64, i64)> = Vec::new();
    for i in 0..1100i64 {
        samples.push((i, if i % 2 == 0 { 0 } else { 500 }));
    }
    assert_eq!(Err(MorseErr::TooManyTLEs), convert(&samples, 100, 0));
}
