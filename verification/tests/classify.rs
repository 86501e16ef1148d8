use morse_utils::calc_error;
use morse_utils::best_error;
use morse_utils::LightState;
use morse_utils::MorseCandidate;
use morse_utils::TimedLightEvent;

#[test]
fn test_calc_error_spoton() {
    assert_eq!(
        0,
        calc_error(
            &TimedLightEvent {
                light_state: LightState::Dark,
                duration: 600,
            },
            &MorseCandidate {
                light_state: LightState::Dark,
                units: 3,
            },
            200
        )
        .unwrap()
    );
}

#[test]
fn test_calc_error_confused() {
    assert_eq!(
        200,
        calc_error(
            &TimedLightEvent {
                light_state: LightState::Light,
                duration: 300,
            },
            &MorseCandidate {
                light_state: LightState::Light,
                units: 1,
            },
            100
        )
        .unwrap()
    );
}

#[test]
fn lib_test_calc_error_spoton() {
    assert_eq!(
        0,
        calc_error(
            &TimedLightEvent {
                light_state: LightState::Dark,
                duration: 600,
            },
            &MorseCandidate {
                light_state: LightState::Dark,
                units: 3,
            },
            200
        )
        .unwrap()
    );
}

#[test]
fn lib_test_calc_error_confused() {
    assert_eq!(
        200,
        calc_error(
            &TimedLightEvent {
                light_state: LightState::Light,
                duration: 300,
            },
            &MorseCandidate {
                light_state: LightState::Light,
                units: 1,
            },
            100
        )
        .unwrap()
    );
}

fn best_error_helper(light_state: LightState, duration: i64, units: i64) -> i64 {
    best_error(
        &TimedLightEvent {
            light_state,
            duration,
        },
        units,
    )
    .unwrap()
    .score
}

#[test]
fn test_best_error() {
    assert_eq!(100, best_error_helper(LightState::Dark, 200, 100));
    assert_eq!(80, best_error_helper(LightState::Dark, 180, 100));
    assert_eq!(50, best_error_helper(LightState::Dark, 50, 100));
    assert_eq!(100, best_error_helper(LightState::Dark, 0, 100));
    assert_eq!(1, best_error_helper(LightState::Dark, 701, 100));
    assert_eq!(1, best_error_helper(LightState::Dark, 6, 1));

    assert_eq!(200, best_error_helper(LightState::Light, 800, 200));
    assert_eq!(400, best_error_helper(LightState::Light, 700, 100));
    assert_eq!(1000, best_error_helper(LightState::Light, 0, 1000));
    assert_eq!(100, best_error_helper(LightState::Light, 200, 100));
    assert_eq!(2, best_error_helper(LightState::Light, 1502, 500));
    assert_eq!(0, best_error_helper(LightState::Light, 75, 25));
}

#[test]
fn lib_test_best_error() {
    assert_eq!(100, best_error_helper(LightState::Dark, 200, 100));
    assert_eq!(80, best_error_helper(LightState::Dark, 180, 100));
    assert_eq!(50, best_error_helper(LightState::Dark, 50, 100));
    assert_eq!(100, best_error_helper(LightState::Dark, 0, 100));
    assert_eq!(1, best_error_helper(LightState::Dark, 701, 100));
    assert_eq!(1, best_error_helper(LightState::Dark, 6, 1));

    assert_eq!(200, best_error_helper(LightState::Light, 800, 200));
    assert_eq!(400, best_error_helper(LightState::Light, 700, 100));
    assert_eq!(1000, best_error_helper(LightState::Light, 0, 1000));
    assert_eq!(100, best_error_helper(LightState::Light, 200, 100));
    assert_eq!(2, best_error_helper(LightState::Light, 1502, 500));
    assert_eq!(0, best_error_helper(LightState::Light, 75, 25));
}

#[test]
fn calc_error_mismatched_states_is_undefined() {
    assert_eq!(
        None,
        calc_error(
            &TimedLightEvent {
                light_state: LightState::Light,
                duration: 300,
            },
            &MorseCandidate {
                light_state: LightState::Dark,
                units: 1,
            },
            100
        )
    );
}

#[test]
fn best_error_tie_prefers_catalog_order() {
    // Dark 200 under unit 100: one unit misses by 100, three units miss by
    // 100 as well; the earlier catalog entry must win the tie.
    let scored = best_error(
        &TimedLightEvent {
            light_state: LightState::Dark,
            duration: 200,
        },
        100,
    )
    .unwrap();
    assert_eq!(100, scored.score);
    assert_eq!(
        MorseCandidate {
            light_state: LightState::Dark,
            units: 1,
        },
        scored.item
    );
}

#[test]
fn best_error_returns_matching_light_state() {
    for duration in [0, 1, 99, 100, 250, 700, 5000] {
        for unit in [1, 50, 100, 333] {
            let event = TimedLightEvent {
                light_state: LightState::Light,
                duration,
            };
            assert_eq!(
                LightState::Light,
                best_error(&event, unit).unwrap().item.light_state
            );
            let event = TimedLightEvent {
                light_state: LightState::Dark,
                duration,
            };
            assert_eq!(
                LightState::Dark,
                best_error(&event, unit).unwrap().item.light_state
            );
        }
    }
}

#[test]
fn best_error_is_scale_covariant() {
    // Dark 250 under unit 100: the three-unit gap wins with error 50.
    // Tripling the duration and the unit must keep the same winner and
    // triple the error.
    let event = TimedLightEvent {
        light_state: LightState::Dark,
        duration: 250,
    };
    let scaled = TimedLightEvent {
        light_state: LightState::Dark,
        duration: 750,
    };
    let base = best_error(&event, 100).unwrap();
    let tripled = best_error(&scaled, 300).unwrap();
    assert_eq!(base.item, tripled.item);
    assert_eq!(
        MorseCandidate {
            light_state: LightState::Dark,
            units: 3,
        },
        base.item
    );
    assert_eq!(50, base.score);
    assert_eq!(150, tripled.score);
}
