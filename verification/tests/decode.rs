use morse_utils::decode_message;
use morse_utils::decode_transmission;
use morse_utils::letter_code;
use morse_utils::lookup_letter;
use morse_utils::mc_to_morse;
use morse_utils::split_slice;
use morse_utils::LightState;
use morse_utils::Morse;
use morse_utils::MorseCandidate;
use morse_utils::TimedLightEvent;

fn event(light_state: LightState, duration: i64) -> TimedLightEvent {
    TimedLightEvent {
        light_state,
        duration,
    }
}

#[test]
fn code_table_round_trips_every_letter() {
    for byte in b'a'..=b'z' {
        let letter = byte as char;
        let pattern = letter_code(letter).unwrap();
        assert_eq!(letter, lookup_letter(&pattern));
    }
}

#[test]
fn letter_code_of_known_letters() {
    assert_eq!(vec![Morse::Dot, Morse::Dash], letter_code('a').unwrap());
    assert_eq!(
        vec![Morse::Dash, Morse::Dot, Morse::Dot, Morse::Dot],
        letter_code('b').unwrap()
    );
    assert_eq!(vec![Morse::Dot], letter_code('e').unwrap());
    assert_eq!(vec![Morse::Dash], letter_code('t').unwrap());
    assert_eq!(None, letter_code('0'));
    assert_eq!(None, letter_code('?'));
}

#[test]
fn lookup_of_unknown_patterns_is_sentinel() {
    // Four dashes sit between the table's keys.
    assert_eq!(
        '?',
        lookup_letter(&[Morse::Dash, Morse::Dash, Morse::Dash, Morse::Dash])
    );
    // The empty group and overlong groups resolve to the sentinel.
    assert_eq!('?', lookup_letter(&[]));
    assert_eq!(
        '?',
        lookup_letter(&[Morse::Dot, Morse::Dot, Morse::Dot, Morse::Dot, Morse::Dot])
    );
    // A group degraded by the error sentinel stays unrecognized.
    assert_eq!('?', lookup_letter(&[Morse::Dot, Morse::Error]));
}

#[test]
fn split_slice_splits_on_delimiter() {
    let symbols = [Morse::Dot, Morse::WordGap, Morse::Dash];
    let groups = split_slice(&symbols, Morse::WordGap);
    assert_eq!(vec![vec![Morse::Dot], vec![Morse::Dash]], groups);
}

#[test]
fn split_slice_keeps_empty_groups() {
    let symbols = [Morse::WordGap];
    let groups = split_slice(&symbols, Morse::WordGap);
    assert_eq!(vec![Vec::<Morse>::new(), Vec::<Morse>::new()], groups);
}

#[test]
fn mc_to_morse_maps_the_catalog() {
    let cases = [
        (LightState::Light, 1, Morse::Dot),
        (LightState::Light, 3, Morse::Dash),
        (LightState::Dark, 1, Morse::SymbolGap),
        (LightState::Dark, 3, Morse::LetterGap),
        (LightState::Dark, 7, Morse::WordGap),
        (LightState::Light, 7, Morse::Error),
        (LightState::Dark, 2, Morse::Error),
    ];
    for (light_state, units, expected) in cases {
        assert_eq!(expected, mc_to_morse(&MorseCandidate { light_state, units }));
    }
}

#[test]
fn decode_message_reads_sos() {
    let events = [
        event(LightState::Light, 100),
        event(LightState::Dark, 100),
        event(LightState::Light, 100),
        event(LightState::Dark, 100),
        event(LightState::Light, 100),
        event(LightState::Dark, 300),
        event(LightState::Light, 300),
        event(LightState::Dark, 100),
        event(LightState::Light, 300),
        event(LightState::Dark, 100),
        event(LightState::Light, 300),
        event(LightState::Dark, 300),
        event(LightState::Light, 100),
        event(LightState::Dark, 100),
        event(LightState::Light, 100),
        event(LightState::Dark, 100),
        event(LightState::Light, 100),
    ];
    let words = decode_message(&events, 100);
    assert_eq!(vec![vec!['s', 'o', 's']], words);
}

#[test]
fn decode_message_splits_words() {
    let events = [event(LightState::Light, 100), event(LightState::Dark, 700), event(LightState::Light, 300)];
    let words = decode_message(&events, 100);
    assert_eq!(vec![vec!['e'], vec!['t']], words);
}

#[test]
fn decode_message_reports_unknown_letters_inline() {
    // Five dots in a row do not form a letter of the table.
    let events = [
        event(LightState::Light, 100),
        event(LightState::Dark, 100),
        event(LightState::Light, 100),
        event(LightState::Dark, 100),
        event(LightState::Light, 100),
        event(LightState::Dark, 100),
        event(LightState::Light, 100),
        event(LightState::Dark, 100),
        event(LightState::Light, 100),
    ];
    let words = decode_message(&events, 100);
    assert_eq!(vec![vec!['?']], words);
}

#[test]
fn decode_transmission_end_to_end() {
    // Light during [0, 100), dark afterwards: a single dot, decoded as 'e'.
    let samples: [(i64, i64); 3] = [(0, 500), (100, 50), (200, 50)];
    let words = decode_transmission(&samples, 275, 0, 90, 111).unwrap();
    assert_eq!(vec![vec!['e']], words);
}
