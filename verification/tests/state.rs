use sbus::parser::Parser;
use sbus::slot::Volts;
use sbus::state::{Counters, State, RATE_WINDOW_NANOS};

const FRAME_G0: [u8; 25] = [
    0x0F, 0xF9, 0x5B, 0xDF, 0x02, 0xED, 0x07, 0x04, 0x20, 0x00, 0x1F, 0xF8, 0x40, 0x00, 0x3E,
    0x00, 0x01, 0x08, 0x40, 0x00, 0x02, 0x10, 0x80, 0x00, 0x04,
];

fn fold(bytes: &[u8]) -> State {
    let mut parser = Parser::new();
    let mut state = State::default();
    for e in parser.push_slice(bytes) {
        state.apply(&e);
    }
    state
}

fn in_volts(volts: Volts) -> f32 {
    volts.tenths as f32 / 10.0
}

#[test]
fn tracks_both_voltages_and_counters() {
    let mut stream = Vec::new();
    stream.extend_from_slice(&FRAME_G0);
    stream.extend_from_slice(&[0x03, 0xC0, 0x31]);
    stream.extend_from_slice(&FRAME_G0);
    stream.extend_from_slice(&[0x03, 0xC4, 0xF1]);
    stream.extend_from_slice(&FRAME_G0);

    let state = fold(&stream);
    assert_eq!(state.rx_battery_v.map(in_volts), Some(4.9));
    assert_eq!(state.external_v.map(in_volts), Some(24.1));
    assert!(state.has_voltages());
    assert!(state.sbus2);
    assert_eq!(
        state.counters,
        Counters {
            frames: 3,
            slots: 2,
            unknown_slots: 0,
            desync_bytes: 0,
        }
    );
}

#[test]
fn unknown_slots_are_counted_not_stored_as_voltage() {
    let mut stream = Vec::new();
    stream.extend_from_slice(&FRAME_G0);
    stream.extend_from_slice(&[0x03, 0xC8, 0x12]);
    stream.extend_from_slice(&FRAME_G0);

    let state = fold(&stream);
    assert_eq!(state.counters.unknown_slots, 1);
    assert_eq!(state.counters.slots, 1);
    assert_eq!(state.rx_battery_v, None);
    assert_eq!(state.external_v, None);
}

#[test]
fn garbage_counts_as_desync_bytes() {
    let mut stream = vec![0xAA, 0xBB];
    stream.extend_from_slice(&FRAME_G0);
    stream.extend_from_slice(&FRAME_G0);

    let state = fold(&stream);
    assert_eq!(state.counters.desync_bytes, 2);
    assert_eq!(state.counters.frames, 2);
}

#[test]
fn nothing_received_is_the_default() {
    let state = State::default();
    assert_eq!(state, fold(&[]));
    assert_eq!(state.frame, None);
    assert!(!state.sbus2 && !state.has_voltages());
    assert_eq!(state.counters, Counters::default());
    assert_eq!(state.fps.frames, 0);
    assert_eq!(state.fps.nanos, RATE_WINDOW_NANOS);
}

#[test]
fn one_voltage_is_not_both() {
    let mut stream = FRAME_G0.to_vec();
    stream.extend_from_slice(&[0x03, 0xC0, 0x31]);
    let state = fold(&stream);
    assert!(state.rx_battery_v.is_some());
    assert!(!state.has_voltages());
}

#[test]
fn the_latest_frame_and_voltage_win_and_sbus2_is_remembered() {
    let mut second = FRAME_G0;
    second[1] = 0x00;
    second[24] = 0x00;
    let mut stream = FRAME_G0.to_vec();
    stream.extend_from_slice(&[0x03, 0xC4, 0xF1, 0x03, 0xC4, 0xF0]);
    stream.extend_from_slice(&second);
    let state = fold(&stream);
    assert_eq!(state.external_v, Some(Volts { tenths: 240 }));
    assert_eq!(state.frame.unwrap().channels[0], 0x300);
    assert_eq!(state.frame.unwrap().footer.group(), None);
    assert!(state.sbus2);
}

#[test]
fn counters_account_for_every_byte() {
    let mut stream = vec![0x55; 7];
    for _ in 0..3 {
        stream.extend_from_slice(&FRAME_G0);
        stream.extend_from_slice(&[0x83, 0x01, 0x02]);
    }
    stream.extend_from_slice(&[0x0F, 0x00]);
    let c = fold(&stream).counters;
    assert_eq!(c.frames * 25 + c.slots * 3 + c.desync_bytes, stream.len() as u64 - 2);
    assert_eq!((c.frames, c.slots, c.unknown_slots, c.desync_bytes), (3, 3, 3, 7));
}

#[test]
fn counters_know_their_limit() {
    let mut counters = Counters::default();
    assert!(counters.has_room_for(u64::MAX));
    counters.slots = u64::MAX - 3;
    assert!(counters.has_room_for(3));
    assert!(!counters.has_room_for(4));
}
