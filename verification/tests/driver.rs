use sbus::driver::{ReadFrame, ReadOutcome, Sbus, BAUD, READ_POLL_TIMEOUT_MILLIS, RX_CHUNK};
use sbus::frame::FRAME_LEN;
use sbus::monitor::replay;
use sbus::parser::{Event, Parser};
use sbus::slot::Volts;
use sbus::state::State;

const FRAME_G0: [u8; FRAME_LEN] = [
    0x0F, 0xF9, 0x5B, 0xDF, 0x02, 0xED, 0x07, 0x04, 0x20, 0x00, 0x1F, 0xF8, 0x40, 0x00, 0x3E,
    0x00, 0x01, 0x08, 0x40, 0x00, 0x02, 0x10, 0x80, 0x00, 0x04,
];

const SECOND: u128 = 1_000_000_000;

/// Frames with both voltages, and some noise.
fn capture() -> Vec<u8> {
    let mut bytes = vec![0xAA, 0x03];
    for i in 0..40u8 {
        bytes.extend_from_slice(&FRAME_G0);
        if i % 2 == 0 {
            bytes.extend_from_slice(&[0x03, 0xC0, 0x31]);
        } else {
            bytes.extend_from_slice(&[0x03, 0xC4, 0xF1]);
        }
        if i % 9 == 0 {
            bytes.push(0x0F);
            bytes.push(0x55);
        }
    }
    bytes.extend_from_slice(&FRAME_G0[..7]);
    bytes
}

fn poll(sbus: &mut Sbus, bytes: &[u8]) -> Vec<Event> {
    let mut rx = [0u8; RX_CHUNK];
    rx[..bytes.len()].copy_from_slice(bytes);
    sbus.poll_raw(&rx, ReadOutcome::Read(bytes.len())).unwrap()
}

#[test]
fn line_settings() {
    assert_eq!(BAUD, 100_000);
    assert_eq!(READ_POLL_TIMEOUT_MILLIS, 20);
    assert_eq!(RX_CHUNK, 256);
}

#[test]
fn a_new_session_has_seen_nothing() {
    assert_eq!(*Sbus::new().state(), State::default());
}

#[test]
fn polling_decodes_only_the_bytes_that_arrived() {
    let mut sbus = Sbus::new();
    let mut rx = [0xAAu8; RX_CHUNK];
    rx[..FRAME_LEN].copy_from_slice(&FRAME_G0);
    let events = sbus.poll_raw(&rx, ReadOutcome::Read(FRAME_LEN)).unwrap();
    assert_eq!(events.len(), 1);
    assert!(matches!(events[0], Event::Frame { .. }));
    assert_eq!(sbus.state().counters.frames, 1);
    assert_eq!(sbus.state().counters.desync_bytes, 0);
}

#[test]
fn an_idle_port_yields_no_events_rather_than_a_failure() {
    let mut sbus = Sbus::new();
    let rx = [0u8; RX_CHUNK];
    assert_eq!(sbus.poll_raw(&rx, ReadOutcome::TimedOut), Some(Vec::new()));
    assert_eq!(sbus.poll_raw(&rx, ReadOutcome::Read(0)), Some(Vec::new()));
    assert_eq!(*sbus.state(), State::default());
}

#[test]
fn a_failed_read_changes_nothing() {
    let mut sbus = Sbus::new();
    poll(&mut sbus, &FRAME_G0[..20]);
    assert_eq!(sbus.poll_raw(&FRAME_G0, ReadOutcome::Failed), None);
    assert_eq!(poll(&mut sbus, &FRAME_G0[20..]).len(), 1);
}

#[test]
fn the_rate_is_updated_once_per_window() {
    let mut sbus = Sbus::new();
    poll(&mut sbus, &FRAME_G0);
    poll(&mut sbus, &[0x03, 0xC0, 0x31]);
    poll(&mut sbus, &FRAME_G0);
    assert!(!sbus.update_rate(SECOND - 1));
    assert_eq!(sbus.state().fps.frames, 0);

    poll(&mut sbus, &FRAME_G0);
    assert!(sbus.update_rate(SECOND + SECOND / 2));
    assert_eq!(sbus.state().fps.frames, 3);
    assert_eq!(sbus.state().fps.nanos, SECOND + SECOND / 2);

    poll(&mut sbus, &FRAME_G0);
    assert!(sbus.update_rate(SECOND));
    assert_eq!(sbus.state().fps.frames, 1);
    assert_eq!(sbus.state().counters.frames, 4);
}

#[test]
fn waiting_for_a_frame_prefers_the_last_frame_over_the_deadline() {
    let mut later = FRAME_G0;
    later[1] = 0x00;
    let mut bytes = FRAME_G0.to_vec();
    bytes.extend_from_slice(&later);
    bytes.extend_from_slice(&[0x03, 0xC0, 0x31]);
    let mut sbus = Sbus::new();
    let events = poll(&mut sbus, &bytes);
    assert_eq!(events.len(), 3);
    assert!(matches!(events[2], Event::Slot { .. }));
    match Sbus::read_frame(&events, true) {
        ReadFrame::Received(frame) => assert_eq!(frame.channels[0], 0x300),
        other => panic!("expected a frame, got {other:?}"),
    }
}

#[test]
fn waiting_without_a_frame_ends_at_the_deadline() {
    let events = vec![Event::Desync { byte: 0xAA }];
    assert_eq!(Sbus::read_frame(&events, false), ReadFrame::Waiting);
    assert_eq!(Sbus::read_frame(&events, true), ReadFrame::TimedOut);
    assert_eq!(Sbus::read_frame(&Vec::new(), false), ReadFrame::Waiting);
}

#[test]
fn resync_drops_the_buffer_and_keeps_the_values() {
    let mut sbus = Sbus::new();
    poll(&mut sbus, &FRAME_G0);
    poll(&mut sbus, &[0x03, 0xC4]);
    let before = sbus.state().clone();
    sbus.resync();
    assert_eq!(*sbus.state(), before);
    // Neither the half slot response nor its group is remembered.
    assert!(poll(&mut sbus, &[0xF1]).is_empty());
    assert_eq!(sbus.state().external_v, None);
    // The rate goes on counting.
    assert!(sbus.update_rate(SECOND));
    assert_eq!(sbus.state().fps.frames, 1);
}

#[test]
fn a_replayed_capture_gives_the_numbers_of_the_live_session() {
    let bytes = capture();
    let replayed = replay(&bytes, false, false).1;
    for chunk in [1usize, 3, 24, 25, 49, 256] {
        let mut sbus = Sbus::new();
        let mut events = Vec::new();
        for part in bytes.chunks(chunk) {
            assert!(sbus.has_room_for(part.len()));
            events.extend(poll(&mut sbus, part));
            sbus.update_rate(SECOND / 4);
        }
        assert_eq!(*sbus.state(), replayed, "chunk size {chunk}");
        assert_eq!(events, Parser::new().push_slice(&bytes));
    }
    assert_eq!(replayed.counters.frames, 40);
    assert_eq!(replayed.rx_battery_v, Some(Volts { tenths: 49 }));
    assert_eq!(replayed.external_v, Some(Volts { tenths: 241 }));
}

#[test]
fn a_session_has_room_until_the_rate_count_is_full() {
    let mut sbus = Sbus::new();
    assert!(sbus.has_room_for(u32::MAX as usize));
    poll(&mut sbus, &FRAME_G0);
    assert!(sbus.has_room_for(u32::MAX as usize - 1));
    assert!(!sbus.has_room_for(u32::MAX as usize));
    sbus.update_rate(SECOND);
    assert!(sbus.has_room_for(u32::MAX as usize));
}
