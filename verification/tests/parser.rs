use sbus::frame::{Footer, FRAME_LEN};
use sbus::parser::{Event, Parser};
use sbus::slot::{slot_id, Telemetry, SLOT_LEN};

const FRAME_G0: [u8; FRAME_LEN] = [
    0x0F, 0xF9, 0x5B, 0xDF, 0x02, 0xED, 0x07, 0x04, 0x20, 0x00, 0x1F, 0xF8, 0x40, 0x00, 0x3E,
    0x00, 0x01, 0x08, 0x40, 0x00, 0x02, 0x10, 0x80, 0x00, 0x04,
];
const SLOT_EXT: [u8; SLOT_LEN] = [0x03, 0xC4, 0xF1];
const SLOT_RX: [u8; SLOT_LEN] = [0x03, 0xC0, 0x31];

fn frame_with_footer(footer: u8) -> [u8; FRAME_LEN] {
    let mut f = FRAME_G0;
    f[FRAME_LEN - 1] = footer;
    f
}

fn run(bytes: &[u8]) -> Vec<Event> {
    let mut parser = Parser::new();
    parser.push_slice(bytes)
}

fn desyncs(events: &[Event]) -> usize {
    events
        .iter()
        .filter(|e| matches!(e, Event::Desync { .. }))
        .count()
}

fn slots(events: &[Event]) -> usize {
    events
        .iter()
        .filter(|e| matches!(e, Event::Slot { .. }))
        .count()
}

fn frames(events: &[Event]) -> usize {
    events
        .iter()
        .filter(|e| matches!(e, Event::Frame { .. }))
        .count()
}

/// The bytes that events account for.
fn wire(events: &[Event]) -> Vec<u8> {
    let mut bytes = Vec::new();
    for event in events {
        match event {
            Event::Frame { raw, .. } => bytes.extend_from_slice(raw),
            Event::Slot { raw, .. } => bytes.extend_from_slice(raw),
            Event::Desync { byte } => bytes.push(*byte),
        }
    }
    bytes
}

/// A reproducible stream of noise rich in start bytes, footers and slot IDs.
fn noise(len: usize) -> Vec<u8> {
    let palette = [0x0Fu8, 0x04, 0x14, 0x00, 0x03, 0x83, 0xC0, 0xC4, 0xAA, 0xFF];
    let mut seed: u32 = 12345;
    let mut bytes = Vec::new();
    for _ in 0..len {
        seed = seed.wrapping_mul(1664525).wrapping_add(1013904223);
        bytes.push(palette[(seed >> 16) as usize % palette.len()]);
    }
    bytes
}

#[test]
fn decodes_frame_then_slot() {
    let mut stream = Vec::new();
    stream.extend_from_slice(&FRAME_G0);
    stream.extend_from_slice(&SLOT_EXT);

    let events = run(&stream);
    assert_eq!(events.len(), 2);
    match events[0] {
        Event::Frame { frame, raw } => {
            assert_eq!(frame.footer, Footer::Sbus2 { group: 0 });
            assert_eq!(raw, FRAME_G0);
        }
        other => panic!("expected frame, got {other:?}"),
    }
    match events[1] {
        Event::Slot {
            group, response, ..
        } => {
            assert_eq!(group, 0);
            match response.telemetry {
                Telemetry::ExternalVoltage { volts, raw } => {
                    assert_eq!(volts.tenths as f32 / 10.0, 24.1);
                    assert_eq!(raw, 0xF1);
                }
                other => panic!("expected external voltage, got {other:?}"),
            }
        }
        other => panic!("expected slot, got {other:?}"),
    }
}

#[test]
fn slot_bytes_are_not_counted_as_desync() {
    let mut stream = Vec::new();
    for footer in [0x04u8, 0x14, 0x24, 0x34] {
        stream.extend_from_slice(&frame_with_footer(footer));
        if footer == 0x04 {
            stream.extend_from_slice(&SLOT_RX);
        }
    }
    // Trailing frame so the last unit can complete.
    stream.extend_from_slice(&frame_with_footer(0x04));

    let events = run(&stream);
    assert_eq!(desyncs(&events), 0);
    assert_eq!(slots(&events), 1);
    assert_eq!(frames(&events), 5);
}

#[test]
fn slot_is_ignored_without_a_preceding_sbus2_frame() {
    // A bare slot response with no frame context is garbage, not telemetry.
    let mut stream = Vec::new();
    stream.extend_from_slice(&SLOT_EXT);
    stream.extend_from_slice(&FRAME_G0);

    let events = run(&stream);
    assert_eq!(desyncs(&events), SLOT_LEN);
    assert_eq!(slots(&events), 0);
}

#[test]
fn sbus1_footer_disables_slot_parsing() {
    let mut stream = Vec::new();
    stream.extend_from_slice(&frame_with_footer(0x00));
    stream.extend_from_slice(&SLOT_EXT);
    stream.extend_from_slice(&FRAME_G0);

    let events = run(&stream);
    assert_eq!(slots(&events), 0);
    assert_eq!(desyncs(&events), SLOT_LEN);
}

#[test]
fn recovers_after_leading_garbage() {
    let mut stream = Vec::new();
    stream.extend_from_slice(&[0xAA, 0xBB, 0xCC]);
    stream.extend_from_slice(&FRAME_G0);
    stream.extend_from_slice(&SLOT_EXT);

    let events = run(&stream);
    let desync: Vec<u8> = events
        .iter()
        .filter_map(|e| match e {
            Event::Desync { byte } => Some(*byte),
            _ => None,
        })
        .collect();
    assert_eq!(desync, [0xAA, 0xBB, 0xCC]);
    assert!(matches!(events[3], Event::Frame { .. }));
    assert!(matches!(events[4], Event::Slot { .. }));
}

#[test]
fn desync_clears_slot_context() {
    // Frame, then a corrupted byte, then a slot response that must not be
    // trusted because the group is no longer known.
    let mut stream = Vec::new();
    stream.extend_from_slice(&FRAME_G0);
    stream.push(0xAA);
    stream.extend_from_slice(&SLOT_EXT);
    stream.extend_from_slice(&FRAME_G0);

    let events = run(&stream);
    assert_eq!(slots(&events), 0);
}

#[test]
fn buffer_never_exceeds_one_frame() {
    let mut stream = Vec::new();
    for footer in [0x04u8, 0x14, 0x24, 0x34, 0x04] {
        stream.extend_from_slice(&frame_with_footer(footer));
        stream.extend_from_slice(&SLOT_RX);
    }
    stream.extend_from_slice(&[0x00, 0x11, 0x22]);

    let mut parser = Parser::new();
    for &byte in &stream {
        parser.push(byte);
        assert!(parser.buffered() < FRAME_LEN, "buffer overran");
    }
}

#[test]
fn one_push_yields_at_most_one_event() {
    // Eight slot responses back to back is the densest legal burst.
    let mut stream = Vec::new();
    stream.extend_from_slice(&FRAME_G0);
    for index in 0..8u8 {
        stream.extend_from_slice(&[slot_id(index), 0x00, 0x00]);
    }

    let mut parser = Parser::new();
    let mut events = 0;
    for &byte in &stream {
        if parser.push(byte).is_some() {
            events += 1;
        }
    }
    // 1 frame + 8 slots, with no event lost to the one-per-push limit.
    assert_eq!(events, 9);
}

#[test]
fn chunk_boundaries_do_not_change_the_event_stream() {
    let mut stream = Vec::new();
    for footer in [0x04u8, 0x14, 0x24, 0x34] {
        stream.extend_from_slice(&frame_with_footer(footer));
        if footer == 0x04 {
            stream.extend_from_slice(&SLOT_EXT);
        }
    }
    let reference = run(&stream);

    // Real reads split wherever the USB packet happened to end, including
    // mid-frame and mid-slot.
    for chunk in [1usize, 2, 3, 7, 13, 24, 25, 26, 64] {
        let mut parser = Parser::new();
        let mut events = Vec::new();
        for part in stream.chunks(chunk) {
            events.extend(parser.push_slice(part));
        }
        assert_eq!(events, reference, "chunk size {chunk}");
    }
}

#[test]
fn reset_drops_buffered_bytes_and_context() {
    let mut parser = Parser::new();
    for &byte in &FRAME_G0[..10] {
        parser.push(byte);
    }
    assert_eq!(parser.buffered(), 10);
    parser.reset();
    assert_eq!(parser.buffered(), 0);

    // After a reset the stream must resync from scratch.
    let events = parser.push_slice(&SLOT_EXT);
    assert!(events.is_empty(), "slot accepted without frame context");
}

#[test]
fn the_external_voltage_is_read_byte_by_byte() {
    let mut parser = Parser::new();
    let mut ext_volts = None;
    for byte in FRAME_G0.into_iter().chain(SLOT_EXT) {
        if let Some(Event::Slot { response, .. }) = parser.push(byte) {
            if let Telemetry::ExternalVoltage { volts, .. } = response.telemetry {
                ext_volts = Some(volts.tenths as f32 / 10.0);
            }
        }
    }
    assert_eq!(ext_volts, Some(24.1));
}

#[test]
fn garbage_is_dropped_only_once_a_frame_could_have_followed() {
    let mut parser = Parser::new();
    for _ in 0..FRAME_LEN - 1 {
        assert_eq!(parser.push(0xAA), None);
    }
    assert_eq!(parser.push(0xBB), Some(Event::Desync { byte: 0xAA }));
    assert_eq!(parser.buffered(), FRAME_LEN - 1);
}

#[test]
fn reset_drops_the_slot_context_of_a_complete_frame() {
    let mut parser = Parser::default();
    assert_eq!(parser.push_slice(&FRAME_G0).len(), 1);
    parser.reset();
    assert!(parser.push_slice(&SLOT_EXT).is_empty());
    assert_eq!(parser.buffered(), SLOT_LEN);
}

#[test]
fn a_clone_goes_on_where_the_parser_stands() {
    let mut parser = Parser::new();
    parser.push_slice(&FRAME_G0);
    parser.push_slice(&SLOT_EXT[..2]);
    let mut copy = parser.clone();
    assert_eq!(parser.push(SLOT_EXT[2]), copy.push(SLOT_EXT[2]));
    assert_eq!(copy.buffered(), 0);
}

#[test]
fn noise_is_fully_accounted_for_however_it_is_cut() {
    let stream = noise(5000);
    let mut parser = Parser::new();
    let reference = parser.push_slice(&stream);
    let mut seen = wire(&reference);
    let pending = parser.buffered();
    seen.extend_from_slice(&stream[stream.len() - pending..]);
    assert_eq!(seen, stream);
    assert!(frames(&reference) > 0 && slots(&reference) > 0 && desyncs(&reference) > 0);

    for chunk in [1usize, 5, 24, 25, 97] {
        let mut parser = Parser::new();
        let mut events = Vec::new();
        for part in stream.chunks(chunk) {
            events.extend(parser.push_slice(part));
        }
        assert_eq!(events, reference, "chunk size {chunk}");
    }
}

#[test]
fn slots_in_noise_answer_the_frame_before_them() {
    let mut context: Option<u8> = None;
    for event in run(&noise(5000)) {
        match event {
            Event::Frame { frame, .. } => context = frame.footer.group(),
            Event::Slot { group, .. } => assert_eq!(context, Some(group)),
            Event::Desync { .. } => context = None,
        }
    }
}

#[test]
fn a_healthy_stream_is_decoded_in_full() {
    // Footers cycle through the groups; group 0 carries one slot response,
    // alternating between the two voltages.
    let mut stream = Vec::new();
    for i in 0..532usize {
        stream.extend_from_slice(&frame_with_footer([0x04u8, 0x14, 0x24, 0x34][i % 4]));
        if i % 4 == 0 {
            stream.extend_from_slice(if i % 8 == 0 { &SLOT_RX } else { &SLOT_EXT });
        }
    }
    let events = run(&stream);
    assert_eq!(frames(&events), 532);
    assert_eq!(slots(&events), 133);
    assert_eq!(desyncs(&events), 0);
    assert_eq!(wire(&events), stream);
}

#[test]
fn garbage_without_a_start_byte_costs_only_itself() {
    for len in [1usize, 24, 25, 26, 60] {
        let garbage: Vec<u8> = (0..len).map(|i| 0x40 + (i as u8 % 64)).collect();
        let mut stream = garbage.clone();
        stream.extend_from_slice(&FRAME_G0);
        let events = run(&stream);
        assert_eq!(events.len(), len + 1);
        assert_eq!(wire(&events[..len]), garbage);
        assert_eq!(desyncs(&events), len);
        assert!(matches!(events[len], Event::Frame { .. }));
    }
}

#[test]
fn a_slot_is_reported_under_the_group_of_its_frame() {
    let mut stream = frame_with_footer(0x24).to_vec();
    stream.extend_from_slice(&SLOT_RX);
    match run(&stream)[1] {
        Event::Slot {
            group, response, raw,
        } => {
            assert_eq!(group, 2);
            assert_eq!(response.index, 0);
            assert_eq!(raw, SLOT_RX);
        }
        other => panic!("expected slot, got {other:?}"),
    }
}

#[test]
fn garbage_after_a_frame_costs_only_itself() {
    // The slot response inside the garbage is not trusted.
    let garbage = [0xAA, 0x03, 0xC4, 0xF1, 0x23];
    let mut stream = FRAME_G0.to_vec();
    stream.extend_from_slice(&garbage);
    stream.extend_from_slice(&frame_with_footer(0x14));
    let events = run(&stream);
    assert_eq!(events.len(), 7);
    assert!(matches!(events[0], Event::Frame { .. }));
    assert_eq!(wire(&events[1..6]), garbage);
    assert_eq!(desyncs(&events), 5);
    match events[6] {
        Event::Frame { frame, .. } => assert_eq!(frame.footer, Footer::Sbus2 { group: 1 }),
        other => panic!("expected frame, got {other:?}"),
    }
}
