use sbus::frame::START;
use sbus::slot::{
    slot_id, slot_index, volts_from_raw, SlotResponse, Telemetry, Volts, SLOT_COUNT,
    VOLT_LSB_TENTHS, VOLT_MAX_TENTHS,
};

/// The full ID table, laid out group by group.
const SPEC_TABLE: [u8; SLOT_COUNT] = [
    0x03, 0x83, 0x43, 0xC3, 0x23, 0xA3, 0x63, 0xE3, // group 0
    0x13, 0x93, 0x53, 0xD3, 0x33, 0xB3, 0x73, 0xF3, // group 1
    0x0B, 0x8B, 0x4B, 0xCB, 0x2B, 0xAB, 0x6B, 0xEB, // group 2
    0x1B, 0x9B, 0x5B, 0xDB, 0x3B, 0xBB, 0x7B, 0xFB, // group 3
];

fn in_volts(volts: Volts) -> f32 {
    volts.tenths as f32 / 10.0
}

#[test]
fn slot_ids_match_spec_table() {
    for (index, &expected) in SPEC_TABLE.iter().enumerate() {
        assert_eq!(slot_id(index as u8), expected, "slot {index}");
    }
}

#[test]
fn slot_ids_are_unique() {
    for (i, a) in SPEC_TABLE.iter().enumerate() {
        for (j, b) in SPEC_TABLE.iter().enumerate().skip(i + 1) {
            assert_ne!(a, b, "slots {i} and {j} collide");
            assert_ne!(slot_id(i as u8), slot_id(j as u8));
        }
    }
}

#[test]
fn slot_id_round_trips() {
    for index in 0..SLOT_COUNT as u8 {
        assert_eq!(slot_index(slot_id(index)), Some(index));
    }
}

#[test]
fn frame_start_byte_is_not_a_slot_id() {
    // The parser relies on this to tell a frame head from a slot head.
    assert_eq!(slot_index(START), None);
}

#[test]
fn slot_index_rejects_ids_without_low_bits_set() {
    for id in [0x00u8, 0x01, 0x02, 0xC0, 0xC4, 0xF1] {
        assert_eq!(slot_index(id), None, "0x{id:02X}");
    }
}

#[test]
fn exactly_32_of_256_bytes_are_slot_ids() {
    let valid: [u8; SLOT_COUNT] = core::array::from_fn(|i| slot_id(i as u8));
    for byte in 0u8..=0xFF {
        let expected = valid.contains(&byte);
        assert_eq!(
            slot_index(byte).is_some(),
            expected,
            "0x{byte:02X} misclassified"
        );
        // Every valid ID matches the 0b_____011 pattern, and only those do.
        assert_eq!(byte & 0b111 == 0b011, expected, "0x{byte:02X} pattern");
    }
}

#[test]
fn decodes_captured_rx_battery() {
    // Transmitter showed Rx-Batt 4.9 V for these bytes.
    let r = SlotResponse::decode(&[0x03, 0xC0, 0x31]).unwrap();
    assert_eq!(r.index, 0);
    assert_eq!(r.group(), 0);
    assert_eq!(
        r.telemetry,
        Telemetry::RxBattery {
            volts: Volts { tenths: 49 },
            raw: 0x31
        }
    );
    assert_eq!(r.telemetry.volts().map(in_volts), Some(4.9));
}

#[test]
fn decodes_captured_external_voltage() {
    // Transmitter showed Ext-Volt 24.1 V for these bytes.
    let r = SlotResponse::decode(&[0x03, 0xC4, 0xF1]).unwrap();
    assert_eq!(r.index, 0);
    assert_eq!(
        r.telemetry,
        Telemetry::ExternalVoltage {
            volts: Volts { tenths: 241 },
            raw: 0xF1
        }
    );
    assert_eq!(r.telemetry.volts().map(in_volts), Some(24.1));
}

#[test]
fn voltage_scale_is_exact_at_endpoints() {
    assert_eq!(in_volts(volts_from_raw(0)), 0.0);
    assert_eq!(in_volts(volts_from_raw(255)), 25.5);
    assert_eq!(volts_from_raw(255).tenths, VOLT_MAX_TENTHS);
    assert_eq!(volts_from_raw(1).tenths, VOLT_LSB_TENTHS);
}

#[test]
fn unexpected_slot0_marker_is_unknown_not_a_guess() {
    let r = SlotResponse::decode(&[0x03, 0xC8, 0x12]).unwrap();
    assert_eq!(r.telemetry, Telemetry::Unknown { data: [0xC8, 0x12] });
    assert_eq!(r.telemetry.volts(), None);
}

#[test]
fn non_zero_slots_are_unknown() {
    // slot 4 (0x23) with what looks like a voltage marker must not be
    // decoded as one: the marker meaning is only verified for slot 0.
    let r = SlotResponse::decode(&[0x23, 0xC4, 0xF1]).unwrap();
    assert_eq!(r.index, 4);
    assert_eq!(r.telemetry, Telemetry::Unknown { data: [0xC4, 0xF1] });
}

#[test]
fn group_derives_from_index() {
    for (index, group) in [
        (0u8, 0u8),
        (7, 0),
        (8, 1),
        (15, 1),
        (16, 2),
        (24, 3),
        (31, 3),
    ] {
        let r = SlotResponse::decode(&[slot_id(index), 0x00, 0x00]).unwrap();
        assert_eq!(r.group(), group, "slot {index}");
    }
}

#[test]
fn decode_rejects_invalid_id() {
    assert!(SlotResponse::decode(&[0x0F, 0xC0, 0x31]).is_none());
}

#[test]
fn slot_id_uses_only_the_low_six_bits() {
    assert_eq!(slot_id(32), 0x07);
    assert_eq!(slot_id(63), 0xFF);
    assert_eq!(slot_id(64), slot_id(0));
    assert_eq!(slot_id(255), slot_id(63));
}

#[test]
fn slot_ids_reverse_the_bits_of_the_slot() {
    for value in 0..=255u8 {
        let reversed = slot_id(value) >> 2;
        for i in 0..6 {
            assert_eq!(reversed >> i & 1, value >> (5 - i) & 1, "bit {i} of {value}");
        }
        assert_eq!(slot_id(reversed) >> 2, value & 0x3F);
    }
}
