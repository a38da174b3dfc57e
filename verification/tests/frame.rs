use sbus::frame::{
    raw_to_us, Footer, Frame, FrameError, CHANNELS, FRAME_LEN, RAW_MAX, RAW_MIN, START,
};

/// One real group-0 frame.
const CAPTURED: [u8; FRAME_LEN] = [
    0x0F, 0xF9, 0x5B, 0xDF, 0x02, 0xED, 0x07, 0x04, 0x20, 0x00, 0x1F, 0xF8, 0x40, 0x00, 0x3E,
    0x00, 0x01, 0x08, 0x40, 0x00, 0x02, 0x10, 0x80, 0x00, 0x04,
];

#[test]
fn decode_captured_frame() {
    let f = Frame::decode(&CAPTURED).unwrap();
    assert_eq!(
        f.channels,
        [
            1017, 1003, 1035, 1014, 64, 64, 1984, 1984, 64, 1984, 1024, 1024, 1024, 1024, 1024,
            1024
        ]
    );
    assert!(!f.ch17 && !f.ch18 && !f.frame_lost && !f.failsafe);
    assert_eq!(f.footer, Footer::Sbus2 { group: 0 });
}

#[test]
fn channels_stay_in_11_bit_range() {
    let f = Frame::decode(&CAPTURED).unwrap();
    assert!(f.channels.iter().all(|&c| c <= 0x7FF));
}

#[test]
fn all_ones_payload_saturates_every_channel() {
    let mut bytes = [0xFFu8; FRAME_LEN];
    bytes[0] = START;
    bytes[23] = 0x00; // flags
    bytes[24] = 0x00; // footer
    let f = Frame::decode(&bytes).unwrap();
    assert_eq!(f.channels, [0x7FF; CHANNELS]);
}

#[test]
fn flag_bits_map_to_fields() {
    let mut bytes = [0u8; FRAME_LEN];
    bytes[0] = START;
    for (bit, expect) in [
        (0x01u8, (true, false, false, false)),
        (0x02, (false, true, false, false)),
        (0x04, (false, false, true, false)),
        (0x08, (false, false, false, true)),
    ] {
        bytes[23] = bit;
        let f = Frame::decode(&bytes).unwrap();
        assert_eq!((f.ch17, f.ch18, f.frame_lost, f.failsafe), expect);
    }
    // High nibble is unused and must not disturb the decoded flags.
    bytes[23] = 0xF0;
    let f = Frame::decode(&bytes).unwrap();
    assert_eq!(
        (f.ch17, f.ch18, f.frame_lost, f.failsafe),
        (false, false, false, false)
    );
}

#[test]
fn footer_round_trip() {
    for byte in [0x00u8, 0x04, 0x14, 0x24, 0x34] {
        let f = Footer::from_byte(byte).unwrap();
        assert_eq!(f.to_byte(), byte);
    }
    assert_eq!(Footer::from_byte(0x00).unwrap().group(), None);
    for (byte, group) in [(0x04u8, 0u8), (0x14, 1), (0x24, 2), (0x34, 3)] {
        assert_eq!(Footer::from_byte(byte).unwrap().group(), Some(group));
    }
}

#[test]
fn footer_rejects_unknown_bytes() {
    // 0x44 would be "group 4", which does not exist (group is 2 bits).
    for byte in [0x01u8, 0x0F, 0x44, 0xFF] {
        assert_eq!(Footer::from_byte(byte), None);
    }
}

#[test]
fn decode_rejects_bad_start_and_footer() {
    let mut bytes = CAPTURED;
    bytes[0] = 0x0E;
    assert_eq!(
        Frame::decode(&bytes),
        Err(FrameError::BadStart { found: 0x0E })
    );

    let mut bytes = CAPTURED;
    bytes[24] = 0x44;
    assert_eq!(
        Frame::decode(&bytes),
        Err(FrameError::BadFooter { found: 0x44 })
    );
}

#[test]
fn raw_to_us_endpoints_and_centre() {
    assert_eq!(raw_to_us(RAW_MIN), 1000);
    assert_eq!(raw_to_us(RAW_MAX), 2000);
    assert_eq!(raw_to_us(992), 1500); // (992-172)*1000/1639 = 500.3
                                      // Values outside the nominal band extrapolate rather than clamp.
    assert_eq!(raw_to_us(0), 895);
    assert_eq!(raw_to_us(2047), 2144);
}

#[test]
fn channel_us_matches_raw_to_us() {
    let f = Frame::decode(&CAPTURED).unwrap();
    assert_eq!(f.channel_us(0), Some(raw_to_us(1017)));
    assert_eq!(f.channel_us(16), None);
}

#[test]
fn bad_start_is_reported_before_bad_footer() {
    let mut bytes = CAPTURED;
    bytes[0] = 0x00;
    bytes[24] = 0xFF;
    assert_eq!(
        Frame::decode(&bytes),
        Err(FrameError::BadStart { found: 0x00 })
    );
}

#[test]
fn each_payload_bit_lands_in_its_channel() {
    for n in 0..176usize {
        let mut bytes = [0u8; FRAME_LEN];
        bytes[0] = START;
        bytes[1 + n / 8] = 1 << (n % 8);
        let f = Frame::decode(&bytes).unwrap();
        for (i, &c) in f.channels.iter().enumerate() {
            let expected = if i == n / 11 { 1u16 << (n % 11) } else { 0 };
            assert_eq!(c, expected, "bit {n}, channel {i}");
        }
    }
}

#[test]
fn footers_beyond_the_wire_keep_only_the_low_nibble_of_the_group() {
    assert_eq!(Footer::Sbus2 { group: 4 }.to_byte(), 0x44);
    assert_eq!(Footer::Sbus2 { group: 0x1F }.to_byte(), 0xF4);
}

#[test]
fn raw_to_us_is_the_nearest_microsecond_everywhere() {
    let mut previous = 0;
    for raw in 0..=u16::MAX {
        let us = raw_to_us(raw);
        assert!(us >= previous, "not monotone at {raw}");
        previous = us;
        let error = (us as i64 - 1000) * 1639 - (raw as i64 - 172) * 1000;
        assert!(2 * error.abs() <= 1639, "not nearest at {raw}");
    }
    assert_eq!(raw_to_us(u16::MAX), 40880);
}

#[test]
fn the_halves_of_the_payload_share_no_bytes() {
    let base = Frame::decode(&CAPTURED).unwrap();
    for k in 0..22usize {
        let mut bytes = CAPTURED;
        bytes[1 + k] ^= 0x81;
        let changed = Frame::decode(&bytes).unwrap();
        assert_eq!(base.channels[..8] == changed.channels[..8], k >= 11, "byte {k}");
        assert_eq!(base.channels[8..] == changed.channels[8..], k < 11, "byte {k}");
    }
}
