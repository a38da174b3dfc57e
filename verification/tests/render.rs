use sbus::frame::{Footer, Frame};
use sbus::render::{bar, flag, hex, lines, plain_frame, summary, volts, warn, CSI};
use sbus::slot::Volts;
use sbus::state::{Counters, State};

fn example_frame() -> Frame {
    Frame {
        channels: [
            1017, 1006, 1035, 1014, 64, 64, 1984, 1984, 64, 1984, 1024, 1024, 1024, 1024, 1024, 0,
        ],
        ch17: false,
        ch18: false,
        frame_lost: false,
        failsafe: false,
        footer: Footer::Sbus2 { group: 0 },
    }
}

fn example_state() -> State {
    State {
        frame: Some(example_frame()),
        sbus2: true,
        rx_battery_v: Some(Volts { tenths: 49 }),
        external_v: Some(Volts { tenths: 241 }),
        counters: Counters {
            frames: 532,
            slots: 133,
            unknown_slots: 0,
            desync_bytes: 0,
        },
        ..State::default()
    }
}

#[test]
fn bars_fill_in_proportion() {
    assert_eq!(bar(0, 4), "····");
    assert_eq!(bar(2047, 4), "████");
    assert_eq!(bar(1024, 4), "██··");
    assert_eq!(bar(1017, 14), "██████········");
    assert_eq!(bar(2046, 14), "█████████████·");
    assert_eq!(bar(7, 0), "");
    // Values beyond the range of a channel fill the bar.
    assert_eq!(bar(u16::MAX, 3), "███");
}

#[test]
fn voltages_take_one_decimal_place_in_a_column() {
    assert_eq!(volts(Some(Volts { tenths: 49 })), "  4.9V");
    assert_eq!(volts(Some(Volts { tenths: 241 })), " 24.1V");
    assert_eq!(volts(Some(Volts { tenths: 0 })), "  0.0V");
    assert_eq!(volts(Some(Volts { tenths: 255 })), " 25.5V");
    assert_eq!(volts(None), "  ---");
}

#[test]
fn every_voltage_reads_as_the_decimal_fraction() {
    for tenths in 0..=255u8 {
        assert_eq!(
            volts(Some(Volts { tenths })),
            format!("{:5.1}V", tenths as f32 * 0.1)
        );
    }
}

#[test]
fn flags_and_faults() {
    assert_eq!((flag(true), flag(false)), ("●", "○"));
    assert_eq!((warn(true), warn(false)), ("⚠YES", "no"));
}

#[test]
fn the_display_of_a_healthy_link() {
    let out = lines(&example_state(), "66.5", false);
    assert_eq!(out.len(), 12);
    assert_eq!(
        out[0],
        "SBUS monitor  100000 8E2    66.5 fps   frames=532 slots=133 desync=0"
    );
    assert_eq!(out[1], "CH17:○  CH18:○   FRAME_LOST:no   FAILSAFE:no");
    assert_eq!(out[2], "S.BUS2  Rx-Batt:  4.9V  Ext-Volt: 24.1V");
    assert_eq!(
        out[3],
        "--------------------------------------------------------------"
    );
    assert_eq!(
        out[4],
        "  CH 1 1017 ██████········   CH 2 1006 ██████········"
    );
    assert_eq!(
        out[11],
        "  CH15 1024 ███████·······   CH16    0 ··············"
    );
}

#[test]
fn the_display_with_microseconds() {
    let out = lines(&example_state(), "0.0", true);
    assert_eq!(
        out[0],
        "SBUS monitor  100000 8E2     0.0 fps   frames=532 slots=133 desync=0"
    );
    assert_eq!(
        out[4],
        "  CH 1 1017 1516us ████······   CH 2 1006 1509us ████······"
    );
    assert_eq!(
        out[11],
        "  CH15 1024 1520us █████·····   CH16    0  895us ··········"
    );
}

#[test]
fn the_display_before_any_frame() {
    let out = lines(&State::default(), "1234.5", false);
    assert_eq!(
        out,
        vec![
            "SBUS monitor  100000 8E2   1234.5 fps   frames=0 slots=0 desync=0".to_string(),
            "CH17:-  CH18:-   FRAME_LOST:-   FAILSAFE:-".to_string(),
            "S.BUS1  Rx-Batt:  ---  Ext-Volt:  ---".to_string(),
            "-".repeat(62),
            "  (SBUS フレーム待ち... 送信機/受信機を確認してください)".to_string(),
            String::new(),
        ]
    );
}

#[test]
fn the_display_shows_faults_and_unknown_slots() {
    let mut state = example_state();
    state.counters.unknown_slots = 12;
    let mut frame = example_frame();
    frame.ch17 = true;
    frame.failsafe = true;
    state.frame = Some(frame);
    let out = lines(&state, "0.0", false);
    assert_eq!(out[1], "CH17:●  CH18:○   FRAME_LOST:no   FAILSAFE:⚠YES");
    assert_eq!(
        out[2],
        "S.BUS2  Rx-Batt:  4.9V  Ext-Volt: 24.1V   unknown slots=12"
    );
}

#[test]
fn one_plain_line_per_frame() {
    assert_eq!(
        plain_frame(&example_frame(), &example_state()),
        "CH 1017 1006 1035 1014   64   64 1984 1984   64 1984 1024 1024 1024 1024 1024    0  \
         d17=0 d18=0 lost=0 fs=0  rx=4.9V ext=24.1V"
    );
    let mut frame = example_frame();
    frame.ch18 = true;
    frame.frame_lost = true;
    assert_eq!(
        plain_frame(&frame, &State::default()),
        "CH 1017 1006 1035 1014   64   64 1984 1984   64 1984 1024 1024 1024 1024 1024    0  \
         d17=0 d18=1 lost=1 fs=0  rx=--- ext=---"
    );
}

#[test]
fn hex_is_upper_case_and_separated_by_spaces() {
    assert_eq!(hex(&[0x0F, 0xA0, 0xFF, 0x00]), "0F A0 FF 00");
    assert_eq!(hex(&[0x9C]), "9C");
    assert_eq!(hex(&[]), "");
}

#[test]
fn the_closing_summary() {
    assert_eq!(
        summary(&example_state(), "66.5"),
        "frames=532 slots=133 unknown=0 desync=0 fps=66.5\nRx-Batt=4.9V Ext-Volt=24.1V"
    );
    assert_eq!(
        summary(&State::default(), "0.0"),
        "frames=0 slots=0 unknown=0 desync=0 fps=0.0\nRx-Batt=--- Ext-Volt=---"
    );
}

#[test]
fn large_counters_are_written_in_full() {
    let mut state = State::default();
    state.counters.frames = u64::MAX;
    state.counters.desync_bytes = 10_000_000_000;
    assert_eq!(
        summary(&state, "0.0"),
        "frames=18446744073709551615 slots=0 unknown=0 desync=10000000000 fps=0.0\n\
         Rx-Batt=--- Ext-Volt=---"
    );
}

#[test]
fn control_sequences_start_with_escape() {
    assert_eq!(CSI.as_bytes(), &[0x1B, 0x5B]);
}

#[test]
fn the_display_grows_once_a_frame_arrives() {
    let mut state = State::default();
    assert_eq!(lines(&state, "0.0", false).len(), 6);
    state.frame = Some(example_frame());
    assert_eq!(lines(&state, "0.0", false).len(), 12);
    assert_eq!(lines(&state, "0.0", true).len(), 12);
}
