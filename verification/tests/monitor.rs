use sbus::discover::Ch348Port;
use sbus::driver::{ReadOutcome, Sbus};
use sbus::frame::FRAME_LEN;
use sbus::monitor::{
    dump_event, dump_report, ports, replay, replay_report, Capture, MonitorOptions, Screen,
    HIDE_CURSOR, REDRAW_NANOS, SHOW_CURSOR,
};
use sbus::parser::{Event, Parser};
use sbus::state::State;

const FRAME_G0: [u8; FRAME_LEN] = [
    0x0F, 0xF9, 0x5B, 0xDF, 0x02, 0xED, 0x07, 0x04, 0x20, 0x00, 0x1F, 0xF8, 0x40, 0x00, 0x3E,
    0x00, 0x01, 0x08, 0x40, 0x00, 0x02, 0x10, 0x80, 0x00, 0x04,
];

const FRAME_HEX: &str =
    "0F F9 5B DF 02 ED 07 04 20 00 1F F8 40 00 3E 00 01 08 40 00 02 10 80 00 04";

const CHANNELS: &str =
    "CH 1017 1003 1035 1014   64   64 1984 1984   64 1984 1024 1024 1024 1024 1024 1024";

const OPTIONS: MonitorOptions = MonitorOptions {
    limit_nanos: None,
    count: None,
    plain: false,
    raw: false,
};

/// Noise, then frames with a known and an unknown slot response.
fn stream() -> Vec<u8> {
    let mut bytes = vec![0xAA];
    bytes.extend_from_slice(&FRAME_G0);
    bytes.extend_from_slice(&[0x03, 0xC4, 0xF1]);
    bytes.extend_from_slice(&[0x23, 0xC4, 0x0F]);
    bytes.extend_from_slice(&FRAME_G0);
    bytes.extend_from_slice(&[0x03, 0xC0, 0x31]);
    bytes
}

fn events() -> Vec<Event> {
    Parser::new().push_slice(&stream())
}

#[test]
fn ports_are_listed_with_a_mark_on_the_sbus_uart() {
    let found = vec![
        Ch348Port {
            path: "/dev/ttyCH9344USB3".to_string(),
            uart_index: 6,
        },
        Ch348Port {
            path: "/dev/ttyCH9344USB0".to_string(),
            uart_index: 16,
        },
        Ch348Port {
            path: "/dev/ttyUSB0".to_string(),
            uart_index: 260,
        },
    ];
    assert_eq!(
        ports(&found),
        [
            "UART6  /dev/ttyCH9344USB3  <- SBUS",
            "UART16 /dev/ttyCH9344USB0",
            "UART260 /dev/ttyUSB0",
        ]
    );
    assert_eq!(ports(&Vec::new()), ["no CH348 tty found"]);
}

#[test]
fn each_event_has_its_hexdump_line() {
    let dumped: Vec<String> = events().iter().map(dump_event).collect();
    assert_eq!(
        dumped,
        [
            "  desync: AA",
            FRAME_HEX,
            "  slot g0: 03 C4 F1  ext_volt=24.1V",
            "  slot g0: 23 C4 0F  slot4 unknown data C4 0F",
            FRAME_HEX,
            "  slot g0: 03 C0 31  rx_batt=4.9V",
        ]
    );
}

#[test]
fn raw_replay_shows_every_event() {
    for plain in [false, true] {
        let (lines, state) = replay(&stream(), true, plain);
        let dumped: Vec<String> = events().iter().map(dump_event).collect();
        assert_eq!(lines, dumped);
        assert_eq!(state.counters.frames, 2);
        assert_eq!(state.counters.slots, 3);
        assert_eq!(state.counters.unknown_slots, 1);
        assert_eq!(state.counters.desync_bytes, 1);
    }
}

#[test]
fn plain_replay_shows_each_frame_with_the_state_at_that_point() {
    let (lines, _) = replay(&stream(), false, true);
    assert_eq!(
        lines,
        [
            format!("{CHANNELS}  d17=0 d18=0 lost=0 fs=0  rx=--- ext=---"),
            format!("{CHANNELS}  d17=0 d18=0 lost=0 fs=0  rx=--- ext=24.1V"),
        ]
    );
    assert!(replay(&stream(), false, false).0.is_empty());
}

#[test]
fn live_plain_output_shows_each_frame_with_the_state_after_the_poll() {
    let state = replay(&stream(), false, false).1;
    let options = MonitorOptions {
        plain: true,
        ..OPTIONS
    };
    let line = format!("{CHANNELS}  d17=0 d18=0 lost=0 fs=0  rx=4.9V ext=24.1V");
    assert_eq!(options.printed(&events(), &state), [line.clone(), line]);
}

#[test]
fn live_raw_output_wins_over_plain_output() {
    let state = replay(&stream(), false, false).1;
    let dumped: Vec<String> = events().iter().map(dump_event).collect();
    for plain in [false, true] {
        let options = MonitorOptions {
            raw: true,
            plain,
            ..OPTIONS
        };
        assert_eq!(options.printed(&events(), &state), dumped);
    }
    assert!(OPTIONS.printed(&events(), &state).is_empty());
}

#[test]
fn only_the_display_is_redrawn() {
    assert!(OPTIONS.redraws());
    assert!(!MonitorOptions { raw: true, ..OPTIONS }.redraws());
    assert!(!MonitorOptions { plain: true, ..OPTIONS }.redraws());
    assert_eq!(REDRAW_NANOS, 50_000_000);
    assert!(OPTIONS.redraw_due(REDRAW_NANOS));
    assert!(!OPTIONS.redraw_due(REDRAW_NANOS - 1));
    assert!(!MonitorOptions { plain: true, ..OPTIONS }.redraw_due(REDRAW_NANOS));
}

#[test]
fn the_monitor_stops_after_the_frames_or_the_time_asked_for() {
    let mut state = State::default();
    state.counters.frames = 10;
    assert!(!OPTIONS.done(&state, u128::MAX));
    let counted = MonitorOptions {
        count: Some(10),
        ..OPTIONS
    };
    assert!(counted.done(&state, 0));
    state.counters.frames = 9;
    assert!(!counted.done(&state, u128::MAX));
    let limited = MonitorOptions {
        limit_nanos: Some(500),
        count: Some(10),
        ..OPTIONS
    };
    assert!(!limited.done(&state, 499));
    assert!(limited.done(&state, 500));
}

#[test]
fn the_screen_is_redrawn_in_place() {
    let mut screen = Screen::new();
    let first = vec!["a".to_string(), "bc".to_string()];
    assert_eq!(screen.draw(&first), "\x1b[2Ka\n\x1b[2Kbc\n");
    assert_eq!(screen.previous_lines, 2);
    let second = vec!["d".to_string()];
    assert_eq!(screen.draw(&second), "\x1b[2A\x1b[2Kd\n");
    assert_eq!(screen.draw(&Vec::new()), "\x1b[1A");
    assert_eq!(screen.draw(&Vec::new()), "");
    assert_eq!(HIDE_CURSOR, "\x1b[?25l");
    assert_eq!(SHOW_CURSOR, "\x1b[?25h");
}

#[test]
fn reports_name_the_file_and_its_size() {
    let state = State::default();
    assert_eq!(
        replay_report("capture.bin", 5374, &state, "0.0"),
        "capture.bin (5374 bytes)\nframes=0 slots=0 unknown=0 desync=0 fps=0.0\n\
         Rx-Batt=--- Ext-Volt=---"
    );
    assert_eq!(
        dump_report("capture.bin", 0, &state, "66.5"),
        "wrote 0 bytes to capture.bin\nframes=0 slots=0 unknown=0 desync=0 fps=66.5\n\
         Rx-Batt=--- Ext-Volt=---"
    );
}

#[test]
fn a_capture_records_the_bytes_as_read_until_its_time_is_up() {
    let mut capture = Capture::new(5_000);
    assert!(capture.bytes.is_empty());
    assert!(capture.wants_more(0));
    assert!(capture.wants_more(4_999));
    assert!(!capture.wants_more(5_000));
    assert!(!Capture::new(0).wants_more(0));
    for part in stream().chunks(7) {
        capture.record(part);
    }
    capture.record(&[]);
    assert_eq!(capture.bytes, stream());
    assert_eq!(capture.limit_nanos, 5_000);
}

#[test]
fn a_capture_replays_the_session_it_was_made_of() {
    let mut sbus = Sbus::new();
    let mut capture = Capture::new(u128::MAX);
    for part in stream().chunks(11) {
        capture.record(part);
        sbus.poll_raw(part, ReadOutcome::Read(part.len()));
    }
    assert_eq!(replay(&capture.bytes, false, false).1, *sbus.state());
}
