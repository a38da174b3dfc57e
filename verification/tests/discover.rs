use sbus::discover::{
    candidate_nodes, find_sbus_port, find_uart, is_ch348, list_ch348_ports, parse_vendor_id,
    vendor_step, Ch348Port, DiscoveryError, Probe, VendorStep, CH348_VID, SBUS_UART_INDEX,
    VENDOR_SEARCH_DEPTH,
};

fn port(path: &str, uart_index: u16) -> Ch348Port {
    Ch348Port {
        path: path.to_string(),
        uart_index,
    }
}

fn probe(path: &str, vendor: Option<u16>, uart_index: Option<u16>) -> Probe {
    Probe {
        path: path.to_string(),
        vendor,
        uart_index,
    }
}

fn names(list: &[&str]) -> Vec<Vec<u8>> {
    list.iter().map(|n| n.as_bytes().to_vec()).collect()
}

#[test]
fn constants_of_the_board() {
    assert_eq!(CH348_VID, 0x1A86);
    assert_eq!(SBUS_UART_INDEX, 6);
    assert_eq!(VENDOR_SEARCH_DEPTH, 8);
}

#[test]
fn only_usb_serial_nodes_are_candidates_and_they_are_sorted() {
    let found = candidate_nodes(names(&[
        "ttyUSB1",
        "ttyS0",
        "ttyCH9344USB7",
        "ttyUSB0",
        "ttyUSB10",
        "ttyUS",
        "null",
        "ttyCH9344USB10",
        "xttyUSB0",
        "ttyUSB",
    ]));
    assert_eq!(
        found,
        names(&[
            "ttyCH9344USB10",
            "ttyCH9344USB7",
            "ttyUSB",
            "ttyUSB0",
            "ttyUSB1",
            "ttyUSB10",
        ])
    );
    assert!(candidate_nodes(Vec::new()).is_empty());
}

#[test]
fn names_that_are_not_text_are_candidates_by_their_prefix() {
    let odd = vec![b't', b't', b'y', b'U', b'S', b'B', 0xFF];
    let list = vec![odd.clone(), b"ttyUSBz".to_vec(), odd.clone()];
    assert_eq!(
        candidate_nodes(list),
        vec![b"ttyUSBz".to_vec(), odd.clone(), odd]
    );
}

#[test]
fn only_wch_nodes_are_asked() {
    assert!(is_ch348(Some(0x1A86)));
    assert!(!is_ch348(Some(0x0403)));
    assert!(!is_ch348(None));
}

#[test]
fn ports_are_listed_by_uart_and_others_skipped() {
    let found = list_ch348_ports(&vec![
        probe("/dev/ttyCH9344USB0", Some(CH348_VID), Some(6)),
        probe("/dev/ttyCH9344USB1", Some(CH348_VID), None),
        probe("/dev/ttyCH9344USB2", Some(CH348_VID), Some(0)),
        probe("/dev/ttyCH9344USB3", Some(CH348_VID), Some(6)),
        probe("/dev/ttyUSB0", Some(0x0403), Some(1)),
        probe("/dev/ttyUSB1", None, Some(2)),
        probe("/dev/ttyUSB2", Some(CH348_VID), Some(3)),
    ]);
    assert_eq!(
        found,
        vec![
            port("/dev/ttyCH9344USB2", 0),
            port("/dev/ttyUSB2", 3),
            port("/dev/ttyCH9344USB0", 6),
            port("/dev/ttyCH9344USB3", 6),
        ]
    );
    assert!(list_ch348_ports(&Vec::new()).is_empty());
}

#[test]
fn the_only_claimant_is_chosen_whatever_its_name() {
    let ports = vec![port("/dev/ttyCH9344USB6", 0), port("/dev/ttyCH9344USB3", 6)];
    assert_eq!(find_sbus_port(&ports), Ok("/dev/ttyCH9344USB3".to_string()));
    assert_eq!(find_uart(&ports, 0), Ok("/dev/ttyCH9344USB6".to_string()));
}

#[test]
fn no_ports_is_an_error() {
    let error = find_sbus_port(&Vec::new()).unwrap_err();
    assert_eq!(error, DiscoveryError::NoPorts);
    assert_eq!(
        error.message(),
        "no CH348 (VID 0x1a86) tty found; is the ch9344 driver loaded?"
    );
}

#[test]
fn a_missing_uart_is_an_error_that_lists_what_there_is() {
    let ports = vec![port("/dev/a", 0), port("/dev/b", 3), port("/dev/c", 17)];
    let error = find_sbus_port(&ports).unwrap_err();
    assert_eq!(
        error,
        DiscoveryError::NoSuchUart {
            index: 6,
            available: vec![0, 3, 17]
        }
    );
    assert_eq!(
        error.message(),
        "no CH348 tty with UART index 6; found indices [0, 3, 17]"
    );
}

#[test]
fn an_ambiguous_uart_is_an_error_that_names_two_claimants() {
    let ports = vec![
        port("/dev/z", 0),
        port("/dev/a", 6),
        port("/dev/b", 6),
        port("/dev/c", 6),
    ];
    let error = find_uart(&ports, 6).unwrap_err();
    assert_eq!(
        error,
        DiscoveryError::Ambiguous {
            index: 6,
            first: "/dev/a".to_string(),
            second: "/dev/b".to_string()
        }
    );
    assert_eq!(
        error.message(),
        "UART index 6 is ambiguous: /dev/a and /dev/b both claim it; \
         connect a single board or pass an explicit port"
    );
}

#[test]
fn the_vendor_is_searched_in_eight_directories() {
    for level in 0..7 {
        assert_eq!(vendor_step(level, true), VendorStep::Read);
        assert_eq!(vendor_step(level, false), VendorStep::Ascend);
    }
    assert_eq!(vendor_step(7, true), VendorStep::Read);
    assert_eq!(vendor_step(7, false), VendorStep::Stop);
    assert_eq!(vendor_step(8, true), VendorStep::Stop);
}

#[test]
fn vendor_ids_are_hexadecimal() {
    assert_eq!(parse_vendor_id("1a86\n"), Some(0x1A86));
    assert_eq!(parse_vendor_id(" \t1A86 \r\n"), Some(0x1A86));
    assert_eq!(parse_vendor_id("+1a86"), Some(0x1A86));
    assert_eq!(parse_vendor_id("00001a86"), Some(0x1A86));
    assert_eq!(parse_vendor_id("ffff"), Some(0xFFFF));
    assert_eq!(parse_vendor_id("\u{3000}6\u{a0}"), Some(6));
    for bad in ["", " ", "+", "-1", "10000", "0x1a86", "1a 86", "g", "++1", "1\u{661}"] {
        assert_eq!(parse_vendor_id(bad), None, "{bad:?}");
    }
}

#[test]
fn vendor_ids_agree_with_the_standard_parser() {
    for text in [
        "1a86", "1A86\n", "\n\n0\n", "fffff", "0000000001", "+0", "+ 0", "\u{85}7\u{2028}", "7\u{200b}",
        "１", "ffff\u{feff}", "\u{1680}aBcD\u{205f}", "\u{180e}1", "\u{1f}1", "\u{c}1\u{b}",
    ] {
        assert_eq!(
            parse_vendor_id(text),
            u16::from_str_radix(text.trim(), 16).ok(),
            "{text:?}"
        );
    }
}
