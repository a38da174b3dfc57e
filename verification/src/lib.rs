//! Receiving Futaba S.BUS / S.BUS2 on an inverted TTL UART.
//!
//! The library performs no I/O: it decodes a byte stream into control frames
//! and S.BUS2 telemetry slot responses, keeps the latest values and counters,
//! chooses the right port among those that a machine has, and writes what a
//! monitor shows. Every function states what it returns in its contract, and
//! the contracts are proved.
//!
//! # Wire format
//!
//! ## Control frame: 25 bytes, no checksum
//!
//! ```text
//! offset  0     1                      22   23     24
//!        +-----+----------------------+----+------+--------+
//!        | 0x0F| 16ch x 11bit = 22B        | flags| footer |
//!        +-----+----------------------+----+------+--------+
//! ```
//!
//! The footer distinguishes plain S.BUS (`0x00`) from S.BUS2
//! (`0x04`/`0x14`/`0x24`/`0x34`, encoding telemetry slot group 0..=3).
//!
//! ## S.BUS2 telemetry slot response: 3 bytes
//!
//! ```text
//! +---------+-------+-------+
//! | slot ID | data0 | data1 |
//! +---------+-------+-------+
//! ```
//!
//! Slot responses arrive roughly 2 ms *after* the control frame whose footer
//! selected their group, so a decoder cannot assume frame and slots land in
//! the same read. [`Parser`] handles the interleaving.
//!
//! # Modules
//!
//! - [`frame`] and [`slot`] decode single units.
//! - [`parser`] finds the units in a stream, and [`stream`] states what holds
//!   of every stream.
//! - [`state`] aggregates events; [`driver`] runs a receive session.
//! - [`discover`] chooses the port.
//! - [`render`] and [`monitor`] write what the monitor program shows, with the
//!   help of [`text`].

pub mod discover;
pub mod driver;
pub mod frame;
pub mod monitor;
pub mod parser;
pub mod render;
pub mod slot;
pub mod state;
pub mod stream;
pub mod text;

pub use discover::{
    find_sbus_port, find_uart, list_ch348_ports, Ch348Port, DiscoveryError, CH348_VID,
    SBUS_UART_INDEX,
};
pub use driver::{Sbus, BAUD};
pub use frame::{raw_to_us, Footer, Frame, FrameError, FRAME_LEN, START};
pub use parser::{Event, Parser};
pub use slot::{
    slot_id, slot_index, SlotResponse, Telemetry, Volts, MARKER_EXTERNAL_VOLTAGE,
    MARKER_RX_BATTERY, SLOT_COUNT, SLOT_LEN, VOLT_LSB_TENTHS,
};
pub use state::{Counters, State};
