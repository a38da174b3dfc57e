# sbus

Receive-only Futaba S.BUS / S.BUS2, verified with Verus. The target is the
S.BUS port (UART6 / CN2) of the namiashi rev2 board with its CH348L.

- 25-byte control frames: 16 analogue channels, ch17/18, frame_lost, failsafe.
- S.BUS2 telemetry slots: the receiver's own Rx-Batt and Ext-Volt.
- Dropped bytes are events of their own, so telemetry is never mistaken for
  noise without a trace.
- Only the two slot-0 markers whose meaning is known are decoded; everything
  else is handed on as raw bytes.

## Layout

| Place | What it holds |
| --- | --- |
| `src/frame.rs`, `src/slot.rs` | decoding of single units |
| `src/parser.rs`, `src/stream.rs` | the resynchronising parser, and what holds of every stream |
| `src/state.rs`, `src/driver.rs` | latest values and counters; a receive session |
| `src/discover.rs` | which tty is the S.BUS port |
| `src/render.rs`, `src/monitor.rs`, `src/text.rs` | what the monitor shows |
| `app/` | the `sbus-monitor` program: serial port, sysfs, ioctl, terminal |
| `tests/` | tests on concrete values |

Voltages are exact tenths of a volt, and the frame rate is an exact fraction;
floating point appears only where the program prints the rate.

## Using the library

```rust
use sbus::{Event, Parser};

let mut parser = Parser::new();
for event in parser.push_slice(&bytes) {
    if let Event::Frame { frame, .. } = event {
        // Telemetry keeps flowing with the transmitter off, so link health
        // must come from this flag, not from the voltages being present.
        if !frame.failsafe {
            println!("CH1={}", frame.channels[0]);
        }
    }
}
```
