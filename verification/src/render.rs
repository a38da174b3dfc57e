//! Terminal rendering for the live monitor.
//!
//! Frame rates come in as text, already rounded to one decimal place by the
//! caller.

use vstd::prelude::*;
use vstd::string::StringExecFns;

use crate::frame::{raw_to_us, Frame, FrameModel, CHANNELS};
use crate::parser::EventModel;
use crate::slot::Volts;
use crate::state::{State, StateModel};
use crate::text::{decimal_text, join, push_decimal, push_hex, push_left_padded, push_repeated};

verus! {

broadcast use vstd::seq::group_seq_axioms;

/// ANSI control sequence introducer.
pub const CSI: &'static str = "\x1b[";

/// Width of a channel's bar.
pub const BAR_WIDTH_PLAIN: usize = 14;

/// Width of a channel's bar next to its pulse width.
pub const BAR_WIDTH_US: usize = 10;

/// A bar of `width` cells, filled in proportion to a raw channel value.
pub open spec fn bar_text(raw: int, width: int) -> Seq<char> {
    Seq::new(
        width as nat,
        |i: int|
            if i < raw * width / 2047 {
                '\u{2588}'
            } else {
                '\u{b7}'
            },
    )
}

/// A voltage with one decimal place.
pub open spec fn volts_number(volts: Volts) -> Seq<char> {
    crate::text::decimal(volts.tenths as nat / 10) + "."@ + crate::text::decimal(
        volts.tenths as nat % 10,
    )
}

/// A voltage that may not have been seen, in a column.
pub open spec fn volts_column(value: Option<Volts>) -> Seq<char> {
    match value {
        Some(v) => crate::text::pad_left(volts_number(v), 5) + "V"@,
        None => "  ---"@,
    }
}

/// A voltage that may not have been seen.
pub open spec fn volts_text(value: Option<Volts>) -> Seq<char> {
    match value {
        Some(v) => volts_number(v) + "V"@,
        None => "---"@,
    }
}

/// A digital channel.
pub open spec fn flag_text(value: bool) -> Seq<char> {
    if value {
        "●"@
    } else {
        "○"@
    }
}

/// A fault flag.
pub open spec fn warn_text(value: bool) -> Seq<char> {
    if value {
        "⚠YES"@
    } else {
        "no"@
    }
}

/// A flag as a digit.
pub open spec fn bit_text(value: bool) -> Seq<char> {
    if value {
        "1"@
    } else {
        "0"@
    }
}

/// The first line of the display: rate and counters.
pub open spec fn rate_line(state: StateModel, fps: Seq<char>) -> Seq<char> {
    "SBUS monitor  100000 8E2   "@ + crate::text::pad_left(fps, 5) + " fps   frames="@
        + crate::text::decimal(state.counters.frames) + " slots="@ + crate::text::decimal(
        state.counters.slots,
    ) + " desync="@ + crate::text::decimal(state.counters.desync_bytes)
}

/// The second line of the display: digital channels and faults.
pub open spec fn flags_line(state: StateModel) -> Seq<char> {
    match state.frame {
        Some(f) => "CH17:"@ + flag_text(f.ch17) + "  CH18:"@ + flag_text(f.ch18)
            + "   FRAME_LOST:"@ + warn_text(f.frame_lost) + "   FAILSAFE:"@ + warn_text(f.failsafe),
        None => "CH17:-  CH18:-   FRAME_LOST:-   FAILSAFE:-"@,
    }
}

/// The third line of the display: protocol and voltages.
pub open spec fn volts_line(state: StateModel) -> Seq<char> {
    (if state.sbus2 {
        "S.BUS2"@
    } else {
        "S.BUS1"@
    }) + "  Rx-Batt:"@ + volts_column(state.rx_battery_v) + "  Ext-Volt:"@ + volts_column(
        state.external_v,
    ) + (if state.counters.unknown_slots > 0 {
        "   unknown slots="@ + crate::text::decimal(state.counters.unknown_slots)
    } else {
        Seq::empty()
    })
}

/// Channel `k` (from 0) in the channel table.
pub open spec fn channel_cell(frame: FrameModel, k: int, show_us: bool) -> Seq<char> {
    let v = frame.channels[k];
    let head = "CH"@ + crate::text::pad_left(crate::text::decimal((k + 1) as nat), 2) + " "@
        + crate::text::pad_left(crate::text::decimal(v as nat), 4) + " "@;
    if show_us {
        head + crate::text::pad_left(
            crate::text::decimal(crate::frame::pulse_us(v as int) as nat),
            4,
        ) + "us "@ + bar_text(v as int, BAR_WIDTH_US as int)
    } else {
        head + bar_text(v as int, BAR_WIDTH_PLAIN as int)
    }
}

/// Row `row` (from 0) of the channel table: two channels side by side.
pub open spec fn channel_row(frame: FrameModel, row: int, show_us: bool) -> Seq<char> {
    "  "@ + channel_cell(frame, 2 * row, show_us) + "   "@ + channel_cell(
        frame,
        2 * row + 1,
        show_us,
    )
}

/// The lines above the channel table.
pub open spec fn header(state: StateModel, fps: Seq<char>) -> Seq<Seq<char>> {
    seq![
        rate_line(state, fps),
        flags_line(state),
        volts_line(state),
        crate::text::repeated('-', 62),
    ]
}

/// The full monitor display.
pub open spec fn display(state: StateModel, fps: Seq<char>, show_us: bool) -> Seq<Seq<char>> {
    match state.frame {
        None => header(state, fps) + seq![
            "  (SBUS フレーム待ち... 送信機/受信機を確認してください)"@,
            Seq::empty(),
        ],
        Some(frame) => header(state, fps) + Seq::new(
            8,
            |row: int| channel_row(frame, row, show_us),
        ),
    }
}

/// One line for one frame.
pub open spec fn frame_line(frame: FrameModel, state: StateModel) -> Seq<char> {
    "CH "@ + crate::text::joined(
        frame.channels.map_values(
            |v: u16| crate::text::pad_left(crate::text::decimal(v as nat), 4),
        ),
        " "@,
    ) + "  d17="@ + bit_text(frame.ch17) + " d18="@ + bit_text(frame.ch18) + " lost="@ + bit_text(
        frame.frame_lost,
    ) + " fs="@ + bit_text(frame.failsafe) + "  rx="@ + volts_text(state.rx_battery_v) + " ext="@
        + volts_text(state.external_v)
}

/// Bytes in hexadecimal, separated by spaces.
pub open spec fn hex_text(bytes: Seq<u8>) -> Seq<char> {
    crate::text::joined(bytes.map_values(|b: u8| crate::text::hex_byte(b)), " "@)
}

/// The closing summary.
pub open spec fn summary_text(state: StateModel, fps: Seq<char>) -> Seq<char> {
    "frames="@ + crate::text::decimal(state.counters.frames) + " slots="@ + crate::text::decimal(
        state.counters.slots,
    ) + " unknown="@ + crate::text::decimal(state.counters.unknown_slots) + " desync="@
        + crate::text::decimal(state.counters.desync_bytes) + " fps="@ + fps + "\nRx-Batt="@
        + volts_text(state.rx_battery_v) + " Ext-Volt="@ + volts_text(state.external_v)
}

/// A bar of `width` cells, filled in proportion to `raw`.
pub fn bar(raw: u16, width: usize) -> (text: String)
    requires
        raw * width <= usize::MAX,
    ensures
        text@ == bar_text(raw as int, width as int),
{
    let filled: usize = (raw as usize * width) / 2047;
    let mut text = String::new();
    proof {
        reveal_strlit("█");
        reveal_strlit("·");
    }
    assert(text@ =~= bar_text(raw as int, width as int).take(0));
    for i in 0..width
        invariant
            filled == raw * width / 2047,
            "█"@.len() == 1 && "█"@[0] == '\u{2588}',
            "·"@.len() == 1 && "·"@[0] == '\u{b7}',
            text@ == bar_text(raw as int, width as int).take(i as int),
    {
        text.append(
            if i < filled {
                "█"
            } else {
                "·"
            },
        );
        assert(text@ =~= bar_text(raw as int, width as int).take(i + 1));
    }
    assert(text@ =~= bar_text(raw as int, width as int));
    text
}

/// Append a voltage with one decimal place.
pub(crate) fn push_volts_number(out: &mut String, volts: Volts)
    ensures
        final(out)@ == old(out)@ + volts_number(volts),
{
    push_decimal(out, (volts.tenths / 10) as u64);
    out.append(".");
    push_decimal(out, (volts.tenths % 10) as u64);
    assert(out@ =~= old(out)@ + volts_number(volts));
}

/// A voltage in a column of its own, for the display.
pub fn volts(value: Option<Volts>) -> (text: String)
    ensures
        text@ == volts_column(value),
{
    match value {
        Some(v) => {
            let mut number = String::new();
            push_volts_number(&mut number, v);
            assert(number@ =~= volts_number(v));
            let mut text = String::new();
            push_left_padded(&mut text, number.as_str(), 5);
            text.append("V");
            assert(text@ =~= volts_column(value));
            text
        },
        None => String::from_str("  ---"),
    }
}

/// A voltage in running text.
fn volts_trimmed(value: Option<Volts>) -> (text: String)
    ensures
        text@ == volts_text(value),
{
    match value {
        Some(v) => {
            let mut text = String::new();
            push_volts_number(&mut text, v);
            text.append("V");
            assert(text@ =~= volts_text(value));
            text
        },
        None => String::from_str("---"),
    }
}

/// A digital channel.
pub fn flag(value: bool) -> (text: &'static str)
    ensures
        text@ == flag_text(value),
{
    if value {
        "●"
    } else {
        "○"
    }
}

/// A fault flag.
pub fn warn(value: bool) -> (text: &'static str)
    ensures
        text@ == warn_text(value),
{
    if value {
        "⚠YES"
    } else {
        "no"
    }
}

fn bit(value: bool) -> (text: &'static str)
    ensures
        text@ == bit_text(value),
{
    if value {
        "1"
    } else {
        "0"
    }
}

fn rate_line_text(state: &State, fps: &str) -> (text: String)
    ensures
        text@ == rate_line(state@, fps@),
{
    let mut text = String::from_str("SBUS monitor  100000 8E2   ");
    push_left_padded(&mut text, fps, 5);
    text.append(" fps   frames=");
    push_decimal(&mut text, state.counters.frames);
    text.append(" slots=");
    push_decimal(&mut text, state.counters.slots);
    text.append(" desync=");
    push_decimal(&mut text, state.counters.desync_bytes);
    text
}

fn flags_line_text(state: &State) -> (text: String)
    ensures
        text@ == flags_line(state@),
{
    match state.frame {
        Some(f) => {
            let mut text = String::from_str("CH17:");
            text.append(flag(f.ch17));
            text.append("  CH18:");
            text.append(flag(f.ch18));
            text.append("   FRAME_LOST:");
            text.append(warn(f.frame_lost));
            text.append("   FAILSAFE:");
            text.append(warn(f.failsafe));
            text
        },
        None => String::from_str("CH17:-  CH18:-   FRAME_LOST:-   FAILSAFE:-"),
    }
}

fn volts_line_text(state: &State) -> (text: String)
    ensures
        text@ == volts_line(state@),
{
    let mut text = String::from_str(
        if state.sbus2 {
            "S.BUS2"
        } else {
            "S.BUS1"
        },
    );
    text.append("  Rx-Batt:");
    text.append(volts(state.rx_battery_v).as_str());
    text.append("  Ext-Volt:");
    text.append(volts(state.external_v).as_str());
    if state.counters.unknown_slots > 0 {
        text.append("   unknown slots=");
        push_decimal(&mut text, state.counters.unknown_slots);
    }
    assert(text@ =~= volts_line(state@));
    text
}

fn channel_cell_text(frame: &Frame, k: usize, show_us: bool) -> (text: String)
    requires
        k < CHANNELS,
    ensures
        text@ == channel_cell(frame@, k as int, show_us),
{
    let v: u16 = frame.channels[k];
    let mut text = String::from_str("CH");
    push_left_padded(&mut text, decimal_text((k + 1) as u64).as_str(), 2);
    text.append(" ");
    push_left_padded(&mut text, decimal_text(v as u64).as_str(), 4);
    text.append(" ");
    if show_us {
        push_left_padded(&mut text, decimal_text(raw_to_us(v) as u64).as_str(), 4);
        text.append("us ");
        text.append(bar(v, BAR_WIDTH_US).as_str());
    } else {
        text.append(bar(v, BAR_WIDTH_PLAIN).as_str());
    }
    text
}

/// The full monitor display as individual lines.
pub fn lines(state: &State, fps: &str, show_us: bool) -> (out: Vec<String>)
    ensures
        crate::text::texts(out@) == display(state@, fps@, show_us),
{
    let mut rule = String::new();
    proof {
        reveal_strlit("-");
    }
    push_repeated(&mut rule, "-", 62);
    assert(rule@ =~= crate::text::repeated('-', 62));
    let mut out: Vec<String> = Vec::new();
    out.push(rate_line_text(state, fps));
    out.push(flags_line_text(state));
    out.push(volts_line_text(state));
    out.push(rule);
    let ghost head = header(state@, fps@);
    assert(crate::text::texts(out@) =~= head);

    match &state.frame {
        None => {
            out.push(
                String::from_str("  (SBUS フレーム待ち... 送信機/受信機を確認してください)"),
            );
            out.push(String::new());
            assert(crate::text::texts(out@) =~= display(state@, fps@, show_us));
        },
        Some(frame) => {
            let ghost rows = Seq::new(8, |row: int| channel_row(frame@, row, show_us));
            assert(rows.take(0) =~= Seq::empty());
            assert(head + rows.take(0) =~= head);
            for row in 0..8usize
                invariant
                    rows == Seq::new(8, |row: int| channel_row(frame@, row, show_us)),
                    crate::text::texts(out@) == head + rows.take(row as int),
            {
                let mut line = String::from_str("  ");
                line.append(channel_cell_text(frame, 2 * row, show_us).as_str());
                line.append("   ");
                line.append(channel_cell_text(frame, 2 * row + 1, show_us).as_str());
                proof {
                    crate::text::lemma_texts_push(out@, line);
                    assert(head + rows.take(row + 1) =~= (head + rows.take(row as int)).push(
                        rows[row as int],
                    ));
                }
                out.push(line);
            }
            assert(rows.take(8) =~= rows);
        },
    }
    out
}

/// One line per frame, for plain output.
pub fn plain_frame(frame: &Frame, state: &State) -> (text: String)
    ensures
        text@ == frame_line(frame@, state@),
{
    let ghost columns = frame@.channels.map_values(
        |v: u16| crate::text::pad_left(crate::text::decimal(v as nat), 4),
    );
    let mut channels: Vec<String> = Vec::new();
    assert(crate::text::texts(channels@) =~= columns.take(0));
    for i in 0..CHANNELS
        invariant
            columns == frame@.channels.map_values(
                |v: u16| crate::text::pad_left(crate::text::decimal(v as nat), 4),
            ),
            crate::text::texts(channels@) == columns.take(i as int),
    {
        let mut column = String::new();
        push_left_padded(&mut column, decimal_text(frame.channels[i] as u64).as_str(), 4);
        assert(column@ =~= columns[i as int]);
        proof {
            crate::text::lemma_texts_push(channels@, column);
            assert(columns.take(i + 1) =~= columns.take(i as int).push(columns[i as int]));
        }
        channels.push(column);
    }
    assert(columns.take(CHANNELS as int) =~= columns);
    let mut text = String::from_str("CH ");
    text.append(join(&channels, " ").as_str());
    text.append("  d17=");
    text.append(bit(frame.ch17));
    text.append(" d18=");
    text.append(bit(frame.ch18));
    text.append(" lost=");
    text.append(bit(frame.frame_lost));
    text.append(" fs=");
    text.append(bit(frame.failsafe));
    text.append("  rx=");
    text.append(volts_trimmed(state.rx_battery_v).as_str());
    text.append(" ext=");
    text.append(volts_trimmed(state.external_v).as_str());
    text
}

/// Space-separated uppercase hex, for raw output.
pub fn hex(bytes: &[u8]) -> (text: String)
    ensures
        text@ == hex_text(bytes@),
{
    let ghost pairs = bytes@.map_values(|b: u8| crate::text::hex_byte(b));
    let mut parts: Vec<String> = Vec::new();
    assert(crate::text::texts(parts@) =~= pairs.take(0));
    for i in 0..bytes.len()
        invariant
            pairs == bytes@.map_values(|b: u8| crate::text::hex_byte(b)),
            crate::text::texts(parts@) == pairs.take(i as int),
    {
        let mut pair = String::new();
        push_hex(&mut pair, bytes[i]);
        assert(pair@ =~= pairs[i as int]);
        proof {
            crate::text::lemma_texts_push(parts@, pair);
            assert(pairs.take(i + 1) =~= pairs.take(i as int).push(pairs[i as int]));
        }
        parts.push(pair);
    }
    assert(pairs.take(pairs.len() as int) =~= pairs);
    join(&parts, " ")
}

/// Closing summary, shared by every subcommand.
pub fn summary(state: &State, fps: &str) -> (text: String)
    ensures
        text@ == summary_text(state@, fps@),
{
    let mut text = String::from_str("frames=");
    push_decimal(&mut text, state.counters.frames);
    text.append(" slots=");
    push_decimal(&mut text, state.counters.slots);
    text.append(" unknown=");
    push_decimal(&mut text, state.counters.unknown_slots);
    text.append(" desync=");
    push_decimal(&mut text, state.counters.desync_bytes);
    text.append(" fps=");
    text.append(fps);
    text.append("\nRx-Batt=");
    text.append(volts_trimmed(state.rx_battery_v).as_str());
    text.append(" Ext-Volt=");
    text.append(volts_trimmed(state.external_v).as_str());
    text
}

/// The display is a header of three lines over a rule, and below it the channel
/// table of eight lines, or two lines until the first frame arrives.
pub proof fn law_display_height(state: StateModel, fps: Seq<char>, show_us: bool)
    ensures
        display(state, fps, show_us).len() == 3 + 1 + (if state.frame is Some {
            8int
        } else {
            2
        }),
{
}

/// The display never shrinks as events arrive, so redrawing it in place leaves
/// no stale line below.
pub proof fn law_display_never_shrinks(
    state: StateModel,
    events: Seq<EventModel>,
    fps: Seq<char>,
    later_fps: Seq<char>,
    show_us: bool,
)
    ensures
        display(state, fps, show_us).len() <= display(
            state.fold(events),
            later_fps,
            show_us,
        ).len(),
    decreases events.len(),
{
    if events.len() > 0 {
        law_display_never_shrinks(state, events.drop_last(), fps, later_fps, show_us);
    }
}

/// A cell of a bar is filled exactly where the value reaches it: 2047 fills the
/// whole bar, and each filled cell stands for an equal part of that.
pub proof fn law_bars_fill_in_proportion(raw: int, width: int, i: int)
    requires
        0 <= raw,
        0 <= i < width,
    ensures
        bar_text(raw, width).len() == width,
        2047 * (i + 1) <= raw * width <==> bar_text(raw, width)[i] as int == 0x2588,
        2047 * (i + 1) > raw * width <==> bar_text(raw, width)[i] as int == 0xB7,
{
}

/// A voltage is read back from its text: whole volts, a point and one digit of
/// tenths. In its column it ends with the unit and takes six characters, or
/// reads as dashes where there is none.
pub proof fn law_voltages_read_back(volts: Volts)
    ensures
        ({
            let text = volts_number(volts);
            let point = text.len() - 2;
            &&& text.len() >= 3
            &&& text[point] as int == 46
            &&& 10 * crate::text::read_decimal(text.take(point)) + crate::text::read_decimal(
                text.skip(point + 1),
            ) == volts.tenths
            &&& volts_text(Some(volts)) == text + "V"@
            &&& volts_column(Some(volts)) == crate::text::pad_left(text, 5) + "V"@
            &&& volts_column(Some(volts)).len() == 6
            &&& volts_text(None) == "---"@
            &&& volts_column(None) == "  ---"@
        }),
{
    reveal_strlit(".");
    reveal_strlit("V");
    let text = volts_number(volts);
    let whole = volts.tenths as nat / 10;
    let tenths = volts.tenths as nat % 10;
    crate::text::law_decimals_read_back(whole);
    crate::text::law_decimals_read_back(tenths);
    crate::text::lemma_decimal_len(whole);
    crate::text::lemma_decimal_len(tenths);
    assert(text.take(text.len() - 2) =~= crate::text::decimal(whole));
    assert(text.skip(text.len() - 1) =~= crate::text::decimal(tenths));
}

/// A hexdump gives each byte, in order, two digits from which it is read back,
/// with one space between two bytes.
pub proof fn law_hexdumps_read_back(bytes: Seq<u8>, i: int)
    requires
        0 <= i < bytes.len(),
    ensures
        ({
            let text = hex_text(bytes);
            &&& text.len() == 3 * bytes.len() - 1
            &&& crate::discover::hex_digit_value(text[3 * i]) == Some((bytes[i] / 16) as nat)
            &&& crate::discover::hex_digit_value(text[3 * i + 1]) == Some((bytes[i] % 16) as nat)
            &&& (text[3 * i] as int) < 97
            &&& (text[3 * i + 1] as int) < 97
            &&& i < bytes.len() - 1 ==> text[3 * i + 2] as int == 32
        }),
{
    reveal_strlit(" ");
    let pairs = bytes.map_values(|b: u8| crate::text::hex_byte(b));
    crate::text::lemma_columns(pairs, " "@, 2, i);
    crate::text::law_hex_bytes_read_back(bytes[i]);
    let text = hex_text(bytes);
    assert(pairs[i] == crate::text::hex_byte(bytes[i]));
    assert(text.subrange(i * 3, i * 3 + 2)[0] == pairs[i][0]);
    assert(text.subrange(i * 3, i * 3 + 2)[1] == pairs[i][1]);
}

/// No bytes give an empty hexdump.
pub proof fn law_an_empty_hexdump_is_empty()
    ensures
        hex_text(Seq::empty()) == Seq::<char>::empty(),
{
}

/// The first three lines of the display show the rate with the counters, the
/// digital channels with the faults, and the protocol with the voltages, each
/// in its own place; a rule of 62 dashes is below.
pub proof fn law_the_header_shows_the_state(state: StateModel, fps: Seq<char>, show_us: bool)
    ensures
        ({
            let lines = display(state, fps, show_us);
            let c = state.counters;
            &&& lines[0] == "SBUS monitor  100000 8E2   "@ + crate::text::pad_left(fps, 5)
                + " fps   frames="@ + crate::text::decimal(c.frames) + " slots="@
                + crate::text::decimal(c.slots) + " desync="@ + crate::text::decimal(c.desync_bytes)
            &&& state.frame matches Some(f) ==> lines[1] == "CH17:"@ + (if f.ch17 {
                "●"@
            } else {
                "○"@
            }) + "  CH18:"@ + (if f.ch18 {
                "●"@
            } else {
                "○"@
            }) + "   FRAME_LOST:"@ + (if f.frame_lost {
                "⚠YES"@
            } else {
                "no"@
            }) + "   FAILSAFE:"@ + (if f.failsafe {
                "⚠YES"@
            } else {
                "no"@
            })
            &&& state.frame is None ==> lines[1] == "CH17:-  CH18:-   FRAME_LOST:-   FAILSAFE:-"@
            &&& lines[2] == (if state.sbus2 {
                "S.BUS2"@
            } else {
                "S.BUS1"@
            }) + "  Rx-Batt:"@ + volts_column(state.rx_battery_v) + "  Ext-Volt:"@ + volts_column(
                state.external_v,
            ) + (if c.unknown_slots == 0 {
                Seq::empty()
            } else {
                "   unknown slots="@ + crate::text::decimal(c.unknown_slots)
            })
            &&& lines[3].len() == 62
            &&& forall|i: int| 0 <= i < 62 ==> #[trigger] lines[3][i] as int == 45
            &&& state.frame is None ==> lines[4]
                == "  (SBUS フレーム待ち... 送信機/受信機を確認してください)"@
                && lines[5].len() == 0
        }),
{
}

proof fn lemma_row(left: Seq<char>, right: Seq<char>)
    ensures
        ({
            let row = "  "@ + left + "   "@ + right;
            let middle = 2 + left.len() as int;
            &&& row.len() == middle + 3 + right.len()
            &&& row.take(2) == "  "@
            &&& row.subrange(2, middle) == left
            &&& row.subrange(middle, middle + 3) == "   "@
            &&& row.skip(middle + 3) == right
        }),
{
    reveal_strlit("  ");
    reveal_strlit("   ");
    let row = "  "@ + left + "   "@ + right;
    let middle = 2 + left.len() as int;
    assert(row.take(2) =~= "  "@);
    assert(row.subrange(2, middle) =~= left);
    assert(row.subrange(middle, middle + 3) =~= "   "@);
    assert(row.skip(middle + 3) =~= right);
}

/// Every channel is shown once, at its own place: line `4 + k / 2` holds two
/// cells and nothing else, and channel `k` is the left one where `k` is even and
/// the right one where it is odd. Its cell carries the label `k + 1` and the
/// channel's own value, with the pulse width if asked for, and the bar of that
/// value.
#[verifier::spinoff_prover]
pub proof fn law_each_channel_is_shown_at_its_place(
    state: StateModel,
    fps: Seq<char>,
    show_us: bool,
    k: int,
)
    requires
        state.frame is Some,
        0 <= k < 16,
    ensures
        ({
            let row = display(state, fps, show_us)[4 + k / 2];
            let channels = (state.frame->0).channels;
            let cell = |n: int|
                {
                    let head = "CH"@ + crate::text::pad_left(
                        crate::text::decimal((n + 1) as nat),
                        2,
                    ) + " "@ + crate::text::pad_left(crate::text::decimal(channels[n] as nat), 4)
                        + " "@;
                    if show_us {
                        head + crate::text::pad_left(
                            crate::text::decimal(
                                crate::frame::pulse_us(channels[n] as int) as nat,
                            ),
                            4,
                        ) + "us "@ + bar_text(channels[n] as int, 10)
                    } else {
                        head + bar_text(channels[n] as int, 14)
                    }
                };
            &&& k % 2 == 0 ==> {
                &&& row.len() == 2 + cell(k).len() + 3 + cell(k + 1).len()
                &&& row.take(2) == "  "@
                &&& row.subrange(2, 2 + cell(k).len() as int) == cell(k)
            }
            &&& k % 2 == 1 ==> {
                &&& row.len() == 2 + cell(k - 1).len() + 3 + cell(k).len()
                &&& row.subrange(2 + cell(k - 1).len() as int, 5 + cell(k - 1).len() as int)
                    == "   "@
                &&& row.skip(5 + cell(k - 1).len() as int) == cell(k)
            }
        }),
{
    let frame = state.frame->0;
    let left = 2 * (k / 2);
    let row = display(state, fps, show_us)[4 + k / 2];
    assert(row == channel_row(frame, k / 2, show_us));
    lemma_row(channel_cell(frame, left, show_us), channel_cell(frame, left + 1, show_us));
}

/// A plain line gives each channel a column of four characters, in order, then
/// each flag a digit of its own, and then both voltages.
pub proof fn law_plain_lines_show_the_frame(frame: FrameModel, state: StateModel, i: int)
    requires
        frame.channels.len() == 16,
        forall|k: int| 0 <= k < 16 ==> #[trigger] frame.channels[k] <= 2047,
        0 <= i < 16,
    ensures
        ({
            let line = frame_line(frame, state);
            &&& line.len() >= 107
            &&& line.take(3) == "CH "@
            &&& line.subrange(3 + 5 * i, 7 + 5 * i) == crate::text::pad_left(
                crate::text::decimal(frame.channels[i] as nat),
                4,
            )
            &&& i < 15 ==> line[7 + 5 * i] as int == 32
            &&& line.subrange(82, 88) == "  d17="@
            &&& line[88] as int == if frame.ch17 {
                49int
            } else {
                48
            }
            &&& line.subrange(89, 94) == " d18="@
            &&& line[94] as int == if frame.ch18 {
                49int
            } else {
                48
            }
            &&& line.subrange(95, 101) == " lost="@
            &&& line[101] as int == if frame.frame_lost {
                49int
            } else {
                48
            }
            &&& line.subrange(102, 106) == " fs="@
            &&& line[106] as int == if frame.failsafe {
                49int
            } else {
                48
            }
            &&& line.skip(107) == "  rx="@ + volts_text(state.rx_battery_v) + " ext="@ + volts_text(
                state.external_v,
            )
        }),
{
    reveal_strlit("CH ");
    reveal_strlit(" ");
    reveal_strlit("  d17=");
    reveal_strlit(" d18=");
    reveal_strlit(" lost=");
    reveal_strlit(" fs=");
    reveal_strlit("0");
    reveal_strlit("1");
    let columns = frame.channels.map_values(
        |v: u16| crate::text::pad_left(crate::text::decimal(v as nat), 4),
    );
    assert forall|k: int| 0 <= k < columns.len() implies (#[trigger] columns[k]).len() == 4 by {
        crate::text::lemma_decimal_len(frame.channels[k] as nat);
    }
    crate::text::lemma_columns(columns, " "@, 4, i);
    let all = crate::text::joined(columns, " "@);
    assert(all.len() == 79);
    let line = frame_line(frame, state);
    let tail = "  rx="@ + volts_text(state.rx_battery_v) + " ext="@ + volts_text(state.external_v);
    let flags = "  d17="@ + bit_text(frame.ch17) + " d18="@ + bit_text(frame.ch18) + " lost="@
        + bit_text(frame.frame_lost) + " fs="@ + bit_text(frame.failsafe);
    assert(flags.len() == 25);
    assert(line =~= "CH "@ + all + flags + tail);
    assert(line.take(3) =~= "CH "@);
    assert(line.subrange(3 + 5 * i, 7 + 5 * i) =~= all.subrange(5 * i, 5 * i + 4));
    if i < 15 {
        assert(line[7 + 5 * i] == all[5 * i + 4]);
    }
    assert(line.subrange(82, 88) =~= "  d17="@);
    assert(line.subrange(89, 94) =~= " d18="@);
    assert(line.subrange(95, 101) =~= " lost="@);
    assert(line.subrange(102, 106) =~= " fs="@);
    assert(line.skip(107) =~= tail);
}

/// The summary shows each counter, the rate and each voltage under its own name.
pub proof fn law_the_summary_shows_the_totals(state: StateModel, fps: Seq<char>)
    ensures
        summary_text(state, fps) == "frames="@ + crate::text::decimal(state.counters.frames)
            + " slots="@ + crate::text::decimal(state.counters.slots) + " unknown="@
            + crate::text::decimal(state.counters.unknown_slots) + " desync="@
            + crate::text::decimal(state.counters.desync_bytes) + " fps="@ + fps + "\nRx-Batt="@
            + volts_text(state.rx_battery_v) + " Ext-Volt="@ + volts_text(state.external_v),
{
}

} // verus!
