//! What the monitor program prints, draws and decides.

use vstd::prelude::*;
use vstd::string::StringExecFns;

use crate::discover::{Ch348Port, PortModel, SBUS_UART_INDEX};
use crate::driver::{SbusModel, Turn};
use crate::parser::{Event, EventModel, Parser, ParserModel};
use crate::render::{hex, plain_frame, push_volts_number, summary, CSI};
use crate::slot::{SlotModel, SlotResponse, Telemetry, TelemetryModel};
use crate::state::{State, StateModel};
use crate::text::{decimal_text, push_decimal, push_hex, push_right_padded};

verus! {

broadcast use vstd::seq::group_seq_axioms;

/// Hides the cursor while the display is redrawn in place.
pub const HIDE_CURSOR: &'static str = "\x1b[?25l";

/// Shows the cursor again.
pub const SHOW_CURSOR: &'static str = "\x1b[?25h";

/// Shortest time between two redraws, in nanoseconds.
pub const REDRAW_NANOS: u128 = 50_000_000;

/// A port in the list of ports: its UART, its node, and a mark on the S.BUS
/// UART.
pub open spec fn port_line(port: PortModel) -> Seq<char> {
    "UART"@ + crate::text::pad_right(crate::text::decimal(port.uart_index as nat), 2) + " "@
        + port.path + (if port.uart_index == SBUS_UART_INDEX {
        "  <- SBUS"@
    } else {
        Seq::empty()
    })
}

/// The list of ports.
pub open spec fn ports_report(ports: Seq<PortModel>) -> Seq<Seq<char>> {
    if ports.len() == 0 {
        seq!["no CH348 tty found"@]
    } else {
        ports.map_values(|p: PortModel| port_line(p))
    }
}

/// The meaning of a slot response.
pub open spec fn slot_tag(response: SlotModel) -> Seq<char> {
    match response.telemetry {
        TelemetryModel::RxBattery { volts, .. } => "rx_batt="@ + crate::render::volts_number(volts)
            + "V"@,
        TelemetryModel::ExternalVoltage { volts, .. } => "ext_volt="@
            + crate::render::volts_number(volts) + "V"@,
        TelemetryModel::Unknown { data } => "slot"@ + crate::text::decimal(response.index as nat)
            + " unknown data "@ + crate::render::hex_text(data),
    }
}

/// The hexdump line for one event.
pub open spec fn dump_line(event: EventModel) -> Seq<char> {
    match event {
        EventModel::Frame { raw, .. } => crate::render::hex_text(raw),
        EventModel::Slot { group, response, raw } => "  slot g"@ + crate::text::decimal(
            group as nat,
        ) + ": "@ + crate::render::hex_text(raw) + "  "@ + slot_tag(response),
        EventModel::Desync { byte } => "  desync: "@ + crate::text::hex_byte(byte),
    }
}

/// The line that an event is printed as, if it is printed: every event in raw
/// output, and only frames in plain output.
pub open spec fn event_line(
    event: EventModel,
    state: StateModel,
    raw: bool,
    plain: bool,
) -> Option<Seq<char>> {
    if raw {
        Some(dump_line(event))
    } else if plain {
        match event {
            EventModel::Frame { frame, .. } => Some(crate::render::frame_line(frame, state)),
            _ => None,
        }
    } else {
        None
    }
}

/// A list with one more item, if there is one.
pub open spec fn with_line(lines: Seq<Seq<char>>, line: Option<Seq<char>>) -> Seq<Seq<char>> {
    match line {
        Some(l) => lines.push(l),
        None => lines,
    }
}

/// The lines that the events of one poll are printed as, where `state` is the
/// state after the poll.
pub open spec fn poll_lines(
    events: Seq<EventModel>,
    state: StateModel,
    raw: bool,
    plain: bool,
) -> Seq<Seq<char>>
    decreases events.len(),
{
    if events.len() == 0 {
        Seq::empty()
    } else {
        with_line(
            poll_lines(events.drop_last(), state, raw, plain),
            event_line(events.last(), state, raw, plain),
        )
    }
}

/// The lines that replayed events are printed as, each with the state that it
/// leads to.
pub open spec fn replay_lines(events: Seq<EventModel>, raw: bool, plain: bool) -> Seq<Seq<char>>
    decreases events.len(),
{
    if events.len() == 0 {
        Seq::empty()
    } else {
        with_line(
            replay_lines(events.drop_last(), raw, plain),
            event_line(events.last(), StateModel::initial().fold(events), raw, plain),
        )
    }
}

/// Lines redrawn in place: each is cleared, then written.
pub open spec fn redrawn(lines: Seq<Seq<char>>) -> Seq<char>
    decreases lines.len(),
{
    if lines.len() == 0 {
        Seq::empty()
    } else {
        redrawn(lines.drop_last()) + CSI@ + "2K"@ + lines.last() + "\n"@
    }
}

/// The way back up over the lines drawn before.
pub open spec fn cursor_up(lines: nat) -> Seq<char> {
    if lines > 0 {
        CSI@ + crate::text::decimal(lines) + "A"@
    } else {
        Seq::empty()
    }
}

/// The list of ports, line by line.
pub fn ports(found: &Vec<Ch348Port>) -> (lines: Vec<String>)
    ensures
        crate::text::texts(lines@) == ports_report(crate::discover::ports_view(found@)),
{
    let ghost all = crate::discover::ports_view(found@);
    let mut lines: Vec<String> = Vec::new();
    if found.len() == 0 {
        lines.push(String::from_str("no CH348 tty found"));
        assert(crate::text::texts(lines@) =~= ports_report(all));
        return lines;
    }
    let ghost report = ports_report(all);
    assert(crate::text::texts(lines@) =~= report.take(0));
    for i in 0..found.len()
        invariant
            all == crate::discover::ports_view(found@),
            all.len() > 0,
            report == ports_report(all),
            crate::text::texts(lines@) == report.take(i as int),
    {
        let port = &found[i];
        let mut line = String::from_str("UART");
        push_right_padded(&mut line, decimal_text(port.uart_index as u64).as_str(), 2);
        line.append(" ");
        line.append(port.path.as_str());
        if port.uart_index == SBUS_UART_INDEX {
            line.append("  <- SBUS");
        }
        proof {
            assert(all[i as int] == port@);
            assert(line@ =~= port_line(port@));
            crate::text::lemma_texts_push(lines@, line);
            assert(report.take(i + 1) =~= report.take(i as int).push(report[i as int]));
        }
        lines.push(line);
    }
    assert(report.take(report.len() as int) =~= report);
    lines
}

fn slot_tag_text(response: &SlotResponse) -> (text: String)
    ensures
        text@ == slot_tag(response@),
{
    match response.telemetry {
        Telemetry::RxBattery { volts, .. } => {
            let mut text = String::from_str("rx_batt=");
            push_volts_number(&mut text, volts);
            text.append("V");
            text
        },
        Telemetry::ExternalVoltage { volts, .. } => {
            let mut text = String::from_str("ext_volt=");
            push_volts_number(&mut text, volts);
            text.append("V");
            text
        },
        Telemetry::Unknown { data } => {
            let mut text = String::from_str("slot");
            push_decimal(&mut text, response.index as u64);
            text.append(" unknown data ");
            text.append(hex(data.as_slice()).as_str());
            text
        },
    }
}

/// The hexdump line for one event.
pub fn dump_event(event: &Event) -> (text: String)
    ensures
        text@ == dump_line(event@),
{
    match event {
        Event::Frame { raw, .. } => hex(raw.as_slice()),
        Event::Slot { group, response, raw } => {
            let mut text = String::from_str("  slot g");
            push_decimal(&mut text, *group as u64);
            text.append(": ");
            text.append(hex(raw.as_slice()).as_str());
            text.append("  ");
            text.append(slot_tag_text(response).as_str());
            text
        },
        Event::Desync { byte } => {
            let mut text = String::from_str("  desync: ");
            push_hex(&mut text, *byte);
            text
        },
    }
}

fn event_text(event: &Event, state: &State, raw: bool, plain: bool) -> (text: Option<String>)
    ensures
        event_line(event@, state@, raw, plain) == (match text {
            Some(t) => Some(t@),
            None => None::<Seq<char>>,
        }),
{
    if raw {
        Some(dump_event(event))
    } else if plain {
        match event {
            Event::Frame { frame, .. } => Some(plain_frame(frame, state)),
            _ => None,
        }
    } else {
        None
    }
}

/// How the live monitor was asked to behave.
#[derive(Debug, Clone, Copy, PartialEq, Eq, Structural)]
pub struct MonitorOptions {
    /// Stop after this many nanoseconds.
    pub limit_nanos: Option<u128>,
    /// Stop after this many frames.
    pub count: Option<u64>,
    /// One line per frame instead of a redrawn display.
    pub plain: bool,
    /// Hexdump every frame and slot response.
    pub raw: bool,
}

impl MonitorOptions {
    /// Whether the display is redrawn in place.
    pub open spec fn redraw(self) -> bool {
        !self.plain && !self.raw
    }

    /// Whether the monitor is done once `frames` have arrived and this much time
    /// has passed.
    pub open spec fn finished(self, frames: nat, elapsed_nanos: u128) -> bool {
        ||| self.count matches Some(n) && frames >= n
        ||| self.limit_nanos matches Some(limit) && elapsed_nanos >= limit
    }

    /// Whether the display is redrawn in place.
    pub fn redraws(&self) -> (redraws: bool)
        ensures
            redraws == self.redraw(),
    {
        !self.plain && !self.raw
    }

    /// Whether it is time to redraw the display, `since_draw_nanos` after it
    /// was last drawn.
    pub fn redraw_due(&self, since_draw_nanos: u128) -> (due: bool)
        ensures
            due == (self.redraw() && since_draw_nanos >= REDRAW_NANOS),
    {
        self.redraws() && since_draw_nanos >= REDRAW_NANOS
    }

    /// Whether the monitor is done: the frames asked for have arrived, or the
    /// time is up.
    pub fn done(&self, state: &State, elapsed_nanos: u128) -> (done: bool)
        ensures
            done <==> {
                ||| self.count matches Some(n) && state@.counters.frames >= n
                ||| self.limit_nanos matches Some(limit) && elapsed_nanos >= limit
            },
            done == self.finished(state@.counters.frames, elapsed_nanos),
    {
        let counted: bool = match self.count {
            Some(n) => state.counters.frames >= n,
            None => false,
        };
        let expired: bool = match self.limit_nanos {
            Some(limit) => elapsed_nanos >= limit,
            None => false,
        };
        counted || expired
    }

    /// The lines to print after a poll that gave `events` and led to `state`.
    pub fn printed(&self, events: &Vec<Event>, state: &State) -> (lines: Vec<String>)
        ensures
            crate::text::texts(lines@) == poll_lines(
                crate::parser::events_view(events@),
                state@,
                self.raw,
                self.plain,
            ),
    {
        let ghost view = crate::parser::events_view(events@);
        let mut lines: Vec<String> = Vec::new();
        assert(crate::text::texts(lines@) =~= Seq::empty());
        for i in 0..events.len()
            invariant
                view == crate::parser::events_view(events@),
                crate::text::texts(lines@) == poll_lines(
                    view.take(i as int),
                    state@,
                    self.raw,
                    self.plain,
                ),
        {
            assert(view.take(i + 1).drop_last() =~= view.take(i as int));
            assert(view.take(i + 1).last() == events@[i as int]@);
            if let Some(line) = event_text(&events[i], state, self.raw, self.plain) {
                proof {
                    crate::text::lemma_texts_push(lines@, line);
                }
                lines.push(line);
            }
        }
        assert(view.take(view.len() as int) =~= view);
        lines
    }
}

/// A display that is redrawn in place.
#[derive(Debug, Clone, Copy, PartialEq, Eq, Structural)]
pub struct Screen {
    /// Lines drawn so far.
    pub previous_lines: usize,
}

impl Screen {
    /// Nothing drawn yet.
    pub fn new() -> (screen: Screen)
        ensures
            screen.previous_lines == 0,
    {
        Screen { previous_lines: 0 }
    }

    /// What to write so that `lines` take the place of those drawn before.
    pub fn draw(&mut self, lines: &Vec<String>) -> (text: String)
        ensures
            text@ == cursor_up(old(self).previous_lines as nat) + redrawn(
                crate::text::texts(lines@),
            ),
            final(self).previous_lines == lines@.len(),
    {
        let ghost all = crate::text::texts(lines@);
        let ghost up = cursor_up(self.previous_lines as nat);
        let mut text = String::new();
        if self.previous_lines > 0 {
            text.append(CSI);
            push_decimal(&mut text, self.previous_lines as u64);
            text.append("A");
        }
        assert(text@ =~= up + redrawn(all.take(0)));
        for i in 0..lines.len()
            invariant
                all == crate::text::texts(lines@),
                text@ == up + redrawn(all.take(i as int)),
        {
            text.append(CSI);
            text.append("2K");
            text.append(lines[i].as_str());
            text.append("\n");
            proof {
                assert(all.take(i + 1).drop_last() =~= all.take(i as int));
                assert(all.take(i + 1).last() == lines@[i as int]@);
                assert(text@ =~= up + redrawn(all.take(i + 1)));
            }
        }
        assert(all.take(all.len() as int) =~= all);
        self.previous_lines = lines.len();
        text
    }
}

/// A capture of the stream exactly as it arrives, including bytes that the
/// decoder rejects and bytes that it still holds at the end.
#[derive(Debug, Clone, PartialEq, Eq)]
pub struct Capture {
    /// The bytes recorded so far.
    pub bytes: Vec<u8>,
    /// Stop after this many nanoseconds.
    pub limit_nanos: u128,
}

impl Capture {
    /// Nothing recorded yet.
    pub fn new(limit_nanos: u128) -> (capture: Capture)
        ensures
            capture.bytes@ == Seq::<u8>::empty(),
            capture.limit_nanos == limit_nanos,
    {
        Capture { bytes: Vec::new(), limit_nanos }
    }

    /// Whether the capture goes on, `elapsed_nanos` after it began.
    pub fn wants_more(&self, elapsed_nanos: u128) -> (more: bool)
        ensures
            more == (elapsed_nanos < self.limit_nanos),
    {
        elapsed_nanos < self.limit_nanos
    }

    /// Record bytes just read.
    pub fn record(&mut self, bytes: &[u8])
        ensures
            final(self).bytes@ == old(self).bytes@ + bytes@,
            final(self).limit_nanos == old(self).limit_nanos,
    {
        self.bytes.extend_from_slice(bytes);
        assert(self.bytes@ =~= old(self).bytes@ + bytes@);
    }
}

/// Decode recorded bytes: the lines to print, and the state that they lead to.
pub fn replay(bytes: &[u8], raw: bool, plain: bool) -> (replayed: (Vec<String>, State))
    ensures
        ({
            let events = ParserModel::fresh().events_on(bytes@);
            &&& crate::text::texts(replayed.0@) == replay_lines(events, raw, plain)
            &&& replayed.1@ == StateModel::initial().fold(events)
        }),
{
    let mut parser = Parser::new();
    let events = parser.push_slice(bytes);
    let ghost view = crate::parser::events_view(events@);
    let mut state = State::default();
    let mut lines: Vec<String> = Vec::new();
    assert(crate::text::texts(lines@) =~= Seq::empty());
    for i in 0..events.len()
        invariant
            view == crate::parser::events_view(events@),
            state@ == StateModel::initial().fold(view.take(i as int)),
            crate::text::texts(lines@) == replay_lines(view.take(i as int), raw, plain),
    {
        let ghost done = view.take(i as int);
        let ghost more = view.take(i + 1);
        proof {
            assert(more.drop_last() =~= done);
            assert(more.last() == events@[i as int]@);
            crate::state::law_counters_partition_events(StateModel::initial(), more);
        }
        state.apply(&events[i]);
        if let Some(line) = event_text(&events[i], &state, raw, plain) {
            proof {
                crate::text::lemma_texts_push(lines@, line);
            }
            lines.push(line);
        }
    }
    assert(view.take(view.len() as int) =~= view);
    (lines, state)
}

/// The closing words of a replay.
pub fn replay_report(path: &str, byte_count: usize, state: &State, fps: &str) -> (text: String)
    ensures
        text@ == path@ + " ("@ + crate::text::decimal(byte_count as nat) + " bytes)\n"@
            + crate::render::summary_text(state@, fps@),
{
    let mut text = String::from_str(path);
    text.append(" (");
    push_decimal(&mut text, byte_count as u64);
    text.append(" bytes)\n");
    text.append(summary(state, fps).as_str());
    text
}

/// The closing words of a capture.
pub fn dump_report(path: &str, byte_count: usize, state: &State, fps: &str) -> (text: String)
    ensures
        text@ == "wrote "@ + crate::text::decimal(byte_count as nat) + " bytes to "@ + path@
            + "\n"@ + crate::render::summary_text(state@, fps@),
{
    let mut text = String::from_str("wrote ");
    push_decimal(&mut text, byte_count as u64);
    text.append(" bytes to ");
    text.append(path);
    text.append("\n");
    text.append(summary(state, fps).as_str());
    text
}

/// Raw output shows every event of the stream, one line each and in order, so
/// nothing that the parser recognised or dropped is hidden.
pub proof fn law_raw_output_shows_every_event(events: Seq<EventModel>, plain: bool)
    ensures
        replay_lines(events, true, plain) == events.map_values(|e: EventModel| dump_line(e)),
    decreases events.len(),
{
    let all = events.map_values(|e: EventModel| dump_line(e));
    if events.len() > 0 {
        let init = events.drop_last();
        law_raw_output_shows_every_event(init, plain);
        assert(init.map_values(|e: EventModel| dump_line(e)).push(dump_line(events.last()))
            =~= all);
    } else {
        assert(replay_lines(events, true, plain) =~= all);
    }
}

/// A capture keeps up with its session: before the first turn both hold no
/// bytes, and each turn adds to the session's bytes what recording it adds to
/// the capture.
pub proof fn law_recording_turns_captures_the_session(turns: Seq<Turn>, turn: Turn)
    ensures
        crate::driver::capture_of(Seq::empty()) == Seq::<u8>::empty(),
        crate::driver::capture_of(turns.push(turn)) == crate::driver::capture_of(turns)
            + turn.bytes,
{
    assert(turns.push(turn).drop_last() =~= turns);
}

/// Replaying what was captured of a session gives the values and counters of
/// the session; only the frame rate is not part of a capture.
pub proof fn law_a_capture_replays_its_session(turns: Seq<Turn>)
    ensures
        ({
            let events = ParserModel::fresh().events_on(crate::driver::capture_of(turns));
            let live = crate::driver::session_after(SbusModel::fresh(), turns).state;
            StateModel::initial().fold(events) == (StateModel {
                fps: StateModel::initial().fps,
                ..live
            })
        }),
{
    crate::driver::law_replay_equals_live(turns);
    lemma_fold_keeps_fps(
        StateModel::initial(),
        ParserModel::fresh().events_on(crate::driver::capture_of(turns)),
    );
}

proof fn lemma_fold_keeps_fps(state: StateModel, events: Seq<EventModel>)
    ensures
        state.fold(events).fps == state.fps,
    decreases events.len(),
{
    if events.len() > 0 {
        lemma_fold_keeps_fps(state, events.drop_last());
    }
}

/// Every port found gets a line of its own, in order, with its UART, its node
/// and, for UART 6 alone, the mark.
pub proof fn law_each_port_gets_its_line(ports: Seq<PortModel>, i: int)
    ensures
        ports.len() == 0 ==> ports_report(ports) == seq!["no CH348 tty found"@],
        ports.len() > 0 ==> ports_report(ports).len() == ports.len(),
        0 <= i < ports.len() ==> ports_report(ports)[i] == "UART"@ + crate::text::pad_right(
            crate::text::decimal(ports[i].uart_index as nat),
            2,
        ) + " "@ + ports[i].path + (if ports[i].uart_index == 6 {
            "  <- SBUS"@
        } else {
            Seq::empty()
        }),
{
}

/// A frame is dumped as its bytes, a dropped byte as itself, and a slot response
/// with its group, its bytes and what they mean: the voltage under the name of
/// its own kind, or the slot with its data.
pub proof fn law_dumps_show_the_event(event: EventModel)
    ensures
        event matches EventModel::Frame { raw, .. } ==> dump_line(event) == crate::render::hex_text(
            raw,
        ),
        event matches EventModel::Desync { byte } ==> dump_line(event) == "  desync: "@
            + crate::text::hex_byte(byte),
        event matches EventModel::Slot { group, response, raw } ==> dump_line(event) == "  slot g"@
            + crate::text::decimal(group as nat) + ": "@ + crate::render::hex_text(raw) + "  "@ + (
        match response.telemetry {
            TelemetryModel::RxBattery { volts, .. } => "rx_batt="@ + crate::render::volts_number(
                volts,
            ) + "V"@,
            TelemetryModel::ExternalVoltage { volts, .. } => "ext_volt="@
                + crate::render::volts_number(volts) + "V"@,
            TelemetryModel::Unknown { data } => "slot"@ + crate::text::decimal(
                response.index as nat,
            ) + " unknown data "@ + crate::render::hex_text(data),
        }),
{
}

/// A poll prints every event in raw output, every frame and nothing else in
/// plain output, and nothing while the display is redrawn; always in order.
pub proof fn law_polls_print_by_mode(events: Seq<EventModel>, state: StateModel, plain: bool)
    ensures
        poll_lines(events, state, true, plain) == events.map_values(|e: EventModel| dump_line(e)),
        poll_lines(events, state, false, true) == events.filter(
            |e: EventModel| e is Frame,
        ).map_values(
            |e: EventModel| crate::render::frame_line(e->Frame_frame, state),
        ),
        poll_lines(events, state, false, false).len() == 0,
    decreases events.len(),
{
    reveal(Seq::filter);
    let dump = |e: EventModel| dump_line(e);
    let is_frame = |e: EventModel| e is Frame;
    let line = |e: EventModel| crate::render::frame_line(e->Frame_frame, state);
    if events.len() == 0 {
        assert(poll_lines(events, state, true, plain) =~= events.map_values(dump));
        assert(poll_lines(events, state, false, true) =~= events.filter(is_frame).map_values(line));
    } else {
        let init = events.drop_last();
        let last = events.last();
        law_polls_print_by_mode(init, state, plain);
        assert(init.map_values(dump).push(dump_line(last)) =~= events.map_values(dump));
        if last is Frame {
            assert(init.filter(is_frame).push(last).map_values(line) =~= init.filter(
                is_frame,
            ).map_values(line).push(line(last)));
        }
    }
}

/// A plain replay prints one line for each frame, in order: the line of event
/// `i` shows its frame with the state that the events up to it lead to. With
/// neither kind of output a replay prints nothing.
pub proof fn law_plain_replays_print_the_frames(events: Seq<EventModel>, i: int)
    ensures
        replay_lines(events, false, false).len() == 0,
        replay_lines(events, false, true).len() == events.filter(|e: EventModel| e is Frame).len(),
        0 <= i < events.len() && events[i] is Frame ==> {
            let before = events.take(i).filter(|e: EventModel| e is Frame).len() as int;
            &&& before < replay_lines(events, false, true).len()
            &&& replay_lines(events, false, true)[before] == crate::render::frame_line(
                events[i]->Frame_frame,
                StateModel::initial().fold(events.take(i + 1)),
            )
        },
    decreases events.len(),
{
    reveal(Seq::filter);
    if events.len() > 0 {
        let init = events.drop_last();
        law_plain_replays_print_the_frames(init, i);
        if 0 <= i < init.len() {
            assert(init.take(i) =~= events.take(i));
            assert(init.take(i + 1) =~= events.take(i + 1));
            assert(init[i] == events[i]);
        } else if i == init.len() {
            assert(events.take(i) =~= init);
            assert(events.take(i + 1) =~= events);
        }
    }
}

/// The display is redrawn exactly where nothing else is printed.
pub proof fn law_only_the_display_is_redrawn(options: MonitorOptions)
    ensures
        options.redraw() <==> !(options.raw || options.plain),
{
}

/// Redrawing goes up over the lines drawn before, if any, and then clears and
/// writes each line in order.
pub proof fn law_redrawing_replaces_line_by_line(
    lines: Seq<Seq<char>>,
    line: Seq<char>,
    previous: nat,
)
    ensures
        redrawn(Seq::empty()) == Seq::<char>::empty(),
        redrawn(lines.push(line)) == redrawn(lines) + "\x1b["@ + "2K"@ + line + "\n"@,
        previous == 0 ==> cursor_up(previous) == Seq::<char>::empty(),
        previous > 0 ==> cursor_up(previous) == "\x1b["@ + crate::text::decimal(previous) + "A"@,
{
    assert(lines.push(line).drop_last() =~= lines);
}

/// The monitor stops once it has the frames asked for or the time is up,
/// whichever comes first, and not before; what has not been limited never stops
/// it, and once it is done more frames and more time do not undo that.
pub proof fn law_the_monitor_stops_at_its_limits(
    options: MonitorOptions,
    frames: nat,
    elapsed_nanos: u128,
    later_frames: nat,
    later_nanos: u128,
)
    ensures
        options.count is None && options.limit_nanos is None ==> !options.finished(
            frames,
            elapsed_nanos,
        ),
        options.count == Some(frames as u64) && frames <= u64::MAX ==> options.finished(
            frames,
            elapsed_nanos,
        ),
        options.limit_nanos == Some(elapsed_nanos) ==> options.finished(frames, elapsed_nanos),
        (options.count matches Some(n) ==> frames < n) && (options.limit_nanos matches Some(limit)
            ==> elapsed_nanos < limit) ==> !options.finished(frames, elapsed_nanos),
        options.finished(frames, elapsed_nanos) && later_frames >= frames && later_nanos
            >= elapsed_nanos ==> options.finished(later_frames, later_nanos),
{
}

} // verus!
