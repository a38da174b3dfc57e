//! Aggregated receive state: latest values plus running counters.
//!
//! Deliberately free of I/O and of any notion of time (except the `fps` field,
//! which the driver fills in), so that replaying a captured byte stream
//! produces exactly the same numbers as a live session.

use vstd::prelude::*;

use crate::frame::{Frame, FrameModel, FRAME_LEN};
use crate::parser::{Event, EventModel, ParserModel};
use crate::slot::{Telemetry, TelemetryModel, Volts, SLOT_LEN};

verus! {

broadcast use vstd::seq::group_seq_axioms;

/// Running totals over the life of a receive session.
#[derive(Debug, Clone, Copy, PartialEq, Eq, Structural)]
pub struct Counters {
    /// Control frames decoded.
    pub frames: u64,
    /// Telemetry slot responses decoded.
    pub slots: u64,
    /// Slot responses with no verified decode (see [`Telemetry::Unknown`]).
    pub unknown_slots: u64,
    /// Bytes discarded while resynchronising.
    ///
    /// Should be 0 on a healthy link. A nonzero value that tracks the slot
    /// rate means telemetry is being thrown away rather than parsed.
    pub desync_bytes: u64,
}

/// What [`Counters`] count, without a limit.
#[verifier::ext_equal]
pub struct CountersModel {
    pub frames: nat,
    pub slots: nat,
    pub unknown_slots: nat,
    pub desync_bytes: nat,
}

impl View for Counters {
    type V = CountersModel;

    open spec fn view(&self) -> CountersModel {
        CountersModel {
            frames: self.frames as nat,
            slots: self.slots as nat,
            unknown_slots: self.unknown_slots as nat,
            desync_bytes: self.desync_bytes as nat,
        }
    }
}

impl CountersModel {
    /// Whether each counter can count `n` more.
    pub open spec fn room_for(self, n: int) -> bool {
        &&& self.frames + n <= u64::MAX
        &&& self.slots + n <= u64::MAX
        &&& self.unknown_slots + n <= u64::MAX
        &&& self.desync_bytes + n <= u64::MAX
    }
}

impl Default for Counters {
    fn default() -> (counters: Counters)
        ensures
            counters == (Counters { frames: 0, slots: 0, unknown_slots: 0, desync_bytes: 0 }),
    {
        Counters { frames: 0, slots: 0, unknown_slots: 0, desync_bytes: 0 }
    }
}

impl Counters {
    /// Whether each counter can count `n` more without overflowing.
    pub fn has_room_for(&self, n: u64) -> (room: bool)
        ensures
            room == self@.room_for(n as int),
    {
        let limit: u64 = u64::MAX - n;
        self.frames <= limit && self.slots <= limit && self.unknown_slots <= limit
            && self.desync_bytes <= limit
    }
}

/// Control frames over a span of time: an exact frame rate.
#[derive(Debug, Clone, Copy, PartialEq, Eq, Structural)]
pub struct FrameRate {
    /// Control frames received.
    pub frames: u32,
    /// The time they took, in nanoseconds.
    pub nanos: u128,
}

/// Window over which [`State::fps`] is averaged, in nanoseconds.
pub const RATE_WINDOW_NANOS: u128 = 1_000_000_000;

/// Latest decoded values and counters.
#[derive(Debug, Clone, Copy, PartialEq, Eq)]
pub struct State {
    /// Most recent control frame, if any has arrived.
    pub frame: Option<Frame>,
    /// Whether any S.BUS2 footer has been seen.
    pub sbus2: bool,
    /// Receiver supply voltage ("Rx-Batt").
    pub rx_battery_v: Option<Volts>,
    /// External voltage input ("Ext-Volt").
    pub external_v: Option<Volts>,
    /// Running totals.
    pub counters: Counters,
    /// Control frames per second, updated by the driver over a 1 s window.
    pub fps: FrameRate,
}

/// What a [`State`] says.
#[verifier::ext_equal]
pub struct StateModel {
    pub frame: Option<FrameModel>,
    pub sbus2: bool,
    pub rx_battery_v: Option<Volts>,
    pub external_v: Option<Volts>,
    pub counters: CountersModel,
    pub fps: FrameRate,
}

/// What a frame that may be there says.
pub open spec fn frame_view(frame: Option<Frame>) -> Option<FrameModel> {
    match frame {
        Some(f) => Some(f@),
        None => None,
    }
}

impl View for State {
    type V = StateModel;

    open spec fn view(&self) -> StateModel {
        StateModel {
            frame: frame_view(self.frame),
            sbus2: self.sbus2,
            rx_battery_v: self.rx_battery_v,
            external_v: self.external_v,
            counters: self.counters@,
            fps: self.fps,
        }
    }
}

/// Whether an event is a control frame.
pub open spec fn is_frame_event(event: EventModel) -> bool {
    event is Frame
}

/// Whether an event is a slot response.
pub open spec fn is_slot_event(event: EventModel) -> bool {
    event is Slot
}

/// Whether an event is a slot response with no verified decode.
pub open spec fn is_unknown_slot_event(event: EventModel) -> bool {
    event matches EventModel::Slot { response, .. } && response.telemetry is Unknown
}

/// Whether an event is a dropped byte.
pub open spec fn is_desync_event(event: EventModel) -> bool {
    event is Desync
}

/// Whether an event is an S.BUS2 frame.
pub open spec fn is_sbus2_event(event: EventModel) -> bool {
    event matches EventModel::Frame { frame, .. } && frame.footer.slot_group() is Some
}

/// How much an event adds to the counter of those for which `counted` holds.
pub open spec fn one_if(counted: bool) -> nat {
    if counted {
        1
    } else {
        0
    }
}

impl StateModel {
    /// Nothing received.
    pub open spec fn initial() -> StateModel {
        StateModel {
            frame: None,
            sbus2: false,
            rx_battery_v: None,
            external_v: None,
            counters: CountersModel { frames: 0, slots: 0, unknown_slots: 0, desync_bytes: 0 },
            fps: FrameRate { frames: 0, nanos: RATE_WINDOW_NANOS },
        }
    }

    /// The state after one more event.
    pub open spec fn apply(self, event: EventModel) -> StateModel {
        StateModel {
            frame: match event {
                EventModel::Frame { frame, .. } => Some(frame),
                _ => self.frame,
            },
            sbus2: self.sbus2 || is_sbus2_event(event),
            rx_battery_v: match event {
                EventModel::Slot {
                    response: crate::slot::SlotModel {
                        telemetry: TelemetryModel::RxBattery { volts, .. },
                        ..
                    },
                    ..
                } => Some(volts),
                _ => self.rx_battery_v,
            },
            external_v: match event {
                EventModel::Slot {
                    response: crate::slot::SlotModel {
                        telemetry: TelemetryModel::ExternalVoltage { volts, .. },
                        ..
                    },
                    ..
                } => Some(volts),
                _ => self.external_v,
            },
            counters: CountersModel {
                frames: self.counters.frames + one_if(is_frame_event(event)),
                slots: self.counters.slots + one_if(is_slot_event(event)),
                unknown_slots: self.counters.unknown_slots + one_if(is_unknown_slot_event(event)),
                desync_bytes: self.counters.desync_bytes + one_if(is_desync_event(event)),
            },
            fps: self.fps,
        }
    }

    /// The state after more events.
    pub open spec fn fold(self, events: Seq<EventModel>) -> StateModel
        decreases events.len(),
    {
        if events.len() == 0 {
            self
        } else {
            self.fold(events.drop_last()).apply(events.last())
        }
    }
}

impl Default for State {
    fn default() -> (state: State)
        ensures
            state@ == StateModel::initial(),
    {
        State {
            frame: None,
            sbus2: false,
            rx_battery_v: None,
            external_v: None,
            counters: Counters::default(),
            fps: FrameRate { frames: 0, nanos: RATE_WINDOW_NANOS },
        }
    }
}

impl State {
    /// Fold one parser event into the state.
    pub fn apply(&mut self, event: &Event)
        requires
            old(self)@.apply(event@).counters.room_for(0),
        ensures
            final(self)@ == old(self)@.apply(event@),
    {
        match event {
            Event::Frame { frame, .. } => {
                self.counters.frames = self.counters.frames + 1;
                self.sbus2 = self.sbus2 || frame.footer.group().is_some();
                self.frame = Some(*frame);
            },
            Event::Slot { response, .. } => {
                self.counters.slots = self.counters.slots + 1;
                match response.telemetry {
                    Telemetry::RxBattery { volts, .. } => {
                        self.rx_battery_v = Some(volts);
                    },
                    Telemetry::ExternalVoltage { volts, .. } => {
                        self.external_v = Some(volts);
                    },
                    Telemetry::Unknown { .. } => {
                        self.counters.unknown_slots = self.counters.unknown_slots + 1;
                    },
                }
            },
            Event::Desync { .. } => {
                self.counters.desync_bytes = self.counters.desync_bytes + 1;
            },
        }
    }

    /// True once both receiver voltages have been observed.
    pub fn has_voltages(&self) -> (both: bool)
        ensures
            both == (self@.rx_battery_v is Some && self@.external_v is Some),
    {
        self.rx_battery_v.is_some() && self.external_v.is_some()
    }
}

/// Folding events in one by one or in batches comes to the same.
pub proof fn law_fold_in_batches(state: StateModel, a: Seq<EventModel>, b: Seq<EventModel>)
    ensures
        state.fold(a + b) == state.fold(a).fold(b),
    decreases b.len(),
{
    if b.len() == 0 {
        assert(a + b =~= a);
    } else {
        law_fold_in_batches(state, a, b.drop_last());
        assert((a + b).drop_last() =~= a + b.drop_last());
    }
}

/// The counters count what their names say.
pub proof fn law_counters_count_events(state: StateModel, events: Seq<EventModel>)
    ensures
        ({
            let before = state.counters;
            let after = state.fold(events).counters;
            &&& after.frames == before.frames + events.filter(|e| is_frame_event(e)).len()
            &&& after.slots == before.slots + events.filter(|e| is_slot_event(e)).len()
            &&& after.unknown_slots == before.unknown_slots + events.filter(
                |e| is_unknown_slot_event(e),
            ).len()
            &&& after.desync_bytes == before.desync_bytes + events.filter(
                |e| is_desync_event(e),
            ).len()
        }),
    decreases events.len(),
{
    reveal(Seq::filter);
    if events.len() > 0 {
        law_counters_count_events(state, events.drop_last());
    }
}

/// Undecoded slot responses are slot responses, and each event is counted once:
/// as a frame, a slot response or a dropped byte.
pub proof fn law_counters_partition_events(state: StateModel, events: Seq<EventModel>)
    ensures
        ({
            let before = state.counters;
            let after = state.fold(events).counters;
            &&& after.frames + after.slots + after.desync_bytes == before.frames + before.slots
                + before.desync_bytes + events.len()
            &&& after.frames >= before.frames
            &&& after.slots >= before.slots
            &&& after.desync_bytes >= before.desync_bytes
            &&& 0 <= after.unknown_slots - before.unknown_slots <= after.slots - before.slots
        }),
    decreases events.len(),
{
    if events.len() > 0 {
        law_counters_partition_events(state, events.drop_last());
    }
}

/// The counters account for the bytes received: 25 for each frame, 3 for each
/// slot response, one for each dropped byte, and the rest is pending.
pub proof fn law_counters_account_for_bytes(state: StateModel, m: ParserModel, bytes: Seq<u8>)
    ensures
        ({
            let before = state.counters;
            let after = state.fold(m.events_on(bytes)).counters;
            FRAME_LEN * (after.frames - before.frames) + SLOT_LEN * (after.slots - before.slots) + (
            after.desync_bytes - before.desync_bytes) + m.run(bytes).pending.len()
                == m.pending.len() + bytes.len()
        }),
    decreases bytes.len(),
{
    if bytes.len() > 0 {
        let init = bytes.drop_last();
        law_counters_account_for_bytes(state, m, init);
        match m.run(init).event_on(bytes.last()) {
            Some(e) => {
                assert(m.events_on(bytes).drop_last() =~= m.events_on(init));
            },
            None => {},
        }
    }
}

/// The state holds the most recent frame: the last one received, or else the
/// one it held before.
pub proof fn law_frame_is_the_latest(state: StateModel, events: Seq<EventModel>, i: int)
    requires
        -1 <= i < events.len(),
        i >= 0 ==> is_frame_event(events[i]),
        forall|k: int| i < k < events.len() ==> !is_frame_event(#[trigger] events[k]),
    ensures
        i >= 0 ==> state.fold(events).frame == Some(events[i]->Frame_frame),
        i == -1 ==> state.fold(events).frame == state.frame,
    decreases events.len(),
{
    if events.len() > 0 && i < events.len() - 1 {
        let last = events[events.len() - 1];
        assert(!is_frame_event(last));
        law_frame_is_the_latest(state, events.drop_last(), i);
    }
}

/// The state knows the stream for S.BUS2 once an S.BUS2 frame has arrived.
pub proof fn law_sbus2_is_remembered(state: StateModel, events: Seq<EventModel>)
    ensures
        state.fold(events).sbus2 <==> state.sbus2 || exists|i: int|
            0 <= i < events.len() && is_sbus2_event(#[trigger] events[i]),
    decreases events.len(),
{
    if events.len() > 0 {
        let init = events.drop_last();
        law_sbus2_is_remembered(state, init);
        assert(forall|i: int| 0 <= i < init.len() ==> init[i] == #[trigger] events[i]);
        if state.fold(init).sbus2 && !state.sbus2 {
            let i = choose|i: int| 0 <= i < init.len() && is_sbus2_event(#[trigger] init[i]);
            assert(is_sbus2_event(events[i]));
        }
        assert(events.last() == events[events.len() - 1]);
    }
}

/// Whether an event reports the receiver supply voltage.
pub open spec fn is_rx_battery_event(event: EventModel) -> bool {
    event matches EventModel::Slot { response, .. } && response.telemetry is RxBattery
}

/// Whether an event reports the external voltage.
pub open spec fn is_external_event(event: EventModel) -> bool {
    event matches EventModel::Slot { response, .. } && response.telemetry is ExternalVoltage
}

/// The state holds the latest receiver supply voltage: no frame, dropped byte,
/// external voltage or undecoded slot response touches it.
pub proof fn law_rx_battery_is_the_latest(state: StateModel, events: Seq<EventModel>, i: int)
    requires
        -1 <= i < events.len(),
        i >= 0 ==> is_rx_battery_event(events[i]),
        forall|k: int| i < k < events.len() ==> !is_rx_battery_event(#[trigger] events[k]),
    ensures
        i >= 0 ==> state.fold(events).rx_battery_v == events[i]->response.telemetry.voltage(),
        i == -1 ==> state.fold(events).rx_battery_v == state.rx_battery_v,
    decreases events.len(),
{
    if events.len() > 0 && i < events.len() - 1 {
        let last = events[events.len() - 1];
        assert(!is_rx_battery_event(last));
        law_rx_battery_is_the_latest(state, events.drop_last(), i);
    }
}

/// The state holds the latest external voltage: no frame, dropped byte,
/// receiver voltage or undecoded slot response touches it.
pub proof fn law_external_is_the_latest(state: StateModel, events: Seq<EventModel>, i: int)
    requires
        -1 <= i < events.len(),
        i >= 0 ==> is_external_event(events[i]),
        forall|k: int| i < k < events.len() ==> !is_external_event(#[trigger] events[k]),
    ensures
        i >= 0 ==> state.fold(events).external_v == events[i]->response.telemetry.voltage(),
        i == -1 ==> state.fold(events).external_v == state.external_v,
    decreases events.len(),
{
    if events.len() > 0 && i < events.len() - 1 {
        let last = events[events.len() - 1];
        assert(!is_external_event(last));
        law_external_is_the_latest(state, events.drop_last(), i);
    }
}

/// Before anything is received there is no frame, no voltage and no count, and
/// the rate is no frames in one second.
pub proof fn law_the_initial_state_is_empty()
    ensures
        StateModel::initial().frame is None,
        !StateModel::initial().sbus2,
        StateModel::initial().rx_battery_v is None,
        StateModel::initial().external_v is None,
        StateModel::initial().counters.frames == 0,
        StateModel::initial().counters.slots == 0,
        StateModel::initial().counters.unknown_slots == 0,
        StateModel::initial().counters.desync_bytes == 0,
        StateModel::initial().fps == (FrameRate { frames: 0, nanos: 1_000_000_000 }),
{
}

/// A frame becomes the latest frame and is counted; it marks the stream as
/// S.BUS2 unless its footer is the plain one, and touches nothing else.
pub proof fn law_a_frame_is_kept_and_counted(state: StateModel, frame: FrameModel, raw: Seq<u8>)
    ensures
        state.apply(EventModel::Frame { frame, raw }) == (StateModel {
            frame: Some(frame),
            sbus2: state.sbus2 || frame.footer != crate::frame::Footer::Sbus1,
            counters: CountersModel { frames: state.counters.frames + 1, ..state.counters },
            ..state
        }),
{
}

/// A slot response is counted. A voltage becomes the latest of its own kind, a
/// response without a verified decode is counted as such, and nothing else is
/// touched.
pub proof fn law_a_slot_is_kept_by_its_kind(
    state: StateModel,
    group: u8,
    response: crate::slot::SlotModel,
    raw: Seq<u8>,
)
    ensures
        ({
            let after = state.apply(EventModel::Slot { group, response, raw });
            let counted = CountersModel { slots: state.counters.slots + 1, ..state.counters };
            match response.telemetry {
                TelemetryModel::RxBattery { volts, .. } => after == (StateModel {
                    rx_battery_v: Some(volts),
                    counters: counted,
                    ..state
                }),
                TelemetryModel::ExternalVoltage { volts, .. } => after == (StateModel {
                    external_v: Some(volts),
                    counters: counted,
                    ..state
                }),
                TelemetryModel::Unknown { .. } => after == (StateModel {
                    counters: CountersModel {
                        unknown_slots: state.counters.unknown_slots + 1,
                        ..counted
                    },
                    ..state
                }),
            }
        }),
{
}

/// A dropped byte is counted and touches nothing else.
pub proof fn law_a_dropped_byte_is_only_counted(state: StateModel, byte: u8)
    ensures
        state.apply(EventModel::Desync { byte }) == (StateModel {
            counters: CountersModel {
                desync_bytes: state.counters.desync_bytes + 1,
                ..state.counters
            },
            ..state
        }),
{
}

/// Events are folded in one by one, in order.
pub proof fn law_events_are_folded_one_by_one(
    state: StateModel,
    events: Seq<EventModel>,
    event: EventModel,
)
    ensures
        state.fold(Seq::empty()) == state,
        state.fold(events.push(event)) == state.fold(events).apply(event),
{
    assert(events.push(event).drop_last() =~= events);
}

/// There is room to count `n` more exactly where no counter passes what 64 bits
/// hold.
pub proof fn law_room_is_what_is_left_of_64_bits(counters: CountersModel, n: int)
    ensures
        counters.room_for(n) <==> counters.frames + n < 0x1_0000_0000_0000_0000 && counters.slots + n
            < 0x1_0000_0000_0000_0000 && counters.unknown_slots + n < 0x1_0000_0000_0000_0000
            && counters.desync_bytes + n < 0x1_0000_0000_0000_0000,
{
}

/// The model of a state shows each of its fields and counters as it is.
pub proof fn law_a_state_shows_its_fields(state: State, frame: Frame)
    ensures
        state.frame == Some(frame) ==> state@.frame == Some(frame@),
        state.frame is None <==> state@.frame is None,
        state@.sbus2 == state.sbus2,
        state@.rx_battery_v == state.rx_battery_v,
        state@.external_v == state.external_v,
        state@.counters.frames == state.counters.frames,
        state@.counters.slots == state.counters.slots,
        state@.counters.unknown_slots == state.counters.unknown_slots,
        state@.counters.desync_bytes == state.counters.desync_bytes,
        state@.fps == state.fps,
{
}

} // verus!
