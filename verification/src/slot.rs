//! S.BUS2 telemetry slot decoding.
//!
//! Each slot response is three bytes: a slot ID followed by two data bytes.
//! Only slot 0 has a decode verified against a transmitter's telemetry
//! display; everything else is surfaced as [`Telemetry::Unknown`] rather than
//! guessed at.

use vstd::prelude::*;

use crate::frame::START;

verus! {

/// Length of one telemetry slot response.
pub const SLOT_LEN: usize = 3;

/// Number of telemetry slots addressable across the four groups.
pub const SLOT_COUNT: usize = 32;

/// Slots per footer group.
pub const SLOTS_PER_GROUP: usize = 8;

/// Slot 0 data byte 0 selecting the receiver supply voltage ("Rx-Batt").
pub const MARKER_RX_BATTERY: u8 = 0xC0;

/// Slot 0 data byte 0 selecting the external voltage input ("Ext-Volt").
pub const MARKER_EXTERNAL_VOLTAGE: u8 = 0xC4;

/// Tenths of a volt per LSB of the slot 0 voltage byte.
pub const VOLT_LSB_TENTHS: u8 = 1;

/// Highest voltage representable by the 8-bit slot 0 value, in tenths of a
/// volt.
///
/// Measurements only reach 24.1 V, just under this ceiling; what a receiver
/// does above it has not been verified.
pub const VOLT_MAX_TENTHS: u8 = 255;

/// The low 6 bits of a byte in reverse order.
pub open spec fn reversed_6(value: u8) -> int {
    32 * (value % 2) + 16 * (value / 2 % 2) + 8 * (value / 4 % 2) + 4 * (value / 8 % 2) + 2 * (value
        / 16 % 2) + value / 32 % 2
}

/// The wire ID of a slot: its number's low 6 bits reversed, over `0b11`.
pub open spec fn slot_id_of(index: u8) -> int {
    4 * reversed_6(index) + 3
}

/// The slot number behind a wire ID. The valid IDs are those that end in
/// `0b011`.
pub open spec fn slot_index_of(id: u8) -> Option<u8> {
    if id % 8 == 3 {
        Some(reversed_6(id / 4) as u8)
    } else {
        None
    }
}

/// Reverse the low 6 bits of `value`.
fn reverse_bits_6(value: u8) -> (out: u8)
    ensures
        out == reversed_6(value),
        out < 64,
{
    let out: u8 = ((value & 0x01) << 5) | ((value & 0x02) << 3) | ((value & 0x04) << 1) | ((value
        & 0x08) >> 1) | ((value & 0x10) >> 3) | ((value & 0x20) >> 5);
    assert(out < 64 && out == 32 * (value % 2) + 16 * (value / 2 % 2) + 8 * (value / 4 % 2) + 4 * (
    value / 8 % 2) + 2 * (value / 16 % 2) + value / 32 % 2) by (bit_vector)
        requires
            out == ((value & 0x01) << 5) | ((value & 0x02) << 3) | ((value & 0x04) << 1) | ((value
                & 0x08) >> 1) | ((value & 0x10) >> 3) | ((value & 0x20) >> 5),
    ;
    out
}

/// Wire ID for telemetry slot `index` (0..=31).
///
/// The ID is the slot number's low 6 bits reversed, shifted up by two, with
/// `0b11` in the low bits. Computing it keeps the 32-entry table out of the
/// source, where a transcription slip would be invisible.
///
/// Only slot 0 (`0x03`) has been observed on hardware.
pub fn slot_id(index: u8) -> (id: u8)
    ensures
        id == slot_id_of(index),
{
    let reversed: u8 = reverse_bits_6(index);
    assert(reversed < 64 ==> (reversed << 2) | 0b11 == 4 * reversed + 3) by (bit_vector);
    (reversed << 2) | 0b11
}

/// Slot number for a wire ID, or `None` if `id` is not a valid slot ID.
///
/// Exactly 32 of the 256 byte values are valid: those matching `0b_____011`.
/// The low two bits are the fixed `0b11`; bit 2 must be clear because it
/// reverses into bit 5 of the index, which would address a 33rd..64th slot
/// that does not exist. That exclusion is what keeps [`START`] (`0x0F`, which
/// does end in `0b11`) out of the slot ID space: the parser depends on it to
/// tell a frame head from a slot head.
pub fn slot_index(id: u8) -> (index: Option<u8>)
    ensures
        index == slot_index_of(id),
{
    assert(id & 0b11 == id % 4 && id >> 2 == id / 4) by (bit_vector);
    if id & 0b11 != 0b11 {
        return None;
    }
    let index: u8 = reverse_bits_6(id >> 2);
    if index as usize >= SLOT_COUNT {
        return None;
    }
    Some(index)
}

/// An exact voltage, counted in tenths of a volt.
#[derive(Debug, Clone, Copy, PartialEq, Eq, Structural)]
pub struct Volts {
    /// Tenths of a volt.
    pub tenths: u8,
}

/// Decoded meaning of a slot response's two data bytes.
#[derive(Debug, Clone, Copy, PartialEq, Eq)]
pub enum Telemetry {
    /// Slot 0, marker `0xC0`: receiver supply voltage, shown as "Rx-Batt".
    RxBattery {
        /// Volts.
        volts: Volts,
        /// Raw 0.1 V/LSB byte.
        raw: u8,
    },
    /// Slot 0, marker `0xC4`: external voltage input, shown as "Ext-Volt".
    ExternalVoltage {
        /// Volts.
        volts: Volts,
        /// Raw 0.1 V/LSB byte.
        raw: u8,
    },
    /// A structurally valid slot response with no verified decode.
    ///
    /// Reached for every slot other than 0, and for slot 0 with an unexpected
    /// marker. Kept rather than dropped so callers can count and dump it: a
    /// marker change above 25.5 V would show up here.
    Unknown {
        /// The two data bytes, as received.
        data: [u8; 2],
    },
}

/// What a [`Telemetry`] says.
#[verifier::ext_equal]
pub enum TelemetryModel {
    RxBattery { volts: Volts, raw: u8 },
    ExternalVoltage { volts: Volts, raw: u8 },
    Unknown { data: Seq<u8> },
}

impl View for Telemetry {
    type V = TelemetryModel;

    open spec fn view(&self) -> TelemetryModel {
        match *self {
            Telemetry::RxBattery { volts, raw } => TelemetryModel::RxBattery { volts, raw },
            Telemetry::ExternalVoltage { volts, raw } => TelemetryModel::ExternalVoltage {
                volts,
                raw,
            },
            Telemetry::Unknown { data } => TelemetryModel::Unknown { data: data@ },
        }
    }
}

impl TelemetryModel {
    /// The verified voltage, where there is one.
    pub open spec fn voltage(self) -> Option<Volts> {
        match self {
            TelemetryModel::RxBattery { volts, .. } => Some(volts),
            TelemetryModel::ExternalVoltage { volts, .. } => Some(volts),
            TelemetryModel::Unknown { .. } => None,
        }
    }
}

impl Telemetry {
    /// Volts, for the variants that carry a verified voltage.
    pub fn volts(&self) -> (volts: Option<Volts>)
        ensures
            volts == self@.voltage(),
    {
        match *self {
            Telemetry::RxBattery { volts, .. } => Some(volts),
            Telemetry::ExternalVoltage { volts, .. } => Some(volts),
            Telemetry::Unknown { .. } => None,
        }
    }
}

/// One decoded telemetry slot response.
#[derive(Debug, Clone, Copy, PartialEq, Eq)]
pub struct SlotResponse {
    /// Slot number 0..=31.
    pub index: u8,
    /// What the two data bytes mean.
    pub telemetry: Telemetry,
}

/// What a [`SlotResponse`] says.
#[verifier::ext_equal]
pub struct SlotModel {
    pub index: u8,
    pub telemetry: TelemetryModel,
}

impl View for SlotResponse {
    type V = SlotModel;

    open spec fn view(&self) -> SlotModel {
        SlotModel { index: self.index, telemetry: self.telemetry@ }
    }
}

/// The voltage that a 0.1 V/LSB byte stands for.
pub open spec fn voltage_of(raw: u8) -> Volts {
    Volts { tenths: raw }
}

/// What the data bytes of slot `index` mean.
pub open spec fn telemetry_of(index: u8, data: Seq<u8>) -> TelemetryModel
    recommends
        data.len() == 2,
{
    if index == 0 && data[0] == MARKER_RX_BATTERY {
        TelemetryModel::RxBattery { volts: voltage_of(data[1]), raw: data[1] }
    } else if index == 0 && data[0] == MARKER_EXTERNAL_VOLTAGE {
        TelemetryModel::ExternalVoltage { volts: voltage_of(data[1]), raw: data[1] }
    } else {
        TelemetryModel::Unknown { data }
    }
}

/// Whether three bytes are a slot response: only the slot ID says so.
pub open spec fn is_slot(bytes: Seq<u8>) -> bool {
    bytes.len() == SLOT_LEN && slot_index_of(bytes[0]) is Some
}

/// What a slot response says.
pub open spec fn slot_of(bytes: Seq<u8>) -> SlotModel
    recommends
        is_slot(bytes),
{
    let index = slot_index_of(bytes[0])->0;
    SlotModel { index, telemetry: telemetry_of(index, bytes.subrange(1, 3)) }
}

/// Convert a 0.1 V/LSB byte to volts.
pub fn volts_from_raw(raw: u8) -> (volts: Volts)
    ensures
        volts == voltage_of(raw),
{
    Volts { tenths: raw }
}

impl SlotResponse {
    /// Decode a three-byte slot response, or `None` if byte 0 is not a valid
    /// slot ID.
    pub fn decode(bytes: &[u8; SLOT_LEN]) -> (response: Option<SlotResponse>)
        ensures
            response is Some <==> is_slot(bytes@),
            response matches Some(r) ==> r@ == slot_of(bytes@) && r.index < SLOT_COUNT,
    {
        let index: u8 = match slot_index(bytes[0]) {
            Some(index) => index,
            None => return None,
        };
        let data = [bytes[1], bytes[2]];
        let telemetry = if index == 0 && data[0] == MARKER_RX_BATTERY {
            Telemetry::RxBattery { volts: volts_from_raw(data[1]), raw: data[1] }
        } else if index == 0 && data[0] == MARKER_EXTERNAL_VOLTAGE {
            Telemetry::ExternalVoltage { volts: volts_from_raw(data[1]), raw: data[1] }
        } else {
            Telemetry::Unknown { data }
        };
        proof {
            assert(data@ =~= bytes@.subrange(1, 3));
            law_slot_index_round_trip(bytes[0]);
        }
        Some(SlotResponse { index, telemetry })
    }

    /// The footer group this slot answers in (`index / 8`).
    pub fn group(&self) -> (group: u8)
        ensures
            group == self@.index / 8,
            8 * group <= self.index < 8 * group + 8,
    {
        self.index / SLOTS_PER_GROUP as u8
    }
}

/// The reversal is one: bit `i` of the result is bit `5 - i` of the value, the
/// top two bits are ignored, and reversing twice gives the low 6 bits back.
pub proof fn law_reversal_undoes_itself(value: u8)
    ensures
        0 <= reversed_6(value) < 64,
        forall|i: int|
            0 <= i < 6 ==> crate::frame::byte_bit(reversed_6(value) as u8, i)
                == #[trigger] crate::frame::byte_bit(value, 5 - i),
        reversed_6(value) == reversed_6(value & 0x3F),
        reversed_6(reversed_6(value) as u8) == value & 0x3F,
{
    let r: u8 = reversed_6(value) as u8;
    let low: u8 = value & 0x3F;
    assert(r % 2 == value / 32 % 2 && r / 2 % 2 == value / 16 % 2 && r / 4 % 2 == value / 8 % 2 && r
        / 8 % 2 == value / 4 % 2 && r / 16 % 2 == value / 2 % 2 && r / 32 % 2 == value % 2)
        by (bit_vector)
        requires
            r == 32 * (value % 2) + 16 * (value / 2 % 2) + 8 * (value / 4 % 2) + 4 * (value / 8 % 2)
                + 2 * (value / 16 % 2) + value / 32 % 2,
    ;
    assert(low % 2 == value % 2 && low / 2 % 2 == value / 2 % 2 && low / 4 % 2 == value / 4 % 2
        && low / 8 % 2 == value / 8 % 2 && low / 16 % 2 == value / 16 % 2 && low / 32 % 2 == value
        / 32 % 2 && low == value % 2 + 2 * (value / 2 % 2) + 4 * (value / 4 % 2) + 8 * (value / 8 % 2)
        + 16 * (value / 16 % 2) + 32 * (value / 32 % 2)) by (bit_vector)
        requires
            low == value & 0x3F,
    ;
}

/// Every slot is read back from its ID.
pub proof fn law_slot_id_round_trip(index: u8)
    requires
        index < SLOT_COUNT,
    ensures
        0 <= slot_id_of(index) < 256,
        slot_index_of(slot_id_of(index) as u8) == Some(index),
{
    assert(slot_id_of(index) as u8 / 4 == reversed_6(index));
}

/// Every byte that is read as a slot ID is that slot's ID, and the slot exists.
pub proof fn law_slot_index_round_trip(id: u8)
    requires
        slot_index_of(id) is Some,
    ensures
        slot_index_of(id)->0 < SLOT_COUNT,
        slot_id_of(slot_index_of(id)->0) == id,
{
}

/// No two slots share an ID.
pub proof fn law_slot_ids_are_unique(a: u8, b: u8)
    requires
        a < SLOT_COUNT,
        b < SLOT_COUNT,
        slot_id_of(a) == slot_id_of(b),
    ensures
        a == b,
{
    law_slot_id_round_trip(a);
    law_slot_id_round_trip(b);
}

/// The valid IDs are exactly the IDs of the 32 slots, and exactly the bytes
/// that end in `0b011`.
pub proof fn law_slot_ids_are_exactly_the_valid_bytes(byte: u8)
    ensures
        slot_index_of(byte) is Some <==> exists|index: u8|
            index < SLOT_COUNT && #[trigger] slot_id_of(index) == byte,
        slot_index_of(byte) is Some <==> byte & 0b111 == 0b011,
{
    if slot_index_of(byte) is Some {
        law_slot_index_round_trip(byte);
    }
    if exists|index: u8| index < SLOT_COUNT && #[trigger] slot_id_of(index) == byte {
        let index = choose|index: u8| index < SLOT_COUNT && #[trigger] slot_id_of(index) == byte;
        law_slot_id_round_trip(index);
    }
    assert(byte & 0b111 == byte % 8) by (bit_vector);
}

/// A frame head is never taken for a slot head.
pub proof fn law_start_is_not_a_slot_id()
    ensures
        slot_index_of(START) is None,
{
}

/// A voltage is only ever claimed of slot 0: any other slot's data stays
/// undecoded, whatever it looks like.
pub proof fn law_only_slot_0_has_a_voltage(index: u8, data: Seq<u8>)
    ensures
        index != 0 ==> telemetry_of(index, data) == (TelemetryModel::Unknown { data }),
        telemetry_of(index, data).voltage() is Some <==> index == 0 && (data[0] == MARKER_RX_BATTERY
            || data[0] == MARKER_EXTERNAL_VOLTAGE),
        telemetry_of(index, data).voltage() matches Some(v) ==> v == voltage_of(data[1]),
{
}

/// Three bytes are a slot response exactly where the first ends in `0b011`, and
/// then its slot is the one with that ID.
pub proof fn law_the_id_names_the_slot(bytes: Seq<u8>)
    ensures
        is_slot(bytes) <==> bytes.len() == 3 && bytes[0] & 0b111 == 0b011,
        is_slot(bytes) ==> slot_of(bytes).index < 32 && slot_id_of(slot_of(bytes).index) == bytes[0],
{
    let id = bytes[0];
    assert(id & 0b111 == id % 8) by (bit_vector);
    if is_slot(bytes) {
        law_slot_index_round_trip(id);
    }
}

/// In slot 0 the marker alone decides which voltage it is: `0xC0` is the
/// receiver supply and `0xC4` the external input, for every value byte, which
/// counts tenths of a volt. Everything else is handed on as it came.
pub proof fn law_the_marker_decides_the_voltage(bytes: Seq<u8>)
    requires
        is_slot(bytes),
    ensures
        bytes[0] == 0x03 && bytes[1] == 0xC0 ==> slot_of(bytes).telemetry == (
        TelemetryModel::RxBattery { volts: Volts { tenths: bytes[2] }, raw: bytes[2] }),
        bytes[0] == 0x03 && bytes[1] == 0xC4 ==> slot_of(bytes).telemetry == (
        TelemetryModel::ExternalVoltage { volts: Volts { tenths: bytes[2] }, raw: bytes[2] }),
        !(bytes[0] == 0x03 && (bytes[1] == 0xC0 || bytes[1] == 0xC4)) ==> slot_of(bytes).telemetry
            == (TelemetryModel::Unknown { data: seq![bytes[1], bytes[2]] }),
{
    law_slot_index_round_trip(bytes[0]);
    assert(bytes.subrange(1, 3) =~= seq![bytes[1], bytes[2]]);
}

/// The value byte does not change what kind of telemetry a slot response is.
pub proof fn law_the_value_does_not_change_the_kind(index: u8, marker: u8, a: u8, b: u8)
    ensures
        ({
            let x = telemetry_of(index, seq![marker, a]);
            let y = telemetry_of(index, seq![marker, b]);
            &&& x is RxBattery <==> y is RxBattery
            &&& x is ExternalVoltage <==> y is ExternalVoltage
            &&& x is RxBattery <==> index == 0 && marker == 0xC0
            &&& x is ExternalVoltage <==> index == 0 && marker == 0xC4
            &&& x.voltage() matches Some(v) ==> v.tenths == a
        }),
{
}

/// Both kinds of voltage are reported as they were decoded, and undecoded data
/// as no voltage.
pub proof fn law_voltages_are_reported_unchanged(volts: Volts, raw: u8, data: Seq<u8>)
    ensures
        (TelemetryModel::RxBattery { volts, raw }).voltage() == Some(volts),
        (TelemetryModel::ExternalVoltage { volts, raw }).voltage() == Some(volts),
        (TelemetryModel::Unknown { data }).voltage() is None,
        voltage_of(raw).tenths == raw,
{
}

/// The model of a slot response shows its slot and, under the same kind, each
/// field of its telemetry as it is.
pub proof fn law_a_response_shows_its_fields(response: SlotResponse)
    ensures
        response@.index == response.index,
        response.telemetry matches Telemetry::RxBattery { volts, raw } ==> response@.telemetry == (
        TelemetryModel::RxBattery { volts, raw }),
        response.telemetry matches Telemetry::ExternalVoltage { volts, raw }
            ==> response@.telemetry == (TelemetryModel::ExternalVoltage { volts, raw }),
        response.telemetry matches Telemetry::Unknown { data } ==> response@.telemetry == (
        TelemetryModel::Unknown { data: data@ }),
{
}

} // verus!
