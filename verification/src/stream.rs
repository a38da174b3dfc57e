//! Laws of the event stream: what holds of every byte string that a parser
//! is given, however it is cut up.

use vstd::prelude::*;

use crate::frame::{FRAME_LEN, START};
use crate::parser::{EventModel, ParserModel};
use crate::slot::SLOT_LEN;

verus! {

broadcast use vstd::seq::group_seq_axioms;

/// The bytes that a list of events accounts for, in order.
pub open spec fn wire_of_all(events: Seq<EventModel>) -> Seq<u8>
    decreases events.len(),
{
    if events.len() == 0 {
        Seq::empty()
    } else {
        wire_of_all(events.drop_last()) + crate::parser::wire_of(events.last())
    }
}

/// The slot context that a list of events leaves behind, where `group` was the
/// context before: a frame sets it to what its footer says, a slot response
/// keeps it, a dropped byte clears it.
pub open spec fn context_after(group: Option<u8>, events: Seq<EventModel>) -> Option<u8>
    decreases events.len(),
{
    if events.len() == 0 {
        group
    } else {
        match events.last() {
            EventModel::Frame { frame, .. } => frame.footer.slot_group(),
            EventModel::Slot { .. } => context_after(group, events.drop_last()),
            EventModel::Desync { .. } => None,
        }
    }
}

/// Whether an event carries the bytes of a unit of its kind together with
/// what these bytes say.
pub open spec fn faithful(event: EventModel) -> bool {
    match event {
        EventModel::Frame { frame, raw } => crate::frame::is_frame(raw)
            && crate::frame::decoded_frame(raw) == Ok::<_, crate::frame::FrameError>(frame),
        EventModel::Slot { response, raw, .. } => crate::slot::is_slot(raw)
            && crate::slot::slot_of(raw) == response,
        EventModel::Desync { .. } => true,
    }
}

/// No complete unit is ever left pending, so less than one frame is.
pub proof fn law_no_unit_is_left_pending(m: ParserModel, bytes: Seq<u8>)
    requires
        m.settled(),
    ensures
        m.run(bytes).settled(),
    decreases bytes.len(),
{
    if bytes.len() > 0 {
        law_no_unit_is_left_pending(m, bytes.drop_last());
    }
}

/// One byte completes at most one event, so there are never more events than
/// bytes.
pub proof fn law_at_most_one_event_per_byte(m: ParserModel, bytes: Seq<u8>)
    ensures
        m.events_on(bytes).len() <= bytes.len(),
    decreases bytes.len(),
{
    if bytes.len() > 0 {
        law_at_most_one_event_per_byte(m, bytes.drop_last());
    }
}

/// Where reads split the stream does not change the events, nor where the
/// parser ends up.
pub proof fn law_chunking_is_invisible(m: ParserModel, a: Seq<u8>, b: Seq<u8>)
    ensures
        m.run(a + b) == m.run(a).run(b),
        m.events_on(a + b) == m.events_on(a) + m.run(a).events_on(b),
    decreases b.len(),
{
    if b.len() == 0 {
        assert(a + b =~= a);
        assert(m.events_on(a) + m.run(a).events_on(b) =~= m.events_on(a));
    } else {
        law_chunking_is_invisible(m, a, b.drop_last());
        assert((a + b).drop_last() =~= a + b.drop_last());
        assert((a + b).last() == b.last());
        match m.run(a).run(b.drop_last()).event_on(b.last()) {
            Some(e) => {
                assert((m.events_on(a) + m.run(a).events_on(b.drop_last())).push(e) =~= m.events_on(a)
                    + m.run(a).events_on(b.drop_last()).push(e));
            },
            None => {},
        }
    }
}

/// No byte is lost, invented or reordered: the bytes of the events, followed
/// by those still pending, are the bytes received.
pub proof fn law_every_byte_is_accounted_for(m: ParserModel, bytes: Seq<u8>)
    ensures
        wire_of_all(m.events_on(bytes)) + m.run(bytes).pending == m.pending + bytes,
    decreases bytes.len(),
{
    if bytes.len() == 0 {
        assert(wire_of_all(m.events_on(bytes)) + m.run(bytes).pending =~= m.pending + bytes);
    } else {
        let init = bytes.drop_last();
        law_every_byte_is_accounted_for(m, init);
        let full = m.run(init).received(bytes.last());
        assert(m.pending + bytes =~= (m.pending + init).push(bytes.last()));
        assert((wire_of_all(m.events_on(init)) + m.run(init).pending).push(bytes.last())
            =~= wire_of_all(m.events_on(init)) + full.pending);
        match full.completed() {
            Some(e) => {
                let w = crate::parser::wire_of(e);
                assert(full.pending =~= w + full.pending.skip(w.len() as int));
                assert(m.events_on(bytes).drop_last() =~= m.events_on(init));
                assert(wire_of_all(m.events_on(init)) + full.pending =~= wire_of_all(
                    m.events_on(bytes),
                ) + full.pending.skip(w.len() as int));
            },
            None => {},
        }
    }
}

/// Every event is faithful to the bytes it carries.
pub proof fn law_events_are_faithful(m: ParserModel, bytes: Seq<u8>, i: int)
    requires
        0 <= i < m.events_on(bytes).len(),
    ensures
        faithful(m.events_on(bytes)[i]),
    decreases bytes.len(),
{
    let init = bytes.drop_last();
    if i < m.events_on(init).len() {
        law_events_are_faithful(m, init, i);
    }
}

/// A slot response is only ever recognised in answer to the S.BUS2 frame
/// before it, with nothing but other slot responses in between, and it is
/// reported under the group of that frame.
pub proof fn law_slots_answer_their_frame(m: ParserModel, bytes: Seq<u8>)
    ensures
        m.run(bytes).group == context_after(m.group, m.events_on(bytes)),
        forall|i: int|
            0 <= i < m.events_on(bytes).len() ==> (#[trigger] m.events_on(
                bytes,
            )[i] matches EventModel::Slot { group, .. } ==> context_after(
                m.group,
                m.events_on(bytes).take(i),
            ) == Some(group)),
    decreases bytes.len(),
{
    if bytes.len() > 0 {
        let init = bytes.drop_last();
        law_slots_answer_their_frame(m, init);
        let events = m.events_on(bytes);
        let before = m.events_on(init);
        match m.run(init).event_on(bytes.last()) {
            Some(e) => {
                assert(events.drop_last() =~= before);
                assert forall|i: int| 0 <= i < events.len() implies (
                #[trigger] events[i] matches EventModel::Slot { group, .. } ==> context_after(
                    m.group,
                    events.take(i),
                ) == Some(group)) by {
                    if i < before.len() {
                        assert(events[i] == before[i]);
                        assert(events.take(i) =~= before.take(i));
                    } else {
                        assert(events.take(i) =~= before);
                    }
                }
            },
            None => {},
        }
    }
}

/// A dropped byte means that the group is no longer known: it takes the slot
/// context with it.
pub proof fn law_desync_clears_the_slot_context(m: ParserModel, byte: u8)
    ensures
        m.event_on(byte) matches Some(EventModel::Desync { .. }) ==> m.next(byte).group is None,
{
}

/// One unit of the wire.
pub enum Unit {
    /// A control frame.
    Frame(Seq<u8>),
    /// A telemetry slot response.
    Slot(Seq<u8>),
}

/// The bytes of a unit.
pub open spec fn unit_bytes(unit: Unit) -> Seq<u8> {
    match unit {
        Unit::Frame(raw) => raw,
        Unit::Slot(raw) => raw,
    }
}

/// The stream that units make up.
pub open spec fn stream_of(units: Seq<Unit>) -> Seq<u8>
    decreases units.len(),
{
    if units.len() == 0 {
        Seq::empty()
    } else {
        stream_of(units.drop_last()) + unit_bytes(units.last())
    }
}

/// The group that the last frame among the units selects.
pub open spec fn group_selected(units: Seq<Unit>) -> Option<u8>
    decreases units.len(),
{
    if units.len() == 0 {
        None
    } else {
        match units.last() {
            Unit::Frame(raw) => crate::frame::frame_of(raw).footer.slot_group(),
            Unit::Slot(_) => group_selected(units.drop_last()),
        }
    }
}

/// Whether units are what a receiver sends: well-formed, with slot responses
/// only after an S.BUS2 frame.
pub open spec fn is_healthy(units: Seq<Unit>) -> bool
    decreases units.len(),
{
    units.len() > 0 ==> {
        &&& is_healthy(units.drop_last())
        &&& match units.last() {
            Unit::Frame(raw) => crate::frame::is_frame(raw),
            Unit::Slot(raw) => crate::slot::is_slot(raw) && group_selected(units.drop_last()) is Some,
        }
    }
}

/// The event that reports unit `i`.
pub open spec fn report_of(units: Seq<Unit>, i: int) -> EventModel {
    match units[i] {
        Unit::Frame(raw) => crate::parser::frame_event(raw),
        Unit::Slot(raw) => crate::parser::slot_event(group_selected(units.take(i))->0, raw),
    }
}

proof fn lemma_unit_prefix(m: ParserModel, raw: Seq<u8>, n: int)
    requires
        m.pending.len() == 0,
        crate::frame::is_frame(raw) && n < FRAME_LEN || crate::slot::is_slot(raw) && n < SLOT_LEN,
        0 <= n,
    ensures
        m.run(raw.take(n)) == (ParserModel { pending: raw.take(n), group: m.group }),
        m.events_on(raw.take(n)) == Seq::<EventModel>::empty(),
    decreases n,
{
    if n == 0 {
        assert(m.pending =~= raw.take(0));
    } else {
        lemma_unit_prefix(m, raw, n - 1);
        assert(raw.take(n).drop_last() =~= raw.take(n - 1));
        assert(raw.take(n - 1).push(raw[n - 1]) =~= raw.take(n));
        crate::slot::law_start_is_not_a_slot_id();
    }
}

proof fn lemma_unit(m: ParserModel, raw: Seq<u8>)
    requires
        m.pending.len() == 0,
        crate::frame::is_frame(raw) || crate::slot::is_slot(raw) && m.group is Some,
    ensures
        crate::frame::is_frame(raw) ==> {
            &&& m.run(raw) == (ParserModel {
                pending: Seq::empty(),
                group: crate::frame::frame_of(raw).footer.slot_group(),
            })
            &&& m.events_on(raw) == seq![crate::parser::frame_event(raw)]
        },
        crate::slot::is_slot(raw) ==> {
            &&& m.run(raw) == (ParserModel { pending: Seq::empty(), group: m.group })
            &&& m.events_on(raw) == seq![crate::parser::slot_event(m.group->0, raw)]
        },
{
    let n = raw.len() - 1;
    lemma_unit_prefix(m, raw, n);
    assert(raw.drop_last() =~= raw.take(n));
    crate::slot::law_start_is_not_a_slot_id();
    let full = m.run(raw.drop_last()).received(raw.last());
    assert(full.pending =~= raw);
    assert(raw.take(raw.len() as int) =~= raw);
    assert(raw.skip(raw.len() as int) =~= Seq::empty());
    let empty: Seq<EventModel> = Seq::empty();
    if crate::frame::is_frame(raw) {
        assert(empty.push(crate::parser::frame_event(raw)) =~= seq![crate::parser::frame_event(raw)]);
    } else {
        assert(empty.push(crate::parser::slot_event(m.group->0, raw)) =~= seq![
            crate::parser::slot_event(m.group->0, raw),
        ]);
    }
}

/// A healthy stream is decoded in full: every unit is reported, in order and
/// under its group, no byte is taken for noise and none is left over.
pub proof fn law_healthy_stream_is_decoded_in_full(units: Seq<Unit>)
    requires
        is_healthy(units),
    ensures
        ParserModel::fresh().events_on(stream_of(units)) == Seq::new(
            units.len(),
            |i: int| report_of(units, i),
        ),
        ParserModel::fresh().run(stream_of(units)) == (ParserModel {
            pending: Seq::empty(),
            group: group_selected(units),
        }),
    decreases units.len(),
{
    let m = ParserModel::fresh();
    let reports = Seq::new(units.len(), |i: int| report_of(units, i));
    if units.len() == 0 {
        assert(m.events_on(stream_of(units)) =~= reports);
    } else {
        let init = units.drop_last();
        law_healthy_stream_is_decoded_in_full(init);
        let raw = unit_bytes(units.last());
        law_chunking_is_invisible(m, stream_of(init), raw);
        lemma_unit(m.run(stream_of(init)), raw);
        crate::slot::law_start_is_not_a_slot_id();
        let last = units.len() - 1;
        assert(units.take(last) =~= init);
        assert forall|i: int| 0 <= i < last implies report_of(init, i) == report_of(units, i) by {
            assert(init.take(i) =~= units.take(i));
        }
        assert(m.events_on(stream_of(units)) =~= reports);
    }
}

/// The events of dropping every byte.
pub open spec fn dropped(bytes: Seq<u8>) -> Seq<EventModel> {
    Seq::new(bytes.len(), |i: int| EventModel::Desync { byte: bytes[i] })
}

proof fn lemma_garbage_prefix(m: ParserModel, s: Seq<u8>, garbage: int, n: int)
    requires
        m.pending.len() == 0,
        m.group is Some ==> crate::slot::slot_index_of(s[0]) is None,
        0 <= garbage <= s.len(),
        forall|i: int| 0 <= i < garbage ==> s[i] != START,
        0 <= n <= s.len(),
        n <= garbage + FRAME_LEN - 1,
    ensures
        n < FRAME_LEN ==> m.run(s.take(n)) == (ParserModel { pending: s.take(n), group: m.group })
            && m.events_on(s.take(n)) == Seq::<EventModel>::empty(),
        n >= FRAME_LEN ==> m.run(s.take(n)) == (ParserModel {
            pending: s.subrange(n - FRAME_LEN + 1, n),
            group: None,
        }) && m.events_on(s.take(n)) == dropped(s.take(n - FRAME_LEN + 1)),
    decreases n,
{
    if n == 0 {
        assert(m.pending =~= s.take(0));
    } else {
        lemma_garbage_prefix(m, s, garbage, n - 1);
        assert(s.take(n).drop_last() =~= s.take(n - 1));
        let before = m.run(s.take(n - 1));
        let full = before.received(s[n - 1]);
        if n < FRAME_LEN {
            assert(full.pending =~= s.take(n));
        } else {
            assert(full.pending =~= s.subrange(n - FRAME_LEN, n));
            assert(full.pending[0] == s[n - FRAME_LEN]);
            let byte = full.pending[0];
            assert(full.completed() == Some(EventModel::Desync { byte }));
            assert(full.pending.skip(1) =~= s.subrange(n - FRAME_LEN + 1, n));
            if n == FRAME_LEN {
                assert(Seq::<EventModel>::empty().push(EventModel::Desync { byte }) =~= dropped(
                    s.take(1),
                ));
            } else {
                assert(dropped(s.take(n - FRAME_LEN)).push(EventModel::Desync { byte }) =~= dropped(
                    s.take(n - FRAME_LEN + 1),
                ));
            }
        }
    }
}

/// A parser finds its way back: garbage after a complete unit costs exactly
/// itself, byte by byte in order, and the frame behind it is decoded. Garbage
/// holds no start byte and, while slot responses are expected, does not begin
/// with a slot ID; slot responses further on in it are not trusted.
pub proof fn law_garbage_costs_only_itself(m: ParserModel, garbage: Seq<u8>, frame: Seq<u8>)
    requires
        m.pending.len() == 0,
        m.group is Some && garbage.len() > 0 ==> crate::slot::slot_index_of(garbage[0]) is None,
        forall|i: int| 0 <= i < garbage.len() ==> garbage[i] != START,
        crate::frame::is_frame(frame),
    ensures
        m.events_on(garbage + frame) == dropped(garbage).push(crate::parser::frame_event(frame)),
        m.run(garbage + frame) == (ParserModel {
            pending: Seq::empty(),
            group: crate::frame::frame_of(frame).footer.slot_group(),
        }),
{
    let s = garbage + frame;
    let n = s.len() - 1;
    let k = garbage.len() as int;
    crate::slot::law_start_is_not_a_slot_id();
    lemma_garbage_prefix(m, s, k, n);
    assert(s.drop_last() =~= s.take(n));
    let full = m.run(s.take(n)).received(s.last());
    assert(full.pending =~= frame);
    assert(frame.take(FRAME_LEN as int) =~= frame);
    assert(frame.skip(FRAME_LEN as int) =~= Seq::empty());
    if k == 0 {
        assert(dropped(garbage) =~= Seq::empty());
    } else {
        assert(s.take(n - FRAME_LEN + 1) =~= garbage);
    }
}

/// A new parser holds nothing and expects no slot response.
pub proof fn law_a_fresh_parser_is_empty()
    ensures
        ParserModel::fresh().pending.len() == 0,
        ParserModel::fresh().group is None,
{
}

/// What one byte completes is decided by the bytes then held, `held`, and the
/// slot context:
///
/// - three bytes that begin with a slot ID are a slot response, if the context
///   names a group;
/// - otherwise fewer than 25 bytes complete nothing;
/// - otherwise `0x0F` at the front with a footer byte 24 bytes on is a frame;
/// - and otherwise the front byte is dropped.
///
/// What an event carries is gone from the front of what is held, and nothing
/// else is. An event says what decoding its own bytes says.
pub proof fn law_the_bytes_held_decide(m: ParserModel, byte: u8)
    ensures
        ({
            let held = m.pending.push(byte);
            let slot = m.group is Some && held.len() >= 3 && held[0] & 0b111 == 0b011;
            let footer = held[24];
            let frame = held[0] == 0x0F && (footer == 0x00 || footer == 0x04 || footer == 0x14
                || footer == 0x24 || footer == 0x34);
            if slot {
                &&& m.event_on(byte) matches Some(EventModel::Slot { group, response, raw })
                &&& Some(group) == m.group
                &&& raw == held.take(3)
                &&& response == crate::slot::slot_of(raw)
                &&& m.next(byte).pending == held.skip(3)
                &&& m.next(byte).group == m.group
            } else if held.len() < 25 {
                &&& m.event_on(byte) is None
                &&& m.next(byte).pending == held
                &&& m.next(byte).group == m.group
            } else if frame {
                &&& m.event_on(byte) matches Some(EventModel::Frame { frame, raw })
                &&& raw == held.take(25)
                &&& crate::frame::decoded_frame(raw) == Ok::<_, crate::frame::FrameError>(frame)
                &&& m.next(byte).pending == held.skip(25)
                &&& m.next(byte).group == (if footer == 0x00 {
                    None
                } else {
                    Some(((footer - 4) / 16) as u8)
                })
            } else {
                &&& m.event_on(byte) matches Some(EventModel::Desync { byte: front })
                &&& front == held[0]
                &&& m.next(byte).pending == held.skip(1)
                &&& m.next(byte).group is None
            }
        }),
{
    let held = m.pending.push(byte);
    let front = held[0];
    assert(front & 0b111 == front % 8) by (bit_vector);
}

/// A list of bytes is taken in byte by byte: each byte adds the event that it
/// completes, if any, after those before it.
pub proof fn law_bytes_are_taken_one_by_one(m: ParserModel, bytes: Seq<u8>, byte: u8)
    ensures
        m.events_on(Seq::empty()) == Seq::<EventModel>::empty(),
        m.run(Seq::empty()) == m,
        m.run(bytes.push(byte)) == m.run(bytes).next(byte),
        m.events_on(bytes.push(byte)) == m.events_on(bytes) + (match m.run(bytes).event_on(byte) {
            Some(e) => seq![e],
            None => Seq::empty(),
        }),
{
    assert(bytes.push(byte).drop_last() =~= bytes);
    match m.run(bytes).event_on(byte) {
        Some(e) => {
            assert(m.events_on(bytes).push(e) =~= m.events_on(bytes) + seq![e]);
        },
        None => {
            assert(m.events_on(bytes) =~= m.events_on(bytes) + Seq::empty());
        },
    }
}

} // verus!
