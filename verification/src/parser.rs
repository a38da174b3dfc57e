//! Byte-oriented resynchronising parser for the S.BUS / S.BUS2 stream.
//!
//! S.BUS has no checksum and, on S.BUS2, telemetry slot responses arrive
//! about 2 ms after the control frame that selected their group. A decoder
//! therefore cannot validate a frame in isolation, nor assume a frame and its
//! slots land in the same read. [`Parser`] consumes the stream one byte at a
//! time and emits [`Event`]s as units complete.
//!
//! Dropped bytes are reported as [`Event::Desync`] rather than silently
//! discarded: distinguishing genuine garbage from telemetry is the whole
//! problem here, and a caller that cannot see the count has no way to notice
//! it is throwing telemetry away.

use vstd::prelude::*;

use crate::frame::{Footer, Frame, FrameModel, FRAME_LEN, START};
use crate::slot::{slot_index, SlotModel, SlotResponse, SLOT_LEN};

verus! {

broadcast use vstd::seq::group_seq_axioms;

/// Something the parser recognised in the byte stream.
#[allow(inconsistent_fields)]
#[derive(Debug, Clone, Copy, PartialEq, Eq)]
pub enum Event {
    /// A complete 25-byte control frame.
    Frame {
        /// Decoded contents.
        frame: Frame,
        /// The bytes as received, for hexdumps.
        raw: [u8; FRAME_LEN],
    },
    /// A telemetry slot response following an S.BUS2 frame.
    Slot {
        /// Footer group of the frame this answers.
        group: u8,
        /// Decoded contents.
        response: SlotResponse,
        /// The bytes as received, for hexdumps.
        raw: [u8; SLOT_LEN],
    },
    /// One byte dropped while resynchronising.
    Desync {
        /// The discarded byte.
        byte: u8,
    },
}

/// What an [`Event`] says.
#[verifier::ext_equal]
pub enum EventModel {
    Frame { frame: FrameModel, raw: Seq<u8> },
    Slot { group: u8, response: SlotModel, raw: Seq<u8> },
    Desync { byte: u8 },
}

impl View for Event {
    type V = EventModel;

    open spec fn view(&self) -> EventModel {
        match *self {
            Event::Frame { frame, raw } => EventModel::Frame { frame: frame@, raw: raw@ },
            Event::Slot { group, response, raw } => EventModel::Slot {
                group,
                response: response@,
                raw: raw@,
            },
            Event::Desync { byte } => EventModel::Desync { byte },
        }
    }
}

/// What an event that may be there says.
pub open spec fn event_view(event: Option<Event>) -> Option<EventModel> {
    match event {
        Some(e) => Some(e@),
        None => None,
    }
}

/// What a list of events says.
pub open spec fn events_view(events: Seq<Event>) -> Seq<EventModel> {
    events.map_values(|e: Event| e@)
}

/// The event of a control frame.
pub open spec fn frame_event(raw: Seq<u8>) -> EventModel {
    EventModel::Frame { frame: crate::frame::frame_of(raw), raw }
}

/// The event of a slot response that answers `group`.
pub open spec fn slot_event(group: u8, raw: Seq<u8>) -> EventModel {
    EventModel::Slot { group, response: crate::slot::slot_of(raw), raw }
}

/// Where a parser stands in the stream.
#[verifier::ext_equal]
pub struct ParserModel {
    /// Bytes received that no event has accounted for yet.
    pub pending: Seq<u8>,
    /// Group of the last S.BUS2 frame, while slot responses are still expected.
    pub group: Option<u8>,
}

impl ParserModel {
    /// No pending bytes and no slot context.
    pub open spec fn fresh() -> ParserModel {
        ParserModel { pending: Seq::empty(), group: None }
    }

    /// Whether the pending bytes begin with a complete slot response that the
    /// slot context makes plausible.
    pub open spec fn slot_ready(self) -> bool {
        &&& self.group is Some
        &&& self.pending.len() >= SLOT_LEN
        &&& crate::slot::slot_index_of(self.pending[0]) is Some
    }

    /// Whether no complete unit is left among the pending bytes.
    pub open spec fn settled(self) -> bool {
        self.pending.len() < FRAME_LEN && !self.slot_ready()
    }

    /// One more byte has arrived.
    pub open spec fn received(self, byte: u8) -> ParserModel {
        ParserModel { pending: self.pending.push(byte), group: self.group }
    }

    /// The unit that the pending bytes complete, if any.
    ///
    /// In this order: a slot response, while the slot context makes one
    /// plausible; nothing, while there are too few bytes to judge a frame; a
    /// well-formed frame; and failing that one dropped byte.
    pub open spec fn completed(self) -> Option<EventModel> {
        if self.slot_ready() {
            Some(slot_event(self.group->0, self.pending.take(SLOT_LEN as int)))
        } else if self.pending.len() < FRAME_LEN {
            None
        } else if crate::frame::is_frame(self.pending.take(FRAME_LEN as int)) {
            Some(frame_event(self.pending.take(FRAME_LEN as int)))
        } else {
            Some(EventModel::Desync { byte: self.pending[0] })
        }
    }

    /// What is left after an event: its bytes are gone from the front, a frame
    /// sets the slot context to what its footer says, and a dropped byte clears
    /// it.
    pub open spec fn after(self, event: Option<EventModel>) -> ParserModel {
        match event {
            None => self,
            Some(e) => ParserModel {
                pending: self.pending.skip(wire_of(e).len() as int),
                group: match e {
                    EventModel::Frame { frame, .. } => frame.footer.slot_group(),
                    EventModel::Slot { .. } => self.group,
                    EventModel::Desync { .. } => None,
                },
            },
        }
    }

    /// The event that one more byte completes.
    pub open spec fn event_on(self, byte: u8) -> Option<EventModel> {
        self.received(byte).completed()
    }

    /// Where the parser stands after one more byte.
    pub open spec fn next(self, byte: u8) -> ParserModel {
        self.received(byte).after(self.event_on(byte))
    }

    /// Where the parser stands after more bytes.
    pub open spec fn run(self, bytes: Seq<u8>) -> ParserModel
        decreases bytes.len(),
    {
        if bytes.len() == 0 {
            self
        } else {
            self.run(bytes.drop_last()).next(bytes.last())
        }
    }

    /// The events that more bytes complete, in order.
    pub open spec fn events_on(self, bytes: Seq<u8>) -> Seq<EventModel>
        decreases bytes.len(),
    {
        if bytes.len() == 0 {
            Seq::empty()
        } else {
            let before = self.events_on(bytes.drop_last());
            match self.run(bytes.drop_last()).event_on(bytes.last()) {
                Some(e) => before.push(e),
                None => before,
            }
        }
    }
}

/// The bytes that an event accounts for.
pub open spec fn wire_of(event: EventModel) -> Seq<u8> {
    match event {
        EventModel::Frame { raw, .. } => raw,
        EventModel::Slot { raw, .. } => raw,
        EventModel::Desync { byte } => seq![byte],
    }
}

/// Resynchronising S.BUS / S.BUS2 stream parser.
///
/// The internal buffer is fixed: it never needs to exceed one frame, see
/// [`Parser::push`].
#[derive(Debug)]
pub struct Parser {
    buf: [u8; FRAME_LEN],
    len: usize,
    /// Group of the last S.BUS2 frame, while slot responses are still expected.
    slot_group: Option<u8>,
}

impl View for Parser {
    type V = ParserModel;

    closed spec fn view(&self) -> ParserModel {
        ParserModel { pending: self.buf@.take(self.len as int), group: self.slot_group }
    }
}

impl Clone for Parser {
    fn clone(&self) -> (parser: Parser)
        ensures
            parser@ == self@,
    {
        proof {
            use_type_invariant(self);
        }
        Parser { buf: self.buf, len: self.len, slot_group: self.slot_group }
    }
}

impl Default for Parser {
    fn default() -> (parser: Parser)
        ensures
            parser@ == ParserModel::fresh(),
    {
        Parser::new()
    }
}

impl Parser {
    #[verifier::type_invariant]
    spec fn inv(&self) -> bool {
        self.len < FRAME_LEN && self@.settled()
    }

    /// A parser with no buffered bytes and no slot context.
    pub fn new() -> (parser: Parser)
        ensures
            parser@ == ParserModel::fresh(),
    {
        let parser = Parser { buf: [0; FRAME_LEN], len: 0, slot_group: None };
        assert(parser@ =~= ParserModel::fresh());
        parser
    }

    /// Drop all buffered bytes and slot context.
    pub fn reset(&mut self)
        ensures
            final(self)@ == ParserModel::fresh(),
    {
        *self = Parser::new();
    }

    /// Bytes currently buffered, waiting for more input to classify.
    pub fn buffered(&self) -> (count: usize)
        ensures
            count == self@.pending.len(),
            count < FRAME_LEN,
    {
        proof {
            use_type_invariant(self);
        }
        self.len
    }

    /// Push one byte and return the event it completed, if any.
    ///
    /// At most one event per byte. The buffer holds at most [`FRAME_LEN`]
    /// bytes because no completed unit is ever left in it:
    ///
    /// - a slot response is consumed as soon as three bytes are present with a
    ///   slot ID at the head, so that case never accumulates further;
    /// - a frame is consumed, or its head byte dropped, the moment the buffer
    ///   reaches [`FRAME_LEN`];
    /// - dropping a head byte also clears the slot context, so the 24 bytes
    ///   left behind cannot immediately complete a slot either.
    pub fn push(&mut self, byte: u8) -> (event: Option<Event>)
        ensures
            event_view(event) == old(self)@.event_on(byte),
            final(self)@ == old(self)@.next(byte),
            final(self)@.settled(),
    {
        proof {
            use_type_invariant(&*self);
        }
        let ghost before = self@;
        let ghost full = before.received(byte);
        let mut buf = self.buf;
        let len: usize = self.len + 1;
        buf[len - 1] = byte;
        assert(buf@.take(len as int) =~= full.pending);

        // 1. Slot response, but only while a preceding S.BUS2 frame makes one
        //    plausible. Slot IDs and START occupy disjoint byte values, so this
        //    cannot swallow a frame head.
        if let Some(group) = self.slot_group {
            if len >= SLOT_LEN && slot_index(buf[0]).is_some() {
                let raw = [buf[0], buf[1], buf[2]];
                assert(raw@ =~= full.pending.take(SLOT_LEN as int));
                match SlotResponse::decode(&raw) {
                    Some(response) => {
                        // No more than one response was ever pending.
                        assert(len == SLOT_LEN);
                        self.len = 0;
                        assert(self@ =~= before.next(byte));
                        return Some(Event::Slot { group, response, raw });
                    },
                    None => {
                        // The ID was already validated, so decode cannot fail.
                        assert(false);
                    },
                }
            }
        }

        // 2. Not enough bytes to judge a frame yet.
        if len < FRAME_LEN {
            *self = Parser { buf, len, slot_group: self.slot_group };
            return None;
        }

        // 3. A well-formed frame at the head.
        assert(full.pending.take(FRAME_LEN as int) =~= buf@);
        if buf[0] == START {
            if let Some(footer) = Footer::from_byte(buf[FRAME_LEN - 1]) {
                match Frame::decode(&buf) {
                    Ok(frame) => {
                        *self = Parser { buf, len: 0, slot_group: footer.group() };
                        assert(self@ =~= before.next(byte));
                        return Some(Event::Frame { frame, raw: buf });
                    },
                    Err(_) => {
                        assert(false);
                    },
                }
            }
        }

        // 4. Resynchronise: drop the head byte. The slot context goes with it,
        //    since a lost frame boundary means the group is no longer known.
        let dropped: u8 = buf[0];
        let rest = Parser::consume(buf);
        *self = Parser { buf: rest, len: FRAME_LEN - 1, slot_group: None };
        assert(self@ =~= before.next(byte));
        Some(Event::Desync { byte: dropped })
    }

    /// Push a slice and return its events in order.
    ///
    /// Convenience over [`Parser::push`] for callers that read in chunks.
    pub fn push_slice(&mut self, bytes: &[u8]) -> (events: Vec<Event>)
        ensures
            events_view(events@) == old(self)@.events_on(bytes@),
            final(self)@ == old(self)@.run(bytes@),
            final(self)@.settled(),
    {
        proof {
            use_type_invariant(&*self);
        }
        let ghost before = self@;
        let mut events: Vec<Event> = Vec::new();
        assert(events_view(events@) =~= before.events_on(bytes@.take(0)));
        for i in 0..bytes.len()
            invariant
                self@ == before.run(bytes@.take(i as int)),
                self@.settled(),
                events_view(events@) == before.events_on(bytes@.take(i as int)),
        {
            assert(bytes@.take(i + 1).drop_last() =~= bytes@.take(i as int));
            let ghost done = events@;
            if let Some(event) = self.push(bytes[i]) {
                events.push(event);
                assert(events_view(events@) =~= events_view(done).push(event@));
            }
        }
        assert(bytes@.take(bytes@.len() as int) =~= bytes@);
        events
    }

    /// A full buffer without its head byte.
    fn consume(buf: [u8; FRAME_LEN]) -> (rest: [u8; FRAME_LEN])
        ensures
            rest@.take(FRAME_LEN - 1) == buf@.skip(1),
    {
        let mut rest = buf;
        for i in 1..FRAME_LEN
            invariant
                forall|k: int| 0 <= k < i - 1 ==> #[trigger] rest[k] == buf[k + 1],
        {
            rest[i - 1] = buf[i];
        }
        assert(rest@.take(FRAME_LEN - 1) =~= buf@.skip(1));
        rest
    }
}

/// The model of an event shows, under the same kind, each of its fields as it
/// is.
pub proof fn law_an_event_shows_its_fields(event: Event)
    ensures
        event matches Event::Frame { frame, raw } ==> event@ == (EventModel::Frame {
            frame: frame@,
            raw: raw@,
        }),
        event matches Event::Slot { group, response, raw } ==> event@ == (EventModel::Slot {
            group,
            response: response@,
            raw: raw@,
        }),
        event matches Event::Desync { byte } ==> event@ == (EventModel::Desync { byte }),
        event_view(Some(event)) == Some(event@),
        event_view(None) is None,
{
}

/// The model of a list of events shows all of them, in order.
pub proof fn law_a_list_shows_all_its_events(events: Seq<Event>)
    ensures
        events_view(events).len() == events.len(),
        forall|i: int| 0 <= i < events.len() ==> #[trigger] events_view(events)[i] == events[i]@,
{
}

} // verus!
