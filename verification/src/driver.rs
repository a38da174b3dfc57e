//! A receive session: everything that happens to the bytes of a port once
//! they have been read.
//!
//! The port itself stays with the caller, who reads it, hands the outcome of
//! each read to [`Sbus::poll_raw`], and says how much time has passed.

use vstd::prelude::*;

use crate::frame::{Frame, FrameModel};
use crate::parser::{Event, EventModel, Parser, ParserModel};
use crate::state::{FrameRate, State, StateModel, RATE_WINDOW_NANOS};

verus! {

broadcast use vstd::seq::group_seq_axioms;

/// S.BUS line rate.
pub const BAUD: u32 = 100_000;

/// Per-read poll timeout, in milliseconds. Short, so callers can re-check their
/// own deadline.
pub const READ_POLL_TIMEOUT_MILLIS: u64 = 20;

/// Receive buffer size. One 15 ms frame period carries at most 49 bytes
/// (frame + eight slot responses), so this holds several periods.
pub const RX_CHUNK: usize = 256;

/// How a read of the port went.
#[derive(Debug, Clone, Copy, PartialEq, Eq, Structural)]
pub enum ReadOutcome {
    /// This many bytes arrived.
    Read(usize),
    /// Nothing arrived in time. A quiet line is normal when the transmitter is
    /// off.
    TimedOut,
    /// The port failed.
    Failed,
}

impl ReadOutcome {
    /// The number of bytes that arrived, unless the port failed.
    pub open spec fn count(self) -> Option<int> {
        match self {
            ReadOutcome::Read(n) => Some(n as int),
            ReadOutcome::TimedOut => Some(0),
            ReadOutcome::Failed => None,
        }
    }
}

/// What a caller who waits for a control frame does next.
#[derive(Debug, Clone, Copy, PartialEq, Eq)]
pub enum ReadFrame {
    /// Return this frame.
    Received(Frame),
    /// Give up: the deadline has passed.
    TimedOut,
    /// Poll again.
    Waiting,
}

/// The last control frame among events.
pub open spec fn last_frame(events: Seq<EventModel>) -> Option<FrameModel>
    decreases events.len(),
{
    if events.len() == 0 {
        None
    } else {
        match events.last() {
            EventModel::Frame { frame, .. } => Some(frame),
            _ => last_frame(events.drop_last()),
        }
    }
}

/// A receive-only S.BUS / S.BUS2 session.
///
/// The line is inverted in hardware and has no transmit path, so a session
/// never writes and never inverts in software.
#[derive(Debug)]
pub struct Sbus {
    parser: Parser,
    state: State,
    rate_count: u32,
}

/// Where a session stands.
#[verifier::ext_equal]
pub struct SbusModel {
    pub parser: ParserModel,
    pub state: StateModel,
    /// Control frames received since the rate was last updated.
    pub rate_count: nat,
}

impl View for Sbus {
    type V = SbusModel;

    closed spec fn view(&self) -> SbusModel {
        SbusModel {
            parser: self.parser@,
            state: self.state@,
            rate_count: self.rate_count as nat,
        }
    }
}

impl SbusModel {
    /// A session in which nothing has been read.
    pub open spec fn fresh() -> SbusModel {
        SbusModel { parser: ParserModel::fresh(), state: StateModel::initial(), rate_count: 0 }
    }

    /// The session after more bytes have been read.
    pub open spec fn polled(self, bytes: Seq<u8>) -> SbusModel {
        let state = self.state.fold(self.parser.events_on(bytes));
        SbusModel {
            parser: self.parser.run(bytes),
            state,
            rate_count: (self.rate_count + state.counters.frames
                - self.state.counters.frames) as nat,
        }
    }

    /// The session after it has been told how much time has passed since the
    /// rate was last updated. Once that is a full window, the rate is the
    /// number of frames over that time, and counting starts again.
    pub open spec fn rated(self, elapsed_nanos: u128) -> SbusModel {
        if elapsed_nanos >= RATE_WINDOW_NANOS {
            SbusModel {
                state: StateModel {
                    fps: FrameRate { frames: self.rate_count as u32, nanos: elapsed_nanos },
                    ..self.state
                },
                rate_count: 0,
                ..self
            }
        } else {
            self
        }
    }

    /// Whether all counts fit their machine words.
    pub open spec fn fits(self) -> bool {
        self.state.counters.room_for(0) && self.rate_count <= u32::MAX
    }
}

proof fn lemma_fold_grows(state: StateModel, events: Seq<EventModel>, n: int)
    requires
        0 <= n <= events.len(),
    ensures
        state.counters.frames <= state.fold(events.take(n)).counters.frames,
        state.fold(events.take(n)).counters.frames <= state.fold(events).counters.frames,
        state.fold(events).counters.room_for(0) ==> state.fold(events.take(n)).counters.room_for(0),
{
    let a = events.take(n);
    let b = events.skip(n);
    assert(a + b =~= events);
    crate::state::law_fold_in_batches(state, a, b);
    crate::state::law_counters_partition_events(state, a);
    crate::state::law_counters_partition_events(state.fold(a), b);
}

impl Sbus {
    /// A session in which nothing has been read.
    pub fn new() -> (sbus: Sbus)
        ensures
            sbus@ == SbusModel::fresh(),
    {
        Sbus { parser: Parser::new(), state: State::default(), rate_count: 0 }
    }

    /// Latest values and counters.
    pub fn state(&self) -> (state: &State)
        ensures
            state@ == self@.state,
    {
        &self.state
    }

    /// Whether `count` more bytes can be polled with no counter overflowing.
    pub fn has_room_for(&self, count: usize) -> (room: bool)
        ensures
            room == (self@.state.counters.room_for(count as int) && self@.rate_count + count
                <= u32::MAX),
            room ==> forall|bytes: Seq<u8>|
                bytes.len() <= count ==> #[trigger] self@.polled(bytes).fits(),
    {
        let room: bool = self.state.counters.has_room_for(count as u64) && count as u64
            <= (u32::MAX - self.rate_count) as u64;
        proof {
            assert forall|bytes: Seq<u8>| room && bytes.len() <= count implies
                #[trigger] self@.polled(bytes).fits() by {
                let events = self@.parser.events_on(bytes);
                crate::stream::law_at_most_one_event_per_byte(self@.parser, bytes);
                crate::state::law_counters_partition_events(self@.state, events);
            }
        }
        room
    }

    /// Take in the outcome of one read into `rx`: decode the bytes that
    /// arrived, and return their events in order. `None` means that the port
    /// failed; nothing has changed then.
    ///
    /// An idle port yields no events rather than a failure, since a quiet line
    /// is normal when the transmitter is off.
    pub fn poll_raw(&mut self, rx: &[u8], outcome: ReadOutcome) -> (events: Option<Vec<Event>>)
        requires
            outcome.count() matches Some(n) ==> n <= rx@.len() && old(self)@.polled(
                rx@.take(n),
            ).fits(),
        ensures
            events is Some <==> outcome.count() is Some,
            events is None ==> final(self)@ == old(self)@,
            events matches Some(events) ==> {
                let bytes = rx@.take(outcome.count()->0);
                &&& crate::parser::events_view(events@) == old(self)@.parser.events_on(bytes)
                &&& final(self)@ == old(self)@.polled(bytes)
            },
    {
        let read: usize = match outcome {
            ReadOutcome::Read(n) => n,
            ReadOutcome::TimedOut => 0,
            ReadOutcome::Failed => return None,
        };
        let ghost bytes = rx@.take(read as int);
        let ghost before = self@;
        let ghost all = before.parser.events_on(bytes);
        let mut events: Vec<Event> = Vec::new();
        assert(crate::parser::events_view(events@) =~= Seq::empty());
        assert(bytes.take(0) =~= Seq::empty());
        for i in 0..read
            invariant
                read <= rx@.len(),
                bytes == rx@.take(read as int),
                before.polled(bytes).fits(),
                all == before.parser.events_on(bytes),
                self@ == before.polled(bytes.take(i as int)),
                crate::parser::events_view(events@) == before.parser.events_on(bytes.take(i as int)),
        {
            let ghost done = bytes.take(i as int);
            let ghost more = bytes.take(i + 1);
            let ghost done_events = before.parser.events_on(done);
            let ghost more_events = before.parser.events_on(more);
            proof {
                assert(more.drop_last() =~= done);
                assert(more + bytes.skip(i + 1) =~= bytes);
                crate::stream::law_chunking_is_invisible(before.parser, more, bytes.skip(i + 1));
                assert(all.take(more_events.len() as int) =~= more_events);
                lemma_fold_grows(before.state, all, more_events.len() as int);
                crate::state::law_counters_partition_events(before.state, done_events);
            }
            let byte: u8 = rx[i];
            let ghost listed = events@;
            if let Some(event) = self.parser.push(byte) {
                assert(more_events.drop_last() =~= done_events);
                self.state.apply(&event);
                if let Event::Frame { .. } = event {
                    self.rate_count = self.rate_count + 1;
                }
                events.push(event);
                assert(crate::parser::events_view(events@) =~= crate::parser::events_view(
                    listed,
                ).push(event@));
            }
        }
        assert(bytes.take(read as int) =~= bytes);
        Some(events)
    }

    /// Take in that `elapsed_nanos` have passed since the rate was last
    /// updated. Returns whether it has been updated now, so that the time
    /// counts from here.
    pub fn update_rate(&mut self, elapsed_nanos: u128) -> (updated: bool)
        ensures
            updated == (elapsed_nanos >= RATE_WINDOW_NANOS),
            final(self)@ == old(self)@.rated(elapsed_nanos),
    {
        if elapsed_nanos >= RATE_WINDOW_NANOS {
            self.state.fps = FrameRate { frames: self.rate_count, nanos: elapsed_nanos };
            self.rate_count = 0;
            true
        } else {
            false
        }
    }

    /// What a caller who waits for a control frame does after a poll that
    /// gave `events`, where `expired` says whether the deadline has passed. A
    /// frame that made it is returned whatever the deadline, and where several
    /// arrived at once it is the last.
    pub fn read_frame(events: &Vec<Event>, expired: bool) -> (step: ReadFrame)
        ensures
            match last_frame(crate::parser::events_view(events@)) {
                Some(frame) => step matches ReadFrame::Received(f) && f@ == frame,
                None => step == if expired {
                    ReadFrame::TimedOut
                } else {
                    ReadFrame::Waiting
                },
            },
            forall|i: int|
                0 <= i < events@.len() && (#[trigger] events@[i]) is Frame && (forall|k: int|
                    i < k < events@.len() ==> !((#[trigger] events@[k]) is Frame)) ==> (
                step matches ReadFrame::Received(f) && f@ == (events@[i]->Frame_frame)@),
            (forall|i: int| 0 <= i < events@.len() ==> !((#[trigger] events@[i]) is Frame)) ==> step
                == if expired {
                ReadFrame::TimedOut
            } else {
                ReadFrame::Waiting
            },
    {
        let ghost view = crate::parser::events_view(events@);
        let mut got: Option<Frame> = None;
        for i in 0..events.len()
            invariant
                view == crate::parser::events_view(events@),
                crate::state::frame_view(got) == last_frame(view.take(i as int)),
        {
            assert(view.take(i + 1).drop_last() =~= view.take(i as int));
            assert(view.take(i + 1).last() == events@[i as int]@);
            if let Event::Frame { frame, .. } = &events[i] {
                got = Some(*frame);
            }
        }
        assert(view.take(view.len() as int) =~= view);
        proof {
            assert(forall|k: int|
                0 <= k < view.len() ==> (#[trigger] view[k] is Frame <==> events@[k] is Frame));
            assert forall|i: int|
                0 <= i < events@.len() && (#[trigger] events@[i]) is Frame && (forall|k: int|
                    i < k < events@.len() ==> !((#[trigger] events@[k]) is Frame)) implies last_frame(
                view,
            ) == Some((events@[i]->Frame_frame)@) by {
                assert(view[i] is Frame);
                law_the_last_frame_is_received(view, i);
            }
            if forall|i: int| 0 <= i < events@.len() ==> !((#[trigger] events@[i]) is Frame) {
                law_the_last_frame_is_received(view, -1);
            }
        }
        match got {
            Some(frame) => ReadFrame::Received(frame),
            None => if expired {
                ReadFrame::TimedOut
            } else {
                ReadFrame::Waiting
            },
        }
    }

    /// Discard the bytes buffered in the parser, together with its slot
    /// context. Values and counters stay.
    pub fn resync(&mut self)
        ensures
            final(self)@ == (SbusModel { parser: ParserModel::fresh(), ..old(self)@ }),
    {
        self.parser.reset();
    }
}

/// One turn of a live session: bytes are polled, then the clock is read.
pub struct Turn {
    pub bytes: Seq<u8>,
    pub elapsed_nanos: u128,
}

/// Where turns lead from `session` on.
pub open spec fn session_after(session: SbusModel, turns: Seq<Turn>) -> SbusModel
    decreases turns.len(),
{
    if turns.len() == 0 {
        session
    } else {
        session_after(session, turns.drop_last()).polled(turns.last().bytes).rated(
            turns.last().elapsed_nanos,
        )
    }
}

/// The bytes of a session, as a capture records them.
pub open spec fn capture_of(turns: Seq<Turn>) -> Seq<u8>
    decreases turns.len(),
{
    if turns.len() == 0 {
        Seq::empty()
    } else {
        capture_of(turns.drop_last()) + turns.last().bytes
    }
}

proof fn lemma_fold_ignores_fps(state: StateModel, fps: FrameRate, events: Seq<EventModel>)
    ensures
        (StateModel { fps, ..state }).fold(events) == (StateModel { fps, ..state.fold(events) }),
    decreases events.len(),
{
    if events.len() > 0 {
        lemma_fold_ignores_fps(state, fps, events.drop_last());
    }
}

/// Replaying a capture gives exactly the numbers of the live session: however
/// the reads fell, and whenever the clock was read, all but the frame rate is
/// what one pass over the recorded bytes gives.
pub proof fn law_replay_equals_live(turns: Seq<Turn>)
    ensures
        ({
            let live = session_after(SbusModel::fresh(), turns);
            let replayed = SbusModel::fresh().polled(capture_of(turns));
            &&& live.parser == replayed.parser
            &&& live.state == (StateModel { fps: live.state.fps, ..replayed.state })
        }),
    decreases turns.len(),
{
    let fresh = SbusModel::fresh();
    if turns.len() > 0 {
        let init = turns.drop_last();
        law_replay_equals_live(init);
        let before = session_after(fresh, init);
        let a = capture_of(init);
        let b = turns.last().bytes;
        crate::stream::law_chunking_is_invisible(fresh.parser, a, b);
        crate::state::law_fold_in_batches(
            fresh.state,
            fresh.parser.events_on(a),
            fresh.parser.run(a).events_on(b),
        );
        lemma_fold_ignores_fps(
            fresh.state.fold(fresh.parser.events_on(a)),
            before.state.fps,
            fresh.parser.run(a).events_on(b),
        );
    }
}

/// The rate counts every frame once: a poll adds to the count for the rate
/// exactly the frames that it adds to the frame counter.
pub proof fn law_rate_counts_frames(session: SbusModel, bytes: Seq<u8>)
    ensures
        session.polled(bytes).rate_count - session.rate_count
            == session.polled(bytes).state.counters.frames - session.state.counters.frames,
        session.polled(bytes).rate_count >= session.rate_count,
{
    crate::state::law_counters_partition_events(session.state, session.parser.events_on(bytes));
}

/// Whoever waits for a frame gets the one of the greatest index among the
/// events of a poll, wherever it stands and whatever follows it, and nothing
/// exactly where no event is a frame (`i == -1`).
pub proof fn law_the_last_frame_is_received(events: Seq<EventModel>, i: int)
    requires
        -1 <= i < events.len(),
        i >= 0 ==> events[i] is Frame,
        forall|k: int| i < k < events.len() ==> !((#[trigger] events[k]) is Frame),
    ensures
        i >= 0 ==> last_frame(events) == Some(events[i]->Frame_frame),
        i == -1 ==> last_frame(events) is None,
    decreases events.len(),
{
    if events.len() > 0 && i < events.len() - 1 {
        assert(!(events[events.len() - 1] is Frame));
        law_the_last_frame_is_received(events.drop_last(), i);
    }
}

/// A read yields the bytes that it says arrived, a timeout yields none, and only
/// a failed read yields no answer.
pub proof fn law_a_timeout_is_an_empty_read(n: usize)
    ensures
        ReadOutcome::Read(n).count() == Some(n as int),
        ReadOutcome::TimedOut.count() == Some(0int),
        ReadOutcome::TimedOut.count() == ReadOutcome::Read(0).count(),
        ReadOutcome::Failed.count() is None,
{
}

/// A new session has received nothing.
pub proof fn law_a_fresh_session_is_empty()
    ensures
        SbusModel::fresh().parser.pending.len() == 0,
        SbusModel::fresh().parser.group is None,
        SbusModel::fresh().state == StateModel::initial(),
        SbusModel::fresh().rate_count == 0,
{
}

/// A session takes bytes in one by one: each byte goes to the parser, the event
/// that it completes is folded into the state, and the rate counts it if and
/// only if it is a frame.
pub proof fn law_a_session_polls_byte_by_byte(session: SbusModel, bytes: Seq<u8>, byte: u8)
    ensures
        session.polled(Seq::empty()) == session,
        ({
            let before = session.polled(bytes);
            let after = session.polled(bytes.push(byte));
            &&& after.parser == before.parser.next(byte)
            &&& match before.parser.event_on(byte) {
                None => after.state == before.state && after.rate_count == before.rate_count,
                Some(event) => after.state == before.state.apply(event) && after.rate_count
                    == before.rate_count + (if event is Frame {
                    1int
                } else {
                    0
                }),
            }
        }),
{
    crate::stream::law_bytes_are_taken_one_by_one(session.parser, bytes, byte);
    let before = session.parser.events_on(bytes);
    let step = session.parser.run(bytes).event_on(byte);
    crate::state::law_counters_partition_events(session.state, before);
    match step {
        Some(event) => {
            assert(before + seq![event] =~= before.push(event));
            crate::state::law_events_are_folded_one_by_one(session.state, before, event);
        },
        None => {
            assert(before + Seq::<EventModel>::empty() =~= before);
        },
    }
}

/// The rate is updated after one second or more, never before: it is then the
/// frames counted since the last update over the time since then, the count
/// starts again, and nothing else changes.
pub proof fn law_the_rate_is_frames_over_time(session: SbusModel, elapsed_nanos: u128)
    requires
        session.rate_count <= 0xFFFF_FFFF,
    ensures
        elapsed_nanos < 1_000_000_000 ==> session.rated(elapsed_nanos) == session,
        elapsed_nanos >= 1_000_000_000 ==> {
            let after = session.rated(elapsed_nanos);
            &&& after.state.fps.frames == session.rate_count
            &&& after.state.fps.nanos == elapsed_nanos
            &&& after.rate_count == 0
            &&& after.parser == session.parser
            &&& after.state == (StateModel { fps: after.state.fps, ..session.state })
        },
{
}

} // verus!
