//! Capture engine: the decisions of a capture. It takes what happens (a
//! command, an opened port, bytes read, a frame gap, a sweep tick) and says
//! what is to be shown and what is to be done next. Whoever drives it does the
//! waiting, the opening and the reading.

use vstd::prelude::*;

use crate::capture::framer;
use crate::capture::framer::{Framer, FramerModel};
use crate::capture::serial::{SerialConfig, SerialModel};
use crate::protocol::frame;
use crate::protocol::frame::ModbusFrame;
use crate::protocol::pdu;
use crate::protocol::pdu::{has_two_readings, parse_pdu, Role};
use crate::session::model;
use crate::session::model::{Entry, EntryModel};
use crate::session::pairing;
use crate::session::pairing::{on_frame, sweep, PairingModel, PairingState};
use crate::time::Timestamp;

verus! {

broadcast use vstd::string::group_string_axioms;

/// How often the timeout sweeper runs, in milliseconds.
pub const SWEEP_INTERVAL: u64 = 50;

/// UI → engine commands.
#[derive(Debug)]
pub enum Command {
    Start(SerialConfig),
    Stop,
    Shutdown,
}

/// Engine → UI events.
#[derive(Debug)]
pub enum Event {
    /// A display entry (request/response/orphan/parse-failure/timeout).
    Entry(Entry),
    /// A capture-level error (port open failure, read error, ...).
    Error(String),
    /// Capture started successfully (port opened).
    Started,
    /// Capture stopped (Stop, error, or port closed).
    Stopped,
}

/// What the engine waits for.
#[derive(Debug)]
pub enum Phase {
    /// A command.
    Idle,
    /// The port of this configuration to be opened.
    Opening(SerialConfig),
    /// A command, bytes, the end of a frame gap or a sweep tick.
    Capturing,
    /// Nothing more.
    Finished,
}

/// What can happen to the engine.
#[derive(Debug)]
pub enum Input {
    /// A command came, or no more command can come.
    Command(Option<Command>),
    /// The port has been opened.
    Opened,
    /// The port could not be opened, for this reason.
    OpenFailed(String),
    /// Bytes were read at a time in microseconds; none at the end of the
    /// stream.
    Read(Vec<u8>, u64),
    /// Reading failed, for this reason.
    ReadFailed(String),
    /// The frame gap is over.
    Gap,
    /// It is time for a sweep.
    Tick,
}

/// The engine between two inputs.
#[derive(Debug)]
pub struct CaptureEngine {
    phase: Phase,
    state: PairingState,
    framer: Framer,
}

// --- models ------------------------------------------------------------------

/// What a [`Command`] holds.
#[verifier::ext_equal]
pub enum CommandModel {
    Start(SerialModel),
    Stop,
    Shutdown,
}

/// What an [`Event`] holds.
#[verifier::ext_equal]
pub enum EventModel {
    Entry(EntryModel),
    Error(Seq<char>),
    Started,
    Stopped,
}

/// What a [`Phase`] holds.
#[verifier::ext_equal]
pub enum PhaseModel {
    Idle,
    Opening(SerialModel),
    Capturing,
    Finished,
}

/// What an [`Input`] holds.
#[verifier::ext_equal]
pub enum InputModel {
    Command(Option<CommandModel>),
    Opened,
    OpenFailed(Seq<char>),
    Read(Seq<u8>, u64),
    ReadFailed(Seq<char>),
    Gap,
    Tick,
}

/// What a [`CaptureEngine`] holds.
#[verifier::ext_equal]
pub struct EngineModel {
    pub phase: PhaseModel,
    pub state: PairingModel,
    pub framer: FramerModel,
}

impl View for Command {
    type V = CommandModel;

    open spec fn view(&self) -> CommandModel {
        match *self {
            Command::Start(cfg) => CommandModel::Start(cfg@),
            Command::Stop => CommandModel::Stop,
            Command::Shutdown => CommandModel::Shutdown,
        }
    }
}

impl View for Event {
    type V = EventModel;

    open spec fn view(&self) -> EventModel {
        match *self {
            Event::Entry(e) => EventModel::Entry(e@),
            Event::Error(msg) => EventModel::Error(msg@),
            Event::Started => EventModel::Started,
            Event::Stopped => EventModel::Stopped,
        }
    }
}

impl View for Phase {
    type V = PhaseModel;

    open spec fn view(&self) -> PhaseModel {
        match *self {
            Phase::Idle => PhaseModel::Idle,
            Phase::Opening(cfg) => PhaseModel::Opening(cfg@),
            Phase::Capturing => PhaseModel::Capturing,
            Phase::Finished => PhaseModel::Finished,
        }
    }
}

impl View for Input {
    type V = InputModel;

    open spec fn view(&self) -> InputModel {
        match *self {
            Input::Command(Some(c)) => InputModel::Command(Some(c@)),
            Input::Command(None) => InputModel::Command(None),
            Input::Opened => InputModel::Opened,
            Input::OpenFailed(e) => InputModel::OpenFailed(e@),
            Input::Read(bytes, at) => InputModel::Read(bytes@, at),
            Input::ReadFailed(e) => InputModel::ReadFailed(e@),
            Input::Gap => InputModel::Gap,
            Input::Tick => InputModel::Tick,
        }
    }
}

impl View for CaptureEngine {
    type V = EngineModel;

    closed spec fn view(&self) -> EngineModel {
        EngineModel { phase: self.phase@, state: self.state@, framer: self.framer@ }
    }
}

/// The events of a list.
pub open spec fn event_views(events: Seq<Event>) -> Seq<EventModel> {
    Seq::new(events.len(), |i: int| events[i]@)
}

/// One event for each entry.
pub open spec fn shown(entries: Seq<EntryModel>) -> Seq<EventModel> {
    Seq::new(entries.len(), |i: int| EventModel::Entry(entries[i]))
}

// --- candidate frames --------------------------------------------------------

/// The role hint under which a frame is read during a capture: none, so that
/// its layout decides, unless two different layouts fit. Then it is the role
/// that the pending requests give it.
pub open spec fn reading_hint(p: PairingModel, slave: u8, function: u8, data: Seq<u8>) -> Role {
    if pdu::fits_two_layouts(function, data) {
        pairing::role_in_context(p, slave, Role::Unknown)
    } else {
        Role::Unknown
    }
}

/// A frame as it is read during a capture.
pub open spec fn read_in(p: PairingModel, f: frame::FrameModel) -> pdu::ParsedModel {
    pdu::decode_pdu(reading_hint(p, f.slave, f.function, f.data), f.function, f.data)
}

/// The pairing state after a candidate frame. Bytes that are no frame take a
/// counter of their own.
pub open spec fn paired(p: PairingModel, raw: Seq<u8>, now: Timestamp) -> PairingModel {
    match frame::frame_of(raw, now) {
        Ok(f) => pairing::state_after(p, f, read_in(p, f)),
        Err(_) => PairingModel { next_counter: (p.next_counter + 1) as u64, ..p },
    }
}

/// The entries that a candidate frame gives. Bytes that are no frame are shown
/// with the reason.
pub open spec fn paired_entries(p: PairingModel, raw: Seq<u8>, now: Timestamp) -> Seq<EntryModel> {
    match frame::frame_of(raw, now) {
        Ok(f) => pairing::entries_after(p, f, read_in(p, f), now),
        Err(e) => seq![
            model::parse_failure_entry(now, p.next_counter, raw, frame::reason_text(e)),
        ],
    }
}

/// The pairing state after candidate frames one after another.
pub open spec fn all_paired(p: PairingModel, frames: Seq<Seq<u8>>, now: Timestamp) -> PairingModel
    decreases frames.len(),
{
    if frames.len() == 0 {
        p
    } else {
        paired(all_paired(p, frames.drop_last(), now), frames.last(), now)
    }
}

/// The entries that candidate frames give one after another.
pub open spec fn all_paired_entries(
    p: PairingModel,
    frames: Seq<Seq<u8>>,
    now: Timestamp,
) -> Seq<EntryModel>
    decreases frames.len(),
{
    if frames.len() == 0 {
        Seq::empty()
    } else {
        all_paired_entries(p, frames.drop_last(), now) + paired_entries(
            all_paired(p, frames.drop_last(), now),
            frames.last(),
            now,
        )
    }
}

/// The candidate frames that a buffer gives after a read: the complete ones at
/// its front and, where what is left is more than a frame can be, all that is
/// left.
pub open spec fn candidates(buf: Seq<u8>) -> Seq<Seq<u8>> {
    let frames = framer::drained_frames(buf);
    let rest = framer::drained_rest(buf);
    if rest.len() > framer::MAX_FRAME_BYTES {
        frames.push(rest)
    } else {
        frames
    }
}

/// What stays in the buffer after a read.
pub open spec fn kept(buf: Seq<u8>) -> Seq<u8> {
    let rest = framer::drained_rest(buf);
    if rest.len() > framer::MAX_FRAME_BYTES {
        Seq::empty()
    } else {
        rest
    }
}

// --- one step ----------------------------------------------------------------

/// The engine when a capture has ended.
pub open spec fn ended(m: EngineModel, phase: PhaseModel) -> EngineModel {
    EngineModel {
        phase,
        state: pairing::clean_state(m.state.response_timeout),
        framer: framer::emptied(m.framer),
    }
}

/// The engine after a command. While it is idle it waits for `Start`; during a
/// capture every command ends the capture, and `Start` leads to the next one.
pub open spec fn command_after(m: EngineModel, cmd: Option<CommandModel>) -> EngineModel {
    match (m.phase, cmd) {
        (PhaseModel::Idle, Some(CommandModel::Start(cfg))) => EngineModel {
            phase: PhaseModel::Opening(cfg),
            ..m
        },
        (PhaseModel::Idle, Some(CommandModel::Stop)) => m,
        (PhaseModel::Idle, _) => EngineModel { phase: PhaseModel::Finished, ..m },
        (PhaseModel::Capturing, Some(CommandModel::Start(cfg))) => ended(
            m,
            PhaseModel::Opening(cfg),
        ),
        (PhaseModel::Capturing, Some(CommandModel::Shutdown)) => ended(m, PhaseModel::Finished),
        (PhaseModel::Capturing, _) => ended(m, PhaseModel::Idle),
        _ => m,
    }
}

/// The events that a command gives.
pub open spec fn command_events(m: EngineModel) -> Seq<EventModel> {
    if m.phase is Capturing {
        seq![EventModel::Stopped]
    } else {
        Seq::empty()
    }
}

/// The engine after its port has been opened: clean, whatever was before.
pub open spec fn opened(cfg: SerialModel) -> EngineModel {
    EngineModel {
        phase: PhaseModel::Capturing,
        state: pairing::clean_state(cfg.response_timeout),
        framer: framer::fresh(framer::gap_micros(cfg.baud) as u64),
    }
}

/// The engine after bytes have been read. No bytes mean the end of the stream.
pub open spec fn read_after(
    m: EngineModel,
    bytes: Seq<u8>,
    at: u64,
    now: Timestamp,
) -> EngineModel {
    if bytes.len() == 0 {
        ended(m, PhaseModel::Idle)
    } else {
        let buf = m.framer.buf + bytes;
        EngineModel {
            phase: m.phase,
            state: all_paired(m.state, candidates(buf), now),
            framer: FramerModel { buf: kept(buf), last_byte_time: at, gap: m.framer.gap },
        }
    }
}

/// The events that bytes give.
pub open spec fn read_events(m: EngineModel, bytes: Seq<u8>, now: Timestamp) -> Seq<EventModel> {
    if bytes.len() == 0 {
        seq![EventModel::Stopped]
    } else {
        shown(all_paired_entries(m.state, candidates(m.framer.buf + bytes), now))
    }
}

/// The engine after a frame gap: what is in the buffer is a candidate frame.
pub open spec fn gap_after(m: EngineModel, now: Timestamp) -> EngineModel {
    if m.framer.buf.len() == 0 {
        m
    } else {
        EngineModel {
            phase: m.phase,
            state: paired(m.state, m.framer.buf, now),
            framer: framer::emptied(m.framer),
        }
    }
}

/// The events that a frame gap gives.
pub open spec fn gap_events(m: EngineModel, now: Timestamp) -> Seq<EventModel> {
    if m.framer.buf.len() == 0 {
        Seq::empty()
    } else {
        shown(paired_entries(m.state, m.framer.buf, now))
    }
}

/// The engine after a sweep.
pub open spec fn tick_after(m: EngineModel, now: Timestamp) -> EngineModel {
    EngineModel { state: pairing::retired(m.state, pairing::expired(m.state, now)), ..m }
}

/// The events that a sweep gives.
pub open spec fn tick_events(m: EngineModel, now: Timestamp) -> Seq<EventModel> {
    shown(pairing::timeouts(now, pairing::counters_of(pairing::expired(m.state, now))))
}

/// The engine after an input.
pub open spec fn engine_after(m: EngineModel, input: InputModel, now: Timestamp) -> EngineModel {
    match (m.phase, input) {
        (_, InputModel::Command(cmd)) => command_after(m, cmd),
        (PhaseModel::Opening(cfg), InputModel::Opened) => opened(cfg),
        (PhaseModel::Opening(_), InputModel::OpenFailed(_)) => EngineModel {
            phase: PhaseModel::Idle,
            ..m
        },
        (PhaseModel::Capturing, InputModel::Read(bytes, at)) => read_after(m, bytes, at, now),
        (PhaseModel::Capturing, InputModel::ReadFailed(_)) => ended(m, PhaseModel::Idle),
        (PhaseModel::Capturing, InputModel::Gap) => gap_after(m, now),
        (PhaseModel::Capturing, InputModel::Tick) => tick_after(m, now),
        _ => m,
    }
}

/// The events that an input gives.
pub open spec fn events_after(
    m: EngineModel,
    input: InputModel,
    now: Timestamp,
) -> Seq<EventModel> {
    match (m.phase, input) {
        (_, InputModel::Command(_)) => command_events(m),
        (PhaseModel::Opening(_), InputModel::Opened) => seq![EventModel::Started],
        (PhaseModel::Opening(cfg), InputModel::OpenFailed(e)) => seq![
            EventModel::Error("open "@ + cfg.port + ": "@ + e),
            EventModel::Stopped,
        ],
        (PhaseModel::Capturing, InputModel::Read(bytes, _)) => read_events(m, bytes, now),
        (PhaseModel::Capturing, InputModel::ReadFailed(e)) => seq![
            EventModel::Error("read: "@ + e),
            EventModel::Stopped,
        ],
        (PhaseModel::Capturing, InputModel::Gap) => gap_events(m, now),
        (PhaseModel::Capturing, InputModel::Tick) => tick_events(m, now),
        _ => Seq::empty(),
    }
}

/// Whether an input can be taken: a port that was opened has a baud rate, and
/// the counter does not run out on the frames that the bytes may hold.
pub open spec fn has_room(m: EngineModel, input: InputModel) -> bool {
    match (m.phase, input) {
        (PhaseModel::Opening(cfg), InputModel::Opened) => cfg.baud > 0,
        (PhaseModel::Capturing, InputModel::Read(bytes, _)) => m.state.next_counter
            + m.framer.buf.len() + bytes.len() <= u64::MAX,
        (PhaseModel::Capturing, InputModel::Gap) => m.state.next_counter < u64::MAX,
        _ => true,
    }
}

proof fn lemma_paired_counter(p: PairingModel, raw: Seq<u8>, now: Timestamp)
    requires
        p.next_counter < u64::MAX,
    ensures
        paired(p, raw, now).next_counter <= p.next_counter + 1,
{
}

proof fn lemma_all_paired_counter(p: PairingModel, frames: Seq<Seq<u8>>, now: Timestamp)
    requires
        p.next_counter + frames.len() <= u64::MAX,
    ensures
        all_paired(p, frames, now).next_counter <= p.next_counter + frames.len(),
    decreases frames.len(),
{
    if frames.len() > 0 {
        lemma_all_paired_counter(p, frames.drop_last(), now);
        lemma_paired_counter(all_paired(p, frames.drop_last(), now), frames.last(), now);
    }
}

proof fn lemma_frame_count(buf: Seq<u8>)
    ensures
        framer::drained_frames(buf).len() + framer::drained_rest(buf).len() <= buf.len(),
        candidates(buf).len() <= buf.len(),
    decreases buf.len(),
{
    framer::peeled_frame_fits(buf);
    if let Some(n) = framer::peel_len(buf) {
        lemma_frame_count(buf.skip(n as int));
    }
}

impl CaptureEngine {
    /// An engine that waits for its first command.
    pub fn new(response_timeout: u64) -> (r: Self)
        ensures
            r@ == (EngineModel {
                phase: PhaseModel::Idle,
                state: pairing::clean_state(response_timeout),
                framer: framer::fresh(0),
            }),
    {
        CaptureEngine {
            phase: Phase::Idle,
            state: PairingState::new(response_timeout),
            framer: Framer::with_gap(0),
        }
    }

    /// What the engine waits for.
    pub fn phase(&self) -> (r: &Phase)
        ensures
            r@ == self@.phase,
    {
        &self.phase
    }

    /// When the bytes in the buffer become a frame by themselves; `None` while
    /// there are none.
    pub fn gap_deadline(&self) -> (r: Option<u64>)
        requires
            framer::deadline(self@.framer) matches Some(t) ==> t <= u64::MAX,
        ensures
            r is None <==> framer::deadline(self@.framer) is None,
            r matches Some(t) ==> framer::deadline(self@.framer) == Some(t as int),
    {
        self.framer.gap_deadline()
    }

    /// How many more counters can be given out.
    pub fn counters_left(&self) -> (r: u64)
        ensures
            r == u64::MAX - self@.state.next_counter,
    {
        u64::MAX - self.state.next_counter
    }

    /// How many bytes wait in the buffer.
    pub fn buffered(&self) -> (r: usize)
        ensures
            r == self@.framer.buf.len(),
    {
        self.framer.buffer_len()
    }

    /// Validate a candidate frame's bytes and feed it through the pairing
    /// state machine, emitting any resulting entries. CRC/structural failures
    /// become `ParseFailure` entries (still shown; nothing is discarded).
    fn process_frame_raw(&mut self, raw: Vec<u8>, now: Timestamp, out: &mut Vec<Event>)
        requires
            old(self)@.state.next_counter < u64::MAX,
        ensures
            final(self)@ == (EngineModel {
                state: paired(old(self)@.state, raw@, now),
                ..old(self)@
            }),
            event_views(final(out)@) == event_views(old(out)@) + shown(
                paired_entries(old(self)@.state, raw@, now),
            ),
    {
        let ghost p = self.state@;
        let shown_raw = raw.clone();
        assert(shown_raw@ =~= raw@);
        match ModbusFrame::from_bytes(raw, now) {
            Ok(f) => {
                let hint = if has_two_readings(f.function, f.data.as_slice()) {
                    self.state.settle_role(f.slave, Role::Unknown)
                } else {
                    Role::Unknown
                };
                let parsed = parse_pdu(hint, f.function, f.data.as_slice());
                let mut state = PairingState::new(self.state.response_timeout);
                core::mem::swap(&mut self.state, &mut state);
                let (state, entries) = on_frame(state, f, parsed, now);
                self.state = state;
                emit_entries(out, &entries);
            },
            Err(err) => {
                let counter = self.state.next_counter;
                self.state.next_counter = counter + 1;
                let entry = Entry::parse_failure(now, counter, shown_raw, err.reason());
                let ghost before = event_views(out@);
                out.push(Event::Entry(entry));
                assert(event_views(out@) =~= before + shown(paired_entries(p, raw@, now)));
            },
        }
    }

    /// Expire pending requests whose response_timeout has elapsed.
    fn do_sweep(&mut self, now: Timestamp) -> (r: Vec<Event>)
        ensures
            final(self)@ == tick_after(old(self)@, now),
            event_views(r@) == tick_events(old(self)@, now),
    {
        let mut state = PairingState::new(self.state.response_timeout);
        core::mem::swap(&mut self.state, &mut state);
        let (state, entries) = sweep(state, now);
        self.state = state;
        let mut out: Vec<Event> = Vec::new();
        emit_entries(&mut out, &entries);
        assert(event_views(out@) =~= shown(model::entry_views(entries@)));
        out
    }

    /// Take in the bytes of a read: peel off the complete frames, and force a
    /// flush where what is left has grown past the safety limit.
    fn on_read(&mut self, bytes: &[u8], at: u64, now: Timestamp) -> (r: Vec<Event>)
        requires
            old(self)@.state.next_counter + old(self)@.framer.buf.len() + bytes@.len() <= u64::MAX,
        ensures
            final(self)@ == read_after(old(self)@, bytes@, at, now),
            event_views(r@) == read_events(old(self)@, bytes@, now),
    {
        if bytes.len() == 0 {
            // End of the stream: the port was closed under us.
            return self.end(Phase::Idle);
        }
        let ghost m = self@;
        let ghost buf = m.framer.buf + bytes@;
        let mut out: Vec<Event> = Vec::new();
        self.framer.push(bytes, at);
        let frames = self.framer.drain_complete();
        let ghost all = framer::frame_views(frames@);
        proof {
            lemma_frame_count(buf);
            assert(all.take(0) =~= Seq::<Seq<u8>>::empty());
            assert(event_views(out@) =~= shown(all_paired_entries(m.state, all.take(0), now)));
        }
        let ghost framed = self.framer@;
        let mut i: usize = 0;
        while i < frames.len()
            invariant
                i <= frames.len(),
                all == framer::frame_views(frames@),
                m.state.next_counter + all.len() <= u64::MAX,
                self@ == (EngineModel {
                    phase: m.phase,
                    state: all_paired(m.state, all.take(i as int), now),
                    framer: framed,
                }),
                event_views(out@) == shown(all_paired_entries(m.state, all.take(i as int), now)),
            decreases frames.len() - i,
        {
            let raw = frames[i].clone();
            let ghost so_far = all_paired_entries(m.state, all.take(i as int), now);
            let ghost p = self@.state;
            proof {
                assert(raw@ =~= all[i as int]);
                assert(all.take(i + 1).drop_last() =~= all.take(i as int));
                assert(all.take(i + 1).last() == raw@);
                lemma_all_paired_counter(m.state, all.take(i as int), now);
            }
            self.process_frame_raw(raw, now, &mut out);
            assert(event_views(out@) =~= shown(so_far + paired_entries(p, raw@, now)));
            i = i + 1;
        }
        assert(all.take(i as int) =~= all);
        if self.framer.overflowed() {
            let raw = self.framer.flush_due();
            let ghost so_far = all_paired_entries(m.state, all, now);
            let ghost p = self@.state;
            proof {
                lemma_all_paired_counter(m.state, all, now);
                assert(candidates(buf).drop_last() =~= all);
                assert(candidates(buf).last() == raw@);
            }
            self.process_frame_raw(raw, now, &mut out);
            assert(event_views(out@) =~= shown(so_far + paired_entries(p, raw@, now)));
        }
        out
    }

    /// The frame gap is over: emit what is in the buffer as a candidate frame.
    fn on_gap(&mut self, now: Timestamp) -> (r: Vec<Event>)
        requires
            old(self)@.state.next_counter < u64::MAX,
        ensures
            final(self)@ == gap_after(old(self)@, now),
            event_views(r@) == gap_events(old(self)@, now),
    {
        let ghost m = self@;
        let mut out: Vec<Event> = Vec::new();
        if self.framer.buffer_len() > 0 {
            let raw = self.framer.flush_due();
            self.process_frame_raw(raw, now, &mut out);
        }
        assert(event_views(out@) =~= gap_events(m, now));
        out
    }

    /// End the capture.
    fn end(&mut self, phase: Phase) -> (r: Vec<Event>)
        ensures
            final(self)@ == ended(old(self)@, phase@),
            event_views(r@) == seq![EventModel::Stopped],
    {
        self.framer.reset();
        self.state.reset();
        self.phase = phase;
        let mut out: Vec<Event> = Vec::new();
        out.push(Event::Stopped);
        assert(event_views(out@) =~= seq![EventModel::Stopped]);
        out
    }

    /// Handle a command.
    fn on_command(&mut self, cmd: Option<Command>) -> (r: Vec<Event>)
        ensures
            final(self)@ == command_after(old(self)@, command_view(cmd)),
            event_views(r@) == command_events(old(self)@),
    {
        match &self.phase {
            Phase::Idle => {
                match cmd {
                    Some(Command::Start(cfg)) => {
                        self.phase = Phase::Opening(cfg);
                    },
                    Some(Command::Stop) => {},
                    Some(Command::Shutdown) => {
                        self.phase = Phase::Finished;
                    },
                    None => {
                        self.phase = Phase::Finished;
                    },
                }
                no_events()
            },
            Phase::Capturing => match cmd {
                Some(Command::Start(cfg)) => self.end(Phase::Opening(cfg)),
                Some(Command::Shutdown) => self.end(Phase::Finished),
                Some(Command::Stop) => self.end(Phase::Idle),
                None => self.end(Phase::Idle),
            },
            _ => no_events(),
        }
    }

    /// The port has been opened. A fresh `Start` always begins from a clean
    /// pairing state.
    fn on_opened(&mut self, cfg: &SerialConfig) -> (r: Vec<Event>)
        requires
            cfg.baud > 0,
        ensures
            final(self)@ == opened(cfg@),
            event_views(r@) == seq![EventModel::Started],
    {
        self.state = PairingState::new(cfg.response_timeout);
        self.framer = Framer::new(cfg.baud);
        self.phase = Phase::Capturing;
        let mut out: Vec<Event> = Vec::new();
        out.push(Event::Started);
        assert(event_views(out@) =~= seq![EventModel::Started]);
        out
    }

    /// Take in what has happened. Returns what is to be shown; what the engine
    /// then waits for is told by [`CaptureEngine::phase`]. An input that the
    /// engine does not wait for changes nothing.
    pub fn step(&mut self, input: Input, now: Timestamp) -> (r: Vec<Event>)
        requires
            has_room(old(self)@, input@),
        ensures
            final(self)@ == engine_after(old(self)@, input@, now),
            event_views(r@) == events_after(old(self)@, input@, now),
    {
        if let Input::Command(cmd) = input {
            return self.on_command(cmd);
        }
        match &self.phase {
            Phase::Opening(cfg) => {
                let cfg = cfg.clone();
                match input {
                    Input::Opened => self.on_opened(&cfg),
                    Input::OpenFailed(e) => {
                        self.phase = Phase::Idle;
                        let msg = String::from_str("open ").concat(cfg.port.as_str()).concat(
                            ": ",
                        ).concat(e.as_str());
                        failed(msg)
                    },
                    _ => no_events(),
                }
            },
            Phase::Capturing => match input {
                Input::Read(bytes, at) => self.on_read(bytes.as_slice(), at, now),
                Input::ReadFailed(e) => {
                    self.end(Phase::Idle);
                    failed(String::from_str("read: ").concat(e.as_str()))
                },
                Input::Gap => self.on_gap(now),
                Input::Tick => self.do_sweep(now),
                _ => no_events(),
            },
            _ => no_events(),
        }
    }
}

/// The contents of an optional command.
pub open spec fn command_view(cmd: Option<Command>) -> Option<CommandModel> {
    match cmd {
        Some(c) => Some(c@),
        None => None,
    }
}

/// No events.
fn no_events() -> (r: Vec<Event>)
    ensures
        event_views(r@) == Seq::<EventModel>::empty(),
{
    let out: Vec<Event> = Vec::new();
    assert(event_views(out@) =~= Seq::<EventModel>::empty());
    out
}

/// An error and the end that it brings.
fn failed(msg: String) -> (r: Vec<Event>)
    ensures
        event_views(r@) == seq![EventModel::Error(msg@), EventModel::Stopped],
{
    let mut out: Vec<Event> = Vec::new();
    out.push(Event::Error(msg));
    out.push(Event::Stopped);
    assert(event_views(out@) =~= seq![EventModel::Error(msg@), EventModel::Stopped]);
    out
}

/// Append an event for each entry.
fn emit_entries(out: &mut Vec<Event>, entries: &Vec<Entry>)
    ensures
        event_views(final(out)@) == event_views(old(out)@) + shown(model::entry_views(entries@)),
{
    let ghost before = event_views(out@);
    let ghost all = model::entry_views(entries@);
    let mut i: usize = 0;
    assert(event_views(out@) =~= before + shown(all.take(0)));
    while i < entries.len()
        invariant
            i <= entries.len(),
            all == model::entry_views(entries@),
            event_views(out@) == before + shown(all.take(i as int)),
        decreases entries.len() - i,
    {
        let ghost so_far = event_views(out@);
        out.push(Event::Entry(entries[i].clone()));
        i = i + 1;
        assert(event_views(out@) =~= so_far.push(EventModel::Entry(all[i - 1])));
        assert(event_views(out@) =~= before + shown(all.take(i as int)));
    }
    assert(all.take(i as int) =~= all);
}

// --- laws --------------------------------------------------------------------

/// The bytes that events show, one entry after another.
pub open spec fn shown_bytes(events: Seq<EventModel>) -> Seq<u8>
    decreases events.len(),
{
    if events.len() == 0 {
        Seq::empty()
    } else {
        match events.last() {
            EventModel::Entry(e) => shown_bytes(events.drop_last()) + e.raw,
            _ => shown_bytes(events.drop_last()),
        }
    }
}

proof fn lemma_shown_bytes_concat(a: Seq<EventModel>, b: Seq<EventModel>)
    ensures
        shown_bytes(a + b) == shown_bytes(a) + shown_bytes(b),
    decreases b.len(),
{
    if b.len() == 0 {
        assert(a + b =~= a);
        assert(shown_bytes(a) + shown_bytes(b) =~= shown_bytes(a));
    } else {
        lemma_shown_bytes_concat(a, b.drop_last());
        assert((a + b).drop_last() =~= a + b.drop_last());
        assert((a + b).last() == b.last());
        assert(shown_bytes(a + b) =~= shown_bytes(a) + shown_bytes(b));
    }
}

/// Entries without bytes show none.
proof fn lemma_no_bytes(entries: Seq<EntryModel>)
    requires
        forall|i: int| 0 <= i < entries.len() ==> (#[trigger] entries[i]).raw.len() == 0,
    ensures
        shown_bytes(shown(entries)) == Seq::<u8>::empty(),
    decreases entries.len(),
{
    if entries.len() > 0 {
        lemma_no_bytes(entries.drop_last());
        assert(shown(entries).drop_last() =~= shown(entries.drop_last()));
        assert(entries[entries.len() - 1].raw.len() == 0);
        assert(shown_bytes(shown(entries)) =~= Seq::<u8>::empty());
    }
}

/// A candidate frame is shown byte for byte.
proof fn lemma_candidate_is_shown(p: PairingModel, raw: Seq<u8>, now: Timestamp)
    ensures
        shown_bytes(shown(paired_entries(p, raw, now))) == raw,
{
    let entries = paired_entries(p, raw, now);
    if let Ok(f) = frame::frame_of(raw, now) {
        pairing::every_frame_is_shown(p, f, read_in(p, f), now);
    }
    assert(entries.len() > 0 && entries.last().raw == raw);
    assert forall|i: int| 0 <= i < entries.drop_last().len() implies (
    #[trigger] entries.drop_last()[i]).raw.len() == 0 by {
        assert(entries[i].raw.len() == 0);
    }
    lemma_no_bytes(entries.drop_last());
    assert(shown(entries).drop_last() =~= shown(entries.drop_last()));
    assert(shown_bytes(shown(entries)) =~= raw);
}

proof fn lemma_candidates_are_shown(p: PairingModel, frames: Seq<Seq<u8>>, now: Timestamp)
    ensures
        shown_bytes(shown(all_paired_entries(p, frames, now))) == frames.flatten(),
    decreases frames.len(),
{
    if frames.len() > 0 {
        let front = frames.drop_last();
        let before = all_paired_entries(p, front, now);
        let q = all_paired(p, front, now);
        let last = paired_entries(q, frames.last(), now);
        lemma_candidates_are_shown(p, front, now);
        lemma_candidate_is_shown(q, frames.last(), now);
        assert(shown(before + last) =~= shown(before) + shown(last));
        lemma_shown_bytes_concat(shown(before), shown(last));
        front.lemma_flatten_push(frames.last());
        assert(front.push(frames.last()) =~= frames);
    } else {
        assert(shown(all_paired_entries(p, frames, now)) =~= Seq::<EventModel>::empty());
        assert(frames.flatten() =~= Seq::<u8>::empty());
    }
}

/// Nothing is ever discarded: whatever a read brings is, byte for byte and in
/// order, either shown by the entries it gives or still in the buffer, behind
/// what was in the buffer before.
pub proof fn read_discards_nothing(m: EngineModel, bytes: Seq<u8>, at: u64, now: Timestamp)
    requires
        m.phase is Capturing,
        bytes.len() > 0,
    ensures
        ({
            let input = InputModel::Read(bytes, at);
            shown_bytes(events_after(m, input, now)) + engine_after(m, input, now).framer.buf
                == m.framer.buf + bytes
        }),
{
    let buf = m.framer.buf + bytes;
    let frames = framer::drained_frames(buf);
    let rest = framer::drained_rest(buf);
    framer::draining_keeps_every_byte(buf);
    lemma_candidates_are_shown(m.state, candidates(buf), now);
    if rest.len() > framer::MAX_FRAME_BYTES {
        frames.lemma_flatten_push(rest);
    }
    assert(candidates(buf).flatten() + kept(buf) =~= buf);
}

/// A frame gap shows all that is in the buffer, and a sweep shows no bytes and
/// leaves the buffer as it is.
pub proof fn gap_and_sweep_discard_nothing(m: EngineModel, now: Timestamp)
    requires
        m.phase is Capturing,
    ensures
        shown_bytes(events_after(m, InputModel::Gap, now)) == m.framer.buf,
        engine_after(m, InputModel::Gap, now).framer.buf.len() == 0,
        shown_bytes(events_after(m, InputModel::Tick, now)).len() == 0,
        engine_after(m, InputModel::Tick, now).framer == m.framer,
{
    if m.framer.buf.len() > 0 {
        lemma_candidate_is_shown(m.state, m.framer.buf, now);
    } else {
        assert(m.framer.buf =~= Seq::<u8>::empty());
    }
    lemma_no_bytes(
        pairing::timeouts(now, pairing::counters_of(pairing::expired(m.state, now))),
    );
}

/// The buffer never holds more than a frame between two inputs.
pub proof fn buffer_stays_small(m: EngineModel, input: InputModel, now: Timestamp)
    requires
        m.framer.buf.len() <= framer::MAX_FRAME_BYTES,
    ensures
        engine_after(m, input, now).framer.buf.len() <= framer::MAX_FRAME_BYTES,
{
}

/// Whether a capture runs, as told by events: started and not stopped since.
pub open spec fn runs_after(running: bool, events: Seq<EventModel>) -> bool
    decreases events.len(),
{
    if events.len() == 0 {
        running
    } else {
        match events.last() {
            EventModel::Started => true,
            EventModel::Stopped => false,
            _ => runs_after(running, events.drop_last()),
        }
    }
}

proof fn lemma_entries_start_nothing(running: bool, entries: Seq<EntryModel>)
    ensures
        runs_after(running, shown(entries)) == running,
    decreases entries.len(),
{
    if entries.len() > 0 {
        lemma_entries_start_nothing(running, entries.drop_last());
        assert(shown(entries).drop_last() =~= shown(entries.drop_last()));
    }
}

/// Whoever follows the events knows whether a capture runs: after every input
/// the events so far say that it does exactly if the engine is capturing.
pub proof fn events_tell_whether_a_capture_runs(
    m: EngineModel,
    input: InputModel,
    now: Timestamp,
)
    ensures
        runs_after(m.phase is Capturing, events_after(m, input, now)) == (engine_after(
            m,
            input,
            now,
        ).phase is Capturing),
{
    let running = m.phase is Capturing;
    match input {
        InputModel::Read(bytes, _) => {
            lemma_entries_start_nothing(
                running,
                all_paired_entries(m.state, candidates(m.framer.buf + bytes), now),
            );
        },
        InputModel::Gap => {
            lemma_entries_start_nothing(running, paired_entries(m.state, m.framer.buf, now));
        },
        InputModel::Tick => {
            lemma_entries_start_nothing(
                running,
                pairing::timeouts(now, pairing::counters_of(pairing::expired(m.state, now))),
            );
        },
        _ => {},
    }
}

/// However a capture has ended, the next one starts with an empty buffer,
/// nothing pending, nothing timed out, and counts from 1.
pub proof fn every_capture_starts_clean(m: EngineModel, cfg: SerialModel, now: Timestamp)
    requires
        m.phase == PhaseModel::Opening(cfg),
    ensures
        ({
            let started = engine_after(m, InputModel::Opened, now);
            &&& started.phase is Capturing
            &&& started.state == pairing::clean_state(cfg.response_timeout)
            &&& started.framer.buf.len() == 0
        }),
{
}

/// After `Shutdown`, nothing happens any more.
pub proof fn finished_engine_stays_finished(m: EngineModel, input: InputModel, now: Timestamp)
    requires
        m.phase is Finished,
    ensures
        engine_after(m, input, now) == m,
        events_after(m, input, now).len() == 0,
{
}

/// What holds of the pairing state at every moment of a capture.
pub open spec fn pairing_holds(p: PairingModel) -> bool {
    pairing::well_formed(p) && pairing::one_outstanding(p)
}

proof fn lemma_paired_holds(p: PairingModel, raw: Seq<u8>, now: Timestamp)
    requires
        pairing_holds(p),
        p.next_counter < u64::MAX,
    ensures
        pairing_holds(paired(p, raw, now)),
{
    match frame::frame_of(raw, now) {
        Ok(f) => {
            let parsed = read_in(p, f);
            pairing::frame_keeps_well_formed(p, f, parsed);
            pairing::at_most_one_request_is_pending(p, 0, f, parsed, now);
        },
        Err(_) => {
            let q = paired(p, raw, now);
            assert(q.pending == p.pending && q.timed_out == p.timed_out);
            assert(forall|s: u8, req: pairing::PendingModel|
                pairing::on_record(p, s, req) ==> pairing::on_record(q, s, req));
        },
    }
}

proof fn lemma_all_paired_holds(p: PairingModel, frames: Seq<Seq<u8>>, now: Timestamp)
    requires
        pairing_holds(p),
        p.next_counter + frames.len() <= u64::MAX,
    ensures
        pairing_holds(all_paired(p, frames, now)),
    decreases frames.len(),
{
    if frames.len() > 0 {
        let front = frames.drop_last();
        lemma_all_paired_holds(p, front, now);
        lemma_all_paired_counter(p, front, now);
        lemma_paired_holds(all_paired(p, front, now), frames.last(), now);
    }
}

/// Every input keeps the pairing state in order: each request is filed under
/// its slave, no two on record share a counter, and at most one is pending.
pub proof fn every_input_keeps_the_pairing_in_order(
    m: EngineModel,
    input: InputModel,
    now: Timestamp,
)
    requires
        pairing_holds(m.state),
        has_room(m, input),
    ensures
        pairing_holds(engine_after(m, input, now).state),
{
    pairing::clean_state_is_well_formed(m.state.response_timeout);
    match (m.phase, input) {
        (PhaseModel::Opening(cfg), InputModel::Opened) => {
            pairing::clean_state_is_well_formed(cfg.response_timeout);
        },
        (PhaseModel::Capturing, InputModel::Read(bytes, _)) => {
            lemma_frame_count(m.framer.buf + bytes);
            lemma_all_paired_holds(m.state, candidates(m.framer.buf + bytes), now);
        },
        (PhaseModel::Capturing, InputModel::Gap) => {
            lemma_paired_holds(m.state, m.framer.buf, now);
        },
        (PhaseModel::Capturing, InputModel::Tick) => {
            pairing::sweep_keeps_well_formed(m.state, now);
        },
        _ => {},
    }
}

/// The entries that events show, one after another.
pub open spec fn shown_entries(events: Seq<EventModel>) -> Seq<EntryModel>
    decreases events.len(),
{
    if events.len() == 0 {
        Seq::empty()
    } else {
        match events.last() {
            EventModel::Entry(e) => shown_entries(events.drop_last()).push(e),
            _ => shown_entries(events.drop_last()),
        }
    }
}

proof fn lemma_shown_entries(entries: Seq<EntryModel>)
    ensures
        shown_entries(shown(entries)) == entries,
    decreases entries.len(),
{
    if entries.len() > 0 {
        lemma_shown_entries(entries.drop_last());
        assert(shown(entries).drop_last() =~= shown(entries.drop_last()));
        assert(entries.drop_last().push(entries.last()) =~= entries);
    } else {
        assert(entries =~= Seq::empty());
    }
}

proof fn lemma_candidate_on_file(
    entries: Seq<EntryModel>,
    p: PairingModel,
    raw: Seq<u8>,
    now: Timestamp,
)
    requires
        pairing_holds(p),
        pairing::on_file(entries, p),
        p.next_counter < u64::MAX,
    ensures
        pairing::on_file(entries + paired_entries(p, raw, now), paired(p, raw, now)),
{
    match frame::frame_of(raw, now) {
        Ok(f) => {
            pairing::frame_keeps_entries_on_file(entries, p, f, read_in(p, f), now);
        },
        Err(e) => {
            pairing::parse_failure_keeps_entries_on_file(
                entries,
                p,
                now,
                raw,
                frame::reason_text(e),
            );
        },
    }
}

proof fn lemma_candidates_on_file(
    entries: Seq<EntryModel>,
    p: PairingModel,
    frames: Seq<Seq<u8>>,
    now: Timestamp,
)
    requires
        pairing_holds(p),
        pairing::on_file(entries, p),
        p.next_counter + frames.len() <= u64::MAX,
    ensures
        pairing::on_file(
            entries + all_paired_entries(p, frames, now),
            all_paired(p, frames, now),
        ),
    decreases frames.len(),
{
    if frames.len() > 0 {
        let front = frames.drop_last();
        let before = all_paired_entries(p, front, now);
        let q = all_paired(p, front, now);
        let last = paired_entries(q, frames.last(), now);
        lemma_candidates_on_file(entries, p, front, now);
        lemma_all_paired_holds(p, front, now);
        lemma_all_paired_counter(p, front, now);
        lemma_candidate_on_file(entries + before, q, frames.last(), now);
        assert((entries + before) + last =~= entries + (before + last));
    } else {
        assert(entries + all_paired_entries(p, frames, now) =~= entries);
    }
}

/// A capture starts with no entries, and whatever happens while it runs, its
/// entries stay on file: each response, timeout, no-response and late response
/// goes with a request among them, by its counter and by its slave. So sessions
/// can be told apart, and shown or hidden as a whole.
pub proof fn capture_keeps_entries_on_file(
    entries: Seq<EntryModel>,
    m: EngineModel,
    input: InputModel,
    now: Timestamp,
)
    requires
        has_room(m, input),
        m.phase is Capturing ==> pairing_holds(m.state) && pairing::on_file(entries, m.state),
        !(m.phase is Capturing) ==> entries.len() == 0,
        engine_after(m, input, now).phase is Capturing,
    ensures
        pairing::on_file(
            entries + shown_entries(events_after(m, input, now)),
            engine_after(m, input, now).state,
        ),
{
    let out = shown_entries(events_after(m, input, now));
    match (m.phase, input) {
        (PhaseModel::Capturing, InputModel::Read(bytes, _)) => {
            let frames = candidates(m.framer.buf + bytes);
            lemma_frame_count(m.framer.buf + bytes);
            lemma_candidates_on_file(entries, m.state, frames, now);
            lemma_shown_entries(all_paired_entries(m.state, frames, now));
        },
        (PhaseModel::Capturing, InputModel::Gap) => {
            if m.framer.buf.len() > 0 {
                lemma_candidate_on_file(entries, m.state, m.framer.buf, now);
                lemma_shown_entries(paired_entries(m.state, m.framer.buf, now));
            } else {
                assert(entries + out =~= entries);
            }
        },
        (PhaseModel::Capturing, InputModel::Tick) => {
            pairing::sweep_keeps_entries_on_file(entries, m.state, now);
            lemma_shown_entries(
                pairing::timeouts(now, pairing::counters_of(pairing::expired(m.state, now))),
            );
        },
        _ => {
            reveal_with_fuel(shown_entries, 2);
            assert(entries + out =~= entries);
        },
    }
}

/// The data of a frame is read in the role in which the frame is shown wherever
/// its layout, or the requests pending where two layouts fit, can tell: what is
/// shown as a request is decoded as one, and what is shown as a response, in
/// time or not, is decoded as a response. Where nothing can tell it is decoded
/// without a role.
pub proof fn frames_are_read_in_their_role(p: PairingModel, raw: Seq<u8>, now: Timestamp)
    requires
        frame::frame_of(raw, now) is Ok,
    ensures
        ({
            let f = frame::frame_of(raw, now)->Ok_0;
            let last = paired_entries(p, raw, now).last();
            let told = pdu::layout_role(f.function, f.data) != Role::Unknown
                || pdu::fits_two_layouts(f.function, f.data);
            let role = if !told {
                Role::Unknown
            } else if last.tag == model::Tag::Request {
                Role::Request
            } else {
                Role::Response
            };
            let details = pdu::decode(role, f.function, f.data);
            let parsed = pdu::ParsedModel { function: f.function, role, details };
            match last.body {
                model::BodyModel::Frame { parsed: shown, .. } => shown == parsed,
                model::BodyModel::Orphan { late, .. } => late == parsed,
                model::BodyModel::Unsolicited { parsed: shown, .. } => shown == parsed,
                _ => false,
            }
        }),
{
}

/// The data of a frame's bytes.
pub open spec fn frame_data(raw: Seq<u8>) -> Seq<u8> {
    raw.subrange(2, raw.len() - 2)
}

/// What a frame's bytes are read as in a pairing state.
pub open spec fn read_as(p: PairingModel, raw: Seq<u8>) -> pdu::ParsedModel {
    let data = frame_data(raw);
    pdu::decode_pdu(reading_hint(p, raw[0], raw[1], data), raw[1], data)
}

/// The role that a frame's bytes show.
pub open spec fn shown_role(raw: Seq<u8>) -> Role {
    pdu::layout_role(raw[1], frame_data(raw))
}

/// Whether bytes are one complete frame and nothing more.
pub open spec fn is_one_frame(raw: Seq<u8>) -> bool {
    framer::drained_frames(raw) == seq![raw] && framer::drained_rest(raw).len() == 0
}

proof fn lemma_one_frame(m: EngineModel, raw: Seq<u8>, at: u64, now: Timestamp)
    requires
        m.phase is Capturing,
        m.framer.buf.len() == 0,
        is_one_frame(raw),
    ensures
        ({
            let input = InputModel::Read(raw, at);
            let f = frame::FrameModel {
                raw,
                slave: raw[0],
                function: raw[1],
                data: frame_data(raw),
                timestamp: now,
            };
            let parsed = read_as(m.state, raw);
            &&& engine_after(m, input, now).phase is Capturing
            &&& engine_after(m, input, now).framer.buf.len() == 0
            &&& engine_after(m, input, now).state == pairing::state_after(m.state, f, parsed)
            &&& events_after(m, input, now) == shown(
                pairing::entries_after(m.state, f, parsed, now),
            )
        }),
{
    framer::drained_frames_are_accepted(raw, 0, now);
    assert(framer::drained_frames(raw)[0] == raw);
    assert(m.framer.buf + raw =~= raw);
    let frames = candidates(raw);
    assert(frames =~= seq![raw]);
    assert(frames.drop_last() =~= Seq::<Seq<u8>>::empty());
    reveal_with_fuel(all_paired, 2);
    reveal_with_fuel(all_paired_entries, 2);
    assert(all_paired_entries(m.state, frames, now) =~= paired_entries(m.state, raw, now));
}

/// A request and its response, read one after the other, are shown as a pair: a
/// request block and a response block, each with its own bytes and decoded as
/// it is read at that moment, under one counter.
pub proof fn pair_on_the_wire_shares_the_counter(
    m: EngineModel,
    request: Seq<u8>,
    response: Seq<u8>,
    at: u64,
    later_at: u64,
    now: Timestamp,
    later: Timestamp,
)
    requires
        m.phase is Capturing,
        m.framer.buf.len() == 0,
        is_one_frame(request),
        is_one_frame(response),
        request[0] == response[0],
        pairing::is_request(m.state, request[0], shown_role(request)),
        shown_role(response) != Role::Request,
    ensures
        ({
            let asked = InputModel::Read(request, at);
            let between = engine_after(m, asked, now);
            &&& events_after(m, asked, now).last() == EventModel::Entry(
                model::request_entry(
                    now,
                    m.state.next_counter,
                    request,
                    request[0],
                    read_as(m.state, request),
                ),
            )
            &&& events_after(between, InputModel::Read(response, later_at), later) == seq![
                EventModel::Entry(
                    model::response_entry(
                        later,
                        m.state.next_counter,
                        response,
                        request[0],
                        read_as(between.state, response),
                    ),
                ),
            ]
        }),
{
    let asked = InputModel::Read(request, at);
    let between = engine_after(m, asked, now);
    let f = frame::FrameModel {
        raw: request,
        slave: request[0],
        function: request[1],
        data: frame_data(request),
        timestamp: now,
    };
    let g = frame::FrameModel {
        raw: response,
        slave: response[0],
        function: response[1],
        data: frame_data(response),
        timestamp: later,
    };
    lemma_one_frame(m, request, at, now);
    lemma_one_frame(between, response, later_at, later);
    pairing::response_shares_the_counter(
        m.state,
        f,
        read_as(m.state, request),
        g,
        read_as(between.state, response),
        now,
        later,
    );
    let out = shown(pairing::entries_after(between.state, g, read_as(between.state, response), later));
    assert(out =~= seq![out[0]]);
}

// --- what each input does ----------------------------------------------------

/// A capture is started with exactly the configuration that was sent, whether the
/// engine is idle or captures already: that port is opened next.
pub proof fn start_opens_what_was_asked_for(m: EngineModel, cfg: SerialModel, now: Timestamp)
    requires
        m.phase is Idle || m.phase is Capturing,
    ensures
        ({
            let after = engine_after(m, InputModel::Command(Some(CommandModel::Start(cfg))), now);
            after.phase matches PhaseModel::Opening(c) && c.port == cfg.port && c.baud == cfg.baud
                && c.data_bits == cfg.data_bits && c.parity == cfg.parity && c.stop_bits
                == cfg.stop_bits && c.flow_control == cfg.flow_control && c.response_timeout
                == cfg.response_timeout
        }),
{
}

/// An opened port is captured with the timing of its configuration: requests wait
/// for its response timeout, and a frame ends after three and a half characters
/// of eleven bits at its baud rate, or after 1.75 ms above 19200 baud.
pub proof fn capture_keeps_the_timing_asked_for(m: EngineModel, cfg: SerialModel, now: Timestamp)
    requires
        m.phase == PhaseModel::Opening(cfg),
        cfg.baud > 0,
    ensures
        ({
            let after = engine_after(m, InputModel::Opened, now);
            let gap = after.framer.gap as int;
            &&& after.phase is Capturing
            &&& after.state.response_timeout == cfg.response_timeout
            &&& after.state.next_counter == 1
            &&& forall|s: u8| !(#[trigger] after.state.pending.contains_key(s))
            &&& forall|s: u8| !(#[trigger] after.state.timed_out.contains_key(s))
            &&& after.framer.buf.len() == 0
            &&& cfg.baud > 19200 ==> gap == 1750
            &&& cfg.baud <= 19200 ==> gap * cfg.baud <= 38_500_000 < (gap + 1) * cfg.baud
            &&& events_after(m, InputModel::Opened, now) == seq![EventModel::Started]
        }),
{
    framer::gap_is_three_and_a_half_characters(cfg.baud);
}

/// What `Stop` and `Shutdown`, and the end of all commands, do: during a capture
/// each ends it and says so; an idle engine waits on after `Stop` and finishes
/// otherwise. While a port is being opened no command is taken.
pub proof fn commands_end_what_runs(m: EngineModel, now: Timestamp)
    ensures
        ({
            let stop = InputModel::Command(Some(CommandModel::Stop));
            let shutdown = InputModel::Command(Some(CommandModel::Shutdown));
            let gone = InputModel::Command(None);
            &&& m.phase is Capturing ==> {
                &&& engine_after(m, stop, now).phase is Idle
                &&& engine_after(m, shutdown, now).phase is Finished
                &&& engine_after(m, gone, now).phase is Idle
                &&& events_after(m, stop, now) == seq![EventModel::Stopped]
                &&& events_after(m, shutdown, now) == seq![EventModel::Stopped]
                &&& events_after(m, gone, now) == seq![EventModel::Stopped]
            }
            &&& m.phase is Idle ==> {
                &&& engine_after(m, stop, now) == m
                &&& engine_after(m, shutdown, now).phase is Finished
                &&& engine_after(m, gone, now).phase is Finished
                &&& events_after(m, stop, now).len() == 0
                &&& events_after(m, shutdown, now).len() == 0
                &&& events_after(m, gone, now).len() == 0
            }
            &&& m.phase is Opening ==> {
                &&& engine_after(m, stop, now) == m
                &&& engine_after(m, shutdown, now) == m
                &&& engine_after(m, gone, now) == m
            }
        }),
{
}

/// However a capture ends, nothing of it is left: no bytes, no requests, and the
/// counter at 1.
pub proof fn ended_capture_leaves_nothing(m: EngineModel, input: InputModel, now: Timestamp)
    requires
        m.phase is Capturing,
        !(engine_after(m, input, now).phase is Capturing),
    ensures
        ({
            let after = engine_after(m, input, now);
            &&& after.framer.buf.len() == 0
            &&& after.state.next_counter == 1
            &&& after.state.response_timeout == m.state.response_timeout
            &&& forall|s: u8| !(#[trigger] after.state.pending.contains_key(s))
            &&& forall|s: u8| !(#[trigger] after.state.timed_out.contains_key(s))
        }),
{
}

/// A port that cannot be opened is reported by its name and the reason, and the
/// engine waits for the next command. A read that fails is reported with the
/// reason and ends the capture, and so does the end of the stream, without a word.
pub proof fn failures_are_reported(m: EngineModel, reason: Seq<char>, at: u64, now: Timestamp)
    ensures
        m.phase matches PhaseModel::Opening(cfg) ==> engine_after(
            m,
            InputModel::OpenFailed(reason),
            now,
        ).phase is Idle && events_after(m, InputModel::OpenFailed(reason), now) == seq![
            EventModel::Error("open "@ + cfg.port + ": "@ + reason),
            EventModel::Stopped,
        ],
        m.phase is Capturing ==> engine_after(m, InputModel::ReadFailed(reason), now).phase is Idle
            && events_after(m, InputModel::ReadFailed(reason), now) == seq![
            EventModel::Error("read: "@ + reason),
            EventModel::Stopped,
        ],
        m.phase is Capturing ==> engine_after(
            m,
            InputModel::Read(Seq::empty(), at),
            now,
        ).phase is Idle && events_after(m, InputModel::Read(Seq::empty(), at), now) == seq![
            EventModel::Stopped,
        ],
{
}

/// Nothing but a command, a failure or the end of the stream ends a capture, and
/// nothing but `Opened` starts one.
pub proof fn captures_run_until_they_are_ended(m: EngineModel, input: InputModel, now: Timestamp)
    ensures
        m.phase is Capturing ==> (engine_after(m, input, now).phase is Capturing <==> match input {
            InputModel::Command(_) => false,
            InputModel::ReadFailed(_) => false,
            InputModel::Read(bytes, _) => bytes.len() > 0,
            _ => true,
        }),
        !(m.phase is Capturing) && engine_after(m, input, now).phase is Capturing ==> input
            == InputModel::Opened && m.phase is Opening,
        m.phase is Opening && !(input is Opened) && !(input is OpenFailed) ==> engine_after(
            m,
            input,
            now,
        ) == m && events_after(m, input, now).len() == 0,
        m.phase is Idle && !(input is Command) ==> engine_after(m, input, now) == m && events_after(
            m,
            input,
            now,
        ).len() == 0,
{
}

/// What is left behind the complete frames of a read stays in the buffer whenever
/// it is no longer than a frame can be; the bytes came when the read did.
pub proof fn rest_waits_for_more(m: EngineModel, bytes: Seq<u8>, at: u64, now: Timestamp)
    requires
        m.phase is Capturing,
        bytes.len() > 0,
        framer::drained_rest(m.framer.buf + bytes).len() <= 260,
    ensures
        ({
            let after = engine_after(m, InputModel::Read(bytes, at), now);
            &&& after.framer.buf == framer::drained_rest(m.framer.buf + bytes)
            &&& after.framer.last_byte_time == at
            &&& after.framer.gap == m.framer.gap
        }),
{
}

proof fn lemma_all_paired_concat(
    p: PairingModel,
    a: Seq<Seq<u8>>,
    b: Seq<Seq<u8>>,
    now: Timestamp,
)
    ensures
        all_paired(p, a + b, now) == all_paired(all_paired(p, a, now), b, now),
        all_paired_entries(p, a + b, now) == all_paired_entries(p, a, now) + all_paired_entries(
            all_paired(p, a, now),
            b,
            now,
        ),
    decreases b.len(),
{
    let q = all_paired(p, a, now);
    if b.len() == 0 {
        assert(a + b =~= a);
        assert(all_paired_entries(p, a, now) + all_paired_entries(q, b, now) =~= all_paired_entries(
            p,
            a,
            now,
        ));
    } else {
        lemma_all_paired_concat(p, a, b.drop_last(), now);
        assert((a + b).drop_last() =~= a + b.drop_last());
        assert((a + b).last() == b.last());
        assert(all_paired_entries(p, a + b, now) =~= all_paired_entries(p, a, now)
            + all_paired_entries(q, b, now));
    }
}

/// How the stream is cut into reads does not matter: two reads at one time leave
/// the same buffer and the same requests, and show the same, one after the other,
/// as one read of all their bytes, as long as what waits between them and at the
/// end is no longer than a frame can be.
#[verifier::spinoff_prover]
pub proof fn capture_does_not_depend_on_the_cut(
    m: EngineModel,
    a: Seq<u8>,
    b: Seq<u8>,
    at: u64,
    now: Timestamp,
)
    requires
        m.phase is Capturing,
        a.len() > 0,
        b.len() > 0,
        framer::drained_rest(m.framer.buf + a).len() <= 260,
        framer::drained_rest(m.framer.buf + a + b).len() <= 260,
    ensures
        ({
            let first = InputModel::Read(a, at);
            let second = InputModel::Read(b, at);
            let whole = InputModel::Read(a + b, at);
            let between = engine_after(m, first, now);
            &&& engine_after(between, second, now) == engine_after(m, whole, now)
            &&& events_after(m, first, now) + events_after(between, second, now) == events_after(
                m,
                whole,
                now,
            )
        }),
{
    let buf = m.framer.buf + a;
    let rest = framer::drained_rest(buf);
    let f = framer::drained_frames(buf);
    let g = framer::drained_frames(rest + b);
    let between = engine_after(m, InputModel::Read(a, at), now);
    let x = all_paired_entries(m.state, f, now);
    let y = all_paired_entries(all_paired(m.state, f, now), g, now);
    framer::reads_may_be_cut_anywhere(buf, b);
    assert(m.framer.buf + (a + b) =~= buf + b);
    lemma_small_read(m, a, at, now);
    lemma_small_read(between, b, at, now);
    lemma_small_read(m, a + b, at, now);
    lemma_all_paired_concat(m.state, f, g, now);
    assert(shown(x) + shown(y) =~= shown(x + y));
}

/// What a read does that leaves no more than a frame waiting.
proof fn lemma_small_read(m: EngineModel, bytes: Seq<u8>, at: u64, now: Timestamp)
    requires
        m.phase is Capturing,
        bytes.len() > 0,
        framer::drained_rest(m.framer.buf + bytes).len() <= 260,
    ensures
        ({
            let buf = m.framer.buf + bytes;
            let frames = framer::drained_frames(buf);
            let input = InputModel::Read(bytes, at);
            &&& engine_after(m, input, now) == (EngineModel {
                phase: PhaseModel::Capturing,
                state: all_paired(m.state, frames, now),
                framer: FramerModel {
                    buf: framer::drained_rest(buf),
                    last_byte_time: at,
                    gap: m.framer.gap,
                },
            })
            &&& events_after(m, input, now) == shown(all_paired_entries(m.state, frames, now))
        }),
{
}

/// The times of two reads change neither what is cut off the stream nor what
/// waits for more.
pub proof fn buffer_does_not_depend_on_the_cut(
    m: EngineModel,
    a: Seq<u8>,
    b: Seq<u8>,
    at: u64,
    later_at: u64,
    now: Timestamp,
    later: Timestamp,
)
    requires
        m.phase is Capturing,
        a.len() > 0,
        b.len() > 0,
        framer::drained_rest(m.framer.buf + a).len() <= 260,
        framer::drained_rest(m.framer.buf + a + b).len() <= 260,
    ensures
        ({
            let between = engine_after(m, InputModel::Read(a, at), now);
            let after = engine_after(between, InputModel::Read(b, later_at), later);
            &&& after.framer.buf == framer::drained_rest(m.framer.buf + a + b)
            &&& after.framer.last_byte_time == later_at
            &&& shown_frames(events_after(m, InputModel::Read(a, at), now)) + shown_frames(
                events_after(between, InputModel::Read(b, later_at), later),
            ) == framer::drained_frames(m.framer.buf + a + b)
        }),
{
    let buf = m.framer.buf + a;
    let between = engine_after(m, InputModel::Read(a, at), now);
    framer::reads_may_be_cut_anywhere(buf, b);
    assert(between.framer.buf == framer::drained_rest(buf));
    complete_frames_are_shown_one_by_one(m, a, at, now);
    complete_frames_are_shown_one_by_one(between, b, later_at, later);
}

/// The frames that events show: the bytes of each entry that has any.
pub open spec fn shown_frames(events: Seq<EventModel>) -> Seq<Seq<u8>>
    decreases events.len(),
{
    if events.len() == 0 {
        Seq::empty()
    } else {
        let before = shown_frames(events.drop_last());
        match events.last() {
            EventModel::Entry(e) => if e.raw.len() > 0 {
                before.push(e.raw)
            } else {
                before
            },
            _ => before,
        }
    }
}

proof fn lemma_no_frames(entries: Seq<EntryModel>)
    requires
        forall|i: int| 0 <= i < entries.len() ==> (#[trigger] entries[i]).raw.len() == 0,
    ensures
        shown_frames(shown(entries)) == Seq::<Seq<u8>>::empty(),
    decreases entries.len(),
{
    if entries.len() > 0 {
        lemma_no_frames(entries.drop_last());
        assert(shown(entries).drop_last() =~= shown(entries.drop_last()));
        assert(entries[entries.len() - 1].raw.len() == 0);
    }
}

proof fn lemma_candidate_has_its_entry(p: PairingModel, raw: Seq<u8>, now: Timestamp)
    requires
        raw.len() > 0,
    ensures
        shown_frames(shown(paired_entries(p, raw, now))) == seq![raw],
{
    let entries = paired_entries(p, raw, now);
    if let Ok(f) = frame::frame_of(raw, now) {
        pairing::every_frame_is_shown(p, f, read_in(p, f), now);
    }
    assert(entries.len() > 0 && entries.last().raw == raw);
    assert forall|i: int| 0 <= i < entries.drop_last().len() implies (
    #[trigger] entries.drop_last()[i]).raw.len() == 0 by {
        assert(entries[i].raw.len() == 0);
    }
    lemma_no_frames(entries.drop_last());
    assert(shown(entries).drop_last() =~= shown(entries.drop_last()));
    assert(shown_frames(shown(entries)) =~= seq![raw]);
}

proof fn lemma_shown_frames_concat(a: Seq<EventModel>, b: Seq<EventModel>)
    ensures
        shown_frames(a + b) == shown_frames(a) + shown_frames(b),
    decreases b.len(),
{
    if b.len() == 0 {
        assert(a + b =~= a);
        assert(shown_frames(a) + shown_frames(b) =~= shown_frames(a));
    } else {
        lemma_shown_frames_concat(a, b.drop_last());
        assert((a + b).drop_last() =~= a + b.drop_last());
        assert((a + b).last() == b.last());
        assert(shown_frames(a + b) =~= shown_frames(a) + shown_frames(b));
    }
}

proof fn lemma_candidates_have_their_entries(p: PairingModel, frames: Seq<Seq<u8>>, now: Timestamp)
    requires
        forall|i: int| 0 <= i < frames.len() ==> (#[trigger] frames[i]).len() > 0,
    ensures
        shown_frames(shown(all_paired_entries(p, frames, now))) == frames,
    decreases frames.len(),
{
    if frames.len() > 0 {
        let front = frames.drop_last();
        let q = all_paired(p, front, now);
        let before = all_paired_entries(p, front, now);
        let last = paired_entries(q, frames.last(), now);
        assert forall|i: int| 0 <= i < front.len() implies (#[trigger] front[i]).len() > 0 by {
            assert(frames[i].len() > 0);
        }
        assert(frames[frames.len() - 1].len() > 0);
        lemma_candidates_have_their_entries(p, front, now);
        lemma_candidate_has_its_entry(q, frames.last(), now);
        assert(shown(before + last) =~= shown(before) + shown(last));
        lemma_shown_frames_concat(shown(before), shown(last));
        assert(front + seq![frames.last()] =~= frames);
    } else {
        assert(shown(all_paired_entries(p, frames, now)) =~= Seq::<EventModel>::empty());
        assert(frames =~= Seq::<Seq<u8>>::empty());
    }
}

/// Each complete frame that a read brings has its own entry, in order, and what
/// is not complete has none, as long as it is no longer than a frame can be; what
/// is longer is shown as one block behind them, and nothing of it is kept.
pub proof fn complete_frames_are_shown_one_by_one(
    m: EngineModel,
    bytes: Seq<u8>,
    at: u64,
    now: Timestamp,
)
    requires
        m.phase is Capturing,
        bytes.len() > 0,
    ensures
        ({
            let input = InputModel::Read(bytes, at);
            let frames = framer::drained_frames(m.framer.buf + bytes);
            let rest = framer::drained_rest(m.framer.buf + bytes);
            if rest.len() <= 260 {
                shown_frames(events_after(m, input, now)) == frames
            } else {
                shown_frames(events_after(m, input, now)) == frames.push(rest) && engine_after(
                    m,
                    input,
                    now,
                ).framer.buf.len() == 0
            }
        }),
{
    let buf = m.framer.buf + bytes;
    let all = candidates(buf);
    let frames = framer::drained_frames(buf);
    assert forall|i: int| 0 <= i < all.len() implies (#[trigger] all[i]).len() > 0 by {
        if i < frames.len() {
            framer::drained_frames_are_accepted(buf, i, now);
            assert(all[i] == frames[i]);
        }
    }
    lemma_candidates_have_their_entries(m.state, all, now);
}

/// A frame gap shows what has waited as one block; nothing is shown where nothing
/// waited, and the requests then stay as they are.
pub proof fn gap_shows_what_has_waited(m: EngineModel, now: Timestamp)
    requires
        m.phase is Capturing,
    ensures
        m.framer.buf.len() > 0 ==> shown_frames(events_after(m, InputModel::Gap, now)) == seq![
            m.framer.buf,
        ],
        m.framer.buf.len() == 0 ==> events_after(m, InputModel::Gap, now).len() == 0
            && engine_after(m, InputModel::Gap, now) == m,
        engine_after(m, InputModel::Gap, now).framer.gap == m.framer.gap,
        engine_after(m, InputModel::Gap, now).framer.last_byte_time == m.framer.last_byte_time,
{
    if m.framer.buf.len() > 0 {
        lemma_candidate_has_its_entry(m.state, m.framer.buf, now);
    }
}

/// Bytes that are no frame are shown with their reason, under the next counter, at
/// the time they were given up on; no request is touched by them.
pub proof fn garbage_is_shown_and_touches_nothing(p: PairingModel, raw: Seq<u8>, now: Timestamp)
    requires
        frame::frame_of(raw, now) is Err,
        p.next_counter < u64::MAX,
    ensures
        ({
            let out = paired_entries(p, raw, now);
            let after = paired(p, raw, now);
            &&& out.len() == 1
            &&& out[0].tag == model::Tag::Parse
            &&& out[0].counter == p.next_counter
            &&& out[0].ts == now
            &&& out[0].raw == raw
            &&& out[0].body == (model::BodyModel::ParseFailure {
                reason: frame::reason_text(frame::frame_of(raw, now)->Err_0),
            })
            &&& after.next_counter == p.next_counter + 1
            &&& after.pending == p.pending
            &&& after.timed_out == p.timed_out
            &&& after.response_timeout == p.response_timeout
        }),
{
}

/// A sweep changes nothing but the requests, and keeps capturing.
pub proof fn sweep_leaves_the_stream_alone(m: EngineModel, now: Timestamp)
    requires
        m.phase is Capturing,
    ensures
        engine_after(m, InputModel::Tick, now).phase is Capturing,
        engine_after(m, InputModel::Tick, now).framer == m.framer,
        engine_after(m, InputModel::Tick, now).state == pairing::retired(
            m.state,
            pairing::expired(m.state, now),
        ),
        shown_entries(events_after(m, InputModel::Tick, now)) == pairing::timeouts(
            now,
            pairing::counters_of(pairing::expired(m.state, now)),
        ),
{
    lemma_shown_entries(
        pairing::timeouts(now, pairing::counters_of(pairing::expired(m.state, now))),
    );
}

/// A model holds all that its value does.
pub proof fn nothing_is_left_out(c: Command, e: Event, i: Input)
    ensures
        match c {
            Command::Start(cfg) => c@ == CommandModel::Start(cfg@),
            Command::Stop => c@ is Stop,
            Command::Shutdown => c@ is Shutdown,
        },
        match e {
            Event::Entry(entry) => e@ == EventModel::Entry(entry@),
            Event::Error(msg) => e@ == EventModel::Error(msg@),
            Event::Started => e@ is Started,
            Event::Stopped => e@ is Stopped,
        },
        match i {
            Input::Command(Some(cmd)) => i@ == InputModel::Command(Some(cmd@)),
            Input::Command(None) => i@ == InputModel::Command(None),
            Input::Opened => i@ is Opened,
            Input::OpenFailed(reason) => i@ == InputModel::OpenFailed(reason@),
            Input::Read(bytes, at) => i@ == InputModel::Read(bytes@, at),
            Input::ReadFailed(reason) => i@ == InputModel::ReadFailed(reason@),
            Input::Gap => i@ is Gap,
            Input::Tick => i@ is Tick,
        },
{
}

} // verus!
