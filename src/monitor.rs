//! The connection manager: a state machine that decides, from its state and
//! what the host reports (a port opened, a heartbeat written, a byte read, a
//! link failure), what to do next and which effects to carry out: publish,
//! persist, flush, reset the live view. The host performs the I/O.
use vstd::prelude::*;
use crate::clock::{ClockOffset, NormalizedReading, reconciled_millis};
use crate::framer::{accept_byte, LineFramer, NEWLINE};
use crate::numeric::{fits_i64, DIGIT_ZERO};
use crate::parser::{copy_range, parse_frame, parse_outcome, trimmed};

verus! {

/// Milliseconds between two heartbeats: half the silence the device tolerates.
pub const HEARTBEAT_INTERVAL_MILLIS: u64 = 500;

#[derive(Debug, Clone, Copy, PartialEq, Eq, Structural)]
pub enum ConnectionState {
    Disconnected,
    /// Connected; the monotonic time of the last heartbeat written in this
    /// session, if any.
    Connected { last_heartbeat: Option<u64> },
}

/// What the host should do next.
#[derive(Debug, Clone, Copy, PartialEq, Eq, Structural)]
pub enum Action {
    /// List the serial ports and open the first; wait before listing again
    /// where there is none.
    Discover,
    /// Write `OK\n` to the device.
    SendHeartbeat,
    /// Read one byte from the device.
    ReadByte,
}

/// Work for the host.
#[derive(Debug, PartialEq, Eq)]
pub enum Effect {
    /// Tell subscribers that a new session starts.
    ResetMonitor,
    /// Hand a reading to subscribers.
    Publish(NormalizedReading),
    /// Append a reading to the session log.
    Persist(NormalizedReading),
    /// Flush the session log and release it.
    Flush,
}

/// An effect as a value: readings as their wall time and value literal.
pub enum Signal {
    ResetMonitor,
    Publish(i64, Seq<u8>),
    Persist(i64, Seq<u8>),
    Flush,
}

impl View for Effect {
    type V = Signal;

    open spec fn view(&self) -> Signal {
        match self {
            Effect::ResetMonitor => Signal::ResetMonitor,
            Effect::Publish(r) => Signal::Publish(r.wall_millis, r.value@),
            Effect::Persist(r) => Signal::Persist(r.wall_millis, r.value@),
            Effect::Flush => Signal::Flush,
        }
    }
}

pub open spec fn signals(effects: Seq<Effect>) -> Seq<Signal> {
    effects.map_values(|e: Effect| e@)
}

/// The live session: its log file and, from the first valid reading on, its
/// clock offset.
pub struct SessionView {
    pub file_name: Seq<u8>,
    pub offset: Option<ClockOffset>,
}

pub struct MonitorView {
    pub state: ConnectionState,
    pub session: Option<SessionView>,
    /// The framer's partial line and pending bytes.
    pub framer: (Seq<u8>, Seq<u8>),
}

/// The value published in place of a frame that holds no reading.
pub open spec fn sentinel_value() -> Seq<u8> {
    seq![DIGIT_ZERO]
}

/// Which step comes next at monotonic time `now`: discovery while
/// disconnected; a heartbeat when none has been written in this session or
/// the last is at least the interval old; a read otherwise.
pub open spec fn next_action_spec(v: MonitorView, now: u64) -> Action {
    match v.state {
        ConnectionState::Disconnected => Action::Discover,
        ConnectionState::Connected { last_heartbeat } => {
            if last_heartbeat is None || now >= last_heartbeat->0 + HEARTBEAT_INTERVAL_MILLIS {
                Action::SendHeartbeat
            } else {
                Action::ReadByte
            }
        },
    }
}

pub open spec fn empty_framer() -> (Seq<u8>, Seq<u8>) {
    (Seq::empty(), Seq::empty())
}

/// A port was opened and a new log file created: a fresh session with no
/// offset, and the live view is reset.
pub open spec fn connect_spec(v: MonitorView, file_name: Seq<u8>) -> (MonitorView, Seq<Signal>) {
    (
        MonitorView {
            state: ConnectionState::Connected { last_heartbeat: None },
            session: Some(SessionView { file_name, offset: None }),
            framer: empty_framer(),
        },
        seq![Signal::ResetMonitor],
    )
}

/// The link failed: back to discovery; the session's log is flushed once and
/// the session dropped.
pub open spec fn teardown_spec(v: MonitorView) -> (MonitorView, Seq<Signal>) {
    (
        MonitorView { state: ConnectionState::Disconnected, session: None, framer: empty_framer() },
        if v.session is Some {
            seq![Signal::Flush]
        } else {
            Seq::empty()
        },
    )
}

/// A heartbeat was written at `now`.
pub open spec fn heartbeat_spec(v: MonitorView, now: u64) -> MonitorView {
    match v.state {
        ConnectionState::Connected { .. } => MonitorView {
            state: ConnectionState::Connected { last_heartbeat: Some(now) },
            ..v
        },
        ConnectionState::Disconnected => v,
    }
}

/// What a complete frame does to the session, at wall time `wall_now`. A
/// reading sets the offset if the session has none, and is published and
/// persisted at its reconciled time. A frame without a reading, or whose
/// time falls outside `i64`, publishes the sentinel at `wall_now` and
/// persists nothing.
pub open spec fn frame_spec(s: SessionView, frame: Seq<u8>, wall_now: i64) -> (
    SessionView,
    Seq<Signal>,
) {
    let parsed = parse_outcome(trimmed(frame));
    if parsed is Ok {
        let millis = parsed->Ok_0.0;
        let value = parsed->Ok_0.1;
        let offset = if s.offset is Some {
            s.offset->0
        } else {
            ClockOffset { device_millis_at_start: millis as i64, wall_millis_at_start: wall_now }
        };
        let wall = reconciled_millis(offset, millis);
        let next = SessionView { offset: Some(offset), ..s };
        if fits_i64(wall) {
            (next, seq![Signal::Publish(wall as i64, value), Signal::Persist(wall as i64, value)])
        } else {
            (next, seq![Signal::Publish(wall_now, sentinel_value())])
        }
    } else {
        (s, seq![Signal::Publish(wall_now, sentinel_value())])
    }
}

/// A byte was read at wall time `wall_now`.
pub open spec fn byte_spec(v: MonitorView, b: u8, wall_now: i64) -> (MonitorView, Seq<Signal>) {
    if v.state is Disconnected || v.session is None {
        (v, Seq::empty())
    } else {
        let next = accept_byte(v.framer.0, v.framer.1, b);
        if b == NEWLINE {
            let (s, out) = frame_spec(v.session->0, next.0, wall_now);
            (MonitorView { session: Some(s), framer: (Seq::empty(), next.1), ..v }, out)
        } else {
            (MonitorView { framer: next, ..v }, Seq::empty())
        }
    }
}

/// The acquisition state: connection, session and framer.
pub struct Monitor {
    state: ConnectionState,
    file_name: Option<Vec<u8>>,
    offset: Option<ClockOffset>,
    framer: LineFramer,
}

/// Heartbeats keep their cadence: a heartbeat is asked for only where none
/// was written in this session or the last is at least the interval old,
/// and it is always asked for once the interval has passed; once written,
/// none is asked for again before the interval has passed.
pub proof fn lemma_heartbeat_cadence(v: MonitorView, now: u64, later: u64)
    ensures
        v.state matches ConnectionState::Connected { last_heartbeat: Some(last) } ==> (
        next_action_spec(v, now) == Action::SendHeartbeat <==> now >= last
            + HEARTBEAT_INTERVAL_MILLIS),
        v.state is Connected && later < now + HEARTBEAT_INTERVAL_MILLIS ==> next_action_spec(
            heartbeat_spec(v, now),
            later,
        ) == Action::ReadByte,
        v.state is Connected && later >= now + HEARTBEAT_INTERVAL_MILLIS ==> next_action_spec(
            heartbeat_spec(v, now),
            later,
        ) == Action::SendHeartbeat,
{
}

/// After a link failure and a new connection, the live view is reset before
/// anything else is published, the session logs to the new file, and the
/// clock offset is taken afresh from the next valid reading, whatever the
/// previous session had.
pub proof fn lemma_reconnect_starts_fresh(
    v: MonitorView,
    file_name: Seq<u8>,
    frame: Seq<u8>,
    wall_now: i64,
)
    requires
        parse_outcome(trimmed(frame)) is Ok,
    ensures
        ({
            let after_failure = teardown_spec(v).0;
            let (connected, reset) = connect_spec(after_failure, file_name);
            let (s, out) = frame_spec(connected.session->0, frame, wall_now);
            let millis = parse_outcome(trimmed(frame))->Ok_0.0;
            &&& reset == seq![Signal::ResetMonitor]
            &&& connected.state == ConnectionState::Connected { last_heartbeat: None }
            &&& connected.session == Some(SessionView { file_name, offset: None })
            &&& s.file_name == file_name
            &&& s.offset == Some(
                ClockOffset { device_millis_at_start: millis as i64, wall_millis_at_start: wall_now },
            )
            &&& out.len() >= 1
            &&& out[0] is Publish
        }),
{
}

/// A session's log is flushed exactly once however often the link failure
/// is reported, and never where no session was open.
pub proof fn lemma_teardown_flushes_once(v: MonitorView)
    ensures
        v.session is Some ==> teardown_spec(v).1 == seq![Signal::Flush],
        v.session is None ==> teardown_spec(v).1.len() == 0,
        teardown_spec(teardown_spec(v).0).1.len() == 0,
        teardown_spec(teardown_spec(v).0).0 == teardown_spec(v).0,
{
}

/// A frame adds at most one published reading and, for a valid one, one
/// persisted row; a frame without a reading publishes the sentinel at the
/// current time and persists nothing.
pub proof fn lemma_frame_publishes_once(s: SessionView, frame: Seq<u8>, wall_now: i64)
    ensures
        ({
            let out = frame_spec(s, frame, wall_now).1;
            &&& out.len() >= 1
            &&& out[0] is Publish
            &&& forall|i: int| 1 <= i < out.len() ==> (#[trigger] out[i]) is Persist
            &&& parse_outcome(trimmed(frame)) is Err ==> out == seq![
                Signal::Publish(wall_now, sentinel_value()),
            ]
        }),
{
}

impl View for Monitor {
    type V = MonitorView;

    closed spec fn view(&self) -> MonitorView {
        MonitorView {
            state: self.state,
            session: if self.file_name is Some {
                Some(SessionView { file_name: self.file_name->0@, offset: self.offset })
            } else {
                None
            },
            framer: self.framer@,
        }
    }
}

impl Monitor {
    /// A session exists exactly while connected.
    pub closed spec fn wf(&self) -> bool {
        &&& (self.state is Connected <==> self.file_name is Some)
        &&& (self.file_name is None ==> self.offset is None)
        &&& self.framer.wf()
    }

    pub fn new() -> (r: Monitor)
        ensures
            r.wf(),
            r@.state == ConnectionState::Disconnected,
            r@.session is None,
            r@.framer == empty_framer(),
    {
        Monitor {
            state: ConnectionState::Disconnected,
            file_name: None,
            offset: None,
            framer: LineFramer::new(),
        }
    }

    pub fn is_connected(&self) -> (r: bool)
        ensures
            r == (self@.state is Connected),
    {
        match self.state {
            ConnectionState::Connected { .. } => true,
            ConnectionState::Disconnected => false,
        }
    }

    /// The next step at monotonic time `now`, in milliseconds.
    pub fn next_action(&self, now: u64) -> (r: Action)
        ensures
            r == next_action_spec(self@, now),
    {
        match self.state {
            ConnectionState::Disconnected => Action::Discover,
            ConnectionState::Connected { last_heartbeat } => match last_heartbeat {
                None => Action::SendHeartbeat,
                Some(last) => {
                    if now >= last && now - last >= HEARTBEAT_INTERVAL_MILLIS {
                        Action::SendHeartbeat
                    } else {
                        Action::ReadByte
                    }
                },
            },
        }
    }

    /// A port was opened and its log file, `file_name`, created.
    pub fn on_connected(&mut self, file_name: Vec<u8>) -> (r: Vec<Effect>)
        requires
            old(self).wf(),
            old(self)@.state is Disconnected,
        ensures
            final(self).wf(),
            (final(self)@, signals(r@)) == connect_spec(old(self)@, file_name@),
    {
        self.state = ConnectionState::Connected { last_heartbeat: None };
        self.file_name = Some(file_name);
        self.offset = None;
        self.framer.reset();
        let r = vec![Effect::ResetMonitor];
        assert(signals(r@) =~= seq![Signal::ResetMonitor]);
        r
    }

    /// A heartbeat was written at monotonic time `now`.
    pub fn on_heartbeat_sent(&mut self, now: u64)
        requires
            old(self).wf(),
        ensures
            final(self).wf(),
            final(self)@ == heartbeat_spec(old(self)@, now),
    {
        if let ConnectionState::Connected { .. } = self.state {
            self.state = ConnectionState::Connected { last_heartbeat: Some(now) };
        }
    }

    /// A write, read or timeout failed on the link, or the port could not
    /// be kept. Safe to report more than once.
    pub fn on_link_failure(&mut self) -> (r: Vec<Effect>)
        requires
            old(self).wf(),
        ensures
            final(self).wf(),
            (final(self)@, signals(r@)) == teardown_spec(old(self)@),
    {
        let had_session = self.file_name.is_some();
        self.state = ConnectionState::Disconnected;
        self.file_name = None;
        self.offset = None;
        self.framer.reset();
        let mut r: Vec<Effect> = Vec::new();
        if had_session {
            r.push(Effect::Flush);
        }
        assert(signals(r@) =~= teardown_spec(old(self)@).1);
        r
    }

    /// One byte read from the device at wall time `wall_now`, in
    /// milliseconds since the Unix epoch.
    pub fn on_byte(&mut self, b: u8, wall_now: i64) -> (r: Vec<Effect>)
        requires
            old(self).wf(),
        ensures
            final(self).wf(),
            (final(self)@, signals(r@)) == byte_spec(old(self)@, b, wall_now),
    {
        if self.file_name.is_none() {
            let r: Vec<Effect> = Vec::new();
            assert(signals(r@) =~= Seq::<Signal>::empty());
            return r;
        }
        match self.framer.push_byte(b) {
            Some(frame) => self.on_frame(&frame, wall_now),
            None => {
                let r: Vec<Effect> = Vec::new();
                assert(signals(r@) =~= Seq::<Signal>::empty());
                r
            },
        }
    }

    fn on_frame(&mut self, frame: &Vec<u8>, wall_now: i64) -> (r: Vec<Effect>)
        requires
            old(self).file_name is Some,
        ensures
            final(self).state == old(self).state,
            final(self).file_name == old(self).file_name,
            final(self).framer == old(self).framer,
            final(self).offset is Some || final(self).offset == old(self).offset,
            ({
                let s = SessionView { file_name: old(self).file_name->0@, offset: old(self).offset };
                let (s2, out) = frame_spec(s, frame@, wall_now);
                &&& final(self).offset == s2.offset
                &&& signals(r@) == out
            }),
    {
        let ghost s = SessionView { file_name: self.file_name->0@, offset: self.offset };
        let ghost expected = frame_spec(s, frame@, wall_now);
        let mut r: Vec<Effect> = Vec::new();
        match parse_frame(frame.as_slice()) {
            Ok(reading) => {
                let offset = match self.offset {
                    Some(o) => o,
                    None => ClockOffset::capture(reading.device_millis, wall_now),
                };
                self.offset = Some(offset);
                match offset.reconcile(reading.device_millis) {
                    Some(wall) => {
                        let copy = copy_range(reading.value.as_slice(), 0, reading.value.len());
                        assert(reading.value@.subrange(0, reading.value@.len() as int)
                            =~= reading.value@);
                        r.push(Effect::Publish(NormalizedReading { wall_millis: wall, value: copy }));
                        r.push(
                            Effect::Persist(NormalizedReading { wall_millis: wall, value: reading.value }),
                        );
                    },
                    None => {
                        r.push(Effect::Publish(Self::sentinel(wall_now)));
                    },
                }
            },
            Err(_) => {
                r.push(Effect::Publish(Self::sentinel(wall_now)));
            },
        }
        assert(signals(r@) =~= expected.1);
        r
    }

    fn sentinel(wall_now: i64) -> (r: NormalizedReading)
        ensures
            r.wall_millis == wall_now,
            r.value@ == sentinel_value(),
    {
        let mut value: Vec<u8> = Vec::new();
        value.push(DIGIT_ZERO);
        assert(value@ =~= sentinel_value());
        NormalizedReading { wall_millis: wall_now, value }
    }
}

} // verus!
