//! WebSocket connections: how many there may be, how they are kept alive, and
//! what follows from what is received.

use std::time::{Duration, SystemTime};

use vstd::prelude::*;

use crate::config::ServerConfig;
use crate::error::Error;
use crate::mux::ClientMessage;
use crate::protocol::{encode_ping, ErrorCode, ErrorReply, WireCodes};
use crate::text::push_decimal;

verus! {

// ----------------------------------------------------------------------------
// Connection slots
// ----------------------------------------------------------------------------

/// The connection slots of a server: the limit, how many are taken, and the next
/// connection id.
pub ghost struct Slots {
    pub limit: u64,
    pub active: u64,
    pub next_id: u64,
}

impl Slots {
    /// Taking a slot: it succeeds below the limit, with an id of its own.
    pub open spec fn acquired(self) -> (Slots, Option<u64>) {
        if self.active >= self.limit {
            (self, None)
        } else {
            (
                Slots {
                    active: (self.active + 1) as u64,
                    next_id: if self.next_id == u64::MAX {
                        0
                    } else {
                        (self.next_id + 1) as u64
                    },
                    ..self
                },
                Some(self.next_id),
            )
        }
    }

    /// Giving a slot back.
    pub open spec fn released(self) -> Slots {
        Slots {
            active: if self.active == 0 {
                u64::MAX
            } else {
                (self.active - 1) as u64
            },
            ..self
        }
    }
}

/// The limit is never exceeded, a refused request changes nothing, and giving a
/// slot back undoes taking it.
pub proof fn lemma_slots(slots: Slots)
    requires
        slots.active <= slots.limit,
    ensures
        slots.acquired().0.active <= slots.limit,
        slots.acquired().1 is None <==> slots.active == slots.limit,
        slots.acquired().1 is None ==> slots.acquired().0 == slots,
        slots.acquired().1 is Some ==> slots.acquired().0.released().active == slots.active,
        slots.active > 0 ==> slots.released().active < slots.limit,
{
}

/// Whether slots are taken and given back one after the other: `ids` holds what
/// each step gave out.
pub open spec fn is_slots_run(states: Seq<Slots>, ids: Seq<Option<u64>>) -> bool {
    states.len() == ids.len() + 1 && forall|i: int|
        0 <= i < ids.len() ==> {
            ||| (states[i + 1], #[trigger] ids[i]) == states[i].acquired()
            ||| ids[i] is None && states[i + 1] == states[i].released()
        }
}

/// How many ids were given out from one step to another.
pub open spec fn ids_given(ids: Seq<Option<u64>>, from: int, to: int) -> nat
    decreases to - from,
{
    if from >= to {
        0
    } else {
        ids_given(ids, from, to - 1) + if ids[to - 1] is Some {
            1nat
        } else {
            0nat
        }
    }
}

proof fn lemma_next_id(states: Seq<Slots>, ids: Seq<Option<u64>>, from: int, to: int)
    requires
        is_slots_run(states, ids),
        0 <= from <= to <= ids.len(),
    ensures
        states[to].next_id == (states[from].next_id + ids_given(ids, from, to))
            % 0x1_0000_0000_0000_0000,
        ids_given(ids, from, to) <= to - from,
        from < to && ids[from] is Some ==> ids_given(ids, from, to) >= 1,
    decreases to - from,
{
    if from < to {
        lemma_next_id(states, ids, from, to - 1);
        let step = ids[to - 1];
        assert(states[to - 1 + 1] == states[to]);
    }
}

/// No connection id is given out twice, however slots are taken and given back in
/// between, unless all ids have been given out in between.
pub proof fn lemma_connection_ids_differ(
    states: Seq<Slots>,
    ids: Seq<Option<u64>>,
    i: int,
    j: int,
)
    requires
        is_slots_run(states, ids),
        0 <= i < j < ids.len(),
        ids[i] is Some,
        ids[j] is Some,
        j - i <= u64::MAX,
    ensures
        ids[i] != ids[j],
{
    lemma_next_id(states, ids, i, j);
    assert((states[i + 1], ids[i]) == states[i].acquired());
    assert((states[j + 1], ids[j]) == states[j].acquired());
}

/// Shared state needed by the WebSocket handler.
#[derive(Debug)]
pub struct WebSocketState {
    pub config: ServerConfig,
    /// How many connections there are.
    pub active_connections: u64,
    /// The id of the next connection.
    pub connection_id_counter: u64,
}

impl WebSocketState {
    /// The connection slots.
    pub open spec fn slots(&self) -> Slots {
        Slots {
            limit: self.config.max_connections as u64,
            active: self.active_connections,
            next_id: self.connection_id_counter,
        }
    }

    /// A state without connections.
    pub fn new(config: ServerConfig) -> (state: Self)
        ensures
            state.config == config,
            state.slots() == (Slots {
                limit: config.max_connections as u64,
                active: 0,
                next_id: 0,
            }),
    {
        WebSocketState { config, active_connections: 0, connection_id_counter: 0 }
    }

    /// Try to acquire a connection slot: the connection's id, or nothing at
    /// capacity.
    pub fn try_acquire_connection(&mut self) -> (r: Option<u64>)
        ensures
            final(self).config == old(self).config,
            (final(self).slots(), r) == old(self).slots().acquired(),
    {
        if self.active_connections >= self.config.max_connections as u64 {
            None
        } else {
            self.active_connections = self.active_connections + 1;
            let id: u64 = self.connection_id_counter;
            self.connection_id_counter = id.wrapping_add(1);
            Some(id)
        }
    }

    /// Release a connection slot.
    pub fn release_connection(&mut self)
        ensures
            final(self).config == old(self).config,
            final(self).slots() == old(self).slots().released(),
    {
        self.active_connections = self.active_connections.wrapping_sub(1);
    }

    /// Get current active connection count.
    pub fn connection_count(&self) -> (count: u64)
        ensures
            count == self.slots().active,
    {
        self.active_connections
    }
}

/// What a client is told that finds no free connection.
pub fn reject_max_connections(max_connections: usize) -> (reply: ErrorReply)
    ensures
        reply.says(
            0,
            ErrorCode::MaxConnectionsReached,
            "Server at maximum connections ("@ + crate::text::decimal(max_connections as nat)
                + "). Please try again later."@,
            Some(5000),
        ),
{
    let mut message = "Server at maximum connections (".to_owned();
    push_decimal(&mut message, max_connections as u64);
    message.append("). Please try again later.");
    ErrorReply::retryable(0, ErrorCode::MaxConnectionsReached, message, 5000)
}

// ----------------------------------------------------------------------------
// Time
// ----------------------------------------------------------------------------

/// `std::time::SystemTime`, carried through unread.
#[verifier::external_type_specification]
#[verifier::external_body]
pub struct ExSystemTime(std::time::SystemTime);

/// Trusted: `std::time::SystemTime::now` reads the clock. Nothing is claimed of
/// the time.
pub assume_specification[ std::time::SystemTime::now ]() -> SystemTime
;

/// Trusted: `std::time::SystemTime::duration_since`, from the Unix epoch, which
/// fails for an earlier time. Nothing is claimed of the duration, which rests on
/// the clock.
#[verifier::external_body]
fn since_epoch(time: SystemTime) -> (r: Option<Duration>) {
    time.duration_since(SystemTime::UNIX_EPOCH).ok()
}

/// Trusted: `std::time::Duration::as_millis`. Nothing is claimed of the number,
/// which rests on the clock.
pub assume_specification[ std::time::Duration::as_millis ](duration: &Duration) -> u128
;

/// The milliseconds of a time stamp: those since the epoch as far as 64 bits hold
/// them, and none before the epoch.
pub fn timestamp_ms(millis_since_epoch: Option<u128>) -> (ms: u64)
    ensures
        ms == match millis_since_epoch {
            Some(millis) => (millis as int) % 0x1_0000_0000_0000_0000,
            None => 0,
        },
{
    match millis_since_epoch {
        Some(millis) => {
            assert(millis as u64 == millis % 0x1_0000_0000_0000_0000) by (bit_vector);
            #[verifier::truncate]
            (millis as u64)
        },
        None => 0,
    }
}

/// `std::time::Instant`, carried through unread.
#[verifier::external_type_specification]
#[verifier::external_body]
pub struct ExInstant(std::time::Instant);

/// Trusted: `std::time::Instant::now` reads the clock. Nothing is claimed of the
/// time.
pub assume_specification[ std::time::Instant::now ]() -> std::time::Instant
;

/// Trusted: `std::time::Instant::saturating_duration_since`. Nothing is claimed of
/// the duration, which rests on the clock.
pub assume_specification[ std::time::Instant::saturating_duration_since ](
    instant: &std::time::Instant,
    earlier: std::time::Instant,
) -> Duration
;

/// The time stamp so many milliseconds after `start_ms`, as far as 64 bits hold it,
/// unless that is before `last_ms`.
pub fn next_timestamp_ms(start_ms: u64, last_ms: u64, elapsed_ms: u128) -> (ms: u64)
    ensures
        ms == (if start_ms + elapsed_ms < last_ms {
            last_ms as int
        } else if start_ms + elapsed_ms > u64::MAX {
            u64::MAX as int
        } else {
            start_ms + elapsed_ms
        }),
        ms >= last_ms,
        last_ms <= start_ms + elapsed_ms <= u64::MAX ==> ms == start_ms + elapsed_ms,
{
    if elapsed_ms > (u64::MAX - start_ms) as u128 {
        return u64::MAX;
    }
    let ms: u64 = start_ms + elapsed_ms as u64;
    if ms < last_ms {
        last_ms
    } else {
        ms
    }
}

/// The clock that connections are kept alive by. Its time stamps are milliseconds since
/// the Unix epoch. They are counted from its start, and never go back.
#[derive(Debug)]
pub struct KeepaliveClock {
    pub start: std::time::Instant,
    /// The time stamp of the start.
    pub start_ms: u64,
    /// The last time stamp.
    pub last_ms: u64,
}

impl KeepaliveClock {
    /// A clock that starts now. What time that is rests on the clock of the system.
    pub fn new() -> (clock: Self)
        ensures
            clock.last_ms == clock.start_ms,
    {
        let start_ms = match since_epoch(SystemTime::now()) {
            Some(duration) => timestamp_ms(Some(duration.as_millis())),
            None => timestamp_ms(None),
        };
        KeepaliveClock { start: std::time::Instant::now(), start_ms, last_ms: start_ms }
    }
}

/// Whether a reading of a clock gave a time stamp: it is no earlier than the last one,
/// and becomes the last one.
pub open spec fn clock_read(before: KeepaliveClock, ms: u64, after: KeepaliveClock) -> bool {
    ms >= before.last_ms && after == (KeepaliveClock { last_ms: ms, ..before })
}

/// The present time stamp in milliseconds (monotonic). What it is, beyond that it does
/// not go back, rests on the clock of the system.
pub fn current_timestamp_ms(clock: &mut KeepaliveClock) -> (ms: u64)
    ensures
        clock_read(*old(clock), ms, *final(clock)),
{
    let elapsed = std::time::Instant::now().saturating_duration_since(clock.start);
    let ms = next_timestamp_ms(clock.start_ms, clock.last_ms, elapsed.as_millis());
    clock.last_ms = ms;
    ms
}

/// Time stamps that are taken one after the other do not decrease.
pub proof fn lemma_time_does_not_go_back(
    clocks: Seq<KeepaliveClock>,
    stamps: Seq<u64>,
    i: int,
    j: int,
)
    requires
        clocks.len() == stamps.len() + 1,
        forall|k: int|
            0 <= k < stamps.len() ==> clock_read(clocks[k], #[trigger] stamps[k], clocks[k + 1]),
        0 <= i <= j < stamps.len(),
    ensures
        stamps[i] <= stamps[j],
    decreases j - i,
{
    if i < j {
        lemma_time_does_not_go_back(clocks, stamps, i, j - 1);
        assert(clock_read(clocks[j - 1], stamps[j - 1], clocks[j - 1 + 1]));
        assert(clock_read(clocks[j], stamps[j], clocks[j + 1]));
    }
}

// ----------------------------------------------------------------------------
// Keepalive
// ----------------------------------------------------------------------------

/// Whole seconds since the last pong; none where the clock went back.
pub open spec fn seconds_since(last_pong: u64, now: u64) -> int {
    if now < last_pong {
        0
    } else {
        (now - last_pong) / 1000
    }
}

/// Whole seconds since the last pong; none where the clock went back.
pub fn elapsed_pong_seconds(last_pong: u64, now: u64) -> (seconds: u64)
    ensures
        seconds == seconds_since(last_pong, now),
{
    if now < last_pong {
        0
    } else {
        (now - last_pong) / 1000
    }
}

/// Whether a connection has been silent for too long.
pub fn pong_timeout_exceeded(last_pong: u64, now: u64, timeout_secs: u64) -> (r: bool)
    ensures
        r == (seconds_since(last_pong, now) > timeout_secs),
{
    elapsed_pong_seconds(last_pong, now) > timeout_secs
}

/// Whether pings are sent at all.
pub fn ping_enabled(ping_interval_secs: u64) -> (r: bool)
    ensures
        r == (ping_interval_secs != 0),
{
    ping_interval_secs != 0
}

/// What is done when it is time for a ping.
#[derive(Debug)]
pub enum PingStep {
    /// The connection has gone.
    Stop,
    /// The client has not answered for this many seconds; the connection ends.
    TimedOut { elapsed_secs: u64 },
    /// A ping is sent.
    Send(Vec<u8>),
}

/// Whether this is what is done when it is time for a ping.
pub open spec fn pings(
    codes: WireCodes,
    alive: bool,
    last_pong: u64,
    now: u64,
    timeout_secs: u64,
    step: PingStep,
) -> bool {
    if !alive {
        step is Stop
    } else if seconds_since(last_pong, now) > timeout_secs {
        step matches PingStep::TimedOut { elapsed_secs } && elapsed_secs == seconds_since(
            last_pong,
            now,
        )
    } else {
        step matches PingStep::Send(frame) && frame@ == crate::protocol::mux_frame(
            codes,
            crate::protocol::ServerMessageType::Ping,
            0,
            crate::protocol::ping_payload(now),
        )
    }
}

/// What is done when it is time for a ping.
pub fn ping_step(
    codes: &WireCodes,
    alive: bool,
    last_pong: u64,
    now: u64,
    timeout_secs: u64,
) -> (step: PingStep)
    ensures
        pings(*codes, alive, last_pong, now, timeout_secs, step),
{
    if !alive {
        PingStep::Stop
    } else if pong_timeout_exceeded(last_pong, now, timeout_secs) {
        PingStep::TimedOut { elapsed_secs: elapsed_pong_seconds(last_pong, now) }
    } else {
        PingStep::Send(encode_ping(codes, now))
    }
}

/// A client that answers a ping within the timeout is never cut off.
pub proof fn lemma_prompt_pongs_keep_alive(last_pong: u64, now: u64, timeout_secs: u64)
    requires
        now - last_pong <= timeout_secs * 1000,
    ensures
        seconds_since(last_pong, now) <= timeout_secs,
{
}

// ----------------------------------------------------------------------------
// Receiving
// ----------------------------------------------------------------------------

/// What a socket yields.
#[derive(Debug)]
pub enum SocketEvent {
    /// A text, and the message that it is or why it is none.
    Text(Result<ClientMessage, String>),
    /// The client closes the connection.
    Close,
    /// Anything else that may be received.
    Other,
    /// Receiving failed.
    Failed,
}

/// What follows from what was received.
#[derive(Debug)]
pub enum ReceiveStep {
    /// The connection ends.
    Stop,
    /// Nothing is done.
    Continue,
    /// The time of the pong is noted.
    RecordPong,
    /// An error is sent.
    Reply(ErrorReply),
    /// The message is answered.
    Handle(ClientMessage),
}

/// What follows from what was received, while the connection is alive or not.
pub open spec fn received(alive: bool, event: SocketEvent, step: ReceiveStep) -> bool {
    if !alive {
        step is Stop
    } else {
        match event {
            SocketEvent::Text(Ok(ClientMessage::Pong { .. })) => step is RecordPong,
            SocketEvent::Text(Ok(message)) => step == ReceiveStep::Handle(message),
            SocketEvent::Text(Err(cause)) => step matches ReceiveStep::Reply(reply) && reply.says(
                0,
                ErrorCode::InvalidRequest,
                "Invalid message: "@ + cause@,
                None,
            ),
            SocketEvent::Close => step is Stop,
            SocketEvent::Other => step is Continue,
            SocketEvent::Failed => step is Stop,
        }
    }
}

/// What follows from what was received, while the connection is alive or not.
pub fn handle_socket_event(alive: bool, event: SocketEvent) -> (step: ReceiveStep)
    ensures
        received(alive, event, step),
{
    if !alive {
        return ReceiveStep::Stop;
    }
    match event {
        SocketEvent::Text(Ok(message)) => match message {
            ClientMessage::Pong { timestamp: _ } => ReceiveStep::RecordPong,
            other => ReceiveStep::Handle(other),
        },
        SocketEvent::Text(Err(cause)) => {
            let mut message = "Invalid message: ".to_owned();
            message.append(cause.as_str());
            ReceiveStep::Reply(ErrorReply::error(0, ErrorCode::InvalidRequest, message))
        },
        SocketEvent::Close => ReceiveStep::Stop,
        SocketEvent::Other => ReceiveStep::Continue,
        SocketEvent::Failed => ReceiveStep::Stop,
    }
}

/// What a client is told of a stream that failed.
pub fn stream_failure(request_id: u32, error: &Error) -> (reply: ErrorReply)
    ensures
        reply.says(request_id, ErrorCode::InternalError, error.text(), None),
{
    ErrorReply::error(request_id, ErrorCode::InternalError, error.message())
}

// ----------------------------------------------------------------------------
// Sessions
// ----------------------------------------------------------------------------

/// Per-user session state for resource management.
#[derive(Debug)]
pub struct SessionState {
    /// Currently active stream count.
    pub active_streams: usize,
    /// Memory currently used by this session (bytes).
    pub memory_used: u64,
    /// Last activity.
    pub last_activity: std::time::Instant,
}

impl SessionState {
    /// A session that uses nothing yet.
    pub fn new() -> (state: Self)
        ensures
            state.active_streams == 0,
            state.memory_used == 0,
    {
        SessionState {
            active_streams: 0,
            memory_used: 0,
            last_activity: std::time::Instant::now(),
        }
    }
}

impl Default for SessionState {
    fn default() -> (state: Self)
        ensures
            state.active_streams == 0,
            state.memory_used == 0,
    {
        SessionState::new()
    }
}

// ----------------------------------------------------------------------------
// Laws
// ----------------------------------------------------------------------------

/// The seconds since the last pong are as many as have fully passed, and none where the
/// clock went back.
pub proof fn lemma_whole_seconds(last_pong: u64, now: u64)
    ensures
        now < last_pong ==> seconds_since(last_pong, now) == 0,
        now >= last_pong ==> 1000 * seconds_since(last_pong, now) <= now - last_pong < 1000 * (
        seconds_since(last_pong, now) + 1),
{
}

/// A live client that answered within the timeout gets a ping of the connection as a
/// whole with the present time; one that has been silent for a second more is cut off.
pub proof fn lemma_silent_clients_are_cut_off(
    codes: WireCodes,
    last_pong: u64,
    now: u64,
    timeout_secs: u64,
    step: PingStep,
)
    requires
        pings(codes, true, last_pong, now, timeout_secs, step),
    ensures
        now - last_pong >= (timeout_secs + 1) * 1000 ==> step is TimedOut,
        now - last_pong < (timeout_secs + 1) * 1000 ==> (step matches PingStep::Send(frame)
            && frame@.len() == 14 && frame@[1] == codes.ping && crate::bytes::le_value(
            frame@.subrange(2, 6),
        ) == 0 && crate::bytes::le_value(frame@.skip(6)) == now),
{
    crate::protocol::lemma_short_payloads_read_back(0, 0, now, 0, Seq::empty());
    crate::protocol::lemma_mux_frame_reads_back(
        codes,
        crate::protocol::ServerMessageType::Ping,
        0,
        crate::protocol::ping_payload(now),
    );
}

/// Nothing is sent over a connection that has gone.
pub proof fn lemma_dead_connections_are_left(
    codes: WireCodes,
    last_pong: u64,
    now: u64,
    timeout_secs: u64,
    step: PingStep,
    event: SocketEvent,
    received_step: ReceiveStep,
)
    requires
        pings(codes, false, last_pong, now, timeout_secs, step),
        received(false, event, received_step),
    ensures
        step is Stop,
        received_step is Stop,
{
}

/// A connection ends exactly where it is dead, closed or broken. A message is handled
/// as it was received; only a pong is noted instead; and what is no message is answered
/// as an invalid request of no stream, with the reason.
pub proof fn lemma_receiving(alive: bool, event: SocketEvent, step: ReceiveStep)
    requires
        received(alive, event, step),
    ensures
        step is Stop <==> !alive || event is Close || event is Failed,
        step matches ReceiveStep::Handle(message) ==> event == SocketEvent::Text(
            Ok::<ClientMessage, String>(message),
        ) && !(message is Pong),
        step is RecordPong ==> (event matches SocketEvent::Text(Ok(message)) && message is Pong),
        alive && (event matches SocketEvent::Text(text) && text is Err) <==> step is Reply,
        step matches ReceiveStep::Reply(reply) ==> reply.request_id == 0 && reply.code
            == ErrorCode::InvalidRequest,
        alive && event is Other <==> step is Continue,
{
}

/// Both kinds of connections treat what they receive alike.
pub proof fn lemma_connections_agree<P>(
    alive: bool,
    event: SocketEvent,
    step: ReceiveStep,
    plain_event: crate::plain::PlainEvent<P>,
    plain_step: crate::plain::PlainStep<P>,
)
    requires
        received(alive, event, step),
        crate::plain::plain_received(alive, plain_event, plain_step),
        event is Close <==> plain_event is Close,
        event is Failed <==> plain_event is Failed,
        event is Other <==> plain_event is Other,
    ensures
        step is Stop <==> plain_step is Stop,
        step is Continue <==> plain_step is Continue,
{
}

/// A slot that is taken counts as one more, and the connection that takes it gets the
/// id that comes next.
pub proof fn lemma_taken_slots_count(slots: Slots)
    requires
        slots.active < slots.limit,
    ensures
        slots.acquired().1 == Some(slots.next_id),
        slots.acquired().0.active == slots.active + 1,
        slots.acquired().0.limit == slots.limit,
        slots.acquired().0.next_id == (slots.next_id + 1) % 0x1_0000_0000_0000_0000,
        slots.acquired().0.released().next_id == slots.acquired().0.next_id,
        slots.released().limit == slots.limit,
        slots.active > 0 ==> slots.released().active == slots.active - 1,
{
}

} // verus!
