//! A WebSocket connection, one decision at a time: liveness, budgets, frames
//! between requests and frames during a stream.
//!
//! Moments are nanoseconds on one monotonic clock.

use crate::connection::PeerState;
use crate::handoff::AcceptEvent;
use crate::net::{socket_text, SocketAddress};
use crate::requests::Written;
use crate::schema::{error_response, is_error, Response};
use crate::text::{
    decimal_text, law_a_number_is_read_as_it_is_written, number_of, parse_number, str_view,
};
use vstd::prelude::*;

verus! {

pub const NANOS_PER_MILLI: u64 = 1_000_000;

/// Overall budget for completing the upgrade, including authorization.
pub const HANDSHAKE_TIMEOUT_NANOS: u64 = 10_000_000_000;

/// Socket timeout of one call during the handshake.
pub const HANDSHAKE_IO_TIMEOUT_NANOS: u64 = 5_000_000_000;

/// Budget for writing one frame to a slow client.
pub const FRAME_WRITE_TIMEOUT_NANOS: u64 = 5_000_000_000;

/// How long a read waits at most between looks at the server.
pub const POLL_INTERVAL_NANOS: u64 = 100_000_000;

/// How long a client may take to send its first request.
pub const FIRST_REQUEST_TIMEOUT_NANOS: u64 = 5_000_000_000;

/// A proven client that was silent for this long is sent a ping.
pub const IDLE_PING_AFTER_NANOS: u64 = 30_000_000_000;

/// A proven client that stayed silent this long is let go.
pub const IDLE_CLOSE_AFTER_NANOS: u64 = 90_000_000_000;

/// The longest rest between two tries to flush a frame.
pub const FLUSH_RETRY_NANOS: u64 = 10_000_000;

/// How long a bind retries while the previous owner releases the port.
pub const BIND_RETRY_TIMEOUT_NANOS: u64 = 2_000_000_000;

pub const BIND_RETRY_INTERVAL_NANOS: u64 = 50_000_000;

pub const IDLE_REAP_ERROR: &'static str = "timed out waiting for websocket pong after idle ping";

pub const IDLE_CLOSE_REASON: &'static str = "idle ping timeout";

pub const CONNECTION_CLOSED: &'static str = "websocket connection closed";

pub const FIRST_REQUEST_TIMED_OUT: &'static str = "timed out reading api request";

pub const WRITE_TIMED_OUT: &'static str = "timed out writing websocket api message";

pub const HANDSHAKE_TIMED_OUT: &'static str = "timed out during websocket handshake";

pub const BINARY_REFUSAL: &'static str = "invalid request: binary frames are not supported; send one JSON message per text frame";

/// The answer to a binary frame, whether it arrives between requests or
/// during a stream.
pub fn binary_frame_refusal() -> (response: Response)
    ensures
        is_error(response, Seq::empty(), "invalid_request"@, BINARY_REFUSAL@),
{
    proof {
        reveal_strlit("");
        assert(""@ =~= Seq::<char>::empty());
    }
    error_response("", "invalid_request", BINARY_REFUSAL.to_string())
}

// ---- The listener ----------------------------------------------------------------------------

/// What the listener does next.
#[derive(Clone, Copy, Debug, PartialEq, Eq, Structural)]
pub enum ListenerStep {
    /// Serve the connection, and accept the next.
    Serve,
    /// Wait for a connection, and accept again.
    Wait,
    /// Accept again.
    Retry,
    /// Stop listening.
    Stop,
}

/// The next step of a listener, given whether the server runs and what an
/// accept brought.
pub fn listener_step(running: bool, event: AcceptEvent) -> (step: ListenerStep)
    ensures
        step == (if !running {
            ListenerStep::Stop
        } else {
            match event {
                AcceptEvent::Accepted => ListenerStep::Serve,
                AcceptEvent::WouldBlock => ListenerStep::Wait,
                AcceptEvent::Interrupted => ListenerStep::Retry,
                AcceptEvent::Failed => ListenerStep::Stop,
            }
        }),
{
    if !running {
        return ListenerStep::Stop;
    }
    match event {
        AcceptEvent::Accepted => ListenerStep::Serve,
        AcceptEvent::WouldBlock => ListenerStep::Wait,
        AcceptEvent::Interrupted => ListenerStep::Retry,
        AcceptEvent::Failed => ListenerStep::Stop,
    }
}

/// What binding the listener came to.
#[derive(Clone, Debug, PartialEq, Eq)]
pub enum BindOutcome {
    Bound,
    /// Another listener holds the address.
    InUse(String),
    Failed(String),
}

/// What follows a bind.
#[derive(Clone, Debug, PartialEq, Eq)]
pub enum BindStep {
    Bound,
    /// Try again after this many nanoseconds.
    Retry(u64),
    Fail(String),
}

pub open spec fn bind_failure(addr: SocketAddress, error: Seq<char>) -> Seq<char> {
    "failed to bind websocket api listener on "@ + socket_text(addr@) + ": "@ + error
}

/// What follows a bind: an address that is in use is tried again until the
/// deadline, since a previous owner may just be releasing it.
pub fn bind_step(addr: &SocketAddress, outcome: BindOutcome, now: u64, deadline: u64) -> (step:
    BindStep)
    ensures
        match outcome {
            BindOutcome::Bound => step is Bound,
            BindOutcome::InUse(error) => if now < deadline {
                step == BindStep::Retry(BIND_RETRY_INTERVAL_NANOS)
            } else {
                step matches BindStep::Fail(text) && text@ == bind_failure(*addr, error@)
            },
            BindOutcome::Failed(error) => step matches BindStep::Fail(text) && text@
                == bind_failure(*addr, error@),
        },
{
    let error = match outcome {
        BindOutcome::Bound => {
            return BindStep::Bound;
        },
        BindOutcome::InUse(error) => {
            if now < deadline {
                return BindStep::Retry(BIND_RETRY_INTERVAL_NANOS);
            }
            error
        },
        BindOutcome::Failed(error) => error,
    };
    let mut text = "failed to bind websocket api listener on ".to_string();
    text.push_str(&addr.to_text());
    text.push_str(": ");
    text.push_str(&error);
    BindStep::Fail(text)
}

/// Where the upgrade of a connection stands.
#[derive(Clone, Copy, Debug, PartialEq, Eq, Structural)]
pub enum HandshakeProgress {
    Upgraded,
    Failed,
    /// The handshake needs another turn.
    Interrupted,
}

/// What follows a turn of the handshake.
#[derive(Clone, Copy, Debug, PartialEq, Eq, Structural)]
pub enum HandshakeStep {
    Serve,
    Fail,
    Resume,
    TimeOut,
}

/// What follows a turn of the handshake: only one that needs another turn
/// looks at the deadline.
pub fn handshake_step(progress: HandshakeProgress, now: u64, deadline: u64) -> (step: HandshakeStep)
    ensures
        step == match progress {
            HandshakeProgress::Upgraded => HandshakeStep::Serve,
            HandshakeProgress::Failed => HandshakeStep::Fail,
            HandshakeProgress::Interrupted => if now >= deadline {
                HandshakeStep::TimeOut
            } else {
                HandshakeStep::Resume
            },
        },
{
    match progress {
        HandshakeProgress::Upgraded => HandshakeStep::Serve,
        HandshakeProgress::Failed => HandshakeStep::Fail,
        HandshakeProgress::Interrupted => if now >= deadline {
            HandshakeStep::TimeOut
        } else {
            HandshakeStep::Resume
        },
    }
}

// ---- Faults ----------------------------------------------------------------------------------

/// What a WebSocket operation failed with.
#[derive(Clone, Debug, PartialEq, Eq)]
pub enum WsFault {
    /// The socket would block, or its timeout passed.
    NotReady,
    /// The protocol says that the connection is closed.
    ProtocolClosed,
    /// The peer reset the connection without a closing handshake.
    ResetWithoutClosing,
    /// The socket says that the peer is gone.
    SocketClosed(String),
    Other(String),
}

/// What a fault means to a connection.
#[derive(Clone, Debug, PartialEq, Eq)]
pub enum WsErrorClass {
    WouldBlock,
    Closed,
    Failed(String),
}

pub open spec fn fault_class(fault: WsFault) -> WsErrorClass {
    match fault {
        WsFault::NotReady => WsErrorClass::WouldBlock,
        WsFault::ProtocolClosed => WsErrorClass::Closed,
        WsFault::ResetWithoutClosing => WsErrorClass::Closed,
        WsFault::SocketClosed(_) => WsErrorClass::Closed,
        WsFault::Other(error) => WsErrorClass::Failed(error),
    }
}

/// What a fault means to a connection.
pub fn classify_ws_error(fault: WsFault) -> (class: WsErrorClass)
    ensures
        class == fault_class(fault),
{
    match fault {
        WsFault::NotReady => WsErrorClass::WouldBlock,
        WsFault::ProtocolClosed => WsErrorClass::Closed,
        WsFault::ResetWithoutClosing => WsErrorClass::Closed,
        WsFault::SocketClosed(_) => WsErrorClass::Closed,
        WsFault::Other(error) => WsErrorClass::Failed(error),
    }
}

/// What came of sending a ping or flushing: a socket that is not ready is no
/// trouble, the frame stays queued.
pub fn flush_outcome(fault: Option<WsFault>) -> (written: Written)
    ensures
        written == (match fault {
            None => Written::Done,
            Some(fault) => match fault_class(fault) {
                WsErrorClass::WouldBlock => Written::Done,
                WsErrorClass::Closed => Written::Closed,
                WsErrorClass::Failed(error) => Written::Failed(error),
            },
        }),
{
    match fault {
        None => Written::Done,
        Some(fault) => match classify_ws_error(fault) {
            WsErrorClass::WouldBlock => Written::Done,
            WsErrorClass::Closed => Written::Closed,
            WsErrorClass::Failed(error) => Written::Failed(error),
        },
    }
}

/// What an operation came to once the socket's settings were restored after
/// it: its own failure goes first, then the restoring's.
pub fn restore_result<T, E>(result: Result<T, E>, restore: Result<(), E>) -> (outcome: Result<T, E>)
    ensures
        match (result, restore) {
            (Ok(_), Err(error)) => outcome == Err::<T, E>(error),
            (_, _) => outcome == result,
        },
{
    match result {
        Ok(value) => match restore {
            Ok(_) => Ok(value),
            Err(error) => Err(error),
        },
        Err(error) => Err(error),
    }
}

/// What follows a try to write a message.
#[derive(Clone, Debug, PartialEq, Eq)]
pub enum WriteStep {
    Done,
    /// Rest this many nanoseconds, then flush again.
    FlushAfter(u64),
    TimeOut,
    Closed,
    Fail(String),
}

/// What follows a try to write a message. A frame that a slow client does not
/// take stays queued, and is flushed until it is taken or the deadline is
/// reached.
pub fn write_step(fault: Option<WsFault>, now: u64, deadline: u64) -> (step: WriteStep)
    ensures
        step == (match fault {
            None => WriteStep::Done,
            Some(fault) => match fault_class(fault) {
                WsErrorClass::WouldBlock => if now >= deadline {
                    WriteStep::TimeOut
                } else if deadline - now < FLUSH_RETRY_NANOS {
                    WriteStep::FlushAfter((deadline - now) as u64)
                } else {
                    WriteStep::FlushAfter(FLUSH_RETRY_NANOS)
                },
                WsErrorClass::Closed => WriteStep::Closed,
                WsErrorClass::Failed(error) => WriteStep::Fail(error),
            },
        }),
{
    match fault {
        None => WriteStep::Done,
        Some(fault) => match classify_ws_error(fault) {
            WsErrorClass::WouldBlock => {
                if now >= deadline {
                    return WriteStep::TimeOut;
                }
                let remaining: u64 = deadline - now;
                if remaining < FLUSH_RETRY_NANOS {
                    WriteStep::FlushAfter(remaining)
                } else {
                    WriteStep::FlushAfter(FLUSH_RETRY_NANOS)
                }
            },
            WsErrorClass::Closed => WriteStep::Closed,
            WsErrorClass::Failed(error) => WriteStep::Fail(error),
        },
    }
}

// ---- Budgets ---------------------------------------------------------------------------------

/// The longer of a duration and one millisecond: a socket timeout must not be
/// zero.
pub open spec fn at_least_a_milli(nanos: int) -> int {
    if nanos < NANOS_PER_MILLI {
        NANOS_PER_MILLI as int
    } else {
        nanos
    }
}

/// How long a read may wait, or that the first request is overdue. Once the
/// first request has arrived, a read waits one poll interval.
pub fn read_budget(first_request_deadline: Option<u64>, now: u64) -> (budget: Option<u64>)
    ensures
        match first_request_deadline {
            None => budget == Some(POLL_INTERVAL_NANOS),
            Some(deadline) => if now >= deadline {
                budget is None
            } else {
                budget matches Some(budget) && budget == (if at_least_a_milli(deadline - now)
                    < POLL_INTERVAL_NANOS {
                    at_least_a_milli(deadline - now)
                } else {
                    POLL_INTERVAL_NANOS as int
                })
            },
        },
{
    match first_request_deadline {
        None => Some(POLL_INTERVAL_NANOS),
        Some(deadline) => {
            if now >= deadline {
                return None;
            }
            let remaining: u64 = deadline - now;
            let least: u64 = if remaining < NANOS_PER_MILLI {
                NANOS_PER_MILLI
            } else {
                remaining
            };
            if least < POLL_INTERVAL_NANOS {
                Some(least)
            } else {
                Some(POLL_INTERVAL_NANOS)
            }
        },
    }
}

/// When a read that starts now has to be over.
pub fn read_deadline(budget: u64, now: u64) -> (deadline: u64)
    requires
        now + at_least_a_milli(budget as int) <= u64::MAX,
    ensures
        deadline == now + at_least_a_milli(budget as int),
{
    if budget < NANOS_PER_MILLI {
        now + NANOS_PER_MILLI
    } else {
        now + budget
    }
}

/// What a budget is for.
#[derive(Clone, Copy, Debug, PartialEq, Eq, Structural)]
pub enum BudgetKind {
    Read,
    Write,
}

/// The socket timeout that is left until a deadline, or that it has passed.
/// The budget is one for the whole operation, however many socket calls it
/// takes.
pub fn timeout_until(deadline: u64, now: u64, kind: BudgetKind) -> (timeout: Result<
    u64,
    &'static str,
>)
    ensures
        match timeout {
            Ok(timeout) => now < deadline && timeout == at_least_a_milli(deadline - now),
            Err(error) => now >= deadline && error@ == (match kind {
                BudgetKind::Read => "websocket read budget expired"@,
                BudgetKind::Write => "websocket write budget expired"@,
            }),
        },
{
    if now >= deadline {
        return Err(
            match kind {
                BudgetKind::Read => "websocket read budget expired",
                BudgetKind::Write => "websocket write budget expired",
            },
        );
    }
    let remaining: u64 = deadline - now;
    if remaining < NANOS_PER_MILLI {
        Ok(NANOS_PER_MILLI)
    } else {
        Ok(remaining)
    }
}

// ---- Liveness --------------------------------------------------------------------------------

/// How long a client may be silent.
#[derive(Clone, Copy, Debug, PartialEq, Eq, Structural)]
pub struct WsLivenessTiming {
    pub ping_after: u64,
    pub close_after: u64,
}

impl WsLivenessTiming {
    /// A ping goes out before the client is let go.
    pub open spec fn wf(&self) -> bool {
        0 < self.ping_after < self.close_after
    }
}

/// The timing that two settings in milliseconds ask for, where both are
/// numbers that make a timing.
pub open spec fn timing_from(ping: Option<Seq<char>>, close: Option<Seq<char>>) -> Option<
    (u64, u64),
> {
    match (ping, close) {
        (Some(ping), Some(close)) => match (number_of(ping), number_of(close)) {
            (Some(ping), Some(close)) => if ping == 0 || close <= ping {
                None
            } else {
                Some((ping, close))
            },
            _ => None,
        },
        _ => None,
    }
}

/// The timing that settings in milliseconds ask for.
pub fn ws_liveness_timing_from_env(ping: Option<&str>, close: Option<&str>) -> (timing: Option<
    (u64, u64),
>)
    ensures
        timing == timing_from(str_view(ping), str_view(close)),
{
    let ping = match ping {
        None => {
            return None;
        },
        Some(ping) => parse_number(ping),
    };
    let close = match close {
        None => {
            return None;
        },
        Some(close) => parse_number(close),
    };
    match (ping, close) {
        (Some(ping), Some(close)) => if ping == 0 || close <= ping {
            None
        } else {
            Some((ping, close))
        },
        _ => None,
    }
}

/// Milliseconds in nanoseconds, or the longest time there is.
pub open spec fn in_nanos(millis: u64) -> u64 {
    if millis * NANOS_PER_MILLI > u64::MAX {
        u64::MAX
    } else {
        (millis * NANOS_PER_MILLI) as u64
    }
}

fn millis_in_nanos(millis: u64) -> (nanos: u64)
    ensures
        nanos == in_nanos(millis),
{
    if millis > u64::MAX / NANOS_PER_MILLI {
        u64::MAX
    } else {
        millis * NANOS_PER_MILLI
    }
}

/// The timing of a connection: the settings' where they make one, else the
/// standard one.
pub fn ws_liveness_timing(settings: Option<(u64, u64)>) -> (timing: WsLivenessTiming)
    ensures
        timing == (match settings {
            None => WsLivenessTiming {
                ping_after: IDLE_PING_AFTER_NANOS,
                close_after: IDLE_CLOSE_AFTER_NANOS,
            },
            Some((ping, close)) => WsLivenessTiming {
                ping_after: in_nanos(ping),
                close_after: in_nanos(close),
            },
        }),
{
    match settings {
        None => WsLivenessTiming {
            ping_after: IDLE_PING_AFTER_NANOS,
            close_after: IDLE_CLOSE_AFTER_NANOS,
        },
        Some((ping, close)) => WsLivenessTiming {
            ping_after: millis_in_nanos(ping),
            close_after: millis_in_nanos(close),
        },
    }
}

/// What is known of a client's silence.
#[derive(Clone, Copy, Debug, PartialEq, Eq, Structural)]
pub struct WsLiveness {
    pub timing: WsLivenessTiming,
    pub last_inbound: u64,
    pub ping_sent_at: Option<u64>,
}

/// What liveness asks of a connection.
#[derive(Clone, Copy, Debug, PartialEq, Eq, Structural)]
pub enum LivenessStep {
    /// Close the connection: the client stayed silent after its ping.
    Reap,
    /// Send a ping.
    Ping,
    /// Flush, in case the ping is still queued.
    Flush,
    Rest,
}

/// How long a client has been silent; not at all where the clock is behind
/// its last frame.
pub open spec fn silence(liveness: WsLiveness, now: u64) -> int {
    if now < liveness.last_inbound {
        0
    } else {
        now - liveness.last_inbound
    }
}

pub open spec fn pings(liveness: WsLiveness, now: u64) -> bool {
    liveness.ping_sent_at is None && silence(liveness, now) >= liveness.timing.ping_after
}

pub open spec fn reaps(liveness: WsLiveness, now: u64) -> bool {
    liveness.ping_sent_at is Some && silence(liveness, now) >= liveness.timing.close_after
}

/// What liveness asks of a connection.
pub open spec fn liveness_step(liveness: WsLiveness, now: u64) -> LivenessStep {
    if reaps(liveness, now) {
        LivenessStep::Reap
    } else if pings(liveness, now) {
        LivenessStep::Ping
    } else if liveness.ping_sent_at is Some {
        LivenessStep::Flush
    } else {
        LivenessStep::Rest
    }
}

impl WsLiveness {
    pub fn new(timing: WsLivenessTiming, now: u64) -> (liveness: WsLiveness)
        ensures
            liveness == (WsLiveness { timing, last_inbound: now, ping_sent_at: None }),
    {
        WsLiveness { timing, last_inbound: now, ping_sent_at: None }
    }

    /// A frame arrived.
    pub fn mark_inbound(&mut self, now: u64)
        ensures
            *final(self) == (WsLiveness {
                timing: old(self).timing,
                last_inbound: now,
                ping_sent_at: None,
            }),
    {
        self.last_inbound = now;
        self.ping_sent_at = None;
    }

    pub fn should_ping(&self, now: u64) -> (yes: bool)
        ensures
            yes == pings(*self, now),
    {
        self.ping_sent_at.is_none() && now.saturating_sub(self.last_inbound)
            >= self.timing.ping_after
    }

    /// The ping was sent.
    pub fn mark_ping_sent(&mut self, now: u64)
        ensures
            *final(self) == (WsLiveness { ping_sent_at: Some(now), ..*old(self) }),
    {
        self.ping_sent_at = Some(now);
    }

    pub fn should_reap(&self, now: u64) -> (yes: bool)
        ensures
            yes == reaps(*self, now),
    {
        self.ping_sent_at.is_some() && now.saturating_sub(self.last_inbound)
            >= self.timing.close_after
    }

    /// What liveness asks of the connection.
    pub fn poll(&self, now: u64) -> (step: LivenessStep)
        ensures
            step == liveness_step(*self, now),
    {
        if self.should_reap(now) {
            LivenessStep::Reap
        } else if self.should_ping(now) {
            LivenessStep::Ping
        } else if self.ping_sent_at.is_some() {
            LivenessStep::Flush
        } else {
            LivenessStep::Rest
        }
    }
}

/// A client is let go only after a ping and a whole silence.
pub proof fn law_a_client_is_pinged_before_it_is_let_go(liveness: WsLiveness, now: u64)
    requires
        liveness_step(liveness, now) is Reap,
    ensures
        liveness.ping_sent_at is Some,
        now - liveness.last_inbound >= liveness.timing.close_after || liveness.timing.close_after
            == 0,
{
}

/// Whatever a client sends starts its time anew: it is neither pinged nor let
/// go before it has been silent again.
pub proof fn law_any_frame_starts_the_time_anew(timing: WsLivenessTiming, at: u64, now: u64)
    requires
        timing.wf(),
        now - at < timing.ping_after,
    ensures
        liveness_step(
            WsLiveness { timing, last_inbound: at, ping_sent_at: None },
            now,
        ) is Rest,
{
}

// ---- The connection --------------------------------------------------------------------------

/// A frame as it arrives.
#[derive(Clone, Copy, Debug, PartialEq, Eq, Structural)]
pub enum Frame {
    Text,
    Binary,
    Ping,
    Pong,
    Close,
    /// A raw frame, which says nothing.
    Raw,
}

/// What a connection does with a frame.
#[derive(Clone, Copy, Debug, PartialEq, Eq, Structural)]
pub enum FrameStep {
    /// Serve the text as a request.
    Serve,
    /// Answer that binary frames are not supported.
    RefuseBinary,
    /// Flush the reply to a ping.
    Flush,
    /// The connection is over.
    End,
    /// Read on.
    Skip,
}

pub open spec fn frame_step(frame: Frame) -> FrameStep {
    match frame {
        Frame::Text => FrameStep::Serve,
        Frame::Binary => FrameStep::RefuseBinary,
        Frame::Ping => FrameStep::Flush,
        Frame::Pong => FrameStep::Flush,
        Frame::Close => FrameStep::End,
        Frame::Raw => FrameStep::Skip,
    }
}

/// Whether a frame shows that the client is there.
pub open spec fn shows_life(frame: Frame) -> bool {
    !(frame is Close) && !(frame is Raw)
}

/// What a connection does when nothing arrives.
#[derive(Clone, Copy, Debug, PartialEq, Eq, Structural)]
pub enum IdleStep {
    /// The first request is overdue.
    TimeOut,
    /// Write the verdict that the credential was revoked, and end.
    VerdictThenEnd,
    /// End: the verdict was written before.
    End,
    /// Do what liveness asks.
    Liveness(LivenessStep),
    /// Read on.
    Read,
}

/// An established connection.
#[derive(Clone, Copy, Debug, PartialEq, Eq, Structural)]
pub struct WsConnection {
    /// When the first request has to have arrived; absent once it has.
    pub first_request_deadline: Option<u64>,
    pub liveness: WsLiveness,
    /// Whether the client was told that its credential is revoked. The
    /// verdict is terminal, so it is written once.
    pub revocation_verdict_sent: bool,
}

/// A connection after a frame arrived during a stream: one that shows life
/// starts its time anew.
pub open spec fn after_stream_frame(connection: WsConnection, frame: Frame, now: u64) ->
    WsConnection {
    WsConnection {
        liveness: if shows_life(frame) {
            WsLiveness {
                timing: connection.liveness.timing,
                last_inbound: now,
                ping_sent_at: None,
            }
        } else {
            connection.liveness
        },
        ..connection
    }
}

/// A connection after a frame arrived between requests: a text or a binary
/// frame proves it besides.
pub open spec fn after_frame(connection: WsConnection, frame: Frame, now: u64) -> WsConnection {
    WsConnection {
        first_request_deadline: if frame is Text || frame is Binary {
            None
        } else {
            connection.first_request_deadline
        },
        ..after_stream_frame(connection, frame, now)
    }
}

/// A connection after it may have been told that its credential was revoked.
pub open spec fn told(connection: WsConnection, now_told: bool) -> WsConnection {
    WsConnection {
        revocation_verdict_sent: connection.revocation_verdict_sent || now_told,
        ..connection
    }
}

/// What a stream does before it looks for frames.
pub open spec fn pump_step(connection: WsConnection, revoked: bool) -> PumpStep {
    if !revoked {
        PumpStep::Read
    } else if connection.revocation_verdict_sent {
        PumpStep::Gone
    } else {
        PumpStep::VerdictThenGone
    }
}

/// What a connection does when nothing arrives. A request that arrives after
/// a revoke is answered with its own refusal; an idle connection has no
/// request to answer, so it is told on its own, and then ends.
pub open spec fn idle_step(connection: WsConnection, now: u64, revoked: bool) -> IdleStep {
    if connection.first_request_deadline matches Some(deadline) && now >= deadline {
        IdleStep::TimeOut
    } else if revoked {
        if connection.revocation_verdict_sent {
            IdleStep::End
        } else {
            IdleStep::VerdictThenEnd
        }
    } else if connection.first_request_deadline is None {
        IdleStep::Liveness(liveness_step(connection.liveness, now))
    } else {
        IdleStep::Read
    }
}

/// What a connection does before it looks for frames during a stream.
#[derive(Clone, Copy, Debug, PartialEq, Eq, Structural)]
pub enum PumpStep {
    /// Write the verdict that the credential was revoked; the stream is over.
    VerdictThenGone,
    /// The stream is over: the verdict was written before.
    Gone,
    /// Look for frames.
    Read,
}

impl WsConnection {
    /// A connection whose handshake is done at a moment.
    pub fn new(timing: WsLivenessTiming, now: u64) -> (connection: WsConnection)
        requires
            now + FIRST_REQUEST_TIMEOUT_NANOS <= u64::MAX,
        ensures
            connection.first_request_deadline == Some((now + FIRST_REQUEST_TIMEOUT_NANOS) as u64),
            connection.liveness == (WsLiveness { timing, last_inbound: now, ping_sent_at: None }),
            !connection.revocation_verdict_sent,
    {
        WsConnection {
            first_request_deadline: Some(now + FIRST_REQUEST_TIMEOUT_NANOS),
            liveness: WsLiveness::new(timing, now),
            revocation_verdict_sent: false,
        }
    }

    /// A frame arrived between requests. A text or a binary frame proves the
    /// connection, which then has no deadline for its first request.
    pub fn on_frame(&mut self, frame: Frame, now: u64) -> (step: FrameStep)
        ensures
            step == frame_step(frame),
            *final(self) == after_frame(*old(self), frame, now),
    {
        match frame {
            Frame::Text => {
                self.liveness.mark_inbound(now);
                self.first_request_deadline = None;
                FrameStep::Serve
            },
            Frame::Binary => {
                self.liveness.mark_inbound(now);
                self.first_request_deadline = None;
                FrameStep::RefuseBinary
            },
            Frame::Ping => {
                self.liveness.mark_inbound(now);
                FrameStep::Flush
            },
            Frame::Pong => {
                self.liveness.mark_inbound(now);
                FrameStep::Flush
            },
            Frame::Close => FrameStep::End,
            Frame::Raw => FrameStep::Skip,
        }
    }

    /// A request was served; whether the connection is over with it. A
    /// revoked connection is: its refusal was the verdict.
    pub fn after_request(&mut self, revoked: bool) -> (over: bool)
        ensures
            over == revoked,
            *final(self) == told(*old(self), revoked),
    {
        if revoked {
            self.revocation_verdict_sent = true;
        }
        revoked
    }

    /// Nothing arrived between requests.
    pub fn on_idle(&mut self, now: u64, revoked: bool) -> (step: IdleStep)
        ensures
            step == idle_step(*old(self), now, revoked),
            *final(self) == told(*old(self), step is VerdictThenEnd),
    {
        if let Some(deadline) = self.first_request_deadline {
            if now >= deadline {
                return IdleStep::TimeOut;
            }
        }
        if revoked {
            if self.revocation_verdict_sent {
                return IdleStep::End;
            }
            self.revocation_verdict_sent = true;
            return IdleStep::VerdictThenEnd;
        }
        if self.first_request_deadline.is_none() {
            return IdleStep::Liveness(self.liveness.poll(now));
        }
        IdleStep::Read
    }

    /// The ping that liveness asked for was sent.
    pub fn ping_sent(&mut self, now: u64)
        ensures
            *final(self) == (WsConnection {
                liveness: WsLiveness { ping_sent_at: Some(now), ..old(self).liveness },
                ..*old(self)
            }),
    {
        self.liveness.mark_ping_sent(now);
    }

    /// A stream is about to look for frames. Revoking a credential ends the
    /// streams that it holds, and the client is told why first.
    pub fn pump(&mut self, revoked: bool) -> (step: PumpStep)
        ensures
            step == pump_step(*old(self), revoked),
            *final(self) == told(*old(self), revoked),
    {
        if !revoked {
            return PumpStep::Read;
        }
        if self.revocation_verdict_sent {
            return PumpStep::Gone;
        }
        self.revocation_verdict_sent = true;
        PumpStep::VerdictThenGone
    }

    /// A frame arrived during a stream. What ends a connection ends the
    /// stream.
    pub fn on_stream_frame(&mut self, frame: Frame, now: u64) -> (step: FrameStep)
        ensures
            step == frame_step(frame),
            *final(self) == after_stream_frame(*old(self), frame, now),
    {
        match frame {
            Frame::Text => {
                self.liveness.mark_inbound(now);
                FrameStep::Serve
            },
            Frame::Binary => {
                self.liveness.mark_inbound(now);
                FrameStep::RefuseBinary
            },
            Frame::Ping => {
                self.liveness.mark_inbound(now);
                FrameStep::Flush
            },
            Frame::Pong => {
                self.liveness.mark_inbound(now);
                FrameStep::Flush
            },
            Frame::Close => FrameStep::End,
            Frame::Raw => FrameStep::Skip,
        }
    }
}

/// What a fault means while a stream looks for frames: a socket with nothing
/// to read leaves the peer alive, after liveness was asked; a closed one has
/// lost it.
pub fn stream_fault(fault: WsFault) -> (state: Result<PeerState, String>)
    ensures
        match fault_class(fault) {
            WsErrorClass::WouldBlock => state == Ok::<PeerState, String>(PeerState::Alive),
            WsErrorClass::Closed => state == Ok::<PeerState, String>(PeerState::Gone),
            WsErrorClass::Failed(error) => state == Err::<PeerState, String>(error),
        },
{
    match classify_ws_error(fault) {
        WsErrorClass::WouldBlock => Ok(PeerState::Alive),
        WsErrorClass::Closed => Ok(PeerState::Gone),
        WsErrorClass::Failed(error) => Err(error),
    }
}

/// A connection whose credential was revoked ends at its next idle moment,
/// and is told so once: whoever told it first, nobody tells it again.
pub proof fn law_the_verdict_is_written_once(connection: WsConnection, now: u64)
    requires
        connection.first_request_deadline matches Some(deadline) ==> now < deadline,
    ensures
        connection.revocation_verdict_sent ==> idle_step(connection, now, true) is End,
        !connection.revocation_verdict_sent ==> idle_step(connection, now, true) is VerdictThenEnd,
        idle_step(
            WsConnection { revocation_verdict_sent: true, ..connection },
            now,
            true,
        ) is End,
{
}

/// A client that has sent nothing yet is given its time for a first request,
/// and neither pinged nor reaped meanwhile.
pub proof fn law_liveness_starts_with_the_first_request(
    connection: WsConnection,
    now: u64,
    revoked: bool,
)
    requires
        connection.first_request_deadline is Some,
    ensures
        !(idle_step(connection, now, revoked) is Liveness),
{
}

/// How long a silent client is kept, unless settings say otherwise: after thirty
/// seconds of silence it is pinged, and where it stays silent, it is let go
/// after ninety.
pub proof fn law_how_long_a_silent_client_is_kept(
    timing: WsLivenessTiming,
    at: u64,
    sent: u64,
    now: u64,
)
    requires
        call_ensures(ws_liveness_timing, (None::<(u64, u64)>,), timing),
        at <= now,
    ensures
        ({
            let quiet = WsLiveness { timing, last_inbound: at, ping_sent_at: None };
            &&& now - at < 30_000_000_000 ==> liveness_step(quiet, now) is Rest
            &&& now - at >= 30_000_000_000 ==> liveness_step(quiet, now) is Ping
        }),
        ({
            let pinged = WsLiveness { timing, last_inbound: at, ping_sent_at: Some(sent) };
            &&& now - at < 90_000_000_000 ==> liveness_step(pinged, now) is Flush
            &&& now - at >= 90_000_000_000 ==> liveness_step(pinged, now) is Reap
        }),
{
}

/// A clock that stands before the last frame shows no silence.
pub proof fn law_no_silence_before_the_last_frame(liveness: WsLiveness, now: u64)
    requires
        now < liveness.last_inbound,
        liveness.timing.wf(),
    ensures
        !(liveness_step(liveness, now) is Reap),
        !(liveness_step(liveness, now) is Ping),
{
}

/// Settings in milliseconds are taken exactly where both are numbers, the first
/// is not zero, and the second is larger; they are then what the connection
/// goes by.
pub proof fn law_which_settings_make_a_timing(ping: u64, close: u64, timing: WsLivenessTiming)
    requires
        close <= 1_000_000_000_000,
    ensures
        timing_from(
            Some(decimal_text(ping as nat)),
            Some(decimal_text(close as nat)),
        ) == (if 0 < ping && ping < close {
            Some((ping, close))
        } else {
            None
        }),
        timing_from(None, Some(decimal_text(close as nat))) is None,
        timing_from(Some(decimal_text(ping as nat)), None) is None,
        ping < close && call_ensures(ws_liveness_timing, (Some((ping, close)),), timing)
            ==> timing.ping_after == ping * 1_000_000 && timing.close_after == close * 1_000_000,
{
    law_a_number_is_read_as_it_is_written(ping);
    law_a_number_is_read_as_it_is_written(close);
}

/// A client has five seconds for its first request, from its handshake on.
pub proof fn law_five_seconds_for_a_first_request(
    timing: WsLivenessTiming,
    now: u64,
    later: u64,
    connection: WsConnection,
)
    requires
        now + 5_000_000_000 <= u64::MAX,
        call_ensures(WsConnection::new, (timing, now), connection),
    ensures
        idle_step(connection, later, false) is TimeOut <==> later >= now + 5_000_000_000,
        later < now + 5_000_000_000 ==> idle_step(connection, later, false) is Read,
        later < now + 5_000_000_000 ==> idle_step(connection, later, true) is VerdictThenEnd,
{
}

/// A read waits a tenth of a second at most, and never past the moment that the
/// first request is due, but a millisecond at least; once that moment has come,
/// nothing is read.
pub proof fn law_how_long_a_read_waits(deadline: u64, now: u64, budget: Option<u64>)
    ensures
        call_ensures(read_budget, (None::<u64>, now), budget) ==> budget == Some(100_000_000u64),
        call_ensures(read_budget, (Some(deadline), now), budget) ==> {
            &&& budget is None <==> now >= deadline
            &&& budget matches Some(budget) ==> 1_000_000 <= budget <= 100_000_000
            &&& budget matches Some(budget) ==> deadline - now >= 100_000_000 ==> budget
                == 100_000_000
            &&& budget matches Some(budget) ==> 1_000_000 <= deadline - now <= 100_000_000 ==> budget
                == deadline - now
        },
{
}

/// A message that a slow client does not take is flushed again after ten
/// milliseconds at most, and given up exactly once its deadline has come.
pub proof fn law_how_long_a_message_is_flushed(now: u64, deadline: u64, step: WriteStep)
    requires
        call_ensures(write_step, (Some(WsFault::NotReady), now, deadline), step),
    ensures
        step is TimeOut <==> now >= deadline,
        now < deadline ==> (step matches WriteStep::FlushAfter(rest) && 0 < rest <= 10_000_000
            && rest <= deadline - now && (deadline - now >= 10_000_000 ==> rest == 10_000_000)),
{
}

/// What happens to a socket: one that is not ready is tried again, a peer that
/// is gone, however that shows, ends the connection quietly, and anything else
/// is a failure.
pub proof fn law_what_a_fault_means(fault: WsFault)
    ensures
        fault_class(fault) is WouldBlock <==> fault is NotReady,
        fault_class(fault) is Closed <==> fault is ProtocolClosed || fault is ResetWithoutClosing
            || fault is SocketClosed,
        fault matches WsFault::Other(error) ==> fault_class(fault) == WsErrorClass::Failed(error),
{
}

/// Only a text is served and only a close ends a connection; a binary frame is
/// refused, a ping and a pong are flushed, and a raw frame is passed over. What
/// a client sends shows that it is there, but for a close and a raw frame.
pub proof fn law_what_a_frame_does(frame: Frame)
    ensures
        frame_step(frame) is Serve <==> frame is Text,
        frame_step(frame) is RefuseBinary <==> frame is Binary,
        frame_step(frame) is End <==> frame is Close,
        frame_step(frame) is Skip <==> frame is Raw,
        frame_step(frame) is Flush <==> frame is Ping || frame is Pong,
        shows_life(frame) <==> frame is Text || frame is Binary || frame is Ping || frame is Pong,
{
}

/// A listener serves whom it accepts, waits where nobody is there, tries again
/// where it was interrupted, and stops where accepting fails or the server does.
pub proof fn law_what_a_listener_does(step: ListenerStep)
    ensures
        call_ensures(listener_step, (true, AcceptEvent::Accepted), step) ==> step is Serve,
        call_ensures(listener_step, (true, AcceptEvent::WouldBlock), step) ==> step is Wait,
        call_ensures(listener_step, (true, AcceptEvent::Interrupted), step) ==> step is Retry,
        call_ensures(listener_step, (true, AcceptEvent::Failed), step) ==> step is Stop,
        call_ensures(listener_step, (false, AcceptEvent::Accepted), step) ==> step is Stop,
        call_ensures(listener_step, (false, AcceptEvent::WouldBlock), step) ==> step is Stop,
{
}

/// An address in use is tried again every fifty milliseconds until its deadline;
/// any other failure is final.
pub proof fn law_when_a_bind_is_tried_again(
    addr: SocketAddress,
    error: String,
    now: u64,
    deadline: u64,
    step: BindStep,
)
    ensures
        call_ensures(bind_step, (&addr, BindOutcome::InUse(error), now, deadline), step) ==> if now
            < deadline {
            step == BindStep::Retry(50_000_000)
        } else {
            step is Fail
        },
        call_ensures(bind_step, (&addr, BindOutcome::Failed(error), now, deadline), step) ==> step
            is Fail,
        call_ensures(bind_step, (&addr, BindOutcome::Bound, now, deadline), step) ==> step is Bound,
{
}

/// The budgets of a connection: ten seconds for the handshake, five for each of
/// its socket calls and for writing a frame, and two for the port to be released.
pub proof fn law_the_budgets_of_a_connection()
    ensures
        HANDSHAKE_TIMEOUT_NANOS == 10_000_000_000,
        HANDSHAKE_IO_TIMEOUT_NANOS == 5_000_000_000,
        FRAME_WRITE_TIMEOUT_NANOS == 5_000_000_000,
        BIND_RETRY_TIMEOUT_NANOS == 2_000_000_000,
{
}

/// A handshake that needs another turn gets one until its deadline.
pub proof fn law_when_a_handshake_times_out(now: u64, deadline: u64, step: HandshakeStep)
    ensures
        call_ensures(handshake_step, (HandshakeProgress::Interrupted, now, deadline), step) ==> if now
            < deadline {
            step is Resume
        } else {
            step is TimeOut
        },
        call_ensures(handshake_step, (HandshakeProgress::Upgraded, now, deadline), step) ==> step
            is Serve,
        call_ensures(handshake_step, (HandshakeProgress::Failed, now, deadline), step) ==> step
            is Fail,
{
}

/// A frame that was sent or is still queued is no trouble, a peer that is gone
/// is told as gone, and anything else as the failure it is; a stream judges a
/// fault in the same way.
pub proof fn law_what_a_fault_comes_to(
    fault: WsFault,
    sent: Written,
    flushed: Written,
    state: Result<PeerState, String>,
)
    requires
        call_ensures(flush_outcome, (None::<WsFault>,), sent),
        call_ensures(flush_outcome, (Some(fault),), flushed),
        call_ensures(stream_fault, (fault,), state),
    ensures
        sent is Done,
        fault is NotReady ==> flushed is Done && state == Ok::<PeerState, String>(PeerState::Alive),
        fault is ProtocolClosed || fault is ResetWithoutClosing || fault is SocketClosed ==> flushed
            is Closed && state == Ok::<PeerState, String>(PeerState::Gone),
        fault matches WsFault::Other(error) ==> flushed == Written::Failed(error) && state == Err::<
            PeerState,
            String,
        >(error),
{
}

/// A budget is one for a whole operation: what is left of it is the time up to
/// its deadline, a millisecond at least, and nothing is left from there on.
pub proof fn law_what_is_left_of_a_budget(
    budget: u64,
    start: u64,
    now: u64,
    kind: BudgetKind,
    deadline: u64,
    timeout: Result<u64, &'static str>,
)
    requires
        start + budget + 1_000_000 <= u64::MAX,
        call_ensures(read_deadline, (budget, start), deadline),
        call_ensures(timeout_until, (deadline, now, kind), timeout),
    ensures
        budget >= 1_000_000 ==> deadline == start + budget,
        budget < 1_000_000 ==> deadline == start + 1_000_000,
        timeout is Err <==> now >= deadline,
        now < deadline && deadline - now >= 1_000_000 ==> timeout == Ok::<u64, &'static str>(
            (deadline - now) as u64,
        ),
        now < deadline && deadline - now < 1_000_000 ==> timeout == Ok::<u64, &'static str>(
            1_000_000,
        ),
{
}

/// A binary frame is answered, without an id, as an invalid request.
pub proof fn law_how_a_binary_frame_is_answered(response: Response)
    requires
        call_ensures(binary_frame_refusal, (), response),
    ensures
        response matches Response::Error(failed) && failed.id@.len() == 0 && failed.error.code@
            == "invalid_request"@,
{
}

/// A first text or binary frame ends the wait for a first request, and no other
/// frame does; every frame that shows life starts the time anew and takes back a
/// ping; a close and a raw frame leave everything as it is.
pub proof fn law_what_a_frame_leaves_behind(connection: WsConnection, frame: Frame, now: u64)
    ensures
        ({
            let between = after_frame(connection, frame, now);
            let during = after_stream_frame(connection, frame, now);
            &&& frame is Text || frame is Binary ==> between.first_request_deadline is None
            &&& frame is Ping || frame is Pong ==> between.first_request_deadline
                == connection.first_request_deadline
            &&& frame is Close || frame is Raw ==> between == connection && during == connection
            &&& frame is Text || frame is Binary || frame is Ping || frame is Pong
                ==> between.liveness.last_inbound == now && between.liveness.ping_sent_at is None
                && during.liveness.last_inbound == now && during.liveness.ping_sent_at is None
            &&& between.liveness.timing == connection.liveness.timing
            &&& during.liveness == between.liveness
            &&& during.first_request_deadline == connection.first_request_deadline
            &&& between.revocation_verdict_sent == connection.revocation_verdict_sent
            &&& during.revocation_verdict_sent == connection.revocation_verdict_sent
        }),
{
}

/// A stream goes on while its credential stands; once that is revoked the client
/// is told so, once, and is gone.
pub proof fn law_a_revoked_credential_ends_its_stream(connection: WsConnection)
    ensures
        pump_step(connection, false) is Read,
        told(connection, false) == connection,
        connection.revocation_verdict_sent ==> pump_step(connection, true) is Gone,
        !connection.revocation_verdict_sent ==> pump_step(connection, true) is VerdictThenGone,
        pump_step(told(connection, true), true) is Gone,
        told(connection, true).revocation_verdict_sent,
        told(connection, true).liveness == connection.liveness && told(
            connection,
            true,
        ).first_request_deadline == connection.first_request_deadline,
{
}

} // verus!
