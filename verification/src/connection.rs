//! The connection loops, one decision at a time: reading a request line and
//! streaming subscribed events.

use crate::line_reader::{LineReader, LineStep};
use crate::requests::Written;
use crate::schema::{Response, ResponseResult, SuccessResponse};
use crate::text::str_view;
use vstd::prelude::*;
use vstd::utf8::{encode_utf8, valid_utf8};

verus! {

pub const CONNECTION_POLL_INTERVAL_MILLIS: u64 = 100;

pub const APP_RESPONSE_TIMEOUT_MILLIS: u64 = 5_000;

pub const INITIAL_REQUEST_TIMEOUT_MILLIS: u64 = 5_000;

pub const STREAM_WRITE_TIMEOUT_MILLIS: u64 = 5_000;

pub const MAX_INITIAL_REQUEST_BYTES: usize = 1024 * 1024;

pub const SOCKET_PERMISSION_MODE: u32 = 0o600;

// ---- The first line ------------------------------------------------------------------------

/// What polling a connection for its request brought.
#[derive(Clone, Copy, Debug, PartialEq, Eq, Structural)]
pub enum PollEvent {
    Closed,
    Data(u8),
    /// Nothing yet; whether the deadline has passed.
    Pending(bool),
}

/// Why a request line is not taken.
#[derive(Clone, Copy, Debug, PartialEq, Eq, Structural)]
pub enum LineRefusal {
    TooLarge,
    NotUtf8,
    TimedOut,
}

impl LineRefusal {
    /// The refusal in words; a line that is not utf-8 is refused in the
    /// decoder's own.
    pub fn message(self) -> (text: Option<&'static str>)
        ensures
            str_view(text) == (match self {
                LineRefusal::TooLarge => Some("api request line is too large"@),
                LineRefusal::NotUtf8 => None,
                LineRefusal::TimedOut => Some("timed out reading api request"@),
            }),
    {
        match self {
            LineRefusal::TooLarge => Some("api request line is too large"),
            LineRefusal::NotUtf8 => None,
            LineRefusal::TimedOut => Some("timed out reading api request"),
        }
    }
}

/// What a connection does next while it reads its request line.
#[derive(Clone, Debug, PartialEq, Eq)]
pub enum PollStep {
    /// Poll again at once.
    Poll,
    /// Poll again after a while.
    Sleep,
    /// The peer went away before it asked for anything.
    Gone,
    /// The line is complete.
    Line(String),
    Refuse(LineRefusal),
}

/// What a poll makes of the bytes of a request line so far.
pub open spec fn reads_on(
    taken: Seq<u8>,
    limit: nat,
    event: PollEvent,
    after: Seq<u8>,
    step: PollStep,
) -> bool {
    match event {
        PollEvent::Closed => step is Gone && after == taken,
        PollEvent::Pending(past_deadline) => after == taken && step == (if past_deadline {
            PollStep::Refuse(LineRefusal::TimedOut)
        } else {
            PollStep::Sleep
        }),
        PollEvent::Data(byte) => if byte == 10 {
            if valid_utf8(taken.push(byte)) {
                step matches PollStep::Line(line) && encode_utf8(line@) == taken.push(byte)
            } else {
                step == PollStep::Refuse(LineRefusal::NotUtf8)
            }
        } else if taken.len() >= limit {
            step == PollStep::Refuse(LineRefusal::TooLarge)
        } else {
            step is Poll && after == taken.push(byte)
        },
    }
}

/// The next step of reading a request line. The deadline is looked at only
/// while nothing arrives.
pub fn read_initial_request_line(reader: &mut LineReader, event: PollEvent) -> (step: PollStep)
    ensures
        final(reader).limit() == old(reader).limit(),
        event is Data || *final(reader) == *old(reader),
        reads_on(
            old(reader).taken(),
            old(reader).limit(),
            event,
            final(reader).taken(),
            step,
        ),
{
    match event {
        PollEvent::Closed => PollStep::Gone,
        PollEvent::Pending(past_deadline) => if past_deadline {
            PollStep::Refuse(LineRefusal::TimedOut)
        } else {
            PollStep::Sleep
        },
        PollEvent::Data(byte) => match reader.absorb(byte) {
            LineStep::More => PollStep::Poll,
            LineStep::Line(line) => PollStep::Line(line),
            LineStep::NotUtf8 => PollStep::Refuse(LineRefusal::NotUtf8),
            LineStep::TooLong => PollStep::Refuse(LineRefusal::TooLarge),
        },
    }
}

// ---- Streams -------------------------------------------------------------------------------

/// Whether a connection's peer is still around.
#[derive(Clone, Copy, Debug, PartialEq, Eq, Structural)]
pub enum PeerState {
    Alive,
    Gone,
}

/// What a local socket's peer did while its stream was running. Its stream is
/// the connection, so a payload forfeits it.
#[derive(Clone, Copy, Debug, PartialEq, Eq, Structural)]
pub enum LocalPeer {
    Silent,
    SentPayload,
    Closed,
}

/// The state of a local socket's peer.
pub fn local_peer_state(peer: LocalPeer) -> (state: PeerState)
    ensures
        state == (if peer is Silent {
            PeerState::Alive
        } else {
            PeerState::Gone
        }),
{
    match peer {
        LocalPeer::Silent => PeerState::Alive,
        _ => PeerState::Gone,
    }
}

/// Where a subscription stream stands.
#[derive(Clone, Copy, Debug, PartialEq, Eq, Structural)]
pub enum StreamState {
    /// The subscription with this index is being opened.
    Opening(usize),
    /// A refusal is being written.
    Refusing,
    /// The start is being confirmed.
    Starting,
    /// The server and the peer are being looked at.
    Checking,
    /// The subscription with this index is being polled.
    Polling(usize),
    /// An event of the subscription with this index is being written.
    Writing(usize),
    /// The stream rests between two ticks.
    Resting,
    Ended,
}

/// What happened since the last action.
#[derive(Clone, Debug, PartialEq, Eq)]
pub enum StreamEvent {
    /// The subscription was opened, or refused with this answer.
    Opened(Option<Response>),
    /// The message was written, or was not.
    Wrote(Written),
    /// The server is no longer running.
    ServerStopped,
    /// The server runs, and this is the peer.
    Checked(PeerState),
    /// The server runs, and looking at the peer failed.
    CheckFailed(String),
    /// The subscription had an event, as its encoded text, or none.
    Polled(Option<String>),
    /// The rest is over.
    Rested,
}

/// What the connection does next.
#[derive(Clone, Debug, PartialEq, Eq)]
pub enum StreamAction {
    /// Open the subscription with this index.
    Open(usize),
    /// Write an answer.
    Answer(Response),
    /// Look whether the server runs, and then at the peer.
    Check,
    /// Poll the subscription with this index.
    Poll(usize),
    /// Write an encoded event.
    Write(String),
    Sleep,
    /// The stream is over; where it failed, why.
    End(Option<String>),
}

/// A subscription stream.
#[derive(Clone, Debug)]
pub struct SubscriptionStream {
    pub request_id: String,
    /// How many subscriptions were asked for.
    pub count: usize,
    pub state: StreamState,
}

/// What a stream opens next once `index` of its subscriptions are open.
pub open spec fn opens_next(
    stream: SubscriptionStream,
    index: int,
    next: SubscriptionStream,
    action: StreamAction,
) -> bool {
    if index < stream.count {
        action == StreamAction::Open(index as usize) && next.state == StreamState::Opening(
            index as usize,
        )
    } else {
        &&& action matches StreamAction::Answer(response)
        &&& response matches Response::Success(answer)
        &&& answer.id@ == stream.request_id@
        &&& answer.result is SubscriptionStarted
        &&& next.state is Starting
    }
}

/// What a stream polls next once `index` of its subscriptions were polled.
pub open spec fn polls_next(
    stream: SubscriptionStream,
    index: int,
    next: SubscriptionStream,
    action: StreamAction,
) -> bool {
    if index < stream.count {
        action == StreamAction::Poll(index as usize) && next.state == StreamState::Polling(
            index as usize,
        )
    } else {
        action is Sleep && next.state is Resting
    }
}

/// Whether a stream is over with this end.
pub open spec fn ends(next: SubscriptionStream, action: StreamAction, failure: Option<String>)
    -> bool {
    next.state is Ended && action == StreamAction::End(failure)
}

/// What a stream does about a message: goes on where it was written, ends
/// quietly where the peer is gone, and fails otherwise.
pub open spec fn after_write(
    next: SubscriptionStream,
    action: StreamAction,
    written: Written,
    goes_on: bool,
) -> bool {
    match written {
        Written::Done => goes_on,
        Written::Closed => ends(next, action, None),
        Written::Failed(error) => ends(next, action, Some(error)),
    }
}

/// One step of a stream. Every subscription is opened in turn, and the first
/// that is refused ends the stream with its refusal; then the start is
/// confirmed; then, tick by tick, server and peer are looked at, every
/// subscription is polled in turn, and each event is written before the next
/// subscription is polled.
pub open spec fn streams(
    stream: SubscriptionStream,
    event: StreamEvent,
    next: SubscriptionStream,
    action: StreamAction,
) -> bool {
    match (stream.state, event) {
        (StreamState::Opening(_), StreamEvent::Opened(Some(refusal))) => action
            == StreamAction::Answer(refusal) && next.state is Refusing,
        (StreamState::Opening(index), StreamEvent::Opened(None)) => opens_next(
            stream,
            index + 1,
            next,
            action,
        ),
        (StreamState::Refusing, StreamEvent::Wrote(written)) => after_write(
            next,
            action,
            written,
            ends(next, action, None),
        ),
        (StreamState::Starting, StreamEvent::Wrote(written)) => after_write(
            next,
            action,
            written,
            action is Check && next.state is Checking,
        ),
        (StreamState::Checking, StreamEvent::ServerStopped) => ends(next, action, None),
        (StreamState::Checking, StreamEvent::CheckFailed(error)) => ends(
            next,
            action,
            Some(error),
        ),
        (StreamState::Checking, StreamEvent::Checked(PeerState::Gone)) => ends(next, action, None),
        (StreamState::Checking, StreamEvent::Checked(PeerState::Alive)) => polls_next(
            stream,
            0,
            next,
            action,
        ),
        (StreamState::Polling(index), StreamEvent::Polled(Some(text))) => action
            == StreamAction::Write(text) && next.state == StreamState::Writing(index),
        (StreamState::Polling(index), StreamEvent::Polled(None)) => polls_next(
            stream,
            index + 1,
            next,
            action,
        ),
        (StreamState::Writing(index), StreamEvent::Wrote(written)) => after_write(
            next,
            action,
            written,
            polls_next(stream, index + 1, next, action),
        ),
        (StreamState::Resting, StreamEvent::Rested) => action is Check && next.state is Checking,
        // An event that the last action cannot bring ends the stream.
        _ => ends(next, action, None),
    }
}

impl SubscriptionStream {
    /// The index that the stream stands at is one of its subscriptions.
    pub open spec fn wf(&self) -> bool {
        match self.state {
            StreamState::Opening(index) => index < self.count,
            StreamState::Polling(index) => index < self.count,
            StreamState::Writing(index) => index < self.count,
            _ => true,
        }
    }

    /// Begin a stream.
    pub fn begin(request_id: String, count: usize) -> (begun: (SubscriptionStream, StreamAction))
        ensures
            begun.0.wf(),
            begun.0.request_id == request_id,
            begun.0.count == count,
            opens_next(begun.0, 0, begun.0, begun.1),
    {
        let mut stream = SubscriptionStream { request_id, count, state: StreamState::Ended };
        let action = stream.open(0);
        (stream, action)
    }

    fn open(&mut self, index: usize) -> (action: StreamAction)
        requires
            index <= old(self).count,
        ensures
            final(self).wf(),
            final(self).request_id == old(self).request_id,
            final(self).count == old(self).count,
            opens_next(*old(self), index as int, *final(self), action),
    {
        if index < self.count {
            self.state = StreamState::Opening(index);
            StreamAction::Open(index)
        } else {
            self.state = StreamState::Starting;
            StreamAction::Answer(
                Response::Success(
                    SuccessResponse {
                        id: self.request_id.as_str().to_owned(),
                        result: ResponseResult::SubscriptionStarted,
                    },
                ),
            )
        }
    }

    fn poll(&mut self, index: usize) -> (action: StreamAction)
        requires
            index <= old(self).count,
        ensures
            final(self).wf(),
            final(self).request_id == old(self).request_id,
            final(self).count == old(self).count,
            polls_next(*old(self), index as int, *final(self), action),
    {
        if index < self.count {
            self.state = StreamState::Polling(index);
            StreamAction::Poll(index)
        } else {
            self.state = StreamState::Resting;
            StreamAction::Sleep
        }
    }

    fn end(&mut self, failure: Option<String>) -> (action: StreamAction)
        ensures
            final(self).wf(),
            final(self).request_id == old(self).request_id,
            final(self).count == old(self).count,
            ends(*final(self), action, failure),
    {
        self.state = StreamState::Ended;
        StreamAction::End(failure)
    }

    fn check(&mut self) -> (action: StreamAction)
        ensures
            final(self).wf(),
            final(self).request_id == old(self).request_id,
            final(self).count == old(self).count,
            action is Check && final(self).state is Checking,
    {
        self.state = StreamState::Checking;
        StreamAction::Check
    }

    /// Take the next step.
    pub fn step(&mut self, event: StreamEvent) -> (action: StreamAction)
        requires
            old(self).wf(),
        ensures
            final(self).wf(),
            final(self).request_id == old(self).request_id,
            final(self).count == old(self).count,
            streams(*old(self), event, *final(self), action),
    {
        match (self.state, event) {
            (StreamState::Opening(_), StreamEvent::Opened(Some(refusal))) => {
                self.state = StreamState::Refusing;
                StreamAction::Answer(refusal)
            },
            (StreamState::Opening(index), StreamEvent::Opened(None)) => self.open(index + 1),
            (StreamState::Refusing, StreamEvent::Wrote(written)) => match written {
                Written::Failed(error) => self.end(Some(error)),
                _ => self.end(None),
            },
            (StreamState::Starting, StreamEvent::Wrote(written)) => match written {
                Written::Done => self.check(),
                Written::Closed => self.end(None),
                Written::Failed(error) => self.end(Some(error)),
            },
            (StreamState::Checking, StreamEvent::ServerStopped) => self.end(None),
            (StreamState::Checking, StreamEvent::CheckFailed(error)) => self.end(Some(error)),
            (StreamState::Checking, StreamEvent::Checked(PeerState::Gone)) => self.end(None),
            (StreamState::Checking, StreamEvent::Checked(PeerState::Alive)) => self.poll(0),
            (StreamState::Polling(index), StreamEvent::Polled(Some(text))) => {
                self.state = StreamState::Writing(index);
                StreamAction::Write(text)
            },
            (StreamState::Polling(index), StreamEvent::Polled(None)) => self.poll(index + 1),
            (StreamState::Writing(index), StreamEvent::Wrote(written)) => match written {
                Written::Done => self.poll(index + 1),
                Written::Closed => self.end(None),
                Written::Failed(error) => self.end(Some(error)),
            },
            (StreamState::Resting, StreamEvent::Rested) => self.check(),
            _ => self.end(None),
        }
    }
}

/// A stream fails only where a write or the look at the peer failed: a peer
/// that went away, a refused subscription and a stopping server end it
/// quietly.
pub proof fn law_a_stream_fails_only_on_a_failure(
    stream: SubscriptionStream,
    event: StreamEvent,
    next: SubscriptionStream,
    error: String,
)
    requires
        streams(stream, event, next, StreamAction::End(Some(error))),
    ensures
        event == StreamEvent::Wrote(Written::Failed(error)) || event == StreamEvent::CheckFailed(error),
{
}

/// An event is written only by a stream that was polling, and no subscription
/// is polled before server and peer were found in place or another one was
/// done with.
pub proof fn law_events_follow_a_poll(
    stream: SubscriptionStream,
    event: StreamEvent,
    next: SubscriptionStream,
    action: StreamAction,
)
    requires
        stream.wf(),
        streams(stream, event, next, action),
    ensures
        action matches StreamAction::Write(text) ==> stream.state is Polling && event
            == StreamEvent::Polled(Some(text)),
        action matches StreamAction::Poll(index) ==> (index == 0 && stream.state is Checking
            && event == StreamEvent::Checked(PeerState::Alive)) || (index
            > 0 && (stream.state == StreamState::Polling((index - 1) as usize) || stream.state
            == StreamState::Writing((index - 1) as usize))),
{
}

/// How long a connection waits, how much its first line may hold, and that only
/// its owner may use the socket.
pub proof fn law_the_bounds_of_a_connection()
    ensures
        CONNECTION_POLL_INTERVAL_MILLIS * 10 == 1_000,
        APP_RESPONSE_TIMEOUT_MILLIS == 5 * 1_000,
        INITIAL_REQUEST_TIMEOUT_MILLIS == 5 * 1_000,
        STREAM_WRITE_TIMEOUT_MILLIS == 5 * 1_000,
        MAX_INITIAL_REQUEST_BYTES == 1_048_576,
        SOCKET_PERMISSION_MODE == 6 * 64,
{
}

/// A local peer that says anything during its stream forfeits it, as one that
/// goes away does.
pub proof fn law_when_a_local_peer_is_gone(peer: LocalPeer, state: PeerState)
    requires
        call_ensures(local_peer_state, (peer,), state),
    ensures
        peer is Silent <==> state is Alive,
        peer is SentPayload || peer is Closed ==> state is Gone,
{
}

/// Subscriptions are opened one after another, none is passed over, and the
/// start is confirmed, under the request's id, once all of them are open. The
/// first refusal is answered, and its writing ends the stream.
pub proof fn law_every_subscription_is_opened(
    stream: SubscriptionStream,
    index: usize,
    refusal: Response,
    opened: (SubscriptionStream, StreamAction),
    refused: (SubscriptionStream, StreamAction),
)
    requires
        stream.wf(),
        stream.state == StreamState::Opening(index),
        streams(stream, StreamEvent::Opened(None), opened.0, opened.1),
        streams(stream, StreamEvent::Opened(Some(refusal)), refused.0, refused.1),
    ensures
        index + 1 < stream.count ==> opened.1 == StreamAction::Open((index + 1) as usize)
            && opened.0.state == StreamState::Opening((index + 1) as usize),
        index + 1 == stream.count ==> opened.0.state is Starting && (opened.1
            matches StreamAction::Answer(Response::Success(answer)) && answer.id@
            == stream.request_id@ && answer.result is SubscriptionStarted),
        refused.1 == StreamAction::Answer(refusal),
        refused.0.state is Refusing,
{
}

/// A tick looks at the server and the peer, then polls every subscription from
/// the first to the last, and then rests; after the rest comes the next look.
pub proof fn law_a_tick_polls_every_subscription(
    stream: SubscriptionStream,
    index: usize,
    event: StreamEvent,
    next: (SubscriptionStream, StreamAction),
)
    requires
        stream.wf(),
        streams(stream, event, next.0, next.1),
    ensures
        stream.state is Checking && event == StreamEvent::Checked(PeerState::Alive) && stream.count
            > 0 ==> next.1 == StreamAction::Poll(0),
        stream.state == StreamState::Polling(index) && event == StreamEvent::Polled(None) && index
            + 1 < stream.count ==> next.1 == StreamAction::Poll((index + 1) as usize),
        stream.state == StreamState::Writing(index) && event == StreamEvent::Wrote(Written::Done)
            && index + 1 < stream.count ==> next.1 == StreamAction::Poll((index + 1) as usize),
        stream.state == StreamState::Polling(index) && event == StreamEvent::Polled(None) && index
            + 1 == stream.count ==> next.1 is Sleep && next.0.state is Resting,
        stream.state == StreamState::Writing(index) && event == StreamEvent::Wrote(Written::Done)
            && index + 1 == stream.count ==> next.1 is Sleep && next.0.state is Resting,
        stream.state is Checking && event == StreamEvent::Checked(PeerState::Alive) && stream.count
            == 0 ==> next.1 is Sleep && next.0.state is Resting,
        stream.state is Resting && event is Rested ==> next.1 is Check && next.0.state is Checking,
        stream.state is Starting && event == StreamEvent::Wrote(Written::Done) ==> next.1 is Check
            && next.0.state is Checking,
        stream.state == StreamState::Polling(index) ==> (event matches StreamEvent::Polled(Some(text))
            ==> next.1 == StreamAction::Write(text) && next.0.state == StreamState::Writing(index)),
{
}

/// A stopped server, a peer that is gone, a closed connection and a written
/// refusal end a stream without a failure; a write or a look that failed ends
/// it with that failure.
pub proof fn law_what_ends_a_stream(
    stream: SubscriptionStream,
    event: StreamEvent,
    error: String,
    next: (SubscriptionStream, StreamAction),
)
    requires
        stream.wf(),
        streams(stream, event, next.0, next.1),
    ensures
        stream.state is Checking && (event is ServerStopped || event == StreamEvent::Checked(
            PeerState::Gone,
        )) ==> next.1 == StreamAction::End(None) && next.0.state is Ended,
        stream.state is Checking && event == StreamEvent::CheckFailed(error) ==> next.1
            == StreamAction::End(Some(error)),
        (stream.state is Starting || stream.state is Refusing || stream.state is Writing) && event
            == StreamEvent::Wrote(Written::Closed) ==> next.1 == StreamAction::End(None),
        (stream.state is Starting || stream.state is Refusing || stream.state is Writing) && event
            == StreamEvent::Wrote(Written::Failed(error)) ==> next.1 == StreamAction::End(
            Some(error),
        ),
        stream.state is Refusing && event == StreamEvent::Wrote(Written::Done) ==> next.1
            == StreamAction::End(None),
{
}

/// A request line is refused for its time only while nothing arrives, for its
/// size only by a byte beyond the limit, and for its bytes only once it is
/// whole; a peer that goes away first is no refusal.
pub proof fn law_why_a_request_line_is_refused(
    taken: Seq<u8>,
    limit: nat,
    event: PollEvent,
    after: Seq<u8>,
    step: PollStep,
)
    requires
        reads_on(taken, limit, event, after, step),
    ensures
        step == PollStep::Refuse(LineRefusal::TimedOut) <==> event == PollEvent::Pending(true),
        step is Sleep <==> event == PollEvent::Pending(false),
        step is Gone <==> event is Closed,
        step == PollStep::Refuse(LineRefusal::TooLarge) <==> (event matches PollEvent::Data(byte)
            && byte != 10 && taken.len() >= limit),
        step is Poll <==> (event matches PollEvent::Data(byte) && byte != 10 && taken.len()
            < limit),
        step is Poll ==> after.len() == taken.len() + 1 && after.take(taken.len() as int) == taken,
        step == PollStep::Refuse(LineRefusal::NotUtf8) <==> event == PollEvent::Data(10)
            && !valid_utf8(taken.push(10)),
        step is Line <==> event == PollEvent::Data(10) && valid_utf8(taken.push(10)),
        step matches PollStep::Line(line) ==> encode_utf8(line@) == taken.push(10),
        !(event is Data) ==> after == taken,
{
    if step is Poll {
        assert(after.take(taken.len() as int) =~= taken);
    }
}

} // verus!
