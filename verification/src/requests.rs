//! How one API request is answered.
//!
//! Every transport comes through here, so a request gets the same answer
//! whichever way it arrived. What needs no I/O is answered in place; the rest
//! is named as a step for the connection to take.

use crate::credential_context::{
    after_check, connection_is_revoked, list_outcome, mint_outcome, revoke_all_outcome,
    revoke_outcome, CredentialContext,
};
use crate::credentials::{
    fresh_credential, is_gathered, FreshCredential, Moment, SharedCredentialRegistry, CODE_REVOKED,
    REVOKED_MESSAGE,
};
use crate::endpoint::SharedAdvertisedEndpoint;
use crate::schema::{
    api_method_name, error_response, is_error, method_name, success, Method, Request, Response,
    ResponseResult, ServerCapabilities,
};
use crate::server_name::SharedServerName;
use crate::server_reach::SharedServerReach;
use crate::text::{
    borrowed, decimal, decimal_text, is_blank, is_white_space, law_what_is_around_is_trimmed,
    spells, to_chars, to_text, trim, trimmed, view_of,
};
use vstd::prelude::*;

verus! {

pub const NEEDS_LOCAL_SOCKET: &'static str = "pane.graphics.stream requires a dedicated local socket connection";

pub const SHUTTING_DOWN: &'static str = "server is shutting down";

// ---- Reading a request ---------------------------------------------------------------------

/// The text of a request, without the white space around it; absent where
/// there is no text at all, which is skipped without an answer.
pub fn request_text(message: &str) -> (text: Option<String>)
    ensures
        match text {
            Some(text) => text@ == trimmed(message@) && text@.len() > 0,
            None => trimmed(message@).len() == 0,
        },
{
    let chars = to_chars(message);
    let inner = trim(&chars);
    if inner.len() == 0 {
        None
    } else {
        Some(to_text(inner))
    }
}

/// The request, or the answer that says why the text is none. The answer
/// carries no id: what could not be read has none.
pub fn read_request(decoded: Result<Request, String>) -> (request: Result<Request, Response>)
    ensures
        match decoded {
            Ok(decoded) => request == Ok::<Request, Response>(decoded),
            Err(error) => request matches Err(response) && is_error(
                response,
                Seq::empty(),
                "invalid_request"@,
                "invalid request: "@ + error@,
            ),
        },
{
    match decoded {
        Ok(request) => Ok(request),
        Err(error) => {
            let mut message = "invalid request: ".to_string();
            message.push_str(&error);
            proof {
                reveal_strlit("");
                assert(""@ =~= Seq::<char>::empty());
            }
            Err(error_response("", "invalid_request", message))
        },
    }
}

// ---- Routing -------------------------------------------------------------------------------

/// Methods that take the connection over until the client goes away.
pub open spec fn starts_a_stream(method: Method) -> bool {
    method is EventsSubscribe || method is EventsWait || method is AgentPrompt
        || method is AgentWait || method is PaneWaitForOutput || method is PaneGraphicsStream
}

pub fn method_starts_a_stream(method: &Method) -> (yes: bool)
    ensures
        yes == starts_a_stream(*method),
{
    matches!(
        method,
        Method::EventsSubscribe
            | Method::EventsWait
            | Method::AgentPrompt
            | Method::AgentWait
            | Method::PaneWaitForOutput
            | Method::PaneGraphicsStream
    )
}

/// What a connection does with a request.
#[derive(Clone, Debug, PartialEq, Eq)]
pub enum Routed {
    /// Write this answer.
    Reply(Response),
    /// Stream the subscribed events.
    Subscribe(Request),
    /// Wait, and answer when the wait ends.
    Wait(Request),
    /// Answer at once.
    Simple(Request),
}

/// The answer to a graphics stream on a transport that cannot hand its raw
/// stream over.
pub fn graphics_stream_unsupported_response(request_id: &str) -> (response: Response)
    ensures
        is_error(response, request_id@, "unsupported_transport"@, NEEDS_LOCAL_SOCKET@),
{
    error_response(request_id, "unsupported_transport", NEEDS_LOCAL_SOCKET.to_string())
}

/// Where a request goes on a connection that serves nothing else, given
/// whether its credential was revoked.
pub open spec fn routes(request: Request, revoked: bool, routed: Routed) -> bool {
    if revoked {
        routed matches Routed::Reply(response) && is_error(
            response,
            request.id@,
            CODE_REVOKED@,
            REVOKED_MESSAGE@,
        )
    } else if request.method is PaneGraphicsStream {
        routed matches Routed::Reply(response) && is_error(
            response,
            request.id@,
            "unsupported_transport"@,
            NEEDS_LOCAL_SOCKET@,
        )
    } else if request.method is EventsSubscribe {
        routed == Routed::Subscribe(request)
    } else if starts_a_stream(request.method) {
        routed == Routed::Wait(request)
    } else {
        routed == Routed::Simple(request)
    }
}

/// Where a request goes on a connection that serves nothing else. A
/// credential that was revoked while the connection was open loses its access
/// here, on its very next request.
pub fn handle_parsed_request(
    request: Request,
    context: &CredentialContext,
    registry: &mut SharedCredentialRegistry,
    moment: &Moment,
) -> (routed: Routed)
    ensures
        final(registry)@ == after_check(context@, old(registry)@, moment.now, moment.fresh_id@),
        routes(
            request,
            connection_is_revoked(context@, old(registry)@, moment.now, moment.fresh_id@),
            routed,
        ),
{
    if let Some(refusal) = context.revocation_refusal(registry, &request.id, moment) {
        return Routed::Reply(refusal);
    }
    match &request.method {
        Method::PaneGraphicsStream => Routed::Reply(
            graphics_stream_unsupported_response(&request.id),
        ),
        Method::EventsSubscribe => Routed::Subscribe(request),
        Method::EventsWait => Routed::Wait(request),
        Method::AgentPrompt => Routed::Wait(request),
        Method::AgentWait => Routed::Wait(request),
        Method::PaneWaitForOutput => Routed::Wait(request),
        _ => Routed::Simple(request),
    }
}

/// Whether a request on a local socket takes the raw connection over, which
/// no other transport can hand out.
pub fn takes_over_local_socket(request: &Request) -> (yes: bool)
    ensures
        yes == (request.method is PaneGraphicsStream),
{
    matches!(&request.method, Method::PaneGraphicsStream)
}

pub open spec fn stream_busy_text(method: Method) -> Seq<char> {
    method_name(method)
        + " needs its own connection; this connection is already serving a stream"@
}

/// Where a request goes on a connection that is already streaming, given
/// whether its credential was revoked.
pub open spec fn routes_interleaved(request: Request, revoked: bool, routed: Routed) -> bool {
    if revoked {
        routed matches Routed::Reply(response) && is_error(
            response,
            request.id@,
            CODE_REVOKED@,
            REVOKED_MESSAGE@,
        )
    } else if request.method is PaneGraphicsStream {
        routed matches Routed::Reply(response) && is_error(
            response,
            request.id@,
            "unsupported_transport"@,
            NEEDS_LOCAL_SOCKET@,
        )
    } else if starts_a_stream(request.method) {
        routed matches Routed::Reply(response) && is_error(
            response,
            request.id@,
            "stream_busy"@,
            stream_busy_text(request.method),
        )
    } else {
        routed == Routed::Simple(request)
    }
}

/// Where a request goes that arrived while its connection was already
/// streaming. A request that would start a second stream is refused out loud,
/// neither queued nor dropped.
pub fn serve_interleaved_request(
    request: Request,
    context: &CredentialContext,
    registry: &mut SharedCredentialRegistry,
    moment: &Moment,
) -> (routed: Routed)
    ensures
        final(registry)@ == after_check(context@, old(registry)@, moment.now, moment.fresh_id@),
        routes_interleaved(
            request,
            connection_is_revoked(context@, old(registry)@, moment.now, moment.fresh_id@),
            routed,
        ),
{
    if let Some(refusal) = context.revocation_refusal(registry, &request.id, moment) {
        return Routed::Reply(refusal);
    }
    if matches!(&request.method, Method::PaneGraphicsStream) {
        return Routed::Reply(graphics_stream_unsupported_response(&request.id));
    }
    if method_starts_a_stream(&request.method) {
        let mut message = api_method_name(&request.method).to_string();
        message.push_str(
            " needs its own connection; this connection is already serving a stream",
        );
        return Routed::Reply(error_response(&request.id, "stream_busy", message));
    }
    Routed::Simple(request)
}

/// A request gets the same answer between requests and during a stream,
/// unless it would start a second stream. A graphics stream, which no such
/// connection serves, is refused alike.
pub proof fn law_a_stream_changes_no_other_answer(request: Request, revoked: bool, routed: Routed)
    requires
        !starts_a_stream(request.method) || request.method is PaneGraphicsStream || revoked,
    ensures
        routes(request, revoked, routed) <==> routes_interleaved(request, revoked, routed),
{
}

/// A connection whose credential was revoked gets nothing served.
pub proof fn law_a_revoked_connection_is_served_nothing(request: Request, routed: Routed)
    requires
        routes(request, true, routed) || routes_interleaved(request, true, routed),
    ensures
        routed matches Routed::Reply(response) && is_error(
            response,
            request.id@,
            CODE_REVOKED@,
            REVOKED_MESSAGE@,
        ),
{
}

// ---- Answering -----------------------------------------------------------------------------

/// What this server says of itself. Read per request, so that a reload shows
/// on every transport at once.
pub struct ServerFacts<'a> {
    pub version: &'a str,
    pub protocol: u32,
    pub capabilities: Option<ServerCapabilities>,
    pub name: &'a SharedServerName,
    pub reach: &'a SharedServerReach,
    pub advertised_endpoint: &'a SharedAdvertisedEndpoint,
    pub session: Option<String>,
    pub exe: Option<String>,
}

/// Whether a response is the pong of a server.
pub open spec fn is_pong(response: Response, id: String, facts: ServerFacts<'_>) -> bool {
    &&& response matches Response::Success(answer)
    &&& answer.id == id
    &&& answer.result matches ResponseResult::Pong {
        version,
        protocol,
        capabilities,
        name,
        reach,
        advertised_endpoint,
        session,
        exe,
    }
    &&& version@ == facts.version@
    &&& protocol == facts.protocol
    &&& capabilities == facts.capabilities
    &&& view_of(name) == Some(facts.name@)
    &&& view_of(reach) == facts.reach@
    &&& view_of(advertised_endpoint) == facts.advertised_endpoint@
    &&& session == facts.session
    &&& exe == facts.exe
}

/// The pong of a server.
pub fn pong(id: String, facts: ServerFacts<'_>) -> (response: Response)
    ensures
        is_pong(response, id, facts),
{
    success(
        id,
        ResponseResult::Pong {
            version: facts.version.to_string(),
            protocol: facts.protocol,
            capabilities: facts.capabilities,
            name: Some(facts.name.current()),
            reach: facts.reach.current(),
            advertised_endpoint: facts.advertised_endpoint.current(),
            session: facts.session,
            exe: facts.exe,
        },
    )
}

/// What answering a request comes to.
#[derive(Clone, Debug, PartialEq, Eq)]
pub enum RequestStep {
    /// Write this answer.
    Reply(Response),
    /// Store an attachment, or part of one.
    Attach(Request),
    /// Look a place up.
    LookUp(Request),
    /// Hand the request to the app.
    Dispatch(Request),
}

/// The methods that an attachment is stored with.
pub open spec fn stores_attachments(method: Method) -> bool {
    method is AttachmentCreate || method is AttachmentBegin || method is AttachmentAppend
        || method is AttachmentCommit
}

/// The methods that the credential registry answers.
pub open spec fn manages_credentials(method: Method) -> bool {
    method is CredentialMint || method is CredentialList || method is CredentialRevoke
        || method is CredentialRevokeAll
}

/// What a credential method does to the registry and answers. A mint does so
/// with a credential that was gathered for it.
pub open spec fn credentials_answer(
    context: CredentialContext,
    before: SharedCredentialRegistry,
    after: SharedCredentialRegistry,
    request: Request,
    moment: Moment,
    response: Response,
) -> bool {
    match request.method {
        Method::CredentialMint(params) => exists|fresh: Result<FreshCredential, String>|
            is_gathered(fresh) && #[trigger] mint_outcome(
                context@,
                before@,
                after@,
                request.id,
                params,
                fresh,
                moment.now,
                moment.fresh_id@,
                response,
            ),
        Method::CredentialList(params) => list_outcome(
            context@,
            before@,
            after@,
            request.id,
            view_of(params.acting_token),
            moment.now,
            moment.fresh_id@,
            response,
        ),
        Method::CredentialRevoke(params) => revoke_outcome(
            context@,
            before@,
            after@,
            request.id,
            params,
            moment.now,
            moment.fresh_id@,
            response,
        ),
        Method::CredentialRevokeAll(params) => revoke_all_outcome(
            context@,
            before@,
            after@,
            request.id,
            view_of(params.acting_token),
            moment.now,
            moment.fresh_id@,
            response,
        ),
        _ => false,
    }
}

/// The stop flag after a request: a server that can be stopped over the API is,
/// by a stop.
pub open spec fn stop_after(method: Method, server_stop: Option<bool>) -> Option<bool> {
    if method is ServerStop && server_stop is Some {
        Some(true)
    } else {
        server_stop
    }
}

/// What answering a request comes to, given the stop flag before it and the
/// registry before and after it.
pub open spec fn serves(
    request: Request,
    facts: ServerFacts<'_>,
    server_stop: Option<bool>,
    context: CredentialContext,
    before: SharedCredentialRegistry,
    after: SharedCredentialRegistry,
    moment: Moment,
    step: RequestStep,
) -> bool {
    if request.method is Ping {
        step matches RequestStep::Reply(response) && is_pong(response, request.id, facts)
    } else if request.method is ServerStop && server_stop is Some {
        step matches RequestStep::Reply(response) && response matches Response::Success(answer)
            && answer.id == request.id && answer.result is Done
    } else if server_stop == Some(true) {
        step matches RequestStep::Reply(response) && is_error(
            response,
            request.id@,
            "server_unavailable"@,
            SHUTTING_DOWN@,
        )
    } else if stores_attachments(request.method) {
        step == RequestStep::Attach(request)
    } else if request.method is ServerLookupPlace {
        step == RequestStep::LookUp(request)
    } else if manages_credentials(request.method) {
        step matches RequestStep::Reply(response) && credentials_answer(
            context,
            before,
            after,
            request,
            moment,
            response,
        )
    } else {
        step == RequestStep::Dispatch(request)
    }
}

/// Answer a request that starts no stream. A server that can be stopped over
/// the API has its stop flag handed in; once it is raised, nothing but a ping
/// and another stop is answered.
pub fn handle_request(
    request: Request,
    facts: ServerFacts<'_>,
    server_stop: &mut Option<bool>,
    context: &CredentialContext,
    registry: &mut SharedCredentialRegistry,
    nanos: u64,
    moment: &Moment,
) -> (step: RequestStep)
    ensures
        *final(server_stop) == stop_after(request.method, *old(server_stop)),
        !manages_credentials(request.method) || *old(server_stop) == Some(true)
            ==> final(registry)@ == old(registry)@,
        serves(
            request,
            facts,
            *old(server_stop),
            *context,
            *old(registry),
            *final(registry),
            *moment,
            step,
        ),
{
    if matches!(&request.method, Method::Ping(_)) {
        return RequestStep::Reply(pong(request.id, facts));
    }
    if matches!(&request.method, Method::ServerStop) {
        if server_stop.is_some() {
            *server_stop = Some(true);
            return RequestStep::Reply(success(request.id, ResponseResult::Done));
        }
    } else if let Some(true) = *server_stop {
        return RequestStep::Reply(
            error_response(&request.id, "server_unavailable", SHUTTING_DOWN.to_string()),
        );
    }
    let ghost asked = request;
    match &request.method {
        Method::AttachmentCreate(_) => RequestStep::Attach(request),
        Method::AttachmentBegin(_) => RequestStep::Attach(request),
        Method::AttachmentAppend(_) => RequestStep::Attach(request),
        Method::AttachmentCommit(_) => RequestStep::Attach(request),
        Method::ServerLookupPlace(_) => RequestStep::LookUp(request),
        Method::CredentialMint(params) => {
            let fresh = fresh_credential(nanos);
            RequestStep::Reply(context.serve_mint(registry, request.id, params, fresh, moment))
        },
        Method::CredentialList(params) => RequestStep::Reply(
            context.serve_list(registry, request.id, borrowed(&params.acting_token), moment),
        ),
        Method::CredentialRevoke(params) => RequestStep::Reply(
            context.serve_revoke(registry, request.id, params, moment),
        ),
        Method::CredentialRevokeAll(params) => RequestStep::Reply(
            context.serve_revoke_all(registry, request.id, borrowed(&params.acting_token), moment),
        ),
        _ => RequestStep::Dispatch(request),
    }
}

/// A request that is handed to the app.
#[derive(Clone, Debug, PartialEq, Eq)]
pub struct ApiRequestMessage {
    pub request: Request,
    /// Whether the app is told when the answer has been written.
    pub reports_write: bool,
    /// Whether the request belongs to a running stream, whose end the app is
    /// told of.
    pub stream_active: bool,
}

/// What came of handing a request to the app.
#[derive(Clone, Debug, PartialEq, Eq)]
pub enum DispatchEvent {
    /// The app is gone: it took no request.
    NotSent(String),
    /// The app answered.
    Answered(String),
    /// The app did not answer within these milliseconds.
    TimedOut(u64),
    /// The app dropped the request while there was a time limit.
    Closed,
    /// The app dropped the request while there was none.
    Dropped(String),
}

/// How a dispatch ends.
#[derive(Clone, Debug, PartialEq, Eq)]
pub enum DispatchReply {
    /// Write the app's answer as it is.
    Passed(String),
    /// Write this answer instead.
    Failed(Response),
}

/// What a failed dispatch says; absent where the app answered.
pub open spec fn dispatch_failure(event: DispatchEvent) -> Option<Seq<char>> {
    match event {
        DispatchEvent::NotSent(error) => Some("failed to dispatch request: "@ + error@),
        DispatchEvent::Answered(_) => None,
        DispatchEvent::TimedOut(millis) => Some(
            "request handling failed: "@ + "timed out waiting for app response after "@
                + decimal_text(millis as nat) + " ms"@,
        ),
        DispatchEvent::Closed => Some(
            "request handling failed: "@ + "app response channel closed"@,
        ),
        DispatchEvent::Dropped(error) => Some("request handling failed: "@ + error@),
    }
}

/// How a dispatch ends, and whether its stream is over with it: a stream
/// whose request failed is.
pub fn dispatch_to_app(request_id: &str, stream_active: bool, event: DispatchEvent) -> (outcome: (
    DispatchReply,
    bool,
))
    ensures
        outcome.1 == (stream_active && !(event is Answered)),
        match dispatch_failure(event) {
            None => outcome.0 == DispatchReply::Passed(event->Answered_0),
            Some(message) => outcome.0 matches DispatchReply::Failed(response) && is_error(
                response,
                request_id@,
                "server_unavailable"@,
                message,
            ),
        },
{
    let message = match event {
        DispatchEvent::Answered(answer) => {
            return (DispatchReply::Passed(answer), false);
        },
        DispatchEvent::NotSent(error) => {
            let mut message = "failed to dispatch request: ".to_string();
            message.push_str(&error);
            message
        },
        DispatchEvent::TimedOut(millis) => {
            let mut message = "request handling failed: ".to_string();
            message.push_str("timed out waiting for app response after ");
            message.push_str(&decimal(millis));
            message.push_str(" ms");
            message
        },
        DispatchEvent::Closed => {
            let mut message = "request handling failed: ".to_string();
            message.push_str("app response channel closed");
            message
        },
        DispatchEvent::Dropped(error) => {
            let mut message = "request handling failed: ".to_string();
            message.push_str(&error);
            message
        },
    };
    (
        DispatchReply::Failed(error_response(request_id, "server_unavailable", message)),
        stream_active,
    )
}

// ---- Recording -----------------------------------------------------------------------------

/// The text that a JSON document holds under one key of the object under
/// another: absent where the text is no JSON, and absent inside where there
/// is no text at that place.
pub uninterp spec fn json_text_at(document: Seq<char>, outer: Seq<char>, inner: Seq<char>) -> Option<
    Option<Seq<char>>,
>;

/// `serde_json::from_str` into a `serde_json::Value`, then `Value::get` for
/// each of the two keys and `Value::as_str`. What these return for a given
/// document and given keys is named, not described.
#[verifier::external_body]
fn read_text_at(document: &str, outer: &str, inner: &str) -> (text: Option<Option<String>>)
    ensures
        json_text_at(document@, outer@, inner@) == (match text {
            Some(text) => Some(view_of(text)),
            None => None,
        }),
{
    let value: serde_json::Value = serde_json::from_str(document).ok()?;
    let found = value.get(outer).and_then(|value| value.get(inner));
    Some(found.and_then(|value| value.as_str()).map(str::to_owned))
}

/// How a response is recorded, given what its error code reads as.
pub open spec fn recorded_outcome(code: Option<Option<Seq<char>>>) -> Seq<char> {
    match code {
        None => "error"@,
        Some(None) => "ok"@,
        Some(Some(code)) => if code == "timeout"@ {
            "timeout"@
        } else {
            "error"@
        },
    }
}

/// How a response is recorded, given what its error code reads as: a response
/// that is no JSON, or has any code but a timeout's, is an error.
pub fn outcome_of(code: &Option<Option<String>>) -> (outcome: &'static str)
    ensures
        outcome@ == recorded_outcome(
            match *code {
                Some(code) => Some(view_of(code)),
                None => None,
            },
        ),
{
    match code {
        None => "error",
        Some(None) => "ok",
        Some(Some(code)) => {
            let chars = to_chars(code);
            if spells(&chars, "timeout") {
                "timeout"
            } else {
                "error"
            }
        },
    }
}

/// How a response is recorded.
pub fn api_response_outcome(response: &str) -> (outcome: &'static str)
    ensures
        outcome@ == recorded_outcome(json_text_at(response@, "error"@, "code"@)),
{
    let code = read_text_at(response, "error", "code");
    outcome_of(&code)
}

/// What writing a message came to.
#[derive(Clone, Debug, PartialEq, Eq)]
pub enum Written {
    Done,
    /// The peer is gone.
    Closed,
    Failed(String),
}

/// What is recorded of a request.
#[derive(Clone, Debug, PartialEq, Eq)]
pub enum RequestRecord {
    Completed(&'static str),
    Failed(String),
}

/// What is recorded once an answer was written. A peer that went away before
/// it could read its answer is no failure.
pub fn answer_record(response: &str, written: Written) -> (record: RequestRecord)
    ensures
        match written {
            Written::Failed(error) => record == RequestRecord::Failed(error),
            _ => record matches RequestRecord::Completed(outcome) && outcome@ == recorded_outcome(
                json_text_at(response@, "error"@, "code"@),
            ),
        },
{
    match written {
        Written::Failed(error) => RequestRecord::Failed(error),
        _ => RequestRecord::Completed(api_response_outcome(response)),
    }
}

/// What is recorded once a wait ended: without an answer its client went
/// away, and with one the answer was written.
pub fn finish_wait_response(response: Option<&str>, written: Written) -> (record: RequestRecord)
    ensures
        match (response, written) {
            (None, _) => record matches RequestRecord::Completed(outcome) && outcome@
                == "client_disconnected"@,
            (Some(_), Written::Failed(error)) => record == RequestRecord::Failed(error),
            (Some(response), _) => record matches RequestRecord::Completed(outcome) && outcome@
                == recorded_outcome(json_text_at(response@, "error"@, "code"@)),
        },
{
    match response {
        None => RequestRecord::Completed("client_disconnected"),
        Some(response) => answer_record(response, written),
    }
}

/// What is recorded once a stream ended.
pub fn stream_record(ended: Result<(), String>) -> (record: RequestRecord)
    ensures
        match ended {
            Ok(_) => record matches RequestRecord::Completed(outcome) && outcome@
                == "stream_closed"@,
            Err(error) => record == RequestRecord::Failed(error),
        },
{
    match ended {
        Ok(_) => RequestRecord::Completed("stream_closed"),
        Err(error) => RequestRecord::Failed(error),
    }
}

/// A message of white space alone is no request, and any other one is read
/// without the white space around it.
pub proof fn law_what_is_read_of_a_message(
    lead: Seq<char>,
    inner: Seq<char>,
    tail: Seq<char>,
    message: &str,
    text: Option<String>,
)
    requires
        call_ensures(request_text, (message,), text),
        message@ == lead + inner + tail,
        is_blank(lead),
        is_blank(tail),
        inner.len() > 0 ==> !is_white_space(inner[0]) && !is_white_space(inner.last()),
    ensures
        inner.len() > 0 ==> (text matches Some(text) && text@ == inner),
        inner.len() == 0 ==> text is None,
{
    law_what_is_around_is_trimmed(lead, inner, tail);
}

/// What does not decode is answered, without an id, as an invalid request that
/// names the fault; what does is served as it stands.
pub proof fn law_what_does_not_decode_is_answered(
    decoded: Result<Request, String>,
    request: Result<Request, Response>,
)
    requires
        call_ensures(read_request, (decoded,), request),
    ensures
        decoded matches Ok(asked) ==> request == Ok::<Request, Response>(asked),
        decoded matches Err(fault) ==> (request matches Err(response) && is_error(
            response,
            Seq::empty(),
            "invalid_request"@,
            "invalid request: "@ + fault@,
        )),
{
}

/// The two event methods, the two agent waits, the wait for output and the
/// graphics stream take a connection over; a subscription streams, the waits
/// wait, and graphics are refused where no raw connection can be handed out.
/// Nothing else takes one over.
pub proof fn law_which_methods_take_a_connection_over(request: Request, routed: Routed)
    requires
        routes(request, false, routed),
    ensures
        request.method is EventsSubscribe <==> routed is Subscribe,
        request.method is EventsWait || request.method is AgentPrompt || request.method is AgentWait
            || request.method is PaneWaitForOutput <==> routed is Wait,
        request.method is PaneGraphicsStream <==> routed is Reply,
        routed matches Routed::Subscribe(served) ==> served == request,
        routed matches Routed::Wait(served) ==> served == request,
        routed matches Routed::Simple(served) ==> served == request,
        routed is Simple <==> !starts_a_stream(request.method),
{
}

/// During a stream every method that would take the connection over is refused,
/// a graphics stream for its transport and any other one as busy; the rest is
/// served.
pub proof fn law_what_is_refused_during_a_stream(request: Request, routed: Routed)
    requires
        routes_interleaved(request, false, routed),
    ensures
        request.method is EventsSubscribe || request.method is EventsWait || request.method
            is AgentPrompt || request.method is AgentWait || request.method is PaneWaitForOutput
            ==> (routed matches Routed::Reply(response) && is_error(
            response,
            request.id@,
            "stream_busy"@,
            method_name(request.method)
                + " needs its own connection; this connection is already serving a stream"@,
        )),
        request.method is PaneGraphicsStream ==> (routed matches Routed::Reply(response)
            && is_error(
            response,
            request.id@,
            "unsupported_transport"@,
            "pane.graphics.stream requires a dedicated local socket connection"@,
        )),
        !starts_a_stream(request.method) ==> routed == Routed::Simple(request),
{
}

/// Only a graphics stream takes over a local socket.
pub proof fn law_what_takes_over_a_local_socket(request: Request, yes: bool)
    requires
        call_ensures(takes_over_local_socket, (&request,), yes),
    ensures
        yes <==> request.method is PaneGraphicsStream,
        yes ==> starts_a_stream(request.method),
{
}

/// What the app answered is passed on and leaves its stream running; without an
/// answer the request fails as unavailable and takes its stream with it.
pub proof fn law_what_becomes_of_a_dispatch(
    request_id: &str,
    stream_active: bool,
    event: DispatchEvent,
    outcome: (DispatchReply, bool),
)
    requires
        call_ensures(dispatch_to_app, (request_id, stream_active, event), outcome),
    ensures
        event matches DispatchEvent::Answered(answer) ==> outcome.0 == DispatchReply::Passed(answer)
            && !outcome.1,
        !(event is Answered) ==> outcome.1 == stream_active,
        !(event is Answered) ==> (outcome.0 matches DispatchReply::Failed(response) && (response
            matches Response::Error(failed) && failed.id@ == request_id@ && failed.error.code@
            == "server_unavailable"@)),
        event matches DispatchEvent::TimedOut(millis) ==> (outcome.0 matches DispatchReply::Failed(
            response,
        ) && (response matches Response::Error(failed) && failed.error.message@
            == "request handling failed: timed out waiting for app response after "@
            + decimal_text(millis as nat) + " ms"@)),
{
    reveal_strlit("request handling failed: ");
    reveal_strlit("timed out waiting for app response after ");
    reveal_strlit("request handling failed: timed out waiting for app response after ");
    assert("request handling failed: "@ + "timed out waiting for app response after "@
        =~= "request handling failed: timed out waiting for app response after "@);
}

/// An answer is recorded as fine where it has no error code, as a timeout where
/// its code says so, and as an error with any other code or where it cannot be
/// read.
pub proof fn law_how_an_answer_is_recorded(code: Seq<char>)
    ensures
        recorded_outcome(Some(None)) == "ok"@,
        recorded_outcome(None) == "error"@,
        code == "timeout"@ ==> recorded_outcome(Some(Some(code))) == "timeout"@,
        code != "timeout"@ ==> recorded_outcome(Some(Some(code))) == "error"@,
{
}

/// A write that failed is recorded with its failure; a peer that went away is
/// none. A wait without an answer lost its client, and a stream that ended
/// without a failure was closed.
pub proof fn law_what_is_recorded_at_the_end(
    response: &str,
    written: Written,
    ended: Result<(), String>,
    answered: RequestRecord,
    waited: RequestRecord,
    lost: RequestRecord,
    streamed: RequestRecord,
)
    requires
        call_ensures(answer_record, (response, written), answered),
        call_ensures(finish_wait_response, (Some(response), written), waited),
        call_ensures(finish_wait_response, (None, written), lost),
        call_ensures(stream_record, (ended,), streamed),
    ensures
        answered is Failed <==> written is Failed,
        written matches Written::Failed(error) ==> answered == RequestRecord::Failed(error)
            && waited == RequestRecord::Failed(error),
        written is Closed || written is Done ==> answered is Completed && waited is Completed,
        lost matches RequestRecord::Completed(outcome) && outcome@ == "client_disconnected"@,
        ended is Ok ==> (streamed matches RequestRecord::Completed(outcome) && outcome@
            == "stream_closed"@),
        ended matches Err(error) ==> streamed == RequestRecord::Failed(error),
{
}

/// Attachments have four methods and credentials have four; no method belongs
/// to both, and none of either takes a connection over.
pub proof fn law_what_attachments_and_credentials_are_managed_with(method: Method)
    ensures
        stores_attachments(method) <==> method is AttachmentCreate || method is AttachmentBegin
            || method is AttachmentAppend || method is AttachmentCommit,
        manages_credentials(method) <==> method is CredentialMint || method is CredentialList
            || method is CredentialRevoke || method is CredentialRevokeAll,
        stores_attachments(method) ==> !manages_credentials(method) && !starts_a_stream(method),
        manages_credentials(method) ==> !starts_a_stream(method),
{
}

/// A pong carries the id it was asked with and what the server is at that very
/// moment: its name, its reach and its endpoint are those of the live slots.
pub proof fn law_what_a_pong_tells(
    id: String,
    facts: ServerFacts<'_>,
    response: Response,
)
    requires
        call_ensures(pong, (id, facts), response),
    ensures
        response matches Response::Success(answer) && answer.id == id && (
        answer.result matches ResponseResult::Pong {
            version,
            protocol,
            capabilities,
            name,
            reach,
            advertised_endpoint,
            session,
            exe,
        } && version@ == facts.version@ && protocol == facts.protocol && capabilities
            == facts.capabilities && view_of(name) == Some(facts.name@) && view_of(reach)
            == facts.reach@ && view_of(advertised_endpoint) == facts.advertised_endpoint@ && session
            == facts.session && exe == facts.exe),
{
}

/// A server that can be stopped is stopped by a stop, once and for all, and by
/// nothing else; one that cannot be is not.
pub proof fn law_what_stops_a_server(method: Method, stopped: bool)
    ensures
        stop_after(Method::ServerStop, Some(stopped)) == Some(true),
        !(method is ServerStop) ==> stop_after(method, Some(stopped)) == Some(stopped),
        stop_after(method, Some(true)) == Some(true),
        stop_after(method, None) is None,
{
}

/// A server that is shutting down answers a ping and another stop, and tells
/// everybody else that it is.
pub proof fn law_what_is_served_during_a_shutdown(
    request: Request,
    facts: ServerFacts<'_>,
    context: CredentialContext,
    before: SharedCredentialRegistry,
    after: SharedCredentialRegistry,
    moment: Moment,
    step: RequestStep,
)
    requires
        serves(request, facts, Some(true), context, before, after, moment, step),
    ensures
        request.method is Ping ==> (step matches RequestStep::Reply(response) && is_pong(
            response,
            request.id,
            facts,
        )),
        request.method is ServerStop ==> (step matches RequestStep::Reply(response) && (
        response matches Response::Success(answer) && answer.id == request.id && answer.result
            is Done)),
        !(request.method is Ping) && !(request.method is ServerStop) ==> (
        step matches RequestStep::Reply(response) && is_error(
            response,
            request.id@,
            "server_unavailable"@,
            "server is shutting down"@,
        )),
{
}

/// A server that is not shutting down stores attachments, looks places up and
/// answers pings, credentials and its own stop in place, and hands everything
/// else to the app, a stop that is not its own included.
pub proof fn law_where_a_request_is_served(
    request: Request,
    facts: ServerFacts<'_>,
    server_stop: Option<bool>,
    context: CredentialContext,
    before: SharedCredentialRegistry,
    after: SharedCredentialRegistry,
    moment: Moment,
    step: RequestStep,
)
    requires
        serves(request, facts, server_stop, context, before, after, moment, step),
        server_stop != Some(true),
    ensures
        step is Attach <==> request.method is AttachmentCreate || request.method is AttachmentBegin
            || request.method is AttachmentAppend || request.method is AttachmentCommit,
        step is LookUp <==> request.method is ServerLookupPlace,
        step is Reply <==> request.method is Ping || (request.method is ServerStop && server_stop
            is Some) || request.method is CredentialMint || request.method is CredentialList
            || request.method is CredentialRevoke || request.method is CredentialRevokeAll,
        step matches RequestStep::Attach(served) ==> served == request,
        step matches RequestStep::LookUp(served) ==> served == request,
        step matches RequestStep::Dispatch(served) ==> served == request,
        request.method is ServerStop && server_stop is None ==> step == RequestStep::Dispatch(
            request,
        ),
{
}

} // verus!
