use herdr::api::{server_capabilities, socket_busy_text, socket_path, SocketChoice};
use herdr::attachment::{MAX_ATTACHMENT_BYTES, MAX_UPLOAD_BYTES};
use herdr::config::WebSocketApiConfig;
use herdr::connection::{
    local_peer_state, read_initial_request_line, LineRefusal, LocalPeer, PeerState, PollEvent,
    PollStep, StreamAction, StreamEvent, SubscriptionStream,
};
use herdr::credential_context::CredentialContext;
use herdr::credentials::{Moment, SharedCredentialRegistry};
use herdr::endpoint::SharedAdvertisedEndpoint;
use herdr::line_reader::LineReader;
use herdr::platform::capabilities;
use herdr::requests::{
    answer_record, api_response_outcome, dispatch_to_app, finish_wait_response, handle_request,
    method_starts_a_stream, read_request, request_text, stream_record, takes_over_local_socket,
    DispatchEvent, DispatchReply, RequestRecord, RequestStep, ServerFacts, Written,
};
use herdr::schema::{
    api_method_name, request_changes_ui, AttachmentCreateParams, CredentialActorParams,
    ErrorBody, ErrorResponse, Method, PingParams, Request, Response, ResponseResult,
    ServerCapabilities, ServerLookupPlaceParams, SuccessResponse,
};
use herdr::server_executable::{ExecutableFileIdentity, ExecutableNote};
use herdr::server_name::SharedServerName;
use herdr::server_reach::SharedServerReach;
use herdr::token::SharedWebSocketToken;

const PROTOCOL: u32 = 12;

fn moment() -> Moment {
    Moment {
        now: 1_700_000_000,
        fresh_id: "cred_managing".to_string(),
    }
}

fn request(id: &str, method: Method) -> Request {
    Request {
        id: id.to_string(),
        method,
    }
}

struct Server {
    name: SharedServerName,
    reach: SharedServerReach,
    endpoint: SharedAdvertisedEndpoint,
    capabilities: Option<ServerCapabilities>,
    stop: Option<bool>,
    registry: SharedCredentialRegistry,
}

fn server(name: &str) -> Server {
    Server {
        name: SharedServerName::new(name.to_string()),
        reach: SharedServerReach::from_config(&WebSocketApiConfig::default()),
        endpoint: SharedAdvertisedEndpoint::from_config(&WebSocketApiConfig::default()),
        capabilities: None,
        stop: None,
        registry: SharedCredentialRegistry::open(None),
    }
}

impl Server {
    fn handle(&mut self, request: Request) -> RequestStep {
        let facts = ServerFacts {
            version: "1.4.0",
            protocol: PROTOCOL,
            capabilities: self.capabilities,
            name: &self.name,
            reach: &self.reach,
            advertised_endpoint: &self.endpoint,
            session: Some("work".to_string()),
            exe: Some("/usr/bin/herdr".to_string()),
        };
        handle_request(
            request,
            facts,
            &mut self.stop,
            &CredentialContext::local_socket(),
            &mut self.registry,
            1,
            &moment(),
        )
    }

    fn ping(&mut self, id: &str) -> (String, ResponseResult) {
        match self.handle(request(id, Method::Ping(PingParams {}))) {
            RequestStep::Reply(Response::Success(SuccessResponse { id, result })) => (id, result),
            other => panic!("expected pong, got {other:?}"),
        }
    }
}

fn error_of(step: RequestStep) -> (String, String) {
    match step {
        RequestStep::Reply(Response::Error(ErrorResponse {
            error: ErrorBody { code, message },
            ..
        })) => (code, message),
        other => panic!("expected an error, got {other:?}"),
    }
}

#[test]
fn declared_capabilities_cover_the_additive_features() {
    let capabilities = server_capabilities(capabilities(true, false), false);

    assert!(capabilities.credential_registry);
    assert!(capabilities.send_affirm);
    assert!(capabilities.stream_multiplex);
}

#[test]
fn capabilities_declare_the_platform_and_the_attachment_sizes() {
    let unix = server_capabilities(capabilities(true, false), true);
    assert!(unix.live_handoff && unix.detached_server_daemon);
    let files = unix.file_attachments.unwrap();
    assert_eq!(files.max_bytes, MAX_UPLOAD_BYTES);
    assert_eq!(files.chunk_bytes, MAX_ATTACHMENT_BYTES as u64);
    assert!(!server_capabilities(capabilities(false, false), false).live_handoff);
}

fn choice<'a>(
    explicit_session: Option<&'a str>,
    socket_override: Option<&'a str>,
    inherited_session: Option<&'a str>,
) -> SocketChoice<'a> {
    SocketChoice {
        explicit_session,
        socket_override,
        inherited_session,
    }
}

#[test]
fn socket_path_prefers_explicit_env_override() {
    assert_eq!(
        socket_path("/home/me/.config/herdr", choice(None, Some("/tmp/herdr-test-1.sock"), None)),
        "/tmp/herdr-test-1.sock"
    );
}

#[test]
fn socket_path_defaults_to_config_dir_even_when_xdg_runtime_dir_is_set() {
    assert_eq!(
        socket_path("/home/me/.config/herdr", choice(None, None, None)),
        "/home/me/.config/herdr/herdr.sock"
    );
}

#[test]
fn socket_path_uses_named_session_dir() {
    assert_eq!(
        socket_path("/home/me/.config/herdr", choice(None, None, Some("work"))),
        "/home/me/.config/herdr/sessions/work/herdr.sock"
    );
    assert_eq!(
        socket_path("/c", choice(Some("play"), Some("/tmp/stale.sock"), Some("work"))),
        "/c/sessions/play/herdr.sock"
    );
    assert_eq!(
        socket_busy_text("/c/herdr.sock"),
        "herdr is already running (socket busy at /c/herdr.sock)"
    );
}

#[test]
fn api_response_outcome_uses_top_level_error_shape() {
    let ok_with_error_text = r#"{"id":"req","result":{"read":{"text":"user said \"error\": \"timeout\"","revision":1}}}"#;
    assert_eq!(api_response_outcome(ok_with_error_text), "ok");

    let timeout = r#"{"id":"req","error":{"code":"timeout","message":"timed out waiting for output match"}}"#;
    assert_eq!(api_response_outcome(timeout), "timeout");

    let generic_error = r#"{"id":"req","error":{"code":"server_unavailable","message":"boom"}}"#;
    assert_eq!(api_response_outcome(generic_error), "error");
}

#[test]
fn a_response_that_is_no_json_is_an_error() {
    assert_eq!(api_response_outcome("not json"), "error");
    assert_eq!(api_response_outcome(r#"{"error":{"code":7}}"#), "ok");
}

#[test]
fn ping_request_returns_pong_with_the_declared_server_name() {
    let mut server = server("the-mini");
    server.capabilities = Some(ServerCapabilities {
        live_handoff: true,
        detached_server_daemon: true,
        send_affirm: true,
        stream_multiplex: true,
        credential_registry: true,
        file_attachments: None,
    });
    let (id, result) = server.ping("req_1");
    assert_eq!(id, "req_1");
    match result {
        ResponseResult::Pong {
            name,
            version,
            protocol,
            session,
            exe,
            capabilities,
            ..
        } => {
            assert_eq!(name.as_deref(), Some("the-mini"));
            assert_eq!(version, "1.4.0");
            assert_eq!(protocol, PROTOCOL);
            assert_eq!(session.as_deref(), Some("work"));
            assert_eq!(exe.as_deref(), Some("/usr/bin/herdr"));
            assert!(capabilities.unwrap().live_handoff);
        }
        other => panic!("expected pong, got {other:?}"),
    }
}

#[test]
fn pong_reflects_a_renamed_server_without_restarting_anything() {
    let mut server = server("before");
    let name_of = |result: ResponseResult| match result {
        ResponseResult::Pong { name, .. } => name,
        other => panic!("expected pong, got {other:?}"),
    };
    assert_eq!(name_of(server.ping("req_before").1).as_deref(), Some("before"));

    let changed = server.name.apply_reloaded_config(
        &WebSocketApiConfig {
            name: Some("after".to_string()),
            ..WebSocketApiConfig::default()
        },
        &None,
    );
    assert!(changed);

    assert_eq!(name_of(server.ping("req_after").1).as_deref(), Some("after"));
}

#[test]
fn server_stop_control_bypasses_app_channel() {
    let mut server = server("test");
    server.stop = Some(false);
    match server.handle(request("priority_stop", Method::ServerStop)) {
        RequestStep::Reply(Response::Success(answer)) => {
            assert_eq!(answer.id, "priority_stop");
            assert_eq!(answer.result, ResponseResult::Done);
        }
        other => panic!("expected success, got {other:?}"),
    }
    assert_eq!(server.stop, Some(true));

    let rejected = server.handle(request("after_stop", Method::WorkspaceList));
    assert_eq!(
        error_of(rejected),
        (
            "server_unavailable".to_string(),
            "server is shutting down".to_string()
        )
    );
}

#[test]
fn a_server_without_stop_control_hands_the_stop_to_the_app() {
    let mut server = server("test");
    let stop = request("stop", Method::ServerStop);
    assert_eq!(
        server.handle(stop.clone()),
        RequestStep::Dispatch(stop)
    );
    assert_eq!(server.stop, None);
}

#[test]
fn pong_publishes_the_advertised_endpoint_only_once_one_is_declared() {
    let mut server = server("the-mini");
    let endpoint_of = |result: ResponseResult| match result {
        ResponseResult::Pong {
            advertised_endpoint,
            ..
        } => advertised_endpoint,
        other => panic!("expected pong, got {other:?}"),
    };
    assert_eq!(endpoint_of(server.ping("req_undeclared").1), None);

    let changed = server.endpoint.apply_reloaded_config(&WebSocketApiConfig {
        advertised_endpoint: Some("  WSS://a-host.example.net:8443/  ".to_string()),
        ..WebSocketApiConfig::default()
    });
    assert!(changed);
    assert_eq!(
        endpoint_of(server.ping("req_declared").1).as_deref(),
        Some("wss://a-host.example.net:8443")
    );

    assert!(server
        .endpoint
        .apply_reloaded_config(&WebSocketApiConfig::default()));
    assert_eq!(endpoint_of(server.ping("req_withdrawn").1), None);
}

#[test]
fn requests_go_where_they_are_served() {
    let mut server = server("test");
    server
        .registry
        .attach_managing_token(SharedWebSocketToken::new("pair-token".to_string()));
    let attach = request(
        "a",
        Method::AttachmentCreate(AttachmentCreateParams {
            bytes_b64: String::new(),
            name: None,
        }),
    );
    assert_eq!(server.handle(attach.clone()), RequestStep::Attach(attach));
    let lookup = request(
        "l",
        Method::ServerLookupPlace(ServerLookupPlaceParams {
            query: "herdr".to_string(),
            limit: None,
        }),
    );
    assert_eq!(server.handle(lookup.clone()), RequestStep::LookUp(lookup));
    let list = request(
        "c",
        Method::CredentialList(CredentialActorParams { acting_token: None }),
    );
    match server.handle(list) {
        RequestStep::Reply(Response::Success(answer)) => match answer.result {
            ResponseResult::CredentialList { credentials } => assert_eq!(credentials.len(), 1),
            other => panic!("expected a list, got {other:?}"),
        },
        other => panic!("expected a list, got {other:?}"),
    }
    let panes = request("p", Method::PaneList);
    assert_eq!(server.handle(panes.clone()), RequestStep::Dispatch(panes));
}

#[test]
fn a_request_is_read_without_the_white_space_around_it() {
    assert_eq!(request_text("  {} \r\n").as_deref(), Some("{}"));
    assert_eq!(request_text(" \n"), None);
    match read_request(Err("bad".to_string())) {
        Err(Response::Error(error)) => {
            assert_eq!(error.id, "");
            assert_eq!(error.error.code, "invalid_request");
            assert_eq!(error.error.message, "invalid request: bad");
        }
        other => panic!("expected an error, got {other:?}"),
    }
}

#[test]
fn methods_that_take_the_connection_over_are_known() {
    for method in [
        Method::EventsSubscribe,
        Method::EventsWait,
        Method::AgentPrompt,
        Method::AgentWait,
        Method::PaneWaitForOutput,
        Method::PaneGraphicsStream,
    ] {
        assert!(method_starts_a_stream(&method), "{method:?}");
    }
    assert!(!method_starts_a_stream(&Method::PaneList));
    assert!(takes_over_local_socket(&request(
        "g",
        Method::PaneGraphicsStream
    )));
    assert_eq!(api_method_name(&Method::PaneGraphicsStream), "pane.graphics.stream");
    assert!(request_changes_ui(&request("u", Method::PaneSplit)));
    assert!(!request_changes_ui(&request("u", Method::PaneList)));
}

#[test]
fn a_failed_dispatch_is_answered_and_ends_its_stream() {
    let failed = |event: DispatchEvent| match dispatch_to_app("req", true, event) {
        (DispatchReply::Failed(Response::Error(error)), true) => {
            assert_eq!(error.id, "req");
            assert_eq!(error.error.code, "server_unavailable");
            error.error.message
        }
        other => panic!("expected a failure, got {other:?}"),
    };
    assert_eq!(
        failed(DispatchEvent::NotSent("channel closed".to_string())),
        "failed to dispatch request: channel closed"
    );
    assert_eq!(
        failed(DispatchEvent::TimedOut(5_000)),
        "request handling failed: timed out waiting for app response after 5000 ms"
    );
    assert_eq!(
        failed(DispatchEvent::Closed),
        "request handling failed: app response channel closed"
    );
    assert_eq!(
        failed(DispatchEvent::Dropped("gone".to_string())),
        "request handling failed: gone"
    );
    assert_eq!(
        dispatch_to_app("req", true, DispatchEvent::Answered("{}".to_string())),
        (DispatchReply::Passed("{}".to_string()), false)
    );
}

#[test]
fn what_became_of_a_request_is_recorded() {
    let ok = r#"{"id":"r","result":{}}"#;
    assert_eq!(answer_record(ok, Written::Done), RequestRecord::Completed("ok"));
    assert_eq!(answer_record(ok, Written::Closed), RequestRecord::Completed("ok"));
    assert_eq!(
        answer_record(ok, Written::Failed("full".to_string())),
        RequestRecord::Failed("full".to_string())
    );
    assert_eq!(
        finish_wait_response(None, Written::Done),
        RequestRecord::Completed("client_disconnected")
    );
    assert_eq!(
        finish_wait_response(Some(ok), Written::Done),
        RequestRecord::Completed("ok")
    );
    assert_eq!(stream_record(Ok(())), RequestRecord::Completed("stream_closed"));
    assert_eq!(
        stream_record(Err("reset".to_string())),
        RequestRecord::Failed("reset".to_string())
    );
}

#[test]
fn an_initial_line_is_read_within_its_limits() {
    let mut reader = LineReader::new(4);
    assert_eq!(
        read_initial_request_line(&mut reader, PollEvent::Pending(false)),
        PollStep::Sleep
    );
    assert_eq!(
        read_initial_request_line(&mut reader, PollEvent::Data(b'1')),
        PollStep::Poll
    );
    assert_eq!(
        read_initial_request_line(&mut reader, PollEvent::Pending(true)),
        PollStep::Refuse(LineRefusal::TimedOut)
    );
    assert_eq!(
        read_initial_request_line(&mut reader, PollEvent::Data(b'\n')),
        PollStep::Line("1\n".to_string())
    );
    assert_eq!(
        read_initial_request_line(&mut reader, PollEvent::Closed),
        PollStep::Gone
    );
    assert_eq!(LineRefusal::TimedOut.message(), Some("timed out reading api request"));
}

#[test]
fn windows_initial_request_enforces_size_limit() {
    let mut reader = LineReader::new(4);
    for byte in b"1234" {
        assert_eq!(
            read_initial_request_line(&mut reader, PollEvent::Data(*byte)),
            PollStep::Poll
        );
    }
    assert_eq!(
        read_initial_request_line(&mut reader, PollEvent::Data(b'5')),
        PollStep::Refuse(LineRefusal::TooLarge)
    );
    assert_eq!(
        LineRefusal::TooLarge.message(),
        Some("api request line is too large")
    );
}

#[test]
fn windows_initial_request_rejects_invalid_utf8() {
    let mut reader = LineReader::new(4);
    assert_eq!(
        read_initial_request_line(&mut reader, PollEvent::Data(0xff)),
        PollStep::Poll
    );
    assert_eq!(
        read_initial_request_line(&mut reader, PollEvent::Data(b'\n')),
        PollStep::Refuse(LineRefusal::NotUtf8)
    );
    assert_eq!(LineRefusal::NotUtf8.message(), None);
}

#[test]
fn unix_stream_still_forfeits_the_connection_on_payload_during_a_stream() {
    assert_eq!(local_peer_state(LocalPeer::Silent), PeerState::Alive);
    assert_eq!(local_peer_state(LocalPeer::SentPayload), PeerState::Gone);
    assert_eq!(local_peer_state(LocalPeer::Closed), PeerState::Gone);
}

#[test]
fn a_subscription_stream_opens_confirms_and_polls_in_turn() {
    let (mut stream, action) = SubscriptionStream::begin("sub".to_string(), 2);
    assert_eq!(action, StreamAction::Open(0));
    assert_eq!(stream.step(StreamEvent::Opened(None)), StreamAction::Open(1));
    match stream.step(StreamEvent::Opened(None)) {
        StreamAction::Answer(Response::Success(answer)) => {
            assert_eq!(answer.id, "sub");
            assert_eq!(answer.result, ResponseResult::SubscriptionStarted);
        }
        other => panic!("expected the confirmation, got {other:?}"),
    }
    assert_eq!(stream.step(StreamEvent::Wrote(Written::Done)), StreamAction::Check);
    assert_eq!(
        stream.step(StreamEvent::Checked(PeerState::Alive)),
        StreamAction::Poll(0)
    );
    assert_eq!(
        stream.step(StreamEvent::Polled(Some("event".to_string()))),
        StreamAction::Write("event".to_string())
    );
    assert_eq!(stream.step(StreamEvent::Wrote(Written::Done)), StreamAction::Poll(1));
    assert_eq!(stream.step(StreamEvent::Polled(None)), StreamAction::Sleep);
    assert_eq!(stream.step(StreamEvent::Rested), StreamAction::Check);
    assert_eq!(
        stream.step(StreamEvent::Checked(PeerState::Gone)),
        StreamAction::End(None)
    );
}

#[test]
fn subscriptions_stop_when_client_disconnects() {
    let (mut stream, _) = SubscriptionStream::begin("sub".to_string(), 0);
    assert_eq!(
        stream.step(StreamEvent::Wrote(Written::Closed)),
        StreamAction::End(None)
    );
}

#[test]
fn subscriptions_stop_when_server_shuts_down() {
    let (mut stream, _) = SubscriptionStream::begin("sub".to_string(), 0);
    assert_eq!(stream.step(StreamEvent::Wrote(Written::Done)), StreamAction::Check);
    assert_eq!(stream.step(StreamEvent::ServerStopped), StreamAction::End(None));
}

#[test]
fn a_refused_subscription_ends_its_stream() {
    let (mut stream, _) = SubscriptionStream::begin("sub".to_string(), 1);
    let refusal = Response::Error(ErrorResponse {
        id: "sub".to_string(),
        error: ErrorBody {
            code: "pane_not_found".to_string(),
            message: "no such pane".to_string(),
        },
    });
    assert_eq!(
        stream.step(StreamEvent::Opened(Some(refusal.clone()))),
        StreamAction::Answer(refusal)
    );
    assert_eq!(
        stream.step(StreamEvent::Wrote(Written::Failed("full".to_string()))),
        StreamAction::End(Some("full".to_string()))
    );
}

#[test]
fn an_executable_is_reported_while_it_is_the_same_file() {
    let first = ExecutableFileIdentity {
        device: 1,
        inode: 2,
    };
    let other = ExecutableFileIdentity {
        device: 1,
        inode: 3,
    };
    let mut note = ExecutableNote::new();
    note.initialize(Some("/usr/bin/herdr".to_string()), Some(first));
    note.initialize(Some("/usr/bin/other".to_string()), Some(other));
    assert_eq!(
        note.path_for_pong(None, None, Some(first)).as_deref(),
        Some("/usr/bin/herdr")
    );
    assert_eq!(note.path_for_pong(None, None, Some(other)), None);
    assert_eq!(note.path_for_pong(None, None, None), None);

    let mut unprepared = ExecutableNote::new();
    let herdr = || Some("/usr/bin/herdr".to_string());
    assert_eq!(
        unprepared.path_for_pong(herdr(), Some(first), Some(first)),
        herdr(),
        "a pong makes the note where none was made"
    );
    assert_eq!(
        unprepared.path_for_pong(Some("/usr/bin/other".to_string()), Some(other), Some(first)),
        herdr()
    );
    let mut nameless = ExecutableNote::new();
    assert_eq!(nameless.path_for_pong(None, None, Some(first)), None);
    nameless.initialize(herdr(), Some(first));
    assert_eq!(nameless.path_for_pong(None, None, Some(first)), None);

    let mut relative = ExecutableNote::new();
    relative.initialize(Some("bin/herdr".to_string()), Some(first));
    assert_eq!(relative.path_for_pong(None, None, Some(first)), None);
}
