use herdr::config::WebSocketApiConfig;
use herdr::connection::PeerState;
use herdr::credential_context::CredentialContext;
use herdr::credentials::{FreshCredential, HandshakeOutcome, Moment, SharedCredentialRegistry};
use herdr::handoff::AcceptEvent;
use herdr::net::SocketAddress;
use herdr::requests::{
    handle_parsed_request, handle_request, read_request, serve_interleaved_request, RequestStep,
    Routed, ServerFacts, Written,
};
use herdr::schema::{
    CredentialTier, Method, PingParams, Request, Response, ResponseResult, ServerCapabilities,
};
use herdr::endpoint::SharedAdvertisedEndpoint;
use herdr::server_name::SharedServerName;
use herdr::server_reach::SharedServerReach;
use herdr::token::{websocket_api_spec, SharedWebSocketToken};
use herdr::websocket::{
    binary_frame_refusal, bind_step, classify_ws_error, flush_outcome, handshake_step,
    listener_step, read_budget, read_deadline, restore_result, stream_fault, timeout_until,
    write_step, ws_liveness_timing, ws_liveness_timing_from_env, BindOutcome, BindStep,
    BudgetKind, Frame, FrameStep, HandshakeProgress, HandshakeStep, IdleStep, ListenerStep,
    LivenessStep, PumpStep, WriteStep, WsConnection, WsErrorClass, WsFault, WsLiveness,
    WsLivenessTiming, BIND_RETRY_INTERVAL_NANOS, FLUSH_RETRY_NANOS, IDLE_CLOSE_AFTER_NANOS,
    IDLE_PING_AFTER_NANOS, NANOS_PER_MILLI, POLL_INTERVAL_NANOS,
};
use herdr::websocket_auth::{
    authorize_upgrade, authorize_ws_request, connection_context, AuthorizationHeader, WsAuthError,
    UNAUTHORIZED_STATUS,
};

const TEST_TOKEN: &str = "test-token-1234";

const TEST_SERVER_NAME: &str = "ws-test-server";

const PROTOCOL: u32 = 12;

fn spec_config(bind: Option<&str>, token: Option<&str>) -> WebSocketApiConfig {
    WebSocketApiConfig {
        bind: bind.map(str::to_string),
        token: token.map(str::to_string),
        name: None,
        advertised_endpoint: None,
        reach: None,
    }
}

fn moment() -> Moment {
    Moment {
        now: 1_700_000_000,
        fresh_id: "cred_managing".to_string(),
    }
}

fn test_registry() -> SharedCredentialRegistry {
    let mut registry = SharedCredentialRegistry::open(None);
    registry.attach_managing_token(SharedWebSocketToken::new(TEST_TOKEN.to_string()));
    registry
}

fn browser() -> FreshCredential {
    FreshCredential {
        id: "cred_browser".to_string(),
        token: "browser-token".to_string(),
    }
}

#[test]
fn spec_is_none_when_bind_is_unset_or_empty() {
    assert_eq!(websocket_api_spec(&spec_config(None, None)).unwrap(), None);
    assert_eq!(
        websocket_api_spec(&spec_config(None, Some(TEST_TOKEN))).unwrap(),
        None
    );
    assert_eq!(
        websocket_api_spec(&spec_config(Some(""), Some(TEST_TOKEN))).unwrap(),
        None
    );
}

#[test]
fn spec_requires_a_token_when_bind_is_set() {
    let missing = websocket_api_spec(&spec_config(Some("127.0.0.1:0"), None)).unwrap_err();
    assert!(missing.contains("token is missing"));

    let empty = websocket_api_spec(&spec_config(Some("127.0.0.1:0"), Some(""))).unwrap_err();
    assert!(empty.contains("token is missing"));
}

#[test]
fn spec_rejects_invalid_bind_address() {
    let err =
        websocket_api_spec(&spec_config(Some("not-an-address"), Some(TEST_TOKEN))).unwrap_err();
    assert!(err.contains("invalid websocket_api.bind"));
}

#[test]
fn spec_rejects_tokens_with_unsafe_characters() {
    for token in [
        "with space",
        "line\nbreak",
        "tab\ttab",
        "non-ascii-é",
        "has+plus",
        "has/slash",
        "has=equals",
    ] {
        let err = websocket_api_spec(&spec_config(Some("127.0.0.1:0"), Some(token))).unwrap_err();
        assert!(err.contains("websocket_api.token"), "{token:?}");
    }
}

#[test]
fn spec_accepts_valid_bind_and_token() {
    let spec = websocket_api_spec(&spec_config(Some("127.0.0.1:4433"), Some(TEST_TOKEN)))
        .unwrap()
        .unwrap();
    assert_eq!(spec.addr.port, 4433);
    assert_eq!(spec.token, TEST_TOKEN);

    let spec = websocket_api_spec(&spec_config(
        Some("127.0.0.1:4433"),
        Some("AZaz09-._~Base64Url_-Shaped"),
    ))
    .unwrap()
    .unwrap();
    assert_eq!(spec.token, "AZaz09-._~Base64Url_-Shaped");
}

#[test]
fn start_returns_none_when_not_configured() {
    assert_eq!(
        websocket_api_spec(&WebSocketApiConfig::default()).unwrap(),
        None
    );
}

#[test]
fn authorize_rejects_missing_token() {
    let mut registry = test_registry();
    for query in [None, Some("other=1"), Some("token=")] {
        assert_eq!(
            authorize_ws_request(None, query, &mut registry, &moment()).unwrap_err(),
            WsAuthError::MissingToken,
            "{query:?}"
        );
    }
}

#[test]
fn authorize_rejects_malformed_authorization_headers() {
    let mut registry = test_registry();
    for header in ["Basic dXNlcjpwdw==", "Bearer", "Bearer   ", "token abc", ""] {
        assert_eq!(
            authorize_ws_request(Some(header), None, &mut registry, &moment()).unwrap_err(),
            WsAuthError::MalformedAuthorization,
            "{header:?}"
        );
    }
}

#[test]
fn authorize_rejects_tokens_that_are_in_no_registry() {
    let mut registry = test_registry();
    let wrong = [
        (Some("Bearer wrong-token".to_string()), None),
        (None, Some("token=wrong-token".to_string())),
        (None, Some(format!("token={TEST_TOKEN}x"))),
        (
            Some(format!("Bearer {}", &TEST_TOKEN[..TEST_TOKEN.len() - 1])),
            None,
        ),
    ];
    for (header, query) in wrong {
        assert_eq!(
            authorize_ws_request(header.as_deref(), query.as_deref(), &mut registry, &moment())
                .unwrap_err(),
            WsAuthError::WrongToken,
            "{header:?} {query:?}"
        );
    }
}

#[test]
fn authorize_accepts_the_managing_credential_by_header_or_query() {
    let mut registry = test_registry();
    for (header, query) in [
        (Some(format!("Bearer {TEST_TOKEN}")), None),
        (Some(format!("bearer {TEST_TOKEN}")), None),
        (None, Some(format!("token={TEST_TOKEN}"))),
        (None, Some(format!("a=1&token={TEST_TOKEN}&b=2"))),
    ] {
        let outcome =
            authorize_ws_request(header.as_deref(), query.as_deref(), &mut registry, &moment())
                .unwrap();
        match outcome {
            HandshakeOutcome::Live(credential) => assert_eq!(
                credential.tier,
                CredentialTier::Managing,
                "{header:?} {query:?}"
            ),
            other => panic!("{header:?} {query:?}: expected a live credential, got {other:?}"),
        }
    }
}

#[test]
fn authorize_accepts_a_minted_limited_credential() {
    let mut registry = test_registry();
    let (info, token) = registry.mint(Some("desk browser".into()), browser(), 1_700_000_000);

    let outcome = authorize_ws_request(
        Some(&format!("Bearer {token}")),
        None,
        &mut registry,
        &moment(),
    )
    .unwrap();

    match outcome {
        HandshakeOutcome::Live(credential) => {
            assert_eq!(credential.credential_id, info.credential_id);
            assert_eq!(credential.tier, CredentialTier::Limited);
        }
        other => panic!("expected a live credential, got {other:?}"),
    }

    registry.revoke_limited(&info.credential_id);
    match authorize_ws_request(
        Some(&format!("Bearer {token}")),
        None,
        &mut registry,
        &moment(),
    )
    .unwrap()
    {
        HandshakeOutcome::Revoked { credential_id } => {
            assert_eq!(credential_id, info.credential_id)
        }
        other => panic!("expected a revoked verdict, got {other:?}"),
    }
    assert_eq!(
        authorize_ws_request(Some("Bearer never-minted"), None, &mut registry, &moment())
            .unwrap_err(),
        WsAuthError::WrongToken
    );
}

#[test]
fn authorize_prefers_header_over_query_and_fails_closed() {
    let mut registry = test_registry();
    assert_eq!(
        authorize_ws_request(
            Some("Basic abc"),
            Some(&format!("token={TEST_TOKEN}")),
            &mut registry,
            &moment()
        )
        .unwrap_err(),
        WsAuthError::MalformedAuthorization
    );
    assert_eq!(
        authorize_ws_request(
            Some("Bearer wrong"),
            Some(&format!("token={TEST_TOKEN}")),
            &mut registry,
            &moment()
        )
        .unwrap_err(),
        WsAuthError::WrongToken
    );
}

#[test]
fn shared_token_applies_a_valid_reloaded_token() {
    let mut shared = SharedWebSocketToken::new("old-token".to_string());

    let changed = shared
        .apply_reloaded_config(&spec_config(Some("127.0.0.1:4433"), Some("new-token")))
        .unwrap();

    assert!(changed);
    assert_eq!(shared.current(), "new-token");
}

#[test]
fn shared_token_reports_unchanged_for_the_same_token() {
    let mut shared = SharedWebSocketToken::new("same-token".to_string());

    let changed = shared
        .apply_reloaded_config(&spec_config(Some("127.0.0.1:4433"), Some("same-token")))
        .unwrap();

    assert!(!changed);
    assert_eq!(shared.current(), "same-token");
}

#[test]
fn shared_token_keeps_current_token_when_reload_removes_the_section() {
    let mut shared = SharedWebSocketToken::new("kept-token".to_string());

    for config in [
        spec_config(None, Some("new-token")),
        spec_config(Some(""), Some("new-token")),
    ] {
        let err = shared.apply_reloaded_config(&config).unwrap_err();
        assert!(err.contains("until the server restarts"), "{err}");
        assert_eq!(shared.current(), "kept-token");
    }
}

#[test]
fn shared_token_keeps_current_token_when_reload_omits_or_breaks_the_token() {
    let mut shared = SharedWebSocketToken::new("kept-token".to_string());

    for token in [None, Some(""), Some("has space"), Some("has+plus")] {
        let err = shared
            .apply_reloaded_config(&spec_config(Some("127.0.0.1:4433"), token))
            .unwrap_err();
        assert!(err.contains("keeps its current token"), "{token:?}: {err}");
        assert_eq!(shared.current(), "kept-token");
    }
}

// ---- A whole connection, without its socket ------------------------------------------------

/// A server as its connections see it.
struct TestServer {
    registry: SharedCredentialRegistry,
    name: SharedServerName,
    reach: SharedServerReach,
    endpoint: SharedAdvertisedEndpoint,
    capabilities: Option<ServerCapabilities>,
}

fn start_test_server() -> TestServer {
    TestServer {
        registry: test_registry(),
        name: SharedServerName::new(TEST_SERVER_NAME.to_string()),
        reach: SharedServerReach::from_config(&WebSocketApiConfig::default()),
        endpoint: SharedAdvertisedEndpoint::from_config(&WebSocketApiConfig::default()),
        capabilities: None,
    }
}

impl TestServer {
    fn handshake(&mut self, header: Option<&str>, query: Option<&str>) -> CredentialContext {
        let header = match header {
            Some(text) => AuthorizationHeader::Text(text),
            None => AuthorizationHeader::Absent,
        };
        let outcome = authorize_upgrade(header, query, &mut self.registry, &moment()).unwrap();
        connection_context(outcome).unwrap()
    }

    fn connect_authorized(&mut self) -> CredentialContext {
        self.handshake(Some(&format!("Bearer {TEST_TOKEN}")), None)
    }

    fn answer(&mut self, context: &CredentialContext, request: Request) -> Response {
        let facts = ServerFacts {
            version: "1.4.0",
            protocol: PROTOCOL,
            capabilities: self.capabilities,
            name: &self.name,
            reach: &self.reach,
            advertised_endpoint: &self.endpoint,
            session: None,
            exe: None,
        };
        match handle_request(
            request,
            facts,
            &mut None,
            context,
            &mut self.registry,
            1,
            &moment(),
        ) {
            RequestStep::Reply(response) => response,
            other => panic!("expected an answer, got {other:?}"),
        }
    }

    /// Send a request between two others.
    fn ask(&mut self, context: &CredentialContext, request: Request) -> Response {
        match handle_parsed_request(request, context, &mut self.registry, &moment()) {
            Routed::Reply(response) => response,
            Routed::Simple(request) => self.answer(context, request),
            other => panic!("expected an answer, got {other:?}"),
        }
    }

    /// Send a request while a stream is running.
    fn ask_during_a_stream(&mut self, context: &CredentialContext, request: Request) -> Response {
        match serve_interleaved_request(request, context, &mut self.registry, &moment()) {
            Routed::Reply(response) => response,
            Routed::Simple(request) => self.answer(context, request),
            other => panic!("expected an answer, got {other:?}"),
        }
    }
}

fn ping(id: &str) -> Request {
    Request {
        id: id.to_string(),
        method: Method::Ping(PingParams {}),
    }
}

fn subscribe(id: &str) -> Request {
    Request {
        id: id.to_string(),
        method: Method::EventsSubscribe,
    }
}

fn is_pong(response: &Response, id: &str) -> bool {
    match response {
        Response::Success(answer) => {
            answer.id == id && matches!(answer.result, ResponseResult::Pong { .. })
        }
        Response::Error(_) => false,
    }
}

fn refusal(response: &Response) -> (&str, &str) {
    match response {
        Response::Error(error) => (&error.id, &error.error.code),
        other => panic!("expected a refusal, got {other:?}"),
    }
}

#[test]
fn a_revoked_credential_is_refused_on_its_next_request() {
    let mut server = start_test_server();
    let (info, token) = server
        .registry
        .mint(Some("browser".into()), browser(), 1_700_000_000);
    let connection = server.handshake(Some(&format!("Bearer {token}")), None);

    assert!(is_pong(&server.ask(&connection, ping("req_live")), "req_live"));

    server.registry.revoke_limited(&info.credential_id);

    let refused = server.ask(&connection, ping("req_after_revoke"));
    assert_eq!(refusal(&refused), ("req_after_revoke", "credential_revoked"));

    let managing = server.connect_authorized();
    assert!(is_pong(
        &server.ask(&managing, ping("req_managing_after_revoke")),
        "req_managing_after_revoke"
    ));
}

#[test]
fn a_revoked_credential_connects_and_is_told_so_in_json() {
    let mut server = start_test_server();
    let (info, token) = server
        .registry
        .mint(Some("browser".into()), browser(), 1_700_000_000);
    server.registry.revoke_limited(&info.credential_id);

    let connection = server.handshake(Some(&format!("Bearer {token}")), None);
    let refused = server.ask(
        &connection,
        Request {
            id: "req_revoked_reconnect".to_string(),
            method: Method::PaneList,
        },
    );
    assert_eq!(
        refusal(&refused),
        ("req_revoked_reconnect", "credential_revoked")
    );

    // The verdict is terminal.
    let mut state = WsConnection::new(timing(), 0);
    state.on_frame(Frame::Text, 1);
    assert!(state.after_request(connection.is_revoked(&mut server.registry, &moment())));
    assert_eq!(state.on_idle(2, true), IdleStep::End);

    assert_eq!(
        authorize_ws_request(
            Some("Bearer never-minted-token"),
            None,
            &mut server.registry,
            &moment()
        )
        .unwrap_err(),
        WsAuthError::WrongToken
    );
}

#[test]
fn pong_advertises_the_credential_registry_capability() {
    let mut server = start_test_server();
    server.capabilities = Some(ServerCapabilities {
        live_handoff: false,
        detached_server_daemon: false,
        send_affirm: true,
        stream_multiplex: true,
        credential_registry: true,
        file_attachments: None,
    });
    let connection = server.connect_authorized();
    match server.ask(&connection, ping("req_capability")) {
        Response::Success(answer) => match answer.result {
            ResponseResult::Pong {
                capabilities,
                protocol,
                ..
            } => {
                assert!(capabilities.unwrap().credential_registry);
                assert_eq!(protocol, PROTOCOL);
            }
            other => panic!("expected pong, got {other:?}"),
        },
        other => panic!("expected pong, got {other:?}"),
    }
}

#[test]
fn handshake_without_token_is_rejected_with_401_before_dispatch() {
    let mut registry = test_registry();
    assert_eq!(
        authorize_upgrade(AuthorizationHeader::Absent, None, &mut registry, &moment())
            .unwrap_err(),
        WsAuthError::MissingToken
    );
    assert_eq!(UNAUTHORIZED_STATUS, 401);
    assert!(registry.take_unsaved().is_none());
}

#[test]
fn handshake_with_wrong_token_is_rejected_with_401_before_dispatch() {
    let mut registry = test_registry();
    assert_eq!(
        authorize_upgrade(
            AuthorizationHeader::Text("Bearer wrong-token"),
            None,
            &mut registry,
            &moment()
        )
        .unwrap_err(),
        WsAuthError::WrongToken
    );
    assert_eq!(UNAUTHORIZED_STATUS, 401);
}

#[test]
fn authorized_connection_answers_sequential_requests() {
    let mut server = start_test_server();
    let connection = server.connect_authorized();

    for id in ["req_1", "req_2"] {
        match server.ask(&connection, ping(id)) {
            Response::Success(answer) => {
                assert_eq!(answer.id, id);
                match answer.result {
                    ResponseResult::Pong { protocol, name, .. } => {
                        assert_eq!(protocol, PROTOCOL);
                        assert_eq!(name.as_deref(), Some(TEST_SERVER_NAME));
                    }
                    other => panic!("expected pong, got {other:?}"),
                }
            }
            other => panic!("expected pong, got {other:?}"),
        }
    }
}

#[test]
fn query_with_unknown_parameters_still_authenticates() {
    let mut server = start_test_server();
    let query = format!("token={TEST_TOKEN}&name=some%20server&future=1");
    let connection = server.handshake(None, Some(&query));
    assert!(is_pong(&server.ask(&connection, ping("req_extra")), "req_extra"));
}

#[test]
fn renaming_the_server_shows_in_the_next_pong_without_rebinding() {
    let mut server = start_test_server();
    let connection = server.connect_authorized();
    let name_of = |response: Response| match response {
        Response::Success(answer) => match answer.result {
            ResponseResult::Pong { name, .. } => name,
            other => panic!("expected pong, got {other:?}"),
        },
        other => panic!("expected pong, got {other:?}"),
    };

    let named = server.ask(&connection, ping("req_named"));
    assert_eq!(name_of(named).as_deref(), Some(TEST_SERVER_NAME));

    let changed = server.name.apply_reloaded_config(
        &WebSocketApiConfig {
            name: Some("renamed-server".to_string()),
            ..spec_config(Some("127.0.0.1:0"), Some(TEST_TOKEN))
        },
        &None,
    );
    assert!(changed);

    let renamed = server.ask(&connection, ping("req_renamed"));
    assert_eq!(name_of(renamed).as_deref(), Some("renamed-server"));
}

#[test]
fn query_parameter_token_authenticates_browser_style_clients() {
    let mut server = start_test_server();
    let query = format!("token={TEST_TOKEN}");
    let connection = server.handshake(None, Some(&query));
    assert!(is_pong(&server.ask(&connection, ping("req_q")), "req_q"));
}

#[test]
fn invalid_json_gets_error_frame_and_connection_stays_usable() {
    let mut server = start_test_server();
    let connection = server.connect_authorized();

    let error = read_request(Err("expected ident at line 1 column 2".to_string())).unwrap_err();
    assert_eq!(refusal(&error), ("", "invalid_request"));

    assert!(is_pong(&server.ask(&connection, ping("req_after")), "req_after"));
}

#[test]
fn subscription_connection_answers_interleaved_requests_and_keeps_streaming() {
    let mut server = start_test_server();
    let connection = server.connect_authorized();
    let subscribed = handle_parsed_request(
        subscribe("sub_live"),
        &connection,
        &mut server.registry,
        &moment(),
    );
    assert!(matches!(subscribed, Routed::Subscribe(_)));

    let response = server.ask_during_a_stream(&connection, ping("ping_during_stream"));
    assert!(is_pong(&response, "ping_during_stream"));

    let mut state = WsConnection::new(timing(), 0);
    assert_eq!(state.on_stream_frame(Frame::Text, 1), FrameStep::Serve);
    assert_eq!(stream_fault(WsFault::NotReady), Ok(PeerState::Alive));
}

#[test]
fn interleaved_stream_request_is_refused_without_killing_the_live_subscription() {
    let mut server = start_test_server();
    let connection = server.connect_authorized();

    let refused = server.ask_during_a_stream(&connection, subscribe("sub_second"));
    assert_eq!(refusal(&refused), ("sub_second", "stream_busy"));
    match &refused {
        Response::Error(error) => assert_eq!(
            error.error.message,
            "events.subscribe needs its own connection; this connection is already serving a stream"
        ),
        other => panic!("expected a refusal, got {other:?}"),
    }
    assert_eq!(stream_fault(WsFault::NotReady), Ok(PeerState::Alive));
}

#[test]
fn malformed_frame_during_a_stream_gets_the_same_invalid_request_refusal() {
    let mut server = start_test_server();
    let connection = server.connect_authorized();

    let error = read_request(Err("expected ident at line 1 column 2".to_string())).unwrap_err();
    assert_eq!(refusal(&error), ("", "invalid_request"));

    let response = server.ask_during_a_stream(&connection, ping("ping_extra_fields"));
    assert!(is_pong(&response, "ping_extra_fields"));
}

#[test]
fn binary_frame_during_a_stream_is_refused_without_killing_the_subscription() {
    let mut state = WsConnection::new(timing(), 0);
    assert_eq!(
        state.on_stream_frame(Frame::Binary, 1),
        FrameStep::RefuseBinary
    );
    assert_eq!(refusal(&binary_frame_refusal()), ("", "invalid_request"));
    assert_eq!(stream_fault(WsFault::NotReady), Ok(PeerState::Alive));
}

#[test]
fn close_frame_during_a_stream_still_ends_the_connection() {
    let mut state = WsConnection::new(timing(), 0);
    assert_eq!(state.on_stream_frame(Frame::Close, 1), FrameStep::End);
    assert_eq!(stream_fault(WsFault::ProtocolClosed), Ok(PeerState::Gone));
}

#[test]
fn rotating_the_token_rejects_the_old_token_without_rebinding() {
    let mut server = start_test_server();
    let pre_rotation = server.connect_authorized();

    let rotated = server
        .registry
        .apply_reloaded_config(&spec_config(Some("127.0.0.1:0"), Some("rotated-token")))
        .expect("a listener is attached")
        .unwrap();
    assert!(rotated);

    assert_eq!(
        authorize_ws_request(
            Some(&format!("Bearer {TEST_TOKEN}")),
            None,
            &mut server.registry,
            &moment()
        )
        .unwrap_err(),
        WsAuthError::WrongToken
    );

    let connection = server.handshake(Some("Bearer rotated-token"), None);
    assert!(is_pong(
        &server.ask(&connection, ping("req_rotated")),
        "req_rotated"
    ));
    assert!(is_pong(&server.ask(&pre_rotation, ping("req_pre")), "req_pre"));
}

#[test]
fn a_header_that_is_no_text_is_malformed() {
    let mut registry = test_registry();
    assert_eq!(
        authorize_upgrade(
            AuthorizationHeader::NotText,
            Some(&format!("token={TEST_TOKEN}")),
            &mut registry,
            &moment()
        )
        .unwrap_err(),
        WsAuthError::MalformedAuthorization
    );
    assert_eq!(
        WsAuthError::MalformedAuthorization.as_str(),
        "malformed_authorization"
    );
    assert_eq!(WsAuthError::MissingToken.as_str(), "missing_token");
    assert_eq!(WsAuthError::WrongToken.as_str(), "wrong_token");
}

#[test]
fn a_graphics_stream_is_refused_alike_between_requests_and_during_a_stream() {
    let mut server = start_test_server();
    let connection = server.connect_authorized();
    let graphics = || Request {
        id: "gfx".to_string(),
        method: Method::PaneGraphicsStream,
    };
    let between = server.ask(&connection, graphics());
    let during = server.ask_during_a_stream(&connection, graphics());
    assert_eq!(between, during);
    assert_eq!(refusal(&between), ("gfx", "unsupported_transport"));
}

// ---- Liveness and budgets ---------------------------------------------------------------------

fn timing() -> WsLivenessTiming {
    WsLivenessTiming {
        ping_after: 30,
        close_after: 90,
    }
}

#[test]
fn a_silent_client_is_pinged_and_then_let_go() {
    let mut liveness = WsLiveness::new(timing(), 100);
    assert_eq!(liveness.poll(129), LivenessStep::Rest);
    assert_eq!(liveness.poll(130), LivenessStep::Ping);
    liveness.mark_ping_sent(130);
    assert_eq!(liveness.poll(189), LivenessStep::Flush);
    assert_eq!(liveness.poll(190), LivenessStep::Reap);
    liveness.mark_inbound(189);
    assert_eq!(liveness.poll(190), LivenessStep::Rest);
    // A clock behind the last frame shows no silence.
    assert_eq!(liveness.poll(10), LivenessStep::Rest);
}

#[test]
fn liveness_settings_need_a_ping_before_the_close() {
    assert_eq!(
        ws_liveness_timing_from_env(Some("20"), Some("50")),
        Some((20, 50))
    );
    assert_eq!(
        ws_liveness_timing_from_env(Some("+20"), Some("50")),
        Some((20, 50))
    );
    for (ping, close) in [
        (None, Some("50")),
        (Some("20"), None),
        (Some("0"), Some("50")),
        (Some("50"), Some("50")),
        (Some("x"), Some("50")),
        (Some("20"), Some("18446744073709551616")),
    ] {
        assert_eq!(
            ws_liveness_timing_from_env(ping, close),
            None,
            "{ping:?} {close:?}"
        );
    }
    assert_eq!(ws_liveness_timing(None).ping_after, IDLE_PING_AFTER_NANOS);
    assert_eq!(ws_liveness_timing(None).close_after, IDLE_CLOSE_AFTER_NANOS);
    assert_eq!(ws_liveness_timing(Some((20, 50))).ping_after, 20_000_000);
}

#[test]
fn a_first_request_is_waited_for_until_its_deadline() {
    let mut connection = WsConnection::new(timing(), 0);
    let deadline = connection.first_request_deadline.unwrap();
    assert_eq!(deadline, 5_000_000_000);
    assert_eq!(connection.on_idle(1_000, false), IdleStep::Read);
    assert_eq!(connection.on_idle(deadline, false), IdleStep::TimeOut);

    // A control frame shows life without proving the connection.
    assert_eq!(connection.on_frame(Frame::Ping, 10), FrameStep::Flush);
    assert!(connection.first_request_deadline.is_some());
    assert_eq!(connection.on_frame(Frame::Binary, 20), FrameStep::RefuseBinary);
    assert!(connection.first_request_deadline.is_none());
    assert_eq!(
        connection.on_idle(50, false),
        IdleStep::Liveness(LivenessStep::Ping)
    );
    connection.ping_sent(50);
    assert_eq!(
        connection.on_idle(110, false),
        IdleStep::Liveness(LivenessStep::Reap)
    );
    assert_eq!(connection.on_frame(Frame::Raw, 111), FrameStep::Skip);
    assert_eq!(connection.on_frame(Frame::Close, 112), FrameStep::End);
}

#[test]
fn a_revocation_verdict_is_written_once() {
    let mut connection = WsConnection::new(timing(), 0);
    assert_eq!(connection.pump(false), PumpStep::Read);
    assert_eq!(connection.pump(true), PumpStep::VerdictThenGone);
    assert_eq!(connection.pump(true), PumpStep::Gone);
    assert_eq!(connection.on_idle(1, true), IdleStep::End);

    let mut idle = WsConnection::new(timing(), 0);
    assert_eq!(idle.on_idle(1, true), IdleStep::VerdictThenEnd);
    assert_eq!(idle.on_idle(2, true), IdleStep::End);
}

#[test]
fn a_read_waits_no_longer_than_it_may() {
    assert_eq!(read_budget(None, 7), Some(POLL_INTERVAL_NANOS));
    assert_eq!(read_budget(Some(10), 10), None);
    assert_eq!(read_budget(Some(11), 10), Some(NANOS_PER_MILLI));
    assert_eq!(read_budget(Some(50_000_010), 10), Some(50_000_000));
    assert_eq!(read_budget(Some(500_000_000), 10), Some(POLL_INTERVAL_NANOS));
    assert_eq!(read_deadline(0, 5), 5 + NANOS_PER_MILLI);
    assert_eq!(read_deadline(7_000_000, 5), 7_000_005);
}

#[test]
fn a_budget_is_one_for_the_whole_operation() {
    assert_eq!(timeout_until(20_000_000, 5_000_000, BudgetKind::Read), Ok(15_000_000));
    assert_eq!(timeout_until(20, 10, BudgetKind::Read), Ok(NANOS_PER_MILLI));
    assert_eq!(
        timeout_until(20, 20, BudgetKind::Read),
        Err("websocket read budget expired")
    );
    assert_eq!(
        timeout_until(20, 21, BudgetKind::Write),
        Err("websocket write budget expired")
    );
}

#[test]
fn a_slow_client_is_flushed_until_the_deadline() {
    assert_eq!(write_step(None, 0, 100), WriteStep::Done);
    assert_eq!(
        write_step(Some(WsFault::NotReady), 0, 100_000_000),
        WriteStep::FlushAfter(FLUSH_RETRY_NANOS)
    );
    assert_eq!(
        write_step(Some(WsFault::NotReady), 0, 100),
        WriteStep::FlushAfter(100)
    );
    assert_eq!(
        write_step(Some(WsFault::NotReady), 100, 100),
        WriteStep::TimeOut
    );
    assert_eq!(
        write_step(Some(WsFault::ProtocolClosed), 0, 100),
        WriteStep::Closed
    );
    assert_eq!(
        write_step(Some(WsFault::Other("bad".to_string())), 0, 100),
        WriteStep::Fail("bad".to_string())
    );
}

#[test]
fn faults_are_told_apart() {
    assert_eq!(classify_ws_error(WsFault::NotReady), WsErrorClass::WouldBlock);
    for closed in [
        WsFault::ProtocolClosed,
        WsFault::ResetWithoutClosing,
        WsFault::SocketClosed("broken pipe".to_string()),
    ] {
        assert_eq!(classify_ws_error(closed), WsErrorClass::Closed);
    }
    assert_eq!(flush_outcome(None), Written::Done);
    assert_eq!(flush_outcome(Some(WsFault::NotReady)), Written::Done);
    assert_eq!(flush_outcome(Some(WsFault::ProtocolClosed)), Written::Closed);
    assert_eq!(
        flush_outcome(Some(WsFault::Other("bad".to_string()))),
        Written::Failed("bad".to_string())
    );
    assert_eq!(
        stream_fault(WsFault::Other("bad".to_string())),
        Err("bad".to_string())
    );
    assert_eq!(restore_result::<u8, &str>(Ok(1), Err("late")), Err("late"));
    assert_eq!(
        restore_result::<u8, &str>(Err("first"), Err("late")),
        Err("first")
    );
    assert_eq!(restore_result::<u8, &str>(Ok(1), Ok(())), Ok(1));
}

#[test]
fn a_listener_goes_on_until_it_fails_or_the_server_stops() {
    assert_eq!(listener_step(true, AcceptEvent::Accepted), ListenerStep::Serve);
    assert_eq!(listener_step(true, AcceptEvent::WouldBlock), ListenerStep::Wait);
    assert_eq!(listener_step(true, AcceptEvent::Interrupted), ListenerStep::Retry);
    assert_eq!(listener_step(true, AcceptEvent::Failed), ListenerStep::Stop);
    assert_eq!(listener_step(false, AcceptEvent::Accepted), ListenerStep::Stop);
}

#[test]
fn a_bind_is_retried_while_the_address_is_in_use() {
    let text: Vec<char> = "127.0.0.1:4433".chars().collect();
    let addr = SocketAddress::parse(&text).unwrap();
    assert_eq!(bind_step(&addr, BindOutcome::Bound, 9, 10), BindStep::Bound);
    assert_eq!(
        bind_step(&addr, BindOutcome::InUse("in use".to_string()), 9, 10),
        BindStep::Retry(BIND_RETRY_INTERVAL_NANOS)
    );
    assert_eq!(
        bind_step(&addr, BindOutcome::InUse("in use".to_string()), 10, 10),
        BindStep::Fail(
            "failed to bind websocket api listener on 127.0.0.1:4433: in use".to_string()
        )
    );
    assert_eq!(
        bind_step(&addr, BindOutcome::Failed("denied".to_string()), 0, 10),
        BindStep::Fail(
            "failed to bind websocket api listener on 127.0.0.1:4433: denied".to_string()
        )
    );
}

#[test]
fn a_handshake_is_resumed_until_its_deadline() {
    assert_eq!(
        handshake_step(HandshakeProgress::Interrupted, 9, 10),
        HandshakeStep::Resume
    );
    assert_eq!(
        handshake_step(HandshakeProgress::Interrupted, 10, 10),
        HandshakeStep::TimeOut
    );
    assert_eq!(
        handshake_step(HandshakeProgress::Upgraded, 10, 10),
        HandshakeStep::Serve
    );
    assert_eq!(
        handshake_step(HandshakeProgress::Failed, 0, 10),
        HandshakeStep::Fail
    );
}
