use herdr::activation::{
    activation_report, apply_token_to_running_server, control_sockets_for_config,
    decide_activation, probe_token, reload_config_at, reload_config_of_owning_server,
    ActivationProgress, ActivationStep, ConfigReload, ControlSockets, PreviousTokenProof,
    ProbeEvent, ReloadReply, ReloadStep, TokenActivation, TokenProof,
};
use herdr::config::{upsert_section_value, WebSocketApiConfig};
use herdr::credentials::{Moment, SharedCredentialRegistry};
use herdr::encoding::valid_token_chars;
use herdr::endpoint::SharedAdvertisedEndpoint;
use herdr::net::SocketAddress;
use herdr::pair_command::{
    pair_help, pairing_output, plan_pairing, prepare_pairing, prepared_with, report_pairing,
    run_pair_command, storable, store_token, unreadable_config, PairRequest, PairingRefusal,
};
use herdr::pairing::{
    advertised_endpoint, explain_qr, local_listener_address, mint_token, pairing_endpoint,
    percent_encode_query_value, qr_code_text, rotate_token_in_config, token_of, PairingPayload,
    PairingUnavailable,
};
use herdr::paths::parent_of;
use herdr::token::SharedWebSocketToken;
use herdr::websocket_auth::{authorize_upgrade, AuthorizationHeader, UNAUTHORIZED_STATUS};

fn addr(value: &str) -> SocketAddress {
    let chars: Vec<char> = value.chars().collect();
    SocketAddress::parse(&chars).unwrap()
}

/// The `[websocket_api]` table of a config file.
fn websocket_api(content: &str) -> toml::Table {
    let config: toml::Table = toml::from_str(content).unwrap();
    config
        .get("websocket_api")
        .and_then(|section| section.as_table())
        .unwrap()
        .clone()
}


#[test]
fn minted_tokens_are_long_urlsafe_and_unique() {
    let first = mint_token().unwrap();
    let second = mint_token().unwrap();

    assert_eq!(first.len(), 43, "{first}");
    assert!(valid_token_chars(&first), "{first}");
    assert_ne!(first, second, "two mints must not collide");
}

fn declared(advertised: &str) -> Result<String, String> {
    match advertised_endpoint(Some(advertised)) {
        Ok(Some(endpoint)) => Ok(endpoint),
        Ok(None) => panic!("{advertised:?} was read as undeclared"),
        Err(PairingUnavailable::InvalidAdvertisedEndpoint {
            advertised: value,
            reason,
        }) => {
            assert_eq!(value, advertised.trim(), "the refusal must quote the value");
            Err(reason)
        }
        Err(other) => {
            panic!("{advertised:?}: expected InvalidAdvertisedEndpoint, got {other:?}")
        }
    }
}

#[test]
fn pairing_endpoint_requires_a_configured_bind() {
    assert_eq!(
        pairing_endpoint(None, false),
        Err(PairingUnavailable::NotConfigured)
    );
    assert_eq!(
        pairing_endpoint(Some(""), false),
        Err(PairingUnavailable::NotConfigured)
    );
    assert_eq!(
        pairing_endpoint(None, true),
        Err(PairingUnavailable::NotConfigured)
    );
}

#[test]
fn pairing_endpoint_rejects_unparseable_binds() {
    match pairing_endpoint(Some("not-an-address"), false) {
        Err(PairingUnavailable::InvalidBind { bind, .. }) => assert_eq!(bind, "not-an-address"),
        other => panic!("expected InvalidBind, got {other:?}"),
    }
}

#[test]
fn pairing_endpoint_rejects_addresses_that_cannot_be_dialed_as_printed() {
    for bind in ["0.0.0.0:4433", "[::]:4433"] {
        match pairing_endpoint(Some(bind), false) {
            Err(PairingUnavailable::UnusableBind { reason, .. }) => {
                assert!(reason.contains("wildcard"), "{bind}: {reason}");
            }
            other => panic!("{bind}: expected UnusableBind, got {other:?}"),
        }
    }

    match pairing_endpoint(Some("127.0.0.1:0"), false) {
        Err(PairingUnavailable::UnusableBind { reason, .. }) => {
            assert!(reason.contains("port 0"), "{reason}");
        }
        other => panic!("expected UnusableBind, got {other:?}"),
    }
}

#[test]
fn a_wildcard_bind_is_usable_once_an_endpoint_is_advertised() {
    for bind in ["0.0.0.0:4433", "[::]:4433"] {
        assert_eq!(
            pairing_endpoint(Some(bind), true),
            Ok(addr(bind)),
            "{bind} must be accepted when an endpoint is advertised"
        );
    }

    for advertised in [false, true] {
        match pairing_endpoint(Some("0.0.0.0:0"), advertised) {
            Err(PairingUnavailable::UnusableBind { reason, .. }) => {
                assert!(reason.contains("port 0"), "{advertised}: {reason}");
            }
            other => panic!("{advertised}: expected UnusableBind, got {other:?}"),
        }
    }
}

#[test]
fn the_token_is_installed_on_loopback_when_the_listener_binds_the_wildcard() {
    assert_eq!(
        local_listener_address(addr("0.0.0.0:4433")),
        addr("127.0.0.1:4433")
    );
    assert_eq!(
        local_listener_address(addr("[::]:4433")),
        addr("[::1]:4433")
    );

    for bind in ["100.64.0.5:4433", "127.0.0.1:4433", "[fd7a::1]:8443"] {
        assert_eq!(local_listener_address(addr(bind)), addr(bind), "{bind}");
    }
}

#[test]
fn pairing_endpoint_accepts_concrete_addresses() {
    assert_eq!(
        pairing_endpoint(Some("100.64.0.5:4433"), false),
        Ok(addr("100.64.0.5:4433"))
    );
    assert_eq!(
        pairing_endpoint(Some("[::1]:4433"), false),
        Ok(addr("[::1]:4433"))
    );
}

#[test]
fn payload_url_carries_endpoint_token_and_name_in_connectable_form() {
    let payload = PairingPayload {
        endpoint: "ws://100.64.0.5:4433".to_string(),
        token: "abcDEF123-_".to_string(),
        name: "the-mini".to_string(),
    };
    assert_eq!(payload.endpoint, "ws://100.64.0.5:4433");
    assert_eq!(
        payload.url(),
        "ws://100.64.0.5:4433/?token=abcDEF123-_&name=the-mini"
    );

    let ipv6 = PairingPayload {
        endpoint: "ws://[::1]:4433".to_string(),
        token: "t".to_string(),
        name: "n".to_string(),
    };
    assert_eq!(ipv6.url(), "ws://[::1]:4433/?token=t&name=n");
}

#[test]
fn payload_percent_encodes_the_name_and_keeps_the_endpoint_bare() {
    let payload = PairingPayload {
        endpoint: "ws://100.64.0.5:4433".to_string(),
        token: "tok".to_string(),
        name: "Can's Mini (büro)".to_string(),
    };

    assert_eq!(
        payload.url(),
        "ws://100.64.0.5:4433/?token=tok&name=Can%27s%20Mini%20%28b%C3%BCro%29"
    );
    assert_eq!(payload.endpoint, "ws://100.64.0.5:4433");
}

#[test]
fn without_an_advertised_endpoint_the_payload_url_is_bind_derived() {
    assert_eq!(advertised_endpoint(None), Ok(None));

    for unset in ["", "   "] {
        assert_eq!(advertised_endpoint(Some(unset)), Ok(None), "{unset:?}");
    }

    let payload = PairingPayload {
        endpoint: format!("ws://{}", addr("100.64.0.5:4433").to_text()),
        token: "tok".to_string(),
        name: "the-mini".to_string(),
    };
    assert_eq!(payload.endpoint, "ws://100.64.0.5:4433");
    assert_eq!(
        payload.url(),
        "ws://100.64.0.5:4433/?token=tok&name=the-mini"
    );
}

#[test]
fn an_advertised_endpoint_replaces_the_bind_derived_url() {
    let endpoint = declared("wss://a-host.example.ts.net").unwrap();
    assert_eq!(endpoint, "wss://a-host.example.ts.net");

    let payload = PairingPayload {
        endpoint,
        token: "abcDEF123-_".to_string(),
        name: "the mini".to_string(),
    };
    assert_eq!(
        payload.url(),
        "wss://a-host.example.ts.net/?token=abcDEF123-_&name=the%20mini"
    );
}

#[test]
fn an_advertised_path_survives_the_appended_token() {
    let endpoint = declared("wss://a-host.example.ts.net/herdr-ws").unwrap();
    assert_eq!(endpoint, "wss://a-host.example.ts.net/herdr-ws");

    let payload = PairingPayload {
        endpoint,
        token: "abcDEF123-_".to_string(),
        name: "the mini".to_string(),
    };
    assert_eq!(
        payload.url(),
        "wss://a-host.example.ts.net/herdr-ws?token=abcDEF123-_&name=the%20mini"
    );

    let with_slash = PairingPayload {
        endpoint: declared("wss://a-host.example.ts.net/herdr-ws/").unwrap(),
        token: "abcDEF123-_".to_string(),
        name: "the mini".to_string(),
    };
    assert_eq!(with_slash.url(), payload.url());
}

#[test]
fn a_path_of_only_a_slash_is_the_same_url_as_no_path() {
    for (with_slash, without) in [
        (
            "wss://a-host.example.ts.net/",
            "wss://a-host.example.ts.net",
        ),
        (
            "wss://a-host.example.ts.net:8443/",
            "wss://a-host.example.ts.net:8443",
        ),
        ("wss://[fd7a::1]:8443/", "wss://[fd7a::1]:8443"),
    ] {
        assert_eq!(declared(with_slash), declared(without), "{with_slash:?}");

        let payload = |endpoint: String| PairingPayload {
            endpoint,
            token: "tok".to_string(),
            name: "the-mini".to_string(),
        };
        assert_eq!(
            payload(declared(with_slash).unwrap()).url(),
            payload(declared(without).unwrap()).url(),
            "{with_slash:?}"
        );
    }
}

#[test]
fn an_endpoint_without_a_path_keeps_the_pairing_url_it_has_always_had() {
    let payload = |endpoint: &str| {
        PairingPayload {
            endpoint: endpoint.to_string(),
            token: "abcDEF123-_".to_string(),
            name: "the-mini".to_string(),
        }
        .url()
    };

    assert_eq!(
        payload("ws://100.64.0.5:4433"),
        "ws://100.64.0.5:4433/?token=abcDEF123-_&name=the-mini"
    );
    assert_eq!(
        payload("wss://a-host.example.ts.net:8443"),
        "wss://a-host.example.ts.net:8443/?token=abcDEF123-_&name=the-mini"
    );
    assert_eq!(
        payload("ws://[fd7a::1]:4433"),
        "ws://[fd7a::1]:4433/?token=abcDEF123-_&name=the-mini"
    );
}

fn accepted_endpoints() -> Vec<(&'static str, &'static str)> {
    vec![
        ("wss://a-host", "wss://a-host"),
        ("wss://a-host.example.ts.net", "wss://a-host.example.ts.net"),
        ("ws://a-host.example.ts.net", "ws://a-host.example.ts.net"),
        (
            "wss://a-host-2.tailnet-name.ts.net:8443",
            "wss://a-host-2.tailnet-name.ts.net:8443",
        ),
        (
            "wss://an_internal.host.local",
            "wss://an_internal.host.local",
        ),
        ("wss://a-host.example.net.", "wss://a-host.example.net."),
        (
            "wss://xn--nave-6pa.example.net",
            "wss://xn--nave-6pa.example.net",
        ),
        ("wss://100.64.0.5", "wss://100.64.0.5"),
        ("wss://100.64.0.5:8443", "wss://100.64.0.5:8443"),
        ("wss://0.0.0.0", "wss://0.0.0.0"),
        ("wss://255.255.255.255:1", "wss://255.255.255.255:1"),
        ("wss://[fd7a::1]", "wss://[fd7a::1]"),
        ("wss://[fd7a::1]:8443", "wss://[fd7a::1]:8443"),
        (
            "wss://a-host.example.ts.net/",
            "wss://a-host.example.ts.net",
        ),
        (
            "  wss://a-host.example.ts.net  ",
            "wss://a-host.example.ts.net",
        ),
        ("WSS://a-host.example.ts.net", "wss://a-host.example.ts.net"),
        (
            "wss://a-host.example.ts.net/herdr-ws",
            "wss://a-host.example.ts.net/herdr-ws",
        ),
        (
            "wss://a-host-2.tailnet-name.ts.net/herdr-ws",
            "wss://a-host-2.tailnet-name.ts.net/herdr-ws",
        ),
        (
            "wss://a-host.example.ts.net/herdr-ws/",
            "wss://a-host.example.ts.net/herdr-ws",
        ),
        (
            "wss://a-host.example.ts.net:8443/herdr-ws",
            "wss://a-host.example.ts.net:8443/herdr-ws",
        ),
        ("wss://100.64.0.5/herdr-ws", "wss://100.64.0.5/herdr-ws"),
        (
            "wss://[fd7a::1]:8443/herdr-ws",
            "wss://[fd7a::1]:8443/herdr-ws",
        ),
        (
            "wss://a-host.example.ts.net/api/v1/herdr-ws",
            "wss://a-host.example.ts.net/api/v1/herdr-ws",
        ),
        (
            "wss://a-host.example.ts.net/Herdr_ws-2.0~x",
            "wss://a-host.example.ts.net/Herdr_ws-2.0~x",
        ),
        (
            "wss://a-host.example.ts.net/...",
            "wss://a-host.example.ts.net/...",
        ),
        (
            "  WSS://a-host.example.ts.net/herdr-ws/  ",
            "wss://a-host.example.ts.net/herdr-ws",
        ),
    ]
}

#[test]
fn an_advertised_endpoint_keeps_the_configured_scheme_host_port_and_path() {
    for (configured, expected) in accepted_endpoints() {
        assert_eq!(
            declared(configured),
            Ok(expected.to_string()),
            "{configured:?}"
        );
    }
}

fn client_server_key(url: &str) -> (String, String, String) {
    let (scheme, rest) = url.split_once("://").expect("a scheme");
    let rest = rest.split_once('?').map_or(rest, |(before, _)| before);
    match rest.split_once('/') {
        Some((authority, path)) => (
            scheme.to_string(),
            authority.to_string(),
            format!("/{path}"),
        ),
        None => (scheme.to_string(), rest.to_string(), "/".to_string()),
    }
}

#[test]
fn the_pong_and_the_pairing_url_name_the_same_server() {
    for (configured, canonical) in accepted_endpoints() {
        let published = SharedAdvertisedEndpoint::from_config(
            &WebSocketApiConfig {
                advertised_endpoint: Some(configured.to_string()),
                ..WebSocketApiConfig::default()
            },
        )
        .current()
        .unwrap_or_else(|| panic!("{configured:?} must be published in the pong"));
        assert_eq!(published, canonical, "{configured:?}");

        let payload = PairingPayload {
            endpoint: declared(configured).expect("an accepted endpoint"),
            token: "abcDEF123-_".to_string(),
            name: "Can's Mini (büro)".to_string(),
        };
        let dialled = payload.url();

        assert_eq!(
            client_server_key(&dialled),
            client_server_key(&published),
            "{configured:?}: the pong publishes {published}, the qr dials {dialled}"
        );
        assert!(
            dialled.starts_with(&published),
            "{configured:?}: {dialled} must begin with the published endpoint"
        );
    }
}

#[test]
fn a_malformed_advertised_endpoint_refuses_to_print_a_payload() {
    fn row(configured: &str, refusal: &str) -> (String, String) {
        (configured.to_string(), refusal.to_string())
    }

    let long_label = "a".repeat(63);
    let over_long_name = [long_label.as_str(); 4].join(".");
    let over_long_label = "a".repeat(64);

    let mut rows = vec![
        row("a-host.example.ts.net", "expected a ws:// or wss:// url"),
        row("https://a-host.example.ts.net", "a websocket client cannot dial https://; use ws:// or wss://"),
        row("wss://", "no host to dial; declare scheme, host, and optional port, e.g. wss://a-host.example.net:8443"),
        row("wss://a host.example.ts.net", "a url cannot contain whitespace; declare it as one unbroken url, e.g. wss://a-host.example.net:8443"),
        row("wss://a-host.example.ts.net/herdr ws", "a url cannot contain whitespace; declare it as one unbroken url, e.g. wss://a-host.example.net:8443"),
        row("wss://user@a-host.example.ts.net", "credentials do not belong in a pairing endpoint; declare the host alone and let the token carry authorization, e.g. wss://a-host.example.net:8443"),
        row("wss://user@a-host.example.ts.net/herdr-ws", "credentials do not belong in a pairing endpoint; declare the host alone and let the token carry authorization, e.g. wss://a-host.example.net:8443"),
        row("wss://a-host.example.ts.net/?token=x", "a query would collide with the token the pairing payload appends; declare scheme, host, optional port, and optional path only, e.g. wss://a-host.example.net/herdr-ws"),
        row("wss://a-host.example.ts.net/herdr-ws?x=1", "a query would collide with the token the pairing payload appends; declare scheme, host, optional port, and optional path only, e.g. wss://a-host.example.net/herdr-ws"),
        row("wss://a-host.example.ts.net/herdr-ws#frag", "a fragment is never sent to a server, so it cannot be part of the url a client dials; declare scheme, host, optional port, and optional path only, e.g. wss://a-host.example.net/herdr-ws"),
        row("wss://a-host.example.ts.net/herdr-ws?x=1#frag", "a query would collide with the token the pairing payload appends; declare scheme, host, optional port, and optional path only, e.g. wss://a-host.example.net/herdr-ws"),
        row("wss://a-host.example.ts.net/herdr-ws#frag?x=1", "a fragment is never sent to a server, so it cannot be part of the url a client dials; declare scheme, host, optional port, and optional path only, e.g. wss://a-host.example.net/herdr-ws"),
        row("wss://a-host\\api", "a backslash is read as a path separator, so a client would dial a url spelled differently than the one declared; write path separators as forward slashes, e.g. wss://a-host.example.net/herdr-ws"),
        row("wss://a-host.example.ts.net/herdr\\ws", "a backslash is read as a path separator, so a client would dial a url spelled differently than the one declared; write path separators as forward slashes, e.g. wss://a-host.example.net/herdr-ws"),
        row("wss:///herdr-ws", "no host to dial; declare scheme, host, and optional port, e.g. wss://a-host.example.net:8443"),
        row("wss://a-host.example.ts.net/api/../herdr-ws", "\"..\" is resolved away before a client dials, so it would dial a different path than the one declared; write the path out, e.g. wss://a-host.example.net/herdr-ws"),
        row("wss://a-host.example.ts.net/./herdr-ws", "\".\" is resolved away before a client dials, so it would dial a different path than the one declared; write the path out, e.g. wss://a-host.example.net/herdr-ws"),
        row("wss://a-host.example.ts.net/herdr-ws/..", "\"..\" is resolved away before a client dials, so it would dial a different path than the one declared; write the path out, e.g. wss://a-host.example.net/herdr-ws"),
        row("wss://a-host.example.ts.net/api//herdr-ws", "a path segment cannot be empty; write single slashes between the segments, e.g. wss://a-host.example.net/herdr-ws"),
        row("wss://a-host.example.ts.net//", "a path segment cannot be empty; write single slashes between the segments, e.g. wss://a-host.example.net/herdr-ws"),
        row("wss://a-host.example.ts.net/herdr-ws//", "a path segment cannot be empty; write single slashes between the segments, e.g. wss://a-host.example.net/herdr-ws"),
        row("wss://a-host.example.ts.net/herdr%2Fws", "a percent escape is not preserved identically by every client and proxy, so the path dialled would not reliably be the one declared; write the path in plain characters, e.g. wss://a-host.example.net/herdr-ws"),
        row("wss://a-host.example.ts.net/herdr@ws", "\"herdr@ws\" is not a path segment this endpoint can promise to round-trip; a path may hold only ascii letters, digits, hyphens, dots, underscores, and tildes, which every client dials unchanged, e.g. wss://a-host.example.net/herdr-ws"),
        row("wss://a-host.example.ts.net/naïve", "\"naïve\" is not a path segment this endpoint can promise to round-trip; a path may hold only ascii letters, digits, hyphens, dots, underscores, and tildes, which every client dials unchanged, e.g. wss://a-host.example.net/herdr-ws"),
        row("wss://[fd7a::1", "unterminated ipv6 literal; brackets must be closed, e.g. wss://[fd7a::1]:8443"),
        row("wss://[fd7a::1]x", "expected a port after the ipv6 literal, found \"x\"; write it as wss://[fd7a::1]:8443"),
        row("wss://fd7a::1", "an ipv6 literal must be wrapped in brackets, e.g. wss://[fd7a::1]:8443"),
        row("wss://[not-an-ip]", "\"not-an-ip\" is bracketed but is not an ipv6 address, and brackets are only for ipv6 literals; write an address as wss://[fd7a::1]:8443 or a name without brackets as wss://a-host.example.net:8443"),
        row("wss://[not-an-ip]:8443", "\"not-an-ip\" is bracketed but is not an ipv6 address, and brackets are only for ipv6 literals; write an address as wss://[fd7a::1]:8443 or a name without brackets as wss://a-host.example.net:8443"),
        row("wss://[]", "\"\" is bracketed but is not an ipv6 address, and brackets are only for ipv6 literals; write an address as wss://[fd7a::1]:8443 or a name without brackets as wss://a-host.example.net:8443"),
        row("wss://:8443", "no host to dial; declare scheme, host, and optional port, e.g. wss://a-host.example.net:8443"),
        row("wss://0x7f000001", "\"0x7f000001\" is read as an ipv4 address, not a name, because it ends in a number, and a client would refuse it or dial a different address than it spells; write it as four plain decimal octets 0-255 with no leading zeros and no trailing dot, e.g. 100.64.0.5"),
        row("wss://proxy.0x10", "\"proxy.0x10\" is read as an ipv4 address, not a name, because it ends in a number, and a client would refuse it or dial a different address than it spells; write it as four plain decimal octets 0-255 with no leading zeros and no trailing dot, e.g. 100.64.0.5"),
        row("wss://127.1", "\"127.1\" is read as an ipv4 address, not a name, because it ends in a number, and a client would refuse it or dial a different address than it spells; write it as four plain decimal octets 0-255 with no leading zeros and no trailing dot, e.g. 100.64.0.5"),
        row("wss://192.0.2.1.", "\"192.0.2.1.\" is read as an ipv4 address, not a name, because it ends in a number, and a client would refuse it or dial a different address than it spells; write it as four plain decimal octets 0-255 with no leading zeros and no trailing dot, e.g. 100.64.0.5"),
        row("wss://010.0.0.1", "\"010.0.0.1\" is read as an ipv4 address, not a name, because it ends in a number, and a client would refuse it or dial a different address than it spells; write it as four plain decimal octets 0-255 with no leading zeros and no trailing dot, e.g. 100.64.0.5"),
        row("wss://10.0.0.05", "\"10.0.0.05\" is read as an ipv4 address, not a name, because it ends in a number, and a client would refuse it or dial a different address than it spells; write it as four plain decimal octets 0-255 with no leading zeros and no trailing dot, e.g. 100.64.0.5"),
        row("wss://0177.0.0.1", "\"0177.0.0.1\" is read as an ipv4 address, not a name, because it ends in a number, and a client would refuse it or dial a different address than it spells; write it as four plain decimal octets 0-255 with no leading zeros and no trailing dot, e.g. 100.64.0.5"),
        row("wss://10.0.0.999", "\"10.0.0.999\" is read as an ipv4 address, not a name, because it ends in a number, and a client would refuse it or dial a different address than it spells; write it as four plain decimal octets 0-255 with no leading zeros and no trailing dot, e.g. 100.64.0.5"),
        row("wss://1.2.3.4.5", "\"1.2.3.4.5\" is read as an ipv4 address, not a name, because it ends in a number, and a client would refuse it or dial a different address than it spells; write it as four plain decimal octets 0-255 with no leading zeros and no trailing dot, e.g. 100.64.0.5"),
        row("wss://a-host..example.net", "\"a-host..example.net\" has an empty label, and a host name cannot contain \"..\" or start with a dot; write the labels out, e.g. wss://a-host.example.net:8443"),
        row("wss://.example.net", "\".example.net\" has an empty label, and a host name cannot contain \"..\" or start with a dot; write the labels out, e.g. wss://a-host.example.net:8443"),
        row("wss://-a-host.example.net", "\"-a-host.example.net\" has a label starting or ending with a hyphen, which is not a resolvable name; hyphens may only sit inside a label, e.g. wss://a-host.example.net:8443"),
        row("wss://a-host-.example.net", "\"a-host-.example.net\" has a label starting or ending with a hyphen, which is not a resolvable name; hyphens may only sit inside a label, e.g. wss://a-host.example.net:8443"),
        row("wss://naïve.example.net", "\"naïve.example.net\" is not an ipv4 literal, a bracketed ipv6 literal, or a host name; a name may hold only ascii letters, digits, hyphens, and underscores. A non-ascii name has to be declared in its punycode (xn--) form, which is what a client resolves it to anyway"),
        row("wss://a$host.example.net", "\"a$host.example.net\" is not an ipv4 literal, a bracketed ipv6 literal, or a host name; a name may hold only ascii letters, digits, hyphens, and underscores. A non-ascii name has to be declared in its punycode (xn--) form, which is what a client resolves it to anyway"),
        row("wss://a-host.example.ts.net:https", "\"https\" is not a port a client could dial; write plain digits, e.g. 8443"),
        row("wss://a-host.example.ts.net:+443", "\"+443\" is not a port a client could dial; write plain digits, e.g. 8443"),
        row("wss://a-host.example.ts.net:", "\"\" is not a port a client could dial; write plain digits, e.g. 8443"),
        row("wss://a-host.example.ts.net:0443", "\"0443\" has a leading zero, which a client strips before dialling; write the port plainly, e.g. 443"),
        row("wss://a-host.example.ts.net:00", "\"00\" is not a port a client could dial; use a port in 1-65535, e.g. 8443"),
        row("wss://a-host.example.ts.net:099999", "\"099999\" is not a port a client could dial; use a port in 1-65535, e.g. 8443"),
        row("wss://a-host.example.ts.net:0", "\"0\" is not a port a client could dial; use a port in 1-65535, e.g. 8443"),
        row("wss://a-host.example.ts.net:99999", "\"99999\" is not a port a client could dial; use a port in 1-65535, e.g. 8443"),
    ];
    rows.push(row(
        &format!("wss://{over_long_name}"),
        "a host name cannot exceed 253 characters; declare the name the proxy actually serves, e.g. wss://a-host.example.net:8443",
    ));
    rows.push(row(
        &format!("wss://{over_long_label}"),
        &format!(
            "{over_long_label:?} has a label longer than 63 characters, which no \
             resolver accepts; keep each label at 63 or fewer, \
             e.g. wss://a-host.example.net:8443"
        ),
    ));

    for (configured, expected) in rows {
        let refusal = declared(&configured)
            .expect_err(&format!("{configured:?} must be refused, not encoded"));
        assert_eq!(refusal, expected, "refusal text for {configured:?}");
    }
}

#[test]
fn invalid_advertised_endpoint_explanation_names_the_config_and_the_fix() {
    let explanation = PairingUnavailable::InvalidAdvertisedEndpoint {
        advertised: "https://a-host.example.ts.net".to_string(),
        reason: "only ws:// or wss:// urls can be dialed".to_string(),
    }
    .explanation("/home/u/config.toml");

    assert!(explanation.contains("advertised_endpoint"));
    assert!(explanation.contains("https://a-host.example.ts.net"));
    assert!(explanation.contains("only ws:// or wss:// urls can be dialed"));
    assert!(explanation.contains("/home/u/config.toml"));
    assert!(!explanation.contains("?token="));
}

#[test]
fn percent_encoding_escapes_everything_outside_the_unreserved_set() {
    assert_eq!(
        percent_encode_query_value("plain-Name_0.~"),
        "plain-Name_0.~"
    );
    assert_eq!(percent_encode_query_value("a b"), "a%20b");
    assert_eq!(percent_encode_query_value("a&b=c?d#e"), "a%26b%3Dc%3Fd%23e");
    assert_eq!(percent_encode_query_value("naïve"), "na%C3%AFve");
    assert_eq!(percent_encode_query_value(""), "");
}

#[test]
fn rotation_replaces_the_stored_token_and_preserves_the_rest() {
    let content = "# comment\n[websocket_api]\nbind = \"127.0.0.1:4433\"\ntoken = \"old-token\"\n\n[ui]\nmouse_capture = true\n";

    let updated = rotate_token_in_config(content, "new-token");

    let config = websocket_api(&updated);
    assert_eq!(config.get("token").and_then(|value| value.as_str()), Some("new-token"));
    assert!(!updated.contains("old-token"), "{updated}");
    assert!(updated.contains("# comment"));
    assert!(updated.contains("mouse_capture = true"));
    assert_eq!(config.get("bind").and_then(|value| value.as_str()), Some("127.0.0.1:4433"));
}

#[test]
fn rotation_adds_a_token_when_the_section_has_none() {
    let content = "[websocket_api]\nbind = \"127.0.0.1:4433\"\n";

    let updated = rotate_token_in_config(content, "first-token");

    let config = websocket_api(&updated);
    assert_eq!(config.get("token").and_then(|value| value.as_str()), Some("first-token"));
    assert_eq!(config.get("bind").and_then(|value| value.as_str()), Some("127.0.0.1:4433"));
}

#[test]
fn rotating_twice_keeps_only_the_latest_token() {
    let content = "[websocket_api]\nbind = \"127.0.0.1:4433\"\n";

    let first = rotate_token_in_config(content, "token-one");
    let second = rotate_token_in_config(&first, "token-two");

    let config = websocket_api(&second);
    assert_eq!(config.get("token").and_then(|value| value.as_str()), Some("token-two"));
    assert!(!second.contains("token-one"), "{second}");
}

#[test]
fn not_configured_explanation_names_the_required_config() {
    let explanation =
        PairingUnavailable::NotConfigured.explanation("/home/u/config.toml");

    assert!(explanation.contains("[websocket_api]"));
    assert!(explanation.contains("bind = "));
    assert!(explanation.contains("/home/u/config.toml"));
    assert!(explanation.contains("herdr pair"));
    assert!(!explanation.contains("?token="));

    let pair_step = explanation.find("herdr pair").unwrap();
    let start_step = explanation.find("start (or restart)").unwrap();
    assert!(pair_step < start_step, "{explanation}");
}

#[test]
fn qr_renders_the_pairing_url_as_terminal_blocks() {
    let qr = qr_code_text("ws://100.64.0.5:4433/?token=abc").unwrap();

    assert!(qr.lines().count() > 10, "{qr}");
    assert!(
        qr.contains('█') || qr.contains('▀') || qr.contains('▄'),
        "expected unicode block modules: {qr}"
    );
}

#[test]
fn the_control_socket_follows_the_config_being_written() {
    let ambient = "/home/u/.config/herdr/herdr.sock".to_string();
    let environment_config = "/home/u/.config/herdr/config.toml".to_string();

    assert_eq!(
        control_sockets_for_config(&environment_config, &environment_config, ambient.clone()),
        ControlSockets {
            owning: None,
            ambient: ambient.clone(),
        }
    );

    let session = "/home/u/.config/herdr/sessions/mobile/herdr.sock".to_string();
    assert_eq!(
        control_sockets_for_config(&environment_config, &environment_config, session.clone()),
        ControlSockets {
            owning: None,
            ambient: session,
        }
    );

    let selected = "/home/u/.config/herdr-second/config.toml".to_string();
    let owning = "/home/u/.config/herdr-second/herdr.sock".to_string();
    let sockets = control_sockets_for_config(&selected, &environment_config, ambient.clone());
    assert_eq!(
        sockets,
        ControlSockets {
            owning: Some(owning.clone()),
            ambient: ambient.clone(),
        }
    );
    assert_eq!(sockets.in_order(), vec![owning, ambient.clone()]);

    let sibling = "/home/u/.config/herdr/other.toml".to_string();
    assert_eq!(
        control_sockets_for_config(&sibling, &environment_config, ambient.clone()),
        ControlSockets {
            owning: None,
            ambient,
        }
    );
}

#[test]
fn only_an_accepted_handshake_is_reported_as_live() {
    let socket = "/home/u/.config/herdr/herdr.sock".to_string();
    let reloaded = || ConfigReload::Reloaded {
        socket: socket.clone(),
    };
    let no_server = || ConfigReload::NoServer {
        socket: socket.clone(),
    };

    assert_eq!(
        decide_activation(reloaded(), TokenProof::Refused, None),
        TokenActivation::NotAccepted { reload: reloaded() }
    );
    assert_eq!(
        decide_activation(no_server(), TokenProof::Refused, None),
        TokenActivation::NotAccepted {
            reload: no_server()
        }
    );

    assert_eq!(
        decide_activation(reloaded(), TokenProof::Accepted, Some(TokenProof::Refused)),
        TokenActivation::LiveNow {
            previous_token: PreviousTokenProof::Refused
        }
    );
    assert_eq!(
        decide_activation(reloaded(), TokenProof::Accepted, Some(TokenProof::Accepted)),
        TokenActivation::LiveNow {
            previous_token: PreviousTokenProof::StillAccepted
        }
    );
    assert_eq!(
        decide_activation(reloaded(), TokenProof::Accepted, None),
        TokenActivation::LiveNow {
            previous_token: PreviousTokenProof::Unproven
        }
    );
    assert_eq!(
        decide_activation(
            reloaded(),
            TokenProof::Accepted,
            Some(TokenProof::Inconclusive("eof".to_string()))
        ),
        TokenActivation::LiveNow {
            previous_token: PreviousTokenProof::Unproven
        }
    );
    assert_eq!(
        decide_activation(no_server(), TokenProof::Accepted, Some(TokenProof::Refused)),
        TokenActivation::LiveNow {
            previous_token: PreviousTokenProof::Refused
        }
    );

    assert_eq!(
        decide_activation(reloaded(), TokenProof::NoListener, None),
        TokenActivation::NeedsListenerRestart
    );
    assert_eq!(
        decide_activation(no_server(), TokenProof::NoListener, None),
        TokenActivation::NoServer {
            socket: socket.clone()
        }
    );
    assert_eq!(
        decide_activation(
            reloaded(),
            TokenProof::Inconclusive("http 502".to_string()),
            None
        ),
        TokenActivation::Unverified {
            reason: "http 502".to_string()
        }
    );
    assert_eq!(
        decide_activation(
            ConfigReload::Failed("boom".to_string()),
            TokenProof::Accepted,
            None
        ),
        TokenActivation::Failed("boom".to_string())
    );
}

#[test]
fn activation_report_spells_out_each_outcome() {
    let endpoint = addr("100.64.0.5:4433");
    let config_path = "/home/u/.config/herdr/config.toml";
    let socket = "/home/u/.config/herdr/herdr.sock".to_string();
    let rows = vec![
        (
            TokenActivation::NoServer {
                socket: socket.clone(),
            },
            true,
            "Rotated: the previous token was replaced in config.toml. No running herdr server answered the control socket at /home/u/.config/herdr/herdr.sock, and nothing is listening on 100.64.0.5:4433; the token takes effect when the server starts.",
            0,
        ),
        (
            TokenActivation::LiveNow {
                previous_token: PreviousTokenProof::Refused,
            },
            true,
            "Rotated: the previous token was replaced in config.toml and applied to the running server: a handshake on 100.64.0.5:4433 presenting the new token was accepted, and one presenting the previous token was refused.",
            0,
        ),
        (
            TokenActivation::LiveNow {
                previous_token: PreviousTokenProof::Unproven,
            },
            true,
            "Rotated: the previous token was replaced in config.toml and applied to the running server: a handshake on 100.64.0.5:4433 presenting the new token was accepted.\nWhether the previous token still authenticates was not established.",
            0,
        ),
        (
            TokenActivation::LiveNow {
                previous_token: PreviousTokenProof::StillAccepted,
            },
            true,
            "Rotated: the previous token was replaced in config.toml and applied to the running server: a handshake on 100.64.0.5:4433 presenting the new token was accepted, but one presenting the previous token was accepted too.\nwarning: the previous token has not stopped authenticating. Restart the herdr server serving 100.64.0.5:4433 before treating it as revoked.",
            1,
        ),
        (
            TokenActivation::LiveNow {
                previous_token: PreviousTokenProof::Unproven,
            },
            false,
            "Stored the first token in config.toml and applied to the running server: a handshake on 100.64.0.5:4433 presenting the new token was accepted.",
            0,
        ),
        (
            TokenActivation::NeedsListenerRestart,
            true,
            "Rotated: the previous token was replaced in config.toml and the running server reloaded its config, but nothing is listening on 100.64.0.5:4433 yet.\nRestart the herdr server so it binds the websocket listener, then scan.",
            0,
        ),
        (
            TokenActivation::NotAccepted {
                reload: ConfigReload::Reloaded {
                    socket: socket.clone(),
                },
            },
            true,
            "Rotated: the previous token was replaced in config.toml, and the server at /home/u/.config/herdr/herdr.sock reloaded its config, but a handshake on 100.64.0.5:4433 presenting the new token was refused.\nwarning: the printed token does not authenticate. Whatever serves 100.64.0.5:4433 has not applied /home/u/.config/herdr/config.toml: it is a different server, or it did not reload. Find it with `herdr session list --json`, then reload it with `HERDR_SOCKET_PATH=<its socket_path> herdr server reload-config` or restart it; the printed payload works once it does.",
            1,
        ),
        (
            TokenActivation::NotAccepted {
                reload: ConfigReload::NoServer { socket },
            },
            true,
            "Rotated: the previous token was replaced in config.toml, but no herdr server answered a control socket, and a handshake on 100.64.0.5:4433 presenting the new token was refused.\nwarning: the printed token does not authenticate. Whatever serves 100.64.0.5:4433 has not applied /home/u/.config/herdr/config.toml: it is a different server, or it did not reload. Find it with `herdr session list --json`, then reload it with `HERDR_SOCKET_PATH=<its socket_path> herdr server reload-config` or restart it; the printed payload works once it does.",
            1,
        ),
        (
            TokenActivation::Unverified {
                reason: "the handshake did not complete: eof".to_string(),
            },
            true,
            "Rotated: the previous token was replaced in config.toml, but whether the listener on 100.64.0.5:4433 accepts the new token could not be established: the handshake did not complete: eof.\nwarning: nothing has connected with the printed token. Restart the herdr server serving 100.64.0.5:4433, or connect with the token yourself, before relying on it.",
            1,
        ),
        (
            TokenActivation::Failed("boom".to_string()),
            true,
            "Rotated: the previous token was replaced in config.toml, but applying it to the running server failed: boom.\nwarning: the previous token may still be accepted until `herdr server reload-config` succeeds or the server restarts.",
            1,
        ),
    ];

    for (activation, previous_token_existed, expected, expected_code) in rows {
        let (report, code) =
            activation_report(&activation, previous_token_existed, &endpoint, config_path);
        assert_eq!(report, expected, "report for {activation:?}");
        assert_eq!(code, expected_code, "exit code for {activation:?}");

        assert_eq!(
            report.contains("presenting the new token was accepted"),
            matches!(activation, TokenActivation::LiveNow { .. }),
            "only an observed handshake may claim the token was accepted: {report}"
        );
    }
}
/// What presenting a token to a listener that holds another brings back.
fn present(held: Option<&str>, token: &str) -> ProbeEvent {
    let Some(held) = held else {
        return ProbeEvent::NothingListens;
    };
    let mut registry = SharedCredentialRegistry::open(None);
    registry.attach_managing_token(SharedWebSocketToken::new(held.to_string()));
    let header = format!("Bearer {token}");
    let moment = Moment {
        now: 1_700_000_000,
        fresh_id: "cred_managing".to_string(),
    };
    match authorize_upgrade(
        AuthorizationHeader::Text(&header),
        None,
        &mut registry,
        &moment,
    ) {
        Ok(_) => ProbeEvent::Completed,
        Err(_) => ProbeEvent::HttpStatus {
            code: UNAUTHORIZED_STATUS,
            shown: "401 Unauthorized".to_string(),
        },
    }
}

#[test]
fn a_handshake_tells_the_new_token_from_the_previous_one() {
    let endpoint = addr("127.0.0.1:4433");
    let held = Some("the-new-token");
    assert_eq!(
        probe_token(&endpoint, present(held, "the-new-token")),
        TokenProof::Accepted
    );
    assert_eq!(
        probe_token(&endpoint, present(held, "the-previous-token")),
        TokenProof::Refused
    );
    assert_eq!(
        probe_token(&endpoint, present(None, "the-new-token")),
        TokenProof::NoListener,
        "a released port must not read as a listener"
    );
}

#[test]
fn a_socket_that_never_answers_the_handshake_proves_nothing() {
    let endpoint = addr("127.0.0.1:4433");
    assert_eq!(
        probe_token(&endpoint, ProbeEvent::Incomplete("eof".to_string())),
        TokenProof::Inconclusive("the handshake did not complete: eof".to_string())
    );
    assert_eq!(
        probe_token(&endpoint, ProbeEvent::CouldNotConnect("no route".to_string())),
        TokenProof::Inconclusive("could not connect to 127.0.0.1:4433: no route".to_string())
    );
    assert_eq!(
        probe_token(&endpoint, ProbeEvent::CouldNotBound("no".to_string())),
        TokenProof::Inconclusive("could not bound the handshake: no".to_string())
    );
    assert_eq!(
        probe_token(&endpoint, ProbeEvent::CouldNotBuild("bad".to_string())),
        TokenProof::Inconclusive(
            "could not build a handshake for 127.0.0.1:4433: bad".to_string()
        )
    );
    assert_eq!(
        probe_token(
            &endpoint,
            ProbeEvent::HttpStatus {
                code: 502,
                shown: "502 Bad Gateway".to_string()
            }
        ),
        TokenProof::Inconclusive(
            "the listener answered the handshake with http 502 Bad Gateway".to_string()
        )
    );
    assert_eq!(
        probe_token(
            &endpoint,
            ProbeEvent::HttpStatus {
                code: 403,
                shown: "403 Forbidden".to_string()
            }
        ),
        TokenProof::Refused
    );
}

#[test]
fn the_next_server_is_asked_only_while_none_before_it_runs() {
    let sockets = ControlSockets {
        owning: Some("/a.sock".to_string()),
        ambient: "/b.sock".to_string(),
    };
    let silent = |socket: &str| reload_config_at(socket, ReloadReply::Unreachable);
    assert_eq!(
        reload_config_of_owning_server(&sockets, &vec![]),
        ReloadStep::Ask("/a.sock".to_string())
    );
    assert_eq!(
        reload_config_of_owning_server(&sockets, &vec![silent("/a.sock")]),
        ReloadStep::Ask("/b.sock".to_string())
    );
    assert_eq!(
        reload_config_of_owning_server(&sockets, &vec![silent("/a.sock"), silent("/b.sock")]),
        ReloadStep::Done(silent("/a.sock"))
    );
    let reloaded = reload_config_at("/b.sock", ReloadReply::Answered);
    assert_eq!(
        reload_config_of_owning_server(&sockets, &vec![silent("/a.sock"), reloaded.clone()]),
        ReloadStep::Done(reloaded)
    );
    let failed = reload_config_at("/a.sock", ReloadReply::Refused("boom".to_string()));
    assert_eq!(failed, ConfigReload::Failed("boom".to_string()));
    assert_eq!(
        reload_config_of_owning_server(&sockets, &vec![failed.clone()]),
        ReloadStep::Done(failed)
    );
    assert_eq!(
        reload_config_at("/a.sock", ReloadReply::Broken("io".to_string())),
        ConfigReload::Failed("io".to_string())
    );
}

#[test]
fn the_previous_token_is_presented_only_after_the_new_one_was_accepted() {
    let progress = |reload: ConfigReload, new_token: Option<TokenProof>| ActivationProgress {
        reload,
        new_token,
        previous_token_existed: true,
        previous_token: None,
    };
    let reloaded = || ConfigReload::Reloaded {
        socket: "/a.sock".to_string(),
    };
    assert_eq!(
        apply_token_to_running_server(progress(reloaded(), None)),
        ActivationStep::ProbeNew
    );
    assert_eq!(
        apply_token_to_running_server(progress(reloaded(), Some(TokenProof::Accepted))),
        ActivationStep::ProbePrevious
    );
    assert_eq!(
        apply_token_to_running_server(progress(reloaded(), Some(TokenProof::Refused))),
        ActivationStep::Done(TokenActivation::NotAccepted { reload: reloaded() })
    );
    assert_eq!(
        apply_token_to_running_server(progress(ConfigReload::Failed("boom".to_string()), None)),
        ActivationStep::Done(TokenActivation::Failed("boom".to_string()))
    );
    assert_eq!(
        apply_token_to_running_server(ActivationProgress {
            reload: reloaded(),
            new_token: Some(TokenProof::Accepted),
            previous_token_existed: true,
            previous_token: Some(TokenProof::Refused),
        }),
        ActivationStep::Done(TokenActivation::LiveNow {
            previous_token: PreviousTokenProof::Refused
        })
    );
}

#[test]
fn arguments_ask_to_pair_or_for_help() {
    let run = |args: &[&str]| {
        let args: Vec<String> = args.iter().map(|arg| arg.to_string()).collect();
        run_pair_command(&args)
    };
    assert_eq!(run(&[]), PairRequest::Run);
    for option in ["help", "--help", "-h"] {
        assert_eq!(
            run(&[option]),
            PairRequest::Help {
                unknown: None,
                exit_code: 0
            }
        );
    }
    assert_eq!(
        run(&["--force"]),
        PairRequest::Help {
            unknown: Some("--force".to_string()),
            exit_code: 2
        }
    );
    assert!(pair_help().starts_with("usage: herdr pair\n"));
}

#[test]
fn a_plan_is_made_before_anything_is_minted() {
    let config = WebSocketApiConfig {
        bind: Some("0.0.0.0:4433".to_string()),
        token: Some("old".to_string()),
        name: Some(" the mini ".to_string()),
        reach: None,
        advertised_endpoint: Some("WSS://a-host.example.net/herdr-ws/".to_string()),
    };
    let plan = plan_pairing(&config, &None).unwrap();
    assert_eq!(plan.endpoint, "wss://a-host.example.net/herdr-ws");
    assert_eq!(plan.local_listener, addr("127.0.0.1:4433"));
    assert_eq!(plan.name, "the mini");
    assert_eq!(plan.previous_token.as_deref(), Some("old"));

    let plain = WebSocketApiConfig {
        bind: Some("[fd7a::1]:4433".to_string()),
        token: Some(String::new()),
        ..WebSocketApiConfig::default()
    };
    let plan = plan_pairing(&plain, &Some("a-host".to_string())).unwrap();
    assert_eq!(plan.endpoint, "ws://[fd7a::1]:4433");
    assert_eq!(plan.name, "a-host");
    assert_eq!(plan.previous_token, None);

    let wildcard = WebSocketApiConfig {
        bind: Some("0.0.0.0:4433".to_string()),
        ..WebSocketApiConfig::default()
    };
    assert!(matches!(
        plan_pairing(&wildcard, &None),
        Err(PairingUnavailable::UnusableBind { .. })
    ));
    let undiallable = WebSocketApiConfig {
        advertised_endpoint: Some("https://a-host".to_string()),
        ..wildcard
    };
    assert!(matches!(
        plan_pairing(&undiallable, &None),
        Err(PairingUnavailable::InvalidAdvertisedEndpoint { .. })
    ));
}

#[test]
fn a_payload_is_printed_with_and_without_its_code() {
    let payload = PairingPayload {
        endpoint: "ws://h:1".to_string(),
        token: "t".to_string(),
        name: "n".to_string(),
    };
    let plain = "  endpoint  ws://h:1\n  name      n\n  token     t\n\n  ws://h:1/?token=t&name=n\n\n";
    let with_code = pairing_output(&payload, &Ok("CODE".to_string()));
    assert_eq!(
        with_code.stdout,
        format!("Scan with the herdr mobile client:\n\nCODE\n{plain}")
    );
    assert_eq!(with_code.stderr, "");
    let reason = explain_qr(Err("data too long".to_string()));
    let without = pairing_output(&payload, &reason);
    assert_eq!(without.stdout, plain);
    assert_eq!(
        without.stderr,
        "warning: could not encode the pairing url as a qr code: data too long; use the plaintext payload below\n"
    );
}

#[test]
fn a_url_too_long_for_a_code_is_explained() {
    let reason = qr_code_text(&"a".repeat(8_000)).unwrap_err();
    assert!(
        reason.starts_with("could not encode the pairing url as a qr code: "),
        "{reason}"
    );
}

#[test]
fn a_setting_is_written_where_its_section_is() {
    assert_eq!(
        upsert_section_value("", "websocket_api", "token", "\"t\""),
        "[websocket_api]\ntoken = \"t\"\n"
    );
    assert_eq!(
        upsert_section_value("[a]\nx = 1\n\n[b]\nx = 2\n", "b", "x", "3"),
        "[a]\nx = 1\n\n[b]\nx = 3\n"
    );
}

#[test]
fn a_token_is_stored_only_in_a_config_that_stays_toml() {
    assert_eq!(
        store_token("[websocket_api]\nbind = \"127.0.0.1:4433\"\n", "t", "/c.toml"),
        Ok("[websocket_api]\ntoken = \"t\"\nbind = \"127.0.0.1:4433\"\n".to_string())
    );
    let refused = store_token("[websocket_api", "t", "/c.toml").unwrap_err();
    assert!(
        refused.starts_with("storing the token would make /c.toml invalid TOML: "),
        "{refused}"
    );
    assert!(refused.ends_with("; leaving config unchanged\n"), "{refused}");
    assert_eq!(
        storable("x = 1\n".to_string(), Some("bad".to_string()), "/c.toml"),
        Err("storing the token would make /c.toml invalid TOML: bad; leaving config unchanged\n".to_string())
    );
    assert_eq!(
        unreadable_config("/c.toml", "bad"),
        "config file at /c.toml could not be parsed as herdr config: bad\nFix it before pairing; the server ignores an unparseable config and starts without the websocket listener.\n"
    );
}

#[test]
fn nothing_is_prepared_from_a_config_that_cannot_work() {
    let prepare = |config: Result<WebSocketApiConfig, String>, content: &str| {
        prepare_pairing(content, config, &None, "/c.toml")
    };
    assert_eq!(
        prepare(Err("bad".to_string()), ""),
        Err(PairingRefusal::Explained(unreadable_config("/c.toml", "bad")))
    );
    assert_eq!(
        prepare(Ok(WebSocketApiConfig::default()), ""),
        Err(PairingRefusal::Explained(
            PairingUnavailable::NotConfigured.explanation("/c.toml")
        ))
    );
    let usable = WebSocketApiConfig {
        bind: Some("127.0.0.1:4433".to_string()),
        token: Some("old".to_string()),
        ..WebSocketApiConfig::default()
    };
    match prepare(Ok(usable.clone()), "[websocket_api") {
        Err(PairingRefusal::Explained(text)) => {
            assert!(text.starts_with("storing the token would make /c.toml invalid TOML: "))
        }
        other => panic!("expected a refusal, got {other:?}"),
    }

    let content = "[websocket_api]\nbind = \"127.0.0.1:4433\"\ntoken = \"old\"\n";
    let prepared = prepare(Ok(usable), content).unwrap();
    assert_eq!(
        websocket_api(&prepared.updated)
            .get("token")
            .and_then(|token| token.as_str()),
        Some(prepared.token.as_str())
    );
    let activation = TokenActivation::LiveNow {
        previous_token: PreviousTokenProof::Refused,
    };
    let url = format!("ws://127.0.0.1:4433/?token={}&name=herdr", prepared.token);
    let report = report_pairing(prepared, &activation, "/c.toml");
    assert_eq!(report.exit_code, 0);
    assert_eq!(report.stderr, "");
    assert!(report
        .stdout
        .starts_with("Scan with the herdr mobile client:\n\n"));
    assert!(report.stdout.contains(&qr_code_text(&url).unwrap()));
    assert!(report.stdout.contains(&format!("\n  {url}\n\n")));
    assert!(report.stdout.ends_with(
        "one presenting the previous token was refused.\n"
    ));
}

#[test]
fn a_token_is_the_unpadded_form_of_its_bytes() {
    assert_eq!(token_of(Ok(vec![0xfb, 0xff, 0xfe, 1])), Ok("-__-AQ".to_string()));
    assert_eq!(
        token_of(Err("no entropy".to_string())),
        Err("could not gather randomness for the pairing token: no entropy".to_string())
    );
}

#[test]
fn what_follows_a_mint_depends_on_what_it_came_to() {
    let content = "[websocket_api]\nbind = \"127.0.0.1:4433\"\n";
    let config = WebSocketApiConfig {
        bind: Some("127.0.0.1:4433".to_string()),
        ..WebSocketApiConfig::default()
    };
    let plan = plan_pairing(&config, &Some("desk".to_string())).unwrap();

    assert_eq!(
        prepared_with(content, plan.clone(), Err("no entropy".to_string()), "/c.toml"),
        Err(PairingRefusal::Broken("no entropy".to_string()))
    );

    let ready = prepared_with(content, plan.clone(), Ok("tok".to_string()), "/c.toml").unwrap();
    assert_eq!(ready.plan, plan);
    assert_eq!(ready.token, "tok");
    assert_eq!(ready.updated, rotate_token_in_config(content, "tok"));

    match prepared_with("[websocket_api", plan, Ok("tok".to_string()), "/c.toml").unwrap_err() {
        PairingRefusal::Explained(text) => {
            assert!(text.starts_with("storing the token would make /c.toml invalid TOML: "));
            assert!(text.ends_with("; leaving config unchanged\n"));
        }
        other => panic!("expected an explanation, got {other:?}"),
    }
}

#[test]
fn a_parent_is_the_text_before_the_last_component() {
    let mut paths: Vec<String> = [
        "", "/", "//", ".", "./", "..", "a", "/a", "a/", "a/b", "/a/b/", "/a//b/config.toml",
        "a//b", "./a", "././a", "a/.", "a/./.", "/.", "/./a", "/a/..", "../a", "a/./b", "//a//b//",
        ".a", ".a/b", "./.", "/a/./", "a/.b",
    ]
    .iter()
    .map(|path| path.to_string())
    .collect();
    let pieces = ["/", ".", "a", ".."];
    for first in pieces {
        for second in pieces {
            for third in pieces {
                for fourth in pieces {
                    paths.push(format!("{first}{second}{third}{fourth}"));
                }
            }
        }
    }
    for path in paths {
        let expected = std::path::Path::new(&path)
            .parent()
            .map(|above| above.to_str().unwrap().to_string());
        assert_eq!(parent_of(&path), expected, "{path:?}");
    }

    let sockets = control_sockets_for_config(
        "/a//b/config.toml",
        "/home/u/.config/herdr/config.toml",
        "/home/u/.config/herdr/herdr.sock".to_string(),
    );
    assert_eq!(sockets.owning.as_deref(), Some("/a//b/herdr.sock"));
}
