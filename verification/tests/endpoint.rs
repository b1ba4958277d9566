use herdr::config::WebSocketApiConfig;
use herdr::endpoint::{normalize_advertised_endpoint, SharedAdvertisedEndpoint};
use herdr::server_reach::SharedServerReach;

fn config(advertised: Option<&str>) -> WebSocketApiConfig {
    WebSocketApiConfig {
        advertised_endpoint: advertised.map(str::to_string),
        ..WebSocketApiConfig::default()
    }
}

#[test]
fn an_undeclared_endpoint_publishes_nothing() {
    for undeclared in [None, Some(""), Some("   ")] {
        assert_eq!(
            SharedAdvertisedEndpoint::from_config(&config(undeclared)).current(),
            None,
            "{undeclared:?}"
        );
    }
}

#[test]
fn a_declared_endpoint_publishes_the_canonical_form() {
    for (configured, expected) in [
        ("wss://a-host.example.ts.net", "wss://a-host.example.ts.net"),
        (
            "  wss://a-host.example.ts.net/  ",
            "wss://a-host.example.ts.net",
        ),
        (
            "WSS://a-host.example.ts.net:8443",
            "wss://a-host.example.ts.net:8443",
        ),
    ] {
        assert_eq!(
            SharedAdvertisedEndpoint::from_config(&config(Some(configured))).current(),
            Some(expected.to_string()),
            "{configured:?}"
        );
    }
}

#[test]
fn an_endpoint_no_client_could_dial_publishes_nothing() {
    for unusable in [
        "a-host.example.ts.net",
        "https://a-host.example.ts.net",
        "wss://",
        "wss://user@a-host.example.ts.net",
        "wss://a-host.example.ts.net/?token=x",
        "wss://a-host.example.ts.net:0443",
    ] {
        assert_eq!(
            SharedAdvertisedEndpoint::from_config(&config(Some(unusable))).current(),
            None,
            "{unusable:?}"
        );
    }
}

#[test]
fn a_reloaded_config_moves_the_published_endpoint() {
    let mut endpoint = SharedAdvertisedEndpoint::from_config(&config(None));
    assert_eq!(endpoint.current(), None);

    assert!(endpoint.apply_reloaded_config(&config(Some("wss://a-host.example.net"))));
    assert_eq!(
        endpoint.current(),
        Some("wss://a-host.example.net".to_string())
    );

    assert!(!endpoint.apply_reloaded_config(&config(Some("wss://a-host.example.net"))));

    assert!(endpoint.apply_reloaded_config(&config(Some("wss://a-host.example.net:0443"))));
    assert_eq!(endpoint.current(), None);
    assert!(endpoint.apply_reloaded_config(&config(Some("wss://a-host.example.net"))));
    assert!(endpoint.apply_reloaded_config(&config(None)));
    assert_eq!(endpoint.current(), None);
}

#[test]
fn a_canonical_endpoint_is_its_own_canonical_form() {
    for endpoint in [
        "wss://a-host.example.net",
        "ws://10.0.0.7:8788",
        "wss://a-host.example.net:8443/herdr/live",
        "wss://[::1]:8788",
    ] {
        let canonical = normalize_advertised_endpoint(endpoint).unwrap();
        assert_eq!(canonical, endpoint);
        assert_eq!(normalize_advertised_endpoint(&canonical).unwrap(), canonical);
    }
}

#[test]
fn a_declared_reach_is_trimmed_and_follows_a_reload() {
    let declaring = |reach: Option<&str>| WebSocketApiConfig {
        reach: reach.map(str::to_string),
        ..WebSocketApiConfig::default()
    };
    let mut reach = SharedServerReach::from_config(&declaring(Some("  on the tailnet ")));
    assert_eq!(reach.current().as_deref(), Some("on the tailnet"));
    assert!(!reach.apply_reloaded_config(&declaring(Some("on the tailnet"))));
    assert!(reach.apply_reloaded_config(&declaring(Some("   "))));
    assert_eq!(reach.current(), None);
}
