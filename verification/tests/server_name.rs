use herdr::config::WebSocketApiConfig;
use herdr::platform::hostname;
use herdr::server_name::{resolve_server_name, SharedServerName, FALLBACK_SERVER_NAME};

fn config_with_name(name: Option<&str>) -> WebSocketApiConfig {
    WebSocketApiConfig {
        name: name.map(str::to_string),
        ..WebSocketApiConfig::default()
    }
}

fn machine() -> Option<String> {
    Some("build-box".to_string())
}

#[test]
fn configured_name_wins() {
    assert_eq!(
        resolve_server_name(&config_with_name(Some("the-mini")), &machine()),
        "the-mini"
    );
    assert_eq!(
        resolve_server_name(&config_with_name(Some("  the-mini  ")), &machine()),
        "the-mini"
    );
}

#[test]
fn absent_or_empty_name_falls_back_to_the_hostname() {
    for host in [machine(), None] {
        let hostname = host
            .clone()
            .unwrap_or_else(|| FALLBACK_SERVER_NAME.to_string());
        for config in [
            config_with_name(None),
            config_with_name(Some("")),
            config_with_name(Some("   ")),
        ] {
            let resolved = resolve_server_name(&config, &host);
            assert_eq!(resolved, hostname, "{:?}", config.name);
            assert!(!resolved.is_empty());
        }
    }
}

#[test]
fn reload_replaces_the_declared_name() {
    let mut shared = SharedServerName::new("old-name".to_string());

    assert!(shared.apply_reloaded_config(&config_with_name(Some("new-name")), &machine()));
    assert_eq!(shared.current(), "new-name");

    assert!(
        !shared.apply_reloaded_config(&config_with_name(Some("new-name")), &machine()),
        "an unchanged name must report unchanged"
    );
}

#[test]
fn reload_without_a_name_falls_back_to_the_hostname() {
    let mut shared = SharedServerName::new("configured-name".to_string());

    shared.apply_reloaded_config(&config_with_name(None), &machine());

    assert_eq!(
        shared.current(),
        resolve_server_name(&config_with_name(None), &machine())
    );
    assert!(!shared.current().is_empty());
}

#[test]
fn a_hostname_is_read_up_to_the_first_zero_byte() {
    assert_eq!(hostname(b"build-box\0\0\0"), Some("build-box".to_string()));
    assert_eq!(hostname(b"\0rest"), None);
    assert_eq!(hostname(b"caf\xc3\xa9\0"), Some("caf\u{e9}".to_string()));
    assert_eq!(hostname(b"a\xffb\0"), Some("a\u{fffd}b".to_string()));
}
