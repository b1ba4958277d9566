use herdr::config::WebSocketApiConfig;
use herdr::credential_context::{conclude, CredentialContext};
use herdr::credentials::{
    constant_time_eq, credential_of, fingerprint, fresh_credential, normalize_label, AuthenticatedCredential,
    FreshCredential, HandshakeOutcome, Moment, RegistryFile, SharedCredentialRegistry,
    StoredCredential, MAX_LABEL_LEN,
};
use herdr::last_seen::LastSeenIndex;
use herdr::encoding::{filled_bytes, random_bytes};
use herdr::schema::{
    CredentialMintParams, CredentialRevokeParams, CredentialTier, Response, ResponseResult,
    SuccessResponse,
};
use herdr::token::SharedWebSocketToken;

const NOW: u64 = 1_700_000_000;

fn moment() -> Moment {
    Moment {
        now: NOW,
        fresh_id: "cred_managing".to_string(),
    }
}

fn fresh(tag: &str) -> FreshCredential {
    FreshCredential {
        id: format!("cred_{tag}"),
        token: format!("token-{tag}"),
    }
}

fn registry_with_managing(token: &str) -> SharedCredentialRegistry {
    let mut registry = SharedCredentialRegistry::open(None);
    registry.attach_managing_token(SharedWebSocketToken::new(token.to_string()));
    registry
}

#[test]
fn the_pairing_token_authenticates_as_the_managing_credential() {
    let mut registry = registry_with_managing("pair-token");

    let credential = registry
        .authenticate("pair-token", &moment())
        .expect("live token");

    assert_eq!(credential.tier, CredentialTier::Managing);
    assert!(registry.authenticate("some-other-token", &moment()).is_none());
    assert!(registry.is_managing_id(&credential.credential_id, &moment()));
}

#[test]
fn a_minted_credential_authenticates_as_limited() {
    let mut registry = registry_with_managing("pair-token");

    let gathered = fresh_credential(NOW * 1_000_000_000).unwrap();
    let (info, token) = registry.mint(Some("desk browser".into()), gathered, NOW);

    assert_eq!(info.tier, CredentialTier::Limited);
    assert_eq!(info.label.as_deref(), Some("desk browser"));
    assert_eq!(info.last_seen_unix, None);
    let credential = registry
        .authenticate(&token, &moment())
        .expect("minted token is live");
    assert_eq!(credential.tier, CredentialTier::Limited);
    assert_eq!(credential.credential_id, info.credential_id);
}

#[test]
fn the_registry_file_records_no_secrets() {
    let mut registry = registry_with_managing("pair-token-secret");
    let (_info, token) = registry.mint(Some("browser".into()), fresh("browser"), NOW);
    registry
        .authenticate("pair-token-secret", &moment())
        .unwrap();

    let content = format!("{:?}", registry.take_unsaved().expect("something to save"));

    assert!(!content.contains(&token), "{content}");
    assert!(!content.contains("pair-token-secret"), "{content}");
    assert!(content.contains(&fingerprint(&token)), "{content}");
}

#[test]
fn credentials_survive_a_restart() {
    let mut registry = registry_with_managing("pair-token");
    let (info, token) = registry.mint(Some("browser".into()), fresh("browser"), NOW);
    let file: RegistryFile = registry.take_unsaved().expect("a mint is saved");

    let mut restarted = SharedCredentialRegistry::open(Some(file));
    restarted.attach_managing_token(SharedWebSocketToken::new("pair-token".to_string()));

    let credential = restarted
        .authenticate(&token, &moment())
        .expect("survives restart");
    assert_eq!(credential.credential_id, info.credential_id);
    assert_eq!(credential.tier, CredentialTier::Limited);
    let listed = restarted.list(&moment());
    assert_eq!(listed.len(), 2, "{listed:?}");
    assert_eq!(listed[0].tier, CredentialTier::Managing);
    assert_eq!(listed[1].credential_id, info.credential_id);
    assert_eq!(listed[1].label.as_deref(), Some("browser"));
}

#[test]
fn rotating_the_managing_token_leaves_limited_credentials_standing() {
    let mut registry = SharedCredentialRegistry::open(None);
    let managing = SharedWebSocketToken::new("first-token".to_string());
    registry.attach_managing_token(managing);
    let (limited, limited_token) = registry.mint(Some("browser".into()), fresh("browser"), NOW);
    let before = registry.authenticate("first-token", &moment()).unwrap();

    registry
        .apply_reloaded_config(&WebSocketApiConfig {
            bind: Some("127.0.0.1:4433".into()),
            token: Some("second-token".into()),
            ..WebSocketApiConfig::default()
        })
        .expect("a listener is attached")
        .unwrap();
    let later = Moment {
        now: NOW + 5,
        fresh_id: "cred_rotated".to_string(),
    };

    assert!(
        registry.authenticate("first-token", &later).is_none(),
        "the rotated-away token must stop authenticating"
    );
    let after = registry
        .authenticate("second-token", &later)
        .expect("new pairing");
    assert_eq!(after.tier, CredentialTier::Managing);
    assert_ne!(after.credential_id, before.credential_id);

    let survivor = registry
        .authenticate(&limited_token, &later)
        .expect("survives");
    assert_eq!(survivor.credential_id, limited.credential_id);
}

#[test]
fn revoking_ends_one_credential_and_leaves_the_others() {
    let mut registry = registry_with_managing("pair-token");
    let (first, first_token) = registry.mint(None, fresh("first"), NOW);
    let (_second, second_token) = registry.mint(None, fresh("second"), NOW);

    assert!(registry.revoke_limited(&first.credential_id));

    assert!(registry.authenticate(&first_token, &moment()).is_none());
    assert!(registry.authenticate(&second_token, &moment()).is_some());
    assert!(
        !registry.revoke_limited(&first.credential_id),
        "revoking a gone credential reports not-found, not success"
    );
}

#[test]
fn revoke_all_ends_every_limited_credential_and_keeps_managing() {
    let mut registry = registry_with_managing("pair-token");
    let (_first, first_token) = registry.mint(None, fresh("first"), NOW);
    let (_second, second_token) = registry.mint(None, fresh("second"), NOW);

    let revoked = registry.revoke_all_limited();

    assert_eq!(revoked.len(), 2);
    assert!(registry.authenticate(&first_token, &moment()).is_none());
    assert!(registry.authenticate(&second_token, &moment()).is_none());
    assert!(registry.authenticate("pair-token", &moment()).is_some());
    assert_eq!(registry.list(&moment()).len(), 1);
}

#[test]
fn last_seen_is_recorded_when_a_credential_is_used() {
    let mut registry = registry_with_managing("pair-token");
    let (info, token) = registry.mint(None, fresh("used"), NOW);
    assert_eq!(info.last_seen_unix, None);

    registry.authenticate(&token, &moment()).unwrap();

    let listed = registry.list(&moment());
    let seen = listed
        .iter()
        .find(|credential| credential.credential_id == info.credential_id)
        .and_then(|credential| credential.last_seen_unix)
        .expect("last seen recorded");
    assert!(
        seen >= info.created_at_unix,
        "{seen} < {}",
        info.created_at_unix
    );
}

#[test]
fn mark_seen_reports_a_revoked_credential_as_gone() {
    let mut registry = registry_with_managing("pair-token");
    let (info, _token) = registry.mint(None, fresh("seen"), NOW);

    assert_eq!(
        registry.mark_seen(&info.credential_id, &moment()),
        Some(CredentialTier::Limited)
    );
    registry.revoke_limited(&info.credential_id);
    assert_eq!(registry.mark_seen(&info.credential_id, &moment()), None);
}

#[test]
fn an_unreadable_registry_starts_empty_instead_of_failing() {
    let mut registry = SharedCredentialRegistry::open(None);
    registry.attach_managing_token(SharedWebSocketToken::new("pair-token".to_string()));

    assert!(registry.authenticate("pair-token", &moment()).is_some());
    assert_eq!(registry.list(&moment()).len(), 1);
}

#[test]
fn labels_are_trimmed_and_bounded() {
    assert_eq!(normalize_label(None).unwrap(), None);
    assert_eq!(normalize_label(Some("   ")).unwrap(), None);
    assert_eq!(
        normalize_label(Some("  desk  ")).unwrap().as_deref(),
        Some("desk")
    );
    assert!(normalize_label(Some(&"x".repeat(MAX_LABEL_LEN + 1))).is_err());
    assert!(normalize_label(Some("bad\nlabel")).is_err());
}

#[test]
fn a_registry_of_a_newer_version_is_ignored() {
    let mut registry = registry_with_managing("pair-token");
    registry.mint(None, fresh("kept"), NOW);
    let mut file = registry.file();
    file.version += 1_000;
    let mut opened = SharedCredentialRegistry::open(Some(file));
    assert_eq!(opened.list(&moment()).len(), 0);
}

#[test]
fn a_fingerprint_is_the_sha_256_of_the_token() {
    assert_eq!(
        fingerprint("abc"),
        "ba7816bf8f01cfea414140de5dae2223b00361a396177a9cb410ff61f20015ad"
    );
    assert!(constant_time_eq(b"same", b"same"));
    assert!(!constant_time_eq(b"same", b"sane"));
    assert!(!constant_time_eq(b"same", b"same longer"));
}

#[test]
fn a_gathered_credential_is_long_and_never_the_same() {
    let first = fresh_credential(1).unwrap();
    let second = fresh_credential(1).unwrap();
    assert_eq!(first.token.len(), 43);
    assert_ne!(first.token, second.token);
    assert_ne!(first.id, second.id);
}

#[test]
fn a_revoked_token_is_recognized_and_an_unknown_one_is_not() {
    let mut registry = registry_with_managing("pair-token");
    let (info, token) = registry.mint(None, fresh("gone"), NOW);
    registry.revoke_limited(&info.credential_id);
    assert_eq!(
        registry.authenticate_handshake(&token, &moment()),
        HandshakeOutcome::Revoked {
            credential_id: info.credential_id
        }
    );
    assert_eq!(
        registry.authenticate_handshake("never", &moment()),
        HandshakeOutcome::Unknown
    );
}

fn error_code(response: &Response) -> &str {
    match response {
        Response::Error(error) => &error.error.code,
        other => panic!("expected an error, got {other:?}"),
    }
}

fn limited(id: &str) -> CredentialContext {
    CredentialContext::connection(AuthenticatedCredential {
        credential_id: id.to_string(),
        tier: CredentialTier::Limited,
    })
}

#[test]
fn only_the_managing_credential_mints_and_lists() {
    let mut registry = registry_with_managing("pair-token");
    let local = CredentialContext::local_socket();
    let minted = local.serve_mint(
        &mut registry,
        "req_mint".to_string(),
        &CredentialMintParams {
            label: Some("  tablet ".to_string()),
            acting_token: None,
        },
        Ok(fresh("tablet")),
        &moment(),
    );
    match minted {
        Response::Success(answer) => match answer.result {
            ResponseResult::CredentialMinted { credential, token } => {
                assert_eq!(credential.label.as_deref(), Some("tablet"));
                assert_eq!(token, "token-tablet");
            }
            other => panic!("expected a minted credential, got {other:?}"),
        },
        other => panic!("expected success, got {other:?}"),
    }

    let browser = limited("cred_tablet");
    assert_eq!(
        error_code(&browser.serve_list(&mut registry, "req_list".to_string(), None, &moment())),
        "credential_forbidden"
    );
    assert_eq!(
        error_code(&browser.serve_list(
            &mut registry,
            "req_claim".to_string(),
            Some("pair-token"),
            &moment()
        )),
        "invalid_params"
    );
    assert_eq!(
        error_code(&local.serve_list(
            &mut registry,
            "req_unknown".to_string(),
            Some("never"),
            &moment()
        )),
        "credential_revoked"
    );
}

#[test]
fn a_limited_credential_may_end_only_itself() {
    let mut registry = registry_with_managing("pair-token");
    registry.mint(None, fresh("one"), NOW);
    registry.mint(None, fresh("two"), NOW);
    let one = limited("cred_one");
    let naming = |id: Option<&str>| CredentialRevokeParams {
        credential_id: id.map(str::to_string),
        acting_token: None,
    };
    assert_eq!(
        error_code(&one.serve_revoke(
            &mut registry,
            "r".to_string(),
            &naming(Some("cred_two")),
            &moment()
        )),
        "credential_forbidden"
    );
    match one.serve_revoke(&mut registry, "r".to_string(), &naming(None), &moment()) {
        Response::Success(_) => {}
        other => panic!("expected success, got {other:?}"),
    }
    assert!(one.is_revoked(&mut registry, &moment()));

    let local = CredentialContext::local_socket();
    assert_eq!(
        error_code(&local.serve_revoke(
            &mut registry,
            "r".to_string(),
            &naming(None),
            &moment()
        )),
        "invalid_params"
    );
    assert_eq!(
        error_code(&local.serve_revoke(
            &mut registry,
            "r".to_string(),
            &naming(Some("cred_one")),
            &moment()
        )),
        "credential_not_found"
    );
    assert_eq!(
        error_code(&local.serve_revoke(
            &mut registry,
            "r".to_string(),
            &naming(Some("cred_managing")),
            &moment()
        )),
        "credential_forbidden"
    );
}

#[test]
fn an_answer_stands_only_once_its_change_is_written() {
    let verdict = CredentialContext::local_socket().revocation_verdict();
    assert_eq!(conclude(verdict.clone(), Ok(())), verdict);
    assert_eq!(
        conclude(verdict.clone(), Err("disk full".to_string())),
        verdict
    );
    match verdict {
        Response::Error(error) => {
            assert_eq!(error.id, "");
            assert_eq!(error.error.code, "credential_revoked");
        }
        other => panic!("expected an error, got {other:?}"),
    }
    let ended = |revoked: Vec<String>| {
        Response::Success(SuccessResponse {
            id: "req".to_string(),
            result: ResponseResult::CredentialRevoked { revoked },
        })
    };
    let nothing = ended(Vec::new());
    assert_eq!(
        conclude(nothing.clone(), Err("disk full".to_string())),
        nothing
    );
    match conclude(
        ended(vec!["cred_1".to_string()]),
        Err("disk full".to_string()),
    ) {
        Response::Error(error) => {
            assert_eq!(error.id, "req");
            assert_eq!(error.error.code, "internal_error");
            assert_eq!(
                error.error.message,
                "failed to update the credential registry: disk full"
            );
        }
        other => panic!("expected an error, got {other:?}"),
    }
}

#[test]
fn a_fresh_credential_needs_randomness() {
    let fresh = credential_of("cred_1".to_string(), Ok(vec![0; 32])).unwrap();
    assert_eq!(fresh.id, "cred_1");
    assert_eq!(fresh.token, "A".repeat(43));
    assert_eq!(
        credential_of("cred_1".to_string(), Err("no entropy".to_string())),
        Err("could not gather randomness for a credential: no entropy".to_string())
    );
}

#[test]
fn random_bytes_are_those_that_were_filled() {
    assert_eq!(random_bytes(0), Ok(Vec::new()));
    let bytes = random_bytes(32).unwrap();
    assert_eq!(bytes.len(), 32);
    assert_ne!(bytes, vec![0; 32]);
    assert_eq!(filled_bytes(Ok(()), vec![1, 2]), Ok(vec![1, 2]));
    assert_eq!(
        filled_bytes(Err(getrandom::Error::UNSUPPORTED), vec![1, 2]),
        Err(getrandom::Error::UNSUPPORTED.to_string())
    );
}

#[test]
fn a_reload_needs_an_attached_listener_and_a_usable_section() {
    let section = |token: &str| WebSocketApiConfig {
        bind: Some("127.0.0.1:4433".into()),
        token: Some(token.into()),
        ..WebSocketApiConfig::default()
    };
    let mut registry = SharedCredentialRegistry::open(None);
    assert_eq!(registry.apply_reloaded_config(&section("one")), None);
    assert!(registry.authenticate("one", &moment()).is_none());

    registry.attach_managing_token(SharedWebSocketToken::new("one".to_string()));
    assert_eq!(
        registry.apply_reloaded_config(&section("one")),
        Some(Ok(false))
    );
    assert!(matches!(
        registry.apply_reloaded_config(&section("not usable")),
        Some(Err(_))
    ));
    assert!(registry.authenticate("one", &moment()).is_some());
    assert_eq!(
        registry.apply_reloaded_config(&section("two")),
        Some(Ok(true))
    );
    assert!(registry.authenticate("one", &moment()).is_none());
    assert!(registry.authenticate("two", &moment()).is_some());
}

#[test]
fn last_seen_is_written_at_most_once_a_minute_per_id() {
    let stored = |token: &str, seen: u64| StoredCredential {
        id: "cred_twice".to_string(),
        fingerprint: fingerprint(token),
        label: None,
        created_at_unix: 1,
        last_seen_unix: Some(seen),
    };
    let mut registry = SharedCredentialRegistry::open(Some(RegistryFile {
        version: 1,
        managing: None,
        limited: vec![stored("first", NOW - 1_000), stored("second", NOW - 10)],
        revoked: Vec::new(),
    }));

    assert!(registry.authenticate("first", &moment()).is_some());
    assert!(registry.take_unsaved().is_none());

    let later = Moment {
        now: NOW + 50,
        fresh_id: "cred_later".to_string(),
    };
    assert!(registry.authenticate("first", &later).is_some());
    assert!(registry.take_unsaved().is_some());
    assert!(registry.authenticate("second", &later).is_some());
    assert!(registry.take_unsaved().is_none());
}

#[test]
fn an_index_holds_one_moment_for_each_id() {
    let mut index = LastSeenIndex::new();
    index.insert("a", 1);
    index.insert("b", 2);
    index.insert("a", 3);
    assert_eq!(index.get("a"), Some(3));
    assert_eq!(index.get("b"), Some(2));
    index.remove("a");
    assert_eq!(index.get("a"), None);
    assert_eq!(index.get("b"), Some(2));
}
