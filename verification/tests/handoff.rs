use herdr::agent_hint::Agent;
use herdr::handoff::{
    accept_step, check_confirmation, check_received_fds, check_sent_fds, handoff_socket_path,
    honor_legacy_alternate_screen_panes, import_command, manifest_for, owned_ack,
    replay_bytes_per_pane, rollback_kills, validate_manifest, AcceptEvent, AcceptStep,
    HandoffManifest, HandoffRefusal, HandoffStage, ImportChild, OwnedAck, ServerBuild,
    MAX_FDS_PER_HANDOFF, MAX_MANIFEST_LINE_BYTES, MAX_REPLAY_BYTES_PER_PANE,
    MAX_REPLAY_BYTES_TOTAL,
};
use herdr::handoff_runtime::{
    handoff_screen_restore, HandoffRuntimeState, HandoffScreenRestore, InputState,
    TerminalRecovery,
};
use herdr::line_reader::{LineReader, LineStep};
use herdr::snapshot::{PaneSnapshot, SessionSnapshot, TabSnapshot, WorkspaceSnapshot};

fn build() -> ServerBuild {
    ServerBuild {
        version: "1.4.0".to_string(),
        protocol: 12,
    }
}

fn empty_snapshot() -> SessionSnapshot {
    SessionSnapshot {
        workspaces: Vec::new(),
        others: r#"{"version":0,"active":null,"selected":0}"#.into(),
    }
}

fn input_state(alternate_screen: bool, application_cursor: bool) -> InputState {
    InputState {
        alternate_screen,
        application_cursor,
        bracketed_paste: false,
        focus_reporting: false,
        mouse_protocol_mode: "none".to_string(),
        mouse_protocol_encoding: "default".to_string(),
        mouse_alternate_scroll: false,
        modify_other_keys: false,
    }
}

/// In these tests, the application's cursor keys are what tells a fullscreen
/// application.
fn screen(state: &InputState, terminal: Option<TerminalRecovery>) -> HandoffScreenRestore {
    handoff_screen_restore(Some(state), state.application_cursor, terminal)
}

#[test]
fn restore_alternate_screen_decision_matches_known_recovery_signals() {
    let plain = input_state(false, false);
    assert_eq!(
        screen(&plain, None),
        HandoffScreenRestore::Primary
    );

    let active_alt = input_state(true, false);
    assert_eq!(
        screen(&active_alt, None),
        HandoffScreenRestore::Alternate
    );

    let fullscreen_modes = input_state(false, true);
    assert_eq!(
        screen(&fullscreen_modes, None),
        HandoffScreenRestore::Alternate
    );

    let agent_terminal = TerminalRecovery {
        needs_alternate_screen: true,
    };
    assert_eq!(
        screen(&plain, Some(agent_terminal)),
        HandoffScreenRestore::Alternate
    );
}

#[test]
fn alternate_restore_reports_alternate() {
    assert!(HandoffScreenRestore::Alternate.is_alternate());
    assert!(!HandoffScreenRestore::Primary.is_alternate());
}

#[test]
fn a_handoff_carries_an_api_set_window_title() {
    let manifest = manifest_for(
        build(),
        empty_snapshot(),
        Vec::new(),
        None,
        None,
        Some("deploying".to_string()),
    );

    assert_eq!(manifest.api_window_title.as_deref(), Some("deploying"));
}

fn manifest_pane(
    pane_id: u32,
    alternate_screen: bool,
    initial_history_ansi: Option<&str>,
) -> HandoffRuntimeState {
    HandoffRuntimeState {
        pane_id,
        child_pid: 100 + pane_id,
        rows: 24,
        cols: 80,
        cell_width_px: 0,
        cell_height_px: 0,
        keyboard_protocol_flags: 0,
        keyboard_protocol_ansi: None,
        input_state: Some(input_state(alternate_screen, false)),
        terminal_title: None,
        initial_history_ansi: initial_history_ansi.map(str::to_string),
    }
}

fn snapshot_with_agent_flags(panes: &[(u32, bool)]) -> SessionSnapshot {
    let panes = panes
        .iter()
        .map(|(pane_id, is_agent)| {
            (
                *pane_id,
                PaneSnapshot {
                    cwd: "/tmp".into(),
                    agent_session: if *is_agent {
                        Some(format!(
                            r#"{{"source":"{0}-hooks","agent":"{0}","kind":"id","value":"session-1"}}"#,
                            format!("{:?}", Agent::Claude).to_lowercase()
                        ))
                    } else {
                        None
                    },
                    agent_name: None,
                    launch_argv: None,
                    others: r#"{"label":null}"#.into(),
                },
            )
        })
        .collect();
    SessionSnapshot {
        workspaces: vec![WorkspaceSnapshot {
            identity_cwd: "/tmp".into(),
            tabs: vec![TabSnapshot {
                panes,
                others: r#"{"layout":{"pane":1},"zoomed":false,"root_pane":1}"#.into(),
            }],
            others: r#"{"public_pane_numbers":{},"active_tab":0}"#.into(),
        }],
        others: r#"{"version":0,"active":0,"selected":0}"#.into(),
    }
}

#[test]
fn legacy_alternate_flags_honored_for_plain_panes_only() {
    let mut manifest = manifest_for(
        build(),
        snapshot_with_agent_flags(&[(1, true), (2, false), (3, false), (4, false)]),
        vec![
            manifest_pane(1, true, Some("\x1b[Hclaude frame")),
            manifest_pane(2, true, Some("\x1b[Hvim frame")),
            manifest_pane(3, true, Some("\x1b[?1049h\x1b[Hnew-format frame")),
            manifest_pane(4, false, Some("primary history")),
        ],
        None,
        None,
        None,
    );

    honor_legacy_alternate_screen_panes(&mut manifest);

    assert_eq!(
        manifest.panes[0].initial_history_ansi.as_deref(),
        Some("\x1b[Hclaude frame"),
    );
    assert_eq!(
        manifest.panes[1].initial_history_ansi.as_deref(),
        Some("\x1b[?1049h\x1b[Hvim frame"),
    );
    assert_eq!(
        manifest.panes[2].initial_history_ansi.as_deref(),
        Some("\x1b[?1049h\x1b[Hnew-format frame"),
    );
    assert_eq!(
        manifest.panes[3].initial_history_ansi.as_deref(),
        Some("primary history"),
    );
}

#[test]
fn legacy_alternate_flag_without_history_still_enters_alt() {
    let mut manifest = manifest_for(
        build(),
        snapshot_with_agent_flags(&[(1, false)]),
        vec![manifest_pane(1, true, None)],
        None,
        None,
        None,
    );

    honor_legacy_alternate_screen_panes(&mut manifest);

    assert_eq!(
        manifest.panes[0].initial_history_ansi.as_deref(),
        Some("\x1b[?1049h"),
    );
}

#[test]
fn replay_budget_fits_manifest_frame_limit() {
    assert!(MAX_REPLAY_BYTES_TOTAL * 2 + 2 * 1024 * 1024 <= MAX_MANIFEST_LINE_BYTES);
}

#[test]
fn repairing_a_manifest_twice_changes_nothing_more() {
    let mut manifest = manifest_for(
        build(),
        snapshot_with_agent_flags(&[(1, false), (2, true)]),
        vec![
            manifest_pane(1, true, Some("frame")),
            manifest_pane(2, true, Some("frame")),
        ],
        None,
        None,
        None,
    );
    honor_legacy_alternate_screen_panes(&mut manifest);
    let once = manifest.clone();
    honor_legacy_alternate_screen_panes(&mut manifest);
    assert_eq!(manifest, once);
}

#[test]
fn a_handoff_carries_the_whole_session_and_every_input_mode() {
    let mut pane = manifest_pane(1, true, Some("frame"));
    pane.terminal_title = Some("vim".to_string());
    let state = InputState {
        bracketed_paste: true,
        mouse_protocol_mode: "any_event".to_string(),
        mouse_protocol_encoding: "sgr".to_string(),
        modify_other_keys: true,
        ..input_state(true, false)
    };
    pane.input_state = Some(state.clone());
    let snapshot = snapshot_with_agent_flags(&[(1, false)]);
    let mut manifest = manifest_for(build(), snapshot.clone(), vec![pane], None, None, None);

    honor_legacy_alternate_screen_panes(&mut manifest);

    assert_eq!(manifest.snapshot, snapshot);
    assert_eq!(manifest.panes[0].input_state, Some(state));
    assert_eq!(manifest.panes[0].terminal_title.as_deref(), Some("vim"));
    assert_eq!(
        manifest.panes[0].initial_history_ansi.as_deref(),
        Some("\x1b[?1049hframe")
    );
}

#[test]
fn each_pane_gets_its_fair_share_of_the_replay_budget() {
    assert_eq!(replay_bytes_per_pane(1), MAX_REPLAY_BYTES_PER_PANE);
    assert_eq!(replay_bytes_per_pane(24), MAX_REPLAY_BYTES_PER_PANE);
    assert_eq!(replay_bytes_per_pane(64), 98_304);
}

fn manifest() -> HandoffManifest {
    manifest_for(build(), empty_snapshot(), Vec::new(), None, None, None)
}

#[test]
fn a_manifest_is_checked_before_it_is_imported() {
    assert_eq!(validate_manifest(&manifest(), &build()), Ok(()));

    let mut expecting = manifest();
    expecting.expected_protocol = Some(12);
    expecting.expected_version = Some("1.4.0".to_string());
    assert_eq!(validate_manifest(&expecting, &build()), Ok(()));

    let mut newer = manifest();
    newer.version = 2;
    assert_eq!(
        validate_manifest(&newer, &build()).unwrap_err().message(),
        "unsupported handoff version 2"
    );

    expecting.expected_protocol = Some(11);
    assert_eq!(
        validate_manifest(&expecting, &build()).unwrap_err().message(),
        "handoff expected protocol 11, but this server speaks protocol 12"
    );

    expecting.expected_protocol = None;
    expecting.expected_version = Some("1.3.9".to_string());
    assert_eq!(
        validate_manifest(&expecting, &build()).unwrap_err().message(),
        "handoff expected herdr v1.3.9, but this server is v1.4.0"
    );
}

#[test]
fn every_stage_is_confirmed_by_its_own_line() {
    for (stage, line, refusal) in [
        (HandoffStage::Token, "secret\n", "handoff import token mismatch"),
        (
            HandoffStage::Validated,
            "validated\r\n",
            "handoff import did not validate manifest",
        ),
        (
            HandoffStage::Restored,
            "restored\n",
            "handoff import did not report restored runtimes",
        ),
        (
            HandoffStage::Ready,
            "ready\n",
            "handoff import did not report ready",
        ),
        (
            HandoffStage::Committed,
            "committed\n",
            "handoff source did not commit",
        ),
    ] {
        assert_eq!(check_confirmation(stage, line, "secret"), Ok(()));
        assert_eq!(
            check_confirmation(stage, "something else\n", "secret")
                .unwrap_err()
                .message(),
            refusal
        );
        // White space in front is not trimmed away.
        assert!(check_confirmation(stage, &format!(" {line}"), "secret").is_err());
    }
}

#[test]
fn an_ownership_ack_is_taken_as_it_comes() {
    assert_eq!(owned_ack(Some("owned\n")), OwnedAck::Owned);
    assert_eq!(
        owned_ack(Some("what\n")),
        OwnedAck::Unexpected("what".to_string())
    );
    assert_eq!(owned_ack(None), OwnedAck::Missing);
}

#[test]
fn file_descriptors_are_counted_on_both_sides() {
    assert_eq!(check_sent_fds(MAX_FDS_PER_HANDOFF), Ok(()));
    assert_eq!(
        check_sent_fds(MAX_FDS_PER_HANDOFF + 1).unwrap_err().message(),
        "handoff supports at most 64 pane file descriptors at once"
    );
    assert_eq!(check_received_fds(3, 3), Ok(()));
    assert_eq!(
        check_received_fds(3, 2).unwrap_err().message(),
        "expected 3 handoff fds, received fewer"
    );
}

#[test]
fn waiting_for_the_import_server_ends_at_the_deadline() {
    assert_eq!(accept_step(AcceptEvent::Accepted, true), AcceptStep::Proceed);
    assert_eq!(accept_step(AcceptEvent::WouldBlock, false), AcceptStep::Pause);
    assert_eq!(accept_step(AcceptEvent::WouldBlock, true), AcceptStep::TimeOut);
    assert_eq!(accept_step(AcceptEvent::Interrupted, true), AcceptStep::Retry);
    assert_eq!(accept_step(AcceptEvent::Failed, false), AcceptStep::Fail);
    assert_eq!(
        HandoffRefusal::AcceptTimedOut.message(),
        "timed out waiting for handoff import connection"
    );
}

#[test]
fn a_rollback_spares_only_an_import_server_that_is_gone() {
    assert!(!rollback_kills(ImportChild::Exited));
    assert!(rollback_kills(ImportChild::Running));
    assert!(rollback_kills(ImportChild::Unknown));
}

#[test]
fn an_import_server_is_told_its_socket_and_token() {
    let command = import_command("/run/h.sock", "tok", true);
    assert_eq!(
        command.args,
        vec!["server", "--handoff-import", "/run/h.sock", "tok"]
    );
    assert!(command.drop_socket_overrides);
    assert!(!import_command("/run/h.sock", "tok", false).drop_socket_overrides);
    assert_eq!(
        handoff_socket_path("/data/herdr", 4711),
        "/data/herdr/herdr-handoff-4711.sock"
    );
}

#[test]
fn a_pane_keeps_everything_under_another_number() {
    let pane = manifest_pane(7, true, Some("frame"));
    let moved = pane.clone().with_pane_id(9);
    assert_eq!(moved.pane_id, 9);
    assert_eq!(moved.child_pid, pane.child_pid);
    assert_eq!(moved.initial_history_ansi, pane.initial_history_ansi);
}

#[test]
fn a_line_is_read_up_to_its_limit() {
    let mut reader = LineReader::new(4);
    for byte in b"abcd" {
        assert_eq!(reader.absorb(*byte), LineStep::More);
    }
    assert_eq!(reader.absorb(b'\n'), LineStep::Line("abcd\n".to_string()));

    let mut reader = LineReader::new(4);
    for byte in b"abcd" {
        reader.absorb(*byte);
    }
    assert_eq!(reader.absorb(b'e'), LineStep::TooLong);

    let mut reader = LineReader::new(4);
    assert_eq!(reader.absorb(0xff), LineStep::More);
    assert_eq!(reader.absorb(b'\n'), LineStep::NotUtf8);
    assert_eq!(
        HandoffRefusal::LineTooLong.message(),
        "handoff line exceeded maximum size"
    );
    assert_eq!(
        HandoffRefusal::StreamClosed.message(),
        "handoff stream closed while reading line"
    );
}
