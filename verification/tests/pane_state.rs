use herdr::clock::clamp_to_epoch;
use herdr::pane_state::{
    AgentStatus, AgentStatusClaim, PaneState, StatusReading, TerminalId,
};

const RESTORED_AT: u64 = 5_000;
const CAPTURED_AT: u64 = 1_000;
const IN_WINDOW: u64 = RESTORED_AT + 2;
const LATER_IN_WINDOW: u64 = RESTORED_AT + 5;

fn terminal() -> TerminalId {
    TerminalId { number: 1 }
}

fn restored_working() -> PaneState {
    PaneState::restored(
        terminal(),
        AgentStatus::Working,
        CAPTURED_AT,
        RESTORED_AT,
    )
}

fn observe(pane: &mut PaneState, status: AgentStatus, now: u64) -> bool {
    pane.record_agent_status_at(status, now, StatusReading::Provisional)
}

fn incidental(pane: &mut PaneState, status: AgentStatus, now: u64) -> bool {
    pane.record_agent_status_at(status, now, StatusReading::Incidental)
}

#[test]
fn a_new_pane_dates_its_status_to_its_own_creation() {
    let pane = PaneState::new_at(terminal(), 1_000);

    assert_eq!(pane.agent_status_changed_at(), 1_000);
}

#[test]
fn the_first_detected_status_counts_as_a_transition() {
    let mut pane = PaneState::new_at(terminal(), 1_000);

    assert!(incidental(&mut pane, AgentStatus::Working, 1_500));
    assert_eq!(pane.agent_status_changed_at(), 1_500);
}

#[test]
fn a_steady_status_keeps_dating_the_transition_that_produced_it() {
    let mut pane = PaneState::new_at(terminal(), 1_000);
    incidental(&mut pane, AgentStatus::Working, 1_500);

    assert!(!incidental(&mut pane, AgentStatus::Working, 9_000));
    assert_eq!(pane.agent_status_changed_at(), 1_500);
}

#[test]
fn every_later_transition_restamps() {
    let mut pane = PaneState::new_at(terminal(), 1_000);
    incidental(&mut pane, AgentStatus::Working, 1_500);

    assert!(incidental(&mut pane, AgentStatus::Done, 2_000));
    assert_eq!(pane.agent_status_changed_at(), 2_000);

    assert!(incidental(&mut pane, AgentStatus::Idle, 2_400));
    assert_eq!(pane.agent_status_changed_at(), 2_400);
}

#[test]
fn everything_reported_inside_the_window_dates_from_the_restart() {
    let mut pane = restored_working();

    assert_eq!(pane.agent_status(), AgentStatus::Unknown);
    assert_eq!(pane.agent_status_changed_at(), RESTORED_AT);

    // A placeholder Idle from the detector, or an Idle pre-seeded for an
    // agent about to resume, reads the same way: since the restart.
    observe(&mut pane, AgentStatus::Idle, IN_WINDOW);
    assert_eq!(pane.agent_status(), AgentStatus::Idle);
    assert_eq!(pane.agent_status_changed_at(), RESTORED_AT);
    assert_eq!(
        pane.agent_status_changed_at_for_at(AgentStatus::Idle, IN_WINDOW),
        RESTORED_AT
    );
}

#[test]
fn an_unrevised_reading_never_ends_the_window() {
    let mut pane = restored_working();

    observe(&mut pane, AgentStatus::Working, IN_WINDOW);
    assert!(pane.awaits_agent_status_resolution());

    observe(&mut pane, AgentStatus::Idle, LATER_IN_WINDOW);
    assert!(pane.awaits_agent_status_resolution());
}

#[test]
fn an_uninterrupted_confirmation_inherits_the_captured_date() {
    let mut pane = restored_working();
    // Unknown is the absence of a reading, not a competing one, so it does
    // not break the continuity the captured date claims.
    observe(&mut pane, AgentStatus::Unknown, IN_WINDOW);

    pane.resolve_agent_status_at(AgentStatus::Working, LATER_IN_WINDOW);

    assert!(!pane.awaits_agent_status_resolution());
    assert_eq!(pane.agent_status_changed_at(), CAPTURED_AT);
}

#[test]
fn a_confirmation_across_an_interlude_stamps_fresh() {
    let mut pane = restored_working();

    // Something else was reported in between, so claiming the pane has
    // been working since the snapshot would span an interlude a client
    // could have seen.
    observe(&mut pane, AgentStatus::Idle, IN_WINDOW);
    pane.resolve_agent_status_at(AgentStatus::Working, LATER_IN_WINDOW);

    assert_eq!(
        pane.agent_status_changed_at(),
        LATER_IN_WINDOW,
        "an interrupted window cannot claim continuity"
    );
}

#[test]
fn a_differing_classification_dates_the_pane_at_the_classification() {
    let mut pane = restored_working();

    pane.resolve_agent_status_at(AgentStatus::Blocked, IN_WINDOW);

    assert!(!pane.awaits_agent_status_resolution());
    assert_eq!(pane.agent_status_changed_at(), IN_WINDOW);
}

#[test]
fn a_classification_that_moves_nothing_still_spends_the_captured_pair() {
    let mut pane = restored_working();
    observe(&mut pane, AgentStatus::Idle, IN_WINDOW);

    assert!(!pane.resolve_agent_status_at(AgentStatus::Idle, LATER_IN_WINDOW));
    assert!(!pane.awaits_agent_status_resolution());

    assert!(incidental(&mut pane, AgentStatus::Working, 6_000));
    assert_eq!(
        pane.agent_status_changed_at(),
        6_000,
        "a spent pair cannot be inherited by a later transition"
    );
}

#[test]
fn movement_from_any_source_ends_the_window_at_its_own_moment() {
    let mut pane = restored_working();

    // A seen flip turning Done into Idle is not a statement about the
    // agent, but it is the pane moving and this process watched it.
    assert!(incidental(&mut pane, AgentStatus::Idle, IN_WINDOW));

    assert!(!pane.awaits_agent_status_resolution());
    assert_eq!(pane.agent_status_changed_at(), IN_WINDOW);
}

#[test]
fn a_classification_finding_no_agent_spends_the_pair_too() {
    let mut pane = restored_working();

    assert!(!pane.resolve_agent_status_at(AgentStatus::Unknown, IN_WINDOW));

    assert!(!pane.awaits_agent_status_resolution());
    assert!(incidental(&mut pane, AgentStatus::Working, 6_000));
    assert_eq!(pane.agent_status_changed_at(), 6_000);
}

#[test]
fn resolving_twice_settles_nothing_further() {
    let mut pane = restored_working();
    pane.resolve_agent_status_at(AgentStatus::Working, IN_WINDOW);

    assert!(!pane.resolve_agent_status_at(AgentStatus::Working, 7_000));
    assert_eq!(pane.agent_status_changed_at(), CAPTURED_AT);
}

#[test]
fn the_window_cannot_outlive_its_deadline() {
    let mut pane = restored_working();
    let due_at = pane
        .agent_status_resolution_due_at()
        .expect("an unresolved pane has a deadline");

    assert!(observe(&mut pane, AgentStatus::Working, due_at));

    assert!(!pane.awaits_agent_status_resolution());
    assert_eq!(pane.agent_status_changed_at(), CAPTURED_AT);
    assert!(incidental(&mut pane, AgentStatus::Done, 90_000));
    assert_eq!(pane.agent_status_changed_at(), 90_000);
}

#[test]
fn a_pane_captured_before_its_classification_hands_on_its_claim_and_its_deadline() {
    let mut pane = restored_working();
    observe(&mut pane, AgentStatus::Unknown, IN_WINDOW);
    let due_at = pane
        .agent_status_resolution_due_at()
        .expect("an unresolved pane has a deadline");

    let claim = pane.durable_agent_status_at(IN_WINDOW);
    assert_eq!(claim.status, AgentStatus::Working);
    assert_eq!(claim.changed_at, CAPTURED_AT);
    assert_eq!(claim.resolve_by, Some(due_at));
}

#[test]
fn a_claim_read_after_its_deadline_is_dead_on_arrival() {
    // A snapshot written while the claim was alive, read after it expired.
    let pane = PaneState::restored_from(
        terminal(),
        AgentStatusClaim {
            status: AgentStatus::Working,
            changed_at: CAPTURED_AT,
            resolve_by: Some(RESTORED_AT + 1),
            saw_other_status: false,
        },
        RESTORED_AT,
    );

    // The reader's own clock decides, so a slow read cannot renew it.
    assert_eq!(
        pane.agent_status_changed_at_for_at(AgentStatus::Working, RESTORED_AT + 30),
        CAPTURED_AT,
        "an expired claim still answers as closing it would"
    );
    assert_eq!(
        pane.durable_agent_status_at(RESTORED_AT + 30).resolve_by,
        None,
        "an expired claim carries no deadline onward"
    );
}

#[test]
fn an_interlude_seen_before_a_handoff_still_counts_after_it() {
    let mut pane = restored_working();
    // Something else was reported, then the pane was captured and rebuilt
    // in another process before anything classified it.
    observe(&mut pane, AgentStatus::Idle, IN_WINDOW);
    let claim = pane.durable_agent_status_at(LATER_IN_WINDOW);
    assert!(
        claim.saw_other_status,
        "the interlude is part of what the claim asserts"
    );

    // Rebuilt inside the deadline the claim carried, so only the
    // interlude is under test.
    let mut rebuilt = PaneState::restored_from(terminal(), claim, RESTORED_AT + 6);
    rebuilt.resolve_agent_status_at(AgentStatus::Working, RESTORED_AT + 8);

    assert_eq!(
        rebuilt.agent_status_changed_at(),
        RESTORED_AT + 8,
        "a claim that saw an interlude cannot inherit after a handoff either"
    );
}

#[test]
fn a_claim_that_dies_between_being_read_and_being_adopted_is_not_adopted() {
    // Alive when the restore started reading the session, expired by the
    // time the pane it belongs to had a terminal to attach to.
    let claim = AgentStatusClaim {
        status: AgentStatus::Idle,
        changed_at: CAPTURED_AT,
        resolve_by: Some(RESTORED_AT),
        saw_other_status: false,
    };

    let mut pane = PaneState::restored_from(terminal(), claim, RESTORED_AT);

    assert!(
        !pane.awaits_agent_status_resolution(),
        "the acceptor judges the claim, so no interval can hide its death"
    );
    // The pre-seed matches what the dead claim recorded, and still cannot
    // reach its date.
    pane.resolve_agent_status_at(AgentStatus::Idle, RESTORED_AT);
    assert_eq!(
        pane.agent_status_changed_at(),
        RESTORED_AT,
        "a matching pre-seed must not confirm a claim that was never adopted"
    );
}

#[test]
fn a_claim_alive_at_adoption_is_adopted_whole() {
    let claim = AgentStatusClaim {
        status: AgentStatus::Idle,
        changed_at: CAPTURED_AT,
        resolve_by: Some(RESTORED_AT + 1),
        saw_other_status: false,
    };

    let mut pane = PaneState::restored_from(terminal(), claim, RESTORED_AT);

    assert!(pane.awaits_agent_status_resolution());
    pane.resolve_agent_status_at(AgentStatus::Idle, RESTORED_AT);
    assert_eq!(pane.agent_status_changed_at(), CAPTURED_AT);
}

#[test]
fn an_uninterrupted_claim_still_inherits_after_a_handoff() {
    let mut pane = restored_working();
    observe(&mut pane, AgentStatus::Unknown, IN_WINDOW);
    let claim = pane.durable_agent_status_at(LATER_IN_WINDOW);
    assert!(!claim.saw_other_status);

    let mut rebuilt = PaneState::restored_from(terminal(), claim, RESTORED_AT + 6);
    rebuilt.resolve_agent_status_at(AgentStatus::Working, RESTORED_AT + 8);

    assert_eq!(rebuilt.agent_status_changed_at(), CAPTURED_AT);
}

#[test]
fn a_pane_captured_after_a_differing_classification_hands_on_the_verdict() {
    let mut pane = restored_working();
    pane.resolve_agent_status_at(AgentStatus::Blocked, IN_WINDOW);

    let claim = pane.durable_agent_status_at(LATER_IN_WINDOW);
    assert_eq!(
        (claim.status, claim.changed_at, claim.resolve_by),
        (AgentStatus::Blocked, IN_WINDOW, None),
        "a spent pair must not be written back into a snapshot"
    );
}

#[test]
fn a_clock_before_the_epoch_reads_as_the_epoch() {
    assert_eq!(clamp_to_epoch(Some(1_700_000_000)), 1_700_000_000);
    assert_eq!(clamp_to_epoch(None), 0);
}

#[test]
fn a_display_only_write_does_not_end_the_window() {
    let mut pane = restored_working();
    pane.record_agent_status_at(AgentStatus::Done, IN_WINDOW, StatusReading::DisplayOnly);
    assert_eq!(pane.agent_status_changed_at(), RESTORED_AT);
    assert!(pane.awaits_agent_status_resolution());
}

#[test]
fn the_machine_clock_dates_a_pane() {
    let mut pane = PaneState::new_at(terminal(), 1_000);
    pane.backdate_agent_status_for_test(500);
    assert_eq!(pane.agent_status_changed_at(), 500);
    assert_eq!(pane.agent_status_changed_at_for(AgentStatus::Unknown), 500);
    assert!(pane.agent_status_changed_at_for(AgentStatus::Working) > 1_600_000_000);
    assert_eq!(pane.durable_agent_status().changed_at, 500);
    assert_eq!(pane.durable_agent_status().resolve_by, None);
}
