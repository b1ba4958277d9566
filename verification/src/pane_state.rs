//! The agent status a pane reports, and since when.
//!
//! A status and its date are reported to clients as one pair and are only
//! ever written together. A pane rebuilt from a snapshot waits in a restore
//! window: everything it reports there dates from the restart, and exactly
//! one resolution ends the window.

use crate::clock::unix_now_secs;
use vstd::prelude::*;

verus! {

/// How long a rebuilt pane may wait for something to classify it.
pub const RESTORE_RESOLUTION_DEADLINE_SECS: u64 = 15;

/// What an agent is doing, as far as the server can see.
#[derive(Clone, Copy, Debug, PartialEq, Eq, Structural)]
pub enum AgentStatus {
    Idle,
    Working,
    Blocked,
    Done,
    Unknown,
}

/// What a write of a status claims about the pane.
#[derive(Clone, Copy, Debug, PartialEq, Eq, Structural)]
pub enum StatusReading {
    /// A statement about the status.
    Verdict,
    /// No statement, but the pane was watched.
    Incidental,
    /// A placeholder that may still be revised.
    Provisional,
    /// A write that says nothing about the status.
    DisplayOnly,
}

/// The identity of a terminal.
#[derive(Clone, Copy, Debug, PartialEq, Eq, Structural)]
pub struct TerminalId {
    pub number: u64,
}

/// What a pane rebuilt from a snapshot knows before anything has classified
/// it.
#[derive(Clone, Copy, Debug, PartialEq, Eq)]
pub struct RestoreWindow {
    /// What the snapshot recorded, and since when.
    captured: (AgentStatus, u64),
    /// The restart. Every status reported inside the window dates from here.
    restored_at: u64,
    /// When the window ends even if nothing has classified the pane.
    resolve_by: u64,
    /// Whether a known status other than the captured one was reported since
    /// the restart.
    saw_other_status: bool,
}

/// A restore window over its fields.
pub ghost struct WindowView {
    pub captured_status: AgentStatus,
    pub captured_at: u64,
    pub restored_at: u64,
    pub resolve_by: u64,
    pub saw_other_status: bool,
}

impl View for RestoreWindow {
    type V = WindowView;

    closed spec fn view(&self) -> WindowView {
        WindowView {
            captured_status: self.captured.0,
            captured_at: self.captured.1,
            restored_at: self.restored_at,
            resolve_by: self.resolve_by,
            saw_other_status: self.saw_other_status,
        }
    }
}

pub open spec fn is_live(window: WindowView, now: u64) -> bool {
    now < window.resolve_by
}

/// The date that a window leaves behind when it closes on a status: the
/// captured one where the status confirms what was captured and nothing else
/// was reported in between, else the moment itself, held between the restart
/// and the deadline.
pub open spec fn closing_date(window: WindowView, status: AgentStatus, now: u64) -> u64 {
    if window.captured_status == status && !window.saw_other_status {
        window.captured_at
    } else if now > window.resolve_by && window.resolve_by >= window.restored_at {
        window.resolve_by
    } else if now < window.restored_at || window.resolve_by < window.restored_at {
        window.restored_at
    } else {
        now
    }
}

impl RestoreWindow {
    fn live_at(&self, now_unix: u64) -> (live: bool)
        ensures
            live == is_live(self@, now_unix),
    {
        now_unix < self.resolve_by
    }

    fn closed_changed_at(&self, status: AgentStatus, now_unix: u64) -> (date: u64)
        ensures
            date == closing_date(self@, status, now_unix),
    {
        if self.captured.0 == status && !self.saw_other_status {
            return self.captured.1;
        }
        let bounded: u64 = if now_unix < self.resolve_by {
            now_unix
        } else {
            self.resolve_by
        };
        if bounded < self.restored_at {
            self.restored_at
        } else {
            bounded
        }
    }
}

/// A pane's status claim as it travels between processes.
#[derive(Clone, Copy, Debug, PartialEq, Eq, Structural)]
pub struct AgentStatusClaim {
    /// What the pane was reporting, and since when.
    pub status: AgentStatus,
    pub changed_at: u64,
    /// Past this second the claim is not worth honouring. Absent where the
    /// claim is not waiting on anything.
    pub resolve_by: Option<u64>,
    /// Whether the pane reported some other known status while this claim was
    /// outstanding.
    pub saw_other_status: bool,
}

/// The status that a pane reports, since when, and the window in which a
/// claim of an earlier process may still be adopted. Only the operations of a
/// pane make one.
#[derive(Clone, Copy, Debug)]
pub struct ReportedStatus {
    agent_status: AgentStatus,
    agent_status_changed_at: u64,
    restore_window: Option<RestoreWindow>,
}

/// A reported status over its parts.
pub ghost struct ReportedView {
    pub status: AgentStatus,
    pub changed_at: u64,
    pub window: Option<WindowView>,
}

impl View for ReportedStatus {
    type V = ReportedView;

    closed spec fn view(&self) -> ReportedView {
        ReportedView {
            status: self.agent_status,
            changed_at: self.agent_status_changed_at,
            window: match self.restore_window {
                Some(window) => Some(window@),
                None => None,
            },
        }
    }
}

/// Viewport state of a pane.
#[derive(Clone, Debug)]
pub struct PaneState {
    pub attached_terminal_id: TerminalId,
    /// Whether the user has seen this pane since its last change to idle.
    pub seen: bool,
    /// Whether unmodified right-click gestures go to the pane's application.
    pub right_click_passthrough: bool,
    pub reported: ReportedStatus,
}

/// The reported pair of a pane, its restore window where it has one, and its
/// viewport flags.
pub ghost struct PaneView {
    pub terminal: TerminalId,
    pub seen: bool,
    pub right_click_passthrough: bool,
    pub status: AgentStatus,
    pub changed_at: u64,
    pub window: Option<WindowView>,
}

impl View for PaneState {
    type V = PaneView;

    open spec fn view(&self) -> PaneView {
        PaneView {
            terminal: self.attached_terminal_id,
            seen: self.seen,
            right_click_passthrough: self.right_click_passthrough,
            status: self.reported@.status,
            changed_at: self.reported@.changed_at,
            window: self.reported@.window,
        }
    }
}

/// A pane that exists since a moment and has reported nothing yet.
pub open spec fn fresh_pane(terminal: TerminalId, now: u64) -> PaneView {
    PaneView {
        terminal,
        seen: true,
        right_click_passthrough: false,
        status: AgentStatus::Unknown,
        changed_at: now,
        window: None,
    }
}

/// The deadline of a claim: its own, or a fresh one where it has none.
pub open spec fn claim_deadline(claim: AgentStatusClaim, now: u64) -> u64 {
    match claim.resolve_by {
        Some(resolve_by) => resolve_by,
        None => if now + RESTORE_RESOLUTION_DEADLINE_SECS > u64::MAX {
            u64::MAX
        } else {
            (now + RESTORE_RESOLUTION_DEADLINE_SECS) as u64
        },
    }
}

/// A pane rebuilt around a claim. A claim whose deadline has passed is not
/// adopted at all; one that is adopted keeps its deadline and what it saw.
pub open spec fn rebuilt_pane(
    terminal: TerminalId,
    claim: AgentStatusClaim,
    now: u64,
) -> PaneView {
    let resolve_by = claim_deadline(claim, now);
    if now >= resolve_by {
        fresh_pane(terminal, now)
    } else {
        PaneView {
            window: Some(
                WindowView {
                    captured_status: claim.status,
                    captured_at: claim.changed_at,
                    restored_at: now,
                    resolve_by,
                    saw_other_status: claim.saw_other_status,
                },
            ),
            ..fresh_pane(terminal, now)
        }
    }
}

/// The date to report alongside a status.
pub open spec fn date_for(pane: PaneView, status: AgentStatus, now: u64) -> u64 {
    match pane.window {
        Some(window) => if is_live(window, now) {
            window.restored_at
        } else {
            closing_date(window, status, now)
        },
        None => if pane.status == status {
            pane.changed_at
        } else {
            now
        },
    }
}

/// The claim to write to a snapshot.
pub open spec fn durable_claim(pane: PaneView, now: u64) -> AgentStatusClaim {
    match pane.window {
        Some(window) => if is_live(window, now) {
            AgentStatusClaim {
                status: window.captured_status,
                changed_at: window.captured_at,
                resolve_by: Some(window.resolve_by),
                saw_other_status: window.saw_other_status,
            }
        } else {
            AgentStatusClaim {
                status: pane.status,
                changed_at: closing_date(window, pane.status, now),
                resolve_by: None,
                saw_other_status: false,
            }
        },
        None => AgentStatusClaim {
            status: pane.status,
            changed_at: pane.changed_at,
            resolve_by: None,
            saw_other_status: false,
        },
    }
}

/// A window that has heard a status: anything known other than the captured
/// one breaks the continuity that inheriting its date would claim.
pub open spec fn heard(window: WindowView, status: AgentStatus) -> WindowView {
    WindowView {
        saw_other_status: window.saw_other_status || (status != window.captured_status && status
            != AgentStatus::Unknown),
        ..window
    }
}

/// Whether a write settles what a session claimed.
pub open spec fn settles(reading: StatusReading, moved: bool) -> bool {
    match reading {
        StatusReading::Verdict => true,
        StatusReading::Incidental => moved,
        _ => false,
    }
}

/// A pane whose window, if it has one, is closed on a status at a moment.
pub open spec fn closed_on(pane: PaneView, status: AgentStatus, now: u64) -> PaneView {
    PaneView {
        status,
        changed_at: match pane.window {
            Some(window) => closing_date(window, status, now),
            None => if pane.status == status {
                pane.changed_at
            } else {
                now
            },
        },
        window: None,
        ..pane
    }
}

/// A pane after a status was recorded.
pub open spec fn recorded(
    pane: PaneView,
    status: AgentStatus,
    now: u64,
    reading: StatusReading,
) -> PaneView {
    match pane.window {
        None => closed_on(pane, status, now),
        Some(window) => {
            let listening = PaneView { window: Some(heard(window, status)), ..pane };
            if settles(reading, pane.status != status) {
                closed_on(listening, status, now)
            } else if is_live(window, now) {
                PaneView {
                    status,
                    changed_at: window.restored_at,
                    window: Some(heard(window, status)),
                    ..pane
                }
            } else {
                closed_on(listening, status, window.resolve_by)
            }
        },
    }
}

impl PaneState {
    pub fn new(attached_terminal_id: TerminalId) -> (pane: PaneState)
        ensures
            pane@ == fresh_pane(attached_terminal_id, pane@.changed_at),
    {
        PaneState::new_at(attached_terminal_id, unix_now_secs())
    }

    /// Same as [`PaneState::new`] with an explicit clock.
    pub fn new_at(attached_terminal_id: TerminalId, now_unix: u64) -> (pane: PaneState)
        ensures
            pane@ == fresh_pane(attached_terminal_id, now_unix),
    {
        PaneState {
            attached_terminal_id,
            seen: true,
            right_click_passthrough: false,
            reported: ReportedStatus {
                agent_status: AgentStatus::Unknown,
                agent_status_changed_at: now_unix,
                restore_window: None,
            },
        }
    }

    /// Rebuild a pane from a claim with no history of its own.
    pub fn restored(
        attached_terminal_id: TerminalId,
        agent_status: AgentStatus,
        agent_status_changed_at: u64,
        now_unix: u64,
    ) -> (pane: PaneState)
        ensures
            pane@ == rebuilt_pane(
                attached_terminal_id,
                (AgentStatusClaim {
                    status: agent_status,
                    changed_at: agent_status_changed_at,
                    resolve_by: None,
                    saw_other_status: false,
                }),
                now_unix,
            ),
    {
        PaneState::restored_from(
            attached_terminal_id,
            AgentStatusClaim {
                status: agent_status,
                changed_at: agent_status_changed_at,
                resolve_by: None,
                saw_other_status: false,
            },
            now_unix,
        )
    }

    /// Rebuild a pane around a claim carried from another process. The claim
    /// is judged here, at the moment it is adopted.
    pub fn restored_from(
        attached_terminal_id: TerminalId,
        claim: AgentStatusClaim,
        now_unix: u64,
    ) -> (pane: PaneState)
        ensures
            pane@ == rebuilt_pane(attached_terminal_id, claim, now_unix),
    {
        let resolve_by: u64 = match claim.resolve_by {
            Some(resolve_by) => resolve_by,
            None => now_unix.saturating_add(RESTORE_RESOLUTION_DEADLINE_SECS),
        };
        if now_unix >= resolve_by {
            return PaneState::new_at(attached_terminal_id, now_unix);
        }
        PaneState {
            attached_terminal_id,
            seen: true,
            right_click_passthrough: false,
            reported: ReportedStatus {
                agent_status: AgentStatus::Unknown,
                agent_status_changed_at: now_unix,
                restore_window: Some(
                    RestoreWindow {
                        captured: (claim.status, claim.changed_at),
                        restored_at: now_unix,
                        resolve_by,
                        saw_other_status: claim.saw_other_status,
                    },
                ),
            },
        }
    }

    /// The effective agent status this pane last reported.
    pub fn agent_status(&self) -> (status: AgentStatus)
        ensures
            status == self@.status,
    {
        self.reported.agent_status
    }

    /// Unix seconds at which this pane's current agent status began.
    pub fn agent_status_changed_at(&self) -> (date: u64)
        ensures
            date == self@.changed_at,
    {
        self.reported.agent_status_changed_at
    }

    /// Whether this pane is still waiting for something to classify it.
    pub fn awaits_agent_status_resolution(&self) -> (waiting: bool)
        ensures
            waiting == (self@.window is Some),
    {
        self.reported.restore_window.is_some()
    }

    /// Backdate the pane's status clock.
    pub fn backdate_agent_status_for_test(&mut self, at_unix: u64)
        ensures
            final(self)@ == (PaneView { changed_at: at_unix, ..old(self)@ }),
    {
        self.reported.agent_status_changed_at = at_unix;
    }

    /// When this pane's restore window ends even if nothing classifies it.
    pub fn agent_status_resolution_due_at(&self) -> (due: Option<u64>)
        ensures
            due == (match self@.window {
                Some(window) => Some(window.resolve_by),
                None => None,
            }),
    {
        match self.reported.restore_window {
            Some(window) => Some(window.resolve_by),
            None => None,
        }
    }

    /// The date to report alongside a status that was derived live.
    pub fn agent_status_changed_at_for(&self, status: AgentStatus) -> (date: u64)
        ensures
            exists|now: u64| date == #[trigger] date_for(self@, status, now),
    {
        self.agent_status_changed_at_for_at(status, unix_now_secs())
    }

    /// Same as [`PaneState::agent_status_changed_at_for`] with an explicit
    /// clock.
    pub fn agent_status_changed_at_for_at(&self, status: AgentStatus, now_unix: u64) -> (date: u64)
        ensures
            date == date_for(self@, status, now_unix),
    {
        match self.reported.restore_window {
            Some(window) => if window.live_at(now_unix) {
                window.restored_at
            } else {
                window.closed_changed_at(status, now_unix)
            },
            None => if self.reported.agent_status == status {
                self.reported.agent_status_changed_at
            } else {
                now_unix
            },
        }
    }

    /// The status and date to write to a snapshot, and the deadline that
    /// travels with them.
    pub fn durable_agent_status(&self) -> (claim: AgentStatusClaim)
        ensures
            exists|now: u64| claim == #[trigger] durable_claim(self@, now),
    {
        self.durable_agent_status_at(unix_now_secs())
    }

    /// Same as [`PaneState::durable_agent_status`] with an explicit clock.
    pub fn durable_agent_status_at(&self, now_unix: u64) -> (claim: AgentStatusClaim)
        ensures
            claim == durable_claim(self@, now_unix),
    {
        match self.reported.restore_window {
            Some(window) => if window.live_at(now_unix) {
                AgentStatusClaim {
                    status: window.captured.0,
                    changed_at: window.captured.1,
                    resolve_by: Some(window.resolve_by),
                    saw_other_status: window.saw_other_status,
                }
            } else {
                AgentStatusClaim {
                    status: self.reported.agent_status,
                    changed_at: window.closed_changed_at(self.reported.agent_status, now_unix),
                    resolve_by: None,
                    saw_other_status: false,
                }
            },
            None => AgentStatusClaim {
                status: self.reported.agent_status,
                changed_at: self.reported.agent_status_changed_at,
                resolve_by: None,
                saw_other_status: false,
            },
        }
    }

    /// Record what this pane's effective status is now. Returns whether the
    /// reported status moved.
    pub fn record_agent_status_at(
        &mut self,
        status: AgentStatus,
        now_unix: u64,
        reading: StatusReading,
    ) -> (moved: bool)
        ensures
            final(self)@ == recorded(old(self)@, status, now_unix, reading),
            moved == (old(self)@.status != status),
    {
        let moved = self.reported.agent_status != status;
        if let Some(window) = self.reported.restore_window {
            // Unknown is not a competing claim, so it breaks nothing.
            if status != window.captured.0 && status != AgentStatus::Unknown {
                self.reported.restore_window =
                Some(
                    RestoreWindow {
                        captured: window.captured,
                        restored_at: window.restored_at,
                        resolve_by: window.resolve_by,
                        saw_other_status: true,
                    },
                );
            }
        }
        let settled = match reading {
            StatusReading::Verdict => true,
            StatusReading::Incidental => moved,
            StatusReading::Provisional => false,
            StatusReading::DisplayOnly => false,
        };
        if settled {
            return self.close_window_on(status, now_unix, moved);
        }
        match self.reported.restore_window {
            Some(window) => if window.live_at(now_unix) {
                self.reported.agent_status = status;
                self.reported.agent_status_changed_at = window.restored_at;
                moved
            } else {
                // The deadline is a resolution of its own.
                self.close_window_on(status, window.resolve_by, moved)
            },
            None => {
                if moved {
                    self.reported.agent_status = status;
                    self.reported.agent_status_changed_at = now_unix;
                }
                moved
            },
        }
    }

    /// Classify this pane, ending any restore window.
    pub fn resolve_agent_status_at(&mut self, status: AgentStatus, now_unix: u64) -> (moved: bool)
        ensures
            final(self)@ == recorded(old(self)@, status, now_unix, StatusReading::Verdict),
            moved == (old(self)@.status != status),
    {
        self.record_agent_status_at(status, now_unix, StatusReading::Verdict)
    }

    fn close_window_on(&mut self, status: AgentStatus, now_unix: u64, moved: bool) -> (did_move:
        bool)
        requires
            moved == (old(self)@.status != status),
        ensures
            final(self)@ == closed_on(old(self)@, status, now_unix),
            did_move == moved,
    {
        self.reported.agent_status = status;
        match self.reported.restore_window {
            Some(window) => {
                self.reported.agent_status_changed_at = window.closed_changed_at(status, now_unix);
            },
            None => {
                if moved {
                    self.reported.agent_status_changed_at = now_unix;
                }
            },
        }
        self.reported.restore_window = None;
        moved
    }
}

// ---- Laws ------------------------------------------------------------------------------

/// A verdict always ends the window, whichever way it compares, and a second
/// verdict of the same status settles nothing further.
pub proof fn law_one_resolution_ends_the_window(
    pane: PaneView,
    status: AgentStatus,
    first: u64,
    second: u64,
)
    ensures
        recorded(pane, status, first, StatusReading::Verdict).window is None,
        recorded(
            recorded(pane, status, first, StatusReading::Verdict),
            status,
            second,
            StatusReading::Verdict,
        ) == recorded(pane, status, first, StatusReading::Verdict),
{
}

/// Once a window is over, nothing recorded brings one back, so a spent claim
/// cannot be inherited by a later transition.
pub proof fn law_a_spent_window_never_comes_back(
    pane: PaneView,
    status: AgentStatus,
    now: u64,
    reading: StatusReading,
)
    requires
        pane.window is None,
    ensures
        recorded(pane, status, now, reading).window is None,
        pane.status == status ==> recorded(pane, status, now, reading) == pane,
        pane.status != status ==> recorded(pane, status, now, reading).changed_at == now,
{
}

/// A window cannot outlive its deadline: any write at or after it closes the
/// window, and dates the pane no later than the deadline.
pub proof fn law_the_window_cannot_outlive_its_deadline(
    pane: PaneView,
    status: AgentStatus,
    now: u64,
    reading: StatusReading,
)
    requires
        pane.window is Some,
        pane.window->0.captured_at <= pane.window->0.restored_at < pane.window->0.resolve_by,
        now >= pane.window->0.resolve_by,
    ensures
        recorded(pane, status, now, reading).window is None,
        recorded(pane, status, now, reading).changed_at <= pane.window->0.resolve_by,
{
}

/// An answer given after the deadline is the one that closing the window
/// would leave behind, whatever the status and whatever closes it.
pub proof fn law_an_expired_window_answers_as_closing_it_would(
    pane: PaneView,
    status: AgentStatus,
    now: u64,
    reading: StatusReading,
)
    requires
        pane.window is Some,
        now >= pane.window->0.resolve_by,
    ensures
        recorded(pane, status, now, reading).changed_at == date_for(pane, status, now),
{
}

/// The captured date is inherited only by an uninterrupted confirmation:
/// where a closed window leaves a date from before the restart, the status is
/// the captured one and no other known status was heard.
pub proof fn law_only_an_uninterrupted_confirmation_inherits(
    pane: PaneView,
    status: AgentStatus,
    now: u64,
    reading: StatusReading,
)
    requires
        pane.window is Some,
        pane.window->0.restored_at < pane.window->0.resolve_by,
        recorded(pane, status, now, reading).changed_at < pane.window->0.restored_at,
    ensures
        recorded(pane, status, now, reading).window is None,
        status == pane.window->0.captured_status,
        !pane.window->0.saw_other_status,
        recorded(pane, status, now, reading).changed_at == pane.window->0.captured_at,
{
}

/// A claim keeps its deadline and its interlude across a handoff, however
/// often it is handed on: rebuilding a pane from the claim of a live window
/// gives a window with the same captured pair, deadline and interlude.
pub proof fn law_a_handoff_never_renews_a_claim(
    terminal: TerminalId,
    pane: PaneView,
    captured: u64,
    adopted: u64,
)
    requires
        pane.window is Some,
        is_live(pane.window->0, captured),
    ensures
        if adopted < pane.window->0.resolve_by {
            rebuilt_pane(terminal, durable_claim(pane, captured), adopted).window == Some(
                WindowView { restored_at: adopted, ..pane.window->0 },
            )
        } else {
            rebuilt_pane(terminal, durable_claim(pane, captured), adopted) == fresh_pane(
                terminal,
                adopted,
            )
        },
{
}

/// Whatever a live window reports dates from the restart.
pub proof fn law_a_live_window_dates_from_the_restart(
    pane: PaneView,
    status: AgentStatus,
    now: u64,
    reading: StatusReading,
)
    requires
        pane.window is Some,
        is_live(pane.window->0, now),
    ensures
        date_for(pane, status, now) == pane.window->0.restored_at,
        recorded(pane, status, now, reading).window is Some ==> recorded(
            pane,
            status,
            now,
            reading,
        ).changed_at == pane.window->0.restored_at,
{
}

/// What an earlier process knew is not carried over an interlude: once a pane
/// in its restore window reported any known status other than the captured one,
/// whether idle, working, blocked or done, and the window stayed open, no later
/// record dates the pane before the restart, whatever it records and whether or
/// not it closes the window.
pub proof fn law_an_interlude_forfeits_the_captured_date(
    pane: PaneView,
    other: AgentStatus,
    first_now: u64,
    first_reading: StatusReading,
    status: AgentStatus,
    now: u64,
    reading: StatusReading,
)
    requires
        pane.window is Some,
        other == AgentStatus::Idle || other == AgentStatus::Working || other == AgentStatus::Blocked
            || other == AgentStatus::Done,
        other != pane.window->0.captured_status,
        recorded(pane, other, first_now, first_reading).window is Some,
    ensures
        ({
            let between = recorded(pane, other, first_now, first_reading);
            let restart = pane.window->0.restored_at;
            &&& recorded(between, status, now, reading).changed_at >= restart
            &&& date_for(between, status, now) >= restart
        }),
{
}

/// Some records, one after another.
pub open spec fn recorded_all(
    pane: PaneView,
    records: Seq<(AgentStatus, u64, StatusReading)>,
) -> PaneView
    decreases records.len(),
{
    if records.len() == 0 {
        pane
    } else {
        let before = recorded_all(pane, records.drop_last());
        recorded(before, records.last().0, records.last().1, records.last().2)
    }
}

proof fn lemma_an_open_window_is_the_same(
    pane: PaneView,
    records: Seq<(AgentStatus, u64, StatusReading)>,
)
    requires
        recorded_all(pane, records).window is Some,
    ensures
        pane.window is Some,
        recorded_all(pane, records).window->0.restored_at == pane.window->0.restored_at,
        recorded_all(pane, records).window->0.resolve_by == pane.window->0.resolve_by,
        recorded_all(pane, records).window->0.captured_at == pane.window->0.captured_at,
        recorded_all(pane, records).window->0.captured_status == pane.window->0.captured_status,
        forall|k: int| 0 <= k <= records.len() ==> (#[trigger] recorded_all(
            pane,
            records.take(k),
        )).window is Some,
    decreases records.len(),
{
    if records.len() > 0 {
        lemma_an_open_window_is_the_same(pane, records.drop_last());
        assert forall|k: int| 0 <= k <= records.len() implies (#[trigger] recorded_all(
            pane,
            records.take(k),
        )).window is Some by {
            if k == records.len() {
                assert(records.take(k) =~= records);
            } else {
                assert(records.drop_last().take(k) =~= records.take(k));
            }
        }
    } else {
        assert(records.take(0) =~= records);
    }
}

proof fn lemma_what_was_heard(
    pane: PaneView,
    records: Seq<(AgentStatus, u64, StatusReading)>,
    at: int,
)
    requires
        0 <= at < records.len(),
        recorded_all(pane, records).window is Some,
        records[at].0 != AgentStatus::Unknown,
        records[at].0 != pane.window->0.captured_status,
    ensures
        recorded_all(pane, records).window->0.saw_other_status,
    decreases records.len(),
{
    lemma_an_open_window_is_the_same(pane, records);
    let front = records.drop_last();
    assert(records.take(records.len() - 1) =~= front);
    assert(recorded_all(pane, front).window is Some);
    lemma_an_open_window_is_the_same(pane, front);
    if at < front.len() {
        assert(front[at] == records[at]);
        lemma_what_was_heard(pane, front, at);
    }
}

proof fn lemma_nothing_else_was_heard(
    pane: PaneView,
    records: Seq<(AgentStatus, u64, StatusReading)>,
)
    requires
        recorded_all(pane, records).window is Some,
        !pane.window->0.saw_other_status,
        forall|k: int|
            0 <= k < records.len() ==> (#[trigger] records[k]).0 == AgentStatus::Unknown
                || records[k].0 == pane.window->0.captured_status,
    ensures
        !recorded_all(pane, records).window->0.saw_other_status,
    decreases records.len(),
{
    if records.len() > 0 {
        let front = records.drop_last();
        lemma_an_open_window_is_the_same(pane, records);
        assert(records.take(records.len() - 1) =~= front);
        assert(recorded_all(pane, front).window is Some);
        lemma_an_open_window_is_the_same(pane, front);
        assert forall|k: int| 0 <= k < front.len() implies (#[trigger] front[k]).0
            == AgentStatus::Unknown || front[k].0 == pane.window->0.captured_status by {
            assert(front[k] == records[k]);
        }
        lemma_nothing_else_was_heard(pane, front);
        assert(records[records.len() - 1].0 == AgentStatus::Unknown || records[records.len()
            - 1].0 == pane.window->0.captured_status);
    }
}

/// Of all that a pane reports while its window is open, one known status other
/// than the captured one is enough: whatever came before and after it, what
/// closes the window dates the pane from the restart on.
pub proof fn law_one_interlude_is_enough(
    pane: PaneView,
    records: Seq<(AgentStatus, u64, StatusReading)>,
    at: int,
    status: AgentStatus,
    now: u64,
    reading: StatusReading,
)
    requires
        0 <= at < records.len(),
        recorded_all(pane, records).window is Some,
        records[at].0 != AgentStatus::Unknown,
        records[at].0 != pane.window->0.captured_status,
    ensures
        recorded(recorded_all(pane, records), status, now, reading).changed_at
            >= pane.window->0.restored_at,
{
    lemma_an_open_window_is_the_same(pane, records);
    lemma_what_was_heard(pane, records, at);
}

/// A confirmation that nothing interrupted inherits: where a pane was rebuilt
/// from a claim that saw no interlude, and reported only the captured status or
/// none while its window was open, closing the window on the captured status
/// leaves the captured date, however late that comes.
pub proof fn law_an_uninterrupted_confirmation_inherits(
    pane: PaneView,
    records: Seq<(AgentStatus, u64, StatusReading)>,
    now: u64,
    reading: StatusReading,
)
    requires
        pane.window is Some,
        !pane.window->0.saw_other_status,
        recorded_all(pane, records).window is Some,
        forall|k: int|
            0 <= k < records.len() ==> (#[trigger] records[k]).0 == AgentStatus::Unknown
                || records[k].0 == pane.window->0.captured_status,
        recorded(
            recorded_all(pane, records),
            pane.window->0.captured_status,
            now,
            reading,
        ).window is None,
    ensures
        recorded(
            recorded_all(pane, records),
            pane.window->0.captured_status,
            now,
            reading,
        ).changed_at == pane.window->0.captured_at,
        recorded(
            recorded_all(pane, records),
            pane.window->0.captured_status,
            now,
            reading,
        ).status == pane.window->0.captured_status,
{
    lemma_an_open_window_is_the_same(pane, records);
    lemma_nothing_else_was_heard(pane, records);
}

/// A live window is closed by a verdict, and by an incidental reading that
/// moved the status; a placeholder and a write for display leave it open, and
/// so does an incidental reading of the same status.
pub proof fn law_what_closes_a_live_window(
    pane: PaneView,
    status: AgentStatus,
    now: u64,
    reading: StatusReading,
)
    requires
        pane.window is Some,
        now < pane.window->0.resolve_by,
    ensures
        recorded(pane, status, now, reading).status == status,
        recorded(pane, status, now, StatusReading::Verdict).window is None,
        recorded(pane, status, now, StatusReading::Provisional).window is Some,
        recorded(pane, status, now, StatusReading::DisplayOnly).window is Some,
        recorded(pane, status, now, StatusReading::Incidental).window is None <==> pane.status
            != status,
{
}

/// A window that closes on another status than the captured one dates the pane
/// by the moment that it closes at, but not before the restart and not after
/// the deadline.
pub proof fn law_a_change_is_dated_within_the_window(
    pane: PaneView,
    status: AgentStatus,
    now: u64,
)
    requires
        pane.window is Some,
        pane.window->0.restored_at <= pane.window->0.resolve_by,
        status != pane.window->0.captured_status,
    ensures
        ({
            let window = pane.window->0;
            let date = recorded(pane, status, now, StatusReading::Verdict).changed_at;
            &&& window.restored_at <= now <= window.resolve_by ==> date == now
            &&& now < window.restored_at ==> date == window.restored_at
            &&& now > window.resolve_by ==> date == window.resolve_by
        }),
{
}

/// A claim without a deadline of its own is honoured for fifteen seconds; one
/// with a deadline until then, and not at all once that has come.
pub proof fn law_how_long_a_claim_is_honoured(
    terminal: TerminalId,
    claim: AgentStatusClaim,
    now: u64,
)
    requires
        now + 15 <= u64::MAX,
    ensures
        ({
            let pane = rebuilt_pane(terminal, claim, now);
            &&& pane.status == AgentStatus::Unknown
            &&& pane.changed_at == now
            &&& claim.resolve_by is None ==> pane.window is Some && pane.window->0.resolve_by
                == now + 15
            &&& claim.resolve_by matches Some(deadline) ==> (pane.window is Some <==> now < deadline)
                && (pane.window is Some ==> pane.window->0.resolve_by == deadline)
            &&& pane.window matches Some(window) ==> window.restored_at == now
                && window.captured_status == claim.status && window.captured_at == claim.changed_at
                && window.saw_other_status == claim.saw_other_status
        }),
{
}

/// What a snapshot records of a pane whose window is open is what the earlier
/// process claimed, and of any other pane what it reports.
pub proof fn law_what_a_snapshot_records(pane: PaneView, now: u64)
    ensures
        ({
            let claim = durable_claim(pane, now);
            &&& pane.window is None ==> claim.status == pane.status && claim.changed_at
                == pane.changed_at && claim.resolve_by is None && !claim.saw_other_status
            &&& pane.window is Some && now < pane.window->0.resolve_by ==> claim.status
                == pane.window->0.captured_status && claim.changed_at == pane.window->0.captured_at
                && claim.resolve_by == Some(pane.window->0.resolve_by) && claim.saw_other_status
                == pane.window->0.saw_other_status
            &&& pane.window is Some && now >= pane.window->0.resolve_by ==> claim.status
                == pane.status && claim.resolve_by is None && claim.changed_at == recorded(
                pane,
                pane.status,
                now,
                StatusReading::Verdict,
            ).changed_at
        }),
{
}

/// A pane without a window dates a status from the moment it changed to it:
/// the same status keeps its date, and another one is dated now, whatever kind
/// of reading brought it.
pub proof fn law_a_status_is_dated_by_its_change(
    pane: PaneView,
    status: AgentStatus,
    now: u64,
    reading: StatusReading,
)
    requires
        pane.window is None,
    ensures
        ({
            let after = recorded(pane, status, now, reading);
            &&& after.status == status && after.window is None
            &&& status == pane.status ==> after == pane && date_for(pane, status, now)
                == pane.changed_at
            &&& status != pane.status ==> after.changed_at == now && date_for(pane, status, now)
                == now
            &&& after.terminal == pane.terminal && after.seen == pane.seen
                && after.right_click_passthrough == pane.right_click_passthrough
        }),
{
}

/// A new pane has been seen, takes its own right clicks, reports nothing yet and
/// dates from its making; one that is rebuilt from a claim does so as well.
pub proof fn law_what_a_new_pane_is(terminal: TerminalId, claim: AgentStatusClaim, now: u64)
    ensures
        ({
            let fresh = fresh_pane(terminal, now);
            let rebuilt = rebuilt_pane(terminal, claim, now);
            &&& fresh.terminal == terminal && rebuilt.terminal == terminal
            &&& fresh.seen && rebuilt.seen
            &&& !fresh.right_click_passthrough && !rebuilt.right_click_passthrough
            &&& fresh.status is Unknown && rebuilt.status is Unknown
            &&& fresh.changed_at == now && rebuilt.changed_at == now
            &&& fresh.window is None
        }),
{
}

} // verus!
