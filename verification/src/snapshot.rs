//! The session as it is written down: workspaces, tabs and panes.
//!
//! What nothing here reads is carried along as the text that it is written as,
//! and is never changed.

use vstd::prelude::*;

verus! {

#[derive(Clone, Debug, PartialEq, Eq)]
pub struct PaneSnapshot {
    pub cwd: String,
    /// The agent session that the pane belongs to, as it is written, where it
    /// has one.
    pub agent_session: Option<String>,
    pub agent_name: Option<String>,
    pub launch_argv: Option<Vec<String>>,
    /// Everything else that is written of the pane, such as its label.
    pub others: String,
}

#[derive(Clone, Debug, PartialEq, Eq)]
pub struct TabSnapshot {
    /// The tab's panes with their numbers.
    pub panes: Vec<(u32, PaneSnapshot)>,
    /// Everything else that is written of the tab: its name, its layout, and
    /// what is zoomed and focused in it.
    pub others: String,
}

#[derive(Clone, Debug, PartialEq, Eq)]
pub struct WorkspaceSnapshot {
    pub identity_cwd: String,
    pub tabs: Vec<TabSnapshot>,
    /// Everything else that is written of the workspace: its id and name, the
    /// public numbers of its tabs and panes, and which tab is active.
    pub others: String,
}

#[derive(Clone, Debug, PartialEq, Eq)]
pub struct SessionSnapshot {
    pub workspaces: Vec<WorkspaceSnapshot>,
    /// Everything else that is written of the session: its format, what is
    /// active and selected, and the sidebar.
    pub others: String,
}

/// Whether a pane runs an agent.
pub open spec fn is_agent_pane(pane: PaneSnapshot) -> bool {
    pane.agent_session is Some || pane.agent_name is Some || pane.launch_argv is Some
}

pub open spec fn tab_has_agent(tab: TabSnapshot, pane_id: u32) -> bool {
    exists|i: int|
        0 <= i < tab.panes@.len() && (#[trigger] tab.panes@[i]).0 == pane_id && is_agent_pane(
            tab.panes@[i].1,
        )
}

pub open spec fn workspace_has_agent(workspace: WorkspaceSnapshot, pane_id: u32) -> bool {
    exists|i: int|
        0 <= i < workspace.tabs@.len() && tab_has_agent(#[trigger] workspace.tabs@[i], pane_id)
}

/// Whether a session records an agent under a pane's number.
pub open spec fn has_agent(snapshot: SessionSnapshot, pane_id: u32) -> bool {
    exists|i: int|
        0 <= i < snapshot.workspaces@.len() && workspace_has_agent(
            #[trigger] snapshot.workspaces@[i],
            pane_id,
        )
}

fn tab_runs_agent(tab: &TabSnapshot, pane_id: u32) -> (yes: bool)
    ensures
        yes == tab_has_agent(*tab, pane_id),
{
    let mut i: usize = 0;
    while i < tab.panes.len()
        invariant
            i <= tab.panes@.len(),
            forall|j: int|
                0 <= j < i ==> !((#[trigger] tab.panes@[j]).0 == pane_id && is_agent_pane(
                    tab.panes@[j].1,
                )),
        decreases tab.panes@.len() - i,
    {
        let entry = &tab.panes[i];
        if entry.0 == pane_id && (entry.1.agent_session.is_some() || entry.1.agent_name.is_some()
            || entry.1.launch_argv.is_some()) {
            assert(tab.panes@[i as int].0 == pane_id && is_agent_pane(tab.panes@[i as int].1));
            return true;
        }
        i += 1;
    }
    false
}

fn workspace_runs_agent(workspace: &WorkspaceSnapshot, pane_id: u32) -> (yes: bool)
    ensures
        yes == workspace_has_agent(*workspace, pane_id),
{
    let mut i: usize = 0;
    while i < workspace.tabs.len()
        invariant
            i <= workspace.tabs@.len(),
            forall|j: int| 0 <= j < i ==> !tab_has_agent(#[trigger] workspace.tabs@[j], pane_id),
        decreases workspace.tabs@.len() - i,
    {
        if tab_runs_agent(&workspace.tabs[i], pane_id) {
            assert(tab_has_agent(workspace.tabs@[i as int], pane_id));
            return true;
        }
        i += 1;
    }
    false
}

impl SessionSnapshot {
    /// Whether the session records an agent under a pane's number.
    pub fn runs_agent(&self, pane_id: u32) -> (yes: bool)
        ensures
            yes == has_agent(*self, pane_id),
    {
        let mut i: usize = 0;
        while i < self.workspaces.len()
            invariant
                i <= self.workspaces@.len(),
                forall|j: int|
                    0 <= j < i ==> !workspace_has_agent(#[trigger] self.workspaces@[j], pane_id),
            decreases self.workspaces@.len() - i,
        {
            if workspace_runs_agent(&self.workspaces[i], pane_id) {
                assert(workspace_has_agent(self.workspaces@[i as int], pane_id));
                return true;
            }
            i += 1;
        }
        false
    }
}

/// A pane runs an agent where its session, its agent's name or its command line
/// is written down, in whichever workspace and tab it stands; without any of
/// them it runs none.
pub proof fn law_which_pane_runs_an_agent(
    snapshot: SessionSnapshot,
    workspace: int,
    tab: int,
    pane: int,
    pane_id: u32,
)
    ensures
        0 <= workspace < snapshot.workspaces@.len() && 0 <= tab
            < snapshot.workspaces@[workspace].tabs@.len() && 0 <= pane
            < snapshot.workspaces@[workspace].tabs@[tab].panes@.len() ==> ({
            let entry = snapshot.workspaces@[workspace].tabs@[tab].panes@[pane];
            entry.1.agent_session is Some || entry.1.agent_name is Some || entry.1.launch_argv
                is Some ==> has_agent(snapshot, entry.0)
        }),
        (forall|w: int, t: int, p: int|
            0 <= w < snapshot.workspaces@.len() && 0 <= t < snapshot.workspaces@[w].tabs@.len()
                && 0 <= p < snapshot.workspaces@[w].tabs@[t].panes@.len()
                && (#[trigger] snapshot.workspaces@[w].tabs@[t].panes@[p]).0 == pane_id
                ==> snapshot.workspaces@[w].tabs@[t].panes@[p].1.agent_session is None
                && snapshot.workspaces@[w].tabs@[t].panes@[p].1.agent_name is None
                && snapshot.workspaces@[w].tabs@[t].panes@[p].1.launch_argv is None)
            ==> !has_agent(snapshot, pane_id),
{
    if 0 <= workspace < snapshot.workspaces@.len() && 0 <= tab
        < snapshot.workspaces@[workspace].tabs@.len() && 0 <= pane
        < snapshot.workspaces@[workspace].tabs@[tab].panes@.len() {
        let entry = snapshot.workspaces@[workspace].tabs@[tab].panes@[pane];
        if is_agent_pane(entry.1) {
            assert(tab_has_agent(snapshot.workspaces@[workspace].tabs@[tab], entry.0));
            assert(workspace_has_agent(snapshot.workspaces@[workspace], entry.0));
        }
    }
}

} // verus!
