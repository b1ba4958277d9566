//! The long-lived pane runtime that moves during a server replacement.

use vstd::prelude::*;

verus! {

/// A pane's input modes.
#[derive(Clone, Debug, PartialEq, Eq)]
pub struct InputState {
    /// Whether the pane's application is on the alternate screen.
    pub alternate_screen: bool,
    pub application_cursor: bool,
    pub bracketed_paste: bool,
    pub focus_reporting: bool,
    /// Which mouse events are reported, as it is written.
    pub mouse_protocol_mode: String,
    /// How mouse events are reported, as it is written.
    pub mouse_protocol_encoding: String,
    pub mouse_alternate_scroll: bool,
    pub modify_other_keys: bool,
}

/// What is known of a pane's terminal.
#[derive(Clone, Copy, Debug, PartialEq, Eq, Structural)]
pub struct TerminalRecovery {
    /// Whether the terminal needs its alternate screen back after a handoff.
    pub needs_alternate_screen: bool,
}

/// A pane runtime as it is transferred.
#[derive(Clone, Debug, PartialEq, Eq)]
pub struct HandoffRuntimeState {
    pub pane_id: u32,
    pub child_pid: u32,
    pub rows: u16,
    pub cols: u16,
    pub cell_width_px: u32,
    pub cell_height_px: u32,
    pub keyboard_protocol_flags: u16,
    pub keyboard_protocol_ansi: Option<String>,
    pub input_state: Option<InputState>,
    pub terminal_title: Option<String>,
    pub initial_history_ansi: Option<String>,
}

impl HandoffRuntimeState {
    /// The same runtime under another pane's number.
    pub fn with_pane_id(self, pane_id: u32) -> (state: HandoffRuntimeState)
        ensures
            state == (HandoffRuntimeState { pane_id, ..self }),
    {
        let mut state = self;
        state.pane_id = pane_id;
        state
    }
}

/// The screen that a pane comes back on.
#[derive(Clone, Copy, Debug, PartialEq, Eq, Structural)]
pub enum HandoffScreenRestore {
    Primary,
    Alternate,
}

impl HandoffScreenRestore {
    pub fn is_alternate(self) -> (yes: bool)
        ensures
            yes == (self is Alternate),
    {
        match self {
            HandoffScreenRestore::Alternate => true,
            HandoffScreenRestore::Primary => false,
        }
    }
}

/// Which screen a pane comes back on: the alternate one where its application
/// is on it, where the terminal needs it, or where its modes, so far as it has
/// any, are those of a fullscreen application.
pub fn handoff_screen_restore(
    input_state: Option<&InputState>,
    fullscreen_modes: bool,
    terminal: Option<TerminalRecovery>,
) -> (screen: HandoffScreenRestore)
    ensures
        screen is Alternate <==> ((input_state matches Some(input) && (input.alternate_screen
            || fullscreen_modes)) || (terminal matches Some(terminal)
            && terminal.needs_alternate_screen)),
{
    let by_input = match input_state {
        Some(input) => input.alternate_screen || fullscreen_modes,
        None => false,
    };
    let by_terminal = match terminal {
        Some(terminal) => terminal.needs_alternate_screen,
        None => false,
    };
    if by_input || by_terminal {
        HandoffScreenRestore::Alternate
    } else {
        HandoffScreenRestore::Primary
    }
}

/// A pane comes back on the alternate screen where its application is on it or
/// its terminal needs it, and where its modes are those of a fullscreen
/// application, so far as it has modes; every other one on the primary screen.
pub proof fn law_which_screen_a_pane_comes_back_on(
    input: InputState,
    fullscreen_modes: bool,
    terminal: TerminalRecovery,
    alone: HandoffScreenRestore,
    by_terminal: HandoffScreenRestore,
    without_modes: HandoffScreenRestore,
)
    requires
        call_ensures(handoff_screen_restore, (Some(&input), fullscreen_modes, None), alone),
        call_ensures(
            handoff_screen_restore,
            (Some(&input), fullscreen_modes, Some(terminal)),
            by_terminal,
        ),
        call_ensures(handoff_screen_restore, (None, fullscreen_modes, None), without_modes),
    ensures
        input.alternate_screen || fullscreen_modes ==> alone is Alternate && by_terminal
            is Alternate,
        !input.alternate_screen && !fullscreen_modes ==> alone is Primary,
        terminal.needs_alternate_screen ==> by_terminal is Alternate,
        !terminal.needs_alternate_screen ==> by_terminal == alone,
        without_modes is Primary,
{
}

} // verus!
