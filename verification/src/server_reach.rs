//! The operator-declared route to a server.
//!
//! Reach comes from `websocket_api.reach`: what another machine calls this
//! one when opening a shell, typically an ssh alias. The process cannot infer
//! it, so an absent or blank value stays undeclared.

use crate::config::WebSocketApiConfig;
use crate::text::{
    borrowed, declaration_of, declared, is_blank, is_white_space, law_what_is_declared, same_option,
    view_of,
};
use vstd::prelude::*;

verus! {

fn resolve_server_reach(config: &WebSocketApiConfig) -> (reach: Option<String>)
    ensures
        view_of(reach) == declared(view_of(config.reach)),
{
    declaration_of(borrowed(&config.reach))
}

/// The slot of the server's current declared reach. There is one of it, read
/// by every pong.
#[derive(Debug)]
pub struct SharedServerReach {
    reach: Option<String>,
}

impl View for SharedServerReach {
    type V = Option<Seq<char>>;

    closed spec fn view(&self) -> Option<Seq<char>> {
        view_of(self.reach)
    }
}

impl SharedServerReach {
    pub fn from_config(config: &WebSocketApiConfig) -> (slot: SharedServerReach)
        ensures
            slot@ == declared(view_of(config.reach)),
    {
        SharedServerReach { reach: resolve_server_reach(config) }
    }

    pub fn current(&self) -> (reach: Option<String>)
        ensures
            view_of(reach) == self@,
    {
        match &self.reach {
            Some(reach) => Some(reach.clone()),
            None => None,
        }
    }

    /// Apply a reloaded section: an absent, empty or blank value clears the
    /// declaration. Returns whether reach changed.
    pub fn apply_reloaded_config(&mut self, config: &WebSocketApiConfig) -> (changed: bool)
        ensures
            final(self)@ == declared(view_of(config.reach)),
            changed == (final(self)@ != old(self)@),
    {
        let reach = resolve_server_reach(config);
        if same_option(&self.reach, &reach) {
            return false;
        }
        self.reach = reach;
        true
    }
}

/// The declared reach is what the section says without the white space around
/// it, and a blank or an absent one declares nothing.
pub proof fn law_which_reach_is_declared(
    lead: Seq<char>,
    inner: Seq<char>,
    tail: Seq<char>,
    config: WebSocketApiConfig,
    slot: SharedServerReach,
)
    requires
        call_ensures(SharedServerReach::from_config, (&config,), slot),
        is_blank(lead),
        is_blank(tail),
        inner.len() > 0 ==> !is_white_space(inner[0]) && !is_white_space(inner.last()),
    ensures
        view_of(config.reach) == Some(lead + inner + tail) && inner.len() > 0 ==> slot@ == Some(
            inner,
        ),
        view_of(config.reach) == Some(lead + inner + tail) && inner.len() == 0 ==> slot@ is None,
        config.reach is None ==> slot@ is None,
{
    law_what_is_declared(lead, inner, tail);
}

} // verus!
