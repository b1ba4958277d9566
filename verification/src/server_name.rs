//! The display name a server declares about itself.
//!
//! The name comes from `websocket_api.name`, falling back to the machine's
//! host name when the config leaves it unset or blank. Names are display
//! only, never identity.

use crate::config::WebSocketApiConfig;
use crate::text::{
    declared, is_blank, is_white_space, law_what_is_declared, same_text, to_chars, to_text, trim,
    view_of,
};
use vstd::prelude::*;

verus! {

/// The name of last resort, for a machine that reports no usable host name.
pub const FALLBACK_SERVER_NAME: &'static str = "herdr";

/// A configured name wins, then the host name, then the fallback.
pub open spec fn resolved_name(
    configured: Option<Seq<char>>,
    hostname: Option<Seq<char>>,
) -> Seq<char> {
    match (declared(configured), hostname) {
        (Some(name), _) => name,
        (None, Some(hostname)) => hostname,
        (None, None) => FALLBACK_SERVER_NAME@,
    }
}

/// Resolve the declared server name from the config section.
pub fn resolve_server_name(config: &WebSocketApiConfig, hostname: &Option<String>) -> (name: String)
    ensures
        name@ == resolved_name(view_of(config.name), view_of(*hostname)),
        view_of(*hostname) != Some(Seq::<char>::empty()) ==> name@.len() > 0,
{
    proof {
        reveal_strlit("herdr");
        if let Some(hostname) = view_of(*hostname) {
            if hostname.len() == 0 {
                assert(hostname =~= Seq::<char>::empty());
            }
        }
    }
    if let Some(configured) = &config.name {
        let chars = to_chars(configured);
        let name = trim(&chars);
        if name.len() > 0 {
            return to_text(name);
        }
    }
    match hostname {
        Some(hostname) => hostname.clone(),
        None => FALLBACK_SERVER_NAME.to_string(),
    }
}

/// The slot of the server's current display name. There is one of it, read by
/// every pong, so replacing the name takes effect on the next pong.
#[derive(Debug)]
pub struct SharedServerName {
    name: String,
}

impl View for SharedServerName {
    type V = Seq<char>;

    closed spec fn view(&self) -> Seq<char> {
        self.name@
    }
}

impl SharedServerName {
    pub fn new(name: String) -> (slot: SharedServerName)
        ensures
            slot@ == name@,
    {
        SharedServerName { name }
    }

    /// The name resolved from a loaded config section.
    pub fn from_config(config: &WebSocketApiConfig, hostname: &Option<String>) -> (slot:
        SharedServerName)
        ensures
            slot@ == resolved_name(view_of(config.name), view_of(*hostname)),
    {
        SharedServerName { name: resolve_server_name(config, hostname) }
    }

    /// The currently declared name.
    pub fn current(&self) -> (name: String)
        ensures
            name@ == self@,
    {
        self.name.clone()
    }

    /// Apply a reloaded section: an absent or blank name falls back to the
    /// host name. Returns whether the name changed.
    pub fn apply_reloaded_config(
        &mut self,
        config: &WebSocketApiConfig,
        hostname: &Option<String>,
    ) -> (changed: bool)
        ensures
            final(self)@ == resolved_name(view_of(config.name), view_of(*hostname)),
            changed == (final(self)@ != old(self)@),
    {
        let name = resolve_server_name(config, hostname);
        if same_text(&self.name, &name) {
            return false;
        }
        self.name = name;
        true
    }
}

/// A configured name wins, without the white space around it; a blank one is
/// none, and the host name stands in for it, and `herdr` where there is neither.
pub proof fn law_which_name_is_declared(
    lead: Seq<char>,
    inner: Seq<char>,
    tail: Seq<char>,
    hostname: Option<Seq<char>>,
)
    requires
        is_blank(lead),
        is_blank(tail),
        inner.len() > 0 ==> !is_white_space(inner[0]) && !is_white_space(inner.last()),
    ensures
        ({
            let named = resolved_name(Some(lead + inner + tail), hostname);
            let unnamed = resolved_name(None, hostname);
            &&& inner.len() > 0 ==> named == inner
            &&& inner.len() == 0 ==> named == unnamed
            &&& hostname matches Some(host) ==> unnamed == host
            &&& hostname is None ==> unnamed == "herdr"@
        }),
{
    law_what_is_declared(lead, inner, tail);
}

} // verus!
