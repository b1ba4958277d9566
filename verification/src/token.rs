//! The listener's configuration and its live bearer token.

use crate::config::WebSocketApiConfig;
use crate::encoding::{is_token_text, valid_token_chars};
use crate::net::{socket_address, SocketAddress, SocketView};
use crate::pairing::NOT_A_SOCKET_ADDRESS;
use crate::text::{quote, quoted, same_text, to_chars, view_of};
use vstd::prelude::*;

verus! {

/// A validated, ready-to-bind listener configuration.
#[derive(Clone, Debug, PartialEq, Eq)]
pub struct WebSocketApiSpec {
    pub addr: SocketAddress,
    pub token: String,
}

pub const TOKEN_MISSING: &'static str = "websocket_api.bind is set but websocket_api.token is missing; refusing to start an unauthenticated listener";

pub const TOKEN_NEEDS_ESCAPING: &'static str = "websocket_api.token must contain only ASCII letters, digits, or -._~ so it never needs escaping in an Authorization header or a URL query parameter";

pub open spec fn is_unset(value: Option<Seq<char>>) -> bool {
    match value {
        None => true,
        Some(text) => text.len() == 0,
    }
}

/// What a config section asks of the listener: nothing where `bind` is unset,
/// and an error where the section is configured but unusable.
pub open spec fn listener_spec(bind: Option<Seq<char>>, token: Option<Seq<char>>) -> Result<
    Option<(SocketView, Seq<char>)>,
    Seq<char>,
> {
    if is_unset(bind) {
        Ok(None)
    } else {
        match socket_address(bind->0) {
            None => Err(
                "invalid websocket_api.bind address "@ + quoted(bind->0) + ": "@
                    + NOT_A_SOCKET_ADDRESS@,
            ),
            Some(address) => if is_unset(token) {
                Err(TOKEN_MISSING@)
            } else if !is_token_text(token->0) {
                Err(TOKEN_NEEDS_ESCAPING@)
            } else {
                Ok(Some((address, token->0)))
            },
        }
    }
}

/// Resolve the config section into a bindable spec. An explicitly requested
/// listener is never skipped, and never started without a token.
pub fn websocket_api_spec(config: &WebSocketApiConfig) -> (spec: Result<
    Option<WebSocketApiSpec>,
    String,
>)
    ensures
        match (listener_spec(view_of(config.bind), view_of(config.token)), spec) {
            (Ok(None), Ok(None)) => true,
            (Ok(Some((address, token))), Ok(Some(spec))) => spec.addr@ == address && spec.token@
                == token,
            (Err(reason), Err(text)) => text@ == reason,
            _ => false,
        },
{
    let bind = match &config.bind {
        None => {
            return Ok(None);
        },
        Some(bind) => bind,
    };
    if bind.as_str().is_empty() {
        return Ok(None);
    }
    let chars = to_chars(bind);
    let addr = match SocketAddress::parse(&chars) {
        None => {
            let mut reason = "invalid websocket_api.bind address ".to_string();
            reason.push_str(&quote(bind));
            reason.push_str(": ");
            reason.push_str(NOT_A_SOCKET_ADDRESS);
            return Err(reason);
        },
        Some(addr) => addr,
    };
    let token = match &config.token {
        None => {
            return Err(TOKEN_MISSING.to_string());
        },
        Some(token) => token,
    };
    if token.as_str().is_empty() {
        return Err(TOKEN_MISSING.to_string());
    }
    if !valid_token_chars(token) {
        return Err(TOKEN_NEEDS_ESCAPING.to_string());
    }
    Ok(Some(WebSocketApiSpec { addr, token: token.clone() }))
}

/// The slot of the listener's expected bearer token. There is one of it and it
/// is not copied: whoever owns it rotates the token, and every handshake reads
/// it there, so that a new token takes effect for the next connection attempt
/// without rebinding the listener.
#[derive(Debug)]
pub struct SharedWebSocketToken {
    token: String,
}

impl View for SharedWebSocketToken {
    type V = Seq<char>;

    closed spec fn view(&self) -> Seq<char> {
        self.token@
    }
}

pub const RELOAD_BIND_REMOVED: &'static str = "websocket_api.bind was removed; the websocket listener stays bound and keeps its current token until the server restarts";

pub const RELOAD_TOKEN_MISSING: &'static str = "websocket_api.token is missing; the websocket listener keeps its current token";

pub const RELOAD_TOKEN_NEEDS_ESCAPING: &'static str = "websocket_api.token must contain only ASCII letters, digits, or -._~; the websocket listener keeps its current token";

/// The token that a reloaded section puts in effect, or why none.
pub open spec fn reloaded_token(bind: Option<Seq<char>>, token: Option<Seq<char>>) -> Result<
    Seq<char>,
    Seq<char>,
> {
    if is_unset(bind) {
        Err(RELOAD_BIND_REMOVED@)
    } else if is_unset(token) {
        Err(RELOAD_TOKEN_MISSING@)
    } else if !is_token_text(token->0) {
        Err(RELOAD_TOKEN_NEEDS_ESCAPING@)
    } else {
        Ok(token->0)
    }
}

impl SharedWebSocketToken {
    pub fn new(token: String) -> (slot: SharedWebSocketToken)
        ensures
            slot@ == token@,
    {
        SharedWebSocketToken { token }
    }

    /// A snapshot of the currently accepted token.
    pub fn current(&self) -> (token: String)
        ensures
            token@ == self@,
    {
        self.token.clone()
    }

    fn replace(&mut self, token: String) -> (changed: bool)
        ensures
            final(self)@ == token@,
            changed == (old(self)@ != token@),
    {
        if same_text(&self.token, &token) {
            return false;
        }
        self.token = token;
        true
    }

    /// Apply a reloaded section to the live listener. Only the token can
    /// change without a restart; on an error the current token stays in
    /// effect, so the listener never runs without one and never accepts one
    /// that would need escaping.
    pub fn apply_reloaded_config(&mut self, config: &WebSocketApiConfig) -> (changed: Result<
        bool,
        String,
    >)
        ensures
            match reloaded_token(view_of(config.bind), view_of(config.token)) {
                Ok(token) => final(self)@ == token && changed == Ok::<bool, String>(
                    old(self)@ != token,
                ),
                Err(reason) => final(self)@ == old(self)@ && (changed matches Err(text) && text@
                    == reason),
            },
    {
        let bind_is_set = match &config.bind {
            None => false,
            Some(bind) => !bind.as_str().is_empty(),
        };
        if !bind_is_set {
            return Err(RELOAD_BIND_REMOVED.to_string());
        }
        let token = match &config.token {
            None => {
                return Err(RELOAD_TOKEN_MISSING.to_string());
            },
            Some(token) => token,
        };
        if token.as_str().is_empty() {
            return Err(RELOAD_TOKEN_MISSING.to_string());
        }
        if !valid_token_chars(token) {
            return Err(RELOAD_TOKEN_NEEDS_ESCAPING.to_string());
        }
        Ok(self.replace(token.clone()))
    }
}

/// A reload never leaves the listener with an unusable token: a token that
/// was usable before stays usable, and a new one is.
pub proof fn law_reload_keeps_a_usable_token(
    before: Seq<char>,
    bind: Option<Seq<char>>,
    token: Option<Seq<char>>,
    after: Seq<char>,
)
    requires
        before.len() > 0 && is_token_text(before),
        after == (match reloaded_token(bind, token) {
            Ok(new) => new,
            Err(_) => before,
        }),
    ensures
        after.len() > 0,
        is_token_text(after),
{
}

/// A reloaded section puts its token in effect exactly where it has a bind and a
/// token of letters, digits, hyphens, dots, underscores and tildes, and at least
/// one of them; it is then that very token.
pub proof fn law_which_section_rotates_the_token(
    bind: Option<Seq<char>>,
    token: Option<Seq<char>>,
)
    ensures
        ({
            let usable = bind is Some && bind->0.len() > 0 && token is Some && token->0.len() > 0
                && forall|i: int|
                0 <= i < token->0.len() ==> {
                    let c = #[trigger] token->0[i];
                    'a' <= c <= 'z' || 'A' <= c <= 'Z' || '0' <= c <= '9' || c == '-' || c == '.'
                        || c == '_' || c == '~'
                };
            &&& reloaded_token(bind, token) is Ok <==> usable
            &&& usable ==> reloaded_token(bind, token) == Ok::<Seq<char>, Seq<char>>(token->0)
        }),
{
    if token is Some {
        let text = token->0;
        if is_token_text(text) {
            assert forall|i: int| 0 <= i < text.len() implies {
                let c = #[trigger] text[i];
                'a' <= c <= 'z' || 'A' <= c <= 'Z' || '0' <= c <= '9' || c == '-' || c == '.' || c
                    == '_' || c == '~'
            } by {
                assert(crate::encoding::is_unreserved(text[i]));
            }
        }
        if forall|i: int|
            0 <= i < text.len() ==> {
                let c = #[trigger] text[i];
                'a' <= c <= 'z' || 'A' <= c <= 'Z' || '0' <= c <= '9' || c == '-' || c == '.' || c
                    == '_' || c == '~'
            } {
            assert forall|i: int| 0 <= i < text.len() implies crate::encoding::is_unreserved(
                #[trigger] text[i],
            ) by {
                let c = text[i];
            }
        }
    }
}

/// A listener is started exactly where the section has a bind that is a socket
/// address and a usable token, with these; without a bind there is none, and
/// anything else is refused, so that none runs without a token.
pub proof fn law_which_section_starts_a_listener(bind: Option<Seq<char>>, token: Option<Seq<char>>)
    ensures
        bind is None || bind->0.len() == 0 ==> listener_spec(bind, token) == Ok::<
            Option<(SocketView, Seq<char>)>,
            Seq<char>,
        >(None),
        bind is Some && bind->0.len() > 0 ==> {
            &&& listener_spec(bind, token) is Ok <==> socket_address(bind->0) is Some
                && reloaded_token(bind, token) is Ok
            &&& listener_spec(bind, token) matches Ok(started) ==> started == Some(
                (socket_address(bind->0)->0, token->0),
            )
        },
{
}

/// Why a reloaded section leaves the token as it is: without a bind it says so
/// whatever the token is, then without a token, then with one that would need
/// escaping.
pub proof fn law_why_a_reload_keeps_the_token(bind: Seq<char>, token: Seq<char>, at: int)
    requires
        bind.len() > 0,
    ensures
        reloaded_token(None, Some(token)) == Err::<Seq<char>, Seq<char>>(RELOAD_BIND_REMOVED@),
        reloaded_token(Some(Seq::empty()), Some(token)) == Err::<Seq<char>, Seq<char>>(
            RELOAD_BIND_REMOVED@,
        ),
        reloaded_token(Some(bind), None) == Err::<Seq<char>, Seq<char>>(RELOAD_TOKEN_MISSING@),
        reloaded_token(Some(bind), Some(Seq::empty())) == Err::<Seq<char>, Seq<char>>(
            RELOAD_TOKEN_MISSING@,
        ),
        0 <= at < token.len() && (token[at] == ' ' || token[at] == '%' || token[at] == '&' || (
        token[at] as u32) >= 128) ==> reloaded_token(Some(bind), Some(token)) == Err::<
            Seq<char>,
            Seq<char>,
        >(RELOAD_TOKEN_NEEDS_ESCAPING@),
{
    if 0 <= at < token.len() && is_token_text(token) {
        assert(crate::encoding::is_unreserved(token[at]));
    }
}

} // verus!
