//! What became of a freshly stored token: which server is asked to reload,
//! what a handshake proved, and the report that follows from both.
//!
//! Nothing here stands in for proof. A reload that succeeded never implies
//! that the token is live, and a listener that answers never implies that it
//! accepts anything; only an accepted handshake does.

use crate::net::{socket_text, SocketAddress};
use crate::paths::{child, child_of, parent, parent_of, paths_equal, same_path};
use crate::text::{find_text, has_prefix, view_of};
use crate::api::SOCKET_NAME;
use vstd::prelude::*;

verus! {

// ---- Which server to ask -----------------------------------------------------------------

/// The control sockets to ask for a reload, in the order they are tried.
#[derive(Clone, Debug, PartialEq, Eq)]
pub struct ControlSockets {
    /// The socket of a server living in the config file's own directory.
    pub owning: Option<String>,
    /// The socket that a server started in this environment serves.
    pub ambient: String,
}

/// The owning socket to try first, if the config file belongs to another
/// directory than the ambient socket does.
pub open spec fn owning_socket(
    config: Seq<char>,
    environment_config: Seq<char>,
    ambient: Seq<char>,
) -> Option<Seq<char>> {
    if same_path(config, environment_config) {
        None
    } else {
        match parent(config) {
            None => None,
            Some(home) => if same_path(child(home, SOCKET_NAME@), ambient) {
                None
            } else {
                Some(child(home, SOCKET_NAME@))
            },
        }
    }
}

/// Resolve the control sockets to try for the server that reads a config.
pub fn control_sockets_for_config(
    config_path: &str,
    environment_config_path: &str,
    ambient: String,
) -> (sockets: ControlSockets)
    ensures
        view_of(sockets.owning) == owning_socket(
            config_path@,
            environment_config_path@,
            ambient@,
        ),
        sockets.ambient@ == ambient@,
{
    if paths_equal(config_path, environment_config_path) {
        return ControlSockets { owning: None, ambient };
    }
    let owning = match parent_of(config_path) {
        None => None,
        Some(home) => {
            let socket = child_of(&home, SOCKET_NAME);
            if paths_equal(&socket, &ambient) {
                None
            } else {
                Some(socket)
            }
        },
    };
    ControlSockets { owning, ambient }
}

/// The sockets in the order they are tried: the owning one first.
pub open spec fn socket_order(sockets: ControlSockets) -> Seq<String> {
    match sockets.owning {
        Some(owning) => seq![owning, sockets.ambient],
        None => seq![sockets.ambient],
    }
}

impl ControlSockets {
    pub fn in_order(&self) -> (order: Vec<String>)
        ensures
            order@ == socket_order(*self),
    {
        let mut order: Vec<String> = Vec::new();
        if let Some(owning) = &self.owning {
            order.push(owning.clone());
        }
        order.push(self.ambient.clone());
        assert(order@ =~= socket_order(*self));
        order
    }
}

/// Which server was asked to reload its config, and what came back.
#[derive(Clone, Debug, PartialEq, Eq)]
pub enum ConfigReload {
    /// A server answered on this control socket and reloaded its config.
    Reloaded { socket: String },
    /// No server answered any control socket that was tried.
    NoServer { socket: String },
    /// A server answered and the reload failed.
    Failed(String),
}

/// What a reload request brought back.
#[derive(Clone, Debug, PartialEq, Eq)]
pub enum ReloadReply {
    /// A success response.
    Answered,
    /// An error response with this message.
    Refused(String),
    /// The socket does not exist or refused the connection.
    Unreachable,
    /// Any other failure, in words.
    Broken(String),
}

/// What a reply to a reload request on one socket says. A socket that nothing
/// listens on is no failure: that server is not running.
pub fn reload_config_at(socket: &str, reply: ReloadReply) -> (reload: ConfigReload)
    ensures
        match reply {
            ReloadReply::Answered => reload matches ConfigReload::Reloaded { socket: at } && at@
                == socket@,
            ReloadReply::Unreachable => reload matches ConfigReload::NoServer { socket: at } && at@
                == socket@,
            ReloadReply::Refused(message) => reload == ConfigReload::Failed(message),
            ReloadReply::Broken(message) => reload == ConfigReload::Failed(message),
        },
{
    match reply {
        ReloadReply::Answered => ConfigReload::Reloaded { socket: socket.to_string() },
        ReloadReply::Unreachable => ConfigReload::NoServer { socket: socket.to_string() },
        ReloadReply::Refused(message) => ConfigReload::Failed(message),
        ReloadReply::Broken(message) => ConfigReload::Failed(message),
    }
}

/// The next thing to do while looking for the server to reload.
#[derive(Clone, Debug, PartialEq, Eq)]
pub enum ReloadStep {
    /// Ask the server on this socket.
    Ask(String),
    /// The search is over.
    Done(ConfigReload),
}

/// The search so far: every socket asked was silent, and this is the answer
/// where one is known.
pub open spec fn first_answer(answers: Seq<ConfigReload>) -> Option<ConfigReload>
    decreases answers.len(),
{
    if answers.len() == 0 {
        None
    } else if !(answers[0] is NoServer) {
        Some(answers[0])
    } else {
        first_answer(answers.skip(1))
    }
}

/// Ask the first server that answers: the next candidate is tried only while
/// every one before it was not running, and where none is, the first socket
/// tried is reported.
#[verifier::loop_isolation(false)]
pub fn reload_config_of_owning_server(sockets: &ControlSockets, answers: &Vec<ConfigReload>) -> (step:
    ReloadStep)
    ensures
        match first_answer(answers@) {
            Some(answer) => step == ReloadStep::Done(answer),
            None => if answers@.len() < socket_order(*sockets).len() {
                step == ReloadStep::Ask(socket_order(*sockets)[answers@.len() as int])
            } else {
                step == ReloadStep::Done(answers@[0])
            },
        },
{
    let mut i: usize = 0;
    assert(answers@.skip(0) =~= answers@);
    while i < answers.len()
        invariant
            i <= answers@.len(),
            first_answer(answers@.skip(i as int)) == first_answer(answers@),
        decreases answers@.len() - i,
    {
        assert(answers@.skip(i as int)[0] == answers@[i as int]);
        assert(answers@.skip(i as int).skip(1) =~= answers@.skip(i + 1));
        match &answers[i] {
            ConfigReload::NoServer { .. } => {},
            ConfigReload::Reloaded { socket } => {
                return ReloadStep::Done(ConfigReload::Reloaded { socket: socket.clone() });
            },
            ConfigReload::Failed(reason) => {
                return ReloadStep::Done(ConfigReload::Failed(reason.clone()));
            },
        }
        i += 1;
    }
    let order = sockets.in_order();
    if answers.len() < order.len() {
        return ReloadStep::Ask(order[answers.len()].clone());
    }
    match &answers[0] {
        ConfigReload::NoServer { socket } => ReloadStep::Done(
            ConfigReload::NoServer { socket: socket.clone() },
        ),
        ConfigReload::Reloaded { socket } => ReloadStep::Done(
            ConfigReload::Reloaded { socket: socket.clone() },
        ),
        ConfigReload::Failed(reason) => ReloadStep::Done(ConfigReload::Failed(reason.clone())),
    }
}

// ---- What a handshake proved ---------------------------------------------------------------

/// What presenting a token to the listener established.
#[derive(Clone, Debug, PartialEq, Eq)]
pub enum TokenProof {
    /// The listener completed the handshake for this token.
    Accepted,
    /// The listener answered the handshake by refusing the token.
    Refused,
    /// Nothing accepted a connection on the address.
    NoListener,
    /// Something answered, but neither accepted nor refused the token.
    Inconclusive(String),
}

/// How far an attempt to present a token came.
#[derive(Clone, Debug, PartialEq, Eq)]
pub enum ProbeEvent {
    /// The connection was refused, or connecting timed out.
    NothingListens,
    /// Connecting failed for another reason, in words.
    CouldNotConnect(String),
    /// The handshake's time could not be bounded, in words.
    CouldNotBound(String),
    /// No handshake request could be built, in words.
    CouldNotBuild(String),
    /// The handshake completed.
    Completed,
    /// The handshake was answered with this http status, shown as this text.
    HttpStatus { code: u16, shown: String },
    /// The handshake failed in another way, in words.
    Incomplete(String),
}

/// The proof that an attempt amounts to. Only an unauthorized or forbidden
/// answer is a refusal of the token; every other answer proves nothing.
pub open spec fn proof_of(address: Seq<char>, event: ProbeEvent, probe: TokenProof) -> bool {
    match event {
        ProbeEvent::NothingListens => probe is NoListener,
        ProbeEvent::Completed => probe is Accepted,
        ProbeEvent::CouldNotConnect(error) => probe matches TokenProof::Inconclusive(reason)
            && reason@ == "could not connect to "@ + address + ": "@ + error@,
        ProbeEvent::CouldNotBound(error) => probe matches TokenProof::Inconclusive(reason)
            && reason@ == "could not bound the handshake: "@ + error@,
        ProbeEvent::CouldNotBuild(error) => probe matches TokenProof::Inconclusive(reason)
            && reason@ == "could not build a handshake for "@ + address + ": "@ + error@,
        ProbeEvent::HttpStatus { code, shown } => if code == 401 || code == 403 {
            probe is Refused
        } else {
            probe matches TokenProof::Inconclusive(reason) && reason@
                == "the listener answered the handshake with http "@ + shown@
        },
        ProbeEvent::Incomplete(error) => probe matches TokenProof::Inconclusive(reason) && reason@
            == "the handshake did not complete: "@ + error@,
    }
}

fn labelled(label: &str, detail: &str) -> (text: String)
    ensures
        text@ == label@ + detail@,
{
    let mut text = label.to_string();
    text.push_str(detail);
    text
}

pub fn probe_token(address: &SocketAddress, event: ProbeEvent) -> (probe: TokenProof)
    ensures
        proof_of(socket_text(address@), event, probe),
{
    match event {
        ProbeEvent::NothingListens => TokenProof::NoListener,
        ProbeEvent::Completed => TokenProof::Accepted,
        ProbeEvent::CouldNotConnect(error) => {
            let mut reason = labelled("could not connect to ", &address.to_text());
            reason.push_str(": ");
            reason.push_str(&error);
            TokenProof::Inconclusive(reason)
        },
        ProbeEvent::CouldNotBound(error) => TokenProof::Inconclusive(
            labelled("could not bound the handshake: ", &error),
        ),
        ProbeEvent::CouldNotBuild(error) => {
            let mut reason = labelled("could not build a handshake for ", &address.to_text());
            reason.push_str(": ");
            reason.push_str(&error);
            TokenProof::Inconclusive(reason)
        },
        ProbeEvent::HttpStatus { code, shown } => if code == 401 || code == 403 {
            TokenProof::Refused
        } else {
            TokenProof::Inconclusive(
                labelled("the listener answered the handshake with http ", &shown),
            )
        },
        ProbeEvent::Incomplete(error) => TokenProof::Inconclusive(
            labelled("the handshake did not complete: ", &error),
        ),
    }
}

/// What presenting the previous token proved after the rotation.
#[derive(Clone, Copy, Debug, PartialEq, Eq, Structural)]
pub enum PreviousTokenProof {
    /// There was no previous token, or presenting it proved nothing.
    Unproven,
    /// Presenting the previous token was refused: the rotation took effect.
    Refused,
    /// The previous token was still accepted after the rotation.
    StillAccepted,
}

/// Whether and how the freshly stored token reached a live listener.
#[derive(Clone, Debug, PartialEq, Eq)]
pub enum TokenActivation {
    /// A handshake presenting the new token was accepted.
    LiveNow { previous_token: PreviousTokenProof },
    /// No server answered a control socket and nothing listens; the stored
    /// token applies at the next start.
    NoServer { socket: String },
    /// A server reloaded its config, but nothing listens on the address.
    NeedsListenerRestart,
    /// A listener answers and refused the new token.
    NotAccepted { reload: ConfigReload },
    /// A listener answered but neither accepted nor refused the token.
    Unverified { reason: String },
    /// A server answered and the reload failed.
    Failed(String),
}

/// What is known of the previous token once the new one was accepted.
pub open spec fn previous_proof(previous: Option<TokenProof>) -> PreviousTokenProof {
    match previous {
        Some(TokenProof::Refused) => PreviousTokenProof::Refused,
        Some(TokenProof::Accepted) => PreviousTokenProof::StillAccepted,
        _ => PreviousTokenProof::Unproven,
    }
}

/// The one state that a reload and the handshakes support.
pub open spec fn activation_of(
    reload: ConfigReload,
    new_token: TokenProof,
    previous: Option<TokenProof>,
) -> TokenActivation {
    match (reload, new_token) {
        (ConfigReload::Failed(reason), _) => TokenActivation::Failed(reason),
        (_, TokenProof::Accepted) => TokenActivation::LiveNow {
            previous_token: previous_proof(previous),
        },
        (ConfigReload::Reloaded { .. }, TokenProof::NoListener) =>
            TokenActivation::NeedsListenerRestart,
        (ConfigReload::NoServer { socket }, TokenProof::NoListener) => TokenActivation::NoServer {
            socket,
        },
        (reload, TokenProof::Refused) => TokenActivation::NotAccepted { reload },
        (_, TokenProof::Inconclusive(reason)) => TokenActivation::Unverified { reason },
    }
}

/// Turn the reload outcome and the handshakes into the one state they
/// support.
pub fn decide_activation(
    reload: ConfigReload,
    new_token: TokenProof,
    previous_token: Option<TokenProof>,
) -> (activation: TokenActivation)
    ensures
        activation == activation_of(reload, new_token, previous_token),
{
    if let ConfigReload::Failed(reason) = reload {
        return TokenActivation::Failed(reason);
    }
    match new_token {
        TokenProof::Accepted => TokenActivation::LiveNow {
            previous_token: match previous_token {
                Some(TokenProof::Refused) => PreviousTokenProof::Refused,
                Some(TokenProof::Accepted) => PreviousTokenProof::StillAccepted,
                _ => PreviousTokenProof::Unproven,
            },
        },
        TokenProof::NoListener => match reload {
            ConfigReload::NoServer { socket } => TokenActivation::NoServer { socket },
            _ => TokenActivation::NeedsListenerRestart,
        },
        TokenProof::Refused => TokenActivation::NotAccepted { reload },
        TokenProof::Inconclusive(reason) => TokenActivation::Unverified { reason },
    }
}

/// The next thing to do while a stored token is applied.
#[derive(Clone, Debug, PartialEq, Eq)]
pub enum ActivationStep {
    /// Present the new token to the listener.
    ProbeNew,
    /// Present the previous token to the listener.
    ProbePrevious,
    /// What became of the token is decided.
    Done(TokenActivation),
}

/// What was observed so far while a stored token is applied.
#[derive(Clone, Debug, PartialEq, Eq)]
pub struct ActivationProgress {
    pub reload: ConfigReload,
    pub new_token: Option<TokenProof>,
    /// Whether there was a previous token to present.
    pub previous_token_existed: bool,
    pub previous_token: Option<TokenProof>,
}

/// Whether the previous token is still to be presented: only once the
/// listener has been shown to be the one that holds the new token.
pub open spec fn previous_is_due(progress: ActivationProgress) -> bool {
    progress.new_token == Some(TokenProof::Accepted) && progress.previous_token_existed
        && progress.previous_token is None
}

/// One step of applying a stored token to whatever serves its address. A
/// failed reload ends it at once; the previous token is asked about only
/// after the new one was accepted.
pub fn apply_token_to_running_server(progress: ActivationProgress) -> (step: ActivationStep)
    ensures
        match (progress.reload, progress.new_token) {
            (ConfigReload::Failed(reason), _) => step == ActivationStep::Done(
                TokenActivation::Failed(reason),
            ),
            (_, None) => step is ProbeNew,
            (_, Some(new_token)) => if previous_is_due(progress) {
                step is ProbePrevious
            } else {
                step == ActivationStep::Done(
                    activation_of(progress.reload, new_token, progress.previous_token),
                )
            },
        },
{
    if let ConfigReload::Failed(reason) = progress.reload {
        return ActivationStep::Done(TokenActivation::Failed(reason));
    }
    match progress.new_token {
        None => ActivationStep::ProbeNew,
        Some(new_token) => {
            if let TokenProof::Accepted = new_token {
                if progress.previous_token_existed && progress.previous_token.is_none() {
                    return ActivationStep::ProbePrevious;
                }
            }
            ActivationStep::Done(
                decide_activation(progress.reload, new_token, progress.previous_token),
            )
        },
    }
}

/// Only an accepted handshake is reported as live: whatever the reload said
/// and whatever the previous token did, no other proof of the new token
/// leads there.
pub proof fn law_only_an_accepted_handshake_is_live(
    reload: ConfigReload,
    new_token: TokenProof,
    previous: Option<TokenProof>,
)
    ensures
        activation_of(reload, new_token, previous) is LiveNow <==> new_token is Accepted
            && !(reload is Failed),
{
}

// ---- The report ------------------------------------------------------------------------------

pub open spec fn rotation_text(previous_token_existed: bool) -> Seq<char> {
    if previous_token_existed {
        "Rotated: the previous token was replaced in config.toml"@
    } else {
        "Stored the first token in config.toml"@
    }
}

pub open spec fn applied_text(previous_token_existed: bool, address: Seq<char>) -> Seq<char> {
    rotation_text(previous_token_existed) + " and applied to the running server: a handshake on "@
        + address + " presenting the new token was accepted"@
}

pub open spec fn refused_text(
    reload: ConfigReload,
    previous_token_existed: bool,
    address: Seq<char>,
) -> Seq<char> {
    match reload {
        ConfigReload::Reloaded { socket } => rotation_text(previous_token_existed)
            + ", and the server at "@ + socket@ + " reloaded its config, but a handshake on "@
            + address + " presenting the new token was refused."@,
        _ => rotation_text(previous_token_existed)
            + ", but no herdr server answered a control socket, and a handshake on "@ + address
            + " presenting the new token was refused."@,
    }
}

/// What is told of each outcome.
pub open spec fn report_text(
    activation: TokenActivation,
    previous_token_existed: bool,
    address: Seq<char>,
    config: Seq<char>,
) -> Seq<char> {
    let rotation = rotation_text(previous_token_existed);
    let applied = applied_text(previous_token_existed, address);
    match activation {
        TokenActivation::NoServer { socket } => rotation
            + ". No running herdr server answered the control socket at "@ + socket@
            + ", and nothing is listening on "@ + address
            + "; the token takes effect when the server starts."@,
        TokenActivation::LiveNow { previous_token } => match previous_token {
            PreviousTokenProof::Refused => applied
                + ", and one presenting the previous token was refused."@,
            PreviousTokenProof::StillAccepted => applied
                + ", but one presenting the previous token was accepted too.\nwarning: the previous token has not stopped authenticating. Restart the herdr server serving "@
                + address + " before treating it as revoked."@,
            PreviousTokenProof::Unproven => if previous_token_existed {
                applied
                    + ".\nWhether the previous token still authenticates was not established."@
            } else {
                applied + "."@
            },
        },
        TokenActivation::NeedsListenerRestart => rotation
            + " and the running server reloaded its config, but nothing is listening on "@
            + address
            + " yet.\nRestart the herdr server so it binds the websocket listener, then scan."@,
        TokenActivation::NotAccepted { reload } => refused_text(
            reload,
            previous_token_existed,
            address,
        ) + "\nwarning: the printed token does not authenticate. Whatever serves "@ + address
            + " has not applied "@ + config
            + ": it is a different server, or it did not reload. Find it with `herdr session list --json`, then reload it with `HERDR_SOCKET_PATH=<its socket_path> herdr server reload-config` or restart it; the printed payload works once it does."@,
        TokenActivation::Unverified { reason } => rotation + ", but whether the listener on "@
            + address + " accepts the new token could not be established: "@ + reason@
            + ".\nwarning: nothing has connected with the printed token. Restart the herdr server serving "@
            + address + ", or connect with the token yourself, before relying on it."@,
        TokenActivation::Failed(reason) => rotation
            + ", but applying it to the running server failed: "@ + reason@
            + ".\nwarning: the previous token may still be accepted until `herdr server reload-config` succeeds or the server restarts."@,
    }
}

/// Exit is non-zero where the printed payload was observed not to work, where
/// it could not be shown to work although something answers, and where the
/// previous token still works.
pub open spec fn exit_code_of(activation: TokenActivation) -> i32 {
    match activation {
        TokenActivation::NoServer { .. } => 0,
        TokenActivation::NeedsListenerRestart => 0,
        TokenActivation::LiveNow { previous_token } => if previous_token
            == PreviousTokenProof::StillAccepted {
            1
        } else {
            0
        },
        _ => 1,
    }
}

/// The outcome in words, and the process exit code.
pub fn activation_report(
    activation: &TokenActivation,
    previous_token_existed: bool,
    address: &SocketAddress,
    config_path: &str,
) -> (report: (String, i32))
    ensures
        report.0@ == report_text(
            *activation,
            previous_token_existed,
            socket_text(address@),
            config_path@,
        ),
        report.1 == exit_code_of(*activation),
{
    let addr = address.to_text();
    let rotation = if previous_token_existed {
        "Rotated: the previous token was replaced in config.toml"
    } else {
        "Stored the first token in config.toml"
    };
    let mut text = rotation.to_string();
    let code: i32 = match activation {
        TokenActivation::NoServer { socket } => {
            text.push_str(". No running herdr server answered the control socket at ");
            text.push_str(socket);
            text.push_str(", and nothing is listening on ");
            text.push_str(&addr);
            text.push_str("; the token takes effect when the server starts.");
            0
        },
        TokenActivation::LiveNow { previous_token } => {
            text.push_str(" and applied to the running server: a handshake on ");
            text.push_str(&addr);
            text.push_str(" presenting the new token was accepted");
            match previous_token {
                PreviousTokenProof::Refused => {
                    text.push_str(", and one presenting the previous token was refused.");
                    0
                },
                PreviousTokenProof::StillAccepted => {
                    text.push_str(
                        ", but one presenting the previous token was accepted too.\nwarning: the previous token has not stopped authenticating. Restart the herdr server serving ",
                    );
                    text.push_str(&addr);
                    text.push_str(" before treating it as revoked.");
                    1
                },
                PreviousTokenProof::Unproven => {
                    if previous_token_existed {
                        text.push_str(
                            ".\nWhether the previous token still authenticates was not established.",
                        );
                    } else {
                        text.push_str(".");
                    }
                    0
                },
            }
        },
        TokenActivation::NeedsListenerRestart => {
            text.push_str(
                " and the running server reloaded its config, but nothing is listening on ",
            );
            text.push_str(&addr);
            text.push_str(
                " yet.\nRestart the herdr server so it binds the websocket listener, then scan.",
            );
            0
        },
        TokenActivation::NotAccepted { reload } => {
            match reload {
                ConfigReload::Reloaded { socket } => {
                    text.push_str(", and the server at ");
                    text.push_str(socket);
                    text.push_str(" reloaded its config, but a handshake on ");
                },
                _ => {
                    text.push_str(
                        ", but no herdr server answered a control socket, and a handshake on ",
                    );
                },
            }
            text.push_str(&addr);
            text.push_str(" presenting the new token was refused.");
            assert(text@ =~= refused_text(*reload, previous_token_existed, addr@));
            text.push_str("\nwarning: the printed token does not authenticate. Whatever serves ");
            text.push_str(&addr);
            text.push_str(" has not applied ");
            text.push_str(config_path);
            text.push_str(
                ": it is a different server, or it did not reload. Find it with `herdr session list --json`, then reload it with `HERDR_SOCKET_PATH=<its socket_path> herdr server reload-config` or restart it; the printed payload works once it does.",
            );
            1
        },
        TokenActivation::Unverified { reason } => {
            text.push_str(", but whether the listener on ");
            text.push_str(&addr);
            text.push_str(" accepts the new token could not be established: ");
            text.push_str(reason);
            text.push_str(
                ".\nwarning: nothing has connected with the printed token. Restart the herdr server serving ",
            );
            text.push_str(&addr);
            text.push_str(", or connect with the token yourself, before relying on it.");
            1
        },
        TokenActivation::Failed(reason) => {
            text.push_str(", but applying it to the running server failed: ");
            text.push_str(reason);
            text.push_str(
                ".\nwarning: the previous token may still be accepted until `herdr server reload-config` succeeds or the server restarts.",
            );
            1
        },
    };
    (text, code)
}

proof fn lemma_text_is_found(text: Seq<char>, needle: Seq<char>, at: int)
    requires
        0 <= at <= text.len(),
        has_prefix(text.skip(at), needle),
    ensures
        find_text(text, needle) is Some,
    decreases at,
{
    if at == 0 {
        assert(text.skip(0) =~= text);
    } else {
        assert(text.skip(1).skip(at - 1) =~= text.skip(at));
        lemma_text_is_found(text.skip(1), needle, at - 1);
    }
}

/// Wherever the new token was accepted, the report says so.
pub proof fn law_a_live_report_tells_of_the_accepted_handshake(
    previous_token: PreviousTokenProof,
    previous_token_existed: bool,
    address: Seq<char>,
    config: Seq<char>,
)
    ensures
        find_text(
            report_text(
                TokenActivation::LiveNow { previous_token },
                previous_token_existed,
                address,
                config,
            ),
            "presenting the new token was accepted"@,
        ) is Some,
{
    reveal_strlit(" presenting the new token was accepted");
    reveal_strlit("presenting the new token was accepted");
    let said = "presenting the new token was accepted"@;
    let report = report_text(
        TokenActivation::LiveNow { previous_token },
        previous_token_existed,
        address,
        config,
    );
    let head = rotation_text(previous_token_existed)
        + " and applied to the running server: a handshake on "@ + address;
    let at = head.len() + 1;
    assert(" presenting the new token was accepted"@.skip(1) =~= said);
    assert(report.skip(at as int).take(said.len() as int) =~= said);
    assert(has_prefix(report.skip(at as int), said));
    lemma_text_is_found(report, said, at as int);
}

/// A run exits zero exactly when nothing was observed to be wrong: the token
/// is live and the previous one was not seen to be accepted, or there is no
/// listener yet to try it on.
pub proof fn law_exit_code_is_zero_only_without_a_problem(
    reload: ConfigReload,
    new_token: TokenProof,
    previous: Option<TokenProof>,
)
    ensures
        exit_code_of(activation_of(reload, new_token, previous)) == 0 <==> !(reload is Failed) && (
        new_token is NoListener || (new_token is Accepted && previous != Some(
            TokenProof::Accepted,
        ))),
{
}

/// The server that is asked first is the one that lives beside the config file,
/// at `herdr.sock` in its directory, unless the file is the environment's own
/// or that socket is the environment's own.
pub proof fn law_which_server_owns_a_config(
    home: Seq<char>,
    config: Seq<char>,
    environment_config: Seq<char>,
    ambient: Seq<char>,
)
    requires
        parent(config) == Some(home),
        home.len() > 0 && home.last() != '/',
    ensures
        ({
            let socket = home + "/"@ + "herdr.sock"@;
            &&& same_path(config, environment_config) ==> owning_socket(
                config,
                environment_config,
                ambient,
            ) is None
            &&& same_path(socket, ambient) ==> owning_socket(config, environment_config, ambient)
                is None
            &&& !same_path(config, environment_config) && !same_path(socket, ambient)
                ==> owning_socket(config, environment_config, ambient) == Some(socket)
        }),
{
    assert(child(home, SOCKET_NAME@) =~= home + "/"@ + "herdr.sock"@);
}

/// The owning server is tried before the ambient one, which is always tried
/// last.
pub proof fn law_the_owning_server_is_tried_first(sockets: ControlSockets)
    ensures
        socket_order(sockets).last() == sockets.ambient,
        sockets.owning is None ==> socket_order(sockets).len() == 1,
        sockets.owning matches Some(owning) ==> socket_order(sockets).len() == 2 && socket_order(
            sockets,
        )[0] == owning,
{
}

/// A socket that nothing listens on has no server; a server that answered with
/// an error, or not in order, failed; one that answered has reloaded.
pub proof fn law_what_a_reload_brought(socket: &str, reply: ReloadReply, reload: ConfigReload)
    requires
        call_ensures(reload_config_at, (socket, reply), reload),
    ensures
        reply is Answered <==> reload is Reloaded,
        reply is Unreachable <==> reload is NoServer,
        reply is Refused || reply is Broken <==> reload is Failed,
        reload matches ConfigReload::Reloaded { socket: at } ==> at@ == socket@,
        reload matches ConfigReload::NoServer { socket: at } ==> at@ == socket@,
        reply matches ReloadReply::Refused(message) ==> reload == ConfigReload::Failed(message),
        reply matches ReloadReply::Broken(message) ==> reload == ConfigReload::Failed(message),
{
}

/// The search for a server ends with the first one that is running, whatever it
/// said, and goes on while there is none.
pub proof fn law_the_first_running_server_answers(answers: Seq<ConfigReload>, at: int)
    ensures
        0 <= at < answers.len() && !(answers[at] is NoServer) && (forall|j: int|
            0 <= j < at ==> (#[trigger] answers[j]) is NoServer) ==> first_answer(answers) == Some(
            answers[at],
        ),
        (forall|j: int| 0 <= j < answers.len() ==> (#[trigger] answers[j]) is NoServer)
            ==> first_answer(answers) is None,
    decreases answers.len(),
{
    if answers.len() > 0 {
        let rest = answers.skip(1);
        law_the_first_running_server_answers(rest, at - 1);
        if 0 < at < answers.len() && (forall|j: int|
            0 <= j < at ==> (#[trigger] answers[j]) is NoServer) {
            assert(answers[0] is NoServer);
            assert(rest[at - 1] == answers[at]);
            assert forall|j: int| 0 <= j < at - 1 implies (#[trigger] rest[j]) is NoServer by {
                assert(rest[j] == answers[j + 1]);
            }
        }
        if forall|j: int| 0 <= j < answers.len() ==> (#[trigger] answers[j]) is NoServer {
            assert(answers[0] is NoServer);
            assert forall|j: int| 0 <= j < rest.len() implies (#[trigger] rest[j]) is NoServer by {
                assert(rest[j] == answers[j + 1]);
            }
        }
    }
}

/// Every candidate is asked while none before it was running, and where none
/// is, the first that was asked is reported.
pub proof fn law_every_control_socket_is_asked(
    sockets: ControlSockets,
    answers: Vec<ConfigReload>,
    step: ReloadStep,
)
    requires
        call_ensures(reload_config_of_owning_server, (&sockets, &answers), step),
        forall|j: int| 0 <= j < answers@.len() ==> (#[trigger] answers@[j]) is NoServer,
    ensures
        answers@.len() == 0 ==> step == ReloadStep::Ask(match sockets.owning {
            Some(owning) => owning,
            None => sockets.ambient,
        }),
        answers@.len() == 1 && sockets.owning is Some ==> step == ReloadStep::Ask(sockets.ambient),
        answers@.len() == 1 && sockets.owning is None ==> step == ReloadStep::Done(answers@[0]),
        answers@.len() == 2 ==> step == ReloadStep::Done(answers@[0]),
{
    law_the_first_running_server_answers(answers@, 0);
}

/// A token is refused where the listener answers that it is unauthorized or
/// forbidden, and by no other answer; it is accepted by a completed handshake
/// alone; and where nothing listens nothing was proved of it.
pub proof fn law_what_a_handshake_proves(
    address: Seq<char>,
    event: ProbeEvent,
    probe: TokenProof,
)
    requires
        proof_of(address, event, probe),
    ensures
        probe is Accepted <==> event is Completed,
        probe is NoListener <==> event is NothingListens,
        probe is Refused <==> (event matches ProbeEvent::HttpStatus { code, .. } && (code == 401
            || code == 403)),
        event is CouldNotConnect || event is CouldNotBound || event is CouldNotBuild || event
            is Incomplete ==> probe is Inconclusive,
        event matches ProbeEvent::HttpStatus { code, shown } ==> (code != 401 && code != 403 ==> (
        probe matches TokenProof::Inconclusive(reason) && reason@
            == "the listener answered the handshake with http "@ + shown@)),
{
}

/// What the reload and the handshakes come to, by what was seen: a failed
/// reload fails, a refusal is not accepted, silence needs a start or a restart,
/// and anything unclear stays unverified.
pub proof fn law_what_a_stored_token_came_to(
    reload: ConfigReload,
    new_token: TokenProof,
    previous: Option<TokenProof>,
)
    ensures
        ({
            let activation = activation_of(reload, new_token, previous);
            &&& activation is Failed <==> reload is Failed
            &&& activation is NoServer <==> reload is NoServer && new_token is NoListener
            &&& activation is NeedsListenerRestart <==> reload is Reloaded && new_token
                is NoListener
            &&& activation is NotAccepted <==> !(reload is Failed) && new_token is Refused
            &&& activation is Unverified <==> !(reload is Failed) && new_token is Inconclusive
            &&& !(reload is Failed) && new_token is Accepted && previous == Some(
                TokenProof::Refused,
            ) ==> activation == (TokenActivation::LiveNow {
                previous_token: PreviousTokenProof::Refused,
            })
            &&& !(reload is Failed) && new_token is Accepted && previous == Some(
                TokenProof::Accepted,
            ) ==> activation == (TokenActivation::LiveNow {
                previous_token: PreviousTokenProof::StillAccepted,
            })
            &&& !(reload is Failed) && new_token is Accepted && previous is None ==> activation == (
            TokenActivation::LiveNow { previous_token: PreviousTokenProof::Unproven })
        }),
{
}

/// The new token is presented once a reload did not fail, and the previous one,
/// where there was one, once the new one was accepted, and once only.
pub proof fn law_which_token_is_presented_next(progress: ActivationProgress, step: ActivationStep)
    requires
        call_ensures(apply_token_to_running_server, (progress,), step),
    ensures
        step is ProbeNew <==> !(progress.reload is Failed) && progress.new_token is None,
        step is ProbePrevious <==> !(progress.reload is Failed) && progress.new_token == Some(
            TokenProof::Accepted,
        ) && progress.previous_token_existed && progress.previous_token is None,
        progress.reload matches ConfigReload::Failed(reason) ==> step == ActivationStep::Done(
            TokenActivation::Failed(reason),
        ),
{
}

} // verus!
