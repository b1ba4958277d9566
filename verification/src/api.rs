//! What the API declares of itself, and where it listens.

use crate::attachment::{file_attachments_capability, MAX_ATTACHMENT_BYTES, MAX_UPLOAD_BYTES};
use crate::paths::{child, child_of};
use crate::platform::PlatformCapabilities;
use crate::schema::{FileAttachmentsCapability, ServerCapabilities};
use vstd::prelude::*;

verus! {

/// The environment variable that overrides where the API listens.
pub const SOCKET_PATH_ENV_VAR: &'static str = "HERDR_SOCKET_PATH";

/// The name of the API's socket inside its directory.
pub const SOCKET_NAME: &'static str = "herdr.sock";

/// The directory that holds the directories of named sessions.
pub const SESSIONS_DIR: &'static str = "sessions";

/// What this build's API declares it can do, for every listener and every
/// server mode. Only what the platform and the process decide differs.
pub fn server_capabilities(platform: PlatformCapabilities, detached: bool) -> (capabilities:
    ServerCapabilities)
    ensures
        capabilities == (ServerCapabilities {
            live_handoff: platform.live_handoff,
            detached_server_daemon: detached,
            send_affirm: true,
            stream_multiplex: true,
            credential_registry: true,
            file_attachments: Some(
                FileAttachmentsCapability {
                    max_bytes: MAX_UPLOAD_BYTES,
                    chunk_bytes: MAX_ATTACHMENT_BYTES as u64,
                },
            ),
        }),
{
    ServerCapabilities {
        live_handoff: platform.live_handoff,
        detached_server_daemon: detached,
        send_affirm: true,
        stream_multiplex: true,
        credential_registry: true,
        file_attachments: Some(file_attachments_capability()),
    }
}

/// What decides where the API listens.
#[derive(Clone, Copy, Debug)]
pub struct SocketChoice<'a> {
    /// The session that was asked for on the command line.
    pub explicit_session: Option<&'a str>,
    /// The socket that the environment names.
    pub socket_override: Option<&'a str>,
    /// The session that the environment names.
    pub inherited_session: Option<&'a str>,
}

/// The socket of a named session.
pub open spec fn session_socket(config_dir: Seq<char>, session: Seq<char>) -> Seq<char> {
    child(child(child(config_dir, SESSIONS_DIR@), session), SOCKET_NAME@)
}

/// Where the API listens: an explicit session first, then the environment's
/// socket, then the environment's session, then the default.
pub open spec fn active_socket(config_dir: Seq<char>, choice: SocketChoice<'_>) -> Seq<char> {
    match (choice.explicit_session, choice.socket_override, choice.inherited_session) {
        (Some(session), _, _) => session_socket(config_dir, session@),
        (None, Some(path), _) => path@,
        (None, None, Some(session)) => session_socket(config_dir, session@),
        (None, None, None) => child(config_dir, SOCKET_NAME@),
    }
}

fn named_socket(config_dir: &str, session: &str) -> (path: String)
    ensures
        path@ == session_socket(config_dir@, session@),
{
    let sessions = child_of(config_dir, SESSIONS_DIR);
    let dir = child_of(&sessions, session);
    child_of(&dir, SOCKET_NAME)
}

/// Where the API listens.
pub fn socket_path(config_dir: &str, choice: SocketChoice<'_>) -> (path: String)
    ensures
        path@ == active_socket(config_dir@, choice),
{
    match (choice.explicit_session, choice.socket_override, choice.inherited_session) {
        (Some(session), _, _) => named_socket(config_dir, session),
        (None, Some(path), _) => path.to_string(),
        (None, None, Some(session)) => named_socket(config_dir, session),
        (None, None, None) => child_of(config_dir, SOCKET_NAME),
    }
}

/// Why the API cannot listen where another server does.
pub fn socket_busy_text(path: &str) -> (text: String)
    ensures
        text@ == "herdr is already running (socket busy at "@ + path@ + ")"@,
{
    let mut text = "herdr is already running (socket busy at ".to_string();
    text.push_str(path);
    text.push_str(")");
    text
}

/// A session that was asked for beats the environment's socket, that beats the
/// environment's session, and without any of them the API listens in the
/// directory itself. The sockets of sessions stand apart, by their names.
pub proof fn law_where_the_api_listens(
    config_dir: Seq<char>,
    name: &str,
    path: &str,
    socket_override: Option<&str>,
    inherited_session: Option<&str>,
)
    requires
        config_dir.len() > 0 && config_dir.last() != '/',
        name@.len() > 0 && name@.last() != '/',
    ensures
        ({
            let of_session = config_dir + "/"@ + "sessions"@ + "/"@ + name@ + "/"@ + "herdr.sock"@;
            &&& active_socket(
                config_dir,
                SocketChoice { explicit_session: Some(name), socket_override, inherited_session },
            ) == of_session
            &&& active_socket(
                config_dir,
                SocketChoice {
                    explicit_session: None,
                    socket_override: Some(path),
                    inherited_session,
                },
            ) == path@
            &&& active_socket(
                config_dir,
                SocketChoice {
                    explicit_session: None,
                    socket_override: None,
                    inherited_session: Some(name),
                },
            ) == of_session
            &&& active_socket(
                config_dir,
                SocketChoice {
                    explicit_session: None,
                    socket_override: None,
                    inherited_session: None,
                },
            ) == config_dir + "/"@ + "herdr.sock"@
        }),
{
    reveal_strlit("/");
    reveal_strlit("sessions");
    reveal_strlit("herdr.sock");
    let sessions = config_dir + "/"@ + "sessions"@;
    let dir = sessions + "/"@ + name@;
    assert(sessions.last() == 's');
    assert(dir.last() == name@.last());
    assert(child(config_dir, SESSIONS_DIR@) =~= sessions);
    assert(child(sessions, name@) =~= dir);
    assert(session_socket(config_dir, name@) =~= config_dir + "/"@ + "sessions"@ + "/"@ + name@
        + "/"@ + "herdr.sock"@);
    assert(child(config_dir, SOCKET_NAME@) =~= config_dir + "/"@ + "herdr.sock"@);
}

/// Every build takes affirmed sends, multiplexed streams and attachments of
/// 64 MiB and keeps a registry of credentials; whether it hands over is the
/// platform's, and whether it is detached the process's.
pub proof fn law_what_a_server_declares(
    platform: PlatformCapabilities,
    detached: bool,
    capabilities: ServerCapabilities,
)
    requires
        call_ensures(server_capabilities, (platform, detached), capabilities),
    ensures
        capabilities.live_handoff == platform.live_handoff,
        capabilities.detached_server_daemon == detached,
        capabilities.send_affirm && capabilities.stream_multiplex
            && capabilities.credential_registry,
        capabilities.file_attachments matches Some(attachments) && attachments.max_bytes
            == 67_108_864 && attachments.chunk_bytes == 783_360,
{
}

} // verus!
