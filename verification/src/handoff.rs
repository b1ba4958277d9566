//! Handing the running panes over to a replacement server.
//!
//! The running server offers a manifest on a private socket. The importing
//! server proves itself with a token, checks the manifest, takes the pane
//! file descriptors over, and the two confirm each stage with a line.

use crate::handoff_runtime::{HandoffRuntimeState, InputState};
use crate::paths::{child, child_of};
use crate::snapshot::{has_agent, SessionSnapshot};
use crate::text::{
    decimal, decimal_text, find_text, has_prefix, is_blank, is_white_space, law_the_end_is_trimmed,
    law_the_first_occurrence_is_found, lemma_find_text, position_of, same_text, spells,
    strip_trailing_space, texts, to_chars, to_text, trim_end, view_of,
};
use vstd::prelude::*;

verus! {

pub const HANDOFF_VERSION: u32 = 1;

pub const READY_TIMEOUT_MILLIS: u64 = 30_000;

pub const OWNED_ACK_TIMEOUT_MILLIS: u64 = 500;

/// How long an unanswered accept waits before it is tried again.
pub const ACCEPT_RETRY_MILLIS: u64 = 25;

pub const MAX_FDS_PER_HANDOFF: usize = 64;

/// Sized so that a long-lived transcript survives a handoff with a few
/// thousand lines of scrollback.
pub const MAX_REPLAY_BYTES_PER_PANE: usize = 256 * 1024;

/// The replay ceiling across all panes of one handoff. The manifest travels
/// as one line, so the raw total leaves room for the escaping of control
/// characters, the snapshot and the pane metadata.
pub const MAX_REPLAY_BYTES_TOTAL: usize = 6 * 1024 * 1024;

pub const MAX_MANIFEST_LINE_BYTES: usize = 16 * 1024 * 1024;

/// The control sequence that enters the alternate screen.
pub const ENTER_ALTERNATE_SCREEN: &'static str = "\x1b[?1049h";

/// How many replay bytes each pane of a handoff may carry.
pub fn replay_bytes_per_pane(panes: usize) -> (share: usize)
    requires
        panes > 0,
    ensures
        share == if MAX_REPLAY_BYTES_PER_PANE <= MAX_REPLAY_BYTES_TOTAL as nat / panes as nat {
            MAX_REPLAY_BYTES_PER_PANE as nat
        } else {
            MAX_REPLAY_BYTES_TOTAL as nat / panes as nat
        },
        share * panes <= MAX_REPLAY_BYTES_TOTAL,
{
    let fair: usize = MAX_REPLAY_BYTES_TOTAL / panes;
    assert(fair * panes <= MAX_REPLAY_BYTES_TOTAL) by (nonlinear_arith)
        requires
            fair == MAX_REPLAY_BYTES_TOTAL / panes,
            panes > 0,
    ;
    if MAX_REPLAY_BYTES_PER_PANE <= fair {
        assert(MAX_REPLAY_BYTES_PER_PANE * panes <= fair * panes) by (nonlinear_arith)
            requires
                MAX_REPLAY_BYTES_PER_PANE <= fair,
                panes > 0,
        ;
        MAX_REPLAY_BYTES_PER_PANE
    } else {
        fair
    }
}

/// What a server is, as a handoff sees it.
#[derive(Clone, Debug, PartialEq, Eq)]
pub struct ServerBuild {
    pub version: String,
    pub protocol: u32,
}

/// What the running server offers.
#[derive(Clone, Debug, PartialEq, Eq)]
pub struct HandoffManifest {
    pub version: u32,
    pub source_version: String,
    pub source_protocol: u32,
    pub expected_version: Option<String>,
    pub expected_protocol: Option<u32>,
    pub snapshot: SessionSnapshot,
    pub panes: Vec<HandoffRuntimeState>,
    /// An outer window title that was set over the API outlives the server
    /// that took the call.
    pub api_window_title: Option<String>,
}

/// The manifest of a running server.
pub fn manifest_for(
    build: ServerBuild,
    snapshot: SessionSnapshot,
    panes: Vec<HandoffRuntimeState>,
    expected_protocol: Option<u32>,
    expected_version: Option<String>,
    api_window_title: Option<String>,
) -> (manifest: HandoffManifest)
    ensures
        manifest == (HandoffManifest {
            version: HANDOFF_VERSION,
            source_version: build.version,
            source_protocol: build.protocol,
            expected_version,
            expected_protocol,
            snapshot,
            panes,
            api_window_title,
        }),
{
    HandoffManifest {
        version: HANDOFF_VERSION,
        source_version: build.version,
        source_protocol: build.protocol,
        expected_version,
        expected_protocol,
        snapshot,
        panes,
        api_window_title,
    }
}

/// The history that a pane's stream should carry. A plain pane that was on
/// the alternate screen enters it again, where its stream does not do so by
/// itself. An agent pane's flag is not honored: agents draw on the primary
/// screen.
pub open spec fn repaired_history(snapshot: SessionSnapshot, pane: HandoffRuntimeState) -> Option<
    Seq<char>,
> {
    let carried_alternate = pane.input_state matches Some(input) && input.alternate_screen;
    let sets_mode = pane.initial_history_ansi matches Some(history) && find_text(
        history@,
        ENTER_ALTERNATE_SCREEN@,
    ) is Some;
    if carried_alternate && !sets_mode && !has_agent(snapshot, pane.pane_id) {
        match pane.initial_history_ansi {
            Some(history) => Some(ENTER_ALTERNATE_SCREEN@ + history@),
            None => Some(ENTER_ALTERNATE_SCREEN@),
        }
    } else {
        view_of(pane.initial_history_ansi)
    }
}

/// Whether a pane is another one but for its history.
pub open spec fn same_but_history(pane: HandoffRuntimeState, other: HandoffRuntimeState) -> bool {
    pane == (HandoffRuntimeState { initial_history_ansi: pane.initial_history_ansi, ..other })
}

/// The history of one pane, put right.
fn repair(snapshot: &SessionSnapshot, pane: &HandoffRuntimeState) -> (history: Option<String>)
    ensures
        match history {
            Some(history) => repaired_history(*snapshot, *pane) == Some(history@),
            None => repaired_history(*snapshot, *pane) == view_of(pane.initial_history_ansi),
        },
{
    let carried_alternate = match &pane.input_state {
        Some(input) => input.alternate_screen,
        None => false,
    };
    let sets_mode = match &pane.initial_history_ansi {
        Some(history) => {
            let chars = to_chars(history);
            position_of(&chars, ENTER_ALTERNATE_SCREEN).is_some()
        },
        None => false,
    };
    if !carried_alternate || sets_mode || snapshot.runs_agent(pane.pane_id) {
        return None;
    }
    let mut repaired = ENTER_ALTERNATE_SCREEN.to_string();
    if let Some(history) = &pane.initial_history_ansi {
        repaired.push_str(history);
    }
    Some(repaired)
}

/// Repair a manifest whose streams do not say on which screen they are.
/// Streams that enter the alternate screen themselves pass through untouched.
#[verifier::loop_isolation(false)]
pub fn honor_legacy_alternate_screen_panes(manifest: &mut HandoffManifest)
    ensures
        *final(manifest) == (HandoffManifest { panes: final(manifest).panes, ..*old(manifest) }),
        final(manifest).panes@.len() == old(manifest).panes@.len(),
        forall|i: int|
            0 <= i < old(manifest).panes@.len() ==> same_but_history(
                #[trigger] final(manifest).panes@[i],
                old(manifest).panes@[i],
            ) && view_of(final(manifest).panes@[i].initial_history_ansi) == repaired_history(
                old(manifest).snapshot,
                old(manifest).panes@[i],
            ),
{
    let ghost before = *manifest;
    let mut i: usize = 0;
    while i < manifest.panes.len()
        invariant
            i <= manifest.panes@.len(),
            *manifest == (HandoffManifest { panes: manifest.panes, ..before }),
            manifest.panes@.len() == before.panes@.len(),
            forall|j: int|
                i <= j < before.panes@.len() ==> #[trigger] manifest.panes@[j] == before.panes@[j],
            forall|j: int|
                0 <= j < i ==> same_but_history(
                    #[trigger] manifest.panes@[j],
                    before.panes@[j],
                ) && view_of(manifest.panes@[j].initial_history_ansi) == repaired_history(
                    before.snapshot,
                    before.panes@[j],
                ),
        decreases manifest.panes@.len() - i,
    {
        let repaired = repair(&manifest.snapshot, &manifest.panes[i]);
        if repaired.is_some() {
            manifest.panes[i].initial_history_ansi = repaired;
        }
        i += 1;
    }
}

/// Repairing a repaired pane changes nothing.
pub proof fn law_repairing_twice_is_repairing_once(
    snapshot: SessionSnapshot,
    pane: HandoffRuntimeState,
    repaired: HandoffRuntimeState,
)
    requires
        same_but_history(repaired, pane),
        view_of(repaired.initial_history_ansi) == repaired_history(snapshot, pane),
    ensures
        repaired_history(snapshot, repaired) == view_of(repaired.initial_history_ansi),
{
    if let Some(history) = repaired.initial_history_ansi {
        if view_of(repaired.initial_history_ansi) != view_of(pane.initial_history_ansi) {
            lemma_find_text(history@, ENTER_ALTERNATE_SCREEN@);
            assert(history@.take(ENTER_ALTERNATE_SCREEN@.len() as int) =~= ENTER_ALTERNATE_SCREEN@);
            assert(has_prefix(history@, ENTER_ALTERNATE_SCREEN@));
        }
    }
}

/// Agent panes pass through, whatever screen they were on.
pub proof fn law_agent_panes_are_left_alone(snapshot: SessionSnapshot, pane: HandoffRuntimeState)
    requires
        has_agent(snapshot, pane.pane_id),
    ensures
        repaired_history(snapshot, pane) == view_of(pane.initial_history_ansi),
{
}

/// Why a handoff stops.
#[derive(Clone, Debug, PartialEq, Eq)]
pub enum HandoffRefusal {
    TokenMismatch,
    NotValidated,
    NotRestored,
    NotReady,
    NotCommitted,
    TooManyFds,
    WrongFdCount { expected: usize },
    UnsupportedVersion { version: u32 },
    OtherProtocol { expected: u32, spoken: u32 },
    OtherVersion { expected: String, running: String },
    AcceptTimedOut,
    LineTooLong,
    StreamClosed,
}

pub open spec fn refusal_text(refusal: HandoffRefusal) -> Seq<char> {
    match refusal {
        HandoffRefusal::TokenMismatch => "handoff import token mismatch"@,
        HandoffRefusal::NotValidated => "handoff import did not validate manifest"@,
        HandoffRefusal::NotRestored => "handoff import did not report restored runtimes"@,
        HandoffRefusal::NotReady => "handoff import did not report ready"@,
        HandoffRefusal::NotCommitted => "handoff source did not commit"@,
        HandoffRefusal::TooManyFds => "handoff supports at most "@ + decimal_text(
            MAX_FDS_PER_HANDOFF as nat,
        ) + " pane file descriptors at once"@,
        HandoffRefusal::WrongFdCount { expected } => "expected "@ + decimal_text(expected as nat)
            + " handoff fds, received fewer"@,
        HandoffRefusal::UnsupportedVersion { version } => "unsupported handoff version "@
            + decimal_text(version as nat),
        HandoffRefusal::OtherProtocol { expected, spoken } => "handoff expected protocol "@
            + decimal_text(expected as nat) + ", but this server speaks protocol "@
            + decimal_text(spoken as nat),
        HandoffRefusal::OtherVersion { expected, running } => "handoff expected herdr v"@
            + expected@ + ", but this server is v"@ + running@,
        HandoffRefusal::AcceptTimedOut => "timed out waiting for handoff import connection"@,
        HandoffRefusal::LineTooLong => "handoff line exceeded maximum size"@,
        HandoffRefusal::StreamClosed => "handoff stream closed while reading line"@,
    }
}

impl HandoffRefusal {
    /// The refusal in words.
    pub fn message(&self) -> (text: String)
        ensures
            text@ == refusal_text(*self),
    {
        match self {
            HandoffRefusal::TokenMismatch => "handoff import token mismatch".to_string(),
            HandoffRefusal::NotValidated => "handoff import did not validate manifest".to_string(),
            HandoffRefusal::NotRestored =>
                "handoff import did not report restored runtimes".to_string(),
            HandoffRefusal::NotReady => "handoff import did not report ready".to_string(),
            HandoffRefusal::NotCommitted => "handoff source did not commit".to_string(),
            HandoffRefusal::TooManyFds => {
                let mut text = "handoff supports at most ".to_string();
                text.push_str(&decimal(MAX_FDS_PER_HANDOFF as u64));
                text.push_str(" pane file descriptors at once");
                text
            },
            HandoffRefusal::WrongFdCount { expected } => {
                let mut text = "expected ".to_string();
                text.push_str(&decimal(*expected as u64));
                text.push_str(" handoff fds, received fewer");
                text
            },
            HandoffRefusal::UnsupportedVersion { version } => {
                let mut text = "unsupported handoff version ".to_string();
                text.push_str(&decimal(*version as u64));
                text
            },
            HandoffRefusal::OtherProtocol { expected, spoken } => {
                let mut text = "handoff expected protocol ".to_string();
                text.push_str(&decimal(*expected as u64));
                text.push_str(", but this server speaks protocol ");
                text.push_str(&decimal(*spoken as u64));
                text
            },
            HandoffRefusal::OtherVersion { expected, running } => {
                let mut text = "handoff expected herdr v".to_string();
                text.push_str(expected);
                text.push_str(", but this server is v");
                text.push_str(running);
                text
            },
            HandoffRefusal::AcceptTimedOut =>
                "timed out waiting for handoff import connection".to_string(),
            HandoffRefusal::LineTooLong => "handoff line exceeded maximum size".to_string(),
            HandoffRefusal::StreamClosed => "handoff stream closed while reading line".to_string(),
        }
    }
}

/// Whether a server can import a manifest: it knows the format, and it is
/// what the manifest expects, as far as the manifest says.
pub open spec fn importable(manifest: HandoffManifest, build: ServerBuild) -> bool {
    &&& manifest.version == HANDOFF_VERSION
    &&& manifest.expected_protocol matches Some(protocol) ==> protocol == build.protocol
    &&& manifest.expected_version matches Some(version) ==> version@ == build.version@
}

/// Check a manifest against the server that is to import it. The format is
/// checked first, then the protocol, then the version.
pub fn validate_manifest(manifest: &HandoffManifest, build: &ServerBuild) -> (verdict: Result<
    (),
    HandoffRefusal,
>)
    ensures
        verdict is Ok <==> importable(*manifest, *build),
        verdict matches Err(refusal) ==> if manifest.version != HANDOFF_VERSION {
            refusal == (HandoffRefusal::UnsupportedVersion { version: manifest.version })
        } else if manifest.expected_protocol matches Some(protocol) && protocol != build.protocol {
            refusal == (HandoffRefusal::OtherProtocol {
                expected: manifest.expected_protocol->0,
                spoken: build.protocol,
            })
        } else {
            refusal matches HandoffRefusal::OtherVersion { expected, running } && expected@
                == manifest.expected_version->0@ && running@ == build.version@
        },
{
    if manifest.version != HANDOFF_VERSION {
        return Err(HandoffRefusal::UnsupportedVersion { version: manifest.version });
    }
    if let Some(protocol) = manifest.expected_protocol {
        if protocol != build.protocol {
            return Err(
                HandoffRefusal::OtherProtocol { expected: protocol, spoken: build.protocol },
            );
        }
    }
    if let Some(version) = &manifest.expected_version {
        if !same_text(version, &build.version) {
            return Err(
                HandoffRefusal::OtherVersion {
                    expected: version.as_str().to_owned(),
                    running: build.version.as_str().to_owned(),
                },
            );
        }
    }
    Ok(())
}

/// A server accepts the manifests that it would write for its own kind, and
/// those that expect nothing.
pub proof fn law_a_server_imports_from_its_own_build(
    manifest: HandoffManifest,
    build: ServerBuild,
)
    requires
        manifest.version == HANDOFF_VERSION,
        manifest.expected_protocol is None || manifest.expected_protocol == Some(build.protocol),
        manifest.expected_version is None || manifest.expected_version == Some(build.version),
    ensures
        importable(manifest, build),
{
}

/// The stages that a line confirms.
#[derive(Clone, Copy, Debug, PartialEq, Eq, Structural)]
pub enum HandoffStage {
    /// The import server proves itself.
    Token,
    /// The import server found the manifest in order.
    Validated,
    /// The import server took the runtimes over.
    Restored,
    /// The import server is ready to serve.
    Ready,
    /// The running server gave its panes up.
    Committed,
}

/// The line that confirms a stage.
pub open spec fn confirmation(stage: HandoffStage, token: Seq<char>) -> Seq<char> {
    match stage {
        HandoffStage::Token => token,
        HandoffStage::Validated => "validated"@,
        HandoffStage::Restored => "restored"@,
        HandoffStage::Ready => "ready"@,
        HandoffStage::Committed => "committed"@,
    }
}

/// Check the line that should confirm a stage. Trailing white space does not
/// count.
pub fn check_confirmation(stage: HandoffStage, line: &str, token: &str) -> (verdict: Result<
    (),
    HandoffRefusal,
>)
    ensures
        verdict is Ok <==> trim_end(line@) == confirmation(stage, token@),
        verdict matches Err(refusal) ==> refusal == match stage {
            HandoffStage::Token => HandoffRefusal::TokenMismatch,
            HandoffStage::Validated => HandoffRefusal::NotValidated,
            HandoffStage::Restored => HandoffRefusal::NotRestored,
            HandoffStage::Ready => HandoffRefusal::NotReady,
            HandoffStage::Committed => HandoffRefusal::NotCommitted,
        },
{
    let chars = to_chars(line);
    let said = strip_trailing_space(&chars);
    match stage {
        HandoffStage::Token => if spells(said, token) {
            Ok(())
        } else {
            Err(HandoffRefusal::TokenMismatch)
        },
        HandoffStage::Validated => if spells(said, "validated") {
            Ok(())
        } else {
            Err(HandoffRefusal::NotValidated)
        },
        HandoffStage::Restored => if spells(said, "restored") {
            Ok(())
        } else {
            Err(HandoffRefusal::NotRestored)
        },
        HandoffStage::Ready => if spells(said, "ready") {
            Ok(())
        } else {
            Err(HandoffRefusal::NotReady)
        },
        HandoffStage::Committed => if spells(said, "committed") {
            Ok(())
        } else {
            Err(HandoffRefusal::NotCommitted)
        },
    }
}

/// What came of waiting for the import server to say that it owns the panes.
/// The panes are its own by then, so nothing depends on the answer.
#[derive(Clone, Debug, PartialEq, Eq)]
pub enum OwnedAck {
    Owned,
    /// Something else was said.
    Unexpected(String),
    /// Nothing was heard.
    Missing,
}

pub fn owned_ack(line: Option<&str>) -> (ack: OwnedAck)
    ensures
        ack is Missing <==> line is None,
        ack is Owned <==> (line matches Some(line) && trim_end(line@) == "owned"@),
        ack matches OwnedAck::Unexpected(said) ==> line is Some && said@ == trim_end(line->0@),
{
    match line {
        None => OwnedAck::Missing,
        Some(line) => {
            let chars = to_chars(line);
            let said = strip_trailing_space(&chars);
            if spells(said, "owned") {
                OwnedAck::Owned
            } else {
                OwnedAck::Unexpected(to_text(said))
            }
        },
    }
}

/// Whether as many file descriptors can be sent at once.
pub fn check_sent_fds(count: usize) -> (verdict: Result<(), HandoffRefusal>)
    ensures
        verdict is Ok <==> count <= MAX_FDS_PER_HANDOFF,
        verdict matches Err(refusal) ==> refusal == HandoffRefusal::TooManyFds,
{
    if count > MAX_FDS_PER_HANDOFF {
        Err(HandoffRefusal::TooManyFds)
    } else {
        Ok(())
    }
}

/// Whether as many file descriptors arrived as the manifest has panes.
pub fn check_received_fds(expected: usize, received: usize) -> (verdict: Result<(), HandoffRefusal>)
    ensures
        verdict is Ok <==> received == expected,
        verdict matches Err(refusal) ==> refusal == (HandoffRefusal::WrongFdCount { expected }),
{
    if received != expected {
        Err(HandoffRefusal::WrongFdCount { expected })
    } else {
        Ok(())
    }
}

/// What accepting the import connection brought.
#[derive(Clone, Copy, Debug, PartialEq, Eq, Structural)]
pub enum AcceptEvent {
    Accepted,
    WouldBlock,
    Interrupted,
    Failed,
}

/// What the running server does next while it waits for the connection.
#[derive(Clone, Copy, Debug, PartialEq, Eq, Structural)]
pub enum AcceptStep {
    /// Go on with the connection.
    Proceed,
    /// Wait a moment and try again.
    Pause,
    /// Try again at once.
    Retry,
    /// Report the failure.
    Fail,
    /// Nobody came in time.
    TimeOut,
}

/// The next step of waiting. Only an accept that found nobody looks at the
/// deadline.
pub fn accept_step(event: AcceptEvent, past_deadline: bool) -> (step: AcceptStep)
    ensures
        step == match event {
            AcceptEvent::Accepted => AcceptStep::Proceed,
            AcceptEvent::Interrupted => AcceptStep::Retry,
            AcceptEvent::Failed => AcceptStep::Fail,
            AcceptEvent::WouldBlock => if past_deadline {
                AcceptStep::TimeOut
            } else {
                AcceptStep::Pause
            },
        },
{
    match event {
        AcceptEvent::Accepted => AcceptStep::Proceed,
        AcceptEvent::Interrupted => AcceptStep::Retry,
        AcceptEvent::Failed => AcceptStep::Fail,
        AcceptEvent::WouldBlock => if past_deadline {
            AcceptStep::TimeOut
        } else {
            AcceptStep::Pause
        },
    }
}

/// What is known of the import server when the handoff is rolled back.
#[derive(Clone, Copy, Debug, PartialEq, Eq, Structural)]
pub enum ImportChild {
    Exited,
    Running,
    Unknown,
}

/// Whether the import server has to be killed and reaped: unless it is known
/// to be gone.
pub fn rollback_kills(child: ImportChild) -> (kills: bool)
    ensures
        kills == (child !is Exited),
{
    match child {
        ImportChild::Exited => false,
        _ => true,
    }
}

/// How the import server is started.
#[derive(Clone, Debug, PartialEq, Eq)]
pub struct ImportCommand {
    pub args: Vec<String>,
    /// Whether inherited socket overrides are taken out of its environment,
    /// so that they do not mask the session it is started for.
    pub drop_socket_overrides: bool,
}

pub fn import_command(socket_path: &str, token: &str, explicit_session: bool) -> (command:
    ImportCommand)
    ensures
        command.args@.len() == 4,
        command.args@[0]@ == "server"@,
        command.args@[1]@ == "--handoff-import"@,
        command.args@[2]@ == socket_path@,
        command.args@[3]@ == token@,
        command.drop_socket_overrides == explicit_session,
{
    let mut args: Vec<String> = Vec::new();
    args.push("server".to_string());
    args.push("--handoff-import".to_string());
    args.push(socket_path.to_owned());
    args.push(token.to_owned());
    ImportCommand { args, drop_socket_overrides: explicit_session }
}

/// Where the running server listens for the import server.
pub fn handoff_socket_path(data_dir: &str, pid: u32) -> (path: String)
    ensures
        path@ == child(data_dir@, "herdr-handoff-"@ + decimal_text(pid as nat) + ".sock"@),
{
    let mut name = "herdr-handoff-".to_string();
    name.push_str(&decimal(pid as u64));
    name.push_str(".sock");
    child_of(data_dir, &name)
}

/// What a handoff waits for, and how much it carries at most.
pub proof fn law_the_bounds_of_a_handoff()
    ensures
        READY_TIMEOUT_MILLIS == 30 * 1_000,
        OWNED_ACK_TIMEOUT_MILLIS * 2 == 1_000,
        ACCEPT_RETRY_MILLIS * 40 == 1_000,
        MAX_MANIFEST_LINE_BYTES == 16 * 1_048_576,
        MAX_REPLAY_BYTES_TOTAL * 2 < MAX_MANIFEST_LINE_BYTES,
{
}

/// Up to twenty-four panes carry 256 KiB each; more of them share 6 MiB evenly,
/// to the byte.
pub proof fn law_how_the_replay_is_shared(panes: usize, share: usize)
    requires
        panes > 0,
        call_ensures(replay_bytes_per_pane, (panes,), share),
    ensures
        panes <= 24 ==> share == 262_144,
        panes > 24 ==> share * panes <= 6_291_456 < (share + 1) * panes,
{
    let fair = MAX_REPLAY_BYTES_TOTAL as nat / panes as nat;
    let count = panes as nat;
    assert(panes <= 24 ==> 262_144 <= fair) by (nonlinear_arith)
        requires
            fair == 6_291_456nat / count,
            count == panes,
            count > 0,
    ;
    assert(panes > 24 ==> fair < 262_144) by (nonlinear_arith)
        requires
            fair == 6_291_456nat / count,
            count == panes,
            count > 0,
    ;
    assert(fair * panes <= 6_291_456 < (fair + 1) * panes) by (nonlinear_arith)
        requires
            fair == 6_291_456nat / count,
            count == panes,
            count > 0,
    ;
}

/// The manifest of a server names its format, its build, what it expects and
/// everything it was given.
pub proof fn law_what_a_manifest_offers(
    build: ServerBuild,
    snapshot: SessionSnapshot,
    panes: Vec<HandoffRuntimeState>,
    expected_protocol: Option<u32>,
    expected_version: Option<String>,
    title: Option<String>,
    manifest: HandoffManifest,
)
    requires
        call_ensures(
            manifest_for,
            (build, snapshot, panes, expected_protocol, expected_version, title),
            manifest,
        ),
    ensures
        manifest.version == 1,
        manifest.source_version == build.version,
        manifest.source_protocol == build.protocol,
        manifest.expected_protocol == expected_protocol,
        manifest.expected_version == expected_version,
        manifest.snapshot == snapshot,
        manifest.panes == panes,
        manifest.api_window_title == title,
{
}

/// A plain pane that was on the alternate screen enters it before its history,
/// unless the history does; a pane that was not keeps what it has.
pub proof fn law_which_pane_enters_the_alternate_screen(
    snapshot: SessionSnapshot,
    pane: HandoffRuntimeState,
    input: InputState,
    history: String,
    at: int,
)
    requires
        !has_agent(snapshot, pane.pane_id),
        pane.input_state == Some(input),
    ensures
        ({
            let enter = seq!['\u{1b}', '[', '?', '1', '0', '4', '9', 'h'];
            &&& !input.alternate_screen ==> repaired_history(snapshot, pane) == view_of(
                pane.initial_history_ansi,
            )
            &&& input.alternate_screen && pane.initial_history_ansi is None ==> repaired_history(
                snapshot,
                pane,
            ) == Some(enter)
            &&& input.alternate_screen && pane.initial_history_ansi == Some(history) && 0 <= at
                && at + 8 <= history@.len() && history@.subrange(at, at + 8) == enter
                ==> repaired_history(snapshot, pane) == Some(history@)
            &&& input.alternate_screen && pane.initial_history_ansi == Some(history)
                && !history@.contains('\u{1b}') ==> repaired_history(snapshot, pane) == Some(
                enter + history@,
            )
        }),
{
    let enter = seq!['\u{1b}', '[', '?', '1', '0', '4', '9', 'h'];
    reveal_strlit("\x1b[?1049h");
    assert(ENTER_ALTERNATE_SCREEN@ =~= enter);
    lemma_find_text(history@, enter);
    if 0 <= at && at + 8 <= history@.len() && history@.subrange(at, at + 8) == enter {
        law_the_first_occurrence_is_found(history@, enter, at);
    }
    if !history@.contains('\u{1b}') {
        if let Some(found) = find_text(history@, enter) {
            assert(history@.subrange(found, found + 8)[0] == '\u{1b}');
            assert(history@[found] == '\u{1b}');
        }
    }
}

/// A manifest of another format is not imported, nor one that expects another
/// protocol or another version; every other one is.
pub proof fn law_which_manifest_is_imported(
    manifest: HandoffManifest,
    build: ServerBuild,
    verdict: Result<(), HandoffRefusal>,
)
    requires
        call_ensures(validate_manifest, (&manifest, &build), verdict),
    ensures
        manifest.version != 1 ==> verdict == Err::<(), HandoffRefusal>(
            HandoffRefusal::UnsupportedVersion { version: manifest.version },
        ),
        manifest.version == 1 ==> (manifest.expected_protocol matches Some(protocol) ==> (protocol
            != build.protocol ==> verdict == Err::<(), HandoffRefusal>(
            HandoffRefusal::OtherProtocol { expected: protocol, spoken: build.protocol },
        ))),
        manifest.expected_version matches Some(version) ==> (version@ != build.version@
            ==> verdict is Err),
        manifest.version == 1 && manifest.expected_protocol is None && manifest.expected_version
            is None ==> verdict is Ok,
        manifest.version == 1 && manifest.expected_protocol == Some(build.protocol)
            && manifest.expected_version == Some(build.version) ==> verdict is Ok,
{
}

/// A stage is confirmed by its own word, whatever white space follows: the
/// token, `validated`, `restored`, `ready`, `committed`.
pub proof fn law_what_confirms_a_stage(
    stage: HandoffStage,
    said: Seq<char>,
    tail: Seq<char>,
    line: &str,
    token: &str,
    verdict: Result<(), HandoffRefusal>,
)
    requires
        call_ensures(check_confirmation, (stage, line, token), verdict),
        line@ == said + tail,
        is_blank(tail),
        said.len() > 0 ==> !is_white_space(said.last()),
    ensures
        stage is Token ==> (verdict is Ok <==> said == token@),
        stage is Validated ==> (verdict is Ok <==> said == "validated"@),
        stage is Restored ==> (verdict is Ok <==> said == "restored"@),
        stage is Ready ==> (verdict is Ok <==> said == "ready"@),
        stage is Committed ==> (verdict is Ok <==> said == "committed"@),
        stage is Token && verdict is Err ==> verdict->Err_0 is TokenMismatch,
        stage is Validated && verdict is Err ==> verdict->Err_0 is NotValidated,
        stage is Restored && verdict is Err ==> verdict->Err_0 is NotRestored,
        stage is Ready && verdict is Err ==> verdict->Err_0 is NotReady,
        stage is Committed && verdict is Err ==> verdict->Err_0 is NotCommitted,
{
    law_the_end_is_trimmed(said, tail);
}

/// The import server owns the panes where it says so, whatever white space
/// follows; anything else that it says is kept without the white space.
pub proof fn law_what_an_owner_says(said: Seq<char>, tail: Seq<char>, line: &str, ack: OwnedAck)
    requires
        call_ensures(owned_ack, (Some(line),), ack),
        line@ == said + tail,
        is_blank(tail),
        said.len() > 0 ==> !is_white_space(said.last()),
    ensures
        ack is Owned <==> said == "owned"@,
        said != "owned"@ ==> (ack matches OwnedAck::Unexpected(kept) && kept@ == said),
{
    law_the_end_is_trimmed(said, tail);
}

/// Sixty-four file descriptors can be sent at once and no more, and as many
/// have to arrive as are expected.
pub proof fn law_how_many_descriptors_are_taken(
    count: usize,
    expected: usize,
    sent: Result<(), HandoffRefusal>,
    received: Result<(), HandoffRefusal>,
)
    requires
        call_ensures(check_sent_fds, (count,), sent),
        call_ensures(check_received_fds, (expected, count), received),
    ensures
        count <= 64 <==> sent is Ok,
        count == expected <==> received is Ok,
        sent is Err ==> sent->Err_0 is TooManyFds,
        received is Err ==> received->Err_0 == (HandoffRefusal::WrongFdCount { expected }),
{
}

/// Waiting for the import connection ends with the connection, with a failure,
/// or with the deadline where nobody is there; an interruption never ends it.
pub proof fn law_when_waiting_for_the_import_ends(
    event: AcceptEvent,
    past_deadline: bool,
    step: AcceptStep,
)
    requires
        call_ensures(accept_step, (event, past_deadline), step),
    ensures
        step is Proceed <==> event is Accepted,
        step is Fail <==> event is Failed,
        step is Retry <==> event is Interrupted,
        step is TimeOut <==> event is WouldBlock && past_deadline,
        step is Pause <==> event is WouldBlock && !past_deadline,
{
}

/// A rollback kills an import server that is not known to be gone.
pub proof fn law_whom_a_rollback_kills(child: ImportChild, kills: bool)
    requires
        call_ensures(rollback_kills, (child,), kills),
    ensures
        child is Running || child is Unknown ==> kills,
        child is Exited ==> !kills,
{
}

/// The import server is told its socket and its token, in this order, and keeps
/// inherited socket overrides unless a session was asked for.
pub proof fn law_how_the_import_is_started(
    socket_path: &str,
    token: &str,
    explicit_session: bool,
    command: ImportCommand,
)
    requires
        call_ensures(import_command, (socket_path, token, explicit_session), command),
    ensures
        texts(command.args@) == seq!["server"@, "--handoff-import"@, socket_path@, token@],
        command.drop_socket_overrides <==> explicit_session,
{
    assert(texts(command.args@) =~= seq!["server"@, "--handoff-import"@, socket_path@, token@]);
}

/// The socket of a handoff stands in the data directory and is named by the
/// process that offers it.
pub proof fn law_where_a_handoff_is_offered(dir: Seq<char>, data_dir: &str, pid: u32, path: String)
    requires
        call_ensures(handoff_socket_path, (data_dir, pid), path),
        data_dir@ == dir,
        dir.len() > 0 && dir.last() != '/',
    ensures
        path@ == dir + "/"@ + "herdr-handoff-"@ + decimal_text(pid as nat) + ".sock"@,
{
    assert(path@ =~= dir + "/"@ + "herdr-handoff-"@ + decimal_text(pid as nat) + ".sock"@);
}

} // verus!
