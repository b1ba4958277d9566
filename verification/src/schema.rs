//! Requests, their parameters, and responses of the api.

use vstd::prelude::*;

verus! {

// ---- Credentials ---------------------------------------------------------------------

/// What a credential is allowed to do. Both tiers drive the whole pane api;
/// the tier decides only who may manage the registry itself.
#[derive(Clone, Copy, Debug, PartialEq, Eq, Structural)]
pub enum CredentialTier {
    /// The pairing's credential: mints, lists and revokes. Rotated by pairing
    /// again, never revoked through the api.
    Managing,
    /// A minted credential: full pane access, and may revoke only itself.
    Limited,
}

impl Default for CredentialTier {
    fn default() -> (tier: CredentialTier)
        ensures
            tier is Limited,
    {
        CredentialTier::Limited
    }
}

/// One credential as the registry reports it. Never carries a token.
#[derive(Clone, Debug, PartialEq, Eq)]
pub struct CredentialInfo {
    pub credential_id: String,
    pub tier: CredentialTier,
    pub label: Option<String>,
    pub created_at_unix: u64,
    /// Unix seconds of the last request this credential made, absent until it
    /// has been used.
    pub last_seen_unix: Option<u64>,
}

/// The credential that a local-socket caller acts as.
#[derive(Clone, Debug, PartialEq, Eq)]
pub struct CredentialActorParams {
    pub acting_token: Option<String>,
}

impl Default for CredentialActorParams {
    fn default() -> (params: CredentialActorParams)
        ensures
            params.acting_token is None,
    {
        CredentialActorParams { acting_token: None }
    }
}

#[derive(Clone, Debug, PartialEq, Eq)]
pub struct CredentialMintParams {
    /// Display label for the holder, e.g. the linked browser's device name.
    pub label: Option<String>,
    pub acting_token: Option<String>,
}

impl Default for CredentialMintParams {
    fn default() -> (params: CredentialMintParams)
        ensures
            params.label is None,
            params.acting_token is None,
    {
        CredentialMintParams { label: None, acting_token: None }
    }
}

#[derive(Clone, Debug, PartialEq, Eq)]
pub struct CredentialRevokeParams {
    /// The credential to end. Absent means the caller's own credential.
    pub credential_id: Option<String>,
    pub acting_token: Option<String>,
}

impl Default for CredentialRevokeParams {
    fn default() -> (params: CredentialRevokeParams)
        ensures
            params.credential_id is None,
            params.acting_token is None,
    {
        CredentialRevokeParams { credential_id: None, acting_token: None }
    }
}

// ---- Server --------------------------------------------------------------------------

#[derive(Clone, Copy, Debug, PartialEq, Eq, Structural)]
pub struct PingParams {}

impl Default for PingParams {
    fn default() -> (params: PingParams) {
        PingParams {  }
    }
}

#[derive(Clone, Debug, PartialEq, Eq)]
pub struct ServerLiveHandoffParams {
    pub import_exe: Option<String>,
    pub expected_protocol: Option<u32>,
    pub expected_version: Option<String>,
}

impl Default for ServerLiveHandoffParams {
    fn default() -> (params: ServerLiveHandoffParams)
        ensures
            params.import_exe is None,
            params.expected_protocol is None,
            params.expected_version is None,
    {
        ServerLiveHandoffParams {
            import_exe: None,
            expected_protocol: None,
            expected_version: None,
        }
    }
}

#[derive(Clone, Debug, PartialEq, Eq)]
pub struct ServerLookupPlaceParams {
    /// What to look up. Text starting with `/` or `~` is a literal path;
    /// anything else is a place name.
    pub query: String,
    /// How many places to answer with, capped at eight. Absent means the cap.
    pub limit: Option<u32>,
}

/// Which of the server's memories held a place.
#[derive(Clone, Copy, Debug, PartialEq, Eq, Structural)]
pub enum PlaceSource {
    /// A directory one of this server's own workspaces stands in.
    Workspace,
    /// The z frecency database.
    Z,
    /// The project list in the agent's own settings file.
    Claude,
    /// The working directory of a live tmux pane.
    Tmux,
    /// The working directory a recent agent session started in.
    Session,
}

#[derive(Clone, Debug, PartialEq, Eq)]
pub struct PlaceInfo {
    /// Absolute path of a directory that exists on this server.
    pub path: String,
    /// The memory this place came out of.
    pub source: PlaceSource,
}

#[derive(Clone, Debug, PartialEq, Eq)]
pub struct AttachmentCreateParams {
    /// Attachment bytes as standard base64.
    pub bytes_b64: String,
    /// The file's own name. Absent, the bytes must sniff as an image and the
    /// server names the file alone; present, any bytes are accepted.
    pub name: Option<String>,
}

#[derive(Clone, Debug, PartialEq, Eq)]
pub struct AttachmentBeginParams {
    /// The file's own name, sanitized by the server into the stored name.
    pub name: String,
    /// Total bytes the upload will carry.
    pub size: u64,
}

#[derive(Clone, Debug, PartialEq, Eq)]
pub struct AttachmentAppendParams {
    /// The handle that `attachment.begin` minted.
    pub upload_id: String,
    /// Byte offset this chunk starts at, which must equal the bytes already
    /// on disk.
    pub offset: u64,
    /// Chunk bytes as standard base64.
    pub bytes_b64: String,
}

#[derive(Clone, Debug, PartialEq, Eq)]
pub struct AttachmentCommitParams {
    /// The handle that `attachment.begin` minted.
    pub upload_id: String,
    /// Total bytes the finished file must hold.
    pub size: u64,
}

/// What a chunked upload may carry on this server.
#[derive(Clone, Copy, Debug, PartialEq, Eq, Structural)]
pub struct FileAttachmentsCapability {
    /// Largest total size `attachment.begin` accepts.
    pub max_bytes: u64,
    /// Largest decoded payload one request may carry.
    pub chunk_bytes: u64,
}

#[derive(Clone, Copy, Debug, PartialEq, Eq, Structural)]
pub struct ServerCapabilities {
    pub live_handoff: bool,
    pub detached_server_daemon: bool,
    /// Whether `pane.send_input` dedupes by `send_id`.
    pub send_affirm: bool,
    /// Whether requests are served while one of the connection's streams is
    /// running.
    pub stream_multiplex: bool,
    /// Whether this server keeps a credential registry.
    pub credential_registry: bool,
    /// Whether this server stores any file as an attachment, and the sizes it
    /// accepts.
    pub file_attachments: Option<FileAttachmentsCapability>,
}

#[derive(Clone, Debug, PartialEq, Eq)]
pub struct AgentManifestInfo {
    pub agent: String,
    pub source: String,
    pub source_kind: String,
    pub active_version: Option<String>,
    pub cached_remote_version: Option<String>,
    pub local_override_shadowing_remote: bool,
    pub remote_update_result: Option<String>,
    pub remote_update_error: Option<String>,
    pub remote_last_checked_unix: Option<u64>,
    pub warning: Option<String>,
}

// ---- Requests ------------------------------------------------------------------------

/// A method of the api. The methods that this library answers carry their
/// parameters; of the others it only needs to know which one was called.
#[derive(Clone, Debug, PartialEq, Eq)]
pub enum Method {
    Ping(PingParams),
    ServerStop,
    ServerLiveHandoff(ServerLiveHandoffParams),
    ServerReloadConfig,
    ServerAgentManifests,
    ServerReloadAgentManifests,
    ServerLookupPlace(ServerLookupPlaceParams),
    AttachmentCreate(AttachmentCreateParams),
    AttachmentBegin(AttachmentBeginParams),
    AttachmentAppend(AttachmentAppendParams),
    AttachmentCommit(AttachmentCommitParams),
    CredentialMint(CredentialMintParams),
    CredentialList(CredentialActorParams),
    CredentialRevoke(CredentialRevokeParams),
    CredentialRevokeAll(CredentialActorParams),
    NotificationShow,
    ClientWindowTitleSet,
    ClientWindowTitleClear,
    SessionSnapshot,
    WorkspaceCreate,
    WorkspaceList,
    WorkspaceGet,
    WorkspaceFocus,
    WorkspaceRename,
    WorkspaceMove,
    WorkspaceMoveBlock,
    WorkspaceReportMetadata,
    WorkspaceClose,
    WorktreeList,
    WorktreeCreate,
    WorktreeOpen,
    WorktreeRemove,
    TabCreate,
    TabList,
    TabGet,
    TabFocus,
    TabRename,
    TabMove,
    TabClose,
    AgentList,
    AgentGet,
    AgentRead,
    AgentExplain,
    AgentSendKeys,
    AgentRename,
    AgentViewSet,
    AgentViewClear,
    AgentFocus,
    AgentStart,
    AgentPrompt,
    AgentWait,
    PaneSplit,
    PaneSwap,
    PaneMove,
    PaneZoom,
    PaneLayout,
    PaneProcessInfo,
    LayoutExport,
    LayoutApply,
    LayoutSetSplitRatio,
    PaneNeighbor,
    PaneEdges,
    PaneFocusDirection,
    PaneResize,
    PaneList,
    PaneCurrent,
    PaneGet,
    PaneFocus,
    PaneInputSet,
    PaneRename,
    PaneSendText,
    PaneSendKeys,
    PaneSendInput,
    PaneSendMouse,
    PaneRead,
    PaneGraphicsSet,
    PaneGraphicsClear,
    PaneGraphicsInfo,
    PaneGraphicsStream,
    PaneGraphicsStreamSet,
    PaneGraphicsStreamDirect,
    PaneGraphicsStreamOpen,
    PaneGraphicsStreamClose,
    PaneReportAgent,
    PaneReportAgentSession,
    PaneReportMetadata,
    PaneClearAgentAuthority,
    PaneReleaseAgent,
    PaneClose,
    PopupClose,
    EventsSubscribe,
    EventsWait,
    PaneWaitForOutput,
    IntegrationInstall,
    IntegrationUninstall,
    PluginLink,
    PluginList,
    PluginUnlink,
    PluginEnable,
    PluginDisable,
    PluginActionList,
    PluginActionInvoke,
    PluginLogList,
    PluginPaneOpen,
    PluginPaneFocus,
    PluginPaneClose,
}

#[derive(Clone, Debug, PartialEq, Eq)]
pub struct Request {
    pub id: String,
    pub method: Method,
}

/// The wire name of a method.
pub open spec fn method_name(method: Method) -> Seq<char> {
    match method {
        Method::Ping(_) => "ping"@,
        Method::ServerStop => "server.stop"@,
        Method::ServerLiveHandoff(_) => "server.live_handoff"@,
        Method::ServerReloadConfig => "server.reload_config"@,
        Method::ServerAgentManifests => "server.agent_manifests"@,
        Method::ServerReloadAgentManifests => "server.reload_agent_manifests"@,
        Method::ServerLookupPlace(_) => "server.lookup_place"@,
        Method::AttachmentCreate(_) => "attachment.create"@,
        Method::AttachmentBegin(_) => "attachment.begin"@,
        Method::AttachmentAppend(_) => "attachment.append"@,
        Method::AttachmentCommit(_) => "attachment.commit"@,
        Method::CredentialMint(_) => "credential.mint"@,
        Method::CredentialList(_) => "credential.list"@,
        Method::CredentialRevoke(_) => "credential.revoke"@,
        Method::CredentialRevokeAll(_) => "credential.revoke_all"@,
        Method::NotificationShow => "notification.show"@,
        Method::ClientWindowTitleSet => "client.window_title.set"@,
        Method::ClientWindowTitleClear => "client.window_title.clear"@,
        Method::SessionSnapshot => "session.snapshot"@,
        Method::WorkspaceCreate => "workspace.create"@,
        Method::WorkspaceList => "workspace.list"@,
        Method::WorkspaceGet => "workspace.get"@,
        Method::WorkspaceFocus => "workspace.focus"@,
        Method::WorkspaceRename => "workspace.rename"@,
        Method::WorkspaceMove => "workspace.move"@,
        Method::WorkspaceMoveBlock => "workspace.move_block"@,
        Method::WorkspaceReportMetadata => "workspace.report_metadata"@,
        Method::WorkspaceClose => "workspace.close"@,
        Method::WorktreeList => "worktree.list"@,
        Method::WorktreeCreate => "worktree.create"@,
        Method::WorktreeOpen => "worktree.open"@,
        Method::WorktreeRemove => "worktree.remove"@,
        Method::TabCreate => "tab.create"@,
        Method::TabList => "tab.list"@,
        Method::TabGet => "tab.get"@,
        Method::TabFocus => "tab.focus"@,
        Method::TabRename => "tab.rename"@,
        Method::TabMove => "tab.move"@,
        Method::TabClose => "tab.close"@,
        Method::AgentList => "agent.list"@,
        Method::AgentGet => "agent.get"@,
        Method::AgentRead => "agent.read"@,
        Method::AgentExplain => "agent.explain"@,
        Method::AgentSendKeys => "agent.send_keys"@,
        Method::AgentRename => "agent.rename"@,
        Method::AgentViewSet => "agent.view.set"@,
        Method::AgentViewClear => "agent.view.clear"@,
        Method::AgentFocus => "agent.focus"@,
        Method::AgentStart => "agent.start"@,
        Method::AgentPrompt => "agent.prompt"@,
        Method::AgentWait => "agent.wait"@,
        Method::PaneSplit => "pane.split"@,
        Method::PaneSwap => "pane.swap"@,
        Method::PaneMove => "pane.move"@,
        Method::PaneZoom => "pane.zoom"@,
        Method::PaneLayout => "pane.layout"@,
        Method::PaneProcessInfo => "pane.process_info"@,
        Method::LayoutExport => "layout.export"@,
        Method::LayoutApply => "layout.apply"@,
        Method::LayoutSetSplitRatio => "layout.set_split_ratio"@,
        Method::PaneNeighbor => "pane.neighbor"@,
        Method::PaneEdges => "pane.edges"@,
        Method::PaneFocusDirection => "pane.focus_direction"@,
        Method::PaneResize => "pane.resize"@,
        Method::PaneList => "pane.list"@,
        Method::PaneCurrent => "pane.current"@,
        Method::PaneGet => "pane.get"@,
        Method::PaneFocus => "pane.focus"@,
        Method::PaneInputSet => "pane.input.set"@,
        Method::PaneRename => "pane.rename"@,
        Method::PaneSendText => "pane.send_text"@,
        Method::PaneSendKeys => "pane.send_keys"@,
        Method::PaneSendInput => "pane.send_input"@,
        Method::PaneSendMouse => "pane.send_mouse"@,
        Method::PaneRead => "pane.read"@,
        Method::PaneGraphicsSet => "pane.graphics.set"@,
        Method::PaneGraphicsClear => "pane.graphics.clear"@,
        Method::PaneGraphicsInfo => "pane.graphics.info"@,
        Method::PaneGraphicsStream => "pane.graphics.stream"@,
        Method::PaneGraphicsStreamSet => "pane.graphics.stream.set"@,
        Method::PaneGraphicsStreamDirect => "pane.graphics.stream.direct"@,
        Method::PaneGraphicsStreamOpen => "pane.graphics.stream.open"@,
        Method::PaneGraphicsStreamClose => "pane.graphics.stream.close"@,
        Method::PaneReportAgent => "pane.report_agent"@,
        Method::PaneReportAgentSession => "pane.report_agent_session"@,
        Method::PaneReportMetadata => "pane.report_metadata"@,
        Method::PaneClearAgentAuthority => "pane.clear_agent_authority"@,
        Method::PaneReleaseAgent => "pane.release_agent"@,
        Method::PaneClose => "pane.close"@,
        Method::PopupClose => "popup.close"@,
        Method::EventsSubscribe => "events.subscribe"@,
        Method::EventsWait => "events.wait"@,
        Method::PaneWaitForOutput => "pane.wait_for_output"@,
        Method::IntegrationInstall => "integration.install"@,
        Method::IntegrationUninstall => "integration.uninstall"@,
        Method::PluginLink => "plugin.link"@,
        Method::PluginList => "plugin.list"@,
        Method::PluginUnlink => "plugin.unlink"@,
        Method::PluginEnable => "plugin.enable"@,
        Method::PluginDisable => "plugin.disable"@,
        Method::PluginActionList => "plugin.action.list"@,
        Method::PluginActionInvoke => "plugin.action.invoke"@,
        Method::PluginLogList => "plugin.log.list"@,
        Method::PluginPaneOpen => "plugin.pane.open"@,
        Method::PluginPaneFocus => "plugin.pane.focus"@,
        Method::PluginPaneClose => "plugin.pane.close"@,
    }
}

pub fn api_method_name(method: &Method) -> (name: &'static str)
    ensures
        name@ == method_name(*method),
{
    match method {
        Method::Ping(_) => "ping",
        Method::ServerStop => "server.stop",
        Method::ServerLiveHandoff(_) => "server.live_handoff",
        Method::ServerReloadConfig => "server.reload_config",
        Method::ServerAgentManifests => "server.agent_manifests",
        Method::ServerReloadAgentManifests => "server.reload_agent_manifests",
        Method::ServerLookupPlace(_) => "server.lookup_place",
        Method::AttachmentCreate(_) => "attachment.create",
        Method::AttachmentBegin(_) => "attachment.begin",
        Method::AttachmentAppend(_) => "attachment.append",
        Method::AttachmentCommit(_) => "attachment.commit",
        Method::CredentialMint(_) => "credential.mint",
        Method::CredentialList(_) => "credential.list",
        Method::CredentialRevoke(_) => "credential.revoke",
        Method::CredentialRevokeAll(_) => "credential.revoke_all",
        Method::NotificationShow => "notification.show",
        Method::ClientWindowTitleSet => "client.window_title.set",
        Method::ClientWindowTitleClear => "client.window_title.clear",
        Method::SessionSnapshot => "session.snapshot",
        Method::WorkspaceCreate => "workspace.create",
        Method::WorkspaceList => "workspace.list",
        Method::WorkspaceGet => "workspace.get",
        Method::WorkspaceFocus => "workspace.focus",
        Method::WorkspaceRename => "workspace.rename",
        Method::WorkspaceMove => "workspace.move",
        Method::WorkspaceMoveBlock => "workspace.move_block",
        Method::WorkspaceReportMetadata => "workspace.report_metadata",
        Method::WorkspaceClose => "workspace.close",
        Method::WorktreeList => "worktree.list",
        Method::WorktreeCreate => "worktree.create",
        Method::WorktreeOpen => "worktree.open",
        Method::WorktreeRemove => "worktree.remove",
        Method::TabCreate => "tab.create",
        Method::TabList => "tab.list",
        Method::TabGet => "tab.get",
        Method::TabFocus => "tab.focus",
        Method::TabRename => "tab.rename",
        Method::TabMove => "tab.move",
        Method::TabClose => "tab.close",
        Method::AgentList => "agent.list",
        Method::AgentGet => "agent.get",
        Method::AgentRead => "agent.read",
        Method::AgentExplain => "agent.explain",
        Method::AgentSendKeys => "agent.send_keys",
        Method::AgentRename => "agent.rename",
        Method::AgentViewSet => "agent.view.set",
        Method::AgentViewClear => "agent.view.clear",
        Method::AgentFocus => "agent.focus",
        Method::AgentStart => "agent.start",
        Method::AgentPrompt => "agent.prompt",
        Method::AgentWait => "agent.wait",
        Method::PaneSplit => "pane.split",
        Method::PaneSwap => "pane.swap",
        Method::PaneMove => "pane.move",
        Method::PaneZoom => "pane.zoom",
        Method::PaneLayout => "pane.layout",
        Method::PaneProcessInfo => "pane.process_info",
        Method::LayoutExport => "layout.export",
        Method::LayoutApply => "layout.apply",
        Method::LayoutSetSplitRatio => "layout.set_split_ratio",
        Method::PaneNeighbor => "pane.neighbor",
        Method::PaneEdges => "pane.edges",
        Method::PaneFocusDirection => "pane.focus_direction",
        Method::PaneResize => "pane.resize",
        Method::PaneList => "pane.list",
        Method::PaneCurrent => "pane.current",
        Method::PaneGet => "pane.get",
        Method::PaneFocus => "pane.focus",
        Method::PaneInputSet => "pane.input.set",
        Method::PaneRename => "pane.rename",
        Method::PaneSendText => "pane.send_text",
        Method::PaneSendKeys => "pane.send_keys",
        Method::PaneSendInput => "pane.send_input",
        Method::PaneSendMouse => "pane.send_mouse",
        Method::PaneRead => "pane.read",
        Method::PaneGraphicsSet => "pane.graphics.set",
        Method::PaneGraphicsClear => "pane.graphics.clear",
        Method::PaneGraphicsInfo => "pane.graphics.info",
        Method::PaneGraphicsStream => "pane.graphics.stream",
        Method::PaneGraphicsStreamSet => "pane.graphics.stream.set",
        Method::PaneGraphicsStreamDirect => "pane.graphics.stream.direct",
        Method::PaneGraphicsStreamOpen => "pane.graphics.stream.open",
        Method::PaneGraphicsStreamClose => "pane.graphics.stream.close",
        Method::PaneReportAgent => "pane.report_agent",
        Method::PaneReportAgentSession => "pane.report_agent_session",
        Method::PaneReportMetadata => "pane.report_metadata",
        Method::PaneClearAgentAuthority => "pane.clear_agent_authority",
        Method::PaneReleaseAgent => "pane.release_agent",
        Method::PaneClose => "pane.close",
        Method::PopupClose => "popup.close",
        Method::EventsSubscribe => "events.subscribe",
        Method::EventsWait => "events.wait",
        Method::PaneWaitForOutput => "pane.wait_for_output",
        Method::IntegrationInstall => "integration.install",
        Method::IntegrationUninstall => "integration.uninstall",
        Method::PluginLink => "plugin.link",
        Method::PluginList => "plugin.list",
        Method::PluginUnlink => "plugin.unlink",
        Method::PluginEnable => "plugin.enable",
        Method::PluginDisable => "plugin.disable",
        Method::PluginActionList => "plugin.action.list",
        Method::PluginActionInvoke => "plugin.action.invoke",
        Method::PluginLogList => "plugin.log.list",
        Method::PluginPaneOpen => "plugin.pane.open",
        Method::PluginPaneFocus => "plugin.pane.focus",
        Method::PluginPaneClose => "plugin.pane.close",
    }
}

/// The methods that may change what a client sees.
pub open spec fn changes_ui(method: Method) -> bool {
    match method {
        Method::ServerReloadConfig => true,
        Method::ServerReloadAgentManifests => true,
        Method::NotificationShow => true,
        Method::WorkspaceCreate => true,
        Method::WorkspaceFocus => true,
        Method::WorkspaceRename => true,
        Method::WorkspaceMove => true,
        Method::WorkspaceMoveBlock => true,
        Method::WorkspaceReportMetadata => true,
        Method::WorkspaceClose => true,
        Method::WorktreeCreate => true,
        Method::WorktreeOpen => true,
        Method::WorktreeRemove => true,
        Method::TabCreate => true,
        Method::TabFocus => true,
        Method::TabRename => true,
        Method::TabMove => true,
        Method::TabClose => true,
        Method::LayoutApply => true,
        Method::LayoutSetSplitRatio => true,
        Method::AgentRename => true,
        Method::AgentViewSet => true,
        Method::AgentViewClear => true,
        Method::AgentFocus => true,
        Method::AgentStart => true,
        Method::AgentPrompt => true,
        Method::AgentSendKeys => true,
        Method::PaneSplit => true,
        Method::PaneSwap => true,
        Method::PaneMove => true,
        Method::PaneZoom => true,
        Method::PaneFocusDirection => true,
        Method::PaneResize => true,
        Method::PaneFocus => true,
        Method::PaneInputSet => true,
        Method::PaneRename => true,
        Method::PaneGraphicsSet => true,
        Method::PaneGraphicsClear => true,
        Method::PaneGraphicsStream => true,
        Method::PaneGraphicsStreamSet => true,
        Method::PaneGraphicsStreamDirect => true,
        Method::PaneGraphicsStreamOpen => true,
        Method::PaneGraphicsStreamClose => true,
        Method::PaneSendMouse => true,
        Method::PaneReportAgent => true,
        Method::PaneReportAgentSession => true,
        Method::PaneReportMetadata => true,
        Method::PaneClearAgentAuthority => true,
        Method::PaneReleaseAgent => true,
        Method::PaneClose => true,
        Method::PopupClose => true,
        Method::PluginUnlink => true,
        Method::PluginDisable => true,
        Method::PluginActionInvoke => true,
        Method::PluginPaneOpen => true,
        Method::PluginPaneFocus => true,
        Method::PluginPaneClose => true,
        _ => false,
    }
}

/// Whether serving a request may change the ui.
pub fn request_changes_ui(request: &Request) -> (changes: bool)
    ensures
        changes == changes_ui(request.method),
{
    match &request.method {
        Method::ServerReloadConfig => true,
        Method::ServerReloadAgentManifests => true,
        Method::NotificationShow => true,
        Method::WorkspaceCreate => true,
        Method::WorkspaceFocus => true,
        Method::WorkspaceRename => true,
        Method::WorkspaceMove => true,
        Method::WorkspaceMoveBlock => true,
        Method::WorkspaceReportMetadata => true,
        Method::WorkspaceClose => true,
        Method::WorktreeCreate => true,
        Method::WorktreeOpen => true,
        Method::WorktreeRemove => true,
        Method::TabCreate => true,
        Method::TabFocus => true,
        Method::TabRename => true,
        Method::TabMove => true,
        Method::TabClose => true,
        Method::LayoutApply => true,
        Method::LayoutSetSplitRatio => true,
        Method::AgentRename => true,
        Method::AgentViewSet => true,
        Method::AgentViewClear => true,
        Method::AgentFocus => true,
        Method::AgentStart => true,
        Method::AgentPrompt => true,
        Method::AgentSendKeys => true,
        Method::PaneSplit => true,
        Method::PaneSwap => true,
        Method::PaneMove => true,
        Method::PaneZoom => true,
        Method::PaneFocusDirection => true,
        Method::PaneResize => true,
        Method::PaneFocus => true,
        Method::PaneInputSet => true,
        Method::PaneRename => true,
        Method::PaneGraphicsSet => true,
        Method::PaneGraphicsClear => true,
        Method::PaneGraphicsStream => true,
        Method::PaneGraphicsStreamSet => true,
        Method::PaneGraphicsStreamDirect => true,
        Method::PaneGraphicsStreamOpen => true,
        Method::PaneGraphicsStreamClose => true,
        Method::PaneSendMouse => true,
        Method::PaneReportAgent => true,
        Method::PaneReportAgentSession => true,
        Method::PaneReportMetadata => true,
        Method::PaneClearAgentAuthority => true,
        Method::PaneReleaseAgent => true,
        Method::PaneClose => true,
        Method::PopupClose => true,
        Method::PluginUnlink => true,
        Method::PluginDisable => true,
        Method::PluginActionInvoke => true,
        Method::PluginPaneOpen => true,
        Method::PluginPaneFocus => true,
        Method::PluginPaneClose => true,
        _ => false,
    }
}

// ---- Responses -----------------------------------------------------------------------

/// What a request is answered with where it succeeds.
#[derive(Clone, Debug, PartialEq, Eq)]
pub enum ResponseResult {
    Pong {
        version: String,
        protocol: u32,
        capabilities: Option<ServerCapabilities>,
        /// The display name the server declares.
        name: Option<String>,
        /// The operator-declared route to this server.
        reach: Option<String>,
        /// The url this server declares that clients should dial.
        advertised_endpoint: Option<String>,
        /// The session name, absent for the default session.
        session: Option<String>,
        /// Absolute path of the running server executable.
        exe: Option<String>,
    },
    AttachmentCreated {
        /// Absolute, space-free path of the fully written file.
        path: String,
        /// Unix seconds after which the sweep may remove the file.
        expires_at: u64,
    },
    AttachmentUploadStarted { upload_id: String },
    AttachmentAppended {
        /// Bytes on disk after this append.
        received: u64,
    },
    CredentialMinted {
        credential: CredentialInfo,
        /// The minted token, returned exactly once.
        token: String,
    },
    CredentialList { credentials: Vec<CredentialInfo> },
    /// The credentials that this request ended.
    CredentialRevoked { revoked: Vec<String> },
    ServerLookupPlace { places: Vec<PlaceInfo> },
    SubscriptionStarted,
    Done,
}

#[derive(Clone, Debug, PartialEq, Eq)]
pub struct SuccessResponse {
    pub id: String,
    pub result: ResponseResult,
}

#[derive(Clone, Debug, PartialEq, Eq)]
pub struct ErrorBody {
    /// Stable machine-readable reason. Clients branch on this.
    pub code: String,
    /// Human-readable detail. Not contracted.
    pub message: String,
}

#[derive(Clone, Debug, PartialEq, Eq)]
pub struct ErrorResponse {
    pub id: String,
    pub error: ErrorBody,
}

/// A response as it is handed to the transport for encoding.
#[derive(Clone, Debug, PartialEq, Eq)]
pub enum Response {
    Success(SuccessResponse),
    Error(ErrorResponse),
}

/// Whether a response is the error with this id, code and message.
pub open spec fn is_error(
    response: Response,
    id: Seq<char>,
    code: Seq<char>,
    message: Seq<char>,
) -> bool {
    response matches Response::Error(error) && error.id@ == id && error.error.code@ == code
        && error.error.message@ == message
}

/// An error response.
pub fn error_response(id: &str, code: &str, message: String) -> (response: Response)
    ensures
        is_error(response, id@, code@, message@),
{
    Response::Error(
        ErrorResponse {
            id: id.to_string(),
            error: ErrorBody { code: code.to_string(), message },
        },
    )
}

/// A success response.
pub fn success(id: String, result: ResponseResult) -> (response: Response)
    ensures
        response == Response::Success(SuccessResponse { id, result }),
{
    Response::Success(SuccessResponse { id, result })
}

/// A request leaves the ui alone where it reads or waits, manages credentials or
/// attachments, types into a pane, links or enables a plugin, changes the
/// integrations or the window title, or stops the server or hands it over;
/// every other one may change it.
pub proof fn law_which_requests_leave_the_ui_alone(request: Request, changes: bool)
    requires
        call_ensures(request_changes_ui, (&request,), changes),
    ensures
        ({
            let method = request.method;
            !changes <==> (
            method is Ping || method is ServerStop || method is ServerLiveHandoff
                || method is ServerAgentManifests || method is ServerLookupPlace
                || method is AttachmentCreate || method is AttachmentBegin
                || method is AttachmentAppend || method is AttachmentCommit
                || method is CredentialMint || method is CredentialList
                || method is CredentialRevoke || method is CredentialRevokeAll
                || method is ClientWindowTitleSet || method is ClientWindowTitleClear
                || method is SessionSnapshot || method is WorkspaceList
                || method is WorkspaceGet || method is WorktreeList || method is TabList
                || method is TabGet || method is AgentList || method is AgentGet
                || method is AgentRead || method is AgentExplain || method is AgentWait
                || method is PaneLayout || method is PaneProcessInfo || method is LayoutExport
                || method is PaneNeighbor || method is PaneEdges || method is PaneList
                || method is PaneCurrent || method is PaneGet || method is PaneSendText
                || method is PaneSendKeys || method is PaneSendInput || method is PaneRead
                || method is PaneGraphicsInfo || method is EventsSubscribe
                || method is EventsWait || method is PaneWaitForOutput
                || method is IntegrationInstall || method is IntegrationUninstall
                || method is PluginLink || method is PluginList || method is PluginEnable
                || method is PluginActionList || method is PluginLogList
            )
        }),
{
}

} // verus!
