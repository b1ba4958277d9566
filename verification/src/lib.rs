//! The decisions behind a terminal workspace server that clients pair with,
//! connect to and drive over an api.
//!
//! Nothing in this library reads a socket, a file or a process. Where the
//! server alternates between outside work and a decision, the decision is a
//! step here: it takes what was observed, and says what to do next. What a
//! client is answered, what is stored and what is refused follows from these
//! steps, and is stated on them. The server is one on a unix system: paths are
//! read as such a system reads them.
//!
//! - Pairing: [`pair_command`], [`pairing`], [`activation`], with [`config`],
//!   [`endpoint`] and [`net`] for what the configuration declares.
//! - Credentials: [`credentials`], [`last_seen`], [`credential_context`],
//!   [`token`].
//! - Connections and requests: [`connection`], [`requests`], [`schema`],
//!   [`websocket`], [`websocket_auth`], [`api`], [`line_reader`].
//! - Attachments: [`attachment`], [`attachment_name`], [`upload`],
//!   [`scratch`], [`scratch_files`].
//! - Places: [`place_request`], [`place_lookup`], [`places`],
//!   [`place_sources`], [`matching`], [`ordering`].
//! - Panes and handoff: [`pane_state`], [`handoff`], [`handoff_runtime`],
//!   [`snapshot`], [`send_affirm`].
//! - The machine: [`platform`], [`process_groups`], [`agent_hint`],
//!   [`limited_read`], [`prefix_input`], [`server_name`], [`server_reach`],
//!   [`server_executable`], [`clock`].
//! - Texts, paths and encodings: [`text`], [`paths`], [`encoding`].

pub mod activation;
pub mod agent_hint;
pub mod api;
pub mod attachment;
pub mod attachment_name;
pub mod clock;
pub mod config;
pub mod connection;
pub mod credential_context;
pub mod credentials;
pub mod encoding;
pub mod endpoint;
pub mod handoff;
pub mod handoff_runtime;
pub mod last_seen;
pub mod limited_read;
pub mod line_reader;
pub mod matching;
pub mod net;
pub mod ordering;
pub mod pair_command;
pub mod pairing;
pub mod pane_state;
pub mod paths;
pub mod place_lookup;
pub mod place_request;
pub mod place_sources;
pub mod places;
pub mod platform;
pub mod prefix_input;
pub mod process_groups;
pub mod requests;
pub mod schema;
pub mod scratch;
pub mod scratch_files;
pub mod send_affirm;
pub mod server_executable;
pub mod server_name;
pub mod server_reach;
pub mod snapshot;
pub mod text;
pub mod token;
pub mod upload;
pub mod websocket;
pub mod websocket_auth;
