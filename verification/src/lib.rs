//! The resource state machine of a remote execution agent.
//!
//! A caller opens files, starts processes and reads or writes their streams
//! through a small set of operations. This crate holds the descriptor tables,
//! the rules of every operation and the text-aware readers; the host performs
//! the operating-system work that they decide on.

pub mod agent_error;
pub mod launch;
pub mod laws;
pub mod mode_string;
pub mod model;
pub mod server;
pub mod service;
pub mod state;
pub mod types;
pub mod util;

pub use agent_error::AgentError;
pub use launch::{launch_plan, LaunchPlan, OpenFlags, StreamSetup};
pub use mode_string::parse_open_mode;
pub use model::{AgentModel, DescriptorKind, Event, OpenFile, PipedStreams, ProcessChannels};
pub use server::BhAgentServer;
pub use service::{
    check_env_id, seek_origin, stream_outcome, BhAgentService, ReadRequest, SeekOrigin,
    SeekRequest, WriteRequest,
};
pub use state::BhAgentState;
pub use types::{
    EnvironmentId, FileId, FileOpenMode, FileOpenType, ProcessChannel, ProcessId, Redirection,
    RemotePOpenConfig, DEFAULT_ENVIRONMENT,
};
pub use util::read_chars::{read_chars, read_generic, ByteSource, CharReader, CharReaderView};
pub use util::read_lines::{read_lines, split_lines};
pub use util::source::{LoggedSource, ReadKind, ReadRecord};
