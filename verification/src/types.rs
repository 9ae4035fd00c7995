//! Identifiers and request types shared by every part of the agent.

use vstd::prelude::*;

verus! {

/// Identifies a logical execution environment. Only `DEFAULT_ENVIRONMENT` exists.
pub type EnvironmentId = u64;

/// Opaque handle of a spawned process.
pub type ProcessId = u64;

/// Opaque handle of an open file or of one piped stream of a process.
pub type FileId = u64;

/// The single environment that the agent serves.
pub const DEFAULT_ENVIRONMENT: EnvironmentId = 0;

/// One of the three standard streams of a process.
#[derive(Copy, Clone, Debug, PartialEq, Eq, Structural)]
pub enum ProcessChannel {
    Stdin,
    Stdout,
    Stderr,
}

/// What happens to one standard stream of a process that is about to start.
#[derive(Copy, Clone, Debug, PartialEq, Eq, Structural)]
pub enum Redirection {
    /// The stream is left alone: the child shares the agent's own stream.
    Inherit,
    /// The stream is piped and kept, so that it can be read or written later.
    Save,
}

impl Default for Redirection {
    fn default() -> (r: Redirection)
        ensures
            r == Redirection::Inherit,
    {
        Redirection::Inherit
    }
}

impl Redirection {
    /// `Save` for a stream that the caller wants captured, `Inherit` otherwise.
    pub fn from_flag(capture: bool) -> (r: Redirection)
        ensures
            r == (if capture {
                Redirection::Save
            } else {
                Redirection::Inherit
            }),
    {
        if capture {
            Redirection::Save
        } else {
            Redirection::Inherit
        }
    }
}

impl ProcessChannel {
    /// The channel with the conventional descriptor number `index`.
    pub open spec fn spec_from_index(index: i32) -> Option<ProcessChannel> {
        if index == 0 {
            Some(ProcessChannel::Stdin)
        } else if index == 1 {
            Some(ProcessChannel::Stdout)
        } else if index == 2 {
            Some(ProcessChannel::Stderr)
        } else {
            None
        }
    }

    /// Maps 0, 1 and 2 to stdin, stdout and stderr; every other number names no channel.
    pub fn from_index(index: i32) -> (r: Option<ProcessChannel>)
        ensures
            r == Self::spec_from_index(index),
    {
        if index == 0 {
            Some(ProcessChannel::Stdin)
        } else if index == 1 {
            Some(ProcessChannel::Stdout)
        } else if index == 2 {
            Some(ProcessChannel::Stderr)
        } else {
            None
        }
    }
}

/// How a file is opened.
#[derive(Copy, Clone, Debug, PartialEq, Eq, Structural)]
pub enum FileOpenMode {
    Read,
    Write,
    ExclusiveWrite,
    Append,
    Update,
}

/// Whether reads count bytes or characters.
#[derive(Copy, Clone, Debug, PartialEq, Eq, Structural)]
pub enum FileOpenType {
    Binary,
    Text,
}

/// A request to start a process.
///
/// `argv` must not be empty. The keys of `env` should be unique: the order in
/// which duplicates take effect is left to the host.
#[derive(Clone, Debug)]
pub struct RemotePOpenConfig {
    pub argv: Vec<String>,
    pub stdin: Redirection,
    pub stdout: Redirection,
    pub stderr: Redirection,
    pub executable: Option<String>,
    pub env: Option<Vec<(String, String)>>,
    pub cwd: Option<String>,
    pub setuid: Option<u32>,
    pub setgid: Option<u32>,
    pub setpgid: bool,
}

impl Default for RemotePOpenConfig {
    fn default() -> (c: RemotePOpenConfig)
        ensures
            c.argv@.len() == 0,
            c.stdin == Redirection::Inherit,
            c.stdout == Redirection::Inherit,
            c.stderr == Redirection::Inherit,
            c.executable is None,
            c.env is None,
            c.cwd is None,
            c.setuid is None,
            c.setgid is None,
            !c.setpgid,
    {
        RemotePOpenConfig {
            argv: Vec::new(),
            stdin: Redirection::Inherit,
            stdout: Redirection::Inherit,
            stderr: Redirection::Inherit,
            executable: None,
            env: None,
            cwd: None,
            setuid: None,
            setgid: None,
            setpgid: false,
        }
    }
}

} // verus!
