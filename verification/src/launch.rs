//! What the host is asked to do when a file is opened or a process started.

use crate::agent_error::AgentError;
use crate::types::{FileOpenMode, Redirection, RemotePOpenConfig};
use vstd::prelude::*;

verus! {

/// The options with which the host opens a path.
#[derive(Copy, Clone, Debug, PartialEq, Eq, Structural)]
pub struct OpenFlags {
    pub read: bool,
    pub write: bool,
    pub append: bool,
    pub truncate: bool,
    pub create: bool,
    pub create_new: bool,
}

impl FileOpenMode {
    /// The options that each mode stands for.
    pub open spec fn spec_open_flags(self) -> OpenFlags {
        let none = OpenFlags {
            read: false,
            write: false,
            append: false,
            truncate: false,
            create: false,
            create_new: false,
        };
        match self {
            FileOpenMode::Read => OpenFlags { read: true, ..none },
            FileOpenMode::Write => OpenFlags { write: true, create: true, truncate: true, ..none },
            FileOpenMode::ExclusiveWrite => OpenFlags { write: true, create_new: true, ..none },
            FileOpenMode::Append => OpenFlags { append: true, ..none },
            FileOpenMode::Update => OpenFlags { read: true, write: true, ..none },
        }
    }

    /// Turns the mode into the options of the host: reading only;
    /// writing to a file that is created or emptied; writing to a file that
    /// must not exist yet; appending; reading and writing what is there.
    pub fn open_flags(self) -> (flags: OpenFlags)
        ensures
            flags == self.spec_open_flags(),
    {
        let none = OpenFlags {
            read: false,
            write: false,
            append: false,
            truncate: false,
            create: false,
            create_new: false,
        };
        match self {
            FileOpenMode::Read => OpenFlags { read: true, ..none },
            FileOpenMode::Write => OpenFlags { write: true, create: true, truncate: true, ..none },
            FileOpenMode::ExclusiveWrite => OpenFlags { write: true, create_new: true, ..none },
            FileOpenMode::Append => OpenFlags { append: true, ..none },
            FileOpenMode::Update => OpenFlags { read: true, write: true, ..none },
        }
    }
}

/// How the host sets up one standard stream of a process.
#[derive(Copy, Clone, Debug, PartialEq, Eq, Structural)]
pub enum StreamSetup {
    /// The child shares the stream of the agent.
    Inherit,
    /// The stream is a pipe whose other end the agent keeps.
    Pipe,
}

impl Redirection {
    /// A saved stream is piped, any other is inherited.
    pub open spec fn spec_stream_setup(self) -> StreamSetup {
        match self {
            Redirection::Inherit => StreamSetup::Inherit,
            Redirection::Save => StreamSetup::Pipe,
        }
    }

    /// How the host sets up a stream with this redirection.
    pub fn stream_setup(self) -> (setup: StreamSetup)
        ensures
            setup == self.spec_stream_setup(),
    {
        match self {
            Redirection::Inherit => StreamSetup::Inherit,
            Redirection::Save => StreamSetup::Pipe,
        }
    }
}

/// Everything the host needs to start a process.
#[derive(Debug)]
pub struct LaunchPlan {
    pub argv: Vec<String>,
    pub stdin: StreamSetup,
    pub stdout: StreamSetup,
    pub stderr: StreamSetup,
    /// Whether the process is left to itself when its handle is dropped. Never set.
    pub detached: bool,
    pub executable: Option<String>,
    pub env: Option<Vec<(String, String)>>,
    pub cwd: Option<String>,
    pub setuid: Option<u32>,
    pub setgid: Option<u32>,
    pub setpgid: bool,
}

/// The plan that carries out `config`.
pub open spec fn spec_launch_plan(config: RemotePOpenConfig) -> LaunchPlan {
    LaunchPlan {
        argv: config.argv,
        stdin: config.stdin.spec_stream_setup(),
        stdout: config.stdout.spec_stream_setup(),
        stderr: config.stderr.spec_stream_setup(),
        detached: false,
        executable: config.executable,
        env: config.env,
        cwd: config.cwd,
        setuid: config.setuid,
        setgid: config.setgid,
        setpgid: config.setpgid,
    }
}

/// Turns a request to start a process into the plan for the host: each saved
/// stream becomes a pipe, the overrides of executable, environment, working
/// directory, user, group and process group are taken over as they are, and
/// the process is not detached.
///
/// A request without arguments names no program, so it cannot start.
pub fn launch_plan(config: RemotePOpenConfig) -> (r: Result<LaunchPlan, AgentError>)
    ensures
        config.argv@.len() == 0 ==> r == Err::<LaunchPlan, AgentError>(
            AgentError::ProcessStartFailure,
        ),
        config.argv@.len() > 0 ==> r == Ok::<LaunchPlan, AgentError>(spec_launch_plan(config)),
{
    if config.argv.len() == 0 {
        return Err(AgentError::ProcessStartFailure);
    }
    Ok(
        LaunchPlan {
            argv: config.argv,
            stdin: config.stdin.stream_setup(),
            stdout: config.stdout.stream_setup(),
            stderr: config.stderr.stream_setup(),
            detached: false,
            executable: config.executable,
            env: config.env,
            cwd: config.cwd,
            setuid: config.setuid,
            setgid: config.setgid,
            setpgid: config.setpgid,
        },
    )
}

} // verus!
