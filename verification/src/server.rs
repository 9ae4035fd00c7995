//! The service of the agent over its own tables.

use crate::agent_error::AgentError;
use crate::launch::{launch_plan, LaunchPlan, OpenFlags};
use crate::model::{AgentModel, DescriptorKind, PipedStreams};
use crate::service::{
    check_env_id, seek_origin, BhAgentService, ReadRequest, SeekRequest, WriteRequest,
};
use crate::state::BhAgentState;
use crate::types::{
    EnvironmentId, FileId, FileOpenMode, FileOpenType, ProcessChannel, ProcessId,
    RemotePOpenConfig, DEFAULT_ENVIRONMENT,
};
use vstd::prelude::*;

verus! {

/// The agent: the tables and the operations on them.
pub struct BhAgentServer {
    state: BhAgentState,
}

impl View for BhAgentServer {
    type V = AgentModel;

    closed spec fn view(&self) -> AgentModel {
        self.state@
    }
}

impl BhAgentServer {
    /// An agent that has opened no file and started no process.
    pub fn new() -> (server: BhAgentServer)
        ensures
            server@ == AgentModel::empty(),
    {
        BhAgentServer { state: BhAgentState::new() }
    }
}

impl BhAgentService for BhAgentServer {
    open spec fn model(&self) -> AgentModel {
        self@
    }

    fn get_environments(&self) -> (r: Vec<EnvironmentId>) {
        vec![DEFAULT_ENVIRONMENT]
    }

    fn get_tempdir(&self, env_id: EnvironmentId) -> (r: Result<String, AgentError>) {
        check_env_id(env_id)?;
        Ok("/tmp".to_owned())
    }

    fn plan_command(&self, env_id: EnvironmentId, config: RemotePOpenConfig) -> (r: Result<
        LaunchPlan,
        AgentError,
    >) {
        check_env_id(env_id)?;
        launch_plan(config)
    }

    fn run_command(&mut self, env_id: EnvironmentId, spawned: Option<PipedStreams>) -> (r: Result<
        ProcessId,
        AgentError,
    >) {
        check_env_id(env_id)?;
        self.state.run_command(spawned)
    }

    fn get_process_channel(
        &self,
        env_id: EnvironmentId,
        proc_id: ProcessId,
        channel: ProcessChannel,
    ) -> (r: Result<FileId, AgentError>) {
        check_env_id(env_id)?;
        self.state.get_process_channel(&proc_id, channel)
    }

    fn plan_open(&self, env_id: EnvironmentId, mode: FileOpenMode) -> (r: Result<
        OpenFlags,
        AgentError,
    >) {
        check_env_id(env_id)?;
        Ok(mode.open_flags())
    }

    fn file_open(
        &mut self,
        env_id: EnvironmentId,
        opened: bool,
        mode: FileOpenMode,
        type_: FileOpenType,
    ) -> (r: Result<FileId, AgentError>) {
        check_env_id(env_id)?;
        self.state.open_path(opened, mode, type_)
    }

    fn file_close(&mut self, env_id: EnvironmentId, fd: FileId) -> (r: Result<(), AgentError>) {
        check_env_id(env_id)?;
        self.state.close_file(&fd)
    }

    fn file_is_closed(&self, env_id: EnvironmentId, fd: FileId) -> (r: Result<bool, AgentError>) {
        check_env_id(env_id)?;
        self.state.is_file_closed(&fd)
    }

    fn file_is_readable(&self, env_id: EnvironmentId, fd: FileId) -> (r: Result<
        bool,
        AgentError,
    >) {
        check_env_id(env_id)?;
        let modes = vec![FileOpenMode::Read, FileOpenMode::Update];
        proof {
            assert(forall|mode: FileOpenMode|
                modes@.contains(mode) <==> crate::service::is_readable_mode(mode)) by {
                assert(modes@[0] == FileOpenMode::Read);
                assert(modes@[1] == FileOpenMode::Update);
            }
        }
        self.state.file_has_any_mode(&fd, &modes)
    }

    fn file_read(&self, env_id: EnvironmentId, fd: FileId, num_bytes: u32) -> (r: Result<
        ReadRequest,
        AgentError,
    >) {
        check_env_id(env_id)?;
        match self.state.resolve(&fd)? {
            DescriptorKind::PlainFile => {
                let file_type = self.state.file_type(&fd)?;
                Ok(ReadRequest { count: num_bytes, file_type })
            },
            _ => Err(AgentError::IoError),
        }
    }

    fn file_read_lines(&self, env_id: EnvironmentId, fd: FileId, hint: u32) -> (r: Result<
        DescriptorKind,
        AgentError,
    >) {
        check_env_id(env_id)?;
        self.state.resolve(&fd)
    }

    fn file_is_seekable(&self, env_id: EnvironmentId, fd: FileId) -> (r: Result<
        bool,
        AgentError,
    >) {
        check_env_id(env_id)?;
        match self.state.resolve(&fd)? {
            DescriptorKind::PlainFile => Ok(true),
            _ => Ok(false),
        }
    }

    fn file_seek(&self, env_id: EnvironmentId, fd: FileId, offset: i32, whence: i32) -> (r: Result<
        SeekRequest,
        AgentError,
    >) {
        check_env_id(env_id)?;
        let origin = match seek_origin(offset, whence) {
            Some(origin) => origin,
            None => {
                return Err(AgentError::InvalidSeekWhence);
            },
        };
        let stream = self.state.resolve(&fd)?;
        Ok(SeekRequest { stream, origin })
    }

    fn file_tell(&self, env_id: EnvironmentId, fd: FileId) -> (r: Result<
        DescriptorKind,
        AgentError,
    >) {
        check_env_id(env_id)?;
        self.state.resolve(&fd)
    }

    fn file_is_writable(&self, env_id: EnvironmentId, fd: FileId) -> (r: Result<
        bool,
        AgentError,
    >) {
        check_env_id(env_id)?;
        let modes = vec![
            FileOpenMode::Write,
            FileOpenMode::ExclusiveWrite,
            FileOpenMode::Update,
            FileOpenMode::Append,
        ];
        proof {
            assert(forall|mode: FileOpenMode|
                modes@.contains(mode) <==> crate::service::is_writable_mode(mode)) by {
                assert(modes@[0] == FileOpenMode::Write);
                assert(modes@[1] == FileOpenMode::ExclusiveWrite);
                assert(modes@[2] == FileOpenMode::Update);
                assert(modes@[3] == FileOpenMode::Append);
            }
        }
        self.state.file_has_any_mode(&fd, &modes)
    }

    fn file_write(&self, env_id: EnvironmentId, fd: FileId, data: Vec<u8>) -> (r: Result<
        WriteRequest,
        AgentError,
    >) {
        check_env_id(env_id)?;
        let stream = self.state.resolve(&fd)?;
        Ok(WriteRequest { stream, data })
    }
}

} // verus!
