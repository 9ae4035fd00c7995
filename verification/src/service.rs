//! The remote operations of the agent, and what each asks of the host.

use crate::agent_error::AgentError;
use crate::launch::{spec_launch_plan, LaunchPlan, OpenFlags};
use crate::model::{AgentModel, DescriptorKind, Event, PipedStreams};
use crate::types::{
    EnvironmentId, FileId, FileOpenMode, FileOpenType, ProcessChannel, ProcessId,
    RemotePOpenConfig, DEFAULT_ENVIRONMENT,
};
use vstd::prelude::*;

verus! {

/// The modes in which a file can be read.
pub open spec fn is_readable_mode(mode: FileOpenMode) -> bool {
    mode == FileOpenMode::Read || mode == FileOpenMode::Update
}

/// The modes in which a file can be written.
pub open spec fn is_writable_mode(mode: FileOpenMode) -> bool {
    mode == FileOpenMode::Write || mode == FileOpenMode::ExclusiveWrite || mode
        == FileOpenMode::Update || mode == FileOpenMode::Append
}

/// Where a seek starts from, and how far it goes.
#[derive(Copy, Clone, Debug, PartialEq, Eq, Structural)]
pub enum SeekOrigin {
    /// So many bytes from the start of the stream.
    Start(u64),
    /// So many bytes from the current position.
    Current(i64),
    /// So many bytes from the end of the stream.
    End(i64),
}

/// A read that the host is to perform on an open file.
#[derive(Copy, Clone, Debug, PartialEq, Eq, Structural)]
pub struct ReadRequest {
    /// How many bytes, or how many characters of a text file, are wanted at most.
    pub count: u32,
    /// Whether `count` counts bytes or characters.
    pub file_type: FileOpenType,
}

/// A seek that the host is to perform.
#[derive(Copy, Clone, Debug, PartialEq, Eq, Structural)]
pub struct SeekRequest {
    pub stream: DescriptorKind,
    pub origin: SeekOrigin,
}

/// A write that the host is to perform.
#[derive(Debug)]
pub struct WriteRequest {
    pub stream: DescriptorKind,
    pub data: Vec<u8>,
}

/// The position that an offset from the start stands for. A negative offset
/// is read as the unsigned number with the same 64 bits.
pub open spec fn spec_start_position(offset: i32) -> u64 {
    if offset >= 0 {
        offset as u64
    } else {
        (offset + 0x1_0000_0000_0000_0000) as u64
    }
}

/// The origin that `whence` names: 0 is the start of the stream, 1 the
/// current position and 2 the end. No other value names one.
pub open spec fn spec_seek_origin(offset: i32, whence: i32) -> Option<SeekOrigin> {
    if whence == 0 {
        Some(SeekOrigin::Start(spec_start_position(offset)))
    } else if whence == 1 {
        Some(SeekOrigin::Current(offset as i64))
    } else if whence == 2 {
        Some(SeekOrigin::End(offset as i64))
    } else {
        None
    }
}

/// Computes the origin and distance of a seek from the two numbers of the request.
pub fn seek_origin(offset: i32, whence: i32) -> (origin: Option<SeekOrigin>)
    ensures
        origin == spec_seek_origin(offset, whence),
{
    if whence == 0 {
        let position: u64 = if offset >= 0 {
            offset as u64
        } else {
            let back: u64 = (-(offset as i64)) as u64;
            u64::MAX - (back - 1)
        };
        Some(SeekOrigin::Start(position))
    } else if whence == 1 {
        Some(SeekOrigin::Current(offset as i64))
    } else if whence == 2 {
        Some(SeekOrigin::End(offset as i64))
    } else {
        None
    }
}

/// What an operation answers in environment `env_id`, if `answer` is what it
/// answers in the default one: every other environment is refused.
pub open spec fn in_environment<T>(env_id: EnvironmentId, answer: Result<T, AgentError>) -> Result<
    T,
    AgentError,
> {
    if env_id == DEFAULT_ENVIRONMENT {
        answer
    } else {
        Err(AgentError::InvalidEnvironmentId)
    }
}

/// The tables after `event` was asked for in environment `env_id`: nothing
/// changes in any environment but the default one.
pub open spec fn after_in_environment(
    env_id: EnvironmentId,
    model: AgentModel,
    event: Event,
) -> AgentModel {
    if env_id == DEFAULT_ENVIRONMENT {
        model.after(event)
    } else {
        model
    }
}

/// The plan for `config`, or that it cannot start for want of a program to run.
pub open spec fn plan_answer(config: RemotePOpenConfig) -> Result<LaunchPlan, AgentError> {
    if config.argv@.len() == 0 {
        Err(AgentError::ProcessStartFailure)
    } else {
        Ok(spec_launch_plan(config))
    }
}

/// Whether the open file `fd` can be read.
pub open spec fn readable_answer(model: AgentModel, fd: FileId) -> Result<bool, AgentError> {
    match model.file_answer(fd) {
        Ok(file) => Ok(is_readable_mode(file.mode)),
        Err(e) => Err(e),
    }
}

/// Whether the open file `fd` can be written.
pub open spec fn writable_answer(model: AgentModel, fd: FileId) -> Result<bool, AgentError> {
    match model.file_answer(fd) {
        Ok(file) => Ok(is_writable_mode(file.mode)),
        Err(e) => Err(e),
    }
}

/// Whether the position of `fd` can be set: that of a file can, that of a pipe cannot.
pub open spec fn seekable_answer(model: AgentModel, fd: FileId) -> Result<bool, AgentError> {
    match model.kind_answer(fd) {
        Ok(kind) => Ok(kind == DescriptorKind::PlainFile),
        Err(e) => Err(e),
    }
}

/// The read to perform on `fd`. Only an open file has a type that says how
/// to count, so a read from a pipe is an I/O error.
pub open spec fn read_answer(model: AgentModel, fd: FileId, num_bytes: u32) -> Result<
    ReadRequest,
    AgentError,
> {
    match model.kind_answer(fd) {
        Ok(DescriptorKind::PlainFile) => match model.file_type_answer(fd) {
            Ok(file_type) => Ok(ReadRequest { count: num_bytes, file_type }),
            Err(e) => Err(e),
        },
        Ok(_) => Err(AgentError::IoError),
        Err(e) => Err(e),
    }
}

/// The seek to perform on `fd`. A `whence` that names no origin is refused
/// before the descriptor is looked at.
pub open spec fn seek_answer(model: AgentModel, fd: FileId, offset: i32, whence: i32) -> Result<
    SeekRequest,
    AgentError,
> {
    match spec_seek_origin(offset, whence) {
        None => Err(AgentError::InvalidSeekWhence),
        Some(origin) => match model.kind_answer(fd) {
            Ok(stream) => Ok(SeekRequest { stream, origin }),
            Err(e) => Err(e),
        },
    }
}

/// The write to perform on `fd`: all of `data`, to the stream that `fd` refers to.
pub open spec fn write_answer(model: AgentModel, fd: FileId, data: Vec<u8>) -> Result<
    WriteRequest,
    AgentError,
> {
    match model.kind_answer(fd) {
        Ok(stream) => Ok(WriteRequest { stream, data }),
        Err(e) => Err(e),
    }
}

/// In any environment but the default one every operation is refused with
/// `InvalidEnvironmentId`, whatever it would answer otherwise, and the
/// tables stay as they are.
pub proof fn lemma_other_environments_are_refused<T>(
    env_id: EnvironmentId,
    answer: Result<T, AgentError>,
    model: AgentModel,
    event: Event,
)
    requires
        env_id != DEFAULT_ENVIRONMENT,
    ensures
        in_environment(env_id, answer) == Err::<T, AgentError>(AgentError::InvalidEnvironmentId),
        after_in_environment(env_id, model, event) == model,
{
}

/// A seek whose `whence` is none of 0, 1 and 2 is refused with
/// `InvalidSeekWhence`, whatever the tables hold and whatever the descriptor
/// is, so that nothing is asked of the host.
pub proof fn lemma_unknown_whence_is_refused(
    model: AgentModel,
    fd: FileId,
    offset: i32,
    whence: i32,
)
    requires
        whence != 0 && whence != 1 && whence != 2,
    ensures
        seek_answer(model, fd, offset, whence) == Err::<SeekRequest, AgentError>(
            AgentError::InvalidSeekWhence,
        ),
{
}

/// What the caller of a write or a seek is told once the host has tried it:
/// an I/O error unless the host could carry it out.
pub open spec fn spec_stream_outcome(done: bool) -> Result<(), AgentError> {
    if done {
        Ok(())
    } else {
        Err(AgentError::IoError)
    }
}

/// Turns the outcome of a write or a seek of the host into the answer for
/// the caller: an operation that the host could not carry out is an I/O error.
pub fn stream_outcome(done: bool) -> (r: Result<(), AgentError>)
    ensures
        r == spec_stream_outcome(done),
{
    if done {
        Ok(())
    } else {
        Err(AgentError::IoError)
    }
}

/// Accepts the one environment that exists and refuses every other.
pub fn check_env_id(env_id: EnvironmentId) -> (r: Result<(), AgentError>)
    ensures
        r == in_environment(env_id, Ok::<(), AgentError>(())),
{
    if env_id != DEFAULT_ENVIRONMENT {
        Err(AgentError::InvalidEnvironmentId)
    } else {
        Ok(())
    }
}

/// The operations that a caller can ask of the agent.
///
/// Every operation first checks the environment: in any environment but the
/// default one it fails with `InvalidEnvironmentId` and changes nothing. An
/// operation that needs work of the host comes in two kinds. One that reads,
/// writes or seeks returns what the host is to do and on which stream. One
/// that opens a file or starts a process has a planning step, which returns
/// what the host is to do, and a step that records how that went.
pub trait BhAgentService {
    /// The tables behind the service.
    spec fn model(&self) -> AgentModel;

    /// The environments that exist: the default one alone.
    fn get_environments(&self) -> (r: Vec<EnvironmentId>)
        ensures
            r@ == seq![DEFAULT_ENVIRONMENT],
    ;

    /// The directory for temporary files, which is `/tmp`.
    fn get_tempdir(&self, env_id: EnvironmentId) -> (r: Result<String, AgentError>)
        ensures
            env_id == DEFAULT_ENVIRONMENT ==> r is Ok && r->Ok_0@ == "/tmp"@,
            env_id != DEFAULT_ENVIRONMENT ==> r is Err && r->Err_0
                == AgentError::InvalidEnvironmentId,
    ;

    /// Plans the start of a process: what the host is to start, and how.
    fn plan_command(&self, env_id: EnvironmentId, config: RemotePOpenConfig) -> (r: Result<
        LaunchPlan,
        AgentError,
    >)
        ensures
            r == in_environment(env_id, plan_answer(config)),
    ;

    /// Records the outcome of starting a process: `None` if the host could
    /// not start it, and otherwise which of its streams are pipes.
    fn run_command(&mut self, env_id: EnvironmentId, spawned: Option<PipedStreams>) -> (r: Result<
        ProcessId,
        AgentError,
    >)
        ensures
            r == in_environment(env_id, old(self).model().spawn_answer(spawned)),
            final(self).model() == after_in_environment(
                env_id,
                old(self).model(),
                (Event::Spawn { spawned }),
            ),
    ;

    /// The descriptor of one piped stream of a process.
    fn get_process_channel(
        &self,
        env_id: EnvironmentId,
        proc_id: ProcessId,
        channel: ProcessChannel,
    ) -> (r: Result<FileId, AgentError>)
        ensures
            r == in_environment(env_id, self.model().channel_answer(proc_id, channel)),
    ;

    /// Plans the opening of a file: the options with which the host is to open it.
    fn plan_open(&self, env_id: EnvironmentId, mode: FileOpenMode) -> (r: Result<
        OpenFlags,
        AgentError,
    >)
        ensures
            r == in_environment(env_id, Ok::<OpenFlags, AgentError>(mode.spec_open_flags())),
    ;

    /// Records the outcome of opening a file: `opened` says whether the host
    /// could open it.
    fn file_open(
        &mut self,
        env_id: EnvironmentId,
        opened: bool,
        mode: FileOpenMode,
        type_: FileOpenType,
    ) -> (r: Result<FileId, AgentError>)
        ensures
            r == in_environment(env_id, old(self).model().open_answer(opened)),
            final(self).model() == after_in_environment(
                env_id,
                old(self).model(),
                (Event::Open { opened, mode, file_type: type_ }),
            ),
    ;

    /// Closes an open file.
    fn file_close(&mut self, env_id: EnvironmentId, fd: FileId) -> (r: Result<(), AgentError>)
        ensures
            r == in_environment(env_id, old(self).model().close_answer(fd)),
            final(self).model() == after_in_environment(
                env_id,
                old(self).model(),
                (Event::Close { fd }),
            ),
    ;

    /// Whether `fd` is in the table of open files: `true` for a file that is
    /// still open, whatever the name suggests.
    fn file_is_closed(&self, env_id: EnvironmentId, fd: FileId) -> (r: Result<bool, AgentError>)
        ensures
            r == in_environment(
                env_id,
                Ok::<bool, AgentError>(self.model().files.contains_key(fd)),
            ),
    ;

    /// Whether the open file `fd` can be read.
    fn file_is_readable(&self, env_id: EnvironmentId, fd: FileId) -> (r: Result<bool, AgentError>)
        ensures
            r == in_environment(env_id, readable_answer(self.model(), fd)),
    ;

    /// The read to perform on `fd`.
    fn file_read(&self, env_id: EnvironmentId, fd: FileId, num_bytes: u32) -> (r: Result<
        ReadRequest,
        AgentError,
    >)
        ensures
            r == in_environment(env_id, read_answer(self.model(), fd, num_bytes)),
    ;

    /// The stream whose lines are to be read. `hint` is accepted and not
    /// used: the stream is always read to its end.
    fn file_read_lines(&self, env_id: EnvironmentId, fd: FileId, hint: u32) -> (r: Result<
        DescriptorKind,
        AgentError,
    >)
        ensures
            r == in_environment(env_id, self.model().kind_answer(fd)),
    ;

    /// Whether the position of `fd` can be set.
    fn file_is_seekable(&self, env_id: EnvironmentId, fd: FileId) -> (r: Result<bool, AgentError>)
        ensures
            r == in_environment(env_id, seekable_answer(self.model(), fd)),
    ;

    /// The seek to perform on `fd`.
    fn file_seek(&self, env_id: EnvironmentId, fd: FileId, offset: i32, whence: i32) -> (r: Result<
        SeekRequest,
        AgentError,
    >)
        ensures
            r == in_environment(env_id, seek_answer(self.model(), fd, offset, whence)),
    ;

    /// The stream whose position is to be told.
    fn file_tell(&self, env_id: EnvironmentId, fd: FileId) -> (r: Result<
        DescriptorKind,
        AgentError,
    >)
        ensures
            r == in_environment(env_id, self.model().kind_answer(fd)),
    ;

    /// Whether the open file `fd` can be written.
    fn file_is_writable(&self, env_id: EnvironmentId, fd: FileId) -> (r: Result<bool, AgentError>)
        ensures
            r == in_environment(env_id, writable_answer(self.model(), fd)),
    ;

    /// The write to perform on `fd`.
    fn file_write(&self, env_id: EnvironmentId, fd: FileId, data: Vec<u8>) -> (r: Result<
        WriteRequest,
        AgentError,
    >)
        ensures
            r == in_environment(env_id, write_answer(self.model(), fd, data)),
    ;
}

} // verus!
