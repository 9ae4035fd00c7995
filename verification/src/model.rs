//! The mathematical model of the agent's tables, and what each operation does to it.

use crate::agent_error::AgentError;
use crate::types::{FileId, FileOpenMode, FileOpenType, ProcessChannel, ProcessId};
use vstd::prelude::*;

verus! {

/// What the agent records of an open file.
#[derive(Copy, Clone, Debug, PartialEq, Eq, Structural)]
pub struct OpenFile {
    pub mode: FileOpenMode,
    pub file_type: FileOpenType,
}

/// The descriptors of the piped streams of one process. A stream that was not
/// piped has none.
#[derive(Copy, Clone, Debug, PartialEq, Eq, Structural)]
pub struct ProcessChannels {
    pub stdin: Option<FileId>,
    pub stdout: Option<FileId>,
    pub stderr: Option<FileId>,
}

/// Which standard streams of a freshly started process are pipes.
#[derive(Copy, Clone, Debug, PartialEq, Eq, Structural)]
pub struct PipedStreams {
    pub stdin: bool,
    pub stdout: bool,
    pub stderr: bool,
}

/// What a descriptor refers to.
#[derive(Copy, Clone, Debug, PartialEq, Eq, Structural)]
pub enum DescriptorKind {
    /// A file opened by path.
    PlainFile,
    /// The input pipe of the given process.
    ProcessStdin(ProcessId),
    /// The output pipe of the given process.
    ProcessStdout(ProcessId),
    /// The error pipe of the given process.
    ProcessStderr(ProcessId),
}

impl PipedStreams {
    /// How many descriptors the streams need.
    pub open spec fn count(self) -> int {
        let stdin: int = if self.stdin { 1 } else { 0 };
        let stdout: int = if self.stdout { 1 } else { 0 };
        let stderr: int = if self.stderr { 1 } else { 0 };
        stdin + stdout + stderr
    }
}

/// One request that can change the tables, with what the host reports of it.
pub enum Event {
    /// A file is to be recorded with this mode and type, if the host could open it.
    Open { opened: bool, mode: FileOpenMode, file_type: FileOpenType },
    /// A descriptor is to be closed.
    Close { fd: FileId },
    /// A process is to be recorded: `None` if the host could not start it,
    /// and otherwise which of its streams are pipes.
    Spawn { spawned: Option<PipedStreams> },
}

/// The tables of the agent as mathematical maps.
pub struct AgentModel {
    /// The open files.
    pub files: Map<FileId, OpenFile>,
    /// The processes that were started, each with the descriptors of its pipes.
    pub processes: Map<ProcessId, ProcessChannels>,
    /// For each descriptor of an input pipe, the process that it belongs to.
    pub stdin_ids: Map<FileId, ProcessId>,
    /// For each descriptor of an output pipe, the process that it belongs to.
    pub stdout_ids: Map<FileId, ProcessId>,
    /// For each descriptor of an error pipe, the process that it belongs to.
    pub stderr_ids: Map<FileId, ProcessId>,
    /// The descriptor that is handed out next.
    pub next_file_id: FileId,
    /// The process identifier that is handed out next.
    pub next_process_id: ProcessId,
}

impl AgentModel {
    /// The tables of an agent that has done nothing yet.
    pub open spec fn empty() -> AgentModel {
        AgentModel {
            files: Map::empty(),
            processes: Map::empty(),
            stdin_ids: Map::empty(),
            stdout_ids: Map::empty(),
            stderr_ids: Map::empty(),
            next_file_id: 0,
            next_process_id: 0,
        }
    }

    /// Empty tables whose counters stand at the given identifiers.
    pub open spec fn starting_at(first_file_id: FileId, first_process_id: ProcessId) -> AgentModel {
        AgentModel {
            next_file_id: first_file_id,
            next_process_id: first_process_id,
            ..AgentModel::empty()
        }
    }

    /// Whether `fd` is in one of the four descriptor tables.
    pub open spec fn holds(self, fd: FileId) -> bool {
        ||| self.files.contains_key(fd)
        ||| self.stdin_ids.contains_key(fd)
        ||| self.stdout_ids.contains_key(fd)
        ||| self.stderr_ids.contains_key(fd)
    }

    /// How many of the four descriptor tables hold `fd`.
    pub open spec fn occurrences(self, fd: FileId) -> int {
        (if self.files.contains_key(fd) { 1int } else { 0 }) + (if self.stdin_ids.contains_key(fd) {
            1int
        } else {
            0
        }) + (if self.stdout_ids.contains_key(fd) { 1int } else { 0 }) + (
        if self.stderr_ids.contains_key(fd) {
            1int
        } else {
            0
        })
    }

    /// The descriptor that process `pid` has for `channel` according to its entry.
    pub open spec fn channel(self, pid: ProcessId, channel: ProcessChannel) -> Option<FileId> {
        if self.processes.contains_key(pid) {
            match channel {
                ProcessChannel::Stdin => self.processes[pid].stdin,
                ProcessChannel::Stdout => self.processes[pid].stdout,
                ProcessChannel::Stderr => self.processes[pid].stderr,
            }
        } else {
            None
        }
    }

    /// What `fd` refers to: the tables are tried in the order files, input
    /// pipes, output pipes, error pipes.
    pub open spec fn resolve(self, fd: FileId) -> Option<DescriptorKind> {
        if self.files.contains_key(fd) {
            Some(DescriptorKind::PlainFile)
        } else if self.stdin_ids.contains_key(fd) {
            Some(DescriptorKind::ProcessStdin(self.stdin_ids[fd]))
        } else if self.stdout_ids.contains_key(fd) {
            Some(DescriptorKind::ProcessStdout(self.stdout_ids[fd]))
        } else if self.stderr_ids.contains_key(fd) {
            Some(DescriptorKind::ProcessStderr(self.stderr_ids[fd]))
        } else {
            None
        }
    }

    /// The invariant of the tables:
    /// every descriptor and process identifier in use was handed out before,
    /// no descriptor is in two tables, and the entry of a process and the
    /// three pipe tables say the same.
    pub open spec fn wf(self) -> bool {
        &&& forall|fd: FileId| #[trigger] self.holds(fd) ==> fd < self.next_file_id
        &&& forall|fd: FileId| #[trigger] self.occurrences(fd) <= 1
        &&& forall|pid: ProcessId| #[trigger]
            self.processes.contains_key(pid) ==> pid < self.next_process_id
        &&& forall|fd: FileId| #[trigger]
            self.stdin_ids.contains_key(fd) ==> self.channel(
                self.stdin_ids[fd],
                ProcessChannel::Stdin,
            ) == Some(fd)
        &&& forall|fd: FileId| #[trigger]
            self.stdout_ids.contains_key(fd) ==> self.channel(
                self.stdout_ids[fd],
                ProcessChannel::Stdout,
            ) == Some(fd)
        &&& forall|fd: FileId| #[trigger]
            self.stderr_ids.contains_key(fd) ==> self.channel(
                self.stderr_ids[fd],
                ProcessChannel::Stderr,
            ) == Some(fd)
        &&& forall|pid: ProcessId| #[trigger]
            self.processes.contains_key(pid) ==> self.linked(pid)
    }

    /// Each pipe in the entry of process `pid` is in the table of its kind, under `pid`.
    pub open spec fn linked(self, pid: ProcessId) -> bool {
        let entry = self.processes[pid];
        &&& entry.stdin matches Some(fd) ==> self.stdin_ids.contains_key(fd) && self.stdin_ids[fd]
            == pid
        &&& entry.stdout matches Some(fd) ==> self.stdout_ids.contains_key(fd)
            && self.stdout_ids[fd] == pid
        &&& entry.stderr matches Some(fd) ==> self.stderr_ids.contains_key(fd)
            && self.stderr_ids[fd] == pid
    }

    /// Whether one more descriptor can be handed out.
    pub open spec fn can_open(self) -> bool {
        self.next_file_id < u64::MAX
    }

    /// The tables after a file was opened with `mode` and `file_type`. Its
    /// descriptor is the old `next_file_id`.
    pub open spec fn opened(self, mode: FileOpenMode, file_type: FileOpenType) -> AgentModel {
        AgentModel {
            files: self.files.insert(self.next_file_id, OpenFile { mode, file_type }),
            next_file_id: (self.next_file_id + 1) as u64,
            ..self
        }
    }

    /// The tables after the file `fd` was closed.
    pub open spec fn closed(self, fd: FileId) -> AgentModel {
        AgentModel { files: self.files.remove(fd), ..self }
    }

    /// Whether a process with the pipes `pipes` can be given its identifiers.
    pub open spec fn can_spawn(self, pipes: PipedStreams) -> bool {
        &&& self.next_process_id < u64::MAX
        &&& self.next_file_id + pipes.count() <= u64::MAX
    }

    /// The descriptors that a process started now with the pipes `pipes` gets:
    /// consecutive ones from `next_file_id` on, in the order input, output, error.
    pub open spec fn fresh_channels(self, pipes: PipedStreams) -> ProcessChannels {
        let first = self.next_file_id as int;
        let second = first + (if pipes.stdin { 1int } else { 0 });
        let third = second + (if pipes.stdout { 1int } else { 0 });
        ProcessChannels {
            stdin: if pipes.stdin { Some(first as u64) } else { None },
            stdout: if pipes.stdout { Some(second as u64) } else { None },
            stderr: if pipes.stderr { Some(third as u64) } else { None },
        }
    }

    /// The tables after a process with the pipes `pipes` was started. Its
    /// identifier is the old `next_process_id`.
    pub open spec fn spawned(self, pipes: PipedStreams) -> AgentModel {
        let pid = self.next_process_id;
        let channels = self.fresh_channels(pipes);
        AgentModel {
            files: self.files,
            processes: self.processes.insert(pid, channels),
            stdin_ids: match channels.stdin {
                Some(fd) => self.stdin_ids.insert(fd, pid),
                None => self.stdin_ids,
            },
            stdout_ids: match channels.stdout {
                Some(fd) => self.stdout_ids.insert(fd, pid),
                None => self.stdout_ids,
            },
            stderr_ids: match channels.stderr {
                Some(fd) => self.stderr_ids.insert(fd, pid),
                None => self.stderr_ids,
            },
            next_file_id: (self.next_file_id + pipes.count()) as u64,
            next_process_id: (self.next_process_id + 1) as u64,
        }
    }

    /// The tables after one more descriptor was handed out.
    pub open spec fn with_file_id_taken(self) -> AgentModel {
        AgentModel { next_file_id: (self.next_file_id + 1) as u64, ..self }
    }

    /// The tables after one more process identifier was handed out.
    pub open spec fn with_process_id_taken(self) -> AgentModel {
        AgentModel { next_process_id: (self.next_process_id + 1) as u64, ..self }
    }

    /// The next descriptor, or `Unknown` when the last one is gone: no
    /// descriptor is handed out twice.
    pub open spec fn next_file_id_answer(self) -> Result<FileId, AgentError> {
        if self.can_open() {
            Ok(self.next_file_id)
        } else {
            Err(AgentError::Unknown)
        }
    }

    /// The next process identifier, or `Unknown` when the last one is gone.
    pub open spec fn next_process_id_answer(self) -> Result<ProcessId, AgentError> {
        if self.next_process_id < u64::MAX {
            Ok(self.next_process_id)
        } else {
            Err(AgentError::Unknown)
        }
    }

    /// What the caller who opens a file is told: an I/O error if the host
    /// could not open it, and otherwise the next descriptor.
    pub open spec fn open_answer(self, opened: bool) -> Result<FileId, AgentError> {
        if !opened {
            Err(AgentError::IoError)
        } else {
            self.next_file_id_answer()
        }
    }

    /// What the caller who closes `fd` is told: only an open file can be closed.
    pub open spec fn close_answer(self, fd: FileId) -> Result<(), AgentError> {
        if self.files.contains_key(fd) {
            Ok(())
        } else {
            Err(AgentError::InvalidFileDescriptor)
        }
    }

    /// What the caller who starts a process is told: a failure to start if
    /// the host could not start it, otherwise the next process identifier,
    /// or `Unknown` when the identifiers that it needs are gone.
    pub open spec fn spawn_answer(self, spawned: Option<PipedStreams>) -> Result<
        ProcessId,
        AgentError,
    > {
        match spawned {
            None => Err(AgentError::ProcessStartFailure),
            Some(pipes) => if self.can_spawn(pipes) {
                Ok(self.next_process_id)
            } else {
                Err(AgentError::Unknown)
            },
        }
    }

    /// The tables after `event`. A request that fails leaves them as they are.
    pub open spec fn after(self, event: Event) -> AgentModel {
        match event {
            Event::Open { opened, mode, file_type } => if self.open_answer(opened) is Ok {
                self.opened(mode, file_type)
            } else {
                self
            },
            Event::Close { fd } => if self.close_answer(fd) is Ok {
                self.closed(fd)
            } else {
                self
            },
            Event::Spawn { spawned } => if self.spawn_answer(spawned) is Ok {
                self.spawned(spawned->Some_0)
            } else {
                self
            },
        }
    }

    /// What `fd` refers to, or that it is invalid.
    pub open spec fn kind_answer(self, fd: FileId) -> Result<DescriptorKind, AgentError> {
        match self.resolve(fd) {
            Some(kind) => Ok(kind),
            None => Err(AgentError::InvalidFileDescriptor),
        }
    }

    /// The descriptor of the pipe that process `pid` has for `channel`. There
    /// is none if there is no such process, or if that stream was not piped.
    pub open spec fn channel_answer(self, pid: ProcessId, channel: ProcessChannel) -> Result<
        FileId,
        AgentError,
    > {
        match self.channel(pid, channel) {
            Some(fd) => Ok(fd),
            None => Err(AgentError::InvalidProcessId),
        }
    }

    /// Whether the open file `fd` counts bytes or characters.
    pub open spec fn file_type_answer(self, fd: FileId) -> Result<FileOpenType, AgentError> {
        match self.file_answer(fd) {
            Ok(file) => Ok(file.file_type),
            Err(e) => Err(e),
        }
    }

    /// Whether the open file `fd` was opened in one of `modes`.
    pub open spec fn any_mode_answer(self, fd: FileId, modes: Seq<FileOpenMode>) -> Result<
        bool,
        AgentError,
    > {
        match self.file_answer(fd) {
            Ok(file) => Ok(modes.contains(file.mode)),
            Err(e) => Err(e),
        }
    }

    /// What is recorded of the open file `fd`. Only open files have a record.
    pub open spec fn file_answer(self, fd: FileId) -> Result<OpenFile, AgentError> {
        if self.files.contains_key(fd) {
            Ok(self.files[fd])
        } else {
            Err(AgentError::InvalidFileDescriptor)
        }
    }
}

/// Empty tables are well formed, wherever their counters stand.
pub proof fn lemma_empty_wf(first_file_id: FileId, first_process_id: ProcessId)
    ensures
        AgentModel::starting_at(first_file_id, first_process_id).wf(),
        AgentModel::starting_at(0, 0) == AgentModel::empty(),
{
}

/// Handing out a descriptor keeps the tables well formed.
pub proof fn lemma_file_id_taken_wf(m: AgentModel)
    requires
        m.wf(),
        m.can_open(),
    ensures
        m.with_file_id_taken().wf(),
{
    let n = m.with_file_id_taken();
    assert forall|fd: FileId| #[trigger] n.holds(fd) implies fd < n.next_file_id by {
        assert(m.holds(fd));
    }
    assert forall|fd: FileId| #[trigger] n.occurrences(fd) <= 1 by {
        assert(m.occurrences(fd) <= 1);
    }
    assert forall|pid: ProcessId| #[trigger] n.processes.contains_key(pid) implies n.linked(
        pid,
    ) by {
        assert(m.linked(pid));
    }
}

/// Handing out a process identifier keeps the tables well formed.
pub proof fn lemma_process_id_taken_wf(m: AgentModel)
    requires
        m.wf(),
        m.next_process_id < u64::MAX,
    ensures
        m.with_process_id_taken().wf(),
{
    let n = m.with_process_id_taken();
    assert forall|fd: FileId| #[trigger] n.holds(fd) implies fd < n.next_file_id by {
        assert(m.holds(fd));
    }
    assert forall|fd: FileId| #[trigger] n.occurrences(fd) <= 1 by {
        assert(m.occurrences(fd) <= 1);
    }
    assert forall|pid: ProcessId| #[trigger] n.processes.contains_key(pid) implies n.linked(
        pid,
    ) by {
        assert(m.linked(pid));
    }
}

/// Opening a file keeps the tables well formed.
pub proof fn lemma_opened_wf(m: AgentModel, mode: FileOpenMode, file_type: FileOpenType)
    requires
        m.wf(),
        m.can_open(),
    ensures
        m.opened(mode, file_type).wf(),
{
    let n = m.opened(mode, file_type);
    assert(!m.holds(m.next_file_id));
    assert forall|fd: FileId| #[trigger] n.holds(fd) implies fd < n.next_file_id by {
        if fd != m.next_file_id {
            assert(m.holds(fd));
        }
    }
    assert forall|fd: FileId| #[trigger] n.occurrences(fd) <= 1 by {
        assert(m.occurrences(fd) <= 1);
    }
    assert forall|pid: ProcessId| #[trigger] n.processes.contains_key(pid) implies n.linked(
        pid,
    ) by {
        assert(m.linked(pid));
    }
}

/// Closing a file keeps the tables well formed.
pub proof fn lemma_closed_wf(m: AgentModel, fd: FileId)
    requires
        m.wf(),
    ensures
        m.closed(fd).wf(),
{
    let n = m.closed(fd);
    assert forall|other: FileId| #[trigger] n.holds(other) implies other < n.next_file_id by {
        assert(m.holds(other));
    }
    assert forall|other: FileId| #[trigger] n.occurrences(other) <= 1 by {
        assert(m.occurrences(other) <= 1);
    }
    assert forall|pid: ProcessId| #[trigger] n.processes.contains_key(pid) implies n.linked(
        pid,
    ) by {
        assert(m.linked(pid));
    }
}

/// Starting a process keeps the tables well formed.
pub proof fn lemma_spawned_wf(m: AgentModel, pipes: PipedStreams)
    requires
        m.wf(),
        m.can_spawn(pipes),
    ensures
        m.spawned(pipes).wf(),
{
    let n = m.spawned(pipes);
    let pid = m.next_process_id;
    let channels = m.fresh_channels(pipes);
    assert(!m.processes.contains_key(pid));
    assert forall|fd: FileId| fd >= m.next_file_id implies !m.holds(fd) && m.occurrences(fd)
        == 0 by {
        if m.holds(fd) {
        }
    }
    assert forall|fd: FileId| #[trigger] n.holds(fd) implies fd < n.next_file_id by {
        if fd < m.next_file_id {
        } else {
            assert(!m.holds(fd));
        }
    }
    assert forall|fd: FileId| #[trigger] n.occurrences(fd) <= 1 by {
        assert(m.occurrences(fd) <= 1);
        if fd >= m.next_file_id {
            assert(!m.holds(fd));
        }
    }
    assert forall|fd: FileId| #[trigger] n.stdin_ids.contains_key(fd) implies n.channel(
        n.stdin_ids[fd],
        ProcessChannel::Stdin,
    ) == Some(fd) by {
        if m.stdin_ids.contains_key(fd) {
            assert(m.holds(fd));
            assert(m.channel(m.stdin_ids[fd], ProcessChannel::Stdin) == Some(fd));
        }
    }
    assert forall|fd: FileId| #[trigger] n.stdout_ids.contains_key(fd) implies n.channel(
        n.stdout_ids[fd],
        ProcessChannel::Stdout,
    ) == Some(fd) by {
        if m.stdout_ids.contains_key(fd) {
            assert(m.holds(fd));
            assert(m.channel(m.stdout_ids[fd], ProcessChannel::Stdout) == Some(fd));
        }
    }
    assert forall|fd: FileId| #[trigger] n.stderr_ids.contains_key(fd) implies n.channel(
        n.stderr_ids[fd],
        ProcessChannel::Stderr,
    ) == Some(fd) by {
        if m.stderr_ids.contains_key(fd) {
            assert(m.holds(fd));
            assert(m.channel(m.stderr_ids[fd], ProcessChannel::Stderr) == Some(fd));
        }
    }
    assert forall|other: ProcessId| #[trigger] n.processes.contains_key(other) implies n.linked(
        other,
    ) by {
        if other != pid {
            assert(m.linked(other));
            let entry = m.processes[other];
            if let Some(fd) = entry.stdin {
                assert(m.holds(fd));
            }
            if let Some(fd) = entry.stdout {
                assert(m.holds(fd));
            }
            if let Some(fd) = entry.stderr {
                assert(m.holds(fd));
            }
        }
    }
}

} // verus!
