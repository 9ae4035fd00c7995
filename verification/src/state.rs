//! The resource state store: the descriptor tables, the process table and
//! the two counters that hand out identifiers.

use crate::agent_error::AgentError;
use crate::model::{
    lemma_closed_wf, lemma_empty_wf, lemma_file_id_taken_wf, lemma_opened_wf,
    lemma_process_id_taken_wf, lemma_spawned_wf, AgentModel, DescriptorKind, Event, OpenFile,
    PipedStreams, ProcessChannels,
};
use crate::types::{FileId, FileOpenMode, FileOpenType, ProcessChannel, ProcessId};
use std::collections::HashMap;
use vstd::prelude::*;

verus! {

broadcast use vstd::std_specs::hash::group_hash_axioms;

/// The single owner of the agent's tables.
///
/// The host keeps the operating-system handles under the identifiers that
/// this store hands out, and reports here what it opened or started.
pub struct BhAgentState {
    files: HashMap<FileId, OpenFile>,
    processes: HashMap<ProcessId, ProcessChannels>,
    proc_stdin_ids: HashMap<FileId, ProcessId>,
    proc_stdout_ids: HashMap<FileId, ProcessId>,
    proc_stderr_ids: HashMap<FileId, ProcessId>,
    next_file_id: FileId,
    next_process_id: ProcessId,
}

impl View for BhAgentState {
    type V = AgentModel;

    closed spec fn view(&self) -> AgentModel {
        AgentModel {
            files: self.files@,
            processes: self.processes@,
            stdin_ids: self.proc_stdin_ids@,
            stdout_ids: self.proc_stdout_ids@,
            stderr_ids: self.proc_stderr_ids@,
            next_file_id: self.next_file_id,
            next_process_id: self.next_process_id,
        }
    }
}

impl BhAgentState {
    /// The tables of every store are well formed.
    #[verifier::type_invariant]
    pub open spec fn well_formed(&self) -> bool {
        self@.wf()
    }

    /// A store with empty tables, whose first identifiers are 0.
    pub fn new() -> (state: BhAgentState)
        ensures
            state@ == AgentModel::empty(),
    {
        proof {
            lemma_empty_wf(0, 0);
        }
        BhAgentState::starting_at(0, 0)
    }

    /// A store with empty tables that hands out `first_file_id` and
    /// `first_process_id` first, and larger identifiers after them.
    pub fn starting_at(first_file_id: FileId, first_process_id: ProcessId) -> (state: BhAgentState)
        ensures
            state@ == AgentModel::starting_at(first_file_id, first_process_id),
    {
        proof {
            lemma_empty_wf(first_file_id, first_process_id);
        }
        BhAgentState {
            files: HashMap::new(),
            processes: HashMap::new(),
            proc_stdin_ids: HashMap::new(),
            proc_stdout_ids: HashMap::new(),
            proc_stderr_ids: HashMap::new(),
            next_file_id: first_file_id,
            next_process_id: first_process_id,
        }
    }

    /// Hands out the next descriptor. Descriptors are never handed out twice:
    /// once the last one is gone the call fails with `Unknown` and changes nothing.
    pub fn take_file_id(&mut self) -> (r: Result<FileId, AgentError>)
        ensures
            r == old(self)@.next_file_id_answer(),
            final(self)@ == (if r is Ok {
                old(self)@.with_file_id_taken()
            } else {
                old(self)@
            }),
    {
        proof {
            use_type_invariant(&*self);
        }
        if self.next_file_id == u64::MAX {
            return Err(AgentError::Unknown);
        }
        let file_id = self.next_file_id;
        proof {
            lemma_file_id_taken_wf(self@);
        }
        self.next_file_id = file_id + 1;
        Ok(file_id)
    }

    /// Hands out the next process identifier, or fails with `Unknown` and
    /// changes nothing once the last one is gone.
    pub fn take_proc_id(&mut self) -> (r: Result<ProcessId, AgentError>)
        ensures
            r == old(self)@.next_process_id_answer(),
            final(self)@ == (if r is Ok {
                old(self)@.with_process_id_taken()
            } else {
                old(self)@
            }),
    {
        proof {
            use_type_invariant(&*self);
        }
        if self.next_process_id == u64::MAX {
            return Err(AgentError::Unknown);
        }
        let process_id = self.next_process_id;
        proof {
            lemma_process_id_taken_wf(self@);
        }
        self.next_process_id = process_id + 1;
        Ok(process_id)
    }

    /// Whether the open file `fd` was opened in one of `modes`. Only plain
    /// files have a mode: every other descriptor is invalid here.
    pub fn file_has_any_mode(&self, fd: &FileId, modes: &Vec<FileOpenMode>) -> (r: Result<
        bool,
        AgentError,
    >)
        ensures
            r == self@.any_mode_answer(*fd, modes@),
    {
        match self.files.get(fd) {
            Some(file) => {
                let mode = file.mode;
                let mut i: usize = 0;
                while i < modes.len()
                    invariant
                        i <= modes.len(),
                        self@.files.contains_key(*fd),
                        self@.files[*fd].mode == mode,
                        forall|j: int| 0 <= j < i ==> modes@[j] != mode,
                    decreases modes.len() - i,
                {
                    if modes[i] == mode {
                        return Ok(true);
                    }
                    i += 1;
                }
                Ok(false)
            },
            None => Err(AgentError::InvalidFileDescriptor),
        }
    }

    /// Whether the open file `fd` counts bytes or characters.
    pub fn file_type(&self, fd: &FileId) -> (r: Result<FileOpenType, AgentError>)
        ensures
            r == self@.file_type_answer(*fd),
    {
        match self.files.get(fd) {
            Some(file) => Ok(file.file_type),
            None => Err(AgentError::InvalidFileDescriptor),
        }
    }

    /// Records the outcome of opening a path. `opened` says whether the host
    /// could open it.
    ///
    /// A failed open is an I/O error. A successful one gets the next
    /// descriptor, under which its mode and type are recorded.
    pub fn open_path(&mut self, opened: bool, mode: FileOpenMode, type_: FileOpenType) -> (r:
        Result<FileId, AgentError>)
        ensures
            r == old(self)@.open_answer(opened),
            final(self)@ == old(self)@.after((Event::Open { opened, mode, file_type: type_ })),
    {
        proof {
            use_type_invariant(&*self);
        }
        if !opened {
            return Err(AgentError::IoError);
        }
        if self.next_file_id == u64::MAX {
            return Err(AgentError::Unknown);
        }
        let ghost before = self@;
        let mut taken = BhAgentState::new();
        std::mem::swap(self, &mut taken);
        let BhAgentState {
            mut files,
            processes,
            proc_stdin_ids,
            proc_stdout_ids,
            proc_stderr_ids,
            next_file_id,
            next_process_id,
        } = taken;
        files.insert(next_file_id, OpenFile { mode, file_type: type_ });
        proof {
            lemma_opened_wf(before, mode, type_);
        }
        *self =
        BhAgentState {
            files,
            processes,
            proc_stdin_ids,
            proc_stdout_ids,
            proc_stderr_ids,
            next_file_id: next_file_id + 1,
            next_process_id,
        };
        Ok(next_file_id)
    }

    /// Records the outcome of starting a process. `spawned` is `None` when
    /// the host could not start it, and otherwise says which of its streams
    /// are pipes.
    ///
    /// A process that started gets the next process identifier, and each of
    /// its pipes a descriptor of its own, in the order input, output, error.
    pub fn run_command(&mut self, spawned: Option<PipedStreams>) -> (r: Result<
        ProcessId,
        AgentError,
    >)
        ensures
            r == old(self)@.spawn_answer(spawned),
            final(self)@ == old(self)@.after((Event::Spawn { spawned })),
    {
        proof {
            use_type_invariant(&*self);
        }
        let pipes = match spawned {
            Some(pipes) => pipes,
            None => {
                return Err(AgentError::ProcessStartFailure);
            },
        };
        let mut needed: u64 = 0;
        if pipes.stdin {
            needed += 1;
        }
        if pipes.stdout {
            needed += 1;
        }
        if pipes.stderr {
            needed += 1;
        }
        assert(needed == pipes.count());
        if self.next_process_id == u64::MAX || self.next_file_id > u64::MAX - needed {
            return Err(AgentError::Unknown);
        }
        let ghost before = self@;
        let mut taken = BhAgentState::new();
        std::mem::swap(self, &mut taken);
        let BhAgentState {
            files,
            mut processes,
            mut proc_stdin_ids,
            mut proc_stdout_ids,
            mut proc_stderr_ids,
            next_file_id,
            next_process_id,
        } = taken;
        let proc_id = next_process_id;
        let mut file_id = next_file_id;
        let mut channels = ProcessChannels { stdin: None, stdout: None, stderr: None };
        if pipes.stdin {
            proc_stdin_ids.insert(file_id, proc_id);
            channels.stdin = Some(file_id);
            file_id += 1;
        }
        if pipes.stdout {
            proc_stdout_ids.insert(file_id, proc_id);
            channels.stdout = Some(file_id);
            file_id += 1;
        }
        if pipes.stderr {
            proc_stderr_ids.insert(file_id, proc_id);
            channels.stderr = Some(file_id);
            file_id += 1;
        }
        processes.insert(proc_id, channels);
        proof {
            lemma_spawned_wf(before, pipes);
            assert(channels == before.fresh_channels(pipes));
        }
        *self =
        BhAgentState {
            files,
            processes,
            proc_stdin_ids,
            proc_stdout_ids,
            proc_stderr_ids,
            next_file_id: file_id,
            next_process_id: proc_id + 1,
        };
        Ok(proc_id)
    }

    /// The descriptor of the pipe that process `proc_id` has for `channel`.
    /// It fails with an invalid process identifier if there is no such
    /// process, or if that stream of it was not piped.
    pub fn get_process_channel(&self, proc_id: &ProcessId, channel: ProcessChannel) -> (r: Result<
        FileId,
        AgentError,
    >)
        ensures
            r == self@.channel_answer(*proc_id, channel),
    {
        match self.processes.get(proc_id) {
            Some(entry) => {
                let found = match channel {
                    ProcessChannel::Stdin => entry.stdin,
                    ProcessChannel::Stdout => entry.stdout,
                    ProcessChannel::Stderr => entry.stderr,
                };
                match found {
                    Some(fd) => Ok(fd),
                    None => Err(AgentError::InvalidProcessId),
                }
            },
            None => Err(AgentError::InvalidProcessId),
        }
    }

    /// Removes the open file `fd`. Only plain files can be closed: the
    /// descriptor of a pipe, like an unknown one, is invalid here.
    pub fn close_file(&mut self, fd: &FileId) -> (r: Result<(), AgentError>)
        ensures
            r == old(self)@.close_answer(*fd),
            final(self)@ == old(self)@.after((Event::Close { fd: *fd })),
    {
        proof {
            use_type_invariant(&*self);
        }
        if !self.files.contains_key(fd) {
            return Err(AgentError::InvalidFileDescriptor);
        }
        let ghost before = self@;
        let mut taken = BhAgentState::new();
        std::mem::swap(self, &mut taken);
        let BhAgentState {
            mut files,
            processes,
            proc_stdin_ids,
            proc_stdout_ids,
            proc_stderr_ids,
            next_file_id,
            next_process_id,
        } = taken;
        files.remove(fd);
        proof {
            lemma_closed_wf(before, *fd);
        }
        *self =
        BhAgentState {
            files,
            processes,
            proc_stdin_ids,
            proc_stdout_ids,
            proc_stderr_ids,
            next_file_id,
            next_process_id,
        };
        Ok(())
    }

    /// Whether `fd` is in the table of open files.
    ///
    /// Despite the name the answer is `true` for a file that is still open,
    /// and `false` once it was closed or if it never was a plain file.
    pub fn is_file_closed(&self, fd: &FileId) -> (r: Result<bool, AgentError>)
        ensures
            r == Ok::<bool, AgentError>(self@.files.contains_key(*fd)),
    {
        Ok(self.files.contains_key(fd))
    }

    /// What `fd` refers to. The tables are tried in a fixed order: open
    /// files, input pipes, output pipes, error pipes. A descriptor in none of
    /// them is invalid.
    pub fn resolve(&self, fd: &FileId) -> (r: Result<DescriptorKind, AgentError>)
        ensures
            r == self@.kind_answer(*fd),
    {
        if self.files.contains_key(fd) {
            return Ok(DescriptorKind::PlainFile);
        }
        if let Some(pid) = self.proc_stdin_ids.get(fd) {
            return Ok(DescriptorKind::ProcessStdin(*pid));
        }
        if let Some(pid) = self.proc_stdout_ids.get(fd) {
            return Ok(DescriptorKind::ProcessStdout(*pid));
        }
        if let Some(pid) = self.proc_stderr_ids.get(fd) {
            return Ok(DescriptorKind::ProcessStderr(*pid));
        }
        Err(AgentError::InvalidFileDescriptor)
    }

    /// Applies `op` to the stream that `fd` refers to and hands back what it
    /// returns. This is the one way by which reads, writes and seeks reach a
    /// stream. `op` is called on that stream only, so it need accept no
    /// other, and it is not called for an invalid descriptor.
    pub fn do_mut_operation<R, F: FnOnce(DescriptorKind) -> R>(&self, fd: &FileId, op: F) -> (r:
        Result<R, AgentError>)
        requires
            self@.kind_answer(*fd) matches Ok(kind) ==> op.requires((kind,)),
        ensures
            self@.kind_answer(*fd) is Ok ==> r is Ok && op.ensures(
                (self@.kind_answer(*fd)->Ok_0,),
                r->Ok_0,
            ),
            self@.kind_answer(*fd) is Err ==> r is Err && r->Err_0 == self@.kind_answer(
                *fd,
            )->Err_0,
    {
        match self.resolve(fd) {
            Ok(kind) => Ok(op(kind)),
            Err(e) => Err(e),
        }
    }
}

} // verus!
