//! What holds of the tables over any history of the agent.

use crate::agent_error::AgentError;
use crate::model::{
    lemma_closed_wf, lemma_opened_wf, lemma_spawned_wf, AgentModel, DescriptorKind, Event,
    OpenFile, PipedStreams,
};
use crate::service::{
    read_answer, seek_answer, spec_seek_origin, write_answer, ReadRequest, SeekRequest,
    WriteRequest,
};
use crate::types::{FileId, ProcessChannel, ProcessId};
use vstd::prelude::*;

verus! {

impl AgentModel {
    /// The tables after all of `events`, in their order.
    pub open spec fn after_all(self, events: Seq<Event>) -> AgentModel
        decreases events.len(),
    {
        if events.len() == 0 {
            self
        } else {
            self.after_all(events.drop_last()).after(events.last())
        }
    }

    /// Whether `fd` was handed out before and is in no table now.
    pub open spec fn retired(self, fd: FileId) -> bool {
        fd < self.next_file_id && !self.holds(fd)
    }

    /// What the pipe of `channel` of process `pid` resolves to.
    pub open spec fn pipe_kind(pid: ProcessId, channel: ProcessChannel) -> DescriptorKind {
        match channel {
            ProcessChannel::Stdin => DescriptorKind::ProcessStdin(pid),
            ProcessChannel::Stdout => DescriptorKind::ProcessStdout(pid),
            ProcessChannel::Stderr => DescriptorKind::ProcessStderr(pid),
        }
    }
}

/// Every request keeps the tables well formed and never takes back an
/// identifier: both counters only grow.
pub proof fn lemma_after_keeps_wf(m: AgentModel, event: Event)
    requires
        m.wf(),
    ensures
        m.after(event).wf(),
        m.next_file_id <= m.after(event).next_file_id,
        m.next_process_id <= m.after(event).next_process_id,
{
    match event {
        Event::Open { opened, mode, file_type } => {
            if m.open_answer(opened) is Ok {
                lemma_opened_wf(m, mode, file_type);
            }
        },
        Event::Close { fd } => {
            lemma_closed_wf(m, fd);
        },
        Event::Spawn { spawned } => {
            if m.spawn_answer(spawned) is Ok {
                lemma_spawned_wf(m, spawned->Some_0);
            }
        },
    }
}

/// Any history keeps the tables well formed, and the counters only grow along it.
pub proof fn lemma_after_all_keeps_wf(m: AgentModel, events: Seq<Event>)
    requires
        m.wf(),
    ensures
        m.after_all(events).wf(),
        m.next_file_id <= m.after_all(events).next_file_id,
        m.next_process_id <= m.after_all(events).next_process_id,
    decreases events.len(),
{
    if events.len() > 0 {
        lemma_after_all_keeps_wf(m, events.drop_last());
        lemma_after_keeps_wf(m.after_all(events.drop_last()), events.last());
    }
}

/// A history can be cut in two: the tables after all of it are the tables
/// after its second part, started from the tables after its first part.
pub proof fn lemma_after_all_split(m: AgentModel, events: Seq<Event>, at: int)
    requires
        0 <= at <= events.len(),
    ensures
        m.after_all(events) == m.after_all(events.subrange(0, at)).after_all(
            events.subrange(at, events.len() as int),
        ),
    decreases events.len() - at,
{
    let first = events.subrange(0, at);
    let second = events.subrange(at, events.len() as int);
    if at == events.len() {
        assert(first =~= events);
        assert(second.len() == 0);
    } else {
        assert(events.drop_last().subrange(0, at) =~= first);
        assert(events.drop_last().subrange(at, events.len() - 1) =~= second.drop_last());
        assert(second.last() == events.last());
        lemma_after_all_split(m, events.drop_last(), at);
    }
}

/// The descriptors handed out for opened files grow strictly along any
/// history, whatever else happens in between: an earlier one is always
/// smaller than a later one, so no two are equal.
pub proof fn lemma_opened_ids_increase(m: AgentModel, events: Seq<Event>, i: int, j: int)
    requires
        m.wf(),
        0 <= i < j < events.len(),
        events[i] is Open,
        events[j] is Open,
        m.after_all(events.subrange(0, i)).open_answer(events[i]->opened) is Ok,
        m.after_all(events.subrange(0, j)).open_answer(events[j]->opened) is Ok,
    ensures
        m.after_all(events.subrange(0, i)).open_answer(events[i]->opened)->Ok_0 < m.after_all(
            events.subrange(0, j),
        ).open_answer(events[j]->opened)->Ok_0,
{
    let at_i = m.after_all(events.subrange(0, i));
    let past_i = m.after_all(events.subrange(0, i + 1));
    let at_j = m.after_all(events.subrange(0, j));
    assert(events.subrange(0, i + 1).drop_last() =~= events.subrange(0, i));
    assert(events.subrange(0, i + 1).last() == events[i]);
    assert(past_i == at_i.after(events[i]));
    assert(at_i.next_file_id < past_i.next_file_id);
    lemma_after_all_keeps_wf(m, events.subrange(0, i + 1));
    lemma_after_all_split(m, events.subrange(0, j), i + 1);
    assert(events.subrange(0, j).subrange(0, i + 1) =~= events.subrange(0, i + 1));
    lemma_after_all_keeps_wf(past_i, events.subrange(0, j).subrange(i + 1, j));
}

/// A descriptor that was handed out and is in no table stays so after any request.
pub proof fn lemma_retired_after(m: AgentModel, fd: FileId, event: Event)
    requires
        m.wf(),
        m.retired(fd),
    ensures
        m.after(event).retired(fd),
{
}

/// Descriptors are never used again: one that was handed out and is in no
/// table stays so over any history.
pub proof fn lemma_retired_for_good(m: AgentModel, fd: FileId, events: Seq<Event>)
    requires
        m.wf(),
        m.retired(fd),
    ensures
        m.after_all(events).retired(fd),
        m.after_all(events).resolve(fd) is None,
    decreases events.len(),
{
    if events.len() > 0 {
        lemma_retired_for_good(m, fd, events.drop_last());
        lemma_after_all_keeps_wf(m, events.drop_last());
        lemma_retired_after(m.after_all(events.drop_last()), fd, events.last());
    }
}

/// Once a file is closed its descriptor is invalid, at once and after any
/// history that follows: it resolves to nothing, so that every read, write
/// and seek on it is refused with `InvalidFileDescriptor`.
pub proof fn lemma_closed_is_invalid(m: AgentModel, fd: FileId, events: Seq<Event>)
    requires
        m.wf(),
        m.close_answer(fd) is Ok,
    ensures
        ({
            let later = m.after((Event::Close { fd })).after_all(events);
            let invalid = AgentError::InvalidFileDescriptor;
            &&& later.kind_answer(fd) == Err::<DescriptorKind, AgentError>(invalid)
            &&& later.file_answer(fd) == Err::<OpenFile, AgentError>(invalid)
            &&& later.close_answer(fd) == Err::<(), AgentError>(invalid)
            &&& forall|n: u32| read_answer(later, fd, n) == Err::<ReadRequest, AgentError>(invalid)
            &&& forall|data: Vec<u8>|
                write_answer(later, fd, data) == Err::<WriteRequest, AgentError>(invalid)
            &&& forall|offset: i32, whence: i32|
                spec_seek_origin(offset, whence) is Some ==> seek_answer(later, fd, offset, whence)
                    == Err::<SeekRequest, AgentError>(invalid)
        }),
{
    assert(m.holds(fd));
    assert(m.occurrences(fd) <= 1);
    lemma_closed_wf(m, fd);
    assert(m.closed(fd).retired(fd));
    lemma_retired_for_good(m.closed(fd), fd, events);
    assert(!m.closed(fd).after_all(events).holds(fd));
}

/// In well-formed tables the pipe that a process has for a channel is a
/// descriptor in use that resolves to that channel of that process, and the
/// pipes of two different channels of a process are different descriptors.
pub proof fn lemma_channels_valid_and_distinct(
    m: AgentModel,
    pid: ProcessId,
    channel: ProcessChannel,
    other: ProcessChannel,
)
    requires
        m.wf(),
        m.channel_answer(pid, channel) is Ok,
    ensures
        m.kind_answer(m.channel_answer(pid, channel)->Ok_0) == Ok::<DescriptorKind, AgentError>(
            AgentModel::pipe_kind(pid, channel),
        ),
        m.channel_answer(pid, channel)->Ok_0 < m.next_file_id,
        other != channel ==> m.channel_answer(pid, other) != m.channel_answer(pid, channel),
{
    let fd = m.channel(pid, channel)->Some_0;
    assert(m.linked(pid));
    assert(m.holds(fd));
    assert(m.occurrences(fd) <= 1);
}

/// A process that was started has a descriptor for each of its streams that
/// is a pipe, and for no other, so that as many descriptors are handed out
/// as it has pipes. The descriptor of a piped output was never handed out
/// before, is valid, resolves to the output of that process, and is neither
/// its input nor its error descriptor; the same holds of the other two
/// streams.
///
/// A process can be recorded only while identifiers are left: with either
/// counter at its end the request is refused and nothing is handed out.
pub proof fn lemma_spawned_channels(m: AgentModel, pipes: PipedStreams, channel: ProcessChannel)
    requires
        m.wf(),
        m.spawn_answer(Some(pipes)) is Ok,
    ensures
        ({
            let after = m.after((Event::Spawn { spawned: Some(pipes) }));
            let pid = m.spawn_answer(Some(pipes))->Ok_0;
            let piped = match channel {
                ProcessChannel::Stdin => pipes.stdin,
                ProcessChannel::Stdout => pipes.stdout,
                ProcessChannel::Stderr => pipes.stderr,
            };
            &&& !m.processes.contains_key(pid)
            &&& after.next_process_id == pid + 1
            &&& after.next_file_id == m.next_file_id + pipes.count()
            &&& piped <==> after.channel_answer(pid, channel) is Ok
            &&& !piped ==> after.channel_answer(pid, channel) == Err::<FileId, AgentError>(
                AgentError::InvalidProcessId,
            )
            &&& piped ==> {
                let fd = after.channel_answer(pid, channel)->Ok_0;
                &&& m.next_file_id <= fd < after.next_file_id
                &&& !m.holds(fd)
                &&& after.kind_answer(fd) == Ok::<DescriptorKind, AgentError>(
                    AgentModel::pipe_kind(pid, channel),
                )
                &&& forall|other: ProcessChannel|
                    other != channel ==> after.channel_answer(pid, other) != Ok::<
                        FileId,
                        AgentError,
                    >(fd)
            }
        }),
{
    let after = m.spawned(pipes);
    let pid = m.next_process_id;
    lemma_spawned_wf(m, pipes);
    if after.channel(pid, channel) is Some {
        let fd = after.channel(pid, channel)->Some_0;
        assert forall|other: ProcessChannel| other != channel implies after.channel_answer(
            pid,
            other,
        ) != Ok::<FileId, AgentError>(fd) by {
            lemma_channels_valid_and_distinct(after, pid, channel, other);
        }
        lemma_channels_valid_and_distinct(after, pid, channel, channel);
        if m.holds(fd) {
        }
    }
}

/// A process is recorded exactly when the host started it and identifiers
/// are left for it and for each of its pipes; it is refused with `Unknown`
/// exactly when the host started it and they are not.
pub proof fn lemma_spawn_succeeds_while_identifiers_last(m: AgentModel, pipes: PipedStreams)
    ensures
        m.spawn_answer(Some(pipes)) is Ok <==> m.next_process_id < u64::MAX && m.next_file_id
            + pipes.count() <= u64::MAX,
        m.spawn_answer(Some(pipes)) is Err ==> m.spawn_answer(Some(pipes)) == Err::<
            ProcessId,
            AgentError,
        >(AgentError::Unknown) && m.after((Event::Spawn { spawned: Some(pipes) })) == m,
        m.spawn_answer(Some(pipes)) is Ok ==> m.spawn_answer(Some(pipes)) == Ok::<
            ProcessId,
            AgentError,
        >(m.next_process_id),
{
}

/// The pipes of a process stay what they are: no request takes a process or
/// one of its descriptors away.
pub proof fn lemma_channels_stay(
    m: AgentModel,
    pid: ProcessId,
    channel: ProcessChannel,
    events: Seq<Event>,
)
    requires
        m.wf(),
        m.channel_answer(pid, channel) is Ok,
    ensures
        m.after_all(events).channel_answer(pid, channel) == m.channel_answer(pid, channel),
        m.after_all(events).kind_answer(m.channel_answer(pid, channel)->Ok_0) == Ok::<
            DescriptorKind,
            AgentError,
        >(AgentModel::pipe_kind(pid, channel)),
    decreases events.len(),
{
    if events.len() > 0 {
        let earlier = m.after_all(events.drop_last());
        lemma_channels_stay(m, pid, channel, events.drop_last());
        lemma_after_all_keeps_wf(m, events.drop_last());
        lemma_after_all_keeps_wf(m, events);
        assert(earlier.processes.contains_key(pid));
        assert(earlier.after(events.last()).processes[pid] == earlier.processes[pid]);
        lemma_channels_valid_and_distinct(m.after_all(events), pid, channel, channel);
    } else {
        lemma_channels_valid_and_distinct(m, pid, channel, channel);
    }
}

} // verus!
