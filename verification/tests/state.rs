use bh_agent::{
    AgentError, BhAgentState, DescriptorKind, FileOpenMode, FileOpenType, PipedStreams,
    ProcessChannel,
};

fn pipes(stdin: bool, stdout: bool, stderr: bool) -> PipedStreams {
    PipedStreams { stdin, stdout, stderr }
}

#[test]
fn first_identifiers_are_zero() {
    let mut state = BhAgentState::new();
    assert_eq!(state.take_file_id(), Ok(0));
    assert_eq!(state.take_proc_id(), Ok(0));
    assert_eq!(state.take_file_id(), Ok(1));
    assert_eq!(state.take_proc_id(), Ok(1));
}

#[test]
fn opened_files_get_increasing_descriptors() {
    let mut state = BhAgentState::new();
    let mut last = None;
    for _ in 0..50 {
        let fd = state.open_path(true, FileOpenMode::Read, FileOpenType::Binary).unwrap();
        if let Some(previous) = last {
            assert!(previous < fd);
        }
        last = Some(fd);
    }
    assert_eq!(last, Some(49));
}

#[test]
fn descriptors_increase_across_files_and_pipes() {
    let mut state = BhAgentState::new();
    let a = state.open_path(true, FileOpenMode::Read, FileOpenType::Text).unwrap();
    let pid = state.run_command(Some(pipes(true, true, true))).unwrap();
    let b = state.open_path(true, FileOpenMode::Write, FileOpenType::Text).unwrap();
    assert_eq!(a, 0);
    assert_eq!(state.get_process_channel(&pid, ProcessChannel::Stdin), Ok(1));
    assert_eq!(state.get_process_channel(&pid, ProcessChannel::Stdout), Ok(2));
    assert_eq!(state.get_process_channel(&pid, ProcessChannel::Stderr), Ok(3));
    assert_eq!(b, 4);
}

#[test]
fn a_failed_open_is_an_io_error_and_takes_no_descriptor() {
    let mut state = BhAgentState::new();
    assert_eq!(
        state.open_path(false, FileOpenMode::Read, FileOpenType::Binary),
        Err(AgentError::IoError)
    );
    assert_eq!(state.open_path(true, FileOpenMode::Read, FileOpenType::Binary), Ok(0));
}

#[test]
fn open_records_mode_and_type() {
    let mut state = BhAgentState::new();
    let fd = state.open_path(true, FileOpenMode::Append, FileOpenType::Text).unwrap();
    assert_eq!(state.file_type(&fd), Ok(FileOpenType::Text));
    assert_eq!(state.file_has_any_mode(&fd, &vec![FileOpenMode::Append]), Ok(true));
    assert_eq!(
        state.file_has_any_mode(&fd, &vec![FileOpenMode::Read, FileOpenMode::Update]),
        Ok(false)
    );
    assert_eq!(state.file_has_any_mode(&fd, &vec![]), Ok(false));
    assert_eq!(state.resolve(&fd), Ok(DescriptorKind::PlainFile));
}

#[test]
fn unknown_descriptors_are_invalid() {
    let state = BhAgentState::new();
    assert_eq!(state.file_type(&7), Err(AgentError::InvalidFileDescriptor));
    assert_eq!(
        state.file_has_any_mode(&7, &vec![FileOpenMode::Read]),
        Err(AgentError::InvalidFileDescriptor)
    );
    assert_eq!(state.resolve(&7), Err(AgentError::InvalidFileDescriptor));
    assert_eq!(state.do_mut_operation(&7, |_| 1), Err(AgentError::InvalidFileDescriptor));
}

#[test]
fn a_closed_descriptor_is_invalid_for_good() {
    let mut state = BhAgentState::new();
    let fd = state.open_path(true, FileOpenMode::Update, FileOpenType::Binary).unwrap();
    assert_eq!(state.close_file(&fd), Ok(()));
    assert_eq!(state.resolve(&fd), Err(AgentError::InvalidFileDescriptor));
    assert_eq!(state.file_type(&fd), Err(AgentError::InvalidFileDescriptor));
    assert_eq!(
        state.file_has_any_mode(&fd, &vec![FileOpenMode::Update]),
        Err(AgentError::InvalidFileDescriptor)
    );
    assert_eq!(state.close_file(&fd), Err(AgentError::InvalidFileDescriptor));
    // later files and processes never get the descriptor again
    let next = state.open_path(true, FileOpenMode::Read, FileOpenType::Binary).unwrap();
    let pid = state.run_command(Some(pipes(true, false, false))).unwrap();
    assert!(next > fd);
    assert!(state.get_process_channel(&pid, ProcessChannel::Stdin).unwrap() > fd);
    assert_eq!(state.resolve(&fd), Err(AgentError::InvalidFileDescriptor));
}

#[test]
fn closing_leaves_other_files_open() {
    let mut state = BhAgentState::new();
    let a = state.open_path(true, FileOpenMode::Read, FileOpenType::Binary).unwrap();
    let b = state.open_path(true, FileOpenMode::Write, FileOpenType::Text).unwrap();
    assert_eq!(state.close_file(&a), Ok(()));
    assert_eq!(state.file_type(&b), Ok(FileOpenType::Text));
    assert_eq!(state.resolve(&b), Ok(DescriptorKind::PlainFile));
}

#[test]
fn is_file_closed_answers_whether_the_file_is_in_the_table() {
    let mut state = BhAgentState::new();
    let fd = state.open_path(true, FileOpenMode::Read, FileOpenType::Binary).unwrap();
    // the answer reads as inverted: an open file gives true
    assert_eq!(state.is_file_closed(&fd), Ok(true));
    state.close_file(&fd).unwrap();
    assert_eq!(state.is_file_closed(&fd), Ok(false));
    assert_eq!(state.is_file_closed(&99), Ok(false));
}

#[test]
fn a_failed_start_is_reported_and_takes_no_identifier() {
    let mut state = BhAgentState::new();
    assert_eq!(state.run_command(None), Err(AgentError::ProcessStartFailure));
    assert_eq!(state.run_command(Some(pipes(false, false, false))), Ok(0));
    assert_eq!(state.open_path(true, FileOpenMode::Read, FileOpenType::Binary), Ok(0));
}

#[test]
fn processes_get_increasing_identifiers() {
    let mut state = BhAgentState::new();
    assert_eq!(state.run_command(Some(pipes(false, true, false))), Ok(0));
    assert_eq!(state.run_command(Some(pipes(false, false, false))), Ok(1));
    assert_eq!(state.run_command(Some(pipes(true, true, true))), Ok(2));
}

#[test]
fn a_saved_output_has_a_descriptor_of_its_own() {
    let mut state = BhAgentState::new();
    let pid = state.run_command(Some(pipes(true, true, true))).unwrap();
    let stdin = state.get_process_channel(&pid, ProcessChannel::Stdin).unwrap();
    let stdout = state.get_process_channel(&pid, ProcessChannel::Stdout).unwrap();
    let stderr = state.get_process_channel(&pid, ProcessChannel::Stderr).unwrap();
    assert_ne!(stdout, stdin);
    assert_ne!(stdout, stderr);
    assert_ne!(stdin, stderr);
    assert_eq!(state.resolve(&stdin), Ok(DescriptorKind::ProcessStdin(pid)));
    assert_eq!(state.resolve(&stdout), Ok(DescriptorKind::ProcessStdout(pid)));
    assert_eq!(state.resolve(&stderr), Ok(DescriptorKind::ProcessStderr(pid)));
}

#[test]
fn only_piped_streams_have_descriptors() {
    let mut state = BhAgentState::new();
    let pid = state.run_command(Some(pipes(false, true, false))).unwrap();
    assert_eq!(
        state.get_process_channel(&pid, ProcessChannel::Stdin),
        Err(AgentError::InvalidProcessId)
    );
    assert_eq!(state.get_process_channel(&pid, ProcessChannel::Stdout), Ok(0));
    assert_eq!(
        state.get_process_channel(&pid, ProcessChannel::Stderr),
        Err(AgentError::InvalidProcessId)
    );
    // the one pipe took the one descriptor
    assert_eq!(state.open_path(true, FileOpenMode::Read, FileOpenType::Binary), Ok(1));
}

#[test]
fn unknown_processes_have_no_channels() {
    let mut state = BhAgentState::new();
    assert_eq!(
        state.get_process_channel(&0, ProcessChannel::Stdout),
        Err(AgentError::InvalidProcessId)
    );
    state.run_command(Some(pipes(true, true, true))).unwrap();
    assert_eq!(
        state.get_process_channel(&1, ProcessChannel::Stdout),
        Err(AgentError::InvalidProcessId)
    );
}

#[test]
fn pipes_of_two_processes_do_not_mix() {
    let mut state = BhAgentState::new();
    let first = state.run_command(Some(pipes(false, true, true))).unwrap();
    let second = state.run_command(Some(pipes(true, true, false))).unwrap();
    assert_eq!(state.get_process_channel(&first, ProcessChannel::Stdout), Ok(0));
    assert_eq!(state.get_process_channel(&first, ProcessChannel::Stderr), Ok(1));
    assert_eq!(state.get_process_channel(&second, ProcessChannel::Stdin), Ok(2));
    assert_eq!(state.get_process_channel(&second, ProcessChannel::Stdout), Ok(3));
    assert_eq!(state.resolve(&3), Ok(DescriptorKind::ProcessStdout(second)));
    assert_eq!(state.resolve(&1), Ok(DescriptorKind::ProcessStderr(first)));
}

#[test]
fn pipes_cannot_be_closed_and_have_no_mode() {
    let mut state = BhAgentState::new();
    let pid = state.run_command(Some(pipes(false, true, false))).unwrap();
    let fd = state.get_process_channel(&pid, ProcessChannel::Stdout).unwrap();
    assert_eq!(state.close_file(&fd), Err(AgentError::InvalidFileDescriptor));
    assert_eq!(state.resolve(&fd), Ok(DescriptorKind::ProcessStdout(pid)));
    assert_eq!(state.file_type(&fd), Err(AgentError::InvalidFileDescriptor));
    assert_eq!(
        state.file_has_any_mode(&fd, &vec![FileOpenMode::Read]),
        Err(AgentError::InvalidFileDescriptor)
    );
    assert_eq!(state.is_file_closed(&fd), Ok(false));
}

#[test]
fn do_mut_operation_hands_the_stream_to_the_operation() {
    let mut state = BhAgentState::new();
    let fd = state.open_path(true, FileOpenMode::Update, FileOpenType::Binary).unwrap();
    let pid = state.run_command(Some(pipes(true, false, false))).unwrap();
    let pipe = state.get_process_channel(&pid, ProcessChannel::Stdin).unwrap();
    assert_eq!(state.do_mut_operation(&fd, |kind| kind), Ok(DescriptorKind::PlainFile));
    assert_eq!(state.do_mut_operation(&pipe, |kind| kind), Ok(DescriptorKind::ProcessStdin(pid)));
    assert_eq!(
        state.do_mut_operation(&fd, |kind| kind == DescriptorKind::PlainFile),
        Ok(true)
    );
}

#[test]
fn do_mut_operation_does_not_run_on_an_invalid_descriptor() {
    let state = BhAgentState::new();
    let mut ran = false;
    let result = state.do_mut_operation(&3, |_| {
        ran = true;
    });
    assert_eq!(result, Err(AgentError::InvalidFileDescriptor));
    assert!(!ran);
}

#[test]
fn a_store_can_start_at_any_identifiers() {
    let mut state = BhAgentState::starting_at(10, 20);
    assert_eq!(state.open_path(true, FileOpenMode::Read, FileOpenType::Binary), Ok(10));
    assert_eq!(state.run_command(Some(pipes(true, false, false))), Ok(20));
    assert_eq!(state.get_process_channel(&20, ProcessChannel::Stdin), Ok(11));
    assert_eq!(state.resolve(&9), Err(AgentError::InvalidFileDescriptor));
}

#[test]
fn the_last_descriptor_is_never_handed_out() {
    let mut state = BhAgentState::starting_at(u64::MAX - 1, 0);
    assert_eq!(state.open_path(true, FileOpenMode::Read, FileOpenType::Binary), Ok(u64::MAX - 1));
    assert_eq!(
        state.open_path(true, FileOpenMode::Read, FileOpenType::Binary),
        Err(AgentError::Unknown)
    );
    assert_eq!(state.take_file_id(), Err(AgentError::Unknown));
    // the file that was opened is still there, and nothing else is
    assert_eq!(state.resolve(&(u64::MAX - 1)), Ok(DescriptorKind::PlainFile));
    assert_eq!(state.resolve(&u64::MAX), Err(AgentError::InvalidFileDescriptor));
    // a failed open is still an I/O error
    assert_eq!(
        state.open_path(false, FileOpenMode::Read, FileOpenType::Binary),
        Err(AgentError::IoError)
    );
}

#[test]
fn a_process_needs_a_descriptor_for_each_pipe() {
    let mut state = BhAgentState::starting_at(u64::MAX - 2, 5);
    // three pipes would need the last descriptor
    assert_eq!(state.run_command(Some(pipes(true, true, true))), Err(AgentError::Unknown));
    assert_eq!(
        state.get_process_channel(&5, ProcessChannel::Stdin),
        Err(AgentError::InvalidProcessId)
    );
    // nothing was taken: two pipes still fit, under the same process identifier
    assert_eq!(state.run_command(Some(pipes(true, false, true))), Ok(5));
    assert_eq!(state.get_process_channel(&5, ProcessChannel::Stdin), Ok(u64::MAX - 2));
    assert_eq!(state.get_process_channel(&5, ProcessChannel::Stderr), Ok(u64::MAX - 1));
    // a process without pipes needs no descriptor
    assert_eq!(state.run_command(Some(pipes(false, false, false))), Ok(6));
    assert_eq!(state.run_command(Some(pipes(false, true, false))), Err(AgentError::Unknown));
}

#[test]
fn the_last_process_identifier_is_never_handed_out() {
    let mut state = BhAgentState::starting_at(0, u64::MAX - 1);
    assert_eq!(state.run_command(Some(pipes(false, true, false))), Ok(u64::MAX - 1));
    assert_eq!(state.run_command(Some(pipes(false, true, false))), Err(AgentError::Unknown));
    assert_eq!(state.take_proc_id(), Err(AgentError::Unknown));
    // the refused process took no descriptor
    assert_eq!(state.open_path(true, FileOpenMode::Read, FileOpenType::Binary), Ok(1));
    // a failed start is still reported as such
    assert_eq!(state.run_command(None), Err(AgentError::ProcessStartFailure));
}
