use bh_agent::{
    check_env_id, launch_plan, parse_open_mode, seek_origin, AgentError, BhAgentServer,
    BhAgentService, ByteSource, DescriptorKind, FileOpenMode, FileOpenType, LaunchPlan, OpenFlags,
    LoggedSource, PipedStreams, ProcessChannel, ReadRequest, Redirection, RemotePOpenConfig,
    SeekOrigin, SeekRequest, StreamSetup,
};
use bh_agent::{read_generic, read_lines, stream_outcome};
use std::io;
use std::io::{Cursor, Read, Seek, SeekFrom, Write};

/// A file of the host that lives in memory.
struct MemoryFile {
    cursor: Cursor<Vec<u8>>,
}

impl ByteSource for &mut MemoryFile {
    fn read_up_to(&mut self, max: usize) -> Result<Vec<u8>, io::Error> {
        let mut buffer = vec![0u8; max];
        let count = self.cursor.read(&mut buffer)?;
        buffer.truncate(count);
        Ok(buffer)
    }

    fn read_to_end(&mut self) -> Result<Vec<u8>, io::Error> {
        let mut buffer = Vec::new();
        self.cursor.read_to_end(&mut buffer)?;
        Ok(buffer)
    }
}

fn perform_read(file: &mut MemoryFile, count: u32, file_type: FileOpenType) -> Vec<u8> {
    read_generic(&mut LoggedSource::new(file), count, file_type).unwrap()
}

fn seek(file: &mut MemoryFile, request: SeekRequest) {
    assert_eq!(request.stream, DescriptorKind::PlainFile);
    let from = match request.origin {
        SeekOrigin::Start(position) => SeekFrom::Start(position),
        SeekOrigin::Current(distance) => SeekFrom::Current(distance),
        SeekOrigin::End(distance) => SeekFrom::End(distance),
    };
    file.cursor.seek(from).unwrap();
}

fn open_update(server: &mut BhAgentServer, type_: FileOpenType) -> (u64, MemoryFile) {
    let flags = server.plan_open(0, FileOpenMode::Update).unwrap();
    assert!(flags.read && flags.write && !flags.truncate);
    let fd = server.file_open(0, true, FileOpenMode::Update, type_).unwrap();
    (fd, MemoryFile { cursor: Cursor::new(Vec::new()) })
}

fn config(argv: &[&str]) -> RemotePOpenConfig {
    RemotePOpenConfig {
        argv: argv.iter().map(|s| s.to_string()).collect(),
        ..RemotePOpenConfig::default()
    }
}

#[test]
fn written_bytes_are_read_back_after_a_seek_to_the_start() {
    let mut server = BhAgentServer::new();
    let (fd, mut file) = open_update(&mut server, FileOpenType::Binary);
    let write = server.file_write(0, fd, b"hello agent".to_vec()).unwrap();
    assert_eq!(write.stream, DescriptorKind::PlainFile);
    file.cursor.write_all(&write.data).unwrap();
    seek(&mut file, server.file_seek(0, fd, 0, 0).unwrap());
    let read = server.file_read(0, fd, 11).unwrap();
    assert_eq!(
        perform_read(&mut file, read.count, read.file_type),
        b"hello agent".to_vec()
    );
}

#[test]
fn a_read_at_the_end_returns_no_bytes() {
    let mut server = BhAgentServer::new();
    let (fd, mut file) = open_update(&mut server, FileOpenType::Binary);
    let write = server.file_write(0, fd, b"some bytes".to_vec()).unwrap();
    file.cursor.write_all(&write.data).unwrap();
    seek(&mut file, server.file_seek(0, fd, 0, 0).unwrap());
    seek(&mut file, server.file_seek(0, fd, 0, 2).unwrap());
    let read = server.file_read(0, fd, 16).unwrap();
    assert_eq!(perform_read(&mut file, read.count, read.file_type), Vec::<u8>::new());
}

#[test]
fn a_text_file_is_read_by_characters() {
    let mut server = BhAgentServer::new();
    let (fd, mut file) = open_update(&mut server, FileOpenType::Text);
    let write = server.file_write(0, fd, "a😀b".as_bytes().to_vec()).unwrap();
    file.cursor.write_all(&write.data).unwrap();
    seek(&mut file, server.file_seek(0, fd, 0, 0).unwrap());
    let read = server.file_read(0, fd, 2).unwrap();
    assert_eq!(read, ReadRequest { count: 2, file_type: FileOpenType::Text });
    assert_eq!(perform_read(&mut file, read.count, read.file_type), "a😀".as_bytes());
}

#[test]
fn lines_are_read_from_the_resolved_stream() {
    let mut server = BhAgentServer::new();
    let (fd, mut file) = open_update(&mut server, FileOpenType::Text);
    file.cursor.write_all(b"line1\nline2\r\nline3\rline4\n").unwrap();
    seek(&mut file, server.file_seek(0, fd, 0, 0).unwrap());
    assert_eq!(server.file_read_lines(0, fd, 0), Ok(DescriptorKind::PlainFile));
    assert_eq!(server.file_read_lines(0, fd, 1000), Ok(DescriptorKind::PlainFile));
    assert_eq!(
        read_lines(&mut LoggedSource::new(&mut file)).unwrap(),
        vec![b"line1".to_vec(), b"line2".to_vec(), b"line3".to_vec(), b"line4".to_vec()]
    );
}

#[test]
fn a_seek_from_the_current_position_moves_by_the_offset() {
    let mut server = BhAgentServer::new();
    let (fd, mut file) = open_update(&mut server, FileOpenType::Binary);
    file.cursor.write_all(b"0123456789").unwrap();
    seek(&mut file, server.file_seek(0, fd, -4, 1).unwrap());
    let read = server.file_read(0, fd, 2).unwrap();
    assert_eq!(perform_read(&mut file, read.count, read.file_type), b"67".to_vec());
    seek(&mut file, server.file_seek(0, fd, -3, 2).unwrap());
    assert_eq!(perform_read(&mut file, 8, FileOpenType::Binary), b"789".to_vec());
}

#[test]
fn every_operation_refuses_another_environment() {
    let mut server = BhAgentServer::new();
    let fd = server.file_open(0, true, FileOpenMode::Update, FileOpenType::Binary).unwrap();
    let pid = server
        .run_command(0, Some(PipedStreams { stdin: true, stdout: true, stderr: true }))
        .unwrap();
    let wrong = AgentError::InvalidEnvironmentId;
    for env in [1u64, 2, u64::MAX] {
        assert_eq!(server.get_tempdir(env), Err(wrong));
        assert_eq!(server.plan_command(env, config(&["true"])).unwrap_err(), wrong);
        let no_pipes = PipedStreams { stdin: false, stdout: false, stderr: false };
        assert_eq!(server.run_command(env, Some(no_pipes)), Err(wrong));
        assert_eq!(server.run_command(env, None), Err(wrong));
        assert_eq!(server.get_process_channel(env, pid, ProcessChannel::Stdout), Err(wrong));
        assert_eq!(server.plan_open(env, FileOpenMode::Read), Err(wrong));
        assert_eq!(server.file_open(env, true, FileOpenMode::Read, FileOpenType::Text), Err(wrong));
        assert_eq!(
            server.file_open(env, false, FileOpenMode::Read, FileOpenType::Text),
            Err(wrong)
        );
        assert_eq!(server.file_close(env, fd), Err(wrong));
        assert_eq!(server.file_is_closed(env, fd), Err(wrong));
        assert_eq!(server.file_is_readable(env, fd), Err(wrong));
        assert_eq!(server.file_read(env, fd, 1), Err(wrong));
        assert_eq!(server.file_read_lines(env, fd, 0), Err(wrong));
        assert_eq!(server.file_is_seekable(env, fd), Err(wrong));
        assert_eq!(server.file_seek(env, fd, 0, 0), Err(wrong));
        assert_eq!(server.file_seek(env, fd, 0, 9), Err(wrong));
        assert_eq!(server.file_tell(env, fd), Err(wrong));
        assert_eq!(server.file_is_writable(env, fd), Err(wrong));
        assert_eq!(server.file_write(env, fd, vec![1]).unwrap_err(), wrong);
    }
    // nothing was changed: the file is still open and the next identifiers are the same
    assert_eq!(server.file_is_closed(0, fd), Ok(true));
    assert_eq!(server.file_open(0, true, FileOpenMode::Read, FileOpenType::Text), Ok(4));
    let no_pipes = PipedStreams { stdin: false, stdout: false, stderr: false };
    assert_eq!(server.run_command(0, Some(no_pipes)), Ok(1));
}

#[test]
fn an_unknown_whence_is_refused_before_the_descriptor_is_looked_at() {
    let mut server = BhAgentServer::new();
    let fd = server.file_open(0, true, FileOpenMode::Update, FileOpenType::Binary).unwrap();
    for whence in [3, -1, 100, i32::MIN, i32::MAX] {
        assert_eq!(server.file_seek(0, fd, 0, whence), Err(AgentError::InvalidSeekWhence));
        assert_eq!(server.file_seek(0, 77, 0, whence), Err(AgentError::InvalidSeekWhence));
    }
    assert_eq!(server.file_seek(0, 77, 0, 0), Err(AgentError::InvalidFileDescriptor));
}

#[test]
fn seek_origins_follow_whence() {
    assert_eq!(seek_origin(5, 0), Some(SeekOrigin::Start(5)));
    assert_eq!(seek_origin(5, 1), Some(SeekOrigin::Current(5)));
    assert_eq!(seek_origin(-5, 1), Some(SeekOrigin::Current(-5)));
    assert_eq!(seek_origin(-5, 2), Some(SeekOrigin::End(-5)));
    assert_eq!(seek_origin(0, 3), None);
    assert_eq!(seek_origin(i32::MAX, 0), Some(SeekOrigin::Start(2147483647)));
}

#[test]
fn a_negative_offset_from_the_start_keeps_its_bits() {
    assert_eq!(seek_origin(-1, 0), Some(SeekOrigin::Start(u64::MAX)));
    assert_eq!(seek_origin(-2, 0), Some(SeekOrigin::Start(18446744073709551614)));
    assert_eq!(seek_origin(i32::MIN, 0), Some(SeekOrigin::Start(18446744071562067968)));
    assert_eq!(seek_origin(i32::MIN, 0), Some(SeekOrigin::Start(i32::MIN as u64)));
}

#[test]
fn a_seek_names_the_stream_and_the_origin() {
    let mut server = BhAgentServer::new();
    let fd = server.file_open(0, true, FileOpenMode::Read, FileOpenType::Binary).unwrap();
    let pid = server
        .run_command(0, Some(PipedStreams { stdin: true, stdout: false, stderr: false }))
        .unwrap();
    let pipe = server.get_process_channel(0, pid, ProcessChannel::Stdin).unwrap();
    assert_eq!(
        server.file_seek(0, fd, 7, 0),
        Ok(SeekRequest { stream: DescriptorKind::PlainFile, origin: SeekOrigin::Start(7) })
    );
    assert_eq!(
        server.file_seek(0, pipe, -2, 2),
        Ok(SeekRequest { stream: DescriptorKind::ProcessStdin(pid), origin: SeekOrigin::End(-2) })
    );
}

#[test]
fn operations_on_a_closed_file_are_refused() {
    let mut server = BhAgentServer::new();
    let fd = server.file_open(0, true, FileOpenMode::Update, FileOpenType::Binary).unwrap();
    assert_eq!(server.file_close(0, fd), Ok(()));
    let invalid = AgentError::InvalidFileDescriptor;
    assert_eq!(server.file_read(0, fd, 4), Err(invalid));
    assert_eq!(server.file_read_lines(0, fd, 0), Err(invalid));
    assert_eq!(server.file_seek(0, fd, 0, 0), Err(invalid));
    assert_eq!(server.file_tell(0, fd), Err(invalid));
    assert_eq!(server.file_write(0, fd, vec![1, 2]).unwrap_err(), invalid);
    assert_eq!(server.file_is_readable(0, fd), Err(invalid));
    assert_eq!(server.file_is_writable(0, fd), Err(invalid));
    assert_eq!(server.file_is_seekable(0, fd), Err(invalid));
    assert_eq!(server.file_close(0, fd), Err(invalid));
}

#[test]
fn readable_and_writable_follow_the_mode() {
    let mut server = BhAgentServer::new();
    let cases = [
        (FileOpenMode::Read, true, false),
        (FileOpenMode::Write, false, true),
        (FileOpenMode::ExclusiveWrite, false, true),
        (FileOpenMode::Append, false, true),
        (FileOpenMode::Update, true, true),
    ];
    for (mode, readable, writable) in cases {
        let fd = server.file_open(0, true, mode, FileOpenType::Binary).unwrap();
        assert_eq!(server.file_is_readable(0, fd), Ok(readable));
        assert_eq!(server.file_is_writable(0, fd), Ok(writable));
        assert_eq!(server.file_is_seekable(0, fd), Ok(true));
    }
}

#[test]
fn pipes_are_streams_without_mode_or_type() {
    let mut server = BhAgentServer::new();
    let pid = server
        .run_command(0, Some(PipedStreams { stdin: true, stdout: true, stderr: false }))
        .unwrap();
    let out = server.get_process_channel(0, pid, ProcessChannel::Stdout).unwrap();
    let input = server.get_process_channel(0, pid, ProcessChannel::Stdin).unwrap();
    assert_eq!(server.file_is_readable(0, out), Err(AgentError::InvalidFileDescriptor));
    assert_eq!(server.file_is_writable(0, input), Err(AgentError::InvalidFileDescriptor));
    assert_eq!(server.file_read(0, out, 4), Err(AgentError::IoError));
    assert_eq!(server.file_read_lines(0, out, 0), Ok(DescriptorKind::ProcessStdout(pid)));
    assert_eq!(server.file_tell(0, out), Ok(DescriptorKind::ProcessStdout(pid)));
    assert_eq!(server.file_is_seekable(0, out), Ok(false));
    let write = server.file_write(0, input, b"in".to_vec()).unwrap();
    assert_eq!(write.stream, DescriptorKind::ProcessStdin(pid));
    assert_eq!(write.data, b"in".to_vec());
    assert_eq!(server.file_close(0, out), Err(AgentError::InvalidFileDescriptor));
    assert_eq!(server.file_is_closed(0, out), Ok(false));
}

#[test]
fn the_default_environment_is_the_only_one() {
    let server = BhAgentServer::new();
    assert_eq!(server.get_environments(), vec![0]);
    assert_eq!(server.get_tempdir(0), Ok("/tmp".to_string()));
    assert_eq!(check_env_id(0), Ok(()));
    assert_eq!(check_env_id(1), Err(AgentError::InvalidEnvironmentId));
}

#[test]
fn a_saved_output_gets_a_valid_descriptor_of_its_own() {
    let mut server = BhAgentServer::new();
    let mut request = config(&["cat"]);
    request.stdin = Redirection::Save;
    request.stdout = Redirection::Save;
    request.stderr = Redirection::Save;
    let plan = server.plan_command(0, request).unwrap();
    assert_eq!(plan.stdout, StreamSetup::Pipe);
    let piped = PipedStreams {
        stdin: plan.stdin == StreamSetup::Pipe,
        stdout: plan.stdout == StreamSetup::Pipe,
        stderr: plan.stderr == StreamSetup::Pipe,
    };
    let pid = server.run_command(0, Some(piped)).unwrap();
    let stdout = server.get_process_channel(0, pid, ProcessChannel::Stdout).unwrap();
    assert_eq!(server.file_tell(0, stdout), Ok(DescriptorKind::ProcessStdout(pid)));
    assert_ne!(Ok(stdout), server.get_process_channel(0, pid, ProcessChannel::Stdin));
    assert_ne!(Ok(stdout), server.get_process_channel(0, pid, ProcessChannel::Stderr));
}

#[test]
fn a_failed_start_is_a_process_start_failure() {
    let mut server = BhAgentServer::new();
    assert_eq!(server.run_command(0, None), Err(AgentError::ProcessStartFailure));
    assert_eq!(
        server.get_process_channel(0, 0, ProcessChannel::Stdout),
        Err(AgentError::InvalidProcessId)
    );
}

#[test]
fn a_failed_open_is_an_io_error() {
    let mut server = BhAgentServer::new();
    assert_eq!(
        server.file_open(0, false, FileOpenMode::ExclusiveWrite, FileOpenType::Binary),
        Err(AgentError::IoError)
    );
    assert_eq!(server.file_is_closed(0, 0), Ok(false));
}

#[test]
fn open_flags_follow_the_mode() {
    let none = OpenFlags {
        read: false,
        write: false,
        append: false,
        truncate: false,
        create: false,
        create_new: false,
    };
    assert_eq!(FileOpenMode::Read.open_flags(), OpenFlags { read: true, ..none });
    assert_eq!(
        FileOpenMode::Write.open_flags(),
        OpenFlags { write: true, create: true, truncate: true, ..none }
    );
    assert_eq!(
        FileOpenMode::ExclusiveWrite.open_flags(),
        OpenFlags { write: true, create_new: true, ..none }
    );
    assert_eq!(FileOpenMode::Append.open_flags(), OpenFlags { append: true, ..none });
    assert_eq!(FileOpenMode::Update.open_flags(), OpenFlags { read: true, write: true, ..none });
    let server = BhAgentServer::new();
    assert_eq!(server.plan_open(0, FileOpenMode::Append), Ok(OpenFlags { append: true, ..none }));
}

#[test]
fn a_launch_plan_takes_the_request_over() {
    let request = RemotePOpenConfig {
        argv: vec!["prog".to_string(), "--flag".to_string()],
        stdin: Redirection::Inherit,
        stdout: Redirection::Save,
        stderr: Redirection::Save,
        executable: Some("/bin/prog".to_string()),
        env: Some(vec![("KEY".to_string(), "value".to_string())]),
        cwd: Some("/work".to_string()),
        setuid: Some(1000),
        setgid: Some(100),
        setpgid: true,
    };
    let plan: LaunchPlan = launch_plan(request).unwrap();
    assert_eq!(plan.argv, vec!["prog".to_string(), "--flag".to_string()]);
    assert_eq!(plan.stdin, StreamSetup::Inherit);
    assert_eq!(plan.stdout, StreamSetup::Pipe);
    assert_eq!(plan.stderr, StreamSetup::Pipe);
    assert!(!plan.detached);
    assert_eq!(plan.executable, Some("/bin/prog".to_string()));
    assert_eq!(plan.env, Some(vec![("KEY".to_string(), "value".to_string())]));
    assert_eq!(plan.cwd, Some("/work".to_string()));
    assert_eq!(plan.setuid, Some(1000));
    assert_eq!(plan.setgid, Some(100));
    assert!(plan.setpgid);
}

#[test]
fn a_request_without_arguments_cannot_start() {
    assert_eq!(launch_plan(config(&[])).unwrap_err(), AgentError::ProcessStartFailure);
    let server = BhAgentServer::new();
    assert_eq!(server.plan_command(0, config(&[])).unwrap_err(), AgentError::ProcessStartFailure);
}

#[test]
fn the_default_request_saves_nothing() {
    let request = RemotePOpenConfig::default();
    assert!(request.argv.is_empty());
    assert_eq!(request.stdin, Redirection::Inherit);
    assert_eq!(request.stdout, Redirection::Inherit);
    assert_eq!(request.stderr, Redirection::Inherit);
    assert_eq!(request.executable, None);
    assert_eq!(request.env, None);
    assert_eq!(request.cwd, None);
    assert_eq!(request.setuid, None);
    assert_eq!(request.setgid, None);
    assert!(!request.setpgid);
    assert_eq!(Redirection::default(), Redirection::Inherit);
}

#[test]
fn redirections_follow_the_flag() {
    assert_eq!(Redirection::from_flag(true), Redirection::Save);
    assert_eq!(Redirection::from_flag(false), Redirection::Inherit);
    assert_eq!(Redirection::Save.stream_setup(), StreamSetup::Pipe);
    assert_eq!(Redirection::Inherit.stream_setup(), StreamSetup::Inherit);
}

#[test]
fn channels_follow_their_number() {
    assert_eq!(ProcessChannel::from_index(0), Some(ProcessChannel::Stdin));
    assert_eq!(ProcessChannel::from_index(1), Some(ProcessChannel::Stdout));
    assert_eq!(ProcessChannel::from_index(2), Some(ProcessChannel::Stderr));
    assert_eq!(ProcessChannel::from_index(3), None);
    assert_eq!(ProcessChannel::from_index(-1), None);
}

#[test]
fn mode_strings_select_mode_and_type() {
    assert_eq!(parse_open_mode("r"), (FileOpenMode::Read, FileOpenType::Text));
    assert_eq!(parse_open_mode("rb"), (FileOpenMode::Read, FileOpenType::Binary));
    assert_eq!(parse_open_mode("w"), (FileOpenMode::Write, FileOpenType::Text));
    assert_eq!(parse_open_mode("xb"), (FileOpenMode::ExclusiveWrite, FileOpenType::Binary));
    assert_eq!(parse_open_mode("a"), (FileOpenMode::Append, FileOpenType::Text));
    assert_eq!(parse_open_mode("r+"), (FileOpenMode::Update, FileOpenType::Text));
    assert_eq!(parse_open_mode("br+"), (FileOpenMode::Update, FileOpenType::Binary));
}

#[test]
fn the_last_mode_character_wins() {
    assert_eq!(parse_open_mode("+r"), (FileOpenMode::Read, FileOpenType::Text));
    assert_eq!(parse_open_mode("rwxa"), (FileOpenMode::Append, FileOpenType::Text));
    assert_eq!(parse_open_mode("awb"), (FileOpenMode::Write, FileOpenType::Binary));
}

#[test]
fn a_mode_string_without_a_mode_reads_text() {
    assert_eq!(parse_open_mode(""), (FileOpenMode::Read, FileOpenType::Text));
    assert_eq!(parse_open_mode("tü?"), (FileOpenMode::Read, FileOpenType::Text));
    assert_eq!(parse_open_mode("b"), (FileOpenMode::Read, FileOpenType::Binary));
}

#[test]
fn an_operation_that_the_host_could_not_carry_out_is_an_io_error() {
    assert_eq!(stream_outcome(true), Ok(()));
    assert_eq!(stream_outcome(false), Err(AgentError::IoError));
    let mut file = MemoryFile { cursor: Cursor::new(b"abc".to_vec()) };
    // a seek before the start of the file fails on the host
    let moved = file.cursor.seek(SeekFrom::Current(-5));
    assert_eq!(stream_outcome(moved.is_ok()), Err(AgentError::IoError));
    let moved = file.cursor.seek(SeekFrom::Start(1));
    assert_eq!(stream_outcome(moved.is_ok()), Ok(()));
}
