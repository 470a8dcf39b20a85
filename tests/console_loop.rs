use rspi_client::console::{
    classify, interrupt_sentinel, on_interrupt, CloseReason, Command, InterruptAction, Phase,
    ReadAction, ReadOutcome, Session,
};

#[test]
fn close_command_after_trim() {
    assert!(matches!(classify("close conn"), Command::Close));
    assert!(matches!(classify("  close conn\n"), Command::Close));
    assert!(matches!(classify("close  conn"), Command::Forward { .. }));
}

#[test]
fn get_file_command() {
    match classify("rspi getfile report.txt\n") {
        Command::GetFile { request, dest } => {
            assert_eq!(request, "rspi getfile report.txt");
            assert_eq!(dest, "report.txt");
        }
        _ => panic!("not a get-file command"),
    }
}

#[test]
fn get_file_strips_directories() {
    let dest_of = |line: &str| match classify(line) {
        Command::GetFile { dest, .. } => dest,
        _ => panic!("not a get-file command"),
    };
    assert_eq!(dest_of("rspi getfile ../../etc/passwd"), "passwd");
    assert_eq!(dest_of("rspi getfile /tmp/x/report.txt"), "report.txt");
    assert_eq!(dest_of("rspi getfile dir/name/"), "name");
    assert_eq!(dest_of("rspi getfile a/."), "a");
    assert_eq!(dest_of("rspi getfile a/.."), "new_file");
    assert_eq!(dest_of("rspi getfile /"), "new_file");
    assert_eq!(dest_of("rspi getfile"), "new_file");
}

#[test]
fn send_file_command() {
    match classify("rspi sendfile report.txt") {
        Command::SendFile { request, name } => {
            assert_eq!(request, "rspi sendfile report.txt");
            assert_eq!(name, "report.txt");
        }
        _ => panic!("not a send-file command"),
    }
}

#[test]
fn other_text_forwarded_trimmed() {
    match classify("\t ls -la  \r\n") {
        Command::Forward { text } => assert_eq!(text, "ls -la"),
        _ => panic!("not forwarded"),
    }
    match classify("\u{3000}héllo wörld\u{a0}") {
        Command::Forward { text } => assert_eq!(text, "héllo wörld"),
        _ => panic!("not forwarded"),
    }
    match classify("rspi get file x") {
        Command::Forward { text } => assert_eq!(text, "rspi get file x"),
        _ => panic!("not forwarded"),
    }
}

#[test]
fn zero_byte_read_is_graceful_close() {
    let mut s = Session::new();
    assert_eq!(s.on_read(ReadOutcome::Bytes(0)), ReadAction::Stop(CloseReason::PeerClosed));
    assert_eq!(s.phase, Phase::Closed(CloseReason::PeerClosed));
}

#[test]
fn timeout_continues() {
    let mut s = Session::new();
    assert_eq!(s.on_read(ReadOutcome::TimedOut), ReadAction::Continue);
    assert_eq!(s.phase, Phase::Idle);
    assert_eq!(s.on_read(ReadOutcome::Bytes(12)), ReadAction::Print(12));
    assert_eq!(s.phase, Phase::Idle);
}

#[test]
fn read_failure_stops() {
    let mut s = Session::new();
    assert_eq!(s.on_read(ReadOutcome::Failed), ReadAction::Stop(CloseReason::TransportFailure));
    assert_eq!(s.phase, Phase::Closed(CloseReason::TransportFailure));
}

#[test]
fn guard_set_only_during_transfer() {
    let mut s = Session::new();
    assert!(!s.guard());
    s.begin_transfer();
    assert!(s.guard());
    assert_eq!(s.phase, Phase::Transferring);
    s.end_transfer();
    assert!(!s.guard());
    assert_eq!(s.phase, Phase::Idle);
}

#[test]
fn close_line_closes_session() {
    let mut s = Session::new();
    assert!(matches!(s.on_line("hello"), Command::Forward { .. }));
    assert_eq!(s.phase, Phase::Idle);
    assert!(matches!(s.on_line("close conn"), Command::Close));
    assert_eq!(s.phase, Phase::Closed(CloseReason::LocalClose));
}

#[test]
fn interrupt_decisions() {
    assert_eq!(on_interrupt(Some(true)), InterruptAction::Abort);
    assert_eq!(on_interrupt(Some(false)), InterruptAction::SendSentinel);
    assert_eq!(on_interrupt(None), InterruptAction::SendSentinel);
    assert_eq!(interrupt_sentinel(), b"SIGINT".to_vec());
}
