use sayo::session::{Event, Phase, Reply, Session, SessionError};

fn drive(s: &mut Session) -> Event {
    loop {
        match s.advance() {
            Reply::Progress => continue,
            other => return other,
        }
    }
}

fn established(user: &[u8], dir: &[u8]) -> Session {
    let mut s = Session::new("10.0.0.2:40000".to_string());
    s.receive(b"Welcome\r\n\x1b]0;title\x07");
    assert!(matches!(drive(&mut s), Reply::Pending));
    assert_eq!(s.take_outgoing(), b"whoami\n".to_vec());
    let mut reply = b"whoami\n".to_vec();
    reply.extend_from_slice(user);
    reply.extend_from_slice(b"\n\x1b]0;title\x07");
    s.receive(&reply);
    assert!(matches!(drive(&mut s), Reply::Pending));
    assert_eq!(s.take_outgoing(), b"pwd\n".to_vec());
    let mut reply = b"pwd\n".to_vec();
    reply.extend_from_slice(dir);
    reply.extend_from_slice(b"\n\x1b]0;title\x07");
    s.receive(&reply);
    assert!(matches!(drive(&mut s), Reply::Done(o) if o.is_empty()));
    s
}

#[test]
fn handshake_learns_user_and_directory() {
    let s = established(b"root", b"/root");
    assert_eq!(s.username(), "root");
    assert_eq!(s.cwd(), "/root");
    assert_eq!(s.address(), "10.0.0.2:40000");
    assert!(s.is_ready());
}

#[test]
fn new_session_is_unknown() {
    let s = Session::new("1.2.3.4:5".to_string());
    assert_eq!(s.username(), "unknown");
    assert_eq!(s.cwd(), "unknown");
    assert_eq!(s.phase(), Phase::Banner);
    assert!(!s.is_ready());
}

#[test]
fn banner_split_over_reads() {
    let mut s = Session::new("a".to_string());
    s.receive(b"banner \x1b]");
    assert!(matches!(drive(&mut s), Reply::Pending));
    assert_eq!(s.take_outgoing(), Vec::<u8>::new());
    s.receive(b"0;t\x07");
    assert!(matches!(drive(&mut s), Reply::Pending));
    assert_eq!(s.take_outgoing(), b"whoami\n".to_vec());
}

#[test]
fn command_returns_output_without_echo_or_marker() {
    let mut s = established(b"root", b"/root");
    s.start_command(b"ls", false).unwrap();
    assert_eq!(s.take_outgoing(), b"ls\n".to_vec());
    s.receive(b"ls\na.txt\nb.txt\n\x1b]0;root@h: /root\x07# ");
    assert!(matches!(drive(&mut s), Reply::Pending));
    assert_eq!(s.take_outgoing(), b"pwd\n".to_vec());
    s.receive(b"pwd\n/root\n\x1b]0;root@h: /root\x07# ");
    assert!(matches!(drive(&mut s), Reply::Done(o) if o == b"a.txt\nb.txt\n".to_vec()));
    assert!(s.is_ready());
}

#[test]
fn pwd_command_keeps_output_and_refreshes_cwd() {
    let mut s = established(b"u", b"/home/u");
    s.start_command(b"pwd", false).unwrap();
    assert_eq!(s.take_outgoing(), b"pwd\n".to_vec());
    s.receive(b"pwd\n/home/u\n\x1b]0;t\x07");
    assert!(matches!(drive(&mut s), Reply::Pending));
    assert_eq!(s.take_outgoing(), b"pwd\n".to_vec());
    s.receive(b"pwd\n/home/u\n\x1b]0;t\x07");
    assert!(matches!(drive(&mut s), Reply::Done(o) if o == b"/home/u\n".to_vec()));
    assert_eq!(s.cwd(), "/home/u");
}

#[test]
fn cd_updates_cwd() {
    let mut s = established(b"root", b"/root");
    s.start_command(b"cd /tmp\n", false).unwrap();
    assert_eq!(s.take_outgoing(), b"cd /tmp\n".to_vec());
    s.receive(b"cd /tmp\n\x1b]0;t\x07pwd\n/tmp\n");
    assert!(matches!(drive(&mut s), Reply::Done(o) if o.is_empty()));
    assert_eq!(s.cwd(), "/tmp");
    assert_eq!(s.take_outgoing(), b"pwd\n".to_vec());
}

#[test]
fn empty_command_round_trips() {
    let mut s = established(b"root", b"/root");
    s.start_command(b"", false).unwrap();
    assert_eq!(s.take_outgoing(), b"\n".to_vec());
    s.receive(b"\n\x1b]0;t\x07pwd\n/root\n");
    assert!(matches!(drive(&mut s), Reply::Done(o) if o.is_empty()));
    assert_eq!(s.cwd(), "/root");
}

#[test]
fn pretty_command_streams_lines() {
    let mut s = established(b"root", b"/root");
    s.start_command(b"cat f", true).unwrap();
    s.receive(b"cat f\nfirst\nsec");
    assert!(matches!(drive(&mut s), Reply::Line(l) if l == b"first".to_vec()));
    assert!(matches!(drive(&mut s), Reply::Pending));
    s.receive(b"ond\nno newline\x1b]0;t\x07");
    assert!(matches!(drive(&mut s), Reply::Line(l) if l == b"second".to_vec()));
    assert!(matches!(drive(&mut s), Reply::Line(l) if l == b"no newline".to_vec()));
    assert!(matches!(drive(&mut s), Reply::Pending));
    s.receive(b"pwd\n/root\n");
    assert!(matches!(drive(&mut s), Reply::Done(o) if o.is_empty()));
}

#[test]
fn undecodable_cwd_fails_and_keeps_old_value() {
    let mut s = established(b"root", b"/root");
    s.start_command(b"cd x", false).unwrap();
    s.receive(b"cd x\n\x1b]0;t\x07pwd\n/\xff\xfe\n");
    assert!(matches!(drive(&mut s), Reply::Failed(SessionError::Decode)));
    assert_eq!(s.cwd(), "/root");
    assert!(s.is_ready());
}

#[test]
fn undecodable_user_fails_handshake() {
    let mut s = Session::new("a".to_string());
    s.receive(b"\x1b]0;whoami\n\xc3\x28\n");
    assert!(matches!(drive(&mut s), Reply::Failed(SessionError::Decode)));
    assert_eq!(s.username(), "unknown");
    assert_eq!(s.phase(), Phase::Closed);
}

#[test]
fn start_while_busy_is_refused() {
    let mut s = Session::new("a".to_string());
    assert_eq!(s.start_command(b"ls", false), Err(SessionError::Busy));
    let mut s = established(b"root", b"/root");
    s.start_command(b"ls", false).unwrap();
    assert_eq!(s.start_command(b"id", false), Err(SessionError::Busy));
    assert_eq!(s.take_outgoing(), b"ls\n".to_vec());
}

#[test]
fn idle_session_has_nothing_to_do() {
    let mut s = established(b"root", b"/root");
    assert!(matches!(s.advance(), Reply::Idle));
}

#[test]
fn closed_session_refuses_commands() {
    let mut s = established(b"root", b"/root");
    s.start_command(b"sleep 100", false).unwrap();
    s.close();
    assert!(s.is_at_rest());
    assert!(!s.is_ready());
    assert!(matches!(s.advance(), Reply::Failed(SessionError::Closed)));
    assert_eq!(s.start_command(b"id", false), Err(SessionError::Closed));
    assert_eq!(s.phase(), Phase::Closed);
}

#[test]
fn pretty_command_hands_out_empty_final_piece() {
    let mut s = established(b"root", b"/root");
    s.start_command(b"echo hi", true).unwrap();
    s.receive(b"echo hi\nhi\n\x1b]0;t\x07pwd\n/root\n");
    assert!(matches!(drive(&mut s), Reply::Line(l) if l == b"hi".to_vec()));
    assert!(matches!(drive(&mut s), Reply::Line(l) if l.is_empty()));
    assert!(matches!(drive(&mut s), Reply::Done(o) if o.is_empty()));
}

#[test]
fn pretty_lines_joined_give_buffered_output() {
    let reply = b"cat f\none\n\ntwo\nthree\x1b]0;t\x07pwd\n/root\n";
    let mut buffered = established(b"root", b"/root");
    buffered.start_command(b"cat f", false).unwrap();
    buffered.receive(reply);
    let out = match drive(&mut buffered) {
        Reply::Done(o) => o,
        _ => panic!("buffered command did not finish"),
    };
    let mut pretty = established(b"root", b"/root");
    pretty.start_command(b"cat f", true).unwrap();
    pretty.receive(reply);
    let mut lines: Vec<Vec<u8>> = Vec::new();
    loop {
        match drive(&mut pretty) {
            Reply::Line(l) => lines.push(l),
            Reply::Done(_) => break,
            _ => panic!("pretty command did not finish"),
        }
    }
    assert_eq!(lines.join(&b'\n'), out);
    assert_eq!(out, b"one\n\ntwo\nthree".to_vec());
    assert_eq!(buffered.take_outgoing(), pretty.take_outgoing());
    assert_eq!(buffered.cwd(), pretty.cwd());
}

#[test]
fn handshake_decode_failure_closes_session() {
    let mut s = Session::new("a".to_string());
    s.receive(b"\x1b]0;whoami\nroot\npwd\n\xff\n");
    assert!(matches!(drive(&mut s), Reply::Failed(SessionError::Decode)));
    assert_eq!(s.phase(), Phase::Closed);
    assert!(!s.is_ready());
}
