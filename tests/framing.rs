use sayo::framing::{Channel, Piece};

#[test]
fn recv_until_takes_shortest_prefix() {
    let mut c = Channel::new();
    c.receive(b"abcXYZdefXYZ");
    assert_eq!(c.recv_until(b"XYZ"), Some(b"abcXYZ".to_vec()));
    assert_eq!(c.recv_until(b"XYZ"), Some(b"defXYZ".to_vec()));
    assert_eq!(c.recv_until(b"XYZ"), None);
}

#[test]
fn recv_until_waits_without_consuming() {
    let mut c = Channel::new();
    c.receive(b"no pattern here");
    assert_eq!(c.recv_until(b"XYZ"), None);
    c.receive(b"XYZ");
    assert_eq!(c.recv_until(b"XYZ"), Some(b"no pattern hereXYZ".to_vec()));
}

#[test]
fn pattern_split_across_reads_gives_same_frame() {
    let mut split = Channel::new();
    split.receive(b"banner\x1b]");
    assert_eq!(split.recv_until(b"\x1b]0;"), None);
    split.receive(b"0;title");
    let a = split.recv_until(b"\x1b]0;");

    let mut whole = Channel::new();
    whole.receive(b"banner\x1b]0;title");
    let b = whole.recv_until(b"\x1b]0;");

    assert_eq!(a, Some(b"banner\x1b]0;".to_vec()));
    assert_eq!(a, b);
}

#[test]
fn pattern_split_byte_by_byte() {
    let mut c = Channel::new();
    let stream = b"xx\x1b]0;yy";
    let mut found = None;
    for b in stream.iter() {
        c.receive(&[*b]);
        if let Some(f) = c.recv_until(b"\x1b]0;") {
            found = Some(f);
            break;
        }
    }
    assert_eq!(found, Some(b"xx\x1b]0;".to_vec()));
}

#[test]
fn empty_pattern_is_found_at_once() {
    let mut c = Channel::new();
    c.receive(b"abc");
    assert_eq!(c.recv_until(b""), Some(Vec::new()));
    assert_eq!(c.recv_until(b"c"), Some(b"abc".to_vec()));
}

#[test]
fn recv_line_strips_newline() {
    let mut c = Channel::new();
    c.receive(b"/root\nrest");
    assert_eq!(c.recv_line(), Some(b"/root".to_vec()));
    assert_eq!(c.recv_line(), None);
    c.receive(b"\n");
    assert_eq!(c.recv_line(), Some(b"rest".to_vec()));
}

#[test]
fn send_line_queues_newline() {
    let mut c = Channel::new();
    c.send(b"who");
    c.send_line(b"ami");
    assert_eq!(c.take_outgoing(), b"whoami\n".to_vec());
    assert_eq!(c.take_outgoing(), Vec::<u8>::new());
}

#[test]
fn stream_until_hands_out_lines_then_rest() {
    let mut c = Channel::new();
    c.receive(b"one\ntwo\npart");
    assert!(matches!(c.stream_until(b"END", false), Piece::Line(l) if l == b"one".to_vec()));
    assert!(matches!(c.stream_until(b"END", false), Piece::Line(l) if l == b"two".to_vec()));
    assert!(matches!(c.stream_until(b"END", false), Piece::Pending));
    c.receive(b"ialEND after");
    assert!(matches!(c.stream_until(b"END", false), Piece::Last(l) if l == b"partial".to_vec()));
    assert_eq!(c.recv_until(b"after"), Some(b" after".to_vec()));
}

#[test]
fn stream_until_keeps_pattern_when_asked() {
    let mut c = Channel::new();
    c.receive(b"tailEND");
    assert!(matches!(c.stream_until(b"END", true), Piece::Last(l) if l == b"tailEND".to_vec()));
}
