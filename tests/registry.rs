use sayo::registry::{get_metadata, is_session_exist, Registry, RegistryError};
use sayo::session::{Reply, Session};

fn established(address: &str, user: &str, dir: &str) -> Session {
    let mut s = Session::new(address.to_string());
    let reply = format!("\x1b]0;t\x07whoami\n{}\n\x1b]0;t\x07pwd\n{}\n", user, dir);
    s.receive(reply.as_bytes());
    loop {
        match s.advance() {
            Reply::Progress => continue,
            Reply::Done(_) => break,
            _ => panic!("handshake did not finish"),
        }
    }
    s.take_outgoing();
    s
}

#[test]
fn snapshot_of_empty_registry_is_empty() {
    let r = Registry::new();
    assert!(r.snapshot().is_empty());
}

#[test]
fn two_insertions_give_two_entries_in_order() {
    let mut r = Registry::new();
    let a = r.insert(established("10.0.0.1:1", "alice", "/home/alice")).unwrap();
    let b = r.insert(established("10.0.0.2:2", "bob", "/home/bob")).unwrap();
    let snap = r.snapshot();
    assert_eq!(snap.len(), 2);
    assert_ne!(snap[0].id, snap[1].id);
    assert_eq!(snap[0].id, a);
    assert_eq!(snap[1].id, b);
    assert_eq!(snap[0].username, "alice");
    assert_eq!(snap[0].address, "10.0.0.1:1");
    assert_eq!(snap[0].cwd, "/home/alice");
    assert_eq!(snap[1].username, "bob");
}

#[test]
fn ids_increase_and_are_not_reused() {
    let mut r = Registry::new();
    let a = r.insert(established("x", "u", "/")).unwrap();
    let b = r.insert(established("x", "u", "/")).unwrap();
    assert_eq!(a, 0);
    assert_eq!(b, 1);
    assert!(r.remove(b).is_ok());
    let c = r.insert(established("x", "u", "/")).unwrap();
    assert_eq!(c, 2);
    assert!(a < b && b < c);
}

#[test]
fn checkout_of_absent_id_leaves_registry_unchanged() {
    let mut r = Registry::new();
    r.insert(established("x", "root", "/root")).unwrap();
    let before = r.snapshot();
    assert!(matches!(r.checkout(7), Err(RegistryError::SessionNotFound)));
    let after = r.snapshot();
    assert_eq!(before.len(), after.len());
    assert_eq!(before[0].id, after[0].id);
    assert_eq!(before[0].cwd, after[0].cwd);
    assert!(is_session_exist(&r, 0));
    assert!(!is_session_exist(&r, 7));
}

#[test]
fn checked_out_session_is_busy_until_checked_in() {
    let mut r = Registry::new();
    let id = r.insert(established("x", "root", "/root")).unwrap();
    let mut s = r.checkout(id).unwrap();
    assert!(matches!(r.checkout(id), Err(RegistryError::SessionBusy)));
    assert!(is_session_exist(&r, id));
    s.start_command(b"cd /tmp", false).unwrap();
    s.receive(b"cd /tmp\n\x1b]0;t\x07pwd\n/tmp\n");
    loop {
        match s.advance() {
            Reply::Progress => continue,
            Reply::Done(_) => break,
            _ => panic!("command did not finish"),
        }
    }
    assert!(r.checkin(id, s).is_none());
    assert_eq!(get_metadata(&r, id).unwrap().cwd, "/tmp");
    assert!(r.checkout(id).is_ok());
}

#[test]
fn checkin_of_removed_session_hands_it_back() {
    let mut r = Registry::new();
    let id = r.insert(established("x", "root", "/root")).unwrap();
    let s = r.checkout(id).unwrap();
    assert!(matches!(r.remove(id), Ok(None)));
    let back = r.checkin(id, s);
    assert!(back.is_some());
    assert!(r.snapshot().is_empty());
}

#[test]
fn remove_of_absent_id_fails() {
    let mut r = Registry::new();
    assert!(matches!(r.remove(3), Err(RegistryError::SessionNotFound)));
}

#[test]
fn insert_refuses_session_before_handshake() {
    let mut r = Registry::new();
    let s = Session::new("x".to_string());
    assert!(matches!(r.insert(s), Err(RegistryError::NotEstablished)));
    assert!(r.snapshot().is_empty());
    let id = r.insert(established("x", "u", "/")).unwrap();
    assert_eq!(id, 0);
}

#[test]
fn metadata_of_absent_id_is_not_found() {
    let r = Registry::new();
    assert!(matches!(get_metadata(&r, 0), Err(RegistryError::SessionNotFound)));
}

#[test]
fn broken_off_session_is_checked_in_closed() {
    let mut r = Registry::new();
    let id = r.insert(established("x", "root", "/root")).unwrap();
    let mut s = r.checkout(id).unwrap();
    s.start_command(b"cat", false).unwrap();
    assert!(r.checkin(id, s).is_none());
    let mut s = r.checkout(id).unwrap();
    assert!(!s.is_ready());
    assert!(s.is_at_rest());
    assert_eq!(s.start_command(b"id", false), Err(sayo::session::SessionError::Closed));
    assert!(r.checkin(id, s).is_none());
    assert_eq!(r.snapshot().len(), 1);
}

#[test]
fn failed_handshake_is_never_inserted() {
    let mut r = Registry::new();
    let mut s = Session::new("x".to_string());
    s.receive(b"\x1b]0;whoami\n\xc3\x28\n");
    while matches!(s.advance(), Reply::Progress) {}
    assert!(matches!(r.insert(s), Err(RegistryError::NotEstablished)));
    assert!(r.snapshot().is_empty());
}
