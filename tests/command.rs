use sayo::command::{
    command_kind, help_lines, make_session_table, session_rows, Command, CommandArgs, CommandKind,
    CommandReturns, Exit, Help, Listen, ListenPlan, Manager, Sessions, SessionsReport,
};
use sayo::registry::Registry;
use sayo::session::{Reply, Session};

fn established(address: &str, user: &str) -> Session {
    let mut s = Session::new(address.to_string());
    let reply = format!("\x1b]0;t\x07whoami\n{}\n\x1b]0;t\x07pwd\n/home/{}\n", user, user);
    s.receive(reply.as_bytes());
    while !matches!(s.advance(), Reply::Done(_)) {}
    s
}

#[test]
fn manager_starts_detached() {
    let m = Manager::new();
    assert_eq!(m.current_session_id, None);
    assert!(!m.is_shell_remote);
}

#[test]
fn command_args_copy_words() {
    let a = CommandArgs::new(Some(&["8080", "x"]), Manager::new());
    assert_eq!(a.args, vec!["8080".to_string(), "x".to_string()]);
    let b = CommandArgs::new(None, Manager::new());
    assert!(b.args.is_empty());
    let r = CommandReturns::new(false, Manager::new());
    assert!(!r.is_ok);
}

#[test]
fn command_words_are_recognized() {
    assert_eq!(command_kind("exit"), CommandKind::Exit);
    assert_eq!(command_kind("listen"), CommandKind::Listen);
    assert_eq!(command_kind("sessions"), CommandKind::Sessions);
    assert_eq!(command_kind("help"), CommandKind::Help);
    assert_eq!(command_kind("list"), CommandKind::Unknown);
    assert_eq!(Exit::name(), "exit");
    assert_eq!(Help::info(), "Display help message");
}

#[test]
fn listen_plans() {
    let plan = |w: &[&str]| Listen::plan(&CommandArgs::new(Some(w), Manager::new()));
    assert_eq!(plan(&[]), ListenPlan::Usage);
    assert_eq!(plan(&["help"]), ListenPlan::Usage);
    assert_eq!(plan(&["1", "2", "3"]), ListenPlan::Usage);
    assert_eq!(plan(&["4444"]), ListenPlan::Accept(4444));
    assert_eq!(plan(&["4444", "-bg"]), ListenPlan::Accept(4444));
    assert_eq!(plan(&["+80"]), ListenPlan::Accept(80));
    assert_eq!(plan(&["65535"]), ListenPlan::Accept(65535));
    assert_eq!(plan(&["65536"]), ListenPlan::BadPort);
    assert_eq!(plan(&["-1"]), ListenPlan::BadPort);
    assert_eq!(plan(&["port"]), ListenPlan::BadPort);
    assert_eq!(Listen::usage().len(), 2);
}

#[test]
fn listen_stops_early_on_usage_and_bad_port() {
    let m = Manager { current_session_id: Some(2), is_shell_remote: false };
    let r = Listen::early(ListenPlan::Usage, m).unwrap();
    assert!(r.is_ok);
    assert_eq!(r.new_manager, m);
    let r = Listen::early(ListenPlan::BadPort, m).unwrap();
    assert!(!r.is_ok);
    assert_eq!(r.new_manager, m);
    assert!(Listen::early(ListenPlan::Accept(80), m).is_none());
}

#[test]
fn session_table_of_empty_registry_has_only_title() {
    let reg = Registry::new();
    assert!(session_rows(&reg).is_empty());
    let table = make_session_table(&reg).unwrap();
    assert!(table.contains("id"));
    assert!(table.contains("username"));
    assert!(table.contains("address"));
    assert!(!table.contains("10."));
}

#[test]
fn listen_finish_attaches_console() {
    let r = Listen::finish(Manager::new(), Some(3));
    assert!(r.is_ok);
    assert_eq!(r.new_manager.current_session_id, Some(3));
    assert!(!r.new_manager.is_shell_remote);
    let r = Listen::finish(Manager::new(), None);
    assert!(!r.is_ok);
    assert_eq!(r.new_manager, Manager::new());
}

#[test]
fn sessions_switches_to_existing_session() {
    let mut reg = Registry::new();
    let id = reg.insert(established("10.0.0.9:1234", "root")).unwrap();
    let (ret, report) = Sessions::exec(CommandArgs::new(Some(&["0"]), Manager::new()), &reg);
    assert!(ret.is_ok);
    assert_eq!(ret.new_manager.current_session_id, Some(id));
    assert!(ret.new_manager.is_shell_remote);
    assert!(matches!(report, SessionsReport::Switched(0)));
}

#[test]
fn sessions_reports_missing_and_bad_ids() {
    let reg = Registry::new();
    let (ret, report) = Sessions::exec(CommandArgs::new(Some(&["5"]), Manager::new()), &reg);
    assert!(ret.is_ok);
    assert_eq!(ret.new_manager, Manager::new());
    assert!(matches!(report, SessionsReport::NotFound(5)));
    let (ret, report) = Sessions::exec(CommandArgs::new(Some(&["five"]), Manager::new()), &reg);
    assert!(!ret.is_ok);
    assert!(matches!(report, SessionsReport::BadId));
    let (ret, report) = Sessions::exec(CommandArgs::new(Some(&["help"]), Manager::new()), &reg);
    assert!(ret.is_ok);
    assert!(matches!(report, SessionsReport::Usage));
    assert_eq!(Sessions::usage().len(), 3);
}

#[test]
fn sessions_table_lists_sessions() {
    let mut reg = Registry::new();
    reg.insert(established("10.0.0.9:1234", "root")).unwrap();
    reg.insert(established("10.0.0.8:99", "www-data")).unwrap();
    let rows = session_rows(&reg);
    assert_eq!(rows[0], vec!["0".to_string(), "root".to_string(), "10.0.0.9:1234".to_string()]);
    assert_eq!(rows[1], vec!["1".to_string(), "www-data".to_string(), "10.0.0.8:99".to_string()]);
    let table = make_session_table(&reg).unwrap();
    assert!(table.contains("username"));
    assert!(table.contains("www-data"));
    assert!(table.find("10.0.0.9:1234").unwrap() < table.find("10.0.0.8:99").unwrap());
    assert!(table.contains("10.0.0.9:1234"));
    let (ret, report) = Sessions::exec(CommandArgs::new(None, Manager::new()), &reg);
    assert!(ret.is_ok);
    assert!(matches!(report, SessionsReport::Table(t) if t.contains("root")));
}

#[test]
fn help_lists_commands() {
    let lines = help_lines();
    assert_eq!(lines[0], "Usage:");
    assert_eq!(lines[1], format!("  exit{}Exit the program", " ".repeat(16)));
    assert_eq!(lines[3], format!("  sessions{}List available sessions", " ".repeat(12)));
}
