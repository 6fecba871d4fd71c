//! The decisions behind the operator's commands.
//!
//! Each command is split into what it decides, which stands here, and what
//! it prints or waits for, which the console does with the results.

use vstd::prelude::*;
use crate::registry::{Registry, has_id, is_session_exist};
use cli_table::format::Justify;
use cli_table::{Cell, Style, Table};
use crate::util::{spaces, tidy_usage, usage_line};

verus! {

/// The console's state between commands: the session it is attached to, and
/// whether the operator's input goes to that remote shell.
#[derive(Clone, Copy, Debug, PartialEq, Eq, Structural)]
pub struct Manager {
    pub current_session_id: Option<u16>,
    pub is_shell_remote: bool,
}

impl Manager {
    /// A console attached to no session.
    pub fn new() -> (m: Manager)
        ensures
            m.current_session_id is None,
            !m.is_shell_remote,
    {
        Manager { current_session_id: None, is_shell_remote: false }
    }
}

/// The words after a command's name, with the console's state.
pub struct CommandArgs {
    pub args: Vec<String>,
    pub manager: Manager,
}

impl CommandArgs {
    /// The arguments `args`, none when absent.
    pub fn new(args: Option<&[&str]>, manager: Manager) -> (r: CommandArgs)
        ensures
            r.manager == manager,
            match args {
                Some(a) => r.args@.len() == a@.len() && forall|i: int|
                    0 <= i < a@.len() ==> (#[trigger] r.args@[i])@ == a@[i]@,
                None => r.args@.len() == 0,
            },
    {
        let mut v: Vec<String> = Vec::new();
        match args {
            Some(a) => {
                let mut i: usize = 0;
                while i < a.len()
                    invariant
                        i <= a@.len(),
                        v@.len() == i,
                        forall|j: int| 0 <= j < i ==> (#[trigger] v@[j])@ == a@[j]@,
                    decreases a.len() - i,
                {
                    v.push(String::from_str(a[i]));
                    i = i + 1;
                }
            },
            None => {},
        }
        CommandArgs { args: v, manager }
    }
}

/// What a command leaves behind: whether it succeeded, and the console's
/// new state.
pub struct CommandReturns {
    pub is_ok: bool,
    pub new_manager: Manager,
}

impl CommandReturns {
    pub fn new(is_ok: bool, new_manager: Manager) -> (r: CommandReturns)
        ensures
            r.is_ok == is_ok,
            r.new_manager == new_manager,
    {
        CommandReturns { is_ok, new_manager }
    }
}

/// The value of a string of decimal digits.
pub open spec fn digits_value(s: Seq<char>) -> int
    decreases s.len(),
{
    if s.len() == 0 {
        0
    } else {
        digits_value(s.drop_last()) * 10 + (s.last() as int - '0' as int)
    }
}

/// A decimal number, as text, that fits in a `u16`: an optional `+`, then
/// at least one digit.
pub open spec fn parsed_u16(s: Seq<char>) -> Option<u16> {
    let d = if s.len() > 0 && s[0] == '+' { s.drop_first() } else { s };
    if d.len() > 0 && (forall|i: int| 0 <= i < d.len() ==> '0' <= #[trigger] d[i] <= '9')
        && digits_value(d) <= u16::MAX {
        Some(digits_value(d) as u16)
    } else {
        None
    }
}

/// Relies on `str::parse::<u16>`: it accepts an optional `+` and then
/// decimal digits whose value fits, and nothing else.
#[verifier::external_body]
fn parse_u16(s: &str) -> (r: Option<u16>)
    ensures
        r == parsed_u16(s@),
{
    s.parse::<u16>().ok()
}

/// The word "help".
fn help_word() -> (r: String)
    ensures
        r@ == seq!['h', 'e', 'l', 'p'],
{
    proof {
        reveal_strlit("help");
    }
    let r = String::from_str("help");
    assert(r@ =~= seq!['h', 'e', 'l', 'p']);
    r
}

/// The arguments ask for a command's help: a single `help`.
pub open spec fn asks_help(args: Seq<String>) -> bool {
    args.len() == 1 && args[0]@ == seq!['h', 'e', 'l', 'p']
}

/// A command the console knows.
pub trait Command {
    spec fn name_text() -> Seq<char>;

    spec fn info_text() -> Seq<char>;

    /// The word that invokes the command.
    fn name() -> (r: String)
        ensures
            r@ == Self::name_text(),
    ;

    /// What the command does, in a few words.
    fn info() -> (r: String)
        ensures
            r@ == Self::info_text(),
    ;
}

/// Leaves the console.
pub struct Exit {}

/// Waits for a reverse shell on a port.
pub struct Listen {}

/// Lists the sessions, or attaches the console to one.
pub struct Sessions {}

/// Shows the commands.
pub struct Help {}

impl Command for Exit {
    open spec fn name_text() -> Seq<char> {
        "exit"@
    }

    open spec fn info_text() -> Seq<char> {
        "Exit the program"@
    }

    fn name() -> (r: String) {
        String::from_str("exit")
    }

    fn info() -> (r: String) {
        String::from_str("Exit the program")
    }
}

impl Command for Listen {
    open spec fn name_text() -> Seq<char> {
        "listen"@
    }

    open spec fn info_text() -> Seq<char> {
        "Start listening a reverse shell"@
    }

    fn name() -> (r: String) {
        String::from_str("listen")
    }

    fn info() -> (r: String) {
        String::from_str("Start listening a reverse shell")
    }
}

impl Command for Sessions {
    open spec fn name_text() -> Seq<char> {
        "sessions"@
    }

    open spec fn info_text() -> Seq<char> {
        "List available sessions"@
    }

    fn name() -> (r: String) {
        String::from_str("sessions")
    }

    fn info() -> (r: String) {
        String::from_str("List available sessions")
    }
}

impl Command for Help {
    open spec fn name_text() -> Seq<char> {
        "help"@
    }

    open spec fn info_text() -> Seq<char> {
        "Display help message"@
    }

    fn name() -> (r: String) {
        String::from_str("help")
    }

    fn info() -> (r: String) {
        String::from_str("Display help message")
    }
}

/// Which command a word names.
#[derive(Clone, Copy, Debug, PartialEq, Eq, Structural)]
pub enum CommandKind {
    Exit,
    Listen,
    Sessions,
    Help,
    Unknown,
}

/// The command that `word` names.
pub open spec fn kind_of(word: Seq<char>) -> CommandKind {
    if word == Exit::name_text() {
        CommandKind::Exit
    } else if word == Listen::name_text() {
        CommandKind::Listen
    } else if word == Sessions::name_text() {
        CommandKind::Sessions
    } else if word == Help::name_text() {
        CommandKind::Help
    } else {
        CommandKind::Unknown
    }
}

/// The command that the operator's first word names.
pub fn command_kind(word: &str) -> (r: CommandKind)
    ensures
        r == kind_of(word@),
{
    let w = String::from_str(word);
    if w == Exit::name() {
        CommandKind::Exit
    } else if w == Listen::name() {
        CommandKind::Listen
    } else if w == Sessions::name() {
        CommandKind::Sessions
    } else if w == Help::name() {
        CommandKind::Help
    } else {
        CommandKind::Unknown
    }
}

/// The column at which a command's description starts in the help.
pub const HELP_WIDTH: usize = 20;

/// The help line of a command: two spaces, its name, spaces up to the
/// description column, and its description.
pub open spec fn help_entry(name: Seq<char>, info: Seq<char>) -> Seq<char> {
    seq![' ', ' '] + name + spaces(
        if name.len() < HELP_WIDTH {
            (HELP_WIDTH - name.len()) as nat
        } else {
            0
        },
    ) + info
}

fn help_line(name: String, info: String) -> (r: String)
    ensures
        r@ == help_entry(name@, info@),
{
    let n = name.as_str().unicode_len();
    let fill: usize = if n < HELP_WIDTH { HELP_WIDTH - n } else { 0 };
    proof {
        reveal_strlit("  ");
        assert("  "@ =~= seq![' ', ' ']);
        reveal_strlit(" ");
        assert(" "@ =~= seq![' ']);
    }
    let mut r = String::from_str("  ");
    r.append(name.as_str());
    let mut i: usize = 0;
    while i < fill
        invariant
            i <= fill,
            " "@ == seq![' '],
            r@ == seq![' ', ' '] + name@ + spaces(i as nat),
        decreases fill - i,
    {
        r.append(" ");
        i = i + 1;
        assert(r@ =~= seq![' ', ' '] + name@ + spaces(i as nat));
    }
    r.append(info.as_str());
    r
}

/// The console's help: a heading, then a line for each command.
pub fn help_lines() -> (r: Vec<String>)
    ensures
        r@.len() == 4,
        r@[0]@ == "Usage:"@,
        r@[1]@ == help_entry(Exit::name_text(), Exit::info_text()),
        r@[2]@ == help_entry(Listen::name_text(), Listen::info_text()),
        r@[3]@ == help_entry(Sessions::name_text(), Sessions::info_text()),
{
    let mut r: Vec<String> = Vec::new();
    r.push(String::from_str("Usage:"));
    r.push(help_line(Exit::name(), Exit::info()));
    r.push(help_line(Listen::name(), Listen::info()));
    r.push(help_line(Sessions::name(), Sessions::info()));
    r
}

/// What `listen` is asked to do.
#[derive(Clone, Copy, Debug, PartialEq, Eq, Structural)]
pub enum ListenPlan {
    /// Show the usage.
    Usage,
    /// The port is not a number that fits a port.
    BadPort,
    /// Accept one connection on the port.
    Accept(u16),
}

/// What `listen` does with the arguments `args`.
pub open spec fn listen_plan(args: Seq<String>) -> ListenPlan {
    if args.len() == 0 || asks_help(args) || args.len() > 2 {
        ListenPlan::Usage
    } else {
        match parsed_u16(args[0]@) {
            None => ListenPlan::BadPort,
            Some(p) => ListenPlan::Accept(p),
        }
    }
}

impl Listen {
    /// What the arguments ask `listen` to do.
    pub fn plan(args: &CommandArgs) -> (r: ListenPlan)
        ensures
            r == listen_plan(args.args@),
    {
        let n = args.args.len();
        if n == 0 || n > 2 || (n == 1 && args.args[0] == help_word()) {
            return ListenPlan::Usage;
        }
        match parse_u16(args.args[0].as_str()) {
            None => ListenPlan::BadPort,
            Some(p) => ListenPlan::Accept(p),
        }
    }

    /// The outcome of `listen` when it stops before accepting anything: after
    /// showing its usage it succeeds, on a bad port it fails, and the console
    /// keeps its state either way. `None` when the plan is to accept.
    pub fn early(plan: ListenPlan, manager: Manager) -> (r: Option<CommandReturns>)
        ensures
            match plan {
                ListenPlan::Usage => r matches Some(x) && x.is_ok && x.new_manager == manager,
                ListenPlan::BadPort => r matches Some(x) && !x.is_ok && x.new_manager == manager,
                ListenPlan::Accept(_) => r is None,
            },
    {
        match plan {
            ListenPlan::Usage => Some(CommandReturns::new(true, manager)),
            ListenPlan::BadPort => Some(CommandReturns::new(false, manager)),
            ListenPlan::Accept(_) => None,
        }
    }

    /// The outcome of `listen` once the session was created under `created`,
    /// or not: the console is attached to a new session.
    pub fn finish(manager: Manager, created: Option<u16>) -> (r: CommandReturns)
        ensures
            match created {
                Some(id) => r.is_ok && r.new_manager == Manager { current_session_id: Some(id), ..manager },
                None => !r.is_ok && r.new_manager == manager,
            },
    {
        match created {
            Some(id) => CommandReturns::new(true, Manager { current_session_id: Some(id), ..manager }),
            None => CommandReturns::new(false, manager),
        }
    }

    /// The usage lines of `listen`, each indented by two more spaces.
    pub fn usage() -> (r: Vec<String>)
        ensures
            r@.len() == 2,
            r@[0]@ == "  "@ + usage_line("listen <port>", "Listen on a port"),
            r@[1]@ == "  "@ + usage_line("listen <port> -bg", "Listen on a port in background"),
    {
        let mut r: Vec<String> = Vec::new();
        r.push(String::from_str("  ").concat(tidy_usage("listen <port>", "Listen on a port").as_str()));
        r.push(String::from_str("  ").concat(tidy_usage("listen <port> -bg", "Listen on a port in background").as_str()));
        r
    }
}

/// Relies on `u16`'s `Display`: the decimal digits of the number, without
/// leading zeros.
#[verifier::external_body]
fn decimal(n: u16) -> (r: String)
    ensures
        r@ == decimal_text(n as nat),
{
    n.to_string()
}

/// The decimal digits of `n`, without leading zeros.
pub open spec fn decimal_text(n: nat) -> Seq<char>
    decreases n,
{
    if n < 10 {
        seq![('0' as u8 + n) as char]
    } else {
        decimal_text(n / 10) + seq![('0' as u8 + n % 10) as char]
    }
}

/// The rows of the session table: for each session, in the order of the
/// registry, its id, its user and its address.
pub fn session_rows(registry: &Registry) -> (r: Vec<Vec<String>>)
    requires
        registry.wf(),
    ensures
        r@.len() == registry@.entries.len(),
        forall|i: int|
            0 <= i < r@.len() ==> {
                let row = #[trigger] r@[i];
                let e = registry@.entries[i];
                &&& row@.len() == 3
                &&& row@[0]@ == decimal_text(e.id as nat)
                &&& row@[1]@ == e.username
                &&& row@[2]@ == e.address
            },
{
    let all = registry.snapshot();
    let mut r: Vec<Vec<String>> = Vec::new();
    let mut i: usize = 0;
    while i < all.len()
        invariant
            i <= all@.len(),
            all@.len() == registry@.entries.len(),
            forall|j: int| 0 <= j < all@.len() ==> (#[trigger] all@[j]).shows(registry@.entries[j]),
            r@.len() == i,
            forall|j: int|
                0 <= j < i ==> {
                    let row = #[trigger] r@[j];
                    let e = registry@.entries[j];
                    &&& row@.len() == 3
                    &&& row@[0]@ == decimal_text(e.id as nat)
                    &&& row@[1]@ == e.username
                    &&& row@[2]@ == e.address
                },
        decreases all.len() - i,
    {
        let m = &all[i];
        assert(m.shows(registry@.entries[i as int]));
        let mut row: Vec<String> = Vec::new();
        row.push(decimal(m.id));
        row.push(m.username.clone());
        row.push(m.address.clone());
        r.push(row);
        i = i + 1;
    }
    r
}

/// Relies on cli_table: draws the rows under a bold title row, each column
/// aligned to the right or to the left as `right` says. `display` writes only
/// into in-memory buffers, so the error its signature allows does not occur.
/// What the text looks like depends on the terminal library's choice of
/// output, which the environment may sway, so only success is stated.
#[verifier::external_body]
fn draw_table(title: &Vec<String>, rows: &Vec<Vec<String>>, right: &Vec<bool>) -> (r: Option<String>)
    ensures
        r is Some,
{
    let align = |j: usize| if right.get(j) == Some(&true) { Justify::Right } else { Justify::Left };
    let body: Vec<Vec<cli_table::CellStruct>> = rows.iter().map(|row| {
        row.iter().enumerate().map(|(j, c)| c.clone().cell().justify(align(j))).collect()
    }).collect();
    let head: Vec<cli_table::CellStruct> = title.iter().map(|t| t.clone().cell().bold(true)).collect();
    body.table().title(head).bold(true).display().ok().map(|d| d.to_string())
}

/// The table of sessions that `sessions` shows: the rows of
/// [`session_rows`], one per session in the order of the registry, under the
/// title `id`, `username`, `address`; ids and addresses to the right. It is
/// always drawn.
pub fn make_session_table(registry: &Registry) -> (r: Option<String>)
    requires
        registry.wf(),
    ensures
        r is Some,
{
    let rows = session_rows(registry);
    let title = vec![String::from_str("id"), String::from_str("username"), String::from_str("address")];
    let right = vec![true, false, true];
    draw_table(&title, &rows, &right)
}

/// What `sessions` reports to the operator.
pub enum SessionsReport {
    /// The table of sessions.
    Table(String),
    /// The usage.
    Usage,
    /// The id is not a number that fits an id; the usage follows.
    BadId,
    /// No session has this id.
    NotFound(u16),
    /// The console is now attached to this session.
    Switched(u16),
}

impl Sessions {
    /// Runs `sessions`: with no argument the table of sessions, with a single
    /// `help` or more than two arguments the usage, else the console is
    /// attached to the session whose id is the first argument, if it exists.
    pub fn exec(args: CommandArgs, registry: &Registry) -> (r: (CommandReturns, SessionsReport))
        requires
            registry.wf(),
        ensures
            args.args@.len() == 0 ==> r.0.is_ok && r.0.new_manager == args.manager && r.1 is Table,
            args.args@.len() > 0 && (asks_help(args.args@) || args.args@.len() > 2) ==> r.0.is_ok
                && r.0.new_manager == args.manager && r.1 is Usage,
            args.args@.len() > 0 && !asks_help(args.args@) && args.args@.len() <= 2 ==> match parsed_u16(
                args.args@[0]@,
            ) {
                None => !r.0.is_ok && r.0.new_manager == args.manager && r.1 is BadId,
                Some(id) => r.0.is_ok && if has_id(registry@, id) {
                    r.0.new_manager == (Manager { current_session_id: Some(id), is_shell_remote: true })
                        && (r.1 matches SessionsReport::Switched(x) && x == id)
                } else {
                    r.0.new_manager == args.manager && (r.1 matches SessionsReport::NotFound(x) && x == id)
                },
            },
    {
        let n = args.args.len();
        if n == 0 {
            let t = make_session_table(registry).unwrap();
            return (CommandReturns::new(true, args.manager), SessionsReport::Table(t));
        }
        if (n == 1 && args.args[0] == help_word()) || n > 2 {
            return (CommandReturns::new(true, args.manager), SessionsReport::Usage);
        }
        match parse_u16(args.args[0].as_str()) {
            None => (CommandReturns::new(false, args.manager), SessionsReport::BadId),
            Some(id) => {
                if is_session_exist(registry, id) {
                    let m = Manager { current_session_id: Some(id), is_shell_remote: true };
                    (CommandReturns::new(true, m), SessionsReport::Switched(id))
                } else {
                    (CommandReturns::new(true, args.manager), SessionsReport::NotFound(id))
                }
            },
        }
    }

    /// The usage lines of `sessions`: a heading, then a line per form,
    /// each after a tab.
    pub fn usage() -> (r: Vec<String>)
        ensures
            r@.len() == 3,
            r@[0]@ == "Usage:"@,
            r@[1]@ == "\t"@ + usage_line("sessions", "List all sessions available"),
            r@[2]@ == "\t"@ + usage_line(
                "sessions <id>",
                "Switch current shell context to a remote session with the given id",
            ),
    {
        let mut r: Vec<String> = Vec::new();
        r.push(String::from_str("Usage:"));
        r.push(String::from_str("\t").concat(tidy_usage("sessions", "List all sessions available").as_str()));
        r.push(String::from_str("\t").concat(
            tidy_usage("sessions <id>", "Switch current shell context to a remote session with the given id").as_str(),
        ));
        r
    }
}

} // verus!
