//! The session protocol engine.
//!
//! A remote shell speaks no protocol of its own: it echoes what it is sent,
//! prints the output of a command, and sets the terminal title when it draws
//! its prompt again. The escape that starts the title, [`marker`], is the only
//! boundary the engine relies on. The engine does no I/O: the caller moves
//! bytes between its [`Channel`] and the socket, and calls
//! [`Session::advance`] until it reports an outcome.

use vstd::prelude::*;
use vstd::utf8::{decode_utf8, valid_utf8};
use crate::framing::{
    Channel, Piece, NEWLINE, ends_with, first_stop, frame_end, lemma_first_stop, lemma_first_stop_unique,
    lemma_frame_after, lemma_frame_at_start, occurs_in, stops_at,
};

verus! {

/// The escape `ESC ] 0 ;` that starts a terminal title: the shell has drawn
/// its prompt again.
pub open spec fn marker() -> Seq<u8> {
    seq![0x1bu8, 0x5du8, 0x30u8, 0x3bu8]
}

/// The command that reports the remote user.
pub open spec fn whoami() -> Seq<u8> {
    seq![0x77u8, 0x68u8, 0x6fu8, 0x61u8, 0x6du8, 0x69u8]
}

/// The command that reports the remote working directory.
pub open spec fn pwd() -> Seq<u8> {
    seq![0x70u8, 0x77u8, 0x64u8]
}

/// The text a session shows before the shell has told its user and directory.
pub open spec fn unknown_text() -> Seq<char> {
    seq!['u', 'n', 'k', 'n', 'o', 'w', 'n']
}

/// `command` without one trailing newline.
pub open spec fn normalized(command: Seq<u8>) -> Seq<u8> {
    if command.len() > 0 && command.last() == NEWLINE {
        command.drop_last()
    } else {
        command
    }
}

/// `m` as it is put to rest: a session caught in the middle of a
/// transaction is closed.
pub open spec fn settled(m: SessionModel) -> SessionModel {
    if at_rest(m.phase) {
        m
    } else {
        SessionModel { phase: Phase::Closed, ..m }
    }
}

/// A value that the engine asks the shell for with a command of its own.
#[derive(PartialEq, Eq, Structural, Clone, Copy, Debug)]
pub enum Query {
    User,
    Cwd,
}

/// Where a session stands in its protocol.
#[derive(PartialEq, Eq, Structural, Clone, Copy, Debug)]
pub enum Phase {
    /// Waiting for the end of the banner that the shell prints on connecting.
    Banner,
    /// Waiting for the shell's echo of the operator's command.
    CommandEcho,
    /// Waiting for the newline after that echo.
    CommandEchoEnd,
    /// Reading the command's output up to the marker.
    Output,
    /// Waiting for the echo of a query.
    QueryEcho(Query),
    /// Waiting for the newline after that echo.
    QueryEchoEnd(Query),
    /// Waiting for the line that holds the answer.
    QueryValue(Query),
    /// Idle: a command may be started.
    Ready,
    /// The connection was given up; the session does no more work.
    Closed,
}

/// The session does nothing until asked: it is idle or closed.
pub open spec fn at_rest(p: Phase) -> bool {
    p == Phase::Ready || p == Phase::Closed
}

/// The command that asks for `q`.
pub open spec fn query_command(q: Query) -> Seq<u8> {
    match q {
        Query::User => whoami(),
        Query::Cwd => pwd(),
    }
}

/// Why a session operation failed.
#[derive(PartialEq, Eq, Structural, Clone, Copy, Debug)]
pub enum SessionError {
    /// A command was started while another one was under way.
    Busy,
    /// The session was closed.
    Closed,
    /// The user or directory the shell reported is not valid UTF-8.
    Decode,
}

/// What one call of [`Session::advance`] brought.
pub enum Reply<B> {
    /// Nothing to do: no command is under way.
    Idle,
    /// More bytes from the peer are needed; send what is queued first.
    Pending,
    /// A step was taken; call again.
    Progress,
    /// A line of the command's output, streamed as it arrived.
    Line(B),
    /// The transaction is over and the directory refreshed; holds the
    /// command's output when it was buffered.
    Done(B),
    /// The transaction failed; the session is idle again, its user and
    /// directory unchanged.
    Failed(SessionError),
}

/// The outcome of a step, with bytes as vectors.
pub type Event = Reply<Vec<u8>>;

impl View for Reply<Vec<u8>> {
    type V = Reply<Seq<u8>>;

    open spec fn view(&self) -> Reply<Seq<u8>> {
        match self {
            Reply::Idle => Reply::Idle,
            Reply::Pending => Reply::Pending,
            Reply::Progress => Reply::Progress,
            Reply::Line(b) => Reply::Line(b@),
            Reply::Done(b) => Reply::Done(b@),
            Reply::Failed(e) => Reply::Failed(*e),
        }
    }
}

/// Everything a session is, as values.
pub struct SessionModel {
    pub phase: Phase,
    pub pretty: bool,
    pub command: Seq<u8>,
    pub output: Seq<u8>,
    pub username: Seq<char>,
    pub address: Seq<char>,
    pub cwd: Seq<char>,
    /// The handshake has succeeded: the shell told its user and directory.
    pub established: bool,
    pub inbox: Seq<u8>,
    pub outbox: Seq<u8>,
}

/// `m` after consuming the first `k` bytes of its inbox.
pub open spec fn consumed(m: SessionModel, k: nat) -> SessionModel {
    SessionModel { inbox: m.inbox.skip(k as int), ..m }
}

/// `m` after sending the query for `q` and waiting for its echo.
pub open spec fn asking(m: SessionModel, q: Query) -> SessionModel {
    SessionModel {
        phase: Phase::QueryEcho(q),
        outbox: m.outbox + query_command(q) + seq![NEWLINE],
        ..m
    }
}

/// `m` after starting `command`: its line is sent and its echo awaited.
pub open spec fn started(m: SessionModel, command: Seq<u8>, pretty: bool) -> SessionModel {
    SessionModel {
        phase: Phase::CommandEcho,
        pretty: pretty,
        command: normalized(command),
        output: Seq::empty(),
        outbox: m.outbox + normalized(command) + seq![NEWLINE],
        ..m
    }
}

/// One step of the protocol: what the session does with the bytes it holds.
pub open spec fn step(m: SessionModel) -> (SessionModel, Reply<Seq<u8>>) {
    match m.phase {
        Phase::Ready => (m, Reply::Idle),
        Phase::Closed => (m, Reply::Failed(SessionError::Closed)),
        Phase::Banner => match frame_end(m.inbox, marker()) {
            None => (m, Reply::Pending),
            Some(k) => (asking(consumed(m, k), Query::User), Reply::Progress),
        },
        Phase::CommandEcho => match frame_end(m.inbox, m.command) {
            None => (m, Reply::Pending),
            Some(k) => (SessionModel { phase: Phase::CommandEchoEnd, ..consumed(m, k) }, Reply::Progress),
        },
        Phase::CommandEchoEnd => match frame_end(m.inbox, seq![NEWLINE]) {
            None => (m, Reply::Pending),
            Some(k) => (SessionModel { phase: Phase::Output, ..consumed(m, k) }, Reply::Progress),
        },
        Phase::Output => if m.pretty {
            match first_stop(m.inbox, marker(), true) {
                None => (m, Reply::Pending),
                Some(k) => if ends_with(m.inbox.take(k as int), marker()) {
                    let rest = m.inbox.take(k - 4);
                    (
                        asking(consumed(m, k), Query::Cwd),
                        Reply::Line(rest),
                    )
                } else {
                    (consumed(m, k), Reply::Line(m.inbox.take(k - 1)))
                },
            }
        } else {
            match frame_end(m.inbox, marker()) {
                None => (m, Reply::Pending),
                Some(k) => (
                    asking(SessionModel { output: m.inbox.take(k - 4), ..consumed(m, k) }, Query::Cwd),
                    Reply::Progress,
                ),
            }
        },
        Phase::QueryEcho(q) => match frame_end(m.inbox, query_command(q)) {
            None => (m, Reply::Pending),
            Some(k) => (SessionModel { phase: Phase::QueryEchoEnd(q), ..consumed(m, k) }, Reply::Progress),
        },
        Phase::QueryEchoEnd(q) => match frame_end(m.inbox, seq![NEWLINE]) {
            None => (m, Reply::Pending),
            Some(k) => (SessionModel { phase: Phase::QueryValue(q), ..consumed(m, k) }, Reply::Progress),
        },
        Phase::QueryValue(q) => match frame_end(m.inbox, seq![NEWLINE]) {
            None => (m, Reply::Pending),
            Some(k) => {
                let line = m.inbox.take(k - 1);
                let n = consumed(m, k);
                if !valid_utf8(line) {
                    (
                        SessionModel { phase: if m.established { Phase::Ready } else { Phase::Closed }, ..n },
                        Reply::Failed(SessionError::Decode),
                    )
                } else if q == Query::User {
                    (asking(SessionModel { username: decode_utf8(line), ..n }, Query::Cwd), Reply::Progress)
                } else {
                    (
                        SessionModel {
                            phase: Phase::Ready,
                            cwd: decode_utf8(line),
                            established: true,
                            output: Seq::empty(),
                            ..n
                        },
                        Reply::Done(m.output),
                    )
                }
            },
        },
    }
}

/// Relies on `String::from_utf8`: it succeeds exactly on valid UTF-8, with
/// the characters that the bytes encode.
#[verifier::external_body]
fn utf8_text(bytes: Vec<u8>) -> (r: Option<String>)
    ensures
        match r {
            Some(s) => valid_utf8(bytes@) && s@ == decode_utf8(bytes@),
            None => !valid_utf8(bytes@),
        },
{
    String::from_utf8(bytes).ok()
}

/// One remote shell: its identity, its protocol state and its channel.
pub struct Session {
    channel: Channel,
    phase: Phase,
    pretty: bool,
    command: Vec<u8>,
    output: Vec<u8>,
    username: String,
    address: String,
    cwd: String,
    established: bool,
}

impl View for Session {
    type V = SessionModel;

    closed spec fn view(&self) -> SessionModel {
        SessionModel {
            phase: self.phase,
            pretty: self.pretty,
            command: self.command@,
            output: self.output@,
            username: self.username@,
            address: self.address@,
            cwd: self.cwd@,
            established: self.established,
            inbox: self.channel@.inbox,
            outbox: self.channel@.outbox,
        }
    }
}

/// The marker as bytes.
fn marker_bytes() -> (r: [u8; 4])
    ensures
        r@ == marker(),
{
    let r: [u8; 4] = [0x1b, 0x5d, 0x30, 0x3b];
    assert(r@ =~= marker());
    r
}

/// The command that asks for `q`, as bytes.
fn query_bytes(q: Query) -> (r: Vec<u8>)
    ensures
        r@ == query_command(q),
{
    match q {
        Query::User => {
            let r = vec![0x77u8, 0x68u8, 0x6fu8, 0x61u8, 0x6du8, 0x69u8];
            assert(r@ =~= whoami());
            r
        },
        Query::Cwd => {
            let r = vec![0x70u8, 0x77u8, 0x64u8];
            assert(r@ =~= pwd());
            r
        },
    }
}

/// The word "unknown".
fn unknown() -> (r: String)
    ensures
        r@ == unknown_text(),
{
    let r = String::from_str("unknown");
    proof {
        reveal_strlit("unknown");
    }
    assert(r@ =~= unknown_text());
    r
}

impl Session {
    /// The channel is well formed, and an idle session has finished its
    /// handshake.
    pub closed spec fn wf(&self) -> bool {
        &&& self.channel.wf()
        &&& self.phase == Phase::Ready ==> self.established
    }

    /// An idle session has finished its handshake: one whose handshake failed
    /// is closed, never idle.
    pub proof fn lemma_ready_is_established(&self)
        requires
            self.wf(),
        ensures
            self@.phase == Phase::Ready ==> self@.established,
    {
    }

    /// A session on a connection that was just accepted from `address`: it
    /// waits for the shell's banner, and its user and directory are unknown.
    pub fn new(address: String) -> (s: Session)
        ensures
            s.wf(),
            s@ == (SessionModel {
                phase: Phase::Banner,
                pretty: false,
                command: Seq::empty(),
                output: Seq::empty(),
                username: unknown_text(),
                address: address@,
                cwd: unknown_text(),
                established: false,
                inbox: Seq::empty(),
                outbox: Seq::empty(),
            }),
    {
        let s = Session {
            channel: Channel::new(),
            phase: Phase::Banner,
            pretty: false,
            command: Vec::new(),
            output: Vec::new(),
            username: unknown(),
            address,
            cwd: unknown(),
            established: false,
        };
        assert(s@.command =~= Seq::<u8>::empty());
        s
    }

    /// Bytes arrived from the peer.
    pub fn receive(&mut self, data: &[u8])
        requires
            old(self).wf(),
        ensures
            final(self).wf(),
            final(self)@ == (SessionModel { inbox: old(self)@.inbox + data@, ..old(self)@ }),
    {
        self.channel.receive(data);
    }

    /// Hands out the bytes queued for the peer.
    pub fn take_outgoing(&mut self) -> (r: Vec<u8>)
        requires
            old(self).wf(),
        ensures
            final(self).wf(),
            r@ == old(self)@.outbox,
            final(self)@ == (SessionModel { outbox: Seq::empty(), ..old(self)@ }),
    {
        self.channel.take_outgoing()
    }

    /// Starts `command` (without one trailing newline): sends it as a line
    /// and waits for its echo. With `pretty` the output is handed out line by
    /// line as it arrives, else it is kept and handed out at the end. Fails,
    /// changing nothing, with `Closed` when the session is closed and with
    /// `Busy` when another command is under way.
    pub fn start_command(&mut self, command: &[u8], pretty: bool) -> (r: Result<(), SessionError>)
        requires
            old(self).wf(),
        ensures
            final(self).wf(),
            old(self)@.phase == Phase::Closed ==> r == Err::<(), SessionError>(SessionError::Closed)
                && final(self)@ == old(self)@,
            !at_rest(old(self)@.phase) ==> r == Err::<(), SessionError>(SessionError::Busy)
                && final(self)@ == old(self)@,
            old(self)@.phase == Phase::Ready ==> r is Ok && final(self)@ == started(
                old(self)@,
                command@,
                pretty,
            ),
    {
        if self.phase == Phase::Closed {
            return Err(SessionError::Closed);
        }
        if self.phase != Phase::Ready {
            return Err(SessionError::Busy);
        }
        let n = command.len();
        let end: usize = if n > 0 && command[n - 1] == NEWLINE { n - 1 } else { n };
        let line = vstd::slice::slice_to_vec(vstd::slice::slice_subrange(command, 0, end));
        assert(line@ =~= normalized(command@));
        self.channel.send_line(&line);
        self.command = line;
        self.output = Vec::new();
        self.pretty = pretty;
        self.phase = Phase::CommandEcho;
        assert(self@.output =~= Seq::<u8>::empty());
        Ok(())
    }

    /// Sends the query for `q` and waits for its echo.
    fn ask(&mut self, q: Query)
        requires
            old(self).wf(),
        ensures
            final(self).wf(),
            final(self)@ == asking(old(self)@, q),
    {
        let c = query_bytes(q);
        self.channel.send_line(&c);
        self.phase = Phase::QueryEcho(q);
    }

    /// Takes one protocol step with the bytes at hand.
    pub fn advance(&mut self) -> (r: Event)
        requires
            old(self).wf(),
        ensures
            final(self).wf(),
            (final(self)@, r@) == step(old(self)@),
    {
        let ghost m = self@;
        let nl: [u8; 1] = [NEWLINE];
        assert(nl@ =~= seq![NEWLINE]);
        match self.phase {
            Phase::Ready => Reply::Idle,
            Phase::Closed => Reply::Failed(SessionError::Closed),
            Phase::Banner => {
                let mk = marker_bytes();
                match self.channel.recv_until(&mk) {
                    None => Reply::Pending,
                    Some(_) => {
                        self.ask(Query::User);
                        Reply::Progress
                    },
                }
            },
            Phase::CommandEcho => {
                match self.channel.recv_until(&self.command) {
                    None => Reply::Pending,
                    Some(_) => {
                        self.phase = Phase::CommandEchoEnd;
                        Reply::Progress
                    },
                }
            },
            Phase::CommandEchoEnd => {
                match self.channel.recv_until(&nl) {
                    None => Reply::Pending,
                    Some(_) => {
                        self.phase = Phase::Output;
                        Reply::Progress
                    },
                }
            },
            Phase::Output => {
                let mk = marker_bytes();
                if self.pretty {
                    match self.channel.stream_until(&mk, false) {
                        Piece::Pending => Reply::Pending,
                        Piece::Line(l) => Reply::Line(l),
                        Piece::Last(l) => {
                            self.ask(Query::Cwd);
                            Reply::Line(l)
                        },
                    }
                } else {
                    match self.channel.recv_until(&mk) {
                        None => Reply::Pending,
                        Some(mut f) => {
                            proof {
                                lemma_first_stop(m.inbox, marker(), false);
                            }
                            f.truncate(f.len() - 4);
                            assert(f@ =~= m.inbox.take(f@.len() as int));
                            self.output = f;
                            self.ask(Query::Cwd);
                            Reply::Progress
                        },
                    }
                }
            },
            Phase::QueryEcho(q) => {
                let c = query_bytes(q);
                match self.channel.recv_until(&c) {
                    None => Reply::Pending,
                    Some(_) => {
                        self.phase = Phase::QueryEchoEnd(q);
                        Reply::Progress
                    },
                }
            },
            Phase::QueryEchoEnd(q) => {
                match self.channel.recv_until(&nl) {
                    None => Reply::Pending,
                    Some(_) => {
                        self.phase = Phase::QueryValue(q);
                        Reply::Progress
                    },
                }
            },
            Phase::QueryValue(q) => {
                match self.channel.recv_line() {
                    None => Reply::Pending,
                    Some(line) => {
                        match utf8_text(line) {
                            None => {
                                self.phase = if self.established { Phase::Ready } else { Phase::Closed };
                                Reply::Failed(SessionError::Decode)
                            },
                            Some(text) => {
                                match q {
                                    Query::User => {
                                        self.username = text;
                                        self.ask(Query::Cwd);
                                        Reply::Progress
                                    },
                                    Query::Cwd => {
                                        self.cwd = text;
                                        self.established = true;
                                        self.phase = Phase::Ready;
                                        let mut out: Vec<u8> = Vec::new();
                                        std::mem::swap(&mut out, &mut self.output);
                                        Reply::Done(out)
                                    },
                                }
                            },
                        }
                    },
                }
            },
        }
    }

    /// Gives the session up, after its connection failed or was abandoned:
    /// every later command fails with `Closed`.
    pub fn close(&mut self)
        requires
            old(self).wf(),
        ensures
            final(self).wf(),
            final(self)@ == (SessionModel { phase: Phase::Closed, ..old(self)@ }),
    {
        self.phase = Phase::Closed;
    }

    /// Whether the session is idle: no command is under way.
    pub fn is_ready(&self) -> (r: bool)
        ensures
            r == (self@.phase == Phase::Ready),
    {
        self.phase == Phase::Ready
    }

    /// Whether the session is idle or closed.
    pub fn is_at_rest(&self) -> (r: bool)
        ensures
            r == at_rest(self@.phase),
    {
        self.phase == Phase::Ready || self.phase == Phase::Closed
    }

    /// Where the session stands in its protocol.
    pub fn phase(&self) -> (r: Phase)
        ensures
            r == self@.phase,
    {
        self.phase
    }

    /// The remote user, as the shell last reported it.
    pub fn username(&self) -> (r: &String)
        ensures
            r@ == self@.username,
    {
        &self.username
    }

    /// The peer's address.
    pub fn address(&self) -> (r: &String)
        ensures
            r@ == self@.address,
    {
        &self.address
    }

    /// The remote working directory, as the shell last reported it.
    pub fn cwd(&self) -> (r: &String)
        ensures
            r@ == self@.cwd,
    {
        &self.cwd
    }
}

/// What a shell sends back for a command `c` that prints `o`: the echo of the
/// command line, the output, the marker, the rest of the prompt `t`, then the
/// echo of the directory query and the directory `d` on its own line.
pub open spec fn command_reply(c: Seq<u8>, o: Seq<u8>, t: Seq<u8>, d: Seq<u8>) -> Seq<u8> {
    c + seq![NEWLINE] + o + marker() + t + pwd() + seq![NEWLINE] + d + seq![NEWLINE]
}

/// The session `m` after `n` protocol steps, with what the last one brought.
pub open spec fn run(m: SessionModel, n: nat) -> (SessionModel, Reply<Seq<u8>>)
    decreases n,
{
    if n == 0 {
        (m, Reply::Progress)
    } else {
        step(run(m, (n - 1) as nat).0)
    }
}

/// The step from the banner: the banner is skipped up to the marker and
/// the user query is sent.
proof fn lemma_step_banner(m: SessionModel, b: Seq<u8>, rest: Seq<u8>)
    requires
        m.phase == Phase::Banner,
        m.inbox == b + marker() + rest,
        !occurs_in(b, marker()),
    ensures
        step(m) == (asking(SessionModel { inbox: rest, ..m }, Query::User), Reply::<Seq<u8>>::Progress),
{
    lemma_frame_after(b, marker(), rest);
    assert(m.inbox.skip(b.len() as int + 4) =~= rest);
}

/// The step past the echo of the operator's command.
proof fn lemma_step_command_echo(m: SessionModel, rest: Seq<u8>)
    requires
        m.phase == Phase::CommandEcho,
        m.inbox == m.command + rest,
    ensures
        step(m) == (SessionModel { phase: Phase::CommandEchoEnd, inbox: rest, ..m }, Reply::<Seq<u8>>::Progress),
{
    lemma_frame_at_start(m.command, rest);
    assert(m.inbox.skip(m.command.len() as int) =~= rest);
}

/// The step past the newline that ends an echo.
proof fn lemma_step_echo_end(m: SessionModel, rest: Seq<u8>)
    requires
        m.phase == Phase::CommandEchoEnd || m.phase is QueryEchoEnd,
        m.inbox == seq![NEWLINE] + rest,
    ensures
        step(m) == (SessionModel {
            phase: if m.phase == Phase::CommandEchoEnd { Phase::Output } else { Phase::QueryValue(m.phase->QueryEchoEnd_0) },
            inbox: rest,
            ..m
        }, Reply::<Seq<u8>>::Progress),
{
    lemma_frame_at_start(seq![NEWLINE], rest);
    assert(m.inbox.skip(1) =~= rest);
}

/// The step that reads buffered output up to the marker and sends the
/// directory query.
proof fn lemma_step_output(m: SessionModel, o: Seq<u8>, rest: Seq<u8>)
    requires
        m.phase == Phase::Output,
        !m.pretty,
        m.inbox == o + marker() + rest,
        !occurs_in(o, marker()),
    ensures
        step(m) == (asking(SessionModel { output: o, inbox: rest, ..m }, Query::Cwd), Reply::<Seq<u8>>::Progress),
{
    lemma_frame_after(o, marker(), rest);
    assert(m.inbox.skip(o.len() as int + 4) =~= rest);
    assert(m.inbox.take(o.len() as int) =~= o);
}

/// The step past the echo of a query, after the rest of a prompt `a`.
proof fn lemma_step_query_echo(m: SessionModel, q: Query, a: Seq<u8>, rest: Seq<u8>)
    requires
        m.phase == Phase::QueryEcho(q),
        m.inbox == a + query_command(q) + rest,
        !occurs_in(a, query_command(q)),
    ensures
        step(m) == (SessionModel { phase: Phase::QueryEchoEnd(q), inbox: rest, ..m }, Reply::<Seq<u8>>::Progress),
{
    lemma_frame_after(a, query_command(q), rest);
    assert(m.inbox.skip(a.len() as int + query_command(q).len()) =~= rest);
}

/// The step that reads the answer `v` to a query.
proof fn lemma_step_value(m: SessionModel, q: Query, v: Seq<u8>, rest: Seq<u8>)
    requires
        m.phase == Phase::QueryValue(q),
        m.inbox == v + seq![NEWLINE] + rest,
        !v.contains(NEWLINE),
        valid_utf8(v),
    ensures
        step(m) == if q == Query::User {
            (asking(SessionModel { username: decode_utf8(v), inbox: rest, ..m }, Query::Cwd), Reply::<Seq<u8>>::Progress)
        } else {
            (
                SessionModel {
                    phase: Phase::Ready,
                    cwd: decode_utf8(v),
                    established: true,
                    output: Seq::empty(),
                    inbox: rest,
                    ..m
                },
                Reply::Done(m.output),
            )
        },
{
    lemma_no_newline(v);
    lemma_frame_after(v, seq![NEWLINE], rest);
    assert(m.inbox.skip(v.len() as int + 1) =~= rest);
    assert(m.inbox.take(v.len() as int) =~= v);
}

/// A command `c` without a newline, started with its output buffered on an
/// idle session whose shell echoes it, prints `o` (in which the marker does
/// not occur) and draws its prompt, returns exactly `o`: neither the echo nor
/// the marker. The directory query that follows sets the directory to `d`,
/// and the session is idle again with every byte of the reply consumed and
/// whatever the shell sent after it left for later.
pub proof fn lemma_command_output(
    m: SessionModel,
    c: Seq<u8>,
    o: Seq<u8>,
    t: Seq<u8>,
    d: Seq<u8>,
    rest: Seq<u8>,
)
    requires
        m.phase == Phase::Ready,
        m.inbox.len() == 0,
        !c.contains(NEWLINE),
        !occurs_in(o, marker()),
        !occurs_in(t, pwd()),
        !d.contains(NEWLINE),
        valid_utf8(d),
    ensures
        ({
            let sent = SessionModel { inbox: command_reply(c, o, t, d) + rest, ..started(m, c, false) };
            &&& run(sent, 6).1 == Reply::Done(o)
            &&& run(sent, 6).0.phase == Phase::Ready
            &&& run(sent, 6).0.cwd == decode_utf8(d)
            &&& run(sent, 6).0.username == m.username
            &&& run(sent, 6).0.inbox == rest
            &&& run(sent, 6).0.outbox == m.outbox + c + seq![NEWLINE] + pwd() + seq![NEWLINE]
        }),
{
    let m0 = SessionModel { inbox: command_reply(c, o, t, d) + rest, ..started(m, c, false) };
    reveal_with_fuel(run, 7);
    if c.len() > 0 {
        assert(c.last() != NEWLINE) by {
            if c.last() == NEWLINE {
                assert(c[c.len() - 1] == NEWLINE);
            }
        }
    }
    assert(normalized(c) == c);
    let nl = seq![NEWLINE];
    let s5 = d + nl + rest;
    let s4 = nl + s5;
    let s3 = t + pwd() + s4;
    let s2 = o + marker() + s3;
    let s1 = nl + s2;
    assert(m0.inbox =~= c + s1);
    lemma_step_command_echo(m0, s1);
    let m1 = step(m0).0;
    lemma_step_echo_end(m1, s2);
    let m2 = step(m1).0;
    lemma_step_output(m2, o, s3);
    let m3 = step(m2).0;
    lemma_step_query_echo(m3, Query::Cwd, t, s4);
    let m4 = step(m3).0;
    lemma_step_echo_end(m4, s5);
    let m5 = step(m4).0;
    lemma_step_value(m5, Query::Cwd, d, rest);
}

/// What a shell sends from the moment it connects until the session knows it:
/// a banner `b` up to the marker, the rest of that prompt `t1`, the echo of
/// the user query with the user `u` on its line, the marker and prompt `t2`,
/// and the echo of the directory query with the directory `d` on its line.
pub open spec fn handshake_reply(
    b: Seq<u8>,
    t1: Seq<u8>,
    u: Seq<u8>,
    t2: Seq<u8>,
    d: Seq<u8>,
) -> Seq<u8> {
    b + marker() + t1 + whoami() + seq![NEWLINE] + u + seq![NEWLINE] + t2 + pwd() + seq![NEWLINE]
        + d + seq![NEWLINE]
}

/// A new session fed a banner, then the replies of a shell to the user and
/// directory queries, learns the user `u` and the directory `d`, sends
/// exactly the two queries, and ends idle with every byte consumed.
pub proof fn lemma_handshake(m: SessionModel, b: Seq<u8>, t1: Seq<u8>, u: Seq<u8>, t2: Seq<u8>, d: Seq<u8>)
    requires
        m.phase == Phase::Banner,
        m.inbox == handshake_reply(b, t1, u, t2, d),
        !occurs_in(b, marker()),
        !occurs_in(t1, whoami()),
        !occurs_in(t2, pwd()),
        !u.contains(NEWLINE),
        !d.contains(NEWLINE),
        valid_utf8(u),
        valid_utf8(d),
    ensures
        run(m, 7).1 == Reply::Done(m.output),
        run(m, 7).0.phase == Phase::Ready,
        run(m, 7).0.username == decode_utf8(u),
        run(m, 7).0.cwd == decode_utf8(d),
        run(m, 7).0.inbox.len() == 0,
        run(m, 7).0.outbox == m.outbox + whoami() + seq![NEWLINE] + pwd() + seq![NEWLINE],
{
    reveal_with_fuel(run, 8);
    let nl = seq![NEWLINE];
    let s6 = d + nl + Seq::<u8>::empty();
    let s5 = nl + s6;
    let s4 = t2 + pwd() + s5;
    let s3 = u + nl + s4;
    let s2 = nl + s3;
    let s1 = t1 + whoami() + s2;
    assert(m.inbox =~= b + marker() + s1);
    lemma_step_banner(m, b, s1);
    let m1 = step(m).0;
    lemma_step_query_echo(m1, Query::User, t1, s2);
    let m2 = step(m1).0;
    lemma_step_echo_end(m2, s3);
    let m3 = step(m2).0;
    lemma_step_value(m3, Query::User, u, s4);
    let m4 = step(m3).0;
    lemma_step_query_echo(m4, Query::Cwd, t2, s5);
    let m5 = step(m4).0;
    lemma_step_echo_end(m5, s6);
    let m6 = step(m5).0;
    lemma_step_value(m6, Query::Cwd, d, Seq::empty());
    assert(m.outbox + whoami() + nl + pwd() + nl =~= m.outbox + query_command(Query::User) + nl
        + query_command(Query::Cwd) + nl);
}

/// A line without a newline holds no newline frame.
proof fn lemma_no_newline(d: Seq<u8>)
    requires
        !d.contains(NEWLINE),
    ensures
        !occurs_in(d, seq![NEWLINE]),
{
    if occurs_in(d, seq![NEWLINE]) {
        let k = choose|k: int| 0 <= k <= d.len() && #[trigger] ends_with(d.take(k), seq![NEWLINE]);
        assert(d.take(k).subrange(k - 1, k)[0] == d[k - 1]);
        assert(d.contains(NEWLINE));
    }
}

/// The lines of `o`: the pieces between its newlines, the last one being
/// what follows the last newline, empty when `o` ends with one.
pub open spec fn split_lines(o: Seq<u8>) -> Seq<Seq<u8>>
    decreases o.len(),
{
    match frame_end(o, seq![NEWLINE]) {
        Some(k) => if 0 < k <= o.len() {
            seq![o.take(k - 1)] + split_lines(o.skip(k as int))
        } else {
            seq![o]
        },
        None => seq![o],
    }
}

/// The lines `ls` joined with newlines.
pub open spec fn join_lines(ls: Seq<Seq<u8>>) -> Seq<u8>
    decreases ls.len(),
{
    if ls.len() == 0 {
        Seq::empty()
    } else if ls.len() == 1 {
        ls[0]
    } else {
        ls[0] + seq![NEWLINE] + join_lines(ls.drop_first())
    }
}

/// The first `j` bytes of `s` end with a newline exactly when byte `j - 1` is
/// one.
proof fn lemma_newline_end(s: Seq<u8>, j: int)
    requires
        0 <= j <= s.len(),
    ensures
        ends_with(s.take(j), seq![NEWLINE]) <==> (j > 0 && s[j - 1] == NEWLINE),
{
    if j > 0 {
        assert(s.take(j).subrange(j - 1, j)[0] == s[j - 1]);
        if s[j - 1] == NEWLINE {
            assert(s.take(j).subrange(j - 1, j) =~= seq![NEWLINE]);
        }
    }
}

/// Joining the lines of `o` with newlines gives `o` back.
pub proof fn lemma_join_split(o: Seq<u8>)
    ensures
        split_lines(o).len() >= 1,
        join_lines(split_lines(o)) == o,
    decreases o.len(),
{
    match frame_end(o, seq![NEWLINE]) {
        Some(k) => if 0 < k <= o.len() {
            lemma_first_stop(o, seq![NEWLINE], false);
            lemma_newline_end(o, k as int);
            let o2 = o.skip(k as int);
            lemma_join_split(o2);
            let ls = split_lines(o);
            assert(ls == seq![o.take(k - 1)] + split_lines(o2));
            assert(ls.drop_first() =~= split_lines(o2));
            assert(o =~= o.take(k - 1) + seq![NEWLINE] + o2);
        },
        None => {},
    }
}

/// `n + 1` steps from `m` are one step, then `n` more.
proof fn lemma_run_shift(m: SessionModel, n: nat)
    requires
        n >= 1,
    ensures
        run(m, n + 1) == run(step(m).0, n),
    decreases n,
{
    if n == 1 {
        reveal_with_fuel(run, 3);
    } else {
        lemma_run_shift(m, (n - 1) as nat);
    }
}

/// One step of streaming output `o` (in which the marker does not occur):
/// its first line when it holds a newline, else all of it as the last piece,
/// after which the directory query is sent.
proof fn lemma_pretty_step(m: SessionModel, o: Seq<u8>, rest: Seq<u8>)
    requires
        m.phase == Phase::Output,
        m.pretty,
        m.inbox == o + marker() + rest,
        !occurs_in(o, marker()),
    ensures
        match frame_end(o, seq![NEWLINE]) {
            Some(k) => {
                &&& 0 < k <= o.len()
                &&& step(m) == (SessionModel { inbox: o.skip(k as int) + marker() + rest, ..m }, Reply::Line(o.take(k - 1)))
                &&& !occurs_in(o.skip(k as int), marker())
            },
            None => step(m) == (asking(SessionModel { inbox: rest, ..m }, Query::Cwd), Reply::Line(o)),
        },
{
    let inb = o + marker() + rest;
    lemma_frame_after(o, marker(), rest);
    lemma_first_stop(inb, marker(), false);
    assert forall|j: int| 0 <= j <= o.len() implies (stops_at(inb, marker(), true, j) <==> stops_at(
        o,
        seq![NEWLINE],
        false,
        j,
    )) by {
        assert(inb.take(j) =~= o.take(j));
        lemma_newline_end(o, j);
        if j > 0 {
            assert(inb[j - 1] == o[j - 1]);
        }
        if ends_with(o.take(j), marker()) {
            assert(occurs_in(o, marker()));
        }
    }
    lemma_first_stop(o, seq![NEWLINE], false);
    match frame_end(o, seq![NEWLINE]) {
        Some(k) => {
            lemma_newline_end(o, k as int);
            lemma_first_stop_unique(inb, marker(), true, k as int);
            assert(inb.take(k as int) =~= o.take(k as int));
            assert(!ends_with(inb.take(k as int), marker())) by {
                if ends_with(o.take(k as int), marker()) {
                    assert(occurs_in(o, marker()));
                }
            }
            assert(inb.take(k - 1) =~= o.take(k - 1));
            let o2 = o.skip(k as int);
            assert(inb.skip(k as int) =~= o2 + marker() + rest);
            assert(!occurs_in(o2, marker())) by {
                if occurs_in(o2, marker()) {
                    let j = choose|j: int| 0 <= j <= o2.len() && #[trigger] ends_with(o2.take(j), marker());
                    assert(o.take(k + j).subrange(k + j - 4, k + j) =~= o2.take(j).subrange(j - 4, j));
                    assert(ends_with(o.take(k + j), marker()));
                    assert(occurs_in(o, marker()));
                }
            }
        },
        None => {
            let n = o.len() + 4;
            assert forall|j: int| 0 <= j < n implies !stops_at(inb, marker(), true, j) by {
                if j > o.len() {
                    assert(inb[j - 1] == marker()[j - 1 - o.len()]);
                }
            }
            lemma_first_stop_unique(inb, marker(), true, n as int);
            assert(inb.take(n - 4) =~= o);
            assert(inb.skip(n as int) =~= rest);
        },
    }
}

/// Streaming a command's output `o` (in which the marker does not occur) line
/// by line hands out exactly the lines of `o`, in order and the last one
/// included even when empty, then sends the directory query: the same step
/// that buffering takes with `o` as the output. So the lines joined with
/// newlines are what the buffered run returns.
pub proof fn lemma_pretty_lines(m: SessionModel, o: Seq<u8>, rest: Seq<u8>)
    requires
        m.phase == Phase::Output,
        m.pretty,
        m.inbox == o + marker() + rest,
        !occurs_in(o, marker()),
    ensures
        forall|i: int|
            0 <= i < split_lines(o).len() ==> #[trigger] run(m, (i + 1) as nat).1 == Reply::Line(
                split_lines(o)[i],
            ),
        run(m, split_lines(o).len()).0 == asking(SessionModel { inbox: rest, ..m }, Query::Cwd),
        join_lines(split_lines(o)) == o,
        step(SessionModel { pretty: false, ..m }) == (
            asking(SessionModel { output: o, inbox: rest, pretty: false, ..m }, Query::Cwd),
            Reply::<Seq<u8>>::Progress,
        ),
    decreases o.len(),
{
    lemma_join_split(o);
    lemma_step_output(SessionModel { pretty: false, ..m }, o, rest);
    lemma_pretty_step(m, o, rest);
    reveal_with_fuel(run, 2);
    match frame_end(o, seq![NEWLINE]) {
        Some(k) => {
            let o2 = o.skip(k as int);
            let m1 = step(m).0;
            lemma_pretty_lines(m1, o2, rest);
            lemma_join_split(o2);
            let ls = split_lines(o);
            let n2 = split_lines(o2).len();
            assert(ls == seq![o.take(k - 1)] + split_lines(o2));
            assert forall|i: int| 0 <= i < ls.len() implies #[trigger] run(m, (i + 1) as nat).1
                == Reply::Line(ls[i]) by {
                if i >= 1 {
                    lemma_run_shift(m, i as nat);
                    assert(run(m1, ((i - 1) + 1) as nat).1 == Reply::Line(split_lines(o2)[i - 1]));
                }
            }
            lemma_run_shift(m, n2);
            assert(SessionModel { inbox: rest, ..m1 } == SessionModel { inbox: rest, ..m });
        },
        None => {},
    }
}

} // verus!
