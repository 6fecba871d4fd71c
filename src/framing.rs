//! Framed reading over a duplex byte stream.
//!
//! A [`Channel`] keeps the bytes that arrived from the peer and have not been
//! consumed yet (the inbox), and the bytes that are waiting to be written to
//! the peer (the outbox). Reading is done by frames: the shortest prefix of
//! the inbox that ends with a given pattern, or, in line mode, that ends with
//! a newline.

use vstd::prelude::*;

verus! {

/// The newline byte.
pub const NEWLINE: u8 = 0x0a;

/// `s` ends with `p`.
pub open spec fn ends_with(s: Seq<u8>, p: Seq<u8>) -> bool {
    p.len() <= s.len() && s.subrange(s.len() - p.len(), s.len() as int) == p
}

/// Reading may stop after the first `k` bytes of `s`: they end with `p`, or,
/// when `lines` is set, they end with a newline.
pub open spec fn stops_at(s: Seq<u8>, p: Seq<u8>, lines: bool, k: int) -> bool {
    0 <= k <= s.len() && (ends_with(s.take(k), p) || (lines && k > 0 && s[k - 1] == NEWLINE))
}

/// The first place at or after `k` where reading may stop.
pub open spec fn stop_from(s: Seq<u8>, p: Seq<u8>, lines: bool, k: nat) -> Option<nat>
    decreases s.len() + 1 - k,
{
    if k > s.len() {
        None
    } else if stops_at(s, p, lines, k as int) {
        Some(k)
    } else {
        stop_from(s, p, lines, k + 1)
    }
}

/// The length of the shortest prefix of `s` at which reading may stop.
pub open spec fn first_stop(s: Seq<u8>, p: Seq<u8>, lines: bool) -> Option<nat> {
    stop_from(s, p, lines, 0)
}

/// The length of the shortest prefix of `s` that ends with `p`.
pub open spec fn frame_end(s: Seq<u8>, p: Seq<u8>) -> Option<nat> {
    first_stop(s, p, false)
}

proof fn lemma_stop_from(s: Seq<u8>, p: Seq<u8>, lines: bool, k: nat)
    requires
        forall|j: int| 0 <= j < k ==> !stops_at(s, p, lines, j),
    ensures
        match stop_from(s, p, lines, k) {
            Some(m) => stops_at(s, p, lines, m as int) && forall|j: int|
                0 <= j < m ==> !stops_at(s, p, lines, j),
            None => forall|j: int| 0 <= j <= s.len() ==> !stops_at(s, p, lines, j),
        },
    decreases s.len() + 1 - k,
{
    if k <= s.len() && !stops_at(s, p, lines, k as int) {
        lemma_stop_from(s, p, lines, k + 1);
    }
}

/// `first_stop` is the least place where reading may stop, and there is none
/// when it is `None`.
pub proof fn lemma_first_stop(s: Seq<u8>, p: Seq<u8>, lines: bool)
    ensures
        match first_stop(s, p, lines) {
            Some(m) => stops_at(s, p, lines, m as int) && forall|j: int|
                0 <= j < m ==> !stops_at(s, p, lines, j),
            None => forall|j: int| 0 <= j <= s.len() ==> !stops_at(s, p, lines, j),
        },
{
    lemma_stop_from(s, p, lines, 0);
}

/// A least stopping place is the one that `first_stop` gives.
pub proof fn lemma_first_stop_unique(s: Seq<u8>, p: Seq<u8>, lines: bool, m: int)
    requires
        stops_at(s, p, lines, m),
        forall|j: int| 0 <= j < m ==> !stops_at(s, p, lines, j),
    ensures
        first_stop(s, p, lines) == Some(m as nat),
{
    lemma_first_stop(s, p, lines);
    match first_stop(s, p, lines) {
        Some(q) => {
            if q < m {
                assert(!stops_at(s, p, lines, q as int));
            } else if q > m {
                assert(!stops_at(s, p, lines, m));
            }
        },
        None => {
            assert(!stops_at(s, p, lines, m));
        },
    }
}

/// Whether reading may stop after the first `k` bytes depends on those bytes
/// alone, so more bytes arriving later never change it.
pub proof fn lemma_stops_at_extend(s: Seq<u8>, t: Seq<u8>, p: Seq<u8>, lines: bool, k: int)
    requires
        0 <= k <= s.len(),
    ensures
        stops_at(s + t, p, lines, k) == stops_at(s, p, lines, k),
{
    assert((s + t).take(k) =~= s.take(k));
    if k > 0 {
        assert((s + t)[k - 1] == s[k - 1]);
    }
}

/// What the channel holds: bytes received and not yet consumed, and bytes
/// waiting to be sent.
pub struct ChannelView {
    pub inbox: Seq<u8>,
    pub outbox: Seq<u8>,
}

/// One step of a line-by-line read up to a pattern.
pub enum Piece {
    /// Neither a complete line nor the pattern has arrived.
    Pending,
    /// A complete line, without its newline.
    Line(Vec<u8>),
    /// What came before the pattern on its line; the pattern itself is
    /// included when that was asked for.
    Last(Vec<u8>),
}

/// Framing state over one connection. The channel is owned by exactly one
/// session; the caller moves bytes between it and the socket.
pub struct Channel {
    inbox: Vec<u8>,
    outbox: Vec<u8>,
    /// Every place before `scanned` was checked, for `seeking` and `lines`,
    /// and reading may not stop there; a later search with the same pattern
    /// resumes from it.
    scanned: usize,
    seeking: Vec<u8>,
    lines: bool,
}

impl View for Channel {
    type V = ChannelView;

    closed spec fn view(&self) -> ChannelView {
        ChannelView { inbox: self.inbox@, outbox: self.outbox@ }
    }
}

/// Two byte strings are equal.
fn bytes_equal(a: &[u8], b: &[u8]) -> (r: bool)
    ensures
        r == (a@ == b@),
{
    if a.len() != b.len() {
        return false;
    }
    let mut i: usize = 0;
    while i < a.len()
        invariant
            a@.len() == b@.len(),
            i <= a@.len(),
            forall|j: int| 0 <= j < i ==> a@[j] == b@[j],
        decreases a.len() - i,
    {
        if a[i] != b[i] {
            return false;
        }
        i = i + 1;
    }
    assert(a@ =~= b@);
    true
}

/// The first `k` bytes of `s` end with `p`; only the last `p.len()` of them
/// are compared.
fn ends_with_at(s: &Vec<u8>, p: &[u8], k: usize) -> (r: bool)
    requires
        k <= s@.len(),
    ensures
        r == ends_with(s@.take(k as int), p@),
{
    if p.len() > k {
        return false;
    }
    let base: usize = k - p.len();
    let mut i: usize = 0;
    while i < p.len()
        invariant
            base + p@.len() == k,
            k <= s@.len(),
            i <= p@.len(),
            forall|j: int| 0 <= j < i ==> s@[base + j] == p@[j],
        decreases p.len() - i,
    {
        if s[base + i] != p[i] {
            assert(s@.take(k as int).subrange(base as int, k as int)[i as int] != p@[i as int]);
            return false;
        }
        i = i + 1;
    }
    assert(s@.take(k as int).subrange(base as int, k as int) =~= p@);
    true
}

impl Channel {
    pub closed spec fn wf(&self) -> bool {
        &&& self.scanned <= self.inbox@.len()
        &&& forall|j: int|
            0 <= j < self.scanned ==> !stops_at(self.inbox@, self.seeking@, self.lines, j)
    }

    /// An empty channel.
    pub fn new() -> (c: Channel)
        ensures
            c.wf(),
            c@.inbox == Seq::<u8>::empty(),
            c@.outbox == Seq::<u8>::empty(),
    {
        Channel { inbox: Vec::new(), outbox: Vec::new(), scanned: 0, seeking: Vec::new(), lines: false }
    }

    /// Bytes arrived from the peer.
    pub fn receive(&mut self, data: &[u8])
        requires
            old(self).wf(),
        ensures
            final(self).wf(),
            final(self)@.inbox == old(self)@.inbox + data@,
            final(self)@.outbox == old(self)@.outbox,
    {
        let ghost before = self.inbox@;
        let mut i: usize = 0;
        while i < data.len()
            invariant
                i <= data@.len(),
                self.inbox@ == before + data@.take(i as int),
                self.outbox@ == old(self)@.outbox,
                self.scanned <= before.len(),
                forall|j: int|
                    0 <= j < self.scanned ==> !stops_at(before, self.seeking@, self.lines, j),
            decreases data.len() - i,
        {
            self.inbox.push(data[i]);
            i = i + 1;
            assert(data@.take(i as int) =~= data@.take(i - 1) + seq![data@[i - 1]]);
        }
        assert(data@.take(data@.len() as int) =~= data@);
        assert forall|j: int| 0 <= j < self.scanned implies !stops_at(
            self.inbox@,
            self.seeking@,
            self.lines,
            j,
        ) by {
            if j <= before.len() {
                lemma_stops_at_extend(before, data@, self.seeking@, self.lines, j);
            }
        }
    }

    /// Queues `data` to be written to the peer.
    pub fn send(&mut self, data: &[u8])
        requires
            old(self).wf(),
        ensures
            final(self).wf(),
            final(self)@.inbox == old(self)@.inbox,
            final(self)@.outbox == old(self)@.outbox + data@,
    {
        let ghost before = self.outbox@;
        let mut i: usize = 0;
        while i < data.len()
            invariant
                i <= data@.len(),
                self.outbox@ == before + data@.take(i as int),
                self.wf(),
                self.inbox@ == old(self)@.inbox,
            decreases data.len() - i,
        {
            self.outbox.push(data[i]);
            i = i + 1;
            assert(data@.take(i as int) =~= data@.take(i - 1) + seq![data@[i - 1]]);
        }
        assert(data@.take(data@.len() as int) =~= data@);
    }

    /// Queues `data` followed by a newline.
    pub fn send_line(&mut self, data: &[u8])
        requires
            old(self).wf(),
        ensures
            final(self).wf(),
            final(self)@.inbox == old(self)@.inbox,
            final(self)@.outbox == old(self)@.outbox + data@ + seq![NEWLINE],
    {
        self.send(data);
        let nl: [u8; 1] = [NEWLINE];
        self.send(&nl);
        assert(nl@ =~= seq![NEWLINE]);
    }

    /// Hands out everything queued for the peer and empties the outbox.
    pub fn take_outgoing(&mut self) -> (r: Vec<u8>)
        requires
            old(self).wf(),
        ensures
            final(self).wf(),
            r@ == old(self)@.outbox,
            final(self)@.inbox == old(self)@.inbox,
            final(self)@.outbox == Seq::<u8>::empty(),
    {
        let mut r: Vec<u8> = Vec::new();
        std::mem::swap(&mut r, &mut self.outbox);
        r
    }

    /// The least place where reading may stop, searched from where an
    /// earlier search for the same pattern left off.
    fn scan(&mut self, p: &[u8], lines: bool) -> (r: Option<usize>)
        requires
            old(self).wf(),
        ensures
            final(self).wf(),
            final(self)@ == old(self)@,
            match r {
                Some(k) => first_stop(old(self)@.inbox, p@, lines) == Some(k as nat),
                None => first_stop(old(self)@.inbox, p@, lines) is None,
            },
    {
        if self.lines != lines || !bytes_equal(&self.seeking, p) {
            self.seeking = vstd::slice::slice_to_vec(p);
            self.lines = lines;
            self.scanned = 0;
        }
        let n = self.inbox.len();
        let mut k: usize = self.scanned;
        loop
            invariant
                n == self.inbox@.len(),
                self.seeking@ == p@,
                self.lines == lines,
                self@ == old(self)@,
                self.scanned <= k <= n,
                forall|j: int| 0 <= j < k ==> !stops_at(self.inbox@, p@, lines, j),
            ensures
                self@ == old(self)@,
                self.seeking@ == p@,
                self.lines == lines,
                forall|j: int| 0 <= j <= n ==> !stops_at(self.inbox@, p@, lines, j),
            decreases n - k,
        {
            let stop = ends_with_at(&self.inbox, p, k) || (lines && k > 0 && self.inbox[k - 1]
                == NEWLINE);
            if stop {
                self.scanned = k;
                proof {
                    lemma_first_stop_unique(self.inbox@, p@, lines, k as int);
                }
                return Some(k);
            }
            if k == n {
                break;
            }
            k = k + 1;
        }
        self.scanned = n;
        proof {
            lemma_first_stop(self.inbox@, p@, lines);
        }
        None
    }

    /// Removes the first `k` bytes of the inbox and returns them.
    fn consume(&mut self, k: usize) -> (r: Vec<u8>)
        requires
            old(self).wf(),
            k <= old(self)@.inbox.len(),
        ensures
            final(self).wf(),
            r@ == old(self)@.inbox.take(k as int),
            final(self)@.inbox == old(self)@.inbox.skip(k as int),
            final(self)@.outbox == old(self)@.outbox,
    {
        let mut head: Vec<u8> = Vec::new();
        let mut rest: Vec<u8> = Vec::new();
        let n = self.inbox.len();
        let mut i: usize = 0;
        while i < n
            invariant
                n == self.inbox@.len(),
                k <= n,
                i <= n,
                i <= k ==> head@ == self.inbox@.take(i as int) && rest@.len() == 0,
                i > k ==> head@ == self.inbox@.take(k as int) && rest@ == self.inbox@.subrange(
                    k as int,
                    i as int,
                ),
            decreases n - i,
        {
            if i < k {
                head.push(self.inbox[i]);
                assert(self.inbox@.take(i + 1) =~= self.inbox@.take(i as int) + seq![self.inbox@[i as int]]);
            } else {
                rest.push(self.inbox[i]);
                assert(self.inbox@.subrange(k as int, i + 1) =~= self.inbox@.subrange(k as int, i as int) + seq![self.inbox@[i as int]]);
            }
            i = i + 1;
        }
        if n <= k {
            assert(self.inbox@.skip(k as int) =~= Seq::<u8>::empty());
        } else {
            assert(self.inbox@.skip(k as int) =~= self.inbox@.subrange(k as int, n as int));
        }
        self.inbox = rest;
        self.scanned = 0;
        head
    }

    /// Takes the shortest prefix of the inbox that ends with `pattern`,
    /// pattern included. Returns `None`, with nothing consumed, while no such
    /// prefix has arrived.
    pub fn recv_until(&mut self, pattern: &[u8]) -> (r: Option<Vec<u8>>)
        requires
            old(self).wf(),
        ensures
            final(self).wf(),
            final(self)@.outbox == old(self)@.outbox,
            match r {
                Some(f) => {
                    &&& frame_end(old(self)@.inbox, pattern@) == Some(f@.len())
                    &&& f@ == old(self)@.inbox.take(f@.len() as int)
                    &&& final(self)@.inbox == old(self)@.inbox.skip(f@.len() as int)
                },
                None => {
                    &&& frame_end(old(self)@.inbox, pattern@) is None
                    &&& final(self)@.inbox == old(self)@.inbox
                },
            },
    {
        proof {
            lemma_first_stop(self@.inbox, pattern@, false);
        }
        match self.scan(pattern, false) {
            Some(k) => Some(self.consume(k)),
            None => None,
        }
    }

    /// Takes the next line of the inbox, without its newline, or `None`
    /// while no complete line has arrived.
    pub fn recv_line(&mut self) -> (r: Option<Vec<u8>>)
        requires
            old(self).wf(),
        ensures
            final(self).wf(),
            final(self)@.outbox == old(self)@.outbox,
            match r {
                Some(l) => {
                    &&& frame_end(old(self)@.inbox, seq![NEWLINE]) == Some(l@.len() + 1)
                    &&& l@ == old(self)@.inbox.take(l@.len() as int)
                    &&& final(self)@.inbox == old(self)@.inbox.skip(l@.len() as int + 1)
                },
                None => {
                    &&& frame_end(old(self)@.inbox, seq![NEWLINE]) is None
                    &&& final(self)@.inbox == old(self)@.inbox
                },
            },
    {
        let nl: [u8; 1] = [NEWLINE];
        assert(nl@ =~= seq![NEWLINE]);
        match self.recv_until(&nl) {
            Some(mut f) => {
                proof {
                    lemma_first_stop(old(self)@.inbox, seq![NEWLINE], false);
                }
                f.pop();
                assert(f@ =~= old(self)@.inbox.take(f@.len() as int));
                Some(f)
            },
            None => None,
        }
    }

    /// Reads line by line until `pattern`: hands out the next complete line,
    /// or, once the pattern has arrived, what precedes it on its line. The
    /// pattern wins where it ends at a newline.
    pub fn stream_until(&mut self, pattern: &[u8], keep_pattern: bool) -> (r: Piece)
        requires
            old(self).wf(),
        ensures
            final(self).wf(),
            final(self)@.outbox == old(self)@.outbox,
            match first_stop(old(self)@.inbox, pattern@, true) {
                None => r is Pending && final(self)@.inbox == old(self)@.inbox,
                Some(k) => {
                    &&& final(self)@.inbox == old(self)@.inbox.skip(k as int)
                    &&& if ends_with(old(self)@.inbox.take(k as int), pattern@) {
                        r matches Piece::Last(b) && b@ == if keep_pattern {
                            old(self)@.inbox.take(k as int)
                        } else {
                            old(self)@.inbox.take(k - pattern@.len())
                        }
                    } else {
                        r matches Piece::Line(b) && b@ == old(self)@.inbox.take(k - 1)
                    }
                },
            },
    {
        proof {
            lemma_first_stop(self@.inbox, pattern@, true);
        }
        match self.scan(pattern, true) {
            None => Piece::Pending,
            Some(k) => {
                let at_pattern = ends_with_at(&self.inbox, pattern, k);
                let mut head = self.consume(k);
                if at_pattern {
                    if !keep_pattern {
                        head.truncate(k - pattern.len());
                        assert(head@ =~= old(self)@.inbox.take(k - pattern@.len()));
                    }
                    Piece::Last(head)
                } else {
                    head.pop();
                    assert(head@ =~= old(self)@.inbox.take(k - 1));
                    Piece::Line(head)
                }
            },
        }
    }
}

/// The shortest prefix of `s` that ends with `p` is found alike whether `s`
/// arrives at once or in two reads split anywhere: a search on the first read
/// that finds a frame finds the one of the whole stream, and one that does
/// not leaves the search to the whole stream.
pub proof fn lemma_split_reads(s: Seq<u8>, p: Seq<u8>, i: int)
    requires
        0 <= i <= s.len(),
    ensures
        frame_end(s.take(i), p) is Some ==> frame_end(s.take(i), p) == frame_end(s, p),
{
    let a = s.take(i);
    let b = s.skip(i);
    assert(a + b =~= s);
    lemma_first_stop(a, p, false);
    match frame_end(a, p) {
        Some(k) => {
            assert forall|j: int| 0 <= j <= k implies stops_at(s, p, false, j) == stops_at(
                a,
                p,
                false,
                j,
            ) by {
                lemma_stops_at_extend(a, b, p, false, j);
            }
            lemma_first_stop_unique(s, p, false, k as int);
        },
        None => {},
    }
}

/// `p` occurs in `s`: some prefix of `s` ends with it.
pub open spec fn occurs_in(s: Seq<u8>, p: Seq<u8>) -> bool {
    exists|k: int| 0 <= k <= s.len() && #[trigger] ends_with(s.take(k), p)
}

/// A stream that starts with `p` has its first frame right after it.
pub proof fn lemma_frame_at_start(p: Seq<u8>, rest: Seq<u8>)
    ensures
        frame_end(p + rest, p) == Some(p.len()),
{
    let s = p + rest;
    assert(s.take(p.len() as int) =~= p);
    assert(s.take(p.len() as int).subrange(0, p.len() as int) =~= p);
    lemma_first_stop_unique(s, p, false, p.len() as int);
}

/// A stream `a + p + rest`, where `p` does not occur in `a` and the last
/// byte of `p` appears nowhere else in it, has its first frame right after
/// that `p`.
pub proof fn lemma_frame_after(a: Seq<u8>, p: Seq<u8>, rest: Seq<u8>)
    requires
        p.len() > 0,
        !occurs_in(a, p),
        forall|i: int| 0 <= i < p.len() - 1 ==> p[i] != p.last(),
    ensures
        frame_end(a + p + rest, p) == Some(a.len() + p.len()),
{
    let s = a + p + rest;
    let n = a.len() + p.len();
    assert(s.take(n as int) =~= a + p);
    assert(s.take(n as int).subrange(a.len() as int, n as int) =~= p);
    assert forall|j: int| 0 <= j < n implies !stops_at(s, p, false, j) by {
        if j <= a.len() {
            assert(s.take(j) =~= a.take(j));
            if ends_with(a.take(j), p) {
                assert(occurs_in(a, p));
            }
        } else if ends_with(s.take(j), p) {
            let t = s.take(j);
            assert(t.subrange(t.len() - p.len(), t.len() as int)[p.len() - 1] == t[j - 1]);
            assert(t[j - 1] == p[j - 1 - a.len()]);
        }
    }
    lemma_first_stop_unique(s, p, false, n as int);
}

} // verus!
