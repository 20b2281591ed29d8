//! The caller-facing operations that wait on the peer: active open, active
//! close and data transfer. Each is split into a start and a poll; whoever
//! drives them sleeps between polls and sends what they hand back.
use vstd::prelude::*;
use crate::error::TcpError;
use crate::segment::{ACK, FIN, SYN};
use crate::socket::{
    random_in_range, Outgoing, RecvParam, Socket, SocketView, TcpStatus, TCP_INIT_WINDOW,
};
use crate::tcp::{key_of, sock_key, SockId, TCPManager};

verus! {

broadcast use vstd::std_specs::hash::group_hash_axioms;

/// How many times a SYN is sent again before `connect` gives up.
pub const HS_RETRY_LIMIT: u32 = 3;
/// How many times a FIN is sent again before `disconnect` gives up.
pub const FIN_RETRY_LIMIT: u32 = 3;
/// How many times a chunk of data is sent again before `send` gives up.
pub const SEND_RETRY_LIMIT: u32 = 3;
/// How many polls must find the record in TimeWait before it is closed.
pub const TIMEWAIT_POLLS: u32 = 2;
/// Maximum segment size: the largest payload of one data segment.
pub const MSS: usize = 1460;
/// Local ports for active opens are drawn from `[EPHEMERAL_LOW, EPHEMERAL_HIGH)`.
pub const EPHEMERAL_LOW: u16 = 50000;
pub const EPHEMERAL_HIGH: u16 = 65000;

/// Milliseconds between two polls of a handshake.
pub const HS_INTERVAL_MS: u64 = 1000;
/// Milliseconds between two polls of a close.
pub const FIN_INTERVAL_MS: u64 = 1000;
/// Milliseconds to wait for the acknowledgment of a chunk.
pub const SEND_WAIT_MS: u64 = 200;
/// Milliseconds between two looks at the backlog.
pub const ACCEPT_POLL_MS: u64 = 20;
/// Milliseconds between two looks at a receive buffer.
pub const READ_POLL_MS: u64 = 10;

/// What a poll decides.
#[derive(Clone, Copy, Debug, PartialEq, Eq, Structural)]
pub enum Decision {
    /// The awaited state was reached.
    Finish,
    /// Send again and poll later.
    Retry,
    /// Wait for the next poll without sending.
    Wait,
    /// The retry ceiling is exceeded.
    GiveUp,
}

/// A handshake poll: done once the record is established; otherwise the SYN
/// goes out again while fewer than `limit` retries were made.
pub open spec fn handshake_decision(status: TcpStatus, retries: u32, limit: u32) -> Decision {
    if status == TcpStatus::Established {
        Decision::Finish
    } else if retries >= limit {
        Decision::GiveUp
    } else {
        Decision::Retry
    }
}

/// How many SYNs the polls send again when the record stays in `status`
/// from retry count `retries` on.
pub open spec fn resent_syns(status: TcpStatus, retries: u32, limit: u32) -> nat
    decreases limit - retries,
{
    if handshake_decision(status, retries, limit) == Decision::Retry && retries < limit {
        1 + resent_syns(status, (retries + 1) as u32, limit)
    } else {
        0
    }
}

/// Against a peer that never answers (the record stays in SynSent), the
/// polls send the SYN again exactly `limit` times and then give up, so with
/// the first SYN `limit + 1` SYNs leave, one per poll interval.
pub proof fn lemma_silent_peer_syns(limit: u32)
    ensures
        1 + resent_syns(TcpStatus::SynSent, 0, limit) == limit + 1,
        handshake_decision(TcpStatus::SynSent, limit, limit) == Decision::GiveUp,
        forall|i: u32|
            i < limit ==> #[trigger] handshake_decision(TcpStatus::SynSent, i, limit)
                == Decision::Retry,
{
    lemma_resent_syns_from(limit, 0);
}

proof fn lemma_resent_syns_from(limit: u32, retries: u32)
    requires
        retries <= limit,
    ensures
        resent_syns(TcpStatus::SynSent, retries, limit) == limit - retries,
    decreases limit - retries,
{
    if retries < limit {
        lemma_resent_syns_from(limit, (retries + 1) as u32);
    }
}

/// A close poll: TimeWait seen on `TIMEWAIT_POLLS` polls closes; TimeWait
/// seen fewer times waits; any other status sends the FIN again while fewer
/// than `limit` retries were made.
pub open spec fn teardown_decision(status: TcpStatus, retries: u32, timewait_seen: u32, limit: u32) -> Decision {
    if status == TcpStatus::TimeWait {
        if timewait_seen + 1 >= TIMEWAIT_POLLS {
            Decision::Finish
        } else {
            Decision::Wait
        }
    } else if retries >= limit {
        Decision::GiveUp
    } else {
        Decision::Retry
    }
}

/// The progress of one active close.
#[derive(Clone, Copy, Debug, PartialEq, Eq, Structural)]
pub struct Teardown {
    pub retries: u32,
    pub timewait_seen: u32,
}

impl Teardown {
    pub fn new() -> (r: Teardown)
        ensures
            r.retries == 0 && r.timewait_seen == 0,
    {
        Teardown { retries: 0, timewait_seen: 0 }
    }
}

/// The `i`-th chunk of a payload of `len` bytes cut into pieces of `cap` bytes.
pub open spec fn chunk_bounds(len: int, cap: int, i: int) -> (int, int) {
    (i * cap, if (i + 1) * cap < len {
        (i + 1) * cap
    } else {
        len
    })
}

pub open spec fn ceil_div(len: int, cap: int) -> int {
    (len + cap - 1) / cap
}

/// The chunks `bounds(0)`, `bounds(1)`, ... of a payload of `len` bytes.
pub open spec fn is_chunking(r: Seq<(usize, usize)>, len: int, cap: int) -> bool {
    &&& r.len() == ceil_div(len, cap)
    &&& forall|i: int|
        0 <= i < r.len() ==> (#[trigger] r[i].0 as int, r[i].1 as int) == chunk_bounds(len, cap, i)
}

proof fn lemma_ceil_div(len: int, cap: int, n: int)
    requires
        cap > 0,
        len >= 0,
        n >= 0,
        len <= n * cap,
        n == 0 || (n - 1) * cap < len,
    ensures
        n == ceil_div(len, cap),
{
    if n == 0 {
        assert(len == 0) by (nonlinear_arith)
            requires
                len <= n * cap,
                n == 0,
                len >= 0,
        ;
        assert((cap - 1) / cap == 0) by (nonlinear_arith)
            requires
                cap > 0,
        ;
    } else {
        assert(n * cap <= len + cap - 1 < (n + 1) * cap) by (nonlinear_arith)
            requires
                len <= n * cap,
                (n - 1) * cap < len,
                cap > 0,
        ;
        lemma_div_between(len + cap - 1, cap, n);
    }
}

proof fn lemma_div_between(x: int, d: int, q: int)
    requires
        d > 0,
        q * d <= x < (q + 1) * d,
    ensures
        x / d == q,
{
    vstd::arithmetic::div_mod::lemma_fundamental_div_mod(x, d);
    let q0 = x / d;
    let r0 = x % d;
    assert(0 <= r0 < d);
    assert(x == d * q0 + r0);
    if q0 < q {
        assert(q0 + 1 <= q);
        assert(d * (q0 + 1) <= d * q) by (nonlinear_arith)
            requires
                q0 + 1 <= q,
                d > 0,
        ;
        assert(false) by (nonlinear_arith)
            requires
                x == d * q0 + r0,
                r0 < d,
                d * (q0 + 1) <= d * q,
                q * d <= x,
        ;
    } else if q0 > q {
        assert(d * (q + 1) <= d * q0) by (nonlinear_arith)
            requires
                q + 1 <= q0,
                d > 0,
        ;
        assert(false) by (nonlinear_arith)
            requires
                x == d * q0 + r0,
                r0 >= 0,
                d * (q + 1) <= d * q0,
                x < (q + 1) * d,
        ;
    }
}

/// Cuts a payload of `len` bytes into consecutive chunks of at most `cap`
/// bytes: `ceil(len / cap)` of them, the `i`-th covering
/// `[i * cap, min((i + 1) * cap, len))`.
pub fn segment_bounds(len: usize, cap: usize) -> (r: Vec<(usize, usize)>)
    requires
        cap > 0,
    ensures
        is_chunking(r@, len as int, cap as int),
{
    let mut r: Vec<(usize, usize)> = Vec::new();
    let mut lo: usize = 0;
    assert(r@.len() * cap == 0) by (nonlinear_arith)
        requires
            r@.len() == 0,
    ;
    while lo < len
        invariant
            cap > 0,
            lo <= len,
            lo < len ==> lo as int == r@.len() * cap,
            lo as int <= r@.len() * cap,
            r@.len() == 0 || (r@.len() - 1) * cap < lo,
            r@.len() == 0 ==> lo == 0,
            forall|i: int|
                0 <= i < r@.len() ==> (#[trigger] r@[i].0 as int, r@[i].1 as int) == chunk_bounds(
                    len as int,
                    cap as int,
                    i,
                ),
        decreases len - lo,
    {
        let hi: usize = if len - lo > cap {
            lo + cap
        } else {
            len
        };
        let ghost n = r@.len() as int;
        proof {
            assert((n + 1) * cap == n * cap + cap) by (nonlinear_arith);
        }
        r.push((lo, hi));
        lo = hi;
        proof {
            assert((n + 1) * cap == n * cap + cap) by (nonlinear_arith);
            assert(((n + 1) - 1) * cap == n * cap) by (nonlinear_arith);
        }
    }
    proof {
        lemma_ceil_div(len as int, cap as int, r@.len() as int);
    }
    r
}

/// The chunks of `is_chunking` cover the payload in order: the first starts
/// at 0, each starts where the one before it ends, each holds between 1 and
/// `cap` bytes, and the last ends at `len`.
pub proof fn lemma_chunks_cover(r: Seq<(usize, usize)>, len: int, cap: int)
    requires
        cap > 0,
        len >= 0,
        is_chunking(r, len, cap),
    ensures
        len == 0 <==> r.len() == 0,
        r.len() > 0 ==> r[0].0 == 0 && r[r.len() - 1].1 == len,
        forall|i: int| 0 <= i < r.len() ==> 0 < #[trigger] r[i].1 - r[i].0 <= cap,
        forall|i: int| 0 <= i < r.len() - 1 ==> #[trigger] r[i].1 == r[i + 1].0,
{
    let n = r.len() as int;
    if len == 0 {
        assert((cap - 1) / cap == 0) by (nonlinear_arith)
            requires
                cap > 0,
        ;
    } else {
        assert(ceil_div(len, cap) >= 1) by (nonlinear_arith)
            requires
                len >= 1,
                cap > 0,
        ;
        assert((n - 1) * cap < len) by {
            lemma_ceil_bounds(len, cap);
        }
        assert(r[n - 1].0 as int == (n - 1) * cap);
        lemma_ceil_bounds(len, cap);
    }
    assert forall|i: int| 0 <= i < r.len() implies 0 < #[trigger] r[i].1 - r[i].0 <= cap by {
        lemma_ceil_bounds(len, cap);
        assert(i * cap < len) by (nonlinear_arith)
            requires
                0 <= i <= n - 1,
                (n - 1) * cap < len,
                cap > 0,
        ;
        assert((i + 1) * cap == i * cap + cap) by (nonlinear_arith);
    }
    assert forall|i: int| 0 <= i < r.len() - 1 implies #[trigger] r[i].1 == r[i + 1].0 by {
        lemma_ceil_bounds(len, cap);
        assert((i + 1) * cap < len) by (nonlinear_arith)
            requires
                0 <= i + 1 <= n - 1,
                (n - 1) * cap < len,
                cap > 0,
        ;
    }
}

/// `ceil_div(len, cap)` chunks of `cap` reach `len`, and one fewer falls short.
proof fn lemma_ceil_bounds(len: int, cap: int)
    requires
        cap > 0,
        len >= 0,
    ensures
        len <= ceil_div(len, cap) * cap,
        ceil_div(len, cap) == 0 || (ceil_div(len, cap) - 1) * cap < len,
        ceil_div(len, cap) >= 0,
{
    let x = len + cap - 1;
    vstd::arithmetic::div_mod::lemma_fundamental_div_mod(x, cap);
    let q = x / cap;
    let rr = x % cap;
    assert(0 <= rr < cap);
    assert(x == cap * q + rr);
    assert(q >= 0) by (nonlinear_arith)
        requires
            x == cap * q + rr,
            rr < cap,
            x >= cap - 1,
            cap > 0,
    ;
    assert(len <= q * cap) by (nonlinear_arith)
        requires
            x == cap * q + rr,
            rr <= cap - 1,
            x == len + cap - 1,
    ;
    assert(q == 0 || (q - 1) * cap < len) by (nonlinear_arith)
        requires
            x == cap * q + rr,
            rr >= 0,
            x == len + cap - 1,
    ;
}

/// A delivery poll after a chunk went out: done once everything sent is
/// acknowledged; otherwise the chunk goes out again while fewer than `limit`
/// retries were made.
pub open spec fn delivery_decision(acked: bool, retries: u32, limit: u32) -> Decision {
    if acked {
        Decision::Finish
    } else if retries >= limit {
        Decision::GiveUp
    } else {
        Decision::Retry
    }
}

/// What a poll hands back to its driver.
pub enum Step {
    /// The operation is complete.
    Done,
    /// Nothing to send; poll again after the interval.
    Pending,
    /// Send this segment, then poll again after the interval.
    Send(Outgoing),
}

/// The progress of one data transfer: its chunks, the chunk in flight and
/// how often it was sent again.
pub struct Transfer {
    pub stream_id: SockId,
    pub chunks: Vec<(usize, usize)>,
    pub next_chunk: usize,
    pub retries: u32,
}

impl Transfer {
    /// The chunks lie within a payload of `len` bytes and fit in one segment.
    pub open spec fn wf_for(&self, len: int) -> bool {
        &&& self.next_chunk <= self.chunks@.len()
        &&& forall|i: int|
            0 <= i < self.chunks@.len() ==> {
                &&& #[trigger] self.chunks@[i].0 <= self.chunks@[i].1
                &&& self.chunks@[i].1 <= len
                &&& self.chunks@[i].1 - self.chunks@[i].0 <= MSS
            }
    }

    /// Whether every chunk has been delivered.
    pub fn is_done(&self) -> (r: bool)
        ensures
            r == (self.next_chunk >= self.chunks@.len()),
    {
        self.next_chunk >= self.chunks.len()
    }
}

/// The record that `connect` registers: a drawn local port, the peer given,
/// a drawn initial sequence number, nothing received, status SynSent.
pub open spec fn opening_record(s: SocketView, my_ip: u32, addr: u32, port: u16) -> bool {
    &&& s.src_addr == my_ip
    &&& s.dst_addr == Some(addr)
    &&& s.dst_port == Some(port)
    &&& EPHEMERAL_LOW <= s.src_port < EPHEMERAL_HIGH
    &&& s.status == TcpStatus::SynSent
    &&& s.send_param.una == s.send_param.iss
    &&& s.send_param.next == s.send_param.iss
    &&& s.send_param.window == TCP_INIT_WINDOW
    &&& s.recv_param == (RecvParam { next: 0, window: 0, irs: 0 })
    &&& s.buffer == Seq::<u8>::empty()
}

/// The segment cap of a transfer: the peer's window, at most `MSS`.
pub open spec fn segment_cap(window: u16) -> int {
    if (window as int) < MSS {
        window as int
    } else {
        MSS as int
    }
}

impl TCPManager {
    /// Starts an active open to (`addr`, `port`): registers a new record under
    /// that identifier and hands back the identifier and the first SYN. The
    /// record is in SynSent; `connect_poll` follows the handshake.
    pub fn connect(&mut self, addr: u32, port: u16) -> (r: (SockId, Outgoing))
        requires
            old(self).wf(),
        ensures
            final(self).wf(),
            final(self).my_ip == old(self).my_ip,
            final(self).backlog@ == old(self).backlog@,
            r.0 == (addr, port),
            final(self).table() == old(self).table().insert(key_of(r.0), final(self).sock(r.0)),
            opening_record(final(self).sock(r.0), old(self).my_ip, addr, port),
            r.1@ == final(self).sock(r.0).segment(SYN, Seq::empty()),
    {
        let my_port = random_in_range(EPHEMERAL_LOW, EPHEMERAL_HIGH);
        let mut socket = Socket::initialize(
            self.my_ip,
            Some(addr),
            my_port,
            Some(port),
            TcpStatus::Closed,
        );
        let syn = match socket.send_tcp_packet(SYN, None) {
            Some(o) => o,
            None => Outgoing { dst_addr: addr, bytes: Vec::new() },
        };
        socket.status = TcpStatus::SynSent;
        let id: SockId = (addr, port);
        self.put(id, socket);
        (id, syn)
    }

    /// One poll of a handshake on `stream_id` after `retries` SYNs were sent
    /// again: `Done` once the record is established, the SYN to send again
    /// while the retry ceiling allows, else `HandshakeTimeout`. The record
    /// stays registered when the handshake fails.
    pub fn connect_poll(&mut self, stream_id: SockId, retries: u32) -> (r: Result<Step, TcpError>)
        requires
            old(self).wf(),
        ensures
            final(self).wf(),
            final(self).my_ip == old(self).my_ip,
            final(self).backlog@ == old(self).backlog@,
            !old(self).has(stream_id) ==> r == Err::<Step, TcpError>(TcpError::UnknownStream)
                && final(self).table() == old(self).table(),
            old(self).has(stream_id) ==> {
                let s = old(self).sock(stream_id);
                match handshake_decision(s.status, retries, HS_RETRY_LIMIT) {
                    Decision::Finish => (r matches Ok(Step::Done)) && final(self).table() == old(self).table(),
                    Decision::GiveUp => r == Err::<Step, TcpError>(TcpError::HandshakeTimeout)
                        && final(self).table() == old(self).table(),
                    _ => if s.has_peer() {
                        &&& r matches Ok(Step::Send(o)) && o@ == s.segment(SYN, Seq::empty())
                        &&& final(self).table() == old(self).table().insert(
                            key_of(stream_id),
                            s.after_send(0),
                        )
                    } else {
                        r == Err::<Step, TcpError>(TcpError::NotEstablished) && final(self).table() == old(self).table()
                    },
                }
            },
    {
        let mut socket = match self.take(stream_id) {
            Some(s) => s,
            None => {
                proof {
                    assert(self.connections@ =~= old(self).connections@);
                }
                return Err(TcpError::UnknownStream);
            },
        };
        proof {
            assert(self.connections@.insert(key_of(stream_id), socket) =~= old(self).connections@);
        }
        if socket.status == TcpStatus::Established {
            self.put(stream_id, socket);
            return Ok(Step::Done);
        }
        if retries >= HS_RETRY_LIMIT {
            self.put(stream_id, socket);
            return Err(TcpError::HandshakeTimeout);
        }
        let sent = socket.send_tcp_packet(SYN, None);
        self.put(stream_id, socket);
        match sent {
            Some(o) => Ok(Step::Send(o)),
            None => Err(TcpError::NotEstablished),
        }
    }

    /// Starts an active close of `stream_id`, which must be established:
    /// hands back the FIN+ACK to send and moves the record to FinWait1;
    /// `disconnect_poll` follows the close.
    pub fn disconnect(&mut self, stream_id: SockId) -> (r: Result<Outgoing, TcpError>)
        requires
            old(self).wf(),
        ensures
            final(self).wf(),
            final(self).my_ip == old(self).my_ip,
            final(self).backlog@ == old(self).backlog@,
            match r {
                Ok(o) => {
                    let s = old(self).sock(stream_id);
                    &&& old(self).has(stream_id) && s.status == TcpStatus::Established
                    &&& o@ == s.segment(FIN | ACK, Seq::empty())
                    &&& final(self).table() == old(self).table().insert(
                        key_of(stream_id),
                        s.after_send(0).with_status(TcpStatus::FinWait1),
                    )
                },
                Err(e) => final(self).table() == old(self).table() && if !old(self).has(
                    stream_id,
                ) {
                    e == TcpError::UnknownStream
                } else {
                    e == TcpError::NotEstablished && old(self).sock(stream_id).status
                        != TcpStatus::Established
                },
            },
    {
        let mut socket = match self.take(stream_id) {
            Some(s) => s,
            None => {
                proof {
                    assert(self.connections@ =~= old(self).connections@);
                }
                return Err(TcpError::UnknownStream);
            },
        };
        proof {
            assert(self.connections@.insert(key_of(stream_id), socket) =~= old(self).connections@);
        }
        if socket.status != TcpStatus::Established {
            self.put(stream_id, socket);
            return Err(TcpError::NotEstablished);
        }
        assert((1u16 | 16u16) == 17u16) by (bit_vector);
        let sent = socket.send_tcp_packet(FIN | ACK, None);
        socket.status = TcpStatus::FinWait1;
        self.put(stream_id, socket);
        match sent {
            Some(o) => Ok(o),
            None => Err(TcpError::NotEstablished),
        }
    }

    /// One poll of an active close. A record seen in TimeWait on
    /// `TIMEWAIT_POLLS` polls is closed and removed from the table (`Done`);
    /// seen there fewer times, the poll only counts it (`Pending`). In any
    /// other status the FIN goes out again while the retry ceiling allows,
    /// else `TeardownTimeout`.
    pub fn disconnect_poll(&mut self, stream_id: SockId, progress: &mut Teardown) -> (r: Result<
        Step,
        TcpError,
    >)
        requires
            old(self).wf(),
        ensures
            final(self).wf(),
            final(self).my_ip == old(self).my_ip,
            final(self).backlog@ == old(self).backlog@,
            !old(self).has(stream_id) ==> r == Err::<Step, TcpError>(TcpError::UnknownStream)
                && final(self).table() == old(self).table() && *final(progress) == *old(progress),
            old(self).has(stream_id) ==> {
                let s = old(self).sock(stream_id);
                match teardown_decision(
                    s.status,
                    old(progress).retries,
                    old(progress).timewait_seen,
                    FIN_RETRY_LIMIT,
                ) {
                    Decision::Finish => {
                        &&& r matches Ok(Step::Done)
                        &&& final(self).table() == old(self).table().remove(key_of(stream_id))
                        &&& *final(progress) == *old(progress)
                    },
                    Decision::Wait => {
                        &&& r matches Ok(Step::Pending)
                        &&& final(self).table() == old(self).table()
                        &&& final(progress).retries == old(progress).retries
                        &&& final(progress).timewait_seen == old(progress).timewait_seen + 1
                    },
                    Decision::GiveUp => {
                        &&& r == Err::<Step, TcpError>(TcpError::TeardownTimeout)
                        &&& final(self).table() == old(self).table()
                        &&& *final(progress) == *old(progress)
                    },
                    Decision::Retry => if s.has_peer() {
                        &&& r matches Ok(Step::Send(o)) && o@ == s.segment(FIN, Seq::empty())
                        &&& final(self).table() == old(self).table().insert(
                            key_of(stream_id),
                            s.after_send(0),
                        )
                        &&& final(progress).retries == old(progress).retries + 1
                        &&& final(progress).timewait_seen == old(progress).timewait_seen
                    } else {
                        &&& r == Err::<Step, TcpError>(TcpError::NotEstablished)
                        &&& final(self).table() == old(self).table()
                        &&& *final(progress) == *old(progress)
                    },
                }
            },
    {
        let mut socket = match self.take(stream_id) {
            Some(s) => s,
            None => {
                proof {
                    assert(self.connections@ =~= old(self).connections@);
                }
                return Err(TcpError::UnknownStream);
            },
        };
        proof {
            assert(self.connections@.insert(key_of(stream_id), socket) =~= old(self).connections@);
        }
        if socket.status == TcpStatus::TimeWait {
            if progress.timewait_seen >= TIMEWAIT_POLLS - 1 {
                proof {
                    assert(self.table() =~= old(self).table().remove(key_of(stream_id)));
                }
                return Ok(Step::Done);
            }
            progress.timewait_seen = progress.timewait_seen + 1;
            self.put(stream_id, socket);
            return Ok(Step::Pending);
        }
        if progress.retries >= FIN_RETRY_LIMIT {
            self.put(stream_id, socket);
            return Err(TcpError::TeardownTimeout);
        }
        let sent = socket.send_tcp_packet(FIN, None);
        self.put(stream_id, socket);
        match sent {
            Some(o) => {
                progress.retries = progress.retries + 1;
                Ok(Step::Send(o))
            },
            None => Err(TcpError::NotEstablished),
        }
    }

    /// Starts sending `payload` on `stream_id`, which must be established:
    /// the payload is cut into chunks of at most `min(peer window, MSS)`
    /// bytes, sent in order by `send_segment` and confirmed one at a time by
    /// `confirm_delivery`. A peer that advertises a zero window can take no
    /// data, so a non-empty payload then fails at once with `SendTimeout`.
    pub fn send(&self, stream_id: SockId, payload: &[u8]) -> (r: Result<Transfer, TcpError>)
        ensures
            !self.has(stream_id) ==> r == Err::<Transfer, TcpError>(TcpError::UnknownStream),
            self.has(stream_id) && self.sock(stream_id).status != TcpStatus::Established ==> r
                == Err::<Transfer, TcpError>(TcpError::NotEstablished),
            self.has(stream_id) && self.sock(stream_id).status == TcpStatus::Established ==> {
                let cap = segment_cap(self.sock(stream_id).recv_param.window);
                if cap == 0 && payload@.len() > 0 {
                    r == Err::<Transfer, TcpError>(TcpError::SendTimeout)
                } else {
                    &&& r matches Ok(t)
                    &&& t.stream_id == stream_id
                    &&& t.next_chunk == 0
                    &&& t.retries == 0
                    &&& t.wf_for(payload@.len() as int)
                    &&& if payload@.len() == 0 {
                        t.chunks@.len() == 0
                    } else {
                        is_chunking(t.chunks@, payload@.len() as int, cap)
                    }
                }
            },
    {
        let k = sock_key(stream_id);
        let socket = match self.connections.get(&k) {
            Some(s) => s,
            None => return Err(TcpError::UnknownStream),
        };
        if socket.status != TcpStatus::Established {
            return Err(TcpError::NotEstablished);
        }
        let window = socket.recv_param.window as usize;
        let cap: usize = if window < MSS {
            window
        } else {
            MSS
        };
        let chunks = if payload.len() == 0 {
            Vec::new()
        } else if cap == 0 {
            return Err(TcpError::SendTimeout);
        } else {
            let c = segment_bounds(payload.len(), cap);
            proof {
                lemma_chunks_cover(c@, payload@.len() as int, cap as int);
            }
            c
        };
        Ok(Transfer { stream_id, chunks, next_chunk: 0, retries: 0 })
    }

    /// Sends the chunk in flight of `job` as an ACK segment carrying those
    /// bytes of `payload`; `Done` once every chunk is delivered.
    pub fn send_segment(&mut self, job: &Transfer, payload: &[u8]) -> (r: Result<Step, TcpError>)
        requires
            old(self).wf(),
            job.wf_for(payload@.len() as int),
        ensures
            final(self).wf(),
            final(self).my_ip == old(self).my_ip,
            final(self).backlog@ == old(self).backlog@,
            job.next_chunk >= job.chunks@.len() ==> (r matches Ok(Step::Done)) && final(self).table()
                == old(self).table(),
            job.next_chunk < job.chunks@.len() && !old(self).has(job.stream_id) ==> r
                == Err::<Step, TcpError>(TcpError::UnknownStream) && final(self).table() == old(self).table(),
            job.next_chunk < job.chunks@.len() && old(self).has(job.stream_id) ==> {
                let s = old(self).sock(job.stream_id);
                let (lo, hi) = job.chunks@[job.next_chunk as int];
                if s.has_peer() {
                    &&& r matches Ok(Step::Send(o)) && o@ == s.segment(
                        ACK,
                        payload@.subrange(lo as int, hi as int),
                    )
                    &&& final(self).table() == old(self).table().insert(
                        key_of(job.stream_id),
                        s.after_send((hi - lo) as u32),
                    )
                } else {
                    r == Err::<Step, TcpError>(TcpError::NotEstablished) && final(self).table()
                        == old(self).table()
                }
            },
    {
        if job.next_chunk >= job.chunks.len() {
            return Ok(Step::Done);
        }
        let (lo, hi) = job.chunks[job.next_chunk];
        let mut socket = match self.take(job.stream_id) {
            Some(s) => s,
            None => {
                proof {
                    assert(self.connections@ =~= old(self).connections@);
                }
                return Err(TcpError::UnknownStream);
            },
        };
        proof {
            assert(self.connections@.insert(key_of(job.stream_id), socket) =~= old(self).connections@);
        }
        let chunk: &[u8] = &payload[lo..hi];
        let sent = socket.send_tcp_packet(ACK, Some(chunk));
        self.put(job.stream_id, socket);
        match sent {
            Some(o) => Ok(Step::Send(o)),
            None => Err(TcpError::NotEstablished),
        }
    }

    /// After the wait that follows `send_segment`: if everything sent on the
    /// connection is acknowledged (`una == next`), the next chunk becomes the
    /// one in flight; otherwise the same chunk is retried while the retry
    /// ceiling allows, else `SendTimeout`.
    pub fn confirm_delivery(&self, job: &mut Transfer) -> (r: Result<(), TcpError>)
        ensures
            final(job).stream_id == old(job).stream_id,
            final(job).chunks@ == old(job).chunks@,
            old(job).next_chunk >= old(job).chunks@.len() ==> r is Ok && final(job).next_chunk
                == old(job).next_chunk && final(job).retries == old(job).retries,
            old(job).next_chunk < old(job).chunks@.len() && !self.has(old(job).stream_id) ==> r
                == Err::<(), TcpError>(TcpError::UnknownStream) && final(job).next_chunk == old(job).next_chunk && final(job).retries == old(job).retries,
            old(job).next_chunk < old(job).chunks@.len() && self.has(old(job).stream_id) ==> {
                let s = self.sock(old(job).stream_id);
                match delivery_decision(
                    s.send_param.una == s.send_param.next,
                    old(job).retries,
                    SEND_RETRY_LIMIT,
                ) {
                    Decision::Finish => r is Ok && final(job).next_chunk == old(job).next_chunk + 1
                        && final(job).retries == 0,
                    Decision::GiveUp => r == Err::<(), TcpError>(TcpError::SendTimeout) && final(job).next_chunk == old(job).next_chunk && final(job).retries == old(job).retries,
                    _ => r is Ok && final(job).next_chunk == old(job).next_chunk && final(job).retries == old(job).retries + 1,
                }
            },
    {
        if job.next_chunk >= job.chunks.len() {
            return Ok(());
        }
        let k = sock_key(job.stream_id);
        let socket = match self.connections.get(&k) {
            Some(s) => s,
            None => return Err(TcpError::UnknownStream),
        };
        if socket.send_param.una == socket.send_param.next {
            job.next_chunk = job.next_chunk + 1;
            job.retries = 0;
            Ok(())
        } else if job.retries >= SEND_RETRY_LIMIT {
            Err(TcpError::SendTimeout)
        } else {
            job.retries = job.retries + 1;
            Ok(())
        }
    }
}

} // verus!
