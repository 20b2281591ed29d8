//! The TCP state machine: what a record does with one inbound segment in
//! each status, stated as spec functions and carried out by one handler per
//! status.
use vstd::prelude::*;
use crate::segment::{has_flag, Segment, TcpHeader, ACK, FIN, MAX_SEGMENT_LEN, SYN};
use crate::socket::{outs_view, Outgoing, RecvParam, SendParam, Socket, SocketView, TcpStatus};
use crate::tcp::{fresh_listener, TCPManager};

verus! {

pub type Emitted = Seq<(u32, Seq<u8>)>;

/// Listen, on SYN: record the peer, expect `seq + 1`, answer SYN+ACK, go to SynRecv.
pub open spec fn on_listen(s: SocketView, h: TcpHeader, src_addr: u32) -> (SocketView, Emitted) {
    if has_flag(h.flags, SYN) {
        let s1 = SocketView {
            status: TcpStatus::SynRecv,
            dst_port: Some(h.src_port),
            dst_addr: Some(src_addr),
            recv_param: RecvParam {
                irs: h.seq.wrapping_add(1),
                next: h.seq.wrapping_add(1),
                ..s.recv_param
            },
            ..s
        };
        (s1.after_send(0), seq![s1.segment(SYN | ACK, Seq::empty())])
    } else {
        (s, seq![])
    }
}

/// SynRecv, on ACK: the established record that the handshake produces for
/// the peer, its sequence state taken from the listening record and the ACK.
pub open spec fn spawned_from(s: SocketView, h: TcpHeader, src_addr: u32) -> SocketView {
    SocketView {
        src_addr: s.src_addr,
        dst_addr: Some(src_addr),
        src_port: s.src_port,
        dst_port: Some(h.src_port),
        send_param: SendParam { una: h.ack, ..s.send_param },
        recv_param: RecvParam { next: h.seq, ..s.recv_param },
        status: TcpStatus::Established,
        buffer: Seq::empty(),
    }
}

/// SynSent, on SYN (with or without ACK): expect `seq + 1`, take the ACK
/// number as unacknowledged, answer ACK; Established if ACK was set, else SynRecv.
pub open spec fn on_syn_sent(s: SocketView, h: TcpHeader) -> (SocketView, Emitted) {
    if has_flag(h.flags, SYN) {
        let s1 = SocketView {
            status: if has_flag(h.flags, ACK) {
                TcpStatus::Established
            } else {
                TcpStatus::SynRecv
            },
            recv_param: RecvParam {
                irs: h.seq.wrapping_add(1),
                next: h.seq.wrapping_add(1),
                ..s.recv_param
            },
            send_param: SendParam { una: h.ack, ..s.send_param },
            ..s
        };
        (s1.after_send(0), seq![s1.segment(ACK, Seq::empty())])
    } else {
        (s, seq![])
    }
}

/// Established. On FIN: expect `seq + len + 1`, answer ACK and then FIN+ACK,
/// go to LastAck. Otherwise: append the payload, expect `seq + len`, take the
/// ACK number as unacknowledged, and answer ACK when the payload is not empty.
pub open spec fn on_established(s: SocketView, h: TcpHeader, payload: Seq<u8>) -> (
    SocketView,
    Emitted,
) {
    if has_flag(h.flags, FIN) {
        let s1 = SocketView {
            recv_param: RecvParam {
                next: h.seq.wrapping_add(payload.len() as u32).wrapping_add(1),
                ..s.recv_param
            },
            send_param: SendParam { una: h.ack, ..s.send_param },
            ..s
        };
        let s2 = s1.after_send(0);
        (
            s2.after_send(0).with_status(TcpStatus::LastAck),
            seq![s1.segment(ACK, Seq::empty()), s2.segment(FIN | ACK, Seq::empty())],
        )
    } else {
        let s1 = SocketView {
            buffer: s.buffer + payload,
            recv_param: RecvParam {
                next: h.seq.wrapping_add(payload.len() as u32),
                ..s.recv_param
            },
            send_param: SendParam { una: h.ack, ..s.send_param },
            ..s
        };
        if payload.len() > 0 {
            (s1.after_send(0), seq![s1.segment(ACK, Seq::empty())])
        } else {
            (s1, seq![])
        }
    }
}

/// FinWait1 and FinWait2. On FIN: expect `seq + 1`, answer ACK, go to
/// TimeWait if ACK was set too, else Closing. FinWait1 on ACK alone: go to FinWait2.
pub open spec fn on_finwait(s: SocketView, h: TcpHeader) -> (SocketView, Emitted) {
    if has_flag(h.flags, FIN) {
        let s1 = SocketView {
            status: if has_flag(h.flags, ACK) {
                TcpStatus::TimeWait
            } else {
                TcpStatus::Closing
            },
            recv_param: RecvParam { next: h.seq.wrapping_add(1), ..s.recv_param },
            send_param: SendParam { una: h.ack, ..s.send_param },
            ..s
        };
        (s1.after_send(0), seq![s1.segment(ACK, Seq::empty())])
    } else if has_flag(h.flags, ACK) && s.status == TcpStatus::FinWait1 {
        (
            SocketView {
                status: TcpStatus::FinWait2,
                recv_param: RecvParam { next: h.seq, ..s.recv_param },
                send_param: SendParam { una: h.ack, ..s.send_param },
                ..s
            },
            seq![],
        )
    } else {
        (s, seq![])
    }
}

/// LastAck, on ACK: Closed.
pub open spec fn on_last_ack(s: SocketView, h: TcpHeader) -> (SocketView, Emitted) {
    if has_flag(h.flags, ACK) {
        (
            SocketView {
                status: TcpStatus::Closed,
                recv_param: RecvParam { next: h.seq, ..s.recv_param },
                send_param: SendParam { una: h.ack, ..s.send_param },
                ..s
            },
            seq![],
        )
    } else {
        (s, seq![])
    }
}

/// Whether the state table has a row for a segment with `flags` arriving in `status`.
pub open spec fn listed(status: TcpStatus, flags: u16) -> bool {
    match status {
        TcpStatus::Listen => has_flag(flags, SYN),
        TcpStatus::SynRecv => has_flag(flags, ACK),
        TcpStatus::SynSent => has_flag(flags, SYN),
        TcpStatus::Established => true,
        TcpStatus::FinWait1 => has_flag(flags, FIN) || has_flag(flags, ACK),
        TcpStatus::FinWait2 => has_flag(flags, FIN),
        TcpStatus::LastAck => has_flag(flags, ACK),
        _ => false,
    }
}

pub open spec fn opt_view(s: Option<Socket>) -> Option<SocketView> {
    match s {
        Some(x) => Some(x@),
        None => None,
    }
}

/// The whole state table: record `s` receives header `h` and `payload` from
/// `src_addr`, and becomes `s2`, emits `out` in that order, and hands over
/// `spawned`, a new record for the table. In SynRecv, on ACK, the listening
/// record is replaced by a fresh one, whose initial sequence number is drawn anew.
pub open spec fn dispatched(
    s: SocketView,
    h: TcpHeader,
    payload: Seq<u8>,
    src_addr: u32,
    s2: SocketView,
    out: Emitted,
    spawned: Option<SocketView>,
) -> bool {
    match s.status {
        TcpStatus::SynRecv => if has_flag(h.flags, ACK) {
            &&& spawned == Some(spawned_from(s, h, src_addr))
            &&& fresh_listener(s2, s.src_addr, s.src_port)
            &&& out == Seq::<(u32, Seq<u8>)>::empty()
        } else {
            s2 == s && out == Seq::<(u32, Seq<u8>)>::empty() && spawned is None
        },
        _ => {
            &&& spawned is None
            &&& (s2, out) == match s.status {
                TcpStatus::Listen => on_listen(s, h, src_addr),
                TcpStatus::SynSent => on_syn_sent(s, h),
                TcpStatus::Established => on_established(s, h, payload),
                TcpStatus::FinWait1 => on_finwait(s, h),
                TcpStatus::FinWait2 => on_finwait(s, h),
                TcpStatus::LastAck => on_last_ack(s, h),
                _ => (s, seq![]),
            }
        },
    }
}

/// A segment that the state table has no row for leaves the record as it is
/// and emits nothing.
pub proof fn lemma_unlisted_is_inert(
    s: SocketView,
    h: TcpHeader,
    payload: Seq<u8>,
    src_addr: u32,
    s2: SocketView,
    out: Emitted,
    spawned: Option<SocketView>,
)
    requires
        !listed(s.status, h.flags),
    ensures
        dispatched(s, h, payload, src_addr, s2, out, spawned) <==> (s2 == s && out == Seq::<(u32, Seq<u8>)>::empty()
            && spawned is None),
{
}

/// Every row of the table leaves a record that has its peer unless it listens.
pub proof fn lemma_dispatch_keeps_wf(
    s: SocketView,
    h: TcpHeader,
    payload: Seq<u8>,
    src_addr: u32,
    s2: SocketView,
    out: Emitted,
    spawned: Option<SocketView>,
)
    requires
        s.wf(),
        dispatched(s, h, payload, src_addr, s2, out, spawned),
    ensures
        s2.wf(),
        spawned matches Some(n) ==> n.wf(),
{
}

/// No row of the table rewrites the initial send sequence number of the
/// record it runs on; the one record that gets a new number is the fresh
/// listening record that replaces a listener whose handshake completed.
pub proof fn lemma_dispatch_keeps_iss(
    s: SocketView,
    h: TcpHeader,
    payload: Seq<u8>,
    src_addr: u32,
    s2: SocketView,
    out: Emitted,
    spawned: Option<SocketView>,
)
    requires
        dispatched(s, h, payload, src_addr, s2, out, spawned),
    ensures
        !(s.status == TcpStatus::SynRecv && has_flag(h.flags, ACK)) ==> s2.send_param.iss
            == s.send_param.iss,
        spawned matches Some(n) ==> n.send_param.iss == s.send_param.iss,
{
}

impl TCPManager {
    pub fn listen_state_handler(
        &self,
        recv_packet: &Segment,
        socket: &mut Socket,
        src_addr: u32,
    ) -> (r: Vec<Outgoing>)
        requires
            old(socket).status == TcpStatus::Listen,
        ensures
            (final(socket)@, outs_view(r@)) == on_listen(old(socket)@, recv_packet.header, src_addr),
    {
        let h = recv_packet.header;
        let mut out: Vec<Outgoing> = Vec::new();
        if h.flags & SYN > 0 {
            socket.status = TcpStatus::SynRecv;
            socket.dst_port = Some(h.src_port);
            socket.dst_addr = Some(src_addr);
            socket.recv_param.irs = h.seq.wrapping_add(1);
            socket.recv_param.next = h.seq.wrapping_add(1);
            let ghost s1 = socket@;
            assert((2u16 | 16u16) == 18u16) by (bit_vector);
            if let Some(o) = socket.send_tcp_packet(SYN | ACK, None) {
                out.push(o);
            }
            assert(outs_view(out@) =~= seq![s1.segment(SYN | ACK, Seq::empty())]);
        } else {
            assert(outs_view(out@) =~= seq![]);
        }
        out
    }

    pub fn syn_recv_state_handler(
        &self,
        recv_packet: &Segment,
        socket: &mut Socket,
        src_addr: u32,
    ) -> (r: Option<Socket>)
        requires
            old(socket).status == TcpStatus::SynRecv,
        ensures
            dispatched(
                old(socket)@,
                recv_packet.header,
                recv_packet.payload@,
                src_addr,
                final(socket)@,
                seq![],
                opt_view(r),
            ),
    {
        let h = recv_packet.header;
        if h.flags & ACK > 0 {
            let send_param = SendParam { una: h.ack, ..socket.send_param };
            let recv_param = RecvParam { next: h.seq, ..socket.recv_param };
            let new_socket = Socket::create_established(
                socket.src_addr,
                src_addr,
                socket.src_port,
                h.src_port,
                &send_param,
                &recv_param,
            );
            *socket = Socket::initialize(
                socket.src_addr,
                None,
                socket.src_port,
                None,
                TcpStatus::Listen,
            );
            Some(new_socket)
        } else {
            None
        }
    }

    pub fn syn_send_state_handler(&self, recv_packet: &Segment, socket: &mut Socket) -> (r: Vec<
        Outgoing,
    >)
        requires
            old(socket)@.wf(),
            old(socket).status == TcpStatus::SynSent,
        ensures
            (final(socket)@, outs_view(r@)) == on_syn_sent(old(socket)@, recv_packet.header),
    {
        let h = recv_packet.header;
        let mut out: Vec<Outgoing> = Vec::new();
        if h.flags & SYN > 0 {
            socket.status = if h.flags & ACK > 0 {
                TcpStatus::Established
            } else {
                TcpStatus::SynRecv
            };
            socket.recv_param.irs = h.seq.wrapping_add(1);
            socket.recv_param.next = h.seq.wrapping_add(1);
            socket.send_param.una = h.ack;
            let ghost s1 = socket@;
            if let Some(o) = socket.send_tcp_packet(ACK, None) {
                out.push(o);
            }
            assert(outs_view(out@) =~= seq![s1.segment(ACK, Seq::empty())]);
        } else {
            assert(outs_view(out@) =~= seq![]);
        }
        out
    }

    pub fn established_state_handler(&self, recv_packet: &Segment, socket: &mut Socket) -> (r:
        Vec<Outgoing>)
        requires
            old(socket)@.wf(),
            old(socket).status == TcpStatus::Established,
            recv_packet.payload@.len() <= MAX_SEGMENT_LEN,
        ensures
            (final(socket)@, outs_view(r@)) == on_established(
                old(socket)@,
                recv_packet.header,
                recv_packet.payload@,
            ),
    {
        let h = recv_packet.header;
        let payload_len = recv_packet.payload.len() as u32;
        let mut out: Vec<Outgoing> = Vec::new();
        if h.flags & FIN > 0 {
            socket.recv_param.next = h.seq.wrapping_add(payload_len).wrapping_add(1);
            socket.send_param.una = h.ack;
            let ghost s1 = socket@;
            if let Some(o) = socket.send_tcp_packet(ACK, None) {
                out.push(o);
            }
            let ghost s2 = socket@;
            assert((1u16 | 16u16) == 17u16) by (bit_vector);
            if let Some(o) = socket.send_tcp_packet(FIN | ACK, None) {
                out.push(o);
            }
            socket.status = TcpStatus::LastAck;
            assert(outs_view(out@) =~= seq![
                s1.segment(ACK, Seq::empty()),
                s2.segment(FIN | ACK, Seq::empty()),
            ]);
            return out;
        }
        let mut i: usize = 0;
        let ghost b0 = socket.buffer@;
        while i < recv_packet.payload.len()
            invariant
                i <= recv_packet.payload@.len(),
                socket.buffer@ == b0 + recv_packet.payload@.subrange(0, i as int),
                socket.status == old(socket).status,
                socket.src_addr == old(socket).src_addr,
                socket.dst_addr == old(socket).dst_addr,
                socket.src_port == old(socket).src_port,
                socket.dst_port == old(socket).dst_port,
                socket.send_param == old(socket).send_param,
                socket.recv_param == old(socket).recv_param,
            decreases recv_packet.payload@.len() - i,
        {
            socket.buffer.push(recv_packet.payload[i]);
            i = i + 1;
            assert(socket.buffer@ =~= b0 + recv_packet.payload@.subrange(0, i as int));
        }
        assert(recv_packet.payload@.subrange(0, recv_packet.payload@.len() as int)
            =~= recv_packet.payload@);
        socket.recv_param.next = h.seq.wrapping_add(payload_len);
        socket.send_param.una = h.ack;
        let ghost s1 = socket@;
        if recv_packet.payload.len() > 0 {
            if let Some(o) = socket.send_tcp_packet(ACK, None) {
                out.push(o);
            }
            assert(outs_view(out@) =~= seq![s1.segment(ACK, Seq::empty())]);
        } else {
            assert(outs_view(out@) =~= seq![]);
        }
        out
    }

    pub fn finwait_state_handler(&self, recv_packet: &Segment, socket: &mut Socket) -> (r: Vec<
        Outgoing,
    >)
        requires
            old(socket)@.wf(),
            old(socket).status == TcpStatus::FinWait1 || old(socket).status
                == TcpStatus::FinWait2,
        ensures
            (final(socket)@, outs_view(r@)) == on_finwait(old(socket)@, recv_packet.header),
    {
        let h = recv_packet.header;
        let mut out: Vec<Outgoing> = Vec::new();
        if h.flags & FIN > 0 {
            socket.status = TcpStatus::Closing;
            socket.recv_param.next = h.seq.wrapping_add(1);
            socket.send_param.una = h.ack;
            if h.flags & ACK > 0 {
                socket.status = TcpStatus::TimeWait;
            }
            let ghost s1 = socket@;
            if let Some(o) = socket.send_tcp_packet(ACK, None) {
                out.push(o);
            }
            assert(outs_view(out@) =~= seq![s1.segment(ACK, Seq::empty())]);
        } else if h.flags & ACK > 0 && socket.status == TcpStatus::FinWait1 {
            socket.status = TcpStatus::FinWait2;
            socket.recv_param.next = h.seq;
            socket.send_param.una = h.ack;
            assert(outs_view(out@) =~= seq![]);
        } else {
            assert(outs_view(out@) =~= seq![]);
        }
        out
    }

    pub fn lastack_state_handler(&self, recv_packet: &Segment, socket: &mut Socket)
        requires
            old(socket).status == TcpStatus::LastAck,
        ensures
            (final(socket)@, Seq::<(u32, Seq<u8>)>::empty()) == on_last_ack(old(socket)@, recv_packet.header),
    {
        let h = recv_packet.header;
        if h.flags & ACK > 0 {
            socket.status = TcpStatus::Closed;
            socket.recv_param.next = h.seq;
            socket.send_param.una = h.ack;
        }
    }

    /// Hands the segment to the handler of the record's status. Statuses
    /// without a handler (Closing, TimeWait, Closed) leave the record as it is.
    pub fn dispatch(&self, recv_packet: &Segment, socket: &mut Socket, src_addr: u32) -> (r: (
        Vec<Outgoing>,
        Option<Socket>,
    ))
        requires
            old(socket)@.wf(),
            recv_packet.payload@.len() <= MAX_SEGMENT_LEN,
        ensures
            dispatched(
                old(socket)@,
                recv_packet.header,
                recv_packet.payload@,
                src_addr,
                final(socket)@,
                outs_view(r.0@),
                opt_view(r.1),
            ),
            final(socket)@.wf(),
            r.1 matches Some(n) ==> n@.wf(),
    {
        let r = match socket.status {
            TcpStatus::Listen => (self.listen_state_handler(recv_packet, socket, src_addr), None),
            TcpStatus::SynRecv => {
                let spawned = self.syn_recv_state_handler(recv_packet, socket, src_addr);
                let out: Vec<Outgoing> = Vec::new();
                assert(outs_view(out@) =~= seq![]);
                (out, spawned)
            },
            TcpStatus::SynSent => (self.syn_send_state_handler(recv_packet, socket), None),
            TcpStatus::Established => (self.established_state_handler(recv_packet, socket), None),
            TcpStatus::FinWait1 | TcpStatus::FinWait2 => (
                self.finwait_state_handler(recv_packet, socket),
                None,
            ),
            TcpStatus::LastAck => {
                self.lastack_state_handler(recv_packet, socket);
                let out: Vec<Outgoing> = Vec::new();
                assert(outs_view(out@) =~= seq![]);
                (out, None)
            },
            _ => {
                let out: Vec<Outgoing> = Vec::new();
                assert(outs_view(out@) =~= seq![]);
                (out, None)
            },
        };
        proof {
            lemma_dispatch_keeps_wf(
                old(socket)@,
                recv_packet.header,
                recv_packet.payload@,
                src_addr,
                socket@,
                outs_view(r.0@),
                opt_view(r.1),
            );
        }
        r
    }
}

} // verus!
