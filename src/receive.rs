//! One step of the receive loop: route an inbound segment to its record,
//! validate it, and run the state machine on it.
use vstd::prelude::*;
use crate::error::TcpError;
use crate::segment::{
    checksum_matches, has_flag, parse_segment, parse_spec, Segment, TcpHeader, MAX_SEGMENT_LEN, SYN,
};
use crate::socket::{outs_view, Outgoing, RecvParam, SocketView, TcpStatus};
use crate::state::{dispatched, Emitted};
use crate::tcp::{key_of, sock_key, wildcard, SockId, TCPManager, UNDEFINED_ADDR, UNDEFINED_PORT};
use crate::util::{is_correct_checksum, is_valid_seq_num, seq_acceptable};

verus! {

broadcast use vstd::std_specs::hash::group_hash_axioms;

/// Whether the listening record `l` takes a segment with header `h` from
/// `src_addr` for which no record of that peer exists: a SYN while it listens,
/// or the segments of the one handshake it has pending. Either way the segment
/// must be addressed to its port.
pub open spec fn wildcard_takes(l: SocketView, h: TcpHeader, src_addr: u32) -> bool {
    &&& l.src_port == h.dst_port
    &&& {
        ||| l.status == TcpStatus::Listen && has_flag(h.flags, SYN)
        ||| l.status == TcpStatus::SynRecv && l.dst_addr == Some(src_addr) && l.dst_port == Some(
            h.src_port,
        )
    }
}

/// The record that a segment with header `h` from `src_addr` goes to: the
/// record of that peer if there is one, else the listening record if it takes
/// the segment.
pub open spec fn route(m: TCPManager, h: TcpHeader, src_addr: u32) -> Option<SockId> {
    if m.has((src_addr, h.src_port)) {
        Some((src_addr, h.src_port))
    } else if m.has(wildcard()) && wildcard_takes(m.sock(wildcard()), h, src_addr) {
        Some(wildcard())
    } else {
        None
    }
}

/// Why the bytes `b` from `src_addr` are discarded, if they are.
pub open spec fn rejection(m: TCPManager, b: Seq<u8>, src_addr: u32) -> Option<TcpError> {
    if b.len() > MAX_SEGMENT_LEN {
        Some(TcpError::MalformedSegment)
    } else {
        match parse_spec(b) {
            None => Some(TcpError::MalformedSegment),
            Some((h, p)) => match route(m, h, src_addr) {
                None => Some(TcpError::UnknownStream),
                Some(id) => if !checksum_matches(b, src_addr, m.my_ip) {
                    Some(TcpError::ChecksumMismatch)
                } else if !seq_acceptable(m.sock(id).recv_param.next, h.seq) {
                    Some(TcpError::InvalidSequence)
                } else {
                    None
                },
            },
        }
    }
}

pub open spec fn with_recv_window(s: SocketView, window: u16) -> SocketView {
    SocketView { recv_param: RecvParam { window, ..s.recv_param }, ..s }
}

/// `table2` and `backlog2` are those of `m` after the segment of header `h`
/// and payload `p` from `src_addr` went through the state table on the record
/// of `id`, which it turned into `s2`, emitting `out` and handing over
/// `spawned`. The record then takes the window the segment advertises; a
/// spawned record is registered under the peer and queued for `accept`.
pub open spec fn applied(
    m: TCPManager,
    id: SockId,
    h: TcpHeader,
    p: Seq<u8>,
    src_addr: u32,
    s2: SocketView,
    out: Emitted,
    spawned: Option<SocketView>,
    table2: Map<u64, SocketView>,
    backlog2: Seq<SockId>,
) -> bool {
    let peer: SockId = (src_addr, h.src_port);
    let t = m.table().insert(key_of(id), with_recv_window(s2, h.window));
    &&& dispatched(m.sock(id), h, p, src_addr, s2, out, spawned)
    &&& match spawned {
        None => table2 == t && backlog2 == m.backlog@,
        Some(n) => table2 == t.insert(key_of(peer), n) && backlog2 == m.backlog@.push(peer),
    }
}

/// The segment of header `h` and payload `p` from `src_addr`, handed to the
/// record of `id`, took `m` to `table2` and `backlog2` and emitted `out`, by
/// some row of the state table.
pub open spec fn delivered(
    m: TCPManager,
    id: SockId,
    h: TcpHeader,
    p: Seq<u8>,
    src_addr: u32,
    out: Emitted,
    table2: Map<u64, SocketView>,
    backlog2: Seq<SockId>,
) -> bool {
    exists|s2: SocketView, spawned: Option<SocketView>| #[trigger]
        applied(m, id, h, p, src_addr, s2, out, spawned, table2, backlog2)
}

/// The bytes `b` from `src_addr` passed every check and were delivered to
/// the record they route to.
pub open spec fn accepted(
    m: TCPManager,
    b: Seq<u8>,
    src_addr: u32,
    out: Emitted,
    table2: Map<u64, SocketView>,
    backlog2: Seq<SockId>,
) -> bool {
    let h = parse_spec(b)->Some_0.0;
    let p = parse_spec(b)->Some_0.1;
    delivered(m, route(m, h, src_addr)->Some_0, h, p, src_addr, out, table2, backlog2)
}

/// A segment whose checksum field differs from the checksum recomputed for
/// it is discarded as such, whatever record it would reach.
pub proof fn lemma_bad_checksum_discarded(m: TCPManager, b: Seq<u8>, src_addr: u32)
    requires
        b.len() <= MAX_SEGMENT_LEN,
        parse_spec(b) is Some,
        route(m, parse_spec(b)->Some_0.0, src_addr) is Some,
        !checksum_matches(b, src_addr, m.my_ip),
    ensures
        rejection(m, b, src_addr) == Some(TcpError::ChecksumMismatch),
{
}

impl TCPManager {
    fn route(&self, h: &TcpHeader, src_addr: u32) -> (r: Option<SockId>)
        ensures
            r == route(*self, *h, src_addr),
    {
        let peer: SockId = (src_addr, h.src_port);
        if self.connections.contains_key(&sock_key(peer)) {
            return Some(peer);
        }
        let w: SockId = (UNDEFINED_ADDR, UNDEFINED_PORT);
        match self.connections.get(&sock_key(w)) {
            Some(l) => {
                if l.src_port != h.dst_port {
                    return None;
                }
                let takes_syn = l.status == TcpStatus::Listen && h.flags & SYN > 0;
                let pending = match (l.dst_addr, l.dst_port) {
                    (Some(a), Some(p)) => l.status == TcpStatus::SynRecv && a == src_addr && p
                        == h.src_port,
                    _ => false,
                };
                if takes_syn || pending {
                    Some(w)
                } else {
                    None
                }
            },
            None => None,
        }
    }

    /// Takes one segment `segment` that arrived from `src_addr`. A segment is
    /// discarded, with the table and backlog untouched, when it is malformed,
    /// no record takes it, its checksum does not match, or its sequence number
    /// fails the acceptance policy; the error says which. Otherwise its record
    /// goes through the state table, and the segments to send come back.
    pub fn recv_handler(&mut self, segment: &[u8], src_addr: u32) -> (r: Result<
        Vec<Outgoing>,
        TcpError,
    >)
        requires
            old(self).wf(),
        ensures
            final(self).wf(),
            final(self).my_ip == old(self).my_ip,
            r matches Err(e) ==> rejection(*old(self), segment@, src_addr) == Some(e)
                && final(self).same_state(old(self)),
            r matches Ok(out) ==> rejection(*old(self), segment@, src_addr) is None
                && accepted(
                *old(self),
                segment@,
                src_addr,
                outs_view(out@),
                final(self).table(),
                final(self).backlog@,
            ),
    {
        if segment.len() > MAX_SEGMENT_LEN {
            return Err(TcpError::MalformedSegment);
        }
        let packet = match parse_segment(segment) {
            Some(p) => p,
            None => return Err(TcpError::MalformedSegment),
        };
        let h = packet.header;
        let id = match self.route(&h, src_addr) {
            Some(id) => id,
            None => return Err(TcpError::UnknownStream),
        };
        if !is_correct_checksum(segment, src_addr, self.my_ip) {
            return Err(TcpError::ChecksumMismatch);
        }
        let ghost m0 = *self;
        let k = sock_key(id);
        let valid = match self.connections.get(&k) {
            Some(socket) => is_valid_seq_num(socket, &packet),
            None => false,
        };
        if !valid {
            return Err(TcpError::InvalidSequence);
        }
        let out = self.deliver(id, &packet, src_addr);
        proof {
            let (ph, pp) = parse_spec(segment@)->Some_0;
            assert(ph == h && pp == packet.payload@);
            assert(route(m0, h, src_addr) == Some(id));
        }
        Ok(out)
    }

    /// Hands an accepted segment to the record of `id`: runs the state table
    /// on it, lets it take the window that the segment advertises, and
    /// registers a record that a completed handshake hands over under its
    /// peer, queued for `accept`. The segments to send come back.
    pub fn deliver(&mut self, id: SockId, packet: &Segment, src_addr: u32) -> (r: Vec<Outgoing>)
        requires
            old(self).wf(),
            old(self).has(id),
            packet.payload@.len() <= MAX_SEGMENT_LEN,
        ensures
            final(self).wf(),
            final(self).my_ip == old(self).my_ip,
            delivered(
                *old(self),
                id,
                packet.header,
                packet.payload@,
                src_addr,
                outs_view(r@),
                final(self).table(),
                final(self).backlog@,
            ),
    {
        let h = packet.header;
        let ghost m0 = *self;
        let mut socket = match self.take(id) {
            Some(s) => s,
            None => return Vec::new(),
        };
        let (out, spawned) = self.dispatch(packet, &mut socket, src_addr);
        let ghost s2 = socket@;
        let ghost sp = crate::state::opt_view(spawned);
        socket.recv_param.window = h.window;
        proof {
            assert(socket@ == with_recv_window(s2, h.window));
        }
        self.put(id, socket);
        proof {
            assert(self.table() =~= m0.table().insert(key_of(id), with_recv_window(s2, h.window)));
        }
        match spawned {
            Some(n) => {
                let peer: SockId = (src_addr, h.src_port);
                self.put(peer, n);
                self.backlog.push_back(peer);
            },
            None => {},
        }
        assert(applied(m0, id, h, packet.payload@, src_addr, s2, outs_view(out@), sp, self.table(), self.backlog@));
        out
    }
}

} // verus!
