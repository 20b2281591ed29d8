//! The connection record: addressing, sequence bookkeeping, status and the
//! inbound byte buffer of one connection.
use vstd::prelude::*;
use crate::segment::{sealed, TcpHeader, HEADER_LEN, MAX_SEGMENT_LEN};

verus! {

/// Window advertised to the peer by every new connection.
pub const TCP_INIT_WINDOW: u16 = 1460;

/// The largest payload that one outgoing segment may carry.
pub const MAX_PAYLOAD_LEN: usize = MAX_SEGMENT_LEN - HEADER_LEN;

/// Send-side sequence state.
#[derive(Clone, Copy, Debug, PartialEq, Eq, Structural)]
pub struct SendParam {
    /// Oldest sequence number not yet acknowledged.
    pub una: u32,
    /// Next sequence number to send.
    pub next: u32,
    /// Window advertised in outgoing segments.
    pub window: u16,
    /// Initial send sequence number, drawn when the record is made.
    pub iss: u32,
}

/// Receive-side sequence state.
#[derive(Clone, Copy, Debug, PartialEq, Eq, Structural)]
pub struct RecvParam {
    /// Next sequence number expected from the peer.
    pub next: u32,
    /// Window that the peer last advertised.
    pub window: u16,
    /// Initial receive sequence number, learned from the peer's SYN.
    pub irs: u32,
}

#[derive(Clone, Copy, Debug, PartialEq, Eq, Structural)]
pub enum TcpStatus {
    Listen,
    SynSent,
    SynRecv,
    Established,
    FinWait1,
    FinWait2,
    Closing,
    LastAck,
    TimeWait,
    Closed,
}

pub open spec fn status_name(s: TcpStatus) -> Seq<char> {
    match s {
        TcpStatus::Listen => "LISTEN"@,
        TcpStatus::SynSent => "SYNSENT"@,
        TcpStatus::SynRecv => "SYNRECV"@,
        TcpStatus::Established => "ESTABLISHED"@,
        TcpStatus::FinWait1 => "FINWAIT1"@,
        TcpStatus::FinWait2 => "FINWAIT2"@,
        TcpStatus::Closing => "CLOSING"@,
        TcpStatus::LastAck => "LASTACK"@,
        TcpStatus::TimeWait => "TIMEWAIT"@,
        TcpStatus::Closed => "CLOSED"@,
    }
}

impl TcpStatus {
    /// The upper-case name of the status, as logs print it.
    pub fn name(&self) -> (r: &'static str)
        ensures
            r@ == status_name(*self),
    {
        match self {
            TcpStatus::Listen => "LISTEN",
            TcpStatus::SynSent => "SYNSENT",
            TcpStatus::SynRecv => "SYNRECV",
            TcpStatus::Established => "ESTABLISHED",
            TcpStatus::FinWait1 => "FINWAIT1",
            TcpStatus::FinWait2 => "FINWAIT2",
            TcpStatus::Closing => "CLOSING",
            TcpStatus::LastAck => "LASTACK",
            TcpStatus::TimeWait => "TIMEWAIT",
            TcpStatus::Closed => "CLOSED",
        }
    }
}

/// One connection. Addresses are IPv4 addresses written as big-endian `u32`.
pub struct Socket {
    pub src_addr: u32,
    pub dst_addr: Option<u32>,
    pub src_port: u16,
    pub dst_port: Option<u16>,
    pub send_param: SendParam,
    pub recv_param: RecvParam,
    pub status: TcpStatus,
    pub buffer: Vec<u8>,
}

/// What a `Socket` holds, its buffer as a sequence.
pub struct SocketView {
    pub src_addr: u32,
    pub dst_addr: Option<u32>,
    pub src_port: u16,
    pub dst_port: Option<u16>,
    pub send_param: SendParam,
    pub recv_param: RecvParam,
    pub status: TcpStatus,
    pub buffer: Seq<u8>,
}

impl View for Socket {
    type V = SocketView;

    open spec fn view(&self) -> SocketView {
        SocketView {
            src_addr: self.src_addr,
            dst_addr: self.dst_addr,
            src_port: self.src_port,
            dst_port: self.dst_port,
            send_param: self.send_param,
            recv_param: self.recv_param,
            status: self.status,
            buffer: self.buffer@,
        }
    }
}

/// A finished segment and the address it goes to.
pub struct Outgoing {
    pub dst_addr: u32,
    pub bytes: Vec<u8>,
}

impl View for Outgoing {
    type V = (u32, Seq<u8>);

    open spec fn view(&self) -> (u32, Seq<u8>) {
        (self.dst_addr, self.bytes@)
    }
}

/// The views of a list of outgoing segments.
pub open spec fn outs_view(out: Seq<Outgoing>) -> Seq<(u32, Seq<u8>)> {
    out.map_values(|o: Outgoing| o@)
}

impl SocketView {
    /// Only a listening record may lack its peer.
    pub open spec fn wf(self) -> bool {
        self.status != TcpStatus::Listen ==> (self.dst_addr is Some && self.dst_port is Some)
    }

    pub open spec fn has_peer(self) -> bool {
        self.dst_addr is Some && self.dst_port is Some
    }

    /// The header that this record sends with `flags`: its unacknowledged
    /// sequence number, the next number it expects, and its own window.
    pub open spec fn header(self, flags: u16) -> TcpHeader {
        TcpHeader {
            src_port: self.src_port,
            dst_port: self.dst_port->Some_0,
            seq: self.send_param.una,
            ack: self.recv_param.next,
            flags,
            window: self.send_param.window,
            checksum: 0,
        }
    }

    /// The segment that this record sends with `flags` and `payload`.
    pub open spec fn segment(self, flags: u16, payload: Seq<u8>) -> (u32, Seq<u8>) {
        (
            self.dst_addr->Some_0,
            sealed(self.header(flags), payload, self.src_addr, self.dst_addr->Some_0),
        )
    }

    /// The record after sending `len` bytes: `next` is `una + len`, modulo 2^32.
    pub open spec fn after_send(self, len: u32) -> SocketView {
        SocketView { send_param: SendParam { next: self.send_param.una.wrapping_add(len), ..self.send_param }, ..self }
    }

    pub open spec fn with_status(self, status: TcpStatus) -> SocketView {
        SocketView { status, ..self }
    }
}

/// Relies on `rand::random::<u32>`: any value may come back.
#[verifier::external_body]
fn random_u32() -> u32 {
    rand::random::<u32>()
}

/// Relies on `rand::Rng::gen_range` of the thread-local generator: a value in
/// `[low, high)`; an empty range would panic.
#[verifier::external_body]
pub(crate) fn random_in_range(low: u16, high: u16) -> (r: u16)
    requires
        low < high,
    ensures
        low <= r < high,
{
    rand::Rng::gen_range(&mut rand::thread_rng(), low..high)
}

impl Socket {
    /// A new record with a freshly drawn initial send sequence number:
    /// nothing is unacknowledged yet, and nothing has been received.
    pub fn initialize(
        my_ip: u32,
        dst_addr: Option<u32>,
        my_port: u16,
        dst_port: Option<u16>,
        status: TcpStatus,
    ) -> (r: Socket)
        ensures
            r.src_addr == my_ip,
            r.dst_addr == dst_addr,
            r.src_port == my_port,
            r.dst_port == dst_port,
            r.status == status,
            r.send_param.una == r.send_param.iss,
            r.send_param.next == r.send_param.iss,
            r.send_param.window == TCP_INIT_WINDOW,
            r.recv_param == (RecvParam { next: 0, window: 0, irs: 0 }),
            r.buffer@ == Seq::<u8>::empty(),
    {
        let initial_seq = random_u32();
        Socket {
            src_addr: my_ip,
            dst_addr,
            src_port: my_port,
            dst_port,
            send_param: SendParam {
                una: initial_seq,
                next: initial_seq,
                window: TCP_INIT_WINDOW,
                iss: initial_seq,
            },
            recv_param: RecvParam { next: 0, window: 0, irs: 0 },
            status,
            buffer: Vec::new(),
        }
    }

    /// An established record for the peer (`dst_ip`, `dst_port`), its
    /// sequence state taken over from a handshake.
    pub fn create_established(
        my_ip: u32,
        dst_ip: u32,
        my_port: u16,
        dst_port: u16,
        send_param: &SendParam,
        recv_param: &RecvParam,
    ) -> (r: Socket)
        ensures
            r@ == (SocketView {
                src_addr: my_ip,
                dst_addr: Some(dst_ip),
                src_port: my_port,
                dst_port: Some(dst_port),
                send_param: *send_param,
                recv_param: *recv_param,
                status: TcpStatus::Established,
                buffer: Seq::empty(),
            }),
    {
        Socket {
            src_addr: my_ip,
            dst_addr: Some(dst_ip),
            src_port: my_port,
            dst_port: Some(dst_port),
            send_param: *send_param,
            recv_param: *recv_param,
            status: TcpStatus::Established,
            buffer: Vec::new(),
        }
    }

    /// Builds the segment that carries `flag` and the payload, if any, to the
    /// peer, and sets `next` past the payload. A record without a peer sends
    /// nothing and stays as it is.
    pub fn send_tcp_packet(&mut self, flag: u16, payload: Option<&[u8]>) -> (r: Option<Outgoing>)
        requires
            flag < 512,
            match payload {
                Some(p) => p@.len() <= MAX_PAYLOAD_LEN,
                None => true,
            },
        ensures
            match r {
                Some(o) => {
                    let data = match payload {
                        Some(p) => p@,
                        None => Seq::<u8>::empty(),
                    };
                    &&& old(self)@.has_peer()
                    &&& o@ == old(self)@.segment(flag, data)
                    &&& final(self)@ == old(self)@.after_send(data.len() as u32)
                },
                None => !old(self)@.has_peer() && final(self)@ == old(self)@,
            },
    {
        let (dst_addr, dst_port) = match (self.dst_addr, self.dst_port) {
            (Some(a), Some(p)) => (a, p),
            _ => return None,
        };
        let header = TcpHeader {
            src_port: self.src_port,
            dst_port,
            seq: self.send_param.una,
            ack: self.recv_param.next,
            flags: flag,
            window: self.send_param.window,
            checksum: 0,
        };
        let empty: Vec<u8> = Vec::new();
        let data: &[u8] = match payload {
            Some(p) => p,
            None => empty.as_slice(),
        };
        let bytes = crate::segment::build_segment(&header, data, self.src_addr, dst_addr);
        self.send_param.next = self.send_param.una.wrapping_add(data.len() as u32);
        Some(Outgoing { dst_addr, bytes })
    }
}

} // verus!
