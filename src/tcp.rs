//! The connection table and the operations that callers issue on it.
use vstd::prelude::*;
use std::collections::{HashMap, VecDeque};
use crate::error::TcpError;
use crate::socket::{RecvParam, Socket, SocketView, TcpStatus, TCP_INIT_WINDOW};

verus! {

broadcast use vstd::std_specs::hash::group_hash_axioms;

/// A connection identifier: the peer's address and port. The pair of
/// `UNDEFINED_ADDR` and `UNDEFINED_PORT` names the listening record.
pub type SockId = (u32, u16);

pub const UNDEFINED_ADDR: u32 = 0;
pub const UNDEFINED_PORT: u16 = 0;

pub open spec fn wildcard() -> SockId {
    (UNDEFINED_ADDR, UNDEFINED_PORT)
}

/// The table key of a connection identifier.
pub open spec fn key_of(id: SockId) -> u64 {
    ((id.0 as int) * 65536 + (id.1 as int)) as u64
}

pub fn sock_key(id: SockId) -> (r: u64)
    ensures
        r == key_of(id),
{
    (id.0 as u64) * 65536 + (id.1 as u64)
}

/// A listening record as `listen` makes it: no peer, nothing sent or received.
pub open spec fn fresh_listener(s: SocketView, my_ip: u32, port: u16) -> bool {
    &&& s.src_addr == my_ip
    &&& s.dst_addr is None
    &&& s.src_port == port
    &&& s.dst_port is None
    &&& s.status == TcpStatus::Listen
    &&& s.send_param.una == s.send_param.iss
    &&& s.send_param.next == s.send_param.iss
    &&& s.send_param.window == TCP_INIT_WINDOW
    &&& s.recv_param == (RecvParam { next: 0, window: 0, irs: 0 })
    &&& s.buffer == Seq::<u8>::empty()
}

/// The registry of all connections of one local address, and the queue of
/// passively opened connections that wait for `accept`.
pub struct TCPManager {
    pub my_ip: u32,
    pub connections: HashMap<u64, Socket>,
    pub backlog: VecDeque<SockId>,
}

impl TCPManager {
    /// The table, each record seen through its view.
    pub open spec fn table(&self) -> Map<u64, SocketView> {
        self.connections@.map_values(|s: Socket| s@)
    }

    pub open spec fn has(&self, id: SockId) -> bool {
        self.connections@.contains_key(key_of(id))
    }

    pub open spec fn sock(&self, id: SockId) -> SocketView {
        self.connections@[key_of(id)]@
    }

    /// Every record in the table has its peer unless it is listening.
    pub open spec fn wf(&self) -> bool {
        forall|k: u64| #[trigger]
            self.connections@.contains_key(k) ==> self.connections@[k]@.wf()
    }

    /// The table and the backlog of `self` are those of `other`.
    pub open spec fn same_state(&self, other: &TCPManager) -> bool {
        &&& self.my_ip == other.my_ip
        &&& self.table() == other.table()
        &&& self.backlog@ == other.backlog@
    }

    /// An empty manager for the local address `my_ip`.
    pub fn new(my_ip: u32) -> (r: TCPManager)
        ensures
            r.wf(),
            r.my_ip == my_ip,
            r.table() == Map::<u64, SocketView>::empty(),
            r.backlog@ == Seq::<SockId>::empty(),
    {
        let r = TCPManager { my_ip, connections: HashMap::new(), backlog: VecDeque::new() };
        assert(r.table() =~= Map::<u64, SocketView>::empty());
        r
    }

    /// Takes the record of `id` out of the table.
    pub(crate) fn take(&mut self, id: SockId) -> (r: Option<Socket>)
        ensures
            final(self).my_ip == old(self).my_ip,
            final(self).backlog@ == old(self).backlog@,
            final(self).connections@ == old(self).connections@.remove(key_of(id)),
            match r {
                Some(s) => old(self).has(id) && s == old(self).connections@[key_of(id)],
                None => !old(self).has(id),
            },
    {
        let k = sock_key(id);
        self.connections.remove(&k)
    }

    /// Puts `s` in the table under `id`.
    pub(crate) fn put(&mut self, id: SockId, s: Socket)
        ensures
            final(self).my_ip == old(self).my_ip,
            final(self).backlog@ == old(self).backlog@,
            final(self).connections@ == old(self).connections@.insert(key_of(id), s),
            final(self).table() == old(self).table().insert(key_of(id), s@),
    {
        let k = sock_key(id);
        self.connections.insert(k, s);
        assert(final(self).table() =~= old(self).table().insert(key_of(id), s@));
    }

    /// Registers a listening record for `client_port` under the wildcard
    /// identifier, which it returns.
    pub fn listen(&mut self, client_port: u16) -> (r: SockId)
        requires
            old(self).wf(),
        ensures
            final(self).wf(),
            r == wildcard(),
            final(self).my_ip == old(self).my_ip,
            final(self).backlog@ == old(self).backlog@,
            final(self).table() == old(self).table().insert(key_of(r), final(self).sock(r)),
            fresh_listener(final(self).sock(r), old(self).my_ip, client_port),
    {
        let socket = Socket::initialize(self.my_ip, None, client_port, None, TcpStatus::Listen);
        let id: SockId = (UNDEFINED_ADDR, UNDEFINED_PORT);
        self.put(id, socket);
        id
    }

    /// The oldest passively established connection, taken off the backlog;
    /// `None` while the backlog is empty.
    pub fn accept(&mut self) -> (r: Option<SockId>)
        ensures
            final(self).my_ip == old(self).my_ip,
            final(self).table() == old(self).table(),
            final(self).connections@ == old(self).connections@,
            match r {
                Some(id) => old(self).backlog@.len() > 0 && id == old(self).backlog@[0]
                    && final(self).backlog@ == old(self).backlog@.drop_first(),
                None => old(self).backlog@.len() == 0 && final(self).backlog@ == old(
                    self,
                ).backlog@,
            },
    {
        self.backlog.pop_front()
    }

    /// The status of the connection `id`, if it is in the table.
    pub fn status_of(&self, id: SockId) -> (r: Option<TcpStatus>)
        ensures
            match r {
                Some(st) => self.has(id) && st == self.sock(id).status,
                None => !self.has(id),
            },
    {
        let k = sock_key(id);
        match self.connections.get(&k) {
            Some(s) => Some(s.status),
            None => None,
        }
    }

    /// How many received bytes wait in the buffer of `id`, if it is in the table.
    pub fn buffered_len(&self, id: SockId) -> (r: Option<usize>)
        ensures
            match r {
                Some(n) => self.has(id) && n == self.sock(id).buffer.len(),
                None => !self.has(id),
            },
    {
        let k = sock_key(id);
        match self.connections.get(&k) {
            Some(s) => Some(s.buffer.len()),
            None => None,
        }
    }

    /// Drains up to `read_size` bytes from the front of the buffer of `id`:
    /// `min(buffered, read_size)` of them; the rest stays for the next call.
    pub fn read(&mut self, stream_id: SockId, read_size: usize) -> (r: Result<Vec<u8>, TcpError>)
        requires
            old(self).wf(),
        ensures
            final(self).wf(),
            final(self).my_ip == old(self).my_ip,
            final(self).backlog@ == old(self).backlog@,
            match r {
                Ok(data) => {
                    let s = old(self).sock(stream_id);
                    let n = if s.buffer.len() <= read_size {
                        s.buffer.len() as int
                    } else {
                        read_size as int
                    };
                    &&& old(self).has(stream_id)
                    &&& data@ == s.buffer.subrange(0, n)
                    &&& final(self).table() == old(self).table().insert(
                        key_of(stream_id),
                        SocketView { buffer: s.buffer.subrange(n, s.buffer.len() as int), ..s },
                    )
                },
                Err(e) => e == TcpError::UnknownStream && !old(self).has(stream_id)
                    && final(self).table() == old(self).table(),
            },
    {
        let mut socket = match self.take(stream_id) {
            Some(s) => s,
            None => {
                proof {
                    assert(self.connections@ =~= old(self).connections@);
                }
                return Err(TcpError::UnknownStream);
            },
        };
        let actual_read_size: usize = if socket.buffer.len() <= read_size {
            socket.buffer.len()
        } else {
            read_size
        };
        let rest = socket.buffer.split_off(actual_read_size);
        let mut data = rest;
        std::mem::swap(&mut socket.buffer, &mut data);
        proof {
            assert(old(self).connections@.remove(key_of(stream_id)).insert(key_of(stream_id), socket)
                =~= old(self).connections@.insert(key_of(stream_id), socket));
        }
        self.put(stream_id, socket);
        proof {
            assert(final(self).table() =~= old(self).table().insert(key_of(stream_id), socket@));
        }
        Ok(data)
    }
}

} // verus!
