use sheep_tcp::segment::{build_segment, parse_segment, Segment, TcpHeader, ACK, FIN, RST, SYN};
use sheep_tcp::socket::{Outgoing, RecvParam, SendParam, Socket, TcpStatus, TCP_INIT_WINDOW};
use sheep_tcp::tcp::TCPManager;

const ME: u32 = 0xC0A8_0001;
const PEER: u32 = 0xC0A8_0002;

fn seg(flags: u16, seq: u32, ack: u32, payload: &[u8]) -> Segment {
    Segment {
        header: TcpHeader {
            src_port: 4000,
            dst_port: 80,
            seq,
            ack,
            flags,
            window: 900,
            checksum: 0,
        },
        payload: payload.to_vec(),
    }
}

fn connected(status: TcpStatus) -> Socket {
    let mut s = Socket::initialize(ME, Some(PEER), 80, Some(4000), status);
    s.send_param.una = 100;
    s.send_param.next = 100;
    s.recv_param.next = 500;
    s
}

/// Header fields of an emitted segment: (seq, ack, flags, payload).
fn fields(o: &Outgoing) -> (u32, u32, u16, Vec<u8>) {
    let p = parse_segment(&o.bytes).expect("emitted segments parse");
    (p.header.seq, p.header.ack, p.header.flags, p.payload)
}

#[test]
fn initialize_starts_unacknowledged_at_iss() {
    let s = Socket::initialize(ME, None, 80, None, TcpStatus::Listen);
    assert_eq!(s.send_param.una, s.send_param.iss);
    assert_eq!(s.send_param.next, s.send_param.iss);
    assert_eq!(s.send_param.window, TCP_INIT_WINDOW);
    assert_eq!(s.recv_param, RecvParam { next: 0, window: 0, irs: 0 });
    assert!(s.buffer.is_empty());
    assert_eq!(s.status, TcpStatus::Listen);
}

#[test]
fn initialize_draws_a_fresh_iss() {
    let first = Socket::initialize(ME, None, 80, None, TcpStatus::Listen).send_param.iss;
    let differs = (0..8).any(|_| {
        Socket::initialize(ME, None, 80, None, TcpStatus::Listen).send_param.iss != first
    });
    assert!(differs);
}

#[test]
fn create_established_copies_parameters() {
    let sp = SendParam { una: 1, next: 2, window: 3, iss: 4 };
    let rp = RecvParam { next: 5, window: 6, irs: 7 };
    let s = Socket::create_established(ME, PEER, 80, 4000, &sp, &rp);
    assert_eq!(s.send_param, sp);
    assert_eq!(s.recv_param, rp);
    assert_eq!(s.status, TcpStatus::Established);
    assert_eq!(s.dst_addr, Some(PEER));
    assert_eq!(s.dst_port, Some(4000));
}

#[test]
fn send_tcp_packet_builds_header_and_advances_next() {
    let mut s = connected(TcpStatus::Established);
    let o = s.send_tcp_packet(ACK, Some(b"abcd")).expect("has a peer");
    assert_eq!(o.dst_addr, PEER);
    assert_eq!(fields(&o), (100, 500, ACK, b"abcd".to_vec()));
    assert_eq!(s.send_param.next, 104);
    let expected = build_segment(
        &TcpHeader {
            src_port: 80,
            dst_port: 4000,
            seq: 100,
            ack: 500,
            flags: ACK,
            window: TCP_INIT_WINDOW,
            checksum: 0,
        },
        b"abcd",
        ME,
        PEER,
    );
    assert_eq!(o.bytes, expected);
}

#[test]
fn send_tcp_packet_wraps_sequence_space() {
    let mut s = connected(TcpStatus::Established);
    s.send_param.una = u32::MAX - 1;
    s.send_tcp_packet(ACK, Some(b"abcd")).expect("has a peer");
    assert_eq!(s.send_param.next, 2);
}

#[test]
fn send_tcp_packet_without_peer_sends_nothing() {
    let mut s = Socket::initialize(ME, None, 80, None, TcpStatus::Listen);
    let next = s.send_param.next;
    assert!(s.send_tcp_packet(SYN, None).is_none());
    assert_eq!(s.send_param.next, next);
}

#[test]
fn listen_syn_replies_syn_ack() {
    let m = TCPManager::new(ME);
    let mut s = Socket::initialize(ME, None, 80, None, TcpStatus::Listen);
    let iss = s.send_param.iss;
    let (out, spawned) = m.dispatch(&seg(SYN, 7000, 0, &[]), &mut s, PEER);
    assert!(spawned.is_none());
    assert_eq!(s.status, TcpStatus::SynRecv);
    assert_eq!(s.dst_addr, Some(PEER));
    assert_eq!(s.dst_port, Some(4000));
    assert_eq!(s.recv_param.irs, 7001);
    assert_eq!(s.recv_param.next, 7001);
    assert_eq!(out.len(), 1);
    assert_eq!(fields(&out[0]), (iss, 7001, SYN | ACK, vec![]));
}

#[test]
fn listen_ignores_non_syn() {
    let m = TCPManager::new(ME);
    let mut s = Socket::initialize(ME, None, 80, None, TcpStatus::Listen);
    let (out, spawned) = m.dispatch(&seg(ACK, 7000, 0, &[]), &mut s, PEER);
    assert!(out.is_empty() && spawned.is_none());
    assert_eq!(s.status, TcpStatus::Listen);
    assert_eq!(s.dst_addr, None);
}

#[test]
fn syn_recv_ack_spawns_established() {
    let m = TCPManager::new(ME);
    let mut s = Socket::initialize(ME, Some(PEER), 80, Some(4000), TcpStatus::SynRecv);
    s.recv_param.next = 7001;
    let (out, spawned) = m.dispatch(&seg(ACK, 7001, 321, &[]), &mut s, PEER);
    assert!(out.is_empty());
    let n = spawned.expect("handshake completes");
    assert_eq!(n.status, TcpStatus::Established);
    assert_eq!(n.dst_addr, Some(PEER));
    assert_eq!(n.dst_port, Some(4000));
    assert_eq!(n.src_port, 80);
    assert_eq!(n.recv_param.next, 7001);
    assert_eq!(n.send_param.una, 321);
    assert_eq!(s.status, TcpStatus::Listen);
    assert_eq!(s.dst_addr, None);
    assert_eq!(s.dst_port, None);
    assert_eq!(s.src_port, 80);
}

#[test]
fn syn_sent_syn_ack_establishes() {
    let m = TCPManager::new(ME);
    let mut s = connected(TcpStatus::SynSent);
    let (out, _) = m.dispatch(&seg(SYN | ACK, 9000, 101, &[]), &mut s, PEER);
    assert_eq!(s.status, TcpStatus::Established);
    assert_eq!(s.recv_param.irs, 9001);
    assert_eq!(s.recv_param.next, 9001);
    assert_eq!(s.send_param.una, 101);
    assert_eq!(out.len(), 1);
    assert_eq!(fields(&out[0]), (101, 9001, ACK, vec![]));
}

#[test]
fn syn_sent_bare_syn_goes_to_syn_recv() {
    let m = TCPManager::new(ME);
    let mut s = connected(TcpStatus::SynSent);
    let (out, _) = m.dispatch(&seg(SYN, 9000, 0, &[]), &mut s, PEER);
    assert_eq!(s.status, TcpStatus::SynRecv);
    assert_eq!(out.len(), 1);
    assert_eq!(fields(&out[0]).2, ACK);
}

#[test]
fn syn_sent_without_syn_is_inert() {
    let m = TCPManager::new(ME);
    let mut s = connected(TcpStatus::SynSent);
    let (out, _) = m.dispatch(&seg(ACK, 9000, 101, &[]), &mut s, PEER);
    assert!(out.is_empty());
    assert_eq!(s.status, TcpStatus::SynSent);
    assert_eq!(s.send_param.una, 100);
    assert_eq!(s.recv_param.next, 500);
}

#[test]
fn established_data_is_buffered_and_acked() {
    let m = TCPManager::new(ME);
    let mut s = connected(TcpStatus::Established);
    let (out, _) = m.dispatch(&seg(ACK | 8, 500, 100, b"hello"), &mut s, PEER);
    assert_eq!(s.buffer, b"hello".to_vec());
    assert_eq!(s.recv_param.next, 505);
    assert_eq!(s.status, TcpStatus::Established);
    assert_eq!(out.len(), 1);
    assert_eq!(fields(&out[0]), (100, 505, ACK, vec![]));
}

#[test]
fn established_pure_ack_is_not_answered() {
    let m = TCPManager::new(ME);
    let mut s = connected(TcpStatus::Established);
    let (out, _) = m.dispatch(&seg(ACK, 500, 130, &[]), &mut s, PEER);
    assert!(out.is_empty());
    assert_eq!(s.send_param.una, 130);
    assert_eq!(s.recv_param.next, 500);
}

#[test]
fn established_fin_with_payload() {
    let m = TCPManager::new(ME);
    let mut s = connected(TcpStatus::Established);
    let start: u32 = 500;
    let (out, _) = m.dispatch(&seg(FIN | ACK, start, 100, b"12345"), &mut s, PEER);
    assert_eq!(s.recv_param.next, start + 5 + 1);
    assert_eq!(s.status, TcpStatus::LastAck);
    assert_eq!(out.len(), 2);
    assert_eq!(fields(&out[0]), (100, 506, ACK, vec![]));
    assert_eq!(fields(&out[1]), (100, 506, FIN | ACK, vec![]));
}

#[test]
fn finwait1_fin_ack_goes_to_time_wait() {
    let m = TCPManager::new(ME);
    let mut s = connected(TcpStatus::FinWait1);
    let (out, _) = m.dispatch(&seg(FIN | ACK, 800, 101, &[]), &mut s, PEER);
    assert_eq!(s.status, TcpStatus::TimeWait);
    assert_eq!(s.recv_param.next, 801);
    assert_eq!(out.len(), 1);
    assert_eq!(fields(&out[0]), (101, 801, ACK, vec![]));
}

#[test]
fn finwait1_bare_fin_goes_to_closing() {
    let m = TCPManager::new(ME);
    let mut s = connected(TcpStatus::FinWait1);
    let (out, _) = m.dispatch(&seg(FIN, 800, 0, &[]), &mut s, PEER);
    assert_eq!(s.status, TcpStatus::Closing);
    assert_eq!(out.len(), 1);
}

#[test]
fn finwait1_ack_goes_to_finwait2() {
    let m = TCPManager::new(ME);
    let mut s = connected(TcpStatus::FinWait1);
    let (out, _) = m.dispatch(&seg(ACK, 800, 101, &[]), &mut s, PEER);
    assert!(out.is_empty());
    assert_eq!(s.status, TcpStatus::FinWait2);
    assert_eq!(s.recv_param.next, 800);
}

#[test]
fn finwait2_fin_goes_to_time_wait() {
    let m = TCPManager::new(ME);
    let mut s = connected(TcpStatus::FinWait2);
    let (out, _) = m.dispatch(&seg(FIN | ACK, 800, 101, &[]), &mut s, PEER);
    assert_eq!(s.status, TcpStatus::TimeWait);
    assert_eq!(out.len(), 1);
}

#[test]
fn finwait2_ack_alone_is_inert() {
    let m = TCPManager::new(ME);
    let mut s = connected(TcpStatus::FinWait2);
    let (out, _) = m.dispatch(&seg(ACK, 800, 101, &[]), &mut s, PEER);
    assert!(out.is_empty());
    assert_eq!(s.status, TcpStatus::FinWait2);
    assert_eq!(s.recv_param.next, 500);
}

#[test]
fn last_ack_ack_closes() {
    let m = TCPManager::new(ME);
    let mut s = connected(TcpStatus::LastAck);
    let (out, _) = m.dispatch(&seg(ACK, 506, 101, &[]), &mut s, PEER);
    assert!(out.is_empty());
    assert_eq!(s.status, TcpStatus::Closed);
}

#[test]
fn unlisted_states_are_inert() {
    let m = TCPManager::new(ME);
    for status in [TcpStatus::Closing, TcpStatus::TimeWait, TcpStatus::Closed] {
        let mut s = connected(status);
        let (out, spawned) = m.dispatch(&seg(FIN | ACK | RST, 800, 101, b"x"), &mut s, PEER);
        assert!(out.is_empty() && spawned.is_none());
        assert_eq!(s.status, status);
        assert_eq!(s.recv_param.next, 500);
        assert_eq!(s.send_param.una, 100);
        assert!(s.buffer.is_empty());
    }
}
