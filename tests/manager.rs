use sheep_tcp::error::TcpError;
use sheep_tcp::segment::{build_segment, parse_segment, TcpHeader, ACK, FIN, SYN};
use sheep_tcp::session::{
    segment_bounds, Step, Teardown, EPHEMERAL_HIGH, EPHEMERAL_LOW, FIN_RETRY_LIMIT,
    HS_RETRY_LIMIT, MSS, SEND_RETRY_LIMIT,
};
use sheep_tcp::socket::{Socket, TcpStatus};
use sheep_tcp::tcp::{sock_key, SockId, TCPManager};

const ME: u32 = 0xC0A8_0001;
const PEER: u32 = 0xC0A8_0002;
const PEER_PORT: u16 = 4000;

fn with_established(peer_window: u16) -> (TCPManager, SockId) {
    let mut m = TCPManager::new(ME);
    let mut s = Socket::initialize(ME, Some(PEER), 80, Some(PEER_PORT), TcpStatus::Established);
    s.recv_param.next = 500;
    s.recv_param.window = peer_window;
    let id: SockId = (PEER, PEER_PORT);
    m.connections.insert(sock_key(id), s);
    (m, id)
}

fn socket(m: &TCPManager, id: SockId) -> &Socket {
    m.connections.get(&sock_key(id)).expect("registered")
}

fn from_peer(flags: u16, seq: u32, ack: u32, payload: &[u8]) -> Vec<u8> {
    let h = TcpHeader { src_port: PEER_PORT, dst_port: 80, seq, ack, flags, window: 700, checksum: 0 };
    build_segment(&h, payload, PEER, ME)
}

#[test]
fn listen_registers_wildcard_listener() {
    let mut m = TCPManager::new(ME);
    let id = m.listen(8080);
    assert_eq!(id, (0, 0));
    let s = socket(&m, id);
    assert_eq!(s.status, TcpStatus::Listen);
    assert_eq!(s.src_port, 8080);
    assert_eq!(s.dst_addr, None);
}

#[test]
fn accept_is_fifo() {
    let mut m = TCPManager::new(ME);
    assert_eq!(m.accept(), None);
    m.backlog.push_back((1, 1));
    m.backlog.push_back((2, 2));
    assert_eq!(m.accept(), Some((1, 1)));
    assert_eq!(m.accept(), Some((2, 2)));
    assert_eq!(m.accept(), None);
}

#[test]
fn read_partial_then_rest() {
    let (mut m, id) = with_established(1000);
    let data: Vec<u8> = (0..50u8).collect();
    m.connections.get_mut(&sock_key(id)).unwrap().buffer = data.clone();
    let first = m.read(id, 20).unwrap();
    assert_eq!(first, data[..20].to_vec());
    assert_eq!(m.buffered_len(id), Some(30));
    let second = m.read(id, 40).unwrap();
    assert_eq!(second, data[20..].to_vec());
    assert_eq!(m.buffered_len(id), Some(0));
}

#[test]
fn read_unknown_stream() {
    let mut m = TCPManager::new(ME);
    assert_eq!(m.read((9, 9), 10), Err(TcpError::UnknownStream));
}

#[test]
fn accepted_segment_is_delivered() {
    let (mut m, id) = with_established(1000);
    let out = m.recv_handler(&from_peer(ACK, 480, 0, b"hi"), PEER).expect("accepted");
    assert_eq!(out.len(), 1);
    let s = socket(&m, id);
    assert_eq!(s.buffer, b"hi".to_vec());
    assert_eq!(s.recv_param.next, 482);
    assert_eq!(s.recv_param.window, 700);
}

#[test]
fn bad_checksum_is_dropped_without_change() {
    let (mut m, id) = with_established(1000);
    let mut b = from_peer(ACK, 480, 0, b"hi");
    b[17] ^= 1;
    assert_eq!(m.recv_handler(&b, PEER).err(), Some(TcpError::ChecksumMismatch));
    let s = socket(&m, id);
    assert!(s.buffer.is_empty());
    assert_eq!(s.recv_param.next, 500);
    assert_eq!(s.recv_param.window, 1000);
    assert_eq!(s.status, TcpStatus::Established);
}

#[test]
fn sequence_policy_drops_expected_number() {
    let (mut m, id) = with_established(1000);
    assert_eq!(m.recv_handler(&from_peer(ACK, 500, 0, b"hi"), PEER).err(), Some(TcpError::InvalidSequence));
    assert!(socket(&m, id).buffer.is_empty());
}

#[test]
fn sequence_policy_drops_syn_to_fresh_listener() {
    let mut m = TCPManager::new(ME);
    m.listen(80);
    assert_eq!(m.recv_handler(&from_peer(SYN, 7000, 0, &[]), PEER).err(), Some(TcpError::InvalidSequence));
    assert_eq!(m.status_of((0, 0)), Some(TcpStatus::Listen));
}

#[test]
fn segment_for_nobody_is_dropped() {
    let mut m = TCPManager::new(ME);
    assert_eq!(m.recv_handler(&from_peer(ACK, 1, 0, &[]), PEER).err(), Some(TcpError::UnknownStream));
}

#[test]
fn syn_to_other_port_misses_listener() {
    let mut m = TCPManager::new(ME);
    m.listen(81);
    assert_eq!(m.recv_handler(&from_peer(SYN, 7000, 0, &[]), PEER).err(), Some(TcpError::UnknownStream));
}

#[test]
fn malformed_bytes_are_dropped() {
    let (mut m, _) = with_established(1000);
    assert_eq!(m.recv_handler(&[1, 2, 3], PEER).err(), Some(TcpError::MalformedSegment));
}

#[test]
fn connect_registers_syn_sent_and_emits_syn() {
    let mut m = TCPManager::new(ME);
    let (id, syn) = m.connect(PEER, 80);
    assert_eq!(id, (PEER, 80));
    let s = socket(&m, id);
    assert_eq!(s.status, TcpStatus::SynSent);
    assert!(EPHEMERAL_LOW <= s.src_port && s.src_port < EPHEMERAL_HIGH);
    assert_eq!(s.send_param.una, s.send_param.iss);
    assert_eq!(s.send_param.next, s.send_param.iss);
    assert_eq!(syn.dst_addr, PEER);
    let p = parse_segment(&syn.bytes).unwrap();
    assert_eq!(p.header.flags, SYN);
    assert_eq!(p.header.seq, s.send_param.iss);
    assert_eq!(p.header.src_port, s.src_port);
    assert_eq!(p.header.dst_port, 80);
}

#[test]
fn connect_to_silent_peer_times_out_after_n_plus_one_syns() {
    let mut m = TCPManager::new(ME);
    let (id, _) = m.connect(PEER, 80);
    let mut syns = 1;
    let mut polls = 0;
    let mut retries: u32 = 0;
    let outcome = loop {
        polls += 1;
        match m.connect_poll(id, retries) {
            Ok(Step::Send(o)) => {
                assert_eq!(parse_segment(&o.bytes).unwrap().header.flags, SYN);
                syns += 1;
                retries += 1;
            }
            Ok(_) => panic!("no answer was ever given"),
            Err(e) => break e,
        }
    };
    assert_eq!(outcome, TcpError::HandshakeTimeout);
    assert_eq!(syns, HS_RETRY_LIMIT + 1);
    assert_eq!(polls, HS_RETRY_LIMIT + 1);
    assert_eq!(m.status_of(id), Some(TcpStatus::SynSent));
}

#[test]
fn connect_poll_done_when_established() {
    let mut m = TCPManager::new(ME);
    let (id, _) = m.connect(PEER, 80);
    m.connections.get_mut(&sock_key(id)).unwrap().status = TcpStatus::Established;
    assert!(matches!(m.connect_poll(id, 0), Ok(Step::Done)));
}

#[test]
fn connect_poll_unknown_stream() {
    let mut m = TCPManager::new(ME);
    assert!(matches!(m.connect_poll((1, 2), 0), Err(TcpError::UnknownStream)));
}

#[test]
fn segment_bounds_exact_chunks() {
    assert_eq!(segment_bounds(3000, 1460), vec![(0, 1460), (1460, 2920), (2920, 3000)]);
    assert_eq!(segment_bounds(2920, 1460), vec![(0, 1460), (1460, 2920)]);
    assert_eq!(segment_bounds(1, 1460), vec![(0, 1)]);
    assert!(segment_bounds(0, 1460).is_empty());
}

#[test]
fn send_splits_by_peer_window_in_order() {
    let (mut m, id) = with_established(1000);
    let payload: Vec<u8> = (0..2500u32).map(|i| (i % 251) as u8).collect();
    let mut job = m.send(id, &payload).unwrap();
    let mut sent: Vec<Vec<u8>> = Vec::new();
    loop {
        match m.send_segment(&job, &payload).unwrap() {
            Step::Send(o) => {
                let p = parse_segment(&o.bytes).unwrap();
                assert_eq!(p.header.flags, ACK);
                sent.push(p.payload);
                let s = m.connections.get_mut(&sock_key(id)).unwrap();
                s.send_param.una = s.send_param.next;
                m.confirm_delivery(&mut job).unwrap();
            }
            Step::Done => break,
            Step::Pending => panic!("sending never waits"),
        }
    }
    let sizes: Vec<usize> = sent.iter().map(|c| c.len()).collect();
    assert_eq!(sizes, vec![1000, 1000, 500]);
    assert_eq!(sent.concat(), payload);
}

#[test]
fn send_caps_chunks_at_mss() {
    let (m, id) = with_established(60000);
    let job = m.send(id, &vec![0u8; 3000]).unwrap();
    assert_eq!(job.chunks.len(), 3);
    assert!(job.chunks.iter().all(|(lo, hi)| hi - lo <= MSS));
}

#[test]
fn send_without_ack_times_out() {
    let (mut m, id) = with_established(1000);
    let payload = b"hello".to_vec();
    let mut job = m.send(id, &payload).unwrap();
    let mut sends = 0;
    let err = loop {
        match m.send_segment(&job, &payload).unwrap() {
            Step::Send(_) => sends += 1,
            _ => panic!("nothing was acknowledged"),
        }
        if let Err(e) = m.confirm_delivery(&mut job) {
            break e;
        }
    };
    assert_eq!(err, TcpError::SendTimeout);
    assert_eq!(sends, SEND_RETRY_LIMIT + 1);
}

#[test]
fn send_requires_established() {
    let (mut m, id) = with_established(1000);
    m.connections.get_mut(&sock_key(id)).unwrap().status = TcpStatus::SynSent;
    assert!(matches!(m.send(id, b"x"), Err(TcpError::NotEstablished)));
    assert!(matches!(m.send((7, 7), b"x"), Err(TcpError::UnknownStream)));
}

#[test]
fn send_to_zero_window_fails() {
    let (m, id) = with_established(0);
    assert!(matches!(m.send(id, b"x"), Err(TcpError::SendTimeout)));
    assert!(m.send(id, b"").unwrap().is_done());
}

#[test]
fn disconnect_sends_fin_ack_and_closes_after_time_wait() {
    let (mut m, id) = with_established(1000);
    let fin = m.disconnect(id).unwrap();
    assert_eq!(parse_segment(&fin.bytes).unwrap().header.flags, FIN | ACK);
    assert_eq!(m.status_of(id), Some(TcpStatus::FinWait1));
    let mut progress = Teardown::new();
    match m.disconnect_poll(id, &mut progress) {
        Ok(Step::Send(o)) => assert_eq!(parse_segment(&o.bytes).unwrap().header.flags, FIN),
        _ => panic!("FIN goes out again"),
    }
    m.connections.get_mut(&sock_key(id)).unwrap().status = TcpStatus::TimeWait;
    assert!(matches!(m.disconnect_poll(id, &mut progress), Ok(Step::Pending)));
    assert_eq!(m.status_of(id), Some(TcpStatus::TimeWait));
    assert!(matches!(m.disconnect_poll(id, &mut progress), Ok(Step::Done)));
    assert_eq!(m.status_of(id), None);
}

#[test]
fn disconnect_times_out_without_answer() {
    let (mut m, id) = with_established(1000);
    m.disconnect(id).unwrap();
    let mut progress = Teardown::new();
    let mut resent = 0;
    let err = loop {
        match m.disconnect_poll(id, &mut progress) {
            Ok(Step::Send(_)) => resent += 1,
            Ok(_) => panic!("never reaches TimeWait"),
            Err(e) => break e,
        }
    };
    assert_eq!(err, TcpError::TeardownTimeout);
    assert_eq!(resent, FIN_RETRY_LIMIT);
}

#[test]
fn disconnect_requires_established() {
    let mut m = TCPManager::new(ME);
    assert_eq!(m.disconnect((1, 1)).err(), Some(TcpError::UnknownStream));
    m.listen(80);
    assert_eq!(m.disconnect((0, 0)).err(), Some(TcpError::NotEstablished));
}
