use sheep_tcp::segment::{
    build_segment, encode_segment, parse_segment, segment_checksum, TcpHeader, ACK, FIN, NS, PSH,
    SYN, URG,
};
use sheep_tcp::util::{flag_to_string, is_correct_checksum, is_valid_seq_num};
use sheep_tcp::socket::{Socket, TcpStatus};
use sheep_tcp::segment::Segment;

const A: u32 = 0x0A00_0001;
const B: u32 = 0x0A00_0002;

fn syn_header() -> TcpHeader {
    TcpHeader { src_port: 50000, dst_port: 80, seq: 1, ack: 0, flags: SYN, window: 1460, checksum: 0 }
}

#[test]
fn encode_writes_fixed_header_big_endian() {
    let h = TcpHeader { checksum: 0xBEEF, ..syn_header() };
    let b = encode_segment(&h, &[7u8, 8u8]);
    assert_eq!(
        b,
        vec![195, 80, 0, 80, 0, 0, 0, 1, 0, 0, 0, 0, 0x50, 2, 5, 180, 0xBE, 0xEF, 0, 0, 7, 8]
    );
}

#[test]
fn build_segment_sets_pseudo_header_checksum() {
    let b = build_segment(&syn_header(), &[], A, B);
    assert_eq!(b, vec![195, 80, 0, 80, 0, 0, 0, 1, 0, 0, 0, 0, 80, 2, 5, 180, 210, 138, 0, 0]);
}

#[test]
fn checksum_of_segment_with_payload() {
    let h = TcpHeader {
        src_port: 80,
        dst_port: 50000,
        seq: 1000,
        ack: 2,
        flags: ACK,
        window: 1460,
        checksum: 0,
    };
    let b = build_segment(&h, b"hello", B, A);
    assert_eq!(((b[16] as u16) << 8) | b[17] as u16, 35516);
    assert_eq!(segment_checksum(&b, B, A), 35516);
}

#[test]
fn checksum_ignores_its_own_field() {
    let mut b = build_segment(&syn_header(), &[], A, B);
    let before = segment_checksum(&b, A, B);
    b[16] = 0;
    b[17] = 0;
    assert_eq!(segment_checksum(&b, A, B), before);
}

#[test]
fn built_segment_passes_checksum_check() {
    let b = build_segment(&syn_header(), b"abc", A, B);
    assert!(is_correct_checksum(&b, A, B));
}

#[test]
fn corrupted_segment_fails_checksum_check() {
    let mut b = build_segment(&syn_header(), b"abc", A, B);
    b[21] ^= 0xFF;
    assert!(!is_correct_checksum(&b, A, B));
}

#[test]
fn checksum_depends_on_addresses() {
    let b = build_segment(&syn_header(), &[], A, B);
    assert!(!is_correct_checksum(&b, A, 0x0A00_0003));
}

#[test]
fn parse_reads_back_built_segment() {
    let h = TcpHeader { flags: SYN | ACK | NS, ..syn_header() };
    let b = build_segment(&h, b"xyz", A, B);
    let s = parse_segment(&b).expect("well-formed");
    assert_eq!(s.header.src_port, 50000);
    assert_eq!(s.header.dst_port, 80);
    assert_eq!(s.header.seq, 1);
    assert_eq!(s.header.ack, 0);
    assert_eq!(s.header.flags, SYN | ACK | NS);
    assert_eq!(s.header.window, 1460);
    assert_eq!(s.header.checksum, segment_checksum(&b, A, B));
    assert_eq!(s.payload, b"xyz".to_vec());
}

#[test]
fn parse_skips_options_by_data_offset() {
    let mut b = encode_segment(&syn_header(), &[1, 2, 3, 4, 9]);
    b[12] = 0x60;
    let s = parse_segment(&b).expect("offset 6 fits");
    assert_eq!(s.payload, vec![9]);
}

#[test]
fn parse_rejects_short_input() {
    assert!(parse_segment(&[0u8; 19]).is_none());
}

#[test]
fn parse_rejects_bad_data_offset() {
    let mut b = encode_segment(&syn_header(), &[]);
    b[12] = 0x40;
    assert!(parse_segment(&b).is_none());
    b[12] = 0x60;
    assert!(parse_segment(&b).is_none());
}

#[test]
fn flag_names_in_fixed_order() {
    assert_eq!(flag_to_string(SYN | ACK), "SYN ACK ");
    assert_eq!(flag_to_string(FIN | ACK | PSH | URG), "ACK FIN PSH URG ");
    assert_eq!(flag_to_string(0), "");
}

#[test]
fn status_names() {
    assert_eq!(TcpStatus::Listen.name(), "LISTEN");
    assert_eq!(TcpStatus::TimeWait.name(), "TIMEWAIT");
    assert_eq!(TcpStatus::Closed.name(), "CLOSED");
}

#[test]
fn sequence_policy_rejects_unset_and_equal() {
    let mut s = Socket::initialize(A, Some(B), 5000, Some(80), TcpStatus::Established);
    let seg = Segment { header: TcpHeader { seq: 42, ..syn_header() }, payload: vec![] };
    assert!(!is_valid_seq_num(&s, &seg));
    s.recv_param.next = 42;
    assert!(!is_valid_seq_num(&s, &seg));
    s.recv_param.next = 41;
    assert!(is_valid_seq_num(&s, &seg));
}
