//! The TCP segment on the wire: a fixed 20-byte header without options,
//! followed by the payload, sealed with the IPv4 pseudo-header checksum.
use vstd::prelude::*;

verus! {

/// Control flag bits, as they stand in the nine flag bits of the header.
pub const FIN: u16 = 1;
pub const SYN: u16 = 2;
pub const RST: u16 = 4;
pub const PSH: u16 = 8;
pub const ACK: u16 = 16;
pub const URG: u16 = 32;
pub const ECE: u16 = 64;
pub const CWR: u16 = 128;
pub const NS: u16 = 256;

/// Length of a header without options: five 32-bit words.
pub const HEADER_LEN: usize = 20;

/// The largest segment handled: what fits in the length field of the pseudo-header.
pub const MAX_SEGMENT_LEN: usize = 65535;

/// The fields of a TCP header that this implementation reads or writes.
#[derive(Clone, Copy, Debug, PartialEq, Eq, Structural)]
pub struct TcpHeader {
    pub src_port: u16,
    pub dst_port: u16,
    pub seq: u32,
    pub ack: u32,
    pub flags: u16,
    pub window: u16,
    pub checksum: u16,
}

/// A parsed segment: its header and the bytes after the header.
pub struct Segment {
    pub header: TcpHeader,
    pub payload: Vec<u8>,
}

pub open spec fn has_flag(flags: u16, bit: u16) -> bool {
    flags & bit != 0
}

pub open spec fn be16(v: u16) -> Seq<u8> {
    seq![(v >> 8u16) as u8, v as u8]
}

pub open spec fn be32(v: u32) -> Seq<u8> {
    seq![(v >> 24u32) as u8, (v >> 16u32) as u8, (v >> 8u32) as u8, v as u8]
}

pub open spec fn read16(b: Seq<u8>, i: int) -> u16 {
    ((b[i] as u16) << 8u16) | (b[i + 1] as u16)
}

pub open spec fn read32(b: Seq<u8>, i: int) -> u32 {
    ((b[i] as u32) << 24u32) | ((b[i + 1] as u32) << 16u32) | ((b[i + 2] as u32) << 8u32) | (
    b[i + 3] as u32)
}

/// Byte 12 holds the data offset (always 5 here) and the highest flag bit;
/// byte 13 holds the eight lower flag bits.
pub open spec fn offset_and_flags(flags: u16) -> Seq<u8> {
    seq![(0x50u8 | (((flags >> 8u16) & 1u16) as u8)), flags as u8]
}

/// The 20 header bytes of `h`, with data offset 5 and a zero urgent pointer.
pub open spec fn header_bytes(h: TcpHeader) -> Seq<u8> {
    be16(h.src_port) + be16(h.dst_port) + be32(h.seq) + be32(h.ack) + offset_and_flags(h.flags)
        + be16(h.window) + be16(h.checksum) + seq![0u8, 0u8]
}

/// The segment made of header `h` and `payload`, the checksum field as `h` has it.
pub open spec fn encode(h: TcpHeader, payload: Seq<u8>) -> Seq<u8> {
    header_bytes(h) + payload
}

/// The same bytes with the checksum field (bytes 16 and 17) set to zero.
pub open spec fn clear_checksum(b: Seq<u8>) -> Seq<u8> {
    b.update(16, 0u8).update(17, 0u8)
}

/// The checksum that pnet computes for `segment` under the pseudo-header of
/// the two IPv4 addresses (each written as a big-endian `u32`).
pub uninterp spec fn tcp_checksum_of(segment: Seq<u8>, src_addr: u32, dst_addr: u32) -> u16;

/// The header `h` with its checksum field replaced by `c`.
pub open spec fn with_checksum(h: TcpHeader, c: u16) -> TcpHeader {
    TcpHeader { checksum: c, ..h }
}

/// The segment of header `h` and `payload` as it leaves `src_addr` for
/// `dst_addr`: its checksum field holds the checksum of the segment in which
/// that field is zero.
pub open spec fn sealed(h: TcpHeader, payload: Seq<u8>, src_addr: u32, dst_addr: u32) -> Seq<u8> {
    encode(
        with_checksum(h, tcp_checksum_of(encode(with_checksum(h, 0), payload), src_addr, dst_addr)),
        payload,
    )
}

/// Whether the checksum field of `b` is the checksum recomputed for it under
/// the pseudo-header of (`src_addr`, `dst_addr`).
pub open spec fn checksum_matches(b: Seq<u8>, src_addr: u32, dst_addr: u32) -> bool {
    read16(b, 16) == tcp_checksum_of(clear_checksum(b), src_addr, dst_addr)
}

/// Header length in bytes that byte 12 of `b` announces.
pub open spec fn header_len_of(b: Seq<u8>) -> int {
    ((b[12] >> 4u8) as int) * 4
}

/// What a received segment holds: `None` when it is shorter than a header
/// or its data offset points before the end of the fixed header or past the
/// end of the bytes.
pub open spec fn parse_spec(b: Seq<u8>) -> Option<(TcpHeader, Seq<u8>)> {
    if b.len() < HEADER_LEN || header_len_of(b) < HEADER_LEN || header_len_of(b) > b.len() {
        None
    } else {
        Some(
            (
                TcpHeader {
                    src_port: read16(b, 0),
                    dst_port: read16(b, 2),
                    seq: read32(b, 4),
                    ack: read32(b, 8),
                    flags: (((b[12] & 1u8) as u16) << 8u16) | (b[13] as u16),
                    window: read16(b, 14),
                    checksum: read16(b, 16),
                },
                b.subrange(header_len_of(b), b.len() as int),
            ),
        )
    }
}

proof fn lemma_be16_read(v: u16)
    ensures
        ((((v >> 8u16) as u8) as u16) << 8u16) | ((v as u8) as u16) == v,
{
    assert(((((v >> 8u16) as u8) as u16) << 8u16) | ((v as u8) as u16) == v) by (bit_vector);
}

proof fn lemma_be32_read(v: u32)
    ensures
        ((((v >> 24u32) as u8) as u32) << 24u32) | ((((v >> 16u32) as u8) as u32) << 16u32) | ((((v
            >> 8u32) as u8) as u32) << 8u32) | ((v as u8) as u32) == v,
{
    assert(((((v >> 24u32) as u8) as u32) << 24u32) | ((((v >> 16u32) as u8) as u32) << 16u32) | ((((
    v >> 8u32) as u8) as u32) << 8u32) | ((v as u8) as u32) == v) by (bit_vector);
}

proof fn lemma_flags_read(f: u16)
    requires
        f < 512,
    ensures
        ((((0x50u8 | (((f >> 8u16) & 1u16) as u8)) & 1u8) as u16) << 8u16) | ((f as u8) as u16)
            == f,
        (0x50u8 | (((f >> 8u16) & 1u16) as u8)) >> 4u8 == 5,
{
    assert(((((0x50u8 | (((f >> 8u16) & 1u16) as u8)) & 1u8) as u16) << 8u16) | ((f as u8) as u16)
        == f) by (bit_vector)
        requires
            f < 512,
    ;
    assert((0x50u8 | (((f >> 8u16) & 1u16) as u8)) >> 4u8 == 5) by (bit_vector);
}

proof fn lemma_header_fields(h: TcpHeader, payload: Seq<u8>)
    requires
        h.flags < 512,
    ensures
        encode(h, payload).len() == HEADER_LEN + payload.len(),
        read16(encode(h, payload), 0) == h.src_port,
        read16(encode(h, payload), 2) == h.dst_port,
        read32(encode(h, payload), 4) == h.seq,
        read32(encode(h, payload), 8) == h.ack,
        encode(h, payload)[12] >> 4u8 == 5,
        (((encode(h, payload)[12] & 1u8) as u16) << 8u16) | (encode(h, payload)[13] as u16)
            == h.flags,
        read16(encode(h, payload), 14) == h.window,
        read16(encode(h, payload), 16) == h.checksum,
        encode(h, payload).subrange(20, encode(h, payload).len() as int) == payload,
{
    let b = encode(h, payload);
    lemma_be16_read(h.src_port);
    lemma_be16_read(h.dst_port);
    lemma_be32_read(h.seq);
    lemma_be32_read(h.ack);
    lemma_flags_read(h.flags);
    lemma_be16_read(h.window);
    lemma_be16_read(h.checksum);
    assert(b.subrange(20, b.len() as int) =~= payload);
}

/// A segment built from a header and a payload parses back to that header
/// and that payload.
pub proof fn lemma_parse_encode(h: TcpHeader, payload: Seq<u8>)
    requires
        h.flags < 512,
    ensures
        parse_spec(encode(h, payload)) == Some((h, payload)),
{
    lemma_header_fields(h, payload);
}

/// Zeroing the checksum field of a sealed segment gives back the segment
/// that the checksum was computed over.
proof fn lemma_clear_sealed(h: TcpHeader, payload: Seq<u8>, c: u16)
    ensures
        clear_checksum(encode(with_checksum(h, c), payload)) == encode(with_checksum(h, 0), payload),
{
    assert(clear_checksum(encode(with_checksum(h, c), payload)) =~= encode(
        with_checksum(h, 0),
        payload,
    )) by {
        assert(((0u16 >> 8u16) as u8) == 0u8 && ((0u16) as u8) == 0u8) by (bit_vector);
    }
}

/// A sealed segment passes the checksum test under the same two addresses,
/// and parses back to its header (with the checksum it was given) and payload.
pub proof fn lemma_sealed_checks(h: TcpHeader, payload: Seq<u8>, src_addr: u32, dst_addr: u32)
    requires
        h.flags < 512,
    ensures
        checksum_matches(sealed(h, payload, src_addr, dst_addr), src_addr, dst_addr),
        parse_spec(sealed(h, payload, src_addr, dst_addr)) == Some(
            (
                with_checksum(
                    h,
                    tcp_checksum_of(encode(with_checksum(h, 0), payload), src_addr, dst_addr),
                ),
                payload,
            ),
        ),
{
    let c = tcp_checksum_of(encode(with_checksum(h, 0), payload), src_addr, dst_addr);
    lemma_clear_sealed(h, payload, c);
    lemma_header_fields(with_checksum(h, c), payload);
}

/// Relies on pnet's `tcp::ipv4_checksum`: the one's-complement checksum over
/// the IPv4 pseudo-header of the two addresses and the whole segment, in
/// which the checksum word (bytes 16 and 17) is skipped. pnet sums into a
/// `u32`, which the length bound keeps from overflowing.
#[verifier::external_body]
fn ipv4_checksum(segment: &[u8], src_addr: u32, dst_addr: u32) -> (r: u16)
    requires
        HEADER_LEN <= segment@.len() <= MAX_SEGMENT_LEN,
    ensures
        r == tcp_checksum_of(clear_checksum(segment@), src_addr, dst_addr),
{
    let packet = pnet::packet::tcp::TcpPacket::new(segment).unwrap();
    pnet::packet::tcp::ipv4_checksum(&packet, &src_addr.into(), &dst_addr.into())
}

/// The checksum recomputed for `segment` under the pseudo-header of
/// (`src_addr`, `dst_addr`); the checksum field of `segment` takes no part.
pub fn segment_checksum(segment: &[u8], src_addr: u32, dst_addr: u32) -> (r: u16)
    requires
        HEADER_LEN <= segment@.len() <= MAX_SEGMENT_LEN,
    ensures
        r == tcp_checksum_of(clear_checksum(segment@), src_addr, dst_addr),
{
    ipv4_checksum(segment, src_addr, dst_addr)
}

fn push_be16(out: &mut Vec<u8>, v: u16)
    ensures
        final(out)@ == old(out)@ + be16(v),
{
    out.push((v >> 8u16) as u8);
    out.push(v as u8);
    assert(final(out)@ =~= old(out)@ + be16(v));
}

fn push_be32(out: &mut Vec<u8>, v: u32)
    ensures
        final(out)@ == old(out)@ + be32(v),
{
    out.push((v >> 24u32) as u8);
    out.push((v >> 16u32) as u8);
    out.push((v >> 8u32) as u8);
    out.push(v as u8);
    assert(final(out)@ =~= old(out)@ + be32(v));
}

/// Writes header `h` and `payload` into a new buffer, the checksum field as `h` has it.
pub fn encode_segment(h: &TcpHeader, payload: &[u8]) -> (r: Vec<u8>)
    ensures
        r@ == encode(*h, payload@),
{
    let mut out: Vec<u8> = Vec::new();
    push_be16(&mut out, h.src_port);
    push_be16(&mut out, h.dst_port);
    push_be32(&mut out, h.seq);
    push_be32(&mut out, h.ack);
    out.push(0x50u8 | (((h.flags >> 8u16) & 1u16) as u8));
    out.push(h.flags as u8);
    push_be16(&mut out, h.window);
    push_be16(&mut out, h.checksum);
    out.push(0u8);
    out.push(0u8);
    assert(out@ =~= header_bytes(*h));
    let ghost head = out@;
    let mut i: usize = 0;
    while i < payload.len()
        invariant
            i <= payload@.len(),
            out@ == head + payload@.subrange(0, i as int),
        decreases payload@.len() - i,
    {
        out.push(payload[i]);
        i = i + 1;
        assert(out@ =~= head + payload@.subrange(0, i as int));
    }
    assert(payload@.subrange(0, payload@.len() as int) =~= payload@);
    out
}

/// Builds the segment of header `h` (its checksum field is not read) and
/// `payload` as it leaves `src_addr` for `dst_addr`, checksum included.
pub fn build_segment(h: &TcpHeader, payload: &[u8], src_addr: u32, dst_addr: u32) -> (r: Vec<u8>)
    requires
        payload@.len() <= MAX_SEGMENT_LEN - HEADER_LEN,
    ensures
        r@ == sealed(*h, payload@, src_addr, dst_addr),
{
    let blank = TcpHeader { checksum: 0, ..*h };
    let out = encode_segment(&blank, payload);
    proof {
        lemma_clear_sealed(*h, payload@, 0);
        assert(with_checksum(*h, 0) == blank);
    }
    let c = ipv4_checksum(out.as_slice(), src_addr, dst_addr);
    let sealed_header = TcpHeader { checksum: c, ..*h };
    encode_segment(&sealed_header, payload)
}

fn read_u16(b: &[u8], i: usize) -> (r: u16)
    requires
        i + 1 < b@.len(),
    ensures
        r == read16(b@, i as int),
{
    ((b[i] as u16) << 8u16) | (b[i + 1] as u16)
}

fn read_u32(b: &[u8], i: usize) -> (r: u32)
    requires
        i + 3 < b@.len(),
    ensures
        r == read32(b@, i as int),
{
    ((b[i] as u32) << 24u32) | ((b[i + 1] as u32) << 16u32) | ((b[i + 2] as u32) << 8u32) | (b[i
        + 3] as u32)
}

/// Reads a received segment: `None` exactly when `parse_spec` finds it malformed.
pub fn parse_segment(b: &[u8]) -> (r: Option<Segment>)
    ensures
        match (r, parse_spec(b@)) {
            (None, None) => true,
            (Some(s), Some((h, p))) => s.header == h && s.payload@ == p,
            _ => false,
        },
{
    if b.len() < HEADER_LEN {
        return None;
    }
    let header_len: usize = ((b[12] >> 4u8) as usize) * 4;
    if header_len < HEADER_LEN || header_len > b.len() {
        return None;
    }
    let header = TcpHeader {
        src_port: read_u16(b, 0),
        dst_port: read_u16(b, 2),
        seq: read_u32(b, 4),
        ack: read_u32(b, 8),
        flags: (((b[12] & 1u8) as u16) << 8u16) | (b[13] as u16),
        window: read_u16(b, 14),
        checksum: read_u16(b, 16),
    };
    let mut payload: Vec<u8> = Vec::new();
    let mut i: usize = header_len;
    while i < b.len()
        invariant
            header_len <= i <= b@.len(),
            payload@ == b@.subrange(header_len as int, i as int),
        decreases b@.len() - i,
    {
        payload.push(b[i]);
        i = i + 1;
        assert(payload@ =~= b@.subrange(header_len as int, i as int));
    }
    Some(Segment { header, payload })
}

} // verus!
