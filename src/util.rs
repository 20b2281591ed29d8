//! Checks applied to inbound segments, and the flag names used in logs.
use vstd::prelude::*;
use vstd::string::StringExecFns;
use crate::segment::{
    checksum_matches, has_flag, segment_checksum, Segment, ACK, CWR, ECE, FIN, HEADER_LEN,
    MAX_SEGMENT_LEN, NS, PSH, RST, SYN, URG,
};
use crate::socket::Socket;

verus! {

/// Whether a segment whose checksum field is `segment[16..18]` arrived intact
/// from `src_addr` to `my_ip`: the field equals the checksum recomputed under
/// the pseudo-header of the two addresses.
pub fn is_correct_checksum(segment: &[u8], src_addr: u32, my_ip: u32) -> (r: bool)
    requires
        HEADER_LEN <= segment@.len() <= MAX_SEGMENT_LEN,
    ensures
        r == checksum_matches(segment@, src_addr, my_ip),
{
    let expected = segment_checksum(segment, src_addr, my_ip);
    let field = ((segment[16] as u16) << 8u16) | (segment[17] as u16);
    field == expected
}

/// The acceptance policy for inbound sequence numbers: a segment is taken
/// only when the next expected number is set (non-zero) and differs from the
/// segment's own number. This is not the receive-window test of standard TCP;
/// it stays a separate, named rule until the intended check is settled.
pub open spec fn seq_acceptable(expected_next: u32, seq: u32) -> bool {
    expected_next != 0 && expected_next != seq
}

/// Applies the sequence acceptance policy to `recv_packet` arriving on `socket`.
pub fn is_valid_seq_num(socket: &Socket, recv_packet: &Segment) -> (r: bool)
    ensures
        r == seq_acceptable(socket.recv_param.next, recv_packet.header.seq),
{
    socket.recv_param.next != 0 && socket.recv_param.next != recv_packet.header.seq
}

pub open spec fn flag_word(flags: u16, bit: u16, word: Seq<char>) -> Seq<char> {
    if has_flag(flags, bit) {
        word
    } else {
        Seq::empty()
    }
}

/// The names of the flags set in `flags`, each followed by a space, in the
/// order SYN, ACK, FIN, RST, CWR, ECE, NS, PSH, URG.
pub open spec fn flag_names(flags: u16) -> Seq<char> {
    flag_word(flags, SYN, "SYN "@) + flag_word(flags, ACK, "ACK "@) + flag_word(flags, FIN, "FIN "@)
        + flag_word(flags, RST, "RST "@) + flag_word(flags, CWR, "CWR "@) + flag_word(
        flags,
        ECE,
        "ECE "@,
    ) + flag_word(flags, NS, "NS "@) + flag_word(flags, PSH, "PSH "@) + flag_word(
        flags,
        URG,
        "URG "@,
    )
}

fn append_flag(out: &mut String, flags: u16, bit: u16, word: &str)
    ensures
        final(out)@ == old(out)@ + flag_word(flags, bit, word@),
{
    if flags & bit > 0 {
        out.append(word);
    } else {
        assert(final(out)@ =~= old(out)@ + Seq::<char>::empty());
    }
}

/// The names of the flags set in `flag`, as logs print them.
pub fn flag_to_string(flag: u16) -> (r: String)
    ensures
        r@ == flag_names(flag),
{
    let mut flag_str = String::new();
    append_flag(&mut flag_str, flag, SYN, "SYN ");
    append_flag(&mut flag_str, flag, ACK, "ACK ");
    append_flag(&mut flag_str, flag, FIN, "FIN ");
    append_flag(&mut flag_str, flag, RST, "RST ");
    append_flag(&mut flag_str, flag, CWR, "CWR ");
    append_flag(&mut flag_str, flag, ECE, "ECE ");
    append_flag(&mut flag_str, flag, NS, "NS ");
    append_flag(&mut flag_str, flag, PSH, "PSH ");
    append_flag(&mut flag_str, flag, URG, "URG ");
    assert(flag_str@ =~= flag_names(flag));
    flag_str
}

} // verus!
