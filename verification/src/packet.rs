use vstd::prelude::*;

use smoltcp::wire::{IpVersion, Ipv4Packet, Ipv6Packet, TcpPacket};

use crate::router::IpAddress;

verus! {

/// The big-endian number in the `n` bytes of `b` from `lo` on.
pub open spec fn be_value(b: Seq<u8>, lo: int, n: int) -> nat
    decreases n,
{
    if n <= 0 {
        0
    } else {
        be_value(b, lo, n - 1) * 256 + b[lo + n - 1] as nat
    }
}

/// The IP version in the first byte's high nibble.
pub open spec fn version_nibble(b: Seq<u8>) -> int {
    b[0] as int / 16
}

/// The IPv4 header length, in bytes.
pub open spec fn ipv4_header_len(b: Seq<u8>) -> int {
    (b[0] as int % 16) * 4
}

/// The IPv4 total length field.
pub open spec fn ipv4_total_len(b: Seq<u8>) -> int {
    be_value(b, 2, 2) as int
}

/// The IPv6 payload length field.
pub open spec fn ipv6_payload_len(b: Seq<u8>) -> int {
    be_value(b, 4, 2) as int
}

/// The checks of an IPv4 packet's lengths: the fixed header is there, and
/// the header fits in the total length, which fits in the buffer.
pub open spec fn ipv4_lengths_ok(b: Seq<u8>) -> bool {
    &&& b.len() >= 20
    &&& b.len() >= ipv4_header_len(b)
    &&& ipv4_header_len(b) <= ipv4_total_len(b)
    &&& b.len() >= ipv4_total_len(b)
}

/// The checks of an IPv6 packet's lengths: the fixed header is there, and
/// the header and payload fit in the buffer.
pub open spec fn ipv6_lengths_ok(b: Seq<u8>) -> bool {
    &&& b.len() >= 40
    &&& b.len() >= 40 + ipv6_payload_len(b)
}

/// The source and destination of an IP packet held in `b`: IPv4 addresses
/// at bytes 12..16 and 16..20, IPv6 addresses at bytes 8..24 and 24..40,
/// big-endian; `None` for an empty buffer, another version, or lengths that
/// do not check.
pub open spec fn packet_addrs(b: Seq<u8>) -> Option<(IpAddress, IpAddress)> {
    if b.len() == 0 {
        None
    } else if version_nibble(b) == 4 {
        if ipv4_lengths_ok(b) {
            Some((IpAddress::Ipv4(be_value(b, 12, 4) as u32), IpAddress::Ipv4(be_value(b, 16, 4) as u32)))
        } else {
            None
        }
    } else if version_nibble(b) == 6 {
        if ipv6_lengths_ok(b) {
            Some((IpAddress::Ipv6(be_value(b, 8, 16) as u128), IpAddress::Ipv6(be_value(b, 24, 16) as u128)))
        } else {
            None
        }
    } else {
        None
    }
}

/// `smoltcp::wire::IpVersion::of_packet`: the version nibble of the first
/// byte, when it is 4 or 6.
#[verifier::external_body]
fn ip_version(packet: &[u8]) -> (r: Option<u8>)
    requires
        packet@.len() > 0,
    ensures
        r == (if version_nibble(packet@) == 4 {
            Some(4u8)
        } else if version_nibble(packet@) == 6 {
            Some(6u8)
        } else {
            None
        }),
{
    match IpVersion::of_packet(packet) {
        Ok(IpVersion::Ipv4) => Some(4),
        Ok(IpVersion::Ipv6) => Some(6),
        Err(_) => None,
    }
}

/// `smoltcp::wire::Ipv4Packet::new_checked`, then `src_addr` and
/// `dst_addr`: the two addresses when the lengths check.
#[verifier::external_body]
fn ipv4_checked_addrs(packet: &[u8]) -> (r: Option<(u32, u32)>)
    ensures
        r == (if ipv4_lengths_ok(packet@) {
            Some((be_value(packet@, 12, 4) as u32, be_value(packet@, 16, 4) as u32))
        } else {
            None
        }),
{
    match Ipv4Packet::new_checked(packet) {
        Ok(p) => Some((p.src_addr().to_bits(), p.dst_addr().to_bits())),
        Err(_) => None,
    }
}

/// `smoltcp::wire::Ipv6Packet::new_checked`, then `src_addr` and
/// `dst_addr`: the two addresses when the lengths check.
#[verifier::external_body]
fn ipv6_checked_addrs(packet: &[u8]) -> (r: Option<(u128, u128)>)
    ensures
        r == (if ipv6_lengths_ok(packet@) {
            Some((be_value(packet@, 8, 16) as u128, be_value(packet@, 24, 16) as u128))
        } else {
            None
        }),
{
    match Ipv6Packet::new_checked(packet) {
        Ok(p) => Some((p.src_addr().to_bits(), p.dst_addr().to_bits())),
        Err(_) => None,
    }
}

/// The source and destination of the IP packet in `packet`, as the stack
/// reads them; `None` when the packet is empty, of another version, or its
/// lengths do not check.
pub fn ip_packet_addrs(packet: &[u8]) -> (r: Option<(IpAddress, IpAddress)>)
    ensures
        r == packet_addrs(packet@),
{
    if packet.len() == 0 {
        return None;
    }
    match ip_version(packet) {
        Some(4) => match ipv4_checked_addrs(packet) {
            Some((s, d)) => Some((IpAddress::Ipv4(s), IpAddress::Ipv4(d))),
            None => None,
        },
        Some(6) => match ipv6_checked_addrs(packet) {
            Some((s, d)) => Some((IpAddress::Ipv6(s), IpAddress::Ipv6(d))),
            None => None,
        },
        _ => None,
    }
}

/// The IP protocol number of TCP.
pub const IP_PROTOCOL_TCP: u8 = 6;

/// What a buffer must hold for the stack to read an incoming packet
/// without checking it: version 4 or 6, the fixed header, a payload range
/// inside the buffer, and for TCP the ports and flags of its header.
pub open spec fn snoopable(b: Seq<u8>) -> bool {
    &&& b.len() > 0
    &&& version_nibble(b) == 4 || version_nibble(b) == 6
    &&& version_nibble(b) == 4 ==> {
        &&& b.len() >= 20
        &&& ipv4_header_len(b) <= ipv4_total_len(b) <= b.len()
        &&& b[9] == IP_PROTOCOL_TCP ==> ipv4_total_len(b) - ipv4_header_len(b) >= 14
    }
    &&& version_nibble(b) == 6 ==> {
        &&& b.len() >= 40 + ipv6_payload_len(b)
        &&& b[6] == IP_PROTOCOL_TCP ==> ipv6_payload_len(b) >= 14
    }
}

/// Whether the stack can read the incoming packet in `packet` unchecked
/// (see `snoopable`).
pub fn is_snoopable(packet: &[u8]) -> (r: bool)
    ensures
        r == snoopable(packet@),
{
    let len = packet.len();
    if len == 0 {
        return false;
    }
    let v = packet[0] / 16;
    proof {
        reveal_with_fuel(be_value, 3);
    }
    if v == 4 {
        if len < 20 {
            return false;
        }
        let hl: usize = (packet[0] % 16) as usize * 4;
        let tl: usize = packet[2] as usize * 256 + packet[3] as usize;
        assert(hl == ipv4_header_len(packet@));
        assert(tl == ipv4_total_len(packet@));
        if !(hl <= tl && tl <= len) {
            return false;
        }
        packet[9] != IP_PROTOCOL_TCP || tl - hl >= 14
    } else if v == 6 {
        if len < 40 {
            return false;
        }
        let pl: usize = packet[4] as usize * 256 + packet[5] as usize;
        assert(pl == ipv6_payload_len(packet@));
        if len < 40 + pl {
            return false;
        }
        packet[6] != IP_PROTOCOL_TCP || pl >= 14
    } else {
        false
    }
}

/// The ends and flags of a TCP segment.
#[derive(Clone, Copy, Debug, PartialEq, Eq, Structural)]
pub struct TcpSegmentHead {
    pub src_addr: IpAddress,
    pub src_port: u16,
    pub dst_addr: IpAddress,
    pub dst_port: u16,
    pub syn: bool,
    pub ack: bool,
}

/// The head of the TCP segment `t` sent from `src` to `dst`: ports at bytes
/// 0..2 and 2..4, and the SYN and ACK bits of the flags at bytes 12..14.
pub open spec fn segment_head(src: IpAddress, dst: IpAddress, t: Seq<u8>) -> TcpSegmentHead {
    TcpSegmentHead {
        src_addr: src,
        src_port: be_value(t, 0, 2) as u16,
        dst_addr: dst,
        dst_port: be_value(t, 2, 2) as u16,
        syn: (be_value(t, 12, 2) / 2) % 2 == 1,
        ack: (be_value(t, 12, 2) / 16) % 2 == 1,
    }
}

/// The TCP segment an incoming packet carries, if it carries one: the
/// IPv4 payload is bytes from the header length to the total length, the
/// IPv6 payload the `payload length` bytes after the fixed header.
pub open spec fn tcp_head_of(b: Seq<u8>) -> Option<TcpSegmentHead> {
    if version_nibble(b) == 4 {
        if b[9] == IP_PROTOCOL_TCP {
            Some(
                segment_head(
                    IpAddress::Ipv4(be_value(b, 12, 4) as u32),
                    IpAddress::Ipv4(be_value(b, 16, 4) as u32),
                    b.subrange(ipv4_header_len(b), ipv4_total_len(b)),
                ),
            )
        } else {
            None
        }
    } else if b[6] == IP_PROTOCOL_TCP {
        Some(
            segment_head(
                IpAddress::Ipv6(be_value(b, 8, 16) as u128),
                IpAddress::Ipv6(be_value(b, 24, 16) as u128),
                b.subrange(40, 40 + ipv6_payload_len(b)),
            ),
        )
    } else {
        None
    }
}

/// `smoltcp::wire::Ipv4Packet::new_unchecked`, then `next_header`,
/// `src_addr`, `dst_addr` and `payload`: the protocol byte, the addresses
/// and the bytes from the header length to the total length.
#[verifier::external_body]
fn ipv4_fields(packet: &[u8]) -> (r: (u8, u32, u32, &[u8]))
    requires
        packet@.len() >= 20,
        ipv4_header_len(packet@) <= ipv4_total_len(packet@) <= packet@.len(),
    ensures
        r.0 == packet@[9],
        r.1 == be_value(packet@, 12, 4) as u32,
        r.2 == be_value(packet@, 16, 4) as u32,
        r.3@ == packet@.subrange(ipv4_header_len(packet@), ipv4_total_len(packet@)),
{
    let p = Ipv4Packet::new_unchecked(packet);
    (u8::from(p.next_header()), p.src_addr().to_bits(), p.dst_addr().to_bits(), p.payload())
}

/// `smoltcp::wire::Ipv6Packet::new_unchecked`, then `next_header`,
/// `src_addr`, `dst_addr` and `payload`: the next-header byte, the
/// addresses and the `payload length` bytes after the fixed header.
#[verifier::external_body]
fn ipv6_fields(packet: &[u8]) -> (r: (u8, u128, u128, &[u8]))
    requires
        packet@.len() >= 40 + ipv6_payload_len(packet@),
    ensures
        r.0 == packet@[6],
        r.1 == be_value(packet@, 8, 16) as u128,
        r.2 == be_value(packet@, 24, 16) as u128,
        r.3@ == packet@.subrange(40, 40 + ipv6_payload_len(packet@)),
{
    let p = Ipv6Packet::new_unchecked(packet);
    (u8::from(p.next_header()), p.src_addr().to_bits(), p.dst_addr().to_bits(), p.payload())
}

/// `smoltcp::wire::TcpPacket::new_unchecked`, then `src_port`, `dst_port`,
/// `syn` and `ack`: the big-endian ports at bytes 0..2 and 2..4, and bits
/// 0x002 and 0x010 of the big-endian flags at bytes 12..14.
#[verifier::external_body]
fn tcp_fields(segment: &[u8]) -> (r: (u16, u16, bool, bool))
    requires
        segment@.len() >= 14,
    ensures
        r.0 == be_value(segment@, 0, 2) as u16,
        r.1 == be_value(segment@, 2, 2) as u16,
        r.2 == ((be_value(segment@, 12, 2) / 2) % 2 == 1),
        r.3 == ((be_value(segment@, 12, 2) / 16) % 2 == 1),
{
    let t = TcpPacket::new_unchecked(segment);
    (t.src_port(), t.dst_port(), t.syn(), t.ack())
}

/// The TCP segment an incoming packet carries, read as the stack reads it
/// before handing the packet on; `None` for another protocol.
pub fn incoming_tcp_head(packet: &[u8]) -> (r: Option<TcpSegmentHead>)
    requires
        snoopable(packet@),
    ensures
        r == tcp_head_of(packet@),
{
    let v = ip_version(packet);
    let (proto, src, dst, payload) = if v == Some(4u8) {
        let (p, s, d, pl) = ipv4_fields(packet);
        (p, IpAddress::Ipv4(s), IpAddress::Ipv4(d), pl)
    } else {
        let (p, s, d, pl) = ipv6_fields(packet);
        (p, IpAddress::Ipv6(s), IpAddress::Ipv6(d), pl)
    };
    if proto != IP_PROTOCOL_TCP {
        return None;
    }
    let (sp, dp, syn, ack) = tcp_fields(payload);
    Some(TcpSegmentHead { src_addr: src, src_port: sp, dst_addr: dst, dst_port: dp, syn, ack })
}

/// The TCP segment head of an incoming packet names the packet's own
/// source and destination, as the header reader gives them for any packet,
/// IPv4 or IPv6; and a packet the stack reads unchecked passes the checks.
pub proof fn lemma_tcp_head_addresses(b: Seq<u8>)
    requires
        snoopable(b),
    ensures
        packet_addrs(b) is Some,
        tcp_head_of(b) matches Some(h) ==> packet_addrs(b) == Some((h.src_addr, h.dst_addr)),
{
}

} // verus!
