//! Ethernet, ARP, IPv4, ICMP and TCP header layouts: where each field the
//! scanner reads or writes sits in a frame.

use vstd::prelude::*;

verus! {

pub const ARP_FRAME_LEN: usize = 42;
pub const ETHERTYPE_IPV4: u16 = 0x0800;
pub const ETHERTYPE_ARP: u16 = 0x0806;
pub const ARP_OP_REQUEST: u16 = 1;
pub const ARP_OP_REPLY: u16 = 2;
pub const IP_PROTOCOL_ICMP: u8 = 1;
pub const IP_PROTOCOL_TCP: u8 = 6;
pub const ICMP_DESTINATION_UNREACHABLE: u8 = 3;
pub const TCP_FLAG_SYN: u8 = 0x02;
pub const TCP_FLAG_RST: u8 = 0x04;
pub const TCP_FLAG_ACK: u8 = 0x10;

/// Big-endian 16-bit field at `at`.
pub open spec fn be16_at(p: Seq<u8>, at: int) -> int {
    p[at] * 256 + p[at + 1]
}

/// Big-endian 32-bit field at `at`.
pub open spec fn be32_at(p: Seq<u8>, at: int) -> int {
    be16_at(p, at) * 65536 + be16_at(p, at + 2)
}

// ----- Ethernet II -----

pub open spec fn ethertype(f: Seq<u8>) -> int {
    be16_at(f, 12)
}

pub open spec fn ethernet_payload(f: Seq<u8>) -> Seq<u8> {
    f.skip(14)
}

// ----- ARP (Ethernet hardware, IPv4 protocol addresses) -----

pub open spec fn arp_operation(p: Seq<u8>) -> int {
    be16_at(p, 6)
}

pub open spec fn arp_sender_mac(p: Seq<u8>) -> Seq<u8> {
    p.subrange(8, 14)
}

pub open spec fn arp_sender_ip(p: Seq<u8>) -> Seq<u8> {
    p.subrange(14, 18)
}

pub open spec fn arp_target_mac(p: Seq<u8>) -> Seq<u8> {
    p.subrange(18, 24)
}

pub open spec fn arp_target_ip(p: Seq<u8>) -> Seq<u8> {
    p.subrange(24, 28)
}

/// The ARP packet an Ethernet frame carries, if it is long enough to hold one.
pub open spec fn arp_packet_of(f: Seq<u8>) -> Option<Seq<u8>> {
    if f.len() >= 14 && ethertype(f) == ETHERTYPE_ARP && ethernet_payload(f).len() >= 28 {
        Some(ethernet_payload(f))
    } else {
        None
    }
}

/// Sender hardware and protocol address of the ARP reply a frame carries.
pub open spec fn arp_reply_of(f: Seq<u8>) -> Option<(Seq<u8>, Seq<u8>)> {
    match arp_packet_of(f) {
        Some(p) => if arp_operation(p) == ARP_OP_REPLY {
            Some((arp_sender_mac(p), arp_sender_ip(p)))
        } else {
            None
        },
        None => None,
    }
}

pub open spec fn broadcast_mac() -> Seq<u8> {
    seq![0xffu8, 0xff, 0xff, 0xff, 0xff, 0xff]
}

pub open spec fn zero_mac() -> Seq<u8> {
    seq![0u8, 0, 0, 0, 0, 0]
}

/// Broadcast Ethernet frame asking who holds `target_ip`, from `mac`/`ip`.
pub open spec fn arp_request_frame(mac: Seq<u8>, ip: Seq<u8>, target_ip: Seq<u8>) -> Seq<u8> {
    broadcast_mac() + mac + seq![0x08u8, 0x06]
        + seq![0x00u8, 0x01, 0x08, 0x00, 6, 4, 0x00, 0x01]
        + mac + ip + zero_mac() + target_ip
}

// ----- IPv4 -----

pub open spec fn ipv4_header_len(p: Seq<u8>) -> int {
    (p[0] % 16) * 4
}

pub open spec fn ipv4_total_len(p: Seq<u8>) -> int {
    be16_at(p, 2)
}

pub open spec fn ipv4_ttl(p: Seq<u8>) -> u8 {
    p[8]
}

pub open spec fn ipv4_protocol(p: Seq<u8>) -> u8 {
    p[9]
}

pub open spec fn ipv4_source(p: Seq<u8>) -> Seq<u8> {
    p.subrange(12, 16)
}

/// The bytes after the header (options included), up to the total length the
/// header declares, cut at the end of the packet.
pub open spec fn ipv4_payload(p: Seq<u8>) -> Seq<u8> {
    let hl = ipv4_header_len(p);
    let start = if hl < 20 { 20 } else { hl };
    let body = if ipv4_total_len(p) >= hl { ipv4_total_len(p) - hl } else { 0 };
    let end = if start + body < p.len() { start + body } else { p.len() as int };
    if p.len() <= start {
        Seq::<u8>::empty()
    } else {
        p.subrange(start, end)
    }
}

/// The IPv4 packet an Ethernet frame carries, if it is long enough to hold a header.
pub open spec fn ipv4_packet_of(f: Seq<u8>) -> Option<Seq<u8>> {
    if f.len() >= 14 && ethertype(f) == ETHERTYPE_IPV4 && ethernet_payload(f).len() >= 20 {
        Some(ethernet_payload(f))
    } else {
        None
    }
}

// ----- TCP and ICMP -----

pub open spec fn tcp_destination_port(t: Seq<u8>) -> int {
    be16_at(t, 2)
}

pub open spec fn tcp_flags(t: Seq<u8>) -> u8 {
    t[13]
}

pub open spec fn icmp_type(m: Seq<u8>) -> u8 {
    m[0]
}

// ----- executable encoders and decoders -----

/// Broadcast ARP request for `target_ip`, from the interface `mac`/`ip`.
pub fn build_arp_request(mac: [u8; 6], ip: [u8; 4], target_ip: [u8; 4]) -> (frame: Vec<u8>)
    ensures
        frame@ == arp_request_frame(mac@, ip@, target_ip@),
        frame@.len() == ARP_FRAME_LEN,
{
    let mut frame: Vec<u8> = Vec::new();
    let mut i: usize = 0;
    while i < 6
        invariant
            0 <= i <= 6,
            frame@ =~= broadcast_mac().take(i as int),
        decreases 6 - i,
    {
        frame.push(0xff);
        i += 1;
    }
    push_all(&mut frame, &mac);
    frame.push(0x08);
    frame.push(0x06);
    frame.push(0x00);
    frame.push(0x01);
    frame.push(0x08);
    frame.push(0x00);
    frame.push(6);
    frame.push(4);
    frame.push(0x00);
    frame.push(0x01);
    push_all(&mut frame, &mac);
    push_all(&mut frame, &ip);
    let zero: [u8; 6] = [0u8; 6];
    assert(zero@ =~= zero_mac());
    push_all(&mut frame, &zero);
    push_all(&mut frame, &target_ip);
    assert(frame@ =~= arp_request_frame(mac@, ip@, target_ip@));
    frame
}

fn push_all(v: &mut Vec<u8>, bytes: &[u8])
    ensures
        final(v)@ == old(v)@ + bytes@,
{
    let mut i: usize = 0;
    while i < bytes.len()
        invariant
            0 <= i <= bytes@.len(),
            v@ =~= old(v)@ + bytes@.take(i as int),
        decreases bytes@.len() - i,
    {
        v.push(bytes[i]);
        i += 1;
    }
    assert(bytes@.take(bytes@.len() as int) =~= bytes@);
}

fn be16(p: &[u8], at: usize) -> (v: u16)
    requires
        at + 1 < p@.len(),
    ensures
        v == be16_at(p@, at as int),
{
    (p[at] as u16) * 256 + (p[at + 1] as u16)
}

/// Sender hardware and protocol address of the ARP reply `frame` carries, if any.
pub fn read_arp_reply(frame: &[u8]) -> (r: Option<([u8; 6], [u8; 4])>)
    ensures
        match r {
            Some((mac, ip)) => arp_reply_of(frame@) == Some((mac@, ip@)),
            None => arp_reply_of(frame@).is_none(),
        },
{
    if frame.len() < 14 + 28 {
        return None;
    }
    if be16(frame, 12) != ETHERTYPE_ARP {
        return None;
    }
    if be16(frame, 14 + 6) != ARP_OP_REPLY {
        return None;
    }
    let mac: [u8; 6] = [frame[22], frame[23], frame[24], frame[25], frame[26], frame[27]];
    let ip: [u8; 4] = [frame[28], frame[29], frame[30], frame[31]];
    assert(mac@ =~= arp_sender_mac(ethernet_payload(frame@)));
    assert(ip@ =~= arp_sender_ip(ethernet_payload(frame@)));
    Some((mac, ip))
}

/// An ARP request built by the scanner reads back as an ARP request from the
/// interface for the target, and is never taken for a reply.
pub proof fn lemma_arp_request_reads_back(mac: Seq<u8>, ip: Seq<u8>, target_ip: Seq<u8>)
    requires
        mac.len() == 6,
        ip.len() == 4,
        target_ip.len() == 4,
    ensures
        ({
            let f = arp_request_frame(mac, ip, target_ip);
            &&& arp_packet_of(f) is Some
            &&& arp_operation(arp_packet_of(f).unwrap()) == ARP_OP_REQUEST
            &&& arp_sender_mac(arp_packet_of(f).unwrap()) == mac
            &&& arp_sender_ip(arp_packet_of(f).unwrap()) == ip
            &&& arp_target_mac(arp_packet_of(f).unwrap()) == zero_mac()
            &&& arp_target_ip(arp_packet_of(f).unwrap()) == target_ip
            &&& f.subrange(0, 6) == broadcast_mac()
            &&& arp_reply_of(f) is None
        }),
{
    let f = arp_request_frame(mac, ip, target_ip);
    let p = ethernet_payload(f);
    assert(f.len() == 42);
    assert(f[12] == 0x08 && f[13] == 0x06);
    assert(p[6] == 0 && p[7] == 1);
    assert(arp_sender_mac(p) =~= mac);
    assert(arp_sender_ip(p) =~= ip);
    assert(arp_target_mac(p) =~= zero_mac());
    assert(arp_target_ip(p) =~= target_ip);
    assert(f.subrange(0, 6) =~= broadcast_mac());
}

} // verus!
