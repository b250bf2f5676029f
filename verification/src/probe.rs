//! The TCP SYN probe of a port and what a received frame says about it.

use vstd::prelude::*;
use crate::frame::{
    be16_at, be32_at, ethertype, ipv4_packet_of, ipv4_payload, ipv4_protocol, ipv4_source, ipv4_ttl,
    ipv4_header_len, ipv4_total_len, tcp_destination_port, tcp_flags, icmp_type, ETHERTYPE_IPV4,
    IP_PROTOCOL_ICMP, IP_PROTOCOL_TCP, ICMP_DESTINATION_UNREACHABLE, TCP_FLAG_SYN, TCP_FLAG_RST,
    TCP_FLAG_ACK,
};

verus! {

/// Source port of every probe; replies are recognised by it.
pub const PROBE_SOURCE_PORT: u16 = 8000;
/// Time to live of every probe.
pub const PROBE_TTL: u8 = 67;
/// Sequence number of every probe.
pub const PROBE_SEQUENCE: u32 = 1;
/// Window size of every probe.
pub const PROBE_WINDOW: u16 = 26180;

/// Ethernet frame that etherparse writes for an IPv4 TCP segment with only the
/// SYN flag set and no payload.
pub uninterp spec fn tcp_syn_frame(
    src_mac: Seq<u8>,
    dst_mac: Seq<u8>,
    src_ip: Seq<u8>,
    dst_ip: Seq<u8>,
    ttl: u8,
    src_port: u16,
    dst_port: u16,
    sequence: u32,
    window: u16,
) -> Seq<u8>;

/// Calls etherparse's `PacketBuilder::ethernet2(src_mac, dst_mac)
/// .ipv4(src_ip, dst_ip, ttl).tcp(src_port, dst_port, sequence, window).syn()`
/// and `write`s it with an empty payload into a new vector. Claimed: the bytes
/// are `tcp_syn_frame` of the arguments; the frame is 54 bytes long (14 Ethernet,
/// 20 IPv4 and 20 TCP header bytes, as etherparse writes headers without
/// options); the Ethernet header holds the destination MAC, the source MAC and
/// the IPv4 ether type; the IPv4 header is version 4 with a five-word header, a
/// total length of 40, the time to live, the TCP protocol number and both
/// addresses at their standard offsets; the TCP header holds both ports, the
/// sequence number, an acknowledgement number of 0, a five-word data offset, a
/// flag byte with only SYN set and the window size. The IPv4 identification and
/// fragment bytes, both checksums and the urgent pointer are left unstated
/// (shown only through `tcp_syn_frame`). Writing into a vector cannot fail for
/// an empty payload.
#[verifier::external_body]
fn write_tcp_syn_frame(
    src_mac: [u8; 6],
    dst_mac: [u8; 6],
    src_ip: [u8; 4],
    dst_ip: [u8; 4],
    ttl: u8,
    src_port: u16,
    dst_port: u16,
    sequence: u32,
    window: u16,
) -> (frame: Vec<u8>)
    ensures
        frame@ == tcp_syn_frame(
            src_mac@,
            dst_mac@,
            src_ip@,
            dst_ip@,
            ttl,
            src_port,
            dst_port,
            sequence,
            window,
        ),
        frame@.len() == 54,
        frame@.subrange(0, 6) == dst_mac@,
        frame@.subrange(6, 12) == src_mac@,
        ethertype(frame@) == ETHERTYPE_IPV4,
        frame@[14] == 0x45,
        be16_at(frame@, 16) == 40,
        frame@[22] == ttl,
        frame@[23] == IP_PROTOCOL_TCP,
        frame@.subrange(26, 30) == src_ip@,
        frame@.subrange(30, 34) == dst_ip@,
        be16_at(frame@, 34) == src_port,
        be16_at(frame@, 36) == dst_port,
        be32_at(frame@, 38) == sequence,
        be32_at(frame@, 42) == 0,
        frame@[46] == 0x50,
        frame@[47] == TCP_FLAG_SYN,
        be16_at(frame@, 48) == window,
{
    let builder = etherparse::PacketBuilder::ethernet2(src_mac, dst_mac)
        .ipv4(src_ip, dst_ip, ttl)
        .tcp(src_port, dst_port, sequence, window)
        .syn();
    let mut frame: Vec<u8> = Vec::new();
    builder.write(&mut frame, &[]).unwrap();
    frame
}

/// SYN probe of `port` on the host `target_mac`/`target_ip`, sent from the
/// interface `own_mac`/`own_ip`.
pub fn build_syn_probe(
    own_mac: [u8; 6],
    own_ip: [u8; 4],
    target_mac: [u8; 6],
    target_ip: [u8; 4],
    port: u16,
) -> (frame: Vec<u8>)
    ensures
        frame@ == tcp_syn_frame(
            own_mac@,
            target_mac@,
            own_ip@,
            target_ip@,
            PROBE_TTL,
            PROBE_SOURCE_PORT,
            port,
            PROBE_SEQUENCE,
            PROBE_WINDOW,
        ),
        frame@.len() == 54,
        frame@.subrange(0, 6) == target_mac@,
        frame@.subrange(6, 12) == own_mac@,
        ethertype(frame@) == ETHERTYPE_IPV4,
        frame@[14] == 0x45,
        be16_at(frame@, 16) == 40,
        frame@[22] == PROBE_TTL,
        frame@[23] == IP_PROTOCOL_TCP,
        frame@.subrange(26, 30) == own_ip@,
        frame@.subrange(30, 34) == target_ip@,
        be16_at(frame@, 34) == PROBE_SOURCE_PORT,
        be16_at(frame@, 36) == port,
        be32_at(frame@, 38) == PROBE_SEQUENCE,
        be32_at(frame@, 42) == 0,
        frame@[46] == 0x50,
        frame@[47] == TCP_FLAG_SYN,
        be16_at(frame@, 48) == PROBE_WINDOW,
{
    write_tcp_syn_frame(
        own_mac,
        target_mac,
        own_ip,
        target_ip,
        PROBE_TTL,
        PROBE_SOURCE_PORT,
        port,
        PROBE_SEQUENCE,
        PROBE_WINDOW,
    )
}

/// What the flags of a reply to a SYN say about the port.
#[derive(Clone, Copy, Debug, PartialEq, Eq)]
pub enum PortState {
    Open,
    Closed,
}

/// Operating system family guessed from the time to live of a reply.
#[derive(Clone, Copy, Debug, PartialEq, Eq)]
pub enum OsGuess {
    Embedded,
    LinuxOrEmbedded,
    Windows,
    MacOs,
    Unknown,
}

/// Why no frame was received.
#[derive(Clone, Copy, Debug, PartialEq, Eq)]
pub enum ReceiveError {
    TimedOut,
    WouldBlock,
    Other,
}

/// What to do after one attempt to receive while waiting for the reply to a probe.
#[derive(Clone, Copy, Debug, PartialEq, Eq)]
pub enum ProbeStep {
    /// The frame is not a reply to the probe: keep listening.
    Ignore,
    /// An ICMP destination-unreachable from the target: the port is filtered.
    Filtered,
    /// A TCP segment from the target to the probe's source port. `state` is what
    /// its flags say (none when they are neither SYN+ACK nor RST); `os` is the
    /// operating system guess, when one was asked for.
    Answered { state: Option<PortState>, os: Option<OsGuess> },
    /// Nothing arrived in time: the port is filtered or closed.
    NoAnswer,
    /// Receiving failed.
    Failed,
}

/// SYN and ACK both set: open; else RST set: closed.
pub open spec fn flags_state(flags: u8) -> Option<PortState> {
    if flags & TCP_FLAG_SYN != 0 && flags & TCP_FLAG_ACK != 0 {
        Some(PortState::Open)
    } else if flags & TCP_FLAG_RST != 0 {
        Some(PortState::Closed)
    } else {
        None
    }
}

/// Initial time to live of the usual systems, give or take 20 percent:
/// below 80% of 64 an embedded device, 80% to 120% of 64 Linux or an embedded
/// device, 80% to 120% of 128 Windows, 80% of 255 and above macOS.
pub open spec fn os_guess(ttl: u8) -> OsGuess {
    if ttl < 51 {
        OsGuess::Embedded
    } else if ttl <= 76 {
        OsGuess::LinuxOrEmbedded
    } else if 102 <= ttl && ttl <= 153 {
        OsGuess::Windows
    } else if 204 <= ttl {
        OsGuess::MacOs
    } else {
        OsGuess::Unknown
    }
}

/// What a received frame says about the probe sent to `target`.
pub open spec fn probe_reply(f: Seq<u8>, target: Seq<u8>, os_scan: bool) -> ProbeStep {
    match ipv4_packet_of(f) {
        None => ProbeStep::Ignore,
        Some(p) => {
            let body = ipv4_payload(p);
            if ipv4_source(p) != target {
                ProbeStep::Ignore
            } else if ipv4_protocol(p) == IP_PROTOCOL_ICMP && body.len() >= 4 && icmp_type(body)
                == ICMP_DESTINATION_UNREACHABLE {
                ProbeStep::Filtered
            } else if ipv4_protocol(p) == IP_PROTOCOL_TCP && body.len() >= 20 {
                if tcp_destination_port(body) != PROBE_SOURCE_PORT {
                    ProbeStep::Ignore
                } else {
                    ProbeStep::Answered {
                        state: flags_state(tcp_flags(body)),
                        os: if os_scan { Some(os_guess(ipv4_ttl(p))) } else { None },
                    }
                }
            } else {
                ProbeStep::Ignore
            }
        },
    }
}

/// What one attempt to receive means while waiting for the reply to a probe.
pub open spec fn probe_outcome(
    received: Result<Seq<u8>, ReceiveError>,
    target: Seq<u8>,
    os_scan: bool,
) -> ProbeStep {
    match received {
        Ok(f) => probe_reply(f, target, os_scan),
        Err(ReceiveError::Other) => ProbeStep::Failed,
        Err(_) => ProbeStep::NoAnswer,
    }
}

/// Operating system family guessed from a time to live.
pub fn guess_os(ttl: u8) -> (g: OsGuess)
    ensures
        g == os_guess(ttl),
{
    if ttl < 51 {
        OsGuess::Embedded
    } else if ttl <= 76 {
        OsGuess::LinuxOrEmbedded
    } else if 102 <= ttl && ttl <= 153 {
        OsGuess::Windows
    } else if 204 <= ttl {
        OsGuess::MacOs
    } else {
        OsGuess::Unknown
    }
}

/// What the flags of a TCP reply to a SYN say about the port.
pub fn port_state_of_flags(flags: u8) -> (s: Option<PortState>)
    ensures
        s == flags_state(flags),
{
    if flags & TCP_FLAG_SYN != 0 && flags & TCP_FLAG_ACK != 0 {
        Some(PortState::Open)
    } else if flags & TCP_FLAG_RST != 0 {
        Some(PortState::Closed)
    } else {
        None
    }
}

/// Where the payload of an IPv4 packet starts and ends.
fn ipv4_payload_bounds(p: &[u8]) -> (r: (usize, usize))
    requires
        p@.len() >= 20,
    ensures
        r.0 <= r.1 <= p@.len(),
        ipv4_payload(p@) == p@.subrange(r.0 as int, r.1 as int),
{
    let hl: usize = ((p[0] % 16) as usize) * 4;
    let start: usize = if hl < 20 { 20 } else { hl };
    let total: usize = (p[2] as usize) * 256 + (p[3] as usize);
    assert(total == ipv4_total_len(p@));
    assert(hl == ipv4_header_len(p@));
    let body: usize = if total >= hl { total - hl } else { 0 };
    if p.len() <= start {
        (0, 0)
    } else {
        let end: usize = if start + body < p.len() { start + body } else { p.len() };
        (start, end)
    }
}

/// What one attempt to receive means while waiting for the reply to the probe
/// sent to `target`; `os_scan` asks for an operating system guess.
pub fn probe_step(received: Result<&[u8], ReceiveError>, target: [u8; 4], os_scan: bool) -> (s:
    ProbeStep)
    ensures
        s == probe_outcome(
            match received {
                Ok(f) => Ok(f@),
                Err(e) => Err(e),
            },
            target@,
            os_scan,
        ),
{
    let f = match received {
        Ok(f) => f,
        Err(ReceiveError::Other) => {
            return ProbeStep::Failed;
        },
        Err(_) => {
            return ProbeStep::NoAnswer;
        },
    };
    if f.len() < 14 + 20 {
        return ProbeStep::Ignore;
    }
    if (f[12] as u16) * 256 + (f[13] as u16) != ETHERTYPE_IPV4 {
        return ProbeStep::Ignore;
    }
    let p = vstd::slice::slice_subrange(f, 14, f.len());
    assert(p@ =~= crate::frame::ethernet_payload(f@));
    if p[12] != target[0] || p[13] != target[1] || p[14] != target[2] || p[15] != target[3] {
        assert(ipv4_source(p@) != target@) by {
            if ipv4_source(p@) == target@ {
                assert(ipv4_source(p@)[0] == target@[0]);
                assert(ipv4_source(p@)[1] == target@[1]);
                assert(ipv4_source(p@)[2] == target@[2]);
                assert(ipv4_source(p@)[3] == target@[3]);
            }
        }
        return ProbeStep::Ignore;
    }
    assert(ipv4_source(p@) =~= target@);
    let (start, end) = ipv4_payload_bounds(p);
    let len = end - start;
    let protocol = p[9];
    if protocol == IP_PROTOCOL_ICMP && len >= 4 && p[start] == ICMP_DESTINATION_UNREACHABLE {
        return ProbeStep::Filtered;
    }
    if protocol == IP_PROTOCOL_TCP && len >= 20 {
        let dst = (p[start + 2] as u16) * 256 + (p[start + 3] as u16);
        if dst != PROBE_SOURCE_PORT {
            return ProbeStep::Ignore;
        }
        let state = port_state_of_flags(p[start + 13]);
        let os = if os_scan {
            Some(guess_os(p[8]))
        } else {
            None
        };
        return ProbeStep::Answered { state, os };
    }
    ProbeStep::Ignore
}

/// Only an IPv4 packet from the target decides a probe: any frame that is not
/// IPv4, or whose IPv4 source address (bytes 26 to 29 of the frame) is another
/// host's, is ignored, whatever it carries.
pub proof fn lemma_only_target_decides(f: Seq<u8>, target: Seq<u8>, os_scan: bool)
    ensures
        probe_reply(f, target, os_scan) != ProbeStep::Ignore ==> {
            &&& f.len() >= 34
            &&& f[12] == 0x08 && f[13] == 0x00
            &&& f.subrange(26, 30) == target
        },
        (f.len() >= 34 && f.subrange(26, 30) != target) ==> probe_reply(f, target, os_scan)
            == ProbeStep::Ignore,
{
    if f.len() >= 14 {
        let p = crate::frame::ethernet_payload(f);
        if p.len() >= 20 {
            assert(ipv4_source(p) =~= f.subrange(26, 30));
        }
    }
}

/// A TCP segment from the target to the probe's source port answers the probe
/// whatever the lengths of its IPv4 and TCP headers, options included: its
/// flags say open (SYN and ACK) or closed (RST), and the guess, when asked for,
/// comes from the IPv4 time to live. `hl` is the IPv4 header length the packet
/// declares and `total` its total length.
pub proof fn lemma_tcp_reply_answers(f: Seq<u8>, target: Seq<u8>, os_scan: bool)
    requires
        f.len() >= 34,
        f[12] == 0x08,
        f[13] == 0x00,
        f[23] == IP_PROTOCOL_TCP,
        f.subrange(26, 30) == target,
        (f[14] % 16) * 4 >= 20,
        be16_at(f, 16) >= (f[14] % 16) * 4 + 20,
        f.len() >= 14 + be16_at(f, 16),
        be16_at(f, 14 + (f[14] % 16) * 4 + 2) == PROBE_SOURCE_PORT,
    ensures
        ({
            let flags = f[14 + (f[14] % 16) * 4 + 13];
            let os = if os_scan { Some(os_guess(f[22])) } else { None };
            &&& flags & TCP_FLAG_SYN != 0 && flags & TCP_FLAG_ACK != 0 ==> probe_reply(
                f,
                target,
                os_scan,
            ) == ProbeStep::Answered { state: Some(PortState::Open), os }
            &&& !(flags & TCP_FLAG_SYN != 0 && flags & TCP_FLAG_ACK != 0) && flags & TCP_FLAG_RST
                != 0 ==> probe_reply(f, target, os_scan) == ProbeStep::Answered {
                state: Some(PortState::Closed),
                os,
            }
            &&& probe_reply(f, target, os_scan) is Answered
        }),
{
    let p = crate::frame::ethernet_payload(f);
    let hl = (f[14] % 16) * 4;
    let total = be16_at(f, 16);
    assert(p[0] == f[14]);
    assert(p[2] == f[16] && p[3] == f[17]);
    assert(ipv4_header_len(p) == hl);
    assert(ipv4_total_len(p) == total);
    assert(ipv4_source(p) =~= f.subrange(26, 30));
    assert(ipv4_protocol(p) == f[23]);
    assert(ipv4_ttl(p) == f[22]);
    let body = ipv4_payload(p);
    assert(body =~= p.subrange(hl, total));
    assert(body.len() >= 20);
    assert(body[2] == f[14 + hl + 2] && body[3] == f[14 + hl + 3]);
    assert(tcp_destination_port(body) == PROBE_SOURCE_PORT);
    assert(tcp_flags(body) == f[14 + hl + 13]);
}

/// The guess takes 80% and 120% of the usual initial time to live (64 for Linux
/// and embedded devices, 128 for Windows, 255 for macOS, where 120% is capped at
/// 255), each cut down to a whole number: below 80% of 64 an embedded device;
/// from 80% to 120% of 64 Linux or an embedded device; from 80% to 120% of 128
/// Windows; from 80% of 255 on macOS; anything between the bands is unknown.
pub proof fn lemma_os_guess_bands(ttl: u8)
    ensures
        os_guess(ttl) == OsGuess::Embedded <==> ttl < 64 * 4 / 5,
        os_guess(ttl) == OsGuess::LinuxOrEmbedded <==> 64 * 4 / 5 <= ttl <= 64 * 6 / 5,
        os_guess(ttl) == OsGuess::Windows <==> 128 * 4 / 5 <= ttl <= 128 * 6 / 5,
        os_guess(ttl) == OsGuess::MacOs <==> 255 * 4 / 5 <= ttl,
        os_guess(ttl) == OsGuess::Unknown <==> (64 * 6 / 5 < ttl < 128 * 4 / 5 || 128 * 6 / 5 < ttl
            < 255 * 4 / 5),
{
}

/// An ICMP destination-unreachable from the target settles the probe as
/// filtered, whatever the length of its IPv4 header.
pub proof fn lemma_unreachable_from_target_filters(f: Seq<u8>, target: Seq<u8>, os_scan: bool)
    requires
        f.len() >= 34,
        f[12] == 0x08,
        f[13] == 0x00,
        f[23] == IP_PROTOCOL_ICMP,
        f.subrange(26, 30) == target,
        (f[14] % 16) * 4 >= 20,
        be16_at(f, 16) >= (f[14] % 16) * 4 + 4,
        f.len() >= 14 + be16_at(f, 16),
        f[14 + (f[14] % 16) * 4] == ICMP_DESTINATION_UNREACHABLE,
    ensures
        probe_reply(f, target, os_scan) == ProbeStep::Filtered,
{
    let p = crate::frame::ethernet_payload(f);
    let hl = (f[14] % 16) * 4;
    let total = be16_at(f, 16);
    assert(p[0] == f[14]);
    assert(p[2] == f[16] && p[3] == f[17]);
    assert(ipv4_header_len(p) == hl);
    assert(ipv4_total_len(p) == total);
    assert(ipv4_source(p) =~= f.subrange(26, 30));
    assert(ipv4_protocol(p) == f[23]);
    let body = ipv4_payload(p);
    assert(body =~= p.subrange(hl, total));
    assert(icmp_type(body) == f[14 + hl]);
}

} // verus!
