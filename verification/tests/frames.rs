use blacknoir::frame::{build_arp_request, read_arp_reply};
use blacknoir::probe::{
    build_syn_probe, guess_os, port_state_of_flags, probe_step, OsGuess, PortState, ProbeStep,
    ReceiveError,
};
use pnet::packet::arp::{ArpHardwareTypes, ArpOperations, ArpPacket, MutableArpPacket};
use pnet::packet::ethernet::{EtherTypes, EthernetPacket, MutableEthernetPacket};
use pnet::packet::{MutablePacket, Packet};
use pnet::util::MacAddr;

const OWN_MAC: [u8; 6] = [0x02, 0x11, 0x22, 0x33, 0x44, 0x55];
const OWN_IP: [u8; 4] = [192, 168, 1, 5];
const PEER_MAC: [u8; 6] = [0x0a, 0xbb, 0xcc, 0xdd, 0xee, 0xff];
const PEER_IP: [u8; 4] = [192, 168, 1, 20];

fn mac(m: [u8; 6]) -> MacAddr {
    MacAddr::new(m[0], m[1], m[2], m[3], m[4], m[5])
}

fn pnet_arp(op: u16, sender_mac: [u8; 6], sender_ip: [u8; 4], target_ip: [u8; 4]) -> Vec<u8> {
    let mut buffer = vec![0u8; 42];
    {
        let mut eth = MutableEthernetPacket::new(&mut buffer).unwrap();
        eth.set_destination(MacAddr::broadcast());
        eth.set_source(mac(sender_mac));
        eth.set_ethertype(EtherTypes::Arp);
        let mut arp = MutableArpPacket::new(eth.payload_mut()).unwrap();
        arp.set_hardware_type(ArpHardwareTypes::Ethernet);
        arp.set_protocol_type(EtherTypes::Ipv4);
        arp.set_hw_addr_len(6);
        arp.set_proto_addr_len(4);
        arp.set_operation(pnet::packet::arp::ArpOperation::new(op));
        arp.set_sender_hw_addr(mac(sender_mac));
        arp.set_sender_proto_addr(sender_ip.into());
        arp.set_target_hw_addr(MacAddr::zero());
        arp.set_target_proto_addr(target_ip.into());
    }
    buffer
}

#[test]
fn arp_request_matches_pnet_layout() {
    let ours = build_arp_request(OWN_MAC, OWN_IP, PEER_IP);
    assert_eq!(ours.len(), 42);
    assert_eq!(ours, pnet_arp(1, OWN_MAC, OWN_IP, PEER_IP));
    let eth = EthernetPacket::new(&ours).unwrap();
    assert_eq!(eth.get_destination(), MacAddr::broadcast());
    assert_eq!(eth.get_ethertype(), EtherTypes::Arp);
    let arp = ArpPacket::new(eth.payload()).unwrap();
    assert_eq!(arp.get_operation(), ArpOperations::Request);
    assert_eq!(arp.get_sender_proto_addr().octets(), OWN_IP);
    assert_eq!(arp.get_target_proto_addr().octets(), PEER_IP);
}

#[test]
fn arp_request_is_not_a_reply() {
    assert_eq!(read_arp_reply(&build_arp_request(OWN_MAC, OWN_IP, PEER_IP)), None);
}

#[test]
fn arp_reply_gives_sender() {
    let reply = pnet_arp(2, PEER_MAC, PEER_IP, OWN_IP);
    assert_eq!(read_arp_reply(&reply), Some((PEER_MAC, PEER_IP)));
    let mut padded = reply.clone();
    padded.extend_from_slice(&[0u8; 18]);
    assert_eq!(read_arp_reply(&padded), Some((PEER_MAC, PEER_IP)));
}

#[test]
fn arp_reply_rejects_short_or_foreign_frames() {
    let reply = pnet_arp(2, PEER_MAC, PEER_IP, OWN_IP);
    assert_eq!(read_arp_reply(&reply[..41]), None);
    assert_eq!(read_arp_reply(&[]), None);
    let mut ipv4 = reply.clone();
    ipv4[13] = 0x00;
    assert_eq!(read_arp_reply(&ipv4), None);
    assert_eq!(read_arp_reply(&pnet_arp(3, PEER_MAC, PEER_IP, OWN_IP)), None);
}

#[test]
fn syn_probe_is_a_tcp_syn_to_the_port() {
    let frame = build_syn_probe(OWN_MAC, OWN_IP, PEER_MAC, PEER_IP, 443);
    assert_eq!(frame.len(), 54);
    let sliced = etherparse::SlicedPacket::from_ethernet(&frame).unwrap();
    match sliced.link {
        Some(etherparse::LinkSlice::Ethernet2(eth)) => {
            assert_eq!(eth.source(), OWN_MAC);
            assert_eq!(eth.destination(), PEER_MAC);
        }
        _ => panic!("no ethernet header"),
    }
    match sliced.net {
        Some(etherparse::NetSlice::Ipv4(ip)) => {
            assert_eq!(ip.header().source(), OWN_IP);
            assert_eq!(ip.header().destination(), PEER_IP);
            assert_eq!(ip.header().ttl(), 67);
        }
        _ => panic!("no ipv4 header"),
    }
    match sliced.transport {
        Some(etherparse::TransportSlice::Tcp(tcp)) => {
            assert_eq!(tcp.source_port(), 8000);
            assert_eq!(tcp.destination_port(), 443);
            assert_eq!(tcp.sequence_number(), 1);
            assert_eq!(tcp.window_size(), 26180);
            assert!(tcp.syn());
            assert!(!tcp.ack() && !tcp.rst() && !tcp.fin());
        }
        _ => panic!("no tcp header"),
    }
    assert_eq!(&frame[12..14], &[0x08, 0x00]);
    assert_eq!(frame[14], 0x45);
    assert_eq!(&frame[16..18], &[0, 40]);
    assert_eq!(frame[22], 67);
    assert_eq!(frame[23], 6);
    assert_eq!(&frame[34..36], &8000u16.to_be_bytes());
    assert_eq!(&frame[36..38], &443u16.to_be_bytes());
    assert_eq!(&frame[38..42], &[0, 0, 0, 1]);
    assert_eq!(&frame[42..46], &[0, 0, 0, 0]);
    assert_eq!(frame[46], 0x50);
    assert_eq!(frame[47], 0x02);
    assert_eq!(&frame[48..50], &26180u16.to_be_bytes());
}

fn tcp_reply(src_ip: [u8; 4], ttl: u8, dst_port: u16, syn: bool, ack: bool, rst: bool) -> Vec<u8> {
    let mut b = etherparse::PacketBuilder::ethernet2(PEER_MAC, OWN_MAC)
        .ipv4(src_ip, OWN_IP, ttl)
        .tcp(443, dst_port, 99, 1024);
    if syn {
        b = b.syn();
    }
    if ack {
        b = b.ack(2);
    }
    if rst {
        b = b.rst();
    }
    let mut out = Vec::new();
    b.write(&mut out, &[]).unwrap();
    out
}

#[test]
fn probe_step_reads_syn_ack_as_open() {
    let f = tcp_reply(PEER_IP, 64, 8000, true, true, false);
    assert_eq!(
        probe_step(Ok(&f), PEER_IP, true),
        ProbeStep::Answered { state: Some(PortState::Open), os: Some(OsGuess::LinuxOrEmbedded) }
    );
    assert_eq!(
        probe_step(Ok(&f), PEER_IP, false),
        ProbeStep::Answered { state: Some(PortState::Open), os: None }
    );
}

#[test]
fn probe_step_reads_rst_as_closed() {
    let f = tcp_reply(PEER_IP, 128, 8000, false, true, true);
    assert_eq!(
        probe_step(Ok(&f), PEER_IP, true),
        ProbeStep::Answered { state: Some(PortState::Closed), os: Some(OsGuess::Windows) }
    );
    let f = tcp_reply(PEER_IP, 250, 8000, false, true, false);
    assert_eq!(
        probe_step(Ok(&f), PEER_IP, true),
        ProbeStep::Answered { state: None, os: Some(OsGuess::MacOs) }
    );
}

#[test]
fn probe_step_ignores_other_traffic() {
    let other_host = tcp_reply([192, 168, 1, 21], 64, 8000, true, true, false);
    assert_eq!(probe_step(Ok(&other_host), PEER_IP, true), ProbeStep::Ignore);
    let other_port = tcp_reply(PEER_IP, 64, 8001, true, true, false);
    assert_eq!(probe_step(Ok(&other_port), PEER_IP, true), ProbeStep::Ignore);
    let arp = pnet_arp(2, PEER_MAC, PEER_IP, OWN_IP);
    assert_eq!(probe_step(Ok(&arp), PEER_IP, true), ProbeStep::Ignore);
    assert_eq!(probe_step(Ok(&[0u8; 10]), PEER_IP, true), ProbeStep::Ignore);
    let truncated = tcp_reply(PEER_IP, 64, 8000, true, true, false);
    assert_eq!(probe_step(Ok(&truncated[..50]), PEER_IP, true), ProbeStep::Ignore);
}

#[test]
fn probe_step_reads_icmp_unreachable_as_filtered() {
    let mut out = Vec::new();
    etherparse::PacketBuilder::ethernet2(PEER_MAC, OWN_MAC)
        .ipv4(PEER_IP, OWN_IP, 64)
        .icmpv4(etherparse::Icmpv4Type::DestinationUnreachable(
            etherparse::icmpv4::DestUnreachableHeader::Port,
        ))
        .write(&mut out, &[])
        .unwrap();
    assert_eq!(probe_step(Ok(&out), PEER_IP, true), ProbeStep::Filtered);
    let mut echo = Vec::new();
    etherparse::PacketBuilder::ethernet2(PEER_MAC, OWN_MAC)
        .ipv4(PEER_IP, OWN_IP, 64)
        .icmpv4_echo_reply(1, 1)
        .write(&mut echo, &[])
        .unwrap();
    assert_eq!(probe_step(Ok(&echo), PEER_IP, true), ProbeStep::Ignore);
}

#[test]
fn probe_step_maps_receive_errors() {
    assert_eq!(probe_step(Err(ReceiveError::TimedOut), PEER_IP, true), ProbeStep::NoAnswer);
    assert_eq!(probe_step(Err(ReceiveError::WouldBlock), PEER_IP, true), ProbeStep::NoAnswer);
    assert_eq!(probe_step(Err(ReceiveError::Other), PEER_IP, true), ProbeStep::Failed);
}

#[test]
fn os_guess_matches_percent_thresholds() {
    for ttl in 0..=255u8 {
        let expected = if ttl < ((64 as f32) * 0.8) as u8 {
            OsGuess::Embedded
        } else if (ttl <= ((64 as f32) * 1.2) as u8) && (ttl >= ((64 as f32) * 0.8) as u8) {
            OsGuess::LinuxOrEmbedded
        } else if (ttl <= ((128 as f32) * 1.2) as u8) && (ttl >= ((128 as f32) * 0.8) as u8) {
            OsGuess::Windows
        } else if (ttl <= ((255 as f32) * 1.0) as u8) && (ttl >= ((255 as f32) * 0.8) as u8) {
            OsGuess::MacOs
        } else {
            OsGuess::Unknown
        };
        assert_eq!(guess_os(ttl), expected, "ttl {}", ttl);
    }
    assert_eq!(guess_os(50), OsGuess::Embedded);
    assert_eq!(guess_os(51), OsGuess::LinuxOrEmbedded);
    assert_eq!(guess_os(77), OsGuess::Unknown);
    assert_eq!(guess_os(204), OsGuess::MacOs);
}

#[test]
fn flags_decide_port_state() {
    assert_eq!(port_state_of_flags(0x12), Some(PortState::Open));
    assert_eq!(port_state_of_flags(0x16), Some(PortState::Open));
    assert_eq!(port_state_of_flags(0x14), Some(PortState::Closed));
    assert_eq!(port_state_of_flags(0x04), Some(PortState::Closed));
    assert_eq!(port_state_of_flags(0x02), None);
    assert_eq!(port_state_of_flags(0x10), None);
}
