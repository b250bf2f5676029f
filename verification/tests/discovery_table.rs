use blacknoir::cli::{command_action, CommandAction, NoirTool};
use blacknoir::discovery::{
    plan_host_sweep, resolve_locally, resolve_step, DiscoveryStep, HostDiscovery, ResolveStep,
    SweepStep,
};
use blacknoir::frame::build_arp_request;
use blacknoir::interfaces::{
    build_interface_table, classify_interface, select_interface, FirstAddress, InterfaceCandidate,
    InterfaceInfo, InterfaceStatus,
};
use blacknoir::probe::ReceiveError;

const OWN_MAC: [u8; 6] = [0x02, 0x11, 0x22, 0x33, 0x44, 0x55];

fn own(ip: [u8; 4]) -> InterfaceInfo {
    InterfaceInfo { name: "eth0".to_string(), mac: OWN_MAC, ip }
}

fn arp_reply(mac: [u8; 6], ip: [u8; 4]) -> Vec<u8> {
    let mut f = build_arp_request(mac, ip, [192, 168, 1, 5]);
    f[21] = 2;
    f
}

#[test]
fn sweep_asks_each_host_and_reports_self() {
    let me = own([192, 168, 1, 5]);
    let plan = plan_host_sweep(&me, "192.168.1").unwrap();
    assert_eq!(plan.len(), 254);
    for (k, step) in plan.iter().enumerate() {
        let host = (k + 1) as u8;
        match step {
            SweepStep::ReportSelf => assert_eq!(host, 5),
            SweepStep::Probe { target, frame } => {
                assert_ne!(host, 5);
                assert_eq!(*target, [192, 168, 1, host]);
                assert_eq!(*frame, build_arp_request(OWN_MAC, [192, 168, 1, 5], *target));
            }
        }
    }
}

#[test]
fn sweep_of_foreign_subnet_probes_every_host() {
    let me = own([10, 0, 0, 1]);
    let plan = plan_host_sweep(&me, "192.168.1").unwrap();
    assert!(plan.iter().all(|s| matches!(s, SweepStep::Probe { .. })));
}

#[test]
fn sweep_rejects_a_subnet_that_is_not_three_octets() {
    let me = own([192, 168, 1, 5]);
    for bad in ["192.168", "192.168.1.1", "192.168.01", "300.1.1", "", "a.b.c"] {
        assert!(plan_host_sweep(&me, bad).is_none(), "{:?}", bad);
    }
}

#[test]
fn discovery_reports_each_host_once() {
    let mut d = HostDiscovery::new([192, 168, 1, 5]);
    let peer = arp_reply([0xaa; 6], [192, 168, 1, 9]);
    match d.step(Ok(&peer)) {
        DiscoveryStep::NewHost { mac, ip } => {
            assert_eq!(mac, [0xaa; 6]);
            assert_eq!(ip, [192, 168, 1, 9]);
        }
        other => panic!("{:?}", other),
    }
    assert!(matches!(d.step(Ok(&peer)), DiscoveryStep::Ignore));
    let me = arp_reply(OWN_MAC, [192, 168, 1, 5]);
    assert!(matches!(d.step(Ok(&me)), DiscoveryStep::Ignore));
    let request = build_arp_request([0xbb; 6], [192, 168, 1, 7], [192, 168, 1, 5]);
    assert!(matches!(d.step(Ok(&request)), DiscoveryStep::Ignore));
    assert!(matches!(d.step(Err(ReceiveError::Other)), DiscoveryStep::Ignore));
    assert!(matches!(d.step(Err(ReceiveError::TimedOut)), DiscoveryStep::Finished));
    assert!(matches!(d.step(Err(ReceiveError::WouldBlock)), DiscoveryStep::Finished));
}

#[test]
fn resolution_takes_first_reply() {
    let reply = arp_reply([0xcc; 6], [192, 168, 1, 30]);
    match resolve_step(Ok(&reply)) {
        ResolveStep::Found { mac, ip } => {
            assert_eq!(mac, [0xcc; 6]);
            assert_eq!(ip, [192, 168, 1, 30]);
        }
        other => panic!("{:?}", other),
    }
    let request = build_arp_request([0xbb; 6], [192, 168, 1, 7], [192, 168, 1, 5]);
    assert!(matches!(resolve_step(Ok(&request)), ResolveStep::Keep));
    assert!(matches!(resolve_step(Err(ReceiveError::Other)), ResolveStep::Keep));
    assert!(matches!(resolve_step(Err(ReceiveError::TimedOut)), ResolveStep::GiveUp));
}

#[test]
fn own_address_resolves_locally() {
    let me = own([192, 168, 1, 5]);
    assert_eq!(resolve_locally(&me, [192, 168, 1, 5]), Some(OWN_MAC));
    assert_eq!(resolve_locally(&me, [192, 168, 1, 6]), None);
}

fn cand(name: &str, index: u32, mac: Option<[u8; 6]>, first: FirstAddress) -> InterfaceCandidate {
    InterfaceCandidate { name: name.to_string(), index, mac, first_address: first }
}

#[test]
fn classify_explains_unusable_interfaces() {
    assert!(matches!(
        classify_interface(&cand("lo", 1, Some([0; 6]), FirstAddress::V4([127, 0, 0, 1]))),
        InterfaceStatus::Usable(_)
    ));
    assert!(matches!(
        classify_interface(&cand("tun0", 2, None, FirstAddress::V4([10, 8, 0, 1]))),
        InterfaceStatus::NoMac
    ));
    assert!(matches!(
        classify_interface(&cand("eth1", 3, Some([1; 6]), FirstAddress::Missing)),
        InterfaceStatus::NoAddress
    ));
    assert!(matches!(
        classify_interface(&cand("eth2", 4, Some([1; 6]), FirstAddress::V6)),
        InterfaceStatus::NotIpv4
    ));
}

#[test]
fn table_finds_usable_interfaces_by_index_text() {
    let cands = vec![
        cand("lo", 1, Some([0; 6]), FirstAddress::V4([127, 0, 0, 1])),
        cand("eth0", 2, Some(OWN_MAC), FirstAddress::V4([192, 168, 1, 5])),
        cand("tun0", 3, None, FirstAddress::V4([10, 8, 0, 1])),
        cand("eth1", 14, Some([1; 6]), FirstAddress::Missing),
        cand("dup", 2, Some([9; 6]), FirstAddress::V4([1, 1, 1, 1])),
    ];
    let table = build_interface_table(&cands);
    let eth0 = select_interface(&table, "2").unwrap();
    assert_eq!(eth0.name, "eth0");
    assert_eq!(eth0.mac, OWN_MAC);
    assert_eq!(eth0.ip, [192, 168, 1, 5]);
    assert_eq!(select_interface(&table, "1").unwrap().name, "lo");
    assert!(select_interface(&table, "3").is_none());
    assert!(select_interface(&table, "14").is_none());
    assert!(select_interface(&table, "02").is_none());
    assert!(select_interface(&table, "").is_none());
}

#[test]
fn commands_map_to_actions() {
    match command_action(NoirTool::Discover { subnet: "10.0.0".to_string() }) {
        CommandAction::Sweep { subnet } => assert_eq!(subnet, "10.0.0"),
        other => panic!("{:?}", other),
    }
    assert!(matches!(command_action(NoirTool::Help), CommandAction::ShowHelp));
    assert!(matches!(command_action(NoirTool::Exit), CommandAction::Quit));
}

#[test]
fn index_text_is_decimal() {
    for n in [0u32, 7, 9, 10, 42, 99, 100, 12345, 4294967295] {
        assert_eq!(blacknoir::interfaces::u32_to_string(n), n.to_string());
    }
}
