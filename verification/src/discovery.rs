//! Host discovery on a /24 subnet: the ARP sweep to send, the bookkeeping of
//! the replies, and the resolution of one host's hardware address.

use vstd::prelude::*;
use vstd::string::StringSliceAdditionalSpecFns;
use crate::addr::{
    DOT, address_view, decimal_text, ipv4_prefix_text, ipv4_text, lemma_prefix_and_octet,
    parse_ipv4_bytes, push_decimal, same_address,
};
use crate::frame::{arp_reply_of, arp_request_frame, build_arp_request, read_arp_reply};
use crate::interfaces::InterfaceInfo;
use crate::probe::ReceiveError;
use std::collections::HashSet;

verus! {

broadcast use vstd::std_specs::hash::group_hash_axioms;

/// One step of the sweep of a subnet.
#[derive(Debug)]
pub enum SweepStep {
    /// The address is the interface's own: report it instead of asking for it.
    ReportSelf,
    /// Send `frame`, the ARP request for `target`.
    Probe { target: [u8; 4], frame: Vec<u8> },
}

/// Address `k` of the subnet whose first three octets `subnet` spells, as the
/// text `subnet.k` reads.
pub open spec fn sweep_target(subnet: Seq<u8>, k: int) -> Option<Seq<u8>> {
    ipv4_text(subnet + seq![DOT] + decimal_text(k as nat))
}

/// The sweep asks in turn for hosts 1 to 254 of the subnet, except the
/// interface's own address, which it reports.
pub open spec fn sweep_step_ok(s: SweepStep, own: InterfaceInfo, target: Seq<u8>) -> bool {
    if target == own.ip@ {
        s is ReportSelf
    } else {
        s matches SweepStep::Probe { target: t, frame } && t@ == target && frame@
            == arp_request_frame(own.mac@, own.ip@, target)
    }
}

/// The steps ask in turn for hosts 1 to 254 of the subnet.
pub open spec fn sweep_plan_ok(steps: Seq<SweepStep>, own: InterfaceInfo, subnet: Seq<u8>) -> bool {
    &&& steps.len() == 254
    &&& forall|k: int|
        0 <= k < 254 ==> sweep_target(subnet, k + 1) is Some && sweep_step_ok(
            #[trigger] steps[k],
            own,
            sweep_target(subnet, k + 1).unwrap(),
        )
}

/// Plans the ARP sweep of the subnet whose first three octets `subnet` spells
/// (such as `192.168.1`); nothing when `subnet.1` is not an IPv4 address.
pub fn plan_host_sweep(interface: &InterfaceInfo, subnet: &str) -> (plan: Option<Vec<SweepStep>>)
    ensures
        plan is None <==> sweep_target(subnet.spec_bytes(), 1) is None,
        plan matches Some(steps) ==> sweep_plan_ok(steps@, *interface, subnet.spec_bytes()),
{
    let prefix = subnet.as_bytes();
    let mut steps: Vec<SweepStep> = Vec::new();
    let mut sub: u8 = 1;
    while sub < 255
        invariant
            1 <= sub <= 255,
            prefix@ == subnet.spec_bytes(),
            steps@.len() == sub - 1,
            sub > 1 ==> sweep_target(prefix@, 1) is Some,
            forall|k: int|
                0 <= k < sub - 1 ==> sweep_target(prefix@, k + 1) is Some && sweep_step_ok(
                    #[trigger] steps@[k],
                    *interface,
                    sweep_target(prefix@, k + 1).unwrap(),
                ),
        decreases 255 - sub,
    {
        let mut text: Vec<u8> = vstd::slice::slice_to_vec(prefix);
        text.push(DOT);
        push_decimal(&mut text, sub);
        assert(text@ == prefix@ + seq![DOT] + decimal_text(sub as nat));
        match parse_ipv4_bytes(text.as_slice()) {
            None => {
                proof {
                    lemma_prefix_and_octet(prefix@, sub);
                    lemma_prefix_and_octet(prefix@, 1);
                }
                return None;
            },
            Some(target) => {
                if same_address(target, interface.ip) {
                    steps.push(SweepStep::ReportSelf);
                } else {
                    let frame = build_arp_request(interface.mac, interface.ip, target);
                    steps.push(SweepStep::Probe { target, frame });
                }
            },
        }
        sub += 1;
    }
    assert(sub == 255);
    assert forall|k: int| 0 <= k < 254 implies #[trigger] sweep_target(subnet.spec_bytes(), k + 1) is Some by {
        assert(0 <= k < sub - 1);
        let step = steps@[k];
    }
    Some(steps)
}

/// The key under which an address is remembered.
pub open spec fn address_key(ip: Seq<u8>) -> u32 {
    (((ip[0] * 256 + ip[1]) * 256 + ip[2]) * 256 + ip[3]) as u32
}

fn key_of(ip: [u8; 4]) -> (k: u32)
    ensures
        k == address_key(ip@),
{
    (((ip[0] as u32 * 256 + ip[1] as u32) * 256 + ip[2] as u32) * 256) + ip[3] as u32
}

/// After one received frame: the addresses seen so far, and the host (hardware
/// and IPv4 address) it announces for the first time, if any.
pub open spec fn discovery_update(seen: Set<u32>, f: Seq<u8>) -> (Set<u32>, Option<(Seq<u8>, Seq<u8>)>) {
    match arp_reply_of(f) {
        None => (seen, None),
        Some((mac, ip)) => if seen.contains(address_key(ip)) {
            (seen, None)
        } else {
            (seen.insert(address_key(ip)), Some((mac, ip)))
        },
    }
}

/// The addresses seen after a run of received frames, and the hosts reported, in order.
pub open spec fn discovery_run(seen: Set<u32>, frames: Seq<Seq<u8>>) -> (Set<u32>, Seq<(Seq<u8>, Seq<u8>)>)
    decreases frames.len(),
{
    if frames.len() == 0 {
        (seen, Seq::empty())
    } else {
        let (s, reported) = discovery_run(seen, frames.drop_last());
        let (s2, new_host) = discovery_update(s, frames.last());
        match new_host {
            Some(h) => (s2, reported.push(h)),
            None => (s2, reported),
        }
    }
}

/// What to do after one attempt to receive during a sweep.
#[derive(Debug)]
pub enum DiscoveryStep {
    /// Nothing new: keep listening.
    Ignore,
    /// A host answered for the first time.
    NewHost { mac: [u8; 6], ip: [u8; 4] },
    /// Nothing more arrives: the sweep is over.
    Finished,
}

pub open spec fn reported_host(s: DiscoveryStep) -> Option<(Seq<u8>, Seq<u8>)> {
    match s {
        DiscoveryStep::NewHost { mac, ip } => Some((mac@, ip@)),
        _ => None,
    }
}

/// The addresses a sweep has heard from, starting with the interface's own.
pub struct HostDiscovery {
    seen: HashSet<u32>,
}

impl HostDiscovery {
    /// Keys of the addresses heard from so far.
    pub closed spec fn seen(&self) -> Set<u32> {
        self.seen@
    }

    /// Starts a sweep from the interface whose address is `own_ip`.
    pub fn new(own_ip: [u8; 4]) -> (d: HostDiscovery)
        ensures
            d.seen() == Set::<u32>::empty().insert(address_key(own_ip@)),
    {
        let mut seen: HashSet<u32> = HashSet::new();
        seen.insert(key_of(own_ip));
        HostDiscovery { seen }
    }

    /// Takes in one attempt to receive: a frame, or why none came.
    pub fn step(&mut self, received: Result<&[u8], ReceiveError>) -> (s: DiscoveryStep)
        ensures
            match received {
                Ok(f) => (final(self).seen(), reported_host(s)) == discovery_update(
                    old(self).seen(),
                    f@,
                ) && !(s is Finished),
                Err(ReceiveError::Other) => s is Ignore && final(self).seen() == old(self).seen(),
                Err(_) => s is Finished && final(self).seen() == old(self).seen(),
            },
    {
        let f = match received {
            Ok(f) => f,
            Err(ReceiveError::Other) => {
                return DiscoveryStep::Ignore;
            },
            Err(_) => {
                return DiscoveryStep::Finished;
            },
        };
        match read_arp_reply(f) {
            None => DiscoveryStep::Ignore,
            Some((mac, ip)) => {
                if self.seen.insert(key_of(ip)) {
                    DiscoveryStep::NewHost { mac, ip }
                } else {
                    DiscoveryStep::Ignore
                }
            },
        }
    }
}

/// Hosts a sweep reports are pairwise different and never the interface's own
/// address, whatever frames arrive: the addresses seen include the starting
/// ones and every host reported, and each host is reported only the first time.
pub proof fn lemma_discovery_reports_each_host_once(own_ip: Seq<u8>, frames: Seq<Seq<u8>>)
    ensures
        ({
            let reported = discovery_run(Set::<u32>::empty().insert(address_key(own_ip)), frames).1;
            &&& forall|i: int| 0 <= i < reported.len() ==> (#[trigger] reported[i]).1 != own_ip
            &&& forall|i: int, j: int|
                0 <= i < j < reported.len() ==> (#[trigger] reported[i]).1 != (
                #[trigger] reported[j]).1
        }),
{
    lemma_discovery_run_keys(Set::<u32>::empty().insert(address_key(own_ip)), frames);
    let reported = discovery_run(Set::<u32>::empty().insert(address_key(own_ip)), frames).1;
    assert forall|i: int| 0 <= i < reported.len() implies (#[trigger] reported[i]).1 != own_ip by {
        if reported[i].1 == own_ip {
            assert(Set::<u32>::empty().insert(address_key(own_ip)).contains(address_key(own_ip)));
        }
    }
    assert forall|i: int, j: int| 0 <= i < j < reported.len() implies (#[trigger] reported[i]).1
        != (#[trigger] reported[j]).1 by {
        if reported[i].1 == reported[j].1 {
            assert(address_key(reported[i].1) == address_key(reported[j].1));
        }
    }
}

proof fn lemma_discovery_run_keys(start: Set<u32>, frames: Seq<Seq<u8>>)
    ensures
        ({
            let (seen, reported) = discovery_run(start, frames);
            &&& start.subset_of(seen)
            &&& forall|i: int| 0 <= i < reported.len() ==> seen.contains(address_key(#[trigger] reported[i].1))
            &&& forall|i: int| 0 <= i < reported.len() ==> !start.contains(address_key(#[trigger] reported[i].1))
            &&& forall|i: int, j: int|
                0 <= i < j < reported.len() ==> address_key((#[trigger] reported[i]).1) != address_key(
                    (#[trigger] reported[j]).1,
                )
            &&& forall|i: int| 0 <= i < reported.len() ==> (#[trigger] reported[i]).1.len() == 4
            &&& forall|k: u32|
                #[trigger] seen.contains(k) ==> start.contains(k) || exists|i: int|
                    0 <= i < reported.len() && address_key((#[trigger] reported[i]).1) == k
        }),
    decreases frames.len(),
{
    if frames.len() > 0 {
        let d = frames.drop_last();
        lemma_discovery_run_keys(start, d);
        let (s, r) = discovery_run(start, d);
        let (seen, reported) = discovery_run(start, frames);
        assert forall|k: u32| #[trigger] seen.contains(k) implies start.contains(k) || exists|i: int|
            0 <= i < reported.len() && address_key((#[trigger] reported[i]).1) == k by {
            if s.contains(k) {
                if !start.contains(k) {
                    let i = choose|i: int| 0 <= i < r.len() && address_key((#[trigger] r[i]).1) == k;
                    assert(reported[i] == r[i]);
                }
            } else {
                assert(reported[r.len() as int] == reported.last());
            }
        }
    }
}

/// Different addresses have different keys.
pub proof fn lemma_address_key_injective(a: Seq<u8>, b: Seq<u8>)
    requires
        a.len() == 4,
        b.len() == 4,
    ensures
        address_key(a) == address_key(b) <==> a == b,
{
    let ka = ((a[0] * 256 + a[1]) * 256 + a[2]) * 256 + a[3];
    let kb = ((b[0] * 256 + b[1]) * 256 + b[2]) * 256 + b[3];
    assert(0 <= ka < 0x1_0000_0000);
    assert(0 <= kb < 0x1_0000_0000);
    assert(address_key(a) == ka);
    assert(address_key(b) == kb);
    if ka == kb {
        assert(a[3] == ka % 256);
        assert(b[3] == kb % 256);
        let ha = (a[0] * 256 + a[1]) * 256 + a[2];
        let hb = (b[0] * 256 + b[1]) * 256 + b[2];
        assert(ha == ka / 256);
        assert(hb == kb / 256);
        assert(a[2] == ha % 256 && b[2] == hb % 256);
        assert(a[0] * 256 + a[1] == ha / 256 && b[0] * 256 + b[1] == hb / 256);
        assert(a[1] == (a[0] * 256 + a[1]) % 256 && b[1] == (b[0] * 256 + b[1]) % 256);
        assert(a[0] == (a[0] * 256 + a[1]) / 256 && b[0] == (b[0] * 256 + b[1]) / 256);
        assert(a =~= b);
    }
}

/// A reply from an address that is neither the interface's own nor one already
/// reported is reported as a new host, with the hardware and IPv4 address it
/// announces.
pub proof fn lemma_new_address_is_reported(own_ip: Seq<u8>, frames: Seq<Seq<u8>>, f: Seq<u8>)
    requires
        own_ip.len() == 4,
        arp_reply_of(f) is Some,
        arp_reply_of(f).unwrap().1 != own_ip,
        forall|i: int|
            0 <= i < discovery_run(Set::<u32>::empty().insert(address_key(own_ip)), frames).1.len()
                ==> (#[trigger] discovery_run(Set::<u32>::empty().insert(address_key(own_ip)), frames).1[i]).1
                != arp_reply_of(f).unwrap().1,
    ensures
        discovery_run(Set::<u32>::empty().insert(address_key(own_ip)), frames.push(f)).1
            == discovery_run(Set::<u32>::empty().insert(address_key(own_ip)), frames).1.push(
            arp_reply_of(f).unwrap(),
        ),
{
    let start = Set::<u32>::empty().insert(address_key(own_ip));
    let (seen, reported) = discovery_run(start, frames);
    let (mac, ip) = arp_reply_of(f).unwrap();
    lemma_discovery_run_keys(start, frames);
    assert(ip.len() == 4);
    assert(!seen.contains(address_key(ip))) by {
        if seen.contains(address_key(ip)) {
            if start.contains(address_key(ip)) {
                lemma_address_key_injective(ip, own_ip);
            } else {
                let i = choose|i: int|
                    0 <= i < reported.len() && address_key((#[trigger] reported[i]).1) == address_key(ip);
                lemma_address_key_injective(ip, reported[i].1);
            }
        }
    }
    assert(frames.push(f).drop_last() =~= frames);
}

/// What to do after one attempt to receive while resolving a host's hardware address.
#[derive(Debug)]
pub enum ResolveStep {
    /// Keep listening.
    Keep,
    /// An ARP reply arrived: the hardware and IPv4 address of its sender.
    Found { mac: [u8; 6], ip: [u8; 4] },
    /// Nothing more arrives: the address stays unknown.
    GiveUp,
}

/// The interface's own hardware address, when the host to resolve is the interface itself.
pub fn resolve_locally(interface: &InterfaceInfo, target: [u8; 4]) -> (r: Option<[u8; 6]>)
    ensures
        r is Some <==> target@ == interface.ip@,
        r matches Some(mac) ==> mac == interface.mac,
{
    if same_address(target, interface.ip) {
        Some(interface.mac)
    } else {
        None
    }
}

/// Takes in one attempt to receive while resolving a hardware address: the
/// first ARP reply decides.
pub fn resolve_step(received: Result<&[u8], ReceiveError>) -> (s: ResolveStep)
    ensures
        match received {
            Ok(f) => match arp_reply_of(f@) {
                Some((mac, ip)) => s matches ResolveStep::Found { mac: m, ip: i } && m@ == mac && i@
                    == ip,
                None => s is Keep,
            },
            Err(ReceiveError::Other) => s is Keep,
            Err(_) => s is GiveUp,
        },
{
    match received {
        Ok(f) => match read_arp_reply(f) {
            Some((mac, ip)) => ResolveStep::Found { mac, ip },
            None => ResolveStep::Keep,
        },
        Err(ReceiveError::Other) => ResolveStep::Keep,
        Err(_) => ResolveStep::GiveUp,
    }
}

/// A sweep of a subnet asks for every host 1 to 254 of it exactly once: the
/// text `subnet.k` names an address exactly when `subnet` spells three octets,
/// and then it is those octets followed by `k`, so different steps concern
/// different hosts.
pub proof fn lemma_sweep_covers_subnet(subnet: Seq<u8>)
    ensures
        sweep_target(subnet, 1) is Some <==> ipv4_prefix_text(subnet) is Some,
        ipv4_prefix_text(subnet) is Some ==> forall|k: int|
            1 <= k <= 254 ==> #[trigger] sweep_target(subnet, k) == Some(
                ipv4_prefix_text(subnet).unwrap().push(k as u8),
            ),
        ipv4_prefix_text(subnet) is Some ==> forall|j: int, k: int|
            1 <= j < k <= 254 ==> #[trigger] sweep_target(subnet, j) != #[trigger] sweep_target(
                subnet,
                k,
            ),
{
    lemma_prefix_and_octet(subnet, 1);
    if ipv4_prefix_text(subnet) is Some {
        let p = ipv4_prefix_text(subnet).unwrap();
        assert forall|k: int| 1 <= k <= 254 implies #[trigger] sweep_target(subnet, k) == Some(
            p.push(k as u8),
        ) by {
            lemma_prefix_and_octet(subnet, k as u8);
        }
        assert forall|j: int, k: int| 1 <= j < k <= 254 implies #[trigger] sweep_target(subnet, j)
            != #[trigger] sweep_target(subnet, k) by {
            assert(p.push(j as u8)[3] != p.push(k as u8)[3]);
        }
    }
}

/// In a sweep plan the interface reports itself only for its own full address:
/// a step is `ReportSelf` exactly when its target is the interface's address,
/// every other host gets the ARP request for it, and a subnet whose three
/// octets differ from the interface's first three is probed host by host.
pub proof fn lemma_sweep_reports_self_only_for_own_address(
    steps: Seq<SweepStep>,
    own: InterfaceInfo,
    subnet: Seq<u8>,
)
    requires
        sweep_plan_ok(steps, own, subnet),
    ensures
        forall|k: int|
            0 <= k < 254 ==> ((#[trigger] steps[k] is ReportSelf) <==> sweep_target(subnet, k + 1)
                == Some(own.ip@)),
        forall|k: int|
            0 <= k < 254 && sweep_target(subnet, k + 1) != Some(own.ip@) ==> (
            #[trigger] steps[k] matches SweepStep::Probe { target, frame } && Some(target@)
                == sweep_target(subnet, k + 1) && frame@ == arp_request_frame(
                own.mac@,
                own.ip@,
                target@,
            )),
        ipv4_prefix_text(subnet) is Some && ipv4_prefix_text(subnet).unwrap() != own.ip@.take(3)
            ==> forall|k: int| 0 <= k < 254 ==> #[trigger] steps[k] is Probe,
{
    lemma_sweep_covers_subnet(subnet);
    if ipv4_prefix_text(subnet) is Some && ipv4_prefix_text(subnet).unwrap() != own.ip@.take(3) {
        let p = ipv4_prefix_text(subnet).unwrap();
        assert forall|k: int| 0 <= k < 254 implies #[trigger] steps[k] is Probe by {
            assert(sweep_target(subnet, k + 1) == Some(p.push((k + 1) as u8)));
            if p.push((k + 1) as u8) == own.ip@ {
                assert(p =~= own.ip@.take(3));
            }
        }
    }
}

} // verus!
