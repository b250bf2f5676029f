//! Port numbers and the port-list syntax of a host scan: one port (`80`), a
//! comma-separated list (`22,80,443`) or an inclusive range (`20-25`).

use vstd::prelude::*;
use vstd::string::StringSliceAdditionalSpecFns;
use crate::text::{all_digits, byte_views, decimal_value, is_digit, split_bytes, split_on, contains_byte};
use crate::addr::{decimal_text, lemma_decimal_text_reads_back};

verus! {

pub const PLUS: u8 = 43;
pub const COMMA: u8 = 44;
pub const DASH: u8 = 45;

/// The port that `t` spells as `u16`'s `FromStr` reads it: an optional `+`, then
/// one or more decimal digits (leading zeros allowed) of value at most 65535.
pub open spec fn port_number(t: Seq<u8>) -> Option<u16> {
    let digits = if t.len() > 0 && t[0] == PLUS { t.drop_first() } else { t };
    if digits.len() > 0 && all_digits(digits) && decimal_value(digits) <= 65535 {
        Some(decimal_value(digits) as u16)
    } else {
        None
    }
}

/// Why a port list cannot be scanned (in full).
#[derive(Clone, Copy, Debug, PartialEq, Eq)]
pub enum PortSpecError {
    /// A single port, or an item of a comma-separated list, is not a port number.
    InvalidPort,
    /// The text before the first `-` of a range is not a port number.
    InvalidStartPort,
    /// The text between the first and second `-` of a range is not a port number.
    InvalidEndPort,
    /// A range ends at 65535, whose successor does not fit in a port number.
    RangeEndOverflow,
}

/// Which syntax a port list uses: a `-` makes it a range, else a `,` makes it a list.
#[derive(Clone, Copy, Debug, PartialEq, Eq)]
pub enum PortListKind {
    Single,
    List,
    Range,
}

/// The ports to probe, in order, and the error that stops the scan after them.
#[derive(Debug)]
pub struct PortPlan {
    pub ports: Vec<u16>,
    pub error: Option<PortSpecError>,
}

pub open spec fn port_list_kind(t: Seq<u8>) -> PortListKind {
    if t.contains(DASH) {
        PortListKind::Range
    } else if t.contains(COMMA) {
        PortListKind::List
    } else {
        PortListKind::Single
    }
}

/// The ports of the leading well-formed items of a comma-separated list, and
/// whether every item was well formed.
pub open spec fn list_ports(items: Seq<Seq<u8>>) -> (Seq<u16>, bool)
    decreases items.len(),
{
    if items.len() == 0 {
        (Seq::<u16>::empty(), true)
    } else {
        let (before, ok) = list_ports(items.drop_last());
        if !ok {
            (before, false)
        } else {
            match port_number(items.last()) {
                Some(p) => (before.push(p), true),
                None => (before, false),
            }
        }
    }
}

/// Ports from `low` to `high`, both included (none when `low > high`).
pub open spec fn port_range(low: u16, high: u16) -> Seq<u16> {
    if low <= high {
        Seq::new((high - low + 1) as nat, |i: int| (low + i) as u16)
    } else {
        Seq::<u16>::empty()
    }
}

/// What a port list asks to probe, and the error met after those ports, if any.
pub open spec fn planned_ports(t: Seq<u8>) -> (Seq<u16>, Option<PortSpecError>) {
    match port_list_kind(t) {
        PortListKind::Single => match port_number(t) {
            Some(p) => (seq![p], None),
            None => (Seq::<u16>::empty(), Some(PortSpecError::InvalidPort)),
        },
        PortListKind::List => {
            let (ports, ok) = list_ports(split_on(t, COMMA));
            (ports, if ok { None } else { Some(PortSpecError::InvalidPort) })
        },
        PortListKind::Range => {
            let parts = split_on(t, DASH);
            match port_number(parts[0]) {
                None => (Seq::<u16>::empty(), Some(PortSpecError::InvalidStartPort)),
                Some(low) => match port_number(parts[1]) {
                    None => (Seq::<u16>::empty(), Some(PortSpecError::InvalidEndPort)),
                    Some(high) => if high == 65535 {
                        (Seq::<u16>::empty(), Some(PortSpecError::RangeEndOverflow))
                    } else {
                        (port_range(low, high), None)
                    },
                },
            }
        },
    }
}

/// Reads a port number.
pub fn parse_port_bytes(t: &[u8]) -> (r: Option<u16>)
    ensures
        r == port_number(t@),
{
    let n = t.len();
    let start: usize = if n > 0 && t[0] == PLUS { 1 } else { 0 };
    let ghost digits = if t@.len() > 0 && t@[0] == PLUS { t@.drop_first() } else { t@ };
    assert(digits =~= t@.subrange(start as int, n as int));
    if start == n {
        return None;
    }
    let mut v: u32 = 0;
    let mut i: usize = start;
    assert(t@.subrange(start as int, start as int) =~= Seq::<u8>::empty());
    while i < n
        invariant
            n == t@.len(),
            start <= i <= n,
            digits == t@.subrange(start as int, n as int),
            digits == (if t@.len() > 0 && t@[0] == PLUS { t@.drop_first() } else { t@ }),
            all_digits(t@.subrange(start as int, i as int)),
            v == if decimal_value(t@.subrange(start as int, i as int)) <= 65536 {
                decimal_value(t@.subrange(start as int, i as int))
            } else {
                65536
            },
        decreases n - i,
    {
        let b = t[i];
        if b < 48 || b > 57 {
            assert(!all_digits(digits)) by {
                assert(digits[i - start] == b);
            }
            return None;
        }
        let ghost pre = t@.subrange(start as int, i as int);
        let ghost next = t@.subrange(start as int, i as int + 1);
        assert(next.drop_last() =~= pre);
        assert(next.last() == b);
        assert(decimal_value(next) == decimal_value(pre) * 10 + (b - 48) as nat);
        let w = v * 10 + (b - 48) as u32;
        v = if w > 65536 { 65536 } else { w };
        i += 1;
    }
    if v > 65535 {
        None
    } else {
        Some(v as u16)
    }
}

/// Reads a port number, as `u16`'s `FromStr` does.
pub fn parse_port(t: &str) -> (r: Option<u16>)
    ensures
        r == port_number(t.spec_bytes()),
{
    parse_port_bytes(t.as_bytes())
}

/// Reads a port list and says which ports to probe, in order, and what stops
/// the scan after them.
pub fn plan_ports(spec: &str) -> (plan: PortPlan)
    ensures
        (plan.ports@, plan.error) == planned_ports(spec.spec_bytes()),
{
    let t = spec.as_bytes();
    if contains_byte(t, DASH) {
        let parts = split_bytes(t, DASH);
        proof {
            crate::text::lemma_split_nonempty(t@, DASH);
            lemma_split_at_least_two(t@, DASH);
        }
        assert(parts@[0]@ == split_on(t@, DASH)[0]);
        assert(parts@[1]@ == split_on(t@, DASH)[1]);
        let low = match parse_port_bytes(parts[0].as_slice()) {
            Some(p) => p,
            None => {
                return PortPlan { ports: Vec::new(), error: Some(PortSpecError::InvalidStartPort) };
            },
        };
        let high = match parse_port_bytes(parts[1].as_slice()) {
            Some(p) => p,
            None => {
                return PortPlan { ports: Vec::new(), error: Some(PortSpecError::InvalidEndPort) };
            },
        };
        if high == 65535 {
            return PortPlan { ports: Vec::new(), error: Some(PortSpecError::RangeEndOverflow) };
        }
        let mut ports: Vec<u16> = Vec::new();
        if low <= high {
            let mut p: u16 = low;
            while p <= high
                invariant
                    low <= p <= high + 1,
                    high < 65535,
                    ports@ =~= Seq::new((p - low) as nat, |i: int| (low + i) as u16),
                decreases high + 1 - p,
            {
                ports.push(p);
                p = p + 1;
            }
        }
        assert(ports@ =~= port_range(low, high));
        PortPlan { ports, error: None }
    } else if contains_byte(t, COMMA) {
        let items = split_bytes(t, COMMA);
        let ghost views = split_on(t@, COMMA);
        let mut ports: Vec<u16> = Vec::new();
        let mut k: usize = 0;
        assert(views.take(0) =~= Seq::<Seq<u8>>::empty());
        while k < items.len()
            invariant
                byte_views(items@) == views,
                views == split_on(t@, COMMA),
                t@ == spec.spec_bytes(),
                !t@.contains(DASH),
                t@.contains(COMMA),
                items@.len() == views.len(),
                0 <= k <= items@.len(),
                list_ports(views.take(k as int)) == (ports@, true),
            decreases items@.len() - k,
        {
            assert(views.take(k as int + 1).drop_last() =~= views.take(k as int));
            assert(views.take(k as int + 1).last() == items@[k as int]@);
            match parse_port_bytes(items[k].as_slice()) {
                Some(p) => {
                    ports.push(p);
                },
                None => {
                    assert(list_ports(views.take(k as int + 1)) == (ports@, false));
                    proof {
                        lemma_list_stops(views, k as int + 1);
                    }

                    return PortPlan { ports, error: Some(PortSpecError::InvalidPort) };
                },
            }
            k += 1;
        }
        assert(views.take(items@.len() as int) =~= views);
        PortPlan { ports, error: None }
    } else {
        match parse_port_bytes(t) {
            Some(p) => {
                let mut ports: Vec<u16> = Vec::new();
                ports.push(p);
                assert(ports@ =~= seq![p]);
                PortPlan { ports, error: None }
            },
            None => PortPlan { ports: Vec::new(), error: Some(PortSpecError::InvalidPort) },
        }
    }
}

/// A text that holds the separator splits into at least two pieces.
proof fn lemma_split_at_least_two(s: Seq<u8>, sep: u8)
    requires
        s.contains(sep),
    ensures
        split_on(s, sep).len() >= 2,
    decreases s.len(),
{
    let d = s.drop_last();
    crate::text::lemma_split_nonempty(d, sep);
    if s.last() != sep {
        assert(d.contains(sep)) by {
            let k = choose|k: int| 0 <= k < s.len() && s[k] == sep;
            assert(k < s.len() - 1);
            assert(d[k] == sep);
        }
        lemma_split_at_least_two(d, sep);
    }
}

/// Once an item of a list is malformed, no later item changes what is probed.
proof fn lemma_list_stops(items: Seq<Seq<u8>>, k: int)
    requires
        0 < k <= items.len(),
        list_ports(items.take(k)).1 == false,
    ensures
        list_ports(items) == list_ports(items.take(k)),
    decreases items.len() - k,
{
    if k < items.len() {
        assert(items.take(k + 1).drop_last() =~= items.take(k));
        lemma_list_stops(items, k + 1);
    } else {
        assert(items.take(k) =~= items);
    }
}

/// Every port number reads back from its decimal text, with or without a
/// leading `+`, as `u16`'s `FromStr` reads it.
pub proof fn lemma_port_text_reads_back(n: u16)
    ensures
        port_number(decimal_text(n as nat)) == Some(n),
        port_number(seq![PLUS] + decimal_text(n as nat)) == Some(n),
{
    let t = decimal_text(n as nat);
    lemma_decimal_text_reads_back(n as nat);
    assert(is_digit(t[0]));
    let plus = seq![PLUS] + t;
    assert(plus[0] == PLUS);
    assert(plus.drop_first() =~= t);
}

proof fn lemma_decimal_text_has_no(n: nat, b: u8)
    requires
        !is_digit(b),
    ensures
        !decimal_text(n).contains(b),
{
    lemma_decimal_text_reads_back(n);
    if decimal_text(n).contains(b) {
        let k = choose|k: int| 0 <= k < decimal_text(n).len() && decimal_text(n)[k] == b;
        assert(is_digit(decimal_text(n)[k]));
    }
}

/// The decimal text of a port asks to probe that port alone.
pub proof fn lemma_single_port_plan(n: u16)
    ensures
        planned_ports(decimal_text(n as nat)) == (seq![n], None::<PortSpecError>),
{
    lemma_port_text_reads_back(n);
    lemma_decimal_text_has_no(n as nat, DASH);
    lemma_decimal_text_has_no(n as nat, COMMA);
}

/// `low-high` asks to probe every port from `low` to `high`, both included, in
/// increasing order (none when `low > high`), as long as `high` has a successor.
pub proof fn lemma_range_plan(low: u16, high: u16)
    requires
        high < 65535,
    ensures
        ({
            let (ports, error) = planned_ports(
                decimal_text(low as nat) + seq![DASH] + decimal_text(high as nat),
            );
            &&& error is None
            &&& ports.len() == if low <= high { high - low + 1 } else { 0 }
            &&& forall|i: int| 0 <= i < ports.len() ==> ports[i] == low + i
        }),
{
    let a = decimal_text(low as nat);
    let b = decimal_text(high as nat);
    let t = a + seq![DASH] + b;
    lemma_port_text_reads_back(low);
    lemma_port_text_reads_back(high);
    lemma_decimal_text_has_no(low as nat, DASH);
    lemma_decimal_text_has_no(high as nat, DASH);
    crate::text::lemma_split_without_separator(a, DASH);
    crate::text::lemma_split_append(a, DASH, b);
    assert(split_on(t, DASH) == seq![a].push(b));
    assert(split_on(t, DASH)[0] == a);
    assert(split_on(t, DASH)[1] == b);
    assert(t[a.len() as int] == DASH);
    assert(t.contains(DASH));
}

} // verus!
