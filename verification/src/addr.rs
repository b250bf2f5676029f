//! Dotted-decimal IPv4 address text.

use vstd::prelude::*;
use vstd::string::StringSliceAdditionalSpecFns;
use crate::text::{all_digits, byte_views, decimal_value, is_digit, lemma_split_append, split_bytes, split_on};

verus! {

pub const DOT: u8 = 46;

/// Text of one IPv4 octet: one to three digits, no leading zero, value at most 255.
pub open spec fn octet_text(t: Seq<u8>) -> bool {
    &&& 1 <= t.len() <= 3
    &&& all_digits(t)
    &&& t.len() > 1 ==> t[0] != 48
    &&& decimal_value(t) <= 255
}

/// The address that `s` spells in dotted-decimal notation: exactly four octets
/// separated by dots, with nothing else around them.
pub open spec fn ipv4_text(s: Seq<u8>) -> Option<Seq<u8>> {
    let parts = split_on(s, DOT);
    if parts.len() == 4 && forall|k: int| 0 <= k < 4 ==> octet_text(#[trigger] parts[k]) {
        Some(Seq::new(4, |k: int| decimal_value(parts[k]) as u8))
    } else {
        None
    }
}

/// The first three octets that `s` spells: three octets separated by dots.
pub open spec fn ipv4_prefix_text(s: Seq<u8>) -> Option<Seq<u8>> {
    let parts = split_on(s, DOT);
    if parts.len() == 3 && forall|k: int| 0 <= k < 3 ==> octet_text(#[trigger] parts[k]) {
        Some(Seq::new(3, |k: int| decimal_value(parts[k]) as u8))
    } else {
        None
    }
}

/// Shortest decimal text of `n`.
pub open spec fn decimal_text(n: nat) -> Seq<u8>
    decreases n,
{
    if n < 10 {
        seq![(48 + n) as u8]
    } else {
        decimal_text(n / 10).push((48 + n % 10) as u8)
    }
}

pub open spec fn address_view(r: Option<[u8; 4]>) -> Option<Seq<u8>> {
    match r {
        Some(a) => Some(a@),
        None => None,
    }
}

proof fn lemma_value_push(a: Seq<u8>, b: u8)
    ensures
        decimal_value(a.push(b)) == decimal_value(a) * 10 + (b - 48) as nat,
{
    assert(a.push(b).drop_last() =~= a);
}

proof fn lemma_decimal_text_of_octet(n: nat)
    requires
        n <= 255,
    ensures
        octet_text(decimal_text(n)),
        decimal_value(decimal_text(n)) == n,
        !decimal_text(n).contains(DOT),
{
    let t = decimal_text(n);
    let e = Seq::<u8>::empty();
    assert(decimal_value(e) == 0);
    if n < 10 {
        assert(t == e.push((48 + n) as u8));
        lemma_value_push(e, (48 + n) as u8);
    } else if n < 100 {
        let a = decimal_text(n / 10);
        assert(a == e.push((48 + n / 10) as u8));
        lemma_value_push(e, (48 + n / 10) as u8);
        assert(t == a.push((48 + n % 10) as u8));
        lemma_value_push(a, (48 + n % 10) as u8);
        assert(t[0] == a[0]);
        assert(t[1] == (48 + n % 10) as u8);
    } else {
        let a = decimal_text(n / 10);
        let b = decimal_text(n / 100);
        assert(n / 10 / 10 == n / 100);
        assert(n / 10 >= 10);
        assert(a == b.push((48 + (n / 10) % 10) as u8));
        assert(b == e.push((48 + n / 100) as u8));
        lemma_value_push(e, (48 + n / 100) as u8);
        lemma_value_push(b, (48 + (n / 10) % 10) as u8);
        assert(t == a.push((48 + n % 10) as u8));
        lemma_value_push(a, (48 + n % 10) as u8);
        assert(t[0] == b[0]);
        assert(t[1] == a[1]);
        assert(t[2] == (48 + n % 10) as u8);
        assert(decimal_value(a) == n / 10);
    }
    assert(all_digits(t));
    assert(!t.contains(DOT)) by {
        if t.contains(DOT) {
            let k = choose|k: int| 0 <= k < t.len() && t[k] == DOT;
            assert(is_digit(t[k]));
        }
    }
}

/// Dotted-decimal text of an address whose first three octets are `prefix`:
/// appending a dot and the decimal text of any octet to the text of a three-octet
/// prefix gives the text of the four-octet address, and to any other text gives
/// no address.
pub proof fn lemma_prefix_and_octet(prefix: Seq<u8>, n: u8)
    ensures
        ipv4_text(prefix + seq![DOT] + decimal_text(n as nat)) == match ipv4_prefix_text(prefix) {
            Some(p) => Some(p.push(n)),
            None => None::<Seq<u8>>,
        },
{
    let tail = decimal_text(n as nat);
    lemma_decimal_text_of_octet(n as nat);
    lemma_split_append(prefix, DOT, tail);
    let pp = split_on(prefix, DOT);
    let parts = split_on(prefix + seq![DOT] + tail, DOT);
    assert(parts == pp.push(tail));
    assert(parts[pp.len() as int] == tail);
    if ipv4_prefix_text(prefix) is Some {
        let p = ipv4_prefix_text(prefix).unwrap();
        assert forall|k: int| 0 <= k < 4 implies octet_text(#[trigger] parts[k]) by {
            if k < 3 {
                assert(parts[k] == pp[k]);
            }
        }
        assert(ipv4_text(prefix + seq![DOT] + tail).unwrap() =~= p.push(n));
    } else {
        if parts.len() == 4 {
            assert(pp.len() == 3);
            assert(!(forall|k: int| 0 <= k < 3 ==> octet_text(#[trigger] pp[k])));
            let k = choose|k: int| 0 <= k < 3 && !octet_text(#[trigger] pp[k]);
            assert(parts[k] == pp[k]);
        }
    }
}

/// Reads one octet.
fn parse_octet(t: &Vec<u8>) -> (r: Option<u8>)
    ensures
        r is Some <==> octet_text(t@),
        r matches Some(v) ==> v == decimal_value(t@),
{
    let n = t.len();
    if n == 0 || n > 3 {
        return None;
    }
    if n > 1 && t[0] == 48 {
        return None;
    }
    let mut v: u16 = 0;
    let mut i: usize = 0;
    assert(t@.take(0) =~= Seq::<u8>::empty());
    while i < n
        invariant
            n == t@.len(),
            1 <= n <= 3,
            0 <= i <= n,
            all_digits(t@.take(i as int)),
            v == decimal_value(t@.take(i as int)),
            i <= 2 ==> v <= 99,
            i <= 1 ==> v <= 9,
            v <= 999,
        decreases n - i,
    {
        let b = t[i];
        if b < 48 || b > 57 {
            assert(!all_digits(t@)) by {
                assert(t@[i as int] == b);
            }
            return None;
        }
        assert(t@.take(i as int + 1).drop_last() =~= t@.take(i as int));
        assert(t@.take(i as int + 1).last() == b);
        v = v * 10 + (b - 48) as u16;
        i += 1;
    }
    assert(t@.take(n as int) =~= t@);
    if v > 255 {
        None
    } else {
        Some(v as u8)
    }
}

/// Reads a dotted-decimal IPv4 address from its bytes.
pub fn parse_ipv4_bytes(s: &[u8]) -> (r: Option<[u8; 4]>)
    ensures
        address_view(r) == ipv4_text(s@),
{
    let parts = split_bytes(s, DOT);
    assert(parts@.len() == split_on(s@, DOT).len());
    if parts.len() != 4 {
        return None;
    }
    let mut out: [u8; 4] = [0u8; 4];
    let mut k: usize = 0;
    while k < 4
        invariant
            parts@.len() == 4,
            byte_views(parts@) == split_on(s@, DOT),
            0 <= k <= 4,
            forall|j: int| 0 <= j < k ==> octet_text(#[trigger] split_on(s@, DOT)[j]),
            forall|j: int|
                0 <= j < k ==> out@[j] == decimal_value(#[trigger] split_on(s@, DOT)[j]) as u8,
        decreases 4 - k,
    {
        assert(parts@[k as int]@ == split_on(s@, DOT)[k as int]);
        match parse_octet(&parts[k]) {
            Some(v) => {
                out[k] = v;
            },
            None => {
                return None;
            },
        }
        k += 1;
    }
    assert(out@ =~= ipv4_text(s@).unwrap());
    Some(out)
}

/// Reads a dotted-decimal IPv4 address, as `Ipv4Addr`'s `FromStr` does.
pub fn parse_ipv4(s: &str) -> (r: Option<[u8; 4]>)
    ensures
        address_view(r) == ipv4_text(s.spec_bytes()),
{
    parse_ipv4_bytes(s.as_bytes())
}

/// Appends the decimal text of `n`.
pub fn push_decimal(buf: &mut Vec<u8>, n: u8)
    ensures
        final(buf)@ == old(buf)@ + decimal_text(n as nat),
{
    if n >= 100 {
        buf.push(48 + n / 100);
    }
    if n >= 10 {
        buf.push(48 + (n / 10) % 10);
    }
    buf.push(48 + n % 10);
    proof {
        let m = n as nat;
        if m >= 100 {
            assert(decimal_text(m) == decimal_text(m / 10).push((48 + m % 10) as u8));
            assert(decimal_text(m / 10) == decimal_text(m / 100).push((48 + (m / 10) % 10) as u8));
            assert(m / 10 / 10 == m / 100);
        } else if m >= 10 {
            assert(decimal_text(m) == decimal_text(m / 10).push((48 + m % 10) as u8));
        }
        assert(final(buf)@ =~= old(buf)@ + decimal_text(m));
    }
}

/// Whether two addresses are the same.
pub fn same_address(a: [u8; 4], b: [u8; 4]) -> (r: bool)
    ensures
        r == (a@ == b@),
{
    let r = a[0] == b[0] && a[1] == b[1] && a[2] == b[2] && a[3] == b[3];
    assert(r ==> a@ =~= b@);
    assert(a@ == b@ ==> a@[0] == b@[0] && a@[1] == b@[1] && a@[2] == b@[2] && a@[3] == b@[3]);
    r
}

/// The decimal text of any number is a run of digits that reads back as that number.
pub proof fn lemma_decimal_text_reads_back(n: nat)
    ensures
        decimal_text(n).len() >= 1,
        all_digits(decimal_text(n)),
        decimal_value(decimal_text(n)) == n,
    decreases n,
{
    let t = decimal_text(n);
    if n < 10 {
        let e = Seq::<u8>::empty();
        assert(decimal_value(e) == 0);
        assert(t == e.push((48 + n) as u8));
        lemma_value_push(e, (48 + n) as u8);
    } else {
        let a = decimal_text(n / 10);
        lemma_decimal_text_reads_back(n / 10);
        assert(t == a.push((48 + n % 10) as u8));
        lemma_value_push(a, (48 + n % 10) as u8);
        assert forall|i: int| 0 <= i < t.len() implies is_digit(#[trigger] t[i]) by {
            if i < a.len() {
                assert(t[i] == a[i]);
            }
        }
    }
}

} // verus!
