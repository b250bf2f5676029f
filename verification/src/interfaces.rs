//! Network interfaces the scanner can bind to, and the table that finds one by
//! the text of its index.

use vstd::prelude::*;
use dict::DictEntry;

verus! {

/// An interface the scanner works through: its name, hardware address and
/// first IPv4 address.
#[derive(Debug, Clone)]
pub struct InterfaceInfo {
    pub name: String,
    pub mac: [u8; 6],
    pub ip: [u8; 4],
}

/// Name, hardware address and IPv4 address of an interface.
pub type InterfaceView = (Seq<char>, Seq<u8>, Seq<u8>);

impl View for InterfaceInfo {
    type V = InterfaceView;

    open spec fn view(&self) -> InterfaceView {
        (self.name@, self.mac@, self.ip@)
    }
}

/// The first address an interface reports.
#[derive(Clone, Copy, Debug, PartialEq, Eq)]
pub enum FirstAddress {
    Missing,
    V4([u8; 4]),
    V6,
}

/// An interface as the system lists it.
#[derive(Debug)]
pub struct InterfaceCandidate {
    pub name: String,
    pub index: u32,
    pub mac: Option<[u8; 6]>,
    pub first_address: FirstAddress,
}

/// Whether an interface can be used, and why not.
#[derive(Debug)]
pub enum InterfaceStatus {
    Usable(InterfaceInfo),
    /// It has a hardware address, but its first address is not IPv4.
    NotIpv4,
    /// It has a hardware address but no address at all.
    NoAddress,
    /// It has no hardware address.
    NoMac,
}

/// The interface a candidate gives, when it has a hardware address and its
/// first address is IPv4.
pub open spec fn usable_view(c: InterfaceCandidate) -> Option<InterfaceView> {
    match c.mac {
        Some(m) => match c.first_address {
            FirstAddress::V4(ip) => Some((c.name@, m@, ip@)),
            _ => None,
        },
        None => None,
    }
}

/// Decides whether an interface can be used.
pub fn classify_interface(c: &InterfaceCandidate) -> (s: InterfaceStatus)
    ensures
        match s {
            InterfaceStatus::Usable(info) => usable_view(*c) == Some(info@),
            InterfaceStatus::NotIpv4 => c.mac is Some && c.first_address is V6,
            InterfaceStatus::NoAddress => c.mac is Some && c.first_address is Missing,
            InterfaceStatus::NoMac => c.mac is None,
        },
        s is Usable <==> usable_view(*c) is Some,
{
    match c.mac {
        Some(mac) => match c.first_address {
            FirstAddress::V4(ip) => InterfaceStatus::Usable(
                InterfaceInfo { name: c.name.clone(), mac, ip },
            ),
            FirstAddress::V6 => InterfaceStatus::NotIpv4,
            FirstAddress::Missing => InterfaceStatus::NoAddress,
        },
        None => InterfaceStatus::NoMac,
    }
}

// ----- the dict crate's associative array -----

#[verifier::external_type_specification]
#[verifier::external_body]
#[verifier::reject_recursive_types(T)]
pub struct ExDictEntry<T>(DictEntry<T>);

/// The hash under which dict files a key (`DefaultHasher` over the key's text).
pub uninterp spec fn dict_key_hash(key: Seq<char>) -> u64;

/// The hash an entry of a `Dict<InterfaceInfo>` is filed under.
pub uninterp spec fn entry_hash(e: DictEntry<InterfaceInfo>) -> u64;

/// The key text of an entry of a `Dict<InterfaceInfo>`.
pub uninterp spec fn entry_key(e: DictEntry<InterfaceInfo>) -> Seq<char>;

/// The interface an entry of a `Dict<InterfaceInfo>` holds.
pub uninterp spec fn entry_value(e: DictEntry<InterfaceInfo>) -> InterfaceView;

/// Entries in strictly increasing order of hash, as dict keeps them.
pub open spec fn hashes_ascending(entries: Seq<DictEntry<InterfaceInfo>>) -> bool {
    forall|i: int, j: int|
        0 <= i < j < entries.len() ==> entry_hash(#[trigger] entries[i]) < entry_hash(
            #[trigger] entries[j],
        )
}

pub open spec fn has_hash(entries: Seq<DictEntry<InterfaceInfo>>, h: u64) -> bool {
    exists|i: int| 0 <= i < entries.len() && entry_hash(#[trigger] entries[i]) == h
}

/// The interfaces the entries hold, by hash.
pub open spec fn entries_map(entries: Seq<DictEntry<InterfaceInfo>>) -> Map<u64, InterfaceView> {
    Map::new(
        |h: u64| has_hash(entries, h),
        |h: u64|
            entry_value(
                entries[choose|i: int| 0 <= i < entries.len() && entry_hash(#[trigger] entries[i]) == h],
            ),
    )
}

/// dict's `DictIface::add` on a `Dict<InterfaceInfo>` (a vector of entries
/// sorted by key hash): it binary-searches the key's hash and, when no entry has
/// it, inserts a new entry for `key` and `val` where the order keeps. Claimed:
/// it returns whether no entry had the key's hash; when so, the entries are the
/// old ones with one new entry (that hash, that key, that value) inserted, still
/// sorted; else the entries are unchanged.
#[verifier::external_body]
fn dict_add(entries: &mut Vec<DictEntry<InterfaceInfo>>, key: String, val: InterfaceInfo) -> (added:
    bool)
    requires
        hashes_ascending(old(entries)@),
    ensures
        added == !has_hash(old(entries)@, dict_key_hash(key@)),
        hashes_ascending(final(entries)@),
        !added ==> final(entries)@ == old(entries)@,
        added ==> exists|pos: int|
            0 <= pos <= old(entries)@.len() && final(entries)@ == old(entries)@.insert(
                pos,
                #[trigger] final(entries)@[pos],
            ) && entry_hash(final(entries)@[pos]) == dict_key_hash(key@) && entry_key(
                final(entries)@[pos],
            ) == key@ && entry_value(final(entries)@[pos]) == val@,
{
    dict::DictIface::add(entries, key, val)
}

/// dict's `DictIface::get` on a `Dict<InterfaceInfo>` sorted by key hash: it
/// binary-searches the key's hash. Claimed: it returns the value of an entry
/// filed under that hash, and nothing when no entry is.
#[verifier::external_body]
fn dict_get<'a>(entries: &'a Vec<DictEntry<InterfaceInfo>>, key: &str) -> (r: Option<
    &'a InterfaceInfo,
>)
    requires
        hashes_ascending(entries@),
    ensures
        r is Some <==> has_hash(entries@, dict_key_hash(key@)),
        r matches Some(v) ==> exists|i: int|
            0 <= i < entries@.len() && entry_hash(#[trigger] entries@[i]) == dict_key_hash(key@)
                && entry_value(entries@[i]) == v@,
{
    dict::DictIface::get(entries, key)
}

/// Decimal text of `n`.
pub open spec fn decimal_chars(n: nat) -> Seq<char>
    decreases n,
{
    if n < 10 {
        seq![(48 + n) as char]
    } else {
        decimal_chars(n / 10).push((48 + n % 10) as char)
    }
}

/// Text of one decimal digit.
fn digit_text(d: u32) -> (t: &'static str)
    requires
        d < 10,
    ensures
        t@ == seq![(48 + d) as char],
{
    proof {
        reveal_strlit("0");
        reveal_strlit("1");
        reveal_strlit("2");
        reveal_strlit("3");
        reveal_strlit("4");
        reveal_strlit("5");
        reveal_strlit("6");
        reveal_strlit("7");
        reveal_strlit("8");
        reveal_strlit("9");
    }
    let t = if d == 0 {
        "0"
    } else if d == 1 {
        "1"
    } else if d == 2 {
        "2"
    } else if d == 3 {
        "3"
    } else if d == 4 {
        "4"
    } else if d == 5 {
        "5"
    } else if d == 6 {
        "6"
    } else if d == 7 {
        "7"
    } else if d == 8 {
        "8"
    } else {
        "9"
    };
    assert(t@ =~= seq![(48 + d) as char]);
    t
}

/// Appends the decimal text of `n`.
fn append_decimal(s: &mut String, n: u32)
    ensures
        final(s)@ == old(s)@ + decimal_chars(n as nat),
    decreases n,
{
    if n >= 10 {
        append_decimal(s, n / 10);
    }
    s.append(digit_text(n % 10));
    assert(s@ =~= old(s)@ + decimal_chars(n as nat));
}

/// Decimal text of `n`, as `u32`'s `ToString` writes it.
pub fn u32_to_string(n: u32) -> (s: String)
    ensures
        s@ == decimal_chars(n as nat),
{
    let mut s = String::new();
    append_decimal(&mut s, n);
    assert(s@ =~= decimal_chars(n as nat));
    s
}

proof fn lemma_unique_hash(entries: Seq<DictEntry<InterfaceInfo>>, i: int, j: int)
    requires
        hashes_ascending(entries),
        0 <= i < entries.len(),
        0 <= j < entries.len(),
        entry_hash(entries[i]) == entry_hash(entries[j]),
    ensures
        i == j,
{
    if i < j {
        assert(entry_hash(entries[i]) < entry_hash(entries[j]));
    } else if j < i {
        assert(entry_hash(entries[j]) < entry_hash(entries[i]));
    }
}

proof fn lemma_insert_entry(
    old_entries: Seq<DictEntry<InterfaceInfo>>,
    new_entries: Seq<DictEntry<InterfaceInfo>>,
    pos: int,
)
    requires
        hashes_ascending(old_entries),
        hashes_ascending(new_entries),
        0 <= pos <= old_entries.len(),
        new_entries == old_entries.insert(pos, new_entries[pos]),
        !has_hash(old_entries, entry_hash(new_entries[pos])),
    ensures
        entries_map(new_entries) == entries_map(old_entries).insert(
            entry_hash(new_entries[pos]),
            entry_value(new_entries[pos]),
        ),
{
    let e = new_entries[pos];
    let h = entry_hash(e);
    old_entries.insert_ensures(pos, e);
    let m_new = entries_map(new_entries);
    let m_old = entries_map(old_entries).insert(h, entry_value(e));
    assert forall|g: u64| m_new.dom().contains(g) <==> m_old.dom().contains(g) by {
        if has_hash(new_entries, g) && g != h {
            let i = choose|i: int| 0 <= i < new_entries.len() && entry_hash(#[trigger] new_entries[i]) == g;
            if i < pos {
                assert(entry_hash(old_entries[i]) == g);
            } else {
                assert(i != pos);
                assert(entry_hash(old_entries[i - 1]) == g);
            }
        }
        if has_hash(old_entries, g) {
            let j = choose|j: int| 0 <= j < old_entries.len() && entry_hash(#[trigger] old_entries[j]) == g;
            if j < pos {
                assert(entry_hash(new_entries[j]) == g);
            } else {
                assert(entry_hash(new_entries[j + 1]) == g);
            }
        }
        if g == h {
            assert(entry_hash(new_entries[pos]) == g);
        }
    }
    assert forall|g: u64| #[trigger] m_new.dom().contains(g) implies m_new[g] == m_old[g] by {
        let i = choose|i: int| 0 <= i < new_entries.len() && entry_hash(#[trigger] new_entries[i]) == g;
        if g == h {
            assert(entry_hash(new_entries[pos]) == g);
            lemma_unique_hash(new_entries, i, pos);
        } else {
            let j = choose|j: int| 0 <= j < old_entries.len() && entry_hash(#[trigger] old_entries[j]) == g;
            if j < pos {
                assert(entry_hash(new_entries[j]) == g);
                lemma_unique_hash(new_entries, i, j);
            } else {
                assert(entry_hash(new_entries[j + 1]) == g);
                lemma_unique_hash(new_entries, i, j + 1);
            }
        }
    }
    assert(m_new =~= m_old);
}

/// The interfaces a list of candidates files, by the hash of the text of their
/// index: each usable candidate in turn, unless its key's hash is taken already.
pub open spec fn table_contents(cands: Seq<InterfaceCandidate>) -> Map<u64, InterfaceView>
    decreases cands.len(),
{
    if cands.len() == 0 {
        Map::empty()
    } else {
        let before = table_contents(cands.drop_last());
        let c = cands.last();
        match usable_view(c) {
            Some(v) => {
                let h = dict_key_hash(decimal_chars(c.index as nat));
                if before.dom().contains(h) {
                    before
                } else {
                    before.insert(h, v)
                }
            },
            None => before,
        }
    }
}

/// The usable interfaces, found by the decimal text of their index.
pub struct InterfaceTable {
    entries: Vec<DictEntry<InterfaceInfo>>,
}

impl InterfaceTable {
    /// dict keeps its entries in strictly increasing order of hash.
    #[verifier::type_invariant]
    spec fn wf(&self) -> bool {
        hashes_ascending(self.entries@)
    }

    /// The interfaces the table holds, by the hash of their key.
    pub closed spec fn contents(&self) -> Map<u64, InterfaceView> {
        entries_map(self.entries@)
    }
}

/// Files every usable interface under the decimal text of its index.
pub fn build_interface_table(cands: &Vec<InterfaceCandidate>) -> (t: InterfaceTable)
    ensures
        t.contents() == table_contents(cands@),
{
    let mut entries: Vec<DictEntry<InterfaceInfo>> = Vec::new();
    let mut k: usize = 0;
    assert(entries_map(entries@) =~= Map::<u64, InterfaceView>::empty());
    assert(cands@.take(0) =~= Seq::<InterfaceCandidate>::empty());
    while k < cands.len()
        invariant
            0 <= k <= cands@.len(),
            hashes_ascending(entries@),
            entries_map(entries@) == table_contents(cands@.take(k as int)),
        decreases cands@.len() - k,
    {
        let c = &cands[k];
        assert(cands@.take(k as int + 1).drop_last() =~= cands@.take(k as int));
        assert(cands@.take(k as int + 1).last() == *c);
        match classify_interface(c) {
            InterfaceStatus::Usable(info) => {
                let key = u32_to_string(c.index);
                let ghost h = dict_key_hash(key@);
                let ghost old_entries = entries@;
                let added = dict_add(&mut entries, key, info);
                proof {
                    if added {
                        let pos = choose|pos: int|
                            0 <= pos <= old_entries.len() && entries@ == old_entries.insert(
                                pos,
                                #[trigger] entries@[pos],
                            ) && entry_hash(entries@[pos]) == h && entry_key(entries@[pos])
                                == key@ && entry_value(entries@[pos]) == info@;
                        lemma_insert_entry(old_entries, entries@, pos);
                    }
                }
            },
            _ => {},
        }
        k += 1;
    }
    assert(cands@.take(cands@.len() as int) =~= cands@);
    InterfaceTable { entries }
}

/// The interface filed under `key`, if any.
pub fn select_interface<'a>(table: &'a InterfaceTable, key: &str) -> (r: Option<&'a InterfaceInfo>)
    ensures
        r is Some <==> table.contents().dom().contains(dict_key_hash(key@)),
        r matches Some(v) ==> table.contents()[dict_key_hash(key@)] == v@,
{
    proof {
        use_type_invariant(table);
    }
    let r = dict_get(&table.entries, key);
    proof {
        if let Some(v) = r {
            let h = dict_key_hash(key@);
            let i = choose|i: int|
                0 <= i < table.entries@.len() && entry_hash(#[trigger] table.entries@[i]) == h
                    && entry_value(table.entries@[i]) == v@;
            let j = choose|j: int|
                0 <= j < table.entries@.len() && entry_hash(#[trigger] table.entries@[j]) == h;
            lemma_unique_hash(table.entries@, i, j);
        }
    }
    r
}

/// The hash of the key a candidate is filed under.
pub open spec fn candidate_key_hash(c: InterfaceCandidate) -> u64 {
    dict_key_hash(decimal_chars(c.index as nat))
}

proof fn lemma_table_domain(cands: Seq<InterfaceCandidate>, h: u64)
    ensures
        table_contents(cands).dom().contains(h) <==> exists|j: int|
            0 <= j < cands.len() && usable_view(#[trigger] cands[j]) is Some && candidate_key_hash(
                cands[j],
            ) == h,
    decreases cands.len(),
{
    if cands.len() > 0 {
        let d = cands.drop_last();
        lemma_table_domain(d, h);
        if table_contents(cands).dom().contains(h) {
            if !table_contents(d).dom().contains(h) {
                assert(usable_view(cands[cands.len() - 1]) is Some);
            } else {
                let j = choose|j: int|
                    0 <= j < d.len() && usable_view(#[trigger] d[j]) is Some && candidate_key_hash(
                        d[j],
                    ) == h;
                assert(cands[j] == d[j]);
            }
        } else {
            assert forall|j: int|
                0 <= j < cands.len() && usable_view(#[trigger] cands[j]) is Some implies candidate_key_hash(
                cands[j],
            ) != h by {
                if j < d.len() {
                    assert(cands[j] == d[j]);
                }
            }
        }
    }
}

/// Every usable interface is found under the text of its index, unless another
/// usable interface's key has the same hash.
pub proof fn lemma_table_finds_usable(cands: Seq<InterfaceCandidate>, i: int)
    requires
        0 <= i < cands.len(),
        usable_view(cands[i]) is Some,
        forall|j: int|
            0 <= j < cands.len() && j != i && usable_view(#[trigger] cands[j]) is Some
                ==> candidate_key_hash(cands[j]) != candidate_key_hash(cands[i]),
    ensures
        table_contents(cands).dom().contains(candidate_key_hash(cands[i])),
        table_contents(cands)[candidate_key_hash(cands[i])] == usable_view(cands[i]).unwrap(),
    decreases cands.len(),
{
    let h = candidate_key_hash(cands[i]);
    let d = cands.drop_last();
    if i < cands.len() - 1 {
        assert forall|j: int|
            0 <= j < d.len() && j != i && usable_view(#[trigger] d[j]) is Some implies candidate_key_hash(
            d[j],
        ) != candidate_key_hash(d[i]) by {
            assert(d[j] == cands[j]);
        }
        lemma_table_finds_usable(d, i);
        assert(candidate_key_hash(d[i]) == h);
    } else {
        lemma_table_domain(d, h);
        assert forall|j: int|
            0 <= j < d.len() && usable_view(#[trigger] d[j]) is Some implies candidate_key_hash(
            d[j],
        ) != h by {
            assert(d[j] == cands[j]);
        }
    }
}

} // verus!
