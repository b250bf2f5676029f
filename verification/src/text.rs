//! Byte-level text helpers shared by the address and port parsers.

use vstd::prelude::*;

verus! {

/// ASCII decimal digit.
pub open spec fn is_digit(b: u8) -> bool {
    48 <= b && b <= 57
}

pub open spec fn all_digits(t: Seq<u8>) -> bool {
    forall|i: int| 0 <= i < t.len() ==> is_digit(#[trigger] t[i])
}

/// Value of a run of decimal digits, most significant digit first.
pub open spec fn decimal_value(t: Seq<u8>) -> nat
    decreases t.len(),
{
    if t.len() == 0 {
        0
    } else {
        decimal_value(t.drop_last()) * 10 + (t.last() - 48) as nat
    }
}

/// The pieces of `s` between occurrences of `sep`, as `str::split` yields them
/// (always at least one piece; empty pieces are kept).
pub open spec fn split_on(s: Seq<u8>, sep: u8) -> Seq<Seq<u8>>
    decreases s.len(),
{
    if s.len() == 0 {
        seq![Seq::<u8>::empty()]
    } else {
        let parts = split_on(s.drop_last(), sep);
        if s.last() == sep {
            parts.push(Seq::<u8>::empty())
        } else {
            parts.update(parts.len() - 1, parts.last().push(s.last()))
        }
    }
}

pub open spec fn byte_views(parts: Seq<Vec<u8>>) -> Seq<Seq<u8>> {
    parts.map_values(|p: Vec<u8>| p@)
}

pub proof fn lemma_split_nonempty(s: Seq<u8>, sep: u8)
    ensures
        split_on(s, sep).len() >= 1,
    decreases s.len(),
{
    if s.len() > 0 {
        lemma_split_nonempty(s.drop_last(), sep);
    }
}

/// Splitting a text that holds no separator gives the text itself.
pub proof fn lemma_split_without_separator(s: Seq<u8>, sep: u8)
    requires
        !s.contains(sep),
    ensures
        split_on(s, sep) == seq![s],
    decreases s.len(),
{
    if s.len() == 0 {
        assert(s =~= Seq::<u8>::empty());
    } else {
        let d = s.drop_last();
        assert(!d.contains(sep)) by {
            if d.contains(sep) {
                let k = choose|k: int| 0 <= k < d.len() && d[k] == sep;
                assert(s[k] == sep);
            }
        }
        lemma_split_without_separator(d, sep);
        assert(s.last() != sep) by {
            assert(s[s.len() - 1] == s.last());
        }
        assert(d.push(s.last()) =~= s);
        assert(split_on(s, sep) =~= seq![s]);
    }
}

/// Appending a separator and then a separator-free tail adds that tail as one more piece.
pub proof fn lemma_split_append(s: Seq<u8>, sep: u8, tail: Seq<u8>)
    requires
        !tail.contains(sep),
    ensures
        split_on(s + seq![sep] + tail, sep) == split_on(s, sep).push(tail),
    decreases tail.len(),
{
    if tail.len() == 0 {
        assert(s + seq![sep] + tail =~= s.push(sep));
        assert((s.push(sep)).drop_last() =~= s);
        assert(tail =~= Seq::<u8>::empty());
        assert(split_on(s.push(sep), sep) == split_on(s, sep).push(Seq::<u8>::empty()));
    } else {
        let t = tail.drop_last();
        assert(!t.contains(sep)) by {
            if t.contains(sep) {
                let k = choose|k: int| 0 <= k < t.len() && t[k] == sep;
                assert(tail[k] == sep);
            }
        }
        lemma_split_append(s, sep, t);
        let whole = s + seq![sep] + tail;
        assert(whole.drop_last() =~= s + seq![sep] + t);
        assert(whole.last() == tail.last());
        assert(tail.last() != sep) by {
            assert(tail[tail.len() - 1] == tail.last());
        }
        assert(t.push(tail.last()) =~= tail);
        lemma_split_nonempty(s, sep);
        assert(split_on(whole, sep) =~= split_on(s, sep).push(tail));
    }
}

/// Splits `s` at every `sep` byte.
pub fn split_bytes(s: &[u8], sep: u8) -> (parts: Vec<Vec<u8>>)
    ensures
        byte_views(parts@) == split_on(s@, sep),
{
    let mut parts: Vec<Vec<u8>> = Vec::new();
    let mut cur: Vec<u8> = Vec::new();
    let mut i: usize = 0;
    assert(s@.take(0) =~= Seq::<u8>::empty());
    assert(byte_views(parts@).push(cur@) =~= split_on(s@.take(0), sep));
    while i < s.len()
        invariant
            0 <= i <= s.len(),
            byte_views(parts@).push(cur@) == split_on(s@.take(i as int), sep),
        decreases s.len() - i,
    {
        let ghost before = s@.take(i as int);
        let b = s[i];
        assert(s@.take(i as int + 1).drop_last() =~= before);
        assert(s@.take(i as int + 1).last() == b);
        proof {
            lemma_split_nonempty(before, sep);
        }
        if b == sep {
            let ghost old_parts = parts@;
            parts.push(cur);
            cur = Vec::new();
            assert(byte_views(parts@) =~= byte_views(old_parts).push(
                split_on(before, sep).last(),
            ));
            assert(byte_views(parts@).push(cur@) =~= split_on(s@.take(i as int + 1), sep));
        } else {
            let ghost old_cur = cur@;
            cur.push(b);
            assert(byte_views(parts@).push(cur@) =~= split_on(s@.take(i as int + 1), sep));
        }
        i += 1;
    }
    assert(s@.take(s.len() as int) =~= s@);
    let ghost old_parts = parts@;
    parts.push(cur);
    assert(byte_views(parts@) =~= byte_views(old_parts).push(cur@));
    parts
}

/// Whether `sep` occurs in `s`.
pub fn contains_byte(s: &[u8], sep: u8) -> (found: bool)
    ensures
        found == s@.contains(sep),
{
    let mut i: usize = 0;
    while i < s.len()
        invariant
            0 <= i <= s.len(),
            forall|k: int| 0 <= k < i ==> s@[k] != sep,
        decreases s.len() - i,
    {
        if s[i] == sep {
            assert(s@[i as int] == sep);
            return true;
        }
        i += 1;
    }
    false
}

} // verus!
