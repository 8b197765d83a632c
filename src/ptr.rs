//! Reverse-lookup names: the address a PTR query under `in-addr.arpa.` or
//! `ip6.arpa.` asks about.
use crate::dns::IpAddress;
use crate::text::{chars_of, ends_with, has_suffix, parse_unsigned, parse_unsigned_chars, slice_chars, split_chars, split_on};
use vstd::prelude::*;

verus! {

/// The suffix of IPv4 reverse-lookup names.
pub open spec fn v4_suffix() -> Seq<char> {
    seq!['.', 'i', 'n', '-', 'a', 'd', 'd', 'r', '.', 'a', 'r', 'p', 'a', '.']
}

/// The suffix of IPv6 reverse-lookup names.
pub open spec fn v6_suffix() -> Seq<char> {
    seq!['.', 'i', 'p', '6', '.', 'a', 'r', 'p', 'a', '.']
}

/// Whether every label reads as a number of at most `max` in base `radix`.
pub open spec fn all_read(labels: Seq<Seq<char>>, radix: nat, max: nat) -> bool {
    forall|i: int| 0 <= i < labels.len() ==> (#[trigger] parse_unsigned(labels[i], radix, max)) is Some
}

/// The number label `i` reads as.
pub open spec fn read_at(labels: Seq<Seq<char>>, i: int, radix: nat, max: nat) -> nat {
    parse_unsigned(labels[i], radix, max)->0
}

/// The labels before the suffix, cut at the dots.
pub open spec fn labels_before(name: Seq<char>, suffix: Seq<char>) -> Seq<Seq<char>> {
    split_on(name.take(name.len() - suffix.len()), '.')
}

/// The IPv4 address of a name under `in-addr.arpa.`: every label must be a
/// decimal octet, and the last four labels, read backwards, are the address.
pub open spec fn v4_of(labels: Seq<Seq<char>>) -> Option<IpAddress> {
    let n = labels.len();
    if all_read(labels, 10, 255) && n >= 4 {
        Some(IpAddress::V4((read_at(labels, n - 1, 10, 255) * 0x1000000 + read_at(labels, n - 2, 10, 255) * 0x10000
            + read_at(labels, n - 3, 10, 255) * 0x100 + read_at(labels, n - 4, 10, 255)) as u32))
    } else {
        None
    }
}

/// The labels joined without separators.
pub open spec fn join(s: Seq<Seq<char>>) -> Seq<char>
    decreases s.len(),
{
    if s.len() == 0 {
        Seq::empty()
    } else {
        join(s.drop_last()) + s.last()
    }
}

/// Group `k` of the reversed labels: up to four of them, joined.
pub open spec fn nibble_group(rev: Seq<Seq<char>>, k: int) -> Seq<char> {
    join(rev.subrange(4 * k, if 4 * k + 4 <= rev.len() { 4 * k + 4 } else { rev.len() as int }))
}

/// The number of groups of four the reversed labels fall into.
pub open spec fn group_count(n: nat) -> nat {
    ((n + 3) / 4) as nat
}

/// The 128-bit value of the first `k` 16-bit words, most significant first.
pub open spec fn words_value(rev: Seq<Seq<char>>, k: nat) -> nat
    decreases k,
{
    if k == 0 {
        0
    } else {
        words_value(rev, (k - 1) as nat) * 0x10000 + parse_unsigned(nibble_group(rev, k - 1), 16, 0xFFFF)->0
    }
}

/// The IPv6 address of a name under `ip6.arpa.`: the labels, reversed, are
/// grouped by four; every group must read as a hexadecimal 16-bit word, and
/// the first eight words are the address.
pub open spec fn v6_of(labels: Seq<Seq<char>>) -> Option<IpAddress> {
    let rev = labels.reverse();
    if (forall|k: int| 0 <= k < group_count(rev.len()) ==> (#[trigger] parse_unsigned(nibble_group(rev, k), 16, 0xFFFF)) is Some)
        && group_count(rev.len()) >= 8 {
        Some(IpAddress::V6(words_value(rev, 8) as u128))
    } else {
        None
    }
}

/// The address a reverse-lookup name asks about; `None` for a name under
/// neither suffix or one whose labels do not make an address.
pub open spec fn ptr_address(name: Seq<char>) -> Option<IpAddress> {
    if has_suffix(name, v4_suffix()) {
        v4_of(labels_before(name, v4_suffix()))
    } else if has_suffix(name, v6_suffix()) {
        v6_of(labels_before(name, v6_suffix()))
    } else {
        None
    }
}

/// Reads every label as a number; `None` if one does not read.
fn read_labels(labels: &Vec<Vec<char>>, Ghost(ls): Ghost<Seq<Seq<char>>>, radix: u32, max: u32) -> (r: Option<Vec<u32>>)
    requires
        radix == 10 || radix == 16,
        max <= 0xFFFF,
        labels@.len() == ls.len(),
        forall|i: int| 0 <= i < ls.len() ==> #[trigger] labels@[i]@ == ls[i],
    ensures
        match r {
            Some(v) => all_read(ls, radix as nat, max as nat) && v@.len() == ls.len() && forall|i: int|
                0 <= i < ls.len() ==> (#[trigger] v@[i]) as nat == read_at(ls, i, radix as nat, max as nat),
            None => !all_read(ls, radix as nat, max as nat),
        },
{
    let mut out: Vec<u32> = Vec::new();
    let mut i: usize = 0;
    while i < labels.len()
        invariant
            radix == 10 || radix == 16,
            max <= 0xFFFF,
            labels@.len() == ls.len(),
            forall|j: int| 0 <= j < ls.len() ==> #[trigger] labels@[j]@ == ls[j],
            i <= ls.len(),
            out@.len() == i,
            forall|j: int| 0 <= j < i ==> (#[trigger] parse_unsigned(ls[j], radix as nat, max as nat)) is Some,
            forall|j: int| 0 <= j < i ==> (#[trigger] out@[j]) as nat == read_at(ls, j, radix as nat, max as nat),
        decreases ls.len() - i,
    {
        assert(labels@[i as int]@ == ls[i as int]);
        match parse_unsigned_chars(labels[i].as_slice(), radix, max) {
            Some(v) => {
                out.push(v);
            },
            None => {
                return None;
            },
        }
        i = i + 1;
    }
    Some(out)
}

/// The IPv4 address of the labels before `.in-addr.arpa.`.
fn decode_v4(labels: &Vec<Vec<char>>, Ghost(ls): Ghost<Seq<Seq<char>>>) -> (r: Option<IpAddress>)
    requires
        labels@.len() == ls.len(),
        forall|i: int| 0 <= i < ls.len() ==> #[trigger] labels@[i]@ == ls[i],
    ensures
        r == v4_of(ls),
{
    match read_labels(labels, Ghost(ls), 10, 255) {
        None => None,
        Some(v) => {
            let n = v.len();
            if n < 4 {
                return None;
            }
            let a = v[n - 1];
            let b = v[n - 2];
            let c = v[n - 3];
            let d = v[n - 4];
            assert(a <= 255 && b <= 255 && c <= 255 && d <= 255);
            Some(IpAddress::V4(a * 0x1000000 + b * 0x10000 + c * 0x100 + d))
        },
    }
}

proof fn lemma_words_value_bound(rev: Seq<Seq<char>>, k: nat)
    requires
        forall|j: int| 0 <= j < k ==> (#[trigger] parse_unsigned(nibble_group(rev, j), 16, 0xFFFF)) is Some,
    ensures
        words_value(rev, k) < vstd::arithmetic::power2::pow2(16 * k),
    decreases k,
{
    vstd::arithmetic::power2::lemma2_to64();
    if k > 0 {
        lemma_words_value_bound(rev, (k - 1) as nat);
        let w = parse_unsigned(nibble_group(rev, k - 1), 16, 0xFFFF)->0;
        let p = vstd::arithmetic::power2::pow2(16 * (k - 1) as nat);
        vstd::arithmetic::power2::lemma_pow2_adds(16 * (k - 1) as nat, 16);
        vstd::arithmetic::power2::lemma2_to64();
        assert(vstd::arithmetic::power2::pow2(16) == 0x10000) by {
            vstd::arithmetic::power2::lemma2_to64_rest();
        }
        assert(words_value(rev, (k - 1) as nat) * 0x10000 + w < p * 0x10000) by (nonlinear_arith)
            requires
                words_value(rev, (k - 1) as nat) < p,
                w <= 0xFFFF,
        ;
        assert(16 * (k - 1) as nat + 16 == 16 * k);
    }
}

/// The reversed labels from `start` up to `end`, joined.
fn group_text(labels: &Vec<Vec<char>>, Ghost(ls): Ghost<Seq<Seq<char>>>, start: usize, end: usize) -> (text: Vec<char>)
    requires
        labels@.len() == ls.len(),
        forall|i: int| 0 <= i < ls.len() ==> #[trigger] labels@[i]@ == ls[i],
        start <= end <= ls.len(),
    ensures
        text@ == join(ls.reverse().subrange(start as int, end as int)),
{
    let ghost rev = ls.reverse();
    let n = labels.len();
        let mut text: Vec<char> = Vec::new();
        let mut m: usize = start;
        while m < end
            invariant
                n == ls.len(),
                labels@.len() == ls.len(),
                forall|i: int| 0 <= i < ls.len() ==> #[trigger] labels@[i]@ == ls[i],
                rev == ls.reverse(),
                start <= m <= end <= n,
                text@ == join(rev.subrange(start as int, m as int)),
            decreases end - m,
        {
            let label = &labels[n - 1 - m];
            assert(label@ == rev[m as int]);
            let mut t: usize = 0;
            let ghost before = text@;
            while t < label.len()
                invariant
                    text@ == before + label@.take(t as int),
                    t <= label@.len(),
                decreases label@.len() - t,
            {
                text.push(label[t]);
                t = t + 1;
                assert(text@ =~= before + label@.take(t as int));
            }
            assert(label@.take(t as int) =~= label@);
            assert(rev.subrange(start as int, m + 1 as int).drop_last() =~= rev.subrange(start as int, m as int));
            m = m + 1;
        }
    assert(text@ == join(ls.reverse().subrange(start as int, end as int)));
    text
}

/// The IPv6 address of the labels before `.ip6.arpa.`.
fn decode_v6(labels: &Vec<Vec<char>>, Ghost(ls): Ghost<Seq<Seq<char>>>) -> (r: Option<IpAddress>)
    requires
        labels@.len() == ls.len(),
        forall|i: int| 0 <= i < ls.len() ==> #[trigger] labels@[i]@ == ls[i],
    ensures
        r == v6_of(ls),
{
    let ghost rev = ls.reverse();
    let n = labels.len();
    let groups = n / 4 + if n % 4 > 0 {
        1
    } else {
        0
    };
    let mut words: Vec<u32> = Vec::new();
    let mut k: usize = 0;
    let mut start: usize = 0;
    while start < n
        invariant
            start <= n,
            start < n ==> start == 4 * k && k < groups,
            start == n ==> k == groups,
            n == ls.len(),
            labels@.len() == ls.len(),
            forall|i: int| 0 <= i < ls.len() ==> #[trigger] labels@[i]@ == ls[i],
            rev == ls.reverse(),
            groups == group_count(n as nat),
            k <= groups,
            words@.len() == k,
            forall|j: int| 0 <= j < k ==> (#[trigger] parse_unsigned(nibble_group(rev, j), 16, 0xFFFF)) is Some,
            forall|j: int| 0 <= j < k ==> (#[trigger] words@[j]) as nat == parse_unsigned(nibble_group(rev, j), 16, 0xFFFF)->0,
        decreases n - start,
    {
        let end = if n - start >= 4 {
            start + 4
        } else {
            n
        };
        let text = group_text(labels, Ghost(ls), start, end);
        assert(text@ == nibble_group(rev, k as int));
        match parse_unsigned_chars(text.as_slice(), 16, 0xFFFF) {
            Some(w) => {
                words.push(w);
            },
            None => {
                assert(!(parse_unsigned(nibble_group(rev, k as int), 16, 0xFFFF) is Some));
                return None;
            },
        }
        k = k + 1;
        start = end;
    }
    if groups < 8 {
        return None;
    }
    let mut value: u128 = 0;
    let mut j: usize = 0;
    while j < 8
        invariant
            groups >= 8,
            words@.len() == groups,
            j <= 8,
            forall|i: int| 0 <= i < groups ==> (#[trigger] parse_unsigned(nibble_group(rev, i), 16, 0xFFFF)) is Some,
            forall|i: int| 0 <= i < groups ==> (#[trigger] words@[i]) as nat == parse_unsigned(nibble_group(rev, i), 16, 0xFFFF)->0,
            value as nat == words_value(rev, j as nat),
        decreases 8 - j,
    {
        proof {
            lemma_words_value_bound(rev, (j + 1) as nat);
            vstd::arithmetic::power2::lemma_pow2_pos(16 * (j + 1) as nat);
            if j + 1 < 8 {
                vstd::arithmetic::power2::lemma_pow2_strictly_increases(16 * (j + 1) as nat, 128);
            }
            assert(vstd::arithmetic::power2::pow2(128) == 0x1_0000_0000_0000_0000_0000_0000_0000_0000) by {
                vstd::arithmetic::power2::lemma_pow2_adds(64, 64);
                vstd::arithmetic::power2::lemma2_to64_rest();
            }
        }
        value = value * 0x10000 + words[j] as u128;
        j = j + 1;
    }
    Some(IpAddress::V6(value))
}

/// The address a reverse-lookup (PTR) name asks about. Names under neither
/// `.in-addr.arpa.` nor `.ip6.arpa.`, and names whose labels do not make an
/// address (such as fewer than four IPv4 octets), give `None`.
pub fn decode_ptr(name: &str) -> (r: Option<IpAddress>)
    ensures
        r == ptr_address(name@),
{
    let cs = chars_of(name);
    let v4 = ['.', 'i', 'n', '-', 'a', 'd', 'd', 'r', '.', 'a', 'r', 'p', 'a', '.'];
    let v6 = ['.', 'i', 'p', '6', '.', 'a', 'r', 'p', 'a', '.'];
    assert(v4@ =~= v4_suffix());
    assert(v6@ =~= v6_suffix());
    if ends_with(cs.as_slice(), v4.as_slice()) {
        let body = slice_chars(cs.as_slice(), 0, cs.len() - v4.len());
        assert(body@ =~= name@.take(name@.len() - v4_suffix().len()));
        let labels = split_chars(body.as_slice(), '.');
        decode_v4(&labels, Ghost(labels_before(name@, v4_suffix())))
    } else if ends_with(cs.as_slice(), v6.as_slice()) {
        let body = slice_chars(cs.as_slice(), 0, cs.len() - v6.len());
        assert(body@ =~= name@.take(name@.len() - v6_suffix().len()));
        let labels = split_chars(body.as_slice(), '.');
        decode_v6(&labels, Ghost(labels_before(name@, v6_suffix())))
    } else {
        None
    }
}

/// Names that cannot make an address are ignored: a name under neither
/// reverse-lookup suffix, or one under `.in-addr.arpa.` with fewer than four
/// labels before the suffix, asks about no address.
pub proof fn lemma_ptr_ignored(name: Seq<char>)
    requires
        !has_suffix(name, v4_suffix()) && !has_suffix(name, v6_suffix()) || has_suffix(name, v4_suffix())
            && labels_before(name, v4_suffix()).len() < 4,
    ensures
        ptr_address(name) is None,
{
}

} // verus!
