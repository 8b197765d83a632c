//! IP address literals and the address ranges that make up a group.
use crate::config::IpRange;
use crate::dns::{mapped_v4, IpAddress};
use crate::http::{trim, trimmed};
use crate::text::{string_of, all_digits, chars_of, digit_in, digits_value, parse_unsigned, parse_unsigned_chars, slice_chars, split_chars, split_on};
use crate::upstream::{find_chars, first_occ};
use vstd::arithmetic::power2::{lemma2_to64, lemma2_to64_rest, lemma_pow2_adds, lemma_pow2_pos, lemma_pow2_strictly_increases, pow2};
use vstd::prelude::*;

verus! {

/// Whether `g` is an IPv4 octet as written in dotted-quad form: one to
/// three decimal digits without a leading zero, at most 255.
pub open spec fn octet_ok(g: Seq<char>) -> bool {
    1 <= g.len() <= 3 && all_digits(g, 10) && (g.len() == 1 || g[0] != '0') && digits_value(g, 10) <= 255
}

/// The IPv4 address written `s` in dotted-quad form.
pub open spec fn ipv4_of(s: Seq<char>) -> Option<u32> {
    let parts = split_on(s, '.');
    if parts.len() == 4 && forall|i: int| 0 <= i < 4 ==> #[trigger] octet_ok(parts[i]) {
        Some((digits_value(parts[0], 10) * 0x1000000 + digits_value(parts[1], 10) * 0x10000 + digits_value(parts[2], 10)
            * 0x100 + digits_value(parts[3], 10)) as u32)
    } else {
        None
    }
}

fn read_octet(g: &Vec<char>) -> (r: Option<u32>)
    ensures
        match r {
            Some(v) => octet_ok(g@) && v as nat == digits_value(g@, 10),
            None => !octet_ok(g@),
        },
{
    if g.len() < 1 || g.len() > 3 || g[0] == '+' || (g.len() > 1 && g[0] == '0') {
        proof {
            if g@.len() >= 1 && g@[0] == '+' {
                assert(digit_in(g@[0], 10) is None);
            }
        }
        return None;
    }
    assert(g@[0] != '+');
    match parse_unsigned_chars(g.as_slice(), 10, 255) {
        Some(v) => Some(v),
        None => None,
    }
}

/// Reads an IPv4 address in dotted-quad form.
pub fn parse_ipv4(s: &[char]) -> (r: Option<u32>)
    ensures
        r == ipv4_of(s@),
{
    let parts = split_chars(s, '.');
    if parts.len() != 4 {
        return None;
    }
    let a = read_octet(&parts[0]);
    let b = read_octet(&parts[1]);
    let c = read_octet(&parts[2]);
    let d = read_octet(&parts[3]);
    assert(parts@[0]@ == split_on(s@, '.')[0]);
    assert(parts@[1]@ == split_on(s@, '.')[1]);
    assert(parts@[2]@ == split_on(s@, '.')[2]);
    assert(parts@[3]@ == split_on(s@, '.')[3]);
    match (a, b, c, d) {
        (Some(a), Some(b), Some(c), Some(d)) => {
            assert(forall|i: int| 0 <= i < 4 ==> #[trigger] octet_ok(split_on(s@, '.')[i])) by {
                assert forall|i: int| 0 <= i < 4 implies #[trigger] octet_ok(split_on(s@, '.')[i]) by {
                    if i == 0 {} else if i == 1 {} else if i == 2 {} else {}
                }
            }
            Some(a * 0x1000000 + b * 0x10000 + c * 0x100 + d)
        },
        _ => {
            proof {
                if a is None { assert(!octet_ok(split_on(s@, '.')[0])); }
                else if b is None { assert(!octet_ok(split_on(s@, '.')[1])); }
                else if c is None { assert(!octet_ok(split_on(s@, '.')[2])); }
                else { assert(!octet_ok(split_on(s@, '.')[3])); }
            }
            None
        },
    }
}

/// Whether `g` is a group of an IPv6 address: one to four hexadecimal digits.
pub open spec fn hex_group_ok(g: Seq<char>) -> bool {
    1 <= g.len() <= 4 && all_digits(g, 16)
}

/// The groups of a part of an IPv6 address; an empty part has none.
pub open spec fn groups_of(s: Seq<char>) -> Seq<Seq<char>> {
    if s.len() == 0 {
        Seq::empty()
    } else {
        split_on(s, ':')
    }
}

/// Whether every group is well formed.
pub open spec fn groups_ok(gs: Seq<Seq<char>>) -> bool {
    forall|i: int| 0 <= i < gs.len() ==> #[trigger] hex_group_ok(gs[i])
}

/// The 16-bit words of the groups.
pub open spec fn words_of(gs: Seq<Seq<char>>) -> Seq<nat> {
    gs.map_values(|g: Seq<char>| digits_value(g, 16))
}

/// The eight words of the IPv6 address written `s`: eight groups separated
/// by colons, or fewer with one `::` standing for the missing zero words.
pub open spec fn v6_words(s: Seq<char>) -> Option<Seq<nat>> {
    match first_occ(s, seq![':', ':']) {
        Some(i) => {
            let head = groups_of(s.take(i));
            let tail = groups_of(s.skip(i + 2));
            if groups_ok(head) && groups_ok(tail) && head.len() + tail.len() <= 7 {
                Some(words_of(head) + Seq::new((8 - head.len() - tail.len()) as nat, |k: int| 0nat) + words_of(tail))
            } else {
                None
            }
        },
        None => {
            let gs = split_on(s, ':');
            if gs.len() == 8 && groups_ok(gs) {
                Some(words_of(gs))
            } else {
                None
            }
        },
    }
}

/// The value of 16-bit words, most significant first.
pub open spec fn words_value(ws: Seq<nat>) -> nat
    decreases ws.len(),
{
    if ws.len() == 0 {
        0
    } else {
        words_value(ws.drop_last()) * 0x10000 + ws.last()
    }
}

/// The IPv6 address written `s`.
pub open spec fn ipv6_of(s: Seq<char>) -> Option<u128> {
    match v6_words(s) {
        Some(ws) => Some(words_value(ws) as u128),
        None => None,
    }
}

/// The address written `s`: an IPv4 dotted quad, else an IPv6 address.
pub open spec fn ip_of(s: Seq<char>) -> Option<IpAddress> {
    match ipv4_of(s) {
        Some(v) => Some(IpAddress::V4(v)),
        None => match ipv6_of(s) {
            Some(v) => Some(IpAddress::V6(v)),
            None => None,
        },
    }
}

fn read_groups(s: &[char]) -> (r: Option<Vec<u32>>)
    ensures
        match r {
            Some(v) => groups_ok(groups_of(s@)) && v@.len() == groups_of(s@).len() && forall|i: int|
                0 <= i < v@.len() ==> (#[trigger] v@[i]) as nat == digits_value(groups_of(s@)[i], 16) && v@[i] <= 0xFFFF,
            None => !groups_ok(groups_of(s@)),
        },
{
    let mut out: Vec<u32> = Vec::new();
    if s.len() == 0 {
        return Some(out);
    }
    let gs = split_chars(s, ':');
    let mut i: usize = 0;
    while i < gs.len()
        invariant
            s@.len() > 0,
            gs@.len() == groups_of(s@).len(),
            forall|j: int| 0 <= j < gs@.len() ==> #[trigger] gs@[j]@ == groups_of(s@)[j],
            i <= gs@.len(),
            out@.len() == i,
            forall|j: int| 0 <= j < i ==> #[trigger] hex_group_ok(groups_of(s@)[j]),
            forall|j: int| 0 <= j < i ==> (#[trigger] out@[j]) as nat == digits_value(groups_of(s@)[j], 16) && out@[j] <= 0xFFFF,
        decreases gs@.len() - i,
    {
        let g = &gs[i];
        assert(g@ == groups_of(s@)[i as int]);
        if g.len() < 1 || g.len() > 4 || g[0] == '+' {
            proof {
                if g@.len() >= 1 && g@[0] == '+' {
                    assert(digit_in(g@[0], 16) is None);
                }
                assert(!hex_group_ok(groups_of(s@)[i as int]));
            }
            return None;
        }
        assert(g@[0] != '+');
        match parse_unsigned_chars(g.as_slice(), 16, 0xFFFF) {
            Some(v) => {
                out.push(v);
            },
            None => {
                proof {
                    if all_digits(g@, 16) {
                        lemma_small_hex(g@);
                    }
                    assert(!hex_group_ok(groups_of(s@)[i as int]));
                }
                return None;
            },
        }
        i = i + 1;
    }
    Some(out)
}

proof fn lemma_small_hex(g: Seq<char>)
    requires
        1 <= g.len() <= 4,
        all_digits(g, 16),
    ensures
        digits_value(g, 16) <= 0xFFFF,
    decreases g.len(),
{
    lemma_hex_bound(g);
}

proof fn lemma_hex_bound(g: Seq<char>)
    requires
        all_digits(g, 16),
        g.len() <= 4,
    ensures
        digits_value(g, 16) < (if g.len() == 0 { 1nat } else if g.len() == 1 { 16nat } else if g.len() == 2 { 256nat } else if g.len() == 3 { 4096nat } else { 65536nat }),
    decreases g.len(),
{
    if g.len() > 0 {
        let d = g.drop_last();
        assert(all_digits(d, 16)) by {
            assert forall|i: int| 0 <= i < d.len() implies (#[trigger] digit_in(d[i], 16)) is Some by {
                assert(d[i] == g[i]);
            }
        }
        lemma_hex_bound(d);
        assert(digit_in(g[g.len() - 1], 16) is Some);
        let x = digits_value(d, 16);
        let y = digit_in(g.last(), 16)->0;
        assert(y < 16);
        assert(digits_value(g, 16) == x * 16 + y);
    }
}

proof fn lemma_words_value_bound(ws: Seq<nat>, k: nat)
    requires
        k <= ws.len(),
        forall|i: int| 0 <= i < ws.len() ==> #[trigger] ws[i] <= 0xFFFF,
    ensures
        words_value(ws.take(k as int)) < pow2(16 * k),
    decreases k,
{
    lemma2_to64();
    if k > 0 {
        lemma_words_value_bound(ws, (k - 1) as nat);
        assert(ws.take(k as int).drop_last() =~= ws.take(k - 1));
        let p = pow2(16 * (k - 1) as nat);
        lemma_pow2_adds(16 * (k - 1) as nat, 16);
        assert(pow2(16) == 0x10000) by {
            lemma2_to64_rest();
        }
        let w = ws[k - 1];
        assert(words_value(ws.take(k - 1)) * 0x10000 + w < p * 0x10000) by (nonlinear_arith)
            requires
                words_value(ws.take(k - 1)) < p,
                w <= 0xFFFF,
        ;
        assert(16 * (k - 1) as nat + 16 == 16 * k);
    }
}

/// The value of eight 16-bit words.
fn eight_words_value(ws: &Vec<u32>, Ghost(spec_ws): Ghost<Seq<nat>>) -> (r: u128)
    requires
        ws@.len() == 8,
        spec_ws.len() == 8,
        forall|i: int| 0 <= i < 8 ==> (#[trigger] ws@[i]) as nat == spec_ws[i] && ws@[i] <= 0xFFFF,
    ensures
        r as nat == words_value(spec_ws),
{
    let mut value: u128 = 0;
    let mut j: usize = 0;
    while j < 8
        invariant
            ws@.len() == 8,
            spec_ws.len() == 8,
            forall|i: int| 0 <= i < 8 ==> (#[trigger] ws@[i]) as nat == spec_ws[i] && ws@[i] <= 0xFFFF,
            j <= 8,
            value as nat == words_value(spec_ws.take(j as int)),
        decreases 8 - j,
    {
        proof {
            assert forall|i: int| 0 <= i < spec_ws.len() implies #[trigger] spec_ws[i] <= 0xFFFF by {
                assert(ws@[i] as nat == spec_ws[i]);
            }
            lemma_words_value_bound(spec_ws, (j + 1) as nat);
            if j + 1 < 8 {
                lemma_pow2_strictly_increases(16 * (j + 1) as nat, 128);
            }
            assert(pow2(128) == 0x1_0000_0000_0000_0000_0000_0000_0000_0000) by {
                lemma_pow2_adds(64, 64);
                lemma2_to64_rest();
            }
            assert(spec_ws.take(j + 1).drop_last() =~= spec_ws.take(j as int));
        }
        value = value * 0x10000 + ws[j] as u128;
        j = j + 1;
    }
    assert(spec_ws.take(8) =~= spec_ws);
    value
}

/// Reads an IPv6 address: eight groups of one to four hexadecimal digits
/// separated by colons, or fewer around one `::`.
pub fn parse_ipv6(s: &[char]) -> (r: Option<u128>)
    ensures
        r == ipv6_of(s@),
{
    let sep_arr = [':', ':'];
    let sep = sep_arr.as_slice();
    assert(sep@ =~= seq![':', ':']);
    let n = s.len();
    match find_chars(s, sep) {
        Some(i) => {
            let head = slice_chars(s, 0, i);
            let tail = slice_chars(s, i + 2, n);
            assert(head@ =~= s@.take(i as int));
            assert(tail@ =~= s@.skip(i + 2));
            let hg = match read_groups(head.as_slice()) {
                Some(v) => v,
                None => {
                    return None;
                },
            };
            let tg = match read_groups(tail.as_slice()) {
                Some(v) => v,
                None => {
                    return None;
                },
            };
            if hg.len() > 7 || tg.len() > 7 - hg.len() {
                return None;
            }
            let ghost ws = words_of(groups_of(s@.take(i as int))) + Seq::new(
                (8 - hg@.len() - tg@.len()) as nat,
                |k: int| 0nat,
            ) + words_of(groups_of(s@.skip(i + 2)));
            let mut all: Vec<u32> = Vec::new();
            let mut k: usize = 0;
            while k < hg.len()
                invariant
                    k <= hg@.len(),
                    all@.len() == k,
                    forall|m: int| 0 <= m < k ==> (#[trigger] all@[m]) == hg@[m],
                decreases hg@.len() - k,
            {
                all.push(hg[k]);
                k = k + 1;
            }
            let zeros = 8 - hg.len() - tg.len();
            let mut z: usize = 0;
            while z < zeros
                invariant
                    z <= zeros,
                    zeros == 8 - hg@.len() - tg@.len(),
                    all@.len() == hg@.len() + z,
                    forall|m: int| 0 <= m < hg@.len() ==> (#[trigger] all@[m]) == hg@[m],
                    forall|m: int| hg@.len() <= m < hg@.len() + z ==> (#[trigger] all@[m]) == 0,
                decreases zeros - z,
            {
                all.push(0);
                z = z + 1;
            }
            let mut t: usize = 0;
            while t < tg.len()
                invariant
                    t <= tg@.len(),
                    zeros == 8 - hg@.len() - tg@.len(),
                    all@.len() == hg@.len() + zeros + t,
                    forall|m: int| 0 <= m < hg@.len() ==> (#[trigger] all@[m]) == hg@[m],
                    forall|m: int| hg@.len() <= m < hg@.len() + zeros ==> (#[trigger] all@[m]) == 0,
                    forall|m: int| 0 <= m < t ==> (#[trigger] all@[hg@.len() + zeros + m]) == tg@[m],
                decreases tg@.len() - t,
            {
                all.push(tg[t]);
                t = t + 1;
            }
            assert(ws.len() == 8);
            assert forall|m: int| 0 <= m < 8 implies (#[trigger] all@[m]) as nat == ws[m] && all@[m] <= 0xFFFF by {
                if m < hg@.len() {
                } else if m < hg@.len() + zeros {
                } else {
                    let q = m - hg@.len() - zeros;
                    assert(all@[hg@.len() + zeros + q] == tg@[q]);
                }
            }
            Some(eight_words_value(&all, Ghost(ws)))
        },
        None => {
            if n == 0 {
                return None;
            }
            let gs = match read_groups(s) {
                Some(v) => v,
                None => {
                    return None;
                },
            };
            if gs.len() != 8 {
                return None;
            }
            let ghost ws = words_of(split_on(s@, ':'));
            assert forall|m: int| 0 <= m < 8 implies (#[trigger] gs@[m]) as nat == ws[m] && gs@[m] <= 0xFFFF by {}
            Some(eight_words_value(&gs, Ghost(ws)))
        },
    }
}

/// Reads an IP address: an IPv4 dotted quad, else an IPv6 address.
pub fn parse_ip(s: &[char]) -> (r: Option<IpAddress>)
    ensures
        r == ip_of(s@),
{
    match parse_ipv4(s) {
        Some(v) => Some(IpAddress::V4(v)),
        None => match parse_ipv6(s) {
            Some(v) => Some(IpAddress::V6(v)),
            None => None,
        },
    }
}

/// Why a group member was refused.
#[derive(PartialEq, Eq, Structural, Clone, Copy, Debug)]
pub enum RangeError {
    /// A range or CIDR block does not have exactly two parts.
    Format,
    /// An address does not read as an IP address.
    Address,
    /// A prefix length does not read as a number, or is too long for the address.
    Prefix,
}

/// The first and last address of the block of `2^bits` addresses that holds `a`.
pub open spec fn block_of(a: nat, bits: nat) -> (nat, nat) {
    let size = pow2(bits);
    ((a - a % size) as nat, (a - a % size + size - 1) as nat)
}

/// The block of a CIDR: the address with its host bits cleared, then set.
pub open spec fn cidr_range(ip: IpAddress, prefix: nat) -> IpRange {
    match ip {
        IpAddress::V4(v) => IpRange::Range(
            mapped_v4(block_of(v as nat, (32 - prefix) as nat).0 as u32),
            mapped_v4(block_of(v as nat, (32 - prefix) as nat).1 as u32),
        ),
        IpAddress::V6(v) => IpRange::Range(
            block_of(v as nat, (128 - prefix) as nat).0 as u128,
            block_of(v as nat, (128 - prefix) as nat).1 as u128,
        ),
    }
}

/// Whether a text holds `c`.
pub open spec fn holds(s: Seq<char>, c: char) -> bool {
    s.contains(c)
}

/// What a group member reads as: `a-b` is the inclusive range between two
/// addresses (each trimmed), `a/n` a CIDR block, anything else one address.
/// IPv4 addresses are taken in their IPv6-mapped form.
pub open spec fn member_of(part: Seq<char>) -> Result<IpRange, RangeError> {
    if holds(part, '-') {
        let ps = split_on(part, '-');
        if ps.len() != 2 {
            Err(RangeError::Format)
        } else {
            match (ip_of(trimmed(ps[0])), ip_of(trimmed(ps[1]))) {
                (Some(a), Some(b)) => Ok(IpRange::Range(crate::dns::canonical(a), crate::dns::canonical(b))),
                _ => Err(RangeError::Address),
            }
        }
    } else if holds(part, '/') {
        let ps = split_on(part, '/');
        if ps.len() != 2 {
            Err(RangeError::Format)
        } else {
            match ip_of(ps[0]) {
                None => Err(RangeError::Address),
                Some(ip) => match parse_unsigned(ps[1], 10, u32::MAX as nat) {
                    None => Err(RangeError::Prefix),
                    Some(p) => if (ip is V4 && p > 32) || (ip is V6 && p > 128) {
                        Err(RangeError::Prefix)
                    } else {
                        Ok(cidr_range(ip, p))
                    },
                },
            }
        }
    } else {
        match ip_of(part) {
            Some(a) => Ok(IpRange::Single(a)),
            None => Err(RangeError::Address),
        }
    }
}

fn pow2_u128(k: u32) -> (r: u128)
    requires
        k <= 127,
    ensures
        r as nat == pow2(k as nat),
{
    let mut r: u128 = 1;
    let mut i: u32 = 0;
    proof {
        lemma2_to64();
    }
    while i < k
        invariant
            i <= k <= 127,
            r as nat == pow2(i as nat),
        decreases k - i,
    {
        proof {
            vstd::arithmetic::power2::lemma_pow2_unfold((i + 1) as nat);
            lemma_pow2_strictly_increases((i + 1) as nat, 128);
            assert(pow2(128) == 0x1_0000_0000_0000_0000_0000_0000_0000_0000) by {
                lemma_pow2_adds(64, 64);
                lemma2_to64_rest();
            }
        }
        r = r * 2;
        i = i + 1;
    }
    r
}

proof fn lemma_block_fits(a: nat, bits: nat, total: nat)
    requires
        bits <= total,
        a < pow2(total),
    ensures
        a - a % pow2(bits) + pow2(bits) <= pow2(total),
        a % pow2(bits) <= a,
{
    let size = pow2(bits);
    lemma_pow2_pos(bits);
    lemma_pow2_adds(bits, (total - bits) as nat);
    let rest = pow2((total - bits) as nat);
    vstd::arithmetic::div_mod::lemma_fundamental_div_mod(a as int, size as int);
    let q = a / size;
    assert(a - a % size == q * size);
    assert(q < rest) by (nonlinear_arith)
        requires
            a == size * q + a % size,
            a % size >= 0,
            a < size * rest,
            size > 0,
    ;
    assert((q + 1) * size <= rest * size) by (nonlinear_arith)
        requires
            q + 1 <= rest,
            size > 0,
    ;
    assert(q * size + size == (q + 1) * size) by (nonlinear_arith);
}

fn block(a: u128, bits: u32, total: Ghost<nat>) -> (r: (u128, u128))
    requires
        bits <= 127,
        bits <= total@,
        a < pow2(total@),
        pow2(total@) <= 0x1_0000_0000_0000_0000_0000_0000_0000_0000,
    ensures
        r.0 as nat == block_of(a as nat, bits as nat).0,
        r.1 as nat == block_of(a as nat, bits as nat).1,
{
    let size = pow2_u128(bits);
    proof {
        lemma_pow2_pos(bits as nat);
        lemma_block_fits(a as nat, bits as nat, total@);
    }
    let lo = a - a % size;
    (lo, lo + (size - 1))
}

/// Reads one group member.
pub fn parse_member(part: &[char]) -> (r: Result<IpRange, RangeError>)
    ensures
        r == member_of(part@),
{
    let mut has_dash = false;
    let mut has_slash = false;
    let mut i: usize = 0;
    while i < part.len()
        invariant
            i <= part@.len(),
            has_dash == exists|j: int| 0 <= j < i && part@[j] == '-',
            has_slash == exists|j: int| 0 <= j < i && part@[j] == '/',
        decreases part@.len() - i,
    {
        if part[i] == '-' {
            has_dash = true;
        }
        if part[i] == '/' {
            has_slash = true;
        }
        i = i + 1;
    }
    assert(has_dash == holds(part@, '-'));
    assert(has_slash == holds(part@, '/'));
    if has_dash {
        let ps = split_chars(part, '-');
        if ps.len() != 2 {
            return Err(RangeError::Format);
        }
        let a = chars_of(trim(string_of(ps[0].as_slice()).as_str()).as_str());
        let b = chars_of(trim(string_of(ps[1].as_slice()).as_str()).as_str());
        match (parse_ip(a.as_slice()), parse_ip(b.as_slice())) {
            (Some(a), Some(b)) => Ok(IpRange::Range(crate::dns::to_ipv6_mapped(a), crate::dns::to_ipv6_mapped(b))),
            _ => Err(RangeError::Address),
        }
    } else if has_slash {
        let ps = split_chars(part, '/');
        if ps.len() != 2 {
            return Err(RangeError::Format);
        }
        let ip = match parse_ip(ps[0].as_slice()) {
            Some(ip) => ip,
            None => {
                return Err(RangeError::Address);
            },
        };
        let p = match crate::text::parse_decimal_chars(ps[1].as_slice(), 0xFFFF_FFFF) {
            Some(p) => p,
            None => {
                return Err(RangeError::Prefix);
            },
        };
        proof {
            lemma2_to64();
            lemma2_to64_rest();
            lemma_pow2_adds(64, 64);
        }
        match ip {
            IpAddress::V4(v) => {
                if p > 32 {
                    return Err(RangeError::Prefix);
                }
                if p == 0 {
                    assert(block_of(v as nat, 32) == (0nat, 0xFFFF_FFFFnat)) by {
                        vstd::arithmetic::div_mod::lemma_small_mod(v as nat, pow2(32));
                    }
                    return Ok(IpRange::Range(0xffff_0000_0000u128, 0xffff_ffff_ffffu128));
                }
                let (lo, hi) = block(v as u128, (32 - p) as u32, Ghost(32));
                proof {
                    lemma_block_fits(v as nat, (32 - p) as nat, 32);
                }
                Ok(IpRange::Range(0xffff_0000_0000u128 + lo, 0xffff_0000_0000u128 + hi))
            },
            IpAddress::V6(v) => {
                if p > 128 {
                    return Err(RangeError::Prefix);
                }
                if p == 0 {
                    assert(block_of(v as nat, 128) == (0nat, u128::MAX as nat)) by {
                        vstd::arithmetic::div_mod::lemma_small_mod(v as nat, pow2(128));
                    }
                    return Ok(IpRange::Range(0, u128::MAX));
                }
                let (lo, hi) = block(v, (128 - p) as u32, Ghost(128));
                Ok(IpRange::Range(lo, hi))
            },
        }
    } else {
        match parse_ip(part) {
            Some(a) => Ok(IpRange::Single(a)),
            None => Err(RangeError::Address),
        }
    }
}

} // verus!
