//! ICMP echo packets: layout, checksum, reply matching and the sequence counter.
use vstd::prelude::*;

verus! {

/// Type byte of an ICMPv4 echo request.
pub const ICMPV4_ECHO_REQUEST: u8 = 0x08;

/// Type byte of an ICMPv6 echo request.
pub const ICMPV6_ECHO_REQUEST: u8 = 0x80;

/// Length of the IPv4 header that precedes an ICMPv4 reply on a raw socket.
pub const IPV4_HEADER_LEN: usize = 20;

/// Largest sequence number handed out before wrapping back to 1.
pub const MAX_SEQ: u16 = 0xFFFE;

/// The 16-bit big-endian word that starts at byte `i` (a lone last byte is padded with zero).
pub open spec fn word_at(p: Seq<u8>, i: int) -> nat {
    if i + 1 < p.len() {
        (p[i] as nat) * 256 + (p[i + 1] as nat)
    } else {
        (p[i] as nat) * 256
    }
}

/// The number of 16-bit words in `p`, counting a lone last byte as a word.
pub open spec fn word_count(p: Seq<u8>) -> nat {
    ((p.len() + 1) / 2) as nat
}

/// Sum of the first `k` words of `p`.
pub open spec fn words_sum(p: Seq<u8>, k: nat) -> nat
    decreases k,
{
    if k == 0 {
        0
    } else {
        words_sum(p, (k - 1) as nat) + word_at(p, 2 * (k - 1))
    }
}

/// Folds the carries of a one's-complement sum back into the low 16 bits.
pub open spec fn fold16(s: nat) -> nat
    decreases s,
{
    if s < 0x10000 {
        s
    } else if s % 0x10000 + s / 0x10000 < s {
        fold16(s % 0x10000 + s / 0x10000)
    } else {
        s % 0x10000
    }
}

/// RFC 1071 checksum of the whole packet: the complement of the folded word sum.
pub open spec fn checksum_of(p: Seq<u8>) -> nat {
    (0xFFFF - fold16(words_sum(p, word_count(p)))) as nat
}

proof fn lemma_fold_shrinks(s: nat)
    requires
        s >= 0x10000,
    ensures
        s % 0x10000 + s / 0x10000 < s,
{
    assert(s % 0x10000 + s / 0x10000 < s) by (nonlinear_arith)
        requires
            s >= 0x10000,
    ;
}

proof fn lemma_words_sum_bound(p: Seq<u8>, k: nat)
    ensures
        words_sum(p, k) <= k * 0xFFFF,
    decreases k,
{
    if k > 0 {
        lemma_words_sum_bound(p, (k - 1) as nat);
        let i = 2 * (k - 1);
        assert(word_at(p, i) <= 0xFFFF) by {
            if i + 1 < p.len() {
                assert((p[i] as nat) * 256 + (p[i + 1] as nat) <= 0xFFFF) by (nonlinear_arith)
                    requires
                        p[i] < 256,
                        p[i + 1] < 256,
                ;
            } else {
                assert((p[i] as nat) * 256 <= 0xFFFF) by (nonlinear_arith)
                    requires
                        p[i] < 256,
                ;
            }
        }
    }
}

/// Writes the RFC 1071 checksum of the whole packet into bytes 2 and 3.
///
/// The sum runs over the packet as it stands, so the checksum field is
/// expected to hold zero beforehand.
pub fn calculate_checksum(packet: &mut Vec<u8>)
    requires
        4 <= old(packet).len() <= 65535,
    ensures
        final(packet)@ == old(packet)@.update(2, (checksum_of(old(packet)@) / 256) as u8).update(
            3,
            (checksum_of(old(packet)@) % 256) as u8,
        ),
{
    let ghost p = packet@;
    let n = packet.len();
    let mut sum: u32 = 0;
    let mut i: usize = 0;
    while i < n
        invariant
            n == packet.len(),
            p == packet@,
            n <= 65535,
            i % 2 == 0,
            i <= n + 1,
            sum as nat == words_sum(p, (i / 2) as nat),
        decreases n + 2 - i,
    {
        proof {
            lemma_words_sum_bound(p, (i / 2) as nat);
            assert(words_sum(p, (i / 2) as nat) <= (i / 2) as nat * 0xFFFF);
            assert((i / 2) as nat * 0xFFFF <= 32768 * 0xFFFF) by (nonlinear_arith)
                requires
                    i / 2 <= 32768,
            ;
        }
        let word: u32 = if i + 1 < n {
            (packet[i] as u32) * 256 + (packet[i + 1] as u32)
        } else {
            (packet[i] as u32) * 256
        };
        assert(word as nat == word_at(p, 2 * (((i + 2) / 2) - 1)));
        sum = sum + word;
        i = i + 2;
    }
    assert(i / 2 == word_count(p));
    let ghost total = sum as nat;
    while sum >> 16u32 != 0
        invariant
            fold16(sum as nat) == fold16(total),
        decreases sum,
    {
        let lo = sum & 0xFFFFu32;
        let hi = sum >> 16u32;
        assert(sum & 0xFFFFu32 == sum % 0x10000) by (bit_vector);
        assert(sum >> 16u32 == sum / 0x10000) by (bit_vector);
        proof {
            lemma_fold_shrinks(sum as nat);
        }
        sum = lo + hi;
    }
    assert(sum >> 16u32 == 0 ==> sum < 0x10000) by (bit_vector);
    let checksum: u32 = 0xFFFFu32 - sum;
    assert(checksum as nat == checksum_of(p));
    packet.set(2, (checksum / 256) as u8);
    packet.set(3, (checksum % 256) as u8);
}


/// The fixed 32-byte payload carried by every echo request.
pub open spec fn echo_payload() -> Seq<u8> {
    seq![
        0x61u8, 0x62, 0x63, 0x64, 0x65, 0x66, 0x67, 0x68, 0x69, 0x6a, 0x6b, 0x6c, 0x6d, 0x6e,
        0x6f, 0x70, 0x71, 0x72, 0x73, 0x74, 0x75, 0x76, 0x77, 0x61, 0x62, 0x63, 0x64, 0x65,
        0x66, 0x67, 0x68, 0x69,
    ]
}

/// An echo request before its checksum is filled in.
pub open spec fn echo_template(ipv6: bool, id: u16, seq: u16) -> Seq<u8> {
    seq![
        if ipv6 { ICMPV6_ECHO_REQUEST } else { ICMPV4_ECHO_REQUEST },
        0u8,
        0u8,
        0u8,
        (id / 256) as u8,
        (id % 256) as u8,
        (seq / 256) as u8,
        (seq % 256) as u8,
    ] + echo_payload()
}

/// The echo identifier derived from a process id: its low byte.
pub fn echo_id(pid: u32) -> (r: u16)
    ensures
        r == pid % 256,
{
    (pid % 256) as u16
}

/// Builds a 40-byte echo request: type, code 0, checksum, identifier and
/// sequence number (both big-endian), then the fixed payload.
pub fn build_echo_request(ipv6: bool, id: u16, seq: u16) -> (r: Vec<u8>)
    ensures
        r@.len() == 40,
        r@ == echo_template(ipv6, id, seq).update(
            2,
            (checksum_of(echo_template(ipv6, id, seq)) / 256) as u8,
        ).update(3, (checksum_of(echo_template(ipv6, id, seq)) % 256) as u8),
{
    let kind = if ipv6 {
        ICMPV6_ECHO_REQUEST
    } else {
        ICMPV4_ECHO_REQUEST
    };
    let mut packet: Vec<u8> = vec![
        kind, 0x00, 0x00, 0x00, (id / 256) as u8, (id % 256) as u8, (seq / 256) as u8, (seq % 256) as u8,
        0x61, 0x62, 0x63, 0x64, 0x65, 0x66, 0x67, 0x68, 0x69, 0x6a, 0x6b, 0x6c, 0x6d, 0x6e,
        0x6f, 0x70, 0x71, 0x72, 0x73, 0x74, 0x75, 0x76, 0x77, 0x61, 0x62, 0x63, 0x64, 0x65,
        0x66, 0x67, 0x68, 0x69,
    ];
    assert(packet@ =~= echo_template(ipv6, id, seq));
    calculate_checksum(&mut packet);
    packet
}

/// Whether `packet` is an echo reply (ICMPv4 type 0x00 or ICMPv6 type 0x81,
/// code 0) whose identifier and sequence bytes at offsets 4..8 are `id` and `seq`.
pub open spec fn is_echo_reply_for(packet: Seq<u8>, id: Seq<u8>, seq: Seq<u8>) -> bool {
    &&& packet.len() >= 8
    &&& (packet[0] == 0x00 || packet[0] == 0x81)
    &&& packet[1] == 0
    &&& packet[4] == id[0]
    &&& packet[5] == id[1]
    &&& packet[6] == seq[0]
    &&& packet[7] == seq[1]
}

/// Checks that `packet` is an echo reply to the request with this identifier
/// and sequence number.
pub fn is_icmp_echo_reply(packet: &[u8], id: &[u8], seq: &[u8]) -> (r: bool)
    requires
        id@.len() >= 2,
        seq@.len() >= 2,
    ensures
        r == is_echo_reply_for(packet@, id@, seq@),
{
    packet.len() >= 8 && (packet[0] == 0x00 || packet[0] == 0x81) && packet[1] == 0 && packet[4]
        == id[0] && packet[5] == id[1] && packet[6] == seq[0] && packet[7] == seq[1]
}

/// What a raw socket delivered holds the ICMP message at: after the IPv4
/// header for IPv4, at the start for IPv6.
pub open spec fn icmp_part(ipv6: bool, received: Seq<u8>) -> Seq<u8> {
    if ipv6 {
        received
    } else {
        received.subrange(IPV4_HEADER_LEN as int, received.len() as int)
    }
}

/// Checks a datagram received on the raw socket against the request sent:
/// the IPv4 header is stripped first, IPv6 needs no stripping.
pub fn reply_matches(ipv6: bool, received: &[u8], id: &[u8], seq: &[u8]) -> (r: bool)
    requires
        id@.len() >= 2,
        seq@.len() >= 2,
    ensures
        r == ((ipv6 || received@.len() >= IPV4_HEADER_LEN) && is_echo_reply_for(
            icmp_part(ipv6, received@),
            id@,
            seq@,
        )),
{
    if ipv6 {
        is_icmp_echo_reply(received, id, seq)
    } else if received.len() < IPV4_HEADER_LEN {
        false
    } else {
        let icmp = vstd::slice::slice_subrange(received, IPV4_HEADER_LEN, received.len());
        is_icmp_echo_reply(icmp, id, seq)
    }
}

/// The sequence number that follows `s`: counting up, with 0xFFFE followed by 1.
pub open spec fn next_seq(s: u16) -> u16 {
    if s == MAX_SEQ {
        1
    } else {
        (s + 1) as u16
    }
}

/// The sequence number handed out `k` calls after one that handed out `s`.
pub open spec fn seq_after(s: u16, k: nat) -> u16
    decreases k,
{
    if k == 0 {
        s
    } else {
        next_seq(seq_after(s, (k - 1) as nat))
    }
}

/// The process-wide source of echo sequence numbers.
pub struct SeqCounter {
    next: u16,
}

impl SeqCounter {
    /// The counter is always within 1..=0xFFFE.
    pub closed spec fn wf(&self) -> bool {
        1 <= self.next <= MAX_SEQ
    }

    /// The number the next call of `acc_seq` hands out.
    pub closed spec fn peek(&self) -> u16 {
        self.next
    }

    /// A counter whose first number is 1.
    pub fn new() -> (r: Self)
        ensures
            r.wf(),
            r.peek() == 1,
    {
        SeqCounter { next: 1 }
    }

    /// Hands out the current sequence number and advances the counter,
    /// wrapping from 0xFFFE back to 1.
    pub fn acc_seq(&mut self) -> (r: u16)
        requires
            old(self).wf(),
        ensures
            final(self).wf(),
            r == old(self).peek(),
            final(self).peek() == next_seq(old(self).peek()),
    {
        let seq = self.next;
        if self.next == MAX_SEQ {
            self.next = 1;
        } else {
            self.next = self.next + 1;
        }
        seq
    }
}

proof fn lemma_seq_after_closed(s: u16, k: nat)
    requires
        1 <= s <= MAX_SEQ,
    ensures
        seq_after(s, k) as int == (s as int - 1 + k) % 0xFFFE + 1,
    decreases k,
{
    if k > 0 {
        lemma_seq_after_closed(s, (k - 1) as nat);
        let prev = seq_after(s, (k - 1) as nat) as int;
        let a = s as int - 1 + k - 1;
        assert(prev == a % 0xFFFE + 1);
        if prev == 0xFFFE {
            assert(a % 0xFFFE == 0xFFFD);
            assert((a + 1) % 0xFFFE == 0) by {
                vstd::arithmetic::div_mod::lemma_add_mod_noop(a, 1, 0xFFFE);
            }
        } else {
            assert((a + 1) % 0xFFFE == a % 0xFFFE + 1) by {
                vstd::arithmetic::div_mod::lemma_add_mod_noop(a, 1, 0xFFFE);
                vstd::arithmetic::div_mod::lemma_small_mod((a % 0xFFFE + 1) as nat, 0xFFFE);
            }
        }
    }
}

/// Sequence numbers never collide within one wrap: any two of 0xFFFE
/// consecutive numbers handed out by the counter are distinct, and each is
/// within 1..=0xFFFE.
pub proof fn lemma_seq_no_collision(s: u16, j: nat, k: nat)
    requires
        1 <= s <= MAX_SEQ,
        j < k < 0xFFFE,
    ensures
        seq_after(s, j) != seq_after(s, k),
        1 <= seq_after(s, k) <= MAX_SEQ,
{
    lemma_seq_after_closed(s, j);
    lemma_seq_after_closed(s, k);
    let a = s as int - 1 + j;
    let b = s as int - 1 + k;
    if a % 0xFFFE == b % 0xFFFE {
        vstd::arithmetic::div_mod::lemma_fundamental_div_mod(a, 0xFFFE);
        vstd::arithmetic::div_mod::lemma_fundamental_div_mod(b, 0xFFFE);
        assert(b - a == 0xFFFE * (b / 0xFFFE - a / 0xFFFE)) by (nonlinear_arith)
            requires
                a == 0xFFFE * (a / 0xFFFE) + a % 0xFFFE,
                b == 0xFFFE * (b / 0xFFFE) + b % 0xFFFE,
                a % 0xFFFE == b % 0xFFFE,
        ;
        assert(false) by (nonlinear_arith)
            requires
                b - a == 0xFFFE * (b / 0xFFFE - a / 0xFFFE),
                0 < b - a < 0xFFFE,
        ;
    }
}

/// Wrapping: the number handed out after 0xFFFE is 1.
pub proof fn lemma_seq_wraps_to_one()
    ensures
        next_seq(MAX_SEQ) == 1,
{
}

} // verus!
