//! The query pipeline: local host overrides, then the answer cache, then an
//! upstream; AAAA answers from upstream go through the group's rules.
use crate::cache::{entries_after_get, get_result, lru_after_put, put_list, Cache, CachedRecord};
use crate::config::{default_name, Inner};
use crate::dns::{views, DataView, IpAddress, Question, Record, RecordData, RecordView, TYPE_A, TYPE_AAAA, TYPE_PTR};
use crate::ptr::{decode_ptr, ptr_address};
use crate::rules::{decision, Check};
use crate::text::{lower, to_ascii_lower};
use crate::wire::{answers_of, decode_answers, decode_questions, encode_keeping, encode_reply, questions_of, reply_keeping, reply_with};
use vstd::prelude::*;

verus! {

/// TTL, in seconds, of answers made from host overrides.
pub const HOST_TTL: u32 = 1;

/// Seconds a forwarded query may take before it is given up.
pub const UPSTREAM_TIMEOUT_SECS: u64 = 60;

/// The address records for `name` of type `qtype` (A or AAAA): one for
/// each address of the matching family, in order.
pub open spec fn addr_records(name: Seq<char>, addrs: Seq<IpAddress>, qtype: u16) -> Seq<RecordView>
    decreases addrs.len(),
{
    if addrs.len() == 0 {
        Seq::empty()
    } else {
        let prev = addr_records(name, addrs.drop_last(), qtype);
        match addrs.last() {
            IpAddress::V4(v) => if qtype == TYPE_A {
                prev.push(RecordView { name, rtype: TYPE_A, ttl: HOST_TTL, data: DataView::A(v) })
            } else {
                prev
            },
            IpAddress::V6(v) => if qtype == TYPE_AAAA {
                prev.push(RecordView { name, rtype: TYPE_AAAA, ttl: HOST_TTL, data: DataView::Aaaa(v) })
            } else {
                prev
            },
        }
    }
}

/// The answers host overrides give to one question: a PTR question whose
/// name encodes an address with a host name gets that name; an A (AAAA)
/// question gets one record per IPv4 (IPv6) override of its name. Other
/// questions get none.
#[verifier::opaque]
pub open spec fn host_answer(cfg: Inner, group: Seq<char>, q: Question) -> Seq<RecordView> {
    if q.qtype == TYPE_PTR {
        match ptr_address(q.name@) {
            Some(ip) => match cfg.host_name(group, ip) {
                Some(h) => seq![RecordView { name: q.name@, rtype: TYPE_PTR, ttl: HOST_TTL, data: DataView::Ptr(h) }],
                None => Seq::empty(),
            },
            None => Seq::empty(),
        }
    } else if q.qtype == TYPE_A || q.qtype == TYPE_AAAA {
        addr_records(q.name@, cfg.host_addrs(group, q.name@), q.qtype)
    } else {
        Seq::empty()
    }
}

/// The host-override answers to a list of questions, in question order.
pub open spec fn host_answers(cfg: Inner, group: Seq<char>, qs: Seq<Question>) -> Seq<RecordView>
    decreases qs.len(),
{
    if qs.len() == 0 {
        Seq::empty()
    } else {
        host_answers(cfg, group, qs.drop_last()) + host_answer(cfg, group, qs.last())
    }
}

/// Whether the cache is consulted for a question: A and AAAA questions only.
pub open spec fn is_address_question(q: Question) -> bool {
    q.qtype == TYPE_A || q.qtype == TYPE_AAAA
}

/// The cache entries and the records found after looking up the questions in
/// order, each A or AAAA question under its lowercased name.
pub open spec fn cache_lookup(
    entries: Seq<(Seq<char>, Seq<CachedRecord>)>,
    qs: Seq<Question>,
    now: u64,
) -> (Seq<(Seq<char>, Seq<CachedRecord>)>, Seq<CachedRecord>)
    decreases qs.len(),
{
    if qs.len() == 0 {
        (entries, Seq::empty())
    } else {
        let (es, found) = cache_lookup(entries, qs.drop_last(), now);
        let q = qs.last();
        if is_address_question(q) {
            let key = lower(q.name@);
            (
                entries_after_get(es, key, now),
                match get_result(es, key, q.qtype, now) {
                    Some(v) => found + v,
                    None => found,
                },
            )
        } else {
            (es, found)
        }
    }
}

/// The expiry of a record stored at `now`: `now` plus its TTL, saturating.
pub open spec fn expiry(now: u64, ttl: u32) -> u64 {
    if now as int + ttl as int > u64::MAX as int {
        u64::MAX
    } else {
        (now + ttl) as u64
    }
}

/// The cache entry for an answer stored at `now`: the record carries its
/// absolute expiry (Unix seconds, saturated to 32 bits) as its TTL, and is
/// served with that TTL unchanged.
pub open spec fn stored_record(a: Record, now: u64) -> CachedRecord {
    let e = expiry(now, a.ttl);
    CachedRecord {
        record: Record { name: a.name, rtype: a.rtype, ttl: if e > u32::MAX as u64 { u32::MAX } else { e as u32 }, data: a.data },
        expires: e,
    }
}

/// Whether an answer is stored in the cache: A and AAAA records with address data.
pub open spec fn is_cacheable(r: Record) -> bool {
    (r.rtype == TYPE_A && r.data is A) || (r.rtype == TYPE_AAAA && r.data is Aaaa)
}

/// The cache entries after storing the answers in order, each cacheable one
/// under its lowercased owner name with expiry `now` plus its TTL.
pub open spec fn stored_after(
    entries: Seq<(Seq<char>, Seq<CachedRecord>)>,
    cap: nat,
    answers: Seq<Record>,
    now: u64,
) -> Seq<(Seq<char>, Seq<CachedRecord>)>
    decreases answers.len(),
{
    if answers.len() == 0 {
        entries
    } else {
        let es = stored_after(entries, cap, answers.drop_last(), now);
        let a = answers.last();
        if is_cacheable(a) {
            lru_after_put(es, cap, lower(a.name@), put_list(es, lower(a.name@), seq![stored_record(a, now)], now))
        } else {
            es
        }
    }
}

/// Whether some question asks for AAAA records.
pub open spec fn asks_aaaa(qs: Seq<Question>) -> bool {
    exists|i: int| 0 <= i < qs.len() && qs[i].qtype == TYPE_AAAA
}

/// The positions of the allowed answers, in increasing order.
pub open spec fn allowed_positions(allows: Seq<bool>) -> Seq<usize>
    decreases allows.len(),
{
    if allows.len() == 0 {
        Seq::empty()
    } else {
        let prev = allowed_positions(allows.drop_last());
        if allows.last() {
            prev.push((allows.len() - 1) as usize)
        } else {
            prev
        }
    }
}

/// What the local stages decided about a request.
pub enum Outcome {
    /// The request does not decode: no response.
    Drop,
    /// Answered locally with these bytes.
    Reply(Vec<u8>),
    /// To be forwarded to this upstream.
    Forward(String),
}

/// What to do with an upstream reply.
pub enum Filtering {
    /// The reply does not decode: no response.
    Drop,
    /// Send these bytes as they are.
    Deliver(Vec<u8>),
    /// The answers, and for each AAAA answer the check its rules call for;
    /// other answers are kept unconditionally.
    Check(Vec<Record>, Vec<Option<Check>>),
}

/// The state a request is handled in: how it arrived and its client's group.
pub struct Handler {
    pub protocol: String,
    pub group: String,
    pub timeout_secs: u64,
}

impl Handler {
    /// A handler for one request from a client of `group`, with the upstream timeout.
    pub fn new(protocol: String, group: String) -> (r: Self)
        ensures
            r.protocol == protocol,
            r.group == group,
            r.timeout_secs == UPSTREAM_TIMEOUT_SECS,
    {
        Handler { protocol, group, timeout_secs: UPSTREAM_TIMEOUT_SECS }
    }

    /// The PTR answer for a reverse-lookup question whose address has a host name.
    #[verifier::rlimit(40)]
    pub fn local_reverse_dns_query(&self, config: &Inner, q: &Question) -> (r: Option<Record>)
        requires
            q.qtype == TYPE_PTR,
        ensures
            match r {
                Some(rec) => host_answer(*config, self.group@, *q) == seq![rec.view()],
                None => host_answer(*config, self.group@, *q) == Seq::<RecordView>::empty(),
            },
    {
        reveal(host_answer);
        match decode_ptr(q.name.as_str()) {
            Some(ip) => match config.get_hostname(self.group.as_str(), ip) {
                Some(h) => Some(Record { name: q.name.clone(), rtype: TYPE_PTR, ttl: HOST_TTL, data: RecordData::Ptr(h) }),
                None => None,
            },
            None => None,
        }
    }

    /// The host-override answers to one question.
    pub fn host_answer(&self, config: &Inner, q: &Question) -> (r: Vec<Record>)
        ensures
            views(r@) == host_answer(*config, self.group@, *q),
    {
        reveal(host_answer);
        let mut out: Vec<Record> = Vec::new();
        if q.qtype == TYPE_PTR {
            match self.local_reverse_dns_query(config, q) {
                Some(rec) => {
                    out.push(rec);
                    assert(views(out@) =~= seq![rec.view()]);
                },
                None => {
                    assert(views(out@) =~= Seq::<RecordView>::empty());
                },
            }
        } else if q.qtype == TYPE_A || q.qtype == TYPE_AAAA {
            let addrs = config.get_hosts(self.group.as_str(), q.name.as_str());
            let mut i: usize = 0;
            while i < addrs.len()
                invariant
                    i <= addrs@.len(),
                    q.qtype == TYPE_A || q.qtype == TYPE_AAAA,
                    views(out@) == addr_records(q.name@, addrs@.take(i as int), q.qtype),
                decreases addrs@.len() - i,
            {
                assert(addrs@.take(i + 1).drop_last() =~= addrs@.take(i as int));
                match addrs[i] {
                    IpAddress::V4(v) => if q.qtype == TYPE_A {
                        out.push(Record { name: q.name.clone(), rtype: TYPE_A, ttl: HOST_TTL, data: RecordData::A(v) });
                    },
                    IpAddress::V6(v) => if q.qtype == TYPE_AAAA {
                        out.push(Record { name: q.name.clone(), rtype: TYPE_AAAA, ttl: HOST_TTL, data: RecordData::Aaaa(v) });
                    },
                }
                i = i + 1;
                assert(views(out@) =~= addr_records(q.name@, addrs@.take(i as int), q.qtype));
            }
            assert(addrs@.take(addrs@.len() as int) =~= addrs@);
        } else {
            assert(views(out@) =~= Seq::<RecordView>::empty());
        }
        out
    }

    /// The host-override answers to the questions, in question order.
    pub fn resolve_from_hosts(&self, config: &Inner, qs: &Vec<Question>) -> (r: Vec<Record>)
        ensures
            views(r@) == host_answers(*config, self.group@, qs@),
    {
        let mut out: Vec<Record> = Vec::new();
        let mut i: usize = 0;
        while i < qs.len()
            invariant
                i <= qs@.len(),
                views(out@) == host_answers(*config, self.group@, qs@.take(i as int)),
            decreases qs@.len() - i,
        {
            assert(qs@.take(i as int + 1).drop_last() =~= qs@.take(i as int));
            let mut more = self.host_answer(config, &qs[i]);
            let ghost prev = out@;
            let ghost added = more@;
            out.append(&mut more);
            assert(views(out@) =~= views(prev) + views(added));
            i = i + 1;
        }
        assert(qs@.take(qs@.len() as int) =~= qs@);
        out
    }

    /// Looks the A and AAAA questions up in the cache, in order, under their
    /// lowercased names, and collects the live records found. A disabled
    /// cache finds nothing.
    pub fn lookup_dns_cache(&self, cache: &mut Cache, qs: &Vec<Question>, now: u64) -> (r: Vec<CachedRecord>)
        requires
            old(cache).wf(),
        ensures
            final(cache).wf(),
            old(cache).view() is None ==> r@.len() == 0 && final(cache).view() == old(cache).view(),
            old(cache).view() matches Some(c) ==> final(cache).view() matches Some(d) && d.capacity() == c.capacity()
                && d.entries() == cache_lookup(c.entries(), qs@, now).0 && r@ == cache_lookup(c.entries(), qs@, now).1,
    {
        let mut out: Vec<CachedRecord> = Vec::new();
        match cache.access() {
            None => out,
            Some(inner) => {
                let ghost start = inner.entries();
                let mut i: usize = 0;
                while i < qs.len()
                    invariant
                        i <= qs@.len(),
                        inner.wf(),
                        inner.capacity() == old(cache).view()->0.capacity(),
                        start == old(cache).view()->0.entries(),
                        inner.entries() == cache_lookup(start, qs@.take(i as int), now).0,
                        out@ == cache_lookup(start, qs@.take(i as int), now).1,
                    decreases qs@.len() - i,
                {
                    assert(qs@.take(i as int + 1).drop_last() =~= qs@.take(i as int));
                    let q = &qs[i];
                    if q.qtype == TYPE_A || q.qtype == TYPE_AAAA {
                        let key = to_ascii_lower(q.name.as_str());
                        match inner.get(&key, q.qtype, now) {
                            Some(mut found) => {
                                out.append(&mut found);
                            },
                            None => {},
                        }
                    }
                    i = i + 1;
                }
                assert(qs@.take(qs@.len() as int) =~= qs@);
                out
            },
        }
    }

    /// Stores the A and AAAA answers in the cache, each under its lowercased
    /// owner name, to expire `now` plus its TTL; the stored record's TTL is
    /// that absolute expiry. A disabled cache stays as it is.
    pub fn cache_dns_record(&self, cache: &mut Cache, answers: &Vec<Record>, now: u64)
        requires
            old(cache).wf(),
        ensures
            final(cache).wf(),
            old(cache).view() is None ==> final(cache).view() == old(cache).view(),
            old(cache).view() matches Some(c) ==> final(cache).view() matches Some(d) && d.capacity() == c.capacity()
                && d.entries() == stored_after(c.entries(), c.capacity(), answers@, now),
    {
        match cache.access() {
            None => {},
            Some(inner) => {
                let ghost start = inner.entries();
                let ghost cap = inner.capacity();
                let mut i: usize = 0;
                while i < answers.len()
                    invariant
                        i <= answers@.len(),
                        inner.wf(),
                        inner.capacity() == cap,
                        cap == old(cache).view()->0.capacity(),
                        start == old(cache).view()->0.entries(),
                        inner.entries() == stored_after(start, cap, answers@.take(i as int), now),
                    decreases answers@.len() - i,
                {
                    assert(answers@.take(i as int + 1).drop_last() =~= answers@.take(i as int));
                    let a = &answers[i];
                    let cacheable = match a.data {
                        RecordData::A(_) => a.rtype == TYPE_A,
                        RecordData::Aaaa(_) => a.rtype == TYPE_AAAA,
                        _ => false,
                    };
                    if cacheable {
                        let expires = if now > u64::MAX - a.ttl as u64 {
                            u64::MAX
                        } else {
                            now + a.ttl as u64
                        };
                        let ttl = if expires > u32::MAX as u64 {
                            u32::MAX
                        } else {
                            expires as u32
                        };
                        let record = Record { name: a.name.clone(), rtype: a.rtype, ttl, data: a.data.copy() };
                        let rec = CachedRecord { record, expires };
                        let one = [rec];
                        assert(one@ =~= seq![stored_record(answers@[i as int], now)]);
                        inner.put(to_ascii_lower(a.name.as_str()), one.as_slice(), now);
                    }
                    i = i + 1;
                }
                assert(answers@.take(answers@.len() as int) =~= answers@);
            },
        }
    }
}

/// The records inside cache entries, in order.
pub open spec fn records_of(s: Seq<CachedRecord>) -> Seq<Record> {
    s.map_values(|c: CachedRecord| c.record)
}

/// The records held by cache entries.
pub fn unwrap_records(s: &Vec<CachedRecord>) -> (r: Vec<Record>)
    ensures
        r@ == records_of(s@),
{
    let mut out: Vec<Record> = Vec::new();
    let mut i: usize = 0;
    while i < s.len()
        invariant
            i <= s@.len(),
            out@ == records_of(s@.take(i as int)),
        decreases s@.len() - i,
    {
        out.push(s[i].record.copy());
        i = i + 1;
        assert(out@ =~= records_of(s@.take(i as int)));
    }
    assert(s@.take(s@.len() as int) =~= s@);
    out
}

/// Whether some question asks for AAAA records.
pub fn has_aaaa_question(qs: &Vec<Question>) -> (r: bool)
    ensures
        r == asks_aaaa(qs@),
{
    let mut i: usize = 0;
    while i < qs.len()
        invariant
            i <= qs@.len(),
            forall|j: int| 0 <= j < i ==> qs@[j].qtype != TYPE_AAAA,
        decreases qs@.len() - i,
    {
        if qs[i].qtype == TYPE_AAAA {
            return true;
        }
        i = i + 1;
    }
    false
}

/// The positions of the allowed answers, in increasing order: every
/// position appears once, exactly when its answer is allowed.
pub fn kept_indices(allows: &Vec<bool>) -> (r: Vec<usize>)
    ensures
        r@ == allowed_positions(allows@),
        forall|i: int, j: int| 0 <= i < j < r@.len() ==> r@[i] < r@[j],
        forall|i: int| 0 <= i < r@.len() ==> (#[trigger] r@[i]) < allows@.len() && allows@[r@[i] as int],
        forall|k: int| 0 <= k < allows@.len() && allows@[k] ==> r@.contains(k as usize),
{
    let mut out: Vec<usize> = Vec::new();
    let mut i: usize = 0;
    while i < allows.len()
        invariant
            i <= allows@.len(),
            out@ == allowed_positions(allows@.take(i as int)),
            forall|a: int, b: int| 0 <= a < b < out@.len() ==> out@[a] < out@[b],
            forall|a: int| 0 <= a < out@.len() ==> (#[trigger] out@[a]) < i && allows@[out@[a] as int],
            forall|k: int| 0 <= k < i && allows@[k] ==> out@.contains(k as usize),
        decreases allows@.len() - i,
    {
        assert(allows@.take(i as int + 1).drop_last() =~= allows@.take(i as int));
        if allows[i] {
            let ghost prev = out@;
            out.push(i);
            assert(out@ == prev.push(i));
            assert forall|k: int| 0 <= k < i + 1 && allows@[k] implies out@.contains(k as usize) by {
                if k < i {
                    assert(prev.contains(k as usize));
                    let w = choose|w: int| 0 <= w < prev.len() && prev[w] == k as usize;
                    assert(out@[w] == k as usize);
                } else {
                    assert(out@[out@.len() - 1] == k as usize);
                }
            }
        }
        i = i + 1;
    }
    assert(allows@.take(allows@.len() as int) =~= allows@);
    out
}

/// The check an answer's rules call for, when it is an AAAA answer.
pub open spec fn answer_check(cfg: Inner, group: Seq<char>, a: Record) -> Option<Check> {
    match a.data {
        RecordData::Aaaa(_) => Some(decision(cfg.rules_for(group), a.name@)),
        _ => None,
    }
}

/// The answers at the given positions, in that order.
pub open spec fn at_positions(answers: Seq<Record>, pos: Seq<usize>) -> Seq<Record> {
    pos.map_values(|p: usize| answers[p as int])
}

/// Whether every answer is allowed.
pub open spec fn all_allowed(allows: Seq<bool>) -> bool {
    forall|i: int| 0 <= i < allows.len() ==> allows[i]
}

/// The bytes sent back for an upstream reply: nothing when it does not
/// decode; the reply itself when no question asks for AAAA or every answer
/// is allowed; otherwise the reply re-encoded with the allowed answers only.
pub open spec fn delivered(qs: Seq<Question>, reply: Seq<u8>, allows: Seq<bool>) -> Option<Seq<u8>> {
    if answers_of(reply) is None {
        None
    } else if !asks_aaaa(qs) {
        Some(reply)
    } else {
        filtered(reply, allows)
    }
}

/// The reply after the AAAA filter: as it is when every answer is allowed,
/// else re-encoded with the allowed answers only, in their order.
pub open spec fn filtered(reply: Seq<u8>, allows: Seq<bool>) -> Option<Seq<u8>> {
    if all_allowed(allows) {
        Some(reply)
    } else {
        reply_keeping(reply, allowed_positions(allows))
    }
}

/// The first upstream of a list, if there is one.
pub open spec fn first_upstream(list: Seq<String>) -> Option<Seq<char>> {
    if list.len() > 0 {
        Some(list[0]@)
    } else {
        None
    }
}

impl Handler {
    /// The local stages for a request: an undecodable request is dropped;
    /// host overrides answer if they give any answer that encodes; then the
    /// cache answers if it holds any live record for an A or AAAA question;
    /// otherwise the request goes to the group's first upstream.
    pub fn handle(&self, config: &Inner, cache: &mut Cache, request: &[u8], now: u64) -> (r: Outcome)
        requires
            old(cache).wf(),
        ensures
            final(cache).wf(),
            match questions_of(request@) {
                None => r is Drop && final(cache).view() == old(cache).view(),
                Some(qs) => {
                    let ha = host_answers(*config, self.group@, qs);
                    if ha.len() > 0 && reply_with(request@, ha) is Some {
                        r matches Outcome::Reply(b) && reply_with(request@, ha) == Some(b@)
                            && final(cache).view() == old(cache).view()
                    } else {
                        let found = match old(cache).view() {
                            Some(c) => records_of(cache_lookup(c.entries(), qs, now).1),
                            None => Seq::empty(),
                        };
                        &&& (old(cache).view() matches Some(c) ==> final(cache).view() matches Some(d)
                            && d.capacity() == c.capacity() && d.entries() == cache_lookup(c.entries(), qs, now).0)
                        &&& (old(cache).view() is None ==> final(cache).view() is None)
                        &&& if found.len() > 0 && reply_with(request@, views(found)) is Some {
                            r matches Outcome::Reply(b) && reply_with(request@, views(found)) == Some(b@)
                        } else {
                            match first_upstream(config.servers_for(self.group@)) {
                                Some(s) => r matches Outcome::Forward(f) && f@ == s,
                                None => r is Drop,
                            }
                        }
                    }
                },
            },
    {
        let qs = match decode_questions(request) {
            Some(qs) => qs,
            None => {
                return Outcome::Drop;
            },
        };
        let local = self.resolve_from_hosts(config, &qs);
        if local.len() > 0 {
            if let Some(bytes) = encode_reply(request, local.as_slice()) {
                return Outcome::Reply(bytes);
            }
        }
        proof {
            if views(local@).len() > 0 {
                assert(local@.len() > 0);
            }
        }
        let hits = self.lookup_dns_cache(cache, &qs, now);
        let found = unwrap_records(&hits);
        if found.len() > 0 {
            if let Some(bytes) = encode_reply(request, found.as_slice()) {
                return Outcome::Reply(bytes);
            }
        }
        proof {
            if views(found@).len() > 0 {
                assert(found@.len() > 0);
            }
        }
        if config.servers.len() == 0 {
            return Outcome::Drop;
        }
        let list = self.upstreams(config);
        if list.len() == 0 {
            return Outcome::Drop;
        }
        Outcome::Forward(list[0].clone())
    }

    /// The group's upstream list: its own if it has one, else the default group's.
    pub fn upstreams<'a>(&self, config: &'a Inner) -> (r: Vec<String>)
        ensures
            r@ == config.servers_for(self.group@),
    {
        proof {
            crate::seqs::lemma_first_index_found(config.servers@, crate::seqs::key_is::<Vec<String>>(self.group@));
            crate::seqs::lemma_first_index_found(config.servers@, crate::seqs::key_is::<Vec<String>>(default_name()));
        }
        match crate::seqs::find_key(&config.servers, self.group.as_str()) {
            Some(i) => copy_strings(&config.servers[i].1),
            None => match crate::seqs::find_key(&config.servers, crate::config::default_group()) {
                Some(d) => copy_strings(&config.servers[d].1),
                None => Vec::new(),
            },
        }
    }

    /// The check each answer calls for: its group's rules decide on AAAA
    /// answers; other answers need none.
    pub fn aaaa_checks(&self, config: &Inner, answers: &Vec<Record>) -> (r: Vec<Option<Check>>)
        ensures
            r@.len() == answers@.len(),
            forall|i: int| 0 <= i < answers@.len() ==> #[trigger] r@[i] == answer_check(*config, self.group@, answers@[i]),
    {
        let mut out: Vec<Option<Check>> = Vec::new();
        let mut i: usize = 0;
        while i < answers.len()
            invariant
                i <= answers@.len(),
                out@.len() == i,
                forall|j: int| 0 <= j < i ==> #[trigger] out@[j] == answer_check(*config, self.group@, answers@[j]),
            decreases answers@.len() - i,
        {
            let c = match answers[i].data {
                RecordData::Aaaa(_) => Some(config.ipv6_check(self.group.as_str(), answers[i].name.as_str())),
                _ => None,
            };
            out.push(c);
            i = i + 1;
        }
        out
    }

    /// Handles an upstream reply to `request`: an undecodable request or reply
    /// is dropped; a reply to questions without AAAA is stored in the cache
    /// and sent as it is; otherwise each AAAA answer's check is handed out.
    pub fn after_upstream(&self, config: &Inner, cache: &mut Cache, request: &[u8], reply: &[u8], now: u64) -> (r: Filtering)
        requires
            old(cache).wf(),
        ensures
            final(cache).wf(),
            match (questions_of(request@), answers_of(reply@)) {
                (Some(qs), Some(ans)) => if !asks_aaaa(qs) {
                    &&& r matches Filtering::Deliver(b) && b@ == reply@
                    &&& (old(cache).view() is None ==> final(cache).view() is None)
                    &&& (old(cache).view() matches Some(c) ==> final(cache).view() matches Some(d) && d.capacity() == c.capacity()
                        && d.entries() == stored_after(c.entries(), c.capacity(), ans, now))
                } else {
                    &&& r matches Filtering::Check(a, checks) && a@ == ans && checks@.len() == ans.len()
                        && forall|i: int| 0 <= i < ans.len() ==> #[trigger] checks@[i] == answer_check(*config, self.group@, ans[i])
                    &&& final(cache).view() == old(cache).view()
                },
                _ => r is Drop && final(cache).view() == old(cache).view(),
            },
    {
        let qs = match decode_questions(request) {
            Some(qs) => qs,
            None => {
                return Filtering::Drop;
            },
        };
        let answers = match decode_answers(reply) {
            Some(a) => a,
            None => {
                return Filtering::Drop;
            },
        };
        if !has_aaaa_question(&qs) {
            self.cache_dns_record(cache, &answers, now);
            return Filtering::Deliver(vstd::slice::slice_to_vec(reply));
        }
        let checks = self.aaaa_checks(config, &answers);
        Filtering::Check(answers, checks)
    }

    /// Finishes a filtered reply once every answer's verdict is known: the
    /// allowed answers are stored in the cache, and the reply goes out as it
    /// is when all are allowed, else re-encoded with the allowed ones in order.
    ///
    /// A reply that does not decode, or a verdict list whose length is not
    /// the number of answers, gives `None` and leaves the cache as it is.
    pub fn complete(&self, cache: &mut Cache, reply: &[u8], allows: &Vec<bool>, now: u64) -> (r: Option<Vec<u8>>)
        requires
            old(cache).wf(),
        ensures
            final(cache).wf(),
            match answers_of(reply@) {
                Some(answers) if allows@.len() == answers.len() => {
                    &&& match r {
                        Some(b) => filtered(reply@, allows@) == Some(b@),
                        None => filtered(reply@, allows@) is None,
                    }
                    &&& (old(cache).view() is None ==> final(cache).view() is None)
                    &&& (old(cache).view() matches Some(c) ==> final(cache).view() matches Some(d) && d.capacity() == c.capacity()
                        && d.entries() == stored_after(c.entries(), c.capacity(), at_positions(answers, allowed_positions(allows@)), now))
                },
                _ => r is None && final(cache).view() == old(cache).view(),
            },
    {
        let answers = match decode_answers(reply) {
            Some(a) => a,
            None => {
                return None;
            },
        };
        if answers.len() != allows.len() {
            return None;
        }
        let kept = kept_indices(allows);
        let mut chosen: Vec<Record> = Vec::new();
        let mut i: usize = 0;
        while i < kept.len()
            invariant
                i <= kept@.len(),
                kept@ == allowed_positions(allows@),
                forall|j: int| 0 <= j < kept@.len() ==> (#[trigger] kept@[j]) < allows@.len(),
                allows@.len() == answers@.len(),
                chosen@ == at_positions(answers@, kept@.take(i as int)),
            decreases kept@.len() - i,
        {
            chosen.push(answers[kept[i]].copy());
            i = i + 1;
            assert(chosen@ =~= at_positions(answers@, kept@.take(i as int)));
        }
        assert(kept@.take(kept@.len() as int) =~= kept@);
        self.cache_dns_record(cache, &chosen, now);
        if kept.len() == allows.len() {
            assert(all_allowed(allows@)) by {
                assert forall|k: int| 0 <= k < allows@.len() implies allows@[k] by {
                    lemma_positions_len(allows@);
                    if !allows@[k] {
                        lemma_positions_skip(allows@, k);
                    }
                }
            }
            Some(vstd::slice::slice_to_vec(reply))
        } else {
            assert(!all_allowed(allows@)) by {
                lemma_all_allowed_positions(allows@);
            }
            encode_keeping(reply, kept.as_slice())
        }
    }
}

proof fn lemma_positions_len(allows: Seq<bool>)
    ensures
        allowed_positions(allows).len() <= allows.len(),
    decreases allows.len(),
{
    if allows.len() > 0 {
        lemma_positions_len(allows.drop_last());
    }
}

proof fn lemma_positions_skip(allows: Seq<bool>, k: int)
    requires
        0 <= k < allows.len(),
        !allows[k],
    ensures
        allowed_positions(allows).len() < allows.len(),
    decreases allows.len(),
{
    let prev = allows.drop_last();
    if k == allows.len() - 1 {
        lemma_positions_len(prev);
    } else {
        lemma_positions_skip(prev, k);
    }
}

proof fn lemma_all_allowed_positions(allows: Seq<bool>)
    ensures
        all_allowed(allows) ==> allowed_positions(allows).len() == allows.len(),
    decreases allows.len(),
{
    if allows.len() > 0 {
        lemma_all_allowed_positions(allows.drop_last());
        if all_allowed(allows) {
            assert(all_allowed(allows.drop_last()));
        }
    }
}

/// A copy of a list of strings.
fn copy_strings(s: &Vec<String>) -> (r: Vec<String>)
    ensures
        r@ == s@,
{
    let mut out: Vec<String> = Vec::new();
    let mut i: usize = 0;
    while i < s.len()
        invariant
            i <= s@.len(),
            out@ == s@.take(i as int),
        decreases s@.len() - i,
    {
        out.push(s[i].clone());
        i = i + 1;
        assert(out@ =~= s@.take(i as int));
    }
    assert(s@.take(s@.len() as int) =~= s@);
    out
}

/// Forwarding is transparent: when no answer is filtered out (no question
/// asks for AAAA, or every AAAA answer is allowed), the client gets exactly
/// the bytes the upstream sent.
pub proof fn lemma_round_trip(qs: Seq<Question>, reply: Seq<u8>, allows: Seq<bool>)
    requires
        answers_of(reply) is Some,
        !asks_aaaa(qs) || all_allowed(allows),
    ensures
        delivered(qs, reply, allows) == Some(reply),
{
}

/// The filter keeps the allowed answers in the order the upstream sent them:
/// the positions kept increase strictly and are exactly the allowed ones.
pub proof fn lemma_filter_keeps_order(allows: Seq<bool>)
    requires
        allows.len() <= usize::MAX,
    ensures
        forall|i: int, j: int|
            0 <= i < j < allowed_positions(allows).len() ==> allowed_positions(allows)[i] < allowed_positions(allows)[j],
        forall|i: int|
            0 <= i < allowed_positions(allows).len() ==> (#[trigger] allowed_positions(allows)[i]) < allows.len()
                && allows[allowed_positions(allows)[i] as int],
        forall|k: int| 0 <= k < allows.len() && allows[k] ==> allowed_positions(allows).contains(k as usize),
    decreases allows.len(),
{
    if allows.len() > 0 {
        let d = allows.drop_last();
        lemma_filter_keeps_order(d);
        let prev = allowed_positions(d);
        let cur = allowed_positions(allows);
        assert forall|i: int| 0 <= i < prev.len() implies (#[trigger] prev[i]) < allows.len() - 1 && allows[prev[i] as int] by {
            assert(d[prev[i] as int] == allows[prev[i] as int]);
        }
        if allows.last() {
            assert(cur == prev.push((allows.len() - 1) as usize));
            assert forall|i: int| 0 <= i < cur.len() implies (#[trigger] cur[i]) < allows.len() && allows[cur[i] as int] by {
                if i < prev.len() {
                    assert(cur[i] == prev[i]);
                }
            }
            assert forall|i: int, j: int| 0 <= i < j < cur.len() implies cur[i] < cur[j] by {
                if j < prev.len() {
                    assert(cur[i] == prev[i] && cur[j] == prev[j]);
                } else {
                    assert(cur[i] == prev[i]);
                }
            }
            assert forall|k: int| 0 <= k < allows.len() && allows[k] implies cur.contains(k as usize) by {
                if k < allows.len() - 1 {
                    assert(d[k] == allows[k]);
                    assert(prev.contains(k as usize));
                    let w = choose|w: int| 0 <= w < prev.len() && prev[w] == k as usize;
                    assert(cur[w] == k as usize);
                } else {
                    assert(cur[cur.len() - 1] == k as usize);
                }
            }
        } else {
            assert forall|k: int| 0 <= k < allows.len() && allows[k] implies cur.contains(k as usize) by {
                assert(k < allows.len() - 1);
                assert(d[k] == allows[k]);
            }
        }
    }
}

} // verus!
