//! The configuration snapshot: groups of client addresses, upstream servers,
//! host overrides, AAAA rules and metadata, with the lookups the server makes.
use crate::dns::{canonical, to_ipv6_mapped, IpAddress};
use crate::rules::{decision, first_match, first_rule, lemma_decision_chain, verdict, Check, Resolution};
use crate::seqs::{first_index, insert_pair, key_pos, lemma_first_index_found, lemma_first_index_is, lemma_first_index_none, upsert, value_of, find_key};
use crate::rules::{names_equal, same_name};
use crate::config::model::{empty_view, entry_views, host_append, host_vals, keyed_view, lemma_key_pos_view, lemma_upsert_view, group_vals, server_vals, rule_vals, strings_view, CfgView};
use vstd::prelude::*;

pub mod group;
pub mod hosts;
pub mod log;
pub mod metadata;
pub mod model;
pub mod server;

verus! {

/// The name of the group that every client falls back to.
pub open spec fn default_name() -> Seq<char> {
    seq!['d', 'e', 'f', 'a', 'u', 'l', 't']
}

/// The name of the fallback group, `default`.
pub fn default_group() -> (r: &'static str)
    ensures
        r@ == default_name(),
{
    let s = "default";
    proof {
        reveal_strlit("default");
    }
    s
}

/// A member of a group: one address, or an inclusive range of addresses in
/// their IPv6 form.
#[derive(PartialEq, Eq, Clone, Copy, Debug)]
pub enum IpRange {
    Single(IpAddress),
    Range(u128, u128),
}

/// Whether a group member covers the address whose IPv6 form is `a`.
pub open spec fn range_covers(r: IpRange, a: u128) -> bool {
    match r {
        IpRange::Single(s) => canonical(s) == a,
        IpRange::Range(lo, hi) => lo <= a <= hi,
    }
}

/// Whether some member of `ranges` covers `a`.
pub open spec fn ranges_cover(ranges: Seq<IpRange>, a: u128) -> bool {
    exists|i: int| 0 <= i < ranges.len() && range_covers(ranges[i], a)
}

/// Settings outside the routing tables.
#[derive(PartialEq, Eq, Clone, Debug)]
pub struct Metadata {
    pub addn_host: Option<String>,
    pub cache_size: usize,
    pub bind: String,
    pub mmdb: Option<String>,
    pub access_log: bool,
}

impl Metadata {
    /// No extra hosts file, no cache, no bind address, no GeoIP, access log on.
    pub fn default() -> (r: Self)
        ensures
            r.addn_host is None,
            r.cache_size == 0,
            r.bind@.len() == 0,
            r.mmdb is None,
            r.access_log,
    {
        Metadata { addn_host: None, cache_size: 0, bind: String::new(), mmdb: None, access_log: true }
    }
}

/// One configuration snapshot.
pub struct Inner {
    pub groups: Vec<(String, Vec<IpRange>)>,
    pub servers: Vec<(String, Vec<String>)>,
    pub hosts: Vec<(String, Vec<(IpAddress, String)>)>,
    pub metadata: Metadata,
    pub ipv6_resolution: Vec<(String, Vec<Resolution>)>,
    pub log: crate::logs::Log,
}

/// The list under `k`, or an empty one.
pub open spec fn list_of<T>(s: Seq<(String, Vec<T>)>, k: Seq<char>) -> Seq<T> {
    match value_of(s, k) {
        Some(v) => v@,
        None => Seq::empty(),
    }
}

/// Every upstream list holds at least one upstream.
pub open spec fn lists_nonempty(s: Seq<(String, Vec<String>)>) -> bool {
    forall|i: int| 0 <= i < s.len() ==> (#[trigger] s[i]).1@.len() > 0
}

/// Whether a host entry's address is `addr`.
pub open spec fn host_at(addr: IpAddress) -> spec_fn((IpAddress, String)) -> bool {
    |e: (IpAddress, String)| e.0 == addr
}

/// Whether a group's members cover `a`.
pub open spec fn group_covers(a: u128) -> spec_fn((String, Vec<IpRange>)) -> bool {
    |g: (String, Vec<IpRange>)| ranges_cover(g.1@, a)
}

/// The addresses of the entries of `entries` that name `domain`, in order.
pub open spec fn addrs_named(entries: Seq<(IpAddress, String)>, domain: Seq<char>) -> Seq<IpAddress>
    decreases entries.len(),
{
    if entries.len() == 0 {
        Seq::empty()
    } else {
        let prev = addrs_named(entries.drop_last(), domain);
        if same_name(entries.last().1@, domain) {
            prev.push(entries.last().0)
        } else {
            prev
        }
    }
}

/// The name of the first entry of `entries` for `addr`.
pub open spec fn name_in(entries: Seq<(IpAddress, String)>, addr: IpAddress) -> Option<Seq<char>> {
    match first_index(entries, host_at(addr)) {
        Some(i) => Some(entries[i].1@),
        None => None,
    }
}

impl Inner {
    /// Groups in the order they were defined.
    pub open spec fn groups(&self) -> Seq<(String, Vec<IpRange>)> {
        self.groups@
    }

    /// Upstream lists by group.
    pub open spec fn servers(&self) -> Seq<(String, Vec<String>)> {
        self.servers@
    }

    /// Host overrides by group.
    pub open spec fn hosts(&self) -> Seq<(String, Vec<(IpAddress, String)>)> {
        self.hosts@
    }

    /// AAAA rules by group.
    pub open spec fn rules(&self) -> Seq<(String, Vec<Resolution>)> {
        self.ipv6_resolution@
    }

    /// Upstreams are defined for the default group and every upstream list is non-empty.
    pub open spec fn wf(&self) -> bool {
        &&& value_of(self.servers(), default_name()) is Some
        &&& lists_nonempty(self.servers())
    }

    /// The host entries consulted for `group`: its own, then the default group's.
    pub open spec fn host_entries(&self, group: Seq<char>) -> Seq<(IpAddress, String)> {
        list_of(self.hosts(), group) + list_of(self.hosts(), default_name())
    }

    /// The rules consulted for `group`: its own, then the default group's.
    pub open spec fn rules_for(&self, group: Seq<char>) -> Seq<Resolution> {
        list_of(self.rules(), group) + list_of(self.rules(), default_name())
    }

    /// The upstream list used for `group`: its own if defined, else the default group's.
    pub open spec fn servers_for(&self, group: Seq<char>) -> Seq<String> {
        match value_of(self.servers(), group) {
            Some(v) => v@,
            None => list_of(self.servers(), default_name()),
        }
    }

    /// The group a client address belongs to: the first group, in definition
    /// order, with a member that covers it; `default` when none does.
    pub open spec fn group_of(&self, addr: IpAddress) -> Seq<char> {
        match first_index(self.groups(), group_covers(canonical(addr))) {
            Some(i) => self.groups()[i].0@,
            None => default_name(),
        }
    }

    /// The overriding addresses for `domain` in `group`: every matching entry
    /// of the group's table, in order; when it has none, those of the default
    /// group's table.
    pub open spec fn host_addrs(&self, group: Seq<char>, domain: Seq<char>) -> Seq<IpAddress> {
        let own = addrs_named(list_of(self.hosts(), group), domain);
        if own.len() > 0 {
            own
        } else {
            addrs_named(list_of(self.hosts(), default_name()), domain)
        }
    }

    /// The host name that `addr` maps back to in `group`: the first matching entry.
    pub open spec fn host_name(&self, group: Seq<char>, addr: IpAddress) -> Option<Seq<char>> {
        name_in(self.host_entries(group), addr)
    }

    /// An empty snapshot with default metadata.
    pub fn new() -> (r: Self)
        ensures
            r.groups().len() == 0,
            r.servers().len() == 0,
            r.hosts().len() == 0,
            r.rules().len() == 0,
            r.metadata.cache_size == 0 && r.metadata.mmdb is None && r.metadata.access_log,
            r.view() == empty_view(),
    {
        let r = Inner {
            groups: Vec::new(),
            servers: Vec::new(),
            hosts: Vec::new(),
            metadata: Metadata::default(),
            ipv6_resolution: Vec::new(),
            log: crate::logs::Log {
                level: crate::logs::LogLevel::Info,
                dir: None,
                max_files: None,
                rotation: crate::logs::RollingRotation::Never,
            },
        };
        assert(r.view().groups =~= empty_view().groups);
        assert(r.view().servers =~= empty_view().servers);
        assert(r.view().hosts =~= empty_view().hosts);
        assert(r.view().rules =~= empty_view().rules);
        assert(r.view().meta.bind =~= empty_view().meta.bind);
        r
    }

    /// Whether a group of this name is defined.
    pub fn has_group(&self, name: &str) -> (r: bool)
        ensures
            r == (key_pos(self.groups(), name@) is Some),
    {
        find_key(&self.groups, name).is_some()
    }

    /// Whether `name` is `default` or a defined group.
    pub fn is_known_group(&self, name: &str) -> (r: bool)
        ensures
            r == (name@ == default_name() || key_pos(self.groups(), name@) is Some),
    {
        crate::text::str_eq(name, default_group()) || self.has_group(name)
    }

    /// Defines (or redefines) a group's members.
    pub fn set_group(&mut self, name: String, ranges: Vec<IpRange>)
        ensures
            final(self).groups() == upsert(old(self).groups(), name, ranges),
            final(self).servers() == old(self).servers(),
            final(self).hosts() == old(self).hosts(),
            final(self).rules() == old(self).rules(),
            final(self).metadata == old(self).metadata,
            final(self).log == old(self).log,
            final(self).view() == (CfgView { groups: crate::config::model::vupsert(old(self).view().groups, name@, ranges@), ..old(self).view() }),
    {
        proof {
            lemma_upsert_view(self.groups@, group_vals(), name, ranges);
        }
        insert_pair(&mut self.groups, name, ranges);
    }

    /// Sets a group's upstream list.
    pub fn set_servers(&mut self, name: String, list: Vec<String>)
        requires
            list@.len() > 0,
            forall|i: int| 0 <= i < old(self).servers().len() ==> (#[trigger] old(self).servers()[i]).1@.len() > 0,
        ensures
            (old(self).wf() || name@ == default_name()) ==> final(self).wf(),
            forall|i: int| 0 <= i < final(self).servers().len() ==> (#[trigger] final(self).servers()[i]).1@.len() > 0,
            final(self).servers() == upsert(old(self).servers(), name, list),
            final(self).view() == (CfgView { servers: crate::config::model::vupsert(old(self).view().servers, name@, strings_view(list@)), ..old(self).view() }),
            final(self).groups() == old(self).groups(),
            final(self).hosts() == old(self).hosts(),
            final(self).rules() == old(self).rules(),
            final(self).metadata == old(self).metadata,
            final(self).log == old(self).log,
    {
        let ghost k = name@;
        let ghost v = list;
        let ghost nm = name;
        proof {
            lemma_upsert_view(self.servers@, server_vals(), name, list);
        }
        let ghost before = self.servers@;
        proof {
            lemma_first_index_found(before, crate::seqs::key_is::<Vec<String>>(k));
            lemma_first_index_found(before, crate::seqs::key_is::<Vec<String>>(default_name()));
        }
        insert_pair(&mut self.servers, name, list);
        let ghost after = self.servers@;
        proof {
            lemma_first_index_found(after, crate::seqs::key_is::<Vec<String>>(default_name()));
            lemma_first_index_found(before, crate::seqs::key_is::<Vec<String>>(k));
            assert forall|i: int| 0 <= i < after.len() implies (#[trigger] after[i]).1@.len() > 0 by {
                match key_pos(before, k) {
                    Some(p) => {
                        assert(after == before.update(p, (nm, v)));
                        if i != p {
                            assert(after[i] == before[i]);
                            assert(old(self).servers()[i].1@.len() > 0);
                        }
                    },
                    None => {
                        assert(after == before.push((nm, v)));
                        if i < before.len() {
                            assert(after[i] == before[i]);
                            assert(old(self).servers()[i].1@.len() > 0);
                        }
                    },
                }
            }
            if (old(self).wf() || k == default_name()) && value_of(after, default_name()) is None {
                if k == default_name() {
                    match key_pos(before, k) {
                        Some(p) => {
                            assert(after[p].0@ == k);
                        },
                        None => {
                            assert(after[before.len() as int].0@ == k);
                        },
                    }
                    assert(false);
                } else {
                    let d = key_pos(before, default_name())->0;
                    match key_pos(before, k) {
                        Some(p) => {
                            assert(p != d);
                            assert(after[d] == before[d]);
                        },
                        None => {
                            assert(after[d] == before[d]);
                        },
                    }
                    assert(after[d].0@ == default_name());
                    assert(false);
                }
            }
        }
    }

    /// Appends one host override to a group's table.
    pub fn add_host(&mut self, group: String, addr: IpAddress, name: String)
        ensures
            list_of(final(self).hosts(), group@) == list_of(old(self).hosts(), group@).push((addr, name)),
            final(self).groups() == old(self).groups(),
            final(self).servers() == old(self).servers(),
            final(self).rules() == old(self).rules(),
            final(self).metadata == old(self).metadata,
            final(self).log == old(self).log,
    {
        let ghost g = group@;
        let ghost before = self.hosts@;
        proof {
            lemma_first_index_found(before, crate::seqs::key_is::<Vec<(IpAddress, String)>>(g));
        }
        match find_key(&self.hosts, group.as_str()) {
            Some(i) => {
                let mut entry = self.hosts.remove(i);
                entry.1.push((addr, name));
                self.hosts.insert(i, entry);
                proof {
                    assert(self.hosts@ =~= before.update(i as int, self.hosts@[i as int]));
                    assert forall|j: int| 0 <= j < i implies !crate::seqs::key_is::<Vec<(IpAddress, String)>>(g)(
                        #[trigger] self.hosts@[j],
                    ) by {
                        assert(self.hosts@[j] == before[j]);
                    }
                    lemma_first_index_is(self.hosts@, crate::seqs::key_is::<Vec<(IpAddress, String)>>(g), i as int);
                }
            },
            None => {
                let mut list: Vec<(IpAddress, String)> = Vec::new();
                list.push((addr, name));
                self.hosts.push((group, list));
                proof {
                    assert forall|j: int| 0 <= j < before.len() implies !crate::seqs::key_is::<Vec<(IpAddress, String)>>(g)(
                        #[trigger] self.hosts@[j],
                    ) by {
                        assert(self.hosts@[j] == before[j]);
                    }
                    lemma_first_index_is(self.hosts@, crate::seqs::key_is::<Vec<(IpAddress, String)>>(g), before.len() as int);
                    assert(list@ =~= list_of(before, g).push((addr, name)));
                }
            },
        }
    }

    /// Sets a group's AAAA rules.
    pub fn set_rules(&mut self, name: String, rules: Vec<Resolution>)
        ensures
            final(self).rules() == upsert(old(self).rules(), name, rules),
            final(self).groups() == old(self).groups(),
            final(self).servers() == old(self).servers(),
            final(self).hosts() == old(self).hosts(),
            final(self).metadata == old(self).metadata,
            final(self).log == old(self).log,
            final(self).view() == (CfgView {
                rules: crate::config::model::vupsert(old(self).view().rules, name@, rule_vals()(rules)),
                ..old(self).view()
            }),
    {
        proof {
            lemma_upsert_view(self.ipv6_resolution@, rule_vals(), name, rules);
        }
        insert_pair(&mut self.ipv6_resolution, name, rules);
    }

    /// Appends host overrides to a group's table, creating the table when
    /// missing; nothing changes when there are none.
    pub fn add_hosts(&mut self, group: String, entries: Vec<(IpAddress, String)>)
        ensures
            final(self).view() == (CfgView {
                hosts: host_append(old(self).view().hosts, group@, entry_views(entries@)),
                ..old(self).view()
            }),
            final(self).groups() == old(self).groups(),
            final(self).servers() == old(self).servers(),
            final(self).rules() == old(self).rules(),
            final(self).metadata == old(self).metadata,
            final(self).log == old(self).log,
    {
        if entries.len() == 0 {
            return;
        }
        let ghost g = group@;
        let ghost before = self.hosts@;
        let ghost es = entries@;
        proof {
            lemma_key_pos_view(before, host_vals(), g);
            lemma_first_index_found(before, crate::seqs::key_is::<Vec<(IpAddress, String)>>(g));
        }
        match find_key(&self.hosts, group.as_str()) {
            Some(i) => {
                let mut entry = self.hosts.remove(i);
                let ghost old_list = entry.1@;
                let mut more = entries;
                entry.1.append(&mut more);
                self.hosts.insert(i, entry);
                proof {
                    assert(self.hosts@ =~= before.update(i as int, self.hosts@[i as int]));
                    assert(entry_views(old_list + es) =~= entry_views(old_list) + entry_views(es));
                    assert(keyed_view(self.hosts@, host_vals()) =~= keyed_view(before, host_vals()).update(
                        i as int,
                        (g, keyed_view(before, host_vals())[i as int].1 + entry_views(es)),
                    ));
                }
            },
            None => {
                self.hosts.push((group, entries));
                proof {
                    assert(keyed_view(self.hosts@, host_vals()) =~= keyed_view(before, host_vals()).push((g, entry_views(es))));
                }
            },
        }
    }

    /// The group of a client: the first group, in definition order, with a
    /// member covering the address (IPv4 compared in its IPv6-mapped form);
    /// `default` when none does.
    pub fn attribute_group(&self, addr: IpAddress) -> (r: String)
        ensures
            r@ == self.group_of(addr),
    {
        let a = to_ipv6_mapped(addr);
        let mut i: usize = 0;
        while i < self.groups.len()
            invariant
                a == canonical(addr),
                i <= self.groups@.len(),
                forall|j: int| 0 <= j < i ==> !group_covers(a)(#[trigger] self.groups@[j]),
            decreases self.groups@.len() - i,
        {
            let ranges = &self.groups[i].1;
            let mut k: usize = 0;
            let mut hit = false;
            while k < ranges.len() && !hit
                invariant
                    k <= ranges@.len(),
                    hit ==> ranges_cover(ranges@, a),
                    !hit ==> forall|m: int| 0 <= m < k ==> !range_covers(#[trigger] ranges@[m], a),
                decreases ranges@.len() - k + (if hit { 0int } else { 1int }),
            {
                let covered = match ranges[k] {
                    IpRange::Single(s) => to_ipv6_mapped(s) == a,
                    IpRange::Range(lo, hi) => lo <= a && a <= hi,
                };
                if covered {
                    assert(range_covers(ranges@[k as int], a));
                    hit = true;
                } else {
                    k = k + 1;
                }
            }
            assert(group_covers(a)(self.groups@[i as int]) == ranges_cover(ranges@, a));
            if hit {
                proof {
                    lemma_first_index_is(self.groups@, group_covers(a), i as int);
                }
                return self.groups[i].0.clone();
            }
            i = i + 1;
        }
        proof {
            lemma_first_index_none(self.groups@, group_covers(a));
        }
        default_group().to_string()
    }

    /// The upstream list for `group`: its own if it has one, else the default group's.
    pub fn get_server(&self, group: &str) -> (r: &Vec<String>)
        requires
            self.wf(),
        ensures
            r@ == self.servers_for(group@),
    {
        proof {
            lemma_first_index_found(self.servers@, crate::seqs::key_is::<Vec<String>>(group@));
            lemma_first_index_found(self.servers@, crate::seqs::key_is::<Vec<String>>(default_name()));
        }
        match find_key(&self.servers, group) {
            Some(i) => &self.servers[i].1,
            None => {
                let d = find_key(&self.servers, default_group());
                &self.servers[d.unwrap()].1
            },
        }
    }
}

impl Inner {
    /// The addresses that override `domain` for `group`: every entry naming
    /// it in the group's table, or, when there is none, in the default group's.
    pub fn get_hosts(&self, group: &str, domain: &str) -> (r: Vec<IpAddress>)
        ensures
            r@ == self.host_addrs(group@, domain@),
    {
        let a = list_ref(&self.hosts, group);
        let b = list_ref(&self.hosts, default_group());
        let mut out: Vec<IpAddress> = Vec::new();
        match a {
            Some(v) => collect_named(v, domain, &mut out),
            None => {},
        }
        assert(out@ =~= addrs_named(list_of(self.hosts@, group@), domain@));
        if out.len() > 0 {
            return out;
        }
        match b {
            Some(v) => collect_named(v, domain, &mut out),
            None => {},
        }
        assert(out@ =~= self.host_addrs(group@, domain@));
        out
    }

    /// The host name that `addr` maps back to for `group`: the first entry
    /// with that address in the group's table, then in the default group's.
    pub fn get_hostname(&self, group: &str, addr: IpAddress) -> (r: Option<String>)
        ensures
            match r {
                Some(n) => self.host_name(group@, addr) == Some(n@),
                None => self.host_name(group@, addr) is None,
            },
    {
        let a = list_ref(&self.hosts, group);
        let b = list_ref(&self.hosts, default_group());
        let ghost sa = list_of(self.hosts@, group@);
        let ghost sb = list_of(self.hosts@, default_name());
        first_at(a, b, addr, Ghost(sa), Ghost(sb))
    }

    /// What deciding on an AAAA answer for `domain` needs in `group`: the
    /// group's rules are scanned first, then the default group's, and the
    /// first rule whose payload matches decides.
    pub fn ipv6_check(&self, group: &str, domain: &str) -> (r: Check)
        ensures
            r == decision(self.rules_for(group@), domain@),
    {
        proof {
            lemma_decision_chain(list_of(self.rules(), group@), list_of(self.rules(), default_name()), domain@);
        }
        let own = list_ref(&self.ipv6_resolution, group);
        let dflt = list_ref(&self.ipv6_resolution, default_group());
        let ghost sa = list_of(self.rules(), group@);
        let ghost sb = list_of(self.rules(), default_name());
        if let Some(v) = own {
            if let Some(i) = first_rule(v, domain) {
                return v[i].check();
            }
        } else {
            assert(first_match(sa, domain@) is None);
        }
        match dflt {
            Some(v) => crate::rules::decide(v, domain),
            None => {
                assert(decision(sb, domain@) == Check::Decided(true));
                Check::Decided(true)
            },
        }
    }

    /// Whether an AAAA answer for `domain` at an address is kept for
    /// `group`, given whether the address answered a ping and the country
    /// GeoIP gave for it.
    pub fn is_allow_ipv6(&self, group: &str, domain: &str, pingable: bool, country: &Option<String>) -> (r: bool)
        ensures
            r == match decision(self.rules_for(group@), domain@) {
                Check::Decided(b) => b,
                Check::Ping => pingable,
                Check::Country(c) => country matches Some(f) && f@ == c@,
            },
    {
        let check = self.ipv6_check(group, domain);
        verdict(&check, pingable, country)
    }
}

/// The list stored under `k`, or an empty one.
fn list_ref<'a, T>(s: &'a Vec<(String, Vec<T>)>, k: &str) -> (r: Option<&'a Vec<T>>)
    ensures
        match r {
            Some(v) => v@ == list_of(s@, k@),
            None => list_of(s@, k@) == Seq::<T>::empty(),
        },
{
    proof {
        lemma_first_index_found(s@, crate::seqs::key_is::<Vec<T>>(k@));
    }
    match find_key(s, k) {
        Some(i) => Some(&s[i].1),
        None => None,
    }
}

/// Appends the addresses of the entries of `v` that name `domain`.
fn collect_named(v: &Vec<(IpAddress, String)>, domain: &str, out: &mut Vec<IpAddress>)
    ensures
        final(out)@ == old(out)@ + addrs_named(v@, domain@),
{
    let ghost start = out@;
    let mut i: usize = 0;
    while i < v.len()
        invariant
            i <= v@.len(),
            out@ == start + addrs_named(v@.take(i as int), domain@),
        decreases v@.len() - i,
    {
        assert(v@.take(i + 1).drop_last() =~= v@.take(i as int));
        if names_equal(v[i].1.as_str(), domain) {
            out.push(v[i].0);
        }
        i = i + 1;
        assert(out@ =~= start + addrs_named(v@.take(i as int), domain@));
    }
    assert(v@.take(v@.len() as int) =~= v@);
}

/// The name of the first entry of `a + b` for address `addr`, scanning `a` then `b`.
fn first_at(a: Option<&Vec<(IpAddress, String)>>, b: Option<&Vec<(IpAddress, String)>>, addr: IpAddress, Ghost(sa): Ghost<Seq<(IpAddress, String)>>, Ghost(sb): Ghost<Seq<(IpAddress, String)>>) -> (r: Option<String>)
    requires
        a matches Some(v) ==> v@ == sa,
        a is None ==> sa.len() == 0,
        b matches Some(v) ==> v@ == sb,
        b is None ==> sb.len() == 0,
    ensures
        match r {
            Some(n) => name_in(sa + sb, addr) == Some(n@),
            None => name_in(sa + sb, addr) is None,
        },
{
    let ghost all = sa + sb;
    let mut n: usize = 0;
    if let Some(v) = a {
        let mut i: usize = 0;
        while i < v.len()
            invariant
                v@ == sa,
                all == sa + sb,
                i <= sa.len(),
                forall|j: int| 0 <= j < i ==> !host_at(addr)(#[trigger] all[j]),
            decreases sa.len() - i,
        {
            assert(all[i as int] == v@[i as int]);
            if v[i].0 == addr {
                proof {
                    lemma_first_index_is(all, host_at(addr), i as int);
                }
                return Some(v[i].1.clone());
            }
            i = i + 1;
        }
        n = v.len();
    }
    assert(n == sa.len());
    assert(forall|j: int| 0 <= j < n ==> !host_at(addr)(#[trigger] all[j]));
    if let Some(v) = b {
        let mut i: usize = 0;
        while i < v.len()
            invariant
                v@ == sb,
                all == sa + sb,
                n == sa.len(),
                i <= sb.len(),
                forall|j: int| 0 <= j < n + i ==> !host_at(addr)(#[trigger] all[j]),
            decreases sb.len() - i,
        {
            assert(all[n + i as int] == v@[i as int]);
            if v[i].0 == addr {
                proof {
                    lemma_first_index_is(all, host_at(addr), n + i);
                }
                return Some(v[i].1.clone());
            }
            i = i + 1;
        }
    }
    proof {
        lemma_first_index_none(all, host_at(addr));
    }
    None
}

} // verus!
