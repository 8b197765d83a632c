//! The configuration as values: what a snapshot holds, and what a
//! configuration text yields line by line.
use crate::config::{default_name, Inner, IpRange, Metadata};
use crate::dns::IpAddress;
use crate::logs::{Log, LogLevel, RollingRotation};
use crate::rules::Resolution;
use crate::config::server::items_of;
use crate::config::hosts::host_entries_of;
use crate::config::log::rotation_of;
use crate::config::metadata::turns_off;
use crate::http::{trimmed, trimmed_end};
use crate::ip::{ip_of, member_of};
use crate::logs::level_of;
use crate::parse::{kv_result, rule_of, section_of, unbracketed};
use crate::rules::name_ok;
use crate::text::{has_prefix, lines_of, parse_unsigned};
use crate::seqs::{first_index, key_is, key_pos, lemma_first_index_found, lemma_first_index_is, lemma_first_index_none, upsert};
use vstd::prelude::*;

verus! {

/// Metadata as values.
pub struct MetaView {
    pub addn_host: Option<Seq<char>>,
    pub cache_size: usize,
    pub bind: Seq<char>,
    pub mmdb: Option<Seq<char>>,
    pub access_log: bool,
}

/// Log settings as values.
pub struct LogView {
    pub level: LogLevel,
    pub dir: Option<Seq<char>>,
    pub max_files: Option<usize>,
    pub rotation: RollingRotation,
}

/// A configuration snapshot as values: the keyed lists in their order, with
/// each key as its characters.
pub struct CfgView {
    pub groups: Seq<(Seq<char>, Seq<IpRange>)>,
    pub servers: Seq<(Seq<char>, Seq<Seq<char>>)>,
    pub hosts: Seq<(Seq<char>, Seq<(IpAddress, Seq<char>)>)>,
    pub rules: Seq<(Seq<char>, Seq<((u8, Seq<char>), (bool, Seq<char>))>)>,
    pub meta: MetaView,
    pub log: LogView,
}

/// An optional string as its characters.
pub open spec fn opt_view(o: Option<String>) -> Option<Seq<char>> {
    match o {
        Some(s) => Some(s@),
        None => None,
    }
}

/// Metadata as values.
pub open spec fn meta_view(m: Metadata) -> MetaView {
    MetaView { addn_host: opt_view(m.addn_host), cache_size: m.cache_size, bind: m.bind@, mmdb: opt_view(m.mmdb), access_log: m.access_log }
}

/// Log settings as values.
pub open spec fn log_view(l: Log) -> LogView {
    LogView { level: l.level, dir: opt_view(l.dir), max_files: l.max_files, rotation: l.rotation }
}

/// A keyed list with each key as its characters and each value mapped by `f`.
pub open spec fn keyed_view<V, W>(s: Seq<(String, V)>, f: spec_fn(V) -> W) -> Seq<(Seq<char>, W)> {
    s.map_values(|e: (String, V)| (e.0@, f(e.1)))
}

/// Strings as their characters.
pub open spec fn strings_view(s: Seq<String>) -> Seq<Seq<char>> {
    s.map_values(|x: String| x@)
}

/// Host entries with each name as its characters.
pub open spec fn entry_views(v: Seq<(IpAddress, String)>) -> Seq<(IpAddress, Seq<char>)> {
    v.map_values(|e: (IpAddress, String)| (e.0, e.1@))
}

/// A rule as values: its directive and payload.
pub open spec fn rule_view(r: Resolution) -> ((u8, Seq<char>), (bool, Seq<char>)) {
    (crate::parse::directive_view(r.directive), crate::parse::payload_view(r.payload))
}

/// A group's members as values.
pub open spec fn group_vals() -> spec_fn(Vec<IpRange>) -> Seq<IpRange> {
    |v: Vec<IpRange>| v@
}

/// An upstream list as values.
pub open spec fn server_vals() -> spec_fn(Vec<String>) -> Seq<Seq<char>> {
    |v: Vec<String>| strings_view(v@)
}

/// A host table as values.
pub open spec fn host_vals() -> spec_fn(Vec<(IpAddress, String)>) -> Seq<(IpAddress, Seq<char>)> {
    |v: Vec<(IpAddress, String)>| entry_views(v@)
}

/// A rule list as values.
pub open spec fn rule_vals() -> spec_fn(Vec<Resolution>) -> Seq<((u8, Seq<char>), (bool, Seq<char>))> {
    |v: Vec<Resolution>| v@.map_values(|r: Resolution| rule_view(r))
}

impl Inner {
    /// This snapshot as values.
    pub open spec fn view(&self) -> CfgView {
        CfgView {
            groups: keyed_view(self.groups@, group_vals()),
            servers: keyed_view(self.servers@, server_vals()),
            hosts: keyed_view(self.hosts@, host_vals()),
            rules: keyed_view(self.ipv6_resolution@, rule_vals()),
            meta: meta_view(self.metadata),
            log: log_view(self.log),
        }
    }
}

/// Whether an entry's key is `k`.
pub open spec fn vkey_is<W>(k: Seq<char>) -> spec_fn((Seq<char>, W)) -> bool {
    |e: (Seq<char>, W)| e.0 == k
}

/// The position of the first entry with key `k`.
pub open spec fn vkey_pos<W>(s: Seq<(Seq<char>, W)>, k: Seq<char>) -> Option<int> {
    first_index(s, vkey_is(k))
}

/// The list after storing `w` under `k`: in place of the first entry with
/// that key, or appended.
pub open spec fn vupsert<W>(s: Seq<(Seq<char>, W)>, k: Seq<char>, w: W) -> Seq<(Seq<char>, W)> {
    match vkey_pos(s, k) {
        Some(i) => s.update(i, (k, w)),
        None => s.push((k, w)),
    }
}

/// The host tables after appending `es` to group `g`'s table (created when
/// missing; nothing changes when `es` is empty).
pub open spec fn host_append(
    h: Seq<(Seq<char>, Seq<(IpAddress, Seq<char>)>)>,
    g: Seq<char>,
    es: Seq<(IpAddress, Seq<char>)>,
) -> Seq<(Seq<char>, Seq<(IpAddress, Seq<char>)>)> {
    if es.len() == 0 {
        h
    } else {
        match vkey_pos(h, g) {
            Some(i) => h.update(i, (g, h[i].1 + es)),
            None => h.push((g, es)),
        }
    }
}

/// Whether `g` names the default group or a defined one.
pub open spec fn known(cv: CfgView, g: Seq<char>) -> bool {
    g == default_name() || vkey_pos(cv.groups, g) is Some
}

/// Looking a key up gives the same position in a keyed list and in its view.
pub proof fn lemma_key_pos_view<V, W>(s: Seq<(String, V)>, f: spec_fn(V) -> W, k: Seq<char>)
    ensures
        key_pos(s, k) == vkey_pos(keyed_view(s, f), k),
{
    let t = keyed_view(s, f);
    lemma_first_index_found(s, key_is::<V>(k));
    match key_pos(s, k) {
        Some(i) => {
            assert(vkey_is::<W>(k)(t[i]));
            assert forall|j: int| 0 <= j < i implies !vkey_is::<W>(k)(#[trigger] t[j]) by {
                assert(!key_is::<V>(k)(s[j]));
            }
            lemma_first_index_is(t, vkey_is::<W>(k), i);
        },
        None => {
            assert forall|j: int| 0 <= j < t.len() implies !vkey_is::<W>(k)(#[trigger] t[j]) by {
                assert(!key_is::<V>(k)(s[j]));
            }
            lemma_first_index_none(t, vkey_is::<W>(k));
        },
    }
}

/// Storing into a keyed list and taking its view commute.
pub proof fn lemma_upsert_view<V, W>(s: Seq<(String, V)>, f: spec_fn(V) -> W, k: String, v: V)
    ensures
        keyed_view(upsert(s, k, v), f) == vupsert(keyed_view(s, f), k@, f(v)),
{
    lemma_key_pos_view(s, f, k@);
    lemma_first_index_found(s, key_is::<V>(k@));
    match key_pos(s, k@) {
        Some(i) => {
            assert(keyed_view(upsert(s, k, v), f) =~= keyed_view(s, f).update(i, (k@, f(v))));
        },
        None => {
            assert(keyed_view(upsert(s, k, v), f) =~= keyed_view(s, f).push((k@, f(v))));
        },
    }
}

/// The snapshot a configuration text starts from.
pub open spec fn empty_view() -> CfgView {
    CfgView {
        groups: Seq::empty(),
        servers: Seq::empty(),
        hosts: Seq::empty(),
        rules: Seq::empty(),
        meta: MetaView { addn_host: None, cache_size: 0, bind: Seq::empty(), mmdb: None, access_log: true },
        log: LogView { level: LogLevel::Info, dir: None, max_files: None, rotation: RollingRotation::Never },
    }
}

/// A file's contents as its characters.
pub open spec fn file_vals() -> spec_fn(String) -> Seq<char> {
    |c: String| c@
}

/// The provided files as values: path and contents.
pub open spec fn files_view(f: Seq<(String, String)>) -> Seq<(Seq<char>, Seq<char>)> {
    keyed_view(f, file_vals())
}

/// The contents of the first provided file with path `p`.
pub open spec fn file_of(fv: Seq<(Seq<char>, Seq<char>)>, p: Seq<char>) -> Option<Seq<char>> {
    match vkey_pos(fv, p) {
        Some(i) => Some(fv[i].1),
        None => None,
    }
}

/// The word that starts a host-file line in a hosts section: `@` and the directive.
pub open spec fn host_file_word() -> Seq<char> {
    seq!['@', 'i', 'n', 'c', 'l', 'u', 'd', 'e']
}

/// The members a list names, each as it reads.
pub open spec fn member_seq(v: Seq<char>) -> Seq<IpRange> {
    Seq::new(items_of(v).len(), |i: int| member_of(items_of(v)[i])->Ok_0)
}

/// The rules a list names, each as it reads.
pub open spec fn rule_seq(v: Seq<char>) -> Seq<((u8, Seq<char>), (bool, Seq<char>))> {
    Seq::new(items_of(v).len(), |i: int| rule_of(items_of(v)[i])->Ok_0)
}

/// What a `[group]` line does: `name member[, member...]` defines the group
/// when every member reads.
pub open spec fn group_line(cv: CfgView, line: Seq<char>) -> Option<CfgView> {
    match kv_result(line) {
        Ok((k, v, _)) => if forall|i: int| 0 <= i < items_of(v).len() ==> (#[trigger] member_of(items_of(v)[i])) is Ok {
            Some(
                CfgView {
                    groups: vupsert(cv.groups, k, member_seq(v)),
                    ..cv
                },
            )
        } else {
            None
        },
        Err(_) => None,
    }
}

/// What a `[server]` line does: `group upstream[, upstream...]` sets a known
/// group's upstreams.
pub open spec fn server_line(cv: CfgView, line: Seq<char>) -> Option<CfgView> {
    match kv_result(line) {
        Ok((k, v, _)) => if known(cv, k) {
            Some(CfgView { servers: vupsert(cv.servers, k, items_of(v)), ..cv })
        } else {
            None
        },
        Err(_) => None,
    }
}

/// What an `[ipv6_resolution]` line does: `group rule[, rule...]` sets a
/// known group's rules when every rule reads and country rules have a GeoIP
/// database.
pub open spec fn rules_line(cv: CfgView, line: Seq<char>) -> Option<CfgView> {
    match kv_result(line) {
        Ok((k, v, _)) => if known(cv, k) && forall|i: int|
            0 <= i < items_of(v).len() ==> (#[trigger] rule_of(items_of(v)[i])) is Ok && (rule_of(items_of(v)[i])->Ok_0.0.0
                == 3 ==> cv.meta.mmdb is Some) {
            Some(
                CfgView {
                    rules: vupsert(cv.rules, k, rule_seq(v)),
                    ..cv
                },
            )
        } else {
            None
        },
        Err(_) => None,
    }
}

/// What a line of a hosts section for group `sub` does: the host-file word
/// with a path appends that provided file's entries; otherwise `address name`
/// appends one entry. The group must be known.
pub open spec fn hosts_line(cv: CfgView, sub: Seq<char>, line: Seq<char>, fv: Seq<(Seq<char>, Seq<char>)>) -> Option<CfgView> {
    if !known(cv, sub) {
        None
    } else if has_prefix(trimmed(line), host_file_word()) {
        match file_of(fv, trimmed(trimmed(line).skip(8))) {
            Some(c) => match host_entries_of(lines_of(c)) {
                Some(es) => Some(CfgView { hosts: host_append(cv.hosts, sub, es), ..cv }),
                None => None,
            },
            None => None,
        }
    } else {
        match kv_result(line) {
            Ok((k, v, _)) => match ip_of(k) {
                Some(a) => if name_ok(v) {
                    Some(CfgView { hosts: host_append(cv.hosts, sub, seq![(a, v)]), ..cv })
                } else {
                    None
                },
                None => None,
            },
            Err(_) => None,
        }
    }
}

/// What a `[metadata]` line does.
pub open spec fn metadata_line(cv: CfgView, line: Seq<char>, fv: Seq<(Seq<char>, Seq<char>)>) -> Option<CfgView> {
    match kv_result(line) {
        Ok((k, v, _)) => if k == seq!['a', 'd', 'd', 'n', '-', 'h', 'o', 's', 't'] {
            match file_of(fv, v) {
                Some(c) => match host_entries_of(lines_of(c)) {
                    Some(es) => Some(
                        CfgView {
                            hosts: host_append(cv.hosts, default_name(), es),
                            meta: MetaView { addn_host: Some(v), ..cv.meta },
                            ..cv
                        },
                    ),
                    None => None,
                },
                None => None,
            }
        } else if k == seq!['c', 'a', 'c', 'h', 'e', '-', 's', 'i', 'z', 'e'] {
            match parse_unsigned(v, 10, u32::MAX as nat) {
                Some(n) => Some(CfgView { meta: MetaView { cache_size: n as usize, ..cv.meta }, ..cv }),
                None => None,
            }
        } else if k == seq!['b', 'i', 'n', 'd'] {
            Some(CfgView { meta: MetaView { bind: v, ..cv.meta }, ..cv })
        } else if k == seq!['m', 'm', 'd', 'b'] {
            Some(CfgView { meta: MetaView { mmdb: Some(v), ..cv.meta }, ..cv })
        } else if k == seq!['a', 'c', 'c', 'e', 's', 's', '_', 'l', 'o', 'g'] {
            Some(CfgView { meta: MetaView { access_log: !turns_off(v), ..cv.meta }, ..cv })
        } else {
            None
        },
        Err(_) => None,
    }
}

/// What a `[log]` line does to the log settings.
pub open spec fn log_line(lv: LogView, line: Seq<char>) -> Option<LogView> {
    match kv_result(line) {
        Ok((k, v, _)) => if k == seq!['l', 'e', 'v', 'e', 'l'] {
            match level_of(v) {
                Some(l) => Some(LogView { level: l, ..lv }),
                None => None,
            }
        } else if k == seq!['d', 'i', 'r'] {
            Some(LogView { dir: Some(v), ..lv })
        } else if k == seq!['m', 'a', 'x', '-', 'f', 'i', 'l', 'e', 's'] {
            match parse_unsigned(v, 10, usize::MAX as nat) {
                Some(n) => Some(LogView { max_files: Some(n as usize), ..lv }),
                None => None,
            }
        } else if k == seq!['r', 'o', 't', 'a', 't', 'i', 'o', 'n'] {
            match rotation_of(v) {
                Some(x) => Some(LogView { rotation: x, ..lv }),
                None => None,
            }
        } else {
            None
        },
        Err(_) => None,
    }
}

/// What a setting line does under the current section (a code and name as
/// `section_of` gives them); a line outside any known section fails.
pub open spec fn apply_line(cv: CfgView, sec: Option<(u8, Seq<char>)>, l: Seq<char>, fv: Seq<(Seq<char>, Seq<char>)>) -> Option<CfgView> {
    match sec {
        None => None,
        Some((code, name)) => if code == 0 {
            group_line(cv, l)
        } else if code == 1 {
            server_line(cv, l)
        } else if code == 2 {
            hosts_line(cv, name, l, fv)
        } else if code == 3 {
            metadata_line(cv, l, fv)
        } else if code == 4 {
            rules_line(cv, l)
        } else if code == 5 {
            match log_line(cv.log, l) {
                Some(lg) => Some(CfgView { log: lg, ..cv }),
                None => None,
            }
        } else {
            None
        },
    }
}

/// The snapshot and current section after the lines `ls`, each with its
/// trailing white space removed: blank lines and `#` comments are skipped,
/// `[name]` opens a section, and every other line is a setting of the
/// current section. `None` once a line fails.
pub open spec fn config_run(ls: Seq<Seq<char>>, fv: Seq<(Seq<char>, Seq<char>)>) -> Option<(CfgView, Option<(u8, Seq<char>)>)>
    decreases ls.len(),
{
    if ls.len() == 0 {
        Some((empty_view(), None))
    } else {
        match config_run(ls.drop_last(), fv) {
            None => None,
            Some((cv, sec)) => {
                let l = trimmed_end(ls.last());
                if l.len() == 0 || l[0] == '#' {
                    Some((cv, sec))
                } else if l.len() >= usize::MAX - 1 {
                    None
                } else if l[0] == '[' && l.last() == ']' {
                    Some((cv, Some(section_of(unbracketed(l)))))
                } else {
                    match apply_line(cv, sec, l, fv) {
                        Some(c2) => Some((c2, sec)),
                        None => None,
                    }
                }
            },
        }
    }
}

/// The snapshot a configuration text yields with the provided files: every
/// line must apply, and the default group must have upstreams.
pub open spec fn config_of(text: Seq<char>, fv: Seq<(Seq<char>, Seq<char>)>) -> Option<CfgView> {
    match config_run(lines_of(text), fv) {
        Some((cv, _)) => if vkey_pos(cv.servers, default_name()) is Some {
            Some(cv)
        } else {
            None
        },
        None => None,
    }
}

} // verus!
