//! The configuration file's line syntax: `key value` pairs with optional
//! quotes and `#` comments, and section headers.
use crate::config::{default_name, Inner};
use crate::config::server::{items_of, split_list};
use crate::http::{trim, trim_end, trimmed};
use crate::seqs::{key_pos, upsert};
use crate::rules::{Resolution, ResolutionDirective, ResolutionPayload};
use crate::text::{lines, chars_of, has_prefix, slice_chars, split_chars, split_on, starts_with, string_of};
use vstd::prelude::*;

verus! {

/// Whether `c` is white space in Unicode's sense, as `char::is_whitespace` says.
pub uninterp spec fn white_space(c: char) -> bool;

/// Relies on `char::is_whitespace`.
#[verifier::external_body]
pub(crate) fn is_whitespace(c: char) -> (r: bool)
    ensures
        r == white_space(c),
{
    c.is_whitespace()
}

/// Why a `key value` line was refused.
#[derive(PartialEq, Eq, Structural, Clone, Copy, Debug)]
pub enum KvError {
    /// A character that a key cannot hold.
    UnexpectedChar(char),
    /// A quote was opened and not closed.
    UnmatchedQuotes,
}

/// The state of the `key value` scanner.
pub struct KvState {
    pub key: Seq<char>,
    pub value: Seq<char>,
    pub is_key: bool,
    pub gap: bool,
    pub in_quotes: bool,
    pub stopped: bool,
    pub column: nat,
    pub value_start: nat,
    pub error: Option<(char, nat)>,
}

/// Whether a key may hold `c`: ASCII letters and digits, `.`, `-`, `_`,
/// `:`, and any non-ASCII character.
pub open spec fn key_char(c: char) -> bool {
    ('a' <= c <= 'z') || ('A' <= c <= 'Z') || ('0' <= c <= '9') || c == '.' || c == '-' || c == '_' || c == ':' || (c as u32)
        >= 128
}

/// One more character of the line. Spaces after the key end it (and are
/// skipped); a quote toggles quoting and is dropped; `#` outside quotes ends
/// the line; the value takes any other character; a key refuses characters
/// outside `key_char`.
pub open spec fn kv_step(st: KvState, c: char) -> KvState {
    if st.stopped || st.error is Some {
        st
    } else {
        let col = st.column + 1;
        if c == ' ' && st.is_key {
            if st.key.len() == 0 {
                KvState { column: col, ..st }
            } else {
                KvState { column: col, is_key: false, gap: true, value_start: col + 1, ..st }
            }
        } else if c == ' ' && st.gap {
            KvState { column: col, value_start: col + 1, ..st }
        } else if c == '"' {
            KvState { column: col, gap: false, in_quotes: !st.in_quotes, ..st }
        } else if c == '#' && !st.in_quotes {
            KvState { column: col, stopped: true, ..st }
        } else if !st.is_key {
            KvState { column: col, gap: false, value: st.value.push(c), ..st }
        } else if key_char(c) {
            KvState { column: col, key: st.key.push(c), ..st }
        } else {
            KvState { column: col, error: Some((c, col)), ..st }
        }
    }
}

/// The scanner after the characters `s`, from `start`.
pub open spec fn kv_run(start: KvState, s: Seq<char>) -> KvState
    decreases s.len(),
{
    if s.len() == 0 {
        start
    } else {
        kv_step(kv_run(start, s.drop_last()), s.last())
    }
}

/// The number of white-space characters `s` starts with.
pub open spec fn leading_ws(s: Seq<char>) -> nat
    decreases s.len(),
{
    if s.len() > 0 && white_space(s[0]) {
        1 + leading_ws(s.skip(1))
    } else {
        0
    }
}

/// The scanner at the start of a line that began with `skipped` white-space characters.
pub open spec fn kv_start(skipped: nat) -> KvState {
    KvState {
        key: Seq::empty(),
        value: Seq::empty(),
        is_key: true,
        gap: false,
        in_quotes: false,
        stopped: false,
        column: skipped,
        value_start: 0,
        error: None,
    }
}

/// What a `key value` line reads as: the key, the value (trimmed) and the
/// column where the value starts; or the error and its column.
pub open spec fn kv_result(line: Seq<char>) -> Result<(Seq<char>, Seq<char>, nat), (KvError, nat)> {
    let n = leading_ws(line);
    let st = kv_run(kv_start(n), line.skip(n as int));
    match st.error {
        Some((c, col)) => Err((KvError::UnexpectedChar(c), col)),
        None => if st.in_quotes {
            Err((KvError::UnmatchedQuotes, st.column))
        } else {
            Ok((st.key, trimmed(st.value), st.value_start))
        },
    }
}

/// Reads a `key value` line: leading white space is skipped; the key runs
/// to the first space; the value is the rest, without quotes, up to a `#`
/// outside quotes, trimmed. Columns count characters from 1.
pub fn parse_key_value_pair(line: &str) -> (r: Result<(String, String, usize), (KvError, usize)>)
    requires
        line@.len() < usize::MAX,
    ensures
        match r {
            Ok((k, v, c)) => kv_result(line@) == Ok::<(Seq<char>, Seq<char>, nat), (KvError, nat)>((k@, v@, c as nat)),
            Err((e, c)) => kv_result(line@) == Err::<(Seq<char>, Seq<char>, nat), (KvError, nat)>((e, c as nat)),
        },
{
    let cs = chars_of(line);
    let n = cs.len();
    let mut lead: usize = 0;
    assert(line@.skip(0) =~= line@);
    while lead < n && is_whitespace(cs[lead])
        invariant
            lead <= n,
            n == cs@.len(),
            cs@ == line@,
            leading_ws(line@) == lead + leading_ws(line@.skip(lead as int)),
        decreases n - lead,
    {
        assert(line@.skip(lead as int).skip(1) =~= line@.skip(lead + 1));
        lead = lead + 1;
    }
    assert(leading_ws(line@.skip(lead as int)) == 0);
    let mut key: Vec<char> = Vec::new();
    let mut value: Vec<char> = Vec::new();
    let mut is_key = true;
    let mut gap = false;
    let mut in_quotes = false;
    let mut column: usize = lead;
    let mut value_start: usize = 0;
    let ghost rest = line@.skip(lead as int);
    let mut i: usize = lead;
    while i < n
        invariant
            lead <= i <= n,
            n == cs@.len(),
            n < usize::MAX,
            cs@ == line@,
            rest == line@.skip(lead as int),
            leading_ws(line@) == lead,
            column == i,
            value_start <= column + 1,
            kv_run(kv_start(lead as nat), rest.take(i - lead)) == (KvState {
                key: key@,
                value: value@,
                is_key,
                gap,
                in_quotes,
                stopped: false,
                column: column as nat,
                value_start: value_start as nat,
                error: None,
            }),
        decreases n - i,
    {
        assert(rest.take(i - lead + 1).drop_last() =~= rest.take(i - lead));
        assert(rest.take(i - lead + 1).last() == cs@[i as int]);
        let c = cs[i];
        let col = column + 1;
        if c == ' ' && is_key {
            if key.len() > 0 {
                is_key = false;
                gap = true;
                value_start = col + 1;
            }
        } else if c == ' ' && gap {
            value_start = col + 1;
        } else if c == '"' {
            gap = false;
            in_quotes = !in_quotes;
        } else if c == '#' && !in_quotes {
            let ghost st = kv_run(kv_start(lead as nat), rest.take(i - lead + 1));
            assert(st.stopped && st.error is None && !st.in_quotes && st.key == key@ && st.value == value@);
            proof {
                lemma_run_stops(kv_start(lead as nat), rest, (i - lead + 1) as int);
                assert(rest.take(rest.len() as int) =~= rest);
            }
            assert(kv_run(kv_start(lead as nat), rest) == st);
            assert(kv_result(line@) == Ok::<(Seq<char>, Seq<char>, nat), (KvError, nat)>((key@, trimmed(value@), value_start as nat)));
            return Ok((string_of(key.as_slice()), trim(string_of(value.as_slice()).as_str()), value_start));
        } else if !is_key {
            gap = false;
            value.push(c);
        } else if ('a' <= c && c <= 'z') || ('A' <= c && c <= 'Z') || ('0' <= c && c <= '9') || c == '.' || c == '-'
            || c == '_' || c == ':' || (c as u32) >= 128 {
            key.push(c);
        } else {
            let ghost st = kv_run(kv_start(lead as nat), rest.take(i - lead + 1));
            assert(st.error == Some((c, col as nat)));
            proof {
                lemma_run_stops(kv_start(lead as nat), rest, (i - lead + 1) as int);
                assert(rest.take(rest.len() as int) =~= rest);
            }
            return Err((KvError::UnexpectedChar(c), col));
        }
        column = col;
        i = i + 1;
    }
    assert(rest.take(n - lead) =~= rest);
    if in_quotes {
        return Err((KvError::UnmatchedQuotes, column));
    }
    Ok((string_of(key.as_slice()), trim(string_of(value.as_slice()).as_str()), value_start))
}

proof fn lemma_run_stops(start: KvState, s: Seq<char>, k: int)
    requires
        0 <= k <= s.len(),
        kv_run(start, s.take(k)).stopped || kv_run(start, s.take(k)).error is Some,
    ensures
        kv_run(start, s) == kv_run(start, s.take(k)),
    decreases s.len() - k,
{
    if k < s.len() {
        assert(s.take(k + 1).drop_last() =~= s.take(k));
        lemma_run_stops(start, s, k + 1);
    } else {
        assert(s.take(k) =~= s);
    }
}

/// A configuration section.
#[derive(PartialEq, Eq, Clone, Debug)]
pub enum Section {
    Group,
    Server,
    Host(String),
    Metadata,
    IPv6Resolution,
    Log,
    Unknown(String),
}

/// The section a header names: the part before the first dot selects it,
/// and `hosts.<group>` names a group's host table (`hosts` alone is the
/// default group's).
pub open spec fn section_of(name: Seq<char>) -> (u8, Seq<char>) {
    let parts = split_on(name, '.');
    let head = parts[0];
    if head == seq!['g', 'r', 'o', 'u', 'p'] {
        (0, Seq::empty())
    } else if head == seq!['s', 'e', 'r', 'v', 'e', 'r'] {
        (1, Seq::empty())
    } else if head == seq!['h', 'o', 's', 't', 's'] {
        (2, if parts.len() > 1 { parts[1] } else { seq!['d', 'e', 'f', 'a', 'u', 'l', 't'] })
    } else if head == seq!['m', 'e', 't', 'a', 'd', 'a', 't', 'a'] {
        (3, Seq::empty())
    } else if head == seq!['i', 'p', 'v', '6', '_', 'r', 'e', 's', 'o', 'l', 'u', 't', 'i', 'o', 'n'] {
        (4, Seq::empty())
    } else if head == seq!['l', 'o', 'g'] {
        (5, Seq::empty())
    } else {
        (6, head)
    }
}

/// A section as a code and its text.
pub open spec fn section_view(s: Section) -> (u8, Seq<char>) {
    match s {
        Section::Group => (0, Seq::empty()),
        Section::Server => (1, Seq::empty()),
        Section::Host(g) => (2, g@),
        Section::Metadata => (3, Seq::empty()),
        Section::IPv6Resolution => (4, Seq::empty()),
        Section::Log => (5, Seq::empty()),
        Section::Unknown(n) => (6, n@),
    }
}

fn chars_are(a: &Vec<char>, b: &[char]) -> (r: bool)
    ensures
        r == (a@ == b@),
{
    if a.len() != b.len() {
        return false;
    }
    let mut i: usize = 0;
    while i < a.len()
        invariant
            a@.len() == b@.len(),
            i <= a@.len(),
            forall|j: int| 0 <= j < i ==> a@[j] == b@[j],
        decreases a@.len() - i,
    {
        if a[i] != b[i] {
            return false;
        }
        i = i + 1;
    }
    assert(a@ =~= b@);
    true
}

/// The section a header (without its brackets) names.
pub fn parse_section(name: &str) -> (r: Section)
    ensures
        section_view(r) == section_of(name@),
{
    let cs = chars_of(name);
    let parts = split_chars(cs.as_slice(), '.');
    let head = &parts[0];
    let group = ['g', 'r', 'o', 'u', 'p'];
    let server = ['s', 'e', 'r', 'v', 'e', 'r'];
    let hosts = ['h', 'o', 's', 't', 's'];
    let metadata = ['m', 'e', 't', 'a', 'd', 'a', 't', 'a'];
    let ipv6 = ['i', 'p', 'v', '6', '_', 'r', 'e', 's', 'o', 'l', 'u', 't', 'i', 'o', 'n'];
    let log = ['l', 'o', 'g'];
    assert(group@ =~= seq!['g', 'r', 'o', 'u', 'p']);
    assert(server@ =~= seq!['s', 'e', 'r', 'v', 'e', 'r']);
    assert(hosts@ =~= seq!['h', 'o', 's', 't', 's']);
    assert(metadata@ =~= seq!['m', 'e', 't', 'a', 'd', 'a', 't', 'a']);
    assert(ipv6@ =~= seq!['i', 'p', 'v', '6', '_', 'r', 'e', 's', 'o', 'l', 'u', 't', 'i', 'o', 'n']);
    assert(log@ =~= seq!['l', 'o', 'g']);
    if chars_are(head, group.as_slice()) {
        Section::Group
    } else if chars_are(head, server.as_slice()) {
        Section::Server
    } else if chars_are(head, hosts.as_slice()) {
        if parts.len() > 1 {
            Section::Host(string_of(parts[1].as_slice()))
        } else {
            let d = crate::config::default_group();
            Section::Host(d.to_string())
        }
    } else if chars_are(head, metadata.as_slice()) {
        Section::Metadata
    } else if chars_are(head, ipv6.as_slice()) {
        Section::IPv6Resolution
    } else if chars_are(head, log.as_slice()) {
        Section::Log
    } else {
        Section::Unknown(string_of(head.as_slice()))
    }
}

/// Why a rule was refused.
#[derive(PartialEq, Eq, Clone, Debug)]
pub enum RuleError {
    /// The text starts with none of `@allow:`, `@deny:`, `@pingable:`, `@country:`.
    Directive,
    /// A country rule is not `@country:<ISO2>/<payload>`.
    Country,
}


/// A payload as values: whether it is `ALL`, and the pattern otherwise.
pub open spec fn payload_view(p: ResolutionPayload) -> (bool, Seq<char>) {
    match p {
        ResolutionPayload::All => (true, Seq::empty()),
        ResolutionPayload::Domain(d) => (false, d@),
    }
}

/// The payload a text names: `ALL` is every domain, anything else a pattern.
pub open spec fn payload_text(s: Seq<char>) -> (bool, Seq<char>) {
    if s == seq!['A', 'L', 'L'] {
        (true, Seq::empty())
    } else {
        (false, s)
    }
}

/// A directive as values: a code (allow 0, deny 1, pingable 2, country 3) and the country.
pub open spec fn directive_view(d: ResolutionDirective) -> (u8, Seq<char>) {
    match d {
        ResolutionDirective::Allow => (0, Seq::empty()),
        ResolutionDirective::Deny => (1, Seq::empty()),
        ResolutionDirective::Pingable => (2, Seq::empty()),
        ResolutionDirective::Country(c) => (3, c@),
    }
}

/// What a rule text reads as: `@allow:<payload>`, `@deny:<payload>`,
/// `@pingable:<payload>` or `@country:<ISO2>/<payload>`.
pub open spec fn rule_of(s: Seq<char>) -> Result<((u8, Seq<char>), (bool, Seq<char>)), RuleError> {
    let allow = seq!['@', 'a', 'l', 'l', 'o', 'w', ':'];
    let deny = seq!['@', 'd', 'e', 'n', 'y', ':'];
    let ping = seq!['@', 'p', 'i', 'n', 'g', 'a', 'b', 'l', 'e', ':'];
    let country = seq!['@', 'c', 'o', 'u', 'n', 't', 'r', 'y', ':'];
    if has_prefix(s, allow) {
        Ok(((0, Seq::empty()), payload_text(s.skip(7))))
    } else if has_prefix(s, deny) {
        Ok(((1, Seq::empty()), payload_text(s.skip(6))))
    } else if has_prefix(s, ping) {
        Ok(((2, Seq::empty()), payload_text(s.skip(10))))
    } else if has_prefix(s, country) {
        let parts = split_on(s.skip(9), '/');
        if parts.len() == 2 {
            Ok(((3, parts[0]), payload_text(parts[1])))
        } else {
            Err(RuleError::Country)
        }
    } else {
        Err(RuleError::Directive)
    }
}

/// The payload a text names.
pub fn parse_payload(s: &[char]) -> (r: ResolutionPayload)
    ensures
        payload_view(r) == payload_text(s@),
{
    let all = ['A', 'L', 'L'];
    assert(all@ =~= seq!['A', 'L', 'L']);
    let v = slice_chars(s, 0, s.len());
    assert(v@ =~= s@);
    if chars_are(&v, all.as_slice()) {
        ResolutionPayload::All
    } else {
        ResolutionPayload::Domain(string_of(s))
    }
}

/// Reads one AAAA rule.
pub fn parse_resolution(text: &str) -> (r: Result<Resolution, RuleError>)
    ensures
        match r {
            Ok(rule) => rule_of(text@) == Ok::<((u8, Seq<char>), (bool, Seq<char>)), RuleError>(
                (directive_view(rule.directive), payload_view(rule.payload)),
            ),
            Err(e) => rule_of(text@) == Err::<((u8, Seq<char>), (bool, Seq<char>)), RuleError>(e),
        },
{
    let s = chars_of(text);
    let allow = ['@', 'a', 'l', 'l', 'o', 'w', ':'];
    let deny = ['@', 'd', 'e', 'n', 'y', ':'];
    let ping = ['@', 'p', 'i', 'n', 'g', 'a', 'b', 'l', 'e', ':'];
    let country = ['@', 'c', 'o', 'u', 'n', 't', 'r', 'y', ':'];
    assert(allow@ =~= seq!['@', 'a', 'l', 'l', 'o', 'w', ':']);
    assert(deny@ =~= seq!['@', 'd', 'e', 'n', 'y', ':']);
    assert(ping@ =~= seq!['@', 'p', 'i', 'n', 'g', 'a', 'b', 'l', 'e', ':']);
    assert(country@ =~= seq!['@', 'c', 'o', 'u', 'n', 't', 'r', 'y', ':']);
    let n = s.len();
    if starts_with(s.as_slice(), allow.as_slice()) {
        let rest = slice_chars(s.as_slice(), 7, n);
        assert(rest@ =~= text@.skip(7));
        Ok(Resolution { directive: ResolutionDirective::Allow, payload: parse_payload(rest.as_slice()) })
    } else if starts_with(s.as_slice(), deny.as_slice()) {
        let rest = slice_chars(s.as_slice(), 6, n);
        assert(rest@ =~= text@.skip(6));
        Ok(Resolution { directive: ResolutionDirective::Deny, payload: parse_payload(rest.as_slice()) })
    } else if starts_with(s.as_slice(), ping.as_slice()) {
        let rest = slice_chars(s.as_slice(), 10, n);
        assert(rest@ =~= text@.skip(10));
        Ok(Resolution { directive: ResolutionDirective::Pingable, payload: parse_payload(rest.as_slice()) })
    } else if starts_with(s.as_slice(), country.as_slice()) {
        let rest = slice_chars(s.as_slice(), 9, n);
        assert(rest@ =~= text@.skip(9));
        let parts = split_chars(rest.as_slice(), '/');
        if parts.len() != 2 {
            return Err(RuleError::Country);
        }
        Ok(Resolution {
            directive: ResolutionDirective::Country(string_of(parts[0].as_slice())),
            payload: parse_payload(parts[1].as_slice()),
        })
    } else {
        Err(RuleError::Directive)
    }
}

/// Why a configuration was refused.
#[derive(PartialEq, Eq, Clone, Debug)]
pub enum ConfigError {
    /// A line is not a valid `key value` pair.
    Syntax { row: usize, column: usize, error: KvError },
    /// A section header names no known section.
    UnknownSection(String),
    /// A setting stands before any section header (its row).
    MissingSection(usize),
    /// A line names a group that was not defined.
    UnknownGroup(String),
    /// An AAAA rule does not read.
    Rule(RuleError),
    /// A country rule without a GeoIP database (row and column).
    CountryWithoutGeoIp { row: usize, column: usize },
    /// A group member does not read.
    Member(crate::ip::RangeError),
    /// A host entry's address does not read.
    Address(String),
    /// A host entry's name is not a valid domain name.
    Name(String),
    /// A referenced file was not provided.
    MissingFile(String),
    /// A setting that the section does not know.
    UnknownKey(String),
    /// A setting's value does not read.
    Value(String),
    /// No upstream is defined for the default group.
    MissingDefaultServer,
}

/// Whether a rule needs the GeoIP database.
pub open spec fn is_country(r: Resolution) -> bool {
    r.directive is Country
}

/// Reads a `group rule[, rule...]` line of the `[ipv6_resolution]`
/// section: the group must be `default` or a defined one, every rule must
/// read, and country rules need the GeoIP database. The rules replace the
/// group's list.
pub fn ipv6_resolution_parse(row: usize, line: &str, inner: &mut Inner) -> (r: Result<(), ConfigError>)
    requires
        line@.len() < usize::MAX,
    ensures
        match crate::config::model::rules_line(old(inner).view(), line@) {
            Some(cv) => r is Ok && final(inner).view() == cv,
            None => r is Err,
        },
        final(inner).groups() == old(inner).groups(),
        final(inner).servers() == old(inner).servers(),
        final(inner).hosts() == old(inner).hosts(),
        final(inner).metadata == old(inner).metadata,
        final(inner).log == old(inner).log,
{
    let (key, value, col) = match parse_key_value_pair(line) {
        Ok(kv) => kv,
        Err((e, col)) => {
            return Err(ConfigError::Syntax { row, column: col, error: e });
        },
    };
    proof {
        crate::config::model::lemma_key_pos_view(inner.groups@, crate::config::model::group_vals(), key@);
    }
    if !inner.is_known_group(key.as_str()) {
        return Err(ConfigError::UnknownGroup(key));
    }
    let items = split_list(value.as_str());
    let mut rules: Vec<Resolution> = Vec::new();
    let mut i: usize = 0;
    while i < items.len()
        invariant
            items@.len() == items_of(value@).len(),
            forall|j: int| 0 <= j < items@.len() ==> #[trigger] items@[j]@ == items_of(value@)[j],
            i <= items@.len(),
            rules@.len() == i,
            *inner == *old(inner),
            kv_result(line@) matches Ok((k, v, _)) && k == key@ && v == value@,
            crate::config::model::known(old(inner).view(), key@),
            forall|j: int| 0 <= j < i ==> rule_of(items_of(value@)[j])
                == Ok::<((u8, Seq<char>), (bool, Seq<char>)), RuleError>((directive_view((#[trigger] rules@[j]).directive), payload_view(rules@[j].payload)))
                && (is_country(rules@[j]) ==> inner.metadata.mmdb is Some),
        decreases items@.len() - i,
    {
        match parse_resolution(items[i].as_str()) {
            Ok(rule) => {
                let country = match &rule.directive {
                    ResolutionDirective::Country(_) => true,
                    _ => false,
                };
                if country && inner.metadata.mmdb.is_none() {
                    assert(items@[i as int]@ == items_of(value@)[i as int]);
                    assert(rule_of(items_of(value@)[i as int])->Ok_0.0.0 == 3);
                    assert(inner.view().meta.mmdb is None);
                    assert(!(rule_of(items_of(value@)[i as int]) is Ok && (rule_of(items_of(value@)[i as int])->Ok_0.0.0 == 3
                        ==> inner.view().meta.mmdb is Some)));
                    return Err(ConfigError::CountryWithoutGeoIp { row, column: col });
                }
                rules.push(rule);
            },
            Err(e) => {
                assert(items@[i as int]@ == items_of(value@)[i as int]);
                assert(!(rule_of(items_of(value@)[i as int]) is Ok));
                return Err(ConfigError::Rule(e));
            },
        }
        i = i + 1;
    }
    assert(crate::config::model::rule_vals()(rules) =~= crate::config::model::rule_seq(value@));
    assert forall|i: int| 0 <= i < items_of(value@).len() implies (#[trigger] rule_of(items_of(value@)[i])) is Ok && (rule_of(
        items_of(value@)[i],
    )->Ok_0.0.0 == 3 ==> inner.view().meta.mmdb is Some) by {
        assert(is_country(rules@[i]) ==> inner.metadata.mmdb is Some);
    }
    inner.set_rules(key, rules);
    Ok(())
}

/// The number of bracket characters `s` starts with.
pub open spec fn lead_brackets(s: Seq<char>) -> nat
    decreases s.len(),
{
    if s.len() > 0 && (s[0] == '[' || s[0] == ']') {
        1 + lead_brackets(s.skip(1))
    } else {
        0
    }
}

/// The number of bracket characters `s` ends with.
pub open spec fn trail_brackets(s: Seq<char>) -> nat
    decreases s.len(),
{
    if s.len() > 0 && (s.last() == '[' || s.last() == ']') {
        1 + trail_brackets(s.drop_last())
    } else {
        0
    }
}

proof fn lemma_lead_brackets_bound(s: Seq<char>)
    ensures
        lead_brackets(s) <= s.len(),
    decreases s.len(),
{
    if s.len() > 0 && (s[0] == '[' || s[0] == ']') {
        lemma_lead_brackets_bound(s.skip(1));
    }
}

/// `s` without the brackets around it, as `trim_matches` on `[` and `]` gives it.
pub open spec fn unbracketed(s: Seq<char>) -> Seq<char> {
    let rest = s.skip(lead_brackets(s) as int);
    rest.take(rest.len() - trail_brackets(rest))
}

fn lead_count(s: &[char]) -> (a: usize)
    ensures
        a == lead_brackets(s@),
{
    let n = s.len();
    let mut a: usize = 0;
    assert(s@.skip(0) =~= s@);
    while a < n && (s[a] == '[' || s[a] == ']')
        invariant
            a <= n == s@.len(),
            lead_brackets(s@) == a + lead_brackets(s@.skip(a as int)),
        decreases n - a,
    {
        assert(s@.skip(a as int).skip(1) =~= s@.skip(a + 1));
        a = a + 1;
    }
    a
}

fn trail_count(s: &[char]) -> (b: usize)
    ensures
        b <= s@.len(),
        s@.len() - b == trail_brackets(s@),
{
    let mut b: usize = s.len();
    assert(s@.take(b as int) =~= s@);
    while b > 0 && (s[b - 1] == '[' || s[b - 1] == ']')
        invariant
            b <= s@.len(),
            trail_brackets(s@) == (s@.len() - b) + trail_brackets(s@.take(b as int)),
        decreases b,
    {
        assert(s@.take(b as int).drop_last() =~= s@.take(b - 1));
        b = b - 1;
    }
    b
}

/// A section header's name: the line without the brackets around it.
pub fn strip_brackets(s: &[char]) -> (r: Vec<char>)
    ensures
        r@ == unbracketed(s@),
{
    let a = lead_count(s);
    proof {
        lemma_lead_brackets_bound(s@);
    }
    let rest = crate::text::slice_chars(s, a, s.len());
    assert(rest@ =~= s@.skip(a as int));
    let b = trail_count(rest.as_slice());
    crate::text::slice_chars(rest.as_slice(), 0, b)
}

/// The current section as a code and name.
pub open spec fn section_state(s: Option<Section>) -> Option<(u8, Seq<char>)> {
    match s {
        Some(x) => Some(section_view(x)),
        None => None,
    }
}

proof fn lemma_run_fails(ls: Seq<Seq<char>>, fv: Seq<(Seq<char>, Seq<char>)>, k: int)
    requires
        0 <= k <= ls.len(),
        crate::config::model::config_run(ls.take(k), fv) is None,
    ensures
        crate::config::model::config_run(ls, fv) is None,
    decreases ls.len() - k,
{
    if k < ls.len() {
        assert(ls.take(k + 1).drop_last() =~= ls.take(k));
        lemma_run_fails(ls, fv, k + 1);
    } else {
        assert(ls.take(k) =~= ls);
    }
}

impl Inner {
    /// Reads a configuration text. Blank lines and lines starting with `#`
    /// are skipped; `[name]` starts a section; every other line belongs to
    /// the current section. Host files named in the text are taken from
    /// `files` (path and contents); one that is not there is reported as
    /// missing. The default group must have upstreams. The result is exactly
    /// the snapshot `config_of` describes, and an error exactly when it
    /// describes none.
    pub fn parse(text: &str, files: &Vec<(String, String)>) -> (r: Result<Inner, ConfigError>)
        ensures
            match crate::config::model::config_of(text@, crate::config::model::files_view(files@)) {
                Some(cv) => r matches Ok(c) && c.view() == cv && c.wf(),
                None => r is Err,
            },
    {
        let ls = lines(text);
        let ghost lv = crate::text::lines_of(text@);
        let ghost fv = crate::config::model::files_view(files@);
        let mut inner = Inner::new();
        let mut section: Option<Section> = None;
        let mut row: usize = 0;
        assert(lv.take(0) =~= Seq::<Seq<char>>::empty());
        while row < ls.len()
            invariant
                row <= ls@.len(),
                lv == crate::text::lines_of(text@),
                fv == crate::config::model::files_view(files@),
                ls@.len() == lv.len(),
                forall|j: int| 0 <= j < ls@.len() ==> #[trigger] ls@[j]@ == lv[j],
                crate::config::lists_nonempty(inner.servers()),
                crate::config::model::config_run(lv.take(row as int), fv) == Some((inner.view(), section_state(section))),
            decreases ls@.len() - row,
        {
            assert(lv.take(row + 1).drop_last() =~= lv.take(row as int));
            assert(lv.take(row + 1).last() == ls@[row as int]@);
            let line = trim_end(string_of(ls[row].as_slice()).as_str());
            let lc = chars_of(line.as_str());
            row = row + 1;
            if lc.len() == 0 || lc[0] == '#' {
                continue;
            }
            if lc.len() >= usize::MAX - 1 {
                proof {
                    lemma_run_fails(lv, fv, row as int);
                }
                return Err(ConfigError::Value(line));
            }
            if lc[0] == '[' && lc[lc.len() - 1] == ']' {
                let name = strip_brackets(lc.as_slice());
                section = Some(parse_section(string_of(name.as_slice()).as_str()));
                continue;
            }
            let ghost before = inner.view();
            match &section {
                None => {
                    proof {
                        lemma_run_fails(lv, fv, row as int);
                    }
                    return Err(ConfigError::MissingSection(row));
                },
                Some(Section::Unknown(name)) => {
                    proof {
                        lemma_run_fails(lv, fv, row as int);
                    }
                    return Err(ConfigError::UnknownSection(name.clone()));
                },
                Some(Section::Group) => {
                    let res = crate::config::group::parse(row, line.as_str(), &mut inner);
                    if res.is_err() {
                        proof {
                            lemma_run_fails(lv, fv, row as int);
                        }
                        return Err(res.unwrap_err());
                    }
                },
                Some(Section::Server) => {
                    let res = crate::config::server::parse(row, line.as_str(), &mut inner);
                    if res.is_err() {
                        proof {
                            lemma_run_fails(lv, fv, row as int);
                        }
                        return Err(res.unwrap_err());
                    }
                },
                Some(Section::Host(sub)) => {
                    let res = crate::config::hosts::parse(sub.as_str(), row, line.as_str(), &mut inner, files);
                    if res.is_err() {
                        proof {
                            lemma_run_fails(lv, fv, row as int);
                        }
                        return Err(res.unwrap_err());
                    }
                },
                Some(Section::Metadata) => {
                    let res = crate::config::metadata::parse(row, line.as_str(), &mut inner, files);
                    if res.is_err() {
                        proof {
                            lemma_run_fails(lv, fv, row as int);
                        }
                        return Err(res.unwrap_err());
                    }
                },
                Some(Section::IPv6Resolution) => {
                    let res = ipv6_resolution_parse(row, line.as_str(), &mut inner);
                    if res.is_err() {
                        proof {
                            lemma_run_fails(lv, fv, row as int);
                        }
                        return Err(res.unwrap_err());
                    }
                },
                Some(Section::Log) => {
                    let res = crate::config::log::parse(row, line.as_str(), &mut inner.log);
                    if res.is_err() {
                        proof {
                            lemma_run_fails(lv, fv, row as int);
                        }
                        return Err(res.unwrap_err());
                    }
                },
            }
        }
        assert(lv.take(ls@.len() as int) =~= lv);
        proof {
            crate::config::model::lemma_key_pos_view(inner.servers@, crate::config::model::server_vals(), default_name());
            crate::seqs::lemma_first_index_found(inner.servers(), crate::seqs::key_is::<Vec<String>>(default_name()));
        }
        match crate::seqs::find_key(&inner.servers, crate::config::default_group()) {
            Some(_) => Ok(inner),
            None => Err(ConfigError::MissingDefaultServer),
        }
    }
}

/// Reloading an unchanged configuration is idempotent: two snapshots parsed
/// from the same text and files hold the same groups, upstream lists, host
/// tables, AAAA rules, metadata and log settings.
pub proof fn lemma_reload_idempotent(a: Inner, b: Inner, text: Seq<char>, fv: Seq<(Seq<char>, Seq<char>)>)
    requires
        crate::config::model::config_of(text, fv) == Some(a.view()),
        crate::config::model::config_of(text, fv) == Some(b.view()),
    ensures
        a.view() == b.view(),
        forall|addr: crate::dns::IpAddress| a.group_of(addr) == b.group_of(addr),
{
    assert forall|addr: crate::dns::IpAddress| a.group_of(addr) == b.group_of(addr) by {
        let x = crate::dns::canonical(addr);
        let p = crate::config::group_covers(x);
        assert(a.groups().len() == b.groups().len()) by {
            assert(a.view().groups.len() == b.view().groups.len());
        }
        assert forall|j: int| 0 <= j < a.groups().len() implies p(#[trigger] a.groups()[j]) == p(b.groups()[j])
            && a.groups()[j].0@ == b.groups()[j].0@ by {
            assert(a.view().groups[j] == b.view().groups[j]);
        }
        crate::seqs::lemma_first_index_found(a.groups(), p);
        crate::seqs::lemma_first_index_found(b.groups(), p);
        match crate::seqs::first_index(a.groups(), p) {
            Some(i) => {
                assert forall|j: int| 0 <= j < i implies !p(#[trigger] b.groups()[j]) by {
                    assert(!p(a.groups()[j]));
                }
                crate::seqs::lemma_first_index_is(b.groups(), p, i);
            },
            None => {
                match crate::seqs::first_index(b.groups(), p) {
                    Some(k) => {
                        assert(p(a.groups()[k]));
                    },
                    None => {},
                }
            },
        }
    }
}

impl std::str::FromStr for ResolutionPayload {
    type Err = RuleError;

    /// `ALL` is every domain; any other text is a domain pattern.
    fn from_str(s: &str) -> Result<Self, RuleError> {
        let cs = chars_of(s);
        Ok(parse_payload(cs.as_slice()))
    }
}

impl std::str::FromStr for Resolution {
    type Err = RuleError;

    /// Reads one AAAA rule, as `parse_resolution` does.
    fn from_str(s: &str) -> Result<Self, RuleError> {
        parse_resolution(s)
    }
}

} // verus!
