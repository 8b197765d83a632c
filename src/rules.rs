//! AAAA resolution rules: which IPv6 answers a group lets through.
use crate::text::{chars_of, has_prefix, starts_with};
use hickory_proto::rr::Name;
use vstd::prelude::*;

verus! {

/// What a matching rule does with an AAAA answer.
#[derive(PartialEq, Eq, Clone, Debug)]
pub enum ResolutionDirective {
    Allow,
    Deny,
    Pingable,
    Country(String),
}

/// Which domains a rule applies to: every domain, or a pattern that is an
/// exact name, a suffix (`.d`: `d` and its subdomains) or a wildcard (`*.d`:
/// strict subdomains of `d`).
#[derive(PartialEq, Eq, Clone, Debug)]
pub enum ResolutionPayload {
    Domain(String),
    All,
}

/// One rule: a payload that selects domains and a directive for them.
#[derive(PartialEq, Eq, Clone, Debug)]
pub struct Resolution {
    pub directive: ResolutionDirective,
    pub payload: ResolutionPayload,
}

/// Whether the names written `a` and `b` both parse and are the same name,
/// ignoring ASCII case.
pub uninterp spec fn same_name(a: Seq<char>, b: Seq<char>) -> bool;

/// Whether the names written `zone` and `name` both parse and `name` is
/// `zone` or lies below it.
pub uninterp spec fn in_zone(zone: Seq<char>, name: Seq<char>) -> bool;

/// Relies on hickory_proto's `Name::from_ascii` and `Name`'s `==`, which
/// compares labels without regard to ASCII case.
#[verifier::external_body]
pub(crate) fn names_equal(a: &str, b: &str) -> (r: bool)
    ensures
        r == same_name(a@, b@),
{
    match (Name::from_ascii(a), Name::from_ascii(b)) {
        (Ok(x), Ok(y)) => x == y,
        _ => false,
    }
}

/// Whether `s` reads as a domain name.
pub uninterp spec fn name_ok(s: Seq<char>) -> bool;

/// Relies on hickory_proto's `Name::from_ascii`: whether the text parses as a name.
#[verifier::external_body]
pub(crate) fn is_valid_name(s: &str) -> (r: bool)
    ensures
        r == name_ok(s@),
{
    Name::from_ascii(s).is_ok()
}

/// Relies on hickory_proto's `Name::from_ascii` and `Name::zone_of_case`.
#[verifier::external_body]
fn zone_contains(zone: &str, name: &str) -> (r: bool)
    ensures
        r == in_zone(zone@, name@),
{
    match (Name::from_ascii(zone), Name::from_ascii(name)) {
        (Ok(z), Ok(n)) => z.zone_of_case(&n),
        _ => false,
    }
}

/// `s` without its leading dots.
pub open spec fn trim_leading_dots(s: Seq<char>) -> Seq<char>
    decreases s.len(),
{
    if s.len() > 0 && s[0] == '.' {
        trim_leading_dots(s.skip(1))
    } else {
        s
    }
}

/// Whether a domain pattern selects `domain`.
pub open spec fn pattern_matches(p: Seq<char>, domain: Seq<char>) -> bool {
    if p.len() > 0 && p[0] == '.' {
        in_zone(trim_leading_dots(p), domain)
    } else if has_prefix(p, seq!['*', '.']) {
        in_zone(p.skip(2), domain) && !same_name(p.skip(2), domain)
    } else {
        same_name(p, domain)
    }
}

/// Whether a payload selects `domain`.
pub open spec fn payload_matches(p: ResolutionPayload, domain: Seq<char>) -> bool {
    match p {
        ResolutionPayload::All => true,
        ResolutionPayload::Domain(d) => pattern_matches(d@, domain),
    }
}

/// What deciding on an answer still needs once the first matching rule is known.
#[derive(PartialEq, Eq, Clone, Debug)]
pub enum Check {
    /// Decided: kept or dropped.
    Decided(bool),
    /// Kept if the address answers an ICMP echo.
    Ping,
    /// Kept if the address's GeoIP country is this ISO code.
    Country(String),
}

/// The check a directive calls for.
pub open spec fn check_of(d: ResolutionDirective) -> Check {
    match d {
        ResolutionDirective::Allow => Check::Decided(true),
        ResolutionDirective::Deny => Check::Decided(false),
        ResolutionDirective::Pingable => Check::Ping,
        ResolutionDirective::Country(c) => Check::Country(c),
    }
}

/// The position of the first rule of `rules` whose payload selects `domain`.
pub open spec fn first_match(rules: Seq<Resolution>, domain: Seq<char>) -> Option<int> {
    if exists|i: int| 0 <= i < rules.len() && payload_matches(rules[i].payload, domain) {
        Some(
            choose|i: int|
                0 <= i < rules.len() && payload_matches(rules[i].payload, domain) && forall|j: int|
                    0 <= j < i ==> !payload_matches(#[trigger] rules[j].payload, domain),
        )
    } else {
        None
    }
}

/// The decision of a rule list on `domain`: the first matching rule decides;
/// with none, the answer is kept.
pub open spec fn decision(rules: Seq<Resolution>, domain: Seq<char>) -> Check {
    match first_match(rules, domain) {
        Some(i) => check_of(rules[i].directive),
        None => Check::Decided(true),
    }
}

impl Resolution {
    /// A rule from its two halves.
    pub fn new(directive: ResolutionDirective, payload: ResolutionPayload) -> (r: Self)
        ensures
            r.directive == directive,
            r.payload == payload,
    {
        Resolution { directive, payload }
    }

    /// Whether this rule's payload selects `domain`.
    pub fn payload_match(&self, domain: &str) -> (r: bool)
        ensures
            r == payload_matches(self.payload, domain@),
    {
        match &self.payload {
            ResolutionPayload::All => true,
            ResolutionPayload::Domain(p) => {
                let cs = chars_of(p.as_str());
                if cs.len() > 0 && cs[0] == '.' {
                    let mut i: usize = 0;
                    assert(cs@.skip(0) =~= cs@);
                    while i < cs.len() && cs[i] == '.'
                        invariant
                            i <= cs@.len(),
                            trim_leading_dots(cs@.skip(i as int)) == trim_leading_dots(cs@),
                        decreases cs@.len() - i,
                    {
                        assert(cs@.skip(i as int).skip(1) =~= cs@.skip(i as int + 1));
                        i = i + 1;
                    }
                    assert(cs@.skip(i as int) == trim_leading_dots(cs@.skip(i as int)));
                    let zone = p.as_str().substring_char(i, cs.len());
                    assert(zone@ =~= cs@.skip(i as int));
                    zone_contains(zone, domain)
                } else {
                    let wild = ['*', '.'];
                    let is_wild = starts_with(cs.as_slice(), wild.as_slice());
                    assert(wild@ =~= seq!['*', '.']);
                    if is_wild {
                        let base = p.as_str().substring_char(2, cs.len());
                        assert(base@ =~= cs@.skip(2));
                        zone_contains(base, domain) && !names_equal(base, domain)
                    } else {
                        names_equal(p.as_str(), domain)
                    }
                }
            },
        }
    }

    /// Whether this rule lets an answer through, given whether its address
    /// answered a ping and the country GeoIP gave for it.
    pub fn check_is_allow(&self, pingable: bool, country: &Option<String>) -> (r: bool)
        ensures
            r == match check_of(self.directive) {
                Check::Decided(b) => b,
                Check::Ping => pingable,
                Check::Country(c) => country matches Some(f) && f@ == c@,
            },
    {
        let c = self.check();
        verdict(&c, pingable, country)
    }

    /// The check this rule's directive calls for.
    pub fn check(&self) -> (r: Check)
        ensures
            r == check_of(self.directive),
    {
        match &self.directive {
            ResolutionDirective::Allow => Check::Decided(true),
            ResolutionDirective::Deny => Check::Decided(false),
            ResolutionDirective::Pingable => Check::Ping,
            ResolutionDirective::Country(c) => Check::Country(c.clone()),
        }
    }
}

/// The position of the first rule of `rules` whose payload selects `domain`.
pub fn first_rule(rules: &Vec<Resolution>, domain: &str) -> (r: Option<usize>)
    ensures
        match r {
            Some(i) => i < rules@.len() && first_match(rules@, domain@) == Some(i as int),
            None => first_match(rules@, domain@) is None,
        },
{
    let mut i: usize = 0;
    while i < rules.len()
        invariant
            i <= rules@.len(),
            forall|j: int| 0 <= j < i ==> !payload_matches(#[trigger] rules@[j].payload, domain@),
        decreases rules@.len() - i,
    {
        if rules[i].payload_match(domain) {
            proof {
                lemma_first_match_decides(rules@, domain@, i as int);
            }
            return Some(i);
        }
        i = i + 1;
    }
    None
}

/// Scans `rules` in order and returns what the first rule whose payload
/// selects `domain` calls for; with no such rule, the answer is kept.
pub fn decide(rules: &Vec<Resolution>, domain: &str) -> (r: Check)
    ensures
        r == decision(rules@, domain@),
{
    let mut i: usize = 0;
    while i < rules.len()
        invariant
            i <= rules@.len(),
            forall|j: int| 0 <= j < i ==> !payload_matches(#[trigger] rules@[j].payload, domain@),
        decreases rules@.len() - i,
    {
        if rules[i].payload_match(domain) {
            let ghost k = first_match(rules@, domain@);
            assert(k == Some(i as int)) by {
                let c = choose|c: int|
                    0 <= c < rules@.len() && payload_matches(rules@[c].payload, domain@) && forall|
                        j: int,
                    | 0 <= j < c ==> !payload_matches(#[trigger] rules@[j].payload, domain@);
                assert(0 <= i < rules@.len() && payload_matches(rules@[i as int].payload, domain@));
                if c < i {
                } else if c > i {
                }
            }
            return rules[i].check();
        }
        i = i + 1;
    }
    Check::Decided(true)
}

/// The rule list decides as its first matching rule's directive, and keeps an
/// answer that no rule matches.
pub proof fn lemma_first_match_decides(rules: Seq<Resolution>, domain: Seq<char>, i: int)
    requires
        0 <= i < rules.len(),
        payload_matches(rules[i].payload, domain),
        forall|j: int| 0 <= j < i ==> !payload_matches(#[trigger] rules[j].payload, domain),
    ensures
        decision(rules, domain) == check_of(rules[i].directive),
        first_match(rules, domain) == Some(i),
{
    let c = choose|c: int|
        0 <= c < rules.len() && payload_matches(rules[c].payload, domain) && forall|j: int|
            0 <= j < c ==> !payload_matches(#[trigger] rules[j].payload, domain);
    assert(0 <= i < rules.len() && payload_matches(rules[i].payload, domain));
    if c < i {
    } else if c > i {
    }
}

/// With no rule matching, the answer is kept.
pub proof fn lemma_no_match_keeps(rules: Seq<Resolution>, domain: Seq<char>)
    requires
        forall|j: int| 0 <= j < rules.len() ==> !payload_matches(#[trigger] rules[j].payload, domain),
    ensures
        decision(rules, domain) == Check::Decided(true),
{
}

/// Whether a country check passes: the GeoIP lookup found an ISO code and it
/// is the wanted one. A missing reader or a missing answer fails it.
pub fn country_allows(wanted: &String, found: &Option<String>) -> (r: bool)
    ensures
        r == (found matches Some(c) && c@ == wanted@),
{
    match found {
        Some(c) => *c == *wanted,
        None => false,
    }
}

/// The final verdict on an answer once the outside facts are known: a decided
/// check stands, a ping check passes when the address answered, a country
/// check when the country matched.
pub fn verdict(check: &Check, pingable: bool, country: &Option<String>) -> (r: bool)
    ensures
        r == match check {
            Check::Decided(b) => *b,
            Check::Ping => pingable,
            Check::Country(c) => country matches Some(f) && f@ == c@,
        },
{
    match check {
        Check::Decided(b) => *b,
        Check::Ping => pingable,
        Check::Country(c) => country_allows(c, country),
    }
}

proof fn lemma_first_match_found(rules: Seq<Resolution>, domain: Seq<char>)
    ensures
        first_match(rules, domain) matches Some(i) ==> 0 <= i < rules.len() && payload_matches(
            rules[i].payload,
            domain,
        ) && forall|j: int| 0 <= j < i ==> !payload_matches(#[trigger] rules[j].payload, domain),
        first_match(rules, domain) is None ==> forall|j: int|
            0 <= j < rules.len() ==> !payload_matches(#[trigger] rules[j].payload, domain),
{
    if exists|i: int| 0 <= i < rules.len() && payload_matches(rules[i].payload, domain) {
        let w = choose|i: int| 0 <= i < rules.len() && payload_matches(rules[i].payload, domain);
        lemma_least_match(rules, domain, w);
    }
}

proof fn lemma_least_match(rules: Seq<Resolution>, domain: Seq<char>, w: int)
    requires
        0 <= w < rules.len(),
        payload_matches(rules[w].payload, domain),
    ensures
        exists|i: int|
            0 <= i < rules.len() && payload_matches(rules[i].payload, domain) && forall|j: int|
                0 <= j < i ==> !payload_matches(#[trigger] rules[j].payload, domain),
    decreases w,
{
    if exists|j: int| 0 <= j < w && payload_matches(rules[j].payload, domain) {
        let j = choose|j: int| 0 <= j < w && payload_matches(rules[j].payload, domain);
        lemma_least_match(rules, domain, j);
    } else {
        assert(forall|j: int| 0 <= j < w ==> !payload_matches(#[trigger] rules[j].payload, domain));
    }
}

/// Chaining two rule lists: the first list decides if one of its rules
/// matches, else the second list does.
pub proof fn lemma_decision_chain(a: Seq<Resolution>, b: Seq<Resolution>, domain: Seq<char>)
    ensures
        decision(a + b, domain) == match first_match(a, domain) {
            Some(i) => check_of(a[i].directive),
            None => decision(b, domain),
        },
{
    let ab = a + b;
    lemma_first_match_found(a, domain);
    lemma_first_match_found(b, domain);
    match first_match(a, domain) {
        Some(c) => {
            assert(ab[c] == a[c]);
            assert forall|j: int| 0 <= j < c implies !payload_matches(#[trigger] ab[j].payload, domain) by {
                assert(ab[j] == a[j]);
            }
            lemma_first_match_decides(ab, domain, c);
        },
        None => {
            match first_match(b, domain) {
                Some(c) => {
                    assert(ab[a.len() + c] == b[c]);
                    assert forall|j: int| 0 <= j < a.len() + c implies !payload_matches(
                        #[trigger] ab[j].payload,
                        domain,
                    ) by {
                        if j < a.len() {
                            assert(ab[j] == a[j]);
                        } else {
                            assert(ab[j] == b[j - a.len()]);
                        }
                    }
                    lemma_first_match_decides(ab, domain, a.len() + c);
                },
                None => {
                    assert forall|j: int| 0 <= j < ab.len() implies !payload_matches(
                        #[trigger] ab[j].payload,
                        domain,
                    ) by {
                        if j < a.len() {
                            assert(ab[j] == a[j]);
                        } else {
                            assert(ab[j] == b[j - a.len()]);
                        }
                    }
                },
            }
        },
    }
}

} // verus!
