use pomelo::config::{Inner, IpRange};
use pomelo::dns::IpAddress;
use pomelo::parse::{parse_resolution, RuleError};
use pomelo::rules::{country_allows, decide, verdict, Check, Resolution, ResolutionDirective, ResolutionPayload};
use std::str::FromStr;

#[test]
fn case_1() {
    let resolution = Resolution {
        directive: ResolutionDirective::Allow,
        payload: ResolutionPayload::from_str(".example.com").unwrap(),
    };
    assert!(resolution.payload_match("example.com"));
    assert!(resolution.payload_match("abc.example.com"));
    assert!(resolution.payload_match("www.abc.example.com"));

    let resolution = Resolution {
        directive: ResolutionDirective::Allow,
        payload: ResolutionPayload::from_str("*.example.com").unwrap(),
    };
    assert!(!resolution.payload_match("example.com"));
    assert!(resolution.payload_match("abc.example.com"));
    assert!(resolution.payload_match("www.abc.example.com"));
}

#[test]
fn exact_payload_ignores_case() {
    let r = Resolution::new(ResolutionDirective::Deny, ResolutionPayload::Domain("Example.COM".to_string()));
    assert!(r.payload_match("example.com"));
    assert!(!r.payload_match("www.example.com"));
    let all = Resolution::new(ResolutionDirective::Deny, ResolutionPayload::All);
    assert!(all.payload_match("anything.at.all."));
}

#[test]
fn suffix_does_not_match_other_domain() {
    let r = Resolution::new(ResolutionDirective::Allow, ResolutionPayload::from_str(".example.com").unwrap());
    assert!(!r.payload_match("example.org"));
    assert!(!r.payload_match("notexample.com"));
}

#[test]
fn first_matching_rule_decides() {
    let rules = vec![
        Resolution::new(ResolutionDirective::Deny, ResolutionPayload::Domain("other.com".to_string())),
        Resolution::new(ResolutionDirective::Pingable, ResolutionPayload::from_str(".example.com").unwrap()),
        Resolution::new(ResolutionDirective::Deny, ResolutionPayload::All),
    ];
    assert_eq!(decide(&rules, "www.example.com"), Check::Ping);
    assert_eq!(decide(&rules, "other.com"), Check::Decided(false));
    assert_eq!(decide(&rules, "elsewhere.net"), Check::Decided(false));
    let none: Vec<Resolution> = vec![Resolution::new(ResolutionDirective::Deny, ResolutionPayload::Domain("x.org".to_string()))];
    assert_eq!(decide(&none, "example.com"), Check::Decided(true));
}

#[test]
fn verdicts_follow_checks() {
    assert!(verdict(&Check::Decided(true), false, &None));
    assert!(!verdict(&Check::Decided(false), true, &None));
    assert!(verdict(&Check::Ping, true, &None));
    assert!(!verdict(&Check::Ping, false, &None));
    let us = Check::Country("US".to_string());
    assert!(verdict(&us, false, &Some("US".to_string())));
    assert!(!verdict(&us, true, &Some("CN".to_string())));
    assert!(!verdict(&us, true, &None));
    assert!(!country_allows(&"US".to_string(), &None));
}

#[test]
fn rule_texts_parse() {
    let r = parse_resolution("@country:US/ALL").unwrap();
    assert_eq!(r.directive, ResolutionDirective::Country("US".to_string()));
    assert_eq!(r.payload, ResolutionPayload::All);
    let r = parse_resolution("@pingable:.example.com").unwrap();
    assert_eq!(r.directive, ResolutionDirective::Pingable);
    assert_eq!(r.payload, ResolutionPayload::Domain(".example.com".to_string()));
    let r = Resolution::from_str("@deny:*.ads.net").unwrap();
    assert_eq!(r.directive, ResolutionDirective::Deny);
    assert_eq!(parse_resolution("@country:US"), Err(RuleError::Country));
    assert_eq!(parse_resolution("@block:ALL"), Err(RuleError::Directive));
}

#[test]
fn group_rules_come_before_default_rules() {
    let mut cfg = Inner::new();
    cfg.set_group("office".to_string(), vec![IpRange::Single(IpAddress::V4(0x0a000001))]);
    cfg.set_rules("office".to_string(), vec![Resolution::new(ResolutionDirective::Allow, ResolutionPayload::from_str(".example.com").unwrap())]);
    cfg.set_rules("default".to_string(), vec![Resolution::new(ResolutionDirective::Deny, ResolutionPayload::All)]);
    assert_eq!(cfg.ipv6_check("office", "www.example.com"), Check::Decided(true));
    assert_eq!(cfg.ipv6_check("office", "www.other.com"), Check::Decided(false));
    assert_eq!(cfg.ipv6_check("default", "www.example.com"), Check::Decided(false));
    assert!(!cfg.is_allow_ipv6("default", "www.example.com", true, &None));
}

#[test]
fn rule_verdicts() {
    let country = Resolution::from_str("@country:US/ALL").unwrap();
    assert!(country.check_is_allow(false, &Some("US".to_string())));
    assert!(!country.check_is_allow(true, &Some("CN".to_string())));
    let ping = Resolution::from_str("@pingable:ALL").unwrap();
    assert!(ping.check_is_allow(true, &None));
    assert!(!ping.check_is_allow(false, &None));
    assert!(Resolution::from_str("@allow:ALL").unwrap().check_is_allow(false, &None));
}
