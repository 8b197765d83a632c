use hickory_proto::op::{Message, MessageType, Query};
use hickory_proto::rr::rdata::{A, AAAA, PTR};
use hickory_proto::rr::{Name, RData, Record, RecordType};
use hickory_proto::serialize::binary::BinDecodable;
use pomelo::cache::{Cache, PingCache};
use pomelo::config::{Inner, IpRange};
use pomelo::dns::IpAddress;
use pomelo::handler::{kept_indices, Filtering, Handler, Outcome};
use pomelo::rules::{verdict, Check, Resolution, ResolutionDirective, ResolutionPayload};
use pomelo::upstream::{resolve_target, Upstream};
use std::str::FromStr;

fn request(name: &str, rtype: RecordType) -> Vec<u8> {
    let mut m = Message::new();
    m.set_id(42);
    m.set_recursion_desired(true);
    m.add_query(Query::query(Name::from_ascii(name).unwrap(), rtype));
    m.to_vec().unwrap()
}

fn reply(name: &str, rtype: RecordType, answers: Vec<RData>) -> Vec<u8> {
    let mut m = Message::new();
    m.set_id(42);
    m.set_message_type(MessageType::Response);
    m.add_query(Query::query(Name::from_ascii(name).unwrap(), rtype));
    for data in answers {
        m.add_answer(Record::from_rdata(Name::from_ascii(name).unwrap(), 300, data));
    }
    m.to_vec().unwrap()
}

fn base_config() -> Inner {
    let mut cfg = Inner::new();
    cfg.set_servers("default".to_string(), vec!["1.1.1.1".to_string()]);
    cfg.add_host("default".to_string(), IpAddress::V4(0x0a000001), "router.lan.".to_string());
    cfg
}

#[test]
fn host_override_a() {
    let cfg = base_config();
    let mut cache = Cache::with_capacity(0);
    let h = Handler::new("udp".to_string(), cfg.attribute_group(IpAddress::V4(0x7f000001)));
    let out = h.handle(&cfg, &mut cache, &request("router.lan.", RecordType::A), 1000);
    let bytes = match out {
        Outcome::Reply(b) => b,
        _ => panic!("expected a local answer"),
    };
    let m = Message::from_bytes(&bytes).unwrap();
    assert_eq!(m.message_type(), MessageType::Response);
    assert_eq!(m.id(), 42);
    assert_eq!(m.answers().len(), 1);
    assert_eq!(m.answers()[0].ttl(), 1);
    assert_eq!(m.answers()[0].data(), Some(&RData::A(A::new(10, 0, 0, 1))));
}

#[test]
fn host_override_aaaa_needs_ipv6_entry() {
    let cfg = base_config();
    let mut cache = Cache::with_capacity(0);
    let h = Handler::new("udp".to_string(), "default".to_string());
    match h.handle(&cfg, &mut cache, &request("router.lan.", RecordType::AAAA), 1000) {
        Outcome::Forward(s) => assert_eq!(s, "1.1.1.1"),
        _ => panic!("an IPv4 override gives no AAAA answer"),
    }
}

#[test]
fn ptr_override() {
    let cfg = base_config();
    let mut cache = Cache::with_capacity(0);
    let h = Handler::new("udp".to_string(), "default".to_string());
    let out = h.handle(&cfg, &mut cache, &request("1.0.0.10.in-addr.arpa.", RecordType::PTR), 1000);
    let bytes = match out {
        Outcome::Reply(b) => b,
        _ => panic!("expected a local PTR answer"),
    };
    let m = Message::from_bytes(&bytes).unwrap();
    assert_eq!(m.answers().len(), 1);
    assert_eq!(m.answers()[0].data(), Some(&RData::PTR(PTR(Name::from_ascii("router.lan.").unwrap()))));
}

#[test]
fn undecodable_request_is_dropped() {
    let cfg = base_config();
    let mut cache = Cache::with_capacity(16);
    let h = Handler::new("tcp".to_string(), "default".to_string());
    assert!(matches!(h.handle(&cfg, &mut cache, &[1, 2, 3], 0), Outcome::Drop));
}

#[test]
fn group_routing() {
    let mut cfg = Inner::new();
    let members = pomelo::config::group::parse_ip_range("192.168.1.0/24").unwrap();
    cfg.set_group("office".to_string(), members);
    cfg.set_servers("default".to_string(), vec!["1.1.1.1".to_string()]);
    cfg.set_servers("office".to_string(), vec!["tls://8.8.8.8:853".to_string()]);
    let mut cache = Cache::with_capacity(0);

    let office = cfg.attribute_group(IpAddress::V4(0xc0a80105));
    assert_eq!(office, "office");
    let h = Handler::new("udp".to_string(), office);
    let server = match h.handle(&cfg, &mut cache, &request("example.com.", RecordType::A), 0) {
        Outcome::Forward(s) => s,
        _ => panic!("expected forwarding"),
    };
    assert_eq!(resolve_target(&server), Upstream::Tls("tls://8.8.8.8:853".to_string()));

    let other = cfg.attribute_group(IpAddress::V4(0x0a000009));
    assert_eq!(other, "default");
    let h = Handler::new("udp".to_string(), other);
    let server = match h.handle(&cfg, &mut cache, &request("example.com.", RecordType::A), 0) {
        Outcome::Forward(s) => s,
        _ => panic!("expected forwarding"),
    };
    assert_eq!(resolve_target(&server), Upstream::Udp("1.1.1.1:53".to_string()));
}

#[test]
fn aaaa_country_filter() {
    let mut cfg = base_config();
    cfg.metadata.mmdb = Some("geo.mmdb".to_string());
    cfg.set_rules("default".to_string(), vec![Resolution::from_str("@country:US/ALL").unwrap()]);
    let mut cache = Cache::with_capacity(0);
    let h = Handler::new("udp".to_string(), "default".to_string());
    let req = request("example.com.", RecordType::AAAA);
    let up = reply(
        "example.com.",
        RecordType::AAAA,
        vec![
            RData::AAAA(AAAA::new(0x2001, 0xdb8, 0, 0, 0, 0, 0, 0x10)),
            RData::AAAA(AAAA::new(0x2001, 0xdb8, 0, 0, 0, 0, 0, 0x20)),
        ],
    );
    let (answers, checks) = match h.after_upstream(&cfg, &mut cache, &req, &up, 0) {
        Filtering::Check(a, c) => (a, c),
        _ => panic!("AAAA answers are checked"),
    };
    assert_eq!(answers.len(), 2);
    let countries = [Some("US".to_string()), Some("CN".to_string())];
    let allows: Vec<bool> = checks
        .iter()
        .zip(countries.iter())
        .map(|(c, country)| match c {
            Some(check) => verdict(check, false, country),
            None => true,
        })
        .collect();
    assert_eq!(allows, vec![true, false]);
    let out = h.complete(&mut cache, &up, &allows, 0).unwrap();
    let m = Message::from_bytes(&out).unwrap();
    assert_eq!(m.answers().len(), 1);
    assert_eq!(m.answers()[0].data(), Some(&RData::AAAA(AAAA::new(0x2001, 0xdb8, 0, 0, 0, 0, 0, 0x10))));
}

#[test]
fn aaaa_pingable_filter() {
    let mut cfg = base_config();
    cfg.set_rules("default".to_string(), vec![Resolution::from_str("@pingable:.example.com").unwrap()]);
    let mut cache = Cache::with_capacity(0);
    let mut pings = PingCache::new();
    let h = Handler::new("udp".to_string(), "default".to_string());
    let req = request("example.com.", RecordType::AAAA);
    let up = reply("example.com.", RecordType::AAAA, vec![RData::AAAA(AAAA::new(0x2001, 0xdb8, 0, 0, 0, 0, 0, 1))]);
    let checks = match h.after_upstream(&cfg, &mut cache, &req, &up, 0) {
        Filtering::Check(_, c) => c,
        _ => panic!("AAAA answers are checked"),
    };
    assert_eq!(checks, vec![Some(Check::Ping)]);
    let addr = IpAddress::V6(0x2001_0db8_0000_0000_0000_0000_0000_0001);
    assert_eq!(pings.lookup(addr), None);
    pings.record(addr, false);
    let allows = vec![verdict(&Check::Ping, pings.lookup(addr).unwrap(), &None)];
    let out = h.complete(&mut cache, &up, &allows, 0).unwrap();
    let m = Message::from_bytes(&out).unwrap();
    assert_eq!(m.answers().len(), 0);
    assert_eq!(pings.lookup(addr), Some(false));
}

#[test]
fn cache_hit_after_forward() {
    let cfg = base_config();
    let mut cache = Cache::with_capacity(1024);
    let h = Handler::new("udp".to_string(), "default".to_string());
    let req = request("example.com.", RecordType::A);
    assert!(matches!(h.handle(&cfg, &mut cache, &req, 1000), Outcome::Forward(_)));
    let up = reply("example.com.", RecordType::A, vec![RData::A(A::new(93, 184, 216, 34))]);
    match h.after_upstream(&cfg, &mut cache, &req, &up, 1000) {
        Filtering::Deliver(b) => assert_eq!(b, up),
        _ => panic!("A replies go out as they are"),
    }
    let bytes = match h.handle(&cfg, &mut cache, &req, 1200) {
        Outcome::Reply(b) => b,
        _ => panic!("expected a cache hit"),
    };
    let m = Message::from_bytes(&bytes).unwrap();
    assert_eq!(m.answers().len(), 1);
    assert_eq!(m.answers()[0].data(), Some(&RData::A(A::new(93, 184, 216, 34))));
    assert_eq!(m.answers()[0].ttl(), 1300);
    assert!(matches!(h.handle(&cfg, &mut cache, &req, 1300), Outcome::Forward(_)));
}

#[test]
fn unfiltered_reply_is_forwarded_unchanged() {
    let cfg = base_config();
    let mut cache = Cache::with_capacity(0);
    let h = Handler::new("tcp".to_string(), "default".to_string());
    let req = request("example.com.", RecordType::AAAA);
    let up = reply("example.com.", RecordType::AAAA, vec![RData::AAAA(AAAA::new(0x2001, 0xdb8, 0, 0, 0, 0, 0, 1))]);
    let n = match h.after_upstream(&cfg, &mut cache, &req, &up, 0) {
        Filtering::Check(a, _) => a.len(),
        _ => panic!("AAAA answers are checked"),
    };
    let out = h.complete(&mut cache, &up, &vec![true; n], 0).unwrap();
    assert_eq!(out, up);
    assert_eq!(h.complete(&mut cache, &up, &vec![], 0), None);
    assert!(matches!(h.after_upstream(&cfg, &mut cache, &req, &[0u8, 1], 0), Filtering::Drop));
    assert!(matches!(h.after_upstream(&cfg, &mut cache, &[9u8], &up, 0), Filtering::Drop));
}

#[test]
fn filter_keeps_order() {
    assert_eq!(kept_indices(&vec![true, false, true, true, false]), vec![0, 2, 3]);
    assert_eq!(kept_indices(&vec![false, false]), Vec::<usize>::new());
    let mut cfg = base_config();
    cfg.set_rules("default".to_string(), vec![Resolution::new(ResolutionDirective::Allow, ResolutionPayload::All)]);
    let mut cache = Cache::with_capacity(0);
    let h = Handler::new("udp".to_string(), "default".to_string());
    let up = reply(
        "example.com.",
        RecordType::AAAA,
        vec![
            RData::AAAA(AAAA::new(0x2001, 0xdb8, 0, 0, 0, 0, 0, 1)),
            RData::AAAA(AAAA::new(0x2001, 0xdb8, 0, 0, 0, 0, 0, 2)),
            RData::AAAA(AAAA::new(0x2001, 0xdb8, 0, 0, 0, 0, 0, 3)),
        ],
    );
    let out = h.complete(&mut cache, &up, &vec![true, false, true], 0).unwrap();
    let m = Message::from_bytes(&out).unwrap();
    assert_eq!(m.answers().len(), 2);
    assert_eq!(m.answers()[0].data(), Some(&RData::AAAA(AAAA::new(0x2001, 0xdb8, 0, 0, 0, 0, 0, 1))));
    assert_eq!(m.answers()[1].data(), Some(&RData::AAAA(AAAA::new(0x2001, 0xdb8, 0, 0, 0, 0, 0, 3))));
}

#[test]
fn range_membership_is_inclusive() {
    let mut cfg = Inner::new();
    cfg.set_group("lab".to_string(), pomelo::config::group::parse_ip_range("10.0.0.1-10.0.0.3, ::1").unwrap());
    assert_eq!(cfg.attribute_group(IpAddress::V4(0x0a000003)), "lab");
    assert_eq!(cfg.attribute_group(IpAddress::V4(0x0a000004)), "default");
    assert_eq!(cfg.attribute_group(IpAddress::V6(1)), "lab");
    cfg.set_group("wide".to_string(), vec![IpRange::Range(0, u128::MAX)]);
    assert_eq!(cfg.attribute_group(IpAddress::V4(0x0a000001)), "lab");
}

#[test]
fn every_matching_override_answers() {
    let mut cfg = base_config();
    cfg.add_host("default".to_string(), IpAddress::V4(0x0a000002), "router.lan.".to_string());
    cfg.add_host("default".to_string(), IpAddress::V6(1), "router.lan.".to_string());
    let mut cache = Cache::with_capacity(0);
    let h = Handler::new("udp".to_string(), "default".to_string());
    let bytes = match h.handle(&cfg, &mut cache, &request("router.lan.", RecordType::A), 0) {
        Outcome::Reply(b) => b,
        _ => panic!("expected a local answer"),
    };
    let m = Message::from_bytes(&bytes).unwrap();
    assert_eq!(m.answers().len(), 2);
    assert_eq!(m.answers()[1].data(), Some(&RData::A(A::new(10, 0, 0, 2))));
    let bytes = match h.handle(&cfg, &mut cache, &request("router.lan.", RecordType::AAAA), 0) {
        Outcome::Reply(b) => b,
        _ => panic!("expected a local answer"),
    };
    assert_eq!(Message::from_bytes(&bytes).unwrap().answers().len(), 1);
}
