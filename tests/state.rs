use pomelo::cache::{Cache, CachedRecord, Inner as CacheInner};
use pomelo::config::{Inner, IpRange};
use pomelo::dns::{IpAddress, Record, RecordData, TYPE_A, TYPE_AAAA};
use pomelo::ip::{parse_ip, parse_member, RangeError};
use pomelo::logs::{layer, write_messages, Log, LogLevel, LogPools, RollingRotation};
use pomelo::parse::{parse_key_value_pair, parse_section, ConfigError, KvError, Section};
use pomelo::text::chars_of;

fn rec(name: &str, rtype: u16, data: RecordData, expires: u64) -> CachedRecord {
    CachedRecord { record: Record { name: name.to_string(), rtype, ttl: 60, data }, expires }
}

#[test]
fn cache_put_then_get() {
    let mut c = CacheInner::with_capacity(4);
    let a = rec("example.com.", TYPE_A, RecordData::A(1), 500);
    c.put("example.com.".to_string(), &[a.clone()], 100);
    assert_eq!(c.get(&"example.com.".to_string(), TYPE_A, 100), Some(vec![a.clone()]));
    assert_eq!(c.get(&"example.com.".to_string(), TYPE_AAAA, 100), Some(vec![]));
    assert_eq!(c.get(&"missing.".to_string(), TYPE_A, 100), None);
}

#[test]
fn cache_drops_expired() {
    let mut c = CacheInner::with_capacity(4);
    let old = rec("x.", TYPE_A, RecordData::A(1), 150);
    let live = rec("x.", TYPE_A, RecordData::A(2), 400);
    c.put("x.".to_string(), &[old.clone(), live.clone()], 100);
    assert_eq!(c.get(&"x.".to_string(), TYPE_A, 150), Some(vec![live.clone()]));
    assert_eq!(c.get(&"x.".to_string(), TYPE_A, 400), None);
    assert_eq!(c.get(&"x.".to_string(), TYPE_A, 10), None);
    let more = rec("y.", TYPE_A, RecordData::A(3), 900);
    c.put("y.".to_string(), &[old.clone()], 100);
    c.put("y.".to_string(), &[more.clone()], 200);
    assert_eq!(c.get(&"y.".to_string(), TYPE_A, 200), Some(vec![more]));
}

#[test]
fn cache_evicts_least_recently_used() {
    let mut c = CacheInner::with_capacity(2);
    let r = |n: u32| rec("k.", TYPE_A, RecordData::A(n), 1000);
    c.put("a.".to_string(), &[r(1)], 0);
    c.put("b.".to_string(), &[r(2)], 0);
    assert!(c.get(&"a.".to_string(), TYPE_A, 0).is_some());
    c.put("c.".to_string(), &[r(3)], 0);
    assert!(c.get(&"b.".to_string(), TYPE_A, 0).is_none());
    assert!(c.get(&"a.".to_string(), TYPE_A, 0).is_some());
    assert!(c.get(&"c.".to_string(), TYPE_A, 0).is_some());
}

#[test]
fn disabled_cache() {
    let mut c = Cache::with_capacity(0);
    assert!(!c.enabled());
    assert!(c.access().is_none());
    let mut d = Cache::with_capacity(8);
    assert!(d.enabled());
    assert!(d.access().is_some());
}

#[test]
fn key_value_lines() {
    let (k, v, col) = parse_key_value_pair("  office   192.168.1.0/24 # lan").unwrap();
    assert_eq!(k, "office");
    assert_eq!(v, "192.168.1.0/24");
    assert_eq!(col, 12);
    let (k, v, _) = parse_key_value_pair("bind \"0.0.0.0:53 #x\"").unwrap();
    assert_eq!(k, "bind");
    assert_eq!(v, "0.0.0.0:53 #x");
    assert_eq!(parse_key_value_pair("a=b c"), Err((KvError::UnexpectedChar('='), 2)));
    assert_eq!(parse_key_value_pair("k \"v"), Err((KvError::UnmatchedQuotes, 4)));
}

#[test]
fn sections() {
    assert_eq!(parse_section("group"), Section::Group);
    assert_eq!(parse_section("hosts"), Section::Host("default".to_string()));
    assert_eq!(parse_section("hosts.office"), Section::Host("office".to_string()));
    assert_eq!(parse_section("ipv6_resolution"), Section::IPv6Resolution);
    assert_eq!(parse_section("log"), Section::Log);
    assert_eq!(parse_section("zones"), Section::Unknown("zones".to_string()));
}

#[test]
fn address_literals() {
    let ip = |s: &str| parse_ip(chars_of(s).as_slice());
    assert_eq!(ip("10.0.0.1"), Some(IpAddress::V4(0x0a000001)));
    assert_eq!(ip("010.0.0.1"), None);
    assert_eq!(ip("10.0.0"), None);
    assert_eq!(ip("::1"), Some(IpAddress::V6(1)));
    assert_eq!(ip("2001:db8::"), Some(IpAddress::V6(0x2001_0db8 << 96)));
    assert_eq!(ip("1:2:3:4:5:6:7:8"), Some(IpAddress::V6(0x0001_0002_0003_0004_0005_0006_0007_0008)));
    assert_eq!(ip("1::2::3"), None);
    assert_eq!(ip("12345::"), None);
}

#[test]
fn group_members() {
    let m = |s: &str| parse_member(chars_of(s).as_slice());
    assert_eq!(m("192.168.1.0/24"), Ok(IpRange::Range(0xffff_c0a8_0100, 0xffff_c0a8_01ff)));
    assert_eq!(m("10.0.0.5/32"), Ok(IpRange::Range(0xffff_0a00_0005, 0xffff_0a00_0005)));
    assert_eq!(m("0.0.0.0/0"), Ok(IpRange::Range(0xffff_0000_0000, 0xffff_ffff_ffff)));
    assert_eq!(m("2001:db8::/32"), Ok(IpRange::Range(0x2001_0db8 << 96, (0x2001_0db8 << 96) | ((1u128 << 96) - 1))));
    assert_eq!(m("10.0.0.1 - 10.0.0.9"), Ok(IpRange::Range(0xffff_0a00_0001, 0xffff_0a00_0009)));
    assert_eq!(m("10.0.0.1/33"), Err(RangeError::Prefix));
    assert_eq!(m("1-2-3"), Err(RangeError::Format));
    assert_eq!(m("nope"), Err(RangeError::Address));
}

#[test]
fn whole_configuration() {
    let text = "# test\n[group]\noffice 192.168.1.0/24\n[server]\ndefault 1.1.1.1\noffice tls://8.8.8.8:853, 9.9.9.9\n[hosts]\n10.0.0.1 router.lan.\n@include extra.hosts\n[metadata]\ncache-size 1024\nbind 127.0.0.1:5353\naccess_log off\n[log]\nlevel debug\nrotation Daily\n";
    let files = vec![("extra.hosts".to_string(), "# extra\n10.0.0.2 nas.lan\n".to_string())];
    let cfg = Inner::parse(text, &files).unwrap();
    assert_eq!(cfg.metadata.cache_size, 1024);
    assert_eq!(cfg.metadata.bind, "127.0.0.1:5353");
    assert!(!cfg.metadata.access_log);
    assert_eq!(cfg.log.level, LogLevel::Debug);
    assert_eq!(cfg.log.rotation, RollingRotation::Daily);
    assert_eq!(cfg.get_server("office"), &vec!["tls://8.8.8.8:853".to_string(), "9.9.9.9".to_string()]);
    assert_eq!(cfg.get_server("elsewhere"), &vec!["1.1.1.1".to_string()]);
    assert_eq!(cfg.get_hosts("office", "nas.lan."), vec![IpAddress::V4(0x0a000002)]);
    assert_eq!(cfg.get_hostname("default", IpAddress::V4(0x0a000001)), Some("router.lan.".to_string()));
    assert_eq!(Inner::parse(text, &vec![]).err(), Some(ConfigError::MissingFile("extra.hosts".to_string())));
    assert_eq!(Inner::parse("[server]\nx 1.1.1.1\n", &vec![]).err(), Some(ConfigError::UnknownGroup("x".to_string())));
    assert_eq!(Inner::parse("[group]\n", &vec![]).err(), Some(ConfigError::MissingDefaultServer));
    assert_eq!(Inner::parse("bind x\n", &vec![]).err(), Some(ConfigError::MissingSection(1)));
    assert_eq!(
        Inner::parse("[server]\ndefault 1.1.1.1\n[ipv6_resolution]\ndefault @country:US/ALL\n", &vec![]).err(),
        Some(ConfigError::CountryWithoutGeoIp { row: 4, column: 9 })
    );
}

#[test]
fn reload_gives_equal_snapshots() {
    let text = "[server]\ndefault 1.1.1.1\n[hosts]\n10.0.0.1 router.lan.\n";
    let a = Inner::parse(text, &vec![]).unwrap();
    let b = Inner::parse(text, &vec![]).unwrap();
    assert_eq!(a.servers, b.servers);
    assert_eq!(a.hosts, b.hosts);
    assert_eq!(a.groups, b.groups);
    assert_eq!(a.metadata, b.metadata);
}

#[test]
fn log_settings() {
    let mut log = Log { level: LogLevel::Info, dir: None, max_files: None, rotation: RollingRotation::Never };
    pomelo::config::log::parse(1, "level 5", &mut log).unwrap();
    assert_eq!(log.level, LogLevel::Trace);
    pomelo::config::log::parse(2, "max-files 7", &mut log).unwrap();
    assert_eq!(log.max_files, Some(7));
    assert!(pomelo::config::log::parse(3, "rotation yearly", &mut log).is_err());
    assert!(pomelo::config::log::parse(4, "colour on", &mut log).is_err());
    pomelo::config::log::parse(5, "level WARN", &mut log).unwrap();
    assert_eq!(log.level, LogLevel::Warn);
    assert!(pomelo::config::log::parse(6, "level loud", &mut log).is_err());
    assert_eq!(log.level, LogLevel::Warn);
}

#[test]
fn log_pools_keep_requests_together() {
    let mut pools = LogPools::new();
    pools.on_new_span(1);
    pools.on_event(1, false, "query".to_string());
    pools.on_event(2, true, "stray".to_string());
    pools.on_event(1, true, "failed\n".to_string());
    let (messages, is_error) = pools.on_close(1).unwrap();
    assert!(is_error);
    assert_eq!(write_messages(&messages), b"query\nfailed\n".to_vec());
    assert!(pools.on_close(1).is_none());
    let l = layer(false).with_file(true).with_line_number(true).with_scope(false).with_ansi(true).with_target(true);
    assert!(l.fmt_args.ansi && l.fmt_args.display_filename && l.fmt_args.display_line_number && l.fmt_args.display_target);
    assert!(!l.fmt_args.display_scope);
}

#[test]
fn host_files() {
    let entries = pomelo::config::hosts::read_hosts("# lan\n\n10.0.0.2 nas.lan\r\n::1  localhost.\n").unwrap();
    assert_eq!(
        entries,
        vec![(IpAddress::V4(0x0a000002), "nas.lan.".to_string()), (IpAddress::V6(1), "localhost.".to_string())]
    );
    assert_eq!(pomelo::config::hosts::read_hosts("10.0.0.300 bad.lan\n"), Err(ConfigError::Address("10.0.0.300".to_string())));
    assert!(pomelo::config::hosts::read_hosts("10.0.0.1 a..b\n").is_err());
}
