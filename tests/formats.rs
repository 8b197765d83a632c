use pomelo::http::{Feed, HttpError, Request, RequestMethod, ResponseParser};
use pomelo::ping::{build_echo_request, calculate_checksum, echo_id, is_icmp_echo_reply, reply_matches, SeqCounter};
use pomelo::ptr::decode_ptr;
use pomelo::dns::IpAddress;
use pomelo::upstream::{
    decimal, doh_body, doh_request, endpoint, frame_length, frame_message, resolve_target, split_addr, Generic, PoolAction,
    ProbeOutcome, StreamProbe, Upstream,
};

#[test]
fn checksum_exact_values() {
    let mut p = vec![0x45u8, 0x00, 0x00, 0x00, 0x01];
    calculate_checksum(&mut p);
    assert_eq!(p, vec![0x45, 0x00, 0xB9, 0xFF, 0x01]);
    let packet = build_echo_request(false, 0x0012, 1);
    assert_eq!(packet.len(), 40);
    assert_eq!(&packet[..8], &[0x08, 0x00, 0x4d, 0x49, 0x00, 0x12, 0x00, 0x01]);
    assert_eq!(packet[8], 0x61);
    assert_eq!(packet[39], 0x69);
    let v6 = build_echo_request(true, 0x0012, 1);
    assert_eq!(v6[0], 0x80);
    assert_eq!(echo_id(1000), 232);
    assert!(is_icmp_echo_reply(&[0x00, 0x00, 0, 0, 0x00, 0x12, 0x00, 0x01], &[0x00, 0x12, 0xff], &[0x00, 0x01, 0xff]));
}

#[test]
fn echo_reply_matching() {
    let id = [0x00, 0x12];
    let seq = [0x00, 0x01];
    let reply = [0x00, 0x00, 0xaa, 0xbb, 0x00, 0x12, 0x00, 0x01];
    assert!(is_icmp_echo_reply(&reply, &id, &seq));
    assert!(!is_icmp_echo_reply(&reply[..6], &id, &seq));
    assert!(!is_icmp_echo_reply(&[0x08, 0x00, 0, 0, 0x00, 0x12, 0x00, 0x01], &id, &seq));
    assert!(!is_icmp_echo_reply(&[0x00, 0x00, 0, 0, 0x00, 0x12, 0x00, 0x02], &id, &seq));
    let v6 = [0x81, 0x00, 0, 0, 0x00, 0x12, 0x00, 0x01];
    assert!(reply_matches(true, &v6, &id, &seq));
    let mut v4 = vec![0u8; 20];
    v4.extend_from_slice(&reply);
    assert!(reply_matches(false, &v4, &id, &seq));
    assert!(!reply_matches(false, &reply, &id, &seq));
}

#[test]
fn sequence_wraps_to_one() {
    let mut c = SeqCounter::new();
    assert_eq!(c.acc_seq(), 1);
    assert_eq!(c.acc_seq(), 2);
    let mut last = 0;
    for _ in 0..0xFFFC {
        last = c.acc_seq();
    }
    assert_eq!(last, 0xFFFE);
    assert_eq!(c.acc_seq(), 1);
}

#[test]
fn short_ptr_names_are_ignored() {
    assert_eq!(decode_ptr("0.10.in-addr.arpa."), None);
    assert_eq!(decode_ptr("1.0.0.10.example.com."), None);
    assert_eq!(decode_ptr("x.0.0.10.in-addr.arpa."), None);
    assert_eq!(decode_ptr("256.0.0.10.in-addr.arpa."), None);
    assert_eq!(decode_ptr("1.0.0.10.in-addr.arpa."), Some(IpAddress::V4(0x0a000001)));
    assert_eq!(decode_ptr("9.1.0.0.10.in-addr.arpa."), Some(IpAddress::V4(0x0a000001)));
    let v6 = "1.0.0.0.0.0.0.0.0.0.0.0.0.0.0.0.0.0.0.0.0.0.0.0.8.b.d.0.1.0.0.2.ip6.arpa.";
    assert_eq!(decode_ptr(v6), Some(IpAddress::V6(0x2001_0db8_0000_0000_0000_0000_0000_0001)));
    assert_eq!(decode_ptr("1.0.0.2.ip6.arpa."), None);
}

#[test]
fn tcp_framing() {
    let framed = frame_message(&[1, 2, 3]).unwrap();
    assert_eq!(framed, vec![0, 3, 1, 2, 3]);
    let big = vec![7u8; 300];
    let framed = frame_message(&big).unwrap();
    assert_eq!(&framed[..2], &[1, 44]);
    assert_eq!(frame_length([framed[0], framed[1]]), 300);
    assert_eq!(&framed[2..], &big[..]);
    assert_eq!(frame_message(&vec![0u8; 70000]), None);
}

#[test]
fn probe_gives_up_after_three_replacements() {
    let mut p = StreamProbe::new();
    assert_eq!(p.on_taken(false), PoolAction::Use);
    assert_eq!(p.on_taken(true), PoolAction::Probe);
    assert_eq!(p.on_probe(ProbeOutcome::Closed), PoolAction::TakeAnother);
    assert_eq!(p.on_probe(ProbeOutcome::Closed), PoolAction::TakeAnother);
    assert_eq!(p.on_probe(ProbeOutcome::Closed), PoolAction::TakeAnother);
    assert_eq!(p.on_probe(ProbeOutcome::Closed), PoolAction::GiveUp);
    let mut q = StreamProbe::new();
    assert_eq!(q.on_probe(ProbeOutcome::Alive), PoolAction::Use);
}

#[test]
fn server_strings() {
    let (proto, addr, port) = split_addr("tls://8.8.8.8:853");
    assert_eq!(proto.as_deref(), Some("tls"));
    assert_eq!(addr, "8.8.8.8");
    assert_eq!(port.as_deref(), Some("853"));
    let (proto, addr, port) = split_addr("1.1.1.1");
    assert_eq!(proto, None);
    assert_eq!(addr, "1.1.1.1");
    assert_eq!(port, None);
    assert_eq!(resolve_target("tls://dns.google"), Upstream::Tls("tls://dns.google:853".to_string()));
    assert_eq!(resolve_target("https://1.1.1.1"), Upstream::Https("https://1.1.1.1/dns-query".to_string()));
    assert_eq!(resolve_target("https://dns.example/q"), Upstream::Https("https://dns.example/q".to_string()));
    assert_eq!(resolve_target("9.9.9.9:5353"), Upstream::Udp("9.9.9.9:5353".to_string()));
    let g = Generic::new("1.1.1.1:53");
    assert_eq!(g.udp_payload_size, 4096);
    let mut g = g;
    g.set_udp_payload_size(512);
    assert_eq!(g.udp_payload_size, 512);
    assert_eq!(pomelo::upstream::Default::new("1.1.1.1:53").target, "1.1.1.1:53");
}

#[test]
fn request_bytes() {
    let mut r = Request::new();
    r.method(RequestMethod::Post).path("/dns-query").header("host", "  example.net ").body(&[9, 8]);
    let bytes = r.as_bytes();
    let mut expected = b"POST /dns-query HTTP/1.1\r\naccept: */*\r\nhost: example.net\r\n\r\n".to_vec();
    expected.extend_from_slice(&[9, 8]);
    assert_eq!(bytes, expected);
    let mut t = Request::new();
    t.header("x", " a b \t");
    assert_eq!(t.headers[1].1, "a b");
}

#[test]
fn doh_request_bytes() {
    assert_eq!(endpoint("https://1.1.1.1/dns-query"), Some(("1.1.1.1".to_string(), 443)));
    assert_eq!(endpoint("tls://1.1.1.1:853"), Some(("1.1.1.1".to_string(), 853)));
    let bytes = doh_request("https://1.1.1.1/dns-query", &[1, 2, 3]).unwrap();
    let mut expected = b"GET /dns-query HTTP/1.1\r\naccept: */*\r\ncontent-type: application/dns-message\r\nhost: 1.1.1.1\r\ncontent-length: 3\r\n\r\n".to_vec();
    expected.extend_from_slice(&[1, 2, 3]);
    assert_eq!(bytes, expected);
    assert_eq!(decimal(1234), vec!['1', '2', '3', '4']);
    assert!(endpoint("not a url").is_none());
    assert!(doh_request("not a url", &[1]).is_none());
}

fn feed_all(p: &mut ResponseParser, text: &[u8]) -> Feed {
    let mut last = Feed::More;
    for b in text {
        last = p.feed(*b);
        if last != Feed::More {
            break;
        }
    }
    last
}

#[test]
fn response_parsing() {
    let mut p = ResponseParser::new();
    let head = b"HTTP/1.1 200 OK\r\nContent-Type: application/dns-message\r\nContent-Length: 4\r\n\r\n";
    assert_eq!(feed_all(&mut p, head), Feed::HeadDone);
    assert_eq!(p.content_length(), Some(4));
    let resp = p.finish(vec![1, 2, 3, 4]).unwrap();
    assert_eq!(resp.status_code, 200);
    assert_eq!(resp.status_text, "OK");
    assert_eq!(resp.headers[0].0, "content-type");
    assert_eq!(resp.headers[0].1, "application/dns-message");
    assert_eq!(doh_body(resp), Some(vec![1, 2, 3, 4]));

    let mut p = ResponseParser::new();
    assert_eq!(feed_all(&mut p, b"HTTP/1.1 404 Not Found\r\ncontent-length: 0\r\n\r\n"), Feed::HeadDone);
    let resp = p.finish(vec![]).unwrap();
    assert_eq!(resp.status_code, 404);
    assert_eq!(doh_body(resp), None);

    let mut p = ResponseParser::new();
    assert_eq!(feed_all(&mut p, b"HTTP/2.0 200 OK\r\n"), Feed::Failed(HttpError::Version));
    let mut p = ResponseParser::new();
    assert_eq!(feed_all(&mut p, b"HTTPS/1.1 200 OK\r\n"), Feed::Failed(HttpError::Protocol));
    let mut p = ResponseParser::new();
    assert_eq!(feed_all(&mut p, b"HTTP/1.1 2x0 OK\r\n"), Feed::Failed(HttpError::StatusChar));
    let mut p = ResponseParser::new();
    assert_eq!(feed_all(&mut p, b"HTTP/1.1 200 OK\r\nx: y\r\n\r\n"), Feed::HeadDone);
    assert_eq!(p.content_length(), None);
}
