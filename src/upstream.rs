//! Upstream selection and the framing used to talk to upstreams: which
//! transport a server URL names, DNS-over-TCP length prefixes, the liveness
//! probe of pooled TLS streams, and the DNS-over-HTTPS request.
use crate::http::{head_text, Request, RequestMethod, Response};
use crate::text::{chars_of, has_prefix, split_chars, split_on, starts_with, string_of, slice_chars};
use vstd::prelude::*;
use url::Url;

verus! {

/// Default port of plain DNS.
pub const DNS_PORT: u16 = 53;

/// Default port of DNS over TLS.
pub const DOT_PORT: u16 = 853;

/// Size of the buffer a UDP reply is received into.
pub const UDP_PAYLOAD_SIZE: usize = 4096;

/// How many times a pooled stream that failed its liveness probe is replaced
/// by another pooled one before giving up.
pub const MAX_PROBE_RETRIES: u32 = 3;

/// Whether `pat` occurs in `s` at `i`.
pub open spec fn occurs_at(s: Seq<char>, pat: Seq<char>, i: int) -> bool {
    0 <= i <= s.len() && has_prefix(s.skip(i), pat)
}

/// Where the first occurrence of `pat` in `s` starts.
#[verifier::opaque]
pub open spec fn first_occ(s: Seq<char>, pat: Seq<char>) -> Option<int> {
    if exists|i: int| occurs_at(s, pat, i) {
        Some(choose|i: int| occurs_at(s, pat, i) && forall|j: int| 0 <= j < i ==> !occurs_at(s, pat, j))
    } else {
        None
    }
}

proof fn lemma_first_occ_is(s: Seq<char>, pat: Seq<char>, i: int)
    requires
        occurs_at(s, pat, i),
        forall|j: int| 0 <= j < i ==> !occurs_at(s, pat, j),
    ensures
        first_occ(s, pat) == Some(i),
{
    reveal(first_occ);
    let c = choose|c: int| occurs_at(s, pat, c) && forall|j: int| 0 <= j < c ==> !occurs_at(s, pat, j);
    assert(occurs_at(s, pat, i));
    if c < i {
    } else if c > i {
    }
}

/// The position of the first occurrence of `pat` in `s`.
pub fn find_chars(s: &[char], pat: &[char]) -> (r: Option<usize>)
    ensures
        match r {
            Some(i) => first_occ(s@, pat@) == Some(i as int) && i + pat@.len() <= s@.len(),
            None => first_occ(s@, pat@) is None,
        },
{
    let n = s.len();
    let mut i: usize = 0;
    loop
        invariant
            n == s@.len(),
            i <= n,
            forall|j: int| 0 <= j < i ==> !#[trigger] occurs_at(s@, pat@, j),
        decreases n - i,
    {
        let tail = slice_chars(s, i, n);
        assert(tail@ =~= s@.skip(i as int));
        if starts_with(tail.as_slice(), pat) {
            proof {
                lemma_first_occ_is(s@, pat@, i as int);
            }
            return Some(i);
        }
        if i == n {
            reveal(first_occ);
            assert forall|j: int| !#[trigger] occurs_at(s@, pat@, j) by {
                if 0 <= j <= n as int {
                    if j < i as int {
                    }
                }
            }
            return None;
        }
        i = i + 1;
    }
}

/// The text before the first `://` (if any) and the text after it up to
/// the next `://`.
pub open spec fn split_protocol(s: Seq<char>) -> (Option<Seq<char>>, Seq<char>) {
    let sep = seq![':', '/', '/'];
    match first_occ(s, sep) {
        Some(i) => {
            let after = s.skip(i + 3);
            (
                Some(s.take(i)),
                match first_occ(after, sep) {
                    Some(k) => after.take(k),
                    None => after,
                },
            )
        },
        None => (None, s),
    }
}

/// A server string cut as `protocol://addr:port`: the protocol before the
/// first `://` (if any), then the address and optional port of the text up
/// to the next `://`.
pub open spec fn split_addr_spec(s: Seq<char>) -> (Option<Seq<char>>, Seq<char>, Option<Seq<char>>) {
    let parts = split_on(split_protocol(s).1, ':');
    (split_protocol(s).0, parts[0], if parts.len() > 1 { Some(parts[1]) } else { None })
}

fn protocol_and_rest(cs: &Vec<char>) -> (r: (Option<Vec<char>>, Vec<char>))
    ensures
        r.0 matches Some(p) ==> split_protocol(cs@).0 == Some(p@),
        r.0 is None ==> split_protocol(cs@).0 is None,
        r.1@ == split_protocol(cs@).1,
{
    let sep_arr = [':', '/', '/'];
    let sep = sep_arr.as_slice();
    assert(sep@ =~= seq![':', '/', '/']);
    let all = cs.as_slice();
    assert(all@ == cs@);
    match find_chars(all, sep) {
        Some(i) => {
            assert(i + sep@.len() <= all@.len());
            let n = cs.len();
            assert(i + 3 <= n);
            let after = slice_chars(cs.as_slice(), i + 3, n);
            assert(after@ =~= cs@.skip(i + 3));
            let rest = match find_chars(after.as_slice(), sep) {
                Some(k) => {
                    let t = slice_chars(after.as_slice(), 0, k);
                    assert(t@ =~= after@.take(k as int));
                    t
                },
                None => after,
            };
            let p = slice_chars(cs.as_slice(), 0, i);
            assert(p@ =~= cs@.take(i as int));
            (Some(p), rest)
        },
        None => (None, slice_chars(cs.as_slice(), 0, cs.len())),
    }
}

/// Cuts a server string into protocol, address and port.
pub fn split_addr(input: &str) -> (r: (Option<String>, String, Option<String>))
    ensures
        r.0 matches Some(p) ==> split_addr_spec(input@).0 == Some(p@),
        r.0 is None ==> split_addr_spec(input@).0 is None,
        r.1@ == split_addr_spec(input@).1,
        r.2 matches Some(p) ==> split_addr_spec(input@).2 == Some(p@),
        r.2 is None ==> split_addr_spec(input@).2 is None,
{
    let cs = chars_of(input);
    let (protocol, rest) = protocol_and_rest(&cs);
    assert(cs@.subrange(0, cs@.len() as int) =~= cs@);
    let parts = split_chars(rest.as_slice(), ':');
    let addr = string_of(parts[0].as_slice());
    let port = if parts.len() > 1 {
        Some(string_of(parts[1].as_slice()))
    } else {
        None
    };
    let proto = match protocol {
        Some(p) => Some(string_of(p.as_slice())),
        None => None,
    };
    (proto, addr, port)
}

/// How a query reaches an upstream, and where.
#[derive(PartialEq, Eq, Clone, Debug)]
pub enum Upstream {
    /// Plain DNS over UDP to `host:port`.
    Udp(String),
    /// DNS over TLS to the URL `tls://host:port`.
    Tls(String),
    /// DNS over HTTPS to this URL.
    Https(String),
}

/// `tls://`.
pub open spec fn tls_scheme() -> Seq<char> {
    seq!['t', 'l', 's', ':', '/', '/']
}

/// `https://`.
pub open spec fn https_scheme() -> Seq<char> {
    seq!['h', 't', 't', 'p', 's', ':', '/', '/']
}

/// `/dns-query`.
pub open spec fn dns_query_path() -> Seq<char> {
    seq!['/', 'd', 'n', 's', '-', 'q', 'u', 'e', 'r', 'y']
}

/// `addr:port`, with `default_port` when the port is absent.
pub open spec fn host_port(s: Seq<char>, default_port: Seq<char>) -> Seq<char> {
    let (_, addr, port) = split_addr_spec(s);
    addr + seq![':'] + match port {
        Some(p) => p,
        None => default_port,
    }
}

/// Whether an `https://` URL names no path.
pub open spec fn lacks_path(s: Seq<char>) -> bool {
    !s.skip(8).contains('/')
}

/// The upstream a server string names: `tls://host[:port]` is DNS over TLS
/// (port 853 by default); `https://host[/path]` is DNS over HTTPS (path
/// `/dns-query` by default); anything else is plain UDP to `host[:port]`
/// (port 53 by default).
pub open spec fn upstream_of(s: Seq<char>) -> (u8, Seq<char>) {
    if has_prefix(s, tls_scheme()) {
        (1, tls_scheme() + host_port(s, seq!['8', '5', '3']))
    } else if has_prefix(s, https_scheme()) {
        (2, if lacks_path(s) { s + dns_query_path() } else { s })
    } else {
        (0, host_port(s, seq!['5', '3']))
    }
}

/// The kind code and target of an upstream.
pub open spec fn upstream_view(u: Upstream) -> (u8, Seq<char>) {
    match u {
        Upstream::Udp(t) => (0, t@),
        Upstream::Tls(t) => (1, t@),
        Upstream::Https(t) => (2, t@),
    }
}

fn joined_host_port(server: &str, default_port: &[char]) -> (r: Vec<char>)
    ensures
        r@ == host_port(server@, default_port@),
{
    let (_, addr, port) = split_addr(server);
    let mut out = chars_of(addr.as_str());
    out.push(':');
    let mut p = match port {
        Some(p) => chars_of(p.as_str()),
        None => slice_chars(default_port, 0, default_port.len()),
    };
    assert(default_port@.subrange(0, default_port@.len() as int) =~= default_port@);
    out.append(&mut p);
    out
}

/// Chooses the transport and target for a server string.
pub fn resolve_target(server: &str) -> (r: Upstream)
    ensures
        upstream_view(r) == upstream_of(server@),
{
    let cs = chars_of(server);
    let tls = ['t', 'l', 's', ':', '/', '/'];
    let https = ['h', 't', 't', 'p', 's', ':', '/', '/'];
    assert(tls@ =~= tls_scheme());
    assert(https@ =~= https_scheme());
    if starts_with(cs.as_slice(), tls.as_slice()) {
        let mut out: Vec<char> = slice_chars(tls.as_slice(), 0, 6);
        assert(out@ =~= tls_scheme());
        let mut hp = joined_host_port(server, ['8', '5', '3'].as_slice());
        out.append(&mut hp);
        Upstream::Tls(string_of(out.as_slice()))
    } else if starts_with(cs.as_slice(), https.as_slice()) {
        let mut has_slash = false;
        let mut i: usize = 8;
        while i < cs.len()
            invariant
                8 <= i <= cs@.len(),
                cs@ == server@,
                has_slash == exists|j: int| 8 <= j < i && cs@[j] == '/',
            decreases cs@.len() - i,
        {
            if cs[i] == '/' {
                has_slash = true;
            }
            i = i + 1;
        }
        assert(has_slash == server@.skip(8).contains('/')) by {
            if has_slash {
                let j = choose|j: int| 8 <= j < cs@.len() && cs@[j] == '/';
                assert(server@.skip(8)[j - 8] == '/');
            }
            if server@.skip(8).contains('/') {
                let k = choose|k: int| 0 <= k < server@.skip(8).len() && server@.skip(8)[k] == '/';
                assert(cs@[k + 8] == '/');
            }
        }
        if has_slash {
            Upstream::Https(server.to_string())
        } else {
            let mut out = cs;
            let path = ['/', 'd', 'n', 's', '-', 'q', 'u', 'e', 'r', 'y'];
            assert(path@ =~= dns_query_path());
            let mut p = slice_chars(path.as_slice(), 0, path.len());
            out.append(&mut p);
            Upstream::Https(string_of(out.as_slice()))
        }
    } else {
        let hp = joined_host_port(server, ['5', '3'].as_slice());
        Upstream::Udp(string_of(hp.as_slice()))
    }
}

/// The 2-byte big-endian length prefix and the message after it.
pub open spec fn framed(msg: Seq<u8>) -> Seq<u8> {
    seq![(msg.len() / 256) as u8, (msg.len() % 256) as u8] + msg
}

/// Frames a DNS message for TCP: its length as 2 big-endian bytes, then the
/// message. A message longer than 65535 bytes cannot be framed.
pub fn frame_message(msg: &[u8]) -> (r: Option<Vec<u8>>)
    ensures
        match r {
            Some(b) => msg@.len() <= 0xFFFF && b@ == framed(msg@),
            None => msg@.len() > 0xFFFF,
        },
{
    let n = msg.len();
    if n > 0xFFFF {
        return None;
    }
    let mut out: Vec<u8> = Vec::new();
    out.push((n / 256) as u8);
    out.push((n % 256) as u8);
    let mut body = vstd::slice::slice_to_vec(msg);
    out.append(&mut body);
    assert(out@ =~= framed(msg@));
    Some(out)
}

/// The length a 2-byte big-endian prefix announces.
pub fn frame_length(prefix: [u8; 2]) -> (r: usize)
    ensures
        r == prefix[0] as nat * 256 + prefix[1] as nat,
{
    prefix[0] as usize * 256 + prefix[1] as usize
}

/// What a pooled stream's liveness probe observed.
#[derive(PartialEq, Eq, Structural, Clone, Copy, Debug)]
pub enum ProbeOutcome {
    /// Nothing arrived within the probe's wait, or data did: the stream is usable.
    Alive,
    /// The peer closed the stream or the read failed: the stream is dropped.
    Closed,
}

/// What to do next with the stream in hand.
#[derive(PartialEq, Eq, Structural, Clone, Copy, Debug)]
pub enum PoolAction {
    /// Send the query on it.
    Use,
    /// It came from the pool: probe it first.
    Probe,
    /// Drop it and take another one.
    TakeAnother,
    /// Drop it and fail the query.
    GiveUp,
}

/// The retry count and action after a probe.
pub open spec fn probe_step(retries: nat, o: ProbeOutcome) -> (nat, PoolAction) {
    match o {
        ProbeOutcome::Alive => (retries, PoolAction::Use),
        ProbeOutcome::Closed => if retries >= MAX_PROBE_RETRIES {
            (retries, PoolAction::GiveUp)
        } else {
            (retries + 1, PoolAction::TakeAnother)
        },
    }
}

/// The actions taken after `n` probes in a row that found the stream closed,
/// starting from `retries`.
pub open spec fn closed_run(retries: nat, n: nat) -> Seq<PoolAction>
    decreases n,
{
    if n == 0 {
        Seq::empty()
    } else {
        seq![probe_step(retries, ProbeOutcome::Closed).1] + closed_run(probe_step(retries, ProbeOutcome::Closed).0, (n - 1) as nat)
    }
}

/// The decisions around one query's stream from the TLS pool.
pub struct StreamProbe {
    retries: u32,
}

impl StreamProbe {
    /// How many closed pooled streams were replaced so far.
    pub closed spec fn retries(&self) -> nat {
        self.retries as nat
    }

    /// No stream replaced yet.
    pub fn new() -> (r: Self)
        ensures
            r.retries() == 0,
    {
        StreamProbe { retries: 0 }
    }

    /// A freshly connected stream is used at once; a pooled one is probed first.
    pub fn on_taken(&self, reused: bool) -> (r: PoolAction)
        ensures
            r == (if reused { PoolAction::Probe } else { PoolAction::Use }),
    {
        if reused {
            PoolAction::Probe
        } else {
            PoolAction::Use
        }
    }

    /// After a probe: a live stream is used; a closed one is replaced by
    /// another, until three have been replaced, when the query gives up.
    pub fn on_probe(&mut self, outcome: ProbeOutcome) -> (r: PoolAction)
        requires
            old(self).retries() <= MAX_PROBE_RETRIES,
        ensures
            (final(self).retries(), r) == probe_step(old(self).retries(), outcome),
            final(self).retries() <= MAX_PROBE_RETRIES,
    {
        match outcome {
            ProbeOutcome::Alive => PoolAction::Use,
            ProbeOutcome::Closed => if self.retries >= MAX_PROBE_RETRIES {
                PoolAction::GiveUp
            } else {
                self.retries = self.retries + 1;
                PoolAction::TakeAnother
            },
        }
    }
}

/// The liveness probe gives up after exactly three replacements: from a
/// fresh start, pooled streams that keep turning out closed are replaced
/// three times, and the fourth closed one ends the query.
pub proof fn lemma_probe_gives_up_after_three()
    ensures
        closed_run(0, 4) == seq![PoolAction::TakeAnother, PoolAction::TakeAnother, PoolAction::TakeAnother, PoolAction::GiveUp],
{
    reveal_with_fuel(closed_run, 5);
    assert(closed_run(3, 1) =~= seq![PoolAction::GiveUp]);
    assert(closed_run(2, 2) =~= seq![PoolAction::TakeAnother, PoolAction::GiveUp]);
    assert(closed_run(1, 3) =~= seq![PoolAction::TakeAnother, PoolAction::TakeAnother, PoolAction::GiveUp]);
    assert(closed_run(0, 4) =~= seq![PoolAction::TakeAnother, PoolAction::TakeAnother, PoolAction::TakeAnother, PoolAction::GiveUp]);
}

/// A plain UDP resolver's settings: the target and the receive buffer size.
pub struct Generic {
    pub target: String,
    pub udp_payload_size: usize,
}

impl Generic {
    /// A resolver for `target` with a 4 KiB receive buffer.
    pub fn new(target: &str) -> (r: Self)
        ensures
            r.target@ == target@,
            r.udp_payload_size == UDP_PAYLOAD_SIZE,
    {
        Generic { target: target.to_string(), udp_payload_size: UDP_PAYLOAD_SIZE }
    }

    /// Sets the receive buffer size.
    pub fn set_udp_payload_size(&mut self, udp_payload_size: usize)
        ensures
            final(self).udp_payload_size == udp_payload_size,
            final(self).target == old(self).target,
    {
        self.udp_payload_size = udp_payload_size;
    }
}

/// The default plain UDP resolver: its target (received into 4 KiB).
pub struct Default {
    pub target: String,
}

impl Default {
    /// A resolver for `target`.
    pub fn new(target: &str) -> (r: Self)
        ensures
            r.target@ == target@,
    {
        Default { target: target.to_string() }
    }
}

/// The body of a DNS-over-HTTPS response, which must have status 200.
pub fn doh_body(resp: Response) -> (r: Option<Vec<u8>>)
    ensures
        match r {
            Some(b) => resp.status_code == 200 && b == resp.body,
            None => resp.status_code != 200,
        },
{
    if resp.status_code != 200 {
        None
    } else {
        Some(resp.body)
    }
}

/// What a URL parser found in a URL: host, port (the scheme's default when
/// none is written) and path.
#[derive(PartialEq, Eq, Clone, Debug)]
pub struct UrlParts {
    pub host: Option<String>,
    pub port: Option<u16>,
    pub path: String,
}

/// The parts of the URL written `s`, when it parses.
pub uninterp spec fn url_parts(s: Seq<char>) -> Option<UrlParts>;

/// Relies on `url::Url::parse`, `Url::host_str`, `Url::port_or_known_default` and `Url::path`.
#[verifier::external_body]
pub(crate) fn parse_url(s: &str) -> (r: Option<UrlParts>)
    ensures
        r == url_parts(s@),
{
    let u = Url::parse(s).ok()?;
    Some(UrlParts { host: u.host_str().map(|h| h.to_string()), port: u.port_or_known_default(), path: u.path().to_string() })
}

/// The decimal digits of `n`.
pub open spec fn dec_text(n: nat) -> Seq<char>
    decreases n,
{
    if n < 10 {
        seq![('0' as u8 + n) as char]
    } else {
        dec_text(n / 10) + seq![('0' as u8 + n % 10) as char]
    }
}

/// The decimal digits of `n`.
pub fn decimal(n: usize) -> (r: Vec<char>)
    ensures
        r@ == dec_text(n as nat),
    decreases n,
{
    let d = ((n % 10) as u8 + '0' as u8) as char;
    if n < 10 {
        let r = vec![d];
        assert(r@ =~= dec_text(n as nat));
        r
    } else {
        let mut r = decimal(n / 10);
        r.push(d);
        assert(r@ =~= dec_text(n as nat));
        r
    }
}

/// The head of a DNS-over-HTTPS request for `path` on `host` with a body of
/// `len` bytes.
pub open spec fn doh_head(path: Seq<char>, host: Seq<char>, len: nat) -> Seq<char> {
    seq!['G', 'E', 'T', ' '] + path + seq![' ', 'H', 'T', 'T', 'P', '/', '1', '.', '1', '\r', '\n']
        + seq!['a', 'c', 'c', 'e', 'p', 't', ':', ' ', '*', '/', '*', '\r', '\n']
        + seq!['c', 'o', 'n', 't', 'e', 'n', 't', '-', 't', 'y', 'p', 'e', ':', ' ']
        + seq!['a', 'p', 'p', 'l', 'i', 'c', 'a', 't', 'i', 'o', 'n', '/', 'd', 'n', 's', '-', 'm', 'e', 's', 's', 'a', 'g', 'e', '\r', '\n']
        + seq!['h', 'o', 's', 't', ':', ' '] + host + seq!['\r', '\n']
        + seq!['c', 'o', 'n', 't', 'e', 'n', 't', '-', 'l', 'e', 'n', 'g', 't', 'h', ':', ' '] + dec_text(len) + seq!['\r', '\n']
        + seq!['\r', '\n']
}

/// The host and port to connect to for an upstream URL (the port is the
/// scheme's default when none is written).
pub fn endpoint(url: &str) -> (r: Option<(String, u16)>)
    ensures
        match r {
            Some((h, p)) => url_parts(url@) matches Some(u) && u.host == Some(h) && u.port == Some(p),
            None => !(url_parts(url@) matches Some(u) && u.host is Some && u.port is Some),
        },
{
    match parse_url(url) {
        Some(u) => match (u.host, u.port) {
            (Some(h), Some(p)) => Some((h, p)),
            _ => None,
        },
        None => None,
    }
}

/// The DNS-over-HTTPS request carrying `query` to the URL's path on its
/// host: a GET with `accept`, `content-type`, `host` and `content-length`
/// headers and the query as body. A URL that does not parse or has no host
/// gives none.
pub fn doh_request(url: &str, query: &[u8]) -> (r: Option<Vec<u8>>)
    ensures
        match r {
            Some(b) => url_parts(url@) matches Some(u) && u.host matches Some(h)
                && b@ == vstd::utf8::encode_utf8(doh_head(u.path@, h@, query@.len())) + query@,
            None => !(url_parts(url@) matches Some(u) && u.host is Some),
        },
{
    match parse_url(url) {
        Some(u) => doh_request_for(&u, query),
        None => None,
    }
}

fn doh_request_for(url: &UrlParts, query: &[u8]) -> (r: Option<Vec<u8>>)
    ensures
        match r {
            Some(b) => url.host matches Some(h) && b@ == vstd::utf8::encode_utf8(doh_head(url.path@, h@, query@.len())) + query@,
            None => url.host is None,
        },
{
    let host = match &url.host {
        Some(h) => h.clone(),
        None => {
            return None;
        },
    };
    let accept = "accept";
    let any = "*/*";
    let ctype = "content-type";
    let dns = "application/dns-message";
    let host_name = "host";
    let clen = "content-length";
    proof {
        reveal_strlit("accept");
        reveal_strlit("*/*");
        reveal_strlit("content-type");
        reveal_strlit("application/dns-message");
        reveal_strlit("host");
        reveal_strlit("content-length");
    }
    let len_text = string_of(decimal(query.len()).as_slice());
    let mut headers: Vec<(String, String)> = Vec::new();
    headers.push((accept.to_string(), any.to_string()));
    headers.push((ctype.to_string(), dns.to_string()));
    headers.push((host_name.to_string(), host));
    headers.push((clen.to_string(), len_text));
    let req = Request {
        method: RequestMethod::Get,
        headers,
        path: url.path.clone(),
        body: Some(vstd::slice::slice_to_vec(query)),
    };
    proof {
        let h = req.headers@;
        reveal_with_fuel(crate::http::header_lines, 5);
        assert(h.drop_last().drop_last().drop_last().drop_last() =~= Seq::<(String, String)>::empty());
        assert(head_text(req) =~= doh_head(url.path@, url.host->0@, query@.len()));
    }
    Some(req.as_bytes())
}

} // verus!
