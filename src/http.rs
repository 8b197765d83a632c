//! A minimal HTTP/1.1 codec for DNS over HTTPS: a request builder and a
//! byte-at-a-time response parser.
use crate::seqs::{insert_pair, upsert};
use crate::text::{chars_of, lower, parse_unsigned, parse_unsigned_chars, string_of, to_ascii_lower};
use vstd::prelude::*;

verus! {

/// The characters `s` trimmed of leading and trailing white space, as
/// `str::trim` does.
pub uninterp spec fn trimmed(s: Seq<char>) -> Seq<char>;

/// Relies on `str::trim`: the text without leading and trailing white space.
#[verifier::external_body]
pub(crate) fn trim(s: &str) -> (r: String)
    ensures
        r@ == trimmed(s@),
{
    s.trim().to_string()
}

/// The characters `s` without trailing white space, as `str::trim_end` gives them.
pub uninterp spec fn trimmed_end(s: Seq<char>) -> Seq<char>;

/// Relies on `str::trim_end`: the text without trailing white space.
#[verifier::external_body]
pub(crate) fn trim_end(s: &str) -> (r: String)
    ensures
        r@ == trimmed_end(s@),
{
    s.trim_end().to_string()
}

/// An HTTP request method.
#[derive(PartialEq, Eq, Structural, Clone, Copy, Debug)]
pub enum RequestMethod {
    Option,
    Get,
    Post,
    Put,
    Delete,
    Head,
    Trace,
    Connect,
    Patch,
}

/// How a method is written on the request line.
pub open spec fn method_text(m: RequestMethod) -> Seq<char> {
    match m {
        RequestMethod::Option => seq!['O', 'P', 'T', 'I', 'O', 'N'],
        RequestMethod::Get => seq!['G', 'E', 'T'],
        RequestMethod::Post => seq!['P', 'O', 'S', 'T'],
        RequestMethod::Put => seq!['P', 'U', 'T'],
        RequestMethod::Delete => seq!['D', 'E', 'L', 'E', 'T', 'E'],
        RequestMethod::Head => seq!['H', 'E', 'A', 'D'],
        RequestMethod::Trace => seq!['T', 'R', 'A', 'C', 'E'],
        RequestMethod::Connect => seq!['C', 'O', 'N', 'N', 'E', 'C', 'T'],
        RequestMethod::Patch => seq!['P', 'A', 'T', 'C', 'H'],
    }
}

impl RequestMethod {
    /// How this method is written on the request line.
    pub fn to_text(&self) -> (r: Vec<char>)
        ensures
            r@ == method_text(*self),
    {
        let r = match self {
            RequestMethod::Option => vec!['O', 'P', 'T', 'I', 'O', 'N'],
            RequestMethod::Get => vec!['G', 'E', 'T'],
            RequestMethod::Post => vec!['P', 'O', 'S', 'T'],
            RequestMethod::Put => vec!['P', 'U', 'T'],
            RequestMethod::Delete => vec!['D', 'E', 'L', 'E', 'T', 'E'],
            RequestMethod::Head => vec!['H', 'E', 'A', 'D'],
            RequestMethod::Trace => vec!['T', 'R', 'A', 'C', 'E'],
            RequestMethod::Connect => vec!['C', 'O', 'N', 'N', 'E', 'C', 'T'],
            RequestMethod::Patch => vec!['P', 'A', 'T', 'C', 'H'],
        };
        assert(r@ =~= method_text(*self));
        r
    }
}

/// An HTTP/1.1 request: method, path, headers in insertion order (a name
/// set twice keeps its first place and its last value) and an optional body.
pub struct Request {
    pub method: RequestMethod,
    pub headers: Vec<(String, String)>,
    pub path: String,
    pub body: Option<Vec<u8>>,
}

/// The header lines of a request, each `name: value` and CRLF.
pub open spec fn header_lines(h: Seq<(String, String)>) -> Seq<char>
    decreases h.len(),
{
    if h.len() == 0 {
        Seq::empty()
    } else {
        header_lines(h.drop_last()) + h.last().0@ + seq![':', ' '] + h.last().1@ + seq!['\r', '\n']
    }
}

/// The request line and header block: `METHOD path HTTP/1.1`, the header
/// lines, then an empty line.
pub open spec fn head_text(r: Request) -> Seq<char> {
    method_text(r.method) + seq![' '] + r.path@ + seq![' ', 'H', 'T', 'T', 'P', '/', '1', '.', '1', '\r', '\n']
        + header_lines(r.headers@) + seq!['\r', '\n']
}

/// The bytes of a request: its head in UTF-8, then the body.
pub open spec fn request_bytes(r: Request) -> Seq<u8> {
    vstd::utf8::encode_utf8(head_text(r)) + match r.body {
        Some(b) => b@,
        None => Seq::empty(),
    }
}

fn push_chars(out: &mut Vec<char>, s: &[char])
    ensures
        final(out)@ == old(out)@ + s@,
{
    let ghost start = out@;
    let mut i: usize = 0;
    while i < s.len()
        invariant
            i <= s@.len(),
            out@ == start + s@.take(i as int),
        decreases s@.len() - i,
    {
        out.push(s[i]);
        i = i + 1;
        assert(out@ =~= start + s@.take(i as int));
    }
    assert(s@.take(s@.len() as int) =~= s@);
}

impl Request {
    /// A GET request for the empty path with `accept: */*` and no body.
    pub fn new() -> (r: Self)
        ensures
            r.method == RequestMethod::Get,
            r.path@.len() == 0,
            r.headers@.len() == 1,
            r.headers@[0].0@ == seq!['a', 'c', 'c', 'e', 'p', 't'],
            r.headers@[0].1@ == seq!['*', '/', '*'],
            r.body is None,
    {
        let name = "accept";
        let value = "*/*";
        proof {
            reveal_strlit("accept");
            reveal_strlit("*/*");
        }
        let mut headers: Vec<(String, String)> = Vec::new();
        headers.push((name.to_string(), value.to_string()));
        Request { method: RequestMethod::Get, headers, path: String::new(), body: None }
    }

    /// Sets the method.
    pub fn method(&mut self, method: RequestMethod) -> (r: &mut Self)
        ensures
            *r == (Request { method, ..*old(self) }),
            *final(self) == *final(r),
    {
        self.method = method;
        self
    }

    /// Sets the path.
    pub fn path(&mut self, path: &str) -> (r: &mut Self)
        ensures
            r.path@ == path@,
            r.method == old(self).method,
            r.headers == old(self).headers,
            r.body == old(self).body,
            *final(self) == *final(r),
    {
        self.path = path.to_string();
        self
    }

    /// Sets a header; the value is stored trimmed. A name already present
    /// keeps its place and takes the new value.
    pub fn header(&mut self, name: &str, value: &str) -> (r: &mut Self)
        ensures
            exists|k: String, v: String|
                k@ == name@ && v@ == trimmed(value@) && r.headers@ == upsert(old(self).headers@, k, v),
            r.method == old(self).method,
            r.path == old(self).path,
            r.body == old(self).body,
            *final(self) == *final(r),
    {
        let v = trim(value);
        let k = name.to_string();
        let ghost (gk, gv) = (k, v);
        insert_pair(&mut self.headers, k, v);
        assert(gk@ == name@ && gv@ == trimmed(value@) && self.headers@ == upsert(old(self).headers@, gk, gv));
        self
    }

    /// Sets the body.
    pub fn body(&mut self, bytes: &[u8]) -> (r: &mut Self)
        ensures
            r.body matches Some(b) && b@ == bytes@,
            r.method == old(self).method,
            r.path == old(self).path,
            r.headers == old(self).headers,
            *final(self) == *final(r),
    {
        self.body = Some(vstd::slice::slice_to_vec(bytes));
        self
    }

    /// The request on the wire: request line, headers, empty line, body.
    pub fn as_bytes(&self) -> (r: Vec<u8>)
        ensures
            r@ == request_bytes(*self),
    {
        let mut text: Vec<char> = self.method.to_text();
        push_chars(&mut text, [' '].as_slice());
        let path = chars_of(self.path.as_str());
        push_chars(&mut text, path.as_slice());
        let version = [' ', 'H', 'T', 'T', 'P', '/', '1', '.', '1', '\r', '\n'];
        push_chars(&mut text, version.as_slice());
        let ghost line = text@;
        let mut i: usize = 0;
        while i < self.headers.len()
            invariant
                i <= self.headers@.len(),
                text@ == line + header_lines(self.headers@.take(i as int)),
            decreases self.headers@.len() - i,
        {
            assert(self.headers@.take(i as int + 1).drop_last() =~= self.headers@.take(i as int));
            let name = chars_of(self.headers[i].0.as_str());
            let value = chars_of(self.headers[i].1.as_str());
            push_chars(&mut text, name.as_slice());
            push_chars(&mut text, [':', ' '].as_slice());
            push_chars(&mut text, value.as_slice());
            push_chars(&mut text, ['\r', '\n'].as_slice());
            i = i + 1;
            assert(text@ =~= line + header_lines(self.headers@.take(i as int)));
        }
        assert(self.headers@.take(self.headers@.len() as int) =~= self.headers@);
        push_chars(&mut text, ['\r', '\n'].as_slice());
        assert(text@ =~= head_text(*self));
        let head = string_of(text.as_slice());
        let mut out = head.as_str().as_bytes_vec();
        match &self.body {
            Some(b) => {
                let mut tail = b.clone();
                out.append(&mut tail);
            },
            None => {},
        }
        out
    }
}

/// Where the response parser stands.
#[derive(PartialEq, Eq, Structural, Clone, Copy, Debug)]
pub enum ParseState {
    Protocol,
    Version,
    StatusCode,
    StatusText,
    HeaderName,
    HeaderValue,
    Body,
    Failed,
}

/// Why a response was refused.
#[derive(PartialEq, Eq, Structural, Clone, Copy, Debug)]
pub enum HttpError {
    /// The protocol name is not `HTTP`, or holds a character other than `A`..`Z`.
    Protocol,
    /// The version is not `1.1`, or holds a character other than digits and dots.
    Version,
    /// The status code holds a character other than a digit.
    StatusChar,
    /// The stream ended before the blank line after the headers.
    Truncated,
    /// `content-length` is missing or is not a 16-bit number.
    UnknownLength,
    /// The status code is not a 16-bit number.
    Status,
}

/// What feeding one byte to the parser led to.
#[derive(PartialEq, Eq, Structural, Clone, Copy, Debug)]
pub enum Feed {
    /// More bytes are needed.
    More,
    /// The blank line after the headers was read: the body follows.
    HeadDone,
    /// The response is refused.
    Failed(HttpError),
}

/// The parser's state as values.
pub struct ParserView {
    pub state: ParseState,
    pub skip: bool,
    pub protocol: Seq<char>,
    pub version: Seq<char>,
    pub status_code: Seq<char>,
    pub status_text: Seq<char>,
    pub name: Seq<char>,
    pub value: Seq<char>,
    pub headers: Seq<(Seq<char>, Seq<char>)>,
}

/// The position of header `k`, if set.
pub open spec fn header_pos(h: Seq<(Seq<char>, Seq<char>)>, k: Seq<char>) -> Option<int> {
    crate::seqs::first_index(h, header_is(k))
}

/// Whether a header's name is `k`.
pub open spec fn header_is(k: Seq<char>) -> spec_fn((Seq<char>, Seq<char>)) -> bool {
    |e: (Seq<char>, Seq<char>)| e.0 == k
}

/// The headers after setting `k` to `v`: in place if present, else appended.
pub open spec fn set_header(h: Seq<(Seq<char>, Seq<char>)>, k: Seq<char>, v: Seq<char>) -> Seq<(Seq<char>, Seq<char>)> {
    match header_pos(h, k) {
        Some(i) => h.update(i, (k, v)),
        None => h.push((k, v)),
    }
}

/// The parser after one more character (a byte read as Latin-1). After a
/// CR the next byte (the LF) is skipped. Header names are lowercased and
/// values trimmed as they are stored.
pub open spec fn step(p: ParserView, c: char) -> ParserView {
    if p.skip {
        ParserView { skip: false, ..p }
    } else {
        match p.state {
            ParseState::Protocol => if 'A' <= c <= 'Z' {
                ParserView { protocol: p.protocol.push(c), ..p }
            } else if c == '/' && p.protocol == seq!['H', 'T', 'T', 'P'] {
                ParserView { state: ParseState::Version, ..p }
            } else {
                ParserView { state: ParseState::Failed, ..p }
            },
            ParseState::Version => if ('0' <= c <= '9') || c == '.' {
                ParserView { version: p.version.push(c), ..p }
            } else if c == ' ' && p.version == seq!['1', '.', '1'] {
                ParserView { state: ParseState::StatusCode, ..p }
            } else {
                ParserView { state: ParseState::Failed, ..p }
            },
            ParseState::StatusCode => if '0' <= c <= '9' {
                ParserView { status_code: p.status_code.push(c), ..p }
            } else if c == ' ' {
                ParserView { state: ParseState::StatusText, ..p }
            } else {
                ParserView { state: ParseState::Failed, ..p }
            },
            ParseState::StatusText => if c == '\r' {
                ParserView { state: ParseState::HeaderName, skip: true, ..p }
            } else {
                ParserView { status_text: p.status_text.push(c), ..p }
            },
            ParseState::HeaderName => if c == '\r' {
                ParserView { state: ParseState::Body, skip: true, ..p }
            } else if c == ':' {
                ParserView { state: ParseState::HeaderValue, ..p }
            } else {
                ParserView { name: p.name.push(c), ..p }
            },
            ParseState::HeaderValue => if c == '\r' {
                ParserView {
                    state: ParseState::HeaderName,
                    skip: true,
                    headers: set_header(p.headers, lower(p.name), trimmed(p.value)),
                    name: Seq::empty(),
                    value: Seq::empty(),
                    ..p
                }
            } else {
                ParserView { value: p.value.push(c), ..p }
            },
            _ => p,
        }
    }
}

/// The error a failed step reports.
pub open spec fn failure_of(p: ParserView) -> HttpError {
    match p.state {
        ParseState::Protocol => HttpError::Protocol,
        ParseState::Version => HttpError::Version,
        _ => HttpError::StatusChar,
    }
}

/// A parsed response.
pub struct Response {
    pub status_code: u16,
    pub status_text: String,
    pub headers: Vec<(String, String)>,
    pub body: Vec<u8>,
}

/// A byte-driven HTTP/1.1 response parser: feed it the bytes of the head
/// one at a time until it reports `HeadDone`, then read `content_length`
/// bytes of body and call `finish`.
pub struct ResponseParser {
    state: ParseState,
    skip: bool,
    protocol: Vec<char>,
    version: Vec<char>,
    status_code: Vec<char>,
    status_text: Vec<char>,
    name: Vec<char>,
    value: Vec<char>,
    headers: Vec<(Vec<char>, Vec<char>)>,
}

/// Headers as values.
pub open spec fn headers_view(h: Seq<(Vec<char>, Vec<char>)>) -> Seq<(Seq<char>, Seq<char>)> {
    h.map_values(|e: (Vec<char>, Vec<char>)| (e.0@, e.1@))
}

fn chars_equal(a: &Vec<char>, b: &Vec<char>) -> (r: bool)
    ensures
        r == (a@ == b@),
{
    if a.len() != b.len() {
        return false;
    }
    let mut i: usize = 0;
    while i < a.len()
        invariant
            a@.len() == b@.len(),
            i <= a@.len(),
            forall|j: int| 0 <= j < i ==> a@[j] == b@[j],
        decreases a@.len() - i,
    {
        if a[i] != b[i] {
            return false;
        }
        i = i + 1;
    }
    assert(a@ =~= b@);
    true
}

fn find_header(h: &Vec<(Vec<char>, Vec<char>)>, k: &Vec<char>) -> (r: Option<usize>)
    ensures
        match r {
            Some(i) => i < h@.len() && header_pos(headers_view(h@), k@) == Some(i as int),
            None => header_pos(headers_view(h@), k@) is None,
        },
{
    let ghost hv = headers_view(h@);
    let mut i: usize = 0;
    while i < h.len()
        invariant
            hv == headers_view(h@),
            i <= h@.len(),
            forall|j: int| 0 <= j < i ==> !header_is(k@)(#[trigger] hv[j]),
        decreases h@.len() - i,
    {
        assert(hv[i as int].0 == h@[i as int].0@);
        if chars_equal(&h[i].0, k) {
            proof {
                assert(hv[i as int].0 == h@[i as int].0@);
                crate::seqs::lemma_first_index_is(hv, header_is(k@), i as int);
            }
            return Some(i);
        }
        i = i + 1;
    }
    proof {
        crate::seqs::lemma_first_index_none(hv, header_is(k@));
    }
    None
}

impl ResponseParser {
    /// The parser's state as values.
    pub closed spec fn view(&self) -> ParserView {
        ParserView {
            state: self.state,
            skip: self.skip,
            protocol: self.protocol@,
            version: self.version@,
            status_code: self.status_code@,
            status_text: self.status_text@,
            name: self.name@,
            value: self.value@,
            headers: headers_view(self.headers@),
        }
    }

    /// A parser at the start of a response.
    pub fn new() -> (r: Self)
        ensures
            r.view() == (ParserView {
                state: ParseState::Protocol,
                skip: false,
                protocol: Seq::empty(),
                version: Seq::empty(),
                status_code: Seq::empty(),
                status_text: Seq::empty(),
                name: Seq::empty(),
                value: Seq::empty(),
                headers: Seq::empty(),
            }),
    {
        let r = ResponseParser {
            state: ParseState::Protocol,
            skip: false,
            protocol: Vec::new(),
            version: Vec::new(),
            status_code: Vec::new(),
            status_text: Vec::new(),
            name: Vec::new(),
            value: Vec::new(),
            headers: Vec::new(),
        };
        assert(headers_view(r.headers@) =~= Seq::empty());
        r
    }

    /// Feeds one byte of the response head (read as Latin-1) and reports
    /// whether more is needed, the head is complete, or the response is refused.
    pub fn feed(&mut self, byte: u8) -> (r: Feed)
        ensures
            final(self).view() == step(old(self).view(), byte as char),
            r == (if final(self).view().state == ParseState::Failed {
                Feed::Failed(failure_of(old(self).view()))
            } else if final(self).view().state == ParseState::Body && !final(self).view().skip {
                Feed::HeadDone
            } else {
                Feed::More
            }),
    {
        let c = byte as char;
        let before = self.state;
        if self.skip {
            self.skip = false;
        } else {
            match self.state {
                ParseState::Protocol => {
                    if 'A' <= c && c <= 'Z' {
                        self.protocol.push(c);
                    } else if c == '/' && self.protocol.len() == 4 && self.protocol[0] == 'H' && self.protocol[1] == 'T'
                        && self.protocol[2] == 'T' && self.protocol[3] == 'P' {
                        assert(self.protocol@ =~= seq!['H', 'T', 'T', 'P']);
                        self.state = ParseState::Version;
                    } else {
                        proof {
                            if c == '/' && self.protocol@ == seq!['H', 'T', 'T', 'P'] {
                                assert(self.protocol@[0] == 'H');
                            }
                        }
                        self.state = ParseState::Failed;
                    }
                },
                ParseState::Version => {
                    if ('0' <= c && c <= '9') || c == '.' {
                        self.version.push(c);
                    } else if c == ' ' && self.version.len() == 3 && self.version[0] == '1' && self.version[1] == '.'
                        && self.version[2] == '1' {
                        assert(self.version@ =~= seq!['1', '.', '1']);
                        self.state = ParseState::StatusCode;
                    } else {
                        proof {
                            if c == ' ' && self.version@ == seq!['1', '.', '1'] {
                                assert(self.version@[0] == '1');
                            }
                        }
                        self.state = ParseState::Failed;
                    }
                },
                ParseState::StatusCode => {
                    if '0' <= c && c <= '9' {
                        self.status_code.push(c);
                    } else if c == ' ' {
                        self.state = ParseState::StatusText;
                    } else {
                        self.state = ParseState::Failed;
                    }
                },
                ParseState::StatusText => {
                    if c == '\r' {
                        self.state = ParseState::HeaderName;
                        self.skip = true;
                    } else {
                        self.status_text.push(c);
                    }
                },
                ParseState::HeaderName => {
                    if c == '\r' {
                        self.state = ParseState::Body;
                        self.skip = true;
                    } else if c == ':' {
                        self.state = ParseState::HeaderValue;
                    } else {
                        self.name.push(c);
                    }
                },
                ParseState::HeaderValue => {
                    if c == '\r' {
                        let name = chars_of(to_ascii_lower(string_of(self.name.as_slice()).as_str()).as_str());
                        let value = chars_of(trim(string_of(self.value.as_slice()).as_str()).as_str());
                        let ghost before = self.headers@;
                        match find_header(&self.headers, &name) {
                            Some(i) => {
                                self.headers.set(i, (name, value));
                                assert(headers_view(self.headers@) =~= headers_view(before).update(i as int, (name@, value@)));
                            },
                            None => {
                                self.headers.push((name, value));
                                assert(headers_view(self.headers@) =~= headers_view(before).push((name@, value@)));
                            },
                        }
                        self.name = Vec::new();
                        self.value = Vec::new();
                        self.state = ParseState::HeaderName;
                        self.skip = true;
                    } else {
                        self.value.push(c);
                    }
                },
                _ => {},
            }
        }
        if self.state == ParseState::Failed {
            Feed::Failed(
                match before {
                    ParseState::Protocol => HttpError::Protocol,
                    ParseState::Version => HttpError::Version,
                    _ => HttpError::StatusChar,
                },
            )
        } else if self.state == ParseState::Body && !self.skip {
            Feed::HeadDone
        } else {
            Feed::More
        }
    }

    /// The value of `content-length`, when it is set and reads as a 16-bit number.
    pub fn content_length(&self) -> (r: Option<u16>)
        ensures
            r == content_length_of(self.view().headers),
    {
        let key = vec!['c', 'o', 'n', 't', 'e', 'n', 't', '-', 'l', 'e', 'n', 'g', 't', 'h'];
        assert(key@ =~= content_length_name());
        proof {
            crate::seqs::lemma_first_index_found(headers_view(self.headers@), header_is(key@));
        }
        match find_header(&self.headers, &key) {
            Some(i) => {
                assert(headers_view(self.headers@)[i as int].1 == self.headers@[i as int].1@);
                match parse_unsigned_chars(self.headers[i].1.as_slice(), 10, 0xFFFF) {
                    Some(v) => Some(v as u16),
                    None => None,
                }
            },
            None => None,
        }
    }

    /// The response once the head is complete and the body was read: the
    /// status code must read as a 16-bit number.
    pub fn finish(&self, body: Vec<u8>) -> (r: Result<Response, HttpError>)
        ensures
            match r {
                Ok(resp) => parse_unsigned(self.view().status_code, 10, 0xFFFF) == Some(resp.status_code as nat)
                    && resp.status_text@ == self.view().status_text && resp.body == body
                    && resp.headers@.len() == self.view().headers.len()
                    && forall|i: int| 0 <= i < resp.headers@.len() ==> (#[trigger] resp.headers@[i]).0@ == self.view().headers[i].0
                        && resp.headers@[i].1@ == self.view().headers[i].1,
                Err(e) => e == HttpError::Status && parse_unsigned(self.view().status_code, 10, 0xFFFF) is None,
            },
    {
        let code = match parse_unsigned_chars(self.status_code.as_slice(), 10, 0xFFFF) {
            Some(v) => v as u16,
            None => {
                return Err(HttpError::Status);
            },
        };
        let mut headers: Vec<(String, String)> = Vec::new();
        let mut i: usize = 0;
        while i < self.headers.len()
            invariant
                i <= self.headers@.len(),
                headers@.len() == i,
                forall|j: int| 0 <= j < i ==> (#[trigger] headers@[j]).0@ == self.headers@[j].0@ && headers@[j].1@ == self.headers@[j].1@,
            decreases self.headers@.len() - i,
        {
            headers.push((string_of(self.headers[i].0.as_slice()), string_of(self.headers[i].1.as_slice())));
            i = i + 1;
        }
        Ok(Response { status_code: code, status_text: string_of(self.status_text.as_slice()), headers, body })
    }
}

/// The name `content-length`.
pub open spec fn content_length_name() -> Seq<char> {
    seq!['c', 'o', 'n', 't', 'e', 'n', 't', '-', 'l', 'e', 'n', 'g', 't', 'h']
}

/// The body length the headers announce: `content-length` read as a 16-bit number.
pub open spec fn content_length_of(h: Seq<(Seq<char>, Seq<char>)>) -> Option<u16> {
    match header_pos(h, content_length_name()) {
        Some(i) => match parse_unsigned(h[i].1, 10, 0xFFFF) {
            Some(v) => Some(v as u16),
            None => None,
        },
        None => None,
    }
}

} // verus!
