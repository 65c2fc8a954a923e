//! The request accumulator: it collects the chunks of one request, decodes
//! its header block into environment entries once the block is all there,
//! and gathers the body up to the declared length.
use vstd::prelude::*;
use vstd::slice::slice_subrange;
use vstd::slice::slice_to_vec;
use vstd::utf8::decode_utf8;
use vstd::utf8::valid_utf8;
use crate::buffer::buffer_append;
use crate::buffer::buffer_content;
use crate::buffer::buffer_len;
use crate::buffer::bytes_as_slice;
use crate::buffer::bytes_content;
use crate::buffer::new_buffer;
use crate::framing::block_end;
use crate::framing::find_block_end;
use crate::text::decimal_value;
use crate::text::decode_text;
use crate::text::lemma_no_query;
use crate::text::lemma_split_parts;
use crate::text::parse_decimal;
use crate::text::path_part;
use crate::text::query_part;
use crate::text::same_text;
use crate::text::split_first;
use crate::tokenizer::field_view;
use crate::tokenizer::head_view;
use crate::tokenizer::request_head_of;
use crate::tokenizer::tokenize_request;
use crate::tokenizer::tokens_view;
use crate::tokenizer::HeadStatus;
use crate::tokenizer::HeadView;
use crate::tokenizer::HeaderField;
use crate::tokenizer::TokensView;

verus! {

/// Room for this many header lines; a request with more is malformed.
pub const MAX_HEADERS: usize = 16;

/// The address of the peer that sent the request.
#[derive(Clone, Copy, Debug)]
pub enum PeerAddr {
    V4 { octets: [u8; 4], port: u16 },
    V6 { segments: [u16; 8], port: u16 },
}

/// Why a request cannot be decoded. Each is terminal for the request.
#[derive(Debug)]
pub enum RequestError {
    /// The request line or a header line is not well formed.
    Malformed(httparse::Error),
    /// The minor version of `HTTP/1.x` is neither 0 nor 1.
    UnsupportedVersion(u8),
    /// The value of a forwarded header is not valid UTF-8; it holds the raw bytes.
    Encoding(Vec<u8>),
}

pub enum ErrorView {
    Malformed(httparse::Error),
    UnsupportedVersion(u8),
    Encoding(Seq<u8>),
}

impl View for RequestError {
    type V = ErrorView;

    open spec fn view(&self) -> ErrorView {
        match self {
            RequestError::Malformed(e) => ErrorView::Malformed(*e),
            RequestError::UnsupportedVersion(v) => ErrorView::UnsupportedVersion(*v),
            RequestError::Encoding(b) => ErrorView::Encoding(b@),
        }
    }
}

pub open spec fn outcome_view(r: Result<(), RequestError>) -> Result<(), ErrorView> {
    match r {
        Ok(()) => Ok(()),
        Err(e) => Err(e@),
    }
}

/// The state of one request as it arrives.
pub struct WSGIRequest {
    pub body: bytes::BytesMut,
    pub complete: bool,
    pub content_length: usize,
    /// Environment entries, in the order of the header lines, then the
    /// method, path, query string and protocol.
    pub environ: Vec<(&'static str, String)>,
    pub peer_addr: Option<PeerAddr>,
    pub headers_parsed: bool,
    /// What has arrived of the header block while it is incomplete.
    pub pending: Vec<u8>,
}

pub struct RequestView {
    pub body: Seq<u8>,
    pub complete: bool,
    pub content_length: usize,
    pub environ: Seq<(Seq<char>, Seq<char>)>,
    pub peer_addr: Option<PeerAddr>,
    pub headers_parsed: bool,
    pub pending: Seq<u8>,
}

pub open spec fn entry_view(e: (&'static str, String)) -> (Seq<char>, Seq<char>) {
    (e.0@, e.1@)
}

pub open spec fn env_seq(v: Seq<(&'static str, String)>) -> Seq<(Seq<char>, Seq<char>)> {
    v.map_values(|e: (&'static str, String)| entry_view(e))
}

impl View for WSGIRequest {
    type V = RequestView;

    open spec fn view(&self) -> RequestView {
        RequestView {
            body: buffer_content(self.body),
            complete: self.complete,
            content_length: self.content_length,
            environ: env_seq(self.environ@),
            peer_addr: self.peer_addr,
            headers_parsed: self.headers_parsed,
            pending: self.pending@,
        }
    }
}

/// A request before any byte of it has arrived.
pub open spec fn fresh_view(peer_addr: Option<PeerAddr>) -> RequestView {
    RequestView {
        body: Seq::empty(),
        complete: false,
        content_length: 0,
        environ: Seq::empty(),
        peer_addr,
        headers_parsed: false,
        pending: Seq::empty(),
    }
}

/// The environment key of a forwarded header; the other headers are dropped.
pub open spec fn env_key_of(name: Seq<char>) -> Option<Seq<char>> {
    if name == "Cookie"@ {
        Some("HTTP_COOKIE"@)
    } else if name == "Host"@ {
        Some("HTTP_HOST"@)
    } else if name == "User-Agent"@ {
        Some("HTTP_USER_AGENT"@)
    } else if name == "Accept"@ {
        Some("HTTP_ACCEPT"@)
    } else if name == "Accept-Language"@ {
        Some("HTTP_ACCEPT_LANGUAGE"@)
    } else if name == "Accept-Encoding"@ {
        Some("HTTP_ACCEPT_ENCODING"@)
    } else if name == "Connection"@ {
        Some("HTTP_CONNECTION"@)
    } else if name == "Upgrade-Insecure-Requests"@ {
        Some("HTTP_UPGRADE_INSECURE_REQUESTS"@)
    } else if name == "DNT"@ {
        Some("HTTP_DNT"@)
    } else if name == "Content-Type"@ {
        Some("CONTENT_TYPE"@)
    } else {
        None
    }
}

/// The entries of the forwarded headers, or the raw value of the first one
/// that is not valid UTF-8.
pub open spec fn header_env(hs: Seq<(Seq<char>, Seq<u8>)>) -> Result<
    Seq<(Seq<char>, Seq<char>)>,
    Seq<u8>,
>
    decreases hs.len(),
{
    if hs.len() == 0 {
        Ok(Seq::empty())
    } else {
        match header_env(hs.drop_last()) {
            Err(bad) => Err(bad),
            Ok(es) => match env_key_of(hs.last().0) {
                None => Ok(es),
                Some(k) => if valid_utf8(hs.last().1) {
                    Ok(es.push((k, decode_utf8(hs.last().1))))
                } else {
                    Err(hs.last().1)
                },
            },
        }
    }
}

/// The body length that the last readable `Content-Length` header declares;
/// `current` where there is none.
pub open spec fn declared_length(hs: Seq<(Seq<char>, Seq<u8>)>, current: usize) -> usize
    decreases hs.len(),
{
    if hs.len() == 0 {
        current
    } else if hs.last().0 == "Content-Length"@ && decimal_value(hs.last().1) is Some {
        decimal_value(hs.last().1)->0
    } else {
        declared_length(hs.drop_last(), current)
    }
}

pub open spec fn version_supported(v: Option<u8>) -> bool {
    v matches Some(n) ==> n <= 1
}

pub open spec fn protocol_name(v: u8) -> Seq<char> {
    if v == 0 {
        "HTTP/1.0"@
    } else {
        "HTTP/1.1"@
    }
}

/// The entries taken from the request line.
pub open spec fn request_line_env(h: HeadView) -> Seq<(Seq<char>, Seq<char>)> {
    (match h.method {
        Some(m) => seq![("REQUEST_METHOD"@, m)],
        None => Seq::empty(),
    }) + (match h.path {
        Some(p) => seq![("PATH_INFO"@, path_part(p)), ("QUERY_STRING"@, query_part(p))],
        None => Seq::empty(),
    }) + (match h.version {
        Some(v) => seq![("SERVER_PROTOCOL"@, protocol_name(v))],
        None => Seq::empty(),
    })
}

/// The state and outcome after a tokenizer result for the pending bytes.
pub open spec fn apply_model(s: RequestView, t: TokensView) -> (RequestView, Result<(), ErrorView>) {
    match t {
        TokensView::Invalid(e) => (s, Err(ErrorView::Malformed(e))),
        TokensView::Partial => (s, Ok(())),
        TokensView::Complete(h) => if !version_supported(h.version) {
            (s, Err(ErrorView::UnsupportedVersion(h.version->0)))
        } else {
            match header_env(h.headers) {
                Err(bad) => (s, Err(ErrorView::Encoding(bad))),
                Ok(es) => {
                    let body = s.body + s.pending.skip(h.size as int);
                    let cl = declared_length(h.headers, s.content_length);
                    (
                        RequestView {
                            body,
                            complete: s.complete || body.len() == cl,
                            content_length: cl,
                            environ: s.environ + es + request_line_env(h),
                            headers_parsed: true,
                            pending: Seq::empty(),
                            ..s
                        },
                        Ok(()),
                    )
                },
            }
        },
    }
}

/// The state and outcome after a chunk that arrives before the header block
/// is known.
pub open spec fn header_step(s: RequestView, chunk: Seq<u8>) -> (RequestView, Result<(), ErrorView>) {
    let buf = s.pending + chunk;
    let s1 = RequestView { pending: buf, ..s };
    match block_end(buf) {
        None => (s1, Ok(())),
        Some(e) => apply_model(s1, request_head_of(buf.take(e as int), MAX_HEADERS as nat)),
    }
}

/// The state and outcome after any chunk.
pub open spec fn step(s: RequestView, chunk: Seq<u8>) -> (RequestView, Result<(), ErrorView>) {
    if s.complete {
        (s, Ok(()))
    } else if !s.headers_parsed {
        header_step(s, chunk)
    } else {
        (
            RequestView {
                body: s.body + chunk,
                complete: s.body.len() + chunk.len() == s.content_length,
                ..s
            },
            Ok(()),
        )
    }
}

/// The environment key of a header name, if the header is forwarded.
pub fn env_key(name: &str) -> (r: Option<&'static str>)
    ensures
        r matches Some(k) ==> env_key_of(name@) == Some(k@),
        r is None ==> env_key_of(name@) is None,
{
    if same_text(name, "Cookie") {
        Some("HTTP_COOKIE")
    } else if same_text(name, "Host") {
        Some("HTTP_HOST")
    } else if same_text(name, "User-Agent") {
        Some("HTTP_USER_AGENT")
    } else if same_text(name, "Accept") {
        Some("HTTP_ACCEPT")
    } else if same_text(name, "Accept-Language") {
        Some("HTTP_ACCEPT_LANGUAGE")
    } else if same_text(name, "Accept-Encoding") {
        Some("HTTP_ACCEPT_ENCODING")
    } else if same_text(name, "Connection") {
        Some("HTTP_CONNECTION")
    } else if same_text(name, "Upgrade-Insecure-Requests") {
        Some("HTTP_UPGRADE_INSECURE_REQUESTS")
    } else if same_text(name, "DNT") {
        Some("HTTP_DNT")
    } else if same_text(name, "Content-Type") {
        Some("CONTENT_TYPE")
    } else {
        None
    }
}

impl WSGIRequest {
    pub fn new(peer_addr: Option<PeerAddr>) -> (r: WSGIRequest)
        ensures
            r@ == fresh_view(peer_addr),
    {
        let r = WSGIRequest {
            body: new_buffer(),
            complete: false,
            content_length: 0,
            environ: Vec::new(),
            peer_addr,
            headers_parsed: false,
            pending: Vec::new(),
        };
        assert(r@.environ =~= Seq::<(Seq<char>, Seq<char>)>::empty());
        r
    }

    /// Takes what the tokenizer found in the pending bytes and, for a
    /// complete header block, fills the environment, moves the bytes after
    /// the block into the body and sets the declared length. On an error
    /// nothing changes.
    pub fn apply_head(&mut self, tokens: Result<HeadStatus, httparse::Error>) -> (r: Result<
        (),
        RequestError,
    >)
        requires
            tokens matches Ok(HeadStatus::Complete(h)) ==> h.size <= old(self).pending@.len(),
            old(self)@.body.len() + old(self)@.pending.len() <= isize::MAX,
        ensures
            (final(self)@, outcome_view(r)) == apply_model(old(self)@, tokens_view(tokens)),
    {
        let ghost tv = tokens_view(tokens);
        let head = match tokens {
            Err(e) => {
                return Err(RequestError::Malformed(e));
            },
            Ok(HeadStatus::Partial) => {
                return Ok(());
            },
            Ok(HeadStatus::Complete(head)) => head,
        };
        let ghost hv = head_view(head);
        if let Some(v) = head.version {
            if v > 1 {
                return Err(RequestError::UnsupportedVersion(v));
            }
        }
        let mut entries: Vec<(&'static str, String)> = Vec::new();
        let mut length = self.content_length;
        let mut i: usize = 0;
        assert(env_seq(entries@) =~= Seq::<(Seq<char>, Seq<char>)>::empty());
        assert(hv.headers.take(0) =~= Seq::<(Seq<char>, Seq<u8>)>::empty());
        while i < head.headers.len()
            invariant
                i <= head.headers@.len(),
                hv == head_view(head),
                tv == TokensView::Complete(hv),
                tv == tokens_view(tokens),
                version_supported(hv.version),
                self@ == old(self)@,
                header_env(hv.headers.take(i as int)) == Ok::<
                    Seq<(Seq<char>, Seq<char>)>,
                    Seq<u8>,
                >(env_seq(entries@)),
                length == declared_length(hv.headers.take(i as int), self.content_length),
            decreases head.headers@.len() - i,
        {
            let field: &HeaderField = &head.headers[i];
            let ghost prior = env_seq(entries@);
            assert(hv.headers.take(i + 1).drop_last() =~= hv.headers.take(i as int));
            assert(hv.headers.take(i + 1).last() == field_view(*field));
            if same_text(field.name.as_str(), "Content-Length") {
                if let Some(n) = parse_decimal(field.value.as_slice()) {
                    length = n;
                }
            }
            match env_key(field.name.as_str()) {
                None => {},
                Some(key) => match decode_text(field.value.as_slice()) {
                    Some(text) => {
                        entries.push((key, text));
                        assert(env_seq(entries@) =~= prior.push((key@, text@)));
                    },
                    None => {
                        assert(header_env(hv.headers.take(i + 1)) == Err::<
                            Seq<(Seq<char>, Seq<char>)>,
                            Seq<u8>,
                        >(field.value@));
                        proof {
                            lemma_env_error_persists(hv.headers, i + 1);
                        }
                        let bad = slice_to_vec(field.value.as_slice());
                        assert(header_env(hv.headers) == Err::<
                            Seq<(Seq<char>, Seq<char>)>,
                            Seq<u8>,
                        >(bad@));
                        return Err(RequestError::Encoding(bad));
                    },
                },
            }
            i = i + 1;
        }
        assert(hv.headers.take(i as int) =~= hv.headers);
        let ghost before = env_seq(entries@);
        let mut line: Vec<(&'static str, String)> = Vec::new();
        if let Some(m) = head.method {
            line.push(("REQUEST_METHOD", m));
        }
        if let Some(p) = head.path {
            match split_first(p.as_str(), '?') {
                Some(parts) => {
                    proof {
                        lemma_split_parts(parts.0@, parts.1@);
                    }
                    line.push(("PATH_INFO", parts.0));
                    line.push(("QUERY_STRING", parts.1));
                },
                None => {
                    proof {
                        lemma_no_query(p@);
                    }
                    line.push(("PATH_INFO", p));
                    line.push(("QUERY_STRING", String::new()));
                },
            }
        }
        if let Some(v) = head.version {
            let name = if v == 0 {
                "HTTP/1.0".to_owned()
            } else {
                "HTTP/1.1".to_owned()
            };
            line.push(("SERVER_PROTOCOL", name));
        }
        assert(env_seq(line@) =~= request_line_env(hv));
        let spill = slice_subrange(self.pending.as_slice(), head.size, self.pending.len());
        assert(spill@ =~= self.pending@.skip(head.size as int));
        buffer_append(&mut self.body, spill);
        self.pending = Vec::new();
        self.environ.append(&mut entries);
        self.environ.append(&mut line);
        self.content_length = length;
        if buffer_len(&self.body) == length {
            self.complete = true;
        }
        self.headers_parsed = true;
        assert(self@.environ =~= old(self)@.environ + before + request_line_env(hv));
        assert(self@.pending =~= Seq::<u8>::empty());
        Ok(())
    }

    /// Takes a chunk that arrives before the header block is known: it joins
    /// the pending bytes, and once these hold a whole header block, the block
    /// is tokenized and applied.
    pub fn parse_headers(&mut self, raw: bytes::Bytes) -> (r: Result<(), RequestError>)
        requires
            old(self)@.body.len() + old(self)@.pending.len() + bytes_content(raw).len()
                <= isize::MAX,
        ensures
            (final(self)@, outcome_view(r)) == header_step(old(self)@, bytes_content(raw)),
    {
        let chunk = bytes_as_slice(&raw);
        self.pending.extend_from_slice(chunk);
        assert(self.pending@ =~= old(self)@.pending + chunk@);
        match find_block_end(self.pending.as_slice()) {
            None => Ok(()),
            Some(end) => {
                let block = slice_subrange(self.pending.as_slice(), 0, end);
                assert(block@ =~= self.pending@.take(end as int));
                let tokens = tokenize_request(block, MAX_HEADERS);
                self.apply_head(tokens)
            },
        }
    }

    /// Takes the next chunk of the request. A complete request ignores it;
    /// before the header block is known it goes to `parse_headers`; after,
    /// it is appended to the body, and the request is complete when the body
    /// reaches the declared length exactly.
    pub fn parse(&mut self, raw: bytes::Bytes) -> (r: Result<(), RequestError>)
        requires
            old(self)@.body.len() + old(self)@.pending.len() + bytes_content(raw).len()
                <= isize::MAX,
        ensures
            (final(self)@, outcome_view(r)) == step(old(self)@, bytes_content(raw)),
    {
        if self.complete {
            return Ok(());
        }
        if !self.headers_parsed {
            return self.parse_headers(raw);
        }
        let chunk = bytes_as_slice(&raw);
        let have = buffer_len(&self.body);
        if self.content_length >= have && self.content_length - have == chunk.len() {
            self.complete = true;
        }
        buffer_append(&mut self.body, chunk);
        Ok(())
    }
}

/// Once a header value fails to decode, the headers after it change nothing.
proof fn lemma_env_error_persists(hs: Seq<(Seq<char>, Seq<u8>)>, i: int)
    requires
        0 <= i <= hs.len(),
        header_env(hs.take(i)) is Err,
    ensures
        header_env(hs) == header_env(hs.take(i)),
    decreases hs.len() - i,
{
    if i < hs.len() {
        assert(hs.take(i + 1).drop_last() =~= hs.take(i));
        lemma_env_error_persists(hs, i + 1);
    } else {
        assert(hs.take(i) =~= hs);
    }
}

} // verus!
