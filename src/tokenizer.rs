//! The request line and header tokenizer of the `httparse` crate.
use vstd::prelude::*;

verus! {

#[verifier::external_type_specification]
#[verifier::external_body]
pub struct ExHttpError(httparse::Error);

/// One header line as the tokenizer delivers it.
pub struct HeaderField {
    pub name: String,
    pub value: Vec<u8>,
}

/// A complete request line and header block.
pub struct RequestHead {
    /// Number of bytes that the request line and the header block occupy.
    pub size: usize,
    pub method: Option<String>,
    pub path: Option<String>,
    /// Minor version of `HTTP/1.x`.
    pub version: Option<u8>,
    pub headers: Vec<HeaderField>,
}

/// What the tokenizer found in a buffer that it did not reject.
pub enum HeadStatus {
    Partial,
    Complete(RequestHead),
}

/// The mathematical form of a `RequestHead`.
pub struct HeadView {
    pub size: nat,
    pub method: Option<Seq<char>>,
    pub path: Option<Seq<char>>,
    pub version: Option<u8>,
    pub headers: Seq<(Seq<char>, Seq<u8>)>,
}

/// The mathematical form of a tokenizer result.
pub enum TokensView {
    Invalid(httparse::Error),
    Partial,
    Complete(HeadView),
}

pub open spec fn text_view(t: Option<String>) -> Option<Seq<char>> {
    match t {
        Some(s) => Some(s@),
        None => None,
    }
}

pub open spec fn field_view(f: HeaderField) -> (Seq<char>, Seq<u8>) {
    (f.name@, f.value@)
}

pub open spec fn head_view(h: RequestHead) -> HeadView {
    HeadView {
        size: h.size as nat,
        method: text_view(h.method),
        path: text_view(h.path),
        version: h.version,
        headers: h.headers@.map_values(|f: HeaderField| field_view(f)),
    }
}

pub open spec fn tokens_view(r: Result<HeadStatus, httparse::Error>) -> TokensView {
    match r {
        Err(e) => TokensView::Invalid(e),
        Ok(HeadStatus::Partial) => TokensView::Partial,
        Ok(HeadStatus::Complete(h)) => TokensView::Complete(head_view(h)),
    }
}

/// What `httparse::Request::parse` finds in a buffer, with room for the
/// given number of header lines.
pub uninterp spec fn request_head_of(raw: Seq<u8>, max_headers: nat) -> TokensView;

/// Relies on `httparse::Request::parse`: its result depends on the buffer and
/// the number of header slots alone, and a complete head never claims more
/// bytes than the buffer holds.
#[verifier::external_body]
pub(crate) fn tokenize_request(raw: &[u8], max_headers: usize) -> (r: Result<
    HeadStatus,
    httparse::Error,
>)
    ensures
        tokens_view(r) == request_head_of(raw@, max_headers as nat),
        r matches Ok(HeadStatus::Complete(h)) ==> h.size <= raw@.len(),
{
    let mut slots = vec![httparse::EMPTY_HEADER; max_headers];
    let mut req = httparse::Request::new(&mut slots);
    Ok(match req.parse(raw)? {
        httparse::Status::Partial => HeadStatus::Partial,
        httparse::Status::Complete(size) => HeadStatus::Complete(RequestHead {
            size,
            method: req.method.map(String::from),
            path: req.path.map(String::from),
            version: req.version,
            headers: req.headers.iter().map(|h| HeaderField { name: h.name.into(), value: h.value.to_vec() }).collect(),
        }),
    })
}

} // verus!
