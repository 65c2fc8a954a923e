//! What holds of the accumulator over whole sequences of calls.
use vstd::prelude::*;
use crate::framing::block_end;
use crate::framing::lemma_block_end_extend;
use crate::request::apply_model;
use crate::request::declared_length;
use crate::request::fresh_view;
use crate::request::request_line_env;
use crate::request::step;
use crate::request::ErrorView;
use crate::request::PeerAddr;
use crate::request::RequestView;
use crate::request::MAX_HEADERS;
use crate::text::lemma_no_query;
use crate::tokenizer::request_head_of;
use crate::tokenizer::HeadView;
use crate::tokenizer::TokensView;

verus! {

/// The bytes of a sequence of chunks, one after another.
pub open spec fn concat_chunks(cs: Seq<Seq<u8>>) -> Seq<u8>
    decreases cs.len(),
{
    if cs.len() == 0 {
        Seq::empty()
    } else {
        cs[0] + concat_chunks(cs.drop_first())
    }
}

/// The state after the chunks are handed over one call each.
pub open spec fn feed_chunks(s: RequestView, cs: Seq<Seq<u8>>) -> RequestView
    decreases cs.len(),
{
    if cs.len() == 0 {
        s
    } else {
        feed_chunks(step(s, cs[0]).0, cs.drop_first())
    }
}

/// The body holds no more than the declared length.
pub open spec fn within_length(s: RequestView) -> bool {
    s.body.len() <= s.content_length
}

/// The tokenizer never claims more bytes for a head than its buffer holds.
pub open spec fn heads_within_buffer() -> bool {
    forall|x: Seq<u8>| #[trigger]
        request_head_of(x, MAX_HEADERS as nat) matches TokensView::Complete(h) ==> h.size
            <= x.len()
}

proof fn lemma_two_chunks(s: RequestView, a: Seq<u8>, b: Seq<u8>)
    requires
        heads_within_buffer(),
        within_length(step(s, a + b).0),
    ensures
        step(step(s, a).0, b).0 == step(s, a + b).0,
{
    if s.complete {
    } else if s.headers_parsed {
        assert(s.body + a + b =~= s.body + (a + b));
        if s.body.len() + a.len() == s.content_length {
            assert(b =~= Seq::<u8>::empty());
            assert(a + b =~= a);
        }
    } else {
        let p = s.pending;
        assert(p + a + b =~= p + (a + b));
        match block_end(p + a) {
            None => {},
            Some(e) => {
                lemma_block_end_extend(p + a, b);
                assert((p + a + b).take(e as int) =~= (p + a).take(e as int));
                let t = request_head_of((p + a).take(e as int), MAX_HEADERS as nat);
                if let TokensView::Complete(h) = t {
                    assert(h.size <= e);
                    assert(s.body + (p + a + b).skip(h.size as int) =~= s.body + (p + a).skip(
                        h.size as int,
                    ) + b);
                    let r1 = step(s, a).0;
                    if r1.headers_parsed && r1.complete {
                        assert(b =~= Seq::<u8>::empty());
                        assert(r1.body + b =~= r1.body);
                    }
                }
            },
        }
    }
}

proof fn lemma_feed_chunks(s: RequestView, cs: Seq<Seq<u8>>)
    requires
        cs.len() >= 1,
        heads_within_buffer(),
        within_length(step(s, concat_chunks(cs)).0),
    ensures
        feed_chunks(s, cs) == step(s, concat_chunks(cs)).0,
    decreases cs.len(),
{
    let rest = cs.drop_first();
    if cs.len() == 1 {
        assert(rest.len() == 0);
        assert(concat_chunks(rest) == Seq::<u8>::empty());
        assert(concat_chunks(cs) =~= cs[0]);
        assert(feed_chunks(step(s, cs[0]).0, rest) == step(s, cs[0]).0);
    } else {
        lemma_two_chunks(s, cs[0], concat_chunks(rest));
        lemma_feed_chunks(step(s, cs[0]).0, rest);
    }
}

/// However a request is cut into chunks, handing them over one by one ends
/// in the same state as handing over all its bytes at once: the same
/// environment, body and completion. This holds where the body does not run
/// past the declared length; past it, the cut decides which bytes are kept.
pub proof fn split_delivery_agrees(peer_addr: Option<PeerAddr>, chunks: Seq<Seq<u8>>)
    requires
        heads_within_buffer(),
        within_length(step(fresh_view(peer_addr), concat_chunks(chunks)).0),
    ensures
        feed_chunks(fresh_view(peer_addr), chunks) == step(
            fresh_view(peer_addr),
            concat_chunks(chunks),
        ).0,
{
    if chunks.len() == 0 {
        let s = fresh_view(peer_addr);
        assert(s.pending + Seq::<u8>::empty() =~= s.pending);
        assert(step(s, Seq::<u8>::empty()).0 == s);
    } else {
        lemma_feed_chunks(fresh_view(peer_addr), chunks);
    }
}

proof fn lemma_no_declared_length(hs: Seq<(Seq<char>, Seq<u8>)>, current: usize)
    requires
        forall|i: int| 0 <= i < hs.len() ==> (#[trigger] hs[i]).0 != "Content-Length"@,
    ensures
        declared_length(hs, current) == current,
    decreases hs.len(),
{
    if hs.len() > 0 {
        assert(hs.last() == hs[hs.len() - 1]);
        lemma_no_declared_length(hs.drop_last(), current);
    }
}

/// A request without a `Content-Length` header, handed over as exactly its
/// header block, is complete after that one call, with an empty body.
pub proof fn header_block_alone_completes(peer_addr: Option<PeerAddr>, chunk: Seq<u8>)
    requires
        block_end(chunk) == Some(chunk.len()),
        request_head_of(chunk, MAX_HEADERS as nat) matches TokensView::Complete(h) && h.size
            == chunk.len() && forall|i: int|
            0 <= i < h.headers.len() ==> (#[trigger] h.headers[i]).0 != "Content-Length"@,
    ensures
        step(fresh_view(peer_addr), chunk).1 is Ok ==> {
            let r = step(fresh_view(peer_addr), chunk).0;
            r.complete && r.headers_parsed && r.body == Seq::<u8>::empty()
        },
{
    let s = fresh_view(peer_addr);
    assert(s.pending + chunk =~= chunk);
    assert(chunk.take(chunk.len() as int) =~= chunk);
    if let TokensView::Complete(h) = request_head_of(chunk, MAX_HEADERS as nat) {
        lemma_no_declared_length(h.headers, 0);
        assert(s.body + chunk.skip(h.size as int) =~= Seq::<u8>::empty());
    }
}

/// A request target without `?` gives an empty query string, and the whole
/// target as the path.
pub proof fn plain_path_has_empty_query(s: RequestView, h: HeadView)
    requires
        h.path matches Some(p) && !p.contains('?'),
    ensures
        apply_model(s, TokensView::Complete(h)).1 is Ok ==> {
            let env = apply_model(s, TokensView::Complete(h)).0.environ;
            &&& env.contains(("QUERY_STRING"@, Seq::<char>::empty()))
            &&& env.contains(("PATH_INFO"@, h.path->0))
        },
{
    let p = h.path->0;
    lemma_no_query(p);
    let r = apply_model(s, TokensView::Complete(h));
    if r.1 is Ok {
        let line = request_line_env(h);
        let m: int = if h.method is Some { 1 } else { 0 };
        let env = r.0.environ;
        let before = env.len() - line.len();
        assert(line[m] == ("PATH_INFO"@, p));
        assert(line[m + 1] == ("QUERY_STRING"@, Seq::<char>::empty()));
        assert(env[before + m] == line[m]);
        assert(env[before + m + 1] == line[m + 1]);
    }
}

/// A minor version other than 0 or 1 is refused, and the request is left
/// as it was.
pub proof fn unsupported_version_rejected(s: RequestView, h: HeadView)
    requires
        h.version matches Some(v) && v > 1,
    ensures
        apply_model(s, TokensView::Complete(h)) == (s, Err::<(), ErrorView>(
            ErrorView::UnsupportedVersion(h.version->0),
        )),
{
}

/// The same through `parse`: once the header block is all there and names a
/// minor version other than 0 or 1, the call fails with that version and
/// leaves the environment and the body as they were.
pub proof fn unsupported_version_leaves_request(s: RequestView, chunk: Seq<u8>)
    requires
        !s.complete,
        !s.headers_parsed,
        block_end(s.pending + chunk) matches Some(e) && request_head_of(
            (s.pending + chunk).take(e as int),
            MAX_HEADERS as nat,
        ) matches TokensView::Complete(h) && h.version matches Some(v) && v > 1,
    ensures
        step(s, chunk).1 matches Err(ErrorView::UnsupportedVersion(v)) && v > 1,
        step(s, chunk).0.environ == s.environ,
        step(s, chunk).0.body == s.body,
        !step(s, chunk).0.complete,
{
}

} // verus!
