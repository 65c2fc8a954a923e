//! Text helpers: comparison, UTF-8 decoding, the query split and the
//! decimal form of `Content-Length`.
use vstd::prelude::*;
use vstd::utf8::*;
use vstd::string::StringSliceAdditionalSpecFns;

verus! {

/// Whether two strings hold the same characters.
pub fn same_text(a: &str, b: &str) -> (r: bool)
    ensures
        r == (a@ == b@),
{
    let x = a.as_bytes();
    let y = b.as_bytes();
    proof {
        encode_utf8_decode_utf8(a@);
        encode_utf8_decode_utf8(b@);
    }
    if x.len() != y.len() {
        return false;
    }
    let mut i: usize = 0;
    while i < x.len()
        invariant
            x@.len() == y@.len(),
            i <= x@.len(),
            x@ == a.spec_bytes(),
            y@ == b.spec_bytes(),
            decode_utf8(a.spec_bytes()) == a@,
            decode_utf8(b.spec_bytes()) == b@,
            forall|j: int| 0 <= j < i ==> x@[j] == y@[j],
        decreases x@.len() - i,
    {
        if x[i] != y[i] {
            assert(x@ != y@);
            return false;
        }
        i = i + 1;
    }
    assert(x@ =~= y@);
    true
}

/// Relies on `String::from_utf8`: it succeeds exactly on valid UTF-8 and then
/// holds the decoded characters.
#[verifier::external_body]
pub(crate) fn decode_text(b: &[u8]) -> (r: Option<String>)
    ensures
        r is Some <==> valid_utf8(b@),
        r matches Some(s) ==> s@ == decode_utf8(b@),
{
    String::from_utf8(b.to_vec()).ok()
}

/// Relies on `str::split_once`: the text before and after the first
/// occurrence of `delim`, or `None` where it does not occur.
#[verifier::external_body]
pub(crate) fn split_first(s: &str, delim: char) -> (r: Option<(String, String)>)
    ensures
        r is None <==> !s@.contains(delim),
        r matches Some(p) ==> s@ == p.0@ + seq![delim] + p.1@ && !p.0@.contains(delim),
{
    s.split_once(delim).map(|(a, b)| (a.into(), b.into()))
}

/// The part of a request target before its first `?`.
pub open spec fn path_part(t: Seq<char>) -> Seq<char>
    decreases t.len(),
{
    if t.len() == 0 {
        t
    } else if t[0] == '?' {
        Seq::empty()
    } else {
        seq![t[0]] + path_part(t.drop_first())
    }
}

/// The part of a request target after its first `?`; empty where it has none.
pub open spec fn query_part(t: Seq<char>) -> Seq<char>
    decreases t.len(),
{
    if t.len() == 0 {
        t
    } else if t[0] == '?' {
        t.drop_first()
    } else {
        query_part(t.drop_first())
    }
}

pub proof fn lemma_split_parts(a: Seq<char>, b: Seq<char>)
    requires
        !a.contains('?'),
    ensures
        path_part(a + seq!['?'] + b) == a,
        query_part(a + seq!['?'] + b) == b,
    decreases a.len(),
{
    let t = a + seq!['?'] + b;
    if a.len() == 0 {
        assert(t[0] == '?');
        assert(t.drop_first() =~= b);
        assert(a =~= Seq::<char>::empty());
    } else {
        assert(a[0] != '?') by {
            assert(a.contains(a[0]) ==> a[0] != '?');
        };
        assert(!a.drop_first().contains('?')) by {
            if a.drop_first().contains('?') {
                let j = choose|j: int| 0 <= j < a.drop_first().len() && a.drop_first()[j] == '?';
                assert(a[j + 1] == '?');
            }
        };
        assert(t.drop_first() =~= a.drop_first() + seq!['?'] + b);
        lemma_split_parts(a.drop_first(), b);
        assert(seq![a[0]] + a.drop_first() =~= a);
    }
}

pub proof fn lemma_no_query(t: Seq<char>)
    requires
        !t.contains('?'),
    ensures
        path_part(t) == t,
        query_part(t) == Seq::<char>::empty(),
    decreases t.len(),
{
    if t.len() > 0 {
        assert(t[0] != '?') by {
            assert(t.contains(t[0]) ==> t[0] != '?');
        };
        assert(!t.drop_first().contains('?')) by {
            if t.drop_first().contains('?') {
                let j = choose|j: int| 0 <= j < t.drop_first().len() && t.drop_first()[j] == '?';
                assert(t[j + 1] == '?');
            }
        };
        lemma_no_query(t.drop_first());
        assert(seq![t[0]] + t.drop_first() =~= t);
    }
}

pub open spec fn is_digit(c: u8) -> bool {
    0x30 <= c <= 0x39
}

/// The number that a string of decimal digits denotes.
pub open spec fn digits_value(d: Seq<u8>) -> nat
    decreases d.len(),
{
    if d.len() == 0 {
        0
    } else {
        digits_value(d.drop_last()) * 10 + (d.last() - 0x30) as nat
    }
}

/// The digits of an unsigned decimal: the text without one leading `+`.
pub open spec fn unsigned_digits(b: Seq<u8>) -> Seq<u8> {
    if b.len() > 0 && b[0] == 0x2b {
        b.drop_first()
    } else {
        b
    }
}

/// The value of an unsigned decimal that fits in `usize`: an optional `+`
/// followed by at least one digit and nothing else.
pub open spec fn decimal_value(b: Seq<u8>) -> Option<usize> {
    let d = unsigned_digits(b);
    if d.len() > 0 && (forall|i: int| 0 <= i < d.len() ==> is_digit(#[trigger] d[i]))
        && digits_value(d) <= usize::MAX {
        Some(digits_value(d) as usize)
    } else {
        None
    }
}

proof fn lemma_digits_grow(d: Seq<u8>, i: int, j: int)
    requires
        0 <= i <= j <= d.len(),
        forall|k: int| 0 <= k < d.len() ==> is_digit(#[trigger] d[k]),
    ensures
        digits_value(d.take(i)) <= digits_value(d.take(j)),
    decreases j - i,
{
    if i < j {
        lemma_digits_grow(d, i, j - 1);
        assert(d.take(j).drop_last() =~= d.take(j - 1));
    }
}

/// Reads an unsigned decimal, as `usize::from_str` does.
pub fn parse_decimal(b: &[u8]) -> (r: Option<usize>)
    ensures
        r == decimal_value(b@),
{
    let start: usize = if b.len() > 0 && b[0] == 0x2b { 1 } else { 0 };
    let ghost d = unsigned_digits(b@);
    assert(d =~= b@.skip(start as int));
    if start >= b.len() {
        return None;
    }
    let mut v: usize = 0;
    let mut i: usize = start;
    while i < b.len()
        invariant
            start <= i <= b@.len(),
            d =~= b@.skip(start as int),
            d == unsigned_digits(b@),
            forall|k: int| 0 <= k < i - start ==> is_digit(#[trigger] d[k]),
            v as nat == digits_value(d.take(i - start)),
        decreases b@.len() - i,
    {
        let c = b[i];
        if c < 0x30 || c > 0x39 {
            assert(!is_digit(d[i - start]));
            return None;
        }
        let digit = (c - 0x30) as usize;
        assert(d.take(i + 1 - start).drop_last() =~= d.take(i - start));
        if v > (usize::MAX - digit) / 10 {
            assert(digits_value(d.take(i + 1 - start)) > usize::MAX) by (nonlinear_arith)
                requires
                    v > (usize::MAX - digit) / 10,
                    digits_value(d.take(i + 1 - start)) == v * 10 + digit,
                    digit <= 9;
            proof {
                if forall|k: int| 0 <= k < d.len() ==> is_digit(#[trigger] d[k]) {
                    lemma_digits_grow(d, i + 1 - start, d.len() as int);
                    assert(d.take(d.len() as int) =~= d);
                }
            }
            return None;
        }
        v = v * 10 + digit;
        i = i + 1;
    }
    assert(d.take(i - start) =~= d);
    Some(v)
}

} // verus!
