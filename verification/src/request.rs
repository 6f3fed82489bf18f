//! Reading the first line of an HTTP request: `METHOD SP PATH SP VERSION`.
//!
//! The line is split on single spaces, on the bytes as they came off the
//! wire. Only the two tokens that the server needs are turned into text.

use std::borrow::Cow;
use vstd::prelude::*;

verus! {

/// The byte that separates the tokens of a request line.
pub const SPACE: u8 = 0x20;

/// The byte at the end of a path that names a directory.
pub const SLASH: u8 = 0x2f;

/// How many bytes stand at the front of `s` before its first space: all of
/// them where `s` holds no space.
pub open spec fn token_len(s: Seq<u8>) -> nat
    decreases s.len(),
{
    if s.len() == 0 || s[0] == SPACE {
        0
    } else {
        1 + token_len(s.drop_first())
    }
}

/// The first token of a request line: the bytes before the first space.
pub open spec fn method_bytes(req: Seq<u8>) -> Seq<u8> {
    req.take(token_len(req) as int)
}

/// What follows the space that ends the first token; nothing where the line
/// has no space.
pub open spec fn after_method(req: Seq<u8>) -> Seq<u8> {
    if token_len(req) < req.len() {
        req.skip((token_len(req) + 1) as int)
    } else {
        Seq::empty()
    }
}

/// The second token of a request line, as it was sent.
pub open spec fn path_bytes(req: Seq<u8>) -> Seq<u8> {
    after_method(req).take(token_len(after_method(req)) as int)
}

/// What is appended to a requested path: the name of the index page where
/// the path ends in a slash, nothing otherwise.
pub open spec fn index_suffix(path: Seq<u8>) -> Seq<char> {
    if path.len() > 0 && path.last() == SLASH {
        "index.html"@
    } else {
        Seq::empty()
    }
}

/// The text that `String::from_utf8_lossy` makes of `bytes`.
pub uninterp spec fn utf8_lossy(bytes: Seq<u8>) -> Seq<char>;

/// The method of a request, as text.
pub open spec fn method_text(req: Seq<u8>) -> Seq<char> {
    utf8_lossy(method_bytes(req))
}

/// The path that a request asks for, as text, with the index page filled in
/// for a directory.
pub open spec fn path_text(req: Seq<u8>) -> Seq<char> {
    utf8_lossy(path_bytes(req)) + index_suffix(path_bytes(req))
}

/// True where the token at the front of `s` ends at `n`: no space stands
/// before `n`, and a space or the end of the bytes stands at it.
pub open spec fn ends_token(s: Seq<u8>, n: int) -> bool {
    &&& 0 <= n <= s.len()
    &&& forall|i: int| 0 <= i < n ==> s[i] != SPACE
    &&& n == s.len() || s[n] == SPACE
}

/// `token_len` is the one place at which the token at the front ends.
pub proof fn lemma_token_len(s: Seq<u8>, n: int)
    ensures
        ends_token(s, n) <==> token_len(s) == n,
    decreases s.len(),
{
    if s.len() != 0 && s[0] != SPACE {
        let rest = s.drop_first();
        lemma_token_len(rest, n - 1);
        if ends_token(s, n) {
            assert(n > 0);
            assert forall|i: int| 0 <= i < n - 1 implies rest[i] != SPACE by {
                assert(rest[i] == s[i + 1]);
            }
            assert(ends_token(rest, n - 1));
        }
        if token_len(s) == n {
            assert(ends_token(rest, n - 1));
            assert forall|i: int| 0 <= i < n implies s[i] != SPACE by {
                if i > 0 {
                    assert(s[i] == rest[i - 1]);
                }
            }
        }
    } else if ends_token(s, n) && n > 0 {
        assert(s[0] != SPACE);
    }
}

/// What is taken on trust of `String::from_utf8_lossy`: that the text it
/// returns depends on the bytes alone. Nothing is claimed of what that text
/// is.
pub assume_specification<'a>[ String::from_utf8_lossy ](v: &'a [u8]) -> (text: Cow<'a, str>)
    ensures
        text@ == utf8_lossy(v@),
;

/// The bytes as text of their own, with whatever is not UTF-8 replaced.
fn decode_lossy(bytes: &[u8]) -> (text: String)
    ensures
        text@ == utf8_lossy(bytes@),
{
    match String::from_utf8_lossy(bytes) {
        Cow::Borrowed(text) => text.to_owned(),
        Cow::Owned(text) => text,
    }
}

/// Where the token that starts at `from` ends: the position of the first
/// space at or after `from`, or the length of the request.
pub fn token_end(req: &[u8], from: usize) -> (end: usize)
    requires
        from <= req@.len(),
    ensures
        end == from + token_len(req@.skip(from as int)),
        from <= end <= req@.len(),
{
    let mut end: usize = from;
    while end < req.len() && req[end] != SPACE
        invariant
            from <= end <= req@.len(),
            forall|i: int| from <= i < end ==> req@[i] != SPACE,
        decreases req@.len() - end,
    {
        end += 1;
    }
    proof {
        assert(ends_token(req@.skip(from as int), end - from));
        lemma_token_len(req@.skip(from as int), end - from);
    }
    end
}

/// Whether the request line names a path: a second token that is not empty.
pub fn has_path(req: &[u8]) -> (b: bool)
    ensures
        b == (path_bytes(req@).len() > 0),
{
    let (start, end) = path_span(req);
    start < end
}

/// The method of a request: its first token, as text.
pub fn method(req: &[u8]) -> (text: String)
    ensures
        text@ == method_text(req@),
{
    let end = token_end(req, 0);
    assert(req@.skip(0) =~= req@);
    decode_lossy(&req[0..end])
}

/// Completes the text of a path: where `token`, the path as it was sent,
/// ends in a slash, the name of the index page is put behind `text`.
pub fn with_index(text: String, token: &[u8]) -> (full: String)
    ensures
        full@ == text@ + index_suffix(token@),
{
    let mut full = text;
    if token.len() > 0 && token[token.len() - 1] == SLASH {
        full.append("index.html");
    }
    full
}

/// The path that a request asks for: its second token, as text, followed by
/// the name of the index page where the token ends in a slash.
///
/// The request has to name a path: see `has_path`.
pub fn path(req: &[u8]) -> (text: String)
    requires
        path_bytes(req@).len() > 0,
    ensures
        text@ == path_text(req@),
{
    let (start, end) = path_span(req);
    let token = &req[start..end];
    with_index(decode_lossy(token), token)
}

/// Where the second token of the request starts and ends.
fn path_span(req: &[u8]) -> (span: (usize, usize))
    ensures
        span.0 <= span.1 <= req@.len(),
        req@.subrange(span.0 as int, span.1 as int) == path_bytes(req@),
{
    let first = token_end(req, 0);
    assert(req@.skip(0) =~= req@);
    let start = if first < req.len() {
        first + 1
    } else {
        first
    };
    let end = token_end(req, start);
    (start, end)
}

} // verus!
