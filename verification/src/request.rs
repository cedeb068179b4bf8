//! The request-line grammar: one line, at least three whitespace-separated
//! tokens, read positionally as method, path and protocol version. A line
//! with fewer than three tokens is a malformed request.

use vstd::prelude::*;
use vstd::slice::{slice_subrange, slice_to_vec};

verus! {

/// The faults a request line can show.
#[derive(Debug, Clone, Copy, PartialEq, Eq, Structural)]
pub enum RequestError {
    /// The line holds fewer than three whitespace-separated tokens.
    MalformedRequest,
}

/// The first line of a request, split into its three tokens.
pub struct RequestLine {
    pub method: Vec<u8>,
    pub path: Vec<u8>,
    pub version: Vec<u8>,
}

/// A whitespace byte: space, tab, carriage return or line feed.
pub open spec fn is_ws(b: u8) -> bool {
    b == 32 || b == 9 || b == 13 || b == 10
}

/// The first position at or after `i` holding a non-whitespace byte, or the
/// length if only whitespace remains.
pub open spec fn skip_ws_from(s: Seq<u8>, i: int) -> int
    decreases s.len() - i,
    when 0 <= i <= s.len()
{
    if i >= s.len() {
        i
    } else if is_ws(s[i]) {
        skip_ws_from(s, i + 1)
    } else {
        i
    }
}

/// Where skipping whitespace lands: between `i` and the length, on a
/// non-whitespace byte if not at the end, with only whitespace before it.
pub proof fn lemma_skip_ws_bounds(s: Seq<u8>, i: int)
    requires
        0 <= i <= s.len(),
    ensures
        i <= skip_ws_from(s, i) <= s.len(),
        skip_ws_from(s, i) < s.len() ==> !is_ws(s[skip_ws_from(s, i)]),
        forall|k: int| i <= k < skip_ws_from(s, i) ==> is_ws(s[k]),
    decreases s.len() - i,
{
    if i < s.len() && is_ws(s[i]) {
        lemma_skip_ws_bounds(s, i + 1);
    }
}

/// The first position at or after `i` holding a whitespace byte, or the
/// length if none follows: the end of the token starting at `i`.
pub open spec fn scan_token_from(s: Seq<u8>, i: int) -> int
    decreases s.len() - i,
    when 0 <= i <= s.len()
{
    if i >= s.len() {
        i
    } else if !is_ws(s[i]) {
        scan_token_from(s, i + 1)
    } else {
        i
    }
}

/// Where the token scan lands: between `i` and the length, on a whitespace
/// byte if not at the end, with no whitespace before it.
pub proof fn lemma_scan_token_bounds(s: Seq<u8>, i: int)
    requires
        0 <= i <= s.len(),
    ensures
        i <= scan_token_from(s, i) <= s.len(),
        scan_token_from(s, i) < s.len() ==> is_ws(s[scan_token_from(s, i)]),
        forall|k: int| i <= k < scan_token_from(s, i) ==> !is_ws(s[k]),
    decreases s.len() - i,
{
    if i < s.len() && !is_ws(s[i]) {
        lemma_scan_token_bounds(s, i + 1);
    }
}

/// The whitespace-separated tokens of `s` from position `i` on.
pub open spec fn spec_tokens_from(s: Seq<u8>, i: int) -> Seq<Seq<u8>>
    decreases s.len() - i,
    when 0 <= i <= s.len()
    via spec_tokens_from_decreases
{
    let start = skip_ws_from(s, i);
    if start >= s.len() {
        Seq::empty()
    } else {
        seq![s.subrange(start, scan_token_from(s, start))] + spec_tokens_from(
            s,
            scan_token_from(s, start),
        )
    }
}

#[via_fn]
proof fn spec_tokens_from_decreases(s: Seq<u8>, i: int) {
    if 0 <= i <= s.len() {
        lemma_skip_ws_bounds(s, i);
        let start = skip_ws_from(s, i);
        if start < s.len() {
            lemma_scan_token_bounds(s, start);
        }
    }
}

/// The whitespace-separated tokens of a request line, in order.
pub open spec fn spec_tokens(s: Seq<u8>) -> Seq<Seq<u8>> {
    spec_tokens_from(s, 0)
}

/// Whether a byte is whitespace.
pub fn is_ws_byte(b: u8) -> (r: bool)
    ensures
        r == is_ws(b),
{
    b == 32 || b == 9 || b == 13 || b == 10
}

/// Walks past whitespace, landing on `skip_ws_from`'s position.
fn skip_ws(line: &[u8], i: usize) -> (r: usize)
    requires
        i <= line@.len(),
    ensures
        r == skip_ws_from(line@, i as int),
        i <= r <= line@.len(),
        r < line@.len() ==> !is_ws(line@[r as int]),
    decreases line@.len() - i,
{
    let mut j = i;
    while j < line.len() && is_ws_byte(line[j])
        invariant
            i <= j <= line@.len(),
            skip_ws_from(line@, i as int) == skip_ws_from(line@, j as int),
        decreases line@.len() - j,
    {
        proof {
            assert(skip_ws_from(line@, j as int) == skip_ws_from(line@, j + 1 as int));
        }
        j = j + 1;
    }
    j
}

/// Walks past a token's bytes, landing on `scan_token_from`'s position.
fn scan_token(line: &[u8], i: usize) -> (r: usize)
    requires
        i <= line@.len(),
    ensures
        r == scan_token_from(line@, i as int),
        i <= r <= line@.len(),
    decreases line@.len() - i,
{
    let mut j = i;
    while j < line.len() && !is_ws_byte(line[j])
        invariant
            i <= j <= line@.len(),
            scan_token_from(line@, i as int) == scan_token_from(line@, j as int),
        decreases line@.len() - j,
    {
        proof {
            assert(scan_token_from(line@, j as int) == scan_token_from(line@, j + 1 as int));
        }
        j = j + 1;
    }
    j
}

/// Splits a request line into method, path and version: the first three
/// whitespace-separated tokens. A line with fewer than three tokens is
/// rejected as a malformed request; tokens past the third are ignored.
pub fn parse_request_line(line: &[u8]) -> (r: Result<RequestLine, RequestError>)
    ensures
        match r {
            Ok(rl) => {
                &&& spec_tokens(line@).len() >= 3
                &&& rl.method@ == spec_tokens(line@)[0]
                &&& rl.path@ == spec_tokens(line@)[1]
                &&& rl.version@ == spec_tokens(line@)[2]
            },
            Err(e) => e == RequestError::MalformedRequest && spec_tokens(line@).len() < 3,
        },
{
    let ghost s = line@;
    let start0 = skip_ws(line, 0);
    if start0 == line.len() {
        proof {
            assert(spec_tokens(s) =~= Seq::<Seq<u8>>::empty());
        }
        return Err(RequestError::MalformedRequest);
    }
    let end0 = scan_token(line, start0);
    let ghost tok0 = s.subrange(start0 as int, end0 as int);
    proof {
        assert(spec_tokens(s) == seq![tok0] + spec_tokens_from(s, end0 as int));
    }
    let method = slice_to_vec(slice_subrange(line, start0, end0));

    let start1 = skip_ws(line, end0);
    if start1 == line.len() {
        proof {
            assert(spec_tokens_from(s, end0 as int) =~= Seq::<Seq<u8>>::empty());
            assert(spec_tokens(s).len() == 1);
        }
        return Err(RequestError::MalformedRequest);
    }
    let end1 = scan_token(line, start1);
    let ghost tok1 = s.subrange(start1 as int, end1 as int);
    proof {
        assert(spec_tokens_from(s, end0 as int) == seq![tok1] + spec_tokens_from(
            s,
            end1 as int,
        ));
    }
    let path = slice_to_vec(slice_subrange(line, start1, end1));

    let start2 = skip_ws(line, end1);
    if start2 == line.len() {
        proof {
            assert(spec_tokens_from(s, end1 as int) =~= Seq::<Seq<u8>>::empty());
            assert(spec_tokens(s).len() == 2);
        }
        return Err(RequestError::MalformedRequest);
    }
    let end2 = scan_token(line, start2);
    let ghost tok2 = s.subrange(start2 as int, end2 as int);
    proof {
        assert(spec_tokens_from(s, end1 as int) == seq![tok2] + spec_tokens_from(
            s,
            end2 as int,
        ));
        assert(spec_tokens(s)[0] == tok0);
        assert(spec_tokens(s)[1] == tok1);
        assert(spec_tokens(s)[2] == tok2);
    }
    let version = slice_to_vec(slice_subrange(line, start2, end2));
    Ok(RequestLine { method, path, version })
}

} // verus!
