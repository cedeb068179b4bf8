//! The Response Builder: produces the exact byte sequence written back over a
//! connection, in one of two framings.
//!
//! The inline format carries the body as text straight after the headers; the
//! attachment format labels the body as a downloadable file. Both end the
//! header block with one blank line (CRLF CRLF), and both declare a
//! `Content-Length` equal to the exact byte count of the body.

use vstd::prelude::*;
use crate::wire::{ascii_of, dec_rep, dec_val, dec_usize, str_bytes};
use crate::wire::{lemma_dec_rep_val, lemma_dec_rep_digits};

verus! {

/// A response about to be framed: a status line, the resource's bytes, the
/// resource's name and an optional content kind. Built fresh per request,
/// serialized once and discarded.
pub struct Response {
    pub status_line: Vec<u8>,
    pub content_type: Option<Vec<u8>>,
    pub filename: Vec<u8>,
    pub contents: Vec<u8>,
}

/// The header text between the status line and the length digits of an
/// inline response.
pub open spec fn spec_inline_label() -> Seq<u8> {
    ascii_of("\r\nContent-Length: "@)
}

/// The blank line that ends every header block.
pub open spec fn spec_blank_line() -> Seq<u8> {
    ascii_of("\r\n\r\n"@)
}

/// The exact bytes of an inline response: status line, `Content-Length`
/// header, blank line, then the body as it stands.
pub open spec fn spec_simple_response(status: Seq<u8>, body: Seq<u8>) -> Seq<u8> {
    status + spec_inline_label() + dec_rep(body.len()) + spec_blank_line() + body
}

/// The content kind an attachment declares when none was given.
pub open spec fn spec_default_kind() -> Seq<u8> {
    ascii_of("application/octet-stream"@)
}

/// The header text between the status line and the length digits of an
/// attachment response.
pub open spec fn spec_attachment_label() -> Seq<u8> {
    ascii_of("\r\nConnection: keep-alive\r\nContent-Length: "@)
}

/// The header text between the length digits and the content kind.
pub open spec fn spec_type_label() -> Seq<u8> {
    ascii_of("\r\nContent-Type: "@)
}

/// The header text between the content kind and the file name.
pub open spec fn spec_disposition_label() -> Seq<u8> {
    ascii_of("\r\nContent-Disposition: attachment; filename*="@)
}

/// The exact bytes of an attachment response: status line, `Connection`,
/// `Content-Length`, `Content-Type` and `Content-Disposition` headers, blank
/// line, then the raw body appended without re-encoding.
pub open spec fn spec_file_response(
    status: Seq<u8>,
    kind: Option<Seq<u8>>,
    filename: Seq<u8>,
    body: Seq<u8>,
) -> Seq<u8> {
    status + spec_attachment_label() + dec_rep(body.len()) + spec_type_label() + (match kind {
        Some(k) => k,
        None => spec_default_kind(),
    }) + spec_disposition_label() + filename + spec_blank_line() + body
}

/// A byte sequence free of carriage returns and line feeds, as any sane
/// status line, content kind or file name is.
pub open spec fn crlf_free(s: Seq<u8>) -> bool {
    forall|i: int| 0 <= i < s.len() ==> s[i] != 13 && s[i] != 10
}

/// The header block of an inline response: everything before the body.
pub open spec fn spec_simple_header(status: Seq<u8>, body_len: nat) -> Seq<u8> {
    status + spec_inline_label() + dec_rep(body_len) + spec_blank_line()
}

/// The header block of an attachment response: everything before the body.
pub open spec fn spec_file_header(
    status: Seq<u8>,
    kind: Option<Seq<u8>>,
    filename: Seq<u8>,
    body_len: nat,
) -> Seq<u8> {
    status + spec_attachment_label() + dec_rep(body_len) + spec_type_label() + (match kind {
        Some(k) => k,
        None => spec_default_kind(),
    }) + spec_disposition_label() + filename + spec_blank_line()
}

/// An inline response of a body of length `n` is a header block followed by
/// the body itself; the header block ends in one blank line and its declared
/// `Content-Length` reads back as exactly `n`.
pub proof fn lemma_simple_response_framing(status: Seq<u8>, body: Seq<u8>)
    ensures
        ({
            let header = spec_simple_header(status, body.len());
            &&& spec_simple_response(status, body) == header + body
            &&& header.len() > 4
            &&& header.subrange(header.len() - 4, header.len() as int) == spec_blank_line()
            &&& dec_val(dec_rep(body.len())) == body.len()
        }),
{
    reveal_strlit("\r\nContent-Length: ");
    reveal_strlit("\r\n\r\n");
    lemma_dec_rep_val(body.len());
    lemma_dec_rep_digits(body.len());
    let header = spec_simple_header(status, body.len());
    assert(spec_simple_response(status, body) =~= header + body);
    assert(header.subrange(header.len() - 4, header.len() as int) =~= spec_blank_line());
}

/// An attachment response of a body of length `n` is a header block followed
/// by the raw body; the header block ends in one blank line and its declared
/// `Content-Length` reads back as exactly `n`.
pub proof fn lemma_file_response_framing(
    status: Seq<u8>,
    kind: Option<Seq<u8>>,
    filename: Seq<u8>,
    body: Seq<u8>,
)
    ensures
        ({
            let header = spec_file_header(status, kind, filename, body.len());
            &&& spec_file_response(status, kind, filename, body) == header + body
            &&& header.len() > 4
            &&& header.subrange(header.len() - 4, header.len() as int) == spec_blank_line()
            &&& dec_val(dec_rep(body.len())) == body.len()
        }),
{
    reveal_strlit("\r\nConnection: keep-alive\r\nContent-Length: ");
    reveal_strlit("\r\nContent-Type: ");
    reveal_strlit("application/octet-stream");
    reveal_strlit("\r\nContent-Disposition: attachment; filename*=");
    reveal_strlit("\r\n\r\n");
    lemma_dec_rep_val(body.len());
    lemma_dec_rep_digits(body.len());
    let header = spec_file_header(status, kind, filename, body.len());
    assert(spec_file_response(status, kind, filename, body) =~= header + body);
    assert(header.subrange(header.len() - 4, header.len() as int) =~= spec_blank_line());
}

/// In an inline response whose status line is free of CR and LF, the blank
/// line that ends the header block is the only one in it: no earlier
/// position holds CRLF CRLF.
pub proof fn lemma_simple_response_single_blank_line(status: Seq<u8>, body: Seq<u8>)
    requires
        crlf_free(status),
    ensures
        ({
            let header = spec_simple_header(status, body.len());
            forall|j: int|
                0 <= j < header.len() - 4 ==> !(#[trigger] header[j] == 13 && header[j + 1] == 10
                    && header[j + 2] == 13 && header[j + 3] == 10)
        }),
{
    reveal_strlit("\r\nContent-Length: ");
    reveal_strlit("\r\n\r\n");
    lemma_dec_rep_digits(body.len());
    let label = spec_inline_label();
    let digits = dec_rep(body.len());
    let blank = spec_blank_line();
    let header = spec_simple_header(status, body.len());
    let s = status.len() as int;
    let d = digits.len() as int;
    assert(label.len() == 18);
    assert(blank.len() == 4);
    assert(forall|k: int| 2 <= k < 18 ==> #[trigger] label[k] != 13);
    assert forall|j: int|
        0 <= j < header.len() && #[trigger] header[j] == 13 implies j == s || j == header.len() - 4
        || j == header.len() - 2 by {
        if j < s {
            assert(header[j] == status[j]);
        } else if j < s + 18 {
            assert(header[j] == label[j - s]);
        } else if j < s + 18 + d {
            assert(header[j] == digits[j - s - 18]);
        } else {
            assert(header[j] == blank[j - s - 18 - d]);
        }
    }
    assert forall|j: int| 0 <= j < header.len() - 4 implies !(#[trigger] header[j] == 13 && header[j
        + 1] == 10 && header[j + 2] == 13 && header[j + 3] == 10) by {
        if header[j] == 13 && header[j + 2] == 13 {
            assert(j == s);
            assert(header[j + 2] == label[2]);
        }
    }
}

/// In an attachment response whose status line, content kind and file name
/// are free of CR and LF, the blank line that ends the header block is the
/// only one in it.
pub proof fn lemma_file_response_single_blank_line(
    status: Seq<u8>,
    kind: Option<Seq<u8>>,
    filename: Seq<u8>,
    body: Seq<u8>,
)
    requires
        crlf_free(status),
        crlf_free(
            match kind {
                Some(k) => k,
                None => spec_default_kind(),
            },
        ),
        crlf_free(filename),
    ensures
        ({
            let header = spec_file_header(status, kind, filename, body.len());
            forall|j: int|
                0 <= j < header.len() - 4 ==> !(#[trigger] header[j] == 13 && header[j + 1] == 10
                    && header[j + 2] == 13 && header[j + 3] == 10)
        }),
{
    reveal_strlit("\r\nConnection: keep-alive\r\nContent-Length: ");
    reveal_strlit("\r\nContent-Type: ");
    reveal_strlit("application/octet-stream");
    reveal_strlit("\r\nContent-Disposition: attachment; filename*=");
    reveal_strlit("\r\n\r\n");
    lemma_dec_rep_digits(body.len());
    let conn_label = spec_attachment_label();
    let type_label = spec_type_label();
    let disp_label = spec_disposition_label();
    let kind_bytes = match kind {
        Some(k) => k,
        None => spec_default_kind(),
    };
    let digits = dec_rep(body.len());
    let blank = spec_blank_line();
    let header = spec_file_header(status, kind, filename, body.len());
    let s = status.len() as int;
    let d = digits.len() as int;
    let kd = kind_bytes.len() as int;
    let f = filename.len() as int;
    assert(conn_label.len() == 42);
    assert(type_label.len() == 16);
    assert(disp_label.len() == 45);
    assert(blank.len() == 4);
    assert(forall|k: int|
        0 <= k < 42 && k != 0 && k != 24 ==> #[trigger] conn_label[k] != 13);
    assert(forall|k: int| 1 <= k < 16 ==> #[trigger] type_label[k] != 13);
    assert(forall|k: int| 1 <= k < 45 ==> #[trigger] disp_label[k] != 13);
    let t0 = s + 42 + d;
    let p0 = t0 + 16 + kd;
    assert forall|j: int|
        0 <= j < header.len() && #[trigger] header[j] == 13 implies j == s || j == s + 24 || j
        == t0 || j == p0 || j == header.len() - 4 || j == header.len() - 2 by {
        if j < s {
            assert(header[j] == status[j]);
        } else if j < s + 42 {
            assert(header[j] == conn_label[j - s]);
        } else if j < t0 {
            assert(header[j] == digits[j - s - 42]);
        } else if j < t0 + 16 {
            assert(header[j] == type_label[j - t0]);
        } else if j < p0 {
            assert(header[j] == kind_bytes[j - t0 - 16]);
        } else if j < p0 + 45 {
            assert(header[j] == disp_label[j - p0]);
        } else if j < p0 + 45 + f {
            assert(header[j] == filename[j - p0 - 45]);
        } else {
            assert(header[j] == blank[j - p0 - 45 - f]);
        }
    }
    assert forall|j: int| 0 <= j < header.len() - 4 implies !(#[trigger] header[j] == 13 && header[j
        + 1] == 10 && header[j + 2] == 13 && header[j + 3] == 10) by {
        if header[j] == 13 && header[j + 2] == 13 {
            if j == s {
                assert(header[j + 2] == conn_label[2]);
            } else if j == s + 24 {
                assert(header[j + 2] == conn_label[26]);
            } else if j == t0 {
                assert(header[j + 2] == type_label[2]);
            } else if j == p0 {
                assert(header[j + 2] == disp_label[2]);
            }
        }
    }
}

/// Building a response from the same inputs twice yields byte-identical
/// output: both framings are functions of the response's fields alone.
pub proof fn lemma_build_idempotent(a: Response, b: Response)
    requires
        a.status_line@ == b.status_line@,
        a.spec_kind() == b.spec_kind(),
        a.filename@ == b.filename@,
        a.contents@ == b.contents@,
    ensures
        spec_simple_response(a.status_line@, a.contents@) == spec_simple_response(
            b.status_line@,
            b.contents@,
        ),
        spec_file_response(a.status_line@, a.spec_kind(), a.filename@, a.contents@)
            == spec_file_response(b.status_line@, b.spec_kind(), b.filename@, b.contents@),
{
}

impl Response {
    /// The content kind as a ghost value.
    pub open spec fn spec_kind(self) -> Option<Seq<u8>> {
        match self.content_type {
            Some(k) => Some(k@),
            None => None,
        }
    }

    /// Assembles a response from a status line, the name of the resource it
    /// serves, an optional content kind, and the resource's bytes.
    pub fn new(
        status_line: Vec<u8>,
        filename: Vec<u8>,
        content_type: Option<Vec<u8>>,
        contents: Vec<u8>,
    ) -> (r: Response)
        ensures
            r.status_line == status_line,
            r.filename == filename,
            r.content_type == content_type,
            r.contents == contents,
    {
        Response { status_line, content_type, filename, contents }
    }

    /// The byte length of the body.
    pub fn len(&self) -> (n: usize)
        ensures
            n == self.contents@.len(),
    {
        self.contents.len()
    }

    /// Frames the response in the inline format.
    pub fn simple_response(&self) -> (r: Vec<u8>)
        ensures
            r@ == spec_simple_response(self.status_line@, self.contents@),
    {
        proof {
            reveal_strlit("\r\nContent-Length: ");
            reveal_strlit("\r\n\r\n");
        }
        let mut out: Vec<u8> = Vec::new();
        out.extend_from_slice(self.status_line.as_slice());
        let label = str_bytes("\r\nContent-Length: ");
        out.extend_from_slice(label.as_slice());
        let digits = dec_usize(self.contents.len());
        out.extend_from_slice(digits.as_slice());
        let blank = str_bytes("\r\n\r\n");
        out.extend_from_slice(blank.as_slice());
        out.extend_from_slice(self.contents.as_slice());
        proof {
            assert(out@ =~= spec_simple_response(self.status_line@, self.contents@));
        }
        out
    }

    /// Frames the response in the attachment format.
    pub fn file_response(&self) -> (r: Vec<u8>)
        ensures
            r@ == spec_file_response(
                self.status_line@,
                self.spec_kind(),
                self.filename@,
                self.contents@,
            ),
    {
        proof {
            reveal_strlit("\r\nConnection: keep-alive\r\nContent-Length: ");
            reveal_strlit("\r\nContent-Type: ");
            reveal_strlit("application/octet-stream");
            reveal_strlit("\r\nContent-Disposition: attachment; filename*=");
            reveal_strlit("\r\n\r\n");
        }
        let mut out: Vec<u8> = Vec::new();
        out.extend_from_slice(self.status_line.as_slice());
        let label = str_bytes("\r\nConnection: keep-alive\r\nContent-Length: ");
        out.extend_from_slice(label.as_slice());
        let digits = dec_usize(self.contents.len());
        out.extend_from_slice(digits.as_slice());
        let type_label = str_bytes("\r\nContent-Type: ");
        out.extend_from_slice(type_label.as_slice());
        match &self.content_type {
            Some(kind) => out.extend_from_slice(kind.as_slice()),
            None => {
                let fallback = str_bytes("application/octet-stream");
                out.extend_from_slice(fallback.as_slice());
            },
        }
        let disposition = str_bytes("\r\nContent-Disposition: attachment; filename*=");
        out.extend_from_slice(disposition.as_slice());
        out.extend_from_slice(self.filename.as_slice());
        let blank = str_bytes("\r\n\r\n");
        out.extend_from_slice(blank.as_slice());
        out.extend_from_slice(self.contents.as_slice());
        proof {
            assert(out@ =~= spec_file_response(
                self.status_line@,
                self.spec_kind(),
                self.filename@,
                self.contents@,
            ));
        }
        out
    }
}

} // verus!
