//! The connection handler's decisions, free of any socket or file handling:
//! parse the request line, consult the route table, pick a status line and a
//! framing, and render the final bytes once the resource fetch has either
//! produced the body or failed.
//!
//! The surrounding program reads the line, fetches the named resource and
//! writes the rendered bytes back; every choice in between is made here.

use vstd::prelude::*;
use crate::request::{parse_request_line, spec_tokens, RequestError};
use crate::response::{spec_file_response, spec_simple_response, Response};
use crate::routes::{ResourceDescriptor, RouteTable};
use crate::wire::{ascii_of, bytes_eq, str_bytes};

verus! {

/// The status line of a served resource.
pub open spec fn spec_status_ok() -> Seq<u8> {
    ascii_of("HTTP/1.1 200 OK"@)
}

/// The status line of a miss in the route table.
pub open spec fn spec_status_not_found() -> Seq<u8> {
    ascii_of("HTTP/1.1 404 NOT FOUND"@)
}

/// The status line sent for a malformed request line.
pub open spec fn spec_status_bad_request() -> Seq<u8> {
    ascii_of("HTTP/1.1 400 BAD REQUEST"@)
}

/// The status line sent when the named resource cannot be fetched.
pub open spec fn spec_status_server_error() -> Seq<u8> {
    ascii_of("HTTP/1.1 500 INTERNAL SERVER ERROR"@)
}

/// The one path served in the attachment framing.
pub open spec fn spec_download_path() -> Seq<u8> {
    ascii_of("/download"@)
}

/// The resource served on a route miss.
pub open spec fn spec_fallback_name() -> Seq<u8> {
    ascii_of("404.html"@)
}

/// The content kind of the fallback resource.
pub open spec fn spec_fallback_kind() -> Seq<u8> {
    ascii_of("text/html"@)
}

/// Chooses the status line and the resource for a request path: a registered
/// path gets its own descriptor and a success status, an unregistered one the
/// fallback page and a not-found status.
pub fn get_response_parts(path: &[u8], routes: &RouteTable) -> (r: (Vec<u8>, ResourceDescriptor))
    ensures
        match routes.spec_resolve(path@) {
            Some(nk) => r.0@ == spec_status_ok() && r.1.name@ == nk.0 && r.1.kind@ == nk.1,
            None => r.0@ == spec_status_not_found() && r.1.name@ == spec_fallback_name()
                && r.1.kind@ == spec_fallback_kind(),
        },
{
    match routes.resolve(path) {
        Some(desc) => {
            proof {
                reveal_strlit("HTTP/1.1 200 OK");
            }
            (str_bytes("HTTP/1.1 200 OK"), desc.duplicate())
        },
        None => {
            proof {
                reveal_strlit("HTTP/1.1 404 NOT FOUND");
                reveal_strlit("404.html");
                reveal_strlit("text/html");
            }
            (
                str_bytes("HTTP/1.1 404 NOT FOUND"),
                ResourceDescriptor::new(str_bytes("404.html"), str_bytes("text/html")),
            )
        },
    }
}

/// Everything decided about a request before its resource is fetched: the
/// status line, the resource to fetch, and which framing to use.
pub struct ResponsePlan {
    pub status_line: Vec<u8>,
    pub desc: ResourceDescriptor,
    pub attachment: bool,
}

/// Turns a raw request line into a plan: the request's path is routed, and
/// the download path alone is framed as an attachment. A line with fewer
/// than three tokens is rejected instead.
pub fn plan_request(line: &[u8], routes: &RouteTable) -> (r: Result<ResponsePlan, RequestError>)
    ensures
        match r {
            Ok(plan) => {
                &&& spec_tokens(line@).len() >= 3
                &&& plan.attachment == (spec_tokens(line@)[1] == spec_download_path())
                &&& match routes.spec_resolve(spec_tokens(line@)[1]) {
                    Some(nk) => plan.status_line@ == spec_status_ok() && plan.desc.name@ == nk.0
                        && plan.desc.kind@ == nk.1,
                    None => plan.status_line@ == spec_status_not_found() && plan.desc.name@
                        == spec_fallback_name() && plan.desc.kind@ == spec_fallback_kind(),
                }
            },
            Err(e) => e == RequestError::MalformedRequest && spec_tokens(line@).len() < 3,
        },
{
    let parsed = match parse_request_line(line) {
        Ok(parsed) => parsed,
        Err(e) => {
            return Err(e);
        },
    };
    let (status_line, desc) = get_response_parts(parsed.path.as_slice(), routes);
    proof {
        reveal_strlit("/download");
    }
    let download_path = str_bytes("/download");
    let attachment = bytes_eq(parsed.path.as_slice(), download_path.as_slice());
    Ok(ResponsePlan { status_line, desc, attachment })
}

/// The exact bytes sent back for a malformed request line: an inline
/// response with an empty body.
pub fn bad_request_response() -> (r: Vec<u8>)
    ensures
        r@ == spec_simple_response(spec_status_bad_request(), Seq::<u8>::empty()),
{
    proof {
        reveal_strlit("HTTP/1.1 400 BAD REQUEST");
    }
    let resp = Response::new(str_bytes("HTTP/1.1 400 BAD REQUEST"), Vec::new(), None, Vec::new());
    resp.simple_response()
}

/// Renders a plan once the fetch is over. A fetched body is framed as the
/// plan says; a failed fetch turns into an inline server-error response with
/// an empty body, so the fault stays contained to this one connection.
pub fn render_response(plan: ResponsePlan, fetched: Option<Vec<u8>>) -> (r: Vec<u8>)
    ensures
        match fetched {
            Some(body) => r@ == if plan.attachment {
                spec_file_response(plan.status_line@, Some(plan.desc.kind@), plan.desc.name@, body@)
            } else {
                spec_simple_response(plan.status_line@, body@)
            },
            None => r@ == spec_simple_response(spec_status_server_error(), Seq::<u8>::empty()),
        },
{
    match fetched {
        Some(body) => {
            let attachment = plan.attachment;
            let resp = Response::new(plan.status_line, plan.desc.name, Some(plan.desc.kind), body);
            if attachment {
                resp.file_response()
            } else {
                resp.simple_response()
            }
        },
        None => {
            proof {
                reveal_strlit("HTTP/1.1 500 INTERNAL SERVER ERROR");
            }
            let resp = Response::new(
                str_bytes("HTTP/1.1 500 INTERNAL SERVER ERROR"),
                Vec::new(),
                None,
                Vec::new(),
            );
            resp.simple_response()
        },
    }
}

} // verus!
