//! What the server answers on a connection: the bytes read decide the bytes
//! written. Reading, writing and accepting connections are left to the caller.

use vstd::prelude::*;
use vstd::utf8::{decode_utf8, encode_utf8, valid_utf8};

use crate::http_core::request::{path_text, request_ok, HttpRequest, Request};
use crate::http_core::response::{head_text, Response};
use crate::text::{same_text, utf8_text};

verus! {

/// The address a server listens on.
#[derive(Debug, Clone, Copy, PartialEq, Eq)]
pub struct CrabServer {
    pub ip: [u8; 4],
    pub port: u16,
}

impl CrabServer {
    pub fn new(ip: [u8; 4], port: u16) -> (r: CrabServer)
        ensures
            r.ip == ip,
            r.port == port,
    {
        CrabServer { ip, port }
    }
}

/// The status that the fixed dispatch table gives a path.
pub open spec fn route_status(path: Seq<char>) -> u16 {
    if path == "/"@ || path == "/hello"@ {
        200
    } else {
        404
    }
}

/// The body text that the fixed dispatch table gives a path.
pub open spec fn route_body(path: Seq<char>) -> Seq<char> {
    if path == "/"@ {
        "Welcome to CrabServer"@
    } else if path == "/hello"@ {
        "Welcome to CrabServer Other path, so the router is working"@
    } else {
        "Not Found"@
    }
}

/// The response for a path: `/` and `/hello` have fixed welcome texts, any
/// other path is `404 Not Found`. No header is set.
pub fn route(path: &str) -> (r: Response)
    ensures
        r.status_code == route_status(path@),
        r.headers@ == Map::<Seq<char>, Seq<char>>::empty(),
        r.headers.fields().len() == 0,
        r.body@ == encode_utf8(route_body(path@)),
{
    let (code, text) = if same_text(path, "/") {
        (200, "Welcome to CrabServer")
    } else if same_text(path, "/hello") {
        (200, "Welcome to CrabServer Other path, so the router is working")
    } else {
        (404, "Not Found")
    };
    Response::new(code).add_body(text.as_bytes_vec())
}

/// The bytes to write back for the request text `raw`, or `None` where the
/// request does not parse, in which case nothing is written.
pub fn respond(raw: &str) -> (r: Option<Vec<u8>>)
    ensures
        r is Some <==> request_ok(raw@),
        r is Some ==> r->0@ == encode_utf8(
            head_text(route_status(path_text(raw@)), Seq::empty()),
        ) + encode_utf8(route_body(path_text(raw@))),
{
    match Request::parse(raw) {
        Ok(req) => {
            let resp = route(req.path.as_str());
            proof {
                vstd::utf8::encode_utf8_valid_utf8(route_body(path_text(raw@)));
                assert(resp.headers.fields() =~= Seq::<(Seq<char>, Seq<char>)>::empty());
            }
            match resp.format() {
                Ok(bytes) => Some(bytes),
                Err(_) => None,
            }
        },
        Err(_) => None,
    }
}

/// The bytes to write back for the bytes read from a connection: they are
/// read as UTF-8 text and answered as `respond` does; bytes that are not
/// UTF-8 get no answer.
pub fn handle_request_bytes(buffer: &[u8]) -> (r: Option<Vec<u8>>)
    ensures
        r is Some <==> valid_utf8(buffer@) && request_ok(decode_utf8(buffer@)),
        r is Some ==> r->0@ == encode_utf8(
            head_text(route_status(path_text(decode_utf8(buffer@))), Seq::empty()),
        ) + encode_utf8(route_body(path_text(decode_utf8(buffer@)))),
{
    match utf8_text(buffer) {
        Some(text) => respond(text),
        None => None,
    }
}

} // verus!
