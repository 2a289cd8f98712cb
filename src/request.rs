//! A lenient request reader: it never fails, and reads what is missing as empty.

use vstd::prelude::*;
use vstd::utf8::encode_utf8;

use crate::http_core::http_types::{HeaderMap, method_token};
use crate::http_core::request::{
    body_text, has_delimiter, head_fields, method_text, path_text, read_header_fields,
    request_line_bounds,
};
use crate::text::{chars_of, find_blank_line, line_bounds};

verus! {

pub enum HttpMethods {
    GET,
    POST,
    PUT,
    DELETE,
    HEAD,
    OPTIONS,
    PATCH,
    CONNECT,
    TRACE,
}

/// The verb of the shared enumeration that a verb of this one stands for.
pub open spec fn shared_verb(m: HttpMethods) -> crate::http_core::http_types::HttpMethods {
    match m {
        HttpMethods::GET => crate::http_core::http_types::HttpMethods::GET,
        HttpMethods::POST => crate::http_core::http_types::HttpMethods::POST,
        HttpMethods::PUT => crate::http_core::http_types::HttpMethods::PUT,
        HttpMethods::DELETE => crate::http_core::http_types::HttpMethods::DELETE,
        HttpMethods::HEAD => crate::http_core::http_types::HttpMethods::HEAD,
        HttpMethods::OPTIONS => crate::http_core::http_types::HttpMethods::OPTIONS,
        HttpMethods::PATCH => crate::http_core::http_types::HttpMethods::PATCH,
        HttpMethods::CONNECT => crate::http_core::http_types::HttpMethods::CONNECT,
        HttpMethods::TRACE => crate::http_core::http_types::HttpMethods::TRACE,
    }
}

impl HttpMethods {
    pub fn to_string(&self) -> (r: &'static str)
        ensures
            r@ == method_token(shared_verb(*self)),
    {
        match self {
            HttpMethods::GET => "GET",
            HttpMethods::POST => "POST",
            HttpMethods::PUT => "PUT",
            HttpMethods::DELETE => "DELETE",
            HttpMethods::HEAD => "HEAD",
            HttpMethods::OPTIONS => "OPTIONS",
            HttpMethods::PATCH => "PATCH",
            HttpMethods::CONNECT => "CONNECT",
            HttpMethods::TRACE => "TRACE",
        }
    }
}

#[derive(Debug)]
pub struct Request {
    pub method: String,
    pub path: String,
    pub headers: HeaderMap,
    pub body: Vec<u8>,
}

/// Building and reading requests.
pub trait HttpRequest: Sized {
    fn new(method: &str, path: &str) -> Self;

    fn set_headers(&mut self, headers: HeaderMap);

    fn get_headers(&self) -> &HeaderMap;

    fn set_body(&mut self, body: Vec<u8>);

    fn get_body(&self) -> &[u8];

    fn add_header(&mut self, key: &str, value: &str);

    fn add_body(&mut self, body: Vec<u8>) {
        self.set_body(body);
    }

    fn method(&self) -> &str;

    fn path(&self) -> &str;

    fn parse(raw_req: &str) -> Self;
}

impl HttpRequest for Request {
    fn new(method: &str, path: &str) -> (r: Request)
        ensures
            r.method@ == method@,
            r.path@ == path@,
            r.headers@ == Map::<Seq<char>, Seq<char>>::empty(),
            r.body@ == Seq::<u8>::empty(),
    {
        Request {
            method: method.to_owned(),
            path: path.to_owned(),
            headers: HeaderMap::new(),
            body: Vec::new(),
        }
    }

    fn set_headers(&mut self, headers: HeaderMap)
        ensures
            final(self).headers == headers,
            final(self).method == old(self).method,
            final(self).path == old(self).path,
            final(self).body == old(self).body,
    {
        self.headers = headers;
    }

    fn get_headers(&self) -> (r: &HeaderMap)
        ensures
            r == &self.headers,
    {
        &self.headers
    }

    fn set_body(&mut self, body: Vec<u8>)
        ensures
            final(self).body == body,
            final(self).method == old(self).method,
            final(self).path == old(self).path,
            final(self).headers == old(self).headers,
    {
        self.body = body;
    }

    fn get_body(&self) -> (r: &[u8])
        ensures
            r@ == self.body@,
    {
        self.body.as_slice()
    }

    fn add_header(&mut self, key: &str, value: &str)
        ensures
            final(self).headers@ == old(self).headers@.insert(key@, value@),
            final(self).method == old(self).method,
            final(self).path == old(self).path,
            final(self).body == old(self).body,
    {
        self.headers.insert(key.to_owned(), value.to_owned());
    }

    fn method(&self) -> (r: &str)
        ensures
            r@ == self.method@,
    {
        self.method.as_str()
    }

    fn path(&self) -> (r: &str)
        ensures
            r@ == self.path@,
    {
        self.path.as_str()
    }

    /// Reads a request without failing: the method and the path are the first
    /// two whitespace-separated tokens of the first line, or empty. Where the
    /// blank line `\r\n\r\n` is found, the lines before it after the first are
    /// header fields (lines without a colon are skipped) and the text after it
    /// is the body, kept as it is; otherwise there are no fields and no body.
    fn parse(raw_req: &str) -> (r: Request)
        ensures
            r.method@ == method_text(raw_req@),
            r.path@ == path_text(raw_req@),
            has_delimiter(raw_req@) ==> r.headers@ == head_fields(raw_req@, false)->Ok_0,
            has_delimiter(raw_req@) ==> r.body@ == encode_utf8(body_text(raw_req@)),
            !has_delimiter(raw_req@) ==> r.headers@ == Map::<Seq<char>, Seq<char>>::empty(),
            !has_delimiter(raw_req@) ==> r.body@ == Seq::<u8>::empty(),
    {
        let s = chars_of(raw_req);
        let (ms, me, ps, pe, _) = request_line_bounds(&s);
        let d = find_blank_line(&s);
        let (headers, body) = if d < s.len() {
            let (_, first) = line_bounds(&s, 0, d);
            let headers = match read_header_fields(&s, raw_req, first, d, false) {
                Ok(m) => m,
                Err(_) => HeaderMap::new(),
            };
            (headers, raw_req.substring_char(d + 4, s.len()).as_bytes_vec())
        } else {
            (HeaderMap::new(), Vec::new())
        };
        Request {
            method: raw_req.substring_char(ms, me).to_owned(),
            path: raw_req.substring_char(ps, pe).to_owned(),
            headers,
            body,
        }
    }
}

} // verus!
