//! Requests and the parser that reads them from raw text.

use vstd::prelude::*;

use crate::http_core::http_types::{ContentType, HeaderMap, is_known_mime, lemma_json_mime};
use crate::text::{
    chars_of, decimal, decimal_string, decimal_value, lemma_decimal_value, find, find_blank_line, find_char, find_delimiter, line_bounds,
    line_text_end, next_line, skip_non_whitespace, skip_whitespace, skip_word, skip_ws, trim_bounds,
    trimmed,
};

verus! {

#[verifier::external_type_specification]
#[verifier::external_body]
pub struct ExJsonError(serde_json::Error);

/// The bytes that a JSON text re-encodes to once parsed, or `None` where the
/// text is not a JSON value.
pub uninterp spec fn canonical_json(text: Seq<char>) -> Option<Seq<u8>>;

/// Relies on `serde_json::from_str` into a `serde_json::Value` and on
/// `serde_json::to_vec` of that value: whether the text is accepted, and the
/// bytes it re-encodes to, depend on the text alone.
#[verifier::external_body]
fn reencode_json(text: &str) -> (r: Result<Vec<u8>, serde_json::Error>)
    ensures
        r is Ok <==> canonical_json(text@) is Some,
        r is Ok ==> r->Ok_0@ == canonical_json(text@)->0,
{
    let value: serde_json::Value = serde_json::from_str(text)?;
    serde_json::to_vec(&value)
}

/// The header fields read from the lines that start at `i` and end before `hi`.
/// Each line is `name: value`, split at its first colon, both sides trimmed; a
/// later field of the same name replaces an earlier one. A line without a colon
/// is the error where `strict` holds, and is skipped otherwise.
pub open spec fn header_fields(
    s: Seq<char>,
    i: int,
    hi: int,
    acc: Map<Seq<char>, Seq<char>>,
    strict: bool,
) -> Result<Map<Seq<char>, Seq<char>>, Seq<char>>
    decreases hi - i,
{
    let te = line_text_end(s, i, hi);
    let nx = next_line(s, i, hi);
    let k = find_char(s, ':', i, te);
    if i >= hi || nx <= i {
        Ok(acc)
    } else if k >= te {
        if strict {
            Err(s.subrange(i, te))
        } else {
            header_fields(s, nx, hi, acc, strict)
        }
    } else {
        header_fields(s, nx, hi, acc.insert(trimmed(s, i, k), trimmed(s, k + 1, te)), strict)
    }
}

/// End of the text of the request line.
pub open spec fn request_line_end(s: Seq<char>) -> int {
    line_text_end(s, 0, s.len() as int)
}

pub open spec fn method_start(s: Seq<char>) -> int {
    skip_ws(s, 0, request_line_end(s))
}

pub open spec fn method_end(s: Seq<char>) -> int {
    skip_word(s, method_start(s), request_line_end(s))
}

pub open spec fn path_start(s: Seq<char>) -> int {
    skip_ws(s, method_end(s), request_line_end(s))
}

pub open spec fn path_end(s: Seq<char>) -> int {
    skip_word(s, path_start(s), request_line_end(s))
}

/// The first whitespace-separated token of the request line (empty if none).
pub open spec fn method_text(s: Seq<char>) -> Seq<char> {
    s.subrange(method_start(s), method_end(s))
}

/// The second whitespace-separated token of the request line (empty if none).
pub open spec fn path_text(s: Seq<char>) -> Seq<char> {
    s.subrange(path_start(s), path_end(s))
}

pub open spec fn has_method(s: Seq<char>) -> bool {
    method_start(s) < request_line_end(s)
}

pub open spec fn has_path(s: Seq<char>) -> bool {
    path_start(s) < request_line_end(s)
}

/// Where the blank line that ends the head starts (`s.len()` if there is none).
pub open spec fn head_end(s: Seq<char>) -> int {
    find_delimiter(s, 0)
}

pub open spec fn has_delimiter(s: Seq<char>) -> bool {
    head_end(s) < s.len()
}

/// The header fields of the head, which are its lines after the request line.
pub open spec fn head_fields(s: Seq<char>, strict: bool) -> Result<
    Map<Seq<char>, Seq<char>>,
    Seq<char>,
> {
    header_fields(s, next_line(s, 0, head_end(s)), head_end(s), Map::empty(), strict)
}

/// The text after the blank line.
pub open spec fn body_text(s: Seq<char>) -> Seq<char> {
    s.subrange(head_end(s) + 4, s.len() as int)
}

/// The request line names a method and a path.
pub open spec fn request_line_ok(s: Seq<char>) -> bool {
    s.len() > 0 && has_method(s) && has_path(s)
}

/// The `Content-Type` of the fields, or the empty text if it is not set.
pub open spec fn content_type_of(m: Map<Seq<char>, Seq<char>>) -> Seq<char> {
    if m.contains_key("Content-Type"@) {
        m["Content-Type"@]
    } else {
        Seq::empty()
    }
}

/// The head reads well: request line, blank line and header lines.
pub open spec fn head_ok(s: Seq<char>) -> bool {
    request_line_ok(s) && has_delimiter(s) && head_fields(s, true) is Ok
}

/// The body is to be read as JSON.
pub open spec fn json_body(s: Seq<char>) -> bool {
    content_type_of(head_fields(s, true)->Ok_0) == "application/json"@
}

/// The body bytes of a request whose head reads well.
pub open spec fn body_bytes(s: Seq<char>) -> Seq<u8> {
    if json_body(s) {
        canonical_json(body_text(s))->0
    } else {
        vstd::utf8::encode_utf8(body_text(s))
    }
}

/// The whole request reads well.
pub open spec fn request_ok(s: Seq<char>) -> bool {
    head_ok(s) && (json_body(s) ==> canonical_json(body_text(s)) is Some)
}

/// The header fields of a request that reads well, as `parse` returns them.
pub open spec fn parsed_headers(s: Seq<char>) -> Map<Seq<char>, Seq<char>> {
    head_fields(s, true)->Ok_0.insert("Content-Length"@, decimal(body_bytes(s).len()))
}

/// After a successful parse `Content-Length` is set, and the number it
/// writes is the byte length of the body.
pub proof fn lemma_parsed_content_length(s: Seq<char>)
    requires
        request_ok(s),
    ensures
        parsed_headers(s).contains_key("Content-Length"@),
        decimal_value(parsed_headers(s)["Content-Length"@]) == body_bytes(s).len(),
{
    lemma_decimal_value(body_bytes(s).len());
}

/// A request that reads well and whose body is not JSON keeps its body
/// as it was sent: the bytes of the text after the blank line.
pub proof fn lemma_plain_body_kept(s: Seq<char>)
    requires
        request_ok(s),
        !json_body(s),
    ensures
        body_bytes(s) == vstd::utf8::encode_utf8(s.subrange(head_end(s) + 4, s.len() as int)),
{
}

/// A JSON request whose body is a JSON value reads well, its body is the
/// re-encoded value, and `Content-Length` gives the length of that encoding
/// rather than of the text that was sent.
pub proof fn lemma_json_body_reencoded(s: Seq<char>)
    requires
        head_ok(s),
        json_body(s),
        canonical_json(body_text(s)) is Some,
    ensures
        request_ok(s),
        body_bytes(s) == canonical_json(body_text(s))->0,
        parsed_headers(s)["Content-Length"@] == decimal(canonical_json(body_text(s))->0.len()),
        decimal_value(parsed_headers(s)["Content-Length"@]) == canonical_json(body_text(s))->0.len(),
{
    lemma_decimal_value(canonical_json(body_text(s))->0.len());
}

#[derive(Debug)]
pub enum RequestError {
    RequestLineParseError,
    MethodNotFoundError,
    PathNotFoundError,
    HeadersBodyDelimiterNotFoundError,
    MalformedHeaderError(String),
    ContentTypeParseError(String),
    UnsupportedContentTypeError,
    JsonBodyProcessingError(serde_json::Error),
}

pub struct Request {
    pub method: String,
    pub path: String,
    pub headers: HeaderMap,
    pub body: Vec<u8>,
}

/// Reads the header lines of `s[start..hi]` into a map, as `header_fields` states.
pub(crate) fn read_header_fields(s: &Vec<char>, raw: &str, start: usize, hi: usize, strict: bool) -> (r:
    Result<HeaderMap, String>)
    requires
        s@ == raw@,
        start <= hi <= s@.len(),
    ensures
        !strict ==> r is Ok,
        r is Ok ==> header_fields(s@, start as int, hi as int, Map::empty(), strict) == Ok::<
            Map<Seq<char>, Seq<char>>,
            Seq<char>,
        >(r->Ok_0@),
        r is Err ==> header_fields(s@, start as int, hi as int, Map::empty(), strict) == Err::<
            Map<Seq<char>, Seq<char>>,
            Seq<char>,
        >(r->Err_0@),
{
    let mut m = HeaderMap::new();
    let mut i = start;
    while i < hi
        invariant
            s@ == raw@,
            start <= i <= hi <= s@.len(),
            header_fields(s@, i as int, hi as int, m@, strict) == header_fields(
                s@,
                start as int,
                hi as int,
                Map::empty(),
                strict,
            ),
        decreases hi - i,
    {
        let (te, nx) = line_bounds(s, i, hi);
        let k = find(s, ':', i, te);
        if k >= te {
            if strict {
                return Err(raw.substring_char(i, te).to_owned());
            }
        } else {
            let (a, b) = trim_bounds(s, i, k);
            let (c, d) = trim_bounds(s, k + 1, te);
            m.insert(raw.substring_char(a, b).to_owned(), raw.substring_char(c, d).to_owned());
        }
        i = nx;
    }
    Ok(m)
}

/// Where the request line's method and path lie, as (method start, method
/// end, path start, path end, line end).
pub(crate) fn request_line_bounds(s: &Vec<char>) -> (r: (usize, usize, usize, usize, usize))
    ensures
        r.0 == method_start(s@),
        r.1 == method_end(s@),
        r.2 == path_start(s@),
        r.3 == path_end(s@),
        r.4 == request_line_end(s@),
        r.0 <= r.1 <= r.2 <= r.3 <= r.4 <= s@.len(),
{
    let (le, _) = line_bounds(s, 0, s.len());
    let ms = skip_whitespace(s, 0, le);
    let me = skip_non_whitespace(s, ms, le);
    let ps = skip_whitespace(s, me, le);
    let pe = skip_non_whitespace(s, ps, le);
    (ms, me, ps, pe, le)
}

/// Building, reading and parsing requests.
pub trait HttpRequest: Sized {
    fn new(method: &str, path: &str) -> Self;

    fn set_headers(&mut self, headers: HeaderMap);

    fn get_headers(&self) -> &HeaderMap;

    fn set_body(&mut self, body: Vec<u8>);

    fn get_body(&self) -> &[u8];

    fn add_header(&mut self, key: &str, value: &str);

    fn add_body(&mut self, body: Vec<u8>) {
        self.set_body(body);
    }

    fn method(&self) -> &str;

    fn path(&self) -> &str;

    fn parse(raw_req: &str) -> Result<Self, RequestError>;

    fn set_body_and_content_length(headers: &mut HeaderMap, body: &[u8]);
}

impl HttpRequest for Request {
    fn new(method: &str, path: &str) -> (r: Request)
        ensures
            r.method@ == method@,
            r.path@ == path@,
            r.headers@ == Map::<Seq<char>, Seq<char>>::empty(),
            r.body@ == Seq::<u8>::empty(),
    {
        Request {
            method: method.to_owned(),
            path: path.to_owned(),
            headers: HeaderMap::new(),
            body: Vec::new(),
        }
    }

    /// Sets `Content-Length` to the byte length of `body`, in decimal.
    fn set_body_and_content_length(headers: &mut HeaderMap, body: &[u8])
        ensures
            final(headers)@ == old(headers)@.insert("Content-Length"@, decimal(body@.len())),
    {
        headers.insert("Content-Length".to_owned(), decimal_string(body.len()));
    }

    /// Parses a request from its raw text.
    ///
    /// The request line gives the method and the path (its first two
    /// whitespace-separated tokens). The head ends at the first blank line
    /// (`\r\n\r\n`); its lines after the request line are header fields, each of
    /// which must hold a colon. The body is the text after the blank line: when
    /// `Content-Type` is `application/json` it must be JSON and is re-encoded,
    /// otherwise it is kept as it is. `Content-Length` is then set to the byte
    /// length of the body.
    fn parse(raw_req: &str) -> (r: Result<Request, RequestError>)
        ensures
            (r matches Err(RequestError::RequestLineParseError)) <==> raw_req@.len() == 0,
            (r matches Err(RequestError::MethodNotFoundError)) <==> raw_req@.len() > 0
                && !has_method(raw_req@),
            (r matches Err(RequestError::PathNotFoundError)) <==> raw_req@.len() > 0 && has_method(
                raw_req@,
            ) && !has_path(raw_req@),
            (r matches Err(RequestError::HeadersBodyDelimiterNotFoundError)) <==> request_line_ok(
                raw_req@,
            ) && !has_delimiter(raw_req@),
            (r matches Err(RequestError::MalformedHeaderError(_))) <==> request_line_ok(raw_req@)
                && has_delimiter(raw_req@) && head_fields(raw_req@, true) is Err,
            r matches Err(RequestError::MalformedHeaderError(line)) ==> line@ == head_fields(
                raw_req@,
                true,
            )->Err_0,
            (r matches Err(RequestError::JsonBodyProcessingError(_))) <==> head_ok(raw_req@)
                && json_body(raw_req@) && canonical_json(body_text(raw_req@)) is None,
            !(r matches Err(RequestError::ContentTypeParseError(_))),
            !(r matches Err(RequestError::UnsupportedContentTypeError)),
            r is Ok <==> request_ok(raw_req@),
            r matches Ok(req) ==> {
                &&& req.method@ == method_text(raw_req@)
                &&& req.path@ == path_text(raw_req@)
                &&& req.body@ == body_bytes(raw_req@)
                &&& req.headers@ == parsed_headers(raw_req@)
            },
    {
        let s = chars_of(raw_req);
        if s.len() == 0 {
            return Err(RequestError::RequestLineParseError);
        }
        let (ms, me, ps, pe, le) = request_line_bounds(&s);
        if ms >= le {
            return Err(RequestError::MethodNotFoundError);
        }
        if ps >= le {
            return Err(RequestError::PathNotFoundError);
        }
        let d = find_blank_line(&s);
        if d >= s.len() {
            return Err(RequestError::HeadersBodyDelimiterNotFoundError);
        }
        let (_, first) = line_bounds(&s, 0, d);
        let mut headers = match read_header_fields(&s, raw_req, first, d, true) {
            Ok(m) => m,
            Err(line) => {
                return Err(RequestError::MalformedHeaderError(line));
            },
        };
        let empty = String::new();
        let content_type_text = match headers.get("Content-Type") {
            Some(v) => v,
            None => &empty,
        };
        let content_type = ContentType::classify(content_type_text.as_str());
        proof {
            assert(content_type_text@ == content_type_of(head_fields(raw_req@, true)->Ok_0));
            reveal_strlit("application/json");
            if content_type is Custom {
                assert(!is_known_mime(content_type_text@));
            } else {
                lemma_json_mime(content_type);
            }
            assert(json_body(raw_req@) <==> content_type is ApplicationJson);
        }
        let body_str = raw_req.substring_char(d + 4, s.len());
        let body = match content_type {
            ContentType::ApplicationJson => {
                match reencode_json(body_str) {
                    Ok(bytes) => bytes,
                    Err(e) => {
                        return Err(RequestError::JsonBodyProcessingError(e));
                    },
                }
            },
            _ => body_str.as_bytes_vec(),
        };
        <Request as HttpRequest>::set_body_and_content_length(&mut headers, body.as_slice());
        Ok(
            Request {
                method: raw_req.substring_char(ms, me).to_owned(),
                path: raw_req.substring_char(ps, pe).to_owned(),
                headers,
                body,
            },
        )
    }

    fn set_headers(&mut self, headers: HeaderMap)
        ensures
            final(self).headers == headers,
            final(self).method == old(self).method,
            final(self).path == old(self).path,
            final(self).body == old(self).body,
    {
        self.headers = headers;
    }

    fn get_headers(&self) -> (r: &HeaderMap)
        ensures
            r == &self.headers,
    {
        &self.headers
    }

    fn set_body(&mut self, body: Vec<u8>)
        ensures
            final(self).body == body,
            final(self).method == old(self).method,
            final(self).path == old(self).path,
            final(self).headers == old(self).headers,
    {
        self.body = body;
    }

    fn get_body(&self) -> (r: &[u8])
        ensures
            r@ == self.body@,
    {
        self.body.as_slice()
    }

    fn add_header(&mut self, key: &str, value: &str)
        ensures
            final(self).headers@ == old(self).headers@.insert(key@, value@),
            final(self).method == old(self).method,
            final(self).path == old(self).path,
            final(self).body == old(self).body,
    {
        self.headers.insert(key.to_owned(), value.to_owned());
    }

    fn method(&self) -> (r: &str)
        ensures
            r@ == self.method@,
    {
        self.method.as_str()
    }

    fn path(&self) -> (r: &str)
        ensures
            r@ == self.path@,
    {
        self.path.as_str()
    }
}

} // verus!
