//! Responses: a builder and the formatter that writes them out.

use vstd::prelude::*;
use vstd::utf8::{encode_utf8, valid_utf8};

use crate::http_core::http_types::{insert_fields, HeaderMap};
use crate::http_core::request::{head_end, head_fields, header_fields};
use crate::text::{
    decimal, decimal_string, delimiter_at, find_char, find_delimiter, is_ws, lemma_decimal_digits,
    lemma_encode_utf8_concat, line_text_end, next_line, rskip_ws, skip_ws, trimmed, utf8_text,
};
use vstd::utf8::decode_utf8;

verus! {

/// The reason phrase written after a status code.
pub open spec fn reason_phrase(code: u16) -> Seq<char> {
    if code == 200 {
        "OK"@
    } else if code == 201 {
        "Created"@
    } else if code == 400 {
        "Bad Request"@
    } else if code == 401 {
        "Unauthorized"@
    } else if code == 403 {
        "Forbidden"@
    } else if code == 404 {
        "Not Found"@
    } else if code == 500 {
        "Internal Server Error"@
    } else {
        "Unknown"@
    }
}

/// `HTTP/1.1 {code} {reason}\r\n`.
pub open spec fn status_line(code: u16) -> Seq<char> {
    "HTTP/1.1 "@ + decimal(code as nat) + " "@ + reason_phrase(code) + "\r\n"@
}

/// One `{name}: {value}\r\n` line per field, in order.
pub open spec fn header_lines(f: Seq<(Seq<char>, Seq<char>)>) -> Seq<char>
    decreases f.len(),
{
    if f.len() == 0 {
        Seq::empty()
    } else {
        header_lines(f.drop_last()) + f.last().0 + ": "@ + f.last().1 + "\r\n"@
    }
}

/// The text before the body: status line, header lines and a blank line.
pub open spec fn head_text(code: u16, f: Seq<(Seq<char>, Seq<char>)>) -> Seq<char> {
    status_line(code) + header_lines(f) + "\r\n"@
}

/// No line break in the text.
pub open spec fn no_line_break(x: Seq<char>) -> bool {
    forall|j: int| 0 <= j < x.len() ==> #[trigger] x[j] != '\r' && x[j] != '\n'
}

/// No `\n` in the text is directly followed by `\r`.
pub open spec fn no_cr_after_lf(x: Seq<char>) -> bool {
    forall|p: int| 0 <= p && p + 1 < x.len() && #[trigger] x[p] == '\n' ==> x[p + 1] != '\r'
}

proof fn lemma_no_cr_after_lf_concat(a: Seq<char>, b: Seq<char>)
    requires
        no_cr_after_lf(a),
        no_cr_after_lf(b),
        b.len() == 0 || b[0] != '\r',
    ensures
        no_cr_after_lf(a + b),
{
    let c = a + b;
    assert forall|p: int| 0 <= p && p + 1 < c.len() && #[trigger] c[p] == '\n' implies c[p + 1]
        != '\r' by {
        if p + 1 < a.len() {
            assert(a[p] == '\n');
        } else if p + 1 == a.len() {
            assert(c[p + 1] == b[0]);
        } else {
            assert(b[p - a.len()] == '\n');
            assert(c[p + 1] == b[p - a.len() + 1]);
        }
    }
}

/// The header lines, when no name or value breaks a line, start with no `\r`,
/// end with `\r\n`, and have no `\r` right after a `\n`.
proof fn lemma_header_lines_shape(f: Seq<(Seq<char>, Seq<char>)>)
    requires
        forall|i: int| 0 <= i < f.len() ==> no_line_break(#[trigger] f[i].0) && no_line_break(
            f[i].1,
        ),
    ensures
        no_cr_after_lf(header_lines(f)),
        f.len() > 0 ==> header_lines(f).len() > 0,
        header_lines(f).len() == 0 || header_lines(f)[0] != '\r',
        header_lines(f).len() == 0 || (header_lines(f).len() >= 2 && header_lines(f)[header_lines(
            f,
        ).len() - 2] == '\r' && header_lines(f)[header_lines(f).len() - 1] == '\n'),
    decreases f.len(),
{
    if f.len() > 0 {
        let prev = f.drop_last();
        assert forall|i: int| 0 <= i < prev.len() implies no_line_break(#[trigger] prev[i].0)
            && no_line_break(prev[i].1) by {
            assert(prev[i] == f[i]);
        }
        lemma_header_lines_shape(prev);
        let k = f.last().0;
        let v = f.last().1;
        assert(no_line_break(k) && no_line_break(v));
        reveal_strlit(": ");
        reveal_strlit("\r\n");
        let line = k + ": "@ + v + "\r\n"@;
        assert(header_lines(f) =~= header_lines(prev) + line);
        assert forall|p: int| 0 <= p && p + 1 < line.len() implies #[trigger] line[p] != '\n' by {
            if p < k.len() {
                assert(line[p] == k[p]);
            } else if p < k.len() + 2 {
            } else if p < k.len() + 2 + v.len() {
                assert(line[p] == v[p - k.len() - 2]);
            }
        }
        if k.len() > 0 {
            assert(line[0] == k[0]);
        } else {
            assert(line[0] == ':');
        }
        lemma_no_cr_after_lf_concat(header_lines(prev), line);
        if header_lines(prev).len() > 0 {
            assert(header_lines(f)[0] == header_lines(prev)[0]);
        }
    }
}

/// The status line ends with its only `\n` and starts with `H`.
proof fn lemma_status_line_shape(code: u16)
    ensures
        no_cr_after_lf(status_line(code)),
        status_line(code).len() >= 2,
        status_line(code)[0] == 'H',
        forall|p: int| 0 <= p < status_line(code).len() - 1 ==> #[trigger] status_line(code)[p] != '\n',
        status_line(code)[status_line(code).len() - 2] == '\r',
        status_line(code)[status_line(code).len() - 1] == '\n',
{
    reveal_strlit("HTTP/1.1 ");
    reveal_strlit(" ");
    reveal_strlit("\r\n");
    reveal_strlit("OK");
    reveal_strlit("Created");
    reveal_strlit("Bad Request");
    reveal_strlit("Unauthorized");
    reveal_strlit("Forbidden");
    reveal_strlit("Not Found");
    reveal_strlit("Internal Server Error");
    reveal_strlit("Unknown");
    lemma_decimal_digits(code as nat);
    let d = decimal(code as nat);
    let r = reason_phrase(code);
    let x = status_line(code);
    assert forall|j: int| 0 <= j < r.len() implies #[trigger] r[j] != '\n' by {}
    assert forall|p: int| 0 <= p && p + 1 < x.len() implies #[trigger] x[p] != '\n' by {
        if p < 9 {
        } else if p < 9 + d.len() {
            assert(x[p] == d[p - 9]);
        } else if p < 10 + d.len() {
        } else if p < 10 + d.len() + r.len() {
            assert(x[p] == r[p - 10 - d.len()]);
        }
    }
}

proof fn lemma_find_delimiter_at(t: Seq<char>, i: int, d: int)
    requires
        0 <= i <= d,
        delimiter_at(t, d),
        forall|j: int| i <= j < d ==> !#[trigger] delimiter_at(t, j),
    ensures
        find_delimiter(t, i) == d,
    decreases d - i,
{
    if i < d {
        lemma_find_delimiter_at(t, i + 1, d);
    }
}

/// Splitting what `format` writes at its first blank line gives back the
/// status line with the reason phrase, the header lines in order, and the
/// body bytes unchanged, provided no header name or value breaks a line.
pub proof fn lemma_format_round_trip(r: Response)
    requires
        valid_utf8(r.body@),
        forall|i: int|
            0 <= i < r.headers.fields().len() ==> no_line_break(#[trigger] r.headers.fields()[i].0)
                && no_line_break(r.headers.fields()[i].1),
    ensures
        ({
            let text = decode_utf8(
                encode_utf8(head_text(r.status_code, r.headers.fields())) + r.body@,
            );
            let d = find_delimiter(text, 0);
            &&& d + 2 == status_line(r.status_code).len() + header_lines(r.headers.fields()).len()
            &&& d + 4 <= text.len()
            &&& text.subrange(0, d + 2) == status_line(r.status_code) + header_lines(
                r.headers.fields(),
            )
            &&& encode_utf8(text.subrange(d + 4, text.len() as int)) == r.body@
        }),
{
    let f = r.headers.fields();
    let s = status_line(r.status_code);
    let l = header_lines(f);
    let sl = s + l;
    let h = head_text(r.status_code, f);
    let b = decode_utf8(r.body@);
    reveal_strlit("\r\n");
    lemma_status_line_shape(r.status_code);
    lemma_header_lines_shape(f);
    lemma_no_cr_after_lf_concat(s, l);
    assert(h =~= sl + "\r\n"@);
    vstd::utf8::decode_utf8_encode_utf8(r.body@);
    lemma_encode_utf8_concat(h, b);
    vstd::utf8::encode_utf8_decode_utf8(h + b);
    let text = h + b;
    assert(decode_utf8(encode_utf8(h) + r.body@) == text);
    let d = sl.len() - 2;
    if l.len() > 0 {
        assert(sl[sl.len() - 2] == l[l.len() - 2]);
        assert(sl[sl.len() - 1] == l[l.len() - 1]);
    }
    assert(text[d] == '\r' && text[d + 1] == '\n');
    assert(text[d + 2] == '\r' && text[d + 3] == '\n');
    assert(delimiter_at(text, d));
    assert forall|j: int| 0 <= j < d implies !#[trigger] delimiter_at(text, j) by {
        if delimiter_at(text, j) {
            assert(sl[j + 1] == '\n');
            assert(sl[j + 2] == '\r');
        }
    }
    lemma_find_delimiter_at(text, 0, d);
    assert(text.subrange(0, d + 2) =~= sl);
    assert(text.subrange(d + 4, text.len() as int) =~= b);
}

/// No whitespace at either end of the text.
pub open spec fn is_trimmed(x: Seq<char>) -> bool {
    x.len() == 0 || (!is_ws(x[0]) && !is_ws(x[x.len() - 1]))
}

/// A field that reads back as itself: neither side breaks a line or has
/// whitespace at its ends, and the name holds no colon.
pub open spec fn plain_field(p: (Seq<char>, Seq<char>)) -> bool {
    &&& no_line_break(p.0)
    &&& no_line_break(p.1)
    &&& is_trimmed(p.0)
    &&& is_trimmed(p.1)
    &&& forall|j: int| 0 <= j < p.0.len() ==> #[trigger] p.0[j] != ':'
}

proof fn lemma_find_char_at(t: Seq<char>, c: char, i: int, e: int, hi: int)
    requires
        i <= e <= hi,
        forall|m: int| i <= m < e ==> #[trigger] t[m] != c,
        e == hi || t[e] == c,
    ensures
        find_char(t, c, i, hi) == e,
    decreases e - i,
{
    if i < e {
        lemma_find_char_at(t, c, i + 1, e, hi);
    }
}

proof fn lemma_trimmed_at(t: Seq<char>, lo: int, x: Seq<char>)
    requires
        0 <= lo,
        lo + x.len() <= t.len(),
        t.subrange(lo, lo + x.len()) == x,
        is_trimmed(x),
    ensures
        skip_ws(t, lo, lo + x.len()) == lo,
        rskip_ws(t, lo, lo + x.len()) == lo + x.len(),
        trimmed(t, lo, lo + x.len()) == x,
{
    if x.len() > 0 {
        assert(t[lo] == x[0]);
        assert(t[lo + x.len() - 1] == x[x.len() - 1]);
    }
}

proof fn lemma_header_lines_prefix(f: Seq<(Seq<char>, Seq<char>)>, j: int, n: int)
    requires
        0 <= j <= n <= f.len(),
    ensures
        header_lines(f.subrange(0, j)).len() <= header_lines(f.subrange(0, n)).len(),
        header_lines(f.subrange(0, n)).subrange(0, header_lines(f.subrange(0, j)).len() as int)
            == header_lines(f.subrange(0, j)),
    decreases n - j,
{
    if j < n {
        lemma_header_lines_prefix(f, j, n - 1);
        assert(f.subrange(0, n).drop_last() =~= f.subrange(0, n - 1));
        let a = header_lines(f.subrange(0, n - 1));
        let b = header_lines(f.subrange(0, n));
        let c = header_lines(f.subrange(0, j));
        assert(b.subrange(0, a.len() as int) =~= a);
        assert(b.subrange(0, c.len() as int) =~= a.subrange(0, c.len() as int));
    } else {
        let c = header_lines(f.subrange(0, j));
        assert(c.subrange(0, c.len() as int) =~= c);
    }
}

/// Reading the header lines from field `j` on gives the map that setting
/// those fields makes.
proof fn lemma_read_lines(
    t: Seq<char>,
    start: int,
    f: Seq<(Seq<char>, Seq<char>)>,
    j: int,
    acc: Map<Seq<char>, Seq<char>>,
)
    requires
        forall|i: int| 0 <= i < f.len() ==> plain_field(#[trigger] f[i]),
        0 <= j < f.len(),
        0 <= start,
        start + header_lines(f).len() <= t.len(),
        t.subrange(start, start + header_lines(f).len()) == header_lines(f),
    ensures
        header_fields(
            t,
            start + header_lines(f.subrange(0, j)).len(),
            start + header_lines(f).len() - 2,
            acc,
            true,
        ) == Ok::<Map<Seq<char>, Seq<char>>, Seq<char>>(insert_fields(f, j, acc)),
    decreases f.len() - j,
{
    reveal_strlit(": ");
    reveal_strlit("\r\n");
    let l = header_lines(f);
    let hi = start + l.len() - 2;
    let hj = header_lines(f.subrange(0, j));
    let p = start + hj.len();
    let k = f[j].0;
    let v = f[j].1;
    let line = k + ": "@ + v + "\r\n"@;
    assert(plain_field(f[j]));
    assert(f.subrange(0, j + 1).drop_last() =~= f.subrange(0, j));
    assert(header_lines(f.subrange(0, j + 1)) =~= hj + line);
    lemma_header_lines_prefix(f, j + 1, f.len() as int);
    assert(f.subrange(0, f.len() as int) =~= f);
    let hj1 = header_lines(f.subrange(0, j + 1));
    assert forall|m: int| 0 <= m < line.len() implies #[trigger] t[p + m] == line[m] by {
        assert(l[hj.len() + m] == hj1[hj.len() + m]);
        assert(t[start + hj.len() + m] == l[hj.len() + m]);
    }
    let kl = k.len() as int;
    let te = p + kl + 2 + v.len();
    let last = j + 1 == f.len();
    if !last {
        lemma_header_lines_prefix(f, j + 2, f.len() as int);
        assert(f.subrange(0, j + 2).drop_last() =~= f.subrange(0, j + 1));
    }
    assert(p + line.len() <= start + l.len());
    assert(last ==> p + line.len() == start + l.len());
    assert(!last ==> p + line.len() + 4 <= start + l.len());
    let e = p + line.len() - 1;
    assert forall|m: int| p <= m < p + line.len() - 1 implies #[trigger] t[m] != '\n' by {
        assert(t[p + (m - p)] == line[m - p]);
        if m - p < kl {
            assert(line[m - p] == k[m - p]);
        } else if m - p < kl + 2 {
        } else if m - p < kl + 2 + v.len() {
            assert(line[m - p] == v[m - p - kl - 2]);
        }
    }
    if last {
        lemma_find_char_at(t, '\n', p, hi, hi);
    } else {
        assert(t[p + (line.len() - 1)] == line[line.len() - 1]);
        lemma_find_char_at(t, '\n', p, e, hi);
        assert(t[p + (line.len() - 2)] == line[line.len() - 2]);
    }
    assert(line_text_end(t, p, hi) == te);
    assert forall|m: int| p <= m < p + kl implies #[trigger] t[m] != ':' by {
        assert(t[p + (m - p)] == line[m - p]);
        assert(line[m - p] == k[m - p]);
    }
    assert(t[p + kl] == line[kl]);
    lemma_find_char_at(t, ':', p, p + kl, te);
    assert(t.subrange(p, p + kl) =~= k) by {
        assert forall|m: int| 0 <= m < kl implies t.subrange(p, p + kl)[m] == k[m] by {
            assert(t[p + m] == line[m]);
        }
    }
    lemma_trimmed_at(t, p, k);
    assert(t[p + (kl + 1)] == line[kl + 1]);
    assert(is_ws(t[p + kl + 1]));
    assert(t.subrange(p + kl + 2, te) =~= v) by {
        assert forall|m: int| 0 <= m < v.len() implies t.subrange(p + kl + 2, te)[m] == v[m] by {
            assert(t[p + (kl + 2 + m)] == line[kl + 2 + m]);
        }
    }
    lemma_trimmed_at(t, p + kl + 2, v);
    assert(skip_ws(t, p + kl + 1, te) == p + kl + 2);
    assert(trimmed(t, p + kl + 1, te) == v);
    let acc2 = acc.insert(k, v);
    assert(p < hi);
    assert(find_char(t, ':', p, te) == p + kl);
    assert(header_fields(t, p, hi, acc, true) == header_fields(
        t,
        next_line(t, p, hi),
        hi,
        acc2,
        true,
    ));
    assert(insert_fields(f, j, acc) == insert_fields(f, j + 1, acc2));
    if last {
        assert(next_line(t, p, hi) == hi);
        assert(header_fields(t, hi, hi, acc2, true) == Ok::<
            Map<Seq<char>, Seq<char>>,
            Seq<char>,
        >(acc2));
        assert(insert_fields(f, j + 1, acc2) == acc2);
    } else {
        assert(next_line(t, p, hi) == start + hj1.len());
        lemma_read_lines(t, start, f, j + 1, acc2);
    }
}

/// Reading the head that `format` writes with the request parser's header
/// rules gives back the response's header map, provided each field reads
/// back as itself.
pub proof fn lemma_format_fields_read_back(r: Response)
    requires
        valid_utf8(r.body@),
        r.headers.wf(),
        forall|i: int|
            0 <= i < r.headers.fields().len() ==> plain_field(#[trigger] r.headers.fields()[i]),
    ensures
        head_fields(
            decode_utf8(encode_utf8(head_text(r.status_code, r.headers.fields())) + r.body@),
            true,
        ) == Ok::<Map<Seq<char>, Seq<char>>, Seq<char>>(r.headers@),
{
    let f = r.headers.fields();
    assert forall|i: int| 0 <= i < f.len() implies no_line_break(#[trigger] f[i].0)
        && no_line_break(f[i].1) by {
        assert(plain_field(f[i]));
    }
    lemma_format_round_trip(r);
    let text = decode_utf8(encode_utf8(head_text(r.status_code, f)) + r.body@);
    let st = status_line(r.status_code);
    let l = header_lines(f);
    let d = head_end(text);
    lemma_status_line_shape(r.status_code);
    assert(text.subrange(0, d + 2) == st + l);
    assert(d + 2 == st.len() + l.len());
    r.headers.lemma_insert_fields_view();
    assert forall|m: int| 0 <= m < st.len() - 1 implies #[trigger] text[m] != '\n' by {
        assert(text.subrange(0, d + 2)[m] == text[m]);
        assert((st + l)[m] == st[m]);
    }
    assert(text.subrange(0, d + 2)[st.len() - 1] == text[st.len() - 1]);
    assert((st + l)[st.len() - 1] == st[st.len() - 1]);
    if f.len() == 0 {
        lemma_find_char_at(text, '\n', 0, d, d);
        assert(next_line(text, 0, d) == d);
    } else {
        lemma_header_lines_shape(f);
        lemma_find_char_at(text, '\n', 0, st.len() - 1, d);
        assert(next_line(text, 0, d) == st.len());
        assert(text.subrange(st.len() as int, (st.len() + l.len()) as int) =~= l) by {
            assert forall|m: int| 0 <= m < l.len() implies text.subrange(
                st.len() as int,
                (st.len() + l.len()) as int,
            )[m] == l[m] by {
                assert(text.subrange(0, d + 2)[st.len() + m] == text[st.len() + m]);
                assert((st + l)[st.len() + m] == l[m]);
            }
        }
        assert(f.subrange(0, 0) =~= Seq::<(Seq<char>, Seq<char>)>::empty());
        lemma_read_lines(text, st.len() as int, f, 0, Map::empty());
    }
}

#[derive(Debug, PartialEq, Eq)]
pub enum EncodingError {
    InvalidBodyEncoding,
}

#[derive(Debug)]
pub struct Response {
    pub status_code: u16,
    pub headers: HeaderMap,
    pub body: Vec<u8>,
}

impl Response {
    pub fn new(status_code: u16) -> (r: Response)
        ensures
            r.status_code == status_code,
            r.headers@ == Map::<Seq<char>, Seq<char>>::empty(),
            r.headers.fields().len() == 0,
            r.body@ == Seq::<u8>::empty(),
    {
        Response { status_code, headers: HeaderMap::new(), body: Vec::new() }
    }

    /// Sets the body to already encoded JSON and `Content-Type` to
    /// `application/json`.
    pub fn set_encoded_json_body(self, encoded: Vec<u8>) -> (r: Response)
        ensures
            r.status_code == self.status_code,
            r.headers@ == self.headers@.insert("Content-Type"@, "application/json"@),
            r.body@ == encoded@,
    {
        let mut r = self;
        r.headers.insert("Content-Type".to_owned(), "application/json".to_owned());
        r.body = encoded;
        r
    }

    /// The bytes of the response on the wire: the head, then the body bytes.
    /// The body must be UTF-8 text.
    pub fn format(&self) -> (r: Result<Vec<u8>, EncodingError>)
        ensures
            r is Ok <==> valid_utf8(self.body@),
            r is Ok ==> r->Ok_0@ == encode_utf8(head_text(self.status_code, self.headers.fields()))
                + self.body@,
    {
        if utf8_text(self.body.as_slice()).is_none() {
            return Err(EncodingError::InvalidBodyEncoding);
        }
        let mut head = String::new();
        head.append("HTTP/1.1 ");
        let code = decimal_string(self.status_code as usize);
        head.append(code.as_str());
        head.append(" ");
        head.append(self.get_status_message());
        head.append("\r\n");
        let n = self.headers.len();
        let mut i: usize = 0;
        while i < n
            invariant
                n == self.headers.fields().len(),
                i <= n,
                head@ == status_line(self.status_code) + header_lines(
                    self.headers.fields().subrange(0, i as int),
                ),
            decreases n - i,
        {
            let (k, v) = self.headers.field(i);
            let ghost before = head@;
            head.append(k.as_str());
            head.append(": ");
            head.append(v.as_str());
            head.append("\r\n");
            proof {
                let f = self.headers.fields().subrange(0, i as int + 1);
                assert(f.drop_last() =~= self.headers.fields().subrange(0, i as int));
                assert(head@ =~= before + f.last().0 + ": "@ + f.last().1 + "\r\n"@);
            }
            i += 1;
        }
        head.append("\r\n");
        proof {
            assert(self.headers.fields().subrange(0, n as int) =~= self.headers.fields());
        }
        let mut out = head.as_str().as_bytes_vec();
        let mut body = vstd::slice::slice_to_vec(self.body.as_slice());
        out.append(&mut body);
        Ok(out)
    }

    fn get_status_message(&self) -> (r: &'static str)
        ensures
            r@ == reason_phrase(self.status_code),
    {
        match self.status_code {
            200 => "OK",
            201 => "Created",
            400 => "Bad Request",
            401 => "Unauthorized",
            403 => "Forbidden",
            404 => "Not Found",
            500 => "Internal Server Error",
            _ => "Unknown",
        }
    }

    /// Sets header `key` to `value`, replacing an earlier value.
    pub fn add_header(self, key: &str, value: &str) -> (r: Response)
        ensures
            r.status_code == self.status_code,
            r.headers@ == self.headers@.insert(key@, value@),
            r.body@ == self.body@,
    {
        let mut r = self;
        r.headers.insert(key.to_owned(), value.to_owned());
        r
    }

    /// Replaces the body.
    pub fn add_body(self, body: Vec<u8>) -> (r: Response)
        ensures
            r.status_code == self.status_code,
            r.headers == self.headers,
            r.body@ == body@,
    {
        let mut r = self;
        r.body = body;
        r
    }

    pub fn status_code(&self) -> (r: u16)
        ensures
            r == self.status_code,
    {
        self.status_code
    }

    pub fn headers(&self) -> (r: &HeaderMap)
        ensures
            r@ == self.headers@,
    {
        &self.headers
    }

    pub fn body(&self) -> (r: &[u8])
        ensures
            r@ == self.body@,
    {
        self.body.as_slice()
    }
}

} // verus!
