//! Character-level scanning over the raw text of a request.
//!
//! Every scanner works on a range `[i, hi)` of a character sequence and has a
//! spec counterpart of the same name that states its result.

use vstd::prelude::*;
use vstd::utf8::{decode_utf8, valid_utf8};

verus! {

/// The Unicode `White_Space` code points, the set tested by `char::is_whitespace`.
pub open spec fn is_ws(c: char) -> bool {
    let u = c as u32;
    (0x09 <= u && u <= 0x0D) || u == 0x20 || u == 0x85 || u == 0xA0 || u == 0x1680 || (0x2000 <= u
        && u <= 0x200A) || u == 0x2028 || u == 0x2029 || u == 0x202F || u == 0x205F || u == 0x3000
}

/// First index in `[i, hi)` that is not whitespace, or `hi`.
pub open spec fn skip_ws(s: Seq<char>, i: int, hi: int) -> int
    decreases hi - i,
{
    if i >= hi || !is_ws(s[i]) {
        i
    } else {
        skip_ws(s, i + 1, hi)
    }
}

/// First index in `[i, hi)` that is whitespace, or `hi`.
pub open spec fn skip_word(s: Seq<char>, i: int, hi: int) -> int
    decreases hi - i,
{
    if i >= hi || is_ws(s[i]) {
        i
    } else {
        skip_word(s, i + 1, hi)
    }
}

/// First index in `[i, hi)` holding `c`, or `hi`.
pub open spec fn find_char(s: Seq<char>, c: char, i: int, hi: int) -> int
    decreases hi - i,
{
    if i >= hi || s[i] == c {
        i
    } else {
        find_char(s, c, i + 1, hi)
    }
}

/// Going down from `j`, the first end position whose preceding character
/// is not whitespace, or `lo`.
pub open spec fn rskip_ws(s: Seq<char>, lo: int, j: int) -> int
    decreases j - lo,
{
    if j <= lo || !is_ws(s[j - 1]) {
        j
    } else {
        rskip_ws(s, lo, j - 1)
    }
}

/// `s[lo..hi]` without leading and trailing whitespace.
pub open spec fn trimmed(s: Seq<char>, lo: int, hi: int) -> Seq<char> {
    let a = skip_ws(s, lo, hi);
    s.subrange(a, rskip_ws(s, a, hi))
}

/// Whether `s[i..i + 4]` is the blank-line delimiter `\r\n\r\n`.
pub open spec fn delimiter_at(s: Seq<char>, i: int) -> bool {
    0 <= i && i + 4 <= s.len() && s[i] == '\r' && s[i + 1] == '\n' && s[i + 2] == '\r' && s[i
        + 3] == '\n'
}

/// First index `>= i` where the delimiter starts, or `s.len()` if there is none.
pub open spec fn find_delimiter(s: Seq<char>, i: int) -> int
    decreases s.len() - i,
{
    if i + 4 > s.len() {
        s.len() as int
    } else if delimiter_at(s, i) {
        i
    } else {
        find_delimiter(s, i + 1)
    }
}

/// End of the text of the line that starts at `i` in `[i, hi)`: the line runs to
/// the next `\n`, and a `\r` just before that `\n` is not part of its text.
pub open spec fn line_text_end(s: Seq<char>, i: int, hi: int) -> int {
    let e = find_char(s, '\n', i, hi);
    if e < hi && e > i && s[e - 1] == '\r' {
        e - 1
    } else {
        e
    }
}

/// Start of the line after the one that starts at `i`, or `hi` for the last line.
pub open spec fn next_line(s: Seq<char>, i: int, hi: int) -> int {
    let e = find_char(s, '\n', i, hi);
    if e < hi {
        e + 1
    } else {
        hi
    }
}

pub fn is_whitespace(c: char) -> (r: bool)
    ensures
        r == is_ws(c),
{
    let u = c as u32;
    (0x09 <= u && u <= 0x0D) || u == 0x20 || u == 0x85 || u == 0xA0 || u == 0x1680 || (0x2000 <= u
        && u <= 0x200A) || u == 0x2028 || u == 0x2029 || u == 0x202F || u == 0x205F || u == 0x3000
}

/// The characters of `s`, one per element.
pub fn chars_of(s: &str) -> (r: Vec<char>)
    ensures
        r@ == s@,
{
    broadcast use vstd::string::group_string_axioms;

    let mut v: Vec<char> = Vec::new();
    for c in it: s.chars()
        invariant
            v@ == it.seq().subrange(0, it.index()),
    {
        v.push(c);
    }
    assert(v@ =~= s@);
    v
}

pub fn skip_whitespace(s: &Vec<char>, i: usize, hi: usize) -> (r: usize)
    requires
        i <= hi <= s@.len(),
    ensures
        r == skip_ws(s@, i as int, hi as int),
        i <= r <= hi,
{
    let mut j = i;
    while j < hi && is_whitespace(s[j])
        invariant
            i <= j <= hi <= s@.len(),
            skip_ws(s@, j as int, hi as int) == skip_ws(s@, i as int, hi as int),
        decreases hi - j,
    {
        j += 1;
    }
    j
}

pub fn skip_non_whitespace(s: &Vec<char>, i: usize, hi: usize) -> (r: usize)
    requires
        i <= hi <= s@.len(),
    ensures
        r == skip_word(s@, i as int, hi as int),
        i <= r <= hi,
{
    let mut j = i;
    while j < hi && !is_whitespace(s[j])
        invariant
            i <= j <= hi <= s@.len(),
            skip_word(s@, j as int, hi as int) == skip_word(s@, i as int, hi as int),
        decreases hi - j,
    {
        j += 1;
    }
    j
}

pub fn find(s: &Vec<char>, c: char, i: usize, hi: usize) -> (r: usize)
    requires
        i <= hi <= s@.len(),
    ensures
        r == find_char(s@, c, i as int, hi as int),
        i <= r <= hi,
        r < hi ==> s@[r as int] == c,
{
    let mut j = i;
    while j < hi && s[j] != c
        invariant
            i <= j <= hi <= s@.len(),
            find_char(s@, c, j as int, hi as int) == find_char(s@, c, i as int, hi as int),
        decreases hi - j,
    {
        j += 1;
    }
    j
}

pub fn rskip_whitespace(s: &Vec<char>, lo: usize, hi: usize) -> (r: usize)
    requires
        lo <= hi <= s@.len(),
    ensures
        r == rskip_ws(s@, lo as int, hi as int),
        lo <= r <= hi,
{
    let mut j = hi;
    while j > lo && is_whitespace(s[j - 1])
        invariant
            lo <= j <= hi <= s@.len(),
            rskip_ws(s@, lo as int, j as int) == rskip_ws(s@, lo as int, hi as int),
        decreases j,
    {
        j -= 1;
    }
    j
}

/// The bounds of `s[lo..hi]` without surrounding whitespace.
pub fn trim_bounds(s: &Vec<char>, lo: usize, hi: usize) -> (r: (usize, usize))
    requires
        lo <= hi <= s@.len(),
    ensures
        lo <= r.0 <= r.1 <= hi,
        s@.subrange(r.0 as int, r.1 as int) == trimmed(s@, lo as int, hi as int),
{
    let a = skip_whitespace(s, lo, hi);
    let b = rskip_whitespace(s, a, hi);
    (a, b)
}

pub fn find_blank_line(s: &Vec<char>) -> (r: usize)
    ensures
        r == find_delimiter(s@, 0),
        r <= s@.len(),
        r < s@.len() ==> delimiter_at(s@, r as int),
{
    let n = s.len();
    let mut j: usize = 0;
    while j < n && n - j >= 4 && !(s[j] == '\r' && s[j + 1] == '\n' && s[j + 2] == '\r' && s[j
        + 3] == '\n')
        invariant
            n == s@.len(),
            j <= n,
            find_delimiter(s@, j as int) == find_delimiter(s@, 0),
        decreases n - j,
    {
        j += 1;
    }
    if j < n && n - j >= 4 {
        j
    } else {
        n
    }
}

/// The text end and the next-line start of the line that starts at `i`.
pub fn line_bounds(s: &Vec<char>, i: usize, hi: usize) -> (r: (usize, usize))
    requires
        i <= hi <= s@.len(),
    ensures
        r.0 == line_text_end(s@, i as int, hi as int),
        r.1 == next_line(s@, i as int, hi as int),
        i <= r.0 <= hi,
        r.1 <= hi,
        i < hi ==> i < r.1,
        r.0 <= r.1,
{
    let e = find(s, '\n', i, hi);
    let te = if e < hi && e > i && s[e - 1] == '\r' {
        e - 1
    } else {
        e
    };
    let nx = if e < hi {
        e + 1
    } else {
        hi
    };
    (te, nx)
}

/// The character of a decimal digit.
pub open spec fn digit(d: nat) -> char {
    if d == 0 {
        '0'
    } else if d == 1 {
        '1'
    } else if d == 2 {
        '2'
    } else if d == 3 {
        '3'
    } else if d == 4 {
        '4'
    } else if d == 5 {
        '5'
    } else if d == 6 {
        '6'
    } else if d == 7 {
        '7'
    } else if d == 8 {
        '8'
    } else {
        '9'
    }
}

/// The value of a decimal digit character (`0` for any other character).
pub open spec fn digit_value(c: char) -> nat {
    if '0' <= c && c <= '9' {
        (c as u32 - '0' as u32) as nat
    } else {
        0
    }
}

/// `n` written in decimal, without leading zeros.
pub open spec fn decimal(n: nat) -> Seq<char>
    decreases n,
{
    if n < 10 {
        seq![digit(n)]
    } else {
        decimal(n / 10).push(digit(n % 10))
    }
}

/// The number that a string of decimal digits denotes.
pub open spec fn decimal_value(s: Seq<char>) -> nat
    decreases s.len(),
{
    if s.len() == 0 {
        0
    } else {
        decimal_value(s.drop_last()) * 10 + digit_value(s.last())
    }
}

/// A decimal numeral holds digits only.
pub proof fn lemma_decimal_digits(n: nat)
    ensures
        forall|j: int| 0 <= j < decimal(n).len() ==> '0' <= #[trigger] decimal(n)[j] <= '9',
    decreases n,
{
    if n >= 10 {
        lemma_decimal_digits(n / 10);
        assert forall|j: int| 0 <= j < decimal(n).len() implies '0' <= #[trigger] decimal(n)[j]
            <= '9' by {
            if j < decimal(n / 10).len() {
                assert(decimal(n)[j] == decimal(n / 10)[j]);
            }
        }
    }
}

/// The UTF-8 encoding of two texts one after the other is the two encodings
/// one after the other.
pub proof fn lemma_encode_utf8_concat(a: Seq<char>, b: Seq<char>)
    ensures
        vstd::utf8::encode_utf8(a + b) == vstd::utf8::encode_utf8(a) + vstd::utf8::encode_utf8(b),
    decreases a.len(),
{
    if a.len() == 0 {
        assert(a + b =~= b);
    } else {
        assert((a + b).drop_first() =~= a.drop_first() + b);
        lemma_encode_utf8_concat(a.drop_first(), b);
    }
}

/// Reading back a number written in decimal gives the number.
pub proof fn lemma_decimal_value(n: nat)
    ensures
        decimal_value(decimal(n)) == n,
        decimal(n).len() > 0,
    decreases n,
{
    lemma_digit_value(n % 10);
    if n >= 10 {
        lemma_decimal_value(n / 10);
        let d = decimal(n);
        assert(d.drop_last() =~= decimal(n / 10));
        assert(d.last() == digit(n % 10));
        assert(decimal_value(d) == decimal_value(d.drop_last()) * 10 + digit_value(d.last()));
        assert((n / 10) * 10 + n % 10 == n);
    } else {
        let d = decimal(n);
        assert(d.drop_last() =~= Seq::<char>::empty());
        assert(decimal_value(d.drop_last()) == 0);
        assert(decimal_value(d) == decimal_value(d.drop_last()) * 10 + digit_value(d.last()));
    }
}

proof fn lemma_digit_value(d: nat)
    requires
        d < 10,
    ensures
        digit_value(digit(d)) == d,
{
}

fn digit_text(d: usize) -> (r: &'static str)
    requires
        d < 10,
    ensures
        r@ == seq![digit(d as nat)],
{
    proof {
        reveal_strlit("0");
        reveal_strlit("1");
        reveal_strlit("2");
        reveal_strlit("3");
        reveal_strlit("4");
        reveal_strlit("5");
        reveal_strlit("6");
        reveal_strlit("7");
        reveal_strlit("8");
        reveal_strlit("9");
    }
    if d == 0 {
        "0"
    } else if d == 1 {
        "1"
    } else if d == 2 {
        "2"
    } else if d == 3 {
        "3"
    } else if d == 4 {
        "4"
    } else if d == 5 {
        "5"
    } else if d == 6 {
        "6"
    } else if d == 7 {
        "7"
    } else if d == 8 {
        "8"
    } else {
        "9"
    }
}

/// `n` written in decimal, as `usize::to_string` writes it.
pub fn decimal_string(n: usize) -> (r: String)
    ensures
        r@ == decimal(n as nat),
    decreases n,
{
    let mut s = if n < 10 {
        String::new()
    } else {
        decimal_string(n / 10)
    };
    s.append(digit_text(n % 10));
    proof {
        if n < 10 {
            assert(s@ =~= decimal(n as nat));
        }
    }
    s
}

/// Relies on `std::str::from_utf8`: it accepts exactly well-formed UTF-8 and
/// then reads the characters that the bytes encode.
#[verifier::external_body]
pub fn utf8_text(bytes: &[u8]) -> (r: Option<&str>)
    ensures
        r is Some <==> valid_utf8(bytes@),
        r is Some ==> r->0@ == decode_utf8(bytes@),
{
    std::str::from_utf8(bytes).ok()
}

/// Whether two strings hold the same characters.
pub fn same_text(a: &str, b: &str) -> (r: bool)
    ensures
        r == (a@ == b@),
{
    let x = a.as_bytes();
    let y = b.as_bytes();
    proof {
        vstd::utf8::encode_utf8_decode_utf8(a@);
        vstd::utf8::encode_utf8_decode_utf8(b@);
        assert(x@ == vstd::utf8::encode_utf8(a@));
        assert(y@ == vstd::utf8::encode_utf8(b@));
    }
    if x.len() != y.len() {
        assert(x@ != y@);
        return false;
    }
    let mut i: usize = 0;
    while i < x.len()
        invariant
            x@.len() == y@.len(),
            x@ == vstd::utf8::encode_utf8(a@),
            y@ == vstd::utf8::encode_utf8(b@),
            i <= x@.len(),
            forall|j: int| 0 <= j < i ==> x@[j] == y@[j],
        decreases x@.len() - i,
    {
        if x[i] != y[i] {
            assert(x@[i as int] != y@[i as int]);
            return false;
        }
        i += 1;
    }
    assert(x@ =~= y@);
    true
}

} // verus!
