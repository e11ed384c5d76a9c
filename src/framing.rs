//! Length-prefixed message framing: header lines, then a body of exactly
//! the announced number of bytes.

use vstd::prelude::*;
use crate::text::{
    all_digits, chars_of, decimal, digit_char, digit_value, digits_value, find_chars, find_from, is_digit, occurs_at,
    parse_u64, parse_u64_spec, push_decimal, string_of, trim, trim_bounds, trim_end, trim_start,
    unsigned_part,
};
use vstd::string::StringExecFns;

verus! {

/// What one header line says.
#[derive(PartialEq, Eq, Structural, Clone, Copy, Debug)]
pub enum HeaderLine {
    /// The blank line that ends the headers.
    End,
    /// The body length.
    Length(usize),
    /// Any other header.
    Other,
}

/// `s` without trailing carriage returns and newlines.
pub open spec fn strip_line_ending(s: Seq<char>) -> Seq<char>
    decreases s.len(),
{
    if s.len() > 0 && (s.last() == '\r' || s.last() == '\n') {
        strip_line_ending(s.drop_last())
    } else {
        s
    }
}

/// Two characters are equal up to ASCII case.
pub open spec fn same_ignoring_case(x: char, y: char) -> bool {
    x == y || ('A' <= x <= 'Z' && y as u32 == x as u32 + 32) || ('A' <= y <= 'Z' && x as u32
        == y as u32 + 32)
}

/// Two sequences are equal up to ASCII case.
pub open spec fn eq_ignore_ascii_case(a: Seq<char>, b: Seq<char>) -> bool {
    a.len() == b.len() && forall|i: int| 0 <= i < a.len() ==> same_ignoring_case(#[trigger] a[i], b[i])
}

/// What a header line says; `None` when it names the length header with a
/// value that is not a length.
pub open spec fn header_of(line: Seq<char>) -> Option<HeaderLine> {
    let l = strip_line_ending(line);
    if l.len() == 0 {
        Some(HeaderLine::End)
    } else {
        match find_from(l, seq![':'], 0) {
            None => Some(HeaderLine::Other),
            Some(k) => if eq_ignore_ascii_case(l.take(k), "Content-Length"@) {
                match parse_u64_spec(trim(l.skip(k + 1))) {
                    Some(n) => if n <= usize::MAX {
                        Some(HeaderLine::Length(n as usize))
                    } else {
                        None
                    },
                    None => None,
                }
            } else {
                Some(HeaderLine::Other)
            },
        }
    }
}

fn eq_ignore_case_at(s: &Vec<char>, a: usize, b: usize, t: &Vec<char>) -> (r: bool)
    requires
        a <= b <= s.len(),
    ensures
        r == eq_ignore_ascii_case(s@.subrange(a as int, b as int), t@),
{
    if b - a != t.len() {
        return false;
    }
    let mut i: usize = 0;
    while i < t.len()
        invariant
            b - a == t.len(),
            a <= b <= s.len(),
            i <= t.len(),
            forall|k: int| 0 <= k < i ==> same_ignoring_case(s@[a + k], t@[k]),
        decreases t.len() - i,
    {
        let x = s[a + i];
        let y = t[i];
        let same = x == y || ('A' <= x && x <= 'Z' && y as u32 == x as u32 + 32) || ('A' <= y && y
            <= 'Z' && x as u32 == y as u32 + 32);
        if !same {
            assert(s@.subrange(a as int, b as int)[i as int] == x);
            return false;
        }
        i = i + 1;
    }
    assert forall|k: int| 0 <= k < t.len() implies same_ignoring_case(
        #[trigger] s@.subrange(a as int, b as int)[k],
        t@[k],
    ) by {
        assert(s@.subrange(a as int, b as int)[k] == s@[a + k]);
    }
    true
}

/// Reads one header line.
pub fn parse_header_line(line: &str) -> (r: Result<HeaderLine, String>)
    ensures
        r matches Ok(h) ==> header_of(line@) == Some(h),
        r is Err <==> header_of(line@) is None,
{
    let s = chars_of(line);
    let mut n: usize = s.len();
    assert(s@.take(n as int) =~= s@);
    while n > 0 && (s[n - 1] == '\r' || s[n - 1] == '\n')
        invariant
            n <= s.len(),
            s@ == line@,
            strip_line_ending(s@.take(n as int)) == strip_line_ending(line@),
        decreases n,
    {
        assert(s@.take(n as int).drop_last() =~= s@.take(n - 1));
        n = n - 1;
    }
    let ghost l = s@.take(n as int);
    assert(strip_line_ending(l) == l);
    if n == 0 {
        return Ok(HeaderLine::End);
    }
    let l = crate::text::sub_chars(&s, 0, n);
    assert(l@ =~= s@.take(n as int));
    let colon: Vec<char> = vec![':'];
    assert(colon@ =~= seq![':']);
    let k = match find_chars(&l, &colon, 0) {
        Some(k) => k,
        None => return Ok(HeaderLine::Other),
    };
    proof {
        crate::text::lemma_find_from_range(l@, colon@, 0);
        assert(occurs_at(l@, colon@, k as int));
    }
    let name = chars_of("Content-Length");
    assert(l@.subrange(0, k as int) =~= l@.take(k as int));
    if !eq_ignore_case_at(&l, 0, k, &name) {
        return Ok(HeaderLine::Other);
    }
    let (va, vb) = trim_bounds(&l, k + 1, l.len());
    assert(l@.subrange(k + 1, l.len() as int) =~= l@.skip(k + 1));
    match parse_u64(&l, va, vb) {
        Some(v) => {
            if v > usize::MAX as u64 {
                return Err(String::from_str("Invalid Content-Length header: number too large"));
            }
            Ok(HeaderLine::Length(v as usize))
        },
        None => Err(String::from_str("Invalid Content-Length header: not a decimal length")),
    }
}

/// Header state of a message being read.
#[derive(Debug)]
pub struct FrameHeaders {
    pub content_length: Option<usize>,
    pub lines_read: usize,
}

/// What to read after a header line.
#[derive(Debug)]
pub enum HeaderStep {
    /// Read another line.
    More,
    /// The blank line came: read the body.
    Body,
}

impl FrameHeaders {
    /// State before the first header line.
    pub fn new() -> (r: FrameHeaders)
        ensures
            r.content_length is None,
            r.lines_read == 0,
    {
        FrameHeaders { content_length: None, lines_read: 0 }
    }

    /// Takes one header line: the blank line ends the headers, the length
    /// header records the body length (the last one wins), others are
    /// ignored.
    pub fn on_line(&mut self, line: &str) -> (r: Result<HeaderStep, String>)
        ensures
            header_of(line@) is None <==> r is Err,
            header_of(line@) == Some(HeaderLine::End) ==> r matches Ok(HeaderStep::Body),
            header_of(line@) == Some(HeaderLine::Other) ==> r matches Ok(HeaderStep::More),
            (header_of(line@) matches Some(HeaderLine::Length(_))) ==> r matches Ok(HeaderStep::More),
            final(self).content_length == (match header_of(line@) {
                Some(HeaderLine::Length(n)) => Some(n),
                _ => old(self).content_length,
            }),
            final(self).lines_read == if old(self).lines_read < usize::MAX {
                old(self).lines_read + 1
            } else {
                old(self).lines_read as int
            },
    {
        if self.lines_read < usize::MAX {
            self.lines_read = self.lines_read + 1;
        }
        match parse_header_line(line) {
            Ok(HeaderLine::End) => Ok(HeaderStep::Body),
            Ok(HeaderLine::Length(n)) => {
                self.content_length = Some(n);
                Ok(HeaderStep::More)
            },
            Ok(HeaderLine::Other) => Ok(HeaderStep::More),
            Err(e) => Err(e),
        }
    }

    /// The stream ended while reading headers: a clean end when no header
    /// line was read, an error otherwise.
    pub fn on_eof(&self) -> (r: Result<(), String>)
        ensures
            r is Ok <==> self.lines_read == 0,
    {
        if self.lines_read == 0 {
            Ok(())
        } else {
            Err(String::from_str("EOF while reading MCP headers"))
        }
    }

    /// The body length, once the headers ended.
    pub fn body_length(&self) -> (r: Result<usize, String>)
        ensures
            r matches Ok(n) ==> self.content_length == Some(n),
            r is Err <==> self.content_length is None,
    {
        match self.content_length {
            Some(n) => Ok(n),
            None => Err(String::from_str("Missing Content-Length header in MCP message")),
        }
    }
}

/// The header block announcing a body of `n` bytes.
pub open spec fn frame_header_text(n: nat) -> Seq<char> {
    "Content-Length: "@ + decimal(n) + "\r\n\r\n"@
}

/// The header block to write before a body of `body_len` bytes.
pub fn frame_header(body_len: usize) -> (r: String)
    ensures
        r@ == frame_header_text(body_len as nat),
{
    let mut digits: Vec<char> = Vec::new();
    push_decimal(&mut digits, body_len as u64);
    assert(digits@ =~= decimal(body_len as nat));
    let s = String::from_str("Content-Length: ");
    let s = s.concat(string_of(&digits).as_str());
    s.concat("\r\n\r\n")
}

proof fn lemma_digit_char(d: nat)
    requires
        d < 10,
    ensures
        is_digit(digit_char(d)),
        digit_value(digit_char(d)) == d,
{
}

proof fn lemma_decimal_parses(n: nat)
    ensures
        decimal(n).len() >= 1,
        all_digits(decimal(n)),
        digits_value(decimal(n)) == n,
    decreases n,
{
    lemma_digit_char(n % 10);
    assert(decimal(n).last() == digit_char(n % 10));
    if n < 10 {
        assert(decimal(n).drop_last() =~= Seq::<char>::empty());
        assert(digits_value(decimal(n)) == digits_value(Seq::<char>::empty()) * 10 + digit_value(
            digit_char(n % 10),
        ));
    } else {
        lemma_decimal_parses(n / 10);
        let d = decimal(n / 10);
        assert(decimal(n).drop_last() =~= d);
        assert forall|i: int| 0 <= i < decimal(n).len() implies is_digit(#[trigger] decimal(n)[i]) by {
            if i < d.len() {
                assert(decimal(n)[i] == d[i]);
            }
        }
        assert(n == (n / 10) * 10 + n % 10);
        assert(digits_value(decimal(n)) == digits_value(d) * 10 + digit_value(digit_char(n % 10)));
    }
}

proof fn lemma_find_first(s: Seq<char>, pat: Seq<char>, i: int, k: int)
    requires
        0 <= i <= k,
        pat.len() > 0,
        occurs_at(s, pat, k),
        forall|j: int| i <= j < k ==> !occurs_at(s, pat, j),
    ensures
        find_from(s, pat, i) == Some(k),
    decreases k - i,
{
    if i < k {
        lemma_find_first(s, pat, i + 1, k);
    }
}

/// The header block that `frame_header` writes reads back, line by line, as
/// the announced length and then the end of the headers.
pub proof fn frame_header_round_trip(n: usize)
    ensures
        frame_header_text(n as nat) == ("Content-Length: "@ + decimal(n as nat) + "\r\n"@)
            + "\r\n"@,
        header_of("Content-Length: "@ + decimal(n as nat) + "\r\n"@) == Some(HeaderLine::Length(n)),
        header_of("\r\n"@) == Some(HeaderLine::End),
{
    reveal_strlit("Content-Length: ");
    reveal_strlit("Content-Length");
    reveal_strlit("\r\n");
    reveal_strlit("\r\n\r\n");
    let d = decimal(n as nat);
    lemma_decimal_parses(n as nat);
    let prefix = "Content-Length: "@;
    let line = prefix + d + "\r\n"@;
    let l = prefix + d;
    assert(frame_header_text(n as nat) =~= line + "\r\n"@);
    // the line ending goes
    assert("\r\n"@.len() == 2 && "\r\n"@[0] == '\r' && "\r\n"@[1] == '\n');
    assert(line.last() == '\n');
    assert(line.drop_last() =~= l + seq!['\r']);
    assert((l + seq!['\r']).last() == '\r');
    assert((l + seq!['\r']).drop_last() =~= l);
    assert(is_digit(l.last()));
    assert(strip_line_ending(l) == l);
    assert(strip_line_ending(line) == strip_line_ending(l + seq!['\r']));
    assert(strip_line_ending(l + seq!['\r']) == strip_line_ending(l));
    assert(strip_line_ending(line) == l);
    // the first colon ends the name
    let colon = seq![':'];
    assert(l.subrange(14, 15) =~= colon);
    assert forall|j: int| 0 <= j < 14 implies !occurs_at(l, colon, j) by {
        assert(l.subrange(j, j + 1)[0] == l[j]);
    }
    lemma_find_first(l, colon, 0, 14);
    assert(l.take(14) =~= "Content-Length"@);
    assert(eq_ignore_ascii_case(l.take(14), "Content-Length"@));
    // the value is the digits
    let v = l.skip(15);
    assert(v =~= seq![' '] + d);
    assert(v.drop_first() =~= d);
    assert(trim_start(d) == d);
    assert(trim_start(v) == d);
    assert(trim_end(d) == d);
    assert(unsigned_part(d) == d);
    assert(parse_u64_spec(trim(v)) == Some(n as nat));
    // the blank line
    let e = "\r\n"@;
    assert(e.last() == '\n');
    assert(e.drop_last() =~= seq!['\r']);
    assert(seq!['\r'].last() == '\r');
    assert(seq!['\r'].drop_last() =~= Seq::<char>::empty());
    assert(strip_line_ending(e) == strip_line_ending(seq!['\r']));
    assert(strip_line_ending(seq!['\r']) == strip_line_ending(Seq::<char>::empty()));
    assert(strip_line_ending(e).len() == 0);
}

} // verus!
