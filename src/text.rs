//! Character-sequence helpers shared by the parsers.

use vstd::prelude::*;

verus! {

/// Unicode `White_Space`, the property that `char::is_whitespace` tests.
pub open spec fn is_ws(c: char) -> bool {
    let u = c as u32;
    (9 <= u <= 13) || u == 32 || u == 0x85 || u == 0xA0 || u == 0x1680 || (0x2000 <= u <= 0x200A)
        || u == 0x2028 || u == 0x2029 || u == 0x202F || u == 0x205F || u == 0x3000
}

/// Executable form of `is_ws`.
pub fn is_ws_char(c: char) -> (r: bool)
    ensures
        r == is_ws(c),
{
    let u = c as u32;
    (9 <= u && u <= 13) || u == 32 || u == 0x85 || u == 0xA0 || u == 0x1680 || (0x2000 <= u && u
        <= 0x200A) || u == 0x2028 || u == 0x2029 || u == 0x202F || u == 0x205F || u == 0x3000
}

/// The characters of a string, in order.
pub fn chars_of(s: &str) -> (r: Vec<char>)
    ensures
        r@ == s@,
{
    let mut out: Vec<char> = Vec::new();
    for c in it: s.chars()
        invariant
            it.seq() == s@,
            out@ == s@.take(it.index() as int),
    {
        out.push(c);
    }
    assert(out@ =~= s@);
    out
}

/// Relies on `String: FromIterator<&char>`: the string holds exactly the
/// characters, in order.
#[verifier::external_body]
pub(crate) fn string_of(v: &Vec<char>) -> (r: String)
    ensures
        r@ == v@,
{
    v.iter().collect()
}


/// `pat` occurs in `s` at index `i`.
pub open spec fn occurs_at(s: Seq<char>, pat: Seq<char>, i: int) -> bool {
    0 <= i && i + pat.len() <= s.len() && s.subrange(i, i + pat.len()) == pat
}

/// The first index at or after `i` where `pat` occurs in `s`.
pub open spec fn find_from(s: Seq<char>, pat: Seq<char>, i: int) -> Option<int>
    decreases s.len() - i,
{
    if i < 0 || i + pat.len() > s.len() {
        None
    } else if occurs_at(s, pat, i) {
        Some(i)
    } else if i >= s.len() {
        None
    } else {
        find_from(s, pat, i + 1)
    }
}

/// A found index as a spec integer.
pub open spec fn opt_int(r: Option<usize>) -> Option<int> {
    match r {
        Some(k) => Some(k as int),
        None => None,
    }
}

/// First occurrence of `pat` in `s` at or after `start`.
pub fn find_chars(s: &Vec<char>, pat: &Vec<char>, start: usize) -> (r: Option<usize>)
    ensures
        opt_int(r) == find_from(s@, pat@, start as int),
{
    let mut i: usize = start;
    loop
        invariant
            start <= i,
            find_from(s@, pat@, start as int) == find_from(s@, pat@, i as int),
        decreases s.len() - i,
    {
        if i > s.len() || pat.len() > s.len() - i {
            return None;
        }
        let mut j: usize = 0;
        let mut same = true;
        while j < pat.len() && same
            invariant
                i + pat.len() <= s.len(),
                j <= pat.len(),
                same ==> forall|k: int| 0 <= k < j ==> s@[i + k] == pat@[k],
                !same ==> !occurs_at(s@, pat@, i as int),
            decreases pat.len() - j + (if same { 1int } else { 0 }),
        {
            if s[i + j] != pat[j] {
                same = false;
                proof {
                    assert(s@.subrange(i as int, i + pat.len())[j as int] != pat@[j as int]);
                }
            } else {
                j = j + 1;
            }
        }
        if same {
            assert(s@.subrange(i as int, i + pat.len()) =~= pat@);
            return Some(i);
        }
        if i >= s.len() {
            return None;
        }
        i = i + 1;
    }
}

/// `t` without one trailing carriage return.
pub open spec fn strip_cr(t: Seq<char>) -> Seq<char> {
    if t.len() > 0 && t.last() == '\r' {
        t.drop_last()
    } else {
        t
    }
}

/// Number of characters before the first newline of `r` (all of them if it
/// has none).
pub open spec fn eol(r: Seq<char>) -> nat
    decreases r.len(),
{
    if r.len() == 0 || r[0] == '\n' {
        0
    } else {
        1 + eol(r.drop_first())
    }
}

/// The lines of `r` as `str::lines` yields them: split at each newline, one
/// carriage return before a newline dropped (a bare one at the very end is
/// kept), and no empty line after a final newline.
pub open spec fn lines(r: Seq<char>) -> Seq<Seq<char>>
    decreases r.len(),
{
    if r.len() == 0 {
        seq![]
    } else if eol(r) < r.len() {
        seq![strip_cr(r.take(eol(r) as int))] + lines(r.skip(eol(r) + 1int))
    } else {
        seq![r]
    }
}

/// What follows the first line of `r` and its newline.
pub open spec fn after_line(r: Seq<char>) -> Seq<char> {
    if eol(r) < r.len() {
        r.skip(eol(r) + 1int)
    } else {
        Seq::empty()
    }
}

/// The first line of `s[i..]`: where it stops without its line ending, and
/// where the rest starts.
pub fn line_bounds(s: &Vec<char>, i: usize) -> (r: (usize, usize))
    requires
        i < s.len(),
    ensures
        i <= r.0 <= s.len(),
        i < r.1 <= s.len(),
        lines(s@.skip(i as int)) == seq![s@.subrange(i as int, r.0 as int)] + lines(
            s@.skip(r.1 as int),
        ),
        s@.skip(r.1 as int) == after_line(s@.skip(i as int)),
{
    let mut j: usize = i;
    while j < s.len() && s[j] != '\n'
        invariant
            i <= j <= s.len(),
            eol(s@.skip(i as int)) == (j - i) + eol(s@.skip(j as int)),
        decreases s.len() - j,
    {
        assert(s@.skip(j as int).drop_first() =~= s@.skip(j + 1));
        j = j + 1;
    }
    let ghost r = s@.skip(i as int);
    assert(eol(s@.skip(j as int)) == 0);
    assert(r.take(eol(r) as int) =~= s@.subrange(i as int, j as int));
    let mut stop = j;
    if j < s.len() && j > i && s[j - 1] == '\r' {
        stop = j - 1;
        assert(s@.subrange(i as int, j as int).drop_last() =~= s@.subrange(i as int, stop as int));
    }
    if j < s.len() {
        assert(r.skip(eol(r) + 1int) =~= s@.skip(j + 1));
        (stop, j + 1)
    } else {
        assert(s@.skip(j as int) =~= Seq::<char>::empty());
        assert(r =~= s@.subrange(i as int, j as int));
        (stop, j)
    }
}

/// Last index of `c` in `h`, or -1.
pub open spec fn last_index_of(h: Seq<char>, c: char) -> int
    decreases h.len(),
{
    if h.len() == 0 {
        -1
    } else if h.last() == c {
        h.len() - 1
    } else {
        last_index_of(h.drop_last(), c)
    }
}

/// Last index of `c` in `s[a..b]`, relative to `a`.
pub fn rfind_char(s: &Vec<char>, a: usize, b: usize, c: char) -> (r: Option<usize>)
    requires
        a <= b <= s.len(),
    ensures
        match r {
            Some(k) => last_index_of(s@.subrange(a as int, b as int), c) == k as int,
            None => last_index_of(s@.subrange(a as int, b as int), c) == -1,
        },
        r matches Some(k) ==> k < b - a,
{
    let mut j: usize = b;
    while j > a
        invariant
            a <= j <= b <= s.len(),
            last_index_of(s@.subrange(a as int, b as int), c) == last_index_of(
                s@.subrange(a as int, j as int),
                c,
            ),
        decreases j - a,
    {
        if s[j - 1] == c {
            return Some(j - 1 - a);
        }
        assert(s@.subrange(a as int, j as int).drop_last() =~= s@.subrange(a as int, j - 1));
        j = j - 1;
    }
    None
}

/// `s` with leading white space removed.
pub open spec fn trim_start(s: Seq<char>) -> Seq<char>
    decreases s.len(),
{
    if s.len() > 0 && is_ws(s[0]) {
        trim_start(s.drop_first())
    } else {
        s
    }
}

/// `s` with trailing white space removed.
pub open spec fn trim_end(s: Seq<char>) -> Seq<char>
    decreases s.len(),
{
    if s.len() > 0 && is_ws(s.last()) {
        trim_end(s.drop_last())
    } else {
        s
    }
}

/// `s` with white space removed at both ends, as `str::trim` does.
pub open spec fn trim(s: Seq<char>) -> Seq<char> {
    trim_end(trim_start(s))
}

/// A copy of `s[a..b]`.
pub fn sub_chars(s: &Vec<char>, a: usize, b: usize) -> (r: Vec<char>)
    requires
        a <= b <= s.len(),
    ensures
        r@ == s@.subrange(a as int, b as int),
{
    let mut out: Vec<char> = Vec::new();
    let mut i: usize = a;
    while i < b
        invariant
            a <= i <= b <= s.len(),
            out@ == s@.subrange(a as int, i as int),
        decreases b - i,
    {
        out.push(s[i]);
        i = i + 1;
        assert(out@ =~= s@.subrange(a as int, i as int));
    }
    out
}

/// A found occurrence lies at or after where the search began.
pub proof fn lemma_find_from_range(s: Seq<char>, pat: Seq<char>, i: int)
    requires
        find_from(s, pat, i) is Some,
    ensures
        i <= find_from(s, pat, i)->0,
        occurs_at(s, pat, find_from(s, pat, i)->0),
    decreases s.len() - i,
{
    if i < 0 || i + pat.len() > s.len() {
    } else if occurs_at(s, pat, i) {
    } else if i >= s.len() {
    } else {
        lemma_find_from_range(s, pat, i + 1);
    }
}

/// Bounds of `s[lo..hi]` with white space trimmed at both ends.
pub fn trim_bounds(s: &Vec<char>, lo: usize, hi: usize) -> (r: (usize, usize))
    requires
        lo <= hi <= s.len(),
    ensures
        lo <= r.0 <= r.1 <= hi,
        s@.subrange(r.0 as int, r.1 as int) == trim(s@.subrange(lo as int, hi as int)),
{
    let mut a: usize = lo;
    while a < hi && is_ws_char(s[a])
        invariant
            lo <= a <= hi <= s.len(),
            trim_start(s@.subrange(a as int, hi as int)) == trim_start(
                s@.subrange(lo as int, hi as int),
            ),
        decreases hi - a,
    {
        assert(s@.subrange(a as int, hi as int).drop_first() =~= s@.subrange(a + 1, hi as int));
        a = a + 1;
    }
    let ghost t = s@.subrange(a as int, hi as int);
    assert(trim_start(t) == t);
    let mut b: usize = hi;
    while b > a && is_ws_char(s[b - 1])
        invariant
            lo <= a <= b <= hi <= s.len(),
            trim_end(s@.subrange(a as int, b as int)) == trim_end(t),
        decreases b - a,
    {
        assert(s@.subrange(a as int, b as int).drop_last() =~= s@.subrange(a as int, b - 1));
        b = b - 1;
    }
    (a, b)
}


/// The decimal digit for `d`.
pub open spec fn digit_char(d: nat) -> char {
    if d == 0 {
        '0'
    } else if d == 1 {
        '1'
    } else if d == 2 {
        '2'
    } else if d == 3 {
        '3'
    } else if d == 4 {
        '4'
    } else if d == 5 {
        '5'
    } else if d == 6 {
        '6'
    } else if d == 7 {
        '7'
    } else if d == 8 {
        '8'
    } else {
        '9'
    }
}

/// The value of a decimal digit character.
pub open spec fn digit_value(c: char) -> nat {
    (c as u32 - '0' as u32) as nat
}

/// `c` is an ASCII decimal digit.
pub open spec fn is_digit(c: char) -> bool {
    '0' <= c && c <= '9'
}

/// The decimal representation of `n`, without leading zeros.
pub open spec fn decimal(n: nat) -> Seq<char>
    decreases n,
{
    if n < 10 {
        seq![digit_char(n)]
    } else {
        decimal(n / 10).push(digit_char(n % 10))
    }
}

/// Appends the decimal representation of `n`.
pub fn push_decimal(out: &mut Vec<char>, n: u64)
    ensures
        final(out)@ == old(out)@ + decimal(n as nat),
    decreases n,
{
    if n >= 10 {
        push_decimal(out, n / 10);
    }
    let d = n % 10;
    let c = if d == 0 {
        '0'
    } else if d == 1 {
        '1'
    } else if d == 2 {
        '2'
    } else if d == 3 {
        '3'
    } else if d == 4 {
        '4'
    } else if d == 5 {
        '5'
    } else if d == 6 {
        '6'
    } else if d == 7 {
        '7'
    } else if d == 8 {
        '8'
    } else {
        '9'
    };
    out.push(c);
    assert(final(out)@ =~= old(out)@ + decimal(n as nat));
}


/// The value of a sequence of decimal digits.
pub open spec fn digits_value(s: Seq<char>) -> nat
    decreases s.len(),
{
    if s.len() == 0 {
        0
    } else {
        digits_value(s.drop_last()) * 10 + digit_value(s.last())
    }
}

/// `s` without one leading `+`.
pub open spec fn unsigned_part(s: Seq<char>) -> Seq<char> {
    if s.len() > 0 && s[0] == '+' {
        s.drop_first()
    } else {
        s
    }
}

/// Every character of `d` is a decimal digit.
pub open spec fn all_digits(d: Seq<char>) -> bool {
    forall|i: int| 0 <= i < d.len() ==> is_digit(#[trigger] d[i])
}

/// What `str::parse::<u64>` accepts: an optional `+`, then one or more ASCII
/// digits whose value fits in 64 bits.
pub open spec fn parse_u64_spec(s: Seq<char>) -> Option<nat> {
    let d = unsigned_part(s);
    if d.len() > 0 && all_digits(d) && digits_value(d) <= u64::MAX {
        Some(digits_value(d))
    } else {
        None
    }
}

/// A prefix of a digit sequence is worth no more than the whole.
pub proof fn lemma_digits_prefix(s: Seq<char>, k: int)
    requires
        0 <= k <= s.len(),
    ensures
        digits_value(s.take(k)) <= digits_value(s),
    decreases s.len(),
{
    if k < s.len() {
        assert(s.drop_last().take(k) =~= s.take(k));
        lemma_digits_prefix(s.drop_last(), k);
    } else {
        assert(s.take(k) =~= s);
    }
}

/// Parses `s[a..b]` as `str::parse::<u64>` does.
pub fn parse_u64(s: &Vec<char>, a: usize, b: usize) -> (r: Option<u64>)
    requires
        a <= b <= s.len(),
    ensures
        match r {
            Some(v) => parse_u64_spec(s@.subrange(a as int, b as int)) == Some(v as nat),
            None => parse_u64_spec(s@.subrange(a as int, b as int)) is None,
        },
{
    let ghost t = s@.subrange(a as int, b as int);
    let mut i: usize = a;
    if i < b && s[i] == '+' {
        i = i + 1;
    }
    let ghost d = s@.subrange(i as int, b as int);
    assert(d =~= (if t.len() > 0 && t[0] == '+' { t.drop_first() } else { t }));
    if i == b {
        return None;
    }
    let mut v: u64 = 0;
    let mut j: usize = i;
    while j < b
        invariant
            a <= i <= j <= b <= s.len(),
            d == s@.subrange(i as int, b as int),
            t == s@.subrange(a as int, b as int),
            d == unsigned_part(t),
            d.len() > 0,
            forall|k: int| 0 <= k < j - i ==> is_digit(#[trigger] d[k]),
            v as nat == digits_value(d.take(j - i)),
        decreases b - j,
    {
        let c = s[j];
        if !('0' <= c && c <= '9') {
            assert(!is_digit(d[j - i]));
            return None;
        }
        let dv = (c as u32 - '0' as u32) as u64;
        assert(d.take(j - i + 1).drop_last() =~= d.take(j - i));
        if v > (u64::MAX - dv) / 10 {
            proof {
                assert(digits_value(d.take(j - i + 1)) > u64::MAX) by (nonlinear_arith)
                    requires
                        v > (u64::MAX - dv) / 10,
                        digits_value(d.take(j - i + 1)) == v * 10 + dv,
                        dv <= 9,
                ;
                lemma_digits_prefix(d, j - i + 1);
            }
            return None;
        }
        v = v * 10 + dv;
        j = j + 1;
    }
    assert(d.take(j - i) =~= d);
    Some(v)
}

/// Whether two character vectors are equal.
pub fn same_chars(a: &Vec<char>, b: &Vec<char>) -> (r: bool)
    ensures
        r == (a@ == b@),
{
    if a.len() != b.len() {
        return false;
    }
    let mut i: usize = 0;
    while i < a.len()
        invariant
            a.len() == b.len(),
            i <= a.len(),
            forall|k: int| 0 <= k < i ==> a@[k] == b@[k],
        decreases a.len() - i,
    {
        if a[i] != b[i] {
            return false;
        }
        i = i + 1;
    }
    assert(a@ =~= b@);
    true
}


/// Whether two strings hold the same characters.
pub fn str_eq(a: &str, b: &str) -> (r: bool)
    ensures
        r == (a@ == b@),
{
    same_chars(&chars_of(a), &chars_of(b))
}

} // verus!
