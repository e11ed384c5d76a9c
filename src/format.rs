//! The format tool: failure-reason extraction from the formatter's output,
//! per-file result assembly, and the shape of the reply.

use vstd::prelude::*;
use crate::text::{
    chars_of, occurs_at, find_chars, find_from, is_ws, is_ws_char, line_bounds, lines,
    push_decimal, decimal, string_of, sub_chars,
};
use vstd::string::StringExecFns;

verus! {

/// Reason reported when the formatter's output says nothing usable.
pub open spec fn unknown_reason() -> Seq<char> {
    "Unknown formatting error"@
}

/// White space collapsed: runs of white space between words become one
/// space, and none is kept at either end. `pending` says a space is owed
/// before the next word, `started` that a word has been seen.
pub open spec fn squeeze(s: Seq<char>, pending: bool, started: bool) -> Seq<char>
    decreases s.len(),
{
    if s.len() == 0 {
        Seq::empty()
    } else if is_ws(s[0]) {
        squeeze(s.drop_first(), started, started)
    } else {
        (if pending {
            seq![' ']
        } else {
            Seq::empty()
        }) + seq![s[0]] + squeeze(s.drop_first(), false, true)
    }
}

/// The words of `s` joined by single spaces.
pub open spec fn collapse(s: Seq<char>) -> Seq<char> {
    squeeze(s, false, false)
}

/// A failure reason as reported: collapsed, or the placeholder when empty.
pub open spec fn normalized(s: Seq<char>) -> Seq<char> {
    if collapse(s).len() == 0 {
        unknown_reason()
    } else {
        collapse(s)
    }
}

/// Every white-space character of `t` is a single space between two other
/// characters (at the very start only when `lead` allows it).
pub open spec fn collapsed_from(t: Seq<char>, lead: bool) -> bool {
    forall|i: int|
        0 <= i < t.len() && is_ws(#[trigger] t[i]) ==> t[i] == ' ' && i + 1 < t.len() && !is_ws(
            t[i + 1],
        ) && (i > 0 ==> !is_ws(t[i - 1])) && (i == 0 ==> lead)
}

proof fn lemma_squeeze_collapsed(s: Seq<char>, pending: bool, started: bool)
    requires
        pending ==> started,
    ensures
        collapsed_from(squeeze(s, pending, started), started),
    decreases s.len(),
{
    if s.len() == 0 {
    } else if is_ws(s[0]) {
        lemma_squeeze_collapsed(s.drop_first(), started, started);
    } else {
        let rest = squeeze(s.drop_first(), false, true);
        lemma_squeeze_collapsed(s.drop_first(), false, true);
        let pre: Seq<char> = if pending {
            seq![' ']
        } else {
            Seq::empty()
        };
        let r = pre + seq![s[0]] + rest;
        let n = pre.len() + 1;
        assert forall|i: int| 0 <= i < r.len() && is_ws(#[trigger] r[i]) implies r[i] == ' ' && i
            + 1 < r.len() && !is_ws(r[i + 1]) && (i > 0 ==> !is_ws(r[i - 1])) && (i == 0
            ==> started) by {
            if i >= n {
                assert(r[i] == rest[i - n]);
                assert(is_ws(rest[i - n]));
                assert(r[i + 1] == rest[i - n + 1]);
                if i > n {
                    assert(r[i - 1] == rest[i - n - 1]);
                }
            }
        }
    }
}

proof fn lemma_squeeze_fixed(t: Seq<char>, started: bool)
    requires
        collapsed_from(t, started),
    ensures
        squeeze(t, false, started) == t,
    decreases t.len(),
{
    if t.len() == 0 {
        assert(t =~= Seq::<char>::empty());
    } else if is_ws(t[0]) {
        let t1 = t.drop_first();
        let t2 = t1.drop_first();
        assert(started);
        assert(!is_ws(t1[0]));
        assert(squeeze(t, false, started) == squeeze(t1, true, true));
        assert(squeeze(t1, true, true) == seq![' '] + seq![t1[0]] + squeeze(t2, false, true));
        assert forall|i: int| 0 <= i < t2.len() && is_ws(#[trigger] t2[i]) implies t2[i] == ' '
            && i + 1 < t2.len() && !is_ws(t2[i + 1]) && (i > 0 ==> !is_ws(t2[i - 1])) && (i == 0
            ==> true) by {
            assert(t2[i] == t[i + 2]);
            assert(is_ws(t[i + 2]));
        }
        lemma_squeeze_fixed(t2, true);
        assert(t[0] == ' ');
        assert(t =~= seq![' '] + seq![t1[0]] + t2);
    } else {
        let t1 = t.drop_first();
        assert forall|i: int| 0 <= i < t1.len() && is_ws(#[trigger] t1[i]) implies t1[i] == ' '
            && i + 1 < t1.len() && !is_ws(t1[i + 1]) && (i > 0 ==> !is_ws(t1[i - 1])) && (i == 0
            ==> true) by {
            assert(t1[i] == t[i + 1]);
            assert(is_ws(t[i + 1]));
        }
        lemma_squeeze_fixed(t1, true);
        assert(t =~= Seq::<char>::empty() + seq![t[0]] + t1);
    }
}

proof fn lemma_squeeze_blank(s: Seq<char>)
    requires
        forall|i: int| 0 <= i < s.len() ==> is_ws(#[trigger] s[i]),
    ensures
        squeeze(s, false, false).len() == 0,
    decreases s.len(),
{
    if s.len() > 0 {
        assert(is_ws(s[0]));
        assert forall|i: int| 0 <= i < s.drop_first().len() implies is_ws(
            #[trigger] s.drop_first()[i],
        ) by {
            assert(is_ws(s[i + 1]));
        }
        lemma_squeeze_blank(s.drop_first());
    }
}

/// Normalizing a reason twice gives what normalizing it once gave, and a
/// reason made only of white space normalizes to the placeholder.
pub proof fn normalize_is_idempotent(s: Seq<char>)
    ensures
        normalized(normalized(s)) == normalized(s),
        (forall|i: int| 0 <= i < s.len() ==> is_ws(#[trigger] s[i])) ==> normalized(s)
            == unknown_reason(),
{
    let c = collapse(s);
    lemma_squeeze_collapsed(s, false, false);
    lemma_squeeze_fixed(c, false);
    let u = unknown_reason();
    reveal_strlit("Unknown formatting error");
    assert(collapsed_from(u, false));
    lemma_squeeze_fixed(u, false);
    if forall|i: int| 0 <= i < s.len() ==> is_ws(#[trigger] s[i]) {
        lemma_squeeze_blank(s);
    }
}


/// The words of `s` joined by single spaces.
pub fn collapse_chars(s: &Vec<char>) -> (r: Vec<char>)
    ensures
        r@ == collapse(s@),
{
    let mut out: Vec<char> = Vec::new();
    let mut pending = false;
    let mut started = false;
    let mut i: usize = 0;
    assert(s@.skip(0) =~= s@);
    assert(out@ + collapse(s@) =~= collapse(s@));
    while i < s.len()
        invariant
            i <= s.len(),
            pending ==> started,
            out@ + squeeze(s@.skip(i as int), pending, started) == collapse(s@),
        decreases s.len() - i,
    {
        let c = s[i];
        let ghost before = out@;
        assert(s@.skip(i as int).drop_first() =~= s@.skip(i + 1));
        if is_ws_char(c) {
            pending = started;
        } else {
            if pending {
                out.push(' ');
            }
            out.push(c);
            let ghost pre: Seq<char> = if pending {
                seq![' ']
            } else {
                Seq::empty()
            };
            assert(out@ =~= before + pre + seq![c]);
            assert(before + (pre + seq![c] + squeeze(s@.skip(i + 1), false, true)) =~= out@
                + squeeze(s@.skip(i + 1), false, true));
            pending = false;
            started = true;
        }
        i = i + 1;
    }
    assert(s@.skip(i as int) =~= Seq::<char>::empty());
    assert(out@ =~= collapse(s@));
    out
}

/// Collapses white space in `s` and substitutes the placeholder for an empty
/// result.
pub fn normalize_chars(s: &Vec<char>) -> (r: Vec<char>)
    ensures
        r@ == normalized(s@),
{
    let out = collapse_chars(s);
    if out.len() == 0 {
        chars_of("Unknown formatting error")
    } else {
        out
    }
}

/// Collapses runs of white space to single spaces, trims, and substitutes a
/// placeholder for an empty result.
pub fn normalize_reason(text: &str) -> (r: String)
    ensures
        r@ == normalized(text@),
{
    let cs = chars_of(text);
    let n = normalize_chars(&cs);
    string_of(&n)
}

/// `q` without trailing double quotes.
pub open spec fn trim_end_quotes(q: Seq<char>) -> Seq<char>
    decreases q.len(),
{
    if q.len() > 0 && q.last() == '"' {
        trim_end_quotes(q.drop_last())
    } else {
        q
    }
}

/// `q` without leading double quotes.
pub open spec fn trim_start_quotes(q: Seq<char>) -> Seq<char>
    decreases q.len(),
{
    if q.len() > 0 && q[0] == '"' {
        trim_start_quotes(q.drop_first())
    } else {
        q
    }
}

/// Marker of a quoted error message in the formatter's error output.
pub open spec fn quoted_marker() -> Seq<char> {
    "Error: \""@
}

/// Marker of a per-file formatting failure.
pub open spec fn failed_marker() -> Seq<char> {
    "Failed to format file "@
}

/// The reason carried by a line with a quoted error: the quoted text with
/// its closing quotes removed, and of that the part after the first `": "`
/// when there is one.
pub open spec fn quoted_reason(line: Seq<char>) -> Option<Seq<char>> {
    match find_from(line, quoted_marker(), 0) {
        Some(k) => {
            let q = trim_end_quotes(line.skip(k + quoted_marker().len()));
            match find_from(q, ": "@, 0) {
                Some(m) => Some(q.skip(m + 2)),
                None => Some(q),
            }
        },
        None => None,
    }
}

/// The reason carried by a "failed to format file" line: what follows the
/// first colon after the marker, without surrounding double quotes.
pub open spec fn failed_file_reason(line: Seq<char>) -> Option<Seq<char>> {
    match find_from(line, failed_marker(), 0) {
        Some(k) => {
            let rest = line.skip(k + failed_marker().len());
            match find_from(rest, seq![':'], 0) {
                Some(m) => Some(trim_end_quotes(trim_start_quotes(rest.skip(m + 1)))),
                None => None,
            }
        },
        None => None,
    }
}

/// The first reason, among `ls`, that `quoted` (or else the failed-file
/// rule) finds.
pub open spec fn first_reason(ls: Seq<Seq<char>>, quoted: bool) -> Option<Seq<char>>
    decreases ls.len(),
{
    if ls.len() == 0 {
        None
    } else {
        let here = if quoted {
            quoted_reason(ls[0])
        } else {
            failed_file_reason(ls[0])
        };
        match here {
            Some(r) => Some(r),
            None => first_reason(ls.drop_first(), quoted),
        }
    }
}

/// The reason reported for a file that the formatter failed on, from its
/// captured output: a quoted error, else a failed-file line, else all of the
/// error output when it has visible text, else the standard output;
/// normalized in every case.
pub open spec fn failure_reason(stdout: Seq<char>, stderr: Seq<char>) -> Seq<char> {
    match first_reason(lines(stderr), true) {
        Some(r) => normalized(r),
        None => match first_reason(lines(stderr), false) {
            Some(r) => normalized(r),
            None => if collapse(stderr).len() > 0 {
                normalized(stderr)
            } else {
                normalized(stdout)
            },
        },
    }
}

/// An optional character vector as a sequence.
pub open spec fn opt_view(r: Option<Vec<char>>) -> Option<Seq<char>> {
    match r {
        Some(v) => Some(v@),
        None => None,
    }
}

fn trim_end_quotes_at(s: &Vec<char>, lo: usize, hi: usize) -> (r: usize)
    requires
        lo <= hi <= s.len(),
    ensures
        lo <= r <= hi,
        s@.subrange(lo as int, r as int) == trim_end_quotes(s@.subrange(lo as int, hi as int)),
{
    let mut b: usize = hi;
    while b > lo && s[b - 1] == '"'
        invariant
            lo <= b <= hi <= s.len(),
            trim_end_quotes(s@.subrange(lo as int, b as int)) == trim_end_quotes(
                s@.subrange(lo as int, hi as int),
            ),
        decreases b - lo,
    {
        assert(s@.subrange(lo as int, b as int).drop_last() =~= s@.subrange(lo as int, b - 1));
        b = b - 1;
    }
    b
}

fn trim_start_quotes_at(s: &Vec<char>, lo: usize, hi: usize) -> (r: usize)
    requires
        lo <= hi <= s.len(),
    ensures
        lo <= r <= hi,
        s@.subrange(r as int, hi as int) == trim_start_quotes(s@.subrange(lo as int, hi as int)),
{
    let mut a: usize = lo;
    while a < hi && s[a] == '"'
        invariant
            lo <= a <= hi <= s.len(),
            trim_start_quotes(s@.subrange(a as int, hi as int)) == trim_start_quotes(
                s@.subrange(lo as int, hi as int),
            ),
        decreases hi - a,
    {
        assert(s@.subrange(a as int, hi as int).drop_first() =~= s@.subrange(a + 1, hi as int));
        a = a + 1;
    }
    a
}

fn quoted_reason_of(line: &Vec<char>) -> (r: Option<Vec<char>>)
    ensures
        opt_view(r) == quoted_reason(line@),
{
    let marker = chars_of("Error: \"");
    match find_chars(line, &marker, 0) {
        None => None,
        Some(k) => {
            proof {
                crate::text::lemma_find_from_range(line@, marker@, 0);
                assert(occurs_at(line@, marker@, k as int));
            }
            let total = line.len();
            assert(k + marker.len() <= total);
            let start = k + marker.len();
            let stop = trim_end_quotes_at(line, start, line.len());
            assert(line@.skip(start as int) =~= line@.subrange(start as int, line.len() as int));
            let q = sub_chars(line, start, stop);
            let sep = chars_of(": ");
            proof {
                reveal_strlit(": ");
            }
            match find_chars(&q, &sep, 0) {
                Some(m) => {
                    proof {
                        crate::text::lemma_find_from_range(q@, sep@, 0);
                        assert(occurs_at(q@, sep@, m as int));
                    }
                    let qn = q.len();
                    assert(m + 2 <= qn);
                    assert(q@.skip(m + 2) =~= q@.subrange(m + 2, q.len() as int));
                    Some(sub_chars(&q, m + 2, q.len()))
                },
                None => Some(q),
            }
        },
    }
}

fn failed_file_reason_of(line: &Vec<char>) -> (r: Option<Vec<char>>)
    ensures
        opt_view(r) == failed_file_reason(line@),
{
    let marker = chars_of("Failed to format file ");
    match find_chars(line, &marker, 0) {
        None => None,
        Some(k) => {
            proof {
                crate::text::lemma_find_from_range(line@, marker@, 0);
                assert(occurs_at(line@, marker@, k as int));
            }
            let total = line.len();
            assert(k + marker.len() <= total);
            let start = k + marker.len();
            let rest = sub_chars(line, start, line.len());
            assert(line@.skip(start as int) =~= rest@);
            let colon: Vec<char> = vec![':'];
            assert(colon@ =~= seq![':']);
            match find_chars(&rest, &colon, 0) {
                Some(m) => {
                    proof {
                        crate::text::lemma_find_from_range(rest@, colon@, 0);
                        assert(occurs_at(rest@, colon@, m as int));
                    }
                    let a = trim_start_quotes_at(&rest, m + 1, rest.len());
                    assert(rest@.skip(m + 1) =~= rest@.subrange(m + 1, rest.len() as int));
                    let b = trim_end_quotes_at(&rest, a, rest.len());
                    Some(sub_chars(&rest, a, b))
                },
                None => None,
            }
        },
    }
}

fn first_reason_of(s: &Vec<char>, quoted: bool) -> (r: Option<Vec<char>>)
    ensures
        opt_view(r) == first_reason(lines(s@), quoted),
{
    let mut i: usize = 0;
    assert(s@.skip(0) =~= s@);
    while i < s.len()
        invariant
            i <= s.len(),
            first_reason(lines(s@.skip(i as int)), quoted) == first_reason(lines(s@), quoted),
        decreases s.len() - i,
    {
        let (stop, next) = line_bounds(s, i);
        let line = sub_chars(s, i, stop);
        let ghost ls = lines(s@.skip(i as int));
        assert(ls.drop_first() =~= lines(s@.skip(next as int)));
        let found = if quoted {
            quoted_reason_of(&line)
        } else {
            failed_file_reason_of(&line)
        };
        if found.is_some() {
            return found;
        }
        i = next;
    }
    assert(s@.skip(i as int) =~= Seq::<char>::empty());
    None
}

/// The reason to report for a file the formatter failed on, from the
/// standard output and error output it produced for that file.
pub fn extract_format_failure_reason(stdout: &str, stderr: &str) -> (r: String)
    ensures
        r@ == failure_reason(stdout@, stderr@),
{
    let err = chars_of(stderr);
    if let Some(q) = first_reason_of(&err, true) {
        return string_of(&normalize_chars(&q));
    }
    if let Some(f) = first_reason_of(&err, false) {
        return string_of(&normalize_chars(&f));
    }
    let whole = collapse_chars(&err);
    if whole.len() > 0 {
        return string_of(&whole);
    }
    let out = chars_of(stdout);
    string_of(&normalize_chars(&out))
}

/// Most failures listed in a reply; the count itself is never capped.
pub const MAX_FAILURES_RETURNED: usize = 20;

/// One file that the formatter failed on, and why.
#[derive(Debug)]
pub struct FormatFailure {
    pub file: String,
    pub reason: String,
}

impl FormatFailure {
    /// A field-by-field copy.
    pub fn copy(&self) -> (r: FormatFailure)
        ensures
            r == *self,
    {
        FormatFailure { file: self.file.clone(), reason: self.reason.clone() }
    }
}

/// Outcome of one format call over a set of files.
#[derive(Debug)]
pub struct FormatToolResult {
    pub success: bool,
    pub processed_count: usize,
    pub failures: Vec<FormatFailure>,
}

/// The one-line summary of a format call.
pub open spec fn format_summary(success: bool, failed: nat) -> Seq<char> {
    if success {
        "Format ok."@
    } else {
        "Format failed. failed_count="@ + decimal(failed) + "."@
    }
}

/// One-line summary: "ok", or "failed" with the number of failures.
pub fn render_format_summary(result: &FormatToolResult) -> (r: String)
    ensures
        r@ == format_summary(result.success, result.failures.len() as nat),
{
    if result.success {
        String::from_str("Format ok.")
    } else {
        let mut out = chars_of("Format failed. failed_count=");
        push_decimal(&mut out, result.failures.len() as u64);
        let tail = chars_of(".");
        let ghost before = out@;
        let mut i: usize = 0;
        while i < tail.len()
            invariant
                i <= tail.len(),
                out@ == before + tail@.take(i as int),
            decreases tail.len() - i,
        {
            out.push(tail[i]);
            i = i + 1;
            assert(out@ =~= before + tail@.take(i as int));
        }
        assert(tail@.take(i as int) =~= tail@);
        string_of(&out)
    }
}

/// The structured part of a format reply. On success only `ok` and
/// `processed_count` are meant; on failure the list is capped while
/// `failed_count` is not.
#[derive(Debug)]
pub struct FormatReport {
    pub ok: bool,
    pub processed_count: usize,
    pub failed_count: usize,
    pub failures_truncated: bool,
    pub failures: Vec<FormatFailure>,
}

/// The structured reply for a format call: the failure list cut to at most
/// `MAX_FAILURES_RETURNED` entries, with the full count and a flag that says
/// whether entries were left out.
pub fn format_structured_content(result: &FormatToolResult) -> (r: FormatReport)
    ensures
        r.ok == result.success,
        r.processed_count == result.processed_count,
        r.failed_count == result.failures.len(),
        r.failures_truncated == (result.failures.len() > MAX_FAILURES_RETURNED),
        r.failures@ == result.failures@.take(
            if result.failures.len() > MAX_FAILURES_RETURNED {
                MAX_FAILURES_RETURNED as int
            } else {
                result.failures.len() as int
            },
        ),
{
    let n = if result.failures.len() > MAX_FAILURES_RETURNED {
        MAX_FAILURES_RETURNED
    } else {
        result.failures.len()
    };
    let mut kept: Vec<FormatFailure> = Vec::new();
    let mut i: usize = 0;
    while i < n
        invariant
            n <= result.failures.len(),
            i <= n,
            kept@ == result.failures@.take(i as int),
        decreases n - i,
    {
        kept.push(result.failures[i].copy());
        i = i + 1;
        assert(kept@ =~= result.failures@.take(i as int));
    }
    FormatReport {
        ok: result.success,
        processed_count: result.processed_count,
        failed_count: result.failures.len(),
        failures_truncated: result.failures.len() > MAX_FAILURES_RETURNED,
        failures: kept,
    }
}

/// What running the formatter on one file gave.
#[derive(Debug)]
pub enum FileRun {
    /// The process ran and exited.
    Exited { success: bool, stdout: String, stderr: String },
    /// The process could not be started.
    SpawnFailed { message: String },
}

/// The failure entry, if any, for one file and its run.
pub open spec fn failure_entry(file: Seq<char>, run: FileRun) -> Seq<(Seq<char>, Seq<char>)> {
    match run {
        FileRun::Exited { success, stdout, stderr } => if success {
            seq![]
        } else {
            seq![(file, failure_reason(stdout@, stderr@))]
        },
        FileRun::SpawnFailed { message } => seq![
            (file, normalized("Failed to execute formatter: "@ + message@)),
        ],
    }
}

/// The failure entries of the first `n` files, in file order.
pub open spec fn failures_upto(files: Seq<String>, runs: Seq<FileRun>, n: int) -> Seq<
    (Seq<char>, Seq<char>),
>
    decreases n,
{
    if n <= 0 {
        seq![]
    } else {
        failures_upto(files, runs, n - 1) + failure_entry(files[n - 1]@, runs[n - 1])
    }
}

/// Failures as (file, reason) pairs.
pub open spec fn failure_views(fs: Seq<FormatFailure>) -> Seq<(Seq<char>, Seq<char>)> {
    fs.map_values(|f: FormatFailure| (f.file@, f.reason@))
}

/// Joins two strings.
fn joined(a: &str, b: &str) -> (r: String)
    ensures
        r@ == a@ + b@,
{
    let s = String::from_str(a);
    s.concat(b)
}

/// The result of a format call from the runs of each file, in file order:
/// every file counts as processed, each failed run adds one entry, and the
/// call succeeds exactly when no entry was added.
pub fn collect_format_result(files: &Vec<String>, runs: &Vec<FileRun>) -> (r: FormatToolResult)
    requires
        files.len() == runs.len(),
    ensures
        r.processed_count == files.len(),
        r.success == (r.failures.len() == 0),
        failure_views(r.failures@) == failures_upto(files@, runs@, files.len() as int),
{
    let mut failures: Vec<FormatFailure> = Vec::new();
    let mut i: usize = 0;
    while i < files.len()
        invariant
            files.len() == runs.len(),
            i <= files.len(),
            failure_views(failures@) == failures_upto(files@, runs@, i as int),
        decreases files.len() - i,
    {
        let ghost before = failures@;
        match &runs[i] {
            FileRun::Exited { success, stdout, stderr } => {
                if !*success {
                    let reason = extract_format_failure_reason(stdout.as_str(), stderr.as_str());
                    failures.push(FormatFailure { file: files[i].clone(), reason });
                }
            },
            FileRun::SpawnFailed { message } => {
                let text = joined("Failed to execute formatter: ", message.as_str());
                let reason = normalize_reason(text.as_str());
                failures.push(FormatFailure { file: files[i].clone(), reason });
            },
        }
        assert(failure_views(failures@) =~= failure_views(before) + failure_entry(
            files@[i as int]@,
            runs@[i as int],
        ));
        i = i + 1;
    }
    let success = failures.len() == 0;
    FormatToolResult { success, processed_count: files.len(), failures }
}


/// Options of a format call.
#[derive(Debug)]
pub struct FormatOptions {
    pub check: bool,
    pub stdout: bool,
    pub use_spaces: bool,
    pub indent_size: Option<i64>,
    pub reorder_code: bool,
    pub safe: bool,
}

/// Checks the options: an indent size, when given, is at least 1.
pub fn validate_format_options(options: &FormatOptions) -> (r: Result<(), String>)
    ensures
        r is Err <==> (options.indent_size is Some && options.indent_size->0 < 1),
        r matches Err(e) ==> e@ == "`indent_size` must be at least 1"@,
{
    match options.indent_size {
        Some(n) => if n < 1 {
            Err(String::from_str("`indent_size` must be at least 1"))
        } else {
            Ok(())
        },
        None => Ok(()),
    }
}

/// A flag when it is set, nothing otherwise.
pub open spec fn flag(on: bool, name: Seq<char>) -> Seq<Seq<char>> {
    if on {
        seq![name]
    } else {
        seq![]
    }
}

/// The formatter's arguments for one file: each set boolean as its flag, the
/// indent size as a flag and a value, then the file.
pub open spec fn format_args(o: FormatOptions, file: Seq<char>) -> Seq<Seq<char>> {
    flag(o.check, "--check"@) + flag(o.stdout, "--stdout"@) + flag(o.use_spaces, "--use-spaces"@)
        + (match o.indent_size {
        Some(n) => seq!["--indent-size"@, decimal(n as nat)],
        None => seq![],
    }) + flag(o.reorder_code, "--reorder-code"@) + flag(o.safe, "--safe"@) + seq![file]
}

/// The views of a vector of strings.
pub open spec fn string_views(v: Seq<String>) -> Seq<Seq<char>> {
    v.map_values(|s: String| s@)
}

fn push_flag(args: &mut Vec<String>, on: bool, name: &str)
    ensures
        string_views(final(args)@) == string_views(old(args)@) + flag(on, name@),
{
    if on {
        args.push(String::from_str(name));
    }
    assert(string_views(final(args)@) =~= string_views(old(args)@) + flag(on, name@));
}

/// The formatter's arguments for one file.
pub fn format_command_args(options: &FormatOptions, file: &String) -> (r: Vec<String>)
    requires
        options.indent_size is Some ==> options.indent_size->0 >= 1,
    ensures
        string_views(r@) == format_args(*options, file@),
{
    let mut args: Vec<String> = Vec::new();
    assert(string_views(args@) =~= seq![]);
    push_flag(&mut args, options.check, "--check");
    push_flag(&mut args, options.stdout, "--stdout");
    push_flag(&mut args, options.use_spaces, "--use-spaces");
    let ghost mid = string_views(args@);
    match options.indent_size {
        Some(n) => {
            args.push(String::from_str("--indent-size"));
            let mut digits: Vec<char> = Vec::new();
            push_decimal(&mut digits, n as u64);
            assert(digits@ =~= decimal(n as nat));
            args.push(string_of(&digits));
        },
        None => {},
    }
    assert(string_views(args@) =~= mid + match options.indent_size {
        Some(n) => seq!["--indent-size"@, decimal(n as nat)],
        None => seq![],
    });
    push_flag(&mut args, options.reorder_code, "--reorder-code");
    push_flag(&mut args, options.safe, "--safe");
    let ghost last = string_views(args@);
    args.push(file.clone());
    assert(string_views(args@) =~= last + seq![file@]);
    args
}

} // verus!
