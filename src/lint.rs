//! The lint tool: the diagnostic grammar of the linter's output, severity
//! counts, the diagnostic cap, and the shape of a lint call.

use vstd::prelude::*;
use crate::text::{
    chars_of, decimal, find_chars, find_from, last_index_of, line_bounds, lines, occurs_at,
    parse_u64, parse_u64_spec, push_decimal, rfind_char, string_of, sub_chars, trim,
    trim_bounds,
};
use crate::format::{string_views, flag};
use vstd::string::StringExecFns;

verus! {

/// Diagnostics returned when a call does not say how many.
pub const DEFAULT_MAX_DIAGNOSTICS: usize = 500;

/// One finding of the linter. It never reports a column.
#[derive(Debug)]
pub struct LintDiagnostic {
    pub file: String,
    pub line: u64,
    pub rule: String,
    pub severity: String,
    pub message: String,
}

impl LintDiagnostic {
    /// A field-by-field copy.
    pub fn copy(&self) -> (r: LintDiagnostic)
        ensures
            r == *self,
    {
        LintDiagnostic {
            file: self.file.clone(),
            line: self.line,
            rule: self.rule.clone(),
            severity: self.severity.clone(),
            message: self.message.clone(),
        }
    }
}

/// A diagnostic as values: file, line, rule, severity, message.
pub type DiagView = (Seq<char>, nat, Seq<char>, Seq<char>, Seq<char>);

/// The view of a diagnostic.
pub open spec fn diag_view(d: LintDiagnostic) -> DiagView {
    (d.file@, d.line as nat, d.rule@, d.severity@, d.message@)
}

/// The views of a list of diagnostics.
pub open spec fn diag_views(ds: Seq<LintDiagnostic>) -> Seq<DiagView> {
    ds.map_values(|d: LintDiagnostic| diag_view(d))
}

/// The diagnostic on one output line, if the line has the shape
/// `path:line:rule:severity: message` (the line trimmed first; the path may
/// itself hold colons).
pub open spec fn diag_of_line(raw: Seq<char>) -> Option<DiagView> {
    let t = trim(raw);
    match find_from(t, ": "@, 0) {
        None => None,
        Some(k) => {
            let header = t.take(k);
            let message = t.skip(k + 2);
            let k1 = last_index_of(header, ':');
            let h1 = header.take(k1);
            let k2 = last_index_of(h1, ':');
            let h2 = h1.take(k2);
            let k3 = last_index_of(h2, ':');
            if t.len() == 0 || k1 < 0 || k2 < 0 || k3 < 0 {
                None
            } else {
                match parse_u64_spec(h2.skip(k3 + 1)) {
                    Some(n) => Some((h2.take(k3), n, h1.skip(k2 + 1), header.skip(k1 + 1), message)),
                    None => None,
                }
            }
        },
    }
}

/// The diagnostics on a list of lines, in order; other lines are skipped.
pub open spec fn diags_of(ls: Seq<Seq<char>>) -> Seq<DiagView>
    decreases ls.len(),
{
    if ls.len() == 0 {
        seq![]
    } else {
        (match diag_of_line(ls[0]) {
            Some(d) => seq![d],
            None => seq![],
        }) + diags_of(ls.drop_first())
    }
}

proof fn lemma_last_index_bound(h: Seq<char>, c: char)
    ensures
        -1 <= last_index_of(h, c) < h.len(),
        last_index_of(h, c) >= 0 ==> h[last_index_of(h, c)] == c,
    decreases h.len(),
{
    if h.len() > 0 && h.last() != c {
        lemma_last_index_bound(h.drop_last(), c);
    }
}

fn diag_of_line_exec(line: &Vec<char>) -> (r: Option<LintDiagnostic>)
    ensures
        match r {
            Some(d) => diag_of_line(line@) == Some(diag_view(d)),
            None => diag_of_line(line@) is None,
        },
{
    let (a, b) = trim_bounds(line, 0, line.len());
    assert(line@.subrange(0, line.len() as int) =~= line@);
    let t = sub_chars(line, a, b);
    let sep = chars_of(": ");
    proof {
        reveal_strlit(": ");
    }
    let k = match find_chars(&t, &sep, 0) {
        None => return None,
        Some(k) => k,
    };
    proof {
        crate::text::lemma_find_from_range(t@, sep@, 0);
        assert(occurs_at(t@, sep@, k as int));
    }
    let tn = t.len();
    assert(k + 2 <= tn);
    if t.len() == 0 {
        return None;
    }
    assert(t@.subrange(0, k as int) =~= t@.take(k as int));
    let k1 = match rfind_char(&t, 0, k, ':') {
        None => return None,
        Some(x) => x,
    };
    proof {
        assert(t@.subrange(0, k as int) =~= t@.take(k as int));
        lemma_last_index_bound(t@.take(k as int), ':');
    }
    assert(t@.subrange(0, k1 as int) =~= t@.take(k as int).take(k1 as int));
    let k2 = match rfind_char(&t, 0, k1, ':') {
        None => return None,
        Some(x) => x,
    };
    proof {
        assert(t@.subrange(0, k1 as int) =~= t@.take(k as int).take(k1 as int));
        lemma_last_index_bound(t@.take(k1 as int), ':');
    }
    assert(t@.subrange(0, k2 as int) =~= t@.take(k as int).take(k1 as int).take(k2 as int));
    let k3 = match rfind_char(&t, 0, k2, ':') {
        None => return None,
        Some(x) => x,
    };
    proof {
        assert(t@.subrange(0, k2 as int) =~= t@.take(k as int).take(k1 as int).take(k2 as int));
        lemma_last_index_bound(t@.take(k2 as int), ':');
    }
    let n = match parse_u64(&t, k3 + 1, k2) {
        None => {
            assert(t@.subrange(k3 + 1, k2 as int) =~= t@.take(k as int).take(k1 as int).take(
                k2 as int,
            ).skip(k3 + 1));
            return None;
        },
        Some(n) => n,
    };
    assert(t@.subrange(k3 + 1, k2 as int) =~= t@.take(k as int).take(k1 as int).take(
        k2 as int,
    ).skip(k3 + 1));
    let file = sub_chars(&t, 0, k3);
    let rule = sub_chars(&t, k2 + 1, k1);
    let severity = sub_chars(&t, k1 + 1, k);
    let message = sub_chars(&t, k + 2, t.len());
    let ghost h = t@.take(k as int);
    assert(file@ =~= h.take(k1 as int).take(k2 as int).take(k3 as int));
    assert(rule@ =~= h.take(k1 as int).skip(k2 + 1));
    assert(severity@ =~= h.skip(k1 + 1));
    assert(message@ =~= t@.skip(k + 2));
    Some(
        LintDiagnostic {
            file: string_of(&file),
            line: n,
            rule: string_of(&rule),
            severity: string_of(&severity),
            message: string_of(&message),
        },
    )
}

/// The diagnostics in the linter's standard output, one per line of the
/// expected shape, in order; other lines are skipped.
pub fn parse_lint_diagnostics(stdout: &str) -> (r: Vec<LintDiagnostic>)
    ensures
        diag_views(r@) == diags_of(lines(stdout@)),
{
    let s = chars_of(stdout);
    let mut out: Vec<LintDiagnostic> = Vec::new();
    let mut i: usize = 0;
    assert(s@.skip(0) =~= s@);
    assert(diag_views(out@) + diags_of(lines(s@)) =~= diags_of(lines(s@)));
    while i < s.len()
        invariant
            i <= s.len(),
            s@ == stdout@,
            diag_views(out@) + diags_of(lines(s@.skip(i as int))) == diags_of(lines(s@)),
        decreases s.len() - i,
    {
        let (stop, next) = line_bounds(&s, i);
        let line = sub_chars(&s, i, stop);
        let ghost ls = lines(s@.skip(i as int));
        let ghost before = out@;
        assert(ls.drop_first() =~= lines(s@.skip(next as int)));
        assert(ls[0] == line@);
        match diag_of_line_exec(&line) {
            Some(d) => {
                out.push(d);
            },
            None => {},
        }
        assert(diag_views(out@) + diags_of(lines(s@.skip(next as int))) =~= diag_views(before)
            + diags_of(ls));
        i = next;
    }
    assert(s@.skip(i as int) =~= Seq::<char>::empty());
    assert(diag_views(out@) =~= diag_views(out@) + diags_of(lines(s@.skip(i as int))));
    out
}


/// At most `max_diagnostics` of the diagnostics, from the front, and whether
/// any were left out.
pub fn project_lint_diagnostics(diagnostics: &Vec<LintDiagnostic>, max_diagnostics: usize) -> (r:
    (Vec<LintDiagnostic>, bool))
    ensures
        r.0@ == diagnostics@.take(
            if diagnostics.len() > max_diagnostics {
                max_diagnostics as int
            } else {
                diagnostics.len() as int
            },
        ),
        r.1 == (diagnostics.len() > max_diagnostics),
{
    let n = if diagnostics.len() > max_diagnostics {
        max_diagnostics
    } else {
        diagnostics.len()
    };
    let mut kept: Vec<LintDiagnostic> = Vec::new();
    let mut i: usize = 0;
    while i < n
        invariant
            n <= diagnostics.len(),
            i <= n,
            kept@ == diagnostics@.take(i as int),
        decreases n - i,
    {
        kept.push(diagnostics[i].copy());
        i = i + 1;
        assert(kept@ =~= diagnostics@.take(i as int));
    }
    let truncated = diagnostics.len() > kept.len();
    (kept, truncated)
}

/// Capping a list of `L` diagnostics at `M` returns `min(L, M)` of them, the
/// first ones, and flags truncation exactly when `L > M`.
pub proof fn diagnostic_cap_law(diagnostics: Seq<LintDiagnostic>, max_diagnostics: usize, kept: Seq<
    LintDiagnostic,
>, truncated: bool)
    requires
        kept == diagnostics.take(
            if diagnostics.len() > max_diagnostics {
                max_diagnostics as int
            } else {
                diagnostics.len() as int
            },
        ),
        truncated == (diagnostics.len() > max_diagnostics),
    ensures
        kept.len() == if diagnostics.len() < max_diagnostics {
            diagnostics.len()
        } else {
            max_diagnostics as nat
        },
        truncated <==> diagnostics.len() > max_diagnostics,
        forall|i: int| 0 <= i < kept.len() ==> kept[i] == diagnostics[i],
{
}

/// Number of diagnostics whose severity is `severity`.
pub open spec fn severity_count(ds: Seq<LintDiagnostic>, severity: Seq<char>) -> nat
    decreases ds.len(),
{
    if ds.len() == 0 {
        0
    } else {
        severity_count(ds.drop_last(), severity) + (if ds.last().severity@ == severity {
            1nat
        } else {
            0
        })
    }
}

/// Counts the diagnostics of one severity.
pub fn count_severity(diagnostics: &Vec<LintDiagnostic>, severity: &str) -> (r: usize)
    ensures
        r == severity_count(diagnostics@, severity@),
{
    let wanted = String::from_str(severity);
    let mut count: usize = 0;
    let mut i: usize = 0;
    while i < diagnostics.len()
        invariant
            i <= diagnostics.len(),
            wanted@ == severity@,
            count == severity_count(diagnostics@.take(i as int), severity@),
            count <= i,
        decreases diagnostics.len() - i,
    {
        assert(diagnostics@.take(i + 1).drop_last() =~= diagnostics@.take(i as int));
        if diagnostics[i].severity == wanted {
            count = count + 1;
        }
        i = i + 1;
    }
    assert(diagnostics@.take(i as int) =~= diagnostics@);
    count
}

/// When every diagnostic is a warning, the warning count is the number of
/// diagnostics and the error count is zero.
pub proof fn warnings_only_counts(ds: Seq<LintDiagnostic>)
    requires
        forall|i: int| 0 <= i < ds.len() ==> (#[trigger] ds[i]).severity@ == "warning"@,
    ensures
        severity_count(ds, "warning"@) == ds.len(),
        severity_count(ds, "error"@) == 0,
    decreases ds.len(),
{
    if ds.len() > 0 {
        reveal_strlit("warning");
        reveal_strlit("error");
        assert(ds.last().severity@ == "warning"@);
        assert("warning"@ != "error"@) by {
            assert("warning"@.len() != "error"@.len());
        }
        assert forall|i: int| 0 <= i < ds.drop_last().len() implies (
        #[trigger] ds.drop_last()[i]).severity@ == "warning"@ by {
            assert(ds.drop_last()[i] == ds[i]);
        }
        warnings_only_counts(ds.drop_last());
    }
}

/// Outcome of one lint run.
#[derive(Debug)]
pub struct LintToolResult {
    pub success: bool,
    pub exit_code: i32,
    pub stdout: String,
    pub stderr: String,
    pub diagnostics: Vec<LintDiagnostic>,
    pub include_raw_output: bool,
    pub max_diagnostics: usize,
    pub error_count: usize,
    pub warning_count: usize,
}

/// Options of a lint call.
#[derive(Debug)]
pub struct LintOptions {
    pub disable_rules: Option<String>,
    pub max_line_length: Option<i64>,
    pub list_rules: bool,
    pub pretty: bool,
    pub include_raw_output: bool,
    pub max_diagnostics: Option<usize>,
}

/// Checks a lint call: a maximum line length, when given, is at least 1,
/// and there is a file to lint unless the rules are only listed.
pub fn validate_lint_options(options: &LintOptions, file_count: usize) -> (r: Result<(), String>)
    ensures
        r is Err <==> ((options.max_line_length is Some && options.max_line_length->0 < 1) || (
        file_count == 0 && !options.list_rules)),
        (options.max_line_length is Some && options.max_line_length->0 < 1) ==> (r matches Err(e)
            && e@ == "`max_line_length` must be at least 1"@),
        !(options.max_line_length is Some && options.max_line_length->0 < 1) && file_count == 0
            && !options.list_rules ==> (r matches Err(e) && e@
            == "Either `files` or `dir` must resolve to at least one file unless `list_rules` is true"@),
{
    if let Some(n) = options.max_line_length {
        if n < 1 {
            return Err(String::from_str("`max_line_length` must be at least 1"));
        }
    }
    if file_count == 0 && !options.list_rules {
        return Err(
            String::from_str(
                "Either `files` or `dir` must resolve to at least one file unless `list_rules` is true",
            ),
        );
    }
    Ok(())
}

/// The linter's arguments: the subcommand, the options that are given, then
/// the files.
pub open spec fn lint_args(o: LintOptions, files: Seq<Seq<char>>) -> Seq<Seq<char>> {
    seq!["lint"@] + (match o.disable_rules {
        Some(d) => seq!["--disable"@, d@],
        None => seq![],
    }) + (match o.max_line_length {
        Some(n) => seq!["--max-line-length"@, decimal(n as nat)],
        None => seq![],
    }) + flag(o.list_rules, "--list-rules"@) + flag(o.pretty, "--pretty"@) + files
}

/// The linter's arguments for one batched run over all files.
pub fn lint_command_args(options: &LintOptions, files: &Vec<String>) -> (r: Vec<String>)
    requires
        options.max_line_length is Some ==> options.max_line_length->0 >= 1,
    ensures
        string_views(r@) == lint_args(*options, string_views(files@)),
{
    let mut args: Vec<String> = Vec::new();
    args.push(String::from_str("lint"));
    let ghost a0 = string_views(args@);
    assert(a0 =~= seq!["lint"@]);
    match &options.disable_rules {
        Some(d) => {
            args.push(String::from_str("--disable"));
            args.push(d.clone());
        },
        None => {},
    }
    let ghost a1 = string_views(args@);
    assert(a1 =~= a0 + match options.disable_rules {
        Some(d) => seq!["--disable"@, d@],
        None => seq![],
    });
    match options.max_line_length {
        Some(n) => {
            args.push(String::from_str("--max-line-length"));
            let mut digits: Vec<char> = Vec::new();
            push_decimal(&mut digits, n as u64);
            assert(digits@ =~= decimal(n as nat));
            args.push(string_of(&digits));
        },
        None => {},
    }
    let ghost a2 = string_views(args@);
    assert(a2 =~= a1 + match options.max_line_length {
        Some(n) => seq!["--max-line-length"@, decimal(n as nat)],
        None => seq![],
    });
    if options.list_rules {
        args.push(String::from_str("--list-rules"));
    }
    let ghost a3 = string_views(args@);
    assert(a3 =~= a2 + flag(options.list_rules, "--list-rules"@));
    if options.pretty {
        args.push(String::from_str("--pretty"));
    }
    let ghost a4 = string_views(args@);
    assert(a4 =~= a3 + flag(options.pretty, "--pretty"@));
    let mut i: usize = 0;
    while i < files.len()
        invariant
            i <= files.len(),
            string_views(args@) == a4 + string_views(files@).take(i as int),
        decreases files.len() - i,
    {
        let ghost prev = args@;
        let f = files[i].clone();
        assert(f@ == string_views(files@)[i as int]);
        args.push(f);
        assert(string_views(args@) =~= string_views(prev).push(f@));
        assert(string_views(files@).take(i + 1) =~= string_views(files@).take(i as int).push(f@));
        i = i + 1;
    }
    assert(string_views(files@).take(i as int) =~= string_views(files@));
    args
}

/// The result of a lint run from what the linter produced: success is the
/// process's exit status alone, the diagnostics are those of its standard
/// output, and the counts go by severity.
pub fn lint_result_from_output(
    options: &LintOptions,
    stdout: String,
    stderr: String,
    exit_success: bool,
    exit_code: Option<i32>,
) -> (r: LintToolResult)
    ensures
        r.success == exit_success,
        r.exit_code == (match exit_code {
            Some(c) => c as int,
            None => -1,
        }),
        diag_views(r.diagnostics@) == diags_of(lines(stdout@)),
        r.error_count == severity_count(r.diagnostics@, "error"@),
        r.warning_count == severity_count(r.diagnostics@, "warning"@),
        r.max_diagnostics == (match options.max_diagnostics {
            Some(m) => m,
            None => DEFAULT_MAX_DIAGNOSTICS,
        }),
        r.include_raw_output == options.include_raw_output,
        r.stdout == stdout,
        r.stderr == stderr,
{
    let diagnostics = parse_lint_diagnostics(stdout.as_str());
    let error_count = count_severity(&diagnostics, "error");
    let warning_count = count_severity(&diagnostics, "warning");
    let code = match exit_code {
        Some(c) => c,
        None => -1,
    };
    let max_diagnostics = match options.max_diagnostics {
        Some(m) => m,
        None => DEFAULT_MAX_DIAGNOSTICS,
    };
    LintToolResult {
        success: exit_success,
        exit_code: code,
        stdout,
        stderr,
        diagnostics,
        include_raw_output: options.include_raw_output,
        max_diagnostics,
        error_count,
        warning_count,
    }
}

/// The one-line summary of a lint run.
pub open spec fn lint_summary(success: bool, total: nat, errors: nat, warnings: nat) -> Seq<char> {
    "Lint "@ + (if success {
        "completed successfully"@
    } else {
        "failed"@
    }) + ". diagnostics: total="@ + decimal(total) + ", errors="@ + decimal(errors)
        + ", warnings="@ + decimal(warnings)
}

fn push_str(out: &mut Vec<char>, s: &str)
    ensures
        final(out)@ == old(out)@ + s@,
{
    let cs = chars_of(s);
    let mut i: usize = 0;
    while i < cs.len()
        invariant
            i <= cs.len(),
            cs@ == s@,
            out@ == old(out)@ + cs@.take(i as int),
        decreases cs.len() - i,
    {
        out.push(cs[i]);
        i = i + 1;
        assert(out@ =~= old(out)@ + cs@.take(i as int));
    }
    assert(cs@.take(i as int) =~= cs@);
}

/// One-line summary with the diagnostic total and the per-severity counts.
pub fn render_lint_summary(result: &LintToolResult) -> (r: String)
    ensures
        r@ == lint_summary(
            result.success,
            result.diagnostics.len() as nat,
            result.error_count as nat,
            result.warning_count as nat,
        ),
{
    let mut out: Vec<char> = Vec::new();
    push_str(&mut out, "Lint ");
    if result.success {
        push_str(&mut out, "completed successfully");
    } else {
        push_str(&mut out, "failed");
    }
    push_str(&mut out, ". diagnostics: total=");
    push_decimal(&mut out, result.diagnostics.len() as u64);
    push_str(&mut out, ", errors=");
    push_decimal(&mut out, result.error_count as u64);
    push_str(&mut out, ", warnings=");
    push_decimal(&mut out, result.warning_count as u64);
    assert(out@ =~= lint_summary(
        result.success,
        result.diagnostics.len() as nat,
        result.error_count as nat,
        result.warning_count as nat,
    ));
    string_of(&out)
}


/// The structured part of a lint reply.
#[derive(Debug)]
pub struct LintReport {
    pub ok: bool,
    pub exit_code: i32,
    pub total_diagnostics: usize,
    pub error_count: usize,
    pub warning_count: usize,
    pub max_diagnostics: usize,
    pub diagnostics_truncated: bool,
    pub diagnostics: Vec<LintDiagnostic>,
    pub raw_output: Option<(String, String)>,
}

/// The structured reply for a lint run: the diagnostics capped at the run's
/// maximum with the full total kept, and the raw output only when asked for.
pub fn lint_structured_content(result: &LintToolResult) -> (r: LintReport)
    ensures
        r.ok == result.success,
        r.exit_code == result.exit_code,
        r.total_diagnostics == result.diagnostics.len(),
        r.error_count == result.error_count,
        r.warning_count == result.warning_count,
        r.max_diagnostics == result.max_diagnostics,
        r.diagnostics_truncated == (result.diagnostics.len() > result.max_diagnostics),
        r.diagnostics@ == result.diagnostics@.take(
            if result.diagnostics.len() > result.max_diagnostics {
                result.max_diagnostics as int
            } else {
                result.diagnostics.len() as int
            },
        ),
        r.raw_output is Some <==> result.include_raw_output,
        r.raw_output matches Some(p) ==> p.0 == result.stdout && p.1 == result.stderr,
{
    let (diagnostics, truncated) = project_lint_diagnostics(&result.diagnostics, result.max_diagnostics);
    let raw_output = if result.include_raw_output {
        Some((result.stdout.clone(), result.stderr.clone()))
    } else {
        None
    };
    LintReport {
        ok: result.success,
        exit_code: result.exit_code,
        total_diagnostics: result.diagnostics.len(),
        error_count: result.error_count,
        warning_count: result.warning_count,
        max_diagnostics: result.max_diagnostics,
        diagnostics_truncated: truncated,
        diagnostics,
        raw_output,
    }
}

} // verus!
