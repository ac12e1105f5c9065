//! The report of a check, as the lines that are printed.

use vstd::prelude::*;

use owo_colors::OwoColorize;

use crate::check::{findings_view, FindingView, Issue, IssueView, Outcome};
use crate::config::{strings_view, Severity};

verus! {

// ---------------------------------------------------------------------------
// Colours and quoting
// ---------------------------------------------------------------------------

/// The escape sequence that starts a foreground colour with the given code.
pub open spec fn color_start(code: Seq<char>) -> Seq<char> {
    seq!['\x1b', '['] + code + seq!['m']
}

/// The escape sequence that resets the foreground colour.
pub open spec fn color_end() -> Seq<char> {
    seq!['\x1b', '[', '3', '9', 'm']
}

/// `s` coloured with the foreground colour of the given code.
pub open spec fn colored(code: Seq<char>, s: Seq<char>) -> Seq<char> {
    color_start(code) + s + color_end()
}

/// `s` in red.
///
/// Calls `OwoColorize::red` and formats the result. As owo-colors' source
/// shows, `FgColorDisplay` writes `ESC[31m`, the text and `ESC[39m`.
#[verifier::external_body]
fn paint_red(s: &str) -> (r: String)
    ensures
        r@ == colored(seq!['3', '1'], s@),
{
    s.red().to_string()
}

/// `s` in yellow.
///
/// Calls `OwoColorize::yellow` and formats the result: `ESC[33m`, the text
/// and `ESC[39m`.
#[verifier::external_body]
fn paint_yellow(s: &str) -> (r: String)
    ensures
        r@ == colored(seq!['3', '3'], s@),
{
    s.yellow().to_string()
}

/// `s` in green.
///
/// Calls `OwoColorize::green` and formats the result: `ESC[32m`, the text
/// and `ESC[39m`.
#[verifier::external_body]
fn paint_green(s: &str) -> (r: String)
    ensures
        r@ == colored(seq!['3', '2'], s@),
{
    s.green().to_string()
}

/// `s` quoted and escaped as `Debug` formats a `str`.
pub uninterp spec fn debug_str(s: Seq<char>) -> Seq<char>;

/// `s` as `Debug` formats it.
///
/// Formats `s` with `{:?}`; the claim is that the result is `debug_str(s)`,
/// which nothing here states further.
#[verifier::external_body]
fn debug_quote(s: &str) -> (r: String)
    ensures
        r@ == debug_str(s@),
{
    format!("{s:?}")
}

// ---------------------------------------------------------------------------
// Numbers
// ---------------------------------------------------------------------------

/// The decimal digit for `d`.
pub open spec fn digit(d: nat) -> char {
    seq!['0', '1', '2', '3', '4', '5', '6', '7', '8', '9'][d as int]
}

/// The decimal numeral for `n`, without leading zeros.
pub open spec fn decimal(n: nat) -> Seq<char>
    decreases n,
{
    if n < 10 {
        seq![digit(n)]
    } else {
        decimal(n / 10).push(digit(n % 10))
    }
}

fn decimal_chars(n: usize) -> (r: Vec<char>)
    ensures
        r@ == decimal(n as nat),
    decreases n,
{
    let digits = ['0', '1', '2', '3', '4', '5', '6', '7', '8', '9'];
    assert(digits@ =~= seq!['0', '1', '2', '3', '4', '5', '6', '7', '8', '9']);
    if n < 10 {
        let mut v: Vec<char> = Vec::new();
        v.push(digits[n]);
        assert(v@ =~= decimal(n as nat));
        v
    } else {
        let mut v = decimal_chars(n / 10);
        v.push(digits[n % 10]);
        v
    }
}

/// The decimal numeral for `n`.
pub fn decimal_string(n: usize) -> (r: String)
    ensures
        r@ == decimal(n as nat),
{
    let v = decimal_chars(n);
    crate::text::string_of(&v)
}

// ---------------------------------------------------------------------------
// Lines
// ---------------------------------------------------------------------------

/// A location line: a label, the file, a colon and the line number.
pub open spec fn location(label: Seq<char>, file: Seq<char>, line: usize) -> Seq<char> {
    label + file + ":"@ + decimal(line as nat)
}

/// The lines that describe an issue, after the mark of its severity.
pub open spec fn issue_text(mark: Seq<char>, issue: IssueView) -> Seq<Seq<char>> {
    match issue {
        IssueView::UnknownId { id, file, line } => seq![
            mark + " "@ + id + "  no current spec defines this id"@,
            location("    at:   "@, file, line),
        ],
        IssueView::MissingTest { id, file, line } => seq![
            mark + " "@ + id + "  no test for this rule"@,
            location("    spec: "@, file, line),
        ],
        IssueView::TextMismatch { id, spec, test, file, line } => seq![
            mark + " "@ + id + "  text mismatch"@,
            "    spec: "@ + debug_str(spec),
            "    test: "@ + debug_str(test),
            location("    at:   "@, file, line),
        ],
        IssueView::EmptySpecGlobs => seq![mark + " spec globs matched no files"@],
        IssueView::EmptyTestGlobs => seq![mark + " test globs matched no files"@],
    }
}

/// The mark of a severity: a red cross for a failure, a yellow exclamation
/// mark for a warning; silent findings are not shown.
pub open spec fn mark_of(severity: Severity) -> Option<Seq<char>> {
    match severity {
        Severity::Error => Some(colored(seq!['3', '1'], "✗"@)),
        Severity::Warn => Some(colored(seq!['3', '3'], "!"@)),
        Severity::Silent => None,
    }
}

/// The lines for the first `n` findings.
pub open spec fn findings_text(findings: Seq<FindingView>, n: nat) -> Seq<Seq<char>>
    decreases n,
{
    if n == 0 {
        seq![]
    } else {
        let prev = findings_text(findings, (n - 1) as nat);
        let f = findings[n - 1];
        match mark_of(f.0) {
            Some(mark) => prev + issue_text(mark, f.1),
            None => prev,
        }
    }
}

/// How many of the first `n` findings have the given severity.
pub open spec fn count_of(findings: Seq<FindingView>, severity: Severity, n: nat) -> nat
    decreases n,
{
    if n == 0 {
        0
    } else {
        count_of(findings, severity, (n - 1) as nat) + if findings[n - 1].0 == severity {
            1nat
        } else {
            0nat
        }
    }
}

/// The closing lines: with no failure, how many rules are aligned across how
/// many tests, and the number of warnings if there are any; with failures, a
/// blank line and the numbers of failures, rules and warnings.
pub open spec fn summary_text(errors: nat, warns: nat, spec_count: usize, test_count: usize) -> Seq<
    Seq<char>,
> {
    if errors == 0 {
        let first = colored(seq!['3', '2'], "✓"@) + " "@ + decimal(spec_count as nat)
            + " rules aligned across "@ + decimal(test_count as nat) + " tests"@;
        if warns > 0 {
            seq![first, "  "@ + decimal(warns) + " warning(s)"@]
        } else {
            seq![first]
        }
    } else {
        seq![
            "\n"@ + decimal(errors) + " failure(s) across "@ + decimal(spec_count as nat)
                + " rules ("@ + decimal(warns) + " warning(s))"@,
        ]
    }
}

/// The whole report.
pub open spec fn report_text(findings: Seq<FindingView>, spec_count: usize, test_count: usize) -> Seq<
    Seq<char>,
> {
    findings_text(findings, findings.len()) + summary_text(
        count_of(findings, Severity::Error, findings.len()),
        count_of(findings, Severity::Warn, findings.len()),
        spec_count,
        test_count,
    )
}

/// The number of findings with the given severity.
pub fn count(outcome: &Outcome, severity: Severity) -> (r: usize)
    ensures
        r == count_of(findings_view(outcome.findings@), severity, outcome.findings@.len()),
{
    let ghost fv = findings_view(outcome.findings@);
    let mut n: usize = 0;
    let mut k: usize = 0;
    while k < outcome.findings.len()
        invariant
            fv == findings_view(outcome.findings@),
            k <= outcome.findings@.len(),
            n == count_of(fv, severity, k as nat),
            n <= k,
        decreases outcome.findings@.len() - k,
    {
        assert(fv[k as int] == outcome.findings@[k as int]@);
        if outcome.findings[k].severity == severity {
            n += 1;
        }
        k += 1;
    }
    n
}

/// `a` followed by `b`.
fn cat(a: String, b: &str) -> (r: String)
    ensures
        r@ == a@ + b@,
{
    a.concat(b)
}

/// `label`, `file`, a colon and `line`.
fn location_line(label: &str, file: &String, line: usize) -> (r: String)
    ensures
        r@ == location(label@, file@, line),
{
    let s = cat(label.to_owned(), file.as_str());
    let s = cat(s, ":");
    let n = decimal_string(line);
    cat(s, n.as_str())
}

/// The lines that describe `issue`, after `mark`.
pub fn issue_lines(mark: &String, issue: &Issue) -> (r: Vec<String>)
    ensures
        strings_view(r@) == issue_text(mark@, issue@),
{
    let mut lines: Vec<String> = Vec::new();
    match issue {
        Issue::UnknownId { id, file, line } => {
            let first = cat(cat(cat(mark.clone(), " "), id.as_str()), "  no current spec defines this id");
            lines.push(first);
            lines.push(location_line("    at:   ", file, *line));
        },
        Issue::MissingTest { id, file, line } => {
            let first = cat(cat(cat(mark.clone(), " "), id.as_str()), "  no test for this rule");
            lines.push(first);
            lines.push(location_line("    spec: ", file, *line));
        },
        Issue::TextMismatch { id, spec, test, file, line } => {
            let first = cat(cat(cat(mark.clone(), " "), id.as_str()), "  text mismatch");
            lines.push(first);
            let quoted_spec = debug_quote(spec.as_str());
            lines.push(cat("    spec: ".to_owned(), quoted_spec.as_str()));
            let quoted_test = debug_quote(test.as_str());
            lines.push(cat("    test: ".to_owned(), quoted_test.as_str()));
            lines.push(location_line("    at:   ", file, *line));
        },
        Issue::EmptySpecGlobs => {
            lines.push(cat(mark.clone(), " spec globs matched no files"));
        },
        Issue::EmptyTestGlobs => {
            lines.push(cat(mark.clone(), " test globs matched no files"));
        },
    }
    assert(strings_view(lines@) =~= issue_text(mark@, issue@));
    lines
}

/// The lines of the report of `outcome`, in order: two or more lines per
/// finding that is not silent, then the summary.
pub fn render(outcome: &Outcome) -> (r: Vec<String>)
    ensures
        strings_view(r@) == report_text(
            findings_view(outcome.findings@),
            outcome.spec_count,
            outcome.test_count,
        ),
{
    let ghost fv = findings_view(outcome.findings@);
    let errors = count(outcome, Severity::Error);
    let warns = count(outcome, Severity::Warn);
    let mut lines: Vec<String> = Vec::new();
    let mut k: usize = 0;
    assert(strings_view(lines@) =~= findings_text(fv, 0));
    while k < outcome.findings.len()
        invariant
            fv == findings_view(outcome.findings@),
            k <= outcome.findings@.len(),
            strings_view(lines@) == findings_text(fv, k as nat),
        decreases outcome.findings@.len() - k,
    {
        let finding = &outcome.findings[k];
        assert(fv[k as int] == finding@);
        let mark = match finding.severity {
            Severity::Error => paint_red("✗"),
            Severity::Warn => paint_yellow("!"),
            Severity::Silent => {
                k += 1;
                continue;
            },
        };
        let more = issue_lines(&mark, &finding.issue);
        let mut j: usize = 0;
        let ghost before = strings_view(lines@);
        while j < more.len()
            invariant
                j <= more@.len(),
                strings_view(lines@) == before + strings_view(more@).take(j as int),
            decreases more@.len() - j,
        {
            let ghost prev = lines@;
            lines.push(more[j].clone());
            assert(strings_view(lines@) =~= strings_view(prev).push(more@[j as int]@));
            assert(strings_view(more@).take(j + 1) =~= strings_view(more@).take(j as int).push(
                more@[j as int]@,
            ));
            j += 1;
        }
        assert(strings_view(more@).take(j as int) =~= strings_view(more@));
        k += 1;
    }
    let ghost body = strings_view(lines@);
    if errors == 0 {
        let check = paint_green("✓");
        let s = cat(check, " ");
        let s = cat(s, decimal_string(outcome.spec_count).as_str());
        let s = cat(s, " rules aligned across ");
        let s = cat(s, decimal_string(outcome.test_count).as_str());
        let s = cat(s, " tests");
        lines.push(s);
        if warns > 0 {
            let w = cat("  ".to_owned(), decimal_string(warns).as_str());
            lines.push(cat(w, " warning(s)"));
        }
    } else {
        let s = cat("\n".to_owned(), decimal_string(errors).as_str());
        let s = cat(s, " failure(s) across ");
        let s = cat(s, decimal_string(outcome.spec_count).as_str());
        let s = cat(s, " rules (");
        let s = cat(s, decimal_string(warns).as_str());
        lines.push(cat(s, " warning(s))"));
    }
    assert(strings_view(lines@) =~= body + summary_text(
        errors as nat,
        warns as nat,
        outcome.spec_count,
        outcome.test_count,
    ));
    lines
}

} // verus!
