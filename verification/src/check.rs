//! Checking collected rules against collected test references.

use vstd::prelude::*;

use crate::collect::{
    find_refs, find_rule, has_key, lemma_first_key, lookup, ref_lists_view, rules_view,
    Collected, Located,
};
use crate::config::{Config, Severity};
use crate::paths::{path_order, path_order_str, text_order, text_order_str, Order};
use crate::sorting::{insert_pos, insert_sorted, insertion_sort, lemma_insert_pos_scan};

verus! {

/// What a finding is about.
#[derive(Debug)]
pub enum Issue {
    /// A test references an id that no current spec defines.
    UnknownId { id: String, file: String, line: usize },
    /// A current spec rule has no test.
    MissingTest { id: String, file: String, line: usize },
    /// A test's text for a rule differs from the spec's.
    TextMismatch { id: String, spec: String, test: String, file: String, line: usize },
    /// The spec globs matched no file.
    EmptySpecGlobs,
    /// The test globs matched no file.
    EmptyTestGlobs,
}

/// An issue with its strings seen as character sequences.
pub enum IssueView {
    UnknownId { id: Seq<char>, file: Seq<char>, line: usize },
    MissingTest { id: Seq<char>, file: Seq<char>, line: usize },
    TextMismatch { id: Seq<char>, spec: Seq<char>, test: Seq<char>, file: Seq<char>, line: usize },
    EmptySpecGlobs,
    EmptyTestGlobs,
}

impl View for Issue {
    type V = IssueView;

    open spec fn view(&self) -> IssueView {
        match self {
            Issue::UnknownId { id, file, line } => IssueView::UnknownId {
                id: id@,
                file: file@,
                line: *line,
            },
            Issue::MissingTest { id, file, line } => IssueView::MissingTest {
                id: id@,
                file: file@,
                line: *line,
            },
            Issue::TextMismatch { id, spec, test, file, line } => IssueView::TextMismatch {
                id: id@,
                spec: spec@,
                test: test@,
                file: file@,
                line: *line,
            },
            Issue::EmptySpecGlobs => IssueView::EmptySpecGlobs,
            Issue::EmptyTestGlobs => IssueView::EmptyTestGlobs,
        }
    }
}

/// An issue and how much it counts.
#[derive(Debug)]
pub struct Finding {
    pub severity: Severity,
    pub issue: Issue,
}

pub type FindingView = (Severity, IssueView);

impl View for Finding {
    type V = FindingView;

    open spec fn view(&self) -> FindingView {
        (self.severity, self.issue@)
    }
}

/// The findings of a check, sorted for printing, with the numbers of rules
/// and of referenced ids.
pub struct Outcome {
    pub findings: Vec<Finding>,
    pub spec_count: usize,
    pub test_count: usize,
}

pub open spec fn findings_view(v: Seq<Finding>) -> Seq<FindingView> {
    v.map_values(|f: Finding| f@)
}

/// Whether some finding counts as a failure.
pub open spec fn has_error(findings: Seq<FindingView>) -> bool {
    exists|i: int| 0 <= i < findings.len() && findings[i].0 == Severity::Error
}

impl Outcome {
    /// Whether the check passed: no finding counts as a failure.
    pub fn ok(&self) -> (r: bool)
        ensures
            r == !has_error(findings_view(self.findings@)),
    {
        let ghost fv = findings_view(self.findings@);
        let mut k: usize = 0;
        while k < self.findings.len()
            invariant
                fv == findings_view(self.findings@),
                k <= self.findings@.len(),
                forall|j: int| 0 <= j < k ==> fv[j].0 != Severity::Error,
            decreases self.findings@.len() - k,
        {
            assert(fv[k as int] == self.findings@[k as int]@);
            if self.findings[k].severity == Severity::Error {
                return false;
            }
            k += 1;
        }
        true
    }
}

// ---------------------------------------------------------------------------
// What the check finds
// ---------------------------------------------------------------------------

/// The findings for empty globs: spec globs first, then test globs.
pub open spec fn empty_glob_findings(spec_files: usize, test_files: usize, severity: Severity) -> Seq<
    FindingView,
> {
    (if spec_files == 0 {
        seq![(severity, IssueView::EmptySpecGlobs)]
    } else {
        seq![]
    }) + (if test_files == 0 {
        seq![(severity, IssueView::EmptyTestGlobs)]
    } else {
        seq![]
    })
}

/// The findings for the first `n` references of `id`, given the rule that
/// defines `id`, if any: an unknown id where there is none, a mismatch where
/// the texts differ.
pub open spec fn ref_findings(
    id: Seq<char>,
    refs: Seq<Located>,
    rule: Option<Located>,
    config: Config,
    n: nat,
) -> Seq<FindingView>
    decreases n,
{
    if n == 0 {
        seq![]
    } else {
        let prev = ref_findings(id, refs, rule, config, (n - 1) as nat);
        let r = refs[n - 1];
        match rule {
            None => prev.push(
                (config.on_unknown_id, IssueView::UnknownId { id, file: r.1, line: r.2 }),
            ),
            Some(rule) => if rule.0 != r.0 {
                prev.push(
                    (
                        config.on_text_mismatch,
                        IssueView::TextMismatch {
                            id,
                            spec: rule.0,
                            test: r.0,
                            file: r.1,
                            line: r.2,
                        },
                    ),
                )
            } else {
                prev
            },
        }
    }
}

/// The findings for the references of the first `n` referenced ids.
pub open spec fn test_findings(
    tests: Seq<(Seq<char>, Seq<Located>)>,
    specs: Seq<(Seq<char>, Located)>,
    config: Config,
    n: nat,
) -> Seq<FindingView>
    decreases n,
{
    if n == 0 {
        seq![]
    } else {
        let e = tests[n - 1];
        test_findings(tests, specs, config, (n - 1) as nat) + ref_findings(
            e.0,
            e.1,
            lookup(specs, e.0),
            config,
            e.1.len(),
        )
    }
}

/// The findings for the first `n` rules: a missing test for each rule whose
/// id no test references.
pub open spec fn missing_findings(
    specs: Seq<(Seq<char>, Located)>,
    tests: Seq<(Seq<char>, Seq<Located>)>,
    config: Config,
    n: nat,
) -> Seq<FindingView>
    decreases n,
{
    if n == 0 {
        seq![]
    } else {
        let prev = missing_findings(specs, tests, config, (n - 1) as nat);
        let e = specs[n - 1];
        if !has_key(tests, e.0) {
            prev.push(
                (config.on_missing_test, IssueView::MissingTest { id: e.0, file: e.1.1, line: e.1.2 }),
            )
        } else {
            prev
        }
    }
}

/// All findings before sorting: empty globs, then the references id by id,
/// then the rules without tests.
pub open spec fn unsorted_findings(
    specs: Seq<(Seq<char>, Located)>,
    spec_files: usize,
    tests: Seq<(Seq<char>, Seq<Located>)>,
    test_files: usize,
    config: Config,
) -> Seq<FindingView> {
    empty_glob_findings(spec_files, test_files, config.on_empty_glob) + test_findings(
        tests,
        specs,
        config,
        tests.len(),
    ) + missing_findings(specs, tests, config, specs.len())
}

/// The key a finding is sorted by: empty-glob findings first (specs before
/// tests), then the others by file, line and id.
pub open spec fn finding_key(i: IssueView) -> (u8, Seq<char>, usize, Seq<char>) {
    match i {
        IssueView::EmptySpecGlobs => (0, seq![], 0, seq!['s', 'p', 'e', 'c', 's']),
        IssueView::EmptyTestGlobs => (0, seq![], 0, seq!['t', 'e', 's', 't', 's']),
        IssueView::UnknownId { id, file, line } => (1, file, line, id),
        IssueView::MissingTest { id, file, line } => (1, file, line, id),
        IssueView::TextMismatch { id, file, line, .. } => (1, file, line, id),
    }
}

/// Whether key `a` sorts before key `b`: lexicographically, with files
/// compared as paths.
pub open spec fn key_before(a: (u8, Seq<char>, usize, Seq<char>), b: (u8, Seq<char>, usize, Seq<char>)) -> bool {
    ||| a.0 < b.0
    ||| a.0 == b.0 && path_order(a.1, b.1) == Order::Less
    ||| a.0 == b.0 && path_order(a.1, b.1) == Order::Equal && a.2 < b.2
    ||| a.0 == b.0 && path_order(a.1, b.1) == Order::Equal && a.2 == b.2 && text_order(a.3, b.3)
        == Order::Less
}

/// Whether finding `a` sorts before `b`.
pub open spec fn finding_before(a: FindingView, b: FindingView) -> bool {
    key_before(finding_key(a.1), finding_key(b.1))
}

/// The findings of a check, sorted stably by their keys.
pub open spec fn expected_findings(
    specs: Seq<(Seq<char>, Located)>,
    spec_files: usize,
    tests: Seq<(Seq<char>, Seq<Located>)>,
    test_files: usize,
    config: Config,
) -> Seq<FindingView> {
    insertion_sort(
        unsorted_findings(specs, spec_files, tests, test_files, config),
        |a: FindingView, b: FindingView| finding_before(a, b),
    )
}

// ---------------------------------------------------------------------------
// Sorting findings
// ---------------------------------------------------------------------------

/// The key a finding is sorted by.
pub fn sort_key(finding: &Finding) -> (r: (u8, String, usize, String))
    ensures
        (r.0, r.1@, r.2, r.3@) == finding_key(finding.issue@),
{
    match &finding.issue {
        Issue::EmptySpecGlobs => {
            let id = "specs".to_owned();
            proof {
                reveal_strlit("specs");
                assert("specs"@ =~= seq!['s', 'p', 'e', 'c', 's']);
            }
            let file = String::new();
            assert(file@ =~= Seq::<char>::empty());
            (0, file, 0, id)
        },
        Issue::EmptyTestGlobs => {
            let id = "tests".to_owned();
            proof {
                reveal_strlit("tests");
                assert("tests"@ =~= seq!['t', 'e', 's', 't', 's']);
            }
            let file = String::new();
            assert(file@ =~= Seq::<char>::empty());
            (0, file, 0, id)
        },
        Issue::UnknownId { id, file, line } => (1, file.clone(), *line, id.clone()),
        Issue::MissingTest { id, file, line } => (1, file.clone(), *line, id.clone()),
        Issue::TextMismatch { id, file, line, .. } => (1, file.clone(), *line, id.clone()),
    }
}

/// Whether finding `a` sorts before `b`.
fn finding_before_exec(a: &Finding, b: &Finding) -> (r: bool)
    ensures
        r == finding_before(a@, b@),
{
    let ka = sort_key(a);
    let kb = sort_key(b);
    if ka.0 < kb.0 {
        return true;
    }
    if ka.0 > kb.0 {
        return false;
    }
    match path_order_str(ka.1.as_str(), kb.1.as_str()) {
        Order::Less => true,
        Order::Greater => false,
        Order::Equal => {
            if ka.2 < kb.2 {
                true
            } else if ka.2 > kb.2 {
                false
            } else {
                text_order_str(ka.3.as_str(), kb.3.as_str()) == Order::Less
            }
        },
    }
}

/// `findings` sorted stably by their keys.
fn sort_findings(findings: Vec<Finding>) -> (r: Vec<Finding>)
    ensures
        findings_view(r@) == insertion_sort(
            findings_view(findings@),
            |a: FindingView, b: FindingView| finding_before(a, b),
        ),
{
    let ghost lt = |a: FindingView, b: FindingView| finding_before(a, b);
    let ghost all = findings_view(findings@);
    let mut rest = findings;
    let total = rest.len();
    let mut out: Vec<Finding> = Vec::new();
    let mut k: usize = 0;
    assert(all.take(0) =~= Seq::<FindingView>::empty());
    assert(findings_view(out@) =~= Seq::<FindingView>::empty());
    while rest.len() > 0
        invariant
            k <= all.len(),
            all.len() == total,
            findings_view(rest@) == all.skip(k as int),
            findings_view(out@) == insertion_sort(all.take(k as int), lt),
            lt == (|a: FindingView, b: FindingView| finding_before(a, b)),
        decreases rest@.len(),
    {
        let ghost rv = findings_view(rest@);
        let x = rest.remove(0);
        assert(rv[0] == x@);
        assert(findings_view(rest@) =~= all.skip(k + 1)) by {
            assert(rv.drop_first() =~= all.skip(k + 1));
            assert(findings_view(rest@) =~= rv.drop_first());
        }
        assert(all.take(k + 1).drop_last() =~= all.take(k as int));
        assert(all.take(k + 1).last() == x@) by {
            assert(all.skip(k as int)[0] == all[k as int]);
        }
        let ghost ov = findings_view(out@);
        let mut j: usize = out.len();
        assert(ov.take(j as int) =~= ov);
        while j > 0 && finding_before_exec(&x, &out[j - 1])
            invariant
                j <= out@.len(),
                ov == findings_view(out@),
                insert_pos(ov, x@, lt) == insert_pos(ov.take(j as int), x@, lt),
                lt == (|a: FindingView, b: FindingView| finding_before(a, b)),
            decreases j,
        {
            proof {
                lemma_insert_pos_scan(ov, x@, lt, j as int);
            }
            j -= 1;
        }
        proof {
            if j > 0 {
                lemma_insert_pos_scan(ov, x@, lt, j as int);
            }
        }
        let ghost xv = x@;
        out.insert(j, x);
        assert(findings_view(out@) =~= insert_sorted(ov, xv, lt));
        k += 1;
    }
    assert(all.skip(k as int).len() == 0);
    assert(all.take(k as int) =~= all);
    out
}

// ---------------------------------------------------------------------------
// Running the check
// ---------------------------------------------------------------------------

/// Checks the collected references against the collected rules: every
/// referenced id must be defined by a current spec with the same text, and
/// every rule must have a test; globs that matched no file are reported too.
/// Each finding gets the severity that `config` gives its kind, and the
/// findings come sorted: empty-glob findings first, then by file, line and
/// id.
pub fn run(collected: &Collected, config: &Config) -> (o: Outcome)
    ensures
        findings_view(o.findings@) == expected_findings(
            rules_view(collected.specs@),
            collected.spec_files,
            ref_lists_view(collected.tests@),
            collected.test_files,
            *config,
        ),
        o.spec_count == collected.specs@.len(),
        o.test_count == collected.tests@.len(),
{
    let ghost sv = rules_view(collected.specs@);
    let ghost tv = ref_lists_view(collected.tests@);
    let mut findings: Vec<Finding> = Vec::new();
    if collected.spec_files == 0 {
        findings.push(Finding { severity: config.on_empty_glob, issue: Issue::EmptySpecGlobs });
    }
    if collected.test_files == 0 {
        findings.push(Finding { severity: config.on_empty_glob, issue: Issue::EmptyTestGlobs });
    }
    let ghost base = findings_view(findings@);
    assert(base =~= empty_glob_findings(
        collected.spec_files,
        collected.test_files,
        config.on_empty_glob,
    ));
    assert(findings_view(findings@) =~= base + test_findings(tv, sv, *config, 0));
    let mut k: usize = 0;
    while k < collected.tests.len()
        invariant
            sv == rules_view(collected.specs@),
            tv == ref_lists_view(collected.tests@),
            k <= tv.len(),
            findings_view(findings@) == base + test_findings(tv, sv, *config, k as nat),
        decreases tv.len() - k,
    {
        let entry = &collected.tests[k];
        assert(tv[k as int] == (entry.0@, crate::collect::refs_view(entry.1@)));
        let spec = find_rule(&collected.specs, &entry.0);
        proof {
            match spec {
                Some(i) => {
                    lemma_first_key(sv, entry.0@, i as int);
                },
                None => {},
            }
        }
        let refs = &entry.1;
        let ghost rv = crate::collect::refs_view(refs@);
        let ghost rule = lookup(sv, entry.0@);
        let ghost before = findings_view(findings@);
        let mut m: usize = 0;
        while m < refs.len()
            invariant
                sv == rules_view(collected.specs@),
                rv == crate::collect::refs_view(refs@),
                rule == lookup(sv, entry.0@),
                match spec {
                    Some(i) => i < sv.len() && rule == Some(sv[i as int].1),
                    None => rule is None,
                },
                m <= rv.len(),
                findings_view(findings@) == before + ref_findings(
                    entry.0@,
                    rv,
                    rule,
                    *config,
                    m as nat,
                ),
            decreases rv.len() - m,
        {
            let r = &refs[m];
            assert(rv[m as int] == r@);
            let ghost prev = findings_view(findings@);
            match spec {
                None => {
                    let f = Finding {
                        severity: config.on_unknown_id,
                        issue: Issue::UnknownId {
                            id: entry.0.clone(),
                            file: r.file.clone(),
                            line: r.line,
                        },
                    };
                    let ghost fnew = f@;
                    findings.push(f);
                    assert(findings_view(findings@) =~= prev.push(fnew));
                    assert(findings_view(findings@) =~= before + ref_findings(
                        entry.0@,
                        rv,
                        rule,
                        *config,
                        (m + 1) as nat,
                    ));
                },
                Some(i) => {
                    let defined = &collected.specs[i].1;
                    assert(sv[i as int].1 == defined@);
                    if !(defined.text == r.text) {
                        let f = Finding {
                            severity: config.on_text_mismatch,
                            issue: Issue::TextMismatch {
                                id: entry.0.clone(),
                                spec: defined.text.clone(),
                                test: r.text.clone(),
                                file: r.file.clone(),
                                line: r.line,
                            },
                        };
                        let ghost fnew = f@;
                        findings.push(f);
                        assert(findings_view(findings@) =~= prev.push(fnew));
                    } else {
                        assert(findings_view(findings@) =~= prev);
                    }
                    assert(findings_view(findings@) =~= before + ref_findings(
                        entry.0@,
                        rv,
                        rule,
                        *config,
                        (m + 1) as nat,
                    ));
                },
            }
            m += 1;
        }
        assert(findings_view(findings@) =~= base + test_findings(tv, sv, *config, (k + 1) as nat));
        k += 1;
    }
    let ghost middle = findings_view(findings@);
    assert(middle =~= middle + missing_findings(sv, tv, *config, 0));
    let mut k: usize = 0;
    while k < collected.specs.len()
        invariant
            sv == rules_view(collected.specs@),
            tv == ref_lists_view(collected.tests@),
            k <= sv.len(),
            findings_view(findings@) == middle + missing_findings(sv, tv, *config, k as nat),
        decreases sv.len() - k,
    {
        let entry = &collected.specs[k];
        assert(sv[k as int] == (entry.0@, entry.1@));
        let ghost prev = findings_view(findings@);
        match find_refs(&collected.tests, &entry.0) {
            None => {
                let f = Finding {
                    severity: config.on_missing_test,
                    issue: Issue::MissingTest {
                        id: entry.0.clone(),
                        file: entry.1.file.clone(),
                        line: entry.1.line,
                    },
                };
                let ghost fnew = f@;
                findings.push(f);
                assert(findings_view(findings@) =~= prev.push(fnew));
            },
            Some(i) => {
                proof {
                    lemma_first_key(tv, entry.0@, i as int);
                }
            },
        }
        assert(findings_view(findings@) =~= middle + missing_findings(
            sv,
            tv,
            *config,
            (k + 1) as nat,
        ));
        k += 1;
    }
    assert(findings_view(findings@) =~= unsorted_findings(
        sv,
        collected.spec_files,
        tv,
        collected.test_files,
        *config,
    ));
    let sorted = sort_findings(findings);
    Outcome { findings: sorted, spec_count: collected.specs.len(), test_count: collected.tests.len() }
}

} // verus!
