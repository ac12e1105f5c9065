//! Properties of the library as a whole, stated over the spec functions that
//! the executable functions' contracts use, and proved.

use vstd::prelude::*;

use crate::check::{
    expected_findings, finding_before, finding_key, has_error, key_before, missing_findings,
    ref_findings, test_findings, unsorted_findings, empty_glob_findings, FindingView, IssueView,
};
use crate::collect::{
    dedup_refs, deduped, distinct_keys, first_key_at, has_key, lemma_first_key, lookup, ref_before,
    same_ref, Located,
};
use crate::text::{
    closes_frontmatter, current_spec, is_delimiter, is_white_space, lemma_closes_frontmatter_unique,
    normalized, opens_frontmatter, status_says_current, split_lines, trim_end, trim_start, trimmed,
};
use crate::config::{config_candidates_of, config_names, names_in, names_in_dirs, Config, Severity};
use crate::collect::{
    append_ref, dedupe_lists, lemma_same_ref_unfold, line_groups, refs_in_files, refs_in_groups,
    refs_in_line, refs_in_lines, rules_in_files, rules_in_lines, upsert,
};
use crate::paths::{path_ancestors, path_join, relative_path};
use crate::pattern::{regex_all_groups, regex_first_groups};
use crate::report::{colored, count_of, decimal, findings_text, issue_text, report_text, summary_text};
use crate::paths::{
    flipped, lemma_parts_order_flip, lemma_parts_order_trans, lemma_text_order_flip,
    lemma_text_order_trans, path_components, path_order, text_order, Order,
};
use crate::sorting::{
    asymmetric, insertion_sort, lemma_insertion_sort_contains, lemma_insertion_sort_multiset,
    lemma_insertion_sort_sorted, lemma_insertion_sort_stable, lemma_sorted_unique,
    negatively_transitive, sorted_by_before, tied_with,
};

verus! {

// ---------------------------------------------------------------------------
// The sort key is a strict weak order
// ---------------------------------------------------------------------------

/// Three-way comparison of finding keys.
pub open spec fn key_order(a: (u8, Seq<char>, usize, Seq<char>), b: (u8, Seq<char>, usize, Seq<char>)) -> Order {
    if a.0 < b.0 {
        Order::Less
    } else if a.0 > b.0 {
        Order::Greater
    } else if path_order(a.1, b.1) != Order::Equal {
        path_order(a.1, b.1)
    } else if a.2 < b.2 {
        Order::Less
    } else if a.2 > b.2 {
        Order::Greater
    } else {
        text_order(a.3, b.3)
    }
}

proof fn lemma_key_order_before(a: (u8, Seq<char>, usize, Seq<char>), b: (u8, Seq<char>, usize, Seq<char>))
    ensures
        key_before(a, b) == (key_order(a, b) == Order::Less),
{
}

proof fn lemma_key_order_flip(a: (u8, Seq<char>, usize, Seq<char>), b: (u8, Seq<char>, usize, Seq<char>))
    ensures
        key_order(b, a) == flipped(key_order(a, b)),
{
    lemma_parts_order_flip(path_components(a.1), path_components(b.1));
    lemma_text_order_flip(a.3, b.3);
}

proof fn lemma_key_order_trans(
    a: (u8, Seq<char>, usize, Seq<char>),
    b: (u8, Seq<char>, usize, Seq<char>),
    c: (u8, Seq<char>, usize, Seq<char>),
)
    requires
        key_order(a, b) != Order::Greater,
        key_order(b, c) != Order::Greater,
    ensures
        key_order(a, c) != Order::Greater,
{
    let (pa, pb, pc) = (path_components(a.1), path_components(b.1), path_components(c.1));
    if a.0 == b.0 && b.0 == c.0 {
        if path_order(a.1, b.1) != Order::Greater && path_order(b.1, c.1) != Order::Greater {
            lemma_parts_order_trans(pa, pb, pc);
        }
        if path_order(a.1, b.1) == Order::Equal && path_order(b.1, c.1) == Order::Equal {
            if a.2 == b.2 && b.2 == c.2 {
                lemma_text_order_trans(a.3, b.3, c.3);
            }
        }
    }
}

/// `finding_before` never holds both ways.
pub proof fn lemma_finding_before_asymmetric()
    ensures
        asymmetric(|a: FindingView, b: FindingView| finding_before(a, b)),
{
    assert forall|a: FindingView, b: FindingView|
        #[trigger] finding_before(a, b) implies !finding_before(b, a) by {
        lemma_key_order_flip(finding_key(a.1), finding_key(b.1));
    }
}

/// `finding_before` is negatively transitive.
pub proof fn lemma_finding_before_negatively_transitive()
    ensures
        negatively_transitive(|a: FindingView, b: FindingView| finding_before(a, b)),
{
    assert forall|a: FindingView, b: FindingView, c: FindingView|
        !finding_before(a, b) && !finding_before(b, c) implies !finding_before(a, c) by {
        let (ka, kb, kc) = (finding_key(a.1), finding_key(b.1), finding_key(c.1));
        lemma_key_order_flip(ka, kb);
        lemma_key_order_flip(kb, kc);
        lemma_key_order_flip(ka, kc);
        lemma_key_order_trans(kc, kb, ka);
    }
}

// ---------------------------------------------------------------------------
// The findings come sorted, and each finding once
// ---------------------------------------------------------------------------

/// The findings of a check come sorted: no finding comes after one that it
/// sorts before. Empty-glob findings come first, the others by file, line
/// and id. And they are exactly the findings that the check makes, each as
/// often as it is made.
pub proof fn law_findings_sorted(
    specs: Seq<(Seq<char>, Located)>,
    spec_files: usize,
    tests: Seq<(Seq<char>, Seq<Located>)>,
    test_files: usize,
    config: Config,
)
    ensures
        sorted_by_before(
            expected_findings(specs, spec_files, tests, test_files, config),
            |a: FindingView, b: FindingView| finding_before(a, b),
        ),
        expected_findings(specs, spec_files, tests, test_files, config).to_multiset()
            == unsorted_findings(specs, spec_files, tests, test_files, config).to_multiset(),
{
    let lt = |a: FindingView, b: FindingView| finding_before(a, b);
    lemma_finding_before_asymmetric();
    lemma_finding_before_negatively_transitive();
    lemma_insertion_sort_sorted(unsorted_findings(specs, spec_files, tests, test_files, config), lt);
    lemma_insertion_sort_multiset(unsorted_findings(specs, spec_files, tests, test_files, config), lt);
}

// ---------------------------------------------------------------------------
// Which findings the check makes
// ---------------------------------------------------------------------------

/// The finding that reference `r` of `id` gives, given the rule that defines
/// `id`, if any: an unknown id where there is no rule, a text mismatch where
/// the texts differ, else none.
pub open spec fn ref_finding(id: Seq<char>, r: Located, rule: Option<Located>, config: Config) -> Option<
    FindingView,
> {
    match rule {
        None => Some((config.on_unknown_id, IssueView::UnknownId { id, file: r.1, line: r.2 })),
        Some(rule) => if rule.0 != r.0 {
            Some(
                (
                    config.on_text_mismatch,
                    IssueView::TextMismatch { id, spec: rule.0, test: r.0, file: r.1, line: r.2 },
                ),
            )
        } else {
            None
        },
    }
}

/// The finding that reference `m` of entry `k` gives.
pub open spec fn entry_ref_finding(
    specs: Seq<(Seq<char>, Located)>,
    tests: Seq<(Seq<char>, Seq<Located>)>,
    config: Config,
    k: int,
    m: int,
) -> Option<FindingView> {
    ref_finding(tests[k].0, tests[k].1[m], lookup(specs, tests[k].0), config)
}

/// The missing-test finding for rule `k`.
pub open spec fn missing_finding(specs: Seq<(Seq<char>, Located)>, config: Config, k: int) -> FindingView {
    (config.on_missing_test, IssueView::MissingTest { id: specs[k].0, file: specs[k].1.1, line: specs[k].1.2 })
}

proof fn lemma_ref_findings_contains(
    id: Seq<char>,
    refs: Seq<Located>,
    rule: Option<Located>,
    config: Config,
    n: nat,
    f: FindingView,
)
    requires
        n <= refs.len(),
    ensures
        ref_findings(id, refs, rule, config, n).contains(f) == exists|m: int|
            0 <= m < n && ref_finding(id, #[trigger] refs[m], rule, config) == Some(f),
    decreases n,
{
    if n > 0 {
        lemma_ref_findings_contains(id, refs, rule, config, (n - 1) as nat, f);
        let prev = ref_findings(id, refs, rule, config, (n - 1) as nat);
        let cur = ref_findings(id, refs, rule, config, n);
        if cur.contains(f) {
            let i = choose|i: int| 0 <= i < cur.len() && cur[i] == f;
            if i < prev.len() {
                assert(prev[i] == f);
                assert(prev.contains(f));
            } else {
                assert(ref_finding(id, refs[n - 1], rule, config) == Some(f));
            }
        }
        if exists|m: int| 0 <= m < n && ref_finding(id, #[trigger] refs[m], rule, config) == Some(f) {
            let m = choose|m: int| 0 <= m < n && ref_finding(id, #[trigger] refs[m], rule, config) == Some(f);
            if m < n - 1 {
                assert(prev.contains(f));
                let i = choose|i: int| 0 <= i < prev.len() && prev[i] == f;
                assert(cur[i] == f);
            } else {
                assert(cur[cur.len() - 1] == f);
            }
        }
    }
}

proof fn lemma_test_findings_contains(
    tests: Seq<(Seq<char>, Seq<Located>)>,
    specs: Seq<(Seq<char>, Located)>,
    config: Config,
    n: nat,
    f: FindingView,
)
    requires
        n <= tests.len(),
    ensures
        test_findings(tests, specs, config, n).contains(f) == exists|k: int, m: int|
            0 <= k < n && 0 <= m < tests[k].1.len() && #[trigger] entry_ref_finding(specs, tests, config, k, m) == Some(f),
    decreases n,
{
    if n > 0 {
        lemma_test_findings_contains(tests, specs, config, (n - 1) as nat, f);
        let e = tests[n - 1];
        let prev = test_findings(tests, specs, config, (n - 1) as nat);
        let last = ref_findings(e.0, e.1, lookup(specs, e.0), config, e.1.len());
        lemma_ref_findings_contains(e.0, e.1, lookup(specs, e.0), config, e.1.len(), f);
        let cur = test_findings(tests, specs, config, n);
        assert(cur == prev + last);
        if cur.contains(f) {
            let i = choose|i: int| 0 <= i < cur.len() && cur[i] == f;
            if i < prev.len() {
                assert(prev[i] == f);
                assert(prev.contains(f));
            } else {
                assert(last[i - prev.len()] == f);
                assert(last.contains(f));
                let m = choose|m: int| 0 <= m < e.1.len() && ref_finding(e.0, #[trigger] e.1[m], lookup(specs, e.0), config) == Some(f);
                assert(entry_ref_finding(specs, tests, config, n - 1, m) == Some(f));
            }
        }
        if exists|k: int, m: int|
            0 <= k < n && 0 <= m < tests[k].1.len() && #[trigger] entry_ref_finding(specs, tests, config, k, m) == Some(f) {
            let (k, m) = choose|k: int, m: int|
                0 <= k < n && 0 <= m < tests[k].1.len() && #[trigger] entry_ref_finding(specs, tests, config, k, m) == Some(f);
            if k < n - 1 {
                assert(prev.contains(f));
                let i = choose|i: int| 0 <= i < prev.len() && prev[i] == f;
                assert(cur[i] == f);
            } else {
                assert(ref_finding(e.0, e.1[m], lookup(specs, e.0), config) == Some(f));
                assert(last.contains(f));
                let i = choose|i: int| 0 <= i < last.len() && last[i] == f;
                assert(cur[prev.len() + i] == f);
            }
        }
    }
}

proof fn lemma_missing_findings_contains(
    specs: Seq<(Seq<char>, Located)>,
    tests: Seq<(Seq<char>, Seq<Located>)>,
    config: Config,
    n: nat,
    f: FindingView,
)
    requires
        n <= specs.len(),
    ensures
        missing_findings(specs, tests, config, n).contains(f) == exists|k: int|
            0 <= k < n && !has_key(tests, specs[k].0) && #[trigger] missing_finding(specs, config, k) == f,
    decreases n,
{
    if n > 0 {
        lemma_missing_findings_contains(specs, tests, config, (n - 1) as nat, f);
        let prev = missing_findings(specs, tests, config, (n - 1) as nat);
        let cur = missing_findings(specs, tests, config, n);
        if cur.contains(f) {
            let i = choose|i: int| 0 <= i < cur.len() && cur[i] == f;
            if i < prev.len() {
                assert(prev[i] == f);
                assert(prev.contains(f));
            } else {
                assert(missing_finding(specs, config, n - 1) == f);
            }
        }
        if exists|k: int| 0 <= k < n && !has_key(tests, specs[k].0) && #[trigger] missing_finding(specs, config, k) == f {
            let k = choose|k: int| 0 <= k < n && !has_key(tests, specs[k].0) && #[trigger] missing_finding(specs, config, k) == f;
            if k < n - 1 {
                assert(prev.contains(f));
                let i = choose|i: int| 0 <= i < prev.len() && prev[i] == f;
                assert(cur[i] == f);
            } else {
                assert(cur[cur.len() - 1] == f);
            }
        }
    }
}

/// A finding is reported exactly where the check makes it: for a glob that
/// matched no file, for a reference whose id no current spec defines or whose
/// text differs from the rule's, or for a rule that no test references.
pub proof fn law_findings_exactly(
    specs: Seq<(Seq<char>, Located)>,
    spec_files: usize,
    tests: Seq<(Seq<char>, Seq<Located>)>,
    test_files: usize,
    config: Config,
    f: FindingView,
)
    ensures
        expected_findings(specs, spec_files, tests, test_files, config).contains(f) == {
            ||| empty_glob_findings(spec_files, test_files, config.on_empty_glob).contains(f)
            ||| exists|k: int, m: int|
                0 <= k < tests.len() && 0 <= m < tests[k].1.len() && #[trigger] entry_ref_finding(
                    specs,
                    tests,
                    config,
                    k,
                    m,
                ) == Some(f)
            ||| exists|k: int|
                0 <= k < specs.len() && !has_key(tests, specs[k].0) && #[trigger] missing_finding(
                    specs,
                    config,
                    k,
                ) == f
        },
{
    let lt = |a: FindingView, b: FindingView| finding_before(a, b);
    let all = unsorted_findings(specs, spec_files, tests, test_files, config);
    lemma_insertion_sort_contains(all, lt, f);
    lemma_test_findings_contains(tests, specs, config, tests.len(), f);
    lemma_missing_findings_contains(specs, tests, config, specs.len(), f);
    let a = empty_glob_findings(spec_files, test_files, config.on_empty_glob);
    let b = test_findings(tests, specs, config, tests.len());
    let c = missing_findings(specs, tests, config, specs.len());
    assert(all == a + b + c);
    if all.contains(f) {
        let i = choose|i: int| 0 <= i < all.len() && all[i] == f;
        if i < a.len() {
            assert(a[i] == f);
        } else if i < a.len() + b.len() {
            assert(b[i - a.len()] == f);
        } else {
            assert(c[i - a.len() - b.len()] == f);
        }
    }
    if a.contains(f) {
        let i = choose|i: int| 0 <= i < a.len() && a[i] == f;
        assert(all[i] == f);
    }
    if b.contains(f) {
        let i = choose|i: int| 0 <= i < b.len() && b[i] == f;
        assert(all[a.len() + i] == f);
    }
    if c.contains(f) {
        let i = choose|i: int| 0 <= i < c.len() && c[i] == f;
        assert(all[a.len() + b.len() + i] == f);
    }
}

/// A test that references an id that no current spec defines is reported.
pub proof fn law_unknown_id_reported(
    specs: Seq<(Seq<char>, Located)>,
    spec_files: usize,
    tests: Seq<(Seq<char>, Seq<Located>)>,
    test_files: usize,
    config: Config,
    k: int,
    m: int,
)
    requires
        0 <= k < tests.len(),
        0 <= m < tests[k].1.len(),
        !has_key(specs, tests[k].0),
    ensures
        expected_findings(specs, spec_files, tests, test_files, config).contains(
            (
                config.on_unknown_id,
                IssueView::UnknownId { id: tests[k].0, file: tests[k].1[m].1, line: tests[k].1[m].2 },
            ),
        ),
{
    let f = (
        config.on_unknown_id,
        IssueView::UnknownId { id: tests[k].0, file: tests[k].1[m].1, line: tests[k].1[m].2 },
    );
    assert(entry_ref_finding(specs, tests, config, k, m) == Some(f));
    law_findings_exactly(specs, spec_files, tests, test_files, config, f);
}

/// A test whose text differs from the text of the rule it references is
/// reported.
pub proof fn law_text_mismatch_reported(
    specs: Seq<(Seq<char>, Located)>,
    spec_files: usize,
    tests: Seq<(Seq<char>, Seq<Located>)>,
    test_files: usize,
    config: Config,
    k: int,
    m: int,
    rule: Located,
)
    requires
        0 <= k < tests.len(),
        0 <= m < tests[k].1.len(),
        lookup(specs, tests[k].0) == Some(rule),
        rule.0 != tests[k].1[m].0,
    ensures
        expected_findings(specs, spec_files, tests, test_files, config).contains(
            (
                config.on_text_mismatch,
                IssueView::TextMismatch {
                    id: tests[k].0,
                    spec: rule.0,
                    test: tests[k].1[m].0,
                    file: tests[k].1[m].1,
                    line: tests[k].1[m].2,
                },
            ),
        ),
{
    let f = (
        config.on_text_mismatch,
        IssueView::TextMismatch {
            id: tests[k].0,
            spec: rule.0,
            test: tests[k].1[m].0,
            file: tests[k].1[m].1,
            line: tests[k].1[m].2,
        },
    );
    assert(entry_ref_finding(specs, tests, config, k, m) == Some(f));
    law_findings_exactly(specs, spec_files, tests, test_files, config, f);
}

/// A current spec rule that no test references is reported.
pub proof fn law_missing_test_reported(
    specs: Seq<(Seq<char>, Located)>,
    spec_files: usize,
    tests: Seq<(Seq<char>, Seq<Located>)>,
    test_files: usize,
    config: Config,
    k: int,
)
    requires
        0 <= k < specs.len(),
        !has_key(tests, specs[k].0),
    ensures
        expected_findings(specs, spec_files, tests, test_files, config).contains(
            (
                config.on_missing_test,
                IssueView::MissingTest { id: specs[k].0, file: specs[k].1.1, line: specs[k].1.2 },
            ),
        ),
{
    let f = missing_finding(specs, config, k);
    law_findings_exactly(specs, spec_files, tests, test_files, config, f);
}

/// Whether some reference names an id that no rule defines.
pub open spec fn some_unknown_id(specs: Seq<(Seq<char>, Located)>, tests: Seq<(Seq<char>, Seq<Located>)>) -> bool {
    exists|k: int| 0 <= k < tests.len() && tests[k].1.len() > 0 && !has_key(specs, #[trigger] tests[k].0)
}

/// Whether some reference gives a text other than its rule's.
pub open spec fn some_text_mismatch(specs: Seq<(Seq<char>, Located)>, tests: Seq<(Seq<char>, Seq<Located>)>) -> bool {
    exists|k: int, m: int|
        0 <= k < tests.len() && 0 <= m < tests[k].1.len() && (lookup(specs, tests[k].0) matches Some(rule)
            && rule.0 != #[trigger] tests[k].1[m].0)
}

/// Whether some rule has no reference.
pub open spec fn some_missing_test(specs: Seq<(Seq<char>, Located)>, tests: Seq<(Seq<char>, Seq<Located>)>) -> bool {
    exists|k: int| 0 <= k < specs.len() && !has_key(tests, #[trigger] specs[k].0)
}

/// The check fails exactly where one of its findings counts as a failure: a
/// glob that matched no file, an unknown id, a text mismatch or a missing
/// test, each where the configuration makes that kind a failure.
pub proof fn law_failure_exactly(
    specs: Seq<(Seq<char>, Located)>,
    spec_files: usize,
    tests: Seq<(Seq<char>, Seq<Located>)>,
    test_files: usize,
    config: Config,
)
    ensures
        has_error(expected_findings(specs, spec_files, tests, test_files, config)) == {
            ||| (spec_files == 0 || test_files == 0) && config.on_empty_glob == Severity::Error
            ||| some_unknown_id(specs, tests) && config.on_unknown_id == Severity::Error
            ||| some_text_mismatch(specs, tests) && config.on_text_mismatch == Severity::Error
            ||| some_missing_test(specs, tests) && config.on_missing_test == Severity::Error
        },
{
    let out = expected_findings(specs, spec_files, tests, test_files, config);
    let a = empty_glob_findings(spec_files, test_files, config.on_empty_glob);
    if has_error(out) {
        let i = choose|i: int| 0 <= i < out.len() && out[i].0 == Severity::Error;
        let f = out[i];
        law_findings_exactly(specs, spec_files, tests, test_files, config, f);
        if a.contains(f) {
        } else if exists|k: int, m: int|
            0 <= k < tests.len() && 0 <= m < tests[k].1.len() && #[trigger] entry_ref_finding(specs, tests, config, k, m) == Some(f) {
            let (k, m) = choose|k: int, m: int|
                0 <= k < tests.len() && 0 <= m < tests[k].1.len() && #[trigger] entry_ref_finding(specs, tests, config, k, m) == Some(f);
            if lookup(specs, tests[k].0) is None {
                if has_key(specs, tests[k].0) {
                }
                assert(!has_key(specs, tests[k].0));
                assert(some_unknown_id(specs, tests));
            } else {
                assert(tests[k].1[m] == tests[k].1[m]);
                assert(some_text_mismatch(specs, tests));
            }
        } else {
            let k = choose|k: int|
                0 <= k < specs.len() && !has_key(tests, specs[k].0) && #[trigger] missing_finding(specs, config, k) == f;
            assert(some_missing_test(specs, tests));
        }
    }
    if (spec_files == 0 || test_files == 0) && config.on_empty_glob == Severity::Error {
        let f = if spec_files == 0 {
            (config.on_empty_glob, IssueView::EmptySpecGlobs)
        } else {
            (config.on_empty_glob, IssueView::EmptyTestGlobs)
        };
        assert(a.contains(f)) by {
            if spec_files == 0 {
                assert(a[0] == f);
            } else {
                assert(a[0] == f);
            }
        }
        law_findings_exactly(specs, spec_files, tests, test_files, config, f);
        let i = choose|i: int| 0 <= i < out.len() && out[i] == f;
        assert(out[i].0 == Severity::Error);
    }
    if some_unknown_id(specs, tests) && config.on_unknown_id == Severity::Error {
        let k = choose|k: int| 0 <= k < tests.len() && tests[k].1.len() > 0 && !has_key(specs, #[trigger] tests[k].0);
        law_unknown_id_reported(specs, spec_files, tests, test_files, config, k, 0);
        let f = (config.on_unknown_id, IssueView::UnknownId { id: tests[k].0, file: tests[k].1[0].1, line: tests[k].1[0].2 });
        let i = choose|i: int| 0 <= i < out.len() && out[i] == f;
        assert(out[i].0 == Severity::Error);
    }
    if some_text_mismatch(specs, tests) && config.on_text_mismatch == Severity::Error {
        let (k, m) = choose|k: int, m: int|
            0 <= k < tests.len() && 0 <= m < tests[k].1.len() && (lookup(specs, tests[k].0) matches Some(rule)
                && rule.0 != #[trigger] tests[k].1[m].0);
        let rule = lookup(specs, tests[k].0).unwrap();
        law_text_mismatch_reported(specs, spec_files, tests, test_files, config, k, m, rule);
        let f = (config.on_text_mismatch, IssueView::TextMismatch {
            id: tests[k].0,
            spec: rule.0,
            test: tests[k].1[m].0,
            file: tests[k].1[m].1,
            line: tests[k].1[m].2,
        });
        let i = choose|i: int| 0 <= i < out.len() && out[i] == f;
        assert(out[i].0 == Severity::Error);
    }
    if some_missing_test(specs, tests) && config.on_missing_test == Severity::Error {
        let k = choose|k: int| 0 <= k < specs.len() && !has_key(tests, #[trigger] specs[k].0);
        law_missing_test_reported(specs, spec_files, tests, test_files, config, k);
        let f = missing_finding(specs, config, k);
        let i = choose|i: int| 0 <= i < out.len() && out[i] == f;
        assert(out[i].0 == Severity::Error);
    }
}

// ---------------------------------------------------------------------------
// Rule text
// ---------------------------------------------------------------------------

/// A trailing period does not count: a text without surrounding whitespace
/// and without a final period normalises to itself, and so does it with a
/// period added. So `writes JSON to stdout.` in a spec matches
/// `writes JSON to stdout` in a test.
pub proof fn law_trailing_period_ignored(s: Seq<char>)
    requires
        s.len() > 0 ==> !is_white_space(s[0]) && !is_white_space(s.last()) && s.last() != '.',
    ensures
        normalized(s) == s,
        normalized(s.push('.')) == s,
{
    let t = s.push('.');
    assert(!is_white_space('.'));
    assert(trim_start(s) == s);
    assert(trim_end(s) == s);
    assert(trim_start(t) == t) by {
        if s.len() > 0 {
            assert(t[0] == s[0]);
        }
    }
    assert(trim_end(t) == t) by {
        assert(t.last() == '.');
    }
    assert(trimmed(t) == t);
    assert(t.drop_last() =~= s);
}

// ---------------------------------------------------------------------------
// Frontmatter
// ---------------------------------------------------------------------------

/// Only the frontmatter decides whether a spec is current: for a file whose
/// lines are a `---` line, the lines `f` of which none is a `---` line, a
/// second `---` line and anything after it (a body that mentions
/// `status: draft`, say), the answer is that of the `status:` lines of `f`.
/// A `---` line may end with a carriage return.
pub proof fn law_status_only_from_frontmatter(
    content: Seq<char>,
    open: Seq<char>,
    f: Seq<Seq<char>>,
    close: Seq<char>,
    rest: Seq<Seq<char>>,
)
    requires
        split_lines(content) == seq![open] + f + seq![close] + rest,
        is_delimiter(open),
        is_delimiter(close),
        forall|i: int| 0 <= i < f.len() ==> !is_delimiter(#[trigger] f[i]),
    ensures
        current_spec(content) == status_says_current(f),
{
    let ls = split_lines(content);
    let e: int = f.len() as int + 1;
    assert(ls[0] == open);
    assert(ls[e] == close);
    assert forall|i: int| 0 < i < e implies !is_delimiter(#[trigger] ls[i]) by {
        assert(ls[i] == f[i - 1]);
    }
    assert(closes_frontmatter(ls, e));
    assert(opens_frontmatter(ls));
    let c = choose|c: int| closes_frontmatter(ls, c);
    lemma_closes_frontmatter_unique(ls, c, e);
    assert(ls.subrange(1, e) =~= f);
}

/// A file whose first line is not a `---` line is current.
pub proof fn law_no_frontmatter_is_current(content: Seq<char>)
    requires
        !opens_frontmatter(split_lines(content)),
    ensures
        current_spec(content),
{
}

// ---------------------------------------------------------------------------
// Duplicate references
// ---------------------------------------------------------------------------

/// The key of a reference, in the shape of a finding key.
pub open spec fn ref_key(r: Located) -> (u8, Seq<char>, usize, Seq<char>) {
    (0, r.1, r.2, r.0)
}

proof fn lemma_ref_before_key(a: Located, b: Located)
    ensures
        ref_before(a, b) == key_before(ref_key(a), ref_key(b)),
{
    crate::collect::lemma_ref_before_unfold(a, b);
}

proof fn lemma_ref_before_order()
    ensures
        asymmetric(|a: Located, b: Located| ref_before(a, b)),
        negatively_transitive(|a: Located, b: Located| ref_before(a, b)),
{
    assert forall|a: Located, b: Located| #[trigger] ref_before(a, b) implies !ref_before(b, a) by {
        lemma_ref_before_key(a, b);
        lemma_ref_before_key(b, a);
        lemma_key_order_flip(ref_key(a), ref_key(b));
    }
    assert forall|a: Located, b: Located, c: Located|
        !ref_before(a, b) && !ref_before(b, c) implies !ref_before(a, c) by {
        let (ka, kb, kc) = (ref_key(a), ref_key(b), ref_key(c));
        lemma_ref_before_key(a, b);
        lemma_ref_before_key(b, c);
        lemma_ref_before_key(a, c);
        lemma_key_order_flip(ka, kb);
        lemma_key_order_flip(kb, kc);
        lemma_key_order_flip(ka, kc);
        lemma_key_order_trans(kc, kb, ka);
    }
}

/// Two references are the same exactly where neither sorts before the other.
proof fn lemma_same_ref_iff_tied(a: Located, b: Located)
    ensures
        same_ref(a, b) == (!ref_before(a, b) && !ref_before(b, a)),
{
    lemma_ref_before_key(a, b);
    lemma_ref_before_key(b, a);
    crate::collect::lemma_same_ref_unfold(a, b);
    lemma_key_order_flip(ref_key(a), ref_key(b));
    crate::paths::lemma_text_order_equal(a.0, b.0);
    lemma_parts_order_flip(path_components(a.1), path_components(b.1));
}

proof fn lemma_same_ref_reflexive(x: Located)
    ensures
        same_ref(x, x),
{
    crate::collect::lemma_same_ref_unfold(x, x);
    crate::paths::lemma_parts_order_equal(path_components(x.1), path_components(x.1));
}

/// What deduplication keeps stands in its input.
proof fn lemma_dedup_refs_from_input(s: Seq<Located>)
    ensures
        forall|i: int| 0 <= i < dedup_refs(s).len() ==> s.contains(#[trigger] dedup_refs(s)[i]),
    decreases s.len(),
{
    if s.len() > 0 {
        let t = s.drop_last();
        lemma_dedup_refs_from_input(t);
        let d = dedup_refs(t);
        let r = dedup_refs(s);
        assert forall|i: int| 0 <= i < r.len() implies s.contains(#[trigger] r[i]) by {
            if i < d.len() {
                assert(r[i] == d[i]);
                assert(t.contains(d[i]));
                let k = choose|k: int| 0 <= k < t.len() && t[k] == d[i];
                assert(s[k] == d[i]);
            } else {
                assert(s[s.len() - 1] == r[i]);
            }
        }
    }
}

/// No two neighbours that deduplication keeps are the same.
proof fn lemma_dedup_refs_neighbours(s: Seq<Located>)
    ensures
        forall|i: int|
            0 < i < dedup_refs(s).len() ==> !same_ref(dedup_refs(s)[i - 1], #[trigger] dedup_refs(s)[i]),
    decreases s.len(),
{
    if s.len() > 0 {
        let t = s.drop_last();
        lemma_dedup_refs_neighbours(t);
        let d = dedup_refs(t);
        let r = dedup_refs(s);
        assert forall|i: int| 0 < i < r.len() implies !same_ref(r[i - 1], #[trigger] r[i]) by {
            if i < d.len() {
                assert(r[i - 1] == d[i - 1] && r[i] == d[i]);
            }
        }
    }
}

/// Every element of the input is the same as one that deduplication keeps.
proof fn lemma_dedup_refs_represents(s: Seq<Located>)
    ensures
        forall|i: int| #![trigger s[i]] 0 <= i < s.len() ==> exists|j: int|
            0 <= j < dedup_refs(s).len() && same_ref(#[trigger] dedup_refs(s)[j], s[i]),
    decreases s.len(),
{
    if s.len() > 0 {
        let t = s.drop_last();
        lemma_dedup_refs_represents(t);
        let d = dedup_refs(t);
        let r = dedup_refs(s);
        assert forall|i: int| #![trigger s[i]] 0 <= i < s.len() implies exists|j: int|
            0 <= j < r.len() && same_ref(#[trigger] r[j], s[i]) by {
            if i < s.len() - 1 {
                assert(s[i] == t[i]);
                let j = choose|j: int| 0 <= j < d.len() && same_ref(#[trigger] d[j], t[i]);
                assert(r[j] == d[j]);
            } else if r.len() == d.len() {
                assert(r[d.len() - 1] == d.last());
            } else {
                lemma_same_ref_reflexive(s[i]);
                assert(r[r.len() - 1] == s[i]);
            }
        }
    }
}

/// Deduplicating a sorted sequence keeps it sorted.
proof fn lemma_dedup_refs_sorted(s: Seq<Located>)
    requires
        sorted_by_before(s, |a: Located, b: Located| ref_before(a, b)),
    ensures
        sorted_by_before(dedup_refs(s), |a: Located, b: Located| ref_before(a, b)),
    decreases s.len(),
{
    let lt = |a: Located, b: Located| ref_before(a, b);
    if s.len() > 0 {
        let t = s.drop_last();
        assert(sorted_by_before(t, lt)) by {
            assert forall|i: int, j: int| 0 <= i < j < t.len() implies !lt(#[trigger] t[j], #[trigger] t[i]) by {
                assert(t[i] == s[i] && t[j] == s[j]);
            }
        }
        lemma_dedup_refs_sorted(t);
        lemma_dedup_refs_from_input(t);
        let d = dedup_refs(t);
        let r = dedup_refs(s);
        assert forall|i: int, j: int| 0 <= i < j < r.len() implies !lt(#[trigger] r[j], #[trigger] r[i]) by {
            if j < d.len() {
                assert(r[i] == d[i] && r[j] == d[j]);
            } else {
                assert(r[i] == d[i]);
                assert(t.contains(d[i]));
                let q = choose|q: int| 0 <= q < t.len() && t[q] == d[i];
                assert(s[q] == d[i]);
                assert(r[j] == s[s.len() - 1]);
            }
        }
    }
}

/// After deduplication no reference stands twice.
pub proof fn law_dedupe_no_duplicates(refs: Seq<Located>)
    ensures
        forall|i: int, j: int|
            0 <= i < j < deduped(refs).len() ==> !same_ref(#[trigger] deduped(refs)[i], #[trigger] deduped(refs)[j]),
{
    let lt = |a: Located, b: Located| ref_before(a, b);
    let sorted = insertion_sort(refs, lt);
    lemma_ref_before_order();
    lemma_insertion_sort_sorted(refs, lt);
    lemma_dedup_refs_sorted(sorted);
    lemma_dedup_refs_neighbours(sorted);
    let d = deduped(refs);
    assert forall|i: int, j: int| 0 <= i < j < d.len() implies !same_ref(#[trigger] d[i], #[trigger] d[j]) by {
        if same_ref(d[i], d[j]) && i < j - 1 {
            lemma_same_ref_iff_tied(d[i], d[j]);
            lemma_same_ref_iff_tied(d[j - 1], d[j]);
            assert(!lt(d[j - 1], d[i]));
            assert(!lt(d[j], d[j - 1]));
            assert(!lt(d[i], d[j]));
            assert(!lt(d[j - 1], d[j]));
        }
    }
}

/// Deduplication drops only duplicates: every reference of the input is
/// the same (same file as paths compare, same line, same text) as one that
/// is kept, and every one kept stands in the input.
pub proof fn law_dedupe_keeps_each_reference(refs: Seq<Located>)
    ensures
        forall|i: int| #![trigger refs[i]] 0 <= i < refs.len() ==> exists|j: int|
            0 <= j < deduped(refs).len() && same_ref(#[trigger] deduped(refs)[j], refs[i]),
        forall|j: int| 0 <= j < deduped(refs).len() ==> refs.contains(#[trigger] deduped(refs)[j]),
{
    let lt = |a: Located, b: Located| ref_before(a, b);
    let sorted = insertion_sort(refs, lt);
    lemma_dedup_refs_represents(sorted);
    lemma_dedup_refs_from_input(sorted);
    let d = deduped(refs);
    assert forall|i: int| #![trigger refs[i]] 0 <= i < refs.len() implies exists|j: int|
        0 <= j < d.len() && same_ref(#[trigger] d[j], refs[i]) by {
        lemma_insertion_sort_contains(refs, lt, refs[i]);
        let k = choose|k: int| 0 <= k < sorted.len() && sorted[k] == refs[i];
        assert(sorted[k] == refs[i]);
    }
    assert forall|j: int| 0 <= j < d.len() implies refs.contains(#[trigger] d[j]) by {
        assert(sorted.contains(d[j]));
        lemma_insertion_sort_contains(refs, lt, d[j]);
    }
}


// ---------------------------------------------------------------------------
// The order of the entries does not matter
// ---------------------------------------------------------------------------

/// Findings that sort neither before nor after `x`.
pub open spec fn tied_finding(x: FindingView) -> spec_fn(FindingView) -> bool {
    tied_with(|a: FindingView, b: FindingView| finding_before(a, b), x)
}

/// Every finding of `s` is about id `id` (and not about empty globs).
pub open spec fn all_about(s: Seq<FindingView>, id: Seq<char>) -> bool {
    forall|i: int| 0 <= i < s.len() ==> finding_key(#[trigger] s[i].1).0 == 1 && finding_key(s[i].1).3 == id
}

/// Findings tied with each other have the same rank, and, past the
/// empty-glob findings, the same id.
proof fn lemma_tied_same_id(x: FindingView, y: FindingView)
    requires
        tied_finding(x)(y),
    ensures
        finding_key(x.1).0 == finding_key(y.1).0,
        finding_key(x.1).0 == 1 ==> finding_key(x.1).3 == finding_key(y.1).3,
{
    let (kx, ky) = (finding_key(x.1), finding_key(y.1));
    lemma_key_order_before(kx, ky);
    lemma_key_order_before(ky, kx);
    lemma_key_order_flip(kx, ky);
    crate::paths::lemma_text_order_equal(kx.3, ky.3);
}

/// None of the findings about `id` is tied with a finding about another id
/// or about empty globs.
proof fn lemma_filter_other_id(s: Seq<FindingView>, id: Seq<char>, x: FindingView)
    requires
        all_about(s, id),
        !(finding_key(x.1).0 == 1 && finding_key(x.1).3 == id),
    ensures
        s.filter(tied_finding(x)) == Seq::<FindingView>::empty(),
{
    broadcast use vstd::seq_lib::group_filter_ensures;
    let p = tied_finding(x);
    let f = s.filter(p);
    if f.len() > 0 {
        s.lemma_filter_pred(p, 0);
        s.lemma_filter_contains_rev(p, f[0]);
        let j = choose|j: int| 0 <= j < s.len() && s[j] == f[0];
        lemma_tied_same_id(x, f[0]);
        assert(finding_key(s[j].1).0 == 1);
    }
    assert(f =~= Seq::<FindingView>::empty());
}

proof fn lemma_ref_findings_about(
    id: Seq<char>,
    refs: Seq<Located>,
    rule: Option<Located>,
    config: Config,
    n: nat,
)
    ensures
        all_about(ref_findings(id, refs, rule, config, n), id),
    decreases n,
{
    if n > 0 {
        lemma_ref_findings_about(id, refs, rule, config, (n - 1) as nat);
    }
}

/// The one finding, if any, that a rule gives for want of a test.
pub open spec fn missing_one(
    e: (Seq<char>, Located),
    tests: Seq<(Seq<char>, Seq<Located>)>,
    config: Config,
) -> Seq<FindingView> {
    if !has_key(tests, e.0) {
        seq![(config.on_missing_test, IssueView::MissingTest { id: e.0, file: e.1.1, line: e.1.2 })]
    } else {
        seq![]
    }
}

/// The findings for the references of the first `n` ids that are tied with
/// `x`: none where none of these ids is the id of `x`.
proof fn lemma_test_filter_none(
    tests: Seq<(Seq<char>, Seq<Located>)>,
    specs: Seq<(Seq<char>, Located)>,
    config: Config,
    n: nat,
    x: FindingView,
)
    requires
        n <= tests.len(),
        finding_key(x.1).0 == 1 ==> forall|i: int| 0 <= i < n ==> tests[i].0 != finding_key(x.1).3,
    ensures
        test_findings(tests, specs, config, n).filter(tied_finding(x)) == Seq::<FindingView>::empty(),
    decreases n,
{
    if n > 0 {
        let e = tests[n - 1];
        lemma_test_filter_none(tests, specs, config, (n - 1) as nat, x);
        let r = ref_findings(e.0, e.1, lookup(specs, e.0), config, e.1.len());
        lemma_ref_findings_about(e.0, e.1, lookup(specs, e.0), config, e.1.len());
        lemma_filter_other_id(r, e.0, x);
        vstd::seq::Seq::filter_distributes_over_add(
            test_findings(tests, specs, config, (n - 1) as nat),
            r,
            tied_finding(x),
        );
    } else {
        reveal(Seq::filter);
    }
}

/// The findings for the references of the first `n` ids that are tied with
/// `x`: those of the entry with the id of `x`, where it stands among them.
proof fn lemma_test_filter_one(
    tests: Seq<(Seq<char>, Seq<Located>)>,
    specs: Seq<(Seq<char>, Located)>,
    config: Config,
    n: nat,
    x: FindingView,
    i: int,
)
    requires
        n <= tests.len(),
        0 <= i < n,
        distinct_keys(tests),
        finding_key(x.1).0 == 1,
        tests[i].0 == finding_key(x.1).3,
    ensures
        test_findings(tests, specs, config, n).filter(tied_finding(x)) == ref_findings(
            tests[i].0,
            tests[i].1,
            lookup(specs, tests[i].0),
            config,
            tests[i].1.len(),
        ).filter(tied_finding(x)),
    decreases n,
{
    let e = tests[n - 1];
    let r = ref_findings(e.0, e.1, lookup(specs, e.0), config, e.1.len());
    vstd::seq::Seq::filter_distributes_over_add(
        test_findings(tests, specs, config, (n - 1) as nat),
        r,
        tied_finding(x),
    );
    if i == n - 1 {
        lemma_test_filter_none(tests, specs, config, (n - 1) as nat, x);
        assert(Seq::<FindingView>::empty() + r.filter(tied_finding(x)) =~= r.filter(tied_finding(x)));
    } else {
        lemma_test_filter_one(tests, specs, config, (n - 1) as nat, x, i);
        lemma_ref_findings_about(e.0, e.1, lookup(specs, e.0), config, e.1.len());
        lemma_filter_other_id(r, e.0, x);
        let q = test_findings(tests, specs, config, (n - 1) as nat).filter(tied_finding(x));
        assert(q + Seq::<FindingView>::empty() =~= q);
    }
}

/// The missing-test findings of the first `n` rules that are tied with `x`:
/// none where none of these rules has the id of `x`.
proof fn lemma_missing_filter_none(
    specs: Seq<(Seq<char>, Located)>,
    tests: Seq<(Seq<char>, Seq<Located>)>,
    config: Config,
    n: nat,
    x: FindingView,
)
    requires
        n <= specs.len(),
        finding_key(x.1).0 == 1 ==> forall|i: int| 0 <= i < n ==> specs[i].0 != finding_key(x.1).3,
    ensures
        missing_findings(specs, tests, config, n).filter(tied_finding(x)) == Seq::<FindingView>::empty(),
    decreases n,
{
    if n > 0 {
        let e = specs[n - 1];
        lemma_missing_filter_none(specs, tests, config, (n - 1) as nat, x);
        let m = missing_one(e, tests, config);
        assert(all_about(m, e.0));
        lemma_filter_other_id(m, e.0, x);
        let prev = missing_findings(specs, tests, config, (n - 1) as nat);
        assert(missing_findings(specs, tests, config, n) =~= prev + m);
        vstd::seq::Seq::filter_distributes_over_add(prev, m, tied_finding(x));
    } else {
        reveal(Seq::filter);
    }
}

/// The missing-test findings of the first `n` rules that are tied with `x`:
/// that of the rule with the id of `x`, where it stands among them.
proof fn lemma_missing_filter_one(
    specs: Seq<(Seq<char>, Located)>,
    tests: Seq<(Seq<char>, Seq<Located>)>,
    config: Config,
    n: nat,
    x: FindingView,
    i: int,
)
    requires
        n <= specs.len(),
        0 <= i < n,
        distinct_keys(specs),
        finding_key(x.1).0 == 1,
        specs[i].0 == finding_key(x.1).3,
    ensures
        missing_findings(specs, tests, config, n).filter(tied_finding(x)) == missing_one(
            specs[i],
            tests,
            config,
        ).filter(tied_finding(x)),
    decreases n,
{
    let e = specs[n - 1];
    let m = missing_one(e, tests, config);
    let prev = missing_findings(specs, tests, config, (n - 1) as nat);
    assert(missing_findings(specs, tests, config, n) =~= prev + m);
    vstd::seq::Seq::filter_distributes_over_add(prev, m, tied_finding(x));
    if i == n - 1 {
        lemma_missing_filter_none(specs, tests, config, (n - 1) as nat, x);
        assert(Seq::<FindingView>::empty() + m.filter(tied_finding(x)) =~= m.filter(tied_finding(x)));
    } else {
        lemma_missing_filter_one(specs, tests, config, (n - 1) as nat, x, i);
        assert(all_about(m, e.0));
        lemma_filter_other_id(m, e.0, x);
        let q = prev.filter(tied_finding(x));
        assert(q + Seq::<FindingView>::empty() =~= q);
    }
}

/// With distinct keys, the value that a key looks up is that of the entry
/// with the key.
proof fn lemma_lookup_at<V>(e: Seq<(Seq<char>, V)>, i: int)
    requires
        distinct_keys(e),
        0 <= i < e.len(),
    ensures
        has_key(e, e[i].0),
        lookup(e, e[i].0) == Some(e[i].1),
{
    assert(first_key_at(e, e[i].0, i));
    lemma_first_key(e, e[i].0, i);
}

/// The unsorted findings tied with `x` are the same for two inputs whose
/// keyed lists hold the same entries.
proof fn lemma_unsorted_classes_agree(
    specs1: Seq<(Seq<char>, Located)>,
    specs2: Seq<(Seq<char>, Located)>,
    spec_files: usize,
    tests1: Seq<(Seq<char>, Seq<Located>)>,
    tests2: Seq<(Seq<char>, Seq<Located>)>,
    test_files: usize,
    config: Config,
    x: FindingView,
)
    requires
        distinct_keys(specs1),
        distinct_keys(specs2),
        distinct_keys(tests1),
        distinct_keys(tests2),
        forall|k: Seq<char>| #[trigger] lookup(specs1, k) == lookup(specs2, k),
        forall|k: Seq<char>| #[trigger] lookup(tests1, k) == lookup(tests2, k),
    ensures
        unsorted_findings(specs1, spec_files, tests1, test_files, config).filter(tied_finding(x))
            == unsorted_findings(specs2, spec_files, tests2, test_files, config).filter(
            tied_finding(x),
        ),
{
    let p = tied_finding(x);
    let g = empty_glob_findings(spec_files, test_files, config.on_empty_glob);
    let k = finding_key(x.1).3;
    let t1 = test_findings(tests1, specs1, config, tests1.len());
    let t2 = test_findings(tests2, specs2, config, tests2.len());
    let m1 = missing_findings(specs1, tests1, config, specs1.len());
    let m2 = missing_findings(specs2, tests2, config, specs2.len());
    vstd::seq::Seq::filter_distributes_over_add(g + t1, m1, p);
    vstd::seq::Seq::filter_distributes_over_add(g, t1, p);
    vstd::seq::Seq::filter_distributes_over_add(g + t2, m2, p);
    vstd::seq::Seq::filter_distributes_over_add(g, t2, p);
    // The references.
    assert(t1.filter(p) == t2.filter(p)) by {
        if finding_key(x.1).0 == 1 && has_key(tests1, k) {
            let i1 = choose|i: int| 0 <= i < tests1.len() && tests1[i].0 == k;
            lemma_lookup_at(tests1, i1);
            assert(lookup(tests1, k) == lookup(tests2, k));
            assert(has_key(tests2, k));
            let i2 = choose|i: int| 0 <= i < tests2.len() && tests2[i].0 == k;
            lemma_lookup_at(tests2, i2);
            assert(lookup(specs1, k) == lookup(specs2, k));
            lemma_test_filter_one(tests1, specs1, config, tests1.len(), x, i1);
            lemma_test_filter_one(tests2, specs2, config, tests2.len(), x, i2);
        } else {
            if finding_key(x.1).0 == 1 {
                assert(lookup(tests1, k) == lookup(tests2, k));
                assert(!has_key(tests2, k));
            }
            lemma_test_filter_none(tests1, specs1, config, tests1.len(), x);
            lemma_test_filter_none(tests2, specs2, config, tests2.len(), x);
        }
    }
    // The rules without tests.
    assert(m1.filter(p) == m2.filter(p)) by {
        assert(lookup(tests1, k) == lookup(tests2, k));
        assert(has_key(tests1, k) == has_key(tests2, k));
        if finding_key(x.1).0 == 1 && has_key(specs1, k) {
            let i1 = choose|i: int| 0 <= i < specs1.len() && specs1[i].0 == k;
            lemma_lookup_at(specs1, i1);
            assert(lookup(specs1, k) == lookup(specs2, k));
            assert(has_key(specs2, k));
            let i2 = choose|i: int| 0 <= i < specs2.len() && specs2[i].0 == k;
            lemma_lookup_at(specs2, i2);
            assert(specs1[i1] == specs2[i2]);
            lemma_missing_filter_one(specs1, tests1, config, specs1.len(), x, i1);
            lemma_missing_filter_one(specs2, tests2, config, specs2.len(), x, i2);
        } else {
            if finding_key(x.1).0 == 1 {
                assert(lookup(specs1, k) == lookup(specs2, k));
                assert(!has_key(specs2, k));
            }
            lemma_missing_filter_none(specs1, tests1, config, specs1.len(), x);
            lemma_missing_filter_none(specs2, tests2, config, specs2.len(), x);
        }
    }
}

/// The findings of a check depend on the rules and references, not on the
/// order in which they were collected: two collections that give each id the
/// same rule and the same references give the same findings, in the same
/// order.
pub proof fn law_entry_order_irrelevant(
    specs1: Seq<(Seq<char>, Located)>,
    specs2: Seq<(Seq<char>, Located)>,
    spec_files: usize,
    tests1: Seq<(Seq<char>, Seq<Located>)>,
    tests2: Seq<(Seq<char>, Seq<Located>)>,
    test_files: usize,
    config: Config,
)
    requires
        distinct_keys(specs1),
        distinct_keys(specs2),
        distinct_keys(tests1),
        distinct_keys(tests2),
        forall|k: Seq<char>| #[trigger] lookup(specs1, k) == lookup(specs2, k),
        forall|k: Seq<char>| #[trigger] lookup(tests1, k) == lookup(tests2, k),
    ensures
        expected_findings(specs1, spec_files, tests1, test_files, config) == expected_findings(
            specs2,
            spec_files,
            tests2,
            test_files,
            config,
        ),
{
    let lt = |a: FindingView, b: FindingView| finding_before(a, b);
    let u1 = unsorted_findings(specs1, spec_files, tests1, test_files, config);
    let u2 = unsorted_findings(specs2, spec_files, tests2, test_files, config);
    let e1 = insertion_sort(u1, lt);
    let e2 = insertion_sort(u2, lt);
    lemma_finding_before_asymmetric();
    lemma_finding_before_negatively_transitive();
    lemma_insertion_sort_sorted(u1, lt);
    lemma_insertion_sort_sorted(u2, lt);
    assert forall|x: FindingView| #[trigger] e1.filter(tied_with(lt, x)) == e2.filter(tied_with(lt, x)) by {
        lemma_insertion_sort_stable(u1, lt, x);
        lemma_insertion_sort_stable(u2, lt, x);
        lemma_unsorted_classes_agree(specs1, specs2, spec_files, tests1, tests2, test_files, config, x);
    }
    lemma_sorted_unique(e1, e2, lt);
}

// ---------------------------------------------------------------------------
// Every match in a test file is a reference
// ---------------------------------------------------------------------------

/// Some entry of `e` with key `id` lists `r`.
pub open spec fn has_ref(e: Seq<(Seq<char>, Seq<Located>)>, id: Seq<char>, r: Located) -> bool {
    exists|q: int| 0 <= q < e.len() && e[q].0 == id && e[q].1.contains(r)
}

/// Where a key stands in `e`, some index is the first at which it does.
proof fn lemma_first_key_exists<V>(e: Seq<(Seq<char>, V)>, k: Seq<char>, n: int)
    requires
        0 <= n <= e.len(),
        exists|i: int| 0 <= i < n && e[i].0 == k,
    ensures
        exists|i: int| first_key_at(e, k, i),
    decreases n,
{
    if exists|i: int| 0 <= i < n - 1 && e[i].0 == k {
        lemma_first_key_exists(e, k, n - 1);
    } else {
        assert(first_key_at(e, k, n - 1));
    }
}

/// Adding a reference keeps every reference already listed.
proof fn lemma_append_ref_keeps(
    e: Seq<(Seq<char>, Seq<Located>)>,
    k: Seq<char>,
    r2: Located,
    id: Seq<char>,
    r: Located,
)
    requires
        has_ref(e, id, r),
    ensures
        has_ref(append_ref(e, k, r2), id, r),
{
    let q = choose|q: int| 0 <= q < e.len() && e[q].0 == id && e[q].1.contains(r);
    let x = choose|x: int| 0 <= x < e[q].1.len() && e[q].1[x] == r;
    let e2 = append_ref(e, k, r2);
    if has_key(e, k) {
        lemma_first_key_exists(e, k, e.len() as int);
        let i = choose|i: int| first_key_at(e, k, i);
        if i == q {
            assert(e2[q].1 == e[q].1.push(r2));
            assert(e2[q].1[x] == r);
        } else {
            assert(e2[q] == e[q]);
        }
        assert(e2[q].0 == id && e2[q].1.contains(r));
    } else {
        assert(e2[q] == e[q]);
    }
}

/// Adding a reference lists it under its id.
proof fn lemma_append_ref_adds(e: Seq<(Seq<char>, Seq<Located>)>, id: Seq<char>, r: Located)
    ensures
        has_ref(append_ref(e, id, r), id, r),
{
    let e2 = append_ref(e, id, r);
    if has_key(e, id) {
        lemma_first_key_exists(e, id, e.len() as int);
        let i = choose|i: int| first_key_at(e, id, i);
        assert(e2[i].1 == e[i].1.push(r));
        assert(e2[i].1[e[i].1.len() as int] == r);
        assert(e2[i].0 == id && e2[i].1.contains(r));
    } else {
        assert(e2[e.len() as int] == (id, seq![r]));
        assert(seq![r][0] == r);
        assert(e2[e.len() as int].1.contains(r));
    }
}

proof fn lemma_groups_keep(
    acc: Seq<(Seq<char>, Seq<Located>)>,
    groups: Seq<(Option<Seq<char>>, Option<Seq<char>>)>,
    file: Seq<char>,
    line: usize,
    n: nat,
    id: Seq<char>,
    r: Located,
)
    requires
        has_ref(acc, id, r),
    ensures
        has_ref(refs_in_groups(acc, groups, file, line, n), id, r),
    decreases n,
{
    if n > 0 {
        let prev = refs_in_groups(acc, groups, file, line, (n - 1) as nat);
        lemma_groups_keep(acc, groups, file, line, (n - 1) as nat, id, r);
        match groups[n - 1] {
            (Some(i2), Some(t2)) => lemma_append_ref_keeps(prev, i2, (normalized(t2), file, line), id, r),
            _ => {},
        }
    }
}

proof fn lemma_groups_hit(
    acc: Seq<(Seq<char>, Seq<Located>)>,
    groups: Seq<(Option<Seq<char>>, Option<Seq<char>>)>,
    file: Seq<char>,
    line: usize,
    n: nat,
    m: int,
    id: Seq<char>,
    text: Seq<char>,
)
    requires
        0 <= m < n <= groups.len(),
        groups[m] == (Some(id), Some(text)),
    ensures
        has_ref(refs_in_groups(acc, groups, file, line, n), id, (normalized(text), file, line)),
    decreases n,
{
    let prev = refs_in_groups(acc, groups, file, line, (n - 1) as nat);
    if m == n - 1 {
        lemma_append_ref_adds(prev, id, (normalized(text), file, line));
    } else {
        lemma_groups_hit(acc, groups, file, line, (n - 1) as nat, m, id, text);
        match groups[n - 1] {
            (Some(i2), Some(t2)) => lemma_append_ref_keeps(
                prev,
                i2,
                (normalized(t2), file, line),
                id,
                (normalized(text), file, line),
            ),
            _ => {},
        }
    }
}

proof fn lemma_line_keep(
    acc: Seq<(Seq<char>, Seq<Located>)>,
    patterns: Seq<Seq<char>>,
    line: Seq<char>,
    file: Seq<char>,
    lineno: usize,
    m: nat,
    id: Seq<char>,
    r: Located,
)
    requires
        has_ref(acc, id, r),
    ensures
        has_ref(refs_in_line(acc, patterns, line, file, lineno, m), id, r),
    decreases m,
{
    if m > 0 {
        lemma_line_keep(acc, patterns, line, file, lineno, (m - 1) as nat, id, r);
        let g = regex_all_groups(patterns[m - 1], line);
        lemma_groups_keep(
            refs_in_line(acc, patterns, line, file, lineno, (m - 1) as nat),
            g,
            file,
            lineno,
            g.len(),
            id,
            r,
        );
    }
}

proof fn lemma_line_hit(
    acc: Seq<(Seq<char>, Seq<Located>)>,
    patterns: Seq<Seq<char>>,
    line: Seq<char>,
    file: Seq<char>,
    lineno: usize,
    m: nat,
    j: int,
    g: int,
    id: Seq<char>,
    text: Seq<char>,
)
    requires
        0 <= j < m <= patterns.len(),
        0 <= g < regex_all_groups(patterns[j], line).len(),
        regex_all_groups(patterns[j], line)[g] == (Some(id), Some(text)),
    ensures
        has_ref(refs_in_line(acc, patterns, line, file, lineno, m), id, (normalized(text), file, lineno)),
    decreases m,
{
    let prev = refs_in_line(acc, patterns, line, file, lineno, (m - 1) as nat);
    let gs = regex_all_groups(patterns[m - 1], line);
    if j == m - 1 {
        lemma_groups_hit(prev, gs, file, lineno, gs.len(), g, id, text);
    } else {
        lemma_line_hit(acc, patterns, line, file, lineno, (m - 1) as nat, j, g, id, text);
        lemma_groups_keep(prev, gs, file, lineno, gs.len(), id, (normalized(text), file, lineno));
    }
}

proof fn lemma_lines_keep(
    acc: Seq<(Seq<char>, Seq<Located>)>,
    patterns: Seq<Seq<char>>,
    lines: Seq<Seq<char>>,
    file: Seq<char>,
    n: nat,
    id: Seq<char>,
    r: Located,
)
    requires
        has_ref(acc, id, r),
    ensures
        has_ref(refs_in_lines(acc, patterns, lines, file, n), id, r),
    decreases n,
{
    if n > 0 {
        lemma_lines_keep(acc, patterns, lines, file, (n - 1) as nat, id, r);
        lemma_line_keep(
            refs_in_lines(acc, patterns, lines, file, (n - 1) as nat),
            patterns,
            lines[n - 1],
            file,
            n as usize,
            patterns.len(),
            id,
            r,
        );
    }
}

proof fn lemma_lines_hit(
    acc: Seq<(Seq<char>, Seq<Located>)>,
    patterns: Seq<Seq<char>>,
    lines: Seq<Seq<char>>,
    file: Seq<char>,
    n: nat,
    i: int,
    j: int,
    g: int,
    id: Seq<char>,
    text: Seq<char>,
)
    requires
        0 <= i < n <= lines.len(),
        0 <= j < patterns.len(),
        0 <= g < regex_all_groups(patterns[j], lines[i]).len(),
        regex_all_groups(patterns[j], lines[i])[g] == (Some(id), Some(text)),
    ensures
        has_ref(
            refs_in_lines(acc, patterns, lines, file, n),
            id,
            (normalized(text), file, (i + 1) as usize),
        ),
    decreases n,
{
    let prev = refs_in_lines(acc, patterns, lines, file, (n - 1) as nat);
    if i == n - 1 {
        lemma_line_hit(prev, patterns, lines[i], file, n as usize, patterns.len(), j, g, id, text);
    } else {
        lemma_lines_hit(acc, patterns, lines, file, (n - 1) as nat, i, j, g, id, text);
        lemma_line_keep(
            prev,
            patterns,
            lines[n - 1],
            file,
            n as usize,
            patterns.len(),
            id,
            (normalized(text), file, (i + 1) as usize),
        );
    }
}

proof fn lemma_files_hit(
    patterns: Seq<Seq<char>>,
    root: Seq<char>,
    files: Seq<(Seq<char>, Seq<char>)>,
    k: int,
    i: int,
    j: int,
    g: int,
    id: Seq<char>,
    text: Seq<char>,
)
    requires
        0 <= k < files.len(),
        0 <= i < split_lines(files[k].1).len(),
        0 <= j < patterns.len(),
        0 <= g < regex_all_groups(patterns[j], split_lines(files[k].1)[i]).len(),
        regex_all_groups(patterns[j], split_lines(files[k].1)[i])[g] == (Some(id), Some(text)),
    ensures
        has_ref(
            refs_in_files(patterns, root, files),
            id,
            (normalized(text), relative_path(root, files[k].0), (i + 1) as usize),
        ),
    decreases files.len(),
{
    let prev = refs_in_files(patterns, root, files.drop_last());
    let f = files.last();
    let ls = split_lines(f.1);
    if k == files.len() - 1 {
        lemma_lines_hit(prev, patterns, ls, relative_path(root, f.0), ls.len(), i, j, g, id, text);
    } else {
        assert(files.drop_last()[k] == files[k]);
        lemma_files_hit(patterns, root, files.drop_last(), k, i, j, g, id, text);
        lemma_lines_keep(
            prev,
            patterns,
            ls,
            relative_path(root, f.0),
            ls.len(),
            id,
            (normalized(text), relative_path(root, files[k].0), (i + 1) as usize),
        );
    }
}

/// Every match that a test pattern finds on a line of a test file is a
/// reference: the collected references list, under the matched id, one with
/// the normalised matched text, the file (as paths compare) and the line's
/// number, counted from 1. Every match counts, not only the first on a line.
pub proof fn law_every_test_match_is_referenced(
    patterns: Seq<Seq<char>>,
    root: Seq<char>,
    files: Seq<(Seq<char>, Seq<char>)>,
    k: int,
    i: int,
    j: int,
    g: int,
    id: Seq<char>,
    text: Seq<char>,
)
    requires
        0 <= k < files.len(),
        0 <= i < split_lines(files[k].1).len(),
        0 <= j < patterns.len(),
        0 <= g < regex_all_groups(patterns[j], split_lines(files[k].1)[i]).len(),
        regex_all_groups(patterns[j], split_lines(files[k].1)[i])[g] == (Some(id), Some(text)),
    ensures
        ({
            let d = dedupe_lists(refs_in_files(patterns, root, files));
            exists|q: int, y: int|
                0 <= q < d.len() && d[q].0 == id && 0 <= y < d[q].1.len() && #[trigger] d[q].1[y].0
                    == normalized(text) && d[q].1[y].2 == (i + 1) as usize && path_order(
                    d[q].1[y].1,
                    relative_path(root, files[k].0),
                ) == Order::Equal
        }),
{
    let e = refs_in_files(patterns, root, files);
    let d = dedupe_lists(e);
    let r = (normalized(text), relative_path(root, files[k].0), (i + 1) as usize);
    lemma_files_hit(patterns, root, files, k, i, j, g, id, text);
    let q = choose|q: int| 0 <= q < e.len() && e[q].0 == id && e[q].1.contains(r);
    let x = choose|x: int| 0 <= x < e[q].1.len() && e[q].1[x] == r;
    law_dedupe_keeps_each_reference(e[q].1);
    assert(e[q].1[x] == r);
    let y = choose|y: int| 0 <= y < deduped(e[q].1).len() && same_ref(deduped(e[q].1)[y], e[q].1[x]);
    lemma_same_ref_unfold(deduped(e[q].1)[y], r);
    assert(d[q] == (e[q].0, deduped(e[q].1)));
    assert(d[q].1[y] == deduped(e[q].1)[y]);
}

// ---------------------------------------------------------------------------
// Empty globs
// ---------------------------------------------------------------------------

/// An empty-glob finding stands among the findings exactly where it stands
/// among the empty-glob findings.
proof fn lemma_glob_finding_contained(
    specs: Seq<(Seq<char>, Located)>,
    spec_files: usize,
    tests: Seq<(Seq<char>, Seq<Located>)>,
    test_files: usize,
    config: Config,
    f: FindingView,
)
    requires
        f.1 is EmptySpecGlobs || f.1 is EmptyTestGlobs,
    ensures
        expected_findings(specs, spec_files, tests, test_files, config).contains(f) == {
            let sev = config.on_empty_glob;
            ||| spec_files == 0 && f == (sev, IssueView::EmptySpecGlobs)
            ||| test_files == 0 && f == (sev, IssueView::EmptyTestGlobs)
        },
{
    law_findings_exactly(specs, spec_files, tests, test_files, config, f);
    assert forall|k: int, m: int|
        0 <= k < tests.len() && 0 <= m < tests[k].1.len() implies #[trigger] entry_ref_finding(
        specs,
        tests,
        config,
        k,
        m,
    ) != Some(f) by {}
    assert forall|k: int| 0 <= k < specs.len() implies #[trigger] missing_finding(specs, config, k)
        != f by {}
    let sev = config.on_empty_glob;
    let a: Seq<FindingView> = if spec_files == 0 {
        seq![(sev, IssueView::EmptySpecGlobs)]
    } else {
        seq![]
    };
    let b: Seq<FindingView> = if test_files == 0 {
        seq![(sev, IssueView::EmptyTestGlobs)]
    } else {
        seq![]
    };
    let g = empty_glob_findings(spec_files, test_files, sev);
    assert(g == a + b);
    if g.contains(f) {
        let i = choose|i: int| 0 <= i < g.len() && g[i] == f;
        if i < a.len() {
            assert(g[i] == a[i]);
        } else {
            assert(g[i] == b[i - a.len()]);
        }
    }
    if spec_files == 0 && f == (sev, IssueView::EmptySpecGlobs) {
        assert(g[0] == f);
    }
    if test_files == 0 && f == (sev, IssueView::EmptyTestGlobs) {
        assert(g[a.len() as int] == f);
    }
}

/// The check reports that the spec globs matched no file exactly where no
/// spec file was found, and that the test globs matched none exactly where
/// no test file was found; each such finding has the empty-glob severity.
pub proof fn law_empty_glob_findings_exactly(
    specs: Seq<(Seq<char>, Located)>,
    spec_files: usize,
    tests: Seq<(Seq<char>, Seq<Located>)>,
    test_files: usize,
    config: Config,
)
    ensures
        ({
            let e = expected_findings(specs, spec_files, tests, test_files, config);
            &&& e.contains((config.on_empty_glob, IssueView::EmptySpecGlobs)) == (spec_files == 0)
            &&& e.contains((config.on_empty_glob, IssueView::EmptyTestGlobs)) == (test_files == 0)
            &&& forall|i: int|
                0 <= i < e.len() && (#[trigger] e[i]).1 is EmptySpecGlobs ==> spec_files == 0 && e[i].0
                    == config.on_empty_glob
            &&& forall|i: int|
                0 <= i < e.len() && (#[trigger] e[i]).1 is EmptyTestGlobs ==> test_files == 0 && e[i].0
                    == config.on_empty_glob
        }),
{
    let e = expected_findings(specs, spec_files, tests, test_files, config);
    let sev = config.on_empty_glob;
    lemma_glob_finding_contained(specs, spec_files, tests, test_files, config, (sev, IssueView::EmptySpecGlobs));
    lemma_glob_finding_contained(specs, spec_files, tests, test_files, config, (sev, IssueView::EmptyTestGlobs));
    assert forall|i: int|
        0 <= i < e.len() && (#[trigger] e[i]).1 is EmptySpecGlobs implies spec_files == 0 && e[i].0
            == sev by {
        lemma_glob_finding_contained(specs, spec_files, tests, test_files, config, e[i]);
        assert(e.contains(e[i]));
    }
    assert forall|i: int|
        0 <= i < e.len() && (#[trigger] e[i]).1 is EmptyTestGlobs implies test_files == 0 && e[i].0
            == sev by {
        lemma_glob_finding_contained(specs, spec_files, tests, test_files, config, e[i]);
        assert(e.contains(e[i]));
    }
}

// ---------------------------------------------------------------------------
// The first matching spec pattern
// ---------------------------------------------------------------------------

/// A spec line's groups come from the first pattern, in order, that matches
/// it: they are none only where no pattern matches, and otherwise they are
/// those of a matching pattern that no earlier pattern precedes in matching.
pub proof fn law_first_matching_spec_pattern(patterns: Seq<Seq<char>>, line: Seq<char>)
    ensures
        (line_groups(patterns, line) is None) == (forall|i: int|
            0 <= i < patterns.len() ==> (#[trigger] regex_first_groups(patterns[i], line)) is None),
        line_groups(patterns, line) matches Some(g) ==> exists|i: int|
            0 <= i < patterns.len() && #[trigger] regex_first_groups(patterns[i], line) == Some(g)
                && forall|j: int| 0 <= j < i ==> (#[trigger] regex_first_groups(patterns[j], line)) is None,
    decreases patterns.len(),
{
    if patterns.len() > 0 {
        let rest = patterns.drop_first();
        law_first_matching_spec_pattern(rest, line);
        assert forall|i: int| 0 < i < patterns.len() implies patterns[i] == rest[i - 1] by {}
        match regex_first_groups(patterns[0], line) {
            Some(g) => {
                assert(regex_first_groups(patterns[0], line) == Some(g));
            },
            None => {
                if line_groups(rest, line) is None {
                    assert forall|i: int| 0 <= i < patterns.len() implies (#[trigger] regex_first_groups(
                        patterns[i],
                        line,
                    )) is None by {
                        if i > 0 {
                            assert(regex_first_groups(rest[i - 1], line) is None);
                        }
                    }
                } else {
                    let g = line_groups(rest, line)->0;
                    let i = choose|i: int|
                        0 <= i < rest.len() && #[trigger] regex_first_groups(rest[i], line) == Some(g)
                            && forall|j: int| 0 <= j < i ==> (#[trigger] regex_first_groups(rest[j], line)) is None;
                    assert(regex_first_groups(patterns[i + 1], line) == Some(g));
                    assert forall|j: int| 0 <= j < i + 1 implies (#[trigger] regex_first_groups(
                        patterns[j],
                        line,
                    )) is None by {
                        if j > 0 {
                            assert(regex_first_groups(rest[j - 1], line) is None);
                        }
                    }
                    assert(regex_first_groups(rest[i], line) is Some);
                }
            },
        }
    }
}

// ---------------------------------------------------------------------------
// Every matched spec line defines its rule
// ---------------------------------------------------------------------------

/// Defining a rule keeps every id already defined and defines its own.
proof fn lemma_upsert_has_key(e: Seq<(Seq<char>, Located)>, k: Seq<char>, v: Located, id: Seq<char>)
    requires
        has_key(e, id) || id == k,
    ensures
        has_key(upsert(e, k, v), id),
{
    let e2 = upsert(e, k, v);
    if has_key(e, k) {
        lemma_first_key_exists(e, k, e.len() as int);
        let i = choose|i: int| first_key_at(e, k, i);
        if id == k {
            assert(e2[i].0 == id);
        } else {
            let q = choose|q: int| 0 <= q < e.len() && e[q].0 == id;
            assert(e2[q].0 == id);
        }
    } else {
        if id == k {
            assert(e2[e.len() as int].0 == id);
        } else {
            let q = choose|q: int| 0 <= q < e.len() && e[q].0 == id;
            assert(e2[q].0 == id);
        }
    }
}

proof fn lemma_rules_lines_keep(
    acc: Seq<(Seq<char>, Located)>,
    patterns: Seq<Seq<char>>,
    lines: Seq<Seq<char>>,
    file: Seq<char>,
    n: nat,
    id: Seq<char>,
)
    requires
        has_key(acc, id),
    ensures
        has_key(rules_in_lines(acc, patterns, lines, file, n), id),
    decreases n,
{
    if n > 0 {
        let prev = rules_in_lines(acc, patterns, lines, file, (n - 1) as nat);
        lemma_rules_lines_keep(acc, patterns, lines, file, (n - 1) as nat, id);
        match line_groups(patterns, lines[n - 1]) {
            Some((Some(i2), Some(t2))) => lemma_upsert_has_key(prev, i2, (normalized(t2), file, n as usize), id),
            _ => {},
        }
    }
}

proof fn lemma_rules_lines_hit(
    acc: Seq<(Seq<char>, Located)>,
    patterns: Seq<Seq<char>>,
    lines: Seq<Seq<char>>,
    file: Seq<char>,
    n: nat,
    i: int,
    id: Seq<char>,
    text: Seq<char>,
)
    requires
        0 <= i < n <= lines.len(),
        line_groups(patterns, lines[i]) == Some((Some(id), Some(text))),
    ensures
        has_key(rules_in_lines(acc, patterns, lines, file, n), id),
    decreases n,
{
    let prev = rules_in_lines(acc, patterns, lines, file, (n - 1) as nat);
    if i == n - 1 {
        lemma_upsert_has_key(prev, id, (normalized(text), file, n as usize), id);
    } else {
        lemma_rules_lines_hit(acc, patterns, lines, file, (n - 1) as nat, i, id, text);
        match line_groups(patterns, lines[n - 1]) {
            Some((Some(i2), Some(t2))) => lemma_upsert_has_key(prev, i2, (normalized(t2), file, n as usize), id),
            _ => {},
        }
    }
}

proof fn lemma_rules_files_keep(
    patterns: Seq<Seq<char>>,
    root: Seq<char>,
    files: Seq<(Seq<char>, Seq<char>)>,
    id: Seq<char>,
    m: int,
)
    requires
        0 <= m <= files.len(),
        has_key(rules_in_files(patterns, root, files.take(m)), id),
    ensures
        has_key(rules_in_files(patterns, root, files), id),
    decreases files.len() - m,
{
    if m < files.len() {
        let t = files.take(m + 1);
        assert(t.drop_last() =~= files.take(m));
        let f = t.last();
        if current_spec(f.1) {
            let ls = split_lines(f.1);
            lemma_rules_lines_keep(
                rules_in_files(patterns, root, files.take(m)),
                patterns,
                ls,
                relative_path(root, f.0),
                ls.len(),
                id,
            );
        }
        lemma_rules_files_keep(patterns, root, files, id, m + 1);
    } else {
        assert(files.take(m) =~= files);
    }
}

/// Every line of a current spec file that a spec pattern matches, with both
/// its groups, defines a rule for the matched id.
pub proof fn law_matched_spec_line_defines_rule(
    patterns: Seq<Seq<char>>,
    root: Seq<char>,
    files: Seq<(Seq<char>, Seq<char>)>,
    k: int,
    i: int,
    id: Seq<char>,
    text: Seq<char>,
)
    requires
        0 <= k < files.len(),
        current_spec(files[k].1),
        0 <= i < split_lines(files[k].1).len(),
        line_groups(patterns, split_lines(files[k].1)[i]) == Some((Some(id), Some(text))),
    ensures
        has_key(rules_in_files(patterns, root, files), id),
{
    let t = files.take(k + 1);
    assert(t.drop_last() =~= files.take(k));
    assert(t.last() == files[k]);
    let ls = split_lines(files[k].1);
    lemma_rules_lines_hit(
        rules_in_files(patterns, root, files.take(k)),
        patterns,
        ls,
        relative_path(root, files[k].0),
        ls.len(),
        i,
        id,
        text,
    );
    lemma_rules_files_keep(patterns, root, files, id, k + 1);
}

// ---------------------------------------------------------------------------
// The summary line of the report
// ---------------------------------------------------------------------------

/// Findings of the given severity.
pub open spec fn has_severity(s: Severity) -> spec_fn(FindingView) -> bool {
    |f: FindingView| f.0 == s
}

proof fn lemma_count_of_filter(findings: Seq<FindingView>, s: Severity, n: nat)
    requires
        n <= findings.len(),
    ensures
        count_of(findings, s, n) == findings.take(n as int).filter(has_severity(s)).len(),
    decreases n,
{
    if n == 0 {
        assert(findings.take(0) =~= Seq::<FindingView>::empty());
        reveal(Seq::filter);
    } else {
        lemma_count_of_filter(findings, s, (n - 1) as nat);
        assert(findings.take(n as int) =~= findings.take(n - 1).push(findings[n - 1]));
        findings.take(n - 1).lemma_filter_push(findings[n - 1], has_severity(s));
    }
}

/// The report ends with the summary: where some finding is a failure, a line
/// with the number of failures (findings of severity error), the number of
/// rules and the number of warnings (findings of severity warning); else a
/// line with the numbers of rules and of referenced ids, followed, where
/// there are warnings, by a line with their number.
pub proof fn law_report_summary(findings: Seq<FindingView>, spec_count: usize, test_count: usize)
    ensures
        ({
            let r = report_text(findings, spec_count, test_count);
            let errors = findings.filter(has_severity(Severity::Error)).len();
            let warns = findings.filter(has_severity(Severity::Warn)).len();
            let aligned = colored(seq!['3', '2'], "✓"@) + " "@ + decimal(spec_count as nat)
                + " rules aligned across "@ + decimal(test_count as nat) + " tests"@;
            &&& errors > 0 ==> r.len() > 0 && r.last() == "\n"@ + decimal(errors) + " failure(s) across "@
                + decimal(spec_count as nat) + " rules ("@ + decimal(warns) + " warning(s))"@
            &&& errors == 0 && warns > 0 ==> r.len() >= 2 && r[r.len() - 2] == aligned && r.last() == "  "@
                + decimal(warns) + " warning(s)"@
            &&& errors == 0 && warns == 0 ==> r.len() > 0 && r.last() == aligned
        }),
{
    let n = findings.len();
    lemma_count_of_filter(findings, Severity::Error, n);
    lemma_count_of_filter(findings, Severity::Warn, n);
    assert(findings.take(n as int) =~= findings);
    let a = findings_text(findings, n);
    let b = summary_text(
        count_of(findings, Severity::Error, n),
        count_of(findings, Severity::Warn, n),
        spec_count,
        test_count,
    );
    let r = report_text(findings, spec_count, test_count);
    assert(r == a + b);
    assert(b.len() > 0);
    assert(r.last() == b.last());
    if b.len() == 2 {
        assert(r[r.len() - 2] == b[0]);
    }
}

// ---------------------------------------------------------------------------
// Where the configuration file is looked for
// ---------------------------------------------------------------------------

proof fn lemma_names_in_dirs(dirs: Seq<Seq<char>>)
    ensures
        names_in_dirs(dirs, config_names()).len() == 2 * dirs.len(),
        forall|x: int|
            0 <= x < dirs.len() ==> names_in_dirs(dirs, config_names())[2 * x] == path_join(
                #[trigger] dirs[x],
                "sdd-spec-check.config.toml"@,
            ) && names_in_dirs(dirs, config_names())[2 * x + 1] == path_join(
                dirs[x],
                ".sdd-spec-check.config.toml"@,
            ),
    decreases dirs.len(),
{
    if dirs.len() > 0 {
        let p = dirs.drop_last();
        lemma_names_in_dirs(p);
        let a = names_in_dirs(p, config_names());
        let b = names_in(dirs.last(), config_names());
        assert(b.len() == 2);
        assert forall|x: int| 0 <= x < dirs.len() implies names_in_dirs(dirs, config_names())[2 * x]
            == path_join(#[trigger] dirs[x], "sdd-spec-check.config.toml"@) && names_in_dirs(
            dirs,
            config_names(),
        )[2 * x + 1] == path_join(dirs[x], ".sdd-spec-check.config.toml"@) by {
            if x < dirs.len() - 1 {
                assert(p[x] == dirs[x]);
            } else {
                assert(b[0] == path_join(dirs.last(), "sdd-spec-check.config.toml"@));
                assert(b[1] == path_join(dirs.last(), ".sdd-spec-check.config.toml"@));
            }
        }
    }
}

/// The configuration file is looked for in the starting directory and in
/// every one of its ancestors, nearest first, each under both names in turn:
/// two paths for each ancestor, none left out and none added.
pub proof fn law_config_searched_in_every_ancestor(dir: Seq<char>)
    ensures
        ({
            let a = path_ancestors(dir);
            let c = config_candidates_of(dir);
            &&& c.len() == 2 * a.len()
            &&& forall|x: int|
                0 <= x < a.len() ==> c[2 * x] == path_join(#[trigger] a[x], "sdd-spec-check.config.toml"@)
                    && c[2 * x + 1] == path_join(a[x], ".sdd-spec-check.config.toml"@)
        }),
{
    lemma_names_in_dirs(path_ancestors(dir));
}

// ---------------------------------------------------------------------------
// Every shown finding is in the report
// ---------------------------------------------------------------------------

/// `t` stands in `r` as a block of consecutive lines from index `p` on.
pub open spec fn block_at(r: Seq<Seq<char>>, t: Seq<Seq<char>>, p: int) -> bool {
    0 <= p && p + t.len() <= r.len() && r.subrange(p, p + t.len()) == t
}

/// `t` stands in `r` as a block of consecutive lines.
pub open spec fn has_block(r: Seq<Seq<char>>, t: Seq<Seq<char>>) -> bool {
    exists|p: int| #[trigger] block_at(r, t, p)
}

/// The mark that a severity shows with: a red cross for a failure, a yellow
/// exclamation mark for a warning.
pub open spec fn shown_mark(s: Severity) -> Seq<char> {
    if s == Severity::Error {
        colored(seq!['3', '1'], "✗"@)
    } else {
        colored(seq!['3', '3'], "!"@)
    }
}

proof fn lemma_findings_text_block(findings: Seq<FindingView>, n: nat, i: int)
    requires
        0 <= i < n <= findings.len(),
        findings[i].0 != Severity::Silent,
    ensures
        has_block(findings_text(findings, n), issue_text(shown_mark(findings[i].0), findings[i].1)),
    decreases n,
{
    let prev = findings_text(findings, (n - 1) as nat);
    let t = issue_text(shown_mark(findings[i].0), findings[i].1);
    if i == n - 1 {
        let r = prev + t;
        assert(findings_text(findings, n) == r);
        assert(r.subrange(prev.len() as int, prev.len() + t.len() as int) =~= t);
        assert(block_at(r, t, prev.len() as int));
    } else {
        lemma_findings_text_block(findings, (n - 1) as nat, i);
        let p = choose|p: int| block_at(prev, t, p);
        let r = findings_text(findings, n);
        assert(r.len() >= prev.len());
        assert(r.subrange(p, p + t.len()) =~= prev.subrange(p, p + t.len()));
        assert(block_at(r, t, p));
    }
}

/// Every finding that is not silent is shown in the report: the lines that
/// describe its issue, after the red cross of a failure or the yellow mark of
/// a warning, stand together in it.
pub proof fn law_report_shows_each_finding(
    findings: Seq<FindingView>,
    spec_count: usize,
    test_count: usize,
    i: int,
)
    requires
        0 <= i < findings.len(),
        findings[i].0 != Severity::Silent,
    ensures
        has_block(
            report_text(findings, spec_count, test_count),
            issue_text(shown_mark(findings[i].0), findings[i].1),
        ),
{
    let n = findings.len();
    lemma_findings_text_block(findings, n, i);
    let a = findings_text(findings, n);
    let t = issue_text(shown_mark(findings[i].0), findings[i].1);
    let r = report_text(findings, spec_count, test_count);
    let p = choose|p: int| block_at(a, t, p);
    assert(r.len() >= a.len());
    assert(r.subrange(p, p + t.len()) =~= a.subrange(p, p + t.len()));
    assert(block_at(r, t, p));
}

} // verus!
