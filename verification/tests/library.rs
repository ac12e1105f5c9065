use sdd_spec_check::check::{run, sort_key, Finding, Issue, Outcome};
use sdd_spec_check::collect::{
    build_globs, collect, dedupe_refs, read_specs, read_tests, select_files, try_collect, CollectError,
    Collected, SourceFile, SpecRule, TestRef,
};
use sdd_spec_check::config::{
    compile_pattern, compile_patterns, config_candidates, config_root, default_config_names, first_existing,
    default_spec_patterns, default_test_patterns, use_cli_or_file, Config, ConfigError, RawConfig,
    Severity,
};
use sdd_spec_check::paths::{path_order_str, relative_to, text_order_str, Order};
use sdd_spec_check::report::{count, decimal_string, issue_lines, render};
use sdd_spec_check::text::{is_current, leading_frontmatter, normalize};

fn strings(v: &[&str]) -> Vec<String> {
    v.iter().map(|s| s.to_string()).collect()
}

fn raw(specs: &[&str], tests: &[&str]) -> RawConfig {
    RawConfig {
        specs: strings(specs),
        tests: strings(tests),
        spec_patterns: Vec::new(),
        test_patterns: Vec::new(),
        on_empty_glob: None,
        on_unknown_id: None,
        on_missing_test: None,
        on_text_mismatch: None,
    }
}

fn config() -> Config {
    Config::load("root".to_string(), &raw(&["*.md"], &["*.ts"]), &Vec::new(), &Vec::new(), None).unwrap()
}

fn file(path: &str, content: &str) -> SourceFile {
    SourceFile { path: path.to_string(), content: content.to_string() }
}

fn rule(text: &str, file: &str, line: usize) -> SpecRule {
    SpecRule { text: text.to_string(), file: file.to_string(), line }
}

fn test_ref(text: &str, file: &str, line: usize) -> TestRef {
    TestRef { text: text.to_string(), file: file.to_string(), line }
}

const RED_CROSS: &str = "\u{1b}[31m✗\u{1b}[39m";
const YELLOW_BANG: &str = "\u{1b}[33m!\u{1b}[39m";
const GREEN_CHECK: &str = "\u{1b}[32m✓\u{1b}[39m";

// ---------------------------------------------------------------------------
// Text
// ---------------------------------------------------------------------------

#[test]
fn normalize_strips_whitespace_and_one_period() {
    assert_eq!(normalize("  writes JSON to stdout.  "), "writes JSON to stdout");
    assert_eq!(normalize("writes JSON to stdout"), "writes JSON to stdout");
    assert_eq!(normalize("ends twice.."), "ends twice.");
    assert_eq!(normalize("a . "), "a ");
    assert_eq!(normalize(""), "");
    assert_eq!(normalize("\u{3000}wide\u{00a0}"), "wide");
    assert_eq!(normalize("."), "");
}

#[test]
fn trailing_period_law_on_values() {
    let s = "writes JSON to stdout";
    assert_eq!(normalize(&format!("{s}.")), normalize(s));
    assert_eq!(normalize(s), s);
}

fn lines(v: &[&str]) -> Option<Vec<String>> {
    Some(v.iter().map(|s| s.to_string()).collect())
}

#[test]
fn frontmatter_is_the_block_between_the_first_two_dashes() {
    assert_eq!(leading_frontmatter("---\na: b\n---\nrest"), lines(&["a: b"]));
    assert_eq!(leading_frontmatter("---\n\n---"), lines(&[""]));
    assert_eq!(leading_frontmatter("---\n---"), lines(&[]));
    assert_eq!(leading_frontmatter("no frontmatter\n---\nx\n---"), None);
    assert_eq!(leading_frontmatter("---\nstatus: draft\n"), None);
    assert_eq!(leading_frontmatter("---\na\n---\nb\n---\n"), lines(&["a"]));
    assert_eq!(leading_frontmatter("---\r\na: b\r\nc\r\n---\r\nrest"), lines(&["a: b", "c"]));
    assert_eq!(leading_frontmatter("---\na\n----\nb\n---"), lines(&["a", "----", "b"]));
    assert_eq!(leading_frontmatter("---\na\n--- x\n---\r"), lines(&["a", "--- x"]));
    assert_eq!(leading_frontmatter("---x\na\n---\n"), None);
}

#[test]
fn current_status_comes_from_the_frontmatter() {
    assert!(is_current("- [RULE-1] text\n"));
    assert!(!is_current("---\nstatus: draft\n---\n- [RULE-1] text\n"));
    assert!(is_current("---\nstatus:   current  \n---\n"));
    assert!(is_current("---\ntitle: x\n---\nstatus: draft\n"));
    assert!(is_current("---\nstatus: current\nstatus: draft\n---\n"));
    assert!(!is_current("---\nstatus: Current\n---\n"));
    assert!(!is_current("---\r\nstatus: draft\r\n---\r\n- [RULE-A] x\r\n"));
    assert!(is_current("---\r\nstatus: current\r\n---\r\n"));
    assert!(!is_current("---\ntitle: x\nstatus: retired\r\n---\n"));
    assert!(is_current("---\nstatus: draft\n"));
    assert!(!is_current("---\na\n---- b\nstatus: draft\n---\n"));
}

#[test]
fn frontmatter_law_on_values() {
    let block = "title: Logging\nstatus: current";
    let a = format!("---\n{block}\n---\nstatus: draft\n");
    let b = format!("---\n{block}\n---\nanything else\n");
    assert_eq!(is_current(&a), is_current(&b));
    assert!(is_current(&a));
}

// ---------------------------------------------------------------------------
// Paths
// ---------------------------------------------------------------------------

#[test]
fn relative_paths() {
    assert_eq!(relative_to("root", "root/spec/a.md"), "spec/a.md");
    assert_eq!(relative_to("root", "other/a.md"), "other/a.md");
    assert_eq!(relative_to("./root", "./root/a.md"), "a.md");
}

#[test]
fn relative_path_joined_onto_root_is_the_path() {
    assert_eq!(relative_to("/r/", "/r/a/b.md"), "a/b.md");
    assert_eq!(relative_to("/r", "/rx/a.md"), "/rx/a.md");
    assert_eq!(relative_to("", "a.md"), "a.md");
}

#[test]
fn config_names_and_candidates() {
    assert_eq!(
        default_config_names(),
        strings(&["sdd-spec-check.config.toml", ".sdd-spec-check.config.toml"])
    );
    assert_eq!(
        config_candidates("/a/b"),
        strings(&[
            "/a/b/sdd-spec-check.config.toml",
            "/a/b/.sdd-spec-check.config.toml",
            "/a/sdd-spec-check.config.toml",
            "/a/.sdd-spec-check.config.toml",
            "/sdd-spec-check.config.toml",
            "/.sdd-spec-check.config.toml",
        ])
    );
    assert_eq!(
        config_candidates("x"),
        strings(&["x/sdd-spec-check.config.toml", "x/.sdd-spec-check.config.toml", "sdd-spec-check.config.toml", ".sdd-spec-check.config.toml"])
    );
}

#[test]
fn config_root_is_the_parent_directory() {
    assert_eq!(config_root("/repo/sdd-spec-check.config.toml"), "/repo");
    assert_eq!(config_root("cfg/x.toml"), "cfg");
    assert_eq!(config_root("x.toml"), "");
    assert_eq!(config_root("/"), ".");
}

#[test]
fn paths_compare_by_component() {
    assert_eq!(path_order_str("a/b", "a-c"), Order::Less);
    assert_eq!(text_order_str("a/b", "a-c"), Order::Greater);
    assert_eq!(path_order_str("a//b", "a/b"), Order::Equal);
    assert_eq!(path_order_str("a/b/", "a/b"), Order::Equal);
    assert_eq!(path_order_str("a", "a/b"), Order::Less);
    assert_eq!(path_order_str("b", "a/b"), Order::Greater);
}

// ---------------------------------------------------------------------------
// Configuration
// ---------------------------------------------------------------------------

#[test]
fn command_line_globs_win() {
    let got = use_cli_or_file(&strings(&["cli/*.md"]), &strings(&["file/*.md"]), "specs").unwrap();
    assert_eq!(got, strings(&["cli/*.md"]));
    let got = use_cli_or_file(&Vec::new(), &strings(&["file/*.md"]), "specs").unwrap();
    assert_eq!(got, strings(&["file/*.md"]));
    match use_cli_or_file(&Vec::new(), &Vec::new(), "tests") {
        Err(ConfigError::NoGlobs { field }) => assert_eq!(field, "tests"),
        _ => panic!("expected NoGlobs"),
    }
}

#[test]
fn pattern_errors() {
    match compile_pattern("(?<id>RULE") {
        Err(ConfigError::InvalidPattern { pattern, .. }) => assert_eq!(pattern, "(?<id>RULE"),
        _ => panic!("expected InvalidPattern"),
    }
    match compile_pattern("(?<id>RULE-\\d+)") {
        Err(ConfigError::MissingGroups { pattern }) => assert_eq!(pattern, "(?<id>RULE-\\d+)"),
        _ => panic!("expected MissingGroups"),
    }
    let p = compile_pattern("(?<id>R\\d) (?<text>.*)").unwrap();
    assert_eq!(p.source(), "(?<id>R\\d) (?<text>.*)");
}

#[test]
fn config_error_messages() {
    let e = use_cli_or_file(&Vec::new(), &Vec::new(), "tests").err().unwrap();
    assert_eq!(e.message(), "no `tests` globs (set in config or pass --tests)");
    let e = compile_pattern("(?<id>RULE-[0-9]+)").err().unwrap();
    assert_eq!(e.message(), "pattern `(?<id>RULE-[0-9]+)` must capture both `id` and `text`");
    assert!(compile_pattern("(?<id>RULE-[0-9]+): (?<text>.+)").is_ok());
    let e = compile_pattern("(").err().unwrap();
    assert_eq!(e.message(), "invalid pattern `(`");
    assert_eq!(
        ConfigError::NoConfigFile.message(),
        "no sdd-spec-check.config.toml found. use --config <path> or create one"
    );
}

#[test]
fn first_existing_candidate_wins() {
    let c = vec![("a".to_string(), false), ("b".to_string(), true), ("c".to_string(), true)];
    assert_eq!(first_existing(&c).unwrap(), "b");
    let none = vec![("a".to_string(), false), ("b".to_string(), false)];
    match first_existing(&none) {
        Err(e) => assert_eq!(
            e.message(),
            "no sdd-spec-check.config.toml found. use --config <path> or create one"
        ),
        Ok(_) => panic!("expected no configuration file"),
    }
    assert!(first_existing(&Vec::new()).is_err());
}

#[test]
fn user_patterns_replace_defaults() {
    let defaults = default_spec_patterns();
    assert_eq!(defaults.len(), 1);
    assert_eq!(default_test_patterns().len(), 3);
    let ps = compile_patterns(&Vec::new(), &defaults).unwrap();
    assert_eq!(ps[0].source(), defaults[0]);
    let ps = compile_patterns(&strings(&["(?<id>X)(?<text>Y)"]), &defaults).unwrap();
    assert_eq!(ps.len(), 1);
    assert_eq!(ps[0].source(), "(?<id>X)(?<text>Y)");
}

#[test]
fn load_defaults_and_overrides() {
    let c = config();
    assert_eq!(c.root, "root");
    assert_eq!(c.on_empty_glob, Severity::Warn);
    assert_eq!(c.on_unknown_id, Severity::Error);
    assert_eq!(c.on_missing_test, Severity::Error);
    assert_eq!(c.on_text_mismatch, Severity::Error);
    assert_eq!(c.spec_patterns.len(), 1);
    assert_eq!(c.test_patterns.len(), 3);

    let mut r = raw(&["*.md"], &["*.ts"]);
    r.on_empty_glob = Some(Severity::Silent);
    r.on_missing_test = Some(Severity::Warn);
    let c = Config::load("r".to_string(), &r, &strings(&["x/*.md"]), &Vec::new(), Some(Severity::Error)).unwrap();
    assert_eq!(c.on_empty_glob, Severity::Error);
    assert_eq!(c.on_missing_test, Severity::Warn);
    assert_eq!(c.spec_globs, strings(&["x/*.md"]));
    assert_eq!(c.test_globs, strings(&["*.ts"]));

    let c = Config::load("r".to_string(), &r, &Vec::new(), &Vec::new(), None).unwrap();
    assert_eq!(c.on_empty_glob, Severity::Silent);
}

#[test]
fn load_errors_come_in_order() {
    match Config::load("r".to_string(), &raw(&[], &[]), &Vec::new(), &Vec::new(), None) {
        Err(ConfigError::NoGlobs { field }) => assert_eq!(field, "specs"),
        _ => panic!("expected NoGlobs for specs"),
    }
    match Config::load("r".to_string(), &raw(&["a"], &[]), &Vec::new(), &Vec::new(), None) {
        Err(ConfigError::NoGlobs { field }) => assert_eq!(field, "tests"),
        _ => panic!("expected NoGlobs for tests"),
    }
    let mut r = raw(&["a"], &["b"]);
    r.spec_patterns = strings(&["("]);
    r.test_patterns = strings(&["(?<id>x)"]);
    match Config::load("r".to_string(), &r, &Vec::new(), &Vec::new(), None) {
        Err(ConfigError::InvalidPattern { pattern, .. }) => assert_eq!(pattern, "("),
        _ => panic!("expected InvalidPattern"),
    }
    r.spec_patterns = Vec::new();
    match Config::load("r".to_string(), &r, &Vec::new(), &Vec::new(), None) {
        Err(ConfigError::MissingGroups { pattern }) => assert_eq!(pattern, "(?<id>x)"),
        _ => panic!("expected MissingGroups"),
    }
}

// ---------------------------------------------------------------------------
// Globs
// ---------------------------------------------------------------------------

#[test]
fn invalid_glob_is_reported() {
    match build_globs(&strings(&["spec/*.md", "spec/[.md"])) {
        Err(CollectError::InvalidGlob { pattern, .. }) => assert_eq!(pattern, "spec/[.md"),
        _ => panic!("expected InvalidGlob"),
    }
    let e = build_globs(&strings(&["spec/[.md"])).err().unwrap();
    assert_eq!(e.message(), Some("invalid glob `spec/[.md`".to_string()));
}

#[test]
fn globs_match_relative_to_root() {
    let f = build_globs(&strings(&["spec/**/*.md"])).unwrap();
    let paths = strings(&["root/spec/a.md", "root/spec/x/b.md", "root/test/a.md", "spec/c.md", "root/spec/a.txt"]);
    assert_eq!(select_files(&f, "root", &paths), strings(&["root/spec/a.md", "root/spec/x/b.md", "spec/c.md"]));
}

#[test]
fn no_globs_select_nothing() {
    let f = build_globs(&strings(&[])).unwrap();
    assert_eq!(select_files(&f, "root", &strings(&["root/a.md", "b.md"])), strings(&[]));
}

// ---------------------------------------------------------------------------
// Collecting
// ---------------------------------------------------------------------------

#[test]
fn spec_rules_are_read_with_file_and_line() {
    let c = config();
    let files = vec![
        file("root/a.md", "# A\n\n- [RULE-A-1] first rule.\nprose\n- [RULE-A-2]   second rule  \n"),
        file("root/b.md", "---\nstatus: draft\n---\n- [RULE-B-1] drafted\n"),
    ];
    let specs = read_specs(&files, "root", &c.spec_patterns);
    assert_eq!(specs.len(), 2);
    assert_eq!(specs[0].0, "RULE-A-1");
    assert_eq!(specs[0].1.text, "first rule");
    assert_eq!(specs[0].1.file, "a.md");
    assert_eq!(specs[0].1.line, 3);
    assert_eq!(specs[1].0, "RULE-A-2");
    assert_eq!(specs[1].1.text, "second rule");
    assert_eq!(specs[1].1.line, 5);
}

#[test]
fn later_definition_replaces_earlier() {
    let c = config();
    let files = vec![
        file("root/a.md", "- [RULE-1] old text\n- [RULE-2] other\n"),
        file("root/b.md", "- [RULE-1] new text\n"),
    ];
    let specs = read_specs(&files, "root", &c.spec_patterns);
    assert_eq!(specs.len(), 2);
    assert_eq!(specs[0].0, "RULE-1");
    assert_eq!(specs[0].1.text, "new text");
    assert_eq!(specs[0].1.file, "b.md");
    assert_eq!(specs[0].1.line, 1);
}

#[test]
fn test_refs_are_grouped_sorted_and_deduplicated() {
    let mut r = raw(&["*.md"], &["*.ts"]);
    r.test_patterns = strings(&[
        r#""(?<id>RULE-[A-Z0-9-]+):\s+(?<text>[^"]*?)""#,
        r#""(?<id>RULE-[A-Z0-9-]+):\s+(?<text>[^"]*?)""#,
    ]);
    let c = Config::load("root".to_string(), &r, &Vec::new(), &Vec::new(), None).unwrap();
    let files = vec![
        file("root/z.ts", "it(\"RULE-1: b\")\nit(\"RULE-2: x\")\n"),
        file("root/a.ts", "it(\"RULE-1: a\") it(\"RULE-1: a.\")\n"),
    ];
    let tests = read_tests(&files, "root", &c.test_patterns);
    assert_eq!(tests.len(), 2);
    assert_eq!(tests[0].0, "RULE-1");
    let refs: Vec<(String, String, usize)> =
        tests[0].1.iter().map(|r| (r.text.clone(), r.file.clone(), r.line)).collect();
    assert_eq!(
        refs,
        vec![("a".to_string(), "a.ts".to_string(), 1), ("b".to_string(), "z.ts".to_string(), 1)]
    );
    assert_eq!(tests[1].0, "RULE-2");
    assert_eq!(tests[1].1.len(), 1);
}

#[test]
fn dedupe_keeps_first_of_equal_references() {
    let mut tests = vec![(
        "RULE-1".to_string(),
        vec![
            test_ref("t", "b.ts", 2),
            test_ref("t", "a.ts", 9),
            test_ref("t", "b.ts", 2),
            test_ref("s", "b.ts", 2),
            test_ref("t", "a.ts", 1),
        ],
    )];
    dedupe_refs(&mut tests);
    let got: Vec<(String, String, usize)> =
        tests[0].1.iter().map(|r| (r.text.clone(), r.file.clone(), r.line)).collect();
    assert_eq!(
        got,
        vec![
            ("t".to_string(), "a.ts".to_string(), 1),
            ("t".to_string(), "a.ts".to_string(), 9),
            ("s".to_string(), "b.ts".to_string(), 2),
            ("t".to_string(), "b.ts".to_string(), 2),
        ]
    );
}

#[test]
fn incomplete_match_is_refused() {
    let mut r = raw(&["*.md"], &["*.ts"]);
    r.spec_patterns = strings(&[r"^-\s+\[(?<id>RULE-\d+)\](?:\s+(?<text>.+))?$"]);
    let c = Config::load("root".to_string(), &r, &Vec::new(), &Vec::new(), None).unwrap();
    let specs = vec![file("root/a.md", "- [RULE-1]\n")];
    assert!(try_collect(&c, &specs, &Vec::new()).is_none());
    let specs = vec![file("root/a.md", "- [RULE-1] fine\n")];
    let got = try_collect(&c, &specs, &Vec::new()).unwrap();
    assert_eq!(got.specs.len(), 1);
    assert_eq!(got.spec_files, 1);
    assert_eq!(got.test_files, 0);
}

#[test]
fn collect_counts_files_and_ids() {
    let c = config();
    let specs = vec![file("root/a.md", "- [RULE-1] one\n"), file("root/b.md", "nothing here\n")];
    let tests = vec![file("root/a.ts", "it('RULE-1: one')\nit(`RULE-2: two`)\n")];
    let got = collect(&c, &specs, &tests);
    assert_eq!(got.spec_files, 2);
    assert_eq!(got.test_files, 1);
    assert_eq!(got.specs.len(), 1);
    assert_eq!(got.tests.len(), 2);
}

// ---------------------------------------------------------------------------
// Checking
// ---------------------------------------------------------------------------

fn collected(specs: Vec<(&str, SpecRule)>, tests: Vec<(&str, Vec<TestRef>)>) -> Collected {
    Collected {
        specs: specs.into_iter().map(|(id, r)| (id.to_string(), r)).collect(),
        spec_files: 1,
        tests: tests.into_iter().map(|(id, r)| (id.to_string(), r)).collect(),
        test_files: 1,
    }
}

fn issue_ids(o: &Outcome) -> Vec<String> {
    o.findings
        .iter()
        .map(|f| match &f.issue {
            Issue::UnknownId { id, .. } => format!("unknown {id}"),
            Issue::MissingTest { id, .. } => format!("missing {id}"),
            Issue::TextMismatch { id, .. } => format!("mismatch {id}"),
            Issue::EmptySpecGlobs => "empty specs".to_string(),
            Issue::EmptyTestGlobs => "empty tests".to_string(),
        })
        .collect()
}

#[test]
fn aligned_rules_pass() {
    let c = collected(
        vec![("RULE-1", rule("one", "s.md", 1))],
        vec![("RULE-1", vec![test_ref("one", "t.ts", 4)])],
    );
    let o = run(&c, &config());
    assert!(o.findings.is_empty());
    assert!(o.ok());
    assert_eq!(o.spec_count, 1);
    assert_eq!(o.test_count, 1);
}

#[test]
fn each_kind_of_finding() {
    let c = collected(
        vec![("RULE-1", rule("one", "s.md", 1)), ("RULE-2", rule("two", "s.md", 2))],
        vec![
            ("RULE-1", vec![test_ref("uno", "t.ts", 4)]),
            ("RULE-9", vec![test_ref("nine", "t.ts", 2)]),
        ],
    );
    let o = run(&c, &config());
    assert!(!o.ok());
    assert_eq!(issue_ids(&o), vec!["missing RULE-2", "unknown RULE-9", "mismatch RULE-1"]);
    match &o.findings[2].issue {
        Issue::TextMismatch { id, spec, test, file, line } => {
            assert_eq!((id.as_str(), spec.as_str(), test.as_str(), file.as_str(), *line), ("RULE-1", "one", "uno", "t.ts", 4));
        }
        _ => panic!("expected a mismatch"),
    }
    assert!(o.findings.iter().all(|f| f.severity == Severity::Error));
}

#[test]
fn empty_globs_come_first_and_warn() {
    let c = Collected { specs: Vec::new(), spec_files: 0, tests: vec![("RULE-1".to_string(), vec![test_ref("x", "a.ts", 1)])], test_files: 0 };
    let o = run(&c, &config());
    assert_eq!(issue_ids(&o), vec!["empty specs", "empty tests", "unknown RULE-1"]);
    assert_eq!(o.findings[0].severity, Severity::Warn);
    assert_eq!(o.findings[2].severity, Severity::Error);
    let key = sort_key(&o.findings[1]);
    assert_eq!(key, (0, String::new(), 0, "tests".to_string()));
}

#[test]
fn findings_sort_by_file_then_line_then_id() {
    let c = collected(
        vec![
            ("RULE-B", rule("b", "z.md", 1)),
            ("RULE-A", rule("a", "z.md", 1)),
            ("RULE-C", rule("c", "a/b.md", 7)),
            ("RULE-D", rule("d", "a-c.md", 1)),
        ],
        vec![],
    );
    let o = run(&c, &config());
    assert_eq!(issue_ids(&o), vec!["missing RULE-C", "missing RULE-D", "missing RULE-A", "missing RULE-B"]);
}

#[test]
fn severities_apply() {
    let mut r = raw(&["*.md"], &["*.ts"]);
    r.on_unknown_id = Some(Severity::Warn);
    r.on_missing_test = Some(Severity::Silent);
    let cfg = Config::load("root".to_string(), &r, &Vec::new(), &Vec::new(), None).unwrap();
    let c = collected(vec![("RULE-1", rule("one", "s.md", 1))], vec![("RULE-9", vec![test_ref("x", "t.ts", 1)])]);
    let o = run(&c, &cfg);
    assert!(o.ok());
    assert_eq!(count(&o, Severity::Warn), 1);
    assert_eq!(count(&o, Severity::Silent), 1);
    assert_eq!(count(&o, Severity::Error), 0);
    let lines = render(&o);
    assert_eq!(
        lines,
        vec![
            format!("{YELLOW_BANG} RULE-9  no current spec defines this id"),
            "    at:   t.ts:1".to_string(),
            format!("{GREEN_CHECK} 1 rules aligned across 1 tests"),
            "  1 warning(s)".to_string(),
        ]
    );
}

#[test]
fn order_of_entries_does_not_change_the_outcome() {
    let a = collected(
        vec![("RULE-1", rule("one", "s.md", 1)), ("RULE-2", rule("two", "s.md", 2))],
        vec![("RULE-2", vec![test_ref("deux", "t.ts", 3)]), ("RULE-7", vec![test_ref("x", "t.ts", 1)])],
    );
    let b = collected(
        vec![("RULE-2", rule("two", "s.md", 2)), ("RULE-1", rule("one", "s.md", 1))],
        vec![("RULE-7", vec![test_ref("x", "t.ts", 1)]), ("RULE-2", vec![test_ref("deux", "t.ts", 3)])],
    );
    assert_eq!(render(&run(&a, &config())), render(&run(&b, &config())));
}

// ---------------------------------------------------------------------------
// Report
// ---------------------------------------------------------------------------

#[test]
fn decimal_numerals() {
    assert_eq!(decimal_string(0), "0");
    assert_eq!(decimal_string(7), "7");
    assert_eq!(decimal_string(1234), "1234");
    assert_eq!(decimal_string(usize::MAX), usize::MAX.to_string());
}

#[test]
fn issue_lines_for_each_issue() {
    let mark = "M".to_string();
    assert_eq!(
        issue_lines(&mark, &Issue::UnknownId { id: "R-1".into(), file: "t.ts".into(), line: 3 }),
        vec!["M R-1  no current spec defines this id", "    at:   t.ts:3"]
    );
    assert_eq!(
        issue_lines(&mark, &Issue::MissingTest { id: "R-1".into(), file: "s.md".into(), line: 12 }),
        vec!["M R-1  no test for this rule", "    spec: s.md:12"]
    );
    assert_eq!(
        issue_lines(
            &mark,
            &Issue::TextMismatch {
                id: "R-1".into(),
                spec: "say \"hi\"".into(),
                test: "tab\there".into(),
                file: "t.ts".into(),
                line: 5
            }
        ),
        vec!["M R-1  text mismatch", "    spec: \"say \\\"hi\\\"\"", "    test: \"tab\\there\"", "    at:   t.ts:5"]
    );
    assert_eq!(issue_lines(&mark, &Issue::EmptySpecGlobs), vec!["M spec globs matched no files"]);
    assert_eq!(issue_lines(&mark, &Issue::EmptyTestGlobs), vec!["M test globs matched no files"]);
}

#[test]
fn failure_summary() {
    let o = Outcome {
        findings: vec![
            Finding { severity: Severity::Error, issue: Issue::MissingTest { id: "R-1".into(), file: "s.md".into(), line: 1 } },
            Finding { severity: Severity::Warn, issue: Issue::EmptyTestGlobs },
        ],
        spec_count: 4,
        test_count: 0,
    };
    assert!(!o.ok());
    assert_eq!(
        render(&o),
        vec![
            format!("{RED_CROSS} R-1  no test for this rule"),
            "    spec: s.md:1".to_string(),
            format!("{YELLOW_BANG} test globs matched no files"),
            "\n1 failure(s) across 4 rules (1 warning(s))".to_string(),
        ]
    );
}

#[test]
fn pass_summary_without_warnings() {
    let o = Outcome { findings: Vec::new(), spec_count: 3, test_count: 2 };
    assert!(o.ok());
    assert_eq!(render(&o), vec![format!("{GREEN_CHECK} 3 rules aligned across 2 tests")]);
}
