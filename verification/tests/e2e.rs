use sdd_spec_check::check::{run, Outcome};
use sdd_spec_check::collect::{build_globs, select_files, try_collect, SourceFile};
use sdd_spec_check::config::{Config, RawConfig};
use sdd_spec_check::report::render;

fn raw(specs: &[&str], tests: &[&str]) -> RawConfig {
    RawConfig {
        specs: specs.iter().map(|s| s.to_string()).collect(),
        tests: tests.iter().map(|s| s.to_string()).collect(),
        spec_patterns: Vec::new(),
        test_patterns: Vec::new(),
        on_empty_glob: None,
        on_unknown_id: None,
        on_missing_test: None,
        on_text_mismatch: None,
    }
}

/// Runs the whole check over an in-memory tree rooted at `fixture`:
/// picks the files by glob, collects, checks and renders the report.
fn check_tree(raw: RawConfig, files: &[(&str, &str)]) -> (Outcome, String) {
    let root = "fixture".to_string();
    let config = Config::load(root.clone(), &raw, &Vec::new(), &Vec::new(), None).unwrap();
    let paths: Vec<String> = files.iter().map(|(p, _)| format!("{}/{}", root, p)).collect();
    let spec_filter = build_globs(&config.spec_globs).unwrap();
    let test_filter = build_globs(&config.test_globs).unwrap();
    let read = |selected: Vec<String>| -> Vec<SourceFile> {
        selected
            .into_iter()
            .map(|path| {
                let content = files
                    .iter()
                    .find(|(p, _)| format!("{}/{}", root, p) == path)
                    .unwrap()
                    .1
                    .to_string();
                SourceFile { path, content }
            })
            .collect()
    };
    let spec_files = read(select_files(&spec_filter, &root, &paths));
    let test_files = read(select_files(&test_filter, &root, &paths));
    let collected = try_collect(&config, &spec_files, &test_files).unwrap();
    let outcome = run(&collected, &config);
    let stdout = render(&outcome).join("\n");
    (outcome, stdout)
}

#[test]
fn pass_is_exit_zero() {
    let (outcome, stdout) = check_tree(
        raw(&["spec/**/*.md"], &["test/**/*.test.ts"]),
        &[
            ("spec/log.md", "# Logging\n\n- [RULE-LOG-001] writes JSON to stdout\n"),
            ("test/log.test.ts", "it(\"RULE-LOG-001: writes JSON to stdout\", () => {});\n"),
        ],
    );
    assert!(outcome.ok());
    assert!(stdout.contains("rules aligned"));
}

#[test]
fn missing_test_fails() {
    let (outcome, stdout) = check_tree(
        raw(&["spec/**/*.md"], &["test/**/*.test.ts"]),
        &[
            (
                "spec/log.md",
                "- [RULE-LOG-001] writes JSON to stdout\n- [RULE-LOG-007] rotates files daily\n",
            ),
            ("test/log.test.ts", "it(\"RULE-LOG-001: writes JSON to stdout\", () => {});\n"),
        ],
    );
    assert!(!outcome.ok());
    assert!(stdout.contains("RULE-LOG-007"));
    assert!(stdout.contains("no test for this rule"));
}

#[test]
fn text_mismatch_fails() {
    let (outcome, stdout) = check_tree(
        raw(&["spec/**/*.md"], &["test/**/*.test.ts"]),
        &[
            ("spec/log.md", "- [RULE-LOG-001] writes JSON to stdout\n"),
            ("test/log.test.ts", "it(\"RULE-LOG-001: writes YAML to stdout\", () => {});\n"),
        ],
    );
    assert!(!outcome.ok());
    assert!(stdout.contains("RULE-LOG-001"));
    assert!(stdout.contains("text mismatch"));
}

#[test]
fn unknown_id_fails() {
    let (outcome, stdout) = check_tree(
        raw(&["spec/**/*.md"], &["test/**/*.test.ts"]),
        &[
            ("spec/log.md", "- [RULE-LOG-001] writes JSON to stdout\n"),
            (
                "test/log.test.ts",
                "it(\"RULE-LOG-001: writes JSON to stdout\", () => {});\nit(\"RULE-LOG-042: does a thing\", () => {});\n",
            ),
        ],
    );
    assert!(!outcome.ok());
    assert!(stdout.contains("RULE-LOG-042"));
    assert!(stdout.contains("no current spec defines"));
}

#[test]
fn multi_lang_pass() {
    let (outcome, stdout) = check_tree(
        raw(&["spec/**/*.md"], &["**/*.test.ts", "tests/**/*_test.py", "src/**/*_test.go"]),
        &[
            (
                "spec/behaviour.md",
                "- [RULE-A-001] reads settings\n- [RULE-A-002] refuses broken globs\n- [RULE-A-003] shows totals.\n",
            ),
            ("web/a.test.ts", "it(\"RULE-A-001: reads settings\", () => {});\n"),
            ("tests/b_test.py", "def test_b():\n    '''RULE-A-002: refuses broken globs'''\n"),
            ("src/c/c_test.go", "t.Run(`RULE-A-003: shows totals`, func(t *testing.T) {})\n"),
        ],
    );
    assert!(outcome.ok());
    assert!(stdout.contains("3 rules aligned"));
}

#[test]
fn custom_pattern_pass() {
    let mut r = raw(&["docs/*.md"], &["checks/*.rs"]);
    r.spec_patterns = vec![r"^\* (?<id>REQ-\d+): (?<text>.+)$".to_string()];
    r.test_patterns = vec![r"// covers (?<id>REQ-\d+) (?<text>.+)$".to_string()];
    let (outcome, stdout) = check_tree(
        r,
        &[
            ("docs/reqs.md", "* REQ-1: starts fast\n* REQ-2: stops clean\n"),
            ("checks/a.rs", "// covers REQ-1 starts fast\nfn a() {}\n// covers REQ-2 stops clean\n"),
        ],
    );
    assert!(outcome.ok());
    assert!(stdout.contains("2 rules aligned"));
}

#[test]
fn frontmatter_status_only_reads_yaml_block() {
    // Body mentions `status: draft` in prose. Frontmatter says current.
    // Spec should still be in scope.
    let (outcome, stdout) = check_tree(
        raw(&["spec/**/*.md"], &["test/**/*.test.ts"]),
        &[
            (
                "spec/log.md",
                "---\ntitle: Logging\nstatus: current\n---\n\nDrafts say\nstatus: draft\nbut this one is live.\n\n- [RULE-LOG-001] writes JSON to stdout\n",
            ),
            ("test/log.test.ts", "it(\"RULE-LOG-001: writes JSON to stdout\", () => {});\n"),
        ],
    );
    assert!(outcome.ok());
    assert!(stdout.contains("1 rules aligned"));
}

#[test]
fn first_matching_spec_pattern_wins() {
    // Two patterns match the same spec line. If the second overwrote
    // the first, the captured spec text would not match the test text.
    let mut r = raw(&["spec/*.md"], &["test/*.ts"]);
    r.spec_patterns = vec![
        r"^-\s+\[(?<id>RULE-[A-Z0-9-]+)\]\s+(?<text>.+)$".to_string(),
        r"^-\s+\[(?<id>RULE-[A-Z0-9-]+)\]\s+(?<text>\S+)".to_string(),
    ];
    let (outcome, stdout) = check_tree(
        r,
        &[
            ("spec/a.md", "- [RULE-X-001] keeps the whole line\n"),
            ("test/a.ts", "it(\"RULE-X-001: keeps the whole line\", () => {});\n"),
        ],
    );
    assert!(outcome.ok());
    assert!(stdout.contains("1 rules aligned"));
}

#[test]
fn output_is_deterministic() {
    let files: &[(&str, &str)] = &[
        (
            "spec/a.md",
            "- [RULE-A-001] one\n- [RULE-A-002] two\n- [RULE-A-003] three\n- [RULE-A-004] four\n",
        ),
        (
            "spec/b.md",
            "- [RULE-B-001] one\n- [RULE-B-002] two\n- [RULE-B-003] three\n",
        ),
        (
            "test/a.test.ts",
            "it(\"RULE-A-001: uno\", () => {});\nit(\"RULE-Z-009: ghost\", () => {});\nit(\"RULE-B-002: two\", () => {});\n",
        ),
        (
            "test/b.test.ts",
            "it(\"RULE-Y-001: ghost\", () => {});\nit(\"RULE-A-003: tres\", () => {});\n",
        ),
    ];
    let first = check_tree(raw(&["spec/**/*.md"], &["test/**/*.test.ts"]), files).1;
    for _ in 0..4 {
        let next = check_tree(raw(&["spec/**/*.md"], &["test/**/*.test.ts"]), files).1;
        assert_eq!(
            first, next,
            "output differs between runs (HashMap iteration leaked into stdout)"
        );
    }
}
