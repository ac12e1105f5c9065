//! Configuration: which files hold specs and tests, how rule lines are
//! recognised, and how severe each kind of finding is.

use vstd::prelude::*;

use crate::paths::{ancestors_of, join_path, parent_of, path_ancestors, path_join, path_parent};
use crate::text::{chars_eq, chars_of};
use crate::pattern::{compile_regex, group_names, opt_view, regex_compiles, regex_group_names, Pattern};

verus! {

/// How a finding counts: not at all, as a warning, or as a failure.
#[derive(Clone, Copy, Debug, PartialEq, Eq, Structural)]
pub enum Severity {
    Silent,
    Warn,
    Error,
}

/// The values of a configuration file, as read from it. Missing lists are
/// empty and missing severities are `None`.
pub struct RawConfig {
    pub specs: Vec<String>,
    pub tests: Vec<String>,
    pub spec_patterns: Vec<String>,
    pub test_patterns: Vec<String>,
    pub on_empty_glob: Option<Severity>,
    pub on_unknown_id: Option<Severity>,
    pub on_missing_test: Option<Severity>,
    pub on_text_mismatch: Option<Severity>,
}

/// A complete configuration.
pub struct Config {
    /// The directory that globs are relative to.
    pub root: String,
    pub spec_globs: Vec<String>,
    pub test_globs: Vec<String>,
    pub spec_patterns: Vec<Pattern>,
    pub test_patterns: Vec<Pattern>,
    pub on_empty_glob: Severity,
    pub on_unknown_id: Severity,
    pub on_missing_test: Severity,
    pub on_text_mismatch: Severity,
}

/// Why a configuration cannot be built.
#[derive(Debug)]
pub enum ConfigError {
    /// Neither the command line nor the file gives globs for `field`
    /// (`specs` or `tests`).
    NoGlobs { field: String },
    /// `pattern` is not a regular expression.
    InvalidPattern { pattern: String, cause: regex::Error },
    /// `pattern` does not have both an `id` and a `text` group.
    MissingGroups { pattern: String },
    /// No configuration file was found from the starting directory upward.
    NoConfigFile,
}

/// What went wrong, without the regex crate's explanation.
pub enum ConfigFault {
    NoGlobs(Seq<char>),
    InvalidPattern(Seq<char>),
    MissingGroups(Seq<char>),
    NoConfigFile,
}

impl ConfigError {
    pub open spec fn fault(&self) -> ConfigFault {
        match self {
            ConfigError::NoGlobs { field } => ConfigFault::NoGlobs(field@),
            ConfigError::InvalidPattern { pattern, .. } => ConfigFault::InvalidPattern(pattern@),
            ConfigError::MissingGroups { pattern } => ConfigFault::MissingGroups(pattern@),
            ConfigError::NoConfigFile => ConfigFault::NoConfigFile,
        }
    }

    /// The message for the error. For an invalid pattern it is the line that
    /// comes before the regex crate's own explanation of the cause.
    pub fn message(&self) -> (r: String)
        ensures
            r@ == config_message(self.fault()),
    {
        match self {
            ConfigError::NoGlobs { field } => String::from_str("no `").concat(field.as_str()).concat(
                "` globs (set in config or pass --",
            ).concat(field.as_str()).concat(")"),
            ConfigError::InvalidPattern { pattern, .. } => String::from_str(
                "invalid pattern `",
            ).concat(pattern.as_str()).concat("`"),
            ConfigError::MissingGroups { pattern } => String::from_str("pattern `").concat(
                pattern.as_str(),
            ).concat("` must capture both `id` and `text`"),
            ConfigError::NoConfigFile => String::from_str(
                "no sdd-spec-check.config.toml found. use --config <path> or create one",
            ),
        }
    }
}

/// The message for each fault.
pub open spec fn config_message(f: ConfigFault) -> Seq<char> {
    match f {
        ConfigFault::NoGlobs(field) => "no `"@ + field + "` globs (set in config or pass --"@ + field
            + ")"@,
        ConfigFault::InvalidPattern(p) => "invalid pattern `"@ + p + "`"@,
        ConfigFault::MissingGroups(p) => "pattern `"@ + p + "` must capture both `id` and `text`"@,
        ConfigFault::NoConfigFile => "no sdd-spec-check.config.toml found. use --config <path> or create one"@,
    }
}

pub open spec fn strings_view(v: Seq<String>) -> Seq<Seq<char>> {
    v.map_values(|s: String| s@)
}

pub open spec fn patterns_view(v: Seq<Pattern>) -> Seq<Seq<char>> {
    v.map_values(|p: Pattern| p@)
}

/// A copy of a list of strings.
pub fn clone_strings(v: &Vec<String>) -> (r: Vec<String>)
    ensures
        strings_view(r@) == strings_view(v@),
{
    let mut r: Vec<String> = Vec::new();
    let mut k: usize = 0;
    while k < v.len()
        invariant
            k <= v@.len(),
            strings_view(r@) == strings_view(v@).take(k as int),
        decreases v@.len() - k,
    {
        let s = v[k].clone();
        let ghost before = r@;
        r.push(s);
        assert(strings_view(r@) =~= strings_view(before).push(v@[k as int]@));
        assert(strings_view(v@).take(k + 1) =~= strings_view(v@).take(k as int).push(
            v@[k as int]@,
        ));
        k += 1;
    }
    assert(strings_view(v@).take(k as int) =~= strings_view(v@));
    r
}

// ---------------------------------------------------------------------------
// Globs
// ---------------------------------------------------------------------------

/// The globs in force: those of the command line where it gives any, else
/// those of the file, else none.
pub open spec fn globs_choice(cli: Seq<Seq<char>>, file: Seq<Seq<char>>) -> Option<Seq<Seq<char>>> {
    if cli.len() > 0 {
        Some(cli)
    } else if file.len() > 0 {
        Some(file)
    } else {
        None
    }
}

/// The globs of the command line where it gives any, else those of the file;
/// an error naming `field` where neither gives any.
pub fn use_cli_or_file(cli: &Vec<String>, file: &Vec<String>, field: &str) -> (r: Result<
    Vec<String>,
    ConfigError,
>)
    ensures
        match r {
            Ok(v) => globs_choice(strings_view(cli@), strings_view(file@)) == Some(
                strings_view(v@),
            ),
            Err(e) => globs_choice(strings_view(cli@), strings_view(file@)) is None && e.fault()
                == ConfigFault::NoGlobs(field@),
        },
{
    if cli.len() > 0 {
        return Ok(clone_strings(cli));
    }
    if file.len() > 0 {
        return Ok(clone_strings(file));
    }
    Err(ConfigError::NoGlobs { field: field.to_owned() })
}

// ---------------------------------------------------------------------------
// Patterns
// ---------------------------------------------------------------------------

/// The pattern that recognises a rule line in a Markdown spec by default:
/// `- [RULE-X] text`.
pub open spec fn default_spec_pattern_sources() -> Seq<Seq<char>> {
    seq![r"^-\s+\[(?<id>RULE-[A-Z0-9-]+)\]\s+(?<text>.+)$"@]
}

/// The patterns that recognise a rule reference in a test by default: the id,
/// a colon and the text inside double quotes, single quotes or backticks.
pub open spec fn default_test_pattern_sources() -> Seq<Seq<char>> {
    seq![
        r#""(?<id>RULE-[A-Z0-9-]+):\s+(?<text>[^"]*?)""#@,
        r"'(?<id>RULE-[A-Z0-9-]+):\s+(?<text>[^']*?)'"@,
        r"`(?<id>RULE-[A-Z0-9-]+):\s+(?<text>[^`]*?)`"@,
    ]
}

pub fn default_spec_patterns() -> (r: Vec<String>)
    ensures
        strings_view(r@) == default_spec_pattern_sources(),
{
    let r = vec![r"^-\s+\[(?<id>RULE-[A-Z0-9-]+)\]\s+(?<text>.+)$".to_owned()];
    assert(strings_view(r@) =~= default_spec_pattern_sources());
    r
}

pub fn default_test_patterns() -> (r: Vec<String>)
    ensures
        strings_view(r@) == default_test_pattern_sources(),
{
    let r = vec![
        r#""(?<id>RULE-[A-Z0-9-]+):\s+(?<text>[^"]*?)""#.to_owned(),
        r"'(?<id>RULE-[A-Z0-9-]+):\s+(?<text>[^']*?)'".to_owned(),
        r"`(?<id>RULE-[A-Z0-9-]+):\s+(?<text>[^`]*?)`".to_owned(),
    ];
    assert(strings_view(r@) =~= default_test_pattern_sources());
    r
}

/// Whether a regex has a group of the given name.
pub open spec fn has_group(names: Seq<Option<Seq<char>>>, name: Seq<char>) -> bool {
    names.contains(Some(name))
}

/// What is wrong with a pattern source, if anything: it must compile and have
/// both an `id` and a `text` group.
pub open spec fn pattern_fault(source: Seq<char>) -> Option<ConfigFault> {
    if !regex_compiles(source) {
        Some(ConfigFault::InvalidPattern(source))
    } else if !has_group(regex_group_names(source), seq!['i', 'd']) || !has_group(
        regex_group_names(source),
        seq!['t', 'e', 'x', 't'],
    ) {
        Some(ConfigFault::MissingGroups(source))
    } else {
        None
    }
}

/// The fault of the first faulty source, if any.
pub open spec fn patterns_fault(sources: Seq<Seq<char>>) -> Option<ConfigFault>
    decreases sources.len(),
{
    if sources.len() == 0 {
        None
    } else {
        match pattern_fault(sources[0]) {
            Some(f) => Some(f),
            None => patterns_fault(sources.drop_first()),
        }
    }
}

/// The pattern sources in force: the user's where there are any, else the
/// defaults.
pub open spec fn patterns_choice(user: Seq<Seq<char>>, defaults: Seq<Seq<char>>) -> Seq<Seq<char>> {
    if user.len() == 0 {
        defaults
    } else {
        user
    }
}

/// Whether `names` has an entry `Some(name)`.
fn names_contain(names: &Vec<Option<String>>, name: &str) -> (r: bool)
    ensures
        r == names@.map_values(|n: Option<String>| opt_view(n)).contains(Some(name@)),
{
    let ghost nv = names@.map_values(|n: Option<String>| opt_view(n));
    let mut k: usize = 0;
    while k < names.len()
        invariant
            nv == names@.map_values(|n: Option<String>| opt_view(n)),
            k <= names@.len(),
            forall|j: int| 0 <= j < k ==> nv[j] != Some(name@),
        decreases names@.len() - k,
    {
        assert(nv[k as int] == opt_view(names@[k as int]));
        match &names[k] {
            Some(n) => {
                if chars_eq(&chars_of(n.as_str()), &chars_of(name)) {
                    return true;
                }
            },
            None => {},
        }
        k += 1;
    }
    false
}

/// Compiles one pattern and checks that it captures both `id` and `text`.
pub fn compile_pattern(source: &str) -> (r: Result<Pattern, ConfigError>)
    ensures
        match r {
            Ok(p) => pattern_fault(source@) is None && p@ == source@,
            Err(e) => pattern_fault(source@) == Some(e.fault()),
        },
{
    let p = match compile_regex(source) {
        Ok(p) => p,
        Err(cause) => {
            return Err(ConfigError::InvalidPattern { pattern: source.to_owned(), cause });
        },
    };
    let names = group_names(&p);
    let has_id = names_contain(&names, "id");
    let has_text = names_contain(&names, "text");
    proof {
        reveal_strlit("id");
        reveal_strlit("text");
        assert("id"@ =~= seq!['i', 'd']);
        assert("text"@ =~= seq!['t', 'e', 'x', 't']);
    }
    if !has_id || !has_text {
        return Err(ConfigError::MissingGroups { pattern: source.to_owned() });
    }
    Ok(p)
}

/// Compiles each of `sources` in order, stopping at the first faulty one.
fn compile_all(sources: &Vec<String>) -> (r: Result<Vec<Pattern>, ConfigError>)
    ensures
        match r {
            Ok(ps) => patterns_fault(strings_view(sources@)) is None && patterns_view(ps@)
                == strings_view(sources@),
            Err(e) => patterns_fault(strings_view(sources@)) == Some(e.fault()),
        },
{
    let ghost sv = strings_view(sources@);
    let mut out: Vec<Pattern> = Vec::new();
    let mut k: usize = 0;
    assert(sv.skip(0) =~= sv);
    while k < sources.len()
        invariant
            sv == strings_view(sources@),
            k <= sources@.len(),
            patterns_fault(sv) == patterns_fault(sv.skip(k as int)),
            patterns_view(out@) == sv.take(k as int),
        decreases sources@.len() - k,
    {
        assert(sv.skip(k as int)[0] == sources@[k as int]@);
        let p = compile_pattern(sources[k].as_str())?;
        let ghost before = out@;
        out.push(p);
        assert(patterns_view(out@) =~= patterns_view(before).push(sources@[k as int]@));
        assert(sv.take(k + 1) =~= sv.take(k as int).push(sources@[k as int]@));
        assert(sv.skip(k as int).drop_first() =~= sv.skip(k + 1));
        k += 1;
    }
    assert(sv.skip(k as int) =~= Seq::<Seq<char>>::empty());
    assert(sv.take(k as int) =~= sv);
    Ok(out)
}

/// Compiles the user's patterns, or the defaults where the user gives none.
pub fn compile_patterns(user: &Vec<String>, defaults: &Vec<String>) -> (r: Result<
    Vec<Pattern>,
    ConfigError,
>)
    ensures
        match r {
            Ok(ps) => {
                let chosen = patterns_choice(strings_view(user@), strings_view(defaults@));
                patterns_fault(chosen) is None && patterns_view(ps@) == chosen
            },
            Err(e) => patterns_fault(patterns_choice(strings_view(user@), strings_view(defaults@)))
                == Some(e.fault()),
        },
{
    if user.len() == 0 {
        compile_all(defaults)
    } else {
        compile_all(user)
    }
}

// ---------------------------------------------------------------------------
// Loading
// ---------------------------------------------------------------------------

/// What is wrong with a configuration, if anything, in the order in which it
/// is found: spec globs, test globs, spec patterns, test patterns.
pub open spec fn load_fault(
    raw: RawConfig,
    cli_specs: Seq<Seq<char>>,
    cli_tests: Seq<Seq<char>>,
) -> Option<ConfigFault> {
    if globs_choice(cli_specs, strings_view(raw.specs@)) is None {
        Some(ConfigFault::NoGlobs(seq!['s', 'p', 'e', 'c', 's']))
    } else if globs_choice(cli_tests, strings_view(raw.tests@)) is None {
        Some(ConfigFault::NoGlobs(seq!['t', 'e', 's', 't', 's']))
    } else if patterns_fault(
        patterns_choice(strings_view(raw.spec_patterns@), default_spec_pattern_sources()),
    ) is Some {
        patterns_fault(
            patterns_choice(strings_view(raw.spec_patterns@), default_spec_pattern_sources()),
        )
    } else {
        patterns_fault(
            patterns_choice(strings_view(raw.test_patterns@), default_test_pattern_sources()),
        )
    }
}

/// The first of two optional severities that is given, else `fallback`.
pub open spec fn severity_or(first: Option<Severity>, second: Option<Severity>, fallback: Severity) -> Severity {
    match first {
        Some(s) => s,
        None => match second {
            Some(s) => s,
            None => fallback,
        },
    }
}

fn severity_or_exec(first: Option<Severity>, second: Option<Severity>, fallback: Severity) -> (r: Severity)
    ensures
        r == severity_or(first, second, fallback),
{
    match first {
        Some(s) => s,
        None => match second {
            Some(s) => s,
            None => fallback,
        },
    }
}

impl Config {
    /// Builds the configuration from the values of the configuration file,
    /// found in the directory `root`, and the command line. Globs of the
    /// command line win over those of the file; user patterns replace the
    /// default ones; an empty-glob severity from the command line wins over
    /// the file's, and it defaults to a warning; the other severities default
    /// to failures.
    pub fn load(
        root: String,
        raw: &RawConfig,
        cli_specs: &Vec<String>,
        cli_tests: &Vec<String>,
        cli_on_empty_glob: Option<Severity>,
    ) -> (r: Result<Config, ConfigError>)
        ensures
            r is Err == load_fault(*raw, strings_view(cli_specs@), strings_view(cli_tests@)) is Some,
            r matches Err(e) ==> load_fault(*raw, strings_view(cli_specs@), strings_view(cli_tests@))
                == Some(e.fault()),
            r matches Ok(c) ==> {
                &&& c.root@ == root@
                &&& globs_choice(strings_view(cli_specs@), strings_view(raw.specs@)) == Some(
                    strings_view(c.spec_globs@),
                )
                &&& globs_choice(strings_view(cli_tests@), strings_view(raw.tests@)) == Some(
                    strings_view(c.test_globs@),
                )
                &&& patterns_view(c.spec_patterns@) == patterns_choice(
                    strings_view(raw.spec_patterns@),
                    default_spec_pattern_sources(),
                )
                &&& patterns_view(c.test_patterns@) == patterns_choice(
                    strings_view(raw.test_patterns@),
                    default_test_pattern_sources(),
                )
                &&& c.on_empty_glob == severity_or(
                    cli_on_empty_glob,
                    raw.on_empty_glob,
                    Severity::Warn,
                )
                &&& c.on_unknown_id == severity_or(raw.on_unknown_id, None, Severity::Error)
                &&& c.on_missing_test == severity_or(raw.on_missing_test, None, Severity::Error)
                &&& c.on_text_mismatch == severity_or(raw.on_text_mismatch, None, Severity::Error)
            },
    {
        proof {
            reveal_strlit("specs");
            reveal_strlit("tests");
            assert("specs"@ =~= seq!['s', 'p', 'e', 'c', 's']);
            assert("tests"@ =~= seq!['t', 'e', 's', 't', 's']);
        }
        let spec_globs = use_cli_or_file(cli_specs, &raw.specs, "specs")?;
        let test_globs = use_cli_or_file(cli_tests, &raw.tests, "tests")?;
        let spec_defaults = default_spec_patterns();
        let test_defaults = default_test_patterns();
        let spec_patterns = compile_patterns(&raw.spec_patterns, &spec_defaults)?;
        let test_patterns = compile_patterns(&raw.test_patterns, &test_defaults)?;
        Ok(Config {
            root,
            spec_globs,
            test_globs,
            spec_patterns,
            test_patterns,
            on_empty_glob: severity_or_exec(cli_on_empty_glob, raw.on_empty_glob, Severity::Warn),
            on_unknown_id: severity_or_exec(raw.on_unknown_id, None, Severity::Error),
            on_missing_test: severity_or_exec(raw.on_missing_test, None, Severity::Error),
            on_text_mismatch: severity_or_exec(raw.on_text_mismatch, None, Severity::Error),
        })
    }
}

// ---------------------------------------------------------------------------
// Finding the configuration file
// ---------------------------------------------------------------------------

/// The names a configuration file may have, in the order they are tried.
pub open spec fn config_names() -> Seq<Seq<char>> {
    seq!["sdd-spec-check.config.toml"@, ".sdd-spec-check.config.toml"@]
}

/// The names a configuration file may have, in the order they are tried.
pub fn default_config_names() -> (r: Vec<String>)
    ensures
        strings_view(r@) == config_names(),
{
    let mut r: Vec<String> = Vec::new();
    r.push(String::from_str("sdd-spec-check.config.toml"));
    r.push(String::from_str(".sdd-spec-check.config.toml"));
    assert(strings_view(r@) =~= config_names());
    r
}

/// Each of `names` joined onto `dir`, in order.
pub open spec fn names_in(dir: Seq<char>, names: Seq<Seq<char>>) -> Seq<Seq<char>> {
    names.map_values(|n: Seq<char>| path_join(dir, n))
}

/// Each of `names` in each of `dirs`: the names in the first directory, then
/// those in the second, and so on.
pub open spec fn names_in_dirs(dirs: Seq<Seq<char>>, names: Seq<Seq<char>>) -> Seq<Seq<char>>
    decreases dirs.len(),
{
    if dirs.len() == 0 {
        seq![]
    } else {
        names_in_dirs(dirs.drop_last(), names) + names_in(dirs.last(), names)
    }
}

/// The paths at which the configuration file is looked for, from `dir`
/// upward: each name in `dir`, then each name in its parent, and so on up to
/// the root.
pub open spec fn config_candidates_of(dir: Seq<char>) -> Seq<Seq<char>> {
    names_in_dirs(path_ancestors(dir), config_names())
}

/// The paths at which the configuration file is looked for, in order: the
/// first of them that is a file is the configuration.
pub fn config_candidates(dir: &str) -> (r: Vec<String>)
    ensures
        strings_view(r@) == config_candidates_of(dir@),
{
    let names = default_config_names();
    let dirs = ancestors_of(dir);
    let ghost dv = dirs@.map_values(|s: String| s@);
    let ghost nv = strings_view(names@);
    let mut out: Vec<String> = Vec::new();
    let mut k: usize = 0;
    assert(dv.take(0) =~= Seq::<Seq<char>>::empty());
    assert(strings_view(out@) =~= Seq::<Seq<char>>::empty());
    while k < dirs.len()
        invariant
            dv == dirs@.map_values(|s: String| s@),
            nv == strings_view(names@),
            k <= dirs@.len(),
            strings_view(out@) == names_in_dirs(dv.take(k as int), nv),
        decreases dirs@.len() - k,
    {
        let ghost start = strings_view(out@);
        let mut j: usize = 0;
        assert(nv.take(0) =~= Seq::<Seq<char>>::empty());
        assert(start =~= start + names_in(dv[k as int], nv.take(0)));
        while j < names.len()
            invariant
                dv == dirs@.map_values(|s: String| s@),
                nv == strings_view(names@),
                k < dirs@.len(),
                j <= names@.len(),
                strings_view(out@) == start + names_in(dv[k as int], nv.take(j as int)),
            decreases names@.len() - j,
        {
            let p = join_path(dirs[k].as_str(), names[j].as_str());
            let ghost before = strings_view(out@);
            out.push(p);
            assert(strings_view(out@) =~= before.push(p@));
            assert(nv.take(j + 1) =~= nv.take(j as int).push(nv[j as int]));
            assert(names_in(dv[k as int], nv.take(j + 1)) =~= names_in(dv[k as int], nv.take(j as int)).push(
                path_join(dv[k as int], nv[j as int]),
            ));
            j += 1;
        }
        assert(nv.take(j as int) =~= nv);
        assert(dv.take(k + 1).drop_last() =~= dv.take(k as int));
        assert(dv.take(k + 1).last() == dv[k as int]);
        k += 1;
    }
    assert(dv.take(k as int) =~= dv);
    out
}

/// The directory of a configuration file: its parent, or `.` where it has
/// none.
pub open spec fn config_root_of(path: Seq<char>) -> Seq<char> {
    match path_parent(path) {
        Some(p) => p,
        None => "."@,
    }
}

/// The directory that the globs of the configuration file at `path` are
/// relative to.
pub fn config_root(path: &str) -> (r: String)
    ensures
        r@ == config_root_of(path@),
{
    match parent_of(path) {
        Some(p) => p,
        None => String::from_str("."),
    }
}

/// The first path of `candidates` that is marked as a file.
pub open spec fn first_marked(candidates: Seq<(Seq<char>, bool)>) -> Option<Seq<char>>
    decreases candidates.len(),
{
    if candidates.len() == 0 {
        None
    } else if candidates[0].1 {
        Some(candidates[0].0)
    } else {
        first_marked(candidates.drop_first())
    }
}

pub open spec fn marked_view(v: Seq<(String, bool)>) -> Seq<(Seq<char>, bool)> {
    v.map_values(|c: (String, bool)| (c.0@, c.1))
}

/// The configuration file among the candidate paths, each given with whether
/// it is a file: the first that is one; an error where none is.
pub fn first_existing(candidates: &Vec<(String, bool)>) -> (r: Result<String, ConfigError>)
    ensures
        match r {
            Ok(p) => first_marked(marked_view(candidates@)) == Some(p@),
            Err(e) => first_marked(marked_view(candidates@)) is None && e.fault()
                == ConfigFault::NoConfigFile,
        },
{
    let ghost cv = marked_view(candidates@);
    let mut k: usize = 0;
    assert(cv.skip(0) =~= cv);
    while k < candidates.len()
        invariant
            cv == marked_view(candidates@),
            k <= candidates@.len(),
            first_marked(cv) == first_marked(cv.skip(k as int)),
        decreases candidates@.len() - k,
    {
        assert(cv.skip(k as int)[0] == (candidates@[k as int].0@, candidates@[k as int].1));
        if candidates[k].1 {
            return Ok(candidates[k].0.clone());
        }
        assert(cv.skip(k as int).drop_first() =~= cv.skip(k + 1));
        k += 1;
    }
    assert(cv.skip(k as int) =~= Seq::<(Seq<char>, bool)>::empty());
    Err(ConfigError::NoConfigFile)
}

} // verus!
