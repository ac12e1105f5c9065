//! Collecting rules from spec files and rule references from test files.
//!
//! Which files take part is decided by globs over paths relative to the root;
//! each line of a file is matched against the configured patterns.

use vstd::prelude::*;

use crate::config::{strings_view, Config};
use crate::paths::{path_order, path_order_str, relative_path, relative_to, text_order, text_order_str, Order};
use crate::pattern::{all_groups, first_groups, groups_view, opt_view, regex_all_groups, regex_first_groups, Pattern};
use crate::sorting::{insert_pos, insert_sorted, insertion_sort, lemma_insert_pos_bound, lemma_insert_pos_scan};
use crate::text::{chars_of, current_spec, is_current, lines_of, lines_view, normalize, normalized, split_lines, string_of};

verus! {

// ---------------------------------------------------------------------------
// Types
// ---------------------------------------------------------------------------

/// A rule defined in a spec file: its text, the file (relative to the root)
/// and the line (counted from 1) that define it.
#[derive(Debug)]
pub struct SpecRule {
    pub text: String,
    pub file: String,
    pub line: usize,
}

/// A test's reference to a rule: the text it gives, the file (relative to the
/// root) and the line (counted from 1) where it stands.
#[derive(Debug)]
pub struct TestRef {
    pub text: String,
    pub file: String,
    pub line: usize,
}

/// A rule or a reference as text, file and line.
pub type Located = (Seq<char>, Seq<char>, usize);

impl View for SpecRule {
    type V = Located;

    open spec fn view(&self) -> Located {
        (self.text@, self.file@, self.line)
    }
}

impl View for TestRef {
    type V = Located;

    open spec fn view(&self) -> Located {
        (self.text@, self.file@, self.line)
    }
}

impl SpecRule {
    pub fn copy(&self) -> (r: SpecRule)
        ensures
            r@ == self@,
    {
        SpecRule { text: self.text.clone(), file: self.file.clone(), line: self.line }
    }
}

impl TestRef {
    pub fn copy(&self) -> (r: TestRef)
        ensures
            r@ == self@,
    {
        TestRef { text: self.text.clone(), file: self.file.clone(), line: self.line }
    }
}

/// Everything collected: the rules of the current spec files by id, the
/// number of spec files, the references of the test files by id, and the
/// number of test files. Each id stands at most once in each list.
pub struct Collected {
    pub specs: Vec<(String, SpecRule)>,
    pub spec_files: usize,
    pub tests: Vec<(String, Vec<TestRef>)>,
    pub test_files: usize,
}

/// A file of the tree: its path and its content.
pub struct SourceFile {
    pub path: String,
    pub content: String,
}

pub open spec fn files_view(v: Seq<SourceFile>) -> Seq<(Seq<char>, Seq<char>)> {
    v.map_values(|f: SourceFile| (f.path@, f.content@))
}

pub open spec fn rules_view(v: Seq<(String, SpecRule)>) -> Seq<(Seq<char>, Located)> {
    v.map_values(|e: (String, SpecRule)| (e.0@, e.1@))
}

pub open spec fn refs_view(v: Seq<TestRef>) -> Seq<Located> {
    v.map_values(|r: TestRef| r@)
}

pub open spec fn ref_lists_view(v: Seq<(String, Vec<TestRef>)>) -> Seq<(Seq<char>, Seq<Located>)> {
    v.map_values(|e: (String, Vec<TestRef>)| (e.0@, refs_view(e.1@)))
}

impl Collected {
    /// Each id stands at most once among the rules and once among the
    /// references.
    pub open spec fn wf(&self) -> bool {
        &&& distinct_keys(rules_view(self.specs@))
        &&& distinct_keys(ref_lists_view(self.tests@))
    }
}

// ---------------------------------------------------------------------------
// Keyed lists
// ---------------------------------------------------------------------------

/// No key stands twice.
pub open spec fn distinct_keys<V>(e: Seq<(Seq<char>, V)>) -> bool {
    forall|i: int, j: int| 0 <= i < e.len() && 0 <= j < e.len() && i != j ==> e[i].0 != e[j].0
}

/// `i` is the first index with key `k`.
pub open spec fn first_key_at<V>(e: Seq<(Seq<char>, V)>, k: Seq<char>, i: int) -> bool {
    0 <= i < e.len() && e[i].0 == k && forall|j: int| 0 <= j < i ==> e[j].0 != k
}

/// Whether key `k` stands in `e`.
pub open spec fn has_key<V>(e: Seq<(Seq<char>, V)>, k: Seq<char>) -> bool {
    exists|i: int| 0 <= i < e.len() && e[i].0 == k
}

/// The value of the first entry with key `k`.
pub open spec fn lookup<V>(e: Seq<(Seq<char>, V)>, k: Seq<char>) -> Option<V> {
    if has_key(e, k) {
        Some(e[choose|i: int| first_key_at(e, k, i)].1)
    } else {
        None
    }
}

/// Where a key stands, its first entry gets the value `v`; else the entry is
/// added at the end.
pub open spec fn upsert<V>(e: Seq<(Seq<char>, V)>, k: Seq<char>, v: V) -> Seq<(Seq<char>, V)> {
    if has_key(e, k) {
        e.update(choose|i: int| first_key_at(e, k, i), (k, v))
    } else {
        e.push((k, v))
    }
}

/// Where a key stands, `r` is added to the end of its first entry's list;
/// else an entry with the list of `r` alone is added at the end.
pub open spec fn append_ref(e: Seq<(Seq<char>, Seq<Located>)>, k: Seq<char>, r: Located) -> Seq<
    (Seq<char>, Seq<Located>),
> {
    if has_key(e, k) {
        let i = choose|i: int| first_key_at(e, k, i);
        e.update(i, (k, e[i].1.push(r)))
    } else {
        e.push((k, seq![r]))
    }
}

/// Where a key stands, the first index at which it does is unique.
pub proof fn lemma_first_key<V>(e: Seq<(Seq<char>, V)>, k: Seq<char>, i: int)
    requires
        first_key_at(e, k, i),
    ensures
        has_key(e, k),
        (choose|c: int| first_key_at(e, k, c)) == i,
{
    let c = choose|c: int| first_key_at(e, k, c);
    assert(first_key_at(e, k, c));
    if c < i {
        assert(e[c].0 != k);
    } else if c > i {
        assert(e[i].0 != k);
    }
}

/// The index of the first entry with key `k`, if any.
pub(crate) fn find_rule(e: &Vec<(String, SpecRule)>, k: &String) -> (r: Option<usize>)
    ensures
        match r {
            Some(i) => first_key_at(rules_view(e@), k@, i as int),
            None => !has_key(rules_view(e@), k@),
        },
{
    let ghost ev = rules_view(e@);
    let mut i: usize = 0;
    while i < e.len()
        invariant
            ev == rules_view(e@),
            i <= e@.len(),
            forall|j: int| 0 <= j < i ==> ev[j].0 != k@,
        decreases e@.len() - i,
    {
        assert(ev[i as int].0 == e@[i as int].0@);
        if e[i].0 == *k {
            return Some(i);
        }
        i += 1;
    }
    None
}

/// The index of the first entry with key `k`, if any.
pub(crate) fn find_refs(e: &Vec<(String, Vec<TestRef>)>, k: &String) -> (r: Option<usize>)
    ensures
        match r {
            Some(i) => first_key_at(ref_lists_view(e@), k@, i as int),
            None => !has_key(ref_lists_view(e@), k@),
        },
{
    let ghost ev = ref_lists_view(e@);
    let mut i: usize = 0;
    while i < e.len()
        invariant
            ev == ref_lists_view(e@),
            i <= e@.len(),
            forall|j: int| 0 <= j < i ==> ev[j].0 != k@,
        decreases e@.len() - i,
    {
        assert(ev[i as int].0 == e@[i as int].0@);
        if e[i].0 == *k {
            return Some(i);
        }
        i += 1;
    }
    None
}

/// Sets the rule of `id`, replacing an earlier one.
fn upsert_rule(e: &mut Vec<(String, SpecRule)>, id: String, rule: SpecRule)
    ensures
        rules_view(final(e)@) == upsert(rules_view(old(e)@), id@, rule@),
        distinct_keys(rules_view(old(e)@)) ==> distinct_keys(rules_view(final(e)@)),
{
    match find_rule(e, &id) {
        Some(i) => {
            proof {
                lemma_first_key(rules_view(e@), id@, i as int);
            }
            let ghost before = e@;
            e.set(i, (id, rule));
            assert(rules_view(e@) =~= upsert(rules_view(before), id@, rule@));
            assert(forall|j: int| 0 <= j < e@.len() ==> #[trigger] rules_view(e@)[j].0 == rules_view(before)[j].0);
        },
        None => {
            let ghost before = e@;
            e.push((id, rule));
            assert(rules_view(e@) =~= upsert(rules_view(before), id@, rule@));
            assert(forall|j: int| 0 <= j < before.len() ==> #[trigger] rules_view(e@)[j].0 == rules_view(before)[j].0);
        },
    }
}

/// Adds a reference to the list of `id`.
fn append_test_ref(e: &mut Vec<(String, Vec<TestRef>)>, id: String, r: TestRef)
    ensures
        ref_lists_view(final(e)@) == append_ref(ref_lists_view(old(e)@), id@, r@),
        distinct_keys(ref_lists_view(old(e)@)) ==> distinct_keys(ref_lists_view(final(e)@)),
{
    match find_refs(e, &id) {
        Some(i) => {
            proof {
                lemma_first_key(ref_lists_view(e@), id@, i as int);
            }
            let ghost before = e@;
            let (k, mut list) = e.remove(i);
            let ghost old_list = list@;
            list.push(r);
            assert(refs_view(list@) =~= refs_view(old_list).push(r@));
            e.insert(i, (k, list));
            assert(ref_lists_view(e@) =~= append_ref(ref_lists_view(before), id@, r@));
            assert(forall|j: int| 0 <= j < e@.len() ==> #[trigger] ref_lists_view(e@)[j].0 == ref_lists_view(before)[j].0);
        },
        None => {
            let ghost before = e@;
            let mut list: Vec<TestRef> = Vec::new();
            list.push(r);
            assert(refs_view(list@) =~= seq![r@]);
            e.push((id, list));
            assert(ref_lists_view(e@) =~= append_ref(ref_lists_view(before), id@, r@));
            assert(forall|j: int| 0 <= j < before.len() ==> #[trigger] ref_lists_view(e@)[j].0 == ref_lists_view(before)[j].0);
        },
    }
}

// ---------------------------------------------------------------------------
// Reading spec files
// ---------------------------------------------------------------------------

/// What a match's `id` and `text` groups matched, where both took part.
pub open spec fn complete(g: (Option<Seq<char>>, Option<Seq<char>>)) -> bool {
    g.0 is Some && g.1 is Some
}

/// The groups of the first pattern, in order, that matches `line`.
pub open spec fn line_groups(patterns: Seq<Seq<char>>, line: Seq<char>) -> Option<
    (Option<Seq<char>>, Option<Seq<char>>),
>
    decreases patterns.len(),
{
    if patterns.len() == 0 {
        None
    } else {
        match regex_first_groups(patterns[0], line) {
            Some(g) => Some(g),
            None => line_groups(patterns.drop_first(), line),
        }
    }
}

/// The rules in `acc` after the first `n` lines of a spec file have been read:
/// a line that a pattern matches defines the rule of the matched id with the
/// normalised matched text, replacing an earlier definition.
pub open spec fn rules_in_lines(
    acc: Seq<(Seq<char>, Located)>,
    patterns: Seq<Seq<char>>,
    lines: Seq<Seq<char>>,
    file: Seq<char>,
    n: nat,
) -> Seq<(Seq<char>, Located)>
    decreases n,
{
    if n == 0 {
        acc
    } else {
        let prev = rules_in_lines(acc, patterns, lines, file, (n - 1) as nat);
        match line_groups(patterns, lines[n - 1]) {
            Some((Some(id), Some(text))) => upsert(prev, id, (normalized(text), file, n as usize)),
            _ => prev,
        }
    }
}

/// The rules defined by the current ones of the spec files, read in order.
pub open spec fn rules_in_files(
    patterns: Seq<Seq<char>>,
    root: Seq<char>,
    files: Seq<(Seq<char>, Seq<char>)>,
) -> Seq<(Seq<char>, Located)>
    decreases files.len(),
{
    if files.len() == 0 {
        seq![]
    } else {
        let prev = rules_in_files(patterns, root, files.drop_last());
        let f = files.last();
        if current_spec(f.1) {
            let ls = split_lines(f.1);
            rules_in_lines(prev, patterns, ls, relative_path(root, f.0), ls.len())
        } else {
            prev
        }
    }
}

/// Where a pattern matches a line of a current spec file, both its `id` and
/// its `text` group take part in the match.
pub open spec fn spec_lines_complete(patterns: Seq<Seq<char>>, lines: Seq<Seq<char>>) -> bool {
    forall|i: int|
        #![trigger lines[i]]
        0 <= i < lines.len() ==> match line_groups(patterns, lines[i]) {
            Some(g) => complete(g),
            None => true,
        }
}

pub open spec fn spec_files_complete(
    patterns: Seq<Seq<char>>,
    files: Seq<(Seq<char>, Seq<char>)>,
) -> bool {
    forall|k: int|
        #![trigger files[k]]
        0 <= k < files.len() && current_spec(files[k].1) ==> spec_lines_complete(
            patterns,
            split_lines(files[k].1),
        )
}

/// The groups of the first pattern that matches `line`.
fn line_groups_exec(patterns: &Vec<Pattern>, line: &str) -> (r: Option<
    (Option<String>, Option<String>),
>)
    ensures
        match r {
            Some(g) => line_groups(crate::config::patterns_view(patterns@), line@) == Some(
                groups_view(g),
            ),
            None => line_groups(crate::config::patterns_view(patterns@), line@) is None,
        },
{
    let ghost pv = crate::config::patterns_view(patterns@);
    let mut j: usize = 0;
    assert(pv.skip(0) =~= pv);
    while j < patterns.len()
        invariant
            pv == crate::config::patterns_view(patterns@),
            j <= patterns@.len(),
            line_groups(pv, line@) == line_groups(pv.skip(j as int), line@),
        decreases patterns@.len() - j,
    {
        assert(pv.skip(j as int)[0] == patterns@[j as int]@);
        match first_groups(&patterns[j], line) {
            Some(g) => {
                return Some(g);
            },
            None => {},
        }
        assert(pv.skip(j as int).drop_first() =~= pv.skip(j + 1));
        j += 1;
    }
    None
}

/// Reads the rules that `lines` of the file `file` define into `specs`.
fn add_rules_of_lines(
    specs: &mut Vec<(String, SpecRule)>,
    patterns: &Vec<Pattern>,
    lines: &Vec<Vec<char>>,
    file: &String,
)
    requires
        spec_lines_complete(crate::config::patterns_view(patterns@), lines_view(lines@)),
    ensures
        rules_view(final(specs)@) == rules_in_lines(
            rules_view(old(specs)@),
            crate::config::patterns_view(patterns@),
            lines_view(lines@),
            file@,
            lines@.len(),
        ),
        distinct_keys(rules_view(old(specs)@)) ==> distinct_keys(rules_view(final(specs)@)),
{
    let ghost pv = crate::config::patterns_view(patterns@);
    let ghost lv = lines_view(lines@);
    let ghost start = rules_view(specs@);
    let mut i: usize = 0;
    while i < lines.len()
        invariant
            pv == crate::config::patterns_view(patterns@),
            lv == lines_view(lines@),
            spec_lines_complete(pv, lv),
            i <= lines@.len(),
            rules_view(specs@) == rules_in_lines(start, pv, lv, file@, i as nat),
            distinct_keys(start) ==> distinct_keys(rules_view(specs@)),
        decreases lines@.len() - i,
    {
        let line = string_of(&lines[i]);
        assert(line@ == lv[i as int]);
        let g = line_groups_exec(patterns, line.as_str());
        match g {
            Some((Some(id), Some(text))) => {
                let rule = SpecRule { text: normalize(text.as_str()), file: file.clone(), line: i + 1 };
                upsert_rule(specs, id, rule);
            },
            Some(_) => {
                assert(complete(line_groups(pv, lv[i as int]).unwrap()));
            },
            None => {},
        }
        i += 1;
    }
}

/// The rules that the current ones of `files` define, by id, in the order in
/// which each id was first defined; where an id is defined twice, the later
/// definition wins.
pub fn read_specs(files: &Vec<SourceFile>, root: &str, patterns: &Vec<Pattern>) -> (specs: Vec<
    (String, SpecRule),
>)
    requires
        spec_files_complete(crate::config::patterns_view(patterns@), files_view(files@)),
    ensures
        rules_view(specs@) == rules_in_files(
            crate::config::patterns_view(patterns@),
            root@,
            files_view(files@),
        ),
        distinct_keys(rules_view(specs@)),
{
    let ghost pv = crate::config::patterns_view(patterns@);
    let ghost fv = files_view(files@);
    let mut specs: Vec<(String, SpecRule)> = Vec::new();
    let mut k: usize = 0;
    assert(fv.take(0) =~= Seq::<(Seq<char>, Seq<char>)>::empty());
    assert(rules_view(specs@) =~= Seq::<(Seq<char>, Located)>::empty());
    while k < files.len()
        invariant
            pv == crate::config::patterns_view(patterns@),
            fv == files_view(files@),
            spec_files_complete(pv, fv),
            k <= files@.len(),
            rules_view(specs@) == rules_in_files(pv, root@, fv.take(k as int)),
            distinct_keys(rules_view(specs@)),
        decreases files@.len() - k,
    {
        let f = &files[k];
        assert(fv[k as int] == (f.path@, f.content@));
        assert(fv.take(k + 1).drop_last() =~= fv.take(k as int));
        assert(fv.take(k + 1).last() == fv[k as int]);
        if is_current(f.content.as_str()) {
            let cs = chars_of(f.content.as_str());
            let lines = lines_of(&cs);
            let file = relative_to(root, f.path.as_str());
            add_rules_of_lines(&mut specs, patterns, &lines, &file);
        }
        k += 1;
    }
    assert(fv.take(k as int) =~= fv);
    specs
}

// ---------------------------------------------------------------------------
// Reading test files
// ---------------------------------------------------------------------------

/// The references in `acc` after the first `n` matches of a line have been
/// read: each adds a reference to its id with the normalised matched text.
pub open spec fn refs_in_groups(
    acc: Seq<(Seq<char>, Seq<Located>)>,
    groups: Seq<(Option<Seq<char>>, Option<Seq<char>>)>,
    file: Seq<char>,
    line: usize,
    n: nat,
) -> Seq<(Seq<char>, Seq<Located>)>
    decreases n,
{
    if n == 0 {
        acc
    } else {
        let prev = refs_in_groups(acc, groups, file, line, (n - 1) as nat);
        match groups[n - 1] {
            (Some(id), Some(text)) => append_ref(prev, id, (normalized(text), file, line)),
            _ => prev,
        }
    }
}

/// The references in `acc` after the matches of the first `m` patterns in a
/// line have been read, pattern after pattern.
pub open spec fn refs_in_line(
    acc: Seq<(Seq<char>, Seq<Located>)>,
    patterns: Seq<Seq<char>>,
    line: Seq<char>,
    file: Seq<char>,
    lineno: usize,
    m: nat,
) -> Seq<(Seq<char>, Seq<Located>)>
    decreases m,
{
    if m == 0 {
        acc
    } else {
        let prev = refs_in_line(acc, patterns, line, file, lineno, (m - 1) as nat);
        let g = regex_all_groups(patterns[m - 1], line);
        refs_in_groups(prev, g, file, lineno, g.len())
    }
}

/// The references in `acc` after the first `n` lines of a test file.
pub open spec fn refs_in_lines(
    acc: Seq<(Seq<char>, Seq<Located>)>,
    patterns: Seq<Seq<char>>,
    lines: Seq<Seq<char>>,
    file: Seq<char>,
    n: nat,
) -> Seq<(Seq<char>, Seq<Located>)>
    decreases n,
{
    if n == 0 {
        acc
    } else {
        let prev = refs_in_lines(acc, patterns, lines, file, (n - 1) as nat);
        refs_in_line(prev, patterns, lines[n - 1], file, n as usize, patterns.len())
    }
}

/// The references of the test files, read in order, before duplicates go.
pub open spec fn refs_in_files(
    patterns: Seq<Seq<char>>,
    root: Seq<char>,
    files: Seq<(Seq<char>, Seq<char>)>,
) -> Seq<(Seq<char>, Seq<Located>)>
    decreases files.len(),
{
    if files.len() == 0 {
        seq![]
    } else {
        let prev = refs_in_files(patterns, root, files.drop_last());
        let f = files.last();
        let ls = split_lines(f.1);
        refs_in_lines(prev, patterns, ls, relative_path(root, f.0), ls.len())
    }
}

pub open spec fn groups_complete(gs: Seq<(Option<Seq<char>>, Option<Seq<char>>)>) -> bool {
    forall|m: int| #![trigger gs[m]] 0 <= m < gs.len() ==> complete(gs[m])
}

/// Every match of every pattern in `line` has both its groups.
pub open spec fn line_refs_complete(patterns: Seq<Seq<char>>, line: Seq<char>) -> bool {
    forall|j: int|
        #![trigger patterns[j]]
        0 <= j < patterns.len() ==> groups_complete(regex_all_groups(patterns[j], line))
}

pub open spec fn test_lines_complete(patterns: Seq<Seq<char>>, lines: Seq<Seq<char>>) -> bool {
    forall|i: int| #![trigger lines[i]] 0 <= i < lines.len() ==> line_refs_complete(patterns, lines[i])
}

/// Every match in every line of the test files has both its groups.
pub open spec fn test_files_complete(
    patterns: Seq<Seq<char>>,
    files: Seq<(Seq<char>, Seq<char>)>,
) -> bool {
    forall|k: int|
        #![trigger files[k]]
        0 <= k < files.len() ==> test_lines_complete(patterns, split_lines(files[k].1))
}

pub open spec fn groups_list_view(v: Seq<(Option<String>, Option<String>)>) -> Seq<
    (Option<Seq<char>>, Option<Seq<char>>),
> {
    v.map_values(|g: (Option<String>, Option<String>)| groups_view(g))
}

/// Adds the references of the matches `groups` at line `line` of `file`.
fn add_refs_of_groups(
    tests: &mut Vec<(String, Vec<TestRef>)>,
    groups: &Vec<(Option<String>, Option<String>)>,
    file: &String,
    line: usize,
)
    requires
        groups_complete(groups_list_view(groups@)),
    ensures
        ref_lists_view(final(tests)@) == refs_in_groups(
            ref_lists_view(old(tests)@),
            groups_list_view(groups@),
            file@,
            line,
            groups@.len(),
        ),
        distinct_keys(ref_lists_view(old(tests)@)) ==> distinct_keys(ref_lists_view(final(tests)@)),
{
    let ghost gv = groups_list_view(groups@);
    let ghost start = ref_lists_view(tests@);
    let mut m: usize = 0;
    while m < groups.len()
        invariant
            gv == groups_list_view(groups@),
            groups_complete(gv),
            m <= groups@.len(),
            ref_lists_view(tests@) == refs_in_groups(start, gv, file@, line, m as nat),
            distinct_keys(start) ==> distinct_keys(ref_lists_view(tests@)),
        decreases groups@.len() - m,
    {
        assert(gv[m as int] == groups_view(groups@[m as int]));
        assert(complete(gv[m as int]));
        match &groups[m] {
            (Some(id), Some(text)) => {
                let r = TestRef { text: normalize(text.as_str()), file: file.clone(), line };
                append_test_ref(tests, id.clone(), r);
            },
            _ => {},
        }
        m += 1;
    }
}

/// Adds the references that `patterns` find in `line`, the line `lineno` of
/// `file`.
fn add_refs_of_line(
    tests: &mut Vec<(String, Vec<TestRef>)>,
    patterns: &Vec<Pattern>,
    line: &String,
    file: &String,
    lineno: usize,
)
    requires
        line_refs_complete(crate::config::patterns_view(patterns@), line@),
    ensures
        ref_lists_view(final(tests)@) == refs_in_line(
            ref_lists_view(old(tests)@),
            crate::config::patterns_view(patterns@),
            line@,
            file@,
            lineno,
            patterns@.len(),
        ),
        distinct_keys(ref_lists_view(old(tests)@)) ==> distinct_keys(ref_lists_view(final(tests)@)),
{
    let ghost pv = crate::config::patterns_view(patterns@);
    let ghost start = ref_lists_view(tests@);
    let mut j: usize = 0;
    while j < patterns.len()
        invariant
            pv == crate::config::patterns_view(patterns@),
            line_refs_complete(pv, line@),
            j <= patterns@.len(),
            ref_lists_view(tests@) == refs_in_line(start, pv, line@, file@, lineno, j as nat),
            distinct_keys(start) ==> distinct_keys(ref_lists_view(tests@)),
        decreases patterns@.len() - j,
    {
        assert(pv[j as int] == patterns@[j as int]@);
        let groups = all_groups(&patterns[j], line.as_str());
        assert(groups_complete(regex_all_groups(pv[j as int], line@)));
        add_refs_of_groups(tests, &groups, file, lineno);
        j += 1;
    }
}

/// Adds the references of the lines of `file`.
fn add_refs_of_lines(
    tests: &mut Vec<(String, Vec<TestRef>)>,
    patterns: &Vec<Pattern>,
    lines: &Vec<Vec<char>>,
    file: &String,
)
    requires
        test_lines_complete(crate::config::patterns_view(patterns@), lines_view(lines@)),
    ensures
        ref_lists_view(final(tests)@) == refs_in_lines(
            ref_lists_view(old(tests)@),
            crate::config::patterns_view(patterns@),
            lines_view(lines@),
            file@,
            lines@.len(),
        ),
        distinct_keys(ref_lists_view(old(tests)@)) ==> distinct_keys(ref_lists_view(final(tests)@)),
{
    let ghost pv = crate::config::patterns_view(patterns@);
    let ghost lv = lines_view(lines@);
    let ghost start = ref_lists_view(tests@);
    let mut i: usize = 0;
    while i < lines.len()
        invariant
            pv == crate::config::patterns_view(patterns@),
            lv == lines_view(lines@),
            test_lines_complete(pv, lv),
            i <= lines@.len(),
            ref_lists_view(tests@) == refs_in_lines(start, pv, lv, file@, i as nat),
            distinct_keys(start) ==> distinct_keys(ref_lists_view(tests@)),
        decreases lines@.len() - i,
    {
        let line = string_of(&lines[i]);
        assert(line@ == lv[i as int]);
        add_refs_of_line(tests, patterns, &line, file, i + 1);
        i += 1;
    }
}

/// The references of `files` by id, before duplicates go.
fn read_all_refs(files: &Vec<SourceFile>, root: &str, patterns: &Vec<Pattern>) -> (tests: Vec<
    (String, Vec<TestRef>),
>)
    requires
        test_files_complete(crate::config::patterns_view(patterns@), files_view(files@)),
    ensures
        ref_lists_view(tests@) == refs_in_files(
            crate::config::patterns_view(patterns@),
            root@,
            files_view(files@),
        ),
        distinct_keys(ref_lists_view(tests@)),
{
    let ghost pv = crate::config::patterns_view(patterns@);
    let ghost fv = files_view(files@);
    let mut tests: Vec<(String, Vec<TestRef>)> = Vec::new();
    let mut k: usize = 0;
    assert(fv.take(0) =~= Seq::<(Seq<char>, Seq<char>)>::empty());
    assert(ref_lists_view(tests@) =~= Seq::<(Seq<char>, Seq<Located>)>::empty());
    while k < files.len()
        invariant
            pv == crate::config::patterns_view(patterns@),
            fv == files_view(files@),
            test_files_complete(pv, fv),
            k <= files@.len(),
            ref_lists_view(tests@) == refs_in_files(pv, root@, fv.take(k as int)),
            distinct_keys(ref_lists_view(tests@)),
        decreases files@.len() - k,
    {
        let f = &files[k];
        assert(fv[k as int] == (f.path@, f.content@));
        assert(fv.take(k + 1).drop_last() =~= fv.take(k as int));
        assert(fv.take(k + 1).last() == fv[k as int]);
        let cs = chars_of(f.content.as_str());
        let lines = lines_of(&cs);
        let file = relative_to(root, f.path.as_str());
        add_refs_of_lines(&mut tests, patterns, &lines, &file);
        k += 1;
    }
    assert(fv.take(k as int) =~= fv);
    tests
}

// ---------------------------------------------------------------------------
// Duplicate references
// ---------------------------------------------------------------------------

/// Whether reference `a` sorts before `b`: by file (as paths compare), then
/// line, then text.
pub closed spec fn ref_before(a: Located, b: Located) -> bool {
    let o = path_order(a.1, b.1);
    ||| o == Order::Less
    ||| o == Order::Equal && (a.2 < b.2 || (a.2 == b.2 && text_order(a.0, b.0) == Order::Less))
}

/// Whether two references are the same: same file (as paths compare), line
/// and text.
pub closed spec fn same_ref(a: Located, b: Located) -> bool {
    path_order(a.1, b.1) == Order::Equal && a.2 == b.2 && a.0 == b.0
}

/// What `ref_before` says.
pub proof fn lemma_ref_before_unfold(a: Located, b: Located)
    ensures
        ref_before(a, b) == {
            let o = path_order(a.1, b.1);
            ||| o == Order::Less
            ||| o == Order::Equal && (a.2 < b.2 || (a.2 == b.2 && text_order(a.0, b.0) == Order::Less))
        },
{
}

/// What `same_ref` says.
pub proof fn lemma_same_ref_unfold(a: Located, b: Located)
    ensures
        same_ref(a, b) == (path_order(a.1, b.1) == Order::Equal && a.2 == b.2 && a.0 == b.0),
{
}

/// `s` without each element that is the same as the last element kept before
/// it.
pub open spec fn dedup_refs(s: Seq<Located>) -> Seq<Located>
    decreases s.len(),
{
    if s.len() == 0 {
        s
    } else {
        let d = dedup_refs(s.drop_last());
        if d.len() > 0 && same_ref(d.last(), s.last()) {
            d
        } else {
            d.push(s.last())
        }
    }
}

/// A list of references sorted by file, line and text, each kept once.
pub open spec fn deduped(refs: Seq<Located>) -> Seq<Located> {
    dedup_refs(insertion_sort(refs, |a: Located, b: Located| ref_before(a, b)))
}

/// Each list of references deduplicated.
pub open spec fn dedupe_lists(e: Seq<(Seq<char>, Seq<Located>)>) -> Seq<(Seq<char>, Seq<Located>)> {
    e.map_values(|x: (Seq<char>, Seq<Located>)| (x.0, deduped(x.1)))
}

/// Whether `a` sorts before `b`.
fn ref_before_exec(a: &TestRef, b: &TestRef) -> (r: bool)
    ensures
        r == ref_before(a@, b@),
{
    let o = path_order_str(a.file.as_str(), b.file.as_str());
    match o {
        Order::Less => true,
        Order::Greater => false,
        Order::Equal => {
            if a.line < b.line {
                true
            } else if a.line > b.line {
                false
            } else {
                text_order_str(a.text.as_str(), b.text.as_str()) == Order::Less
            }
        },
    }
}

/// Whether `a` and `b` are the same reference.
fn same_ref_exec(a: &TestRef, b: &TestRef) -> (r: bool)
    ensures
        r == same_ref(a@, b@),
{
    path_order_str(a.file.as_str(), b.file.as_str()) == Order::Equal && a.line == b.line && a.text
        == b.text
}

/// `refs` sorted stably by file, line and text.
fn sort_refs(refs: Vec<TestRef>) -> (r: Vec<TestRef>)
    ensures
        refs_view(r@) == insertion_sort(refs_view(refs@), |a: Located, b: Located| ref_before(a, b)),
{
    let ghost lt = |a: Located, b: Located| ref_before(a, b);
    let ghost all = refs_view(refs@);
    let mut rest = refs;
    let total = rest.len();
    let mut out: Vec<TestRef> = Vec::new();
    let mut k: usize = 0;
    assert(all.take(0) =~= Seq::<Located>::empty());
    assert(refs_view(out@) =~= Seq::<Located>::empty());
    while rest.len() > 0
        invariant
            k <= all.len(),
            all.len() == total,
            refs_view(rest@) == all.skip(k as int),
            refs_view(out@) == insertion_sort(all.take(k as int), lt),
            lt == (|a: Located, b: Located| ref_before(a, b)),
        decreases rest@.len(),
    {
        let ghost rv = refs_view(rest@);
        let x = rest.remove(0);
        assert(rv[0] == x@);
        assert(refs_view(rest@) =~= all.skip(k + 1)) by {
            assert(rv.drop_first() =~= all.skip(k + 1));
            assert(refs_view(rest@) =~= rv.drop_first());
        }
        assert(all.take(k + 1).drop_last() =~= all.take(k as int));
        assert(all.take(k + 1).last() == x@) by {
            assert(all.skip(k as int)[0] == all[k as int]);
        }
        let ghost ov = refs_view(out@);
        let mut j: usize = out.len();
        assert(ov.take(j as int) =~= ov);
        while j > 0 && ref_before_exec(&x, &out[j - 1])
            invariant
                j <= out@.len(),
                ov == refs_view(out@),
                insert_pos(ov, x@, lt) == insert_pos(ov.take(j as int), x@, lt),
                lt == (|a: Located, b: Located| ref_before(a, b)),
            decreases j,
        {
            proof {
                lemma_insert_pos_scan(ov, x@, lt, j as int);
            }
            j -= 1;
        }
        proof {
            if j > 0 {
                lemma_insert_pos_scan(ov, x@, lt, j as int);
            }
        }
        let ghost xv = x@;
        out.insert(j, x);
        assert(refs_view(out@) =~= insert_sorted(ov, xv, lt));
        k += 1;
    }
    assert(all.skip(k as int).len() == 0);
    assert(all.take(k as int) =~= all);
    out
}

/// `sorted` with each reference that repeats the last one kept dropped.
fn dedup_sorted(sorted: Vec<TestRef>) -> (r: Vec<TestRef>)
    ensures
        refs_view(r@) == dedup_refs(refs_view(sorted@)),
{
    let ghost all = refs_view(sorted@);
    let mut rest = sorted;
    let total = rest.len();
    let mut out: Vec<TestRef> = Vec::new();
    let mut k: usize = 0;
    assert(all.take(0) =~= Seq::<Located>::empty());
    assert(refs_view(out@) =~= Seq::<Located>::empty());
    while rest.len() > 0
        invariant
            k <= all.len(),
            all.len() == total,
            refs_view(rest@) == all.skip(k as int),
            refs_view(out@) == dedup_refs(all.take(k as int)),
        decreases rest@.len(),
    {
        let ghost rv = refs_view(rest@);
        let x = rest.remove(0);
        assert(rv[0] == x@);
        assert(refs_view(rest@) =~= all.skip(k + 1)) by {
            assert(rv.drop_first() =~= all.skip(k + 1));
            assert(refs_view(rest@) =~= rv.drop_first());
        }
        assert(all.take(k + 1).drop_last() =~= all.take(k as int));
        assert(all.take(k + 1).last() == x@) by {
            assert(all.skip(k as int)[0] == all[k as int]);
        }
        let ghost ov = refs_view(out@);
        let keep = out.len() == 0 || !same_ref_exec(&out[out.len() - 1], &x);
        if keep {
            let ghost xv = x@;
            out.push(x);
            assert(refs_view(out@) =~= ov.push(xv));
        }
        k += 1;
    }
    assert(all.take(k as int) =~= all);
    out
}

/// Sorts each list of references by file, line and text and drops the
/// duplicates that overlapping patterns produce.
pub fn dedupe_refs(tests: &mut Vec<(String, Vec<TestRef>)>)
    ensures
        ref_lists_view(final(tests)@) == dedupe_lists(ref_lists_view(old(tests)@)),
        distinct_keys(ref_lists_view(old(tests)@)) ==> distinct_keys(ref_lists_view(final(tests)@)),
{
    let ghost start = ref_lists_view(tests@);
    let n = tests.len();
    let mut k: usize = 0;
    while k < n
        invariant
            n == tests@.len(),
            start.len() == n,
            k <= n,
            forall|j: int|
                #![trigger tests@[j]]
                0 <= j < k ==> (tests@[j].0@, refs_view(tests@[j].1@)) == (start[j].0, deduped(
                    start[j].1,
                )),
            forall|j: int|
                #![trigger tests@[j]]
                k <= j < n ==> (tests@[j].0@, refs_view(tests@[j].1@)) == start[j],
        decreases n - k,
    {
        let (id, list) = tests.remove(k);
        let sorted = sort_refs(list);
        let d = dedup_sorted(sorted);
        tests.insert(k, (id, d));
        k += 1;
    }
    assert(ref_lists_view(tests@) =~= dedupe_lists(start));
    assert(forall|j: int| 0 <= j < n ==> #[trigger] ref_lists_view(tests@)[j].0 == start[j].0);
}

/// The references of `files` by id, in the order in which each id was first
/// referenced; each list sorted by file, line and text with duplicates
/// dropped.
pub fn read_tests(files: &Vec<SourceFile>, root: &str, patterns: &Vec<Pattern>) -> (tests: Vec<
    (String, Vec<TestRef>),
>)
    requires
        test_files_complete(crate::config::patterns_view(patterns@), files_view(files@)),
    ensures
        ref_lists_view(tests@) == dedupe_lists(
            refs_in_files(crate::config::patterns_view(patterns@), root@, files_view(files@)),
        ),
        distinct_keys(ref_lists_view(tests@)),
{
    let mut tests = read_all_refs(files, root, patterns);
    dedupe_refs(&mut tests);
    tests
}

// ---------------------------------------------------------------------------
// Globs
// ---------------------------------------------------------------------------

#[verifier::external_type_specification]
#[verifier::external_body]
pub struct ExGlob(globset::Glob);

#[verifier::external_type_specification]
#[verifier::external_body]
pub struct ExGlobSet(globset::GlobSet);

#[verifier::external_type_specification]
#[verifier::external_body]
pub struct ExGlobError(globset::Error);

/// Whether `globset::Glob::new` accepts `pattern`.
pub uninterp spec fn glob_parses(pattern: Seq<char>) -> bool;

/// Whether `globset::GlobSetBuilder::build` succeeds for the globs parsed
/// from `patterns`, added in order.
pub uninterp spec fn glob_set_builds(patterns: Seq<Seq<char>>) -> bool;

/// Whether the glob set built from `patterns` matches `path`, as
/// `globset::GlobSet::is_match` decides.
pub uninterp spec fn glob_set_matches(patterns: Seq<Seq<char>>, path: Seq<char>) -> bool;

/// A parsed glob together with its pattern. It is only made by `parse_glob`.
pub struct CompiledGlob {
    pattern: String,
    glob: globset::Glob,
}

impl View for CompiledGlob {
    type V = Seq<char>;

    closed spec fn view(&self) -> Seq<char> {
        self.pattern@
    }
}

/// A set of globs together with their patterns, in order. It is only made by
/// `build_glob_set`.
pub struct GlobFilter {
    patterns: Vec<String>,
    set: globset::GlobSet,
}

impl View for GlobFilter {
    type V = Seq<Seq<char>>;

    closed spec fn view(&self) -> Seq<Seq<char>> {
        strings_view(self.patterns@)
    }
}

pub open spec fn globs_view(v: Seq<CompiledGlob>) -> Seq<Seq<char>> {
    v.map_values(|g: CompiledGlob| g@)
}

/// Parses one glob.
///
/// Calls `globset::Glob::new`. The claim is that it succeeds exactly where
/// `glob_parses(pattern)` holds and that the glob it gives is seen as
/// `pattern`.
#[verifier::external_body]
fn parse_glob(pattern: &str) -> (r: Result<CompiledGlob, globset::Error>)
    ensures
        r is Ok == glob_parses(pattern@),
        r matches Ok(g) ==> g@ == pattern@,
{
    match globset::Glob::new(pattern) {
        Ok(glob) => Ok(CompiledGlob { pattern: pattern.to_string(), glob }),
        Err(e) => Err(e),
    }
}

/// Builds a glob set of `globs`.
///
/// Adds the globs in order to a `globset::GlobSetBuilder` and calls its
/// `build`. The claim is that it succeeds exactly where `glob_set_builds` of
/// the patterns holds and that the set it gives is seen as those patterns.
#[verifier::external_body]
fn build_glob_set(globs: Vec<CompiledGlob>) -> (r: Result<GlobFilter, globset::Error>)
    ensures
        r is Ok == glob_set_builds(globs_view(globs@)),
        r matches Ok(f) ==> f@ == globs_view(globs@),
{
    let mut builder = globset::GlobSetBuilder::new();
    let mut patterns = Vec::new();
    for g in globs {
        builder.add(g.glob);
        patterns.push(g.pattern);
    }
    match builder.build() {
        Ok(set) => Ok(GlobFilter { patterns, set }),
        Err(e) => Err(e),
    }
}

/// Whether the glob set matches `path`.
///
/// Calls `globset::GlobSet::is_match` on `path`. The claim is that the answer
/// is `glob_set_matches` of the patterns and the path, and, as the source of
/// `is_match` shows, that a set of no globs matches nothing.
#[verifier::external_body]
fn glob_set_is_match(f: &GlobFilter, path: &str) -> (r: bool)
    ensures
        r == glob_set_matches(f@, path@),
        f@.len() == 0 ==> !r,
{
    f.set.is_match(std::path::Path::new(path))
}

/// Why the globs cannot be used.
#[derive(Debug)]
pub enum CollectError {
    /// `pattern` is not a glob.
    InvalidGlob { pattern: String, cause: globset::Error },
    /// The globs cannot be combined into a set.
    GlobSet { cause: globset::Error },
}

/// What went wrong, without the globset crate's explanation.
pub enum CollectFault {
    InvalidGlob(Seq<char>),
    GlobSet,
}

impl CollectError {
    pub open spec fn fault(&self) -> CollectFault {
        match self {
            CollectError::InvalidGlob { pattern, .. } => CollectFault::InvalidGlob(pattern@),
            CollectError::GlobSet { .. } => CollectFault::GlobSet,
        }
    }

    /// The library's line for the error, where it has one: for an invalid
    /// glob, the line that comes before the globset crate's explanation; a
    /// failed set has only the globset crate's own text.
    pub fn message(&self) -> (r: Option<String>)
        ensures
            r matches Some(m) ==> collect_message(self.fault()) == Some(m@),
            r is None ==> collect_message(self.fault()) is None,
    {
        match self {
            CollectError::InvalidGlob { pattern, .. } => Some(
                String::from_str("invalid glob `").concat(pattern.as_str()).concat("`"),
            ),
            CollectError::GlobSet { .. } => None,
        }
    }
}

/// The library's line for each fault, where it has one.
pub open spec fn collect_message(f: CollectFault) -> Option<Seq<char>> {
    match f {
        CollectFault::InvalidGlob(p) => Some("invalid glob `"@ + p + "`"@),
        CollectFault::GlobSet => None,
    }
}

/// The first pattern that is not a glob, if any.
pub open spec fn first_bad_glob(patterns: Seq<Seq<char>>) -> Option<Seq<char>>
    decreases patterns.len(),
{
    if patterns.len() == 0 {
        None
    } else if !glob_parses(patterns[0]) {
        Some(patterns[0])
    } else {
        first_bad_glob(patterns.drop_first())
    }
}

/// What is wrong with a list of globs, if anything.
pub open spec fn globs_fault(patterns: Seq<Seq<char>>) -> Option<CollectFault> {
    match first_bad_glob(patterns) {
        Some(p) => Some(CollectFault::InvalidGlob(p)),
        None => if glob_set_builds(patterns) {
            None
        } else {
            Some(CollectFault::GlobSet)
        },
    }
}

/// Parses `patterns` into one glob set.
pub fn build_globs(patterns: &Vec<String>) -> (r: Result<GlobFilter, CollectError>)
    ensures
        match r {
            Ok(f) => globs_fault(strings_view(patterns@)) is None && f@ == strings_view(patterns@),
            Err(e) => globs_fault(strings_view(patterns@)) == Some(e.fault()),
        },
{
    let ghost pv = strings_view(patterns@);
    let mut globs: Vec<CompiledGlob> = Vec::new();
    let mut k: usize = 0;
    assert(pv.skip(0) =~= pv);
    while k < patterns.len()
        invariant
            pv == strings_view(patterns@),
            k <= patterns@.len(),
            first_bad_glob(pv) == first_bad_glob(pv.skip(k as int)),
            globs_view(globs@) == pv.take(k as int),
        decreases patterns@.len() - k,
    {
        assert(pv.skip(k as int)[0] == patterns@[k as int]@);
        match parse_glob(patterns[k].as_str()) {
            Ok(g) => {
                let ghost before = globs@;
                globs.push(g);
                assert(globs_view(globs@) =~= globs_view(before).push(patterns@[k as int]@));
            },
            Err(cause) => {
                return Err(CollectError::InvalidGlob { pattern: patterns[k].clone(), cause });
            },
        }
        assert(pv.take(k + 1) =~= pv.take(k as int).push(patterns@[k as int]@));
        assert(pv.skip(k as int).drop_first() =~= pv.skip(k + 1));
        k += 1;
    }
    assert(pv.skip(k as int) =~= Seq::<Seq<char>>::empty());
    assert(pv.take(k as int) =~= pv);
    match build_glob_set(globs) {
        Ok(f) => Ok(f),
        Err(cause) => Err(CollectError::GlobSet { cause }),
    }
}

/// The paths, in order, that the globs match, each taken relative to `root`
/// where it lies under it.
pub open spec fn selected(patterns: Seq<Seq<char>>, root: Seq<char>, paths: Seq<Seq<char>>) -> Seq<
    Seq<char>,
>
    decreases paths.len(),
{
    if paths.len() == 0 {
        seq![]
    } else {
        let prev = selected(patterns, root, paths.drop_last());
        if glob_set_matches(patterns, relative_path(root, paths.last())) {
            prev.push(paths.last())
        } else {
            prev
        }
    }
}

/// The files among `paths` that the globs match, in order. A path is matched
/// relative to `root` where it lies under it.
pub fn select_files(filter: &GlobFilter, root: &str, paths: &Vec<String>) -> (r: Vec<String>)
    ensures
        strings_view(r@) == selected(filter@, root@, strings_view(paths@)),
        filter@.len() == 0 ==> r@.len() == 0,
{
    let ghost pv = strings_view(paths@);
    let mut out: Vec<String> = Vec::new();
    let mut k: usize = 0;
    assert(pv.take(0) =~= Seq::<Seq<char>>::empty());
    assert(strings_view(out@) =~= Seq::<Seq<char>>::empty());
    while k < paths.len()
        invariant
            pv == strings_view(paths@),
            k <= paths@.len(),
            strings_view(out@) == selected(filter@, root@, pv.take(k as int)),
            filter@.len() == 0 ==> out@.len() == 0,
        decreases paths@.len() - k,
    {
        assert(pv[k as int] == paths@[k as int]@);
        assert(pv.take(k + 1).drop_last() =~= pv.take(k as int));
        assert(pv.take(k + 1).last() == pv[k as int]);
        let rel = relative_to(root, paths[k].as_str());
        if glob_set_is_match(filter, rel.as_str()) {
            let ghost before = out@;
            out.push(paths[k].clone());
            assert(strings_view(out@) =~= strings_view(before).push(pv[k as int]));
        }
        k += 1;
    }
    assert(pv.take(k as int) =~= pv);
    out
}

// ---------------------------------------------------------------------------
// Collecting
// ---------------------------------------------------------------------------

/// Whether the current spec files meet `spec_files_complete`.
fn spec_files_complete_exec(files: &Vec<SourceFile>, patterns: &Vec<Pattern>) -> (r: bool)
    ensures
        r == spec_files_complete(crate::config::patterns_view(patterns@), files_view(files@)),
{
    let ghost pv = crate::config::patterns_view(patterns@);
    let ghost fv = files_view(files@);
    let mut k: usize = 0;
    while k < files.len()
        invariant
            pv == crate::config::patterns_view(patterns@),
            fv == files_view(files@),
            k <= files@.len(),
            forall|q: int|
                #![trigger fv[q]]
                0 <= q < k && current_spec(fv[q].1) ==> spec_lines_complete(pv, split_lines(fv[q].1)),
        decreases files@.len() - k,
    {
        let f = &files[k];
        assert(fv[k as int] == (f.path@, f.content@));
        if is_current(f.content.as_str()) {
            let cs = chars_of(f.content.as_str());
            let lines = lines_of(&cs);
            let ghost lv = lines_view(lines@);
            let mut i: usize = 0;
            while i < lines.len()
                invariant
                    pv == crate::config::patterns_view(patterns@),
                    lv == lines_view(lines@),
                    fv == files_view(files@),
                    k < fv.len(),
                    lv == split_lines(fv[k as int].1),
                    current_spec(fv[k as int].1),
                    i <= lines@.len(),
                    forall|q: int|
                        #![trigger lv[q]]
                        0 <= q < i ==> match line_groups(pv, lv[q]) {
                            Some(g) => complete(g),
                            None => true,
                        },
                decreases lines@.len() - i,
            {
                let line = string_of(&lines[i]);
                assert(line@ == lv[i as int]);
                match line_groups_exec(patterns, line.as_str()) {
                    Some((Some(_), Some(_))) => {},
                    Some(_) => {
                        proof {
                            assert(!spec_lines_complete(pv, lv)) by {
                                assert(lv[i as int] == lv[i as int]);
                            }
                            assert(fv[k as int] == fv[k as int]);
                        }
                        return false;
                    },
                    None => {},
                }
                i += 1;
            }
        }
        k += 1;
    }
    true
}

/// Whether the test files meet `test_files_complete`.
fn test_files_complete_exec(files: &Vec<SourceFile>, patterns: &Vec<Pattern>) -> (r: bool)
    ensures
        r == test_files_complete(crate::config::patterns_view(patterns@), files_view(files@)),
{
    let ghost pv = crate::config::patterns_view(patterns@);
    let ghost fv = files_view(files@);
    let mut k: usize = 0;
    while k < files.len()
        invariant
            pv == crate::config::patterns_view(patterns@),
            fv == files_view(files@),
            k <= files@.len(),
            forall|q: int|
                #![trigger fv[q]]
                0 <= q < k ==> test_lines_complete(pv, split_lines(fv[q].1)),
        decreases files@.len() - k,
    {
        let f = &files[k];
        assert(fv[k as int] == (f.path@, f.content@));
        let cs = chars_of(f.content.as_str());
        let lines = lines_of(&cs);
        let ghost lv = lines_view(lines@);
        let mut i: usize = 0;
        while i < lines.len()
            invariant
                pv == crate::config::patterns_view(patterns@),
                lv == lines_view(lines@),
                fv == files_view(files@),
                k < fv.len(),
                lv == split_lines(fv[k as int].1),
                i <= lines@.len(),
                forall|q: int| #![trigger lv[q]] 0 <= q < i ==> line_refs_complete(pv, lv[q]),
            decreases lines@.len() - i,
        {
            let line = string_of(&lines[i]);
            assert(line@ == lv[i as int]);
            let mut j: usize = 0;
            while j < patterns.len()
                invariant
                    pv == crate::config::patterns_view(patterns@),
                    lv == lines_view(lines@),
                    fv == files_view(files@),
                    k < fv.len(),
                    lv == split_lines(fv[k as int].1),
                    i < lv.len(),
                    line@ == lv[i as int],
                    j <= patterns@.len(),
                    forall|q: int|
                        #![trigger pv[q]]
                        0 <= q < j ==> groups_complete(regex_all_groups(pv[q], line@)),
                decreases patterns@.len() - j,
            {
                assert(pv[j as int] == patterns@[j as int]@);
                let groups = all_groups(&patterns[j], line.as_str());
                let ghost gv = groups_list_view(groups@);
                let mut m: usize = 0;
                while m < groups.len()
                    invariant
                        gv == groups_list_view(groups@),
                        pv == crate::config::patterns_view(patterns@),
                        j < pv.len(),
                        gv == regex_all_groups(pv[j as int], line@),
                        lv == lines_view(lines@),
                        fv == files_view(files@),
                        k < fv.len(),
                        lv == split_lines(fv[k as int].1),
                        i < lv.len(),
                        line@ == lv[i as int],
                        m <= groups@.len(),
                        forall|q: int| #![trigger gv[q]] 0 <= q < m ==> complete(gv[q]),
                    decreases groups@.len() - m,
                {
                    assert(gv[m as int] == groups_view(groups@[m as int]));
                    match &groups[m] {
                        (Some(_), Some(_)) => {},
                        _ => {
                            proof {
                                assert(!groups_complete(gv)) by {
                                    assert(gv[m as int] == gv[m as int]);
                                }
                                assert(!line_refs_complete(pv, lv[i as int])) by {
                                    assert(pv[j as int] == pv[j as int]);
                                }
                                assert(!test_lines_complete(pv, lv)) by {
                                    assert(lv[i as int] == lv[i as int]);
                                }
                                assert(fv[k as int] == fv[k as int]);
                            }
                            return false;
                        },
                    }
                    m += 1;
                }
                j += 1;
            }
            i += 1;
        }
        k += 1;
    }
    true
}

/// The rules and references of the given spec and test files. Only current
/// spec files define rules; file paths are taken relative to the root of
/// `config`.
pub fn collect(config: &Config, spec_files: &Vec<SourceFile>, test_files: &Vec<SourceFile>) -> (c:
    Collected)
    requires
        spec_files_complete(crate::config::patterns_view(config.spec_patterns@), files_view(spec_files@)),
        test_files_complete(crate::config::patterns_view(config.test_patterns@), files_view(test_files@)),
    ensures
        rules_view(c.specs@) == rules_in_files(
            crate::config::patterns_view(config.spec_patterns@),
            config.root@,
            files_view(spec_files@),
        ),
        c.spec_files == spec_files@.len(),
        ref_lists_view(c.tests@) == dedupe_lists(
            refs_in_files(
                crate::config::patterns_view(config.test_patterns@),
                config.root@,
                files_view(test_files@),
            ),
        ),
        c.test_files == test_files@.len(),
        c.wf(),
{
    let specs = read_specs(spec_files, config.root.as_str(), &config.spec_patterns);
    let tests = read_tests(test_files, config.root.as_str(), &config.test_patterns);
    Collected { specs, spec_files: spec_files.len(), tests, test_files: test_files.len() }
}

/// `collect`, where every pattern match that it reads has both its `id` and
/// its `text` group; `None` where one lacks a group, which `collect` cannot
/// read.
pub fn try_collect(config: &Config, spec_files: &Vec<SourceFile>, test_files: &Vec<SourceFile>) -> (r:
    Option<Collected>)
    ensures
        r is Some == (spec_files_complete(
            crate::config::patterns_view(config.spec_patterns@),
            files_view(spec_files@),
        ) && test_files_complete(
            crate::config::patterns_view(config.test_patterns@),
            files_view(test_files@),
        )),
        r matches Some(c) ==> {
            &&& rules_view(c.specs@) == rules_in_files(
                crate::config::patterns_view(config.spec_patterns@),
                config.root@,
                files_view(spec_files@),
            )
            &&& c.spec_files == spec_files@.len()
            &&& ref_lists_view(c.tests@) == dedupe_lists(
                refs_in_files(
                    crate::config::patterns_view(config.test_patterns@),
                    config.root@,
                    files_view(test_files@),
                ),
            )
            &&& c.test_files == test_files@.len()
            &&& c.wf()
        },
{
    if !spec_files_complete_exec(spec_files, &config.spec_patterns) {
        return None;
    }
    if !test_files_complete_exec(test_files, &config.test_patterns) {
        return None;
    }
    Some(collect(config, spec_files, test_files))
}

} // verus!
