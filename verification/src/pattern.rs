//! Regular expressions that find rule ids and rule text on a line. The
//! matching itself is done by the `regex` crate.

use vstd::prelude::*;

verus! {

#[verifier::external_type_specification]
#[verifier::external_body]
pub struct ExRegex(regex::Regex);

#[verifier::external_type_specification]
#[verifier::external_body]
pub struct ExRegexError(regex::Error);

/// Whether `regex::Regex::new` accepts `source`.
pub uninterp spec fn regex_compiles(source: Seq<char>) -> bool;

/// The group names of the regex compiled from `source`, as
/// `regex::Regex::capture_names` yields them: one entry per group, the whole
/// match first, `None` for an unnamed group.
pub uninterp spec fn regex_group_names(source: Seq<char>) -> Seq<Option<Seq<char>>>;

/// The leftmost match of the regex compiled from `source` in `line`, as
/// `regex::Regex::captures` finds it: for each of `names`, in order, what the
/// group of that name matched, where it took part in the match; `None` where
/// nothing matches.
pub uninterp spec fn regex_first_captures(source: Seq<char>, line: Seq<char>, names: Seq<Seq<char>>) -> Option<
    Seq<Option<Seq<char>>>,
>;

/// The successive non-overlapping matches of the regex compiled from `source`
/// in `line`, as `regex::Regex::captures_iter` yields them: for each match and
/// each of `names`, in order, what the group of that name matched.
pub uninterp spec fn regex_all_captures(source: Seq<char>, line: Seq<char>, names: Seq<Seq<char>>) -> Seq<
    Seq<Option<Seq<char>>>,
>;

/// The names of the groups that hold a rule's id and its text.
pub open spec fn id_text_names() -> Seq<Seq<char>> {
    seq![seq!['i', 'd'], seq!['t', 'e', 'x', 't']]
}

/// The `id` and `text` groups of one match, read with `id_text_names`.
pub open spec fn id_text_of(v: Seq<Option<Seq<char>>>) -> (Option<Seq<char>>, Option<Seq<char>>) {
    (v[0], v[1])
}

/// The `id` and `text` groups of the leftmost match of the regex compiled
/// from `source` in `line`; `None` where nothing matches.
pub open spec fn regex_first_groups(source: Seq<char>, line: Seq<char>) -> Option<
    (Option<Seq<char>>, Option<Seq<char>>),
> {
    match regex_first_captures(source, line, id_text_names()) {
        Some(v) => Some(id_text_of(v)),
        None => None,
    }
}

/// The `id` and `text` groups of every match of the regex compiled from
/// `source` in `line`, in order.
pub open spec fn regex_all_groups(source: Seq<char>, line: Seq<char>) -> Seq<
    (Option<Seq<char>>, Option<Seq<char>>),
> {
    regex_all_captures(source, line, id_text_names()).map_values(
        |v: Seq<Option<Seq<char>>>| id_text_of(v),
    )
}

/// A compiled regular expression together with the source it was compiled
/// from. It is only made by `compile_regex`, which compiles `regex` from
/// `source`.
pub struct Pattern {
    source: String,
    regex: regex::Regex,
}

impl View for Pattern {
    type V = Seq<char>;

    /// A pattern is seen as its source text.
    closed spec fn view(&self) -> Seq<char> {
        self.source@
    }
}

impl Pattern {
    /// The source text the pattern was compiled from.
    pub fn source(&self) -> (r: &str)
        ensures
            r@ == self@,
    {
        self.source.as_str()
    }
}

pub open spec fn opt_view(o: Option<String>) -> Option<Seq<char>> {
    match o {
        Some(s) => Some(s@),
        None => None,
    }
}

/// The views of what a match's `id` and `text` groups matched.
pub open spec fn groups_view(g: (Option<String>, Option<String>)) -> (
    Option<Seq<char>>,
    Option<Seq<char>>,
) {
    (opt_view(g.0), opt_view(g.1))
}

/// Compiles `source`.
///
/// Calls `regex::Regex::new`. The claim is that it succeeds exactly where
/// `regex_compiles(source)` holds, and that the pattern it gives is seen as
/// `source`; which sources compile is not stated further.
#[verifier::external_body]
pub(crate) fn compile_regex(source: &str) -> (r: Result<Pattern, regex::Error>)
    ensures
        r is Ok == regex_compiles(source@),
        r matches Ok(p) ==> p@ == source@,
{
    match regex::Regex::new(source) {
        Ok(regex) => Ok(Pattern { source: source.to_string(), regex }),
        Err(e) => Err(e),
    }
}

/// The group names of `p`.
///
/// Calls `regex::Regex::capture_names` and converts each name to an owned
/// string. The claim is that the result is `regex_group_names` of the source.
#[verifier::external_body]
pub(crate) fn group_names(p: &Pattern) -> (names: Vec<Option<String>>)
    ensures
        names@.map_values(|n: Option<String>| opt_view(n)) == regex_group_names(p@),
{
    p.regex.capture_names().map(|n| n.map(|s| s.to_string())).collect()
}

pub open spec fn opts_view(v: Seq<Option<String>>) -> Seq<Option<Seq<char>>> {
    v.map_values(|o: Option<String>| opt_view(o))
}

pub open spec fn names_view(v: Seq<String>) -> Seq<Seq<char>> {
    v.map_values(|s: String| s@)
}

/// What the groups `names` matched in the leftmost match of `p` in `line`.
///
/// Calls `regex::Regex::captures` and reads each group with `Captures::name`.
/// The claim is that the result is `regex_first_captures` of the source, the
/// line and the names, one entry per name.
#[verifier::external_body]
fn first_captures(p: &Pattern, line: &str, names: &Vec<String>) -> (r: Option<Vec<Option<String>>>)
    ensures
        match r {
            Some(v) => regex_first_captures(p@, line@, names_view(names@)) == Some(opts_view(v@))
                && v@.len() == names@.len(),
            None => regex_first_captures(p@, line@, names_view(names@)) is None,
        },
{
    p.regex.captures(line).map(
        |c| names.iter().map(|n| c.name(n).map(|m| m.as_str().to_string())).collect(),
    )
}

/// What the groups `names` matched in every match of `p` in `line`, in order.
///
/// Calls `regex::Regex::captures_iter` and reads each group with
/// `Captures::name`. The claim is that the result is `regex_all_captures` of
/// the source, the line and the names, one entry per name in each match.
#[verifier::external_body]
fn all_captures(p: &Pattern, line: &str, names: &Vec<String>) -> (r: Vec<Vec<Option<String>>>)
    ensures
        r@.map_values(|v: Vec<Option<String>>| opts_view(v@)) == regex_all_captures(
            p@,
            line@,
            names_view(names@),
        ),
        forall|i: int| 0 <= i < r@.len() ==> (#[trigger] r@[i])@.len() == names@.len(),
{
    p.regex.captures_iter(line).map(
        |c| names.iter().map(|n| c.name(n).map(|m| m.as_str().to_string())).collect(),
    ).collect()
}

/// The names `id` and `text`.
fn id_text_names_exec() -> (r: Vec<String>)
    ensures
        names_view(r@) == id_text_names(),
        r@.len() == 2,
{
    let id = String::from_str("id");
    let text = String::from_str("text");
    proof {
        reveal_strlit("id");
        reveal_strlit("text");
    }
    assert(id@ =~= seq!['i', 'd']);
    assert(text@ =~= seq!['t', 'e', 'x', 't']);
    let mut r: Vec<String> = Vec::new();
    r.push(id);
    r.push(text);
    assert(names_view(r@) =~= id_text_names());
    r
}

/// A copy of an optional string.
fn copy_opt(o: &Option<String>) -> (r: Option<String>)
    ensures
        opt_view(r) == opt_view(*o),
{
    match o {
        Some(s) => Some(s.clone()),
        None => None,
    }
}

/// The `id` and `text` groups of the pair of groups `v` read by
/// `id_text_names`.
fn id_text_pair(v: &Vec<Option<String>>) -> (r: (Option<String>, Option<String>))
    requires
        v@.len() == 2,
    ensures
        groups_view(r) == id_text_of(opts_view(v@)),
{
    (copy_opt(&v[0]), copy_opt(&v[1]))
}

/// The `id` and `text` groups of the leftmost match of `p` in `line`.
pub(crate) fn first_groups(p: &Pattern, line: &str) -> (r: Option<(Option<String>, Option<String>)>)
    ensures
        r matches Some(g) ==> regex_first_groups(p@, line@) == Some(groups_view(g)),
        r is None ==> regex_first_groups(p@, line@) is None,
{
    let names = id_text_names_exec();
    match first_captures(p, line, &names) {
        Some(v) => Some(id_text_pair(&v)),
        None => None,
    }
}

/// The `id` and `text` groups of every match of `p` in `line`, in order.
pub(crate) fn all_groups(p: &Pattern, line: &str) -> (r: Vec<(Option<String>, Option<String>)>)
    ensures
        r@.map_values(|g: (Option<String>, Option<String>)| groups_view(g)) == regex_all_groups(
            p@,
            line@,
        ),
{
    let names = id_text_names_exec();
    let all = all_captures(p, line, &names);
    let ghost av = all@.map_values(|v: Vec<Option<String>>| opts_view(v@));
    let mut out: Vec<(Option<String>, Option<String>)> = Vec::new();
    let mut k: usize = 0;
    while k < all.len()
        invariant
            av == all@.map_values(|v: Vec<Option<String>>| opts_view(v@)),
            av == regex_all_captures(p@, line@, id_text_names()),
            forall|i: int| 0 <= i < all@.len() ==> (#[trigger] all@[i])@.len() == 2,
            k <= all@.len(),
            out@.map_values(|g: (Option<String>, Option<String>)| groups_view(g))
                == av.take(k as int).map_values(|v: Seq<Option<Seq<char>>>| id_text_of(v)),
        decreases all@.len() - k,
    {
        assert(all@[k as int]@.len() == 2);
        let g = id_text_pair(&all[k]);
        let ghost before = out@;
        out.push(g);
        assert(av[k as int] == opts_view(all@[k as int]@));
        assert(out@.map_values(|g: (Option<String>, Option<String>)| groups_view(g)) =~= before.map_values(
            |g: (Option<String>, Option<String>)| groups_view(g),
        ).push(groups_view(g)));
        assert(av.take(k + 1) =~= av.take(k as int).push(av[k as int]));
        assert(av.take(k + 1).map_values(|v: Seq<Option<Seq<char>>>| id_text_of(v)) =~= av.take(
            k as int,
        ).map_values(|v: Seq<Option<Seq<char>>>| id_text_of(v)).push(id_text_of(av[k as int])));
        k += 1;
    }
    assert(av.take(k as int) =~= av);
    out
}

} // verus!
