//! Character-level text handling: whitespace, trimming, line splitting,
//! normalising rule text, and reading the status out of a Markdown frontmatter.

use vstd::prelude::*;

verus! {

// ---------------------------------------------------------------------------
// Conversions between `str` and character vectors
// ---------------------------------------------------------------------------

/// The characters of `s`, in order.
pub fn chars_of(s: &str) -> (v: Vec<char>)
    ensures
        v@ == s@,
{
    broadcast use vstd::string::group_string_axioms;
    let mut v: Vec<char> = Vec::new();
    for c in it: s.chars()
        invariant
            v@ == it.seq().take(it.index() as int),
    {
        v.push(c);
    }
    v
}

/// The string made of the characters of `v`, in order.
///
/// Calls `String::from_iter` on the characters of `v`; the contract claims
/// that the string's characters are exactly those of `v`, in order.
#[verifier::external_body]
pub(crate) fn string_of(v: &Vec<char>) -> (s: String)
    ensures
        s@ == v@,
{
    String::from_iter(v.iter())
}

/// A copy of `s[from..to]`.
pub fn sub_chars(s: &Vec<char>, from: usize, to: usize) -> (r: Vec<char>)
    requires
        from <= to <= s@.len(),
    ensures
        r@ == s@.subrange(from as int, to as int),
{
    let mut r: Vec<char> = Vec::new();
    let mut k: usize = from;
    while k < to
        invariant
            from <= k <= to <= s@.len(),
            r@ == s@.subrange(from as int, k as int),
        decreases to - k,
    {
        r.push(s[k]);
        assert(s@.subrange(from as int, k + 1) =~= s@.subrange(from as int, k as int).push(s@[k as int]));
        k += 1;
    }
    r
}

/// Whether two character vectors hold the same characters.
pub fn chars_eq(a: &Vec<char>, b: &Vec<char>) -> (r: bool)
    ensures
        r == (a@ == b@),
{
    if a.len() != b.len() {
        return false;
    }
    let mut k: usize = 0;
    while k < a.len()
        invariant
            a@.len() == b@.len(),
            k <= a@.len(),
            forall|j: int| 0 <= j < k ==> a@[j] == b@[j],
        decreases a@.len() - k,
    {
        if a[k] != b[k] {
            return false;
        }
        k += 1;
    }
    assert(a@ =~= b@);
    true
}

// ---------------------------------------------------------------------------
// Whitespace and trimming
// ---------------------------------------------------------------------------

/// The characters with the Unicode property `White_Space`, which is what
/// `char::is_whitespace` and `str::trim` go by.
pub open spec fn is_white_space(c: char) -> bool {
    let n = c as u32;
    ||| 0x9 <= n <= 0xD
    ||| n == 0x20
    ||| n == 0x85
    ||| n == 0xA0
    ||| n == 0x1680
    ||| 0x2000 <= n <= 0x200A
    ||| n == 0x2028
    ||| n == 0x2029
    ||| n == 0x202F
    ||| n == 0x205F
    ||| n == 0x3000
}

/// Whether `c` is Unicode whitespace.
pub fn is_whitespace(c: char) -> (r: bool)
    ensures
        r == is_white_space(c),
{
    let n = c as u32;
    (0x9 <= n && n <= 0xD) || n == 0x20 || n == 0x85 || n == 0xA0 || n == 0x1680 || (0x2000 <= n
        && n <= 0x200A) || n == 0x2028 || n == 0x2029 || n == 0x202F || n == 0x205F || n == 0x3000
}

/// `s` without its leading whitespace.
pub open spec fn trim_start(s: Seq<char>) -> Seq<char>
    decreases s.len(),
{
    if s.len() > 0 && is_white_space(s[0]) {
        trim_start(s.drop_first())
    } else {
        s
    }
}

/// `s` without its trailing whitespace.
pub open spec fn trim_end(s: Seq<char>) -> Seq<char>
    decreases s.len(),
{
    if s.len() > 0 && is_white_space(s.last()) {
        trim_end(s.drop_last())
    } else {
        s
    }
}

/// `s` without leading and trailing whitespace, as `str::trim` gives it.
pub open spec fn trimmed(s: Seq<char>) -> Seq<char> {
    trim_end(trim_start(s))
}

/// `s` with leading and trailing whitespace removed.
pub fn trim_chars(s: &Vec<char>) -> (r: Vec<char>)
    ensures
        r@ == trimmed(s@),
{
    let n = s.len();
    let mut i: usize = 0;
    assert(s@.skip(0) =~= s@);
    while i < n && is_whitespace(s[i])
        invariant
            n == s@.len(),
            i <= n,
            trim_start(s@) == trim_start(s@.skip(i as int)),
        decreases n - i,
    {
        assert(s@.skip(i as int).drop_first() =~= s@.skip(i + 1));
        i += 1;
    }
    assert(trim_start(s@) == s@.subrange(i as int, n as int)) by {
        assert(s@.skip(i as int) =~= s@.subrange(i as int, n as int));
    }
    let mut j: usize = n;
    while j > i && is_whitespace(s[j - 1])
        invariant
            n == s@.len(),
            i <= j <= n,
            trimmed(s@) == trim_end(s@.subrange(i as int, j as int)),
        decreases j - i,
    {
        assert(s@.subrange(i as int, j as int).drop_last() =~= s@.subrange(i as int, j - 1));
        j -= 1;
    }
    sub_chars(s, i, j)
}

/// Rule text as it is compared: without surrounding whitespace, and without
/// one trailing period.
pub open spec fn normalized(text: Seq<char>) -> Seq<char> {
    let t = trimmed(text);
    if t.len() > 0 && t.last() == '.' {
        t.drop_last()
    } else {
        t
    }
}

/// Strips whitespace and one trailing period, so that `writes JSON.` in a
/// spec matches `writes JSON` in a test.
pub fn normalize(text: &str) -> (r: String)
    ensures
        r@ == normalized(text@),
{
    let cs = chars_of(text);
    let t = trim_chars(&cs);
    if t.len() > 0 && t[t.len() - 1] == '.' {
        let u = sub_chars(&t, 0, t.len() - 1);
        assert(u@ =~= t@.drop_last());
        string_of(&u)
    } else {
        string_of(&t)
    }
}

// ---------------------------------------------------------------------------
// Lines
// ---------------------------------------------------------------------------

/// The index of the first line feed in `s`, or its length where it has none.
pub open spec fn line_end(s: Seq<char>) -> nat
    decreases s.len(),
{
    if s.len() == 0 {
        0
    } else if s[0] == '\n' {
        0
    } else {
        1 + line_end(s.drop_first())
    }
}

/// A line without the carriage return that ends it, if any.
pub open spec fn without_cr(l: Seq<char>) -> Seq<char> {
    if l.len() > 0 && l.last() == '\r' {
        l.drop_last()
    } else {
        l
    }
}

pub proof fn lemma_line_end_bound(s: Seq<char>)
    ensures
        line_end(s) <= s.len(),
    decreases s.len(),
{
    if s.len() > 0 && s[0] != '\n' {
        lemma_line_end_bound(s.drop_first());
    }
}

/// The lines of `s` as `str::lines` yields them: split at each line feed, a
/// carriage return before a line feed dropped, and no empty last line after a
/// final line feed.
pub open spec fn split_lines(s: Seq<char>) -> Seq<Seq<char>>
    decreases s.len(),
{
    if s.len() == 0 {
        seq![]
    } else {
        let e = line_end(s);
        proof {
            lemma_line_end_bound(s);
        }
        if e < s.len() {
            seq![without_cr(s.take(e as int))] + split_lines(s.skip(e as int + 1))
        } else {
            seq![s]
        }
    }
}

/// Where the first line feed of `s` stands at `k`, or `s` has none and `k` is
/// its length, `line_end(s)` is `k`.
pub proof fn lemma_line_end_at(s: Seq<char>, k: int)
    requires
        0 <= k <= s.len(),
        forall|j: int| 0 <= j < k ==> s[j] != '\n',
        k == s.len() || s[k] == '\n',
    ensures
        line_end(s) == k,
    decreases k,
{
    if k > 0 {
        assert forall|j: int| 0 <= j < k - 1 implies s.drop_first()[j] != '\n' by {
            assert(s.drop_first()[j] == s[j + 1]);
        }
        if k - 1 < s.len() - 1 {
            assert(s.drop_first()[k - 1] == s[k]);
        }
        lemma_line_end_at(s.drop_first(), k - 1);
    }
}

/// The views of a vector of lines.
pub open spec fn lines_view(v: Seq<Vec<char>>) -> Seq<Seq<char>> {
    v.map_values(|l: Vec<char>| l@)
}

/// The lines of `s`.
pub fn lines_of(s: &Vec<char>) -> (out: Vec<Vec<char>>)
    ensures
        lines_view(out@) == split_lines(s@),
{
    let n = s.len();
    let mut out: Vec<Vec<char>> = Vec::new();
    let mut start: usize = 0;
    let mut i: usize = 0;
    assert(s@.skip(0) =~= s@);
    assert(lines_view(out@) =~= Seq::<Seq<char>>::empty());
    while i < n
        invariant
            n == s@.len(),
            start <= i <= n,
            forall|j: int| start <= j < i ==> s@[j] != '\n',
            split_lines(s@) == lines_view(out@) + split_lines(s@.skip(start as int)),
        decreases n - i,
    {
        if s[i] == '\n' {
            let ghost rest = s@.skip(start as int);
            proof {
                lemma_line_end_at(rest, i - start);
                assert(rest.take(i - start) =~= s@.subrange(start as int, i as int));
                assert(rest.skip(i - start + 1) =~= s@.skip(i + 1));
            }
            let mut line = sub_chars(s, start, i);
            if line.len() > 0 && line[line.len() - 1] == '\r' {
                line = sub_chars(&line, 0, line.len() - 1);
                assert(line@ =~= s@.subrange(start as int, i as int).drop_last());
            }
            let ghost before = out@;
            out.push(line);
            assert(lines_view(out@) =~= lines_view(before).push(line@));
            assert(lines_view(out@) + split_lines(s@.skip(i + 1)) =~= lines_view(before) + split_lines(rest));
            start = i + 1;
        }
        i += 1;
    }
    if start < n {
        let ghost rest = s@.skip(start as int);
        proof {
            lemma_line_end_at(rest, n - start);
            assert(rest =~= s@.subrange(start as int, n as int));
        }
        let line = sub_chars(s, start, n);
        let ghost before = out@;
        out.push(line);
        assert(lines_view(out@) =~= lines_view(before).push(line@));
    } else {
        assert(s@.skip(start as int) =~= Seq::<char>::empty());
    }
    assert(lines_view(out@) =~= split_lines(s@));
    out
}

// ---------------------------------------------------------------------------
// Frontmatter
// ---------------------------------------------------------------------------

/// A delimiter line of a frontmatter block: three dashes, with or without a
/// trailing carriage return.
pub open spec fn is_delimiter(line: Seq<char>) -> bool {
    without_cr(line) == seq!['-', '-', '-']
}

pub open spec fn starts_with(s: Seq<char>, p: Seq<char>) -> bool {
    p.len() <= s.len() && s.take(p.len() as int) == p
}

/// `pat` occurs in `s` at index `i`.
pub open spec fn occurs_at(s: Seq<char>, pat: Seq<char>, i: int) -> bool {
    0 <= i && i + pat.len() <= s.len() && s.subrange(i, i + pat.len()) == pat
}

/// The file's lines open with a delimiter line.
pub open spec fn opens_frontmatter(lines: Seq<Seq<char>>) -> bool {
    lines.len() > 0 && is_delimiter(lines[0])
}

/// Line `j` is the first delimiter line after the opening one.
pub open spec fn closes_frontmatter(lines: Seq<Seq<char>>, j: int) -> bool {
    &&& 0 < j < lines.len()
    &&& is_delimiter(lines[j])
    &&& forall|i: int| 0 < i < j ==> !is_delimiter(#[trigger] lines[i])
}

/// Only one line closes the frontmatter.
pub proof fn lemma_closes_frontmatter_unique(lines: Seq<Seq<char>>, j: int, k: int)
    requires
        closes_frontmatter(lines, j),
        closes_frontmatter(lines, k),
    ensures
        j == k,
{
    if j < k {
        assert(!is_delimiter(lines[j]));
    } else if k < j {
        assert(!is_delimiter(lines[k]));
    }
}

/// The frontmatter of a file, as its lines: those between a delimiter line
/// that opens the file and the next delimiter line. A file whose first line
/// is not a delimiter, or that has no second delimiter line, has none.
pub open spec fn frontmatter_of(content: Seq<char>) -> Option<Seq<Seq<char>>> {
    let ls = split_lines(content);
    if opens_frontmatter(ls) && exists|j: int| closes_frontmatter(ls, j) {
        Some(ls.subrange(1, choose|j: int| closes_frontmatter(ls, j)))
    } else {
        None
    }
}

/// Whether `pat` occurs in `s` at index `i`.
pub fn occurs_at_exec(s: &Vec<char>, pat: &Vec<char>, i: usize) -> (r: bool)
    ensures
        r == occurs_at(s@, pat@, i as int),
{
    let n = s.len();
    if i > n || pat.len() > n - i {
        return false;
    }
    let mut k: usize = 0;
    while k < pat.len()
        invariant
            n == s@.len(),
            i + pat@.len() <= n,
            k <= pat@.len(),
            forall|j: int| 0 <= j < k ==> s@[i + j] == pat@[j],
        decreases pat@.len() - k,
    {
        if s[i + k] != pat[k] {
            assert(s@.subrange(i as int, i + pat@.len())[k as int] != pat@[k as int]);
            return false;
        }
        k += 1;
    }
    assert(s@.subrange(i as int, i + pat@.len()) =~= pat@);
    true
}

/// Whether `line` is a delimiter line.
fn is_delimiter_line(line: &Vec<char>) -> (r: bool)
    ensures
        r == is_delimiter(line@),
{
    let n = line.len();
    let dashes = n >= 3 && line[0] == '-' && line[1] == '-' && line[2] == '-';
    let r = dashes && (n == 3 || (n == 4 && line[3] == '\r'));
    proof {
        let l = line@;
        if r {
            assert(without_cr(l) =~= seq!['-', '-', '-']);
        } else if is_delimiter(l) {
            if l.len() > 0 && l.last() == '\r' {
                assert(l.drop_last().len() == 3);
                assert(l[0] == l.drop_last()[0] && l[1] == l.drop_last()[1] && l[2] == l.drop_last()[2]);
            } else {
                assert(l.len() == 3);
                assert(l[0] == without_cr(l)[0]);
            }
        }
    }
    r
}

/// Where the lines open with a frontmatter block, the index of the line that
/// closes it.
fn frontmatter_end(lines: &Vec<Vec<char>>) -> (r: Option<usize>)
    ensures
        match r {
            Some(j) => opens_frontmatter(lines_view(lines@)) && closes_frontmatter(
                lines_view(lines@),
                j as int,
            ),
            None => !(opens_frontmatter(lines_view(lines@)) && exists|j: int|
                closes_frontmatter(lines_view(lines@), j)),
        },
{
    let ghost lv = lines_view(lines@);
    if lines.len() == 0 {
        return None;
    }
    assert(lv[0] == lines@[0]@);
    if !is_delimiter_line(&lines[0]) {
        return None;
    }
    let mut j: usize = 1;
    while j < lines.len()
        invariant
            lv == lines_view(lines@),
            opens_frontmatter(lv),
            1 <= j <= lines@.len(),
            forall|i: int| 0 < i < j ==> !is_delimiter(#[trigger] lv[i]),
        decreases lines@.len() - j,
    {
        assert(lv[j as int] == lines@[j as int]@);
        if is_delimiter_line(&lines[j]) {
            assert(closes_frontmatter(lv, j as int));
            return Some(j);
        }
        j += 1;
    }
    assert forall|k: int| !closes_frontmatter(lv, k) by {
        if closes_frontmatter(lv, k) {
            assert(!is_delimiter(lv[k]));
        }
    }
    None
}

/// The lines of the frontmatter block of `content`, if the file opens with
/// one: only the lines between the first two `---` lines count.
pub fn leading_frontmatter(content: &str) -> (r: Option<Vec<String>>)
    ensures
        match r {
            Some(v) => frontmatter_of(content@) == Some(v@.map_values(|s: String| s@)),
            None => frontmatter_of(content@) is None,
        },
{
    let cs = chars_of(content);
    let lines = lines_of(&cs);
    let ghost lv = lines_view(lines@);
    match frontmatter_end(&lines) {
        None => None,
        Some(end) => {
            proof {
                let c = choose|c: int| closes_frontmatter(lv, c);
                lemma_closes_frontmatter_unique(lv, c, end as int);
            }
            let mut out: Vec<String> = Vec::new();
            let mut k: usize = 1;
            while k < end
                invariant
                    lv == lines_view(lines@),
                    1 <= k <= end < lines@.len(),
                    out@.map_values(|s: String| s@) == lv.subrange(1, k as int),
                decreases end - k,
            {
                let ghost before = out@;
                out.push(string_of(&lines[k]));
                assert(out@.map_values(|s: String| s@) =~= before.map_values(|s: String| s@).push(
                    lv[k as int],
                ));
                assert(lv.subrange(1, k + 1) =~= lv.subrange(1, k as int).push(lv[k as int]));
                k += 1;
            }
            Some(out)
        },
    }
}

/// The word `status:` that a frontmatter line starts with to set the status.
pub open spec fn status_key() -> Seq<char> {
    seq!['s', 't', 'a', 't', 'u', 's', ':']
}

/// The status value that keeps a spec in scope.
pub open spec fn current_word() -> Seq<char> {
    seq!['c', 'u', 'r', 'r', 'e', 'n', 't']
}

/// What the frontmatter lines say of the status: the first line that starts
/// with `status:` decides, and a frontmatter without one leaves the spec
/// current.
pub open spec fn status_says_current(lines: Seq<Seq<char>>) -> bool
    decreases lines.len(),
{
    if lines.len() == 0 {
        true
    } else if starts_with(lines[0], status_key()) {
        trimmed(lines[0].skip(7)) == current_word()
    } else {
        status_says_current(lines.drop_first())
    }
}

/// A spec file is current unless its frontmatter gives another status.
pub open spec fn current_spec(content: Seq<char>) -> bool {
    match frontmatter_of(content) {
        None => true,
        Some(f) => status_says_current(f),
    }
}

/// Whether a spec file is current: only the block between the first two
/// `---` lines is read, and its first `status:` line decides.
pub fn is_current(content: &str) -> (r: bool)
    ensures
        r == current_spec(content@),
{
    let cs = chars_of(content);
    let lines = lines_of(&cs);
    let ghost lv = lines_view(lines@);
    let end = match frontmatter_end(&lines) {
        None => {
            return true;
        },
        Some(end) => end,
    };
    let ghost fl = lv.subrange(1, end as int);
    proof {
        let c = choose|c: int| closes_frontmatter(lv, c);
        lemma_closes_frontmatter_unique(lv, c, end as int);
        assert(frontmatter_of(content@) == Some(fl));
    }
    let key: Vec<char> = vec!['s', 't', 'a', 't', 'u', 's', ':'];
    let word: Vec<char> = vec!['c', 'u', 'r', 'r', 'e', 'n', 't'];
    assert(key@ =~= status_key());
    assert(word@ =~= current_word());
    assert(fl.skip(0) =~= fl);
    let mut k: usize = 1;
    while k < end
        invariant
            lv == lines_view(lines@),
            1 <= k <= end < lines@.len(),
            fl == lv.subrange(1, end as int),
            frontmatter_of(content@) == Some(fl),
            key@ == status_key(),
            word@ == current_word(),
            status_says_current(fl) == status_says_current(fl.skip(k - 1)),
        decreases end - k,
    {
        let line = &lines[k];
        assert(fl.skip(k - 1).len() > 0);
        assert(fl.skip(k - 1)[0] == line@);
        if occurs_at_exec(line, &key, 0) {
            assert(line@.subrange(0, 7) =~= line@.take(7));
            let value = sub_chars(line, 7, line.len());
            assert(value@ =~= line@.skip(7));
            let t = trim_chars(&value);
            return chars_eq(&t, &word);
        }
        assert(!starts_with(line@, status_key())) by {
            if starts_with(line@, status_key()) {
                assert(line@.subrange(0, 7) =~= line@.take(7));
            }
        }
        assert(fl.skip(k - 1).drop_first() =~= fl.skip(k as int));
        k += 1;
    }
    assert(fl.skip(k - 1) =~= Seq::<Seq<char>>::empty());
    true
}

} // verus!
