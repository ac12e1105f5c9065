//! File paths as strings: making a path relative to the root, and ordering
//! paths the way `std::path::Path` orders them, component by component.

use vstd::prelude::*;

use crate::text::chars_of;

verus! {

/// The outcome of comparing two values.
#[derive(Clone, Copy, Debug, PartialEq, Eq, Structural)]
pub enum Order {
    Less,
    Equal,
    Greater,
}

/// The reverse of an outcome: `a` against `b` turned into `b` against `a`.
pub open spec fn flipped(o: Order) -> Order {
    match o {
        Order::Less => Order::Greater,
        Order::Equal => Order::Equal,
        Order::Greater => Order::Less,
    }
}

// ---------------------------------------------------------------------------
// Text order
// ---------------------------------------------------------------------------

/// Lexicographic order of character sequences by code point. For UTF-8
/// strings this is the byte order that `String` and `OsStr` compare by.
pub open spec fn text_order(a: Seq<char>, b: Seq<char>) -> Order
    decreases a.len(),
{
    if a.len() == 0 {
        if b.len() == 0 {
            Order::Equal
        } else {
            Order::Less
        }
    } else if b.len() == 0 {
        Order::Greater
    } else if (a[0] as u32) < (b[0] as u32) {
        Order::Less
    } else if (a[0] as u32) > (b[0] as u32) {
        Order::Greater
    } else {
        text_order(a.drop_first(), b.drop_first())
    }
}

/// Compares two character vectors lexicographically.
pub fn text_order_chars(a: &Vec<char>, b: &Vec<char>) -> (r: Order)
    ensures
        r == text_order(a@, b@),
{
    let mut k: usize = 0;
    assert(a@.skip(0) =~= a@);
    assert(b@.skip(0) =~= b@);
    while k < a.len() && k < b.len()
        invariant
            k <= a@.len(),
            k <= b@.len(),
            text_order(a@, b@) == text_order(a@.skip(k as int), b@.skip(k as int)),
        decreases a@.len() - k,
    {
        let x = a[k] as u32;
        let y = b[k] as u32;
        if x < y {
            return Order::Less;
        }
        if x > y {
            return Order::Greater;
        }
        assert(a@.skip(k as int).drop_first() =~= a@.skip(k + 1));
        assert(b@.skip(k as int).drop_first() =~= b@.skip(k + 1));
        k += 1;
    }
    if k < a.len() {
        Order::Greater
    } else if k < b.len() {
        Order::Less
    } else {
        Order::Equal
    }
}

/// Compares two strings lexicographically, as `String`'s `Ord` does.
pub fn text_order_str(a: &str, b: &str) -> (r: Order)
    ensures
        r == text_order(a@, b@),
{
    let x = chars_of(a);
    let y = chars_of(b);
    text_order_chars(&x, &y)
}

pub proof fn lemma_text_order_equal(a: Seq<char>, b: Seq<char>)
    ensures
        (text_order(a, b) == Order::Equal) == (a == b),
    decreases a.len(),
{
    if a.len() == 0 && b.len() == 0 {
        assert(a =~= b);
    }
    if a.len() > 0 && b.len() > 0 {
        vstd::utf8::char_u32_cast(a[0], a[0] as u32);
        vstd::utf8::char_u32_cast(b[0], b[0] as u32);
        if (a[0] as u32) == (b[0] as u32) {
            lemma_text_order_equal(a.drop_first(), b.drop_first());
            if a.drop_first() == b.drop_first() {
                assert(a =~= seq![a[0]] + a.drop_first());
                assert(b =~= seq![b[0]] + b.drop_first());
            }
        }
        if a == b {
            assert(a.drop_first() =~= b.drop_first());
        }
    }
}

pub proof fn lemma_text_order_flip(a: Seq<char>, b: Seq<char>)
    ensures
        text_order(b, a) == flipped(text_order(a, b)),
    decreases a.len(),
{
    if a.len() > 0 && b.len() > 0 && (a[0] as u32) == (b[0] as u32) {
        lemma_text_order_flip(a.drop_first(), b.drop_first());
    }
}

pub proof fn lemma_text_order_trans(a: Seq<char>, b: Seq<char>, c: Seq<char>)
    requires
        text_order(a, b) != Order::Greater,
        text_order(b, c) != Order::Greater,
    ensures
        text_order(a, c) != Order::Greater,
        text_order(a, b) == Order::Less || text_order(b, c) == Order::Less ==> text_order(a, c)
            == Order::Less,
    decreases a.len(),
{
    if a.len() > 0 && b.len() > 0 && c.len() > 0 && (a[0] as u32) == (b[0] as u32) && (b[0] as u32)
        == (c[0] as u32) {
        lemma_text_order_trans(a.drop_first(), b.drop_first(), c.drop_first());
    }
}

// ---------------------------------------------------------------------------
// Path components
// ---------------------------------------------------------------------------

/// The components of a path as `std::path::Path::components` yields them,
/// each as a kind and a text: kind 0 a Windows prefix (its text), 1 the root
/// directory, 2 `.`, 3 `..`, 4 a normal component (its text). The kinds are
/// numbered in the order in which `Component` orders its variants.
pub uninterp spec fn path_components(path: Seq<char>) -> Seq<(u8, Seq<char>)>;

/// The views of converted components.
pub open spec fn parts_view(parts: Seq<(u8, String)>) -> Seq<(u8, Seq<char>)> {
    parts.map_values(|p: (u8, String)| (p.0, p.1@))
}

/// The components of `path`, each as a kind and a text.
///
/// Calls `std::path::Path::components` and converts each `Component` to a
/// kind number, one per variant, and its text; the claim is that the result
/// is `path_components` of the argument, which nothing here states further.
#[verifier::external_body]
fn components_of(path: &str) -> (parts: Vec<(u8, String)>)
    ensures
        parts_view(parts@) == path_components(path@),
{
    std::path::Path::new(path).components().map(|c| match c {
        std::path::Component::Prefix(p) => (0u8, p.as_os_str().to_string_lossy().into_owned()),
        std::path::Component::RootDir => (1u8, String::new()),
        std::path::Component::CurDir => (2u8, String::new()),
        std::path::Component::ParentDir => (3u8, String::new()),
        std::path::Component::Normal(s) => (4u8, s.to_string_lossy().into_owned()),
    }).collect()
}

/// The order of two components: by kind, then by text.
pub open spec fn part_order(a: (u8, Seq<char>), b: (u8, Seq<char>)) -> Order {
    if a.0 < b.0 {
        Order::Less
    } else if a.0 > b.0 {
        Order::Greater
    } else {
        text_order(a.1, b.1)
    }
}

/// Lexicographic order of component sequences.
pub open spec fn parts_order(a: Seq<(u8, Seq<char>)>, b: Seq<(u8, Seq<char>)>) -> Order
    decreases a.len(),
{
    if a.len() == 0 {
        if b.len() == 0 {
            Order::Equal
        } else {
            Order::Less
        }
    } else if b.len() == 0 {
        Order::Greater
    } else if part_order(a[0], b[0]) != Order::Equal {
        part_order(a[0], b[0])
    } else {
        parts_order(a.drop_first(), b.drop_first())
    }
}

/// How `std::path::Path` orders two paths: by their components.
pub open spec fn path_order(a: Seq<char>, b: Seq<char>) -> Order {
    parts_order(path_components(a), path_components(b))
}

/// Compares two paths component by component, as `Path`'s `Ord` does.
pub fn path_order_str(a: &str, b: &str) -> (r: Order)
    ensures
        r == path_order(a@, b@),
{
    let x = components_of(a);
    let y = components_of(b);
    let ghost xv = parts_view(x@);
    let ghost yv = parts_view(y@);
    assert(xv.skip(0) =~= xv);
    assert(yv.skip(0) =~= yv);
    let mut k: usize = 0;
    while k < x.len() && k < y.len()
        invariant
            xv == parts_view(x@),
            yv == parts_view(y@),
            xv == path_components(a@),
            yv == path_components(b@),
            k <= x@.len(),
            k <= y@.len(),
            parts_order(xv, yv) == parts_order(xv.skip(k as int), yv.skip(k as int)),
        decreases x@.len() - k,
    {
        let p = &x[k];
        let q = &y[k];
        assert(xv.skip(k as int).len() > 0 && yv.skip(k as int).len() > 0);
        assert(xv.skip(k as int)[0] == (p.0, p.1@));
        assert(yv.skip(k as int)[0] == (q.0, q.1@));
        if p.0 < q.0 {
            return Order::Less;
        }
        if p.0 > q.0 {
            return Order::Greater;
        }
        let t = text_order_str(p.1.as_str(), q.1.as_str());
        if t != Order::Equal {
            return t;
        }
        assert(xv.skip(k as int).drop_first() =~= xv.skip(k + 1));
        assert(yv.skip(k as int).drop_first() =~= yv.skip(k + 1));
        k += 1;
    }
    if k < x.len() {
        Order::Greater
    } else if k < y.len() {
        Order::Less
    } else {
        Order::Equal
    }
}

pub proof fn lemma_parts_order_equal(a: Seq<(u8, Seq<char>)>, b: Seq<(u8, Seq<char>)>)
    ensures
        (parts_order(a, b) == Order::Equal) == (a == b),
    decreases a.len(),
{
    if a.len() == 0 && b.len() == 0 {
        assert(a =~= b);
    }
    if a.len() > 0 && b.len() > 0 {
        lemma_text_order_equal(a[0].1, b[0].1);
        lemma_parts_order_equal(a.drop_first(), b.drop_first());
        if a[0] == b[0] && a.drop_first() == b.drop_first() {
            assert(a =~= seq![a[0]] + a.drop_first());
            assert(b =~= seq![b[0]] + b.drop_first());
        }
        if a == b {
            assert(a.drop_first() =~= b.drop_first());
        }
    }
}

pub proof fn lemma_parts_order_flip(a: Seq<(u8, Seq<char>)>, b: Seq<(u8, Seq<char>)>)
    ensures
        parts_order(b, a) == flipped(parts_order(a, b)),
    decreases a.len(),
{
    if a.len() > 0 && b.len() > 0 {
        lemma_text_order_flip(a[0].1, b[0].1);
        lemma_parts_order_flip(a.drop_first(), b.drop_first());
    }
}

pub proof fn lemma_parts_order_trans(
    a: Seq<(u8, Seq<char>)>,
    b: Seq<(u8, Seq<char>)>,
    c: Seq<(u8, Seq<char>)>,
)
    requires
        parts_order(a, b) != Order::Greater,
        parts_order(b, c) != Order::Greater,
    ensures
        parts_order(a, c) != Order::Greater,
        parts_order(a, b) == Order::Less || parts_order(b, c) == Order::Less ==> parts_order(a, c)
            == Order::Less,
    decreases a.len(),
{
    if a.len() > 0 && b.len() > 0 && c.len() > 0 {
        lemma_text_order_equal(a[0].1, b[0].1);
        lemma_text_order_equal(b[0].1, c[0].1);
        if a[0].0 == b[0].0 && b[0].0 == c[0].0 && text_order(a[0].1, b[0].1) != Order::Greater
            && text_order(b[0].1, c[0].1) != Order::Greater {
            lemma_text_order_trans(a[0].1, b[0].1, c[0].1);
        }
        if part_order(a[0], b[0]) == Order::Equal && part_order(b[0], c[0]) == Order::Equal {
            lemma_parts_order_trans(a.drop_first(), b.drop_first(), c.drop_first());
        }
    }
}

// ---------------------------------------------------------------------------
// Relative paths
// ---------------------------------------------------------------------------

/// What `std::path::Path::strip_prefix` gives for `path` and `base`: the rest
/// of `path` after the components of `base`, or nothing where `base` is not a
/// prefix of `path`.
pub uninterp spec fn path_strip_prefix(path: Seq<char>, base: Seq<char>) -> Option<Seq<char>>;

/// No component of `parts` is a Windows prefix.
pub open spec fn no_prefix_part(parts: Seq<(u8, Seq<char>)>) -> bool {
    forall|i: int| 0 <= i < parts.len() ==> (#[trigger] parts[i]).0 != 0
}

/// `a` is a prefix of `b`, component by component.
pub open spec fn parts_prefix(a: Seq<(u8, Seq<char>)>, b: Seq<(u8, Seq<char>)>) -> bool {
    a.len() <= b.len() && b.take(a.len() as int) == a
}

/// Strips `base` from the front of `path`.
///
/// Calls `std::path::Path::strip_prefix`; the claim is that the result, as a
/// string, is `path_strip_prefix` of the two arguments. As the documentation
/// of `strip_prefix` and `starts_with` says, it succeeds exactly where the
/// components of `base` are the first components of `path`, and the path it
/// gives, joined onto `base`, is `path` again (the same components). Both are
/// claimed only where `base` has no Windows prefix component, since prefixes
/// compare by their parsed form, not their text.
#[verifier::external_body]
fn strip_prefix_of(path: &str, base: &str) -> (r: Option<String>)
    ensures
        r matches Some(s) ==> path_strip_prefix(path@, base@) == Some(s@),
        r is None ==> path_strip_prefix(path@, base@) is None,
        no_prefix_part(path_components(base@)) ==> (r is Some == parts_prefix(
            path_components(base@),
            path_components(path@),
        )),
        no_prefix_part(path_components(base@)) ==> (r matches Some(s) ==> path_components(
            path_join(base@, s@),
        ) == path_components(path@)),
{
    std::path::Path::new(path).strip_prefix(base).ok().map(|p| p.to_string_lossy().into_owned())
}

/// `path` relative to `root`, or `path` itself where it does not lie under
/// `root`.
pub open spec fn relative_path(root: Seq<char>, path: Seq<char>) -> Seq<char> {
    match path_strip_prefix(path, root) {
        Some(r) => r,
        None => path,
    }
}

/// `path` relative to `root`, or `path` unchanged where it does not lie under
/// `root`. Where `root` has no Windows prefix, `path` lies under it exactly
/// where the components of `root` begin those of `path`, and then `root`
/// joined with the result is `path` again.
pub fn relative_to(root: &str, path: &str) -> (r: String)
    ensures
        r@ == relative_path(root@, path@),
        no_prefix_part(path_components(root@)) && !parts_prefix(
            path_components(root@),
            path_components(path@),
        ) ==> r@ == path@,
        no_prefix_part(path_components(root@)) && parts_prefix(
            path_components(root@),
            path_components(path@),
        ) ==> path_components(path_join(root@, r@)) == path_components(path@),
{
    match strip_prefix_of(path, root) {
        Some(s) => s,
        None => path.to_string(),
    }
}

// ---------------------------------------------------------------------------
// Ancestors, parents and joins
// ---------------------------------------------------------------------------

/// The paths that `std::path::Path::ancestors` yields for `path`: the path
/// itself, then its parent, and so on while there is one.
pub uninterp spec fn path_ancestors(path: Seq<char>) -> Seq<Seq<char>>;

/// The ancestors of `path`, nearest first.
///
/// Calls `std::path::Path::ancestors`. The claim is that the result is
/// `path_ancestors` of the argument and, as the documentation of `ancestors`
/// says, that it starts with the path itself.
#[verifier::external_body]
pub(crate) fn ancestors_of(path: &str) -> (r: Vec<String>)
    ensures
        r@.map_values(|s: String| s@) == path_ancestors(path@),
        r@.len() > 0,
        r@[0]@ == path@,
{
    std::path::Path::new(path).ancestors().map(|a| a.to_string_lossy().into_owned()).collect()
}

/// What `std::path::Path::parent` gives for `path`.
pub uninterp spec fn path_parent(path: Seq<char>) -> Option<Seq<char>>;

/// The parent of `path`, if it has one.
///
/// Calls `std::path::Path::parent`. The claim is that the result is
/// `path_parent` of the argument.
#[verifier::external_body]
pub(crate) fn parent_of(path: &str) -> (r: Option<String>)
    ensures
        r matches Some(s) ==> path_parent(path@) == Some(s@),
        r is None ==> path_parent(path@) is None,
{
    std::path::Path::new(path).parent().map(|p| p.to_string_lossy().into_owned())
}

/// What `std::path::Path::join` gives for `base` and `name`.
pub uninterp spec fn path_join(base: Seq<char>, name: Seq<char>) -> Seq<char>;

/// `name` joined onto `base`.
///
/// Calls `std::path::Path::join`. The claim is that the result is `path_join`
/// of the arguments.
#[verifier::external_body]
pub(crate) fn join_path(base: &str, name: &str) -> (r: String)
    ensures
        r@ == path_join(base@, name@),
{
    std::path::Path::new(base).join(name).to_string_lossy().into_owned()
}

} // verus!
