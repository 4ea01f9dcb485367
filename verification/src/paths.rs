//! Paths as the library sees them: UTF-8 text with `/` separators.
//!
//! The library models Unix paths only: `/` is the one separator, and there
//! are no drive or verbatim prefixes (`display_path` only strips the text
//! `\\?\`). Equality and order of paths go by their components, as
//! `std::path::Path` compares them on Unix: a root, a leading `.`, `..` and
//! normal names, with empty and `.` segments elsewhere ignored. The contracts
//! of the calls into `std::path` hold on Unix targets.

use vstd::prelude::*;
use vstd::multiset::Multiset;
use vstd::string::StrSliceExecFns;
use crate::text::{chars_of, index_of_char, lemma_index_of_char, lemma_index_of_char_at};

verus! {

/// Component kinds, in the order in which components compare.
pub open spec fn ROOT_DIR() -> u8 { 0 }
/// See [`ROOT_DIR`].
pub open spec fn CUR_DIR() -> u8 { 1 }
/// See [`ROOT_DIR`].
pub open spec fn PARENT_DIR() -> u8 { 2 }
/// See [`ROOT_DIR`].
pub open spec fn NORMAL() -> u8 { 3 }

/// The component that one `/`-separated segment contributes, if any.
pub open spec fn segment_component(seg: Seq<char>) -> Seq<(u8, Seq<char>)> {
    if seg.len() == 0 || seg =~= seq!['.'] {
        seq![]
    } else if seg =~= seq!['.', '.'] {
        seq![(PARENT_DIR(), Seq::<char>::empty())]
    } else {
        seq![(NORMAL(), seg)]
    }
}

/// Components of the segments of `s`, left to right.
pub open spec fn body_components(s: Seq<char>) -> Seq<(u8, Seq<char>)>
    decreases s.len(),
{
    let k = index_of_char(s, '/');
    if k >= s.len() || k < 0 {
        segment_component(s)
    } else {
        segment_component(s.subrange(0, k)) + body_components(s.subrange(k + 1, s.len() as int))
    }
}

/// Whether the path starts at the root.
pub open spec fn has_root(p: Seq<char>) -> bool {
    p.len() > 0 && p[0] == '/'
}

/// Whether the path is relative and its first segment is `.`.
pub open spec fn starts_with_cur_dir(p: Seq<char>) -> bool {
    !has_root(p) && p.len() > 0 && p[0] == '.' && (p.len() == 1 || p[1] == '/')
}

/// The components of a path: `(kind, name)`, where the name is empty unless
/// the kind is [`NORMAL`].
pub open spec fn components(p: Seq<char>) -> Seq<(u8, Seq<char>)> {
    if has_root(p) {
        seq![(ROOT_DIR(), Seq::<char>::empty())] + body_components(p)
    } else if starts_with_cur_dir(p) {
        seq![(CUR_DIR(), Seq::<char>::empty())] + body_components(p)
    } else {
        body_components(p)
    }
}

/// Lexicographic order on character sequences (by code point, which is the
/// byte order of their UTF-8 encodings).
pub open spec fn chars_lt(a: Seq<char>, b: Seq<char>) -> bool
    decreases a.len(),
{
    if a.len() == 0 {
        b.len() > 0
    } else if b.len() == 0 {
        false
    } else if a[0] == b[0] {
        chars_lt(a.drop_first(), b.drop_first())
    } else {
        a[0] < b[0]
    }
}

/// Order of components: by kind, then by name.
pub open spec fn component_lt(a: (u8, Seq<char>), b: (u8, Seq<char>)) -> bool {
    a.0 < b.0 || (a.0 == b.0 && chars_lt(a.1, b.1))
}

/// Lexicographic order on component sequences.
pub open spec fn components_lt(a: Seq<(u8, Seq<char>)>, b: Seq<(u8, Seq<char>)>) -> bool
    decreases a.len(),
{
    if a.len() == 0 {
        b.len() > 0
    } else if b.len() == 0 {
        false
    } else if a[0] == b[0] {
        components_lt(a.drop_first(), b.drop_first())
    } else {
        component_lt(a[0], b[0])
    }
}

/// `p` sorts before `q`.
pub open spec fn path_lt(p: Seq<char>, q: Seq<char>) -> bool {
    components_lt(components(p), components(q))
}

/// `p` and `q` name the same path.
pub open spec fn path_eq(p: Seq<char>, q: Seq<char>) -> bool {
    components(p) == components(q)
}

/// `p` sorts before `q` or names the same path.
pub open spec fn path_le(p: Seq<char>, q: Seq<char>) -> bool {
    !path_lt(q, p)
}

pub proof fn lemma_chars_lt_irreflexive(a: Seq<char>)
    ensures
        !chars_lt(a, a),
    decreases a.len(),
{
    if a.len() > 0 {
        lemma_chars_lt_irreflexive(a.drop_first());
    }
}

pub proof fn lemma_chars_lt_transitive(a: Seq<char>, b: Seq<char>, c: Seq<char>)
    requires
        chars_lt(a, b),
        chars_lt(b, c),
    ensures
        chars_lt(a, c),
    decreases a.len(),
{
    if a.len() > 0 && b.len() > 0 && c.len() > 0 && a[0] == b[0] && b[0] == c[0] {
        lemma_chars_lt_transitive(a.drop_first(), b.drop_first(), c.drop_first());
    }
}

pub proof fn lemma_chars_lt_total(a: Seq<char>, b: Seq<char>)
    ensures
        chars_lt(a, b) || chars_lt(b, a) || a == b,
    decreases a.len(),
{
    if a.len() > 0 && b.len() > 0 && a[0] == b[0] {
        lemma_chars_lt_total(a.drop_first(), b.drop_first());
        if a.drop_first() == b.drop_first() {
            assert(a =~= seq![a[0]] + a.drop_first());
            assert(b =~= seq![b[0]] + b.drop_first());
        }
    } else if a.len() == 0 && b.len() == 0 {
        assert(a =~= b);
    }
}

pub proof fn lemma_chars_lt_asymmetric(a: Seq<char>, b: Seq<char>)
    requires
        chars_lt(a, b),
    ensures
        !chars_lt(b, a),
{
    if chars_lt(b, a) {
        lemma_chars_lt_transitive(a, b, a);
        lemma_chars_lt_irreflexive(a);
    }
}

pub proof fn lemma_components_lt_irreflexive(a: Seq<(u8, Seq<char>)>)
    ensures
        !components_lt(a, a),
    decreases a.len(),
{
    if a.len() > 0 {
        lemma_components_lt_irreflexive(a.drop_first());
    }
}

pub proof fn lemma_component_lt_transitive(a: (u8, Seq<char>), b: (u8, Seq<char>), c: (u8, Seq<char>))
    requires
        component_lt(a, b),
        component_lt(b, c),
    ensures
        component_lt(a, c),
{
    if a.0 == b.0 && b.0 == c.0 {
        lemma_chars_lt_transitive(a.1, b.1, c.1);
    }
}

pub proof fn lemma_component_lt_total(a: (u8, Seq<char>), b: (u8, Seq<char>))
    ensures
        component_lt(a, b) || component_lt(b, a) || a == b,
{
    lemma_chars_lt_total(a.1, b.1);
}

pub proof fn lemma_component_lt_irreflexive(a: (u8, Seq<char>))
    ensures
        !component_lt(a, a),
{
    lemma_chars_lt_irreflexive(a.1);
}

pub proof fn lemma_components_lt_transitive(
    a: Seq<(u8, Seq<char>)>,
    b: Seq<(u8, Seq<char>)>,
    c: Seq<(u8, Seq<char>)>,
)
    requires
        components_lt(a, b),
        components_lt(b, c),
    ensures
        components_lt(a, c),
    decreases a.len(),
{
    if a.len() > 0 && b.len() > 0 && c.len() > 0 {
        if a[0] == b[0] && b[0] == c[0] {
            lemma_components_lt_transitive(a.drop_first(), b.drop_first(), c.drop_first());
        } else if a[0] == b[0] {
        } else if b[0] == c[0] {
        } else {
            lemma_component_lt_transitive(a[0], b[0], c[0]);
            if a[0] == c[0] {
                lemma_component_lt_irreflexive(a[0]);
                lemma_component_lt_transitive(c[0], a[0], b[0]);
                lemma_component_lt_total(b[0], c[0]);
                lemma_component_lt_transitive(b[0], c[0], b[0]);
                lemma_component_lt_irreflexive(b[0]);
            }
        }
    }
}

pub proof fn lemma_components_lt_total(a: Seq<(u8, Seq<char>)>, b: Seq<(u8, Seq<char>)>)
    ensures
        components_lt(a, b) || components_lt(b, a) || a == b,
    decreases a.len(),
{
    if a.len() > 0 && b.len() > 0 {
        if a[0] == b[0] {
            lemma_components_lt_total(a.drop_first(), b.drop_first());
            if a.drop_first() == b.drop_first() {
                assert(a =~= seq![a[0]] + a.drop_first());
                assert(b =~= seq![b[0]] + b.drop_first());
            }
        } else {
            lemma_component_lt_total(a[0], b[0]);
        }
    } else if a.len() == 0 && b.len() == 0 {
        assert(a =~= b);
    }
}

/// Path order is a strict total order whose equivalence is [`path_eq`].
pub proof fn lemma_path_order(p: Seq<char>, q: Seq<char>, r: Seq<char>)
    ensures
        !path_lt(p, p),
        path_lt(p, q) ==> !path_lt(q, p),
        path_lt(p, q) && path_lt(q, r) ==> path_lt(p, r),
        path_lt(p, q) || path_lt(q, p) || path_eq(p, q),
        path_eq(p, q) ==> !path_lt(p, q),
        path_eq(p, q) && path_lt(q, r) ==> path_lt(p, r),
        path_lt(p, q) && path_eq(q, r) ==> path_lt(p, r),
{
    lemma_components_lt_irreflexive(components(p));
    lemma_components_lt_total(components(p), components(q));
    if path_lt(p, q) && path_lt(q, p) {
        lemma_components_lt_transitive(components(p), components(q), components(p));
    }
    if path_lt(p, q) && path_lt(q, r) {
        lemma_components_lt_transitive(components(p), components(q), components(r));
    }
}

} // verus!

verus! {

/// The component that a `(kind, start, end)` entry denotes within `chars`.
pub open spec fn entry_component(chars: Seq<char>, e: (u8, usize, usize)) -> (u8, Seq<char>) {
    (e.0, if e.0 == NORMAL() { chars.subrange(e.1 as int, e.2 as int) } else { Seq::<char>::empty() })
}

/// A path split into its components, kept as ranges of its characters.
pub struct PathKey {
    chars: Vec<char>,
    comps: Vec<(u8, usize, usize)>,
}

impl View for PathKey {
    type V = Seq<(u8, Seq<char>)>;

    closed spec fn view(&self) -> Seq<(u8, Seq<char>)> {
        self.comps@.map_values(|e: (u8, usize, usize)| entry_component(self.chars@, e))
    }
}

impl PathKey {
    /// The characters of the path.
    pub closed spec fn text(&self) -> Seq<char> {
        self.chars@
    }

    /// Ranges of the entries lie within the text.
    pub closed spec fn wf(&self) -> bool {
        entries_in_bounds(self.comps@, self.chars@.len())
    }

    proof fn lemma_view_push(chars: Seq<char>, comps: Seq<(u8, usize, usize)>, e: (u8, usize, usize))
        ensures
            comps.push(e).map_values(|x: (u8, usize, usize)| entry_component(chars, x))
                =~= comps.map_values(|x: (u8, usize, usize)| entry_component(chars, x)).push(
                entry_component(chars, e),
            ),
    {
    }

    /// Splits `path` into its components.
    pub fn of(path: &str) -> (k: PathKey)
        ensures
            k.wf(),
            k.text() == path@,
            k@ == components(path@),
    {
        let chars = chars_of(path);
        let ghost p = chars@;
        let mut comps: Vec<(u8, usize, usize)> = Vec::new();
        let n = chars.len();
        if n > 0 && chars[0] == '/' {
            comps.push((0u8, 0usize, 1usize));
        } else if n > 0 && chars[0] == '.' && (n == 1 || chars[1] == '/') {
            comps.push((1u8, 0usize, 1usize));
        }
        proof {
            assert(p.subrange(0, n as int) =~= p);
            let v = comps@.map_values(|x: (u8, usize, usize)| entry_component(p, x));
            if has_root(p) {
                assert(v =~= seq![(ROOT_DIR(), Seq::<char>::empty())]);
            } else if starts_with_cur_dir(p) {
                assert(v =~= seq![(CUR_DIR(), Seq::<char>::empty())]);
            } else {
                assert(v =~= Seq::<(u8, Seq<char>)>::empty());
            }
        }
        let mut start: usize = 0;
        let mut i: usize = 0;
        while i < n
            invariant
                p == chars@,
                n == p.len(),
                start <= i <= n,
                forall|j: int| start <= j < i ==> p[j] != '/',
                entries_in_bounds(comps@, p.len()),
                components(p) == comps@.map_values(
                    |x: (u8, usize, usize)| entry_component(p, x),
                ) + body_components(p.subrange(start as int, n as int)),
            decreases n - i,
        {
            if chars[i] == '/' {
                let ghost rest = p.subrange(start as int, n as int);
                let ghost seg = p.subrange(start as int, i as int);
                proof {
                    assert forall|j: int| 0 <= j < i - start implies rest[j] != '/' by {
                        assert(rest[j] == p[start + j]);
                    }
                    lemma_index_of_char_at(rest, '/', i - start);
                    assert(rest.subrange(0, i - start) =~= seg);
                    assert(rest.subrange(i - start + 1, rest.len() as int) =~= p.subrange(
                        i + 1,
                        n as int,
                    ));
                }
                push_segment(&chars, &mut comps, start, i);
                start = i + 1;
            }
            i = i + 1;
        }
        proof {
            let rest = p.subrange(start as int, n as int);
            assert forall|j: int| 0 <= j < rest.len() implies rest[j] != '/' by {
                assert(rest[j] == p[start + j]);
            }
            lemma_index_of_char_at(rest, '/', rest.len() as int);
        }
        push_segment(&chars, &mut comps, start, n);
        PathKey { chars, comps }
    }
}

/// Every entry's range lies within `n` characters.
pub open spec fn entries_in_bounds(comps: Seq<(u8, usize, usize)>, n: nat) -> bool {
    forall|j: int| #![trigger comps[j]] 0 <= j < comps.len() ==> comps[j].1 <= comps[j].2 <= n
}

/// Appends the component of segment `chars[start..end]`, if it has one.
fn push_segment(chars: &Vec<char>, comps: &mut Vec<(u8, usize, usize)>, start: usize, end: usize)
    requires
        start <= end <= chars@.len(),
        entries_in_bounds(old(comps)@, chars@.len()),
    ensures
        entries_in_bounds(final(comps)@, chars@.len()),
        final(comps)@.map_values(|x: (u8, usize, usize)| entry_component(chars@, x)) == old(
            comps,
        )@.map_values(|x: (u8, usize, usize)| entry_component(chars@, x)) + segment_component(
            chars@.subrange(start as int, end as int),
        ),
{
    let ghost p = chars@;
    let ghost seg = p.subrange(start as int, end as int);
    let ghost before = comps@;
    let len = end - start;
    if len == 0 {
        assert(segment_component(seg) =~= Seq::<(u8, Seq<char>)>::empty());
        assert(before.map_values(|x: (u8, usize, usize)| entry_component(p, x)) + segment_component(seg)
            =~= before.map_values(|x: (u8, usize, usize)| entry_component(p, x)));
    } else if len == 1 && chars[start] == '.' {
        assert(seg =~= seq!['.']);
        assert(before.map_values(|x: (u8, usize, usize)| entry_component(p, x)) + segment_component(seg)
            =~= before.map_values(|x: (u8, usize, usize)| entry_component(p, x)));
    } else if len == 2 && chars[start] == '.' && chars[start + 1] == '.' {
        comps.push((2u8, start, end));
        proof {
            assert(seg =~= seq!['.', '.']);
            PathKey::lemma_view_push(p, before, (2u8, start, end));
        }
    } else {
        comps.push((3u8, start, end));
        proof {
            if len == 1 {
                assert(seg[0] == p[start as int]);
            }
            if len == 2 {
                assert(seg[0] == p[start as int]);
                assert(seg[1] == p[start + 1]);
            }
            assert(!(seg =~= seq!['.']));
            assert(!(seg =~= seq!['.', '.']));
            PathKey::lemma_view_push(p, before, (3u8, start, end));
        }
    }
    assert forall|j: int| 0 <= j < comps@.len() implies #[trigger] comps@[j].1 <= comps@[j].2
        <= chars@.len() by {
        if j < before.len() {
            assert(comps@[j] == before[j]);
        }
    }
    assert(entries_in_bounds(comps@, chars@.len()));
}

/// Three-way comparison of `x[xs..xe]` and `y[ys..ye]`: -1, 0 or 1.
fn compare_char_ranges(x: &Vec<char>, xs: usize, xe: usize, y: &Vec<char>, ys: usize, ye: usize) -> (r: i8)
    requires
        xs <= xe <= x@.len(),
        ys <= ye <= y@.len(),
    ensures
        -1 <= r <= 1,
        r == -1 <==> chars_lt(x@.subrange(xs as int, xe as int), y@.subrange(ys as int, ye as int)),
        r == 0 <==> x@.subrange(xs as int, xe as int) == y@.subrange(ys as int, ye as int),
        r == 1 <==> chars_lt(y@.subrange(ys as int, ye as int), x@.subrange(xs as int, xe as int)),
{
    let ghost a = x@.subrange(xs as int, xe as int);
    let ghost b = y@.subrange(ys as int, ye as int);
    let mut i: usize = 0;
    proof {
        assert(a.subrange(0, a.len() as int) =~= a);
        assert(b.subrange(0, b.len() as int) =~= b);
    }
    loop
        invariant
            xs <= xe <= x@.len(),
            ys <= ye <= y@.len(),
            a == x@.subrange(xs as int, xe as int),
            b == y@.subrange(ys as int, ye as int),
            i <= a.len(),
            i <= b.len(),
            a.subrange(0, i as int) == b.subrange(0, i as int),
            chars_lt(a, b) == chars_lt(a.subrange(i as int, a.len() as int), b.subrange(i as int, b.len() as int)),
            chars_lt(b, a) == chars_lt(b.subrange(i as int, b.len() as int), a.subrange(i as int, a.len() as int)),
        decreases a.len() - i,
    {
        let ghost ra = a.subrange(i as int, a.len() as int);
        let ghost rb = b.subrange(i as int, b.len() as int);
        if xs + i == xe || ys + i == ye {
            proof {
                lemma_chars_lt_irreflexive(a);
                if xs + i == xe && ys + i == ye {
                    assert(a =~= a.subrange(0, i as int));
                    assert(b =~= b.subrange(0, i as int));
                } else if xs + i == xe {
                    assert(a =~= a.subrange(0, i as int));
                    assert(a != b) by {
                        assert(a.len() != b.len());
                    }
                } else {
                    assert(b =~= b.subrange(0, i as int));
                    assert(a != b) by {
                        assert(a.len() != b.len());
                    }
                }
            }
            if xs + i == xe && ys + i == ye {
                return 0;
            } else if xs + i == xe {
                return -1;
            } else {
                return 1;
            }
        }
        let cx = x[xs + i];
        let cy = y[ys + i];
        assert(ra[0] == cx && rb[0] == cy);
        if cx != cy {
            proof {
                assert(a[i as int] != b[i as int]);
            }
            if cx < cy {
                proof { lemma_chars_lt_asymmetric(a, b); }
                return -1;
            } else {
                proof { lemma_chars_lt_asymmetric(b, a); }
                return 1;
            }
        }
        proof {
            assert(ra.drop_first() =~= a.subrange(i + 1, a.len() as int));
            assert(rb.drop_first() =~= b.subrange(i + 1, b.len() as int));
            assert(a.subrange(0, i + 1) =~= a.subrange(0, i as int).push(cx));
            assert(b.subrange(0, i + 1) =~= b.subrange(0, i as int).push(cy));
        }
        i = i + 1;
    }
}

/// Three-way comparison of two component entries.
fn compare_entries(a: &PathKey, i: usize, b: &PathKey, j: usize) -> (r: i8)
    requires
        a.wf(),
        b.wf(),
        i < a@.len(),
        j < b@.len(),
    ensures
        -1 <= r <= 1,
        r == -1 <==> component_lt(a@[i as int], b@[j as int]),
        r == 0 <==> a@[i as int] == b@[j as int],
        r == 1 <==> component_lt(b@[j as int], a@[i as int]),
{
    let ea = a.comps[i];
    let eb = b.comps[j];
    proof {
        assert(a@.len() == a.comps@.len());
        assert(b@.len() == b.comps@.len());
        assert(entries_in_bounds(a.comps@, a.chars@.len()));
        assert(entries_in_bounds(b.comps@, b.chars@.len()));
        assert(a.comps@[i as int].1 <= a.comps@[i as int].2 <= a.chars@.len());
        assert(b.comps@[j as int].1 <= b.comps@[j as int].2 <= b.chars@.len());
        lemma_chars_lt_irreflexive(a@[i as int].1);
    }
    if ea.0 < eb.0 {
        return -1;
    }
    if eb.0 < ea.0 {
        return 1;
    }
    if ea.0 != 3 {
        proof {
            assert(a@[i as int].1 =~= b@[j as int].1);
        }
        return 0;
    }
    compare_char_ranges(&a.chars, ea.1, ea.2, &b.chars, eb.1, eb.2)
}

/// Three-way comparison of two paths by their components: -1, 0 or 1.
pub fn compare_keys(a: &PathKey, b: &PathKey) -> (r: i8)
    requires
        a.wf(),
        b.wf(),
    ensures
        -1 <= r <= 1,
        r == -1 <==> components_lt(a@, b@),
        r == 0 <==> a@ == b@,
        r == 1 <==> components_lt(b@, a@),
{
    let ghost sa = a@;
    let ghost sb = b@;
    let mut i: usize = 0;
    proof {
        assert(sa.subrange(0, sa.len() as int) =~= sa);
        assert(sb.subrange(0, sb.len() as int) =~= sb);
        lemma_components_lt_irreflexive(sa);
    }
    loop
        invariant
            a.wf(),
            b.wf(),
            sa == a@,
            sb == b@,
            i <= sa.len(),
            i <= sb.len(),
            sa.subrange(0, i as int) == sb.subrange(0, i as int),
            components_lt(sa, sb) == components_lt(sa.subrange(i as int, sa.len() as int), sb.subrange(i as int, sb.len() as int)),
            components_lt(sb, sa) == components_lt(sb.subrange(i as int, sb.len() as int), sa.subrange(i as int, sa.len() as int)),
        decreases sa.len() - i,
    {
        let ghost ra = sa.subrange(i as int, sa.len() as int);
        let ghost rb = sb.subrange(i as int, sb.len() as int);
        if i == a.comps.len() || i == b.comps.len() {
            proof {
                lemma_components_lt_irreflexive(sa);
                if i == sa.len() {
                    assert(sa =~= sa.subrange(0, i as int));
                }
                if i == sb.len() {
                    assert(sb =~= sb.subrange(0, i as int));
                }
                if sa.len() != sb.len() {
                    assert(sa != sb);
                }
            }
            if i == a.comps.len() && i == b.comps.len() {
                return 0;
            } else if i == a.comps.len() {
                return -1;
            } else {
                return 1;
            }
        }
        let c = compare_entries(a, i, b, i);
        assert(ra[0] == sa[i as int] && rb[0] == sb[i as int]);
        if c != 0 {
            proof {
                assert(sa[i as int] != sb[i as int]);
                assert(sa != sb);
                if c == -1 {
                    assert(components_lt(ra, rb));
                    lemma_components_lt_transitive_asym(sa, sb);
                } else {
                    assert(component_lt(b@[i as int], a@[i as int]));
                    assert(component_lt(rb[0], ra[0]));
                    assert(components_lt(rb, ra));
                    lemma_components_lt_transitive_asym(sb, sa);
                }
            }
            return c;
        }
        proof {
            assert(ra.drop_first() =~= sa.subrange(i + 1, sa.len() as int));
            assert(rb.drop_first() =~= sb.subrange(i + 1, sb.len() as int));
            assert(sa.subrange(0, i + 1) =~= sa.subrange(0, i as int).push(sa[i as int]));
            assert(sb.subrange(0, i + 1) =~= sb.subrange(0, i as int).push(sb[i as int]));
        }
        i = i + 1;
    }
}

proof fn lemma_components_lt_transitive_asym(a: Seq<(u8, Seq<char>)>, b: Seq<(u8, Seq<char>)>)
    requires
        components_lt(a, b),
    ensures
        !components_lt(b, a),
{
    if components_lt(b, a) {
        lemma_components_lt_transitive(a, b, a);
        lemma_components_lt_irreflexive(a);
    }
}

} // verus!

verus! {

/// Whether `p` sorts before `q`, comparing components.
pub fn path_less(p: &str, q: &str) -> (b: bool)
    ensures
        b == path_lt(p@, q@),
{
    let kp = PathKey::of(p);
    let kq = PathKey::of(q);
    compare_keys(&kp, &kq) == -1
}

/// Whether `p` and `q` have the same components.
pub fn paths_equal(p: &str, q: &str) -> (b: bool)
    ensures
        b == path_eq(p@, q@),
{
    let kp = PathKey::of(p);
    let kq = PathKey::of(q);
    compare_keys(&kp, &kq) == 0
}

/// The components with each `..` that follows a name removed together
/// with that name, and each `..` right after the root dropped: the path as
/// it reads once `..` is resolved without looking at the file system.
pub open spec fn normalize(c: Seq<(u8, Seq<char>)>) -> Seq<(u8, Seq<char>)>
    decreases c.len(),
{
    if c.len() == 0 {
        Seq::empty()
    } else {
        let r = normalize(c.drop_last());
        let x = c.last();
        if x.0 == PARENT_DIR() && r.len() > 0 && r.last().0 == NORMAL() {
            r.drop_last()
        } else if x.0 == PARENT_DIR() && r.len() > 0 && r.last().0 == ROOT_DIR() {
            r
        } else {
            r.push(x)
        }
    }
}

/// `p` and `q` name the same directory once `..` is resolved lexically.
pub open spec fn same_dir(p: Seq<char>, q: Seq<char>) -> bool {
    normalize(components(p)) == normalize(components(q))
}

impl PathKey {
    /// The key with `..` resolved as [`normalize`] does.
    fn normalized(&self) -> (k: PathKey)
        requires
            self.wf(),
        ensures
            k.wf(),
            k@ == normalize(self@),
    {
        let ghost v = self@;
        let mut out: Vec<(u8, usize, usize)> = Vec::new();
        let mut i: usize = 0;
        while i < self.comps.len()
            invariant
                self.wf(),
                v == self@,
                i <= self.comps@.len(),
                entries_in_bounds(out@, self.chars@.len()),
                out@.map_values(|e: (u8, usize, usize)| entry_component(self.chars@, e)) == normalize(v.subrange(0, i as int)),
            decreases self.comps@.len() - i,
        {
            let ghost o0 = out@;
            let ghost prev = normalize(v.subrange(0, i as int));
            assert(v.subrange(0, i + 1).drop_last() =~= v.subrange(0, i as int));
            let e = self.comps[i];
            assert(v[i as int] == entry_component(self.chars@, e));
            assert(v.subrange(0, i + 1).last() == v[i as int]);
            let n = out.len();
            if e.0 == 2 && n > 0 && out[n - 1].0 == 3 {
                assert(prev.last() == entry_component(self.chars@, out@[n - 1]));
                out.pop();
                assert(out@.map_values(|e: (u8, usize, usize)| entry_component(self.chars@, e)) =~= prev.drop_last());
            } else if e.0 == 2 && n > 0 && out[n - 1].0 == 0 {
                assert(prev.last() == entry_component(self.chars@, out@[n - 1]));
            } else {
                proof {
                    if n > 0 {
                        assert(prev.last() == entry_component(self.chars@, out@[n - 1]));
                    }
                }
                out.push(e);
                assert(out@.map_values(|e: (u8, usize, usize)| entry_component(self.chars@, e)) =~= prev.push(
                    entry_component(self.chars@, e),
                ));
                assert(entries_in_bounds(out@, self.chars@.len())) by {
                    assert forall|j: int| #![trigger out@[j]] 0 <= j < out@.len() implies out@[j].1 <= out@[j].2
                        <= self.chars@.len() by {
                        if j < n {
                            assert(out@[j] == o0[j]);
                        }
                    }
                }
            }
            i = i + 1;
        }
        assert(v.subrange(0, i as int) =~= v);
        PathKey { chars: self.chars.clone(), comps: out }
    }
}

/// Whether `p` and `q` name the same directory once `..` is resolved.
pub fn paths_same_dir(p: &str, q: &str) -> (b: bool)
    ensures
        b == same_dir(p@, q@),
{
    let kp = PathKey::of(p).normalized();
    let kq = PathKey::of(q).normalized();
    compare_keys(&kp, &kq) == 0
}

/// Whether the components of `base` begin the components of `p`.
pub open spec fn path_starts_with(p: Seq<char>, base: Seq<char>) -> bool {
    components(base).is_prefix_of(components(p))
}

/// Whether `p` lies at or below `base`, component by component.
pub fn starts_with_path(p: &str, base: &str) -> (b: bool)
    ensures
        b == path_starts_with(p@, base@),
{
    let kp = PathKey::of(p);
    let kb = PathKey::of(base);
    let n = kb.comps.len();
    proof {
        assert(kp@.len() == kp.comps@.len());
        assert(kb@.len() == kb.comps@.len());
    }
    if n > kp.comps.len() {
        return false;
    }
    let mut i: usize = 0;
    while i < n
        invariant
            kp.wf(),
            kb.wf(),
            kp@ == components(p@),
            kb@ == components(base@),
            n == kb@.len(),
            n <= kp@.len(),
            i <= n,
            forall|j: int| 0 <= j < i ==> kp@[j] == kb@[j],
        decreases n - i,
    {
        if compare_entries(&kp, i, &kb, i) != 0 {
            proof {
                assert(kp@[i as int] != kb@[i as int]);
                assert(kp@.subrange(0, n as int)[i as int] != kb@[i as int]);
                assert(!(kb@ =~= kp@.subrange(0, kb@.len() as int)));
            }
            return false;
        }
        i = i + 1;
    }
    assert(kp@.subrange(0, n as int) =~= kb@);
    true
}

/// Elements of `s` are in non-decreasing path order.
pub open spec fn sorted_by_path<T>(s: Seq<(String, T)>) -> bool {
    forall|i: int, j: int| 0 <= i < j < s.len() ==> path_le(#[trigger] s[i].0@, #[trigger] s[j].0@)
}

proof fn lemma_lt_le_lt(p: Seq<char>, q: Seq<char>, r: Seq<char>)
    requires
        path_lt(p, q),
        path_le(q, r),
    ensures
        path_lt(p, r),
{
    lemma_path_order(p, q, r);
    lemma_path_order(q, r, p);
}

/// Each key holds the components of the path of the item at its index.
pub open spec fn keys_match<T>(keys: Seq<PathKey>, items: Seq<(String, T)>) -> bool {
    &&& keys.len() == items.len()
    &&& forall|k: int| #![trigger keys[k]] 0 <= k < keys.len() ==> keys[k].wf() && keys[k]@ == components(items[k].0@)
}

/// The items ordered by path; the multiset of items is unchanged.
pub fn sort_by_path<T>(items: Vec<(String, T)>) -> (r: Vec<(String, T)>)
    ensures
        r@.to_multiset() == items@.to_multiset(),
        forall|x: (String, T)| r@.contains(x) <==> items@.contains(x),
        sorted_by_path(r@),
{
    broadcast use vstd::seq_lib::group_to_multiset_ensures;
    let mut rest = items;
    let mut out: Vec<(String, T)> = Vec::new();
    let mut keys: Vec<PathKey> = Vec::new();
    proof {
        assert(out@.to_multiset() =~= Multiset::empty());
        assert(out@.to_multiset().add(rest@.to_multiset()) =~= items@.to_multiset());
    }
    while rest.len() > 0
        invariant
            out@.to_multiset().add(rest@.to_multiset()) == items@.to_multiset(),
            keys_match(keys@, out@),
            sorted_by_path(out@),
        decreases rest@.len(),
    {
        let ghost rest0 = rest@;
        let x = rest.pop().unwrap();
        proof {
            assert(rest0 =~= rest@.push(x));
            vstd::seq_lib::to_multiset_build(rest@, x);
            assert(rest0.to_multiset() =~= rest@.to_multiset().insert(x));
        }
        let kx = PathKey::of(x.0.as_str());
        let mut j: usize = 0;
        while j < out.len() && compare_keys(&kx, &keys[j]) != -1
            invariant
                kx.wf(),
                kx@ == components(x.0@),
                keys_match(keys@, out@),
                j <= out@.len(),
                forall|m: int| 0 <= m < j ==> path_le(#[trigger] out@[m].0@, x.0@),
            decreases out@.len() - j,
        {
            proof {
                assert(keys@[j as int].wf());
            }
            j = j + 1;
        }
        let ghost out0 = out@;
        let ghost keys0 = keys@;
        proof {
            if j < out0.len() {
                assert(keys@[j as int].wf());
                assert(path_lt(x.0@, out0[j as int].0@));
            }
        }
        out.insert(j, x);
        keys.insert(j, kx);
        proof {
            assert(out@ =~= out0.insert(j as int, x));
            vstd::seq_lib::to_multiset_insert(out0, j as int, x);
            assert(out@.to_multiset() == out0.to_multiset().insert(x));
            assert(out@.to_multiset().add(rest@.to_multiset()) =~= items@.to_multiset());
            assert forall|k: int| #![trigger keys@[k]] 0 <= k < keys@.len() implies keys@[k].wf() && keys@[k]@ == components(out@[k].0@) by {
                if k < j {
                    assert(keys@[k] == keys0[k]);
                    assert(out@[k] == out0[k]);
                } else if k > j {
                    assert(keys@[k] == keys0[k - 1]);
                    assert(out@[k] == out0[k - 1]);
                }
            }
            assert forall|a: int, b: int| 0 <= a < b < out@.len() implies path_le(#[trigger] out@[a].0@, #[trigger] out@[b].0@) by {
                if a < j && b == j {
                } else if a == j && b > j {
                    let c = b - 1;
                    assert(out@[b] == out0[c]);
                    if c == j {
                        lemma_path_order(x.0@, out0[c].0@, x.0@);
                    } else {
                        assert(path_le(out0[j as int].0@, out0[c].0@));
                        lemma_lt_le_lt(x.0@, out0[j as int].0@, out0[c].0@);
                        lemma_path_order(x.0@, out0[c].0@, x.0@);
                    }
                } else if a < j && b > j {
                    assert(out@[b] == out0[b - 1]);
                } else if a > j {
                    assert(out@[a] == out0[a - 1]);
                    assert(out@[b] == out0[b - 1]);
                }
            }
        }
    }
    proof {
        assert(rest@.to_multiset() =~= Multiset::empty());
        assert(out@.to_multiset() =~= out@.to_multiset().add(rest@.to_multiset()));
        assert forall|x: (String, T)| out@.contains(x) <==> items@.contains(x) by {
            vstd::seq_lib::to_multiset_contains(out@, x);
            vstd::seq_lib::to_multiset_contains(items@, x);
        }
    }
    out
}

} // verus!

verus! {

/// The texts of a sequence of strings.
pub open spec fn texts(s: Seq<String>) -> Seq<Seq<char>> {
    s.map_values(|x: String| x@)
}

/// `s` with each run of consecutive path-equal entries cut down to its first entry.
pub open spec fn dedup_paths(s: Seq<Seq<char>>) -> Seq<Seq<char>>
    decreases s.len(),
{
    if s.len() <= 1 {
        s
    } else if path_eq(s[s.len() - 2], s.last()) {
        dedup_paths(s.drop_last())
    } else {
        dedup_paths(s.drop_last()).push(s.last())
    }
}

proof fn lemma_dedup_last(s: Seq<Seq<char>>)
    requires
        s.len() > 0,
    ensures
        dedup_paths(s).len() > 0,
        dedup_paths(s).last() == s.last() || path_eq(dedup_paths(s).last(), s.last()),
    decreases s.len(),
{
    if s.len() > 1 && path_eq(s[s.len() - 2], s.last()) {
        lemma_dedup_last(s.drop_last());
    }
}

/// Removes consecutive entries that name the same path as the entry before
/// them, as `Vec::dedup` does with path equality.
pub fn dedup_by_path(v: Vec<String>) -> (r: Vec<String>)
    ensures
        texts(r@) == dedup_paths(texts(v@)),
{
    let mut r: Vec<String> = Vec::new();
    let mut i: usize = 0;
    let ghost t = texts(v@);
    while i < v.len()
        invariant
            t == texts(v@),
            i <= v@.len(),
            texts(r@) == dedup_paths(t.subrange(0, i as int)),
            i > 0 ==> r@.len() > 0,
        decreases v@.len() - i,
    {
        let ghost pre = t.subrange(0, i as int);
        let ghost next = t.subrange(0, i as int + 1);
        assert(next.drop_last() =~= pre);
        assert(next.last() == v@[i as int]@);
        let keep = if i == 0 {
            true
        } else {
            assert(next[next.len() - 2] == v@[i - 1]@);
            !paths_equal(v[i - 1].as_str(), v[i].as_str())
        };
        if keep {
            let ghost r0 = r@;
            r.push(v[i].clone());
            assert(texts(r@) =~= texts(r0).push(v@[i as int]@));
            if i == 0 {
                assert(next =~= seq![v@[0]@]);
                assert(dedup_paths(pre) =~= Seq::<Seq<char>>::empty());
            }
        }
        i = i + 1;
    }
    assert(t.subrange(0, i as int) =~= t);
    r
}

/// `base` joined with `rel` as `Path::join` does on Unix: an absolute `rel`
/// replaces `base`; otherwise a `/` is put between them unless `base` is
/// empty or already ends with one.
pub open spec fn join_path(base: Seq<char>, rel: Seq<char>) -> Seq<char> {
    if rel.len() > 0 && rel[0] == '/' {
        rel
    } else if base.len() > 0 && base.last() != '/' {
        base + seq!['/'] + rel
    } else {
        base + rel
    }
}

/// Executable form of [`join_path`].
pub fn join(base: &str, rel: &str) -> (r: String)
    ensures
        r@ == join_path(base@, rel@),
{
    let rel_chars = chars_of(rel);
    if rel_chars.len() > 0 && rel_chars[0] == '/' {
        return rel.to_owned();
    }
    let base_chars = chars_of(base);
    let mut out = base.to_owned();
    if base_chars.len() > 0 && base_chars[base_chars.len() - 1] != '/' {
        out.append("/");
        proof {
            reveal_strlit("/");
        }
    }
    out.append(rel);
    proof {
        if base@.len() > 0 && base@.last() != '/' {
            assert("/"@ =~= seq!['/']);
        }
    }
    out
}

/// The verbatim prefix that Windows puts before canonical paths: `\\?\`.
pub open spec fn verbatim_prefix() -> Seq<char> {
    seq!['\\', '\\', '?', '\\']
}

/// A path for display: without a leading `\\?\`.
pub fn display_path(path: &str) -> (r: String)
    ensures
        r@ == if verbatim_prefix().is_prefix_of(path@) {
            path@.subrange(4, path@.len() as int)
        } else {
            path@
        },
{
    let chars = chars_of(path);
    if chars.len() >= 4 && chars[0] == '\\' && chars[1] == '\\' && chars[2] == '?' && chars[3] == '\\' {
        assert(path@.subrange(0, 4) =~= verbatim_prefix());
        path.substring_char(4, chars.len()).to_owned()
    } else {
        proof {
            if verbatim_prefix().is_prefix_of(path@) {
                assert(path@.subrange(0, 4)[0] == path@[0]);
                assert(path@.subrange(0, 4)[1] == path@[1]);
                assert(path@.subrange(0, 4)[2] == path@[2]);
                assert(path@.subrange(0, 4)[3] == path@[3]);
            }
        }
        path.to_owned()
    }
}

/// What `Path::parent` gives for a path, as text.
pub uninterp spec fn parent_of_path(p: Seq<char>) -> Option<Seq<char>>;

/// What `Path::strip_prefix` gives for a path and a base, as text.
pub uninterp spec fn path_without_prefix(p: Seq<char>, base: Seq<char>) -> Option<Seq<char>>;

/// `std::path::Path::parent`: the path without its final component; `None`
/// when the path ends in a root or is empty, which are the paths with no
/// components or whose last component is the root. Its text is taken as the
/// named value [`parent_of_path`] of the argument.
#[verifier::external_body]
pub(crate) fn parent(p: &str) -> (r: Option<String>)
    ensures
        r is None <==> parent_of_path(p@) is None,
        r matches Some(s) ==> parent_of_path(p@) == Some(s@),
        r is None <==> (components(p@).len() == 0 || components(p@).last().0 == ROOT_DIR()),
        r matches Some(s) ==> components(s@) == components(p@).drop_last(),
{
    std::path::Path::new(p).parent().map(|q| q.to_string_lossy().into_owned())
}

/// `std::path::Path::strip_prefix`: the rest of `p` after the components of
/// `base`; `None` exactly when the components of `base` do not begin those
/// of `p`. Joined onto `base`, the rest gives `p` back. Its text is taken as
/// the named value [`path_without_prefix`] of the arguments.
#[verifier::external_body]
pub(crate) fn strip_prefix(p: &str, base: &str) -> (r: Option<String>)
    ensures
        r is None <==> path_without_prefix(p@, base@) is None,
        r matches Some(s) ==> path_without_prefix(p@, base@) == Some(s@),
        r is Some <==> path_starts_with(p@, base@),
        r matches Some(s) ==> path_eq(join_path(base@, s@), p@),
{
    std::path::Path::new(p).strip_prefix(base).ok().map(|q| q.to_string_lossy().into_owned())
}

} // verus!

verus! {

/// The final component of a path when it is a normal name, as `Path::file_name` gives it.
pub open spec fn file_name_of(p: Seq<char>) -> Option<Seq<char>> {
    let c = components(p);
    if c.len() > 0 && c.last().0 == NORMAL() {
        Some(c.last().1)
    } else {
        None
    }
}

/// Index of the last `c` in `s`, or -1 when there is none.
pub open spec fn last_index_of_char(s: Seq<char>, c: char) -> int
    decreases s.len(),
{
    if s.len() == 0 {
        -1
    } else if s.last() == c {
        s.len() - 1
    } else {
        last_index_of_char(s.drop_last(), c)
    }
}

/// The extension of a file name, as `Path::extension` gives it: the text
/// after the last `.`, unless there is none or the name starts with its only `.`.
pub open spec fn extension_of_name(name: Seq<char>) -> Option<Seq<char>> {
    let k = last_index_of_char(name, '.');
    if k <= 0 {
        None
    } else {
        Some(name.subrange(k + 1, name.len() as int))
    }
}

/// The extension of a path's file name, if it has one.
pub open spec fn extension_of(p: Seq<char>) -> Option<Seq<char>> {
    match file_name_of(p) {
        Some(name) => extension_of_name(name),
        None => None,
    }
}

/// The characters of an optional name.
pub open spec fn opt_chars(o: Option<Vec<char>>) -> Option<Seq<char>> {
    match o {
        Some(v) => Some(v@),
        None => None,
    }
}

proof fn lemma_last_index(s: Seq<char>, c: char)
    ensures
        -1 <= last_index_of_char(s, c) < s.len(),
    decreases s.len(),
{
    if s.len() > 0 && s.last() != c {
        lemma_last_index(s.drop_last(), c);
    }
}

/// The file name of `path`.
pub fn file_name(path: &str) -> (r: Option<Vec<char>>)
    ensures
        opt_chars(r) == file_name_of(path@),
{
    let k = PathKey::of(path);
    let n = k.comps.len();
    proof {
        assert(k@.len() == n);
    }
    if n == 0 {
        return None;
    }
    let e = k.comps[n - 1];
    proof {
        assert(k.comps@[n - 1].1 <= k.comps@[n - 1].2 <= k.chars@.len());
        assert(k@.last() == entry_component(k.chars@, e));
    }
    if e.0 != 3 {
        return None;
    }
    Some(crate::text::copy_range(&k.chars, e.1, e.2))
}

/// The extension of `path`'s file name, if it has one.
pub fn extension(path: &str) -> (r: Option<Vec<char>>)
    ensures
        opt_chars(r) == extension_of(path@),
{
    let name = match file_name(path) {
        Some(n) => n,
        None => return None,
    };
    let mut i = name.len();
    assert(name@.subrange(0, i as int) =~= name@);
    while i > 0 && name[i - 1] != '.'
        invariant
            i <= name@.len(),
            last_index_of_char(name@, '.') == last_index_of_char(name@.subrange(0, i as int), '.'),
        decreases i,
    {
        assert(name@.subrange(0, i as int).drop_last() =~= name@.subrange(0, i - 1));
        i = i - 1;
    }
    proof {
        if i > 0 {
            assert(name@.subrange(0, i as int).last() == name@[i - 1]);
        }
        assert(name@.subrange(0, name@.len() as int) =~= name@);
    }
    if i <= 1 {
        return None;
    }
    Some(crate::text::copy_range(&name, i, name.len()))
}

} // verus!
