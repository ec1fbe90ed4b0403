//! Grouping changed files by their top-level directory, as the session
//! summaries show them: "src/ (3), docs/ (1), root files (1)".
use vstd::prelude::*;

use crate::text::{
    chars_of, concat2, decimal, decimal_string, join, join_strings, string_of_range, str_equals,
    views,
};
use vstd::string::StringExecFns;

verus! {

broadcast use vstd::string::group_string_axioms;

// ---------------------------------------------------------------------------
// Path components (Unix `Path::iter`)
// ---------------------------------------------------------------------------

/// Reading `p` left to right: the `/`-separated segments completed so far
/// and the open segment.
pub open spec fn segment_scan(p: Seq<char>) -> (Seq<Seq<char>>, Seq<char>)
    decreases p.len(),
{
    if p.len() == 0 {
        (Seq::empty(), Seq::empty())
    } else {
        let (done, cur) = segment_scan(p.drop_last());
        if p.last() == '/' {
            (done.push(cur), Seq::empty())
        } else {
            (done, cur.push(p.last()))
        }
    }
}

/// All `/`-separated segments of `p`, empty ones included.
pub open spec fn segments(p: Seq<char>) -> Seq<Seq<char>> {
    segment_scan(p).0.push(segment_scan(p).1)
}

/// A segment that names a component: not empty and not `.`.
pub open spec fn is_normal_segment(seg: Seq<char>) -> bool {
    seg.len() > 0 && seg != "."@
}

/// The segments that name components, in order.
pub open spec fn normal_segments(segs: Seq<Seq<char>>) -> Seq<Seq<char>>
    decreases segs.len(),
{
    if segs.len() == 0 {
        Seq::empty()
    } else if is_normal_segment(segs.last()) {
        normal_segments(segs.drop_last()).push(segs.last())
    } else {
        normal_segments(segs.drop_last())
    }
}

/// The components `Path::iter` yields for a Unix path: `/` for a leading
/// root, `.` for a leading current-directory marker of a relative path, then
/// every segment that is neither empty nor `.`.
pub open spec fn path_components(p: Seq<char>) -> Seq<Seq<char>> {
    let segs = segments(p);
    if p.len() > 0 && p[0] == '/' {
        seq!["/"@] + normal_segments(segs.drop_first())
    } else if segs[0] == "."@ {
        seq!["."@] + normal_segments(segs.drop_first())
    } else {
        normal_segments(segs)
    }
}

/// The group a changed file belongs to: its first component followed by `/`
/// when it has at least two components, else "root files".
pub open spec fn root_of(file: Seq<char>) -> Seq<char> {
    let parts = path_components(file);
    if parts.len() >= 2 {
        parts[0] + "/"@
    } else {
        "root files"@
    }
}

fn segments_of(v: &Vec<char>) -> (r: Vec<String>)
    ensures
        views(r@) == segments(v@),
{
    let mut done: Vec<String> = Vec::new();
    let mut start: usize = 0;
    let mut i: usize = 0;
    while i < v.len()
        invariant
            start <= i <= v.len(),
            (views(done@), v@.subrange(start as int, i as int)) == segment_scan(v@.take(i as int)),
        decreases v.len() - i,
    {
        assert(v@.take(i + 1).drop_last() =~= v@.take(i as int));
        if v[i] == '/' {
            done.push(string_of_range(v, start, i));
            start = i + 1;
        }
        i = i + 1;
        assert(views(done@) =~= segment_scan(v@.take(i as int)).0);
        assert(v@.subrange(start as int, i as int) =~= segment_scan(v@.take(i as int)).1);
    }
    assert(v@.take(v.len() as int) =~= v@);
    done.push(string_of_range(v, start, v.len()));
    assert(views(done@) =~= segments(v@));
    done
}

/// Components of `segs[from..]` that name something.
fn normal_segments_from(segs: &Vec<String>, from: usize) -> (r: Vec<String>)
    requires
        from <= segs.len(),
    ensures
        views(r@) == normal_segments(views(segs@).subrange(from as int, segs.len() as int)),
{
    let ghost sv = views(segs@);
    let mut r: Vec<String> = Vec::new();
    let mut i: usize = from;
    while i < segs.len()
        invariant
            from <= i <= segs.len(),
            sv == views(segs@),
            views(r@) == normal_segments(sv.subrange(from as int, i as int)),
        decreases segs.len() - i,
    {
        let seg = segs[i].as_str();
        assert(sv.subrange(from as int, i + 1).drop_last() =~= sv.subrange(from as int, i as int));
        assert(sv.subrange(from as int, i + 1).last() == seg@);
        if !seg.is_empty() && !str_equals(seg, ".") {
            r.push(segs[i].clone());
        }
        i = i + 1;
        assert(views(r@) =~= normal_segments(sv.subrange(from as int, i as int)));
    }
    r
}

/// The components of a Unix path.
pub fn path_components_of(file: &str) -> (r: Vec<String>)
    ensures
        views(r@) == path_components(file@),
{
    let v = chars_of(file);
    let segs = segments_of(&v);
    let ghost sv = views(segs@);
    assert(sv.subrange(1, sv.len() as int) =~= sv.drop_first());
    assert(sv.subrange(0, sv.len() as int) =~= sv);
    if v.len() > 0 && v[0] == '/' {
        let mut r: Vec<String> = Vec::new();
        r.push(String::from_str("/"));
        let mut rest = normal_segments_from(&segs, 1);
        r.append(&mut rest);
        assert(views(r@) =~= seq!["/"@] + normal_segments(sv.drop_first()));
        r
    } else if str_equals(segs[0].as_str(), ".") {
        let mut r: Vec<String> = Vec::new();
        r.push(String::from_str("."));
        let mut rest = normal_segments_from(&segs, 1);
        r.append(&mut rest);
        assert(views(r@) =~= seq!["."@] + normal_segments(sv.drop_first()));
        r
    } else {
        normal_segments_from(&segs, 0)
    }
}

/// The group a changed file belongs to.
pub fn file_root(file: &str) -> (r: String)
    ensures
        r@ == root_of(file@),
{
    let parts = path_components_of(file);
    if parts.len() >= 2 {
        concat2(parts[0].as_str(), "/")
    } else {
        String::from_str("root files")
    }
}

// ---------------------------------------------------------------------------
// Ordering of strings (`Ord for str`: by code point, shorter prefix first)
// ---------------------------------------------------------------------------

/// `a` sorts strictly before `b`, character by character.
pub open spec fn chars_lt(a: Seq<char>, b: Seq<char>) -> bool
    decreases a.len(),
{
    if b.len() == 0 {
        false
    } else if a.len() == 0 {
        true
    } else if (a[0] as int) < (b[0] as int) {
        true
    } else if a[0] == b[0] {
        chars_lt(a.drop_first(), b.drop_first())
    } else {
        false
    }
}

proof fn lemma_chars_lt_irreflexive(a: Seq<char>)
    ensures
        !chars_lt(a, a),
    decreases a.len(),
{
    if a.len() > 0 {
        lemma_chars_lt_irreflexive(a.drop_first());
    }
}

proof fn lemma_chars_lt_transitive(a: Seq<char>, b: Seq<char>, c: Seq<char>)
    requires
        chars_lt(a, b),
        chars_lt(b, c),
    ensures
        chars_lt(a, c),
    decreases a.len(),
{
    if a.len() > 0 && b.len() > 0 && c.len() > 0 {
        if a[0] == b[0] && b[0] == c[0] {
            lemma_chars_lt_transitive(a.drop_first(), b.drop_first(), c.drop_first());
        }
    }
}

proof fn lemma_chars_lt_total(a: Seq<char>, b: Seq<char>)
    requires
        a != b,
    ensures
        chars_lt(a, b) || chars_lt(b, a),
    decreases a.len(),
{
    if a.len() > 0 && b.len() > 0 {
        if a[0] == b[0] {
            if a.drop_first() == b.drop_first() {
                assert(a =~= seq![a[0]] + a.drop_first());
                assert(b =~= seq![b[0]] + b.drop_first());
            }
            lemma_chars_lt_total(a.drop_first(), b.drop_first());
        } else {
            assert((a[0] as int) != (b[0] as int));
        }
    } else if a.len() == 0 && b.len() == 0 {
        assert(a =~= b);
    }
}

proof fn lemma_chars_lt_skip(a: Seq<char>, b: Seq<char>, i: int)
    requires
        0 <= i <= a.len(),
        i <= b.len(),
        a.take(i) == b.take(i),
    ensures
        chars_lt(a, b) == chars_lt(a.skip(i), b.skip(i)),
    decreases i,
{
    if i > 0 {
        assert(a[0] == a.take(i)[0]);
        assert(b[0] == b.take(i)[0]);
        assert(a.drop_first().take(i - 1) =~= a.take(i).drop_first());
        assert(b.drop_first().take(i - 1) =~= b.take(i).drop_first());
        lemma_chars_lt_skip(a.drop_first(), b.drop_first(), i - 1);
        assert(a.drop_first().skip(i - 1) =~= a.skip(i));
        assert(b.drop_first().skip(i - 1) =~= b.skip(i));
    } else {
        assert(a.skip(0) =~= a);
        assert(b.skip(0) =~= b);
    }
}

/// Whether `a` sorts strictly before `b`.
pub fn str_lt(a: &str, b: &str) -> (r: bool)
    ensures
        r == chars_lt(a@, b@),
{
    let x = chars_of(a);
    let y = chars_of(b);
    let mut i: usize = 0;
    while i < x.len() && i < y.len() && x[i] == y[i]
        invariant
            x@ == a@,
            y@ == b@,
            i <= x.len(),
            i <= y.len(),
            x@.take(i as int) == y@.take(i as int),
        decreases x.len() - i,
    {
        assert(x@.take(i + 1) =~= x@.take(i as int).push(x@[i as int]));
        assert(y@.take(i + 1) =~= y@.take(i as int).push(y@[i as int]));
        i = i + 1;
    }
    proof {
        lemma_chars_lt_skip(x@, y@, i as int);
    }
    if i == y.len() {
        false
    } else if i == x.len() {
        true
    } else {
        x[i] < y[i]
    }
}

// ---------------------------------------------------------------------------
// Root groups
// ---------------------------------------------------------------------------

/// How many times `r` occurs in `roots`.
pub open spec fn occurrences(roots: Seq<Seq<char>>, r: Seq<char>) -> nat
    decreases roots.len(),
{
    if roots.len() == 0 {
        0
    } else {
        occurrences(roots.drop_last(), r) + if roots.last() == r {
            1nat
        } else {
            0nat
        }
    }
}

/// Group `a` is listed before group `b`: more files first, then by name.
pub open spec fn group_before(a: (Seq<char>, nat), b: (Seq<char>, nat)) -> bool {
    a.1 > b.1 || (a.1 == b.1 && chars_lt(a.0, b.0))
}

/// `g` lists every root of `roots` once with its number of occurrences,
/// largest groups first and equal groups by name.
pub open spec fn root_groups(roots: Seq<Seq<char>>, g: Seq<(Seq<char>, nat)>) -> bool {
    &&& forall|k: int| 0 <= k < g.len() ==> (#[trigger] g[k]).1 == occurrences(roots, g[k].0)
    &&& forall|k: int| 0 <= k < g.len() ==> (#[trigger] g[k]).1 >= 1
    &&& forall|i: int|
        0 <= i < roots.len() ==> exists|k: int| 0 <= k < g.len() && (#[trigger] g[k]).0 == #[trigger] roots[i]
    &&& forall|i: int, j: int| 0 <= i < j < g.len() ==> group_before(#[trigger] g[i], #[trigger] g[j])
}

/// The roots of a list of files.
pub open spec fn roots_of(files: Seq<Seq<char>>) -> Seq<Seq<char>> {
    files.map_values(|f: Seq<char>| root_of(f))
}

/// One group as shown: "src/ (3)".
pub open spec fn group_text(g: (Seq<char>, nat)) -> Seq<char> {
    g.0 + " ("@ + decimal(g.1) + ")"@
}

/// At most `limit` groups, as shown, joined with ", ".
pub open spec fn groups_text(g: Seq<(Seq<char>, nat)>, limit: nat) -> Seq<char> {
    let shown = if limit < g.len() {
        g.take(limit as int)
    } else {
        g
    };
    join(shown.map_values(|x: (Seq<char>, nat)| group_text(x)), ", "@)
}

/// The summary of where files live: "src/ (2), docs/ (1), root files (1)".
pub open spec fn roots_summary(files: Seq<Seq<char>>, limit: nat, text: Seq<char>) -> bool {
    exists|g: Seq<(Seq<char>, nat)>| root_groups(roots_of(files), g) && text == groups_text(g, limit)
}

proof fn lemma_group_before_transitive(a: (Seq<char>, nat), b: (Seq<char>, nat), c: (Seq<char>, nat))
    requires
        group_before(a, b),
        group_before(b, c),
    ensures
        group_before(a, c),
{
    if a.1 == b.1 && b.1 == c.1 {
        lemma_chars_lt_transitive(a.0, b.0, c.0);
    }
}

proof fn lemma_group_before_total(a: (Seq<char>, nat), b: (Seq<char>, nat))
    requires
        a.0 != b.0,
    ensures
        group_before(a, b) || group_before(b, a),
{
    if a.1 == b.1 {
        lemma_chars_lt_total(a.0, b.0);
    }
}

proof fn lemma_group_before_irreflexive(a: (Seq<char>, nat))
    ensures
        !group_before(a, a),
{
    lemma_chars_lt_irreflexive(a.0);
}

/// The group of the `k`-th distinct root.
spec fn group_at(names: Seq<String>, counts: Seq<usize>, k: int) -> (Seq<char>, nat) {
    (names[k]@, counts[k] as nat)
}

/// Counts the distinct roots, in order of first appearance.
fn count_roots(roots: &Vec<String>) -> (r: (Vec<String>, Vec<usize>))
    ensures
        r.0.len() == r.1.len(),
        forall|a: int, b: int| 0 <= a < b < r.0.len() ==> r.0@[a]@ != r.0@[b]@,
        forall|k: int|
            0 <= k < r.0.len() ==> r.1@[k] == occurrences(views(roots@), (#[trigger] r.0@[k])@),
        forall|k: int| 0 <= k < r.0.len() ==> #[trigger] r.1@[k] >= 1,
        forall|i: int|
            0 <= i < roots.len() ==> exists|k: int| 0 <= k < r.0.len() && (#[trigger] r.0@[k])@ == #[trigger] views(roots@)[i],
{
    let ghost rv = views(roots@);
    let mut names: Vec<String> = Vec::new();
    let mut counts: Vec<usize> = Vec::new();
    let mut i: usize = 0;
    while i < roots.len()
        invariant
            rv == views(roots@),
            i <= roots.len(),
            names.len() == counts.len(),
            forall|a: int, b: int| 0 <= a < b < names.len() ==> names@[a]@ != names@[b]@,
            forall|k: int|
                0 <= k < names.len() ==> counts@[k] == occurrences(rv.take(i as int), (#[trigger] names@[k])@),
            forall|k: int| 0 <= k < names.len() ==> #[trigger] counts@[k] >= 1,
            forall|k: int| 0 <= k < names.len() ==> #[trigger] counts@[k] <= i,
            forall|j: int|
                0 <= j < i ==> exists|k: int| 0 <= k < names.len() && (#[trigger] names@[k])@ == #[trigger] rv[j],
        decreases roots.len() - i,
    {
        let root = roots[i].as_str();
        assert(rv.take(i + 1).drop_last() =~= rv.take(i as int));
        assert(rv.take(i + 1).last() == root@);
        let mut k: usize = 0;
        while k < names.len() && !str_equals(names[k].as_str(), root)
            invariant
                k <= names.len(),
                forall|q: int| 0 <= q < k ==> names@[q]@ != root@,
            decreases names.len() - k,
        {
            k = k + 1;
        }
        let ghost old_names = names@;
        let ghost old_counts = counts@;
        if k < names.len() {
            let c = counts[k];
            counts.set(k, c + 1);
            assert forall|q: int| 0 <= q < names.len() implies counts@[q] == occurrences(
                rv.take(i + 1),
                (#[trigger] names@[q])@,
            ) by {
                if q != k {
                    assert(names@[q]@ != names@[k as int]@);
                }
            }
        } else {
            names.push(String::from_str(root));
            counts.push(1);
            assert(occurrences(rv.take(i as int), root@) == 0) by {
                if rv.take(i as int).contains(root@) {
                    let j = choose|j: int| 0 <= j < i && rv.take(i as int)[j] == root@;
                    assert(rv[j] == root@);
                    let q = choose|q: int| 0 <= q < old_names.len() && (#[trigger] old_names[q])@ == rv[j];
                }
                lemma_occurrences_absent(rv.take(i as int), root@);
            }
            assert forall|q: int| 0 <= q < names.len() implies counts@[q] == occurrences(
                rv.take(i + 1),
                (#[trigger] names@[q])@,
            ) by {
                if q < old_names.len() {
                    assert(names@[q] == old_names[q]);
                }
            }
        }
        assert forall|j: int| 0 <= j < i + 1 implies exists|q: int|
            0 <= q < names.len() && (#[trigger] names@[q])@ == #[trigger] rv[j] by {
            if j < i {
                let q = choose|q: int| 0 <= q < old_names.len() && (#[trigger] old_names[q])@ == rv[j];
                assert(names@[q] == old_names[q]);
            } else {
                assert(names@[k as int]@ == rv[j]);
            }
        }
        i = i + 1;
    }
    assert(rv.take(roots.len() as int) =~= rv);
    (names, counts)
}

proof fn lemma_occurrences_absent(roots: Seq<Seq<char>>, r: Seq<char>)
    requires
        !roots.contains(r),
    ensures
        occurrences(roots, r) == 0,
    decreases roots.len(),
{
    if roots.len() > 0 {
        assert(!roots.drop_last().contains(r)) by {
            if roots.drop_last().contains(r) {
                let j = choose|j: int| 0 <= j < roots.drop_last().len() && roots.drop_last()[j] == r;
                assert(roots[j] == r);
            }
        }
        assert(roots.last() != r) by {
            assert(roots[roots.len() - 1] == roots.last());
        }
        lemma_occurrences_absent(roots.drop_last(), r);
    }
}

/// Whether the `x`-th group is listed before the `y`-th.
fn group_is_before(names: &Vec<String>, counts: &Vec<usize>, x: usize, y: usize) -> (r: bool)
    requires
        names.len() == counts.len(),
        x < names.len(),
        y < names.len(),
    ensures
        r == group_before(group_at(names@, counts@, x as int), group_at(names@, counts@, y as int)),
{
    counts[x] > counts[y] || (counts[x] == counts[y] && str_lt(names[x].as_str(), names[y].as_str()))
}

/// `order` lists index `k`.
pub open spec fn lists_index(order: Seq<usize>, k: int) -> bool {
    exists|j: int| 0 <= j < order.len() && order[j] as int == k
}

/// The order in which groups are listed: indices of `names`, largest group
/// first, equal groups by name.
fn sort_groups(names: &Vec<String>, counts: &Vec<usize>) -> (order: Vec<usize>)
    requires
        names.len() == counts.len(),
        forall|a: int, b: int| 0 <= a < b < names.len() ==> names@[a]@ != names@[b]@,
    ensures
        order.len() == names.len(),
        forall|a: int| 0 <= a < order.len() ==> #[trigger] order@[a] < names.len(),
        forall|k: int| 0 <= k < names.len() ==> #[trigger] lists_index(order@, k),
        forall|a: int, b: int|
            0 <= a < b < order.len() ==> group_before(
                group_at(names@, counts@, #[trigger] order@[a] as int),
                group_at(names@, counts@, #[trigger] order@[b] as int),
            ),
{
    let ghost gs = |k: int| group_at(names@, counts@, k);
    let mut order: Vec<usize> = Vec::new();
    let mut idx: usize = 0;
    while idx < names.len()
        invariant
            names.len() == counts.len(),
            forall|a: int, b: int| 0 <= a < b < names.len() ==> names@[a]@ != names@[b]@,
            idx <= names.len(),
            order.len() == idx,
            forall|a: int| 0 <= a < order.len() ==> #[trigger] order@[a] < idx,
            forall|k: int| 0 <= k < idx ==> #[trigger] lists_index(order@, k),
            forall|a: int, b: int|
                0 <= a < b < order.len() ==> group_before(
                    group_at(names@, counts@, #[trigger] order@[a] as int),
                    group_at(names@, counts@, #[trigger] order@[b] as int),
                ),
        decreases names.len() - idx,
    {
        let mut p: usize = 0;
        while p < order.len() && !group_is_before(names, counts, idx, order[p])
            invariant
                names.len() == counts.len(),
                forall|a: int, b: int| 0 <= a < b < names.len() ==> names@[a]@ != names@[b]@,
                idx < names.len(),
                p <= order.len(),
                forall|a: int| 0 <= a < order.len() ==> #[trigger] order@[a] < idx,
                forall|q: int|
                    0 <= q < p ==> group_before(
                        group_at(names@, counts@, #[trigger] order@[q] as int),
                        group_at(names@, counts@, idx as int),
                    ),
            decreases order.len() - p,
        {
            let o = order[p];
            proof {
                assert(names@[o as int]@ != names@[idx as int]@);
                lemma_group_before_total(
                    group_at(names@, counts@, o as int),
                    group_at(names@, counts@, idx as int),
                );
            }
            p = p + 1;
        }
        let ghost old_order = order@;
        order.insert(p, idx);
        proof {
            assert forall|a: int, b: int| 0 <= a < b < order.len() implies group_before(
                group_at(names@, counts@, #[trigger] order@[a] as int),
                group_at(names@, counts@, #[trigger] order@[b] as int),
            ) by {
                let ga = group_at(names@, counts@, order@[a] as int);
                let gb = group_at(names@, counts@, order@[b] as int);
                let gi = group_at(names@, counts@, idx as int);
                if b < p {
                    assert(order@[a] == old_order[a] && order@[b] == old_order[b]);
                } else if b == p {
                    assert(order@[a] == old_order[a]);
                } else if a == p {
                    assert(order@[b] == old_order[b - 1]);
                    if b - 1 == p {
                    } else {
                        assert(group_before(
                            group_at(names@, counts@, old_order[p as int] as int),
                            group_at(names@, counts@, old_order[b - 1] as int),
                        ));
                        lemma_group_before_transitive(
                            gi,
                            group_at(names@, counts@, old_order[p as int] as int),
                            gb,
                        );
                    }
                } else if a < p {
                    assert(order@[a] == old_order[a] && order@[b] == old_order[b - 1]);
                } else {
                    assert(order@[a] == old_order[a - 1] && order@[b] == old_order[b - 1]);
                }
            }
            assert forall|k: int| 0 <= k < idx + 1 implies #[trigger] lists_index(order@, k) by {
                if k < idx {
                    assert(lists_index(old_order, k));
                    let j = choose|j: int| 0 <= j < old_order.len() && old_order[j] as int == k;
                    if j < p {
                        assert(order@[j] == k as usize);
                    } else {
                        assert(order@[j + 1] == k as usize);
                    }
                } else {
                    assert(order@[p as int] == idx);
                }
            }
            assert forall|a: int| 0 <= a < order.len() implies #[trigger] order@[a] < idx + 1 by {
                if a < p {
                    assert(order@[a] == old_order[a]);
                } else if a > p {
                    assert(order@[a] == old_order[a - 1]);
                }
            }
        }
        idx = idx + 1;
    }
    order
}

/// Summarises where files live: the `limit` largest top-level groups with
/// their sizes, e.g. "src/ (2), docs/ (1), root files (1)".
pub fn summarize_roots(files: &[String], limit: usize) -> (r: String)
    ensures
        roots_summary(views(files@), limit as nat, r@),
{
    let ghost fv = views(files@);
    let mut roots: Vec<String> = Vec::new();
    let mut i: usize = 0;
    while i < files.len()
        invariant
            fv == views(files@),
            i <= files.len(),
            roots.len() == i,
            views(roots@) == roots_of(fv.take(i as int)),
        decreases files.len() - i,
    {
        let ghost before = roots@;
        roots.push(file_root(files[i].as_str()));
        assert(fv[i as int] == files@[i as int]@);
        i = i + 1;
        assert forall|k: int| 0 <= k < i implies views(roots@)[k] == roots_of(fv.take(i as int))[k] by {
            if k < i - 1 {
                assert(roots@[k] == before[k]);
                assert(views(before)[k] == roots_of(fv.take(i - 1))[k]);
            }
        }
        assert(views(roots@) =~= roots_of(fv.take(i as int)));
    }
    assert(fv.take(files.len() as int) =~= fv);
    let (names, counts) = count_roots(&roots);
    let order = sort_groups(&names, &counts);
    let ghost g = order@.map_values(|k: usize| group_at(names@, counts@, k as int));
    let shown = if limit < order.len() {
        limit
    } else {
        order.len()
    };
    let mut parts: Vec<String> = Vec::new();
    let mut j: usize = 0;
    while j < shown
        invariant
            shown <= order.len(),
            names.len() == counts.len(),
            order.len() == names.len(),
            forall|a: int| 0 <= a < order.len() ==> #[trigger] order@[a] < names.len(),
            g == order@.map_values(|k: usize| group_at(names@, counts@, k as int)),
            j <= shown,
            parts.len() == j,
            views(parts@) == g.take(j as int).map_values(|x: (Seq<char>, nat)| group_text(x)),
        decreases shown - j,
    {
        let k = order[j];
        let mut t = concat2(names[k].as_str(), " (");
        let n = decimal_string(counts[k]);
        t.append(n.as_str());
        t.append(")");
        assert(g[j as int] == group_at(names@, counts@, k as int));
        assert(t@ == group_text(g[j as int]));
        let ghost before = parts@;
        parts.push(t);
        j = j + 1;
        assert forall|q: int| 0 <= q < j implies views(parts@)[q] == g.take(j as int).map_values(
            |x: (Seq<char>, nat)| group_text(x),
        )[q] by {
            if q < j - 1 {
                assert(parts@[q] == before[q]);
                assert(views(before)[q] == g.take(j - 1).map_values(|x: (Seq<char>, nat)| group_text(x))[q]);
            }
        }
        assert(views(parts@) =~= g.take(j as int).map_values(|x: (Seq<char>, nat)| group_text(x)));
    }
    let sl = parts.as_slice();
    assert(sl@ == parts@);
    let r = join_strings(sl, ", ");
    proof {
        let rv = views(roots@);
        assert(rv == roots_of(fv));
        assert(root_groups(rv, g)) by {
            assert forall|k: int| 0 <= k < g.len() implies (#[trigger] g[k]).1 == occurrences(rv, g[k].0) && g[k].1 >= 1 by {
                let q = order@[k] as int;
                assert(g[k] == group_at(names@, counts@, q));
                assert(counts@[q] == occurrences(views(roots@), names@[q]@));
                assert(counts@[q] >= 1);
            }
            assert forall|a: int, b: int| 0 <= a < b < g.len() implies group_before(#[trigger] g[a], #[trigger] g[b]) by {
                assert(g[a] == group_at(names@, counts@, order@[a] as int));
                assert(g[b] == group_at(names@, counts@, order@[b] as int));
            }
            assert forall|i: int| 0 <= i < rv.len() implies exists|k: int|
                0 <= k < g.len() && (#[trigger] g[k]).0 == #[trigger] rv[i] by {
                let q = choose|q: int| 0 <= q < names.len() && (#[trigger] names@[q])@ == rv[i];
                assert(lists_index(order@, q));
                let k = choose|k: int| 0 <= k < order.len() && order@[k] as int == q;
                assert(g[k].0 == rv[i]);
            }
        }
        assert(g.len() == order.len());
        if limit < order.len() {
            assert(g.take(shown as int) =~= g.take(limit as int));
        } else {
            assert(g.take(shown as int) =~= g);
        }
        assert(r@ == groups_text(g, limit as nat));
        assert(root_groups(roots_of(fv), g) && r@ == groups_text(g, limit as nat));
    }
    r
}

/// Strictly ordered sequences with the same members are equal.
proof fn lemma_sorted_groups_unique(a: Seq<(Seq<char>, nat)>, b: Seq<(Seq<char>, nat)>)
    requires
        forall|i: int, j: int| 0 <= i < j < a.len() ==> group_before(#[trigger] a[i], #[trigger] a[j]),
        forall|i: int, j: int| 0 <= i < j < b.len() ==> group_before(#[trigger] b[i], #[trigger] b[j]),
        forall|x: (Seq<char>, nat)| a.contains(x) <==> b.contains(x),
    ensures
        a == b,
    decreases a.len(),
{
    if a.len() == 0 {
        if b.len() > 0 {
            assert(b.contains(b[0]));
        }
        assert(a =~= b);
    } else if b.len() == 0 {
        assert(a.contains(a[0]));
    } else {
        assert(a.contains(a[0]));
        let k = choose|k: int| 0 <= k < b.len() && b[k] == a[0];
        assert(b.contains(b[0]));
        let j = choose|j: int| 0 <= j < a.len() && a[j] == b[0];
        if k > 0 {
            assert(group_before(b[0], b[k]));
            if j > 0 {
                assert(group_before(a[0], a[j]));
                lemma_group_before_transitive(a[0], b[0], a[0]);
            }
            lemma_group_before_irreflexive(a[0]);
        }
        assert(a[0] == b[0]);
        let a1 = a.drop_first();
        let b1 = b.drop_first();
        assert forall|x: (Seq<char>, nat)| a1.contains(x) <==> b1.contains(x) by {
            if a1.contains(x) {
                let i = choose|i: int| 0 <= i < a1.len() && a1[i] == x;
                assert(a[i + 1] == x);
                assert(a.contains(x));
                let q = choose|q: int| 0 <= q < b.len() && b[q] == x;
                if q == 0 {
                    assert(group_before(a[0], a[i + 1]));
                    lemma_group_before_irreflexive(a[0]);
                }
                assert(b1[q - 1] == x);
            }
            if b1.contains(x) {
                let i = choose|i: int| 0 <= i < b1.len() && b1[i] == x;
                assert(b[i + 1] == x);
                assert(b.contains(x));
                let q = choose|q: int| 0 <= q < a.len() && a[q] == x;
                if q == 0 {
                    assert(group_before(b[0], b[i + 1]));
                    lemma_group_before_irreflexive(b[0]);
                }
                assert(a1[q - 1] == x);
            }
        }
        assert forall|i: int, j: int| 0 <= i < j < a1.len() implies group_before(#[trigger] a1[i], #[trigger] a1[j]) by {
            assert(a1[i] == a[i + 1] && a1[j] == a[j + 1]);
        }
        assert forall|i: int, j: int| 0 <= i < j < b1.len() implies group_before(#[trigger] b1[i], #[trigger] b1[j]) by {
            assert(b1[i] == b[i + 1] && b1[j] == b[j + 1]);
        }
        lemma_sorted_groups_unique(a1, b1);
        assert(a =~= seq![a[0]] + a1);
        assert(b =~= seq![b[0]] + b1);
    }
}

/// The grouping of a list of roots is unique: two listings that both give
/// every root once with its count, in the shown order, are the same.
pub proof fn law_root_groups_unique(
    roots: Seq<Seq<char>>,
    g1: Seq<(Seq<char>, nat)>,
    g2: Seq<(Seq<char>, nat)>,
)
    requires
        root_groups(roots, g1),
        root_groups(roots, g2),
    ensures
        g1 == g2,
{
    assert forall|x: (Seq<char>, nat)| g1.contains(x) implies g2.contains(x) by {
        lemma_member_of_groups(roots, g1, g2, x);
    }
    assert forall|x: (Seq<char>, nat)| g2.contains(x) implies g1.contains(x) by {
        lemma_member_of_groups(roots, g2, g1, x);
    }
    lemma_sorted_groups_unique(g1, g2);
}

proof fn lemma_occurrences_present(roots: Seq<Seq<char>>, r: Seq<char>)
    requires
        occurrences(roots, r) >= 1,
    ensures
        exists|i: int| 0 <= i < roots.len() && roots[i] == r,
    decreases roots.len(),
{
    if roots.last() == r {
        assert(roots[roots.len() - 1] == r);
    } else {
        lemma_occurrences_present(roots.drop_last(), r);
        let i = choose|i: int| 0 <= i < roots.drop_last().len() && roots.drop_last()[i] == r;
        assert(roots[i] == r);
    }
}

proof fn lemma_member_of_groups(
    roots: Seq<Seq<char>>,
    g1: Seq<(Seq<char>, nat)>,
    g2: Seq<(Seq<char>, nat)>,
    x: (Seq<char>, nat),
)
    requires
        root_groups(roots, g1),
        root_groups(roots, g2),
        g1.contains(x),
    ensures
        g2.contains(x),
{
    let k = choose|k: int| 0 <= k < g1.len() && g1[k] == x;
    assert(g1[k].1 >= 1);
    lemma_occurrences_present(roots, x.0);
    let i = choose|i: int| 0 <= i < roots.len() && roots[i] == x.0;
    let q = choose|q: int| 0 <= q < g2.len() && (#[trigger] g2[q]).0 == roots[i];
    assert(g2[q].1 == occurrences(roots, x.0));
    assert(g2[q] == x);
}

/// The root summary of a file list is determined by the files and the limit.
pub proof fn law_roots_summary_unique(files: Seq<Seq<char>>, limit: nat, t1: Seq<char>, t2: Seq<char>)
    requires
        roots_summary(files, limit, t1),
        roots_summary(files, limit, t2),
    ensures
        t1 == t2,
{
    let g1 = choose|g: Seq<(Seq<char>, nat)>| root_groups(roots_of(files), g) && t1 == groups_text(g, limit);
    let g2 = choose|g: Seq<(Seq<char>, nat)>| root_groups(roots_of(files), g) && t2 == groups_text(g, limit);
    law_root_groups_unique(roots_of(files), g1, g2);
}

/// The number of files a list of groups counts.
pub open spec fn group_total(g: Seq<(Seq<char>, nat)>) -> nat
    decreases g.len(),
{
    if g.len() == 0 {
        0
    } else {
        group_total(g.drop_last()) + g.last().1
    }
}

/// The occurrences in `roots` of each group's root, added up.
spec fn occurrences_total(roots: Seq<Seq<char>>, g: Seq<(Seq<char>, nat)>) -> nat
    decreases g.len(),
{
    if g.len() == 0 {
        0
    } else {
        occurrences_total(roots, g.drop_last()) + occurrences(roots, g.last().0)
    }
}

/// How many groups have root `r`.
spec fn hits(g: Seq<(Seq<char>, nat)>, r: Seq<char>) -> nat
    decreases g.len(),
{
    if g.len() == 0 {
        0
    } else {
        hits(g.drop_last(), r) + if g.last().0 == r {
            1nat
        } else {
            0nat
        }
    }
}

/// No two groups share a root.
spec fn distinct_roots(g: Seq<(Seq<char>, nat)>) -> bool {
    forall|i: int, j: int| 0 <= i < j < g.len() ==> (#[trigger] g[i]).0 != (#[trigger] g[j]).0
}

proof fn lemma_occurrences_total_empty(roots: Seq<Seq<char>>, g: Seq<(Seq<char>, nat)>)
    requires
        roots.len() == 0,
    ensures
        occurrences_total(roots, g) == 0,
    decreases g.len(),
{
    if g.len() > 0 {
        lemma_occurrences_total_empty(roots, g.drop_last());
    }
}

proof fn lemma_occurrences_total_step(roots: Seq<Seq<char>>, g: Seq<(Seq<char>, nat)>)
    requires
        roots.len() > 0,
    ensures
        occurrences_total(roots, g) == occurrences_total(roots.drop_last(), g) + hits(
            g,
            roots.last(),
        ),
    decreases g.len(),
{
    if g.len() > 0 {
        lemma_occurrences_total_step(roots, g.drop_last());
    }
}

proof fn lemma_hits_absent(g: Seq<(Seq<char>, nat)>, r: Seq<char>)
    requires
        forall|k: int| 0 <= k < g.len() ==> (#[trigger] g[k]).0 != r,
    ensures
        hits(g, r) == 0,
    decreases g.len(),
{
    if g.len() > 0 {
        assert(g[g.len() - 1].0 != r);
        lemma_hits_absent(g.drop_last(), r);
    }
}

proof fn lemma_hits_once(g: Seq<(Seq<char>, nat)>, r: Seq<char>, k: int)
    requires
        distinct_roots(g),
        0 <= k < g.len(),
        g[k].0 == r,
    ensures
        hits(g, r) == 1,
    decreases g.len(),
{
    let last = g.len() - 1;
    if k == last {
        assert forall|j: int| 0 <= j < g.drop_last().len() implies (#[trigger] g.drop_last()[j]).0
            != r by {
            assert(g[j].0 != g[last].0);
        }
        lemma_hits_absent(g.drop_last(), r);
    } else {
        assert(g[k].0 != g[last].0);
        assert(distinct_roots(g.drop_last())) by {
            assert forall|i: int, j: int| 0 <= i < j < g.drop_last().len() implies (
            #[trigger] g.drop_last()[i]).0 != (#[trigger] g.drop_last()[j]).0 by {
                assert(g[i].0 != g[j].0);
            }
        }
        lemma_hits_once(g.drop_last(), r, k);
    }
}

/// Some group has root `r`.
spec fn has_group(g: Seq<(Seq<char>, nat)>, r: Seq<char>) -> bool {
    exists|k: int| 0 <= k < g.len() && (#[trigger] g[k]).0 == r
}

proof fn lemma_occurrences_total_counts_all(roots: Seq<Seq<char>>, g: Seq<(Seq<char>, nat)>)
    requires
        distinct_roots(g),
        forall|i: int| 0 <= i < roots.len() ==> has_group(g, #[trigger] roots[i]),
    ensures
        occurrences_total(roots, g) == roots.len(),
    decreases roots.len(),
{
    if roots.len() == 0 {
        lemma_occurrences_total_empty(roots, g);
    } else {
        let rest = roots.drop_last();
        assert forall|i: int| 0 <= i < rest.len() implies has_group(g, #[trigger] rest[i]) by {
            assert(rest[i] == roots[i]);
        }
        lemma_occurrences_total_counts_all(rest, g);
        lemma_occurrences_total_step(roots, g);
        let last = roots.len() - 1;
        assert(has_group(g, roots[last]));
        let k = choose|k: int| 0 <= k < g.len() && (#[trigger] g[k]).0 == roots[last];
        lemma_hits_once(g, roots.last(), k);
    }
}

proof fn lemma_group_total_is_occurrences(roots: Seq<Seq<char>>, g: Seq<(Seq<char>, nat)>)
    requires
        forall|k: int| 0 <= k < g.len() ==> (#[trigger] g[k]).1 == occurrences(roots, g[k].0),
    ensures
        group_total(g) == occurrences_total(roots, g),
    decreases g.len(),
{
    if g.len() > 0 {
        let rest = g.drop_last();
        assert forall|k: int| 0 <= k < rest.len() implies (#[trigger] rest[k]).1 == occurrences(
            roots,
            rest[k].0,
        ) by {
            assert(rest[k] == g[k]);
        }
        lemma_group_total_is_occurrences(roots, rest);
        assert(g[g.len() - 1].1 == occurrences(roots, g[g.len() - 1].0));
    }
}

/// Every file is counted in exactly one group: the counts of a grouping of
/// the roots add up to the number of roots.
pub proof fn law_root_groups_count_every_file(roots: Seq<Seq<char>>, g: Seq<(Seq<char>, nat)>)
    requires
        root_groups(roots, g),
    ensures
        group_total(g) == roots.len(),
{
    assert(distinct_roots(g)) by {
        assert forall|i: int, j: int| 0 <= i < j < g.len() implies (#[trigger] g[i]).0 != (
        #[trigger] g[j]).0 by {
            if g[i].0 == g[j].0 {
                assert(g[i].1 == occurrences(roots, g[i].0));
                assert(g[j].1 == occurrences(roots, g[j].0));
                assert(g[i] == g[j]);
                assert(group_before(g[i], g[j]));
                lemma_group_before_irreflexive(g[i]);
            }
        }
    }
    assert forall|i: int| 0 <= i < roots.len() implies has_group(g, #[trigger] roots[i]) by {
        let k = choose|k: int| 0 <= k < g.len() && (#[trigger] g[k]).0 == roots[i];
        assert(g[k].0 == roots[i]);
    }
    lemma_group_total_is_occurrences(roots, g);
    lemma_occurrences_total_counts_all(roots, g);
}

// ---------------------------------------------------------------------------
// Laws of file roots
// ---------------------------------------------------------------------------

proof fn lemma_segment_scan_no_slash(a: Seq<char>)
    requires
        forall|i: int| 0 <= i < a.len() ==> a[i] != '/',
    ensures
        segment_scan(a) == (Seq::<Seq<char>>::empty(), a),
    decreases a.len(),
{
    if a.len() > 0 {
        lemma_segment_scan_no_slash(a.drop_last());
        assert(a.drop_last().push(a.last()) =~= a);
    }
}

proof fn lemma_segment_scan_after_closed(p: Seq<char>, q: Seq<char>)
    requires
        segment_scan(p).1.len() == 0,
    ensures
        segment_scan(p + q) == (segment_scan(p).0 + segment_scan(q).0, segment_scan(q).1),
    decreases q.len(),
{
    if q.len() == 0 {
        assert(p + q =~= p);
        assert(segment_scan(p).0 + segment_scan(q).0 =~= segment_scan(p).0);
    } else {
        let q1 = q.drop_last();
        lemma_segment_scan_after_closed(p, q1);
        assert((p + q).drop_last() =~= p + q1);
        assert((p + q).last() == q.last());
        let (d, _) = segment_scan(p);
        let (d1, c1) = segment_scan(q1);
        assert((d + d1).push(c1) =~= d + d1.push(c1));
    }
}

/// The segments of `a/b`, for `a` without a slash: `a`, then those of `b`.
proof fn lemma_segments_of_first(a: Seq<char>, b: Seq<char>)
    requires
        forall|i: int| 0 <= i < a.len() ==> a[i] != '/',
    ensures
        segments(a + seq!['/'] + b) == seq![a] + segments(b),
{
    lemma_segment_scan_no_slash(a);
    let p = a + seq!['/'];
    assert(p.drop_last() =~= a);
    assert(segment_scan(p) == (seq![a], Seq::<char>::empty()));
    lemma_segment_scan_after_closed(p, b);
    assert(seq![a] + segment_scan(b).0.push(segment_scan(b).1) =~= (seq![a]
        + segment_scan(b).0).push(segment_scan(b).1));
}

proof fn lemma_normal_segments_prepend(a: Seq<char>, rest: Seq<Seq<char>>)
    requires
        is_normal_segment(a),
    ensures
        normal_segments(seq![a] + rest) == seq![a] + normal_segments(rest),
    decreases rest.len(),
{
    if rest.len() == 0 {
        assert(seq![a] + rest =~= seq![a]);
        assert(seq![a].drop_last() =~= Seq::<Seq<char>>::empty());
        assert(seq![a].last() == a);
        assert(normal_segments(Seq::<Seq<char>>::empty()) == Seq::<Seq<char>>::empty());
        assert(normal_segments(seq![a]) == normal_segments(seq![a].drop_last()).push(a));
        assert(normal_segments(rest) == Seq::<Seq<char>>::empty());
        assert(seq![a] + normal_segments(rest) =~= Seq::<Seq<char>>::empty().push(a));
    } else {
        lemma_normal_segments_prepend(a, rest.drop_last());
        assert((seq![a] + rest).drop_last() =~= seq![a] + rest.drop_last());
        assert((seq![a] + rest).last() == rest.last());
        if is_normal_segment(rest.last()) {
            assert((seq![a] + normal_segments(rest.drop_last())).push(rest.last()) =~= seq![a]
                + normal_segments(rest.drop_last()).push(rest.last()));
        }
    }
}

/// A relative file `a/b`, whose first segment `a` names a directory (not
/// empty, not `.`, no slash), belongs to the group `a/` when `b` names at
/// least one more component, and to the root files otherwise: how deep
/// the file lies below `a` does not matter.
pub proof fn law_root_is_first_directory(a: Seq<char>, b: Seq<char>)
    requires
        a.len() > 0,
        a != "."@,
        forall|i: int| 0 <= i < a.len() ==> a[i] != '/',
    ensures
        root_of(a + seq!['/'] + b) == if normal_segments(segments(b)).len() > 0 {
            a + "/"@
        } else {
            "root files"@
        },
{
    let p = a + seq!['/'] + b;
    lemma_segments_of_first(a, b);
    assert(p[0] == a[0]);
    let segs = segments(p);
    assert(segs[0] == a);
    lemma_normal_segments_prepend(a, segments(b));
    assert(path_components(p) == seq![a] + normal_segments(segments(b)));
    assert(path_components(p)[0] == a);
}

/// Files fall in the same group whenever their paths share their first
/// component and each has another one.
pub proof fn law_same_first_component_same_root(f: Seq<char>, g: Seq<char>)
    requires
        path_components(f).len() >= 2,
        path_components(g).len() >= 2,
        path_components(f)[0] == path_components(g)[0],
    ensures
        root_of(f) == root_of(g),
{
}

} // verus!
