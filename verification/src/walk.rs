//! The finder's candidates: the files of a walk, each with the path it opens,
//! its name relative to the walk root, and how recently it was modified.
//!
//! The walk itself (gitignore-aware, pruning heavy build directories) reads
//! the file system and lives in the front-end program; it hands its entries
//! to [`sort_candidates`], so the finder's empty-query order is
//! most-recently-edited first.

use vstd::prelude::*;

use crate::text::chars_of;

verus! {

/// One file the finder can open. `display` is relative to the walk root.
pub struct Candidate {
    pub path: String,
    pub display: String,
    /// Seconds since the epoch; higher is more recently modified.
    pub mtime: i64,
}

} // verus!

verus! {

/// Whether `a` sorts before `b` in code-point order (`str`'s order: UTF-8
/// keeps the order of code points).
pub open spec fn text_less(a: Seq<char>, b: Seq<char>) -> bool
    decreases a.len(),
{
    if a.len() == 0 {
        b.len() > 0
    } else if b.len() == 0 {
        false
    } else if a[0] != b[0] {
        (a[0] as int) < (b[0] as int)
    } else {
        text_less(a.drop_first(), b.drop_first())
    }
}

/// Code-point order is a strict total order.
pub proof fn lemma_text_less_order(a: Seq<char>, b: Seq<char>, c: Seq<char>)
    ensures
        !text_less(a, a),
        text_less(a, b) ==> !text_less(b, a),
        a != b ==> text_less(a, b) || text_less(b, a),
        text_less(a, b) && text_less(b, c) ==> text_less(a, c),
    decreases a.len(),
{
    if a.len() == 0 && b.len() == 0 {
        assert(a =~= b);
    }
    if a.len() > 0 && b.len() > 0 && a[0] != b[0] {
        assert((a[0] as int) != (b[0] as int));
    }
    if a.len() > 0 && b.len() > 0 && c.len() > 0 {
        lemma_text_less_order(a.drop_first(), b.drop_first(), c.drop_first());
        if a != b && a[0] == b[0] {
            assert(a =~= seq![a[0]] + a.drop_first());
            assert(b =~= seq![b[0]] + b.drop_first());
        }
    } else if a.len() > 0 && b.len() > 0 {
        lemma_text_less_order(a.drop_first(), b.drop_first(), c);
        if a != b && a[0] == b[0] {
            assert(a =~= seq![a[0]] + a.drop_first());
            assert(b =~= seq![b[0]] + b.drop_first());
        }
    } else if a.len() > 0 {
        lemma_text_less_order(a.drop_first(), b, c);
    }
}

/// The walk's order on `(mtime, name, index)`: the most recently modified
/// file first, then by name, then in walk order.
pub open spec fn walk_before(v: Seq<Candidate>, i: int, j: int) -> bool {
    ||| v[i].mtime > v[j].mtime
    ||| v[i].mtime == v[j].mtime && text_less(v[i].display@, v[j].display@)
    ||| v[i].mtime == v[j].mtime && v[i].display@ == v[j].display@ && i < j
}

/// `order` is a permutation of the indices of `v` in the walk's order.
pub open spec fn walk_order(order: Seq<usize>, v: Seq<Candidate>) -> bool {
    &&& order.len() == v.len()
    &&& forall|k: int| 0 <= k < order.len() ==> #[trigger] order[k] < v.len()
    &&& forall|j: int, k: int| 0 <= j < k < order.len() ==> walk_before(v, order[j] as int, order[k] as int)
}

/// Whether `a` sorts before `b` in code-point order.
pub fn text_before(a: &str, b: &str) -> (r: bool)
    ensures
        r == text_less(a@, b@),
{
    let x = chars_of(a);
    let y = chars_of(b);
    let mut i: usize = 0;
    assert(x@.skip(0) == x@ && y@.skip(0) == y@);
    while i < x.len() && i < y.len() && x[i] == y[i]
        invariant
            i <= x@.len(),
            i <= y@.len(),
            text_less(x@, y@) == text_less(x@.skip(i as int), y@.skip(i as int)),
        decreases x.len() - i,
    {
        assert(x@.skip(i as int).drop_first() == x@.skip(i + 1));
        assert(y@.skip(i as int).drop_first() == y@.skip(i + 1));
        i += 1;
    }
    if i == x.len() {
        i < y.len()
    } else if i == y.len() {
        false
    } else {
        assert(x@.skip(i as int)[0] == x@[i as int]);
        assert(y@.skip(i as int)[0] == y@[i as int]);
        x[i] < y[i]
    }
}

/// Candidates `v[i]` and `v[j]` in the walk's order.
fn walk_before_at(v: &Vec<Candidate>, i: usize, j: usize) -> (r: bool)
    requires
        i < v@.len(),
        j < v@.len(),
    ensures
        r == walk_before(v@, i as int, j as int),
{
    let a = &v[i];
    let b = &v[j];
    if a.mtime != b.mtime {
        return a.mtime > b.mtime;
    }
    if text_before(a.display.as_str(), b.display.as_str()) {
        return true;
    }
    if text_before(b.display.as_str(), a.display.as_str()) {
        proof {
            lemma_text_less_order(b.display@, a.display@, a.display@);
        }
        return false;
    }
    proof {
        lemma_text_less_order(a.display@, b.display@, a.display@);
    }
    i < j
}

/// A copy of a candidate.
fn copied(c: &Candidate) -> (r: Candidate)
    ensures
        r == *c,
{
    Candidate { path: c.path.clone(), display: c.display.clone(), mtime: c.mtime }
}

/// The walk's candidates in its order: the most recently modified first,
/// ties by name, then in the order they were found.
pub fn sort_candidates(v: Vec<Candidate>) -> (r: Vec<Candidate>)
    ensures
        exists|order: Seq<usize>| walk_order(order, v@) && r@ == order.map_values(|i: usize| v@[i as int]),
{
    let n = v.len();
    let mut order: Vec<usize> = Vec::new();
    let mut i: usize = 0;
    while i < n
        invariant
            n == v@.len(),
            i <= n,
            order@.len() == i,
            forall|k: int| 0 <= k < order@.len() ==> #[trigger] order@[k] < i,
            forall|j: int, k: int| 0 <= j < k < order@.len() ==> walk_before(v@, order@[j] as int, order@[k] as int),
        decreases n - i,
    {
        let ghost e = order@;
        let mut p: usize = 0;
        while p < order.len() && walk_before_at(&v, order[p], i)
            invariant
                order@ == e,
                n == v@.len(),
                i < n,
                p <= e.len(),
                forall|k: int| 0 <= k < e.len() ==> #[trigger] e[k] < i,
                forall|m: int| 0 <= m < p ==> walk_before(v@, (#[trigger] e[m]) as int, i as int),
            decreases e.len() - p,
        {
            p += 1;
        }
        proof {
            assert forall|m: int| p <= m < e.len() implies walk_before(v@, i as int, (#[trigger] e[m]) as int) by {
                let a = v@[e[p as int] as int].display@;
                let b = v@[e[m] as int].display@;
                let c = v@[i as int].display@;
                lemma_text_less_order(c, a, b);
                lemma_text_less_order(a, c, b);
                lemma_text_less_order(a, b, c);
                if m > p {
                    assert(walk_before(v@, e[p as int] as int, e[m] as int));
                }
            }
        }
        order.insert(p, i);
        proof {
            let f = order@;
            assert(f == e.insert(p as int, i));
            assert forall|k: int| 0 <= k < f.len() implies #[trigger] f[k] < i + 1 by {
                if k < p {
                    assert(f[k] == e[k]);
                } else if k > p {
                    assert(f[k] == e[k - 1]);
                }
            }
            assert forall|j: int, k: int| 0 <= j < k < f.len() implies walk_before(v@, f[j] as int, f[k] as int) by {
                if k < p {
                    assert(f[j] == e[j] && f[k] == e[k]);
                } else if k == p {
                    assert(f[j] == e[j]);
                } else if j < p {
                    assert(f[j] == e[j] && f[k] == e[k - 1]);
                    let a = v@[e[j] as int].display@;
                    let b = v@[i as int].display@;
                    let c = v@[e[k - 1] as int].display@;
                    lemma_text_less_order(a, b, c);
                } else if j == p {
                    assert(f[k] == e[k - 1]);
                } else {
                    assert(f[j] == e[j - 1] && f[k] == e[k - 1]);
                }
            }
        }
        i += 1;
    }
    let ghost ord = order@;
    let mut r: Vec<Candidate> = Vec::new();
    let mut k: usize = 0;
    while k < order.len()
        invariant
            ord == order@,
            n == v@.len(),
            ord.len() == n,
            forall|m: int| 0 <= m < ord.len() ==> #[trigger] ord[m] < n,
            k <= ord.len(),
            r@ == ord.take(k as int).map_values(|i: usize| v@[i as int]),
        decreases ord.len() - k,
    {
        let c = copied(&v[order[k]]);
        r.push(c);
        k += 1;
        assert(ord.take(k as int).map_values(|i: usize| v@[i as int]) == ord.take(k - 1).map_values(
            |i: usize| v@[i as int],
        ).push(v@[ord[k - 1] as int]));
    }
    assert(ord.take(ord.len() as int) == ord);
    assert(walk_order(ord, v@));
    r
}

} // verus!

verus! {

/// Directory names pruned from the walk even when no `.gitignore` covers
/// them (e.g. outside a repo): heavy build output and version control.
pub open spec fn pruned_dir(name: Seq<char>) -> bool {
    name == "target"@ || name == "node_modules"@ || name == ".git"@
}

/// Whether two texts are the same chars.
fn same_text(a: &str, b: &str) -> (r: bool)
    ensures
        r == (a@ == b@),
{
    let x = chars_of(a);
    let y = chars_of(b);
    if x.len() != y.len() {
        return false;
    }
    let mut i: usize = 0;
    while i < x.len()
        invariant
            x@ == a@,
            y@ == b@,
            x@.len() == y@.len(),
            i <= x@.len(),
            forall|k: int| 0 <= k < i ==> x@[k] == y@[k],
        decreases x.len() - i,
    {
        if x[i] != y[i] {
            return false;
        }
        i += 1;
    }
    assert(x@ == y@);
    true
}

/// Whether the walk keeps an entry (and, for a directory, descends into
/// it): files always pass; a directory passes unless its name is pruned.
pub fn keeps_entry(is_dir: bool, name: &str) -> (b: bool)
    ensures
        b == (!is_dir || !pruned_dir(name@)),
{
    if !is_dir {
        return true;
    }
    !(same_text(name, "target") || same_text(name, "node_modules") || same_text(name, ".git"))
}

} // verus!

verus! {

/// The repo root among a directory and its ancestors, given nearest first
/// with whether each holds `.git`: the index of the nearest that does.
pub fn nearest_repo(has_git: &Vec<bool>) -> (r: Option<usize>)
    ensures
        match r {
            Some(i) => i < has_git@.len() && has_git@[i as int] && forall|j: int| 0 <= j < i ==> !has_git@[j],
            None => forall|j: int| 0 <= j < has_git@.len() ==> !has_git@[j],
        },
{
    let mut i: usize = 0;
    while i < has_git.len()
        invariant
            i <= has_git@.len(),
            forall|j: int| 0 <= j < i ==> !has_git@[j],
        decreases has_git.len() - i,
    {
        if has_git[i] {
            return Some(i);
        }
        i += 1;
    }
    None
}

} // verus!
