//! Path normalization for template creation.
//!
//! A batch of absolute source paths is turned into template-relative paths:
//! first by stripping the current working directory off every path, and,
//! when any path lies outside it, by stripping the greatest common ancestor
//! of the whole batch instead. The decision is made once for the batch,
//! never per path.

use vstd::prelude::*;
use vstd::pervasive::unreached;
use crate::path::{SegPath, is_prefix};

verus! {

/// The segment views of each path in a list.
pub open spec fn views_of(ps: Seq<SegPath>) -> Seq<Seq<Seq<char>>> {
    Seq::new(ps.len(), |i: int| ps[i]@)
}

proof fn lemma_views_of_points(ps: Seq<SegPath>)
    ensures
        views_of(ps).len() == ps.len(),
        forall|i: int| 0 <= i < ps.len() ==> views_of(ps)[i] == ps[i]@,
{
}

/// `g` is a prefix of every path in `ps`.
pub open spec fn common_ancestor(g: Seq<Seq<char>>, ps: Seq<Seq<Seq<char>>>) -> bool {
    forall|i: int| 0 <= i < ps.len() ==> is_prefix(g, ps[i])
}

/// `g` is a prefix of every one of the first `n` paths in `ps`.
pub open spec fn common_ancestor_upto(g: Seq<Seq<char>>, ps: Seq<Seq<Seq<char>>>, n: int) -> bool {
    forall|i: int| 0 <= i < n ==> is_prefix(g, ps[i])
}

/// `g` is the greatest common ancestor of `ps`: an ancestor of the first
/// path under which every path of the batch lies, and the deepest such.
/// The root (the empty prefix) is always a common ancestor, so for a
/// nonempty batch a greatest one exists.
pub open spec fn is_gca(g: Seq<Seq<char>>, ps: Seq<Seq<Seq<char>>>) -> bool {
    &&& ps.len() > 0
    &&& is_prefix(g, ps[0])
    &&& common_ancestor(g, ps)
    &&& forall|h: Seq<Seq<char>>|
        is_prefix(h, ps[0]) && #[trigger] common_ancestor(h, ps) ==> h.len() <= g.len()
}

/// Two greatest common ancestors of the same batch are equal.
pub proof fn lemma_gca_unique(g1: Seq<Seq<char>>, g2: Seq<Seq<char>>, ps: Seq<Seq<Seq<char>>>)
    requires
        is_gca(g1, ps),
        is_gca(g2, ps),
    ensures
        g1 == g2,
{
    assert(g1.len() <= g2.len());
    assert(g2.len() <= g1.len());
    assert(g1 =~= g2);
}

/// The deepest ancestor of the first path that every path in the batch
/// starts with. For a nonempty batch of absolute paths this always exists,
/// since the root is an ancestor of every path.
pub fn greatest_common_ancestor(paths: &Vec<SegPath>) -> (r: Option<SegPath>)
    requires
        paths@.len() > 0,
    ensures
        r matches Some(g) && is_gca(g@, views_of(paths@)),
{
    proof {
        lemma_views_of_points(paths@);
    }
    let ghost vs: Seq<Seq<Seq<char>>> = views_of(paths@);
    let first = &paths[0];
    let mut k: usize = first.segs.len();
    proof {
        crate::path::lemma_seg_points(first);
        assert(first@.take(k as int) =~= first@);
        assert forall|h: Seq<Seq<char>>|
            is_prefix(h, vs[0]) && #[trigger] common_ancestor_upto(h, vs, 1int) implies h.len()
            <= k as int by {};
    }
    let mut idx: usize = 1;
    while idx < paths.len()
        invariant
            paths@.len() > 0,
            1 <= idx <= paths@.len(),
            vs == views_of(paths@),
            vs.len() == paths@.len(),
            forall|i: int| 0 <= i < paths@.len() ==> vs[i] == paths@[i]@,
            *first == paths@[0],
            k <= first@.len(),
            first@.len() == first.segs@.len(),
            common_ancestor_upto(first@.take(k as int), vs, idx as int),
            forall|h: Seq<Seq<char>>|
                is_prefix(h, vs[0]) && #[trigger] common_ancestor_upto(h, vs, idx as int)
                    ==> h.len() <= k as int,
        decreases paths@.len() - idx,
    {
        let other = &paths[idx];
        proof {
            crate::path::lemma_seg_points(other);
        }
        let mut j: usize = 0;
        while j < k && j < other.segs.len() && first.segs[j] == other.segs[j]
            invariant
                j <= k <= first.segs@.len(),
                j <= other.segs@.len(),
                first@.len() == first.segs@.len(),
                other@.len() == other.segs@.len(),
                forall|t: int| 0 <= t < first@.len() ==> first@[t] == first.segs@[t]@,
                forall|t: int| 0 <= t < other@.len() ==> other@[t] == other.segs@[t]@,
                forall|t: int| 0 <= t < j ==> first@[t] == other@[t],
            decreases k - j,
        {
            j += 1;
        }
        proof {
            // j is the longest common run of `first` (cut at k) and `other`.
            assert(is_prefix(first@.take(j as int), other@));
            assert(is_prefix(first@.take(j as int), first@.take(k as int)));
            assert forall|i: int| 0 <= i < idx + 1 implies is_prefix(
                first@.take(j as int),
                vs[i],
            ) by {
                if i < idx {
                    assert(is_prefix(first@.take(k as int), vs[i]));
                } else {
                    assert(vs[i] == other@);
                }
            }
            assert(common_ancestor_upto(first@.take(j as int), vs, (idx + 1) as int));
            assert forall|h: Seq<Seq<char>>|
                is_prefix(h, vs[0]) && #[trigger] common_ancestor_upto(h, vs, (idx + 1) as int)
                implies h.len() <= j as int by {
                assert(common_ancestor_upto(h, vs, idx as int));
                assert(h.len() <= k as int);
                assert(is_prefix(h, vs[idx as int]));
                assert(vs[idx as int] == other@);
                if h.len() > j as int {
                    // below the mismatch (or the end) every segment agrees,
                    // so a longer common prefix is impossible
                    assert(h[j as int] == vs[0][j as int]);
                    assert(h[j as int] == other@[j as int]);
                    assert(first@[j as int] == other@[j as int]);
                    assert(false);
                }
            }
        }
        k = j;
        idx += 1;
    }
    let g = first.slice(0, k);
    proof {
        assert(g@ == first@.take(k as int));
        assert(common_ancestor(g@, vs));
        assert forall|h: Seq<Seq<char>>|
            is_prefix(h, vs[0]) && #[trigger] common_ancestor(h, vs) implies h.len() <= g@.len() by {
            assert(common_ancestor_upto(h, vs, paths@.len() as int));
        }
        assert(is_gca(g@, vs));
    }
    Some(g)
}

/// Whether every path in the batch lies under `prefix`.
pub fn all_start_with(prefix: &SegPath, sources: &Vec<SegPath>) -> (r: bool)
    ensures
        r == common_ancestor(prefix@, views_of(sources@)),
{
    proof {
        lemma_views_of_points(sources@);
    }
    let ghost vs: Seq<Seq<Seq<char>>> = views_of(sources@);
    let mut i: usize = 0;
    while i < sources.len()
        invariant
            i <= sources@.len(),
            vs == views_of(sources@),
            vs.len() == sources@.len(),
            forall|t: int| 0 <= t < sources@.len() ==> vs[t] == sources@[t]@,
            common_ancestor_upto(prefix@, vs, i as int),
        decreases sources@.len() - i,
    {
        if !sources[i].starts_with(prefix) {
            proof {
                assert(!is_prefix(prefix@, vs[i as int]));
            }
            return false;
        }
        i += 1;
    }
    true
}

/// Strip `prefix` off the front of every path in the batch, keeping order.
pub fn strip_all(prefix: &SegPath, sources: &Vec<SegPath>) -> (r: Vec<SegPath>)
    requires
        common_ancestor(prefix@, views_of(sources@)),
    ensures
        r@.len() == sources@.len(),
        forall|i: int|
            0 <= i < sources@.len() ==> r@[i]@ == sources@[i]@.skip(prefix@.len() as int),
{
    proof {
        lemma_views_of_points(sources@);
    }
    let mut out: Vec<SegPath> = Vec::new();
    let mut i: usize = 0;
    while i < sources.len()
        invariant
            i <= sources@.len(),
            common_ancestor(prefix@, views_of(sources@)),
            views_of(sources@).len() == sources@.len(),
            forall|t: int| 0 <= t < sources@.len() ==> views_of(sources@)[t] == sources@[t]@,
            out@.len() == i,
            forall|t: int| 0 <= t < i ==> out@[t]@ == sources@[t]@.skip(prefix@.len() as int),
        decreases sources@.len() - i,
    {
        proof {
            assert(is_prefix(prefix@, views_of(sources@)[i as int]));
        }
        let rest = match sources[i].strip_prefix(prefix) {
            Some(rest) => rest,
            None => unreached(),
        };
        out.push(rest);
        i += 1;
    }
    out
}

/// Turn a nonempty batch of absolute source paths into template-relative
/// paths, in the batch's order. When every source lies under the current
/// directory, the current directory is stripped from each; otherwise the
/// greatest common ancestor of the whole batch is stripped instead. The
/// choice is made once, for the whole batch.
pub fn normalize(current_dir: &SegPath, sources: &Vec<SegPath>) -> (r: Vec<SegPath>)
    requires
        sources@.len() > 0,
    ensures
        r@.len() == sources@.len(),
        common_ancestor(current_dir@, views_of(sources@)) ==> forall|i: int|
            0 <= i < sources@.len() ==> r@[i]@ == sources@[i]@.skip(current_dir@.len() as int),
        !common_ancestor(current_dir@, views_of(sources@)) ==> forall|g: Seq<Seq<char>>|
            #[trigger] is_gca(g, views_of(sources@)) ==> forall|i: int|
                0 <= i < sources@.len() ==> r@[i]@ == sources@[i]@.skip(g.len() as int),
{
    let ghost vs: Seq<Seq<Seq<char>>> = views_of(sources@);
    if all_start_with(current_dir, sources) {
        strip_all(current_dir, sources)
    } else {
        let anc = match greatest_common_ancestor(sources) {
            Some(anc) => anc,
            None => unreached(),
        };
        let out = strip_all(&anc, sources);
        proof {
            assert forall|g: Seq<Seq<char>>| #[trigger] is_gca(g, vs) implies (forall|i: int|
                0 <= i < sources@.len() ==> out@[i]@ == sources@[i]@.skip(g.len() as int)) by {
                lemma_gca_unique(g, anc@, vs);
            }
        }
        out
    }
}

} // verus!
