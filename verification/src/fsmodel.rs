//! A model of what carrying out a plan does to the filesystem.
//!
//! The filesystem is a map from absolute paths to nodes: directories,
//! files with their bytes, and symbolic links with their target. Running a
//! plan folds its steps over that map, in order. The model describes the
//! successful run of a plan (a failing step aborts a real run; nothing is
//! said here about the half-finished state it leaves). A copy step reads
//! the node at its source path as it stands: where resolving a link
//! matters, the plan already carries the resolved path.
//!
//! On this model the round-trip laws are proved: a copy-mode create
//! followed by an apply plants the original nodes under the destination,
//! and a link-mode create stores links back to the sources, so an apply
//! sees the sources as they are at apply time.

use vstd::prelude::*;
use crate::normalize::views_of;
use crate::path::{SegPath, is_prefix, parent_of};
use crate::plan::{ActionV, FsAction, SourceInfo, TemplateEntry, apply_step_at, create_step};

verus! {

/// One node of the modelled filesystem.
pub enum FNode {
    /// A directory.
    Dir,
    /// A regular file holding these bytes.
    File(Seq<u8>),
    /// A symbolic link pointing at this path.
    Link(Seq<Seq<char>>),
}

/// A filesystem: which node stands at which absolute path.
pub type FsMap = Map<Seq<Seq<char>>, FNode>;

/// Making a directory chain: every missing ancestor of `p`, and `p`
/// itself where missing, becomes a directory; everything that exists is
/// left as it is.
pub open spec fn add_dirs(fs: FsMap, p: Seq<Seq<char>>) -> FsMap {
    Map::new(
        |k: Seq<Seq<char>>| fs.dom().contains(k) || is_prefix(k, p),
        |k: Seq<Seq<char>>|
            if fs.dom().contains(k) {
                fs[k]
            } else {
                FNode::Dir
            },
    )
}

/// The filesystem after one step.
pub open spec fn run_action_model(fs: FsMap, a: ActionV) -> FsMap {
    match a {
        ActionV::MakeDirs(p) => add_dirs(fs, p),
        ActionV::CopyFile { src, dst } => if fs.dom().contains(src) {
            fs.insert(dst, fs[src])
        } else {
            fs
        },
        ActionV::LinkFile { src, dst } => fs.insert(dst, FNode::Link(src)),
        ActionV::LinkDir { src, dst } => fs.insert(dst, FNode::Link(src)),
    }
}

/// The filesystem after a whole plan, run in order.
pub open spec fn run_plan_model(fs: FsMap, plan: Seq<ActionV>) -> FsMap
    decreases plan.len(),
{
    if plan.len() == 0 {
        fs
    } else {
        run_plan_model(run_action_model(fs, plan[0]), plan.drop_first())
    }
}

/// No step ever removes a path: what the run starts with stays present.
proof fn lemma_action_grows(fs: FsMap, a: ActionV)
    ensures
        forall|k: Seq<Seq<char>>| fs.dom().contains(k) ==> run_action_model(fs, a).dom().contains(k),
{
}

/// Running a concatenation is running the parts in turn.
proof fn lemma_run_concat(fs: FsMap, a: Seq<ActionV>, b: Seq<ActionV>)
    ensures
        run_plan_model(fs, a + b) == run_plan_model(run_plan_model(fs, a), b),
    decreases a.len(),
{
    if a.len() == 0 {
        assert(a + b =~= b);
    } else {
        assert((a + b)[0] == a[0]);
        assert((a + b).drop_first() =~= a.drop_first() + b);
        lemma_run_concat(run_action_model(fs, a[0]), a.drop_first(), b);
    }
}

/// Running a pair of steps, one after the other.
proof fn lemma_run_two(fs: FsMap, a1: ActionV, a2: ActionV)
    ensures
        run_plan_model(fs, seq![a1, a2]) == run_action_model(run_action_model(fs, a1), a2),
{
    let two = seq![a1, a2];
    let one = seq![a2];
    assert(two[0] == a1);
    assert(one[0] == a2);
    assert(two.drop_first() =~= one);
    assert(one.drop_first() =~= Seq::<ActionV>::empty());
    let fs1 = run_action_model(fs, a1);
    let fs2 = run_action_model(fs1, a2);
    assert(run_plan_model(fs, two) == run_plan_model(fs1, one));
    assert(run_plan_model(fs1, one) == run_plan_model(fs2, Seq::<ActionV>::empty()));
    assert(run_plan_model(fs2, Seq::<ActionV>::empty()) == fs2);
}

/// A path always lies under its own front part.
proof fn lemma_prefix_of_concat(a: Seq<Seq<char>>, b: Seq<Seq<char>>)
    ensures
        is_prefix(a, a + b),
{
}

/// Appending to a fixed front is injective.
proof fn lemma_concat_inj(td: Seq<Seq<char>>, a: Seq<Seq<char>>, b: Seq<Seq<char>>)
    requires
        td + a == td + b,
    ensures
        a == b,
{
    assert(a =~= (td + a).skip(td.len() as int));
    assert(b =~= (td + b).skip(td.len() as int));
}

/// The shape of a create plan, exactly as `plan_create` promises it.
pub open spec fn is_create_plan(
    plan: Seq<ActionV>,
    td: Seq<Seq<char>>,
    sources: Seq<SourceInfo>,
    rels: Seq<Seq<Seq<char>>>,
    link: bool,
) -> bool {
    &&& sources.len() == rels.len()
    &&& plan.len() == 2 * sources.len()
    &&& forall|t: int|
        0 <= t < sources.len() ==> plan[2 * t] == ActionV::MakeDirs(parent_of(td + rels[t]))
    &&& forall|t: int|
        0 <= t < sources.len() ==> plan[2 * t + 1] == create_step(
            td + rels[t],
            sources[t].path@,
            sources[t].is_dir,
            link,
        )
}

/// What a create run needs of its inputs: every source is on disk, no
/// source lies under the template directory being filled, and no two
/// sources are stored at the same relative path.
pub open spec fn create_inputs_ok(
    fs0: FsMap,
    td: Seq<Seq<char>>,
    sources: Seq<SourceInfo>,
    rels: Seq<Seq<Seq<char>>>,
) -> bool {
    &&& sources.len() == rels.len()
    &&& forall|t: int| 0 <= t < sources.len() ==> fs0.dom().contains(#[trigger] sources[t].path@)
    &&& forall|t: int| 0 <= t < sources.len() ==> !is_prefix(td, #[trigger] sources[t].path@)
    &&& forall|t: int, u: int|
        0 <= t < u < rels.len() ==> #[trigger] rels[t] != #[trigger] rels[u]
}

/// `k` is one of the first `m` stored target paths.
pub open spec fn stored_among(
    k: Seq<Seq<char>>,
    td: Seq<Seq<char>>,
    rels: Seq<Seq<Seq<char>>>,
    m: int,
) -> bool {
    exists|t: int| 0 <= t < m && k == td + #[trigger] rels[t]
}

/// Two sideways subtrees stay sideways: when neither of two paths lies
/// under the other, nothing under the second lies under the first.
proof fn lemma_disjoint_subtrees(a: Seq<Seq<char>>, b: Seq<Seq<char>>, x: Seq<Seq<char>>)
    requires
        !is_prefix(a, b),
        !is_prefix(b, a),
    ensures
        !is_prefix(a, b + x),
{
    if is_prefix(a, b + x) {
        if a.len() <= b.len() {
            assert forall|i: int| 0 <= i < a.len() implies a[i] == b[i] by {
                assert(a[i] == (b + x)[i]);
            }
            assert(is_prefix(a, b));
        } else {
            assert forall|i: int| 0 <= i < b.len() implies b[i] == a[i] by {
                assert(a[i] == (b + x)[i]);
            }
            assert(is_prefix(b, a));
        }
    }
}

/// After the first `m` sources have been stored: everything that was on
/// disk is still there; paths not written keep their node; each stored
/// file holds the source's original node, each stored link points back at
/// its source.
proof fn lemma_create_phase(
    fs0: FsMap,
    td: Seq<Seq<char>>,
    sources: Seq<SourceInfo>,
    rels: Seq<Seq<Seq<char>>>,
    link: bool,
    plan: Seq<ActionV>,
    m: int,
)
    requires
        is_create_plan(plan, td, sources, rels, link),
        create_inputs_ok(fs0, td, sources, rels),
        0 <= m <= sources.len(),
    ensures
        ({
            let fsm = run_plan_model(fs0, plan.take(2 * m));
            &&& (forall|k: Seq<Seq<char>>|
                fs0.dom().contains(k) ==> #[trigger] fsm.dom().contains(k))
            &&& (forall|k: Seq<Seq<char>>|
                fs0.dom().contains(k) && !stored_among(k, td, rels, m) ==> #[trigger] fsm[k]
                    == fs0[k])
            &&& (forall|t: int| 0 <= t < m ==> fsm.dom().contains(td + #[trigger] rels[t]))
            &&& (forall|t: int|
                0 <= t < m && !link && !sources[t].is_dir ==> fsm[td + #[trigger] rels[t]]
                    == fs0[sources[t].path@])
            &&& (forall|t: int|
                0 <= t < m && link ==> fsm[td + #[trigger] rels[t]] == FNode::Link(
                    sources[t].path@,
                ))
        }),
    decreases m,
{
    if m == 0 {
        assert(plan.take(0) =~= Seq::<ActionV>::empty());
    } else {
        lemma_create_phase(fs0, td, sources, rels, link, plan, m - 1);
        let pre = plan.take(2 * (m - 1));
        let fsp = run_plan_model(fs0, pre);
        let a1 = plan[2 * (m - 1)];
        let a2 = plan[2 * (m - 1) + 1];
        assert(plan.take(2 * m) =~= pre + seq![a1, a2]);
        lemma_run_concat(fs0, pre, seq![a1, a2]);
        lemma_run_two(fsp, a1, a2);
        let fs1 = run_action_model(fsp, a1);
        let fsm = run_action_model(fs1, a2);
        assert(run_plan_model(fs0, plan.take(2 * m)) == fsm);
        let target = td + rels[m - 1];
        let s = sources[m - 1].path@;
        assert(a1 == ActionV::MakeDirs(parent_of(target)));
        assert(a2 == create_step(target, s, sources[m - 1].is_dir, link));

        // no source path is a stored target path
        assert forall|t: int| 0 <= t < sources.len() implies s != td + #[trigger] rels[t] by {
            lemma_prefix_of_concat(td, rels[t]);
        }
        assert(!stored_among(s, td, rels, m - 1));
        // so entry m-1's source still holds its original node
        assert(fsp.dom().contains(s));
        assert(fsp[s] == fs0[s]);
        assert(fs1.dom().contains(s));
        assert(fs1[s] == fsp[s]);

        // earlier targets differ from this one
        assert forall|t: int| 0 <= t < m - 1 implies td + #[trigger] rels[t] != target by {
            if td + rels[t] == target {
                lemma_concat_inj(td, rels[t], rels[m - 1]);
            }
        }

        // what was on disk is still on disk
        assert forall|k: Seq<Seq<char>>| fs0.dom().contains(k) implies #[trigger] fsm.dom().contains(
            k,
        ) by {
            assert(fsp.dom().contains(k));
            assert(fs1.dom().contains(k));
            lemma_action_grows(fs1, a2);
        }

        // paths not written keep their node
        assert forall|k: Seq<Seq<char>>|
            fs0.dom().contains(k) && !stored_among(k, td, rels, m) implies #[trigger] fsm[k]
            == fs0[k] by {
            assert forall|t: int| 0 <= t < m implies k != td + #[trigger] rels[t] by {
                if k == td + rels[t] {
                    assert(stored_among(k, td, rels, m));
                }
            }
            assert(!stored_among(k, td, rels, m - 1)) by {
                if stored_among(k, td, rels, m - 1) {
                    let t = choose|t: int| 0 <= t < m - 1 && k == td + #[trigger] rels[t];
                    assert(stored_among(k, td, rels, m));
                }
            }
            assert(fsp[k] == fs0[k]);
            assert(fsp.dom().contains(k));
            assert(fs1[k] == fsp[k]);
            assert(fs1.dom().contains(k));
            assert(k != target);
        }

        // every stored target is on disk
        assert forall|t: int| 0 <= t < m implies fsm.dom().contains(td + #[trigger] rels[t]) by {
            if t < m - 1 {
                assert(fsp.dom().contains(td + rels[t]));
                assert(fs1.dom().contains(td + rels[t]));
                lemma_action_grows(fs1, a2);
            } else {
                if link || !sources[m - 1].is_dir {
                    assert(fsm.dom().contains(target));
                } else {
                    assert(is_prefix(target, target));
                    assert(fsm.dom().contains(target));
                }
            }
        }

        // stored files hold the original nodes
        assert forall|t: int|
            0 <= t < m && !link && !sources[t].is_dir implies fsm[td + #[trigger] rels[t]]
            == fs0[sources[t].path@] by {
            if t < m - 1 {
                assert(fsp[td + rels[t]] == fs0[sources[t].path@]);
                assert(fsp.dom().contains(td + rels[t]));
                assert(fs1[td + rels[t]] == fsp[td + rels[t]]);
                assert(fs1.dom().contains(td + rels[t]));
                assert(td + rels[t] != target);
            } else {
                assert(fsm == fs1.insert(target, fs1[s]));
            }
        }

        // stored links point back at their sources
        assert forall|t: int|
            0 <= t < m && link implies fsm[td + #[trigger] rels[t]] == FNode::Link(
            sources[t].path@,
        ) by {
            if t < m - 1 {
                assert(fsp[td + rels[t]] == FNode::Link(sources[t].path@));
                assert(fsp.dom().contains(td + rels[t]));
                assert(fs1[td + rels[t]] == fsp[td + rels[t]]);
                assert(fs1.dom().contains(td + rels[t]));
                assert(td + rels[t] != target);
            } else {
                assert(fsm == fs1.insert(target, FNode::Link(s)));
            }
        }
    }
}

/// Running a single step.
proof fn lemma_run_one(fs: FsMap, a: ActionV)
    ensures
        run_plan_model(fs, seq![a]) == run_action_model(fs, a),
{
    let one = seq![a];
    assert(one[0] == a);
    assert(one.drop_first() =~= Seq::<ActionV>::empty());
    let fs2 = run_action_model(fs, a);
    assert(run_plan_model(fs, one) == run_plan_model(fs2, one.drop_first()));
    assert(run_plan_model(fs2, Seq::<ActionV>::empty()) == fs2);
}

/// The shape of an apply plan, exactly as `plan_apply` promises it.
pub open spec fn is_apply_plan(
    plan: Seq<ActionV>,
    dest: Seq<Seq<char>>,
    entries: Seq<TemplateEntry>,
) -> bool {
    &&& plan.len() == 1 + entries.len()
    &&& forall|k: int| 0 <= k < plan.len() ==> plan[k] == apply_step_at(dest, entries, k)
}

/// What an apply run needs of its inputs: every file entry's resolved path
/// is on disk and lies outside the destination, and no two file entries
/// land at the same relative path.
pub open spec fn apply_inputs_ok(
    fs1: FsMap,
    dest: Seq<Seq<char>>,
    entries: Seq<TemplateEntry>,
) -> bool {
    &&& forall|t: int|
        0 <= t < entries.len() && !entries[t].is_dir ==> fs1.dom().contains(
            #[trigger] entries[t].resolved@,
        )
    &&& forall|t: int|
        0 <= t < entries.len() && !entries[t].is_dir ==> !is_prefix(
            dest,
            #[trigger] entries[t].resolved@,
        )
    &&& forall|t: int, u: int|
        0 <= t < u < entries.len() && !entries[t].is_dir && !entries[u].is_dir
            ==> #[trigger] entries[t].rel@ != #[trigger] entries[u].rel@
}

/// `k` is where one of the first `m` applied file entries was written.
pub open spec fn applied_among(
    k: Seq<Seq<char>>,
    dest: Seq<Seq<char>>,
    entries: Seq<TemplateEntry>,
    m: int,
) -> bool {
    exists|t: int| 0 <= t < m && !entries[t].is_dir && k == dest + #[trigger] entries[t].rel@
}

/// After the destination root and the first `m` entries have been applied:
/// everything that was on disk is still there; paths no file was written
/// to keep their node; each applied file holds what its resolved source
/// held when the run began.
proof fn lemma_apply_phase(
    fs1: FsMap,
    dest: Seq<Seq<char>>,
    entries: Seq<TemplateEntry>,
    plan: Seq<ActionV>,
    m: int,
)
    requires
        is_apply_plan(plan, dest, entries),
        apply_inputs_ok(fs1, dest, entries),
        0 <= m <= entries.len(),
    ensures
        ({
            let fsm = run_plan_model(fs1, plan.take(1 + m));
            &&& (forall|k: Seq<Seq<char>>|
                fs1.dom().contains(k) ==> #[trigger] fsm.dom().contains(k))
            &&& (forall|k: Seq<Seq<char>>|
                fs1.dom().contains(k) && !applied_among(k, dest, entries, m) ==> #[trigger] fsm[k]
                    == fs1[k])
            &&& (forall|t: int|
                0 <= t < m && !entries[t].is_dir ==> fsm.dom().contains(
                    dest + #[trigger] entries[t].rel@,
                ))
            &&& (forall|t: int|
                0 <= t < m && !entries[t].is_dir ==> fsm[dest + #[trigger] entries[t].rel@]
                    == fs1[entries[t].resolved@])
        }),
    decreases m,
{
    if m == 0 {
        assert(plan.take(1) =~= seq![plan[0]]);
        lemma_run_one(fs1, plan[0]);
        assert(plan[0] == ActionV::MakeDirs(dest));
    } else {
        lemma_apply_phase(fs1, dest, entries, plan, m - 1);
        let pre = plan.take(1 + (m - 1));
        let fsp = run_plan_model(fs1, pre);
        let a = plan[m];
        assert(plan.take(1 + m) =~= pre + seq![a]);
        lemma_run_concat(fs1, pre, seq![a]);
        lemma_run_one(fsp, a);
        let fsm = run_action_model(fsp, a);
        assert(run_plan_model(fs1, plan.take(1 + m)) == fsm);
        let e = entries[m - 1];
        assert(a == apply_step_at(dest, entries, m));

        // what was on disk is still on disk
        assert forall|k: Seq<Seq<char>>| fs1.dom().contains(k) implies #[trigger] fsm.dom().contains(
            k,
        ) by {
            assert(fsp.dom().contains(k));
            lemma_action_grows(fsp, a);
        }

        if !e.is_dir {
            // the resolved source still holds its node: nothing under the
            // destination is it, and only file steps overwrite
            let s = e.resolved@;
            assert(!is_prefix(dest, s));
            assert(!applied_among(s, dest, entries, m - 1)) by {
                if applied_among(s, dest, entries, m - 1) {
                    let t = choose|t: int|
                        0 <= t < m - 1 && !entries[t].is_dir && s == dest
                            + #[trigger] entries[t].rel@;
                    lemma_prefix_of_concat(dest, entries[t].rel@);
                }
            }
            assert(fsp.dom().contains(s));
            assert(fsp[s] == fs1[s]);
            assert(fsm == fsp.insert(dest + e.rel@, fsp[s]));
        }

        // paths no file was written to keep their node
        assert forall|k: Seq<Seq<char>>|
            fs1.dom().contains(k) && !applied_among(k, dest, entries, m) implies #[trigger] fsm[k]
            == fs1[k] by {
            assert(!applied_among(k, dest, entries, m - 1)) by {
                if applied_among(k, dest, entries, m - 1) {
                    let t = choose|t: int|
                        0 <= t < m - 1 && !entries[t].is_dir && k == dest
                            + #[trigger] entries[t].rel@;
                    assert(applied_among(k, dest, entries, m));
                }
            }
            assert(fsp[k] == fs1[k]);
            assert(fsp.dom().contains(k));
            if !e.is_dir {
                assert(k != dest + e.rel@) by {
                    if k == dest + e.rel@ {
                        assert(applied_among(k, dest, entries, m));
                    }
                }
            }
        }

        // applied files are on disk and hold their resolved node
        assert forall|t: int|
            0 <= t < m && !entries[t].is_dir implies fsm.dom().contains(
            dest + #[trigger] entries[t].rel@,
        ) && fsm[dest + entries[t].rel@] == fs1[entries[t].resolved@] by {
            if t < m - 1 {
                assert(fsp.dom().contains(dest + entries[t].rel@));
                assert(fsp[dest + entries[t].rel@] == fs1[entries[t].resolved@]);
                lemma_action_grows(fsp, a);
                if !e.is_dir {
                    assert(entries[t].rel@ != e.rel@);
                    assert(dest + entries[t].rel@ != dest + e.rel@) by {
                        if dest + entries[t].rel@ == dest + e.rel@ {
                            lemma_concat_inj(dest, entries[t].rel@, e.rel@);
                        }
                    }
                } else {
                    assert(fsm == add_dirs(fsp, dest + e.rel@));
                }
            }
        }
    }
}

/// A vector of steps, seen as its mathematical actions.
pub open spec fn actions_of(s: Seq<FsAction>) -> Seq<ActionV> {
    Seq::new(s.len(), |k: int| s[k]@)
}

/// What `plan_create` promises of its output is exactly the create-plan
/// shape that the round-trip laws speak of.
pub proof fn lemma_create_plan_shape(
    plan: Seq<FsAction>,
    td: Seq<Seq<char>>,
    sources: Seq<SourceInfo>,
    rels: Seq<SegPath>,
    link: bool,
)
    requires
        sources.len() == rels.len(),
        plan.len() == 2 * sources.len(),
        forall|i: int|
            0 <= i < sources.len() ==> plan[2 * i]@ == ActionV::MakeDirs(
                parent_of(td + rels[i]@),
            ),
        forall|i: int|
            0 <= i < sources.len() ==> plan[2 * i + 1]@ == create_step(
                td + rels[i]@,
                sources[i].path@,
                sources[i].is_dir,
                link,
            ),
    ensures
        is_create_plan(actions_of(plan), td, sources, views_of(rels), link),
{
    let acts = actions_of(plan);
    let vs = views_of(rels);
    assert forall|t: int| 0 <= t < sources.len() implies acts[2 * t] == ActionV::MakeDirs(
        parent_of(td + vs[t]),
    ) && acts[2 * t + 1] == create_step(td + vs[t], sources[t].path@, sources[t].is_dir, link) by {
        assert(vs[t] == rels[t]@);
        assert(acts[2 * t] == plan[2 * t]@);
        assert(acts[2 * t + 1] == plan[2 * t + 1]@);
    }
}

/// What `plan_apply` promises of its output is exactly the apply-plan
/// shape that the round-trip laws speak of.
pub proof fn lemma_apply_plan_shape(
    plan: Seq<FsAction>,
    dest: Seq<Seq<char>>,
    entries: Seq<TemplateEntry>,
)
    requires
        plan.len() == 1 + entries.len(),
        forall|k: int| 0 <= k < plan.len() ==> plan[k]@ == apply_step_at(dest, entries, k),
    ensures
        is_apply_plan(actions_of(plan), dest, entries),
{
    let acts = actions_of(plan);
    assert forall|k: int| 0 <= k < acts.len() implies acts[k] == apply_step_at(
        dest,
        entries,
        k,
    ) by {
        assert(acts[k] == plan[k]@);
    }
}

/// Round-trip fidelity of a copy-mode create, on the model: store a batch
/// by copy, walk the stored template, apply it under a destination that
/// lies sideways of the store — every file of the batch reappears under
/// the destination at its stored relative path, as the very node (the
/// very bytes) its source held before the create.
pub proof fn lemma_copy_round_trip(
    fs0: FsMap,
    td: Seq<Seq<char>>,
    dest: Seq<Seq<char>>,
    sources: Seq<SourceInfo>,
    rels: Seq<Seq<Seq<char>>>,
    cplan: Seq<ActionV>,
    walk: Seq<TemplateEntry>,
    aplan: Seq<ActionV>,
    i: int,
)
    requires
        is_create_plan(cplan, td, sources, rels, false),
        create_inputs_ok(fs0, td, sources, rels),
        // the walk lists each stored entry, resolved to its stored place
        walk.len() == sources.len(),
        forall|t: int|
            0 <= t < walk.len() ==> (#[trigger] walk[t].rel@) == rels[t] && walk[t].resolved@ == td
                + rels[t] && walk[t].is_dir == sources[t].is_dir,
        is_apply_plan(aplan, dest, walk),
        // the destination and the store lie sideways of one another
        !is_prefix(td, dest),
        !is_prefix(dest, td),
        0 <= i < sources.len(),
        !sources[i].is_dir,
    ensures
        ({
            let fs2 = run_plan_model(run_plan_model(fs0, cplan), aplan);
            fs2.dom().contains(dest + rels[i]) && fs2[dest + rels[i]] == fs0[sources[i].path@]
        }),
{
    let n = sources.len() as int;
    assert(cplan.take(2 * n) =~= cplan);
    lemma_create_phase(fs0, td, sources, rels, false, cplan, n);
    let fs1 = run_plan_model(fs0, cplan);
    assert(apply_inputs_ok(fs1, dest, walk)) by {
        assert forall|t: int|
            0 <= t < walk.len() && !walk[t].is_dir implies fs1.dom().contains(
            #[trigger] walk[t].resolved@,
        ) && !is_prefix(dest, walk[t].resolved@) by {
            assert(walk[t].rel@ == rels[t] && walk[t].resolved@ == td + rels[t]);
            assert(fs1.dom().contains(td + rels[t]));
            lemma_disjoint_subtrees(dest, td, rels[t]);
        }
        assert forall|t: int, u: int|
            0 <= t < u < walk.len() && !walk[t].is_dir && !walk[u].is_dir implies (
            #[trigger] walk[t].rel@) != (#[trigger] walk[u].rel@) by {
            assert(walk[t].rel@ == rels[t]);
            assert(walk[u].rel@ == rels[u]);
        }
    }
    assert(aplan.take(1 + walk.len() as int) =~= aplan);
    lemma_apply_phase(fs1, dest, walk, aplan, walk.len() as int);
    assert(walk[i].rel@ == rels[i] && walk[i].resolved@ == td + rels[i]
        && walk[i].is_dir == sources[i].is_dir);
    assert(fs1[walk[i].resolved@] == fs0[sources[i].path@]);
}

/// Round-trip of a link-mode create, on the model: the create stores, for
/// every source, a link pointing back at the source — no bytes. Let the
/// sources then change: `later` is any filesystem state that still holds
/// the source paths. A walk of the template resolves each stored link to
/// its source, and applying out of `later` writes what the source holds
/// in `later` — the content as mutated after the create, not as it was at
/// create time.
pub proof fn lemma_link_round_trip_sees_mutation(
    fs0: FsMap,
    later: FsMap,
    td: Seq<Seq<char>>,
    dest: Seq<Seq<char>>,
    sources: Seq<SourceInfo>,
    rels: Seq<Seq<Seq<char>>>,
    cplan: Seq<ActionV>,
    walk: Seq<TemplateEntry>,
    aplan: Seq<ActionV>,
    i: int,
)
    requires
        is_create_plan(cplan, td, sources, rels, true),
        create_inputs_ok(fs0, td, sources, rels),
        // the walk resolves each stored link back to its source
        walk.len() == sources.len(),
        forall|t: int|
            0 <= t < walk.len() ==> (#[trigger] walk[t].rel@) == rels[t] && walk[t].resolved@
                == sources[t].path@ && walk[t].is_dir == sources[t].is_dir,
        is_apply_plan(aplan, dest, walk),
        // at apply time the sources are still on disk, outside the destination
        forall|t: int|
            0 <= t < sources.len() ==> later.dom().contains(#[trigger] sources[t].path@),
        forall|t: int|
            0 <= t < sources.len() ==> !is_prefix(dest, #[trigger] sources[t].path@),
        0 <= i < sources.len(),
        !sources[i].is_dir,
    ensures
        // what the create stored is a link to the original
        run_plan_model(fs0, cplan)[td + rels[i]] == FNode::Link(sources[i].path@),
        // what the apply writes is the source's content at apply time
        ({
            let fs2 = run_plan_model(later, aplan);
            fs2.dom().contains(dest + rels[i]) && fs2[dest + rels[i]] == later[sources[i].path@]
        }),
{
    let n = sources.len() as int;
    assert(cplan.take(2 * n) =~= cplan);
    lemma_create_phase(fs0, td, sources, rels, true, cplan, n);
    assert(apply_inputs_ok(later, dest, walk)) by {
        assert forall|t: int|
            0 <= t < walk.len() && !walk[t].is_dir implies later.dom().contains(
            #[trigger] walk[t].resolved@,
        ) && !is_prefix(dest, walk[t].resolved@) by {
            assert(walk[t].rel@ == rels[t] && walk[t].resolved@ == sources[t].path@);
        }
        assert forall|t: int, u: int|
            0 <= t < u < walk.len() && !walk[t].is_dir && !walk[u].is_dir implies (
            #[trigger] walk[t].rel@) != (#[trigger] walk[u].rel@) by {
            assert(walk[t].rel@ == rels[t]);
            assert(walk[u].rel@ == rels[u]);
        }
    }
    assert(aplan.take(1 + walk.len() as int) =~= aplan);
    lemma_apply_phase(later, dest, walk, aplan, walk.len() as int);
    assert(walk[i].rel@ == rels[i] && walk[i].resolved@ == sources[i].path@);
    assert(later[walk[i].resolved@] == later[sources[i].path@]);
}

} // verus!
