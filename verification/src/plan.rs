//! The template materializer.
//!
//! Creating or applying a template is a batch of filesystem steps. The
//! functions here compute that batch — which directories to make, which
//! files to copy or link, in which order — as plain data; a shell around
//! the library carries the steps out one by one, stopping at the first
//! failure and rolling nothing back.

use vstd::prelude::*;
use crate::path::{SegPath, parent_of};

verus! {

/// One filesystem step of a create or apply plan.
#[derive(Debug, PartialEq, Eq)]
pub enum FsAction {
    /// Create this directory and any missing parents.
    MakeDirs(SegPath),
    /// Copy the bytes (and permissions) of the file at `src` to `dst`.
    CopyFile { src: SegPath, dst: SegPath },
    /// Create at `dst` a symbolic link to the file at `src`.
    LinkFile { src: SegPath, dst: SegPath },
    /// Create at `dst` a symbolic link to the directory at `src`.
    LinkDir { src: SegPath, dst: SegPath },
}

/// The mathematical shape of one plan step.
pub enum ActionV {
    MakeDirs(Seq<Seq<char>>),
    CopyFile { src: Seq<Seq<char>>, dst: Seq<Seq<char>> },
    LinkFile { src: Seq<Seq<char>>, dst: Seq<Seq<char>> },
    LinkDir { src: Seq<Seq<char>>, dst: Seq<Seq<char>> },
}

impl View for FsAction {
    type V = ActionV;

    open spec fn view(&self) -> ActionV {
        match self {
            FsAction::MakeDirs(p) => ActionV::MakeDirs(p@),
            FsAction::CopyFile { src, dst } => ActionV::CopyFile { src: src@, dst: dst@ },
            FsAction::LinkFile { src, dst } => ActionV::LinkFile { src: src@, dst: dst@ },
            FsAction::LinkDir { src, dst } => ActionV::LinkDir { src: src@, dst: dst@ },
        }
    }
}

/// One source of a create operation: its absolute path and whether it is a
/// directory (a directory is stored as an empty directory or a directory
/// link; its contents count only where they are sources of their own).
#[derive(Debug, PartialEq, Eq)]
pub struct SourceInfo {
    pub path: SegPath,
    pub is_dir: bool,
}

/// One entry met while walking a stored template: its path relative to the
/// template root, its resolved (symlink-followed) absolute path, and
/// whether it is a directory.
#[derive(Debug, PartialEq, Eq)]
pub struct TemplateEntry {
    pub rel: SegPath,
    pub resolved: SegPath,
    pub is_dir: bool,
}

/// Why an operation cannot proceed.
#[derive(Debug, PartialEq, Eq, Clone, Copy)]
pub enum TemplateError {
    /// The named template is not in the store.
    NotFound,
}

/// The step that stores one source at `target`: in link mode a symbolic
/// link back to the source, in copy mode a byte copy (or, for a directory,
/// an empty directory).
pub open spec fn create_step(
    target: Seq<Seq<char>>,
    source: Seq<Seq<char>>,
    is_dir: bool,
    link: bool,
) -> ActionV {
    if link {
        if is_dir {
            ActionV::LinkDir { src: source, dst: target }
        } else {
            ActionV::LinkFile { src: source, dst: target }
        }
    } else {
        if is_dir {
            ActionV::MakeDirs(target)
        } else {
            ActionV::CopyFile { src: source, dst: target }
        }
    }
}

/// The steps that populate a fresh template directory: for each source, in
/// the batch's order, first make the target's parent directory chain, then
/// store the source at `<template_dir>/<rel>`. Nothing is planned beyond
/// the batch: a failing step leaves the earlier steps' work in place.
pub fn plan_create(
    template_dir: &SegPath,
    sources: &Vec<SourceInfo>,
    rels: &Vec<SegPath>,
    link: bool,
) -> (r: Vec<FsAction>)
    requires
        sources@.len() == rels@.len(),
    ensures
        r@.len() == 2 * sources@.len(),
        forall|i: int|
            0 <= i < sources@.len() ==> r@[2 * i]@ == ActionV::MakeDirs(
                parent_of(template_dir@ + rels@[i]@),
            ),
        forall|i: int|
            0 <= i < sources@.len() ==> r@[2 * i + 1]@ == create_step(
                template_dir@ + rels@[i]@,
                sources@[i].path@,
                sources@[i].is_dir,
                link,
            ),
{
    let mut r: Vec<FsAction> = Vec::new();
    let mut i: usize = 0;
    while i < sources.len()
        invariant
            sources@.len() == rels@.len(),
            i <= sources@.len(),
            r@.len() == 2 * i,
            forall|t: int|
                0 <= t < i ==> r@[2 * t]@ == ActionV::MakeDirs(
                    parent_of(template_dir@ + rels@[t]@),
                ),
            forall|t: int|
                0 <= t < i ==> r@[2 * t + 1]@ == create_step(
                    template_dir@ + rels@[t]@,
                    sources@[t].path@,
                    sources@[t].is_dir,
                    link,
                ),
        decreases sources@.len() - i,
    {
        let target = template_dir.join(&rels[i]);
        r.push(FsAction::MakeDirs(target.parent()));
        let src = sources[i].path.clone();
        if link {
            if sources[i].is_dir {
                r.push(FsAction::LinkDir { src, dst: target });
            } else {
                r.push(FsAction::LinkFile { src, dst: target });
            }
        } else {
            if sources[i].is_dir {
                r.push(FsAction::MakeDirs(target));
            } else {
                r.push(FsAction::CopyFile { src, dst: target });
            }
        }
        i += 1;
    }
    r
}

/// The step that recreates one walked entry under `destination`: a
/// directory is made (with any missing parents), a file's resolved content
/// is copied. Links inside the template are never recreated: the walk
/// hands over resolved paths, so an applied template always holds real,
/// independent files.
pub open spec fn apply_step(destination: Seq<Seq<char>>, e: TemplateEntry) -> ActionV {
    if e.is_dir {
        ActionV::MakeDirs(destination + e.rel@)
    } else {
        ActionV::CopyFile { src: e.resolved@, dst: destination + e.rel@ }
    }
}

/// The step at position `k` of an apply plan: the destination root is made
/// first, then each walked entry is recreated in walk order.
pub open spec fn apply_step_at(
    destination: Seq<Seq<char>>,
    entries: Seq<TemplateEntry>,
    k: int,
) -> ActionV {
    if k == 0 {
        ActionV::MakeDirs(destination)
    } else {
        apply_step(destination, entries[k - 1])
    }
}

/// The steps that expand a stored template under `destination`: the
/// destination root first, then every walked entry, in walk order. A
/// failing step aborts the rest and rolls nothing back.
pub fn plan_apply(destination: &SegPath, entries: &Vec<TemplateEntry>) -> (r: Vec<FsAction>)
    ensures
        r@.len() == 1 + entries@.len(),
        forall|k: int| 0 <= k < r@.len() ==> r@[k]@ == apply_step_at(destination@, entries@, k),
{
    let mut r: Vec<FsAction> = Vec::new();
    r.push(FsAction::MakeDirs(destination.clone()));
    let mut i: usize = 0;
    while i < entries.len()
        invariant
            i <= entries@.len(),
            r@.len() == 1 + i,
            forall|k: int| 0 <= k < r@.len() ==> r@[k]@ == apply_step_at(destination@, entries@, k),
        decreases entries@.len() - i,
    {
        let e = &entries[i];
        let dst = destination.join(&e.rel);
        if e.is_dir {
            r.push(FsAction::MakeDirs(dst));
        } else {
            r.push(FsAction::CopyFile { src: e.resolved.clone(), dst });
        }
        i += 1;
    }
    r
}

/// The apply operation's gate: a template that is not in the store cannot
/// be applied. The error comes before any step is planned, so the
/// destination is left untouched.
pub fn plan_apply_checked(
    destination: &SegPath,
    template_exists: bool,
    entries: &Vec<TemplateEntry>,
) -> (r: Result<Vec<FsAction>, TemplateError>)
    ensures
        r is Ok <==> template_exists,
        r matches Ok(plan) ==> plan@.len() == 1 + entries@.len() && forall|k: int|
            0 <= k < plan@.len() ==> plan@[k]@ == apply_step_at(destination@, entries@, k),
        r matches Err(e) ==> e == TemplateError::NotFound,
{
    if template_exists {
        Ok(plan_apply(destination, entries))
    } else {
        Err(TemplateError::NotFound)
    }
}

/// A walk lists parents before children: every entry that does not sit
/// directly at the template root is preceded by the directory entry it
/// sits in. A top-down (pre-order) walk of a template has this shape.
pub open spec fn parents_walked_first(entries: Seq<TemplateEntry>) -> bool {
    forall|i: int|
        0 <= i < entries.len() && parent_of(#[trigger] entries[i].rel@).len() > 0 ==> exists|j: int|
            0 <= j < i && #[trigger] entries[j].is_dir && entries[j].rel@ == parent_of(
                entries[i].rel@,
            )
}

/// Nested directories are recreated outermost first: in an apply plan over
/// a parents-first walk, the directory that is to hold entry `i` has been
/// made by an earlier step — `D/sub` before `D/sub/deep`, and
/// `D/sub/deep` before `D/sub/deep/file.txt` is written.
pub proof fn lemma_apply_makes_parents_first(
    destination: Seq<Seq<char>>,
    entries: Seq<TemplateEntry>,
    i: int,
)
    requires
        parents_walked_first(entries),
        0 <= i < entries.len(),
    ensures
        exists|j: int|
            0 <= j < i + 1 && #[trigger] apply_step_at(destination, entries, j)
                == ActionV::MakeDirs(destination + parent_of(entries[i].rel@)),
{
    if parent_of(entries[i].rel@).len() == 0 {
        assert(destination + parent_of(entries[i].rel@) =~= destination);
        assert(apply_step_at(destination, entries, 0) == ActionV::MakeDirs(
            destination + parent_of(entries[i].rel@),
        ));
    } else {
        let j = choose|j: int|
            0 <= j < i && #[trigger] entries[j].is_dir && entries[j].rel@ == parent_of(
                entries[i].rel@,
            );
        assert(apply_step_at(destination, entries, j + 1) == ActionV::MakeDirs(
            destination + parent_of(entries[i].rel@),
        ));
    }
}

} // verus!
