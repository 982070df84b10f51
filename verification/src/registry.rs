//! The template registry: where the store lives, which templates it holds,
//! and how one is removed.

use vstd::prelude::*;
use crate::path::SegPath;

verus! {

/// What a directory listing shows of one entry at the store root.
#[derive(Debug, PartialEq, Eq)]
pub struct StoreEntry {
    pub name: String,
    pub is_dir: bool,
}

/// The names of the directory entries, in listing order; entries that are
/// not directories do not appear.
pub open spec fn dir_names(entries: Seq<StoreEntry>) -> Seq<Seq<char>>
    decreases entries.len(),
{
    if entries.len() == 0 {
        Seq::empty()
    } else {
        let rest = dir_names(entries.drop_last());
        if entries.last().is_dir {
            rest.push(entries.last().name@)
        } else {
            rest
        }
    }
}

/// The template names a listing of the store root shows: its immediate
/// subdirectories' names, in listing order. Anything else at the store
/// root — a stray regular file, say — is left out.
pub fn template_names(entries: &Vec<StoreEntry>) -> (r: Vec<String>)
    ensures
        r.deep_view() == dir_names(entries@),
{
    let mut r: Vec<String> = Vec::new();
    let mut i: usize = 0;
    while i < entries.len()
        invariant
            i <= entries@.len(),
            r.deep_view() == dir_names(entries@.take(i as int)),
        decreases entries@.len() - i,
    {
        let ghost pre = r.deep_view();
        if entries[i].is_dir {
            r.push(entries[i].name.clone());
            proof {
                assert(r.deep_view() =~~= pre.push(entries@[i as int].name@));
            }
        }
        proof {
            assert(entries@.take((i + 1) as int).drop_last() =~= entries@.take(i as int));
            assert(entries@.take((i + 1) as int).last() == entries@[i as int]);
            assert(r.deep_view() =~~= dir_names(entries@.take((i + 1) as int)));
        }
        i += 1;
    }
    proof {
        assert(entries@.take(entries@.len() as int) =~= entries@);
    }
    r
}

/// The listing holds directory names only, and all of them: a name is
/// listed exactly when a directory entry of that name stands at the store
/// root.
pub proof fn lemma_list_only_directories(entries: Seq<StoreEntry>)
    ensures
        forall|n: Seq<char>| #[trigger] dir_names(entries).contains(n) ==> exists|i: int|
            0 <= i < entries.len() && #[trigger] entries[i].is_dir && entries[i].name@ == n,
        forall|i: int|
            0 <= i < entries.len() && #[trigger] entries[i].is_dir ==> dir_names(
                entries,
            ).contains(entries[i].name@),
    decreases entries.len(),
{
    if entries.len() == 0 {
    } else {
        let prefix = entries.drop_last();
        lemma_list_only_directories(prefix);
        assert forall|n: Seq<char>| #[trigger] dir_names(entries).contains(n) implies exists|i: int|
            0 <= i < entries.len() && #[trigger] entries[i].is_dir && entries[i].name@ == n by {
            if dir_names(prefix).contains(n) {
                let i = choose|i: int|
                    0 <= i < prefix.len() && #[trigger] prefix[i].is_dir && prefix[i].name@ == n;
                assert(entries[i].is_dir && entries[i].name@ == n);
            } else {
                assert(entries.last().is_dir && entries.last().name@ == n);
                assert(entries[entries.len() - 1].is_dir);
            }
        }
        assert forall|i: int|
            0 <= i < entries.len() && #[trigger] entries[i].is_dir implies dir_names(
            entries,
        ).contains(entries[i].name@) by {
            if i < entries.len() - 1 {
                assert(prefix[i].is_dir);
                assert(dir_names(prefix).contains(prefix[i].name@));
                let t = choose|t: int|
                    0 <= t < dir_names(prefix).len() && dir_names(prefix)[t] == prefix[i].name@;
                assert(dir_names(entries)[t] == entries[i].name@);
            } else {
                assert(dir_names(entries).last() == entries[i].name@);
            }
        }
    }
}

/// The template store root under the user's home: `<home>/.anew/templates`.
pub fn store_path(home: &SegPath) -> (r: SegPath)
    ensures
        r@ == home@.push(".anew"@).push("templates"@),
{
    let dot_anew: String = ".anew".to_owned();
    let templates: String = "templates".to_owned();
    let r = home.child(&dot_anew);
    r.child(&templates)
}

/// Where the named template lives: `<store>/<name>`.
pub fn template_path(store: &SegPath, name: &String) -> (r: SegPath)
    ensures
        r@ == store@.push(name@),
{
    store.child(name)
}

/// The remove operation's plan. Removal is idempotent: when the named
/// template is in the store, its whole directory is the one thing to
/// delete; when it is not — on a first call or on any repeat — there is
/// nothing to do and the removal still counts as a success.
pub fn plan_remove(store: &SegPath, name: &String, template_exists: bool) -> (r: Option<SegPath>)
    ensures
        template_exists ==> (r matches Some(p) && p@ == store@.push(name@)),
        !template_exists ==> r is None,
{
    if template_exists {
        Some(template_path(store, name))
    } else {
        None
    }
}

} // verus!
