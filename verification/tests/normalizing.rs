use anew::normalize::{all_start_with, greatest_common_ancestor, normalize, strip_all};
use anew::path::SegPath;

fn p(s: &str) -> SegPath {
    let segs: Vec<String> = if s.is_empty() {
        Vec::new()
    } else {
        s.split('/').map(|seg| seg.to_owned()).collect()
    };
    SegPath { segs }
}

#[test]
fn gca_of_two_siblings_is_their_directory() {
    let paths = vec![p("a/b/x"), p("a/b/y")];
    assert_eq!(greatest_common_ancestor(&paths), Some(p("a/b")));
}

#[test]
fn gca_of_one_path_is_itself() {
    let paths = vec![p("a/b/x")];
    assert_eq!(greatest_common_ancestor(&paths), Some(p("a/b/x")));
}

#[test]
fn gca_of_disjoint_paths_is_the_root() {
    let paths = vec![p("a/x"), p("b/y")];
    assert_eq!(greatest_common_ancestor(&paths), Some(p("")));
}

#[test]
fn gca_with_one_path_inside_another() {
    let paths = vec![p("a/b/c/x.txt"), p("a/b")];
    assert_eq!(greatest_common_ancestor(&paths), Some(p("a/b")));
}

#[test]
fn all_start_with_reports_the_odd_one_out() {
    assert!(all_start_with(&p("a"), &vec![p("a/x"), p("a/b/y")]));
    assert!(!all_start_with(&p("a"), &vec![p("a/x"), p("b/y")]));
}

#[test]
fn strip_all_keeps_order() {
    let rels = strip_all(&p("a"), &vec![p("a/b/x.txt"), p("a/c/y.txt")]);
    assert_eq!(rels, vec![p("b/x.txt"), p("c/y.txt")]);
}

#[test]
fn stripping_the_current_directory_takes_precedence() {
    // with the current directory an ancestor of every source, it is the
    // stripped prefix; the ancestor fallback stays out of it
    let rels = normalize(&p("a/b"), &vec![p("a/b/x.txt"), p("a/b/sub/y.txt")]);
    assert_eq!(rels, vec![p("x.txt"), p("sub/y.txt")]);
}

#[test]
fn ancestor_fallback_when_outside_the_current_directory() {
    // neither source lies under the current directory /z, so the greatest
    // common ancestor /a is stripped instead
    let rels = normalize(&p("z"), &vec![p("a/b/x.txt"), p("a/c/y.txt")]);
    assert_eq!(rels, vec![p("b/x.txt"), p("c/y.txt")]);
}

#[test]
fn fallback_is_for_the_whole_batch_never_per_path() {
    // the first source lies under the current directory /a/b, the second
    // does not: the whole batch falls back to the common ancestor /a
    let rels = normalize(&p("a/b"), &vec![p("a/b/x.txt"), p("a/c/y.txt")]);
    assert_eq!(rels, vec![p("b/x.txt"), p("c/y.txt")]);
}

#[test]
fn source_equal_to_current_directory_normalizes_to_empty() {
    let rels = normalize(&p("a/b"), &vec![p("a/b")]);
    assert_eq!(rels, vec![p("")]);
}
