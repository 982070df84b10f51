use anew::path::SegPath;

fn p(s: &str) -> SegPath {
    let segs: Vec<String> = if s.is_empty() {
        Vec::new()
    } else {
        s.split('/').map(|seg| seg.to_owned()).collect()
    };
    SegPath { segs }
}

#[test]
fn empty_path_has_no_segments() {
    let e = SegPath::empty();
    assert_eq!(e.len(), 0);
    assert_eq!(e, p(""));
}

#[test]
fn slice_takes_a_middle_run() {
    let path = p("a/b/c/d");
    let mid = path.slice(1, 3);
    assert_eq!(mid, p("b/c"));
    let all = path.slice(0, 4);
    assert_eq!(all, p("a/b/c/d"));
    let none = path.slice(2, 2);
    assert_eq!(none, p(""));
}

#[test]
fn starts_with_checks_segment_runs() {
    let path = p("a/b/x.txt");
    assert!(path.starts_with(&p("a")));
    assert!(path.starts_with(&p("a/b")));
    assert!(path.starts_with(&p("a/b/x.txt")));
    assert!(path.starts_with(&p("")));
    assert!(!path.starts_with(&p("a/c")));
    assert!(!path.starts_with(&p("b")));
    assert!(!path.starts_with(&p("a/b/x.txt/more")));
}

#[test]
fn whole_segments_not_characters() {
    // "ab" is no prefix of "abc" at the segment level
    assert!(!p("abc/d").starts_with(&p("ab")));
}

#[test]
fn strip_prefix_keeps_the_rest() {
    let path = p("a/b/sub/y.txt");
    assert_eq!(path.strip_prefix(&p("a/b")), Some(p("sub/y.txt")));
    assert_eq!(path.strip_prefix(&p("")), Some(p("a/b/sub/y.txt")));
    assert_eq!(path.strip_prefix(&p("a/b/sub/y.txt")), Some(p("")));
    assert_eq!(path.strip_prefix(&p("a/c")), None);
}

#[test]
fn join_concatenates() {
    assert_eq!(p("a/b").join(&p("c/d")), p("a/b/c/d"));
    assert_eq!(p("").join(&p("c")), p("c"));
    assert_eq!(p("a").join(&p("")), p("a"));
}

#[test]
fn child_appends_one_segment() {
    assert_eq!(p("a/b").child(&"c".to_owned()), p("a/b/c"));
    assert_eq!(p("").child(&"c".to_owned()), p("c"));
}

#[test]
fn parent_drops_the_last_segment() {
    assert_eq!(p("a/b/c").parent(), p("a/b"));
    assert_eq!(p("a").parent(), p(""));
    // the root is its own parent
    assert_eq!(p("").parent(), p(""));
}

#[test]
fn clone_is_equal() {
    let path = p("a/b/c");
    assert_eq!(path.clone(), path);
}
