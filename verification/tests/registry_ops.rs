use anew::path::SegPath;
use anew::registry::{plan_remove, store_path, template_names, template_path, StoreEntry};

fn p(s: &str) -> SegPath {
    let segs: Vec<String> = if s.is_empty() {
        Vec::new()
    } else {
        s.split('/').map(|seg| seg.to_owned()).collect()
    };
    SegPath { segs }
}

#[test]
fn listing_excludes_a_stray_regular_file() {
    let entries = vec![
        StoreEntry { name: "alpha".to_owned(), is_dir: true },
        StoreEntry { name: "notes.txt".to_owned(), is_dir: false },
        StoreEntry { name: "beta".to_owned(), is_dir: true },
    ];
    assert_eq!(template_names(&entries), vec!["alpha".to_owned(), "beta".to_owned()]);
}

#[test]
fn listing_an_empty_store_shows_nothing() {
    assert_eq!(template_names(&Vec::new()), Vec::<String>::new());
}

#[test]
fn listing_keeps_the_store_order() {
    let entries = vec![
        StoreEntry { name: "c".to_owned(), is_dir: true },
        StoreEntry { name: "a".to_owned(), is_dir: true },
        StoreEntry { name: "b".to_owned(), is_dir: true },
    ];
    assert_eq!(
        template_names(&entries),
        vec!["c".to_owned(), "a".to_owned(), "b".to_owned()]
    );
}

#[test]
fn store_sits_under_the_home_directory() {
    let store = store_path(&p("home/user"));
    assert_eq!(store, p("home/user/.anew/templates"));
}

#[test]
fn template_path_is_the_store_plus_the_name() {
    let t = template_path(&p("home/user/.anew/templates"), &"tpl".to_owned());
    assert_eq!(t, p("home/user/.anew/templates/tpl"));
}

#[test]
fn removing_a_missing_template_succeeds_and_again() {
    let store = p("home/user/.anew/templates");
    let name = "ghost".to_owned();
    // nothing to remove: a success with nothing to do, first time
    assert_eq!(plan_remove(&store, &name, false), None);
    // and on a repeated call just the same
    assert_eq!(plan_remove(&store, &name, false), None);
}

#[test]
fn removing_a_present_template_deletes_its_directory() {
    let store = p("home/user/.anew/templates");
    let name = "tpl".to_owned();
    assert_eq!(
        plan_remove(&store, &name, true),
        Some(p("home/user/.anew/templates/tpl"))
    );
}
