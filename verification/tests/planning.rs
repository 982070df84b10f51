use anew::plan::{
    plan_apply, plan_apply_checked, plan_create, FsAction, SourceInfo, TemplateEntry,
    TemplateError,
};
use anew::path::SegPath;

fn p(s: &str) -> SegPath {
    let segs: Vec<String> = if s.is_empty() {
        Vec::new()
    } else {
        s.split('/').map(|seg| seg.to_owned()).collect()
    };
    SegPath { segs }
}

#[test]
fn copy_mode_copies_files_and_makes_directories() {
    let sources = vec![
        SourceInfo { path: p("a/b/x.txt"), is_dir: false },
        SourceInfo { path: p("a/b/sub"), is_dir: true },
    ];
    let rels = vec![p("x.txt"), p("sub")];
    let plan = plan_create(&p("store/tpl"), &sources, &rels, false);
    assert_eq!(
        plan,
        vec![
            FsAction::MakeDirs(p("store/tpl")),
            FsAction::CopyFile { src: p("a/b/x.txt"), dst: p("store/tpl/x.txt") },
            FsAction::MakeDirs(p("store/tpl")),
            FsAction::MakeDirs(p("store/tpl/sub")),
        ]
    );
}

#[test]
fn create_makes_the_parent_chain_of_a_nested_target() {
    let sources = vec![SourceInfo { path: p("a/b/c/d.txt"), is_dir: false }];
    let rels = vec![p("b/c/d.txt")];
    let plan = plan_create(&p("store/tpl"), &sources, &rels, false);
    assert_eq!(
        plan,
        vec![
            FsAction::MakeDirs(p("store/tpl/b/c")),
            FsAction::CopyFile { src: p("a/b/c/d.txt"), dst: p("store/tpl/b/c/d.txt") },
        ]
    );
}

#[test]
fn link_mode_links_back_to_the_sources() {
    let sources = vec![
        SourceInfo { path: p("a/b/x.txt"), is_dir: false },
        SourceInfo { path: p("a/b/sub"), is_dir: true },
    ];
    let rels = vec![p("x.txt"), p("sub")];
    let plan = plan_create(&p("store/tpl"), &sources, &rels, true);
    assert_eq!(
        plan,
        vec![
            FsAction::MakeDirs(p("store/tpl")),
            FsAction::LinkFile { src: p("a/b/x.txt"), dst: p("store/tpl/x.txt") },
            FsAction::MakeDirs(p("store/tpl")),
            FsAction::LinkDir { src: p("a/b/sub"), dst: p("store/tpl/sub") },
        ]
    );
}

#[test]
fn apply_recreates_nested_directories_outermost_first() {
    // a template holding sub/deep/file.txt: D/sub is made, then D/sub/deep,
    // then the file is written
    let entries = vec![
        TemplateEntry { rel: p("sub"), resolved: p("store/tpl/sub"), is_dir: true },
        TemplateEntry { rel: p("sub/deep"), resolved: p("store/tpl/sub/deep"), is_dir: true },
        TemplateEntry {
            rel: p("sub/deep/file.txt"),
            resolved: p("store/tpl/sub/deep/file.txt"),
            is_dir: false,
        },
    ];
    let plan = plan_apply(&p("dest"), &entries);
    assert_eq!(
        plan,
        vec![
            FsAction::MakeDirs(p("dest")),
            FsAction::MakeDirs(p("dest/sub")),
            FsAction::MakeDirs(p("dest/sub/deep")),
            FsAction::CopyFile {
                src: p("store/tpl/sub/deep/file.txt"),
                dst: p("dest/sub/deep/file.txt"),
            },
        ]
    );
}

#[test]
fn apply_copies_the_resolved_path_of_a_linked_entry() {
    // a link-mode template entry resolves to the original file; apply plans
    // a copy from that original, so content mutated after create is what
    // lands under the destination
    let entries = vec![TemplateEntry {
        rel: p("x.txt"),
        resolved: p("home/work/x.txt"),
        is_dir: false,
    }];
    let plan = plan_apply(&p("dest"), &entries);
    assert_eq!(
        plan,
        vec![
            FsAction::MakeDirs(p("dest")),
            FsAction::CopyFile { src: p("home/work/x.txt"), dst: p("dest/x.txt") },
        ]
    );
}

#[test]
fn apply_of_a_missing_template_is_an_error_with_no_steps() {
    let r = plan_apply_checked(&p("dest"), false, &Vec::new());
    assert_eq!(r, Err(TemplateError::NotFound));
}

#[test]
fn apply_of_a_present_template_is_planned() {
    let entries = vec![TemplateEntry {
        rel: p("x.txt"),
        resolved: p("store/tpl/x.txt"),
        is_dir: false,
    }];
    let r = plan_apply_checked(&p("dest"), true, &entries);
    assert_eq!(
        r,
        Ok(vec![
            FsAction::MakeDirs(p("dest")),
            FsAction::CopyFile { src: p("store/tpl/x.txt"), dst: p("dest/x.txt") },
        ])
    );
}

#[test]
fn create_flow_normalizes_then_plans() {
    // the whole create path on values: sources under the current directory
    // are stripped to it, then stored under the template directory
    let cwd = p("home/u/proj");
    let files = vec![p("home/u/proj/src"), p("home/u/proj/src/main.c")];
    let rels = anew::normalize::normalize(&cwd, &files);
    assert_eq!(rels, vec![p("src"), p("src/main.c")]);
    let sources = vec![
        SourceInfo { path: files[0].clone(), is_dir: true },
        SourceInfo { path: files[1].clone(), is_dir: false },
    ];
    let tpl = p("home/u/.anew/templates/tpl");
    let plan = plan_create(&tpl, &sources, &rels, false);
    assert_eq!(
        plan,
        vec![
            FsAction::MakeDirs(p("home/u/.anew/templates/tpl")),
            FsAction::MakeDirs(p("home/u/.anew/templates/tpl/src")),
            FsAction::MakeDirs(p("home/u/.anew/templates/tpl/src")),
            FsAction::CopyFile {
                src: p("home/u/proj/src/main.c"),
                dst: p("home/u/.anew/templates/tpl/src/main.c"),
            },
        ]
    );
}

#[test]
fn apply_of_an_empty_template_makes_only_the_destination() {
    let plan = plan_apply(&p("dest"), &Vec::new());
    assert_eq!(plan, vec![FsAction::MakeDirs(p("dest"))]);
}
