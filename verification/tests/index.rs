use companion_core::builder::{build_tree, BuildStep, DirEntry, EntryKind};
use companion_core::search::search_tree;
use companion_core::store::{is_index_done, search_index, AppState};
use companion_core::tree::{DirNode, FileNode};

fn file(dir: &str, name: &str) -> DirEntry {
    DirEntry { name: name.to_string(), path: format!("{}/{}", dir, name), kind: EntryKind::File }
}

fn subdir(dir: &str, name: &str) -> DirEntry {
    DirEntry {
        name: name.to_string(),
        path: format!("{}/{}", dir, name),
        kind: EntryKind::Directory,
    }
}

fn other(dir: &str, name: &str) -> DirEntry {
    DirEntry { name: name.to_string(), path: format!("{}/{}", dir, name), kind: EntryKind::Other }
}

/// Drives a walk to its end, answering each read from `read`, and records
/// the paths that were asked for.
fn walk(root: &str, read: fn(&str) -> Option<Vec<DirEntry>>, asked: &mut Vec<String>) -> DirNode {
    let mut step = build_tree(root.to_string());
    loop {
        match step {
            BuildStep::Done(tree) => return tree,
            BuildStep::Read { path, builder } => {
                asked.push(path.clone());
                step = builder.feed(read(&path));
            }
        }
    }
}

fn build(root: &str, read: fn(&str) -> Option<Vec<DirEntry>>) -> DirNode {
    let mut asked = Vec::new();
    walk(root, read, &mut asked)
}

fn search(tree: &DirNode, query: &str) -> Vec<String> {
    let mut out = Vec::new();
    search_tree(tree, query, &mut out);
    out
}

fn sorted(mut paths: Vec<String>) -> Vec<String> {
    paths.sort();
    paths
}

fn all_files(tree: &DirNode, out: &mut Vec<(String, String)>) {
    for f in &tree.files {
        out.push((f.name.clone(), f.path.clone()));
    }
    for d in &tree.subdirs {
        all_files(d, out);
    }
}

fn mixed_case_tree(path: &str) -> Option<Vec<DirEntry>> {
    match path {
        "root" => Some(vec![file("root", "A.txt"), file("root", "B.txt"), subdir("root", "sub")]),
        "root/sub" => Some(vec![file("root/sub", "c.TXT"), file("root/sub", ".hidden.txt")]),
        _ => None,
    }
}

fn library_tree(path: &str) -> Option<Vec<DirEntry>> {
    match path {
        "root" => Some(vec![subdir("root", "Library"), file("root", "visible.txt")]),
        "root/Library" => Some(vec![file("root/Library", "secret.txt")]),
        _ => None,
    }
}

fn nested_tree(path: &str) -> Option<Vec<DirEntry>> {
    match path {
        "root" => Some(vec![file("root", "x.md"), subdir("root", "y")]),
        "root/y" => Some(vec![file("root/y", "x.md"), subdir("root/y", "z")]),
        "root/y/z" => Some(vec![file("root/y/z", "x.md")]),
        _ => None,
    }
}

fn interleaved_tree(path: &str) -> Option<Vec<DirEntry>> {
    match path {
        "r" => Some(vec![
            file("r", "One.TXT"),
            subdir("r", "d1"),
            other("r", "socket"),
            file("r", "two.txt"),
            subdir("r", "locked"),
            subdir("r", ".git"),
            subdir("r", "d2"),
            file("r", "three.md"),
        ]),
        "r/d1" => Some(vec![file("r/d1", "Deep.txt"), subdir("r/d1", "inner")]),
        "r/d1/inner" => Some(vec![file("r/d1/inner", "CORE.TXT")]),
        "r/d2" => Some(vec![]),
        "r/.git" => Some(vec![file("r/.git", "config.txt")]),
        _ => None,
    }
}

fn foo_tree(path: &str) -> Option<Vec<DirEntry>> {
    match path {
        "r1" => Some(vec![file("r1", "foo.rs"), file("r1", "bar.rs"), subdir("r1", "s")]),
        "r1/s" => Some(vec![file("r1/s", "FOOD.md")]),
        _ => None,
    }
}

fn second_tree(path: &str) -> Option<Vec<DirEntry>> {
    match path {
        "r2" => Some(vec![file("r2", "foo.txt")]),
        _ => None,
    }
}

#[test]
fn search_finds_names_of_any_case() {
    let tree = build("root", mixed_case_tree);
    assert_eq!(
        sorted(search(&tree, "txt")),
        vec!["root/A.txt".to_string(), "root/B.txt".to_string(), "root/sub/c.TXT".to_string()]
    );
}

#[test]
fn search_keeps_depth_first_order() {
    let tree = build("root", mixed_case_tree);
    assert_eq!(
        search(&tree, "txt"),
        vec!["root/A.txt".to_string(), "root/B.txt".to_string(), "root/sub/c.TXT".to_string()]
    );
}

#[test]
fn empty_query_returns_every_file() {
    let tree = build("root", mixed_case_tree);
    assert_eq!(
        sorted(search(&tree, "")),
        vec!["root/A.txt".to_string(), "root/B.txt".to_string(), "root/sub/c.TXT".to_string()]
    );
}

#[test]
fn empty_query_equals_all_file_paths() {
    let tree = build("r", interleaved_tree);
    let mut files = Vec::new();
    all_files(&tree, &mut files);
    let paths: Vec<String> = files.into_iter().map(|(_, p)| p).collect();
    assert_eq!(search(&tree, ""), paths);
    assert_eq!(paths.len(), 5);
}

#[test]
fn library_directory_is_left_out() {
    let mut asked = Vec::new();
    let tree = walk("root", library_tree, &mut asked);
    assert_eq!(search(&tree, "txt"), vec!["root/visible.txt".to_string()]);
    assert_eq!(asked, vec!["root".to_string()]);
    assert!(tree.subdirs.is_empty());
}

#[test]
fn same_name_at_three_depths() {
    let tree = build("root", nested_tree);
    assert_eq!(
        sorted(search(&tree, "X")),
        vec!["root/x.md".to_string(), "root/y/x.md".to_string(), "root/y/z/x.md".to_string()]
    );
}

#[test]
fn search_before_and_after_build() {
    let mut state = AppState::new();
    assert!(!is_index_done(&state));
    assert_eq!(search_index("foo".to_string(), &state), Vec::<String>::new());
    state.install(build("r1", foo_tree));
    assert!(is_index_done(&state));
    assert_eq!(
        search_index("foo".to_string(), &state),
        vec!["r1/foo.rs".to_string(), "r1/s/FOOD.md".to_string()]
    );
}

#[test]
fn later_build_replaces_earlier_one() {
    let first = build("r1", foo_tree);
    let second = build("r2", second_tree);
    let mut state = AppState::new();
    state.install(first);
    assert!(is_index_done(&state));
    assert_eq!(search_index("".to_string(), &state).len(), 3);
    state.install(second);
    assert!(is_index_done(&state));
    assert_eq!(search_index("".to_string(), &state), vec!["r2/foo.txt".to_string()]);
    assert_eq!(search_index("foo".to_string(), &state), vec!["r2/foo.txt".to_string()]);
}

#[test]
fn builds_in_either_order_leave_one_whole_tree() {
    let mut a = AppState::new();
    a.install(build("r1", foo_tree));
    a.install(build("r2", second_tree));
    let mut b = AppState::new();
    b.install(build("r2", second_tree));
    b.install(build("r1", foo_tree));
    assert!(is_index_done(&a) && is_index_done(&b));
    assert_eq!(search_index("".to_string(), &a), vec!["r2/foo.txt".to_string()]);
    assert_eq!(
        search_index("".to_string(), &b),
        vec!["r1/foo.rs".to_string(), "r1/bar.rs".to_string(), "r1/s/FOOD.md".to_string()]
    );
}

#[test]
fn ready_stays_ready_over_installs() {
    let mut state = AppState::new();
    for root in ["r1", "nowhere", "r1"] {
        state.install(build(root, foo_tree));
        assert!(is_index_done(&state));
        let _ = search_index("x".to_string(), &state);
        assert!(is_index_done(&state));
    }
}

#[test]
fn tokens_hold_every_lowercased_name_below() {
    let tree = build("r", interleaved_tree);
    assert_eq!(
        tree.tokens,
        vec![
            "one.txt".to_string(),
            "deep.txt".to_string(),
            "core.txt".to_string(),
            "two.txt".to_string(),
            "three.md".to_string()
        ]
    );
    assert_eq!(tree.subdirs.len(), 3);
    assert_eq!(tree.subdirs[0].tokens, vec!["deep.txt".to_string(), "core.txt".to_string()]);
    assert_eq!(tree.subdirs[0].subdirs[0].tokens, vec!["core.txt".to_string()]);
    assert!(tree.subdirs[1].tokens.is_empty());
    assert!(tree.subdirs[2].tokens.is_empty());
    let mut files = Vec::new();
    all_files(&tree, &mut files);
    for (name, _) in files {
        assert!(tree.tokens.contains(&name.to_ascii_lowercase()));
    }
}

#[test]
fn file_names_keep_their_case() {
    let tree = build("r", interleaved_tree);
    let names: Vec<String> = tree.files.iter().map(|f| f.name.clone()).collect();
    assert_eq!(names, vec!["One.TXT".to_string(), "two.txt".to_string(), "three.md".to_string()]);
    assert_eq!(tree.files[0].path, "r/One.TXT");
}

#[test]
fn walk_reads_visible_directories_depth_first() {
    let mut asked = Vec::new();
    let _ = walk("r", interleaved_tree, &mut asked);
    assert_eq!(
        asked,
        vec![
            "r".to_string(),
            "r/d1".to_string(),
            "r/d1/inner".to_string(),
            "r/locked".to_string(),
            "r/d2".to_string()
        ]
    );
}

#[test]
fn unreadable_directory_is_an_empty_node() {
    let tree = build("r", interleaved_tree);
    let locked = &tree.subdirs[1];
    assert!(locked.files.is_empty() && locked.subdirs.is_empty() && locked.tokens.is_empty());
}

#[test]
fn unreadable_root_gives_empty_tree() {
    let tree = build("missing", interleaved_tree);
    assert!(tree.files.is_empty() && tree.subdirs.is_empty() && tree.tokens.is_empty());
    assert_eq!(search(&tree, ""), Vec::<String>::new());
}

#[test]
fn hidden_root_is_never_read() {
    for root in ["home/.cache", "home/Library", ".git"] {
        match build_tree(root.to_string()) {
            BuildStep::Done(tree) => {
                assert!(tree.files.is_empty() && tree.subdirs.is_empty() && tree.tokens.is_empty())
            }
            BuildStep::Read { .. } => panic!("a hidden root was asked for"),
        }
    }
}

#[test]
fn visible_root_is_read_first() {
    match build_tree("home/user".to_string()) {
        BuildStep::Read { path, .. } => assert_eq!(path, "home/user"),
        BuildStep::Done(_) => panic!("nothing was read"),
    }
}

#[test]
fn hidden_entries_never_show_in_any_search() {
    let tree = build("r", interleaved_tree);
    for query in ["", "config", "txt", ".git", "c"] {
        for path in search(&tree, query) {
            assert!(!path.contains("/.git"));
        }
    }
    assert_eq!(search(&tree, "config"), Vec::<String>::new());
}

#[test]
fn entries_that_are_neither_file_nor_directory_are_ignored() {
    let tree = build("r", interleaved_tree);
    assert_eq!(search(&tree, "socket"), Vec::<String>::new());
    assert!(!tree.tokens.contains(&"socket".to_string()));
}

#[test]
fn search_is_case_independent() {
    let tree = build("r", interleaved_tree);
    for query in ["txt", "TxT", "Core", "e.t", "d", ""] {
        let plain = search(&tree, query);
        assert_eq!(search(&tree, &query.to_ascii_uppercase()), plain);
        assert_eq!(search(&tree, &query.to_ascii_lowercase()), plain);
    }
    assert_eq!(
        search(&tree, "TXT"),
        vec![
            "r/One.TXT".to_string(),
            "r/two.txt".to_string(),
            "r/d1/Deep.txt".to_string(),
            "r/d1/inner/CORE.TXT".to_string()
        ]
    );
}

#[test]
fn folding_is_ascii_only() {
    let tree = DirNode {
        files: vec![FileNode { name: "ÄRGER.txt".to_string(), path: "p/ÄRGER.txt".to_string() }],
        subdirs: vec![],
        tokens: vec!["Ärger.txt".to_string()],
    };
    assert_eq!(search(&tree, "ÄRGER"), vec!["p/ÄRGER.txt".to_string()]);
    assert_eq!(search(&tree, "Ärger"), vec!["p/ÄRGER.txt".to_string()]);
    assert_eq!(search(&tree, "ärger"), Vec::<String>::new());
}

#[test]
fn match_is_substring_not_prefix() {
    let tree = build("r", interleaved_tree);
    assert_eq!(search(&tree, "eep"), vec!["r/d1/Deep.txt".to_string()]);
    assert_eq!(search(&tree, "wo.t"), vec!["r/two.txt".to_string()]);
    assert_eq!(search(&tree, "t*"), Vec::<String>::new());
}

#[test]
fn pruned_search_equals_unpruned_scan() {
    let tree = build("r", interleaved_tree);
    let mut files = Vec::new();
    all_files(&tree, &mut files);
    for query in ["", "t", "core", "md", "zzz", "ONE", "inner"] {
        let q = query.to_ascii_lowercase();
        let expected: Vec<String> = files
            .iter()
            .filter(|(name, _)| name.to_ascii_lowercase().contains(&q))
            .map(|(_, path)| path.clone())
            .collect();
        assert_eq!(search(&tree, query), expected);
    }
}

#[test]
fn search_skips_a_directory_without_matching_token() {
    let tree = DirNode {
        files: vec![FileNode { name: "a.txt".to_string(), path: "r/a.txt".to_string() }],
        subdirs: vec![DirNode {
            files: vec![FileNode { name: "b.txt".to_string(), path: "r/s/b.txt".to_string() }],
            subdirs: vec![],
            tokens: vec![],
        }],
        tokens: vec!["a.txt".to_string()],
    };
    assert_eq!(search(&tree, "txt"), vec!["r/a.txt".to_string()]);
    assert_eq!(search(&tree, "b"), Vec::<String>::new());
}

#[test]
fn search_appends_to_what_is_there() {
    let tree = build("root", nested_tree);
    let mut out = vec!["kept".to_string()];
    search_tree(&tree, "x", &mut out);
    assert_eq!(
        out,
        vec![
            "kept".to_string(),
            "root/x.md".to_string(),
            "root/y/x.md".to_string(),
            "root/y/z/x.md".to_string()
        ]
    );
}

#[test]
fn duplicate_paths_are_not_merged() {
    let twice = FileNode { name: "a".to_string(), path: "same".to_string() };
    let again = FileNode { name: "A".to_string(), path: "same".to_string() };
    let tree = DirNode {
        files: vec![twice, again],
        subdirs: vec![],
        tokens: vec!["a".to_string(), "a".to_string()],
    };
    assert_eq!(search(&tree, "a"), vec!["same".to_string(), "same".to_string()]);
}

#[test]
fn empty_node_is_empty() {
    let node = DirNode::empty();
    assert!(node.files.is_empty() && node.subdirs.is_empty() && node.tokens.is_empty());
}

#[test]
fn clone_copies_the_whole_tree() {
    let tree = build("r", interleaved_tree);
    let copy = tree.clone();
    assert_eq!(copy.tokens, tree.tokens);
    assert_eq!(copy.subdirs.len(), tree.subdirs.len());
    let mut left = Vec::new();
    let mut right = Vec::new();
    all_files(&tree, &mut left);
    all_files(&copy, &mut right);
    assert_eq!(left, right);
    assert_eq!(copy.subdirs[0].subdirs[0].tokens, vec!["core.txt".to_string()]);
    assert_eq!(search(&copy, "txt"), search(&tree, "txt"));
    let entry = file("d", "n");
    let twin = entry.clone();
    assert_eq!((twin.name, twin.path, twin.kind), (entry.name, entry.path, entry.kind));
}
