use companion_core::hidden::{is_hidden_name, is_hidden_path};

#[test]
fn dot_names_are_hidden() {
    assert!(is_hidden_name(".git"));
    assert!(is_hidden_name("."));
    assert!(is_hidden_name(".hidden.txt"));
    assert!(is_hidden_name("..."));
}

#[test]
fn library_is_hidden_exactly() {
    assert!(is_hidden_name("Library"));
    assert!(!is_hidden_name("library"));
    assert!(!is_hidden_name("Librar"));
    assert!(!is_hidden_name("Library2"));
    assert!(!is_hidden_name("LIBRARY"));
    assert!(!is_hidden_name("Librarx"));
    assert!(!is_hidden_name("xibrary"));
}

#[test]
fn plain_names_are_visible() {
    assert!(!is_hidden_name(""));
    assert!(!is_hidden_name("a.txt"));
    assert!(!is_hidden_name("notes."));
    assert!(!is_hidden_name("ünïcode"));
}

#[test]
fn path_is_judged_by_its_final_component() {
    assert!(is_hidden_path("/home/user/.config"));
    assert!(is_hidden_path("/Users/me/Library"));
    assert!(is_hidden_path(".git"));
    assert!(!is_hidden_path("/home/.config/app"));
    assert!(!is_hidden_path("/Users/me/Library/Caches"));
    assert!(!is_hidden_path("/home/user/notes.txt"));
}

#[test]
fn path_without_final_component_is_visible() {
    assert!(!is_hidden_path(""));
    assert!(!is_hidden_path("/"));
    assert!(!is_hidden_path("/home/user/.."));
    assert!(!is_hidden_path(".."));
}

#[test]
fn trailing_separator_does_not_hide_the_name() {
    assert!(is_hidden_path("/home/user/.cache/"));
    assert!(!is_hidden_path("/home/user/docs/"));
}
