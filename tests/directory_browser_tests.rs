use directory_browser::{
    BrowseAction, BrowseLocation, DirectoryBrowser, DirectoryBrowserDelegate, Entry, ProjectPath,
    RelPath, SplitDirection, Tree,
};

fn rel(path: &str) -> RelPath {
    let mut r = RelPath::empty();
    for part in path.split('/') {
        if !part.is_empty() {
            r = r.join(part);
        }
    }
    r
}

/// A tree with its root and the given entries; a path ending in `/` is a directory.
fn tree_of(paths: &[&str]) -> Tree {
    let mut tree = Tree::new();
    tree.insert(Entry::new(RelPath::empty(), true));
    for p in paths {
        let is_dir = p.ends_with('/');
        tree.insert(Entry::new(rel(p.trim_end_matches('/')), is_dir));
    }
    tree
}

fn open_at_root(tree: &Tree) -> DirectoryBrowser {
    let location = DirectoryBrowser::open(None, Some(1)).expect("a tree to browse");
    DirectoryBrowser::new(location, None, Some(tree))
}

fn names(d: &DirectoryBrowserDelegate) -> Vec<String> {
    d.filtered_entries.iter().map(|e| e.display_name()).collect()
}

fn all_names(d: &DirectoryBrowserDelegate) -> Vec<String> {
    d.all_entries.iter().map(|e| e.display_name()).collect()
}

#[test]
fn test_directory_listing() {
    let tree = tree_of(&["src/", "src/main.rs", "src/lib.rs", "README.md"]);
    let browser = open_at_root(&tree);
    // No parent directory at worktree root
    assert_eq!(names(&browser.delegate), vec!["src", "README.md"]);
}

#[test]
fn test_navigate_into_directory() {
    let tree = tree_of(&["src/", "src/main.rs", "src/lib.rs"]);
    let mut browser = open_at_root(&tree);
    browser.delegate.set_selected_index(0);
    let action = browser.delegate.confirm(false, Some(&tree));
    assert!(matches!(action, BrowseAction::Navigated));
    // Now in subdirectory, parent directory entry appears
    assert_eq!(names(&browser.delegate), vec!["..", "lib.rs", "main.rs"]);
}

#[test]
fn test_navigate_to_parent() {
    let tree = tree_of(&["src/", "src/main.rs", "README.md"]);
    let mut browser = open_at_root(&tree);
    browser.delegate.set_selected_index(0);
    browser.delegate.confirm(false, Some(&tree));
    assert!(browser
        .delegate
        .filtered_entries
        .iter()
        .any(|e| e.display_name() == ".."));
    assert!(browser.handle_navigate_to_parent(Some(&tree)));
    // Back at worktree root, no parent directory
    assert_eq!(names(&browser.delegate), vec!["src", "README.md"]);
}

#[test]
fn test_hidden_files_toggle() {
    let tree = tree_of(&[".hidden", "visible.txt"]);
    let mut browser = open_at_root(&tree);
    assert_eq!(names(&browser.delegate), vec!["visible.txt"]);
    assert!(!browser.delegate.show_hidden_files);

    browser.handle_toggle_show_hidden(Some(&tree));
    assert_eq!(names(&browser.delegate), vec![".hidden", "visible.txt"]);
    assert!(browser.delegate.show_hidden_files);

    browser.handle_toggle_show_hidden(Some(&tree));
    assert_eq!(names(&browser.delegate), vec!["visible.txt"]);
}

#[test]
fn test_search_filtering() {
    let tree = tree_of(&["apple.txt", "banana.txt", "cherry.txt"]);
    let mut browser = open_at_root(&tree);
    assert_eq!(browser.delegate.filtered_entries.len(), 3);

    browser.delegate.update_matches("ban");
    assert_eq!(names(&browser.delegate), vec!["banana.txt"]);

    browser.delegate.update_matches("");
    assert_eq!(browser.delegate.filtered_entries.len(), 3);
}

#[test]
fn test_directories_sorted_before_files() {
    let tree = tree_of(&["aaa_file.txt", "zzz_dir/", "zzz_dir/nested.txt", "bbb_file.txt"]);
    let browser = open_at_root(&tree);
    assert_eq!(
        names(&browser.delegate),
        vec!["zzz_dir", "aaa_file.txt", "bbb_file.txt"]
    );
}

#[test]
fn test_empty_directory() {
    let tree = tree_of(&["empty_dir/"]);
    let mut browser = open_at_root(&tree);
    browser.delegate.set_selected_index(0);
    browser.delegate.confirm(false, Some(&tree));
    assert_eq!(names(&browser.delegate), vec![".."]);
}

#[test]
fn test_case_insensitive_search() {
    let tree = tree_of(&["MyFile.txt", "another.txt"]);
    let mut browser = open_at_root(&tree);
    browser.delegate.update_matches("myfile");
    assert_eq!(names(&browser.delegate), vec!["MyFile.txt"]);
}

#[test]
fn upper_case_query_matches_lower_case_name() {
    let tree = tree_of(&["myfile.txt", "another.txt"]);
    let mut browser = open_at_root(&tree);
    browser.delegate.update_matches("MYFILE");
    assert_eq!(names(&browser.delegate), vec!["myfile.txt"]);
}

#[test]
fn hidden_entries_listed_only_when_shown() {
    let tree = tree_of(&[".git/", ".env", "src/", "main.rs", "src/.keep"]);
    let mut browser = open_at_root(&tree);
    assert_eq!(names(&browser.delegate), vec!["src", "main.rs"]);
    browser.handle_toggle_show_hidden(Some(&tree));
    assert_eq!(names(&browser.delegate), vec![".git", "src", ".env", "main.rs"]);
}

#[test]
fn parent_marker_heads_non_root_listing_only() {
    let tree = tree_of(&["a/", "a/b/", "a/b/c.txt", "a/z.txt", "top.txt"]);
    let root = open_at_root(&tree);
    assert!(root.delegate.separators_after_indices().is_empty());
    assert!(names(&root.delegate).iter().all(|n| n != ".."));

    let location = BrowseLocation {
        worktree_id: 1,
        current_path: rel("a"),
        initial_selected_path: None,
    };
    let inner = DirectoryBrowser::new(location, None, Some(&tree));
    assert_eq!(names(&inner.delegate), vec!["..", "b", "z.txt"]);
    assert_eq!(inner.delegate.separators_after_indices(), vec![0]);
    assert_eq!(
        names(&inner.delegate).iter().filter(|n| n.as_str() == "..").count(),
        1
    );
}

#[test]
fn listing_sorts_each_group_by_path() {
    let tree = tree_of(&["b.txt", "Z/", "a.txt", "y/", "B.txt", "x/"]);
    let browser = open_at_root(&tree);
    assert_eq!(
        names(&browser.delegate),
        vec!["Z", "x", "y", "B.txt", "a.txt", "b.txt"]
    );
}

#[test]
fn same_query_twice_and_clearing() {
    let tree = tree_of(&["alpha.rs", "beta.rs", "gamma.txt", "delta.rs"]);
    let mut browser = open_at_root(&tree);
    browser.delegate.update_matches("rs");
    let once = names(&browser.delegate);
    browser.delegate.update_matches("rs");
    assert_eq!(names(&browser.delegate), once);
    assert_eq!(once, vec!["alpha.rs", "beta.rs", "delta.rs"]);
    browser.delegate.update_matches("");
    assert_eq!(names(&browser.delegate), all_names(&browser.delegate));
}

#[test]
fn enter_and_leave_restores_listing() {
    let tree = tree_of(&["docs/", "src/", "src/lib.rs", "Cargo.toml"]);
    let mut browser = open_at_root(&tree);
    let before = names(&browser.delegate);
    browser.delegate.set_selected_index(1);
    assert!(matches!(
        browser.delegate.confirm(false, Some(&tree)),
        BrowseAction::Navigated
    ));
    assert_eq!(names(&browser.delegate), vec!["..", "lib.rs"]);
    browser.delegate.set_selected_index(0);
    assert!(matches!(
        browser.delegate.confirm(false, Some(&tree)),
        BrowseAction::Navigated
    ));
    assert_eq!(names(&browser.delegate), before);
    assert!(browser.delegate.current_path.is_empty());
}

#[test]
fn selection_clamped_after_filter() {
    let tree = tree_of(&["apple.txt", "banana.txt", "cherry.txt"]);
    let mut browser = open_at_root(&tree);
    browser.delegate.set_selected_index(2);
    browser.delegate.update_matches("an");
    assert_eq!(names(&browser.delegate), vec!["banana.txt"]);
    assert_eq!(browser.delegate.selected_index(), 0);

    browser.delegate.update_matches("");
    browser.delegate.set_selected_index(2);
    browser.delegate.update_matches("e");
    assert_eq!(names(&browser.delegate), vec!["apple.txt", "cherry.txt"]);
    assert_eq!(browser.delegate.selected_index(), 1);

    browser.delegate.update_matches("nothing here");
    assert_eq!(browser.delegate.match_count(), 0);
    assert_eq!(browser.delegate.selected_index(), 0);
}

#[test]
fn selection_kept_when_in_bounds() {
    let tree = tree_of(&["apple.txt", "banana.txt", "cherry.txt"]);
    let mut browser = open_at_root(&tree);
    browser.delegate.set_selected_index(1);
    browser.delegate.update_matches("a");
    assert_eq!(names(&browser.delegate), vec!["apple.txt", "banana.txt"]);
    assert_eq!(browser.delegate.selected_index(), 1);
}

#[test]
fn initial_selection_by_file_name() {
    let tree = tree_of(&["src/", "src/a.rs", "src/b.rs", "src/c.rs"]);
    let active = ProjectPath { worktree_id: 7, path: rel("src/b.rs") };
    let location = DirectoryBrowser::open(Some(Some(active)), Some(1)).unwrap();
    assert_eq!(location.worktree_id, 7);
    assert_eq!(location.initial_selected_path.as_deref(), Some("b.rs"));
    let mut browser = DirectoryBrowser::new(location, Some(3), Some(&tree));
    assert_eq!(names(&browser.delegate), vec!["..", "a.rs", "b.rs", "c.rs"]);
    assert_eq!(browser.delegate.selected_index(), 2);
    assert!(browser.delegate.initial_selected_path.is_none());
    // The hint is spent: loading again puts the cursor on the first row.
    browser.handle_toggle_show_hidden(Some(&tree));
    assert_eq!(browser.delegate.selected_index(), 0);
}

#[test]
fn open_without_location() {
    assert!(DirectoryBrowser::open(Some(None), Some(1)).is_none());
    assert!(DirectoryBrowser::open(None, None).is_none());
    let at_root = DirectoryBrowser::open(None, Some(4)).unwrap();
    assert_eq!(at_root.worktree_id, 4);
    assert!(at_root.current_path.is_empty());
    assert!(at_root.initial_selected_path.is_none());
}

#[test]
fn tree_not_loaded_lists_nothing() {
    let location = BrowseLocation {
        worktree_id: 1,
        current_path: rel("src"),
        initial_selected_path: None,
    };
    let browser = DirectoryBrowser::new(location, None, None);
    assert!(browser.delegate.all_entries.is_empty());
    assert!(browser.delegate.filtered_entries.is_empty());
    assert_eq!(browser.delegate.selected_index(), 0);
}

#[test]
fn confirm_file_opens_it() {
    let tree = tree_of(&["notes.md", "todo.md"]);
    let mut browser = open_at_root(&tree);
    browser.delegate.set_selected_index(1);
    match browser.delegate.confirm(true, Some(&tree)) {
        BrowseAction::Open { path, split } => {
            assert_eq!(path.file_name().as_deref(), Some("todo.md"));
            assert!(split);
        }
        _ => panic!("expected a file to open"),
    }
    assert!(browser.delegate.confirmed);
    assert_eq!(names(&browser.delegate), vec!["notes.md", "todo.md"]);
}

#[test]
fn navigation_no_ops() {
    let tree = tree_of(&["f.txt"]);
    let mut browser = open_at_root(&tree);
    assert!(!browser.handle_navigate_to_parent(Some(&tree)));
    let file_row = browser.delegate.filtered_entries[0].duplicate();
    assert!(!browser.delegate.navigate_to_entry(&file_row, Some(&tree)));
    assert!(browser.delegate.current_path.is_empty());
    browser.delegate.update_matches("zzz");
    assert!(matches!(
        browser.delegate.confirm(false, Some(&tree)),
        BrowseAction::Nothing
    ));
}

#[test]
fn preview_and_split_target_files_only() {
    let tree = tree_of(&["dir/", "file.rs"]);
    let mut browser = open_at_root(&tree);
    assert!(browser.delegate.preview_entry_at_index(0).is_none());
    let preview = browser.delegate.selected_index_changed(1).unwrap();
    assert_eq!(preview.file_name().as_deref(), Some("file.rs"));
    assert!(browser.delegate.preview_entry_at_index(5).is_none());
    assert!(browser.go_to_file_split_left().is_none());
    browser.delegate.set_selected_index(1);
    let split = browser.go_to_file_split_down().unwrap();
    assert_eq!(split.path.file_name().as_deref(), Some("file.rs"));
    assert!(matches!(split.direction, SplitDirection::Down));
    let preview = browser.delegate.update_matches("file");
    assert_eq!(preview.unwrap().file_name().as_deref(), Some("file.rs"));
}

#[test]
fn labels_and_placeholder() {
    let tree = tree_of(&["pkg/", "pkg/sub/", "pkg/mod.rs"]);
    let root = open_at_root(&tree);
    assert_eq!(root.delegate.placeholder_text(Some("project")), "Search in project/");
    assert_eq!(root.delegate.display_path(None), ".");
    let location = BrowseLocation {
        worktree_id: 1,
        current_path: rel("pkg"),
        initial_selected_path: None,
    };
    let inner = DirectoryBrowser::new(location, None, Some(&tree));
    assert_eq!(inner.delegate.placeholder_text(Some("project")), "Search in pkg/");
    assert_eq!(inner.delegate.match_label(0).as_deref(), Some("parent directory"));
    assert_eq!(inner.delegate.match_label(1).as_deref(), Some("sub/"));
    assert_eq!(inner.delegate.match_label(2).as_deref(), Some("mod.rs"));
    assert!(inner.delegate.match_label(3).is_none());
}

#[test]
fn dismiss_plan() {
    let tree = tree_of(&["a.txt"]);
    let location = DirectoryBrowser::open(None, Some(1)).unwrap();
    let mut browser = DirectoryBrowser::new(location, Some(10), Some(&tree));
    let plan = browser.delegate.dismissed(true, Some(11));
    assert_eq!(plan.close_item, Some(11));
    assert_eq!(plan.restore_item, Some(10));
    let plan = browser.delegate.dismissed(true, Some(10));
    assert_eq!(plan.close_item, None);
    assert_eq!(plan.restore_item, Some(10));
    let plan = browser.delegate.dismissed(false, Some(11));
    assert_eq!(plan.close_item, None);
    assert_eq!(plan.restore_item, None);
    browser.delegate.confirm(false, Some(&tree));
    let plan = browser.delegate.dismissed(true, Some(11));
    assert_eq!(plan.close_item, None);
    assert_eq!(plan.restore_item, None);
}

#[test]
fn dismiss_waits_for_menus() {
    let tree = tree_of(&["a.txt"]);
    let browser = open_at_root(&tree);
    assert!(browser.on_before_dismiss(false, false));
    assert!(!browser.on_before_dismiss(true, false));
    assert!(!browser.on_before_dismiss(false, true));
}
