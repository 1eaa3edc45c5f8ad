use directory_browser::{parse_query, CandidateInfo, OpenPathDelegate, PathStyle};

/// A fake filesystem: absolute paths, a directory's ending in `/`.
struct FakeFs {
    paths: Vec<&'static str>,
}

impl FakeFs {
    fn new(paths: &[&'static str]) -> FakeFs {
        FakeFs { paths: paths.to_vec() }
    }

    /// The children of the directory as typed (either separator, an optional
    /// drive), in alphabetical order; `None` when there is no such directory.
    fn read_directory(&self, typed: &str) -> Option<Vec<CandidateInfo>> {
        let mut dir = typed.replace('\\', "/");
        if dir.len() >= 2 && dir.as_bytes()[1] == b':' {
            dir = dir[2..].to_string();
        }
        if dir.is_empty() {
            return None;
        }
        if !dir.ends_with('/') {
            dir.push('/');
        }
        if dir != "/" && !self.paths.contains(&dir.as_str()) {
            return None;
        }
        let mut children: Vec<CandidateInfo> = Vec::new();
        for p in &self.paths {
            if let Some(rest) = p.strip_prefix(dir.as_str()) {
                let name = rest.trim_end_matches('/');
                if !name.is_empty() && !name.contains('/') {
                    children.push(CandidateInfo { name: name.to_string(), is_dir: rest.ends_with('/') });
                }
            }
        }
        children.sort_by(|a, b| a.name.cmp(&b.name));
        Some(children)
    }
}

fn insert_query(query: &str, delegate: &mut OpenPathDelegate, fs: &FakeFs) {
    let read = delegate.update_matches(query);
    let listing = fs.read_directory(&read.directory);
    assert!(delegate.apply_listing(read.generation, listing));
}

fn confirm_completion(query: &str, select: usize, delegate: &mut OpenPathDelegate) -> Option<String> {
    if delegate.selected_index() != select {
        delegate.set_selected_index(select);
    }
    delegate.confirm_completion(query)
}

fn collect_match_candidates(delegate: &OpenPathDelegate) -> Vec<String> {
    delegate.collect_match_candidates()
}

fn root_fs() -> FakeFs {
    FakeFs::new(&[
        "/root/",
        "/root/a1",
        "/root/a2",
        "/root/a3",
        "/root/dir1/",
        "/root/dir2/",
        "/root/dir2/c",
        "/root/dir2/d1",
        "/root/dir2/d2",
        "/root/dir2/d3",
        "/root/dir2/dir3/",
        "/root/dir2/dir4/",
    ])
}

fn completion_fs() -> FakeFs {
    FakeFs::new(&[
        "/root/",
        "/root/a",
        "/root/dir1/",
        "/root/dir2/",
        "/root/dir2/c",
        "/root/dir2/d",
        "/root/dir2/dir3/",
        "/root/dir2/dir4/",
    ])
}

fn small_fs() -> FakeFs {
    FakeFs::new(&["/root/", "/root/a", "/root/dir1/", "/root/dir2/"])
}

#[test]
fn test_open_path_prompt() {
    let fs = root_fs();
    let mut d = OpenPathDelegate::new(false, PathStyle::Posix);

    insert_query("sadjaoislkdjasldj", &mut d, &fs);
    assert_eq!(collect_match_candidates(&d), Vec::<String>::new());

    insert_query("/root", &mut d, &fs);
    assert_eq!(collect_match_candidates(&d), vec!["root"]);

    // If the query ends with a slash, the picker should show the contents of the directory.
    insert_query("/root/", &mut d, &fs);
    assert_eq!(
        collect_match_candidates(&d),
        vec!["./", "a1", "a2", "a3", "dir1", "dir2"]
    );

    insert_query("/root/a", &mut d, &fs);
    assert_eq!(collect_match_candidates(&d), vec!["a1", "a2", "a3"]);

    insert_query("/root/d", &mut d, &fs);
    assert_eq!(collect_match_candidates(&d), vec!["dir1", "dir2"]);

    insert_query("/root/dir2", &mut d, &fs);
    assert_eq!(collect_match_candidates(&d), vec!["dir2"]);

    insert_query("/root/dir2/", &mut d, &fs);
    assert_eq!(
        collect_match_candidates(&d),
        vec!["./", "c", "d1", "d2", "d3", "dir3", "dir4"]
    );

    insert_query("/root/dir2/d", &mut d, &fs);
    assert_eq!(
        collect_match_candidates(&d),
        vec!["d1", "d2", "d3", "dir3", "dir4"]
    );

    insert_query("/root/dir2/di", &mut d, &fs);
    assert_eq!(collect_match_candidates(&d), vec!["dir3", "dir4"]);
}

#[test]
fn test_open_path_prompt_completion() {
    let fs = completion_fs();
    let mut d = OpenPathDelegate::new(false, PathStyle::Posix);

    let query = "/root";
    insert_query(query, &mut d, &fs);
    assert_eq!(confirm_completion(query, 0, &mut d).unwrap(), "/root/");

    let query = "/root/";
    insert_query(query, &mut d, &fs);
    assert_eq!(
        confirm_completion(query, 0, &mut d),
        None,
        "First entry is `./` and when we confirm completion, it is tabbed below"
    );
    assert_eq!(
        confirm_completion(query, 1, &mut d).unwrap(),
        "/root/a",
        "Second entry is the first entry of a directory that we want to be completed"
    );

    let query = "/root/";
    insert_query(query, &mut d, &fs);
    assert_eq!(confirm_completion(query, 2, &mut d).unwrap(), "/root/dir1/");

    let query = "/root/a";
    insert_query(query, &mut d, &fs);
    assert_eq!(confirm_completion(query, 0, &mut d).unwrap(), "/root/a");

    let query = "/root/d";
    insert_query(query, &mut d, &fs);
    assert_eq!(confirm_completion(query, 1, &mut d).unwrap(), "/root/dir2/");

    let query = "/root/dir2";
    insert_query(query, &mut d, &fs);
    assert_eq!(confirm_completion(query, 0, &mut d).unwrap(), "/root/dir2/");

    let query = "/root/dir2/";
    insert_query(query, &mut d, &fs);
    assert_eq!(confirm_completion(query, 1, &mut d).unwrap(), "/root/dir2/c");

    let query = "/root/dir2/";
    insert_query(query, &mut d, &fs);
    assert_eq!(confirm_completion(query, 3, &mut d).unwrap(), "/root/dir2/dir3/");

    let query = "/root/dir2/d";
    insert_query(query, &mut d, &fs);
    assert_eq!(confirm_completion(query, 0, &mut d).unwrap(), "/root/dir2/d");

    let query = "/root/dir2/d";
    insert_query(query, &mut d, &fs);
    assert_eq!(confirm_completion(query, 1, &mut d).unwrap(), "/root/dir2/dir3/");

    let query = "/root/dir2/di";
    insert_query(query, &mut d, &fs);
    assert_eq!(confirm_completion(query, 1, &mut d).unwrap(), "/root/dir2/dir4/");
}

#[test]
fn test_open_path_prompt_on_windows() {
    let fs = small_fs();
    let mut d = OpenPathDelegate::new(false, PathStyle::Windows);

    // Support both forward and backward slashes.
    let query = "C:/root/";
    insert_query(query, &mut d, &fs);
    assert_eq!(collect_match_candidates(&d), vec![".\\", "a", "dir1", "dir2"]);
    assert_eq!(
        confirm_completion(query, 0, &mut d),
        None,
        "First entry is `.\\` and when we confirm completion, it is tabbed below"
    );
    assert_eq!(
        confirm_completion(query, 1, &mut d).unwrap(),
        "C:/root/a",
        "Second entry is the first entry of a directory that we want to be completed"
    );

    let query = "C:\\root/";
    insert_query(query, &mut d, &fs);
    assert_eq!(collect_match_candidates(&d), vec![".\\", "a", "dir1", "dir2"]);
    assert_eq!(confirm_completion(query, 1, &mut d).unwrap(), "C:\\root/a");

    let query = "C:\\root\\";
    insert_query(query, &mut d, &fs);
    assert_eq!(collect_match_candidates(&d), vec![".\\", "a", "dir1", "dir2"]);
    assert_eq!(confirm_completion(query, 1, &mut d).unwrap(), "C:\\root\\a");

    let query = "C:/root/d";
    insert_query(query, &mut d, &fs);
    assert_eq!(collect_match_candidates(&d), vec!["dir1", "dir2"]);
    assert_eq!(confirm_completion(query, 1, &mut d).unwrap(), "C:/root/dir2\\");

    let query = "C:\\root/d";
    insert_query(query, &mut d, &fs);
    assert_eq!(collect_match_candidates(&d), vec!["dir1", "dir2"]);
    assert_eq!(confirm_completion(query, 0, &mut d).unwrap(), "C:\\root/dir1\\");

    let query = "C:\\root\\d";
    insert_query(query, &mut d, &fs);
    assert_eq!(collect_match_candidates(&d), vec!["dir1", "dir2"]);
    assert_eq!(confirm_completion(query, 0, &mut d).unwrap(), "C:\\root\\dir1\\");
}

#[test]
fn test_open_path_prompt_on_windows_with_remote() {
    let fs = small_fs();
    let mut d = OpenPathDelegate::new(false, PathStyle::Posix);

    let query = "/root/";
    insert_query(query, &mut d, &fs);
    assert_eq!(collect_match_candidates(&d), vec!["./", "a", "dir1", "dir2"]);
    assert_eq!(confirm_completion(query, 1, &mut d).unwrap(), "/root/a");

    let query = "/root/d";
    insert_query(query, &mut d, &fs);
    assert_eq!(collect_match_candidates(&d), vec!["dir1", "dir2"]);
    assert_eq!(confirm_completion(query, 1, &mut d).unwrap(), "/root/dir2/");

    let query = "/root/d";
    insert_query(query, &mut d, &fs);
    assert_eq!(collect_match_candidates(&d), vec!["dir1", "dir2"]);
    assert_eq!(confirm_completion(query, 0, &mut d).unwrap(), "/root/dir1/");
}

#[test]
fn test_new_path_prompt() {
    let fs = root_fs();
    let mut d = OpenPathDelegate::new(true, PathStyle::Posix);

    insert_query("/root", &mut d, &fs);
    assert_eq!(collect_match_candidates(&d), vec!["root"]);

    insert_query("/root/d", &mut d, &fs);
    assert_eq!(collect_match_candidates(&d), vec!["d", "dir1", "dir2"]);

    insert_query("/root/dir1", &mut d, &fs);
    assert_eq!(collect_match_candidates(&d), vec!["dir1"]);

    insert_query("/root/dir12", &mut d, &fs);
    assert_eq!(collect_match_candidates(&d), vec!["dir12"]);

    insert_query("/root/dir1", &mut d, &fs);
    assert_eq!(collect_match_candidates(&d), vec!["dir1"]);
}

#[test]
fn test_open_path_prompt_with_preselect() {
    let fs = FakeFs::new(&["/root/", "/root/a1", "/root/a2", "/root/a3", "/root/dir1/", "/root/dir2/"]);
    let initial = parse_query("/root/a2", PathStyle::Posix);
    let mut d = OpenPathDelegate::new(false, PathStyle::Posix).with_preselect(initial.partial_name.clone());

    // The query should be the parent directory with trailing separator
    let query = initial.directory_prefix.clone();
    assert!(
        query.ends_with('/') || query.ends_with('\\'),
        "Query should end with separator: {query}"
    );

    insert_query(&query, &mut d, &fs);

    let candidates = collect_match_candidates(&d);
    assert!(candidates.contains(&"a1".to_string()), "Should contain a1: {candidates:?}");
    assert!(candidates.contains(&"a2".to_string()), "Should contain a2: {candidates:?}");

    let selected_index = d.selected_index();
    let selected_candidate = candidates.get(selected_index);
    assert_eq!(
        selected_candidate,
        Some(&"a2".to_string()),
        "Selected should be 'a2', got index {selected_index} which is {selected_candidate:?}"
    );
}

#[test]
fn completion_of_directory_listing() {
    let fs = FakeFs::new(&["/root/", "/root/a1", "/root/a2", "/root/a3", "/root/dir1/", "/root/dir2/"]);
    let mut d = OpenPathDelegate::new(false, PathStyle::Posix);
    insert_query("/root/", &mut d, &fs);
    assert_eq!(
        collect_match_candidates(&d),
        vec!["./", "a1", "a2", "a3", "dir1", "dir2"]
    );
    assert_eq!(confirm_completion("/root/", 1, &mut d).unwrap(), "/root/a1");
    assert_eq!(confirm_completion("/root/", 4, &mut d).unwrap(), "/root/dir1/");
    assert_eq!(confirm_completion("/root/", 0, &mut d), None);
}

#[test]
fn completion_prefix_ignores_case() {
    let fs = FakeFs::new(&["/root/", "/root/Docs/", "/root/data.csv", "/root/notes"]);
    let mut d = OpenPathDelegate::new(false, PathStyle::Posix);
    insert_query("/root/D", &mut d, &fs);
    assert_eq!(collect_match_candidates(&d), vec!["Docs", "data.csv"]);
    insert_query("/root/o", &mut d, &fs);
    assert!(collect_match_candidates(&d).is_empty());
}

#[test]
fn stale_listing_is_dropped() {
    let fs = small_fs();
    let mut d = OpenPathDelegate::new(false, PathStyle::Posix);
    let first = d.update_matches("/root/a");
    let second = d.update_matches("/root/d");
    assert_ne!(first.generation, second.generation);
    assert!(d.apply_listing(second.generation, fs.read_directory(&second.directory)));
    assert_eq!(collect_match_candidates(&d), vec!["dir1", "dir2"]);
    assert!(!d.apply_listing(first.generation, fs.read_directory(&first.directory)));
    assert_eq!(collect_match_candidates(&d), vec!["dir1", "dir2"]);
}

#[test]
fn failed_read_gives_no_candidates() {
    let fs = small_fs();
    let mut d = OpenPathDelegate::new(false, PathStyle::Posix);
    insert_query("/missing/x", &mut d, &fs);
    assert!(collect_match_candidates(&d).is_empty());
    assert_eq!(d.confirm_completion("/missing/x"), None);
    insert_query("/missing/", &mut d, &fs);
    assert_eq!(collect_match_candidates(&d), vec!["./"]);
}

#[test]
fn new_path_literal_is_completed_as_typed() {
    let fs = root_fs();
    let mut d = OpenPathDelegate::new(true, PathStyle::Posix);
    insert_query("/root/dir12", &mut d, &fs);
    assert_eq!(confirm_completion("/root/dir12", 0, &mut d).unwrap(), "/root/dir12");
}

#[test]
fn parse_keeps_typed_parts() {
    let p = parse_query("/root/dir2/d", PathStyle::Posix);
    assert_eq!(p.directory_prefix, "/root/dir2/");
    assert_eq!(p.partial_name, "d");
    assert!(!p.ends_with_separator);
    assert!(p.drive_prefix.is_none());

    let p = parse_query("/root/", PathStyle::Posix);
    assert_eq!(p.directory_prefix, "/root/");
    assert_eq!(p.partial_name, "");
    assert!(p.ends_with_separator);

    let p = parse_query("/root", PathStyle::Posix);
    assert_eq!(p.directory_prefix, "/");
    assert_eq!(p.partial_name, "root");

    let p = parse_query("name", PathStyle::Posix);
    assert_eq!(p.directory_prefix, "");
    assert_eq!(p.partial_name, "name");

    let p = parse_query("a\\b", PathStyle::Posix);
    assert_eq!(p.directory_prefix, "");
    assert_eq!(p.partial_name, "a\\b");

    let p = parse_query("C:\\root/d", PathStyle::Windows);
    assert_eq!(p.directory_prefix, "C:\\root/");
    assert_eq!(p.partial_name, "d");
    assert_eq!(p.drive_prefix.as_deref(), Some("C:"));

    let p = parse_query("c:foo", PathStyle::Windows);
    assert_eq!(p.directory_prefix, "c:");
    assert_eq!(p.partial_name, "foo");
    assert_eq!(p.drive_prefix.as_deref(), Some("c:"));

    let p = parse_query("c:foo", PathStyle::Posix);
    assert_eq!(p.directory_prefix, "");
    assert!(p.drive_prefix.is_none());

    let p = parse_query("", PathStyle::Windows);
    assert_eq!(p.directory_prefix, "");
    assert_eq!(p.partial_name, "");
    assert!(!p.ends_with_separator);
}

#[test]
fn bare_drive_offers_current_directory() {
    let fs = small_fs();
    let mut d = OpenPathDelegate::new(false, PathStyle::Windows);
    insert_query("C:", &mut d, &fs);
    assert_eq!(collect_match_candidates(&d), vec![".\\"]);
    assert_eq!(confirm_completion("C:", 0, &mut d), None);
}
