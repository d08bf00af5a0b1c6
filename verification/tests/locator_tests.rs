use work::locator::{collect_repos, find_repos, join_path, sort_paths, DirNode};

fn dir(name: &str, has_marker: bool, children: Vec<DirNode>) -> DirNode {
    DirNode { name: name.to_string(), has_marker, symlink: false, children }
}

fn symlink_dir(name: &str, has_marker: bool, children: Vec<DirNode>) -> DirNode {
    DirNode { name: name.to_string(), has_marker, symlink: true, children }
}

/// The tree of the original layout: a repository at "a" and one at
/// "deep/nested/b".
fn sample_tree() -> DirNode {
    dir(
        "base",
        false,
        vec![
            dir("a", true, vec![]),
            dir("deep", false, vec![dir("nested", false, vec![dir("b", true, vec![])])]),
        ],
    )
}

#[test]
fn finds_repos_respects_depth() {
    let tree = sample_tree();
    assert_eq!(find_repos(&tree, 1).len(), 1);
    assert_eq!(find_repos(&tree, 3).len(), 2);
}

#[test]
fn reports_relative_paths_in_sorted_order() {
    let tree = dir(
        "base",
        false,
        vec![
            dir("zeta", true, vec![]),
            dir("alpha", true, vec![]),
            dir("mid", false, vec![dir("inner", true, vec![])]),
        ],
    );
    let repos = find_repos(&tree, 3);
    assert_eq!(repos, vec!["alpha".to_string(), "mid/inner".to_string(), "zeta".to_string()]);
}

#[test]
fn base_itself_can_be_a_repository() {
    let tree = dir("base", true, vec![dir("sub", true, vec![])]);
    // A marked directory is reported as itself alone: no descent.
    let repos = find_repos(&tree, 5);
    assert_eq!(repos, vec!["".to_string()]);
}

#[test]
fn never_descends_past_a_found_repository_root() {
    let tree = dir(
        "base",
        false,
        vec![dir("outer", true, vec![dir("nested_repo", true, vec![])])],
    );
    let repos = find_repos(&tree, 10);
    assert_eq!(repos, vec!["outer".to_string()]);
}

#[test]
fn never_follows_symlinked_directories() {
    let tree = dir(
        "base",
        false,
        vec![
            symlink_dir("link", false, vec![dir("hidden", true, vec![])]),
            symlink_dir("link_repo", true, vec![]),
            dir("real", true, vec![]),
        ],
    );
    let repos = find_repos(&tree, 10);
    assert_eq!(repos, vec!["real".to_string()]);
}

#[test]
fn depth_zero_reports_only_a_marked_base() {
    let plain = dir("base", false, vec![dir("a", true, vec![])]);
    assert_eq!(find_repos(&plain, 0).len(), 0);
    let marked = dir("base", true, vec![]);
    assert_eq!(find_repos(&marked, 0), vec!["".to_string()]);
}

#[test]
fn collect_repos_appends_in_tree_order() {
    let tree = sample_tree();
    let mut repos: Vec<String> = vec!["seed".to_string()];
    collect_repos(&tree, 3, &String::new(), &mut repos);
    assert_eq!(
        repos,
        vec!["seed".to_string(), "a".to_string(), "deep/nested/b".to_string()]
    );
}

#[test]
fn join_path_inserts_one_separator() {
    assert_eq!(join_path(&"".to_string(), &"a".to_string()), "a");
    assert_eq!(join_path(&"deep/nested".to_string(), &"b".to_string()), "deep/nested/b");
}

#[test]
fn sort_paths_is_lexicographic_and_stable_on_duplicates() {
    let mut v = vec![
        "b".to_string(),
        "a/c".to_string(),
        "a".to_string(),
        "a/c".to_string(),
    ];
    sort_paths(&mut v);
    assert_eq!(
        v,
        vec!["a".to_string(), "a/c".to_string(), "a/c".to_string(), "b".to_string()]
    );
}

#[test]
fn two_walks_of_one_tree_agree() {
    let tree = sample_tree();
    assert_eq!(find_repos(&tree, 3), find_repos(&tree, 3));
}
