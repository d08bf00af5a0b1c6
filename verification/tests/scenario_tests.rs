use chrono::Datelike;
use git2::{Commit, Oid, Repository, Signature, Time};
use work::harvest::collect_commits;
use work::identity::Identity;
use work::locator::DirNode;
use work::options::ScanFlags;
use work::scan::{run_scan, WorkError};
use work::timewin::{format_time_local, LocalStamp};

fn default_flags() -> ScanFlags {
    ScanFlags {
        depth: 3,
        days: 7,
        today: false,
        month: false,
        last_month: false,
        limit: 50,
        all: false,
        merges: false,
        raw: false,
    }
}

fn now_stamp() -> LocalStamp {
    let now = chrono::Local::now();
    LocalStamp { ts: now.timestamp(), year: now.year(), month: now.month(), day: now.day() }
}

fn nobody() -> Identity {
    Identity { name: None, email: None }
}

fn me() -> Identity {
    Identity { name: Some("Test User".to_string()), email: Some("test@example.com".to_string()) }
}

fn write_tree(repo: &Repository, content: Option<&str>) -> Oid {
    let mut tb = repo.treebuilder(None).unwrap();
    if let Some(c) = content {
        let blob = repo.blob(c.as_bytes()).unwrap();
        tb.insert("file.txt", blob, 0o100644).unwrap();
    }
    tb.write().unwrap()
}

fn commit_by(
    repo: &Repository,
    msg: &str,
    t: i64,
    name: &str,
    email: &str,
    content: Option<&str>,
    parents: &[&Commit],
    update_head: bool,
) -> Oid {
    let tree = repo.find_tree(write_tree(repo, content)).unwrap();
    let sig = Signature::new(name, email, &Time::new(t, 0)).unwrap();
    let refname = if update_head { Some("HEAD") } else { None };
    repo.commit(refname, &sig, &sig, msg, &tree, parents).unwrap()
}

fn commit_at(
    repo: &Repository,
    msg: &str,
    t: i64,
    email: &str,
    content: Option<&str>,
    parents: &[&Commit],
    update_head: bool,
) -> Oid {
    commit_by(repo, msg, t, "Test User", email, content, parents, update_head)
}

fn repo_node(name: &str) -> DirNode {
    DirNode { name: name.to_string(), has_marker: true, symlink: false, children: vec![] }
}

fn base_tree(repos: Vec<DirNode>) -> DirNode {
    DirNode { name: "base".to_string(), has_marker: false, symlink: false, children: repos }
}

#[test]
fn collects_commits() {
    let tmp = tempfile::tempdir().unwrap();
    let repo = Repository::init(tmp.path().join("a")).unwrap();
    let now = chrono::Local::now().timestamp();
    let c1 = commit_at(&repo, "one", now - 60, "test@example.com", None, &[], true);
    let first = repo.find_commit(c1).unwrap();
    commit_at(&repo, "two", now - 30, "test@example.com", None, &[&first], true);

    let since = now - 7 * 24 * 60 * 60;
    let base = tmp.path().to_str().unwrap().to_string();
    let got = collect_commits(&base, &"a".to_string(), since, None, &nobody(), true, false);
    assert!(got.len() >= 2);
}

#[test]
fn a_repository_without_commits_contributes_nothing() {
    let tmp = tempfile::tempdir().unwrap();
    Repository::init(tmp.path().join("empty")).unwrap();
    let base = tmp.path().to_str().unwrap().to_string();
    let got = collect_commits(&base, &"empty".to_string(), 0, None, &nobody(), true, false);
    assert_eq!(got.len(), 0);
}

#[test]
fn two_repositories_four_commits_most_recent_first() {
    let tmp = tempfile::tempdir().unwrap();
    let now = chrono::Local::now().timestamp();

    let repo_a = Repository::init(tmp.path().join("a")).unwrap();
    let a1 = commit_at(&repo_a, "a first", now - 400, "test@example.com", None, &[], true);
    let a1c = repo_a.find_commit(a1).unwrap();
    commit_at(&repo_a, "a second", now - 200, "test@example.com", None, &[&a1c], true);

    let repo_b = Repository::init(tmp.path().join("b")).unwrap();
    let b1 = commit_at(&repo_b, "b first", now - 300, "test@example.com", None, &[], true);
    let b1c = repo_b.find_commit(b1).unwrap();
    commit_at(&repo_b, "b second", now - 100, "test@example.com", None, &[&b1c], true);

    let base = tmp.path().to_str().unwrap().to_string();
    let tree = base_tree(vec![repo_node("a"), repo_node("b")]);
    let lines = run_scan(&base, &tree, &me(), &now_stamp(), &default_flags()).unwrap();

    assert_eq!(lines.len(), 7);
    assert!(lines[0].contains("b second"));
    assert!(lines[1].contains("a second"));
    assert!(lines[2].contains("b first"));
    assert!(lines[3].contains("a first"));
    assert_eq!(lines[4], "");
    assert_eq!(lines[5], "4 commits shown (last 7 days)");
    assert!(lines[6].starts_with("Total LoC: "));
}

#[test]
fn foreign_commits_need_all_and_the_error_suggests_it() {
    let tmp = tempfile::tempdir().unwrap();
    let now = chrono::Local::now().timestamp();
    let repo = Repository::init(tmp.path().join("a")).unwrap();
    commit_by(&repo, "not mine", now - 100, "A Stranger", "stranger@example.com", None, &[], true);

    let base = tmp.path().to_str().unwrap().to_string();
    let tree = base_tree(vec![repo_node("a")]);

    let filtered = run_scan(&base, &tree, &me(), &now_stamp(), &default_flags());
    match filtered {
        Err(e) => {
            assert_eq!(
                e.message(),
                "No commits found for your identity in the last 7 days (try --all)"
            );
        },
        Ok(_) => panic!("the foreign commit must not match the identity"),
    }

    let mut all_flags = default_flags();
    all_flags.all = true;
    let lines = run_scan(&base, &tree, &me(), &now_stamp(), &all_flags).unwrap();
    assert!(lines[0].contains("not mine"));
    assert_eq!(lines[2], "1 commits shown (last 7 days)");
}

#[test]
fn merge_commits_are_listed_only_on_request() {
    let tmp = tempfile::tempdir().unwrap();
    let now = chrono::Local::now().timestamp();
    let repo = Repository::init(tmp.path().join("a")).unwrap();
    let c1 = commit_at(&repo, "root", now - 400, "test@example.com", None, &[], true);
    let c1c = repo.find_commit(c1).unwrap();
    let side = commit_at(&repo, "side", now - 300, "test@example.com", None, &[&c1c], false);
    let sidec = repo.find_commit(side).unwrap();
    let c2 = commit_at(&repo, "mainline", now - 200, "test@example.com", None, &[&c1c], true);
    let c2c = repo.find_commit(c2).unwrap();
    commit_at(&repo, "the merge", now - 100, "test@example.com", None, &[&c2c, &sidec], true);

    let base = tmp.path().to_str().unwrap().to_string();
    let since = now - 7 * 24 * 60 * 60;

    let without = collect_commits(&base, &"a".to_string(), since, None, &nobody(), true, false);
    assert_eq!(without.len(), 3);
    assert!(without.iter().all(|c| c.summary != "the merge"));

    let with = collect_commits(&base, &"a".to_string(), since, None, &nobody(), true, true);
    assert_eq!(with.len(), 4);
    assert_eq!(with[0].summary, "the merge");
}

#[test]
fn raw_mode_line_is_exact_for_three_insertions_one_deletion() {
    let tmp = tempfile::tempdir().unwrap();
    let now = chrono::Local::now().timestamp();
    let repo = Repository::init(tmp.path().join("proj")).unwrap();
    // The old revision sits outside the window; the new one changes one
    // line into three others: +3 / -1.
    let old_time = now - 9 * 24 * 60 * 60;
    let c1 = commit_at(
        &repo,
        "old",
        old_time,
        "test@example.com",
        Some("a\nb\nc\nd\n"),
        &[],
        true,
    );
    let c1c = repo.find_commit(c1).unwrap();
    let c2 = commit_at(
        &repo,
        "change lines",
        now - 100,
        "test@example.com",
        Some("a\nb\nc\nx\ny\nz\n"),
        &[&c1c],
        true,
    );

    let base = tmp.path().to_str().unwrap().to_string();
    let tree = base_tree(vec![repo_node("proj")]);
    let mut flags = default_flags();
    flags.raw = true;
    flags.all = true;
    let lines = run_scan(&base, &tree, &me(), &now_stamp(), &flags).unwrap();
    assert_eq!(lines.len(), 1);

    let hex = c2.to_string();
    let expected = format!(
        "{}\tproj\t{}\t+3\t-1\tchange lines",
        format_time_local(now - 100),
        &hex[..7]
    );
    assert_eq!(lines[0], expected);
}

#[test]
fn an_empty_window_without_identity_filter_reports_plainly() {
    let tmp = tempfile::tempdir().unwrap();
    let now = chrono::Local::now().timestamp();
    let repo = Repository::init(tmp.path().join("a")).unwrap();
    // The only commit sits outside the seven-day window.
    commit_at(&repo, "ancient", now - 9 * 24 * 60 * 60, "test@example.com", None, &[], true);

    let base = tmp.path().to_str().unwrap().to_string();
    let tree = base_tree(vec![repo_node("a")]);
    let mut flags = default_flags();
    flags.all = true;
    let got = run_scan(&base, &tree, &me(), &now_stamp(), &flags);
    match got {
        Err(e) => assert_eq!(e.message(), "No commits found in the last 7 days"),
        Ok(_) => panic!("nothing lies within the window"),
    }
}

#[test]
fn a_base_without_repositories_is_a_fatal_error() {
    let tree = base_tree(vec![]);
    let base = "/nowhere/in/particular".to_string();
    let got = run_scan(&base, &tree, &nobody(), &now_stamp(), &default_flags());
    match got {
        Err(e) => {
            assert!(matches!(e, WorkError::NoRepos { .. }));
            assert_eq!(e.message(), "No git repos found in /nowhere/in/particular");
        },
        Ok(_) => panic!("an empty tree holds no repositories"),
    }
}

#[test]
fn identical_arguments_give_identical_output() {
    let tmp = tempfile::tempdir().unwrap();
    let now = chrono::Local::now().timestamp();
    let repo = Repository::init(tmp.path().join("a")).unwrap();
    commit_at(&repo, "steady", now - 100, "test@example.com", None, &[], true);

    let base = tmp.path().to_str().unwrap().to_string();
    let tree = base_tree(vec![repo_node("a")]);
    let stamp = now_stamp();
    let mut flags = default_flags();
    flags.all = true;
    let first = run_scan(&base, &tree, &me(), &stamp, &flags).unwrap();
    let second = run_scan(&base, &tree, &me(), &stamp, &flags).unwrap();
    assert_eq!(first, second);
}
