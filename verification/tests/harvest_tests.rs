use work::harvest::{filter_history, make_record, trim_str, RawCommit};
use work::identity::Identity;

fn raw(time: i64, parents: usize, email: &str, summary: &str) -> RawCommit {
    RawCommit {
        time,
        id: format!("{:040}", time.unsigned_abs()),
        summary: Some(summary.to_string()),
        parent_count: parents,
        author_name: Some("Author".to_string()),
        author_email: Some(email.to_string()),
    }
}

fn nobody() -> Identity {
    Identity { name: None, email: None }
}

fn me() -> Identity {
    Identity { name: Some("Me".to_string()), email: Some("me@example.com".to_string()) }
}

#[test]
fn keeps_commits_inside_the_window() {
    let infos = vec![
        raw(100, 1, "me@example.com", "newest"),
        raw(90, 1, "me@example.com", "older"),
        raw(80, 1, "me@example.com", "oldest kept"),
    ];
    let got = filter_history(&infos, 80, None, &nobody(), false, false);
    assert_eq!(got.len(), 3);
}

#[test]
fn stops_at_the_first_commit_before_since() {
    // The walk is time-descending; the first commit older than `since`
    // ends the walk, even if a qualifying one were to follow.
    let infos = vec![
        raw(100, 1, "me@example.com", "kept"),
        raw(50, 1, "me@example.com", "too old, stops the walk"),
        raw(120, 1, "me@example.com", "never reached"),
    ];
    let got = filter_history(&infos, 80, None, &nobody(), false, false);
    assert_eq!(got.len(), 1);
    assert_eq!(got[0].time, 100);
}

#[test]
fn upper_bound_skips_without_stopping() {
    let infos = vec![
        raw(200, 1, "me@example.com", "beyond until"),
        raw(150, 1, "me@example.com", "inside"),
        raw(120, 1, "me@example.com", "inside too"),
    ];
    let got = filter_history(&infos, 100, Some(160), &nobody(), false, false);
    assert_eq!(got.len(), 2);
    assert_eq!(got[0].time, 150);
    assert_eq!(got[1].time, 120);
}

#[test]
fn merge_commits_are_excluded_by_default_and_included_on_request() {
    let infos = vec![
        raw(100, 2, "me@example.com", "a merge"),
        raw(90, 1, "me@example.com", "ordinary"),
    ];
    let without = filter_history(&infos, 0, None, &nobody(), false, false);
    assert_eq!(without.len(), 1);
    assert_eq!(without[0].time, 90);

    let with = filter_history(&infos, 0, None, &nobody(), false, true);
    assert_eq!(with.len(), 2);
}

#[test]
fn identity_filter_excludes_other_authors_unless_all_is_set() {
    let infos = vec![
        raw(100, 1, "other@example.com", "not mine"),
        raw(90, 1, "ME@EXAMPLE.COM", "mine, case-folded"),
    ];
    let mine = filter_history(&infos, 0, None, &me(), false, false);
    assert_eq!(mine.len(), 1);
    assert_eq!(mine[0].time, 90);

    let all = filter_history(&infos, 0, None, &me(), true, false);
    assert_eq!(all.len(), 2);
}

#[test]
fn trim_removes_surrounding_whitespace_only() {
    assert_eq!(trim_str("  hello world \t\n"), "hello world");
    assert_eq!(trim_str("unchanged"), "unchanged");
    assert_eq!(trim_str(" \t "), "");
    assert_eq!(trim_str(""), "");
    assert_eq!(trim_str("inner  spaces kept"), "inner  spaces kept");
}

#[test]
fn make_record_trims_and_substitutes_the_placeholder() {
    let with_msg = raw(10, 1, "me@example.com", "  fix the thing  ");
    let rec = make_record(&"repo".to_string(), &with_msg, 3, 1);
    assert_eq!(rec.summary, "fix the thing");
    assert_eq!(rec.repo, "repo");
    assert_eq!(rec.insertions, 3);
    assert_eq!(rec.deletions, 1);

    let mut without_msg = raw(10, 1, "me@example.com", "ignored");
    without_msg.summary = None;
    let rec = make_record(&"repo".to_string(), &without_msg, 0, 0);
    assert_eq!(rec.summary, "(no message)");
}
