use work::aggregate::aggregate_feed;
use work::harvest::{stats_or_zero, CommitRecord};
use work::scan::{present_feed, WorkError};
use work::numfmt::{i64_to_string, u64_to_string, u64_width};
use work::options::ScanFlags;
use work::present::{
    format_human_line, format_raw_line, render_feed, short_id, summary_window_label,
    window_description,
};

fn rec(repo: &str, time: i64, id: &str, summary: &str, ins: usize, del: usize) -> CommitRecord {
    CommitRecord {
        repo: repo.to_string(),
        time,
        id: id.to_string(),
        summary: summary.to_string(),
        insertions: ins,
        deletions: del,
    }
}

fn flags(raw: bool) -> ScanFlags {
    ScanFlags {
        depth: 3,
        days: 7,
        today: false,
        month: false,
        last_month: false,
        limit: 50,
        all: false,
        merges: false,
        raw,
    }
}

#[test]
fn renders_decimal_numbers_exactly() {
    assert_eq!(u64_to_string(0), "0");
    assert_eq!(u64_to_string(7), "7");
    assert_eq!(u64_to_string(40302), "40302");
    assert_eq!(u64_to_string(u64::MAX), "18446744073709551615");
    assert_eq!(i64_to_string(-12), "-12");
    assert_eq!(i64_to_string(0), "0");
    assert_eq!(i64_to_string(i64::MIN), "-9223372036854775808");
    assert_eq!(u64_width(0), 1);
    assert_eq!(u64_width(99), 2);
    assert_eq!(u64_width(100), 3);
}

#[test]
fn short_id_takes_at_most_seven_characters() {
    assert_eq!(short_id(&"0123456789abcdef".to_string()), "0123456");
    assert_eq!(short_id(&"abc".to_string()), "abc");
    assert_eq!(short_id(&"1234567".to_string()), "1234567");
}

#[test]
fn raw_line_is_tab_separated_with_signed_counts() {
    let r = rec("proj", 0, "0123456789abcdef0123456789abcdef01234567", "fix parser", 3, 1);
    let line = format_raw_line(&"2026-01-02 03:04".to_string(), &r);
    assert_eq!(line, "2026-01-02 03:04\tproj\t0123456\t+3\t-1\tfix parser");
}

#[test]
fn human_line_pads_and_colours_the_columns() {
    let r = rec("proj", 0, "0123456789abcdef", "fix parser", 3, 12);
    let line = format_human_line(&"2026-01-02 03:04".to_string(), &r, 6, 3, 3);
    assert_eq!(
        line,
        "2026-01-02 03:04  \u{1b}[1mproj  \u{1b}[0m  \u{1b}[2m0123456\u{1b}[0m  \u{1b}[32m +3\u{1b}[0m \u{1b}[31m-12\u{1b}[0m  fix parser"
    );
}

#[test]
fn window_labels_are_exact() {
    let mut f = flags(false);
    assert_eq!(window_description(&f), "the last 7 days");
    assert_eq!(summary_window_label(&f), "last 7 days");
    f.today = true;
    assert_eq!(window_description(&f), "today");
    assert_eq!(summary_window_label(&f), "today");
    f.today = false;
    f.month = true;
    assert_eq!(window_description(&f), "this month");
    f.month = false;
    f.last_month = true;
    assert_eq!(window_description(&f), "last month");
    assert_eq!(summary_window_label(&f), "last month");
}

#[test]
fn aggregation_sorts_descending_truncates_and_totals_displayed_only() {
    let commits = vec![
        rec("a", 10, "aaaa", "oldest", 1, 1),
        rec("b", 30, "bbbb", "newest", 2, 3),
        rec("c", 20, "cccc", "middle", 4, 5),
    ];
    let (feed, ins, del) = aggregate_feed(commits, 2);
    assert_eq!(feed.len(), 2);
    assert_eq!(feed[0].time, 30);
    assert_eq!(feed[1].time, 20);
    // Totals cover the two displayed commits only, not the truncated one.
    assert_eq!(ins, 6);
    assert_eq!(del, 8);
}

#[test]
fn equal_timestamps_keep_their_arrival_order() {
    let commits = vec![
        rec("first", 10, "aaaa", "one", 0, 0),
        rec("second", 10, "bbbb", "two", 0, 0),
        rec("third", 11, "cccc", "three", 0, 0),
    ];
    let (feed, _, _) = aggregate_feed(commits, 50);
    assert_eq!(feed[0].repo, "third");
    assert_eq!(feed[1].repo, "first");
    assert_eq!(feed[2].repo, "second");
}

#[test]
fn raw_mode_has_no_trailing_summary() {
    let feed = vec![rec("a", 10, "aaaa", "only", 1, 2)];
    let times = vec!["t".to_string()];
    let lines = render_feed(&feed, &times, &flags(true), 1, 2);
    assert_eq!(lines.len(), 1);
    assert_eq!(lines[0], "t\ta\taaaa\t+1\t-2\tonly");
}

#[test]
fn human_mode_appends_count_and_totals_lines() {
    let feed = vec![rec("a", 10, "aaaa", "only", 1, 2)];
    let times = vec!["t".to_string()];
    let lines = render_feed(&feed, &times, &flags(false), 1, 2);
    assert_eq!(lines.len(), 4);
    assert_eq!(lines[1], "");
    assert_eq!(lines[2], "1 commits shown (last 7 days)");
    assert_eq!(lines[3], "Total LoC: \u{1b}[32m+1\u{1b}[0m \u{1b}[31m-2\u{1b}[0m");
}

#[test]
fn presenting_an_empty_harvest_is_the_no_commits_error() {
    let got = present_feed(vec![], &flags(false));
    match got {
        Err(e) => {
            assert!(matches!(e, WorkError::NoCommits { .. }));
            assert_eq!(
                e.message(),
                "No commits found for your identity in the last 7 days (try --all)"
            );
        },
        Ok(_) => panic!("an empty harvest must not render"),
    }
}

#[test]
fn presenting_a_harvest_renders_feed_and_summary() {
    let commits = vec![
        rec("a", 10, "aaaa", "older", 1, 1),
        rec("b", 30, "bbbb", "newer", 2, 3),
    ];
    let lines = present_feed(commits, &flags(true)).unwrap();
    assert_eq!(lines.len(), 2);
    assert!(lines[0].ends_with("\tb\tbbbb\t+2\t-3\tnewer"));
    assert!(lines[1].ends_with("\ta\taaaa\t+1\t-1\tolder"));
}

#[test]
fn failed_diffs_degrade_to_zero_counts() {
    assert_eq!(stats_or_zero(Some((3, 1))), (3, 1));
    assert_eq!(stats_or_zero(None), (0, 0));
}
