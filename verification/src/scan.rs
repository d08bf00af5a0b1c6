//! One whole run over a scanned tree: locate the repositories, resolve
//! the time window, harvest every repository in parallel, aggregate, and
//! render — or fail with the one user-visible error the situation calls
//! for.

use vstd::prelude::*;
use vstd::string::StringExecFns;
use crate::aggregate::{aggregate_feed, harvest_all, spec_feed, spec_total_del, spec_total_ins};
use crate::harvest::{opt_int, record_in_window, CommitRecord, RecView};
use crate::identity::Identity;
use crate::locator::{find_repos, spec_repos_in, DirNode};
use crate::options::{day_mode, ScanFlags};
use crate::present::{
    render_feed, spec_render, spec_window_description, texts_view, window_description,
};
use crate::numfmt::spec_idec;
use crate::timewin::{
    format_time_local, since_timestamp, spec_days_since, spec_time_error_message, LocalStamp,
    TimeError,
};

verus! {

broadcast use {
    vstd::std_specs::vec::group_vec_axioms,
    vstd::seq_lib::group_to_multiset_ensures,
};

/// A fatal error of the run: no repositories under the base, no commit
/// surviving the filters, or an unresolvable local time.
#[derive(Debug)]
pub enum WorkError {
    NoRepos { base: String },
    NoCommits { all: bool, window: String },
    Time { err: TimeError },
}

impl WorkError {
    /// The user-visible message, exactly as the run reports it.
    pub fn message(&self) -> (r: String)
        ensures
            self matches WorkError::NoRepos { base } ==> r@ == "No git repos found in "@ + base@,
            self matches WorkError::NoCommits { all, window } ==> r@ == (if *all {
                "No commits found in "@ + window@
            } else {
                "No commits found for your identity in "@ + window@ + " (try --all)"@
            }),
            self matches WorkError::Time { err } ==> r@ == spec_time_error_message(*err),
    {
        match self {
            WorkError::NoRepos { base } => {
                let mut s = String::from_str("No git repos found in ");
                s.append(base.as_str());
                proof {
                    reveal_strlit("No git repos found in ");
                    assert(s@ =~= "No git repos found in "@ + base@);
                }
                s
            },
            WorkError::NoCommits { all, window } => {
                if *all {
                    let mut s = String::from_str("No commits found in ");
                    s.append(window.as_str());
                    proof {
                        reveal_strlit("No commits found in ");
                        assert(s@ =~= "No commits found in "@ + window@);
                    }
                    s
                } else {
                    let mut s = String::from_str("No commits found for your identity in ");
                    s.append(window.as_str());
                    s.append(" (try --all)");
                    proof {
                        reveal_strlit("No commits found for your identity in ");
                        reveal_strlit(" (try --all)");
                        assert(s@ =~= "No commits found for your identity in "@ + window@
                            + " (try --all)"@);
                    }
                    s
                }
            },
            WorkError::Time { err } => err.message(),
        }
    }
}

/// What the presenter makes of a harvest: the lines are the exact
/// rendering of the aggregated (sorted, truncated) feed with the totals
/// of the displayed subset, and each time column entry is either the
/// calendar rendering (at least 16 characters) or exactly the decimal
/// timestamp of its commit.
pub open spec fn spec_presented(
    commits: Seq<RecView>,
    flags: ScanFlags,
    times: Seq<Seq<char>>,
    lines: Seq<String>,
) -> bool {
    let feed = spec_feed(commits, flags.limit as int);
    &&& times.len() == feed.len()
    &&& (forall|k: int|
        0 <= k < times.len() ==> (#[trigger] times[k]).len() >= 16 || times[k] == spec_idec(
            feed[k].time,
        ))
    &&& texts_view(lines) == spec_render(feed, times, flags, spec_total_ins(feed), spec_total_del(
        feed,
    ))
}

/// The lines present the harvest for some choice of local-time renderings
/// (the one environment-decided ingredient of the output).
pub open spec fn spec_presentation_ok(
    commits: Seq<RecView>,
    flags: ScanFlags,
    lines: Seq<String>,
) -> bool {
    exists|times: Seq<Seq<char>>| #[trigger] spec_presented(commits, flags, times, lines)
}

/// The tail of a run, one call after the harvest: exactly when nothing
/// was harvested, the no-commits error for the selected window (worded
/// for the active identity filter); otherwise the rendered feed.
pub fn present_feed(commits: Vec<CommitRecord>, flags: &ScanFlags) -> (r: Result<
    Vec<String>,
    WorkError,
>)
    ensures
        commits@.len() == 0 ==> (r matches Err(e) && e matches WorkError::NoCommits {
            all,
            window,
        } && all == flags.all && window@ == spec_window_description(*flags)),
        commits@.len() > 0 ==> (r matches Ok(lines) && spec_presentation_ok(
            commits.deep_view(),
            *flags,
            lines@,
        )),
{
    if commits.len() == 0 {
        let window = window_description(flags);
        return Err(WorkError::NoCommits { all: flags.all, window });
    }
    let ghost harvested = commits.deep_view();
    let (feed, tot_ins, tot_del) = aggregate_feed(commits, flags.limit);
    let ghost fv = spec_feed(harvested, flags.limit as int);
    let mut times: Vec<String> = Vec::new();
    let mut i: usize = 0;
    while i < feed.len()
        invariant
            i <= feed@.len(),
            times@.len() == i,
            feed.deep_view() == fv,
            fv.len() == feed@.len(),
            forall|k: int|
                0 <= k < i ==> (#[trigger] texts_view(times@)[k]).len() >= 16 || texts_view(
                    times@,
                )[k] == spec_idec(fv[k].time),
        decreases feed@.len() - i,
    {
        let t = format_time_local(feed[i].time);
        let ghost pre = texts_view(times@);
        let ghost tv = t@;
        times.push(t);
        proof {
            assert(texts_view(times@) =~= pre.push(tv));
            assert(feed@[i as int].deep_view() == fv[i as int]);
            assert(fv[i as int].time == feed@[i as int].time as int);
        }
        i += 1;
    }
    let lines = render_feed(&feed, &times, flags, tot_ins, tot_del);
    proof {
        assert(spec_presented(harvested, *flags, texts_view(times@), lines@));
        assert(spec_presentation_ok(harvested, *flags, lines@));
    }
    Ok(lines)
}

/// What a successful run's output is: the presentation of some nonempty
/// harvest whose every record lies within the window the flags selected.
/// The harvest itself is the external collaborator's answer; everything
/// done with it is pinned.
pub open spec fn spec_scan_shape(
    h: Seq<RecView>,
    since: i64,
    until: Option<i64>,
    now: LocalStamp,
    flags: ScanFlags,
    lines: Seq<String>,
) -> bool {
    &&& h.len() > 0
    &&& (day_mode(flags) ==> since as int == spec_days_since(now.ts as int, flags.days as int)
        && until is None)
    &&& (!flags.today && !flags.month && flags.last_month ==> until is Some)
    &&& (forall|k: int|
        0 <= k < h.len() ==> record_in_window(#[trigger] h[k], since as int, opt_int(until)))
    &&& spec_presentation_ok(h, flags, lines)
}

/// A successful run's lines have the shape above for some harvest.
pub open spec fn spec_scan_ok(now: LocalStamp, flags: ScanFlags, lines: Seq<String>) -> bool {
    exists|h: Seq<RecView>, since: i64, until: Option<i64>|
        #[trigger] spec_scan_shape(h, since, until, now, flags, lines)
}

/// One run: everything between reading the command line and printing.
///
/// The repository catalogue is the verified locator's; when it is empty
/// the run fails with the no-repositories error naming the base. A
/// failing time-window resolution is reported as such. The harvested
/// records pass through the verified aggregation, and when none survives
/// the run fails with a message that distinguishes an active identity
/// filter (suggesting the all-authors mode) from a window with no
/// commits at all.
pub fn run_scan(
    base: &String,
    tree: &DirNode,
    id: &Identity,
    now: &LocalStamp,
    flags: &ScanFlags,
) -> (r: Result<Vec<String>, WorkError>)
    requires
        now.year > i32::MIN,
    ensures
        spec_repos_in(*tree, flags.depth as int, Seq::empty()).len() == 0 ==> (r matches Err(e)
            && e matches WorkError::NoRepos { base: b } && b@ == base@),
        spec_repos_in(*tree, flags.depth as int, Seq::empty()).len() > 0 ==> !(r matches Err(e)
            && e is NoRepos),
        r matches Err(e) ==> (e matches WorkError::NoCommits { all, window } ==> (all == flags.all
            && window@ == spec_window_description(*flags))),
        r matches Err(e) ==> (e matches WorkError::Time { err } ==> (!day_mode(*flags) && (
        flags.today ==> err == TimeError::DayStart) && (!flags.today && flags.month ==> err
            == TimeError::MonthStart) && (!flags.today && !flags.month && flags.last_month ==> (err
            == TimeError::LastMonthStart || err == TimeError::MonthStart)))),
        r matches Ok(lines) ==> spec_scan_ok(*now, *flags, lines@),
{
    let repos = find_repos(tree, flags.depth);
    let ghost catalogue = spec_repos_in(*tree, flags.depth as int, Seq::empty());
    proof {
        assert(crate::locator::paths_view(repos@).to_multiset().len() == crate::locator::paths_view(
            repos@,
        ).len());
        assert(catalogue.to_multiset().len() == catalogue.len());
        assert(crate::locator::paths_view(repos@).len() == repos@.len());
    }
    if repos.len() == 0 {
        return Err(WorkError::NoRepos { base: base.clone() });
    }
    let (since, until) = match since_timestamp(flags, now) {
        Ok(p) => p,
        Err(e) => {
            return Err(WorkError::Time { err: e });
        },
    };
    let commits = harvest_all(&repos, base, since, until, id, flags.all, flags.merges);
    let ghost harvested = commits.deep_view();
    match present_feed(commits, flags) {
        Err(e) => Err(e),
        Ok(lines) => {
            proof {
                assert(harvested.len() > 0);
                assert(spec_scan_shape(harvested, since, until, *now, *flags, lines@));
                assert(spec_scan_ok(*now, *flags, lines@));
            }
            Ok(lines)
        },
    }
}

} // verus!
