//! The aggregator: harvests every discovered repository independently (in
//! parallel, with no shared mutable state), merges the results into one
//! globally time-descending sequence, truncates it to the display limit,
//! and accumulates line-change totals over the displayed subset only.

use vstd::prelude::*;
use rayon::iter::IntoParallelRefIterator;
use rayon::iter::ParallelIterator;
use crate::harvest::{collect_commits, opt_int, record_in_window, CommitRecord, RecView};
use crate::identity::Identity;

verus! {

broadcast use {
    vstd::std_specs::vec::group_vec_axioms,
    vstd::seq_lib::group_to_multiset_ensures,
};

/// `x` inserted behind every record at least as recent: a stable
/// insertion for the time-descending order.
pub open spec fn insert_desc(s: Seq<RecView>, x: RecView) -> Seq<RecView>
    decreases s.len(),
{
    if s.len() == 0 {
        seq![x]
    } else if s.last().time >= x.time {
        s.push(x)
    } else {
        insert_desc(s.drop_last(), x).push(s.last())
    }
}

/// Insertion sort of the merged records, most recent first.
pub open spec fn sort_desc(s: Seq<RecView>) -> Seq<RecView>
    decreases s.len(),
{
    if s.len() == 0 {
        Seq::empty()
    } else {
        insert_desc(sort_desc(s.drop_last()), s.last())
    }
}

/// Timestamps never increase along the sequence.
pub open spec fn desc_sorted(s: Seq<RecView>) -> bool {
    forall|i: int, j: int| 0 <= i <= j < s.len() ==> s[i].time >= s[j].time
}

/// The displayed feed: the merged records sorted most recent first, cut
/// to the first `limit` entries.
pub open spec fn spec_feed(s: Seq<RecView>, limit: int) -> Seq<RecView> {
    if limit < sort_desc(s).len() {
        sort_desc(s).take(limit)
    } else {
        sort_desc(s)
    }
}

/// Addition capped at the top of the `usize` range.
pub open spec fn sat_add_usize(a: int, b: int) -> int {
    if a + b > usize::MAX {
        usize::MAX as int
    } else {
        a + b
    }
}

/// The sum of the displayed insertion counts, saturating.
pub open spec fn spec_total_ins(s: Seq<RecView>) -> int
    decreases s.len(),
{
    if s.len() == 0 {
        0
    } else {
        sat_add_usize(spec_total_ins(s.drop_last()), s.last().insertions)
    }
}

/// The sum of the displayed deletion counts, saturating.
pub open spec fn spec_total_del(s: Seq<RecView>) -> int
    decreases s.len(),
{
    if s.len() == 0 {
        0
    } else {
        sat_add_usize(spec_total_del(s.drop_last()), s.last().deletions)
    }
}

proof fn lemma_insert_desc_at(s: Seq<RecView>, x: RecView, p: int)
    requires
        0 <= p <= s.len(),
        forall|j: int| p <= j < s.len() ==> !((#[trigger] s[j]).time >= x.time),
        p > 0 ==> s[p - 1].time >= x.time,
    ensures
        insert_desc(s, x) == s.take(p) + seq![x] + s.skip(p),
    decreases s.len(),
{
    if p == s.len() {
        if s.len() == 0 {
            assert(insert_desc(s, x) =~= s.take(p) + seq![x] + s.skip(p));
        } else {
            assert(insert_desc(s, x) =~= s.take(p) + seq![x] + s.skip(p));
        }
    } else {
        let dl = s.drop_last();
        lemma_insert_desc_at(dl, x, p);
        assert(dl.take(p) =~= s.take(p));
        assert(insert_desc(s, x) =~= s.take(p) + seq![x] + s.skip(p));
    }
}

pub proof fn lemma_insert_desc_multiset(s: Seq<RecView>, x: RecView)
    ensures
        insert_desc(s, x).to_multiset() == s.to_multiset().insert(x),
    decreases s.len(),
{
    if s.len() == 0 {
        assert(insert_desc(s, x) =~= Seq::<RecView>::empty().push(x));
        assert(Seq::<RecView>::empty().push(x).to_multiset() =~= s.to_multiset().insert(x));
    } else if s.last().time >= x.time {
    } else {
        let dl = s.drop_last();
        lemma_insert_desc_multiset(dl, x);
        assert(s =~= dl.push(s.last()));
        assert(s.to_multiset() =~= dl.to_multiset().insert(s.last()));
        assert(insert_desc(s, x).to_multiset() =~= insert_desc(dl, x).to_multiset().insert(
            s.last(),
        ));
        assert(insert_desc(s, x).to_multiset() =~= s.to_multiset().insert(x)) by {
            assert(dl.to_multiset().insert(x).insert(s.last()) =~= dl.to_multiset().insert(
                s.last(),
            ).insert(x));
        }
    }
}

/// Sorting neither adds nor loses a record.
pub proof fn lemma_sort_desc_multiset(s: Seq<RecView>)
    ensures
        sort_desc(s).to_multiset() == s.to_multiset(),
    decreases s.len(),
{
    if s.len() > 0 {
        let dl = s.drop_last();
        lemma_sort_desc_multiset(dl);
        lemma_insert_desc_multiset(sort_desc(dl), s.last());
        assert(s =~= dl.push(s.last()));
        assert(s.to_multiset() =~= dl.to_multiset().insert(s.last()));
    }
}

proof fn lemma_insert_desc_sorted(s: Seq<RecView>, x: RecView)
    requires
        desc_sorted(s),
    ensures
        desc_sorted(insert_desc(s, x)),
    decreases s.len(),
{
    if s.len() == 0 {
    } else if s.last().time >= x.time {
    } else {
        let dl = s.drop_last();
        lemma_insert_desc_sorted(dl, x);
        let inner = insert_desc(dl, x);
        let r = inner.push(s.last());
        lemma_insert_desc_multiset(dl, x);
        assert forall|i: int, j: int| 0 <= i <= j < r.len() implies r[i].time >= r[j].time by {
            if j < inner.len() {
            } else if i < inner.len() {
                assert(inner.to_multiset().count(inner[i]) > 0);
                assert(dl.to_multiset().insert(x).count(inner[i]) > 0);
                if inner[i] == x {
                } else {
                    assert(dl.to_multiset().count(inner[i]) > 0);
                    assert(dl.contains(inner[i]));
                    let k = choose|k: int| 0 <= k < dl.len() && dl[k] == inner[i];
                    assert(s[k].time >= s.last().time);
                }
            }
        }
    }
}

/// The sorted merge is in time-descending order.
pub proof fn lemma_sort_desc_sorted(s: Seq<RecView>)
    ensures
        desc_sorted(sort_desc(s)),
    decreases s.len(),
{
    if s.len() > 0 {
        lemma_sort_desc_sorted(s.drop_last());
        lemma_insert_desc_sorted(sort_desc(s.drop_last()), s.last());
    }
}

fn clone_record(c: &CommitRecord) -> (r: CommitRecord)
    ensures
        r.deep_view() == c.deep_view(),
{
    CommitRecord {
        repo: c.repo.clone(),
        time: c.time,
        id: c.id.clone(),
        summary: c.summary.clone(),
        insertions: c.insertions,
        deletions: c.deletions,
    }
}

fn find_insert_pos_desc(out: &Vec<CommitRecord>, time: i64) -> (p: usize)
    ensures
        p <= out@.len(),
        forall|j: int| p <= j < out@.len() ==> !((#[trigger] out.deep_view()[j]).time >= time),
        p > 0 ==> out.deep_view()[p - 1].time >= time,
{
    let mut i: usize = out.len();
    while i > 0
        invariant
            i <= out@.len(),
            forall|j: int| i <= j < out@.len() ==> !((#[trigger] out.deep_view()[j]).time >= time),
        decreases i,
    {
        if out[i - 1].time >= time {
            return i;
        }
        i -= 1;
    }
    0
}

fn insert_sorted_desc(out: &mut Vec<CommitRecord>, x: CommitRecord)
    ensures
        final(out).deep_view() == insert_desc(old(out).deep_view(), x.deep_view()),
{
    let i = find_insert_pos_desc(out, x.time);
    let ghost s = out.deep_view();
    let ghost p = i as int;
    let ghost xv = x.deep_view();
    out.insert(i, x);
    proof {
        lemma_insert_desc_at(s, xv, p);
        assert(out.deep_view() =~= s.take(p) + seq![xv] + s.skip(p));
    }
}

/// Sorts the merged records most recent first (a stable insertion sort).
pub fn sort_by_time_desc(v: &mut Vec<CommitRecord>)
    ensures
        final(v).deep_view() == sort_desc(old(v).deep_view()),
{
    let ghost m = v.deep_view();
    let mut out: Vec<CommitRecord> = Vec::new();
    proof {
        assert(out.deep_view() =~= sort_desc(m.take(0)));
    }
    let mut i: usize = 0;
    while i < v.len()
        invariant
            i <= v@.len(),
            v@ == old(v)@,
            m == v.deep_view(),
            m.len() == v@.len(),
            out.deep_view() == sort_desc(m.take(i as int)),
        decreases v@.len() - i,
    {
        let x = clone_record(&v[i]);
        proof {
            assert(x.deep_view() == m[i as int]);
        }
        insert_sorted_desc(&mut out, x);
        proof {
            assert(m.take(i as int + 1).drop_last() =~= m.take(i as int));
            assert(m.take(i as int + 1).last() == m[i as int]);
        }
        i += 1;
    }
    proof {
        assert(m.take(v@.len() as int) =~= m);
    }
    *v = out;
}

/// The aggregated feed: the records sorted most recent first and cut to
/// `limit`, together with the saturating insertion and deletion totals of
/// the displayed subset only.
pub fn aggregate_feed(commits: Vec<CommitRecord>, limit: usize) -> (r: (
    Vec<CommitRecord>,
    usize,
    usize,
))
    ensures
        r.0.deep_view() == spec_feed(commits.deep_view(), limit as int),
        r.1 as int == spec_total_ins(spec_feed(commits.deep_view(), limit as int)),
        r.2 as int == spec_total_del(spec_feed(commits.deep_view(), limit as int)),
{
    let ghost m = commits.deep_view();
    let mut v = commits;
    sort_by_time_desc(&mut v);
    v.truncate(limit);
    proof {
        if limit as int >= sort_desc(m).len() {
            assert(v.deep_view() =~= spec_feed(m, limit as int));
        } else {
            assert(v.deep_view() =~= spec_feed(m, limit as int));
        }
    }
    let ghost feed = spec_feed(m, limit as int);
    let mut total_ins: usize = 0;
    let mut total_del: usize = 0;
    let mut i: usize = 0;
    while i < v.len()
        invariant
            i <= v@.len(),
            feed == v.deep_view(),
            feed.len() == v@.len(),
            total_ins as int == spec_total_ins(feed.take(i as int)),
            total_del as int == spec_total_del(feed.take(i as int)),
        decreases v@.len() - i,
    {
        total_ins = total_ins.saturating_add(v[i].insertions);
        total_del = total_del.saturating_add(v[i].deletions);
        proof {
            assert(feed.take(i as int + 1).drop_last() =~= feed.take(i as int));
            assert(feed.take(i as int + 1).last() == feed[i as int]);
            assert(v@[i as int].deep_view() == feed[i as int]);
        }
        i += 1;
    }
    proof {
        assert(feed.take(v@.len() as int) =~= feed);
    }
    (v, total_ins, total_del)
}

/// The displayed feed honours the window and the ordering: when every
/// harvested record lies within `[since, until)`, so does every displayed
/// record, and the displayed timestamps never increase.
pub proof fn lemma_feed_in_window(
    s: Seq<RecView>,
    since: int,
    until: Option<int>,
    limit: int,
)
    requires
        limit >= 0,
        forall|k: int| 0 <= k < s.len() ==> record_in_window(#[trigger] s[k], since, until),
    ensures
        forall|k: int|
            0 <= k < spec_feed(s, limit).len() ==> record_in_window(
                #[trigger] spec_feed(s, limit)[k],
                since,
                until,
            ),
        forall|i: int, j: int|
            0 <= i <= j < spec_feed(s, limit).len() ==> spec_feed(s, limit)[i].time >= spec_feed(
                s,
                limit,
            )[j].time,
{
    lemma_sort_desc_multiset(s);
    lemma_sort_desc_sorted(s);
    let sorted = sort_desc(s);
    assert forall|k: int| 0 <= k < sorted.len() implies record_in_window(
        #[trigger] sorted[k],
        since,
        until,
    ) by {
        assert(sorted.to_multiset().count(sorted[k]) > 0);
        assert(s.to_multiset().count(sorted[k]) > 0);
        assert(s.contains(sorted[k]));
        let n = choose|n: int| 0 <= n < s.len() && s[n] == sorted[k];
        assert(record_in_window(s[n], since, until));
    }
    assert forall|k: int| 0 <= k < spec_feed(s, limit).len() implies record_in_window(
        #[trigger] spec_feed(s, limit)[k],
        since,
        until,
    ) by {
        if limit < sorted.len() {
            assert(spec_feed(s, limit) == sorted.take(limit));
            assert(sorted.take(limit)[k] == sorted[k]);
        } else {
            assert(spec_feed(s, limit)[k] == sorted[k]);
        }
    }
}

/// Relies on rayon's parallel iteration (`par_iter`, `flat_map_iter`,
/// `collect` on the parallel iterator): the returned vector holds exactly
/// the records of one `collect_commits` call per listed repository, each
/// run independently on read-only shared inputs. Whatever order the
/// parallel execution produces, every record came from one such call, and
/// `collect_commits` guarantees of each of its records that it lies
/// within the window.
#[verifier::external_body]
pub(crate) fn harvest_all(
    repos: &Vec<String>,
    base: &String,
    since: i64,
    until: Option<i64>,
    id: &Identity,
    all: bool,
    merges: bool,
) -> (r: Vec<CommitRecord>)
    ensures
        forall|k: int|
            0 <= k < r.deep_view().len() ==> record_in_window(
                #[trigger] r.deep_view()[k],
                since as int,
                opt_int(until),
            ),
{
    repos.par_iter().flat_map_iter(
        |rel| collect_commits(base, rel, since, until, id, all, merges),
    ).collect()
}

} // verus!
