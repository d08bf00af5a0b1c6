//! The history harvester: for one repository, walk the commit history
//! from the current branch tip in time-descending order, stop early at
//! the first commit older than the window, filter by the upper window
//! bound, by merge status and by author identity, and attach per-commit
//! line-change statistics. The version-control read API (tip resolution,
//! revision ordering, commit and diff retrieval) is the external
//! collaborator; every decision taken on what it returns is verified.

use vstd::prelude::*;
use vstd::string::StringExecFns;
use vstd::string::StrSliceExecFns;
use crate::identity::{matches_identity, spec_matches_identity, Identity};
use crate::locator::join_path;

verus! {

broadcast use vstd::std_specs::vec::group_vec_axioms;

/// One commit as the version-control library reports it, before any
/// decision is taken: commit timestamp, full content-addressed id,
/// unmodified summary line, parent count, and author identity fields.
pub struct RawCommit {
    pub time: i64,
    pub id: String,
    pub summary: Option<String>,
    pub parent_count: usize,
    pub author_name: Option<String>,
    pub author_email: Option<String>,
}

/// The mathematical value of a `RawCommit`.
pub ghost struct RawView {
    pub time: int,
    pub id: Seq<char>,
    pub summary: Option<Seq<char>>,
    pub parent_count: int,
    pub author_name: Option<Seq<char>>,
    pub author_email: Option<Seq<char>>,
}

impl DeepView for RawCommit {
    type V = RawView;

    open spec fn deep_view(&self) -> RawView {
        RawView {
            time: self.time as int,
            id: self.id@,
            summary: self.summary.deep_view(),
            parent_count: self.parent_count as int,
            author_name: self.author_name.deep_view(),
            author_email: self.author_email.deep_view(),
        }
    }
}

/// One harvested commit of the feed: owning repository (relative to the
/// scan base), commit timestamp, id, cleaned-up summary, and line counts.
pub struct CommitRecord {
    pub repo: String,
    pub time: i64,
    pub id: String,
    pub summary: String,
    pub insertions: usize,
    pub deletions: usize,
}

/// The mathematical value of a `CommitRecord`.
pub ghost struct RecView {
    pub repo: Seq<char>,
    pub time: int,
    pub id: Seq<char>,
    pub summary: Seq<char>,
    pub insertions: int,
    pub deletions: int,
}

impl DeepView for CommitRecord {
    type V = RecView;

    open spec fn deep_view(&self) -> RecView {
        RecView {
            repo: self.repo@,
            time: self.time as int,
            id: self.id@,
            summary: self.summary@,
            insertions: self.insertions as int,
            deletions: self.deletions as int,
        }
    }
}

pub open spec fn opt_int(o: Option<i64>) -> Option<int> {
    match o {
        Some(v) => Some(v as int),
        None => None,
    }
}

/// A record's timestamp lies within the half-open window.
pub open spec fn record_in_window(rec: RecView, since: int, until: Option<int>) -> bool {
    &&& since <= rec.time
    &&& (until matches Some(u) ==> rec.time < u)
}

// --- summary cleanup ---

/// The white-space characters that surrounding trimming removes
/// (the Unicode `White_Space` set).
pub open spec fn is_white(c: char) -> bool {
    let u = c as int;
    ||| (9 <= u <= 13)
    ||| u == 32
    ||| u == 0x85
    ||| u == 0xA0
    ||| u == 0x1680
    ||| (0x2000 <= u <= 0x200A)
    ||| u == 0x2028
    ||| u == 0x2029
    ||| u == 0x202F
    ||| u == 0x205F
    ||| u == 0x3000
}

pub open spec fn trim_front(s: Seq<char>) -> Seq<char>
    decreases s.len(),
{
    if s.len() > 0 && is_white(s[0]) {
        trim_front(s.drop_first())
    } else {
        s
    }
}

pub open spec fn trim_back(s: Seq<char>) -> Seq<char>
    decreases s.len(),
{
    if s.len() > 0 && is_white(s.last()) {
        trim_back(s.drop_last())
    } else {
        s
    }
}

/// `s` with white space removed from both ends.
pub open spec fn spec_trim(s: Seq<char>) -> Seq<char> {
    trim_back(trim_front(s))
}

fn is_white_char(c: char) -> (r: bool)
    ensures
        r == is_white(c),
{
    let u = c as u32;
    (9 <= u && u <= 13) || u == 32 || u == 0x85 || u == 0xA0 || u == 0x1680 || (0x2000 <= u && u
        <= 0x200A) || u == 0x2028 || u == 0x2029 || u == 0x202F || u == 0x205F || u == 0x3000
}

proof fn lemma_trim_front_skip(s: Seq<char>, k: int)
    requires
        0 <= k <= s.len(),
        forall|j: int| 0 <= j < k ==> is_white(s[j]),
        k == s.len() || !is_white(s[k]),
    ensures
        trim_front(s) == s.skip(k),
    decreases k,
{
    if k == 0 {
        assert(s.skip(0) =~= s);
    } else {
        assert(is_white(s[0]));
        lemma_trim_front_skip(s.drop_first(), k - 1);
        assert(s.drop_first().skip(k - 1) =~= s.skip(k));
    }
}

proof fn lemma_trim_back_take(t: Seq<char>, m: int)
    requires
        0 <= m <= t.len(),
        forall|j: int| m <= j < t.len() ==> is_white(t[j]),
        m == 0 || !is_white(t[m - 1]),
    ensures
        trim_back(t) == t.take(m),
    decreases t.len(),
{
    if m == t.len() {
        if t.len() == 0 {
            assert(t.take(0) =~= t);
        } else {
            assert(!is_white(t.last()));
            assert(t.take(m) =~= t);
        }
    } else {
        assert(is_white(t.last()));
        lemma_trim_back_take(t.drop_last(), m);
        assert(t.drop_last().take(m) =~= t.take(m));
    }
}

/// `s` with surrounding white space removed.
pub fn trim_str(s: &str) -> (r: String)
    ensures
        r@ == spec_trim(s@),
{
    let len = s.unicode_len();
    let mut start: usize = 0;
    while start < len && is_white_char(s.get_char(start))
        invariant
            0 <= start <= len,
            len == s@.len(),
            forall|j: int| 0 <= j < start ==> is_white(s@[j]),
        decreases len - start,
    {
        start += 1;
    }
    let mut end: usize = len;
    while end > start && is_white_char(s.get_char(end - 1))
        invariant
            start <= end <= len,
            len == s@.len(),
            forall|j: int| end <= j < len ==> is_white(s@[j]),
        decreases end,
    {
        end -= 1;
    }
    let sub = s.substring_char(start, end);
    proof {
        lemma_trim_front_skip(s@, start as int);
        lemma_trim_back_take(s@.skip(start as int), end - start);
        assert(s@.skip(start as int).take(end - start) =~= s@.subrange(start as int, end as int));
    }
    String::from_str(sub)
}

/// The summary text displayed for a commit: its first line trimmed, or a
/// fixed placeholder when the commit has no message.
pub open spec fn spec_summary_text(s: Option<Seq<char>>) -> Seq<char> {
    match s {
        Some(t) => spec_trim(t),
        None => "(no message)"@,
    }
}

// --- the filter pipeline ---

/// Whether a commit inside the window survives the filters: it is cut by
/// the exclusive upper bound when one is set, merge commits (more than
/// one parent) are skipped unless merges are included, and unless
/// all-authors mode is set the author must match the identity.
pub open spec fn spec_keep(
    c: RawView,
    until: Option<int>,
    id: Identity,
    all: bool,
    merges: bool,
) -> bool {
    &&& (until matches Some(u) ==> c.time < u)
    &&& (merges || c.parent_count <= 1)
    &&& (all || spec_matches_identity(id, c.author_name, c.author_email))
}

/// The harvester's selection from a time-ordered commit sequence: walk
/// from the front, stop for good at the first commit older than `since`
/// (the walk is time-descending, so nothing after it can qualify), and
/// keep what passes the filters.
pub open spec fn spec_filter_history(
    s: Seq<RawView>,
    since: int,
    until: Option<int>,
    id: Identity,
    all: bool,
    merges: bool,
) -> Seq<RawView>
    decreases s.len(),
{
    if s.len() == 0 {
        Seq::empty()
    } else if s[0].time < since {
        Seq::empty()
    } else {
        (if spec_keep(s[0], until, id, all, merges) {
            seq![s[0]]
        } else {
            Seq::empty()
        }) + spec_filter_history(s.drop_first(), since, until, id, all, merges)
    }
}

/// Every selected commit lies within `[since, until)`.
pub proof fn lemma_filter_in_window(
    s: Seq<RawView>,
    since: int,
    until: Option<int>,
    id: Identity,
    all: bool,
    merges: bool,
)
    ensures
        forall|k: int|
            0 <= k < spec_filter_history(s, since, until, id, all, merges).len() ==> {
                let c = #[trigger] spec_filter_history(s, since, until, id, all, merges)[k];
                since <= c.time && (until matches Some(u) ==> c.time < u)
            },
    decreases s.len(),
{
    if s.len() == 0 {
    } else if s[0].time < since {
    } else {
        lemma_filter_in_window(s.drop_first(), since, until, id, all, merges);
    }
}

/// In all-authors mode the identity plays no part in the selection.
pub proof fn lemma_all_mode_ignores_identity(
    s: Seq<RawView>,
    since: int,
    until: Option<int>,
    id_a: Identity,
    id_b: Identity,
    merges: bool,
)
    ensures
        spec_filter_history(s, since, until, id_a, true, merges) == spec_filter_history(
            s,
            since,
            until,
            id_b,
            true,
            merges,
        ),
    decreases s.len(),
{
    if s.len() > 0 && s[0].time >= since {
        lemma_all_mode_ignores_identity(s.drop_first(), since, until, id_a, id_b, merges);
    }
}

/// Unless merges are included, no selected commit has more than one
/// parent.
pub proof fn lemma_merges_excluded(
    s: Seq<RawView>,
    since: int,
    until: Option<int>,
    id: Identity,
    all: bool,
)
    ensures
        forall|k: int|
            0 <= k < spec_filter_history(s, since, until, id, all, false).len()
                ==> (#[trigger] spec_filter_history(s, since, until, id, all, false)[k]).parent_count
                <= 1,
    decreases s.len(),
{
    if s.len() > 0 && s[0].time >= since {
        lemma_merges_excluded(s.drop_first(), since, until, id, all);
    }
}

fn clone_opt_string(o: &Option<String>) -> (r: Option<String>)
    ensures
        r.deep_view() == o.deep_view(),
{
    match o {
        Some(s) => Some(s.clone()),
        None => None,
    }
}

fn clone_raw(c: &RawCommit) -> (r: RawCommit)
    ensures
        r.deep_view() == c.deep_view(),
{
    RawCommit {
        time: c.time,
        id: c.id.clone(),
        summary: clone_opt_string(&c.summary),
        parent_count: c.parent_count,
        author_name: clone_opt_string(&c.author_name),
        author_email: clone_opt_string(&c.author_email),
    }
}

/// The verified selection step: exactly `spec_filter_history` over the
/// commits handed in, whatever order or content the walk produced.
pub fn filter_history(
    infos: &Vec<RawCommit>,
    since: i64,
    until: Option<i64>,
    id: &Identity,
    all: bool,
    merges: bool,
) -> (r: Vec<RawCommit>)
    ensures
        r.deep_view() == spec_filter_history(
            infos.deep_view(),
            since as int,
            opt_int(until),
            *id,
            all,
            merges,
        ),
{
    let ghost s = infos.deep_view();
    let ghost gu = opt_int(until);
    let mut out: Vec<RawCommit> = Vec::new();
    proof {
        assert(s.skip(0) =~= s);
        assert(out.deep_view() =~= Seq::<RawView>::empty());
        assert(out.deep_view() + spec_filter_history(s, since as int, gu, *id, all, merges)
            =~= spec_filter_history(s, since as int, gu, *id, all, merges));
    }
    let mut i: usize = 0;
    while i < infos.len()
        invariant
            0 <= i <= infos@.len(),
            s == infos.deep_view(),
            gu == opt_int(until),
            s.len() == infos@.len(),
            spec_filter_history(s, since as int, gu, *id, all, merges) == out.deep_view()
                + spec_filter_history(s.skip(i as int), since as int, gu, *id, all, merges),
        decreases infos@.len() - i,
    {
        let c = &infos[i];
        proof {
            assert(infos@[i as int].deep_view() == s[i as int]);
            assert(s.skip(i as int)[0] == s[i as int]);
            assert(s.skip(i as int).drop_first() =~= s.skip(i as int + 1));
        }
        if c.time < since {
            proof {
                assert(spec_filter_history(s.skip(i as int), since as int, gu, *id, all, merges)
                    =~= Seq::<RawView>::empty());
                assert(out.deep_view() + Seq::<RawView>::empty() =~= out.deep_view());
            }
            return out;
        }
        let upper_ok = match until {
            Some(u) => c.time < u,
            None => true,
        };
        let merge_ok = merges || c.parent_count <= 1;
        let author_ok = all || {
            let name = match &c.author_name {
                Some(s) => Some(s.as_str()),
                None => None,
            };
            let email = match &c.author_email {
                Some(s) => Some(s.as_str()),
                None => None,
            };
            matches_identity(id, name, email)
        };
        let ghost pre_out = out.deep_view();
        if upper_ok && merge_ok && author_ok {
            let dup = clone_raw(c);
            out.push(dup);
            proof {
                assert(out.deep_view() =~= pre_out.push(s[i as int]));
                assert(pre_out.push(s[i as int]) =~= pre_out + seq![s[i as int]]);
            }
        } else {
            proof {
                assert(!spec_keep(s[i as int], gu, *id, all, merges));
            }
        }
        proof {
            assert(spec_filter_history(s, since as int, gu, *id, all, merges) =~= out.deep_view()
                + spec_filter_history(s.skip(i as int + 1), since as int, gu, *id, all, merges));
        }
        i += 1;
    }
    proof {
        assert(s.skip(s.len() as int) =~= Seq::<RawView>::empty());
        assert(out.deep_view() + Seq::<RawView>::empty() =~= out.deep_view());
    }
    out
}

/// Builds the displayed record for one selected commit.
pub fn make_record(rel: &String, info: &RawCommit, insertions: usize, deletions: usize) -> (r:
    CommitRecord)
    ensures
        r.deep_view() == (RecView {
            repo: rel@,
            time: info.time as int,
            id: info.id@,
            summary: spec_summary_text(info.summary.deep_view()),
            insertions: insertions as int,
            deletions: deletions as int,
        }),
{
    let summary = match &info.summary {
        Some(s) => trim_str(s.as_str()),
        None => String::from_str("(no message)"),
    };
    CommitRecord {
        repo: rel.clone(),
        time: info.time,
        id: info.id.clone(),
        summary,
        insertions,
        deletions,
    }
}

// --- the version-control read API, taken on trust ---

#[verifier::external_type_specification]
#[verifier::external_body]
pub struct ExRepository(git2::Repository);

/// Relies on git2's `Repository::open`: a handle on the repository at
/// `path`, or None when it cannot be opened.
#[verifier::external_body]
fn open_repo(path: &String) -> (r: Option<git2::Repository>) {
    git2::Repository::open(path.as_str()).ok()
}

/// Relies on git2's `Repository::head` and `Reference::target`: the id of
/// the commit at the current branch tip, or None when there is no
/// resolvable tip.
#[verifier::external_body]
fn head_tip(repo: &git2::Repository) -> (r: Option<String>) {
    let head = repo.head().ok()?;
    head.target().map(|o| o.to_string())
}

#[verifier::external_type_specification]
#[verifier::external_body]
pub struct ExOid(git2::Oid);

#[verifier::external_type_specification]
#[verifier::external_body]
pub struct ExGitError(git2::Error);

#[verifier::external_type_specification]
#[verifier::external_body]
pub struct ExRevwalk<'a>(git2::Revwalk<'a>);

/// Relies on git2's `Repository::revwalk`, `Revwalk::push` and
/// `Revwalk::set_sorting` with `Sort::TIME`: a walk over the commits
/// reachable from `tip`, most recent commit time first, or None when it
/// cannot be initialised.
#[verifier::external_body]
fn start_walk<'r>(repo: &'r git2::Repository, tip: &String) -> (r: Option<git2::Revwalk<'r>>) {
    let oid = git2::Oid::from_str(tip).ok()?;
    let mut walk = repo.revwalk().ok()?;
    walk.push(oid).ok()?;
    let _ = walk.set_sorting(git2::Sort::TIME);
    Some(walk)
}

/// Relies on the `Revwalk` iterator's `next`: the walk's next commit id,
/// None at its end, and Some(None) for a step whose id failed to resolve
/// (the caller skips it, as the original's flattening did).
#[verifier::external_body]
fn walk_next<'r>(walk: &mut git2::Revwalk<'r>) -> (r: Option<Option<String>>) {
    walk.next().map(|step| step.ok().map(|o| o.to_string()))
}

/// Relies on git2's `Repository::find_commit` and the `Commit` accessors
/// `time`, `id`, `summary`, `parent_count` and `author` (with the
/// `Signature` accessors `name` and `email`): the stated facts about the
/// commit `oid` names, or None when it cannot be looked up. `time` is the
/// commit's own timestamp — the committer time, the same instant the
/// time-sorted walk orders by — not the author field's timestamp.
#[verifier::external_body]
fn commit_info(repo: &git2::Repository, oid: &String) -> (r: Option<RawCommit>) {
    let id = git2::Oid::from_str(oid).ok()?;
    let c = repo.find_commit(id).ok()?;
    let author = c.author();
    Some(
        RawCommit {
            time: c.time().seconds(),
            id: c.id().to_string(),
            summary: c.summary().map(|s| s.to_string()),
            parent_count: c.parent_count(),
            author_name: author.name().map(|s| s.to_string()),
            author_email: author.email().map(|s| s.to_string()),
        },
    )
}

/// Relies on git2's `Commit::tree`, `Commit::parent`,
/// `Repository::diff_tree_to_tree` and `Diff::stats`: the total inserted
/// and deleted line counts of the diff between the commit's first
/// parent's tree (an empty tree when it has no parent) and its own tree,
/// or None when the commit, a tree or the diff cannot be computed.
#[verifier::external_body]
fn diff_stats_raw(repo: &git2::Repository, oid: &String) -> (r: Option<(usize, usize)>) {
    let c = repo.find_commit(git2::Oid::from_str(oid).ok()?).ok()?;
    let tree = c.tree().ok()?;
    let parent_tree = c.parent(0).ok().and_then(|p| p.tree().ok());
    let diff = repo.diff_tree_to_tree(parent_tree.as_ref(), Some(&tree), None).ok()?;
    let stats = diff.stats().ok()?;
    Some((stats.insertions(), stats.deletions()))
}

/// The zero/zero rule for diff failures: statistics the diff engine did
/// produce are kept as they are, and a failed diff yields zero counts
/// rather than dropping the commit.
pub fn stats_or_zero(o: Option<(usize, usize)>) -> (r: (usize, usize))
    ensures
        o matches Some(p) ==> r == p,
        o is None ==> r == (0usize, 0usize),
{
    match o {
        Some(p) => p,
        None => (0, 0),
    }
}

/// The line-change statistics attributed to a commit: whatever the diff
/// engine reports for the diff against the first parent (or the empty
/// tree), fed through the verified zero/zero rule.
pub fn diff_stats(repo: &git2::Repository, oid: &String) -> (r: (usize, usize)) {
    stats_or_zero(diff_stats_raw(repo, oid))
}

/// Harvests one repository: resolve the tip, step through its history in
/// time-descending order, stop the walk for good at the first commit
/// before `since` (the rest of the history is never read), apply the
/// window, merge and identity filters, and attach diff statistics.
/// A repository that cannot be opened or walked contributes nothing.
/// Whatever the underlying library reported, every returned record lies
/// within the window and names this repository.
pub fn collect_commits(
    base: &String,
    rel: &String,
    since: i64,
    until: Option<i64>,
    id: &Identity,
    all: bool,
    merges: bool,
) -> (r: Vec<CommitRecord>)
    ensures
        forall|k: int|
            0 <= k < r.deep_view().len() ==> record_in_window(
                #[trigger] r.deep_view()[k],
                since as int,
                opt_int(until),
            ) && r.deep_view()[k].repo == rel@,
{
    let path = join_path(base, rel);
    let repo = match open_repo(&path) {
        Some(r) => r,
        None => {
            return Vec::new();
        },
    };
    let tip = match head_tip(&repo) {
        Some(t) => t,
        None => {
            return Vec::new();
        },
    };
    let mut walk = match start_walk(&repo, &tip) {
        Some(w) => w,
        None => {
            return Vec::new();
        },
    };
    let mut infos: Vec<RawCommit> = Vec::new();
    // The walk is time-descending, so the first commit older than the
    // window ends it here, with the rest of the history never read. A
    // real history is finite; the counter only bounds the loop for the
    // termination check.
    let mut fuel: usize = usize::MAX;
    while fuel > 0
        decreases fuel,
    {
        fuel -= 1;
        match walk_next(&mut walk) {
            None => {
                break ;
            },
            Some(None) => {},
            Some(Some(oid)) => {
                match commit_info(&repo, &oid) {
                    Some(info) => {
                        let stop = info.time < since;
                        infos.push(info);
                        if stop {
                            break ;
                        }
                    },
                    None => {},
                }
            },
        }
    }
    let sel = filter_history(&infos, since, until, id, all, merges);
    proof {
        lemma_filter_in_window(
            infos.deep_view(),
            since as int,
            opt_int(until),
            *id,
            all,
            merges,
        );
    }
    let mut out: Vec<CommitRecord> = Vec::new();
    let mut j: usize = 0;
    while j < sel.len()
        invariant
            0 <= j <= sel@.len(),
            sel.deep_view() == spec_filter_history(
                infos.deep_view(),
                since as int,
                opt_int(until),
                *id,
                all,
                merges,
            ),
            forall|k: int|
                0 <= k < out.deep_view().len() ==> record_in_window(
                    #[trigger] out.deep_view()[k],
                    since as int,
                    opt_int(until),
                ) && out.deep_view()[k].repo == rel@,
        decreases sel@.len() - j,
    {
        let stats = diff_stats(&repo, &sel[j].id);
        let recd = make_record(rel, &sel[j], stats.0, stats.1);
        let ghost pre = out.deep_view();
        out.push(recd);
        proof {
            let fo = spec_filter_history(
                infos.deep_view(),
                since as int,
                opt_int(until),
                *id,
                all,
                merges,
            );
            lemma_filter_in_window(
                infos.deep_view(),
                since as int,
                opt_int(until),
                *id,
                all,
                merges,
            );
            assert(sel@[j as int].deep_view() == fo[j as int]);
            assert(since as int <= fo[j as int].time && (opt_int(until) matches Some(u)
                ==> fo[j as int].time < u));
            assert(out.deep_view() =~= pre.push(recd.deep_view()));
        }
        j += 1;
    }
    out
}

} // verus!
