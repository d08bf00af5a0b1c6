//! The presenter: renders the aggregated feed either as tab-separated
//! machine-readable lines or as column-aligned, colour-annotated human
//! lines with a two-line trailing summary. Every rendered line is pinned
//! exactly by its specification.

use vstd::prelude::*;
use vstd::string::StringExecFns;
use vstd::string::StrSliceExecFns;
use crate::harvest::{CommitRecord, RecView};
use crate::numfmt::{i64_to_string, spec_idec, spec_udec, u64_to_string, u64_width};
use crate::options::ScanFlags;

verus! {

broadcast use vstd::std_specs::vec::group_vec_axioms;

/// The view of a vector of rendered lines.
pub open spec fn texts_view(v: Seq<String>) -> Seq<Seq<char>> {
    v.map_values(|s: String| s@)
}

/// `n` space characters.
pub open spec fn spec_spaces(n: int) -> Seq<char> {
    Seq::new(if n >= 0 {
        n as nat
    } else {
        0
    }, |i: int| ' ')
}

pub fn spaces(n: usize) -> (r: String)
    ensures
        r@ == spec_spaces(n as int),
{
    let mut s = String::new();
    let mut i: usize = 0;
    while i < n
        invariant
            i <= n,
            s@ == spec_spaces(i as int),
        decreases n - i,
    {
        s.append(" ");
        proof {
            reveal_strlit(" ");
            assert(s@ =~= spec_spaces(i as int + 1));
        }
        i += 1;
    }
    s
}

/// `s` right-aligned in a field `w` wide: spaces in front, none if it
/// already fills the field.
pub open spec fn spec_pad_left(s: Seq<char>, w: int) -> Seq<char> {
    spec_spaces(w - s.len()) + s
}

/// `s` left-aligned in a field `w` wide: spaces behind.
pub open spec fn spec_pad_right(s: Seq<char>, w: int) -> Seq<char> {
    s + spec_spaces(w - s.len())
}

fn pad_left(s: &String, w: usize) -> (r: String)
    ensures
        r@ == spec_pad_left(s@, w as int),
{
    let len = s.as_str().unicode_len();
    let mut r = if len < w {
        spaces(w - len)
    } else {
        String::new()
    };
    r.append(s.as_str());
    proof {
        assert(r@ =~= spec_pad_left(s@, w as int));
    }
    r
}

fn pad_right(s: &String, w: usize) -> (r: String)
    ensures
        r@ == spec_pad_right(s@, w as int),
{
    let len = s.as_str().unicode_len();
    let mut r = s.clone();
    if len < w {
        let sp = spaces(w - len);
        r.append(sp.as_str());
    }
    proof {
        assert(r@ =~= spec_pad_right(s@, w as int));
    }
    r
}

/// The displayed identifier: the first seven characters, or the whole
/// identifier when it is naturally shorter.
pub open spec fn spec_short_id(s: Seq<char>) -> Seq<char> {
    if s.len() <= 7 {
        s
    } else {
        s.take(7)
    }
}

pub fn short_id(s: &String) -> (r: String)
    ensures
        r@ == spec_short_id(s@),
{
    let len = s.as_str().unicode_len();
    if len <= 7 {
        s.clone()
    } else {
        let sub = s.as_str().substring_char(0, 7);
        proof {
            assert(sub@ =~= s@.take(7));
        }
        String::from_str(sub)
    }
}

/// One machine-readable line:
/// time, relative path, short id, `+ins`, `-del`, summary, tab-separated.
pub open spec fn spec_raw_line(t: Seq<char>, rec: RecView) -> Seq<char> {
    t + seq!['\t'] + rec.repo + seq!['\t'] + spec_short_id(rec.id) + seq!['\t'] + seq!['+']
        + spec_udec(rec.insertions as nat) + seq!['\t'] + seq!['-'] + spec_udec(rec.deletions as nat)
        + seq!['\t'] + rec.summary
}

pub fn format_raw_line(t: &String, rec: &CommitRecord) -> (r: String)
    ensures
        r@ == spec_raw_line(t@, rec.deep_view()),
{
    let mut s = t.clone();
    s.append("\t");
    s.append(rec.repo.as_str());
    s.append("\t");
    let sid = short_id(&rec.id);
    s.append(sid.as_str());
    s.append("\t");
    s.append("+");
    let ins = u64_to_string(rec.insertions as u64);
    s.append(ins.as_str());
    s.append("\t");
    s.append("-");
    let del = u64_to_string(rec.deletions as u64);
    s.append(del.as_str());
    s.append("\t");
    s.append(rec.summary.as_str());
    proof {
        reveal_strlit("\t");
        reveal_strlit("+");
        reveal_strlit("-");
        assert(s@ =~= spec_raw_line(t@, rec.deep_view()));
    }
    s
}

/// One human-readable line: the same fields with the repository column
/// left-aligned to `rw`, the signed counts right-aligned to `iw` and `dw`
/// (the sign included in the width), and visually distinct emphasis for
/// repository, identifier, insertions and deletions.
pub open spec fn spec_human_line(t: Seq<char>, rec: RecView, rw: int, iw: int, dw: int) -> Seq<
    char,
> {
    t + "  "@ + "\x1b[1m"@ + spec_pad_right(rec.repo, rw) + "\x1b[0m"@ + "  "@ + "\x1b[2m"@
        + spec_short_id(rec.id) + "\x1b[0m"@ + "  "@ + "\x1b[32m"@ + spec_pad_left(
        seq!['+'] + spec_udec(rec.insertions as nat),
        iw,
    ) + "\x1b[0m"@ + " "@ + "\x1b[31m"@ + spec_pad_left(
        seq!['-'] + spec_udec(rec.deletions as nat),
        dw,
    ) + "\x1b[0m"@ + "  "@ + rec.summary
}

pub fn format_human_line(t: &String, rec: &CommitRecord, rw: usize, iw: usize, dw: usize) -> (r:
    String)
    ensures
        r@ == spec_human_line(t@, rec.deep_view(), rw as int, iw as int, dw as int),
{
    let mut s = t.clone();
    s.append("  ");
    s.append("\x1b[1m");
    let repo_padded = pad_right(&rec.repo, rw);
    s.append(repo_padded.as_str());
    s.append("\x1b[0m");
    s.append("  ");
    s.append("\x1b[2m");
    let sid = short_id(&rec.id);
    s.append(sid.as_str());
    s.append("\x1b[0m");
    s.append("  ");
    s.append("\x1b[32m");
    let mut plus = String::from_str("+");
    let ins = u64_to_string(rec.insertions as u64);
    plus.append(ins.as_str());
    proof {
        reveal_strlit("+");
        assert(plus@ =~= seq!['+'] + spec_udec(rec.insertions as nat));
    }
    let plus_padded = pad_left(&plus, iw);
    s.append(plus_padded.as_str());
    s.append("\x1b[0m");
    s.append(" ");
    s.append("\x1b[31m");
    let mut minus = String::from_str("-");
    let del = u64_to_string(rec.deletions as u64);
    minus.append(del.as_str());
    proof {
        reveal_strlit("-");
        assert(minus@ =~= seq!['-'] + spec_udec(rec.deletions as nat));
    }
    let minus_padded = pad_left(&minus, dw);
    s.append(minus_padded.as_str());
    s.append("\x1b[0m");
    s.append("  ");
    s.append(rec.summary.as_str());
    proof {
        assert(s@ =~= spec_human_line(t@, rec.deep_view(), rw as int, iw as int, dw as int));
    }
    s
}

// --- column widths, computed over the displayed records only ---

pub open spec fn spec_max(a: int, b: int) -> int {
    if a >= b {
        a
    } else {
        b
    }
}

/// The width of the repository column: the longest displayed relative
/// path (zero when nothing is displayed).
pub open spec fn spec_repo_width(s: Seq<RecView>) -> int
    decreases s.len(),
{
    if s.len() == 0 {
        0
    } else {
        spec_max(spec_repo_width(s.drop_last()), s.last().repo.len() as int)
    }
}

/// The width of the insertion column before its sign: the widest
/// displayed count (one when nothing is displayed).
pub open spec fn spec_ins_width(s: Seq<RecView>) -> int
    decreases s.len(),
{
    if s.len() == 0 {
        1
    } else {
        spec_max(spec_ins_width(s.drop_last()), spec_udec(s.last().insertions as nat).len() as int)
    }
}

pub open spec fn spec_del_width(s: Seq<RecView>) -> int
    decreases s.len(),
{
    if s.len() == 0 {
        1
    } else {
        spec_max(spec_del_width(s.drop_last()), spec_udec(s.last().deletions as nat).len() as int)
    }
}

fn repo_width_of(v: &Vec<CommitRecord>) -> (r: usize)
    ensures
        r as int == spec_repo_width(v.deep_view()),
{
    let ghost m = v.deep_view();
    let mut w: usize = 0;
    let mut i: usize = 0;
    while i < v.len()
        invariant
            i <= v@.len(),
            m == v.deep_view(),
            m.len() == v@.len(),
            w as int == spec_repo_width(m.take(i as int)),
        decreases v@.len() - i,
    {
        let l = v[i].repo.as_str().unicode_len();
        if l > w {
            w = l;
        }
        proof {
            assert(m.take(i as int + 1).drop_last() =~= m.take(i as int));
            assert(m.take(i as int + 1).last() == m[i as int]);
            assert(v@[i as int].deep_view() == m[i as int]);
        }
        i += 1;
    }
    proof {
        assert(m.take(v@.len() as int) =~= m);
    }
    w
}

fn ins_width_of(v: &Vec<CommitRecord>) -> (r: usize)
    ensures
        r as int == spec_ins_width(v.deep_view()),
{
    let ghost m = v.deep_view();
    let mut w: usize = 1;
    let mut i: usize = 0;
    while i < v.len()
        invariant
            i <= v@.len(),
            m == v.deep_view(),
            m.len() == v@.len(),
            w as int == spec_ins_width(m.take(i as int)),
        decreases v@.len() - i,
    {
        let l = u64_width(v[i].insertions as u64);
        if l > w {
            w = l;
        }
        proof {
            assert(m.take(i as int + 1).drop_last() =~= m.take(i as int));
            assert(m.take(i as int + 1).last() == m[i as int]);
            assert(v@[i as int].deep_view() == m[i as int]);
        }
        i += 1;
    }
    proof {
        assert(m.take(v@.len() as int) =~= m);
    }
    w
}

fn del_width_of(v: &Vec<CommitRecord>) -> (r: usize)
    ensures
        r as int == spec_del_width(v.deep_view()),
{
    let ghost m = v.deep_view();
    let mut w: usize = 1;
    let mut i: usize = 0;
    while i < v.len()
        invariant
            i <= v@.len(),
            m == v.deep_view(),
            m.len() == v@.len(),
            w as int == spec_del_width(m.take(i as int)),
        decreases v@.len() - i,
    {
        let l = u64_width(v[i].deletions as u64);
        if l > w {
            w = l;
        }
        proof {
            assert(m.take(i as int + 1).drop_last() =~= m.take(i as int));
            assert(m.take(i as int + 1).last() == m[i as int]);
            assert(v@[i as int].deep_view() == m[i as int]);
        }
        i += 1;
    }
    proof {
        assert(m.take(v@.len() as int) =~= m);
    }
    w
}

// --- the window labels ---

/// The window description used in error messages.
pub open spec fn spec_window_description(flags: ScanFlags) -> Seq<char> {
    if flags.today {
        "today"@
    } else if flags.month {
        "this month"@
    } else if flags.last_month {
        "last month"@
    } else {
        "the last "@ + spec_idec(flags.days as int) + " days"@
    }
}

pub fn window_description(flags: &ScanFlags) -> (r: String)
    ensures
        r@ == spec_window_description(*flags),
{
    if flags.today {
        String::from_str("today")
    } else if flags.month {
        String::from_str("this month")
    } else if flags.last_month {
        String::from_str("last month")
    } else {
        let mut s = String::from_str("the last ");
        let d = i64_to_string(flags.days);
        s.append(d.as_str());
        s.append(" days");
        proof {
            reveal_strlit("the last ");
            reveal_strlit(" days");
            assert(s@ =~= spec_window_description(*flags));
        }
        s
    }
}

/// The window label of the trailing summary line.
pub open spec fn spec_summary_window_label(flags: ScanFlags) -> Seq<char> {
    if flags.today {
        "today"@
    } else if flags.month {
        "this month"@
    } else if flags.last_month {
        "last month"@
    } else {
        "last "@ + spec_idec(flags.days as int) + " days"@
    }
}

pub fn summary_window_label(flags: &ScanFlags) -> (r: String)
    ensures
        r@ == spec_summary_window_label(*flags),
{
    if flags.today {
        String::from_str("today")
    } else if flags.month {
        String::from_str("this month")
    } else if flags.last_month {
        String::from_str("last month")
    } else {
        let mut s = String::from_str("last ");
        let d = i64_to_string(flags.days);
        s.append(d.as_str());
        s.append(" days");
        proof {
            reveal_strlit("last ");
            reveal_strlit(" days");
            assert(s@ =~= spec_summary_window_label(*flags));
        }
        s
    }
}

// --- the whole rendered output ---

/// The line "N commits shown (window)".
pub open spec fn spec_count_line(n: int, flags: ScanFlags) -> Seq<char> {
    spec_udec(if n >= 0 {
        n as nat
    } else {
        0
    }) + " commits shown ("@ + spec_summary_window_label(flags) + ")"@
}

/// The line "Total LoC: +ins -del", with the counts emphasised.
pub open spec fn spec_totals_line(tot_ins: int, tot_del: int) -> Seq<char> {
    "Total LoC: "@ + "\x1b[32m+"@ + spec_udec(if tot_ins >= 0 {
        tot_ins as nat
    } else {
        0
    }) + "\x1b[0m \x1b[31m-"@ + spec_udec(if tot_del >= 0 {
        tot_del as nat
    } else {
        0
    }) + "\x1b[0m"@
}

/// The rendered output: one line per displayed commit, and, unless the
/// machine-readable mode is chosen, a blank line followed by the count
/// line and the totals line.
pub open spec fn spec_render(
    recs: Seq<RecView>,
    times: Seq<Seq<char>>,
    flags: ScanFlags,
    tot_ins: int,
    tot_del: int,
) -> Seq<Seq<char>> {
    let rw = spec_repo_width(recs);
    let iw = spec_ins_width(recs) + 1;
    let dw = spec_del_width(recs) + 1;
    let body = Seq::new(
        recs.len(),
        |i: int|
            if flags.raw {
                spec_raw_line(times[i], recs[i])
            } else {
                spec_human_line(times[i], recs[i], rw, iw, dw)
            },
    );
    if flags.raw {
        body
    } else {
        body + seq![
            Seq::<char>::empty(),
            spec_count_line(recs.len() as int, flags),
            spec_totals_line(tot_ins, tot_del),
        ]
    }
}

/// Renders the aggregated feed. `times` holds the local-time rendering of
/// each displayed commit, in the same order.
pub fn render_feed(
    feed: &Vec<CommitRecord>,
    times: &Vec<String>,
    flags: &ScanFlags,
    tot_ins: usize,
    tot_del: usize,
) -> (r: Vec<String>)
    requires
        times@.len() == feed@.len(),
    ensures
        texts_view(r@) == spec_render(
            feed.deep_view(),
            texts_view(times@),
            *flags,
            tot_ins as int,
            tot_del as int,
        ),
{
    let ghost m = feed.deep_view();
    let ghost tv = texts_view(times@);
    let rw = repo_width_of(feed);
    let iw = ins_width_of(feed).saturating_add(1);
    let dw = del_width_of(feed).saturating_add(1);
    proof {
        assert forall|k: int| 0 <= k < m.len() implies 0 <= (#[trigger] m[k]).insertions
            < 0x10000000000000000 && 0 <= m[k].deletions < 0x10000000000000000 by {
            assert(m[k] == feed@[k].deep_view());
        }
        lemma_ins_width_bound(m);
        lemma_del_width_bound(m);
        assert(iw as int == spec_ins_width(m) + 1);
        assert(dw as int == spec_del_width(m) + 1);
    }
    let ghost body = Seq::new(
        m.len(),
        |i: int|
            if flags.raw {
                spec_raw_line(tv[i], m[i])
            } else {
                spec_human_line(tv[i], m[i], spec_repo_width(m), spec_ins_width(m) + 1, spec_del_width(m) + 1)
            },
    );
    let mut out: Vec<String> = Vec::new();
    let mut i: usize = 0;
    while i < feed.len()
        invariant
            i <= feed@.len(),
            times@.len() == feed@.len(),
            m == feed.deep_view(),
            m.len() == feed@.len(),
            tv == texts_view(times@),
            rw as int == spec_repo_width(m),
            iw as int == spec_ins_width(m) + 1,
            dw as int == spec_del_width(m) + 1,
            body == Seq::new(
                m.len(),
                |k: int|
                    if flags.raw {
                        spec_raw_line(tv[k], m[k])
                    } else {
                        spec_human_line(tv[k], m[k], spec_repo_width(m), spec_ins_width(m) + 1, spec_del_width(m) + 1)
                    },
            ),
            texts_view(out@) == body.take(i as int),
        decreases feed@.len() - i,
    {
        let line = if flags.raw {
            format_raw_line(&times[i], &feed[i])
        } else {
            format_human_line(&times[i], &feed[i], rw, iw, dw)
        };
        proof {
            assert(times@[i as int]@ == tv[i as int]);
            assert(feed@[i as int].deep_view() == m[i as int]);
            if flags.raw {
                assert(line@ == spec_raw_line(tv[i as int], m[i as int]));
            } else {
                assert(line@ == spec_human_line(
                    tv[i as int],
                    m[i as int],
                    spec_repo_width(m),
                    spec_ins_width(m) + 1,
                    spec_del_width(m) + 1,
                ));
            }
            assert(line@ == body[i as int]);
        }
        let ghost pre_lines = texts_view(out@);
        let ghost lv = line@;
        out.push(line);
        proof {
            assert(texts_view(out@) =~= pre_lines.push(lv));
            assert(body.take(i as int + 1) =~= body.take(i as int).push(body[i as int]));
            assert(texts_view(out@) =~= body.take(i as int + 1));
        }
        i += 1;
    }
    proof {
        assert(body.take(m.len() as int) =~= body);
    }
    if flags.raw {
        out
    } else {
        out.push(String::new());
        let mut count_line = u64_to_string(feed.len() as u64);
        count_line.append(" commits shown (");
        let label = summary_window_label(flags);
        count_line.append(label.as_str());
        count_line.append(")");
        proof {
            reveal_strlit(" commits shown (");
            reveal_strlit(")");
            assert(count_line@ =~= spec_count_line(m.len() as int, *flags));
        }
        out.push(count_line);
        let mut totals_line = String::from_str("Total LoC: ");
        totals_line.append("\x1b[32m+");
        let ti = u64_to_string(tot_ins as u64);
        totals_line.append(ti.as_str());
        totals_line.append("\x1b[0m \x1b[31m-");
        let td = u64_to_string(tot_del as u64);
        totals_line.append(td.as_str());
        totals_line.append("\x1b[0m");
        proof {
            reveal_strlit("Total LoC: ");
            assert(totals_line@ =~= spec_totals_line(tot_ins as int, tot_del as int));
        }
        out.push(totals_line);
        proof {
            assert(texts_view(out@) =~= spec_render(m, tv, *flags, tot_ins as int, tot_del as int));
        }
        out
    }
}

/// Powers of ten.
pub open spec fn spec_pow10(k: nat) -> nat
    decreases k,
{
    if k == 0 {
        1
    } else {
        10 * spec_pow10((k - 1) as nat)
    }
}

/// A count below `10^k` renders in at most `k` digits.
proof fn lemma_udec_len_le(n: nat, k: nat)
    requires
        k >= 1,
        n < spec_pow10(k),
    ensures
        spec_udec(n).len() <= k,
    decreases n,
{
    if n < 10 {
    } else {
        assert(spec_pow10(k) == 10 * spec_pow10((k - 1) as nat));
        assert(k >= 2) by {
            if k == 1 {
                assert(spec_pow10(1nat) == 10);
            }
        }
        assert(n / 10 < spec_pow10((k - 1) as nat)) by (nonlinear_arith)
            requires
                n < 10 * spec_pow10((k - 1) as nat),
                n >= 10,
        ;
        lemma_udec_len_le(n / 10, (k - 1) as nat);
    }
}

/// The number columns never get wider than twenty digits: each count is
/// a machine word, below `10^20`.
proof fn lemma_ins_width_bound(s: Seq<RecView>)
    requires
        forall|k: int| 0 <= k < s.len() ==> 0 <= (#[trigger] s[k]).insertions < 0x10000000000000000,
    ensures
        spec_ins_width(s) <= 20,
    decreases s.len(),
{
    if s.len() > 0 {
        lemma_ins_width_bound(s.drop_last());
        lemma_pow10_20_large();
        lemma_udec_len_le(s.last().insertions as nat, 20);
    }
}

proof fn lemma_del_width_bound(s: Seq<RecView>)
    requires
        forall|k: int| 0 <= k < s.len() ==> 0 <= (#[trigger] s[k]).deletions < 0x10000000000000000,
    ensures
        spec_del_width(s) <= 20,
    decreases s.len(),
{
    if s.len() > 0 {
        lemma_del_width_bound(s.drop_last());
        lemma_pow10_20_large();
        lemma_udec_len_le(s.last().deletions as nat, 20);
    }
}

proof fn lemma_pow10_20_large()
    ensures
        spec_pow10(20) >= 0x10000000000000000,
{
    reveal_with_fuel(spec_pow10, 21);
}

} // verus!
