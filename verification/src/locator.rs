//! The repository locator: a depth-first search over a snapshot of the
//! directory tree for directories that carry a repository marker at their
//! top level. A marked directory is reported and not descended into,
//! symlinked children are never entered, and the result comes in
//! lexicographically sorted order of the relative paths.

use vstd::prelude::*;
use vstd::string::StringExecFns;
use vstd::string::StrSliceExecFns;

verus! {

broadcast use {
    vstd::std_specs::vec::group_vec_axioms,
    vstd::seq_lib::group_to_multiset_ensures,
};

/// One directory of the scanned tree, as the filesystem reported it:
/// its entry name, whether a repository marker sits at its top level,
/// whether the directory itself is a symbolic link, and its
/// subdirectories.
pub struct DirNode {
    pub name: String,
    pub has_marker: bool,
    pub symlink: bool,
    pub children: Vec<DirNode>,
}

/// `name` appended to `prefix` as one more path component.
pub open spec fn spec_join(prefix: Seq<char>, name: Seq<char>) -> Seq<char> {
    if prefix.len() == 0 {
        name
    } else {
        prefix + seq!['/'] + name
    }
}

/// The relative paths of the repository roots found under `d` (which
/// itself stands at `prefix`), with `depth_left` more levels allowed:
/// a marked directory is itself the only find in its subtree; an
/// unmarked one at the depth bound hides everything below it; otherwise
/// its non-symlink children are searched, in order.
pub open spec fn spec_repos_in(d: DirNode, depth_left: int, prefix: Seq<char>) -> Seq<Seq<char>>
    decreases d, 0int,
{
    if depth_left < 0 {
        Seq::empty()
    } else if d.has_marker {
        seq![prefix]
    } else {
        spec_repos_in_kids(d.children@, depth_left - 1, prefix)
    }
}

/// What one child contributes: nothing for a symlink, else its own finds.
pub open spec fn spec_kid_contrib(k: DirNode, depth_left: int, prefix: Seq<char>) -> Seq<
    Seq<char>,
>
    decreases k, 1int,
{
    if k.symlink {
        Seq::empty()
    } else {
        spec_repos_in(k, depth_left, spec_join(prefix, k.name@))
    }
}

pub open spec fn spec_repos_in_kids(kids: Seq<DirNode>, depth_left: int, prefix: Seq<char>) -> Seq<
    Seq<char>,
>
    decreases kids, 2int,
{
    if kids.len() == 0 {
        Seq::empty()
    } else {
        spec_kid_contrib(kids[0], depth_left, prefix) + spec_repos_in_kids(
            kids.drop_first(),
            depth_left,
            prefix,
        )
    }
}

/// A marked directory is reported as itself alone: the search never
/// descends below a found repository root, whatever lies underneath.
pub proof fn lemma_marker_stops_descent(d: DirNode, depth_left: int, prefix: Seq<char>)
    requires
        d.has_marker,
        depth_left >= 0,
    ensures
        spec_repos_in(d, depth_left, prefix) == seq![prefix],
{
}

/// An unmarked directory at the depth bound hides its whole subtree.
pub proof fn lemma_depth_bound_stops_descent(d: DirNode, prefix: Seq<char>)
    requires
        !d.has_marker,
    ensures
        spec_repos_in(d, 0, prefix) =~= Seq::<Seq<char>>::empty(),
{
    assert(spec_repos_in_kids(d.children@, -1, prefix) =~= Seq::<Seq<char>>::empty()) by {
        lemma_negative_depth_kids(d.children@, prefix);
    }
}

proof fn lemma_negative_depth_kids(kids: Seq<DirNode>, prefix: Seq<char>)
    ensures
        spec_repos_in_kids(kids, -1, prefix) =~= Seq::<Seq<char>>::empty(),
    decreases kids,
{
    if kids.len() > 0 {
        lemma_negative_depth_kids(kids.drop_first(), prefix);
        assert(spec_kid_contrib(kids[0], -1, prefix) =~= Seq::<Seq<char>>::empty()) by {
            if !kids[0].symlink {
                assert(spec_repos_in(kids[0], -1, spec_join(prefix, kids[0].name@))
                    =~= Seq::<Seq<char>>::empty());
            }
        }
    }
}

/// A symlinked child is never entered: what stands in its place makes no
/// difference as long as it is a symlink too.
pub proof fn lemma_symlink_not_entered(
    kids: Seq<DirNode>,
    n: int,
    other: DirNode,
    depth_left: int,
    prefix: Seq<char>,
)
    requires
        0 <= n < kids.len(),
        kids[n].symlink,
        other.symlink,
    ensures
        spec_repos_in_kids(kids.update(n, other), depth_left, prefix) == spec_repos_in_kids(
            kids,
            depth_left,
            prefix,
        ),
    decreases kids,
{
    let upd = kids.update(n, other);
    if n == 0 {
        assert(upd.drop_first() =~= kids.drop_first());
        assert(spec_kid_contrib(upd[0], depth_left, prefix) =~= spec_kid_contrib(
            kids[0],
            depth_left,
            prefix,
        ));
    } else {
        assert(upd[0] == kids[0]);
        assert(upd.drop_first() =~= kids.drop_first().update(n - 1, other));
        lemma_symlink_not_entered(kids.drop_first(), n - 1, other, depth_left, prefix);
    }
}

pub fn join_path(prefix: &String, name: &String) -> (r: String)
    ensures
        r@ == spec_join(prefix@, name@),
{
    if prefix.as_str().unicode_len() == 0 {
        name.clone()
    } else {
        let mut s = prefix.clone();
        s.append("/");
        s.append(name.as_str());
        proof {
            reveal_strlit("/");
            assert(s@ =~= spec_join(prefix@, name@));
        }
        s
    }
}

/// The view of a vector of path strings.
pub open spec fn paths_view(v: Seq<String>) -> Seq<Seq<char>> {
    v.map_values(|s: String| s@)
}

proof fn lemma_kids_take_snoc(kids: Seq<DirNode>, n: int, depth_left: int, prefix: Seq<char>)
    requires
        0 <= n < kids.len(),
    ensures
        spec_repos_in_kids(kids.take(n + 1), depth_left, prefix) == spec_repos_in_kids(
            kids.take(n),
            depth_left,
            prefix,
        ) + spec_kid_contrib(kids[n], depth_left, prefix),
    decreases n,
{
    let one = kids.take(n + 1);
    let pre = kids.take(n);
    if n == 0 {
        assert(one =~= seq![kids[0]]);
        assert(one.drop_first() =~= Seq::<DirNode>::empty());
        assert(pre =~= Seq::<DirNode>::empty());
        assert(spec_repos_in_kids(one, depth_left, prefix) =~= spec_repos_in_kids(
            pre,
            depth_left,
            prefix,
        ) + spec_kid_contrib(kids[0], depth_left, prefix));
    } else {
        lemma_kids_take_snoc(kids.drop_first(), n - 1, depth_left, prefix);
        assert(one.drop_first() =~= kids.drop_first().take(n));
        assert(pre.drop_first() =~= kids.drop_first().take(n - 1));
        assert(one[0] == kids[0]);
        assert(pre[0] == kids[0]);
        assert(kids.drop_first()[n - 1] == kids[n]);
        assert(spec_repos_in_kids(one, depth_left, prefix) =~= spec_repos_in_kids(
            pre,
            depth_left,
            prefix,
        ) + spec_kid_contrib(kids[n], depth_left, prefix));
    }
}

/// Depth-first collection of the repository roots under `dir`, appended
/// to `repos` as paths relative to the scan base.
pub fn collect_repos(dir: &DirNode, depth_left: usize, prefix: &String, repos: &mut Vec<String>)
    ensures
        paths_view(final(repos)@) == paths_view(old(repos)@) + spec_repos_in(
            *dir,
            depth_left as int,
            prefix@,
        ),
    decreases *dir,
{
    if dir.has_marker {
        repos.push(prefix.clone());
        proof {
            assert(paths_view(repos@) =~= paths_view(old(repos)@) + spec_repos_in(
                *dir,
                depth_left as int,
                prefix@,
            ));
        }
        return ;
    }
    let ghost pre = paths_view(repos@);
    let ghost dl = depth_left as int - 1;
    let mut i: usize = 0;
    while i < dir.children.len()
        invariant
            i <= dir.children.len(),
            dl == depth_left as int - 1,
            pre == paths_view(old(repos)@),
            paths_view(repos@) == pre + spec_repos_in_kids(dir.children@.take(i as int), dl, prefix@),
        decreases dir.children.len() - i,
    {
        let child = &dir.children[i];
        if !child.symlink && depth_left > 0 {
            let child_prefix = join_path(prefix, &child.name);
            collect_repos(child, depth_left - 1, &child_prefix, repos);
        }
        proof {
            lemma_kids_take_snoc(dir.children@, i as int, dl, prefix@);
            if child.symlink || depth_left == 0 {
                if depth_left == 0 {
                    if !child.symlink {
                        lemma_depth_bound_child(*child, dl, prefix@);
                    }
                }
                assert(spec_kid_contrib(dir.children@[i as int], dl, prefix@)
                    =~= Seq::<Seq<char>>::empty());
                assert(paths_view(repos@) =~= pre + spec_repos_in_kids(
                    dir.children@.take(i as int + 1),
                    dl,
                    prefix@,
                ));
            } else {
                assert(paths_view(repos@) =~= pre + spec_repos_in_kids(
                    dir.children@.take(i as int + 1),
                    dl,
                    prefix@,
                ));
            }
        }
        i += 1;
    }
    proof {
        assert(dir.children@.take(dir.children@.len() as int) =~= dir.children@);
    }
}

proof fn lemma_depth_bound_child(d: DirNode, depth_left: int, prefix: Seq<char>)
    requires
        depth_left < 0,
    ensures
        spec_kid_contrib(d, depth_left, prefix) =~= Seq::<Seq<char>>::empty(),
{
}

// --- faithful snapshots: distinct, never-nested reports ---

/// A directory entry name as a real listing yields it: nonempty, with no
/// path separator inside.
pub open spec fn clean_name(n: Seq<char>) -> bool {
    n.len() > 0 && forall|i: int| 0 <= i < n.len() ==> n[i] != '/'
}

/// A faithful snapshot of a directory tree: within every directory the
/// child names are clean and pairwise distinct, as a real filesystem
/// guarantees.
pub open spec fn wf_dir(d: DirNode) -> bool
    decreases d, 0int,
{
    wf_kids(d.children@)
}

pub open spec fn wf_kids(kids: Seq<DirNode>) -> bool
    decreases kids, 1int,
{
    &&& (forall|i: int, j: int|
        #![trigger kids[i].name@, kids[j].name@]
        0 <= i < j < kids.len() ==> kids[i].name@ != kids[j].name@)
    &&& (forall|i: int| 0 <= i < kids.len() ==> clean_name((#[trigger] kids[i]).name@))
    &&& (forall|i: int| 0 <= i < kids.len() ==> wf_dir(#[trigger] kids[i]))
}

/// `p` lies at or below the directory whose relative path is `prefix`:
/// it is that path itself, or continues it after a separator (every path
/// lies below the empty base path).
pub open spec fn extends_path(p: Seq<char>, prefix: Seq<char>) -> bool {
    &&& p.len() >= prefix.len()
    &&& p.take(prefix.len() as int) == prefix
    &&& (p.len() == prefix.len() || prefix.len() == 0 || p[prefix.len() as int] == '/')
}

proof fn lemma_extends_self(p: Seq<char>)
    ensures
        extends_path(p, p),
{
    assert(p.take(p.len() as int) =~= p);
}

/// Everything the search reports under `d` lies at or below `d`'s path.
proof fn lemma_repos_ext(d: DirNode, dl: int, prefix: Seq<char>)
    ensures
        forall|k: int|
            0 <= k < spec_repos_in(d, dl, prefix).len() ==> extends_path(
                #[trigger] spec_repos_in(d, dl, prefix)[k],
                prefix,
            ),
    decreases d, 0int,
{
    if dl < 0 {
    } else if d.has_marker {
        lemma_extends_self(prefix);
    } else {
        let s = spec_repos_in_kids(d.children@, dl - 1, prefix);
        assert forall|k: int| 0 <= k < s.len() implies extends_path(s[k], prefix) by {
            lemma_kids_ext_at(d.children@, dl - 1, prefix, k);
            let i = choose|i: int|
                0 <= i < d.children@.len() && !d.children@[i].symlink && #[trigger] extends_path(
                    spec_repos_in_kids(d.children@, dl - 1, prefix)[k],
                    spec_join(prefix, d.children@[i].name@),
                );
            lemma_extends_join(s[k], prefix, d.children@[i].name@);
        }
    }
}

proof fn lemma_extends_join(p: Seq<char>, prefix: Seq<char>, n: Seq<char>)
    requires
        extends_path(p, spec_join(prefix, n)),
    ensures
        extends_path(p, prefix),
{
    if prefix.len() == 0 {
        assert(p.take(0) =~= prefix);
    } else {
        let j = spec_join(prefix, n);
        assert(j == prefix + seq!['/'] + n);
        assert forall|k: int| 0 <= k < prefix.len() implies p.take(prefix.len() as int)[k]
            == prefix[k] by {
            assert(p[k] == p.take(j.len() as int)[k]);
            assert(j[k] == prefix[k]);
        }
        assert(p.take(prefix.len() as int) =~= prefix);
        assert(p[prefix.len() as int] == j[prefix.len() as int]);
        assert(j[prefix.len() as int] == '/');
    }
}

/// The find at position `k` under `kids` lies below one non-symlink
/// child.
proof fn lemma_kids_ext_at(kids: Seq<DirNode>, dl: int, prefix: Seq<char>, k: int)
    requires
        0 <= k < spec_repos_in_kids(kids, dl, prefix).len(),
    ensures
        exists|i: int|
            0 <= i < kids.len() && !kids[i].symlink && #[trigger] extends_path(
                spec_repos_in_kids(kids, dl, prefix)[k],
                spec_join(prefix, kids[i].name@),
            ),
    decreases kids, 1int,
{
    let s = spec_repos_in_kids(kids, dl, prefix);
    let head = spec_kid_contrib(kids[0], dl, prefix);
    let rest = spec_repos_in_kids(kids.drop_first(), dl, prefix);
    if k < head.len() {
        assert(s[k] == head[k]);
        assert(!kids[0].symlink);
        assert(head == spec_repos_in(kids[0], dl, spec_join(prefix, kids[0].name@)));
        lemma_repos_ext(kids[0], dl, spec_join(prefix, kids[0].name@));
        assert(extends_path(
            spec_repos_in(kids[0], dl, spec_join(prefix, kids[0].name@))[k],
            spec_join(prefix, kids[0].name@),
        ));
        assert(extends_path(s[k], spec_join(prefix, kids[0].name@)));
    } else {
        assert(s[k] == rest[k - head.len()]);
        lemma_kids_ext_at(kids.drop_first(), dl, prefix, k - head.len());
        let i0 = choose|i0: int|
            0 <= i0 < kids.drop_first().len() && !kids.drop_first()[i0].symlink
                && #[trigger] extends_path(
                rest[k - head.len()],
                spec_join(prefix, kids.drop_first()[i0].name@),
            );
        assert(kids.drop_first()[i0] == kids[i0 + 1]);
        assert(extends_path(s[k], spec_join(prefix, kids[i0 + 1].name@)));
    }
}

/// Two paths carrying distinct clean components after the same prefix
/// cannot stand in the lies-below relation.
proof fn lemma_component_clash(
    p: Seq<char>,
    q: Seq<char>,
    prefix: Seq<char>,
    n1: Seq<char>,
    n2: Seq<char>,
)
    requires
        extends_path(p, spec_join(prefix, n1)),
        extends_path(q, spec_join(prefix, n2)),
        clean_name(n1),
        clean_name(n2),
        n1 != n2,
    ensures
        !extends_path(q, p),
{
    if extends_path(q, p) {
        let base: int = if prefix.len() == 0 {
            0
        } else {
            prefix.len() as int + 1
        };
        let j1 = spec_join(prefix, n1);
        let j2 = spec_join(prefix, n2);
        assert(j1.len() == base + n1.len());
        assert(j2.len() == base + n2.len());
        assert forall|k: int| 0 <= k < n1.len() implies p[base + k] == n1[k] by {
            assert(p[base + k] == p.take(j1.len() as int)[base + k]);
            assert(j1[base + k] == n1[k]);
        }
        assert forall|k: int| 0 <= k < n2.len() implies q[base + k] == n2[k] by {
            assert(q[base + k] == q.take(j2.len() as int)[base + k]);
            assert(j2[base + k] == n2[k]);
        }
        assert forall|k: int| 0 <= k < n1.len() implies q[base + k] == n1[k] by {
            assert(base + k < p.len());
            assert(q[base + k] == q.take(p.len() as int)[base + k]);
        }
        if n1.len() == n2.len() {
            assert forall|k: int| 0 <= k < n1.len() implies n1[k] == n2[k] by {
                assert(q[base + k] == n1[k]);
                assert(q[base + k] == n2[k]);
            }
            assert(n1 =~= n2);
        } else if n1.len() < n2.len() {
            let pos = base + n1.len();
            assert(q.len() >= j2.len());
            assert(q[pos] == n2[n1.len() as int]);
            assert(q[pos] != '/');
            if p.len() == pos {
                assert(q.len() > p.len());
                assert(p.len() > 0);
                assert(q[p.len() as int] == '/');
            } else {
                assert(p.len() > pos);
                assert(p[pos] == '/');
                assert(q[pos] == q.take(p.len() as int)[pos]);
            }
        } else {
            let pos = base + n2.len();
            assert(q.len() >= p.len() >= j1.len() > pos);
            assert(q[pos] == '/');
            assert(q[pos] == q.take(p.len() as int)[pos]);
            assert(p[pos] == p.take(j1.len() as int)[pos]);
            assert(j1[pos] == n1[n2.len() as int]);
            assert(p[pos] != '/');
        }
    }
}

/// Under a faithful snapshot, no two reported paths stand in the
/// lies-below relation: the catalogue is free of duplicates, and no
/// reported repository lies inside another (a found root is never
/// descended into, so nothing beneath one is ever reported).
pub proof fn lemma_repos_separated(d: DirNode, dl: int, prefix: Seq<char>)
    requires
        wf_dir(d),
    ensures
        forall|k1: int, k2: int|
            #![trigger spec_repos_in(d, dl, prefix)[k1], spec_repos_in(d, dl, prefix)[k2]]
            0 <= k1 < spec_repos_in(d, dl, prefix).len() && 0 <= k2 < spec_repos_in(
                d,
                dl,
                prefix,
            ).len() && k1 != k2 ==> !extends_path(
                spec_repos_in(d, dl, prefix)[k2],
                spec_repos_in(d, dl, prefix)[k1],
            ),
    decreases d, 0int,
{
    if dl < 0 {
    } else if d.has_marker {
    } else {
        lemma_kids_separated(d.children@, dl - 1, prefix);
        let s = spec_repos_in(d, dl, prefix);
        let sk = spec_repos_in_kids(d.children@, dl - 1, prefix);
        assert(s == sk);
        assert forall|k1: int, k2: int|
            #![trigger s[k1], s[k2]]
            0 <= k1 < s.len() && 0 <= k2 < s.len() && k1 != k2 implies !extends_path(
            s[k2],
            s[k1],
        ) by {
            assert(sk[k1] == s[k1]);
            assert(sk[k2] == s[k2]);
            assert(!extends_path(sk[k2], sk[k1]));
        }
    }
}

proof fn lemma_kids_separated(kids: Seq<DirNode>, dl: int, prefix: Seq<char>)
    requires
        wf_kids(kids),
    ensures
        forall|k1: int, k2: int|
            #![trigger spec_repos_in_kids(kids, dl, prefix)[k1], spec_repos_in_kids(kids, dl, prefix)[k2]]
            0 <= k1 < spec_repos_in_kids(kids, dl, prefix).len() && 0 <= k2 < spec_repos_in_kids(
                kids,
                dl,
                prefix,
            ).len() && k1 != k2 ==> !extends_path(
                spec_repos_in_kids(kids, dl, prefix)[k2],
                spec_repos_in_kids(kids, dl, prefix)[k1],
            ),
    decreases kids, 1int,
{
    if kids.len() == 0 {
    } else {
        let s = spec_repos_in_kids(kids, dl, prefix);
        let head = spec_kid_contrib(kids[0], dl, prefix);
        let rest = spec_repos_in_kids(kids.drop_first(), dl, prefix);
        let n0 = kids[0].name@;
        let dropped = kids.drop_first();
        assert(wf_kids(dropped)) by {
            assert forall|i: int| 0 <= i < dropped.len() implies clean_name(
                (#[trigger] dropped[i]).name@,
            ) && wf_dir(dropped[i]) by {
                assert(dropped[i] == kids[i + 1]);
            }
            assert forall|i: int, j: int|
                #![trigger dropped[i].name@, dropped[j].name@]
                0 <= i < j < dropped.len() implies dropped[i].name@ != dropped[j].name@ by {
                assert(dropped[i] == kids[i + 1]);
                assert(dropped[j] == kids[j + 1]);
                assert(kids[i + 1].name@ != kids[j + 1].name@);
            }
        }
        lemma_kids_separated(dropped, dl, prefix);
        if !kids[0].symlink {
            assert(wf_dir(kids[0]));
            lemma_repos_separated(kids[0], dl, spec_join(prefix, n0));
            lemma_repos_ext(kids[0], dl, spec_join(prefix, n0));
        }
        assert forall|k1: int, k2: int|
            #![trigger s[k1], s[k2]]
            0 <= k1 < s.len() && 0 <= k2 < s.len() && k1 != k2 implies !extends_path(
            s[k2],
            s[k1],
        ) by {
            if k1 < head.len() && k2 < head.len() {
                assert(s[k1] == head[k1]);
                assert(s[k2] == head[k2]);
                assert(!extends_path(
                    spec_repos_in(kids[0], dl, spec_join(prefix, n0))[k2],
                    spec_repos_in(kids[0], dl, spec_join(prefix, n0))[k1],
                ));
            } else if k1 >= head.len() && k2 >= head.len() {
                assert(s[k1] == rest[k1 - head.len()]);
                assert(s[k2] == rest[k2 - head.len()]);
                assert(!extends_path(rest[k2 - head.len()], rest[k1 - head.len()]));
            } else {
                let ka: int = if k1 < head.len() {
                    k1
                } else {
                    k2
                };
                let kb: int = if k1 < head.len() {
                    k2
                } else {
                    k1
                };
                assert(s[ka] == head[ka]);
                assert(s[kb] == rest[kb - head.len()]);
                assert(!kids[0].symlink);
                assert(head == spec_repos_in(kids[0], dl, spec_join(prefix, n0)));
                assert(extends_path(
                    spec_repos_in(kids[0], dl, spec_join(prefix, n0))[ka],
                    spec_join(prefix, n0),
                ));
                assert(extends_path(head[ka], spec_join(prefix, n0)));
                assert(rest[kb - head.len()] == spec_repos_in_kids(dropped, dl, prefix)[kb
                    - head.len()]);
                lemma_kids_ext_at(dropped, dl, prefix, kb - head.len());
                let i0 = choose|i0: int|
                    0 <= i0 < dropped.len() && !dropped[i0].symlink && #[trigger] extends_path(
                        rest[kb - head.len()],
                        spec_join(prefix, dropped[i0].name@),
                    );
                assert(dropped[i0] == kids[i0 + 1]);
                let nb = kids[i0 + 1].name@;
                assert(n0 != nb);
                assert(clean_name(n0) && clean_name(nb));
                if k1 < head.len() {
                    lemma_component_clash(s[k1], s[k2], prefix, n0, nb);
                } else {
                    lemma_component_clash(s[k1], s[k2], prefix, nb, n0);
                }
            }
        }
    }
}

// --- lexicographic order on paths and a stable insertion sort ---

/// Lexicographic order on character sequences, by code point.
pub open spec fn lex_le(a: Seq<char>, b: Seq<char>) -> bool
    decreases a.len(),
{
    if a.len() == 0 {
        true
    } else if b.len() == 0 {
        false
    } else if (a[0] as int) < (b[0] as int) {
        true
    } else if (a[0] as int) > (b[0] as int) {
        false
    } else {
        lex_le(a.drop_first(), b.drop_first())
    }
}

pub proof fn lemma_lex_le_total(a: Seq<char>, b: Seq<char>)
    ensures
        lex_le(a, b) || lex_le(b, a),
    decreases a.len(),
{
    if a.len() == 0 {
    } else if b.len() == 0 {
    } else if a[0] as int == b[0] as int {
        lemma_lex_le_total(a.drop_first(), b.drop_first());
    }
}

pub proof fn lemma_lex_le_trans(a: Seq<char>, b: Seq<char>, c: Seq<char>)
    requires
        lex_le(a, b),
        lex_le(b, c),
    ensures
        lex_le(a, c),
    decreases a.len(),
{
    if a.len() == 0 {
    } else if b.len() == 0 {
    } else if c.len() == 0 {
    } else if a[0] as int == b[0] as int && b[0] as int == c[0] as int {
        lemma_lex_le_trans(a.drop_first(), b.drop_first(), c.drop_first());
    }
}

pub fn str_lex_le(a: &str, b: &str) -> (r: bool)
    ensures
        r == lex_le(a@, b@),
    decreases a@.len(),
{
    let alen = a.unicode_len();
    let blen = b.unicode_len();
    if alen == 0 {
        true
    } else if blen == 0 {
        false
    } else {
        let ca = a.get_char(0) as u32;
        let cb = b.get_char(0) as u32;
        if ca < cb {
            true
        } else if ca > cb {
            false
        } else {
            let ra = a.substring_char(1, alen);
            let rb = b.substring_char(1, blen);
            proof {
                assert(ra@ =~= a@.drop_first());
                assert(rb@ =~= b@.drop_first());
            }
            str_lex_le(ra, rb)
        }
    }
}

/// `x` inserted into `s` behind every element that precedes or equals it:
/// a stable insertion.
pub open spec fn insert_lex(s: Seq<Seq<char>>, x: Seq<char>) -> Seq<Seq<char>>
    decreases s.len(),
{
    if s.len() == 0 {
        seq![x]
    } else if lex_le(s.last(), x) {
        s.push(x)
    } else {
        insert_lex(s.drop_last(), x).push(s.last())
    }
}

/// Insertion sort of the paths, in lexicographic order.
pub open spec fn sort_lex(s: Seq<Seq<char>>) -> Seq<Seq<char>>
    decreases s.len(),
{
    if s.len() == 0 {
        Seq::empty()
    } else {
        insert_lex(sort_lex(s.drop_last()), s.last())
    }
}

proof fn lemma_insert_lex_at(s: Seq<Seq<char>>, x: Seq<char>, p: int)
    requires
        0 <= p <= s.len(),
        forall|j: int| p <= j < s.len() ==> !lex_le(#[trigger] s[j], x),
        p > 0 ==> lex_le(s[p - 1], x),
    ensures
        insert_lex(s, x) == s.take(p) + seq![x] + s.skip(p),
    decreases s.len(),
{
    if p == s.len() {
        if s.len() == 0 {
            assert(insert_lex(s, x) =~= s.take(p) + seq![x] + s.skip(p));
        } else {
            assert(lex_le(s.last(), x));
            assert(insert_lex(s, x) =~= s.take(p) + seq![x] + s.skip(p));
        }
    } else {
        assert(!lex_le(s.last(), x));
        let dl = s.drop_last();
        lemma_insert_lex_at(dl, x, p);
        assert(dl.take(p) =~= s.take(p));
        assert(insert_lex(s, x) =~= s.take(p) + seq![x] + s.skip(p));
    }
}

/// Sorting neither adds nor loses a path: insertion keeps the multiset.
pub proof fn lemma_insert_lex_multiset(s: Seq<Seq<char>>, x: Seq<char>)
    ensures
        insert_lex(s, x).to_multiset() == s.to_multiset().insert(x),
    decreases s.len(),
{
    if s.len() == 0 {
        assert(insert_lex(s, x) =~= Seq::<Seq<char>>::empty().push(x));
        assert(Seq::<Seq<char>>::empty().push(x).to_multiset() =~= s.to_multiset().insert(x));
    } else if lex_le(s.last(), x) {
    } else {
        let dl = s.drop_last();
        lemma_insert_lex_multiset(dl, x);
        assert(s =~= dl.push(s.last()));
        assert(s.to_multiset() =~= dl.to_multiset().insert(s.last()));
        assert(insert_lex(s, x).to_multiset() =~= insert_lex(dl, x).to_multiset().insert(s.last()));
        assert(insert_lex(s, x).to_multiset() =~= s.to_multiset().insert(x)) by {
            assert(dl.to_multiset().insert(x).insert(s.last()) =~= dl.to_multiset().insert(
                s.last(),
            ).insert(x));
        }
    }
}

/// The sorted catalogue holds exactly the found paths.
pub proof fn lemma_sort_lex_multiset(s: Seq<Seq<char>>)
    ensures
        sort_lex(s).to_multiset() == s.to_multiset(),
    decreases s.len(),
{
    if s.len() > 0 {
        let dl = s.drop_last();
        lemma_sort_lex_multiset(dl);
        lemma_insert_lex_multiset(sort_lex(dl), s.last());
        assert(s =~= dl.push(s.last()));
        assert(s.to_multiset() =~= dl.to_multiset().insert(s.last()));
    }
}

/// The sorted catalogue is in lexicographic order.
pub open spec fn lex_sorted(s: Seq<Seq<char>>) -> bool {
    forall|i: int, j: int| 0 <= i <= j < s.len() ==> lex_le(#[trigger] s[i], #[trigger] s[j])
}

proof fn lemma_insert_lex_sorted(s: Seq<Seq<char>>, x: Seq<char>)
    requires
        lex_sorted(s),
    ensures
        lex_sorted(insert_lex(s, x)),
    decreases s.len(),
{
    lemma_lex_reflexive_all();
    if s.len() == 0 {
    } else if lex_le(s.last(), x) {
        let r = s.push(x);
        assert forall|i: int, j: int| 0 <= i <= j < r.len() implies lex_le(#[trigger] r[i], #[trigger] r[j]) by {
            if j < s.len() {
            } else if i < s.len() {
                lemma_lex_le_trans(s[i], s.last(), x);
            }
        }
    } else {
        let dl = s.drop_last();
        lemma_insert_lex_sorted(dl, x);
        let inner = insert_lex(dl, x);
        let r = inner.push(s.last());
        lemma_lex_le_total(s.last(), x);
        lemma_insert_lex_multiset(dl, x);
        assert forall|i: int, j: int| 0 <= i <= j < r.len() implies lex_le(#[trigger] r[i], #[trigger] r[j]) by {
            if j < inner.len() {
            } else if i < inner.len() {
                assert(inner.to_multiset().count(inner[i]) > 0);
                assert(dl.to_multiset().insert(x).count(inner[i]) > 0);
                if inner[i] == x {
                    assert(lex_le(x, s.last()));
                } else {
                    assert(dl.to_multiset().count(inner[i]) > 0);
                    assert(dl.contains(inner[i]));
                    let k = choose|k: int| 0 <= k < dl.len() && dl[k] == inner[i];
                    assert(lex_le(s[k], s.last()));
                }
            } else {
                assert(lex_le(s.last(), s.last()));
            }
        }
    }
}

proof fn lemma_lex_reflexive_all()
    ensures
        forall|a: Seq<char>| #[trigger] lex_le(a, a),
{
    assert forall|a: Seq<char>| #[trigger] lex_le(a, a) by {
        lemma_lex_le_total(a, a);
    }
}

pub proof fn lemma_sort_lex_sorted(s: Seq<Seq<char>>)
    ensures
        lex_sorted(sort_lex(s)),
    decreases s.len(),
{
    if s.len() > 0 {
        lemma_sort_lex_sorted(s.drop_last());
        lemma_insert_lex_sorted(sort_lex(s.drop_last()), s.last());
    }
}

fn find_insert_pos(out: &Vec<String>, x: &String) -> (p: usize)
    ensures
        p <= out@.len(),
        forall|j: int| p <= j < out@.len() ==> !lex_le(paths_view(out@)[j], x@),
        p > 0 ==> lex_le(paths_view(out@)[p - 1], x@),
{
    let mut i: usize = out.len();
    while i > 0
        invariant
            i <= out@.len(),
            forall|j: int| i <= j < out@.len() ==> !lex_le(paths_view(out@)[j], x@),
        decreases i,
    {
        if str_lex_le(out[i - 1].as_str(), x.as_str()) {
            return i;
        }
        i -= 1;
    }
    0
}

fn insert_sorted(out: &mut Vec<String>, x: String)
    ensures
        paths_view(final(out)@) == insert_lex(paths_view(old(out)@), x@),
{
    let i = find_insert_pos(out, &x);
    let ghost s = paths_view(out@);
    let ghost p = i as int;
    out.insert(i, x);
    proof {
        lemma_insert_lex_at(s, x@, p);
        assert(paths_view(out@) =~= s.take(p) + seq![x@] + s.skip(p));
    }
}

/// Sorts the collected paths lexicographically (a stable insertion sort).
pub fn sort_paths(v: &mut Vec<String>)
    ensures
        paths_view(final(v)@) == sort_lex(paths_view(old(v)@)),
{
    let ghost m = paths_view(v@);
    let mut out: Vec<String> = Vec::new();
    let mut i: usize = 0;
    while i < v.len()
        invariant
            i <= v.len(),
            v@ == old(v)@,
            m == paths_view(v@),
            paths_view(out@) == sort_lex(m.take(i as int)),
        decreases v.len() - i,
    {
        let x = v[i].clone();
        insert_sorted(&mut out, x);
        proof {
            assert(m.take(i as int + 1).drop_last() =~= m.take(i as int));
            assert(m.take(i as int + 1).last() == m[i as int]);
        }
        i += 1;
    }
    proof {
        assert(m.take(v@.len() as int) =~= m);
    }
    *v = out;
}

/// The repository locator: every repository root in the tree snapshot,
/// within the depth bound, as a sorted list of paths relative to the
/// base. Over a faithful snapshot the paths are pairwise distinct, and
/// no reported repository lies below another.
pub fn find_repos(base: &DirNode, max_depth: usize) -> (r: Vec<String>)
    ensures
        paths_view(r@) == sort_lex(spec_repos_in(*base, max_depth as int, Seq::empty())),
        paths_view(r@).to_multiset() == spec_repos_in(
            *base,
            max_depth as int,
            Seq::empty(),
        ).to_multiset(),
        lex_sorted(paths_view(r@)),
        wf_dir(*base) ==> paths_view(r@).no_duplicates(),
        wf_dir(*base) ==> forall|k1: int, k2: int|
            #![trigger paths_view(r@)[k1], paths_view(r@)[k2]]
            0 <= k1 < paths_view(r@).len() && 0 <= k2 < paths_view(r@).len() && k1 != k2
                ==> !extends_path(paths_view(r@)[k2], paths_view(r@)[k1]),
{
    let mut repos: Vec<String> = Vec::new();
    let empty_prefix = String::new();
    collect_repos(base, max_depth, &empty_prefix, &mut repos);
    proof {
        assert(paths_view(repos@) =~= spec_repos_in(*base, max_depth as int, Seq::empty()));
    }
    sort_paths(&mut repos);
    proof {
        let cat = spec_repos_in(*base, max_depth as int, Seq::empty());
        lemma_sort_lex_multiset(cat);
        lemma_sort_lex_sorted(cat);
        if wf_dir(*base) {
            lemma_repos_separated(*base, max_depth as int, Seq::empty());
            assert forall|k1: int, k2: int|
                #![trigger cat[k1], cat[k2]]
                0 <= k1 < cat.len() && 0 <= k2 < cat.len() && k1 != k2 implies cat[k1]
                != cat[k2] by {
                if cat[k1] == cat[k2] {
                    lemma_extends_self(cat[k1]);
                    assert(extends_path(cat[k2], cat[k1]));
                }
            }
            assert(cat.no_duplicates());
            cat.lemma_multiset_has_no_duplicates();
            let sv = paths_view(repos@);
            assert forall|x: Seq<char>|
                sv.to_multiset().contains(x) implies sv.to_multiset().count(x) == 1 by {
                assert(cat.to_multiset().contains(x));
            }
            sv.lemma_multiset_has_no_duplicates_conv();
            assert forall|k1: int, k2: int|
                #![trigger sv[k1], sv[k2]]
                0 <= k1 < sv.len() && 0 <= k2 < sv.len() && k1 != k2 implies !extends_path(
                sv[k2],
                sv[k1],
            ) by {
                assert(sv[k1] != sv[k2]);
                assert(sv.to_multiset().count(sv[k1]) > 0);
                assert(sv.to_multiset().count(sv[k2]) > 0);
                assert(cat.to_multiset().count(sv[k1]) > 0);
                assert(cat.to_multiset().count(sv[k2]) > 0);
                assert(cat.contains(sv[k1]));
                assert(cat.contains(sv[k2]));
                let i1 = choose|i1: int| 0 <= i1 < cat.len() && cat[i1] == sv[k1];
                let i2 = choose|i2: int| 0 <= i2 < cat.len() && cat[i2] == sv[k2];
                assert(i1 != i2);
                assert(!extends_path(cat[i2], cat[i1]));
            }
        }
    }
    repos
}

} // verus!
