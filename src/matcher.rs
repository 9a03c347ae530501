//! Deciding whether a directory is a project: every pattern has to be
//! satisfied by some entry at the depth its position asks for.

use vstd::prelude::*;

use crate::glob::glob_matches;
use crate::pattern::{Kind, Pattern, Position};
use crate::tree::{DirTree, EntryKind};

verus! {

/// Whether an entry of kind `entry` can satisfy a pattern of kind `kind`.
pub open spec fn kind_fits(kind: Kind, entry: EntryKind) -> bool {
    match kind {
        Kind::File => entry == EntryKind::File,
        Kind::Directory => entry == EntryKind::Directory,
    }
}

/// The `k`th child of `node` itself satisfies the pattern (`kind`,
/// `target`) whose position at `node` is `pos`.
pub open spec fn direct_at(
    t: &DirTree,
    node: int,
    kind: Kind,
    target: Seq<char>,
    pos: Position,
    k: int,
) -> bool {
    let c = t.child(node, k);
    &&& node < c < t.size()
    &&& pos.is_active()
    &&& kind_fits(kind, t.entries@[c].kind)
    &&& glob_matches(target, t.entries@[c].name@)
}

/// Whether the pattern (`kind`, `target`) at position `pos` is satisfied
/// inside `node` through its children from the `k`th on: by a child
/// itself, or inside a child directory that the position descends into.
pub open spec fn satisfied_from(
    t: &DirTree,
    node: int,
    kind: Kind,
    target: Seq<char>,
    pos: Position,
    k: int,
) -> bool
    decreases t.size() - node, t.child_count(node) - k,
{
    if node < 0 || node >= t.size() || k < 0 || k >= t.child_count(node) {
        false
    } else {
        let c = t.child(node, k);
        ||| direct_at(t, node, kind, target, pos, k)
        ||| (node < c < t.size() && t.entries@[c].kind == EntryKind::Directory && match pos.descend_spec(
            t.entries@[c].name@,
        ) {
            Some(q) => satisfied_from(t, c, kind, target, q, 0),
            None => false,
        })
        ||| satisfied_from(t, node, kind, target, pos, k + 1)
    }
}

/// The pattern is satisfied inside the `k`th child of `node`, a directory
/// that the position descends into.
pub open spec fn deep_at(
    t: &DirTree,
    node: int,
    kind: Kind,
    target: Seq<char>,
    pos: Position,
    k: int,
) -> bool {
    let c = t.child(node, k);
    node < c < t.size() && t.entries@[c].kind == EntryKind::Directory && match pos.descend_spec(
        t.entries@[c].name@,
    ) {
        Some(q) => satisfied_from(t, c, kind, target, q, 0),
        None => false,
    }
}

/// The `k`th child of `node` has the kind of `p`, and its name matches the
/// target glob of `p`.
pub open spec fn child_matches(t: &DirTree, node: int, k: int, p: Pattern) -> bool {
    let c = t.child(node, k);
    kind_fits(p.kind, t.entries@[c].kind) && glob_matches(p.target@, t.entries@[c].name@)
}

/// Some child of `node` has the kind of `p` and a name that its target
/// glob matches.
pub open spec fn has_matching_child(t: &DirTree, node: int, p: Pattern) -> bool {
    exists|k: int| 0 <= k < t.child_count(node) && #[trigger] child_matches(t, node, k, p)
}

/// Whether `p`, at position `pos`, is satisfied somewhere inside `node`.
pub open spec fn satisfied_at(t: &DirTree, node: int, p: Pattern, pos: Position) -> bool {
    satisfied_from(t, node, p.kind, p.target@, pos, 0)
}

/// Whether `p` is satisfied inside the directory `node`.
pub open spec fn satisfied(t: &DirTree, node: int, p: Pattern) -> bool {
    satisfied_at(t, node, p, p.position)
}

/// Whether the directory `t` is a project for `patterns`.
pub open spec fn is_project(t: &DirTree, patterns: Seq<Pattern>) -> bool {
    forall|i: int| 0 <= i < patterns.len() ==> satisfied(t, 0, #[trigger] patterns[i])
}

/// Satisfaction from the `k`th child on is a satisfying child, or a child
/// directory that satisfies the pattern below it, from `k` on.
pub proof fn lemma_satisfied_from(
    t: &DirTree,
    node: int,
    kind: Kind,
    target: Seq<char>,
    pos: Position,
    k: int,
)
    requires
        0 <= node < t.size(),
        0 <= k,
    ensures
        satisfied_from(t, node, kind, target, pos, k) <==> exists|m: int|
            k <= m < t.child_count(node) && (direct_at(t, node, kind, target, pos, m) || deep_at(
                t,
                node,
                kind,
                target,
                pos,
                m,
            )),
    decreases t.child_count(node) - k,
{
    if k < t.child_count(node) {
        lemma_satisfied_from(t, node, kind, target, pos, k + 1);
        if direct_at(t, node, kind, target, pos, k) || deep_at(t, node, kind, target, pos, k) {
            assert(k <= k < t.child_count(node));
        }
    }
}

/// The `k`th child of `node` itself satisfies the pattern that `live[j]`
/// stands for.
pub open spec fn live_direct(
    t: &DirTree,
    node: int,
    patterns: Seq<Pattern>,
    live: Seq<(usize, &Position)>,
    j: int,
    k: int,
) -> bool {
    let p = patterns[live[j].0 as int];
    direct_at(t, node, p.kind, p.target@, *live[j].1, k)
}

/// The pattern that `live[j]` stands for is satisfied inside the `k`th
/// child of `node`.
pub open spec fn live_deep(
    t: &DirTree,
    node: int,
    patterns: Seq<Pattern>,
    live: Seq<(usize, &Position)>,
    j: int,
    k: int,
) -> bool {
    let p = patterns[live[j].0 as int];
    deep_at(t, node, p.kind, p.target@, *live[j].1, k)
}

/// The pattern that `live[j]` stands for is satisfied by the `k`th child
/// of `node` or inside it.
pub open spec fn live_hit(
    t: &DirTree,
    node: int,
    patterns: Seq<Pattern>,
    live: Seq<(usize, &Position)>,
    j: int,
    k: int,
) -> bool {
    live_direct(t, node, patterns, live, j, k) || live_deep(t, node, patterns, live, j, k)
}

/// Some entry of `live` for pattern `i` is satisfied inside `node`.
pub open spec fn found(
    t: &DirTree,
    node: int,
    patterns: Seq<Pattern>,
    live: Seq<(usize, &Position)>,
    i: int,
) -> bool {
    exists|j: int|
        0 <= j < live.len() && live[j].0 == i && #[trigger] satisfied_at(
            t,
            node,
            patterns[i],
            *live[j].1,
        )
}

/// A pattern is found inside `node` exactly when one of its entries in
/// `live` is satisfied by a child, or inside a child directory.
pub proof fn lemma_found(
    t: &DirTree,
    node: int,
    patterns: Seq<Pattern>,
    live: Seq<(usize, &Position)>,
    i: int,
)
    requires
        0 <= node < t.size(),
    ensures
        found(t, node, patterns, live, i) <==> exists|j: int, m: int|
            0 <= j < live.len() && 0 <= m < t.child_count(node) && live[j].0 == i && #[trigger] live_hit(t, node, patterns, live, j, m),
{
    if found(t, node, patterns, live, i) {
        let j = choose|j: int|
            0 <= j < live.len() && live[j].0 == i && #[trigger] satisfied_at(
                t,
                node,
                patterns[i],
                *live[j].1,
            );
        let p = patterns[i];
        lemma_satisfied_from(t, node, p.kind, p.target@, *live[j].1, 0);
        let m = choose|m: int|
            0 <= m < t.child_count(node) && (direct_at(t, node, p.kind, p.target@, *live[j].1, m)
                || deep_at(t, node, p.kind, p.target@, *live[j].1, m));
        assert(live_hit(t, node, patterns, live, j, m));
    }
    if exists|j: int, m: int|
        0 <= j < live.len() && 0 <= m < t.child_count(node) && live[j].0 == i && #[trigger] live_hit(t, node, patterns, live, j, m) {
        let (j, m) = choose|j: int, m: int|
            0 <= j < live.len() && 0 <= m < t.child_count(node) && live[j].0 == i && #[trigger] live_hit(t, node, patterns, live, j, m);
        let p = patterns[i];
        lemma_satisfied_from(t, node, p.kind, p.target@, *live[j].1, 0);
        assert(direct_at(t, node, p.kind, p.target@, *live[j].1, m) || deep_at(
            t,
            node,
            p.kind,
            p.target@,
            *live[j].1,
            m,
        ));
        assert(satisfied_at(t, node, patterns[i], *live[j].1));
    }
}

/// Pattern `i` is pending in `pending` and no entry of `live` for it is
/// satisfied by a child of `node` itself.
pub open spec fn pending_after_children(
    t: &DirTree,
    node: int,
    patterns: Seq<Pattern>,
    live: Seq<(usize, &Position)>,
    pending: Seq<bool>,
    i: int,
) -> bool {
    pending[i] && !exists|j: int, m: int|
        0 <= j < live.len() && 0 <= m < t.child_count(node) && live[j].0 == i
            && #[trigger] live_direct(t, node, patterns, live, j, m)
}

/// After the children of `node` have been checked, every entry of `live`
/// whose pattern is still pending applies at `node`'s level only: none of
/// them can be satisfied further down.
pub open spec fn only_here_left(
    t: &DirTree,
    node: int,
    patterns: Seq<Pattern>,
    live: Seq<(usize, &Position)>,
    pending: Seq<bool>,
) -> bool {
    forall|j: int|
        0 <= j < live.len() && pending_after_children(
            t,
            node,
            patterns,
            live,
            pending,
            #[trigger] live[j].0 as int,
        ) ==> *live[j].1 is Here
}

/// Whether an entry of kind `entry` can satisfy a pattern of kind `kind`.
fn fits(kind: Kind, entry: EntryKind) -> (r: bool)
    ensures
        r == kind_fits(kind, entry),
{
    match kind {
        Kind::File => entry == EntryKind::File,
        Kind::Directory => entry == EntryKind::Directory,
    }
}

/// Checks the children of the directory `node` themselves: every pattern
/// of `live` that one of them satisfies is no longer pending.
pub fn match_entries<'a>(
    pending: &mut Vec<bool>,
    tree: &DirTree,
    node: usize,
    patterns: &'a [Pattern],
    live: &Vec<(usize, &'a Position)>,
)
    requires
        tree.wf(),
        node < tree.size(),
        old(pending)@.len() == patterns@.len(),
        forall|j: int| 0 <= j < live@.len() ==> #[trigger] live@[j].0 < patterns@.len(),
    ensures
        final(pending)@.len() == old(pending)@.len(),
        forall|i: int|
            0 <= i < patterns@.len() ==> #[trigger] final(pending)@[i] == pending_after_children(
                tree,
                node as int,
                patterns@,
                live@,
                old(pending)@,
                i,
            ),
{
    let ghost t = tree;
    let ghost ps = patterns@;
    let ghost lv = live@;
    let ghost initial = pending@;
    let n_children = tree.entries[node].children.len();
    let mut k: usize = 0;
    while k < n_children
        invariant
            tree.wf(),
            node < tree.size(),
            n_children == tree.child_count(node as int),
            ps == patterns@,
            lv == live@,
            t == tree,
            forall|j: int| 0 <= j < lv.len() ==> #[trigger] lv[j].0 < ps.len(),
            pending@.len() == ps.len(),
            k <= n_children,
            forall|i: int|
                0 <= i < ps.len() ==> #[trigger] pending@[i] == (initial[i] && !exists|j: int, m: int|
                    0 <= j < lv.len() && 0 <= m < k && lv[j].0 == i && #[trigger] live_direct(
                        t,
                        node as int,
                        ps,
                        lv,
                        j,
                        m,
                    )),
        decreases n_children - k,
    {
        let c = tree.entries[node].children[k];
        let child = &tree.entries[c];
        let ghost before = pending@;
        let mut j: usize = 0;
        while j < live.len()
            invariant
                tree.wf(),
                node < tree.size(),
                n_children == tree.child_count(node as int),
                k < n_children,
                c == tree.child(node as int, k as int),
                child == tree.entries@[c as int],
                ps == patterns@,
                lv == live@,
                t == tree,
                forall|j: int| 0 <= j < lv.len() ==> #[trigger] lv[j].0 < ps.len(),
                pending@.len() == ps.len(),
                j <= lv.len(),
                forall|i: int|
                    0 <= i < ps.len() ==> #[trigger] pending@[i] == (before[i] && !exists|jj: int|
                        0 <= jj < j && lv[jj].0 == i && #[trigger] live_direct(
                            t,
                            node as int,
                            ps,
                            lv,
                            jj,
                            k as int,
                        )),
            decreases lv.len() - j,
        {
            let i = live[j].0;
            let pos = live[j].1;
            let p = &patterns[i];
            let hit = pos.applies_here() && fits(p.kind, child.kind) && p.target.is_match(
                child.name.as_str(),
            );
            let ghost mid = pending@;
            if hit {
                pending.set(i, false);
            }
            proof {
                assert(node < c < tree.size());
                assert(hit == live_direct(t, node as int, ps, lv, j as int, k as int));
                assert forall|x: int| 0 <= x < ps.len() implies #[trigger] pending@[x] == (before[x]
                    && !exists|jj: int|
                    0 <= jj < j + 1 && lv[jj].0 == x && #[trigger] live_direct(
                        t,
                        node as int,
                        ps,
                        lv,
                        jj,
                        k as int,
                    )) by {
                    if x == i && hit {
                        assert(live_direct(t, node as int, ps, lv, j as int, k as int));
                    }
                    if exists|jj: int|
                        0 <= jj < j + 1 && lv[jj].0 == x && #[trigger] live_direct(
                            t,
                            node as int,
                            ps,
                            lv,
                            jj,
                            k as int,
                        ) {
                        let jw = choose|jj: int|
                            0 <= jj < j + 1 && lv[jj].0 == x && #[trigger] live_direct(
                                t,
                                node as int,
                                ps,
                                lv,
                                jj,
                                k as int,
                            );
                        if jw < j {
                            assert(!mid[x]);
                        }
                    }
                }
            }
            j = j + 1;
        }
        proof {
            assert forall|i: int| 0 <= i < ps.len() implies #[trigger] pending@[i] == (initial[i]
                && !exists|j: int, m: int|
                0 <= j < lv.len() && 0 <= m < k + 1 && lv[j].0 == i && #[trigger] live_direct(
                    t,
                    node as int,
                    ps,
                    lv,
                    j,
                    m,
                )) by {
                if exists|j: int, m: int|
                    0 <= j < lv.len() && 0 <= m < k + 1 && lv[j].0 == i && #[trigger] live_direct(
                        t,
                        node as int,
                        ps,
                        lv,
                        j,
                        m,
                    ) {
                    let (jw, mw) = choose|j: int, m: int|
                        0 <= j < lv.len() && 0 <= m < k + 1 && lv[j].0 == i && #[trigger] live_direct(
                            t,
                            node as int,
                            ps,
                            lv,
                            j,
                            m,
                        );
                    if mw < k {
                        assert(!before[i]);
                    } else {
                        assert(live_direct(t, node as int, ps, lv, jw, k as int));
                    }
                }
            }
        }
        k = k + 1;
    }
}

/// A list of live entries, with their positions taken by value.
pub open spec fn live_view(live: Seq<(usize, &Position)>) -> Seq<(usize, Position)> {
    live.map_values(|e: (usize, &Position)| (e.0, *e.1))
}

/// The entries of `live` whose pattern is pending, each at its position
/// inside a child directory named `name`, where the position goes there.
pub open spec fn descend_live(
    live: Seq<(usize, &Position)>,
    pending: Seq<bool>,
    name: Seq<char>,
) -> Seq<(usize, Position)>
    decreases live.len(),
{
    if live.len() == 0 {
        Seq::empty()
    } else {
        let prev = descend_live(live.drop_last(), pending, name);
        let l = live.last();
        if pending[l.0 as int] {
            match (*l.1).descend_spec(name) {
                Some(q) => prev.push((l.0, q)),
                None => prev,
            }
        } else {
            prev
        }
    }
}

/// Among the first `k` children of `node`, in order, the directories that
/// some pending entry of `live` descends into.
pub open spec fn dirs_to_read_upto(
    t: &DirTree,
    node: int,
    live: Seq<(usize, &Position)>,
    pending: Seq<bool>,
    k: int,
) -> Seq<int>
    decreases k,
{
    if k <= 0 {
        Seq::empty()
    } else {
        let prev = dirs_to_read_upto(t, node, live, pending, k - 1);
        let c = t.child(node, k - 1);
        if t.entries@[c].kind == EntryKind::Directory && descend_live(
            live,
            pending,
            t.entries@[c].name@,
        ).len() > 0 {
            prev.push(c)
        } else {
            prev
        }
    }
}

/// Every entry of `live` whose pattern is pending applies at this level
/// only.
pub open spec fn only_here_pending(live: Seq<(usize, &Position)>, pending: Seq<bool>) -> bool {
    forall|j: int|
        0 <= j < live.len() && #[trigger] pending[live[j].0 as int] ==> *live[j].1 is Here
}

proof fn lemma_nothing_descends(live: Seq<(usize, &Position)>, pending: Seq<bool>, name: Seq<char>)
    requires
        only_here_pending(live, pending),
    ensures
        descend_live(live, pending, name).len() == 0,
    decreases live.len(),
{
    if live.len() > 0 {
        let rest = live.drop_last();
        assert forall|j: int|
            0 <= j < rest.len() && #[trigger] pending[rest[j].0 as int] implies *rest[j].1 is Here by {
            assert(rest[j] == live[j]);
        }
        lemma_nothing_descends(rest, pending, name);
        if pending[live.last().0 as int] {
            assert(live.last() == live[live.len() - 1]);
        }
    }
}

proof fn lemma_no_dirs_to_read(
    t: &DirTree,
    node: int,
    live: Seq<(usize, &Position)>,
    pending: Seq<bool>,
    k: int,
)
    requires
        only_here_pending(live, pending),
    ensures
        dirs_to_read_upto(t, node, live, pending, k).len() == 0,
    decreases k,
{
    if k > 0 {
        lemma_no_dirs_to_read(t, node, live, pending, k - 1);
        lemma_nothing_descends(live, pending, t.entries@[t.child(node, k - 1)].name@);
    }
}

/// Once the children of `node` have been checked (`match_entries` turned
/// `before` into `after`), if every entry still pending applies at `node`'s
/// level only, then `dirs_to_read` gives no directory to read.
pub proof fn lemma_exhausted_reads_nothing(
    t: &DirTree,
    node: int,
    patterns: Seq<Pattern>,
    live: Seq<(usize, &Position)>,
    before: Seq<bool>,
    after: Seq<bool>,
)
    requires
        before.len() == patterns.len(),
        after.len() == patterns.len(),
        forall|j: int| 0 <= j < live.len() ==> #[trigger] live[j].0 < patterns.len(),
        forall|i: int|
            0 <= i < patterns.len() ==> #[trigger] after[i] == pending_after_children(
                t,
                node,
                patterns,
                live,
                before,
                i,
            ),
        only_here_left(t, node, patterns, live, before),
    ensures
        only_here_pending(live, after),
        dirs_to_read_upto(t, node, live, after, t.child_count(node)).len() == 0,
{
    assert forall|j: int| 0 <= j < live.len() && #[trigger] after[live[j].0 as int] implies *live[j].1
        is Here by {
        assert(pending_after_children(t, node, patterns, live, before, live[j].0 as int));
    }
    lemma_no_dirs_to_read(t, node, live, after, t.child_count(node));
}

/// A fresh check of `patterns`: all of them pending, each at its own
/// position.
pub fn start<'a>(patterns: &'a [Pattern]) -> (r: (Vec<bool>, Vec<(usize, &'a Position)>))
    ensures
        r.0@.len() == patterns@.len(),
        r.1@.len() == patterns@.len(),
        forall|k: int| 0 <= k < patterns@.len() ==> #[trigger] r.0@[k],
        forall|k: int|
            0 <= k < patterns@.len() ==> #[trigger] r.1@[k] == (k as usize, &patterns@[k].position),
{
    let n = patterns.len();
    let mut pending: Vec<bool> = Vec::new();
    let mut live: Vec<(usize, &Position)> = Vec::new();
    let mut i: usize = 0;
    while i < n
        invariant
            n == patterns@.len(),
            i <= n,
            pending@.len() == i,
            live@.len() == i,
            forall|k: int| 0 <= k < i ==> #[trigger] pending@[k],
            forall|k: int| 0 <= k < i ==> #[trigger] live@[k] == (k as usize, &patterns@[k].position),
        decreases n - i,
    {
        pending.push(true);
        live.push((i, &patterns[i].position));
        i = i + 1;
    }
    (pending, live)
}

/// The child directories of `node` to read next, in order, each with the
/// entries of `live` to look for inside it: those whose pattern is still
/// pending, at their position one level down. Directories that no pending
/// entry can go into are left out; where every pending entry applies at
/// `node`'s level only, nothing is left to read.
pub fn dirs_to_read<'a>(
    pending: &Vec<bool>,
    tree: &DirTree,
    node: usize,
    patterns: &'a [Pattern],
    live: &Vec<(usize, &'a Position)>,
) -> (r: Vec<(usize, Vec<(usize, &'a Position)>)>)
    requires
        tree.wf(),
        node < tree.size(),
        pending@.len() == patterns@.len(),
        forall|j: int| 0 <= j < live@.len() ==> #[trigger] live@[j].0 < patterns@.len(),
    ensures
        r@.map_values(|e: (usize, Vec<(usize, &'a Position)>)| e.0 as int) == dirs_to_read_upto(
            tree,
            node as int,
            live@,
            pending@,
            tree.child_count(node as int),
        ),
        forall|q: int|
            0 <= q < r@.len() ==> node < #[trigger] r@[q].0 < tree.size() && live_view(r@[q].1@)
                == descend_live(live@, pending@, tree.entries@[r@[q].0 as int].name@),
        forall|q: int, j: int|
            0 <= q < r@.len() && 0 <= j < r@[q].1@.len() ==> #[trigger] r@[q].1@[j].0
                < patterns@.len(),
        only_here_pending(live@, pending@) ==> r@.len() == 0,
{
    let n_children = tree.entries[node].children.len();
    let mut out: Vec<(usize, Vec<(usize, &'a Position)>)> = Vec::new();
    let mut k: usize = 0;
    while k < n_children
        invariant
            tree.wf(),
            node < tree.size(),
            n_children == tree.child_count(node as int),
            pending@.len() == patterns@.len(),
            forall|j: int| 0 <= j < live@.len() ==> #[trigger] live@[j].0 < patterns@.len(),
            k <= n_children,
            out@.map_values(|e: (usize, Vec<(usize, &'a Position)>)| e.0 as int)
                == dirs_to_read_upto(tree, node as int, live@, pending@, k as int),
            forall|q: int|
                0 <= q < out@.len() ==> node < #[trigger] out@[q].0 < tree.size() && live_view(
                    out@[q].1@,
                ) == descend_live(live@, pending@, tree.entries@[out@[q].0 as int].name@),
            forall|q: int, j: int|
                0 <= q < out@.len() && 0 <= j < out@[q].1@.len() ==> #[trigger] out@[q].1@[j].0
                    < patterns@.len(),
        decreases n_children - k,
    {
        let c = tree.entries[node].children[k];
        let child = &tree.entries[c];
        proof {
            assert(node < c < tree.size());
        }
        let ghost before = out@;
        if child.kind == EntryKind::Directory {
            let name = child.name.as_str();
            let mut below: Vec<(usize, &'a Position)> = Vec::new();
            let mut j: usize = 0;
            proof {
                assert(live@.take(0) =~= Seq::<(usize, &Position)>::empty());
            }
            while j < live.len()
                invariant
                    pending@.len() == patterns@.len(),
                    forall|j: int| 0 <= j < live@.len() ==> #[trigger] live@[j].0 < patterns@.len(),
                    j <= live@.len(),
                    live_view(below@) == descend_live(live@.take(j as int), pending@, name@),
                    forall|x: int| 0 <= x < below@.len() ==> #[trigger] below@[x].0 < patterns@.len(),
                decreases live@.len() - j,
            {
                let i = live[j].0;
                let ghost prev = below@;
                proof {
                    assert(live@.take(j + 1).drop_last() =~= live@.take(j as int));
                    assert(live@.take(j + 1).last() == live@[j as int]);
                }
                if pending[i] {
                    match live[j].1.descend(name) {
                        Some(q) => {
                            below.push((i, q));
                            assert(live_view(below@) =~= live_view(prev).push((i, *q)));
                        },
                        None => {},
                    }
                }
                j = j + 1;
            }
            proof {
                assert(live@.take(live@.len() as int) =~= live@);
            }
            if below.len() > 0 {
                out.push((c, below));
            }
        }
        proof {
            assert(out@.map_values(|e: (usize, Vec<(usize, &'a Position)>)| e.0 as int) =~= if out@.len()
                > before.len() {
                before.map_values(|e: (usize, Vec<(usize, &'a Position)>)| e.0 as int).push(c as int)
            } else {
                before.map_values(|e: (usize, Vec<(usize, &'a Position)>)| e.0 as int)
            });
        }
        k = k + 1;
    }
    proof {
        if only_here_pending(live@, pending@) {
            lemma_no_dirs_to_read(tree, node as int, live@, pending@, n_children as int);
        }
    }
    out
}

/// Looks for the patterns of `live` inside the directory `node`, and marks
/// every pattern that it finds as no longer pending.
///
/// The children of `node` are checked first; only patterns still pending
/// afterwards, and only those whose position can go deeper, are looked for
/// in the child directories. The directories whose contents were read are
/// returned as a ghost record of the reads a walk of the filesystem that
/// makes the same decisions would do (`match_entries` and `dirs_to_read`
/// are its steps): `node` and some entries after it, and `node` alone where
/// no pending pattern can go deeper.
pub fn match_subtree<'a>(
    pending: &mut Vec<bool>,
    tree: &DirTree,
    node: usize,
    patterns: &'a [Pattern],
    live: &Vec<(usize, &'a Position)>,
) -> (visited: Ghost<Set<int>>)
    requires
        tree.wf(),
        node < tree.size(),
        old(pending)@.len() == patterns@.len(),
        forall|j: int| 0 <= j < live@.len() ==> #[trigger] live@[j].0 < patterns@.len(),
    ensures
        final(pending)@.len() == old(pending)@.len(),
        forall|i: int| 0 <= i < patterns@.len() && #[trigger] final(pending)@[i] ==> old(pending)@[i],
        forall|i: int|
            0 <= i < patterns@.len() ==> #[trigger] final(pending)@[i] == (old(pending)@[i] && !found(
                tree,
                node as int,
                patterns@,
                live@,
                i,
            )),
        visited@.contains(node as int),
        forall|x: int| #[trigger] visited@.contains(x) ==> node <= x < tree.size(),
        only_here_left(tree, node as int, patterns@, live@, old(pending)@) ==> visited@ == set![
            node as int,
        ],
    decreases tree.size() - node, 1int,
{
    let ghost t = tree;
    let ghost ps = patterns@;
    let ghost lv = live@;
    let ghost initial = pending@;
    let n_children = tree.entries[node].children.len();
    match_entries(pending, tree, node, patterns, live);
    let ghost after_children = pending@;
    let mut all_here = true;
    let mut j: usize = 0;
    while j < live.len()
        invariant
            tree.wf(),
            node < tree.size(),
            ps == patterns@,
            t == tree,
            n_children == tree.child_count(node as int),
            pending@ == after_children,
            pending@.len() == ps.len(),
            lv == live@,
            forall|j: int| 0 <= j < lv.len() ==> #[trigger] lv[j].0 < ps.len(),
            j <= lv.len(),
            all_here == forall|jj: int|
                0 <= jj < j && #[trigger] after_children[lv[jj].0 as int] ==> *lv[jj].1 is Here,
        decreases lv.len() - j,
    {
        if pending[live[j].0] && !live[j].1.is_here() {
            all_here = false;
        }
        j = j + 1;
    }
    let ghost mut visited: Set<int> = set![node as int];
    if !all_here {
        let below = descend_children(pending, tree, node, patterns, live);
        proof {
            visited = visited.union(below@);
        }
    }
    proof {
        assert forall|i: int| 0 <= i < ps.len() implies #[trigger] pending@[i] == (initial[i] && !found(
            t,
            node as int,
            ps,
            lv,
            i,
        )) by {
            lemma_found(t, node as int, ps, lv, i);
            if exists|j: int, m: int|
                0 <= j < lv.len() && 0 <= m < t.child_count(node as int) && lv[j].0 == i && #[trigger] live_hit(t, node as int, ps, lv, j, m) {
                let (j, m) = choose|j: int, m: int|
                    0 <= j < lv.len() && 0 <= m < t.child_count(node as int) && lv[j].0 == i && #[trigger] live_hit(t, node as int, ps, lv, j, m);
                if live_direct(t, node as int, ps, lv, j, m) {
                    assert(!after_children[i]);
                } else if all_here && after_children[i] {
                    assert(*lv[j].1 is Here);
                }
            } else {
                if exists|j: int, m: int|
                    0 <= j < lv.len() && 0 <= m < n_children && lv[j].0 == i
                        && #[trigger] live_direct(t, node as int, ps, lv, j, m) {
                    let (j, m) = choose|j: int, m: int|
                        0 <= j < lv.len() && 0 <= m < n_children && lv[j].0 == i
                            && #[trigger] live_direct(t, node as int, ps, lv, j, m);
                    assert(live_hit(t, node as int, ps, lv, j, m));
                }
                assert(after_children[i] == initial[i]);
                if !all_here {
                    if exists|j: int, m: int|
                        0 <= j < lv.len() && 0 <= m < n_children && lv[j].0 == i
                            && #[trigger] live_deep(t, node as int, ps, lv, j, m) {
                        let (j, m) = choose|j: int, m: int|
                            0 <= j < lv.len() && 0 <= m < n_children && lv[j].0 == i
                                && #[trigger] live_deep(t, node as int, ps, lv, j, m);
                        assert(live_hit(t, node as int, ps, lv, j, m));
                    }
                }
            }
        }
        if only_here_left(t, node as int, ps, lv, initial) {
            assert forall|jj: int| 0 <= jj < lv.len() && #[trigger] after_children[lv[jj].0 as int] implies *lv[jj].1 is Here by {
                assert(pending_after_children(t, node as int, ps, lv, initial, lv[jj].0 as int));
            }
        }
    }
    Ghost(visited)
}

/// The second half of `match_subtree`: looks for the patterns of `live`
/// that are still pending inside each child directory of `node` that
/// their positions descend into.
fn descend_children<'a>(
    pending: &mut Vec<bool>,
    tree: &DirTree,
    node: usize,
    patterns: &'a [Pattern],
    live: &Vec<(usize, &'a Position)>,
) -> (visited: Ghost<Set<int>>)
    requires
        tree.wf(),
        node < tree.size(),
        old(pending)@.len() == patterns@.len(),
        forall|j: int| 0 <= j < live@.len() ==> #[trigger] live@[j].0 < patterns@.len(),
    ensures
        final(pending)@.len() == old(pending)@.len(),
        forall|i: int|
            0 <= i < patterns@.len() ==> #[trigger] final(pending)@[i] == (old(pending)@[i]
                && !exists|j: int, m: int|
                0 <= j < live@.len() && 0 <= m < tree.child_count(node as int) && live@[j].0 == i
                    && #[trigger] live_deep(tree, node as int, patterns@, live@, j, m)),
        forall|x: int| #[trigger] visited@.contains(x) ==> node < x < tree.size(),
    decreases tree.size() - node, 0int,
{
    let ghost t = tree;
    let ghost ps = patterns@;
    let ghost lv = live@;
    let ghost after_children = pending@;
    let n_children = tree.entries[node].children.len();
    let ghost mut seen: Set<int> = Set::empty();
    let mut k: usize = 0;
    while k < n_children
        invariant
            forall|x: int| #[trigger] seen.contains(x) ==> node < x < tree.size(),
            tree.wf(),
            node < tree.size(),
            n_children == tree.child_count(node as int),
            ps == patterns@,
            lv == live@,
            t == tree,
            forall|j: int| 0 <= j < lv.len() ==> #[trigger] lv[j].0 < ps.len(),
            pending@.len() == ps.len(),
            k <= n_children,
            forall|i: int|
                0 <= i < ps.len() ==> #[trigger] pending@[i] == (after_children[i] && !exists|j: int, m: int|
                    0 <= j < lv.len() && 0 <= m < k && lv[j].0 == i && #[trigger] live_deep(
                        t,
                        node as int,
                        ps,
                        lv,
                        j,
                        m,
                    )),
        decreases n_children - k,
    {
        let c = tree.entries[node].children[k];
        let child = &tree.entries[c];
        let ghost before = pending@;
        proof {
            assert(node < c < tree.size());
        }
        if child.kind == EntryKind::Directory {
            let name = child.name.as_str();
            let mut relevant: Vec<(usize, &'a Position)> = Vec::new();
            let ghost mut from: Seq<int> = Seq::empty();
            let ghost mut to: Seq<int> = Seq::empty();
            let mut j: usize = 0;
            while j < live.len()
                invariant
                    tree.wf(),
                    node < tree.size(),
                    ps == patterns@,
                    t == tree,
                    pending@ == before,
                    pending@.len() == ps.len(),
                    lv == live@,
                    forall|j: int| 0 <= j < lv.len() ==> #[trigger] lv[j].0 < ps.len(),
                    j <= lv.len(),
                    name@ == child.name@,
                    relevant@.len() == from.len(),
                    forall|r: int|
                        0 <= r < from.len() ==> 0 <= #[trigger] from[r] < j && relevant@[r].0
                            == lv[from[r]].0 && relevant@[r].0 < ps.len() && (*lv[from[r]].1).descend_spec(name@) == Some(
                            *relevant@[r].1,
                        ),
                    to.len() == j,
                    forall|jj: int|
                        0 <= jj < j && before[lv[jj].0 as int] && (*lv[jj].1).descend_spec(
                            name@,
                        ) is Some ==> 0 <= #[trigger] to[jj] < from.len() && from[to[jj]] == jj,
                decreases lv.len() - j,
            {
                let i = live[j].0;
                let mut added = false;
                if pending[i] {
                    match live[j].1.descend(name) {
                        Some(q) => {
                            relevant.push((i, q));
                            added = true;
                        },
                        None => {},
                    }
                }
                proof {
                    if added {
                        to = to.push(from.len() as int);
                        from = from.push(j as int);
                    } else {
                        to = to.push(-1);
                    }
                }
                j = j + 1;
            }
            if relevant.len() > 0 {
                assert forall|r: int| 0 <= r < relevant@.len() implies #[trigger] relevant@[r].0
                    < patterns@.len() by {
                    assert(0 <= from[r]);
                }
                let below = match_subtree(pending, tree, c, patterns, &relevant);
                proof {
                    seen = seen.union(below@);
                }
            }
            proof {
                let rl = relevant@;
                assert forall|x: int| 0 <= x < ps.len() implies #[trigger] pending@[x] == (after_children[x]
                    && !exists|j: int, m: int|
                    0 <= j < lv.len() && 0 <= m < k + 1 && lv[j].0 == x && #[trigger] live_deep(
                        t,
                        node as int,
                        ps,
                        lv,
                        j,
                        m,
                    )) by {
                    if before[x] {
                        if exists|j: int| 0 <= j < lv.len() && lv[j].0 == x && #[trigger] live_deep(
                            t,
                            node as int,
                            ps,
                            lv,
                            j,
                            k as int,
                        ) {
                            let j = choose|j: int| 0 <= j < lv.len() && lv[j].0 == x && #[trigger] live_deep(
                                t,
                                node as int,
                                ps,
                                lv,
                                j,
                                k as int,
                            );
                            let r = to[j];
                            assert(satisfied_at(t, c as int, ps[x], *rl[r].1));
                            assert(found(t, c as int, ps, rl, x));
                        }
                        if relevant@.len() > 0 && found(t, c as int, ps, rl, x) {
                            let r = choose|r: int|
                                0 <= r < rl.len() && rl[r].0 == x && #[trigger] satisfied_at(
                                    t,
                                    c as int,
                                    ps[x],
                                    *rl[r].1,
                                );
                            assert(live_deep(t, node as int, ps, lv, from[r], k as int));
                        }
                    }
                    if exists|j: int, m: int|
                        0 <= j < lv.len() && 0 <= m < k + 1 && lv[j].0 == x && #[trigger] live_deep(
                            t,
                            node as int,
                            ps,
                            lv,
                            j,
                            m,
                        ) {
                        let (j, m) = choose|j: int, m: int|
                            0 <= j < lv.len() && 0 <= m < k + 1 && lv[j].0 == x && #[trigger] live_deep(
                                t,
                                node as int,
                                ps,
                                lv,
                                j,
                                m,
                            );
                        if m < k {
                            assert(!before[x]);
                        }
                    }
                }
            }
        } else {
            proof {
                assert forall|x: int| 0 <= x < ps.len() implies #[trigger] pending@[x] == (after_children[x]
                    && !exists|j: int, m: int|
                    0 <= j < lv.len() && 0 <= m < k + 1 && lv[j].0 == x && #[trigger] live_deep(
                        t,
                        node as int,
                        ps,
                        lv,
                        j,
                        m,
                    )) by {
                    if exists|j: int, m: int|
                        0 <= j < lv.len() && 0 <= m < k + 1 && lv[j].0 == x && #[trigger] live_deep(
                            t,
                            node as int,
                            ps,
                            lv,
                            j,
                            m,
                        ) {
                        let (j, m) = choose|j: int, m: int|
                            0 <= j < lv.len() && 0 <= m < k + 1 && lv[j].0 == x && #[trigger] live_deep(
                                t,
                                node as int,
                                ps,
                                lv,
                                j,
                                m,
                            );
                        if m < k {
                            assert(!before[x]);
                        }
                    }
                }
            }
        }
        k = k + 1;
    }
    Ghost(seen)
}

/// Whether the directory `tree` is a project: every pattern is satisfied
/// somewhere inside it, at the depth its position asks for. Entries that
/// are not directories are never descended into, and a pattern's kind has
/// to be the entry's kind.
///
/// `tree` may be a snapshot read lazily with `match_entries` and
/// `dirs_to_read`, where directories that no pending pattern can go into
/// were left unread (they have no children in the snapshot): the verdict is
/// then the one over the tree as read.
pub fn check_dir_is_project(patterns: &[Pattern], tree: &DirTree) -> (r: bool)
    requires
        tree.wf(),
    ensures
        r == is_project(tree, patterns@),
{
    let n = patterns.len();
    let (mut pending, live) = start(patterns);
    match_subtree(&mut pending, tree, 0, patterns, &live);
    let mut all_found = true;
    let mut k: usize = 0;
    while k < n
        invariant
            n == patterns@.len(),
            pending@.len() == n,
            k <= n,
            all_found == forall|x: int| 0 <= x < k ==> !#[trigger] pending@[x],
        decreases n - k,
    {
        if pending[k] {
            all_found = false;
        }
        k = k + 1;
    }
    proof {
        assert forall|x: int| 0 <= x < n implies #[trigger] pending@[x] == !satisfied(
            tree,
            0,
            patterns@[x],
        ) by {
            if satisfied(tree, 0, patterns@[x]) {
                assert(live@[x] == (x as usize, &patterns@[x].position));
                assert(satisfied_at(tree, 0, patterns@[x], *live@[x].1));
            }
        }
        if all_found {
            assert forall|x: int| 0 <= x < n implies satisfied(tree, 0, #[trigger] patterns@[x]) by {
                assert(!pending@[x]);
            }
        } else {
            let x = choose|x: int| 0 <= x < n && #[trigger] pending@[x];
            assert(!satisfied(tree, 0, patterns@[x]));
        }
    }
    all_found
}

/// For patterns that all apply at the checked level only, the directory
/// is a project exactly when each pattern is matched by one of its direct
/// children of the pattern's kind.
pub proof fn lemma_here_patterns(t: &DirTree, patterns: Seq<Pattern>)
    requires
        t.wf(),
        forall|i: int| 0 <= i < patterns.len() ==> #[trigger] patterns[i].position is Here,
    ensures
        is_project(t, patterns) <==> forall|i: int|
            0 <= i < patterns.len() ==> #[trigger] has_matching_child(t, 0, patterns[i]),
{
    assert forall|i: int| 0 <= i < patterns.len() implies satisfied(t, 0, #[trigger] patterns[i])
        == has_matching_child(t, 0, patterns[i]) by {
        let p = patterns[i];
        lemma_satisfied_from(t, 0, p.kind, p.target@, p.position, 0);
        if satisfied(t, 0, p) {
            let k = choose|m: int|
                0 <= m < t.child_count(0) && (direct_at(t, 0, p.kind, p.target@, p.position, m)
                    || deep_at(t, 0, p.kind, p.target@, p.position, m));
            assert(child_matches(t, 0, k, p));
        }
        if exists|k: int| 0 <= k < t.child_count(0) && #[trigger] child_matches(t, 0, k, p) {
            let k = choose|k: int| 0 <= k < t.child_count(0) && #[trigger] child_matches(t, 0, k, p);
            assert(direct_at(t, 0, p.kind, p.target@, p.position, k));
        }
    }
}

/// Entry `x` lies inside `node` through its children from the `k`th on:
/// it is one of them, or lies inside one of them that is a directory.
pub open spec fn lies_within_from(t: &DirTree, node: int, x: int, k: int) -> bool
    decreases t.size() - node, t.child_count(node) - k,
{
    if node < 0 || node >= t.size() || k < 0 || k >= t.child_count(node) {
        false
    } else {
        let c = t.child(node, k);
        ||| (node < c < t.size() && c == x)
        ||| (node < c < t.size() && t.entries@[c].kind == EntryKind::Directory && lies_within_from(
            t,
            c,
            x,
            0,
        ))
        ||| lies_within_from(t, node, x, k + 1)
    }
}

/// Entry `x` lies somewhere inside the directory `node`, at any depth.
pub open spec fn lies_within(t: &DirTree, node: int, x: int) -> bool {
    lies_within_from(t, node, x, 0)
}

/// Entry `x` has the kind `kind` and a name that the glob `target` matches.
pub open spec fn entry_fits(t: &DirTree, x: int, kind: Kind, target: Seq<char>) -> bool {
    0 <= x < t.size() && kind_fits(kind, t.entries@[x].kind) && glob_matches(
        target,
        t.entries@[x].name@,
    )
}

/// Some entry inside `node`, at any depth, has the kind of `p` and a name
/// that its target glob matches.
pub open spec fn has_matching_entry_within(t: &DirTree, node: int, p: Pattern) -> bool {
    exists|x: int| lies_within(t, node, x) && #[trigger] entry_fits(t, x, p.kind, p.target@)
}

proof fn lemma_anywhere(t: &DirTree, node: int, kind: Kind, target: Seq<char>, k: int)
    requires
        t.wf(),
        0 <= node < t.size(),
        0 <= k,
    ensures
        satisfied_from(t, node, kind, target, Position::Anywhere, k) <==> exists|x: int|
            lies_within_from(t, node, x, k) && #[trigger] entry_fits(t, x, kind, target),
    decreases t.size() - node, t.child_count(node) - k,
{
    if k < t.child_count(node) {
        let c = t.child(node, k);
        assert(node < c < t.size());
        lemma_anywhere(t, node, kind, target, k + 1);
        lemma_anywhere(t, c, kind, target, 0);
        if satisfied_from(t, node, kind, target, Position::Anywhere, k) {
            if direct_at(t, node, kind, target, Position::Anywhere, k) {
                assert(lies_within_from(t, node, c, k) && entry_fits(t, c, kind, target));
            } else if t.entries@[c].kind == EntryKind::Directory && satisfied_from(
                t,
                c,
                kind,
                target,
                Position::Anywhere,
                0,
            ) {
                let x = choose|x: int|
                    lies_within_from(t, c, x, 0) && #[trigger] entry_fits(t, x, kind, target);
                assert(lies_within_from(t, node, x, k));
            } else {
                let x = choose|x: int|
                    lies_within_from(t, node, x, k + 1) && #[trigger] entry_fits(t, x, kind, target);
                assert(lies_within_from(t, node, x, k));
            }
        }
        if exists|x: int| lies_within_from(t, node, x, k) && #[trigger] entry_fits(t, x, kind, target) {
            let x = choose|x: int|
                lies_within_from(t, node, x, k) && #[trigger] entry_fits(t, x, kind, target);
            if c == x {
                assert(direct_at(t, node, kind, target, Position::Anywhere, k));
            } else if t.entries@[c].kind == EntryKind::Directory && lies_within_from(t, c, x, 0) {
                assert(satisfied_from(t, c, kind, target, Position::Anywhere, 0));
            } else {
                assert(lies_within_from(t, node, x, k + 1));
            }
        }
    }
}

/// For patterns that may apply at any depth, the directory is a project
/// exactly when each pattern is matched by some entry of the pattern's kind
/// anywhere inside it.
pub proof fn lemma_anywhere_patterns(t: &DirTree, patterns: Seq<Pattern>)
    requires
        t.wf(),
        forall|i: int| 0 <= i < patterns.len() ==> #[trigger] patterns[i].position is Anywhere,
    ensures
        is_project(t, patterns) <==> forall|i: int|
            0 <= i < patterns.len() ==> #[trigger] has_matching_entry_within(t, 0, patterns[i]),
{
    assert forall|i: int| 0 <= i < patterns.len() implies satisfied(t, 0, #[trigger] patterns[i])
        == has_matching_entry_within(t, 0, patterns[i]) by {
        let p = patterns[i];
        lemma_anywhere(t, 0, p.kind, p.target@, 0);
        assert(p.position == Position::Anywhere);
    }
}

} // verus!
