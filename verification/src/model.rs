//! A model of the filesystem, and the laws of the install plans.
//!
//! The model is a partial map from paths to nodes. Each path is an
//! independent key: the model does not relate a directory to the entries
//! below it, which none of the stated laws needs. `apply_action` is the
//! meaning of one [`Action`] for whoever executes the plan; `apply_plan`
//! folds a whole plan over the model.
//!
//! Backups are keyed by basename alone, as the engine plans them. Two
//! entries sharing a basename therefore share a backup path and the later
//! one wins; this known limitation is why the backup laws ask for pairwise
//! different names.

use vstd::prelude::*;
use crate::tree::{
    Action, TreeEntry, is_entry_action, is_mappings_plan, is_mirror_plan, is_topic_plan,
    is_topics_plan, is_vcs_name, mapping_plan_len, name_of, rel_of, resolve_spec, snapshot_ok,
    topic_plan_len,
};

verus! {

/// What one path holds.
pub ghost enum FsNode {
    /// A regular file; `content` stands for its bytes.
    File { content: nat },
    /// A directory.
    Dir,
    /// A symbolic link whose target is the path `target`.
    Link { target: Seq<Seq<char>> },
}

/// The filesystem as a partial map from paths to nodes; an absent key is an
/// absent path.
pub type FsModel = Map<Seq<Seq<char>>, FsNode>;

/// What performing one action does to the filesystem.
pub open spec fn apply_action(fs: FsModel, a: Action) -> FsModel {
    match a {
        Action::EnsureDir { path } => if fs.dom().contains(path@) {
            fs
        } else {
            fs.insert(path@, FsNode::Dir)
        },
        Action::LinkFile { source, dest, backup } => {
            let moved = if fs.dom().contains(dest@) {
                fs.remove(dest@).insert(backup@, fs[dest@])
            } else {
                fs
            };
            moved.insert(dest@, FsNode::Link { target: source@ })
        },
    }
}

/// Performing a whole plan, first action first.
pub open spec fn apply_plan(fs: FsModel, acts: Seq<Action>) -> FsModel
    decreases acts.len(),
{
    if acts.len() == 0 {
        fs
    } else {
        apply_plan(apply_action(fs, acts[0]), acts.skip(1))
    }
}

/// Whether performing `a` can change what sits at `p`.
pub open spec fn touches(a: Action, p: Seq<Seq<char>>) -> bool {
    match a {
        Action::EnsureDir { path } => path@ == p,
        Action::LinkFile { source, dest, backup } => dest@ == p || backup@ == p,
    }
}

/// The destination of entry `e` under the target root `tgt`.
pub open spec fn dest_of(tgt: Seq<Seq<char>>, e: TreeEntry) -> Seq<Seq<char>> {
    tgt + rel_of(e)
}

/// Where entry `e`'s backup goes under the backup directory `bdir`.
pub open spec fn backup_of(bdir: Seq<Seq<char>>, e: TreeEntry) -> Seq<Seq<char>> {
    bdir.push(name_of(e))
}

/// The entries carry pairwise different relative paths.
pub open spec fn distinct_rels(entries: Seq<TreeEntry>) -> bool {
    forall|j: int, k: int|
        0 <= j < k < entries.len() ==> rel_of(#[trigger] entries[j]) != rel_of(
            #[trigger] entries[k],
        )
}

/// The entries carry pairwise different names (last components).
pub open spec fn distinct_names(entries: Seq<TreeEntry>) -> bool {
    forall|j: int, k: int|
        0 <= j < k < entries.len() ==> name_of(#[trigger] entries[j]) != name_of(
            #[trigger] entries[k],
        )
}

/// No backup path of the run collides with any destination of the plan
/// (the backup directory lies outside the mirrored target tree).
pub open spec fn backups_clear(
    tgt: Seq<Seq<char>>,
    bdir: Seq<Seq<char>>,
    entries: Seq<TreeEntry>,
) -> bool {
    forall|j: int, k: int|
        0 <= j < entries.len() && 0 <= k < entries.len() ==> backup_of(
            bdir,
            #[trigger] entries[j],
        ) != dest_of(tgt, #[trigger] entries[k])
}

proof fn lemma_prefix_cancel(prefix: Seq<Seq<char>>, a: Seq<Seq<char>>, b: Seq<Seq<char>>)
    requires
        prefix + a == prefix + b,
    ensures
        a == b,
{
    assert((prefix + a).len() == prefix.len() + a.len());
    assert((prefix + b).len() == prefix.len() + b.len());
    assert(a.len() == b.len());
    assert forall|j: int| 0 <= j < a.len() implies a[j] == b[j] by {
        assert(b.len() == a.len());
        assert((prefix + a)[prefix.len() + j] == a[j]);
        assert((prefix + b)[prefix.len() + j] == b[j]);
    }
    assert(a =~= b);
}

proof fn lemma_action_untouched(fs: FsModel, a: Action, p: Seq<Seq<char>>)
    requires
        !touches(a, p),
    ensures
        apply_action(fs, a).dom().contains(p) == fs.dom().contains(p),
        fs.dom().contains(p) ==> apply_action(fs, a)[p] == fs[p],
{
}

proof fn lemma_plan_untouched(fs: FsModel, acts: Seq<Action>, p: Seq<Seq<char>>)
    requires
        forall|j: int| 0 <= j < acts.len() ==> !touches(#[trigger] acts[j], p),
    ensures
        apply_plan(fs, acts).dom().contains(p) == fs.dom().contains(p),
        fs.dom().contains(p) ==> apply_plan(fs, acts)[p] == fs[p],
    decreases acts.len(),
{
    if acts.len() > 0 {
        lemma_action_untouched(fs, acts[0], p);
        assert forall|j: int| 0 <= j < acts.skip(1).len() implies !touches(
            #[trigger] acts.skip(1)[j],
            p,
        ) by {
            assert(acts.skip(1)[j] == acts[j + 1]);
        }
        lemma_plan_untouched(apply_action(fs, acts[0]), acts.skip(1), p);
    }
}

proof fn lemma_link_persists(
    fs: FsModel,
    acts: Seq<Action>,
    i: int,
    srcp: Seq<Seq<char>>,
    p: Seq<Seq<char>>,
)
    requires
        0 <= i < acts.len(),
        acts[i] matches Action::LinkFile { source, dest, backup } && source@ == srcp && dest@
            == p,
        forall|j: int| i < j < acts.len() ==> !touches(#[trigger] acts[j], p),
    ensures
        apply_plan(fs, acts).dom().contains(p),
        apply_plan(fs, acts)[p] == (FsNode::Link { target: srcp }),
    decreases acts.len(),
{
    let fs1 = apply_action(fs, acts[0]);
    assert forall|j: int| i - 1 < j < acts.skip(1).len() implies !touches(
        #[trigger] acts.skip(1)[j],
        p,
    ) by {
        assert(acts.skip(1)[j] == acts[j + 1]);
    }
    if i == 0 {
        assert(fs1.dom().contains(p) && fs1[p] == (FsNode::Link { target: srcp }));
        lemma_plan_untouched(fs1, acts.skip(1), p);
    } else {
        assert(acts.skip(1)[i - 1] == acts[i]);
        lemma_link_persists(fs1, acts.skip(1), i - 1, srcp, p);
    }
}

proof fn lemma_backup_lands(
    fs: FsModel,
    acts: Seq<Action>,
    i: int,
    p: Seq<Seq<char>>,
    b: Seq<Seq<char>>,
)
    requires
        0 <= i < acts.len(),
        acts[i] matches Action::LinkFile { source, dest, backup } && dest@ == p && backup@ == b,
        p != b,
        fs.dom().contains(p),
        forall|j: int| 0 <= j < i ==> !touches(#[trigger] acts[j], p),
        forall|j: int| i < j < acts.len() ==> !touches(#[trigger] acts[j], b),
    ensures
        apply_plan(fs, acts).dom().contains(b),
        apply_plan(fs, acts)[b] == fs[p],
    decreases acts.len(),
{
    let fs1 = apply_action(fs, acts[0]);
    assert forall|j: int| i - 1 < j < acts.skip(1).len() implies !touches(
        #[trigger] acts.skip(1)[j],
        b,
    ) by {
        assert(acts.skip(1)[j] == acts[j + 1]);
    }
    if i == 0 {
        assert(fs1.dom().contains(b) && fs1[b] == fs[p]);
        lemma_plan_untouched(fs1, acts.skip(1), b);
    } else {
        assert(acts.skip(1)[i - 1] == acts[i]);
        assert forall|j: int| 0 <= j < i - 1 implies !touches(#[trigger] acts.skip(1)[j], p) by {
            assert(acts.skip(1)[j] == acts[j + 1]);
        }
        lemma_action_untouched(fs, acts[0], p);
        lemma_backup_lands(fs1, acts.skip(1), i - 1, p, b);
    }
}

/// No later action of a mirror plan touches the destination of entry `i`.
proof fn lemma_later_actions_clear(
    acts: Seq<Action>,
    src: Seq<Seq<char>>,
    tgt: Seq<Seq<char>>,
    bdir: Seq<Seq<char>>,
    entries: Seq<TreeEntry>,
    i: int,
)
    requires
        is_mirror_plan(acts, src, tgt, bdir, entries),
        distinct_rels(entries),
        backups_clear(tgt, bdir, entries),
        0 <= i < entries.len(),
    ensures
        forall|j: int|
            0 <= j < acts.len() && j != i ==> !touches(
                #[trigger] acts[j],
                dest_of(tgt, entries[i]),
            ),
{
    let p = dest_of(tgt, entries[i]);
    assert forall|j: int| 0 <= j < acts.len() && j != i implies !touches(
        #[trigger] acts[j],
        p,
    ) by {
        if dest_of(tgt, entries[j]) == p {
            lemma_prefix_cancel(tgt, rel_of(entries[j]), rel_of(entries[i]));
        }
    }
}

/// Directory mirroring completeness: after a mirror plan runs, every
/// regular file of the snapshot sits at its target path as a symbolic
/// link whose target is the corresponding file of the source tree.
pub proof fn lemma_mirror_completeness(
    fs: FsModel,
    acts: Seq<Action>,
    src: Seq<Seq<char>>,
    tgt: Seq<Seq<char>>,
    bdir: Seq<Seq<char>>,
    entries: Seq<TreeEntry>,
    i: int,
)
    requires
        is_mirror_plan(acts, src, tgt, bdir, entries),
        distinct_rels(entries),
        backups_clear(tgt, bdir, entries),
        0 <= i < entries.len(),
        !entries[i].is_dir,
    ensures
        apply_plan(fs, acts).dom().contains(dest_of(tgt, entries[i])),
        apply_plan(fs, acts)[dest_of(tgt, entries[i])] == (FsNode::Link {
            target: src + rel_of(entries[i]),
        }),
{
    lemma_later_actions_clear(acts, src, tgt, bdir, entries, i);
    lemma_link_persists(fs, acts, i, src + rel_of(entries[i]), dest_of(tgt, entries[i]));
}

/// Backup before overwrite: if something already sits at the destination
/// of a regular file of the snapshot, then after the mirror plan runs it
/// sits, unchanged, in the backup directory under the entry's own name —
/// and the destination is the new link. Asks for pairwise different names
/// because backups are keyed by basename alone.
pub proof fn lemma_backup_before_overwrite(
    fs: FsModel,
    acts: Seq<Action>,
    src: Seq<Seq<char>>,
    tgt: Seq<Seq<char>>,
    bdir: Seq<Seq<char>>,
    entries: Seq<TreeEntry>,
    i: int,
)
    requires
        is_mirror_plan(acts, src, tgt, bdir, entries),
        distinct_rels(entries),
        distinct_names(entries),
        backups_clear(tgt, bdir, entries),
        0 <= i < entries.len(),
        !entries[i].is_dir,
        fs.dom().contains(dest_of(tgt, entries[i])),
    ensures
        apply_plan(fs, acts).dom().contains(backup_of(bdir, entries[i])),
        apply_plan(fs, acts)[backup_of(bdir, entries[i])] == fs[dest_of(tgt, entries[i])],
        apply_plan(fs, acts).dom().contains(dest_of(tgt, entries[i])),
        apply_plan(fs, acts)[dest_of(tgt, entries[i])] == (FsNode::Link {
            target: src + rel_of(entries[i]),
        }),
{
    let p = dest_of(tgt, entries[i]);
    let b = backup_of(bdir, entries[i]);
    lemma_later_actions_clear(acts, src, tgt, bdir, entries, i);
    assert forall|j: int| i < j < acts.len() implies !touches(#[trigger] acts[j], b) by {
        if !entries[j].is_dir && backup_of(bdir, entries[j]) == b {
            assert(backup_of(bdir, entries[j]).last() == name_of(entries[j]));
            assert(b.last() == name_of(entries[i]));
        }
    }
    lemma_backup_lands(fs, acts, i, p, b);
    lemma_link_persists(fs, acts, i, src + rel_of(entries[i]), p);
}

/// Idempotence of re-install: running the mirror twice over an unmodified
/// snapshot leaves every regular file's target path a link at the same
/// source file after each run; the second run moves the first run's link
/// into its own backup directory, and what is reachable through the final
/// links is unchanged.
pub proof fn lemma_reinstall_idempotent(
    fs: FsModel,
    acts1: Seq<Action>,
    acts2: Seq<Action>,
    src: Seq<Seq<char>>,
    tgt: Seq<Seq<char>>,
    bdir1: Seq<Seq<char>>,
    bdir2: Seq<Seq<char>>,
    entries: Seq<TreeEntry>,
    i: int,
)
    requires
        is_mirror_plan(acts1, src, tgt, bdir1, entries),
        is_mirror_plan(acts2, src, tgt, bdir2, entries),
        distinct_rels(entries),
        distinct_names(entries),
        backups_clear(tgt, bdir1, entries),
        backups_clear(tgt, bdir2, entries),
        0 <= i < entries.len(),
        !entries[i].is_dir,
    ensures
        apply_plan(fs, acts1)[dest_of(tgt, entries[i])] == (FsNode::Link {
            target: src + rel_of(entries[i]),
        }),
        apply_plan(apply_plan(fs, acts1), acts2)[dest_of(tgt, entries[i])] == (FsNode::Link {
            target: src + rel_of(entries[i]),
        }),
        apply_plan(apply_plan(fs, acts1), acts2)[backup_of(bdir2, entries[i])] == (FsNode::Link {
            target: src + rel_of(entries[i]),
        }),
{
    lemma_mirror_completeness(fs, acts1, src, tgt, bdir1, entries, i);
    let fs1 = apply_plan(fs, acts1);
    lemma_mirror_completeness(fs1, acts2, src, tgt, bdir2, entries, i);
    lemma_backup_before_overwrite(fs1, acts2, src, tgt, bdir2, entries, i);
}

/// Running one plan after another is running their concatenation.
pub proof fn lemma_apply_plan_concat(fs: FsModel, a: Seq<Action>, b: Seq<Action>)
    ensures
        apply_plan(fs, a + b) == apply_plan(apply_plan(fs, a), b),
    decreases a.len(),
{
    if a.len() == 0 {
        assert(a + b =~= b);
    } else {
        assert((a + b)[0] == a[0]);
        assert((a + b).skip(1) =~= a.skip(1) + b);
        lemma_apply_plan_concat(apply_action(fs, a[0]), a.skip(1), b);
    }
}

/// Action `a` is one that a topics plan holds for topic `t`: the creation
/// of that topic's target root (`j == -1`), or the action of its entry `j`.
pub open spec fn topics_plan_action(
    a: Action,
    home: Seq<Seq<char>>,
    dotfiles: Seq<Seq<char>>,
    bdir: Seq<Seq<char>>,
    ts: Seq<crate::tree::TopicDir>,
    t: int,
    j: int,
) -> bool {
    &&& 0 <= t < ts.len()
    &&& !is_vcs_name(ts[t].name@)
    &&& if j == -1 {
        a matches Action::EnsureDir { path } && path@ == resolve_spec(home, ts[t].name@)
    } else {
        &&& 0 <= j < ts[t].tree.entries@.len()
        &&& is_entry_action(
            a,
            dotfiles.push(ts[t].name@),
            resolve_spec(home, ts[t].name@),
            bdir,
            ts[t].tree.entries@[j],
        )
    }
}

/// Every action of a topics plan belongs to one of its topics.
proof fn lemma_topics_plan_membership(
    acts: Seq<Action>,
    home: Seq<Seq<char>>,
    dotfiles: Seq<Seq<char>>,
    bdir: Seq<Seq<char>>,
    ts: Seq<crate::tree::TopicDir>,
    k: int,
)
    requires
        is_topics_plan(acts, home, dotfiles, bdir, ts),
        0 <= k < acts.len(),
    ensures
        exists|t: int, j: int|
            topics_plan_action(#[trigger] acts[k], home, dotfiles, bdir, ts, t, j),
    decreases ts.len(),
{
    let n = topic_plan_len(ts[0]);
    if k < n {
        let sub = acts.take(n);
        assert(sub[k] == acts[k]);
        if k == 0 {
            assert(topics_plan_action(acts[k], home, dotfiles, bdir, ts, 0, -1));
        } else {
            assert(sub.skip(1)[k - 1] == acts[k]);
            assert(topics_plan_action(acts[k], home, dotfiles, bdir, ts, 0, k - 1));
        }
    } else {
        lemma_topics_plan_membership(acts.skip(n), home, dotfiles, bdir, ts.skip(1), k - n);
        let (t0, j0): (int, int) = choose|t0: int, j0: int|
            #[trigger] topics_plan_action(acts.skip(n)[k - n], home, dotfiles, bdir, ts.skip(1),
            t0, j0);
        assert(acts.skip(n)[k - n] == acts[k]);
        assert(ts.skip(1)[t0] == ts[t0 + 1]);
        assert(topics_plan_action(acts[k], home, dotfiles, bdir, ts, t0 + 1, j0));
    }
}

/// Entry `i` of topic `t` is the only planned claim on its destination:
/// no resolved target root, no other entry's destination, and no backup
/// path of the run coincides with it.
pub open spec fn sole_claim(
    home: Seq<Seq<char>>,
    dotfiles: Seq<Seq<char>>,
    bdir: Seq<Seq<char>>,
    ts: Seq<crate::tree::TopicDir>,
    t: int,
    i: int,
) -> bool {
    let p = dest_of(resolve_spec(home, ts[t].name@), ts[t].tree.entries@[i]);
    &&& forall|t2: int|
        0 <= t2 < ts.len() ==> resolve_spec(home, (#[trigger] ts[t2]).name@) != p
    &&& forall|t2: int, j2: int|
        0 <= t2 < ts.len() && 0 <= j2 < ts[t2].tree.entries@.len() && !(t2 == t && j2 == i)
            ==> dest_of(
            resolve_spec(home, ts[t2].name@),
            #[trigger] ts[t2].tree.entries@[j2],
        ) != p
    &&& forall|t2: int, j2: int|
        0 <= t2 < ts.len() && 0 <= j2 < ts[t2].tree.entries@.len() ==> backup_of(
            bdir,
            #[trigger] ts[t2].tree.entries@[j2],
        ) != p
}

/// Directory mirroring completeness over a whole topic-mode install:
/// after the full plan runs, every regular file of every kept topic whose
/// destination no other planned path claims sits at that destination as a
/// link to its file in the source tree.
pub proof fn lemma_install_completeness(
    fs: FsModel,
    acts: Seq<Action>,
    home: Seq<Seq<char>>,
    dotfiles: Seq<Seq<char>>,
    bdir: Seq<Seq<char>>,
    ts: Seq<crate::tree::TopicDir>,
    t: int,
    i: int,
)
    requires
        is_topics_plan(acts, home, dotfiles, bdir, ts),
        0 <= t < ts.len(),
        !is_vcs_name(ts[t].name@),
        0 <= i < ts[t].tree.entries@.len(),
        !ts[t].tree.entries@[i].is_dir,
        sole_claim(home, dotfiles, bdir, ts, t, i),
    ensures
        apply_plan(fs, acts).dom().contains(
            dest_of(resolve_spec(home, ts[t].name@), ts[t].tree.entries@[i]),
        ),
        apply_plan(fs, acts)[dest_of(resolve_spec(home, ts[t].name@), ts[t].tree.entries@[i])]
            == (FsNode::Link {
            target: dotfiles.push(ts[t].name@) + rel_of(ts[t].tree.entries@[i]),
        }),
    decreases t,
{
    let n = topic_plan_len(ts[0]);
    let tgt = resolve_spec(home, ts[t].name@);
    let p = dest_of(tgt, ts[t].tree.entries@[i]);
    assert(acts.take(n) + acts.skip(n) =~= acts);
    lemma_apply_plan_concat(fs, acts.take(n), acts.skip(n));
    if t == 0 {
        let sub = acts.take(n);
        let fs1 = apply_action(fs, sub[0]);
        assert(!touches(sub[0], p));
        lemma_action_untouched(fs, sub[0], p);
        assert forall|k: int| 0 <= k < sub.skip(1).len() implies is_entry_action(
            #[trigger] sub.skip(1)[k],
            dotfiles.push(ts[0].name@),
            tgt,
            bdir,
            ts[0].tree.entries@[k],
        ) by {
        }
        assert forall|k: int| i < k < sub.skip(1).len() implies !touches(
            #[trigger] sub.skip(1)[k],
            p,
        ) by {
        }
        lemma_link_persists(
            fs1,
            sub.skip(1),
            i,
            dotfiles.push(ts[0].name@) + rel_of(ts[0].tree.entries@[i]),
            p,
        );
        assert(apply_plan(fs, sub) == apply_plan(fs1, sub.skip(1)));
        assert forall|k: int| 0 <= k < acts.skip(n).len() implies !touches(
            #[trigger] acts.skip(n)[k],
            p,
        ) by {
            lemma_topics_plan_membership(acts.skip(n), home, dotfiles, bdir, ts.skip(1), k);
            let (t2, j2): (int, int) = choose|t2: int, j2: int|
                topics_plan_action(acts.skip(n)[k], home, dotfiles, bdir, ts.skip(1), t2, j2);
            assert(ts.skip(1)[t2] == ts[t2 + 1]);
        }
        lemma_plan_untouched(apply_plan(fs, acts.take(n)), acts.skip(n), p);
    } else {
        assert(ts.skip(1)[t - 1] == ts[t]);
        assert forall|t2: int| 0 <= t2 < ts.skip(1).len() implies resolve_spec(
            home,
            (#[trigger] ts.skip(1)[t2]).name@,
        ) != p by {
            assert(ts.skip(1)[t2] == ts[t2 + 1]);
        }
        assert forall|t2: int, j2: int|
            0 <= t2 < ts.skip(1).len() && 0 <= j2 < ts.skip(1)[t2].tree.entries@.len() && !(t2
                == t - 1 && j2 == i) implies dest_of(
            resolve_spec(home, ts.skip(1)[t2].name@),
            #[trigger] ts.skip(1)[t2].tree.entries@[j2],
        ) != p by {
            assert(ts.skip(1)[t2] == ts[t2 + 1]);
        }
        assert forall|t2: int, j2: int|
            0 <= t2 < ts.skip(1).len() && 0 <= j2
                < ts.skip(1)[t2].tree.entries@.len() implies backup_of(
            bdir,
            #[trigger] ts.skip(1)[t2].tree.entries@[j2],
        ) != p by {
            assert(ts.skip(1)[t2] == ts[t2 + 1]);
        }
        lemma_install_completeness(
            apply_plan(fs, acts.take(n)),
            acts.skip(n),
            home,
            dotfiles,
            bdir,
            ts.skip(1),
            t - 1,
            i,
        );
    }
}

/// No backup path of any other entry, no destination and no target root
/// of the whole run coincides with entry `i` of topic `t`'s backup path.
/// Backups are keyed by basename alone, so this asks in particular that no
/// other kept entry of the run shares the entry's name.
pub open spec fn sole_backup_claim(
    home: Seq<Seq<char>>,
    dotfiles: Seq<Seq<char>>,
    bdir: Seq<Seq<char>>,
    ts: Seq<crate::tree::TopicDir>,
    t: int,
    i: int,
) -> bool {
    let b = backup_of(bdir, ts[t].tree.entries@[i]);
    &&& forall|t2: int|
        0 <= t2 < ts.len() ==> resolve_spec(home, (#[trigger] ts[t2]).name@) != b
    &&& forall|t2: int, j2: int|
        0 <= t2 < ts.len() && 0 <= j2 < ts[t2].tree.entries@.len() ==> dest_of(
            resolve_spec(home, ts[t2].name@),
            #[trigger] ts[t2].tree.entries@[j2],
        ) != b
    &&& forall|t2: int, j2: int|
        0 <= t2 < ts.len() && 0 <= j2 < ts[t2].tree.entries@.len() && !(t2 == t && j2 == i)
            ==> backup_of(bdir, #[trigger] ts[t2].tree.entries@[j2]) != b
}

/// Backup before overwrite, over a whole topic-mode install: whatever sat
/// at the destination of a kept regular file before the plan ran sits,
/// unchanged, at that file's backup path afterwards — and the destination
/// is the new link.
pub proof fn lemma_install_backup(
    fs: FsModel,
    acts: Seq<Action>,
    home: Seq<Seq<char>>,
    dotfiles: Seq<Seq<char>>,
    bdir: Seq<Seq<char>>,
    ts: Seq<crate::tree::TopicDir>,
    t: int,
    i: int,
)
    requires
        is_topics_plan(acts, home, dotfiles, bdir, ts),
        0 <= t < ts.len(),
        !is_vcs_name(ts[t].name@),
        0 <= i < ts[t].tree.entries@.len(),
        !ts[t].tree.entries@[i].is_dir,
        snapshot_ok(ts[t].tree.entries@),
        distinct_rels(ts[t].tree.entries@),
        distinct_names(ts[t].tree.entries@),
        backups_clear(resolve_spec(home, ts[t].name@), bdir, ts[t].tree.entries@),
        sole_claim(home, dotfiles, bdir, ts, t, i),
        sole_backup_claim(home, dotfiles, bdir, ts, t, i),
        fs.dom().contains(dest_of(resolve_spec(home, ts[t].name@), ts[t].tree.entries@[i])),
    ensures
        apply_plan(fs, acts).dom().contains(backup_of(bdir, ts[t].tree.entries@[i])),
        apply_plan(fs, acts)[backup_of(bdir, ts[t].tree.entries@[i])] == fs[dest_of(
            resolve_spec(home, ts[t].name@),
            ts[t].tree.entries@[i],
        )],
    decreases t,
{
    let n = topic_plan_len(ts[0]);
    let tgt = resolve_spec(home, ts[t].name@);
    let p = dest_of(tgt, ts[t].tree.entries@[i]);
    let b = backup_of(bdir, ts[t].tree.entries@[i]);
    assert(acts.take(n) + acts.skip(n) =~= acts);
    lemma_apply_plan_concat(fs, acts.take(n), acts.skip(n));
    if t == 0 {
        let sub = acts.take(n);
        let fs1 = apply_action(fs, sub[0]);
        assert(!touches(sub[0], p));
        lemma_action_untouched(fs, sub[0], p);
        lemma_backup_before_overwrite(fs1, sub.skip(1), dotfiles.push(ts[0].name@), tgt, bdir,
            ts[0].tree.entries@, i);
        assert(apply_plan(fs, sub) == apply_plan(fs1, sub.skip(1)));
        assert forall|k: int| 0 <= k < acts.skip(n).len() implies !touches(
            #[trigger] acts.skip(n)[k],
            b,
        ) by {
            lemma_topics_plan_membership(acts.skip(n), home, dotfiles, bdir, ts.skip(1), k);
            let (t2, j2): (int, int) = choose|t2: int, j2: int|
                #[trigger] topics_plan_action(acts.skip(n)[k], home, dotfiles, bdir, ts.skip(1),
                t2, j2);
            assert(ts.skip(1)[t2] == ts[t2 + 1]);
        }
        lemma_plan_untouched(apply_plan(fs, acts.take(n)), acts.skip(n), b);
    } else {
        let sub = acts.take(n);
        assert forall|k: int| 0 <= k < sub.len() implies !touches(#[trigger] sub[k], p) by {
            if is_vcs_name(ts[0].name@) {
            } else {
                if k > 0 {
                    assert(is_entry_action(
                        sub.skip(1)[k - 1],
                        dotfiles.push(ts[0].name@),
                        resolve_spec(home, ts[0].name@),
                        bdir,
                        ts[0].tree.entries@[k - 1],
                    ));
                }
            }
        }
        lemma_plan_untouched(fs, sub, p);
        assert(ts.skip(1)[t - 1] == ts[t]);
        assert forall|t2: int| 0 <= t2 < ts.skip(1).len() implies resolve_spec(
            home,
            (#[trigger] ts.skip(1)[t2]).name@,
        ) != p && resolve_spec(home, ts.skip(1)[t2].name@) != b by {
            assert(ts.skip(1)[t2] == ts[t2 + 1]);
        }
        assert forall|t2: int, j2: int|
            0 <= t2 < ts.skip(1).len() && 0 <= j2
                < ts.skip(1)[t2].tree.entries@.len() implies (!(t2 == t - 1 && j2 == i)
            ==> dest_of(
            resolve_spec(home, ts.skip(1)[t2].name@),
            #[trigger] ts.skip(1)[t2].tree.entries@[j2],
        ) != p) && dest_of(resolve_spec(home, ts.skip(1)[t2].name@),
            ts.skip(1)[t2].tree.entries@[j2]) != b && (!(t2 == t - 1 && j2 == i) ==> backup_of(
            bdir,
            ts.skip(1)[t2].tree.entries@[j2],
        ) != b) && backup_of(bdir, ts.skip(1)[t2].tree.entries@[j2]) != p by {
            assert(ts.skip(1)[t2] == ts[t2 + 1]);
        }
        lemma_install_backup(
            apply_plan(fs, acts.take(n)),
            acts.skip(n),
            home,
            dotfiles,
            bdir,
            ts.skip(1),
            t - 1,
            i,
        );
    }
}

/// Idempotence of re-install, over whole topic-mode installs: after one
/// run every kept regular file's destination is a link to its source
/// file; after a second run over the unchanged topics it still is, the
/// second run has moved the first run's link into its own backup
/// directory, and what the final links reach is unchanged.
pub proof fn lemma_install_idempotent(
    fs: FsModel,
    acts1: Seq<Action>,
    acts2: Seq<Action>,
    home: Seq<Seq<char>>,
    dotfiles: Seq<Seq<char>>,
    bdir1: Seq<Seq<char>>,
    bdir2: Seq<Seq<char>>,
    ts: Seq<crate::tree::TopicDir>,
    t: int,
    i: int,
)
    requires
        is_topics_plan(acts1, home, dotfiles, bdir1, ts),
        is_topics_plan(acts2, home, dotfiles, bdir2, ts),
        0 <= t < ts.len(),
        !is_vcs_name(ts[t].name@),
        0 <= i < ts[t].tree.entries@.len(),
        !ts[t].tree.entries@[i].is_dir,
        snapshot_ok(ts[t].tree.entries@),
        distinct_rels(ts[t].tree.entries@),
        distinct_names(ts[t].tree.entries@),
        backups_clear(resolve_spec(home, ts[t].name@), bdir2, ts[t].tree.entries@),
        sole_claim(home, dotfiles, bdir1, ts, t, i),
        sole_claim(home, dotfiles, bdir2, ts, t, i),
        sole_backup_claim(home, dotfiles, bdir2, ts, t, i),
    ensures
        apply_plan(fs, acts1)[dest_of(resolve_spec(home, ts[t].name@), ts[t].tree.entries@[i])]
            == (FsNode::Link {
            target: dotfiles.push(ts[t].name@) + rel_of(ts[t].tree.entries@[i]),
        }),
        apply_plan(apply_plan(fs, acts1), acts2)[dest_of(
            resolve_spec(home, ts[t].name@),
            ts[t].tree.entries@[i],
        )] == (FsNode::Link {
            target: dotfiles.push(ts[t].name@) + rel_of(ts[t].tree.entries@[i]),
        }),
        apply_plan(apply_plan(fs, acts1), acts2)[backup_of(bdir2, ts[t].tree.entries@[i])]
            == (FsNode::Link {
            target: dotfiles.push(ts[t].name@) + rel_of(ts[t].tree.entries@[i]),
        }),
{
    lemma_install_completeness(fs, acts1, home, dotfiles, bdir1, ts, t, i);
    let fs1 = apply_plan(fs, acts1);
    lemma_install_completeness(fs1, acts2, home, dotfiles, bdir2, ts, t, i);
    lemma_install_backup(fs1, acts2, home, dotfiles, bdir2, ts, t, i);
}

/// What a mapping mirrors: its snapshot's entries for a directory source,
/// nothing for a file source.
pub open spec fn mapping_entries(me: crate::tree::MappingEntry) -> Seq<TreeEntry> {
    match me.tree {
        Some(t) => t.entries@,
        None => Seq::empty(),
    }
}

/// Action `a` is one that a mappings plan holds for mapping `k`: the
/// mapping's head action (`j == -1`; the target's directory for a
/// directory source, the link itself for a file source), or the action of
/// entry `j` of a directory source.
pub open spec fn mappings_plan_action(
    a: Action,
    home: Seq<Seq<char>>,
    dotfiles: Seq<Seq<char>>,
    bdir: Seq<Seq<char>>,
    ms: Seq<crate::tree::MappingEntry>,
    k: int,
    j: int,
) -> bool {
    let src = dotfiles.push(ms[k].mapping.source@);
    let tgt = home.push(ms[k].mapping.target@);
    &&& 0 <= k < ms.len()
    &&& if j == -1 {
        match ms[k].tree {
            Some(t) => a matches Action::EnsureDir { path } && path@ == tgt,
            None => a matches Action::LinkFile { source, dest, backup } && source@ == src
                && dest@ == tgt && backup@ == bdir.push(ms[k].mapping.target@),
        }
    } else {
        &&& 0 <= j < mapping_entries(ms[k]).len()
        &&& is_entry_action(a, src, tgt, bdir, mapping_entries(ms[k])[j])
    }
}

/// Every action of a mappings plan belongs to one of its mappings.
proof fn lemma_mappings_plan_membership(
    acts: Seq<Action>,
    home: Seq<Seq<char>>,
    dotfiles: Seq<Seq<char>>,
    bdir: Seq<Seq<char>>,
    ms: Seq<crate::tree::MappingEntry>,
    n0: int,
)
    requires
        is_mappings_plan(acts, home, dotfiles, bdir, ms),
        0 <= n0 < acts.len(),
    ensures
        exists|k: int, j: int|
            mappings_plan_action(#[trigger] acts[n0], home, dotfiles, bdir, ms, k, j),
    decreases ms.len(),
{
    let n = mapping_plan_len(ms[0]);
    if n0 < n {
        let sub = acts.take(n);
        assert(sub[n0] == acts[n0]);
        if n0 == 0 {
            assert(mappings_plan_action(acts[n0], home, dotfiles, bdir, ms, 0, -1));
        } else {
            assert(sub.skip(1)[n0 - 1] == acts[n0]);
            assert(mappings_plan_action(acts[n0], home, dotfiles, bdir, ms, 0, n0 - 1));
        }
    } else {
        lemma_mappings_plan_membership(acts.skip(n), home, dotfiles, bdir, ms.skip(1), n0 - n);
        let (k0, j0): (int, int) = choose|k0: int, j0: int|
            #[trigger] mappings_plan_action(acts.skip(n)[n0 - n], home, dotfiles, bdir,
            ms.skip(1), k0, j0);
        assert(acts.skip(n)[n0 - n] == acts[n0]);
        assert(ms.skip(1)[k0] == ms[k0 + 1]);
        assert(mappings_plan_action(acts[n0], home, dotfiles, bdir, ms, k0 + 1, j0));
    }
}

/// Every path a mappings plan writes for a mapping other than `k` differs
/// from `q`: target heads, file backups, mirrored destinations and
/// mirrored backups all avoid it.
pub open spec fn writes_avoid(
    home: Seq<Seq<char>>,
    dotfiles: Seq<Seq<char>>,
    bdir: Seq<Seq<char>>,
    ms: Seq<crate::tree::MappingEntry>,
    k: int,
    q: Seq<Seq<char>>,
) -> bool {
    &&& forall|k2: int|
        0 <= k2 < ms.len() && k2 != k ==> home.push((#[trigger] ms[k2]).mapping.target@) != q
    &&& forall|k2: int|
        0 <= k2 < ms.len() && k2 != k ==> bdir.push((#[trigger] ms[k2]).mapping.target@) != q
    &&& forall|k2: int, j2: int|
        0 <= k2 < ms.len() && 0 <= j2 < mapping_entries(ms[k2]).len() ==> dest_of(
            home.push(ms[k2].mapping.target@),
            #[trigger] mapping_entries(ms[k2])[j2],
        ) != q && backup_of(bdir, mapping_entries(ms[k2])[j2]) != q
}

/// Backup before overwrite and completeness for a configured file
/// mapping: after the mappings plan runs, the mapping's target path is a
/// link to its source file, and whatever sat at the target beforehand
/// sits, unchanged, in the backup directory under the target's name.
pub proof fn lemma_mapping_backup_and_link(
    fs: FsModel,
    acts: Seq<Action>,
    home: Seq<Seq<char>>,
    dotfiles: Seq<Seq<char>>,
    bdir: Seq<Seq<char>>,
    ms: Seq<crate::tree::MappingEntry>,
    k: int,
)
    requires
        is_mappings_plan(acts, home, dotfiles, bdir, ms),
        0 <= k < ms.len(),
        ms[k].tree is None,
        home.push(ms[k].mapping.target@) != bdir.push(ms[k].mapping.target@),
        writes_avoid(home, dotfiles, bdir, ms, k, home.push(ms[k].mapping.target@)),
        writes_avoid(home, dotfiles, bdir, ms, k, bdir.push(ms[k].mapping.target@)),
    ensures
        apply_plan(fs, acts).dom().contains(home.push(ms[k].mapping.target@)),
        apply_plan(fs, acts)[home.push(ms[k].mapping.target@)] == (FsNode::Link {
            target: dotfiles.push(ms[k].mapping.source@),
        }),
        fs.dom().contains(home.push(ms[k].mapping.target@)) ==> apply_plan(fs, acts).dom()
            .contains(bdir.push(ms[k].mapping.target@)) && apply_plan(fs, acts)[bdir.push(
            ms[k].mapping.target@,
        )] == fs[home.push(ms[k].mapping.target@)],
    decreases k,
{
    let n = mapping_plan_len(ms[0]);
    let p = home.push(ms[k].mapping.target@);
    let b = bdir.push(ms[k].mapping.target@);
    assert(acts.take(n) + acts.skip(n) =~= acts);
    lemma_apply_plan_concat(fs, acts.take(n), acts.skip(n));
    if k == 0 {
        let a0 = acts.take(n)[0];
        assert(a0 == acts[0]);
        let fs1 = apply_action(fs, a0);
        assert(fs1.dom().contains(p) && fs1[p] == (FsNode::Link {
            target: dotfiles.push(ms[0].mapping.source@),
        }));
        assert forall|n2: int| 0 <= n2 < acts.skip(n).len() implies !touches(
            #[trigger] acts.skip(n)[n2],
            p,
        ) && !touches(acts.skip(n)[n2], b) by {
            lemma_mappings_plan_membership(acts.skip(n), home, dotfiles, bdir, ms.skip(1), n2);
            let (k2, j2): (int, int) = choose|k2: int, j2: int|
                #[trigger] mappings_plan_action(acts.skip(n)[n2], home, dotfiles, bdir,
                ms.skip(1), k2, j2);
            assert(ms.skip(1)[k2] == ms[k2 + 1]);
        }
        assert(acts.take(n).len() == 1);
        assert(acts.take(n).skip(1) =~= Seq::<Action>::empty());
        assert(apply_plan(fs1, acts.take(n).skip(1)) == fs1);
        assert(apply_plan(fs, acts.take(n)) == fs1);
        lemma_plan_untouched(fs1, acts.skip(n), p);
        lemma_plan_untouched(fs1, acts.skip(n), b);
    } else {
        assert forall|n2: int| 0 <= n2 < acts.take(n).len() implies !touches(
            #[trigger] acts.take(n)[n2],
            p,
        ) && !touches(acts.take(n)[n2], b) by {
            if n2 > 0 {
                assert(acts.take(n).skip(1)[n2 - 1] == acts.take(n)[n2]);
                assert(is_entry_action(
                    acts.take(n)[n2],
                    dotfiles.push(ms[0].mapping.source@),
                    home.push(ms[0].mapping.target@),
                    bdir,
                    mapping_entries(ms[0])[n2 - 1],
                ));
            }
        }
        lemma_plan_untouched(fs, acts.take(n), p);
        lemma_plan_untouched(fs, acts.take(n), b);
        assert(ms.skip(1)[k - 1] == ms[k]);
        assert forall|k2: int| 0 <= k2 < ms.skip(1).len() && k2 != k - 1 implies home.push(
            (#[trigger] ms.skip(1)[k2]).mapping.target@,
        ) != p && bdir.push(ms.skip(1)[k2].mapping.target@) != p && home.push(
            ms.skip(1)[k2].mapping.target@,
        ) != b && bdir.push(ms.skip(1)[k2].mapping.target@) != b by {
            assert(ms.skip(1)[k2] == ms[k2 + 1]);
        }
        assert forall|k2: int, j2: int|
            0 <= k2 < ms.skip(1).len() && 0 <= j2 < mapping_entries(
                ms.skip(1)[k2],
            ).len() implies dest_of(
            home.push(ms.skip(1)[k2].mapping.target@),
            #[trigger] mapping_entries(ms.skip(1)[k2])[j2],
        ) != p && backup_of(bdir, mapping_entries(ms.skip(1)[k2])[j2]) != p && dest_of(
            home.push(ms.skip(1)[k2].mapping.target@),
            mapping_entries(ms.skip(1)[k2])[j2],
        ) != b && backup_of(bdir, mapping_entries(ms.skip(1)[k2])[j2]) != b by {
            assert(ms.skip(1)[k2] == ms[k2 + 1]);
        }
        lemma_mapping_backup_and_link(
            apply_plan(fs, acts.take(n)),
            acts.skip(n),
            home,
            dotfiles,
            bdir,
            ms.skip(1),
            k - 1,
        );
    }
}

/// Skipping version-control metadata: a topics plan is, action for action,
/// also the plan of the topic list with a version-control directory taken
/// out — that topic contributes nothing.
pub proof fn lemma_topics_plan_skips_vcs(
    acts: Seq<Action>,
    home: Seq<Seq<char>>,
    dotfiles: Seq<Seq<char>>,
    bdir: Seq<Seq<char>>,
    ts: Seq<crate::tree::TopicDir>,
    i: int,
)
    requires
        is_topics_plan(acts, home, dotfiles, bdir, ts),
        0 <= i < ts.len(),
        is_vcs_name(ts[i].name@),
    ensures
        is_topics_plan(acts, home, dotfiles, bdir, ts.remove(i)),
    decreases i,
{
    if i == 0 {
        assert(topic_plan_len(ts[0]) == 0);
        assert(acts.take(0) =~= Seq::<Action>::empty());
        assert(acts.skip(0) =~= acts);
        assert(ts.remove(0) =~= ts.skip(1));
    } else {
        let n = topic_plan_len(ts[0]);
        assert(ts.skip(1)[i - 1] == ts[i]);
        lemma_topics_plan_skips_vcs(acts.skip(n), home, dotfiles, bdir, ts.skip(1), i - 1);
        let us = ts.remove(i);
        assert(us[0] == ts[0]);
        assert(us.skip(1) =~= ts.skip(1).remove(i - 1));
    }
}

} // verus!
