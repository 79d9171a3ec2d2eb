//! Snapshots of the source tree and the actions of an install plan.
//!
//! The caller walks the managed source tree and hands the engine a
//! [`TreeSnapshot`]; the engine answers with a sequence of [`Action`]s, each
//! an exactly specified filesystem mutation, to be performed in order.

use vstd::prelude::*;
use crate::paths::DotPath;

verus! {

/// One entry below a snapshot's root: its path relative to that root
/// (components, the last one being the entry's own name) and whether it is
/// a directory. Anything that is not a directory is treated as a file to
/// link, symlinks in the source tree included.
#[derive(Debug, PartialEq, Eq)]
pub struct TreeEntry {
    pub rel: Vec<String>,
    pub is_dir: bool,
}

/// Everything a walk of one source directory found, in the order it found it.
#[derive(Debug, PartialEq, Eq)]
pub struct TreeSnapshot {
    pub entries: Vec<TreeEntry>,
}

/// One filesystem mutation of an install plan.
#[derive(Debug, PartialEq, Eq)]
pub enum Action {
    /// Create the directory and any missing parents; leave an existing
    /// entry at that path alone.
    EnsureDir { path: DotPath },
    /// Install one file: if anything exists at `dest`, rename it to
    /// `backup` first; then create a symbolic link at `dest` whose target
    /// is `source`.
    LinkFile { source: DotPath, dest: DotPath, backup: DotPath },
}

/// An explicit mapping from the configuration document: a source path
/// relative to the source tree and a target path relative to home.
#[derive(Debug, PartialEq, Eq)]
pub struct FileMapping {
    pub source: String,
    pub target: String,
}

/// A mapping together with what the filesystem showed for its source:
/// `None` for a regular file, a snapshot for a directory.
pub struct MappingEntry {
    pub mapping: FileMapping,
    pub tree: Option<TreeSnapshot>,
}

/// A top-level subdirectory of the source tree, as one installable topic.
pub struct TopicDir {
    pub name: String,
    pub tree: TreeSnapshot,
}

/// The path of entry `e`, relative to its snapshot's root.
pub open spec fn rel_of(e: TreeEntry) -> Seq<Seq<char>> {
    e.rel.deep_view()
}

/// The name of entry `e`: the last component of its relative path.
pub open spec fn name_of(e: TreeEntry) -> Seq<char> {
    rel_of(e).last()
}

/// Every entry of the snapshot has at least one path component.
pub open spec fn snapshot_ok(entries: Seq<TreeEntry>) -> bool {
    forall|i: int| 0 <= i < entries.len() ==> rel_of(#[trigger] entries[i]).len() > 0
}

/// Action `a` is the one that mirrors entry `e` of a walk of `src` into
/// `tgt`, with backups renamed into `bdir`: a directory becomes the matching
/// directory under `tgt`; anything else becomes a link at the matching path
/// under `tgt`, pointing back into `src`, its backup keyed by its name alone.
pub open spec fn is_entry_action(
    a: Action,
    src: Seq<Seq<char>>,
    tgt: Seq<Seq<char>>,
    bdir: Seq<Seq<char>>,
    e: TreeEntry,
) -> bool {
    if e.is_dir {
        a matches Action::EnsureDir { path } && path@ == tgt + rel_of(e)
    } else {
        a matches Action::LinkFile { source, dest, backup }
            && source@ == src + rel_of(e)
            && dest@ == tgt + rel_of(e)
            && backup@ == bdir.push(name_of(e))
    }
}

/// `acts` mirrors the snapshot `entries` of `src` into `tgt`, entry by
/// entry and in the snapshot's order.
pub open spec fn is_mirror_plan(
    acts: Seq<Action>,
    src: Seq<Seq<char>>,
    tgt: Seq<Seq<char>>,
    bdir: Seq<Seq<char>>,
    entries: Seq<TreeEntry>,
) -> bool {
    &&& acts.len() == entries.len()
    &&& forall|i: int|
        0 <= i < entries.len() ==> is_entry_action(
            #[trigger] acts[i],
            src,
            tgt,
            bdir,
            entries[i],
        )
}

/// The mapping has usable names, and its snapshot (if its source is a
/// directory) has usable entries.
pub open spec fn mapping_ok(me: MappingEntry) -> bool {
    &&& me.mapping.source@.len() > 0
    &&& me.mapping.target@.len() > 0
    &&& (me.tree matches Some(t) ==> snapshot_ok(t.entries@))
}

/// How many actions the plan for one mapping holds.
pub open spec fn mapping_plan_len(me: MappingEntry) -> int {
    match me.tree {
        Some(t) => 1 + t.entries@.len() as int,
        None => 1,
    }
}

/// `acts` is the plan for the single mapping `me`: a directory source is
/// created at the target and mirrored into it; a file source becomes one
/// link at the target path itself, its backup keyed by the target name.
pub open spec fn is_mapping_plan(
    acts: Seq<Action>,
    home: Seq<Seq<char>>,
    dotfiles: Seq<Seq<char>>,
    bdir: Seq<Seq<char>>,
    me: MappingEntry,
) -> bool {
    let src = dotfiles.push(me.mapping.source@);
    let tgt = home.push(me.mapping.target@);
    match me.tree {
        Some(t) => {
            &&& acts.len() == 1 + t.entries@.len()
            &&& acts[0] matches Action::EnsureDir { path } && path@ == tgt
            &&& is_mirror_plan(acts.skip(1), src, tgt, bdir, t.entries@)
        },
        None => {
            &&& acts.len() == 1
            &&& acts[0] matches Action::LinkFile { source, dest, backup }
                && source@ == src && dest@ == tgt && backup@ == bdir.push(
                me.mapping.target@,
            )
        },
    }
}

/// `acts` is the concatenation of the plans of the mappings, in order.
pub open spec fn is_mappings_plan(
    acts: Seq<Action>,
    home: Seq<Seq<char>>,
    dotfiles: Seq<Seq<char>>,
    bdir: Seq<Seq<char>>,
    ms: Seq<MappingEntry>,
) -> bool
    decreases ms.len(),
{
    if ms.len() == 0 {
        acts.len() == 0
    } else {
        let n = mapping_plan_len(ms[0]);
        &&& acts.len() >= n
        &&& is_mapping_plan(acts.take(n), home, dotfiles, bdir, ms[0])
        &&& is_mappings_plan(acts.skip(n), home, dotfiles, bdir, ms.skip(1))
    }
}

/// The fixed table of the path resolver: the known topics land in their
/// directory under `.config`; every other topic lands in home itself.
pub open spec fn resolve_spec(home: Seq<Seq<char>>, topic: Seq<char>) -> Seq<Seq<char>> {
    if topic == "zellij"@ || topic == "nvim"@ {
        home.push(".config"@).push(topic)
    } else {
        home
    }
}

/// Topic resolution is a fixed table: the two known topics always land in
/// their own directory under `.config`, and every other name always lands
/// in the home directory itself.
pub proof fn lemma_resolve_fixed(home: Seq<Seq<char>>, topic: Seq<char>)
    ensures
        resolve_spec(home, "zellij"@) == home.push(".config"@).push("zellij"@),
        resolve_spec(home, "nvim"@) == home.push(".config"@).push("nvim"@),
        topic != "zellij"@ && topic != "nvim"@ ==> resolve_spec(home, topic) == home,
{
}

/// The version-control metadata directory that topic enumeration skips.
pub open spec fn is_vcs_name(name: Seq<char>) -> bool {
    name == ".git"@
}

/// How many actions the plan for one topic holds; a skipped topic holds none.
pub open spec fn topic_plan_len(t: TopicDir) -> int {
    if is_vcs_name(t.name@) {
        0
    } else {
        1 + t.tree.entries@.len() as int
    }
}

/// `acts` is the plan for the single topic `t`: nothing at all for the
/// version-control directory; otherwise its resolved target root is
/// created and the topic directory is mirrored into it.
pub open spec fn is_topic_plan(
    acts: Seq<Action>,
    home: Seq<Seq<char>>,
    dotfiles: Seq<Seq<char>>,
    bdir: Seq<Seq<char>>,
    t: TopicDir,
) -> bool {
    if is_vcs_name(t.name@) {
        acts.len() == 0
    } else {
        let tgt = resolve_spec(home, t.name@);
        &&& acts.len() == 1 + t.tree.entries@.len()
        &&& acts[0] matches Action::EnsureDir { path } && path@ == tgt
        &&& is_mirror_plan(acts.skip(1), dotfiles.push(t.name@), tgt, bdir, t.tree.entries@)
    }
}

/// `acts` is the concatenation of the plans of the topics, in order.
pub open spec fn is_topics_plan(
    acts: Seq<Action>,
    home: Seq<Seq<char>>,
    dotfiles: Seq<Seq<char>>,
    bdir: Seq<Seq<char>>,
    ts: Seq<TopicDir>,
) -> bool
    decreases ts.len(),
{
    if ts.len() == 0 {
        acts.len() == 0
    } else {
        let n = topic_plan_len(ts[0]);
        &&& acts.len() >= n
        &&& is_topic_plan(acts.take(n), home, dotfiles, bdir, ts[0])
        &&& is_topics_plan(acts.skip(n), home, dotfiles, bdir, ts.skip(1))
    }
}

/// Extending a mappings plan by one mapping's plan extends the mapping list.
pub proof fn lemma_mappings_plan_snoc(
    acts1: Seq<Action>,
    acts2: Seq<Action>,
    home: Seq<Seq<char>>,
    dotfiles: Seq<Seq<char>>,
    bdir: Seq<Seq<char>>,
    ms: Seq<MappingEntry>,
    m: MappingEntry,
)
    requires
        is_mappings_plan(acts1, home, dotfiles, bdir, ms),
        is_mapping_plan(acts2, home, dotfiles, bdir, m),
    ensures
        is_mappings_plan(acts1 + acts2, home, dotfiles, bdir, ms.push(m)),
    decreases ms.len(),
{
    assert(acts2.len() == mapping_plan_len(m));
    if ms.len() == 0 {
        assert((acts1 + acts2) =~= acts2);
        let ts = ms.push(m);
        assert(ts[0] == m);
        assert(acts2.take(mapping_plan_len(m)) =~= acts2);
        assert(acts2.skip(mapping_plan_len(m)) =~= Seq::<Action>::empty());
        assert(ts.skip(1) =~= Seq::<MappingEntry>::empty());
        assert(is_mappings_plan(acts2.skip(mapping_plan_len(m)), home, dotfiles, bdir, ts.skip(1)));
    } else {
        let n = mapping_plan_len(ms[0]);
        lemma_mappings_plan_snoc(acts1.skip(n), acts2, home, dotfiles, bdir, ms.skip(1), m);
        let acts = acts1 + acts2;
        let ts = ms.push(m);
        assert(ts[0] == ms[0]);
        assert(acts1.len() >= n);
        assert(acts.take(n) =~= acts1.take(n));
        assert(acts.skip(n) =~= acts1.skip(n) + acts2);
        assert(ts.skip(1) =~= ms.skip(1).push(m));
    }
}

/// Extending a topics plan by one topic's plan extends the topic list.
pub proof fn lemma_topics_plan_snoc(
    acts1: Seq<Action>,
    acts2: Seq<Action>,
    home: Seq<Seq<char>>,
    dotfiles: Seq<Seq<char>>,
    bdir: Seq<Seq<char>>,
    ts: Seq<TopicDir>,
    t: TopicDir,
)
    requires
        is_topics_plan(acts1, home, dotfiles, bdir, ts),
        is_topic_plan(acts2, home, dotfiles, bdir, t),
    ensures
        is_topics_plan(acts1 + acts2, home, dotfiles, bdir, ts.push(t)),
    decreases ts.len(),
{
    assert(acts2.len() == topic_plan_len(t));
    if ts.len() == 0 {
        assert((acts1 + acts2) =~= acts2);
        let us = ts.push(t);
        assert(us[0] == t);
        assert(acts2.take(topic_plan_len(t)) =~= acts2);
        assert(acts2.skip(topic_plan_len(t)) =~= Seq::<Action>::empty());
        assert(us.skip(1) =~= Seq::<TopicDir>::empty());
        assert(is_topics_plan(acts2.skip(topic_plan_len(t)), home, dotfiles, bdir, us.skip(1)));
    } else {
        let n = topic_plan_len(ts[0]);
        lemma_topics_plan_snoc(acts1.skip(n), acts2, home, dotfiles, bdir, ts.skip(1), t);
        let acts = acts1 + acts2;
        let us = ts.push(t);
        assert(us[0] == ts[0]);
        assert(acts1.len() >= n);
        assert(acts.take(n) =~= acts1.take(n));
        assert(acts.skip(n) =~= acts1.skip(n) + acts2);
        assert(us.skip(1) =~= ts.skip(1).push(t));
    }
}

} // verus!
