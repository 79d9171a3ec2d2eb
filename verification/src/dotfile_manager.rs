//! The dotfile manager: topic resolution and the planners that turn a
//! snapshot of the source tree into an install plan.

use vstd::prelude::*;
use vstd::string::StringExecFns;
use crate::DotError;
use crate::paths::DotPath;
use crate::timefmt::{format_stamp, stamp_of};
use crate::tree::{
    Action, FileMapping, MappingEntry, TopicDir, TreeSnapshot,
    is_entry_action, is_mapping_plan, is_mappings_plan, is_mirror_plan, is_topic_plan,
    is_topics_plan, is_vcs_name, lemma_mappings_plan_snoc, lemma_topics_plan_snoc, mapping_ok,
    name_of, rel_of, resolve_spec, snapshot_ok,
};

verus! {

#[verifier::external_type_specification]
#[verifier::external_body]
pub struct ExNaiveDateTime(chrono::NaiveDateTime);

/// Relies on chrono::Local::now: the local date and time at the call,
/// handed on without its zone. Nothing can be promised of a clock reading.
#[verifier::external_body]
fn local_now() -> chrono::NaiveDateTime {
    chrono::Local::now().naive_local()
}

/// Relies on chrono's Datelike::year: the calendar year, any `i32`.
#[verifier::external_body]
fn dt_year(t: &chrono::NaiveDateTime) -> i32 {
    chrono::Datelike::year(t)
}

/// Relies on chrono's Datelike::month: documented to range from 1 to 12.
#[verifier::external_body]
fn dt_month(t: &chrono::NaiveDateTime) -> (r: u32)
    ensures
        1 <= r <= 12,
{
    chrono::Datelike::month(t)
}

/// Relies on chrono's Datelike::day: documented to range from 1 to 31.
#[verifier::external_body]
fn dt_day(t: &chrono::NaiveDateTime) -> (r: u32)
    ensures
        1 <= r <= 31,
{
    chrono::Datelike::day(t)
}

/// Relies on chrono's Timelike::hour: documented to range from 0 to 23.
#[verifier::external_body]
fn dt_hour(t: &chrono::NaiveDateTime) -> (r: u32)
    ensures
        r <= 23,
{
    chrono::Timelike::hour(t)
}

/// Relies on chrono's Timelike::minute: documented to range from 0 to 59.
#[verifier::external_body]
fn dt_minute(t: &chrono::NaiveDateTime) -> (r: u32)
    ensures
        r <= 59,
{
    chrono::Timelike::minute(t)
}

/// Relies on chrono's Timelike::second: documented to range from 0 to 59.
#[verifier::external_body]
fn dt_second(t: &chrono::NaiveDateTime) -> (r: u32)
    ensures
        r <= 59,
{
    chrono::Timelike::second(t)
}

/// Relies on dirs::home_dir: the platform's home directory, if one is
/// known; answers `None` as well when that path is not valid Unicode.
/// Nothing can be promised of an environment lookup.
#[verifier::external_body]
fn home_dir_string() -> Option<String> {
    match dirs::home_dir() {
        Some(p) => match p.to_str() {
            Some(s) => Some(s.to_string()),
            None => None,
        },
        None => None,
    }
}

/// Character-wise equality of two string slices.
fn str_eq(a: &str, b: &str) -> (r: bool)
    ensures
        r == (a@ == b@),
{
    let sa: String = a.to_owned();
    let sb: String = b.to_owned();
    sa == sb
}

/// The manager of one install run: where the source tree lives, where this
/// run's backups go, and the home directory everything is resolved against.
pub struct DotfileManager {
    pub dotfiles_dir: DotPath,
    pub backup_dir: DotPath,
    pub home_dir: DotPath,
    pub verbose: bool,
}

impl DotfileManager {
    /// The directories hang together: the source tree is `dotfiles` under
    /// home, and the backup directory is one entry under `.dotfiles_backup`
    /// under home.
    pub open spec fn wf(&self) -> bool {
        &&& self.dotfiles_dir@ == self.home_dir@.push("dotfiles"@)
        &&& self.backup_dir@.len() == self.home_dir@.len() + 2
        &&& self.backup_dir@.take(self.home_dir@.len() as int) == self.home_dir@
        &&& self.backup_dir@[self.home_dir@.len() as int] == ".dotfiles_backup"@
    }

    /// The manager for a run with an injected home directory and start
    /// time: the source tree is `dotfiles` under home, and this run's
    /// backups go to the directory named by the start time under
    /// `.dotfiles_backup`.
    pub fn new_with(
        home: &str,
        year: u32,
        month: u32,
        day: u32,
        hour: u32,
        minute: u32,
        second: u32,
        verbose: bool,
    ) -> (m: DotfileManager)
        requires
            year < 10000,
            month < 100,
            day < 100,
            hour < 100,
            minute < 100,
            second < 100,
        ensures
            m.home_dir@ == seq![home@],
            m.dotfiles_dir@ == seq![home@, "dotfiles"@],
            m.backup_dir@ == seq![
                home@,
                ".dotfiles_backup"@,
                stamp_of(year as int, month as int, day as int, hour as int, minute as int,
                    second as int),
            ],
            m.verbose == verbose,
            m.wf(),
    {
        let mut parts: Vec<String> = Vec::new();
        parts.push(home.to_owned());
        let home_dir = DotPath { parts };
        proof {
            assert(home_dir@ =~= seq![home@]);
        }
        let dotfiles_dir = home_dir.join("dotfiles");
        let stamp = format_stamp(year, month, day, hour, minute, second);
        let backup_dir = home_dir.join(".dotfiles_backup").join(stamp.as_str());
        let m = DotfileManager { dotfiles_dir, backup_dir, home_dir, verbose };
        proof {
            assert(m.dotfiles_dir@ =~= seq![home@, "dotfiles"@]);
            assert(m.backup_dir@ =~= seq![
                home@,
                ".dotfiles_backup"@,
                stamp_of(year as int, month as int, day as int, hour as int, minute as int,
                    second as int),
            ]);
            assert(m.backup_dir@.take(m.home_dir@.len() as int) =~= m.home_dir@);
        }
        m
    }

    /// The manager for a run starting now, in the home directory the
    /// platform reports. Which directory and which time those are depends
    /// on the machine, so only the shape of the result is promised; a
    /// calendar year outside four digits is clamped to the nearest one.
    pub fn new(verbose: bool) -> (r: Result<DotfileManager, DotError>)
        ensures
            r matches Ok(m) ==> m.wf() && m.verbose == verbose && m.home_dir@.len() == 1,
    {
        let home = match home_dir_string() {
            Some(h) => h,
            None => {
                return Err(DotError::Io);
            },
        };
        let t = local_now();
        let year_raw = dt_year(&t);
        let year: u32 = if year_raw < 0 {
            0
        } else if year_raw > 9999 {
            9999
        } else {
            year_raw as u32
        };
        Ok(
            Self::new_with(
                home.as_str(),
                year,
                dt_month(&t),
                dt_day(&t),
                dt_hour(&t),
                dt_minute(&t),
                dt_second(&t),
                verbose,
            ),
        )
    }

    /// Where a topic's files land: the fixed table, with home itself as the
    /// fallback for every unknown topic.
    pub fn resolve(&self, topic: &str) -> (r: DotPath)
        ensures
            r@ == resolve_spec(self.home_dir@, topic@),
    {
        if str_eq(topic, "zellij") || str_eq(topic, "nvim") {
            self.home_dir.join(".config").join(topic)
        } else {
            self.home_dir.clone()
        }
    }

    /// The full target path of one file of a topic.
    pub fn get_target_path(&self, topic: &str, file_name: &str) -> (r: DotPath)
        ensures
            r@ == resolve_spec(self.home_dir@, topic@).push(file_name@),
    {
        self.resolve(topic).join(file_name)
    }

    /// The action that installs the single file `src` into `target_dir`:
    /// whatever sits at the destination is renamed into the backup
    /// directory under the file's name, then the destination becomes a link
    /// to `src`. A path without a final component is rejected.
    pub fn link_file(&self, src: &DotPath, target_dir: &DotPath) -> (r: Result<
        Action,
        DotError,
    >)
        ensures
            match r {
                Ok(a) => src@.len() > 0 && (a matches Action::LinkFile { source, dest, backup }
                    && source@ == src@ && dest@ == target_dir@.push(src@.last())
                    && backup@ == self.backup_dir@.push(src@.last())),
                Err(e) => e == DotError::InvalidInput && src@.len() == 0,
            },
    {
        match src.file_name() {
            None => Err(DotError::InvalidInput),
            Some(name) => {
                let name = name.clone();
                Ok(
                    Action::LinkFile {
                        source: src.clone(),
                        dest: target_dir.join(name.as_str()),
                        backup: self.backup_dir.join(name.as_str()),
                    },
                )
            },
        }
    }

    /// The plan that mirrors a walked source directory into `target_dir`:
    /// one action per snapshot entry, in the snapshot's order. Fails, and
    /// only fails, when some entry has an empty relative path.
    pub fn process_directory(
        &self,
        src_dir: &DotPath,
        target_dir: &DotPath,
        tree: &TreeSnapshot,
    ) -> (r: Result<Vec<Action>, DotError>)
        ensures
            match r {
                Ok(acts) => snapshot_ok(tree.entries@) && is_mirror_plan(
                    acts@,
                    src_dir@,
                    target_dir@,
                    self.backup_dir@,
                    tree.entries@,
                ),
                Err(e) => e == DotError::InvalidInput && !snapshot_ok(tree.entries@),
            },
    {
        let mut acts: Vec<Action> = Vec::new();
        let mut i: usize = 0;
        while i < tree.entries.len()
            invariant
                i <= tree.entries@.len(),
                acts@.len() == i,
                forall|j: int|
                    0 <= j < i ==> is_entry_action(
                        #[trigger] acts@[j],
                        src_dir@,
                        target_dir@,
                        self.backup_dir@,
                        tree.entries@[j],
                    ),
                forall|j: int| 0 <= j < i ==> rel_of(#[trigger] tree.entries@[j]).len() > 0,
            decreases tree.entries@.len() - i,
        {
            let e = &tree.entries[i];
            if e.rel.len() == 0 {
                return Err(DotError::InvalidInput);
            }
            if e.is_dir {
                acts.push(Action::EnsureDir { path: target_dir.extend(&e.rel) });
            } else {
                let name = e.rel[e.rel.len() - 1].clone();
                proof {
                    assert(name@ == name_of(tree.entries@[i as int]));
                }
                acts.push(
                    Action::LinkFile {
                        source: src_dir.extend(&e.rel),
                        dest: target_dir.extend(&e.rel),
                        backup: self.backup_dir.join(name.as_str()),
                    },
                );
            }
            i = i + 1;
        }
        Ok(acts)
    }

    /// The plan for one topic directory: create its resolved target root,
    /// then mirror the topic into it.
    pub fn process_topic(&self, topic: &str, topic_path: &DotPath, tree: &TreeSnapshot) -> (r:
        Result<Vec<Action>, DotError>)
        ensures
            match r {
                Ok(acts) => {
                    &&& snapshot_ok(tree.entries@)
                    &&& acts@.len() == 1 + tree.entries@.len()
                    &&& acts@[0] matches Action::EnsureDir { path } && path@ == resolve_spec(
                        self.home_dir@,
                        topic@,
                    )
                    &&& is_mirror_plan(
                        acts@.skip(1),
                        topic_path@,
                        resolve_spec(self.home_dir@, topic@),
                        self.backup_dir@,
                        tree.entries@,
                    )
                },
                Err(e) => e == DotError::InvalidInput && !snapshot_ok(tree.entries@),
            },
    {
        let target_dir = self.resolve(topic);
        let mut rest = self.process_directory(topic_path, &target_dir, tree)?;
        let mut acts: Vec<Action> = Vec::new();
        acts.push(Action::EnsureDir { path: target_dir });
        acts.append(&mut rest);
        proof {
            assert(acts@.skip(1) =~= acts@.subrange(1, acts@.len() as int));
        }
        Ok(acts)
    }

    /// The plan of an explicit-mapping install: first make this run's
    /// backup directory ready, then handle each configured mapping in
    /// order — a directory source is mirrored into its target, a file
    /// source becomes one link at its target path. Fails, and only fails,
    /// when some mapping has an empty name or an unusable snapshot entry;
    /// nothing of the plan is handed out then.
    pub fn install(&self, mappings: &Vec<MappingEntry>) -> (r: Result<Vec<Action>, DotError>)
        ensures
            match r {
                Ok(acts) => {
                    &&& forall|i: int|
                        0 <= i < mappings@.len() ==> mapping_ok(#[trigger] mappings@[i])
                    &&& acts@.len() >= 1
                    &&& acts@[0] matches Action::EnsureDir { path } && path@ == self.backup_dir@
                    &&& is_mappings_plan(
                        acts@.skip(1),
                        self.home_dir@,
                        self.dotfiles_dir@,
                        self.backup_dir@,
                        mappings@,
                    )
                },
                Err(e) => e == DotError::InvalidInput && exists|i: int|
                    0 <= i < mappings@.len() && !mapping_ok(#[trigger] mappings@[i]),
            },
    {
        let mut acts: Vec<Action> = Vec::new();
        acts.push(Action::EnsureDir { path: self.backup_dir.clone() });
        proof {
            assert(acts@.skip(1) =~= Seq::<Action>::empty());
            assert(mappings@.take(0) =~= Seq::<MappingEntry>::empty());
        }
        let mut k: usize = 0;
        while k < mappings.len()
            invariant
                k <= mappings@.len(),
                acts@.len() >= 1,
                acts@[0] matches Action::EnsureDir { path } && path@ == self.backup_dir@,
                is_mappings_plan(
                    acts@.skip(1),
                    self.home_dir@,
                    self.dotfiles_dir@,
                    self.backup_dir@,
                    mappings@.take(k as int),
                ),
                forall|i: int| 0 <= i < k ==> mapping_ok(#[trigger] mappings@[i]),
            decreases mappings@.len() - k,
        {
            let me = &mappings[k];
            if me.mapping.source.as_str().is_empty() || me.mapping.target.as_str().is_empty() {
                proof {
                    assert(!mapping_ok(mappings@[k as int]));
                }
                return Err(DotError::InvalidInput);
            }
            let src = self.dotfiles_dir.join(me.mapping.source.as_str());
            let tgt = self.home_dir.join(me.mapping.target.as_str());
            let mut sub: Vec<Action> = Vec::new();
            match &me.tree {
                Some(t) => {
                    let mut rest = match self.process_directory(&src, &tgt, t) {
                        Ok(rest) => rest,
                        Err(e) => {
                            proof {
                                assert(!mapping_ok(mappings@[k as int]));
                            }
                            return Err(e);
                        },
                    };
                    sub.push(Action::EnsureDir { path: tgt });
                    sub.append(&mut rest);
                    proof {
                        assert(sub@.skip(1) =~= sub@.subrange(1, sub@.len() as int));
                    }
                },
                None => {
                    sub.push(
                        Action::LinkFile {
                            source: src,
                            dest: tgt,
                            backup: self.backup_dir.join(me.mapping.target.as_str()),
                        },
                    );
                },
            }
            proof {
                assert(is_mapping_plan(
                    sub@,
                    self.home_dir@,
                    self.dotfiles_dir@,
                    self.backup_dir@,
                    mappings@[k as int],
                ));
            }
            let ghost prev = acts@;
            acts.append(&mut sub);
            k = k + 1;
            proof {
                assert(acts@.skip(1) =~= prev.skip(1) + acts@.subrange(
                    prev.len() as int,
                    acts@.len() as int,
                ));
                lemma_mappings_plan_snoc(
                    prev.skip(1),
                    acts@.subrange(prev.len() as int, acts@.len() as int),
                    self.home_dir@,
                    self.dotfiles_dir@,
                    self.backup_dir@,
                    mappings@.take(k - 1),
                    mappings@[k - 1],
                );
                assert(mappings@.take(k as int) =~= mappings@.take(k - 1).push(
                    mappings@[k - 1],
                ));
            }
        }
        proof {
            assert(mappings@.take(mappings@.len() as int) =~= mappings@);
        }
        Ok(acts)
    }

    /// The plan of a topic-directory install: first make this run's backup
    /// directory ready, then, for every top-level subdirectory of the
    /// source tree except the version-control metadata directory, create
    /// the topic's resolved target root and mirror the topic into it.
    /// Fails, and only fails, when some topic that is not skipped has an
    /// unusable snapshot entry.
    pub fn install_topics(&self, topics: &Vec<TopicDir>) -> (r: Result<Vec<Action>, DotError>)
        ensures
            match r {
                Ok(acts) => {
                    &&& forall|i: int|
                        0 <= i < topics@.len() && !is_vcs_name(
                            (#[trigger] topics@[i]).name@,
                        ) ==> snapshot_ok(topics@[i].tree.entries@)
                    &&& acts@.len() >= 1
                    &&& acts@[0] matches Action::EnsureDir { path } && path@ == self.backup_dir@
                    &&& is_topics_plan(
                        acts@.skip(1),
                        self.home_dir@,
                        self.dotfiles_dir@,
                        self.backup_dir@,
                        topics@,
                    )
                },
                Err(e) => e == DotError::InvalidInput && exists|i: int|
                    0 <= i < topics@.len() && !is_vcs_name((#[trigger] topics@[i]).name@)
                        && !snapshot_ok(topics@[i].tree.entries@),
            },
    {
        let mut acts: Vec<Action> = Vec::new();
        acts.push(Action::EnsureDir { path: self.backup_dir.clone() });
        proof {
            assert(acts@.skip(1) =~= Seq::<Action>::empty());
            assert(topics@.take(0) =~= Seq::<TopicDir>::empty());
        }
        let mut k: usize = 0;
        while k < topics.len()
            invariant
                k <= topics@.len(),
                acts@.len() >= 1,
                acts@[0] matches Action::EnsureDir { path } && path@ == self.backup_dir@,
                is_topics_plan(
                    acts@.skip(1),
                    self.home_dir@,
                    self.dotfiles_dir@,
                    self.backup_dir@,
                    topics@.take(k as int),
                ),
                forall|i: int|
                    0 <= i < k && !is_vcs_name((#[trigger] topics@[i]).name@) ==> snapshot_ok(
                        topics@[i].tree.entries@,
                    ),
            decreases topics@.len() - k,
        {
            let t = &topics[k];
            let mut sub: Vec<Action> = Vec::new();
            if !str_eq(t.name.as_str(), ".git") {
                let target_dir = self.resolve(t.name.as_str());
                let topic_path = self.dotfiles_dir.join(t.name.as_str());
                let mut rest = match self.process_directory(&topic_path, &target_dir, &t.tree) {
                    Ok(rest) => rest,
                    Err(e) => {
                        proof {
                            assert(!snapshot_ok(topics@[k as int].tree.entries@));
                        }
                        return Err(e);
                    },
                };
                sub.push(Action::EnsureDir { path: target_dir });
                sub.append(&mut rest);
                proof {
                    assert(sub@.skip(1) =~= sub@.subrange(1, sub@.len() as int));
                }
            }
            proof {
                assert(is_topic_plan(
                    sub@,
                    self.home_dir@,
                    self.dotfiles_dir@,
                    self.backup_dir@,
                    topics@[k as int],
                ));
            }
            let ghost prev = acts@;
            acts.append(&mut sub);
            k = k + 1;
            proof {
                assert(acts@.skip(1) =~= prev.skip(1) + acts@.subrange(
                    prev.len() as int,
                    acts@.len() as int,
                ));
                lemma_topics_plan_snoc(
                    prev.skip(1),
                    acts@.subrange(prev.len() as int, acts@.len() as int),
                    self.home_dir@,
                    self.dotfiles_dir@,
                    self.backup_dir@,
                    topics@.take(k - 1),
                    topics@[k - 1],
                );
                assert(topics@.take(k as int) =~= topics@.take(k - 1).push(topics@[k - 1]));
            }
        }
        proof {
            assert(topics@.take(topics@.len() as int) =~= topics@);
        }
        Ok(acts)
    }

    /// The resolved pair of every configured mapping, in order: where its
    /// source lives under the source tree and where its target lives under
    /// home. What `list` and `status` show is read off these pairs.
    pub fn list_configs(&self, mappings: &Vec<FileMapping>) -> (r: Vec<(DotPath, DotPath)>)
        ensures
            r@.len() == mappings@.len(),
            forall|i: int|
                0 <= i < mappings@.len() ==> (#[trigger] r@[i]).0@ == self.dotfiles_dir@.push(
                    mappings@[i].source@,
                ) && r@[i].1@ == self.home_dir@.push(mappings@[i].target@),
    {
        let mut out: Vec<(DotPath, DotPath)> = Vec::new();
        let mut k: usize = 0;
        while k < mappings.len()
            invariant
                k <= mappings@.len(),
                out@.len() == k,
                forall|i: int|
                    0 <= i < k ==> (#[trigger] out@[i]).0@ == self.dotfiles_dir@.push(
                        mappings@[i].source@,
                    ) && out@[i].1@ == self.home_dir@.push(mappings@[i].target@),
            decreases mappings@.len() - k,
        {
            let src = self.dotfiles_dir.join(mappings[k].source.as_str());
            let tgt = self.home_dir.join(mappings[k].target.as_str());
            out.push((src, tgt));
            k = k + 1;
        }
        out
    }

    /// Where the advisory secrets file is expected.
    pub fn secrets_path(&self) -> (r: DotPath)
        ensures
            r@ == self.home_dir@.push(".secrets"@),
    {
        self.home_dir.join(".secrets")
    }

    /// The advisory notice after an install: a message exactly when no
    /// secrets file was found, never an error and never a mutation.
    pub fn check_secrets(&self, secrets_present: bool) -> (r: Option<String>)
        ensures
            match r {
                Some(msg) => !secrets_present && msg@
                    == "No .secrets file found in home directory"@,
                None => secrets_present,
            },
    {
        if !secrets_present {
            Some("No .secrets file found in home directory".to_owned())
        } else {
            None
        }
    }

    /// Whether every configured target was found installed: true exactly
    /// when no flag of the survey is false.
    pub fn check_status(&self, installed: &Vec<bool>) -> (all_good: bool)
        ensures
            all_good == (forall|i: int| 0 <= i < installed@.len() ==> installed@[i]),
    {
        let mut k: usize = 0;
        while k < installed.len()
            invariant
                k <= installed@.len(),
                forall|i: int| 0 <= i < k ==> installed@[i],
            decreases installed@.len() - k,
        {
            if !installed[k] {
                return false;
            }
            k = k + 1;
        }
        true
    }

    /// Where the add operation copies a file into the source tree: the
    /// topic's directory under the source tree, and the file's name below
    /// it. Rejects a source file that does not exist and a path without a
    /// final component.
    pub fn add_config(&self, topic: &str, file: &DotPath, file_exists: bool) -> (r: Result<
        (DotPath, DotPath),
        DotError,
    >)
        ensures
            match r {
                Ok(pair) => {
                    &&& file_exists
                    &&& file@.len() > 0
                    &&& pair.0@ == self.dotfiles_dir@.push(topic@)
                    &&& pair.1@ == self.dotfiles_dir@.push(topic@).push(file@.last())
                },
                Err(e) => e == DotError::InvalidInput && (!file_exists || file@.len() == 0),
            },
    {
        if !file_exists {
            return Err(DotError::InvalidInput);
        }
        match file.file_name() {
            None => Err(DotError::InvalidInput),
            Some(name) => {
                let name = name.clone();
                let topic_dir = self.dotfiles_dir.join(topic);
                let dest = topic_dir.join(name.as_str());
                Ok((topic_dir, dest))
            },
        }
    }
}

} // verus!
