use dotman::DotError;
use dotman::dotfile_manager::DotfileManager;
use dotman::paths::DotPath;
use dotman::timefmt::format_stamp;
use dotman::tree::{Action, FileMapping, MappingEntry, TopicDir, TreeEntry, TreeSnapshot};

fn path(parts: &[&str]) -> DotPath {
    DotPath { parts: parts.iter().map(|s| s.to_string()).collect() }
}

fn entry(rel: &[&str], is_dir: bool) -> TreeEntry {
    TreeEntry { rel: rel.iter().map(|s| s.to_string()).collect(), is_dir }
}

fn snapshot(entries: Vec<TreeEntry>) -> TreeSnapshot {
    TreeSnapshot { entries }
}

fn manager() -> DotfileManager {
    DotfileManager::new_with("/home/u", 2024, 1, 2, 3, 4, 5, false)
}

#[test]
fn format_stamp_exact() {
    let s = format_stamp(2024, 1, 2, 3, 4, 5);
    assert_eq!(s.as_str(), "20240102_030405");
}

#[test]
fn format_stamp_pads_every_field() {
    let s = format_stamp(7, 10, 31, 0, 59, 9);
    assert_eq!(s.as_str(), "00071031_005909");
}

#[test]
fn stamps_sort_lexically_by_time() {
    let earlier = format_stamp(2024, 12, 31, 23, 59, 59);
    let later = format_stamp(2025, 1, 1, 0, 0, 0);
    assert!(earlier.as_str() < later.as_str());
}

#[test]
fn new_with_lays_out_directories() {
    let m = manager();
    assert_eq!(m.home_dir, path(&["/home/u"]));
    assert_eq!(m.dotfiles_dir, path(&["/home/u", "dotfiles"]));
    assert_eq!(m.backup_dir, path(&["/home/u", ".dotfiles_backup", "20240102_030405"]));
    assert!(!m.verbose);
}

#[test]
fn new_reports_home_or_fails_cleanly() {
    match DotfileManager::new(true) {
        Ok(m) => {
            assert_eq!(m.home_dir.parts.len(), 1);
            assert_eq!(m.dotfiles_dir.parts.len(), 2);
            assert_eq!(m.dotfiles_dir.parts[1], "dotfiles");
            assert_eq!(m.backup_dir.parts.len(), 3);
            assert_eq!(m.backup_dir.parts[1], ".dotfiles_backup");
            assert!(m.verbose);
        },
        Err(e) => assert_eq!(e, DotError::Io),
    }
}

#[test]
fn resolve_known_topics_use_config_dir() {
    let m = manager();
    assert_eq!(m.resolve("zellij"), path(&["/home/u", ".config", "zellij"]));
    assert_eq!(m.resolve("nvim"), path(&["/home/u", ".config", "nvim"]));
}

#[test]
fn resolve_unknown_topic_is_home() {
    let m = manager();
    assert_eq!(m.resolve("zsh"), path(&["/home/u"]));
    assert_eq!(m.resolve(""), path(&["/home/u"]));
    assert_eq!(m.resolve("git"), path(&["/home/u"]));
}

#[test]
fn resolve_is_deterministic() {
    let m = manager();
    assert_eq!(m.resolve("zellij"), m.resolve("zellij"));
    assert_eq!(m.resolve("nvim"), m.resolve("nvim"));
}

#[test]
fn get_target_path_known_and_fallback() {
    let m = manager();
    assert_eq!(
        m.get_target_path("nvim", "init.lua"),
        path(&["/home/u", ".config", "nvim", "init.lua"]),
    );
    assert_eq!(m.get_target_path("zsh", ".zshrc"), path(&["/home/u", ".zshrc"]));
}

#[test]
fn link_file_backs_up_then_links() {
    let m = manager();
    let action = m.link_file(&path(&["/home/u", "dotfiles", "zsh", ".zshrc"]), &path(&["/home/u"]));
    assert_eq!(
        action,
        Ok(Action::LinkFile {
            source: path(&["/home/u", "dotfiles", "zsh", ".zshrc"]),
            dest: path(&["/home/u", ".zshrc"]),
            backup: path(&["/home/u", ".dotfiles_backup", "20240102_030405", ".zshrc"]),
        }),
    );
}

#[test]
fn link_file_rejects_path_without_name() {
    let m = manager();
    let action = m.link_file(&path(&[]), &path(&["/home/u"]));
    assert_eq!(action, Err(DotError::InvalidInput));
}

#[test]
fn process_directory_mirrors_every_entry() {
    let m = manager();
    let tree = snapshot(vec![
        entry(&["colors"], true),
        entry(&["colors", "theme.lua"], false),
        entry(&["init.lua"], false),
    ]);
    let src = path(&["/home/u", "dotfiles", "nvim"]);
    let tgt = path(&["/home/u", ".config", "nvim"]);
    let acts = m.process_directory(&src, &tgt, &tree).unwrap();
    assert_eq!(acts.len(), 3);
    assert_eq!(acts[0], Action::EnsureDir { path: path(&["/home/u", ".config", "nvim", "colors"]) });
    assert_eq!(
        acts[1],
        Action::LinkFile {
            source: path(&["/home/u", "dotfiles", "nvim", "colors", "theme.lua"]),
            dest: path(&["/home/u", ".config", "nvim", "colors", "theme.lua"]),
            backup: path(&["/home/u", ".dotfiles_backup", "20240102_030405", "theme.lua"]),
        },
    );
    assert_eq!(
        acts[2],
        Action::LinkFile {
            source: path(&["/home/u", "dotfiles", "nvim", "init.lua"]),
            dest: path(&["/home/u", ".config", "nvim", "init.lua"]),
            backup: path(&["/home/u", ".dotfiles_backup", "20240102_030405", "init.lua"]),
        },
    );
}

#[test]
fn process_directory_rejects_nameless_entry() {
    let m = manager();
    let tree = snapshot(vec![entry(&[], false)]);
    let r = m.process_directory(&path(&["/home/u", "dotfiles", "x"]), &path(&["/home/u"]), &tree);
    assert_eq!(r, Err(DotError::InvalidInput));
}

#[test]
fn process_topic_installs_nvim_file() {
    let m = manager();
    let tree = snapshot(vec![entry(&["init.lua"], false)]);
    let topic_path = path(&["/home/u", "dotfiles", "nvim"]);
    let acts = m.process_topic("nvim", &topic_path, &tree).unwrap();
    assert_eq!(acts.len(), 2);
    assert_eq!(acts[0], Action::EnsureDir { path: path(&["/home/u", ".config", "nvim"]) });
    assert_eq!(
        acts[1],
        Action::LinkFile {
            source: path(&["/home/u", "dotfiles", "nvim", "init.lua"]),
            dest: path(&["/home/u", ".config", "nvim", "init.lua"]),
            backup: path(&["/home/u", ".dotfiles_backup", "20240102_030405", "init.lua"]),
        },
    );
}

#[test]
fn install_maps_zshrc_to_dotted_target() {
    let m = manager();
    let mappings = vec![MappingEntry {
        mapping: FileMapping { source: "zshrc".to_string(), target: ".zshrc".to_string() },
        tree: None,
    }];
    let acts = m.install(&mappings).unwrap();
    assert_eq!(acts.len(), 2);
    assert_eq!(
        acts[0],
        Action::EnsureDir { path: path(&["/home/u", ".dotfiles_backup", "20240102_030405"]) },
    );
    assert_eq!(
        acts[1],
        Action::LinkFile {
            source: path(&["/home/u", "dotfiles", "zshrc"]),
            dest: path(&["/home/u", ".zshrc"]),
            backup: path(&["/home/u", ".dotfiles_backup", "20240102_030405", ".zshrc"]),
        },
    );
}

#[test]
fn install_mirrors_directory_mapping() {
    let m = manager();
    let mappings = vec![MappingEntry {
        mapping: FileMapping { source: "nvim".to_string(), target: ".config/nvim".to_string() },
        tree: Some(snapshot(vec![entry(&["init.lua"], false)])),
    }];
    let acts = m.install(&mappings).unwrap();
    assert_eq!(acts.len(), 3);
    assert_eq!(
        acts[0],
        Action::EnsureDir { path: path(&["/home/u", ".dotfiles_backup", "20240102_030405"]) },
    );
    assert_eq!(acts[1], Action::EnsureDir { path: path(&["/home/u", ".config/nvim"]) });
    assert_eq!(
        acts[2],
        Action::LinkFile {
            source: path(&["/home/u", "dotfiles", "nvim", "init.lua"]),
            dest: path(&["/home/u", ".config/nvim", "init.lua"]),
            backup: path(&["/home/u", ".dotfiles_backup", "20240102_030405", "init.lua"]),
        },
    );
}

#[test]
fn process_topic_falls_back_to_home() {
    let m = manager();
    let tree = snapshot(vec![entry(&[".zshrc"], false)]);
    let topic_path = path(&["/home/u", "dotfiles", "zsh"]);
    let acts = m.process_topic("zsh", &topic_path, &tree).unwrap();
    assert_eq!(acts[0], Action::EnsureDir { path: path(&["/home/u"]) });
    assert_eq!(
        acts[1],
        Action::LinkFile {
            source: path(&["/home/u", "dotfiles", "zsh", ".zshrc"]),
            dest: path(&["/home/u", ".zshrc"]),
            backup: path(&["/home/u", ".dotfiles_backup", "20240102_030405", ".zshrc"]),
        },
    );
}

#[test]
fn install_keeps_mapping_order() {
    let m = manager();
    let mappings = vec![
        MappingEntry {
            mapping: FileMapping { source: "zshrc".to_string(), target: ".zshrc".to_string() },
            tree: None,
        },
        MappingEntry {
            mapping: FileMapping { source: "gitconfig".to_string(), target: ".gitconfig".to_string() },
            tree: None,
        },
    ];
    let acts = m.install(&mappings).unwrap();
    assert_eq!(acts.len(), 3);
    match (&acts[1], &acts[2]) {
        (Action::LinkFile { dest: d1, .. }, Action::LinkFile { dest: d2, .. }) => {
            assert_eq!(*d1, path(&["/home/u", ".zshrc"]));
            assert_eq!(*d2, path(&["/home/u", ".gitconfig"]));
        },
        _ => panic!("expected two link actions"),
    }
}

#[test]
fn install_rejects_empty_mapping_names() {
    let m = manager();
    let mappings = vec![MappingEntry {
        mapping: FileMapping { source: String::new(), target: ".zshrc".to_string() },
        tree: None,
    }];
    assert_eq!(m.install(&mappings), Err(DotError::InvalidInput));
    let mappings = vec![MappingEntry {
        mapping: FileMapping { source: "zshrc".to_string(), target: String::new() },
        tree: None,
    }];
    assert_eq!(m.install(&mappings), Err(DotError::InvalidInput));
}

#[test]
fn install_topics_skips_version_control_dir() {
    let m = manager();
    let topics = vec![
        TopicDir {
            name: ".git".to_string(),
            tree: snapshot(vec![entry(&["HEAD"], false), entry(&["objects"], true)]),
        },
        TopicDir {
            name: "zsh".to_string(),
            tree: snapshot(vec![entry(&[".zshrc"], false)]),
        },
    ];
    let acts = m.install_topics(&topics).unwrap();
    assert_eq!(acts.len(), 3);
    assert_eq!(
        acts[0],
        Action::EnsureDir { path: path(&["/home/u", ".dotfiles_backup", "20240102_030405"]) },
    );
    assert_eq!(acts[1], Action::EnsureDir { path: path(&["/home/u"]) });
    assert_eq!(
        acts[2],
        Action::LinkFile {
            source: path(&["/home/u", "dotfiles", "zsh", ".zshrc"]),
            dest: path(&["/home/u", ".zshrc"]),
            backup: path(&["/home/u", ".dotfiles_backup", "20240102_030405", ".zshrc"]),
        },
    );
}

#[test]
fn install_topics_resolves_known_topic_root() {
    let m = manager();
    let topics = vec![TopicDir {
        name: "nvim".to_string(),
        tree: snapshot(vec![entry(&["init.lua"], false)]),
    }];
    let acts = m.install_topics(&topics).unwrap();
    assert_eq!(acts.len(), 3);
    assert_eq!(acts[1], Action::EnsureDir { path: path(&["/home/u", ".config", "nvim"]) });
}

#[test]
fn reinstall_plans_same_links_fresh_backups() {
    let first = DotfileManager::new_with("/home/u", 2024, 1, 2, 3, 4, 5, false);
    let second = DotfileManager::new_with("/home/u", 2024, 1, 2, 3, 4, 6, false);
    let tree = snapshot(vec![entry(&["init.lua"], false)]);
    let topic_path = path(&["/home/u", "dotfiles", "nvim"]);
    let acts1 = first.process_topic("nvim", &topic_path, &tree).unwrap();
    let acts2 = second.process_topic("nvim", &topic_path, &tree).unwrap();
    assert_eq!(acts1.len(), acts2.len());
    match (&acts1[1], &acts2[1]) {
        (
            Action::LinkFile { source: s1, dest: d1, backup: b1 },
            Action::LinkFile { source: s2, dest: d2, backup: b2 },
        ) => {
            assert_eq!(s1, s2);
            assert_eq!(d1, d2);
            assert_ne!(b1, b2);
        },
        _ => panic!("expected link actions"),
    }
}

#[test]
fn list_configs_resolves_every_pair() {
    let m = manager();
    let mappings = vec![
        FileMapping { source: "zshrc".to_string(), target: ".zshrc".to_string() },
        FileMapping { source: "nvim".to_string(), target: ".config/nvim".to_string() },
    ];
    let pairs = m.list_configs(&mappings);
    assert_eq!(pairs.len(), 2);
    assert_eq!(pairs[0].0, path(&["/home/u", "dotfiles", "zshrc"]));
    assert_eq!(pairs[0].1, path(&["/home/u", ".zshrc"]));
    assert_eq!(pairs[1].0, path(&["/home/u", "dotfiles", "nvim"]));
    assert_eq!(pairs[1].1, path(&["/home/u", ".config/nvim"]));
}

#[test]
fn check_secrets_notices_missing_file() {
    let m = manager();
    let notice = m.check_secrets(false);
    assert_eq!(notice.as_deref(), Some("No .secrets file found in home directory"));
    assert_eq!(m.check_secrets(true), None);
}

#[test]
fn secrets_path_is_under_home() {
    let m = manager();
    assert_eq!(m.secrets_path(), path(&["/home/u", ".secrets"]));
}

#[test]
fn check_status_reports_all_good() {
    let m = manager();
    assert!(m.check_status(&vec![true, true, true]));
    assert!(m.check_status(&vec![]));
    assert!(!m.check_status(&vec![true, false, true]));
}

#[test]
fn add_config_names_copy_destination() {
    let m = manager();
    let file = path(&["/tmp", "gitconfig"]);
    let (topic_dir, dest) = m.add_config("git", &file, true).unwrap();
    assert_eq!(topic_dir, path(&["/home/u", "dotfiles", "git"]));
    assert_eq!(dest, path(&["/home/u", "dotfiles", "git", "gitconfig"]));
}

#[test]
fn add_config_rejects_missing_file() {
    let m = manager();
    let file = path(&["/tmp", "gitconfig"]);
    assert_eq!(m.add_config("git", &file, false), Err(DotError::InvalidInput));
}

#[test]
fn add_config_rejects_nameless_path() {
    let m = manager();
    assert_eq!(m.add_config("git", &path(&[]), true), Err(DotError::InvalidInput));
}

#[test]
fn paths_join_and_name() {
    let p = path(&["/home/u"]).join(".config").join("nvim");
    assert_eq!(p, path(&["/home/u", ".config", "nvim"]));
    assert_eq!(p.file_name().map(|s| s.as_str()), Some("nvim"));
    assert_eq!(p.len(), 3);
    assert_eq!(path(&[]).file_name(), None);
}

#[test]
fn paths_extend_appends_relative_path() {
    let rel: Vec<String> = vec!["colors".to_string(), "theme.lua".to_string()];
    let p = path(&["/home/u", ".config", "nvim"]).extend(&rel);
    assert_eq!(p, path(&["/home/u", ".config", "nvim", "colors", "theme.lua"]));
}
