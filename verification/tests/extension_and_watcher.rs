use zed_discord_rpc::extension::{
    command_label, detect_git_branch, detect_language, run_slash_command, worktree_record, WorktreeProbe,
};
use zed_discord_rpc::places::{extension_state_dir_from, state_file_from, zed_log_in};
use zed_discord_rpc::watcher::{
    detect_git_branch as watcher_branch, detect_language as watcher_language, extract_workspace_from_log,
    log_is_readable, workspace_record, Watcher,
};

fn names(v: &[&str]) -> Vec<String> {
    v.iter().map(|s| s.to_string()).collect()
}

#[test]
fn extension_languages() {
    let table = [
        ("Cargo.toml", "Rust"),
        ("setup.py", "Python"),
        ("build.gradle.kts", "Java"),
        ("meson.build", "C/C++"),
        ("composer.json", "PHP"),
        ("Package.swift", "Swift"),
        ("pubspec.yaml", "Dart"),
        ("mix.exs", "Elixir"),
        ("README.md", "Unknown"),
    ];
    for (file, lang) in table {
        assert_eq!(detect_language(&names(&[file])), lang, "{}", file);
    }
}

#[test]
fn watcher_languages() {
    let table = [
        ("Cargo.toml", "Rust"),
        ("Cargo.lock", "Rust"),
        ("package.json", "TypeScript"),
        ("go.mod", "Go"),
        ("pyproject.toml", "Python"),
        ("build.gradle", "Java"),
        ("Makefile", "C/C++"),
        ("Gemfile", "Ruby"),
        ("composer.json", "Unknown"),
    ];
    for (file, lang) in table {
        assert_eq!(watcher_language(&names(&[file])), lang, "{}", file);
    }
    assert_eq!(watcher_language(&names(&["Cargo.lock", "Gemfile"])), "Ruby");
}

#[test]
fn branches_in_extension_and_watcher() {
    assert_eq!(detect_git_branch(Some("ref: refs/heads/main".to_string())), Some("main".to_string()));
    assert_eq!(detect_git_branch(None), None);
    assert_eq!(watcher_branch(true, Some("abcdef1234".to_string())), Some("abcdef1".to_string()));
    assert_eq!(watcher_branch(false, Some("ref: refs/heads/main".to_string())), None);
    assert_eq!(watcher_branch(true, None), None);
}

#[test]
fn update_command_reply() {
    let probe = WorktreeProbe {
        root: "/home/u/proj".to_string(),
        language: "Rust".to_string(),
        git_branch: Some("main".to_string()),
    };
    let plan = run_slash_command("zed-rpc-update", Some(probe)).ok().unwrap();
    assert_eq!(plan.record.workspace_name, "proj");
    assert_eq!(plan.record.workspace_path, "/home/u/proj");
    assert_eq!(plan.record.file_name, None);
    assert_eq!(plan.reply.label, "proj | Rust | main");
    assert_eq!(plan.reply.text, "Discord RPC updated: proj | Rust | main");
    assert_eq!(plan.reply.range_start, 0);
    assert_eq!(plan.reply.range_end, "proj | Rust | main".len() as u32);
}

#[test]
fn update_command_without_worktree() {
    let plan = run_slash_command("zed-rpc-update", None).ok().unwrap();
    assert_eq!(plan.reply.label, "No workspace | Unknown");
    assert_eq!(plan.record.workspace_path, "");
    assert_eq!(plan.record.language, "Unknown");
}

#[test]
fn reply_range_counts_bytes() {
    let r = worktree_record(Some(WorktreeProbe {
        root: "/p/café".to_string(),
        language: "Go".to_string(),
        git_branch: None,
    }));
    assert_eq!(command_label(&r), "café | Go");
    let plan = run_slash_command("zed-rpc-update", Some(WorktreeProbe {
        root: "/p/café".to_string(),
        language: "Go".to_string(),
        git_branch: None,
    }))
    .ok()
    .unwrap();
    assert_eq!(plan.reply.range_end, 10);
}

#[test]
fn unknown_command_is_an_error() {
    match run_slash_command("other", None) {
        Err(e) => assert_eq!(e, "Unknown command: other"),
        Ok(_) => panic!("expected an error"),
    }
}

#[test]
fn extension_and_watcher_places() {
    assert_eq!(extension_state_dir_from(Some("/s".to_string())), Ok("/s/zed-discord-rpc".to_string()));
    assert_eq!(extension_state_dir_from(None), Err("Cannot determine state directory".to_string()));
    assert_eq!(state_file_from(Some("/s".to_string())), Some("/s/zed-discord-rpc/workspace.json".to_string()));
    assert_eq!(state_file_from(None), None);
    assert_eq!(zed_log_in(Some("/d".to_string())), Some("/d/zed/logs/Zed.log".to_string()));
}

#[test]
fn last_opened_folder_wins() {
    let log = "x\nINFO Opened folders: [\"/home/u/a\", \"/home/u/b\"]\nINFO Opened folders: [\"/home/u/c\"]\nlater line\n";
    assert!(log_is_readable(log));
    assert_eq!(extract_workspace_from_log(log), Some("/home/u/c".to_string()));
}

#[test]
fn opened_folders_are_cleaned() {
    assert_eq!(extract_workspace_from_log("Opened folders: [ \\\"/a/b\\\" , x]"), Some("\"/a/b".to_string()));
    assert_eq!(extract_workspace_from_log("Opened folders: [ \"\\/a/b\\\" ]"), Some("/a/b".to_string()));
    assert_eq!(extract_workspace_from_log("Opened folders: [~]"), None);
    assert_eq!(extract_workspace_from_log("Opened folders: []"), None);
}

#[test]
fn workspace_open_line_gives_quoted_path() {
    let log = "opening workspace at \"/srv/site\" now\nsomething else";
    assert_eq!(extract_workspace_from_log(log), Some("/srv/site".to_string()));
    assert_eq!(extract_workspace_from_log("workspace open \"relative\""), None);
    assert_eq!(extract_workspace_from_log(""), None);
}

#[test]
fn backwards_brackets_are_not_readable() {
    assert!(!log_is_readable("Opened folders: ] ["));
    assert!(log_is_readable("Opened folders: ] [\nOpened folders: [\"/ok\"]"));
}

#[test]
fn watcher_records_only_changes() {
    let mut w = Watcher::new();
    assert_eq!(w.on_log(Some("/a".to_string())), Some("/a".to_string()));
    assert_eq!(w.on_log(Some("/a".to_string())), None);
    assert_eq!(w.on_log(None), None);
    assert_eq!(w.on_log(Some("/b".to_string())), Some("/b".to_string()));
    assert_eq!(w.current, Some("/b".to_string()));
}

#[test]
fn watcher_record_names() {
    let r = workspace_record("/home/u/proj", "Rust".to_string(), None);
    assert_eq!(r.workspace_name, "proj");
    assert_eq!(r.file_name, None);
    assert_eq!(workspace_record("/", "Rust".to_string(), None).workspace_name, "Unknown");
}

#[test]
fn earlier_lines_never_override_a_later_match() {
    let a = "Opened folders: [\"/p/q\"]";
    assert_eq!(extract_workspace_from_log(a), Some("/p/q".to_string()));
    let b = "workspace open \"/other\"\nOpened folders: [\"/x\"]\nOpened folders: ] [";
    let joined = format!("{}\n{}", b, a);
    assert!(log_is_readable(&joined));
    assert_eq!(extract_workspace_from_log(&joined), Some("/p/q".to_string()));
}

#[test]
fn quiet_lines_after_change_nothing() {
    let a = "workspace open \"/w/one\"\nOpened folders: [\"/p/q\"]\r";
    let c = "INFO nothing here\nworkspace loaded\n";
    let joined = format!("{}\n{}", a, c);
    assert!(log_is_readable(&joined));
    assert_eq!(extract_workspace_from_log(&joined), extract_workspace_from_log(a));
    assert_eq!(extract_workspace_from_log(&joined), Some("/p/q".to_string()));
}

#[test]
fn watcher_and_extension_agree_on_branches() {
    for head in ["ref: refs/heads/main\n", "0123456789abcdef", "  ref: refs/heads/dev  "] {
        assert_eq!(watcher_branch(true, Some(head.to_string())), detect_git_branch(Some(head.to_string())));
    }
    assert_eq!(watcher_branch(true, None), detect_git_branch(None));
    assert_eq!(watcher_branch(false, None), detect_git_branch(None));
}
