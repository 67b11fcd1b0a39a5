use zed_discord_rpc::daemon::{activity_start, activity_text, detect_branch, detect_lang, now, seconds_or_zero, zed_comm, zed_pids, ProcEntry};
use zed_discord_rpc::language::marker_files;
use zed_discord_rpc::logscan::PathFacts;
use zed_discord_rpc::monitor::{Daemon, Phase};
use zed_discord_rpc::places::{all_workspaces_file, daemon_state_dir_from, state_file, zed_log, zed_log_from};
use zed_discord_rpc::workspace::{ensure_workspace_info, KnownWorkspaces, WorkspaceInfo};

fn names(v: &[&str]) -> Vec<String> {
    v.iter().map(|s| s.to_string()).collect()
}

fn info(path: &str, lang: &str, branch: Option<&str>) -> WorkspaceInfo {
    WorkspaceInfo {
        workspace_name: path.rsplit('/').next().unwrap().to_string(),
        workspace_path: path.to_string(),
        language: lang.to_string(),
        git_branch: branch.map(|b| b.to_string()),
    }
}

#[test]
fn daemon_languages_follow_the_readme_table() {
    let table = [
        ("Cargo.toml", "Rust"),
        ("Cargo.lock", "Rust"),
        ("package.json", "TypeScript"),
        ("requirements.txt", "Python"),
        ("pyproject.toml", "Python"),
        ("go.mod", "Go"),
        ("pom.xml", "Java"),
        ("build.gradle", "Java"),
        ("CMakeLists.txt", "C/C++"),
        ("Makefile", "C/C++"),
        ("Gemfile", "Ruby"),
        ("composer.json", "PHP"),
        ("Package.swift", "Swift"),
        ("pubspec.yaml", "Dart"),
        ("mix.exs", "Unknown"),
    ];
    for (file, lang) in table {
        assert_eq!(detect_lang(&names(&[file])), lang, "{}", file);
    }
    assert_eq!(detect_lang(&names(&[])), "Unknown");
    assert_eq!(detect_lang(&names(&["Gemfile", "package.json"])), "TypeScript");
}

#[test]
fn marker_files_cover_every_rule() {
    let m = marker_files();
    assert_eq!(m.len(), 18);
    assert!(m.contains(&"pubspec.yaml".to_string()));
}

#[test]
fn branch_from_head_or_linked_worktree() {
    assert_eq!(detect_branch(Some("ref: refs/heads/dev\n".to_string()), &vec![]), Some("dev".to_string()));
    let linked = vec![None, Some("ref: refs/heads/wt\n".to_string()), Some("ref: refs/heads/other".to_string())];
    assert_eq!(detect_branch(None, &linked), Some("wt".to_string()));
    assert_eq!(detect_branch(None, &vec![None]), None);
}

#[test]
fn editor_processes() {
    assert!(zed_comm("zed\n"));
    assert!(zed_comm("zed-editor"));
    assert!(!zed_comm("zedx"));
    let entries = vec![
        ProcEntry { name: Some("12".to_string()), comm: Some("zed\n".to_string()) },
        ProcEntry { name: Some("13".to_string()), comm: Some("bash\n".to_string()) },
        ProcEntry { name: Some("self".to_string()), comm: Some("Zed\n".to_string()) },
        ProcEntry { name: None, comm: Some("zed".to_string()) },
        ProcEntry { name: Some("40".to_string()), comm: None },
        ProcEntry { name: Some("41".to_string()), comm: Some("zed-editor".to_string()) },
    ];
    assert_eq!(zed_pids(&entries), vec![12, 41]);
}

#[test]
fn presence_text() {
    let a = activity_text(&info("/p/proj", "Rust", Some("main")));
    assert_eq!(a.details, "Working on proj");
    assert_eq!(a.state, "Rust | main");
    assert_eq!(a.large_text, "proj");
    assert_eq!(a.small_text, "Rust");
    let b = activity_text(&info("/p/proj", "Unknown", None));
    assert_eq!(b.state, "Zed");
    assert_eq!(b.small_text, "Zed");
    let c = activity_text(&info("/p/proj", "Unknown", Some("dev")));
    assert_eq!(c.state, "dev");
    let d = activity_text(&info("/p/proj", "Go", None));
    assert_eq!(d.state, "Go");
}

#[test]
fn presence_matches_readme_preview() {
    let a = activity_text(&info("/home/u/my-project", "Rust", Some("main")));
    assert_eq!(a.large_text, "my-project");
    assert_eq!(a.state, "Rust | main");
    assert_eq!(a.details, "Working on my-project");
}

#[test]
fn clock_reads_seconds_since_epoch() {
    assert!(now() > 1_600_000_000);
}

#[test]
fn state_places() {
    assert_eq!(daemon_state_dir_from(None), "/tmp/zed-discord-rpc");
    assert_eq!(daemon_state_dir_from(Some("/home/u/.local/state".to_string())), "/home/u/.local/state/zed-discord-rpc");
    assert!(state_file().ends_with("zed-discord-rpc/workspace.json"));
    assert!(all_workspaces_file().ends_with("zed-discord-rpc/workspaces.json"));
    assert!(zed_log().ends_with("zed/logs/Zed.log"));
    assert_eq!(zed_log_from(Some("/d".to_string())), "/d/zed/logs/Zed.log");
}

#[test]
fn daemon_files_share_their_directory() {
    let a = state_file();
    let b = all_workspaces_file();
    let (da, na) = a.rsplit_once('/').unwrap();
    let (db, nb) = b.rsplit_once('/').unwrap();
    assert_eq!(da, db);
    assert_eq!(na, "workspace.json");
    assert_eq!(nb, "workspaces.json");
}

#[test]
fn ensure_returns_known_or_fresh_record() {
    let mut known = KnownWorkspaces::new();
    let a = ensure_workspace_info("/p/a", &mut known, "Rust".to_string(), None);
    assert_eq!(a.workspace_name, "a");
    assert_eq!(a.language, "Rust");
    assert_eq!(known.len(), 1);
    let again = ensure_workspace_info("/p/a", &mut known, "Go".to_string(), Some("x".to_string()));
    assert_eq!(again.language, "Rust");
    assert_eq!(known.len(), 1);
    let root = ensure_workspace_info("/", &mut known, "Go".to_string(), None);
    assert_eq!(root.workspace_name, "Untitled");
}

#[test]
fn saved_map_keeps_each_record_under_its_key() {
    let good = vec![("/p/a".to_string(), info("/p/a", "Rust", None))];
    assert_eq!(KnownWorkspaces::from_saved(&good).len(), 1);
    let odd = vec![
        ("/p/b".to_string(), info("/p/a", "Rust", None)),
        ("/p/c".to_string(), info("/p/c", "Go", None)),
        ("/p/c".to_string(), info("/p/c", "Ruby", None)),
    ];
    let known = KnownWorkspaces::from_saved(&odd);
    assert_eq!(known.len(), 2);
    assert_eq!(known.get(&"/p/b".to_string()).unwrap().workspace_path, "/p/a");
    assert!(known.get(&"/p/a".to_string()).is_none());
    assert_eq!(known.get(&"/p/c".to_string()).unwrap().language, "Ruby");
    let mut keys: Vec<String> = known.pairs().into_iter().map(|(k, _)| k).collect();
    keys.sort();
    assert_eq!(keys, vec!["/p/b".to_string(), "/p/c".to_string()]);
}

#[test]
fn record_saved_under_another_key() {
    let saved = vec![("w/b".to_string(), info("w/x", "Rust", None))];
    let facts = vec![PathFacts { path: "w/b".to_string(), exists: true, language: "Go".to_string(), git_branch: None }];
    let log = "working directory: \"/w/b\"\n";
    let mut d = Daemon::new(KnownWorkspaces::from_saved(&saved));
    d.poll(true);
    let shown = d.on_started(Some(log), &facts).unwrap();
    assert_eq!(shown.workspace_path, "w/x");
    assert_eq!(d.session.len(), 1);
    let mut e = Daemon::new(KnownWorkspaces::from_saved(&saved));
    e.poll(true);
    assert!(!e.chunk_settles_at(log, &facts, &vec![5]));
    assert!(e.on_log_chunk(log, &facts).is_none());
    assert!(e.session.is_empty());
    assert_eq!(e.known.len(), 1);
}

#[test]
fn poll_phases() {
    let mut d = Daemon::new(KnownWorkspaces::new());
    assert!(matches!(d.poll(false), Phase::Idle));
    assert!(matches!(d.poll(true), Phase::Started));
    assert!(matches!(d.poll(true), Phase::Running));
    assert!(matches!(d.poll(false), Phase::Closed));
    assert!(d.session.is_empty());
    assert!(d.last_sent_path.is_none());
}

#[test]
fn start_shows_most_recent_workspace_of_the_log() {
    let mut d = Daemon::new(KnownWorkspaces::new());
    d.poll(true);
    let log = "2024-01-15T10:20:30+00:00 working directory: \"/home/u/a\"\n2024-01-15T09:00:00+00:00 working directory: \"/home/u/b\"\n";
    let facts = vec![
        PathFacts { path: "home/u/a".to_string(), exists: true, language: "Rust".to_string(), git_branch: None },
        PathFacts { path: "home/u/b".to_string(), exists: true, language: "Go".to_string(), git_branch: None },
    ];
    let shown = d.on_started(Some(log), &facts).unwrap();
    assert_eq!(shown.workspace_path, "home/u/a");
    assert_eq!(d.last_sent_path, Some("home/u/a".to_string()));
    let mut e = Daemon::new(KnownWorkspaces::new());
    e.poll(true);
    assert!(e.on_started(None, &facts).is_none());
}

#[test]
fn state_file_shows_a_workspace_once() {
    let mut d = Daemon::new(KnownWorkspaces::new());
    d.poll(true);
    let x = info("/p/x", "Rust", None);
    let sent = d.on_state_file("one".to_string(), Some(x.duplicate()), 10);
    assert_eq!(sent.unwrap().workspace_path, "/p/x");
    assert!(d.on_state_file("one".to_string(), Some(x.duplicate()), 11).is_none());
    assert!(d.on_state_file("two".to_string(), Some(x.duplicate()), 12).is_none());
    assert_eq!(d.session.len(), 1);
    assert_eq!(d.session[0].last_seen, 12);
    assert!(d.on_state_file("three".to_string(), None, 13).is_none());
    assert_eq!(d.last_content, "two");
    assert_eq!(d.known.len(), 1);
}

#[test]
fn closing_a_window_drops_the_latest_workspace() {
    let mut d = Daemon::new(KnownWorkspaces::new());
    d.poll(true);
    d.on_state_file("x".to_string(), Some(info("/p/x", "Rust", None)), 10);
    d.on_state_file("y".to_string(), Some(info("/p/y", "Go", None)), 20);
    assert_eq!(d.last_sent_path, Some("/p/y".to_string()));
    let first = d.on_log_chunk_at("INFO worktree diagnostics: stores 2, x\n", &vec![], &vec![30], 30);
    assert!(first.sends.is_empty());
    assert!(first.removed.is_none());
    assert_eq!(d.prev_store_count, Some(2));
    let out = d.on_log_chunk_at("ERROR window not found\nINFO worktree diagnostics: stores 1, x\n", &vec![], &vec![40, 40], 40);
    assert_eq!(out.removed.unwrap().workspace_path, "/p/y");
    assert_eq!(out.sends.len(), 1);
    assert_eq!(out.sends[0].workspace_path, "/p/x");
    assert_eq!(out.store_drop, Some((2, 1)));
    assert!(out.switched);
    assert_eq!(d.session.len(), 1);
    assert_eq!(d.last_sent_path, Some("/p/x".to_string()));
    assert_eq!(d.prev_store_count, Some(1));
}

#[test]
fn new_log_lines_show_the_newest_workspace() {
    let mut d = Daemon::new(KnownWorkspaces::new());
    d.poll(true);
    let facts = vec![
        PathFacts { path: "w/a".to_string(), exists: true, language: "Rust".to_string(), git_branch: None },
        PathFacts { path: "w/b".to_string(), exists: true, language: "Go".to_string(), git_branch: None },
    ];
    let chunk = "working directory: \"/w/a\"\nworking directory: \"/w/b\"\n";
    let out = d.on_log_chunk_at(chunk, &facts, &vec![100, 100], 100);
    assert_eq!(out.sends.len(), 1);
    assert_eq!(out.sends[0].workspace_path, "w/b");
    assert_eq!(d.session.len(), 2);
    assert_eq!(d.session[1].last_seen, 101);
    assert_eq!(d.session[0].last_seen, 100);
    let again = d.on_log_chunk_at(chunk, &facts, &vec![200, 200], 200);
    assert!(again.sends.is_empty());
    assert_eq!(d.known.len(), 2);
}

#[test]
fn log_lines_keep_known_records() {
    let mut d = Daemon::new(KnownWorkspaces::new());
    d.poll(true);
    d.on_state_file("a".to_string(), Some(info("w/a", "Rust", Some("main"))), 5);
    let facts = vec![PathFacts { path: "w/a".to_string(), exists: true, language: "Go".to_string(), git_branch: None }];
    let out = d.on_log_chunk_at("working directory: \"/w/a\"\n", &facts, &vec![50], 50);
    assert!(out.sends.is_empty());
    let rec = d.known.get(&"w/a".to_string()).unwrap();
    assert_eq!(rec.language, "Rust");
    assert_eq!(rec.git_branch, Some("main".to_string()));
    assert_eq!(d.session.len(), 1);
    assert_eq!(d.session[0].last_seen, 51);
}

#[test]
fn newest_workspace_of_a_chunk_is_the_one_read_last_by_the_clock() {
    let mut d = Daemon::new(KnownWorkspaces::new());
    d.poll(true);
    let facts = vec![
        PathFacts { path: "w/a".to_string(), exists: true, language: "Rust".to_string(), git_branch: None },
        PathFacts { path: "w/b".to_string(), exists: true, language: "Go".to_string(), git_branch: None },
    ];
    let chunk = "working directory: \"/w/a\"\nworking directory: \"/w/b\"\n";
    let out = d.on_log_chunk_at(chunk, &facts, &vec![200, 100], 300);
    assert_eq!(out.sends.len(), 1);
    assert_eq!(out.sends[0].workspace_path, "w/a");
    assert_eq!(d.session[0].last_seen, 301);
    assert_eq!(d.session[1].last_seen, 100);
    assert_eq!(d.last_sent_path, Some("w/a".to_string()));
}

#[test]
fn chunk_read_by_the_clock() {
    let mut d = Daemon::new(KnownWorkspaces::new());
    d.poll(true);
    let facts = vec![PathFacts { path: "w/a".to_string(), exists: true, language: "Rust".to_string(), git_branch: None }];
    let out = d.on_log_chunk("noise\nworking directory: \"/w/a\"\n", &facts).unwrap();
    assert_eq!(out.sends.len(), 1);
    assert_eq!(out.sends[0].workspace_path, "w/a");
    assert!(d.session[0].last_seen > 1_600_000_000);
}

#[test]
fn clock_reading_to_seconds() {
    assert_eq!(seconds_or_zero(Some(1_700_000_000)), 1_700_000_000);
    assert_eq!(seconds_or_zero(None), 0);
}

#[test]
fn presence_start_time() {
    assert_eq!(activity_start(1_700_000_000, 60), 1_699_999_940);
    assert_eq!(activity_start(5, 10), -5);
    assert_eq!(activity_start(u64::MAX, 0), -1);
}
