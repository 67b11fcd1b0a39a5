use zed_discord_rpc::logscan::{
    extract_store_count, extract_ws_from_line, log_grew, line_is_readable, log_candidates, log_is_readable, wd_markers_readable,
    scan_full_log, timestamp_of, PathFacts,
};
use zed_discord_rpc::text::chars_of;
use zed_discord_rpc::workspace::{pick_active, KnownWorkspaces, WorkspaceInfo};

fn fact(path: &str, exists: bool, language: &str, branch: Option<&str>) -> PathFacts {
    PathFacts {
        path: path.to_string(),
        exists,
        language: language.to_string(),
        git_branch: branch.map(|b| b.to_string()),
    }
}

fn rough(y: u64, mo: u64, d: u64, h: u64, mi: u64, s: u64) -> u64 {
    let days = (y - 1970) * 365 + (y - 1970) / 4 + (mo - 1) * 30 + d - 1;
    days * 86400 + h * 3600 + mi * 60 + s
}

#[test]
fn working_directory_line_names_its_path_without_first_character() {
    let line = r#"2024-01-15T10:20:30+00:00 INFO lsp: working directory: "/home/u/proj""#;
    let facts = vec![fact("home/u/proj", true, "Rust", None)];
    assert_eq!(extract_ws_from_line(line, &facts), Some("home/u/proj".to_string()));
}

#[test]
fn workspace_must_exist() {
    let line = r#"working directory: "/home/u/proj""#;
    assert_eq!(extract_ws_from_line(line, &vec![fact("home/u/proj", false, "", None)]), None);
    assert_eq!(extract_ws_from_line(line, &vec![]), None);
}

#[test]
fn git_repository_line_names_the_repository_root() {
    let line = r#"opening git repository at "/work/proj/.git""#;
    let facts = vec![fact("work/proj", true, "Go", None)];
    assert_eq!(extract_ws_from_line(line, &facts), Some("work/proj".to_string()));
}

#[test]
fn working_directory_wins_over_repository() {
    let line = r#"working directory: "/a/x" opening git repository at "/b/y/.git""#;
    let both = vec![fact("a/x", true, "", None), fact("b/y", true, "", None)];
    assert_eq!(extract_ws_from_line(line, &both), Some("a/x".to_string()));
    let only_repo = vec![fact("a/x", false, "", None), fact("b/y", true, "", None)];
    assert_eq!(extract_ws_from_line(line, &only_repo), Some("b/y".to_string()));
}

#[test]
fn skipped_and_root_paths_are_not_workspaces() {
    let facts = vec![fact("/usr/bin/x", true, "", None), fact("/", true, "", None), fact("/tmp/q", true, "", None)];
    assert_eq!(extract_ws_from_line(r#"working directory: "//usr/bin/x""#, &facts), None);
    assert_eq!(extract_ws_from_line(r#"working directory: "//""#, &facts), None);
    assert_eq!(extract_ws_from_line(r#"opening git repository at "//tmp/q/.git""#, &facts), None);
    assert_eq!(extract_ws_from_line(r#"working directory: """#, &facts), None);
}

#[test]
fn lines_that_would_be_cut_inside_a_character_are_not_readable() {
    let none: Vec<PathFacts> = Vec::new();
    assert!(line_is_readable(r#"working directory: "/x""#, &none));
    assert!(line_is_readable("nothing to see", &none));
    assert!(!line_is_readable("working directory: \"", &none));
    assert!(!line_is_readable("working directory: \"é\"", &none));
    assert!(!line_is_readable("opening git repository at \"", &none));
    assert!(!line_is_readable("working directory: \"/x\" opening git repository at \"", &none));
    assert!(!wd_markers_readable("fine\nworking directory: \""));
    assert!(wd_markers_readable("fine\nopening git repository at \""));
}

#[test]
fn existing_working_directory_reads_past_a_broken_git_marker() {
    let facts = vec![fact("x/y", true, "Rust", None)];
    let line = "working directory: \"/x/y\" opening git repository at \"";
    assert!(line_is_readable(line, &facts));
    assert_eq!(extract_ws_from_line(line, &facts), Some("x/y".to_string()));
    let accented = "working directory: \"/x/y\" opening git repository at \"é/.git\"";
    assert!(line_is_readable(accented, &facts));
    assert_eq!(extract_ws_from_line(accented, &facts), Some("x/y".to_string()));
    let log = format!("{}\n", line);
    assert!(wd_markers_readable(&log));
    assert_eq!(log_candidates(&log), vec!["x/y".to_string()]);
    assert!(log_is_readable(&log, &facts));
    let mut known = KnownWorkspaces::new();
    let session = scan_full_log(&log, &mut known, &facts);
    assert_eq!(session.len(), 1);
    assert_eq!(session[0].info.workspace_path, "x/y");
    let missing = vec![fact("x/y", false, "Rust", None)];
    assert!(!line_is_readable(line, &missing));
}

#[test]
fn store_count_of_diagnostics_line() {
    assert_eq!(extract_store_count("INFO worktree diagnostics: stores 3, buffers 2"), Some(3));
    assert_eq!(extract_store_count("worktree diagnostics stores  12 "), Some(12));
    assert_eq!(extract_store_count("worktree diagnostics stores +7,"), Some(7));
    assert_eq!(extract_store_count("worktree diagnostics stores x,"), None);
    assert_eq!(extract_store_count("diagnostics: stores 3,"), None);
    assert_eq!(extract_store_count("worktree diagnostics without count"), None);
}

#[test]
fn timestamp_of_dated_line() {
    let line = chars_of("2024-01-15T10:20:30.123+00:00 INFO something");
    assert_eq!(timestamp_of(&line, 99), rough(2024, 1, 15, 10, 20, 30));
}

#[test]
fn timestamp_of_undated_line_is_the_counter() {
    assert_eq!(timestamp_of(&chars_of("no date here"), 99), 99);
    assert_eq!(timestamp_of(&chars_of("0-1-2T3:4:5"), 7), 7);
}

#[test]
fn timestamp_before_1970_wraps() {
    let line = chars_of("1969-01-01T00:00:00");
    let a = 1969u64.wrapping_sub(1970);
    let days = a.wrapping_mul(365).wrapping_add(a / 4).wrapping_add(0).wrapping_add(1).wrapping_sub(1);
    assert_eq!(timestamp_of(&line, 0), days.wrapping_mul(86400));
}

fn sample_log() -> String {
    [
        r#"2024-01-15T10:20:30+00:00 INFO working directory: "/home/u/a""#,
        r#"no date here, opening git repository at "/home/u/b/.git""#,
        r#"2024-01-15T10:25:00+00:00 INFO working directory: "/home/u/a""#,
        "",
    ]
    .join("\n")
}

fn sample_facts() -> Vec<PathFacts> {
    vec![fact("home/u/a", true, "Rust", Some("main")), fact("home/u/b", true, "Go", None)]
}

#[test]
fn scan_of_full_log_tracks_each_workspace_once() {
    let log = sample_log();
    assert!(log_is_readable(&log, &sample_facts()));
    let mut known = KnownWorkspaces::new();
    let session = scan_full_log(&log, &mut known, &sample_facts());
    assert_eq!(session.len(), 2);
    assert_eq!(session[0].info.workspace_path, "home/u/a");
    assert_eq!(session[0].info.workspace_name, "a");
    assert_eq!(session[0].info.language, "Rust");
    assert_eq!(session[0].info.git_branch, Some("main".to_string()));
    assert_eq!(session[0].last_seen, rough(2024, 1, 15, 10, 25, 0));
    assert_eq!(session[1].info.workspace_path, "home/u/b");
    assert_eq!(session[1].last_seen, rough(2024, 1, 15, 10, 20, 30) + 1);
    assert_eq!(known.len(), 2);
    let active = pick_active(&session).unwrap();
    assert_eq!(active.info.workspace_path, "home/u/a");
}

#[test]
fn scan_keeps_what_was_already_known() {
    let mut known = KnownWorkspaces::new();
    known.insert(WorkspaceInfo {
        workspace_name: "a".to_string(),
        workspace_path: "home/u/a".to_string(),
        language: "Python".to_string(),
        git_branch: None,
    });
    let session = scan_full_log(&sample_log(), &mut known, &sample_facts());
    assert_eq!(session[0].info.language, "Python");
    assert_eq!(known.get(&"home/u/a".to_string()).unwrap().language, "Python");
    assert_eq!(known.get(&"home/u/b".to_string()).unwrap().language, "Go");
}

#[test]
fn candidates_of_a_log() {
    let c = log_candidates(&sample_log());
    assert_eq!(c, vec!["home/u/a".to_string(), "home/u/b".to_string(), "home/u/a".to_string()]);
}

#[test]
fn pick_active_prefers_the_last_of_equals() {
    let mut known = KnownWorkspaces::new();
    let log = "working directory: \"/p/x\"\nworking directory: \"/p/y\"\n";
    let facts = vec![fact("p/x", true, "", None), fact("p/y", true, "", None)];
    let mut session = scan_full_log(log, &mut known, &facts);
    session[0].last_seen = 5;
    session[1].last_seen = 5;
    assert_eq!(pick_active(&session).unwrap().info.workspace_path, "p/y");
    assert!(pick_active(&[]).is_none());
}

#[test]
fn log_is_read_only_when_it_grew() {
    assert!(log_grew(11, 10));
    assert!(!log_grew(10, 10));
    assert!(!log_grew(3, 10));
}
