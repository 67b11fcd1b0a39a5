use std::path::Path;
use zed_discord_rpc::git::{branch_from_head, gitdir_heads};
use zed_discord_rpc::path::{join_path, path_file_name};
use zed_discord_rpc::text::{chars_of, parse_unsigned_max, trim_ws};

fn std_join(a: &str, b: &str) -> String {
    Path::new(a).join(b).to_str().unwrap().to_string()
}

fn std_file_name(p: &str) -> Option<String> {
    Path::new(p).file_name().map(|n| n.to_string_lossy().to_string())
}

#[test]
fn join_path_agrees_with_std() {
    let cases = [
        ("/home/u", "zed-discord-rpc"),
        ("/home/u/", "workspace.json"),
        ("", "HEAD"),
        ("/tmp", "zed/logs/Zed.log"),
        ("rel", "/abs"),
        ("a", ""),
    ];
    for (a, b) in cases {
        assert_eq!(join_path(a, b), std_join(a, b), "join of {:?} and {:?}", a, b);
    }
}

#[test]
fn join_path_exact_values() {
    assert_eq!(join_path("/home/u/.local/state", "zed-discord-rpc"), "/home/u/.local/state/zed-discord-rpc");
    assert_eq!(join_path("/x/", "y"), "/x/y");
    assert_eq!(join_path("/x", "/y"), "/y");
}

#[test]
fn file_name_agrees_with_std() {
    let cases = [
        "/home/u/proj", "/home/u/proj/", "/", ".", "..", "a/..", "a/.", "", "./a", "foo",
        "/a//b//", "a/./.", "//",
    ];
    for p in cases {
        assert_eq!(path_file_name(p), std_file_name(p), "file name of {:?}", p);
    }
}

#[test]
fn file_name_exact_values() {
    assert_eq!(path_file_name("/home/u/my-project"), Some("my-project".to_string()));
    assert_eq!(path_file_name("/"), None);
    assert_eq!(path_file_name("x/.."), None);
}

#[test]
fn branch_of_checked_out_branch() {
    assert_eq!(branch_from_head("ref: refs/heads/main\n"), "main");
    assert_eq!(branch_from_head("  ref: refs/heads/feature/x  "), "feature/x");
}

#[test]
fn branch_of_detached_head_is_short_hash() {
    assert_eq!(branch_from_head("0123456789abcdef0123456789abcdef01234567\n"), "0123456");
    assert_eq!(branch_from_head("abc"), "abc");
    assert_eq!(branch_from_head("abcdefg"), "abcdefg");
}

#[test]
fn branch_of_head_when_seven_bytes_split_a_character() {
    // six ASCII bytes then a two-byte character: byte 7 falls inside it
    assert_eq!(branch_from_head("aaaaaaé-rest"), "aaaaaaé-rest");
    // seven bytes end exactly after the two-byte character
    assert_eq!(branch_from_head("aaaaaéb"), "aaaaaé");
}

#[test]
fn gitdir_lines_point_to_head_files() {
    let heads = gitdir_heads("gitdir: /repo/.git/worktrees/x\nother\ngitdir:  /b/ \n");
    assert_eq!(heads, vec!["/repo/.git/worktrees/x/HEAD".to_string(), "/b/HEAD".to_string()]);
    assert!(gitdir_heads("nothing here").is_empty());
}

#[test]
fn parse_matches_std_parse() {
    for s in ["0", "42", "+7", "", "+", "-1", "18446744073709551615", "18446744073709551616", "1a", " 1"] {
        let ours = parse_unsigned_max(&chars_of(s), u64::MAX);
        assert_eq!(ours, s.parse::<u64>().ok(), "parse of {:?}", s);
    }
    for s in ["4294967295", "4294967296"] {
        let ours = parse_unsigned_max(&chars_of(s), u32::MAX as u64);
        assert_eq!(ours.map(|x| x as u32), s.parse::<u32>().ok());
    }
}

#[test]
fn trim_matches_std_trim() {
    for s in ["  a b  ", "\u{3000}x\u{a0}", "", "   ", "\tz\n"] {
        let t: String = trim_ws(&chars_of(s)).into_iter().collect();
        assert_eq!(t, s.trim());
    }
}
