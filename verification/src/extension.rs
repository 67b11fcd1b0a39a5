//! The editor extension's `/zed-rpc-update` slash command: it records the
//! workspace of the current worktree for the daemon and answers with a
//! one-line summary.
use vstd::prelude::*;
use crate::git::{branch_from_head, head_branch};
use crate::language::{has_file, is_present};
use crate::path::path_file_name;
use vstd::utf8::encode_utf8;
use crate::workspace::{copy_opt_string, display_name};

verus! {

/// The workspace record the extension and the watcher write to the state
/// file.
pub struct WorkspaceRecord {
    pub workspace_name: String,
    pub workspace_path: String,
    pub language: String,
    pub git_branch: Option<String>,
    pub file_name: Option<String>,
}

/// The language the extension names for a workspace holding the files
/// `present`, by the first rule that applies.
pub open spec fn extension_language(present: Seq<String>) -> Seq<char> {
    if has_file(present, "Cargo.toml"@) || has_file(present, "Cargo.lock"@) {
        "Rust"@
    } else if has_file(present, "package.json"@) {
        "TypeScript"@
    } else if has_file(present, "go.mod"@) {
        "Go"@
    } else if has_file(present, "requirements.txt"@) || has_file(present, "pyproject.toml"@)
        || has_file(present, "setup.py"@) {
        "Python"@
    } else if has_file(present, "pom.xml"@) || has_file(present, "build.gradle"@) || has_file(
        present,
        "build.gradle.kts"@,
    ) {
        "Java"@
    } else if has_file(present, "CMakeLists.txt"@) || has_file(present, "Makefile"@) || has_file(
        present,
        "meson.build"@,
    ) {
        "C/C++"@
    } else if has_file(present, "Gemfile"@) {
        "Ruby"@
    } else if has_file(present, "composer.json"@) {
        "PHP"@
    } else if has_file(present, "Package.swift"@) {
        "Swift"@
    } else if has_file(present, "build.gradle.kts"@) {
        "Kotlin"@
    } else if has_file(present, "pubspec.yaml"@) {
        "Dart"@
    } else if has_file(present, "mix.exs"@) {
        "Elixir"@
    } else if has_file(present, "Cargo.toml"@) {
        "Rust"@
    } else {
        "Unknown"@
    }
}

/// The extension's language table: a workspace holding a marker file of a language, and none of the marker files of the languages checked before it (Rust first, whatever else the workspace holds), is named that language; one holding no marker file is `Unknown`.
pub proof fn lemma_extension_language_table(present: Seq<String>)
    ensures
        (has_file(present, "Cargo.toml"@)) ==> extension_language(present) == "Rust"@,
        (has_file(present, "Cargo.lock"@)) ==> extension_language(present) == "Rust"@,
        (has_file(present, "package.json"@) && !has_file(present, "Cargo.toml"@) && !has_file(present, "Cargo.lock"@)) ==> extension_language(present) == "TypeScript"@,
        (has_file(present, "go.mod"@) && !has_file(present, "Cargo.toml"@) && !has_file(present, "Cargo.lock"@) && !has_file(present, "package.json"@)) ==> extension_language(present) == "Go"@,
        (has_file(present, "requirements.txt"@) && !has_file(present, "Cargo.toml"@) && !has_file(present, "Cargo.lock"@) && !has_file(present, "package.json"@) && !has_file(present, "go.mod"@)) ==> extension_language(present) == "Python"@,
        (has_file(present, "pyproject.toml"@) && !has_file(present, "Cargo.toml"@) && !has_file(present, "Cargo.lock"@) && !has_file(present, "package.json"@) && !has_file(present, "go.mod"@)) ==> extension_language(present) == "Python"@,
        (has_file(present, "setup.py"@) && !has_file(present, "Cargo.toml"@) && !has_file(present, "Cargo.lock"@) && !has_file(present, "package.json"@) && !has_file(present, "go.mod"@)) ==> extension_language(present) == "Python"@,
        (has_file(present, "pom.xml"@) && !has_file(present, "Cargo.toml"@) && !has_file(present, "Cargo.lock"@) && !has_file(present, "package.json"@) && !has_file(present, "go.mod"@) && !has_file(present, "requirements.txt"@) && !has_file(present, "pyproject.toml"@) && !has_file(present, "setup.py"@)) ==> extension_language(present) == "Java"@,
        (has_file(present, "build.gradle"@) && !has_file(present, "Cargo.toml"@) && !has_file(present, "Cargo.lock"@) && !has_file(present, "package.json"@) && !has_file(present, "go.mod"@) && !has_file(present, "requirements.txt"@) && !has_file(present, "pyproject.toml"@) && !has_file(present, "setup.py"@)) ==> extension_language(present) == "Java"@,
        (has_file(present, "build.gradle.kts"@) && !has_file(present, "Cargo.toml"@) && !has_file(present, "Cargo.lock"@) && !has_file(present, "package.json"@) && !has_file(present, "go.mod"@) && !has_file(present, "requirements.txt"@) && !has_file(present, "pyproject.toml"@) && !has_file(present, "setup.py"@)) ==> extension_language(present) == "Java"@,
        (has_file(present, "CMakeLists.txt"@) && !has_file(present, "Cargo.toml"@) && !has_file(present, "Cargo.lock"@) && !has_file(present, "package.json"@) && !has_file(present, "go.mod"@) && !has_file(present, "requirements.txt"@) && !has_file(present, "pyproject.toml"@) && !has_file(present, "setup.py"@) && !has_file(present, "pom.xml"@) && !has_file(present, "build.gradle"@) && !has_file(present, "build.gradle.kts"@)) ==> extension_language(present) == "C/C++"@,
        (has_file(present, "Makefile"@) && !has_file(present, "Cargo.toml"@) && !has_file(present, "Cargo.lock"@) && !has_file(present, "package.json"@) && !has_file(present, "go.mod"@) && !has_file(present, "requirements.txt"@) && !has_file(present, "pyproject.toml"@) && !has_file(present, "setup.py"@) && !has_file(present, "pom.xml"@) && !has_file(present, "build.gradle"@) && !has_file(present, "build.gradle.kts"@)) ==> extension_language(present) == "C/C++"@,
        (has_file(present, "meson.build"@) && !has_file(present, "Cargo.toml"@) && !has_file(present, "Cargo.lock"@) && !has_file(present, "package.json"@) && !has_file(present, "go.mod"@) && !has_file(present, "requirements.txt"@) && !has_file(present, "pyproject.toml"@) && !has_file(present, "setup.py"@) && !has_file(present, "pom.xml"@) && !has_file(present, "build.gradle"@) && !has_file(present, "build.gradle.kts"@)) ==> extension_language(present) == "C/C++"@,
        (has_file(present, "Gemfile"@) && !has_file(present, "Cargo.toml"@) && !has_file(present, "Cargo.lock"@) && !has_file(present, "package.json"@) && !has_file(present, "go.mod"@) && !has_file(present, "requirements.txt"@) && !has_file(present, "pyproject.toml"@) && !has_file(present, "setup.py"@) && !has_file(present, "pom.xml"@) && !has_file(present, "build.gradle"@) && !has_file(present, "build.gradle.kts"@) && !has_file(present, "CMakeLists.txt"@) && !has_file(present, "Makefile"@) && !has_file(present, "meson.build"@)) ==> extension_language(present) == "Ruby"@,
        (has_file(present, "composer.json"@) && !has_file(present, "Cargo.toml"@) && !has_file(present, "Cargo.lock"@) && !has_file(present, "package.json"@) && !has_file(present, "go.mod"@) && !has_file(present, "requirements.txt"@) && !has_file(present, "pyproject.toml"@) && !has_file(present, "setup.py"@) && !has_file(present, "pom.xml"@) && !has_file(present, "build.gradle"@) && !has_file(present, "build.gradle.kts"@) && !has_file(present, "CMakeLists.txt"@) && !has_file(present, "Makefile"@) && !has_file(present, "meson.build"@) && !has_file(present, "Gemfile"@)) ==> extension_language(present) == "PHP"@,
        (has_file(present, "Package.swift"@) && !has_file(present, "Cargo.toml"@) && !has_file(present, "Cargo.lock"@) && !has_file(present, "package.json"@) && !has_file(present, "go.mod"@) && !has_file(present, "requirements.txt"@) && !has_file(present, "pyproject.toml"@) && !has_file(present, "setup.py"@) && !has_file(present, "pom.xml"@) && !has_file(present, "build.gradle"@) && !has_file(present, "build.gradle.kts"@) && !has_file(present, "CMakeLists.txt"@) && !has_file(present, "Makefile"@) && !has_file(present, "meson.build"@) && !has_file(present, "Gemfile"@) && !has_file(present, "composer.json"@)) ==> extension_language(present) == "Swift"@,
        (has_file(present, "pubspec.yaml"@) && !has_file(present, "Cargo.toml"@) && !has_file(present, "Cargo.lock"@) && !has_file(present, "package.json"@) && !has_file(present, "go.mod"@) && !has_file(present, "requirements.txt"@) && !has_file(present, "pyproject.toml"@) && !has_file(present, "setup.py"@) && !has_file(present, "pom.xml"@) && !has_file(present, "build.gradle"@) && !has_file(present, "build.gradle.kts"@) && !has_file(present, "CMakeLists.txt"@) && !has_file(present, "Makefile"@) && !has_file(present, "meson.build"@) && !has_file(present, "Gemfile"@) && !has_file(present, "composer.json"@) && !has_file(present, "Package.swift"@)) ==> extension_language(present) == "Dart"@,
        (has_file(present, "mix.exs"@) && !has_file(present, "Cargo.toml"@) && !has_file(present, "Cargo.lock"@) && !has_file(present, "package.json"@) && !has_file(present, "go.mod"@) && !has_file(present, "requirements.txt"@) && !has_file(present, "pyproject.toml"@) && !has_file(present, "setup.py"@) && !has_file(present, "pom.xml"@) && !has_file(present, "build.gradle"@) && !has_file(present, "build.gradle.kts"@) && !has_file(present, "CMakeLists.txt"@) && !has_file(present, "Makefile"@) && !has_file(present, "meson.build"@) && !has_file(present, "Gemfile"@) && !has_file(present, "composer.json"@) && !has_file(present, "Package.swift"@) && !has_file(present, "pubspec.yaml"@)) ==> extension_language(present) == "Elixir"@,
        (!has_file(present, "Cargo.toml"@) && !has_file(present, "Cargo.lock"@) && !has_file(present, "package.json"@) && !has_file(present, "go.mod"@) && !has_file(present, "requirements.txt"@) && !has_file(present, "pyproject.toml"@) && !has_file(present, "setup.py"@) && !has_file(present, "pom.xml"@) && !has_file(present, "build.gradle"@) && !has_file(present, "build.gradle.kts"@) && !has_file(present, "CMakeLists.txt"@) && !has_file(present, "Makefile"@) && !has_file(present, "meson.build"@) && !has_file(present, "Gemfile"@) && !has_file(present, "composer.json"@) && !has_file(present, "Package.swift"@) && !has_file(present, "pubspec.yaml"@) && !has_file(present, "mix.exs"@)) ==> extension_language(present) == "Unknown"@,
{
}

/// The language of a workspace holding the files `present`.
pub fn detect_language(present: &Vec<String>) -> (r: String)
    ensures
        r@ == extension_language(present@),
{
    let name = if is_present(present, "Cargo.toml") || is_present(present, "Cargo.lock") {
        "Rust"
    } else if is_present(present, "package.json") {
        "TypeScript"
    } else if is_present(present, "go.mod") {
        "Go"
    } else if is_present(present, "requirements.txt") || is_present(present, "pyproject.toml")
        || is_present(present, "setup.py") {
        "Python"
    } else if is_present(present, "pom.xml") || is_present(present, "build.gradle") || is_present(
        present,
        "build.gradle.kts",
    ) {
        "Java"
    } else if is_present(present, "CMakeLists.txt") || is_present(present, "Makefile")
        || is_present(present, "meson.build") {
        "C/C++"
    } else if is_present(present, "Gemfile") {
        "Ruby"
    } else if is_present(present, "composer.json") {
        "PHP"
    } else if is_present(present, "Package.swift") {
        "Swift"
    } else if is_present(present, "build.gradle.kts") {
        "Kotlin"
    } else if is_present(present, "pubspec.yaml") {
        "Dart"
    } else if is_present(present, "mix.exs") {
        "Elixir"
    } else if is_present(present, "Cargo.toml") {
        "Rust"
    } else {
        "Unknown"
    };
    String::from_str(name)
}

/// The branch the extension gives a workspace whose `.git/HEAD` reads as
/// `head` (`None` when it cannot be read).
pub open spec fn extension_branch(head: Option<Seq<char>>) -> Option<Seq<char>> {
    match head {
        Some(h) => Some(head_branch(h)),
        None => None,
    }
}

/// The branch of a workspace from what could be read of its `.git/HEAD`.
pub fn detect_git_branch(head: Option<String>) -> (r: Option<String>)
    ensures
        r.deep_view() == extension_branch(head.deep_view()),
{
    match head {
        Some(h) => Some(branch_from_head(h.as_str())),
        None => None,
    }
}

/// What the extension learns of the current worktree: its root, and the
/// language and branch found there.
pub struct WorktreeProbe {
    pub root: String,
    pub language: String,
    pub git_branch: Option<String>,
}

/// The record the extension writes for the current worktree, or for no
/// worktree at all.
pub open spec fn worktree_record_matches(w: Option<WorktreeProbe>, r: WorkspaceRecord) -> bool {
    match w {
        Some(p) => {
            &&& r.workspace_name@ == display_name(p.root@)
            &&& r.workspace_path@ == p.root@
            &&& r.language@ == p.language@
            &&& r.git_branch.deep_view() == p.git_branch.deep_view()
            &&& r.file_name is None
        },
        None => {
            &&& r.workspace_name@ == "No workspace"@
            &&& r.workspace_path@ == Seq::<char>::empty()
            &&& r.language@ == "Unknown"@
            &&& r.git_branch is None
            &&& r.file_name is None
        },
    }
}

/// The record for the current worktree.
pub fn worktree_record(worktree: Option<WorktreeProbe>) -> (r: WorkspaceRecord)
    ensures
        worktree_record_matches(worktree, r),
{
    match worktree {
        Some(p) => {
            let name = match path_file_name(p.root.as_str()) {
                Some(n) => n,
                None => String::from_str("Untitled"),
            };
            WorkspaceRecord {
                workspace_name: name,
                workspace_path: p.root,
                language: p.language,
                git_branch: p.git_branch,
                file_name: None,
            }
        },
        None => WorkspaceRecord {
            workspace_name: String::from_str("No workspace"),
            workspace_path: String::new(),
            language: String::from_str("Unknown"),
            git_branch: None,
            file_name: None,
        },
    }
}

/// The summary of a record: name and language, and the branch when there
/// is one, joined by ` | `.
pub open spec fn summary(name: Seq<char>, language: Seq<char>, branch: Option<Seq<char>>) -> Seq<char> {
    match branch {
        Some(b) => name + " | "@ + language + " | "@ + b,
        None => name + " | "@ + language,
    }
}

/// The summary of a record.
pub fn command_label(record: &WorkspaceRecord) -> (r: String)
    ensures
        r@ == summary(record.workspace_name@, record.language@, record.git_branch.deep_view()),
{
    let mut s = record.workspace_name.clone();
    s.append(" | ");
    s.append(record.language.as_str());
    match &record.git_branch {
        Some(b) => {
            s.append(" | ");
            s.append(b.as_str());
        },
        None => {},
    }
    s
}

/// The slash command's answer: a text, and one section labelled with the
/// summary that spans the summary's bytes (`range.start..range.end`).
pub struct SlashReply {
    pub text: String,
    pub label: String,
    pub range_start: u32,
    pub range_end: u32,
}

/// The number of bytes of `s` (`str::len`) as a `u32`, cut to its low 32
/// bits as `as` does.
pub fn byte_len_u32(s: &String) -> (r: u32)
    ensures
        r == ((encode_utf8(s@).len() as usize) as u32),
{
    #[verifier::truncate]
    (s.as_str().len() as u32)
}

/// The reply for a record.
pub open spec fn reply_matches(record: WorkspaceRecord, r: SlashReply) -> bool {
    let label = summary(record.workspace_name@, record.language@, record.git_branch.deep_view());
    &&& r.label@ == label
    &&& r.text@ == "Discord RPC updated: "@ + label
    &&& r.range_start == 0
    &&& r.range_end == ((encode_utf8(label).len() as usize) as u32)
}

/// The reply for a record.
pub fn command_reply(record: &WorkspaceRecord) -> (r: SlashReply)
    ensures
        reply_matches(*record, r),
{
    let label = command_label(record);
    let mut text = String::from_str("Discord RPC updated: ");
    text.append(label.as_str());
    let end = byte_len_u32(&label);
    SlashReply { text, label, range_start: 0, range_end: end }
}

/// What the `/zed-rpc-update` command computes before it writes the record:
/// the record and the reply.
pub struct SlashPlan {
    pub record: WorkspaceRecord,
    pub reply: SlashReply,
}

/// The slash command `command_name` on the current worktree: for
/// `zed-rpc-update`, the record to write to the state file and the reply to
/// give once it is written; for any other command, the error
/// `Unknown command: <name>`.
pub fn run_slash_command(command_name: &str, worktree: Option<WorktreeProbe>) -> (r: Result<SlashPlan, String>)
    ensures
        command_name@ == "zed-rpc-update"@ ==> (r matches Ok(plan) && worktree_record_matches(
            worktree,
            plan.record,
        ) && reply_matches(plan.record, plan.reply)),
        command_name@ != "zed-rpc-update"@ ==> (r matches Err(e) && e@ == "Unknown command: "@
            + command_name@),
{
    let name = String::from_str(command_name);
    let update = String::from_str("zed-rpc-update");
    if name == update {
        let record = worktree_record(worktree);
        let reply = command_reply(&record);
        Ok(SlashPlan { record, reply })
    } else {
        let mut e = String::from_str("Unknown command: ");
        e.append(command_name);
        Err(e)
    }
}

} // verus!
