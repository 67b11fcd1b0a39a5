//! The daemon's view of the machine: which processes are the editor, the
//! language and branch of a workspace, the presence text for a workspace,
//! and the clock.
use vstd::prelude::*;
use vstd::wrapping::i64_specs;
use crate::git::{branch_from_head, first_read, first_read_of, head_branch, reads_view};
use crate::language::{has_file, is_present};
use crate::text::{chars_of, parse_unsigned, parse_unsigned_max, same_chars, trim, trim_ws};
use crate::workspace::WorkspaceInfo;

verus! {

// ---------------------------------------------------------------------------
// Editor processes
// ---------------------------------------------------------------------------

/// One entry of the process table: its directory name (when it is valid
/// text) and the command name in its `comm` file (when it could be read).
pub struct ProcEntry {
    pub name: Option<String>,
    pub comm: Option<String>,
}

/// A command name that belongs to the editor, white space aside.
pub open spec fn is_zed_comm(comm: Seq<char>) -> bool {
    let n = trim(comm);
    n == "zed"@ || n == "Zed"@ || n == "zed-editor"@
}

/// The process id of an entry that belongs to the editor.
pub open spec fn entry_pid(e: ProcEntry) -> Option<u32> {
    match (e.comm, e.name) {
        (Some(c), Some(n)) => if is_zed_comm(c@) {
            match parse_unsigned(n@, u32::MAX as nat) {
                Some(v) => Some(v as u32),
                None => None,
            }
        } else {
            None
        },
        _ => None,
    }
}

/// The ids of the editor's processes among `es`, in order.
pub open spec fn pids_of(es: Seq<ProcEntry>) -> Seq<u32>
    decreases es.len(),
{
    if es.len() == 0 {
        seq![]
    } else {
        match entry_pid(es.last()) {
            Some(p) => pids_of(es.drop_last()).push(p),
            None => pids_of(es.drop_last()),
        }
    }
}

/// Whether a command name belongs to the editor.
pub fn zed_comm(comm: &str) -> (r: bool)
    ensures
        r == is_zed_comm(comm@),
{
    let n = trim_ws(&chars_of(comm));
    same_chars(&n, &chars_of("zed")) || same_chars(&n, &chars_of("Zed")) || same_chars(
        &n,
        &chars_of("zed-editor"),
    )
}

/// The ids of the editor's processes in a process table.
pub fn zed_pids(entries: &Vec<ProcEntry>) -> (r: Vec<u32>)
    ensures
        r@ == pids_of(entries@),
{
    let mut r: Vec<u32> = Vec::new();
    let mut i: usize = 0;
    assert(entries@.take(0) =~= Seq::<ProcEntry>::empty());
    while i < entries.len()
        invariant
            i <= entries.len(),
            r@ == pids_of(entries@.take(i as int)),
        decreases entries.len() - i,
    {
        let e = &entries[i];
        assert(entries@.take(i + 1).drop_last() =~= entries@.take(i as int));
        assert(entries@.take(i + 1).last() == *e);
        match (&e.comm, &e.name) {
            (Some(c), Some(n)) => {
                if zed_comm(c.as_str()) {
                    match parse_unsigned_max(&chars_of(n.as_str()), u32::MAX as u64) {
                        Some(v) => {
                            r.push(v as u32);
                        },
                        None => {},
                    }
                }
            },
            _ => {},
        }
        i += 1;
    }
    assert(entries@.take(entries.len() as int) =~= entries@);
    r
}

// ---------------------------------------------------------------------------
// Workspace language and branch
// ---------------------------------------------------------------------------

/// The language the daemon names for a workspace holding the files
/// `present`, by the first rule that applies.
pub open spec fn daemon_language(present: Seq<String>) -> Seq<char> {
    if has_file(present, "Cargo.toml"@) || has_file(present, "Cargo.lock"@) {
        "Rust"@
    } else if has_file(present, "package.json"@) {
        "TypeScript"@
    } else if has_file(present, "go.mod"@) {
        "Go"@
    } else if has_file(present, "requirements.txt"@) || has_file(present, "pyproject.toml"@) {
        "Python"@
    } else if has_file(present, "pom.xml"@) || has_file(present, "build.gradle"@) {
        "Java"@
    } else if has_file(present, "CMakeLists.txt"@) || has_file(present, "Makefile"@) {
        "C/C++"@
    } else if has_file(present, "Gemfile"@) {
        "Ruby"@
    } else if has_file(present, "composer.json"@) {
        "PHP"@
    } else if has_file(present, "Package.swift"@) {
        "Swift"@
    } else if has_file(present, "pubspec.yaml"@) {
        "Dart"@
    } else {
        "Unknown"@
    }
}

/// The daemon's language table: a workspace holding a marker file of a language, and none of the marker files of the languages checked before it (Rust first, whatever else the workspace holds), is named that language; one holding no marker file is `Unknown`.
pub proof fn lemma_daemon_language_table(present: Seq<String>)
    ensures
        (has_file(present, "Cargo.toml"@)) ==> daemon_language(present) == "Rust"@,
        (has_file(present, "Cargo.lock"@)) ==> daemon_language(present) == "Rust"@,
        (has_file(present, "package.json"@) && !has_file(present, "Cargo.toml"@) && !has_file(present, "Cargo.lock"@)) ==> daemon_language(present) == "TypeScript"@,
        (has_file(present, "go.mod"@) && !has_file(present, "Cargo.toml"@) && !has_file(present, "Cargo.lock"@) && !has_file(present, "package.json"@)) ==> daemon_language(present) == "Go"@,
        (has_file(present, "requirements.txt"@) && !has_file(present, "Cargo.toml"@) && !has_file(present, "Cargo.lock"@) && !has_file(present, "package.json"@) && !has_file(present, "go.mod"@)) ==> daemon_language(present) == "Python"@,
        (has_file(present, "pyproject.toml"@) && !has_file(present, "Cargo.toml"@) && !has_file(present, "Cargo.lock"@) && !has_file(present, "package.json"@) && !has_file(present, "go.mod"@)) ==> daemon_language(present) == "Python"@,
        (has_file(present, "pom.xml"@) && !has_file(present, "Cargo.toml"@) && !has_file(present, "Cargo.lock"@) && !has_file(present, "package.json"@) && !has_file(present, "go.mod"@) && !has_file(present, "requirements.txt"@) && !has_file(present, "pyproject.toml"@)) ==> daemon_language(present) == "Java"@,
        (has_file(present, "build.gradle"@) && !has_file(present, "Cargo.toml"@) && !has_file(present, "Cargo.lock"@) && !has_file(present, "package.json"@) && !has_file(present, "go.mod"@) && !has_file(present, "requirements.txt"@) && !has_file(present, "pyproject.toml"@)) ==> daemon_language(present) == "Java"@,
        (has_file(present, "CMakeLists.txt"@) && !has_file(present, "Cargo.toml"@) && !has_file(present, "Cargo.lock"@) && !has_file(present, "package.json"@) && !has_file(present, "go.mod"@) && !has_file(present, "requirements.txt"@) && !has_file(present, "pyproject.toml"@) && !has_file(present, "pom.xml"@) && !has_file(present, "build.gradle"@)) ==> daemon_language(present) == "C/C++"@,
        (has_file(present, "Makefile"@) && !has_file(present, "Cargo.toml"@) && !has_file(present, "Cargo.lock"@) && !has_file(present, "package.json"@) && !has_file(present, "go.mod"@) && !has_file(present, "requirements.txt"@) && !has_file(present, "pyproject.toml"@) && !has_file(present, "pom.xml"@) && !has_file(present, "build.gradle"@)) ==> daemon_language(present) == "C/C++"@,
        (has_file(present, "Gemfile"@) && !has_file(present, "Cargo.toml"@) && !has_file(present, "Cargo.lock"@) && !has_file(present, "package.json"@) && !has_file(present, "go.mod"@) && !has_file(present, "requirements.txt"@) && !has_file(present, "pyproject.toml"@) && !has_file(present, "pom.xml"@) && !has_file(present, "build.gradle"@) && !has_file(present, "CMakeLists.txt"@) && !has_file(present, "Makefile"@)) ==> daemon_language(present) == "Ruby"@,
        (has_file(present, "composer.json"@) && !has_file(present, "Cargo.toml"@) && !has_file(present, "Cargo.lock"@) && !has_file(present, "package.json"@) && !has_file(present, "go.mod"@) && !has_file(present, "requirements.txt"@) && !has_file(present, "pyproject.toml"@) && !has_file(present, "pom.xml"@) && !has_file(present, "build.gradle"@) && !has_file(present, "CMakeLists.txt"@) && !has_file(present, "Makefile"@) && !has_file(present, "Gemfile"@)) ==> daemon_language(present) == "PHP"@,
        (has_file(present, "Package.swift"@) && !has_file(present, "Cargo.toml"@) && !has_file(present, "Cargo.lock"@) && !has_file(present, "package.json"@) && !has_file(present, "go.mod"@) && !has_file(present, "requirements.txt"@) && !has_file(present, "pyproject.toml"@) && !has_file(present, "pom.xml"@) && !has_file(present, "build.gradle"@) && !has_file(present, "CMakeLists.txt"@) && !has_file(present, "Makefile"@) && !has_file(present, "Gemfile"@) && !has_file(present, "composer.json"@)) ==> daemon_language(present) == "Swift"@,
        (has_file(present, "pubspec.yaml"@) && !has_file(present, "Cargo.toml"@) && !has_file(present, "Cargo.lock"@) && !has_file(present, "package.json"@) && !has_file(present, "go.mod"@) && !has_file(present, "requirements.txt"@) && !has_file(present, "pyproject.toml"@) && !has_file(present, "pom.xml"@) && !has_file(present, "build.gradle"@) && !has_file(present, "CMakeLists.txt"@) && !has_file(present, "Makefile"@) && !has_file(present, "Gemfile"@) && !has_file(present, "composer.json"@) && !has_file(present, "Package.swift"@)) ==> daemon_language(present) == "Dart"@,
        (!has_file(present, "Cargo.toml"@) && !has_file(present, "Cargo.lock"@) && !has_file(present, "package.json"@) && !has_file(present, "go.mod"@) && !has_file(present, "requirements.txt"@) && !has_file(present, "pyproject.toml"@) && !has_file(present, "pom.xml"@) && !has_file(present, "build.gradle"@) && !has_file(present, "CMakeLists.txt"@) && !has_file(present, "Makefile"@) && !has_file(present, "Gemfile"@) && !has_file(present, "composer.json"@) && !has_file(present, "Package.swift"@) && !has_file(present, "pubspec.yaml"@)) ==> daemon_language(present) == "Unknown"@,
{
}

/// The language of a workspace holding the files `present`.
pub fn detect_lang(present: &Vec<String>) -> (r: String)
    ensures
        r@ == daemon_language(present@),
{
    let name = if is_present(present, "Cargo.toml") || is_present(present, "Cargo.lock") {
        "Rust"
    } else if is_present(present, "package.json") {
        "TypeScript"
    } else if is_present(present, "go.mod") {
        "Go"
    } else if is_present(present, "requirements.txt") || is_present(present, "pyproject.toml") {
        "Python"
    } else if is_present(present, "pom.xml") || is_present(present, "build.gradle") {
        "Java"
    } else if is_present(present, "CMakeLists.txt") || is_present(present, "Makefile") {
        "C/C++"
    } else if is_present(present, "Gemfile") {
        "Ruby"
    } else if is_present(present, "composer.json") {
        "PHP"
    } else if is_present(present, "Package.swift") {
        "Swift"
    } else if is_present(present, "pubspec.yaml") {
        "Dart"
    } else {
        "Unknown"
    };
    String::from_str(name)
}

/// The branch the daemon gives a workspace: from `.git/HEAD` when it could
/// be read (`head`), else from the first `HEAD` that could be read among
/// those the `gitdir` lines of a `.git` file point to (`linked`).
pub open spec fn daemon_branch(head: Option<Seq<char>>, linked: Seq<Option<Seq<char>>>) -> Option<Seq<char>> {
    match head {
        Some(h) => Some(head_branch(h)),
        None => match first_read(linked) {
            Some(h) => Some(head_branch(h)),
            None => None,
        },
    }
}

/// The branch of a workspace, from what could be read of its `.git/HEAD`
/// and, failing that, of the `HEAD` files its `.git` file points to.
pub fn detect_branch(head: Option<String>, linked: &Vec<Option<String>>) -> (r: Option<String>)
    ensures
        r.deep_view() == daemon_branch(head.deep_view(), reads_view(linked@)),
{
    match head {
        Some(h) => Some(branch_from_head(h.as_str())),
        None => match first_read_of(linked) {
            Some(h) => Some(branch_from_head(h.as_str())),
            None => None,
        },
    }
}

// ---------------------------------------------------------------------------
// Presence text
// ---------------------------------------------------------------------------

/// The four texts of a presence update.
pub struct ActivityText {
    pub details: String,
    pub state: String,
    pub large_text: String,
    pub small_text: String,
}

/// The language as shown: nothing for an unknown one.
pub open spec fn shown_language(language: Seq<char>) -> Seq<char> {
    if language == "Unknown"@ {
        Seq::empty()
    } else {
        language
    }
}

/// The branch as shown: nothing without one.
pub open spec fn shown_branch(branch: Option<Seq<char>>) -> Seq<char> {
    match branch {
        Some(b) => b,
        None => Seq::empty(),
    }
}

/// The state line: the shown language and branch joined by ` | `, leaving
/// out an empty one, or `Zed` when both are empty.
pub open spec fn activity_state(lang: Seq<char>, branch: Seq<char>) -> Seq<char> {
    if lang.len() > 0 && branch.len() > 0 {
        lang + " | "@ + branch
    } else if lang.len() > 0 {
        lang
    } else if branch.len() > 0 {
        branch
    } else {
        "Zed"@
    }
}

/// What a presence update shows for a workspace.
pub fn activity_text(info: &WorkspaceInfo) -> (r: ActivityText)
    ensures
        r.details@ == "Working on "@ + info.workspace_name@,
        r.state@ == activity_state(shown_language(info.language@), shown_branch(info.git_branch.deep_view())),
        r.large_text@ == info.workspace_name@,
        r.small_text@ == (if shown_language(info.language@).len() > 0 {
            shown_language(info.language@)
        } else {
            "Zed"@
        }),
{
    let unknown = String::from_str("Unknown");
    let lang = if info.language == unknown {
        String::new()
    } else {
        info.language.clone()
    };
    let branch = match &info.git_branch {
        Some(b) => b.clone(),
        None => String::new(),
    };
    let mut details = String::from_str("Working on ");
    details.append(info.workspace_name.as_str());
    let lang_empty = lang.as_str().is_empty();
    let branch_empty = branch.as_str().is_empty();
    let state = if !lang_empty && !branch_empty {
        let mut s = lang.clone();
        s.append(" | ");
        s.append(branch.as_str());
        s
    } else if !lang_empty {
        lang.clone()
    } else if !branch_empty {
        branch.clone()
    } else {
        String::from_str("Zed")
    };
    let small = if !lang_empty {
        lang.clone()
    } else {
        String::from_str("Zed")
    };
    ActivityText {
        details,
        state,
        large_text: info.workspace_name.clone(),
        small_text: small,
    }
}

/// The start time a presence update shows: the current time `now` less the
/// seconds `elapsed` since the daemon started, each taken as an `i64` by
/// `as`, the difference wrapping as a release build computes it.
pub fn activity_start(now: u64, elapsed: u64) -> (r: i64)
    ensures
        r == i64_specs::wrapping_sub(now as i64, elapsed as i64),
{
    #[verifier::truncate]
    let a = now as i64;
    #[verifier::truncate]
    let b = elapsed as i64;
    a.wrapping_sub(b)
}

// ---------------------------------------------------------------------------
// Clock
// ---------------------------------------------------------------------------

/// Seconds since the Unix epoch by the system clock
/// (`SystemTime::now().duration_since(UNIX_EPOCH)`), `None` for a clock set
/// before the epoch. Nothing is stated of the value: it is the time.
#[verifier::external_body]
fn system_seconds() -> (r: Option<u64>) {
    match std::time::SystemTime::now().duration_since(std::time::UNIX_EPOCH) {
        Ok(d) => Some(d.as_secs()),
        Err(_) => None,
    }
}

/// The seconds a clock reading gives: the seconds since the epoch, or 0
/// for a clock set before it (`None`).
pub fn seconds_or_zero(reading: Option<u64>) -> (r: u64)
    ensures
        r == match reading {
            Some(s) => s,
            None => 0,
        },
{
    match reading {
        Some(s) => s,
        None => 0,
    }
}

/// Seconds since the Unix epoch by the system clock; 0 for a clock set
/// before the epoch. Nothing is stated of the value: it is the time.
pub fn now() -> (r: u64) {
    seconds_or_zero(system_seconds())
}

} // verus!
