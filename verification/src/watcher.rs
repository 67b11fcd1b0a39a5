//! The workspace watcher: it finds the workspace the editor opened last in
//! the editor's log and records it in the state file when it changes.
use vstd::prelude::*;
use crate::extension::{extension_branch, WorkspaceRecord};
use crate::git::{branch_from_head, head_branch};
use crate::language::{has_file, is_present};
use crate::path::{file_name, path_file_name};
use crate::text::{
    before_first, before_first_char, chars_of, contains, find, find_seq, lemma_find_push, lemma_find_some,
    lemma_lines_join, lemma_split_by_nonempty, line_spans, lines, same_chars, spans_view, spans_within,
    split_by, string_from_chars, strip_cr, subvec, trim, trim_char, trim_char_seq, trim_ws,
};

verus! {

/// The language the watcher names for a workspace holding the files
/// `present`, by the first rule that applies.
pub open spec fn watcher_language(present: Seq<String>) -> Seq<char> {
    if has_file(present, "Cargo.toml"@) {
        "Rust"@
    } else if has_file(present, "package.json"@) {
        "TypeScript"@
    } else if has_file(present, "go.mod"@) {
        "Go"@
    } else if has_file(present, "requirements.txt"@) || has_file(present, "pyproject.toml"@) {
        "Python"@
    } else if has_file(present, "pom.xml"@) || has_file(present, "build.gradle"@) {
        "Java"@
    } else if has_file(present, "CMakeLists.txt"@) || has_file(present, "Makefile"@) {
        "C/C++"@
    } else if has_file(present, "Gemfile"@) {
        "Ruby"@
    } else if has_file(present, "Cargo.lock"@) {
        "Rust"@
    } else {
        "Unknown"@
    }
}

/// The watcher's language table: a workspace holding a marker file of a language, and none of the marker files of the languages checked before it (`Cargo.toml` first, `Cargo.lock` last), is named that language; one holding no marker file is `Unknown`.
pub proof fn lemma_watcher_language_table(present: Seq<String>)
    ensures
        (has_file(present, "Cargo.toml"@)) ==> watcher_language(present) == "Rust"@,
        (has_file(present, "package.json"@) && !has_file(present, "Cargo.toml"@)) ==> watcher_language(present) == "TypeScript"@,
        (has_file(present, "go.mod"@) && !has_file(present, "Cargo.toml"@) && !has_file(present, "package.json"@)) ==> watcher_language(present) == "Go"@,
        (has_file(present, "requirements.txt"@) && !has_file(present, "Cargo.toml"@) && !has_file(present, "package.json"@) && !has_file(present, "go.mod"@)) ==> watcher_language(present) == "Python"@,
        (has_file(present, "pyproject.toml"@) && !has_file(present, "Cargo.toml"@) && !has_file(present, "package.json"@) && !has_file(present, "go.mod"@)) ==> watcher_language(present) == "Python"@,
        (has_file(present, "pom.xml"@) && !has_file(present, "Cargo.toml"@) && !has_file(present, "package.json"@) && !has_file(present, "go.mod"@) && !has_file(present, "requirements.txt"@) && !has_file(present, "pyproject.toml"@)) ==> watcher_language(present) == "Java"@,
        (has_file(present, "build.gradle"@) && !has_file(present, "Cargo.toml"@) && !has_file(present, "package.json"@) && !has_file(present, "go.mod"@) && !has_file(present, "requirements.txt"@) && !has_file(present, "pyproject.toml"@)) ==> watcher_language(present) == "Java"@,
        (has_file(present, "CMakeLists.txt"@) && !has_file(present, "Cargo.toml"@) && !has_file(present, "package.json"@) && !has_file(present, "go.mod"@) && !has_file(present, "requirements.txt"@) && !has_file(present, "pyproject.toml"@) && !has_file(present, "pom.xml"@) && !has_file(present, "build.gradle"@)) ==> watcher_language(present) == "C/C++"@,
        (has_file(present, "Makefile"@) && !has_file(present, "Cargo.toml"@) && !has_file(present, "package.json"@) && !has_file(present, "go.mod"@) && !has_file(present, "requirements.txt"@) && !has_file(present, "pyproject.toml"@) && !has_file(present, "pom.xml"@) && !has_file(present, "build.gradle"@)) ==> watcher_language(present) == "C/C++"@,
        (has_file(present, "Gemfile"@) && !has_file(present, "Cargo.toml"@) && !has_file(present, "package.json"@) && !has_file(present, "go.mod"@) && !has_file(present, "requirements.txt"@) && !has_file(present, "pyproject.toml"@) && !has_file(present, "pom.xml"@) && !has_file(present, "build.gradle"@) && !has_file(present, "CMakeLists.txt"@) && !has_file(present, "Makefile"@)) ==> watcher_language(present) == "Ruby"@,
        (has_file(present, "Cargo.lock"@) && !has_file(present, "Cargo.toml"@) && !has_file(present, "package.json"@) && !has_file(present, "go.mod"@) && !has_file(present, "requirements.txt"@) && !has_file(present, "pyproject.toml"@) && !has_file(present, "pom.xml"@) && !has_file(present, "build.gradle"@) && !has_file(present, "CMakeLists.txt"@) && !has_file(present, "Makefile"@) && !has_file(present, "Gemfile"@)) ==> watcher_language(present) == "Rust"@,
        (!has_file(present, "Cargo.toml"@) && !has_file(present, "package.json"@) && !has_file(present, "go.mod"@) && !has_file(present, "requirements.txt"@) && !has_file(present, "pyproject.toml"@) && !has_file(present, "pom.xml"@) && !has_file(present, "build.gradle"@) && !has_file(present, "CMakeLists.txt"@) && !has_file(present, "Makefile"@) && !has_file(present, "Gemfile"@) && !has_file(present, "Cargo.lock"@)) ==> watcher_language(present) == "Unknown"@,
{
}

/// The language of a workspace holding the files `present`.
pub fn detect_language(present: &Vec<String>) -> (r: String)
    ensures
        r@ == watcher_language(present@),
{
    let name = if is_present(present, "Cargo.toml") {
        "Rust"
    } else if is_present(present, "package.json") {
        "TypeScript"
    } else if is_present(present, "go.mod") {
        "Go"
    } else if is_present(present, "requirements.txt") || is_present(present, "pyproject.toml") {
        "Python"
    } else if is_present(present, "pom.xml") || is_present(present, "build.gradle") {
        "Java"
    } else if is_present(present, "CMakeLists.txt") || is_present(present, "Makefile") {
        "C/C++"
    } else if is_present(present, "Gemfile") {
        "Ruby"
    } else if is_present(present, "Cargo.lock") {
        "Rust"
    } else {
        "Unknown"
    };
    String::from_str(name)
}

/// The branch the watcher gives a workspace: none without a `.git` entry,
/// else from `.git/HEAD` when it reads as `head`.
pub open spec fn watcher_branch(git_dir_exists: bool, head: Option<Seq<char>>) -> Option<Seq<char>> {
    if !git_dir_exists {
        None
    } else {
        match head {
            Some(h) => Some(head_branch(h)),
            None => None,
        }
    }
}

/// The watcher and the extension give a workspace the same branch: a
/// `.git/HEAD` that can be read lies in a `.git` entry that exists.
pub proof fn lemma_watcher_branch_is_extension_branch(git_dir_exists: bool, head: Option<Seq<char>>)
    requires
        head is Some ==> git_dir_exists,
    ensures
        watcher_branch(git_dir_exists, head) == extension_branch(head),
{
}

/// The branch of a workspace: none without a `.git` entry, else from what
/// could be read of `.git/HEAD`.
pub fn detect_git_branch(git_dir_exists: bool, head: Option<String>) -> (r: Option<String>)
    ensures
        r.deep_view() == watcher_branch(git_dir_exists, head.deep_view()),
{
    if !git_dir_exists {
        return None;
    }
    match head {
        Some(h) => Some(branch_from_head(h.as_str())),
        None => None,
    }
}

/// A line that lists the folders the editor opened.
pub open spec fn folders_marker() -> Seq<char> {
    "Opened folders:"@
}

/// The line can be read without a panic: in a folders line, the first `]`
/// does not come before the first `[`.
pub open spec fn folder_line_ok(line: Seq<char>) -> bool {
    contains(line, folders_marker()) ==> match (find(line, "["@), find(line, "]"@)) {
        (Some(s), Some(e)) => s + 1 <= e,
        _ => true,
    }
}

/// The first folder a folders line lists: the text between the first `[`
/// and the first `]`, up to the first comma, without surrounding white
/// space, then without quotes, then without backslashes at either end; not
/// empty and not `~`.
pub open spec fn opened_folder(line: Seq<char>) -> Option<Seq<char>> {
    if contains(line, folders_marker()) {
        match (find(line, "["@), find(line, "]"@)) {
            (Some(s), Some(e)) => {
                let first = before_first(line.subrange(s + 1, e), ',');
                let p = trim_char(trim_char(trim(first), '"'), '\\');
                if p.len() > 0 && p != "~"@ {
                    Some(p)
                } else {
                    None
                }
            },
            _ => None,
        }
    } else {
        None
    }
}

/// The quoted absolute path on a line that speaks of opening a workspace.
pub open spec fn quoted_workspace(line: Seq<char>) -> Option<Seq<char>> {
    if contains(line, "workspace"@) && contains(line, "open"@) {
        match find(line, "\"/"@) {
            Some(s) => {
                let rest = line.skip(s + 1);
                match find(rest, "\""@) {
                    Some(e) => Some(rest.take(e)),
                    None => None,
                }
            },
            None => None,
        }
    } else {
        None
    }
}

/// The workspace a line names, if any.
pub open spec fn line_workspace(line: Seq<char>) -> Option<Seq<char>> {
    match opened_folder(line) {
        Some(p) => Some(p),
        None => quoted_workspace(line),
    }
}

/// The workspace the last line that names one names.
pub open spec fn last_workspace(ls: Seq<Seq<char>>) -> Option<Seq<char>>
    decreases ls.len(),
{
    if ls.len() == 0 {
        None
    } else {
        match line_workspace(ls.last()) {
            Some(p) => Some(p),
            None => last_workspace(ls.drop_last()),
        }
    }
}

/// Reading the lines from the last one back to the last line that names a
/// workspace meets no line that panics.
pub open spec fn backward_ok(ls: Seq<Seq<char>>) -> bool
    decreases ls.len(),
{
    if ls.len() == 0 {
        true
    } else {
        folder_line_ok(ls.last()) && (line_workspace(ls.last()) is Some || backward_ok(
            ls.drop_last(),
        ))
    }
}

/// A line that neither lists opened folders nor speaks of opening a
/// workspace.
pub open spec fn quiet_line(line: Seq<char>) -> bool {
    !contains(line, folders_marker()) && !(contains(line, "workspace"@) && contains(line, "open"@))
}

/// A quiet line names no workspace and reads without a panic.
proof fn lemma_quiet(line: Seq<char>)
    requires
        quiet_line(line),
    ensures
        line_workspace(line) is None,
        folder_line_ok(line),
{
}

/// The empty line is quiet.
proof fn lemma_empty_quiet()
    ensures
        quiet_line(Seq::<char>::empty()),
{
    reveal_strlit("Opened folders:");
    reveal_strlit("workspace");
    let e = Seq::<char>::empty();
    if contains(e, folders_marker()) {
        let k = choose|k: int| crate::text::match_at(e, folders_marker(), k);
    }
    if contains(e, "workspace"@) {
        let k = choose|k: int| crate::text::match_at(e, "workspace"@, k);
    }
}

/// A carriage return at the end of a line changes neither whether it reads
/// without a panic nor, when it does, the workspace it names.
proof fn lemma_cr_invisible(t: Seq<char>)
    ensures
        folder_line_ok(t.push('\r')) == folder_line_ok(t),
        folder_line_ok(t) ==> line_workspace(t.push('\r')) == line_workspace(t),
{
    reveal_strlit("Opened folders:");
    reveal_strlit("[");
    reveal_strlit("]");
    reveal_strlit("workspace");
    reveal_strlit("open");
    reveal_strlit("\"/");
    reveal_strlit("\"");
    let u = t.push('\r');
    assert(!folders_marker().contains('\r'));
    assert(!"["@.contains('\r'));
    assert(!"]"@.contains('\r'));
    assert(!"workspace"@.contains('\r'));
    assert(!"open"@.contains('\r'));
    assert(!"\"/"@.contains('\r'));
    assert(!"\""@.contains('\r'));
    lemma_find_push(t, folders_marker(), '\r');
    lemma_find_push(t, "["@, '\r');
    lemma_find_push(t, "]"@, '\r');
    lemma_find_push(t, "workspace"@, '\r');
    lemma_find_push(t, "open"@, '\r');
    lemma_find_push(t, "\"/"@, '\r');
    if folder_line_ok(t) {
        if contains(t, folders_marker()) {
            if let (Some(a), Some(e)) = (find(t, "["@), find(t, "]"@)) {
                lemma_find_some(t, "]"@);
                assert(u.subrange(a + 1, e) =~= t.subrange(a + 1, e));
            }
        }
        if let Some(st) = find(t, "\"/"@) {
            lemma_find_some(t, "\"/"@);
            let rest = t.skip(st + 1);
            assert(u.skip(st + 1) =~= rest.push('\r'));
            lemma_find_push(rest, "\""@, '\r');
            if let Some(e) = find(rest, "\""@) {
                lemma_find_some(rest, "\""@);
                assert(rest.push('\r').take(e) =~= rest.take(e));
            }
        }
    }
}

/// Lines put before a log whose last workspace reads without a panic change
/// neither that nor the workspace.
proof fn lemma_lines_before(pre: Seq<Seq<char>>, ls: Seq<Seq<char>>)
    requires
        backward_ok(ls),
        last_workspace(ls) is Some,
    ensures
        backward_ok(pre + ls),
        last_workspace(pre + ls) == last_workspace(ls),
    decreases ls.len(),
{
    let all = pre + ls;
    assert(all.last() == ls.last());
    assert(all.drop_last() =~= pre + ls.drop_last());
    if line_workspace(ls.last()) is None {
        lemma_lines_before(pre, ls.drop_last());
    }
}

/// Quiet lines put after a log change neither whether it reads without a
/// panic nor its last workspace.
proof fn lemma_quiet_after(ls: Seq<Seq<char>>, qs: Seq<Seq<char>>)
    requires
        forall|i: int| 0 <= i < qs.len() ==> quiet_line(#[trigger] qs[i]),
    ensures
        backward_ok(ls + qs) == backward_ok(ls),
        last_workspace(ls + qs) == last_workspace(ls),
    decreases qs.len(),
{
    if qs.len() == 0 {
        assert(ls + qs =~= ls);
    } else {
        let all = ls + qs;
        assert(all.last() == qs.last());
        assert(all.drop_last() =~= ls + qs.drop_last());
        lemma_quiet(qs.last());
        lemma_quiet_after(ls, qs.drop_last());
    }
}

/// Earlier lines never override a later match: when a log `a` names a
/// last workspace, any text `b` put before it, on lines of its own, leaves
/// that the workspace the watcher finds, and the log still reads without a
/// panic.
pub proof fn lemma_earlier_lines_never_override(b: Seq<char>, a: Seq<char>)
    requires
        backward_ok(lines(a)),
        last_workspace(lines(a)) is Some,
    ensures
        backward_ok(lines(b + seq!['\n'] + a)),
        last_workspace(lines(b + seq!['\n'] + a)) == last_workspace(lines(a)),
{
    lemma_lines_join(b, a);
    lemma_lines_before(split_by(b, seq!['\n']).map_values(|p: Seq<char>| strip_cr(p)), lines(a));
}

/// Lines that neither list opened folders nor speak of opening a workspace,
/// put after a log `a` that reads without a panic, change neither that nor
/// the workspace the watcher finds.
pub proof fn lemma_quiet_lines_change_nothing(a: Seq<char>, c: Seq<char>)
    requires
        backward_ok(lines(a)),
        forall|i: int| 0 <= i < lines(c).len() ==> quiet_line(#[trigger] lines(c)[i]),
    ensures
        backward_ok(lines(a + seq!['\n'] + c)),
        last_workspace(lines(a + seq!['\n'] + c)) == last_workspace(lines(a)),
{
    lemma_lines_join(a, c);
    lemma_split_by_nonempty(a, seq!['\n']);
    let p = split_by(a, seq!['\n']);
    let n = p.len() as int;
    let m = p.map_values(|q: Seq<char>| strip_cr(q));
    lemma_quiet_after(m, lines(c));
    let la = lines(a);
    let e = m.take(n - 1);
    let last = p[n - 1];
    assert(m =~= e.push(strip_cr(last)));
    assert(m.drop_last() =~= e);
    assert(Seq::new((n - 1) as nat, |i: int| strip_cr(p[i])) =~= e);
    if last.len() == 0 {
        assert(la =~= e);
        lemma_empty_quiet();
        assert(strip_cr(last) =~= Seq::<char>::empty());
        lemma_quiet(strip_cr(last));
    } else {
        assert(la =~= e.push(last));
        assert(la.drop_last() =~= e);
        assert(la.last() == last);
        if last.last() == '\r' {
            let t = last.drop_last();
            assert(last =~= t.push('\r'));
            lemma_cr_invisible(t);
        }
    }
}

/// The optional characters as a sequence.
pub open spec fn opt_seq(o: Option<Vec<char>>) -> Option<Seq<char>> {
    match o {
        Some(v) => Some(v@),
        None => None,
    }
}

/// Where the first `[` and `]` of a line are, when the line lists folders.
fn folder_bounds(line: &Vec<char>) -> (r: (bool, Option<usize>, Option<usize>))
    ensures
        r.0 == contains(line@, folders_marker()),
        match r.1 {
            Some(s) => find(line@, "["@) == Some(s as int),
            None => find(line@, "["@) is None,
        },
        match r.2 {
            Some(e) => find(line@, "]"@) == Some(e as int),
            None => find(line@, "]"@) is None,
        },
{
    let marker = chars_of("Opened folders:");
    let is_folders = find_seq(line, &marker).is_some();
    let open = chars_of("[");
    let close = chars_of("]");
    (is_folders, find_seq(line, &open), find_seq(line, &close))
}

/// Whether a line can be read without a panic.
fn folder_line_is_ok(line: &Vec<char>) -> (r: bool)
    ensures
        r == folder_line_ok(line@),
{
    let (is_folders, s, e) = folder_bounds(line);
    if !is_folders {
        return true;
    }
    match (s, e) {
        (Some(s), Some(e)) => s < e,
        _ => true,
    }
}

/// The workspace a line names, if any.
fn line_workspace_of(line: &Vec<char>) -> (r: Option<Vec<char>>)
    requires
        folder_line_ok(line@),
    ensures
        opt_seq(r) == line_workspace(line@),
{
    let (is_folders, s, e) = folder_bounds(line);
    if is_folders {
        match (s, e) {
            (Some(s), Some(e)) => {
                proof {
                    lemma_find_some(line@, "]"@);
                }
                let paths = subvec(line, s + 1, e);
                let first = before_first_char(&paths, ',');
                let t = trim_char_seq(&trim_char_seq(&trim_ws(&first), '"'), '\\');
                if t.len() > 0 && !same_chars(&t, &chars_of("~")) {
                    return Some(t);
                }
            },
            _ => {},
        }
    }
    let ws = chars_of("workspace");
    let op = chars_of("open");
    if find_seq(line, &ws).is_some() && find_seq(line, &op).is_some() {
        let start_pat = chars_of("\"/");
        match find_seq(line, &start_pat) {
            Some(st) => {
                proof {
                    reveal_strlit("\"/");
                    lemma_find_some(line@, "\"/"@);
                }
                let n = line.len();
                let rest = subvec(line, st + 1, n);
                assert(rest@ =~= line@.skip(st + 1));
                let quote = chars_of("\"");
                match find_seq(&rest, &quote) {
                    Some(q) => {
                        proof {
                            lemma_find_some(rest@, "\""@);
                        }
                        let p = subvec(&rest, 0, q);
                        assert(p@ =~= rest@.take(q as int));
                        return Some(p);
                    },
                    None => {},
                }
            },
            None => {},
        }
    }
    None
}

/// Whether the log can be read back to its last workspace without a panic.
pub fn log_is_readable(log: &str) -> (r: bool)
    ensures
        r == backward_ok(lines(log@)),
{
    let v = chars_of(log);
    let spans = line_spans(&v);
    let ghost ls = lines(v@);
    let mut i: usize = spans.len();
    proof {
        assert(ls.take(spans.len() as int) =~= ls);
    }
    while i > 0
        invariant
            v@ == log@,
            ls == lines(v@),
            spans_view(v@, spans@) == ls,
            spans_within(spans@, v.len() as int),
            i <= spans.len(),
            backward_ok(ls) == backward_ok(ls.take(i as int)),
        decreases i,
    {
        let (a, b) = spans[i - 1];
        let line = subvec(&v, a, b);
        assert(line@ == ls[i - 1]);
        proof {
            assert(ls.take(i as int).drop_last() =~= ls.take(i - 1));
            assert(ls.take(i as int).last() == ls[i - 1]);
        }
        if !folder_line_is_ok(&line) {
            return false;
        }
        if line_workspace_of(&line).is_some() {
            return true;
        }
        i -= 1;
    }
    true
}

/// The workspace the editor opened last: that of the last line of the log
/// which lists opened folders (the first one listed) or quotes the path of
/// a workspace it opens.
pub fn extract_workspace_from_log(log_content: &str) -> (r: Option<String>)
    requires
        backward_ok(lines(log_content@)),
    ensures
        r.deep_view() == last_workspace(lines(log_content@)),
{
    let v = chars_of(log_content);
    let spans = line_spans(&v);
    let ghost ls = lines(v@);
    let mut i: usize = spans.len();
    proof {
        assert(ls.take(spans.len() as int) =~= ls);
    }
    while i > 0
        invariant
            v@ == log_content@,
            ls == lines(v@),
            spans_view(v@, spans@) == ls,
            spans_within(spans@, v.len() as int),
            i <= spans.len(),
            backward_ok(ls.take(i as int)),
            last_workspace(ls) == last_workspace(ls.take(i as int)),
        decreases i,
    {
        let (a, b) = spans[i - 1];
        let line = subvec(&v, a, b);
        assert(line@ == ls[i - 1]);
        proof {
            assert(ls.take(i as int).drop_last() =~= ls.take(i - 1));
            assert(ls.take(i as int).last() == ls[i - 1]);
        }
        match line_workspace_of(&line) {
            Some(p) => {
                return Some(string_from_chars(p.as_slice()));
            },
            None => {},
        }
        i -= 1;
    }
    None
}

/// The name the watcher gives a workspace at `path`: its final path name,
/// or `Unknown` for a path without one.
pub open spec fn watcher_name(path: Seq<char>) -> Seq<char> {
    match file_name(path) {
        Some(n) => n,
        None => "Unknown"@,
    }
}

/// The record the watcher writes for a workspace at `path`.
pub fn workspace_record(path: &str, language: String, branch: Option<String>) -> (r: WorkspaceRecord)
    ensures
        r.workspace_name@ == watcher_name(path@),
        r.workspace_path@ == path@,
        r.language@ == language@,
        r.git_branch.deep_view() == branch.deep_view(),
        r.file_name is None,
{
    let name = match path_file_name(path) {
        Some(n) => n,
        None => String::from_str("Unknown"),
    };
    WorkspaceRecord {
        workspace_name: name,
        workspace_path: String::from_str(path),
        language,
        git_branch: branch,
        file_name: None,
    }
}

/// What the watcher keeps between reads of the log: the workspace it last
/// recorded.
pub struct Watcher {
    pub current: Option<String>,
}

impl Watcher {
    /// A watcher that has recorded nothing yet.
    pub fn new() -> (r: Watcher)
        ensures
            r.current is None,
    {
        Watcher { current: None }
    }

    /// The log now names `found` as the workspace opened last. A workspace
    /// other than the one last recorded is handed back to be recorded, and
    /// becomes the current one.
    pub fn on_log(&mut self, found: Option<String>) -> (r: Option<String>)
        ensures
            match found {
                Some(w) => if old(self).current.deep_view() == Some(w@) {
                    r is None && final(self).current.deep_view() == old(self).current.deep_view()
                } else {
                    r matches Some(x) && x@ == w@ && final(self).current.deep_view() == Some(w@)
                },
                None => r is None && final(self).current.deep_view() == old(self).current.deep_view(),
            },
    {
        match found {
            Some(w) => {
                let same = match &self.current {
                    Some(c) => *c == w,
                    None => false,
                };
                if same {
                    None
                } else {
                    self.current = Some(w.clone());
                    Some(w)
                }
            },
            None => None,
        }
    }
}

} // verus!
