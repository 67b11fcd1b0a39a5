//! Reading the editor's log: the workspace a log line names, the worktree
//! store count a line reports, and the time a line was written.
use vstd::prelude::*;
use vstd::wrapping::u64_specs;
use vstd::arithmetic::div_mod::lemma_small_mod;
use crate::workspace::{
    agrees_with, ensure_workspace_info, ensured_info, ensured_known, entry_for, fresh_info,
    paths_distinct, session_view, touch, touch_session, well_keyed, KnownWorkspaces, TrackedWs,
    WorkspaceView,
};
use crate::text::{
    before_first, line_spans, lines, spans_view, spans_within, split_by, split_spans, before_first_char, chars_of, contains, find, find_seq, match_at, parse_unsigned,
    parse_unsigned_max, rfind, rfind_seq, lemma_find_some, lemma_rfind_some, same_chars, starts_with, starts_with_seq, string_from_chars,
    subvec, trim, trim_ws, all_digits, digits_value, find_sep, first_sep, lemma_split_by_step,
};

verus! {

// ---------------------------------------------------------------------------
// Which workspace a line names
// ---------------------------------------------------------------------------

/// The text that introduces the working directory of a language server.
pub open spec fn working_dir_marker() -> Seq<char> {
    "working directory: \""@
}

/// The text that introduces a git repository the editor opens.
pub open spec fn git_repo_marker() -> Seq<char> {
    "opening git repository at \""@
}

/// The suffix cut off a repository path to get its workspace.
pub open spec fn git_dir_suffix() -> Seq<char> {
    "/.git"@
}

/// Path prefixes that never name a workspace.
pub open spec fn skip_prefixes() -> Seq<Seq<char>> {
    seq![
        "/usr/bin"@,
        "/usr/lib"@,
        "/usr/share"@,
        "/home/rsz/.local"@,
        "/home/rsz/.cache"@,
        "/tmp"@,
        "/snap"@,
    ]
}

/// `p` starts with one of the prefixes that never name a workspace.
pub open spec fn is_skipped(p: Seq<char>) -> bool {
    exists|i: int| 0 <= i < skip_prefixes().len() && starts_with(p, #[trigger] skip_prefixes()[i])
}

/// Where the value after `marker` starts: one character past the marker's
/// end, as the daemon reads it.
pub open spec fn value_start(line: Seq<char>, marker: Seq<char>) -> Option<int> {
    match find(line, marker) {
        Some(k) => Some(k + marker.len() + 1),
        None => None,
    }
}

/// The line can be cut where `marker` leads: if the marker occurs, an ASCII
/// character follows it (otherwise the byte offset one past the marker is
/// beyond the line or inside a character, and slicing there panics).
pub open spec fn marker_ok(line: Seq<char>, marker: Seq<char>) -> bool {
    match find(line, marker) {
        Some(k) => k + marker.len() < line.len() && (line[k + marker.len()] as u32) < 128,
        None => true,
    }
}

/// The line can be cut where a working-directory marker leads.
pub open spec fn wd_marker_ok(line: Seq<char>) -> bool {
    marker_ok(line, working_dir_marker())
}

/// The line can be read for a workspace without a panic: it can be cut
/// after a working-directory marker, and, unless the working directory it
/// names exists (the git-repository marker is then never looked at), after
/// a git-repository marker too.
pub open spec fn ws_line_ok(line: Seq<char>, facts: Seq<PathFacts>) -> bool {
    &&& wd_marker_ok(line)
    &&& ((working_dir_candidate(line) matches Some(p) && exists_in(facts, p)) || marker_ok(
        line,
        git_repo_marker(),
    ))
}

/// The text from position `st` up to the next double quote, if there is one.
pub open spec fn quoted_from(line: Seq<char>, st: int) -> Option<Seq<char>> {
    let rest = line.skip(st);
    match find(rest, seq!['"']) {
        Some(e) => Some(rest.take(e)),
        None => None,
    }
}

/// The workspace a line names as a working directory, before the check
/// that it exists.
pub open spec fn working_dir_candidate(line: Seq<char>) -> Option<Seq<char>> {
    match value_start(line, working_dir_marker()) {
        Some(st) => match quoted_from(line, st) {
            Some(p) => if p.len() > 0 && p != "/"@ && !is_skipped(p) {
                Some(p)
            } else {
                None
            },
            None => None,
        },
        None => None,
    }
}

/// The workspace a line names as a git repository (the path without its
/// last `/.git` and what follows), before the check that it exists.
pub open spec fn git_repo_candidate(line: Seq<char>) -> Option<Seq<char>> {
    match value_start(line, git_repo_marker()) {
        Some(st) => match quoted_from(line, st) {
            Some(q) => {
                let p = match rfind(q, git_dir_suffix()) {
                    Some(e) => q.take(e),
                    None => q,
                };
                if p.len() > 0 && !is_skipped(p) {
                    Some(p)
                } else {
                    None
                }
            },
            None => None,
        },
        None => None,
    }
}

/// What the file system says of a path the log names: whether it exists,
/// and, for a workspace not met before, its language and git branch.
pub struct PathFacts {
    pub path: String,
    pub exists: bool,
    pub language: String,
    pub git_branch: Option<String>,
}

/// The characters an optional character vector holds.
pub open spec fn opt_chars(o: Option<Vec<char>>) -> Option<Seq<char>> {
    match o {
        Some(v) => Some(v@),
        None => None,
    }
}

/// Entry `i` of `facts` is the first one about `p`.
pub open spec fn fact_at(facts: Seq<PathFacts>, p: Seq<char>, i: int) -> bool {
    &&& 0 <= i < facts.len()
    &&& facts[i].path@ == p
    &&& forall|j: int| 0 <= j < i ==> (#[trigger] facts[j]).path@ != p
}

/// The first entry of `facts` about `p`.
pub open spec fn fact_for(facts: Seq<PathFacts>, p: Seq<char>) -> Option<PathFacts> {
    if exists|i: int| fact_at(facts, p, i) {
        Some(facts[choose|i: int| fact_at(facts, p, i)])
    } else {
        None
    }
}

/// `facts` says that `p` exists.
pub open spec fn exists_in(facts: Seq<PathFacts>, p: Seq<char>) -> bool {
    match fact_for(facts, p) {
        Some(f) => f.exists,
        None => false,
    }
}

/// The workspace a line names: the working directory if it exists, else the
/// git repository if it exists.
pub open spec fn extract_ws(line: Seq<char>, facts: Seq<PathFacts>) -> Option<Seq<char>> {
    let a = working_dir_candidate(line);
    let b = git_repo_candidate(line);
    if a is Some && exists_in(facts, a->0) {
        a
    } else if b is Some && exists_in(facts, b->0) {
        b
    } else {
        None
    }
}

// ---------------------------------------------------------------------------
// The store count of a diagnostics line
// ---------------------------------------------------------------------------

/// The number of worktree stores a `worktree diagnostics` line reports.
pub open spec fn store_count(line: Seq<char>) -> Option<nat> {
    if !contains(line, "worktree diagnostics"@) {
        None
    } else {
        match find(line, "stores "@) {
            Some(k) => parse_unsigned(
                trim(before_first(line.skip(k + "stores "@.len()), ',')),
                usize::MAX as nat,
            ),
            None => None,
        }
    }
}

// ---------------------------------------------------------------------------
// Lemmas
// ---------------------------------------------------------------------------

proof fn lemma_fact_first(facts: Seq<PathFacts>, p: Seq<char>, i: int)
    requires
        fact_at(facts, p, i),
    ensures
        fact_for(facts, p) == Some(facts[i]),
{
    let c = choose|c: int| fact_at(facts, p, c);
    assert(fact_at(facts, p, c));
    if c < i {
        assert(facts[c].path@ == p);
    } else if i < c {
        assert(facts[i].path@ == p);
    }
}

// ---------------------------------------------------------------------------
// Executable
// ---------------------------------------------------------------------------

/// Whether `p` starts with one of the prefixes that never name a workspace.
pub fn skipped(p: &Vec<char>) -> (r: bool)
    ensures
        r == is_skipped(p@),
{
    let mut prefixes: Vec<Vec<char>> = Vec::new();
    prefixes.push(chars_of("/usr/bin"));
    prefixes.push(chars_of("/usr/lib"));
    prefixes.push(chars_of("/usr/share"));
    prefixes.push(chars_of("/home/rsz/.local"));
    prefixes.push(chars_of("/home/rsz/.cache"));
    prefixes.push(chars_of("/tmp"));
    prefixes.push(chars_of("/snap"));
    let ghost sp = skip_prefixes();
    assert(prefixes@.len() == sp.len());
    assert(forall|i: int| 0 <= i < sp.len() ==> prefixes@[i]@ == #[trigger] sp[i]);
    let mut i: usize = 0;
    while i < prefixes.len()
        invariant
            i <= prefixes.len(),
            prefixes@.len() == sp.len(),
            sp == skip_prefixes(),
            forall|j: int| 0 <= j < sp.len() ==> prefixes@[j]@ == #[trigger] sp[j],
            forall|j: int| 0 <= j < i ==> !starts_with(p@, #[trigger] sp[j]),
        decreases prefixes.len() - i,
    {
        if starts_with_seq(p, &prefixes[i]) {
            assert(starts_with(p@, sp[i as int]));
            return true;
        }
        i += 1;
    }
    false
}

/// Whether the line can be cut after `marker`, given where the marker is.
fn marker_ok_at(line: &Vec<char>, marker: &Vec<char>, at: Option<usize>) -> (r: bool)
    requires
        match at {
            Some(k) => find(line@, marker@) == Some(k as int),
            None => find(line@, marker@) is None,
        },
    ensures
        r == marker_ok(line@, marker@),
{
    match at {
        Some(k) => {
            proof {
                lemma_find_some(line@, marker@);
                assert(crate::text::first_match(line@, marker@, k as int));
                assert(match_at(line@, marker@, k as int));
            }
            let n = line.len();
            let m = k + marker.len();
            m < n && (line[m] as u32) < 128
        },
        None => true,
    }
}

/// Whether a log line can be cut where a working-directory marker leads.
pub fn wd_marker_ok_chars(line: &Vec<char>) -> (r: bool)
    ensures
        r == wd_marker_ok(line@),
{
    let wd = chars_of("working directory: \"");
    let a = find_seq(line, &wd);
    marker_ok_at(line, &wd, a)
}

/// Whether a log line can be cut where a git-repository marker leads.
fn git_marker_ok_chars(line: &Vec<char>) -> (r: bool)
    ensures
        r == marker_ok(line@, git_repo_marker()),
{
    let gr = chars_of("opening git repository at \"");
    let b = find_seq(line, &gr);
    marker_ok_at(line, &gr, b)
}

/// Whether a log line can be read for a workspace without a panic.
pub fn ws_line_ok_chars(line: &Vec<char>, facts: &Vec<PathFacts>) -> (r: bool)
    ensures
        r == ws_line_ok(line@, facts@),
{
    if !wd_marker_ok_chars(line) {
        return false;
    }
    match working_dir_candidate_of(line) {
        Some(p) => {
            if exists_per(facts, &p) {
                return true;
            }
        },
        None => {},
    }
    git_marker_ok_chars(line)
}

/// Whether a log line can be read for a workspace without a panic, the
/// paths it names existing as `facts` says.
pub fn line_is_readable(line: &str, facts: &Vec<PathFacts>) -> (r: bool)
    ensures
        r == ws_line_ok(line@, facts@),
{
    ws_line_ok_chars(&chars_of(line), facts)
}

/// The quoted value that starts one past the end of `marker` in `line`.
fn quoted_after(line: &Vec<char>, marker: &Vec<char>) -> (r: Option<Vec<char>>)
    requires
        marker_ok(line@, marker@),
    ensures
        match value_start(line@, marker@) {
            Some(st) => match r {
                Some(v) => quoted_from(line@, st) == Some(v@),
                None => quoted_from(line@, st) is None,
            },
            None => r is None,
        },
{
    match find_seq(line, marker) {
        Some(k) => {
            proof {
                lemma_find_some(line@, marker@);
            }
            let n = line.len();
            if k + marker.len() + 1 > n {
                return None;
            }
            let st = k + marker.len() + 1;
            let rest = subvec(line, st, line.len());
            assert(rest@ == line@.skip(st as int));
            let mut quote: Vec<char> = Vec::new();
            quote.push('"');
            assert(quote@ =~= seq!['"']);
            match find_seq(&rest, &quote) {
                Some(e) => {
                    proof {
                        lemma_find_some(rest@, quote@);
                    }
                    let v = subvec(&rest, 0, e);
                    assert(v@ =~= rest@.take(e as int));
                    Some(v)
                },
                None => None,
            }
        },
        None => None,
    }
}

/// The working-directory candidate of a line.
fn working_dir_candidate_of(line: &Vec<char>) -> (r: Option<Vec<char>>)
    requires
        wd_marker_ok(line@),
    ensures
        opt_chars(r) == working_dir_candidate(line@),
{
    let wd = chars_of("working directory: \"");
    match quoted_after(line, &wd) {
        Some(p) => {
            let root = chars_of("/");
            if p.len() > 0 && !same_chars(&p, &root) && !skipped(&p) {
                Some(p)
            } else {
                None
            }
        },
        None => None,
    }
}

/// The git-repository candidate of a line.
fn git_repo_candidate_of(line: &Vec<char>) -> (r: Option<Vec<char>>)
    requires
        marker_ok(line@, git_repo_marker()),
    ensures
        opt_chars(r) == git_repo_candidate(line@),
{
    let gr = chars_of("opening git repository at \"");
    match quoted_after(line, &gr) {
        Some(q) => {
            let suffix = chars_of("/.git");
            let p = match rfind_seq(&q, &suffix) {
                Some(e) => {
                    proof {
                        lemma_rfind_some(q@, suffix@);
                    }
                    let t = subvec(&q, 0, e);
                    assert(t@ =~= q@.take(e as int));
                    t
                },
                None => q,
            };
            if p.len() > 0 && !skipped(&p) {
                Some(p)
            } else {
                None
            }
        },
        None => None,
    }
}

/// The first entry of `facts` about `p`.
pub fn fact_index(facts: &Vec<PathFacts>, p: &Vec<char>) -> (r: Option<usize>)
    ensures
        match r {
            Some(i) => i < facts.len() && fact_for(facts@, p@) == Some(facts@[i as int]),
            None => fact_for(facts@, p@) is None,
        },
{
    let mut i: usize = 0;
    while i < facts.len()
        invariant
            i <= facts.len(),
            forall|j: int| 0 <= j < i ==> (#[trigger] facts@[j]).path@ != p@,
        decreases facts.len() - i,
    {
        if same_chars(&chars_of(facts[i].path.as_str()), p) {
            proof {
                assert(fact_at(facts@, p@, i as int));
                lemma_fact_first(facts@, p@, i as int);
            }
            return Some(i);
        }
        i += 1;
    }
    None
}

/// Whether `facts` says that `p` exists.
pub fn exists_per(facts: &Vec<PathFacts>, p: &Vec<char>) -> (r: bool)
    ensures
        r == exists_in(facts@, p@),
{
    match fact_index(facts, p) {
        Some(i) => facts[i].exists,
        None => false,
    }
}

/// The workspace a line names, as characters.
pub fn extract_ws_chars(line: &Vec<char>, facts: &Vec<PathFacts>) -> (r: Option<Vec<char>>)
    requires
        ws_line_ok(line@, facts@),
    ensures
        opt_chars(r) == extract_ws(line@, facts@),
{
    match working_dir_candidate_of(line) {
        Some(p) => {
            if exists_per(facts, &p) {
                return Some(p);
            }
        },
        None => {},
    }
    match git_repo_candidate_of(line) {
        Some(p) => {
            if exists_per(facts, &p) {
                return Some(p);
            }
        },
        None => {},
    }
    None
}

/// The workspace a log line names, if the path it names exists: first the
/// working directory of a language server, else a git repository the
/// editor opens.
pub fn extract_ws_from_line(line: &str, facts: &Vec<PathFacts>) -> (r: Option<String>)
    requires
        ws_line_ok(line@, facts@),
    ensures
        r.deep_view() == extract_ws(line@, facts@),
{
    let v = chars_of(line);
    match extract_ws_chars(&v, facts) {
        Some(p) => Some(string_from_chars(p.as_slice())),
        None => None,
    }
}

/// The paths a line names, before the check that they exist: its working
/// directory, and its git repository when the line can be cut after that
/// marker.
pub fn line_candidates(line: &str) -> (r: Vec<String>)
    requires
        wd_marker_ok(line@),
    ensures
        forall|i: int| 0 <= i < r.len() ==> Some(#[trigger] r@[i]@) == working_dir_candidate(line@)
            || (marker_ok(line@, git_repo_marker()) && Some(r@[i]@) == git_repo_candidate(line@)),
        working_dir_candidate(line@) matches Some(p) ==> exists|i: int| 0 <= i < r.len() && r@[i]@ == p,
        marker_ok(line@, git_repo_marker()) ==> (git_repo_candidate(line@) matches Some(p) ==> exists|i: int|
            0 <= i < r.len() && r@[i]@ == p),
{
    let v = chars_of(line);
    let mut r: Vec<String> = Vec::new();
    let a = working_dir_candidate_of(&v);
    let b = if git_marker_ok_chars(&v) {
        git_repo_candidate_of(&v)
    } else {
        None
    };
    match a {
        Some(p) => {
            r.push(string_from_chars(p.as_slice()));
        },
        None => {},
    }
    let ghost n = r.len();
    match b {
        Some(p) => {
            r.push(string_from_chars(p.as_slice()));
        },
        None => {},
    }
    proof {
        if working_dir_candidate(line@) is Some {
            assert(r@[0]@ == working_dir_candidate(line@)->0);
        }
        if marker_ok(line@, git_repo_marker()) && git_repo_candidate(line@) is Some {
            assert(r@[n as int]@ == git_repo_candidate(line@)->0);
        }
    }
    r
}

/// The number of worktree stores a `worktree diagnostics` line reports.
pub fn store_count_of(v: &Vec<char>) -> (r: Option<usize>)
    ensures
        match r {
            Some(n) => store_count(v@) == Some(n as nat),
            None => store_count(v@) is None,
        },
{
    let diag = chars_of("worktree diagnostics");
    if find_seq(v, &diag).is_none() {
        return None;
    }
    let stores = chars_of("stores ");
    match find_seq(v, &stores) {
        Some(k) => {
            proof {
                lemma_find_some(v@, stores@);
            }
            let n = v.len();
            let rest = subvec(v, k + stores.len(), n);
            assert(rest@ =~= v@.skip(k + stores@.len()));
            let field = before_first_char(&rest, ',');
            let t = trim_ws(&field);
            match parse_unsigned_max(&t, usize::MAX as u64) {
                Some(x) => Some(x as usize),
                None => None,
            }
        },
        None => None,
    }
}

/// The number of worktree stores a `worktree diagnostics` line reports.
pub fn extract_store_count(line: &str) -> (r: Option<usize>)
    ensures
        match r {
            Some(n) => store_count(line@) == Some(n as nat),
            None => store_count(line@) is None,
        },
{
    store_count_of(&chars_of(line))
}

// ---------------------------------------------------------------------------
// When a line was written
// ---------------------------------------------------------------------------

/// The characters that separate the fields of a log line's time stamp.
pub open spec fn timestamp_seps() -> Seq<char> {
    seq!['-', 'T', ':', '+']
}

/// `s` read as a `u64`, or 0 where it is not one.
pub open spec fn number_or_zero(s: Seq<char>) -> u64 {
    match parse_unsigned(s, u64::MAX as nat) {
        Some(v) => v as u64,
        None => 0,
    }
}

/// The daemon's rough count of seconds since 1970 for a date and time: a
/// year of 365 days plus a leap day every fourth year, months of 30 days.
/// The arithmetic wraps, as the daemon's release build does.
pub open spec fn rough_epoch_seconds(y: u64, mo: u64, d: u64, h: u64, mi: u64, s: u64) -> u64 {
    let a = u64_specs::wrapping_sub(y, 1970);
    let days = u64_specs::wrapping_sub(
        u64_specs::wrapping_add(
            u64_specs::wrapping_add(
                u64_specs::wrapping_add(u64_specs::wrapping_mul(a, 365), a / 4),
                u64_specs::wrapping_mul(u64_specs::wrapping_sub(mo, 1), 30),
            ),
            d,
        ),
        1,
    );
    u64_specs::wrapping_add(
        u64_specs::wrapping_add(
            u64_specs::wrapping_add(
                u64_specs::wrapping_mul(days, 86400),
                u64_specs::wrapping_mul(h, 3600),
            ),
            u64_specs::wrapping_mul(mi, 60),
        ),
        s,
    )
}

/// The fields of a date and time small enough that the rough count does
/// not wrap: a year from 1970 and positive month and day, each field at
/// most a million.
pub open spec fn modest_date(y: u64, mo: u64, d: u64, h: u64, mi: u64, s: u64) -> bool {
    &&& 1970 <= y <= 1_000_000
    &&& 1 <= mo <= 1_000_000
    &&& 1 <= d <= 1_000_000
    &&& h <= 1_000_000
    &&& mi <= 1_000_000
    &&& s <= 1_000_000
}

/// For modest fields no step of the rough count wraps.
proof fn lemma_rough_exact(y: u64, mo: u64, d: u64, h: u64, mi: u64, s: u64)
    requires
        modest_date(y, mo, d, h, mi, s),
    ensures
        rough_epoch_seconds(y, mo, d, h, mi, s) as int == ((y - 1970) * 365 + (y - 1970) / 4 + (mo - 1) * 30
            + d - 1) * 86400 + h * 3600 + mi * 60 + s,
{
    let m: nat = 0x1_0000_0000_0000_0000;
    let a = (y - 1970) as u64;
    assert(u64_specs::wrapping_sub(y, 1970) == a);
    lemma_small_mod((a as nat * 365) as nat, m);
    assert(u64_specs::wrapping_mul(a, 365) == a * 365);
    let mo1 = (mo - 1) as u64;
    assert(u64_specs::wrapping_sub(mo, 1) == mo1);
    lemma_small_mod((mo1 as nat * 30) as nat, m);
    assert(u64_specs::wrapping_mul(mo1, 30) == mo1 * 30);
    let days = (a * 365 + a / 4 + mo1 * 30 + d - 1) as u64;
    assert(u64_specs::wrapping_sub(
        u64_specs::wrapping_add(
            u64_specs::wrapping_add(
                u64_specs::wrapping_add(u64_specs::wrapping_mul(a, 365), a / 4),
                u64_specs::wrapping_mul(u64_specs::wrapping_sub(mo, 1), 30),
            ),
            d,
        ),
        1,
    ) == days);
    lemma_small_mod((days as nat * 86400) as nat, m);
    lemma_small_mod((h as nat * 3600) as nat, m);
    lemma_small_mod((mi as nat * 60) as nat, m);
    assert(u64_specs::wrapping_mul(days, 86400) == days * 86400);
    assert(u64_specs::wrapping_mul(h, 3600) == h * 3600);
    assert(u64_specs::wrapping_mul(mi, 60) == mi * 60);
}

/// 1970-01-01 00:00:00 is second 0.
pub proof fn lemma_rough_epoch_origin()
    ensures
        rough_epoch_seconds(1970, 1, 1, 0, 0, 0) == 0,
{
    lemma_rough_exact(1970, 1, 1, 0, 0, 0);
}

/// Each field counts as its unit: one more second, minute, hour or day
/// adds 1, 60, 3600 or 86400 seconds, and one more month 30 days.
pub proof fn lemma_rough_epoch_units(y: u64, mo: u64, d: u64, h: u64, mi: u64, s: u64)
    requires
        modest_date(y, mo, d, h, mi, s),
        mo < 1_000_000,
        d < 1_000_000,
        h < 1_000_000,
        mi < 1_000_000,
        s < 1_000_000,
    ensures
        rough_epoch_seconds(y, mo, d, h, mi, (s + 1) as u64) == rough_epoch_seconds(y, mo, d, h, mi, s) + 1,
        rough_epoch_seconds(y, mo, d, h, (mi + 1) as u64, s) == rough_epoch_seconds(y, mo, d, h, mi, s) + 60,
        rough_epoch_seconds(y, mo, d, (h + 1) as u64, mi, s) == rough_epoch_seconds(y, mo, d, h, mi, s) + 3600,
        rough_epoch_seconds(y, mo, (d + 1) as u64, h, mi, s) == rough_epoch_seconds(y, mo, d, h, mi, s) + 86400,
        rough_epoch_seconds(y, (mo + 1) as u64, d, h, mi, s) == rough_epoch_seconds(y, mo, d, h, mi, s) + 30 * 86400,
{
    lemma_rough_exact(y, mo, d, h, mi, s);
    lemma_rough_exact(y, mo, d, h, mi, (s + 1) as u64);
    lemma_rough_exact(y, mo, d, h, (mi + 1) as u64, s);
    lemma_rough_exact(y, mo, d, (h + 1) as u64, mi, s);
    lemma_rough_exact(y, mo, (d + 1) as u64, h, mi, s);
    lemma_rough_exact(y, (mo + 1) as u64, d, h, mi, s);
}

/// One more year adds 365 days, or 366 when the new year is a fourth one
/// after 1970 (1974, 1978, ...).
pub proof fn lemma_rough_epoch_year(y: u64, mo: u64, d: u64, h: u64, mi: u64, s: u64)
    requires
        modest_date(y, mo, d, h, mi, s),
        y < 1_000_000,
    ensures
        rough_epoch_seconds((y + 1) as u64, mo, d, h, mi, s) == rough_epoch_seconds(y, mo, d, h, mi, s) + (if (y
            + 1 - 1970) % 4 == 0 {
            366int
        } else {
            365int
        }) * 86400,
{
    lemma_rough_exact(y, mo, d, h, mi, s);
    lemma_rough_exact((y + 1) as u64, mo, d, h, mi, s);
    let a: int = y - 1970;
    assert((a + 1) / 4 == a / 4 + (if (a + 1) % 4 == 0 {
        1int
    } else {
        0int
    }));
}

/// A time in a later month of the same year is later, for days of the
/// month up to 30 and a time of day within the day.
pub proof fn lemma_later_month_is_later(
    y: u64,
    mo1: u64,
    d1: u64,
    h1: u64,
    mi1: u64,
    s1: u64,
    mo2: u64,
    d2: u64,
    h2: u64,
    mi2: u64,
    s2: u64,
)
    requires
        modest_date(y, mo1, d1, h1, mi1, s1),
        modest_date(y, mo2, d2, h2, mi2, s2),
        mo1 < mo2,
        d1 <= 30,
        d2 <= 30,
        h1 < 24,
        mi1 < 60,
        s1 < 60,
    ensures
        rough_epoch_seconds(y, mo1, d1, h1, mi1, s1) < rough_epoch_seconds(y, mo2, d2, h2, mi2, s2),
{
    lemma_rough_exact(y, mo1, d1, h1, mi1, s1);
    lemma_rough_exact(y, mo2, d2, h2, mi2, s2);
}

/// A time on a later day of the same month is later, for a time of day
/// within the day.
pub proof fn lemma_later_day_is_later(
    y: u64,
    mo: u64,
    d1: u64,
    h1: u64,
    mi1: u64,
    s1: u64,
    d2: u64,
    h2: u64,
    mi2: u64,
    s2: u64,
)
    requires
        modest_date(y, mo, d1, h1, mi1, s1),
        modest_date(y, mo, d2, h2, mi2, s2),
        d1 < d2,
        h1 < 24,
        mi1 < 60,
        s1 < 60,
    ensures
        rough_epoch_seconds(y, mo, d1, h1, mi1, s1) < rough_epoch_seconds(y, mo, d2, h2, mi2, s2),
{
    lemma_rough_exact(y, mo, d1, h1, mi1, s1);
    lemma_rough_exact(y, mo, d2, h2, mi2, s2);
}

/// A time in a later year is later, for months up to 12, days up to 30 and
/// a time of day within the day.
pub proof fn lemma_later_year_is_later(
    y1: u64,
    mo1: u64,
    d1: u64,
    h1: u64,
    mi1: u64,
    s1: u64,
    y2: u64,
    mo2: u64,
    d2: u64,
    h2: u64,
    mi2: u64,
    s2: u64,
)
    requires
        modest_date(y1, mo1, d1, h1, mi1, s1),
        modest_date(y2, mo2, d2, h2, mi2, s2),
        y1 < y2,
        mo1 <= 12,
        d1 <= 30,
        h1 < 24,
        mi1 < 60,
        s1 < 60,
    ensures
        rough_epoch_seconds(y1, mo1, d1, h1, mi1, s1) < rough_epoch_seconds(y2, mo2, d2, h2, mi2, s2),
{
    lemma_rough_exact(y1, mo1, d1, h1, mi1, s1);
    lemma_rough_exact(y2, mo2, d2, h2, mi2, s2);
    assert((y2 - 1970) / 4 >= (y1 - 1970) / 4);
}

/// The time of a log line: read from its leading `Y-M-DTh:m:s` fields when
/// the line splits into at least six of them and year, month and day are
/// all positive; `counter` otherwise.
pub open spec fn line_timestamp(line: Seq<char>, counter: u64) -> u64 {
    let parts = split_by(line, timestamp_seps());
    if parts.len() >= 6 {
        let y = number_or_zero(parts[0]);
        let mo = number_or_zero(parts[1]);
        let d = number_or_zero(parts[2]);
        let h = number_or_zero(parts[3]);
        let mi = number_or_zero(parts[4]);
        let s = number_or_zero(before_first(parts[5], '.'));
        if y > 0 && mo > 0 && d > 0 {
            rough_epoch_seconds(y, mo, d, h, mi, s)
        } else {
            counter
        }
    } else {
        counter
    }
}

/// A log line that starts with a date and time written
/// `Y-MO-DTH:MI:S+...`, the fields given as the text of each.
pub open spec fn dated_line(
    ys: Seq<char>,
    mos: Seq<char>,
    ds: Seq<char>,
    hs: Seq<char>,
    mis: Seq<char>,
    ss: Seq<char>,
    rest: Seq<char>,
) -> Seq<char> {
    ys + (seq!['-'] + (mos + (seq!['-'] + (ds + (seq!['T'] + (hs + (seq![':'] + (mis + (seq![':'] + (ss
        + (seq!['+'] + rest)))))))))))
}

/// A field written in decimal digits, at most a million.
pub open spec fn modest_digits(f: Seq<char>) -> bool {
    f.len() > 0 && all_digits(f) && digits_value(f) <= 1_000_000
}

/// A piece free of separators, then a separator, splits off as one piece.
proof fn lemma_split_off(p: Seq<char>, c: char, t: Seq<char>)
    requires
        all_digits(p),
        timestamp_seps().contains(c),
    ensures
        split_by(p + (seq![c] + t), timestamp_seps()) == seq![p] + split_by(t, timestamp_seps()),
{
    let seps = timestamp_seps();
    let line = p + (seq![c] + t);
    let k = p.len() as int;
    assert forall|j: int| 0 <= j < k implies !seps.contains(#[trigger] line[j]) by {
        assert(line[j] == p[j]);
        assert('0' <= p[j] <= '9');
        if seps.contains(line[j]) {
            let q = choose|q: int| 0 <= q < seps.len() && seps[q] == line[j];
        }
    }
    assert(line[k] == c);
    assert(first_sep(line, seps, k));
    lemma_split_by_step(line, seps, k);
    assert(line.take(k) =~= p);
    assert(line.skip(k + 1) =~= t);
}

/// A modest field reads as its value.
proof fn lemma_number_of_digits(f: Seq<char>)
    requires
        modest_digits(f),
    ensures
        number_or_zero(f) == digits_value(f),
{
    assert('0' <= f[0] <= '9');
}

/// The time of a dated log line is the rough count of its date and time,
/// the fields read as the decimal numbers they are written as: the date
/// decides, not the line's place in the log.
pub proof fn lemma_dated_line_time(
    ys: Seq<char>,
    mos: Seq<char>,
    ds: Seq<char>,
    hs: Seq<char>,
    mis: Seq<char>,
    ss: Seq<char>,
    rest: Seq<char>,
    counter: u64,
)
    requires
        modest_digits(ys),
        modest_digits(mos),
        modest_digits(ds),
        modest_digits(hs),
        modest_digits(mis),
        modest_digits(ss),
        digits_value(ys) >= 1970,
        digits_value(mos) >= 1,
        digits_value(ds) >= 1,
    ensures
        line_timestamp(dated_line(ys, mos, ds, hs, mis, ss, rest), counter) == rough_epoch_seconds(
            digits_value(ys) as u64,
            digits_value(mos) as u64,
            digits_value(ds) as u64,
            digits_value(hs) as u64,
            digits_value(mis) as u64,
            digits_value(ss) as u64,
        ),
{
    let seps = timestamp_seps();
    assert(seps.contains('-')) by { assert(seps[0] == '-'); }
    assert(seps.contains('T')) by { assert(seps[1] == 'T'); }
    assert(seps.contains(':')) by { assert(seps[2] == ':'); }
    assert(seps.contains('+')) by { assert(seps[3] == '+'); }
    let t5 = seq!['+'] + rest;
    let t4 = ss + t5;
    let t3 = mis + (seq![':'] + t4);
    let t2 = hs + (seq![':'] + t3);
    let t1 = ds + (seq!['T'] + t2);
    let t0 = mos + (seq!['-'] + t1);
    let line = ys + (seq!['-'] + t0);
    assert(line == dated_line(ys, mos, ds, hs, mis, ss, rest));
    lemma_split_off(ss, '+', rest);
    lemma_split_off(mis, ':', t4);
    lemma_split_off(hs, ':', t3);
    lemma_split_off(ds, 'T', t2);
    lemma_split_off(mos, '-', t1);
    lemma_split_off(ys, '-', t0);
    let parts = split_by(line, seps);
    let tail = split_by(rest, seps);
    assert(parts =~= seq![ys, mos, ds, hs, mis, ss] + tail);
    lemma_number_of_digits(ys);
    lemma_number_of_digits(mos);
    lemma_number_of_digits(ds);
    lemma_number_of_digits(hs);
    lemma_number_of_digits(mis);
    lemma_number_of_digits(ss);
    assert(before_first(ss, '.') == ss) by {
        if exists|k: int| first_sep(ss, seq!['.'], k) {
            let k = choose|k: int| first_sep(ss, seq!['.'], k);
            assert(seq!['.'].contains(ss[k]));
            assert('0' <= ss[k] <= '9');
        }
    }
}

/// A dated line in a later month of the same year carries a later time,
/// for days of the month up to 30 and a time of day within the day.
pub proof fn lemma_later_month_line_is_later(
    ys: Seq<char>,
    mo1: Seq<char>,
    d1: Seq<char>,
    h1: Seq<char>,
    mi1: Seq<char>,
    s1: Seq<char>,
    r1: Seq<char>,
    mo2: Seq<char>,
    d2: Seq<char>,
    h2: Seq<char>,
    mi2: Seq<char>,
    s2: Seq<char>,
    r2: Seq<char>,
    c1: u64,
    c2: u64,
)
    requires
        modest_digits(ys),
        modest_digits(mo1),
        modest_digits(d1),
        modest_digits(h1),
        modest_digits(mi1),
        modest_digits(s1),
        modest_digits(mo2),
        modest_digits(d2),
        modest_digits(h2),
        modest_digits(mi2),
        modest_digits(s2),
        digits_value(ys) >= 1970,
        1 <= digits_value(mo1) < digits_value(mo2),
        1 <= digits_value(d1) <= 30,
        1 <= digits_value(d2) <= 30,
        digits_value(h1) < 24,
        digits_value(mi1) < 60,
        digits_value(s1) < 60,
    ensures
        line_timestamp(dated_line(ys, mo1, d1, h1, mi1, s1, r1), c1) < line_timestamp(
            dated_line(ys, mo2, d2, h2, mi2, s2, r2),
            c2,
        ),
{
    lemma_dated_line_time(ys, mo1, d1, h1, mi1, s1, r1, c1);
    lemma_dated_line_time(ys, mo2, d2, h2, mi2, s2, r2, c2);
    lemma_later_month_is_later(
        digits_value(ys) as u64,
        digits_value(mo1) as u64,
        digits_value(d1) as u64,
        digits_value(h1) as u64,
        digits_value(mi1) as u64,
        digits_value(s1) as u64,
        digits_value(mo2) as u64,
        digits_value(d2) as u64,
        digits_value(h2) as u64,
        digits_value(mi2) as u64,
        digits_value(s2) as u64,
    );
}

/// `v[a..b]` read as a `u64`, or 0.
fn number_at(v: &Vec<char>, a: usize, b: usize) -> (r: u64)
    requires
        a <= b <= v.len(),
    ensures
        r == number_or_zero(v@.subrange(a as int, b as int)),
{
    let part = subvec(v, a, b);
    match parse_unsigned_max(&part, u64::MAX) {
        Some(x) => x,
        None => 0,
    }
}

/// The time of a log line, or `counter` when the line carries none.
pub fn timestamp_of(line: &Vec<char>, counter: u64) -> (r: u64)
    ensures
        r == line_timestamp(line@, counter),
{
    let mut seps: Vec<char> = Vec::new();
    seps.push('-');
    seps.push('T');
    seps.push(':');
    seps.push('+');
    assert(seps@ =~= timestamp_seps());
    let spans = split_spans(line, &seps);
    let ghost parts = split_by(line@, timestamp_seps());
    if spans.len() < 6 {
        return counter;
    }
    assert forall|i: int| 0 <= i < 6 implies parts[i] == line@.subrange(spans@[i].0 as int, spans@[i].1 as int)
        && spans@[i].0 <= spans@[i].1 <= line.len() by {}
    let y = number_at(line, spans[0].0, spans[0].1);
    let mo = number_at(line, spans[1].0, spans[1].1);
    let d = number_at(line, spans[2].0, spans[2].1);
    let h = number_at(line, spans[3].0, spans[3].1);
    let mi = number_at(line, spans[4].0, spans[4].1);
    let last = subvec(line, spans[5].0, spans[5].1);
    let secs_part = before_first_char(&last, '.');
    let s = match parse_unsigned_max(&secs_part, u64::MAX) {
        Some(x) => x,
        None => 0,
    };
    if y > 0 && mo > 0 && d > 0 {
        let a = y.wrapping_sub(1970);
        let days = a.wrapping_mul(365).wrapping_add(a / 4).wrapping_add(
            (mo - 1).wrapping_mul(30),
        ).wrapping_add(d).wrapping_sub(1);
        days.wrapping_mul(86400).wrapping_add(h.wrapping_mul(3600)).wrapping_add(
            mi.wrapping_mul(60),
        ).wrapping_add(s)
    } else {
        counter
    }
}

/// Whether the log has grown past the size it had when last read: only
/// then are its new lines read.
pub fn log_grew(size: u64, last_size: u64) -> (r: bool)
    ensures
        r == (size > last_size),
{
    size > last_size
}

// ---------------------------------------------------------------------------
// Reading a whole log
// ---------------------------------------------------------------------------

/// What a scan of the log has built so far: the workspaces known, the
/// session's workspaces with the time each was last seen, and the time
/// given to the next line that carries none.
pub struct ScanView {
    pub known: Map<Seq<char>, WorkspaceView>,
    pub session: Seq<(WorkspaceView, u64)>,
    pub counter: u64,
}

/// The language `facts` gives for a workspace met for the first time.
pub open spec fn fresh_language(facts: Seq<PathFacts>, p: Seq<char>) -> Seq<char> {
    match fact_for(facts, p) {
        Some(f) => f.language@,
        None => "Unknown"@,
    }
}

/// The branch `facts` gives for a workspace met for the first time.
pub open spec fn fresh_branch(facts: Seq<PathFacts>, p: Seq<char>) -> Option<Seq<char>> {
    match fact_for(facts, p) {
        Some(f) => f.git_branch.deep_view(),
        None => None,
    }
}

/// The scan after one more line: a line naming an existing workspace makes
/// that workspace known, records it as seen at the line's time (the time
/// the line carries, else the running counter), and moves the counter one
/// past that time.
pub open spec fn scan_step(st: ScanView, line: Seq<char>, facts: Seq<PathFacts>) -> ScanView {
    match extract_ws(line, facts) {
        Some(ws) => {
            let ts = line_timestamp(line, st.counter);
            let lang = fresh_language(facts, ws);
            let branch = fresh_branch(facts, ws);
            ScanView {
                known: ensured_known(st.known, ws, lang, branch),
                session: touch(st.session, ws, ensured_info(st.known, ws, lang, branch), ts),
                counter: u64_specs::wrapping_add(ts, 1),
            }
        },
        None => st,
    }
}

/// The scan after the lines `ls`, from `start`.
pub open spec fn scan_lines(ls: Seq<Seq<char>>, facts: Seq<PathFacts>, start: ScanView) -> ScanView
    decreases ls.len(),
{
    if ls.len() == 0 {
        start
    } else {
        scan_step(scan_lines(ls.drop_last(), facts, start), ls.last(), facts)
    }
}

/// Every line of `log` can be read for a workspace without a panic, the
/// paths they name existing as `facts` says.
pub open spec fn log_ok(log: Seq<char>, facts: Seq<PathFacts>) -> bool {
    forall|i: int| 0 <= i < lines(log).len() ==> ws_line_ok(#[trigger] lines(log)[i], facts)
}

/// Every line of `log` can be cut where a working-directory marker leads.
pub open spec fn wd_markers_ok(log: Seq<char>) -> bool {
    forall|i: int| 0 <= i < lines(log).len() ==> wd_marker_ok(#[trigger] lines(log)[i])
}

/// One scan step keeps the session free of duplicate paths and in
/// agreement with the known workspaces, and forgets nothing known.
pub proof fn lemma_scan_step(st: ScanView, line: Seq<char>, facts: Seq<PathFacts>)
    requires
        well_keyed(st.known),
        paths_distinct(st.session),
        agrees_with(st.session, st.known),
    ensures
        well_keyed(scan_step(st, line, facts).known),
        paths_distinct(scan_step(st, line, facts).session),
        agrees_with(scan_step(st, line, facts).session, scan_step(st, line, facts).known),
        forall|k: Seq<char>| #[trigger] st.known.contains_key(k) ==> scan_step(st, line, facts).known.contains_key(k)
            && scan_step(st, line, facts).known[k] == st.known[k],
{
    let next = scan_step(st, line, facts);
    match extract_ws(line, facts) {
        Some(ws) => {
            let lang = fresh_language(facts, ws);
            let branch = fresh_branch(facts, ws);
            let info = ensured_info(st.known, ws, lang, branch);
            let known2 = ensured_known(st.known, ws, lang, branch);
            assert(info.path == ws);
            assert(known2.contains_key(ws) && known2[ws] == info);
            assert forall|k: Seq<char>| #[trigger] known2.contains_key(k) implies known2[k].path == k by {
                if k != ws {
                    assert(st.known.contains_key(k));
                }
            }
            let s = st.session;
            match entry_for(s, ws) {
                Some(i) => {
                    let c = choose|c: int| crate::workspace::entry_at(s, ws, c);
                    assert(crate::workspace::entry_at(s, ws, c));
                    assert(s[i].0 == info);
                    let s2 = s.update(i, (s[i].0, line_timestamp(line, st.counter)));
                    assert forall|a: int, b: int| 0 <= a < b < s2.len() implies (#[trigger] s2[a]).0.path != (#[trigger] s2[b]).0.path by {
                        assert(s[a].0.path != s[b].0.path);
                    }
                    assert forall|a: int| 0 <= a < s2.len() implies known2.contains_key((#[trigger] s2[a]).0.path) && known2[s2[a].0.path] == s2[a].0 by {
                        assert(st.known.contains_key(s[a].0.path));
                    }
                },
                None => {
                    assert(!exists|c: int| crate::workspace::entry_at(s, ws, c));
                    assert forall|a: int| 0 <= a < s.len() implies (#[trigger] s[a]).0.path != ws by {
                        if s[a].0.path == ws {
                            assert(crate::workspace::entry_at(s, ws, a)) by {
                                assert forall|j: int| 0 <= j < a implies (#[trigger] s[j]).0.path != ws by {
                                    assert(s[j].0.path != s[a].0.path);
                                }
                            }
                        }
                    }
                    let s2 = s.push((info, line_timestamp(line, st.counter)));
                    assert forall|a: int, b: int| 0 <= a < b < s2.len() implies (#[trigger] s2[a]).0.path != (#[trigger] s2[b]).0.path by {
                        if b < s.len() {
                            assert(s[a].0.path != s[b].0.path);
                        }
                    }
                    assert forall|a: int| 0 <= a < s2.len() implies known2.contains_key((#[trigger] s2[a]).0.path) && known2[s2[a].0.path] == s2[a].0 by {
                        if a < s.len() {
                            assert(st.known.contains_key(s[a].0.path));
                        }
                    }
                },
            }
        },
        None => {},
    }
}

/// A whole scan keeps the session free of duplicate paths and in agreement
/// with the known workspaces, and forgets nothing known.
pub proof fn lemma_scan_lines(ls: Seq<Seq<char>>, facts: Seq<PathFacts>, start: ScanView)
    requires
        well_keyed(start.known),
        paths_distinct(start.session),
        agrees_with(start.session, start.known),
    ensures
        well_keyed(scan_lines(ls, facts, start).known),
        paths_distinct(scan_lines(ls, facts, start).session),
        agrees_with(scan_lines(ls, facts, start).session, scan_lines(ls, facts, start).known),
        forall|k: Seq<char>| #[trigger] start.known.contains_key(k) ==> scan_lines(ls, facts, start).known.contains_key(k)
            && scan_lines(ls, facts, start).known[k] == start.known[k],
    decreases ls.len(),
{
    if ls.len() > 0 {
        lemma_scan_lines(ls.drop_last(), facts, start);
        lemma_scan_step(scan_lines(ls.drop_last(), facts, start), ls.last(), facts);
    }
}

/// A scan never changes a record already known, under whatever key.
pub proof fn lemma_scan_keeps_known(ls: Seq<Seq<char>>, facts: Seq<PathFacts>, start: ScanView)
    ensures
        forall|k: Seq<char>| #[trigger] start.known.contains_key(k) ==> scan_lines(ls, facts, start).known.contains_key(k)
            && scan_lines(ls, facts, start).known[k] == start.known[k],
    decreases ls.len(),
{
    if ls.len() > 0 {
        lemma_scan_keeps_known(ls.drop_last(), facts, start);
        let st = scan_lines(ls.drop_last(), facts, start);
        assert forall|k: Seq<char>| #[trigger] start.known.contains_key(k) implies scan_lines(ls, facts, start).known.contains_key(k)
            && scan_lines(ls, facts, start).known[k] == start.known[k] by {
            assert(st.known.contains_key(k));
        }
    }
}

/// Whether every line of `log` can be read for a workspace without a
/// panic, the paths they name existing as `facts` says.
pub fn log_is_readable(log: &str, facts: &Vec<PathFacts>) -> (r: bool)
    ensures
        r == log_ok(log@, facts@),
{
    let v = chars_of(log);
    let spans = line_spans(&v);
    let ghost ls = lines(v@);
    let mut i: usize = 0;
    while i < spans.len()
        invariant
            v@ == log@,
            ls == lines(v@),
            spans_view(v@, spans@) == ls,
            spans_within(spans@, v.len() as int),
            i <= spans.len(),
            forall|j: int| 0 <= j < i ==> ws_line_ok(#[trigger] ls[j], facts@),
        decreases spans.len() - i,
    {
        let (a, b) = spans[i];
        let line = subvec(&v, a, b);
        assert(line@ == ls[i as int]);
        if !ws_line_ok_chars(&line, facts) {
            return false;
        }
        i += 1;
    }
    true
}

/// Whether every line of `log` can be cut where a working-directory marker
/// leads (a line that cannot is read with a panic whatever exists).
pub fn wd_markers_readable(log: &str) -> (r: bool)
    ensures
        r == wd_markers_ok(log@),
{
    let v = chars_of(log);
    let spans = line_spans(&v);
    let ghost ls = lines(v@);
    let mut i: usize = 0;
    while i < spans.len()
        invariant
            v@ == log@,
            ls == lines(v@),
            spans_view(v@, spans@) == ls,
            spans_within(spans@, v.len() as int),
            i <= spans.len(),
            forall|j: int| 0 <= j < i ==> wd_marker_ok(#[trigger] ls[j]),
        decreases spans.len() - i,
    {
        let (a, b) = spans[i];
        let line = subvec(&v, a, b);
        assert(line@ == ls[i as int]);
        if !wd_marker_ok_chars(&line) {
            return false;
        }
        i += 1;
    }
    true
}

/// `p` is one of the strings of `r`.
pub open spec fn listed(r: Seq<String>, p: Seq<char>) -> bool {
    exists|j: int| 0 <= j < r.len() && r[j]@ == p
}

/// The candidate `o`, if there is one, is one of the strings of `r`.
pub open spec fn opt_listed(r: Seq<String>, o: Option<Seq<char>>) -> bool {
    match o {
        Some(p) => listed(r, p),
        None => true,
    }
}

/// `line` names `p`, before the check that it exists: as its working
/// directory, or as its git repository where the line can be cut after
/// that marker.
pub open spec fn names(line: Seq<char>, p: Seq<char>) -> bool {
    working_dir_candidate(line) == Some(p) || (marker_ok(line, git_repo_marker())
        && git_repo_candidate(line) == Some(p))
}

/// Some line of `ls` names `p`, before the check that it exists.
pub open spec fn named_in(ls: Seq<Seq<char>>, p: Seq<char>) -> bool {
    exists|i: int| 0 <= i < ls.len() && names(#[trigger] ls[i], p)
}

/// The paths the lines of `log` name, before the check that they exist:
/// the paths whose existence, language and branch a scan of `log` asks.
pub fn log_candidates(log: &str) -> (r: Vec<String>)
    requires
        wd_markers_ok(log@),
    ensures
        forall|i: int| 0 <= i < lines(log@).len() ==> opt_listed(r@, working_dir_candidate(#[trigger] lines(log@)[i]))
            && (marker_ok(lines(log@)[i], git_repo_marker()) ==> opt_listed(r@, git_repo_candidate(lines(log@)[i]))),
        forall|j: int| 0 <= j < r.len() ==> named_in(lines(log@), #[trigger] r@[j]@),
{
    let v = chars_of(log);
    let spans = line_spans(&v);
    let ghost ls = lines(v@);
    let mut r: Vec<String> = Vec::new();
    let mut i: usize = 0;
    while i < spans.len()
        invariant
            v@ == log@,
            ls == lines(v@),
            wd_markers_ok(v@),
            spans_view(v@, spans@) == ls,
            spans_within(spans@, v.len() as int),
            i <= spans.len(),
            forall|k: int| 0 <= k < i ==> opt_listed(r@, working_dir_candidate(#[trigger] ls[k]))
                && (marker_ok(ls[k], git_repo_marker()) ==> opt_listed(r@, git_repo_candidate(ls[k]))),
            forall|j: int| 0 <= j < r.len() ==> named_in(ls, #[trigger] r@[j]@),
        decreases spans.len() - i,
    {
        let (a, b) = spans[i];
        let line = subvec(&v, a, b);
        assert(line@ == ls[i as int]);
        assert(wd_marker_ok(ls[i as int]));
        let ghost before = r@;
        let wd = working_dir_candidate_of(&line);
        let git_ok = git_marker_ok_chars(&line);
        let gr = if git_ok {
            git_repo_candidate_of(&line)
        } else {
            None
        };
        match wd {
            Some(p) => {
                r.push(string_from_chars(p.as_slice()));
            },
            None => {},
        }
        let ghost mid = r@;
        match gr {
            Some(p) => {
                r.push(string_from_chars(p.as_slice()));
            },
            None => {},
        }
        proof {
            assert forall|j: int| 0 <= j < r.len() implies named_in(ls, #[trigger] r@[j]@) by {
                if j < before.len() {
                    assert(r@[j] == before[j]);
                } else {
                    assert(names(ls[i as int], r@[j]@));
                }
            }
            assert forall|k: int| 0 <= k < i + 1 implies opt_listed(r@, working_dir_candidate(#[trigger] ls[k]))
                && (marker_ok(ls[k], git_repo_marker()) ==> opt_listed(r@, git_repo_candidate(ls[k]))) by {
                if k < i {
                    if let Some(p) = working_dir_candidate(ls[k]) {
                        let j = choose|j: int| 0 <= j < before.len() && before[j]@ == p;
                        assert(r@[j] == before[j]);
                    }
                    if marker_ok(ls[k], git_repo_marker()) {
                        if let Some(p) = git_repo_candidate(ls[k]) {
                            let j = choose|j: int| 0 <= j < before.len() && before[j]@ == p;
                            assert(r@[j] == before[j]);
                        }
                    }
                } else {
                    if let Some(p) = working_dir_candidate(ls[k]) {
                        assert(r@[before.len() as int]@ == p);
                    }
                    if marker_ok(ls[k], git_repo_marker()) {
                        if let Some(p) = git_repo_candidate(ls[k]) {
                            assert(r@[mid.len() as int]@ == p);
                        }
                    }
                }
            }
        }
        i += 1;
    }
    r
}

/// Reads a whole log: each line naming an existing workspace makes it
/// known and records it in the session, seen at the time the line carries.
/// `facts` holds what the file system says of the paths the log names.
pub fn scan_full_log(log: &str, known: &mut KnownWorkspaces, facts: &Vec<PathFacts>) -> (r: Vec<TrackedWs>)
    requires
        old(known).wf(),
        log_ok(log@, facts@),
    ensures
        final(known).wf(),
        ({
            let st = scan_lines(
                lines(log@),
                facts@,
                ScanView { known: old(known)@, session: seq![], counter: 0 },
            );
            final(known)@ == st.known && session_view(r@) == st.session
        }),
        well_keyed(old(known)@) ==> well_keyed(final(known)@) && paths_distinct(session_view(r@))
            && agrees_with(session_view(r@), final(known)@),
        forall|k: Seq<char>| #[trigger] old(known)@.contains_key(k) ==> final(known)@.contains_key(k)
            && final(known)@[k] == old(known)@[k],
{
    let ghost start = ScanView { known: known@, session: seq![], counter: 0 };
    let v = chars_of(log);
    let spans = line_spans(&v);
    let ghost ls = lines(v@);
    let mut session: Vec<TrackedWs> = Vec::new();
    let mut counter: u64 = 0;
    let mut i: usize = 0;
    proof {
        assert(ls.take(0) =~= Seq::<Seq<char>>::empty());
        assert(session_view(session@) =~= Seq::<(WorkspaceView, u64)>::empty());
    }
    while i < spans.len()
        invariant
            v@ == log@,
            ls == lines(v@),
            log_ok(v@, facts@),
            spans_view(v@, spans@) == ls,
            spans_within(spans@, v.len() as int),
            i <= spans.len(),
            known.wf(),
            start == (ScanView { known: old(known)@, session: seq![], counter: 0 }),
            ({
                let st = scan_lines(ls.take(i as int), facts@, start);
                known@ == st.known && session_view(session@) == st.session && counter == st.counter
            }),
        decreases spans.len() - i,
    {
        let (a, b) = spans[i];
        let line = subvec(&v, a, b);
        assert(line@ == ls[i as int]);
        assert(ws_line_ok(ls[i as int], facts@));
        let ghost prev = scan_lines(ls.take(i as int), facts@, start);
        proof {
            assert(ls.take(i + 1).drop_last() =~= ls.take(i as int));
            assert(ls.take(i + 1).last() == ls[i as int]);
        }
        match extract_ws_chars(&line, facts) {
            Some(ws) => {
                let ts = timestamp_of(&line, counter);
                let (lang, branch) = match fact_index(facts, &ws) {
                    Some(f) => (facts[f].language.clone(), crate::workspace::copy_opt_string(&facts[f].git_branch)),
                    None => (String::from_str("Unknown"), None),
                };
                let path = string_from_chars(ws.as_slice());
                let info = ensure_workspace_info(path.as_str(), known, lang, branch);
                touch_session(&mut session, &path, info, ts);
                counter = ts.wrapping_add(1);
            },
            None => {},
        }
        i += 1;
    }
    proof {
        assert(ls.take(spans.len() as int) =~= ls);
        if well_keyed(start.known) {
            lemma_scan_lines(ls, facts@, start);
        }
        lemma_scan_keeps_known(ls, facts@, start);
        assert forall|k: Seq<char>| #[trigger] old(known)@.contains_key(k) implies known@.contains_key(k)
            && known@[k] == old(known)@[k] by {
            assert(start.known.contains_key(k));
        }
    }
    session
}

} // verus!
