//! The daemon's decisions, one event at a time: the editor starting or
//! closing, the state file changing, and new lines in the editor's log.
//! Each step takes what the daemon observed and says what to show next.
use vstd::prelude::*;
use vstd::wrapping::u64_specs;
use crate::logscan::{
    extract_ws, extract_ws_chars, fact_index, fresh_branch, fresh_language, log_ok, scan_full_log,
    scan_lines, store_count, store_count_of, PathFacts, ScanView,
};
use crate::daemon::now;
use crate::ordering::{by_recency, lemma_by_recency, lemma_by_recency_distinct, max_seen, sort_by_recency};
use crate::text::{chars_of, contains, find_seq, line_spans, lines, spans_view, spans_within, string_from_chars, subvec};
use crate::workspace::{
    copy_session, has_entry, copy_opt_string, ensure_workspace_info, ensured_info, ensured_known, entry_at, entry_for,
    latest, latest_at, latest_index, lemma_entry_first, lemma_latest_exists, lemma_first_entry, lemma_touch_distinct, paths_distinct, session_view, touch, touch_session, well_keyed,
    KnownWorkspaces, TrackedWs, WorkspaceInfo, WorkspaceView,
};

verus! {

/// What a poll of the process table means for the daemon.
pub enum Phase {
    /// The editor has just started.
    Started,
    /// The editor is still running.
    Running,
    /// The editor has just closed: the presence is to be cleared.
    Closed,
    /// The editor is still not running.
    Idle,
}

/// What the daemon keeps between polls.
pub struct Daemon {
    pub known: KnownWorkspaces,
    pub session: Vec<TrackedWs>,
    pub was_running: bool,
    pub last_sent_path: Option<String>,
    pub prev_store_count: Option<usize>,
    pub last_content: String,
}

/// An optional count as a mathematical number.
pub open spec fn opt_nat(o: Option<usize>) -> Option<nat> {
    match o {
        Some(n) => Some(n as nat),
        None => None,
    }
}

/// The presence state after part of a log chunk: the session, the path
/// last shown, and the workspaces sent to the presence so far.
pub struct Presence {
    pub session: Seq<(WorkspaceView, u64)>,
    pub last_sent: Option<Seq<char>>,
    pub sends: Seq<WorkspaceView>,
}

/// What reading a chunk of new log lines has gathered so far.
pub struct ChunkView {
    pub known: Map<Seq<char>, WorkspaceView>,
    pub session: Seq<(WorkspaceView, u64)>,
    pub window_gone: bool,
    pub stopping: bool,
    pub store: Option<nat>,
    pub newest: Option<Seq<char>>,
    pub newest_ts: u64,
}

/// One more line of a chunk, read at time `now`: it may report a window
/// gone, a language server stopping, a store count (the last one counts),
/// and an existing workspace, which becomes known and is seen at `now`; it
/// is the newest of the chunk unless one was seen later.
pub open spec fn chunk_step(cv: ChunkView, line: Seq<char>, facts: Seq<PathFacts>, now: u64) -> ChunkView {
    let window_gone = cv.window_gone || contains(line, "window not found"@);
    let stopping = cv.stopping || contains(line, "stopping language server"@);
    let store = match store_count(line) {
        Some(n) => Some(n),
        None => cv.store,
    };
    match extract_ws(line, facts) {
        Some(ws) => {
            let lang = fresh_language(facts, ws);
            let branch = fresh_branch(facts, ws);
            ChunkView {
                known: ensured_known(cv.known, ws, lang, branch),
                session: touch(cv.session, ws, ensured_info(cv.known, ws, lang, branch), now),
                window_gone,
                stopping,
                store,
                newest: if now >= cv.newest_ts {
                    Some(ws)
                } else {
                    cv.newest
                },
                newest_ts: if now >= cv.newest_ts {
                    now
                } else {
                    cv.newest_ts
                },
            }
        },
        None => ChunkView {
            known: cv.known,
            session: cv.session,
            window_gone,
            stopping,
            store,
            newest: cv.newest,
            newest_ts: cv.newest_ts,
        },
    }
}

/// A chunk's lines `ls`, each read at the time `times` gives at its
/// position, from `start`.
pub open spec fn chunk_lines(ls: Seq<Seq<char>>, facts: Seq<PathFacts>, times: Seq<u64>, start: ChunkView) -> ChunkView
    decreases ls.len(),
{
    if ls.len() == 0 {
        start
    } else {
        chunk_step(
            chunk_lines(ls.drop_last(), facts, times.take(ls.len() - 1), start),
            ls.last(),
            facts,
            times[ls.len() - 1],
        )
    }
}

/// After a chunk: the newest workspace it named is seen one second after
/// `now`, the time once the chunk is read, and is shown unless it already
/// is.
pub open spec fn settle_newest(
    session: Seq<(WorkspaceView, u64)>,
    last_sent: Option<Seq<char>>,
    newest: Option<Seq<char>>,
    now: u64,
) -> Presence {
    match newest {
        Some(nw) => match entry_for(session, nw) {
            Some(i) => Presence {
                session: session.update(i, (session[i].0, u64_specs::wrapping_add(now, 1))),
                last_sent: Some(nw),
                sends: if last_sent == Some(nw) {
                    seq![]
                } else {
                    seq![session[i].0]
                },
            },
            None => Presence { session, last_sent, sends: seq![] },
        },
        None => Presence { session, last_sent, sends: seq![] },
    }
}

/// What a window closing does to the presence: when a chunk reported a
/// window gone or a language server stopping, the session holds more than
/// one workspace, and the store count fell, the workspace seen most
/// recently is dropped and the most recent of the rest is shown unless it
/// already is.
pub open spec fn after_close(p: Presence, signal: bool, store: Option<nat>, prev: Option<nat>) -> (
    Presence,
    Option<nat>,
    Option<WorkspaceView>,
) {
    if signal && p.session.len() > 1 {
        match store {
            Some(sc) => if prev matches Some(pv) && sc < pv {
                let sorted = by_recency(p.session);
                let rest = sorted.drop_first();
                let act = rest[latest(rest)->0].0;
                (
                    Presence {
                        session: rest,
                        last_sent: Some(act.path),
                        sends: if p.last_sent == Some(act.path) {
                            p.sends
                        } else {
                            p.sends.push(act)
                        },
                    },
                    Some(sc),
                    Some(sorted[0].0),
                )
            } else {
                (p, Some(sc), None)
            },
            None => (p, prev, None),
        }
    } else {
        match store {
            Some(sc) => (p, Some(sc), None),
            None => (p, prev, None),
        }
    }
}

/// What nothing of a chunk has been read yet gathers.
pub open spec fn chunk_start(known: Map<Seq<char>, WorkspaceView>, session: Seq<(WorkspaceView, u64)>) -> ChunkView {
    ChunkView { known, session, window_gone: false, stopping: false, store: None, newest: None, newest_ts: 0 }
}

/// What a chunk of new log lines does to the daemon, from the state with
/// `known`, `session`, `last_sent` and `prev`, when its lines are read at
/// the times `times` gives and the clock reads `later` once they are.
pub open spec fn chunk_effect(
    chunk: Seq<char>,
    facts: Seq<PathFacts>,
    times: Seq<u64>,
    later: u64,
    known: Map<Seq<char>, WorkspaceView>,
    session: Seq<(WorkspaceView, u64)>,
    last_sent: Option<Seq<char>>,
    prev: Option<nat>,
) -> (ChunkView, Presence, Option<nat>, Option<WorkspaceView>) {
    let cv = chunk_lines(lines(chunk), facts, times, chunk_start(known, session));
    let p1 = settle_newest(cv.session, last_sent, cv.newest, later);
    let (p2, prev2, removed) = after_close(p1, cv.window_gone || cv.stopping, cv.store, prev);
    (cv, p2, prev2, removed)
}

/// What `on_log_chunk` hands back: the workspaces to show, in order, the
/// workspace dropped for a closed window, the store counts before and
/// after the drop, and whether the last workspace to show is the one the
/// daemon switched to after the drop.
pub struct ChunkOutcome {
    pub sends: Vec<WorkspaceInfo>,
    pub removed: Option<WorkspaceInfo>,
    pub store_drop: Option<(usize, usize)>,
    pub switched: bool,
}

/// Touching keeps every entry's path where it was and gives `ws` an entry.
proof fn lemma_touch_paths(
    s: Seq<(WorkspaceView, u64)>,
    ws: Seq<char>,
    info: WorkspaceView,
    ts: u64,
)
    requires
        info.path == ws,
    ensures
        entry_for(touch(s, ws, info, ts), ws) is Some,
        forall|p: Seq<char>| entry_for(s, p) is Some ==> #[trigger] entry_for(touch(s, ws, info, ts), p) is Some,
{
    let t = touch(s, ws, info, ts);
    assert(t.len() >= s.len());
    assert forall|m: int| 0 <= m < s.len() implies (#[trigger] t[m]).0 == s[m].0 by {}
    assert forall|p: Seq<char>| entry_for(s, p) is Some implies #[trigger] entry_for(t, p) is Some by {
        let i = choose|i: int| entry_at(s, p, i);
        assert(entry_at(s, p, i));
        assert(t[i].0 == s[i].0);
        assert forall|m: int| 0 <= m < i implies (#[trigger] t[m]).0.path != p by {
            assert(t[m].0 == s[m].0);
        }
        assert(entry_at(t, p, i));
    }
    match entry_for(s, ws) {
        Some(i) => {
            assert(entry_at(s, ws, i));
            assert forall|m: int| 0 <= m < i implies (#[trigger] t[m]).0.path != ws by {
                assert(t[m].0 == s[m].0);
            }
            assert(entry_at(t, ws, i));
        },
        None => {
            let n = s.len() as int;
            assert forall|j: int| 0 <= j < n implies (#[trigger] t[j]).0.path != ws by {
                assert(t[j].0 == s[j].0);
                if s[j].0.path == ws {
                    lemma_first_entry(s, ws, j);
                }
            }
            assert(entry_at(t, ws, n));
        },
    }
}

/// Reading a chunk keeps the known workspaces keyed by path, and the newest
/// workspace it names has an entry in the session.
proof fn lemma_chunk_lines(ls: Seq<Seq<char>>, facts: Seq<PathFacts>, times: Seq<u64>, start: ChunkView)
    requires
        well_keyed(start.known),
        paths_distinct(start.session),
        start.newest matches Some(nw) ==> entry_for(start.session, nw) is Some,
    ensures
        well_keyed(chunk_lines(ls, facts, times, start).known),
        paths_distinct(chunk_lines(ls, facts, times, start).session),
        forall|k: Seq<char>| #[trigger] start.known.contains_key(k) ==> chunk_lines(ls, facts, times, start).known.contains_key(k)
            && chunk_lines(ls, facts, times, start).known[k] == start.known[k],
        chunk_lines(ls, facts, times, start).newest matches Some(nw) ==> entry_for(
            chunk_lines(ls, facts, times, start).session,
            nw,
        ) is Some,
    decreases ls.len(),
{
    if ls.len() > 0 {
        let d = ls.drop_last();
        let t = times.take(ls.len() - 1);
        let now = times[ls.len() - 1];
        lemma_chunk_lines(d, facts, t, start);
        let cv = chunk_lines(d, facts, t, start);
        match extract_ws(ls.last(), facts) {
            Some(ws) => {
                let lang = fresh_language(facts, ws);
                let branch = fresh_branch(facts, ws);
                let info = ensured_info(cv.known, ws, lang, branch);
                assert(info.path == ws);
                lemma_touch_paths(cv.session, ws, info, now);
                lemma_touch_distinct(cv.session, ws, info, now);
                let k2 = ensured_known(cv.known, ws, lang, branch);
                assert forall|k: Seq<char>| #[trigger] k2.contains_key(k) implies k2[k].path == k by {
                    if k != ws {
                        assert(cv.known.contains_key(k));
                    }
                }
            },
            None => {},
        }
    }
}

/// Reading lines never changes a record already known, under whatever key.
proof fn lemma_chunk_lines_keep(ls: Seq<Seq<char>>, facts: Seq<PathFacts>, times: Seq<u64>, start: ChunkView)
    ensures
        forall|k: Seq<char>| #[trigger] start.known.contains_key(k) ==> chunk_lines(ls, facts, times, start).known.contains_key(k)
            && chunk_lines(ls, facts, times, start).known[k] == start.known[k],
    decreases ls.len(),
{
    if ls.len() > 0 {
        let d = ls.drop_last();
        let t = times.take(ls.len() - 1);
        lemma_chunk_lines_keep(d, facts, t, start);
        let cv = chunk_lines(d, facts, t, start);
        assert forall|k: Seq<char>| #[trigger] start.known.contains_key(k) implies chunk_lines(ls, facts, times, start).known.contains_key(k)
            && chunk_lines(ls, facts, times, start).known[k] == start.known[k] by {
            assert(cv.known.contains_key(k));
        }
    }
}

/// The chunk's lines, read at `times` from `known` and `session`, leave
/// the newest workspace they name with an entry in the session (the daemon
/// looks it up and unwraps what it finds).
pub open spec fn chunk_settles(
    known: Map<Seq<char>, WorkspaceView>,
    session: Seq<(WorkspaceView, u64)>,
    chunk: Seq<char>,
    facts: Seq<PathFacts>,
    times: Seq<u64>,
) -> bool {
    let cv = chunk_lines(lines(chunk), facts, times, chunk_start(known, session));
    cv.newest matches Some(nw) ==> entry_for(cv.session, nw) is Some
}

/// A daemon whose records are all under their own paths and whose session
/// holds each path once always finds the newest workspace of a chunk.
pub proof fn lemma_consistent_chunk_settles(
    known: Map<Seq<char>, WorkspaceView>,
    session: Seq<(WorkspaceView, u64)>,
    chunk: Seq<char>,
    facts: Seq<PathFacts>,
    times: Seq<u64>,
)
    requires
        well_keyed(known),
        paths_distinct(session),
    ensures
        chunk_settles(known, session, chunk, facts, times),
{
    lemma_chunk_lines(lines(chunk), facts, times, chunk_start(known, session));
}

/// Reading a chunk of log lines never changes the record of a workspace
/// already known: records are only added, for workspaces met for the first
/// time, each under its own path; records all under their own paths stay
/// so.
pub proof fn lemma_chunk_keeps_known(
    chunk: Seq<char>,
    facts: Seq<PathFacts>,
    times: Seq<u64>,
    later: u64,
    known: Map<Seq<char>, WorkspaceView>,
    session: Seq<(WorkspaceView, u64)>,
    last_sent: Option<Seq<char>>,
    prev: Option<nat>,
)
    ensures
        well_keyed(known) && paths_distinct(session) ==> well_keyed(
            chunk_effect(chunk, facts, times, later, known, session, last_sent, prev).0.known,
        ),
        forall|k: Seq<char>| #[trigger] known.contains_key(k) ==> ({
            let after = chunk_effect(chunk, facts, times, later, known, session, last_sent, prev).0.known;
            after.contains_key(k) && after[k] == known[k]
        }),
{
    let start = chunk_start(known, session);
    if well_keyed(known) && paths_distinct(session) {
        lemma_chunk_lines(lines(chunk), facts, times, start);
    }
    lemma_chunk_lines_keep(lines(chunk), facts, times, start);
    let after = chunk_lines(lines(chunk), facts, times, start).known;
    assert(chunk_effect(chunk, facts, times, later, known, session, last_sent, prev).0.known == after);
    assert forall|k: Seq<char>| #[trigger] known.contains_key(k) implies after.contains_key(k) && after[k] == known[k] by {
        assert(start.known.contains_key(k));
    }
}

/// No workspace of `sends` is the one shown just before it; `shown` is the
/// one shown before the first.
pub open spec fn sends_fresh(shown: Option<Seq<char>>, sends: Seq<WorkspaceView>) -> bool {
    forall|k: int|
        0 <= k < sends.len() ==> Some((#[trigger] sends[k]).path) != (if k == 0 {
            shown
        } else {
            Some(sends[k - 1].path)
        })
}

/// After a chunk, the newest workspace's entry keeps its record, so a
/// session free of duplicate paths stays so; a workspace is shown only when it
/// is not the one shown, and the one shown is the last one sent.
proof fn lemma_settle(session: Seq<(WorkspaceView, u64)>, last_sent: Option<Seq<char>>, newest: Option<Seq<char>>, now: u64)
    requires
        newest matches Some(nw) ==> entry_for(session, nw) is Some,
    ensures
        paths_distinct(session) ==> paths_distinct(settle_newest(session, last_sent, newest, now).session),
        settle_newest(session, last_sent, newest, now).session.len() == session.len(),
        sends_fresh(last_sent, settle_newest(session, last_sent, newest, now).sends),
        settle_newest(session, last_sent, newest, now).sends.len() == 0 ==> settle_newest(session, last_sent, newest, now).last_sent == last_sent,
        settle_newest(session, last_sent, newest, now).sends.len() > 0 ==> settle_newest(session, last_sent, newest, now).last_sent
            == Some(settle_newest(session, last_sent, newest, now).sends.last().path),
{
    match newest {
        Some(nw) => {
            let i = entry_for(session, nw)->0;
            assert(entry_at(session, nw, i));
            let t = session.update(i, (session[i].0, u64_specs::wrapping_add(now, 1)));
            if paths_distinct(session) {
                assert forall|a: int, b: int| 0 <= a < b < t.len() implies (#[trigger] t[a]).0.path != (#[trigger] t[b]).0.path by {
                    assert(t[a].0 == session[a].0);
                    assert(t[b].0 == session[b].0);
                }
            }
        },
        None => {},
    }
}

/// A window close keeps a session free of duplicate paths so, shows a
/// workspace only when it is not the one shown, and leaves the last one
/// sent shown.
pub proof fn lemma_after_close(p: Presence, signal: bool, store: Option<nat>, prev: Option<nat>, shown: Option<Seq<char>>)
    requires
        sends_fresh(shown, p.sends),
        p.sends.len() == 0 ==> p.last_sent == shown,
        p.sends.len() > 0 ==> p.last_sent == Some(p.sends.last().path),
    ensures
        paths_distinct(p.session) ==> paths_distinct(after_close(p, signal, store, prev).0.session),
        sends_fresh(shown, after_close(p, signal, store, prev).0.sends),
        after_close(p, signal, store, prev).0.sends.len() > 0 ==> after_close(p, signal, store, prev).0.last_sent
            == Some(after_close(p, signal, store, prev).0.sends.last().path),
        after_close(p, signal, store, prev).2 matches Some(w) ==> ({
            &&& after_close(p, signal, store, prev).0.session.len() + 1 == p.session.len()
            &&& exists|i: int| 0 <= i < p.session.len() && p.session[i].0 == w && p.session[i].1 == max_seen(p.session)
        }),
{
    let (p2, prev2, removed) = after_close(p, signal, store, prev);
    if signal && p.session.len() > 1 {
        if let Some(sc) = store {
            if prev matches Some(pv) && sc < pv {
                let sorted = by_recency(p.session);
                lemma_by_recency(p.session);
                let rest = sorted.drop_first();
                if paths_distinct(p.session) {
                    lemma_by_recency_distinct(p.session);
                    assert forall|a: int, b: int| 0 <= a < b < rest.len() implies (#[trigger] rest[a]).0.path != (#[trigger] rest[b]).0.path by {
                        assert(sorted[a + 1].0.path != sorted[b + 1].0.path);
                    }
                }
                assert(sorted.contains(sorted[0]));
                assert(p.session.contains(sorted[0]));
                let i = choose|i: int| 0 <= i < p.session.len() && p.session[i] == sorted[0];
                assert(p.session[i].0 == sorted[0].0 && p.session[i].1 == max_seen(p.session));
                if !(p.last_sent == Some(p2.last_sent->0)) {
                    let n = p.sends.len() as int;
                    assert forall|k: int| 0 <= k < p2.sends.len() implies Some((#[trigger] p2.sends[k]).path) != (if k == 0 {
                        shown
                    } else {
                        Some(p2.sends[k - 1].path)
                    }) by {
                        if k < n {
                            assert(p2.sends[k] == p.sends[k]);
                            if k > 0 {
                                assert(p2.sends[k - 1] == p.sends[k - 1]);
                            }
                        } else if k > 0 {
                            assert(p2.sends[k - 1] == p.sends[k - 1]);
                        }
                    }
                }
            }
        }
    }
}

/// `after` and `r` are what reading the lines of `chunk` at the times
/// `times`, with the clock at `later` once they are read, makes of the
/// daemon `before`: the known workspaces, the session, the path shown and
/// the store count that `chunk_effect` gives, the workspaces to show, and
/// the workspace dropped for a closed window with the store counts before
/// and after.
pub open spec fn chunk_done(
    before: Daemon,
    after: Daemon,
    r: ChunkOutcome,
    chunk: Seq<char>,
    facts: Seq<PathFacts>,
    times: Seq<u64>,
    later: u64,
) -> bool {
    let (cv, p, prev, removed) = chunk_effect(
        chunk,
        facts,
        times,
        later,
        before.known@,
        session_view(before.session@),
        before.last_sent_path.deep_view(),
        opt_nat(before.prev_store_count),
    );
    &&& after.known@ == cv.known
    &&& session_view(after.session@) == p.session
    &&& after.last_sent_path.deep_view() == p.last_sent
    &&& opt_nat(after.prev_store_count) == prev
    &&& r.sends@.map_values(|w: WorkspaceInfo| w@) == p.sends
    &&& r.switched == (p.sends.len() > settle_newest(
        cv.session,
        before.last_sent_path.deep_view(),
        cv.newest,
        later,
    ).sends.len())
    &&& match removed {
        Some(w) => {
            &&& r.removed matches Some(x) && x@ == w
            &&& r.store_drop matches Some((a, b)) && opt_nat(before.prev_store_count) == Some(a as nat)
                && prev == Some(b as nat)
        },
        None => r.removed is None && r.store_drop is None,
    }
}

/// Reads the lines of a chunk, at the times `times` gives, into the known
/// workspaces and the session: what `chunk_lines` gathers, with whether a
/// window was reported gone, whether a language server stopped, the last
/// store count and the newest workspace.
fn read_chunk(
    known: &mut KnownWorkspaces,
    session: &mut Vec<TrackedWs>,
    chunk: &str,
    facts: &Vec<PathFacts>,
    times: &Vec<u64>,
) -> (r: (bool, bool, Option<usize>, Option<String>))
    requires
        old(known).wf(),
        log_ok(chunk@, facts@),
        times@.len() == lines(chunk@).len(),
    ensures
        final(known).wf(),
        ({
            let cv = chunk_lines(lines(chunk@), facts@, times@, chunk_start(old(known)@, session_view(old(session)@)));
            &&& final(known)@ == cv.known
            &&& session_view(final(session)@) == cv.session
            &&& r.0 == cv.window_gone
            &&& r.1 == cv.stopping
            &&& opt_nat(r.2) == cv.store
            &&& r.3.deep_view() == cv.newest
        }),
{
        let ghost start = chunk_start(known@, session_view(session@));
        let v = chars_of(chunk);
        let spans = line_spans(&v);
        let ghost ls = lines(v@);
        let gone_pat = chars_of("window not found");
        let stop_pat = chars_of("stopping language server");
        let mut window_gone = false;
        let mut stopping = false;
        let mut store: Option<usize> = None;
        let mut newest: Option<String> = None;
        let mut newest_ts: u64 = 0;
        let mut i: usize = 0;
        proof {
            assert(ls.take(0) =~= Seq::<Seq<char>>::empty());
        }
        while i < spans.len()
            invariant
                v@ == chunk@,
                ls == lines(v@),
                log_ok(v@, facts@),
                gone_pat@ == "window not found"@,
                stop_pat@ == "stopping language server"@,
                spans_view(v@, spans@) == ls,
                spans_within(spans@, v.len() as int),
                i <= spans.len(),
                times@.len() == ls.len(),
                known.wf(),
                start == chunk_start(old(known)@, session_view(old(session)@)),
                ({
                    let cv = chunk_lines(ls.take(i as int), facts@, times@.take(i as int), start);
                    &&& known@ == cv.known
                    &&& session_view(session@) == cv.session
                    &&& window_gone == cv.window_gone
                    &&& stopping == cv.stopping
                    &&& opt_nat(store) == cv.store
                    &&& newest.deep_view() == cv.newest
                    &&& newest_ts == cv.newest_ts
                }),
            decreases spans.len() - i,
        {
            let (a, b) = spans[i];
            let line = subvec(&v, a, b);
            assert(line@ == ls[i as int]);
            assert(crate::logscan::ws_line_ok(ls[i as int], facts@));
            proof {
                assert(ls.take(i + 1).drop_last() =~= ls.take(i as int));
                assert(ls.take(i + 1).last() == ls[i as int]);
                assert(times@.take(i + 1).take(i as int) =~= times@.take(i as int));
                assert(times@.take(i + 1)[i as int] == times@[i as int]);
            }
            let now = times[i];
            if find_seq(&line, &gone_pat).is_some() {
                window_gone = true;
            }
            if find_seq(&line, &stop_pat).is_some() {
                stopping = true;
            }
            match store_count_of(&line) {
                Some(sc) => {
                    store = Some(sc);
                },
                None => {},
            }
            match extract_ws_chars(&line, facts) {
                Some(ws) => {
                    let (lang, branch) = match fact_index(facts, &ws) {
                        Some(f) => (facts[f].language.clone(), copy_opt_string(&facts[f].git_branch)),
                        None => (String::from_str("Unknown"), None),
                    };
                    let path = string_from_chars(ws.as_slice());
                    let info = ensure_workspace_info(path.as_str(), known, lang, branch);
                    touch_session(session, &path, info, now);
                    if now >= newest_ts {
                        newest_ts = now;
                        newest = Some(path);
                    }
                },
                None => {},
            }
            i += 1;
        }
        proof {
            assert(ls.take(spans.len() as int) =~= ls);
            assert(times@.take(spans.len() as int) =~= times@);
        }
        (window_gone, stopping, store, newest)
}

/// What reading `chunk` at `times`, with the clock at `later` after, gives:
/// `None` with the daemon unchanged where the newest workspace would not be
/// found afterwards, else what `chunk_done` says.
pub open spec fn chunk_read(
    before: Daemon,
    after: Daemon,
    r: Option<ChunkOutcome>,
    chunk: Seq<char>,
    facts: Seq<PathFacts>,
    times: Seq<u64>,
    later: u64,
) -> bool {
    match r {
        None => !chunk_settles(before.known@, session_view(before.session@), chunk, facts, times)
            && after == before,
        Some(o) => chunk_settles(before.known@, session_view(before.session@), chunk, facts, times)
            && chunk_done(before, after, o, chunk, facts, times, later),
    }
}

/// Some entry of `s` for the workspace at `path` was seen no earlier than
/// any entry of `s`.
pub open spec fn seen_last(s: Seq<(WorkspaceView, u64)>, path: Seq<char>) -> bool {
    exists|i: int|
        0 <= i < s.len() && (#[trigger] s[i]).0.path == path && forall|j: int|
            0 <= j < s.len() ==> (#[trigger] s[j]).1 <= s[i].1
}

/// When a window closes, the daemon switches to a workspace left in the
/// session that no other left entry was seen after: that one is shown
/// afterwards, and it is sent, after what was sent before, unless it
/// already was the one shown.
pub proof fn lemma_close_switches_to_most_recent(p: Presence, signal: bool, store: Option<nat>, prev: Option<nat>)
    ensures
        after_close(p, signal, store, prev).2 is Some ==> (after_close(p, signal, store, prev).0.last_sent matches Some(lp)
            && seen_last(after_close(p, signal, store, prev).0.session, lp) && if p.last_sent == Some(lp) {
            after_close(p, signal, store, prev).0.sends == p.sends
        } else {
            &&& after_close(p, signal, store, prev).0.sends.len() == p.sends.len() + 1
            &&& after_close(p, signal, store, prev).0.sends.drop_last() == p.sends
            &&& after_close(p, signal, store, prev).0.sends.last().path == lp
        }),
{
    if after_close(p, signal, store, prev).2 is Some {
        let sorted = by_recency(p.session);
        crate::ordering::lemma_by_recency_len(p.session);
        let rest = sorted.drop_first();
        lemma_latest_exists(rest);
        let i = latest(rest)->0;
        assert(latest_at(rest, i));
        let q = after_close(p, signal, store, prev).0;
        assert(q.session == rest);
        assert(seen_last(q.session, rest[i].0.path));
        if !(p.last_sent == Some(rest[i].0.path)) {
            assert(q.sends.drop_last() =~= p.sends);
        }
    }
}

/// When a chunk of log lines closes a window, the workspace shown
/// afterwards is one of those left in the session that no other left entry
/// was seen after, and the session holds one entry fewer than before the
/// close.
pub proof fn lemma_chunk_close_switches_to_most_recent(
    chunk: Seq<char>,
    facts: Seq<PathFacts>,
    times: Seq<u64>,
    later: u64,
    known: Map<Seq<char>, WorkspaceView>,
    session: Seq<(WorkspaceView, u64)>,
    last_sent: Option<Seq<char>>,
    prev: Option<nat>,
)
    ensures
        chunk_effect(chunk, facts, times, later, known, session, last_sent, prev).3 is Some ==> ({
            let (cv, p, prev2, removed) = chunk_effect(chunk, facts, times, later, known, session, last_sent, prev);
            &&& p.last_sent matches Some(lp) && seen_last(p.session, lp)
            &&& p.session.len() + 1 == cv.session.len()
        }),
{
    let cv = chunk_lines(lines(chunk), facts, times, chunk_start(known, session));
    let p1 = settle_newest(cv.session, last_sent, cv.newest, later);
    lemma_close_switches_to_most_recent(p1, cv.window_gone || cv.stopping, cv.store, prev);
    if after_close(p1, cv.window_gone || cv.stopping, cv.store, prev).2 is Some {
        crate::ordering::lemma_by_recency_len(p1.session);
        assert(p1.session.len() == cv.session.len()) by {
            match cv.newest {
                Some(nw) => {
                    if entry_for(cv.session, nw) is Some {
                    }
                },
                None => {},
            }
        }
    }
}

impl Daemon {
    /// The daemon's state is well formed: no two known records share a key.
    pub open spec fn wf(&self) -> bool {
        self.known.wf()
    }

    /// Every known record is under its own path and the session holds at
    /// most one entry per path: so the daemon keeps its state, from known
    /// workspaces it met itself (a map saved by hand may key a record
    /// otherwise).
    pub open spec fn consistent(&self) -> bool {
        &&& well_keyed(self.known@)
        &&& paths_distinct(session_view(self.session@))
    }

    /// A daemon that has met the workspaces `known` and has not yet seen
    /// the editor run.
    pub fn new(known: KnownWorkspaces) -> (r: Daemon)
        requires
            known.wf(),
        ensures
            r.wf(),
            well_keyed(known@) ==> r.consistent(),
            r.known@ == known@,
            r.session@.len() == 0,
            !r.was_running,
            r.last_sent_path is None,
            r.prev_store_count is None,
            r.last_content@ == Seq::<char>::empty(),
    {
        Daemon {
            known,
            session: Vec::new(),
            was_running: false,
            last_sent_path: None,
            prev_store_count: None,
            last_content: String::new(),
        }
    }

    /// Takes note of whether the editor runs now. When it has just started,
    /// nothing is taken as shown and the store count is forgotten; when it
    /// has just closed, the session is emptied as well.
    pub fn poll(&mut self, running: bool) -> (r: Phase)
        requires
            old(self).wf(),
        ensures
            final(self).wf(),
            old(self).consistent() ==> final(self).consistent(),
            final(self).was_running == running,
            final(self).known@ == old(self).known@,
            final(self).last_content@ == old(self).last_content@,
            running && !old(self).was_running ==> r is Started && final(self).last_sent_path is None
                && final(self).prev_store_count is None && final(self).session@ == old(self).session@,
            running && old(self).was_running ==> r is Running && final(self).last_sent_path.deep_view()
                == old(self).last_sent_path.deep_view() && final(self).prev_store_count
                == old(self).prev_store_count && final(self).session@ == old(self).session@,
            !running && old(self).was_running ==> r is Closed && final(self).last_sent_path is None
                && final(self).prev_store_count is None && final(self).session@.len() == 0,
            !running && !old(self).was_running ==> r is Idle && final(self).last_sent_path.deep_view()
                == old(self).last_sent_path.deep_view() && final(self).prev_store_count
                == old(self).prev_store_count && final(self).session@ == old(self).session@,
    {
        if running {
            if !self.was_running {
                self.was_running = true;
                self.last_sent_path = None;
                self.prev_store_count = None;
                Phase::Started
            } else {
                Phase::Running
            }
        } else if self.was_running {
            self.last_sent_path = None;
            self.session = Vec::new();
            self.prev_store_count = None;
            self.was_running = false;
            Phase::Closed
        } else {
            Phase::Idle
        }
    }

    /// The editor has started: the whole log (when it could be read) gives
    /// the session, and the workspace seen most recently in it is shown.
    pub fn on_started(&mut self, log: Option<&str>, facts: &Vec<PathFacts>) -> (r: Option<WorkspaceInfo>)
        requires
            old(self).wf(),
            log matches Some(l) ==> log_ok(l@, facts@),
        ensures
            final(self).wf(),
            old(self).consistent() ==> final(self).consistent(),
            final(self).was_running == old(self).was_running,
            final(self).prev_store_count == old(self).prev_store_count,
            final(self).last_content@ == old(self).last_content@,
            match log {
                Some(l) => {
                    let st = scan_lines(
                        lines(l@),
                        facts@,
                        ScanView { known: old(self).known@, session: seq![], counter: 0 },
                    );
                    final(self).known@ == st.known && session_view(final(self).session@) == st.session
                },
                None => final(self).known@ == old(self).known@ && final(self).session@ == old(
                    self,
                ).session@,
            },
            match latest(session_view(final(self).session@)) {
                Some(i) => r matches Some(info) && info@ == session_view(final(self).session@)[i].0
                    && final(self).last_sent_path.deep_view() == Some(info@.path),
                None => r is None && final(self).last_sent_path.deep_view()
                    == old(self).last_sent_path.deep_view(),
            },
    {
        match log {
            Some(l) => {
                self.session = scan_full_log(l, &mut self.known, facts);
            },
            None => {},
        }
        match latest_index(self.session.as_slice()) {
            Some(i) => {
                let info = self.session[i].info.duplicate();
                self.last_sent_path = Some(info.workspace_path.clone());
                Some(info)
            },
            None => None,
        }
    }

    /// The state file now holds `content`, which reads as `parsed` (`None`
    /// when it is not a workspace record). New content naming a workspace
    /// makes it known under its path and seen at `now`, and shows it
    /// unless it already is.
    pub fn on_state_file(&mut self, content: String, parsed: Option<WorkspaceInfo>, now: u64) -> (r: Option<WorkspaceInfo>)
        requires
            old(self).wf(),
        ensures
            final(self).wf(),
            old(self).consistent() ==> final(self).consistent(),
            final(self).was_running == old(self).was_running,
            final(self).prev_store_count == old(self).prev_store_count,
            (content@ != old(self).last_content@ && parsed is Some) ==> ({
                let info = parsed->0;
                &&& final(self).known@ == old(self).known@.insert(info@.path, info@)
                &&& final(self).last_content@ == content@
                &&& session_view(final(self).session@) == touch(session_view(old(self).session@), info@.path, info@, now)
                &&& final(self).last_sent_path.deep_view() == Some(info@.path)
                &&& if old(self).last_sent_path.deep_view() == Some(info@.path) {
                    r is None
                } else {
                    r matches Some(x) && x@ == info@
                }
            }),
            !(content@ != old(self).last_content@ && parsed is Some) ==> ({
                &&& r is None
                &&& final(self).known@ == old(self).known@
                &&& final(self).last_content@ == old(self).last_content@
                &&& final(self).session@ == old(self).session@
                &&& final(self).last_sent_path.deep_view() == old(self).last_sent_path.deep_view()
            }),
    {
        if content == self.last_content {
            return None;
        }
        match parsed {
            Some(info) => {
                let ghost known_before = self.known@;
                self.known.insert(info.duplicate());
                self.last_content = content;
                let path = info.workspace_path.clone();
                let ghost before = session_view(self.session@);
                touch_session(&mut self.session, &path, info.duplicate(), now);
                proof {
                    if paths_distinct(before) {
                        lemma_touch_distinct(before, path@, info@, now);
                    }
                    if well_keyed(known_before) {
                        assert forall|k: Seq<char>| #[trigger] self.known@.contains_key(k) implies self.known@[k].path == k by {
                            if k != info@.path {
                                assert(known_before.contains_key(k));
                            }
                        }
                    }
                }
                let already = match &self.last_sent_path {
                    Some(p) => *p == path,
                    None => false,
                };
                self.last_sent_path = Some(path);
                if already {
                    None
                } else {
                    Some(info)
                }
            },
            None => None,
        }
    }

    /// New lines `chunk` appeared in the editor's log; the clock read
    /// `times[i]` when line `i` was read, and `later` once all were.
    /// `facts` holds what the file system says of the paths they name.
    pub fn on_log_chunk_at(&mut self, chunk: &str, facts: &Vec<PathFacts>, times: &Vec<u64>, later: u64) -> (r: ChunkOutcome)
        requires
            old(self).wf(),
            log_ok(chunk@, facts@),
            times@.len() == lines(chunk@).len(),
            chunk_settles(old(self).known@, session_view(old(self).session@), chunk@, facts@, times@),
        ensures
            final(self).wf(),
            old(self).consistent() ==> final(self).consistent(),
            final(self).was_running == old(self).was_running,
            final(self).last_content@ == old(self).last_content@,
            chunk_done(*old(self), *final(self), r, chunk@, facts@, times@, later),
            sends_fresh(old(self).last_sent_path.deep_view(), r.sends@.map_values(|w: WorkspaceInfo| w@)),
            r.sends@.len() > 0 ==> final(self).last_sent_path.deep_view() == Some(r.sends@.last()@.path),
    {
        let ghost start = chunk_start(self.known@, session_view(self.session@));
        let ghost ls = lines(chunk@);
        let (window_gone, stopping, store, newest) = read_chunk(&mut self.known, &mut self.session, chunk, facts, times);
        proof {
            if old(self).consistent() {
                lemma_chunk_lines(ls, facts@, times@, start);
            }
        }
        let ghost cv = chunk_lines(ls, facts@, times@, start);
        let mut sends: Vec<WorkspaceInfo> = Vec::new();
        // The newest workspace of the chunk.
        match &newest {
            Some(nw) => {
                let k = self.find_entry(nw);
                let mut t = self.session[k].duplicate();
                t.last_seen = later.wrapping_add(1);
                let info = t.info.duplicate();
                self.session.set(k, t);
                let already = match &self.last_sent_path {
                    Some(p) => *p == *nw,
                    None => false,
                };
                if !already {
                    sends.push(info);
                }
                self.last_sent_path = Some(nw.clone());
                proof {
                    assert(session_view(self.session@) =~= cv.session.update(
                        k as int,
                        (cv.session[k as int].0, u64_specs::wrapping_add(later, 1)),
                    ));
                }
            },
            None => {},
        }
        let ghost p1 = settle_newest(cv.session, old(self).last_sent_path.deep_view(), cv.newest, later);
        proof {
            lemma_settle(cv.session, old(self).last_sent_path.deep_view(), cv.newest, later);
            lemma_after_close(
                p1,
                cv.window_gone || cv.stopping,
                cv.store,
                opt_nat(old(self).prev_store_count),
                old(self).last_sent_path.deep_view(),
            );
            assert(sends@.map_values(|w: WorkspaceInfo| w@) =~= p1.sends);
            assert(session_view(self.session@) == p1.session);
            assert(self.last_sent_path.deep_view() == p1.last_sent);
            assert(opt_nat(store) == cv.store);
            assert((window_gone || stopping) == (cv.window_gone || cv.stopping));
        }
        let ghost res = after_close(
            p1,
            cv.window_gone || cv.stopping,
            cv.store,
            opt_nat(old(self).prev_store_count),
        );
        // A closed window.
        let mut removed: Option<WorkspaceInfo> = None;
        let mut store_drop: Option<(usize, usize)> = None;
        let mut switched = false;
        if (window_gone || stopping) && self.session.len() > 1 {
            match store {
                Some(sc) => {
                    match self.prev_store_count {
                        Some(pv) => {
                            if sc < pv {
                                store_drop = Some((pv, sc));
                                let mut s: Vec<TrackedWs> = Vec::new();
                                std::mem::swap(&mut s, &mut self.session);
                                let mut sorted = sort_by_recency(s);
                                let ghost sorted_v = by_recency(p1.session);
                                proof {
                                    crate::ordering::lemma_by_recency_len(p1.session);
                                    assert(session_view(sorted@) == sorted_v);
                                }
                                let first = sorted.remove(0);
                                proof {
                                    assert(session_view(sorted@) =~= sorted_v.drop_first());
                                    assert(first.info@ == sorted_v[0].0);
                                }
                                removed = Some(first.info);
                                self.session = sorted;
                                let j = match latest_index(self.session.as_slice()) {
                                    Some(j) => j,
                                    None => {
                                        proof {
                                            assert(false);
                                        }
                                        0
                                    },
                                };
                                let act = self.session[j].info.duplicate();
                                let already = match &self.last_sent_path {
                                    Some(p) => *p == act.workspace_path,
                                    None => false,
                                };
                                self.last_sent_path = Some(act.workspace_path.clone());
                                let ghost before = sends@;
                                if !already {
                                    switched = true;
                                    sends.push(act);
                                    proof {
                                        assert(sends@.map_values(|w: WorkspaceInfo| w@) =~= before.map_values(
                                            |w: WorkspaceInfo| w@,
                                        ).push(session_view(self.session@)[j as int].0));
                                    }
                                }
                                proof {
                                    assert(res.0.session == session_view(self.session@));
                                    assert(res.0.last_sent == self.last_sent_path.deep_view());
                                    assert(res.0.sends == sends@.map_values(|w: WorkspaceInfo| w@));
                                    assert(res.2 matches Some(w) && removed matches Some(x) && x@ == w);
                                }
                            }
                        },
                        None => {},
                    }
                    self.prev_store_count = Some(sc);
                },
                None => {},
            }
        } else {
            match store {
                Some(sc) => {
                    self.prev_store_count = Some(sc);
                },
                None => {},
            }
        }
        ChunkOutcome { sends, removed, store_drop, switched }
    }

    /// Whether the daemon finds the newest workspace of `chunk`, read at
    /// `times`, in its session afterwards (where it does not, the daemon
    /// fails unwrapping what it looked up).
    pub fn chunk_settles_at(&self, chunk: &str, facts: &Vec<PathFacts>, times: &Vec<u64>) -> (r: bool)
        requires
            self.wf(),
            log_ok(chunk@, facts@),
            times@.len() == lines(chunk@).len(),
        ensures
            r == chunk_settles(self.known@, session_view(self.session@), chunk@, facts@, times@),
    {
        let mut known = self.known.duplicate();
        let mut session = copy_session(&self.session);
        let (_, _, _, newest) = read_chunk(&mut known, &mut session, chunk, facts, times);
        match newest {
            Some(nw) => has_entry(&session, &nw),
            None => true,
        }
    }

    /// New lines `chunk` appeared in the editor's log. Each line is taken as
    /// read at the time the clock gives for it, and the newest workspace as
    /// seen one second after the clock's time once all are; `facts` holds
    /// what the file system says of the paths the lines name. The clock's
    /// readings are not known in advance: what holds is stated for some
    /// reading for each line and one after them. `None`, with nothing
    /// changed, where for those readings the newest workspace would not be
    /// found in the session afterwards (the daemon then fails); never for a
    /// consistent daemon.
    pub fn on_log_chunk(&mut self, chunk: &str, facts: &Vec<PathFacts>) -> (r: Option<ChunkOutcome>)
        requires
            old(self).wf(),
            log_ok(chunk@, facts@),
        ensures
            final(self).wf(),
            old(self).consistent() ==> final(self).consistent() && r is Some,
            final(self).was_running == old(self).was_running,
            final(self).last_content@ == old(self).last_content@,
            exists|times: Seq<u64>, later: u64|
                times.len() == lines(chunk@).len() && #[trigger] chunk_read(
                    *old(self),
                    *final(self),
                    r,
                    chunk@,
                    facts@,
                    times,
                    later,
                ),
            r matches Some(o) ==> sends_fresh(old(self).last_sent_path.deep_view(), o.sends@.map_values(|w: WorkspaceInfo| w@)),
            r matches Some(o) ==> (o.sends@.len() > 0 ==> final(self).last_sent_path.deep_view() == Some(o.sends@.last()@.path)),
    {
        let v = chars_of(chunk);
        let n = line_spans(&v).len();
        let mut times: Vec<u64> = Vec::new();
        while times.len() < n
            invariant
                times.len() <= n,
            decreases n - times.len(),
        {
            times.push(now());
        }
        let later = now();
        let ghost before = *self;
        if !self.chunk_settles_at(chunk, facts, &times) {
            proof {
                if before.consistent() {
                    lemma_consistent_chunk_settles(before.known@, session_view(before.session@), chunk@, facts@, times@);
                }
            }
            assert(chunk_read(before, *self, None, chunk@, facts@, times@, later));
            return None;
        }
        let r = self.on_log_chunk_at(chunk, facts, &times, later);
        assert(chunk_read(before, *self, Some(r), chunk@, facts@, times@, later));
        Some(r)
    }

    /// The position of the first entry of the session for `path`, which
    /// has one.
    fn find_entry(&self, path: &String) -> (k: usize)
        requires
            entry_for(session_view(self.session@), path@) is Some,
        ensures
            entry_for(session_view(self.session@), path@) == Some(k as int),
            k < self.session@.len(),
    {
        let ghost sv = session_view(self.session@);
        let mut i: usize = 0;
        while i < self.session.len()
            invariant
                i <= self.session.len(),
                sv == session_view(self.session@),
                entry_for(sv, path@) is Some,
                forall|j: int| 0 <= j < i ==> (#[trigger] sv[j]).0.path != path@,
            decreases self.session.len() - i,
        {
            if self.session[i].info.workspace_path == *path {
                proof {
                    assert(entry_at(sv, path@, i as int));
                    lemma_entry_first(sv, path@, i as int);
                }
                return i;
            }
            i += 1;
        }
        proof {
            let c = choose|c: int| entry_at(sv, path@, c);
            assert(entry_at(sv, path@, c));
            assert(sv[c].0.path == path@);
        }
        0
    }
}

} // verus!
