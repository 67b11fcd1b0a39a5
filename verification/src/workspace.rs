//! What the daemon knows of a workspace, the workspaces it has met, the ones
//! it tracks in the current editor session, and the presence text it shows.
use vstd::prelude::*;
use crate::path::{file_name, path_file_name};

verus! {

/// What the daemon records of one workspace.
pub struct WorkspaceInfo {
    pub workspace_name: String,
    pub workspace_path: String,
    pub language: String,
    pub git_branch: Option<String>,
}

/// The mathematical value of a [`WorkspaceInfo`].
pub struct WorkspaceView {
    pub name: Seq<char>,
    pub path: Seq<char>,
    pub language: Seq<char>,
    pub branch: Option<Seq<char>>,
}

impl View for WorkspaceInfo {
    type V = WorkspaceView;

    open spec fn view(&self) -> WorkspaceView {
        WorkspaceView {
            name: self.workspace_name@,
            path: self.workspace_path@,
            language: self.language@,
            branch: self.git_branch.deep_view(),
        }
    }
}

/// A copy of an optional string.
pub fn copy_opt_string(s: &Option<String>) -> (r: Option<String>)
    ensures
        r.deep_view() == s.deep_view(),
{
    match s {
        Some(x) => Some(x.clone()),
        None => None,
    }
}

impl WorkspaceInfo {
    /// A copy of this record.
    pub fn duplicate(&self) -> (r: WorkspaceInfo)
        ensures
            r@ == self@,
    {
        WorkspaceInfo {
            workspace_name: self.workspace_name.clone(),
            workspace_path: self.workspace_path.clone(),
            language: self.language.clone(),
            git_branch: copy_opt_string(&self.git_branch),
        }
    }
}

/// The name shown for a workspace at `path`: its final path name, or
/// `Untitled` for a path without one.
pub open spec fn display_name(path: Seq<char>) -> Seq<char> {
    match file_name(path) {
        Some(n) => n,
        None => "Untitled"@,
    }
}

/// The record made for a workspace met for the first time at `path`, whose
/// language and branch were found to be `language` and `branch`.
pub open spec fn fresh_info(path: Seq<char>, language: Seq<char>, branch: Option<Seq<char>>) -> WorkspaceView {
    WorkspaceView { name: display_name(path), path, language, branch }
}

/// Makes the record of a workspace met for the first time.
pub fn new_workspace_info(path: &str, language: String, branch: Option<String>) -> (r: WorkspaceInfo)
    ensures
        r@ == fresh_info(path@, language@, branch.deep_view()),
{
    let name = match path_file_name(path) {
        Some(n) => n,
        None => String::from_str("Untitled"),
    };
    WorkspaceInfo {
        workspace_name: name,
        workspace_path: String::from_str(path),
        language,
        git_branch: branch,
    }
}

/// Entry `i` of `entries` is the one recorded under the key `k`.
pub open spec fn has_key(entries: Seq<(String, WorkspaceInfo)>, k: Seq<char>, i: int) -> bool {
    0 <= i < entries.len() && entries[i].0@ == k
}

/// Every key of `m` is the path of the record it maps to. The daemon keeps
/// its map so; a map saved by hand need not be.
pub open spec fn well_keyed(m: Map<Seq<char>, WorkspaceView>) -> bool {
    forall|k: Seq<char>| #[trigger] m.contains_key(k) ==> m[k].path == k
}

/// The map the (key, record) pairs of a saved map describe; a later pair
/// wins over an earlier one with the same key.
pub open spec fn saved_map(pairs: Seq<(String, WorkspaceInfo)>) -> Map<Seq<char>, WorkspaceView>
    decreases pairs.len(),
{
    if pairs.len() == 0 {
        Map::empty()
    } else {
        saved_map(pairs.drop_last()).insert(pairs.last().0@, pairs.last().1@)
    }
}

/// The workspaces the daemon has met, each under a key: the path it was
/// met at, or the key a saved map gave it.
pub struct KnownWorkspaces {
    entries: Vec<(String, WorkspaceInfo)>,
}

impl View for KnownWorkspaces {
    type V = Map<Seq<char>, WorkspaceView>;

    closed spec fn view(&self) -> Map<Seq<char>, WorkspaceView> {
        Map::new(
            |k: Seq<char>| exists|i: int| has_key(self.entries@, k, i),
            |k: Seq<char>| self.entries@[choose|i: int| has_key(self.entries@, k, i)].1@,
        )
    }
}

impl KnownWorkspaces {
    /// No two records share a key.
    pub closed spec fn wf(&self) -> bool {
        forall|i: int, j: int|
            0 <= i < j < self.entries.len() ==> (#[trigger] self.entries@[i]).0@
                != (#[trigger] self.entries@[j]).0@
    }

    /// The number of workspaces met.
    pub closed spec fn count(&self) -> nat {
        self.entries@.len()
    }

    proof fn lemma_view_at(&self, k: Seq<char>, i: int)
        requires
            self.wf(),
            has_key(self.entries@, k, i),
        ensures
            self@.contains_key(k),
            self@[k] == self.entries@[i].1@,
    {
        let c = choose|c: int| has_key(self.entries@, k, c);
        assert(has_key(self.entries@, k, c));
        if c < i {
            assert(self.entries@[c].0@ != self.entries@[i].0@);
        } else if i < c {
            assert(self.entries@[i].0@ != self.entries@[c].0@);
        }
    }

    /// The map has as many keys as there are records.
    pub proof fn lemma_count(&self)
        requires
            self.wf(),
        ensures
            self@.dom().finite(),
            self@.dom().len() == self.count(),
    {
        let e = self.entries@;
        let keys = e.map_values(|w: (String, WorkspaceInfo)| w.0@);
        assert(keys.no_duplicates()) by {
            assert forall|i: int, j: int| 0 <= i < keys.len() && 0 <= j < keys.len() && i != j
                implies keys[i] != keys[j] by {
                if i < j {
                    assert(e[i].0@ != e[j].0@);
                } else {
                    assert(e[j].0@ != e[i].0@);
                }
            }
        }
        assert(self@.dom() =~= keys.to_set()) by {
            assert forall|k: Seq<char>| self@.dom().contains(k) implies keys.to_set().contains(k) by {
                let c = choose|c: int| has_key(e, k, c);
                assert(keys[c] == k);
            }
            assert forall|k: Seq<char>| keys.to_set().contains(k) implies self@.dom().contains(k) by {
                let c = choose|c: int| 0 <= c < keys.len() && keys[c] == k;
                assert(has_key(e, k, c));
            }
        }
        keys.unique_seq_to_set();
    }

    /// No workspace met yet.
    pub fn new() -> (r: KnownWorkspaces)
        ensures
            r.wf(),
            r@ == Map::<Seq<char>, WorkspaceView>::empty(),
    {
        let r = KnownWorkspaces { entries: Vec::new() };
        assert(r@ =~= Map::<Seq<char>, WorkspaceView>::empty());
        r
    }

    /// The number of workspaces met.
    pub fn len(&self) -> (n: usize)
        ensures
            n == self.count(),
            self.wf() ==> n == self@.dom().len(),
    {
        proof {
            if self.wf() {
                self.lemma_count();
            }
        }
        self.entries.len()
    }

    /// The position of the record under `key`, if there is one.
    fn position(&self, key: &String) -> (r: Option<usize>)
        requires
            self.wf(),
        ensures
            match r {
                Some(i) => has_key(self.entries@, key@, i as int),
                None => forall|i: int| !has_key(self.entries@, key@, i),
            },
    {
        let mut i: usize = 0;
        while i < self.entries.len()
            invariant
                i <= self.entries.len(),
                forall|j: int| 0 <= j < i ==> !has_key(self.entries@, key@, j),
            decreases self.entries.len() - i,
        {
            if self.entries[i].0 == *key {
                return Some(i);
            }
            i += 1;
        }
        None
    }

    /// The record under the key `path`, if the workspace has been met.
    pub fn get(&self, path: &String) -> (r: Option<WorkspaceInfo>)
        requires
            self.wf(),
        ensures
            match r {
                Some(info) => self@.contains_key(path@) && info@ == self@[path@],
                None => !self@.contains_key(path@),
            },
    {
        match self.position(path) {
            Some(i) => {
                proof {
                    self.lemma_view_at(path@, i as int);
                }
                Some(self.entries[i].1.duplicate())
            },
            None => None,
        }
    }

    /// Records `info` under `key`, replacing what was recorded there.
    fn insert_keyed(&mut self, key: String, info: WorkspaceInfo)
        requires
            old(self).wf(),
        ensures
            final(self).wf(),
            final(self)@ == old(self)@.insert(key@, info@),
    {
        let ghost k = key@;
        let ghost v = info@;
        let ghost old_self = *self;
        match self.position(&key) {
            Some(i) => {
                self.entries.set(i, (key, info));
                proof {
                    assert forall|a: int, b: int|
                        0 <= a < b < self.entries.len() implies (
                        #[trigger] self.entries@[a]).0@ != (
                        #[trigger] self.entries@[b]).0@ by {
                        assert(old_self.entries@[a].0@ != old_self.entries@[b].0@);
                    }
                    self.lemma_view_at(k, i as int);
                    assert forall|q: Seq<char>| #[trigger] self@.contains_key(q) == old_self@.insert(k, v).contains_key(q) by {
                        if q != k {
                            if exists|c: int| has_key(old_self.entries@, q, c) {
                                let c = choose|c: int| has_key(old_self.entries@, q, c);
                                assert(has_key(self.entries@, q, c));
                            }
                            if exists|c: int| has_key(self.entries@, q, c) {
                                let c = choose|c: int| has_key(self.entries@, q, c);
                                assert(has_key(old_self.entries@, q, c));
                            }
                        }
                    }
                    assert forall|q: Seq<char>| #[trigger] self@.contains_key(q) implies self@[q] == old_self@.insert(k, v)[q] by {
                        if q != k {
                            let c = choose|c: int| has_key(self.entries@, q, c);
                            assert(has_key(self.entries@, q, c));
                            assert(has_key(old_self.entries@, q, c));
                            self.lemma_view_at(q, c);
                            old_self.lemma_view_at(q, c);
                        }
                    }
                    assert(self@ =~= old_self@.insert(k, v));
                }
            },
            None => {
                self.entries.push((key, info));
                proof {
                    let n = old_self.entries.len() as int;
                    assert(has_key(self.entries@, k, n));
                    assert forall|a: int, b: int|
                        0 <= a < b < self.entries.len() implies (
                        #[trigger] self.entries@[a]).0@ != (
                        #[trigger] self.entries@[b]).0@ by {
                        if b < n {
                            assert(old_self.entries@[a].0@ != old_self.entries@[b].0@);
                        } else {
                            assert(!has_key(old_self.entries@, k, a));
                        }
                    }
                    self.lemma_view_at(k, n);
                    assert forall|q: Seq<char>| #[trigger] self@.contains_key(q) == old_self@.insert(k, v).contains_key(q) by {
                        if q != k {
                            if exists|c: int| has_key(old_self.entries@, q, c) {
                                let c = choose|c: int| has_key(old_self.entries@, q, c);
                                assert(has_key(self.entries@, q, c));
                            }
                            if exists|c: int| has_key(self.entries@, q, c) {
                                let c = choose|c: int| has_key(self.entries@, q, c);
                                assert(c != n);
                                assert(has_key(old_self.entries@, q, c));
                            }
                        }
                    }
                    assert forall|q: Seq<char>| #[trigger] self@.contains_key(q) implies self@[q] == old_self@.insert(k, v)[q] by {
                        if q != k {
                            let c = choose|c: int| has_key(self.entries@, q, c);
                            assert(has_key(self.entries@, q, c));
                            assert(c != n);
                            assert(has_key(old_self.entries@, q, c));
                            self.lemma_view_at(q, c);
                            old_self.lemma_view_at(q, c);
                        }
                    }
                    assert(self@ =~= old_self@.insert(k, v));
                }
            },
        }
    }

    /// Records `info` under its own path, replacing what was recorded there.
    pub fn insert(&mut self, info: WorkspaceInfo)
        requires
            old(self).wf(),
        ensures
            final(self).wf(),
            final(self)@ == old(self)@.insert(info@.path, info@),
    {
        let key = info.workspace_path.clone();
        self.insert_keyed(key, info);
    }

    /// Builds the known workspaces from a saved map, given as (key, record)
    /// pairs, each record under its key.
    pub fn from_saved(pairs: &Vec<(String, WorkspaceInfo)>) -> (r: KnownWorkspaces)
        ensures
            r.wf(),
            r@ == saved_map(pairs@),
    {
        let mut k = KnownWorkspaces::new();
        let mut i: usize = 0;
        assert(pairs@.take(0) =~= Seq::<(String, WorkspaceInfo)>::empty());
        while i < pairs.len()
            invariant
                i <= pairs.len(),
                k.wf(),
                k@ == saved_map(pairs@.take(i as int)),
            decreases pairs.len() - i,
        {
            assert(pairs@.take(i + 1).drop_last() =~= pairs@.take(i as int));
            assert(pairs@.take(i + 1).last() == pairs@[i as int]);
            k.insert_keyed(pairs[i].0.clone(), pairs[i].1.duplicate());
            i += 1;
        }
        assert(pairs@.take(pairs.len() as int) =~= pairs@);
        k
    }

    /// A copy of the known workspaces.
    pub fn duplicate(&self) -> (r: KnownWorkspaces)
        requires
            self.wf(),
        ensures
            r.wf(),
            r@ == self@,
    {
        let mut entries: Vec<(String, WorkspaceInfo)> = Vec::new();
        let mut i: usize = 0;
        while i < self.entries.len()
            invariant
                self.wf(),
                i <= self.entries.len(),
                entries.len() == i,
                forall|j: int| 0 <= j < i ==> (#[trigger] entries@[j]).0@ == self.entries@[j].0@
                    && entries@[j].1@ == self.entries@[j].1@,
            decreases self.entries.len() - i,
        {
            entries.push((self.entries[i].0.clone(), self.entries[i].1.duplicate()));
            i += 1;
        }
        let r = KnownWorkspaces { entries };
        proof {
            assert(r.wf()) by {
                assert forall|a: int, b: int| 0 <= a < b < r.entries.len() implies (
                #[trigger] r.entries@[a]).0@ != (#[trigger] r.entries@[b]).0@ by {
                    assert(self.entries@[a].0@ != self.entries@[b].0@);
                }
            }
            assert forall|k: Seq<char>| #[trigger] r@.contains_key(k) == self@.contains_key(k) by {
                if exists|c: int| has_key(self.entries@, k, c) {
                    let c = choose|c: int| has_key(self.entries@, k, c);
                    assert(has_key(r.entries@, k, c));
                }
                if exists|c: int| has_key(r.entries@, k, c) {
                    let c = choose|c: int| has_key(r.entries@, k, c);
                    assert(has_key(self.entries@, k, c));
                }
            }
            assert forall|k: Seq<char>| #[trigger] r@.contains_key(k) implies r@[k] == self@[k] by {
                let c = choose|c: int| has_key(r.entries@, k, c);
                assert(has_key(r.entries@, k, c));
                assert(has_key(self.entries@, k, c));
                r.lemma_view_at(k, c);
                self.lemma_view_at(k, c);
            }
            assert(r@ =~= self@);
        }
        r
    }

    /// Copies of the (key, record) pairs, one per workspace met.
    pub fn pairs(&self) -> (r: Vec<(String, WorkspaceInfo)>)
        requires
            self.wf(),
        ensures
            r.len() == self.count(),
            forall|i: int| 0 <= i < r.len() ==> self@.contains_key(#[trigger] r@[i].0@)
                && self@[r@[i].0@] == r@[i].1@,
            forall|k: Seq<char>| #[trigger] self@.contains_key(k) ==> exists|i: int|
                0 <= i < r.len() && r@[i].0@ == k,
    {
        let mut r: Vec<(String, WorkspaceInfo)> = Vec::new();
        let mut i: usize = 0;
        while i < self.entries.len()
            invariant
                self.wf(),
                i <= self.entries.len(),
                r.len() == i,
                forall|j: int| 0 <= j < i ==> (#[trigger] r@[j]).0@ == self.entries@[j].0@
                    && r@[j].1@ == self.entries@[j].1@,
            decreases self.entries.len() - i,
        {
            r.push((self.entries[i].0.clone(), self.entries[i].1.duplicate()));
            i += 1;
        }
        proof {
            assert forall|j: int| 0 <= j < r.len() implies self@.contains_key(#[trigger] r@[j].0@)
                && self@[r@[j].0@] == r@[j].1@ by {
                assert(has_key(self.entries@, r@[j].0@, j));
                self.lemma_view_at(r@[j].0@, j);
            }
            assert forall|k: Seq<char>| #[trigger] self@.contains_key(k) implies exists|j: int|
                0 <= j < r.len() && r@[j].0@ == k by {
                let c = choose|c: int| has_key(self.entries@, k, c);
                assert(r@[c].0@ == k);
            }
        }
        r
    }
}

/// Ensures the workspace at `path` is known, and returns its record: the one
/// already known, or else a fresh one made from `language` and `branch`,
/// which is then recorded.
pub fn ensure_workspace_info(
    path: &str,
    known: &mut KnownWorkspaces,
    language: String,
    branch: Option<String>,
) -> (r: WorkspaceInfo)
    requires
        old(known).wf(),
    ensures
        final(known).wf(),
        r@ == ensured_info(old(known)@, path@, language@, branch.deep_view()),
        final(known)@ == ensured_known(old(known)@, path@, language@, branch.deep_view()),
{
    let key = String::from_str(path);
    match known.get(&key) {
        Some(info) => info,
        None => {
            let info = new_workspace_info(path, language, branch);
            known.insert(info.duplicate());
            info
        },
    }
}

/// A workspace seen in the current editor session, and when it was last seen.
pub struct TrackedWs {
    pub info: WorkspaceInfo,
    pub last_seen: u64,
}

impl TrackedWs {
    /// A copy of this entry.
    pub fn duplicate(&self) -> (r: TrackedWs)
        ensures
            r.info@ == self.info@,
            r.last_seen == self.last_seen,
    {
        TrackedWs { info: self.info.duplicate(), last_seen: self.last_seen }
    }
}

/// The session as (record, last seen) pairs.
pub open spec fn session_view(s: Seq<TrackedWs>) -> Seq<(WorkspaceView, u64)> {
    s.map_values(|t: TrackedWs| (t.info@, t.last_seen))
}

/// Entry `i` is the first one of the session for the workspace at `path`.
pub open spec fn entry_at(s: Seq<(WorkspaceView, u64)>, path: Seq<char>, i: int) -> bool {
    &&& 0 <= i < s.len()
    &&& s[i].0.path == path
    &&& forall|j: int| 0 <= j < i ==> (#[trigger] s[j]).0.path != path
}

/// The position of the first entry of the session for the workspace at `path`.
pub open spec fn entry_for(s: Seq<(WorkspaceView, u64)>, path: Seq<char>) -> Option<int> {
    if exists|i: int| entry_at(s, path, i) {
        Some(choose|i: int| entry_at(s, path, i))
    } else {
        None
    }
}

/// The session after the workspace at `path` was seen at `ts`: its entry
/// gets the new time, or, if it has none, `info` is added, seen at `ts`.
pub open spec fn touch(
    s: Seq<(WorkspaceView, u64)>,
    path: Seq<char>,
    info: WorkspaceView,
    ts: u64,
) -> Seq<(WorkspaceView, u64)> {
    match entry_for(s, path) {
        Some(i) => s.update(i, (s[i].0, ts)),
        None => s.push((info, ts)),
    }
}

/// No two entries of the session are for the same path.
pub open spec fn paths_distinct(s: Seq<(WorkspaceView, u64)>) -> bool {
    forall|i: int, j: int| 0 <= i < j < s.len() ==> (#[trigger] s[i]).0.path != (#[trigger] s[j]).0.path
}

/// Every entry of the session holds what `known` holds for its path.
pub open spec fn agrees_with(s: Seq<(WorkspaceView, u64)>, known: Map<Seq<char>, WorkspaceView>) -> bool {
    forall|i: int| 0 <= i < s.len() ==> known.contains_key((#[trigger] s[i]).0.path) && known[s[i].0.path] == s[i].0
}

/// The record `ensure_workspace_info` returns.
pub open spec fn ensured_info(
    known: Map<Seq<char>, WorkspaceView>,
    path: Seq<char>,
    language: Seq<char>,
    branch: Option<Seq<char>>,
) -> WorkspaceView {
    if known.contains_key(path) {
        known[path]
    } else {
        fresh_info(path, language, branch)
    }
}

/// The known workspaces after `ensure_workspace_info`.
pub open spec fn ensured_known(
    known: Map<Seq<char>, WorkspaceView>,
    path: Seq<char>,
    language: Seq<char>,
    branch: Option<Seq<char>>,
) -> Map<Seq<char>, WorkspaceView> {
    if known.contains_key(path) {
        known
    } else {
        known.insert(path, fresh_info(path, language, branch))
    }
}

/// The first entry for a path is the one `entry_for` gives.
pub proof fn lemma_entry_first(s: Seq<(WorkspaceView, u64)>, path: Seq<char>, i: int)
    requires
        entry_at(s, path, i),
    ensures
        entry_for(s, path) == Some(i),
{
    let c = choose|c: int| entry_at(s, path, c);
    assert(entry_at(s, path, c));
    if c < i {
        assert(s[c].0.path == path);
    } else if i < c {
        assert(s[i].0.path == path);
    }
}

/// A session holding `path` somewhere has a first entry for it.
pub proof fn lemma_first_entry(s: Seq<(WorkspaceView, u64)>, path: Seq<char>, j: int)
    requires
        0 <= j < s.len(),
        s[j].0.path == path,
    ensures
        entry_for(s, path) is Some,
    decreases j,
{
    if forall|m: int| 0 <= m < j ==> (#[trigger] s[m]).0.path != path {
        assert(entry_at(s, path, j));
    } else {
        let m = choose|m: int| 0 <= m < j && (#[trigger] s[m]).0.path == path;
        lemma_first_entry(s, path, m);
    }
}

/// Touching a session free of duplicate paths with a record for the same
/// path keeps it free of them.
pub proof fn lemma_touch_distinct(s: Seq<(WorkspaceView, u64)>, path: Seq<char>, info: WorkspaceView, ts: u64)
    requires
        paths_distinct(s),
        info.path == path,
    ensures
        paths_distinct(touch(s, path, info, ts)),
{
    let t = touch(s, path, info, ts);
    match entry_for(s, path) {
        Some(i) => {
            assert forall|a: int, b: int| 0 <= a < b < t.len() implies (#[trigger] t[a]).0.path != (#[trigger] t[b]).0.path by {
                assert(t[a].0 == s[a].0);
                assert(t[b].0 == s[b].0);
            }
        },
        None => {
            assert forall|a: int, b: int| 0 <= a < b < t.len() implies (#[trigger] t[a]).0.path != (#[trigger] t[b]).0.path by {
                if b < s.len() {
                    assert(s[a].0.path != s[b].0.path);
                } else {
                    assert(t[a] == s[a]);
                    if s[a].0.path == path {
                        lemma_first_entry(s, path, a);
                    }
                }
            }
        },
    }
}

/// Records that the workspace at `path` was seen at `ts`, adding `info`
/// if the session has no entry for it.
pub fn touch_session(session: &mut Vec<TrackedWs>, path: &String, info: WorkspaceInfo, ts: u64)
    ensures
        session_view(final(session)@) == touch(session_view(old(session)@), path@, info@, ts),
{
    let ghost sv = session_view(session@);
    let mut i: usize = 0;
    while i < session.len()
        invariant
            i <= session.len(),
            sv == session_view(session@),
            sv == session_view(old(session)@),
            forall|j: int| 0 <= j < i ==> (#[trigger] sv[j]).0.path != path@,
        decreases session.len() - i,
    {
        if session[i].info.workspace_path == *path {
            proof {
                assert(entry_at(sv, path@, i as int));
                lemma_entry_first(sv, path@, i as int);
            }
            let mut t = session[i].duplicate();
            t.last_seen = ts;
            session.set(i, t);
            proof {
                assert(session_view(session@) =~= sv.update(i as int, (sv[i as int].0, ts)));
            }
            return;
        }
        i += 1;
    }
    session.push(TrackedWs { info, last_seen: ts });
    proof {
        assert(session_view(session@) =~= sv.push((info@, ts)));
    }
}

/// A copy of a session.
pub fn copy_session(session: &Vec<TrackedWs>) -> (r: Vec<TrackedWs>)
    ensures
        session_view(r@) == session_view(session@),
{
    let mut r: Vec<TrackedWs> = Vec::new();
    let mut i: usize = 0;
    while i < session.len()
        invariant
            i <= session.len(),
            r.len() == i,
            forall|j: int| 0 <= j < i ==> (#[trigger] r@[j]).info@ == session@[j].info@
                && r@[j].last_seen == session@[j].last_seen,
        decreases session.len() - i,
    {
        r.push(session[i].duplicate());
        i += 1;
    }
    assert(session_view(r@) =~= session_view(session@));
    r
}

/// Whether the session has an entry for the workspace at `path`.
pub fn has_entry(session: &Vec<TrackedWs>, path: &String) -> (r: bool)
    ensures
        r == (entry_for(session_view(session@), path@) is Some),
{
    let ghost sv = session_view(session@);
    let mut i: usize = 0;
    while i < session.len()
        invariant
            i <= session.len(),
            sv == session_view(session@),
            forall|j: int| 0 <= j < i ==> (#[trigger] sv[j]).0.path != path@,
        decreases session.len() - i,
    {
        if session[i].info.workspace_path == *path {
            proof {
                assert(entry_at(sv, path@, i as int));
                lemma_entry_first(sv, path@, i as int);
            }
            return true;
        }
        i += 1;
    }
    proof {
        if entry_for(sv, path@) is Some {
            let c = choose|c: int| entry_at(sv, path@, c);
            assert(entry_at(sv, path@, c));
            assert(sv[c].0.path == path@);
        }
    }
    false
}

/// Entry `i` is the one `Iterator::max_by_key` picks by last-seen time:
/// none is seen later, and every later entry is seen earlier.
pub open spec fn latest_at(s: Seq<(WorkspaceView, u64)>, i: int) -> bool {
    &&& 0 <= i < s.len()
    &&& forall|j: int| 0 <= j < s.len() ==> (#[trigger] s[j]).1 <= s[i].1
    &&& forall|j: int| i < j < s.len() ==> (#[trigger] s[j]).1 < s[i].1
}

/// The position `Iterator::max_by_key` picks by last-seen time.
pub open spec fn latest(s: Seq<(WorkspaceView, u64)>) -> Option<int> {
    if exists|i: int| latest_at(s, i) {
        Some(choose|i: int| latest_at(s, i))
    } else {
        None
    }
}

/// Only one position is the latest.
pub proof fn lemma_latest_unique(s: Seq<(WorkspaceView, u64)>, i: int)
    requires
        latest_at(s, i),
    ensures
        latest(s) == Some(i),
{
    let c = choose|c: int| latest_at(s, c);
    assert(latest_at(s, c));
    if c < i {
        assert(s[i].1 < s[c].1);
        assert(s[i].1 <= s[i].1);
    } else if i < c {
        assert(s[c].1 < s[i].1);
    }
}

/// A session with an entry has a latest one: an entry no other entry was
/// seen after, and every later entry was seen before.
pub proof fn lemma_latest_exists(s: Seq<(WorkspaceView, u64)>)
    requires
        s.len() > 0,
    ensures
        latest(s) matches Some(i) && latest_at(s, i),
    decreases s.len(),
{
    if s.len() == 1 {
        assert(latest_at(s, 0));
        lemma_latest_unique(s, 0);
    } else {
        let d = s.drop_last();
        lemma_latest_exists(d);
        let i0 = latest(d)->0;
        let n = s.len() - 1;
        if s[n].1 >= s[i0].1 {
            assert forall|j: int| 0 <= j < s.len() implies (#[trigger] s[j]).1 <= s[n].1 by {
                if j < n {
                    assert(d[j] == s[j]);
                    assert(d[j].1 <= d[i0].1);
                }
            }
            assert(latest_at(s, n));
            lemma_latest_unique(s, n);
        } else {
            assert forall|j: int| 0 <= j < s.len() implies (#[trigger] s[j]).1 <= s[i0].1 by {
                if j < n {
                    assert(d[j] == s[j]);
                    assert(d[j].1 <= d[i0].1);
                }
            }
            assert forall|j: int| i0 < j < s.len() implies (#[trigger] s[j]).1 < s[i0].1 by {
                if j < n {
                    assert(d[j] == s[j]);
                    assert(d[j].1 < d[i0].1);
                }
            }
            assert(d[i0] == s[i0]);
            assert(latest_at(s, i0));
            lemma_latest_unique(s, i0);
        }
    }
}

/// The position of the workspace of the session seen most recently; of
/// several seen at the same time, the one tracked last.
pub fn latest_index(session: &[TrackedWs]) -> (r: Option<usize>)
    ensures
        match r {
            Some(i) => latest(session_view(session@)) == Some(i as int) && i < session@.len(),
            None => latest(session_view(session@)) is None && session@.len() == 0,
        },
{
    let ghost sv = session_view(session@);
    if session.len() == 0 {
        return None;
    }
    let mut best: usize = 0;
    let mut i: usize = 1;
    while i < session.len()
        invariant
            1 <= i <= session@.len(),
            sv == session_view(session@),
            best < i,
            forall|j: int| 0 <= j < i ==> (#[trigger] sv[j]).1 <= sv[best as int].1,
            forall|j: int| best < j < i ==> (#[trigger] sv[j]).1 < sv[best as int].1,
        decreases session@.len() - i,
    {
        if session[i].last_seen >= session[best].last_seen {
            best = i;
        }
        i += 1;
    }
    proof {
        assert(latest_at(sv, best as int));
        lemma_latest_unique(sv, best as int);
    }
    Some(best)
}

/// The workspace of the session seen most recently; of several seen at the
/// same time, the one tracked last.
pub fn pick_active(session: &[TrackedWs]) -> (r: Option<&TrackedWs>)
    ensures
        r is None <==> session@.len() == 0,
        match r {
            Some(t) => latest(session_view(session@)) matches Some(i) && *t == session@[i],
            None => true,
        },
{
    match latest_index(session) {
        Some(i) => Some(&session[i]),
        None => None,
    }
}

} // verus!
