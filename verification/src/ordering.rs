//! Ordering a session by how recently each workspace was seen: most recent
//! first, workspaces seen at the same time in the order they were tracked
//! (what a stable sort by descending last-seen time gives).
use vstd::prelude::*;
use crate::workspace::{paths_distinct, session_view, TrackedWs, WorkspaceView};

verus! {

/// The latest last-seen time in `s` (0 for an empty session).
pub open spec fn max_seen(s: Seq<(WorkspaceView, u64)>) -> u64
    decreases s.len(),
{
    if s.len() == 0 {
        0
    } else {
        let m = max_seen(s.drop_last());
        if s.len() == 1 || s.last().1 > m {
            s.last().1
        } else {
            m
        }
    }
}

/// The entries of `s` last seen at `t`, in order.
pub open spec fn seen_at(s: Seq<(WorkspaceView, u64)>, t: u64) -> Seq<(WorkspaceView, u64)>
    decreases s.len(),
{
    if s.len() == 0 {
        s
    } else if s.last().1 == t {
        seen_at(s.drop_last(), t).push(s.last())
    } else {
        seen_at(s.drop_last(), t)
    }
}

/// The entries of `s` not last seen at `t`, in order.
pub open spec fn seen_other(s: Seq<(WorkspaceView, u64)>, t: u64) -> Seq<(WorkspaceView, u64)>
    decreases s.len(),
{
    if s.len() == 0 {
        s
    } else if s.last().1 != t {
        seen_other(s.drop_last(), t).push(s.last())
    } else {
        seen_other(s.drop_last(), t)
    }
}

/// Splitting by a time keeps every entry on exactly one side.
pub proof fn lemma_split_len(s: Seq<(WorkspaceView, u64)>, t: u64)
    ensures
        seen_at(s, t).len() + seen_other(s, t).len() == s.len(),
        forall|x| #[trigger] seen_at(s, t).contains(x) ==> s.contains(x) && x.1 == t,
        forall|x| #[trigger] seen_other(s, t).contains(x) ==> s.contains(x) && x.1 != t,
    decreases s.len(),
{
    if s.len() > 0 {
        let d = s.drop_last();
        lemma_split_len(d, t);
        assert forall|x| #[trigger] seen_at(s, t).contains(x) implies s.contains(x) && x.1 == t by {
            if seen_at(d, t).contains(x) {
                let k = choose|k: int| 0 <= k < d.len() && d[k] == x;
                assert(s[k] == x);
            } else {
                assert(x == s.last());
                assert(s[s.len() - 1] == x);
            }
        }
        assert forall|x| #[trigger] seen_other(s, t).contains(x) implies s.contains(x) && x.1 != t by {
            if seen_other(d, t).contains(x) {
                let k = choose|k: int| 0 <= k < d.len() && d[k] == x;
                assert(s[k] == x);
            } else {
                assert(x == s.last());
                assert(s[s.len() - 1] == x);
            }
        }
    }
}

/// The latest time is that of some entry, and no entry is seen later.
pub proof fn lemma_max_seen(s: Seq<(WorkspaceView, u64)>)
    requires
        s.len() > 0,
    ensures
        exists|i: int| 0 <= i < s.len() && s[i].1 == max_seen(s),
        forall|i: int| 0 <= i < s.len() ==> (#[trigger] s[i]).1 <= max_seen(s),
    decreases s.len(),
{
    let d = s.drop_last();
    if s.len() > 1 {
        lemma_max_seen(d);
        let k = choose|k: int| 0 <= k < d.len() && d[k].1 == max_seen(d);
        if s.last().1 > max_seen(d) {
            assert(s[s.len() - 1].1 == max_seen(s));
        } else {
            assert(s[k].1 == max_seen(s));
        }
        assert forall|i: int| 0 <= i < s.len() implies (#[trigger] s[i]).1 <= max_seen(s) by {
            if i < s.len() - 1 {
                assert(s[i] == d[i]);
            }
        }
    } else {
        assert(s[0].1 == max_seen(s));
    }
}

/// Entries seen at the latest time exist in a non-empty session.
pub proof fn lemma_latest_group_nonempty(s: Seq<(WorkspaceView, u64)>)
    requires
        s.len() > 0,
    ensures
        seen_other(s, max_seen(s)).len() < s.len(),
{
    lemma_max_seen(s);
    lemma_split_len(s, max_seen(s));
    let k = choose|k: int| 0 <= k < s.len() && s[k].1 == max_seen(s);
    lemma_has_at(s, max_seen(s), k);
}

/// An entry seen at `t` puts something in `seen_at(s, t)`.
proof fn lemma_has_at(s: Seq<(WorkspaceView, u64)>, t: u64, k: int)
    requires
        0 <= k < s.len(),
        s[k].1 == t,
    ensures
        seen_at(s, t).len() > 0,
    decreases s.len(),
{
    if k < s.len() - 1 {
        lemma_has_at(s.drop_last(), t, k);
    }
}

/// The session ordered by descending last-seen time, entries seen at the
/// same time kept in their order: the entries seen latest, then the rest
/// ordered the same way.
pub open spec fn by_recency(s: Seq<(WorkspaceView, u64)>) -> Seq<(WorkspaceView, u64)>
    decreases s.len(),
{
    if s.len() == 0 {
        s
    } else {
        proof {
            lemma_latest_group_nonempty(s);
        }
        seen_at(s, max_seen(s)) + by_recency(seen_other(s, max_seen(s)))
    }
}

/// Ordering keeps the number of entries.
pub proof fn lemma_by_recency_len(s: Seq<(WorkspaceView, u64)>)
    ensures
        by_recency(s).len() == s.len(),
    decreases s.len(),
{
    if s.len() > 0 {
        lemma_latest_group_nonempty(s);
        lemma_split_len(s, max_seen(s));
        lemma_by_recency_len(seen_other(s, max_seen(s)));
    }
}

/// The latest last-seen time of a session.
fn max_seen_of(s: &Vec<TrackedWs>) -> (m: u64)
    ensures
        m == max_seen(session_view(s@)),
{
    let ghost sv = session_view(s@);
    let mut m: u64 = 0;
    let mut i: usize = 0;
    assert(sv.take(0) =~= Seq::<(WorkspaceView, u64)>::empty());
    while i < s.len()
        invariant
            i <= s.len(),
            sv == session_view(s@),
            m == max_seen(sv.take(i as int)),
        decreases s.len() - i,
    {
        assert(sv.take(i + 1).drop_last() =~= sv.take(i as int));
        if i == 0 || s[i].last_seen > m {
            m = s[i].last_seen;
        }
        i += 1;
    }
    assert(sv.take(s.len() as int) =~= sv);
    m
}

/// The entries seen at `t` and the others, each in order.
fn split_at_time(s: Vec<TrackedWs>, t: u64) -> (r: (Vec<TrackedWs>, Vec<TrackedWs>))
    ensures
        session_view(r.0@) == seen_at(session_view(s@), t),
        session_view(r.1@) == seen_other(session_view(s@), t),
{
    let ghost sv = session_view(s@);
    let mut at: Vec<TrackedWs> = Vec::new();
    let mut other: Vec<TrackedWs> = Vec::new();
    let mut i: usize = 0;
    assert(sv.take(0) =~= Seq::<(WorkspaceView, u64)>::empty());
    assert(session_view(at@) =~= Seq::<(WorkspaceView, u64)>::empty());
    assert(session_view(other@) =~= Seq::<(WorkspaceView, u64)>::empty());
    while i < s.len()
        invariant
            i <= s.len(),
            sv == session_view(s@),
            session_view(at@) == seen_at(sv.take(i as int), t),
            session_view(other@) == seen_other(sv.take(i as int), t),
        decreases s.len() - i,
    {
        assert(sv.take(i + 1).drop_last() =~= sv.take(i as int));
        assert(sv.take(i + 1).last() == sv[i as int]);
        let e = s[i].duplicate();
        let ghost old_at = at@;
        let ghost old_other = other@;
        if e.last_seen == t {
            at.push(e);
            assert(session_view(at@) =~= session_view(old_at).push(sv[i as int]));
        } else {
            other.push(e);
            assert(session_view(other@) =~= session_view(old_other).push(sv[i as int]));
        }
        i += 1;
    }
    assert(sv.take(s.len() as int) =~= sv);
    (at, other)
}

/// The session ordered by descending last-seen time, ties kept in order
/// (`sort_by` with `b.last_seen.cmp(&a.last_seen)`, a stable sort).
pub fn sort_by_recency(s: Vec<TrackedWs>) -> (r: Vec<TrackedWs>)
    ensures
        session_view(r@) == by_recency(session_view(s@)),
{
    let mut out: Vec<TrackedWs> = Vec::new();
    let mut rest = s;
    assert(session_view(out@) =~= Seq::<(WorkspaceView, u64)>::empty());
    while rest.len() > 0
        invariant
            by_recency(session_view(s@)) == session_view(out@) + by_recency(session_view(rest@)),
        decreases rest.len(),
    {
        let ghost rv = session_view(rest@);
        let m = max_seen_of(&rest);
        let (mut at, other) = split_at_time(rest, m);
        proof {
            lemma_latest_group_nonempty(rv);
            lemma_split_len(rv, m);
        }
        let ghost old_out = session_view(out@);
        let ghost at_v = session_view(at@);
        out.append(&mut at);
        proof {
            assert(session_view(out@) =~= old_out + at_v);
            assert(by_recency(rv) == at_v + by_recency(session_view(other@)));
            assert(old_out + (at_v + by_recency(session_view(other@))) =~= (old_out + at_v)
                + by_recency(session_view(other@)));
        }
        rest = other;
    }
    assert(by_recency(session_view(rest@)) =~= Seq::<(WorkspaceView, u64)>::empty());
    assert(session_view(out@) + Seq::<(WorkspaceView, u64)>::empty() =~= session_view(out@));
    out
}


/// Entries of `s` seen at `t` all reach `seen_at(s, t)`; the others all
/// reach `seen_other(s, t)`.
pub proof fn lemma_split_covers(s: Seq<(WorkspaceView, u64)>, t: u64)
    ensures
        forall|x| #[trigger] s.contains(x) && x.1 == t ==> seen_at(s, t).contains(x),
        forall|x| #[trigger] s.contains(x) && x.1 != t ==> seen_other(s, t).contains(x),
    decreases s.len(),
{
    if s.len() > 0 {
        let d = s.drop_last();
        lemma_split_covers(d, t);
        assert forall|x| #[trigger] s.contains(x) && x.1 == t implies seen_at(s, t).contains(x) by {
            let k = choose|k: int| 0 <= k < s.len() && s[k] == x;
            if k < s.len() - 1 {
                assert(d[k] == x);
                assert(d.contains(x));
                let a = seen_at(d, t);
                let j = choose|j: int| 0 <= j < a.len() && a[j] == x;
                assert(seen_at(s, t)[j] == x);
            } else {
                assert(seen_at(s, t)[seen_at(s, t).len() - 1] == x);
            }
        }
        assert forall|x| #[trigger] s.contains(x) && x.1 != t implies seen_other(s, t).contains(x) by {
            let k = choose|k: int| 0 <= k < s.len() && s[k] == x;
            if k < s.len() - 1 {
                assert(d[k] == x);
                assert(d.contains(x));
                let a = seen_other(d, t);
                let j = choose|j: int| 0 <= j < a.len() && a[j] == x;
                assert(seen_other(s, t)[j] == x);
            } else {
                assert(seen_other(s, t)[seen_other(s, t).len() - 1] == x);
            }
        }
    }
}

/// Every entry of `s` seen at `t` is seen at `t` in `seen_at(s, t)`.
proof fn lemma_seen_at_all(s: Seq<(WorkspaceView, u64)>, t: u64)
    ensures
        forall|i: int| 0 <= i < seen_at(s, t).len() ==> (#[trigger] seen_at(s, t)[i]).1 == t,
        forall|i: int| 0 <= i < seen_other(s, t).len() ==> (#[trigger] seen_other(s, t)[i]).1 != t,
{
    lemma_split_len(s, t);
    assert forall|i: int| 0 <= i < seen_at(s, t).len() implies (#[trigger] seen_at(s, t)[i]).1 == t by {
        assert(seen_at(s, t).contains(seen_at(s, t)[i]));
    }
    assert forall|i: int| 0 <= i < seen_other(s, t).len() implies (#[trigger] seen_other(s, t)[i]).1 != t by {
        assert(seen_other(s, t).contains(seen_other(s, t)[i]));
    }
}

/// Ordering by recency keeps exactly the entries of the session, puts the
/// most recently seen first, and leaves no entry before one seen later.
pub proof fn lemma_by_recency(s: Seq<(WorkspaceView, u64)>)
    ensures
        by_recency(s).len() == s.len(),
        forall|x| #[trigger] by_recency(s).contains(x) <==> s.contains(x),
        forall|i: int, j: int| 0 <= i < j < s.len() ==> (#[trigger] by_recency(s)[i]).1 >= (
        #[trigger] by_recency(s)[j]).1,
        s.len() > 0 ==> by_recency(s)[0].1 == max_seen(s),
        forall|i: int| 0 <= i < s.len() ==> (#[trigger] s[i]).1 <= max_seen(s),
    decreases s.len(),
{
    lemma_by_recency_len(s);
    if s.len() > 0 {
        let m = max_seen(s);
        let a = seen_at(s, m);
        let o = seen_other(s, m);
        lemma_latest_group_nonempty(s);
        lemma_max_seen(s);
        lemma_split_len(s, m);
        lemma_split_covers(s, m);
        lemma_seen_at_all(s, m);
        lemma_by_recency(o);
        let r = by_recency(s);
        assert(r == a + by_recency(o));
        assert forall|x| #[trigger] r.contains(x) <==> s.contains(x) by {
            if r.contains(x) {
                let k = choose|k: int| 0 <= k < r.len() && r[k] == x;
                if k < a.len() {
                    assert(a.contains(x));
                } else {
                    assert(by_recency(o)[k - a.len()] == x);
                    assert(by_recency(o).contains(x));
                    assert(o.contains(x));
                }
            }
            if s.contains(x) {
                if x.1 == m {
                    let k = choose|k: int| 0 <= k < a.len() && a[k] == x;
                    assert(r[k] == x);
                } else {
                    assert(o.contains(x));
                    assert(by_recency(o).contains(x));
                    let k = choose|k: int| 0 <= k < by_recency(o).len() && by_recency(o)[k] == x;
                    assert(r[k + a.len()] == x);
                }
            }
        }
        assert forall|i: int| 0 <= i < o.len() implies (#[trigger] by_recency(o)[i]).1 < m by {
            let x = by_recency(o)[i];
            assert(by_recency(o).contains(x));
            assert(o.contains(x));
            assert(s.contains(x));
            let k = choose|k: int| 0 <= k < s.len() && s[k] == x;
            assert(s[k].1 <= m);
        }
        assert forall|i: int, j: int| 0 <= i < j < s.len() implies (#[trigger] r[i]).1 >= (#[trigger] r[j]).1 by {
            if j < a.len() {
                assert(a[i].1 == m && a[j].1 == m);
            } else if i < a.len() {
                assert(r[j] == by_recency(o)[j - a.len()]);
            } else {
                assert(r[i] == by_recency(o)[i - a.len()]);
                assert(r[j] == by_recency(o)[j - a.len()]);
            }
        }
        assert(r[0] == a[0]);
    }
}


/// In a session without duplicate paths, a path picks out one entry.
pub proof fn lemma_same_path(s: Seq<(WorkspaceView, u64)>, x: (WorkspaceView, u64), y: (WorkspaceView, u64))
    requires
        paths_distinct(s),
        s.contains(x),
        s.contains(y),
        x.0.path == y.0.path,
    ensures
        x == y,
{
    let i = choose|i: int| 0 <= i < s.len() && s[i] == x;
    let j = choose|j: int| 0 <= j < s.len() && s[j] == y;
    if i < j {
        assert(s[i].0.path != s[j].0.path);
    } else if j < i {
        assert(s[j].0.path != s[i].0.path);
    }
}

/// Splitting a session without duplicate paths gives two such sessions.
pub proof fn lemma_split_distinct(s: Seq<(WorkspaceView, u64)>, t: u64)
    requires
        paths_distinct(s),
    ensures
        paths_distinct(seen_at(s, t)),
        paths_distinct(seen_other(s, t)),
    decreases s.len(),
{
    if s.len() > 0 {
        let d = s.drop_last();
        assert(paths_distinct(d)) by {
            assert forall|i: int, j: int| 0 <= i < j < d.len() implies (#[trigger] d[i]).0.path != (#[trigger] d[j]).0.path by {
                assert(s[i].0.path != s[j].0.path);
            }
        }
        lemma_split_distinct(d, t);
        lemma_split_len(d, t);
        let l = s.last();
        assert forall|x| #[trigger] d.contains(x) implies x.0.path != l.0.path by {
            let k = choose|k: int| 0 <= k < d.len() && d[k] == x;
            assert(s[k].0.path != s[s.len() - 1].0.path);
        }
        let a = seen_at(d, t);
        let o = seen_other(d, t);
        assert forall|i: int| 0 <= i < a.len() implies (#[trigger] a[i]).0.path != l.0.path by {
            assert(a.contains(a[i]));
            assert(d.contains(a[i]));
        }
        assert forall|i: int| 0 <= i < o.len() implies (#[trigger] o[i]).0.path != l.0.path by {
            assert(o.contains(o[i]));
            assert(d.contains(o[i]));
        }
        if l.1 == t {
            let a2 = a.push(l);
            assert forall|i: int, j: int| 0 <= i < j < a2.len() implies (#[trigger] a2[i]).0.path != (#[trigger] a2[j]).0.path by {
                if j < a.len() {
                    assert(a[i].0.path != a[j].0.path);
                } else {
                    assert(a2[i] == a[i]);
                }
            }
        } else {
            let o2 = o.push(l);
            assert forall|i: int, j: int| 0 <= i < j < o2.len() implies (#[trigger] o2[i]).0.path != (#[trigger] o2[j]).0.path by {
                if j < o.len() {
                    assert(o[i].0.path != o[j].0.path);
                } else {
                    assert(o2[i] == o[i]);
                }
            }
        }
    }
}

/// Ordering by recency keeps a session free of duplicate paths.
pub proof fn lemma_by_recency_distinct(s: Seq<(WorkspaceView, u64)>)
    requires
        paths_distinct(s),
    ensures
        paths_distinct(by_recency(s)),
    decreases s.len(),
{
    if s.len() > 0 {
        let m = max_seen(s);
        let a = seen_at(s, m);
        let o = seen_other(s, m);
        lemma_latest_group_nonempty(s);
        lemma_split_len(s, m);
        lemma_split_distinct(s, m);
        lemma_seen_at_all(s, m);
        lemma_by_recency_distinct(o);
        lemma_by_recency(o);
        let b = by_recency(o);
        let r = by_recency(s);
        assert(r == a + b);
        assert forall|i: int, j: int| 0 <= i < j < r.len() implies (#[trigger] r[i]).0.path != (#[trigger] r[j]).0.path by {
            if j < a.len() {
                assert(a[i].0.path != a[j].0.path);
            } else if i >= a.len() {
                assert(r[i] == b[i - a.len()]);
                assert(r[j] == b[j - a.len()]);
                assert(b[i - a.len()].0.path != b[j - a.len()].0.path);
            } else {
                let x = a[i];
                let y = b[j - a.len()];
                assert(r[j] == y);
                assert(a.contains(x));
                assert(b.contains(y));
                assert(o.contains(y));
                if x.0.path == y.0.path {
                    lemma_same_path(s, x, y);
                    assert(x.1 == m);
                    assert(y.1 != m);
                }
            }
        }
    }
}

} // verus!
