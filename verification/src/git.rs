//! The git branch of a workspace, read from the text of git's `HEAD` file,
//! and the `HEAD` files that a `.git` file (a worktree link) points to.
use vstd::prelude::*;
use crate::path::{join, join_path};
use crate::text::{
    chars_of, first_bytes, first_bytes_of, line_spans, lines, spans_view, spans_within,
    starts_with, starts_with_seq, string_from_chars, subvec, trim, trim_ws,
};

verus! {

/// The text before the branch name in `HEAD` when a branch is checked out.
pub open spec fn branch_ref_prefix() -> Seq<char> {
    "ref: refs/heads/"@
}

/// The branch a `HEAD` file names: with surrounding white space removed,
/// the name after `ref: refs/heads/`; for a detached head, the first seven
/// bytes of the commit (all of it when seven bytes do not end on a
/// character).
pub open spec fn head_branch(head: Seq<char>) -> Seq<char> {
    let h = trim(head);
    if starts_with(h, branch_ref_prefix()) {
        h.skip(branch_ref_prefix().len() as int)
    } else {
        match first_bytes(h, 7) {
            Some(p) => p,
            None => h,
        }
    }
}

/// The branch a `HEAD` file names.
pub fn branch_from_head(head: &str) -> (r: String)
    ensures
        r@ == head_branch(head@),
{
    let v = chars_of(head);
    let h = trim_ws(&v);
    let prefix = chars_of("ref: refs/heads/");
    if starts_with_seq(&h, &prefix) {
        let rest = subvec(&h, prefix.len(), h.len());
        return string_from_chars(rest.as_slice());
    }
    match first_bytes_of(&h, 7) {
        Some(p) => string_from_chars(p.as_slice()),
        None => string_from_chars(h.as_slice()),
    }
}

/// The text that starts a `gitdir` line of a `.git` file.
pub open spec fn gitdir_prefix() -> Seq<char> {
    "gitdir: "@
}

/// The `HEAD` files the `gitdir` lines among `ls` point to, in order.
pub open spec fn gitdir_heads_of(ls: Seq<Seq<char>>) -> Seq<Seq<char>>
    decreases ls.len(),
{
    if ls.len() == 0 {
        seq![]
    } else {
        let before = gitdir_heads_of(ls.drop_last());
        let l = ls.last();
        if starts_with(l, gitdir_prefix()) {
            before.push(join(trim(l.skip(gitdir_prefix().len() as int)), "HEAD"@))
        } else {
            before
        }
    }
}

/// The `HEAD` files the `gitdir` lines of a `.git` file point to, in order.
pub fn gitdir_heads(content: &str) -> (r: Vec<String>)
    ensures
        r@.map_values(|s: String| s@) == gitdir_heads_of(lines(content@)),
{
    let v = chars_of(content);
    let spans = line_spans(&v);
    let ghost ls = lines(v@);
    let prefix = chars_of("gitdir: ");
    let mut r: Vec<String> = Vec::new();
    let mut i: usize = 0;
    proof {
        assert(ls.take(0) =~= Seq::<Seq<char>>::empty());
        assert(r@.map_values(|s: String| s@) =~= Seq::<Seq<char>>::empty());
    }
    while i < spans.len()
        invariant
            v@ == content@,
            ls == lines(v@),
            prefix@ == gitdir_prefix(),
            spans_view(v@, spans@) == ls,
            spans_within(spans@, v.len() as int),
            i <= spans.len(),
            r@.map_values(|s: String| s@) == gitdir_heads_of(ls.take(i as int)),
        decreases spans.len() - i,
    {
        let (a, b) = spans[i];
        let line = subvec(&v, a, b);
        assert(line@ == ls[i as int]);
        proof {
            assert(ls.take(i + 1).drop_last() =~= ls.take(i as int));
            assert(ls.take(i + 1).last() == ls[i as int]);
        }
        let ghost before = r@;
        if starts_with_seq(&line, &prefix) {
            let rest = subvec(&line, prefix.len(), line.len());
            let dir = trim_ws(&rest);
            let dir_s = string_from_chars(dir.as_slice());
            let head = join_path(dir_s.as_str(), "HEAD");
            r.push(head);
            proof {
                assert(r@.map_values(|s: String| s@) =~= before.map_values(|s: String| s@).push(
                    head@,
                ));
            }
        }
        i += 1;
    }
    proof {
        assert(ls.take(spans.len() as int) =~= ls);
    }
    r
}

/// The first text among `reads` that was read, if any.
pub open spec fn first_read(reads: Seq<Option<Seq<char>>>) -> Option<Seq<char>>
    decreases reads.len(),
{
    if reads.len() == 0 {
        None
    } else if reads[0] is Some {
        reads[0]
    } else {
        first_read(reads.drop_first())
    }
}

/// The contents of optional strings.
pub open spec fn reads_view(reads: Seq<Option<String>>) -> Seq<Option<Seq<char>>> {
    reads.map_values(|o: Option<String>| o.deep_view())
}

/// The first text among `reads` that was read, if any.
pub fn first_read_of(reads: &Vec<Option<String>>) -> (r: Option<&String>)
    ensures
        match r {
            Some(s) => first_read(reads_view(reads@)) == Some(s@),
            None => first_read(reads_view(reads@)) is None,
        },
{
    let ghost rv = reads_view(reads@);
    let mut i: usize = 0;
    proof {
        assert(rv.skip(0) =~= rv);
    }
    while i < reads.len()
        invariant
            i <= reads.len(),
            rv == reads_view(reads@),
            first_read(rv) == first_read(rv.skip(i as int)),
        decreases reads.len() - i,
    {
        assert(rv.skip(i as int)[0] == rv[i as int]);
        match &reads[i] {
            Some(s) => {
                return Some(s);
            },
            None => {},
        }
        assert(rv.skip(i as int).drop_first() =~= rv.skip(i + 1));
        i += 1;
    }
    None
}

} // verus!
