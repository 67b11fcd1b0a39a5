//! Unix path arithmetic on text: joining a path onto another and taking the
//! last name of a path, as `std::path::Path` does both.
use vstd::prelude::*;
use crate::text::{chars_of, spans_view, spans_within, split_by, split_spans, string_from_chars, substring};

verus! {

/// `base` with `rel` adjoined (`Path::join` on Unix): an absolute `rel`
/// replaces `base`; otherwise a `/` goes between them unless `base` is empty
/// or already ends in one.
pub open spec fn join(base: Seq<char>, rel: Seq<char>) -> Seq<char> {
    if rel.len() > 0 && rel[0] == '/' {
        rel
    } else if base.len() == 0 || base.last() == '/' {
        base + rel
    } else {
        base + seq!['/'] + rel
    }
}

/// A piece between slashes that names something: not empty and not `.`.
pub open spec fn is_named(piece: Seq<char>) -> bool {
    piece.len() > 0 && piece != seq!['.']
}

/// Piece `i` of `pieces` is the last one that names something.
pub open spec fn last_named(pieces: Seq<Seq<char>>, i: int) -> bool {
    &&& 0 <= i < pieces.len()
    &&& is_named(pieces[i])
    &&& forall|j: int| i < j < pieces.len() ==> !is_named(#[trigger] pieces[j])
}

/// The final name of `p` (`Path::file_name`): the last piece between
/// slashes that is neither empty nor `.`, unless that piece is `..`;
/// nothing for a path without such a piece.
pub open spec fn file_name(p: Seq<char>) -> Option<Seq<char>> {
    let pieces = split_by(p, seq!['/']);
    if exists|i: int| last_named(pieces, i) {
        let i = choose|i: int| last_named(pieces, i);
        if pieces[i] == seq!['.', '.'] {
            None
        } else {
            Some(pieces[i])
        }
    } else {
        None
    }
}

/// The final name of `p` is read off its last named piece.
proof fn lemma_file_name_at(p: Seq<char>, i: int)
    requires
        last_named(split_by(p, seq!['/']), i),
    ensures
        file_name(p) == (if split_by(p, seq!['/'])[i] == seq!['.', '.'] {
            None
        } else {
            Some(split_by(p, seq!['/'])[i])
        }),
{
    let pieces = split_by(p, seq!['/']);
    let c = choose|c: int| last_named(pieces, c);
    assert(last_named(pieces, c));
    if c < i {
        assert(is_named(pieces[i]));
    } else if i < c {
        assert(is_named(pieces[c]));
    }
}

/// `base` with `rel` adjoined, as `Path::join` does on Unix.
pub fn join_path(base: &str, rel: &str) -> (r: String)
    ensures
        r@ == join(base@, rel@),
{
    let b = chars_of(base);
    let r = chars_of(rel);
    let mut out: Vec<char> = Vec::new();
    if r.len() > 0 && r[0] == '/' {
        return string_from_chars(r.as_slice());
    }
    let mut i: usize = 0;
    while i < b.len()
        invariant
            i <= b.len(),
            out@ == b@.take(i as int),
        decreases b.len() - i,
    {
        out.push(b[i]);
        i += 1;
    }
    assert(b@.take(b.len() as int) =~= b@);
    if b.len() > 0 && b[b.len() - 1] != '/' {
        out.push('/');
    }
    let ghost head = out@;
    let mut j: usize = 0;
    while j < r.len()
        invariant
            j <= r.len(),
            out@ == head + r@.take(j as int),
        decreases r.len() - j,
    {
        out.push(r[j]);
        j += 1;
        assert(head + r@.take(j as int) =~= (head + r@.take(j - 1)).push(r@[j - 1]));
    }
    assert(r@.take(r.len() as int) =~= r@);
    string_from_chars(out.as_slice())
}

/// Whether `v[a..b]` names something.
fn piece_is_named(v: &Vec<char>, a: usize, b: usize) -> (r: bool)
    requires
        a <= b <= v.len(),
    ensures
        r == is_named(v@.subrange(a as int, b as int)),
{
    if a == b {
        return false;
    }
    if b - a == 1 && v[a] == '.' {
        assert(v@.subrange(a as int, b as int) =~= seq!['.']);
        return false;
    }
    if b - a == 1 {
        assert(v@.subrange(a as int, b as int)[0] != seq!['.'][0]);
    } else {
        assert(v@.subrange(a as int, b as int).len() != seq!['.'].len());
    }
    true
}

/// The final name of `path`, as `Path::file_name` gives it.
pub fn path_file_name(path: &str) -> (r: Option<String>)
    ensures
        r.deep_view() == file_name(path@),
{
    let v = chars_of(path);
    let mut slash: Vec<char> = Vec::new();
    slash.push('/');
    assert(slash@ =~= seq!['/']);
    let spans = split_spans(&v, &slash);
    let ghost pieces = split_by(v@, seq!['/']);
    assert(spans_view(v@, spans@) == pieces);
    let mut i: usize = spans.len();
    while i > 0
        invariant
            i <= spans.len(),
            v@ == path@,
            pieces == split_by(v@, seq!['/']),
            spans_view(v@, spans@) == pieces,
            spans_within(spans@, v.len() as int),
            forall|j: int| i <= j < pieces.len() ==> !is_named(#[trigger] pieces[j]),
        decreases i,
    {
        i -= 1;
        let (a, b) = spans[i];
        assert(pieces[i as int] == v@.subrange(a as int, b as int));
        if piece_is_named(&v, a, b) {
            proof {
                assert(last_named(pieces, i as int));
                lemma_file_name_at(v@, i as int);
            }
            if b - a == 2 && v[a] == '.' && v[a + 1] == '.' {
                assert(v@.subrange(a as int, b as int) =~= seq!['.', '.']);
                return None;
            }
            if b - a == 2 {
                assert(v@.subrange(a as int, b as int) != seq!['.', '.']) by {
                    if v[a as int] != '.' {
                        assert(v@.subrange(a as int, b as int)[0] != seq!['.', '.'][0]);
                    } else {
                        assert(v@.subrange(a as int, b as int)[1] != seq!['.', '.'][1]);
                    }
                }
            }
            return Some(substring(&v, a, b));
        }
    }
    None
}

} // verus!
