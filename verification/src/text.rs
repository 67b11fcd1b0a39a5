//! Character-level text handling shared by the log, path and process logic.
//!
//! Text is modelled as `Seq<char>`, the view vstd gives `str` and `String`.
//! The search functions return character positions; since every pattern the
//! library looks for starts and ends on a character, slicing at such a
//! position is the same as slicing at the byte offset that `str::find` gives.
use vstd::prelude::*;

verus! {

// ---------------------------------------------------------------------------
// Specifications
// ---------------------------------------------------------------------------

/// `pat` occurs in `s` starting at position `k`.
pub open spec fn match_at(s: Seq<char>, pat: Seq<char>, k: int) -> bool {
    0 <= k && k + pat.len() <= s.len() && s.subrange(k, k + pat.len()) == pat
}

/// `pat` occurs somewhere in `s` (`str::contains`).
pub open spec fn contains(s: Seq<char>, pat: Seq<char>) -> bool {
    exists|k: int| match_at(s, pat, k)
}

/// `k` is the first position at which `pat` occurs in `s`.
pub open spec fn first_match(s: Seq<char>, pat: Seq<char>, k: int) -> bool {
    match_at(s, pat, k) && forall|j: int| 0 <= j < k ==> !#[trigger] match_at(s, pat, j)
}

/// `k` is the last position at which `pat` occurs in `s`.
pub open spec fn last_match(s: Seq<char>, pat: Seq<char>, k: int) -> bool {
    match_at(s, pat, k) && forall|j: int| k < j ==> !#[trigger] match_at(s, pat, j)
}

/// The first position of `pat` in `s` (`str::find`).
pub open spec fn find(s: Seq<char>, pat: Seq<char>) -> Option<int> {
    if exists|k: int| first_match(s, pat, k) {
        Some(choose|k: int| first_match(s, pat, k))
    } else {
        None
    }
}

/// The last position of `pat` in `s` (`str::rfind`).
pub open spec fn rfind(s: Seq<char>, pat: Seq<char>) -> Option<int> {
    if exists|k: int| last_match(s, pat, k) {
        Some(choose|k: int| last_match(s, pat, k))
    } else {
        None
    }
}

/// `s` begins with `pre` (`str::starts_with`).
pub open spec fn starts_with(s: Seq<char>, pre: Seq<char>) -> bool {
    pre.len() <= s.len() && s.take(pre.len() as int) == pre
}

/// `k` is the first position of `s` holding one of the characters of `seps`.
pub open spec fn first_sep(s: Seq<char>, seps: Seq<char>, k: int) -> bool {
    &&& 0 <= k < s.len()
    &&& seps.contains(s[k])
    &&& forall|j: int| 0 <= j < k ==> !seps.contains(#[trigger] s[j])
}

/// The first position of `s` that holds one of the characters of `seps`.
pub open spec fn find_sep(s: Seq<char>, seps: Seq<char>) -> Option<int> {
    if exists|k: int| first_sep(s, seps, k) {
        Some(choose|k: int| first_sep(s, seps, k))
    } else {
        None
    }
}

/// The pieces of `s` between the characters of `seps`, empty pieces
/// included (`str::split` with a set of characters).
#[verifier::opaque]
pub open spec fn split_by(s: Seq<char>, seps: Seq<char>) -> Seq<Seq<char>>
    decreases s.len(),
{
    if exists|k: int| first_sep(s, seps, k) {
        let k = choose|k: int| first_sep(s, seps, k);
        seq![s.take(k)] + split_by(s.skip(k + 1), seps)
    } else {
        seq![s]
    }
}

/// `s` with one trailing carriage return removed, if it has one.
pub open spec fn strip_cr(s: Seq<char>) -> Seq<char> {
    if s.len() > 0 && s.last() == '\r' {
        s.drop_last()
    } else {
        s
    }
}

/// The lines of `s` (`str::lines`): the pieces between line feeds, a
/// carriage return before a line feed dropped, and no empty last line
/// after a final line feed.
pub open spec fn lines(s: Seq<char>) -> Seq<Seq<char>> {
    let pieces = split_by(s, seq!['\n']);
    let n = pieces.len();
    let ended = Seq::new((n - 1) as nat, |i: int| strip_cr(pieces[i]));
    if pieces[n - 1].len() > 0 {
        ended.push(pieces[n - 1])
    } else {
        ended
    }
}

/// The text before the first `c` in `s`, or all of `s`
/// (the first item of `str::split(c)`).
pub open spec fn before_first(s: Seq<char>, c: char) -> Seq<char> {
    match find_sep(s, seq![c]) {
        Some(k) => s.take(k),
        None => s,
    }
}

/// Unicode white space (`char::is_whitespace`).
pub open spec fn is_ws(c: char) -> bool {
    ||| '\u{9}' <= c <= '\u{d}'
    ||| c == ' '
    ||| c == '\u{85}'
    ||| c == '\u{a0}'
    ||| c == '\u{1680}'
    ||| '\u{2000}' <= c <= '\u{200a}'
    ||| c == '\u{2028}'
    ||| c == '\u{2029}'
    ||| c == '\u{202f}'
    ||| c == '\u{205f}'
    ||| c == '\u{3000}'
}

/// `s` without the characters satisfying `p` at its start.
pub open spec fn strip_start(s: Seq<char>, p: spec_fn(char) -> bool) -> Seq<char>
    decreases s.len(),
{
    if s.len() > 0 && p(s[0]) {
        strip_start(s.drop_first(), p)
    } else {
        s
    }
}

/// `s` without the characters satisfying `p` at its end.
pub open spec fn strip_end(s: Seq<char>, p: spec_fn(char) -> bool) -> Seq<char>
    decreases s.len(),
{
    if s.len() > 0 && p(s.last()) {
        strip_end(s.drop_last(), p)
    } else {
        s
    }
}

/// The test for white space, as a predicate.
pub open spec fn ws_pred() -> spec_fn(char) -> bool {
    |c: char| is_ws(c)
}

/// The test for the character `c`, as a predicate.
pub open spec fn char_pred(c: char) -> spec_fn(char) -> bool {
    |x: char| x == c
}

/// `s` without white space at either end (`str::trim`).
pub open spec fn trim(s: Seq<char>) -> Seq<char> {
    strip_end(strip_start(s, ws_pred()), ws_pred())
}

/// `s` without the character `c` at either end (`str::trim_matches`).
pub open spec fn trim_char(s: Seq<char>, c: char) -> Seq<char> {
    strip_end(strip_start(s, char_pred(c)), char_pred(c))
}

/// The value of the decimal digits `d`.
pub open spec fn digits_value(d: Seq<char>) -> nat
    decreases d.len(),
{
    if d.len() == 0 {
        0
    } else {
        digits_value(d.drop_last()) * 10 + ((d.last() as u32) - ('0' as u32)) as nat
    }
}

/// Every character of `d` is an ASCII digit.
pub open spec fn all_digits(d: Seq<char>) -> bool {
    forall|i: int| 0 <= i < d.len() ==> '0' <= #[trigger] d[i] <= '9'
}

/// What `str::parse` gives for an unsigned integer type whose largest value
/// is `max`: an optional `+`, then at least one ASCII digit and nothing else,
/// and a value no larger than `max`.
pub open spec fn parse_unsigned(s: Seq<char>, max: nat) -> Option<nat> {
    let d = if s.len() > 0 && s[0] == '+' { s.drop_first() } else { s };
    if d.len() > 0 && all_digits(d) && digits_value(d) <= max {
        Some(digits_value(d))
    } else {
        None
    }
}

// ---------------------------------------------------------------------------
// Lemmas
// ---------------------------------------------------------------------------

/// A first occurrence is the one `find` gives.
pub proof fn lemma_find_is_first(s: Seq<char>, pat: Seq<char>, k: int)
    requires
        first_match(s, pat, k),
    ensures
        find(s, pat) == Some(k),
{
    let c = choose|c: int| first_match(s, pat, c);
    assert(first_match(s, pat, c));
    if c < k {
        assert(match_at(s, pat, c));
    } else if k < c {
        assert(match_at(s, pat, k));
    }
}

/// What `find` gives is a first occurrence.
pub proof fn lemma_find_some(s: Seq<char>, pat: Seq<char>)
    requires
        find(s, pat) is Some,
    ensures
        first_match(s, pat, find(s, pat)->0),
{
}

/// What `rfind` gives is a last occurrence.
pub proof fn lemma_rfind_some(s: Seq<char>, pat: Seq<char>)
    requires
        rfind(s, pat) is Some,
    ensures
        last_match(s, pat, rfind(s, pat)->0),
{
}

/// A last occurrence is the one `rfind` gives.
pub proof fn lemma_rfind_is_last(s: Seq<char>, pat: Seq<char>, k: int)
    requires
        last_match(s, pat, k),
    ensures
        rfind(s, pat) == Some(k),
{
    let c = choose|c: int| last_match(s, pat, c);
    assert(last_match(s, pat, c));
    if c < k {
        assert(match_at(s, pat, k));
    } else if k < c {
        assert(match_at(s, pat, c));
    }
}

/// A first separator is the one `find_sep` gives.
pub proof fn lemma_find_sep_is_first(s: Seq<char>, seps: Seq<char>, k: int)
    requires
        first_sep(s, seps, k),
    ensures
        find_sep(s, seps) == Some(k),
{
    let c = choose|c: int| first_sep(s, seps, c);
    assert(first_sep(s, seps, c));
    if c < k {
        assert(seps.contains(s[c]));
    } else if k < c {
        assert(seps.contains(s[k]));
    }
}

/// `split_by` on text with a first separator at `k`.
pub proof fn lemma_split_by_step(s: Seq<char>, seps: Seq<char>, k: int)
    requires
        first_sep(s, seps, k),
    ensures
        split_by(s, seps) == seq![s.take(k)] + split_by(s.skip(k + 1), seps),
{
    reveal(split_by);
    lemma_find_sep_is_first(s, seps, k);
    let c = choose|c: int| first_sep(s, seps, c);
    assert(first_sep(s, seps, c));
    assert(c == k) by {
        if c < k {
            assert(seps.contains(s[c]));
        } else if k < c {
            assert(seps.contains(s[k]));
        }
    }
}

/// `split_by` on text without separators.
pub proof fn lemma_split_by_last(s: Seq<char>, seps: Seq<char>)
    requires
        forall|j: int| 0 <= j < s.len() ==> !seps.contains(#[trigger] s[j]),
    ensures
        split_by(s, seps) == seq![s],
{
    reveal(split_by);
}

/// `split_by` gives at least one piece.
pub proof fn lemma_split_by_nonempty(s: Seq<char>, seps: Seq<char>)
    ensures
        split_by(s, seps).len() >= 1,
    decreases s.len(),
{
    reveal(split_by);
    if exists|k: int| first_sep(s, seps, k) {
        let k = choose|k: int| first_sep(s, seps, k);
        lemma_split_by_nonempty(s.skip(k + 1), seps);
    }
}

/// Splitting text joined by a separator gives the pieces of each part.
pub proof fn lemma_split_by_join(x: Seq<char>, y: Seq<char>, c: char)
    ensures
        split_by(x + seq![c] + y, seq![c]) == split_by(x, seq![c]) + split_by(y, seq![c]),
    decreases x.len(),
{
    let seps = seq![c];
    let s = x + seq![c] + y;
    if exists|k: int| first_sep(x, seps, k) {
        let k = choose|k: int| first_sep(x, seps, k);
        assert(first_sep(s, seps, k)) by {
            assert forall|j: int| 0 <= j < k implies !seps.contains(#[trigger] s[j]) by {
                assert(s[j] == x[j]);
                assert(!seps.contains(x[j]));
            }
            assert(s[k] == x[k]);
        }
        lemma_split_by_step(s, seps, k);
        lemma_split_by_step(x, seps, k);
        assert(s.take(k) =~= x.take(k));
        assert(s.skip(k + 1) =~= x.skip(k + 1) + seq![c] + y);
        lemma_split_by_join(x.skip(k + 1), y, c);
        assert(split_by(s, seps) =~= split_by(x, seps) + split_by(y, seps));
    } else {
        let n = x.len() as int;
        assert forall|j: int| 0 <= j < x.len() implies !seps.contains(#[trigger] x[j]) by {
            if seps.contains(x[j]) {
                assert(x[j] == c);
                assert forall|i: int| 0 <= i < j implies !seps.contains(#[trigger] x[i]) by {
                    if seps.contains(x[i]) {
                        assert(exists|k: int| first_sep(x, seps, k)) by {
                            lemma_first_sep_exists(x, seps, i);
                        }
                    }
                }
                assert(first_sep(x, seps, j));
            }
        }
        lemma_split_by_last(x, seps);
        assert(first_sep(s, seps, n)) by {
            assert(s[n] == c);
            assert(seps.contains(c));
            assert forall|j: int| 0 <= j < n implies !seps.contains(#[trigger] s[j]) by {
                assert(s[j] == x[j]);
            }
        }
        lemma_split_by_step(s, seps, n);
        assert(s.take(n) =~= x);
        assert(s.skip(n + 1) =~= y);
        assert(split_by(s, seps) =~= split_by(x, seps) + split_by(y, seps));
    }
}

/// Text holding a separator at `i` has a first separator.
pub proof fn lemma_first_sep_exists(s: Seq<char>, seps: Seq<char>, i: int)
    requires
        0 <= i < s.len(),
        seps.contains(s[i]),
    ensures
        exists|k: int| first_sep(s, seps, k),
    decreases i,
{
    if forall|j: int| 0 <= j < i ==> !seps.contains(#[trigger] s[j]) {
        assert(first_sep(s, seps, i));
    } else {
        let j = choose|j: int| 0 <= j < i && seps.contains(#[trigger] s[j]);
        lemma_first_sep_exists(s, seps, j);
    }
}

/// The lines of text joined by a line feed: every piece of the first part,
/// each without a carriage return before the feed, then the lines of the
/// second part.
pub proof fn lemma_lines_join(x: Seq<char>, y: Seq<char>)
    ensures
        lines(x + seq!['\n'] + y) == split_by(x, seq!['\n']).map_values(|p: Seq<char>| strip_cr(p))
            + lines(y),
{
    lemma_split_by_join(x, y, '\n');
    lemma_split_by_nonempty(y, seq!['\n']);
    lemma_split_by_nonempty(x, seq!['\n']);
    let px = split_by(x, seq!['\n']);
    let py = split_by(y, seq!['\n']);
    let p = px + py;
    assert(split_by(x + seq!['\n'] + y, seq!['\n']) == p);
    let l = lines(x + seq!['\n'] + y);
    let r = px.map_values(|q: Seq<char>| strip_cr(q)) + lines(y);
    assert(p[p.len() - 1] == py[py.len() - 1]);
    assert(l.len() == r.len());
    assert forall|i: int| 0 <= i < l.len() implies l[i] == r[i] by {
        if i < px.len() {
            assert(p[i] == px[i]);
        } else if i < p.len() - 1 {
            assert(p[i] == py[i - px.len()]);
        }
    }
    assert(l =~= r);
}

/// A character that a pattern `pat` does not hold, put after the text,
/// makes no new occurrence of it.
pub proof fn lemma_match_push(s: Seq<char>, pat: Seq<char>, c: char, k: int)
    requires
        pat.len() > 0,
        !pat.contains(c),
    ensures
        match_at(s.push(c), pat, k) == match_at(s, pat, k),
{
    let t = s.push(c);
    if 0 <= k && k + pat.len() <= s.len() {
        assert(t.subrange(k, k + pat.len()) =~= s.subrange(k, k + pat.len()));
    } else if 0 <= k && k + pat.len() == t.len() && pat.len() > 0 {
        if match_at(t, pat, k) {
            assert(pat[pat.len() - 1] == t.subrange(k, k + pat.len())[pat.len() - 1]);
            assert(pat[pat.len() - 1] == c);
            assert(pat.contains(c));
        }
    }
}

/// A character that a pattern `pat` does not hold, put after the text,
/// changes neither whether nor where it first occurs.
pub proof fn lemma_find_push(s: Seq<char>, pat: Seq<char>, c: char)
    requires
        pat.len() > 0,
        !pat.contains(c),
    ensures
        find(s.push(c), pat) == find(s, pat),
        contains(s.push(c), pat) == contains(s, pat),
{
    let t = s.push(c);
    assert forall|k: int| #[trigger] match_at(t, pat, k) == match_at(s, pat, k) by {
        lemma_match_push(s, pat, c, k);
    }
    assert forall|k: int| #[trigger] first_match(t, pat, k) == first_match(s, pat, k) by {
        lemma_match_push(s, pat, c, k);
        if first_match(t, pat, k) {
            assert forall|j: int| 0 <= j < k implies !#[trigger] match_at(s, pat, j) by {
                lemma_match_push(s, pat, c, j);
                assert(!match_at(t, pat, j));
            }
        }
        if first_match(s, pat, k) {
            assert forall|j: int| 0 <= j < k implies !#[trigger] match_at(t, pat, j) by {
                lemma_match_push(s, pat, c, j);
                assert(!match_at(s, pat, j));
            }
        }
    }
    match find(s, pat) {
        Some(k) => {
            lemma_find_some(s, pat);
            lemma_find_is_first(t, pat, k);
        },
        None => {
            if exists|k: int| first_match(t, pat, k) {
                let k = choose|k: int| first_match(t, pat, k);
                assert(first_match(s, pat, k));
            }
        },
    }
    if contains(t, pat) {
        let k = choose|k: int| match_at(t, pat, k);
        assert(match_at(s, pat, k));
    }
    if contains(s, pat) {
        let k = choose|k: int| match_at(s, pat, k);
        assert(match_at(t, pat, k));
    }
}

/// Stripping from the start removes exactly the leading run of `p`.
pub proof fn lemma_strip_start(s: Seq<char>, p: spec_fn(char) -> bool, i: int)
    requires
        0 <= i <= s.len(),
        forall|j: int| 0 <= j < i ==> p(#[trigger] s[j]),
        i == s.len() || !p(s[i]),
    ensures
        strip_start(s, p) == s.skip(i),
    decreases i,
{
    if i == 0 {
        assert(s.skip(0) =~= s);
    } else {
        let t = s.drop_first();
        assert(p(s[0]));
        assert forall|j: int| 0 <= j < i - 1 implies p(#[trigger] t[j]) by {
            assert(p(s[j + 1]));
        }
        lemma_strip_start(t, p, i - 1);
        assert(t.skip(i - 1) =~= s.skip(i));
    }
}

/// Stripping from the end removes exactly the trailing run of `p`.
pub proof fn lemma_strip_end(s: Seq<char>, p: spec_fn(char) -> bool, i: int)
    requires
        0 <= i <= s.len(),
        forall|j: int| i <= j < s.len() ==> p(#[trigger] s[j]),
        i == 0 || !p(s[i - 1]),
    ensures
        strip_end(s, p) == s.take(i),
    decreases s.len() - i,
{
    if i == s.len() {
        assert(s.take(i) =~= s);
    } else {
        let t = s.drop_last();
        assert(p(s[s.len() - 1]));
        assert forall|j: int| i <= j < t.len() implies p(#[trigger] t[j]) by {
            assert(p(s[j]));
        }
        lemma_strip_end(t, p, i);
        assert(t.take(i) =~= s.take(i));
    }
}

/// Trimming both ends of `s` keeps exactly `s[a..b]`.
pub proof fn lemma_strip_both(s: Seq<char>, p: spec_fn(char) -> bool, a: int, b: int)
    requires
        0 <= a <= b <= s.len(),
        forall|j: int| 0 <= j < a ==> p(#[trigger] s[j]),
        forall|j: int| b <= j < s.len() ==> p(#[trigger] s[j]),
        a == s.len() || !p(s[a]),
        a == b || !p(s[b - 1]),
    ensures
        strip_end(strip_start(s, p), p) == s.subrange(a, b),
{
    lemma_strip_start(s, p, a);
    let t = s.skip(a);
    assert forall|j: int| b - a <= j < t.len() implies p(#[trigger] t[j]) by {
        assert(p(s[j + a]));
    }
    lemma_strip_end(t, p, b - a);
    assert(t.take(b - a) =~= s.subrange(a, b));
}

// ---------------------------------------------------------------------------
// Executable operations
// ---------------------------------------------------------------------------

/// The characters of `s`, in order.
pub fn chars_of(s: &str) -> (v: Vec<char>)
    ensures
        v@ == s@,
{
    let mut v: Vec<char> = Vec::new();
    for c in it: s.chars()
        invariant
            v@ == it.seq().take(it.index() as int),
            it.seq() == s@,
    {
        v.push(c);
    }
    v
}

/// The string made of `chars` (`FromIterator<&char>` for `String`).
#[verifier::external_body]
pub(crate) fn string_from_chars(chars: &[char]) -> (s: String)
    ensures
        s@ == chars@,
{
    chars.iter().collect()
}

/// A copy of `v[a..b]`.
pub fn subvec(v: &Vec<char>, a: usize, b: usize) -> (r: Vec<char>)
    requires
        a <= b <= v.len(),
    ensures
        r@ == v@.subrange(a as int, b as int),
{
    let mut r: Vec<char> = Vec::new();
    let mut i = a;
    while i < b
        invariant
            a <= i <= b <= v.len(),
            r@ == v@.subrange(a as int, i as int),
        decreases b - i,
    {
        r.push(v[i]);
        i += 1;
    }
    r
}

/// The string `v[a..b]`.
pub fn substring(v: &Vec<char>, a: usize, b: usize) -> (r: String)
    requires
        a <= b <= v.len(),
    ensures
        r@ == v@.subrange(a as int, b as int),
{
    let part = subvec(v, a, b);
    string_from_chars(part.as_slice())
}

/// Whether `a` and `b` hold the same characters.
pub fn same_chars(a: &Vec<char>, b: &Vec<char>) -> (r: bool)
    ensures
        r == (a@ == b@),
{
    if a.len() != b.len() {
        return false;
    }
    let mut i: usize = 0;
    while i < a.len()
        invariant
            a.len() == b.len(),
            i <= a.len(),
            forall|j: int| 0 <= j < i ==> a@[j] == b@[j],
        decreases a.len() - i,
    {
        if a[i] != b[i] {
            return false;
        }
        i += 1;
    }
    assert(a@ =~= b@);
    true
}

/// Whether `pat` occurs in `s` at position `k`.
pub fn matches_at(s: &Vec<char>, pat: &Vec<char>, k: usize) -> (r: bool)
    ensures
        r == match_at(s@, pat@, k as int),
{
    if k > s.len() || pat.len() > s.len() - k {
        return false;
    }
    let mut i: usize = 0;
    while i < pat.len()
        invariant
            k + pat.len() <= s.len(),
            i <= pat.len(),
            forall|j: int| 0 <= j < i ==> s@[k + j] == pat@[j],
        decreases pat.len() - i,
    {
        if s[k + i] != pat[i] {
            assert(s@.subrange(k as int, k + pat.len())[i as int] != pat@[i as int]);
            return false;
        }
        i += 1;
    }
    assert(s@.subrange(k as int, k + pat.len()) =~= pat@);
    true
}

/// The first position of `pat` in `s`.
pub fn find_seq(s: &Vec<char>, pat: &Vec<char>) -> (r: Option<usize>)
    ensures
        match r {
            Some(k) => find(s@, pat@) == Some(k as int),
            None => find(s@, pat@) is None,
        },
        r is None <==> !contains(s@, pat@),
{
    let mut k: usize = 0;
    while k < s.len()
        invariant
            k <= s.len(),
            forall|j: int| 0 <= j < k ==> !#[trigger] match_at(s@, pat@, j),
        decreases s.len() - k,
    {
        if matches_at(s, pat, k) {
            proof {
                lemma_find_is_first(s@, pat@, k as int);
            }
            return Some(k);
        }
        k += 1;
    }
    if matches_at(s, pat, k) {
        proof {
            lemma_find_is_first(s@, pat@, k as int);
        }
        return Some(k);
    }
    assert forall|j: int| !#[trigger] match_at(s@, pat@, j) by {
        if 0 <= j <= s.len() {
        }
    }
    None
}

/// The last position of `pat` in `s`.
pub fn rfind_seq(s: &Vec<char>, pat: &Vec<char>) -> (r: Option<usize>)
    ensures
        match r {
            Some(k) => rfind(s@, pat@) == Some(k as int),
            None => rfind(s@, pat@) is None,
        },
{
    let mut k: usize = s.len();
    if matches_at(s, pat, k) {
        proof {
            lemma_rfind_is_last(s@, pat@, k as int);
        }
        return Some(k);
    }
    while k > 0
        invariant
            k <= s.len(),
            forall|j: int| k <= j ==> !#[trigger] match_at(s@, pat@, j),
        decreases k,
    {
        k -= 1;
        if matches_at(s, pat, k) {
            proof {
                lemma_rfind_is_last(s@, pat@, k as int);
            }
            return Some(k);
        }
    }
    None
}

/// Whether `s` begins with `pre`.
pub fn starts_with_seq(s: &Vec<char>, pre: &Vec<char>) -> (r: bool)
    ensures
        r == starts_with(s@, pre@),
{
    let r = matches_at(s, pre, 0);
    proof {
        if r {
            assert(s@.take(pre@.len() as int) =~= s@.subrange(0, pre@.len() as int));
        } else if starts_with(s@, pre@) {
            assert(s@.take(pre@.len() as int) =~= s@.subrange(0, pre@.len() as int));
        }
    }
    r
}

/// The first position at or after `from` of one of the characters of `seps`.
fn find_sep_from(s: &Vec<char>, seps: &Vec<char>, from: usize) -> (r: usize)
    requires
        from <= s.len(),
    ensures
        from <= r <= s.len(),
        forall|j: int| from <= j < r ==> !seps@.contains(#[trigger] s@[j]),
        r < s.len() ==> seps@.contains(s@[r as int]),
{
    let mut i = from;
    while i < s.len()
        invariant
            from <= i <= s.len(),
            forall|j: int| from <= j < i ==> !seps@.contains(#[trigger] s@[j]),
        decreases s.len() - i,
    {
        if is_one_of(s[i], seps) {
            return i;
        }
        i += 1;
    }
    i
}

/// Whether `c` is one of the characters of `seps`.
pub fn is_one_of(c: char, seps: &Vec<char>) -> (r: bool)
    ensures
        r == seps@.contains(c),
{
    let mut i: usize = 0;
    while i < seps.len()
        invariant
            i <= seps.len(),
            forall|j: int| 0 <= j < i ==> seps@[j] != c,
        decreases seps.len() - i,
    {
        if seps[i] == c {
            assert(seps@[i as int] == c);
            return true;
        }
        i += 1;
    }
    false
}

/// Every span of `spans` lies within a text of length `n`.
pub open spec fn spans_within(spans: Seq<(usize, usize)>, n: int) -> bool {
    forall|i: int| 0 <= i < spans.len() ==> (#[trigger] spans[i]).0 <= spans[i].1 <= n
}

/// The view of the pieces of `s` that `spans` mark.
pub open spec fn spans_view(s: Seq<char>, spans: Seq<(usize, usize)>) -> Seq<Seq<char>> {
    spans.map_values(|p: (usize, usize)| s.subrange(p.0 as int, p.1 as int))
}

/// The spans of the pieces of `s` between the characters of `seps`.
pub fn split_spans(s: &Vec<char>, seps: &Vec<char>) -> (spans: Vec<(usize, usize)>)
    ensures
        spans_view(s@, spans@) == split_by(s@, seps@),
        spans_within(spans@, s.len() as int),
{
    let mut spans: Vec<(usize, usize)> = Vec::new();
    let mut start: usize = 0;
    assert(s@.skip(0) =~= s@);
    assert(spans_view(s@, spans@) =~= Seq::<Seq<char>>::empty());
    loop
        invariant
            start <= s.len(),
            split_by(s@, seps@) == spans_view(s@, spans@) + split_by(s@.skip(start as int), seps@),
            spans_within(spans@, s.len() as int),
        decreases s.len() - start,
    {
        let ghost rest = s@.skip(start as int);
        let e = find_sep_from(s, seps, start);
        if e == s.len() {
            proof {
                assert forall|j: int| 0 <= j < rest.len() implies !seps@.contains(
                    #[trigger] rest[j],
                ) by {
                    assert(rest[j] == s@[start + j]);
                }
                lemma_split_by_last(rest, seps@);
            }
            let ghost old_spans = spans@;
            spans.push((start, e));
            proof {
                assert(rest =~= s@.subrange(start as int, e as int));
                assert(spans_view(s@, spans@) =~= spans_view(s@, old_spans) + seq![rest]);
            }
            return spans;
        }
        proof {
            assert forall|j: int| 0 <= j < e - start implies !seps@.contains(
                #[trigger] rest[j],
            ) by {
                assert(rest[j] == s@[start + j]);
            }
            assert(rest[e - start] == s@[e as int]);
            assert(first_sep(rest, seps@, e - start));
            lemma_split_by_step(rest, seps@, e - start);
            assert(rest.take(e - start) =~= s@.subrange(start as int, e as int));
            assert(rest.skip(e - start + 1) =~= s@.skip(e + 1));
        }
        let ghost old_spans = spans@;
        spans.push((start, e));
        proof {
            assert(spans_view(s@, spans@) =~= spans_view(s@, old_spans) + seq![
                s@.subrange(start as int, e as int),
            ]);
        }
        start = e + 1;
    }
}

/// The spans of the lines of `s`, as `lines` describes them.
pub fn line_spans(s: &Vec<char>) -> (spans: Vec<(usize, usize)>)
    ensures
        spans_view(s@, spans@) == lines(s@),
        spans_within(spans@, s.len() as int),
{
    let mut seps: Vec<char> = Vec::new();
    seps.push('\n');
    assert(seps@ =~= seq!['\n']);
    let pieces = split_spans(s, &seps);
    proof {
        lemma_split_by_nonempty(s@, seps@);
    }
    let ghost pv = split_by(s@, seq!['\n']);
    let n = pieces.len();
    let mut spans: Vec<(usize, usize)> = Vec::new();
    let mut i: usize = 0;
    while i + 1 < n
        invariant
            n == pieces.len(),
            n >= 1,
            i + 1 <= n,
            spans_view(s@, pieces@) == pv,
            spans_within(pieces@, s.len() as int),
            spans.len() == i,
            spans_within(spans@, s.len() as int),
            forall|j: int|
                0 <= j < i ==> s@.subrange(spans@[j].0 as int, spans@[j].1 as int) == strip_cr(
                    #[trigger] pv[j],
                ),
        decreases n - i,
    {
        let (a, b) = pieces[i];
        assert(pv[i as int] == s@.subrange(a as int, b as int));
        if a < b && s[b - 1] == '\r' {
            assert(s@.subrange(a as int, b as int).drop_last() =~= s@.subrange(
                a as int,
                b - 1,
            ));
            spans.push((a, b - 1));
        } else {
            spans.push((a, b));
        }
        i += 1;
    }
    let (a, b) = pieces[n - 1];
    assert(pv[n - 1] == s@.subrange(a as int, b as int));
    if a < b {
        spans.push((a, b));
    }
    proof {
        assert(spans_view(s@, spans@) =~= lines(s@));
    }
    spans
}

/// The text before the first `c` in `v`, or all of `v`.
pub fn before_first_char(v: &Vec<char>, c: char) -> (r: Vec<char>)
    ensures
        r@ == before_first(v@, c),
{
    let mut seps: Vec<char> = Vec::new();
    seps.push(c);
    assert(seps@ =~= seq![c]);
    let e = find_sep_from(v, &seps, 0);
    if e < v.len() {
        proof {
            assert(first_sep(v@, seq![c], e as int));
            lemma_find_sep_is_first(v@, seq![c], e as int);
        }
    } else {
        assert(!exists|k: int| first_sep(v@, seq![c], k));
        assert(v@.subrange(0, v.len() as int) =~= v@);
    }
    subvec(v, 0, e)
}

/// Whether `c` is white space (`char::is_whitespace`).
pub fn is_whitespace(c: char) -> (r: bool)
    ensures
        r == is_ws(c),
{
    ('\u{9}' <= c && c <= '\u{d}') || c == ' ' || c == '\u{85}' || c == '\u{a0}' || c
        == '\u{1680}' || ('\u{2000}' <= c && c <= '\u{200a}') || c == '\u{2028}' || c
        == '\u{2029}' || c == '\u{202f}' || c == '\u{205f}' || c == '\u{3000}'
}

/// `v` without white space at either end.
pub fn trim_ws(v: &Vec<char>) -> (r: Vec<char>)
    ensures
        r@ == trim(v@),
{
    let ghost p = ws_pred();
    let mut a: usize = 0;
    while a < v.len() && is_whitespace(v[a])
        invariant
            a <= v.len(),
            p == ws_pred(),
            forall|j: int| 0 <= j < a ==> p(#[trigger] v@[j]),
        decreases v.len() - a,
    {
        assert(p(v@[a as int]));
        a += 1;
    }
    let mut b: usize = v.len();
    while b > a && is_whitespace(v[b - 1])
        invariant
            a <= b <= v.len(),
            p == ws_pred(),
            forall|j: int| b <= j < v.len() ==> p(#[trigger] v@[j]),
        decreases b,
    {
        assert(p(v@[b - 1]));
        b -= 1;
    }
    proof {
        lemma_strip_both(v@, p, a as int, b as int);
    }
    subvec(v, a, b)
}

/// `v` without the character `c` at either end.
pub fn trim_char_seq(v: &Vec<char>, c: char) -> (r: Vec<char>)
    ensures
        r@ == trim_char(v@, c),
{
    let ghost p = char_pred(c);
    let mut a: usize = 0;
    while a < v.len() && v[a] == c
        invariant
            a <= v.len(),
            p == char_pred(c),
            forall|j: int| 0 <= j < a ==> p(#[trigger] v@[j]),
        decreases v.len() - a,
    {
        assert(p(v@[a as int]));
        a += 1;
    }
    let mut b: usize = v.len();
    while b > a && v[b - 1] == c
        invariant
            a <= b <= v.len(),
            p == char_pred(c),
            forall|j: int| b <= j < v.len() ==> p(#[trigger] v@[j]),
        decreases b,
    {
        assert(p(v@[b - 1]));
        b -= 1;
    }
    proof {
        lemma_strip_both(v@, p, a as int, b as int);
    }
    subvec(v, a, b)
}

/// `digits_value` grows by a digit as the decimal notation says.
proof fn lemma_digits_push(d: Seq<char>, c: char)
    ensures
        digits_value(d.push(c)) == digits_value(d) * 10 + ((c as u32) - ('0' as u32)) as nat,
{
    assert(d.push(c).drop_last() =~= d);
}

/// Parses `v` as an unsigned decimal no larger than `max` (`str::parse`).
pub fn parse_unsigned_max(v: &Vec<char>, max: u64) -> (r: Option<u64>)
    ensures
        match r {
            Some(x) => parse_unsigned(v@, max as nat) == Some(x as nat),
            None => parse_unsigned(v@, max as nat) is None,
        },
{
    let start: usize = if v.len() > 0 && v[0] == '+' {
        1
    } else {
        0
    };
    let ghost d = if v@.len() > 0 && v@[0] == '+' {
        v@.drop_first()
    } else {
        v@
    };
    assert(d =~= v@.skip(start as int));
    if start >= v.len() {
        assert(d.len() == 0);
        return None;
    }
    let mut value: u64 = 0;
    let mut over = false;
    let mut i = start;
    while i < v.len()
        invariant
            start <= i <= v.len(),
            d == v@.skip(start as int),
            d == (if v@.len() > 0 && v@[0] == '+' {
                v@.drop_first()
            } else {
                v@
            }),
            forall|j: int| start <= j < i ==> '0' <= #[trigger] v@[j] <= '9',
            over ==> digits_value(v@.subrange(start as int, i as int)) > max,
            !over ==> value == digits_value(v@.subrange(start as int, i as int)),
            !over ==> value <= max,
        decreases v.len() - i,
    {
        let c = v[i];
        if !('0' <= c && c <= '9') {
            assert(d[i - start] == c);
            assert(!all_digits(d));
            return None;
        }
        let ghost prev = v@.subrange(start as int, i as int);
        proof {
            assert(v@.subrange(start as int, i + 1) =~= prev.push(c));
            lemma_digits_push(prev, c);
        }
        let digit = (c as u32 - '0' as u32) as u64;
        if !over {
            if digit > max || value > (max - digit) / 10 {
                over = true;
                if digit <= max {
                    assert(value * 10 + digit > max) by (nonlinear_arith)
                        requires
                            value > (max - digit) / 10,
                            digit <= max,
                    ;
                }
            } else {
                assert(value * 10 + digit <= max) by (nonlinear_arith)
                    requires
                        value <= (max - digit) / 10,
                        digit <= max,
                ;
                value = value * 10 + digit;
            }
        }
        i += 1;
    }
    assert(v@.subrange(start as int, v.len() as int) =~= d);
    assert forall|j: int| 0 <= j < d.len() implies '0' <= #[trigger] d[j] <= '9' by {
        assert(d[j] == v@[j + start]);
    }
    if over {
        None
    } else {
        Some(value)
    }
}


// ---------------------------------------------------------------------------
// Byte lengths
// ---------------------------------------------------------------------------

/// The number of bytes UTF-8 takes for `c` (`char::len_utf8`).
pub open spec fn char_width(c: char) -> nat {
    if (c as u32) < 0x80 {
        1
    } else if (c as u32) < 0x800 {
        2
    } else if (c as u32) < 0x10000 {
        3
    } else {
        4
    }
}

/// The number of bytes UTF-8 takes for `s` (`str::len`).
pub open spec fn utf8_len(s: Seq<char>) -> nat
    decreases s.len(),
{
    if s.len() == 0 {
        0
    } else {
        utf8_len(s.drop_last()) + char_width(s.last())
    }
}

/// The characters that make up exactly the first `n` bytes of `s`, if `n`
/// falls on a character boundary within `s` (`str::get(..n)`).
pub open spec fn first_bytes(s: Seq<char>, n: nat) -> Option<Seq<char>> {
    if exists|k: int| 0 <= k <= s.len() && utf8_len(#[trigger] s.take(k)) == n {
        Some(s.take(choose|k: int| 0 <= k <= s.len() && utf8_len(#[trigger] s.take(k)) == n))
    } else {
        None
    }
}

/// Longer prefixes take more bytes.
pub proof fn lemma_utf8_len_grows(s: Seq<char>, a: int, b: int)
    requires
        0 <= a < b <= s.len(),
    ensures
        utf8_len(s.take(a)) < utf8_len(s.take(b)),
    decreases b - a,
{
    assert(s.take(b).drop_last() =~= s.take(b - 1));
    if a < b - 1 {
        lemma_utf8_len_grows(s, a, b - 1);
    }
}

/// The width of one character, as the code computes it.
pub fn width_of(c: char) -> (w: usize)
    ensures
        w == char_width(c),
{
    let u = c as u32;
    if u < 0x80 {
        1
    } else if u < 0x800 {
        2
    } else if u < 0x10000 {
        3
    } else {
        4
    }
}

/// The characters that make up exactly the first `n` bytes of `v`, if `n`
/// falls on a character boundary within `v`.
pub fn first_bytes_of(v: &Vec<char>, n: usize) -> (r: Option<Vec<char>>)
    requires
        n <= usize::MAX - 4,
    ensures
        match r {
            Some(p) => first_bytes(v@, n as nat) == Some(p@),
            None => first_bytes(v@, n as nat) is None,
        },
{
    let mut i: usize = 0;
    let mut acc: usize = 0;
    assert(v@.take(0) =~= Seq::<char>::empty());
    while i < v.len() && acc < n
        invariant
            i <= v.len(),
            acc == utf8_len(v@.take(i as int)),
            n <= usize::MAX - 4,
            i > 0 ==> utf8_len(v@.take(i - 1)) < n,
        decreases v.len() - i,
    {
        proof {
            assert(v@.take(i + 1).drop_last() =~= v@.take(i as int));
        }
        acc = acc + width_of(v[i]);
        i += 1;
    }
    if acc == n {
        proof {
            assert(0 <= i <= v@.len() && utf8_len(v@.take(i as int)) == n);
            let k = choose|k: int| 0 <= k <= v@.len() && utf8_len(#[trigger] v@.take(k)) == n;
            if k < i {
                lemma_utf8_len_grows(v@, k, i as int);
            } else if i < k {
                lemma_utf8_len_grows(v@, i as int, k);
            }
        }
        return Some(subvec(v, 0, i));
    }
    proof {
        assert forall|k: int| 0 <= k <= v@.len() implies utf8_len(#[trigger] v@.take(k)) != n by {
            if k < i {
                if k < i - 1 {
                    lemma_utf8_len_grows(v@, k, i - 1);
                }
            } else if i < k {
                lemma_utf8_len_grows(v@, i as int, k);
            }
        }
    }
    None
}

} // verus!
