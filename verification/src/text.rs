//! Character-level helpers shared by the specification parser: whitespace
//! classification, whitespace runs, token boundaries and trimming.

use vstd::prelude::*;

verus! {

/// The whitespace characters the parser tolerates between tokens.
pub open spec fn is_ws(c: char) -> bool {
    c == ' ' || c == '\n' || c == '\t' || c == '\r'
}

/// First index at or after `i` holding a non-whitespace character, or the
/// length of `s` when only whitespace follows.
pub open spec fn ws_end(s: Seq<char>, i: int) -> int
    decreases s.len() - i,
{
    if 0 <= i < s.len() && is_ws(s[i]) {
        ws_end(s, i + 1)
    } else {
        i
    }
}

/// First index at or after `i` holding a whitespace character, or the length
/// of `s` when the token runs to the end.
pub open spec fn token_end(s: Seq<char>, i: int) -> int
    decreases s.len() - i,
{
    if 0 <= i < s.len() && !is_ws(s[i]) {
        token_end(s, i + 1)
    } else {
        i
    }
}

/// Last index at or before `j` such that no whitespace character directly
/// precedes it: the exclusive end of `s[..j]` with trailing whitespace dropped.
pub open spec fn rtrim_end(s: Seq<char>, j: int) -> int
    decreases j,
{
    if 0 < j <= s.len() && is_ws(s[j - 1]) {
        rtrim_end(s, j - 1)
    } else {
        j
    }
}

/// `s` with leading and trailing whitespace removed.
pub open spec fn trim(s: Seq<char>) -> Seq<char> {
    let a = ws_end(s, 0);
    let b = rtrim_end(s, s.len() as int);
    if a <= b {
        s.subrange(a, b)
    } else {
        Seq::empty()
    }
}

/// The first whitespace-delimited token of `s`; empty when `s` holds only
/// whitespace.
pub open spec fn first_token(s: Seq<char>) -> Seq<char> {
    s.subrange(ws_end(s, 0), token_end(s, ws_end(s, 0)))
}

pub proof fn lemma_ws_end(s: Seq<char>, i: int)
    requires
        0 <= i <= s.len(),
    ensures
        i <= ws_end(s, i) <= s.len(),
        forall|q: int| i <= q < ws_end(s, i) ==> is_ws(s[q]),
        ws_end(s, i) == s.len() || !is_ws(s[ws_end(s, i)]),
    decreases s.len() - i,
{
    if i < s.len() && is_ws(s[i]) {
        lemma_ws_end(s, i + 1);
    }
}

pub proof fn lemma_rtrim_end(s: Seq<char>, j: int)
    requires
        0 <= j <= s.len(),
    ensures
        0 <= rtrim_end(s, j) <= j,
        forall|q: int| rtrim_end(s, j) <= q < j ==> is_ws(s[q]),
        rtrim_end(s, j) == 0 || !is_ws(s[rtrim_end(s, j) - 1]),
    decreases j,
{
    if 0 < j && is_ws(s[j - 1]) {
        lemma_rtrim_end(s, j - 1);
    }
}

/// A whitespace run with a known end determines `ws_end`.
pub proof fn lemma_ws_end_unique(s: Seq<char>, i: int, j: int)
    requires
        0 <= i <= j <= s.len(),
        forall|q: int| i <= q < j ==> is_ws(s[q]),
        j == s.len() || !is_ws(s[j]),
    ensures
        ws_end(s, i) == j,
    decreases j - i,
{
    if i < j {
        lemma_ws_end_unique(s, i + 1, j);
    }
}

/// A non-whitespace run with a known end determines `token_end`.
pub proof fn lemma_token_end_unique(s: Seq<char>, i: int, j: int)
    requires
        0 <= i <= j <= s.len(),
        forall|q: int| i <= q < j ==> !is_ws(s[q]),
        j == s.len() || is_ws(s[j]),
    ensures
        token_end(s, i) == j,
    decreases j - i,
{
    if i < j {
        lemma_token_end_unique(s, i + 1, j);
    }
}

/// A trailing whitespace run with a known start determines `rtrim_end`.
pub proof fn lemma_rtrim_end_unique(s: Seq<char>, i: int, j: int)
    requires
        0 <= i <= j <= s.len(),
        forall|q: int| i <= q < j ==> is_ws(s[q]),
        i == 0 || !is_ws(s[i - 1]),
    ensures
        rtrim_end(s, j) == i,
    decreases j - i,
{
    if i < j {
        lemma_rtrim_end_unique(s, i, j - 1);
    }
}

/// A whitespace scan that ends inside a prefix is unaffected by what follows
/// the prefix; one that reaches the prefix's end continues into the suffix.
pub proof fn lemma_ws_end_concat(a: Seq<char>, b: Seq<char>, i: int)
    requires
        0 <= i <= a.len(),
    ensures
        ws_end(a, i) < a.len() ==> ws_end(a + b, i) == ws_end(a, i),
        ws_end(a, i) == a.len() ==> ws_end(a + b, i) == ws_end(a + b, a.len() as int),
    decreases a.len() - i,
{
    lemma_ws_end(a, i);
    if i < a.len() {
        assert((a + b)[i] == a[i]);
        if is_ws(a[i]) {
            lemma_ws_end_concat(a, b, i + 1);
        } else {
            assert(ws_end(a, i) == i);
            assert(ws_end(a + b, i) == i);
        }
    }
}

/// A whitespace scan that starts inside the suffix of a concatenation scans
/// the suffix alone.
pub proof fn lemma_ws_end_suffix(a: Seq<char>, b: Seq<char>, x: int)
    requires
        a.len() <= x <= a.len() + b.len(),
    ensures
        ws_end(a + b, x) == a.len() + ws_end(b, x - a.len()),
    decreases a.len() + b.len() - x,
{
    if x < a.len() + b.len() {
        assert((a + b)[x] == b[x - a.len()]);
        if is_ws(b[x - a.len()]) {
            lemma_ws_end_suffix(a, b, x + 1);
        }
    }
}

/// Trimming a trimmed, non-empty sequence pins its endpoints.
pub proof fn lemma_trimmed_endpoints(c: Seq<char>)
    requires
        trim(c) == c,
        c.len() > 0,
    ensures
        !is_ws(c[0]),
        !is_ws(c.last()),
{
    let a = ws_end(c, 0);
    let b = rtrim_end(c, c.len() as int);
    lemma_ws_end(c, 0);
    lemma_rtrim_end(c, c.len() as int);
    if a <= b {
        assert(c.subrange(a, b).len() == b - a);
        assert(a == 0 && b == c.len());
    } else {
        assert(trim(c).len() == 0);
    }
}

/// Trimming strips exactly the surrounding whitespace: padding a trimmed
/// sequence with whitespace on both sides and trimming recovers it.
pub proof fn lemma_trim_concat(pre: Seq<char>, c: Seq<char>, post: Seq<char>)
    requires
        forall|q: int| 0 <= q < pre.len() ==> is_ws(#[trigger] pre[q]),
        forall|q: int| 0 <= q < post.len() ==> is_ws(#[trigger] post[q]),
        c.len() == 0 || (!is_ws(c[0]) && !is_ws(c.last())),
    ensures
        trim(pre + c + post) == c,
{
    let s = pre + c + post;
    assert(s.len() == pre.len() + c.len() + post.len());
    if c.len() == 0 {
        assert forall|q: int| 0 <= q < s.len() implies is_ws(s[q]) by {
            if q < pre.len() {
                assert(s[q] == pre[q]);
            } else {
                assert(s[q] == post[q - pre.len()]);
            }
        }
        lemma_ws_end_unique(s, 0, s.len() as int);
        lemma_rtrim_end_unique(s, 0, s.len() as int);
        if s.len() == 0 {
            assert(trim(s) =~= c);
        } else {
            assert(trim(s) =~= c);
        }
    } else {
        assert forall|q: int| 0 <= q < pre.len() implies is_ws(s[q]) by {
            assert(s[q] == pre[q]);
        }
        assert(s[pre.len() as int] == c[0]);
        lemma_ws_end_unique(s, 0, pre.len() as int);
        assert forall|q: int| pre.len() + c.len() <= q < s.len() implies is_ws(s[q]) by {
            assert(s[q] == post[q - pre.len() - c.len()]);
        }
        assert(s[pre.len() + c.len() - 1] == c.last());
        lemma_rtrim_end_unique(s, pre.len() + c.len() as int, s.len() as int);
        assert(trim(s) =~= c);
    }
}

/// Whether `c` is one of the whitespace characters the parser tolerates.
pub fn is_ws_char(c: char) -> (r: bool)
    ensures
        r == is_ws(c),
{
    c == ' ' || c == '\n' || c == '\t' || c == '\r'
}

/// Executable whitespace-run scan matching `ws_end`.
pub fn scan_ws_end(s: &[char], i: usize) -> (r: usize)
    requires
        i <= s@.len(),
    ensures
        r == ws_end(s@, i as int),
        i <= r <= s@.len(),
    decreases s@.len() - i,
{
    if i < s.len() && is_ws_char(s[i]) {
        scan_ws_end(s, i + 1)
    } else {
        i
    }
}

/// Executable token scan matching `token_end`.
pub fn scan_token_end(s: &[char], i: usize) -> (r: usize)
    requires
        i <= s@.len(),
    ensures
        r == token_end(s@, i as int),
        i <= r <= s@.len(),
    decreases s@.len() - i,
{
    if i < s.len() && !is_ws_char(s[i]) {
        scan_token_end(s, i + 1)
    } else {
        i
    }
}

/// Executable trailing-whitespace scan matching `rtrim_end`.
pub fn scan_rtrim_end(s: &[char], j: usize) -> (r: usize)
    requires
        j <= s@.len(),
    ensures
        r == rtrim_end(s@, j as int),
        r <= j,
    decreases j,
{
    if 0 < j && is_ws_char(s[j - 1]) {
        scan_rtrim_end(s, j - 1)
    } else {
        j
    }
}

/// Copies `s[from..to]` into a fresh vector.
pub fn copy_range(s: &[char], from: usize, to: usize) -> (r: Vec<char>)
    requires
        from <= to <= s@.len(),
    ensures
        r@ == s@.subrange(from as int, to as int),
{
    let mut r: Vec<char> = Vec::new();
    let mut i: usize = from;
    while i < to
        invariant
            from <= i <= to <= s@.len(),
            r@ == s@.subrange(from as int, i as int),
        decreases to - i,
    {
        r.push(s[i]);
        proof {
            assert(r@ =~= s@.subrange(from as int, i + 1 as int));
        }
        i += 1;
    }
    r
}

/// `s[from..to]` with surrounding whitespace removed.
pub fn trimmed_range(s: &[char], from: usize, to: usize) -> (r: Vec<char>)
    requires
        from <= to <= s@.len(),
    ensures
        r@ == trim(s@.subrange(from as int, to as int)),
{
    let piece = copy_range(s, from, to);
    let a = scan_ws_end(piece.as_slice(), 0);
    let b = scan_rtrim_end(piece.as_slice(), piece.len());
    if a <= b {
        copy_range(piece.as_slice(), a, b)
    } else {
        proof {
            assert(trim(piece@) == Seq::<char>::empty());
        }
        Vec::new()
    }
}

} // verus!
