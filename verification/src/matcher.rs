//! Matching of a request path against a route pattern.
//!
//! Both are read as bytes and cut into segments at `/`; empty segments do not
//! count, so `/a//b/` has the segments `a` and `b`. A pattern segment is
//! - `*`, which stands for the whole rest of the path, empty or not, and is
//!   only understood as the last segment of its pattern;
//! - `:` followed by a name, which stands for any one segment;
//! - anything else, which stands for itself.
//! A pattern that breaks these rules matches no path.

use vstd::prelude::*;
use vstd::string::StringSliceAdditionalSpecFns;

verus! {

/// The byte that parts segments.
pub const SLASH: u8 = 47;

/// The byte that opens a parameter segment.
pub const COLON: u8 = 58;

/// The byte that makes up the wildcard segment.
pub const STAR: u8 = 42;

/// How many bytes stand between position `i` and the next slash, or the end.
pub open spec fn run_len(s: Seq<u8>, i: int) -> nat
    decreases s.len() - i,
{
    if 0 <= i < s.len() && s[i] != SLASH {
        1 + run_len(s, i + 1)
    } else {
        0
    }
}

/// A run of bytes ends within the sequence.
pub proof fn lemma_run_len_bound(s: Seq<u8>, i: int)
    requires
        0 <= i <= s.len(),
    ensures
        i + run_len(s, i) <= s.len(),
    decreases s.len() - i,
{
    if i < s.len() && s[i] != SLASH {
        lemma_run_len_bound(s, i + 1);
    }
}

/// The segments of `s` that begin at position `i` or later.
pub open spec fn segments_from(s: Seq<u8>, i: int) -> Seq<Seq<u8>>
    decreases s.len() - i,
    via segments_from_decreases
{
    if i < 0 || i >= s.len() {
        Seq::empty()
    } else if s[i] == SLASH {
        segments_from(s, i + 1)
    } else {
        let end = i + 1 + run_len(s, i + 1);
        seq![s.subrange(i, end)] + segments_from(s, end)
    }
}

#[via_fn]
proof fn segments_from_decreases(s: Seq<u8>, i: int) {
    if 0 <= i < s.len() {
        lemma_run_len_bound(s, i + 1);
    }
}

/// The segments of `s`, in order.
pub open spec fn segments(s: Seq<u8>) -> Seq<Seq<u8>> {
    segments_from(s, 0)
}

/// Whether a pattern segment is the wildcard.
pub open spec fn is_wildcard(segment: Seq<u8>) -> bool {
    segment.len() == 1 && segment[0] == STAR
}

/// Whether a pattern segment is a parameter.
pub open spec fn is_parameter(segment: Seq<u8>) -> bool {
    segment.len() >= 1 && segment[0] == COLON
}

/// Whether the segments of a pattern match the segments of a path.
pub open spec fn segments_match(pattern: Seq<Seq<u8>>, path: Seq<Seq<u8>>) -> bool
    decreases pattern.len(),
{
    if pattern.len() == 0 {
        path.len() == 0
    } else if is_wildcard(pattern[0]) {
        pattern.len() == 1
    } else if path.len() == 0 {
        false
    } else if is_parameter(pattern[0]) {
        pattern[0].len() > 1 && segments_match(pattern.drop_first(), path.drop_first())
    } else {
        pattern[0] == path[0] && segments_match(pattern.drop_first(), path.drop_first())
    }
}

/// Whether the pattern `pattern` matches the path `path`, both as bytes.
pub open spec fn path_matches(pattern: Seq<u8>, path: Seq<u8>) -> bool {
    segments_match(segments(pattern), segments(path))
}

/// Whether every segment of `pattern` stands for itself.
pub open spec fn is_literal(pattern: Seq<u8>) -> bool {
    forall|k: int|
        0 <= k < segments(pattern).len() ==> !is_wildcard(#[trigger] segments(pattern)[k])
            && !is_parameter(segments(pattern)[k])
}

/// Segments that all stand for themselves match themselves.
proof fn lemma_literal_segments_match(segs: Seq<Seq<u8>>)
    requires
        forall|k: int|
            0 <= k < segs.len() ==> !is_wildcard(#[trigger] segs[k]) && !is_parameter(segs[k]),
    ensures
        segments_match(segs, segs),
    decreases segs.len(),
{
    if segs.len() > 0 {
        let rest = segs.drop_first();
        assert forall|k: int| 0 <= k < rest.len() implies !is_wildcard(#[trigger] rest[k])
            && !is_parameter(rest[k]) by {
            assert(rest[k] == segs[k + 1]);
        }
        lemma_literal_segments_match(rest);
    }
}

/// A pattern without wildcard and parameters matches the path that is
/// written as the pattern is.
pub proof fn law_literal_matches_itself(pattern: Seq<u8>)
    requires
        is_literal(pattern),
    ensures
        path_matches(pattern, pattern),
{
    lemma_literal_segments_match(segments(pattern));
}

/// Finds the first segment of `s` at or after `from`: the position of its
/// first byte and the position after its last one.
fn next_segment(s: &[u8], from: usize) -> (r: Option<(usize, usize)>)
    requires
        from <= s@.len(),
    ensures
        match r {
            None => segments_from(s@, from as int) == Seq::<Seq<u8>>::empty(),
            Some((start, end)) => {
                &&& from <= start < end <= s@.len()
                &&& segments_from(s@, from as int) == seq![s@.subrange(start as int, end as int)]
                    + segments_from(s@, end as int)
            },
        },
{
    let mut start: usize = from;
    while start < s.len() && s[start] == SLASH
        invariant
            from <= start <= s@.len(),
            segments_from(s@, from as int) == segments_from(s@, start as int),
        decreases s@.len() - start,
    {
        start += 1;
    }
    if start >= s.len() {
        return None;
    }
    let mut end: usize = start + 1;
    while end < s.len() && s[end] != SLASH
        invariant
            start < end <= s@.len(),
            end + run_len(s@, end as int) == start + 1 + run_len(s@, start + 1),
        decreases s@.len() - end,
    {
        end += 1;
    }
    Some((start, end))
}

/// Compares two stretches of bytes.
fn same_bytes(p: &[u8], a: usize, b: usize, q: &[u8], c: usize, d: usize) -> (r: bool)
    requires
        a <= b <= p@.len(),
        c <= d <= q@.len(),
    ensures
        r == (p@.subrange(a as int, b as int) == q@.subrange(c as int, d as int)),
{
    if b - a != d - c {
        assert(p@.subrange(a as int, b as int).len() != q@.subrange(c as int, d as int).len());
        return false;
    }
    let n: usize = b - a;
    let mut k: usize = 0;
    assert(p@.subrange(a as int, a + 0) =~= q@.subrange(c as int, c + 0));
    while k < n
        invariant
            a <= b <= p@.len(),
            c <= d <= q@.len(),
            n == b - a,
            n == d - c,
            k <= n,
            p@.subrange(a as int, a + k) == q@.subrange(c as int, c + k),
        decreases n - k,
    {
        if p[a + k] != q[c + k] {
            assert(p@.subrange(a as int, b as int)[k as int] != q@.subrange(
                c as int,
                d as int,
            )[k as int]);
            return false;
        }
        assert(p@.subrange(a as int, a + k + 1) =~= p@.subrange(a as int, a + k).push(p@[a + k]));
        assert(q@.subrange(c as int, c + k + 1) =~= q@.subrange(c as int, c + k).push(q@[c + k]));
        k += 1;
    }
    true
}

/// Decides whether `pattern` matches `path`. Every pair of strings gets an
/// answer: a pattern that cannot be understood matches nothing.
pub fn is_match(pattern: &str, path: &str) -> (r: bool)
    ensures
        r == path_matches(pattern.spec_bytes(), path.spec_bytes()),
{
    let p = pattern.as_bytes();
    let q = path.as_bytes();
    let mut i: usize = 0;
    let mut j: usize = 0;
    loop
        invariant
            p@ == pattern.spec_bytes(),
            q@ == path.spec_bytes(),
            i <= p@.len(),
            j <= q@.len(),
            path_matches(p@, q@) == segments_match(
                segments_from(p@, i as int),
                segments_from(q@, j as int),
            ),
        decreases p@.len() - i,
    {
        match next_segment(p, i) {
            None => {
                return next_segment(q, j).is_none();
            },
            Some((a, b)) => {
                let ghost head = p@.subrange(a as int, b as int);
                let ghost rest = segments_from(p@, b as int);
                assert((seq![head] + rest).drop_first() =~= rest);
                if b - a == 1 && p[a] == STAR {
                    return next_segment(p, b).is_none();
                }
                match next_segment(q, j) {
                    None => {
                        return false;
                    },
                    Some((c, d)) => {
                        let ghost qhead = q@.subrange(c as int, d as int);
                        let ghost qrest = segments_from(q@, d as int);
                        assert((seq![qhead] + qrest).drop_first() =~= qrest);
                        if p[a] == COLON {
                            if b - a == 1 {
                                return false;
                            }
                        } else if !same_bytes(p, a, b, q, c, d) {
                            return false;
                        }
                        i = b;
                        j = d;
                    },
                }
            },
        }
    }
}

} // verus!
