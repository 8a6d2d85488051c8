//! White space, trimming and prefixes on byte strings.
//!
//! The byte strings are text in UTF-8, and white space is counted by
//! character: a character of white space is one, two or three bytes long.

use vstd::prelude::*;

verus! {

/// The white space of one byte: tab, line feed, vertical tab, form feed,
/// carriage return and space.
pub open spec fn is_space(b: u8) -> bool {
    b == 0x20 || (0x09 <= b && b <= 0x0D)
}

/// The white space of two bytes: the next-line control U+0085 and the
/// no-break space U+00A0.
pub open spec fn is_space_pair(a: u8, b: u8) -> bool {
    a == 0xC2 && (b == 0x85 || b == 0xA0)
}

/// The white space of three bytes: U+1680, U+2000 to U+200A, U+2028,
/// U+2029, U+202F, U+205F and U+3000.
pub open spec fn is_space_triple(a: u8, b: u8, c: u8) -> bool {
    ||| (a == 0xE1 && b == 0x9A && c == 0x80)
    ||| (a == 0xE2 && b == 0x80 && ((0x80 <= c && c <= 0x8A) || c == 0xA8 || c == 0xA9 || c
        == 0xAF))
    ||| (a == 0xE2 && b == 0x81 && c == 0x9F)
    ||| (a == 0xE3 && b == 0x80 && c == 0x80)
}

/// The length in bytes of the white-space character that `s` begins with:
/// 1, 2 or 3, and 0 where `s` begins with none.
pub open spec fn space_at_start(s: Seq<u8>) -> nat {
    if s.len() >= 1 && is_space(s[0]) {
        1
    } else if s.len() >= 2 && is_space_pair(s[0], s[1]) {
        2
    } else if s.len() >= 3 && is_space_triple(s[0], s[1], s[2]) {
        3
    } else {
        0
    }
}

/// The length in bytes of the white-space character that `s` ends with: 1,
/// 2 or 3, and 0 where `s` ends with none.
pub open spec fn space_at_end(s: Seq<u8>) -> nat {
    let n = s.len() as int;
    if n >= 1 && is_space(s[n - 1]) {
        1
    } else if n >= 2 && is_space_pair(s[n - 2], s[n - 1]) {
        2
    } else if n >= 3 && is_space_triple(s[n - 3], s[n - 2], s[n - 1]) {
        3
    } else {
        0
    }
}

/// The number of bytes that the white-space characters at the start of `s`
/// take.
pub open spec fn leading_spaces(s: Seq<u8>) -> nat
    decreases s.len(),
{
    let k = space_at_start(s);
    if k > 0 {
        k + leading_spaces(s.skip(k as int))
    } else {
        0
    }
}

/// The number of bytes that the white-space characters at the end of `s`
/// take.
pub open spec fn trailing_spaces(s: Seq<u8>) -> nat
    decreases s.len(),
{
    let k = space_at_end(s);
    if k > 0 {
        k + trailing_spaces(s.take(s.len() - k))
    } else {
        0
    }
}

/// `s` without its leading white space.
pub open spec fn trim_start(s: Seq<u8>) -> Seq<u8> {
    s.skip(leading_spaces(s) as int)
}

/// `s` without its trailing white space.
pub open spec fn trim_end(s: Seq<u8>) -> Seq<u8> {
    s.take(s.len() - trailing_spaces(s))
}

/// `s` without white space at either end.
pub open spec fn trim(s: Seq<u8>) -> Seq<u8> {
    trim_end(trim_start(s))
}

/// A line of which trimming leaves nothing: it is empty or holds white
/// space alone.
pub open spec fn is_blank(s: Seq<u8>) -> bool {
    trim(s).len() == 0
}

/// The leading white space lies within `s`, and behind it `s` goes on with
/// something else or ends.
pub proof fn lemma_leading_spaces(s: Seq<u8>)
    ensures
        leading_spaces(s) <= s.len(),
        space_at_start(trim_start(s)) == 0,
    decreases s.len(),
{
    let k = space_at_start(s) as int;
    if k > 0 {
        let rest = s.skip(k);
        lemma_leading_spaces(rest);
        assert(rest.skip(leading_spaces(rest) as int) =~= s.skip(leading_spaces(s) as int));
    } else {
        assert(s.skip(0) =~= s);
    }
}

/// The trailing white space lies within `s`, and before it `s` ends with
/// something else or is empty.
pub proof fn lemma_trailing_spaces(s: Seq<u8>)
    ensures
        trailing_spaces(s) <= s.len(),
        space_at_end(trim_end(s)) == 0,
    decreases s.len(),
{
    let k = space_at_end(s) as int;
    if k > 0 {
        let rest = s.take(s.len() - k);
        lemma_trailing_spaces(rest);
        assert(rest.take(rest.len() - trailing_spaces(rest)) =~= s.take(
            s.len() - trailing_spaces(s),
        ));
    } else {
        assert(s.take(s.len() as int) =~= s);
    }
}

/// What `s` begins with is decided by its first bytes: a longer byte string
/// that begins with the white-space character of `s` begins with the same
/// one.
pub proof fn lemma_space_at_start_of_longer(s: Seq<u8>, longer: Seq<u8>)
    requires
        space_at_start(s) > 0,
        s.len() <= longer.len(),
        forall|i: int| 0 <= i < space_at_start(s) ==> longer[i] == s[i],
    ensures
        space_at_start(longer) == space_at_start(s),
{
    let k = space_at_start(s);
    assert(longer[0] == s[0]);
    if k >= 2 {
        assert(longer[1] == s[1]);
    }
    if k >= 3 {
        assert(longer[2] == s[2]);
    }
}

/// White space followed by something else: where `p` is white space from
/// end to end and `q` does not begin with white space, the leading white
/// space of the two joined is `p`.
pub proof fn lemma_leading_spaces_joined(p: Seq<u8>, q: Seq<u8>)
    requires
        leading_spaces(p) == p.len(),
        space_at_start(q) == 0,
    ensures
        leading_spaces(p + q) == p.len(),
    decreases p.len(),
{
    if p.len() == 0 {
        assert(p + q =~= q);
    } else {
        let k = space_at_start(p) as int;
        assert forall|i: int| 0 <= i < k implies (p + q)[i] == p[i] by {}
        lemma_space_at_start_of_longer(p, p + q);
        assert((p + q).skip(k) =~= p.skip(k) + q);
        lemma_leading_spaces_joined(p.skip(k), q);
    }
}

/// The leading white space of `s`, taken alone, is white space from end to
/// end.
pub proof fn lemma_leading_spaces_alone(s: Seq<u8>)
    ensures
        leading_spaces(s) <= s.len(),
        leading_spaces(s.take(leading_spaces(s) as int)) == leading_spaces(s),
    decreases s.len(),
{
    lemma_leading_spaces(s);
    let k = space_at_start(s) as int;
    let lead = leading_spaces(s) as int;
    let front = s.take(lead);
    if k > 0 {
        let rest = s.skip(k);
        lemma_leading_spaces_alone(rest);
        assert(space_at_start(front) == k) by {
            assert(front[0] == s[0]);
            if k >= 2 {
                assert(front[1] == s[1]);
            }
            if k >= 3 {
                assert(front[2] == s[2]);
            }
        }
        assert(front.skip(k) =~= rest.take(leading_spaces(rest) as int));
    } else {
        assert(front =~= Seq::<u8>::empty());
    }
}

/// A byte string that is white space from its end to its start begins with
/// white space.
pub proof fn lemma_white_from_the_end(s: Seq<u8>)
    requires
        s.len() > 0,
        trailing_spaces(s) == s.len(),
    ensures
        space_at_start(s) > 0,
    decreases s.len(),
{
    let k = space_at_end(s) as int;
    let rest = s.take(s.len() - k);
    lemma_trailing_spaces(rest);
    if rest.len() > 0 {
        lemma_white_from_the_end(rest);
        assert forall|i: int| 0 <= i < space_at_start(rest) implies s[i] == rest[i] by {}
        lemma_space_at_start_of_longer(rest, s);
    }
}

/// A byte string is blank exactly when its leading white space is all of
/// it.
pub proof fn lemma_blank_is_all_white(s: Seq<u8>)
    ensures
        is_blank(s) <==> leading_spaces(s) == s.len(),
{
    lemma_leading_spaces(s);
    let t = trim_start(s);
    lemma_trailing_spaces(t);
    if is_blank(s) && t.len() > 0 {
        lemma_white_from_the_end(t);
    }
}

/// Tells the white space of one byte from other bytes.
pub fn byte_is_space(b: u8) -> (r: bool)
    ensures
        r == is_space(b),
{
    b == 0x20 || (0x09 <= b && b <= 0x0D)
}

fn pair_is_space(a: u8, b: u8) -> (r: bool)
    ensures
        r == is_space_pair(a, b),
{
    a == 0xC2 && (b == 0x85 || b == 0xA0)
}

fn triple_is_space(a: u8, b: u8, c: u8) -> (r: bool)
    ensures
        r == is_space_triple(a, b, c),
{
    (a == 0xE1 && b == 0x9A && c == 0x80) || (a == 0xE2 && b == 0x80 && ((0x80 <= c && c <= 0x8A)
        || c == 0xA8 || c == 0xA9 || c == 0xAF)) || (a == 0xE2 && b == 0x81 && c == 0x9F) || (a
        == 0xE3 && b == 0x80 && c == 0x80)
}

fn space_len_at(s: &[u8], i: usize) -> (k: usize)
    requires
        i <= s.len(),
    ensures
        k == space_at_start(s@.skip(i as int)),
        i + k <= s.len(),
{
    let n: usize = s.len();
    let ghost rest = s@.skip(i as int);
    if n - i >= 1 {
        assert(rest[0] == s@[i as int]);
        if byte_is_space(s[i]) {
            return 1;
        }
    }
    if n - i >= 2 {
        assert(rest[1] == s@[i + 1]);
        if pair_is_space(s[i], s[i + 1]) {
            return 2;
        }
    }
    if n - i >= 3 {
        assert(rest[2] == s@[i + 2]);
        if triple_is_space(s[i], s[i + 1], s[i + 2]) {
            return 3;
        }
    }
    0
}

fn space_len_before(s: &[u8], lo: usize, hi: usize) -> (k: usize)
    requires
        lo <= hi <= s.len(),
    ensures
        k == space_at_end(s@.subrange(lo as int, hi as int)),
        k <= hi - lo,
{
    let ghost part = s@.subrange(lo as int, hi as int);
    if hi - lo >= 1 {
        assert(part[part.len() - 1] == s@[hi - 1]);
        if byte_is_space(s[hi - 1]) {
            return 1;
        }
    }
    if hi - lo >= 2 {
        assert(part[part.len() - 2] == s@[hi - 2]);
        if pair_is_space(s[hi - 2], s[hi - 1]) {
            return 2;
        }
    }
    if hi - lo >= 3 {
        assert(part[part.len() - 3] == s@[hi - 3]);
        if triple_is_space(s[hi - 3], s[hi - 2], s[hi - 1]) {
            return 3;
        }
    }
    0
}

/// Counts the bytes of the white space at the start of `s`.
pub fn leading_space_count(s: &[u8]) -> (n: usize)
    ensures
        n == leading_spaces(s@),
        n <= s.len(),
{
    let mut n: usize = 0;
    let mut k: usize = space_len_at(s, 0);
    proof {
        assert(s@.skip(0) =~= s@);
    }
    while k > 0
        invariant
            n + k <= s.len(),
            k == space_at_start(s@.skip(n as int)),
            leading_spaces(s@) == n + leading_spaces(s@.skip(n as int)),
        decreases s.len() - n,
    {
        proof {
            assert(s@.skip(n as int).skip(k as int) =~= s@.skip(n + k));
        }
        n = n + k;
        k = space_len_at(s, n);
    }
    n
}

/// Finds where the trimmed part of `s` starts and ends.
pub fn trim_bounds(s: &[u8]) -> (r: (usize, usize))
    ensures
        r.0 <= r.1 <= s.len(),
        r.0 == leading_spaces(s@),
        s@.subrange(r.0 as int, r.1 as int) == trim(s@),
{
    let lo: usize = leading_space_count(s);
    let mut hi: usize = s.len();
    let mut k: usize = space_len_before(s, lo, hi);
    let ghost t = trim_start(s@);
    proof {
        assert(s@.subrange(lo as int, hi as int) =~= t);
    }
    while k > 0
        invariant
            lo <= hi <= s.len(),
            k <= hi - lo,
            k == space_at_end(s@.subrange(lo as int, hi as int)),
            t == s@.skip(lo as int),
            trailing_spaces(t) == (s.len() - hi) + trailing_spaces(
                s@.subrange(lo as int, hi as int),
            ),
        decreases hi,
    {
        proof {
            let part = s@.subrange(lo as int, hi as int);
            assert(part.take(part.len() - k) =~= s@.subrange(lo as int, hi - k));
        }
        hi = hi - k;
        k = space_len_before(s, lo, hi);
    }
    proof {
        assert(s@.subrange(lo as int, hi as int) =~= trim(s@));
    }
    (lo, hi)
}

/// Copies the bytes of `s` from `lo` up to `hi`.
pub fn copy_range(s: &[u8], lo: usize, hi: usize) -> (out: Vec<u8>)
    requires
        lo <= hi <= s.len(),
    ensures
        out@ == s@.subrange(lo as int, hi as int),
{
    let mut out: Vec<u8> = Vec::new();
    let mut i: usize = lo;
    while i < hi
        invariant
            lo <= i <= hi <= s.len(),
            out@ == s@.subrange(lo as int, i as int),
        decreases hi - i,
    {
        out.push(s[i]);
        i = i + 1;
        assert(out@ =~= s@.subrange(lo as int, i as int));
    }
    out
}

/// Appends the bytes of `s` to `out`.
pub fn append_bytes(out: &mut Vec<u8>, s: &[u8])
    ensures
        final(out)@ == old(out)@ + s@,
{
    let mut i: usize = 0;
    while i < s.len()
        invariant
            i <= s.len(),
            out@ == old(out)@ + s@.subrange(0, i as int),
        decreases s.len() - i,
    {
        out.push(s[i]);
        i = i + 1;
        assert(out@ =~= old(out)@ + s@.subrange(0, i as int));
    }
    assert(s@.subrange(0, s.len() as int) =~= s@);
}

/// Whether `s` begins with `prefix`.
pub fn starts_with(s: &[u8], prefix: &[u8]) -> (r: bool)
    ensures
        r == prefix@.is_prefix_of(s@),
{
    if prefix.len() > s.len() {
        return false;
    }
    let mut i: usize = 0;
    while i < prefix.len()
        invariant
            i <= prefix.len() <= s.len(),
            forall|k: int| 0 <= k < i ==> prefix@[k] == s@[k],
        decreases prefix.len() - i,
    {
        if prefix[i] != s[i] {
            assert(s@.subrange(0, prefix@.len() as int)[i as int] != prefix@[i as int]);
            return false;
        }
        i = i + 1;
    }
    assert(prefix@ =~= s@.subrange(0, prefix@.len() as int));
    true
}

/// Whether two byte strings hold the same bytes.
pub fn same_bytes(a: &[u8], b: &[u8]) -> (r: bool)
    ensures
        r == (a@ == b@),
{
    if a.len() != b.len() {
        return false;
    }
    let r = starts_with(a, b);
    proof {
        if r {
            assert(a@ =~= b@);
        } else {
            assert(a@.subrange(0, a@.len() as int) =~= a@);
        }
    }
    r
}

/// Whether trimming leaves nothing of `s`.
pub fn line_is_blank(s: &[u8]) -> (r: bool)
    ensures
        r == is_blank(s@),
{
    let bounds = trim_bounds(s);
    bounds.0 == bounds.1
}

} // verus!
