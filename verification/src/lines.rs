//! Cutting a file into lines without losing a byte.
//!
//! A file is a run of pieces. Each piece is one line together with its line
//! ending: a line feed, or a carriage return and a line feed. Only the last
//! piece may lack an ending. Joined again, the pieces give the file.

use vstd::prelude::*;

verus! {

/// The line feed byte.
pub open spec fn line_feed() -> u8 {
    10u8
}

/// The carriage return byte.
pub open spec fn carriage_return() -> u8 {
    13u8
}

/// The index of the first line feed in `s`, or the length of `s` where it
/// holds none.
pub open spec fn first_break(s: Seq<u8>) -> nat
    decreases s.len(),
{
    if s.len() == 0 || s[0] == line_feed() {
        0
    } else {
        1 + first_break(s.skip(1))
    }
}

/// The pieces of `s`: each ends just behind a line feed, but for a last one
/// that reaches the end of `s` without meeting one.
pub open spec fn pieces(s: Seq<u8>) -> Seq<Seq<u8>>
    decreases s.len(),
{
    if s.len() == 0 {
        Seq::empty()
    } else {
        let k = first_break(s) as int;
        if k < s.len() {
            seq![s.take(k + 1)] + pieces(s.skip(k + 1))
        } else {
            seq![s]
        }
    }
}

/// How many bytes of a piece are its line ending: 2, 1 or 0.
pub open spec fn ending_len(piece: Seq<u8>) -> nat {
    if piece.len() >= 2 && piece[piece.len() - 1] == line_feed() && piece[piece.len() - 2]
        == carriage_return() {
        2
    } else if piece.len() >= 1 && piece[piece.len() - 1] == line_feed() {
        1
    } else {
        0
    }
}

/// A piece without its line ending.
pub open spec fn body(piece: Seq<u8>) -> Seq<u8> {
    piece.take(piece.len() - ending_len(piece))
}

/// The line ending of a piece.
pub open spec fn ending(piece: Seq<u8>) -> Seq<u8> {
    piece.skip(piece.len() - ending_len(piece))
}

/// The lines of `s`, without their endings.
pub open spec fn lines(s: Seq<u8>) -> Seq<Seq<u8>> {
    pieces(s).map_values(|p: Seq<u8>| body(p))
}

/// A piece is its body and its line ending.
pub proof fn lemma_body_and_ending(piece: Seq<u8>)
    ensures
        body(piece) + ending(piece) == piece,
        ending(piece).len() == ending_len(piece),
        body(piece).len() + ending_len(piece) == piece.len(),
{
    assert(body(piece) + ending(piece) =~= piece);
}

/// A byte string shaped like a piece: not empty, with no line feed before
/// its last byte, and with one there unless it is the last piece of a file.
pub open spec fn is_piece(p: Seq<u8>, last: bool) -> bool {
    &&& p.len() > 0
    &&& forall|j: int| 0 <= j < p.len() - 1 ==> #[trigger] p[j] != line_feed()
    &&& !last ==> p.last() == line_feed()
}

/// Every element of `ps` is shaped like a piece, and only the last may lack
/// its line feed.
pub open spec fn all_pieces(ps: Seq<Seq<u8>>) -> bool {
    forall|i: int| 0 <= i < ps.len() ==> is_piece(#[trigger] ps[i], i == ps.len() - 1)
}

/// `first_break(s)` is the one index before which `s` holds no line feed and
/// at which it holds one or ends.
pub proof fn lemma_first_break_is(s: Seq<u8>, k: int)
    requires
        0 <= k <= s.len(),
        forall|i: int| 0 <= i < k ==> #[trigger] s[i] != line_feed(),
        k < s.len() ==> s[k] == line_feed(),
    ensures
        first_break(s) == k,
    decreases k,
{
    if k > 0 {
        let t = s.skip(1);
        assert forall|i: int| 0 <= i < k - 1 implies #[trigger] t[i] != line_feed() by {
            assert(t[i] == s[i + 1]);
        }
        lemma_first_break_is(t, k - 1);
    }
}

/// What `first_break` finds.
pub proof fn lemma_first_break(s: Seq<u8>)
    ensures
        first_break(s) <= s.len(),
        forall|i: int| 0 <= i < first_break(s) ==> #[trigger] s[i] != line_feed(),
        first_break(s) < s.len() ==> s[first_break(s) as int] == line_feed(),
    decreases s.len(),
{
    if !(s.len() == 0 || s[0] == line_feed()) {
        let t = s.skip(1);
        lemma_first_break(t);
        assert forall|i: int| 0 <= i < first_break(s) implies #[trigger] s[i] != line_feed() by {
            if i > 0 {
                assert(s[i] == t[i - 1]);
            }
        }
        if first_break(s) < s.len() {
            assert(s[first_break(s) as int] == t[first_break(t) as int]);
        }
    }
}

/// Joined again, the pieces of a file give the file.
pub proof fn lemma_pieces_join(s: Seq<u8>)
    ensures
        pieces(s).flatten() == s,
    decreases s.len(),
{
    if s.len() == 0 {
        assert(pieces(s).flatten() =~= s);
    } else {
        lemma_first_break(s);
        let k = first_break(s) as int;
        if k < s.len() {
            let head = seq![s.take(k + 1)];
            let rest = pieces(s.skip(k + 1));
            lemma_pieces_join(s.skip(k + 1));
            vstd::seq_lib::lemma_flatten_concat(head, rest);
            head.lemma_flatten_one_element();
            assert(s.take(k + 1) + s.skip(k + 1) =~= s);
        } else {
            seq![s].lemma_flatten_one_element();
        }
    }
}

/// The pieces of a file are shaped like pieces.
pub proof fn lemma_pieces_shape(s: Seq<u8>)
    ensures
        all_pieces(pieces(s)),
    decreases s.len(),
{
    if s.len() > 0 {
        lemma_first_break(s);
        let k = first_break(s) as int;
        if k < s.len() {
            let head = s.take(k + 1);
            let rest = pieces(s.skip(k + 1));
            lemma_pieces_shape(s.skip(k + 1));
            let ps = pieces(s);
            assert(ps =~= seq![head] + rest);
            assert forall|i: int| 0 <= i < ps.len() implies is_piece(
                #[trigger] ps[i],
                i == ps.len() - 1,
            ) by {
                if i == 0 {
                    assert(ps[0] == head);
                    assert(head.last() == s[k]);
                } else {
                    assert(ps[i] == rest[i - 1]);
                }
            }
        } else {
            assert(pieces(s) =~= seq![s]);
        }
    }
}

/// Cutting what was joined gives the pieces back: a run of byte strings that
/// are shaped like pieces is the run of pieces of their concatenation.
pub proof fn lemma_pieces_of_join(ps: Seq<Seq<u8>>)
    requires
        all_pieces(ps),
    ensures
        pieces(ps.flatten()) == ps,
    decreases ps.len(),
{
    if ps.len() == 0 {
        assert(pieces(ps.flatten()) =~= ps);
    } else {
        let head = ps.first();
        let rest = ps.drop_first();
        let s = ps.flatten();
        assert(s == head + rest.flatten());
        assert(is_piece(head, 0 == ps.len() - 1));
        assert forall|i: int| 0 <= i < rest.len() implies is_piece(
            #[trigger] rest[i],
            i == rest.len() - 1,
        ) by {
            assert(rest[i] == ps[i + 1]);
        }
        lemma_pieces_of_join(rest);
        if rest.len() == 0 {
            assert(rest.flatten() =~= Seq::<u8>::empty());
            assert(s =~= head);
            if head.last() == line_feed() {
                lemma_first_break_is(s, s.len() - 1);
                assert(s.take(s.len() as int) =~= s);
                assert(s.skip(s.len() as int) =~= Seq::<u8>::empty());
                assert(pieces(s) =~= seq![s] + pieces(Seq::<u8>::empty()));
            } else {
                lemma_first_break_is(s, s.len() as int);
            }
            assert(pieces(s) =~= ps);
        } else {
            let k = head.len() - 1;
            assert(head.last() == line_feed());
            assert forall|i: int| 0 <= i < k implies #[trigger] s[i] != line_feed() by {
                assert(s[i] == head[i]);
            }
            assert(s[k] == head[k]);
            lemma_first_break_is(s, k);
            assert(s.take(k + 1) =~= head);
            assert(s.skip(k + 1) =~= rest.flatten());
            assert(pieces(s) =~= seq![head] + rest);
            assert(pieces(s) =~= ps);
        }
    }
}

/// Where one line lies in a file: its body runs from `start` up to `end`,
/// and with its line ending it runs up to `next`.
#[derive(Clone, Copy, Debug, PartialEq, Eq, Structural)]
pub struct LineSpan {
    pub start: usize,
    pub end: usize,
    pub next: usize,
}

/// `spans` cuts `s` into its pieces: one span for each piece, in order, each
/// beginning where the pieces before it end.
pub open spec fn spans_cut(s: Seq<u8>, spans: Seq<LineSpan>) -> bool {
    &&& spans.len() == pieces(s).len()
    &&& forall|i: int|
        0 <= i < spans.len() ==> {
            &&& (#[trigger] spans[i]).start <= spans[i].end <= spans[i].next <= s.len()
            &&& s.take(spans[i].start as int) == pieces(s).take(i).flatten()
            &&& s.subrange(spans[i].start as int, spans[i].next as int) == pieces(s)[i]
            &&& s.subrange(spans[i].start as int, spans[i].end as int) == lines(s)[i]
        }
}

/// Finds the lines of `s`.
pub fn split_lines(s: &[u8]) -> (spans: Vec<LineSpan>)
    ensures
        spans_cut(s@, spans@),
{
    let n: usize = s.len();
    let mut spans: Vec<LineSpan> = Vec::new();
    let mut pos: usize = 0;
    let ghost mut done: Seq<Seq<u8>> = Seq::empty();
    proof {
        assert(s@.skip(0) =~= s@);
        assert(done + pieces(s@.skip(0)) =~= pieces(s@));
        assert(done.flatten() =~= s@.take(0));
    }
    while pos < n
        invariant
            n == s.len(),
            pos <= n,
            done.len() == spans.len(),
            pieces(s@) == done + pieces(s@.skip(pos as int)),
            done.flatten() == s@.take(pos as int),
            forall|i: int|
                0 <= i < spans.len() ==> {
                    &&& (#[trigger] spans[i]).start <= spans[i].end <= spans[i].next <= n
                    &&& s@.take(spans[i].start as int) == done.take(i).flatten()
                    &&& s@.subrange(spans[i].start as int, spans[i].next as int) == done[i]
                    &&& s@.subrange(spans[i].start as int, spans[i].end as int) == body(done[i])
                },
        decreases n - pos,
    {
        let mut j: usize = pos;
        while j < n && s[j] != 10
            invariant
                n == s.len(),
                pos <= j <= n,
                forall|t: int| pos <= t < j ==> #[trigger] s@[t] != line_feed(),
            decreases n - j,
        {
            j = j + 1;
        }
        let next: usize = if j < n {
            j + 1
        } else {
            n
        };
        let end: usize = if j < n && j > pos && s[j - 1] == 13 {
            j - 1
        } else {
            j
        };
        proof {
            let rest = s@.skip(pos as int);
            let piece = s@.subrange(pos as int, next as int);
            assert forall|t: int| 0 <= t < j - pos implies #[trigger] rest[t] != line_feed() by {
                assert(rest[t] == s@[pos + t]);
            }
            lemma_first_break_is(rest, j - pos);
            if j < n {
                assert(rest.take(j - pos + 1) =~= piece);
                assert(rest.skip(j - pos + 1) =~= s@.skip(next as int));
                assert(pieces(rest) == seq![piece] + pieces(s@.skip(next as int)));
            } else {
                assert(rest =~= piece);
                assert(pieces(s@.skip(next as int)) =~= Seq::<Seq<u8>>::empty());
                assert(pieces(rest) =~= seq![piece] + pieces(s@.skip(next as int)));
            }
            let grown = done.push(piece);
            assert(grown + pieces(s@.skip(next as int)) =~= done + pieces(rest));
            assert(grown.flatten() =~= done.flatten() + piece) by {
                done.lemma_flatten_push(piece);
            }
            assert(s@.take(pos as int) + piece =~= s@.take(next as int));
            assert(grown.take(done.len() as int) =~= done);
            assert forall|i: int| 0 <= i < done.len() implies grown.take(i) == done.take(i) by {
                assert(grown.take(i) =~= done.take(i));
            }
            assert(piece.len() == next - pos);
            if j < n {
                assert(piece[piece.len() - 1] == s@[j as int]);
                if j > pos {
                    assert(piece[piece.len() - 2] == s@[j - 1]);
                }
            } else {
                assert(piece[piece.len() - 1] == s@[n - 1]);
            }
            assert(ending_len(piece) == next - end);
            assert(s@.subrange(pos as int, end as int) =~= body(piece));
            done = grown;
        }
        spans.push(LineSpan { start: pos, end, next });
        pos = next;
    }
    proof {
        assert(pieces(s@.skip(n as int)) =~= Seq::<Seq<u8>>::empty());
        assert(pieces(s@) =~= done);
    }
    spans
}

/// Replacing one piece of a file changes the bytes of that piece and no
/// others: what stands before the piece and what stands behind it stay.
pub proof fn lemma_replace_piece(s: Seq<u8>, i: int, start: int, x: Seq<u8>)
    requires
        0 <= i < pieces(s).len(),
        0 <= start <= s.len(),
        s.take(start) == pieces(s).take(i).flatten(),
    ensures
        start + pieces(s)[i].len() <= s.len(),
        pieces(s).update(i, x).flatten() == s.take(start) + x + s.skip(
            start + pieces(s)[i].len(),
        ),
{
    let ps = pieces(s);
    let before = ps.take(i);
    let after = ps.skip(i + 1);
    lemma_pieces_join(s);
    assert(ps =~= before.push(ps[i]) + after);
    before.lemma_flatten_push(ps[i]);
    vstd::seq_lib::lemma_flatten_concat(before.push(ps[i]), after);
    assert(s == s.take(start) + ps[i] + after.flatten());
    assert(s.len() == start + ps[i].len() + after.flatten().len());
    assert(after.flatten() =~= s.skip(start + ps[i].len()));
    assert(ps.update(i, x) =~= before.push(x) + after);
    before.lemma_flatten_push(x);
    vstd::seq_lib::lemma_flatten_concat(before.push(x), after);
}

/// Replacing one piece of a file by a byte string of the same shape gives a
/// file with the same number of lines, of which that one line is the body
/// of the new piece and every other is as before.
pub proof fn lemma_lines_after_replacing(s: Seq<u8>, i: int, x: Seq<u8>)
    requires
        0 <= i < pieces(s).len(),
        is_piece(x, i == pieces(s).len() - 1),
    ensures
        pieces(pieces(s).update(i, x).flatten()) == pieces(s).update(i, x),
        lines(pieces(s).update(i, x).flatten()) == lines(s).update(i, body(x)),
{
    let ps = pieces(s);
    let qs = ps.update(i, x);
    lemma_pieces_shape(s);
    assert forall|j: int| 0 <= j < qs.len() implies is_piece(#[trigger] qs[j], j == qs.len() - 1) by {
        if j != i {
            assert(qs[j] == ps[j]);
        }
    }
    lemma_pieces_of_join(qs);
    assert(lines(qs.flatten()) =~= lines(s).update(i, body(x)));
}

} // verus!
