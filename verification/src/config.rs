//! The connection configuration file: reading its sections and rewriting
//! one address.
//!
//! The file is line oriented. Blank lines separate sections. Within a
//! section an entry line names the host alias, an address line declares the
//! address to connect to, and a marker comment binds the section to one
//! instance of the provider. Every other line is kept as it is.

use vstd::prelude::*;
use vstd::slice::slice_subrange;
use vstd::string::StringSliceAdditionalSpecFns;
use crate::failure::Failure;
use crate::lines::{
    body, carriage_return, ending, ending_len, is_piece, lemma_body_and_ending,
    lemma_lines_after_replacing, lemma_pieces_join, lemma_pieces_shape, lemma_replace_piece,
    line_feed, lines, pieces, spans_cut, split_lines, LineSpan,
};
use crate::text::{
    append_bytes, copy_range, is_blank, leading_space_count, leading_spaces,
    lemma_leading_spaces, lemma_leading_spaces_alone, lemma_leading_spaces_joined,
    lemma_trailing_spaces, line_is_blank, same_bytes, space_at_start, starts_with, trim,
    trim_bounds, trim_start,
};

verus! {

/// The bytes of `Host ` with its space: the keyword that starts an entry.
pub open spec fn entry_keyword() -> Seq<u8> {
    seq![72u8, 111u8, 115u8, 116u8, 32u8]
}

/// The bytes of `HostName ` with its space: the keyword that declares an
/// address.
pub open spec fn address_keyword() -> Seq<u8> {
    seq![72u8, 111u8, 115u8, 116u8, 78u8, 97u8, 109u8, 101u8, 32u8]
}

/// The bytes of `# bite: ` with its space: the comment that carries a
/// cross-reference token.
pub open spec fn marker() -> Seq<u8> {
    seq![35u8, 32u8, 98u8, 105u8, 116u8, 101u8, 58u8, 32u8]
}

/// A line whose trimmed text begins with the entry keyword.
pub open spec fn is_entry_line(line: Seq<u8>) -> bool {
    entry_keyword().is_prefix_of(trim(line))
}

/// A line whose trimmed text begins with the address keyword.
pub open spec fn is_address_line(line: Seq<u8>) -> bool {
    address_keyword().is_prefix_of(trim(line))
}

/// A line that begins, at its first byte, with the marker.
pub open spec fn is_marker_line(line: Seq<u8>) -> bool {
    marker().is_prefix_of(line)
}

/// The alias that an entry line names: what follows the keyword, trimmed.
pub open spec fn entry_alias(line: Seq<u8>) -> Seq<u8> {
    trim(trim(line).skip(5))
}

/// The token that a marker line carries: what follows the colon, trimmed.
pub open spec fn marker_token(line: Seq<u8>) -> Seq<u8> {
    trim(line.skip(7))
}

/// The white space that a line begins with.
pub open spec fn indent(line: Seq<u8>) -> Seq<u8> {
    line.take(leading_spaces(line) as int)
}

/// The value of an address line: all that follows the keyword and its
/// space, up to the end of the line.
pub open spec fn address_value(line: Seq<u8>) -> Seq<u8> {
    line.skip(leading_spaces(line) as int + 9)
}

/// An address line with another value: the indentation of `line`, the
/// keyword, and `value`.
pub open spec fn readdressed(line: Seq<u8>, value: Seq<u8>) -> Seq<u8> {
    indent(line) + address_keyword() + value
}

/// What a line is to the reader of the file.
#[derive(Clone, Copy, Debug, PartialEq, Eq, Structural)]
pub enum LineKind {
    /// It names the alias of its section.
    Entry,
    /// It declares the address of its section.
    Address,
    /// It carries the cross-reference token of its section.
    Marker,
    /// It is kept and not read.
    Other,
}

/// The kind of a line.
pub open spec fn kind_of(line: Seq<u8>) -> LineKind {
    if is_entry_line(line) {
        LineKind::Entry
    } else if is_address_line(line) {
        LineKind::Address
    } else if is_marker_line(line) {
        LineKind::Marker
    } else {
        LineKind::Other
    }
}

/// The three kinds that are read exclude each other, so a line is of a kind
/// exactly when it has that kind's shape.
pub proof fn lemma_kinds_apart(line: Seq<u8>)
    ensures
        kind_of(line) == LineKind::Entry <==> is_entry_line(line),
        kind_of(line) == LineKind::Address <==> is_address_line(line),
        kind_of(line) == LineKind::Marker <==> is_marker_line(line),
{
    let t = trim(line);
    if is_entry_line(line) && is_address_line(line) {
        assert(t.subrange(0, 5)[4] == entry_keyword()[4]);
        assert(t.subrange(0, 9)[4] == address_keyword()[4]);
    }
    if is_marker_line(line) {
        assert(line.subrange(0, 8)[0] == marker()[0]);
        assert(space_at_start(line) == 0);
        assert(trim_start(line) =~= line);
        lemma_trailing_spaces(line);
        if t.len() > 0 {
            assert(t[0] == line[0]);
        }
        if is_entry_line(line) {
            assert(t.subrange(0, 5)[0] == entry_keyword()[0]);
        }
        if is_address_line(line) {
            assert(t.subrange(0, 9)[0] == address_keyword()[0]);
        }
    }
}

/// An address line is its indentation, the keyword and its value, and
/// nothing else.
pub proof fn lemma_address_line_parts(line: Seq<u8>)
    requires
        is_address_line(line),
    ensures
        leading_spaces(line) + 9 <= line.len(),
        readdressed(line, address_value(line)) == line,
{
    let lead = leading_spaces(line) as int;
    lemma_leading_spaces(line);
    let rest = trim_start(line);
    lemma_trailing_spaces(rest);
    let t = trim(line);
    assert(t.len() >= 9);
    assert forall|k: int| 0 <= k < 9 implies line[lead + k] == #[trigger] address_keyword()[k] by {
        assert(t.subrange(0, 9)[k] == address_keyword()[k]);
        assert(t[k] == rest[k]);
        assert(rest[k] == line[lead + k]);
    }
    assert(readdressed(line, address_value(line)) =~= line);
}

/// The indentation of a rewritten address line is that of the line it
/// replaces, and its value is the new one.
pub proof fn lemma_readdressed(line: Seq<u8>, value: Seq<u8>)
    ensures
        indent(readdressed(line, value)) == indent(line),
        address_value(readdressed(line, value)) == value,
        leading_spaces(readdressed(line, value)) == leading_spaces(line),
{
    let lead = leading_spaces(line) as int;
    let out = readdressed(line, value);
    let rest = address_keyword() + value;
    lemma_leading_spaces_alone(line);
    assert(rest[0] == address_keyword()[0]);
    assert(space_at_start(rest) == 0);
    lemma_leading_spaces_joined(indent(line), rest);
    assert(out =~= indent(line) + rest);
    assert(indent(out) =~= indent(line));
    assert(address_value(out) =~= value);
}

fn entry_keyword_bytes() -> (v: Vec<u8>)
    ensures
        v@ == entry_keyword(),
{
    let v: Vec<u8> = vec![72u8, 111u8, 115u8, 116u8, 32u8];
    assert(v@ =~= entry_keyword());
    v
}

fn address_keyword_bytes() -> (v: Vec<u8>)
    ensures
        v@ == address_keyword(),
{
    let v: Vec<u8> = vec![72u8, 111u8, 115u8, 116u8, 78u8, 97u8, 109u8, 101u8, 32u8];
    assert(v@ =~= address_keyword());
    v
}

fn marker_bytes() -> (v: Vec<u8>)
    ensures
        v@ == marker(),
{
    let v: Vec<u8> = vec![35u8, 32u8, 98u8, 105u8, 116u8, 101u8, 58u8, 32u8];
    assert(v@ =~= marker());
    v
}

/// Tells what a line is.
pub fn classify(line: &[u8]) -> (kind: LineKind)
    ensures
        kind == kind_of(line@),
{
    let bounds = trim_bounds(line);
    let trimmed = slice_subrange(line, bounds.0, bounds.1);
    let entry = entry_keyword_bytes();
    let address = address_keyword_bytes();
    let mark = marker_bytes();
    if starts_with(trimmed, entry.as_slice()) {
        LineKind::Entry
    } else if starts_with(trimmed, address.as_slice()) {
        LineKind::Address
    } else if starts_with(line, mark.as_slice()) {
        LineKind::Marker
    } else {
        LineKind::Other
    }
}

/// Reads the alias that a line names, where it is an entry line.
pub fn alias_of(line: &[u8]) -> (alias: Option<Vec<u8>>)
    ensures
        match alias {
            Some(a) => is_entry_line(line@) && a@ == entry_alias(line@),
            None => !is_entry_line(line@),
        },
{
    let bounds = trim_bounds(line);
    let trimmed = slice_subrange(line, bounds.0, bounds.1);
    let keyword = entry_keyword_bytes();
    if !starts_with(trimmed, keyword.as_slice()) {
        return None;
    }
    let named = slice_subrange(trimmed, 5, trimmed.len());
    let inner = trim_bounds(named);
    Some(copy_range(named, inner.0, inner.1))
}

/// Reads the token that a line carries, where it is a marker line.
pub fn token_of(line: &[u8]) -> (token: Option<Vec<u8>>)
    ensures
        match token {
            Some(t) => is_marker_line(line@) && t@ == marker_token(line@),
            None => !is_marker_line(line@),
        },
{
    let mark = marker_bytes();
    if !starts_with(line, mark.as_slice()) {
        return None;
    }
    let carried = slice_subrange(line, 7, line.len());
    let inner = trim_bounds(carried);
    Some(copy_range(carried, inner.0, inner.1))
}

/// The last line of the kind among the lines from `lo` up to `hi`.
pub open spec fn last_of(all: Seq<Seq<u8>>, lo: int, hi: int, kind: LineKind) -> Option<int>
    decreases hi - lo,
{
    if hi <= lo {
        None
    } else if kind_of(all[hi - 1]) == kind {
        Some(hi - 1)
    } else {
        last_of(all, lo, hi - 1, kind)
    }
}

/// The first line of the kind among the lines from `lo` up to `hi`.
pub open spec fn first_of(all: Seq<Seq<u8>>, lo: int, hi: int, kind: LineKind) -> Option<int>
    decreases hi - lo,
{
    if hi <= lo {
        None
    } else {
        match first_of(all, lo, hi - 1, kind) {
            Some(j) => Some(j),
            None => if kind_of(all[hi - 1]) == kind {
                Some(hi - 1)
            } else {
                None
            },
        }
    }
}

/// `last_of` finds a line of the kind that no line of the kind follows, and
/// finds none only where there is none.
pub proof fn lemma_last_of(all: Seq<Seq<u8>>, lo: int, hi: int, kind: LineKind)
    ensures
        match last_of(all, lo, hi, kind) {
            Some(j) => lo <= j < hi && kind_of(all[j]) == kind && forall|k: int|
                j < k < hi ==> kind_of(#[trigger] all[k]) != kind,
            None => forall|k: int| lo <= k < hi ==> kind_of(#[trigger] all[k]) != kind,
        },
    decreases hi - lo,
{
    if hi > lo && kind_of(all[hi - 1]) != kind {
        lemma_last_of(all, lo, hi - 1, kind);
    }
}

/// `first_of` finds a line of the kind that no line of the kind precedes,
/// and finds none only where there is none.
pub proof fn lemma_first_of(all: Seq<Seq<u8>>, lo: int, hi: int, kind: LineKind)
    ensures
        match first_of(all, lo, hi, kind) {
            Some(j) => lo <= j < hi && kind_of(all[j]) == kind && forall|k: int|
                lo <= k < j ==> kind_of(#[trigger] all[k]) != kind,
            None => forall|k: int| lo <= k < hi ==> kind_of(#[trigger] all[k]) != kind,
        },
    decreases hi - lo,
{
    if hi > lo {
        lemma_first_of(all, lo, hi - 1, kind);
    }
}

/// The byte strings that a run of lines holds.
pub open spec fn line_views(v: Seq<Vec<u8>>) -> Seq<Seq<u8>> {
    v.map_values(|l: Vec<u8>| l@)
}

/// A line index as a number, where there is one.
pub open spec fn index_view(index: Option<usize>) -> Option<int> {
    match index {
        Some(i) => Some(i as int),
        None => None,
    }
}

/// The bytes of a token, where there is one.
pub open spec fn token_view(token: Option<Vec<u8>>) -> Option<Seq<u8>> {
    match token {
        Some(t) => Some(t@),
        None => None,
    }
}

/// One host entry of the file: a run of lines between blank lines.
#[derive(Clone, Debug, PartialEq, Eq)]
pub struct ConfigSection {
    /// The alias that the last entry line of the section names; empty where
    /// the section has no entry line.
    pub alias: Vec<u8>,
    /// The lines of the section, comments too, without their line endings.
    pub raw_lines: Vec<Vec<u8>>,
    /// The index, among the lines of the file, of the section's first line.
    pub first_line: usize,
    /// The index, among the lines of the file, of the section's last
    /// address line.
    pub address_line_index: Option<usize>,
    /// The token of the section's first marker line.
    pub cross_reference_token: Option<Vec<u8>>,
}

impl ConfigSection {
    /// The index of the line behind the section.
    pub open spec fn end_line(&self) -> int {
        self.first_line + self.raw_lines@.len()
    }

    /// Whether line `i` of the file belongs to the section.
    pub open spec fn holds_line(&self, i: int) -> bool {
        self.first_line <= i < self.end_line()
    }

    /// The section is read from the lines `all` of a file: it is a run of
    /// lines that are not blank, with a blank line or an end of the file on
    /// each side, and its alias, address line and token are those of its
    /// lines.
    pub open spec fn describes(&self, all: Seq<Seq<u8>>) -> bool {
        let first = self.first_line as int;
        let end = self.end_line();
        &&& first < end <= all.len()
        &&& line_views(self.raw_lines@) == all.subrange(first, end)
        &&& forall|i: int| first <= i < end ==> !is_blank(#[trigger] all[i])
        &&& first > 0 ==> is_blank(all[first - 1])
        &&& end < all.len() ==> is_blank(all[end])
        &&& self.alias@ == match last_of(all, first, end, LineKind::Entry) {
            Some(j) => entry_alias(all[j]),
            None => Seq::<u8>::empty(),
        }
        &&& index_view(self.address_line_index) == last_of(all, first, end, LineKind::Address)
        &&& token_view(self.cross_reference_token) == match first_of(
            all,
            first,
            end,
            LineKind::Marker,
        ) {
            Some(j) => Some(marker_token(all[j])),
            None => None,
        }
    }
}

/// `sections` is what the lines `all` of a file hold: each section is read
/// from them, the sections come in the order of the file and apart from each
/// other, and every line that is not blank belongs to one.
pub open spec fn is_parse_of(sections: Seq<ConfigSection>, all: Seq<Seq<u8>>) -> bool {
    &&& forall|k: int| 0 <= k < sections.len() ==> (#[trigger] sections[k]).describes(all)
    &&& forall|k: int, m: int|
        0 <= k < m < sections.len() ==> (#[trigger] sections[k]).end_line() < (
        #[trigger] sections[m]).first_line
    &&& forall|i: int|
        0 <= i < all.len() && !is_blank(#[trigger] all[i]) ==> exists|k: int|
            0 <= k < sections.len() && (#[trigger] sections[k]).holds_line(i)
}

fn read_section(contents: &[u8], spans: &Vec<LineSpan>, first: usize) -> (sec: ConfigSection)
    requires
        spans_cut(contents@, spans@),
        first < spans.len(),
        !is_blank(lines(contents@)[first as int]),
        first > 0 ==> is_blank(lines(contents@)[first - 1]),
    ensures
        sec.first_line == first,
        sec.describes(lines(contents@)),
{
    let n: usize = spans.len();
    let ghost all = lines(contents@);
    let mut raw_lines: Vec<Vec<u8>> = Vec::new();
    let mut alias: Vec<u8> = Vec::new();
    let mut address: Option<usize> = None;
    let mut token: Option<Vec<u8>> = None;
    let mut i: usize = first;
    let mut open: bool = true;
    proof {
        assert(line_views(raw_lines@) =~= all.subrange(first as int, i as int));
    }
    while open && i < n
        invariant
            spans_cut(contents@, spans@),
            n == spans.len(),
            all == lines(contents@),
            all.len() == n,
            first <= i <= n,
            !is_blank(all[first as int]),
            !open ==> first < i < n && is_blank(all[i as int]),
            raw_lines@.len() == i - first,
            line_views(raw_lines@) == all.subrange(first as int, i as int),
            forall|j: int| first <= j < i ==> !is_blank(#[trigger] all[j]),
            alias@ == match last_of(all, first as int, i as int, LineKind::Entry) {
                Some(j) => entry_alias(all[j]),
                None => Seq::<u8>::empty(),
            },
            index_view(address) == last_of(all, first as int, i as int, LineKind::Address),
            token_view(token) == match first_of(all, first as int, i as int, LineKind::Marker) {
                Some(j) => Some(marker_token(all[j])),
                None => None,
            },
        decreases n - i + (if open { 1int } else { 0int }),
    {
        let span: LineSpan = spans[i];
        let line = slice_subrange(contents, span.start, span.end);
        assert(line@ == all[i as int]);
        if line_is_blank(line) {
            open = false;
        } else {
            proof {
                lemma_kinds_apart(line@);
            }
            match classify(line) {
                LineKind::Entry => {
                    match alias_of(line) {
                        Some(named) => {
                            alias = named;
                        },
                        None => {},
                    }
                },
                LineKind::Address => {
                    address = Some(i);
                },
                LineKind::Marker => {
                    if token.is_none() {
                        token = token_of(line);
                    }
                },
                LineKind::Other => {},
            }
            let kept = copy_range(line, 0, line.len());
            assert(kept@ =~= line@);
            let ghost before = raw_lines@;
            raw_lines.push(kept);
            i = i + 1;
            proof {
                assert(line_views(raw_lines@) =~= line_views(before).push(line@));
                assert(all.subrange(first as int, i as int) =~= all.subrange(
                    first as int,
                    i - 1,
                ).push(all[i - 1]));
            }
        }
    }
    ConfigSection {
        alias,
        raw_lines,
        first_line: first,
        address_line_index: address,
        cross_reference_token: token,
    }
}

/// Reads the sections of a configuration file.
///
/// Runs of blank lines separate the sections and belong to none, so no
/// section is empty. Within a section the last entry line gives the alias,
/// the last address line is the one recorded, and the first marker line
/// gives the token.
pub fn parse(contents: &[u8]) -> (sections: Vec<ConfigSection>)
    ensures
        is_parse_of(sections@, lines(contents@)),
{
    let spans = split_lines(contents);
    let n: usize = spans.len();
    let ghost all = lines(contents@);
    let mut sections: Vec<ConfigSection> = Vec::new();
    let mut i: usize = 0;
    while i < n
        invariant
            spans_cut(contents@, spans@),
            n == spans.len(),
            all == lines(contents@),
            all.len() == n,
            i <= n,
            0 < i < n && !is_blank(all[i as int]) ==> is_blank(all[i - 1]),
            forall|k: int| 0 <= k < sections.len() ==> (#[trigger] sections[k]).describes(all),
            forall|k: int| 0 <= k < sections.len() ==> (#[trigger] sections[k]).end_line() <= i,
            forall|k: int, m: int|
                0 <= k < m < sections.len() ==> (#[trigger] sections[k]).end_line() < (
                #[trigger] sections[m]).first_line,
            forall|j: int|
                0 <= j < i && !is_blank(#[trigger] all[j]) ==> exists|k: int|
                    0 <= k < sections.len() && (#[trigger] sections[k]).holds_line(j),
        decreases n - i,
    {
        let span: LineSpan = spans[i];
        let line = slice_subrange(contents, span.start, span.end);
        assert(line@ == all[i as int]);
        if line_is_blank(line) {
            i = i + 1;
        } else {
            let sec = read_section(contents, &spans, i);
            let ghost before = sections@;
            let ghost start = i as int;
            let count: usize = sec.raw_lines.len();
            i = i + count;
            sections.push(sec);
            proof {
                let grown = sections@;
                let last = before.len() as int;
                assert(grown[last] == sec);
                assert forall|k: int| 0 <= k < last implies grown[k] == before[k] by {}
                assert forall|k: int, m: int| 0 <= k < m < grown.len() implies (
                #[trigger] grown[k]).end_line() < (#[trigger] grown[m]).first_line by {
                    if m == last {
                        assert(before[k].describes(all));
                        assert(before[k].end_line() <= start);
                    } else {
                        assert(before[k].end_line() < before[m].first_line);
                    }
                }
                assert forall|j: int| 0 <= j < i && !is_blank(#[trigger] all[j]) implies exists|
                    k: int,
                |
                    0 <= k < grown.len() && (#[trigger] grown[k]).holds_line(j) by {
                    if j < start {
                        let k = choose|k: int|
                            0 <= k < before.len() && (#[trigger] before[k]).holds_line(j);
                        assert(grown[k].holds_line(j));
                    } else {
                        assert(grown[last].holds_line(j));
                    }
                }
            }
        }
    }
    sections
}

/// Finds the first section of the given alias.
pub fn find_section(sections: &Vec<ConfigSection>, alias: &[u8]) -> (found: Option<usize>)
    ensures
        match found {
            Some(k) => k < sections.len() && sections[k as int].alias@ == alias@ && forall|j: int|
                0 <= j < k ==> (#[trigger] sections[j]).alias@ != alias@,
            None => forall|j: int|
                0 <= j < sections.len() ==> (#[trigger] sections[j]).alias@ != alias@,
        },
{
    let mut k: usize = 0;
    while k < sections.len()
        invariant
            k <= sections.len(),
            forall|j: int| 0 <= j < k ==> (#[trigger] sections[j]).alias@ != alias@,
        decreases sections.len() - k,
    {
        if same_bytes(sections[k].alias.as_slice(), alias) {
            return Some(k);
        }
        k = k + 1;
    }
    None
}

/// Whether line `line_index` of the file `s` is an address line.
pub open spec fn has_address_line(s: Seq<u8>, line_index: Option<usize>) -> bool {
    match line_index {
        Some(i) => i < lines(s).len() && is_address_line(lines(s)[i as int]),
        None => false,
    }
}

/// The file `s` with the value of its address line `i` replaced by `value`:
/// that line keeps its indentation, its keyword and its line ending, and
/// every other piece of the file stays as it is.
pub open spec fn rewritten(s: Seq<u8>, i: int, value: Seq<u8>) -> Seq<u8> {
    pieces(s).update(i, readdressed(lines(s)[i], value) + ending(pieces(s)[i])).flatten()
}

/// A value that fits on one line: it holds no line feed and no carriage
/// return.
pub open spec fn is_single_line(value: Seq<u8>) -> bool {
    forall|j: int|
        0 <= j < value.len() ==> #[trigger] value[j] != line_feed() && value[j]
            != carriage_return()
}

fn address_span(contents: &[u8], line_index: Option<usize>) -> (found: Option<(LineSpan, usize)>)
    ensures
        match found {
            Some((span, lead)) => {
                &&& has_address_line(contents@, line_index)
                &&& span.start <= span.end <= span.next <= contents@.len()
                &&& contents@.take(span.start as int) == pieces(contents@).take(
                    line_index.unwrap() as int,
                ).flatten()
                &&& contents@.subrange(span.start as int, span.next as int) == pieces(
                    contents@,
                )[line_index.unwrap() as int]
                &&& contents@.subrange(span.start as int, span.end as int) == lines(
                    contents@,
                )[line_index.unwrap() as int]
                &&& lead == leading_spaces(lines(contents@)[line_index.unwrap() as int])
                &&& span.start + lead + 9 <= span.end
            },
            None => !has_address_line(contents@, line_index),
        },
{
    let spans = split_lines(contents);
    match line_index {
        None => None,
        Some(i) => {
            if i >= spans.len() {
                return None;
            }
            let span: LineSpan = spans[i];
            let line = slice_subrange(contents, span.start, span.end);
            proof {
                lemma_kinds_apart(line@);
            }
            match classify(line) {
                LineKind::Address => {
                    let lead: usize = leading_space_count(line);
                    proof {
                        lemma_address_line_parts(line@);
                    }
                    Some((span, lead))
                },
                _ => None,
            }
        },
    }
}

/// The rewritten file, byte by byte: all that stands before the value of
/// the address line, the keyword, the new value, and all that stands behind
/// the body of the line.
proof fn lemma_rewritten_bytes(s: Seq<u8>, i: int, start: int, end: int, next: int, value: Seq<u8>)
    requires
        0 <= i < pieces(s).len(),
        0 <= start <= end <= next <= s.len(),
        s.take(start) == pieces(s).take(i).flatten(),
        s.subrange(start, next) == pieces(s)[i],
        s.subrange(start, end) == body(pieces(s)[i]),
        leading_spaces(body(pieces(s)[i])) <= end - start,
    ensures
        pieces(s).update(
            i,
            readdressed(body(pieces(s)[i]), value) + ending(pieces(s)[i]),
        ).flatten() == s.take(start + leading_spaces(body(pieces(s)[i]))) + address_keyword()
            + value + s.skip(end),
{
    let piece = pieces(s)[i];
    let line = body(piece);
    let lead = leading_spaces(line) as int;
    let x = readdressed(line, value) + ending(piece);
    lemma_replace_piece(s, i, start, x);
    assert(ending(piece) =~= s.subrange(end, next));
    assert(indent(line) =~= s.subrange(start, start + lead));
    assert(s.take(start) + x + s.skip(next) =~= s.take(start + lead) + address_keyword() + value
        + s.skip(end));
}

/// Replaces the value of the address line at `line_index`.
///
/// The line keeps its leading white space and its line ending, and every
/// other byte of the file stays. Where `line_index` is absent, or the file
/// has no address line there, nothing is rewritten and the call fails with
/// `MissingTargetLine`: a declaration is never inserted.
pub fn rewrite_address(contents: &[u8], line_index: Option<usize>, new_address: &[u8]) -> (r:
    Result<Vec<u8>, Failure>)
    ensures
        match r {
            Ok(out) => has_address_line(contents@, line_index) && out@ == rewritten(
                contents@,
                line_index.unwrap() as int,
                new_address@,
            ),
            Err(e) => e == Failure::MissingTargetLine && !has_address_line(contents@, line_index),
        },
{
    match address_span(contents, line_index) {
        None => Err(Failure::MissingTargetLine),
        Some((span, lead)) => {
            let keyword = address_keyword_bytes();
            let mut out: Vec<u8> = copy_range(contents, 0, span.start + lead);
            append_bytes(&mut out, keyword.as_slice());
            append_bytes(&mut out, new_address);
            let tail = slice_subrange(contents, span.end, contents.len());
            append_bytes(&mut out, tail);
            proof {
                let s = contents@;
                let i = line_index.unwrap() as int;
                assert(lines(s)[i] == body(pieces(s)[i]));
                lemma_rewritten_bytes(
                    s,
                    i,
                    span.start as int,
                    span.end as int,
                    span.next as int,
                    new_address@,
                );
                assert(out@ =~= s.take(span.start + lead) + address_keyword() + new_address@
                    + s.skip(span.end as int));
            }
            Ok(out)
        },
    }
}

/// Reads the value of the address line at `line_index`, where the file has
/// an address line there.
pub fn current_address(contents: &[u8], line_index: Option<usize>) -> (r: Option<Vec<u8>>)
    ensures
        match r {
            Some(value) => has_address_line(contents@, line_index) && value@ == address_value(
                lines(contents@)[line_index.unwrap() as int],
            ),
            None => !has_address_line(contents@, line_index),
        },
{
    match address_span(contents, line_index) {
        None => None,
        Some((span, lead)) => {
            let value = copy_range(contents, span.start + lead + 9, span.end);
            proof {
                let line = lines(contents@)[line_index.unwrap() as int];
                assert(value@ =~= address_value(line));
            }
            Some(value)
        },
    }
}

/// The address line that a section records is its last address line, and a
/// section records none only where it has no address line.
pub proof fn lemma_recorded_address_line(sec: ConfigSection, all: Seq<Seq<u8>>)
    requires
        sec.describes(all),
    ensures
        match sec.address_line_index {
            Some(i) => sec.holds_line(i as int) && i < all.len() && is_address_line(all[i as int])
                && forall|k: int| i < k < sec.end_line() ==> !is_address_line(#[trigger] all[k]),
            None => forall|k: int| sec.holds_line(k) ==> !is_address_line(#[trigger] all[k]),
        },
{
    let first = sec.first_line as int;
    let end = sec.end_line();
    lemma_last_of(all, first, end, LineKind::Address);
    assert forall|k: int| first <= k < end implies (kind_of(#[trigger] all[k])
        == LineKind::Address <==> is_address_line(all[k])) by {
        lemma_kinds_apart(all[k]);
    }
}

/// The token that a section records is that of its first marker line, and
/// a section records none only where it has no marker line.
pub proof fn lemma_recorded_token(sec: ConfigSection, all: Seq<Seq<u8>>)
    requires
        sec.describes(all),
    ensures
        match sec.cross_reference_token {
            Some(token) => exists|j: int|
                sec.holds_line(j) && is_marker_line(#[trigger] all[j]) && token@ == marker_token(
                    all[j],
                ) && forall|k: int| sec.first_line <= k < j ==> !is_marker_line(#[trigger] all[k]),
            None => forall|k: int| sec.holds_line(k) ==> !is_marker_line(#[trigger] all[k]),
        },
{
    let first = sec.first_line as int;
    let end = sec.end_line();
    lemma_first_of(all, first, end, LineKind::Marker);
    assert forall|k: int| first <= k < end implies (kind_of(#[trigger] all[k]) == LineKind::Marker
        <==> is_marker_line(all[k])) by {
        lemma_kinds_apart(all[k]);
    }
    match first_of(all, first, end, LineKind::Marker) {
        Some(j) => {
            assert(sec.holds_line(j) && is_marker_line(all[j]));
        },
        None => {},
    }
}

/// The alias that a section records is that of its last entry line, and it
/// is empty where the section has no entry line.
pub proof fn lemma_recorded_alias(sec: ConfigSection, all: Seq<Seq<u8>>)
    requires
        sec.describes(all),
    ensures
        (forall|k: int| sec.holds_line(k) ==> !is_entry_line(#[trigger] all[k])) ==> sec.alias@
            == Seq::<u8>::empty(),
        forall|j: int|
            sec.holds_line(j) && is_entry_line(#[trigger] all[j]) && (forall|k: int|
                j < k < sec.end_line() ==> !is_entry_line(#[trigger] all[k])) ==> sec.alias@
                == entry_alias(all[j]),
{
    let first = sec.first_line as int;
    let end = sec.end_line();
    lemma_last_of(all, first, end, LineKind::Entry);
    assert forall|k: int| first <= k < end implies (kind_of(#[trigger] all[k]) == LineKind::Entry
        <==> is_entry_line(all[k])) by {
        lemma_kinds_apart(all[k]);
    }
}

/// Rewriting an address line to the value it already has gives the file
/// back, byte for byte.
pub proof fn lemma_rewrite_same_address(s: Seq<u8>, i: int)
    requires
        0 <= i < lines(s).len(),
        is_address_line(lines(s)[i]),
    ensures
        rewritten(s, i, address_value(lines(s)[i])) == s,
{
    let piece = pieces(s)[i];
    let line = lines(s)[i];
    assert(line == body(piece));
    lemma_address_line_parts(line);
    lemma_body_and_ending(piece);
    assert(pieces(s).update(i, piece) =~= pieces(s));
    lemma_pieces_join(s);
}

/// Reading a file and at once rewriting the address line of one of its
/// sections to its own value gives the file back, byte for byte.
pub proof fn lemma_parse_then_rewrite_same(
    s: Seq<u8>,
    sections: Seq<ConfigSection>,
    k: int,
    i: usize,
)
    requires
        is_parse_of(sections, lines(s)),
        0 <= k < sections.len(),
        sections[k].address_line_index == Some(i),
    ensures
        has_address_line(s, Some(i)),
        rewritten(s, i as int, address_value(lines(s)[i as int])) == s,
{
    lemma_recorded_address_line(sections[k], lines(s));
    lemma_rewrite_same_address(s, i as int);
}

/// An address line with a new value that fits on one line, followed by the
/// line ending of the piece it comes from, is shaped like that piece: it has
/// the same line ending, and its body is the line with the new value.
pub proof fn lemma_readdressed_piece(piece: Seq<u8>, last: bool, value: Seq<u8>)
    requires
        is_piece(piece, last),
        is_address_line(body(piece)),
        is_single_line(value),
    ensures
        is_piece(readdressed(body(piece), value) + ending(piece), last),
        body(readdressed(body(piece), value) + ending(piece)) == readdressed(body(piece), value),
        ending(readdressed(body(piece), value) + ending(piece)) == ending(piece),
{
    let line = body(piece);
    let r = readdressed(line, value);
    let e = ending(piece);
    let x = r + e;
    let lead = leading_spaces(line) as int;
    lemma_address_line_parts(line);
    lemma_body_and_ending(piece);
    assert(r.len() == lead + 9 + value.len());
    assert forall|j: int| 0 <= j < r.len() implies #[trigger] r[j] != line_feed() by {
        if j < lead {
            assert(r[j] == line[j]);
            assert(line[j] == piece[j]);
        } else if j < lead + 9 {
            assert(r[j] == address_keyword()[j - lead]);
        } else {
            assert(r[j] == value[j - lead - 9]);
        }
    }
    assert(r.last() != carriage_return()) by {
        if value.len() > 0 {
            assert(r[r.len() - 1] == value[value.len() - 1]);
        } else {
            assert(r[r.len() - 1] == address_keyword()[8]);
        }
    }
    assert forall|j: int| 0 <= j < e.len() implies #[trigger] e[j] == piece[piece.len() - e.len()
        + j] by {}
    assert(ending_len(x) == ending_len(piece)) by {
        if e.len() == 2 {
            assert(x[x.len() - 1] == e[1]);
            assert(x[x.len() - 2] == e[0]);
        } else if e.len() == 1 {
            assert(x[x.len() - 1] == e[0]);
            assert(x[x.len() - 2] == r[r.len() - 1]);
        } else {
            assert(x[x.len() - 1] == r[r.len() - 1]);
        }
    }
    assert(body(x) =~= r);
    assert(ending(x) =~= e);
    assert forall|j: int| 0 <= j < x.len() - 1 implies #[trigger] x[j] != line_feed() by {
        if j < r.len() {
            assert(x[j] == r[j]);
        } else {
            assert(x[j] == e[j - r.len()]);
        }
    }
    if !last {
        assert(piece.last() == line_feed());
        assert(x.last() == e[e.len() - 1]);
    }
}

/// Rewriting an address line to a value that fits on one line changes that
/// line and no other: the file has the same number of lines, every other
/// line and every line ending is as before, and the rewritten line has the
/// old indentation and the new value.
pub proof fn lemma_rewrite_keeps_other_lines(s: Seq<u8>, i: int, value: Seq<u8>)
    requires
        0 <= i < lines(s).len(),
        is_address_line(lines(s)[i]),
        is_single_line(value),
    ensures
        pieces(rewritten(s, i, value)) == pieces(s).update(
            i,
            readdressed(lines(s)[i], value) + ending(pieces(s)[i]),
        ),
        lines(rewritten(s, i, value)) == lines(s).update(i, readdressed(lines(s)[i], value)),
        indent(readdressed(lines(s)[i], value)) == indent(lines(s)[i]),
        address_value(readdressed(lines(s)[i], value)) == value,
{
    let piece = pieces(s)[i];
    let last = i == pieces(s).len() - 1;
    lemma_pieces_shape(s);
    assert(is_piece(piece, last));
    assert(lines(s)[i] == body(piece));
    lemma_readdressed_piece(piece, last, value);
    lemma_readdressed(body(piece), value);
    lemma_lines_after_replacing(s, i, readdressed(body(piece), value) + ending(piece));
}

/// Writes the address of an instance into the address line that a section
/// records, as `rewrite_address` does with the bytes of the address.
pub fn persist_address(contents: &[u8], section: &ConfigSection, address: &str) -> (r: Result<
    Vec<u8>,
    Failure,
>)
    ensures
        match r {
            Ok(out) => has_address_line(contents@, section.address_line_index) && out@
                == rewritten(
                contents@,
                section.address_line_index.unwrap() as int,
                address.spec_bytes(),
            ),
            Err(e) => e == Failure::MissingTargetLine && !has_address_line(
                contents@,
                section.address_line_index,
            ),
        },
{
    rewrite_address(contents, section.address_line_index, address.as_bytes())
}

/// Two sections hold the same: they begin at the same line and agree in
/// their lines, alias, address line and token.
pub open spec fn same_section(x: ConfigSection, y: ConfigSection) -> bool {
    &&& x.first_line == y.first_line
    &&& line_views(x.raw_lines@) == line_views(y.raw_lines@)
    &&& x.alias@ == y.alias@
    &&& x.address_line_index == y.address_line_index
    &&& token_view(x.cross_reference_token) == token_view(y.cross_reference_token)
}

/// Two sections read from the same lines that share a line are the same
/// run of lines.
pub proof fn lemma_sections_sharing_a_line(
    x: ConfigSection,
    y: ConfigSection,
    all: Seq<Seq<u8>>,
    i: int,
)
    requires
        x.describes(all),
        y.describes(all),
        x.holds_line(i),
        y.holds_line(i),
    ensures
        x.first_line == y.first_line,
        x.end_line() == y.end_line(),
        same_section(x, y),
{
    if x.first_line < y.first_line {
        assert(!is_blank(all[y.first_line - 1]));
    }
    if y.first_line < x.first_line {
        assert(!is_blank(all[x.first_line - 1]));
    }
    if x.end_line() < y.end_line() {
        assert(!is_blank(all[x.end_line()]));
    }
    if y.end_line() < x.end_line() {
        assert(!is_blank(all[y.end_line()]));
    }
    assert(x.raw_lines@.len() == y.raw_lines@.len());
    assert(index_view(x.address_line_index) == index_view(y.address_line_index));
}

/// `is_parse_of`, kept folded while the sections of two readings are
/// compared.
#[verifier::opaque]
spec fn reads(sections: Seq<ConfigSection>, all: Seq<Seq<u8>>) -> bool {
    is_parse_of(sections, all)
}

proof fn lemma_reads_extent(a: Seq<ConfigSection>, all: Seq<Seq<u8>>, k: int)
    requires
        reads(a, all),
        0 <= k < a.len(),
    ensures
        a[k].first_line < a[k].end_line() <= all.len(),
        a[k].holds_line(a[k].first_line as int),
        !is_blank(all[a[k].first_line as int]),
{
    reveal(reads);
    assert(a[k].describes(all));
}

proof fn lemma_reads_in_order(a: Seq<ConfigSection>, all: Seq<Seq<u8>>, k: int, m: int)
    requires
        reads(a, all),
        0 <= k < m < a.len(),
    ensures
        a[k].end_line() < a[m].first_line,
{
    reveal(reads);
}

proof fn lemma_reads_cover(a: Seq<ConfigSection>, all: Seq<Seq<u8>>, i: int) -> (k: int)
    requires
        reads(a, all),
        0 <= i < all.len(),
        !is_blank(all[i]),
    ensures
        0 <= k < a.len(),
        a[k].holds_line(i),
{
    reveal(reads);
    choose|k: int| 0 <= k < a.len() && (#[trigger] a[k]).holds_line(i)
}

proof fn lemma_reads_shared(
    a: Seq<ConfigSection>,
    b: Seq<ConfigSection>,
    all: Seq<Seq<u8>>,
    k: int,
    m: int,
    i: int,
)
    requires
        reads(a, all),
        reads(b, all),
        0 <= k < a.len(),
        0 <= m < b.len(),
        a[k].holds_line(i),
        b[m].holds_line(i),
    ensures
        a[k].first_line == b[m].first_line,
        a[k].end_line() == b[m].end_line(),
        same_section(a[k], b[m]),
{
    reveal(reads);
    assert(a[k].describes(all));
    assert(b[m].describes(all));
    lemma_sections_sharing_a_line(a[k], b[m], all, i);
}

proof fn lemma_same_extent(
    a: Seq<ConfigSection>,
    b: Seq<ConfigSection>,
    all: Seq<Seq<u8>>,
    k: int,
)
    requires
        reads(a, all),
        reads(b, all),
        0 <= k < a.len(),
        k < b.len(),
    ensures
        a[k].first_line == b[k].first_line,
        same_section(a[k], b[k]),
    decreases k,
{
    lemma_reads_extent(a, all, k);
    lemma_reads_extent(b, all, k);
    let fa = a[k].first_line as int;
    let fb = b[k].first_line as int;
    let m = lemma_reads_cover(b, all, fa);
    let n = lemma_reads_cover(a, all, fb);
    lemma_reads_shared(a, b, all, k, m, fa);
    lemma_reads_shared(a, b, all, n, k, fb);
    if m < k {
        lemma_same_extent(a, b, all, m);
        lemma_reads_extent(a, all, m);
        lemma_reads_in_order(a, all, m, k);
    } else if n < k {
        lemma_same_extent(a, b, all, n);
        lemma_reads_extent(b, all, n);
        lemma_reads_in_order(b, all, n, k);
    } else if m > k {
        lemma_reads_in_order(b, all, k, m);
        if n > k {
            lemma_reads_in_order(a, all, k, n);
        }
    }
}

proof fn lemma_no_section_more(a: Seq<ConfigSection>, b: Seq<ConfigSection>, all: Seq<Seq<u8>>)
    requires
        reads(a, all),
        reads(b, all),
    ensures
        a.len() <= b.len(),
{
    if a.len() > b.len() {
        let k = b.len() as int;
        lemma_reads_extent(a, all, k);
        let fa = a[k].first_line as int;
        let m = lemma_reads_cover(b, all, fa);
        lemma_reads_shared(a, b, all, k, m, fa);
        lemma_same_extent(a, b, all, m);
        lemma_reads_extent(a, all, m);
        lemma_reads_in_order(a, all, m, k);
    }
}

/// The lines of a file determine the sections that are read from it: two
/// runs of sections that both are what the lines hold agree in their number
/// and, one by one, in all that a section records.
pub proof fn lemma_parse_is_determined(
    a: Seq<ConfigSection>,
    b: Seq<ConfigSection>,
    all: Seq<Seq<u8>>,
)
    requires
        is_parse_of(a, all),
        is_parse_of(b, all),
    ensures
        a.len() == b.len(),
        forall|k: int| 0 <= k < a.len() ==> same_section(#[trigger] a[k], b[k]),
{
    assert(reads(a, all) && reads(b, all)) by {
        reveal(reads);
    }
    lemma_no_section_more(a, b, all);
    lemma_no_section_more(b, a, all);
    assert forall|k: int| 0 <= k < a.len() implies same_section(#[trigger] a[k], b[k]) by {
        lemma_same_extent(a, b, all, k);
    }
}

/// The lines before `upto` that are not blank, in the order of the file.
pub open spec fn kept_lines(all: Seq<Seq<u8>>, upto: int) -> Seq<Seq<u8>>
    decreases upto,
{
    if upto <= 0 {
        Seq::empty()
    } else if is_blank(all[upto - 1]) {
        kept_lines(all, upto - 1)
    } else {
        kept_lines(all, upto - 1).push(all[upto - 1])
    }
}

/// Line `i` begins a run of lines that are not blank: it is not blank, and
/// it is the first line of the file or follows a blank line.
pub open spec fn begins_run(all: Seq<Seq<u8>>, i: int) -> bool {
    !is_blank(all[i]) && (i == 0 || is_blank(all[i - 1]))
}

/// The number of runs of lines that are not blank which begin before
/// `upto`.
pub open spec fn count_runs(all: Seq<Seq<u8>>, upto: int) -> nat
    decreases upto,
{
    if upto <= 0 {
        0
    } else if begins_run(all, upto - 1) {
        count_runs(all, upto - 1) + 1
    } else {
        count_runs(all, upto - 1)
    }
}

/// The lines of the first `k` sections, joined in order.
pub open spec fn joined_lines(sections: Seq<ConfigSection>, k: int) -> Seq<Seq<u8>>
    decreases k,
{
    if k <= 0 {
        Seq::empty()
    } else {
        joined_lines(sections, k - 1) + line_views(sections[k - 1].raw_lines@)
    }
}

/// The line behind the first `k` sections.
spec fn boundary(sections: Seq<ConfigSection>, k: int) -> int {
    if k <= 0 {
        0
    } else {
        sections[k - 1].end_line()
    }
}

proof fn lemma_over_blank_lines(all: Seq<Seq<u8>>, lo: int, hi: int)
    requires
        0 <= lo <= hi <= all.len(),
        forall|i: int| lo <= i < hi ==> is_blank(#[trigger] all[i]),
    ensures
        kept_lines(all, hi) == kept_lines(all, lo),
        count_runs(all, hi) == count_runs(all, lo),
    decreases hi - lo,
{
    if lo < hi {
        lemma_over_blank_lines(all, lo, hi - 1);
        assert(is_blank(all[hi - 1]));
    }
}

proof fn lemma_over_a_run(all: Seq<Seq<u8>>, lo: int, hi: int)
    requires
        0 <= lo < hi <= all.len(),
        forall|i: int| lo <= i < hi ==> !is_blank(#[trigger] all[i]),
        lo > 0 ==> is_blank(all[lo - 1]),
    ensures
        kept_lines(all, hi) == kept_lines(all, lo) + all.subrange(lo, hi),
        count_runs(all, hi) == count_runs(all, lo) + 1,
    decreases hi - lo,
{
    assert(!is_blank(all[hi - 1]));
    if hi == lo + 1 {
        assert(kept_lines(all, lo).push(all[lo]) =~= kept_lines(all, lo) + all.subrange(lo, hi));
    } else {
        lemma_over_a_run(all, lo, hi - 1);
        assert(!is_blank(all[hi - 2]));
        assert((kept_lines(all, lo) + all.subrange(lo, hi - 1)).push(all[hi - 1]) =~= kept_lines(
            all,
            lo,
        ) + all.subrange(lo, hi));
    }
}

proof fn lemma_reads_section(a: Seq<ConfigSection>, all: Seq<Seq<u8>>, k: int)
    requires
        reads(a, all),
        0 <= k < a.len(),
    ensures
        0 <= a[k].first_line < a[k].end_line() <= all.len(),
        line_views(a[k].raw_lines@) == all.subrange(a[k].first_line as int, a[k].end_line()),
        forall|i: int| a[k].first_line <= i < a[k].end_line() ==> !is_blank(#[trigger] all[i]),
        a[k].first_line > 0 ==> is_blank(all[a[k].first_line - 1]),
        k > 0 ==> a[k - 1].end_line() < a[k].first_line,
{
    reveal(reads);
    assert(a[k].describes(all));
}

proof fn lemma_blank_outside_sections(a: Seq<ConfigSection>, all: Seq<Seq<u8>>, k: int, i: int)
    requires
        reads(a, all),
        0 <= k <= a.len(),
        boundary(a, k) <= i < all.len(),
        k < a.len() ==> i < a[k].first_line,
    ensures
        is_blank(all[i]),
{
    if !is_blank(all[i]) {
        let m = lemma_reads_cover(a, all, i);
        if m < k {
            if m < k - 1 {
                lemma_reads_in_order(a, all, m, k - 1);
                lemma_reads_extent(a, all, k - 1);
            }
        } else if m > k {
            lemma_reads_in_order(a, all, k, m);
            lemma_reads_extent(a, all, k);
        }
    }
}

proof fn lemma_runs_upto(a: Seq<ConfigSection>, all: Seq<Seq<u8>>, k: int)
    requires
        reads(a, all),
        0 <= k <= a.len(),
    ensures
        0 <= boundary(a, k) <= all.len(),
        joined_lines(a, k) == kept_lines(all, boundary(a, k)),
        count_runs(all, boundary(a, k)) == k,
    decreases k,
{
    if k > 0 {
        lemma_runs_upto(a, all, k - 1);
        lemma_reads_section(a, all, k - 1);
        let c = boundary(a, k - 1);
        let f = a[k - 1].first_line as int;
        let e = a[k - 1].end_line();
        assert forall|i: int| c <= i < f implies is_blank(#[trigger] all[i]) by {
            lemma_blank_outside_sections(a, all, k - 1, i);
        }
        lemma_over_blank_lines(all, c, f);
        lemma_over_a_run(all, f, e);
    }
}

/// The sections are the runs of lines that are not blank: joined in order,
/// their lines are the lines of the file that are not blank, none dropped,
/// repeated or moved, and there are as many sections as such runs.
pub proof fn lemma_sections_are_the_runs(sections: Seq<ConfigSection>, all: Seq<Seq<u8>>)
    requires
        is_parse_of(sections, all),
    ensures
        joined_lines(sections, sections.len() as int) == kept_lines(all, all.len() as int),
        sections.len() == count_runs(all, all.len() as int),
{
    assert(reads(sections, all)) by {
        reveal(reads);
    }
    let n = sections.len() as int;
    lemma_runs_upto(sections, all, n);
    let c = boundary(sections, n);
    assert forall|i: int| c <= i < all.len() implies is_blank(#[trigger] all[i]) by {
        lemma_blank_outside_sections(sections, all, n, i);
    }
    lemma_over_blank_lines(all, c, all.len() as int);
}

/// Two lines that are not blank are in the same section exactly when no
/// blank line lies between them.
pub proof fn lemma_same_section_iff_no_blank_between(
    sections: Seq<ConfigSection>,
    all: Seq<Seq<u8>>,
    i: int,
    j: int,
    k: int,
)
    requires
        is_parse_of(sections, all),
        0 <= i <= j < all.len(),
        !is_blank(all[i]),
        !is_blank(all[j]),
        0 <= k < sections.len(),
        sections[k].holds_line(i),
    ensures
        sections[k].holds_line(j) <==> forall|m: int| i <= m <= j ==> !is_blank(#[trigger] all[m]),
{
    assert(reads(sections, all)) by {
        reveal(reads);
    }
    lemma_reads_section(sections, all, k);
    if !sections[k].holds_line(j) {
        let e = sections[k].end_line();
        lemma_blank_outside_sections(sections, all, k + 1, e);
    }
}

} // verus!
