//! The matching loop over one buffer of whole lines: it asks the matcher for
//! the next line, finds where that line begins and ends, keeps count of lines
//! and bytes, and hands the line to the sink.

use crate::matcher::{any_of, ErrorText, LineMatchKind, LineTerminator, Match, Matcher};
use crate::searcher::lines;
use crate::searcher::lines::{
    absent,
    count_of,
    lemma_count_of_split,
    lemma_line_bounds,
    line_end_at,
    line_start_at,
    spec_without_terminator,
};
use crate::searcher::sink::{
    answer_of,
    last_answer,
    handed,
    handed_one,
    Answer,
    LineRecord,
    Sink,
    SinkError,
    SinkMatch,
};
use crate::searcher::Searcher;
use vstd::prelude::*;
use vstd::slice::slice_subrange;

verus! {

/// What the matcher makes out in a buffer from some offset on.
pub enum NextLine<E> {
    /// The line `start..end` holds a match.
    Line(int, int),
    /// No further line holds a match.
    Nothing,
    /// The matcher failed.
    Failed(E),
}

/// The offset that a matcher reported.
pub open spec fn position_of(kind: LineMatchKind) -> usize {
    match kind {
        LineMatchKind::Confirmed(i) => i,
        LineMatchKind::Candidate(i) => i,
    }
}

/// The next line of `buf` at or after `pos` that holds a match.
///
/// The matcher is asked for a line in `buf[pos..]`. A confirmed position
/// gives the line around it, unless that line would begin where `buf` ends.
/// A candidate position gives the line around it only where the matcher
/// finds a match in that line, taken without its terminator; otherwise the
/// search goes on behind that line.
pub open spec fn next_line<M: Matcher>(
    matcher: &M,
    buf: Seq<u8>,
    line_term: LineTerminator,
    pos: int,
) -> NextLine<M::Error>
    decreases buf.len() - pos,
{
    if pos < 0 || pos >= buf.len() {
        NextLine::Nothing
    } else {
        match matcher.candidate(buf.skip(pos)) {
            Err(e) => NextLine::Failed(e),
            Ok(None) => NextLine::Nothing,
            Ok(Some(kind)) => {
                let at = pos + position_of(kind);
                let start = line_start_at(buf, line_term.spec_as_byte(), at);
                let end = line_end_at(buf, line_term.spec_as_byte(), at);
                match kind {
                    LineMatchKind::Confirmed(_) => if start == buf.len() {
                        NextLine::Nothing
                    } else {
                        NextLine::Line(start, end)
                    },
                    LineMatchKind::Candidate(_) => {
                        let line = spec_without_terminator(buf.subrange(start, end), line_term);
                        match any_of(matcher.found(line, 0)) {
                            Err(e) => NextLine::Failed(e),
                            Ok(true) => NextLine::Line(start, end),
                            Ok(false) => if pos < end <= buf.len() {
                                next_line(matcher, buf, line_term, end)
                            } else {
                                NextLine::Nothing
                            },
                        }
                    },
                }
            },
        }
    }
}

/// The lines of `buf` from `pos` on that hold a match, in order, up to the
/// first failure of the matcher, and that failure.
pub open spec fn visit<M: Matcher>(
    matcher: &M,
    buf: Seq<u8>,
    line_term: LineTerminator,
    pos: int,
) -> (Seq<(int, int)>, Option<M::Error>)
    decreases buf.len() - pos,
{
    match next_line(matcher, buf, line_term, pos) {
        NextLine::Nothing => (Seq::empty(), None),
        NextLine::Failed(e) => (Seq::empty(), Some(e)),
        NextLine::Line(start, end) => if pos < end <= buf.len() {
            let rest = visit(matcher, buf, line_term, end);
            (seq![(start, end)] + rest.0, rest.1)
        } else {
            (Seq::empty(), None)
        },
    }
}

/// Whether the matcher makes out a line in no stretch of `input`, and fails
/// in none.
pub open spec fn finds_nothing_in<M: Matcher>(matcher: &M, input: Seq<u8>) -> bool {
    forall|from: int, to: int|
        0 <= from <= to <= input.len() ==> matcher.candidate(#[trigger] input.subrange(from, to))
            == Ok::<Option<LineMatchKind>, M::Error>(None)
}

/// Where the matcher makes out a line in no stretch of `input`, no line of
/// a stretch of `input` holds a match.
pub proof fn lemma_nothing_found<M: Matcher>(
    matcher: &M,
    input: Seq<u8>,
    from: int,
    to: int,
    line_term: LineTerminator,
    pos: int,
)
    requires
        finds_nothing_in(matcher, input),
        0 <= from <= to <= input.len(),
    ensures
        visit(matcher, input.subrange(from, to), line_term, pos) == (
            Seq::<(int, int)>::empty(),
            None::<M::Error>,
        ),
{
    let buf = input.subrange(from, to);
    if 0 <= pos < buf.len() {
        assert(buf.skip(pos) =~= input.subrange(from + pos, to));
    }
}

/// Whether the matcher confirms, in every haystack that is not empty, a
/// position in its first line: every line holds a match.
pub open spec fn finds_every_line<M: Matcher>(matcher: &M, line_term: u8) -> bool {
    forall|haystack: Seq<u8>|
        haystack.len() > 0 ==> (#[trigger] matcher.candidate(haystack) matches Ok(
            Some(LineMatchKind::Confirmed(i)),
        ) && i < haystack.len() && absent(haystack.subrange(0, i as int), line_term))
}

/// The bytes of the lines `lines` of `buf`, one after the other.
pub open spec fn joined(buf: Seq<u8>, lines: Seq<(int, int)>) -> Seq<u8>
    decreases lines.len(),
{
    if lines.len() == 0 {
        Seq::empty()
    } else {
        buf.subrange(lines[0].0, lines[0].1) + joined(buf, lines.skip(1))
    }
}

/// The bytes of the lines that `recs` tell of, one after the other.
pub open spec fn bytes_of(recs: Seq<LineRecord>) -> Seq<u8>
    decreases recs.len(),
{
    if recs.len() == 0 {
        Seq::empty()
    } else {
        recs[0].bytes + bytes_of(recs.skip(1))
    }
}

/// The bytes of two runs of records are those of the first and then those
/// of the second.
pub proof fn lemma_bytes_of_both(a: Seq<LineRecord>, b: Seq<LineRecord>)
    ensures
        bytes_of(a + b) == bytes_of(a) + bytes_of(b),
    decreases a.len(),
{
    if a.len() == 0 {
        assert(a + b =~= b);
        assert(bytes_of(a) + bytes_of(b) =~= bytes_of(b));
    } else {
        assert((a + b).skip(1) =~= a.skip(1) + b);
        lemma_bytes_of_both(a.skip(1), b);
        assert(bytes_of(a + b) =~= bytes_of(a) + bytes_of(b));
    }
}

/// What the records of the lines `lines` of `buf` tell of is the bytes of
/// those lines.
pub proof fn lemma_bytes_of_records(
    buf: Seq<u8>,
    line_term: LineTerminator,
    offset: u64,
    first_line: Option<int>,
    lines: Seq<(int, int)>,
)
    ensures
        bytes_of(records_of(buf, line_term, offset, first_line, lines)) == joined(buf, lines),
    decreases lines.len(),
{
    let recs = records_of(buf, line_term, offset, first_line, lines);
    if lines.len() > 0 {
        lemma_bytes_of_records(buf, line_term, offset, first_line, lines.skip(1));
        assert(recs.skip(1) =~= records_of(buf, line_term, offset, first_line, lines.skip(1)));
    }
}

/// Where every line holds a match, the lines found from the start of a
/// line on are all that follows in the buffer, and the matcher does not
/// fail.
pub proof fn lemma_every_line_found<M: Matcher>(
    matcher: &M,
    buf: Seq<u8>,
    line_term: LineTerminator,
    pos: int,
)
    requires
        finds_every_line(matcher, line_term.spec_as_byte()),
        0 <= pos <= buf.len(),
        0 < pos < buf.len() ==> buf[pos - 1] == line_term.spec_as_byte(),
    ensures
        visit(matcher, buf, line_term, pos).1 is None,
        joined(buf, visit(matcher, buf, line_term, pos).0) == buf.subrange(pos, buf.len() as int),
    decreases buf.len() - pos,
{
    let term = line_term.spec_as_byte();
    if pos < buf.len() {
        let haystack = buf.skip(pos);
        let i = matcher.candidate(haystack)->Ok_0->0->Confirmed_0 as int;
        let at = pos + i;
        assert(haystack.subrange(0, i) =~= buf.subrange(pos, at));
        lines::lemma_line_start_at(buf, term, at, pos);
        lemma_line_bounds(buf, term, at);
        lemma_line_end_on_terminator(buf, term, at);
        let end = line_end_at(buf, term, at);
        lemma_every_line_found(matcher, buf, line_term, end);
        let rest = visit(matcher, buf, line_term, end);
        let found = visit(matcher, buf, line_term, pos);
        assert(found.0 == seq![(pos, end)] + rest.0);
        assert(found.0.skip(1) =~= rest.0);
        assert(buf.subrange(pos, end) + buf.subrange(end, buf.len() as int) =~= buf.subrange(
            pos,
            buf.len() as int,
        ));
    } else {
        assert(buf.subrange(pos, buf.len() as int) =~= Seq::<u8>::empty());
    }
}

/// Whether `line` is a whole line of `buf`: it begins where `buf` begins
/// or behind a terminator, holds a terminator nowhere but as its last byte,
/// and ends behind a terminator or where `buf` ends.
pub open spec fn whole_line(buf: Seq<u8>, line_term: u8, line: (int, int)) -> bool {
    let (start, end) = line;
    &&& 0 <= start <= end <= buf.len()
    &&& start > 0 ==> buf[start - 1] == line_term
    &&& end > start ==> absent(buf.subrange(start, end - 1), line_term)
    &&& end < buf.len() ==> end > start && buf[end - 1] == line_term
}

/// Whether the matcher makes out lines within the haystack only.
pub open spec fn stays_inside<M: Matcher>(matcher: &M) -> bool {
    forall|haystack: Seq<u8>| #[trigger]
        matcher.candidate(haystack) matches Ok(Some(kind)) ==> position_of(kind)
            <= haystack.len()
}

/// No terminator stands between the start of a line and an offset in it.
proof fn lemma_none_before(buf: Seq<u8>, line_term: u8, at: int)
    requires
        0 <= at <= buf.len(),
    ensures
        absent(buf.subrange(line_start_at(buf, line_term, at), at), line_term),
    decreases at,
{
    lines::lemma_line_bounds(buf, line_term, at);
    if at > 0 && buf[at - 1] != line_term {
        lemma_none_before(buf, line_term, at - 1);
        let start = line_start_at(buf, line_term, at);
        lines::lemma_line_bounds(buf, line_term, at - 1);
        let head = buf.subrange(start, at);
        assert forall|i: int| 0 <= i < head.len() implies head[i] != line_term by {
            if i < at - 1 - start {
                assert(buf.subrange(start, at - 1)[i] == buf[start + i]);
            }
        }
    }
}

/// No terminator stands between an offset in a line and the last byte of
/// the line.
proof fn lemma_none_behind(buf: Seq<u8>, line_term: u8, at: int)
    requires
        0 <= at < buf.len(),
    ensures
        absent(buf.subrange(at, line_end_at(buf, line_term, at) - 1), line_term),
    decreases buf.len() - at,
{
    lines::lemma_line_bounds(buf, line_term, at);
    if buf[at] != line_term {
        if at + 1 < buf.len() {
            lemma_none_behind(buf, line_term, at + 1);
            lines::lemma_line_bounds(buf, line_term, at + 1);
            let end = line_end_at(buf, line_term, at);
            let tail = buf.subrange(at, end - 1);
            assert forall|i: int| 0 <= i < tail.len() implies tail[i] != line_term by {
                if i > 0 {
                    assert(buf.subrange(at + 1, end - 1)[i - 1] == buf[at + i]);
                }
            }
        }
    }
}

/// The line around an offset is a whole line.
pub proof fn lemma_line_is_whole(buf: Seq<u8>, line_term: u8, at: int)
    requires
        0 <= at <= buf.len(),
    ensures
        whole_line(
            buf,
            line_term,
            (line_start_at(buf, line_term, at), line_end_at(buf, line_term, at)),
        ),
{
    let start = line_start_at(buf, line_term, at);
    let end = line_end_at(buf, line_term, at);
    lines::lemma_line_bounds(buf, line_term, at);
    lemma_line_end_on_terminator(buf, line_term, at);
    lemma_none_before(buf, line_term, at);
    lemma_starts_behind_terminator(buf, line_term, at);
    if at < buf.len() {
        lemma_none_behind(buf, line_term, at);
        let line = buf.subrange(start, end - 1);
        assert forall|i: int| 0 <= i < line.len() implies line[i] != line_term by {
            if start + i < at {
                assert(buf.subrange(start, at)[i] == buf[start + i]);
            } else {
                assert(buf.subrange(at, end - 1)[start + i - at] == buf[start + i]);
            }
        }
    }
}

/// A line begins where the buffer begins or behind a terminator.
proof fn lemma_starts_behind_terminator(buf: Seq<u8>, line_term: u8, at: int)
    requires
        0 <= at <= buf.len(),
    ensures
        line_start_at(buf, line_term, at) > 0 ==> buf[line_start_at(buf, line_term, at) - 1]
            == line_term,
    decreases at,
{
    if at > 0 && buf[at - 1] != line_term {
        lemma_starts_behind_terminator(buf, line_term, at - 1);
    }
}

/// The line that the matcher makes out next is a whole line.
pub proof fn lemma_next_line_is_whole<M: Matcher>(
    matcher: &M,
    buf: Seq<u8>,
    line_term: LineTerminator,
    pos: int,
)
    requires
        stays_inside(matcher),
    ensures
        next_line(matcher, buf, line_term, pos) matches NextLine::Line(start, end) ==> whole_line(
            buf,
            line_term.spec_as_byte(),
            (start, end),
        ),
    decreases buf.len() - pos,
{
    if 0 <= pos < buf.len() {
        if let Ok(Some(kind)) = matcher.candidate(buf.skip(pos)) {
            let at = pos + position_of(kind);
            lemma_line_is_whole(buf, line_term.spec_as_byte(), at);
            let end = line_end_at(buf, line_term.spec_as_byte(), at);
            if pos < end <= buf.len() {
                lemma_next_line_is_whole(matcher, buf, line_term, end);
            }
        }
    }
}

/// Each line that a search finds is a whole line.
pub proof fn lemma_lines_are_whole<M: Matcher>(
    matcher: &M,
    buf: Seq<u8>,
    line_term: LineTerminator,
    pos: int,
)
    requires
        stays_inside(matcher),
    ensures
        forall|i: int|
            0 <= i < visit(matcher, buf, line_term, pos).0.len() ==> whole_line(
                buf,
                line_term.spec_as_byte(),
                #[trigger] visit(matcher, buf, line_term, pos).0[i],
            ),
    decreases buf.len() - pos,
{
    lemma_next_line_is_whole(matcher, buf, line_term, pos);
    if let NextLine::Line(start, end) = next_line(matcher, buf, line_term, pos) {
        if pos < end <= buf.len() {
            lemma_lines_are_whole(matcher, buf, line_term, end);
            let rest = visit(matcher, buf, line_term, end).0;
            let found = visit(matcher, buf, line_term, pos).0;
            assert forall|i: int| 0 <= i < found.len() implies whole_line(
                buf,
                line_term.spec_as_byte(),
                #[trigger] found[i],
            ) by {
                if i > 0 {
                    assert(found[i] == rest[i - 1]);
                }
            }
        }
    }
}

/// Whether the lines `found` lie between `from` and `to` and stand one
/// behind the other.
pub open spec fn lines_ascend(found: Seq<(int, int)>, from: int, to: int) -> bool {
    &&& forall|i: int|
        0 <= i < found.len() ==> from <= (#[trigger] found[i]).0 <= found[i].1 <= to
    &&& forall|i: int, j: int|
        0 <= i < j < found.len() ==> (#[trigger] found[i]).1 <= (#[trigger] found[j]).0
}

/// What a sink is told of the line `start..end` of `buf`, where `buf`
/// begins at `offset` in the whole input and its first line has the number
/// `first_line`.
pub open spec fn record_of(
    buf: Seq<u8>,
    line_term: LineTerminator,
    offset: u64,
    first_line: Option<int>,
    line: (int, int),
) -> LineRecord {
    LineRecord {
        start: line.0 as usize,
        end: line.1 as usize,
        absolute_byte_offset: (offset + line.0) as u64,
        line_number: match first_line {
            Some(n) => Some(
                (n + count_of(buf.subrange(0, line.0), line_term.spec_as_byte())) as u64,
            ),
            None => None,
        },
        bytes: buf.subrange(line.0, line.1),
        buffer: buf,
        line_term,
    }
}

/// `record_of`, line by line.
pub open spec fn records_of(
    buf: Seq<u8>,
    line_term: LineTerminator,
    offset: u64,
    first_line: Option<int>,
    found: Seq<(int, int)>,
) -> Seq<LineRecord> {
    Seq::new(found.len(), |i: int| record_of(buf, line_term, offset, first_line, found[i]))
}

/// How the search goes on after a line.
#[derive(Clone, Copy, Debug, PartialEq, Eq, Structural)]
pub enum FastMatchResult {
    /// With the next line.
    Continue,
    /// Not at all: the sink asked to stop.
    Stop,
}

/// What follows from the answer of the sink to a line: the search goes on
/// where the sink said so, stops where it asked to stop, and fails with the
/// error of the sink.
pub fn after_line<E>(answer: Result<bool, E>) -> (next: Result<FastMatchResult, E>)
    ensures
        next == match answer {
            Ok(true) => Ok::<FastMatchResult, E>(FastMatchResult::Continue),
            Ok(false) => Ok(FastMatchResult::Stop),
            Err(e) => Err(e),
        },
{
    match answer {
        Ok(true) => Ok(FastMatchResult::Continue),
        Ok(false) => Ok(FastMatchResult::Stop),
        Err(e) => Err(e),
    }
}

/// What a search returns that has told its sink of `recs` and would go on
/// with `otherwise` if the sink said to go on each time: the last answer
/// of the sink, unless that is to go on.
pub open spec fn outcome<S: Sink>(
    searcher: &Searcher,
    states: Seq<S>,
    recs: Seq<LineRecord>,
    otherwise: Answer,
) -> Answer {
    if last_answer(searcher, states, recs) == Ok::<bool, (Seq<char>, bool)>(true) {
        otherwise
    } else {
        last_answer(searcher, states, recs)
    }
}

/// What the result `r` of the matching loop says.
pub open spec fn fast_answer<E: SinkError>(r: Result<FastMatchResult, E>) -> Answer {
    match r {
        Ok(FastMatchResult::Continue) => Ok(true),
        Ok(FastMatchResult::Stop) => Ok(false),
        Err(e) => Err((e.message(), e.is_io())),
    }
}

/// What a search returns when the matcher has found all it could, with
/// `failed` as its failure: to go on, or the error that says what the
/// failure says.
pub open spec fn matcher_outcome<E: ErrorText>(failed: Option<E>) -> Answer {
    match failed {
        None => Ok(true),
        Some(e) => Err((e.text(), false)),
    }
}

/// The state of a search over the buffers of one input.
pub struct Core<'s, M, S> {
    matcher: M,
    searcher: &'s Searcher,
    sink: S,
    /// The number of the line at `last_line_counted`, where lines are
    /// counted.
    line_number: Option<u64>,
    /// Where the buffer begins in the whole input.
    absolute_byte_offset: u64,
    /// Up to where in the buffer the terminators are counted.
    last_line_counted: usize,
    /// The end of the last line that was handed to the sink.
    last_line_visited: usize,
    /// Where the search goes on in the buffer.
    pos: usize,
    has_matched: bool,
}

impl<'s, M: Matcher, S: Sink> Core<'s, M, S> {
    /// The sink.
    pub closed spec fn sink(&self) -> S {
        self.sink
    }

    /// The matcher.
    pub closed spec fn matcher(&self) -> M {
        self.matcher
    }

    /// The searcher whose options the search follows.
    pub closed spec fn searcher(&self) -> &'s Searcher {
        self.searcher
    }

    /// Where the search goes on in the buffer.
    pub closed spec fn pos(&self) -> usize {
        self.pos
    }

    /// Where the buffer begins in the whole input.
    pub closed spec fn offset(&self) -> u64 {
        self.absolute_byte_offset
    }

    /// Whether a line was handed to the sink.
    pub closed spec fn spec_has_matched(&self) -> bool {
        self.has_matched
    }

    /// The number of the line up to which lines are counted, where they
    /// are counted: between two buffers, that of the first line of the next
    /// buffer.
    pub closed spec fn spec_line_number(&self) -> Option<u64> {
        self.line_number
    }

    /// The end of the last line of the buffer that was handed to the sink,
    /// or 0.
    pub closed spec fn visited(&self) -> usize {
        self.last_line_visited
    }

    /// The terminator of the search.
    pub open spec fn line_term(&self) -> LineTerminator {
        self.searcher().spec_line_terminator()
    }

    /// Whether `consumed` bytes of `buf` are done with where context is
    /// kept: `start` is where the context before the end of `buf` begins, and
    /// `consumed` is the later of `start` and the end of the last line handed
    /// over.
    pub open spec fn keeps_context(&self, buf: Seq<u8>, start: int, consumed: int) -> bool {
        lines::is_preceding(
            buf,
            buf.len() as int,
            self.line_term().spec_as_byte(),
            self.searcher().context() as nat,
            start,
        ) && consumed == if start >= self.visited() {
            start
        } else {
            self.visited() as int
        }
    }

    /// Whether a search of `buf` from this state has told the sink of the
    /// first `n` lines that hold a match and of nothing else, has left the
    /// sink as `sink`, and returns what `result` says.
    ///
    /// `states` are the states of the sink from line to line. The search
    /// stops at the first line to which the sink does not say to go on, and
    /// returns that answer; where the sink says to go on each time, the
    /// search tells it of every line that holds a match, and returns the
    /// failure of the matcher, or to go on.
    pub open spec fn told_lines(
        &self,
        buf: Seq<u8>,
        n: int,
        states: Seq<S>,
        sink: S,
        result: Answer,
    ) -> bool {
        let found = visit(&self.matcher(), buf, self.line_term(), self.pos() as int);
        let recs = self.records(buf, found.0.take(n));
        &&& 0 <= n <= found.0.len()
        &&& handed(self.searcher(), states, recs)
        &&& states[0] == self.sink()
        &&& states[n] == sink
        &&& result == outcome(self.searcher(), states, recs, matcher_outcome(found.1))
        &&& last_answer(self.searcher(), states, recs) == Ok::<bool, (Seq<char>, bool)>(true) ==> n
            == found.0.len()
    }

    /// What the sink is told of the lines `found` of `buf`.
    pub open spec fn records(&self, buf: Seq<u8>, found: Seq<(int, int)>) -> Seq<LineRecord> {
        records_of(buf, self.line_term(), self.offset(), self.first_line(buf), found)
    }

    /// The number of the first line of `buf`, where lines are counted.
    pub closed spec fn first_line(&self, buf: Seq<u8>) -> Option<int> {
        match self.line_number {
            Some(n) => Some(
                n - count_of(
                    buf.subrange(0, self.last_line_counted as int),
                    self.searcher.spec_line_terminator().spec_as_byte(),
                ),
            ),
            None => None,
        }
    }

    /// Whether the state fits the buffer `buf`: the cursors lie in it in
    /// order, and neither count can overflow while `buf` is searched.
    pub closed spec fn fits(&self, buf: Seq<u8>) -> bool {
        &&& self.last_line_counted <= self.last_line_visited <= self.pos <= buf.len()
        &&& 0 < self.last_line_visited < buf.len() ==> buf[self.last_line_visited - 1]
            == self.searcher.spec_line_terminator().spec_as_byte()
        &&& self.absolute_byte_offset + buf.len() < u64::MAX
        &&& self.sink.ready()
        &&& (self.line_number is Some) == self.searcher.counts_lines()
        &&& match self.line_number {
            Some(n) => 1 + count_of(
                buf.subrange(0, self.last_line_counted as int),
                self.searcher.spec_line_terminator().spec_as_byte(),
            ) <= n <= 1 + self.absolute_byte_offset + self.last_line_counted,
            None => true,
        }
    }

    /// Whether the search stands between two buffers: nothing of the next
    /// buffer is counted or handed over yet.
    pub closed spec fn between_buffers(&self) -> bool {
        &&& self.last_line_counted == 0
        &&& self.last_line_visited == 0
        &&& self.sink.ready()
        &&& (self.line_number is Some) == self.searcher.counts_lines()
        &&& match self.line_number {
            Some(n) => 1 <= n <= 1 + self.absolute_byte_offset,
            None => true,
        }
    }

    /// A search between two buffers fits every next buffer that holds the
    /// bytes still to be searched and does not reach the end of what can be
    /// counted.
    pub proof fn lemma_fits_next(&self, next: Seq<u8>)
        requires
            self.between_buffers(),
            self.pos() <= next.len(),
            self.offset() + next.len() < u64::MAX,
        ensures
            self.fits(next),
    {
        assert(next.subrange(0, 0) =~= Seq::<u8>::empty());
    }

    /// Between two buffers the number of the first line of the next buffer
    /// is the number up to which lines are counted.
    pub proof fn lemma_first_line(&self, next: Seq<u8>)
        requires
            self.between_buffers(),
        ensures
            self.first_line(next) == match self.spec_line_number() {
                Some(n) => Some(n as int),
                None => None,
            },
    {
        assert(next.subrange(0, 0) =~= Seq::<u8>::empty());
    }

    /// A search that has seen nothing yet: it stands at the start of the
    /// input, on line 1.
    pub fn new(searcher: &'s Searcher, matcher: M, sink: S) -> (core: Core<'s, M, S>)
        requires
            sink.ready(),
        ensures
            core.sink() == sink,
            core.matcher() == matcher,
            core.searcher() == searcher,
            core.pos() == 0,
            core.offset() == 0,
            !core.spec_has_matched(),
            core.between_buffers(),
            core.spec_line_number() == if searcher.counts_lines() {
                Some(1u64)
            } else {
                None
            },
            forall|buf: Seq<u8>| buf.len() < u64::MAX ==> #[trigger] core.fits(buf),
            forall|buf: Seq<u8>| #[trigger]
                core.first_line(buf) == if searcher.counts_lines() {
                    Some(1int)
                } else {
                    None
                },
    {
        let line_number = if searcher.config.line_number {
            Some(1)
        } else {
            None
        };
        let core = Core {
            matcher,
            searcher,
            sink,
            pos: 0,
            absolute_byte_offset: 0,
            line_number,
            last_line_counted: 0,
            last_line_visited: 0,
            has_matched: false,
        };
        proof {
            assert forall|buf: Seq<u8>| buf.len() < u64::MAX implies #[trigger] core.fits(buf) by {
                assert(buf.subrange(0, 0) =~= Seq::<u8>::empty());
            }
            assert forall|buf: Seq<u8>| #[trigger]
                core.first_line(buf) == if searcher.counts_lines() {
                    Some(1int)
                } else {
                    None
                } by {
                assert(buf.subrange(0, 0) =~= Seq::<u8>::empty());
            }
        }
        core
    }

    /// Whether a line was handed to the sink.
    pub fn has_matched(&self) -> (yes: bool)
        ensures
            yes == self.spec_has_matched(),
    {
        self.has_matched
    }

    /// Ends the search and gives the sink back.
    pub fn into_sink(self) -> (sink: S)
        ensures
            sink == self.sink(),
    {
        self.sink
    }

    /// Prepares for the next buffer. `buf` is the buffer that was searched;
    /// the result says how many of its bytes are done with: all of them
    /// without context, and otherwise all up to the start of the context or
    /// to the end of the last line handed over, whichever is later. The next
    /// buffer begins behind them.
    pub fn roll(&mut self, buf: &[u8]) -> (consumed: usize)
        requires
            old(self).fits(buf@),
        ensures
            consumed <= buf@.len(),
            old(self).searcher().context() == 0 ==> consumed == buf@.len(),
            old(self).searcher().context() > 0 ==> exists|start: int| #[trigger]
                old(self).keeps_context(buf@, start, consumed as int),
            final(self).sink() == old(self).sink(),
            final(self).matcher() == old(self).matcher(),
            final(self).searcher() == old(self).searcher(),
            final(self).spec_has_matched() == old(self).spec_has_matched(),
            final(self).offset() == old(self).offset() + consumed,
            final(self).pos() == buf@.len() - consumed,
            final(self).visited() == 0,
            final(self).between_buffers(),
            match old(self).first_line(buf@) {
                Some(n) => final(self).spec_line_number() matches Some(k) && k == n + count_of(
                    buf@.subrange(0, consumed as int),
                    old(self).line_term().spec_as_byte(),
                ),
                None => final(self).spec_line_number() is None,
            },
            forall|next: Seq<u8>| #[trigger]
                final(self).first_line(next) == match old(self).first_line(buf@) {
                    Some(n) => Some(
                        n + count_of(
                            buf@.subrange(0, consumed as int),
                            old(self).line_term().spec_as_byte(),
                        ),
                    ),
                    None => None,
                },
            forall|next: Seq<u8>|
                final(self).pos() <= next.len() && final(self).offset() + next.len() < u64::MAX
                    ==> #[trigger] final(self).fits(next),
    {
        let line_term = self.searcher.config.line_terminator.as_byte();
        let context = self.searcher.config.max_context();
        let mut consumed = buf.len();
        let ghost mut context_from = 0int;
        if context > 0 {
            let context_start = lines::preceding(buf, line_term, context);
            proof {
                context_from = context_start as int;
            }
            consumed = if context_start >= self.last_line_visited {
                context_start
            } else {
                self.last_line_visited
            };
        }
        let ghost first = self.first_line(buf@);
        self.count_lines(buf, consumed);
        self.absolute_byte_offset += consumed as u64;
        self.last_line_counted = 0;
        self.last_line_visited = 0;
        self.set_pos(buf.len() - consumed);
        proof {
            assert forall|next: Seq<u8>| #[trigger]
                self.first_line(next) == match first {
                    Some(n) => Some(n + count_of(buf@.subrange(0, consumed as int), line_term)),
                    None => None,
                } by {
                assert(next.subrange(0, 0) =~= Seq::<u8>::empty());
            }
            assert forall|next: Seq<u8>|
                self.pos() <= next.len() && self.offset() + next.len() < u64::MAX
                    implies #[trigger] self.fits(next) by {
                assert(next.subrange(0, 0) =~= Seq::<u8>::empty());
            }
            if context > 0 {
                assert(old(self).keeps_context(buf@, context_from, consumed as int));
            }
        }
        consumed
    }

    /// Counts the terminators of `buf` up to `upto` that are not counted
    /// yet.
    fn count_lines(&mut self, buf: &[u8], upto: usize)
        requires
            old(self).last_line_counted <= upto <= buf@.len(),
            old(self).absolute_byte_offset + buf@.len() < u64::MAX,
            match old(self).line_number {
                Some(n) => 1 + count_of(
                    buf@.subrange(0, old(self).last_line_counted as int),
                    old(self).line_term().spec_as_byte(),
                ) <= n <= 1 + old(self).absolute_byte_offset + old(self).last_line_counted,
                None => true,
            },
        ensures
            final(self).matcher == old(self).matcher,
            final(self).searcher == old(self).searcher,
            final(self).sink == old(self).sink,
            final(self).absolute_byte_offset == old(self).absolute_byte_offset,
            final(self).last_line_visited == old(self).last_line_visited,
            final(self).pos == old(self).pos,
            final(self).has_matched == old(self).has_matched,
            final(self).first_line(buf@) == old(self).first_line(buf@),
            final(self).line_number is Some == old(self).line_number is Some,
            ({
                let first = old(self).first_line(buf@);
                let term = old(self).line_term().spec_as_byte();
                match final(self).line_number {
                    Some(n) => final(self).last_line_counted == upto && n == first->0 + count_of(
                        buf@.subrange(0, upto as int),
                        term,
                    ) && n <= 1 + old(self).absolute_byte_offset + upto,
                    None => final(self).last_line_counted == old(self).last_line_counted,
                }
            }),
    {
        if let Some(line_number) = self.line_number {
            if self.last_line_counted >= upto {
                return ;
            }
            let slice = slice_subrange(buf, self.last_line_counted, upto);
            let count = lines::count(slice, self.searcher.config.line_terminator.as_byte());
            proof {
                lemma_count_of_split(
                    buf@,
                    0,
                    self.last_line_counted as int,
                    upto as int,
                    self.line_term().spec_as_byte(),
                );
                lemma_count_at_most_len(slice@, self.line_term().spec_as_byte());
            }
            self.line_number = Some(line_number + count);
            self.last_line_counted = upto;
        }
    }

    fn set_pos(&mut self, pos: usize)
        ensures
            final(self).matcher == old(self).matcher,
            final(self).searcher == old(self).searcher,
            final(self).sink == old(self).sink,
            final(self).absolute_byte_offset == old(self).absolute_byte_offset,
            final(self).last_line_visited == old(self).last_line_visited,
            final(self).last_line_counted == old(self).last_line_counted,
            final(self).line_number == old(self).line_number,
            final(self).has_matched == old(self).has_matched,
            final(self).pos == pos,
    {
        self.pos = pos;
    }

    /// Whether `self` differs from `before` in the cursor `pos` at most.
    spec fn same_but_pos(&self, before: &Self) -> bool {
        &&& self.matcher == before.matcher
        &&& self.searcher == before.searcher
        &&& self.sink == before.sink
        &&& self.absolute_byte_offset == before.absolute_byte_offset
        &&& self.last_line_visited == before.last_line_visited
        &&& self.last_line_counted == before.last_line_counted
        &&& self.line_number == before.line_number
        &&& self.has_matched == before.has_matched
    }

    /// Searches the buffer `buf` from where the search stands, and hands
    /// each line that holds a match to the sink, in order, until the sink
    /// asks to stop or something fails. `Ok(true)` says that the search may
    /// go on with the next buffer.
    ///
    /// The sink is told of the lines up to the first to which it does not
    /// say to go on, and that answer is returned; where it says to go on each
    /// time, it is told of every line found, and the failure of the matcher
    /// is returned if there is one.
    pub fn match_by_line(&mut self, buf: &[u8]) -> (r: Result<bool, S::Error>)
        requires
            old(self).fits(buf@),
        ensures
            final(self).fits(buf@),
            final(self).matcher() == old(self).matcher(),
            final(self).searcher() == old(self).searcher(),
            final(self).offset() == old(self).offset(),
            final(self).first_line(buf@) == old(self).first_line(buf@),
            old(self).spec_has_matched() ==> final(self).spec_has_matched(),
            ({
                let found = visit(
                    &old(self).matcher(),
                    buf@,
                    old(self).line_term(),
                    old(self).pos() as int,
                );
                &&& r == Ok::<bool, S::Error>(true) ==> found.1 is None
                    && lines_ascend(found.0, old(self).visited() as int, buf@.len() as int)
                    && final(self).sink().received() == old(self).sink().received()
                    + old(self).records(buf@, found.0)
                    && final(self).spec_has_matched() == (old(self).spec_has_matched()
                    || found.0.len() > 0)
                &&& r == Ok::<bool, S::Error>(false) ==> final(self).spec_has_matched()
                    && exists|n: int|
                    1 <= n <= found.0.len() && lines_ascend(
                        #[trigger] found.0.take(n),
                        old(self).visited() as int,
                        buf@.len() as int,
                    ) && final(self).sink().received() == old(self).sink().received()
                        + old(self).records(buf@, found.0.take(n))
                &&& found.0.len() == 0 ==> match found.1 {
                    None => r == Ok::<bool, S::Error>(true),
                    Some(e) => r matches Err(err) && err.message() == e.text() && !err.is_io(),
                }
            }),
            exists|n: int, states: Seq<S>| #[trigger]
                old(self).told_lines(buf@, n, states, final(self).sink(), answer_of(r)),
    {
        let fast = self.match_by_line_fast(buf);
        let ghost (n, states) = choose|n: int, states: Seq<S>| #[trigger]
            old(self).told_lines(buf@, n, states, self.sink, fast_answer(fast));
        let r = match fast {
            Ok(FastMatchResult::Continue) => Ok(true),
            Ok(FastMatchResult::Stop) => Ok(false),
            Err(err) => Err(err),
        };
        assert(old(self).told_lines(buf@, n, states, self.sink(), answer_of(r)));
        r
    }

    fn match_by_line_fast(&mut self, buf: &[u8]) -> (r: Result<FastMatchResult, S::Error>)
        requires
            old(self).fits(buf@),
        ensures
            final(self).fits(buf@),
            final(self).matcher == old(self).matcher,
            final(self).searcher == old(self).searcher,
            final(self).absolute_byte_offset == old(self).absolute_byte_offset,
            final(self).first_line(buf@) == old(self).first_line(buf@),
            old(self).has_matched ==> final(self).has_matched,
            ({
                let found = visit(
                    &old(self).matcher,
                    buf@,
                    old(self).line_term(),
                    old(self).pos as int,
                );
                &&& r matches Ok(FastMatchResult::Continue) ==> found.1 is None
                    && lines_ascend(found.0, old(self).last_line_visited as int, buf@.len() as int)
                    && final(self).sink.received() == old(self).sink.received()
                    + old(self).records(buf@, found.0)
                    && final(self).has_matched == (old(self).has_matched || found.0.len() > 0)
                &&& r matches Ok(FastMatchResult::Stop) ==> final(self).has_matched
                    && exists|n: int|
                    1 <= n <= found.0.len() && lines_ascend(
                        #[trigger] found.0.take(n),
                        old(self).last_line_visited as int,
                        buf@.len() as int,
                    ) && final(self).sink.received() == old(self).sink.received()
                        + old(self).records(buf@, found.0.take(n))
                &&& found.0.len() == 0 ==> match found.1 {
                    None => r matches Ok(FastMatchResult::Continue),
                    Some(e) => r matches Err(err) && err.message() == e.text() && !err.is_io(),
                }
            }),
            exists|n: int, states: Seq<S>| #[trigger]
                old(self).told_lines(buf@, n, states, final(self).sink, fast_answer(r)),
    {
        let ghost line_term = self.line_term();
        let ghost first_line = self.first_line(buf@);
        let ghost all = visit(&self.matcher, buf@, line_term, self.pos as int);
        let ghost mut done: Seq<(int, int)> = Seq::empty();
        let ghost mut states: Seq<S> = seq![self.sink];
        let ghost offset = self.absolute_byte_offset;
        proof {
            assert(done + all.0 =~= all.0);
            assert(records_of(buf@, line_term, offset, first_line, done) =~= Seq::<
                LineRecord,
            >::empty());
            assert(self.sink.received() + records_of(buf@, line_term, offset, first_line, done)
                =~= self.sink.received());
        }
        while self.pos < buf.len()
            invariant_except_break
                all.0 == done + visit(&self.matcher, buf@, line_term, self.pos as int).0,
                all.1 == visit(&self.matcher, buf@, line_term, self.pos as int).1,
            invariant
                self.fits(buf@),
                lines_ascend(done, old(self).last_line_visited as int, buf@.len() as int),
                old(self).last_line_visited <= self.last_line_visited,
                done.len() > 0 ==> done.last().1 <= self.last_line_visited,
                self.matcher == old(self).matcher,
                self.searcher == old(self).searcher,
                self.absolute_byte_offset == old(self).absolute_byte_offset,
                offset == old(self).absolute_byte_offset,
                self.first_line(buf@) == first_line,
                first_line == old(self).first_line(buf@),
                line_term == old(self).line_term(),
                self.has_matched == (old(self).has_matched || done.len() > 0),
                all == visit(&old(self).matcher, buf@, line_term, old(self).pos as int),
                self.sink.received() == old(self).sink.received() + records_of(
                    buf@,
                    line_term,
                    offset,
                    first_line,
                    done,
                ),
                states.len() == done.len() + 1,
                states[0] == old(self).sink,
                states.last() == self.sink,
                handed(
                    self.searcher,
                    states,
                    records_of(buf@, line_term, offset, first_line, done),
                ),
                last_answer(
                    self.searcher,
                    states,
                    records_of(buf@, line_term, offset, first_line, done),
                ) == Ok::<bool, (Seq<char>, bool)>(true),
            ensures
                all.0 == done,
                all.1 is None,
            decreases buf@.len() - self.pos,
        {
            let ghost here = visit(&self.matcher, buf@, line_term, self.pos as int);
            let found = match self.find_by_line_fast(buf) {
                Ok(found) => found,
                Err(err) => {
                    proof {
                        assert(all.0.take(done.len() as int) =~= done);
                        assert(old(self).told_lines(
                            buf@,
                            done.len() as int,
                            states,
                            self.sink,
                            fast_answer(Err::<FastMatchResult, S::Error>(err)),
                        ));
                    }
                    return Err(err);
                },
            };
            if let Some(line) = found {
                self.has_matched = true;
                self.set_pos(line.end());
                let ghost rest = visit(&self.matcher, buf@, line_term, line.spec_end() as int);
                let ghost this = (line.spec_start() as int, line.spec_end() as int);
                assert(here.0 == seq![this] + rest.0);
                let ghost longer = done.push(this);
                let ghost told_so_far = records_of(buf@, line_term, offset, first_line, done);
                let ghost more = records_of(buf@, line_term, offset, first_line, longer);
                let ghost one = record_of(buf@, line_term, offset, first_line, this);
                let ghost sink_before = self.sink;
                let answer = self.sink_matched(buf, &line);
                let ghost further = states.push(self.sink);
                proof {
                    assert(longer + rest.0 =~= done + (seq![this] + rest.0));
                    assert(more =~= told_so_far.push(one));
                    assert(all.0.take(longer.len() as int) =~= longer);
                    assert forall|i: int| 0 <= i < more.len() implies #[trigger] handed_one(
                        self.searcher,
                        further,
                        more,
                        i,
                    ) by {
                        if i < told_so_far.len() {
                            assert(handed_one(self.searcher, states, told_so_far, i));
                            assert(told_so_far.last() == told_so_far[told_so_far.len() - 1]);
                        }
                    }
                    assert(last_answer(self.searcher, further, more) == answer_of(answer));
                    if answer is Ok {
                        assert(old(self).sink.received() + more =~= (old(self).sink.received()
                            + told_so_far).push(one));
                    }
                    if answer != Ok::<bool, S::Error>(true) {
                        assert(old(self).told_lines(
                            buf@,
                            longer.len() as int,
                            further,
                            self.sink,
                            answer_of(answer),
                        ));
                    }
                    done = longer;
                    states = further;
                }
                match after_line(answer) {
                    Ok(FastMatchResult::Continue) => {},
                    Ok(FastMatchResult::Stop) => {
                        return Ok(FastMatchResult::Stop);
                    },
                    Err(err) => {
                        return Err(err);
                    },
                }
            } else {
                proof {
                    assert(done + Seq::<(int, int)>::empty() =~= done);
                }
                break ;
            }
        }
        proof {
            assert(done + Seq::<(int, int)>::empty() =~= done);
            assert(all.0.take(done.len() as int) =~= done);
            assert(old(self).told_lines(
                buf@,
                done.len() as int,
                states,
                self.sink,
                fast_answer(Ok::<FastMatchResult, S::Error>(FastMatchResult::Continue)),
            ));
        }
        Ok(FastMatchResult::Continue)
    }

    /// The next line of `buf` that holds a match, from where the search
    /// stands.
    fn find_by_line_fast(&mut self, buf: &[u8]) -> (r: Result<Option<Match>, S::Error>)
        requires
            old(self).fits(buf@),
        ensures
            final(self).fits(buf@),
            final(self).same_but_pos(old(self)),
            old(self).pos <= final(self).pos,
            match next_line(&old(self).matcher, buf@, old(self).line_term(), old(self).pos as int) {
                NextLine::Line(start, end) => r matches Ok(Some(line)) && line.spec_start()
                    == start && line.spec_end() == end && final(self).pos < end <= buf@.len()
                    && final(self).last_line_visited <= start && (end < buf@.len() ==> buf@[end
                    - 1] == old(self).line_term().spec_as_byte()),
                NextLine::Nothing => r matches Ok(None),
                NextLine::Failed(e) => r matches Err(err) && err.message() == e.text()
                    && !err.is_io(),
            },
    {
        let line_term = self.searcher.line_terminator();
        let ghost wanted = next_line(&self.matcher, buf@, line_term, self.pos as int);
        while self.pos < buf.len()
            invariant
                self.fits(buf@),
                self.same_but_pos(old(self)),
                old(self).pos <= self.pos,
                line_term == old(self).line_term(),
                wanted == next_line(&old(self).matcher, buf@, line_term, old(self).pos as int),
                wanted == next_line(&self.matcher, buf@, line_term, self.pos as int),
            decreases buf@.len() - self.pos,
        {
            let rest = slice_subrange(buf, self.pos, buf.len());
            match self.matcher.find_candidate_line(rest) {
                Err(err) => {
                    return Err(S::Error::error_message(err.error_text()));
                },
                Ok(None) => {
                    return Ok(None);
                },
                Ok(Some(LineMatchKind::Confirmed(i))) => {
                    let at = Match::zero(i).offset(self.pos);
                    let line = lines::locate(buf, line_term.as_byte(), at);
                    proof {
                        lemma_line_bounds(buf@, line_term.spec_as_byte(), self.pos + i);
                        lemma_line_start_from(
                            buf@,
                            line_term.spec_as_byte(),
                            self.last_line_visited as int,
                            self.pos + i,
                        );
                        lemma_line_end_on_terminator(buf@, line_term.spec_as_byte(), self.pos + i);
                    }
                    if line.start() == buf.len() {
                        self.pos = buf.len();
                        continue ;
                    }
                    return Ok(Some(line));
                },
                Ok(Some(LineMatchKind::Candidate(i))) => {
                    let at = Match::zero(i).offset(self.pos);
                    let line = lines::locate(buf, line_term.as_byte(), at);
                    proof {
                        lemma_line_bounds(buf@, line_term.spec_as_byte(), self.pos + i);
                        lemma_line_start_from(
                            buf@,
                            line_term.spec_as_byte(),
                            self.last_line_visited as int,
                            self.pos + i,
                        );
                        lemma_line_end_on_terminator(buf@, line_term.spec_as_byte(), self.pos + i);
                    }
                    let slice = lines::without_terminator(line.slice(buf), line_term);
                    match self.matcher.is_match(slice) {
                        Err(err) => {
                            return Err(S::Error::error_message(err.error_text()));
                        },
                        Ok(true) => {
                            return Ok(Some(line));
                        },
                        Ok(false) => {
                            self.pos = line.end();
                        },
                    }
                },
            }
        }
        Ok(None)
    }

    /// Hands the line `range` of `buf` to the sink.
    fn sink_matched(&mut self, buf: &[u8], range: &Match) -> (r: Result<bool, S::Error>)
        requires
            old(self).last_line_counted <= old(self).last_line_visited <= range.spec_start(),
            range.spec_end() <= buf@.len(),
            range.spec_end() < buf@.len() ==> range.spec_end() > 0 && buf@[range.spec_end() - 1]
                == old(self).line_term().spec_as_byte(),
            old(self).pos == range.spec_end(),
            old(self).absolute_byte_offset + buf@.len() < u64::MAX,
            old(self).sink.ready(),
            (old(self).line_number is Some) == old(self).searcher.counts_lines(),
            match old(self).line_number {
                Some(n) => 1 + count_of(
                    buf@.subrange(0, old(self).last_line_counted as int),
                    old(self).line_term().spec_as_byte(),
                ) <= n <= 1 + old(self).absolute_byte_offset + old(self).last_line_counted,
                None => true,
            },
        ensures
            final(self).fits(buf@),
            final(self).matcher == old(self).matcher,
            final(self).searcher == old(self).searcher,
            final(self).absolute_byte_offset == old(self).absolute_byte_offset,
            final(self).pos == old(self).pos,
            final(self).has_matched == old(self).has_matched,
            final(self).last_line_visited == range.spec_end(),
            final(self).first_line(buf@) == old(self).first_line(buf@),
            final(self).sink.ready(),
            answer_of(r) == old(self).sink.answer(
                old(self).searcher,
                record_of(
                    buf@,
                    old(self).line_term(),
                    old(self).absolute_byte_offset,
                    old(self).first_line(buf@),
                    (range.spec_start() as int, range.spec_end() as int),
                ),
            ),
            r is Ok ==> final(self).sink.received() == old(self).sink.received().push(
                record_of(
                    buf@,
                    old(self).line_term(),
                    old(self).absolute_byte_offset,
                    old(self).first_line(buf@),
                    (range.spec_start() as int, range.spec_end() as int),
                ),
            ),
    {
        let start = range.start();
        self.count_lines(buf, start);
        let offset = self.absolute_byte_offset + start as u64;
        self.last_line_visited = range.end();
        let mat = SinkMatch::new(
            self.searcher.line_terminator(),
            buf,
            *range,
            offset,
            self.line_number,
        );
        self.sink.matched(self.searcher, &mat)
    }
}

/// A line that follows a line start begins at or behind it.
proof fn lemma_line_start_from(bytes: Seq<u8>, line_term: u8, from: int, at: int)
    requires
        0 <= from <= at <= bytes.len(),
        from > 0 ==> bytes[from - 1] == line_term,
    ensures
        from <= line_start_at(bytes, line_term, at),
    decreases at - from,
{
    if at > from && bytes[at - 1] != line_term {
        lemma_line_start_from(bytes, line_term, from, at - 1);
    }
}

/// The end of a line that does not end its buffer stands behind a
/// terminator.
proof fn lemma_line_end_on_terminator(bytes: Seq<u8>, line_term: u8, at: int)
    requires
        0 <= at <= bytes.len(),
    ensures
        line_end_at(bytes, line_term, at) < bytes.len() ==> line_end_at(bytes, line_term, at) > 0
            && bytes[line_end_at(bytes, line_term, at) - 1] == line_term,
    decreases bytes.len() - at,
{
    if at < bytes.len() && bytes[at] != line_term {
        lemma_line_end_on_terminator(bytes, line_term, at + 1);
    }
}

/// A byte occurs in a sequence at most as often as the sequence is long.
pub proof fn lemma_count_at_most_len(bytes: Seq<u8>, byte: u8)
    ensures
        count_of(bytes, byte) <= bytes.len(),
    decreases bytes.len(),
{
    if bytes.len() > 0 {
        lemma_count_at_most_len(bytes.drop_last(), byte);
    }
}

} // verus!
