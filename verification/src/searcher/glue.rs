//! A search over one input, read piece by piece: it fills the line buffer,
//! searches the whole lines that the buffer holds, and begins again, until
//! the input ends or the sink asks to stop.
//!
//! Reading is left to the caller, as with the line buffer: `wanted` says how
//! many bytes the search can take, and `feed` takes what the caller read. An
//! empty piece stands for the end of the input.

use crate::matcher::{ErrorText, LineTerminator, Matcher};
use crate::searcher::line_buffer::{FillStep, LineBuffer};
use crate::searcher::lines::{
    absent,
    after_last,
    count_of,
    lemma_after_last_found,
    lemma_count_of_concat,
};
use crate::searcher::search_core::{
    finds_nothing_in,
    lemma_nothing_found,
    matcher_outcome,
    outcome,
    records_of,
    visit,
    Core,
};
use crate::searcher::sink::{
    answer_of,
    handed,
    last_answer,
    lemma_handed_more,
    Answer,
    LineRecord,
    Sink,
    SinkError,
};
use crate::searcher::Searcher;
use vstd::prelude::*;
use vstd::slice::slice_subrange;

verus! {

/// What the caller of `feed` does next.
#[derive(Clone, Copy, Debug, PartialEq, Eq, Structural)]
pub enum Step {
    /// Read up to this many bytes, at least one, and feed them.
    Read(usize),
    /// The sink asked to stop.
    Stopped,
    /// The input has ended, and all of it was searched.
    Finished,
}

/// How a search over an input in memory ended.
pub struct Outcome<S> {
    /// Whether the search came to the end of the input; the sink stopped it
    /// otherwise.
    pub finished: bool,
    /// Whether a line was handed to the sink.
    pub has_match: bool,
    /// The buffer, to be used again.
    pub line_buffer: LineBuffer,
    /// The sink.
    pub sink: S,
}

/// What the result `r` of `feed` says: to go on, to stop, or the error.
pub open spec fn step_answer<E: SinkError>(r: Result<Step, E>) -> Answer {
    match r {
        Ok(Step::Stopped) => Ok(false),
        Ok(_) => Ok(true),
        Err(e) => Err((e.message(), e.is_io())),
    }
}

/// What the result `r` of a search of a whole input says: that it came to
/// the end, that the sink stopped it, or the error.
pub open spec fn outcome_of<S: Sink>(r: Result<Outcome<S>, S::Error>) -> Answer {
    match r {
        Ok(outcome) => Ok(outcome.finished),
        Err(e) => Err((e.message(), e.is_io())),
    }
}

/// The number of the line that follows the bytes `before`, where lines are
/// counted: one more than the terminators in `before`.
pub open spec fn line_after(counts: bool, before: Seq<u8>, line_term: u8) -> Option<int> {
    if counts {
        Some(1 + count_of(before, line_term) as int)
    } else {
        None
    }
}

/// Whether `cuts` cut `input` into chunks of whole lines: they begin at 0
/// and go up, and each later one stands behind a terminator or at the end of
/// `input`.
pub open spec fn cuts_lines(input: Seq<u8>, cuts: Seq<int>, line_term: u8) -> bool {
    &&& cuts.len() >= 1
    &&& cuts[0] == 0
    &&& forall|j: int| 0 < j < cuts.len() ==> #[trigger] cut_ends_line(input, cuts, j, line_term)
}

/// Whether cut `j` stands behind cut `j - 1` and within `input`, behind a
/// terminator or at the end of `input`.
pub open spec fn cut_ends_line(input: Seq<u8>, cuts: Seq<int>, j: int, line_term: u8) -> bool {
    cuts[j - 1] < cuts[j] <= input.len() && (cuts[j] == input.len() || input[cuts[j] - 1]
        == line_term)
}

/// What a sink is told when the first `k` chunks of `input` are searched one
/// after the other, each from its start: chunk `j` lies between cut `j` and
/// cut `j + 1`, begins at the offset of its cut, and its first line has the
/// number that follows the terminators before it.
pub open spec fn chunk_records<M: Matcher>(
    matcher: &M,
    line_term: LineTerminator,
    counts: bool,
    input: Seq<u8>,
    cuts: Seq<int>,
    k: nat,
) -> Seq<LineRecord>
    decreases k,
{
    if k == 0 || k >= cuts.len() {
        Seq::empty()
    } else {
        chunk_records(matcher, line_term, counts, input, cuts, (k - 1) as nat) + chunk_record(
            line_term,
            counts,
            input,
            cuts[k - 1],
            cuts[k as int],
            visit(matcher, input.subrange(cuts[k - 1], cuts[k as int]), line_term, 0).0,
        )
    }
}

/// What a sink is told of the lines `found` in the chunk of `input` from
/// `from` to `to`.
pub open spec fn chunk_record(
    line_term: LineTerminator,
    counts: bool,
    input: Seq<u8>,
    from: int,
    to: int,
    found: Seq<(int, int)>,
) -> Seq<LineRecord> {
    records_of(
        input.subrange(from, to),
        line_term,
        from as u64,
        line_after(counts, input.subrange(0, from), line_term.spec_as_byte()),
        found,
    )
}

/// Whether the matcher fails in none of the first `k` chunks of `input`.
pub open spec fn chunks_searched<M: Matcher>(
    matcher: &M,
    line_term: LineTerminator,
    input: Seq<u8>,
    cuts: Seq<int>,
    k: nat,
) -> bool {
    forall|j: int|
        0 < j <= k && j < cuts.len() ==> #[trigger] chunk_searched(
            matcher,
            line_term,
            input,
            cuts,
            j,
        )
}

/// Whether the matcher does not fail in the chunk before cut `j`.
pub open spec fn chunk_searched<M: Matcher>(
    matcher: &M,
    line_term: LineTerminator,
    input: Seq<u8>,
    cuts: Seq<int>,
    j: int,
) -> bool {
    visit(matcher, input.subrange(cuts[j - 1], cuts[j]), line_term, 0).1 is None
}

/// Whether a sink that had taken `before` has taken `after` once `input`
/// is searched chunk by chunk, with `cuts` between the chunks.
///
/// `cuts` cut `input` into chunks of whole lines, in none of which the
/// matcher fails. A search that came to the end went through all of `input`,
/// and the sink was told of each line that holds a match, chunk by chunk. A
/// search that the sink stopped went through the chunks up to the last cut,
/// and in the chunk behind it the sink was told of the first lines that hold
/// a match, of one at least.
pub open spec fn searched_in_chunks<M: Matcher>(
    matcher: &M,
    line_term: LineTerminator,
    counts: bool,
    input: Seq<u8>,
    cuts: Seq<int>,
    finished: bool,
    before: Seq<LineRecord>,
    after: Seq<LineRecord>,
) -> bool {
    let last = (cuts.len() - 1) as nat;
    let told = chunk_records(matcher, line_term, counts, input, cuts, last);
    &&& cuts_lines(input, cuts, line_term.spec_as_byte())
    &&& chunks_searched(matcher, line_term, input, cuts, last)
    &&& if finished {
        cuts[last as int] == input.len() && after == before + told
    } else {
        exists|to: int, n: int| #[trigger]
            stopped_in_chunk(
                matcher,
                line_term,
                counts,
                input,
                cuts[last as int],
                to,
                n,
                before + told,
                after,
            )
    }
}

/// Whether a sink that had taken `before` has taken `after` once it was
/// told of the first `n` lines that hold a match in the chunk of `input`
/// from `from` to `to`.
pub open spec fn stopped_in_chunk<M: Matcher>(
    matcher: &M,
    line_term: LineTerminator,
    counts: bool,
    input: Seq<u8>,
    from: int,
    to: int,
    n: int,
    before: Seq<LineRecord>,
    after: Seq<LineRecord>,
) -> bool {
    let found = visit(matcher, input.subrange(from, to), line_term, 0).0;
    &&& from < to <= input.len()
    &&& 1 <= n <= found.len()
    &&& after == before + chunk_record(line_term, counts, input, from, to, found.take(n))
}

/// Whether a search of `input`, chunk by chunk with `cuts` between the
/// chunks, has told the sink of each line that holds a match in the chunks
/// before the last cut, then of the first `n` such lines of the chunk from
/// the last cut to `to`, and of nothing else, and returns what `result` says.
///
/// `states` are the states of the sink from line to line. The search stops
/// at the first line to which the sink does not say to go on, and returns
/// that answer: the sink is told of no further line. It stops as well where
/// the matcher fails, once the sink is told of each line found before the
/// failure, and returns the error that says what the failure says. A
/// search that neither the sink nor the matcher stops goes through all of
/// `input`, and says so: then `to` is the last cut and the end of `input`.
pub open spec fn went_through<M: Matcher, S: Sink>(
    searcher: &Searcher,
    matcher: &M,
    input: Seq<u8>,
    cuts: Seq<int>,
    to: int,
    n: int,
    states: Seq<S>,
    result: Answer,
) -> bool {
    let line_term = searcher.spec_line_terminator();
    let counts = searcher.counts_lines();
    let last = (cuts.len() - 1) as nat;
    let from = cuts[last as int];
    let found = visit(matcher, input.subrange(from, to), line_term, 0);
    let recs = chunk_records(matcher, line_term, counts, input, cuts, last) + chunk_record(
        line_term,
        counts,
        input,
        from,
        to,
        found.0.take(n),
    );
    let said = last_answer(searcher, states, recs);
    &&& cuts_lines(input, cuts, line_term.spec_as_byte())
    &&& chunks_searched(matcher, line_term, input, cuts, last)
    &&& from <= to <= input.len()
    &&& 0 <= n <= found.0.len()
    &&& handed(searcher, states, recs)
    &&& if to == from {
        n == 0 && to == input.len() && said == Ok::<bool, (Seq<char>, bool)>(true) && result == said
    } else {
        &&& to == input.len() || input[to - 1] == line_term.spec_as_byte()
        &&& result == outcome(searcher, states, recs, matcher_outcome(found.1))
        &&& result != Ok::<bool, (Seq<char>, bool)>(true)
        &&& said == Ok::<bool, (Seq<char>, bool)>(true) ==> n == found.0.len()
    }
}

/// The records of the first `k` chunks are those of the same chunks under
/// cuts that go on.
pub proof fn lemma_chunk_records_go_on<M: Matcher>(
    matcher: &M,
    line_term: LineTerminator,
    counts: bool,
    input: Seq<u8>,
    cuts: Seq<int>,
    more: Seq<int>,
    k: nat,
)
    requires
        k < cuts.len() <= more.len(),
        forall|j: int| 0 <= j < cuts.len() ==> cuts[j] == more[j],
    ensures
        chunk_records(matcher, line_term, counts, input, more, k) == chunk_records(
            matcher,
            line_term,
            counts,
            input,
            cuts,
            k,
        ),
    decreases k,
{
    if k > 0 {
        lemma_chunk_records_go_on(matcher, line_term, counts, input, cuts, more, (k - 1) as nat);
    }
}

/// A search over one input, between two pieces of it.
pub struct ReadByLine<'s, M, S> {
    inner: Core<'s, M, S>,
    line_buffer: LineBuffer,
    /// How many bytes the buffer handed out before the fill began.
    old_buf_len: usize,
    /// How many of them were done with when the fill began.
    consumed: usize,
}

impl<'s, M: Matcher, S: Sink> ReadByLine<'s, M, S> {
    /// The line buffer.
    pub closed spec fn line_buffer(&self) -> LineBuffer {
        self.line_buffer
    }

    /// The matching loop and its counts.
    pub closed spec fn inner(&self) -> Core<'s, M, S> {
        self.inner
    }

    /// The sink.
    pub open spec fn sink(&self) -> S {
        self.inner().sink()
    }

    /// Whether the last fill began without anything done with, and with all
    /// that is held handed out already: if the input has ended, nothing can
    /// change any more.
    pub closed spec fn stalled(&self) -> bool {
        self.consumed == 0 && self.old_buf_len == self.line_buffer.held().len()
    }

    /// Whether a fill is under way and the counts of buffer and loop agree.
    pub closed spec fn wf(&self) -> bool {
        &&& self.line_buffer.wf()
        &&& self.line_buffer.rolled()
        &&& self.line_buffer.free() >= 1
        &&& self.line_buffer.taken().len() < u64::MAX
        &&& self.line_buffer.line_terminator()
            == self.inner.searcher().spec_line_terminator().spec_as_byte()
        &&& self.inner.between_buffers()
        &&& self.inner.offset() == self.line_buffer.offset()
        &&& self.inner.pos() <= self.line_buffer.held().len()
        &&& self.old_buf_len <= self.line_buffer.held().len() + self.consumed
        &&& self.inner.searcher().context() == 0 ==> self.inner.pos() == 0 && self.consumed
            == self.old_buf_len
        &&& match self.inner.spec_line_number() {
            Some(n) => self.line_number() == Some(n as int),
            None => self.line_number() is None,
        }
    }

    /// The terminator of the search.
    pub open spec fn line_term(&self) -> LineTerminator {
        self.inner().searcher().spec_line_terminator()
    }

    /// A search without context stands at the start of each buffer, and is
    /// stalled only while nothing is held.
    pub proof fn lemma_without_context(&self)
        requires
            self.wf(),
            self.inner().searcher().context() == 0,
        ensures
            self.inner().pos() == 0,
            self.stalled() ==> self.line_buffer().held().len() == 0,
    {
    }

    /// The number of the line at which the next buffer begins, where lines
    /// are counted: one more than the terminators in what the buffer has
    /// handed out.
    pub open spec fn line_number(&self) -> Option<int> {
        line_after(
            self.inner().searcher().counts_lines(),
            self.line_buffer().delivered(),
            self.line_term().spec_as_byte(),
        )
    }

    /// Whether `feed` searches once it has taken `data`: the input has
    /// ended and something new is held, or `data` holds a terminator.
    pub open spec fn searches(&self, data: Seq<u8>) -> bool {
        if data.len() == 0 {
            self.line_buffer().held().len() > 0 && !self.stalled()
        } else {
            !absent(data, self.line_term().spec_as_byte())
        }
    }

    /// The buffer that `feed` searches once it has taken `data`: what is
    /// held and `data`, up to the last terminator in `data`, and all of it
    /// where the input has ended.
    pub open spec fn searched(&self, data: Seq<u8>) -> Seq<u8> {
        let held = self.line_buffer().held();
        if data.len() == 0 {
            held
        } else {
            (held + data).take(held.len() + after_last(data, self.line_term().spec_as_byte()))
        }
    }

    /// What the sink is told of the lines `found` of the buffer that `feed`
    /// searches once it has taken `data`.
    pub open spec fn told(&self, data: Seq<u8>, found: Seq<(int, int)>) -> Seq<LineRecord> {
        records_of(
            self.searched(data),
            self.line_term(),
            self.line_buffer().offset(),
            self.line_number(),
            found,
        )
    }

    /// Whether `feed`, once it has taken `data` and searched, has told the
    /// sink of the first `n` lines that hold a match and of nothing else, has
    /// left the sink as `sink`, and returns what `result` says.
    ///
    /// `states` are the states of the sink from line to line. The search
    /// stops at the first line to which the sink does not say to go on, and
    /// returns that answer; where the sink says to go on each time, the
    /// search tells it of every line that holds a match, and returns the
    /// failure of the matcher, or to go on.
    #[verifier::opaque]
    pub open spec fn fed(
        &self,
        data: Seq<u8>,
        n: int,
        states: Seq<S>,
        sink: S,
        result: Answer,
    ) -> bool {
        let searcher = self.inner().searcher();
        let found = visit(
            &self.inner().matcher(),
            self.searched(data),
            self.line_term(),
            self.inner().pos() as int,
        );
        let recs = self.told(data, found.0.take(n));
        &&& 0 <= n <= found.0.len()
        &&& handed(searcher, states, recs)
        &&& states[0] == self.sink()
        &&& states[n] == sink
        &&& result == outcome(searcher, states, recs, matcher_outcome(found.1))
        &&& last_answer(searcher, states, recs) == Ok::<bool, (Seq<char>, bool)>(true) ==> n
            == found.0.len()
    }

    /// How many bytes `feed` takes at most.
    pub open spec fn spec_wanted(&self) -> int {
        self.line_buffer().free()
    }

    /// A search of an input from its start, with `line_buffer` as its
    /// buffer, which is cleared.
    pub fn new(searcher: &'s Searcher, matcher: M, line_buffer: LineBuffer, sink: S) -> (search:
        ReadByLine<'s, M, S>)
        requires
            line_buffer.wf(),
            line_buffer.can_grow(),
            line_buffer.line_terminator() == searcher.spec_line_terminator().spec_as_byte(),
            sink.ready(),
        ensures
            search.wf(),
            search.sink() == sink,
            search.inner().matcher() == matcher,
            search.inner().searcher() == searcher,
            search.line_buffer().taken() == Seq::<u8>::empty(),
            search.line_buffer().held() == Seq::<u8>::empty(),
            search.line_buffer().offset() == 0,
            search.line_buffer().grown_from(line_buffer.capacity()),
            !search.inner().spec_has_matched(),
    {
        let mut line_buffer = line_buffer;
        line_buffer.clear();
        proof {
            line_buffer.lemma_held_in_taken();
        }
        let _ = line_buffer.fill_start();
        let inner = Core::new(searcher, matcher, sink);
        ReadByLine { inner, line_buffer, old_buf_len: 0, consumed: 0 }
    }

    /// How many bytes `feed` takes at most.
    pub fn wanted(&self) -> (want: usize)
        requires
            self.wf(),
        ensures
            want == self.spec_wanted(),
            want >= 1,
    {
        self.line_buffer.free_len()
    }

    /// Whether `feed` can take a piece of `n` bytes: it is no longer than
    /// `wanted`, the buffer can grow after it, and the count of all bytes
    /// stays below the largest that can be kept.
    pub fn can_feed(&self, n: usize) -> (yes: bool)
        requires
            self.wf(),
        ensures
            yes == (self.line_buffer().can_grow() && n <= self.spec_wanted()
                && self.line_buffer().taken().len() + n < u64::MAX),
    {
        self.line_buffer.has_room_for(n)
    }

    /// Whether a line was handed to the sink.
    pub fn has_matched(&self) -> (yes: bool)
        ensures
            yes == self.inner().spec_has_matched(),
    {
        self.inner.has_matched()
    }

    /// Takes the next piece of the input, and searches the buffer as soon as
    /// it holds whole lines or the input has ended. An empty `data` says that
    /// the input has ended.
    #[verifier::rlimit(100)]
    pub fn feed(&mut self, data: &[u8]) -> (r: Result<Step, S::Error>)
        requires
            old(self).wf(),
            old(self).line_buffer().can_grow(),
            data@.len() <= old(self).spec_wanted(),
            old(self).line_buffer().taken().len() + data@.len() < u64::MAX,
        ensures
            final(self).inner().matcher() == old(self).inner().matcher(),
            final(self).inner().searcher() == old(self).inner().searcher(),
            r is Ok ==> {
                &&& final(self).line_buffer().wf()
                &&& final(self).line_buffer().taken() == old(self).line_buffer().taken() + data@
                &&& final(self).line_buffer().grown_from(old(self).line_buffer().capacity())
                &&& old(self).sink().received().is_prefix_of(final(self).sink().received())
                &&& final(self).inner().spec_has_matched() == (old(self).inner().spec_has_matched()
                    || final(self).sink().received().len() > old(self).sink().received().len())
            },
            r matches Ok(Step::Read(want)) ==> {
                &&& final(self).wf()
                &&& want == final(self).spec_wanted()
                &&& want >= 1
                &&& final(self).line_buffer().held().len() <= old(self).line_buffer().held().len()
                    + data@.len()
                &&& data@.len() == 0 ==> ({
                    let before = old(self).line_buffer().held().len();
                    let after = final(self).line_buffer().held().len();
                    let stalls = final(self).stalled() && !old(self).stalled();
                    after < before || (after == before && stalls)
                })
            },
            r matches Ok(Step::Finished) ==> data@.len() == 0 && final(self).line_buffer().offset()
                == final(self).line_buffer().taken().len(),
            !old(self).searches(data@) && !(data@.len() == 0 && old(self).stalled()) && r is Ok
                ==> final(self).line_buffer().offset() == old(self).line_buffer().offset(),
            !old(self).searches(data@) ==> final(self).sink() == old(self).sink() && if data@.len()
                == 0 {
                r == Ok::<Step, S::Error>(Step::Finished)
            } else {
                r matches Ok(Step::Read(_))
            },
            old(self).searches(data@) ==> ({
                let found = visit(
                    &old(self).inner().matcher(),
                    old(self).searched(data@),
                    old(self).line_term(),
                    old(self).inner().pos() as int,
                );
                &&& r != Ok::<Step, S::Error>(Step::Finished)
                &&& r matches Ok(Step::Read(_)) ==> found.1 is None
                    && final(self).sink().received() == old(self).sink().received()
                    + old(self).told(data@, found.0)
                    && (found.0.len() > 0 ==> final(self).inner().spec_has_matched())
                    && (old(self).inner().searcher().context() == 0
                    ==> final(self).line_buffer().offset() == old(self).line_buffer().offset()
                    + old(self).searched(data@).len())
                &&& r == Ok::<Step, S::Error>(Step::Stopped) ==> exists|n: int|
                    1 <= n <= found.0.len()
                        && final(self).sink().received() == old(self).sink().received()
                        + old(self).told(data@, #[trigger] found.0.take(n))
                &&& found.0.len() == 0 ==> match found.1 {
                    None => r matches Ok(Step::Read(_)),
                    Some(e) => r matches Err(err) && err.message() == e.text() && !err.is_io(),
                }
            }),
            old(self).searches(data@) ==> exists|n: int, states: Seq<S>| #[trigger]
                old(self).fed(data@, n, states, final(self).sink(), step_answer(r)),
    {
        proof {
            reveal(ReadByLine::fed);
            self.line_buffer.lemma_held_in_taken();
            self.inner.lemma_first_line(old(self).searched(data@));
        }
        let ghost before = self.inner.sink().received();
        assert(before.is_prefix_of(before));
        match self.line_buffer.fill_accept(data) {
            FillStep::More(want) => {
                proof {
                    self.line_buffer.lemma_held_in_taken();
                    assert(self.line_buffer.delivered() =~= old(self).line_buffer.delivered());
                }
                return Ok(Step::Read(want));
            },
            FillStep::Done(did_read) => {
                proof {
                    self.line_buffer.lemma_held_in_taken();
                }
                if !did_read {
                    return Ok(Step::Finished);
                }
                if self.consumed == 0 && self.old_buf_len == self.line_buffer.buffer().len() {
                    self.line_buffer.consume(self.old_buf_len);
                    proof {
                        self.line_buffer.lemma_held_in_taken();
                    }
                    return Ok(Step::Finished);
                }
            },
        }
        proof {
            self.inner.lemma_fits_next(self.line_buffer.ready());
            assert(self.line_buffer.ready() =~= old(self).searched(data@));
        }
        let ghost searched = self.inner;
        let answer = self.inner.match_by_line(self.line_buffer.buffer());
        let ghost (n, states) = choose|n: int, states: Seq<S>| #[trigger]
            searched.told_lines(
                self.line_buffer.ready(),
                n,
                states,
                self.inner.sink(),
                answer_of(answer),
            );
        proof {
            let found = visit(
                &searched.matcher(),
                self.line_buffer.ready(),
                searched.line_term(),
                searched.pos() as int,
            );
            assert(old(self).told(data@, found.0.take(n)) == searched.records(
                self.line_buffer.ready(),
                found.0.take(n),
            ));
            assert(old(self).fed(data@, n, states, self.inner.sink(), answer_of(answer)));
        }
        let keep_going = match answer {
            Ok(keep_going) => keep_going,
            Err(err) => {
                assert(old(self).fed(
                    data@,
                    n,
                    states,
                    self.sink(),
                    step_answer(Err::<Step, S::Error>(err)),
                ));
                return Err(err);
            },
        };
        assert(before.is_prefix_of(self.inner.sink().received())) by {
            let found = visit(
                &searched.matcher(),
                self.line_buffer.ready(),
                searched.line_term(),
                searched.pos() as int,
            );
            if keep_going {
                assert(self.inner.sink().received() == before + searched.records(
                    self.line_buffer.ready(),
                    found.0,
                ));
            } else {
                let n = choose|n: int|
                    1 <= n <= found.0.len() && self.inner.sink().received() == before
                        + searched.records(self.line_buffer.ready(), #[trigger] found.0.take(n));
                assert(self.inner.sink().received() == before + searched.records(
                    self.line_buffer.ready(),
                    found.0.take(n),
                ));
            }
        }
        if !keep_going {
            assert(old(self).fed(
                data@,
                n,
                states,
                self.sink(),
                step_answer(Ok::<Step, S::Error>(Step::Stopped)),
            ));
            return Ok(Step::Stopped);
        }
        let buffer = self.line_buffer.buffer();
        let ghost delivered = self.line_buffer.delivered();
        let ghost first = self.inner.first_line(buffer@);
        proof {
            assert(delivered =~= old(self).line_buffer.delivered());
            assert(first == old(self).line_number());
        }
        self.old_buf_len = buffer.len();
        self.consumed = self.inner.roll(buffer);
        self.line_buffer.consume(self.consumed);
        let want = self.line_buffer.fill_start();
        proof {
            self.line_buffer.lemma_held_in_taken();
            let done = buffer@.subrange(0, self.consumed as int);
            assert(self.line_buffer.delivered() =~= delivered + done);
            lemma_count_of_concat(delivered, done, self.line_term().spec_as_byte());
            assert(old(self).fed(
                data@,
                n,
                states,
                self.sink(),
                step_answer(Ok::<Step, S::Error>(Step::Read(want))),
            ));
        }
        Ok(Step::Read(want))
    }

    /// Whether a search of `input` has told the sink of each line that
    /// holds a match in the chunks between `cuts`, has left it as `sink`, and
    /// goes on.
    #[verifier::opaque]
    spec fn went_so_far(
        &self,
        input: Seq<u8>,
        cuts: Seq<int>,
        states: Seq<S>,
        sink: S,
    ) -> bool {
        let searcher = self.inner().searcher();
        let recs = chunk_records(
            &self.inner().matcher(),
            searcher.spec_line_terminator(),
            searcher.counts_lines(),
            input,
            cuts,
            (cuts.len() - 1) as nat,
        );
        &&& handed(searcher, states, recs)
        &&& last_answer(searcher, states, recs) == Ok::<bool, (Seq<char>, bool)>(true)
        &&& states[0] == self.sink()
        &&& states.last() == sink
    }

    /// `went_through`, from the sink as it stood to `sink`.
    #[verifier::opaque]
    spec fn ended(
        &self,
        input: Seq<u8>,
        cuts: Seq<int>,
        to: int,
        n: int,
        states: Seq<S>,
        sink: S,
        result: Answer,
    ) -> bool {
        &&& went_through(
            self.inner().searcher(),
            &self.inner().matcher(),
            input,
            cuts,
            to,
            n,
            states,
            result,
        )
        &&& states[0] == self.sink()
        &&& states.last() == sink
    }

    /// A search that ended went as `went` says.
    proof fn lemma_went(
        &self,
        input: Seq<u8>,
        cuts: Seq<int>,
        to: int,
        n: int,
        states: Seq<S>,
        sink: S,
        r: Result<Outcome<S>, S::Error>,
    )
        requires
            self.ended(input, cuts, to, n, states, sink, outcome_of(r)),
            r matches Ok(outcome) ==> outcome.sink == sink,
        ensures
            self.went(input, cuts, to, n, states, r),
    {
        reveal(ReadByLine::ended);
        reveal(ReadByLine::went);
    }

    /// A search that has not begun went through no chunk.
    proof fn lemma_not_begun(&self, input: Seq<u8>)
        ensures
            self.went_so_far(input, seq![0int], seq![self.sink()], self.sink()),
    {
        reveal(ReadByLine::went_so_far);
    }

    /// A search that went through the chunks between `cuts`, the last of
    /// which stands at the end of `input`, went through `input`.
    proof fn lemma_at_the_end(&self, input: Seq<u8>, cuts: Seq<int>, states: Seq<S>, sink: S)
        requires
            self.went_so_far(input, cuts, states, sink),
            cuts.len() >= 1,
            cuts[cuts.len() - 1] == input.len(),
            cuts_lines(input, cuts, self.line_term().spec_as_byte()),
            chunks_searched(
                &self.inner().matcher(),
                self.line_term(),
                input,
                cuts,
                (cuts.len() - 1) as nat,
            ),
        ensures
            self.ended(
                input,
                cuts,
                input.len() as int,
                0,
                states,
                sink,
                Ok::<bool, (Seq<char>, bool)>(true),
            ),
    {
        reveal(ReadByLine::went_so_far);
        reveal(ReadByLine::ended);
        let searcher = self.inner().searcher();
        let line_term = self.line_term();
        let counts = searcher.counts_lines();
        let off = input.len() as int;
        let whole = chunk_records(
            &self.inner().matcher(),
            line_term,
            counts,
            input,
            cuts,
            (cuts.len() - 1) as nat,
        );
        let none = visit(&self.inner().matcher(), input.subrange(off, off), line_term, 0).0.take(
            0,
        );
        assert(chunk_record(line_term, counts, input, off, off, none) =~= Seq::<
            LineRecord,
        >::empty());
        assert(whole + Seq::<LineRecord>::empty() =~= whole);
    }

    /// What follows for a search of `input` that went through the chunks
    /// between `cuts` when `before` is fed `piece` and searches the chunk
    /// from the last cut to `to`: where the result says to go on, the search
    /// went through the chunks with one more cut at `to`; otherwise it ended
    /// in that chunk as `went_through` says.
    proof fn lemma_fed_chunk(
        &self,
        before: &Self,
        input: Seq<u8>,
        cuts: Seq<int>,
        states: Seq<S>,
        piece: Seq<u8>,
        to: int,
        k: int,
        fed: Seq<S>,
        sink: S,
        result: Answer,
    )
        requires
            before.inner().searcher() == self.inner().searcher(),
            before.inner().matcher() == self.inner().matcher(),
            before.inner().pos() == 0,
            self.went_so_far(input, cuts, states, before.sink()),
            before.fed(piece, k, fed, sink, result),
            cuts.len() >= 1,
            cuts[cuts.len() - 1] < to <= input.len(),
            to == input.len() || input[to - 1] == self.line_term().spec_as_byte(),
            before.searched(piece) == input.subrange(cuts[cuts.len() - 1], to),
            forall|lines: Seq<(int, int)>|
                #[trigger] before.told(piece, lines) == chunk_record(
                    self.line_term(),
                    self.inner().searcher().counts_lines(),
                    input,
                    cuts[cuts.len() - 1],
                    to,
                    lines,
                ),
            cuts_lines(input, cuts, self.line_term().spec_as_byte()),
            chunks_searched(
                &self.inner().matcher(),
                self.line_term(),
                input,
                cuts,
                (cuts.len() - 1) as nat,
            ),
        ensures
            result == Ok::<bool, (Seq<char>, bool)>(true) ==> self.went_so_far(
                input,
                cuts.push(to),
                states + fed.skip(1),
                sink,
            ) && cuts_lines(input, cuts.push(to), self.line_term().spec_as_byte())
                && chunks_searched(
                &self.inner().matcher(),
                self.line_term(),
                input,
                cuts.push(to),
                cuts.len() as nat,
            ),
            result != Ok::<bool, (Seq<char>, bool)>(true) ==> self.ended(
                input,
                cuts,
                to,
                k,
                states + fed.skip(1),
                sink,
                result,
            ),
    {
        reveal(ReadByLine::went_so_far);
        reveal(ReadByLine::ended);
        reveal(ReadByLine::fed);
        let searcher = self.inner().searcher();
        let matcher = self.inner().matcher();
        let line_term = self.line_term();
        let term = line_term.spec_as_byte();
        let counts = searcher.counts_lines();
        let last = (cuts.len() - 1) as nat;
        let off = cuts[last as int];
        let whole = chunk_records(&matcher, line_term, counts, input, cuts, last);
        let found = visit(&matcher, input.subrange(off, to), line_term, 0);
        let recs = before.told(piece, found.0.take(k));
        assert(recs == chunk_record(line_term, counts, input, off, to, found.0.take(k)));
        lemma_handed_more(searcher, states, whole, fed, recs);
        if result == Ok::<bool, (Seq<char>, bool)>(true) {
            let more = cuts.push(to);
            lemma_chunk_records_go_on(&matcher, line_term, counts, input, cuts, more, last);
            assert(more[last as int + 1] == to && more[last as int] == off);
            assert forall|j: int| 0 < j < more.len() implies #[trigger] cut_ends_line(
                input,
                more,
                j,
                term,
            ) by {
                if j < cuts.len() {
                    assert(cut_ends_line(input, cuts, j, term));
                }
            }
            assert forall|j: int|
                0 < j <= last + 1 && j < more.len() implies #[trigger] chunk_searched(
                &matcher,
                line_term,
                input,
                more,
                j,
            ) by {
                if j <= last {
                    assert(chunk_searched(&matcher, line_term, input, cuts, j));
                }
            }
            assert(found.0.take(k) =~= found.0);
            assert(chunk_records(&matcher, line_term, counts, input, more, (last + 1) as nat)
                == whole + recs);
        }
    }

    /// Whether `run` went through `input` as `went_through` says, from the
    /// sink as it stood to the sink that it gives back, and returns `r`.
    #[verifier::opaque]
    pub open spec fn went(
        &self,
        input: Seq<u8>,
        cuts: Seq<int>,
        to: int,
        n: int,
        states: Seq<S>,
        r: Result<Outcome<S>, S::Error>,
    ) -> bool {
        &&& went_through(
            self.inner().searcher(),
            &self.inner().matcher(),
            input,
            cuts,
            to,
            n,
            states,
            outcome_of(r),
        )
        &&& states[0] == self.sink()
        &&& r matches Ok(outcome) ==> states.last() == outcome.sink
    }

    /// What `run` owes for `input` where it gives `outcome`.
    ///
    /// The buffer has taken the beginning of `input`, and all of it where
    /// the search came to the end, and then has handed out all of it. The
    /// sink has taken what it had taken before and more; without context,
    /// what more it has taken is what `searched_in_chunks` says, for some
    /// cuts.
    pub open spec fn ran(&self, input: Seq<u8>, outcome: Outcome<S>) -> bool {
        &&& outcome.line_buffer.wf()
        &&& outcome.line_buffer.taken().is_prefix_of(input)
        &&& outcome.finished ==> outcome.line_buffer.taken() == input
            && outcome.line_buffer.offset() == input.len()
        &&& self.sink().received().is_prefix_of(outcome.sink.received())
        &&& outcome.has_match == (self.inner().spec_has_matched() || outcome.sink.received().len()
            > self.sink().received().len())
        &&& finds_nothing_in(&self.inner().matcher(), input) ==> outcome.finished
            && outcome.sink.received() == self.sink().received()
        &&& self.inner().searcher().context() == 0 ==> exists|cuts: Seq<int>| #[trigger]
            searched_in_chunks(
                &self.inner().matcher(),
                self.line_term(),
                self.inner().searcher().counts_lines(),
                input,
                cuts,
                outcome.finished,
                self.sink().received(),
                outcome.sink.received(),
            )
    }

    /// Searches `input`, which is held in memory, to its end or until the
    /// sink asks to stop, and gives back the buffer and the sink. The search
    /// stops at the first line to which the sink does not say to go on, and
    /// where the matcher fails.
    ///
    /// Where the search comes to the end, the buffer has taken all of `input`
    /// and handed out all of it; where the sink stopped it, the buffer has
    /// taken the beginning of `input`.
    #[verifier::rlimit(100)]
    pub fn run(self, input: &[u8]) -> (r: Result<Outcome<S>, S::Error>)
        requires
            self.wf(),
            self.line_buffer().can_grow(),
            self.line_buffer().taken() == Seq::<u8>::empty(),
            input@.len() < u64::MAX,
            9 * input@.len() + 2 <= usize::MAX,
        ensures
            r matches Ok(outcome) ==> self.ran(input@, outcome),
            finds_nothing_in(&self.inner().matcher(), input@) ==> r is Ok,
            self.inner().searcher().context() == 0 ==> exists|
                cuts: Seq<int>,
                to: int,
                n: int,
                states: Seq<S>,
            | #[trigger] self.went(input@, cuts, to, n, states, r),
    {
        let mut search = self;
        let mut at: usize = 0;
        let mut want = search.wanted();
        let finished;
        let ghost matcher = self.inner().matcher();
        let ghost line_term = self.line_term();
        let ghost term = line_term.spec_as_byte();
        let ghost counts = self.inner().searcher().counts_lines();
        let ghost context = self.inner().searcher().context();
        let ghost mut cuts: Seq<int> = seq![0int];
        let ghost nothing = finds_nothing_in(&matcher, input@);
        let ghost searcher = self.inner().searcher();
        let ghost mut states: Seq<S> = seq![self.sink()];
        let ghost mut end_to = 0int;
        let ghost mut end_n = 0int;
        assert(input@.take(0) =~= Seq::<u8>::empty());
        assert(search.sink().received().is_prefix_of(search.sink().received()));
        proof {
            search.line_buffer.lemma_held_in_taken();
            assert(self.sink().received() + Seq::<LineRecord>::empty() =~= self.sink().received());
            self.lemma_not_begun(input@);
        }
        loop
            invariant_except_break
                search.wf(),
                want == search.spec_wanted(),
                want >= 1,
                context == 0 ==> cuts[cuts.len() - 1] == search.line_buffer().offset(),
                context == 0 ==> search.sink().received() == self.sink().received() + chunk_records(
                    &matcher,
                    line_term,
                    counts,
                    input@,
                    cuts,
                    (cuts.len() - 1) as nat,
                ),
                context == 0 ==> self.went_so_far(input@, cuts, states, search.sink()),
            invariant
                searcher == self.inner().searcher(),
                at <= input@.len(),
                input@.len() < u64::MAX,
                9 * input@.len() + 2 <= usize::MAX,
                search.line_buffer().wf(),
                search.line_buffer().can_grow(),
                search.line_buffer().taken() == input@.take(at as int),
                self.sink().received().is_prefix_of(search.sink().received()),
                search.inner().spec_has_matched() == (self.inner().spec_has_matched()
                    || search.sink().received().len() > self.sink().received().len()),
                nothing == finds_nothing_in(&matcher, input@),
                nothing ==> search.sink().received() == self.sink().received(),
                search.inner().matcher() == matcher,
                search.inner().searcher() == self.inner().searcher(),
                matcher == self.inner().matcher(),
                line_term == self.line_term(),
                term == line_term.spec_as_byte(),
                counts == self.inner().searcher().counts_lines(),
                context == self.inner().searcher().context(),
                cuts_lines(input@, cuts, term),
                chunks_searched(&matcher, line_term, input@, cuts, (cuts.len() - 1) as nat),
            ensures
                finished ==> at == input@.len() && search.line_buffer().offset() == input@.len(),
                nothing ==> finished,
                context == 0 ==> self.ended(
                    input@,
                    cuts,
                    end_to,
                    end_n,
                    states,
                    search.sink(),
                    Ok::<bool, (Seq<char>, bool)>(finished),
                ),
                context == 0 ==> searched_in_chunks(
                    &matcher,
                    line_term,
                    counts,
                    input@,
                    cuts,
                    finished,
                    self.sink().received(),
                    search.sink().received(),
                ),
            decreases
                    input@.len() - at,
                    search.line_buffer().held().len(),
                    if search.stalled() {
                        0int
                    } else {
                        1int
                    },
        {
            let rest = input.len() - at;
            let n = if want < rest {
                want
            } else {
                rest
            };
            let piece = slice_subrange(input, at, at + n);
            let ghost before = search;
            let ghost off = search.line_buffer().offset() as int;
            let ghost last = (cuts.len() - 1) as nat;
            let ghost told = chunk_records(&matcher, line_term, counts, input@, cuts, last);
            proof {
                before.line_buffer.lemma_held_in_taken();
                if context == 0 {
                    before.lemma_without_context();
                }
                if nothing && before.searches(piece@) {
                    let buffer = before.searched(piece@);
                    let held = before.line_buffer().held();
                    assert(held + piece@ =~= input@.subrange(off, at + n));
                    if piece@.len() > 0 {
                        lemma_after_last_found(piece@, term);
                    }
                    assert(buffer =~= input@.subrange(off, off + buffer.len()));
                    lemma_nothing_found(
                        &matcher,
                        input@,
                        off,
                        off + buffer.len(),
                        line_term,
                        before.inner().pos() as int,
                    );
                    assert(before.told(piece@, Seq::<(int, int)>::empty()) =~= Seq::<
                        LineRecord,
                    >::empty());
                    assert(before.sink().received() + Seq::<LineRecord>::empty()
                        =~= before.sink().received());
                }
            }
            let fed = search.feed(piece);
            let ghost (k, st2) = if before.searches(piece@) {
                choose|k: int, st2: Seq<S>| #[trigger]
                    before.fed(piece@, k, st2, search.sink(), step_answer(fed))
            } else {
                (0int, Seq::<S>::empty())
            };
            at = at + n;
            proof {
                if fed is Ok {
                    assert(input@.take(at as int) =~= input@.take(at - n) + piece@);
                    search.line_buffer.lemma_held_in_taken();
                    assert(search.line_buffer().held().len() <= search.line_buffer().taken().len());
                }
                if context == 0 && before.searches(piece@) {
                    let buffer = before.searched(piece@);
                    let to = off + buffer.len();
                    let held = before.line_buffer().held();
                    assert(held + piece@ =~= input@.subrange(off, at as int));
                    if piece@.len() > 0 {
                        lemma_after_last_found(piece@, term);
                    }
                    assert(buffer =~= input@.subrange(off, to));
                    assert(before.line_buffer().delivered() =~= input@.subrange(0, off));
                    assert(to == input@.len() || input@[to - 1] == term) by {
                        if piece@.len() > 0 {
                            let end = after_last(piece@, term);
                            assert(buffer[buffer.len() - 1] == piece@[end - 1]);
                        }
                    }
                    let found = visit(&matcher, buffer, line_term, 0);
                    assert forall|lines: Seq<(int, int)>|
                        before.told(piece@, lines) == chunk_record(
                            line_term,
                            counts,
                            input@,
                            off,
                            to,
                            lines,
                        ) by {
                    }
                    self.lemma_fed_chunk(
                        &before,
                        input@,
                        cuts,
                        states,
                        piece@,
                        to,
                        k,
                        st2,
                        search.sink(),
                        step_answer(fed),
                    );
                    if fed matches Ok(Step::Read(_)) {
                        assert(self.sink().received() + told + chunk_record(
                            line_term,
                            counts,
                            input@,
                            off,
                            to,
                            found.0,
                        ) =~= self.sink().received() + (told + chunk_record(
                            line_term,
                            counts,
                            input@,
                            off,
                            to,
                            found.0,
                        )));
                        lemma_chunk_records_go_on(
                            &matcher,
                            line_term,
                            counts,
                            input@,
                            cuts,
                            cuts.push(to),
                            last,
                        );
                        cuts = cuts.push(to);
                    } else {
                        if fed == Ok::<Step, S::Error>(Step::Stopped) {
                            let j = choose|j: int|
                                1 <= j <= found.0.len() && search.sink().received()
                                    == before.sink().received() + before.told(
                                    piece@,
                                    #[trigger] found.0.take(j),
                                );
                            assert(stopped_in_chunk(
                                &matcher,
                                line_term,
                                counts,
                                input@,
                                off,
                                to,
                                j,
                                self.sink().received() + told,
                                search.sink().received(),
                            ));
                        }
                        end_to = to;
                        end_n = k;
                    }
                    states = states + st2.skip(1);
                }
                if context == 0 && fed == Ok::<Step, S::Error>(Step::Finished) {
                    end_to = off;
                    end_n = 0;
                    self.lemma_at_the_end(input@, cuts, states, search.sink());
                }
            }
            let step = match fed {
                Ok(step) => step,
                Err(err) => {
                    proof {
                        if context == 0 {
                            self.lemma_went(
                                input@,
                                cuts,
                                end_to,
                                end_n,
                                states,
                                search.sink(),
                                Err::<Outcome<S>, S::Error>(err),
                            );
                        }
                    }
                    return Err(err);
                },
            };
            match step {
                Step::Read(more) => {
                    want = more;
                },
                Step::Stopped => {
                    finished = false;
                    break ;
                },
                Step::Finished => {
                    finished = true;
                    break ;
                },
            }
        }
        proof {
            assert(input@.take(at as int).is_prefix_of(input@));
            if finished {
                assert(input@.take(at as int) =~= input@);
            }
        }
        let has_match = search.has_matched();
        let (line_buffer, sink) = search.finish();
        let outcome = Outcome { finished, has_match, line_buffer, sink };
        proof {
            assert(outcome.line_buffer.wf());
            assert(outcome.line_buffer.taken().is_prefix_of(input@));
            assert(self.sink().received().is_prefix_of(outcome.sink.received()));
            if outcome.finished {
                assert(outcome.line_buffer.taken() == input@);
                assert(outcome.line_buffer.offset() == input@.len());
            }
            if context == 0 {
                assert(searched_in_chunks(
                    &self.inner().matcher(),
                    self.line_term(),
                    self.inner().searcher().counts_lines(),
                    input@,
                    cuts,
                    outcome.finished,
                    self.sink().received(),
                    outcome.sink.received(),
                ));
            }
            assert(self.ran(input@, outcome));
            if context == 0 {
                self.lemma_went(
                    input@,
                    cuts,
                    end_to,
                    end_n,
                    states,
                    outcome.sink,
                    Ok::<Outcome<S>, S::Error>(outcome),
                );
            }
        }
        Ok(outcome)
    }

    /// The error for a read that failed; `cause` names the failure.
    pub fn fail(cause: String) -> (err: S::Error)
        ensures
            err.message() == cause@,
            err.is_io(),
    {
        S::Error::error_io(cause)
    }

    /// Ends the search and gives back the buffer and the sink.
    pub fn finish(self) -> (parts: (LineBuffer, S))
        ensures
            parts.0 == self.line_buffer(),
            parts.1 == self.sink(),
    {
        (self.line_buffer, self.inner.into_sink())
    }
}

} // verus!
