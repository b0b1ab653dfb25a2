//! What holds of a whole search: which lines reach the sink, and what they
//! add up to.

use crate::matcher::{LineMatchKind, LineTerminator, Matcher};
use crate::searcher::glue::{
    chunk_record,
    chunk_records,
    cut_ends_line,
    cuts_lines,
    line_after,
    went_through,
};
use crate::searcher::lines::{absent, lemma_line_end_at, lemma_line_start_at};
use crate::searcher::search_core::{
    bytes_of,
    finds_every_line,
    lemma_bytes_of_both,
    lemma_bytes_of_records,
    lemma_every_line_found,
    matcher_outcome,
    next_line,
    record_of,
    visit,
    NextLine,
};
use crate::searcher::sink::{lemma_handed_all, Answer, LineRecord, Sink};
use crate::searcher::Searcher;
use vstd::prelude::*;

verus! {

/// A sink that says to go on, whatever it is told of, is told of every
/// line that holds a match: the search goes through all of the input and the
/// sink has received the lines of every chunk, unless the matcher fails,
/// and then the search returns the error that says what the failure says.
pub proof fn lemma_sink_that_goes_on<M: Matcher, S: Sink>(
    searcher: &Searcher,
    matcher: &M,
    input: Seq<u8>,
    cuts: Seq<int>,
    to: int,
    n: int,
    states: Seq<S>,
    result: Answer,
)
    requires
        went_through(searcher, matcher, input, cuts, to, n, states, result),
        forall|s: S, rec: LineRecord| #[trigger]
            s.answer(searcher, rec) == Ok::<bool, (Seq<char>, bool)>(true),
    ensures
        result == Ok::<bool, (Seq<char>, bool)>(true) ==> cuts[cuts.len() - 1] == input.len()
            && states.last().received() == states[0].received() + chunk_records(
            matcher,
            searcher.spec_line_terminator(),
            searcher.counts_lines(),
            input,
            cuts,
            (cuts.len() - 1) as nat,
        ),
        result != Ok::<bool, (Seq<char>, bool)>(true) ==> result == matcher_outcome(
            visit(
                matcher,
                input.subrange(cuts[cuts.len() - 1], to),
                searcher.spec_line_terminator(),
                0,
            ).1,
        ),
{
    let line_term = searcher.spec_line_terminator();
    let counts = searcher.counts_lines();
    let last = (cuts.len() - 1) as nat;
    let from = cuts[last as int];
    let found = visit(matcher, input.subrange(from, to), line_term, 0);
    let whole = chunk_records(matcher, line_term, counts, input, cuts, last);
    let part = chunk_record(line_term, counts, input, from, to, found.0.take(n));
    if to == from {
        assert(part =~= Seq::<LineRecord>::empty());
        assert(whole + part =~= whole);
        lemma_handed_all(searcher, states, whole);
    }
}

/// A search of an input of one line in which the matcher confirms a
/// position, with a sink that says to go on whatever it is told of, tells
/// the sink once: of that line, which begins the input and has the number 1
/// where lines are counted.
pub proof fn lemma_one_line<M: Matcher, S: Sink>(
    searcher: &Searcher,
    matcher: &M,
    input: Seq<u8>,
    cuts: Seq<int>,
    to: int,
    n: int,
    states: Seq<S>,
    result: Answer,
)
    requires
        went_through(searcher, matcher, input, cuts, to, n, states, result),
        forall|s: S, rec: LineRecord| #[trigger]
            s.answer(searcher, rec) == Ok::<bool, (Seq<char>, bool)>(true),
        input.len() > 0,
        absent(
            input.subrange(0, input.len() - 1),
            searcher.spec_line_terminator().spec_as_byte(),
        ),
        matcher.candidate(input) matches Ok(Some(LineMatchKind::Confirmed(i))) && i
            < input.len(),
    ensures
        result == Ok::<bool, (Seq<char>, bool)>(true),
        states.last().received() == states[0].received().push(
            record_of(
                input,
                searcher.spec_line_terminator(),
                0,
                line_after(
                    searcher.counts_lines(),
                    Seq::empty(),
                    searcher.spec_line_terminator().spec_as_byte(),
                ),
                (0, input.len() as int),
            ),
        ),
{
    let line_term = searcher.spec_line_terminator();
    let term = line_term.spec_as_byte();
    let counts = searcher.counts_lines();
    let len = input.len() as int;
    let last = (cuts.len() - 1) as nat;
    let from = cuts[last as int];
    let i = matcher.candidate(input)->Ok_0->0->Confirmed_0 as int;
    let head = input.subrange(0, len - 1);
    assert(input.skip(0) =~= input);
    assert(input.subrange(0, len) =~= input);
    let front = input.subrange(0, i);
    assert forall|j: int| 0 <= j < front.len() implies front[j] != term by {
        assert(head[j] == input[j]);
    }
    lemma_line_start_at(input, term, i, 0);
    if input[len - 1] == term {
        let back = input.subrange(i, len - 1);
        assert forall|j: int| 0 <= j < back.len() implies back[j] != term by {
            assert(head[i + j] == input[i + j]);
        }
    } else {
        let back = input.subrange(i, len);
        assert forall|j: int| 0 <= j < back.len() implies back[j] != term by {
            if i + j < len - 1 {
                assert(head[i + j] == input[i + j]);
            }
        }
    }
    lemma_line_end_at(input, term, i, len);
    assert(next_line(matcher, input, line_term, 0) == NextLine::<M::Error>::Line(0, len));
    assert(next_line(matcher, input, line_term, len) is Nothing);
    let rest = visit(matcher, input, line_term, len);
    assert(rest.0 =~= Seq::<(int, int)>::empty() && rest.1 is None);
    let found = visit(matcher, input, line_term, 0);
    assert(found.0 =~= seq![(0int, len)]);
    assert(found.1 is None);
    if cuts.len() >= 2 {
        assert(cut_ends_line(input, cuts, 1, term));
        if cuts[1] < len {
            assert(head[cuts[1] - 1] == input[cuts[1] - 1]);
        }
        if cuts.len() >= 3 {
            assert(cut_ends_line(input, cuts, 2, term));
        }
    }
    lemma_sink_that_goes_on(searcher, matcher, input, cuts, to, n, states, result);
    if to != from {
        if to < len {
            assert(head[to - 1] == input[to - 1]);
        }
        assert(from == 0);
    }
    let one = record_of(input, line_term, 0, line_after(counts, Seq::empty(), term), (0, len));
    assert(input.subrange(0, 0) =~= Seq::<u8>::empty());
    assert(chunk_record(line_term, counts, input, 0, len, found.0) =~= seq![one]);
    assert(chunk_records(matcher, line_term, counts, input, cuts, 0) =~= Seq::<
        LineRecord,
    >::empty());
    assert(chunk_records(matcher, line_term, counts, input, cuts, 1) =~= seq![one]);
    assert(states[0].received() + seq![one] =~= states[0].received().push(one));
}

/// Where every line holds a match, the records of the first `k` chunks
/// tell of all bytes of `input` before cut `k`.
pub proof fn lemma_chunks_tell_all<M: Matcher>(
    matcher: &M,
    line_term: LineTerminator,
    counts: bool,
    input: Seq<u8>,
    cuts: Seq<int>,
    k: nat,
)
    requires
        finds_every_line(matcher, line_term.spec_as_byte()),
        cuts_lines(input, cuts, line_term.spec_as_byte()),
        k < cuts.len(),
    ensures
        0 <= cuts[k as int] <= input.len(),
        bytes_of(chunk_records(matcher, line_term, counts, input, cuts, k)) == input.subrange(
            0,
            cuts[k as int],
        ),
    decreases k,
{
    if k == 0 {
        assert(input.subrange(0, 0) =~= Seq::<u8>::empty());
    } else {
        lemma_chunks_tell_all(matcher, line_term, counts, input, cuts, (k - 1) as nat);
        assert(cut_ends_line(input, cuts, k as int, line_term.spec_as_byte()));
        let from = cuts[k - 1];
        let to = cuts[k as int];
        let chunk = input.subrange(from, to);
        let found = visit(matcher, chunk, line_term, 0);
        let before = chunk_records(matcher, line_term, counts, input, cuts, (k - 1) as nat);
        let here = chunk_record(line_term, counts, input, from, to, found.0);
        lemma_every_line_found(matcher, chunk, line_term, 0);
        lemma_bytes_of_records(
            chunk,
            line_term,
            from as u64,
            line_after(counts, input.subrange(0, from), line_term.spec_as_byte()),
            found.0,
        );
        lemma_bytes_of_both(before, here);
        assert(chunk.subrange(0, chunk.len() as int) =~= chunk);
        assert(input.subrange(0, from) + chunk =~= input.subrange(0, to));
    }
}

/// Where every line holds a match and the sink says to go on, whatever it
/// is told of, the search goes through all of the input, and the bytes of
/// the lines that the sink has received since, one after the other, are the
/// input: nothing is lost, told twice or out of its place.
pub proof fn lemma_all_of_the_input_is_told<M: Matcher, S: Sink>(
    searcher: &Searcher,
    matcher: &M,
    input: Seq<u8>,
    cuts: Seq<int>,
    to: int,
    n: int,
    states: Seq<S>,
    result: Answer,
)
    requires
        went_through(searcher, matcher, input, cuts, to, n, states, result),
        forall|s: S, rec: LineRecord| #[trigger]
            s.answer(searcher, rec) == Ok::<bool, (Seq<char>, bool)>(true),
        finds_every_line(matcher, searcher.spec_line_terminator().spec_as_byte()),
    ensures
        result == Ok::<bool, (Seq<char>, bool)>(true),
        ({
            let recs = chunk_records(
                matcher,
                searcher.spec_line_terminator(),
                searcher.counts_lines(),
                input,
                cuts,
                (cuts.len() - 1) as nat,
            );
            states.last().received() == states[0].received() + recs && bytes_of(recs) == input
        }),
{
    let line_term = searcher.spec_line_terminator();
    let counts = searcher.counts_lines();
    let last = (cuts.len() - 1) as nat;
    let from = cuts[last as int];
    lemma_sink_that_goes_on(searcher, matcher, input, cuts, to, n, states, result);
    lemma_chunks_tell_all(matcher, line_term, counts, input, cuts, last);
    if to != from {
        let chunk = input.subrange(from, to);
        lemma_every_line_found(matcher, chunk, line_term, 0);
    }
    let recs = chunk_records(matcher, line_term, counts, input, cuts, last);
    assert(input.subrange(0, input.len() as int) =~= input);
    assert(bytes_of(recs) == input);
}

/// Where every line holds a match and the sink says to go on, whatever it
/// is told of, two searches of one input tell their sinks of the same bytes,
/// wherever their buffers cut the input.
pub proof fn lemma_cuts_do_not_matter<M: Matcher, S: Sink>(
    searcher: &Searcher,
    matcher: &M,
    input: Seq<u8>,
    one: (Seq<int>, int, int, Seq<S>, Answer),
    other: (Seq<int>, int, int, Seq<S>, Answer),
)
    requires
        went_through(searcher, matcher, input, one.0, one.1, one.2, one.3, one.4),
        went_through(searcher, matcher, input, other.0, other.1, other.2, other.3, other.4),
        forall|s: S, rec: LineRecord| #[trigger]
            s.answer(searcher, rec) == Ok::<bool, (Seq<char>, bool)>(true),
        finds_every_line(matcher, searcher.spec_line_terminator().spec_as_byte()),
    ensures
        one.4 == other.4,
        bytes_of(
            chunk_records(
                matcher,
                searcher.spec_line_terminator(),
                searcher.counts_lines(),
                input,
                one.0,
                (one.0.len() - 1) as nat,
            ),
        ) == bytes_of(
            chunk_records(
                matcher,
                searcher.spec_line_terminator(),
                searcher.counts_lines(),
                input,
                other.0,
                (other.0.len() - 1) as nat,
            ),
        ),
{
    lemma_all_of_the_input_is_told(searcher, matcher, input, one.0, one.1, one.2, one.3, one.4);
    lemma_all_of_the_input_is_told(
        searcher,
        matcher,
        input,
        other.0,
        other.1,
        other.2,
        other.3,
        other.4,
    );
}

} // verus!
