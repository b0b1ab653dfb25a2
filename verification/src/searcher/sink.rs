//! What the search driver hands to its caller: each matching line, as a
//! `SinkMatch`, through a `Sink`.

use crate::matcher::{LineTerminator, Match};
use crate::searcher::{ConfigError, Searcher};
use vstd::prelude::*;

verus! {

/// An error that a sink can report, made from a text.
pub trait SinkError: Sized {
    /// The text of the error.
    open spec fn message(&self) -> Seq<char> {
        arbitrary()
    }

    /// Whether the error stands for a failed read or write.
    open spec fn is_io(&self) -> bool {
        arbitrary()
    }

    /// An error that says `message`.
    fn error_message(message: String) -> (err: Self)
        ensures
            err.message() == message@,
            !err.is_io(),
    ;

    /// An error for a failed read or write; `cause` names the failure.
    fn error_io(cause: String) -> (err: Self)
        ensures
            err.message() == cause@,
            err.is_io(),
    ;

    /// An error for a configuration that cannot be searched with.
    fn error_config(err: ConfigError) -> (made: Self)
        ensures
            made.message() == err.spec_text(),
            !made.is_io(),
    {
        Self::error_message(err.to_string())
    }
}

/// The error of a search: a message, and for a failed read or write its
/// cause.
#[derive(Debug)]
pub struct SearchError {
    pub message: String,
    pub io_cause: Option<String>,
}

impl SearchError {
    /// The text shown to the user.
    pub fn to_string(&self) -> (text: String)
        ensures
            text@ == self.message@,
    {
        self.message.clone()
    }
}

impl SinkError for SearchError {
    open spec fn message(&self) -> Seq<char> {
        self.message@
    }

    open spec fn is_io(&self) -> bool {
        self.io_cause is Some
    }

    fn error_message(message: String) -> (err: SearchError) {
        SearchError { message, io_cause: None }
    }

    fn error_io(cause: String) -> (err: SearchError)
        ensures
            err.io_cause is Some && err.io_cause->0@ == cause@,
    {
        let message = cause.clone();
        SearchError { message, io_cause: Some(cause) }
    }
}

/// What a sink learns of one matching line.
pub struct LineRecord {
    /// Where the line begins in the buffer that was searched.
    pub start: usize,
    /// Where the line ends in that buffer, its terminator included.
    pub end: usize,
    /// Where the line begins in the whole input.
    pub absolute_byte_offset: u64,
    /// The number of the line, counted from 1, where lines are counted.
    pub line_number: Option<u64>,
    /// The bytes of the line.
    pub bytes: Seq<u8>,
    /// The buffer that was searched.
    pub buffer: Seq<u8>,
    /// The terminator that ends lines.
    pub line_term: LineTerminator,
}

/// One matching line, as the search driver hands it to a sink.
#[derive(Debug)]
pub struct SinkMatch<'b> {
    line_term: LineTerminator,
    bytes: &'b [u8],
    absolute_byte_offset: u64,
    line_number: Option<u64>,
    buffer: &'b [u8],
    range: Match,
}

impl<'b> SinkMatch<'b> {
    #[verifier::type_invariant]
    spec fn line_in_buffer(self) -> bool {
        &&& self.range.spec_end() <= self.buffer@.len()
        &&& self.bytes@ == self.buffer@.subrange(
            self.range.spec_start() as int,
            self.range.spec_end() as int,
        )
    }

    /// What a sink learns of this line.
    pub closed spec fn view(&self) -> LineRecord {
        LineRecord {
            start: self.range.spec_start(),
            end: self.range.spec_end(),
            absolute_byte_offset: self.absolute_byte_offset,
            line_number: self.line_number,
            bytes: self.bytes@,
            buffer: self.buffer@,
            line_term: self.line_term,
        }
    }

    /// The line `range` of `buffer`, which begins at `absolute_byte_offset`
    /// in the whole input.
    pub fn new(
        line_term: LineTerminator,
        buffer: &'b [u8],
        range: Match,
        absolute_byte_offset: u64,
        line_number: Option<u64>,
    ) -> (mat: SinkMatch<'b>)
        requires
            range.spec_end() <= buffer@.len(),
        ensures
            mat@ == (LineRecord {
                start: range.spec_start(),
                end: range.spec_end(),
                absolute_byte_offset,
                line_number,
                bytes: buffer@.subrange(range.spec_start() as int, range.spec_end() as int),
                buffer: buffer@,
                line_term,
            }),
    {
        let bytes = range.slice(buffer);
        SinkMatch { line_term, bytes, absolute_byte_offset, line_number, buffer, range }
    }

    /// The buffer that was searched.
    pub fn buffer(&self) -> (buffer: &'b [u8])
        ensures
            buffer@ == self@.buffer,
            self@.start <= self@.end <= buffer@.len(),
    {
        proof {
            use_type_invariant(self);
        }
        let _ = self.range.start();
        self.buffer
    }

    /// Where the line lies in the buffer.
    pub fn bytes_range_in_buffer(&self) -> (range: std::ops::Range<usize>)
        ensures
            range.start == self@.start,
            range.end == self@.end,
            range.start <= range.end,
    {
        self.range.start()..self.range.end()
    }

    /// The bytes of the line, its terminator included where it has one.
    pub fn bytes(&self) -> (bytes: &'b [u8])
        ensures
            bytes@ == self@.bytes,
            bytes@ == self@.buffer.subrange(self@.start as int, self@.end as int),
    {
        proof {
            use_type_invariant(self);
        }
        self.bytes
    }

    /// Where the line begins in the whole input.
    pub fn absolute_byte_offset(&self) -> (offset: u64)
        ensures
            offset == self@.absolute_byte_offset,
    {
        self.absolute_byte_offset
    }

    /// The number of the line, counted from 1, where lines are counted.
    pub fn line_number(&self) -> (number: Option<u64>)
        ensures
            number == self@.line_number,
    {
        self.line_number
    }

    /// The terminator that ends lines.
    pub fn line_terminator(&self) -> (line_term: LineTerminator)
        ensures
            line_term == self@.line_term,
    {
        self.line_term
    }
}

/// What a sink answers when it is told of a line: whether the search is to
/// go on, or the text of its error and whether that error stands for a failed
/// read or write.
pub type Answer = Result<bool, (Seq<char>, bool)>;

/// What the result `r` of a sink, or of a search, says.
pub open spec fn answer_of<E: SinkError>(r: Result<bool, E>) -> Answer {
    match r {
        Ok(go_on) => Ok(go_on),
        Err(e) => Err((e.message(), e.is_io())),
    }
}

/// Takes the matching lines of a search.
///
/// A sink keeps, in `received`, the record of each line that it took; the
/// search driver says in those terms which lines it handed over. What a sink
/// in a given state answers to a line is `answer`; the driver says in those
/// terms where it stopped and what it returned.
pub trait Sink: Sized {
    type Error: SinkError;

    /// The lines taken so far, oldest first.
    open spec fn received(&self) -> Seq<LineRecord> {
        arbitrary()
    }

    /// Whatever else the sink needs to hold in order to take a line.
    open spec fn ready(&self) -> bool {
        true
    }

    /// What the sink, as it stands, answers to the line `mat` of a search
    /// with `searcher`.
    open spec fn answer(&self, searcher: &Searcher, mat: LineRecord) -> Answer {
        arbitrary()
    }

    /// Takes one matching line. `Ok(false)` asks the search to stop.
    fn matched(&mut self, searcher: &Searcher, mat: &SinkMatch<'_>) -> (r: Result<
        bool,
        Self::Error,
    >)
        requires
            old(self).ready(),
        ensures
            final(self).ready(),
            answer_of(r) == old(self).answer(searcher, mat@),
            r is Ok ==> final(self).received() == old(self).received().push(mat@),
    ;
}

/// Whether the sink in state `states[i]` was told of `recs[i]` and became
/// `states[i + 1]`, and said to go on unless `recs[i]` is the last.
pub open spec fn handed_one<S: Sink>(
    searcher: &Searcher,
    states: Seq<S>,
    recs: Seq<LineRecord>,
    i: int,
) -> bool {
    let said = states[i].answer(searcher, recs[i]);
    &&& states[i + 1].ready()
    &&& said is Ok ==> states[i + 1].received() == states[i].received().push(recs[i])
    &&& i + 1 < recs.len() ==> said == Ok::<bool, (Seq<char>, bool)>(true)
}

/// Whether `states` are the states of a sink that was told of `recs`, one
/// after the other and of nothing else, and said to go on each time but
/// perhaps the last.
pub open spec fn handed<S: Sink>(
    searcher: &Searcher,
    states: Seq<S>,
    recs: Seq<LineRecord>,
) -> bool {
    &&& states.len() == recs.len() + 1
    &&& forall|i: int| 0 <= i < recs.len() ==> #[trigger] handed_one(searcher, states, recs, i)
}

/// What the sink said to the last of `recs`; to go on, where it was told
/// of nothing.
pub open spec fn last_answer<S: Sink>(
    searcher: &Searcher,
    states: Seq<S>,
    recs: Seq<LineRecord>,
) -> Answer {
    if recs.len() == 0 {
        Ok(true)
    } else {
        states[recs.len() - 1].answer(searcher, recs.last())
    }
}

/// A sink that was told of `first`, said to go on, and then was told of
/// `then`, was told of both, and its last answer is that to the last of
/// them.
pub proof fn lemma_handed_more<S: Sink>(
    searcher: &Searcher,
    before: Seq<S>,
    first: Seq<LineRecord>,
    after: Seq<S>,
    then: Seq<LineRecord>,
)
    requires
        handed(searcher, before, first),
        handed(searcher, after, then),
        before.last() == after[0],
        last_answer(searcher, before, first) == Ok::<bool, (Seq<char>, bool)>(true),
    ensures
        handed(searcher, before + after.skip(1), first + then),
        (before + after.skip(1))[0] == before[0],
        (before + after.skip(1)).last() == after.last(),
        last_answer(searcher, before + after.skip(1), first + then) == last_answer(
            searcher,
            after,
            then,
        ),
{
    let states = before + after.skip(1);
    let recs = first + then;
    let n = first.len() as int;
    assert forall|i: int| 0 <= i < recs.len() implies #[trigger] handed_one(
        searcher,
        states,
        recs,
        i,
    ) by {
        if i + 1 < n {
            assert(handed_one(searcher, before, first, i));
        } else if i < n {
            assert(handed_one(searcher, before, first, i));
            assert(first.last() == first[i]);
        } else {
            assert(handed_one(searcher, after, then, i - n));
            assert(states[i] == after[i - n]);
            assert(states[i + 1] == after[i - n + 1]);
        }
    }
}

/// A sink that said to go on each time has received all that it was told
/// of.
pub proof fn lemma_handed_all<S: Sink>(searcher: &Searcher, states: Seq<S>, recs: Seq<LineRecord>)
    requires
        handed(searcher, states, recs),
        last_answer(searcher, states, recs) is Ok,
    ensures
        states.last().received() == states[0].received() + recs,
    decreases recs.len(),
{
    if recs.len() == 0 {
        assert(states[0].received() + recs =~= states[0].received());
    } else {
        let n = recs.len() as int;
        let shorter = recs.drop_last();
        let fewer = states.drop_last();
        assert forall|i: int| 0 <= i < shorter.len() implies #[trigger] handed_one(
            searcher,
            fewer,
            shorter,
            i,
        ) by {
            assert(handed_one(searcher, states, recs, i));
        }
        if shorter.len() > 0 {
            assert(handed_one(searcher, states, recs, n - 2));
        }
        lemma_handed_all(searcher, fewer, shorter);
        assert(handed_one(searcher, states, recs, n - 1));
        assert(states[0].received() + shorter.push(recs.last()) =~= (states[0].received()
            + shorter).push(recs.last()));
        assert(shorter.push(recs.last()) =~= recs);
    }
}

} // verus!
