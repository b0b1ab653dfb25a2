//! The search driver: line buffering, line arithmetic and the loop that
//! hands matching lines to a sink.

use crate::matcher::{LineTerminator, Matcher};
use crate::searcher::glue::{outcome_of, searched_in_chunks, went_through, Outcome, ReadByLine};
use crate::searcher::search_core::finds_nothing_in;
use crate::searcher::line_buffer::{LineBuffer, LineBufferBuilder};
use crate::searcher::sink::Sink;
use vstd::prelude::*;

pub mod glue;
pub mod laws;
pub mod line_buffer;
pub mod lines;
pub mod search_core;
pub mod sink;

verus! {

/// The options of a search.
#[derive(Clone, Copy, Debug)]
pub struct Config {
    /// Whether a match may span lines.
    multi_line: bool,
    /// What ends a line.
    line_terminator: LineTerminator,
    /// How many lines to show after a match.
    after_context: usize,
    /// How many lines to show before a match.
    before_context: usize,
    /// Whether lines are counted.
    line_number: bool,
}

impl Default for Config {
    fn default() -> (config: Config)
        ensures
            config == Config::spec_default(),
    {
        Config {
            multi_line: false,
            line_terminator: LineTerminator::byte(0x0Au8),
            after_context: 0,
            before_context: 0,
            line_number: true,
        }
    }
}

impl Config {
    /// The options of a search that nobody changed: single lines that end
    /// in `\n`, counted, without context.
    pub closed spec fn spec_default() -> Config {
        Config {
            multi_line: false,
            line_terminator: LineTerminator::byte(0x0Au8),
            after_context: 0,
            before_context: 0,
            line_number: true,
        }
    }

    /// These options, but for whether lines are counted.
    pub closed spec fn with_line_number(self, yes: bool) -> Config {
        Config { line_number: yes, ..self }
    }

    /// The larger of the two context sizes.
    pub closed spec fn spec_max_context(&self) -> usize {
        if self.before_context >= self.after_context {
            self.before_context
        } else {
            self.after_context
        }
    }

    /// Whether lines are counted.
    pub closed spec fn spec_line_number(&self) -> bool {
        self.line_number
    }

    /// What ends a line.
    pub closed spec fn spec_line_terminator(&self) -> LineTerminator {
        self.line_terminator
    }

    /// Whether a match may span lines.
    pub closed spec fn spec_multi_line(&self) -> bool {
        self.multi_line
    }

    pub(crate) fn max_context(&self) -> (n: usize)
        ensures
            n == self.spec_max_context(),
    {
        if self.before_context >= self.after_context {
            self.before_context
        } else {
            self.after_context
        }
    }

    /// A line buffer for these options.
    fn line_buffer(&self) -> (buffer: LineBuffer)
        ensures
            buffer.wf(),
            buffer.can_grow(),
            buffer.line_terminator() == self.line_terminator.spec_as_byte(),
    {
        let mut builder = LineBufferBuilder::new();
        builder.line_terminator(self.line_terminator.as_byte());
        builder.build()
    }
}

/// Why a searcher cannot be built or used.
#[derive(Clone, Debug)]
#[non_exhaustive]
pub enum ConfigError {
    /// No search strategy is available under the configuration.
    SearchUnavailable,
    /// The matcher works with another line terminator than the searcher.
    MismatchedLineTerminators {
        /// The matcher's line terminator.
        matcher: LineTerminator,
        /// The searcher's line terminator.
        searcher: LineTerminator,
    },
    /// No encoding is known under this label.
    UnknownEncoding {
        /// The label that was asked for.
        label: Vec<u8>,
    },
}

impl ConfigError {
    /// The text shown to the user.
    pub open spec fn spec_text(&self) -> Seq<char> {
        match self {
            ConfigError::SearchUnavailable => "grep config error: no available searchers"@,
            ConfigError::MismatchedLineTerminators { .. } =>
                "grep config error: mismatched line terminators"@,
            ConfigError::UnknownEncoding { .. } => "grep config error: unknown encoding"@,
        }
    }

    /// The text shown to the user.
    pub fn to_string(&self) -> (text: String)
        ensures
            text@ == self.spec_text(),
    {
        match self {
            ConfigError::SearchUnavailable => {
                "grep config error: no available searchers".to_string()
            },
            ConfigError::MismatchedLineTerminators { .. } =>
                "grep config error: mismatched line terminators".to_string(),
            ConfigError::UnknownEncoding { .. } => {
                "grep config error: unknown encoding".to_string()
            },
        }
    }
}

/// Builds a `Searcher`.
#[derive(Clone, Debug)]
pub struct SearcherBuilder {
    config: Config,
}

impl SearcherBuilder {
    /// The options that `build` will use.
    pub closed spec fn config(&self) -> Config {
        self.config
    }

    /// A builder with the options that nobody changed.
    pub fn new() -> (builder: SearcherBuilder)
        ensures
            builder.config() == Config::spec_default(),
            builder.config().spec_line_number(),
            builder.config().spec_line_terminator() == LineTerminator::spec_byte(0x0Au8),
            builder.config().spec_line_terminator().spec_as_byte() == 0x0Au8,
            !builder.config().spec_line_terminator().spec_is_crlf(),
            builder.config().spec_max_context() == 0,
            !builder.config().spec_multi_line(),
    {
        proof {
            LineTerminator::lemma_spec_byte(0x0Au8);
        }
        SearcherBuilder { config: Config::default() }
    }

    /// A searcher with the options of the builder.
    pub fn build(&self) -> (searcher: Searcher)
        ensures
            searcher.config() == self.config(),
    {
        Searcher { config: self.config }
    }

    /// Whether lines are counted.
    pub fn line_number(&mut self, yes: bool) -> (builder: &mut SearcherBuilder)
        ensures
            builder.config() == old(self).config().with_line_number(yes),
            builder.config().spec_line_number() == yes,
            builder.config().spec_line_terminator() == old(self).config().spec_line_terminator(),
            builder.config().spec_max_context() == old(self).config().spec_max_context(),
            builder.config().spec_multi_line() == old(self).config().spec_multi_line(),
            *final(self) == *final(builder),
    {
        self.config.line_number = yes;
        self
    }
}

/// A configured search.
#[derive(Clone, Debug)]
pub struct Searcher {
    config: Config,
}

impl Searcher {
    /// The options of the search.
    pub closed spec fn config(&self) -> Config {
        self.config
    }

    /// Whether lines are counted.
    pub open spec fn counts_lines(&self) -> bool {
        self.config().spec_line_number()
    }

    /// The larger of the two context sizes.
    pub open spec fn context(&self) -> usize {
        self.config().spec_max_context()
    }

    /// What ends a line.
    pub open spec fn spec_line_terminator(&self) -> LineTerminator {
        self.config().spec_line_terminator()
    }

    /// Whether a match may span lines.
    pub open spec fn spec_multi_line(&self) -> bool {
        self.config().spec_multi_line()
    }

    /// Whether a match may span lines.
    #[verifier::when_used_as_spec(spec_multi_line)]
    pub fn multi_line(&self) -> (yes: bool)
        ensures
            yes == self.spec_multi_line(),
    {
        self.config.multi_line
    }

    /// What ends a line.
    #[verifier::when_used_as_spec(spec_line_terminator)]
    pub fn line_terminator(&self) -> (line_term: LineTerminator)
        ensures
            line_term == self.spec_line_terminator(),
    {
        self.config.line_terminator
    }

    /// Whether a search with `matcher` goes over several lines at once.
    pub fn multi_line_with_matcher<M: Matcher>(&self, matcher: M) -> (yes: bool)
        ensures
            yes == self.spec_multi_line(),
    {
        if !self.multi_line() {
            return false;
        }
        true
    }

    /// A line buffer for this search, to be handed to `ReadByLine::new`.
    pub fn line_buffer(&self) -> (buffer: LineBuffer)
        ensures
            buffer.wf(),
            buffer.can_grow(),
            buffer.line_terminator() == self.spec_line_terminator().spec_as_byte(),
    {
        self.config.line_buffer()
    }

    /// Whether a search of `input` went as `went_through` says, from the
    /// sink `sink` to the sink that it gives back, and returns `r`.
    pub open spec fn searched<M: Matcher, S: Sink>(
        &self,
        matcher: &M,
        input: Seq<u8>,
        sink: S,
        cuts: Seq<int>,
        to: int,
        n: int,
        states: Seq<S>,
        r: Result<Outcome<S>, S::Error>,
    ) -> bool {
        &&& went_through(self, matcher, input, cuts, to, n, states, outcome_of(r))
        &&& states[0] == sink
        &&& r matches Ok(outcome) ==> states.last() == outcome.sink
    }

    /// Searches `slice` line by line and hands each line that holds a match
    /// to `write_to`, in the order of the input. The search stops at the first
    /// line to which the sink does not say to go on, and where the matcher
    /// fails.
    pub fn search_slice<M: Matcher, S: Sink>(&self, matcher: M, slice: &[u8], write_to: S) -> (r:
        Result<Outcome<S>, S::Error>)
        requires
            write_to.ready(),
            slice@.len() < u64::MAX,
            9 * slice@.len() + 2 <= usize::MAX,
        ensures
            r matches Ok(outcome) ==> {
                &&& outcome.line_buffer.taken().is_prefix_of(slice@)
                &&& outcome.finished ==> outcome.line_buffer.taken() == slice@
                    && outcome.line_buffer.offset() == slice@.len()
                &&& write_to.received().is_prefix_of(outcome.sink.received())
                &&& outcome.has_match == (outcome.sink.received().len() > write_to.received().len())
                &&& finds_nothing_in(&matcher, slice@) ==> outcome.finished
                    && outcome.sink.received() == write_to.received()
                &&& self.context() == 0 ==> exists|cuts: Seq<int>| #[trigger]
                    searched_in_chunks(
                        &matcher,
                        self.spec_line_terminator(),
                        self.counts_lines(),
                        slice@,
                        cuts,
                        outcome.finished,
                        write_to.received(),
                        outcome.sink.received(),
                    )
            },
            finds_nothing_in(&matcher, slice@) ==> r is Ok,
            self.context() == 0 ==> exists|cuts: Seq<int>, to: int, n: int, states: Seq<S>|
                #[trigger] self.searched(&matcher, slice@, write_to, cuts, to, n, states, r),
    {
        let line_buffer = self.config.line_buffer();
        let search = ReadByLine::new(self, matcher, line_buffer, write_to);
        let r = search.run(slice);
        proof {
            if self.context() == 0 {
                reveal(ReadByLine::went);
                let (cuts, to, n, states) = choose|
                    cuts: Seq<int>,
                    to: int,
                    n: int,
                    states: Seq<S>,
                | #[trigger] search.went(slice@, cuts, to, n, states, r);
                assert(self.searched(&matcher, slice@, write_to, cuts, to, n, states, r));
            }
        }
        r
    }
}

} // verus!
