//! The matcher for patterns, and its builder.

use crate::matcher::{
    confirmed_of,
    ByteSet,
    LineMatchKind,
    LineTerminator,
    Match,
    Matcher,
    NoError,
};
use crate::pattern::config::{configured, Config, ConfiguredHIR};
use crate::pattern::engine;
use crate::pattern::error::{message_of, Error, ErrorKind};
use crate::pattern::literals::{inner_literals, prefilter_for, InnerLiterals};
use crate::pattern::non_matching::matching_bytes;
use crate::pattern::syntax;
use regex_automata::meta::Regex;
use vstd::prelude::*;

verus! {

/// Builds a `RegexMatcher`.
#[derive(Clone, Debug)]
pub struct RegexMatcherBuilder {
    config: Config,
}

impl Default for RegexMatcherBuilder {
    fn default() -> (builder: RegexMatcherBuilder)
        ensures
            builder.config() == Config::spec_default(),
    {
        RegexMatcherBuilder::new()
    }
}

/// What `RegexMatcherBuilder::build_many` owes for `config` and
/// `patterns`.
///
/// The patterns become a translated pattern as `configured` says; that is
/// compiled under the limits of `config`; and from its literals the cheaper
/// matcher is made, where there are literals to search for: the literals for
/// an accelerated matcher or those for another. The first of these that fails
/// gives the error. The matcher knows the bytes that no match holds, and has
/// the line terminator of `config` unless the pattern looks at the start or
/// the end of the haystack.
pub open spec fn built(
    config: Config,
    patterns: Seq<String>,
    r: Result<RegexMatcher, Error>,
) -> bool {
    exists|first: Result<ConfiguredHIR, Error>| #[trigger]
        configured(config, patterns, first) && match first {
            Err(e) => r matches Err(err) && err == e,
            Ok(chir) => match engine::compiled(config.limits(), chir.hir) {
                Err(e) => r matches Err(err) && (err.spec_kind() matches ErrorKind::Regex(s)
                    && s@ == message_of(e)),
                Ok(regex) => exists|accelerated: bool, fast: Result<Option<Regex>, Error>|
                    #[trigger] prefilter_for(inner_literals(chir, accelerated), fast)
                        && match fast {
                        Err(e) => r matches Err(err) && err == e,
                        Ok(fast_line_regex) => r matches Ok(matcher) && matcher.regex() == regex
                            && matcher.fast_line_regex() == fast_line_regex
                            && matcher.spec_non_matching_bytes()@ == Set::<u8>::full().difference(
                            matching_bytes(chir.node),
                        ) && matcher.config() == (Config {
                            line_terminator: if syntax::anchored_to_haystack(chir.hir) {
                                None
                            } else {
                                config.line_terminator
                            },
                            ..config
                        }),
                    },
            },
        }
}

impl RegexMatcherBuilder {
    /// The options that `build` will use.
    pub closed spec fn config(&self) -> Config {
        self.config
    }

    /// A builder with the options that nobody changed.
    pub fn new() -> (builder: RegexMatcherBuilder)
        ensures
            builder.config() == Config::spec_default(),
    {
        RegexMatcherBuilder { config: Config::default() }
    }

    /// The matcher for the single pattern `pattern`.
    pub fn build(&self, pattern: &str) -> (r: Result<RegexMatcher, Error>)
        requires
            self.config().ban matches Some(byte) ==> byte < 128,
        ensures
            exists|only: String|
                only@ == pattern@ && #[trigger] built(self.config(), seq![only], r),
    {
        let mut patterns: Vec<String> = Vec::new();
        let only = pattern.to_string();
        patterns.push(only);
        assert(patterns@ =~= seq![only]);
        self.build_many(patterns.as_slice())
    }

    /// The matcher that finds what one of `patterns` matches.
    pub fn build_many(&self, patterns: &[String]) -> (r: Result<RegexMatcher, Error>)
        requires
            self.config().ban matches Some(byte) ==> byte < 128,
        ensures
            built(self.config(), patterns@, r),
    {
        let first = self.config.build_many(patterns);
        let chir = match first {
            Err(err) => {
                return Err(err);
            },
            Ok(chir) => chir,
        };
        let regex = match chir.to_regex() {
            Err(err) => {
                return Err(err);
            },
            Ok(regex) => regex,
        };
        let non_matching_bytes = chir.non_matching_bytes();
        let inner = InnerLiterals::new(&chir, &regex);
        let ghost accelerated = choose|accelerated: bool|
            inner@ == #[trigger] inner_literals(chir, accelerated);
        let fast = inner.one_regex();
        assert(prefilter_for(inner_literals(chir, accelerated), fast));
        let fast_line_regex = match fast {
            Err(err) => {
                return Err(err);
            },
            Ok(fast_line_regex) => fast_line_regex,
        };
        let mut config = self.config;
        config.line_terminator = chir.line_terminator();
        Ok(RegexMatcher { config, regex, fast_line_regex, non_matching_bytes })
    }

    /// Whether `^` and `$` match at the start and the end of a line.
    pub fn multi_line(&mut self, yes: bool) -> (builder: &mut RegexMatcherBuilder)
        ensures
            builder.config() == (Config { multi_line: yes, ..old(self).config() }),
            *final(self) == *final(builder),
    {
        self.config.multi_line = yes;
        self
    }

    /// Whether matches lie between word boundaries.
    pub fn word(&mut self, yes: bool) -> (builder: &mut RegexMatcherBuilder)
        ensures
            builder.config() == (Config { word: yes, ..old(self).config() }),
            *final(self) == *final(builder),
    {
        self.config.word = yes;
        self
    }

    /// Whether classes and case follow Unicode.
    pub fn unicode(&mut self, yes: bool) -> (builder: &mut RegexMatcherBuilder)
        ensures
            builder.config() == (Config { unicode: yes, ..old(self).config() }),
            *final(self) == *final(builder),
    {
        self.config.unicode = yes;
        self
    }

    /// Whether octal escapes are allowed.
    pub fn octal(&mut self, yes: bool) -> (builder: &mut RegexMatcherBuilder)
        ensures
            builder.config() == (Config { octal: yes, ..old(self).config() }),
            *final(self) == *final(builder),
    {
        self.config.octal = yes;
        self
    }

    /// Whether patterns are taken literally.
    pub fn fixed_strings(&mut self, yes: bool) -> (builder: &mut RegexMatcherBuilder)
        ensures
            builder.config() == (Config { fixed_strings: yes, ..old(self).config() }),
            *final(self) == *final(builder),
    {
        self.config.fixed_strings = yes;
        self
    }

    /// Whether letters match in either case.
    pub fn case_insensitive(&mut self, yes: bool) -> (builder: &mut RegexMatcherBuilder)
        ensures
            builder.config() == (Config { case_insensitive: yes, ..old(self).config() }),
            *final(self) == *final(builder),
    {
        self.config.case_insensitive = yes;
        self
    }

    /// Whether letters match in either case unless the pattern holds an
    /// uppercase literal.
    pub fn case_smart(&mut self, yes: bool) -> (builder: &mut RegexMatcherBuilder)
        ensures
            builder.config() == (Config { case_smart: yes, ..old(self).config() }),
            *final(self) == *final(builder),
    {
        self.config.case_smart = yes;
        self
    }

    /// The most memory, in bytes, that the compiled pattern may take.
    pub fn size_limit(&mut self, bytes: usize) -> (builder: &mut RegexMatcherBuilder)
        ensures
            builder.config() == (Config { size_limit: bytes, ..old(self).config() }),
            *final(self) == *final(builder),
    {
        self.config.size_limit = bytes;
        self
    }

    /// The most memory, in bytes, that the lazy automaton may cache.
    pub fn dfa_size_limit(&mut self, bytes: usize) -> (builder: &mut RegexMatcherBuilder)
        ensures
            builder.config() == (Config { dfa_size_limit: bytes, ..old(self).config() }),
            *final(self) == *final(builder),
    {
        self.config.dfa_size_limit = bytes;
        self
    }

    /// Whether `.` matches a line terminator too.
    pub fn dot_matches_new_line(&mut self, yes: bool) -> (builder: &mut RegexMatcherBuilder)
        ensures
            builder.config() == (Config { dot_matches_new_line: yes, ..old(self).config() }),
            *final(self) == *final(builder),
    {
        self.config.dot_matches_new_line = yes;
        self
    }

    /// The byte that no match may hold, if there is to be one.
    pub fn line_terminator(&mut self, line_term: Option<u8>) -> (builder: &mut RegexMatcherBuilder)
        ensures
            builder.config() == (Config {
                line_terminator: match line_term {
                    Some(byte) => Some(LineTerminator::spec_byte(byte)),
                    None => None,
                },
                ..old(self).config()
            }),
            *final(self) == *final(builder),
    {
        self.config.line_terminator = match line_term {
            Some(byte) => Some(LineTerminator::byte(byte)),
            None => None,
        };
        self
    }

    /// The byte that a pattern may not ask for alone, if there is to be
    /// one.
    pub fn ban_byte(&mut self, byte: Option<u8>) -> (builder: &mut RegexMatcherBuilder)
        ensures
            builder.config() == (Config { ban: byte, ..old(self).config() }),
            *final(self) == *final(builder),
    {
        self.config.ban = byte;
        self
    }
}

/// A matcher for patterns.
#[derive(Debug)]
pub struct RegexMatcher {
    config: Config,
    /// The compiled pattern.
    regex: Regex,
    /// The cheaper matcher that finds lines which may hold a match.
    fast_line_regex: Option<Regex>,
    /// The bytes that no match holds.
    non_matching_bytes: ByteSet,
}

impl RegexMatcher {
    /// The options, with the line terminator that is in force.
    pub closed spec fn config(&self) -> Config {
        self.config
    }

    /// The compiled pattern.
    pub closed spec fn regex(&self) -> Regex {
        self.regex
    }

    /// The cheaper matcher that finds lines which may hold a match.
    pub closed spec fn fast_line_regex(&self) -> Option<Regex> {
        self.fast_line_regex
    }

    /// The bytes that no match holds.
    pub closed spec fn spec_non_matching_bytes(&self) -> ByteSet {
        self.non_matching_bytes
    }

    /// The bytes that no match holds.
    pub fn non_matching_bytes(&self) -> (set: &ByteSet)
        ensures
            *set == self.spec_non_matching_bytes(),
    {
        &self.non_matching_bytes
    }

    /// The terminator that no match holds, if there is one.
    pub fn line_terminator(&self) -> (line_term: Option<LineTerminator>)
        ensures
            line_term == self.config().line_terminator,
    {
        self.config.line_terminator
    }
}

/// The match that `regex-automata` reports, as a range.
pub open spec fn match_of(found: Option<(int, int)>) -> Result<Option<Match>, NoError> {
    match found {
        Some((start, end)) => Ok(Some(Match::spec_new(start as usize, end as usize))),
        None => Ok(None),
    }
}

impl Matcher for RegexMatcher {
    type Error = NoError;

    open spec fn found(&self, haystack: Seq<u8>, at: int) -> Result<Option<Match>, NoError> {
        match_of(engine::regex_find(self.regex(), haystack, at))
    }

    open spec fn candidate(&self, haystack: Seq<u8>) -> Result<Option<LineMatchKind>, NoError> {
        match self.fast_line_regex() {
            Some(fast) => match engine::regex_half(fast, haystack) {
                Some(offset) => Ok(Some(LineMatchKind::Candidate(offset as usize))),
                None => Ok(None),
            },
            None => confirmed_of(self.found(haystack, 0)),
        }
    }

    /// A line of `haystack` that may hold a match, found by the cheaper
    /// matcher where there is one, and else the line of the first match.
    fn find_candidate_line(&self, haystack: &[u8]) -> (r: Result<Option<LineMatchKind>, NoError>) {
        match &self.fast_line_regex {
            Some(fast) => match engine::search_half(fast, haystack) {
                Some(offset) => Ok(Some(LineMatchKind::Candidate(offset))),
                None => Ok(None),
            },
            None => self.confirmed_line(haystack),
        }
    }

    /// The leftmost match in `haystack` that starts at `at` or later.
    fn find_at(&self, haystack: &[u8], at: usize) -> (r: Result<Option<Match>, NoError>) {
        match engine::find_from(&self.regex, haystack, at) {
            Some((start, end)) => Ok(Some(Match::new(start, end))),
            None => Ok(None),
        }
    }
}

} // verus!
