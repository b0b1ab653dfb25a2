//! The options of the pattern compiler, and the first half of the
//! compilation: from pattern strings to a translated pattern that asks for no
//! banned byte alone and holds no line terminator.

use crate::matcher::{ByteSet, LineTerminator};
use crate::pattern::ast::{has_literal, has_uppercase_literal, AstAnalysis};
use crate::pattern::ban;
use crate::pattern::engine;
use crate::pattern::engine::Limits;
use crate::pattern::error::{message_of, Error, ErrorKind};
use crate::pattern::hir::HirNode;
use crate::pattern::non_matching::{matching_bytes, non_matching_bytes};
use crate::pattern::strip::{strip_from_match, stripped_for};
use crate::pattern::syntax;
use crate::pattern::syntax::TranslateFlags;
use regex_automata::meta::Regex;
use vstd::prelude::*;
use vstd::string::StringExecFns;

verus! {

/// The options of the pattern compiler.
#[derive(Clone, Copy, Debug)]
pub struct Config {
    /// Letters match in either case.
    pub case_insensitive: bool,
    /// Letters match in either case unless the pattern holds an uppercase
    /// literal.
    pub case_smart: bool,
    /// `^` and `$` match at the start and the end of a line.
    pub multi_line: bool,
    /// `.` matches a line terminator too.
    pub dot_matches_new_line: bool,
    /// Repetitions are lazy where they would be greedy, and greedy where
    /// they would be lazy.
    pub swap_greed: bool,
    /// White space in the pattern does not count.
    pub ignore_whitespace: bool,
    /// Classes and case follow Unicode.
    pub unicode: bool,
    /// Octal escapes are allowed.
    pub octal: bool,
    /// The most memory, in bytes, that the compiled pattern may take.
    pub size_limit: usize,
    /// The most memory, in bytes, that the lazy automaton may cache.
    pub dfa_size_limit: usize,
    /// How deep a pattern may nest.
    pub nest_limit: u32,
    /// The terminator that no match may hold.
    pub line_terminator: Option<LineTerminator>,
    /// The byte that a pattern may not ask for alone.
    pub ban: Option<u8>,
    /// Lines end in `\r\n` for `^` and `$`.
    pub crlf: bool,
    /// Matches lie between word boundaries.
    pub word: bool,
    /// Patterns are taken literally.
    pub fixed_strings: bool,
    /// Matches span whole lines.
    pub whole_line: bool,
}

/// The limit on the one-pass automaton: 10 MiB.
pub const ONEPASS_SIZE_LIMIT: usize = 10485760;

/// The limit on the full automaton: 1 MiB.
pub const DFA_SIZE_LIMIT: usize = 1048576;

/// The limit on the states of the full automaton.
pub const DFA_STATE_LIMIT: usize = 1000;

impl Default for Config {
    fn default() -> (config: Config)
        ensures
            config == Config::spec_default(),
    {
        Config {
            case_insensitive: false,
            case_smart: false,
            multi_line: false,
            dot_matches_new_line: false,
            swap_greed: false,
            ignore_whitespace: false,
            unicode: true,
            octal: false,
            size_limit: 104857600,
            dfa_size_limit: 1048576000,
            nest_limit: 250,
            line_terminator: None,
            ban: None,
            crlf: false,
            word: false,
            fixed_strings: false,
            whole_line: false,
        }
    }
}

/// `pattern` as one alternative of several: in a group that records
/// nothing, and with its characters escaped where `fixed` is set.
pub open spec fn alternative(pattern: Seq<char>, fixed: bool) -> Seq<char> {
    "(?:"@ + if fixed {
        syntax::escaped(pattern)
    } else {
        pattern
    } + ")"@
}

/// The first `n` of `patterns` as one pattern: each as an alternative, with
/// `|` between them.
pub open spec fn joined(patterns: Seq<String>, n: nat, fixed: bool) -> Seq<char>
    decreases n,
{
    if n == 0 || n > patterns.len() {
        Seq::empty()
    } else if n == 1 {
        alternative(patterns[0]@, fixed)
    } else {
        joined(patterns, (n - 1) as nat, fixed) + "|"@ + alternative(patterns[n - 1]@, fixed)
    }
}

impl Config {
    /// The options that nobody changed.
    pub open spec fn spec_default() -> Config {
        Config {
            case_insensitive: false,
            case_smart: false,
            multi_line: false,
            dot_matches_new_line: false,
            swap_greed: false,
            ignore_whitespace: false,
            unicode: true,
            octal: false,
            size_limit: 104857600,
            dfa_size_limit: 1048576000,
            nest_limit: 250,
            line_terminator: None,
            ban: None,
            crlf: false,
            word: false,
            fixed_strings: false,
            whole_line: false,
        }
    }

    /// Whether letters match in either case: where that is asked for, and
    /// under `case_smart` where the pattern holds a literal and none that is
    /// uppercase.
    pub open spec fn spec_is_case_insensitive(&self, literal: bool, uppercase: bool) -> bool {
        self.case_insensitive || (self.case_smart && literal && !uppercase)
    }

    /// How a syntax tree is translated under these options, for a pattern
    /// whose literals are as `literal` and `uppercase` say.
    pub open spec fn flags(&self, literal: bool, uppercase: bool) -> TranslateFlags {
        TranslateFlags {
            case_insensitive: self.spec_is_case_insensitive(literal, uppercase),
            multi_line: self.multi_line,
            dot_matches_new_line: self.dot_matches_new_line,
            crlf: self.crlf,
            swap_greed: self.swap_greed,
            unicode: self.unicode,
        }
    }

    /// The limits under which a pattern is compiled.
    pub open spec fn limits(&self) -> Limits {
        Limits {
            nfa_size: self.size_limit,
            onepass_size: ONEPASS_SIZE_LIMIT,
            dfa_size: DFA_SIZE_LIMIT,
            dfa_states: DFA_STATE_LIMIT,
            hybrid_cache: self.dfa_size_limit,
        }
    }

    /// The translated pattern for `patterns`.
    pub(crate) fn build_many(&self, patterns: &[String]) -> (r: Result<ConfiguredHIR, Error>)
        requires
            self.ban matches Some(byte) ==> byte < 128,
        ensures
            configured(*self, patterns@, r),
            r matches Ok(chir) ==> chir.wf(),
    {
        ConfiguredHIR::new(*self, patterns)
    }

    fn is_case_insensitive(&self, analysis: &AstAnalysis) -> (yes: bool)
        ensures
            yes == self.spec_is_case_insensitive(
                analysis.spec_any_literal(),
                analysis.spec_any_uppercase(),
            ),
    {
        if self.case_insensitive {
            return true;
        }
        if !self.case_smart {
            return false;
        }
        analysis.any_literal() && !analysis.any_uppercase()
    }
}

/// A translated pattern that asks for no banned byte alone and holds no line
/// terminator, with the options it was made under.
pub struct ConfiguredHIR {
    pub config: Config,
    /// The pattern.
    pub node: HirNode,
    /// The pattern as `regex-syntax` holds it.
    pub hir: regex_syntax::hir::Hir,
}

/// What `ConfiguredHIR::new` owes for `config` and `patterns`.
///
/// The patterns are joined and parsed, the syntax tree is translated, the
/// banned byte is looked for, and the line terminator is taken out; the
/// first of these that fails gives the error.
pub open spec fn configured(
    config: Config,
    patterns: Seq<String>,
    r: Result<ConfiguredHIR, Error>,
) -> bool {
    let pattern = joined(patterns, patterns.len(), config.fixed_strings);
    match syntax::parsed(pattern, config.nest_limit, config.octal, config.ignore_whitespace) {
        Err(text) => r matches Err(err) && (err.spec_kind() matches ErrorKind::Regex(s) && s@
            == text),
        Ok(ast) => {
            let tree = syntax::ast_view(ast);
            let flags = config.flags(has_literal(tree), has_uppercase_literal(tree));
            match syntax::translated(pattern, ast, flags) {
                Err(text) => r matches Err(err) && (err.spec_kind() matches ErrorKind::Regex(s)
                    && s@ == text),
                Ok(hir) => {
                    let node = syntax::hir_view(hir);
                    if config.ban is Some && ban::bans(node, config.ban->0) {
                        r matches Err(err) && err.spec_kind() == ErrorKind::Banned(config.ban->0)
                    } else {
                        match config.line_terminator {
                            None => r matches Ok(chir) && chir.config == config && chir.node
                                == node && chir.hir == hir,
                            Some(line_term) => exists|s: Result<HirNode, Error>| #[trigger]
                                stripped_for(node, line_term, s) && match s {
                                    Err(e) => r matches Err(err) && err == e,
                                    Ok(out) => r matches Ok(chir) && chir.config == config
                                        && chir.node == out && chir.hir == syntax::hir_built(
                                        out,
                                    ),
                                },
                        }
                    }
                },
            }
        },
    }
}

/// `pattern` as one alternative of several.
fn alternative_of(pattern: &str, fixed: bool) -> (text: String)
    ensures
        text@ == alternative(pattern@, fixed),
{
    let mut text = String::from_str("(?:");
    if fixed {
        text.append(syntax::escape(pattern).as_str());
    } else {
        text.append(pattern);
    }
    text.append(")");
    text
}

impl ConfiguredHIR {
    /// Whether the pattern is in order, and `hir` and `node` are one
    /// pattern: each range of a class begins at or before its end, each
    /// assertion is one that `regex-syntax` knows, and `node` stands for
    /// `hir`, or `hir` is what the constructors of `regex-syntax` make of
    /// `node`.
    pub open spec fn wf(&self) -> bool {
        &&& self.node.wf()
        &&& self.node == syntax::hir_view(self.hir) || self.hir == syntax::hir_built(self.node)
    }

    fn new(config: Config, patterns: &[String]) -> (r: Result<ConfiguredHIR, Error>)
        requires
            config.ban matches Some(byte) ==> byte < 128,
        ensures
            configured(config, patterns@, r),
            r matches Ok(chir) ==> chir.wf(),
    {
        let mut pattern = String::new();
        let mut i: usize = 0;
        while i < patterns.len()
            invariant
                i <= patterns.len(),
                pattern@ == joined(patterns@, i as nat, config.fixed_strings),
            decreases patterns.len() - i,
        {
            if i > 0 {
                pattern.append("|");
            }
            pattern.append(alternative_of(patterns[i].as_str(), config.fixed_strings).as_str());
            i += 1;
            proof {
                if i == 1 {
                    assert(pattern@ =~= alternative(patterns@[0]@, config.fixed_strings));
                }
            }
        }
        let ast = match syntax::parse(
            pattern.as_str(),
            config.nest_limit,
            config.octal,
            config.ignore_whitespace,
        ) {
            Err(text) => {
                return Err(Error::generic(text));
            },
            Ok(ast) => ast,
        };
        let tree = syntax::ast_tree(&ast);
        let analysis = AstAnalysis::from_ast(&tree);
        let flags = TranslateFlags {
            case_insensitive: config.is_case_insensitive(&analysis),
            multi_line: config.multi_line,
            dot_matches_new_line: config.dot_matches_new_line,
            crlf: config.crlf,
            swap_greed: config.swap_greed,
            unicode: config.unicode,
        };
        let hir = match syntax::translate(pattern.as_str(), &ast, flags) {
            Err(text) => {
                return Err(Error::generic(text));
            },
            Ok(hir) => hir,
        };
        let node = syntax::hir_tree(&hir);
        if let Some(byte) = config.ban {
            match ban::check(&node, byte) {
                Err(err) => {
                    return Err(err);
                },
                Ok(()) => {},
            }
        }
        match config.line_terminator {
            None => Ok(ConfiguredHIR { config, node, hir }),
            Some(line_term) => {
                let stripped = strip_from_match(&node, line_term);
                match stripped {
                    Err(err) => {
                        proof {
                            assert(stripped_for(node, line_term, Err(err)));
                        }
                        Err(err)
                    },
                    Ok(out) => {
                        proof {
                            assert(stripped_for(node, line_term, Ok(out)));
                        }
                        let hir = syntax::hir_from_tree(&out);
                        Ok(ConfiguredHIR { config, node: out, hir })
                    },
                }
            },
        }
    }

    pub(crate) fn config(&self) -> (config: &Config)
        ensures
            *config == self.config,
    {
        &self.config
    }

    pub(crate) fn hir(&self) -> (hir: &regex_syntax::hir::Hir)
        ensures
            *hir == self.hir,
    {
        &self.hir
    }

    /// The matcher for the pattern, compiled under the limits of the
    /// options.
    pub(crate) fn to_regex(&self) -> (r: Result<Regex, Error>)
        ensures
            match engine::compiled(self.config.limits(), self.hir) {
                Ok(regex) => r matches Ok(made) && made == regex,
                Err(e) => r matches Err(err) && (err.spec_kind() matches ErrorKind::Regex(s)
                    && s@ == message_of(e)),
            },
    {
        let limits = Limits {
            nfa_size: self.config.size_limit,
            onepass_size: ONEPASS_SIZE_LIMIT,
            dfa_size: DFA_SIZE_LIMIT,
            dfa_states: DFA_STATE_LIMIT,
            hybrid_cache: self.config.dfa_size_limit,
        };
        match engine::build_limited(limits, &self.hir) {
            Ok(regex) => Ok(regex),
            Err(err) => Err(Error::regex(err)),
        }
    }

    /// The bytes that no match of the pattern holds.
    pub(crate) fn non_matching_bytes(&self) -> (set: ByteSet)
        ensures
            set@ == Set::<u8>::full().difference(matching_bytes(self.node)),
    {
        non_matching_bytes(&self.node)
    }

    /// The terminator that no match holds: that of the options, unless the
    /// pattern looks at the start or the end of the haystack.
    pub(crate) fn line_terminator(&self) -> (line_term: Option<LineTerminator>)
        ensures
            line_term == if syntax::anchored_to_haystack(self.hir) {
                None
            } else {
                self.config.line_terminator
            },
    {
        if syntax::contains_anchor_haystack(&self.hir) {
            None
        } else {
            self.config.line_terminator
        }
    }
}

} // verus!
