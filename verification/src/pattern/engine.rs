//! The calls into `regex-automata`.

use regex_automata::meta;
use vstd::prelude::*;

verus! {

/// `regex_automata::meta::Regex`, a compiled pattern.
#[verifier::external_type_specification]
#[verifier::external_body]
pub struct ExRegex(meta::Regex);

/// `regex_automata::meta::BuildError`, why a pattern does not compile.
#[verifier::external_type_specification]
#[verifier::external_body]
pub struct ExBuildError(meta::BuildError);

/// The limits under which a pattern is compiled, in bytes but for the
/// number of states.
#[derive(Clone, Copy, Debug, PartialEq, Eq, Structural)]
pub struct Limits {
    pub nfa_size: usize,
    pub onepass_size: usize,
    pub dfa_size: usize,
    pub dfa_states: usize,
    pub hybrid_cache: usize,
}

/// The matcher that `regex-automata` compiles from `hir` under `limits`,
/// or why it compiles none.
pub uninterp spec fn compiled(limits: Limits, hir: regex_syntax::hir::Hir) -> Result<
    meta::Regex,
    meta::BuildError,
>;

/// `regex_automata::meta::Builder::build_from_hir`, configured with
/// `utf8_empty(false)` and the five limits of `limits`.
#[verifier::external_body]
pub(crate) fn build_limited(limits: Limits, hir: &regex_syntax::hir::Hir) -> (r: Result<
    meta::Regex,
    meta::BuildError,
>)
    ensures
        r == compiled(limits, *hir),
{
    let config = meta::Regex::config()
        .utf8_empty(false)
        .nfa_size_limit(Some(limits.nfa_size))
        .onepass_size_limit(Some(limits.onepass_size))
        .dfa_size_limit(Some(limits.dfa_size))
        .dfa_state_limit(Some(limits.dfa_states))
        .hybrid_cache_capacity(limits.hybrid_cache);
    meta::Regex::builder().configure(config).build_from_hir(hir)
}

/// The matcher that `regex-automata` compiles from `hir` under its own
/// limits, or why it compiles none.
pub uninterp spec fn compiled_plain(hir: regex_syntax::hir::Hir) -> Result<
    meta::Regex,
    meta::BuildError,
>;

/// `regex_automata::meta::Builder::build_from_hir`, configured with
/// `utf8_empty(false)` and nothing else.
#[verifier::external_body]
pub(crate) fn build_plain(hir: &regex_syntax::hir::Hir) -> (r: Result<
    meta::Regex,
    meta::BuildError,
>)
    ensures
        r == compiled_plain(*hir),
{
    let config = meta::Regex::config().utf8_empty(false);
    meta::Regex::builder().configure(config).build_from_hir(hir)
}

/// The size limit that `err` reports as exceeded.
pub uninterp spec fn exceeded_size_limit(err: meta::BuildError) -> Option<usize>;

/// `regex_automata::meta::BuildError::size_limit`.
#[verifier::external_body]
pub(crate) fn size_limit(err: &meta::BuildError) -> (limit: Option<usize>)
    ensures
        limit == exceeded_size_limit(*err),
{
    err.size_limit()
}

/// What the syntax error behind `err` says, where there is one.
pub uninterp spec fn syntax_error_message(err: meta::BuildError) -> Option<Seq<char>>;

/// `regex_automata::meta::BuildError::syntax_error`, as its `Display`.
#[verifier::external_body]
pub(crate) fn syntax_error_text(err: &meta::BuildError) -> (text: Option<String>)
    ensures
        syntax_error_message(*err) == match text {
            Some(t) => Some(t@),
            None => None,
        },
{
    err.syntax_error().map(|e| e.to_string())
}

/// What `err` says.
pub uninterp spec fn build_error_message(err: meta::BuildError) -> Seq<char>;

/// The `Display` of `regex_automata::meta::BuildError`.
#[verifier::external_body]
pub(crate) fn build_error_text(err: &meta::BuildError) -> (text: String)
    ensures
        text@ == build_error_message(*err),
{
    format!("{}", err)
}

/// What `regex` finds in `haystack` when the search starts at `at`: the
/// bounds of the leftmost match.
pub uninterp spec fn regex_find(regex: meta::Regex, haystack: Seq<u8>, at: int) -> Option<
    (int, int),
>;

/// `regex_automata::meta::Regex::find` on the span from `at` to the end of
/// `haystack`: the leftmost match in that span, which lies within it.
#[verifier::external_body]
pub(crate) fn find_from(regex: &meta::Regex, haystack: &[u8], at: usize) -> (found: Option<
    (usize, usize),
>)
    requires
        at <= haystack@.len(),
    ensures
        regex_find(*regex, haystack@, at as int) == match found {
            Some((start, end)) => Some((start as int, end as int)),
            None => None,
        },
        found matches Some((start, end)) ==> at <= start <= end <= haystack@.len(),
{
    let input = regex_automata::Input::new(haystack).span(at..haystack.len());
    regex.find(input).map(|m| (m.start(), m.end()))
}

/// Where the first match of `regex` in `haystack` ends.
pub uninterp spec fn regex_half(regex: meta::Regex, haystack: Seq<u8>) -> Option<int>;

/// `regex_automata::meta::Regex::search_half` on all of `haystack`: the end
/// of a match, which lies within `haystack`.
#[verifier::external_body]
pub(crate) fn search_half(regex: &meta::Regex, haystack: &[u8]) -> (end: Option<usize>)
    ensures
        regex_half(*regex, haystack@) == match end {
            Some(offset) => Some(offset as int),
            None => None,
        },
        end matches Some(offset) ==> offset <= haystack@.len(),
{
    regex.search_half(&regex_automata::Input::new(haystack)).map(|hm| hm.offset())
}

/// `regex_automata::meta::Regex::is_accelerated`: whether `regex` expects to
/// search fast. The answer rests on what the machine offers, so nothing is
/// said of it.
#[verifier::external_body]
pub(crate) fn is_accelerated(regex: &meta::Regex) -> bool {
    regex.is_accelerated()
}

} // verus!
