//! The literals that every match of a pattern begins with, and the cheaper
//! matcher made of them, which finds the lines that may hold a match.

use crate::pattern::config::ConfiguredHIR;
use crate::pattern::engine;
use crate::pattern::error::{message_of, Error, ErrorKind};
use crate::pattern::hir::{all_wf, HirNode};
use crate::pattern::strip::copy_bytes;
use crate::pattern::syntax;
use regex_automata::meta::Regex;
use vstd::prelude::*;

verus! {

/// Some bytes that a match holds. An exact literal is a whole match; an
/// inexact one is the beginning of a match.
#[derive(Debug)]
pub struct Literal {
    pub bytes: Vec<u8>,
    pub exact: bool,
}

/// The literals of a sequence, each with whether it is exact.
pub type Lits = Seq<(Seq<u8>, bool)>;

impl Literal {
    /// The bytes, and whether the literal is exact.
    pub open spec fn view(&self) -> (Seq<u8>, bool) {
        (self.bytes@, self.exact)
    }

    /// The exact literal `bytes`.
    pub fn exact(bytes: Vec<u8>) -> (lit: Literal)
        ensures
            lit@ == (bytes@, true),
    {
        Literal { bytes, exact: true }
    }

    /// Keeps the first `len` bytes; a literal that loses bytes is no longer
    /// exact.
    pub fn keep_first_bytes(&mut self, len: usize)
        ensures
            final(self)@ == kept_first(old(self)@, len as nat),
    {
        if len >= self.bytes.len() {
            return ;
        }
        self.exact = false;
        self.bytes.truncate(len);
    }
}

/// The literal `lit`, cut to its first `len` bytes; it is no longer exact
/// where it lost bytes.
pub open spec fn kept_first(lit: (Seq<u8>, bool), len: nat) -> (Seq<u8>, bool) {
    if len >= lit.0.len() {
        lit
    } else {
        (lit.0.subrange(0, len as int), false)
    }
}

/// A finite sequence of literals, or the infinite sequence, which stands
/// for every literal there is.
#[derive(Debug)]
pub struct LiteralSeq {
    /// The literals; `None` for the infinite sequence.
    pub literals: Option<Vec<Literal>>,
}

/// How often a byte is met in what is searched, from 0 for the rarest to
/// 255.
pub uninterp spec fn byte_rank(byte: u8) -> u8;

/// `regex_syntax::hir::literal::rank`.
#[verifier::external_body]
fn rank(byte: u8) -> (r: u8)
    ensures
        r == byte_rank(byte),
{
    regex_syntax::hir::literal::rank(byte)
}

/// The literals that every match of `hir` begins with, as `regex-syntax`
/// extracts them under the four limits; `None` where it finds no finite
/// sequence.
pub uninterp spec fn prefix_literals(
    hir: regex_syntax::hir::Hir,
    limit_class: usize,
    limit_repeat: usize,
    limit_literal_len: usize,
    limit_total: usize,
) -> Option<Lits>;

/// `regex_syntax::hir::literal::Extractor::extract`, for prefixes and under
/// the four limits of `limits`.
#[verifier::external_body]
fn extract_prefixes(hir: &regex_syntax::hir::Hir, limits: &Extractor) -> (seq: LiteralSeq)
    ensures
        seq@ == prefix_literals(
            *hir,
            limits.limit_class,
            limits.limit_repeat,
            limits.limit_literal_len,
            limits.limit_total,
        ),
{
    let seq = regex_syntax::hir::literal::Extractor::new()
        .limit_class(limits.limit_class)
        .limit_repeat(limits.limit_repeat)
        .limit_literal_len(limits.limit_literal_len)
        .limit_total(limits.limit_total)
        .extract(hir);
    let own = |l: &regex_syntax::hir::literal::Literal| {
        Literal { bytes: l.as_bytes().to_vec(), exact: l.is_exact() }
    };
    LiteralSeq { literals: seq.literals().map(|ls| ls.iter().map(own).collect()) }
}

/// What is left of `lits` when `regex-syntax` has made it fit for a search
/// of prefixes.
pub uninterp spec fn optimized_for_prefix(lits: Option<Lits>) -> Option<Lits>;

/// `regex_syntax::hir::literal::Seq::optimize_for_prefix_by_preference`, on
/// the sequence that holds the literals of `seq`.
#[verifier::external_body]
fn optimize_for_prefix(seq: &LiteralSeq) -> (better: LiteralSeq)
    ensures
        better@ == optimized_for_prefix(seq@),
{
    let mut out = match &seq.literals {
        None => regex_syntax::hir::literal::Seq::infinite(),
        Some(lits) => lits.iter().map(|l| match l.exact {
            true => regex_syntax::hir::literal::Literal::exact(l.bytes.clone()),
            false => regex_syntax::hir::literal::Literal::inexact(l.bytes.clone()),
        }).collect(),
    };
    out.optimize_for_prefix_by_preference();
    let own = |l: &regex_syntax::hir::literal::Literal| {
        Literal { bytes: l.as_bytes().to_vec(), exact: l.is_exact() }
    };
    LiteralSeq { literals: out.literals().map(|ls| ls.iter().map(own).collect()) }
}

/// Whether a search for `lit` would stop nearly everywhere: it is empty, or
/// a single byte that is among the most frequent.
pub open spec fn poisonous(lit: (Seq<u8>, bool)) -> bool {
    lit.0.len() == 0 || (lit.0.len() == 1 && byte_rank(lit.0[0]) >= 250)
}

/// Whether one of the first `n` of `lits` is poisonous.
pub open spec fn any_poisonous(lits: Lits, n: nat) -> bool
    decreases n,
{
    if n == 0 || n > lits.len() {
        false
    } else {
        poisonous(lits[n - 1]) || any_poisonous(lits, (n - 1) as nat)
    }
}

/// The length of the shortest of the first `n` of `lits`.
pub open spec fn min_len(lits: Lits, n: nat) -> Option<nat>
    decreases n,
{
    if n == 0 || n > lits.len() {
        None
    } else {
        match min_len(lits, (n - 1) as nat) {
            None => Some(lits[n - 1].0.len()),
            Some(m) => if lits[n - 1].0.len() < m {
                Some(lits[n - 1].0.len())
            } else {
                Some(m)
            },
        }
    }
}

/// Whether a search for `lits` is likely to be fast: no literal is
/// poisonous, and there are at most 3 literals where one has at most one
/// byte, and at most 64 otherwise.
pub open spec fn good(lits: Option<Lits>) -> bool {
    match lits {
        None => false,
        Some(lits) => !any_poisonous(lits, lits.len()) && match min_len(lits, lits.len()) {
            None => false,
            Some(min) => if min <= 1 {
                lits.len() <= 3
            } else {
                lits.len() <= 64
            },
        },
    }
}

/// Whether a search for `lits` is good enough to look no further: no
/// literal is poisonous, each has at least 3 bytes, and there are at most
/// 8.
pub open spec fn really_good(lits: Option<Lits>) -> bool {
    match lits {
        None => false,
        Some(lits) => !any_poisonous(lits, lits.len()) && match min_len(lits, lits.len()) {
            None => false,
            Some(min) => min >= 3 && lits.len() <= 8,
        },
    }
}

/// Whether the second of two sequences is the better one to search for:
/// a finite one is better than the infinite, one without a poisonous literal
/// better than one with, then one with a longer shortest literal, then one
/// with more literals; and the first where all that is equal.
pub open spec fn second_is_better(first: Option<Lits>, second: Option<Lits>) -> bool {
    match (first, second) {
        (None, _) => true,
        (Some(_), None) => false,
        (Some(a), Some(b)) => if any_poisonous(a, a.len()) {
            true
        } else if any_poisonous(b, b.len()) {
            false
        } else {
            match (min_len(a, a.len()), min_len(b, b.len())) {
                (None, _) => true,
                (Some(_), None) => false,
                (Some(m1), Some(m2)) => m1 < m2 || (m1 == m2 && a.len() < b.len()),
            }
        },
    }
}

impl LiteralSeq {
    /// The literals, each with whether it is exact; `None` for the infinite
    /// sequence.
    pub open spec fn view(&self) -> Option<Lits> {
        match self.literals {
            None => None,
            Some(lits) => Some(Seq::new(lits@.len(), |i: int| lits@[i]@)),
        }
    }

    /// The infinite sequence.
    pub fn infinite() -> (seq: LiteralSeq)
        ensures
            seq@ is None,
    {
        LiteralSeq { literals: None }
    }

    /// The sequence that holds `lit` alone.
    pub fn singleton(lit: Literal) -> (seq: LiteralSeq)
        ensures
            seq@ == Some(seq![lit@]),
    {
        let mut lits: Vec<Literal> = Vec::new();
        lits.push(lit);
        let seq = LiteralSeq { literals: Some(lits) };
        assert(seq@->0 =~= seq![lit@]);
        seq
    }

    /// Whether the sequence holds a poisonous literal.
    pub fn has_poisonous_literal(&self) -> (yes: bool)
        ensures
            yes == (self@ matches Some(lits) && any_poisonous(lits, lits.len())),
    {
        match &self.literals {
            None => false,
            Some(lits) => {
                let mut i: usize = 0;
                while i < lits.len()
                    invariant
                        i <= lits.len(),
                        self.literals == Some(*lits),
                        !any_poisonous(self@->0, i as nat),
                    decreases lits.len() - i,
                {
                    if is_poisonous(&lits[i]) {
                        proof {
                            lemma_poisonous_from(self@->0, (i + 1) as nat, lits.len() as nat);
                        }
                        return true;
                    }
                    i += 1;
                }
                false
            },
        }
    }

    /// The length of the shortest literal; `None` for the infinite sequence
    /// and for the empty one.
    pub fn min_literal_len(&self) -> (min: Option<usize>)
        ensures
            match self@ {
                None => min is None,
                Some(lits) => match min_len(lits, lits.len()) {
                    None => min is None,
                    Some(m) => min matches Some(x) && x == m,
                },
            },
    {
        match &self.literals {
            None => None,
            Some(lits) => {
                let mut min: Option<usize> = None;
                let mut i: usize = 0;
                while i < lits.len()
                    invariant
                        i <= lits.len(),
                        self.literals == Some(*lits),
                        match min_len(self@->0, i as nat) {
                            None => min is None,
                            Some(m) => min matches Some(x) && x == m,
                        },
                    decreases lits.len() - i,
                {
                    let len = lits[i].bytes.len();
                    min = match min {
                        None => Some(len),
                        Some(m) => if len < m {
                            Some(len)
                        } else {
                            Some(m)
                        },
                    };
                    i += 1;
                }
                min
            },
        }
    }

    /// How many literals there are; `None` for the infinite sequence.
    pub fn len(&self) -> (n: Option<usize>)
        ensures
            match self@ {
                None => n is None,
                Some(lits) => n matches Some(x) && x == lits.len(),
            },
    {
        match &self.literals {
            None => None,
            Some(lits) => Some(lits.len()),
        }
    }

    /// Whether the sequence is finite.
    pub fn is_finite(&self) -> (yes: bool)
        ensures
            yes == self@ is Some,
    {
        self.literals.is_some()
    }
}

/// What is poisonous among the first `n` is poisonous among the first `m`,
/// for `m` from `n` on.
proof fn lemma_poisonous_from(lits: Lits, n: nat, m: nat)
    requires
        n <= m <= lits.len(),
        any_poisonous(lits, n),
    ensures
        any_poisonous(lits, m),
    decreases m - n,
{
    if n < m {
        lemma_poisonous_from(lits, n, (m - 1) as nat);
    }
}

/// Whether a search for `lit` would stop nearly everywhere.
fn is_poisonous(lit: &Literal) -> (yes: bool)
    ensures
        yes == poisonous(lit@),
{
    lit.bytes.len() == 0 || (lit.bytes.len() == 1 && rank(lit.bytes[0]) >= 250)
}

/// A sequence of literals, tagged with whether it may follow another
/// sequence as its continuation.
#[derive(Debug)]
pub struct TSeq {
    seq: LiteralSeq,
    prefix: bool,
}

impl TSeq {
    /// The literals.
    pub closed spec fn view(&self) -> Option<Lits> {
        self.seq@
    }

    /// Whether the sequence may follow another as its continuation.
    pub closed spec fn is_prefix(&self) -> bool {
        self.prefix
    }

    /// The infinite sequence.
    pub fn infinite() -> (seq: TSeq)
        ensures
            seq@ is None,
            seq.is_prefix(),
    {
        TSeq { seq: LiteralSeq::infinite(), prefix: true }
    }

    /// The sequence that holds `lit` alone.
    pub fn singleton(lit: Literal) -> (seq: TSeq)
        ensures
            seq@ == Some(seq![lit@]),
            seq.is_prefix(),
    {
        TSeq { seq: LiteralSeq::singleton(lit), prefix: true }
    }

    /// Puts the literals of `seq` in place of those of the sequence.
    pub fn replace(&mut self, seq: LiteralSeq)
        ensures
            final(self)@ == seq@,
            final(self).is_prefix() == old(self).is_prefix(),
    {
        self.seq = seq;
    }

    /// The literals, without the tag.
    pub fn into_seq(self) -> (seq: LiteralSeq)
        ensures
            seq@ == self@,
    {
        self.seq
    }

    /// Makes the sequence infinite.
    pub fn make_infinite(&mut self)
        ensures
            final(self)@ is None,
            final(self).is_prefix() == old(self).is_prefix(),
    {
        self.seq = LiteralSeq::infinite();
    }

    /// Says that the sequence may not follow another as its continuation.
    pub fn make_not_prefix(&mut self)
        ensures
            final(self)@ == old(self)@,
            !final(self).is_prefix(),
    {
        self.prefix = false;
    }

    /// Whether the sequence is finite.
    pub fn is_finite(&self) -> (yes: bool)
        ensures
            yes == self@ is Some,
    {
        self.seq.is_finite()
    }

    /// How many literals there are; `None` for the infinite sequence.
    pub fn len(&self) -> (n: Option<usize>)
        ensures
            match self@ {
                None => n is None,
                Some(lits) => n matches Some(x) && x == lits.len(),
            },
    {
        self.seq.len()
    }

    /// The length of the shortest literal.
    pub fn min_literal_len(&self) -> (min: Option<usize>)
        ensures
            match self@ {
                None => min is None,
                Some(lits) => match min_len(lits, lits.len()) {
                    None => min is None,
                    Some(m) => min matches Some(x) && x == m,
                },
            },
    {
        self.seq.min_literal_len()
    }

    /// Whether a search for the literals is likely to be fast.
    pub fn is_good(&self) -> (yes: bool)
        ensures
            yes == good(self@),
    {
        if self.has_poisonous_literal() {
            return false;
        }
        let min = match self.min_literal_len() {
            None => {
                return false;
            },
            Some(min) => min,
        };
        let len = match self.len() {
            None => {
                return false;
            },
            Some(len) => len,
        };
        if min <= 1 {
            return len <= 3;
        }
        min >= 2 && len <= 64
    }

    /// Whether a search for the literals is good enough to look no further.
    pub fn is_really_good(&self) -> (yes: bool)
        ensures
            yes == really_good(self@),
    {
        if self.has_poisonous_literal() {
            return false;
        }
        let min = match self.min_literal_len() {
            None => {
                return false;
            },
            Some(min) => min,
        };
        let len = match self.len() {
            None => {
                return false;
            },
            Some(len) => len,
        };
        min >= 3 && len <= 8
    }

    /// Whether the sequence holds a poisonous literal.
    pub fn has_poisonous_literal(&self) -> (yes: bool)
        ensures
            yes == (self@ matches Some(lits) && any_poisonous(lits, lits.len())),
    {
        self.seq.has_poisonous_literal()
    }

    /// The better of two sequences to search for.
    pub fn pick(self, other: TSeq) -> (best: TSeq)
        ensures
            best == if second_is_better(self@, other@) {
                other
            } else {
                self
            },
    {
        let (seq1, seq2) = (self, other);
        if !seq1.is_finite() {
            return seq2;
        } else if !seq2.is_finite() {
            return seq1;
        }
        if seq1.has_poisonous_literal() {
            return seq2;
        } else if seq2.has_poisonous_literal() {
            return seq1;
        }
        let min1 = match seq1.min_literal_len() {
            None => {
                return seq2;
            },
            Some(min1) => min1,
        };
        let min2 = match seq2.min_literal_len() {
            None => {
                return seq1;
            },
            Some(min2) => min2,
        };
        if min1 < min2 {
            return seq2;
        } else if min2 < min1 {
            return seq1;
        }
        let len1 = match seq1.len() {
            None => 0,
            Some(len1) => len1,
        };
        let len2 = match seq2.len() {
            None => 0,
            Some(len2) => len2,
        };
        if len1 < len2 {
            return seq2;
        } else if len2 < len1 {
            return seq1;
        }
        seq1
    }
}

/// Extracts literals from a pattern, within limits.
#[derive(Debug)]
pub struct Extractor {
    /// The most members of a class that are taken as literals.
    pub limit_class: usize,
    /// The most repetitions that are written out.
    pub limit_repeat: usize,
    /// The most bytes of a literal.
    pub limit_literal_len: usize,
    /// The most literals of a sequence.
    pub limit_total: usize,
}

impl Extractor {
    /// An extractor with the limits 10, 10, 100 and 64.
    pub open spec fn with_defaults() -> Extractor {
        Extractor { limit_class: 10, limit_repeat: 10, limit_literal_len: 100, limit_total: 64 }
    }

    /// An extractor with the limits 10, 10, 100 and 64.
    pub fn new() -> (extractor: Extractor)
        ensures
            extractor == Extractor::with_defaults(),
    {
        Extractor { limit_class: 10, limit_repeat: 10, limit_literal_len: 100, limit_total: 64 }
    }

    /// The literals that every match of `expr` begins with: none but the
    /// empty one for the empty pattern and for an assertion, the literal
    /// itself, cut to the limit, for a literal, those of the pattern inside
    /// for a group, and for the others what `regex-syntax` extracts.
    pub open spec fn extracted(&self, expr: HirNode) -> Option<Lits>
        decreases expr,
    {
        match expr {
            HirNode::Empty | HirNode::Look(_) => Some(seq![(Seq::<u8>::empty(), true)]),
            HirNode::Literal(bytes) => Some(
                seq![kept_first((bytes@, true), self.limit_literal_len as nat)],
            ),
            HirNode::Capture { sub, .. } => self.extracted(*sub),
            _ => prefix_literals(
                syntax::hir_built(expr),
                self.limit_class,
                self.limit_repeat,
                self.limit_literal_len,
                self.limit_total,
            ),
        }
    }

    /// The literals to search for in place of `expr`: those extracted, made
    /// fit for a search, and the infinite sequence where a search for them is
    /// not likely to be fast.
    pub open spec fn untagged(&self, expr: HirNode) -> Option<Lits> {
        let better = optimized_for_prefix(self.extracted(expr));
        if good(better) {
            better
        } else {
            None
        }
    }

    /// The literals to search for in place of `expr`.
    pub fn extract_untagged(&self, expr: &HirNode) -> (seq: LiteralSeq)
        requires
            expr.wf(),
        ensures
            seq@ == self.untagged(*expr),
    {
        let found = self.extract(expr);
        let better = TSeq { seq: optimize_for_prefix(&found.seq), prefix: found.prefix };
        if !better.is_good() {
            return LiteralSeq::infinite();
        }
        better.seq
    }

    /// The literals that every match of `expr` begins with.
    fn extract(&self, expr: &HirNode) -> (seq: TSeq)
        requires
            expr.wf(),
        ensures
            seq@ == self.extracted(*expr),
            seq.is_prefix(),
        decreases expr,
    {
        match expr {
            HirNode::Empty | HirNode::Look(_) => TSeq::singleton(Literal::exact(Vec::new())),
            HirNode::Literal(bytes) => {
                let mut lit = Literal::exact(copy_bytes(bytes));
                lit.keep_first_bytes(self.limit_literal_len);
                TSeq::singleton(lit)
            },
            HirNode::Capture { sub, .. } => self.extract(sub),
            _ => {
                let hir = syntax::hir_from_tree(expr);
                TSeq { seq: extract_prefixes(&hir, self), prefix: true }
            },
        }
    }
}

/// The literals of a pattern that a cheaper matcher is made of.
#[derive(Debug)]
pub struct InnerLiterals {
    seq: LiteralSeq,
}

/// The literals for the pattern `chir`, whose matcher is accelerated or not
/// as `accelerated` says: none where no line terminator is set, where the
/// matcher is accelerated and the pattern has no Unicode word boundary, or
/// where the pattern is an alternation of literals.
pub open spec fn inner_literals(chir: ConfiguredHIR, accelerated: bool) -> Option<Lits> {
    if chir.config.line_terminator is None {
        None
    } else if accelerated && !syntax::has_unicode_word_boundary(chir.hir) {
        None
    } else if syntax::alternation_of_literals(chir.hir) {
        None
    } else {
        Extractor::with_defaults().untagged(chir.node)
    }
}

impl InnerLiterals {
    /// The literals.
    pub closed spec fn view(&self) -> Option<Lits> {
        self.seq@
    }

    /// The literals of the pattern `chir`, which `re` was compiled from:
    /// those for an accelerated matcher or those for another, as `re` says
    /// of itself.
    pub(crate) fn new(chir: &ConfiguredHIR, re: &Regex) -> (inner: InnerLiterals)
        requires
            chir.wf(),
        ensures
            exists|accelerated: bool| inner@ == #[trigger] inner_literals(*chir, accelerated),
    {
        InnerLiterals::for_matcher(chir, engine::is_accelerated(re))
    }

    /// The literals of the pattern `chir`, whose matcher is accelerated or
    /// not as `accelerated` says.
    pub(crate) fn for_matcher(chir: &ConfiguredHIR, accelerated: bool) -> (inner: InnerLiterals)
        requires
            chir.wf(),
        ensures
            inner@ == inner_literals(*chir, accelerated),
    {
        if chir.config().line_terminator.is_none() {
            return InnerLiterals::none();
        }
        if accelerated {
            if !syntax::contains_word_unicode(chir.hir()) {
                return InnerLiterals::none();
            }
        }
        if syntax::is_alternation_literal(chir.hir()) {
            return InnerLiterals::none();
        }
        let seq = Extractor::new().extract_untagged(&chir.node);
        InnerLiterals { seq }
    }

    /// No literals: the infinite sequence, of which no matcher is made.
    pub(crate) fn none() -> (inner: InnerLiterals)
        ensures
            inner@ is None,
    {
        InnerLiterals { seq: LiteralSeq::infinite() }
    }

    /// The matcher that finds one of the literals, where there are any.
    pub(crate) fn one_regex(&self) -> (r: Result<Option<Regex>, Error>)
        ensures
            prefilter_for(self@, r),
    {
        let lits = match &self.seq.literals {
            None => {
                return Ok(None);
            },
            Some(lits) => lits,
        };
        if lits.len() == 0 {
            return Ok(None);
        }
        let mut alts: Vec<HirNode> = Vec::new();
        let mut i: usize = 0;
        while i < lits.len()
            invariant
                i <= lits.len(),
                alts.len() == i,
                all_wf(alts, i as nat),
                forall|j: int|
                    0 <= j < i ==> (#[trigger] alts[j] matches HirNode::Literal(bytes) && bytes@
                        == lits[j].bytes@),
            decreases lits.len() - i,
        {
            let ghost before = alts;
            alts.push(HirNode::Literal(copy_bytes(&lits[i].bytes)));
            proof {
                lemma_push_wf(before, alts, i as nat);
            }
            i += 1;
        }
        let node = HirNode::Alternation(alts);
        assert(alternation_of(node, self@->0));
        let hir = syntax::hir_from_tree(&node);
        match engine::build_plain(&hir) {
            Ok(regex) => Ok(Some(regex)),
            Err(err) => Err(Error::regex(err)),
        }
    }
}

/// What `InnerLiterals::one_regex` owes for the literals `lits`: no matcher
/// for the infinite sequence and for the empty one, and else what
/// `regex-automata` compiles from the alternation of the literals.
pub open spec fn prefilter_for(lits: Option<Lits>, r: Result<Option<Regex>, Error>) -> bool {
    match lits {
        None => r matches Ok(None),
        Some(lits) => if lits.len() == 0 {
            r matches Ok(None)
        } else {
            exists|alts: HirNode| #[trigger]
                alternation_of(alts, lits) && match engine::compiled_plain(
                    syntax::hir_built(alts),
                ) {
                    Ok(regex) => r matches Ok(Some(made)) && made == regex,
                    Err(e) => r matches Err(err) && (err.spec_kind() matches ErrorKind::Regex(s)
                        && s@ == message_of(e)),
                }
        },
    }
}

/// Whether `alts` is the alternation of the literals `lits`, in their
/// order.
pub open spec fn alternation_of(alts: HirNode, lits: Lits) -> bool {
    alts matches HirNode::Alternation(subs) && subs.len() == lits.len() && alts.wf() && forall|
        j: int,
    |
        0 <= j < subs.len() ==> (#[trigger] subs[j] matches HirNode::Literal(bytes) && bytes@
            == lits[j].0)
}

/// The first `n` of `after`, which is `before` with one more member that is
/// well formed, are well formed where those of `before` are.
proof fn lemma_push_wf(before: Vec<HirNode>, after: Vec<HirNode>, n: nat)
    requires
        n <= before.len(),
        after@.len() == before@.len() + 1,
        forall|j: int| 0 <= j < before.len() ==> after[j] == before[j],
        all_wf(before, n),
        after[before.len() as int].wf(),
    ensures
        all_wf(after, n),
        n == before.len() ==> all_wf(after, (n + 1) as nat),
    decreases n,
{
    if n > 0 {
        lemma_push_wf(before, after, (n - 1) as nat);
    }
    if n == before.len() {
        assert(all_wf(after, n));
        assert(after[(n + 1) - 1].wf());
    }
}

} // verus!
