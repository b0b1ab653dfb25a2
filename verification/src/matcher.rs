//! Value types shared by every other module, and the interface that a
//! pattern matcher offers to the search driver.

use vstd::prelude::*;
use vstd::slice::slice_subrange;

verus! {

/// A possibly empty range of bytes, `start..end`, with `start <= end`.
#[derive(Clone, Copy, Debug, Eq, Hash, PartialEq, Structural)]
pub struct Match {
    start: usize,
    end: usize,
}

impl Match {
    #[verifier::type_invariant]
    spec fn ordered(self) -> bool {
        self.start <= self.end
    }

    /// The offset of the first byte of the range.
    pub closed spec fn spec_start(&self) -> usize {
        self.start
    }

    /// The offset one past the last byte of the range.
    pub closed spec fn spec_end(&self) -> usize {
        self.end
    }

    /// The number of bytes in the range.
    pub open spec fn spec_len(&self) -> int {
        self.spec_end() - self.spec_start()
    }

    /// The bounds of the range from `start` to `end`.
    pub proof fn lemma_spec_new(start: usize, end: usize)
        ensures
            Match::spec_new(start, end).spec_start() == start,
            Match::spec_new(start, end).spec_end() == end,
    {
    }

    /// Two ranges with the same bounds are one range.
    pub proof fn lemma_same_bounds(self, other: Match)
        requires
            self.spec_start() == other.spec_start(),
            self.spec_end() == other.spec_end(),
        ensures
            self == other,
    {
    }

    /// The range from `start` to `end`.
    pub closed spec fn spec_new(start: usize, end: usize) -> Match {
        Match { start, end }
    }

    /// The range from `start` to `end`.
    #[verifier::when_used_as_spec(spec_new)]
    pub fn new(start: usize, end: usize) -> (m: Match)
        requires
            start <= end,
        ensures
            m == Match::spec_new(start, end),
            m.spec_start() == start,
            m.spec_end() == end,
    {
        Match { start, end }
    }

    /// The number of bytes in the range.
    pub fn len(&self) -> (n: usize)
        ensures
            n == self.spec_len(),
            self.spec_start() <= self.spec_end(),
    {
        proof {
            use_type_invariant(self);
        }
        self.end - self.start
    }

    /// Whether the range holds no byte.
    pub fn is_empty(&self) -> (b: bool)
        ensures
            b == (self.spec_start() == self.spec_end()),
    {
        self.len() == 0
    }

    /// The offset of the first byte of the range.
    #[verifier::when_used_as_spec(spec_start)]
    pub fn start(&self) -> (s: usize)
        ensures
            s == self.spec_start(),
            s <= self.spec_end(),
    {
        proof {
            use_type_invariant(self);
        }
        self.start
    }

    /// The offset one past the last byte of the range.
    #[verifier::when_used_as_spec(spec_end)]
    pub fn end(&self) -> (e: usize)
        ensures
            e == self.spec_end(),
            self.spec_start() <= e,
    {
        proof {
            use_type_invariant(self);
        }
        self.end
    }

    /// The range from `start` to the end of this range.
    pub fn with_start(&self, start: usize) -> (m: Match)
        requires
            start <= self.spec_end(),
        ensures
            m.spec_start() == start,
            m.spec_end() == self.spec_end(),
    {
        Match { start, end: self.end }
    }

    /// The range from the start of this range to `end`.
    pub fn with_end(&self, end: usize) -> (m: Match)
        requires
            self.spec_start() <= end,
        ensures
            m.spec_start() == self.spec_start(),
            m.spec_end() == end,
    {
        Match { start: self.start, end }
    }

    /// The empty range at `offset`.
    pub fn zero(offset: usize) -> (m: Match)
        ensures
            m.spec_start() == offset,
            m.spec_end() == offset,
    {
        Match { start: offset, end: offset }
    }

    /// The bytes of `bytes` that the range covers.
    pub fn slice<'a>(&self, bytes: &'a [u8]) -> (part: &'a [u8])
        requires
            self.spec_end() <= bytes@.len(),
        ensures
            part@ == bytes@.subrange(self.spec_start() as int, self.spec_end() as int),
    {
        proof {
            use_type_invariant(self);
        }
        slice_subrange(bytes, self.start, self.end)
    }

    /// The range `amount` bytes further on.
    pub fn offset(&self, amount: usize) -> (m: Match)
        requires
            self.spec_end() + amount <= usize::MAX,
        ensures
            m.spec_start() == self.spec_start() + amount,
            m.spec_end() == self.spec_end() + amount,
    {
        proof {
            use_type_invariant(self);
        }
        Match { start: self.start + amount, end: self.end + amount }
    }
}

#[derive(Clone, Copy, Debug, Eq, Hash, PartialEq, Structural)]
enum LineTerminatorImp {
    /// Any single byte ends a line.
    Byte(u8),
    /// `\r\n` ends a line, and so does a lone `\n`.
    CRLF,
}

/// The byte, or the pair `\r\n`, that ends a line.
#[derive(Clone, Copy, Debug, Eq, Hash, PartialEq, Structural)]
pub struct LineTerminator(LineTerminatorImp);

impl Default for LineTerminator {
    fn default() -> (t: LineTerminator)
        ensures
            t == LineTerminator::spec_byte(0x0Au8),
            !t.spec_is_crlf(),
            t.spec_as_byte() == 0x0Au8,
    {
        LineTerminator::byte(0x0Au8)
    }
}

/// `std::slice::from_ref`: the slice of length one that holds `*byte`.
#[verifier::external_body]
fn slice_of_one(byte: &u8) -> (s: &[u8])
    ensures
        s@ == seq![*byte],
{
    std::slice::from_ref(byte)
}

impl LineTerminator {
    /// Whether this terminator is the pair `\r\n`.
    pub closed spec fn spec_is_crlf(&self) -> bool {
        self.0 is CRLF
    }

    /// The byte on which every line ends: the configured byte, or `\n` for
    /// the pair `\r\n`.
    pub closed spec fn spec_as_byte(&self) -> u8 {
        match self.0 {
            LineTerminatorImp::Byte(byte) => byte,
            LineTerminatorImp::CRLF => 0x0Au8,
        }
    }

    /// The bytes of the terminator as they are written out.
    pub open spec fn spec_as_bytes(&self) -> Seq<u8> {
        if self.spec_is_crlf() {
            seq![0x0Du8, 0x0Au8]
        } else {
            seq![self.spec_as_byte()]
        }
    }

    /// The terminator that is the single byte `byte`.
    pub closed spec fn spec_byte(byte: u8) -> LineTerminator {
        LineTerminator(LineTerminatorImp::Byte(byte))
    }

    /// The terminator of one byte is that byte and no pair; the pair ends
    /// on `\n`.
    pub proof fn lemma_spec_byte(byte: u8)
        ensures
            LineTerminator::spec_byte(byte).spec_as_byte() == byte,
            !LineTerminator::spec_byte(byte).spec_is_crlf(),
            LineTerminator::spec_crlf().spec_as_byte() == 0x0Au8,
            LineTerminator::spec_crlf().spec_is_crlf(),
    {
    }

    /// The terminator that is the pair `\r\n`.
    pub closed spec fn spec_crlf() -> LineTerminator {
        LineTerminator(LineTerminatorImp::CRLF)
    }

    /// The terminator that is the single byte `byte`.
    #[verifier::when_used_as_spec(spec_byte)]
    pub fn byte(byte: u8) -> (t: LineTerminator)
        ensures
            t == LineTerminator::spec_byte(byte),
            !t.spec_is_crlf(),
            t.spec_as_byte() == byte,
    {
        LineTerminator(LineTerminatorImp::Byte(byte))
    }

    /// The terminator that is the pair `\r\n`.
    #[verifier::when_used_as_spec(spec_crlf)]
    pub fn crlf() -> (t: LineTerminator)
        ensures
            t == LineTerminator::spec_crlf(),
            t.spec_is_crlf(),
            t.spec_as_byte() == 0x0Au8,
    {
        LineTerminator(LineTerminatorImp::CRLF)
    }

    /// Whether this terminator is the pair `\r\n`.
    #[verifier::when_used_as_spec(spec_is_crlf)]
    pub fn is_crlf(&self) -> (b: bool)
        ensures
            b == self.spec_is_crlf(),
            b ==> self.spec_as_byte() == 0x0Au8,
    {
        match self.0 {
            LineTerminatorImp::Byte(_) => false,
            LineTerminatorImp::CRLF => true,
        }
    }

    /// The byte on which every line ends: the configured byte, or `\n` for
    /// the pair `\r\n`.
    #[verifier::when_used_as_spec(spec_as_byte)]
    pub fn as_byte(&self) -> (b: u8)
        ensures
            b == self.spec_as_byte(),
    {
        match self.0 {
            LineTerminatorImp::Byte(byte) => byte,
            LineTerminatorImp::CRLF => 0x0Au8,
        }
    }

    /// The bytes of the terminator as they are written out.
    pub fn as_bytes(&self) -> (s: &[u8])
        ensures
            s@ == self.spec_as_bytes(),
    {
        match &self.0 {
            LineTerminatorImp::Byte(byte) => slice_of_one(byte),
            LineTerminatorImp::CRLF => {
                let pair: &[u8; 2] = &[0x0Du8, 0x0Au8];
                let s = pair.as_slice();
                assert(s@ =~= seq![0x0Du8, 0x0Au8]);
                s
            },
        }
    }

    /// Whether `slice` ends in this terminator's byte.
    pub fn is_suffix(&self, slice: &[u8]) -> (b: bool)
        ensures
            b == (slice@.len() > 0 && slice@.last() == self.spec_as_byte()),
    {
        let n = slice.len();
        n > 0 && slice[n - 1] == self.as_byte()
    }
}

/// A set of bytes, kept as 256 bits.
#[derive(Clone, Debug)]
pub struct ByteSet {
    bits: [u64; 4],
}

/// Whether bit `bit` of `word` is set.
pub open spec fn bit_is_set(word: u64, bit: u64) -> bool {
    word & (1u64 << bit) != 0
}

proof fn lemma_bit_after_set(word: u64, bit: u64, other: u64)
    requires
        bit < 64,
        other < 64,
    ensures
        bit_is_set(word | (1u64 << bit), other) == (other == bit || bit_is_set(word, other)),
{
    assert(((word | (1u64 << bit)) & (1u64 << other) != 0) == (other == bit || (word & (1u64
        << other) != 0))) by (bit_vector)
        requires
            bit < 64,
            other < 64,
    ;
}

proof fn lemma_bit_after_clear(word: u64, bit: u64, other: u64)
    requires
        bit < 64,
        other < 64,
    ensures
        bit_is_set(word & !(1u64 << bit), other) == (other != bit && bit_is_set(word, other)),
{
    assert(((word & !(1u64 << bit)) & (1u64 << other) != 0) == (other != bit && (word & (1u64
        << other) != 0))) by (bit_vector)
        requires
            bit < 64,
            other < 64,
    ;
}

proof fn lemma_bits_of_constants(bit: u64)
    requires
        bit < 64,
    ensures
        !bit_is_set(0u64, bit),
        bit_is_set(0xFFFF_FFFF_FFFF_FFFFu64, bit),
{
    assert(0u64 & (1u64 << bit) == 0) by (bit_vector)
        requires
            bit < 64,
    ;
    assert(0xFFFF_FFFF_FFFF_FFFFu64 & (1u64 << bit) != 0) by (bit_vector)
        requires
            bit < 64,
    ;
}

impl ByteSet {
    /// Whether `byte` is a member, read off the bits.
    pub closed spec fn has(&self, byte: u8) -> bool {
        bit_is_set(self.bits[(byte / 64) as int], (byte % 64) as u64)
    }

    /// The bytes that are members.
    pub open spec fn view(&self) -> Set<u8> {
        Set::new(|byte: u8| self.has(byte))
    }

    /// The set without members.
    pub fn empty() -> (set: ByteSet)
        ensures
            set@ == Set::<u8>::empty(),
    {
        let set = ByteSet { bits: [0u64; 4] };
        proof {
            assert forall|byte: u8| !set.has(byte) by {
                lemma_bits_of_constants((byte % 64) as u64);
            }
            assert(set@ =~= Set::<u8>::empty());
        }
        set
    }

    /// The set of all 256 bytes.
    pub fn full() -> (set: ByteSet)
        ensures
            set@ == Set::<u8>::full(),
    {
        let set = ByteSet { bits: [0xFFFF_FFFF_FFFF_FFFFu64; 4] };
        proof {
            assert forall|byte: u8| set.has(byte) by {
                lemma_bits_of_constants((byte % 64) as u64);
            }
            assert(set@ =~= Set::<u8>::full());
        }
        set
    }

    /// Adds `byte`; nothing changes where it is a member already.
    pub fn add(&mut self, byte: u8)
        ensures
            final(self)@ == old(self)@.insert(byte),
    {
        let bucket = byte / 64;
        let bit = byte % 64;
        let word = self.bits[bucket as usize];
        self.bits[bucket as usize] = word | (1u64 << (bit as u64));
        proof {
            assert forall|other: u8| self.has(other) == (other == byte || old(self).has(other)) by {
                if other / 64 == bucket {
                    lemma_bit_after_set(word, bit as u64, (other % 64) as u64);
                }
            }
            assert(self@ =~= old(self)@.insert(byte));
        }
    }

    /// Adds every byte from `start` to `end`, both included.
    pub fn add_all(&mut self, start: u8, end: u8)
        ensures
            final(self)@ == old(self)@.union(Set::new(|byte: u8| start <= byte <= end)),
    {
        if start > end {
            assert(self@ =~= old(self)@.union(Set::new(|byte: u8| start <= byte <= end)));
            return ;
        }
        let mut b: u8 = start;
        loop
            invariant_except_break
                start <= b <= end,
                self@ == old(self)@.union(Set::new(|byte: u8| start <= byte < b)),
            ensures
                self@ == old(self)@.union(Set::new(|byte: u8| start <= byte <= end)),
            decreases end - b,
        {
            self.add(b);
            if b == end {
                assert(self@ =~= old(self)@.union(Set::new(|byte: u8| start <= byte <= end)));
                break ;
            }
            b = b + 1;
            assert(self@ =~= old(self)@.union(Set::new(|byte: u8| start <= byte < b)));
        }
    }

    /// Removes `byte`; nothing changes where it is no member.
    pub fn remove(&mut self, byte: u8)
        ensures
            final(self)@ == old(self)@.remove(byte),
    {
        let bucket = byte / 64;
        let bit = byte % 64;
        let word = self.bits[bucket as usize];
        self.bits[bucket as usize] = word & !(1u64 << (bit as u64));
        proof {
            assert forall|other: u8| self.has(other) == (other != byte && old(self).has(other)) by {
                if other / 64 == bucket {
                    lemma_bit_after_clear(word, bit as u64, (other % 64) as u64);
                }
            }
            assert(self@ =~= old(self)@.remove(byte));
        }
    }

    /// Removes every byte from `start` to `end`, both included.
    pub fn remove_all(&mut self, start: u8, end: u8)
        ensures
            final(self)@ == old(self)@.difference(Set::new(|byte: u8| start <= byte <= end)),
    {
        if start > end {
            assert(self@ =~= old(self)@.difference(Set::new(|byte: u8| start <= byte <= end)));
            return ;
        }
        let mut b: u8 = start;
        loop
            invariant_except_break
                start <= b <= end,
                self@ == old(self)@.difference(Set::new(|byte: u8| start <= byte < b)),
            ensures
                self@ == old(self)@.difference(Set::new(|byte: u8| start <= byte <= end)),
            decreases end - b,
        {
            self.remove(b);
            if b == end {
                assert(self@ =~= old(self)@.difference(Set::new(|byte: u8| start <= byte <= end)));
                break ;
            }
            b = b + 1;
            assert(self@ =~= old(self)@.difference(Set::new(|byte: u8| start <= byte < b)));
        }
    }

    /// Whether `byte` is a member.
    pub fn contains(&self, byte: u8) -> (b: bool)
        ensures
            b == self@.contains(byte),
    {
        let bucket = byte / 64;
        let bit = byte % 64;
        self.bits[bucket as usize] & (1u64 << (bit as u64)) != 0
    }
}

/// What a matcher knows of the line it points at.
#[derive(Clone, Copy, Debug)]
pub enum LineMatchKind {
    /// A line that holds a match; the position lies inside that line.
    Confirmed(usize),
    /// A line that may hold a match; the caller has to confirm it.
    Candidate(usize),
}

/// The error of a matcher that cannot fail.
#[derive(Debug, Eq, PartialEq)]
pub struct NoError(());

/// An error that can say what went wrong.
pub trait ErrorText {
    /// The text shown to the user.
    open spec fn text(&self) -> Seq<char> {
        arbitrary()
    }

    fn error_text(&self) -> (text: String)
        ensures
            text@ == self.text(),
    ;
}

impl ErrorText for NoError {
    open spec fn text(&self) -> Seq<char> {
        "no error"@
    }

    fn error_text(&self) -> (text: String) {
        "no error".to_string()
    }
}

/// The end of a match, if there is one.
pub open spec fn end_of<E>(found: Result<Option<Match>, E>) -> Result<Option<usize>, E> {
    match found {
        Ok(Some(m)) => Ok(Some(m.spec_end())),
        Ok(None) => Ok(None),
        Err(e) => Err(e),
    }
}

/// Whether there is a match.
pub open spec fn any_of<E>(found: Result<Option<Match>, E>) -> Result<bool, E> {
    match found {
        Ok(m) => Ok(m.is_some()),
        Err(e) => Err(e),
    }
}

/// A confirmed line at the end of a match, if there is one.
pub open spec fn confirmed_of<E>(found: Result<Option<Match>, E>) -> Result<
    Option<LineMatchKind>,
    E,
> {
    match found {
        Ok(Some(m)) => Ok(Some(LineMatchKind::Confirmed(m.spec_end()))),
        Ok(None) => Ok(None),
        Err(e) => Err(e),
    }
}

/// Whether a position reported for a line lies inside a haystack of `len`
/// bytes.
pub open spec fn line_in_bounds(kind: LineMatchKind, len: nat) -> bool {
    match kind {
        LineMatchKind::Confirmed(i) => i <= len,
        LineMatchKind::Candidate(i) => i <= len,
    }
}

/// A pattern matcher over bytes.
///
/// An implementation says in `found` what it reports for each haystack and
/// start, and in `candidate` which line it points at; the executable methods
/// return exactly that.
pub trait Matcher {
    type Error: ErrorText;

    /// The leftmost match in `haystack` that starts at `at` or later.
    open spec fn found(&self, haystack: Seq<u8>, at: int) -> Result<Option<Match>, Self::Error> {
        arbitrary()
    }

    /// The line that the matcher points at in `haystack`.
    open spec fn candidate(&self, haystack: Seq<u8>) -> Result<
        Option<LineMatchKind>,
        Self::Error,
    > {
        arbitrary()
    }

    fn find_at(&self, haystack: &[u8], at: usize) -> (r: Result<Option<Match>, Self::Error>)
        requires
            at <= haystack@.len(),
        ensures
            r == self.found(haystack@, at as int),
            r matches Ok(Some(m)) ==> at <= m.spec_start() <= m.spec_end() <= haystack@.len(),
    ;

    fn shortest_match_at(&self, haystack: &[u8], at: usize) -> (r: Result<
        Option<usize>,
        Self::Error,
    >)
        requires
            at <= haystack@.len(),
        ensures
            r == end_of(self.found(haystack@, at as int)),
            r matches Ok(Some(end)) ==> at <= end <= haystack@.len(),
    {
        match self.find_at(haystack, at) {
            Ok(Some(m)) => Ok(Some(m.end())),
            Ok(None) => Ok(None),
            Err(e) => Err(e),
        }
    }

    fn shortest_match(&self, haystack: &[u8]) -> (r: Result<Option<usize>, Self::Error>)
        ensures
            r == end_of(self.found(haystack@, 0)),
            r matches Ok(Some(end)) ==> end <= haystack@.len(),
    {
        self.shortest_match_at(haystack, 0)
    }

    fn is_match_at(&self, haystack: &[u8], at: usize) -> (r: Result<bool, Self::Error>)
        requires
            at <= haystack@.len(),
        ensures
            r == any_of(self.found(haystack@, at as int)),
    {
        match self.shortest_match_at(haystack, at) {
            Ok(end) => Ok(end.is_some()),
            Err(e) => Err(e),
        }
    }

    fn is_match(&self, haystack: &[u8]) -> (r: Result<bool, Self::Error>)
        ensures
            r == any_of(self.found(haystack@, 0)),
    {
        self.is_match_at(haystack, 0)
    }

    /// A line of `haystack` that holds or may hold a match, or none where
    /// no line does.
    fn find_candidate_line(&self, haystack: &[u8]) -> (r: Result<
        Option<LineMatchKind>,
        Self::Error,
    >)
        ensures
            r == self.candidate(haystack@),
            r matches Ok(Some(kind)) ==> line_in_bounds(kind, haystack@.len()),
    ;

    /// The answer of `find_candidate_line` for a matcher without a cheaper
    /// check of its own: the end of the first match, confirmed.
    fn confirmed_line(&self, haystack: &[u8]) -> (r: Result<Option<LineMatchKind>, Self::Error>)
        ensures
            r == confirmed_of(self.found(haystack@, 0)),
            r matches Ok(Some(kind)) ==> line_in_bounds(kind, haystack@.len()),
    {
        match self.shortest_match(haystack) {
            Ok(Some(end)) => Ok(Some(LineMatchKind::Confirmed(end))),
            Ok(None) => Ok(None),
            Err(e) => Err(e),
        }
    }

    /// The successive matches in `bytes` from `at` on, up to the first one
    /// that starts at `upto` or later, which is left out with all that
    /// follow it.
    fn find_iter_at(&self, bytes: &[u8], at: usize, upto: usize) -> (r: Result<
        Vec<Match>,
        Self::Error,
    >)
        ensures
            r matches Ok(v) ==> in_order(v@, at as int, bytes@.len() as int, upto as int),
            r matches Ok(v) ==> matches_from(
                |from: int| self.found(bytes@, from),
                bytes@.len(),
                at as int,
                upto as int,
            ) == Ok::<Seq<Match>, Self::Error>(v@),
            r matches Err(e) ==> matches_from(
                |from: int| self.found(bytes@, from),
                bytes@.len(),
                at as int,
                upto as int,
            ) == Err::<Seq<Match>, Self::Error>(e),
    {
        let ghost found = |from: int| self.found(bytes@, from);
        let mut all: Vec<Match> = Vec::new();
        let mut last_end: usize = at;
        let mut last_match: Option<usize> = None;
        proof {
            if let Ok(tail) = matches_from(found, bytes@.len(), at as int, upto as int) {
                assert(Seq::<Match>::empty() + tail =~= tail);
            }
        }
        loop
            invariant
                at <= last_end,
                in_order(all@, at as int, bytes@.len() as int, upto as int),
                all@.len() > 0 ==> all@.last().spec_end() <= last_end,
                found == |from: int| self.found(bytes@, from),
                matches_from(found, bytes@.len(), at as int, upto as int) == after(
                    all@,
                    matches_after(
                        found,
                        bytes@.len(),
                        last_end as int,
                        upto as int,
                        ended_at(last_match),
                    ),
                ),
            decreases bytes@.len() + 1 - last_end,
        {
            if last_end > bytes.len() {
                assert(all@ + Seq::<Match>::empty() =~= all@);
                return Ok(all);
            }
            let m = match self.find_at(bytes, last_end) {
                Err(e) => {
                    return Err(e);
                },
                Ok(None) => {
                    assert(all@ + Seq::<Match>::empty() =~= all@);
                    return Ok(all);
                },
                Ok(Some(m)) => m,
            };
            if m.start() >= upto {
                assert(all@ + Seq::<Match>::empty() =~= all@);
                return Ok(all);
            }
            let ghost before = all@;
            let ghost from = last_end as int;
            let ghost last = ended_at(last_match);
            let empty = m.is_empty();
            let again = empty && match last_match {
                Some(end) => end == m.end(),
                None => false,
            };
            if !again {
                all.push(m);
            }
            last_match = Some(m.end());
            proof {
                assert(again == repeats(m, last));
                assert(all@ =~= before + kept(m, last));
            }
            if empty {
                if m.end() >= bytes.len() {
                    proof {
                        let rest = matches_after(
                            found,
                            bytes@.len(),
                            next_start(m),
                            upto as int,
                            Some(m.spec_end() as int),
                        );
                        assert(rest == Ok::<Seq<Match>, Self::Error>(Seq::empty()));
                        assert(before + (kept(m, last) + Seq::<Match>::empty()) =~= all@);
                    }
                    return Ok(all);
                }
                last_end = m.end() + 1;
            } else {
                last_end = m.end();
            }
            proof {
                let rest = matches_after(
                    found,
                    bytes@.len(),
                    last_end as int,
                    upto as int,
                    ended_at(last_match),
                );
                assert(last_end as int == next_start(m));
                if let Ok(tail) = rest {
                    assert(before + (kept(m, last) + tail) =~= all@ + tail);
                }
            }
        }
    }
}

/// Whether the ranges `found` lie between `from` and `to`, start before
/// `upto`, and stand one behind the other.
pub open spec fn in_order(found: Seq<Match>, from: int, to: int, upto: int) -> bool {
    &&& forall|k: int|
        0 <= k < found.len() ==> from <= (#[trigger] found[k]).spec_start() <= found[k].spec_end()
            <= to && found[k].spec_start() < upto
    &&& forall|j: int, k: int|
        0 <= j < k < found.len() ==> (#[trigger] found[j]).spec_end() <= (
        #[trigger] found[k]).spec_start()
}

/// Where the search goes on after the match `found`: at its end, and one
/// byte on after an empty match.
pub open spec fn next_start(found: Match) -> int {
    if found.spec_start() == found.spec_end() {
        found.spec_end() + 1
    } else {
        found.spec_end() as int
    }
}

/// Whether the match `found` is an empty match right where the match
/// before it ended; such a match is passed over.
pub open spec fn repeats(found: Match, last: Option<int>) -> bool {
    found.spec_start() == found.spec_end() && last == Some(found.spec_end() as int)
}

/// The match `found`, unless it is passed over.
pub open spec fn kept(found: Match, last: Option<int>) -> Seq<Match> {
    if repeats(found, last) {
        Seq::empty()
    } else {
        seq![found]
    }
}

/// The end of the match before, as a number of the specification.
pub open spec fn ended_at(last: Option<usize>) -> Option<int> {
    match last {
        Some(end) => Some(end as int),
        None => None,
    }
}

/// `rest` with `done` put in front of it.
pub open spec fn after<E>(done: Seq<Match>, rest: Result<Seq<Match>, E>) -> Result<
    Seq<Match>,
    E,
> {
    match rest {
        Ok(tail) => Ok(done + tail),
        Err(e) => Err(e),
    }
}

/// The successive matches in a haystack of `len` bytes from `at` on, where
/// `found` says what a search from each start reports and the match before
/// ended at `last`: each search starts where `next_start` says, an empty
/// match right behind the match before it is passed over, and the first
/// match that starts at `upto` or later ends the sequence and is left out.
pub open spec fn matches_after<E>(
    found: spec_fn(int) -> Result<Option<Match>, E>,
    len: nat,
    at: int,
    upto: int,
    last: Option<int>,
) -> Result<Seq<Match>, E>
    decreases
        if at <= len {
            len + 1 - at
        } else {
            0
        },
{
    if at < 0 || at > len {
        Ok(Seq::empty())
    } else {
        match found(at) {
            Err(e) => Err(e),
            Ok(None) => Ok(Seq::empty()),
            Ok(Some(m)) => if m.spec_start() >= upto {
                Ok(Seq::empty())
            } else if next_start(m) <= at {
                Ok(kept(m, last))
            } else {
                after(
                    kept(m, last),
                    matches_after(found, len, next_start(m), upto, Some(m.spec_end() as int)),
                )
            },
        }
    }
}

/// The successive matches in a haystack of `len` bytes from `at` on, up to
/// the first that starts at `upto` or later.
pub open spec fn matches_from<E>(
    found: spec_fn(int) -> Result<Option<Match>, E>,
    len: nat,
    at: int,
    upto: int,
) -> Result<Seq<Match>, E> {
    matches_after(found, len, at, upto, None)
}

impl<'a, M: Matcher> Matcher for &'a M {
    type Error = M::Error;

    open spec fn found(&self, haystack: Seq<u8>, at: int) -> Result<Option<Match>, Self::Error> {
        (**self).found(haystack, at)
    }

    open spec fn candidate(&self, haystack: Seq<u8>) -> Result<
        Option<LineMatchKind>,
        Self::Error,
    > {
        (**self).candidate(haystack)
    }

    fn find_at(&self, haystack: &[u8], at: usize) -> (r: Result<Option<Match>, Self::Error>) {
        (*self).find_at(haystack, at)
    }

    fn find_candidate_line(&self, haystack: &[u8]) -> (r: Result<
        Option<LineMatchKind>,
        Self::Error,
    >) {
        (*self).find_candidate_line(haystack)
    }
}

} // verus!
