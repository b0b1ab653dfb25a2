//! Small parts of the formatter: a matching line with its matches, decimal
//! numbers, and the trimming of lines.

use crate::matcher::{in_order, matches_from, ErrorText, LineTerminator, Match, Matcher};
use crate::searcher::lines::{spec_without_terminator, without_terminator};
use crate::searcher::sink::{SearchError, SinkError, SinkMatch};
use crate::searcher::Searcher;
use vstd::prelude::*;
use vstd::slice::slice_subrange;

verus! {

/// A matching line as the formatter works on it: its bytes, where it lies
/// in the input, and the matches in it.
#[derive(Debug)]
pub struct Sunk<'a> {
    bytes: &'a [u8],
    absolute_byte_offset: u64,
    line_number: Option<u64>,
    matches: &'a [Match],
}

impl<'a> Sunk<'a> {
    /// The bytes of the line.
    pub closed spec fn spec_bytes(&self) -> Seq<u8> {
        self.bytes@
    }

    /// The matches in the line, as offsets into it.
    pub closed spec fn spec_matches(&self) -> Seq<Match> {
        self.matches@
    }

    /// Where the line begins in the whole input.
    pub closed spec fn spec_offset(&self) -> u64 {
        self.absolute_byte_offset
    }

    /// The number of the line, where lines are counted.
    pub closed spec fn spec_line_number(&self) -> Option<u64> {
        self.line_number
    }

    /// A line without bytes and without matches.
    pub fn empty() -> (sunk: Sunk<'static>)
        ensures
            sunk.spec_bytes() == Seq::<u8>::empty(),
            sunk.spec_matches() == Seq::<Match>::empty(),
            sunk.spec_offset() == 0,
            sunk.spec_line_number() is None,
    {
        let none: &'static [u8; 0] = &[];
        let nothing: &'static [Match; 0] = &[];
        let sunk = Sunk {
            bytes: none.as_slice(),
            absolute_byte_offset: 0,
            line_number: None,
            matches: nothing.as_slice(),
        };
        assert(sunk.bytes@ =~= Seq::<u8>::empty());
        assert(sunk.matches@ =~= Seq::<Match>::empty());
        sunk
    }

    /// The line of `sunk` with the matches `matches` in it.
    pub fn from_sink_match(sunk: &'a SinkMatch<'a>, matches: &'a [Match]) -> (made: Sunk<'a>)
        ensures
            made.spec_bytes() == sunk@.bytes,
            made.spec_matches() == matches@,
            made.spec_offset() == sunk@.absolute_byte_offset,
            made.spec_line_number() == sunk@.line_number,
    {
        Sunk {
            bytes: sunk.bytes(),
            absolute_byte_offset: sunk.absolute_byte_offset(),
            line_number: sunk.line_number(),
            matches,
        }
    }

    /// The bytes of the line.
    pub fn bytes(&self) -> (bytes: &'a [u8])
        ensures
            bytes@ == self.spec_bytes(),
    {
        self.bytes
    }

    /// The matches in the line, as offsets into it.
    pub fn matches(&self) -> (matches: &'a [Match])
        ensures
            matches@ == self.spec_matches(),
    {
        self.matches
    }

    /// Where the line begins in the whole input.
    pub fn absolute_byte_offset(&self) -> (offset: u64)
        ensures
            offset == self.spec_offset(),
    {
        self.absolute_byte_offset
    }

    /// The number of the line, where lines are counted.
    pub fn line_number(&self) -> (number: Option<u64>)
        ensures
            number == self.spec_line_number(),
    {
        self.line_number
    }
}

/// The decimal digits of `n`, as ASCII.
pub open spec fn digits(n: nat) -> Seq<u8>
    decreases n,
{
    if n < 10 {
        seq![(0x30 + n) as u8]
    } else {
        digits(n / 10).push((0x30 + n % 10) as u8)
    }
}

/// Ten to the power `k`.
pub open spec fn pow10(k: nat) -> nat
    decreases k,
{
    if k == 0 {
        1
    } else {
        10 * pow10((k - 1) as nat)
    }
}

/// A number written in decimal.
#[derive(Debug)]
pub struct DecimalFormatter {
    buf: [u8; 20],
    /// Where the first digit stands in `buf`.
    start: usize,
}

impl DecimalFormatter {
    /// The digits.
    pub closed spec fn view(&self) -> Seq<u8> {
        self.buf@.subrange(self.start as int, 20)
    }

    #[verifier::type_invariant]
    spec fn starts_inside(self) -> bool {
        self.start < 20
    }

    /// `n` in decimal.
    pub fn new(n: u64) -> (formatter: DecimalFormatter)
        ensures
            formatter@ == digits(n as nat),
    {
        let mut buf = [0u8; 20];
        let mut i: usize = 20;
        let mut left = n;
        assert(pow10(20) == 100000000000000000000) by {
            reveal_with_fuel(pow10, 21);
        }
        loop
            invariant_except_break
                0 < i <= 20,
                left < pow10(i as nat),
                i < 20 ==> left > 0,
                digits(n as nat) == if i == 20 {
                    digits(left as nat)
                } else {
                    digits(left as nat) + buf@.subrange(i as int, 20)
                },
            ensures
                i < 20,
                digits(n as nat) == buf@.subrange(i as int, 20),
            decreases i,
        {
            let ghost before = buf@;
            let ghost at = i as int;
            i -= 1;
            let digit = (left % 10) as u8;
            let ghost whole = left;
            left /= 10;
            buf[i] = 0x30 + digit;
            proof {
                assert(pow10(at as nat) == 10 * pow10((at - 1) as nat));
                assert(left < pow10(i as nat));
                if i == 0 {
                    assert(pow10(0) == 1);
                }
                assert(buf@.subrange(i as int, 20) =~= seq![(0x30 + digit) as u8] + before.subrange(
                    at,
                    20,
                ));
                if at == 20 {
                    assert(before.subrange(20, 20) =~= Seq::<u8>::empty());
                }
                if whole >= 10 {
                    assert(digits(whole as nat) == digits(left as nat).push((0x30 + digit) as u8));
                    assert(digits(left as nat).push((0x30 + digit) as u8) + before.subrange(at, 20)
                        =~= digits(left as nat) + buf@.subrange(i as int, 20));
                } else {
                    assert(digits(whole as nat) =~= seq![(0x30 + digit) as u8]);
                }
            }
            if left == 0 {
                break ;
            }
        }
        DecimalFormatter { buf, start: i }
    }

    /// The digits.
    pub fn as_bytes(&self) -> (bytes: &[u8])
        ensures
            bytes@ == self@,
    {
        proof {
            use_type_invariant(self);
        }
        slice_subrange(self.buf.as_slice(), self.start, 20)
    }
}

/// The path of a file, as the bytes that are written for it.
#[derive(Clone, Debug)]
pub struct PrinterPath {
    bytes: Vec<u8>,
}

impl PrinterPath {
    /// The bytes that are written.
    pub closed spec fn view(&self) -> Seq<u8> {
        self.bytes@
    }

    /// The path that is written as `bytes`.
    pub fn new(bytes: Vec<u8>) -> (path: PrinterPath)
        ensures
            path@ == bytes@,
    {
        PrinterPath { bytes }
    }

    /// The path, as it is: separators are written as they stand.
    pub fn with_separator(self, sep: Option<u8>) -> (path: PrinterPath)
        ensures
            path@ == self@,
    {
        self
    }

    /// The bytes that are written.
    pub fn as_bytes(&self) -> (bytes: &[u8])
        ensures
            bytes@ == self@,
    {
        self.bytes.as_slice()
    }
}

/// Whether `b` is ASCII white space: tab, line feed, vertical tab, form
/// feed, carriage return or space.
pub open spec fn is_space(b: u8) -> bool {
    b == 0x09 || b == 0x0A || b == 0x0B || b == 0x0C || b == 0x0D || b == 0x20
}

/// Whether `b` is trimmed from the start of a line: it is white space and
/// no byte of the line terminator.
pub open spec fn trimmed(b: u8, line_term: LineTerminator) -> bool {
    is_space(b) && !line_term.spec_as_bytes().contains(b)
}

/// Where the first byte stands in `bytes[from..to]` that is not trimmed;
/// `to` where all are.
pub open spec fn trim_start(bytes: Seq<u8>, from: int, to: int, line_term: LineTerminator) -> int
    decreases to - from,
{
    if from >= to || from < 0 || from >= bytes.len() || !trimmed(bytes[from], line_term) {
        from
    } else {
        trim_start(bytes, from + 1, to, line_term)
    }
}

/// The range `range` of `slice` without the white space at its start.
pub fn trim_ascii_prefix(line_term: LineTerminator, slice: &[u8], range: Match) -> (rest: Match)
    requires
        range.spec_end() <= slice@.len(),
    ensures
        rest.spec_start() == trim_start(
            slice@,
            range.spec_start() as int,
            range.spec_end() as int,
            line_term,
        ),
        rest.spec_end() == range.spec_end(),
        range.spec_start() <= rest.spec_start() <= rest.spec_end(),
{
    let term = line_term.as_bytes();
    let end = range.end();
    let mut at = range.start();
    while at < end
        invariant
            range.spec_start() <= at <= end,
            end == range.spec_end(),
            end <= slice@.len(),
            term@ == line_term.spec_as_bytes(),
            trim_start(slice@, range.spec_start() as int, end as int, line_term) == trim_start(
                slice@,
                at as int,
                end as int,
                line_term,
            ),
        ensures
            trim_start(slice@, at as int, end as int, line_term) == at,
        decreases end - at,
    {
        let b = slice[at];
        let space = b == 0x09 || b == 0x0A || b == 0x0B || b == 0x0C || b == 0x0D || b == 0x20;
        if !space || holds(term, b) {
            break ;
        }
        at += 1;
    }
    range.with_start(at)
}

/// Whether `bytes` holds `b`.
fn holds(bytes: &[u8], b: u8) -> (yes: bool)
    ensures
        yes == bytes@.contains(b),
{
    let mut i: usize = 0;
    while i < bytes.len()
        invariant
            i <= bytes.len(),
            forall|j: int| 0 <= j < i ==> bytes@[j] != b,
        decreases bytes.len() - i,
    {
        if bytes[i] == b {
            return true;
        }
        i += 1;
    }
    false
}

/// The successive matches of `matcher` in the line `range` of `bytes`,
/// taken without its terminator: the search starts at the start of the line
/// and is over with the first match that starts behind the line.
pub fn find_iter_at_in_context<M: Matcher>(
    searcher: &Searcher,
    matcher: &M,
    bytes: &[u8],
    range: Match,
) -> (r: Result<Vec<Match>, SearchError>)
    requires
        range.spec_end() <= bytes@.len(),
    ensures
        ({
            let upto = spec_without_terminator(
                bytes@.subrange(0, range.spec_end() as int),
                searcher.spec_line_terminator(),
            );
            let all = matches_from(
                |from: int| matcher.found(upto, from),
                upto.len(),
                range.spec_start() as int,
                range.spec_end() as int,
            );
            match all {
                Ok(found) => r matches Ok(v) && v@ == found && in_order(
                    found,
                    range.spec_start() as int,
                    upto.len() as int,
                    range.spec_end() as int,
                ),
                Err(e) => r matches Err(err) && err.message() == e.text() && !err.is_io(),
            }
        }),
{
    let mut m = Match::new(0, range.end());
    trim_line_terminator(searcher, bytes, &mut m);
    let upto = slice_subrange(bytes, 0, m.end());
    proof {
        assert(bytes@.subrange(0, range.spec_end() as int).take(m.spec_end() as int) =~= upto@);
    }
    match matcher.find_iter_at(upto, range.start(), range.end()) {
        Ok(found) => Ok(found),
        Err(err) => Err(SearchError::error_message(err.error_text())),
    }
}

/// Takes the line terminator off the end of the line `line` of `buf`.
pub fn trim_line_terminator(searcher: &Searcher, buf: &[u8], line: &mut Match)
    requires
        old(line).spec_end() <= buf@.len(),
    ensures
        final(line).spec_start() == old(line).spec_start(),
        old(line).spec_start() <= final(line).spec_end() <= old(line).spec_end(),
        buf@.subrange(final(line).spec_start() as int, final(line).spec_end() as int)
            == spec_without_terminator(
            buf@.subrange(old(line).spec_start() as int, old(line).spec_end() as int),
            searcher.spec_line_terminator(),
        ),
{
    let rest = without_terminator(line.slice(buf), searcher.line_terminator());
    let start = line.start();
    let end = start + rest.len();
    *line = line.with_end(end);
    proof {
        let whole = buf@.subrange(old(line).spec_start() as int, old(line).spec_end() as int);
        assert(rest@ == spec_without_terminator(whole, searcher.spec_line_terminator()));
        assert(rest@ =~= whole.take(rest@.len() as int));
        assert(buf@.subrange(start as int, end as int) =~= whole.take(rest@.len() as int));
    }
}

} // verus!
