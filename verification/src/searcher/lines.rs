//! Arithmetic on lines: where a line starts and ends, and how many there are.

use crate::matcher::{LineTerminator, Match};
use vstd::prelude::*;
use vstd::slice::slice_subrange;

verus! {

/// A cursor over the lines of a buffer between two offsets.
#[derive(Debug)]
pub struct LineStep {
    line_term: u8,
    pos: usize,
    end: usize,
}

/// How often `byte` occurs in `bytes`.
pub open spec fn count_of(bytes: Seq<u8>, byte: u8) -> nat
    decreases bytes.len(),
{
    if bytes.len() == 0 {
        0
    } else {
        count_of(bytes.drop_last(), byte) + if bytes.last() == byte {
            1nat
        } else {
            0nat
        }
    }
}

/// Whether `byte` occurs nowhere in `bytes`.
pub open spec fn absent(bytes: Seq<u8>, byte: u8) -> bool {
    forall|i: int| 0 <= i < bytes.len() ==> bytes[i] != byte
}

/// Counting over two pieces is counting over each and adding up.
pub proof fn lemma_count_of_concat(a: Seq<u8>, b: Seq<u8>, byte: u8)
    ensures
        count_of(a + b, byte) == count_of(a, byte) + count_of(b, byte),
    decreases b.len(),
{
    if b.len() == 0 {
        assert(a + b =~= a);
    } else {
        assert((a + b).drop_last() =~= a + b.drop_last());
        lemma_count_of_concat(a, b.drop_last(), byte);
    }
}

/// A range splits into two at any point inside it, and so does its count.
pub proof fn lemma_count_of_split(bytes: Seq<u8>, from: int, mid: int, to: int, byte: u8)
    requires
        0 <= from <= mid <= to <= bytes.len(),
    ensures
        count_of(bytes.subrange(from, to), byte) == count_of(bytes.subrange(from, mid), byte)
            + count_of(bytes.subrange(mid, to), byte),
{
    assert(bytes.subrange(from, to) =~= bytes.subrange(from, mid) + bytes.subrange(mid, to));
    lemma_count_of_concat(bytes.subrange(from, mid), bytes.subrange(mid, to), byte);
}

/// A byte that does not occur is counted zero times, and the other way
/// round.
pub proof fn lemma_count_of_absent(bytes: Seq<u8>, byte: u8)
    ensures
        absent(bytes, byte) <==> count_of(bytes, byte) == 0,
    decreases bytes.len(),
{
    if bytes.len() > 0 {
        lemma_count_of_absent(bytes.drop_last(), byte);
        if absent(bytes, byte) {
            assert forall|i: int| 0 <= i < bytes.drop_last().len() implies bytes.drop_last()[i]
                != byte by {
                assert(bytes.drop_last()[i] == bytes[i]);
            }
        }
        if count_of(bytes, byte) == 0 {
            assert forall|i: int| 0 <= i < bytes.len() implies bytes[i] != byte by {
                if i < bytes.len() - 1 {
                    assert(bytes.drop_last()[i] == bytes[i]);
                }
            }
        }
    }
}

/// Where the bytes of `bytes` begin that follow its last `byte`; 0 where it
/// holds none.
pub open spec fn after_last(bytes: Seq<u8>, byte: u8) -> int
    decreases bytes.len(),
{
    if bytes.len() == 0 {
        0
    } else if bytes.last() == byte {
        bytes.len() as int
    } else {
        after_last(bytes.drop_last(), byte)
    }
}

/// The bytes behind offset `end` hold no `byte`, and the one before it is
/// one: then `end` is where `after_last` points.
pub proof fn lemma_after_last(bytes: Seq<u8>, byte: u8, end: int)
    requires
        0 < end <= bytes.len(),
        bytes[end - 1] == byte,
        absent(bytes.subrange(end, bytes.len() as int), byte),
    ensures
        after_last(bytes, byte) == end,
    decreases bytes.len(),
{
    if end < bytes.len() {
        assert(bytes.subrange(end, bytes.len() as int)[bytes.len() - 1 - end] == bytes.last());
        let shorter = bytes.drop_last();
        let tail = shorter.subrange(end, shorter.len() as int);
        assert forall|i: int| 0 <= i < tail.len() implies tail[i] != byte by {
            assert(bytes.subrange(end, bytes.len() as int)[i] == bytes[end + i]);
        }
        lemma_after_last(shorter, byte, end);
    }
}

/// Where `bytes` holds `byte`, `after_last` points behind one.
pub proof fn lemma_after_last_found(bytes: Seq<u8>, byte: u8)
    requires
        !absent(bytes, byte),
    ensures
        0 < after_last(bytes, byte) <= bytes.len(),
        bytes[after_last(bytes, byte) - 1] == byte,
    decreases bytes.len(),
{
    if bytes.len() > 0 && bytes.last() != byte {
        let shorter = bytes.drop_last();
        assert(!absent(shorter, byte)) by {
            let i = choose|i: int| 0 <= i < bytes.len() && bytes[i] == byte;
            assert(shorter[i] == byte);
        }
        lemma_after_last_found(shorter, byte);
    }
}

/// `bstr::ByteSlice::rfind_byte`: the index of the last occurrence of
/// `byte` in `bytes`, or `None` where it does not occur.
#[verifier::external_body]
pub(crate) fn rfind_byte(bytes: &[u8], byte: u8) -> (found: Option<usize>)
    ensures
        match found {
            Some(i) => i < bytes@.len() && bytes@[i as int] == byte && absent(
                bytes@.subrange(i + 1, bytes@.len() as int),
                byte,
            ),
            None => absent(bytes@, byte),
        },
{
    bstr::ByteSlice::rfind_byte(bytes, byte)
}

/// `bstr::ByteSlice::find_byte`: the index of the first occurrence of
/// `byte` in `bytes`, or `None` where it does not occur.
#[verifier::external_body]
pub(crate) fn find_byte(bytes: &[u8], byte: u8) -> (found: Option<usize>)
    ensures
        match found {
            Some(i) => i < bytes@.len() && bytes@[i as int] == byte && absent(
                bytes@.subrange(0, i as int),
                byte,
            ),
            None => absent(bytes@, byte),
        },
{
    bstr::ByteSlice::find_byte(bytes, byte)
}

/// `memchr::memchr_iter`, counted: the number of occurrences of `byte` in
/// `bytes`.
#[verifier::external_body]
fn count_byte(bytes: &[u8], byte: u8) -> (n: usize)
    ensures
        n == count_of(bytes@, byte),
{
    memchr::memchr_iter(byte, bytes).count()
}

/// Where the effective end of `bytes[..pos]` lies for counting lines
/// backwards: a terminator that closes the last line is left out.
pub open spec fn effective_end(bytes: Seq<u8>, pos: int, line_term: u8) -> int {
    if 0 < pos <= bytes.len() && bytes[pos - 1] == line_term {
        pos - 1
    } else {
        pos
    }
}

/// Whether `start` is the offset at which the line begins that lies `count`
/// lines before the end of `bytes[..pos]`: from `start` to the effective end
/// there are exactly `count` terminators and a terminator stands right
/// before `start`, or `start` is 0 and there are at most `count`.
pub open spec fn is_preceding(
    bytes: Seq<u8>,
    pos: int,
    line_term: u8,
    count: nat,
    start: int,
) -> bool {
    let end = effective_end(bytes, pos, line_term);
    &&& 0 <= start <= end
    &&& count_of(bytes.subrange(start, end), line_term) <= count
    &&& start > 0 ==> bytes[start - 1] == line_term && count_of(
        bytes.subrange(start, end),
        line_term,
    ) == count
}

/// The offset at which the line begins that lies `count` lines before the
/// last line of `bytes`; with `count` 0, the start of the last line.
pub fn preceding(bytes: &[u8], line_term: u8, count: usize) -> (start: usize)
    ensures
        is_preceding(bytes@, bytes@.len() as int, line_term, count as nat, start as int),
{
    preceding_by_pos(bytes, bytes.len(), line_term, count)
}

/// The offset at which the line begins that lies `count` lines before the
/// last line of `bytes[..pos]`.
pub fn preceding_by_pos(bytes: &[u8], pos: usize, line_term: u8, count: usize) -> (start: usize)
    requires
        pos <= bytes@.len(),
    ensures
        is_preceding(bytes@, pos as int, line_term, count as nat, start as int),
{
    if pos == 0 {
        return 0;
    }
    let mut at = pos;
    let mut left = count;
    if bytes[pos - 1] == line_term {
        at -= 1;
    }
    let ghost end = at as int;
    loop
        invariant
            at <= end <= bytes@.len(),
            end == effective_end(bytes@, pos as int, line_term),
            left <= count,
            count_of(bytes@.subrange(at as int, end), line_term) + left == count,
        decreases at,
    {
        let head = slice_subrange(bytes, 0, at);
        match rfind_byte(head, line_term) {
            None => {
                proof {
                    lemma_count_of_absent(head@, line_term);
                    lemma_count_of_split(bytes@, 0, at as int, end, line_term);
                }
                return 0;
            },
            Some(i) => {
                proof {
                    assert(head@.subrange(i + 1, at as int) =~= bytes@.subrange(i + 1, at as int));
                    lemma_count_of_absent(bytes@.subrange(i + 1, at as int), line_term);
                    lemma_count_of_split(bytes@, i + 1, at as int, end, line_term);
                    lemma_count_of_split(bytes@, i as int, i + 1, end, line_term);
                    assert(bytes@.subrange(i as int, i + 1) =~= seq![line_term]);
                    assert(seq![line_term].drop_last() =~= Seq::<u8>::empty());
                    assert(count_of(seq![line_term], line_term) == 1) by {
                        reveal_with_fuel(count_of, 2);
                    }
                    assert(head@[i as int] == bytes@[i as int]);
                }
                if left == 0 {
                    return i + 1;
                } else if i == 0 {
                    return 0;
                }
                left -= 1;
                at = i;
            },
        }
    }
}

/// How many terminators `bytes` holds.
pub fn count(bytes: &[u8], line_term: u8) -> (n: u64)
    ensures
        n == count_of(bytes@, line_term),
{
    count_byte(bytes, line_term) as u64
}

/// Where the line begins that holds the byte before offset `at`: right
/// after the last terminator before `at`, or at 0.
pub open spec fn line_start_at(bytes: Seq<u8>, line_term: u8, at: int) -> int
    decreases at,
{
    if at <= 0 {
        0
    } else if bytes[at - 1] == line_term {
        at
    } else {
        line_start_at(bytes, line_term, at - 1)
    }
}

/// Where the line ends that holds offset `at`: right after the first
/// terminator at or after `at`, or with `bytes`.
pub open spec fn line_end_at(bytes: Seq<u8>, line_term: u8, at: int) -> int
    decreases bytes.len() - at,
{
    if at >= bytes.len() {
        bytes.len() as int
    } else if bytes[at] == line_term {
        at + 1
    } else {
        line_end_at(bytes, line_term, at + 1)
    }
}

/// A line starts at `start` where a terminator stands right before `start`
/// and none between `start` and `at`.
pub proof fn lemma_line_start_at(bytes: Seq<u8>, line_term: u8, at: int, start: int)
    requires
        0 <= start <= at <= bytes.len(),
        start > 0 ==> bytes[start - 1] == line_term,
        absent(bytes.subrange(start, at), line_term),
    ensures
        line_start_at(bytes, line_term, at) == start,
    decreases at - start,
{
    if at > start {
        assert(bytes.subrange(start, at)[at - 1 - start] == bytes[at - 1]);
        let shorter = bytes.subrange(start, at - 1);
        assert forall|i: int| 0 <= i < shorter.len() implies shorter[i] != line_term by {
            assert(bytes.subrange(start, at)[i] == bytes[start + i]);
        }
        lemma_line_start_at(bytes, line_term, at - 1, start);
    }
}

/// A line ends at `end` where the first terminator from `at` on stands
/// right before `end`, or where there is none and `bytes` ends there.
pub proof fn lemma_line_end_at(bytes: Seq<u8>, line_term: u8, at: int, end: int)
    requires
        0 <= at <= end <= bytes.len(),
        if end > at && bytes[end - 1] == line_term {
            absent(bytes.subrange(at, end - 1), line_term)
        } else {
            end == bytes.len() && absent(bytes.subrange(at, end), line_term)
        },
    ensures
        line_end_at(bytes, line_term, at) == end,
    decreases end - at,
{
    if at < bytes.len() {
        if end > at && bytes[end - 1] == line_term {
            if at < end - 1 {
                assert(bytes.subrange(at, end - 1)[0] == bytes[at]);
                let shorter = bytes.subrange(at + 1, end - 1);
                assert forall|i: int| 0 <= i < shorter.len() implies shorter[i] != line_term by {
                    assert(bytes.subrange(at, end - 1)[i + 1] == bytes[at + 1 + i]);
                }
                lemma_line_end_at(bytes, line_term, at + 1, end);
            }
        } else {
            assert(bytes.subrange(at, end)[0] == bytes[at]);
            let shorter = bytes.subrange(at + 1, end);
            assert forall|i: int| 0 <= i < shorter.len() implies shorter[i] != line_term by {
                assert(bytes.subrange(at, end)[i + 1] == bytes[at + 1 + i]);
            }
            lemma_line_end_at(bytes, line_term, at + 1, end);
        }
    }
}

/// A line that holds offset `at` begins at or before it and ends at or
/// after it, within `bytes`, and behind `at` where `bytes` goes on.
pub proof fn lemma_line_bounds(bytes: Seq<u8>, line_term: u8, at: int)
    requires
        0 <= at <= bytes.len(),
    ensures
        0 <= line_start_at(bytes, line_term, at) <= at,
        at <= line_end_at(bytes, line_term, at) <= bytes.len(),
        at < bytes.len() ==> at < line_end_at(bytes, line_term, at),
{
    lemma_line_start_bounds(bytes, line_term, at);
    lemma_line_end_bounds(bytes, line_term, at);
}

proof fn lemma_line_start_bounds(bytes: Seq<u8>, line_term: u8, at: int)
    requires
        0 <= at <= bytes.len(),
    ensures
        0 <= line_start_at(bytes, line_term, at) <= at,
    decreases at,
{
    if at > 0 && bytes[at - 1] != line_term {
        lemma_line_start_bounds(bytes, line_term, at - 1);
    }
}

proof fn lemma_line_end_bounds(bytes: Seq<u8>, line_term: u8, at: int)
    requires
        0 <= at <= bytes.len(),
    ensures
        at <= line_end_at(bytes, line_term, at) <= bytes.len(),
        at < bytes.len() ==> at < line_end_at(bytes, line_term, at),
    decreases bytes.len() - at,
{
    if at < bytes.len() && bytes[at] != line_term {
        lemma_line_end_bounds(bytes, line_term, at + 1);
    }
}

/// Whether `line` is the line of `bytes` around `range`: it begins right
/// after the last terminator before `range`, or at 0 where there is none,
/// and ends right after the first terminator at or after the end of `range`,
/// or with `bytes` where there is none.
pub open spec fn is_line_around(bytes: Seq<u8>, line_term: u8, range: Match, line: Match) -> bool {
    let start = line.spec_start() as int;
    let end = line.spec_end() as int;
    let from = range.spec_start() as int;
    let to = range.spec_end() as int;
    &&& 0 <= start <= from
    &&& to <= end <= bytes.len()
    &&& start > 0 ==> bytes[start - 1] == line_term
    &&& absent(bytes.subrange(start, from), line_term)
    &&& end > to ==> absent(bytes.subrange(to, end - 1), line_term)
    &&& if end > to && bytes[end - 1] == line_term {
        true
    } else {
        end == bytes.len() && absent(bytes.subrange(to, end), line_term)
    }
}

/// The line of `bytes` that holds `range`, its terminator included where it
/// has one.
pub fn locate(bytes: &[u8], line_term: u8, range: Match) -> (line: Match)
    requires
        range.spec_end() <= bytes@.len(),
    ensures
        is_line_around(bytes@, line_term, range, line),
        line.spec_start() == line_start_at(bytes@, line_term, range.spec_start() as int),
        line.spec_end() == line_end_at(bytes@, line_term, range.spec_end() as int),
{
    let before = slice_subrange(bytes, 0, range.start());
    let line_start = match rfind_byte(before, line_term) {
        None => 0,
        Some(i) => {
            assert(before@.subrange(i + 1, before@.len() as int) =~= bytes@.subrange(
                i + 1,
                range.spec_start() as int,
            ));
            i + 1
        },
    };
    let behind = slice_subrange(bytes, range.end(), bytes.len());
    let line_end = match find_byte(behind, line_term) {
        None => bytes.len(),
        Some(i) => {
            assert(behind@.subrange(0, i as int) =~= bytes@.subrange(
                range.spec_end() as int,
                range.spec_end() + i,
            ));
            range.end() + i + 1
        },
    };
    proof {
        lemma_line_start_at(bytes@, line_term, range.spec_start() as int, line_start as int);
        lemma_line_end_at(bytes@, line_term, range.spec_end() as int, line_end as int);
    }
    Match::new(line_start, line_end)
}

/// `line` without its terminator: without a final terminator byte, and
/// under `\r\n` also without the `\r` before it.
pub open spec fn spec_without_terminator(line: Seq<u8>, line_term: LineTerminator) -> Seq<u8> {
    if line.len() > 0 && line.last() == line_term.spec_as_byte() {
        if line_term.spec_is_crlf() && line.len() > 1 && line[line.len() - 2] == 0x0Du8 {
            line.take(line.len() - 2)
        } else {
            line.take(line.len() - 1)
        }
    } else {
        line
    }
}

/// `line` without its terminator.
pub fn without_terminator<'a>(line: &'a [u8], line_term: LineTerminator) -> (rest: &'a [u8])
    ensures
        rest@ == spec_without_terminator(line@, line_term),
{
    if line_term.is_suffix(line) {
        let mut end = line.len() - 1;
        if line_term.is_crlf() && end > 0 && line[end - 1] == 0x0Du8 {
            end -= 1;
        }
        slice_subrange(line, 0, end)
    } else {
        assert(line@.subrange(0, line@.len() as int) =~= line@);
        slice_subrange(line, 0, line.len())
    }
}

} // verus!
