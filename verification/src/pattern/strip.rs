//! Takes the line terminator out of a pattern, so that no match can hold it.

use crate::matcher::LineTerminator;
use crate::pattern::ban::holds_byte;
use crate::pattern::error::{Error, ErrorKind};
use crate::pattern::hir::{
    all_wf,
    byte_ranges_ordered,
    bytes_but,
    char_ranges_ordered,
    chars_but,
    in_byte_ranges,
    in_char_ranges,
    lemma_all_wf,
    ClassNode,
    HirNode,
};
use crate::pattern::syntax::{
    byte_class_without,
    bytes_without,
    unicode_class_without,
    unicode_without,
};
use vstd::prelude::*;

verus! {

/// Whether a literal or a class of `expr` holds `byte`.
pub open spec fn holds(expr: HirNode, byte: u8) -> bool
    decreases expr, 0nat,
{
    match expr {
        HirNode::Empty | HirNode::Look(_) => false,
        HirNode::Literal(lit) => lit@.contains(byte),
        HirNode::Class(class) => class.holds(byte),
        HirNode::Repetition { sub, .. } => holds(*sub, byte),
        HirNode::Capture { sub, .. } => holds(*sub, byte),
        HirNode::Concat(subs) => any_holds(subs, subs.len() as nat, byte),
        HirNode::Alternation(subs) => any_holds(subs, subs.len() as nat, byte),
    }
}

/// `holds` of one of the first `n` of `subs`.
pub open spec fn any_holds(subs: Vec<HirNode>, n: nat, byte: u8) -> bool
    decreases subs, n,
{
    if n == 0 || n > subs.len() {
        false
    } else {
        holds(subs[n - 1], byte) || any_holds(subs, (n - 1) as nat, byte)
    }
}

/// Whether `byte` cannot be taken out of `expr`: a literal holds it, or a
/// class that has members has none without it.
pub open spec fn cannot_strip(expr: HirNode, byte: u8) -> bool
    decreases expr, 0nat,
{
    match expr {
        HirNode::Empty | HirNode::Look(_) => false,
        HirNode::Literal(lit) => lit@.contains(byte),
        HirNode::Class(ClassNode::Unicode(ranges)) => ranges@.len() > 0 && unicode_class_without(
            ranges@,
            byte as char,
        ).len() == 0,
        HirNode::Class(ClassNode::Bytes(ranges)) => ranges@.len() > 0 && byte_class_without(
            ranges@,
            byte,
        ).len() == 0,
        HirNode::Repetition { sub, .. } => cannot_strip(*sub, byte),
        HirNode::Capture { sub, .. } => cannot_strip(*sub, byte),
        HirNode::Concat(subs) => any_cannot_strip(subs, subs.len() as nat, byte),
        HirNode::Alternation(subs) => any_cannot_strip(subs, subs.len() as nat, byte),
    }
}

/// `cannot_strip` of one of the first `n` of `subs`.
pub open spec fn any_cannot_strip(subs: Vec<HirNode>, n: nat, byte: u8) -> bool
    decreases subs, n,
{
    if n == 0 || n > subs.len() {
        false
    } else {
        cannot_strip(subs[n - 1], byte) || any_cannot_strip(subs, (n - 1) as nat, byte)
    }
}

/// Whether two names of a group are the same.
pub open spec fn same_name(a: Option<String>, b: Option<String>) -> bool {
    match (a, b) {
        (Some(x), Some(y)) => x@ == y@,
        (None, None) => true,
        _ => false,
    }
}

/// Whether `out` is `expr` with `byte` taken out of each class that has
/// members, and like `expr` in all else.
pub open spec fn is_stripped(expr: HirNode, byte: u8, out: HirNode) -> bool
    decreases expr, 0nat,
{
    match expr {
        HirNode::Empty => out is Empty,
        HirNode::Literal(lit) => out matches HirNode::Literal(same) && same@ == lit@,
        HirNode::Class(ClassNode::Unicode(ranges)) => out matches HirNode::Class(
            ClassNode::Unicode(left),
        ) && if ranges@.len() == 0 {
            left@ == ranges@
        } else {
            left@ == unicode_class_without(ranges@, byte as char) && chars_but(
                ranges@,
                byte as char,
                left@,
            )
        },
        HirNode::Class(ClassNode::Bytes(ranges)) => out matches HirNode::Class(
            ClassNode::Bytes(left),
        ) && if ranges@.len() == 0 {
            left@ == ranges@
        } else {
            left@ == byte_class_without(ranges@, byte) && bytes_but(ranges@, byte, left@)
        },
        HirNode::Look(look) => out matches HirNode::Look(same) && same == look,
        HirNode::Repetition { min, max, greedy, sub } => out matches HirNode::Repetition {
            min: min2,
            max: max2,
            greedy: greedy2,
            sub: sub2,
        } && min2 == min && max2 == max && greedy2 == greedy && is_stripped(*sub, byte, *sub2),
        HirNode::Capture { index, name, sub } => out matches HirNode::Capture {
            index: index2,
            name: name2,
            sub: sub2,
        } && index2 == index && same_name(name, name2) && is_stripped(*sub, byte, *sub2),
        HirNode::Concat(subs) => out matches HirNode::Concat(outs) && outs.len() == subs.len()
            && all_stripped(subs, outs, subs.len() as nat, byte),
        HirNode::Alternation(subs) => out matches HirNode::Alternation(outs) && outs.len()
            == subs.len() && all_stripped(subs, outs, subs.len() as nat, byte),
    }
}

/// `is_stripped` of each of the first `n` of `subs` and of `outs`.
pub open spec fn all_stripped(subs: Vec<HirNode>, outs: Vec<HirNode>, n: nat, byte: u8) -> bool
    decreases subs, n,
{
    if n == 0 || n > subs.len() || n > outs.len() {
        true
    } else {
        is_stripped(subs[n - 1], byte, outs[n - 1]) && all_stripped(
            subs,
            outs,
            (n - 1) as nat,
            byte,
        )
    }
}

/// `char::to_string`: the text that holds `c` alone.
#[verifier::external_body]
fn char_text(c: char) -> (text: String)
    ensures
        text@ == seq![c],
{
    c.to_string()
}

/// A copy of `bytes`.
pub(crate) fn copy_bytes(bytes: &Vec<u8>) -> (copy: Vec<u8>)
    ensures
        copy@ == bytes@,
{
    let mut copy: Vec<u8> = Vec::new();
    let mut i: usize = 0;
    while i < bytes.len()
        invariant
            i <= bytes.len(),
            copy@ == bytes@.take(i as int),
        decreases bytes.len() - i,
    {
        copy.push(bytes[i]);
        i += 1;
        assert(bytes@.take(i as int) =~= bytes@.take(i - 1).push(bytes@[i - 1]));
    }
    assert(bytes@.take(bytes@.len() as int) =~= bytes@);
    copy
}

/// A copy of the pairs of `ranges`.
fn copy_char_ranges(ranges: &Vec<(char, char)>) -> (copy: Vec<(char, char)>)
    ensures
        copy@ == ranges@,
{
    let mut copy: Vec<(char, char)> = Vec::new();
    let mut i: usize = 0;
    while i < ranges.len()
        invariant
            i <= ranges.len(),
            copy@ == ranges@.take(i as int),
        decreases ranges.len() - i,
    {
        copy.push(ranges[i]);
        i += 1;
        assert(ranges@.take(i as int) =~= ranges@.take(i - 1).push(ranges@[i - 1]));
    }
    assert(ranges@.take(ranges@.len() as int) =~= ranges@);
    copy
}

/// A copy of the pairs of `ranges`.
fn copy_byte_ranges(ranges: &Vec<(u8, u8)>) -> (copy: Vec<(u8, u8)>)
    ensures
        copy@ == ranges@,
{
    let mut copy: Vec<(u8, u8)> = Vec::new();
    let mut i: usize = 0;
    while i < ranges.len()
        invariant
            i <= ranges.len(),
            copy@ == ranges@.take(i as int),
        decreases ranges.len() - i,
    {
        copy.push(ranges[i]);
        i += 1;
        assert(ranges@.take(i as int) =~= ranges@.take(i - 1).push(ranges@[i - 1]));
    }
    assert(ranges@.take(ranges@.len() as int) =~= ranges@);
    copy
}

/// A copy of the name of a group.
fn copy_name(name: &Option<String>) -> (copy: Option<String>)
    ensures
        same_name(*name, copy),
{
    match name {
        Some(text) => Some(text.clone()),
        None => None,
    }
}

/// The error for a pattern out of which `byte` cannot be taken.
fn not_allowed(byte: u8) -> (err: Error)
    requires
        byte < 128,
    ensures
        err.spec_kind() matches ErrorKind::NotAllowed(lit) && lit@ == seq![byte as char],
{
    Error::new(ErrorKind::NotAllowed(char_text(byte as char)))
}

/// What `strip_from_match_ascii` owes for `expr` and `byte`.
pub open spec fn strips(expr: HirNode, byte: u8, r: Result<HirNode, Error>) -> bool {
    if byte >= 128 {
        r matches Err(err) && err.spec_kind() == ErrorKind::InvalidLineTerminator(byte)
    } else if cannot_strip(expr, byte) {
        r matches Err(err) && (err.spec_kind() matches ErrorKind::NotAllowed(lit) && lit@
            == seq![byte as char])
    } else {
        r matches Ok(out) && out.wf() && is_stripped(expr, byte, out) && !holds(out, byte)
    }
}

/// What `strip_from_match` owes for `expr` and `line_term`: for a single
/// byte what `strips` says, and for `\r\n` the same for `\r` and then, on
/// what came of it, for `\n`. What comes out holds no byte of the
/// terminator.
pub open spec fn stripped_for(
    expr: HirNode,
    line_term: LineTerminator,
    r: Result<HirNode, Error>,
) -> bool {
    &&& !line_term.spec_is_crlf() ==> strips(expr, line_term.spec_as_byte(), r)
    &&& line_term.spec_is_crlf() ==> {
        ||| r is Err && strips(expr, 0x0Du8, r)
        ||| exists|mid: HirNode| #[trigger]
            strips(expr, 0x0Du8, Ok(mid)) && strips(mid, 0x0Au8, r)
    }
    &&& r matches Ok(out) ==> out.wf() && !holds(out, line_term.spec_as_byte()) && (
    line_term.spec_is_crlf() ==> !holds(out, 0x0Du8))
}

/// A pattern like `expr` that cannot match the terminator `line_term`:
/// neither its byte nor, for `\r\n`, the byte `\r`.
pub fn strip_from_match(expr: &HirNode, line_term: LineTerminator) -> (r: Result<
    HirNode,
    Error,
>)
    requires
        expr.wf(),
    ensures
        stripped_for(*expr, line_term, r),
{
    if line_term.is_crlf() {
        let first = strip_from_match_ascii(expr, 0x0Du8);
        match first {
            Err(err) => Err(err),
            Ok(mid) => {
                let second = strip_from_match_ascii(&mid, 0x0Au8);
                proof {
                    assert(strips(*expr, 0x0Du8, Ok(mid)));
                    if second is Ok {
                        lemma_stripped_keeps_out(mid, 0x0Au8, second->Ok_0, 0x0Du8);
                    }
                }
                second
            },
        }
    } else {
        strip_from_match_ascii(expr, line_term.as_byte())
    }
}

/// A pattern like `expr` that cannot match `byte`, which has to be ASCII.
pub fn strip_from_match_ascii(expr: &HirNode, byte: u8) -> (r: Result<HirNode, Error>)
    requires
        expr.wf(),
    ensures
        strips(*expr, byte, r),
{
    if byte >= 128 {
        return Err(Error::new(ErrorKind::InvalidLineTerminator(byte)));
    }
    strip_ascii(expr, byte)
}

fn strip_ascii(expr: &HirNode, byte: u8) -> (r: Result<HirNode, Error>)
    requires
        expr.wf(),
        byte < 128,
    ensures
        strips(*expr, byte, r),
    decreases expr, 1nat,
{
    match expr {
        HirNode::Empty => Ok(HirNode::Empty),
        HirNode::Literal(lit) => {
            if holds_byte(lit, byte) {
                return Err(not_allowed(byte));
            }
            Ok(HirNode::Literal(copy_bytes(lit)))
        },
        HirNode::Class(ClassNode::Unicode(ranges)) => {
            if ranges.len() == 0 {
                return Ok(HirNode::Class(ClassNode::Unicode(copy_char_ranges(ranges))));
            }
            let left = unicode_without(ranges, byte as char);
            if left.len() == 0 {
                return Err(not_allowed(byte));
            }
            Ok(HirNode::Class(ClassNode::Unicode(left)))
        },
        HirNode::Class(ClassNode::Bytes(ranges)) => {
            if ranges.len() == 0 {
                return Ok(HirNode::Class(ClassNode::Bytes(copy_byte_ranges(ranges))));
            }
            let left = bytes_without(ranges, byte);
            if left.len() == 0 {
                return Err(not_allowed(byte));
            }
            Ok(HirNode::Class(ClassNode::Bytes(left)))
        },
        HirNode::Look(look) => Ok(HirNode::Look(*look)),
        HirNode::Repetition { min, max, greedy, sub } => {
            let inner = strip_ascii(sub, byte)?;
            Ok(HirNode::Repetition { min: *min, max: *max, greedy: *greedy, sub: Box::new(inner) })
        },
        HirNode::Capture { index, name, sub } => {
            let inner = strip_ascii(sub, byte)?;
            Ok(HirNode::Capture { index: *index, name: copy_name(name), sub: Box::new(inner) })
        },
        HirNode::Concat(subs) => {
            let outs = strip_all(subs, byte, Ghost(*expr))?;
            Ok(HirNode::Concat(outs))
        },
        HirNode::Alternation(subs) => {
            let outs = strip_all(subs, byte, Ghost(*expr))?;
            Ok(HirNode::Alternation(outs))
        },
    }
}

/// `strip_ascii` of each of `subs`, which are the members of `parent`.
fn strip_all(subs: &Vec<HirNode>, byte: u8, Ghost(parent): Ghost<HirNode>) -> (r: Result<
    Vec<HirNode>,
    Error,
>)
    requires
        byte < 128,
        parent.wf(),
        parent == HirNode::Concat(*subs) || parent == HirNode::Alternation(*subs),
    ensures
        any_cannot_strip(*subs, subs.len() as nat, byte) ==> (r matches Err(err) && (
        err.spec_kind() matches ErrorKind::NotAllowed(lit) && lit@ == seq![byte as char])),
        !any_cannot_strip(*subs, subs.len() as nat, byte) ==> (r matches Ok(outs) && outs.len()
            == subs.len() && all_wf(outs, outs.len() as nat) && all_stripped(
            *subs,
            outs,
            subs.len() as nat,
            byte,
        ) && !any_holds(outs, outs.len() as nat, byte)),
    decreases parent, 0nat,
{
    let mut outs: Vec<HirNode> = Vec::new();
    let mut i: usize = 0;
    while i < subs.len()
        invariant
            i <= subs.len(),
            byte < 128,
            parent.wf(),
            parent == HirNode::Concat(*subs) || parent == HirNode::Alternation(*subs),
            outs.len() == i,
            !any_cannot_strip(*subs, i as nat, byte),
            all_wf(outs, i as nat),
            all_stripped(*subs, outs, i as nat, byte),
            !any_holds(outs, i as nat, byte),
        decreases subs.len() - i,
    {
        proof {
            vstd::std_specs::vec::axiom_vec_index_decreases(*subs, i as int);
            if parent is Concat {
                assert(decreases_to!(parent => parent->Concat_0));
            } else {
                assert(decreases_to!(parent => parent->Alternation_0));
            }
            lemma_all_wf(*subs, subs.len() as nat, i as int);
        }
        match strip_ascii(&subs[i], byte) {
            Err(err) => {
                proof {
                    lemma_any_cannot_strip_from(*subs, (i + 1) as nat, subs.len() as nat, byte);
                }
                return Err(err);
            },
            Ok(out) => {
                let ghost before = outs;
                outs.push(out);
                proof {
                    lemma_push_keeps(*subs, before, outs, i as nat, byte);
                }
                i += 1;
            },
        }
    }
    Ok(outs)
}

/// What cannot be stripped among the first `n` cannot among the first `m`,
/// for `m` from `n` on.
proof fn lemma_any_cannot_strip_from(subs: Vec<HirNode>, n: nat, m: nat, byte: u8)
    requires
        n <= m <= subs.len(),
        any_cannot_strip(subs, n, byte),
    ensures
        any_cannot_strip(subs, m, byte),
    decreases m - n,
{
    if n < m {
        lemma_any_cannot_strip_from(subs, n, (m - 1) as nat, byte);
    }
}

/// What holds of the first `n` of `before` holds of the first `n` of
/// `after`, which is `before` with one more member.
proof fn lemma_push_keeps(
    subs: Vec<HirNode>,
    before: Vec<HirNode>,
    after: Vec<HirNode>,
    n: nat,
    byte: u8,
)
    requires
        n <= before.len(),
        n <= subs.len(),
        after@.len() == before@.len() + 1,
        forall|j: int| 0 <= j < before.len() ==> after[j] == before[j],
    ensures
        all_wf(after, n) == all_wf(before, n),
        all_stripped(subs, after, n, byte) == all_stripped(subs, before, n, byte),
        any_holds(after, n, byte) == any_holds(before, n, byte),
    decreases n,
{
    if n > 0 {
        lemma_push_keeps(subs, before, after, (n - 1) as nat, byte);
    }
}

/// Taking `byte` out of a pattern puts no other byte in: what `expr` does
/// not hold, `out` does not hold.
pub proof fn lemma_stripped_keeps_out(expr: HirNode, byte: u8, out: HirNode, other: u8)
    requires
        byte < 128,
        other < 128,
        is_stripped(expr, byte, out),
        !cannot_strip(expr, byte),
        !holds(expr, other),
    ensures
        !holds(out, other),
    decreases expr, 1nat,
{
    match expr {
        HirNode::Repetition { sub, .. } => {
            lemma_stripped_keeps_out(*sub, byte, *out->Repetition_sub, other);
        },
        HirNode::Capture { sub, .. } => {
            lemma_stripped_keeps_out(*sub, byte, *out->Capture_sub, other);
        },
        HirNode::Concat(subs) => {
            lemma_all_stripped_keep_out(subs, out->Concat_0, subs.len() as nat, byte, other);
        },
        HirNode::Alternation(subs) => {
            lemma_all_stripped_keep_out(subs, out->Alternation_0, subs.len() as nat, byte, other);
        },
        _ => {},
    }
}

proof fn lemma_all_stripped_keep_out(
    subs: Vec<HirNode>,
    outs: Vec<HirNode>,
    n: nat,
    byte: u8,
    other: u8,
)
    requires
        byte < 128,
        other < 128,
        n <= subs.len(),
        n <= outs.len(),
        all_stripped(subs, outs, n, byte),
        !any_cannot_strip(subs, n, byte),
        !any_holds(subs, n, other),
    ensures
        !any_holds(outs, n, other),
    decreases subs, n,
{
    if n > 0 {
        lemma_all_stripped_keep_out(subs, outs, (n - 1) as nat, byte, other);
        lemma_stripped_keeps_out(subs[n - 1], byte, outs[n - 1], other);
    }
}

} // verus!
