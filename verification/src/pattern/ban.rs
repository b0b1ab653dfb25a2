//! Refuses a pattern that asks for a banned byte alone.

use crate::pattern::error::{Error, ErrorKind};
use crate::pattern::hir::{
    byte_ranges_ordered,
    char_ranges_ordered,
    in_byte_ranges,
    in_char_ranges,
    lemma_all_wf,
    ClassNode,
    HirNode,
};
use vstd::prelude::*;

verus! {

/// How many characters `ranges` hold, each counted as often as a range
/// holds it.
pub open spec fn count_chars(ranges: Seq<(char, char)>) -> int
    decreases ranges.len(),
{
    if ranges.len() == 0 {
        0
    } else {
        count_chars(ranges.drop_last()) + (ranges.last().1 as int - ranges.last().0 as int + 1)
    }
}

/// How many bytes `ranges` hold, each counted as often as a range holds it.
pub open spec fn count_bytes(ranges: Seq<(u8, u8)>) -> int
    decreases ranges.len(),
{
    if ranges.len() == 0 {
        0
    } else {
        count_bytes(ranges.drop_last()) + (ranges.last().1 - ranges.last().0 + 1)
    }
}

/// Whether `expr` asks somewhere for `byte` and nothing else: in a literal
/// that holds `byte`, or in a class whose one member is `byte`.
pub open spec fn bans(expr: HirNode, byte: u8) -> bool
    decreases expr, 0nat,
{
    match expr {
        HirNode::Empty | HirNode::Look(_) => false,
        HirNode::Literal(lit) => lit@.contains(byte),
        HirNode::Class(ClassNode::Unicode(ranges)) => count_chars(ranges@) == 1 && in_char_ranges(
            ranges@,
            byte as char,
        ),
        HirNode::Class(ClassNode::Bytes(ranges)) => count_bytes(ranges@) == 1 && in_byte_ranges(
            ranges@,
            byte,
        ),
        HirNode::Repetition { sub, .. } => bans(*sub, byte),
        HirNode::Capture { sub, .. } => bans(*sub, byte),
        HirNode::Concat(subs) => any_bans(subs, subs.len() as nat, byte),
        HirNode::Alternation(subs) => any_bans(subs, subs.len() as nat, byte),
    }
}

/// `bans` of one of the first `n` of `subs`.
pub open spec fn any_bans(subs: Vec<HirNode>, n: nat, byte: u8) -> bool
    decreases subs, n,
{
    if n == 0 || n > subs.len() {
        false
    } else {
        bans(subs[n - 1], byte) || any_bans(subs, (n - 1) as nat, byte)
    }
}

proof fn lemma_count_chars(ranges: Seq<(char, char)>)
    requires
        char_ranges_ordered(ranges),
    ensures
        count_chars(ranges) >= ranges.len(),
        ranges.len() == 1 ==> count_chars(ranges) == ranges[0].1 as int - ranges[0].0 as int + 1,
    decreases ranges.len(),
{
    if ranges.len() > 0 {
        lemma_count_chars(ranges.drop_last());
        assert(ranges.last() == ranges[ranges.len() - 1]);
        if ranges.len() == 1 {
            assert(ranges.drop_last().len() == 0);
        }
    }
}

proof fn lemma_count_bytes(ranges: Seq<(u8, u8)>)
    requires
        byte_ranges_ordered(ranges),
    ensures
        count_bytes(ranges) >= ranges.len(),
        ranges.len() == 1 ==> count_bytes(ranges) == ranges[0].1 - ranges[0].0 + 1,
    decreases ranges.len(),
{
    if ranges.len() > 0 {
        lemma_count_bytes(ranges.drop_last());
        assert(ranges.last() == ranges[ranges.len() - 1]);
        if ranges.len() == 1 {
            assert(ranges.drop_last().len() == 0);
        }
    }
}

/// Whether `bytes` holds `byte`.
pub(crate) fn holds_byte(bytes: &Vec<u8>, byte: u8) -> (yes: bool)
    ensures
        yes == bytes@.contains(byte),
{
    let mut i: usize = 0;
    while i < bytes.len()
        invariant
            i <= bytes.len(),
            forall|j: int| 0 <= j < i ==> bytes@[j] != byte,
        decreases bytes.len() - i,
    {
        if bytes[i] == byte {
            return true;
        }
        i += 1;
    }
    false
}

/// Fails where `expr` can be met only by a match of the single byte `byte`,
/// which is ASCII.
pub fn check(expr: &HirNode, byte: u8) -> (r: Result<(), Error>)
    requires
        byte < 128,
        expr.wf(),
    ensures
        bans(*expr, byte) <==> r is Err,
        r matches Err(err) ==> err.spec_kind() == ErrorKind::Banned(byte),
    decreases expr, 1nat,
{
    match expr {
        HirNode::Empty => {},
        HirNode::Literal(lit) => {
            if holds_byte(lit, byte) {
                return Err(Error::new(ErrorKind::Banned(byte)));
            }
        },
        HirNode::Class(ClassNode::Unicode(ranges)) => {
            proof {
                lemma_count_chars(ranges@);
            }
            if ranges.len() == 1 && ranges[0].0 == ranges[0].1 {
                let ch = byte as char;
                if ranges[0].0 <= ch && ch <= ranges[0].1 {
                    return Err(Error::new(ErrorKind::Banned(byte)));
                }
            }
        },
        HirNode::Class(ClassNode::Bytes(ranges)) => {
            proof {
                lemma_count_bytes(ranges@);
            }
            if ranges.len() == 1 && ranges[0].0 == ranges[0].1 {
                if ranges[0].0 <= byte && byte <= ranges[0].1 {
                    return Err(Error::new(ErrorKind::Banned(byte)));
                }
            }
        },
        HirNode::Look(_) => {},
        HirNode::Repetition { sub, .. } => {
            return check(sub, byte);
        },
        HirNode::Capture { sub, .. } => {
            return check(sub, byte);
        },
        HirNode::Concat(subs) => {
            return check_all(subs, byte, Ghost(*expr));
        },
        HirNode::Alternation(subs) => {
            return check_all(subs, byte, Ghost(*expr));
        },
    }
    Ok(())
}

/// `check` of each of `subs`, which are the members of `parent`.
fn check_all(subs: &Vec<HirNode>, byte: u8, Ghost(parent): Ghost<HirNode>) -> (r: Result<
    (),
    Error,
>)
    requires
        byte < 128,
        parent.wf(),
        parent == HirNode::Concat(*subs) || parent == HirNode::Alternation(*subs),
    ensures
        any_bans(*subs, subs.len() as nat, byte) <==> r is Err,
        r matches Err(err) ==> err.spec_kind() == ErrorKind::Banned(byte),
    decreases parent, 0nat,
{
    let mut i: usize = 0;
    while i < subs.len()
        invariant
            i <= subs.len(),
            byte < 128,
            parent.wf(),
            parent == HirNode::Concat(*subs) || parent == HirNode::Alternation(*subs),
            !any_bans(*subs, i as nat, byte),
        decreases subs.len() - i,
    {
        proof {
            vstd::std_specs::vec::axiom_vec_index_decreases(*subs, i as int);
            if parent is Concat {
                assert(decreases_to!(parent => parent->Concat_0));
            } else {
                assert(decreases_to!(parent => parent->Alternation_0));
            }
            lemma_all_wf(*subs, subs.len() as nat, i as int);
        }
        let one = check(&subs[i], byte);
        if one.is_err() {
            proof {
                lemma_any_bans_from(*subs, (i + 1) as nat, subs.len() as nat, byte);
            }
            return one;
        }
        i += 1;
    }
    Ok(())
}

/// What is banned among the first `n` is banned among the first `m`, for
/// `m` from `n` on.
proof fn lemma_any_bans_from(subs: Vec<HirNode>, n: nat, m: nat, byte: u8)
    requires
        n <= m <= subs.len(),
        any_bans(subs, n, byte),
    ensures
        any_bans(subs, m, byte),
    decreases m - n,
{
    if n < m {
        lemma_any_bans_from(subs, n, (m - 1) as nat, byte);
    }
}

} // verus!
