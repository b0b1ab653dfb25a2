//! The bytes that no match of a pattern can hold.

use crate::matcher::ByteSet;
use crate::pattern::hir::{
    ClassNode,
    HirNode,
    LOOK_END,
    LOOK_END_CRLF,
    LOOK_END_LF,
    LOOK_START,
    LOOK_START_CRLF,
    LOOK_START_LF,
};
use crate::pattern::syntax::{utf8_byte_ranges, utf8_ranges};
use vstd::prelude::*;

verus! {

/// The bytes from `start` to `end`.
pub open spec fn span(start: u8, end: u8) -> Set<u8> {
    Set::new(|byte: u8| start <= byte <= end)
}

/// The first `n` bytes of `lit`.
pub open spec fn literal_bytes(lit: Seq<u8>, n: nat) -> Set<u8>
    decreases n,
{
    if n == 0 || n > lit.len() {
        Set::empty()
    } else {
        literal_bytes(lit, (n - 1) as nat).insert(lit[n - 1])
    }
}

/// The bytes in the first `n` of `ranges`.
pub open spec fn range_bytes(ranges: Seq<(u8, u8)>, n: nat) -> Set<u8>
    decreases n,
{
    if n == 0 || n > ranges.len() {
        Set::empty()
    } else {
        range_bytes(ranges, (n - 1) as nat).union(span(ranges[n - 1].0, ranges[n - 1].1))
    }
}

/// The bytes of the UTF-8 encodings of the characters in the first `n` of
/// `ranges`.
pub open spec fn encoded_bytes(ranges: Seq<(char, char)>, n: nat) -> Set<u8>
    decreases n,
{
    if n == 0 || n > ranges.len() {
        Set::empty()
    } else {
        let encoded = utf8_byte_ranges(ranges[n - 1].0, ranges[n - 1].1);
        encoded_bytes(ranges, (n - 1) as nat).union(range_bytes(encoded, encoded.len()))
    }
}

/// The bytes that an assertion stands for: `\n` for the start and the end
/// of the haystack and of a line, `\r` too for a line that `\r\n` ends,
/// none for the others.
pub open spec fn look_bytes(look: u32) -> Set<u8> {
    if look == LOOK_START || look == LOOK_END || look == LOOK_START_LF || look == LOOK_END_LF {
        Set::empty().insert(0x0Au8)
    } else if look == LOOK_START_CRLF || look == LOOK_END_CRLF {
        Set::empty().insert(0x0Du8).insert(0x0Au8)
    } else {
        Set::empty()
    }
}

/// The bytes that a match of `expr` can hold, and those that its assertions
/// stand for.
pub open spec fn matching_bytes(expr: HirNode) -> Set<u8>
    decreases expr, 0nat,
{
    match expr {
        HirNode::Empty => Set::empty(),
        HirNode::Look(look) => look_bytes(look),
        HirNode::Literal(lit) => literal_bytes(lit@, lit@.len()),
        HirNode::Class(ClassNode::Unicode(ranges)) => encoded_bytes(ranges@, ranges@.len()),
        HirNode::Class(ClassNode::Bytes(ranges)) => range_bytes(ranges@, ranges@.len()),
        HirNode::Repetition { sub, .. } => matching_bytes(*sub),
        HirNode::Capture { sub, .. } => matching_bytes(*sub),
        HirNode::Concat(subs) => members_bytes(subs, subs.len() as nat),
        HirNode::Alternation(subs) => members_bytes(subs, subs.len() as nat),
    }
}

/// `matching_bytes` of the first `n` of `subs`.
pub open spec fn members_bytes(subs: Vec<HirNode>, n: nat) -> Set<u8>
    decreases subs, n,
{
    if n == 0 || n > subs.len() {
        Set::empty()
    } else {
        members_bytes(subs, (n - 1) as nat).union(matching_bytes(subs[n - 1]))
    }
}

/// The bytes that no match of `expr` holds.
pub fn non_matching_bytes(expr: &HirNode) -> (set: ByteSet)
    ensures
        set@ == Set::<u8>::full().difference(matching_bytes(*expr)),
{
    let mut set = ByteSet::full();
    remove_matching_bytes(expr, &mut set);
    set
}

/// Takes the bytes of `ranges` out of `set`.
fn remove_ranges(ranges: &Vec<(u8, u8)>, set: &mut ByteSet)
    ensures
        final(set)@ == old(set)@.difference(range_bytes(ranges@, ranges@.len())),
{
    let mut i: usize = 0;
    assert(set@ =~= old(set)@.difference(range_bytes(ranges@, 0)));
    while i < ranges.len()
        invariant
            i <= ranges.len(),
            set@ == old(set)@.difference(range_bytes(ranges@, i as nat)),
        decreases ranges.len() - i,
    {
        set.remove_all(ranges[i].0, ranges[i].1);
        i += 1;
        assert(set@ =~= old(set)@.difference(range_bytes(ranges@, i as nat)));
    }
}

/// Takes out of `set` the bytes that a match of `expr` can hold.
fn remove_matching_bytes(expr: &HirNode, set: &mut ByteSet)
    ensures
        final(set)@ == old(set)@.difference(matching_bytes(*expr)),
    decreases expr, 1nat,
{
    match expr {
        HirNode::Empty => {
            assert(set@ =~= old(set)@.difference(matching_bytes(*expr)));
        },
        HirNode::Look(look) => {
            let look = *look;
            if look == LOOK_START || look == LOOK_END || look == LOOK_START_LF || look
                == LOOK_END_LF {
                set.remove(0x0Au8);
            } else if look == LOOK_START_CRLF || look == LOOK_END_CRLF {
                set.remove(0x0Du8);
                set.remove(0x0Au8);
            }
            assert(set@ =~= old(set)@.difference(matching_bytes(*expr)));
        },
        HirNode::Literal(lit) => {
            let mut i: usize = 0;
            assert(set@ =~= old(set)@.difference(literal_bytes(lit@, 0)));
            while i < lit.len()
                invariant
                    i <= lit.len(),
                    set@ == old(set)@.difference(literal_bytes(lit@, i as nat)),
                decreases lit.len() - i,
            {
                set.remove(lit[i]);
                i += 1;
                assert(set@ =~= old(set)@.difference(literal_bytes(lit@, i as nat)));
            }
        },
        HirNode::Class(ClassNode::Unicode(ranges)) => {
            let mut i: usize = 0;
            assert(set@ =~= old(set)@.difference(encoded_bytes(ranges@, 0)));
            while i < ranges.len()
                invariant
                    i <= ranges.len(),
                    set@ == old(set)@.difference(encoded_bytes(ranges@, i as nat)),
                decreases ranges.len() - i,
            {
                let encoded = utf8_ranges(ranges[i].0, ranges[i].1);
                remove_ranges(&encoded, set);
                i += 1;
                assert(set@ =~= old(set)@.difference(encoded_bytes(ranges@, i as nat)));
            }
        },
        HirNode::Class(ClassNode::Bytes(ranges)) => {
            remove_ranges(ranges, set);
        },
        HirNode::Repetition { sub, .. } => {
            remove_matching_bytes(sub, set);
        },
        HirNode::Capture { sub, .. } => {
            remove_matching_bytes(sub, set);
        },
        HirNode::Concat(subs) => {
            remove_members_bytes(subs, set, Ghost(*expr));
        },
        HirNode::Alternation(subs) => {
            remove_members_bytes(subs, set, Ghost(*expr));
        },
    }
}

/// `remove_matching_bytes` of each of `subs`, which are the members of
/// `parent`.
fn remove_members_bytes(subs: &Vec<HirNode>, set: &mut ByteSet, Ghost(parent): Ghost<HirNode>)
    requires
        parent == HirNode::Concat(*subs) || parent == HirNode::Alternation(*subs),
    ensures
        final(set)@ == old(set)@.difference(members_bytes(*subs, subs.len() as nat)),
    decreases parent, 0nat,
{
    let mut i: usize = 0;
    assert(set@ =~= old(set)@.difference(members_bytes(*subs, 0)));
    while i < subs.len()
        invariant
            i <= subs.len(),
            parent == HirNode::Concat(*subs) || parent == HirNode::Alternation(*subs),
            set@ == old(set)@.difference(members_bytes(*subs, i as nat)),
        decreases subs.len() - i,
    {
        proof {
            vstd::std_specs::vec::axiom_vec_index_decreases(*subs, i as int);
            if parent is Concat {
                assert(decreases_to!(parent => parent->Concat_0));
            } else {
                assert(decreases_to!(parent => parent->Alternation_0));
            }
        }
        remove_matching_bytes(&subs[i], set);
        i += 1;
        assert(set@ =~= old(set)@.difference(members_bytes(*subs, i as nat)));
    }
}

} // verus!
