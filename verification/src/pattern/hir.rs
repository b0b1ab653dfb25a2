//! A pattern in its translated form, as far as this crate reads and changes
//! it.

use vstd::prelude::*;

verus! {

/// A set of characters or of bytes, as ranges with both ends included.
pub enum ClassNode {
    /// Ranges of Unicode scalar values.
    Unicode(Vec<(char, char)>),
    /// Ranges of bytes.
    Bytes(Vec<(u8, u8)>),
}

/// A translated pattern.
pub enum HirNode {
    /// Matches the empty string.
    Empty,
    /// Matches exactly these bytes.
    Literal(Vec<u8>),
    /// Matches one member of the class.
    Class(ClassNode),
    /// An assertion about what stands around a position; the number names
    /// the assertion and is one of the `LOOK_` constants.
    Look(u32),
    /// Matches `sub` from `min` to `max` times.
    Repetition { min: u32, max: Option<u32>, greedy: bool, sub: Box<HirNode> },
    /// A group that records what `sub` matched.
    Capture { index: u32, name: Option<String>, sub: Box<HirNode> },
    /// Matches its members one after the other.
    Concat(Vec<HirNode>),
    /// Matches one of its members.
    Alternation(Vec<HirNode>),
}

/// The start of the haystack.
pub const LOOK_START: u32 = 1;

/// The end of the haystack.
pub const LOOK_END: u32 = 2;

/// The start of a line that `\n` ends.
pub const LOOK_START_LF: u32 = 4;

/// The end of a line that `\n` ends.
pub const LOOK_END_LF: u32 = 8;

/// The start of a line that `\r\n` ends.
pub const LOOK_START_CRLF: u32 = 16;

/// The end of a line that `\r\n` ends.
pub const LOOK_END_CRLF: u32 = 32;

/// A Unicode word boundary.
pub const LOOK_WORD_UNICODE: u32 = 256;

/// No Unicode word boundary.
pub const LOOK_WORD_UNICODE_NEGATE: u32 = 512;

/// The start of a Unicode word.
pub const LOOK_WORD_START_UNICODE: u32 = 4096;

/// The end of a Unicode word.
pub const LOOK_WORD_END_UNICODE: u32 = 8192;

/// No Unicode word character before.
pub const LOOK_WORD_START_HALF_UNICODE: u32 = 65536;

/// No Unicode word character behind.
pub const LOOK_WORD_END_HALF_UNICODE: u32 = 131072;

/// The largest number that names an assertion.
pub const LOOK_LAST: u32 = 131072;

/// Whether `look` names an assertion: it is a power of two up to
/// `LOOK_LAST`.
pub open spec fn is_look(look: u32) -> bool {
    0 < look <= LOOK_LAST && look & ((look - 1) as u32) == 0
}

/// Whether `c` lies in one of `ranges`.
pub open spec fn in_char_ranges(ranges: Seq<(char, char)>, c: char) -> bool {
    exists|i: int| 0 <= i < ranges.len() && (#[trigger] ranges[i]).0 <= c <= ranges[i].1
}

/// Whether `b` lies in one of `ranges`.
pub open spec fn in_byte_ranges(ranges: Seq<(u8, u8)>, b: u8) -> bool {
    exists|i: int| 0 <= i < ranges.len() && (#[trigger] ranges[i]).0 <= b <= ranges[i].1
}

/// Whether each range of `ranges` begins at or before its end.
pub open spec fn char_ranges_ordered(ranges: Seq<(char, char)>) -> bool {
    forall|i: int| 0 <= i < ranges.len() ==> (#[trigger] ranges[i]).0 <= ranges[i].1
}

/// Whether each range of `ranges` begins at or before its end.
pub open spec fn byte_ranges_ordered(ranges: Seq<(u8, u8)>) -> bool {
    forall|i: int| 0 <= i < ranges.len() ==> (#[trigger] ranges[i]).0 <= ranges[i].1
}

/// Whether `left` holds the characters of `ranges` but `c`.
pub open spec fn chars_but(ranges: Seq<(char, char)>, c: char, left: Seq<(char, char)>) -> bool {
    forall|x: char| in_char_ranges(left, x) <==> in_char_ranges(ranges, x) && x != c
}

/// Whether `left` holds the bytes of `ranges` but `b`.
pub open spec fn bytes_but(ranges: Seq<(u8, u8)>, b: u8, left: Seq<(u8, u8)>) -> bool {
    forall|x: u8| in_byte_ranges(left, x) <==> in_byte_ranges(ranges, x) && x != b
}

impl ClassNode {
    /// Whether each range begins at or before its end.
    pub open spec fn wf(&self) -> bool {
        match self {
            ClassNode::Unicode(ranges) => char_ranges_ordered(ranges@),
            ClassNode::Bytes(ranges) => byte_ranges_ordered(ranges@),
        }
    }

    /// Whether the byte `byte`, which is ASCII, is a member.
    pub open spec fn holds(&self, byte: u8) -> bool {
        match self {
            ClassNode::Unicode(ranges) => in_char_ranges(ranges@, byte as char),
            ClassNode::Bytes(ranges) => in_byte_ranges(ranges@, byte),
        }
    }
}

impl HirNode {
    /// Whether the ranges of each class are in order and each assertion has
    /// a number that names one.
    pub open spec fn wf(&self) -> bool
        decreases self, 0nat,
    {
        match self {
            HirNode::Empty | HirNode::Literal(_) => true,
            HirNode::Class(class) => class.wf(),
            HirNode::Look(look) => is_look(*look),
            HirNode::Repetition { sub, .. } => sub.wf(),
            HirNode::Capture { sub, .. } => sub.wf(),
            HirNode::Concat(subs) => all_wf(*subs, subs.len() as nat),
            HirNode::Alternation(subs) => all_wf(*subs, subs.len() as nat),
        }
    }
}

/// Whether the assertion with the number `look` stands somewhere in `expr`.
pub open spec fn has_look(expr: HirNode, look: u32) -> bool
    decreases expr, 0nat,
{
    match expr {
        HirNode::Empty | HirNode::Literal(_) | HirNode::Class(_) => false,
        HirNode::Look(found) => found == look,
        HirNode::Repetition { sub, .. } => has_look(*sub, look),
        HirNode::Capture { sub, .. } => has_look(*sub, look),
        HirNode::Concat(subs) => any_has_look(subs, subs.len() as nat, look),
        HirNode::Alternation(subs) => any_has_look(subs, subs.len() as nat, look),
    }
}

/// `has_look` of one of the first `n` of `subs`.
pub open spec fn any_has_look(subs: Vec<HirNode>, n: nat, look: u32) -> bool
    decreases subs, n,
{
    if n == 0 || n > subs.len() {
        false
    } else {
        has_look(subs[n - 1], look) || any_has_look(subs, (n - 1) as nat, look)
    }
}

/// Whether the first `n` of `subs` are well formed.
pub open spec fn all_wf(subs: Vec<HirNode>, n: nat) -> bool
    decreases subs, n,
{
    if n == 0 || n > subs.len() {
        true
    } else {
        subs[n - 1].wf() && all_wf(subs, (n - 1) as nat)
    }
}

/// Each of the first `n` of `subs` is well formed where all of them are.
pub proof fn lemma_all_wf(subs: Vec<HirNode>, n: nat, i: int)
    requires
        all_wf(subs, n),
        0 <= i < n <= subs.len(),
    ensures
        subs[i].wf(),
    decreases n,
{
    if i < n - 1 {
        lemma_all_wf(subs, (n - 1) as nat, i);
    }
}

} // verus!
