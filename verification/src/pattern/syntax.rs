//! The calls into `regex-syntax`: parsing, translating, and the conversions
//! between its trees and the trees of this crate.

use crate::pattern::ast::{ItemNode, Node, SetNode};
use crate::pattern::hir as form;
use crate::pattern::hir::HirNode;
use regex_syntax::ast;
use regex_syntax::ast::{Ast, ClassSet, ClassSetItem};
use regex_syntax::hir;
use regex_syntax::hir::{Hir, HirKind};
use vstd::prelude::*;

verus! {

/// `regex_syntax::ast::Ast`, the syntax tree of a pattern.
#[verifier::external_type_specification]
#[verifier::external_body]
pub struct ExAst(ast::Ast);

/// `regex_syntax::ast::ClassSet`, what stands between the brackets of a class.
#[verifier::external_type_specification]
#[verifier::external_body]
pub struct ExClassSet(ast::ClassSet);

/// `regex_syntax::ast::ClassSetItem`, one member of a bracketed class.
#[verifier::external_type_specification]
#[verifier::external_body]
pub struct ExClassSetItem(ast::ClassSetItem);

/// `regex_syntax::hir::Hir`, a translated pattern.
#[verifier::external_type_specification]
#[verifier::external_body]
pub struct ExHir(hir::Hir);

/// `regex_syntax::hir::Class`, a set of characters or of bytes.
#[verifier::external_type_specification]
#[verifier::external_body]
pub struct ExClass(hir::Class);

/// Whether `c` has a meaning of its own in a pattern.
pub open spec fn is_meta_character(c: char) -> bool {
    c == '\\' || c == '.' || c == '+' || c == '*' || c == '?' || c == '(' || c == ')' || c == '|'
        || c == '[' || c == ']' || c == '{' || c == '}' || c == '^' || c == '$' || c == '#' || c
        == '&' || c == '-' || c == '~'
}

/// `text` with a backslash before each character that has a meaning of its
/// own in a pattern.
pub open spec fn escaped(text: Seq<char>) -> Seq<char>
    decreases text.len(),
{
    if text.len() == 0 {
        Seq::empty()
    } else if is_meta_character(text.last()) {
        escaped(text.drop_last()).push('\\').push(text.last())
    } else {
        escaped(text.drop_last()).push(text.last())
    }
}

/// `regex_syntax::escape`: `text` with a backslash before each of the
/// characters that `regex_syntax::is_meta_character` names.
#[verifier::external_body]
pub(crate) fn escape(text: &str) -> (quoted: String)
    ensures
        quoted@ == escaped(text@),
{
    regex_syntax::escape(text)
}

/// The syntax tree of `pattern`, or what its syntax error says.
pub uninterp spec fn parsed(
    pattern: Seq<char>,
    nest_limit: u32,
    octal: bool,
    ignore_whitespace: bool,
) -> Result<ast::Ast, Seq<char>>;

/// `regex_syntax::ast::parse::Parser::parse`, with a parser built for the
/// three options; an error comes as its `Display`.
#[verifier::external_body]
pub(crate) fn parse(pattern: &str, nest_limit: u32, octal: bool, ignore_whitespace: bool) -> (r:
    Result<ast::Ast, String>)
    ensures
        parsed(pattern@, nest_limit, octal, ignore_whitespace) == match r {
            Ok(ast) => Ok::<ast::Ast, Seq<char>>(ast),
            Err(text) => Err::<ast::Ast, Seq<char>>(text@),
        },
{
    ast::parse::ParserBuilder::new()
        .nest_limit(nest_limit)
        .octal(octal)
        .ignore_whitespace(ignore_whitespace)
        .build()
        .parse(pattern)
        .map_err(|err| err.to_string())
}

/// The tree of this crate that stands for `ast`.
pub uninterp spec fn ast_view(ast: ast::Ast) -> Node;

/// Tells the variants of `regex_syntax::ast::Ast` without a pattern inside
/// them apart.
#[verifier::external_body]
fn ast_leaf(ast: &Ast) -> Option<Node> {
    match ast {
        Ast::Empty(_) => Some(Node::Empty),
        Ast::Flags(_) => Some(Node::Flags),
        Ast::Dot(_) => Some(Node::Dot),
        Ast::Assertion(_) => Some(Node::Assertion),
        Ast::ClassUnicode(_) => Some(Node::ClassUnicode),
        Ast::ClassPerl(_) => Some(Node::ClassPerl),
        Ast::Literal(x) => Some(Node::Literal(x.c)),
        _ => None,
    }
}

/// Tells the variants of `regex_syntax::ast::Ast` apart and moves what the
/// analysis reads into a tree of this crate: of a literal its character, of
/// a bracketed class its set, of the others the patterns inside them.
#[verifier::external_body]
pub(crate) fn ast_tree(ast: &Ast) -> (made: Node)
    ensures
        made == ast_view(*ast),
{
    match ast {
        Ast::ClassBracketed(x) => Node::ClassBracketed(class_set_tree(&x.kind)),
        Ast::Repetition(x) => Node::Repetition(Box::new(ast_tree(&x.ast))),
        Ast::Group(x) => Node::Group(Box::new(ast_tree(&x.ast))),
        Ast::Alternation(x) => Node::Alternation(x.asts.iter().map(ast_tree).collect()),
        Ast::Concat(x) => Node::Concat(x.asts.iter().map(ast_tree).collect()),
        leaf => ast_leaf(leaf).unwrap_or(Node::Empty),
    }
}

/// Tells the variants of `regex_syntax::ast::ClassSet` apart.
#[verifier::external_body]
fn class_set_tree(set: &ClassSet) -> SetNode {
    match set {
        ClassSet::Item(item) => SetNode::Item(class_item_tree(item)),
        ClassSet::BinaryOp(x) => {
            SetNode::BinaryOp(Box::new(class_set_tree(&x.lhs)), Box::new(class_set_tree(&x.rhs)))
        },
    }
}

/// Tells the variants of `regex_syntax::ast::ClassSetItem` without an item
/// inside them apart and moves the characters of literals and ranges over.
#[verifier::external_body]
fn class_item_leaf(item: &ClassSetItem) -> Option<ItemNode> {
    match item {
        ClassSetItem::Empty(_) => Some(ItemNode::Empty),
        ClassSetItem::Literal(x) => Some(ItemNode::Literal(x.c)),
        ClassSetItem::Range(x) => Some(ItemNode::Range(x.start.c, x.end.c)),
        ClassSetItem::Ascii(_) => Some(ItemNode::Ascii),
        ClassSetItem::Unicode(_) => Some(ItemNode::Unicode),
        ClassSetItem::Perl(_) => Some(ItemNode::Perl),
        _ => None,
    }
}

/// Tells the variants of `regex_syntax::ast::ClassSetItem` apart.
#[verifier::external_body]
fn class_item_tree(item: &ClassSetItem) -> ItemNode {
    match item {
        ClassSetItem::Bracketed(x) => ItemNode::Bracketed(Box::new(class_set_tree(&x.kind))),
        ClassSetItem::Union(x) => ItemNode::Union(x.items.iter().map(class_item_tree).collect()),
        leaf => class_item_leaf(leaf).unwrap_or(ItemNode::Empty),
    }
}

/// How a syntax tree is translated.
#[derive(Clone, Copy, Debug, PartialEq, Eq, Structural)]
pub struct TranslateFlags {
    pub case_insensitive: bool,
    pub multi_line: bool,
    pub dot_matches_new_line: bool,
    pub crlf: bool,
    pub swap_greed: bool,
    pub unicode: bool,
}

/// The translated form of `ast`, which is the syntax tree of `pattern`, or
/// what the translation error says.
pub uninterp spec fn translated(pattern: Seq<char>, ast: ast::Ast, flags: TranslateFlags) -> Result<
    hir::Hir,
    Seq<char>,
>;

/// `regex_syntax::hir::translate::Translator::translate`, with a translator
/// built for `flags` that does not ask for matches to be valid UTF-8; an
/// error comes as its `Display`.
#[verifier::external_body]
pub(crate) fn translate(pattern: &str, ast: &ast::Ast, flags: TranslateFlags) -> (r: Result<
    hir::Hir,
    String,
>)
    ensures
        translated(pattern@, *ast, flags) == match r {
            Ok(hir) => Ok::<hir::Hir, Seq<char>>(hir),
            Err(text) => Err::<hir::Hir, Seq<char>>(text@),
        },
{
    hir::translate::TranslatorBuilder::new()
        .utf8(false)
        .case_insensitive(flags.case_insensitive)
        .multi_line(flags.multi_line)
        .dot_matches_new_line(flags.dot_matches_new_line)
        .crlf(flags.crlf)
        .swap_greed(flags.swap_greed)
        .unicode(flags.unicode)
        .build()
        .translate(pattern, ast)
        .map_err(|err| err.to_string())
}

/// The pattern of this crate that stands for `hir`.
pub uninterp spec fn hir_view(hir: hir::Hir) -> HirNode;

/// Tells the two variants of `regex_syntax::hir::Class` apart and moves the
/// ends of each range over.
#[verifier::external_body]
fn class_tree(class: &hir::Class) -> (made: form::ClassNode)
    ensures
        made.wf(),
{
    match class {
        hir::Class::Unicode(x) => form::ClassNode::Unicode(
            x.ranges().iter().map(|r| (r.start(), r.end())).collect(),
        ),
        hir::Class::Bytes(x) => form::ClassNode::Bytes(
            x.ranges().iter().map(|r| (r.start(), r.end())).collect(),
        ),
    }
}

/// Tells the variants of `regex_syntax::hir::HirKind` without a pattern
/// inside them apart: a literal gives its bytes, a class its ranges, an
/// assertion the number that `Look::as_repr` gives it.
#[verifier::external_body]
fn hir_leaf(hir: &hir::Hir) -> (made: Option<HirNode>)
    ensures
        made matches Some(leaf) ==> leaf.wf(),
{
    match hir.kind() {
        HirKind::Empty => Some(HirNode::Empty),
        HirKind::Literal(x) => Some(HirNode::Literal(x.0.to_vec())),
        HirKind::Class(x) => Some(HirNode::Class(class_tree(x))),
        HirKind::Look(x) => Some(HirNode::Look(x.as_repr())),
        _ => None,
    }
}

/// Tells the variants of `regex_syntax::hir::HirKind` apart and moves their
/// fields into a pattern of this crate. Each range of a class begins at or
/// before its end, and each assertion has one of the numbers of
/// `regex_syntax::hir::Look`.
#[verifier::external_body]
pub(crate) fn hir_tree(hir: &hir::Hir) -> (made: HirNode)
    ensures
        made == hir_view(*hir),
        made.wf(),
{
    match hir.kind() {
        HirKind::Repetition(x) => {
            let sub = Box::new(hir_tree(&x.sub));
            HirNode::Repetition { min: x.min, max: x.max, greedy: x.greedy, sub }
        },
        HirKind::Capture(x) => {
            let (name, sub) = (x.name.as_ref().map(|n| n.to_string()), Box::new(hir_tree(&x.sub)));
            HirNode::Capture { index: x.index, name, sub }
        },
        HirKind::Concat(xs) => HirNode::Concat(xs.iter().map(hir_tree).collect()),
        HirKind::Alternation(xs) => HirNode::Alternation(xs.iter().map(hir_tree).collect()),
        _ => hir_leaf(hir).unwrap_or(HirNode::Empty),
    }
}

/// The pattern of `regex-syntax` that its constructors make of `made`.
pub uninterp spec fn hir_built(made: HirNode) -> hir::Hir;

/// `regex_syntax::hir::Class::Unicode` or `Class::Bytes`, from the ranges of
/// `class`.
#[verifier::external_body]
fn class_from_tree(class: &form::ClassNode) -> hir::Class {
    match class {
        form::ClassNode::Unicode(ranges) => hir::Class::Unicode(
            hir::ClassUnicode::new(ranges.iter().map(|r| hir::ClassUnicodeRange::new(r.0, r.1))),
        ),
        form::ClassNode::Bytes(ranges) => hir::Class::Bytes(
            hir::ClassBytes::new(ranges.iter().map(|r| hir::ClassBytesRange::new(r.0, r.1))),
        ),
    }
}

/// `Hir::empty`, `Hir::literal`, `Hir::class` and `Hir::look` of
/// `regex-syntax`, for a pattern without a pattern inside it.
#[verifier::external_body]
fn hir_from_leaf(made: &HirNode) -> Option<hir::Hir>
    requires
        made.wf(),
{
    match made {
        HirNode::Empty => Some(Hir::empty()),
        HirNode::Literal(bytes) => Some(Hir::literal(bytes.clone())),
        HirNode::Class(class) => Some(Hir::class(class_from_tree(class))),
        HirNode::Look(look) => hir::Look::from_repr(*look).map(Hir::look),
        _ => None,
    }
}

/// `Hir::repetition`, `Hir::capture`, `Hir::concat` and `Hir::alternation`
/// of `regex-syntax`, on what the same constructors make of the patterns
/// inside `made`.
#[verifier::external_body]
pub(crate) fn hir_from_tree(made: &HirNode) -> (hir: hir::Hir)
    requires
        made.wf(),
    ensures
        hir == hir_built(*made),
{
    match made {
        HirNode::Repetition { min, max, greedy, sub } => {
            let sub = Box::new(hir_from_tree(sub));
            Hir::repetition(hir::Repetition { min: *min, max: *max, greedy: *greedy, sub })
        },
        HirNode::Capture { index, name, sub } => {
            let (name, sub) = (name.clone().map(Into::into), Box::new(hir_from_tree(sub)));
            Hir::capture(hir::Capture { index: *index, name, sub })
        },
        HirNode::Concat(subs) => Hir::concat(subs.iter().map(hir_from_tree).collect()),
        HirNode::Alternation(subs) => Hir::alternation(subs.iter().map(hir_from_tree).collect()),
        leaf => hir_from_leaf(leaf).unwrap_or(Hir::empty()),
    }
}

/// The ranges of the class that holds the characters of `ranges` but `c`.
pub uninterp spec fn unicode_class_without(ranges: Seq<(char, char)>, c: char) -> Seq<(char, char)>;

/// `regex_syntax::hir::ClassUnicode::difference` with the class of the
/// single character `c`, on the class of `ranges`, each of which begins at or
/// before its end: the ranges of the class that is left. A character is in
/// them if it was in `ranges` and is not `c`, and each begins at or before
/// its end.
#[verifier::external_body]
pub(crate) fn unicode_without(ranges: &Vec<(char, char)>, c: char) -> (left: Vec<(char, char)>)
    requires
        form::char_ranges_ordered(ranges@),
    ensures
        left@ == unicode_class_without(ranges@, c),
        form::char_ranges_ordered(left@),
        form::chars_but(ranges@, c, left@),
{
    let mut class = hir::ClassUnicode::new(
        ranges.iter().map(|r| hir::ClassUnicodeRange::new(r.0, r.1)),
    );
    class.difference(&hir::ClassUnicode::new(Some(hir::ClassUnicodeRange::new(c, c))));
    class.ranges().iter().map(|r| (r.start(), r.end())).collect()
}

/// The ranges of the class that holds the bytes of `ranges` but `b`.
pub uninterp spec fn byte_class_without(ranges: Seq<(u8, u8)>, b: u8) -> Seq<(u8, u8)>;

/// `regex_syntax::hir::ClassBytes::difference` with the class of the single
/// byte `b`, on the class of `ranges`, each of which begins at or before its
/// end: the ranges of the class that is left. A byte is in them if it was in
/// `ranges` and is not `b`, and each begins at or before its end.
#[verifier::external_body]
pub(crate) fn bytes_without(ranges: &Vec<(u8, u8)>, b: u8) -> (left: Vec<(u8, u8)>)
    requires
        form::byte_ranges_ordered(ranges@),
    ensures
        left@ == byte_class_without(ranges@, b),
        form::byte_ranges_ordered(left@),
        form::bytes_but(ranges@, b, left@),
{
    let mut class = hir::ClassBytes::new(
        ranges.iter().map(|r| hir::ClassBytesRange::new(r.0, r.1)),
    );
    class.difference(&hir::ClassBytes::new(Some(hir::ClassBytesRange::new(b, b))));
    class.ranges().iter().map(|r| (r.start(), r.end())).collect()
}

/// The ranges of bytes that make up the UTF-8 encodings of the characters
/// from `start` to `end`.
pub uninterp spec fn utf8_byte_ranges(start: char, end: char) -> Seq<(u8, u8)>;

/// `regex_syntax::utf8::Utf8Sequences::new`: the byte ranges of every
/// sequence that it yields for the characters from `start` to `end`, one
/// after the other.
#[verifier::external_body]
pub(crate) fn utf8_ranges(start: char, end: char) -> (ranges: Vec<(u8, u8)>)
    ensures
        ranges@ == utf8_byte_ranges(start, end),
{
    regex_syntax::utf8::Utf8Sequences::new(start, end)
        .flat_map(|seq| seq.as_slice().iter().map(|r| (r.start, r.end)).collect::<Vec<_>>())
        .collect()
}

/// Whether `hir` holds an assertion on the start or the end of the
/// haystack.
pub open spec fn anchored_to_haystack(hir: hir::Hir) -> bool {
    let node = hir_view(hir);
    form::has_look(node, form::LOOK_START) || form::has_look(node, form::LOOK_END)
}

/// `LookSet::contains_anchor_haystack` of `Properties::look_set`, the set of
/// the assertions that stand somewhere in `hir`.
#[verifier::external_body]
pub(crate) fn contains_anchor_haystack(hir: &hir::Hir) -> (yes: bool)
    ensures
        yes == anchored_to_haystack(*hir),
{
    hir.properties().look_set().contains_anchor_haystack()
}

/// Whether `hir` holds an assertion on a Unicode word boundary.
pub open spec fn has_unicode_word_boundary(hir: hir::Hir) -> bool {
    let node = hir_view(hir);
    form::has_look(node, form::LOOK_WORD_UNICODE) || form::has_look(
        node,
        form::LOOK_WORD_UNICODE_NEGATE,
    ) || form::has_look(node, form::LOOK_WORD_START_UNICODE) || form::has_look(
        node,
        form::LOOK_WORD_END_UNICODE,
    ) || form::has_look(node, form::LOOK_WORD_START_HALF_UNICODE) || form::has_look(
        node,
        form::LOOK_WORD_END_HALF_UNICODE,
    )
}

/// `LookSet::contains_word_unicode` of `Properties::look_set`, the set of
/// the assertions that stand somewhere in `hir`.
#[verifier::external_body]
pub(crate) fn contains_word_unicode(hir: &hir::Hir) -> (yes: bool)
    ensures
        yes == has_unicode_word_boundary(*hir),
{
    hir.properties().look_set().contains_word_unicode()
}

/// Whether `hir` is a literal or an alternation of literals.
pub uninterp spec fn alternation_of_literals(hir: hir::Hir) -> bool;

/// `Properties::is_alternation_literal` of `hir`.
#[verifier::external_body]
pub(crate) fn is_alternation_literal(hir: &hir::Hir) -> (yes: bool)
    ensures
        yes == alternation_of_literals(*hir),
{
    hir.properties().is_alternation_literal()
}

} // verus!
