//! A pattern's syntax tree, as far as the analysis of its literals reads it,
//! and that analysis.

use vstd::prelude::*;

verus! {

/// One member of a bracketed class.
pub enum ItemNode {
    /// Nothing.
    Empty,
    /// A single character.
    Literal(char),
    /// The characters from the first to the second.
    Range(char, char),
    /// A class such as `[:alnum:]`.
    Ascii,
    /// A class such as `\pL`.
    Unicode,
    /// A class such as `\d`.
    Perl,
    /// A bracketed class inside this one.
    Bracketed(Box<SetNode>),
    /// Several members, one after the other.
    Union(Vec<ItemNode>),
}

/// What stands between the brackets of a class.
pub enum SetNode {
    /// Members.
    Item(ItemNode),
    /// Two sets under `&&`, `--` or `~~`.
    BinaryOp(Box<SetNode>, Box<SetNode>),
}

/// A pattern's syntax tree.
pub enum Node {
    /// The empty pattern.
    Empty,
    /// Flags, such as `(?is)`.
    Flags,
    /// A single character.
    Literal(char),
    /// `.`
    Dot,
    /// An assertion, such as `^` or `\b`.
    Assertion,
    /// A class such as `\pL`.
    ClassUnicode,
    /// A class such as `\d`.
    ClassPerl,
    /// A bracketed class.
    ClassBracketed(SetNode),
    /// A repeated pattern.
    Repetition(Box<Node>),
    /// A group.
    Group(Box<Node>),
    /// Alternatives.
    Alternation(Vec<Node>),
    /// Patterns one after the other.
    Concat(Vec<Node>),
}

/// Whether `c` has the Unicode property Uppercase.
pub uninterp spec fn uppercase(c: char) -> bool;

/// `char::is_uppercase`: whether `c` has the Unicode property Uppercase.
#[verifier::external_body]
fn is_uppercase(c: char) -> (yes: bool)
    ensures
        yes == uppercase(c),
{
    c.is_uppercase()
}

/// Whether the literal `c` counts: every literal does, and with `upper`
/// only one that is uppercase.
pub open spec fn counts(c: char, upper: bool) -> bool {
    !upper || uppercase(c)
}

/// Whether a literal of `item` is uppercase, or is there at all where
/// `upper` is false. The ends of a range count as literals.
pub open spec fn item_has(item: ItemNode, upper: bool) -> bool
    decreases item, 0nat,
{
    match item {
        ItemNode::Empty | ItemNode::Ascii | ItemNode::Unicode | ItemNode::Perl =>
            false,
        ItemNode::Literal(c) => counts(c, upper),
        ItemNode::Range(start, end) => counts(start, upper) || counts(end, upper),
        ItemNode::Bracketed(set) => set_has(*set, upper),
        ItemNode::Union(items) => items_have(items, items.len() as nat, upper),
    }
}

/// `item_has` of one of the first `n` of `items`.
pub open spec fn items_have(items: Vec<ItemNode>, n: nat, upper: bool) -> bool
    decreases items, n,
{
    if n == 0 || n > items.len() {
        false
    } else {
        item_has(items[n - 1], upper) || items_have(items, (n - 1) as nat, upper)
    }
}

/// `item_has` of a member of `set`.
pub open spec fn set_has(set: SetNode, upper: bool) -> bool
    decreases set, 0nat,
{
    match set {
        SetNode::Item(item) => item_has(item, upper),
        SetNode::BinaryOp(lhs, rhs) => set_has(*lhs, upper) || set_has(*rhs, upper),
    }
}

/// Whether a literal of `ast` is uppercase, or is there at all where
/// `upper` is false. The ends of a range in a bracketed class count as
/// literals.
pub open spec fn ast_has(ast: Node, upper: bool) -> bool
    decreases ast, 0nat,
{
    match ast {
        Node::Empty
        | Node::Flags
        | Node::Dot
        | Node::Assertion
        | Node::ClassUnicode
        | Node::ClassPerl => false,
        Node::Literal(c) => counts(c, upper),
        Node::ClassBracketed(set) => set_has(set, upper),
        Node::Repetition(sub) => ast_has(*sub, upper),
        Node::Group(sub) => ast_has(*sub, upper),
        Node::Alternation(asts) => asts_have(asts, asts.len() as nat, upper),
        Node::Concat(asts) => asts_have(asts, asts.len() as nat, upper),
    }
}

/// `ast_has` of one of the first `n` of `asts`.
pub open spec fn asts_have(asts: Vec<Node>, n: nat, upper: bool) -> bool
    decreases asts, n,
{
    if n == 0 || n > asts.len() {
        false
    } else {
        ast_has(asts[n - 1], upper) || asts_have(asts, (n - 1) as nat, upper)
    }
}

/// Whether `ast` holds a literal.
pub open spec fn has_literal(ast: Node) -> bool {
    ast_has(ast, false)
}

/// Whether `ast` holds a literal that is uppercase.
pub open spec fn has_uppercase_literal(ast: Node) -> bool {
    ast_has(ast, true)
}

/// What the literals of a pattern are like.
#[derive(Clone, Copy, Debug)]
pub struct AstAnalysis {
    any_uppercase: bool,
    any_literal: bool,
}

impl AstAnalysis {
    /// Whether a literal is uppercase.
    pub closed spec fn spec_any_uppercase(&self) -> bool {
        self.any_uppercase
    }

    /// Whether there is a literal.
    pub closed spec fn spec_any_literal(&self) -> bool {
        self.any_literal
    }

    fn new() -> (analysis: AstAnalysis)
        ensures
            !analysis.any_uppercase,
            !analysis.any_literal,
    {
        AstAnalysis { any_uppercase: false, any_literal: false }
    }

    /// The analysis of `ast`.
    pub fn from_ast(ast: &Node) -> (analysis: AstAnalysis)
        ensures
            analysis.spec_any_literal() == has_literal(*ast),
            analysis.spec_any_uppercase() == has_uppercase_literal(*ast),
    {
        let mut analysis = AstAnalysis::new();
        analysis.from_ast_impl(ast);
        analysis
    }

    /// Whether a literal is uppercase.
    #[verifier::when_used_as_spec(spec_any_uppercase)]
    pub fn any_uppercase(&self) -> (yes: bool)
        ensures
            yes == self.spec_any_uppercase(),
    {
        self.any_uppercase
    }

    /// Whether there is a literal.
    #[verifier::when_used_as_spec(spec_any_literal)]
    pub fn any_literal(&self) -> (yes: bool)
        ensures
            yes == self.spec_any_literal(),
    {
        self.any_literal
    }

    /// Whether `self` says of `ast` what `before` says and what `ast` adds.
    spec fn adds(&self, before: &AstAnalysis, literal: bool, upper: bool) -> bool {
        &&& self.any_literal == (before.any_literal || literal)
        &&& self.any_uppercase == (before.any_uppercase || upper)
    }

    fn from_ast_impl(&mut self, ast: &Node)
        ensures
            final(self).adds(old(self), has_literal(*ast), has_uppercase_literal(*ast)),
        decreases ast, 1nat,
    {
        if self.done() {
            return ;
        }
        match ast {
            Node::Empty => {},
            Node::Flags | Node::Dot | Node::Assertion | Node::ClassUnicode | Node::ClassPerl => {},
            Node::Literal(c) => {
                self.from_ast_literal(*c);
            },
            Node::ClassBracketed(set) => {
                self.from_ast_class_set(set);
            },
            Node::Repetition(sub) => {
                self.from_ast_impl(sub);
            },
            Node::Group(sub) => {
                self.from_ast_impl(sub);
            },
            Node::Alternation(asts) => {
                self.from_asts(asts, Ghost(*ast));
            },
            Node::Concat(asts) => {
                self.from_asts(asts, Ghost(*ast));
            },
        }
    }

    /// The analysis of each tree of `asts`, which are the branches of
    /// `parent`.
    fn from_asts(&mut self, asts: &Vec<Node>, Ghost(parent): Ghost<Node>)
        requires
            parent == Node::Alternation(*asts) || parent == Node::Concat(*asts),
        ensures
            final(self).adds(old(self), has_literal(parent), has_uppercase_literal(parent)),
        decreases parent, 0nat,
    {
        let mut i: usize = 0;
        while i < asts.len()
            invariant
                i <= asts.len(),
                parent == Node::Alternation(*asts) || parent == Node::Concat(*asts),
                self.adds(
                    old(self),
                    asts_have(*asts, i as nat, false),
                    asts_have(*asts, i as nat, true),
                ),
            decreases asts.len() - i,
        {
            proof {
                vstd::std_specs::vec::axiom_vec_index_decreases(*asts, i as int);
                if parent is Alternation {
                    assert(decreases_to!(parent => parent->Alternation_0));
                } else {
                    assert(decreases_to!(parent => parent->Concat_0));
                }
            }
            self.from_ast_impl(&asts[i]);
            i += 1;
        }

    }

    fn from_ast_literal(&mut self, c: char)
        ensures
            final(self).adds(old(self), true, uppercase(c)),
    {
        self.any_literal = true;
        self.any_uppercase = self.any_uppercase || is_uppercase(c);
    }

    fn from_ast_class_set(&mut self, set: &SetNode)
        ensures
            final(self).adds(
                old(self),
                set_has(*set, false),
                set_has(*set, true),
            ),
        decreases set, 1nat,
    {
        if self.done() {
            return ;
        }
        match set {
            SetNode::Item(item) => {
                self.from_ast_class_set_item(item);
            },
            SetNode::BinaryOp(lhs, rhs) => {
                self.from_ast_class_set(lhs);
                self.from_ast_class_set(rhs);
            },
        }
    }

    fn from_ast_class_set_item(&mut self, item: &ItemNode)
        ensures
            final(self).adds(
                old(self),
                item_has(*item, false),
                item_has(*item, true),
            ),
        decreases item, 1nat,
    {
        if self.done() {
            return ;
        }
        match item {
            ItemNode::Empty | ItemNode::Ascii | ItemNode::Unicode | ItemNode::Perl => {},
            ItemNode::Literal(c) => {
                self.from_ast_literal(*c);
            },
            ItemNode::Range(start, end) => {
                self.from_ast_literal(*start);
                self.from_ast_literal(*end);
            },
            ItemNode::Bracketed(set) => {
                self.from_ast_class_set(set);
            },
            ItemNode::Union(items) => {
                let mut i: usize = 0;
                while i < items.len()
                    invariant
                        i <= items.len(),
                        *item == ItemNode::Union(*items),
                        self.adds(
                            old(self),
                            items_have(*items, i as nat, false),
                            items_have(*items, i as nat, true),
                        ),
                    decreases items.len() - i,
                {
                    proof {
                        vstd::std_specs::vec::axiom_vec_index_decreases(*items, i as int);
                        assert(decreases_to!(*item => item->Union_0));
                    }
                    self.from_ast_class_set_item(&items[i]);
                    i += 1;
                }

            },
        }
    }

    /// Whether nothing more can be learned.
    fn done(&self) -> (yes: bool)
        ensures
            yes == (self.any_uppercase && self.any_literal),
    {
        self.any_uppercase && self.any_literal
    }
}

} // verus!
