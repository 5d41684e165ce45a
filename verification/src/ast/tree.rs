//! The concrete syntax tree that the grammar engine hands over.
//!
//! A tree is plain data: every node carries its tag, the text it covers, the
//! byte range of that text and its children in source order.

use crate::ast::raw_ast::Span;
use vstd::prelude::*;

verus! {

/// The tags of the grammar that the adapter tells apart.
#[derive(Debug, Clone, Copy, PartialEq, Eq, Structural)]
pub enum Rule {
    /// End of input.
    EOI,
    Program,
    Comment,
    Label,
    Instruction,
    Directive,
    /// The single child of an `Instruction` or `Directive` node: the
    /// mnemonic followed by its operands.
    Line,
    AddInstruction,
    AndInstruction,
    NotInstruction,
    LdInstruction,
    LdiInstruction,
    LdrInstruction,
    LeaInstruction,
    StInstruction,
    StiInstruction,
    StrInstruction,
    BrInstruction,
    JmpInstruction,
    JsrInstruction,
    JsrrInstruction,
    NopInstruction,
    RetInstruction,
    HaltInstruction,
    PutsInstruction,
    GetcInstruction,
    OutInstruction,
    InInstruction,
    TrapInstruction,
    OrigDirective,
    EndDirective,
    BlkwDirective,
    FillDirective,
    StringzDirective,
    Register,
    Immediate,
    HexAddress,
    StringLiteral,
    LabelReference,
}

/// One node of the concrete syntax tree.
#[derive(Debug)]
pub struct Pair {
    pub rule: Rule,
    pub text: String,
    pub span: Span,
    pub inner: Vec<Pair>,
}

impl Pair {
    /// A node without children.
    pub fn leaf(rule: Rule, text: &str, start: usize, end: usize) -> (pair: Pair)
        ensures
            pair.rule == rule,
            pair.text@ == text@,
            pair.span == (Span { start, end }),
            pair.inner@.len() == 0,
    {
        Pair { rule, text: text.to_owned(), span: Span { start, end }, inner: Vec::new() }
    }

    /// A node with the given children.
    pub fn node(rule: Rule, text: &str, start: usize, end: usize, inner: Vec<Pair>) -> (pair: Pair)
        ensures
            pair.rule == rule,
            pair.text@ == text@,
            pair.span == (Span { start, end }),
            pair.inner == inner,
    {
        Pair { rule, text: text.to_owned(), span: Span { start, end }, inner }
    }

    pub fn as_rule(&self) -> (rule: Rule)
        ensures
            rule == self.rule,
    {
        self.rule
    }

    pub fn as_str(&self) -> (text: &str)
        ensures
            text@ == self.text@,
    {
        self.text.as_str()
    }

    pub fn as_span(&self) -> (span: Span)
        ensures
            span == self.span,
    {
        self.span
    }
}

} // verus!
