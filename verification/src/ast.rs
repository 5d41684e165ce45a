//! The source model: concrete syntax tree, typed program, processed program.

pub mod processed_ast;
pub mod raw_ast;
pub mod tree;

use crate::ast::processed_ast::{begins_within, spec_transform, Item, Program, StandardTransform};
use crate::ast::raw_ast::{parse_ast, spec_program, ItemView, MalformedTree, ProgramItem};
use crate::ast::tree::Pair;
use vstd::prelude::*;
use vstd::string::StringSliceAdditionalSpecFns;

verus! {

/// The processed program that a tree over `text` stands for, with same-line
/// comments adopted; `None` where the tree is malformed or an item begins
/// outside the text.
pub open spec fn spec_ast(tree: Pair, text: Seq<u8>) -> Option<Seq<Item>> {
    match spec_program(tree) {
        Some(items) => if begins_within(items, text.len() as int) {
            Some(spec_transform(items, text, true))
        } else {
            None
        },
        None => None,
    }
}

/// Whether every item whose place is looked up begins inside a text of
/// `length` bytes.
pub fn items_begin_within(items: &Vec<ProgramItem>, length: usize) -> (within: bool)
    ensures
        within == begins_within(crate::model::views(items@), length as int),
{
    let ghost all = crate::model::views(items@);
    let mut i: usize = 0;
    while i < items.len()
        invariant
            i <= items@.len(),
            all == crate::model::views(items@),
            begins_within(all.take(i as int), length as int),
        decreases items@.len() - i,
    {
        let start: usize = match &items[i] {
            ProgramItem::Comment(comment) => comment.span.start,
            ProgramItem::Label(_) => 0,
            ProgramItem::Instruction(instruction) => instruction.span.start,
            ProgramItem::Directive(directive) => directive.span.start,
        };
        let looked_up = !matches!(&items[i], ProgramItem::Label(_));
        if looked_up && start >= length {
            proof {
                assert(all[i as int] == items@[i as int]@);
            }
            return false;
        }
        proof {
            let upto = all.take(i + 1);
            assert forall|k: int| 0 <= k < upto.len() implies match #[trigger] upto[k] {
                ItemView::Comment(c) => c.span.start < length,
                ItemView::Label(_) => true,
                ItemView::Instruction(s) => s.span.start < length,
                ItemView::Directive(s) => s.span.start < length,
            } by {
                if k < i {
                    assert(upto[k] == all.take(i as int)[k]);
                } else {
                    assert(upto[k] == items@[i as int]@);
                }
            }
        }
        i += 1;
    }
    proof {
        assert(all.take(items@.len() as int) =~= all);
    }
    true
}

/// Builds the processed program of a source text from its tree: the typed
/// program is decoded, then transformed with same-line comments adopted.
///
/// A tree that is malformed, or that places an item outside the text, is
/// refused.
pub fn ast_from_tree(tree: &Pair, content: &str) -> (r: Result<Program, MalformedTree>)
    ensures
        match r {
            Ok(program) => spec_ast(*tree, content.spec_bytes()) == Some(program@) && program.wf(),
            Err(_) => spec_ast(*tree, content.spec_bytes()) is None,
        },
{
    let program = parse_ast(tree)?;
    if !items_begin_within(&program.items, content.as_bytes().len()) {
        return Err(MalformedTree);
    }
    let mut transform = StandardTransform::new(true, content);
    Ok(transform.transform(program))
}

} // verus!
