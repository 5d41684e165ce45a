//! The attachment transform, on typed programs built by hand.

use lc3_toolchain::ast::processed_ast::{ProgramItem, StandardTransform};
use lc3_toolchain::ast::raw_ast::{
    self, Comment, Directive, DirectiveType, Instruction, InstructionType, Label, Span,
};

fn span(start: usize, len: usize) -> Span {
    Span { start, end: start + len }
}

fn label(text: &str, start: usize) -> raw_ast::ProgramItem {
    raw_ast::ProgramItem::Label(Label { content: text.to_string(), span: span(start, text.len()) })
}

fn comment(text: &str, start: usize) -> raw_ast::ProgramItem {
    raw_ast::ProgramItem::Comment(Comment {
        content: text.to_string(),
        span: span(start, text.len()),
    })
}

fn halt(start: usize) -> raw_ast::ProgramItem {
    raw_ast::ProgramItem::Instruction(Instruction {
        instruction_type: InstructionType::Halt,
        content: "HALT".to_string(),
        span: span(start, 4),
    })
}

fn end(start: usize) -> raw_ast::ProgramItem {
    raw_ast::ProgramItem::Directive(Directive {
        directive_type: DirectiveType::END,
        content: ".END".to_string(),
        span: span(start, 4),
    })
}

fn run(hybrid: bool, text: &str, items: Vec<raw_ast::ProgramItem>) -> Vec<ProgramItem> {
    let mut transform = StandardTransform::new(hybrid, text);
    let program = transform.transform(raw_ast::Program { items });
    program.items
}

fn names(labels: &[Label]) -> Vec<&str> {
    labels.iter().map(|l| l.content().as_str()).collect()
}

#[test]
fn labels_keep_the_order_in_which_they_were_written() {
    let text = "A B C HALT";
    let items = run(true, text, vec![label("A", 0), label("B", 2), label("C", 4), halt(6)]);
    assert_eq!(items.len(), 1);
    match &items[0] {
        ProgramItem::Instruction(labels, instruction, comment, at) => {
            assert_eq!(names(labels), vec!["A", "B", "C"]);
            assert_eq!(instruction.content(), "HALT");
            assert!(comment.is_none());
            assert_eq!((at.line(), at.column()), (1, 7));
        }
        other => panic!("{other:?}"),
    }
}

#[test]
fn each_statement_takes_the_labels_since_the_one_before() {
    let text = "A HALT\nB\nC .END\nHALT";
    let items = run(
        true,
        text,
        vec![label("A", 0), halt(2), label("B", 7), label("C", 9), end(11), halt(16)],
    );
    assert_eq!(items.len(), 3);
    assert!(matches!(&items[0], ProgramItem::Instruction(l, ..) if names(l) == ["A"]));
    assert!(matches!(&items[1], ProgramItem::Directive(l, ..) if names(l) == ["B", "C"]));
    assert!(matches!(&items[2], ProgramItem::Instruction(l, ..) if l.is_empty()));
}

#[test]
fn labels_at_the_end_become_one_last_item() {
    let text = "HALT\nX\nY";
    let items = run(true, text, vec![halt(0), label("X", 5), label("Y", 7)]);
    assert_eq!(items.len(), 2);
    assert!(items[0].is_instruction());
    assert!(items[1].is_eol());
    assert!(matches!(&items[1], ProgramItem::EOL(l) if names(l) == ["X", "Y"]));

    let only = run(true, "X", vec![label("X", 0)]);
    assert_eq!(only.len(), 1);
    assert!(matches!(&only[0], ProgramItem::EOL(l) if names(l) == ["X"]));

    let none = run(true, "HALT", vec![halt(0)]);
    assert!(none.iter().all(|item| !item.is_eol()));
}

#[test]
fn labels_pass_over_a_comment() {
    let text = "A\n; note\nHALT";
    let items = run(true, text, vec![label("A", 0), comment("; note", 2), halt(9)]);
    assert_eq!(items.len(), 2);
    assert!(items[0].is_comment());
    assert!(matches!(&items[1], ProgramItem::Instruction(l, ..) if names(l) == ["A"]));
}

#[test]
fn a_comment_on_the_line_of_a_statement_is_adopted() {
    let text = "HALT ; stop\n.END ;done\n; alone";
    let raw = || {
        vec![halt(0), comment("; stop", 5), end(12), comment(";done", 17), comment("; alone", 23)]
    };
    let items = run(true, text, raw());
    assert_eq!(items.len(), 3);
    match &items[0] {
        ProgramItem::Instruction(_, _, Some(c), at) => {
            assert_eq!(c.content(), "; stop");
            assert_eq!(at.line(), 1);
        }
        other => panic!("{other:?}"),
    }
    assert!(matches!(&items[1], ProgramItem::Directive(_, _, Some(c), _) if c.content() == ";done"));
    match &items[2] {
        ProgramItem::Comment(c, at) => {
            assert_eq!(c.content(), "; alone");
            assert_eq!((at.line(), at.column()), (3, 1));
        }
        other => panic!("{other:?}"),
    }

    // without adoption every comment stays an item of its own
    let items = run(false, text, raw());
    assert_eq!(items.len(), 5);
    assert!(matches!(&items[0], ProgramItem::Instruction(_, _, None, _)));
    assert!(items[1].is_comment());
    assert!(matches!(&items[2], ProgramItem::Directive(_, _, None, _)));
    assert!(items[3].is_comment());
    assert!(items[4].is_comment());
}

#[test]
fn a_comment_on_a_later_line_stays_alone() {
    let text = "HALT\n; next\nHALT ; a\n; b";
    let items = run(
        true,
        text,
        vec![halt(0), comment("; next", 5), halt(12), comment("; a", 17), comment("; b", 21)],
    );
    assert_eq!(items.len(), 4);
    assert!(matches!(&items[0], ProgramItem::Instruction(_, _, None, _)));
    assert!(matches!(&items[1], ProgramItem::Comment(c, _) if c.content() == "; next"));
    assert!(matches!(&items[2], ProgramItem::Instruction(_, _, Some(c), _) if c.content() == "; a"));
    assert!(matches!(&items[3], ProgramItem::Comment(c, _) if c.content() == "; b"));
}

#[test]
fn only_the_comment_right_behind_a_statement_is_adopted() {
    let text = "HALT ; a ; b";
    let items = run(true, text, vec![halt(0), comment("; a ", 5), comment("; b", 9)]);
    assert_eq!(items.len(), 2);
    assert!(matches!(&items[0], ProgramItem::Instruction(_, _, Some(c), _) if c.content() == "; a "));
    assert!(matches!(&items[1], ProgramItem::Comment(c, _) if c.content() == "; b"));
}

#[test]
fn a_transform_can_run_twice() {
    let text = "A HALT\nB";
    let mut transform = StandardTransform::new(true, text);
    let first = transform.transform(raw_ast::Program {
        items: vec![label("A", 0), halt(2), label("B", 7)],
    });
    let second = transform.transform(raw_ast::Program { items: vec![halt(2)] });
    assert_eq!(first.items().len(), 2);
    assert_eq!(second.items().len(), 1);
    assert!(matches!(&second.items()[0], ProgramItem::Instruction(l, ..) if l.is_empty()));
}

#[test]
fn a_copy_of_an_item_holds_the_same() {
    let text = "A B HALT ; x";
    let items = run(true, text, vec![label("A", 0), label("B", 2), halt(4), comment("; x", 9)]);
    let copy = items[0].clone();
    assert_eq!(format!("{:?}", copy), format!("{:?}", items[0]));
    assert!(matches!(&copy, ProgramItem::Instruction(l, _, Some(c), _)
        if names(l) == ["A", "B"] && c.content() == "; x"));
}

#[test]
fn nothing_in_nothing_out() {
    assert!(run(true, "", vec![]).is_empty());
    assert!(run(false, "", vec![]).is_empty());
}
