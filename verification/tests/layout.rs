//! The parts of the layout formatter, on items built by hand.

use either::Either;
use lc3_toolchain::ast::processed_ast::{LineColumn, Program, ProgramItem};
use lc3_toolchain::ast::raw_ast::{
    BrType, Comment, Directive, DirectiveType, HexAddress, Immediate, Instruction,
    InstructionType, Label, LabelReference, Register, RegisterType, Span, StringLiteral,
};
use lc3_toolchain::fmt::{
    add_indent, config_format_style_to_format_style, print_comment, print_directive,
    print_instruction, print_label, print_register_or_immediate, ConfigFormatStyle, FormatStyle,
    Formatter,
};

const STYLE: FormatStyle = FormatStyle {
    indent_directive: 3,
    indent_instruction: 4,
    indent_label: 2,
    indent_min_comment_from_block: 2,
    space_block_to_comment: 1,
    space_comment_stick_to_body: 2,
    space_from_label_block: 4,
    space_from_start_end_block: 8,
    colon_after_label: true,
};

const NOWHERE: Span = Span { start: 0, end: 0 };
const AT: LineColumn = LineColumn { line: 1, column: 1 };

fn register(text: &str) -> Register {
    Register { content: text.to_string(), span: NOWHERE, register_type: RegisterType::R0 }
}

fn immediate(text: &str) -> Immediate {
    Immediate { content: text.to_string(), span: NOWHERE }
}

fn reference(text: &str) -> LabelReference {
    LabelReference { content: text.to_string(), span: NOWHERE }
}

fn label(text: &str) -> Label {
    Label { content: text.to_string(), span: NOWHERE }
}

fn comment(text: &str) -> Comment {
    Comment { content: text.to_string(), span: NOWHERE }
}

fn instruction(mnemonic: &str, instruction_type: InstructionType) -> Instruction {
    Instruction { instruction_type, content: mnemonic.to_string(), span: NOWHERE }
}

fn directive(keyword: &str, directive_type: DirectiveType) -> Directive {
    Directive { directive_type, content: keyword.to_string(), span: NOWHERE }
}

fn halt(labels: &[&str]) -> ProgramItem {
    ProgramItem::Instruction(
        labels.iter().map(|l| label(l)).collect(),
        instruction("HALT", InstructionType::Halt),
        None,
        AT,
    )
}

fn fill(labels: &[&str]) -> ProgramItem {
    ProgramItem::Directive(
        labels.iter().map(|l| label(l)).collect(),
        directive(".FILL", DirectiveType::FILL(immediate("#1"))),
        None,
        AT,
    )
}

fn orig() -> ProgramItem {
    let address = HexAddress { content: "x3000".to_string(), span: NOWHERE };
    ProgramItem::Directive(vec![], directive(".ORIG", DirectiveType::ORIG(address)), None, AT)
}

fn end() -> ProgramItem {
    ProgramItem::Directive(vec![], directive(".END", DirectiveType::END), None, AT)
}

fn alone(text: &str) -> ProgramItem {
    ProgramItem::Comment(comment(text), AT)
}

#[test]
fn printing_instructions() {
    let add = instruction(
        "ADD",
        InstructionType::Add(register("R1"), register("R2"), Either::Left(register("R3"))),
    );
    assert_eq!(print_instruction(&add), "ADD R1, R2, R3");
    let and = instruction(
        "and",
        InstructionType::And(register("r1"), register("r2"), Either::Right(immediate("#5"))),
    );
    assert_eq!(print_instruction(&and), "and r1, r2, #5");
    let not = instruction("NOT", InstructionType::Not(register("R1"), register("R2")));
    assert_eq!(print_instruction(&not), "NOT R1, R2");
    let ldr = instruction(
        "LDR",
        InstructionType::Ldr(register("R1"), register("R2"), immediate("#-1")),
    );
    assert_eq!(print_instruction(&ldr), "LDR R1, R2, #-1");
    let lea = instruction("LEA", InstructionType::Lea(register("R0"), reference("MSG")));
    assert_eq!(print_instruction(&lea), "LEA R0, MSG");
    let br = instruction("BRnzp", InstructionType::Br(BrType::Nzp, reference("LOOP")));
    assert_eq!(print_instruction(&br), "BRnzp LOOP");
    let jmp = instruction("JMP", InstructionType::Jmp(register("R7")));
    assert_eq!(print_instruction(&jmp), "JMP R7");
    let jsr = instruction("JSR", InstructionType::Jsr(reference("SUB")));
    assert_eq!(print_instruction(&jsr), "JSR SUB");
    let trap = instruction(
        "TRAP",
        InstructionType::Trap(HexAddress { content: "x25".to_string(), span: NOWHERE }),
    );
    assert_eq!(print_instruction(&trap), "TRAP x25");
    let ret = instruction("ret", InstructionType::Ret);
    assert_eq!(print_instruction(&ret), "ret");
}

#[test]
fn printing_directives() {
    let stringz = directive(
        ".STRINGZ",
        DirectiveType::STRINGZ(StringLiteral { content: "\"a, b\"".to_string(), span: NOWHERE }),
    );
    assert_eq!(print_directive(&stringz), ".STRINGZ \"a, b\"");
    assert_eq!(print_directive(&directive(".END", DirectiveType::END)), ".END");
    let blkw = directive(".blkw", DirectiveType::BLKW(immediate("#3")));
    assert_eq!(print_directive(&blkw), ".blkw #3");
}

#[test]
fn printing_comments() {
    assert_eq!(print_comment(&comment(";")), ";");
    assert_eq!(print_comment(&comment(";x")), ";x");
    assert_eq!(print_comment(&comment(";  two words \t ")), ";two words");
    assert_eq!(print_comment(&comment(";\u{3000}wide\u{a0}")), ";wide");
    assert_eq!(print_comment(&comment("; ; again")), ";; again");
    let once = print_comment(&comment(";   hello  "));
    assert_eq!(print_comment(&comment(&once)), once);
}

#[test]
fn printing_labels() {
    let with = FormatStyle { colon_after_label: true, ..STYLE };
    let without = FormatStyle { colon_after_label: false, ..STYLE };
    assert_eq!(print_label(&with, &label("LOOP")), "LOOP:");
    assert_eq!(print_label(&with, &label("LOOP:")), "LOOP:");
    assert_eq!(print_label(&without, &label("LOOP")), "LOOP");
    assert_eq!(print_label(&without, &label("LOOP:")), "LOOP");
    assert_eq!(print_label(&without, &label("LOOP::")), "LOOP:");
    assert_eq!(print_label(&with, &label("")), ":");
    assert_eq!(print_label(&without, &label("")), "");
}

#[test]
fn printing_operands_and_indents() {
    assert_eq!(print_register_or_immediate(&Either::Left(register("R4"))), "R4");
    assert_eq!(print_register_or_immediate(&Either::Right(immediate("x1F"))), "x1F");
    let mut line = String::from("a");
    add_indent(&mut line, 3);
    assert_eq!(line, "a   ");
    add_indent(&mut line, 0);
    assert_eq!(line, "a   ");
}

#[test]
fn display_of_each_kind_of_item() {
    let (labels, body, trailing) = alone(";  note ").formatted_display(&STYLE);
    assert!(labels.is_empty());
    assert_eq!(body, ";note");
    assert_eq!(trailing, None);

    let item = ProgramItem::Instruction(
        vec![label("A"), label("B:")],
        instruction("HALT", InstructionType::Halt),
        Some(comment("; stop ")),
        AT,
    );
    let (labels, body, trailing) = item.formatted_display(&STYLE);
    assert_eq!(labels, vec!["  A:", "  B:"]);
    assert_eq!(body, "    HALT");
    assert_eq!(trailing.as_deref(), Some(";stop"));

    let (labels, body, _) = fill(&["X"]).formatted_display(&STYLE);
    assert_eq!(labels, vec!["  X:"]);
    assert_eq!(body, "   .FILL #1");
    let (_, body, _) = orig().formatted_display(&STYLE);
    assert_eq!(body, ".ORIG x3000");
    let (_, body, _) = end().formatted_display(&STYLE);
    assert_eq!(body, ".END");

    let (labels, body, trailing) = ProgramItem::EOL(vec![label("Z")]).formatted_display(&STYLE);
    assert_eq!(labels, vec!["  Z:"]);
    assert_eq!(body, "");
    assert_eq!(trailing, None);
}

fn padding(current: &ProgramItem, next: Option<&ProgramItem>) -> usize {
    Formatter::new(&STYLE).control_padding(current, next)
}

#[test]
fn blank_lines_rule_by_rule() {
    // a comment before a statement
    assert_eq!(padding(&alone(";c"), Some(&halt(&[]))), 2);
    assert_eq!(padding(&alone(";c"), Some(&fill(&[]))), 2);
    assert_eq!(padding(&alone(";c"), Some(&alone(";d"))), 0);
    assert_eq!(padding(&alone(";c"), Some(&ProgramItem::EOL(vec![label("L")]))), 0);
    assert_eq!(padding(&alone(";c"), None), 0);
    // a statement before a comment
    assert_eq!(padding(&halt(&[]), Some(&alone(";c"))), 1);
    assert_eq!(padding(&fill(&["L"]), Some(&alone(";c"))), 1);
    // a statement without labels before one with labels
    assert_eq!(padding(&halt(&[]), Some(&halt(&["L"]))), 4);
    assert_eq!(padding(&halt(&[]), Some(&fill(&["L"]))), 4);
    assert_eq!(padding(&halt(&["K"]), Some(&halt(&["L"]))), 0);
    assert_eq!(padding(&halt(&["K"]), Some(&halt(&[]))), 0);
    assert_eq!(padding(&halt(&[]), Some(&halt(&[]))), 0);
    assert_eq!(padding(&halt(&[]), Some(&ProgramItem::EOL(vec![label("L")]))), 0);
    // after .ORIG and before .END
    assert_eq!(padding(&orig(), Some(&halt(&[]))), 8);
    assert_eq!(padding(&orig(), None), 8);
    assert_eq!(padding(&halt(&[]), Some(&end())), 8);
    assert_eq!(padding(&fill(&[]), Some(&end())), 8);
    assert_eq!(padding(&orig(), Some(&end())), 8);
    assert_eq!(padding(&end(), None), 0);
    // what the rules ask for is added up
    assert_eq!(padding(&orig(), Some(&alone(";c"))), 8);
    assert_eq!(padding(&orig(), Some(&halt(&["L"]))), 4 + 8);
    assert_eq!(padding(&alone(";c"), Some(&end())), 2 + 8);
}

#[test]
fn a_program_is_written_after_what_the_buffer_holds() {
    let style = FormatStyle { indent_min_comment_from_block: 1, indent_label: 0, ..STYLE };
    let mut formatter = Formatter::new(&style);
    assert!(formatter.contents().is_empty());
    formatter.format(Program { items: vec![halt(&["A"])] });
    assert_eq!(formatter.contents().as_slice(), b"A:\n    HALT \n");
    formatter.format(Program { items: vec![] });
    formatter.format(Program { items: vec![end()] });
    assert_eq!(formatter.contents().as_slice(), b"A:\n    HALT \n.END \n");
}

#[test]
fn widths_count_bytes() {
    let style = FormatStyle { indent_min_comment_from_block: 1, ..STYLE };
    let wide = ProgramItem::Directive(
        vec![],
        directive(
            ".STRINGZ",
            DirectiveType::STRINGZ(StringLiteral { content: "\"é\"".to_string(), span: NOWHERE }),
        ),
        Some(comment(";a")),
        AT,
    );
    let narrow = ProgramItem::Instruction(
        vec![],
        instruction("HALT", InstructionType::Halt),
        Some(comment(";b")),
        AT,
    );
    let mut formatter = Formatter::new(&style);
    formatter.format(Program { items: vec![wide, narrow] });
    let out = String::from_utf8(formatter.contents().clone()).unwrap();
    let lines: Vec<&str> = out.lines().collect();
    assert_eq!(lines[0], "   .STRINGZ \"é\" ;a");
    assert_eq!(lines[1].find(';'), lines[0].find(';'));
}

#[test]
fn a_format_configuration_fills_in_what_it_leaves_out() {
    let nothing = ConfigFormatStyle {
        indent_directive: None,
        indent_instruction: None,
        indent_label: None,
        indent_min_comment_from_block: None,
        space_block_to_comment: None,
        space_comment_stick_to_body: None,
        space_from_label_block: None,
        space_from_start_end_block: None,
        colon_after_label: None,
    };
    let same = config_format_style_to_format_style(&STYLE, nothing);
    assert_eq!(format!("{:?}", same), format!("{:?}", STYLE));
    let some = ConfigFormatStyle {
        indent_directive: Some(9),
        space_from_label_block: Some(0),
        colon_after_label: Some(false),
        ..nothing
    };
    let mixed = config_format_style_to_format_style(&STYLE, some);
    assert_eq!(mixed.indent_directive, 9);
    assert_eq!(mixed.indent_instruction, 4);
    assert_eq!(mixed.space_from_label_block, 0);
    assert_eq!(mixed.space_from_start_end_block, 8);
    assert!(!mixed.colon_after_label);
    let zero = FormatStyle::default();
    assert_eq!(zero.indent_instruction, 0);
    assert!(!zero.colon_after_label);
}
