//! The raw tree adapter, on trees built by hand.

use either::Either;
use lc3_toolchain::ast::raw_ast::{
    br_type, parse_ast, parse_directive, parse_instruction, parse_program_item, parse_register,
    parse_register_immediate, BrType, DirectiveType, InstructionType, MalformedTree, ProgramItem,
    RegisterType,
};
use lc3_toolchain::ast::tree::{Pair, Rule};

fn leaf(rule: Rule, text: &str, start: usize) -> Pair {
    Pair::leaf(rule, text, start, start + text.len())
}

/// A statement node around a line of the given nodes.
fn statement(outer: Rule, line: Vec<Pair>) -> Pair {
    let start = line.first().map(|p| *p.as_span().start()).unwrap_or(0);
    let end = line.last().map(|p| *p.as_span().end()).unwrap_or(0);
    let line = Pair::node(Rule::Line, "", start, end, line);
    Pair::node(outer, "", start, end, vec![line])
}

fn instruction(line: Vec<Pair>) -> Pair {
    statement(Rule::Instruction, line)
}

fn directive(line: Vec<Pair>) -> Pair {
    statement(Rule::Directive, line)
}

#[test]
fn add_with_a_register_and_with_an_immediate() {
    let tree = instruction(vec![
        leaf(Rule::AddInstruction, "ADD", 0),
        leaf(Rule::Register, "R1", 4),
        leaf(Rule::Register, "r2", 8),
        leaf(Rule::Register, "R7", 12),
    ]);
    let found = parse_instruction(&tree).unwrap();
    assert_eq!(found.content(), "ADD");
    assert_eq!((*found.span().start(), *found.span().end()), (0, 3));
    match found.instruction_type() {
        InstructionType::Add(a, b, Either::Left(c)) => {
            assert_eq!(a.register_type(), &RegisterType::R1);
            assert_eq!(b.register_type(), &RegisterType::R2);
            assert_eq!(b.content(), "r2");
            assert_eq!(c.register_type(), &RegisterType::R7);
            assert_eq!((*c.span().start(), *c.span().end()), (12, 14));
        }
        other => panic!("{other:?}"),
    }

    let tree = instruction(vec![
        leaf(Rule::AndInstruction, "and", 0),
        leaf(Rule::Register, "R0", 4),
        leaf(Rule::Register, "R0", 8),
        leaf(Rule::Immediate, "#-3", 12),
    ]);
    match parse_instruction(&tree).unwrap().instruction_type() {
        InstructionType::And(_, _, Either::Right(immediate)) => {
            assert_eq!(immediate.content(), "#-3");
        }
        other => panic!("{other:?}"),
    }
}

#[test]
fn every_shape_of_instruction() {
    let register = || leaf(Rule::Register, "R3", 5);
    let label = || leaf(Rule::LabelReference, "THERE", 9);
    let immediate = || leaf(Rule::Immediate, "#4", 9);
    let cases: Vec<(Rule, Vec<Pair>, &str)> = vec![
        (Rule::NotInstruction, vec![register(), register()], "Not"),
        (Rule::LdInstruction, vec![register(), label()], "Ld"),
        (Rule::LdiInstruction, vec![register(), label()], "Ldi"),
        (Rule::LdrInstruction, vec![register(), register(), immediate()], "Ldr"),
        (Rule::LeaInstruction, vec![register(), label()], "Lea"),
        (Rule::StInstruction, vec![register(), label()], "St"),
        (Rule::StiInstruction, vec![register(), label()], "Sti"),
        (Rule::StrInstruction, vec![register(), register(), immediate()], "Str"),
        (Rule::JmpInstruction, vec![register()], "Jmp"),
        (Rule::JsrInstruction, vec![label()], "Jsr"),
        (Rule::JsrrInstruction, vec![register()], "Jsrr"),
        (Rule::NopInstruction, vec![], "Nop"),
        (Rule::RetInstruction, vec![], "Ret"),
        (Rule::HaltInstruction, vec![], "Halt"),
        (Rule::PutsInstruction, vec![], "Puts"),
        (Rule::GetcInstruction, vec![], "Getc"),
        (Rule::OutInstruction, vec![], "Out"),
        (Rule::InInstruction, vec![], "In"),
        (Rule::TrapInstruction, vec![leaf(Rule::HexAddress, "x25", 5)], "Trap"),
    ];
    for (rule, operands, name) in cases {
        let mut line = vec![leaf(rule, "WORD", 0)];
        line.extend(operands);
        let found = parse_instruction(&instruction(line)).unwrap();
        let shown = format!("{:?}", found.instruction_type());
        assert!(shown.starts_with(name), "{shown} for {name}");
        assert!(!shown[name.len()..].starts_with(|c: char| c.is_alphabetic()), "{shown}");
    }
}

#[test]
fn branch_conditions() {
    let cases = [
        ("BR", BrType::Bare),
        ("BRn", BrType::N),
        ("brz", BrType::Z),
        ("BrP", BrType::P),
        ("BRnz", BrType::Nz),
        ("BRZP", BrType::Zp),
        ("BRpn", BrType::Np),
        ("brNZP", BrType::Nzp),
        ("BRpzn", BrType::Nzp),
    ];
    for (mnemonic, expected) in cases {
        assert_eq!(br_type(mnemonic), Ok(expected), "{mnemonic}");
    }
    assert_eq!(br_type("BRx"), Err(MalformedTree));
    assert_eq!(br_type("B"), Err(MalformedTree));
    assert_eq!(br_type("JMP"), Err(MalformedTree));

    let tree = instruction(vec![
        leaf(Rule::BrInstruction, "BRnp", 0),
        leaf(Rule::LabelReference, "LOOP", 5),
    ]);
    match parse_instruction(&tree).unwrap().instruction_type() {
        InstructionType::Br(BrType::Np, label) => assert_eq!(label.content(), "LOOP"),
        other => panic!("{other:?}"),
    }
}

#[test]
fn registers() {
    for (text, expected) in [
        ("R0", RegisterType::R0),
        ("r1", RegisterType::R1),
        ("R2", RegisterType::R2),
        ("R3", RegisterType::R3),
        ("r4", RegisterType::R4),
        ("R5", RegisterType::R5),
        ("R6", RegisterType::R6),
        ("r7", RegisterType::R7),
    ] {
        let found = parse_register(&leaf(Rule::Register, text, 0)).unwrap();
        assert_eq!(found.register_type(), &expected);
        assert_eq!(found.content(), text);
    }
    assert!(parse_register(&leaf(Rule::Register, "R8", 0)).is_err());
    assert!(parse_register(&leaf(Rule::Register, "R", 0)).is_err());
    assert!(parse_register(&leaf(Rule::Register, "X1", 0)).is_err());
    assert!(parse_register(&leaf(Rule::Register, "R10", 0)).is_err());
    assert!(parse_register(&leaf(Rule::Immediate, "R1", 0)).is_err());
    assert!(parse_register_immediate(&leaf(Rule::LabelReference, "R1", 0)).is_err());
}

#[test]
fn directives() {
    let orig = directive(vec![
        leaf(Rule::OrigDirective, ".ORIG", 0),
        leaf(Rule::HexAddress, "x3000", 6),
    ]);
    let found = parse_directive(&orig).unwrap();
    assert_eq!(found.content(), ".ORIG");
    assert!(matches!(found.directive_type(), DirectiveType::ORIG(a) if a.content() == "x3000"));

    let end = directive(vec![leaf(Rule::EndDirective, ".end", 0)]);
    let found = parse_directive(&end).unwrap();
    assert!(matches!(found.directive_type(), DirectiveType::END));

    let blkw = directive(vec![
        leaf(Rule::BlkwDirective, ".BLKW", 0),
        leaf(Rule::Immediate, "#10", 6),
    ]);
    let found = parse_directive(&blkw).unwrap();
    assert!(matches!(found.directive_type(), DirectiveType::BLKW(i) if i.content() == "#10"));

    let fill = directive(vec![
        leaf(Rule::FillDirective, ".FILL", 0),
        leaf(Rule::Immediate, "x0A", 6),
    ]);
    let found = parse_directive(&fill).unwrap();
    assert!(matches!(found.directive_type(), DirectiveType::FILL(i) if i.content() == "x0A"));

    let stringz = directive(vec![
        leaf(Rule::StringzDirective, ".STRINGZ", 0),
        leaf(Rule::StringLiteral, "\"hi\"", 9),
    ]);
    let found = parse_directive(&stringz).unwrap();
    assert!(
        matches!(found.directive_type(), DirectiveType::STRINGZ(s) if s.content() == "\"hi\"")
    );
}

#[test]
fn malformed_trees_are_refused() {
    // a missing operand
    let tree = instruction(vec![
        leaf(Rule::AddInstruction, "ADD", 0),
        leaf(Rule::Register, "R1", 4),
        leaf(Rule::Register, "R2", 8),
    ]);
    assert_eq!(parse_instruction(&tree).err(), Some(MalformedTree));
    // an operand of another form
    let tree = instruction(vec![
        leaf(Rule::LdInstruction, "LD", 0),
        leaf(Rule::Register, "R1", 3),
        leaf(Rule::Immediate, "#1", 7),
    ]);
    assert!(parse_instruction(&tree).is_err());
    // a mnemonic that is none
    let tree = instruction(vec![leaf(Rule::Label, "ADD", 0)]);
    assert!(parse_instruction(&tree).is_err());
    // no line, and an empty line
    assert!(parse_instruction(&Pair::node(Rule::Instruction, "", 0, 0, vec![])).is_err());
    assert!(parse_instruction(&instruction(vec![])).is_err());
    // another node than an instruction
    let tree = directive(vec![leaf(Rule::NopInstruction, "NOP", 0)]);
    assert!(parse_instruction(&tree).is_err());
    assert!(parse_directive(&instruction(vec![leaf(Rule::EndDirective, ".END", 0)])).is_err());
    // a directive without its dot, a comment without its semicolon
    assert!(parse_directive(&directive(vec![leaf(Rule::EndDirective, "END", 0)])).is_err());
    assert!(parse_program_item(&leaf(Rule::Comment, "note", 0)).is_err());
    // a child of the root that is no item
    assert!(parse_program_item(&leaf(Rule::Register, "R1", 0)).is_err());
    // a root that is no program
    assert!(parse_ast(&leaf(Rule::Comment, "; x", 0)).is_err());
    // one bad child spoils the program
    let root = Pair::node(
        Rule::Program,
        "",
        0,
        0,
        vec![leaf(Rule::Label, "A", 0), leaf(Rule::Immediate, "#1", 2), leaf(Rule::EOI, "", 4)],
    );
    assert!(parse_ast(&root).is_err());
}

#[test]
fn items_follow_the_children_and_stop_at_the_end_marker() {
    let root = Pair::node(
        Rule::Program,
        "",
        0,
        30,
        vec![
            leaf(Rule::Comment, "; one", 0),
            leaf(Rule::Label, "L:", 6),
            instruction(vec![leaf(Rule::HaltInstruction, "HALT", 9)]),
            directive(vec![leaf(Rule::EndDirective, ".END", 14)]),
            leaf(Rule::EOI, "", 18),
            leaf(Rule::Label, "AFTER", 19),
        ],
    );
    let items = parse_ast(&root).unwrap().items();
    assert_eq!(items.len(), 4);
    assert!(matches!(&items[0], ProgramItem::Comment(c) if c.content() == "; one"));
    assert!(matches!(&items[1], ProgramItem::Label(l) if l.content() == "L:"));
    assert!(matches!(&items[2], ProgramItem::Instruction(i) if i.content() == "HALT"));
    assert!(matches!(&items[3], ProgramItem::Directive(d) if d.content() == ".END"));

    assert!(parse_program_item(&leaf(Rule::EOI, "", 0)).unwrap().is_none());
    let empty = Pair::node(Rule::Program, "", 0, 0, vec![]);
    assert_eq!(parse_ast(&empty).unwrap().items().len(), 0);
}

#[test]
fn nodes_beyond_the_operands_are_not_looked_at() {
    let tree = instruction(vec![
        leaf(Rule::RetInstruction, "RET", 0),
        leaf(Rule::Comment, "junk", 4),
    ]);
    assert!(parse_instruction(&tree).is_ok());
}
