//! The typed program: what the concrete syntax tree says, item by item.

use crate::ast::tree::{Pair, Rule};
use crate::model::views;
use crate::text::{contains_char, starts_with_char};
use either::Either;
use vstd::prelude::*;

verus! {

/// `either::Either`, a value of one of two types. The declaration lets
/// Verus read the two variants, `Left` and `Right`, from the crate's own
/// definition; nothing else is said of the type.
#[verifier::external_type_specification]
#[verifier::reject_recursive_types(L)]
#[verifier::reject_recursive_types(R)]
pub struct ExEither<L, R>(Either<L, R>);

/// A half-open range `[start, end)` of byte offsets into the source text.
#[derive(Debug, Clone, Copy, PartialEq, Eq, Structural)]
pub struct Span {
    pub start: usize,
    pub end: usize,
}

impl Span {
    pub fn start(&self) -> (start: &usize)
        ensures
            *start == self.start,
    {
        &self.start
    }

    pub fn end(&self) -> (end: &usize)
        ensures
            *end == self.end,
    {
        &self.end
    }
}

/// The model of a token: its text and where it stands.
pub struct Lexeme {
    pub content: Seq<char>,
    pub span: Span,
}

/// A line comment, from its `;` to the end of the line.
#[derive(Debug)]
pub struct Comment {
    pub content: String,
    pub span: Span,
}

/// A label as written, with its colon if it has one.
#[derive(Debug)]
pub struct Label {
    pub content: String,
    pub span: Span,
}

/// The eight registers.
#[derive(Debug, Clone, Copy, PartialEq, Eq, Structural)]
pub enum RegisterType {
    R0,
    R1,
    R2,
    R3,
    R4,
    R5,
    R6,
    R7,
}

/// A register operand as written, and the register it names.
#[derive(Debug)]
pub struct Register {
    pub content: String,
    pub span: Span,
    pub register_type: RegisterType,
}

/// A label named as an operand.
#[derive(Debug)]
pub struct LabelReference {
    pub content: String,
    pub span: Span,
}

/// The condition codes of a branch, read off the letters after `BR`.
#[derive(Debug, Clone, Copy, PartialEq, Eq, Structural)]
pub enum BrType {
    N,
    Z,
    P,
    Nz,
    Zp,
    Np,
    Nzp,
    /// No letter at all: a bare `BR`.
    Bare,
}

/// A string between double quotes, quotes included, as written.
#[derive(Debug)]
pub struct StringLiteral {
    pub content: String,
    pub span: Span,
}

/// A number operand as written; it is carried as text.
#[derive(Debug)]
pub struct Immediate {
    pub content: String,
    pub span: Span,
}

/// An address in hexadecimal as written; it is carried as text.
#[derive(Debug)]
pub struct HexAddress {
    pub content: String,
    pub span: Span,
}

/// The shapes of instructions, each with its operands.
#[derive(Debug)]
pub enum InstructionType {
    // arithmetic
    Add(Register, Register, Either<Register, Immediate>),
    And(Register, Register, Either<Register, Immediate>),
    Not(Register, Register),
    // load and store
    Ld(Register, LabelReference),
    Ldi(Register, LabelReference),
    Ldr(Register, Register, Immediate),
    Lea(Register, LabelReference),
    St(Register, LabelReference),
    Sti(Register, LabelReference),
    Str(Register, Register, Immediate),
    // branch
    Br(BrType, LabelReference),
    Jmp(Register),
    Jsr(LabelReference),
    Jsrr(Register),
    // control
    Nop,
    Ret,
    Halt,
    // io
    Puts,
    Getc,
    Out,
    In,
    // trap
    Trap(HexAddress),
}

/// An instruction: its shape, its mnemonic as written, and the place of
/// the mnemonic.
#[derive(Debug)]
pub struct Instruction {
    pub instruction_type: InstructionType,
    pub content: String,
    pub span: Span,
}

/// The shapes of directives, each with its operand.
#[derive(Debug)]
pub enum DirectiveType {
    ORIG(HexAddress),
    END,
    BLKW(Immediate),
    FILL(Immediate),
    STRINGZ(StringLiteral),
}

/// A directive: its shape, its keyword as written with the leading `.`,
/// and the place of the keyword.
#[derive(Debug)]
pub struct Directive {
    pub directive_type: DirectiveType,
    pub content: String,
    pub span: Span,
}

/// One item of the typed program. Labels are items of their own here.
#[derive(Debug)]
pub enum ProgramItem {
    Comment(Comment),
    Label(Label),
    Instruction(Instruction),
    Directive(Directive),
}

/// The typed program: the items of a source text in source order.
#[derive(Debug)]
pub struct Program {
    pub items: Vec<ProgramItem>,
}

/// The tree does not have the shape that the adapter expects of the grammar.
#[derive(Debug, Clone, Copy, PartialEq, Eq, Structural)]
pub struct MalformedTree;

// ---------------------------------------------------------------------------
// Models
// ---------------------------------------------------------------------------

/// The model of a register operand.
pub struct RegisterView {
    pub content: Seq<char>,
    pub span: Span,
    pub register_type: RegisterType,
}

/// The model of an operand of any form.
pub enum Operand {
    Register(RegisterView),
    Immediate(Lexeme),
    LabelReference(Lexeme),
    HexAddress(Lexeme),
    StringLiteral(Lexeme),
}

impl Operand {
    /// The operand as written.
    pub open spec fn content(self) -> Seq<char> {
        match self {
            Operand::Register(r) => r.content,
            Operand::Immediate(l) => l.content,
            Operand::LabelReference(l) => l.content,
            Operand::HexAddress(l) => l.content,
            Operand::StringLiteral(l) => l.content,
        }
    }
}

/// What an instruction does, apart from its operands.
pub enum Opcode {
    Add,
    And,
    Not,
    Ld,
    Ldi,
    Ldr,
    Lea,
    St,
    Sti,
    Str,
    Br(BrType),
    Jmp,
    Jsr,
    Jsrr,
    Nop,
    Ret,
    Halt,
    Puts,
    Getc,
    Out,
    In,
    Trap,
}

/// The model of an instruction: its opcode, its operands in source order,
/// the mnemonic as written and the mnemonic's place.
pub struct InstructionView {
    pub opcode: Opcode,
    pub operands: Seq<Operand>,
    pub content: Seq<char>,
    pub span: Span,
}

/// What a directive does, apart from its operand.
pub enum DirectiveKind {
    Orig,
    End,
    Blkw,
    Fill,
    Stringz,
}

/// The model of a directive, laid out like that of an instruction.
pub struct DirectiveView {
    pub kind: DirectiveKind,
    pub operands: Seq<Operand>,
    pub content: Seq<char>,
    pub span: Span,
}

/// The model of an item of the typed program.
pub enum ItemView {
    Comment(Lexeme),
    Label(Lexeme),
    Instruction(InstructionView),
    Directive(DirectiveView),
}

impl View for Comment {
    type V = Lexeme;

    open spec fn view(&self) -> Lexeme {
        Lexeme { content: self.content@, span: self.span }
    }
}

impl View for Label {
    type V = Lexeme;

    open spec fn view(&self) -> Lexeme {
        Lexeme { content: self.content@, span: self.span }
    }
}

impl View for LabelReference {
    type V = Lexeme;

    open spec fn view(&self) -> Lexeme {
        Lexeme { content: self.content@, span: self.span }
    }
}

impl View for StringLiteral {
    type V = Lexeme;

    open spec fn view(&self) -> Lexeme {
        Lexeme { content: self.content@, span: self.span }
    }
}

impl View for Immediate {
    type V = Lexeme;

    open spec fn view(&self) -> Lexeme {
        Lexeme { content: self.content@, span: self.span }
    }
}

impl View for HexAddress {
    type V = Lexeme;

    open spec fn view(&self) -> Lexeme {
        Lexeme { content: self.content@, span: self.span }
    }
}

impl View for Register {
    type V = RegisterView;

    open spec fn view(&self) -> RegisterView {
        RegisterView {
            content: self.content@,
            span: self.span,
            register_type: self.register_type,
        }
    }
}

/// The model of the third operand of `ADD` and `AND`.
pub open spec fn register_or_immediate(operand: Either<Register, Immediate>) -> Operand {
    match operand {
        Either::Left(r) => Operand::Register(r@),
        Either::Right(i) => Operand::Immediate(i@),
    }
}

impl InstructionType {
    /// What the instruction does.
    pub open spec fn opcode(self) -> Opcode {
        match self {
            InstructionType::Add(..) => Opcode::Add,
            InstructionType::And(..) => Opcode::And,
            InstructionType::Not(..) => Opcode::Not,
            InstructionType::Ld(..) => Opcode::Ld,
            InstructionType::Ldi(..) => Opcode::Ldi,
            InstructionType::Ldr(..) => Opcode::Ldr,
            InstructionType::Lea(..) => Opcode::Lea,
            InstructionType::St(..) => Opcode::St,
            InstructionType::Sti(..) => Opcode::Sti,
            InstructionType::Str(..) => Opcode::Str,
            InstructionType::Br(br, _) => Opcode::Br(br),
            InstructionType::Jmp(..) => Opcode::Jmp,
            InstructionType::Jsr(..) => Opcode::Jsr,
            InstructionType::Jsrr(..) => Opcode::Jsrr,
            InstructionType::Nop => Opcode::Nop,
            InstructionType::Ret => Opcode::Ret,
            InstructionType::Halt => Opcode::Halt,
            InstructionType::Puts => Opcode::Puts,
            InstructionType::Getc => Opcode::Getc,
            InstructionType::Out => Opcode::Out,
            InstructionType::In => Opcode::In,
            InstructionType::Trap(..) => Opcode::Trap,
        }
    }

    /// The operands of the instruction, in source order.
    pub open spec fn operands(self) -> Seq<Operand> {
        match self {
            InstructionType::Add(a, b, c) | InstructionType::And(a, b, c) => seq![
                Operand::Register(a@),
                Operand::Register(b@),
                register_or_immediate(c),
            ],
            InstructionType::Not(a, b) => seq![Operand::Register(a@), Operand::Register(b@)],
            InstructionType::Ld(a, l)
            | InstructionType::Ldi(a, l)
            | InstructionType::Lea(a, l)
            | InstructionType::St(a, l)
            | InstructionType::Sti(a, l) => seq![
                Operand::Register(a@),
                Operand::LabelReference(l@),
            ],
            InstructionType::Ldr(a, b, i) | InstructionType::Str(a, b, i) => seq![
                Operand::Register(a@),
                Operand::Register(b@),
                Operand::Immediate(i@),
            ],
            InstructionType::Br(_, l) | InstructionType::Jsr(l) => seq![
                Operand::LabelReference(l@),
            ],
            InstructionType::Jmp(a) | InstructionType::Jsrr(a) => seq![Operand::Register(a@)],
            InstructionType::Nop
            | InstructionType::Ret
            | InstructionType::Halt
            | InstructionType::Puts
            | InstructionType::Getc
            | InstructionType::Out
            | InstructionType::In => Seq::empty(),
            InstructionType::Trap(h) => seq![Operand::HexAddress(h@)],
        }
    }
}

impl View for Instruction {
    type V = InstructionView;

    open spec fn view(&self) -> InstructionView {
        InstructionView {
            opcode: self.instruction_type.opcode(),
            operands: self.instruction_type.operands(),
            content: self.content@,
            span: self.span,
        }
    }
}

impl DirectiveType {
    /// What the directive does.
    pub open spec fn kind(self) -> DirectiveKind {
        match self {
            DirectiveType::ORIG(..) => DirectiveKind::Orig,
            DirectiveType::END => DirectiveKind::End,
            DirectiveType::BLKW(..) => DirectiveKind::Blkw,
            DirectiveType::FILL(..) => DirectiveKind::Fill,
            DirectiveType::STRINGZ(..) => DirectiveKind::Stringz,
        }
    }

    /// The operand of the directive, if it has one.
    pub open spec fn operands(self) -> Seq<Operand> {
        match self {
            DirectiveType::ORIG(h) => seq![Operand::HexAddress(h@)],
            DirectiveType::END => Seq::empty(),
            DirectiveType::BLKW(i) | DirectiveType::FILL(i) => seq![Operand::Immediate(i@)],
            DirectiveType::STRINGZ(s) => seq![Operand::StringLiteral(s@)],
        }
    }
}

impl View for Directive {
    type V = DirectiveView;

    open spec fn view(&self) -> DirectiveView {
        DirectiveView {
            kind: self.directive_type.kind(),
            operands: self.directive_type.operands(),
            content: self.content@,
            span: self.span,
        }
    }
}

impl View for ProgramItem {
    type V = ItemView;

    open spec fn view(&self) -> ItemView {
        match self {
            ProgramItem::Comment(c) => ItemView::Comment(c@),
            ProgramItem::Label(l) => ItemView::Label(l@),
            ProgramItem::Instruction(i) => ItemView::Instruction(i@),
            ProgramItem::Directive(d) => ItemView::Directive(d@),
        }
    }
}

impl View for Program {
    type V = Seq<ItemView>;

    open spec fn view(&self) -> Seq<ItemView> {
        views(self.items@)
    }
}


impl ItemView {
    /// A comment begins with `;` and a directive with `.`.
    pub open spec fn wf(self) -> bool {
        match self {
            ItemView::Comment(c) => c.content.len() > 0 && c.content[0] == ';',
            ItemView::Directive(d) => d.content.len() > 0 && d.content[0] == '.',
            _ => true,
        }
    }
}

impl Program {
    /// Every comment begins with `;` and every directive with `.`.
    pub open spec fn wf(&self) -> bool {
        forall|i: int| 0 <= i < self@.len() ==> (#[trigger] self@[i]).wf()
    }

    /// The items, in source order.
    pub fn items(self) -> (items: Vec<ProgramItem>)
        ensures
            items == self.items,
    {
        self.items
    }
}

// ---------------------------------------------------------------------------
// What a tree says
// ---------------------------------------------------------------------------

/// The forms an operand position can ask for.
pub enum Slot {
    Register,
    Immediate,
    LabelReference,
    HexAddress,
    StringLiteral,
    RegisterOrImmediate,
}

/// The token that a node covers: its text and its span.
pub open spec fn lexeme_of(pair: Pair) -> Lexeme {
    Lexeme { content: pair.text@, span: pair.span }
}

/// The register that `text` names: `R` or `r` and a digit from 0 to 7.
pub open spec fn register_type_of(text: Seq<char>) -> Option<RegisterType> {
    if text.len() == 2 && (text[0] == 'R' || text[0] == 'r') {
        let digit = text[1];
        if digit == '0' {
            Some(RegisterType::R0)
        } else if digit == '1' {
            Some(RegisterType::R1)
        } else if digit == '2' {
            Some(RegisterType::R2)
        } else if digit == '3' {
            Some(RegisterType::R3)
        } else if digit == '4' {
            Some(RegisterType::R4)
        } else if digit == '5' {
            Some(RegisterType::R5)
        } else if digit == '6' {
            Some(RegisterType::R6)
        } else if digit == '7' {
            Some(RegisterType::R7)
        } else {
            None
        }
    } else {
        None
    }
}

/// Whether `text` holds the letter in either case.
pub open spec fn has_letter(text: Seq<char>, lower: char, upper: char) -> bool {
    text.contains(lower) || text.contains(upper)
}

/// The condition codes that the letters after `BR` select.
pub open spec fn br_type_of_suffix(suffix: Seq<char>) -> Option<BrType> {
    let n = has_letter(suffix, 'n', 'N');
    let z = has_letter(suffix, 'z', 'Z');
    let p = has_letter(suffix, 'p', 'P');
    if n && z && p {
        Some(BrType::Nzp)
    } else if n && z {
        Some(BrType::Nz)
    } else if n && p {
        Some(BrType::Np)
    } else if z && p {
        Some(BrType::Zp)
    } else if n {
        Some(BrType::N)
    } else if p {
        Some(BrType::P)
    } else if z {
        Some(BrType::Z)
    } else if suffix.len() == 0 {
        Some(BrType::Bare)
    } else {
        None
    }
}

/// The condition codes of a branch mnemonic: `BR` in either case, then
/// letters.
pub open spec fn br_type_of(mnemonic: Seq<char>) -> Option<BrType> {
    if mnemonic.len() >= 2 && (mnemonic[0] == 'B' || mnemonic[0] == 'b') && (mnemonic[1] == 'R'
        || mnemonic[1] == 'r') {
        br_type_of_suffix(mnemonic.skip(2))
    } else {
        None
    }
}

/// The opcode that a mnemonic node selects.
pub open spec fn opcode_of(head: Pair) -> Option<Opcode> {
    match head.rule {
        Rule::AddInstruction => Some(Opcode::Add),
        Rule::AndInstruction => Some(Opcode::And),
        Rule::NotInstruction => Some(Opcode::Not),
        Rule::LdInstruction => Some(Opcode::Ld),
        Rule::LdiInstruction => Some(Opcode::Ldi),
        Rule::LdrInstruction => Some(Opcode::Ldr),
        Rule::LeaInstruction => Some(Opcode::Lea),
        Rule::StInstruction => Some(Opcode::St),
        Rule::StiInstruction => Some(Opcode::Sti),
        Rule::StrInstruction => Some(Opcode::Str),
        Rule::BrInstruction => match br_type_of(head.text@) {
            Some(br) => Some(Opcode::Br(br)),
            None => None,
        },
        Rule::JmpInstruction => Some(Opcode::Jmp),
        Rule::JsrInstruction => Some(Opcode::Jsr),
        Rule::JsrrInstruction => Some(Opcode::Jsrr),
        Rule::NopInstruction => Some(Opcode::Nop),
        Rule::RetInstruction => Some(Opcode::Ret),
        Rule::HaltInstruction => Some(Opcode::Halt),
        Rule::PutsInstruction => Some(Opcode::Puts),
        Rule::GetcInstruction => Some(Opcode::Getc),
        Rule::OutInstruction => Some(Opcode::Out),
        Rule::InInstruction => Some(Opcode::In),
        Rule::TrapInstruction => Some(Opcode::Trap),
        _ => None,
    }
}

/// The operand forms of each opcode, in source order.
pub open spec fn shape_of(opcode: Opcode) -> Seq<Slot> {
    match opcode {
        Opcode::Add | Opcode::And => seq![Slot::Register, Slot::Register, Slot::RegisterOrImmediate],
        Opcode::Not => seq![Slot::Register, Slot::Register],
        Opcode::Ld | Opcode::Ldi | Opcode::Lea | Opcode::St | Opcode::Sti => seq![
            Slot::Register,
            Slot::LabelReference,
        ],
        Opcode::Ldr | Opcode::Str => seq![Slot::Register, Slot::Register, Slot::Immediate],
        Opcode::Br(_) | Opcode::Jsr => seq![Slot::LabelReference],
        Opcode::Jmp | Opcode::Jsrr => seq![Slot::Register],
        Opcode::Nop
        | Opcode::Ret
        | Opcode::Halt
        | Opcode::Puts
        | Opcode::Getc
        | Opcode::Out
        | Opcode::In => Seq::empty(),
        Opcode::Trap => seq![Slot::HexAddress],
    }
}

/// The directive that a keyword node selects.
pub open spec fn directive_kind_of(rule: Rule) -> Option<DirectiveKind> {
    match rule {
        Rule::OrigDirective => Some(DirectiveKind::Orig),
        Rule::EndDirective => Some(DirectiveKind::End),
        Rule::BlkwDirective => Some(DirectiveKind::Blkw),
        Rule::FillDirective => Some(DirectiveKind::Fill),
        Rule::StringzDirective => Some(DirectiveKind::Stringz),
        _ => None,
    }
}

/// The operand forms of each directive.
pub open spec fn directive_shape_of(kind: DirectiveKind) -> Seq<Slot> {
    match kind {
        DirectiveKind::Orig => seq![Slot::HexAddress],
        DirectiveKind::End => Seq::empty(),
        DirectiveKind::Blkw | DirectiveKind::Fill => seq![Slot::Immediate],
        DirectiveKind::Stringz => seq![Slot::StringLiteral],
    }
}

/// The register operand that a `Register` node gives.
pub open spec fn spec_register(pair: Pair) -> Option<RegisterView> {
    if pair.rule == Rule::Register {
        match register_type_of(pair.text@) {
            Some(register_type) => Some(
                RegisterView { content: pair.text@, span: pair.span, register_type },
            ),
            None => None,
        }
    } else {
        None
    }
}

/// The token that a node with the tag `rule` gives.
pub open spec fn spec_token(rule: Rule, pair: Pair) -> Option<Lexeme> {
    if pair.rule == rule {
        Some(lexeme_of(pair))
    } else {
        None
    }
}

/// The operand that a node gives for a position, or `None` where the node
/// has another form than the position asks for.
pub open spec fn spec_operand(slot: Slot, pair: Pair) -> Option<Operand> {
    match slot {
        Slot::Register => match spec_register(pair) {
            Some(r) => Some(Operand::Register(r)),
            None => None,
        },
        Slot::Immediate => match spec_token(Rule::Immediate, pair) {
            Some(l) => Some(Operand::Immediate(l)),
            None => None,
        },
        Slot::LabelReference => match spec_token(Rule::LabelReference, pair) {
            Some(l) => Some(Operand::LabelReference(l)),
            None => None,
        },
        Slot::HexAddress => match spec_token(Rule::HexAddress, pair) {
            Some(l) => Some(Operand::HexAddress(l)),
            None => None,
        },
        Slot::StringLiteral => match spec_token(Rule::StringLiteral, pair) {
            Some(l) => Some(Operand::StringLiteral(l)),
            None => None,
        },
        Slot::RegisterOrImmediate => if pair.rule == Rule::Register {
            match spec_register(pair) {
                Some(r) => Some(Operand::Register(r)),
                None => None,
            }
        } else {
            match spec_token(Rule::Immediate, pair) {
                Some(l) => Some(Operand::Immediate(l)),
                None => None,
            }
        },
    }
}

/// The operand at position `i` of a line whose nodes after the mnemonic are
/// `arguments`.
pub open spec fn operand_at(shape: Seq<Slot>, arguments: Seq<Pair>, i: int) -> Option<Operand> {
    spec_operand(shape[i], arguments[i])
}

/// The operands of a line: its nodes after the first, taken position by
/// position. Nodes beyond the last position are not looked at.
pub open spec fn spec_operands(shape: Seq<Slot>, line: Seq<Pair>) -> Option<Seq<Operand>> {
    let arguments = line.skip(1);
    if line.len() >= 1 + shape.len() && (forall|i: int|
        0 <= i < shape.len() ==> (#[trigger] operand_at(shape, arguments, i)) is Some) {
        Some(Seq::new(shape.len(), |i: int| operand_at(shape, arguments, i).unwrap()))
    } else {
        None
    }
}

/// The instruction that an `Instruction` node holds: its single child is the
/// line, the line's first child the mnemonic, the rest the operands.
pub open spec fn spec_instruction(pair: Pair) -> Option<InstructionView> {
    if pair.rule == Rule::Instruction && pair.inner@.len() >= 1 && pair.inner@[0].inner@.len()
        >= 1 {
        let line = pair.inner@[0].inner@;
        let head = line[0];
        match opcode_of(head) {
            Some(opcode) => match spec_operands(shape_of(opcode), line) {
                Some(operands) => Some(
                    InstructionView { opcode, operands, content: head.text@, span: head.span },
                ),
                None => None,
            },
            None => None,
        }
    } else {
        None
    }
}

/// The directive that a `Directive` node holds, laid out like an
/// instruction. The keyword begins with `.`.
pub open spec fn spec_directive(pair: Pair) -> Option<DirectiveView> {
    if pair.rule == Rule::Directive && pair.inner@.len() >= 1 && pair.inner@[0].inner@.len() >= 1 {
        let line = pair.inner@[0].inner@;
        let head = line[0];
        match directive_kind_of(head.rule) {
            Some(kind) => match spec_operands(directive_shape_of(kind), line) {
                Some(operands) => if head.text@.len() > 0 && head.text@[0] == '.' {
                    Some(DirectiveView { kind, operands, content: head.text@, span: head.span })
                } else {
                    None
                },
                None => None,
            },
            None => None,
        }
    } else {
        None
    }
}

/// What a child of the root gives.
pub enum Decoded {
    /// An item of the program.
    Item(ItemView),
    /// The end-of-input marker.
    End,
    /// Nothing the adapter knows.
    Malformed,
}

/// What a child of the root gives: an item by its tag, the end of the
/// program for the end-of-input marker, nothing for any other node. A
/// comment begins with `;`.
pub open spec fn spec_item(pair: Pair) -> Decoded {
    match pair.rule {
        Rule::Comment => if pair.text@.len() > 0 && pair.text@[0] == ';' {
            Decoded::Item(ItemView::Comment(lexeme_of(pair)))
        } else {
            Decoded::Malformed
        },
        Rule::Label => Decoded::Item(ItemView::Label(lexeme_of(pair))),
        Rule::Instruction => match spec_instruction(pair) {
            Some(i) => Decoded::Item(ItemView::Instruction(i)),
            None => Decoded::Malformed,
        },
        Rule::Directive => match spec_directive(pair) {
            Some(d) => Decoded::Item(ItemView::Directive(d)),
            None => Decoded::Malformed,
        },
        Rule::EOI => Decoded::End,
        _ => Decoded::Malformed,
    }
}

/// The items that the children of the root give, up to the end-of-input
/// marker; `None` where a child before the marker is malformed.
pub open spec fn spec_items(children: Seq<Pair>) -> Option<Seq<ItemView>>
    decreases children.len(),
{
    if children.len() == 0 {
        Some(Seq::empty())
    } else {
        match spec_item(children[0]) {
            Decoded::Malformed => None,
            Decoded::End => Some(Seq::empty()),
            Decoded::Item(item) => match spec_items(children.skip(1)) {
                Some(rest) => Some(seq![item] + rest),
                None => None,
            },
        }
    }
}

/// The program that a tree holds; `None` where the tree is malformed.
pub open spec fn spec_program(pair: Pair) -> Option<Seq<ItemView>> {
    if pair.rule == Rule::Program {
        spec_items(pair.inner@)
    } else {
        None
    }
}


// ---------------------------------------------------------------------------
// The adapter
// ---------------------------------------------------------------------------

/// `items` followed by what `rest` gives, where it gives anything.
pub open spec fn prefixed(items: Seq<ItemView>, rest: Option<Seq<ItemView>>) -> Option<
    Seq<ItemView>,
> {
    match rest {
        Some(rest) => Some(items + rest),
        None => None,
    }
}

/// Decodes the tree of a whole program.
///
/// The items come in the order of the root's children and stop at the
/// end-of-input marker. A tree of another shape than the grammar promises is
/// refused as a whole.
pub fn parse_ast(pair: &Pair) -> (r: Result<Program, MalformedTree>)
    ensures
        match r {
            Ok(program) => spec_program(*pair) == Some(program@) && program.wf(),
            Err(_) => spec_program(*pair) is None,
        },
{
    if pair.rule != Rule::Program {
        return Err(MalformedTree);
    }
    let ghost children = pair.inner@;
    let mut items: Vec<ProgramItem> = Vec::new();
    let mut i: usize = 0;
    proof {
        assert(children.skip(0) =~= children);
        assert(views(items@) + spec_items(children)->Some_0 =~= spec_items(children)->Some_0);
    }
    while i < pair.inner.len()
        invariant
            pair.rule == Rule::Program,
            i <= pair.inner@.len(),
            children == pair.inner@,
            spec_items(children) == prefixed(views(items@), spec_items(children.skip(i as int))),
            forall|k: int| 0 <= k < items@.len() ==> (#[trigger] views(items@)[k]).wf(),
        decreases pair.inner@.len() - i,
    {
        let ghost before = views(items@);
        let ghost tail = children.skip(i as int);
        proof {
            assert(tail[0] == children[i as int]);
            assert(tail.skip(1) =~= children.skip(i + 1));
        }
        match parse_program_item(&pair.inner[i]) {
            Err(e) => {
                return Err(e);
            },
            Ok(None) => {
                proof {
                    assert(before + Seq::<ItemView>::empty() =~= before);
                    assert(spec_items(tail) == Some(Seq::<ItemView>::empty()));
                }
                return Ok(Program { items });
            },
            Ok(Some(item)) => {
                items.push(item);
                proof {
                    assert(views(items@) =~= before.push(item@));
                    match spec_items(children.skip(i + 1)) {
                        Some(rest) => {
                            assert(before + (seq![item@] + rest) =~= before.push(item@) + rest);
                        },
                        None => {},
                    }
                }
            },
        }
        i += 1;
    }
    proof {
        assert(views(items@) + Seq::<ItemView>::empty() =~= views(items@));
    }
    Ok(Program { items })
}

/// Decodes one child of the root; `None` stands for the end-of-input marker.
pub fn parse_program_item(pair: &Pair) -> (r: Result<Option<ProgramItem>, MalformedTree>)
    ensures
        match r {
            Ok(Some(item)) => spec_item(*pair) == Decoded::Item(item@) && item@.wf(),
            Ok(None) => spec_item(*pair) == Decoded::End,
            Err(_) => spec_item(*pair) == Decoded::Malformed,
        },
{
    match pair.rule {
        Rule::Comment => match parse_comment(pair) {
            Ok(comment) => Ok(Some(ProgramItem::Comment(comment))),
            Err(e) => Err(e),
        },
        Rule::Label => Ok(Some(ProgramItem::Label(parse_label(pair)))),
        Rule::Instruction => match parse_instruction(pair) {
            Ok(instruction) => Ok(Some(ProgramItem::Instruction(instruction))),
            Err(e) => Err(e),
        },
        Rule::Directive => match parse_directive(pair) {
            Ok(directive) => Ok(Some(ProgramItem::Directive(directive))),
            Err(e) => Err(e),
        },
        Rule::EOI => Ok(None),
        _ => Err(MalformedTree),
    }
}

/// Decodes a comment node; its text begins with `;`.
pub fn parse_comment(pair: &Pair) -> (r: Result<Comment, MalformedTree>)
    ensures
        match r {
            Ok(comment) => comment@ == lexeme_of(*pair) && comment@.content.len() > 0
                && comment@.content[0] == ';',
            Err(_) => !(pair.text@.len() > 0 && pair.text@[0] == ';'),
        },
{
    if starts_with_char(pair.text.as_str(), ';') {
        Ok(Comment { content: pair.text.clone(), span: pair.span })
    } else {
        Err(MalformedTree)
    }
}

/// Decodes a label node.
pub fn parse_label(pair: &Pair) -> (label: Label)
    ensures
        label@ == lexeme_of(*pair),
{
    Label { content: pair.text.clone(), span: pair.span }
}

/// The child of `pair` at `index`.
fn child(pair: &Pair, index: usize) -> (r: Result<&Pair, MalformedTree>)
    ensures
        match r {
            Ok(c) => index < pair.inner@.len() && *c == pair.inner@[index as int],
            Err(_) => index >= pair.inner@.len(),
        },
{
    if index < pair.inner.len() {
        Ok(&pair.inner[index])
    } else {
        Err(MalformedTree)
    }
}

/// The operands that were found are the operands of the line.
proof fn lemma_operands(shape: Seq<Slot>, line: Seq<Pair>, found: Seq<Operand>)
    requires
        line.len() >= 1 + shape.len(),
        found.len() == shape.len(),
        forall|i: int|
            0 <= i < shape.len() ==> operand_at(shape, line.skip(1), i) == Some(#[trigger] found[i]),
    ensures
        spec_operands(shape, line) == Some(found),
{
    let arguments = line.skip(1);
    assert forall|i: int| 0 <= i < shape.len() implies (#[trigger] operand_at(
        shape,
        arguments,
        i,
    )) is Some by {
        assert(operand_at(shape, arguments, i) == Some(found[i]));
    }
    assert(Seq::new(shape.len(), |i: int| operand_at(shape, arguments, i).unwrap()) =~= found);
}

/// The register at `position` of a line of the given shape.
fn register_at(line: &Pair, position: usize, Ghost(shape): Ghost<Seq<Slot>>) -> (r: Result<
    Register,
    MalformedTree,
>)
    requires
        1 <= position <= shape.len(),
        shape[position - 1] == Slot::Register,
    ensures
        match r {
            Ok(register) => position < line.inner@.len() && operand_at(
                shape,
                line.inner@.skip(1),
                position - 1,
            ) == Some(Operand::Register(register@)),
            Err(_) => spec_operands(shape, line.inner@) is None,
        },
{
    let node = child(line, position)?;
    proof {
        assert(line.inner@.skip(1)[position - 1] == *node);
    }
    match parse_register(node) {
        Ok(register) => Ok(register),
        Err(e) => {
            proof {
                assert(operand_at(shape, line.inner@.skip(1), position - 1) is None);
            }
            Err(e)
        },
    }
}

/// The register or immediate at `position` of a line of the given shape.
fn register_or_immediate_at(line: &Pair, position: usize, Ghost(shape): Ghost<Seq<Slot>>) -> (r:
    Result<Either<Register, Immediate>, MalformedTree>)
    requires
        1 <= position <= shape.len(),
        shape[position - 1] == Slot::RegisterOrImmediate,
    ensures
        match r {
            Ok(operand) => position < line.inner@.len() && operand_at(
                shape,
                line.inner@.skip(1),
                position - 1,
            ) == Some(register_or_immediate(operand)),
            Err(_) => spec_operands(shape, line.inner@) is None,
        },
{
    let node = child(line, position)?;
    proof {
        assert(line.inner@.skip(1)[position - 1] == *node);
    }
    match parse_register_immediate(node) {
        Ok(operand) => Ok(operand),
        Err(e) => {
            proof {
                assert(operand_at(shape, line.inner@.skip(1), position - 1) is None);
            }
            Err(e)
        },
    }
}

/// The immediate at `position` of a line of the given shape.
fn immediate_at(line: &Pair, position: usize, Ghost(shape): Ghost<Seq<Slot>>) -> (r: Result<
    Immediate,
    MalformedTree,
>)
    requires
        1 <= position <= shape.len(),
        shape[position - 1] == Slot::Immediate,
    ensures
        match r {
            Ok(immediate) => position < line.inner@.len() && operand_at(
                shape,
                line.inner@.skip(1),
                position - 1,
            ) == Some(Operand::Immediate(immediate@)),
            Err(_) => spec_operands(shape, line.inner@) is None,
        },
{
    let node = child(line, position)?;
    proof {
        assert(line.inner@.skip(1)[position - 1] == *node);
    }
    match parse_immediate(node) {
        Ok(immediate) => Ok(immediate),
        Err(e) => {
            proof {
                assert(operand_at(shape, line.inner@.skip(1), position - 1) is None);
            }
            Err(e)
        },
    }
}

/// The label reference at `position` of a line of the given shape.
fn label_reference_at(line: &Pair, position: usize, Ghost(shape): Ghost<Seq<Slot>>) -> (r: Result<
    LabelReference,
    MalformedTree,
>)
    requires
        1 <= position <= shape.len(),
        shape[position - 1] == Slot::LabelReference,
    ensures
        match r {
            Ok(reference) => position < line.inner@.len() && operand_at(
                shape,
                line.inner@.skip(1),
                position - 1,
            ) == Some(Operand::LabelReference(reference@)),
            Err(_) => spec_operands(shape, line.inner@) is None,
        },
{
    let node = child(line, position)?;
    proof {
        assert(line.inner@.skip(1)[position - 1] == *node);
    }
    match parse_label_reference(node) {
        Ok(reference) => Ok(reference),
        Err(e) => {
            proof {
                assert(operand_at(shape, line.inner@.skip(1), position - 1) is None);
            }
            Err(e)
        },
    }
}

/// The hex address at `position` of a line of the given shape.
fn hex_address_at(line: &Pair, position: usize, Ghost(shape): Ghost<Seq<Slot>>) -> (r: Result<
    HexAddress,
    MalformedTree,
>)
    requires
        1 <= position <= shape.len(),
        shape[position - 1] == Slot::HexAddress,
    ensures
        match r {
            Ok(address) => position < line.inner@.len() && operand_at(
                shape,
                line.inner@.skip(1),
                position - 1,
            ) == Some(Operand::HexAddress(address@)),
            Err(_) => spec_operands(shape, line.inner@) is None,
        },
{
    let node = child(line, position)?;
    proof {
        assert(line.inner@.skip(1)[position - 1] == *node);
    }
    match parse_hex_address(node) {
        Ok(address) => Ok(address),
        Err(e) => {
            proof {
                assert(operand_at(shape, line.inner@.skip(1), position - 1) is None);
            }
            Err(e)
        },
    }
}

/// The string literal at `position` of a line of the given shape.
fn string_literal_at(line: &Pair, position: usize, Ghost(shape): Ghost<Seq<Slot>>) -> (r: Result<
    StringLiteral,
    MalformedTree,
>)
    requires
        1 <= position <= shape.len(),
        shape[position - 1] == Slot::StringLiteral,
    ensures
        match r {
            Ok(literal) => position < line.inner@.len() && operand_at(
                shape,
                line.inner@.skip(1),
                position - 1,
            ) == Some(Operand::StringLiteral(literal@)),
            Err(_) => spec_operands(shape, line.inner@) is None,
        },
{
    let node = child(line, position)?;
    proof {
        assert(line.inner@.skip(1)[position - 1] == *node);
    }
    match parse_string_literal(node) {
        Ok(literal) => Ok(literal),
        Err(e) => {
            proof {
                assert(operand_at(shape, line.inner@.skip(1), position - 1) is None);
            }
            Err(e)
        },
    }
}

/// Decodes an instruction node: the mnemonic decides the variant, and the
/// nodes after it are taken as operands, position by position.
pub fn parse_instruction(pair: &Pair) -> (r: Result<Instruction, MalformedTree>)
    ensures
        match r {
            Ok(instruction) => spec_instruction(*pair) == Some(instruction@),
            Err(_) => spec_instruction(*pair) is None,
        },
{
    if pair.rule != Rule::Instruction {
        return Err(MalformedTree);
    }
    let line = child(pair, 0)?;
    let head = child(line, 0)?;
    let ghost nodes = line.inner@;
    let instruction_type = match head.rule {
        Rule::AddInstruction => {
            let ghost shape = shape_of(Opcode::Add);
            let register1 = register_at(line, 1, Ghost(shape))?;
            let register2 = register_at(line, 2, Ghost(shape))?;
            let register_or_immediate = register_or_immediate_at(line, 3, Ghost(shape))?;
            let found = InstructionType::Add(register1, register2, register_or_immediate);
            proof {
                lemma_operands(shape, nodes, found.operands());
            }
            found
        },
        Rule::AndInstruction => {
            let ghost shape = shape_of(Opcode::And);
            let register1 = register_at(line, 1, Ghost(shape))?;
            let register2 = register_at(line, 2, Ghost(shape))?;
            let register_or_immediate = register_or_immediate_at(line, 3, Ghost(shape))?;
            let found = InstructionType::And(register1, register2, register_or_immediate);
            proof {
                lemma_operands(shape, nodes, found.operands());
            }
            found
        },
        Rule::NotInstruction => {
            let ghost shape = shape_of(Opcode::Not);
            let register1 = register_at(line, 1, Ghost(shape))?;
            let register2 = register_at(line, 2, Ghost(shape))?;
            let found = InstructionType::Not(register1, register2);
            proof {
                lemma_operands(shape, nodes, found.operands());
            }
            found
        },
        Rule::LdInstruction => {
            let ghost shape = shape_of(Opcode::Ld);
            let register = register_at(line, 1, Ghost(shape))?;
            let label_reference = label_reference_at(line, 2, Ghost(shape))?;
            let found = InstructionType::Ld(register, label_reference);
            proof {
                lemma_operands(shape, nodes, found.operands());
            }
            found
        },
        Rule::LdiInstruction => {
            let ghost shape = shape_of(Opcode::Ldi);
            let register = register_at(line, 1, Ghost(shape))?;
            let label_reference = label_reference_at(line, 2, Ghost(shape))?;
            let found = InstructionType::Ldi(register, label_reference);
            proof {
                lemma_operands(shape, nodes, found.operands());
            }
            found
        },
        Rule::LdrInstruction => {
            let ghost shape = shape_of(Opcode::Ldr);
            let register1 = register_at(line, 1, Ghost(shape))?;
            let register2 = register_at(line, 2, Ghost(shape))?;
            let immediate = immediate_at(line, 3, Ghost(shape))?;
            let found = InstructionType::Ldr(register1, register2, immediate);
            proof {
                lemma_operands(shape, nodes, found.operands());
            }
            found
        },
        Rule::LeaInstruction => {
            let ghost shape = shape_of(Opcode::Lea);
            let register = register_at(line, 1, Ghost(shape))?;
            let label_reference = label_reference_at(line, 2, Ghost(shape))?;
            let found = InstructionType::Lea(register, label_reference);
            proof {
                lemma_operands(shape, nodes, found.operands());
            }
            found
        },
        Rule::StInstruction => {
            let ghost shape = shape_of(Opcode::St);
            let register = register_at(line, 1, Ghost(shape))?;
            let label_reference = label_reference_at(line, 2, Ghost(shape))?;
            let found = InstructionType::St(register, label_reference);
            proof {
                lemma_operands(shape, nodes, found.operands());
            }
            found
        },
        Rule::StiInstruction => {
            let ghost shape = shape_of(Opcode::Sti);
            let register = register_at(line, 1, Ghost(shape))?;
            let label_reference = label_reference_at(line, 2, Ghost(shape))?;
            let found = InstructionType::Sti(register, label_reference);
            proof {
                lemma_operands(shape, nodes, found.operands());
            }
            found
        },
        Rule::StrInstruction => {
            let ghost shape = shape_of(Opcode::Str);
            let register1 = register_at(line, 1, Ghost(shape))?;
            let register2 = register_at(line, 2, Ghost(shape))?;
            let immediate = immediate_at(line, 3, Ghost(shape))?;
            let found = InstructionType::Str(register1, register2, immediate);
            proof {
                lemma_operands(shape, nodes, found.operands());
            }
            found
        },
        Rule::BrInstruction => {
            let br_tp = br_type(head.text.as_str())?;
            let ghost shape = shape_of(Opcode::Br(br_tp));
            let label_reference = label_reference_at(line, 1, Ghost(shape))?;
            let found = InstructionType::Br(br_tp, label_reference);
            proof {
                lemma_operands(shape, nodes, found.operands());
            }
            found
        },
        Rule::JmpInstruction => {
            let ghost shape = shape_of(Opcode::Jmp);
            let register = register_at(line, 1, Ghost(shape))?;
            let found = InstructionType::Jmp(register);
            proof {
                lemma_operands(shape, nodes, found.operands());
            }
            found
        },
        Rule::JsrInstruction => {
            let ghost shape = shape_of(Opcode::Jsr);
            let label_reference = label_reference_at(line, 1, Ghost(shape))?;
            let found = InstructionType::Jsr(label_reference);
            proof {
                lemma_operands(shape, nodes, found.operands());
            }
            found
        },
        Rule::JsrrInstruction => {
            let ghost shape = shape_of(Opcode::Jsrr);
            let register = register_at(line, 1, Ghost(shape))?;
            let found = InstructionType::Jsrr(register);
            proof {
                lemma_operands(shape, nodes, found.operands());
            }
            found
        },
        Rule::NopInstruction => {
            proof {
                lemma_operands(shape_of(Opcode::Nop), nodes, Seq::empty());
            }
            InstructionType::Nop
        },
        Rule::RetInstruction => {
            proof {
                lemma_operands(shape_of(Opcode::Ret), nodes, Seq::empty());
            }
            InstructionType::Ret
        },
        Rule::HaltInstruction => {
            proof {
                lemma_operands(shape_of(Opcode::Halt), nodes, Seq::empty());
            }
            InstructionType::Halt
        },
        Rule::PutsInstruction => {
            proof {
                lemma_operands(shape_of(Opcode::Puts), nodes, Seq::empty());
            }
            InstructionType::Puts
        },
        Rule::GetcInstruction => {
            proof {
                lemma_operands(shape_of(Opcode::Getc), nodes, Seq::empty());
            }
            InstructionType::Getc
        },
        Rule::OutInstruction => {
            proof {
                lemma_operands(shape_of(Opcode::Out), nodes, Seq::empty());
            }
            InstructionType::Out
        },
        Rule::InInstruction => {
            proof {
                lemma_operands(shape_of(Opcode::In), nodes, Seq::empty());
            }
            InstructionType::In
        },
        Rule::TrapInstruction => {
            let ghost shape = shape_of(Opcode::Trap);
            let hex_address = hex_address_at(line, 1, Ghost(shape))?;
            let found = InstructionType::Trap(hex_address);
            proof {
                lemma_operands(shape, nodes, found.operands());
            }
            found
        },
        _ => {
            return Err(MalformedTree);
        },
    };
    Ok(Instruction { instruction_type, content: head.text.clone(), span: head.span })
}

/// Decodes a directive node, laid out like an instruction node.
pub fn parse_directive(pair: &Pair) -> (r: Result<Directive, MalformedTree>)
    ensures
        match r {
            Ok(directive) => spec_directive(*pair) == Some(directive@) && directive@.content.len()
                > 0 && directive@.content[0] == '.',
            Err(_) => spec_directive(*pair) is None,
        },
{
    if pair.rule != Rule::Directive {
        return Err(MalformedTree);
    }
    let line = child(pair, 0)?;
    let head = child(line, 0)?;
    let ghost nodes = line.inner@;
    let directive_type = match head.rule {
        Rule::StringzDirective => {
            let ghost shape = directive_shape_of(DirectiveKind::Stringz);
            let string = string_literal_at(line, 1, Ghost(shape))?;
            let found = DirectiveType::STRINGZ(string);
            proof {
                lemma_operands(shape, nodes, found.operands());
            }
            found
        },
        Rule::FillDirective => {
            let ghost shape = directive_shape_of(DirectiveKind::Fill);
            let immediate = immediate_at(line, 1, Ghost(shape))?;
            let found = DirectiveType::FILL(immediate);
            proof {
                lemma_operands(shape, nodes, found.operands());
            }
            found
        },
        Rule::OrigDirective => {
            let ghost shape = directive_shape_of(DirectiveKind::Orig);
            let address = hex_address_at(line, 1, Ghost(shape))?;
            let found = DirectiveType::ORIG(address);
            proof {
                lemma_operands(shape, nodes, found.operands());
            }
            found
        },
        Rule::EndDirective => {
            proof {
                lemma_operands(directive_shape_of(DirectiveKind::End), nodes, Seq::empty());
            }
            DirectiveType::END
        },
        Rule::BlkwDirective => {
            let ghost shape = directive_shape_of(DirectiveKind::Blkw);
            let immediate = immediate_at(line, 1, Ghost(shape))?;
            let found = DirectiveType::BLKW(immediate);
            proof {
                lemma_operands(shape, nodes, found.operands());
            }
            found
        },
        _ => {
            return Err(MalformedTree);
        },
    };
    if !starts_with_char(head.text.as_str(), '.') {
        return Err(MalformedTree);
    }
    Ok(Directive { directive_type, content: head.text.clone(), span: head.span })
}

/// Decodes a string literal node.
pub fn parse_string_literal(pair: &Pair) -> (r: Result<StringLiteral, MalformedTree>)
    ensures
        match r {
            Ok(literal) => spec_token(Rule::StringLiteral, *pair) == Some(literal@),
            Err(_) => spec_token(Rule::StringLiteral, *pair) is None,
        },
{
    if pair.rule != Rule::StringLiteral {
        return Err(MalformedTree);
    }
    Ok(StringLiteral { content: pair.text.clone(), span: pair.span })
}

/// Decodes an immediate node.
pub fn parse_immediate(pair: &Pair) -> (r: Result<Immediate, MalformedTree>)
    ensures
        match r {
            Ok(immediate) => spec_token(Rule::Immediate, *pair) == Some(immediate@),
            Err(_) => spec_token(Rule::Immediate, *pair) is None,
        },
{
    if pair.rule != Rule::Immediate {
        return Err(MalformedTree);
    }
    Ok(Immediate { content: pair.text.clone(), span: pair.span })
}

/// Decodes a hex address node.
pub fn parse_hex_address(pair: &Pair) -> (r: Result<HexAddress, MalformedTree>)
    ensures
        match r {
            Ok(address) => spec_token(Rule::HexAddress, *pair) == Some(address@),
            Err(_) => spec_token(Rule::HexAddress, *pair) is None,
        },
{
    if pair.rule != Rule::HexAddress {
        return Err(MalformedTree);
    }
    Ok(HexAddress { content: pair.text.clone(), span: pair.span })
}

/// Decodes a register node and reads the register's number off its text.
pub fn parse_register(pair: &Pair) -> (r: Result<Register, MalformedTree>)
    ensures
        match r {
            Ok(register) => spec_register(*pair) == Some(register@),
            Err(_) => spec_register(*pair) is None,
        },
{
    if pair.rule != Rule::Register {
        return Err(MalformedTree);
    }
    let text = pair.text.as_str();
    if text.unicode_len() != 2 {
        return Err(MalformedTree);
    }
    let letter = text.get_char(0);
    if letter != 'R' && letter != 'r' {
        return Err(MalformedTree);
    }
    let register_type = match text.get_char(1) {
        '0' => RegisterType::R0,
        '1' => RegisterType::R1,
        '2' => RegisterType::R2,
        '3' => RegisterType::R3,
        '4' => RegisterType::R4,
        '5' => RegisterType::R5,
        '6' => RegisterType::R6,
        '7' => RegisterType::R7,
        _ => {
            return Err(MalformedTree);
        },
    };
    Ok(Register { content: pair.text.clone(), span: pair.span, register_type })
}

/// Decodes the third operand of `ADD` and `AND`: a register where the node
/// is one, an immediate otherwise.
pub fn parse_register_immediate(pair: &Pair) -> (r: Result<
    Either<Register, Immediate>,
    MalformedTree,
>)
    ensures
        match r {
            Ok(operand) => spec_operand(Slot::RegisterOrImmediate, *pair) == Some(
                register_or_immediate(operand),
            ),
            Err(_) => spec_operand(Slot::RegisterOrImmediate, *pair) is None,
        },
{
    if pair.rule == Rule::Register {
        match parse_register(pair) {
            Ok(register) => Ok(Either::Left(register)),
            Err(e) => Err(e),
        }
    } else {
        match parse_immediate(pair) {
            Ok(immediate) => Ok(Either::Right(immediate)),
            Err(e) => Err(e),
        }
    }
}

/// Decodes a label reference node.
pub fn parse_label_reference(pair: &Pair) -> (r: Result<LabelReference, MalformedTree>)
    ensures
        match r {
            Ok(reference) => spec_token(Rule::LabelReference, *pair) == Some(reference@),
            Err(_) => spec_token(Rule::LabelReference, *pair) is None,
        },
{
    if pair.rule != Rule::LabelReference {
        return Err(MalformedTree);
    }
    Ok(LabelReference { content: pair.text.clone(), span: pair.span })
}

/// Whether `text` holds the letter in either case.
fn contains_letter(text: &str, lower: char, upper: char) -> (r: bool)
    ensures
        r == has_letter(text@, lower, upper),
{
    contains_char(text, lower) || contains_char(text, upper)
}

/// Reads the condition codes off a branch mnemonic.
pub fn br_type(mnemonic: &str) -> (r: Result<BrType, MalformedTree>)
    ensures
        match r {
            Ok(br) => br_type_of(mnemonic@) == Some(br),
            Err(_) => br_type_of(mnemonic@) is None,
        },
{
    let len: usize = mnemonic.unicode_len();
    if len < 2 {
        return Err(MalformedTree);
    }
    let b = mnemonic.get_char(0);
    let r = mnemonic.get_char(1);
    if (b != 'B' && b != 'b') || (r != 'R' && r != 'r') {
        return Err(MalformedTree);
    }
    let suffix = mnemonic.substring_char(2, len);
    proof {
        assert(suffix@ =~= mnemonic@.skip(2));
    }
    let n = contains_letter(suffix, 'n', 'N');
    let z = contains_letter(suffix, 'z', 'Z');
    let p = contains_letter(suffix, 'p', 'P');
    if n && z && p {
        Ok(BrType::Nzp)
    } else if n && z {
        Ok(BrType::Nz)
    } else if n && p {
        Ok(BrType::Np)
    } else if z && p {
        Ok(BrType::Zp)
    } else if n {
        Ok(BrType::N)
    } else if p {
        Ok(BrType::P)
    } else if z {
        Ok(BrType::Z)
    } else if len == 2 {
        Ok(BrType::Bare)
    } else {
        Err(MalformedTree)
    }
}


// ---------------------------------------------------------------------------
// Copies
// ---------------------------------------------------------------------------

impl Clone for Comment {
    fn clone(&self) -> (copy: Self)
        ensures
            copy@ == self@,
    {
        Comment { content: self.content.clone(), span: self.span }
    }
}

impl Clone for Label {
    fn clone(&self) -> (copy: Self)
        ensures
            copy@ == self@,
    {
        Label { content: self.content.clone(), span: self.span }
    }
}

impl Clone for LabelReference {
    fn clone(&self) -> (copy: Self)
        ensures
            copy@ == self@,
    {
        LabelReference { content: self.content.clone(), span: self.span }
    }
}

impl Clone for StringLiteral {
    fn clone(&self) -> (copy: Self)
        ensures
            copy@ == self@,
    {
        StringLiteral { content: self.content.clone(), span: self.span }
    }
}

impl Clone for Immediate {
    fn clone(&self) -> (copy: Self)
        ensures
            copy@ == self@,
    {
        Immediate { content: self.content.clone(), span: self.span }
    }
}

impl Clone for HexAddress {
    fn clone(&self) -> (copy: Self)
        ensures
            copy@ == self@,
    {
        HexAddress { content: self.content.clone(), span: self.span }
    }
}

impl Clone for Register {
    fn clone(&self) -> (copy: Self)
        ensures
            copy@ == self@,
    {
        Register {
            content: self.content.clone(),
            span: self.span,
            register_type: self.register_type,
        }
    }
}

/// A copy of the third operand of `ADD` and `AND`.
fn clone_register_or_immediate(operand: &Either<Register, Immediate>) -> (copy: Either<
    Register,
    Immediate,
>)
    ensures
        register_or_immediate(copy) == register_or_immediate(*operand),
{
    match operand {
        Either::Left(r) => Either::Left(r.clone()),
        Either::Right(i) => Either::Right(i.clone()),
    }
}

impl Clone for InstructionType {
    fn clone(&self) -> (copy: Self)
        ensures
            copy.opcode() == self.opcode(),
            copy.operands() == self.operands(),
    {
        match self {
            InstructionType::Add(a, b, c) => InstructionType::Add(
                a.clone(),
                b.clone(),
                clone_register_or_immediate(c),
            ),
            InstructionType::And(a, b, c) => InstructionType::And(
                a.clone(),
                b.clone(),
                clone_register_or_immediate(c),
            ),
            InstructionType::Not(a, b) => InstructionType::Not(a.clone(), b.clone()),
            InstructionType::Ld(a, l) => InstructionType::Ld(a.clone(), l.clone()),
            InstructionType::Ldi(a, l) => InstructionType::Ldi(a.clone(), l.clone()),
            InstructionType::Ldr(a, b, i) => InstructionType::Ldr(a.clone(), b.clone(), i.clone()),
            InstructionType::Lea(a, l) => InstructionType::Lea(a.clone(), l.clone()),
            InstructionType::St(a, l) => InstructionType::St(a.clone(), l.clone()),
            InstructionType::Sti(a, l) => InstructionType::Sti(a.clone(), l.clone()),
            InstructionType::Str(a, b, i) => InstructionType::Str(a.clone(), b.clone(), i.clone()),
            InstructionType::Br(br, l) => InstructionType::Br(*br, l.clone()),
            InstructionType::Jmp(a) => InstructionType::Jmp(a.clone()),
            InstructionType::Jsr(l) => InstructionType::Jsr(l.clone()),
            InstructionType::Jsrr(a) => InstructionType::Jsrr(a.clone()),
            InstructionType::Nop => InstructionType::Nop,
            InstructionType::Ret => InstructionType::Ret,
            InstructionType::Halt => InstructionType::Halt,
            InstructionType::Puts => InstructionType::Puts,
            InstructionType::Getc => InstructionType::Getc,
            InstructionType::Out => InstructionType::Out,
            InstructionType::In => InstructionType::In,
            InstructionType::Trap(h) => InstructionType::Trap(h.clone()),
        }
    }
}

impl Clone for Instruction {
    fn clone(&self) -> (copy: Self)
        ensures
            copy@ == self@,
    {
        Instruction {
            instruction_type: self.instruction_type.clone(),
            content: self.content.clone(),
            span: self.span,
        }
    }
}

impl Clone for DirectiveType {
    fn clone(&self) -> (copy: Self)
        ensures
            copy.kind() == self.kind(),
            copy.operands() == self.operands(),
    {
        match self {
            DirectiveType::ORIG(h) => DirectiveType::ORIG(h.clone()),
            DirectiveType::END => DirectiveType::END,
            DirectiveType::BLKW(i) => DirectiveType::BLKW(i.clone()),
            DirectiveType::FILL(i) => DirectiveType::FILL(i.clone()),
            DirectiveType::STRINGZ(s) => DirectiveType::STRINGZ(s.clone()),
        }
    }
}

impl Clone for Directive {
    fn clone(&self) -> (copy: Self)
        ensures
            copy@ == self@,
    {
        Directive {
            directive_type: self.directive_type.clone(),
            content: self.content.clone(),
            span: self.span,
        }
    }
}

// ---------------------------------------------------------------------------
// What the items hold
// ---------------------------------------------------------------------------

impl Comment {
    pub fn content(&self) -> (content: &String)
        ensures
            content@ == self@.content,
    {
        &self.content
    }

    pub fn span(&self) -> (span: &Span)
        ensures
            *span == self@.span,
    {
        &self.span
    }
}

impl Label {
    pub fn content(&self) -> (content: &String)
        ensures
            content@ == self@.content,
    {
        &self.content
    }

    pub fn span(&self) -> (span: &Span)
        ensures
            *span == self@.span,
    {
        &self.span
    }
}

impl LabelReference {
    pub fn content(&self) -> (content: &String)
        ensures
            content@ == self@.content,
    {
        &self.content
    }

    pub fn span(&self) -> (span: &Span)
        ensures
            *span == self@.span,
    {
        &self.span
    }
}

impl StringLiteral {
    pub fn content(&self) -> (content: &String)
        ensures
            content@ == self@.content,
    {
        &self.content
    }

    pub fn span(&self) -> (span: &Span)
        ensures
            *span == self@.span,
    {
        &self.span
    }
}

impl Immediate {
    pub fn content(&self) -> (content: &String)
        ensures
            content@ == self@.content,
    {
        &self.content
    }

    pub fn span(&self) -> (span: &Span)
        ensures
            *span == self@.span,
    {
        &self.span
    }
}

impl HexAddress {
    pub fn content(&self) -> (content: &String)
        ensures
            content@ == self@.content,
    {
        &self.content
    }

    pub fn span(&self) -> (span: &Span)
        ensures
            *span == self@.span,
    {
        &self.span
    }
}

impl Register {
    pub fn content(&self) -> (content: &String)
        ensures
            content@ == self@.content,
    {
        &self.content
    }

    pub fn span(&self) -> (span: &Span)
        ensures
            *span == self@.span,
    {
        &self.span
    }

    pub fn register_type(&self) -> (register_type: &RegisterType)
        ensures
            *register_type == self@.register_type,
    {
        &self.register_type
    }
}

impl Instruction {
    pub fn instruction_type(&self) -> (instruction_type: &InstructionType)
        ensures
            *instruction_type == self.instruction_type,
    {
        &self.instruction_type
    }

    pub fn content(&self) -> (content: &String)
        ensures
            content@ == self@.content,
    {
        &self.content
    }

    pub fn span(&self) -> (span: &Span)
        ensures
            *span == self@.span,
    {
        &self.span
    }
}

impl Directive {
    pub fn directive_type(&self) -> (directive_type: &DirectiveType)
        ensures
            *directive_type == self.directive_type,
    {
        &self.directive_type
    }

    pub fn content(&self) -> (content: &String)
        ensures
            content@ == self@.content,
    {
        &self.content
    }

    pub fn span(&self) -> (span: &Span)
        ensures
            *span == self@.span,
    {
        &self.span
    }
}

} // verus!
