//! The pipeline from source text: a small reader stands in for the grammar
//! engine and builds the tree that the library takes.

use lc3_toolchain::ast::ast_from_tree;
use lc3_toolchain::ast::processed_ast::{Program, ProgramItem};
use lc3_toolchain::ast::tree::{Pair, Rule};
use lc3_toolchain::fmt::{print_directive, print_instruction, FormatStyle, Formatter};
use lc3_toolchain::lint::{CaseStyle, LintStyle, Linter};

/// One word of the source with its byte range.
#[derive(Clone, Debug)]
struct Word {
    text: String,
    start: usize,
    end: usize,
}

fn words_of(text: &str) -> Vec<Word> {
    let bytes = text.as_bytes();
    let mut words = Vec::new();
    let mut at = 0;
    while at < bytes.len() {
        let byte = bytes[at];
        if byte == b' ' || byte == b'\t' || byte == b'\n' || byte == b'\r' || byte == b',' {
            at += 1;
            continue;
        }
        let start = at;
        if byte == b';' {
            while at < bytes.len() && bytes[at] != b'\n' {
                at += 1;
            }
        } else if byte == b'"' {
            at += 1;
            while at < bytes.len() && bytes[at] != b'"' {
                at += 1;
            }
            if at < bytes.len() {
                at += 1;
            }
        } else {
            while at < bytes.len() && !b" \t\r\n,;".contains(&bytes[at]) {
                at += 1;
            }
        }
        words.push(Word { text: text[start..at].to_string(), start, end: at });
    }
    words
}

/// The operand rules of a mnemonic; `None` for the third operand of `ADD`
/// and `AND`, which is a register or an immediate.
fn mnemonic_of(word: &str) -> Option<(Rule, Vec<Option<Rule>>)> {
    let upper = word.to_ascii_uppercase();
    let register = Some(Rule::Register);
    let label = Some(Rule::LabelReference);
    let immediate = Some(Rule::Immediate);
    let found = match upper.as_str() {
        "ADD" => (Rule::AddInstruction, vec![register, register, None]),
        "AND" => (Rule::AndInstruction, vec![register, register, None]),
        "NOT" => (Rule::NotInstruction, vec![register, register]),
        "LD" => (Rule::LdInstruction, vec![register, label]),
        "LDI" => (Rule::LdiInstruction, vec![register, label]),
        "LDR" => (Rule::LdrInstruction, vec![register, register, immediate]),
        "LEA" => (Rule::LeaInstruction, vec![register, label]),
        "ST" => (Rule::StInstruction, vec![register, label]),
        "STI" => (Rule::StiInstruction, vec![register, label]),
        "STR" => (Rule::StrInstruction, vec![register, register, immediate]),
        "JMP" => (Rule::JmpInstruction, vec![register]),
        "JSR" => (Rule::JsrInstruction, vec![label]),
        "JSRR" => (Rule::JsrrInstruction, vec![register]),
        "NOP" => (Rule::NopInstruction, vec![]),
        "RET" => (Rule::RetInstruction, vec![]),
        "HALT" => (Rule::HaltInstruction, vec![]),
        "PUTS" => (Rule::PutsInstruction, vec![]),
        "GETC" => (Rule::GetcInstruction, vec![]),
        "OUT" => (Rule::OutInstruction, vec![]),
        "IN" => (Rule::InInstruction, vec![]),
        "TRAP" => (Rule::TrapInstruction, vec![Some(Rule::HexAddress)]),
        other => {
            let flags = other.strip_prefix("BR")?;
            if flags.len() <= 3 && flags.chars().all(|c| c == 'N' || c == 'Z' || c == 'P') {
                (Rule::BrInstruction, vec![label])
            } else {
                return None;
            }
        }
    };
    Some(found)
}

fn directive_of(word: &str) -> Option<(Rule, Vec<Option<Rule>>)> {
    let upper = word.to_ascii_uppercase();
    let found = match upper.as_str() {
        ".ORIG" => (Rule::OrigDirective, vec![Some(Rule::HexAddress)]),
        ".END" => (Rule::EndDirective, vec![]),
        ".BLKW" => (Rule::BlkwDirective, vec![Some(Rule::Immediate)]),
        ".FILL" => (Rule::FillDirective, vec![Some(Rule::Immediate)]),
        ".STRINGZ" => (Rule::StringzDirective, vec![Some(Rule::StringLiteral)]),
        _ => return None,
    };
    Some(found)
}

fn is_register(word: &str) -> bool {
    let bytes = word.as_bytes();
    bytes.len() == 2 && (bytes[0] == b'R' || bytes[0] == b'r') && (b'0'..=b'7').contains(&bytes[1])
}

fn leaf(rule: Rule, word: &Word) -> Pair {
    Pair::leaf(rule, &word.text, word.start, word.end)
}

/// The tree of a source text.
fn tree_of(text: &str) -> Pair {
    let words = words_of(text);
    let mut children = Vec::new();
    let mut at = 0;
    while at < words.len() {
        let word = &words[at];
        if word.text.starts_with(';') {
            children.push(leaf(Rule::Comment, word));
            at += 1;
            continue;
        }
        let statement = if word.text.starts_with('.') {
            directive_of(&word.text).map(|found| (Rule::Directive, found))
        } else {
            mnemonic_of(&word.text).map(|found| (Rule::Instruction, found))
        };
        let fits = match &statement {
            Some((_, (_, operands))) => {
                at + operands.len() < words.len()
                    && words[at + 1..at + 1 + operands.len()]
                        .iter()
                        .all(|w| !w.text.starts_with(';'))
                    || operands.is_empty()
            }
            None => false,
        };
        if !fits {
            children.push(leaf(Rule::Label, word));
            at += 1;
            continue;
        }
        let (outer, (head, operands)) = statement.unwrap();
        let mut line = vec![leaf(head, word)];
        for (k, rule) in operands.iter().enumerate() {
            let operand = &words[at + 1 + k];
            let rule = match rule {
                Some(rule) => *rule,
                None => {
                    if is_register(&operand.text) {
                        Rule::Register
                    } else {
                        Rule::Immediate
                    }
                }
            };
            line.push(leaf(rule, operand));
        }
        let end = words[at + operands.len()].end;
        let covered = &text[word.start..end];
        let line = Pair::node(Rule::Line, covered, word.start, end, line);
        children.push(Pair::node(outer, covered, word.start, end, vec![line]));
        at += 1 + operands.len();
    }
    children.push(Pair::leaf(Rule::EOI, "", text.len(), text.len()));
    Pair::node(Rule::Program, text, 0, text.len(), children)
}

fn get_ast(content: &str) -> Program {
    let program = ast_from_tree(&tree_of(content), content);
    assert!(program.is_ok());
    program.unwrap()
}

fn test_true(style: LintStyle, content: &str) {
    let c = Linter::new(style, get_ast(content)).check();
    if c.is_err() {
        println!("{:?}", c.as_ref().err().unwrap());
    }
    assert!(c.is_ok());
}

fn test_false(style: LintStyle, content: &str) {
    let c = Linter::new(style, get_ast(content)).check();
    assert!(c.is_err());
}

#[test]
fn lint_test_empty() {
    let style = LintStyle {
        colon_after_label: true,
        label_style: CaseStyle::LowerCamelCase,
        instruction_style: CaseStyle::LowerCamelCase,
        directive_style: CaseStyle::LowerCamelCase,
    };
    let content = r#""#;
    test_true(style, content);
}

#[test]
fn test_directive_uppercase() {
    let style = LintStyle {
        colon_after_label: true,
        label_style: CaseStyle::LowerCamelCase,
        instruction_style: CaseStyle::UpperCamelCase,
        directive_style: CaseStyle::ScreamingSnakeCase,
    };
    let content_true = r#".ORIG x3000 .END"#;
    let content_false1 = r#".OrIG x3000 .EnD"#;
    let content_false2 = r#".orig x3000 .end"#;
    let content_false3 = r#".Orig x3000 .End"#;
    test_true(style.clone(), content_true);
    test_false(style.clone(), content_false1);
    test_false(style.clone(), content_false2);
    test_false(style.clone(), content_false3);
}

#[test]
fn test_directive_lowercamelcase() {
    let style = LintStyle {
        colon_after_label: true,
        label_style: CaseStyle::LowerCamelCase,
        instruction_style: CaseStyle::UpperCamelCase,
        directive_style: CaseStyle::LowerCamelCase,
    };
    let content_true1 = r#".oRIG x3000 .eND"#;
    let content_true2 = r#".orig x3000 .eND"#;
    test_true(style, content_true1);
    test_true(style, content_true2);
}

#[test]
fn test_directive_snakecase() {
    let style = LintStyle {
        colon_after_label: true,
        label_style: CaseStyle::LowerCamelCase,
        instruction_style: CaseStyle::UpperCamelCase,
        directive_style: CaseStyle::SnakeCase,
    };
    let content_true1 = r#".orig x3000 .end"#;
    test_true(style, content_true1);
}

#[test]
fn test_instruction_uppercamelcase() {
    let style = LintStyle {
        colon_after_label: true,
        label_style: CaseStyle::LowerCamelCase,
        instruction_style: CaseStyle::UpperCamelCase,
        directive_style: CaseStyle::LowerCamelCase,
    };

    let content_true1 = r#"And R1, R2, R3"#;
    let content_true2 = r#"And R4, R5, R6"#;
    test_true(style, content_true1);
    test_true(style, content_true2);

    let content_false1 = r#"add R1, R2, R3"#;
    let content_false2 = r#"add R1, R2, R3"#;
    test_false(style, content_false1);
    test_false(style, content_false2);
}

#[test]
fn test_instruction_screaming_camelcase() {
    let style = LintStyle {
        colon_after_label: true,
        label_style: CaseStyle::LowerCamelCase,
        instruction_style: CaseStyle::ScreamingSnakeCase,
        directive_style: CaseStyle::LowerCamelCase,
    };

    let content_true1 = r#"AND R1, R2, R3"#;
    let content_true2 = r#"AND R4, R5, R6"#;
    test_true(style, content_true1);
    test_true(style, content_true2);

    let content_false1 = r#"aND R1, R2, R3"#;
    let content_false2 = r#"AnD R1, R2, R3"#;
    test_false(style, content_false1);
    test_false(style, content_false2);
}

#[test]
fn test_instruction_lowercamelcase() {
    let style = LintStyle {
        colon_after_label: true,
        label_style: CaseStyle::LowerCamelCase,
        instruction_style: CaseStyle::LowerCamelCase,
        directive_style: CaseStyle::LowerCamelCase,
    };

    let content_true1 = r#"add R1, R2, R3"#;
    let content_true2 = r#"and R4, R5, R6"#;
    test_true(style, content_true1);
    test_true(style, content_true2);

    let content_false1 = r#"ADD R1, R2, R3"#;
    let content_false2 = r#"add_r1, r2, r3"#;
    test_false(style, content_false1);
    test_false(style, content_false2);
}

#[test]
fn test_instruction_snakecase() {
    let style = LintStyle {
        colon_after_label: true,
        label_style: CaseStyle::LowerCamelCase,
        instruction_style: CaseStyle::SnakeCase,
        directive_style: CaseStyle::LowerCamelCase,
    };

    let content_true1 = r#"add R1, R2, R3"#;
    let content_true2 = r#"and R4, R5, R6"#;
    let content_true3 = r#"add R1, R2, R3"#;
    test_true(style, content_true1);
    test_true(style, content_true2);
    test_true(style, content_true3);

    let content_false1 = r#"ADD R1, R2, R3"#;
    test_false(style, content_false1);
}

#[test]
fn test_label_lowercamelcase() {
    let style = LintStyle {
        colon_after_label: true,
        label_style: CaseStyle::LowerCamelCase,
        instruction_style: CaseStyle::ScreamingSnakeCase,
        directive_style: CaseStyle::ScreamingSnakeCase,
    };

    let content_true1 = r#"loop: ADD R1, R2, R3"#;
    let content_true2 = r#"startLabel: AND R4, R5, R6"#;
    test_true(style, content_true1);
    test_true(style, content_true2);

    let content_false1 = r#"Loop: ADD R1, R2, R3"#;
    let content_false2 = r#"start_label: AND R4, R5, R6"#;
    let content_false3 = r#"START_LABEL: ADD R1, R2, R3"#;
    test_false(style, content_false1);
    test_false(style, content_false2);
    test_false(style, content_false3);
}

#[test]
fn test_label_uppercamelcase() {
    let style = LintStyle {
        colon_after_label: true,
        label_style: CaseStyle::UpperCamelCase,
        instruction_style: CaseStyle::ScreamingSnakeCase,
        directive_style: CaseStyle::ScreamingSnakeCase,
    };

    let content_true1 = r#"LoopStart: ADD R1, R2, R3"#;
    let content_true2 = r#"MainFunction: AND R4, R5, R6"#;
    test_true(style, content_true1);
    test_true(style, content_true2);

    let content_false1 = r#"loopStart: ADD R1, R2, R3"#;
    let content_false2 = r#"loop_start: AND R4, R5, R6"#;
    let content_false3 = r#"LOOP_START: ADD R1, R2, R3"#;
    test_false(style, content_false1);
    test_false(style, content_false2);
    test_false(style, content_false3);
}

#[test]
fn test_label_scream_snake_case() {
    let style = LintStyle {
        colon_after_label: true,
        label_style: CaseStyle::ScreamingSnakeCase,
        instruction_style: CaseStyle::ScreamingSnakeCase,
        directive_style: CaseStyle::ScreamingSnakeCase,
    };

    let content_true1 = r#"LOOP2: ADD R1, R2, R3"#;
    let content_true2 = r#"MAIN_FUNCTION0: AND R4, R5, R6"#;
    test_true(style, content_true1);
    test_true(style, content_true2);

    let content_false1 = r#"loopStart: ADD R1, R2, R3"#;
    let content_false2 = r#"loop_start: AND R4, R5, R6"#;
    let content_false3 = r#"LoopStart: ADD R1, R2, R3"#;
    test_false(style, content_false1);
    test_false(style, content_false2);
    test_false(style, content_false3);
}

#[test]
fn test_label_snakecase() {
    let style = LintStyle {
        colon_after_label: true,
        label_style: CaseStyle::SnakeCase,
        instruction_style: CaseStyle::ScreamingSnakeCase,
        directive_style: CaseStyle::ScreamingSnakeCase,
    };

    let content_true1 = r#"loop_start: ADD R1, R2, R3"#;
    let content_true2 = r#"main_function: AND R4, R5, R6"#;
    test_true(style, content_true1);
    test_true(style, content_true2);

    let content_false1 = r#"LoopStart: ADD R1, R2, R3"#;
    let content_false2 = r#"loopStart: AND R4, R5, R6"#;
    let content_false3 = r#"LOOP_START: ADD R4, R5, R6"#;

    test_false(style, content_false1);
    test_false(style, content_false2);
    test_false(style, content_false3);
}

#[test]
fn test_label_colon() {
    let style = LintStyle {
        colon_after_label: false,
        label_style: CaseStyle::SnakeCase,
        instruction_style: CaseStyle::ScreamingSnakeCase,
        directive_style: CaseStyle::ScreamingSnakeCase,
    };

    let content_true1 = r#"loop_start ADD R1, R2, R3"#;
    let content_true2 = r#"main_function AND R4, R5, R6"#;
    test_true(style, content_true1);
    test_true(style, content_true2);

    let content_false1 = r#"LoopStart: ADD R1, R2, R3"#;
    let content_false2 = r#"loopStart: AND R4, R5, R6"#;
    let content_false3 = r#"LOOP_START: ADD R4, R5, R6"#;

    test_false(style, content_false1);
    test_false(style, content_false2);
    test_false(style, content_false3);
}

#[test]
fn test_comments() {
    let style = LintStyle {
        colon_after_label: false,
        label_style: CaseStyle::SnakeCase,
        instruction_style: CaseStyle::ScreamingSnakeCase,
        directive_style: CaseStyle::ScreamingSnakeCase,
    };

    let content_true1 = r#"loop_start ADD R1, R2, R3 ; sdasd"#;
    let content_true2 = r#"main_function AND R4, R5, R6 ; asdsa"#;
    test_true(style, content_true1);
    test_true(style, content_true2);

    let content_false1 = r#"
        ;dasdas
        LoopStart: ADD R1, R2, R3"#;
    let content_false2 = r#"loopStart: AND R4, R5, R6"#;
    let content_false3 = r#"LOOP_START: ADD R4, R5, R6"#;

    test_false(style, content_false1);
    test_false(style, content_false2);
    test_false(style, content_false3);
}

#[test]
fn test_lint_test_all() {
    let style = LintStyle {
        colon_after_label: false,
        label_style: CaseStyle::ScreamingSnakeCase,
        instruction_style: CaseStyle::ScreamingSnakeCase,
        directive_style: CaseStyle::ScreamingSnakeCase,
    };
    let content = "\
.ORIG x3000\n\
; every instruction once\n\
START   ADD R0, R1, R2\n        AND R0, R1, #-1\n        NOT R3, R4\n\
        LD R1, DATA\n        LDI R1, DATA\n        LDR R1, R2, #3\n        LEA R0, MSG_1\n\
        ST R1, DATA\n        STI R1, DATA\n        STR R1, R2, #0\n\
LOOP    BRNZP LOOP ; forever\n        BR START\n        JMP R7\n        JSR START\n        JSRR R3\n\
        NOP\n        RET\n        PUTS\n        GETC\n        OUT\n        IN\n        TRAP x25\n        HALT\n\
DATA    .FILL #7\n        .BLKW #2\nMSG_1   .STRINGZ \"hello, world\"\n\
.END\n";
    test_true(style, content);
}

// ---------------------------------------------------------------------------
// Formatting
// ---------------------------------------------------------------------------

const DEFAULT_STYLE: FormatStyle = FormatStyle {
    indent_directive: 3,
    indent_instruction: 4,
    indent_label: 0,
    indent_min_comment_from_block: 1,
    space_block_to_comment: 1,
    space_comment_stick_to_body: 0,
    space_from_label_block: 1,
    space_from_start_end_block: 1,
    colon_after_label: true,
};

const NO_COLON_STYLE: FormatStyle = FormatStyle {
    indent_directive: 3,
    indent_instruction: 4,
    indent_label: 0,
    indent_min_comment_from_block: 1,
    space_block_to_comment: 1,
    space_comment_stick_to_body: 0,
    space_from_label_block: 1,
    space_from_start_end_block: 1,
    colon_after_label: false,
};

fn formatted(style: &FormatStyle, source: &str) -> String {
    let program = get_ast(source);
    let mut formatter = Formatter::new(style);
    formatter.format(program);
    String::from_utf8_lossy(formatter.contents()).into_owned()
}

fn assert_true(style: &FormatStyle, source: &str, expected: &str) {
    assert_eq!(expected, formatted(style, source));
}

#[test]
fn test_fmt_test_empty() {
    assert_true(&DEFAULT_STYLE, "", "");
}

#[test]
fn test_single_comment() {
    assert_true(&DEFAULT_STYLE, ";   a comment   \n", ";a comment \n");
}

#[test]
fn test_minimal_instruction() {
    assert_true(&DEFAULT_STYLE, "ADD R1,R2,R3", "    ADD R1, R2, R3 \n");
}

#[test]
fn test_minimal_directive() {
    assert_true(&DEFAULT_STYLE, ".FILL #3", "   .FILL #3 \n");
}

/// `body` padded with spaces to `column`.
fn padded(body: &str, column: usize) -> String {
    format!("{:<1$}", body, column)
}

#[test]
fn test_1() {
    let source = ".ORIG x3000\n; start\nLOOP ADD R1, R1, #1 ; count\nBRnzp LOOP\nHALT\n.END\n";
    let column = 19;
    let expected = [
        padded(".ORIG x3000", column) + "\n\n",
        padded(";start", column) + "\n",
        "LOOP:\n".to_string() + &padded("    ADD R1, R1, #1", column) + ";count\n",
        padded("    BRnzp LOOP", column) + "\n",
        padded("    HALT", column) + "\n\n",
        padded(".END", column) + "\n",
    ]
    .concat();
    assert_true(&DEFAULT_STYLE, source, &expected);
}

#[test]
fn test_labels() {
    let source = "FIRST:\nSECOND\n  NOT R1, R2\nTHIRD: .FILL #7\nLAST\n";
    let column = 15;
    let expected = [
        "FIRST:\nSECOND:\n".to_string() + &padded("    NOT R1, R2", column) + "\n",
        "THIRD:\n".to_string() + &padded("   .FILL #7", column) + "\n",
        "LAST:\n".to_string() + &padded("", column) + "\n",
    ]
    .concat();
    assert_true(&DEFAULT_STYLE, source, &expected);
}

#[test]
fn test_fmt_test_all() {
    let source = "\
add r0,r1,r2\nAND R0,R1,#-1\nnot r3,r4\nLD R1,A\nLDI R1,A\nLDR R1,R2,#3\nLEA R0,A\n\
ST R1,A\nSTI R1,A\nSTR R1,R2,#0\nBR A\nBRn A\nJMP R7\nJSR A\nJSRR R3\nNOP\nRET\nHALT\n\
PUTS\nGETC\nOUT\nIN\nTRAP x25\n.BLKW #2\n.STRINGZ \"a b\"\n";
    let bodies = [
        "    add r0, r1, r2",
        "    AND R0, R1, #-1",
        "    not r3, r4",
        "    LD R1, A",
        "    LDI R1, A",
        "    LDR R1, R2, #3",
        "    LEA R0, A",
        "    ST R1, A",
        "    STI R1, A",
        "    STR R1, R2, #0",
        "    BR A",
        "    BRn A",
        "    JMP R7",
        "    JSR A",
        "    JSRR R3",
        "    NOP",
        "    RET",
        "    HALT",
        "    PUTS",
        "    GETC",
        "    OUT",
        "    IN",
        "    TRAP x25",
        "   .BLKW #2",
        "   .STRINGZ \"a b\"",
    ];
    let column = 20;
    let expected: String = bodies.iter().map(|body| padded(body, column) + "\n").collect();
    assert_true(&DEFAULT_STYLE, source, &expected);
}

#[test]
fn test_no_colon_labels() {
    let source = "LOOP: ADD R1, R1, R1\nDONE HALT\n";
    let column = 19;
    let expected = [
        "LOOP\n".to_string() + &padded("    ADD R1, R1, R1", column) + "\n",
        "DONE\n".to_string() + &padded("    HALT", column) + "\n",
    ]
    .concat();
    assert_true(&NO_COLON_STYLE, source, &expected);
}

#[test]
fn blank_line_before_a_labelled_statement_only() {
    let source = "ADD R1, R1, R1\nNEXT\nADD R2, R2, R2\nADD R3, R3, R3\n";
    let column = 19;
    let expected = [
        padded("    ADD R1, R1, R1", column) + "\n\n",
        "NEXT:\n".to_string() + &padded("    ADD R2, R2, R2", column) + "\n",
        padded("    ADD R3, R3, R3", column) + "\n",
    ]
    .concat();
    assert_true(&DEFAULT_STYLE, source, &expected);
}

#[test]
fn trailing_comments_share_one_column() {
    let source = "NOT R1, R2 ; short\nLDR R1, R2, #12 ;long\n; alone\n.END ; end\n";
    let out = formatted(&DEFAULT_STYLE, source);
    let column = "    LDR R1, R2, #12".len() + 1;
    let with_comment: Vec<&str> = out.lines().filter(|line| !line.trim().is_empty()).collect();
    assert_eq!(with_comment.len(), 4);
    assert_eq!(with_comment[0].find(';'), Some(column));
    assert_eq!(with_comment[1].find(';'), Some(column));
    assert_eq!(with_comment[3].find(';'), Some(column));
    assert_eq!(with_comment[2].find(';'), Some(0));
}

#[test]
fn formatting_its_own_output_changes_nothing() {
    let source = ".orig x3000\n;  go \nLOOP add r1,r1,#1 ;   up\nbrp LOOP\nTAIL:\n";
    let once = formatted(&DEFAULT_STYLE, source);
    let twice = formatted(&DEFAULT_STYLE, &once);
    assert_eq!(once, twice);
}

/// The statements of a program as printed, and the names of their labels
/// without colons.
fn statements_of(program: &Program) -> Vec<(Vec<String>, String)> {
    let bare = |labels: &[lc3_toolchain::ast::raw_ast::Label]| -> Vec<String> {
        labels.iter().map(|l| l.content().trim_end_matches(':').to_string()).collect()
    };
    program
        .items()
        .iter()
        .filter_map(|item| match item {
            ProgramItem::Instruction(labels, instruction, _, _) => {
                Some((bare(labels), print_instruction(instruction)))
            }
            ProgramItem::Directive(labels, directive, _, _) => {
                Some((bare(labels), print_directive(directive)))
            }
            ProgramItem::EOL(labels) => Some((bare(labels), String::new())),
            ProgramItem::Comment(..) => None,
        })
        .collect()
}

#[test]
fn formatting_keeps_the_statements() {
    let source = ".orig x3000\nA B: add r1,r1,#1 ; up\n;x\nbrp A\n.stringz \"a; b\"\n.end\nC";
    let before = get_ast(source);
    let after = get_ast(&formatted(&NO_COLON_STYLE, source));
    assert_eq!(statements_of(&before), statements_of(&after));
    assert_eq!(statements_of(&before).len(), 6);
    assert_eq!(statements_of(&before)[1], (vec!["A".to_string(), "B".to_string()], "add r1, r1, #1".to_string()));
}

#[test]
fn one_error_for_a_mnemonic_of_another_style() {
    let style = LintStyle {
        colon_after_label: true,
        label_style: CaseStyle::SnakeCase,
        instruction_style: CaseStyle::ScreamingSnakeCase,
        directive_style: CaseStyle::ScreamingSnakeCase,
    };
    let errors = Linter::new(style, get_ast("And R1, R2, R3")).check().unwrap_err();
    assert_eq!(errors.len(), 1);
    assert_eq!(
        errors[0].case_style_error(),
        &Err((CaseStyle::ScreamingSnakeCase, Some(CaseStyle::UpperCamelCase)))
    );
    assert_eq!(errors[0].colon_style_error(), &Ok(()));
    assert_eq!((*errors[0].span().start(), *errors[0].span().end()), (0, 3));
}

#[test]
fn no_error_for_a_label_with_the_colon_asked_for() {
    let style = LintStyle {
        colon_after_label: true,
        label_style: CaseStyle::SnakeCase,
        instruction_style: CaseStyle::ScreamingSnakeCase,
        directive_style: CaseStyle::ScreamingSnakeCase,
    };
    assert!(Linter::new(style, get_ast("loop_start: ADD R1, R2, R3")).check().is_ok());
}

#[test]
fn one_colon_error_for_a_label_without_its_colon() {
    let style = LintStyle {
        colon_after_label: true,
        label_style: CaseStyle::SnakeCase,
        instruction_style: CaseStyle::ScreamingSnakeCase,
        directive_style: CaseStyle::ScreamingSnakeCase,
    };
    let errors = Linter::new(style, get_ast("loop_start ADD R1, R2, R3")).check().unwrap_err();
    assert_eq!(errors.len(), 1);
    assert_eq!(errors[0].case_style_error(), &Ok(()));
    assert_eq!(errors[0].colon_style_error(), &Err(()));
    assert_eq!((*errors[0].span().start(), *errors[0].span().end()), (0, 10));
}

#[test]
fn every_violation_is_reported_in_order() {
    let style = LintStyle {
        colon_after_label: false,
        label_style: CaseStyle::SnakeCase,
        instruction_style: CaseStyle::ScreamingSnakeCase,
        directive_style: CaseStyle::ScreamingSnakeCase,
    };
    let source = ".orig x3000\nBad: add R1, R1, R1\n; note\nfine ADD R1, R1, R1\n9x\n";
    let errors = Linter::new(style, get_ast(source)).check().unwrap_err();
    let starts: Vec<usize> = errors.iter().map(|e| *e.span().start()).collect();
    assert_eq!(starts, vec![0, 12, 17, 59]);
    assert_eq!(
        errors[0].case_style_error(),
        &Err((CaseStyle::ScreamingSnakeCase, Some(CaseStyle::SnakeCase)))
    );
    assert_eq!(
        errors[1].case_style_error(),
        &Err((CaseStyle::SnakeCase, Some(CaseStyle::UpperCamelCase)))
    );
    assert_eq!(errors[1].colon_style_error(), &Err(()));
    assert_eq!(errors[3].case_style_error(), &Err((CaseStyle::SnakeCase, None)));
}

#[test]
fn items_of_a_small_program() {
    let program = get_ast("start ADD R1, R2, R3 ; sum\n; alone\nend_label");
    let items = program.items();
    assert_eq!(items.len(), 3);
    assert!(items[0].is_instruction());
    assert!(items[1].is_comment());
    assert!(items[2].is_eol());
    match &items[0] {
        ProgramItem::Instruction(labels, instruction, comment, at) => {
            assert_eq!(labels.len(), 1);
            assert_eq!(labels[0].content(), "start");
            assert_eq!(instruction.content(), "ADD");
            assert_eq!(comment.as_ref().unwrap().content(), "; sum");
            assert_eq!((at.line(), at.column()), (1, 7));
        }
        _ => unreachable!(),
    }
}
