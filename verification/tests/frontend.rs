use asmrs::lexer::{Lexer, TokenType};
use asmrs::pos::Pos;
use asmrs::parser::Parser;
use asmrs::ast::{Line, Operand, Value};

fn kinds_and_values(text: &str) -> Vec<(TokenType, String)> {
    let mut lexer = Lexer::new(text);
    let mut out = Vec::new();
    while let Some(tok) = lexer.next_token() {
        out.push((tok.token_type, tok.value(text).to_string()));
    }
    out
}

#[test]
fn tokenizes_instruction_line_and_drops_comment() {
    let toks = kinds_and_values("mov r1, 0x2A ; comment\n");
    let expected = vec![
        (TokenType::Id, "mov".to_string()),
        (TokenType::Id, "r1".to_string()),
        (TokenType::Comma, ",".to_string()),
        (TokenType::Hex, "0x2A".to_string()),
        (TokenType::Newline, "\n".to_string()),
    ];
    assert_eq!(toks.len(), expected.len());
    for (got, want) in toks.iter().zip(expected.iter()) {
        assert_eq!(got.0, want.0);
        assert_eq!(got.1, want.1);
    }
}

#[test]
fn tokenizes_punctuation_and_numbers() {
    let toks = kinds_and_values(".l: [r0], 12 0b10");
    let kinds: Vec<TokenType> = toks.iter().map(|t| t.0).collect();
    assert_eq!(
        kinds,
        vec![
            TokenType::Dot,
            TokenType::Id,
            TokenType::Colon,
            TokenType::LBracket,
            TokenType::Id,
            TokenType::RBracket,
            TokenType::Comma,
            TokenType::Int,
            TokenType::Binary,
        ]
    );
}

#[test]
fn lexer_reports_unexpected_char_and_goes_on() {
    let text = "a $ b\n";
    let mut lexer = Lexer::new(text);
    let mut kinds = Vec::new();
    while let Some(tok) = lexer.next_token() {
        kinds.push(tok.token_type);
    }
    assert_eq!(
        kinds,
        vec![TokenType::Id, TokenType::Error, TokenType::Id, TokenType::Newline]
    );
    let errors = lexer.errors();
    assert_eq!(errors.len(), 1);
    assert_eq!(errors[0].message, "unexpected char");
    assert_eq!(errors[0].pos.line, 1);
    assert_eq!(errors[0].pos.col, 3);
}

#[test]
fn lexer_reports_malformed_hex_literal() {
    let mut lexer = Lexer::new("mov r0, 0x\n");
    let mut kinds = Vec::new();
    while let Some(tok) = lexer.next_token() {
        kinds.push(tok.token_type);
    }
    assert_eq!(
        kinds,
        vec![TokenType::Id, TokenType::Id, TokenType::Comma, TokenType::Error, TokenType::Newline]
    );
    let errors = lexer.errors();
    assert_eq!(errors.len(), 1);
    assert_eq!(errors[0].message, "malformed literal");
}

#[test]
fn tracks_line_and_column_positions() {
    let text = "nop\n  add r0, r1\n";
    let mut lexer = Lexer::new(text);
    let first = lexer.next_token().unwrap();
    assert_eq!((first.pos.index, first.pos.line, first.pos.col), (0, 1, 1));
    let newline = lexer.next_token().unwrap();
    assert_eq!(newline.token_type, TokenType::Newline);
    let add = lexer.next_token().unwrap();
    assert_eq!((add.pos.index, add.pos.line, add.pos.col), (6, 2, 3));
    assert_eq!(add.value(text), "add");
}

#[test]
fn parses_labels_and_instruction_shapes() {
    let text = "start:\n.loop:\nmov word r1, [r0]\n";
    let mut parser = Parser::new(text);
    let lines = parser.parse();
    assert!(parser.errors().is_empty());
    assert_eq!(lines.len(), 3);
    match &lines[0] {
        Line::Label(l) => assert_eq!(l.value, "start"),
        _ => panic!("expected a global label"),
    }
    match &lines[1] {
        Line::Label(l) => assert_eq!(l.value, "loop"),
        _ => panic!("expected a local label"),
    }
    match &lines[2] {
        Line::Instruction(i) => {
            assert_eq!(i.operator, "mov");
            assert_eq!(i.attribute.as_deref(), Some("word"));
            assert_eq!(i.operands.len(), 2);
            match &i.operands[0] {
                Operand::Value(Value::Id(name)) => assert_eq!(name, "r1"),
                _ => panic!("expected a bare register operand"),
            }
            match &i.operands[1] {
                Operand::Address(Value::Id(name)) => assert_eq!(name, "r0"),
                _ => panic!("expected a bracketed register operand"),
            }
        },
        _ => panic!("expected an instruction"),
    }
}

#[test]
fn first_identifier_is_operand_when_comma_follows() {
    let mut parser = Parser::new("mov r1, r0\n");
    let lines = parser.parse();
    assert!(parser.errors().is_empty());
    match &lines[0] {
        Line::Instruction(i) => {
            assert_eq!(i.attribute, None);
            assert_eq!(i.operands.len(), 2);
        },
        _ => panic!("expected an instruction"),
    }
}

#[test]
fn parses_integer_literals_in_three_bases() {
    let mut parser = Parser::new("mov r0, 42\nmov r0, 0x2A\nmov r0, 0b101010\n");
    let lines = parser.parse();
    assert!(parser.errors().is_empty());
    for line in &lines {
        match line {
            Line::Instruction(i) => match &i.operands[1] {
                Operand::Value(Value::Int(v)) => assert_eq!(*v, 42),
                _ => panic!("expected an immediate"),
            },
            _ => panic!("expected an instruction"),
        }
    }
}

#[test]
fn rejects_decimal_literal_beyond_i32() {
    let mut parser = Parser::new("mov r0, 2147483648\n");
    let lines = parser.parse();
    let errors = parser.errors();
    assert!(lines.is_empty());
    assert!(errors.iter().any(|e| e.message == "integer literal out of range"));
}

#[test]
fn accepts_hex_literal_up_to_u32() {
    let mut parser = Parser::new("mov r0, 0xFFFFFFFF\n");
    let lines = parser.parse();
    assert!(parser.errors().is_empty());
    match &lines[0] {
        Line::Instruction(i) => match &i.operands[1] {
            Operand::Value(Value::Int(v)) => assert_eq!(*v, -1),
            _ => panic!("expected an immediate"),
        },
        _ => panic!("expected an instruction"),
    }
}

#[test]
fn bad_line_is_skipped_and_next_line_parses() {
    let mut parser = Parser::new("mov ,\nnop\n");
    let lines = parser.parse();
    let errors = parser.errors();
    assert_eq!(lines.len(), 1);
    match &lines[0] {
        Line::Instruction(i) => assert_eq!(i.operator, "nop"),
        _ => panic!("expected an instruction"),
    }
    assert!(errors.iter().any(|e| e.message == "expected operand"));
}

#[test]
fn missing_newline_after_label_is_reported() {
    let mut parser = Parser::new("a: b\nnop\n");
    let lines = parser.parse();
    let errors = parser.errors();
    assert_eq!(lines.len(), 1);
    assert!(errors.iter().any(|e| e.message == "expected newline"));
}

#[test]
fn blank_lines_vanish_silently() {
    let mut parser = Parser::new("\n\nnop\n\n");
    let lines = parser.parse();
    assert!(parser.errors().is_empty());
    assert_eq!(lines.len(), 1);
}

#[test]
fn renders_diagnostic_with_caret_under_column() {
    let text = "nop\nmov r9, 1\n";
    let (_, diags) = asmrs::assemble(text);
    assert_eq!(diags.len(), 1);
    let rendered = diags[0].formatted(text, "file.asm");
    assert_eq!(
        rendered,
        "error: unknown register\n  -> file.asm:2:1\n    |\n   2|mov r9, 1\n    |^ unknown register\n"
    );
}

#[test]
fn merged_errors_put_lexer_diagnostics_first() {
    let mut parser = Parser::new("$ ,\n");
    let lines = parser.parse();
    assert!(lines.is_empty());
    let errors = parser.errors();
    assert_eq!(errors.len(), 2);
    assert_eq!(errors[0].message, "unexpected char");
    assert_eq!(errors[1].message, "expected label, instruction or directive");
}

#[test]
fn position_slices_source_text() {
    let text = "mov r1
";
    let pos = Pos { index: 4, line: 1, col: 5 };
    assert_eq!(pos.value(text, 2), "r1");
}
