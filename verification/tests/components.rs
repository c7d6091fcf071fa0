//! Unit tests of the scanner, the opcode encoding, the chunk, and the
//! byte streams the compiler emits.

use thorium::chunk::{Chunk, Literal, OpCode};
use thorium::compiler::{compile, Precedence};
use thorium::scanner::{Scanner, Token, TokenType};
use thorium::value::Value;
use thorium::vm::{InterpretError, NumberReply, NumberRequest, StepOutcome, Vm};

fn compile_ok(src: &str) -> Chunk {
    let (result, diagnostics) = compile(src.to_string());
    assert!(diagnostics.is_empty());
    result.expect("source should compile")
}

fn scan_all(src: &str) -> Vec<Token> {
    let mut scanner = Scanner::init(src.to_string());
    let mut tokens = Vec::new();
    loop {
        let t = scanner.scan_token();
        let done = t.token_type == TokenType::Eof;
        tokens.push(t);
        if done {
            return tokens;
        }
    }
}

fn kinds(src: &str) -> Vec<TokenType> {
    scan_all(src).into_iter().map(|t| t.token_type).collect()
}

#[test]
fn scanner_classifies_punctuation_and_operators() {
    assert_eq!(
        kinds("( ) { } , . - + ; / * ! != = == > >= < <="),
        vec![
            TokenType::Leftparen,
            TokenType::Rightparen,
            TokenType::Leftbrace,
            TokenType::Rightbrace,
            TokenType::Comma,
            TokenType::Dot,
            TokenType::Minus,
            TokenType::Plus,
            TokenType::Semicolon,
            TokenType::Slash,
            TokenType::Star,
            TokenType::Bang,
            TokenType::Bangequal,
            TokenType::Equal,
            TokenType::Equalequal,
            TokenType::Greater,
            TokenType::Greaterequal,
            TokenType::Less,
            TokenType::Lessequal,
            TokenType::Eof,
        ]
    );
}

#[test]
fn scanner_knows_every_keyword() {
    assert_eq!(
        kinds("and class else false for fun if nil or print return super this true var while"),
        vec![
            TokenType::And,
            TokenType::Class,
            TokenType::Else,
            TokenType::False,
            TokenType::For,
            TokenType::Fun,
            TokenType::If,
            TokenType::Nil,
            TokenType::Or,
            TokenType::Print,
            TokenType::Return,
            TokenType::Super,
            TokenType::This,
            TokenType::True,
            TokenType::Var,
            TokenType::While,
            TokenType::Eof,
        ]
    );
}

#[test]
fn keyword_prefixes_are_identifiers() {
    assert_eq!(
        kinds("varx fals forty printer an f t _x"),
        vec![
            TokenType::Identifier,
            TokenType::Identifier,
            TokenType::Identifier,
            TokenType::Identifier,
            TokenType::Identifier,
            TokenType::Identifier,
            TokenType::Identifier,
            TokenType::Identifier,
            TokenType::Eof,
        ]
    );
}

#[test]
fn scanner_reads_numbers_and_strings() {
    let tokens = scan_all("12 3.25 \"hi there\"");
    assert_eq!(tokens[0].token_type, TokenType::Number);
    assert_eq!(tokens[0].lexeme, "12");
    assert_eq!(tokens[1].token_type, TokenType::Number);
    assert_eq!(tokens[1].lexeme, "3.25");
    assert_eq!(tokens[2].token_type, TokenType::String);
    assert_eq!(tokens[2].lexeme, "\"hi there\"");
}

#[test]
fn scanner_counts_lines() {
    let tokens = scan_all("1\n2\n// comment\n3");
    assert_eq!(tokens[0].line, 1);
    assert_eq!(tokens[1].line, 2);
    assert_eq!(tokens[2].line, 4);
}

#[test]
fn a_dot_needs_a_digit_after_it() {
    assert_eq!(
        kinds("1. 2"),
        vec![
            TokenType::Number,
            TokenType::Dot,
            TokenType::Number,
            TokenType::Eof,
        ]
    );
}

#[test]
fn opcode_bytes_roundtrip() {
    for b in 0u8..=255 {
        if let Some(op) = OpCode::from_byte(b) {
            assert_eq!(op.to_byte(), b);
        }
    }
    assert_eq!(OpCode::from_byte(OpCode::Print.to_byte()), Some(OpCode::Print));
    assert_eq!(OpCode::from_byte(250), None);
}

#[test]
fn chunk_write_keeps_lines_parallel() {
    let mut chunk = Chunk::init();
    chunk.write(OpCode::Nil.to_byte(), 1);
    chunk.write(OpCode::Pop.to_byte(), 2);
    chunk.write(OpCode::Return.to_byte(), 2);
    assert_eq!(chunk.code.len(), chunk.lines.len());
    assert_eq!(chunk.lines, vec![1, 2, 2]);
}

#[test]
fn blank_source_compiles_to_a_bare_return() {
    let chunk = compile_ok("// nothing here\n");
    assert_eq!(chunk.code, vec![OpCode::Return.to_byte()]);
    assert!(chunk.constants.is_empty());
}

#[test]
fn print_statement_emits_constant_then_print() {
    let chunk = compile_ok("print 1;");
    assert_eq!(
        chunk.code,
        vec![
            OpCode::Constant.to_byte(),
            0,
            OpCode::Print.to_byte(),
            OpCode::Return.to_byte(),
        ]
    );
    match &chunk.constants[0] {
        Literal::Number(text) => assert_eq!(text, "1"),
        other => panic!("expected a number literal, got {:?}", other),
    }
}

#[test]
fn string_constants_lose_their_quotes() {
    let chunk = compile_ok("\"hi\";");
    match &chunk.constants[0] {
        Literal::Str(text) => assert_eq!(text, "hi"),
        other => panic!("expected a string literal, got {:?}", other),
    }
}

#[test]
fn var_declaration_emits_define_global() {
    let chunk = compile_ok("var a = 1;");
    assert_eq!(
        chunk.code,
        vec![
            OpCode::Constant.to_byte(),
            1,
            OpCode::DefineGlobal.to_byte(),
            0,
            OpCode::Return.to_byte(),
        ]
    );
    match &chunk.constants[0] {
        Literal::Str(name) => assert_eq!(name, "a"),
        other => panic!("expected the variable name, got {:?}", other),
    }
}

#[test]
fn var_without_initializer_emits_nil() {
    let chunk = compile_ok("var a;");
    assert_eq!(
        chunk.code,
        vec![
            OpCode::Nil.to_byte(),
            OpCode::DefineGlobal.to_byte(),
            0,
            OpCode::Return.to_byte(),
        ]
    );
}

#[test]
fn not_equal_compiles_like_equal_then_not() {
    let sugar = compile_ok("1 != 2;");
    let spelled = compile_ok("!(1 == 2);");
    assert_eq!(sugar.code, spelled.code);
}

#[test]
fn less_equal_compiles_like_not_greater() {
    let sugar = compile_ok("1 <= 2;");
    let spelled = compile_ok("!(1 > 2);");
    assert_eq!(sugar.code, spelled.code);
}

#[test]
fn greater_equal_compiles_like_not_less() {
    let sugar = compile_ok("1 >= 2;");
    let spelled = compile_ok("!(1 < 2);");
    assert_eq!(sugar.code, spelled.code);
}

#[test]
fn precedence_matches_explicit_grouping() {
    assert_eq!(compile_ok("1 + 2 * 3;").code, compile_ok("1 + (2 * 3);").code);
    assert_eq!(compile_ok("1 * 2 + 3;").code, compile_ok("(1 * 2) + 3;").code);
    assert_eq!(compile_ok("7 - 2 - 3;").code, compile_ok("(7 - 2) - 3;").code);
    assert_eq!(compile_ok("1 < 2 == true;").code, compile_ok("(1 < 2) == true;").code);
}

#[test]
fn higher_precedence_climbs_one_level() {
    assert_eq!(
        Precedence::higher_precedence(Precedence::Term),
        Precedence::Factor
    );
    assert_eq!(
        Precedence::higher_precedence(Precedence::Assignment),
        Precedence::Or
    );
}

#[test]
fn compile_failure_reports_and_returns_no_chunk() {
    let (result, diagnostics) = compile("var ;".to_string());
    assert!(matches!(result, Err(InterpretError::CompileError)));
    assert!(!diagnostics.is_empty());
    assert!(diagnostics.join("\n").contains("Expect a variable name."));
}

#[test]
fn one_diagnostic_per_statement_until_resynchronized() {
    let (result, diagnostics) = compile("1 + ; 2 + ;".to_string());
    assert!(matches!(result, Err(InterpretError::CompileError)));
    assert_eq!(diagnostics.len(), 2);
}

#[test]
fn disassembly_lists_each_instruction() {
    let chunk = compile_ok("print 1 + 2;");
    let listing = chunk.disassemble("code");
    assert_eq!(listing.len(), 1 + 5);
    assert!(listing[0].contains("Disassemble code"));
    assert!(listing[1].contains("Constant"));
    assert!(listing[3].contains("Add"));
    assert!(listing[4].contains("Print"));
    assert!(listing[5].contains("Return"));
}

fn parse_only_helper(req: NumberRequest) -> NumberReply {
    match req {
        NumberRequest::Parse(text) => {
            NumberReply::Bits(text.parse::<f64>().unwrap_or(f64::NAN).to_bits())
        }
        _ => NumberReply::Bits(0),
    }
}

#[test]
fn negating_a_boolean_faults_with_the_typing_message() {
    let mut chunk = Chunk::init();
    chunk.write(OpCode::True.to_byte(), 1);
    chunk.write(OpCode::Negate.to_byte(), 1);
    chunk.write(OpCode::Return.to_byte(), 1);
    let mut vm = Vm::init(&chunk);
    assert_eq!(vm.step(&parse_only_helper), StepOutcome::Continue);
    assert_eq!(vm.step(&parse_only_helper), StepOutcome::Fault);
    assert_eq!(vm.stderr[0], "Operand must be a number");
    assert!(vm.stderr[1].contains("[line 1]"));
    assert!(vm.stack.values.is_empty());
}

#[test]
fn negate_flips_the_ieee_sign_bit() {
    let mut chunk = Chunk::init();
    let index = chunk.add_constant(Literal::Number("2".to_string()));
    chunk.write(OpCode::Constant.to_byte(), 1);
    chunk.write(index as u8, 1);
    chunk.write(OpCode::Negate.to_byte(), 1);
    chunk.write(OpCode::Return.to_byte(), 1);
    let mut vm = Vm::init(&chunk);
    assert_eq!(vm.step(&parse_only_helper), StepOutcome::Continue);
    assert_eq!(vm.step(&parse_only_helper), StepOutcome::Continue);
    match vm.stack.values.last() {
        Some(Value::Number(bits)) => assert_eq!(*bits, (-2.0f64).to_bits()),
        other => panic!("expected a number on the stack, got {:?}", other),
    }
    assert_eq!(vm.step(&parse_only_helper), StepOutcome::Halt);
}

#[test]
fn popping_an_empty_stack_faults() {
    let mut chunk = Chunk::init();
    chunk.write(OpCode::Pop.to_byte(), 3);
    chunk.write(OpCode::Return.to_byte(), 3);
    let mut vm = Vm::init(&chunk);
    assert_eq!(vm.step(&parse_only_helper), StepOutcome::Fault);
    assert!(vm.stderr[1].contains("[line 3]"));
}
