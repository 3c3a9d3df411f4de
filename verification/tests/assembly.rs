use falbe::assembler::{compile, Assembler};
use falbe::errors::AsmError;
use falbe::token::{Token, TokenType};
use falbe::vm::Opcode;

fn bits(x: f64) -> u64 {
    x.to_bits()
}

#[test]
fn assemble_simple_program() {
    let ops = compile("macro main { push 5 push 2 sub halt }").unwrap();
    assert_eq!(
        ops,
        vec![Opcode::Push(bits(5.0)), Opcode::Push(bits(2.0)), Opcode::Sub, Opcode::Halt]
    );
}

#[test]
fn assemble_fractional_literal() {
    let ops = compile("macro main { push 2.5 push .5 push -3 halt }").unwrap();
    assert_eq!(
        ops,
        vec![
            Opcode::Push(bits(2.5)),
            Opcode::Push(bits(0.5)),
            Opcode::Push(bits(-3.0)),
            Opcode::Halt
        ]
    );
}

#[test]
fn assemble_symbolic_aliases() {
    let ops = compile("macro main { push 1 push 2 + - * $ 2 = 4 halt }").unwrap();
    assert_eq!(
        ops,
        vec![
            Opcode::Push(bits(1.0)),
            Opcode::Push(bits(2.0)),
            Opcode::Add,
            Opcode::Sub,
            Opcode::Mul,
            Opcode::Get(2),
            Opcode::Store(4),
            Opcode::Halt
        ]
    );
}

#[test]
fn assemble_builtin_constant_mnemonics() {
    let ops = compile("macro main { pi tau e halt }").unwrap();
    assert_eq!(ops, vec![Opcode::Get(1), Opcode::Get(2), Opcode::Get(3), Opcode::Halt]);
}

#[test]
fn macro_expansion_in_place() {
    let ops = compile("macro double { push 2 mul } macro main { push 5 double halt }").unwrap();
    assert_eq!(
        ops,
        vec![Opcode::Push(bits(5.0)), Opcode::Push(bits(2.0)), Opcode::Mul, Opcode::Halt]
    );
}

#[test]
fn constant_substitution_same_as_literal() {
    let with_const = compile("const k = 4 macro main { push k halt }").unwrap();
    let literal = compile("macro main { push 4 halt }").unwrap();
    assert_eq!(with_const, literal);
}

#[test]
fn opcode_count_matches_mnemonic_count() {
    // Four mnemonics, two operand literals, one comment: four opcodes.
    let ops = compile("macro main { push 1 push 2 add // sum\n halt }").unwrap();
    assert_eq!(ops.len(), 4);
}

#[test]
fn duplicate_macro_rejected() {
    let r = compile("macro a { halt } macro a { halt } macro main { halt }");
    assert_eq!(r.unwrap_err(), AsmError::DuplicateDefinition { name: String::from("a") });
}

#[test]
fn duplicate_constant_rejected() {
    let r = compile("const k = 1 const k = 2 macro main { halt }");
    assert_eq!(r.unwrap_err(), AsmError::DuplicateDefinition { name: String::from("k") });
}

#[test]
fn missing_entry_point_rejected() {
    let r = compile("macro helper { halt }");
    assert_eq!(r.unwrap_err(), AsmError::MissingEntryPoint);
}

#[test]
fn unknown_identifier_rejected() {
    let r = compile("macro main { push 1 mystery halt }");
    assert_eq!(r.unwrap_err(), AsmError::UnknownIdentifier { name: String::from("mystery") });
}

#[test]
fn push_without_operand_rejected() {
    let r = compile("macro main { push halt }");
    assert_eq!(r.unwrap_err(), AsmError::MalformedOperand { pos: 0 });
}

#[test]
fn non_integer_index_rejected() {
    let r = compile("macro main { jump 3.5 halt }");
    assert_eq!(r.unwrap_err(), AsmError::MalformedOperand { pos: 0 });
}

#[test]
fn negative_index_rejected() {
    let r = compile("macro main { get -1 halt }");
    assert_eq!(r.unwrap_err(), AsmError::MalformedOperand { pos: 0 });
}

#[test]
fn stray_token_at_top_level_rejected() {
    let r = compile("push 5 macro main { halt }");
    assert_eq!(r.unwrap_err(), AsmError::UnexpectedToken { kind: TokenType::Push, pos: 0 });
}

#[test]
fn unclosed_macro_rejected() {
    let r = compile("macro main { push 1 halt");
    assert_eq!(r.unwrap_err(), AsmError::UnexpectedToken { kind: TokenType::Macro, pos: 0 });
}

#[test]
fn cyclic_macro_rejected() {
    let r = compile("macro a { a } macro main { a }");
    assert_eq!(r.unwrap_err(), AsmError::CyclicMacroExpansion);
}

#[test]
fn mutually_cyclic_macros_rejected() {
    let r = compile("macro a { b } macro b { a } macro main { a }");
    assert_eq!(r.unwrap_err(), AsmError::CyclicMacroExpansion);
}

#[test]
fn nested_macros_expand() {
    let ops = compile(
        "macro two { push 2 } macro double { two mul } macro main { push 5 double halt }",
    )
    .unwrap();
    assert_eq!(
        ops,
        vec![Opcode::Push(bits(5.0)), Opcode::Push(bits(2.0)), Opcode::Mul, Opcode::Halt]
    );
}

#[test]
fn parser_new_starts_at_zero() {
    let parser = Assembler::new(Token::lex("macro main { halt }"));
    assert_eq!(parser.cursor, 0);
    assert_eq!(parser.tokens.len(), 5);
}

#[test]
fn parse_macro_consumes_whole_production() {
    let mut parser = Assembler::new(Token::lex("macro foo { push 1 }"));
    let m = parser.parse_macro().unwrap();
    assert_eq!(m.name, "foo");
    assert_eq!(m.body.len(), 2);
    assert_eq!(m.body[0].ttype, TokenType::Push);
    assert_eq!(m.body[1].slice, "1");
    assert_eq!(parser.cursor, parser.tokens.len());
}

#[test]
fn parse_macro_rolls_back_on_failure() {
    let mut parser = Assembler::new(Token::lex("macro foo push"));
    assert!(parser.parse_macro().is_err());
    assert_eq!(parser.cursor, 0);
}

#[test]
fn parse_constant_reads_binding() {
    let mut parser = Assembler::new(Token::lex("const k = 4.5"));
    let c = parser.parse_constant().unwrap();
    assert_eq!(c.name, "k");
    assert_eq!(c.value, "4.5");
    assert_eq!(parser.cursor, 4);
}

#[test]
fn match_token_advances_only_on_match() {
    let mut parser = Assembler::new(Token::lex("halt"));
    assert!(parser.match_token(TokenType::Halt, TokenType::Push).is_err());
    assert_eq!(parser.cursor, 0);
    assert!(parser.match_token(TokenType::Halt, TokenType::Halt).is_ok());
    assert_eq!(parser.cursor, 1);
}

#[test]
fn assemble_method_matches_compile() {
    let src = "macro main { push 1 push 2 add halt }";
    let mut parser = Assembler::new(Token::lex(src));
    assert_eq!(parser.assemble().unwrap(), compile(src).unwrap());
}

#[test]
fn empty_source_has_no_entry_point() {
    assert_eq!(compile("").unwrap_err(), AsmError::MissingEntryPoint);
}

#[test]
fn empty_main_compiles_to_no_opcodes() {
    assert_eq!(compile("macro main { }").unwrap(), Vec::<Opcode>::new());
}
