use falbe::token::{Token, TokenType};

fn kinds(src: &str) -> Vec<TokenType> {
    Token::lex(src).into_iter().map(|t| t.ttype).collect()
}

fn slices(src: &str) -> Vec<String> {
    Token::lex(src).into_iter().map(|t| t.slice).collect()
}

#[test]
fn lex_simple_program() {
    let toks = Token::lex("push 5 push 2 sub halt");
    let expected = [
        (TokenType::Push, "push"),
        (TokenType::Literal, "5"),
        (TokenType::Push, "push"),
        (TokenType::Literal, "2"),
        (TokenType::Sub, "sub"),
        (TokenType::Halt, "halt"),
    ];
    assert_eq!(toks.len(), expected.len());
    for (tok, (kind, text)) in toks.iter().zip(expected.iter()) {
        assert_eq!(tok.ttype, *kind);
        assert_eq!(tok.slice, *text);
    }
}

#[test]
fn lex_symbols_and_braces() {
    assert_eq!(
        kinds("macro main { + - * $ = }"),
        vec![
            TokenType::Macro,
            TokenType::Identifier,
            TokenType::OpenBrace,
            TokenType::AddSymb,
            TokenType::SubSymb,
            TokenType::MulSymb,
            TokenType::GetSymb,
            TokenType::Assign,
            TokenType::CloseBrace,
        ]
    );
}

#[test]
fn lex_literal_shapes() {
    assert_eq!(slices("3.14 .5 +5 -2.5 3"), vec!["3.14", ".5", "+5", "-2.5", "3"]);
    assert!(kinds("3.14 .5 +5 -2.5 3").iter().all(|k| *k == TokenType::Literal));
}

#[test]
fn lex_trailing_dot_is_not_part_of_literal() {
    let toks = Token::lex("3.");
    assert_eq!(toks.len(), 2);
    assert_eq!(toks[0].ttype, TokenType::Literal);
    assert_eq!(toks[0].slice, "3");
    assert_eq!(toks[1].ttype, TokenType::Error);
    assert_eq!(toks[1].slice, ".");
}

#[test]
fn lex_sign_alone_is_symbolic() {
    assert_eq!(kinds("+ -"), vec![TokenType::AddSymb, TokenType::SubSymb]);
}

#[test]
fn lex_comment_runs_to_end_of_line() {
    assert_eq!(
        kinds("push 1 // ignored words push push\nhalt"),
        vec![TokenType::Push, TokenType::Literal, TokenType::Halt]
    );
}

#[test]
fn lex_unrecognized_character() {
    let toks = Token::lex("push @ halt");
    assert_eq!(toks[1].ttype, TokenType::Error);
    assert_eq!(toks[1].slice, "@");
}

#[test]
fn lex_keywords() {
    assert_eq!(
        kinds("jump set get pop add mul dup sqrt pc print pi tau e const"),
        vec![
            TokenType::Jump,
            TokenType::Store,
            TokenType::Get,
            TokenType::Pop,
            TokenType::Add,
            TokenType::Mul,
            TokenType::Dup,
            TokenType::Sqrt,
            TokenType::Pc,
            TokenType::Print,
            TokenType::Pi,
            TokenType::Tau,
            TokenType::E,
            TokenType::Const,
        ]
    );
}

#[test]
fn lex_identifier_not_keyword() {
    let toks = Token::lex("double pushx");
    assert_eq!(toks[0].ttype, TokenType::Identifier);
    assert_eq!(toks[0].slice, "double");
    assert_eq!(toks[1].ttype, TokenType::Identifier);
    assert_eq!(toks[1].slice, "pushx");
}

#[test]
fn token_new_keeps_fields() {
    let t = Token::new(TokenType::Literal, String::from("42"));
    assert_eq!(t.ttype, TokenType::Literal);
    assert_eq!(t.slice, "42");
}
