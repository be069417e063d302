//! Scenario tests for the documented behaviour: line-break resolution,
//! batch expansion order, kind consistency, recovery boundaries, the
//! IO-minimum gate, and the no-module-on-error invariant.

use compile::compile;
use compile::lex::LexerError;
use compile::lex::SourcePosition;
use compile::lex::Token;
use compile::lex::TokenKind;
use compile::norm::Inverter;
use compile::parse::ParserError;
use compile::parse::parse;
use compile::translate::Connection;
use compile::translate::IdentKind;
use compile::translate::Identifier;

fn tok(kind: TokenKind, text: &str) -> Token {
    Token::new(kind, text.to_string(), SourcePosition::new(0, 0))
}

fn tok_at(kind: TokenKind, text: &str, line: usize, column: usize) -> Token {
    Token::new(kind, text.to_string(), SourcePosition::new(line, column))
}

fn conn(from: &str, fk: IdentKind, to: &str, tk: IdentKind, is_charge: bool) -> Connection {
    Connection::new(
        Identifier::new(from.to_string(), fk),
        Identifier::new(to.to_string(), tk),
        is_charge,
    )
}

fn charge(from: &str, to: &str) -> Connection {
    conn(from, IdentKind::Node, to, IdentKind::Node, true)
}

fn normalized(tokens: Vec<Token>) -> Vec<Token> {
    let mut inv = Inverter::new(tokens);
    let mut gen = vec![];
    while let Some(token) = inv.expect() {
        gen.push(token);
    }
    gen
}

#[test]
fn line_break_dropped_before_comma() {
    let gen = normalized(vec![
        tok(TokenKind::Identifier, "a"),
        tok(TokenKind::EndLine, "\n"),
        tok(TokenKind::Comma, ","),
    ]);
    assert_eq!(gen, vec![tok(TokenKind::Identifier, "a"), tok(TokenKind::Comma, ",")]);
}

#[test]
fn line_break_kept_before_identifier() {
    let gen = normalized(vec![
        tok(TokenKind::Identifier, "a"),
        tok(TokenKind::EndLine, "\n"),
        tok(TokenKind::Identifier, "b"),
    ]);
    assert_eq!(
        gen,
        vec![
            tok(TokenKind::Identifier, "a"),
            tok(TokenKind::EndLine, "\n"),
            tok(TokenKind::Identifier, "b"),
        ]
    );
}

#[test]
fn batch_cartesian_product() {
    let (connections, errors) = parse(
        vec![
            tok(TokenKind::Identifier, "a"),
            tok(TokenKind::Comma, ","),
            tok(TokenKind::Identifier, "b"),
            tok(TokenKind::Charge, ">"),
            tok(TokenKind::Identifier, "c"),
        ],
        false,
    );
    assert_eq!(errors, vec![]);
    assert_eq!(connections, vec![charge("a", "c"), charge("b", "c")]);
}

#[test]
fn chained_batches_in_order() {
    let (connections, errors) = parse(
        vec![
            tok(TokenKind::Identifier, "a"),
            tok(TokenKind::Charge, ">"),
            tok(TokenKind::Identifier, "b1"),
            tok(TokenKind::Comma, ","),
            tok(TokenKind::Identifier, "b2"),
            tok(TokenKind::Charge, ">"),
            tok(TokenKind::Identifier, "c1"),
            tok(TokenKind::Comma, ","),
            tok(TokenKind::Identifier, "c2"),
        ],
        false,
    );
    assert_eq!(errors, vec![]);
    assert_eq!(
        connections,
        vec![
            charge("a", "b1"),
            charge("a", "b2"),
            charge("b1", "c1"),
            charge("b1", "c2"),
            charge("b2", "c1"),
            charge("b2", "c2"),
        ]
    );
}

#[test]
fn kind_consistency_statement_order() {
    let (_, errors) = parse(
        vec![
            tok(TokenKind::Identifier, "a"),
            tok(TokenKind::Charge, ">"),
            tok(TokenKind::Port, "$"),
            tok(TokenKind::Identifier, "b"),
            tok(TokenKind::Semicolon, ";"),
            tok(TokenKind::Port, "$"),
            tok(TokenKind::Identifier, "b"),
            tok(TokenKind::Charge, ">"),
            tok(TokenKind::Port, "$"),
            tok(TokenKind::Identifier, "a"),
            tok(TokenKind::Semicolon, ";"),
        ],
        false,
    );
    assert_eq!(
        errors,
        vec![
            ParserError::InconstIdKind("b".to_owned(), IdentKind::InPort, IdentKind::OutPort),
            ParserError::InconstIdKind("a".to_owned(), IdentKind::OutPort, IdentKind::Node),
        ]
    );
}

#[test]
fn recovery_at_statement_boundary() {
    let (connections, errors) = parse(
        vec![
            tok_at(TokenKind::Identifier, "a", 0, 0),
            tok_at(TokenKind::Charge, ">", 0, 1),
            tok_at(TokenKind::Charge, ">", 0, 2),
            tok_at(TokenKind::Semicolon, ";", 0, 3),
            tok_at(TokenKind::Identifier, "b", 0, 4),
            tok_at(TokenKind::Charge, ">", 0, 5),
            tok_at(TokenKind::Identifier, "c", 0, 6),
        ],
        false,
    );
    assert_eq!(errors, vec![ParserError::UnexpectedToken(SourcePosition::new(0, 2))]);
    assert_eq!(connections, vec![charge("b", "c")]);
}

#[test]
fn unexpected_token_at_statement_start() {
    let (connections, errors) = parse(vec![tok_at(TokenKind::Comma, ",", 0, 0)], false);
    assert_eq!(errors, vec![ParserError::UnexpectedToken(SourcePosition::new(0, 0))]);
    assert_eq!(connections, vec![]);
}

#[test]
fn io_minimum_gate_rejects_plain_nodes() {
    let (_, errors) = parse(
        vec![
            tok(TokenKind::Identifier, "a"),
            tok(TokenKind::Charge, ">"),
            tok(TokenKind::Identifier, "b"),
        ],
        true,
    );
    assert_eq!(errors, vec![ParserError::IOMin]);
}

#[test]
fn io_minimum_gate_accepts_boundaries() {
    let (_, errors) = parse(
        vec![
            tok(TokenKind::Port, "$"),
            tok(TokenKind::Identifier, "i"),
            tok(TokenKind::Charge, ">"),
            tok(TokenKind::Identifier, "a"),
            tok(TokenKind::Semicolon, ";"),
            tok(TokenKind::Identifier, "a"),
            tok(TokenKind::Charge, ">"),
            tok(TokenKind::Port, "$"),
            tok(TokenKind::Identifier, "o"),
            tok(TokenKind::Semicolon, ";"),
        ],
        true,
    );
    assert_eq!(errors, vec![]);
}

#[test]
fn io_minimum_needs_both_sides() {
    let (_, errors) = parse(
        vec![
            tok(TokenKind::Port, "$"),
            tok(TokenKind::Identifier, "i"),
            tok(TokenKind::Charge, ">"),
            tok(TokenKind::Identifier, "a"),
        ],
        true,
    );
    assert_eq!(errors, vec![ParserError::IOMin]);
}

#[test]
fn no_module_on_lex_error() {
    let result = compile(
        vec![
            tok(TokenKind::Identifier, "a"),
            tok(TokenKind::Charge, ">"),
            tok(TokenKind::Identifier, "b"),
        ],
        vec![LexerError::new(SourcePosition::new(0, 7))],
        true,
        false,
    );
    assert!(!result.success);
    assert!(result.module.is_none());
    assert!(result.input_ids.is_none());
    assert!(result.output_ids.is_none());
    assert_eq!(result.lerrors, vec![LexerError::new(SourcePosition::new(0, 7))]);
    assert_eq!(result.perrors, vec![]);
}

#[test]
fn no_module_on_parse_error() {
    let result = compile(
        vec![tok_at(TokenKind::Identifier, "a", 0, 0), tok_at(TokenKind::Charge, ">", 0, 1)],
        vec![],
        true,
        false,
    );
    assert!(!result.success);
    assert!(result.module.is_none());
    assert!(result.input_ids.is_none());
    assert!(result.output_ids.is_none());
    assert_eq!(result.perrors, vec![ParserError::UnexpectedEnd]);
}

#[test]
fn identifier_lists_on_success() {
    let result = compile(
        vec![
            tok(TokenKind::Port, "$"),
            tok(TokenKind::Identifier, "i"),
            tok(TokenKind::Charge, ">"),
            tok(TokenKind::Identifier, "a"),
            tok(TokenKind::Semicolon, ";"),
            tok(TokenKind::Identifier, "a"),
            tok(TokenKind::Block, "."),
            tok(TokenKind::Port, "$"),
            tok(TokenKind::Identifier, "o"),
            tok(TokenKind::Semicolon, ";"),
        ],
        vec![],
        true,
        true,
    );
    assert!(result.success);
    assert!(result.module.is_some());
    assert_eq!(result.input_ids, Some(vec!["i".to_owned()]));
    assert_eq!(result.output_ids, Some(vec!["o".to_owned()]));
}

#[test]
fn identifier_lists_only_when_requested() {
    let result = compile(
        vec![
            tok(TokenKind::Identifier, "a"),
            tok(TokenKind::Charge, ">"),
            tok(TokenKind::Identifier, "b"),
        ],
        vec![],
        false,
        false,
    );
    assert!(result.success);
    assert!(result.module.is_some());
    assert!(result.input_ids.is_none());
    assert!(result.output_ids.is_none());
}

#[test]
fn space_after_port_is_rejected_by_parser() {
    let (connections, errors) = parse(
        vec![
            tok_at(TokenKind::Port, "$", 0, 0),
            tok_at(TokenKind::Space, " ", 0, 1),
            tok_at(TokenKind::Identifier, "a", 0, 2),
            tok_at(TokenKind::Charge, ">", 0, 3),
            tok_at(TokenKind::Identifier, "b", 0, 4),
        ],
        false,
    );
    assert_eq!(errors, vec![ParserError::UnexpectedToken(SourcePosition::new(0, 1))]);
    assert_eq!(connections, vec![]);
}

#[test]
fn space_insertion_is_invisible_elsewhere() {
    let bare = normalized(vec![
        tok(TokenKind::Identifier, "a"),
        tok(TokenKind::Charge, ">"),
        tok(TokenKind::Identifier, "b"),
    ]);
    let spaced = normalized(vec![
        tok(TokenKind::Space, " "),
        tok(TokenKind::Identifier, "a"),
        tok(TokenKind::Space, " "),
        tok(TokenKind::Charge, ">"),
        tok(TokenKind::Space, " "),
        tok(TokenKind::Identifier, "b"),
        tok(TokenKind::Space, " "),
    ]);
    assert_eq!(bare, spaced);
}
