//! Tests of the statement parser: batching, chaining, recovery, identifier
//! kinds and the IO-minimum rule.

use compile::lex::SourcePosition;
use compile::lex::Token;
use compile::lex::TokenKind;
use compile::parse::ParserError;
use compile::parse::parse;
use compile::translate::Connection;
use compile::translate::IdentKind;
use compile::translate::Identifier;

fn tok(kind: TokenKind, text: &str) -> Token {
    Token::new(kind, text.to_string(), SourcePosition::new(0, 0))
}

fn tok_at(kind: TokenKind, text: &str, line: usize, column: usize) -> Token {
    Token::new(kind, text.to_string(), SourcePosition::new(line, column))
}

fn conn(from: &str, fk: IdentKind, to: &str, tk: IdentKind, is_charge: bool) -> Connection {
    Connection::new(
        Identifier::new(from.to_string(), fk),
        Identifier::new(to.to_string(), tk),
        is_charge,
    )
}

fn charge(from: &str, to: &str) -> Connection {
    conn(from, IdentKind::Node, to, IdentKind::Node, true)
}

fn block(from: &str, to: &str) -> Connection {
    conn(from, IdentKind::Node, to, IdentKind::Node, false)
}

fn parser_test_case(tokens: Vec<Token>, connections: Vec<Connection>) {
    let pr = parse(tokens, false);
    assert_eq!(pr.1, vec![]);
    assert_eq!(pr.0, connections);
}

fn parse_error_test_case(tokens: Vec<Token>, errors: Vec<ParserError>) {
    let generated_errors = parse(tokens, false).1;
    assert_eq!(generated_errors, errors);
}

fn parse_test_case_force_output(tokens: Vec<Token>, connections: Vec<Connection>) {
    let generated = parse(tokens, false).0;
    assert_eq!(generated, connections);
}

fn parse_error_test_case_io_min(tokens: Vec<Token>, errors: Vec<ParserError>) {
    let generated_errors = parse(tokens, true).1;
    assert_eq!(generated_errors, errors);
}

#[test]
fn empty() {
    parser_test_case(vec![], vec![])
}

#[test]
fn parse_no_tokens() {
    parser_test_case(vec![], vec![])
}

#[test]
fn parse_ignores_spaces() {
    parser_test_case(
        vec![
            tok_at(TokenKind::Space, "   ", 0, 0),
            tok_at(TokenKind::EndLine, "\n", 0, 3),
            tok_at(TokenKind::Space, "    ", 1, 0),
        ],
        vec![],
    )
}

#[test]
fn parse_single_charge() {
    parser_test_case(
        vec![
            tok_at(TokenKind::Identifier, "a", 0, 0),
            tok_at(TokenKind::Charge, ">", 0, 1),
            tok_at(TokenKind::Identifier, "b", 0, 2),
        ],
        vec![charge("a", "b")],
    )
}

#[test]
fn parse_single_charge_with_space() {
    parser_test_case(
        vec![
            tok_at(TokenKind::Space, "    ", 0, 0),
            tok_at(TokenKind::Identifier, "a", 0, 4),
            tok_at(TokenKind::Space, "   ", 0, 5),
            tok_at(TokenKind::Charge, ">", 0, 8),
            tok_at(TokenKind::Space, "  ", 0, 9),
            tok_at(TokenKind::Identifier, "b", 0, 11),
            tok_at(TokenKind::Space, " ", 0, 12),
        ],
        vec![charge("a", "b")],
    )
}

#[test]
fn parse_single_charge_same_node() {
    parser_test_case(
        vec![
            tok_at(TokenKind::Space, "    ", 0, 0),
            tok_at(TokenKind::Identifier, "a", 0, 4),
            tok_at(TokenKind::Space, "   ", 0, 5),
            tok_at(TokenKind::Charge, ">", 0, 8),
            tok_at(TokenKind::Space, "  ", 0, 9),
            tok_at(TokenKind::Identifier, "a", 0, 11),
            tok_at(TokenKind::Space, " ", 0, 12),
        ],
        vec![charge("a", "a")],
    )
}

#[test]
fn parse_chained_statements() {
    parser_test_case(
        vec![
            tok_at(TokenKind::Identifier, "a", 0, 0),
            tok_at(TokenKind::Space, "   ", 0, 1),
            tok_at(TokenKind::Block, ".", 0, 4),
            tok_at(TokenKind::Space, "  ", 0, 5),
            tok_at(TokenKind::Identifier, "b", 0, 7),
            tok_at(TokenKind::Charge, ">", 0, 8),
            tok_at(TokenKind::Identifier, "c", 0, 9),
        ],
        vec![block("a", "b"), charge("b", "c")],
    )
}

#[test]
fn parse_chained_statements_reoccurring_idents() {
    parser_test_case(
        vec![
            tok_at(TokenKind::Identifier, "a", 0, 0),
            tok_at(TokenKind::Space, "   ", 0, 1),
            tok_at(TokenKind::Block, ".", 0, 4),
            tok_at(TokenKind::Space, "  ", 0, 5),
            tok_at(TokenKind::Identifier, "b", 0, 7),
            tok_at(TokenKind::Charge, ">", 0, 8),
            tok_at(TokenKind::Identifier, "a", 0, 9),
        ],
        vec![block("a", "b"), charge("b", "a")],
    )
}

#[test]
fn semicolon_statement_seperation() {
    parser_test_case(
        vec![
            tok_at(TokenKind::Identifier, "a", 0, 0),
            tok_at(TokenKind::Space, "   ", 0, 1),
            tok_at(TokenKind::Block, ".", 0, 4),
            tok_at(TokenKind::Space, "  ", 0, 5),
            tok_at(TokenKind::Identifier, "b", 0, 7),
            tok_at(TokenKind::Charge, ">", 0, 8),
            tok_at(TokenKind::Identifier, "c", 0, 9),
            tok_at(TokenKind::Semicolon, ";", 0, 10),
            tok_at(TokenKind::Space, " ", 0, 11),
            tok_at(TokenKind::Identifier, "a", 0, 12),
            tok_at(TokenKind::Charge, ">", 0, 13),
            tok_at(TokenKind::Identifier, "d", 0, 14),
            tok_at(TokenKind::Semicolon, ";", 0, 15),
        ],
        vec![block("a", "b"), charge("b", "c"), charge("a", "d")],
    )
}

#[test]
fn parse_passes_on_sequential_identifiers() {
    parse_test_case_force_output(
        vec![
            tok_at(TokenKind::Identifier, "a", 0, 0),
            tok_at(TokenKind::Space, "   ", 0, 1),
            tok_at(TokenKind::Block, ".", 0, 4),
            tok_at(TokenKind::Space, "  ", 0, 5),
            tok_at(TokenKind::Identifier, "b", 0, 7),
            tok_at(TokenKind::Semicolon, ";", 0, 8),
            tok_at(TokenKind::Identifier, "c", 0, 9),
            tok_at(TokenKind::Space, "  ", 0, 10),
            tok_at(TokenKind::Identifier, "a", 0, 12),
            tok_at(TokenKind::Semicolon, ";", 0, 13),
            tok_at(TokenKind::Identifier, "a", 0, 14),
            tok_at(TokenKind::Charge, ">", 0, 15),
            tok_at(TokenKind::Identifier, "a", 0, 16),
        ],
        vec![block("a", "b"), charge("a", "a")],
    )
}

#[test]
fn parse_error_on_sequential_identifiers() {
    parse_error_test_case(
        vec![
            tok_at(TokenKind::Identifier, "a", 0, 0),
            tok_at(TokenKind::Space, "   ", 0, 1),
            tok_at(TokenKind::Block, ".", 0, 4),
            tok_at(TokenKind::Space, "  ", 0, 5),
            tok_at(TokenKind::Identifier, "b", 0, 7),
            tok_at(TokenKind::Semicolon, ";", 0, 8),
            tok_at(TokenKind::Identifier, "c", 0, 9),
            tok_at(TokenKind::Space, "  ", 0, 10),
            tok_at(TokenKind::Identifier, "a", 0, 12),
            tok_at(TokenKind::Semicolon, ";", 0, 13),
            tok_at(TokenKind::Identifier, "a", 0, 14),
            tok_at(TokenKind::Charge, ">", 0, 15),
            tok_at(TokenKind::Identifier, "a", 0, 16),
        ],
        vec![ParserError::UnexpectedToken(SourcePosition::new(0, 12))],
    )
}

#[test]
fn parse_ignores_endline_in_statements() {
    parser_test_case(
        vec![
            tok_at(TokenKind::Identifier, "a", 0, 0),
            tok_at(TokenKind::EndLine, "\n", 0, 1),
            tok_at(TokenKind::Block, ".", 0, 2),
            tok_at(TokenKind::EndLine, "\n", 0, 3),
            tok_at(TokenKind::Identifier, "b", 0, 4),
        ],
        vec![block("a", "b")],
    )
}

#[test]
fn parse_endline_terminates_statement() {
    parser_test_case(
        vec![
            tok_at(TokenKind::Identifier, "a", 0, 0),
            tok_at(TokenKind::EndLine, "\n", 0, 1),
            tok_at(TokenKind::Block, ".", 0, 2),
            tok_at(TokenKind::EndLine, "\n", 0, 3),
            tok_at(TokenKind::Identifier, "b", 0, 4),
            tok_at(TokenKind::EndLine, "\n", 0, 5),
            tok_at(TokenKind::Identifier, "a", 1, 0),
            tok_at(TokenKind::Charge, ">", 1, 1),
            tok_at(TokenKind::Identifier, "c", 1, 2),
        ],
        vec![block("a", "b"), charge("a", "c")],
    )
}

#[test]
fn parse_endline_recovers_after_error() {
    parse_test_case_force_output(
        vec![
            tok_at(TokenKind::Identifier, "a", 0, 0),
            tok_at(TokenKind::Block, ".", 0, 1),
            tok_at(TokenKind::Block, ".", 0, 2),
            tok_at(TokenKind::EndLine, "\n", 0, 3),
            tok_at(TokenKind::Identifier, "a", 1, 0),
            tok_at(TokenKind::Charge, ">", 1, 1),
            tok_at(TokenKind::Identifier, "c", 1, 2),
        ],
        vec![charge("a", "c")],
    )
}

#[test]
fn parse_error_on_unexpected_end() {
    parse_error_test_case(
        vec![tok_at(TokenKind::Identifier, "a", 0, 0), tok_at(TokenKind::Block, ".", 0, 1)],
        vec![ParserError::UnexpectedEnd],
    )
}

#[test]
fn parse_input_ports() {
    parser_test_case(
        vec![
            tok_at(TokenKind::Port, "$", 0, 0),
            tok_at(TokenKind::Identifier, "a", 0, 1),
            tok_at(TokenKind::Charge, ">", 0, 2),
            tok_at(TokenKind::Space, "  ", 0, 3),
            tok_at(TokenKind::Identifier, "b", 0, 5),
        ],
        vec![conn("a", IdentKind::InPort, "b", IdentKind::Node, true)],
    )
}

#[test]
fn parse_error_port_notfollewedby_ident() {
    parse_error_test_case(
        vec![
            tok_at(TokenKind::Port, "$", 0, 0),
            tok_at(TokenKind::Space, " ", 0, 1),
            tok_at(TokenKind::Identifier, "a", 0, 2),
            tok_at(TokenKind::Charge, ">", 0, 3),
            tok_at(TokenKind::Space, "  ", 0, 4),
            tok_at(TokenKind::Identifier, "b", 0, 6),
        ],
        vec![ParserError::UnexpectedToken(SourcePosition::new(0, 1))],
    )
}

#[test]
fn parse_output_ports() {
    parser_test_case(
        vec![
            tok_at(TokenKind::Identifier, "a", 0, 0),
            tok_at(TokenKind::Charge, ">", 0, 1),
            tok_at(TokenKind::Port, "$", 0, 2),
            tok_at(TokenKind::Identifier, "b", 0, 3),
        ],
        vec![conn("a", IdentKind::Node, "b", IdentKind::OutPort, true)],
    )
}

#[test]
fn parse_error_inconsistant_ident_type() {
    parse_error_test_case(
        vec![
            tok_at(TokenKind::Identifier, "a", 0, 0),
            tok_at(TokenKind::Charge, ">", 0, 1),
            tok_at(TokenKind::Port, "$", 0, 2),
            tok_at(TokenKind::Identifier, "b", 0, 3),
            tok_at(TokenKind::Semicolon, ";", 0, 4),
            tok_at(TokenKind::Port, "$", 0, 5),
            tok_at(TokenKind::Identifier, "b", 0, 6),
            tok_at(TokenKind::Charge, ">", 0, 7),
            tok_at(TokenKind::Port, "$", 0, 8),
            tok_at(TokenKind::Identifier, "a", 0, 9),
            tok_at(TokenKind::Semicolon, ";", 0, 10),
            tok_at(TokenKind::Port, "$", 0, 11),
            tok_at(TokenKind::Identifier, "a", 0, 12),
            tok_at(TokenKind::Charge, ">", 0, 13),
            tok_at(TokenKind::Identifier, "c", 0, 14),
        ],
        vec![
            ParserError::InconstIdKind("b".to_owned(), IdentKind::InPort, IdentKind::OutPort),
            ParserError::InconstIdKind("a".to_owned(), IdentKind::OutPort, IdentKind::Node),
            ParserError::InconstIdKind("a".to_owned(), IdentKind::InPort, IdentKind::Node),
        ],
    )
}

#[test]
fn single_connect_node_batching() {
    parser_test_case(
        vec![
            tok(TokenKind::Identifier, "a"),
            tok(TokenKind::Comma, ","),
            tok(TokenKind::Identifier, "b"),
            tok(TokenKind::Comma, ","),
            tok(TokenKind::Identifier, "c"),
            tok(TokenKind::Charge, ">"),
            tok(TokenKind::Identifier, "d"),
        ],
        vec![charge("a", "d"), charge("b", "d"), charge("c", "d")],
    )
}

#[test]
fn multi_connect_node_batching() {
    parser_test_case(
        vec![
            tok(TokenKind::Identifier, "a"),
            tok(TokenKind::Charge, ">"),
            tok(TokenKind::Identifier, "b1"),
            tok(TokenKind::Comma, ","),
            tok(TokenKind::Identifier, "b2"),
            tok(TokenKind::Charge, ">"),
            tok(TokenKind::Identifier, "c1"),
            tok(TokenKind::Comma, ","),
            tok(TokenKind::Identifier, "c2"),
            tok(TokenKind::Block, "."),
            tok(TokenKind::Identifier, "d"),
        ],
        vec![
            charge("a", "b1"),
            charge("a", "b2"),
            charge("b1", "c1"),
            charge("b1", "c2"),
            charge("b2", "c1"),
            charge("b2", "c2"),
            block("c1", "d"),
            block("c2", "d"),
        ],
    )
}

#[test]
fn port_node_batching() {
    parser_test_case(
        vec![
            tok(TokenKind::Port, "$"),
            tok(TokenKind::Identifier, "a"),
            tok(TokenKind::Charge, ">"),
            tok(TokenKind::Identifier, "b"),
            tok(TokenKind::Comma, ","),
            tok(TokenKind::Identifier, "c"),
            tok(TokenKind::Charge, ">"),
            tok(TokenKind::Port, "$"),
            tok(TokenKind::Identifier, "d"),
        ],
        vec![
            conn("a", IdentKind::InPort, "b", IdentKind::Node, true),
            conn("a", IdentKind::InPort, "c", IdentKind::Node, true),
            conn("b", IdentKind::Node, "d", IdentKind::OutPort, true),
            conn("c", IdentKind::Node, "d", IdentKind::OutPort, true),
        ],
    )
}

#[test]
fn error_inconsistant_ident_type_node_batching() {
    parse_error_test_case(
        vec![
            tok(TokenKind::Port, "$"),
            tok(TokenKind::Identifier, "a"),
            tok(TokenKind::Charge, ">"),
            tok(TokenKind::Port, "$"),
            tok(TokenKind::Identifier, "b"),
            tok(TokenKind::Comma, ","),
            tok(TokenKind::Identifier, "c"),
            tok(TokenKind::Charge, ">"),
            tok(TokenKind::Port, "$"),
            tok(TokenKind::Identifier, "d"),
        ],
        vec![ParserError::InconstIdKind("b".to_owned(), IdentKind::InPort, IdentKind::OutPort)],
    )
}

#[test]
fn error_io_min_violated() {
    parse_error_test_case_io_min(
        vec![
            tok(TokenKind::Identifier, "a"),
            tok(TokenKind::Charge, ">"),
            tok(TokenKind::Identifier, "b"),
            tok(TokenKind::EndLine, "\n"),
            tok(TokenKind::Identifier, "a"),
            tok(TokenKind::Charge, ">"),
            tok(TokenKind::Identifier, "c"),
        ],
        vec![ParserError::IOMin],
    )
}

#[test]
fn operater_at_next_line() {
    parser_test_case(
        vec![
            tok(TokenKind::Identifier, "a"),
            tok(TokenKind::Charge, ">"),
            tok(TokenKind::Identifier, "b"),
            tok(TokenKind::Comma, ","),
            tok(TokenKind::Identifier, "c"),
            tok(TokenKind::EndLine, "\n"),
            tok(TokenKind::Charge, ">"),
            tok(TokenKind::Identifier, "d"),
        ],
        vec![charge("a", "b"), charge("a", "c"), charge("b", "d"), charge("c", "d")],
    )
}

#[test]
fn unexpected_token_after_opr() {
    parse_error_test_case(
        vec![
            tok_at(TokenKind::Identifier, "a", 0, 0),
            tok_at(TokenKind::Charge, ">", 0, 1),
            tok_at(TokenKind::Block, ".", 0, 2),
        ],
        vec![ParserError::UnexpectedToken(SourcePosition::new(0, 2))],
    )
}

#[test]
fn unexpected_token_after_port_sign() {
    parse_error_test_case(
        vec![
            tok_at(TokenKind::Port, "$", 0, 0),
            tok_at(TokenKind::Charge, ">", 0, 1),
            tok_at(TokenKind::Block, ".", 0, 2),
        ],
        vec![ParserError::UnexpectedToken(SourcePosition::new(0, 1))],
    )
}

#[test]
fn io_min_violation_wihout_basic_errors() {
    parse_error_test_case_io_min(
        vec![
            tok_at(TokenKind::Identifier, "a", 0, 0),
            tok_at(TokenKind::Charge, ">", 0, 1),
            tok_at(TokenKind::Block, ".", 0, 2),
        ],
        vec![ParserError::UnexpectedToken(SourcePosition::new(0, 2))],
    )
}
