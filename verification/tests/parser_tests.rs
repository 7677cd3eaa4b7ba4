use tampio::error::LedgerError;
use tampio::lexer::Lexer;
use tampio::parser::{parse_source, parse_stream, parse_tokens, Node, Parser};
use tampio::token::Token;

fn ident(s: &str) -> Token {
    Token::Identifier(s.into())
}

#[test]
fn blocks_and_lists() {
    let tree = parse_source("a { b ; c d } e").unwrap();
    assert_eq!(
        tree,
        vec![
            Node::Block(
                vec![ident("a")],
                vec![Node::List(vec![ident("b")]), Node::List(vec![ident("c"), ident("d")])]
            ),
            Node::List(vec![ident("e")]),
        ]
    );
}

#[test]
fn indentation_and_colons_build_the_same_tree() {
    let by_indent = parse_source("a\n  b\n  c\nd").unwrap();
    let by_brackets = parse_source("a ( b ; c ) d").unwrap();
    assert_eq!(by_indent, by_brackets);
    let by_colon = parse_source("a: b\nd").unwrap();
    assert_eq!(
        by_colon,
        vec![
            Node::Block(vec![ident("a")], vec![Node::List(vec![ident("b")])]),
            Node::List(vec![ident("d")]),
        ]
    );
}

#[test]
fn nested_blocks() {
    let tree = parse_source("a { b { c } }").unwrap();
    assert_eq!(
        tree,
        vec![Node::Block(
            vec![ident("a")],
            vec![Node::Block(vec![ident("b")], vec![Node::List(vec![ident("c")])])]
        )]
    );
}

#[test]
fn block_end_without_start_is_an_error() {
    assert_eq!(parse_source("a }"), Err(LedgerError::UnmatchedBlockEnd));
    assert_eq!(parse_source("  a\n      b\n    c"), Err(LedgerError::UnmatchedBlockEnd));
}

#[test]
fn open_blocks_are_dropped_at_the_end() {
    assert_eq!(parse_source("x { a"), Ok(vec![Node::List(vec![ident("a")])]));
    assert_eq!(parse_source(""), Ok(vec![]));
}

#[test]
fn parser_reads_once() {
    let mut parser = Parser::new("a");
    assert_eq!(parser.parse(), Ok(vec![Node::List(vec![ident("a")])]));
    assert_eq!(parser.parse(), Ok(vec![]));
}

#[test]
fn lexical_errors_pass_through() {
    assert_eq!(parse_source("a\n99999999999"), Err(LedgerError::NumberOutOfRange));
}

#[test]
fn push_child_adds_at_the_end() {
    let mut block = Node::Block(vec![], vec![]);
    block.push_child(Node::List(vec![ident("a")]));
    block.push_child(Node::List(vec![ident("b")]));
    assert_eq!(
        block,
        Node::Block(vec![], vec![Node::List(vec![ident("a")]), Node::List(vec![ident("b")])])
    );
}

#[test]
fn the_first_error_in_the_stream_is_reported() {
    assert_eq!(parse_source("a }\n99999999999"), Err(LedgerError::UnmatchedBlockEnd));
    assert_eq!(parse_source("99999999999\na }"), Err(LedgerError::NumberOutOfRange));
    let (tokens, error) = Lexer::new("a { b\n99999999999").scan();
    assert_eq!(
        tokens,
        vec![Token::Newline, ident("a"), Token::BlockStart('{'), ident("b")]
    );
    assert_eq!(error, Some(LedgerError::NumberOutOfRange));
    assert_eq!(parse_stream(&tokens, error), Err(LedgerError::NumberOutOfRange));
}

#[test]
fn trees_are_built_from_tokens() {
    let tokens = vec![
        ident("a"),
        Token::Indent,
        ident("b"),
        Token::Colon,
        ident("c"),
        Token::ColonBlockEnd,
        Token::Dedent,
        Token::EOF,
        ident("ignored"),
    ];
    assert_eq!(
        parse_tokens(&tokens),
        Ok(vec![Node::Block(
            vec![ident("a")],
            vec![Node::Block(vec![ident("b")], vec![Node::List(vec![ident("c")])])]
        )])
    );
    // Without an end marker the finished nodes are returned.
    assert_eq!(parse_tokens(&vec![ident("a"), Token::Semicolon, ident("b")]), Ok(vec![Node::List(vec![ident("a")])]));
}
