use tampio::chars::chars_of;
use tampio::date::Date;
use tampio::error::{ErrorKind, LedgerError};
use tampio::lexer::{apply_indent, bracket_step, parse_decimal, Lexer, ScanStep};
use tampio::token::Token;

#[test]
fn string() {
    let mut lexer = Lexer::new(r#"'"' »abc»"#);
    let _ = lexer.next_token();
    assert_eq!(lexer.next_token(), Ok(Token::String("\"".into())));
    assert_eq!(lexer.next_token(), Ok(Token::String("abc".into())));
}

#[test]
fn comment() {
    let mut lexer = Lexer::new("-- aaa\n- b\n\n  --ö\n\na");
    assert_eq!(lexer.next_token(), Ok(Token::Newline));
    assert_eq!(lexer.next_token(), Ok(Token::Minus));
    assert_eq!(lexer.next_token(), Ok(Token::Identifier("b".into())));
    assert_eq!(lexer.next_token(), Ok(Token::Newline));
    assert_eq!(lexer.next_token(), Ok(Token::Identifier("a".into())));
}

#[test]
fn debit() {
    let mut lexer = Lexer::new("D Dr DR DEBIT DEBET dr.");
    let _ = lexer.next_token();
    assert_eq!(lexer.next_token(), Ok(Token::Debit));
    assert_eq!(lexer.next_token(), Ok(Token::Debit));
    assert_eq!(lexer.next_token(), Ok(Token::Debit));
    assert_eq!(lexer.next_token(), Ok(Token::Debit));
    assert_eq!(lexer.next_token(), Ok(Token::Debit));
    assert_eq!(lexer.next_token(), Ok(Token::Debit));
}

#[test]
fn credit() {
    let mut lexer = Lexer::new("C Cr CR CREDIT KREDIT cr.");
    let _ = lexer.next_token();
    assert_eq!(lexer.next_token(), Ok(Token::Credit));
    assert_eq!(lexer.next_token(), Ok(Token::Credit));
    assert_eq!(lexer.next_token(), Ok(Token::Credit));
    assert_eq!(lexer.next_token(), Ok(Token::Credit));
    assert_eq!(lexer.next_token(), Ok(Token::Credit));
    assert_eq!(lexer.next_token(), Ok(Token::Credit));
}

fn lex(source: &str) -> Vec<Token> {
    Lexer::new(source).tokens().unwrap()
}

#[test]
fn decimal_literals_are_minor_units() {
    assert_eq!(
        lex("12.5 7 0,01 12.345 12 0.5 3,"),
        vec![
            Token::Newline,
            Token::Number(1250),
            Token::Number(700),
            Token::Number(1),
            Token::Number(1234),
            Token::Number(1200),
            Token::Number(50),
            Token::Number(300),
            Token::EOF,
        ]
    );
}

#[test]
fn parse_decimal_exact_values() {
    assert_eq!(parse_decimal(&chars_of("12.5")), Ok(Some(Token::Number(1250))));
    assert_eq!(parse_decimal(&chars_of("7")), Ok(Some(Token::Number(700))));
    assert_eq!(parse_decimal(&chars_of("0,01")), Ok(Some(Token::Number(1))));
    assert_eq!(parse_decimal(&chars_of("0007,10")), Ok(Some(Token::Number(710))));
    assert_eq!(parse_decimal(&chars_of("21474836.47")), Ok(Some(Token::Number(2147483647))));
    assert_eq!(parse_decimal(&chars_of("x")), Ok(None));
    assert_eq!(parse_decimal(&chars_of("")), Ok(None));
    assert_eq!(parse_decimal(&chars_of("1.2x")), Ok(None));
}

#[test]
fn numbers_out_of_range_are_rejected() {
    let mut lexer = Lexer::new("21474836.48");
    assert_eq!(lexer.next_token(), Err(LedgerError::NumberOutOfRange));
    // The lexer stays where it was.
    assert_eq!(lexer.next_token(), Err(LedgerError::NumberOutOfRange));
    assert_eq!(Lexer::new("a\n99999999999999999999").tokens(), Err(LedgerError::NumberOutOfRange));
    assert_eq!(LedgerError::NumberOutOfRange.kind(), ErrorKind::Lexical);
}

#[test]
fn dates_and_runs_that_are_neither() {
    assert_eq!(
        lex("10.1.24 1.2. 29.2.2024 31.2.2024 1.2.3.4 1,2,3 1.2,3 100.1.2024 1.1.20245"),
        vec![
            Token::Newline,
            Token::Date(Date { year: 24, month: 1, day: 10 }),
            Token::Date(Date { year: 0, month: 2, day: 1 }),
            Token::Date(Date { year: 2024, month: 2, day: 29 }),
            Token::EOF,
        ]
    );
}

#[test]
fn indentation_becomes_structure() {
    assert_eq!(
        lex("a\n  b\n    c\n  d\ne\n"),
        vec![
            Token::Newline,
            Token::Identifier("a".into()),
            Token::Indent,
            Token::Identifier("b".into()),
            Token::Indent,
            Token::Identifier("c".into()),
            Token::Dedent,
            Token::Newline,
            Token::Identifier("d".into()),
            Token::Dedent,
            Token::Identifier("e".into()),
            Token::EOF,
        ]
    );
    // A level between two known ones is kept without a token, and closed at the end.
    assert_eq!(
        lex("  a\n      b\n    c"),
        vec![
            Token::Indent,
            Token::Identifier("a".into()),
            Token::Indent,
            Token::Identifier("b".into()),
            Token::Dedent,
            Token::Identifier("c".into()),
            Token::Dedent,
            Token::Dedent,
            Token::EOF,
        ]
    );
    assert_eq!(
        lex("    a\n  b"),
        vec![
            Token::Indent,
            Token::Identifier("a".into()),
            Token::Dedent,
            Token::Identifier("b".into()),
            Token::EOF,
        ]
    );
}

#[test]
fn closing_tokens_come_again_after_the_end() {
    let mut lexer = Lexer::new("  a");
    assert_eq!(lexer.next_token(), Ok(Token::Indent));
    assert_eq!(lexer.next_token(), Ok(Token::Identifier("a".into())));
    assert_eq!(lexer.next_token(), Ok(Token::Dedent));
    assert_eq!(lexer.next_token(), Ok(Token::EOF));
    assert_eq!(lexer.next_token(), Ok(Token::Dedent));
    assert_eq!(lexer.next_token(), Ok(Token::EOF));
    assert_eq!(lex(""), vec![Token::EOF]);
}

#[test]
fn colons_close_at_the_end_of_the_line() {
    assert_eq!(
        lex("a: b: c\nd"),
        vec![
            Token::Newline,
            Token::Identifier("a".into()),
            Token::Colon,
            Token::Identifier("b".into()),
            Token::Colon,
            Token::Identifier("c".into()),
            Token::ColonBlockEnd,
            Token::ColonBlockEnd,
            Token::Newline,
            Token::Identifier("d".into()),
            Token::EOF,
        ]
    );
    // A comment does not take the closing tokens away.
    assert_eq!(
        lex("a: b -- c"),
        vec![
            Token::Newline,
            Token::Identifier("a".into()),
            Token::Colon,
            Token::Identifier("b".into()),
            Token::ColonBlockEnd,
            Token::EOF,
        ]
    );
}

#[test]
fn signs_brackets_and_unknown_characters() {
    assert_eq!(
        lex("+ - \u{2212} = ; \u{00A7} ( ) [ } \u{300C} \u{300D} ? ! x_1 AUTO auto cr dr"),
        vec![
            Token::Newline,
            Token::Plus,
            Token::Minus,
            Token::Minus,
            Token::Assign,
            Token::Semicolon,
            Token::Section,
            Token::BlockStart('('),
            Token::BlockEnd('('),
            Token::BlockStart('['),
            Token::BlockEnd('{'),
            Token::BlockStart('\u{300C}'),
            Token::BlockEnd('\u{300C}'),
            Token::Identifier("x_1".into()),
            Token::Auto,
            Token::Identifier("auto".into()),
            Token::Identifier("cr".into()),
            Token::Identifier("dr".into()),
            Token::EOF,
        ]
    );
}

#[test]
fn unterminated_string_runs_to_the_end_of_the_line() {
    assert_eq!(
        lex("\"abc d\ne"),
        vec![
            Token::Newline,
            Token::String("abc d".into()),
            Token::Newline,
            Token::Identifier("e".into()),
            Token::EOF,
        ]
    );
}

#[test]
fn normalise_folds_structure() {
    assert_eq!(Token::Newline.normalise(), Token::Semicolon);
    assert_eq!(Token::Colon.normalise(), Token::BlockStart(':'));
    assert_eq!(Token::ColonBlockEnd.normalise(), Token::BlockEnd(':'));
    assert_eq!(Token::Indent.normalise(), Token::BlockStart('\t'));
    assert_eq!(Token::Dedent.normalise(), Token::BlockEnd('\t'));
    assert_eq!(Token::String("a".into()).normalise(), Token::String("a".into()));
    assert_eq!(Token::EOF.normalise(), Token::EOF);
}

#[test]
fn looked_up_brackets_become_structure() {
    assert!(matches!(bracket_step(Some(('(', true)), 4), ScanStep::Emit(Token::BlockStart('('), 4)));
    assert!(matches!(bracket_step(Some(('(', false)), 4), ScanStep::Emit(Token::BlockEnd('('), 4)));
    assert!(matches!(bracket_step(None, 7), ScanStep::Skip(7)));
}

#[test]
fn indentation_steps() {
    let mut stack = vec![];
    let mut out = vec![];
    apply_indent(&mut stack, 0, &mut out);
    assert_eq!((stack.clone(), out.clone()), (vec![], vec![Token::Newline]));
    apply_indent(&mut stack, 2, &mut out);
    apply_indent(&mut stack, 6, &mut out);
    assert_eq!(stack, vec![2, 6]);
    assert_eq!(out, vec![Token::Newline, Token::Indent, Token::Indent]);
    let mut between = vec![];
    apply_indent(&mut stack, 4, &mut between);
    assert_eq!((stack.clone(), between), (vec![2, 4], vec![Token::Dedent]));
    let mut same = vec![];
    apply_indent(&mut stack, 4, &mut same);
    assert_eq!((stack.clone(), same), (vec![2, 4], vec![Token::Newline]));
    let mut back = vec![];
    apply_indent(&mut stack, 2, &mut back);
    assert_eq!((stack.clone(), back), (vec![2], vec![Token::Dedent, Token::Newline]));
    let mut all = vec![];
    apply_indent(&mut stack, 0, &mut all);
    assert_eq!((stack.clone(), all), (vec![], vec![Token::Dedent]));
}

#[test]
fn one_line_is_lexed_against_a_stack() {
    let mut stack = vec![2];
    let line = chars_of("    a: 1 -- x");
    assert_eq!(
        Lexer::tokenize_line(&line, &mut stack),
        Ok(vec![
            Token::Indent,
            Token::Identifier("a".into()),
            Token::Colon,
            Token::Number(100),
            Token::ColonBlockEnd,
        ])
    );
    assert_eq!(stack, vec![2, 4]);
    assert_eq!(Lexer::tokenize_line(&chars_of("   -- x"), &mut stack), Ok(vec![]));
    assert_eq!(
        Lexer::tokenize_line(&chars_of("99999999999"), &mut stack),
        Err(LedgerError::NumberOutOfRange)
    );
    assert_eq!(stack, vec![2, 4]);
}
