//! The lexical atoms of the ledger language.

use vstd::prelude::*;
use crate::date::Date;

verus! {

/// A lexical atom. Amounts are in minor units: the number `12` is `1200`.
#[derive(Debug, PartialEq, Eq)]
pub enum Token {
    Date(Date),
    String(String),
    Number(i32),
    Minus,
    Plus,
    Debit,
    Credit,
    Assign,
    Colon,
    ColonBlockEnd,
    Semicolon,
    Newline,
    Identifier(String),
    BlockStart(char),
    BlockEnd(char),
    Indent,
    Dedent,
    Auto,
    Section,
    EOF,
}

/// A token as a mathematical value: texts are sequences of characters.
pub enum TokenView {
    Date(Date),
    String(Seq<char>),
    Number(i32),
    Minus,
    Plus,
    Debit,
    Credit,
    Assign,
    Colon,
    ColonBlockEnd,
    Semicolon,
    Newline,
    Identifier(Seq<char>),
    BlockStart(char),
    BlockEnd(char),
    Indent,
    Dedent,
    Auto,
    Section,
    EOF,
}

impl View for Token {
    type V = TokenView;

    open spec fn view(&self) -> TokenView {
        match self {
            Token::Date(d) => TokenView::Date(*d),
            Token::String(s) => TokenView::String(s@),
            Token::Number(n) => TokenView::Number(*n),
            Token::Minus => TokenView::Minus,
            Token::Plus => TokenView::Plus,
            Token::Debit => TokenView::Debit,
            Token::Credit => TokenView::Credit,
            Token::Assign => TokenView::Assign,
            Token::Colon => TokenView::Colon,
            Token::ColonBlockEnd => TokenView::ColonBlockEnd,
            Token::Semicolon => TokenView::Semicolon,
            Token::Newline => TokenView::Newline,
            Token::Identifier(s) => TokenView::Identifier(s@),
            Token::BlockStart(c) => TokenView::BlockStart(*c),
            Token::BlockEnd(c) => TokenView::BlockEnd(*c),
            Token::Indent => TokenView::Indent,
            Token::Dedent => TokenView::Dedent,
            Token::Auto => TokenView::Auto,
            Token::Section => TokenView::Section,
            Token::EOF => TokenView::EOF,
        }
    }
}

impl TokenView {
    /// Folds the tokens that come from line structure and colons onto the
    /// three structural tokens: block start, block end and separator.
    pub open spec fn normalise(self) -> TokenView {
        match self {
            TokenView::Newline => TokenView::Semicolon,
            TokenView::Colon => TokenView::BlockStart(':'),
            TokenView::ColonBlockEnd => TokenView::BlockEnd(':'),
            TokenView::Indent => TokenView::BlockStart('\t'),
            TokenView::Dedent => TokenView::BlockEnd('\t'),
            t => t,
        }
    }
}

/// The views of a sequence of tokens.
pub open spec fn tokens_view(s: Seq<Token>) -> Seq<TokenView> {
    Seq::new(s.len(), |i: int| s[i]@)
}

/// The views of a sequence of tokens with one more token.
pub proof fn lemma_tokens_view_push(s: Seq<Token>, t: Token)
    ensures
        tokens_view(s.push(t)) == tokens_view(s).push(t@),
{
    assert(tokens_view(s.push(t)) =~= tokens_view(s).push(t@));
}

impl Clone for Token {
    fn clone(&self) -> (r: Token)
        ensures
            r@ == self@,
    {
        match self {
            Token::Date(d) => Token::Date(*d),
            Token::String(s) => Token::String(s.clone()),
            Token::Number(n) => Token::Number(*n),
            Token::Minus => Token::Minus,
            Token::Plus => Token::Plus,
            Token::Debit => Token::Debit,
            Token::Credit => Token::Credit,
            Token::Assign => Token::Assign,
            Token::Colon => Token::Colon,
            Token::ColonBlockEnd => Token::ColonBlockEnd,
            Token::Semicolon => Token::Semicolon,
            Token::Newline => Token::Newline,
            Token::Identifier(s) => Token::Identifier(s.clone()),
            Token::BlockStart(c) => Token::BlockStart(*c),
            Token::BlockEnd(c) => Token::BlockEnd(*c),
            Token::Indent => Token::Indent,
            Token::Dedent => Token::Dedent,
            Token::Auto => Token::Auto,
            Token::Section => Token::Section,
            Token::EOF => Token::EOF,
        }
    }
}

impl Token {
    /// Folds the tokens that come from line structure and colons onto the
    /// three structural tokens: block start, block end and separator.
    pub fn normalise(&self) -> (r: Token)
        ensures
            r@ == self@.normalise(),
    {
        match self {
            Token::Newline => Token::Semicolon,
            Token::Colon => Token::BlockStart(':'),
            Token::ColonBlockEnd => Token::BlockEnd(':'),
            Token::Indent => Token::BlockStart('\t'),
            Token::Dedent => Token::BlockEnd('\t'),
            t => t.clone(),
        }
    }
}

} // verus!
