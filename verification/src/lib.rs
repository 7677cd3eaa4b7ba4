//! A plain-text double-entry bookkeeping language: lexer, tree parser,
//! semantic analyser and ledger executor, with an HTML element builder.

pub mod account;
pub mod chars;
pub mod chart;
pub mod date;
pub mod entries;
pub mod error;
pub mod html;
pub mod journal;
pub mod ledger;
pub mod lexer;
pub mod parser;
pub mod scope;
pub mod semantic;
pub mod token;
