use tampio::date::Date;
use tampio::error::{ErrorKind, LedgerError};
use tampio::parser::{parse_source, Node};
use tampio::semantic::{
    section_of_name, section_of_upper, AccountType, EntryType, SAccount, SAuto, SEntry, SExpression,
    SHeader, SStatement, SectionType, Semantic,
};
use tampio::token::Token;

fn analyse(source: &str) -> Result<Vec<SStatement>, LedgerError> {
    Semantic::from_parse_tree(parse_source(source).unwrap()).map(|s| s.statements)
}

#[test]
fn aliases_definitions_and_sections() {
    assert_eq!(
        analyse("pankki = 1000\nnimi = \"Yhdistys\"\n\u{00A7} tiedot"),
        Ok(vec![
            SStatement::Expression(SExpression::Alias("pankki".into(), 100000)),
            SStatement::Expression(SExpression::Definition("nimi".into(), "Yhdistys".into())),
            SStatement::Section(SectionType::Options),
        ])
    );
    assert_eq!(
        analyse("\u{00A7} Tilikartta\n\u{00A7} BUDJETTI\n\u{00A7} talousarvio\n\u{00A7} muu"),
        Ok(vec![
            SStatement::Section(SectionType::AccountMap),
            SStatement::Section(SectionType::Budget),
            SStatement::Section(SectionType::Budget),
            SStatement::Section(SectionType::Ledger),
        ])
    );
}

#[test]
fn last_section_is_kept() {
    let semantic = Semantic::from_parse_tree(parse_source("\u{00A7} TIEDOT").unwrap()).unwrap();
    assert_eq!(semantic.section, SectionType::Options);
}

#[test]
fn transactions_with_and_without_date_and_document() {
    let date = Date { year: 2024, month: 1, day: 10 };
    let entries = || {
        vec![
            SEntry { account: SAccount::N(100000), amounts: vec![SAuto::Val(50000)] },
            SEntry { account: SAccount::Alias("tulot".into()), amounts: vec![SAuto::Val(-50000)] },
        ]
    };
    let body = "{ 1000 { D 500 } tulot { C 500 } }";
    assert_eq!(
        analyse(&format!("10.1.2024 \"Myynti\" {body}")),
        Ok(vec![SStatement::Transaction {
            date: Some(date),
            description: "Myynti".into(),
            entries: entries(),
            doc: None,
        }])
    );
    assert_eq!(
        analyse(&format!("t1 10.1.2024 \"Myynti\" {body}")),
        Ok(vec![SStatement::Transaction {
            date: Some(date),
            description: "Myynti".into(),
            entries: entries(),
            doc: Some("t1".into()),
        }])
    );
    assert_eq!(
        analyse(&format!("10.1.2024 \"Myynti\" t1 {body}")),
        Ok(vec![SStatement::Transaction {
            date: Some(date),
            description: "Myynti".into(),
            entries: entries(),
            doc: Some("t1".into()),
        }])
    );
    assert_eq!(
        analyse(&format!("\"Myynti\" {body}")),
        Ok(vec![SStatement::Transaction {
            date: None,
            description: "Myynti".into(),
            entries: entries(),
            doc: None,
        }])
    );
    assert_eq!(
        analyse(&format!("\"Myynti\" t1 {body}")),
        Ok(vec![SStatement::Transaction {
            date: None,
            description: "Myynti".into(),
            entries: entries(),
            doc: Some("t1".into()),
        }])
    );
}

#[test]
fn amounts_in_all_forms() {
    assert_eq!(
        analyse("\"x\" { 1000 { 1 ; D 2 ; 3 D ; - 4 ; C 5 ; 6 C ; AUTO } }"),
        Ok(vec![SStatement::Transaction {
            date: None,
            description: "x".into(),
            entries: vec![SEntry {
                account: SAccount::N(100000),
                amounts: vec![
                    SAuto::Val(100),
                    SAuto::Val(200),
                    SAuto::Val(300),
                    SAuto::Val(-400),
                    SAuto::Val(-500),
                    SAuto::Val(-600),
                    SAuto::Auto,
                ],
            }],
            doc: None,
        }])
    );
}

#[test]
fn entries_written_as_lists() {
    assert_eq!(
        analyse("\"x\" { 1000 D 500 ; pankki AUTO }"),
        Ok(vec![SStatement::Transaction {
            date: None,
            description: "x".into(),
            entries: vec![
                SEntry { account: SAccount::N(100000), amounts: vec![SAuto::Val(50000)] },
                SEntry { account: SAccount::Alias("pankki".into()), amounts: vec![SAuto::Auto] },
            ],
            doc: None,
        }])
    );
}

#[test]
fn scope_blocks() {
    let date = Date { year: 2024, month: 3, day: 1 };
    assert_eq!(
        analyse("1.3.2024 { } AUTO 2000 { } AUTO pankki { } { }"),
        Ok(vec![
            SStatement::Block(SHeader::Date { date }, vec![]),
            SStatement::Block(SHeader::AutoBalance { account: SAccount::N(200000) }, vec![]),
            SStatement::Block(
                SHeader::AutoBalance { account: SAccount::Alias("pankki".into()) },
                vec![]
            ),
            SStatement::Block(SHeader::Dummy, vec![]),
        ])
    );
}

#[test]
fn account_declarations() {
    assert_eq!(
        analyse("\u{00A7} TILIKARTTA\n+ \"Vastaavaa\"\n  1000 \"Pankki\"\n\"Tulot\"\n  3000 \"Myynti\"\n    3010 \"Kahvi\"\n4000 \"Kulut\""),
        Ok(vec![
            SStatement::Section(SectionType::AccountMap),
            SStatement::Account(
                None,
                "Vastaavaa".into(),
                vec![SStatement::Account(
                    Some(1000),
                    "Pankki".into(),
                    vec![],
                    AccountType::IncomeStatement
                )],
                AccountType::Assets
            ),
            SStatement::Account(
                None,
                "Tulot".into(),
                vec![SStatement::Account(
                    Some(3000),
                    "Myynti".into(),
                    vec![SStatement::Account(
                        Some(3010),
                        "Kahvi".into(),
                        vec![],
                        AccountType::IncomeStatement
                    )],
                    AccountType::IncomeStatement
                )],
                AccountType::IncomeStatement
            ),
            SStatement::Account(Some(4000), "Kulut".into(), vec![], AccountType::IncomeStatement),
        ])
    );
}

#[test]
fn budget_rows() {
    assert_eq!(
        analyse("3000 { 100 ; - 50 ; D 20 ; 30 D ; C 40 ; 60 C }\nmyynti { 1 }"),
        Ok(vec![
            SStatement::BudgetEntry {
                account: SAccount::N(300000),
                amounts: vec![
                    (10000, EntryType::Unmarked),
                    (-5000, EntryType::Unmarked),
                    (2000, EntryType::Debit),
                    (3000, EntryType::Debit),
                    (4000, EntryType::Credit),
                    (6000, EntryType::Credit),
                ],
            },
            SStatement::BudgetEntry {
                account: SAccount::Alias("myynti".into()),
                amounts: vec![(100, EntryType::Unmarked)],
            },
        ])
    );
}

#[test]
fn every_semantic_error() {
    assert_eq!(analyse("a b c"), Err(LedgerError::MalformedStatement));
    assert_eq!(analyse("+ + { }"), Err(LedgerError::UnknownHeader));
    assert_eq!(analyse("AUTO { }"), Err(LedgerError::InvalidAutoBalance));
    assert_eq!(analyse("AUTO 1 2 { }"), Err(LedgerError::InvalidAutoBalance));
    assert_eq!(analyse("3000 { x }"), Err(LedgerError::InvalidBudgetAmount));
    assert_eq!(analyse("3000 { 1 { } }"), Err(LedgerError::UnexpectedBlock));
    assert_eq!(analyse("\"x\" { + { 1 } }"), Err(LedgerError::InvalidAccount));
    assert_eq!(analyse("\"x\" { 1000 }"), Err(LedgerError::ExpectedBlock));
    assert_eq!(analyse("\"x\" { 1000 { x } }"), Err(LedgerError::InvalidAmount));
    assert_eq!(analyse("\"x\" { 1000 { 1 { } } }"), Err(LedgerError::ExpectedList));
    assert_eq!(LedgerError::UnknownHeader.kind(), ErrorKind::Semantic);
}

#[test]
fn negating_the_least_amount_is_an_error() {
    let tree = vec![Node::Block(
        vec![Token::String("x".into())],
        vec![Node::Block(
            vec![Token::Number(100000)],
            vec![Node::List(vec![Token::Minus, Token::Number(i32::MIN)])],
        )],
    )];
    assert_eq!(
        Semantic::from_parse_tree(tree).map(|s| s.statements),
        Err(LedgerError::AmountOverflow)
    );
}

#[test]
fn header_of_transaction_is_an_account_in_the_account_map() {
    assert_eq!(
        analyse("\u{00A7} TILIKARTTA\n\"Tulot\" { 3000 \"Myynti\" }"),
        Ok(vec![
            SStatement::Section(SectionType::AccountMap),
            SStatement::Account(
                None,
                "Tulot".into(),
                vec![SStatement::Account(
                    Some(3000),
                    "Myynti".into(),
                    vec![],
                    AccountType::IncomeStatement
                )],
                AccountType::IncomeStatement
            ),
        ])
    );
}

#[test]
fn transaction_headers_in_any_order() {
    let date = Date { year: 2024, month: 1, day: 10 };
    let with = |date: Option<Date>, doc: Option<&str>| {
        Ok(vec![SStatement::Transaction {
            date,
            description: "Pankki".into(),
            entries: vec![],
            doc: doc.map(|d| d.to_string()),
        }])
    };
    assert_eq!(analyse("\"Pankki\" 10.1.2024 { }"), with(Some(date), None));
    assert_eq!(analyse("10.1.2024 \"Pankki\" { }"), with(Some(date), None));
    for header in [
        "t1 10.1.2024 \"Pankki\"",
        "t1 \"Pankki\" 10.1.2024",
        "10.1.2024 t1 \"Pankki\"",
        "10.1.2024 \"Pankki\" t1",
        "\"Pankki\" t1 10.1.2024",
        "\"Pankki\" 10.1.2024 t1",
    ] {
        assert_eq!(analyse(&format!("{header} {{ }}")), with(Some(date), Some("t1")));
    }
    assert_eq!(analyse("t1 \"Pankki\" { }"), with(None, Some("t1")));
    assert_eq!(analyse("\"Pankki\" t1 { }"), with(None, Some("t1")));
    let tree = vec![Node::Block(
        vec![Token::String("Pankki".into()), Token::Date(date)],
        vec![],
    )];
    assert_eq!(Semantic::from_parse_tree(tree).map(|s| s.statements), with(Some(date), None));
    assert_eq!(analyse("10.1.2024 t1 { }"), Err(LedgerError::UnknownHeader));
    assert_eq!(analyse("10.1.2024 \"a\" \"b\" { }"), Err(LedgerError::UnknownHeader));
    assert_eq!(analyse("10.1.2024 11.1.2024 \"a\" { }"), Err(LedgerError::UnknownHeader));
}

#[test]
fn sections_by_name() {
    assert_eq!(section_of_upper("TILIKARTTA"), SectionType::AccountMap);
    assert_eq!(section_of_upper("TIEDOT"), SectionType::Options);
    assert_eq!(section_of_upper("TALOUSARVIO"), SectionType::Budget);
    assert_eq!(section_of_upper("BUDJETTI"), SectionType::Budget);
    assert_eq!(section_of_upper("tiedot"), SectionType::Ledger);
    assert_eq!(section_of_upper(""), SectionType::Ledger);
    assert_eq!(section_of_name("tiedot"), SectionType::Options);
    assert_eq!(section_of_name("Budjetti"), SectionType::Budget);
    assert_eq!(section_of_name("kirjanpito"), SectionType::Ledger);
}
