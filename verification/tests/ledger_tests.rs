use tampio::date::Date;
use tampio::entries::resolve_entries;
use tampio::error::{ErrorKind, LedgerError};
use tampio::ledger::{read_statements, Ledger, LedgerType};
use tampio::scope::{Scope, ScopeStack};
use tampio::semantic::{AccountType, EntryType, SAccount, SAuto, SEntry, SStatement};

const CHART: &str = "\u{00A7} TILIKARTTA
+ \"Vastaavaa\"
  1000 \"Pankki\"
  1100 \"Kassa\"
- \"Vastattavaa\"
  2000 \"Oma paaoma\"
\"Tulot\"
  3000 \"Myynti\"
4000 \"Kulut\"
\u{00A7} KIRJANPITO
";

fn ledger(body: &str) -> Result<Ledger, LedgerError> {
    Ledger::from_string(format!("{CHART}{body}"))
}

fn entry(account: i32, amounts: Vec<SAuto<i32>>) -> SEntry {
    SEntry { account: SAccount::N(account * 100), amounts }
}

fn transaction(day: u8, doc: Option<&str>, entries: Vec<SEntry>) -> SStatement {
    SStatement::Transaction {
        date: Some(Date { year: 2024, month: 1, day }),
        description: "t".into(),
        entries,
        doc: doc.map(|d| d.to_string()),
    }
}

fn chart_statements() -> Vec<SStatement> {
    vec![
        SStatement::Account(Some(1000), "Pankki".into(), vec![], AccountType::IncomeStatement),
        SStatement::Account(Some(2000), "Velat".into(), vec![], AccountType::IncomeStatement),
    ]
}

#[test]
fn scenario_balanced_transaction() {
    let l = Ledger::from_string(
        "\u{00A7} TILIKARTTA\n1000 \"Pankki\"\n2000 \"Velat\"\n\u{00A7} KIRJANPITO\n10.1.24 \"Pankki\" { 1000 D 500 ; 2000 C 500 }"
            .to_string(),
    )
    .unwrap();
    let journal = l.ledger();
    assert_eq!(journal.len(), 1);
    assert_eq!(journal[0].date, Date { year: 2024, month: 1, day: 10 });
    assert_eq!(journal[0].description, "Pankki");
    assert_eq!(journal[0].entries, vec![(1000, 50000), (2000, -50000)]);
    assert_eq!(journal[0].entries.iter().map(|e| e.1).sum::<i32>(), 0);
    let bank = l.get_account(1000).unwrap();
    assert_eq!(bank.debits, vec![50000]);
    assert_eq!(bank.credits, vec![0]);
    let debt = l.get_account(2000).unwrap();
    assert_eq!(debt.debits, vec![0]);
    assert_eq!(debt.credits, vec![50000]);
    assert_eq!(journal[0].clone().fmt_date(), "10.1.2024");
}

#[test]
fn scenario_alias_resolves_to_account() {
    let l = ledger("pankki = 1000\n10.1.2024 \"Myynti\" { pankki D 500 ; 3000 C 500 }").unwrap();
    assert_eq!(l.ledger()[0].entries, vec![(1000, 50000), (3000, -50000)]);
    assert_eq!(l.get_account(1000).unwrap().debits, vec![50000]);
}

#[test]
fn scenario_auto_balance_scope_posts_the_rest() {
    let l = ledger("AUTO 2000 { 10.1.2024 \"Osto\" { 1000 D 300 } }").unwrap();
    assert_eq!(l.ledger()[0].entries, vec![(1000, 30000), (2000, -30000)]);
    assert_eq!(l.get_account(2000).unwrap().credits, vec![30000]);
    // An alias names the balancing account as well.
    let m = ledger("oma = 2000\nAUTO oma { 10.1.2024 \"Osto\" { 1000 D 300 } }").unwrap();
    assert_eq!(m.ledger()[0].entries, vec![(1000, 30000), (2000, -30000)]);
}

#[test]
fn auto_entry_takes_the_negated_sum() {
    let l = ledger("10.1.2024 \"Myynti\" { 1000 { D 300 ; D 200 } ; 1100 D 100 ; 3000 AUTO }").unwrap();
    let entries = l.ledger()[0].entries.clone();
    assert_eq!(entries, vec![(1000, 30000), (1000, 20000), (1100, 10000), (3000, -60000)]);
    assert_eq!(entries.iter().map(|e| e.1).sum::<i32>(), 0);
    let scope = Scope::default();
    let resolved = resolve_entries(
        &vec![entry(1000, vec![SAuto::Val(5)]), entry(2000, vec![SAuto::Auto]), entry(1100, vec![SAuto::Val(-2)])],
        &scope,
        false,
    );
    assert_eq!(resolved, Ok(vec![(1000, 5), (2000, -3), (1100, -2)]));
}

#[test]
fn documents_are_numbered() {
    let mut statements = chart_statements();
    let entries = || vec![entry(1000, vec![SAuto::Val(100)]), entry(2000, vec![SAuto::Val(-100)])];
    statements.push(transaction(3, Some("5"), entries()));
    statements.push(transaction(2, None, entries()));
    statements.push(transaction(1, Some("5"), entries()));
    statements.push(transaction(4, Some("k"), entries()));
    statements.push(transaction(5, None, entries()));
    statements.push(transaction(6, Some("5"), entries()));
    let l = Ledger::exec(statements).unwrap();
    let journal = l.ledger();
    let docs: Vec<(u8, &str, i32)> = journal.iter().map(|t| (t.date.day, t.doc.as_str(), t.n)).collect();
    assert_eq!(
        docs,
        vec![(1, "5:2", 0), (2, "0", 1), (3, "5:1", 2), (4, "k", 3), (5, "1", 4), (6, "5:3", 5)]
    );
}

#[test]
fn journal_is_sorted_by_date_and_stable() {
    let l = ledger(
        "3.1.2024 \"c\" { 1000 D 1 ; 3000 C 1 }\n1.1.2024 \"a\" { 1000 D 2 ; 3000 C 2 }\n3.1.2024 \"d\" { 1000 D 3 ; 3000 C 3 }\n2.1.2024 \"b\" { 1000 D 4 ; 3000 C 4 }",
    )
    .unwrap();
    let journal = l.ledger();
    let descriptions: Vec<&str> = journal.iter().map(|t| t.description.as_str()).collect();
    assert_eq!(descriptions, vec!["a", "b", "c", "d"]);
    let numbers: Vec<i32> = journal.iter().map(|t| t.n).collect();
    assert_eq!(numbers, vec![0, 1, 2, 3]);
    let docs: Vec<&str> = journal.iter().map(|t| t.doc.as_str()).collect();
    assert_eq!(docs, vec!["0", "1", "2", "3"]);
}

#[test]
fn recursive_totals_include_sub_accounts() {
    let l = ledger(
        "1.1.2024 \"Myynti\" { 1000 D 100 ; 3000 C 100 }\n2.1.2024 \"Kassa\" { 1100 D 50 ; 3000 C 50 }\n3.1.2024 \"Kulu\" { 4000 D 20 ; 1000 C 20 }",
    )
    .unwrap();
    let all = l.all_accounts();
    for a in &all {
        for p in 0..=l.period() {
            let d: i32 = a.sub_accounts.iter().map(|c| all[*c].rec_debits[p]).sum();
            let c: i32 = a.sub_accounts.iter().map(|c| all[*c].rec_credits[p]).sum();
            assert_eq!(a.rec_debits[p], a.debits[p] + d);
            assert_eq!(a.rec_credits[p], a.credits[p] + c);
        }
    }
    let roots = l.accounts();
    assert_eq!(roots.len(), 4);
    assert_eq!(roots[0].name, "Vastaavaa");
    assert_eq!(roots[0].t, AccountType::Assets);
    assert_eq!(roots[0].rec_debits, vec![15000]);
    assert_eq!(roots[0].rec_credits, vec![2000]);
    assert_eq!(roots[0].debits, vec![0]);
    assert_eq!(roots[1].t, AccountType::LiabilitiesTopLevel);
    assert_eq!(roots[2].name, "Tulot");
    assert_eq!(roots[2].rec_credits, vec![15000]);
    assert_eq!(roots[3].n, Some(4000));
    assert_eq!(roots[3].rec_debits, vec![2000]);
    assert!(roots[3].is_leaf());
    assert!(!roots[0].is_leaf());
    assert_eq!(l.get_account(1000).unwrap().t, AccountType::Assets);
    assert_eq!(l.get_account(2000).unwrap().t, AccountType::Liabilities);
    assert_eq!(l.get_account(3000).unwrap().t, AccountType::IncomeStatement);
    assert!(l.get_account(9999).is_none());
    // The result of the period: what the income statement accounts hold.
    assert_eq!(l.period_result(), Ok(vec![(2000, 15000)]));
    // With the result the liabilities balance the assets.
    let totals = roots[1].totals_with_period_result(&l.period_result().unwrap()).unwrap();
    assert_eq!(totals, vec![(2000, 15000)]);
    assert_eq!(totals[0].1 - totals[0].0, roots[0].rec_debits[0] - roots[0].rec_credits[0]);
    assert_eq!(
        roots[1].totals_with_period_result(&vec![(i32::MAX, 0)]),
        Ok(vec![(i32::MAX, 0)])
    );
    assert_eq!(
        roots[0].totals_with_period_result(&vec![(i32::MAX, 0)]),
        Err(LedgerError::AmountOverflow)
    );
}

#[test]
fn postings_are_filed_under_their_accounts() {
    let l = ledger(
        "2.1.2024 \"b\" { 1000 { D 5 ; D 7 } ; 3000 C 12 }\n1.1.2024 \"a\" { 1000 D 1 ; 3000 C 1 }",
    )
    .unwrap();
    let bank = l.get_account(1000).unwrap();
    let postings: Vec<(i32, i32, &str, &str)> =
        bank.transactions.iter().map(|t| (t.n, t.amount, t.description.as_str(), t.doc.as_str())).collect();
    assert_eq!(postings, vec![(0, 100, "a", "0"), (1, 500, "b", "1"), (1, 700, "b", "1")]);
    assert_eq!(bank.transactions[0].clone().fmt_date(), "1.1.2024");
    assert!(l.get_account(2000).unwrap().transactions.is_empty());
}

#[test]
fn comparison_periods_leave_earlier_ones_alone() {
    let mut l = ledger("1.1.2024 \"Myynti\" { 1000 D 100 ; 3000 C 100 }").unwrap();
    let before = l.all_accounts();
    let journal_before = l.ledger().len();
    l.add_comparison_from_str("1.1.2025 \"Myynti\" { 1000 D 70 ; 3000 C 70 }\n2.1.2025 \"Kassa\" { 1100 D 1 ; 3000 C 1 }")
        .unwrap();
    assert_eq!(l.period(), 1);
    let after = l.all_accounts();
    assert_eq!(after.len(), before.len());
    for (a, b) in after.iter().zip(before.iter()) {
        for v in [&a.debits, &a.credits, &a.rec_debits, &a.rec_credits] {
            assert_eq!(v.len(), 2);
        }
        assert_eq!(a.debits[0], b.debits[0]);
        assert_eq!(a.credits[0], b.credits[0]);
        assert_eq!(a.rec_debits[0], b.rec_debits[0]);
        assert_eq!(a.rec_credits[0], b.rec_credits[0]);
    }
    assert_eq!(l.get_account(1000).unwrap().debits, vec![10000, 7000]);
    assert_eq!(l.get_account(1100).unwrap().debits, vec![0, 100]);
    assert_eq!(l.accounts()[0].rec_debits, vec![10000, 7100]);
    assert_eq!(l.accounts()[2].rec_credits, vec![10000, 7100]);
    assert_eq!(l.ledger().len(), journal_before);
    assert_eq!(l.comp_ledger_types(), vec![LedgerType::Main, LedgerType::Main]);
    l.add_comparison_from_str("\u{00A7} TALOUSARVIO\n3000\n  - 50\n").unwrap();
    assert_eq!(l.period(), 2);
    assert_eq!(l.comp_ledger_types(), vec![LedgerType::Main, LedgerType::Main, LedgerType::Budget]);
    assert_eq!(l.ledger_type(), LedgerType::Main);
    assert_eq!(l.get_account(3000).unwrap().credits, vec![10000, 7100, 5000]);
    assert_eq!(l.period_result(), Ok(vec![(0, 10000), (0, 7100), (0, 5000)]));
}

#[test]
fn rejected_comparison_leaves_the_ledger_as_it_was() {
    let mut l = ledger("1.1.2024 \"Myynti\" { 1000 D 100 ; 3000 C 100 }").unwrap();
    assert_eq!(
        l.add_comparison_from_str("1.1.2025 \"Myynti\" { 1000 D 70 ; 3000 C 60 }"),
        Err(LedgerError::UnbalancedTransaction)
    );
    assert_eq!(l.period(), 0);
    assert_eq!(l.get_account(1000).unwrap().debits, vec![10000]);
    assert_eq!(l.add_comparison_from_str("x y z"), Err(LedgerError::MalformedStatement));
    assert_eq!(l.period(), 0);
}

#[test]
fn years_are_completed() {
    let l = ledger(
        "1.2.2023 \"a\" { 1000 D 1 ; 3000 C 1 }\n2.2. \"b\" { 1000 D 1 ; 3000 C 1 }\n3.2.24 \"c\" { 1000 D 1 ; 3000 C 1 }\n4.2. \"d\" { 1000 D 1 ; 3000 C 1 }",
    )
    .unwrap();
    let dates: Vec<(i32, u8, u8)> = l.ledger().iter().map(|t| (t.date.year, t.date.month, t.date.day)).collect();
    assert_eq!(dates, vec![(2023, 2, 1), (2023, 2, 2), (2023, 2, 4), (2024, 2, 3)]);
    assert_eq!(l.year(), 2023);
}

#[test]
fn date_scopes_give_the_date() {
    let l = ledger("5.3.2024 { \"a\" { 1000 D 1 ; 3000 C 1 } 6.3.2024 { \"b\" { 1000 D 1 ; 3000 C 1 } } \"c\" { 1000 D 1 ; 3000 C 1 } }").unwrap();
    let journal = l.ledger();
    let days: Vec<(&str, u8)> = journal.iter().map(|t| (t.description.as_str(), t.date.day)).collect();
    assert_eq!(days, vec![("a", 5), ("c", 5), ("b", 6)]);
}

#[test]
fn aliases_end_with_their_scope() {
    assert_eq!(
        ledger("{ pankki = 1000 }\n1.1.2024 \"a\" { pankki D 1 ; 3000 C 1 }").err(),
        Some(LedgerError::UndefinedAlias)
    );
    let l = ledger("pankki = 1100\n{ pankki = 1000 ; 1.1.2024 \"a\" { pankki D 1 ; 3000 C 1 } }\n2.1.2024 \"b\" { pankki D 1 ; 3000 C 1 }").unwrap();
    assert_eq!(l.ledger()[0].entries[0].0, 1000);
    assert_eq!(l.ledger()[1].entries[0].0, 1100);
}

#[test]
fn every_execution_error() {
    assert_eq!(ledger("1.1.2024 \"a\" { x D 1 ; 3000 C 1 }").err(), Some(LedgerError::UndefinedAlias));
    assert_eq!(ledger("AUTO x { }").err(), Some(LedgerError::UndefinedAlias));
    assert_eq!(ledger("\"a\" { 1000 D 1 ; 3000 C 1 }").err(), Some(LedgerError::MissingDate));
    assert_eq!(
        ledger("1.1.2023 \"a\" { 1000 D 1 ; 3000 C 1 }\n29.2. \"b\" { 1000 D 1 ; 3000 C 1 }").err(),
        Some(LedgerError::InvalidDate)
    );
    assert_eq!(
        ledger("1.1.2024 \"a\" { 1000 D 2 ; 3000 C 1 }").err(),
        Some(LedgerError::UnbalancedTransaction)
    );
    assert_eq!(
        ledger("1.1.2024 \"a\" { 1000 D 1 ; 5000 C 1 }").err(),
        Some(LedgerError::UndeclaredAccount)
    );
    assert_eq!(
        ledger("1.1.2024 \"a\" { 1000 D 20000000 ; 3000 C 20000000 }\n2.1.2024 \"b\" { 1000 D 20000000 ; 3000 C 20000000 }")
            .err(),
        Some(LedgerError::AmountOverflow)
    );
    assert_eq!(LedgerError::UndefinedAlias.kind(), ErrorKind::Execution);
    assert_eq!(LedgerError::UnmatchedBlockEnd.kind(), ErrorKind::Structure);
    assert_eq!(ledger("}").err(), Some(LedgerError::UnmatchedBlockEnd));
    assert_eq!(ledger("999999999999").err(), Some(LedgerError::NumberOutOfRange));
}

#[test]
fn budget_rows_make_a_budget() {
    let l = ledger("\u{00A7} TALOUSARVIO\n3000\n  - 100\n  30\n4000\n  D 40\n  C 15\n  25 C\n").unwrap();
    assert_eq!(l.ledger_type(), LedgerType::Budget);
    let sales = l.get_account(3000).unwrap();
    assert_eq!(sales.credits, vec![10000]);
    assert_eq!(sales.debits, vec![3000]);
    let costs = l.get_account(4000).unwrap();
    assert_eq!(costs.debits, vec![4000]);
    assert_eq!(costs.credits, vec![4000]);
    let journal = l.ledger();
    assert_eq!(journal.len(), 2);
    assert_eq!(journal[0].date, Date::earliest());
    assert_eq!(journal[0].entries, vec![(3000, -10000), (3000, 3000)]);
    assert_eq!(journal[1].entries, vec![(4000, 4000), (4000, -1500), (4000, -2500)]);
}

#[test]
fn a_plain_negative_budget_amount_is_a_credit() {
    let statements = vec![
        SStatement::Account(Some(3000), "Tulot".into(), vec![], AccountType::IncomeStatement),
        SStatement::BudgetEntry {
            account: SAccount::N(300000),
            amounts: vec![(-50000, EntryType::Unmarked)],
        },
    ];
    let l = Ledger::exec(statements).unwrap();
    assert_eq!(l.ledger_type(), LedgerType::Budget);
    let income = l.get_account(3000).unwrap();
    assert_eq!(income.credits, vec![50000]);
    assert_eq!(income.debits, vec![0]);
    let marked = Ledger::exec(vec![
        SStatement::Account(Some(3000), "Tulot".into(), vec![], AccountType::IncomeStatement),
        SStatement::BudgetEntry {
            account: SAccount::N(300000),
            amounts: vec![(700, EntryType::Debit), (900, EntryType::Credit), (10, EntryType::Unmarked)],
        },
    ])
    .unwrap();
    assert_eq!(marked.get_account(3000).unwrap().debits, vec![710]);
    assert_eq!(marked.get_account(3000).unwrap().credits, vec![900]);
}

#[test]
fn synthesized_documents_skip_written_ones() {
    let mut statements = chart_statements();
    let entries = || vec![entry(1000, vec![SAuto::Val(100)]), entry(2000, vec![SAuto::Val(-100)])];
    statements.push(transaction(1, None, entries()));
    statements.push(transaction(2, Some("0"), entries()));
    statements.push(transaction(3, None, entries()));
    statements.push(transaction(4, Some("2"), entries()));
    statements.push(transaction(5, Some("1"), entries()));
    statements.push(transaction(6, Some("1"), entries()));
    statements.push(transaction(7, None, entries()));
    statements.push(transaction(8, Some("5"), entries()));
    statements.push(transaction(9, None, entries()));
    let l = Ledger::exec(statements).unwrap();
    let journal = l.ledger();
    let docs: Vec<&str> = journal.iter().map(|t| t.doc.as_str()).collect();
    assert_eq!(docs, vec!["1", "0", "3", "2", "1:1", "1:2", "4", "5", "6"]);
    for (i, a) in docs.iter().enumerate() {
        assert!(!a.is_empty());
        for b in &docs[i + 1..] {
            assert_ne!(a, b);
        }
    }
}

#[test]
fn options_are_read_in_their_section() {
    let mut l = ledger("nimi = \"ei\"\n\u{00A7} TIEDOT\nLyhenne = \"2024\"\nlyhenne = \"24\"\nNimi = \"Yhdistys\"").unwrap();
    assert_eq!(l.option(0, "lyhenne"), Some("24".to_string()));
    assert_eq!(l.option(0, "nimi"), Some("Yhdistys".to_string()));
    assert_eq!(l.option(0, "muu"), None);
    assert_eq!(l.option(1, "nimi"), None);
    l.add_comparison_from_str("lyhenne = \"2023\"").unwrap();
    assert_eq!(l.option(1, "lyhenne"), Some("2023".to_string()));
    assert_eq!(l.option(0, "lyhenne"), Some("24".to_string()));
}

#[test]
fn account_map_is_written_as_it_is_read() {
    let l = ledger("").unwrap();
    let text = l.account_map_string();
    assert_eq!(
        text,
        "+ \"Vastaavaa\"\n  1000 \"Pankki\"\n  1100 \"Kassa\"\n- \"Vastattavaa\"\n  2000 \"Oma paaoma\"\n\"Tulot\"\n  3000 \"Myynti\"\n4000 \"Kulut\""
    );
    let again = Ledger::from_string(format!("\u{00A7} TILIKARTTA\n{text}")).unwrap();
    assert_eq!(again.account_map_string(), text);
    assert_eq!(l.account_string(1, false, 4), "    1000 \"Pankki\"");
    let quoted = Ledger::from_string(
        "\u{00A7} TILIKARTTA\n1 'a\"b'\n2 \u{00BB}a\"b'c\u{00BB}\n3 \"c\"".to_string(),
    )
    .unwrap();
    assert_eq!(quoted.account_map_string(), "1 'a\"b'\n2 \u{00BB}a\"b'c\u{00BB}\n3 \"c\"");
}

#[test]
fn later_declaration_of_a_number_wins() {
    let l = Ledger::from_string(
        "\u{00A7} TILIKARTTA\n1000 \"a\"\n1000 \"b\"\n\u{00A7} K\n1.1.2024 \"t\" { 1000 D 1 ; 1000 C 1 }".to_string(),
    )
    .unwrap();
    assert_eq!(l.get_account(1000).unwrap().name, "b");
    assert_eq!(l.get_account(1000).unwrap().transactions.len(), 2);
    assert_eq!(l.all_accounts()[0].transactions.len(), 0);
}

#[test]
fn scopes_collapse_to_the_innermost_setting() {
    let mut outer = Scope::with_date(Date { year: 2024, month: 1, day: 1 });
    outer.add_hash("a".into(), 100);
    outer.add_hash("b".into(), 200);
    let mut inner = Scope::with_auto_balance(300);
    inner.add_hash("a".into(), 400);
    let stack = vec![outer, inner, Scope::default()];
    let scope = stack.collapsed();
    assert_eq!(scope.date, Some(Date { year: 2024, month: 1, day: 1 }));
    assert_eq!(scope.auto_balance, Some(300));
    assert_eq!(scope.alias(&"a".to_string()), Some(400));
    assert_eq!(scope.alias(&"b".to_string()), Some(200));
    assert_eq!(scope.alias(&"c".to_string()), None);
}

#[test]
fn a_new_ledger_is_empty() {
    let mut l = Ledger::new();
    assert!(l.ledger().is_empty());
    assert!(l.accounts().is_empty());
    assert_eq!(l.ledger_type(), LedgerType::Main);
    assert_eq!(l.account_map_string(), "");
    l.set_ledger_type(LedgerType::Budgeting);
    assert_eq!(l.ledger_type(), LedgerType::Budgeting);
    let copy = l.duplicate();
    assert_eq!(copy.ledger_type(), LedgerType::Budgeting);
    assert_eq!(read_statements("x = 1").map(|s| s.len()), Ok(1));
}

#[test]
fn indented_source_with_scopes() {
    let source = "\u{00A7} TILIKARTTA
+ \"Vastaavaa\"
  1000 \"Pankki\"
- \"Vastattavaa\"
  2000 \"Oma p\u{00E4}\u{00E4}oma\"
3000 \"Myynti\"
\u{00A7} P\u{00C4}\u{00C4}KIRJA
-- tilikausi 2024
pankki = 1000
AUTO pankki
  10.1.24 \"Myynti\"
    3000: C 500

  s1 11.1. \"Myynti 2\"   -- kaksi rivi\u{00E4}
    3000
      C 300
      C 200
";
    let l = Ledger::from_string(source.to_string()).unwrap();
    let journal = l.ledger();
    assert_eq!(journal.len(), 2);
    assert_eq!(journal[0].date, Date { year: 0, month: 1, day: 11 });
    assert_eq!(journal[0].description, "Myynti 2");
    assert_eq!(journal[0].doc, "s1");
    assert_eq!(journal[0].entries, vec![(3000, -30000), (3000, -20000), (1000, 50000)]);
    assert_eq!(journal[1].date, Date { year: 2024, month: 1, day: 10 });
    assert_eq!(journal[1].doc, "0");
    assert_eq!(journal[1].entries, vec![(3000, -50000), (1000, 50000)]);
    assert_eq!(l.get_account(2000).unwrap().name, "Oma p\u{00E4}\u{00E4}oma");
    assert_eq!(l.get_account(1000).unwrap().debits, vec![100000]);
    assert_eq!(l.get_account(3000).unwrap().credits, vec![100000]);
    assert_eq!(l.accounts()[0].rec_debits, vec![100000]);
    assert_eq!(l.year(), 0);
}

#[test]
fn balanced_entries_add_as_much_to_debits_as_to_credits() {
    let l = ledger(
        "10.1.2024 \"Myynti\" { 1000 { D 300 ; D 200 } ; 1100 D 100 ; 3000 AUTO }\n\
         11.1.2024 \"Osto\" { 4000 D 12,50 ; 1000 C 12,50 }\n\
         AUTO 2000 { 12.1.2024 \"Pano\" { 1000 D 7 ; 1100 C 2 } }\n",
    )
    .unwrap();
    for t in l.ledger().iter() {
        assert_eq!(t.entries.iter().map(|e| e.1).sum::<i32>(), 0);
    }
    let accounts = l.all_accounts();
    let debits: i32 = accounts.iter().map(|a| a.debits[0]).sum();
    let credits: i32 = accounts.iter().map(|a| a.credits[0]).sum();
    assert_eq!(debits, 61950);
    assert_eq!(credits, 61950);
}

#[test]
fn resolved_entries_keep_their_accounts_in_order() {
    let mut scope = Scope::default();
    scope.add_hash("kassa".to_string(), 110000);
    let resolved = resolve_entries(
        &vec![
            entry(1000, vec![SAuto::Val(5), SAuto::Val(7)]),
            SEntry { account: SAccount::Alias("kassa".into()), amounts: vec![SAuto::Auto, SAuto::Val(1)] },
            entry(3000, vec![]),
            entry(2000, vec![SAuto::Val(-20)]),
        ],
        &scope,
        false,
    );
    assert_eq!(resolved, Ok(vec![(1000, 5), (1000, 7), (1100, 7), (1100, 1), (2000, -20)]));
}
