//! The ledger executor: typed statements to a chart of accounts with
//! balances for each period and a journal in chronological order.

use vstd::prelude::*;
use vstd::string::StringExecFns;
use crate::account::{accounts_view, clone_accounts, clone_journal, journal_view,
    lemma_journal_view_push, Account, AccountView, Transaction, TransactionView};
use crate::chars::lowercase;
use crate::chart::{account_text, all_credits, all_debits, all_totals_hold, chart_text, lemma_posting_balances, declare, empty_chart, file_journal, lemma_same_before_refl,
    lemma_same_before_trans, lemma_sub_total_same, post, same_account_before,
    same_account_but_postings, same_account_but_totals, same_before, same_but_postings,
    same_but_totals, sub_total, totals_hold, with_new_period, with_sums, Chart, ChartView};
use crate::date::Date;
use crate::entries::{budget_entry_amounts, budget_values, entries_sum, lemma_auto_entry_balances,
    placeholders, resolve_date, resolve_entries, resolved_entries, stated_sum, transaction_date,
    written_accounts, written_amounts};
use crate::error::LedgerError;
use crate::journal::{assign_doc, assign_document, complete_docs, complete_multi_docs, docs_view,
    ids_are_fresh, number_entries, numbered, sort_by_date, sorted_by_date};
use crate::parser::{parse_source, tree_of_source};
use crate::scope::{alias_value, collapse, empty_scope, scopes_view, Scope, ScopeStack, ScopeView};
use crate::semantic::{analyse, entries_view, lemma_account_view, lemma_scope_view, option_text,
    statements_view, AccountType, SAccount, SAccountView, SAuto, SEntry, SEntryView, SExpression,
    SExpressionView, SHeader, SHeaderView, SStatement, SStatementView, SectionType, Semantic};

verus! {

/// What a ledger is used for.
#[derive(Debug, Clone, Copy, PartialEq, Eq, Structural)]
pub enum LedgerType {
    Main,
    Budget,
    Budgeting,
}

/// A ledger: the journal, the chart of accounts with its balances, and
/// the state that the execution of statements carries along.
pub struct Ledger {
    journal: Vec<Transaction>,
    scopes: Vec<Scope>,
    year: i32,
    chart: Chart,
    section: SectionType,
    options: Vec<Vec<(String, String)>>,
    ledger_type: LedgerType,
    comp_ledger_types: Vec<LedgerType>,
    l_index: usize,
    docs: Vec<(String, i32)>,
}

/// A ledger as a mathematical value.
#[verifier::ext_equal]
pub struct LedgerView {
    /// The journal.
    pub journal: Seq<TransactionView>,
    /// The scopes that are open, outermost first.
    pub scopes: Seq<ScopeView>,
    /// The year that dates without a year take.
    pub year: i32,
    /// The chart of accounts.
    pub chart: ChartView,
    /// The section in which statements are read.
    pub section: SectionType,
    /// For each period the options that its source defines; of two
    /// definitions of one option the later one holds.
    pub options: Seq<Seq<(Seq<char>, Seq<char>)>>,
    /// What the ledger is used for.
    pub ledger_type: LedgerType,
    /// For each period whether its source is a budget.
    pub comp_ledger_types: Seq<LedgerType>,
    /// The period that statements are executed in; periods are counted
    /// from 0.
    pub period: nat,
    /// The documents seen, each with the number of its entries, in the
    /// order in which they first occurred.
    pub docs: Seq<(Seq<char>, i32)>,
}

/// A table of options as pairs of texts.
pub open spec fn texts_view(s: Seq<(String, String)>) -> Seq<(Seq<char>, Seq<char>)> {
    Seq::new(s.len(), |i: int| (s[i].0@, s[i].1@))
}

/// The tables of options of all periods.
pub open spec fn options_view(s: Seq<Vec<(String, String)>>) -> Seq<Seq<(Seq<char>, Seq<char>)>> {
    Seq::new(s.len(), |i: int| texts_view(s[i]@))
}

impl View for Ledger {
    type V = LedgerView;

    closed spec fn view(&self) -> LedgerView {
        LedgerView {
            journal: journal_view(self.journal@),
            scopes: scopes_view(self.scopes@),
            year: self.year,
            chart: self.chart@,
            section: self.section,
            options: options_view(self.options@),
            ledger_type: self.ledger_type,
            comp_ledger_types: self.comp_ledger_types@,
            period: self.l_index as nat,
            docs: docs_view(self.docs@),
        }
    }
}

impl LedgerView {
    /// What execution relies on: the chart is well formed with amounts
    /// for every period, a scope is open, and every period has options.
    pub open spec fn inv(self) -> bool {
        &&& self.chart.wf(self.period as int + 1)
        &&& self.scopes.len() >= 1
        &&& self.options.len() == self.period + 1
        &&& self.period < usize::MAX
    }

    /// In every period the recursive totals of every account are its own
    /// amounts plus the recursive totals of its sub-accounts.
    pub open spec fn totals_hold_everywhere(self) -> bool {
        forall|p: int| 0 <= p <= self.period ==> #[trigger] all_totals_hold(self.chart.accounts, p)
    }

    /// What holds of a ledger between the calls of its public functions.
    pub open spec fn wf(self) -> bool {
        self.inv() && self.totals_hold_everywhere()
    }
}

/// The value of an option: its last definition.
pub open spec fn option_value(options: Seq<(Seq<char>, Seq<char>)>, key: Seq<char>) -> Option<
    Seq<char>,
>
    decreases options.len(),
{
    if options.len() == 0 {
        None
    } else if options.last().0 == key {
        Some(options.last().1)
    } else {
        option_value(options.drop_last(), key)
    }
}

/// The ledger before anything is executed.
pub open spec fn new_ledger() -> LedgerView {
    LedgerView {
        journal: Seq::empty(),
        scopes: seq![empty_scope()],
        year: 0,
        chart: empty_chart(),
        section: SectionType::Ledger,
        options: seq![Seq::empty()],
        ledger_type: LedgerType::Main,
        comp_ledger_types: seq![LedgerType::Main],
        period: 0,
        docs: Seq::empty(),
    }
}

// ---------------------------------------------------------------------
// What statements do
// ---------------------------------------------------------------------

/// The ledger after a transaction. Its date and its entries are resolved
/// in the scope that holds; the amounts are posted to the accounts in the
/// current period; and in the first period the transaction gets its
/// document identifier and joins the journal. A budget row makes the
/// ledger a budget.
pub open spec fn transact(
    l: LedgerView,
    date: Option<Date>,
    description: Seq<char>,
    entries: Seq<SEntryView>,
    doc: Option<Seq<char>>,
    budget: bool,
) -> Result<LedgerView, LedgerError> {
    let scope = collapse(l.scopes);
    match transaction_date(date, scope.date, l.year, budget) {
        Err(e) => Err(e),
        Ok((day, year)) => match resolved_entries(entries, scope, budget) {
            Err(e) => Err(e),
            Ok(resolved) => match post(
                l.chart.accounts,
                l.chart.index,
                resolved,
                0,
                l.period as int,
            ) {
                Err(e) => Err(e),
                Ok(accounts) => {
                    let posted = LedgerView {
                        year,
                        chart: ChartView { accounts, ..l.chart },
                        ledger_type: if budget {
                            LedgerType::Budget
                        } else {
                            l.ledger_type
                        },
                        ..l
                    };
                    if l.period == 0 {
                        match assign_doc(l.docs, doc) {
                            Err(e) => Err(e),
                            Ok((id, docs)) => Ok(
                                LedgerView {
                                    docs,
                                    journal: l.journal.push(
                                        TransactionView {
                                            date: day,
                                            description,
                                            entries: resolved,
                                            n: 0,
                                            doc: id,
                                        },
                                    ),
                                    ..posted
                                },
                            ),
                        }
                    } else {
                        Ok(posted)
                    }
                },
            },
        },
    }
}

/// The scope that a block opens.
pub open spec fn block_scope(l: LedgerView, header: SHeaderView) -> Result<ScopeView, LedgerError> {
    match header {
        SHeaderView::Date { date } => Ok(ScopeView { date: Some(date), ..empty_scope() }),
        SHeaderView::AutoBalance { account } => match account {
            SAccountView::N(n) => Ok(ScopeView { auto_balance: Some(n), ..empty_scope() }),
            SAccountView::Alias(name) => match alias_value(collapse(l.scopes).aliases, name) {
                Some(n) => Ok(ScopeView { auto_balance: Some(n), ..empty_scope() }),
                None => Err(LedgerError::UndefinedAlias),
            },
        },
        SHeaderView::Dummy => Ok(empty_scope()),
    }
}

/// The ledger after an alias is bound in the innermost scope, or an
/// option is defined. Options are defined in the options section only,
/// under their name in lower case.
pub open spec fn define(l: LedgerView, e: SExpressionView) -> LedgerView {
    match e {
        SExpressionView::Alias(name, n) => if l.scopes.len() > 0 {
            LedgerView {
                scopes: l.scopes.update(
                    l.scopes.len() - 1,
                    ScopeView {
                        aliases: l.scopes.last().aliases.push((name, n)),
                        ..l.scopes.last()
                    },
                ),
                ..l
            }
        } else {
            l
        },
        SExpressionView::Definition(key, value) => if l.section == SectionType::Options
            && l.period < l.options.len() {
            LedgerView {
                options: l.options.update(
                    l.period as int,
                    l.options[l.period as int].push((lowercase(key), value)),
                ),
                ..l
            }
        } else {
            l
        },
    }
}

/// The ledger after one statement.
pub open spec fn run_statement(l: LedgerView, s: SStatementView) -> Result<LedgerView, LedgerError>
    decreases s, 0nat,
{
    match s {
        SStatementView::Block(header, body) => match block_scope(l, header) {
            Err(e) => Err(e),
            Ok(scope) => match run_statements(
                LedgerView { scopes: l.scopes.push(scope), ..l },
                body,
                0,
            ) {
                Err(e) => Err(e),
                Ok(inner) => Ok(LedgerView { scopes: inner.scopes.drop_last(), ..inner }),
            },
        },
        SStatementView::Transaction { date, description, entries, doc } => transact(
            l,
            date,
            description,
            entries,
            doc,
            false,
        ),
        SStatementView::Expression(e) => Ok(define(l, e)),
        SStatementView::Section(section) => Ok(LedgerView { section, ..l }),
        SStatementView::Account(n, name, subs, t) => if l.period == 0 {
            Ok(LedgerView { chart: declare(l.chart, n, name, subs, t, None), ..l })
        } else {
            Ok(l)
        },
        SStatementView::BudgetEntry { account, amounts } => match budget_values(amounts, 0) {
            Err(e) => Err(e),
            Ok(values) => transact(
                l,
                None,
                Seq::empty(),
                seq![SEntryView { account, amounts: values }],
                None,
                true,
            ),
        },
    }
}

/// The ledger after the statements from position `i` on, in order.
pub open spec fn run_statements(l: LedgerView, statements: Seq<SStatementView>, i: int) -> Result<
    LedgerView,
    LedgerError,
>
    decreases statements, statements.len() - i,
{
    if i < 0 || i >= statements.len() {
        Ok(l)
    } else {
        match run_statement(l, statements[i]) {
            Err(e) => Err(e),
            Ok(next) => run_statements(next, statements, i + 1),
        }
    }
}

/// The ledger once the statements of the first period are executed: the
/// document identifiers are completed, the journal is sorted and
/// numbered, the recursive totals are computed and the postings are
/// added to the accounts.
pub open spec fn finalize(l: LedgerView) -> Result<LedgerView, LedgerError> {
    match numbered(sorted_by_date(complete_docs(l.journal, l.docs, 0))) {
        Err(e) => Err(e),
        Ok(journal) => match with_sums(
            l.chart.accounts,
            l.chart.accounts.len() as int,
            l.period as int,
        ) {
            Err(e) => Err(e),
            Ok(summed) => match file_journal(summed, l.chart.index, journal, 0) {
                Err(e) => Err(e),
                Ok(accounts) => Ok(
                    LedgerView { journal, chart: ChartView { accounts, ..l.chart }, ..l },
                ),
            },
        },
    }
}

/// The journal of a list of statements in chronological order, before
/// its entries are numbered: entries without a document identifier have
/// an empty one.
pub open spec fn unnumbered_journal(statements: Seq<SStatementView>) -> Seq<TransactionView> {
    match run_statements(new_ledger(), statements, 0) {
        Ok(l) => sorted_by_date(complete_docs(l.journal, l.docs, 0)),
        Err(_) => Seq::empty(),
    }
}

/// The ledger of a list of statements.
pub open spec fn execute(statements: Seq<SStatementView>) -> Result<LedgerView, LedgerError> {
    match run_statements(new_ledger(), statements, 0) {
        Err(e) => Err(e),
        Ok(l) => finalize(l),
    }
}

/// The statements of a source text.
pub open spec fn statements_of_source(source: Seq<char>) -> Result<
    Seq<SStatementView>,
    LedgerError,
> {
    match tree_of_source(source) {
        Err(e) => Err(e),
        Ok(tree) => match analyse(tree) {
            Err(e) => Err(e),
            Ok((statements, _)) => Ok(statements),
        },
    }
}

/// The ledger of a source text.
pub open spec fn ledger_of_source(source: Seq<char>) -> Result<LedgerView, LedgerError> {
    match statements_of_source(source) {
        Err(e) => Err(e),
        Ok(statements) => execute(statements),
    }
}

/// Whether one of the statements, nested ones apart, opens the budget
/// section.
pub open spec fn opens_budget(statements: Seq<SStatementView>) -> bool {
    exists|i: int|
        0 <= i < statements.len() && #[trigger] statements[i] == SStatementView::Section(
            SectionType::Budget,
        )
}

/// The ledger with one more period, before the statements of the period
/// are executed: every account has a zero for it in each amount array.
pub open spec fn with_comparison(l: LedgerView, budget: bool) -> LedgerView {
    LedgerView {
        comp_ledger_types: l.comp_ledger_types.push(
            if budget {
                LedgerType::Budget
            } else {
                LedgerType::Main
            },
        ),
        period: l.period + 1,
        options: l.options.push(Seq::empty()),
        chart: ChartView { accounts: with_new_period(l.chart.accounts), ..l.chart },
        ..l
    }
}

/// The ledger after the statements of one more period are executed. The
/// accounts get the new period, the statements are executed in it, and
/// the recursive totals of the period are computed. What the ledger is
/// used for stays as it was.
pub open spec fn extend(l: LedgerView, statements: Seq<SStatementView>) -> Result<
    LedgerView,
    LedgerError,
> {
    if l.period + 1 >= usize::MAX {
        Err(LedgerError::JournalTooLong)
    } else {
        match run_statements(with_comparison(l, opens_budget(statements)), statements, 0) {
            Err(e) => Err(e),
            Ok(run) => match with_sums(
                run.chart.accounts,
                run.chart.accounts.len() as int,
                run.period as int,
            ) {
                Err(e) => Err(e),
                Ok(accounts) => Ok(
                    LedgerView {
                        chart: ChartView { accounts, ..run.chart },
                        ledger_type: l.ledger_type,
                        ..run
                    },
                ),
            },
        }
    }
}

/// The ledger after the source text of one more period.
pub open spec fn extend_from_source(l: LedgerView, source: Seq<char>) -> Result<
    LedgerView,
    LedgerError,
> {
    match statements_of_source(source) {
        Err(e) => Err(e),
        Ok(statements) => extend(l, statements),
    }
}

/// What the execution of statements leaves as it is: the period, the
/// number of open scopes, the options of earlier periods and the kinds
/// of the periods; and after the first period the journal, the
/// documents, the shape of the chart and every amount of an earlier
/// period.
pub open spec fn kept(old: LedgerView, new: LedgerView) -> bool {
    &&& new.period == old.period
    &&& new.scopes.len() == old.scopes.len()
    &&& new.options.len() == old.options.len()
    &&& forall|q: int| 0 <= q < old.period && q < old.options.len() ==> #[trigger] new.options[q] == old.options[q]
    &&& new.comp_ledger_types == old.comp_ledger_types
    &&& old.period > 0 ==> {
        &&& same_before(old.chart.accounts, new.chart.accounts, old.period as int)
        &&& new.journal == old.journal
        &&& new.chart.roots == old.chart.roots
        &&& new.chart.index == old.chart.index
        &&& new.docs == old.docs
    }
}

/// What two executions in a row leave as it is.
pub proof fn lemma_kept_trans(a: LedgerView, b: LedgerView, c: LedgerView)
    requires
        kept(a, b),
        kept(b, c),
    ensures
        kept(a, c),
{
    if a.period > 0 {
        lemma_same_before_trans(a.chart.accounts, b.chart.accounts, c.chart.accounts, a.period as int);
    }
}

/// Doing nothing leaves everything as it is.
pub proof fn lemma_kept_refl(a: LedgerView)
    ensures
        kept(a, a),
{
    lemma_same_before_refl(a.chart.accounts, a.period as int);
}

} // verus!

verus! {

impl Ledger {
    /// A ledger before anything is executed.
    pub fn new() -> (l: Ledger)
        ensures
            l@ == new_ledger(),
            l@.wf(),
    {
        let mut scopes: Vec<Scope> = Vec::new();
        scopes.push(Scope::default());
        let mut options: Vec<Vec<(String, String)>> = Vec::new();
        options.push(Vec::new());
        let mut comp_ledger_types: Vec<LedgerType> = Vec::new();
        comp_ledger_types.push(LedgerType::Main);
        let l = Ledger {
            journal: Vec::new(),
            scopes,
            year: 0,
            section: SectionType::Ledger,
            chart: Chart::new(),
            options,
            ledger_type: LedgerType::Main,
            comp_ledger_types,
            l_index: 0,
            docs: Vec::new(),
        };
        proof {
            assert(l@.journal =~= Seq::<TransactionView>::empty());
            assert(l@.scopes =~= seq![empty_scope()]);
            assert(texts_view(l.options@[0]@) =~= Seq::<(Seq<char>, Seq<char>)>::empty());
            assert(l@.options =~= seq![Seq::<(Seq<char>, Seq<char>)>::empty()]);
            assert(l@.comp_ledger_types =~= seq![LedgerType::Main]);
            assert(l@.docs =~= Seq::<(Seq<char>, i32)>::empty());
            assert(l@ =~= new_ledger());
        }
        l
    }

    /// Executes a transaction, or with `budget` a budget row.
    fn exec_transaction(
        &mut self,
        date: Option<Date>,
        description: &String,
        entries: &Vec<SEntry>,
        doc: &Option<String>,
        budget: bool,
    ) -> (r: Result<(), LedgerError>)
        requires
            old(self)@.inv(),
        ensures
            match r {
                Ok(()) => transact(
                    old(self)@,
                    date,
                    description@,
                    entries_view(entries@),
                    option_text(*doc),
                    budget,
                ) == Ok::<LedgerView, LedgerError>(final(self)@) && final(self)@.inv() && kept(
                    old(self)@,
                    final(self)@,
                ),
                Err(e) => transact(
                    old(self)@,
                    date,
                    description@,
                    entries_view(entries@),
                    option_text(*doc),
                    budget,
                ) == Err::<LedgerView, LedgerError>(e),
            },
    {
        let ghost start = self@;
        let scope = self.scopes.collapsed();
        let (day, year) = match resolve_date(date, scope.date, self.year, budget) {
            Ok(pair) => pair,
            Err(e) => {
                return Err(e);
            },
        };
        let resolved = match resolve_entries(entries, &scope, budget) {
            Ok(resolved) => resolved,
            Err(e) => {
                return Err(e);
            },
        };
        match self.chart.post_entries(&resolved, self.l_index) {
            Ok(()) => {},
            Err(e) => {
                return Err(e);
            },
        }
        if budget {
            self.ledger_type = LedgerType::Budget;
        }
        self.year = year;
        if self.l_index == 0 {
            let copy = match doc {
                Some(d) => Some(d.clone()),
                None => None,
            };
            let id = match assign_document(&mut self.docs, copy) {
                Ok(id) => id,
                Err(e) => {
                    return Err(e);
                },
            };
            let transaction = Transaction {
                date: day,
                description: description.clone(),
                entries: resolved,
                n: 0,
                doc: id,
            };
            proof {
                lemma_journal_view_push(self.journal@, transaction);
            }
            self.journal.push(transaction);
        }
        proof {
            assert(self@ =~= transact(
                start,
                date,
                description@,
                entries_view(entries@),
                option_text(*doc),
                budget,
            )->Ok_0);
        }
        Ok(())
    }

    /// Binds an alias or defines an option.
    fn exec_expression(&mut self, expr: &SExpression)
        requires
            old(self)@.inv(),
        ensures
            final(self)@ == define(old(self)@, expr@),
            final(self)@.inv(),
            kept(old(self)@, final(self)@),
    {
        let ghost start = self@;
        match expr {
            SExpression::Alias(ident, n) => {
                let last = self.scopes.len() - 1;
                assert(self.scopes@[last as int]@ == start.scopes.last());
                self.scopes[last].add_hash(ident.clone(), *n);
                let ghost top = self.scopes@[last as int];
                proof {
                    assert(self@.scopes =~= start.scopes.update(start.scopes.len() - 1, top@));
                    assert(self@ =~= define(start, expr@));
                    lemma_same_before_refl(start.chart.accounts, start.period as int);
                }
            },
            SExpression::Definition(key, value) => {
                if self.section == SectionType::Options {
                    let ghost before = self.options@;
                    assert(start.options[self.l_index as int] == texts_view(
                        before[self.l_index as int]@,
                    ));
                    let name = key.as_str().to_lowercase();
                    let period = self.l_index;
                    self.options[period].push((name, value.clone()));
                    let ghost table = self.options@[period as int];
                    proof {
                        assert(texts_view(table@) =~= start.options[self.l_index as int].push(
                            (lowercase(key@), value@),
                        ));
                        assert(self@.options =~= start.options.update(
                            self.l_index as int,
                            texts_view(table@),
                        ));
                        assert(self@ =~= define(start, expr@));
                    }
                }
                proof {
                    lemma_same_before_refl(start.chart.accounts, start.period as int);
                }
            },
        }
    }

    /// Executes a scope block: its statements run in a new scope.
    fn exec_block(&mut self, header: &SHeader, body: &Vec<SStatement>) -> (r: Result<
        (),
        LedgerError,
    >)
        requires
            old(self)@.inv(),
        ensures
            match r {
                Ok(()) => run_statement(
                    old(self)@,
                    SStatementView::Block(header@, statements_view(body@)),
                ) == Ok::<LedgerView, LedgerError>(final(self)@) && final(self)@.inv() && kept(
                    old(self)@,
                    final(self)@,
                ),
                Err(e) => run_statement(
                    old(self)@,
                    SStatementView::Block(header@, statements_view(body@)),
                ) == Err::<LedgerView, LedgerError>(e),
            },
        decreases body, 1nat,
    {
        let ghost start = self@;
        let scope = match header {
            SHeader::Date { date } => Scope::with_date(*date),
            SHeader::AutoBalance { account } => match account {
                SAccount::N(n) => Scope::with_auto_balance(*n),
                SAccount::Alias(name) => {
                    let collapsed = self.scopes.collapsed();
                    match collapsed.alias(name) {
                        Some(n) => Scope::with_auto_balance(n),
                        None => {
                            return Err(LedgerError::UndefinedAlias);
                        },
                    }
                },
            },
            SHeader::Dummy => Scope::default(),
        };
        assert(block_scope(start, header@) == Ok::<ScopeView, LedgerError>(scope@));
        proof {
            assert(scopes_view(self.scopes@.push(scope)) =~= scopes_view(self.scopes@).push(
                scope@,
            ));
        }
        self.scopes.push(scope);
        let ghost pushed = self@;
        assert(pushed =~= (LedgerView { scopes: start.scopes.push(scope@), ..start }));
        match self.exec_statements(body) {
            Ok(()) => {},
            Err(e) => {
                return Err(e);
            },
        }
        let ghost inner = self@;
        let ghost before = self.scopes@;
        self.scopes.pop();
        proof {
            assert(self.scopes@ =~= before.drop_last());
            assert(self@.scopes =~= inner.scopes.drop_last());
            assert(self@ =~= (LedgerView { scopes: inner.scopes.drop_last(), ..inner }));
        }
        Ok(())
    }

    /// Executes one statement.
    fn exec_s(&mut self, statement: &SStatement) -> (r: Result<(), LedgerError>)
        requires
            old(self)@.inv(),
        ensures
            match r {
                Ok(()) => run_statement(old(self)@, statement@) == Ok::<LedgerView, LedgerError>(
                    final(self)@,
                ) && final(self)@.inv() && kept(old(self)@, final(self)@),
                Err(e) => run_statement(old(self)@, statement@) == Err::<LedgerView, LedgerError>(
                    e,
                ),
            },
        decreases statement, 0nat,
    {
        let ghost start = self@;
        match statement {
            SStatement::Block(header, body) => {
                proof {
                    lemma_scope_view(*header, *body);
                }
                self.exec_block(header, body)
            },
            SStatement::Transaction { date, description, entries, doc } => self.exec_transaction(
                *date,
                description,
                entries,
                doc,
                false,
            ),
            SStatement::Expression(expr) => {
                self.exec_expression(expr);
                Ok(())
            },
            SStatement::Section(section) => {
                self.section = *section;
                proof {
                    assert(self@ =~= (LedgerView { section: *section, ..start }));
                    lemma_same_before_refl(start.chart.accounts, start.period as int);
                }
                Ok(())
            },
            SStatement::Account(n, name, subs, t) => {
                proof {
                    lemma_account_view(*n, *name, *subs, *t);
                    lemma_same_before_refl(start.chart.accounts, start.period as int);
                }
                if self.l_index == 0 {
                    self.chart.declare_account(*n, name, subs, *t, None);
                    proof {
                        assert(self@ =~= (LedgerView {
                            chart: declare(start.chart, *n, name@, statements_view(subs@), *t, None),
                            ..start
                        }));
                    }
                }
                Ok(())
            },
            SStatement::BudgetEntry { account, amounts } => {
                let values = match budget_entry_amounts(amounts) {
                    Ok(values) => values,
                    Err(e) => {
                        return Err(e);
                    },
                };
                let copy = match account {
                    SAccount::N(n) => SAccount::N(*n),
                    SAccount::Alias(name) => SAccount::Alias(name.clone()),
                };
                let mut entries: Vec<SEntry> = Vec::new();
                entries.push(SEntry { account: copy, amounts: values });
                let description = String::new();
                let doc: Option<String> = None;
                proof {
                    assert(entries_view(entries@) =~= seq![
                        SEntryView { account: account@, amounts: values@ },
                    ]);
                }
                self.exec_transaction(None, &description, &entries, &doc, true)
            },
        }
    }

    /// Executes statements in order.
    fn exec_statements(&mut self, statements: &Vec<SStatement>) -> (r: Result<(), LedgerError>)
        requires
            old(self)@.inv(),
        ensures
            match r {
                Ok(()) => run_statements(old(self)@, statements_view(statements@), 0) == Ok::<
                    LedgerView,
                    LedgerError,
                >(final(self)@) && final(self)@.inv() && kept(old(self)@, final(self)@),
                Err(e) => run_statements(old(self)@, statements_view(statements@), 0) == Err::<
                    LedgerView,
                    LedgerError,
                >(e),
            },
        decreases statements, 0nat,
    {
        let ghost start = self@;
        let ghost all = statements_view(statements@);
        let mut i: usize = 0;
        proof {
            lemma_kept_refl(start);
        }
        while i < statements.len()
            invariant
                i <= statements.len(),
                start == old(self)@,
                all == statements_view(statements@),
                self@.inv(),
                kept(start, self@),
                run_statements(start, all, 0) == run_statements(self@, all, i as int),
            decreases statements.len() - i,
        {
            let ghost current = self@;
            assert(all[i as int] == statements@[i as int]@);
            match self.exec_s(&statements[i]) {
                Ok(()) => {},
                Err(e) => {
                    return Err(e);
                },
            }
            proof {
                lemma_kept_trans(start, current, self@);
            }
            i = i + 1;
        }
        Ok(())
    }
}

} // verus!

verus! {

broadcast use vstd::std_specs::hash::group_hash_axioms;

/// Amounts of a period stay consistent when they are left as they are.
pub proof fn lemma_totals_kept(old: ChartView, new: Seq<AccountView>, p: int, q: int, periods: int)
    requires
        old.wf(periods),
        same_before(old.accounts, new, p),
        0 <= q < p,
        q < periods,
        all_totals_hold(old.accounts, q),
    ensures
        all_totals_hold(new, q),
{
    assert forall|a: int| 0 <= a < new.len() implies #[trigger] totals_hold(new, a, q) by {
        assert(totals_hold(old.accounts, a, q));
        assert(same_account_before(old.accounts[a], new[a], p));
        assert(old.accounts[a].has_periods(periods));
        let subs = new[a].sub_accounts;
        assert(subs == old.accounts[a].sub_accounts);
        assert forall|i: int| 0 <= i < subs.len() implies old.accounts[(
        #[trigger] subs[i]) as int].rec_debits[q] == new[subs[i] as int].rec_debits[q]
            && old.accounts[subs[i] as int].rec_credits[q] == new[subs[i] as int].rec_credits[q] by {
            let c = old.accounts[a].sub_accounts[i] as int;
            assert(a < c < old.accounts.len());
            assert(same_account_before(old.accounts[c], new[c], p));
            assert(old.accounts[c].has_periods(periods));
        }
        lemma_sub_total_same(old.accounts, new, subs, 0, q, true);
        lemma_sub_total_same(old.accounts, new, subs, 0, q, false);
    }
}

/// Amounts stay consistent when only postings are added.
pub proof fn lemma_totals_kept_with_postings(
    old: ChartView,
    new: Seq<AccountView>,
    q: int,
    periods: int,
)
    requires
        old.wf(periods),
        same_but_postings(old.accounts, new),
        all_totals_hold(old.accounts, q),
    ensures
        all_totals_hold(new, q),
{
    assert forall|a: int| 0 <= a < new.len() implies #[trigger] totals_hold(new, a, q) by {
        assert(totals_hold(old.accounts, a, q));
        assert(same_account_but_postings(old.accounts[a], new[a]));
        let subs = new[a].sub_accounts;
        assert forall|i: int| 0 <= i < subs.len() implies old.accounts[(
        #[trigger] subs[i]) as int].rec_debits[q] == new[subs[i] as int].rec_debits[q]
            && old.accounts[subs[i] as int].rec_credits[q] == new[subs[i] as int].rec_credits[q] by {
            let c = old.accounts[a].sub_accounts[i] as int;
            assert(a < c < old.accounts.len());
            assert(same_account_but_postings(old.accounts[c], new[c]));
        }
        lemma_sub_total_same(old.accounts, new, subs, 0, q, true);
        lemma_sub_total_same(old.accounts, new, subs, 0, q, false);
    }
}

/// What differs in the recursive totals of period `p` alone is the same
/// for every earlier period.
pub proof fn lemma_same_but_totals_before(old: Seq<AccountView>, new: Seq<AccountView>, p: int)
    requires
        same_but_totals(old, new, p),
    ensures
        same_before(old, new, p),
{
    assert forall|a: int| 0 <= a < old.len() implies same_account_before(
        old[a],
        #[trigger] new[a],
        p,
    ) by {
        assert(same_account_but_totals(old[a], new[a], p));
    }
}

/// A copy of a table of options.
fn clone_texts(v: &Vec<(String, String)>) -> (r: Vec<(String, String)>)
    ensures
        texts_view(r@) == texts_view(v@),
{
    let mut r: Vec<(String, String)> = Vec::new();
    let mut i: usize = 0;
    while i < v.len()
        invariant
            i <= v.len(),
            r.len() == i,
            forall|k: int| 0 <= k < i ==> r@[k].0@ == v@[k].0@ && r@[k].1@ == v@[k].1@,
        decreases v.len() - i,
    {
        r.push((v[i].0.clone(), v[i].1.clone()));
        i = i + 1;
    }
    proof {
        assert(texts_view(r@) =~= texts_view(v@));
    }
    r
}

/// A copy of a list of texts with numbers.
fn clone_counts(v: &Vec<(String, i32)>) -> (r: Vec<(String, i32)>)
    ensures
        docs_view(r@) == docs_view(v@),
        crate::scope::aliases_view(r@) == crate::scope::aliases_view(v@),
{
    let mut r: Vec<(String, i32)> = Vec::new();
    let mut i: usize = 0;
    while i < v.len()
        invariant
            i <= v.len(),
            r.len() == i,
            forall|k: int| 0 <= k < i ==> r@[k].0@ == v@[k].0@ && r@[k].1 == v@[k].1,
        decreases v.len() - i,
    {
        r.push((v[i].0.clone(), v[i].1));
        i = i + 1;
    }
    proof {
        assert(docs_view(r@) =~= docs_view(v@));
        assert(crate::scope::aliases_view(r@) =~= crate::scope::aliases_view(v@));
    }
    r
}

/// Reads the statements of a source text.
pub fn read_statements(source: &str) -> (r: Result<Vec<SStatement>, LedgerError>)
    ensures
        match r {
            Ok(statements) => statements_of_source(source@) == Ok::<
                Seq<SStatementView>,
                LedgerError,
            >(statements_view(statements@)),
            Err(e) => statements_of_source(source@) == Err::<Seq<SStatementView>, LedgerError>(e),
        },
{
    let tree = match parse_source(source) {
        Ok(tree) => tree,
        Err(e) => {
            return Err(e);
        },
    };
    match Semantic::from_parse_tree(tree) {
        Ok(semantic) => Ok(semantic.statements),
        Err(e) => Err(e),
    }
}

impl Ledger {
    /// A copy of the ledger.
    pub fn duplicate(&self) -> (r: Ledger)
        ensures
            r@ == self@,
    {
        let mut scopes: Vec<Scope> = Vec::new();
        let mut i: usize = 0;
        while i < self.scopes.len()
            invariant
                i <= self.scopes.len(),
                scopes.len() == i,
                forall|k: int| 0 <= k < i ==> scopes@[k]@ == self.scopes@[k]@,
            decreases self.scopes.len() - i,
        {
            let s = &self.scopes[i];
            scopes.push(
                Scope { date: s.date, auto_balance: s.auto_balance, aliases: clone_counts(&s.aliases) },
            );
            i = i + 1;
        }
        let mut options: Vec<Vec<(String, String)>> = Vec::new();
        let mut j: usize = 0;
        while j < self.options.len()
            invariant
                j <= self.options.len(),
                options.len() == j,
                forall|k: int| 0 <= k < j ==> texts_view(options@[k]@) == texts_view(self.options@[k]@),
            decreases self.options.len() - j,
        {
            options.push(clone_texts(&self.options[j]));
            j = j + 1;
        }
        let mut comp_ledger_types: Vec<LedgerType> = Vec::new();
        let mut k: usize = 0;
        while k < self.comp_ledger_types.len()
            invariant
                k <= self.comp_ledger_types.len(),
                comp_ledger_types@ == self.comp_ledger_types@.take(k as int),
            decreases self.comp_ledger_types.len() - k,
        {
            comp_ledger_types.push(self.comp_ledger_types[k]);
            proof {
                assert(self.comp_ledger_types@.take(k + 1) =~= self.comp_ledger_types@.take(
                    k as int,
                ).push(self.comp_ledger_types@[k as int]));
            }
            k = k + 1;
        }
        proof {
            assert(self.comp_ledger_types@.take(k as int) =~= self.comp_ledger_types@);
        }
        let r = Ledger {
            journal: clone_journal(&self.journal),
            scopes,
            year: self.year,
            chart: Chart {
                accounts: clone_accounts(&self.chart.accounts),
                roots: crate::account::copy_positions(&self.chart.roots),
                index: self.chart.index.clone(),
            },
            section: self.section,
            options,
            ledger_type: self.ledger_type,
            comp_ledger_types,
            l_index: self.l_index,
            docs: clone_counts(&self.docs),
        };
        proof {
            assert(r@.scopes =~= self@.scopes);
            assert(r@.options =~= self@.options);
            assert(r@ =~= self@);
        }
        r
    }

    /// Executes the statements of the first period and finishes the
    /// journal and the chart.
    pub fn exec(statements: Vec<SStatement>) -> (r: Result<Ledger, LedgerError>)
        ensures
            match r {
                Ok(l) => execute(statements_view(statements@)) == Ok::<LedgerView, LedgerError>(l@)
                    && l@.wf() && l@.period == 0 && ids_are_fresh(
                    unnumbered_journal(statements_view(statements@)),
                    l@.journal,
                ),
                Err(e) => execute(statements_view(statements@)) == Err::<LedgerView, LedgerError>(e),
            },
    {
        let mut l = Ledger::new();
        match l.exec_statements(&statements) {
            Ok(()) => {},
            Err(e) => {
                return Err(e);
            },
        }
        let ghost run = l@;
        complete_multi_docs(&mut l.journal, &l.docs);
        sort_by_date(&mut l.journal);
        match number_entries(&mut l.journal) {
            Ok(()) => {},
            Err(e) => {
                return Err(e);
            },
        }
        match l.chart.calculate_sums(l.l_index, Ghost(1)) {
            Ok(()) => {},
            Err(e) => {
                return Err(e);
            },
        }
        let ghost summed = l@;
        match l.chart.populate_account_transactions(&l.journal, Ghost(1)) {
            Ok(()) => {},
            Err(e) => {
                return Err(e);
            },
        }
        proof {
            assert(l@ =~= finalize(run)->Ok_0);
            lemma_totals_kept_with_postings(summed.chart, l@.chart.accounts, 0, 1);
            assert(l@.totals_hold_everywhere()) by {
                assert forall|p: int| 0 <= p <= l@.period implies #[trigger] all_totals_hold(
                    l@.chart.accounts,
                    p,
                ) by {}
            }
        }
        Ok(l)
    }

    /// Reads a source text and executes its statements.
    pub fn from_string(source: String) -> (r: Result<Ledger, LedgerError>)
        ensures
            match r {
                Ok(l) => ledger_of_source(source@) == Ok::<LedgerView, LedgerError>(l@) && l@.wf()
                    && l@.period == 0 && ids_are_fresh(
                    unnumbered_journal(statements_of_source(source@)->Ok_0),
                    l@.journal,
                ),
                Err(e) => ledger_of_source(source@) == Err::<LedgerView, LedgerError>(e),
            },
    {
        match read_statements(source.as_str()) {
            Ok(statements) => Ledger::exec(statements),
            Err(e) => Err(e),
        }
    }

    /// Executes the statements of one more period.
    pub fn add_comparison(&mut self, statements: &Vec<SStatement>) -> (r: Result<(), LedgerError>)
        requires
            old(self)@.wf(),
        ensures
            match r {
                Ok(()) => extend(old(self)@, statements_view(statements@)) == Ok::<
                    LedgerView,
                    LedgerError,
                >(final(self)@) && final(self)@.wf() && final(self)@.period == old(self)@.period + 1
                    && same_before(
                    old(self)@.chart.accounts,
                    final(self)@.chart.accounts,
                    old(self)@.period as int + 1,
                ) && final(self)@.journal == old(self)@.journal && final(self)@.options.len()
                    == old(self)@.options.len() + 1 && (forall|q: int|
                    0 <= q < old(self)@.options.len() ==> #[trigger] final(self)@.options[q]
                        == old(self)@.options[q]),
                Err(e) => extend(old(self)@, statements_view(statements@)) == Err::<
                    LedgerView,
                    LedgerError,
                >(e) && final(self)@ == old(self)@,
            },
    {
        let ghost start = self@;
        let ghost all = statements_view(statements@);
        if self.l_index >= usize::MAX - 1 {
            return Err(LedgerError::JournalTooLong);
        }
        let mut budget = false;
        let mut i: usize = 0;
        while i < statements.len()
            invariant
                i <= statements.len(),
                all == statements_view(statements@),
                budget <==> exists|k: int|
                    0 <= k < i && #[trigger] all[k] == SStatementView::Section(SectionType::Budget),
            decreases statements.len() - i,
        {
            assert(all[i as int] == statements@[i as int]@);
            match &statements[i] {
                SStatement::Section(section) => {
                    if *section == SectionType::Budget {
                        budget = true;
                    }
                },
                SStatement::Block(h, b) => {
                    proof {
                        lemma_scope_view(*h, *b);
                    }
                },
                SStatement::Account(n, name, subs, t) => {
                    proof {
                        lemma_account_view(*n, *name, *subs, *t);
                    }
                },
                _ => {},
            }
            i = i + 1;
        }
        assert(budget == opens_budget(all));
        let mut work = self.duplicate();
        let lt = self.ledger_type;
        work.comp_ledger_types.push(if budget { LedgerType::Budget } else { LedgerType::Main });
        work.l_index = work.l_index + 1;
        work.options.push(Vec::new());
        work.chart.add_period(Ghost(start.period as int + 1));
        let ghost added = work@;
        proof {
            assert(texts_view(work.options@[work.options.len() - 1]@) =~= Seq::<
                (Seq<char>, Seq<char>),
            >::empty());
            assert(added.options =~= start.options.push(Seq::empty()));
            assert(added =~= with_comparison(start, budget));
        }
        match work.exec_statements(statements) {
            Ok(()) => {},
            Err(e) => {
                return Err(e);
            },
        }
        let ghost run = work@;
        match work.chart.calculate_sums(work.l_index, Ghost(start.period as int + 2)) {
            Ok(()) => {},
            Err(e) => {
                return Err(e);
            },
        }
        work.ledger_type = lt;
        proof {
            let end = work@;
            let p = start.period + 1;
            assert(end =~= extend(start, all)->Ok_0);
            lemma_same_but_totals_before(run.chart.accounts, end.chart.accounts, p as int);
            lemma_same_before_trans(
                added.chart.accounts,
                run.chart.accounts,
                end.chart.accounts,
                p as int,
            );
            lemma_same_before_trans(
                start.chart.accounts,
                added.chart.accounts,
                end.chart.accounts,
                p as int,
            );
            assert forall|q: int| 0 <= q <= end.period implies #[trigger] all_totals_hold(
                end.chart.accounts,
                q,
            ) by {
                if q < p {
                    assert(all_totals_hold(start.chart.accounts, q));
                    lemma_totals_kept(start.chart, end.chart.accounts, p as int, q, p as int);
                }
            }
        }
        *self = work;
        Ok(())
    }

    /// Reads the source text of one more period and executes it. If the
    /// source is rejected, the ledger stays as it was.
    pub fn add_comparison_from_str(&mut self, s: &str) -> (r: Result<(), LedgerError>)
        requires
            old(self)@.wf(),
        ensures
            match r {
                Ok(()) => extend_from_source(old(self)@, s@) == Ok::<LedgerView, LedgerError>(
                    final(self)@,
                ) && final(self)@.wf() && final(self)@.period == old(self)@.period + 1
                    && same_before(
                    old(self)@.chart.accounts,
                    final(self)@.chart.accounts,
                    old(self)@.period as int + 1,
                ) && final(self)@.journal == old(self)@.journal && final(self)@.options.len()
                    == old(self)@.options.len() + 1 && (forall|q: int|
                    0 <= q < old(self)@.options.len() ==> #[trigger] final(self)@.options[q]
                        == old(self)@.options[q]),
                Err(e) => extend_from_source(old(self)@, s@) == Err::<LedgerView, LedgerError>(e)
                    && final(self)@ == old(self)@,
            },
    {
        match read_statements(s) {
            Ok(statements) => self.add_comparison(&statements),
            Err(e) => Err(e),
        }
    }
}

} // verus!

verus! {

/// The sum of an amount and the recursive debits (or credits) in period
/// `p` of the top-level accounts of the income statement from position
/// `k` on, added one after the other; every partial sum must stay in
/// range.
pub open spec fn income_sum(
    accounts: Seq<AccountView>,
    roots: Seq<usize>,
    k: int,
    p: int,
    debit: bool,
    sum: i32,
) -> Result<i32, LedgerError>
    decreases roots.len() - k,
{
    if k < 0 || k >= roots.len() {
        Ok(sum)
    } else {
        let a = accounts[roots[k] as int];
        if a.t == AccountType::IncomeStatement {
            let v = sum + if debit {
                a.rec_debits[p]
            } else {
                a.rec_credits[p]
            };
            if v > i32::MAX || v < i32::MIN {
                Err(LedgerError::AmountOverflow)
            } else {
                income_sum(accounts, roots, k + 1, p, debit, v as i32)
            }
        } else {
            income_sum(accounts, roots, k + 1, p, debit, sum)
        }
    }
}

/// The result of the periods from `p` on: for each period the debits
/// and the credits of the income statement.
pub open spec fn period_results(accounts: Seq<AccountView>, roots: Seq<usize>, periods: int, p: int) -> Result<
    Seq<(i32, i32)>,
    LedgerError,
>
    decreases periods - p,
{
    if p < 0 || p >= periods {
        Ok(Seq::empty())
    } else {
        match income_sum(accounts, roots, 0, p, true, 0) {
            Err(e) => Err(e),
            Ok(d) => match income_sum(accounts, roots, 0, p, false, 0) {
                Err(e) => Err(e),
                Ok(c) => crate::semantic::cons((d, c), period_results(accounts, roots, periods, p + 1)),
            },
        }
    }
}

impl Ledger {
    /// The journal.
    pub fn ledger(&self) -> (r: Vec<Transaction>)
        ensures
            journal_view(r@) == self@.journal,
    {
        clone_journal(&self.journal)
    }

    /// The top-level accounts.
    pub fn accounts(&self) -> (r: Vec<Account>)
        requires
            self@.inv(),
        ensures
            r.len() == self@.chart.roots.len(),
            forall|i: int|
                0 <= i < r.len() ==> (#[trigger] r@[i])@ == self@.chart.accounts[self@.chart.roots[i] as int],
    {
        let mut r: Vec<Account> = Vec::new();
        let mut i: usize = 0;
        while i < self.chart.roots.len()
            invariant
                i <= self.chart.roots.len(),
                self@.inv(),
                r.len() == i,
                forall|k: int|
                    0 <= k < i ==> (#[trigger] r@[k])@ == self@.chart.accounts[self@.chart.roots[k] as int],
            decreases self.chart.roots.len() - i,
        {
            let id = self.chart.roots[i];
            assert(id == self@.chart.roots[i as int]);
            assert(self@.chart.accounts[id as int] == self.chart.accounts@[id as int]@);
            r.push(self.chart.accounts[id].clone());
            i = i + 1;
        }
        r
    }

    /// The positions of the top-level accounts in the chart.
    pub fn roots(&self) -> (r: Vec<usize>)
        ensures
            r@ == self@.chart.roots,
    {
        crate::account::copy_positions(&self.chart.roots)
    }

    /// All accounts of the chart; sub-accounts are positions in it.
    pub fn all_accounts(&self) -> (r: Vec<Account>)
        ensures
            accounts_view(r@) == self@.chart.accounts,
    {
        clone_accounts(&self.chart.accounts)
    }

    /// The account that a number leads to.
    pub fn get_account(&self, account_n: i32) -> (r: Option<Account>)
        requires
            self@.inv(),
        ensures
            match r {
                Some(a) => self@.chart.index.contains_key(account_n) && a@
                    == self@.chart.accounts[self@.chart.index[account_n] as int],
                None => !self@.chart.index.contains_key(account_n),
            },
    {
        assert(vstd::std_specs::hash::obeys_key_model::<i32>());
        match self.chart.index.get(&account_n) {
            Some(id) => {
                assert(self@.chart.index.contains_key(account_n));
                assert(self@.chart.index[account_n] == *id);
                assert(*id < self@.chart.accounts.len());
                assert(self@.chart.accounts[*id as int] == self.chart.accounts@[*id as int]@);
                Some(self.chart.accounts[*id].clone())
            },
            None => None,
        }
    }

    /// The chart as the text of an account map.
    pub fn account_map_string(&self) -> (r: String)
        requires
            self@.inv(),
        ensures
            r@ == chart_text(self@.chart.accounts, self@.chart.roots, 0),
    {
        self.chart.account_map_string(Ghost(self@.period as int + 1))
    }

    /// The declaration of the account at position `id` and of its
    /// sub-accounts, as the account map is written.
    pub fn account_string(&self, id: usize, top_level: bool, indent_level: usize) -> (r: String)
        requires
            self@.inv(),
            id < self@.chart.accounts.len(),
        ensures
            r@ == account_text(self@.chart.accounts, id as int, top_level, indent_level as nat),
    {
        self.chart.as_string(id, top_level, indent_level, Ghost(self@.period as int + 1))
    }

    /// What the ledger is used for.
    pub fn ledger_type(&self) -> (r: LedgerType)
        ensures
            r == self@.ledger_type,
    {
        self.ledger_type
    }

    /// Says what the ledger is used for.
    pub fn set_ledger_type(&mut self, ledger_type: LedgerType)
        ensures
            final(self)@ == (LedgerView { ledger_type, ..old(self)@ }),
    {
        self.ledger_type = ledger_type;
    }

    /// For each period whether its source is a budget.
    pub fn comp_ledger_types(&self) -> (r: Vec<LedgerType>)
        ensures
            r@ == self@.comp_ledger_types,
    {
        let mut r: Vec<LedgerType> = Vec::new();
        let mut k: usize = 0;
        while k < self.comp_ledger_types.len()
            invariant
                k <= self.comp_ledger_types.len(),
                r@ == self.comp_ledger_types@.take(k as int),
            decreases self.comp_ledger_types.len() - k,
        {
            r.push(self.comp_ledger_types[k]);
            proof {
                assert(self.comp_ledger_types@.take(k + 1) =~= self.comp_ledger_types@.take(
                    k as int,
                ).push(self.comp_ledger_types@[k as int]));
            }
            k = k + 1;
        }
        proof {
            assert(self.comp_ledger_types@.take(k as int) =~= self.comp_ledger_types@);
        }
        r
    }

    /// The period that was added last; periods are counted from 0.
    pub fn period(&self) -> (r: usize)
        ensures
            r == self@.period,
    {
        self.l_index
    }

    /// The year that dates without a year take.
    pub fn year(&self) -> (r: i32)
        ensures
            r == self@.year,
    {
        self.year
    }

    /// The value of an option of a period.
    pub fn option(&self, period: usize, key: &str) -> (r: Option<String>)
        ensures
            option_text(r) == (if period < self@.options.len() {
                option_value(self@.options[period as int], key@)
            } else {
                None
            }),
    {
        if period >= self.options.len() {
            return None;
        }
        let table = &self.options[period];
        let wanted = String::from_str(key);
        let ghost all = texts_view(table@);
        assert(self@.options[period as int] == all);
        let mut j: usize = table.len();
        proof {
            assert(all.take(j as int) =~= all);
        }
        while j > 0
            invariant
                j <= table.len(),
                period < self@.options.len(),
                self@.options[period as int] == all,
                all == texts_view(table@),
                wanted@ == key@,
                option_value(all, key@) == option_value(all.take(j as int), key@),
            decreases j,
        {
            proof {
                assert(all.take(j as int).drop_last() =~= all.take(j - 1));
                assert(all.take(j as int).last() == all[j - 1]);
                assert(all[j - 1].0 == table@[j - 1].0@);
                assert(all[j - 1].1 == table@[j - 1].1@);
            }
            if table[j - 1].0 == wanted {
                return Some(table[j - 1].1.clone());
            }
            j = j - 1;
        }
        None
    }

    /// The result of each period: the recursive debits and credits of
    /// the top-level accounts of the income statement, summed.
    pub fn period_result(&self) -> (r: Result<Vec<(i32, i32)>, LedgerError>)
        requires
            self@.inv(),
        ensures
            match r {
                Ok(v) => period_results(
                    self@.chart.accounts,
                    self@.chart.roots,
                    self@.period as int + 1,
                    0,
                ) == Ok::<Seq<(i32, i32)>, LedgerError>(v@),
                Err(e) => period_results(
                    self@.chart.accounts,
                    self@.chart.roots,
                    self@.period as int + 1,
                    0,
                ) == Err::<Seq<(i32, i32)>, LedgerError>(e),
            },
    {
        let ghost accounts = self@.chart.accounts;
        let ghost roots = self@.chart.roots;
        let periods = self.l_index + 1;
        let mut out: Vec<(i32, i32)> = Vec::new();
        let mut p: usize = 0;
        proof {
            match period_results(accounts, roots, periods as int, 0) {
                Ok(rest) => {
                    assert(out@ + rest =~= rest);
                },
                Err(_) => {},
            }
        }
        while p < periods
            invariant
                p <= periods,
                periods == self@.period + 1,
                self@.inv(),
                accounts == self@.chart.accounts,
                roots == self@.chart.roots,
                match period_results(accounts, roots, periods as int, p as int) {
                    Ok(rest) => period_results(accounts, roots, periods as int, 0) == Ok::<
                        Seq<(i32, i32)>,
                        LedgerError,
                    >(out@ + rest),
                    Err(e) => period_results(accounts, roots, periods as int, 0) == Err::<
                        Seq<(i32, i32)>,
                        LedgerError,
                    >(e),
                },
            decreases periods - p,
        {
            let mut d: i32 = 0;
            let mut c: i32 = 0;
            let mut k: usize = 0;
            let mut d_failed = false;
            let mut c_failed = false;
            while k < self.chart.roots.len()
                invariant
                    k <= self.chart.roots.len(),
                    p < periods,
                    periods == self@.period + 1,
                    self@.inv(),
                    accounts == self@.chart.accounts,
                    roots == self@.chart.roots,
                    !d_failed ==> income_sum(accounts, roots, 0, p as int, true, 0) == income_sum(
                        accounts,
                        roots,
                        k as int,
                        p as int,
                        true,
                        d,
                    ),
                    d_failed ==> income_sum(accounts, roots, 0, p as int, true, 0) == Err::<
                        i32,
                        LedgerError,
                    >(LedgerError::AmountOverflow),
                    !c_failed ==> income_sum(accounts, roots, 0, p as int, false, 0) == income_sum(
                        accounts,
                        roots,
                        k as int,
                        p as int,
                        false,
                        c,
                    ),
                    c_failed ==> income_sum(accounts, roots, 0, p as int, false, 0) == Err::<
                        i32,
                        LedgerError,
                    >(LedgerError::AmountOverflow),
                decreases self.chart.roots.len() - k,
            {
                let id = self.chart.roots[k];
                assert(id == roots[k as int]);
                assert(accounts[id as int] == self.chart.accounts@[id as int]@);
                assert(accounts[id as int].has_periods(periods as int));
                let account = &self.chart.accounts[id];
                if account.t == AccountType::IncomeStatement {
                    if !d_failed {
                        match d.checked_add(account.rec_debits[p]) {
                            Some(v) => {
                                d = v;
                            },
                            None => {
                                d_failed = true;
                            },
                        }
                    }
                    if !c_failed {
                        match c.checked_add(account.rec_credits[p]) {
                            Some(v) => {
                                c = v;
                            },
                            None => {
                                c_failed = true;
                            },
                        }
                    }
                }
                k = k + 1;
            }
            if d_failed || c_failed {
                return Err(LedgerError::AmountOverflow);
            }
            proof {
                match period_results(accounts, roots, periods as int, p + 1) {
                    Ok(rest) => {
                        assert(out@ + (seq![(d, c)] + rest) =~= out@.push((d, c)) + rest);
                    },
                    Err(_) => {},
                }
            }
            out.push((d, c));
            p = p + 1;
        }
        proof {
            assert(out@ + Seq::<(i32, i32)>::empty() =~= out@);
        }
        Ok(out)
    }
}

} // verus!

verus! {

/// In every period of a ledger, the recursive debits of an account are
/// its own debits plus the recursive debits of its sub-accounts, and so
/// for the credits.
pub proof fn lemma_recursive_totals(l: LedgerView, a: int, p: int)
    requires
        l.wf(),
        0 <= a < l.chart.accounts.len(),
        0 <= p <= l.period,
    ensures
        l.chart.accounts[a].rec_debits[p] == l.chart.accounts[a].debits[p] + sub_total(
            l.chart.accounts,
            l.chart.accounts[a].sub_accounts,
            0,
            p,
            true,
        ),
        l.chart.accounts[a].rec_credits[p] == l.chart.accounts[a].credits[p] + sub_total(
            l.chart.accounts,
            l.chart.accounts[a].sub_accounts,
            0,
            p,
            false,
        ),
        l.chart.accounts[a].has_periods(l.period as int + 1),
{
    assert(all_totals_hold(l.chart.accounts, p));
    assert(totals_hold(l.chart.accounts, a, p));
}

/// A transaction of the first period with exactly one placeholder joins
/// the journal with one entry for each amount that is written, in the
/// order written and under the account it is written under. Every
/// written amount is kept, the placeholder takes the negated sum of the
/// written amounts, the amounts sum to zero, and as much is added to the
/// debits of all accounts as to their credits.
pub proof fn lemma_placeholder_transaction(
    l: LedgerView,
    date: Option<Date>,
    description: Seq<char>,
    entries: Seq<SEntryView>,
    doc: Option<Seq<char>>,
)
    requires
        l.inv(),
        l.period == 0,
        placeholders(written_amounts(entries, 0)) == 1,
        transact(l, date, description, entries, doc, false) is Ok,
    ensures
        ({
            let after = transact(l, date, description, entries, doc, false)->Ok_0;
            let posted = after.journal.last().entries;
            let written = written_amounts(entries, 0);
            let accounts = written_accounts(entries, collapse(l.scopes).aliases, 0);
            &&& after.journal.len() == l.journal.len() + 1
            &&& posted.len() == written.len()
            &&& accounts.len() == written.len()
            &&& forall|j: int| 0 <= j < written.len() ==> (#[trigger] posted[j]).0 == accounts[j]
            &&& forall|j: int|
                0 <= j < written.len() ==> (#[trigger] posted[j]).1 == (match written[j] {
                    SAuto::Val(n) => n as int,
                    SAuto::Auto => -stated_sum(written),
                })
            &&& entries_sum(posted) == 0
            &&& all_debits(after.chart.accounts, 0) - all_debits(l.chart.accounts, 0)
                == all_credits(after.chart.accounts, 0) - all_credits(l.chart.accounts, 0)
        }),
{
    let scope = collapse(l.scopes);
    let resolved = resolved_entries(entries, scope, false)->Ok_0;
    lemma_auto_entry_balances(entries, scope, false);
    lemma_posting_balances(l.chart, resolved, 0, 1);
}

/// One more period leaves what the earlier periods hold as it is, and
/// every account has an amount for every period.
pub proof fn lemma_comparison_keeps_earlier_periods(
    l: LedgerView,
    after: LedgerView,
    a: int,
    p: int,
)
    requires
        l.wf(),
        after.wf(),
        after.period == l.period + 1,
        same_before(l.chart.accounts, after.chart.accounts, l.period as int + 1),
        0 <= a < l.chart.accounts.len(),
        0 <= p <= l.period,
    ensures
        after.chart.accounts.len() == l.chart.accounts.len(),
        after.chart.accounts[a].debits[p] == l.chart.accounts[a].debits[p],
        after.chart.accounts[a].credits[p] == l.chart.accounts[a].credits[p],
        after.chart.accounts[a].rec_debits[p] == l.chart.accounts[a].rec_debits[p],
        after.chart.accounts[a].rec_credits[p] == l.chart.accounts[a].rec_credits[p],
        after.chart.accounts[a].has_periods(l.period as int + 2),
{
    assert(same_account_before(l.chart.accounts[a], after.chart.accounts[a], l.period as int + 1));
    assert(l.chart.accounts[a].has_periods(l.period as int + 1));
}

} // verus!
