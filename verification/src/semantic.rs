//! The semantic analyser: the untyped tree to typed statements, by the
//! shape of each node's tokens and the section that is active.

use vstd::prelude::*;
use crate::chars::uppercase;
use crate::date::Date;
use crate::error::LedgerError;
use crate::parser::{lemma_block_view, nodes_view, Node, NodeView};
use crate::token::{tokens_view, Token, TokenView};

verus! {

/// How an amount of a budget row is marked.
#[derive(Debug, Clone, Copy, PartialEq, Eq, Structural)]
pub enum EntryType {
    Debit,
    Credit,
    Unmarked,
}

/// The classification of an account. Accounts of the income statement
/// are the ones that are neither assets nor liabilities.
#[derive(Debug, Clone, Copy, PartialEq, Eq, Structural)]
pub enum AccountType {
    Assets,
    LiabilitiesTopLevel,
    Liabilities,
    IncomeStatement,
}

/// The mode in which statements are read.
#[derive(Debug, Clone, Copy, PartialEq, Eq, Structural)]
pub enum SectionType {
    Ledger,
    AccountMap,
    Budget,
    Options,
}

/// An amount, or the placeholder for the amount that balances the
/// transaction.
#[derive(Debug, PartialEq, Eq)]
pub enum SAuto<T> {
    Val(T),
    Auto,
}

/// An account, by its number as written or by an alias.
#[derive(Debug, PartialEq, Eq)]
pub enum SAccount {
    N(i32),
    Alias(String),
}

/// An account as written, as a mathematical value.
pub enum SAccountView {
    N(i32),
    Alias(Seq<char>),
}

impl View for SAccount {
    type V = SAccountView;

    open spec fn view(&self) -> SAccountView {
        match self {
            SAccount::N(n) => SAccountView::N(*n),
            SAccount::Alias(s) => SAccountView::Alias(s@),
        }
    }
}

/// One entry of a transaction: an account and the amounts posted to it.
#[derive(Debug, PartialEq, Eq)]
pub struct SEntry {
    pub account: SAccount,
    pub amounts: Vec<SAuto<i32>>,
}

/// An entry as a mathematical value.
pub struct SEntryView {
    pub account: SAccountView,
    pub amounts: Seq<SAuto<i32>>,
}

impl View for SEntry {
    type V = SEntryView;

    open spec fn view(&self) -> SEntryView {
        SEntryView { account: self.account@, amounts: self.amounts@ }
    }
}

/// The views of a sequence of entries.
pub open spec fn entries_view(s: Seq<SEntry>) -> Seq<SEntryView> {
    Seq::new(s.len(), |i: int| s[i]@)
}

/// The binding of an alias to an account number, or of an option to a text.
#[derive(Debug, PartialEq, Eq)]
pub enum SExpression {
    Alias(String, i32),
    Definition(String, String),
}

/// A binding as a mathematical value.
pub enum SExpressionView {
    Alias(Seq<char>, i32),
    Definition(Seq<char>, Seq<char>),
}

impl View for SExpression {
    type V = SExpressionView;

    open spec fn view(&self) -> SExpressionView {
        match self {
            SExpression::Alias(i, n) => SExpressionView::Alias(i@, *n),
            SExpression::Definition(k, v) => SExpressionView::Definition(k@, v@),
        }
    }
}

/// What a scope block sets for the statements in it.
#[derive(Debug, PartialEq, Eq)]
pub enum SHeader {
    Date { date: Date },
    AutoBalance { account: SAccount },
    Dummy,
}

/// The header of a scope block as a mathematical value.
pub enum SHeaderView {
    Date { date: Date },
    AutoBalance { account: SAccountView },
    Dummy,
}

impl View for SHeader {
    type V = SHeaderView;

    open spec fn view(&self) -> SHeaderView {
        match self {
            SHeader::Date { date } => SHeaderView::Date { date: *date },
            SHeader::AutoBalance { account } => SHeaderView::AutoBalance { account: account@ },
            SHeader::Dummy => SHeaderView::Dummy,
        }
    }
}

/// A typed statement.
#[derive(Debug, PartialEq, Eq)]
pub enum SStatement {
    Transaction { date: Option<Date>, description: String, entries: Vec<SEntry>, doc: Option<String> },
    Block(SHeader, Vec<SStatement>),
    Expression(SExpression),
    Section(SectionType),
    Account(Option<i32>, String, Vec<SStatement>, AccountType),
    BudgetEntry { account: SAccount, amounts: Vec<(i32, EntryType)> },
}

/// A statement as a mathematical value.
pub enum SStatementView {
    Transaction {
        date: Option<Date>,
        description: Seq<char>,
        entries: Seq<SEntryView>,
        doc: Option<Seq<char>>,
    },
    Block(SHeaderView, Seq<SStatementView>),
    Expression(SExpressionView),
    Section(SectionType),
    Account(Option<i32>, Seq<char>, Seq<SStatementView>, AccountType),
    BudgetEntry { account: SAccountView, amounts: Seq<(i32, EntryType)> },
}

/// The view of an optional text.
pub open spec fn option_text(o: Option<String>) -> Option<Seq<char>> {
    match o {
        Some(s) => Some(s@),
        None => None,
    }
}

/// A statement as a mathematical value.
pub open spec fn statement_view(s: SStatement) -> SStatementView
    decreases s,
{
    match s {
        SStatement::Transaction { date, description, entries, doc } => {
            SStatementView::Transaction {
                date,
                description: description@,
                entries: entries_view(entries@),
                doc: option_text(doc),
            }
        },
        SStatement::Block(h, body) => SStatementView::Block(
            h@,
            Seq::new(
                body.len() as nat,
                |i: int|
                    if 0 <= i < body.len() {
                        statement_view(body[i])
                    } else {
                        SStatementView::Section(SectionType::Ledger)
                    },
            ),
        ),
        SStatement::Expression(e) => SStatementView::Expression(e@),
        SStatement::Section(s) => SStatementView::Section(s),
        SStatement::Account(n, name, subs, t) => SStatementView::Account(
            n,
            name@,
            Seq::new(
                subs.len() as nat,
                |i: int|
                    if 0 <= i < subs.len() {
                        statement_view(subs[i])
                    } else {
                        SStatementView::Section(SectionType::Ledger)
                    },
            ),
            t,
        ),
        SStatement::BudgetEntry { account, amounts } => SStatementView::BudgetEntry {
            account: account@,
            amounts: amounts@,
        },
    }
}

impl View for SStatement {
    type V = SStatementView;

    open spec fn view(&self) -> SStatementView {
        statement_view(*self)
    }
}

/// The views of a sequence of statements.
pub open spec fn statements_view(s: Seq<SStatement>) -> Seq<SStatementView> {
    Seq::new(s.len(), |i: int| s[i]@)
}

/// The view of a scope block: the views of its header and of its statements.
pub proof fn lemma_scope_view(h: SHeader, body: Vec<SStatement>)
    ensures
        SStatement::Block(h, body)@ == SStatementView::Block(h@, statements_view(body@)),
{
    assert(SStatement::Block(h, body)@->Block_1 =~= statements_view(body@));
}

/// The view of an account declaration with the views of its sub-statements.
pub proof fn lemma_account_view(n: Option<i32>, name: String, subs: Vec<SStatement>, t: AccountType)
    ensures
        SStatement::Account(n, name, subs, t)@ == SStatementView::Account(
            n,
            name@,
            statements_view(subs@),
            t,
        ),
{
    assert(SStatement::Account(n, name, subs, t)@->Account_2 =~= statements_view(subs@));
}

/// The views of a sequence of statements with one more statement.
pub proof fn lemma_statements_view_push(s: Seq<SStatement>, x: SStatement)
    ensures
        statements_view(s.push(x)) == statements_view(s).push(x@),
{
    assert(statements_view(s.push(x)) =~= statements_view(s).push(x@));
}

// ---------------------------------------------------------------------
// The shapes of token sequences
// ---------------------------------------------------------------------

/// An account number as stored: the number as written, which is in
/// hundredths, divided by 100 towards zero.
pub open spec fn div100(n: i32) -> i32 {
    if n >= 0 {
        (n as int / 100) as i32
    } else {
        (-((-(n as int)) / 100)) as i32
    }
}

/// The section that a name in upper case selects: the account map, the
/// options or the budget by their names, and the ledger by any other.
pub open spec fn section_of_uppercase(u: Seq<char>) -> SectionType {
    if u == "TILIKARTTA"@ {
        SectionType::AccountMap
    } else if u == "TIEDOT"@ {
        SectionType::Options
    } else if u == "TALOUSARVIO"@ || u == "BUDJETTI"@ {
        SectionType::Budget
    } else {
        SectionType::Ledger
    }
}

/// The section that a name selects, whatever its case.
pub open spec fn section_named(name: Seq<char>) -> SectionType {
    section_of_uppercase(uppercase(name))
}

/// The statement that a list outside any transaction stands for, and the
/// section that is active after it.
pub open spec fn analyse_list(l: Seq<TokenView>, section: SectionType) -> Result<
    (SStatementView, SectionType),
    LedgerError,
> {
    if l.len() == 3 && l[0] is Identifier && l[1] is Assign && l[2] is Number {
        Ok(
            (
                SStatementView::Expression(
                    SExpressionView::Alias(l[0]->Identifier_0, l[2]->Number_0),
                ),
                section,
            ),
        )
    } else if l.len() == 3 && l[0] is Identifier && l[1] is Assign && l[2] is String {
        Ok(
            (
                SStatementView::Expression(
                    SExpressionView::Definition(l[0]->Identifier_0, l[2]->String_0),
                ),
                section,
            ),
        )
    } else if l.len() == 2 && l[0] is Section && l[1] is Identifier {
        let s = section_named(l[1]->Identifier_0);
        Ok((SStatementView::Section(s), s))
    } else if l.len() == 2 && l[0] is Number && l[1] is String {
        Ok(
            (
                SStatementView::Account(
                    Some(div100(l[0]->Number_0)),
                    l[1]->String_0,
                    Seq::empty(),
                    AccountType::IncomeStatement,
                ),
                section,
            ),
        )
    } else {
        Err(LedgerError::MalformedStatement)
    }
}

/// What the header of a block says the block is.
pub enum HeaderShape {
    /// A single date: a scope that sets the date.
    DateScope(Date),
    /// A description with an optional date and an optional document
    /// identifier: a transaction, or an account in the account map.
    Transaction(Option<Date>, Seq<char>, Option<Seq<char>>),
    /// `AUTO` and an account: a scope that sets the balancing account.
    AutoBalance(SAccountView),
    /// `AUTO` and anything else.
    BadAuto,
    /// No header: a scope that sets nothing.
    Dummy,
    /// An account with its number, name and classification.
    Account(Option<i32>, Seq<char>, AccountType),
    /// An account alone: a budget row.
    BudgetRow(SAccountView),
    /// None of these.
    Unknown,
}

/// The transaction that a date and a description head, whichever stands
/// first.
pub open spec fn dated_transaction(date: TokenView, description: TokenView) -> Option<
    HeaderShape,
> {
    if date is Date && description is String {
        Some(HeaderShape::Transaction(Some(date->Date_0), description->String_0, None))
    } else {
        None
    }
}

/// The transaction that a document identifier and a description head,
/// whichever stands first.
pub open spec fn documented_transaction(doc: TokenView, description: TokenView) -> Option<
    HeaderShape,
> {
    if doc is Identifier && description is String {
        Some(HeaderShape::Transaction(None, description->String_0, Some(doc->Identifier_0)))
    } else {
        None
    }
}

/// The transaction that a date, a description and a document identifier
/// head, in whatever order they stand.
pub open spec fn full_transaction(
    date: TokenView,
    description: TokenView,
    doc: TokenView,
) -> Option<HeaderShape> {
    if date is Date && description is String && doc is Identifier {
        Some(
            HeaderShape::Transaction(
                Some(date->Date_0),
                description->String_0,
                Some(doc->Identifier_0),
            ),
        )
    } else {
        None
    }
}

/// What a header says its block is, by its length and its tokens. A
/// description alone, with a date, with a document identifier or with
/// both, in any order, heads a transaction.
pub open spec fn header_shape(h: Seq<TokenView>) -> HeaderShape {
    if h.len() == 0 {
        HeaderShape::Dummy
    } else if h[0] is Auto {
        if h.len() == 2 && h[1] is Number {
            HeaderShape::AutoBalance(SAccountView::N(h[1]->Number_0))
        } else if h.len() == 2 && h[1] is Identifier {
            HeaderShape::AutoBalance(SAccountView::Alias(h[1]->Identifier_0))
        } else {
            HeaderShape::BadAuto
        }
    } else if h.len() == 1 {
        match h[0] {
            TokenView::Date(d) => HeaderShape::DateScope(d),
            TokenView::String(s) => HeaderShape::Transaction(None, s, None),
            TokenView::Number(n) => HeaderShape::BudgetRow(SAccountView::N(n)),
            TokenView::Identifier(i) => HeaderShape::BudgetRow(SAccountView::Alias(i)),
            _ => HeaderShape::Unknown,
        }
    } else if h.len() == 2 {
        if dated_transaction(h[0], h[1]) is Some {
            dated_transaction(h[0], h[1])->Some_0
        } else if dated_transaction(h[1], h[0]) is Some {
            dated_transaction(h[1], h[0])->Some_0
        } else if documented_transaction(h[0], h[1]) is Some {
            documented_transaction(h[0], h[1])->Some_0
        } else if documented_transaction(h[1], h[0]) is Some {
            documented_transaction(h[1], h[0])->Some_0
        } else {
            match (h[0], h[1]) {
                (TokenView::Number(n), TokenView::String(s)) => HeaderShape::Account(
                    Some(div100(n)),
                    s,
                    AccountType::IncomeStatement,
                ),
                (TokenView::Plus, TokenView::String(s)) => HeaderShape::Account(
                    None,
                    s,
                    AccountType::Assets,
                ),
                (TokenView::Minus, TokenView::String(s)) => HeaderShape::Account(
                    None,
                    s,
                    AccountType::LiabilitiesTopLevel,
                ),
                _ => HeaderShape::Unknown,
            }
        }
    } else if h.len() == 3 {
        if full_transaction(h[0], h[1], h[2]) is Some {
            full_transaction(h[0], h[1], h[2])->Some_0
        } else if full_transaction(h[0], h[2], h[1]) is Some {
            full_transaction(h[0], h[2], h[1])->Some_0
        } else if full_transaction(h[1], h[0], h[2]) is Some {
            full_transaction(h[1], h[0], h[2])->Some_0
        } else if full_transaction(h[1], h[2], h[0]) is Some {
            full_transaction(h[1], h[2], h[0])->Some_0
        } else if full_transaction(h[2], h[0], h[1]) is Some {
            full_transaction(h[2], h[0], h[1])->Some_0
        } else if full_transaction(h[2], h[1], h[0]) is Some {
            full_transaction(h[2], h[1], h[0])->Some_0
        } else {
            HeaderShape::Unknown
        }
    } else {
        HeaderShape::Unknown
    }
}

/// The negation of an amount, which the least amount does not have.
pub open spec fn negated(n: i32) -> Result<i32, LedgerError> {
    if n == i32::MIN {
        Err(LedgerError::AmountOverflow)
    } else {
        Ok((-n) as i32)
    }
}

/// The amount that a list in an entry stands for: a number, marked as
/// debit or not, is itself; marked as credit or with a minus sign it is
/// negated; `AUTO` is the placeholder.
pub open spec fn amount_of(l: Seq<TokenView>) -> Result<SAuto<i32>, LedgerError> {
    if l.len() == 1 && l[0] is Number {
        Ok(SAuto::Val(l[0]->Number_0))
    } else if l.len() == 1 && l[0] is Auto {
        Ok(SAuto::Auto)
    } else if l.len() == 2 && l[0] is Debit && l[1] is Number {
        Ok(SAuto::Val(l[1]->Number_0))
    } else if l.len() == 2 && l[0] is Number && l[1] is Debit {
        Ok(SAuto::Val(l[0]->Number_0))
    } else if l.len() == 2 && (l[0] is Minus || l[0] is Credit) && l[1] is Number {
        match negated(l[1]->Number_0) {
            Ok(n) => Ok(SAuto::Val(n)),
            Err(e) => Err(e),
        }
    } else if l.len() == 2 && l[0] is Number && l[1] is Credit {
        match negated(l[0]->Number_0) {
            Ok(n) => Ok(SAuto::Val(n)),
            Err(e) => Err(e),
        }
    } else {
        Err(LedgerError::InvalidAmount)
    }
}

/// The amount that a list in a budget row stands for, with its mark.
pub open spec fn budget_amount_of(l: Seq<TokenView>) -> Result<(i32, EntryType), LedgerError> {
    if l.len() == 1 && l[0] is Number {
        Ok((l[0]->Number_0, EntryType::Unmarked))
    } else if l.len() == 2 && l[0] is Minus && l[1] is Number {
        match negated(l[1]->Number_0) {
            Ok(n) => Ok((n, EntryType::Unmarked)),
            Err(e) => Err(e),
        }
    } else if l.len() == 2 && l[0] is Debit && l[1] is Number {
        Ok((l[1]->Number_0, EntryType::Debit))
    } else if l.len() == 2 && l[0] is Number && l[1] is Debit {
        Ok((l[0]->Number_0, EntryType::Debit))
    } else if l.len() == 2 && l[0] is Credit && l[1] is Number {
        Ok((l[1]->Number_0, EntryType::Credit))
    } else if l.len() == 2 && l[0] is Number && l[1] is Credit {
        Ok((l[0]->Number_0, EntryType::Credit))
    } else {
        Err(LedgerError::InvalidBudgetAmount)
    }
}

/// The account that heads an entry.
pub open spec fn entry_account(h: Seq<TokenView>) -> Result<SAccountView, LedgerError> {
    if h.len() == 1 && h[0] is Identifier {
        Ok(SAccountView::Alias(h[0]->Identifier_0))
    } else if h.len() == 1 && h[0] is Number {
        Ok(SAccountView::N(h[0]->Number_0))
    } else {
        Err(LedgerError::InvalidAccount)
    }
}

/// The sequence with one more element in front, unless it is an error.
pub open spec fn cons<T>(x: T, rest: Result<Seq<T>, LedgerError>) -> Result<Seq<T>, LedgerError> {
    match rest {
        Ok(s) => Ok(seq![x] + s),
        Err(e) => Err(e),
    }
}

/// The amounts of an entry from its child `i` on: each child is a list.
pub open spec fn amounts_of(b: Seq<NodeView>, i: int) -> Result<Seq<SAuto<i32>>, LedgerError>
    decreases b.len() - i,
{
    if i < 0 || i >= b.len() {
        Ok(Seq::empty())
    } else {
        match b[i] {
            NodeView::Block(_, _) => Err(LedgerError::ExpectedList),
            NodeView::List(l) => match amount_of(l) {
                Err(e) => Err(e),
                Ok(a) => cons(a, amounts_of(b, i + 1)),
            },
        }
    }
}

/// The amounts of a budget row from its child `i` on: each child is a list.
pub open spec fn budget_amounts_of(b: Seq<NodeView>, i: int) -> Result<
    Seq<(i32, EntryType)>,
    LedgerError,
>
    decreases b.len() - i,
{
    if i < 0 || i >= b.len() {
        Ok(Seq::empty())
    } else {
        match b[i] {
            NodeView::Block(_, _) => Err(LedgerError::UnexpectedBlock),
            NodeView::List(l) => match budget_amount_of(l) {
                Err(e) => Err(e),
                Ok(a) => cons(a, budget_amounts_of(b, i + 1)),
            },
        }
    }
}

/// The entry that a child of a transaction stands for: a block headed
/// by an account, with the amounts as its children; or a list of an
/// account and one amount.
pub open spec fn entry_of(n: NodeView) -> Result<SEntryView, LedgerError> {
    match n {
        NodeView::Block(h, c) => match entry_account(h) {
            Err(e) => Err(e),
            Ok(account) => match amounts_of(c, 0) {
                Err(e) => Err(e),
                Ok(amounts) => Ok(SEntryView { account, amounts }),
            },
        },
        NodeView::List(l) => if l.len() < 2 {
            Err(LedgerError::ExpectedBlock)
        } else {
            match entry_account(l.subrange(0, 1)) {
                Err(e) => Err(e),
                Ok(account) => match amount_of(l.subrange(1, l.len() as int)) {
                    Err(e) => Err(e),
                    Ok(a) => Ok(SEntryView { account, amounts: seq![a] }),
                },
            }
        },
    }
}

/// The entries of a transaction from its child `i` on.
pub open spec fn entries_of(b: Seq<NodeView>, i: int) -> Result<Seq<SEntryView>, LedgerError>
    decreases b.len() - i,
{
    if i < 0 || i >= b.len() {
        Ok(Seq::empty())
    } else {
        match entry_of(b[i]) {
            Err(e) => Err(e),
            Ok(entry) => cons(entry, entries_of(b, i + 1)),
        }
    }
}

/// The statement that a node stands for in the given section, and the
/// section that is active after it.
pub open spec fn analyse_node(n: NodeView, section: SectionType) -> Result<
    (SStatementView, SectionType),
    LedgerError,
>
    decreases n, 0nat,
{
    match n {
        NodeView::List(l) => analyse_list(l, section),
        NodeView::Block(h, body) => match header_shape(h) {
            HeaderShape::DateScope(date) => match analyse_nodes(body, 0, section) {
                Err(e) => Err(e),
                Ok((inner, s)) => Ok((SStatementView::Block(SHeaderView::Date { date }, inner), s)),
            },
            HeaderShape::Transaction(date, description, doc) => if section
                == SectionType::AccountMap {
                match analyse_nodes(body, 0, section) {
                    Err(e) => Err(e),
                    Ok((subs, s)) => Ok(
                        (
                            SStatementView::Account(
                                None,
                                description,
                                subs,
                                AccountType::IncomeStatement,
                            ),
                            s,
                        ),
                    ),
                }
            } else {
                match entries_of(body, 0) {
                    Err(e) => Err(e),
                    Ok(entries) => Ok(
                        (SStatementView::Transaction { date, description, entries, doc }, section),
                    ),
                }
            },
            HeaderShape::AutoBalance(account) => match analyse_nodes(body, 0, section) {
                Err(e) => Err(e),
                Ok((inner, s)) => Ok(
                    (SStatementView::Block(SHeaderView::AutoBalance { account }, inner), s),
                ),
            },
            HeaderShape::BadAuto => Err(LedgerError::InvalidAutoBalance),
            HeaderShape::Dummy => match analyse_nodes(body, 0, section) {
                Err(e) => Err(e),
                Ok((inner, s)) => Ok((SStatementView::Block(SHeaderView::Dummy, inner), s)),
            },
            HeaderShape::Account(number, name, t) => match analyse_nodes(body, 0, section) {
                Err(e) => Err(e),
                Ok((subs, s)) => Ok((SStatementView::Account(number, name, subs, t), s)),
            },
            HeaderShape::BudgetRow(account) => match budget_amounts_of(body, 0) {
                Err(e) => Err(e),
                Ok(amounts) => Ok((SStatementView::BudgetEntry { account, amounts }, section)),
            },
            HeaderShape::Unknown => Err(LedgerError::UnknownHeader),
        },
    }
}

/// The statements that the nodes from position `i` on stand for, read in
/// order, each in the section that the ones before it left active.
pub open spec fn analyse_nodes(ns: Seq<NodeView>, i: int, section: SectionType) -> Result<
    (Seq<SStatementView>, SectionType),
    LedgerError,
>
    decreases ns, ns.len() - i,
{
    if i < 0 || i >= ns.len() {
        Ok((Seq::empty(), section))
    } else {
        match analyse_node(ns[i], section) {
            Err(e) => Err(e),
            Ok((first, s)) => match analyse_nodes(ns, i + 1, s) {
                Err(e) => Err(e),
                Ok((rest, last)) => Ok((seq![first] + rest, last)),
            },
        }
    }
}

/// The statements of a tree, read from the ledger section on.
pub open spec fn analyse(tree: Seq<NodeView>) -> Result<
    (Seq<SStatementView>, SectionType),
    LedgerError,
> {
    analyse_nodes(tree, 0, SectionType::Ledger)
}

// ---------------------------------------------------------------------
// Executable code
// ---------------------------------------------------------------------

/// The header of a block, classified.
pub enum HeaderForm {
    DateScope(Date),
    Transaction(Option<Date>, String, Option<String>),
    AutoBalance(SAccount),
    BadAuto,
    Dummy,
    Account(Option<i32>, String, AccountType),
    BudgetRow(SAccount),
    Unknown,
}

impl View for HeaderForm {
    type V = HeaderShape;

    open spec fn view(&self) -> HeaderShape {
        match self {
            HeaderForm::DateScope(d) => HeaderShape::DateScope(*d),
            HeaderForm::Transaction(d, s, i) => HeaderShape::Transaction(*d, s@, option_text(*i)),
            HeaderForm::AutoBalance(a) => HeaderShape::AutoBalance(a@),
            HeaderForm::BadAuto => HeaderShape::BadAuto,
            HeaderForm::Dummy => HeaderShape::Dummy,
            HeaderForm::Account(n, s, t) => HeaderShape::Account(*n, s@, *t),
            HeaderForm::BudgetRow(a) => HeaderShape::BudgetRow(a@),
            HeaderForm::Unknown => HeaderShape::Unknown,
        }
    }
}

/// An account number as stored.
pub fn account_number(n: i32) -> (r: i32)
    ensures
        r == div100(n),
{
    n / 100
}

fn negate(n: i32) -> (r: Result<i32, LedgerError>)
    ensures
        r == negated(n),
{
    if n == i32::MIN {
        Err(LedgerError::AmountOverflow)
    } else {
        Ok(-n)
    }
}

/// The section that a name in upper case selects.
pub fn section_of_upper(upper: &str) -> (r: SectionType)
    ensures
        r == section_of_uppercase(upper@),
{
    let chars = crate::chars::chars_of(upper);
    if crate::chars::spells(&chars, "TILIKARTTA") {
        SectionType::AccountMap
    } else if crate::chars::spells(&chars, "TIEDOT") {
        SectionType::Options
    } else if crate::chars::spells(&chars, "TALOUSARVIO") || crate::chars::spells(
        &chars,
        "BUDJETTI",
    ) {
        SectionType::Budget
    } else {
        SectionType::Ledger
    }
}

/// The section that a name selects, whatever its case.
pub fn section_of_name(name: &str) -> (r: SectionType)
    ensures
        r == section_named(name@),
{
    let upper = name.to_uppercase();
    section_of_upper(upper.as_str())
}

/// Classifies the header of a block.
pub fn classify_header(h: &Vec<Token>) -> (r: HeaderForm)
    ensures
        r@ == header_shape(tokens_view(h@)),
{
    let ghost v = tokens_view(h@);
    let n = h.len();
    if n == 0 {
        return HeaderForm::Dummy;
    }
    assert(v[0] == h@[0]@);
    if let Token::Auto = &h[0] {
        if n == 2 {
            assert(v[1] == h@[1]@);
            return match &h[1] {
                Token::Number(k) => HeaderForm::AutoBalance(SAccount::N(*k)),
                Token::Identifier(i) => HeaderForm::AutoBalance(SAccount::Alias(i.clone())),
                _ => HeaderForm::BadAuto,
            };
        }
        return HeaderForm::BadAuto;
    }
    if n == 1 {
        match &h[0] {
            Token::Date(d) => HeaderForm::DateScope(*d),
            Token::String(s) => HeaderForm::Transaction(None, s.clone(), None),
            Token::Number(k) => HeaderForm::BudgetRow(SAccount::N(*k)),
            Token::Identifier(i) => HeaderForm::BudgetRow(SAccount::Alias(i.clone())),
            _ => HeaderForm::Unknown,
        }
    } else if n == 2 {
        assert(v[1] == h@[1]@);
        if let Some(r) = dated(&h[0], &h[1]) {
            return r;
        }
        if let Some(r) = dated(&h[1], &h[0]) {
            return r;
        }
        if let Some(r) = documented(&h[0], &h[1]) {
            return r;
        }
        if let Some(r) = documented(&h[1], &h[0]) {
            return r;
        }
        match &h[1] {
            Token::String(s) => match &h[0] {
                Token::Number(k) => HeaderForm::Account(
                    Some(account_number(*k)),
                    s.clone(),
                    AccountType::IncomeStatement,
                ),
                Token::Plus => HeaderForm::Account(None, s.clone(), AccountType::Assets),
                Token::Minus => HeaderForm::Account(
                    None,
                    s.clone(),
                    AccountType::LiabilitiesTopLevel,
                ),
                _ => HeaderForm::Unknown,
            },
            _ => HeaderForm::Unknown,
        }
    } else if n == 3 {
        assert(v[1] == h@[1]@);
        assert(v[2] == h@[2]@);
        if let Some(r) = full(&h[0], &h[1], &h[2]) {
            return r;
        }
        if let Some(r) = full(&h[0], &h[2], &h[1]) {
            return r;
        }
        if let Some(r) = full(&h[1], &h[0], &h[2]) {
            return r;
        }
        if let Some(r) = full(&h[1], &h[2], &h[0]) {
            return r;
        }
        if let Some(r) = full(&h[2], &h[0], &h[1]) {
            return r;
        }
        if let Some(r) = full(&h[2], &h[1], &h[0]) {
            return r;
        }
        HeaderForm::Unknown
    } else {
        HeaderForm::Unknown
    }
}

/// The view of an optional header form.
pub open spec fn option_shape(o: Option<HeaderForm>) -> Option<HeaderShape> {
    match o {
        Some(f) => Some(f@),
        None => None,
    }
}

fn dated(date: &Token, description: &Token) -> (r: Option<HeaderForm>)
    ensures
        option_shape(r) == dated_transaction(date@, description@),
{
    match date {
        Token::Date(d) => match description {
            Token::String(s) => Some(HeaderForm::Transaction(Some(*d), s.clone(), None)),
            _ => None,
        },
        _ => None,
    }
}

fn documented(doc: &Token, description: &Token) -> (r: Option<HeaderForm>)
    ensures
        option_shape(r) == documented_transaction(doc@, description@),
{
    match doc {
        Token::Identifier(i) => match description {
            Token::String(s) => Some(HeaderForm::Transaction(None, s.clone(), Some(i.clone()))),
            _ => None,
        },
        _ => None,
    }
}

fn full(date: &Token, description: &Token, doc: &Token) -> (r: Option<HeaderForm>)
    ensures
        option_shape(r) == full_transaction(date@, description@, doc@),
{
    match date {
        Token::Date(d) => match description {
            Token::String(s) => match doc {
                Token::Identifier(i) => Some(
                    HeaderForm::Transaction(Some(*d), s.clone(), Some(i.clone())),
                ),
                _ => None,
            },
            _ => None,
        },
        _ => None,
    }
}

/// The amount that a list in an entry stands for.
pub fn amount(l: &Vec<Token>) -> (r: Result<SAuto<i32>, LedgerError>)
    ensures
        r == amount_of(tokens_view(l@)),
{
    let ghost v = tokens_view(l@);
    if l.len() == 1 {
        assert(v[0] == l@[0]@);
        match &l[0] {
            Token::Number(n) => Ok(SAuto::Val(*n)),
            Token::Auto => Ok(SAuto::Auto),
            _ => Err(LedgerError::InvalidAmount),
        }
    } else if l.len() == 2 {
        assert(v[0] == l@[0]@);
        assert(v[1] == l@[1]@);
        match &l[0] {
            Token::Number(n) => match &l[1] {
                Token::Debit => Ok(SAuto::Val(*n)),
                Token::Credit => match negate(*n) {
                    Ok(m) => Ok(SAuto::Val(m)),
                    Err(e) => Err(e),
                },
                _ => Err(LedgerError::InvalidAmount),
            },
            Token::Debit => match &l[1] {
                Token::Number(n) => Ok(SAuto::Val(*n)),
                _ => Err(LedgerError::InvalidAmount),
            },
            Token::Minus => match &l[1] {
                Token::Number(n) => match negate(*n) {
                    Ok(m) => Ok(SAuto::Val(m)),
                    Err(e) => Err(e),
                },
                _ => Err(LedgerError::InvalidAmount),
            },
            Token::Credit => match &l[1] {
                Token::Number(n) => match negate(*n) {
                    Ok(m) => Ok(SAuto::Val(m)),
                    Err(e) => Err(e),
                },
                _ => Err(LedgerError::InvalidAmount),
            },
            _ => Err(LedgerError::InvalidAmount),
        }
    } else {
        Err(LedgerError::InvalidAmount)
    }
}

/// The amount that a list in a budget row stands for.
pub fn budget_amount(l: &Vec<Token>) -> (r: Result<(i32, EntryType), LedgerError>)
    ensures
        r == budget_amount_of(tokens_view(l@)),
{
    let ghost v = tokens_view(l@);
    if l.len() == 1 {
        assert(v[0] == l@[0]@);
        match &l[0] {
            Token::Number(n) => Ok((*n, EntryType::Unmarked)),
            _ => Err(LedgerError::InvalidBudgetAmount),
        }
    } else if l.len() == 2 {
        assert(v[0] == l@[0]@);
        assert(v[1] == l@[1]@);
        match &l[0] {
            Token::Number(n) => match &l[1] {
                Token::Debit => Ok((*n, EntryType::Debit)),
                Token::Credit => Ok((*n, EntryType::Credit)),
                _ => Err(LedgerError::InvalidBudgetAmount),
            },
            Token::Debit => match &l[1] {
                Token::Number(n) => Ok((*n, EntryType::Debit)),
                _ => Err(LedgerError::InvalidBudgetAmount),
            },
            Token::Credit => match &l[1] {
                Token::Number(n) => Ok((*n, EntryType::Credit)),
                _ => Err(LedgerError::InvalidBudgetAmount),
            },
            Token::Minus => match &l[1] {
                Token::Number(n) => match negate(*n) {
                    Ok(m) => Ok((m, EntryType::Unmarked)),
                    Err(e) => Err(e),
                },
                _ => Err(LedgerError::InvalidBudgetAmount),
            },
            _ => Err(LedgerError::InvalidBudgetAmount),
        }
    } else {
        Err(LedgerError::InvalidBudgetAmount)
    }
}

/// The typed statements of a source, and the section that is active at
/// its end.
#[derive(Debug)]
pub struct Semantic {
    pub statements: Vec<SStatement>,
    pub section: SectionType,
}

impl Semantic {
    /// Analyses a tree.
    pub fn from_parse_tree(parse_tree: Vec<Node>) -> (r: Result<Semantic, LedgerError>)
        ensures
            match r {
                Ok(sem) => analyse(nodes_view(parse_tree@)) == Ok::<
                    (Seq<SStatementView>, SectionType),
                    LedgerError,
                >((statements_view(sem.statements@), sem.section)),
                Err(e) => analyse(nodes_view(parse_tree@)) == Err::<
                    (Seq<SStatementView>, SectionType),
                    LedgerError,
                >(e),
            },
    {
        match Semantic::nodes(&parse_tree, SectionType::Ledger) {
            Ok((statements, section)) => Ok(Semantic { statements, section }),
            Err(e) => Err(e),
        }
    }

    /// Analyses nodes in order.
    pub fn nodes(ns: &Vec<Node>, section: SectionType) -> (r: Result<
        (Vec<SStatement>, SectionType),
        LedgerError,
    >)
        ensures
            match r {
                Ok((v, s)) => analyse_nodes(nodes_view(ns@), 0, section) == Ok::<
                    (Seq<SStatementView>, SectionType),
                    LedgerError,
                >((statements_view(v@), s)),
                Err(e) => analyse_nodes(nodes_view(ns@), 0, section) == Err::<
                    (Seq<SStatementView>, SectionType),
                    LedgerError,
                >(e),
            },
        decreases ns, 0nat,
    {
        let ghost all = nodes_view(ns@);
        let mut out: Vec<SStatement> = Vec::new();
        let mut current = section;
        let mut i: usize = 0;
        proof {
            assert(statements_view(out@) =~= Seq::<SStatementView>::empty());
            match analyse_nodes(all, 0, section) {
                Ok((rest, last)) => {
                    assert(statements_view(out@) + rest =~= rest);
                },
                Err(_) => {},
            }
        }
        while i < ns.len()
            invariant
                i <= ns.len(),
                all == nodes_view(ns@),
                match analyse_nodes(all, i as int, current) {
                    Ok((rest, last)) => analyse_nodes(all, 0, section) == Ok::<
                        (Seq<SStatementView>, SectionType),
                        LedgerError,
                    >((statements_view(out@) + rest, last)),
                    Err(e) => analyse_nodes(all, 0, section) == Err::<
                        (Seq<SStatementView>, SectionType),
                        LedgerError,
                    >(e),
                },
            decreases ns.len() - i,
        {
            assert(all[i as int] == ns@[i as int]@);
            let (statement, next) = match Semantic::node(&ns[i], current) {
                Ok(pair) => pair,
                Err(e) => {
                    return Err(e);
                },
            };
            proof {
                lemma_statements_view_push(out@, statement);
                match analyse_nodes(all, i + 1, next) {
                    Ok((rest, last)) => {
                        assert(statements_view(out@) + (seq![statement@] + rest)
                            =~= statements_view(out@).push(statement@) + rest);
                    },
                    Err(_) => {},
                }
            }
            out.push(statement);
            current = next;
            i = i + 1;
        }
        proof {
            assert(statements_view(out@) + Seq::<SStatementView>::empty() =~= statements_view(
                out@,
            ));
        }
        Ok((out, current))
    }

    /// Analyses one node.
    pub fn node(n: &Node, section: SectionType) -> (r: Result<
        (SStatement, SectionType),
        LedgerError,
    >)
        ensures
            match r {
                Ok((s, sec)) => analyse_node(n@, section) == Ok::<
                    (SStatementView, SectionType),
                    LedgerError,
                >((s@, sec)),
                Err(e) => analyse_node(n@, section) == Err::<
                    (SStatementView, SectionType),
                    LedgerError,
                >(e),
            },
        decreases n, 0nat,
    {
        match n {
            Node::List(l) => Semantic::list(l, section),
            Node::Block(h, body) => {
                proof {
                    lemma_block_view(*h, *body);
                }
                Semantic::block(h, body, section)
            },
        }
    }

    /// Analyses a list outside any transaction.
    pub fn list(l: &Vec<Token>, section: SectionType) -> (r: Result<
        (SStatement, SectionType),
        LedgerError,
    >)
        ensures
            match r {
                Ok((s, sec)) => analyse_list(tokens_view(l@), section) == Ok::<
                    (SStatementView, SectionType),
                    LedgerError,
                >((s@, sec)),
                Err(e) => analyse_list(tokens_view(l@), section) == Err::<
                    (SStatementView, SectionType),
                    LedgerError,
                >(e),
            },
    {
        let ghost v = tokens_view(l@);
        if l.len() == 3 {
            assert(v[0] == l@[0]@);
            assert(v[1] == l@[1]@);
            assert(v[2] == l@[2]@);
            if let Token::Identifier(ident) = &l[0] {
                if let Token::Assign = &l[1] {
                    match &l[2] {
                        Token::Number(n) => {
                            return Ok(
                                (
                                    SStatement::Expression(SExpression::Alias(ident.clone(), *n)),
                                    section,
                                ),
                            );
                        },
                        Token::String(s) => {
                            return Ok(
                                (
                                    SStatement::Expression(
                                        SExpression::Definition(ident.clone(), s.clone()),
                                    ),
                                    section,
                                ),
                            );
                        },
                        _ => {},
                    }
                }
            }
            Err(LedgerError::MalformedStatement)
        } else if l.len() == 2 {
            assert(v[0] == l@[0]@);
            assert(v[1] == l@[1]@);
            match &l[0] {
                Token::Section => match &l[1] {
                    Token::Identifier(ident) => {
                        let s = section_of_name(ident.as_str());
                        Ok((SStatement::Section(s), s))
                    },
                    _ => Err(LedgerError::MalformedStatement),
                },
                Token::Number(n) => match &l[1] {
                    Token::String(name) => {
                        let subs: Vec<SStatement> = Vec::new();
                        let statement = SStatement::Account(
                            Some(account_number(*n)),
                            name.clone(),
                            subs,
                            AccountType::IncomeStatement,
                        );
                        proof {
                            lemma_account_view(
                                Some(div100(*n)),
                                *name,
                                subs,
                                AccountType::IncomeStatement,
                            );
                            assert(statements_view(subs@) =~= Seq::<SStatementView>::empty());
                        }
                        Ok((statement, section))
                    },
                    _ => Err(LedgerError::MalformedStatement),
                },
                _ => Err(LedgerError::MalformedStatement),
            }
        } else {
            Err(LedgerError::MalformedStatement)
        }
    }

    /// Analyses a block, given its header and its children.
    pub fn block(h: &Vec<Token>, body: &Vec<Node>, section: SectionType) -> (r: Result<
        (SStatement, SectionType),
        LedgerError,
    >)
        ensures
            match r {
                Ok((s, sec)) => analyse_node(
                    NodeView::Block(tokens_view(h@), nodes_view(body@)),
                    section,
                ) == Ok::<(SStatementView, SectionType), LedgerError>((s@, sec)),
                Err(e) => analyse_node(
                    NodeView::Block(tokens_view(h@), nodes_view(body@)),
                    section,
                ) == Err::<(SStatementView, SectionType), LedgerError>(e),
            },
        decreases body, 3nat,
    {
        match classify_header(h) {
            HeaderForm::DateScope(date) => Semantic::scope(SHeader::Date { date }, body, section),
            HeaderForm::Transaction(date, description, doc) => Semantic::transaction(
                date,
                description,
                body,
                doc,
                section,
            ),
            HeaderForm::AutoBalance(account) => Semantic::scope(
                SHeader::AutoBalance { account },
                body,
                section,
            ),
            HeaderForm::BadAuto => Err(LedgerError::InvalidAutoBalance),
            HeaderForm::Dummy => Semantic::scope(SHeader::Dummy, body, section),
            HeaderForm::Account(number, name, t) => Semantic::account(
                number,
                name,
                body,
                t,
                section,
            ),
            HeaderForm::BudgetRow(account) => match Semantic::budget_row(account, body) {
                Ok(s) => Ok((s, section)),
                Err(e) => Err(e),
            },
            HeaderForm::Unknown => Err(LedgerError::UnknownHeader),
        }
    }

    /// A scope block: its children are statements.
    fn scope(header: SHeader, body: &Vec<Node>, section: SectionType) -> (r: Result<
        (SStatement, SectionType),
        LedgerError,
    >)
        ensures
            match r {
                Ok((s, sec)) => match analyse_nodes(nodes_view(body@), 0, section) {
                    Ok((inner, last)) => s@ == SStatementView::Block(header@, inner) && sec == last,
                    Err(_) => false,
                },
                Err(e) => analyse_nodes(nodes_view(body@), 0, section) == Err::<
                    (Seq<SStatementView>, SectionType),
                    LedgerError,
                >(e),
            },
        decreases body, 1nat,
    {
        match Semantic::nodes(body, section) {
            Ok((inner, last)) => {
                proof {
                    lemma_scope_view(header, inner);
                }
                let statement = SStatement::Block(header, inner);
                Ok((statement, last))
            },
            Err(e) => Err(e),
        }
    }

    /// A budget row: its children are amounts.
    pub fn budget_row(account: SAccount, body: &Vec<Node>) -> (r: Result<SStatement, LedgerError>)
        ensures
            match r {
                Ok(s) => match budget_amounts_of(nodes_view(body@), 0) {
                    Ok(amounts) => s@ == (SStatementView::BudgetEntry {
                        account: account@,
                        amounts,
                    }),
                    Err(_) => false,
                },
                Err(e) => budget_amounts_of(nodes_view(body@), 0) == Err::<
                    Seq<(i32, EntryType)>,
                    LedgerError,
                >(e),
            },
    {
        let ghost all = nodes_view(body@);
        let mut amounts: Vec<(i32, EntryType)> = Vec::new();
        let mut i: usize = 0;
        proof {
            match budget_amounts_of(all, 0) {
                Ok(rest) => {
                    assert(amounts@ + rest =~= rest);
                },
                Err(_) => {},
            }
        }
        while i < body.len()
            invariant
                i <= body.len(),
                all == nodes_view(body@),
                match budget_amounts_of(all, i as int) {
                    Ok(rest) => budget_amounts_of(all, 0) == Ok::<
                        Seq<(i32, EntryType)>,
                        LedgerError,
                    >(amounts@ + rest),
                    Err(e) => budget_amounts_of(all, 0) == Err::<
                        Seq<(i32, EntryType)>,
                        LedgerError,
                    >(e),
                },
            decreases body.len() - i,
        {
            assert(all[i as int] == body@[i as int]@);
            match &body[i] {
                Node::List(l) => {
                    let a = match budget_amount(l) {
                        Ok(a) => a,
                        Err(e) => {
                            return Err(e);
                        },
                    };
                    proof {
                        match budget_amounts_of(all, i + 1) {
                            Ok(rest) => {
                                assert(amounts@ + (seq![a] + rest) =~= amounts@.push(a) + rest);
                            },
                            Err(_) => {},
                        }
                    }
                    amounts.push(a);
                },
                Node::Block(h, c) => {
                    proof {
                        lemma_block_view(*h, *c);
                    }
                    return Err(LedgerError::UnexpectedBlock);
                },
            }
            i = i + 1;
        }
        proof {
            assert(amounts@ + Seq::<(i32, EntryType)>::empty() =~= amounts@);
        }
        Ok(SStatement::BudgetEntry { account, amounts })
    }

    /// An account declaration: its children are statements, of which the
    /// executor reads the accounts.
    fn account(
        number: Option<i32>,
        name: String,
        body: &Vec<Node>,
        account_type: AccountType,
        section: SectionType,
    ) -> (r: Result<(SStatement, SectionType), LedgerError>)
        ensures
            match r {
                Ok((s, sec)) => match analyse_nodes(nodes_view(body@), 0, section) {
                    Ok((subs, last)) => s@ == SStatementView::Account(
                        number,
                        name@,
                        subs,
                        account_type,
                    ) && sec == last,
                    Err(_) => false,
                },
                Err(e) => analyse_nodes(nodes_view(body@), 0, section) == Err::<
                    (Seq<SStatementView>, SectionType),
                    LedgerError,
                >(e),
            },
        decreases body, 1nat,
    {
        match Semantic::nodes(body, section) {
            Ok((subs, last)) => {
                proof {
                    lemma_account_view(number, name, subs, account_type);
                }
                let statement = SStatement::Account(number, name, subs, account_type);
                Ok((statement, last))
            },
            Err(e) => Err(e),
        }
    }

    /// A block headed by a description: a transaction, or in the account
    /// map an account without a number.
    fn transaction(
        date: Option<Date>,
        description: String,
        body: &Vec<Node>,
        doc: Option<String>,
        section: SectionType,
    ) -> (r: Result<(SStatement, SectionType), LedgerError>)
        ensures
            match r {
                Ok((s, sec)) => analyse_node(
                    NodeView::Block(
                        seq![TokenView::String(description@)],
                        nodes_view(body@),
                    ),
                    section,
                ) matches Ok((t, last)) && sec == last && (if section == SectionType::AccountMap {
                    s@ == t
                } else {
                    s@ == (SStatementView::Transaction {
                        date,
                        description: description@,
                        entries: t->entries,
                        doc: option_text(doc),
                    })
                }),
                Err(e) => analyse_node(
                    NodeView::Block(
                        seq![TokenView::String(description@)],
                        nodes_view(body@),
                    ),
                    section,
                ) == Err::<(SStatementView, SectionType), LedgerError>(e),
            },
        decreases body, 2nat,
    {
        if section == SectionType::AccountMap {
            Semantic::account(None, description, body, AccountType::IncomeStatement, section)
        } else {
            match Semantic::entries(body) {
                Ok(entries) => Ok(
                    (SStatement::Transaction { date, description, entries, doc }, section),
                ),
                Err(e) => Err(e),
            }
        }
    }

    /// The account that heads an entry.
    fn account_of_entry(t: &Token) -> (r: Result<SAccount, LedgerError>)
        ensures
            match r {
                Ok(a) => entry_account(seq![t@]) == Ok::<SAccountView, LedgerError>(a@),
                Err(e) => entry_account(seq![t@]) == Err::<SAccountView, LedgerError>(e),
            },
    {
        match t {
            Token::Identifier(ident) => Ok(SAccount::Alias(ident.clone())),
            Token::Number(n) => Ok(SAccount::N(*n)),
            _ => Err(LedgerError::InvalidAccount),
        }
    }

    /// One entry of a transaction.
    pub fn entry(n: &Node) -> (r: Result<SEntry, LedgerError>)
        ensures
            match r {
                Ok(entry) => entry_of(n@) == Ok::<SEntryView, LedgerError>(entry@),
                Err(e) => entry_of(n@) == Err::<SEntryView, LedgerError>(e),
            },
    {
        match n {
            Node::Block(h, b) => {
                proof {
                    lemma_block_view(*h, *b);
                }
                let ghost hv = tokens_view(h@);
                if h.len() != 1 {
                    return Err(LedgerError::InvalidAccount);
                }
                assert(hv =~= seq![h@[0]@]);
                let account = match Semantic::account_of_entry(&h[0]) {
                    Ok(a) => a,
                    Err(e) => {
                        return Err(e);
                    },
                };
                let amounts = match Semantic::amounts(b) {
                    Ok(a) => a,
                    Err(e) => {
                        return Err(e);
                    },
                };
                Ok(SEntry { account, amounts })
            },
            Node::List(l) => {
                let ghost lv = tokens_view(l@);
                if l.len() < 2 {
                    return Err(LedgerError::ExpectedBlock);
                }
                assert(lv.subrange(0, 1) =~= seq![l@[0]@]);
                let account = match Semantic::account_of_entry(&l[0]) {
                    Ok(a) => a,
                    Err(e) => {
                        return Err(e);
                    },
                };
                let mut rest: Vec<Token> = Vec::new();
                let mut k: usize = 1;
                proof {
                    assert(tokens_view(rest@) =~= lv.subrange(1, 1));
                }
                while k < l.len()
                    invariant
                        1 <= k <= l.len(),
                        lv == tokens_view(l@),
                        tokens_view(rest@) == lv.subrange(1, k as int),
                    decreases l.len() - k,
                {
                    let t = l[k].clone();
                    proof {
                        crate::token::lemma_tokens_view_push(rest@, t);
                        assert(lv.subrange(1, k + 1) =~= lv.subrange(1, k as int).push(t@));
                    }
                    rest.push(t);
                    k = k + 1;
                }
                let a = match amount(&rest) {
                    Ok(a) => a,
                    Err(e) => {
                        return Err(e);
                    },
                };
                let mut amounts: Vec<SAuto<i32>> = Vec::new();
                amounts.push(a);
                proof {
                    assert(amounts@ =~= seq![a]);
                }
                Ok(SEntry { account, amounts })
            },
        }
    }

    /// The entries of a transaction.
    pub fn entries(body: &Vec<Node>) -> (r: Result<Vec<SEntry>, LedgerError>)
        ensures
            match r {
                Ok(v) => entries_of(nodes_view(body@), 0) == Ok::<Seq<SEntryView>, LedgerError>(
                    entries_view(v@),
                ),
                Err(e) => entries_of(nodes_view(body@), 0) == Err::<Seq<SEntryView>, LedgerError>(
                    e,
                ),
            },
    {
        let ghost all = nodes_view(body@);
        let mut result: Vec<SEntry> = Vec::new();
        let mut i: usize = 0;
        proof {
            assert(entries_view(result@) =~= Seq::<SEntryView>::empty());
            match entries_of(all, 0) {
                Ok(rest) => {
                    assert(entries_view(result@) + rest =~= rest);
                },
                Err(_) => {},
            }
        }
        while i < body.len()
            invariant
                i <= body.len(),
                all == nodes_view(body@),
                match entries_of(all, i as int) {
                    Ok(rest) => entries_of(all, 0) == Ok::<Seq<SEntryView>, LedgerError>(
                        entries_view(result@) + rest,
                    ),
                    Err(e) => entries_of(all, 0) == Err::<Seq<SEntryView>, LedgerError>(e),
                },
            decreases body.len() - i,
        {
            assert(all[i as int] == body@[i as int]@);
            let entry = match Semantic::entry(&body[i]) {
                Ok(entry) => entry,
                Err(e) => {
                    return Err(e);
                },
            };
            proof {
                assert(entries_view(result@.push(entry)) =~= entries_view(result@).push(entry@));
                match entries_of(all, i + 1) {
                    Ok(rest) => {
                        assert(entries_view(result@) + (seq![entry@] + rest) =~= entries_view(
                            result@,
                        ).push(entry@) + rest);
                    },
                    Err(_) => {},
                }
            }
            result.push(entry);
            i = i + 1;
        }
        proof {
            assert(entries_view(result@) + Seq::<SEntryView>::empty() =~= entries_view(result@));
        }
        Ok(result)
    }

    /// The amounts of an entry.
    pub fn amounts(body: &Vec<Node>) -> (r: Result<Vec<SAuto<i32>>, LedgerError>)
        ensures
            match r {
                Ok(v) => amounts_of(nodes_view(body@), 0) == Ok::<Seq<SAuto<i32>>, LedgerError>(v@),
                Err(e) => amounts_of(nodes_view(body@), 0) == Err::<Seq<SAuto<i32>>, LedgerError>(
                    e,
                ),
            },
    {
        let ghost all = nodes_view(body@);
        let mut result: Vec<SAuto<i32>> = Vec::new();
        let mut i: usize = 0;
        proof {
            match amounts_of(all, 0) {
                Ok(rest) => {
                    assert(result@ + rest =~= rest);
                },
                Err(_) => {},
            }
        }
        while i < body.len()
            invariant
                i <= body.len(),
                all == nodes_view(body@),
                match amounts_of(all, i as int) {
                    Ok(rest) => amounts_of(all, 0) == Ok::<Seq<SAuto<i32>>, LedgerError>(
                        result@ + rest,
                    ),
                    Err(e) => amounts_of(all, 0) == Err::<Seq<SAuto<i32>>, LedgerError>(e),
                },
            decreases body.len() - i,
        {
            assert(all[i as int] == body@[i as int]@);
            match &body[i] {
                Node::List(l) => {
                    let a = match amount(l) {
                        Ok(a) => a,
                        Err(e) => {
                            return Err(e);
                        },
                    };
                    proof {
                        match amounts_of(all, i + 1) {
                            Ok(rest) => {
                                assert(result@ + (seq![a] + rest) =~= result@.push(a) + rest);
                            },
                            Err(_) => {},
                        }
                    }
                    result.push(a);
                },
                Node::Block(h, c) => {
                    proof {
                        lemma_block_view(*h, *c);
                    }
                    return Err(LedgerError::ExpectedList);
                },
            }
            i = i + 1;
        }
        proof {
            assert(result@ + Seq::<SAuto<i32>>::empty() =~= result@);
        }
        Ok(result)
    }
}

} // verus!
