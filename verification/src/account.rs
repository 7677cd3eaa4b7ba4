//! Accounts, journal entries and the postings of an account.

use vstd::prelude::*;
use crate::date::Date;
use crate::error::LedgerError;
use crate::semantic::AccountType;

verus! {

/// One journal entry: a date, a description, the amounts posted to
/// accounts, its position in the sorted journal and its document
/// identifier. A positive amount is a debit, a negative one a credit.
#[derive(Debug)]
pub struct Transaction {
    pub date: Date,
    pub description: String,
    pub entries: Vec<(i32, i32)>,
    pub n: i32,
    pub doc: String,
}

/// A journal entry as a mathematical value.
pub struct TransactionView {
    pub date: Date,
    pub description: Seq<char>,
    pub entries: Seq<(i32, i32)>,
    pub n: i32,
    pub doc: Seq<char>,
}

impl View for Transaction {
    type V = TransactionView;

    open spec fn view(&self) -> TransactionView {
        TransactionView {
            date: self.date,
            description: self.description@,
            entries: self.entries@,
            n: self.n,
            doc: self.doc@,
        }
    }
}

/// The views of the entries of a journal.
pub open spec fn journal_view(s: Seq<Transaction>) -> Seq<TransactionView> {
    Seq::new(s.len(), |i: int| s[i]@)
}

/// The view of a journal with one more entry.
pub proof fn lemma_journal_view_push(s: Seq<Transaction>, t: Transaction)
    ensures
        journal_view(s.push(t)) == journal_view(s).push(t@),
{
    assert(journal_view(s.push(t)) =~= journal_view(s).push(t@));
}

/// One posting to an account: the journal entry it comes from and the
/// amount.
#[derive(Debug)]
pub struct AccTransaction {
    pub n: i32,
    pub date: Date,
    pub description: String,
    pub amount: i32,
    pub doc: String,
}

/// A posting as a mathematical value.
pub struct AccTransactionView {
    pub n: i32,
    pub date: Date,
    pub description: Seq<char>,
    pub amount: i32,
    pub doc: Seq<char>,
}

impl View for AccTransaction {
    type V = AccTransactionView;

    open spec fn view(&self) -> AccTransactionView {
        AccTransactionView {
            n: self.n,
            date: self.date,
            description: self.description@,
            amount: self.amount,
            doc: self.doc@,
        }
    }
}

/// The views of a sequence of postings.
pub open spec fn postings_view(s: Seq<AccTransaction>) -> Seq<AccTransactionView> {
    Seq::new(s.len(), |i: int| s[i]@)
}

/// An account of the chart. Its sub-accounts are positions in the chart.
/// The four amount arrays hold one value for each period: what was posted
/// to the account itself, and the totals with all its descendants.
#[derive(Debug)]
pub struct Account {
    pub n: Option<i32>,
    pub name: String,
    pub sub_accounts: Vec<usize>,
    pub credits: Vec<i32>,
    pub debits: Vec<i32>,
    pub rec_credits: Vec<i32>,
    pub rec_debits: Vec<i32>,
    pub transactions: Vec<AccTransaction>,
    pub t: AccountType,
}

/// An account as a mathematical value.
pub struct AccountView {
    pub n: Option<i32>,
    pub name: Seq<char>,
    pub sub_accounts: Seq<usize>,
    pub credits: Seq<i32>,
    pub debits: Seq<i32>,
    pub rec_credits: Seq<i32>,
    pub rec_debits: Seq<i32>,
    pub transactions: Seq<AccTransactionView>,
    pub t: AccountType,
}

impl View for Account {
    type V = AccountView;

    open spec fn view(&self) -> AccountView {
        AccountView {
            n: self.n,
            name: self.name@,
            sub_accounts: self.sub_accounts@,
            credits: self.credits@,
            debits: self.debits@,
            rec_credits: self.rec_credits@,
            rec_debits: self.rec_debits@,
            transactions: postings_view(self.transactions@),
            t: self.t,
        }
    }
}

/// The views of a sequence of accounts.
pub open spec fn accounts_view(s: Seq<Account>) -> Seq<AccountView> {
    Seq::new(s.len(), |i: int| s[i]@)
}

/// The view of a chart with one more account.
pub proof fn lemma_accounts_view_push(s: Seq<Account>, a: Account)
    ensures
        accounts_view(s.push(a)) == accounts_view(s).push(a@),
{
    assert(accounts_view(s.push(a)) =~= accounts_view(s).push(a@));
}

/// A copy of a sequence of numbers.
pub fn copy_numbers(v: &Vec<i32>) -> (r: Vec<i32>)
    ensures
        r@ == v@,
{
    let mut r: Vec<i32> = Vec::new();
    let mut i: usize = 0;
    while i < v.len()
        invariant
            i <= v.len(),
            r@ == v@.take(i as int),
        decreases v.len() - i,
    {
        r.push(v[i]);
        proof {
            assert(v@.take(i + 1) =~= v@.take(i as int).push(v@[i as int]));
        }
        i = i + 1;
    }
    proof {
        assert(v@.take(i as int) =~= v@);
    }
    r
}

/// A copy of a sequence of positions.
pub fn copy_positions(v: &Vec<usize>) -> (r: Vec<usize>)
    ensures
        r@ == v@,
{
    let mut r: Vec<usize> = Vec::new();
    let mut i: usize = 0;
    while i < v.len()
        invariant
            i <= v.len(),
            r@ == v@.take(i as int),
        decreases v.len() - i,
    {
        r.push(v[i]);
        proof {
            assert(v@.take(i + 1) =~= v@.take(i as int).push(v@[i as int]));
        }
        i = i + 1;
    }
    proof {
        assert(v@.take(i as int) =~= v@);
    }
    r
}

/// A copy of a sequence of entries.
pub fn copy_entries(v: &Vec<(i32, i32)>) -> (r: Vec<(i32, i32)>)
    ensures
        r@ == v@,
{
    let mut r: Vec<(i32, i32)> = Vec::new();
    let mut i: usize = 0;
    while i < v.len()
        invariant
            i <= v.len(),
            r@ == v@.take(i as int),
        decreases v.len() - i,
    {
        let e = v[i];
        r.push(e);
        proof {
            assert(v@.take(i + 1) =~= v@.take(i as int).push(v@[i as int]));
        }
        i = i + 1;
    }
    proof {
        assert(v@.take(i as int) =~= v@);
    }
    r
}

impl Clone for Transaction {
    fn clone(&self) -> (r: Transaction)
        ensures
            r@ == self@,
    {
        Transaction {
            date: self.date,
            description: self.description.clone(),
            entries: copy_entries(&self.entries),
            n: self.n,
            doc: self.doc.clone(),
        }
    }
}

impl Clone for AccTransaction {
    fn clone(&self) -> (r: AccTransaction)
        ensures
            r@ == self@,
    {
        AccTransaction {
            n: self.n,
            date: self.date,
            description: self.description.clone(),
            amount: self.amount,
            doc: self.doc.clone(),
        }
    }
}

impl Clone for Account {
    fn clone(&self) -> (r: Account)
        ensures
            r@ == self@,
    {
        let mut transactions: Vec<AccTransaction> = Vec::new();
        let mut i: usize = 0;
        while i < self.transactions.len()
            invariant
                i <= self.transactions.len(),
                transactions.len() == i,
                forall|k: int| 0 <= k < i ==> transactions@[k]@ == self.transactions@[k]@,
            decreases self.transactions.len() - i,
        {
            transactions.push(self.transactions[i].clone());
            i = i + 1;
        }
        proof {
            assert(postings_view(transactions@) =~= postings_view(self.transactions@));
        }
        Account {
            n: self.n,
            name: self.name.clone(),
            sub_accounts: copy_positions(&self.sub_accounts),
            credits: copy_numbers(&self.credits),
            debits: copy_numbers(&self.debits),
            rec_credits: copy_numbers(&self.rec_credits),
            rec_debits: copy_numbers(&self.rec_debits),
            transactions,
            t: self.t,
        }
    }
}

/// A copy of a journal.
pub fn clone_journal(v: &Vec<Transaction>) -> (r: Vec<Transaction>)
    ensures
        journal_view(r@) == journal_view(v@),
{
    let mut r: Vec<Transaction> = Vec::new();
    let mut i: usize = 0;
    while i < v.len()
        invariant
            i <= v.len(),
            r.len() == i,
            forall|k: int| 0 <= k < i ==> r@[k]@ == v@[k]@,
        decreases v.len() - i,
    {
        r.push(v[i].clone());
        i = i + 1;
    }
    proof {
        assert(journal_view(r@) =~= journal_view(v@));
    }
    r
}

/// A copy of a chart of accounts.
pub fn clone_accounts(v: &Vec<Account>) -> (r: Vec<Account>)
    ensures
        accounts_view(r@) == accounts_view(v@),
{
    let mut r: Vec<Account> = Vec::new();
    let mut i: usize = 0;
    while i < v.len()
        invariant
            i <= v.len(),
            r.len() == i,
            forall|k: int| 0 <= k < i ==> r@[k]@ == v@[k]@,
        decreases v.len() - i,
    {
        r.push(v[i].clone());
        i = i + 1;
    }
    proof {
        assert(accounts_view(r@) =~= accounts_view(v@));
    }
    r
}

/// The account as it is declared: no sub-accounts, no postings, and a
/// zero in each amount array for the first period.
pub open spec fn declared(n: Option<i32>, name: Seq<char>, t: AccountType) -> AccountView {
    AccountView {
        n,
        name,
        sub_accounts: Seq::empty(),
        credits: seq![0i32],
        debits: seq![0i32],
        rec_credits: seq![0i32],
        rec_debits: seq![0i32],
        transactions: Seq::empty(),
        t,
    }
}

/// The account with a zero for one more period in each amount array.
pub open spec fn with_period(a: AccountView) -> AccountView {
    AccountView {
        credits: a.credits.push(0i32),
        debits: a.debits.push(0i32),
        rec_credits: a.rec_credits.push(0i32),
        rec_debits: a.rec_debits.push(0i32),
        ..a
    }
}

/// The account after an amount is posted to it in period `p`: a positive
/// amount adds to the debits, any other adds its magnitude to the
/// credits. The sum must stay in range.
pub open spec fn with_amount(a: AccountView, amount: i32, p: int) -> Result<
    AccountView,
    LedgerError,
> {
    if amount > 0 {
        if a.debits[p] + amount > i32::MAX {
            Err(LedgerError::AmountOverflow)
        } else {
            Ok(AccountView { debits: a.debits.update(p, (a.debits[p] + amount) as i32), ..a })
        }
    } else {
        if a.credits[p] - amount > i32::MAX || a.credits[p] - amount < i32::MIN {
            Err(LedgerError::AmountOverflow)
        } else {
            Ok(AccountView { credits: a.credits.update(p, (a.credits[p] - amount) as i32), ..a })
        }
    }
}

/// The postings that a journal entry makes to the account numbered `n`:
/// one for each of its entries from position `i` on that names `n`.
pub open spec fn postings_of(t: TransactionView, n: i32, i: int) -> Seq<AccTransactionView>
    decreases t.entries.len() - i,
{
    if i < 0 || i >= t.entries.len() {
        Seq::empty()
    } else if t.entries[i].0 == n {
        seq![
            AccTransactionView {
                n: t.n,
                date: t.date,
                description: t.description,
                amount: t.entries[i].1,
                doc: t.doc,
            },
        ] + postings_of(t, n, i + 1)
    } else {
        postings_of(t, n, i + 1)
    }
}

/// The account with the postings of a journal entry added. An account
/// without a number takes none.
pub open spec fn with_postings(a: AccountView, t: TransactionView) -> AccountView {
    match a.n {
        Some(n) => AccountView { transactions: a.transactions + postings_of(t, n, 0), ..a },
        None => a,
    }
}

impl AccountView {
    /// The amount arrays hold a value for each of `periods` periods.
    pub open spec fn has_periods(self, periods: int) -> bool {
        &&& self.credits.len() == periods
        &&& self.debits.len() == periods
        &&& self.rec_credits.len() == periods
        &&& self.rec_debits.len() == periods
    }
}

impl Account {
    /// A declared account.
    pub fn new(n: Option<i32>, name: String, t: AccountType) -> (r: Account)
        ensures
            r@ == declared(n, name@, t),
    {
        let mut credits: Vec<i32> = Vec::new();
        credits.push(0);
        let mut debits: Vec<i32> = Vec::new();
        debits.push(0);
        let mut rec_credits: Vec<i32> = Vec::new();
        rec_credits.push(0);
        let mut rec_debits: Vec<i32> = Vec::new();
        rec_debits.push(0);
        let r = Account {
            n,
            name,
            t,
            sub_accounts: Vec::new(),
            credits,
            debits,
            rec_credits,
            rec_debits,
            transactions: Vec::new(),
        };
        proof {
            assert(r@.transactions =~= Seq::<AccTransactionView>::empty());
            assert(r@.sub_accounts =~= Seq::<usize>::empty());
            assert(r@.credits =~= seq![0i32]);
            assert(r@.debits =~= seq![0i32]);
            assert(r@.rec_credits =~= seq![0i32]);
            assert(r@.rec_debits =~= seq![0i32]);
        }
        r
    }

    /// An account without amounts for any period.
    pub fn naked(n: Option<i32>, name: String, t: AccountType) -> (r: Account)
        ensures
            r@ == (AccountView {
                n,
                name: name@,
                sub_accounts: Seq::empty(),
                credits: Seq::empty(),
                debits: Seq::empty(),
                rec_credits: Seq::empty(),
                rec_debits: Seq::empty(),
                transactions: Seq::empty(),
                t,
            }),
    {
        let r = Account {
            n,
            name,
            t,
            sub_accounts: Vec::new(),
            credits: Vec::new(),
            debits: Vec::new(),
            rec_credits: Vec::new(),
            rec_debits: Vec::new(),
            transactions: Vec::new(),
        };
        proof {
            assert(r@.transactions =~= Seq::<AccTransactionView>::empty());
        }
        r
    }

    /// Whether the account has no sub-accounts.
    pub fn is_leaf(&self) -> (r: bool)
        ensures
            r == (self@.sub_accounts.len() == 0),
    {
        self.sub_accounts.len() == 0
    }

    /// Adds a period: a zero at the end of each amount array.
    pub fn add_ledger(&mut self)
        ensures
            final(self)@ == with_period(old(self)@),
    {
        self.credits.push(0);
        self.debits.push(0);
        self.rec_credits.push(0);
        self.rec_debits.push(0);
    }

    /// Posts an amount in period `li`.
    pub fn add_amount(&mut self, amount: i32, li: usize) -> (r: Result<(), LedgerError>)
        requires
            li < old(self)@.debits.len(),
            li < old(self)@.credits.len(),
        ensures
            match r {
                Ok(()) => with_amount(old(self)@, amount, li as int) == Ok::<
                    AccountView,
                    LedgerError,
                >(final(self)@),
                Err(e) => with_amount(old(self)@, amount, li as int) == Err::<
                    AccountView,
                    LedgerError,
                >(e) && final(self)@ == old(self)@,
            },
    {
        if amount > 0 {
            match self.debits[li].checked_add(amount) {
                Some(sum) => {
                    self.debits.set(li, sum);
                    Ok(())
                },
                None => Err(LedgerError::AmountOverflow),
            }
        } else {
            match self.credits[li].checked_sub(amount) {
                Some(sum) => {
                    self.credits.set(li, sum);
                    Ok(())
                },
                None => Err(LedgerError::AmountOverflow),
            }
        }
    }

    /// Adds the postings that a journal entry makes to this account.
    pub fn add_transaction(&mut self, transaction: &Transaction)
        ensures
            final(self)@ == with_postings(old(self)@, transaction@),
    {
        let n = match self.n {
            Some(n) => n,
            None => {
                return ;
            },
        };
        let ghost t = transaction@;
        let ghost before = postings_view(self.transactions@);
        let mut i: usize = 0;
        while i < transaction.entries.len()
            invariant
                i <= transaction.entries.len(),
                t == transaction@,
                self.n == old(self).n,
                self.name == old(self).name,
                self.sub_accounts == old(self).sub_accounts,
                self.credits == old(self).credits,
                self.debits == old(self).debits,
                self.rec_credits == old(self).rec_credits,
                self.rec_debits == old(self).rec_debits,
                self.t == old(self).t,
                postings_view(self.transactions@) + postings_of(t, n, i as int) == before
                    + postings_of(t, n, 0),
            decreases transaction.entries.len() - i,
        {
            let entry = transaction.entries[i];
            if entry.0 == n {
                let posting = AccTransaction {
                    n: transaction.n,
                    date: transaction.date,
                    description: transaction.description.clone(),
                    amount: entry.1,
                    doc: transaction.doc.clone(),
                };
                proof {
                    let rest = postings_of(t, n, i + 1);
                    assert(postings_view(self.transactions@.push(posting)) =~= postings_view(
                        self.transactions@,
                    ).push(posting@));
                    assert(postings_view(self.transactions@).push(posting@) + rest
                        =~= postings_view(self.transactions@) + (seq![posting@] + rest));
                }
                self.transactions.push(posting);
            }
            i = i + 1;
        }
        proof {
            assert(postings_view(self.transactions@) + Seq::<AccTransactionView>::empty()
                =~= postings_view(self.transactions@));
        }
    }
}

/// The recursive totals with the result of each period added: the debits
/// and the credits of the result go to the recursive debits and credits
/// of the same period, for the periods from `p` on that both have. Every
/// sum must stay in range.
pub open spec fn totals_with_result(
    rec_debits: Seq<i32>,
    rec_credits: Seq<i32>,
    result: Seq<(i32, i32)>,
    p: int,
) -> Result<Seq<(i32, i32)>, LedgerError>
    decreases result.len() - p,
{
    if p < 0 || p >= result.len() || p >= rec_debits.len() || p >= rec_credits.len() {
        Ok(Seq::empty())
    } else {
        let d = rec_debits[p] + result[p].0;
        let c = rec_credits[p] + result[p].1;
        if d > i32::MAX || d < i32::MIN || c > i32::MAX || c < i32::MIN {
            Err(LedgerError::AmountOverflow)
        } else {
            match totals_with_result(rec_debits, rec_credits, result, p + 1) {
                Err(e) => Err(e),
                Ok(rest) => Ok(seq![(d as i32, c as i32)] + rest),
            }
        }
    }
}

impl Account {
    /// The recursive totals of the account with the result of each
    /// period added, as the liabilities carry it in a balance sheet.
    pub fn totals_with_period_result(&self, result: &Vec<(i32, i32)>) -> (r: Result<
        Vec<(i32, i32)>,
        LedgerError,
    >)
        ensures
            match r {
                Ok(v) => totals_with_result(self@.rec_debits, self@.rec_credits, result@, 0) == Ok::<
                    Seq<(i32, i32)>,
                    LedgerError,
                >(v@),
                Err(e) => totals_with_result(self@.rec_debits, self@.rec_credits, result@, 0)
                    == Err::<Seq<(i32, i32)>, LedgerError>(e),
            },
    {
        let mut out: Vec<(i32, i32)> = Vec::new();
        let mut p: usize = 0;
        proof {
            match totals_with_result(self@.rec_debits, self@.rec_credits, result@, 0) {
                Ok(rest) => {
                    assert(out@ + rest =~= rest);
                },
                Err(_) => {},
            }
        }
        while p < result.len() && p < self.rec_debits.len() && p < self.rec_credits.len()
            invariant
                match totals_with_result(self@.rec_debits, self@.rec_credits, result@, p as int) {
                    Ok(rest) => totals_with_result(self@.rec_debits, self@.rec_credits, result@, 0)
                        == Ok::<Seq<(i32, i32)>, LedgerError>(out@ + rest),
                    Err(e) => totals_with_result(self@.rec_debits, self@.rec_credits, result@, 0)
                        == Err::<Seq<(i32, i32)>, LedgerError>(e),
                },
            decreases result.len() - p,
        {
            let d = self.rec_debits[p].checked_add(result[p].0);
            let c = self.rec_credits[p].checked_add(result[p].1);
            match (d, c) {
                (Some(d), Some(c)) => {
                    proof {
                        match totals_with_result(
                            self@.rec_debits,
                            self@.rec_credits,
                            result@,
                            p + 1,
                        ) {
                            Ok(rest) => {
                                assert(out@ + (seq![(d, c)] + rest) =~= out@.push((d, c)) + rest);
                            },
                            Err(_) => {},
                        }
                    }
                    out.push((d, c));
                },
                _ => {
                    return Err(LedgerError::AmountOverflow);
                },
            }
            p = p + 1;
        }
        proof {
            assert(out@ + Seq::<(i32, i32)>::empty() =~= out@);
        }
        Ok(out)
    }
}

impl Transaction {
    /// The date as day, month and year without padding.
    pub fn fmt_date(self) -> (s: String)
        ensures
            s@ == crate::date::date_text(self.date),
    {
        self.date.format()
    }
}

impl AccTransaction {
    /// The date as day, month and year without padding.
    pub fn fmt_date(self) -> (s: String)
        ensures
            s@ == crate::date::date_text(self.date),
    {
        self.date.format()
    }
}

} // verus!
