//! The chart of accounts: a forest of accounts held in one sequence, in
//! which an account stands before its sub-accounts, with an index from
//! account numbers to positions.

use std::collections::HashMap;
use vstd::prelude::*;
use vstd::string::StringExecFns;
use crate::account::{accounts_view, declared, lemma_accounts_view_push, with_amount, with_period,
    with_postings, Account, AccountView, Transaction, TransactionView, journal_view};
use crate::chars::{push_signed_decimal, signed_decimal, spaces, text_contains};
use crate::entries::entries_sum;
use crate::error::LedgerError;
use crate::semantic::{statements_view, AccountType, SStatement, SStatementView,
    lemma_account_view};

verus! {

broadcast use vstd::std_specs::hash::group_hash_axioms;

/// The chart of accounts.
pub struct Chart {
    pub accounts: Vec<Account>,
    pub roots: Vec<usize>,
    pub index: HashMap<i32, usize>,
}

/// The chart as a mathematical value: the accounts, the positions of the
/// top-level accounts, and the position that each account number leads to.
pub struct ChartView {
    pub accounts: Seq<AccountView>,
    pub roots: Seq<usize>,
    pub index: Map<i32, usize>,
}

impl View for Chart {
    type V = ChartView;

    open spec fn view(&self) -> ChartView {
        ChartView { accounts: accounts_view(self.accounts@), roots: self.roots@, index: self.index@ }
    }
}

impl ChartView {
    /// The positions in the chart lead to accounts, every sub-account
    /// stands behind its parent, and every account has amounts for each of
    /// `periods` periods.
    pub open spec fn wf(self, periods: int) -> bool {
        &&& forall|k: i32| #[trigger]
            self.index.contains_key(k) ==> self.index[k] < self.accounts.len()
        &&& forall|i: int| 0 <= i < self.roots.len() ==> #[trigger] self.roots[i] < self.accounts.len()
        &&& forall|a: int, i: int|
            0 <= a < self.accounts.len() && 0 <= i < self.accounts[a].sub_accounts.len() ==> a < (
            #[trigger] self.accounts[a].sub_accounts[i]) < self.accounts.len()
        &&& forall|a: int|
            0 <= a < self.accounts.len() ==> (#[trigger] self.accounts[a]).has_periods(periods)
    }
}

/// The chart without accounts.
pub open spec fn empty_chart() -> ChartView {
    ChartView { accounts: Seq::empty(), roots: Seq::empty(), index: Map::empty() }
}

// ---------------------------------------------------------------------
// Declaring accounts
// ---------------------------------------------------------------------

/// The classification that an account hands to its sub-accounts.
pub open spec fn child_type(t: AccountType) -> AccountType {
    if t == AccountType::LiabilitiesTopLevel {
        AccountType::Liabilities
    } else {
        t
    }
}

/// The account with one more sub-account at the end.
pub open spec fn with_sub_account(a: AccountView, id: usize) -> AccountView {
    AccountView { sub_accounts: a.sub_accounts.push(id), ..a }
}

/// The chart after an account is declared. The account is added at the
/// end of the chart; then its sub-accounts are declared, each with the
/// classification that the account hands down; then its number, if it
/// has one, leads to it; and last it becomes a sub-account of its parent,
/// or a top-level account.
pub open spec fn declare(
    c: ChartView,
    n: Option<i32>,
    name: Seq<char>,
    subs: Seq<SStatementView>,
    t: AccountType,
    parent: Option<usize>,
) -> ChartView
    decreases subs, subs.len() + 1,
{
    let id = c.accounts.len() as usize;
    let added = ChartView { accounts: c.accounts.push(declared(n, name, t)), ..c };
    let filled = declare_subs(added, subs, 0, child_type(t), id);
    let indexed = match n {
        Some(number) => ChartView { index: filled.index.insert(number, id), ..filled },
        None => filled,
    };
    match parent {
        Some(p) => ChartView {
            accounts: indexed.accounts.update(
                p as int,
                with_sub_account(indexed.accounts[p as int], id),
            ),
            ..indexed
        },
        None => ChartView { roots: indexed.roots.push(id), ..indexed },
    }
}

/// The chart after the accounts among the statements from position `i`
/// on are declared as sub-accounts of `parent`. Other statements are
/// passed over.
pub open spec fn declare_subs(
    c: ChartView,
    subs: Seq<SStatementView>,
    i: int,
    t: AccountType,
    parent: usize,
) -> ChartView
    decreases subs, subs.len() - i,
{
    if i < 0 || i >= subs.len() {
        c
    } else {
        match subs[i] {
            SStatementView::Account(n, name, inner, _) => declare_subs(
                declare(c, n, name, inner, t, Some(parent)),
                subs,
                i + 1,
                t,
                parent,
            ),
            _ => declare_subs(c, subs, i + 1, t, parent),
        }
    }
}

// ---------------------------------------------------------------------
// Posting amounts
// ---------------------------------------------------------------------

/// The accounts after the entries from position `i` on are posted in
/// period `p`: each amount goes to the account that its number leads to.
pub open spec fn post(
    accounts: Seq<AccountView>,
    index: Map<i32, usize>,
    entries: Seq<(i32, i32)>,
    i: int,
    p: int,
) -> Result<Seq<AccountView>, LedgerError>
    decreases entries.len() - i,
{
    if i < 0 || i >= entries.len() {
        Ok(accounts)
    } else if !index.contains_key(entries[i].0) {
        Err(LedgerError::UndeclaredAccount)
    } else {
        let id = index[entries[i].0] as int;
        match with_amount(accounts[id], entries[i].1, p) {
            Err(e) => Err(e),
            Ok(a) => post(accounts.update(id, a), index, entries, i + 1, p),
        }
    }
}

/// The debits of all accounts in period `p`, less their credits.
spec fn net_debits(accounts: Seq<AccountView>, p: int) -> int
    decreases accounts.len(),
{
    if accounts.len() == 0 {
        0
    } else {
        net_debits(accounts.drop_last(), p) + accounts.last().debits[p] - accounts.last().credits[p]
    }
}

/// The debits of all accounts in period `p`.
pub open spec fn all_debits(accounts: Seq<AccountView>, p: int) -> int
    decreases accounts.len(),
{
    if accounts.len() == 0 {
        0
    } else {
        all_debits(accounts.drop_last(), p) + accounts.last().debits[p]
    }
}

/// The credits of all accounts in period `p`.
pub open spec fn all_credits(accounts: Seq<AccountView>, p: int) -> int
    decreases accounts.len(),
{
    if accounts.len() == 0 {
        0
    } else {
        all_credits(accounts.drop_last(), p) + accounts.last().credits[p]
    }
}

/// The sum of the amounts of the entries from position `i` on.
spec fn entries_sum_from(entries: Seq<(i32, i32)>, i: int) -> int
    decreases entries.len() - i,
{
    if i < 0 || i >= entries.len() {
        0
    } else {
        entries[i].1 + entries_sum_from(entries, i + 1)
    }
}

proof fn lemma_net_debits(accounts: Seq<AccountView>, p: int)
    ensures
        net_debits(accounts, p) == all_debits(accounts, p) - all_credits(accounts, p),
    decreases accounts.len(),
{
    if accounts.len() > 0 {
        lemma_net_debits(accounts.drop_last(), p);
    }
}

proof fn lemma_net_debits_update(accounts: Seq<AccountView>, id: int, a: AccountView, p: int)
    requires
        0 <= id < accounts.len(),
    ensures
        net_debits(accounts.update(id, a), p) == net_debits(accounts, p) - (accounts[id].debits[p]
            - accounts[id].credits[p]) + (a.debits[p] - a.credits[p]),
    decreases accounts.len(),
{
    let updated = accounts.update(id, a);
    if id == accounts.len() - 1 {
        assert(updated.drop_last() =~= accounts.drop_last());
    } else {
        assert(updated.drop_last() =~= accounts.drop_last().update(id, a));
        lemma_net_debits_update(accounts.drop_last(), id, a, p);
    }
}

proof fn lemma_entries_sum_from(entries: Seq<(i32, i32)>, i: int)
    requires
        0 <= i <= entries.len(),
    ensures
        entries_sum(entries.take(i)) + entries_sum_from(entries, i) == entries_sum(entries),
    decreases entries.len() - i,
{
    if i >= entries.len() {
        assert(entries.take(i) =~= entries);
    } else {
        assert(entries.take(i + 1).drop_last() =~= entries.take(i));
        lemma_entries_sum_from(entries, i + 1);
    }
}

proof fn lemma_post_adds(
    accounts: Seq<AccountView>,
    index: Map<i32, usize>,
    entries: Seq<(i32, i32)>,
    i: int,
    p: int,
)
    requires
        0 <= i <= entries.len(),
        forall|k: i32| #[trigger] index.contains_key(k) ==> index[k] < accounts.len(),
        forall|a: int|
            0 <= a < accounts.len() ==> 0 <= p < (#[trigger] accounts[a]).debits.len() && p
                < accounts[a].credits.len(),
        post(accounts, index, entries, i, p) is Ok,
    ensures
        net_debits(post(accounts, index, entries, i, p)->Ok_0, p) == net_debits(accounts, p)
            + entries_sum_from(entries, i),
    decreases entries.len() - i,
{
    if i < entries.len() {
        let id = index[entries[i].0] as int;
        let a = with_amount(accounts[id], entries[i].1, p)->Ok_0;
        let next = accounts.update(id, a);
        lemma_net_debits_update(accounts, id, a, p);
        assert forall|b: int| 0 <= b < next.len() implies 0 <= p < (#[trigger] next[b]).debits.len()
            && p < next[b].credits.len() by {
            if b != id {
                assert(next[b] == accounts[b]);
            }
        }
        lemma_post_adds(next, index, entries, i + 1, p);
    }
}

/// Posting the entries of a transaction adds their sum to the debits of
/// all accounts less their credits. So where the amounts sum to zero, as
/// much is added to the debits as to the credits.
pub proof fn lemma_posting_balances(c: ChartView, entries: Seq<(i32, i32)>, p: int, periods: int)
    requires
        c.wf(periods),
        0 <= p < periods,
        post(c.accounts, c.index, entries, 0, p) is Ok,
    ensures
        ({
            let after = post(c.accounts, c.index, entries, 0, p)->Ok_0;
            &&& (all_debits(after, p) - all_debits(c.accounts, p)) - (all_credits(after, p)
                - all_credits(c.accounts, p)) == entries_sum(entries)
            &&& entries_sum(entries) == 0 ==> all_debits(after, p) - all_debits(c.accounts, p)
                == all_credits(after, p) - all_credits(c.accounts, p)
        }),
{
    let after = post(c.accounts, c.index, entries, 0, p)->Ok_0;
    lemma_post_adds(c.accounts, c.index, entries, 0, p);
    lemma_entries_sum_from(entries, 0);
    assert(entries.take(0) =~= Seq::<(i32, i32)>::empty());
    lemma_net_debits(after, p);
    lemma_net_debits(c.accounts, p);
}

/// Whether two states of an account differ at most in the amounts of
/// the periods from `p` on.
pub open spec fn same_account_before(old: AccountView, new: AccountView, p: int) -> bool {
    &&& new.n == old.n
    &&& new.name == old.name
    &&& new.sub_accounts == old.sub_accounts
    &&& new.t == old.t
    &&& new.transactions == old.transactions
    &&& new.debits.len() >= old.debits.len()
    &&& new.credits.len() >= old.credits.len()
    &&& new.rec_debits.len() >= old.rec_debits.len()
    &&& new.rec_credits.len() >= old.rec_credits.len()
    &&& forall|q: int|
        0 <= q < p && q < old.debits.len() ==> #[trigger] new.debits[q] == old.debits[q]
    &&& forall|q: int|
        0 <= q < p && q < old.credits.len() ==> #[trigger] new.credits[q] == old.credits[q]
    &&& forall|q: int|
        0 <= q < p && q < old.rec_debits.len() ==> #[trigger] new.rec_debits[q]
            == old.rec_debits[q]
    &&& forall|q: int|
        0 <= q < p && q < old.rec_credits.len() ==> #[trigger] new.rec_credits[q]
            == old.rec_credits[q]
}

/// Whether two charts hold the same accounts, with the same numbers,
/// names, sub-accounts, classifications and postings, and the same
/// amounts for every period before `p`.
pub open spec fn same_before(old: Seq<AccountView>, new: Seq<AccountView>, p: int) -> bool {
    &&& new.len() == old.len()
    &&& forall|a: int| 0 <= a < old.len() ==> same_account_before(old[a], #[trigger] new[a], p)
}

/// A chart holds the same as itself.
pub proof fn lemma_same_before_refl(s: Seq<AccountView>, p: int)
    ensures
        same_before(s, s, p),
{
}

/// What is left as it is twice is left as it is.
pub proof fn lemma_same_before_trans(
    a: Seq<AccountView>,
    b: Seq<AccountView>,
    c: Seq<AccountView>,
    p: int,
)
    requires
        same_before(a, b, p),
        same_before(b, c, p),
    ensures
        same_before(a, c, p),
{
    assert forall|x: int| 0 <= x < a.len() implies same_account_before(a[x], #[trigger] c[x], p) by {
        assert(same_account_before(a[x], b[x], p));
        assert(same_account_before(b[x], c[x], p));
        assert forall|q: int| 0 <= q < p && q < a[x].debits.len() implies #[trigger] c[x].debits[q]
            == a[x].debits[q] by {
            assert(b[x].debits[q] == a[x].debits[q]);
        }
        assert forall|q: int|
            0 <= q < p && q < a[x].credits.len() implies #[trigger] c[x].credits[q]
            == a[x].credits[q] by {
            assert(b[x].credits[q] == a[x].credits[q]);
        }
        assert forall|q: int|
            0 <= q < p && q < a[x].rec_debits.len() implies #[trigger] c[x].rec_debits[q]
            == a[x].rec_debits[q] by {
            assert(b[x].rec_debits[q] == a[x].rec_debits[q]);
        }
        assert forall|q: int|
            0 <= q < p && q < a[x].rec_credits.len() implies #[trigger] c[x].rec_credits[q]
            == a[x].rec_credits[q] by {
            assert(b[x].rec_credits[q] == a[x].rec_credits[q]);
        }
    }
}

// ---------------------------------------------------------------------
// Recursive totals
// ---------------------------------------------------------------------

/// The sum of an amount and the recursive totals, in period `p`, of the
/// sub-accounts from position `k` on, added one after the other; every
/// partial sum must stay in range.
pub open spec fn add_totals(
    accounts: Seq<AccountView>,
    subs: Seq<usize>,
    k: int,
    p: int,
    debits: i32,
    credits: i32,
) -> Result<(i32, i32), LedgerError>
    decreases subs.len() - k,
{
    if k < 0 || k >= subs.len() {
        Ok((debits, credits))
    } else {
        let child = accounts[subs[k] as int];
        let d = debits + child.rec_debits[p];
        let c = credits + child.rec_credits[p];
        if d > i32::MAX || d < i32::MIN || c > i32::MAX || c < i32::MIN {
            Err(LedgerError::AmountOverflow)
        } else {
            add_totals(accounts, subs, k + 1, p, d as i32, c as i32)
        }
    }
}

/// The account with the recursive totals of period `p` set.
pub open spec fn with_totals(a: AccountView, p: int, debits: i32, credits: i32) -> AccountView {
    AccountView {
        rec_debits: a.rec_debits.update(p, debits),
        rec_credits: a.rec_credits.update(p, credits),
        ..a
    }
}

/// The accounts after the recursive totals of period `p` are computed
/// for the accounts before position `a`, last account first, so that
/// the totals of its sub-accounts are there when an account is reached.
pub open spec fn with_sums(accounts: Seq<AccountView>, a: int, p: int) -> Result<
    Seq<AccountView>,
    LedgerError,
>
    decreases a,
{
    if a <= 0 {
        Ok(accounts)
    } else {
        let id = a - 1;
        match add_totals(
            accounts,
            accounts[id].sub_accounts,
            0,
            p,
            accounts[id].debits[p],
            accounts[id].credits[p],
        ) {
            Err(e) => Err(e),
            Ok((d, c)) => with_sums(accounts.update(id, with_totals(accounts[id], p, d, c)), id, p),
        }
    }
}

/// The sum of the recursive debits (or credits) in period `p` of the
/// sub-accounts from position `k` on.
pub open spec fn sub_total(
    accounts: Seq<AccountView>,
    subs: Seq<usize>,
    k: int,
    p: int,
    debit: bool,
) -> int
    decreases subs.len() - k,
{
    if k < 0 || k >= subs.len() {
        0
    } else {
        (if debit {
            accounts[subs[k] as int].rec_debits[p] as int
        } else {
            accounts[subs[k] as int].rec_credits[p] as int
        }) + sub_total(accounts, subs, k + 1, p, debit)
    }
}

/// Whether, in period `p`, the recursive totals of account `a` are its
/// own amounts plus the recursive totals of its sub-accounts.
pub open spec fn totals_hold(accounts: Seq<AccountView>, a: int, p: int) -> bool {
    &&& accounts[a].rec_debits[p] == accounts[a].debits[p] + sub_total(
        accounts,
        accounts[a].sub_accounts,
        0,
        p,
        true,
    )
    &&& accounts[a].rec_credits[p] == accounts[a].credits[p] + sub_total(
        accounts,
        accounts[a].sub_accounts,
        0,
        p,
        false,
    )
}

/// Whether the recursive totals hold for every account in period `p`.
pub open spec fn all_totals_hold(accounts: Seq<AccountView>, p: int) -> bool {
    forall|a: int| 0 <= a < accounts.len() ==> #[trigger] totals_hold(accounts, a, p)
}

/// The sum over sub-accounts depends only on the sub-accounts' totals.
pub proof fn lemma_sub_total_same(
    x: Seq<AccountView>,
    y: Seq<AccountView>,
    subs: Seq<usize>,
    k: int,
    p: int,
    debit: bool,
)
    requires
        0 <= k,
        forall|i: int|
            k <= i < subs.len() ==> x[(#[trigger] subs[i]) as int].rec_debits[p] == y[subs[i] as int].rec_debits[p]
                && x[subs[i] as int].rec_credits[p] == y[subs[i] as int].rec_credits[p],
    ensures
        sub_total(x, subs, k, p, debit) == sub_total(y, subs, k, p, debit),
    decreases subs.len() - k,
{
    if k < subs.len() {
        assert(x[subs[k] as int].rec_debits[p] == y[subs[k] as int].rec_debits[p]);
        lemma_sub_total_same(x, y, subs, k + 1, p, debit);
    }
}

// ---------------------------------------------------------------------
// Postings
// ---------------------------------------------------------------------

/// Whether entry `j` is the first of the entries to name its account.
pub open spec fn first_occurrence(entries: Seq<(i32, i32)>, j: int) -> bool {
    forall|k: int| 0 <= k < j ==> (#[trigger] entries[k]).0 != entries[j].0
}

/// The accounts after the postings of one journal entry are added, for
/// its entries from position `j` on: each account that the entry names
/// gets its postings once.
pub open spec fn file_transaction(
    accounts: Seq<AccountView>,
    index: Map<i32, usize>,
    t: TransactionView,
    j: int,
) -> Result<Seq<AccountView>, LedgerError>
    decreases t.entries.len() - j,
{
    if j < 0 || j >= t.entries.len() {
        Ok(accounts)
    } else if !first_occurrence(t.entries, j) {
        file_transaction(accounts, index, t, j + 1)
    } else if !index.contains_key(t.entries[j].0) {
        Err(LedgerError::UndeclaredAccount)
    } else {
        let id = index[t.entries[j].0] as int;
        file_transaction(accounts.update(id, with_postings(accounts[id], t)), index, t, j + 1)
    }
}

/// The accounts after the postings of the journal entries from position
/// `i` on are added.
pub open spec fn file_journal(
    accounts: Seq<AccountView>,
    index: Map<i32, usize>,
    journal: Seq<TransactionView>,
    i: int,
) -> Result<Seq<AccountView>, LedgerError>
    decreases journal.len() - i,
{
    if i < 0 || i >= journal.len() {
        Ok(accounts)
    } else {
        match file_transaction(accounts, index, journal[i], 0) {
            Err(e) => Err(e),
            Ok(next) => file_journal(next, index, journal, i + 1),
        }
    }
}

/// The accounts with one more period.
pub open spec fn with_new_period(accounts: Seq<AccountView>) -> Seq<AccountView> {
    Seq::new(accounts.len(), |a: int| with_period(accounts[a]))
}

impl Chart {
    /// A chart without accounts.
    pub fn new() -> (c: Chart)
        ensures
            c@ == empty_chart(),
            c@.wf(1),
    {
        let c = Chart { accounts: Vec::new(), roots: Vec::new(), index: HashMap::new() };
        proof {
            assert(c@.accounts =~= Seq::<AccountView>::empty());
        }
        c
    }

    /// Declares an account with its sub-accounts.
    pub fn declare_account(
        &mut self,
        n: Option<i32>,
        name: &String,
        subs: &Vec<SStatement>,
        t: AccountType,
        parent: Option<usize>,
    )
        requires
            old(self)@.wf(1),
            parent matches Some(p) ==> p < old(self).accounts.len(),
        ensures
            final(self)@ == declare(old(self)@, n, name@, statements_view(subs@), t, parent),
            final(self)@.wf(1),
            final(self).accounts.len() > old(self).accounts.len(),
        decreases subs, subs.len() + 1,
    {
        let id = self.accounts.len();
        let account = Account::new(n, name.clone(), t);
        proof {
            lemma_accounts_view_push(self.accounts@, account);
        }
        self.accounts.push(account);
        proof {
            let v = self@;
            let o = old(self)@;
            assert(v.accounts == o.accounts.push(declared(n, name@, t)));
            assert forall|a: int, k: int|
                0 <= a < v.accounts.len() && 0 <= k < v.accounts[a].sub_accounts.len() implies a < (
                #[trigger] v.accounts[a].sub_accounts[k]) < v.accounts.len() by {
                if a < o.accounts.len() {
                    assert(v.accounts[a] == o.accounts[a]);
                    assert(v.accounts[a].sub_accounts[k] == o.accounts[a].sub_accounts[k]);
                }
            }
            assert forall|a: int| 0 <= a < v.accounts.len() implies (
            #[trigger] v.accounts[a]).has_periods(1) by {
                if a < o.accounts.len() {
                    assert(v.accounts[a] == o.accounts[a]);
                    assert(o.accounts[a].has_periods(1));
                }
            }
        }
        proof {
            let v = self@;
            let o = old(self)@;
            assert(v.index == o.index);
            assert(v.roots == o.roots);
            assert forall|k: i32| #[trigger] v.index.contains_key(k) implies v.index[k]
                < v.accounts.len() by {
                assert(o.index.contains_key(k));
            }
            assert forall|k: int| 0 <= k < v.roots.len() implies #[trigger] v.roots[k]
                < v.accounts.len() by {
                assert(o.roots[k] < o.accounts.len());
            }
            assert(v.wf(1));
        }
        let child = match t {
            AccountType::LiabilitiesTopLevel => AccountType::Liabilities,
            _ => t,
        };
        let ghost all = statements_view(subs@);
        let ghost added = self@;
        let mut i: usize = 0;
        while i < subs.len()
            invariant
                i <= subs.len(),
                all == statements_view(subs@),
                self@.wf(1),
                id < self.accounts.len(),
                declare_subs(added, all, 0, child, id) == declare_subs(
                    self@,
                    all,
                    i as int,
                    child,
                    id,
                ),
            decreases subs, subs.len() - i,
        {
            assert(all[i as int] == subs@[i as int]@);
            match &subs[i] {
                SStatement::Account(sn, sname, ssubs, st) => {
                    proof {
                        lemma_account_view(*sn, *sname, *ssubs, *st);
                    }
                    self.declare_account(*sn, sname, ssubs, child, Some(id));
                },
                _ => {},
            }
            i = i + 1;
        }
        let ghost filled = self@;
        assert(vstd::std_specs::hash::obeys_key_model::<i32>());
        if let Some(number) = n {
            self.index.insert(number, id);
        }
        let ghost indexed = self@;
        proof {
            assert(indexed.accounts == filled.accounts);
            assert(indexed.roots == filled.roots);
            assert forall|k: i32| #[trigger] indexed.index.contains_key(k) implies indexed.index[k]
                < indexed.accounts.len() by {
                if n is Some && k == n->0 {
                } else {
                    assert(filled.index.contains_key(k));
                }
            }
            assert(indexed.wf(1));
        }
        match parent {
            Some(p) => {
                assert(indexed.accounts[p as int] == self.accounts@[p as int]@);
                self.accounts[p].sub_accounts.push(id);
                proof {
                    assert(self@.accounts =~= indexed.accounts.update(
                        p as int,
                        with_sub_account(indexed.accounts[p as int], id),
                    ));
                    let v = self@;
                    assert forall|a: int, k: int|
                        0 <= a < v.accounts.len() && 0 <= k < v.accounts[a].sub_accounts.len() implies a
                        < (#[trigger] v.accounts[a].sub_accounts[k]) < v.accounts.len() by {
                        if a == p {
                            if k < indexed.accounts[a].sub_accounts.len() {
                                assert(v.accounts[a].sub_accounts[k]
                                    == indexed.accounts[a].sub_accounts[k]);
                            }
                        } else {
                            assert(v.accounts[a] == indexed.accounts[a]);
                            assert(v.accounts[a].sub_accounts[k]
                                == indexed.accounts[a].sub_accounts[k]);
                        }
                    }
                    assert forall|a: int| 0 <= a < v.accounts.len() implies (
                    #[trigger] v.accounts[a]).has_periods(1) by {
                        if a != p {
                            assert(v.accounts[a] == indexed.accounts[a]);
                        } else {
                            assert(indexed.accounts[a].has_periods(1));
                        }
                    }
                }
            },
            None => {
                self.roots.push(id);
                proof {
                    let v = self@;
                    assert(v.roots == indexed.roots.push(id));
                    assert(v.accounts == indexed.accounts);
                    assert forall|k: int| 0 <= k < v.roots.len() implies #[trigger] v.roots[k]
                        < v.accounts.len() by {
                        if k < indexed.roots.len() {
                            assert(v.roots[k] == indexed.roots[k]);
                            assert(indexed.roots[k] < indexed.accounts.len());
                        }
                    }
                }
            },
        }
    }

    /// Posts the entries of a transaction in period `p`.
    pub fn post_entries(&mut self, entries: &Vec<(i32, i32)>, p: usize) -> (r: Result<
        (),
        LedgerError,
    >)
        requires
            old(self)@.wf(p + 1),
        ensures
            match r {
                Ok(()) => post(old(self)@.accounts, old(self)@.index, entries@, 0, p as int) == Ok::<
                    Seq<AccountView>,
                    LedgerError,
                >(final(self)@.accounts) && final(self)@.roots == old(self)@.roots
                    && final(self)@.index == old(self)@.index && final(self)@.wf(p + 1)
                    && same_before(old(self)@.accounts, final(self)@.accounts, p as int),
                Err(e) => post(old(self)@.accounts, old(self)@.index, entries@, 0, p as int) == Err::<
                    Seq<AccountView>,
                    LedgerError,
                >(e),
            },
    {
        let ghost start = self@;
        let mut i: usize = 0;
        while i < entries.len()
            invariant
                i <= entries.len(),
                start == old(self)@,
                self@.wf(p + 1),
                self@.roots == start.roots,
                self@.index == start.index,
                same_before(start.accounts, self@.accounts, p as int),
                post(start.accounts, start.index, entries@, 0, p as int) == post(
                    self@.accounts,
                    start.index,
                    entries@,
                    i as int,
                    p as int,
                ),
            decreases entries.len() - i,
        {
            let entry = entries[i];
            assert(vstd::std_specs::hash::obeys_key_model::<i32>());
            let id = match self.index.get(&entry.0) {
                Some(id) => *id,
                None => {
                    return Err(LedgerError::UndeclaredAccount);
                },
            };
            assert(self@.index.contains_key(entry.0) && self@.index[entry.0] == id);
            let ghost before = self.accounts@;
            let ghost current = self@;
            assert(current.accounts[id as int] == before[id as int]@);
            assert(current.accounts[id as int].has_periods(p + 1));
            match self.accounts[id].add_amount(entry.1, p) {
                Ok(()) => {},
                Err(e) => {
                    return Err(e);
                },
            }
            let ghost account = self.accounts@[id as int];
            proof {
                assert(self@.accounts =~= current.accounts.update(id as int, account@));
                let v = self@;
                assert forall|a: int, k: int|
                    0 <= a < v.accounts.len() && 0 <= k < v.accounts[a].sub_accounts.len() implies a
                    < (#[trigger] v.accounts[a].sub_accounts[k]) < v.accounts.len() by {
                    assert(v.accounts[a].sub_accounts == current.accounts[a].sub_accounts);
                    assert(v.accounts[a].sub_accounts[k] == current.accounts[a].sub_accounts[k]);
                }
                assert forall|a: int| 0 <= a < v.accounts.len() implies (
                #[trigger] v.accounts[a]).has_periods(p + 1) by {
                    if a != id {
                        assert(v.accounts[a] == current.accounts[a]);
                    } else {
                        assert(current.accounts[a].has_periods(p + 1));
                    }
                }
                assert(same_before(current.accounts, v.accounts, p as int)) by {
                    assert forall|a: int| 0 <= a < current.accounts.len() implies same_account_before(
                        current.accounts[a],
                        #[trigger] v.accounts[a],
                        p as int,
                    ) by {
                        if a != id {
                            assert(v.accounts[a] == current.accounts[a]);
                        }
                    }
                }
                lemma_same_before_trans(start.accounts, current.accounts, v.accounts, p as int);
            }
            i = i + 1;
        }
        Ok(())
    }

    /// Adds a period to every account.
    pub(crate) fn add_period(&mut self, Ghost(periods): Ghost<int>)
        requires
            old(self)@.wf(periods),
        ensures
            final(self)@ == (ChartView {
                accounts: with_new_period(old(self)@.accounts),
                ..old(self)@
            }),
            final(self)@.wf(periods + 1),
            same_before(old(self)@.accounts, final(self)@.accounts, periods),
    {
        let ghost start = self@;
        let n = self.accounts.len();
        let mut i: usize = 0;
        while i < n
            invariant
                i <= n,
                n == self.accounts.len(),
                n == start.accounts.len(),
                self.roots == old(self).roots,
                self.index == old(self).index,
                forall|a: int| 0 <= a < i ==> (#[trigger] self@.accounts[a]) == with_period(
                    start.accounts[a],
                ),
                forall|a: int| i <= a < n ==> (#[trigger] self@.accounts[a]) == start.accounts[a],
            decreases n - i,
        {
            let ghost before = self.accounts@;
            let ghost current = self@;
            assert(current.accounts[i as int] == before[i as int]@);
            self.accounts[i].add_ledger();
            proof {
                assert(self@.accounts =~= current.accounts.update(
                    i as int,
                    with_period(current.accounts[i as int]),
                ));
            }
            i = i + 1;
        }
        proof {
            let v = self@;
            assert(v.accounts =~= with_new_period(start.accounts));
            assert forall|a: int, k: int|
                0 <= a < v.accounts.len() && 0 <= k < v.accounts[a].sub_accounts.len() implies a < (
                #[trigger] v.accounts[a].sub_accounts[k]) < v.accounts.len() by {
                assert(v.accounts[a].sub_accounts[k] == start.accounts[a].sub_accounts[k]);
            }
            assert forall|a: int| 0 <= a < v.accounts.len() implies (
            #[trigger] v.accounts[a]).has_periods(periods + 1) by {
                assert(start.accounts[a].has_periods(periods));
            }
            assert(same_before(start.accounts, v.accounts, periods)) by {
                assert forall|a: int| 0 <= a < start.accounts.len() implies same_account_before(
                    start.accounts[a],
                    #[trigger] v.accounts[a],
                    periods,
                ) by {
                    assert(v.accounts[a] == with_period(start.accounts[a]));
                }
            }
        }
    }

    /// Computes the recursive totals of period `p` for every account.
    pub(crate) fn calculate_sums(&mut self, p: usize, Ghost(periods): Ghost<int>) -> (r: Result<
        (),
        LedgerError,
    >)
        requires
            old(self)@.wf(periods),
            p < periods,
        ensures
            match r {
                Ok(()) => with_sums(old(self)@.accounts, old(self)@.accounts.len() as int, p as int)
                    == Ok::<Seq<AccountView>, LedgerError>(final(self)@.accounts)
                    && final(self)@.roots == old(self)@.roots && final(self)@.index
                    == old(self)@.index && final(self)@.wf(periods) && all_totals_hold(
                    final(self)@.accounts,
                    p as int,
                ) && same_but_totals(old(self)@.accounts, final(self)@.accounts, p as int),
                Err(e) => with_sums(old(self)@.accounts, old(self)@.accounts.len() as int, p as int)
                    == Err::<Seq<AccountView>, LedgerError>(e),
            },
    {
        let ghost start = self@;
        let n = self.accounts.len();
        let mut a: usize = n;
        while a > 0
            invariant
                a <= n,
                n == self.accounts.len(),
                start == old(self)@,
                n == start.accounts.len(),
                p < periods,
                self@.wf(periods),
                self@.roots == start.roots,
                self@.index == start.index,
                same_but_totals(start.accounts, self@.accounts, p as int),
                with_sums(start.accounts, n as int, p as int) == with_sums(
                    self@.accounts,
                    a as int,
                    p as int,
                ),
                forall|x: int| a <= x < n ==> #[trigger] totals_hold(self@.accounts, x, p as int),
            decreases a,
        {
            let id = a - 1;
            let ghost current = self@;
            let ghost subs = current.accounts[id as int].sub_accounts;
            assert(current.accounts[id as int] == self.accounts@[id as int]@);
            assert(current.accounts[id as int].has_periods(periods));
            let mut d: i32 = self.accounts[id].debits[p];
            let mut c: i32 = self.accounts[id].credits[p];
            let ghost d0 = d;
            let ghost c0 = c;
            let count = self.accounts[id].sub_accounts.len();
            let mut k: usize = 0;
            while k < count
                invariant
                    k <= count,
                    id < n,
                    n == self.accounts.len(),
                    n == start.accounts.len(),
                    start == old(self)@,
                    current == self@,
                    current.wf(periods),
                    p < periods,
                    subs == current.accounts[id as int].sub_accounts,
                    current.accounts[id as int] == self.accounts@[id as int]@,
                    count == subs.len(),
                    add_totals(current.accounts, subs, 0, p as int, d0, c0) == add_totals(
                        current.accounts,
                        subs,
                        k as int,
                        p as int,
                        d,
                        c,
                    ),
                    with_sums(start.accounts, n as int, p as int) == with_sums(
                        current.accounts,
                        id + 1,
                        p as int,
                    ),
                    d0 == current.accounts[id as int].debits[p as int],
                    c0 == current.accounts[id as int].credits[p as int],
                decreases count - k,
            {
                let child = self.accounts[id].sub_accounts[k];
                assert(child == subs[k as int]);
                assert(id < child < n);
                assert(current.accounts[child as int] == self.accounts@[child as int]@);
                assert(current.accounts[child as int].has_periods(periods));
                let cd = self.accounts[child].rec_debits[p];
                let cc = self.accounts[child].rec_credits[p];
                let nd = d.checked_add(cd);
                let nc = c.checked_add(cc);
                match (nd, nc) {
                    (Some(x), Some(y)) => {
                        d = x;
                        c = y;
                    },
                    _ => {
                        return Err(LedgerError::AmountOverflow);
                    },
                }
                k = k + 1;
            }
            proof {
                lemma_add_totals(current.accounts, subs, 0, p as int, d0, c0);
            }
            self.accounts[id].rec_debits.set(p, d);
            self.accounts[id].rec_credits.set(p, c);
            let ghost account = self.accounts@[id as int];
            proof {
                assert(account@ == with_totals(current.accounts[id as int], p as int, d, c));
                assert(self@.accounts =~= current.accounts.update(id as int, account@));
                let v = self@;
                assert forall|x: int, i: int|
                    0 <= x < v.accounts.len() && 0 <= i < v.accounts[x].sub_accounts.len() implies x
                    < (#[trigger] v.accounts[x].sub_accounts[i]) < v.accounts.len() by {
                    assert(v.accounts[x].sub_accounts == current.accounts[x].sub_accounts);
                    assert(v.accounts[x].sub_accounts[i] == current.accounts[x].sub_accounts[i]);
                }
                assert forall|x: int| 0 <= x < v.accounts.len() implies (
                #[trigger] v.accounts[x]).has_periods(periods) by {
                    if x != id {
                        assert(v.accounts[x] == current.accounts[x]);
                    } else {
                        assert(current.accounts[x].has_periods(periods));
                    }
                }
                assert(same_but_totals(current.accounts, v.accounts, p as int)) by {
                    assert forall|x: int| 0 <= x < current.accounts.len() implies same_account_but_totals(
                        current.accounts[x],
                        #[trigger] v.accounts[x],
                        p as int,
                    ) by {
                        if x != id {
                            assert(v.accounts[x] == current.accounts[x]);
                        }
                    }
                }
                lemma_same_but_totals_trans(start.accounts, current.accounts, v.accounts, p as int);
                assert forall|x: int| id <= x < n implies #[trigger] totals_hold(
                    v.accounts,
                    x,
                    p as int,
                ) by {
                    let xs = v.accounts[x].sub_accounts;
                    assert(xs == current.accounts[x].sub_accounts);
                    assert forall|i: int| 0 <= i < xs.len() implies current.accounts[(
                    #[trigger] xs[i]) as int].rec_debits[p as int]
                        == v.accounts[xs[i] as int].rec_debits[p as int]
                        && current.accounts[xs[i] as int].rec_credits[p as int]
                        == v.accounts[xs[i] as int].rec_credits[p as int] by {
                        assert(x < current.accounts[x].sub_accounts[i]);
                        assert(v.accounts[xs[i] as int] == current.accounts[xs[i] as int]);
                    }
                    lemma_sub_total_same(current.accounts, v.accounts, xs, 0, p as int, true);
                    lemma_sub_total_same(current.accounts, v.accounts, xs, 0, p as int, false);
                    if x != id {
                        assert(totals_hold(current.accounts, x, p as int));
                        assert(v.accounts[x] == current.accounts[x]);
                    }
                }
            }
            a = id;
        }
        Ok(())
    }

    /// Adds to each account the postings that the journal makes to it.
    pub(crate) fn populate_account_transactions(
        &mut self,
        journal: &Vec<Transaction>,
        Ghost(periods): Ghost<int>,
    ) -> (r: Result<(), LedgerError>)
        requires
            old(self)@.wf(periods),
        ensures
            match r {
                Ok(()) => file_journal(
                    old(self)@.accounts,
                    old(self)@.index,
                    journal_view(journal@),
                    0,
                ) == Ok::<Seq<AccountView>, LedgerError>(final(self)@.accounts)
                    && final(self)@.roots == old(self)@.roots && final(self)@.index
                    == old(self)@.index && final(self)@.wf(periods) && same_but_postings(
                    old(self)@.accounts,
                    final(self)@.accounts,
                ),
                Err(e) => file_journal(
                    old(self)@.accounts,
                    old(self)@.index,
                    journal_view(journal@),
                    0,
                ) == Err::<Seq<AccountView>, LedgerError>(e),
            },
    {
        let ghost start = self@;
        let ghost all = journal_view(journal@);
        let mut i: usize = 0;
        while i < journal.len()
            invariant
                i <= journal.len(),
                start == old(self)@,
                all == journal_view(journal@),
                self@.wf(periods),
                self@.roots == start.roots,
                self@.index == start.index,
                same_but_postings(start.accounts, self@.accounts),
                file_journal(start.accounts, start.index, all, 0) == file_journal(
                    self@.accounts,
                    start.index,
                    all,
                    i as int,
                ),
            decreases journal.len() - i,
        {
            let transaction = &journal[i];
            let ghost t = transaction@;
            assert(all[i as int] == t);
            let ghost before_transaction = self@;
            let mut j: usize = 0;
            while j < transaction.entries.len()
                invariant
                    j <= transaction.entries.len(),
                    i < journal.len(),
                    start == old(self)@,
                    all == journal_view(journal@),
                    t == transaction@,
                    all[i as int] == t,
                    self@.wf(periods),
                    self@.roots == start.roots,
                    self@.index == start.index,
                    same_but_postings(start.accounts, self@.accounts),
                    file_journal(start.accounts, start.index, all, 0) == file_journal(
                        before_transaction.accounts,
                        start.index,
                        all,
                        i as int,
                    ),
                    file_transaction(before_transaction.accounts, start.index, t, 0)
                        == file_transaction(self@.accounts, start.index, t, j as int),
                decreases transaction.entries.len() - j,
            {
                let number = transaction.entries[j].0;
                // Whether an earlier entry names the same account.
                let mut seen = false;
                let mut k: usize = 0;
                while k < j
                    invariant
                        k <= j,
                        j < transaction.entries.len(),
                        number == transaction.entries@[j as int].0,
                        seen <==> exists|m: int|
                            0 <= m < k && (#[trigger] transaction.entries@[m]).0 == number,
                    decreases j - k,
                {
                    if transaction.entries[k].0 == number {
                        seen = true;
                    }
                    k = k + 1;
                }
                assert(seen <==> !first_occurrence(t.entries, j as int));
                if !seen {
                    assert(vstd::std_specs::hash::obeys_key_model::<i32>());
                    let id = match self.index.get(&number) {
                        Some(id) => *id,
                        None => {
                            return Err(LedgerError::UndeclaredAccount);
                        },
                    };
                    let ghost current = self@;
                    let ghost before = self.accounts@;
                    assert(current.accounts[id as int] == before[id as int]@);
                    self.accounts[id].add_transaction(transaction);
                    let ghost account = self.accounts@[id as int];
                    proof {
                        assert(self@.accounts =~= current.accounts.update(id as int, account@));
                        let v = self@;
                        assert forall|x: int, m: int|
                            0 <= x < v.accounts.len() && 0 <= m < v.accounts[x].sub_accounts.len() implies x
                            < (#[trigger] v.accounts[x].sub_accounts[m]) < v.accounts.len() by {
                            assert(v.accounts[x].sub_accounts == current.accounts[x].sub_accounts);
                            assert(v.accounts[x].sub_accounts[m]
                                == current.accounts[x].sub_accounts[m]);
                        }
                        assert forall|x: int| 0 <= x < v.accounts.len() implies (
                        #[trigger] v.accounts[x]).has_periods(periods) by {
                            if x != id {
                                assert(v.accounts[x] == current.accounts[x]);
                            } else {
                                assert(current.accounts[x].has_periods(periods));
                            }
                        }
                        assert forall|x: int| 0 <= x < start.accounts.len() implies same_account_but_postings(
                            start.accounts[x],
                            #[trigger] v.accounts[x],
                        ) by {
                            assert(same_account_but_postings(
                                start.accounts[x],
                                current.accounts[x],
                            ));
                            if x != id {
                                assert(v.accounts[x] == current.accounts[x]);
                            }
                        }
                    }
                }
                j = j + 1;
            }
            i = i + 1;
        }
        Ok(())
    }
}

// ---------------------------------------------------------------------
// What calculate_sums and populate_account_transactions leave as it is
// ---------------------------------------------------------------------

/// Whether two states of an account differ at most in the recursive
/// totals of period `p`.
pub open spec fn same_account_but_totals(old: AccountView, new: AccountView, p: int) -> bool {
    &&& new.n == old.n
    &&& new.name == old.name
    &&& new.sub_accounts == old.sub_accounts
    &&& new.t == old.t
    &&& new.transactions == old.transactions
    &&& new.debits == old.debits
    &&& new.credits == old.credits
    &&& new.rec_debits.len() == old.rec_debits.len()
    &&& new.rec_credits.len() == old.rec_credits.len()
    &&& forall|q: int|
        0 <= q < old.rec_debits.len() && q != p ==> #[trigger] new.rec_debits[q]
            == old.rec_debits[q]
    &&& forall|q: int|
        0 <= q < old.rec_credits.len() && q != p ==> #[trigger] new.rec_credits[q]
            == old.rec_credits[q]
}

/// Whether two charts differ at most in the recursive totals of period `p`.
pub open spec fn same_but_totals(old: Seq<AccountView>, new: Seq<AccountView>, p: int) -> bool {
    &&& new.len() == old.len()
    &&& forall|a: int| 0 <= a < old.len() ==> same_account_but_totals(old[a], #[trigger] new[a], p)
}

/// What differs only in the totals of a period twice differs only in them.
pub proof fn lemma_same_but_totals_trans(
    a: Seq<AccountView>,
    b: Seq<AccountView>,
    c: Seq<AccountView>,
    p: int,
)
    requires
        same_but_totals(a, b, p),
        same_but_totals(b, c, p),
    ensures
        same_but_totals(a, c, p),
{
    assert forall|x: int| 0 <= x < a.len() implies same_account_but_totals(
        a[x],
        #[trigger] c[x],
        p,
    ) by {
        assert(same_account_but_totals(a[x], b[x], p));
        assert(same_account_but_totals(b[x], c[x], p));
        assert forall|q: int|
            0 <= q < a[x].rec_debits.len() && q != p implies #[trigger] c[x].rec_debits[q]
            == a[x].rec_debits[q] by {
            assert(b[x].rec_debits[q] == a[x].rec_debits[q]);
        }
        assert forall|q: int|
            0 <= q < a[x].rec_credits.len() && q != p implies #[trigger] c[x].rec_credits[q]
            == a[x].rec_credits[q] by {
            assert(b[x].rec_credits[q] == a[x].rec_credits[q]);
        }
    }
}

/// Whether two states of an account differ at most in the postings.
pub open spec fn same_account_but_postings(old: AccountView, new: AccountView) -> bool {
    new == (AccountView { transactions: new.transactions, ..old })
}

/// Whether two charts differ at most in the postings of their accounts.
pub open spec fn same_but_postings(old: Seq<AccountView>, new: Seq<AccountView>) -> bool {
    &&& new.len() == old.len()
    &&& forall|a: int| 0 <= a < old.len() ==> same_account_but_postings(old[a], #[trigger] new[a])
}

/// The result of adding the totals of the sub-accounts one after the
/// other is the sum of them all.
pub proof fn lemma_add_totals(
    accounts: Seq<AccountView>,
    subs: Seq<usize>,
    k: int,
    p: int,
    debits: i32,
    credits: i32,
)
    requires
        0 <= k,
    ensures
        add_totals(accounts, subs, k, p, debits, credits) matches Ok((d, c)) ==> d == debits
            + sub_total(accounts, subs, k, p, true) && c == credits + sub_total(
            accounts,
            subs,
            k,
            p,
            false,
        ),
    decreases subs.len() - k,
{
    if k < subs.len() {
        let child = accounts[subs[k] as int];
        let d = debits + child.rec_debits[p];
        let c = credits + child.rec_credits[p];
        if !(d > i32::MAX || d < i32::MIN || c > i32::MAX || c < i32::MIN) {
            lemma_add_totals(accounts, subs, k + 1, p, d as i32, c as i32);
        }
    }
}

} // verus!

verus! {

// ---------------------------------------------------------------------
// The chart as text
// ---------------------------------------------------------------------

/// What marks the classification of a top-level account.
pub open spec fn type_prefix(t: AccountType, top_level: bool) -> Seq<char> {
    if top_level && t == AccountType::Assets {
        seq!['+', ' ']
    } else if top_level && t == AccountType::LiabilitiesTopLevel {
        seq!['-', ' ']
    } else {
        Seq::empty()
    }
}

/// The number of an account and a space, or nothing.
pub open spec fn number_text(n: Option<i32>) -> Seq<char> {
    match n {
        Some(k) => signed_decimal(k as int) + seq![' '],
        None => Seq::empty(),
    }
}

/// A name in quotation marks that do not occur in it: double ones, else
/// single ones, else guillemets.
pub open spec fn quoted(name: Seq<char>) -> Seq<char> {
    if !name.contains('"') {
        seq!['"'] + name + seq!['"']
    } else if !name.contains('\'') {
        seq!['\''] + name + seq!['\'']
    } else {
        seq!['\u{00BB}'] + name + seq!['\u{00BB}']
    }
}

/// The declaration of account `id` and, each on a line of its own and
/// indented by two more spaces, of its sub-accounts.
pub open spec fn account_text(accounts: Seq<AccountView>, id: int, top_level: bool, indent: nat) -> Seq<
    char,
>
    decreases accounts.len() - id, accounts[id].sub_accounts.len() + 1,
{
    if id < 0 || id >= accounts.len() {
        Seq::empty()
    } else {
        let a = accounts[id];
        spaces(indent) + type_prefix(a.t, top_level) + number_text(a.n) + quoted(a.name)
            + sub_accounts_text(accounts, a.sub_accounts, 0, id, indent + 2)
    }
}

/// The declarations of the sub-accounts of `parent` from position `k`
/// on, each behind a line feed.
pub open spec fn sub_accounts_text(
    accounts: Seq<AccountView>,
    subs: Seq<usize>,
    k: int,
    parent: int,
    indent: nat,
) -> Seq<char>
    decreases accounts.len() - parent, subs.len() - k,
{
    if k < 0 || k >= subs.len() {
        Seq::empty()
    } else if parent < subs[k] < accounts.len() {
        seq!['\n'] + account_text(accounts, subs[k] as int, false, indent) + sub_accounts_text(
            accounts,
            subs,
            k + 1,
            parent,
            indent,
        )
    } else {
        sub_accounts_text(accounts, subs, k + 1, parent, indent)
    }
}

/// The declarations of the top-level accounts from position `k` on, one
/// line feed between each two.
pub open spec fn chart_text(accounts: Seq<AccountView>, roots: Seq<usize>, k: int) -> Seq<char>
    decreases roots.len() - k,
{
    if k < 0 || k >= roots.len() {
        Seq::empty()
    } else if k + 1 < roots.len() {
        account_text(accounts, roots[k] as int, true, 0) + seq!['\n'] + chart_text(
            accounts,
            roots,
            k + 1,
        )
    } else {
        account_text(accounts, roots[k] as int, true, 0)
    }
}

impl Chart {
    /// Appends the declaration of an account and of its sub-accounts.
    fn write_account(
        &self,
        id: usize,
        top_level: bool,
        indent: &String,
        Ghost(level): Ghost<nat>,
        Ghost(periods): Ghost<int>,
        out: &mut String,
    )
        requires
            self@.wf(periods),
            id < self.accounts.len(),
            indent@ == spaces(level),
        ensures
            final(out)@ == old(out)@ + account_text(self@.accounts, id as int, top_level, level),
        decreases self.accounts.len() - id,
    {
        let ghost accounts = self@.accounts;
        let account = &self.accounts[id];
        assert(accounts[id as int] == account@);
        let mut text = String::new();
        text.append(indent.as_str());
        if top_level {
            match account.t {
                AccountType::Assets => {
                    text.push('+');
                    text.push(' ');
                },
                AccountType::LiabilitiesTopLevel => {
                    text.push('-');
                    text.push(' ');
                },
                _ => {},
            }
        }
        assert(text@ =~= spaces(level) + type_prefix(account.t, top_level));
        if let Some(n) = account.n {
            push_signed_decimal(&mut text, n);
            text.push(' ');
        }
        assert(text@ =~= spaces(level) + type_prefix(account.t, top_level) + number_text(account.n));
        let mark = if !text_contains(account.name.as_str(), '"') {
            '"'
        } else if !text_contains(account.name.as_str(), '\'') {
            '\''
        } else {
            '\u{00BB}'
        };
        text.push(mark);
        text.append(account.name.as_str());
        text.push(mark);
        assert(text@ =~= spaces(level) + type_prefix(account.t, top_level) + number_text(account.n)
            + quoted(account.name@));
        let ghost head = text@;
        let mut deeper = String::new();
        deeper.append(indent.as_str());
        deeper.push(' ');
        deeper.push(' ');
        proof {
            assert(deeper@ =~= spaces(level + 2));
        }
        let ghost subs = account@.sub_accounts;
        let mut k: usize = 0;
        while k < account.sub_accounts.len()
            invariant
                k <= account.sub_accounts.len(),
                self@.wf(periods),
                accounts == self@.accounts,
                id < self.accounts.len(),
                account == &self.accounts[id as int],
                accounts[id as int] == account@,
                subs == account@.sub_accounts,
                deeper@ == spaces(level + 2),
                text@ + sub_accounts_text(accounts, subs, k as int, id as int, level + 2) == head
                    + sub_accounts_text(accounts, subs, 0, id as int, level + 2),
            decreases account.sub_accounts.len() - k,
        {
            let child = account.sub_accounts[k];
            assert(child == accounts[id as int].sub_accounts[k as int]);
            assert(id < child < accounts.len());
            let ghost before = text@;
            text.push('\n');
            self.write_account(child, false, &deeper, Ghost(level + 2), Ghost(periods), &mut text);
            proof {
                let rest = sub_accounts_text(accounts, subs, k + 1, id as int, level + 2);
                assert(text@ + rest =~= before + (seq!['\n'] + account_text(
                    accounts,
                    child as int,
                    false,
                    level + 2,
                ) + rest));
            }
            k = k + 1;
        }
        proof {
            assert(text@ + Seq::<char>::empty() =~= text@);
        }
        out.append(text.as_str());
    }

    /// The declaration of an account and of its sub-accounts, indented by
    /// `indent_level` spaces, as the account map is written.
    pub(crate) fn as_string(&self, id: usize, top_level: bool, indent_level: usize, Ghost(periods): Ghost<int>) -> (r:
        String)
        requires
            self@.wf(periods),
            id < self.accounts.len(),
        ensures
            r@ == account_text(self@.accounts, id as int, top_level, indent_level as nat),
    {
        let indent = crate::chars::spaces_text(indent_level);
        let mut out = String::new();
        self.write_account(id, top_level, &indent, Ghost(indent_level as nat), Ghost(periods), &mut out);
        proof {
            assert(Seq::<char>::empty() + account_text(
                self@.accounts,
                id as int,
                top_level,
                indent_level as nat,
            ) =~= account_text(self@.accounts, id as int, top_level, indent_level as nat));
        }
        out
    }

    /// The chart as the text of an account map.
    pub(crate) fn account_map_string(&self, Ghost(periods): Ghost<int>) -> (r: String)
        requires
            self@.wf(periods),
        ensures
            r@ == chart_text(self@.accounts, self@.roots, 0),
    {
        let ghost accounts = self@.accounts;
        let ghost roots = self@.roots;
        let none = String::new();
        proof {
            assert(none@ =~= spaces(0));
        }
        let mut out = String::new();
        let mut k: usize = 0;
        while k < self.roots.len()
            invariant
                k <= self.roots.len(),
                self@.wf(periods),
                accounts == self@.accounts,
                roots == self@.roots,
                none@ == spaces(0),
                out@ + chart_text(accounts, roots, k as int) == chart_text(accounts, roots, 0),
            decreases self.roots.len() - k,
        {
            let root = self.roots[k];
            assert(root == roots[k as int]);
            let ghost before = out@;
            self.write_account(root, true, &none, Ghost(0), Ghost(periods), &mut out);
            if k + 1 < self.roots.len() {
                out.push('\n');
                proof {
                    let rest = chart_text(accounts, roots, k + 1);
                    assert(out@ + rest =~= before + (account_text(accounts, root as int, true, 0)
                        + seq!['\n'] + rest));
                }
            } else {
                proof {
                    assert(out@ + chart_text(accounts, roots, k + 1) =~= before + account_text(
                        accounts,
                        root as int,
                        true,
                        0,
                    ));
                }
            }
            k = k + 1;
        }
        proof {
            assert(out@ + Seq::<char>::empty() =~= out@);
        }
        out
    }
}

} // verus!
