//! The entries of a transaction: from accounts as written and amounts
//! with placeholders to account numbers and amounts that balance.

use vstd::prelude::*;
use crate::date::{is_calendar_date, Date, MIN_YEAR};
use crate::error::LedgerError;
use crate::scope::{alias_value, Scope, ScopeView};
use crate::semantic::{account_number, div100, entries_view, EntryType, SAccount, SAccountView,
    SAuto, SEntry, SEntryView};

verus! {

/// The account number that an entry posts to: what is written, or what
/// the alias is bound to, divided by 100.
pub open spec fn entry_account_number(account: SAccountView, aliases: Seq<(Seq<char>, i32)>) -> Result<
    i32,
    LedgerError,
> {
    match account {
        SAccountView::N(n) => Ok(div100(n)),
        SAccountView::Alias(name) => match alias_value(aliases, name) {
            Some(n) => Ok(div100(n)),
            None => Err(LedgerError::UndefinedAlias),
        },
    }
}

/// The entries resolved so far: account numbers with amounts, a zero for
/// each placeholder; the sum of the amounts; and the position of the last
/// placeholder.
pub struct Resolution {
    pub entries: Seq<(i32, i32)>,
    pub balance: i32,
    pub auto_index: Option<int>,
}

/// The resolution before any entry is read.
pub open spec fn no_entries() -> Resolution {
    Resolution { entries: Seq::empty(), balance: 0, auto_index: None }
}

/// The resolution after the amounts from position `i` on are added for
/// one account. The sum of the amounts must stay in range.
pub open spec fn add_amounts(st: Resolution, account: i32, amounts: Seq<SAuto<i32>>, i: int) -> Result<
    Resolution,
    LedgerError,
>
    decreases amounts.len() - i,
{
    if i < 0 || i >= amounts.len() {
        Ok(st)
    } else {
        match amounts[i] {
            SAuto::Val(n) => if st.balance + n > i32::MAX || st.balance + n < i32::MIN {
                Err(LedgerError::AmountOverflow)
            } else {
                add_amounts(
                    Resolution {
                        entries: st.entries.push((account, n)),
                        balance: (st.balance + n) as i32,
                        auto_index: st.auto_index,
                    },
                    account,
                    amounts,
                    i + 1,
                )
            },
            SAuto::Auto => add_amounts(
                Resolution {
                    entries: st.entries.push((account, 0i32)),
                    balance: st.balance,
                    auto_index: Some(st.entries.len() as int),
                },
                account,
                amounts,
                i + 1,
            ),
        }
    }
}

/// The resolution after the entries from position `i` on are added.
pub open spec fn add_entries(
    st: Resolution,
    entries: Seq<SEntryView>,
    aliases: Seq<(Seq<char>, i32)>,
    i: int,
) -> Result<Resolution, LedgerError>
    decreases entries.len() - i,
{
    if i < 0 || i >= entries.len() {
        Ok(st)
    } else {
        match entry_account_number(entries[i].account, aliases) {
            Err(e) => Err(e),
            Ok(account) => match add_amounts(st, account, entries[i].amounts, 0) {
                Err(e) => Err(e),
                Ok(next) => add_entries(next, entries, aliases, i + 1),
            },
        }
    }
}

/// The entries that balance. A placeholder takes the negated sum of the
/// amounts. Without a placeholder, a sum that is not zero goes negated to
/// the balancing account of the scope; if there is none, the transaction
/// is rejected unless it is a budget row.
pub open spec fn balanced(res: Resolution, auto_balance: Option<i32>, budget: bool) -> Result<
    Seq<(i32, i32)>,
    LedgerError,
> {
    match res.auto_index {
        Some(i) => if res.balance == i32::MIN {
            Err(LedgerError::AmountOverflow)
        } else {
            Ok(res.entries.update(i, (res.entries[i].0, (-res.balance) as i32)))
        },
        None => if res.balance == 0 {
            Ok(res.entries)
        } else {
            match auto_balance {
                Some(account) => if res.balance == i32::MIN {
                    Err(LedgerError::AmountOverflow)
                } else {
                    Ok(res.entries.push((div100(account), (-res.balance) as i32)))
                },
                None => if budget {
                    Ok(res.entries)
                } else {
                    Err(LedgerError::UnbalancedTransaction)
                },
            }
        },
    }
}

/// The resolved entries of a transaction in a scope.
pub open spec fn resolved_entries(entries: Seq<SEntryView>, scope: ScopeView, budget: bool) -> Result<
    Seq<(i32, i32)>,
    LedgerError,
> {
    match add_entries(no_entries(), entries, scope.aliases, 0) {
        Err(e) => Err(e),
        Ok(res) => balanced(res, scope.auto_balance, budget),
    }
}

/// The date of a transaction and the year that later dates without a
/// year take. A budget row has the earliest date. Otherwise the date is
/// the transaction's own or else the scope's. Year 0 stands for the year
/// last seen, a year below 100 for that year of the 2000s, and any other
/// year is itself and becomes the year last seen.
pub open spec fn transaction_date(
    date: Option<Date>,
    scope_date: Option<Date>,
    year: i32,
    budget: bool,
) -> Result<(Date, i32), LedgerError> {
    if budget {
        Ok((Date { year: MIN_YEAR, month: 1, day: 1 }, year))
    } else {
        let given = if date is Some {
            date
        } else {
            scope_date
        };
        match given {
            None => Err(LedgerError::MissingDate),
            Some(d) => {
                if d.year == 0 {
                    if is_calendar_date(year as int, d.month as int, d.day as int) {
                        Ok((Date { year, month: d.month, day: d.day }, year))
                    } else {
                        Err(LedgerError::InvalidDate)
                    }
                } else if d.year < 100 {
                    if is_calendar_date(d.year + 2000, d.month as int, d.day as int) {
                        Ok((Date { year: (d.year + 2000) as i32, month: d.month, day: d.day }, year))
                    } else {
                        Err(LedgerError::InvalidDate)
                    }
                } else {
                    Ok((d, d.year))
                }
            },
        }
    }
}

/// The amounts of a budget row as amounts of an entry: an amount marked
/// as credit is negated, any other is posted with the sign it is written
/// with, so that a plain negative amount is a credit.
pub open spec fn budget_values(amounts: Seq<(i32, EntryType)>, i: int) -> Result<
    Seq<SAuto<i32>>,
    LedgerError,
>
    decreases amounts.len() - i,
{
    if i < 0 || i >= amounts.len() {
        Ok(Seq::empty())
    } else {
        let value = if amounts[i].1 == EntryType::Credit {
            crate::semantic::negated(amounts[i].0)
        } else {
            Ok(amounts[i].0)
        };
        match value {
            Err(e) => Err(e),
            Ok(v) => crate::semantic::cons(SAuto::Val(v), budget_values(amounts, i + 1)),
        }
    }
}

/// Resolves the date of a transaction.
pub fn resolve_date(date: Option<Date>, scope_date: Option<Date>, year: i32, budget: bool) -> (r:
    Result<(Date, i32), LedgerError>)
    ensures
        r == transaction_date(date, scope_date, year, budget),
{
    if budget {
        return Ok((Date::earliest(), year));
    }
    let given = match date {
        Some(d) => Some(d),
        None => scope_date,
    };
    let d = match given {
        Some(d) => d,
        None => {
            return Err(LedgerError::MissingDate);
        },
    };
    if d.year == 0 {
        match d.replace_year(year) {
            Some(r) => Ok((r, year)),
            None => Err(LedgerError::InvalidDate),
        }
    } else if d.year < 100 {
        match d.replace_year(d.year + 2000) {
            Some(r) => Ok((r, year)),
            None => Err(LedgerError::InvalidDate),
        }
    } else {
        Ok((d, d.year))
    }
}

/// The amounts of a budget row as amounts of an entry.
pub fn budget_entry_amounts(amounts: &Vec<(i32, EntryType)>) -> (r: Result<
    Vec<SAuto<i32>>,
    LedgerError,
>)
    ensures
        match r {
            Ok(v) => budget_values(amounts@, 0) == Ok::<Seq<SAuto<i32>>, LedgerError>(v@),
            Err(e) => budget_values(amounts@, 0) == Err::<Seq<SAuto<i32>>, LedgerError>(e),
        },
{
    let mut out: Vec<SAuto<i32>> = Vec::new();
    let mut i: usize = 0;
    proof {
        match budget_values(amounts@, 0) {
            Ok(rest) => {
                assert(out@ + rest =~= rest);
            },
            Err(_) => {},
        }
    }
    while i < amounts.len()
        invariant
            i <= amounts.len(),
            match budget_values(amounts@, i as int) {
                Ok(rest) => budget_values(amounts@, 0) == Ok::<Seq<SAuto<i32>>, LedgerError>(
                    out@ + rest,
                ),
                Err(e) => budget_values(amounts@, 0) == Err::<Seq<SAuto<i32>>, LedgerError>(e),
            },
        decreases amounts.len() - i,
    {
        let (a, t) = amounts[i];
        let v = match t {
            EntryType::Credit => {
                if a == i32::MIN {
                    return Err(LedgerError::AmountOverflow);
                }
                -a
            },
            _ => a,
        };
        proof {
            match budget_values(amounts@, i + 1) {
                Ok(rest) => {
                    assert(out@ + (seq![SAuto::Val(v)] + rest) =~= out@.push(SAuto::Val(v)) + rest);
                },
                Err(_) => {},
            }
        }
        out.push(SAuto::Val(v));
        i = i + 1;
    }
    proof {
        assert(out@ + Seq::<SAuto<i32>>::empty() =~= out@);
    }
    Ok(out)
}

/// Resolves the entries of a transaction in a scope: account numbers for
/// the accounts, and amounts that balance.
pub fn resolve_entries(entries: &Vec<SEntry>, scope: &Scope, budget: bool) -> (r: Result<
    Vec<(i32, i32)>,
    LedgerError,
>)
    ensures
        match r {
            Ok(v) => resolved_entries(entries_view(entries@), scope@, budget) == Ok::<
                Seq<(i32, i32)>,
                LedgerError,
            >(v@),
            Err(e) => resolved_entries(entries_view(entries@), scope@, budget) == Err::<
                Seq<(i32, i32)>,
                LedgerError,
            >(e),
        },
{
    let ghost all = entries_view(entries@);
    let ghost aliases = scope@.aliases;
    let mut resolved: Vec<(i32, i32)> = Vec::new();
    let mut balance: i32 = 0;
    let mut auto_index: Option<usize> = None;
    let mut i: usize = 0;
    while i < entries.len()
        invariant
            i <= entries.len(),
            all == entries_view(entries@),
            aliases == scope@.aliases,
            auto_index matches Some(k) ==> k < resolved.len(),
            add_entries(no_entries(), all, aliases, 0) == add_entries(
                Resolution {
                    entries: resolved@,
                    balance,
                    auto_index: match auto_index {
                        Some(k) => Some(k as int),
                        None => None,
                    },
                },
                all,
                aliases,
                i as int,
            ),
        decreases entries.len() - i,
    {
        let entry = &entries[i];
        assert(all[i as int] == entry@);
        let account = match &entry.account {
            SAccount::N(n) => account_number(*n),
            SAccount::Alias(name) => match scope.alias(name) {
                Some(n) => account_number(n),
                None => {
                    return Err(LedgerError::UndefinedAlias);
                },
            },
        };
        let ghost before = Resolution {
            entries: resolved@,
            balance,
            auto_index: match auto_index {
                Some(k) => Some(k as int),
                None => None,
            },
        };
        let mut j: usize = 0;
        while j < entry.amounts.len()
            invariant
                j <= entry.amounts.len(),
                i < entries.len(),
                all == entries_view(entries@),
                aliases == scope@.aliases,
                all[i as int] == entry@,
                entry_account_number(all[i as int].account, aliases) == Ok::<i32, LedgerError>(
                    account,
                ),
                add_entries(no_entries(), all, aliases, 0) == add_entries(
                    before,
                    all,
                    aliases,
                    i as int,
                ),
                auto_index matches Some(k) ==> k < resolved.len(),
                add_amounts(before, account, entry.amounts@, 0) == add_amounts(
                    Resolution {
                        entries: resolved@,
                        balance,
                        auto_index: match auto_index {
                            Some(k) => Some(k as int),
                            None => None,
                        },
                    },
                    account,
                    entry.amounts@,
                    j as int,
                ),
            decreases entry.amounts.len() - j,
        {
            match &entry.amounts[j] {
                SAuto::Val(n) => {
                    match balance.checked_add(*n) {
                        Some(sum) => {
                            resolved.push((account, *n));
                            balance = sum;
                        },
                        None => {
                            return Err(LedgerError::AmountOverflow);
                        },
                    }
                },
                SAuto::Auto => {
                    auto_index = Some(resolved.len());
                    resolved.push((account, 0));
                },
            }
            j = j + 1;
        }
        i = i + 1;
    }
    match auto_index {
        Some(k) => {
            if balance == i32::MIN {
                return Err(LedgerError::AmountOverflow);
            }
            let account = resolved[k].0;
            resolved.set(k, (account, -balance));
        },
        None => {
            if balance != 0 {
                match scope.auto_balance {
                    Some(ab) => {
                        if balance == i32::MIN {
                            return Err(LedgerError::AmountOverflow);
                        }
                        resolved.push((account_number(ab), -balance));
                    },
                    None => {
                        if !budget {
                            return Err(LedgerError::UnbalancedTransaction);
                        }
                    },
                }
            }
        },
    }
    Ok(resolved)
}

/// A year from 1 to 99 stands for that year of the 2000s, and the year 0
/// for the year last seen.
pub proof fn lemma_short_years(d: Date, scope_date: Option<Date>, year: i32)
    requires
        0 <= d.year <= 99,
        transaction_date(Some(d), scope_date, year, false) is Ok,
    ensures
        ({
            let resolved = transaction_date(Some(d), scope_date, year, false)->Ok_0.0;
            &&& resolved.month == d.month
            &&& resolved.day == d.day
            &&& d.year >= 1 ==> resolved.year == 2000 + d.year
            &&& d.year == 0 ==> resolved.year == year
        }),
{
}

/// The amounts of the entries from position `i` on, in the order in
/// which they are written.
pub open spec fn written_amounts(entries: Seq<SEntryView>, i: int) -> Seq<SAuto<i32>>
    decreases entries.len() - i,
{
    if i < 0 || i >= entries.len() {
        Seq::empty()
    } else {
        entries[i].amounts + written_amounts(entries, i + 1)
    }
}

/// The account numbers of the entries from position `i` on, one for
/// each amount that is written, in the order in which they are written.
pub open spec fn written_accounts(
    entries: Seq<SEntryView>,
    aliases: Seq<(Seq<char>, i32)>,
    i: int,
) -> Seq<i32>
    decreases entries.len() - i,
{
    if i < 0 || i >= entries.len() {
        Seq::empty()
    } else {
        let account = match entry_account_number(entries[i].account, aliases) {
            Ok(n) => n,
            Err(_) => 0i32,
        };
        Seq::new(entries[i].amounts.len(), |j: int| account) + written_accounts(
            entries,
            aliases,
            i + 1,
        )
    }
}

/// The amount that is written at a place: a placeholder states none.
pub open spec fn stated(a: SAuto<i32>) -> int {
    match a {
        SAuto::Val(n) => n as int,
        SAuto::Auto => 0,
    }
}

/// The sum of the amounts that are written.
pub open spec fn stated_sum(amounts: Seq<SAuto<i32>>) -> int
    decreases amounts.len(),
{
    if amounts.len() == 0 {
        0
    } else {
        stated_sum(amounts.drop_last()) + stated(amounts.last())
    }
}

/// The number of placeholders.
pub open spec fn placeholders(amounts: Seq<SAuto<i32>>) -> nat
    decreases amounts.len(),
{
    if amounts.len() == 0 {
        0
    } else {
        placeholders(amounts.drop_last()) + if amounts.last() is Auto {
            1nat
        } else {
            0nat
        }
    }
}

/// The sum of the amounts of resolved entries.
pub open spec fn entries_sum(entries: Seq<(i32, i32)>) -> int
    decreases entries.len(),
{
    if entries.len() == 0 {
        0
    } else {
        entries_sum(entries.drop_last()) + entries.last().1
    }
}

/// What holds of a resolution that has read the amounts `written`.
pub open spec fn reads(st: Resolution, written: Seq<SAuto<i32>>) -> bool {
    &&& st.entries.len() == written.len()
    &&& st.balance == stated_sum(written)
    &&& entries_sum(st.entries) == st.balance
    &&& forall|j: int| 0 <= j < written.len() ==> (#[trigger] st.entries[j]).1 == stated(written[j])
    &&& placeholders(written) == 0 <==> st.auto_index is None
    &&& st.auto_index matches Some(k) ==> {
        &&& 0 <= k < written.len()
        &&& written[k] is Auto
        &&& forall|j: int| k < j < written.len() ==> !(#[trigger] written[j] is Auto)
    }
}

/// What holds of a resolution whose entries go to `accounts`, one after
/// the other.
pub open spec fn posts_to(st: Resolution, accounts: Seq<i32>) -> bool {
    &&& st.entries.len() == accounts.len()
    &&& forall|j: int| 0 <= j < accounts.len() ==> (#[trigger] st.entries[j]).0 == accounts[j]
}

proof fn lemma_posts_amounts(
    st: Resolution,
    accounts: Seq<i32>,
    account: i32,
    amounts: Seq<SAuto<i32>>,
    i: int,
)
    requires
        posts_to(st, accounts),
        0 <= i <= amounts.len(),
        add_amounts(st, account, amounts, i) is Ok,
    ensures
        posts_to(
            add_amounts(st, account, amounts, i)->Ok_0,
            accounts + Seq::new((amounts.len() - i) as nat, |j: int| account),
        ),
    decreases amounts.len() - i,
{
    if i >= amounts.len() {
        assert(accounts + Seq::new((amounts.len() - i) as nat, |j: int| account) =~= accounts);
    } else {
        let next_accounts = accounts.push(account);
        assert(next_accounts + Seq::new((amounts.len() - (i + 1)) as nat, |j: int| account)
            =~= accounts + Seq::new((amounts.len() - i) as nat, |j: int| account));
        let next = match amounts[i] {
            SAuto::Val(n) => Resolution {
                entries: st.entries.push((account, n)),
                balance: (st.balance + n) as i32,
                auto_index: st.auto_index,
            },
            SAuto::Auto => Resolution {
                entries: st.entries.push((account, 0i32)),
                balance: st.balance,
                auto_index: Some(st.entries.len() as int),
            },
        };
        assert forall|j: int| 0 <= j < next_accounts.len() implies (#[trigger] next.entries[j]).0
            == next_accounts[j] by {
            if j < accounts.len() {
                assert(next.entries[j] == st.entries[j]);
            }
        }
        lemma_posts_amounts(next, next_accounts, account, amounts, i + 1);
    }
}

proof fn lemma_posts_entries(
    st: Resolution,
    accounts: Seq<i32>,
    entries: Seq<SEntryView>,
    aliases: Seq<(Seq<char>, i32)>,
    i: int,
)
    requires
        posts_to(st, accounts),
        0 <= i <= entries.len(),
        add_entries(st, entries, aliases, i) is Ok,
    ensures
        posts_to(
            add_entries(st, entries, aliases, i)->Ok_0,
            accounts + written_accounts(entries, aliases, i),
        ),
    decreases entries.len() - i,
{
    if i >= entries.len() {
        assert(accounts + written_accounts(entries, aliases, i) =~= accounts);
    } else {
        let account = entry_account_number(entries[i].account, aliases)->Ok_0;
        let amounts = entries[i].amounts;
        lemma_posts_amounts(st, accounts, account, amounts, 0);
        let next = add_amounts(st, account, amounts, 0)->Ok_0;
        let here = Seq::new(amounts.len(), |j: int| account);
        assert(Seq::new((amounts.len() - 0) as nat, |j: int| account) =~= here);
        assert((accounts + here) + written_accounts(entries, aliases, i + 1) =~= accounts
            + written_accounts(entries, aliases, i));
        lemma_posts_entries(next, accounts + here, entries, aliases, i + 1);
    }
}

proof fn lemma_reads_amounts(
    st: Resolution,
    written: Seq<SAuto<i32>>,
    account: i32,
    amounts: Seq<SAuto<i32>>,
    i: int,
)
    requires
        reads(st, written),
        0 <= i <= amounts.len(),
        add_amounts(st, account, amounts, i) is Ok,
    ensures
        reads(
            add_amounts(st, account, amounts, i)->Ok_0,
            written + amounts.subrange(i, amounts.len() as int),
        ),
    decreases amounts.len() - i,
{
    if i >= amounts.len() {
        assert(written + amounts.subrange(i, amounts.len() as int) =~= written);
    } else {
        let next_written = written.push(amounts[i]);
        assert(next_written.drop_last() =~= written);
        assert(next_written + amounts.subrange(i + 1, amounts.len() as int) =~= written
            + amounts.subrange(i, amounts.len() as int));
        let next = match amounts[i] {
            SAuto::Val(n) => Resolution {
                entries: st.entries.push((account, n)),
                balance: (st.balance + n) as i32,
                auto_index: st.auto_index,
            },
            SAuto::Auto => Resolution {
                entries: st.entries.push((account, 0i32)),
                balance: st.balance,
                auto_index: Some(st.entries.len() as int),
            },
        };
        assert(next.entries.drop_last() =~= st.entries);
        assert forall|j: int| 0 <= j < next_written.len() implies (#[trigger] next.entries[j]).1
            == stated(next_written[j]) by {
            if j < written.len() {
                assert(next.entries[j] == st.entries[j]);
            }
        }
        assert(reads(next, next_written));
        lemma_reads_amounts(next, next_written, account, amounts, i + 1);
    }
}

proof fn lemma_reads_entries(
    st: Resolution,
    written: Seq<SAuto<i32>>,
    entries: Seq<SEntryView>,
    aliases: Seq<(Seq<char>, i32)>,
    i: int,
)
    requires
        reads(st, written),
        0 <= i <= entries.len(),
        add_entries(st, entries, aliases, i) is Ok,
    ensures
        reads(add_entries(st, entries, aliases, i)->Ok_0, written + written_amounts(entries, i)),
    decreases entries.len() - i,
{
    if i >= entries.len() {
        assert(written + written_amounts(entries, i) =~= written);
    } else {
        let account = entry_account_number(entries[i].account, aliases)->Ok_0;
        let amounts = entries[i].amounts;
        lemma_reads_amounts(st, written, account, amounts, 0);
        let next = add_amounts(st, account, amounts, 0)->Ok_0;
        assert(amounts.subrange(0, amounts.len() as int) =~= amounts);
        assert((written + amounts) + written_amounts(entries, i + 1) =~= written + written_amounts(
            entries,
            i,
        ));
        lemma_reads_entries(next, written + amounts, entries, aliases, i + 1);
    }
}

proof fn lemma_entries_sum_update(entries: Seq<(i32, i32)>, k: int, e: (i32, i32))
    requires
        0 <= k < entries.len(),
    ensures
        entries_sum(entries.update(k, e)) == entries_sum(entries) - entries[k].1 + e.1,
    decreases entries.len(),
{
    let updated = entries.update(k, e);
    if k == entries.len() - 1 {
        assert(updated.drop_last() =~= entries.drop_last());
    } else {
        assert(updated.drop_last() =~= entries.drop_last().update(k, e));
        lemma_entries_sum_update(entries.drop_last(), k, e);
    }
}

proof fn lemma_single_placeholder(written: Seq<SAuto<i32>>, j: int, k: int)
    requires
        0 <= j < k < written.len(),
        written[j] is Auto,
        written[k] is Auto,
    ensures
        placeholders(written) >= 2,
    decreases written.len(),
{
    if k == written.len() - 1 {
        lemma_some_placeholder(written.drop_last(), j);
    } else {
        lemma_single_placeholder(written.drop_last(), j, k);
    }
}

proof fn lemma_some_placeholder(written: Seq<SAuto<i32>>, j: int)
    requires
        0 <= j < written.len(),
        written[j] is Auto,
    ensures
        placeholders(written) >= 1,
    decreases written.len(),
{
    if j < written.len() - 1 {
        lemma_some_placeholder(written.drop_last(), j);
    }
}

/// A transaction with exactly one placeholder balances: it has one entry
/// for each amount that is written, in the order written; every entry
/// goes to the account that its amount is written under; every written
/// amount is kept; the placeholder takes the negated sum of the written
/// amounts; and all amounts sum to zero.
pub proof fn lemma_auto_entry_balances(entries: Seq<SEntryView>, scope: ScopeView, budget: bool)
    requires
        placeholders(written_amounts(entries, 0)) == 1,
        resolved_entries(entries, scope, budget) is Ok,
    ensures
        ({
            let resolved = resolved_entries(entries, scope, budget)->Ok_0;
            let written = written_amounts(entries, 0);
            let accounts = written_accounts(entries, scope.aliases, 0);
            &&& resolved.len() == written.len()
            &&& accounts.len() == written.len()
            &&& entries_sum(resolved) == 0
            &&& forall|j: int|
                0 <= j < written.len() ==> (#[trigger] resolved[j]).0 == accounts[j]
            &&& forall|j: int|
                0 <= j < written.len() ==> (#[trigger] resolved[j]).1 == (match written[j] {
                    SAuto::Val(n) => n as int,
                    SAuto::Auto => -stated_sum(written),
                })
        }),
{
    let written = written_amounts(entries, 0);
    let accounts = written_accounts(entries, scope.aliases, 0);
    let res = add_entries(no_entries(), entries, scope.aliases, 0)->Ok_0;
    assert(posts_to(no_entries(), Seq::<i32>::empty()));
    lemma_posts_entries(no_entries(), Seq::empty(), entries, scope.aliases, 0);
    assert(Seq::<i32>::empty() + accounts =~= accounts);
    assert(posts_to(res, accounts));
    assert(reads(no_entries(), Seq::<SAuto<i32>>::empty()));
    lemma_reads_entries(no_entries(), Seq::empty(), entries, scope.aliases, 0);
    assert(Seq::<SAuto<i32>>::empty() + written =~= written);
    assert(reads(res, written));
    let k = res.auto_index->Some_0;
    let resolved = resolved_entries(entries, scope, budget)->Ok_0;
    assert(resolved == res.entries.update(k, (res.entries[k].0, (-res.balance) as i32)));
    lemma_entries_sum_update(res.entries, k, (res.entries[k].0, (-res.balance) as i32));
    assert(res.entries[k].1 == stated(written[k]));
    assert forall|j: int| 0 <= j < written.len() implies (#[trigger] resolved[j]).0
        == accounts[j] by {
        if j != k {
            assert(resolved[j] == res.entries[j]);
        }
    }
    assert forall|j: int| 0 <= j < written.len() implies (#[trigger] resolved[j]).1 == (
    match written[j] {
        SAuto::Val(n) => n as int,
        SAuto::Auto => -stated_sum(written),
    }) by {
        if j != k {
            assert(resolved[j] == res.entries[j]);
            if written[j] is Auto {
                if j < k {
                    lemma_single_placeholder(written, j, k);
                } else {
                    lemma_single_placeholder(written, k, j);
                }
            }
        }
    }
}

} // verus!
