//! Scopes: the date, the balancing account and the aliases that hold for
//! the statements of a block.

use vstd::prelude::*;
use crate::date::Date;

verus! {

/// What one block sets for the statements in it.
#[derive(Debug)]
pub struct Scope {
    pub date: Option<Date>,
    pub auto_balance: Option<i32>,
    pub aliases: Vec<(String, i32)>,
}

/// A scope as a mathematical value. Of two bindings of one alias the
/// later one holds.
pub struct ScopeView {
    pub date: Option<Date>,
    pub auto_balance: Option<i32>,
    pub aliases: Seq<(Seq<char>, i32)>,
}

/// The bindings of aliases as mathematical values.
pub open spec fn aliases_view(s: Seq<(String, i32)>) -> Seq<(Seq<char>, i32)> {
    Seq::new(s.len(), |i: int| (s[i].0@, s[i].1))
}

impl View for Scope {
    type V = ScopeView;

    open spec fn view(&self) -> ScopeView {
        ScopeView {
            date: self.date,
            auto_balance: self.auto_balance,
            aliases: aliases_view(self.aliases@),
        }
    }
}

/// The views of a stack of scopes.
pub open spec fn scopes_view(s: Seq<Scope>) -> Seq<ScopeView> {
    Seq::new(s.len(), |i: int| s[i]@)
}

/// The scope that sets nothing.
pub open spec fn empty_scope() -> ScopeView {
    ScopeView { date: None, auto_balance: None, aliases: Seq::empty() }
}

/// The account number that an alias stands for: its last binding.
pub open spec fn alias_value(aliases: Seq<(Seq<char>, i32)>, name: Seq<char>) -> Option<i32>
    decreases aliases.len(),
{
    if aliases.len() == 0 {
        None
    } else if aliases.last().0 == name {
        Some(aliases.last().1)
    } else {
        alias_value(aliases.drop_last(), name)
    }
}

/// What holds inside nested scopes, outermost first: the date and the
/// balancing account of the innermost scope that sets one, and the
/// aliases of all of them, inner bindings after outer ones.
pub open spec fn collapse(scopes: Seq<ScopeView>) -> ScopeView
    decreases scopes.len(),
{
    if scopes.len() == 0 {
        empty_scope()
    } else {
        let outer = collapse(scopes.drop_last());
        let inner = scopes.last();
        ScopeView {
            date: if inner.date is Some {
                inner.date
            } else {
                outer.date
            },
            auto_balance: if inner.auto_balance is Some {
                inner.auto_balance
            } else {
                outer.auto_balance
            },
            aliases: outer.aliases + inner.aliases,
        }
    }
}

impl Default for Scope {
    fn default() -> (r: Scope)
        ensures
            r@ == empty_scope(),
    {
        let r = Scope { date: None, auto_balance: None, aliases: Vec::new() };
        proof {
            assert(r@.aliases =~= Seq::<(Seq<char>, i32)>::empty());
        }
        r
    }
}

impl Scope {
    /// A scope that sets a date.
    pub fn with_date(date: Date) -> (r: Scope)
        ensures
            r@ == (ScopeView { date: Some(date), ..empty_scope() }),
    {
        let r = Scope { date: Some(date), auto_balance: None, aliases: Vec::new() };
        proof {
            assert(r@.aliases =~= Seq::<(Seq<char>, i32)>::empty());
        }
        r
    }

    /// A scope that sets the balancing account.
    pub fn with_auto_balance(account: i32) -> (r: Scope)
        ensures
            r@ == (ScopeView { auto_balance: Some(account), ..empty_scope() }),
    {
        let r = Scope { date: None, auto_balance: Some(account), aliases: Vec::new() };
        proof {
            assert(r@.aliases =~= Seq::<(Seq<char>, i32)>::empty());
        }
        r
    }

    /// Binds an alias to an account number.
    pub fn add_hash(&mut self, k: String, v: i32)
        ensures
            final(self)@ == (ScopeView { aliases: old(self)@.aliases.push((k@, v)), ..old(self)@ }),
    {
        self.aliases.push((k, v));
        proof {
            assert(self@.aliases =~= old(self)@.aliases.push((k@, v)));
        }
    }

    /// The account number that an alias stands for.
    pub fn alias(&self, name: &String) -> (r: Option<i32>)
        ensures
            r == alias_value(self@.aliases, name@),
    {
        let ghost all = aliases_view(self.aliases@);
        let mut j: usize = self.aliases.len();
        proof {
            assert(all.take(j as int) =~= all);
        }
        while j > 0
            invariant
                j <= self.aliases.len(),
                all == aliases_view(self.aliases@),
                alias_value(all, name@) == alias_value(all.take(j as int), name@),
            decreases j,
        {
            proof {
                assert(all.take(j as int).drop_last() =~= all.take(j - 1));
                assert(all.take(j as int).last() == all[j - 1]);
                assert(all[j - 1].0 == self.aliases@[j - 1].0@);
            }
            if self.aliases[j - 1].0 == *name {
                return Some(self.aliases[j - 1].1);
            }
            j = j - 1;
        }
        None
    }
}

/// A stack of scopes, outermost first, that can be merged into one.
pub trait ScopeStack<T> {
    fn collapsed(&self) -> T;
}

impl ScopeStack<Scope> for Vec<Scope> {
    /// What holds inside all scopes of the stack.
    fn collapsed(&self) -> (r: Scope)
        ensures
            r@ == collapse(scopes_view(self@)),
    {
        let ghost all = scopes_view(self@);
        let mut date: Option<Date> = None;
        let mut auto_balance: Option<i32> = None;
        let mut aliases: Vec<(String, i32)> = Vec::new();
        let mut i: usize = 0;
        proof {
            assert(all.take(0) =~= Seq::<ScopeView>::empty());
            assert(aliases_view(aliases@) =~= Seq::<(Seq<char>, i32)>::empty());
        }
        while i < self.len()
            invariant
                i <= self.len(),
                all == scopes_view(self@),
                collapse(all.take(i as int)) == (ScopeView {
                    date,
                    auto_balance,
                    aliases: aliases_view(aliases@),
                }),
            decreases self.len() - i,
        {
            let s = &self[i];
            proof {
                assert(all.take(i + 1).drop_last() =~= all.take(i as int));
                assert(all.take(i + 1).last() == self@[i as int]@);
            }
            if let Some(d) = s.date {
                date = Some(d);
            }
            if let Some(a) = s.auto_balance {
                auto_balance = Some(a);
            }
            let ghost before = aliases_view(aliases@);
            let ghost inner = aliases_view(s.aliases@);
            let mut k: usize = 0;
            proof {
                assert(before + inner.take(0) =~= before);
            }
            while k < s.aliases.len()
                invariant
                    k <= s.aliases.len(),
                    inner == aliases_view(s.aliases@),
                    aliases_view(aliases@) == before + inner.take(k as int),
                decreases s.aliases.len() - k,
            {
                let name = s.aliases[k].0.clone();
                let value = s.aliases[k].1;
                proof {
                    assert(aliases_view(aliases@.push((name, value))) =~= aliases_view(
                        aliases@,
                    ).push((name@, value)));
                    assert(before + inner.take(k + 1) =~= (before + inner.take(k as int)).push(
                        (name@, value),
                    ));
                }
                aliases.push((name, value));
                k = k + 1;
            }
            proof {
                assert(inner.take(k as int) =~= inner);
            }
            i = i + 1;
        }
        proof {
            assert(all.take(i as int) =~= all);
        }
        Scope { date, auto_balance, aliases }
    }
}

} // verus!
