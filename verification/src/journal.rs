//! The journal: document identifiers, the chronological order and the
//! numbering of its entries.

use vstd::prelude::*;
use crate::account::{journal_view, Transaction, TransactionView};
use crate::chars::{all_digits, chars_of, decimal, digits_value, is_digit, push_decimal,
    push_signed_decimal, signed_decimal};
use crate::date::{lemma_decimal_of_digits, lemma_digits_of_decimal, Date};
use crate::lexer::lemma_digits_prefix_le;
use crate::error::LedgerError;

verus! {

// ---------------------------------------------------------------------
// Document identifiers
// ---------------------------------------------------------------------

/// The documents with their counts as mathematical values.
pub open spec fn docs_view(s: Seq<(String, i32)>) -> Seq<(Seq<char>, i32)> {
    Seq::new(s.len(), |i: int| (s[i].0@, s[i].1))
}

/// The position of the count of a document identifier at or after
/// `from`, or the number of counts if there is none.
pub open spec fn doc_index(docs: Seq<(Seq<char>, i32)>, doc: Seq<char>, from: int) -> int
    decreases docs.len() - from,
{
    if from < 0 || from >= docs.len() {
        docs.len() as int
    } else if docs[from].0 == doc {
        from
    } else {
        doc_index(docs, doc, from + 1)
    }
}

/// The identifier that an entry gets, and the counts after it. An entry
/// without a document identifier gets the empty one. The first entry of a
/// document keeps the identifier as it is written; the `k`-th gets the
/// suffix `:k`.
pub open spec fn assign_doc(docs: Seq<(Seq<char>, i32)>, doc: Option<Seq<char>>) -> Result<
    (Seq<char>, Seq<(Seq<char>, i32)>),
    LedgerError,
> {
    match doc {
        None => Ok((Seq::empty(), docs)),
        Some(d) => {
            let i = doc_index(docs, d, 0);
            if i >= docs.len() {
                Ok((d, docs.push((d, 1i32))))
            } else if docs[i].1 == i32::MAX {
                Err(LedgerError::JournalTooLong)
            } else {
                let k = (docs[i].1 + 1) as i32;
                Ok((d + seq![':'] + signed_decimal(k as int), docs.update(i, (docs[i].0, k))))
            }
        },
    }
}

/// Gives an entry its document identifier and counts it.
pub fn assign_document(docs: &mut Vec<(String, i32)>, doc: Option<String>) -> (r: Result<
    String,
    LedgerError,
>)
    ensures
        match r {
            Ok(id) => assign_doc(docs_view(old(docs)@), crate::semantic::option_text(doc)) == Ok::<
                (Seq<char>, Seq<(Seq<char>, i32)>),
                LedgerError,
            >((id@, docs_view(final(docs)@))),
            Err(e) => assign_doc(docs_view(old(docs)@), crate::semantic::option_text(doc)) == Err::<
                (Seq<char>, Seq<(Seq<char>, i32)>),
                LedgerError,
            >(e) && docs_view(final(docs)@) == docs_view(old(docs)@),
        },
{
    let d = match doc {
        None => {
            return Ok(String::new());
        },
        Some(d) => d,
    };
    let ghost before = docs_view(docs@);
    let mut i: usize = 0;
    while i < docs.len() && !(docs[i].0 == d)
        invariant
            i <= docs.len(),
            before == docs_view(docs@),
            *docs == *old(docs),
            doc_index(before, d@, 0) == doc_index(before, d@, i as int),
        decreases docs.len() - i,
    {
        assert(before[i as int].0 == docs@[i as int].0@);
        i = i + 1;
    }
    if i >= docs.len() {
        let id = d.clone();
        docs.push((d, 1));
        proof {
            assert(docs_view(docs@) =~= before.push((d@, 1i32)));
        }
        Ok(id)
    } else {
        assert(before[i as int].0 == docs@[i as int].0@);
        assert(before[i as int].1 == docs@[i as int].1);
        if docs[i].1 == i32::MAX {
            return Err(LedgerError::JournalTooLong);
        }
        let k = docs[i].1 + 1;
        let mut id = d;
        id.push(':');
        push_signed_decimal(&mut id, k);
        docs[i].1 = k;
        proof {
            assert(docs_view(docs@) =~= before.update(i as int, (before[i as int].0, k)));
            assert(id@ =~= d@ + seq![':'] + signed_decimal(k as int));
        }
        Ok(id)
    }
}

/// The position of the first entry at or after `from` whose identifier
/// is `doc`, or the length of the journal if there is none.
pub open spec fn first_with_doc(journal: Seq<TransactionView>, doc: Seq<char>, from: int) -> int
    decreases journal.len() - from,
{
    if from < 0 || from >= journal.len() {
        journal.len() as int
    } else if journal[from].doc == doc {
        from
    } else {
        first_with_doc(journal, doc, from + 1)
    }
}

/// The journal with the suffix `:1` on the first entry whose identifier
/// is `doc`.
pub open spec fn mark_first(journal: Seq<TransactionView>, doc: Seq<char>) -> Seq<
    TransactionView,
> {
    let i = first_with_doc(journal, doc, 0);
    if i < journal.len() {
        journal.update(i, TransactionView { doc: doc + seq![':', '1'], ..journal[i] })
    } else {
        journal
    }
}

/// The journal after the first entry of each document with more than one
/// entry got the suffix `:1`, for the documents from position `i` on in
/// the order in which they first occurred.
pub open spec fn complete_docs(
    journal: Seq<TransactionView>,
    docs: Seq<(Seq<char>, i32)>,
    i: int,
) -> Seq<TransactionView>
    decreases docs.len() - i,
{
    if i < 0 || i >= docs.len() {
        journal
    } else if docs[i].1 > 1 {
        complete_docs(mark_first(journal, docs[i].0), docs, i + 1)
    } else {
        complete_docs(journal, docs, i + 1)
    }
}

/// Completes the identifiers of the documents with more than one entry.
pub fn complete_multi_docs(journal: &mut Vec<Transaction>, docs: &Vec<(String, i32)>)
    ensures
        journal_view(final(journal)@) == complete_docs(
            journal_view(old(journal)@),
            docs_view(docs@),
            0,
        ),
{
    let ghost all = docs_view(docs@);
    let ghost start = journal_view(journal@);
    let mut i: usize = 0;
    while i < docs.len()
        invariant
            i <= docs.len(),
            all == docs_view(docs@),
            complete_docs(start, all, 0) == complete_docs(journal_view(journal@), all, i as int),
        decreases docs.len() - i,
    {
        assert(all[i as int] == (docs@[i as int].0@, docs@[i as int].1));
        if docs[i].1 > 1 {
            let ghost current = journal_view(journal@);
            let mut k: usize = 0;
            while k < journal.len() && !(journal[k].doc == docs[i].0)
                invariant
                    k <= journal.len(),
                    i < docs.len(),
                    current == journal_view(journal@),
                    first_with_doc(current, docs@[i as int].0@, 0) == first_with_doc(
                        current,
                        docs@[i as int].0@,
                        k as int,
                    ),
                decreases journal.len() - k,
            {
                assert(current[k as int].doc == journal@[k as int].doc@);
                k = k + 1;
            }
            if k < journal.len() {
                assert(current[k as int] == journal@[k as int]@);
                let mut id = docs[i].0.clone();
                id.push(':');
                id.push('1');
                proof {
                    assert(id@ =~= docs@[i as int].0@ + seq![':', '1']);
                }
                journal[k].doc = id;
                proof {
                    assert(journal_view(journal@) =~= mark_first(current, docs@[i as int].0@));
                }
            }
        }
        i = i + 1;
    }
}

// ---------------------------------------------------------------------
// Chronological order
// ---------------------------------------------------------------------

/// Where an entry dated `d` goes in a journal in chronological order:
/// behind the last entry that is not dated later.
pub open spec fn insert_position(sorted: Seq<TransactionView>, d: Date) -> int
    decreases sorted.len(),
{
    if sorted.len() == 0 {
        0
    } else if sorted.last().date.le(d) {
        sorted.len() as int
    } else {
        insert_position(sorted.drop_last(), d)
    }
}

/// Where an entry goes: behind entries that are not dated later, before
/// entries that are.
pub proof fn lemma_insert_position(sorted: Seq<TransactionView>, d: Date)
    ensures
        0 <= insert_position(sorted, d) <= sorted.len(),
        forall|k: int|
            insert_position(sorted, d) <= k < sorted.len() ==> !(#[trigger] sorted[k]).date.le(d),
        insert_position(sorted, d) > 0 ==> sorted[insert_position(sorted, d) - 1].date.le(d),
    decreases sorted.len(),
{
    if sorted.len() > 0 && !sorted.last().date.le(d) {
        let head = sorted.drop_last();
        lemma_insert_position(head, d);
        assert forall|k: int| insert_position(sorted, d) <= k < sorted.len() implies !(
        #[trigger] sorted[k]).date.le(d) by {
            if k < head.len() {
                assert(head[k] == sorted[k]);
            }
        }
        if insert_position(sorted, d) > 0 {
            assert(head[insert_position(sorted, d) - 1] == sorted[insert_position(sorted, d) - 1]);
        }
    }
}

/// The journal in chronological order; entries of one date keep the
/// order in which they were written.
pub open spec fn sorted_by_date(s: Seq<TransactionView>) -> Seq<TransactionView>
    decreases s.len(),
{
    if s.len() == 0 {
        s
    } else {
        let head = sorted_by_date(s.drop_last());
        head.insert(insert_position(head, s.last().date), s.last())
    }
}

/// Whether no entry is dated before an entry in front of it.
pub open spec fn is_chronological(s: Seq<TransactionView>) -> bool {
    forall|i: int, j: int| 0 <= i <= j < s.len() ==> (#[trigger] s[i]).date.le((#[trigger] s[j]).date)
}

/// Dates are totally ordered.
pub proof fn lemma_date_order(a: Date, b: Date, c: Date)
    ensures
        a.le(a),
        a.le(b) || b.le(a),
        a.le(b) && b.le(c) ==> a.le(c),
{
}

/// The sorted journal has the length of the journal and is in
/// chronological order.
pub proof fn lemma_sorted_by_date(s: Seq<TransactionView>)
    ensures
        sorted_by_date(s).len() == s.len(),
        is_chronological(sorted_by_date(s)),
    decreases s.len(),
{
    if s.len() > 0 {
        let head = sorted_by_date(s.drop_last());
        lemma_sorted_by_date(s.drop_last());
        let x = s.last();
        let p = insert_position(head, x.date);
        lemma_insert_position(head, x.date);
        let r = head.insert(p, x);
        assert forall|i: int, j: int| 0 <= i <= j < r.len() implies (#[trigger] r[i]).date.le(
            (#[trigger] r[j]).date,
        ) by {
            let a = if i < p { head[i] } else if i == p { x } else { head[i - 1] };
            let b = if j < p { head[j] } else if j == p { x } else { head[j - 1] };
            assert(r[i] == a);
            assert(r[j] == b);
            if i < p && j == p {
                assert(head[i].date.le(head[p - 1].date));
                lemma_date_order(head[i].date, head[p - 1].date, x.date);
            } else if i == p && j > p {
                assert(!head[j - 1].date.le(x.date));
                lemma_date_order(x.date, head[j - 1].date, x.date);
            } else if i < p && j > p {
                assert(head[i].date.le(head[j - 1].date));
            } else if i > p {
                assert(head[i - 1].date.le(head[j - 1].date));
            } else if j < p {
                assert(head[i].date.le(head[j].date));
            }
        }
    }
}

/// The entries of one date, in the order in which they stand.
pub open spec fn dated(s: Seq<TransactionView>, d: Date) -> Seq<TransactionView>
    decreases s.len(),
{
    if s.len() == 0 {
        s
    } else if s.last().date == d {
        dated(s.drop_last(), d).push(s.last())
    } else {
        dated(s.drop_last(), d)
    }
}

proof fn lemma_dated_add(a: Seq<TransactionView>, b: Seq<TransactionView>, d: Date)
    ensures
        dated(a + b, d) == dated(a, d) + dated(b, d),
    decreases b.len(),
{
    if b.len() == 0 {
        assert(a + b =~= a);
        assert(dated(a, d) + dated(b, d) =~= dated(a, d));
    } else {
        assert((a + b).drop_last() =~= a + b.drop_last());
        assert((a + b).last() == b.last());
        lemma_dated_add(a, b.drop_last(), d);
        if b.last().date == d {
            assert((dated(a, d) + dated(b.drop_last(), d)).push(b.last()) =~= dated(a, d) + dated(
                b.drop_last(),
                d,
            ).push(b.last()));
        }
    }
}

proof fn lemma_dated_none(s: Seq<TransactionView>, d: Date)
    requires
        forall|k: int| 0 <= k < s.len() ==> (#[trigger] s[k]).date != d,
    ensures
        dated(s, d) == Seq::<TransactionView>::empty(),
    decreases s.len(),
{
    if s.len() > 0 {
        assert(s.last() == s[s.len() - 1]);
        assert forall|k: int| 0 <= k < s.drop_last().len() implies (
        #[trigger] s.drop_last()[k]).date != d by {
            assert(s.drop_last()[k] == s[k]);
        }
        lemma_dated_none(s.drop_last(), d);
    }
}

/// Sorting is stable and loses nothing: the entries of each date are the
/// same after it as before, in the same order.
pub proof fn lemma_sort_is_stable(s: Seq<TransactionView>, d: Date)
    ensures
        dated(sorted_by_date(s), d) == dated(s, d),
    decreases s.len(),
{
    if s.len() > 0 {
        let head = sorted_by_date(s.drop_last());
        let x = s.last();
        let p = insert_position(head, x.date);
        lemma_sort_is_stable(s.drop_last(), d);
        lemma_insert_position(head, x.date);
        let front = head.take(p);
        let back = head.skip(p);
        let r = head.insert(p, x);
        assert(r =~= front + seq![x] + back);
        assert(head =~= front + back);
        lemma_dated_add(front + seq![x], back, d);
        lemma_dated_add(front, seq![x], d);
        lemma_dated_add(front, back, d);
        assert(seq![x].drop_last() =~= Seq::<TransactionView>::empty());
        assert(seq![x].last() == x);
        assert(dated(Seq::<TransactionView>::empty(), d) =~= Seq::<TransactionView>::empty());
        if x.date == d {
            assert forall|k: int| 0 <= k < back.len() implies (#[trigger] back[k]).date != d by {
                assert(back[k] == head[p + k]);
                assert(!head[p + k].date.le(x.date));
            }
            lemma_dated_none(back, d);
            assert(dated(seq![x], d) =~= seq![x]);
            assert(dated(front, d) + seq![x] + Seq::<TransactionView>::empty() =~= (dated(front, d)
                + Seq::<TransactionView>::empty()).push(x));
        } else {
            assert(dated(seq![x], d) =~= Seq::<TransactionView>::empty());
            assert(dated(front, d) + Seq::<TransactionView>::empty() + dated(back, d) =~= dated(
                front,
                d,
            ) + dated(back, d));
        }
    }
}

/// Sorts the journal by date; entries of one date keep their order.
pub fn sort_by_date(journal: &mut Vec<Transaction>)
    ensures
        journal_view(final(journal)@) == sorted_by_date(journal_view(old(journal)@)),
        final(journal).len() == old(journal).len(),
        is_chronological(journal_view(final(journal)@)),
{
    let ghost orig = journal_view(journal@);
    let n = journal.len();
    let mut i: usize = 0;
    proof {
        assert(orig.take(0) =~= Seq::<TransactionView>::empty());
        assert(sorted_by_date(orig.take(0)) + orig.skip(0) =~= orig);
    }
    while i < n
        invariant
            i <= n,
            n == journal.len(),
            n == orig.len(),
            journal_view(journal@) == sorted_by_date(orig.take(i as int)) + orig.skip(i as int),
        decreases n - i,
    {
        let ghost head = sorted_by_date(orig.take(i as int));
        proof {
            lemma_sorted_by_date(orig.take(i as int));
        }
        let ghost before = journal@;
        assert(journal_view(before)[i as int] == before[i as int]@);
        let x = journal.remove(i);
        assert(x@ == orig[i as int]);
        let ghost rest = journal_view(journal@);
        proof {
            assert(head.len() == i);
            assert(rest =~= journal_view(before).remove(i as int));
            assert(journal_view(before).remove(i as int) =~= head + orig.skip(i + 1));
            assert(rest.take(i as int) =~= head);
            assert(head.take(i as int) =~= head);
        }
        let mut j: usize = i;
        while j > 0 && !journal[j - 1].date.is_le(x.date)
            invariant
                j <= i,
                i < n,
                journal.len() == n - 1,
                rest == journal_view(journal@),
                rest.take(i as int) == head,
                insert_position(head, x.date) == insert_position(head.take(j as int), x.date),
            decreases j,
        {
            proof {
                assert(head.take(j as int).drop_last() =~= head.take(j - 1));
                assert(head.take(j as int).last() == rest[j - 1]);
                assert(rest[j - 1] == journal@[j - 1]@);
            }
            j = j - 1;
        }
        proof {
            if j > 0 {
                assert(head.take(j as int).last() == rest[j - 1]);
                assert(rest[j - 1] == journal@[j - 1]@);
            }
            assert(insert_position(head, x.date) == j);
        }
        let ghost stored = journal@;
        journal.insert(j, x);
        proof {
            assert(journal_view(journal@) =~= rest.insert(j as int, x@));
            assert(orig.take(i + 1).drop_last() =~= orig.take(i as int));
            assert(rest.insert(j as int, x@) =~= head.insert(j as int, x@) + orig.skip(i + 1));
        }
        i = i + 1;
    }
    proof {
        assert(orig.take(n as int) =~= orig);
        assert(sorted_by_date(orig) + orig.skip(n as int) =~= sorted_by_date(orig));
        lemma_sorted_by_date(orig);
    }
}

// ---------------------------------------------------------------------
// Numbering
// ---------------------------------------------------------------------

/// The number of entries before position `i` that have no document
/// identifier.
pub open spec fn undocumented(s: Seq<TransactionView>, i: int) -> nat
    decreases i,
{
    if i <= 0 {
        0
    } else {
        undocumented(s, i - 1) + if s[i - 1].doc.len() == 0 {
            1nat
        } else {
            0nat
        }
    }
}

/// Whether the numeral of `v` is the identifier of one of the first `j`
/// entries.
pub open spec fn taken_before(s: Seq<TransactionView>, v: nat, j: int) -> bool {
    exists|k: int| 0 <= k < j && k < s.len() && (#[trigger] s[k]).doc == decimal(v)
}

/// Whether the numeral of `v` is an identifier in the journal.
pub open spec fn is_taken(s: Seq<TransactionView>, v: nat) -> bool {
    taken_before(s, v, s.len() as int)
}

/// The first number from `v` on whose numeral is no identifier in the
/// journal, among `v` and the `budget` numbers behind it. (A journal
/// holds no more identifiers than entries, so among as many numbers as
/// it has entries, and one more, one is free.)
pub open spec fn first_free(s: Seq<TransactionView>, v: nat, budget: nat) -> nat
    decreases budget,
{
    if budget == 0 || !is_taken(s, v) {
        v
    } else {
        first_free(s, v + 1, (budget - 1) as nat)
    }
}

/// The number from which the identifier of entry `i` is sought: zero at
/// first, and then the number behind the one that the last entry without
/// identifier got.
pub open spec fn next_number(s: Seq<TransactionView>, i: int) -> nat
    decreases i,
{
    if i <= 0 {
        0
    } else if s[i - 1].doc.len() == 0 {
        first_free(s, next_number(s, i - 1), s.len()) + 1
    } else {
        next_number(s, i - 1)
    }
}

/// The number whose numeral entry `i` gets if it has no identifier: the
/// least number that no entry without identifier before it got and whose
/// numeral is no identifier in the journal.
pub open spec fn synthesized(s: Seq<TransactionView>, i: int) -> nat {
    first_free(s, next_number(s, i), s.len())
}

/// Entry `i` of the numbered journal: its sequence number is its
/// position, and if it has no document identifier it gets a synthesized
/// one.
pub open spec fn numbered_entry(s: Seq<TransactionView>, i: int) -> TransactionView {
    TransactionView {
        n: i as i32,
        doc: if s[i].doc.len() == 0 {
            decimal(synthesized(s, i))
        } else {
            s[i].doc
        },
        ..s[i]
    }
}

/// The journal with sequence numbers and synthesized document
/// identifiers. A journal with more entries than a sequence number can
/// count is rejected.
pub open spec fn numbered(s: Seq<TransactionView>) -> Result<Seq<TransactionView>, LedgerError> {
    if s.len() > i32::MAX {
        Err(LedgerError::JournalTooLong)
    } else {
        Ok(Seq::new(s.len(), |i: int| numbered_entry(s, i)))
    }
}

/// What numbering gives for the identifiers: every entry has one; an
/// entry that had one keeps it; and an entry that had none has a decimal
/// numeral that no other entry has, be that one's identifier written or
/// synthesized.
pub open spec fn ids_are_fresh(before: Seq<TransactionView>, after: Seq<TransactionView>) -> bool {
    &&& after.len() == before.len()
    &&& forall|i: int| 0 <= i < after.len() ==> (#[trigger] after[i]).doc.len() > 0
    &&& forall|i: int|
        0 <= i < before.len() && (#[trigger] before[i]).doc.len() > 0 ==> after[i].doc
            == before[i].doc
    &&& forall|i: int|
        0 <= i < before.len() && (#[trigger] before[i]).doc.len() == 0 ==> all_digits(after[i].doc)
    &&& forall|i: int, j: int|
        0 <= i < before.len() && 0 <= j < before.len() && i != j && before[i].doc.len() == 0
            ==> (#[trigger] after[i]).doc != (#[trigger] after[j]).doc
}

/// The count of entries without identifier grows with the position.
pub proof fn lemma_undocumented_grows(s: Seq<TransactionView>, i: int, j: int)
    requires
        0 <= i <= j,
    ensures
        undocumented(s, i) <= undocumented(s, j),
    decreases j - i,
{
    if i < j {
        lemma_undocumented_grows(s, i, j - 1);
    }
}

/// Different numbers have different numerals.
pub proof fn lemma_decimal_injective(a: nat, b: nat)
    requires
        decimal(a) == decimal(b),
    ensures
        a == b,
{
    lemma_digits_of_decimal(a);
    lemma_digits_of_decimal(b);
}

/// A numeral is taken by one of the first `j + 1` entries if it is taken
/// by one of the first `j`, or is the identifier of entry `j`.
pub proof fn lemma_taken_step(s: Seq<TransactionView>, v: nat, j: int)
    requires
        0 <= j < s.len(),
    ensures
        taken_before(s, v, j + 1) <==> (taken_before(s, v, j) || s[j].doc == decimal(v)),
{
    if taken_before(s, v, j + 1) {
        let k = choose|k: int| 0 <= k < j + 1 && k < s.len() && (#[trigger] s[k]).doc == decimal(v);
        if k < j {
            assert(taken_before(s, v, j));
        }
    }
    if taken_before(s, v, j) {
        let k = choose|k: int| 0 <= k < j && k < s.len() && (#[trigger] s[k]).doc == decimal(v);
        assert(0 <= k < j + 1 && s[k].doc == decimal(v));
    }
    if s[j].doc == decimal(v) {
        assert(0 <= j < j + 1 && s[j].doc == decimal(v));
    }
}

/// The number of marks among the first `k` places of a table.
pub open spec fn marks(t: Seq<bool>, k: int) -> nat
    decreases k,
{
    if k <= 0 {
        0
    } else {
        marks(t, k - 1) + if t[k - 1] {
            1nat
        } else {
            0nat
        }
    }
}

proof fn lemma_marks_grow(t: Seq<bool>, a: int, b: int)
    requires
        0 <= a <= b,
    ensures
        marks(t, a) <= marks(t, b),
    decreases b - a,
{
    if a < b {
        lemma_marks_grow(t, a, b - 1);
    }
}

proof fn lemma_marks_none(t: Seq<bool>, k: int)
    requires
        0 <= k <= t.len(),
        forall|i: int| 0 <= i < k ==> !t[i],
    ensures
        marks(t, k) == 0,
    decreases k,
{
    if k > 0 {
        lemma_marks_none(t, k - 1);
    }
}

proof fn lemma_marks_set(t: Seq<bool>, v: int, k: int)
    requires
        0 <= v < t.len(),
        !t[v],
        0 <= k <= t.len(),
    ensures
        marks(t.update(v, true), k) == marks(t, k) + if v < k {
            1nat
        } else {
            0nat
        },
    decreases k,
{
    if k > 0 {
        lemma_marks_set(t, v, k - 1);
    }
}

/// The number whose numeral a text is, if it is the numeral of a number
/// up to `limit`.
pub fn numeral_value(text: &str, limit: usize) -> (r: Option<usize>)
    requires
        limit <= i32::MAX,
    ensures
        match r {
            Some(v) => v <= limit && text@ == decimal(v as nat),
            None => forall|v: nat| v <= limit ==> text@ != #[trigger] decimal(v),
        },
{
    let chars = chars_of(text);
    let n = chars.len();
    if n == 0 || (n > 1 && chars[0] == '0') {
        proof {
            assert forall|v: nat| v <= limit implies text@ != #[trigger] decimal(v) by {
                lemma_digits_of_decimal(v);
            }
        }
        return None;
    }
    let mut value: u64 = 0;
    let mut i: usize = 0;
    proof {
        assert(chars@.take(0) =~= Seq::<char>::empty());
    }
    while i < n
        invariant
            i <= n,
            n == chars.len(),
            chars@ == text@,
            limit <= i32::MAX,
            all_digits(chars@.take(i as int)),
            value == digits_value(chars@.take(i as int)),
            value <= limit,
        decreases n - i,
    {
        let c = chars[i];
        if !(c >= '0' && c <= '9') {
            proof {
                assert forall|v: nat| v <= limit implies text@ != #[trigger] decimal(v) by {
                    lemma_digits_of_decimal(v);
                    if text@ == decimal(v) {
                        assert(is_digit(text@[i as int]));
                    }
                }
            }
            return None;
        }
        proof {
            let a = chars@.take(i as int);
            let b = chars@.take(i + 1);
            assert(b.drop_last() =~= a);
            assert(b.last() == c);
            assert forall|k: int| 0 <= k < b.len() implies is_digit(#[trigger] b[k]) by {
                if k < a.len() {
                    assert(b[k] == a[k]);
                }
            }
        }
        value = value * 10 + (c as u64 - '0' as u64);
        if value > limit as u64 {
            proof {
                assert forall|v: nat| v <= limit implies text@ != #[trigger] decimal(v) by {
                    lemma_digits_of_decimal(v);
                    if text@ == decimal(v) {
                        lemma_digits_prefix_le(text@, i + 1);
                    }
                }
            }
            return None;
        }
        i = i + 1;
    }
    proof {
        assert(chars@.take(n as int) =~= chars@);
        lemma_decimal_of_digits(chars@);
    }
    Some(value as usize)
}

/// Numbers the entries and gives those without a document identifier a
/// synthesized one: the numerals from zero on that are no identifiers
/// in the journal, in order.
pub fn number_entries(journal: &mut Vec<Transaction>) -> (r: Result<(), LedgerError>)
    ensures
        match r {
            Ok(()) => numbered(journal_view(old(journal)@)) == Ok::<
                Seq<TransactionView>,
                LedgerError,
            >(journal_view(final(journal)@)) && ids_are_fresh(
                journal_view(old(journal)@),
                journal_view(final(journal)@),
            ),
            Err(e) => numbered(journal_view(old(journal)@)) == Err::<
                Seq<TransactionView>,
                LedgerError,
            >(e) && journal_view(final(journal)@) == journal_view(old(journal)@),
        },
{
    let n = journal.len();
    if n > 2147483647 {
        return Err(LedgerError::JournalTooLong);
    }
    let ghost orig = journal_view(journal@);
    // The numerals up to the length of the journal that are identifiers.
    let mut blocked: Vec<bool> = Vec::new();
    let mut k: usize = 0;
    while k <= n
        invariant
            k <= n + 1,
            n <= i32::MAX,
            blocked.len() == k,
            forall|v: int| 0 <= v < k ==> !blocked@[v],
        decreases n + 1 - k,
    {
        blocked.push(false);
        k = k + 1;
    }
    proof {
        lemma_marks_none(blocked@, n + 1);
    }
    let mut j: usize = 0;
    while j < n
        invariant
            j <= n,
            n == journal.len(),
            n == orig.len(),
            n <= i32::MAX,
            orig == journal_view(journal@),
            blocked.len() == n + 1,
            forall|v: int| 0 <= v <= n ==> (#[trigger] blocked@[v] <==> taken_before(orig, v as nat, j as int)),
            marks(blocked@, n + 1) + undocumented(orig, j as int) <= j,
        decreases n - j,
    {
        assert(orig[j as int] == journal@[j as int]@);
        let ghost table = blocked@;
        let found = numeral_value(journal[j].doc.as_str(), n);
        if let Some(v) = found {
            if !blocked[v] {
                proof {
                    lemma_marks_set(table, v as int, n + 1);
                }
                blocked.set(v, true);
            }
        }
        proof {
            assert forall|v: int| 0 <= v <= n implies (#[trigger] blocked@[v] <==> taken_before(
                orig,
                v as nat,
                j + 1,
            )) by {
                lemma_taken_step(orig, v as nat, j as int);
                assert(table[v] <==> taken_before(orig, v as nat, j as int));
                match found {
                    Some(w) => {
                        if v != w && orig[j as int].doc == decimal(v as nat) {
                            lemma_decimal_injective(v as nat, w as nat);
                        }
                    },
                    None => {},
                }
            }
            if orig[j as int].doc.len() == 0 {
                match found {
                    Some(w) => {
                        lemma_digits_of_decimal(w as nat);
                    },
                    None => {},
                }
            }
        }
        j = j + 1;
    }
    // The entries get their numbers, and those without identifier the
    // numerals that are free.
    let mut c: usize = 0;
    let mut i: usize = 0;
    while i < n
        invariant
            i <= n,
            n == journal.len(),
            n == orig.len(),
            n <= i32::MAX,
            blocked.len() == n + 1,
            forall|v: int| 0 <= v <= n ==> (#[trigger] blocked@[v] <==> is_taken(orig, v as nat)),
            marks(blocked@, n + 1) + undocumented(orig, n as int) <= n,
            c <= n,
            c == next_number(orig, i as int),
            c == undocumented(orig, i as int) + marks(blocked@, c as int),
            forall|k: int| 0 <= k < i ==> (#[trigger] journal@[k])@ == numbered_entry(orig, k),
            forall|k: int| i <= k < n ==> (#[trigger] journal@[k])@ == orig[k],
            forall|k: int|
                0 <= k < i && (#[trigger] orig[k]).doc.len() == 0 ==> synthesized(orig, k) < c
                    && !is_taken(orig, synthesized(orig, k)),
            forall|k: int, m: int|
                0 <= k < m < i && (#[trigger] orig[k]).doc.len() == 0 && (
                #[trigger] orig[m]).doc.len() == 0 ==> synthesized(orig, k) < synthesized(orig, m),
        decreases n - i,
    {
        assert(journal@[i as int]@ == orig[i as int]);
        journal[i].n = i as i32;
        if journal[i].doc.as_str().is_empty() {
            let ghost start = c;
            proof {
                lemma_undocumented_grows(orig, i + 1, n as int);
            }
            loop
                invariant_except_break
                    start <= c <= n,
                    i < n,
                    n == orig.len(),
                    blocked.len() == n + 1,
                    orig[i as int].doc.len() == 0,
                    forall|v: int|
                        0 <= v <= n ==> (#[trigger] blocked@[v] <==> is_taken(orig, v as nat)),
                    marks(blocked@, n + 1) + undocumented(orig, n as int) <= n,
                    undocumented(orig, i + 1) <= undocumented(orig, n as int),
                    c == undocumented(orig, i as int) + marks(blocked@, c as int),
                    first_free(orig, start as nat, n as nat) == first_free(
                        orig,
                        c as nat,
                        (n - (c - start)) as nat,
                    ),
                ensures
                    start <= c < n,
                    !is_taken(orig, c as nat),
                    first_free(orig, start as nat, n as nat) == c,
                    c == undocumented(orig, i as int) + marks(blocked@, c as int),
                    !blocked@[c as int],
                decreases n - c,
            {
                proof {
                    lemma_marks_grow(blocked@, c as int, n + 1);
                }
                assert(c < n);
                if !blocked[c] {
                    break;
                }
                c = c + 1;
            }
            let mut id = String::new();
            push_decimal(&mut id, c as u32);
            proof {
                assert(id@ =~= decimal(synthesized(orig, i as int)));
            }
            journal[i].doc = id;
            c = c + 1;
        }
        i = i + 1;
    }
    proof {
        let after = journal_view(journal@);
        assert(after =~= Seq::new(orig.len(), |i: int| numbered_entry(orig, i)));
        assert forall|x: int| 0 <= x < after.len() implies (#[trigger] after[x]).doc.len() > 0 by {
            assert(after[x] == journal@[x]@);
            lemma_digits_of_decimal(synthesized(orig, x));
        }
        assert forall|x: int| 0 <= x < orig.len() && (#[trigger] orig[x]).doc.len() == 0 implies all_digits(
            after[x].doc,
        ) by {
            assert(after[x] == journal@[x]@);
            lemma_digits_of_decimal(synthesized(orig, x));
        }
        assert forall|x: int, y: int|
            0 <= x < orig.len() && 0 <= y < orig.len() && x != y && orig[x].doc.len()
                == 0 implies (#[trigger] after[x]).doc != (#[trigger] after[y]).doc by {
            assert(after[x] == journal@[x]@);
            assert(after[y] == journal@[y]@);
            if orig[y].doc.len() == 0 {
                if after[x].doc == after[y].doc {
                    lemma_decimal_injective(synthesized(orig, x), synthesized(orig, y));
                    if x < y {
                        assert(synthesized(orig, x) < synthesized(orig, y));
                    } else {
                        assert(synthesized(orig, y) < synthesized(orig, x));
                    }
                }
            } else {
                if after[x].doc == after[y].doc {
                    assert(orig[y].doc == decimal(synthesized(orig, x)));
                    assert(taken_before(orig, synthesized(orig, x), orig.len() as int));
                }
            }
        }
    }
    Ok(())
}

/// The entries of a document with two entries get the suffixes `:1` and
/// `:2`: the second when it is read, the first when the identifiers are
/// completed.
pub proof fn lemma_shared_document(doc: Seq<char>, first: TransactionView, second: TransactionView)
    requires
        first.doc == doc,
    ensures
        assign_doc(Seq::empty(), Some(doc)) == Ok::<
            (Seq<char>, Seq<(Seq<char>, i32)>),
            LedgerError,
        >((doc, seq![(doc, 1i32)])),
        assign_doc(seq![(doc, 1i32)], Some(doc)) == Ok::<
            (Seq<char>, Seq<(Seq<char>, i32)>),
            LedgerError,
        >((doc + seq![':', '2'], seq![(doc, 2i32)])),
        complete_docs(
            seq![first, TransactionView { doc: doc + seq![':', '2'], ..second }],
            seq![(doc, 2i32)],
            0,
        ) == seq![
            TransactionView { doc: doc + seq![':', '1'], ..first },
            TransactionView { doc: doc + seq![':', '2'], ..second },
        ],
{
    let counted = seq![(doc, 1i32)];
    assert(Seq::<(Seq<char>, i32)>::empty().push((doc, 1i32)) =~= counted);
    assert(doc_index(counted, doc, 0) == 0);
    assert(counted.update(0, (doc, 2i32)) =~= seq![(doc, 2i32)]);
    reveal_with_fuel(decimal, 2);
    assert(signed_decimal(2) =~= seq!['2']);
    assert(doc + seq![':'] + signed_decimal(2) =~= doc + seq![':', '2']);
    let journal = seq![first, TransactionView { doc: doc + seq![':', '2'], ..second }];
    let docs = seq![(doc, 2i32)];
    assert(first_with_doc(journal, doc, 0) == 0);
    assert(mark_first(journal, doc) =~= seq![
        TransactionView { doc: doc + seq![':', '1'], ..first },
        TransactionView { doc: doc + seq![':', '2'], ..second },
    ]);
    reveal_with_fuel(complete_docs, 3);
}

} // verus!
