//! The lexer: source text to tokens, line by line, with indentation
//! turned into structural tokens.

use std::collections::VecDeque;
use unicode_bidi::{BidiDataSource, HardcodedBidiData};
use vstd::prelude::*;
use crate::chars::{all_digits, alphabetic, alphanumeric, chars_of, digit_value, digits_value, find_char,
    first_index, is_digit, lemma_first_index, pow10, spells, string_of, whitespace};
use crate::date::{date_of_literal, Date};
use crate::error::LedgerError;
use crate::token::{lemma_tokens_view_push, tokens_view, Token, TokenView};

verus! {

// ---------------------------------------------------------------------
// Lines
// ---------------------------------------------------------------------

/// The lines of a text from position `from` on: a line ends before each
/// line feed and at the end of the text.
pub open spec fn lines_from(s: Seq<char>, from: int) -> Seq<Seq<char>>
    decreases s.len() - from,
{
    if from < 0 || from >= s.len() {
        Seq::empty()
    } else {
        let e = first_index(s, '\n', from);
        if from <= e < s.len() {
            seq![s.subrange(from, e)] + lines_from(s, e + 1)
        } else {
            seq![s.subrange(from, s.len() as int)]
        }
    }
}

/// The lines of a text.
pub open spec fn split_lines(s: Seq<char>) -> Seq<Seq<char>> {
    lines_from(s, 0)
}

/// The lines as texts.
pub open spec fn lines_view(v: Seq<Vec<char>>) -> Seq<Seq<char>> {
    Seq::new(v.len(), |i: int| v[i]@)
}

/// A copy of the characters `v[from..to]`.
pub fn slice_chars(v: &Vec<char>, from: usize, to: usize) -> (r: Vec<char>)
    requires
        from <= to <= v.len(),
    ensures
        r@ == v@.subrange(from as int, to as int),
{
    let mut r: Vec<char> = Vec::new();
    let mut i: usize = from;
    while i < to
        invariant
            from <= i <= to <= v.len(),
            r@ == v@.subrange(from as int, i as int),
        decreases to - i,
    {
        r.push(v[i]);
        i = i + 1;
    }
    r
}

/// Splits a text into its lines.
pub fn split_source(source: &Vec<char>) -> (lines: Vec<Vec<char>>)
    ensures
        lines_view(lines@) == split_lines(source@),
{
    let n = source.len();
    let mut lines: Vec<Vec<char>> = Vec::new();
    let mut start: usize = 0;
    while start < n
        invariant
            n == source.len(),
            split_lines(source@) == lines_view(lines@) + lines_from(source@, start as int),
        decreases n - start,
    {
        let e = find_char(source, '\n', start);
        let line = slice_chars(source, start, e);
        proof {
            assert(lines_view(lines@.push(line)) =~= lines_view(lines@).push(line@));
            assert(lines_view(lines@) + (seq![line@] + lines_from(source@, e + 1)) =~= lines_view(
                lines@,
            ).push(line@) + lines_from(source@, e + 1));
            assert(lines_view(lines@) + seq![line@] =~= lines_view(lines@).push(line@));
        }
        lines.push(line);
        if e == n {
            return lines;
        }
        start = e + 1;
    }
    proof {
        assert(lines_view(lines@) + Seq::<Seq<char>>::empty() =~= lines_view(lines@));
    }
    lines
}

// ---------------------------------------------------------------------
// Indentation and trimming
// ---------------------------------------------------------------------

/// The first position at or after `from` that holds no whitespace.
pub open spec fn skip_whitespace(s: Seq<char>, from: int) -> int
    decreases s.len() - from,
{
    if from < 0 || from >= s.len() || !whitespace(s[from]) {
        from
    } else {
        skip_whitespace(s, from + 1)
    }
}

/// The length of a text without its trailing whitespace.
pub open spec fn trim_end(s: Seq<char>) -> int
    decreases s.len(),
{
    if s.len() == 0 || !whitespace(s.last()) {
        s.len() as int
    } else {
        trim_end(s.drop_last())
    }
}

/// A line without the whitespace at both ends.
pub open spec fn trimmed(line: Seq<char>) -> Seq<char> {
    let a = skip_whitespace(line, 0);
    let b = trim_end(line);
    if a < b {
        line.subrange(a, b)
    } else {
        Seq::empty()
    }
}

/// Whether a line yields nothing: it is blank, or a comment from its first
/// character on.
pub open spec fn is_skipped(line: Seq<char>) -> bool {
    let t = trimmed(line);
    t.len() == 0 || (t.len() >= 2 && t[0] == '-' && t[1] == '-')
}

/// The indentation of a line: the number of whitespace characters before
/// its first other character.
pub open spec fn indent_of(line: Seq<char>) -> int {
    let a = skip_whitespace(line, 0);
    if a < line.len() {
        a
    } else {
        0
    }
}

fn skip_whitespace_exec(line: &Vec<char>) -> (a: usize)
    ensures
        a == skip_whitespace(line@, 0),
        a <= line.len(),
{
    let mut i: usize = 0;
    while i < line.len() && line[i].is_whitespace()
        invariant
            i <= line.len(),
            skip_whitespace(line@, 0) == skip_whitespace(line@, i as int),
        decreases line.len() - i,
    {
        i = i + 1;
    }
    i
}

fn trim_end_exec(line: &Vec<char>) -> (b: usize)
    ensures
        b == trim_end(line@),
        b <= line.len(),
{
    let mut j: usize = line.len();
    proof {
        assert(line@.take(j as int) =~= line@);
    }
    while j > 0 && line[j - 1].is_whitespace()
        invariant
            j <= line.len(),
            trim_end(line@) == trim_end(line@.take(j as int)),
        decreases j,
    {
        proof {
            assert(line@.take(j as int).drop_last() =~= line@.take(j - 1));
        }
        j = j - 1;
    }
    j
}

/// What a line with indentation `indent` adds to the stack of open
/// indentation levels once the levels deeper than it are closed, and the
/// tokens that closing them yields.
pub open spec fn dedent(stack: Seq<usize>, indent: usize) -> (Seq<usize>, Seq<TokenView>)
    decreases stack.len(),
{
    if stack.len() == 0 {
        (stack, Seq::empty())
    } else if indent < stack.last() {
        let (s, t) = dedent(stack.drop_last(), indent);
        (s, seq![TokenView::Dedent] + t)
    } else if indent > stack.last() {
        (stack.push(indent), Seq::empty())
    } else {
        (stack, seq![TokenView::Newline])
    }
}

/// The effect of a line's indentation: the new stack of indentation levels
/// and the structural tokens that stand before the line's own tokens.
pub open spec fn indent_step(stack: Seq<usize>, indent: usize) -> (Seq<usize>, Seq<TokenView>) {
    if stack.len() == 0 {
        if indent > 0 {
            (seq![indent], seq![TokenView::Indent])
        } else {
            (stack, seq![TokenView::Newline])
        }
    } else if indent > stack.last() {
        (stack.push(indent), seq![TokenView::Indent])
    } else if indent < stack.last() {
        dedent(stack, indent)
    } else {
        (stack, seq![TokenView::Newline])
    }
}

/// Every line yields at least one structural token.
pub proof fn lemma_indent_step_nonempty(stack: Seq<usize>, indent: usize)
    ensures
        indent_step(stack, indent).1.len() >= 1,
{
    if stack.len() > 0 && indent < stack.last() {
        assert(dedent(stack, indent).1.len() >= 1);
    }
}

/// Applies the indentation of a line to the stack of indentation levels
/// and appends the structural tokens that it yields.
pub fn apply_indent(stack: &mut Vec<usize>, indent: usize, out: &mut Vec<Token>)
    ensures
        final(stack)@ == indent_step(old(stack)@, indent).0,
        tokens_view(final(out)@) == tokens_view(old(out)@) + indent_step(old(stack)@, indent).1,
        final(out).len() > old(out).len(),
{
    let ghost out0 = tokens_view(out@);
    let ghost stack0 = stack@;
    proof {
        lemma_indent_step_nonempty(stack0, indent);
    }
    let n = stack.len();
    if n == 0 {
        if indent > 0 {
            stack.push(indent);
            proof {
                lemma_tokens_view_push(out@, Token::Indent);
                assert(stack@ =~= seq![indent]);
            }
            out.push(Token::Indent);
        } else {
            proof {
                lemma_tokens_view_push(out@, Token::Newline);
            }
            out.push(Token::Newline);
        }
        assert(tokens_view(out@) =~= out0 + indent_step(stack0, indent).1);
    } else if indent > stack[n - 1] {
        stack.push(indent);
        proof {
            lemma_tokens_view_push(out@, Token::Indent);
        }
        out.push(Token::Indent);
        assert(tokens_view(out@) =~= out0 + indent_step(stack0, indent).1);
    } else if indent < stack[n - 1] {
        let ghost mut emitted: Seq<TokenView> = Seq::empty();
        assert(out0 + emitted =~= out0);
        loop
            invariant_except_break
                tokens_view(out@) == out0 + emitted,
                dedent(stack0, indent).0 == dedent(stack@, indent).0,
                dedent(stack0, indent).1 == emitted + dedent(stack@, indent).1,
                out.len() >= old(out).len(),
                out.len() > old(out).len() || (stack@.len() > 0 && indent < stack@.last()),
            ensures
                stack@ == dedent(stack0, indent).0,
                tokens_view(out@) == out0 + dedent(stack0, indent).1,
                out.len() > old(out).len(),
            decreases stack.len(),
        {
            let m = stack.len();
            if m == 0 {
                assert(emitted + Seq::<TokenView>::empty() =~= emitted);
                break;
            }
            let top = stack[m - 1];
            if indent < top {
                proof {
                    lemma_tokens_view_push(out@, Token::Dedent);
                    assert(emitted + (seq![TokenView::Dedent] + dedent(
                        stack@.drop_last(),
                        indent,
                    ).1) =~= emitted.push(TokenView::Dedent) + dedent(stack@.drop_last(), indent).1);
                    assert(out0 + emitted.push(TokenView::Dedent) =~= (out0 + emitted).push(
                        TokenView::Dedent,
                    ));
                    emitted = emitted.push(TokenView::Dedent);
                }
                stack.pop();
                out.push(Token::Dedent);
            } else if indent > top {
                proof {
                    assert(emitted + Seq::<TokenView>::empty() =~= emitted);
                }
                stack.push(indent);
                break;
            } else {
                proof {
                    lemma_tokens_view_push(out@, Token::Newline);
                    assert(out0 + (emitted + seq![TokenView::Newline]) =~= (out0 + emitted).push(
                        TokenView::Newline,
                    ));
                }
                out.push(Token::Newline);
                break;
            }
        }
    } else {
        proof {
            lemma_tokens_view_push(out@, Token::Newline);
        }
        out.push(Token::Newline);
        assert(tokens_view(out@) =~= out0 + indent_step(stack0, indent).1);
    }
}

// ---------------------------------------------------------------------
// Numbers
// ---------------------------------------------------------------------

/// How often a character occurs in a text.
pub open spec fn count_char(s: Seq<char>, c: char) -> nat
    decreases s.len(),
{
    if s.len() == 0 {
        0
    } else {
        count_char(s.drop_last(), c) + if s.last() == c {
            1nat
        } else {
            0nat
        }
    }
}

/// The position of the first decimal separator, full stop or comma.
pub open spec fn separator_index(s: Seq<char>) -> int {
    let p = first_index(s, '.', 0);
    let q = first_index(s, ',', 0);
    if p <= q {
        p
    } else {
        q
    }
}

/// The value of the digits after the separator in hundredths: the first
/// two digits count, a missing second digit is a zero.
pub open spec fn hundredths(frac: Seq<char>) -> int {
    if frac.len() == 0 {
        0
    } else if frac.len() == 1 {
        10 * digit_value(frac[0])
    } else {
        10 * digit_value(frac[0]) + digit_value(frac[1])
    }
}

/// What stands after the first decimal separator.
pub open spec fn fraction_part(s: Seq<char>) -> Seq<char> {
    let p = separator_index(s);
    if p < s.len() {
        s.subrange(p + 1, s.len() as int)
    } else {
        Seq::empty()
    }
}

/// The amount in minor units that a decimal literal denotes: its exact
/// value times 100, digits beyond the second decimal place dropped.
pub open spec fn minor_units(s: Seq<char>) -> int {
    digits_value(s.subrange(0, separator_index(s))) * 100 + hundredths(fraction_part(s))
}

/// Whether a text is a decimal literal: digits, at least one before an
/// optional separator, and digits only after it.
pub open spec fn is_decimal_literal(s: Seq<char>) -> bool {
    let p = separator_index(s);
    &&& 1 <= p <= s.len()
    &&& all_digits(s.subrange(0, p))
    &&& all_digits(fraction_part(s))
}

/// What a maximal run of digits, full stops and commas yields: a number
/// with at most one separator, a date with two full stops and no comma,
/// and otherwise nothing.
pub open spec fn number_token(s: Seq<char>) -> Result<Option<TokenView>, LedgerError> {
    let points = count_char(s, '.');
    let commas = count_char(s, ',');
    if points + commas <= 1 {
        if !is_decimal_literal(s) {
            Ok(None)
        } else if minor_units(s) <= i32::MAX {
            Ok(Some(TokenView::Number(minor_units(s) as i32)))
        } else {
            Err(LedgerError::NumberOutOfRange)
        }
    } else if commas == 0 && points == 2 {
        match date_of_literal(s) {
            Some(d) => Ok(Some(TokenView::Date(d))),
            None => Ok(None),
        }
    } else {
        Ok(None)
    }
}

/// A decimal literal with at most two digits after the separator denotes
/// exactly its value times 100: the digits before the separator count
/// hundredfold, one digit after it tenfold, two digits after it as they
/// are.
pub proof fn lemma_minor_units_exact(s: Seq<char>)
    requires
        is_decimal_literal(s),
        fraction_part(s).len() <= 2,
    ensures
        minor_units(s) == digits_value(s.subrange(0, separator_index(s))) * 100 + digits_value(
            fraction_part(s),
        ) * pow10((2 - fraction_part(s).len()) as nat),
{
    let f = fraction_part(s);
    crate::chars::lemma_pow10_values();
    let k = (2 - f.len()) as nat;
    let scaled = digits_value(f) * pow10(k);
    if f.len() == 0 {
        assert(digits_value(f) == 0);
        assert(scaled == 0) by (nonlinear_arith)
            requires
                scaled == digits_value(f) * pow10(k),
                digits_value(f) == 0,
        ;
    } else if f.len() == 1 {
        assert(k == 1);
        assert(pow10(k) == 10);
        assert(is_digit(f[0]));
        assert(f.last() == f[0]);
        assert(digits_value(f.drop_last()) == 0);
        assert(digits_value(f) == digit_value(f[0]));
        assert(scaled == 10 * digit_value(f[0])) by (nonlinear_arith)
            requires
                scaled == digits_value(f) * pow10(k),
                pow10(k) == 10,
                digits_value(f) == digit_value(f[0]),
        ;
    } else {
        assert(k == 0);
        assert(pow10(k) == 1);
        assert(is_digit(f[0]));
        assert(is_digit(f[1]));
        let head = f.drop_last();
        assert(head.last() == f[0]);
        assert(digits_value(head.drop_last()) == 0);
        assert(digits_value(head) == digit_value(f[0]));
        assert(f.last() == f[1]);
        assert(digits_value(f) == digit_value(f[0]) * 10 + digit_value(f[1]));
        assert(scaled == digits_value(f)) by (nonlinear_arith)
            requires
                scaled == digits_value(f) * pow10(k),
                pow10(k) == 1,
        ;
    }
}

fn count_char_exec(v: &Vec<char>, c: char) -> (n: usize)
    ensures
        n == count_char(v@, c),
{
    let mut n: usize = 0;
    let mut i: usize = 0;
    proof {
        assert(v@.take(0) =~= Seq::<char>::empty());
    }
    while i < v.len()
        invariant
            i <= v.len(),
            n <= i,
            n == count_char(v@.take(i as int), c),
        decreases v.len() - i,
    {
        proof {
            assert(v@.take(i + 1).drop_last() =~= v@.take(i as int));
        }
        if v[i] == c {
            n = n + 1;
        }
        i = i + 1;
    }
    proof {
        assert(v@.take(i as int) =~= v@);
    }
    n
}

/// The first digits of a run denote no more than the run.
pub proof fn lemma_digits_prefix_le(s: Seq<char>, k: int)
    requires
        all_digits(s),
        0 <= k <= s.len(),
    ensures
        digits_value(s.take(k)) <= digits_value(s),
    decreases s.len() - k,
{
    if k < s.len() {
        lemma_digits_prefix_le(s, k + 1);
        assert(s.take(k + 1).drop_last() =~= s.take(k));
        assert(is_digit(s[k]));
    } else {
        assert(s.take(k) =~= s);
    }
}

/// Reads a decimal literal as an amount in minor units.
pub fn parse_decimal(run: &Vec<char>) -> (r: Result<Option<Token>, LedgerError>)
    ensures
        match r {
            Ok(Some(t)) => is_decimal_literal(run@) && minor_units(run@) <= i32::MAX && t@
                == TokenView::Number(minor_units(run@) as i32),
            Ok(None) => !is_decimal_literal(run@),
            Err(e) => is_decimal_literal(run@) && minor_units(run@) > i32::MAX && e
                == LedgerError::NumberOutOfRange,
        },
{
    let n = run.len();
    let point = find_char(run, '.', 0);
    let comma = find_char(run, ',', 0);
    let p = if point <= comma { point } else { comma };
    if p < 1 {
        return Ok(None);
    }
    let ghost whole = run@.subrange(0, p as int);
    let ghost frac = fraction_part(run@);
    assert(p == separator_index(run@));
    // The digits before the separator.
    let mut amount: u64 = 0;
    let mut too_large = false;
    let mut i: usize = 0;
    proof {
        assert(whole.take(0) =~= Seq::<char>::empty());
    }
    while i < p
        invariant
            i <= p <= n,
            n == run.len(),
            p == separator_index(run@),
            whole == run@.subrange(0, p as int),
            all_digits(whole.take(i as int)),
            !too_large ==> amount == digits_value(whole.take(i as int)) && amount <= 21474836,
            too_large ==> digits_value(whole.take(i as int)) > 21474836,
        decreases p - i,
    {
        let c = run[i];
        if !(c >= '0' && c <= '9') {
            proof {
                assert(whole[i as int] == c);
            }
            return Ok(None);
        }
        proof {
            let a = whole.take(i as int);
            let b = whole.take(i + 1);
            assert(b.drop_last() =~= a);
            assert(b.last() == c);
            assert forall|k: int| 0 <= k < b.len() implies is_digit(#[trigger] b[k]) by {
                if k < a.len() {
                    assert(b[k] == a[k]);
                }
            }
        }
        if !too_large {
            amount = amount * 10 + (c as u64 - '0' as u64);
            if amount > 21474836 {
                too_large = true;
            }
        }
        i = i + 1;
    }
    proof {
        assert(whole.take(p as int) =~= whole);
    }
    // The digits after it.
    let mut cents: u64 = 0;
    let mut j: usize = if p < n { p + 1 } else { n };
    let start = j;
    proof {
        assert(frac.take(0) =~= Seq::<char>::empty());
    }
    while j < n
        invariant
            start <= j <= n,
            n == run.len(),
            p < n ==> start == p + 1,
            p >= n ==> start == n,
            1 <= p == separator_index(run@),
            all_digits(run@.subrange(0, p as int)),
            frac == fraction_part(run@),
            all_digits(frac.take(j - start)),
            cents == hundredths(frac.take(j - start)),
            cents <= 99,
        decreases n - j,
    {
        let c = run[j];
        if !(c >= '0' && c <= '9') {
            proof {
                assert(frac[j - start] == c);
            }
            return Ok(None);
        }
        proof {
            let a = frac.take(j - start);
            let b = frac.take(j - start + 1);
            assert(b.last() == c);
            assert forall|k: int| 0 <= k < b.len() implies is_digit(#[trigger] b[k]) by {
                if k < a.len() {
                    assert(b[k] == a[k]);
                    assert(a[k] == frac[k]);
                }
            }
            if a.len() >= 1 {
                assert(b[0] == a[0]);
            }
            if a.len() >= 2 {
                assert(b[1] == a[1]);
            }
        }
        if j == start {
            cents = 10 * (c as u64 - '0' as u64);
        } else if j == start + 1 {
            cents = cents + (c as u64 - '0' as u64);
        }
        j = j + 1;
    }
    proof {
        assert(frac.take(j - start) =~= frac);
        assert(is_decimal_literal(run@));
        lemma_digits_prefix_le(whole, p as int);
    }
    if too_large {
        return Err(LedgerError::NumberOutOfRange);
    }
    let total: u64 = amount * 100 + cents;
    if total > 2147483647 {
        return Err(LedgerError::NumberOutOfRange);
    }
    Ok(Some(Token::Number(total as i32)))
}

/// Reads a maximal run of digits, full stops and commas: a number, a date
/// or nothing.
pub fn date_or_number(run: &Vec<char>) -> (r: Result<Option<Token>, LedgerError>)
    ensures
        match r {
            Ok(Some(t)) => number_token(run@) == Ok::<Option<TokenView>, LedgerError>(Some(t@)),
            Ok(None) => number_token(run@) == Ok::<Option<TokenView>, LedgerError>(None),
            Err(e) => number_token(run@) == Err::<Option<TokenView>, LedgerError>(e),
        },
{
    let points = count_char_exec(run, '.');
    let commas = count_char_exec(run, ',');
    if points <= 1 && commas <= 1 && points + commas <= 1 {
        parse_decimal(run)
    } else if commas == 0 && points == 2 {
        match Date::parse(run) {
            Some(d) => Ok(Some(Token::Date(d))),
            None => Ok(None),
        }
    } else {
        Ok(None)
    }
}

// ---------------------------------------------------------------------
// Words, strings and brackets
// ---------------------------------------------------------------------

/// The quotation marks that open and close a string: a string ends at the
/// next occurrence of the mark that opened it.
pub open spec fn is_quotation(c: char) -> bool {
    c == '"' || c == '\'' || c == '\u{00AB}' || c == '\u{2018}' || c == '\u{201B}' || c
        == '\u{201C}' || c == '\u{201F}' || c == '\u{2039}' || c == '\u{2E02}' || c == '\u{2E04}'
        || c == '\u{2E09}' || c == '\u{2E0C}' || c == '\u{2E1C}' || c == '\u{2E20}' || c
        == '\u{00BB}' || c == '\u{2019}' || c == '\u{201D}' || c == '\u{203A}' || c == '\u{2E03}'
        || c == '\u{2E05}' || c == '\u{2E0A}' || c == '\u{2E0D}' || c == '\u{2E1D}' || c
        == '\u{2E21}'
}

/// Whether a character is one of the recognised quotation marks.
pub fn is_quotation_mark(c: char) -> (r: bool)
    ensures
        r == is_quotation(c),
{
    c == '"' || c == '\'' || c == '\u{00AB}' || c == '\u{2018}' || c == '\u{201B}' || c
        == '\u{201C}' || c == '\u{201F}' || c == '\u{2039}' || c == '\u{2E02}' || c == '\u{2E04}'
        || c == '\u{2E09}' || c == '\u{2E0C}' || c == '\u{2E1C}' || c == '\u{2E20}' || c
        == '\u{00BB}' || c == '\u{2019}' || c == '\u{201D}' || c == '\u{203A}' || c == '\u{2E03}'
        || c == '\u{2E05}' || c == '\u{2E0A}' || c == '\u{2E0D}' || c == '\u{2E1D}' || c
        == '\u{2E21}'
}

/// Whether a character can stand in a number or a date.
pub open spec fn is_number_char(c: char) -> bool {
    is_digit(c) || c == '.' || c == ','
}

/// Whether a character can stand in a word behind its first letter.
pub open spec fn is_word_char(c: char) -> bool {
    alphanumeric(c) || c == '_'
}

/// The end of the run of digits, full stops and commas that holds
/// position `from`.
pub open spec fn number_run_end(s: Seq<char>, from: int) -> int
    decreases s.len() - from,
{
    if from < 0 || from >= s.len() || !is_number_char(s[from]) {
        from
    } else {
        number_run_end(s, from + 1)
    }
}

/// The end of the run of letters, numbers and underscores that holds
/// position `from`.
pub open spec fn word_end(s: Seq<char>, from: int) -> int
    decreases s.len() - from,
{
    if from < 0 || from >= s.len() || !is_word_char(s[from]) {
        from
    } else {
        word_end(s, from + 1)
    }
}

/// A run of number characters ends within the line.
pub proof fn lemma_number_run_end(s: Seq<char>, from: int)
    requires
        0 <= from <= s.len(),
    ensures
        from <= number_run_end(s, from) <= s.len(),
    decreases s.len() - from,
{
    if from < s.len() && is_number_char(s[from]) {
        lemma_number_run_end(s, from + 1);
    }
}

/// A word ends within the line.
pub proof fn lemma_word_end(s: Seq<char>, from: int)
    requires
        0 <= from <= s.len(),
    ensures
        from <= word_end(s, from) <= s.len(),
    decreases s.len() - from,
{
    if from < s.len() && is_word_char(s[from]) {
        lemma_word_end(s, from + 1);
    }
}

fn number_run_end_exec(t: &Vec<char>, from: usize) -> (j: usize)
    requires
        from <= t.len(),
    ensures
        j == number_run_end(t@, from as int),
        from <= j <= t.len(),
{
    let mut j: usize = from;
    while j < t.len() && ((t[j] >= '0' && t[j] <= '9') || t[j] == '.' || t[j] == ',')
        invariant
            from <= j <= t.len(),
            number_run_end(t@, from as int) == number_run_end(t@, j as int),
        decreases t.len() - j,
    {
        j = j + 1;
    }
    j
}

fn word_end_exec(t: &Vec<char>, from: usize) -> (j: usize)
    requires
        from <= t.len(),
    ensures
        j == word_end(t@, from as int),
        from <= j <= t.len(),
{
    let mut j: usize = from;
    while j < t.len() && (t[j].is_alphanumeric() || t[j] == '_')
        invariant
            from <= j <= t.len(),
            word_end(t@, from as int) == word_end(t@, j as int),
        decreases t.len() - j,
    {
        j = j + 1;
    }
    j
}

/// The words that mark a credit.
pub open spec fn is_credit_word(w: Seq<char>) -> bool {
    w == "C"@ || w == "CR"@ || w == "Cr"@ || w == "CREDIT"@ || w == "KREDIT"@
}

/// The words that mark a debit.
pub open spec fn is_debit_word(w: Seq<char>) -> bool {
    w == "D"@ || w == "DR"@ || w == "Dr"@ || w == "DEBIT"@ || w == "DEBET"@
}

/// Whether a word is an abbreviation that takes the full stop after it.
pub open spec fn word_takes_dot(w: Seq<char>, dot_follows: bool) -> bool {
    w != "AUTO"@ && !is_credit_word(w) && !is_debit_word(w) && dot_follows && (w == "cr"@ || w
        == "dr"@)
}

/// The token that a word stands for: a keyword, or else an identifier.
pub open spec fn word_token(w: Seq<char>, dot_follows: bool) -> TokenView {
    if w == "AUTO"@ {
        TokenView::Auto
    } else if is_credit_word(w) {
        TokenView::Credit
    } else if is_debit_word(w) {
        TokenView::Debit
    } else if w == "cr"@ && dot_follows {
        TokenView::Credit
    } else if w == "dr"@ && dot_follows {
        TokenView::Debit
    } else {
        TokenView::Identifier(w)
    }
}

/// Classifies a word; the flag says whether the full stop after it
/// belongs to it.
pub fn identifier(word: &Vec<char>, dot_follows: bool) -> (r: (Token, bool))
    ensures
        r.0@ == word_token(word@, dot_follows),
        r.1 == word_takes_dot(word@, dot_follows),
{
    if spells(word, "AUTO") {
        (Token::Auto, false)
    } else if spells(word, "C") || spells(word, "CR") || spells(word, "Cr") || spells(
        word,
        "CREDIT",
    ) || spells(word, "KREDIT") {
        (Token::Credit, false)
    } else if spells(word, "D") || spells(word, "DR") || spells(word, "Dr") || spells(
        word,
        "DEBIT",
    ) || spells(word, "DEBET") {
        (Token::Debit, false)
    } else if dot_follows && spells(word, "cr") {
        (Token::Credit, true)
    } else if dot_follows && spells(word, "dr") {
        (Token::Debit, true)
    } else {
        proof {
            assert(word@.subrange(0, word.len() as int) =~= word@);
        }
        (Token::Identifier(string_of(word, 0, word.len())), false)
    }
}

/// The pairing of brackets in the Unicode bidirectional algorithm: for a
/// bracket, the opening bracket that its pair is filed under, and whether
/// the bracket itself is the opening one; `None` for any other character.
pub uninterp spec fn bracket_pair(c: char) -> Option<(char, bool)>;

/// Looks a character up with `unicode_bidi`'s
/// `BidiDataSource::bidi_matched_opening_bracket` on its hardcoded data.
/// The result depends on the character alone and is the value that
/// `bracket_pair` names.
#[verifier::external_body]
fn matched_bracket(c: char) -> (r: Option<(char, bool)>)
    ensures
        r == bracket_pair(c),
{
    match BidiDataSource::bidi_matched_opening_bracket(&HardcodedBidiData, c) {
        Some(b) => Some((b.opening, b.is_open)),
        None => None,
    }
}

// ---------------------------------------------------------------------
// One line
// ---------------------------------------------------------------------

/// What stands at one position of a trimmed line.
pub enum Scan {
    /// A comment starts here: the rest of the line yields nothing.
    Stop,
    /// Nothing is produced; lexing goes on at the given position.
    Skip(int),
    /// A token is produced; lexing goes on at the given position.
    Emit(TokenView, int),
    /// The line is rejected.
    Fail(LedgerError),
}

/// What a character that is looked up as a bracket yields: an opening
/// bracket starts a block and a closing one ends it, both named by the
/// opening bracket of the pair; any other character yields nothing.
/// Lexing goes on at `next`.
pub open spec fn bracket_scan(found: Option<(char, bool)>, next: int) -> Scan {
    match found {
        Some((opening, true)) => Scan::Emit(TokenView::BlockStart(opening), next),
        Some((opening, false)) => Scan::Emit(TokenView::BlockEnd(opening), next),
        None => Scan::Skip(next),
    }
}

/// Classifies what starts at position `i` of the trimmed line `t`.
pub open spec fn scan(t: Seq<char>, i: int) -> Scan
    recommends
        0 <= i < t.len(),
{
    let c = t[i];
    if c == ':' {
        Scan::Emit(TokenView::Colon, i + 1)
    } else if c == ';' {
        Scan::Emit(TokenView::Semicolon, i + 1)
    } else if c == '=' {
        Scan::Emit(TokenView::Assign, i + 1)
    } else if c == '-' {
        if i + 1 < t.len() && t[i + 1] == '-' {
            Scan::Stop
        } else {
            Scan::Emit(TokenView::Minus, i + 1)
        }
    } else if c == '\u{2212}' {
        Scan::Emit(TokenView::Minus, i + 1)
    } else if c == '+' {
        Scan::Emit(TokenView::Plus, i + 1)
    } else if c == '\u{00A7}' {
        Scan::Emit(TokenView::Section, i + 1)
    } else if is_digit(c) {
        let j = number_run_end(t, i + 1);
        match number_token(t.subrange(i, j)) {
            Err(e) => Scan::Fail(e),
            Ok(None) => Scan::Skip(j),
            Ok(Some(tok)) => Scan::Emit(tok, j),
        }
    } else if is_quotation(c) {
        let j = first_index(t, c, i + 1);
        Scan::Emit(
            TokenView::String(t.subrange(i + 1, j)),
            if j < t.len() {
                j + 1
            } else {
                j
            },
        )
    } else if alphabetic(c) {
        let j = word_end(t, i + 1);
        let w = t.subrange(i, j);
        let dot = j < t.len() && t[j] == '.';
        Scan::Emit(
            word_token(w, dot),
            if word_takes_dot(w, dot) {
                j + 1
            } else {
                j
            },
        )
    } else {
        bracket_scan(bracket_pair(c), i + 1)
    }
}

/// Lexing always moves on: the position after a step lies behind its start.
pub proof fn lemma_scan_advances(t: Seq<char>, i: int)
    requires
        0 <= i < t.len(),
    ensures
        match scan(t, i) {
            Scan::Skip(j) => i < j <= t.len(),
            Scan::Emit(_, j) => i < j <= t.len(),
            _ => true,
        },
{
    lemma_number_run_end(t, i + 1);
    lemma_word_end(t, i + 1);
    lemma_first_index(t, t[i], i + 1);
}

/// The tokens with one more in front, unless they are an error.
pub open spec fn prepend(tok: TokenView, rest: Result<Seq<TokenView>, LedgerError>) -> Result<
    Seq<TokenView>,
    LedgerError,
> {
    match rest {
        Ok(s) => Ok(seq![tok] + s),
        Err(e) => Err(e),
    }
}

/// The tokens of the trimmed line `t` from position `i` on. (The tests
/// `i < j <= t.len()` hold always, by `lemma_scan_advances`.)
pub open spec fn body_tokens(t: Seq<char>, i: int) -> Result<Seq<TokenView>, LedgerError>
    decreases t.len() - i,
{
    if i < 0 || i >= t.len() {
        Ok(Seq::empty())
    } else {
        match scan(t, i) {
            Scan::Stop => Ok(Seq::empty()),
            Scan::Fail(e) => Err(e),
            Scan::Skip(j) => if i < j <= t.len() {
                body_tokens(t, j)
            } else {
                Ok(Seq::empty())
            },
            Scan::Emit(tok, j) => if i < j <= t.len() {
                prepend(tok, body_tokens(t, j))
            } else {
                Ok(seq![tok])
            },
        }
    }
}

/// The number of colon tokens.
pub open spec fn count_colons(s: Seq<TokenView>) -> nat
    decreases s.len(),
{
    if s.len() == 0 {
        0
    } else {
        count_colons(s.drop_last()) + if s.last() is Colon {
            1nat
        } else {
            0nat
        }
    }
}

/// A token `n` times.
pub open spec fn repeated(tok: TokenView, n: nat) -> Seq<TokenView> {
    Seq::new(n, |i: int| tok)
}

/// The tokens of a line and the stack of indentation levels after it: the
/// structural tokens of its indentation, the tokens of its text, and one
/// closing token for each colon in it. A skipped line yields nothing.
pub open spec fn line_tokens(line: Seq<char>, indents: Seq<usize>) -> Result<
    (Seq<TokenView>, Seq<usize>),
    LedgerError,
> {
    if is_skipped(line) {
        Ok((Seq::empty(), indents))
    } else {
        match body_tokens(trimmed(line), 0) {
            Err(e) => Err(e),
            Ok(body) => {
                let (stack, lead) = indent_step(indents, indent_of(line) as usize);
                Ok(
                    (
                        lead + body + repeated(TokenView::ColonBlockEnd, count_colons(body)),
                        stack,
                    ),
                )
            },
        }
    }
}

/// One step of lexing, as executable code reports it.
pub enum ScanStep {
    Stop,
    Skip(usize),
    Emit(Token, usize),
    Fail(LedgerError),
}

impl View for ScanStep {
    type V = Scan;

    open spec fn view(&self) -> Scan {
        match self {
            ScanStep::Stop => Scan::Stop,
            ScanStep::Skip(j) => Scan::Skip(*j as int),
            ScanStep::Emit(t, j) => Scan::Emit(t@, *j as int),
            ScanStep::Fail(e) => Scan::Fail(*e),
        }
    }
}

/// Classifies what starts at position `i` of a trimmed line.
pub fn scan_at(t: &Vec<char>, i: usize) -> (r: ScanStep)
    requires
        i < t.len(),
    ensures
        r@ == scan(t@, i as int),
{
    let c = t[i];
    if c == ':' {
        ScanStep::Emit(Token::Colon, i + 1)
    } else if c == ';' {
        ScanStep::Emit(Token::Semicolon, i + 1)
    } else if c == '=' {
        ScanStep::Emit(Token::Assign, i + 1)
    } else if c == '-' {
        if i + 1 < t.len() && t[i + 1] == '-' {
            ScanStep::Stop
        } else {
            ScanStep::Emit(Token::Minus, i + 1)
        }
    } else if c == '\u{2212}' {
        ScanStep::Emit(Token::Minus, i + 1)
    } else if c == '+' {
        ScanStep::Emit(Token::Plus, i + 1)
    } else if c == '\u{00A7}' {
        ScanStep::Emit(Token::Section, i + 1)
    } else if c >= '0' && c <= '9' {
        let j = number_run_end_exec(t, i + 1);
        let run = slice_chars(t, i, j);
        match date_or_number(&run) {
            Err(e) => ScanStep::Fail(e),
            Ok(None) => ScanStep::Skip(j),
            Ok(Some(tok)) => ScanStep::Emit(tok, j),
        }
    } else if is_quotation_mark(c) {
        let j = find_char(t, c, i + 1);
        ScanStep::Emit(Token::String(string_of(t, i + 1, j)), if j < t.len() { j + 1 } else { j })
    } else if c.is_alphabetic() {
        let j = word_end_exec(t, i + 1);
        let word = slice_chars(t, i, j);
        let dot = j < t.len() && t[j] == '.';
        let (tok, takes_dot) = identifier(&word, dot);
        ScanStep::Emit(tok, if takes_dot { j + 1 } else { j })
    } else {
        bracket_step(matched_bracket(c), i + 1)
    }
}

/// What a character that was looked up as a bracket yields.
pub fn bracket_step(found: Option<(char, bool)>, next: usize) -> (r: ScanStep)
    ensures
        r@ == bracket_scan(found, next as int),
{
    match found {
        Some((opening, is_open)) => {
            if is_open {
                ScanStep::Emit(Token::BlockStart(opening), next)
            } else {
                ScanStep::Emit(Token::BlockEnd(opening), next)
            }
        },
        None => ScanStep::Skip(next),
    }
}

/// The tokens of the text of a trimmed line.
pub fn lex_body(t: &Vec<char>) -> (r: Result<Vec<Token>, LedgerError>)
    ensures
        match r {
            Ok(v) => body_tokens(t@, 0) == Ok::<Seq<TokenView>, LedgerError>(tokens_view(v@)),
            Err(e) => body_tokens(t@, 0) == Err::<Seq<TokenView>, LedgerError>(e),
        },
{
    let mut out: Vec<Token> = Vec::new();
    let mut i: usize = 0;
    proof {
        assert(tokens_view(out@) =~= Seq::<TokenView>::empty());
        match body_tokens(t@, 0) {
            Ok(rest) => {
                assert(tokens_view(out@) + rest =~= rest);
            },
            Err(_) => {},
        }
    }
    while i < t.len()
        invariant
            i <= t.len(),
            match body_tokens(t@, i as int) {
                Ok(rest) => body_tokens(t@, 0) == Ok::<Seq<TokenView>, LedgerError>(
                    tokens_view(out@) + rest,
                ),
                Err(e) => body_tokens(t@, 0) == Err::<Seq<TokenView>, LedgerError>(e),
            },
        decreases t.len() - i,
    {
        proof {
            lemma_scan_advances(t@, i as int);
        }
        match scan_at(t, i) {
            ScanStep::Stop => {
                proof {
                    assert(tokens_view(out@) + Seq::<TokenView>::empty() =~= tokens_view(out@));
                }
                return Ok(out);
            },
            ScanStep::Fail(e) => {
                return Err(e);
            },
            ScanStep::Skip(j) => {
                i = j;
            },
            ScanStep::Emit(tok, j) => {
                proof {
                    lemma_tokens_view_push(out@, tok);
                    match body_tokens(t@, j as int) {
                        Ok(rest) => {
                            assert(tokens_view(out@) + (seq![tok@] + rest) =~= tokens_view(
                                out@,
                            ).push(tok@) + rest);
                        },
                        Err(_) => {},
                    }
                }
                out.push(tok);
                i = j;
            },
        }
    }
    proof {
        assert(tokens_view(out@) + Seq::<TokenView>::empty() =~= tokens_view(out@));
    }
    Ok(out)
}

fn count_colons_exec(v: &Vec<Token>) -> (n: usize)
    ensures
        n == count_colons(tokens_view(v@)),
{
    let mut n: usize = 0;
    let mut i: usize = 0;
    let ghost s = tokens_view(v@);
    proof {
        assert(s.take(0) =~= Seq::<TokenView>::empty());
    }
    while i < v.len()
        invariant
            i <= v.len(),
            n <= i,
            s == tokens_view(v@),
            n == count_colons(s.take(i as int)),
        decreases v.len() - i,
    {
        proof {
            assert(s.take(i + 1).drop_last() =~= s.take(i as int));
            assert(s.take(i + 1).last() == v@[i as int]@);
        }
        match &v[i] {
            Token::Colon => {
                n = n + 1;
            },
            _ => {},
        }
        i = i + 1;
    }
    proof {
        assert(s.take(i as int) =~= s);
    }
    n
}

// ---------------------------------------------------------------------
// The lexer
// ---------------------------------------------------------------------

/// A lexer over a source text. Tokens are pulled one at a time; a line is
/// lexed when the tokens of the lines before it have been handed out.
pub struct Lexer {
    lines: Vec<Vec<char>>,
    cursor: usize,
    indent_stack: Vec<usize>,
    token_queue: VecDeque<Token>,
}

/// The state of a lexer: the lines of the source, the number of lines
/// lexed so far, the stack of open indentation levels, and the tokens
/// that are lexed but not handed out yet.
pub struct LexerView {
    pub lines: Seq<Seq<char>>,
    pub cursor: nat,
    pub indents: Seq<usize>,
    pub queue: Seq<TokenView>,
}

/// The tokens that close the open indentation levels and end the stream.
pub open spec fn closing_tokens(indents: Seq<usize>) -> Seq<TokenView> {
    repeated(TokenView::Dedent, indents.len()).push(TokenView::EOF)
}

/// Lexes the next line that yields tokens, or the end of the input: the
/// tokens, the number of lines lexed after it, and the indentation stack.
pub open spec fn refill(lines: Seq<Seq<char>>, cursor: nat, indents: Seq<usize>) -> Result<
    (Seq<TokenView>, nat, Seq<usize>),
    LedgerError,
>
    decreases lines.len() - cursor,
{
    if cursor >= lines.len() {
        Ok((closing_tokens(indents), cursor, indents))
    } else if is_skipped(lines[cursor as int]) {
        refill(lines, cursor + 1, indents)
    } else {
        match line_tokens(lines[cursor as int], indents) {
            Err(e) => Err(e),
            Ok((toks, stack)) => Ok((toks, cursor + 1, stack)),
        }
    }
}

/// The next token and the state after it is handed out.
pub open spec fn next_token_spec(v: LexerView) -> Result<(TokenView, LexerView), LedgerError> {
    if v.queue.len() > 0 {
        Ok((v.queue[0], LexerView { queue: v.queue.drop_first(), ..v }))
    } else {
        match refill(v.lines, v.cursor, v.indents) {
            Err(e) => Err(e),
            Ok((toks, cursor, indents)) => Ok(
                (
                    toks[0],
                    LexerView { lines: v.lines, cursor, indents, queue: toks.drop_first() },
                ),
            ),
        }
    }
}

/// A stream of tokens, and the error that cuts it short if there is one.
pub struct TokenStream {
    pub tokens: Seq<TokenView>,
    pub error: Option<LedgerError>,
}

/// The tokens of the lines from `cursor` on, up to and with the end
/// marker, or up to the first line that is rejected.
pub open spec fn lexed(lines: Seq<Seq<char>>, cursor: nat, indents: Seq<usize>) -> TokenStream
    decreases lines.len() - cursor,
{
    if cursor >= lines.len() {
        TokenStream { tokens: closing_tokens(indents), error: None }
    } else {
        match line_tokens(lines[cursor as int], indents) {
            Err(e) => TokenStream { tokens: Seq::empty(), error: Some(e) },
            Ok((toks, stack)) => {
                let rest = lexed(lines, cursor + 1, stack);
                TokenStream { tokens: toks + rest.tokens, error: rest.error }
            },
        }
    }
}

/// The stream of a source text.
pub open spec fn source_stream(source: Seq<char>) -> TokenStream {
    lexed(split_lines(source), 0, Seq::empty())
}

/// The stream that a lexer in state `v` has yet to hand out.
pub open spec fn pending_stream(v: LexerView) -> TokenStream {
    let rest = lexed(v.lines, v.cursor, v.indents);
    TokenStream { tokens: v.queue + rest.tokens, error: rest.error }
}

/// The tokens of a stream that no error cuts short.
pub open spec fn whole(s: TokenStream) -> Result<Seq<TokenView>, LedgerError> {
    match s.error {
        None => Ok(s.tokens),
        Some(e) => Err(e),
    }
}

/// The tokens of a source text, up to and with the end marker.
pub open spec fn token_stream(source: Seq<char>) -> Result<Seq<TokenView>, LedgerError> {
    whole(source_stream(source))
}

/// The tokens that a lexer in state `v` has yet to hand out.
pub open spec fn pending_tokens(v: LexerView) -> Result<Seq<TokenView>, LedgerError> {
    whole(pending_stream(v))
}

proof fn lemma_refill_is_first(lines: Seq<Seq<char>>, cursor: nat, indents: Seq<usize>)
    ensures
        match refill(lines, cursor, indents) {
            Ok((toks, _, _)) => toks.len() > 0 && lexed(lines, cursor, indents).tokens.len() > 0
                && lexed(lines, cursor, indents).tokens[0] == toks[0],
            Err(e) => lexed(lines, cursor, indents).tokens.len() == 0 && lexed(
                lines,
                cursor,
                indents,
            ).error == Some(e),
        },
    decreases lines.len() - cursor,
{
    if cursor < lines.len() {
        let line = lines[cursor as int];
        if is_skipped(line) {
            lemma_refill_is_first(lines, cursor + 1, indents);
            let rest = lexed(lines, cursor + 1, indents);
            assert(Seq::<TokenView>::empty() + rest.tokens =~= rest.tokens);
        } else {
            lemma_indent_step_nonempty(indents, indent_of(line) as usize);
        }
    }
}

/// The token that is handed out next is the first token of the stream
/// that is pending; and a line that is rejected is rejected when the
/// tokens before it are handed out.
pub proof fn lemma_next_token_is_first(v: LexerView)
    ensures
        match next_token_spec(v) {
            Ok((t, _)) => pending_stream(v).tokens.len() > 0 && pending_stream(v).tokens[0] == t,
            Err(e) => pending_stream(v).tokens.len() == 0 && pending_stream(v).error == Some(e),
        },
{
    if v.queue.len() == 0 {
        lemma_refill_is_first(v.lines, v.cursor, v.indents);
    }
}

impl View for Lexer {
    type V = LexerView;

    closed spec fn view(&self) -> LexerView {
        LexerView {
            lines: lines_view(self.lines@),
            cursor: self.cursor as nat,
            indents: self.indent_stack@,
            queue: tokens_view(self.token_queue@),
        }
    }
}

impl Lexer {
    /// A lexer at the start of a source text.
    pub fn new(source: &str) -> (lexer: Lexer)
        ensures
            lexer@ == (LexerView {
                lines: split_lines(source@),
                cursor: 0,
                indents: Seq::empty(),
                queue: Seq::empty(),
            }),
    {
        let chars = chars_of(source);
        let lines = split_source(&chars);
        let lexer = Lexer {
            lines,
            cursor: 0,
            indent_stack: Vec::new(),
            token_queue: VecDeque::new(),
        };
        proof {
            assert(lexer@.queue =~= Seq::<TokenView>::empty());
            assert(lexer@.indents =~= Seq::<usize>::empty());
        }
        lexer
    }

    /// Lexes one line: its tokens, and the indentation stack after it.
    pub fn tokenize_line(line: &Vec<char>, indent_stack: &mut Vec<usize>) -> (r: Result<
        Vec<Token>,
        LedgerError,
    >)
        ensures
            match r {
                Ok(toks) => line_tokens(line@, old(indent_stack)@) == Ok::<
                    (Seq<TokenView>, Seq<usize>),
                    LedgerError,
                >((tokens_view(toks@), final(indent_stack)@)) && (!is_skipped(line@) ==> toks.len()
                    > 0),
                Err(e) => line_tokens(line@, old(indent_stack)@) == Err::<
                    (Seq<TokenView>, Seq<usize>),
                    LedgerError,
                >(e) && final(indent_stack)@ == old(indent_stack)@,
            },
    {
        let a = skip_whitespace_exec(line);
        let b = trim_end_exec(line);
        let mut out: Vec<Token> = Vec::new();
        proof {
            assert(tokens_view(out@) =~= Seq::<TokenView>::empty());
        }
        if a >= b {
            return Ok(out);
        }
        if b - a >= 2 && line[a] == '-' && line[a + 1] == '-' {
            return Ok(out);
        }
        let text = slice_chars(line, a, b);
        let body = match lex_body(&text) {
            Ok(body) => body,
            Err(e) => {
                return Err(e);
            },
        };
        let colons = count_colons_exec(&body);
        apply_indent(indent_stack, a, &mut out);
        let ghost lead = tokens_view(out@);
        let ghost body_view = tokens_view(body@);
        // The tokens of the text.
        let mut k: usize = 0;
        proof {
            assert(body_view.take(0) =~= Seq::<TokenView>::empty());
            assert(lead + body_view.take(0) =~= lead);
        }
        while k < body.len()
            invariant
                k <= body.len(),
                body_view == tokens_view(body@),
                tokens_view(out@) == lead + body_view.take(k as int),
                out.len() > 0,
            decreases body.len() - k,
        {
            let tok = body[k].clone();
            proof {
                lemma_tokens_view_push(out@, tok);
                assert(lead + body_view.take(k + 1) =~= (lead + body_view.take(k as int)).push(
                    tok@,
                ));
            }
            out.push(tok);
            k = k + 1;
        }
        proof {
            assert(body_view.take(k as int) =~= body_view);
        }
        // One closing token for each colon.
        let mut c: usize = 0;
        proof {
            assert(lead + body_view + repeated(TokenView::ColonBlockEnd, 0) =~= lead + body_view);
        }
        while c < colons
            invariant
                c <= colons,
                tokens_view(out@) == lead + body_view + repeated(
                    TokenView::ColonBlockEnd,
                    c as nat,
                ),
                out.len() > 0,
            decreases colons - c,
        {
            proof {
                lemma_tokens_view_push(out@, Token::ColonBlockEnd);
                assert(lead + body_view + repeated(TokenView::ColonBlockEnd, (c + 1) as nat) =~= (
                lead + body_view + repeated(TokenView::ColonBlockEnd, c as nat)).push(
                    TokenView::ColonBlockEnd,
                ));
            }
            out.push(Token::ColonBlockEnd);
            c = c + 1;
        }
        Ok(out)
    }

    /// Hands out the next token. After the end marker the closing tokens
    /// come again. On an error the lexer stays where it was.
    pub fn next_token(&mut self) -> (r: Result<Token, LedgerError>)
        ensures
            match r {
                Ok(t) => next_token_spec(old(self)@) == Ok::<(TokenView, LexerView), LedgerError>(
                    (t@, final(self)@),
                ),
                Err(e) => next_token_spec(old(self)@) == Err::<(TokenView, LexerView), LedgerError>(
                    e,
                ) && final(self)@ == old(self)@,
            },
    {
        if self.token_queue.len() > 0 {
            let ghost before = self.token_queue@;
            let t = self.token_queue.pop_front().unwrap();
            proof {
                assert(tokens_view(self.token_queue@) =~= tokens_view(before).drop_first());
            }
            return Ok(t);
        }
        proof {
            assert(self@.queue =~= Seq::<TokenView>::empty());
        }
        let mut cursor = self.cursor;
        while cursor < self.lines.len()
            invariant
                self.lines == old(self).lines,
                self.cursor == old(self).cursor,
                self.indent_stack@ == old(self).indent_stack@,
                self.token_queue == old(self).token_queue,
                self.token_queue.len() == 0,
                self.cursor <= cursor,
                refill(self@.lines, self@.cursor, self@.indents) == refill(
                    self@.lines,
                    cursor as nat,
                    self@.indents,
                ),
            decreases self.lines.len() - cursor,
        {
            let ghost stack0 = self.indent_stack@;
            let toks = match Lexer::tokenize_line(&self.lines[cursor], &mut self.indent_stack) {
                Ok(toks) => toks,
                Err(e) => {
                    proof {
                        assert(self.indent_stack@ == stack0);
                    }
                    return Err(e);
                },
            };
            if toks.len() > 0 {
                self.cursor = cursor + 1;
                self.fill_queue(toks);
                let ghost before = self.token_queue@;
                let t = self.token_queue.pop_front().unwrap();
                proof {
                    assert(tokens_view(self.token_queue@) =~= tokens_view(before).drop_first());
                }
                return Ok(t);
            }
            cursor = cursor + 1;
        }
        let mut closing: Vec<Token> = Vec::new();
        let mut k: usize = 0;
        proof {
            assert(tokens_view(closing@) =~= repeated(TokenView::Dedent, 0));
        }
        while k < self.indent_stack.len()
            invariant
                k <= self.indent_stack.len(),
                tokens_view(closing@) == repeated(TokenView::Dedent, k as nat),
            decreases self.indent_stack.len() - k,
        {
            proof {
                lemma_tokens_view_push(closing@, Token::Dedent);
                assert(repeated(TokenView::Dedent, (k + 1) as nat) =~= repeated(
                    TokenView::Dedent,
                    k as nat,
                ).push(TokenView::Dedent));
            }
            closing.push(Token::Dedent);
            k = k + 1;
        }
        proof {
            lemma_tokens_view_push(closing@, Token::EOF);
        }
        closing.push(Token::EOF);
        self.cursor = cursor;
        self.fill_queue(closing);
        let ghost before = self.token_queue@;
        let t = self.token_queue.pop_front().unwrap();
        proof {
            assert(tokens_view(self.token_queue@) =~= tokens_view(before).drop_first());
        }
        Ok(t)
    }

    /// Puts tokens at the end of the queue.
    fn fill_queue(&mut self, toks: Vec<Token>)
        ensures
            final(self).lines == old(self).lines,
            final(self).cursor == old(self).cursor,
            final(self).indent_stack == old(self).indent_stack,
            tokens_view(final(self).token_queue@) == tokens_view(old(self).token_queue@)
                + tokens_view(toks@),
    {
        let mut toks = toks;
        let ghost all = tokens_view(toks@);
        let ghost queue0 = tokens_view(self.token_queue@);
        let mut k: usize = 0;
        let n = toks.len();
        proof {
            assert(queue0 + all.take(0) =~= queue0);
        }
        while k < n
            invariant
                k <= n,
                n == toks.len(),
                self.lines == old(self).lines,
                self.cursor == old(self).cursor,
                self.indent_stack == old(self).indent_stack,
                all == tokens_view(toks@),
                tokens_view(self.token_queue@) == queue0 + all.take(k as int),
            decreases n - k,
        {
            let tok = toks[k].clone();
            proof {
                assert(tokens_view(self.token_queue@.push(tok)) =~= tokens_view(
                    self.token_queue@,
                ).push(tok@));
                assert(queue0 + all.take(k + 1) =~= (queue0 + all.take(k as int)).push(tok@));
            }
            self.token_queue.push_back(tok);
            k = k + 1;
        }
        proof {
            assert(all.take(k as int) =~= all);
        }
    }

    /// All tokens that are left, up to and with the end marker, or up to
    /// the first line that is rejected, with the reason.
    pub fn scan(self) -> (r: (Vec<Token>, Option<LedgerError>))
        ensures
            tokens_view(r.0@) == pending_stream(self@).tokens,
            r.1 == pending_stream(self@).error,
    {
        let mut lexer = self;
        let mut out: Vec<Token> = Vec::new();
        let ghost queue0 = tokens_view(lexer.token_queue@);
        // The tokens that wait in the queue.
        let mut k: usize = 0;
        proof {
            assert(tokens_view(out@) =~= queue0.take(0));
        }
        while k < lexer.token_queue.len()
            invariant
                lexer == self,
                k <= lexer.token_queue.len(),
                queue0 == tokens_view(lexer.token_queue@),
                tokens_view(out@) == queue0.take(k as int),
            decreases lexer.token_queue.len() - k,
        {
            let tok = lexer.token_queue[k].clone();
            proof {
                lemma_tokens_view_push(out@, tok);
                assert(queue0.take(k + 1) =~= queue0.take(k as int).push(tok@));
            }
            out.push(tok);
            k = k + 1;
        }
        proof {
            assert(queue0.take(k as int) =~= queue0);
        }
        // The lines that are left.
        let mut cursor = lexer.cursor;
        let mut stack = lexer.indent_stack;
        let lines = lexer.lines;
        let ghost all = lexed(self@.lines, self@.cursor, self@.indents);
        let ghost mut done: Seq<TokenView> = Seq::empty();
        proof {
            assert(queue0 + done =~= queue0);
            assert(done + all.tokens =~= all.tokens);
        }
        while cursor < lines.len()
            invariant
                tokens_view(out@) == queue0 + done,
                queue0 == self@.queue,
                all == lexed(self@.lines, self@.cursor, self@.indents),
                all.tokens == done + lexed(lines_view(lines@), cursor as nat, stack@).tokens,
                all.error == lexed(lines_view(lines@), cursor as nat, stack@).error,
            decreases lines.len() - cursor,
        {
            let toks = match Lexer::tokenize_line(&lines[cursor], &mut stack) {
                Ok(toks) => toks,
                Err(e) => {
                    proof {
                        assert(done + Seq::<TokenView>::empty() =~= done);
                    }
                    return (out, Some(e));
                },
            };
            let ghost line_view = tokens_view(toks@);
            let ghost done0 = done;
            let mut j: usize = 0;
            proof {
                assert(queue0 + (done0 + line_view.take(0)) =~= queue0 + done0);
            }
            while j < toks.len()
                invariant
                    j <= toks.len(),
                    line_view == tokens_view(toks@),
                    tokens_view(out@) == queue0 + (done0 + line_view.take(j as int)),
                decreases toks.len() - j,
            {
                let tok = toks[j].clone();
                proof {
                    lemma_tokens_view_push(out@, tok);
                    assert(queue0 + (done0 + line_view.take(j + 1)) =~= (queue0 + (done0
                        + line_view.take(j as int))).push(tok@));
                }
                out.push(tok);
                j = j + 1;
            }
            proof {
                assert(line_view.take(j as int) =~= line_view);
                done = done0 + line_view;
                let rest = lexed(lines_view(lines@), (cursor + 1) as nat, stack@);
                assert(done0 + (line_view + rest.tokens) =~= done + rest.tokens);
            }
            cursor = cursor + 1;
        }
        // The end of the input.
        let ghost before = tokens_view(out@);
        let mut d: usize = 0;
        proof {
            assert(before + repeated(TokenView::Dedent, 0) =~= before);
        }
        while d < stack.len()
            invariant
                d <= stack.len(),
                tokens_view(out@) == before + repeated(TokenView::Dedent, d as nat),
            decreases stack.len() - d,
        {
            proof {
                lemma_tokens_view_push(out@, Token::Dedent);
                assert(before + repeated(TokenView::Dedent, (d + 1) as nat) =~= (before + repeated(
                    TokenView::Dedent,
                    d as nat,
                )).push(TokenView::Dedent));
            }
            out.push(Token::Dedent);
            d = d + 1;
        }
        proof {
            lemma_tokens_view_push(out@, Token::EOF);
            assert((before + repeated(TokenView::Dedent, stack@.len())).push(TokenView::EOF)
                =~= queue0 + (done + closing_tokens(stack@)));
        }
        out.push(Token::EOF);
        (out, None)
    }

    /// All tokens that are left, up to and with the end marker.
    pub fn tokens(self) -> (r: Result<Vec<Token>, LedgerError>)
        ensures
            match r {
                Ok(toks) => pending_tokens(self@) == Ok::<Seq<TokenView>, LedgerError>(
                    tokens_view(toks@),
                ),
                Err(e) => pending_tokens(self@) == Err::<Seq<TokenView>, LedgerError>(e),
            },
    {
        let (toks, error) = self.scan();
        match error {
            None => Ok(toks),
            Some(e) => Err(e),
        }
    }
}

} // verus!
