use vstd::prelude::*;

verus! {

/// The stage that rejected the input.
#[derive(Clone, Copy, Debug, PartialEq, Eq, Structural)]
pub enum ErrorKind {
    Lexical,
    Structure,
    Semantic,
    Execution,
}

/// Why processing of a ledger source was abandoned.
#[derive(Clone, Copy, Debug, PartialEq, Eq, Structural)]
pub enum LedgerError {
    /// A numeric literal does not fit in the amount type once scaled to minor units.
    NumberOutOfRange,
    /// A block was closed that had never been opened.
    UnmatchedBlockEnd,
    /// A list of tokens outside any block matches no statement form.
    MalformedStatement,
    /// A block header matches no statement form.
    UnknownHeader,
    /// The header after `AUTO` is neither a number nor an identifier.
    InvalidAutoBalance,
    /// A budget row holds something other than a signed amount.
    InvalidBudgetAmount,
    /// A budget row holds a nested block.
    UnexpectedBlock,
    /// A transaction entry is headed by something other than an account.
    InvalidAccount,
    /// A transaction holds a bare list where an entry block is expected.
    ExpectedBlock,
    /// An entry holds something other than an amount or `AUTO`.
    InvalidAmount,
    /// An entry holds a nested block where an amount is expected.
    ExpectedList,
    /// An alias is used that no enclosing scope defines.
    UndefinedAlias,
    /// A transaction has no date of its own and none is in scope.
    MissingDate,
    /// The year of a transaction cannot be replaced: the day does not exist in the new year.
    InvalidDate,
    /// The entries do not sum to zero and no account is there to absorb the rest.
    UnbalancedTransaction,
    /// An entry posts to an account number that the chart of accounts lacks.
    UndeclaredAccount,
    /// A sum of amounts leaves the range of the amount type.
    AmountOverflow,
    /// The journal has more entries, or a document more entries, than can be numbered.
    JournalTooLong,
}

impl LedgerError {
    /// The stage that raises this error.
    pub open spec fn spec_kind(self) -> ErrorKind {
        match self {
            LedgerError::NumberOutOfRange => ErrorKind::Lexical,
            LedgerError::UnmatchedBlockEnd => ErrorKind::Structure,
            LedgerError::MalformedStatement
            | LedgerError::UnknownHeader
            | LedgerError::InvalidAutoBalance
            | LedgerError::InvalidBudgetAmount
            | LedgerError::UnexpectedBlock
            | LedgerError::InvalidAccount
            | LedgerError::ExpectedBlock
            | LedgerError::InvalidAmount
            | LedgerError::ExpectedList => ErrorKind::Semantic,
            LedgerError::UndefinedAlias
            | LedgerError::MissingDate
            | LedgerError::InvalidDate
            | LedgerError::UnbalancedTransaction
            | LedgerError::UndeclaredAccount
            | LedgerError::AmountOverflow
            | LedgerError::JournalTooLong => ErrorKind::Execution,
        }
    }

    /// The stage that raises this error.
    #[verifier::when_used_as_spec(spec_kind)]
    pub fn kind(self) -> (k: ErrorKind)
        ensures
            k == self.spec_kind(),
    {
        match self {
            LedgerError::NumberOutOfRange => ErrorKind::Lexical,
            LedgerError::UnmatchedBlockEnd => ErrorKind::Structure,
            LedgerError::MalformedStatement
            | LedgerError::UnknownHeader
            | LedgerError::InvalidAutoBalance
            | LedgerError::InvalidBudgetAmount
            | LedgerError::UnexpectedBlock
            | LedgerError::InvalidAccount
            | LedgerError::ExpectedBlock
            | LedgerError::InvalidAmount
            | LedgerError::ExpectedList => ErrorKind::Semantic,
            LedgerError::UndefinedAlias
            | LedgerError::MissingDate
            | LedgerError::InvalidDate
            | LedgerError::UnbalancedTransaction
            | LedgerError::UndeclaredAccount
            | LedgerError::AmountOverflow
            | LedgerError::JournalTooLong => ErrorKind::Execution,
        }
    }

}

} // verus!
