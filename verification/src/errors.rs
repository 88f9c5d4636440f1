use vstd::prelude::*;

verus! {

/// A structural error in a molecule description.  Parsing never returns a
/// partially built graph: any of these aborts the whole parse.
#[derive(Debug, Eq, PartialEq, Clone, Copy)]
pub enum ParseError {
    /// No element symbol where an atom was required.
    ExpectedElement,
    /// No bond token where one was required.
    ExpectedBond,
    /// No sign character where a charge was required.
    ExpectedSign,
    /// No digit where a number was required.
    ExpectedDigit,
    /// No `H` where a hydrogen count was required.
    ExpectedHydrogen,
    /// A bracket atom was opened but not closed.
    MismatchedBracket,
    /// A branch was closed that was never opened, or left open at the end.
    UnbalancedBranch,
    /// A ring-closure digit was never seen a second time.
    UnclosedRing,
    /// A ring closure referred back to a point before the first atom.
    DanglingRingBond,
}

/// A defect of the sidecar index data found while searching.
#[derive(Debug, Eq, PartialEq, Clone, Copy)]
pub enum SearchError {
    /// The query text failed to parse.
    Query(ParseError),
    /// The index length is not a whole number of records, or a record holds
    /// an offset that does not fit the platform.
    CorruptIndex,
}

/// A failure while building the sidecar index.
#[derive(Debug, Eq, PartialEq, Clone, Copy)]
pub enum IndexError {
    /// A source line failed to parse; the whole build aborts.
    Line(ParseError),
    /// The running byte offset outgrew the platform word.
    OffsetOverflow,
}

} // verus!
