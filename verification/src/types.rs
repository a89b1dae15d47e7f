//! Source positions, rule identities, and the error taxonomy.

use vstd::prelude::*;

verus! {

/// A 1-based line / column position inside the input document.
/// Immutable once assigned to a record.
#[derive(Clone, Copy, Debug, PartialEq, Eq)]
pub struct FilePosition {
    pub line: usize,
    pub col: usize,
}

/// Provenance attached to every constructed record; carries no
/// semantic meaning, only the position for diagnostics.
#[derive(Clone, Copy, Debug, PartialEq, Eq)]
pub struct ParserInfo {
    pub position: FilePosition,
}

/// Identity of a grammar rule, used in parse nodes, in syntax errors
/// (the set of rules expected at the failure position), and by the
/// builder's dispatch.
#[derive(Clone, Copy, Debug, PartialEq, Eq)]
pub enum Rule {
    Ledger,
    Eoi,
    Whitespace,
    EmptyLine,
    Comment,
    CommentOrNewline,
    DecimalValue,
    Iso8601DateExtended,
    TopLevelAcct,
    SubAcct,
    AcctSeparator,
    AcctDescriptor,
    Currency,
    TransAnnotation,
    TransDescription,
    TransHeader,
    PostingIndent,
    PostingBasic,
    TransactionBlock,
    DirectiveOpen,
    DirectiveClose,
    DirectiveCommodity,
    BalanceDirective,
    Directives,
}

/// The grammar could not be matched: the furthest input position the
/// matchers reached, and the rules that were expected there.
#[derive(Clone, Debug, PartialEq, Eq)]
pub struct SyntaxError {
    pub position: FilePosition,
    pub expected: Vec<Rule>,
}

/// The builder met a node it has no conversion for, or a conversion
/// failed on text the grammar accepted (for example a decimal whose
/// digits overflow the amount type). Unlike a syntax error this
/// signals a grammar/builder mismatch, not bad input.
#[derive(Clone, Copy, Debug, PartialEq, Eq)]
pub enum StructuralFault {
    /// No conversion is defined for this rule where the node stood.
    UnmappedRule,
    /// A node's bytes do not hold what its rule identity promises.
    NodeMismatch,
    /// The matched text could not be converted to a numeric amount.
    DecimalConversion,
    /// The matched text could not be converted to a calendar date.
    DateConversion,
}

/// Details of a builder failure: what went wrong, on which rule's
/// node, and where that node started in the document.
#[derive(Clone, Copy, Debug, PartialEq, Eq)]
pub struct StructuralError {
    pub fault: StructuralFault,
    pub rule: Rule,
    pub position: FilePosition,
}

/// Everything a failed parse can return. Both kinds abort the whole
/// call: there is no partial ledger on failure.
#[derive(Clone, Debug, PartialEq, Eq)]
pub enum ParseError {
    Syntax(SyntaxError),
    Structure(StructuralError),
}

} // verus!
