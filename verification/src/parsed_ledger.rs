//! The ordered in-memory ledger model.

use vstd::prelude::*;

use crate::raw_transaction::Directive;
use crate::raw_transaction::DirectiveV;
use crate::raw_transaction::RawTransaction;
use crate::raw_transaction::TransactionV;

verus! {

/// One entry of a parsed document, in document order: either a
/// transaction block or an administrative directive.
#[derive(Clone, Debug, PartialEq, Eq)]
pub enum LedgerEntry {
    Transaction(RawTransaction),
    Directive(Directive),
}

/// Specification view of a [`LedgerEntry`].
pub ghost enum EntryV {
    Transaction(TransactionV),
    Directive(DirectiveV),
}

impl View for LedgerEntry {
    type V = EntryV;

    open spec fn view(&self) -> EntryV {
        match self {
            LedgerEntry::Transaction(t) => EntryV::Transaction(t@),
            LedgerEntry::Directive(d) => EntryV::Directive(d@),
        }
    }
}

/// The ordered sequence of entries of one document. Insertion order
/// is preserved and significant: entries stand in document order, not
/// sorted by date. Created empty, populated by sequential appends
/// while a parse runs, then owned by the caller.
#[derive(Clone, Debug, PartialEq, Eq)]
pub struct ParsedLedger {
    pub entries: Vec<LedgerEntry>,
}

impl View for ParsedLedger {
    type V = Seq<EntryV>;

    open spec fn view(&self) -> Seq<EntryV> {
        self.entries@.map_values(|e: LedgerEntry| e@)
    }
}

impl ParsedLedger {
    /// A ledger with no entries.
    pub fn new() -> (r: ParsedLedger)
        ensures
            r@ == Seq::<EntryV>::empty(),
    {
        let r = ParsedLedger { entries: Vec::new() };
        proof {
            assert(r@ =~= Seq::<EntryV>::empty());
        }
        r
    }

    /// Appends a transaction at the end, keeping document order.
    pub fn add_transaction(&mut self, xn: RawTransaction)
        ensures
            final(self)@ == old(self)@.push(EntryV::Transaction(xn@)),
    {
        let ghost prev = self@;
        let ghost xv = xn@;
        self.entries.push(LedgerEntry::Transaction(xn));
        proof {
            assert(self@ =~= prev.push(EntryV::Transaction(xv)));
        }
    }

    /// Appends a directive at the end, keeping document order.
    pub fn add_directive(&mut self, d: Directive)
        ensures
            final(self)@ == old(self)@.push(EntryV::Directive(d@)),
    {
        let ghost prev = self@;
        let ghost dv = d@;
        self.entries.push(LedgerEntry::Directive(d));
        proof {
            assert(self@ =~= prev.push(EntryV::Directive(dv)));
        }
    }

    /// How many entries the ledger holds.
    pub fn len(&self) -> (r: usize)
        ensures
            r == self@.len(),
    {
        self.entries.len()
    }
}

impl Default for ParsedLedger {
    /// The empty ledger.
    fn default() -> (r: ParsedLedger)
        ensures
            r@ == Seq::<EntryV>::empty(),
    {
        ParsedLedger::new()
    }
}

} // verus!
