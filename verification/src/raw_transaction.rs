//! Typed records built from recognized input, and their
//! specification-level views.
//!
//! Each record is immutable once built and carries a [`ParserInfo`]
//! stamp with the source position it was recognized at. The view of a
//! record (`@`) is a mathematical value over `Seq` and `int`, which the
//! grammar's extraction functions also produce; contracts relate the
//! two.

use vstd::prelude::*;

use crate::types::FilePosition;
use crate::types::ParserInfo;

verus! {

/// A calendar date recognized from the extended ISO-8601 form
/// `YYYY-MM-DD`. The grammar guarantees `1 <= year <= 9999`,
/// `1 <= month <= 12` and `1 <= day <= 31`; year zero is rejected.
#[derive(Clone, Copy, Debug, PartialEq, Eq)]
pub struct Date {
    pub year: u16,
    pub month: u8,
    pub day: u8,
}

/// Specification view of a [`Date`].
pub ghost struct DateV {
    pub year: int,
    pub month: int,
    pub day: int,
}

impl View for Date {
    type V = DateV;

    open spec fn view(&self) -> DateV {
        DateV { year: self.year as int, month: self.month as int, day: self.day as int }
    }
}

/// Transaction state marker: one of the fixed token set `!` / `*`.
#[derive(Clone, Copy, Debug, PartialEq, Eq)]
pub enum Annotation {
    /// The `!` marker.
    Pending,
    /// The `*` marker.
    Cleared,
}

/// A signed decimal amount, kept exactly as recognized: the digits of
/// the integer and fractional parts form `mantissa`, and `scale` is
/// the number of fractional digits, so the amount denoted is
/// `(-1)^neg * mantissa / 10^scale`. Both parts of the literal are
/// mandatory, so `scale` is at least 1.
#[derive(Clone, Copy, Debug, PartialEq, Eq)]
pub struct Decimal {
    pub neg: bool,
    pub mantissa: u64,
    pub scale: usize,
}

/// Specification view of a [`Decimal`], with an unbounded mantissa.
pub ghost struct DecimalV {
    pub neg: bool,
    pub mantissa: int,
    pub scale: int,
}

impl View for Decimal {
    type V = DecimalV;

    open spec fn view(&self) -> DecimalV {
        DecimalV { neg: self.neg, mantissa: self.mantissa as int, scale: self.scale as int }
    }
}

/// An account path: non-empty segments conceptually joined by `:`.
/// The first segment starts with an alphabetic character; later
/// segments may start with a digit; no segment is empty and the
/// descriptor never ends with a trailing separator.
#[derive(Clone, Debug, PartialEq, Eq)]
pub struct RawAccountDescriptor {
    pub path: Vec<Vec<u8>>,
    pub pinfo: ParserInfo,
}

/// Specification view of a [`RawAccountDescriptor`].
pub ghost struct AccountV {
    pub path: Seq<Seq<u8>>,
    pub line: int,
    pub col: int,
}

impl View for RawAccountDescriptor {
    type V = AccountV;

    open spec fn view(&self) -> AccountV {
        AccountV {
            path: self.path@.map_values(|seg: Vec<u8>| seg@),
            line: self.pinfo.position.line as int,
            col: self.pinfo.position.col as int,
        }
    }
}

/// One posting line of a transaction: the account, the signed amount,
/// and the trailing line comment if one was written.
#[derive(Clone, Debug, PartialEq, Eq)]
pub struct RawPosting {
    pub acct: RawAccountDescriptor,
    pub value: Decimal,
    pub comment: Option<Vec<u8>>,
    pub pinfo: ParserInfo,
}

/// Specification view of a [`RawPosting`].
pub ghost struct PostingV {
    pub acct: AccountV,
    pub value: DecimalV,
    pub comment: Option<Seq<u8>>,
    pub line: int,
    pub col: int,
}

impl View for RawPosting {
    type V = PostingV;

    open spec fn view(&self) -> PostingV {
        PostingV {
            acct: self.acct@,
            value: self.value@,
            comment: match self.comment {
                Some(c) => Some(c@),
                None => None,
            },
            line: self.pinfo.position.line as int,
            col: self.pinfo.position.col as int,
        }
    }
}

/// A transaction: header line (date, annotation, quoted description,
/// optional comment) followed by its postings in document order.
#[derive(Clone, Debug, PartialEq, Eq)]
pub struct RawTransaction {
    pub date: Date,
    pub anno: Annotation,
    pub desc: Vec<u8>,
    pub postings: Vec<RawPosting>,
    pub comment: Option<Vec<u8>>,
    pub pinfo: ParserInfo,
}

/// Specification view of a [`RawTransaction`].
pub ghost struct TransactionV {
    pub date: DateV,
    pub anno: Annotation,
    pub desc: Seq<u8>,
    pub postings: Seq<PostingV>,
    pub comment: Option<Seq<u8>>,
    pub line: int,
    pub col: int,
}

impl View for RawTransaction {
    type V = TransactionV;

    open spec fn view(&self) -> TransactionV {
        TransactionV {
            date: self.date@,
            anno: self.anno,
            desc: self.desc@,
            postings: self.postings@.map_values(|p: RawPosting| p@),
            comment: match self.comment {
                Some(c) => Some(c@),
                None => None,
            },
            line: self.pinfo.position.line as int,
            col: self.pinfo.position.col as int,
        }
    }
}

/// An administrative directive: each starts with a date, then a
/// keyword and its operands.
#[derive(Clone, Debug, PartialEq, Eq)]
pub enum Directive {
    Open { date: Date, account: RawAccountDescriptor, pinfo: ParserInfo },
    Close { date: Date, account: RawAccountDescriptor, pinfo: ParserInfo },
    Commodity { date: Date, symbol: Vec<u8>, pinfo: ParserInfo },
    Balance {
        date: Date,
        account: RawAccountDescriptor,
        amount: Decimal,
        currency: Vec<u8>,
        pinfo: ParserInfo,
    },
}

/// Specification view of a [`Directive`].
pub ghost enum DirectiveV {
    Open { date: DateV, path: Seq<Seq<u8>>, line: int, col: int },
    Close { date: DateV, path: Seq<Seq<u8>>, line: int, col: int },
    Commodity { date: DateV, symbol: Seq<u8>, line: int, col: int },
    Balance {
        date: DateV,
        path: Seq<Seq<u8>>,
        amount: DecimalV,
        currency: Seq<u8>,
        line: int,
        col: int,
    },
}

impl View for Directive {
    type V = DirectiveV;

    open spec fn view(&self) -> DirectiveV {
        match self {
            Directive::Open { date, account, pinfo } => DirectiveV::Open {
                date: date@,
                path: account@.path,
                line: pinfo.position.line as int,
                col: pinfo.position.col as int,
            },
            Directive::Close { date, account, pinfo } => DirectiveV::Close {
                date: date@,
                path: account@.path,
                line: pinfo.position.line as int,
                col: pinfo.position.col as int,
            },
            Directive::Commodity { date, symbol, pinfo } => DirectiveV::Commodity {
                date: date@,
                symbol: symbol@,
                line: pinfo.position.line as int,
                col: pinfo.position.col as int,
            },
            Directive::Balance { date, account, amount, currency, pinfo } => DirectiveV::Balance {
                date: date@,
                path: account@.path,
                amount: amount@,
                currency: currency@,
                line: pinfo.position.line as int,
                col: pinfo.position.col as int,
            },
        }
    }
}

/// Helper so contracts can speak of the position a record carries.
pub open spec fn pinfo_at(pinfo: ParserInfo, line: int, col: int) -> bool {
    pinfo.position.line as int == line && pinfo.position.col as int == col
}

/// Builds the provenance stamp for a record from a 1-based position.
pub fn mk_pinfo(line: usize, col: usize) -> (r: ParserInfo)
    ensures
        r.position.line == line,
        r.position.col == col,
{
    ParserInfo { position: FilePosition { line, col } }
}

} // verus!
