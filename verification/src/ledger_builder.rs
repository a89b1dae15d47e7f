//! The AST builder and the ledger aggregator.
//!
//! The builder turns nodes the producer recognized into typed
//! records, stamping each with its source position. Conversions are
//! defensive: a converter re-checks the text it was handed and fails
//! with a structural error — never a panic — where the text cannot be
//! converted, even where the grammar should have made that
//! unreachable. A decimal whose digits overflow the mantissa type is
//! the one conversion failure a matched document can reach.
//!
//! [`parse_ledger`] is the single public entry point for whole
//! documents: it runs the producer, then walks the nodes with the
//! builder, appending each record to a fresh [`ParsedLedger`] in
//! document order, and aborts on the first failure with no partial
//! result.

use vstd::prelude::*;

use crate::grammar;
use crate::ledger_parser;
use crate::ledger_parser::EntryNode;
use crate::ledger_parser::Fail;
use crate::parsed_ledger::EntryV;
use crate::parsed_ledger::LedgerEntry;
use crate::parsed_ledger::ParsedLedger;
use crate::raw_transaction::Annotation;
use crate::raw_transaction::Date;
use crate::raw_transaction::Directive;
use crate::raw_transaction::PostingV;
use crate::raw_transaction::RawPosting;
use crate::raw_transaction::RawTransaction;
use crate::raw_transaction::Decimal;
use crate::raw_transaction::RawAccountDescriptor;
use crate::raw_transaction::mk_pinfo;
use crate::types::FilePosition;
use crate::types::ParseError;
use crate::types::Rule;
use crate::types::StructuralError;
use crate::types::StructuralFault;
use crate::types::SyntaxError;

verus! {

/// Copies the bytes `s[a..b)` into an owned vector.
pub(crate) fn copy_range(s: &[u8], a: usize, b: usize) -> (r: Vec<u8>)
    requires
        a <= b <= s@.len(),
    ensures
        r@ == s@.subrange(a as int, b as int),
{
    vstd::slice::slice_to_vec(vstd::slice::slice_subrange(s, a, b))
}

/// The partial mantissa grows (weakly) as more digits are read, so a
/// partial overflow is a final overflow.
proof fn lemma_mantissa_monotone(s: Seq<u8>, p: int, d: int, a: int, b: int)
    requires
        forall|k: int| p <= k < d ==> grammar::is_digit(#[trigger] s[k]),
        forall|k: int| d + 1 <= k < b ==> grammar::is_digit(#[trigger] s[k]),
        d + 1 <= a <= b,
    ensures
        grammar::digits_val(s, p, d) * grammar::pow10(b - (d + 1)) + grammar::digits_val(
            s,
            d + 1,
            b,
        ) >= grammar::digits_val(s, p, d) * grammar::pow10(a - (d + 1)) + grammar::digits_val(
            s,
            d + 1,
            a,
        ),
    decreases b - a,
{
    if a < b {
        lemma_mantissa_monotone(s, p, d, a, b - 1);
        grammar::lemma_digits_val_nonneg(s, p, d);
        grammar::lemma_digits_val_nonneg(s, d + 1, b - 1);
        grammar::lemma_pow10_pos(b - 1 - (d + 1));
        let hi = grammar::digits_val(s, p, d);
        let lo = grammar::digits_val(s, d + 1, b - 1);
        let pw = grammar::pow10(b - 1 - (d + 1));
        assert(grammar::pow10(b - (d + 1)) == 10 * pw);
        assert(grammar::digits_val(s, d + 1, b) == lo * 10 + (s[b - 1] - 48));
        assert(grammar::is_digit(s[b - 1]));
        assert(hi * (10 * pw) + (lo * 10 + (s[b - 1] - 48)) >= hi * pw + lo) by (nonlinear_arith)
            requires
                hi >= 0,
                lo >= 0,
                pw >= 1,
                s[b - 1] >= 48,
        ;
    }
}

/// The integer part alone already bounds the mantissa from below.
proof fn lemma_mantissa_ge_int_part(s: Seq<u8>, p: int, d: int, k: int, f: int)
    requires
        forall|j: int| p <= j < d ==> grammar::is_digit(#[trigger] s[j]),
        forall|j: int| d + 1 <= j < f ==> grammar::is_digit(#[trigger] s[j]),
        p <= k <= d,
        d + 1 <= f,
    ensures
        grammar::digits_val(s, p, d) * grammar::pow10(f - (d + 1)) + grammar::digits_val(
            s,
            d + 1,
            f,
        ) >= grammar::digits_val(s, p, k),
{
    grammar::lemma_digits_val_split(s, p, k, d);
    grammar::lemma_digits_val_nonneg(s, p, k);
    grammar::lemma_digits_val_nonneg(s, k, d);
    grammar::lemma_digits_val_nonneg(s, d + 1, f);
    grammar::lemma_pow10_pos(d - k);
    grammar::lemma_pow10_pos(f - (d + 1));
    let a = grammar::digits_val(s, p, k);
    let rest = grammar::digits_val(s, k, d);
    let pw1 = grammar::pow10(d - k);
    let pw2 = grammar::pow10(f - (d + 1));
    assert((a * pw1 + rest) * pw2 >= a) by (nonlinear_arith)
        requires
            a >= 0,
            rest >= 0,
            pw1 >= 1,
            pw2 >= 1,
    ;
}

/// Converts the matched text of a `decimal_value` into an exact
/// [`Decimal`]. Defensive: the shape is re-checked, and digits that
/// overflow the mantissa type give a conversion fault, not a panic.
pub(crate) fn build_decimal(s: &[u8], i: usize, end: usize) -> (r: Result<Decimal, StructuralFault>)
    requires
        i <= s@.len(),
        s@.len() < usize::MAX,
    ensures
        grammar::decimal_value(s@, i as int) == Some(end as int) ==> match r {
            Ok(dec) => grammar::decimal_fits(s@, i as int) && dec@ == grammar::decimal_at(
                s@,
                i as int,
            ),
            Err(f) => f == StructuralFault::DecimalConversion && !grammar::decimal_fits(
                s@,
                i as int,
            ),
        },
{
    let ghost gi = i as int;
    let neg = i < s.len() && s[i] == grammar::MINUS;
    let p = if neg {
        i + 1
    } else {
        i
    };
    let d = ledger_parser::scan_digits(s, p);
    if !(p < d && d < s.len() && s[d] == grammar::DOT) {
        return Err(StructuralFault::DecimalConversion);
    }
    let f = ledger_parser::scan_digits(s, d + 1);
    if f == d + 1 {
        return Err(StructuralFault::DecimalConversion);
    }
    proof {
        grammar::lemma_run_end(s@, p as int, |b: u8| grammar::is_digit(b));
        grammar::lemma_run_end(s@, d + 1, |b: u8| grammar::is_digit(b));
        assert(forall|j: int| p <= j < d ==> grammar::is_digit(#[trigger] s@[j]));
        assert(forall|j: int| d + 1 <= j < f ==> grammar::is_digit(#[trigger] s@[j]));
    }
    let ghost mant = grammar::decimal_at(s@, gi).mantissa;
    let mut acc: u64 = 0;
    let mut k = p;
    while k < d
        invariant
            p <= k <= d <= s@.len(),
            s@.len() < usize::MAX,
            forall|j: int| p <= j < d ==> grammar::is_digit(#[trigger] s@[j]),
            forall|j: int| d + 1 <= j < f ==> grammar::is_digit(#[trigger] s@[j]),
            d + 1 < f <= s@.len(),
            acc == grammar::digits_val(s@, p as int, k as int),
            mant == grammar::decimal_at(s@, i as int).mantissa,
            mant == grammar::digits_val(s@, p as int, d as int) * grammar::pow10(f - (d + 1))
                + grammar::digits_val(s@, d + 1, f as int),
        decreases d - k,
    {
        let dd = s[k] - 48;
        if acc > (u64::MAX - dd as u64) / 10 {
            proof {
                assert(grammar::digits_val(s@, p as int, k + 1) == acc * 10 + dd);
                assert(acc * 10 + dd > u64::MAX) by (nonlinear_arith)
                    requires
                        acc > (u64::MAX - dd as u64) / 10,
                        0 <= dd < 10,
                ;
                lemma_mantissa_ge_int_part(s@, p as int, d as int, k + 1, f as int);
            }
            return Err(StructuralFault::DecimalConversion);
        }
        proof {
            assert(acc * 10 + dd <= u64::MAX) by (nonlinear_arith)
                requires
                    acc <= (u64::MAX - dd as u64) / 10,
                    0 <= dd < 10,
            ;
        }
        acc = acc * 10 + dd as u64;
        k = k + 1;
    }
    let ghost int_val = grammar::digits_val(s@, p as int, d as int);
    let mut scale: usize = 0;
    k = d + 1;
    proof {
        assert(grammar::pow10(0) == 1);
        assert(grammar::digits_val(s@, d + 1, d + 1) == 0);
        assert(int_val * 1 == int_val) by (nonlinear_arith);
    }
    while k < f
        invariant
            d + 1 <= k <= f <= s@.len(),
            s@.len() < usize::MAX,
            d < s@.len(),
            forall|j: int| p <= j < d ==> grammar::is_digit(#[trigger] s@[j]),
            forall|j: int| d + 1 <= j < f ==> grammar::is_digit(#[trigger] s@[j]),
            p <= d,
            scale == k - (d + 1),
            int_val == grammar::digits_val(s@, p as int, d as int),
            acc == int_val * grammar::pow10(scale as int) + grammar::digits_val(
                s@,
                d + 1,
                k as int,
            ),
            mant == grammar::decimal_at(s@, i as int).mantissa,
            mant == int_val * grammar::pow10(f - (d + 1)) + grammar::digits_val(s@, d + 1, f as int),
        decreases f - k,
    {
        let dd = s[k] - 48;
        proof {
            grammar::lemma_digits_val_nonneg(s@, p as int, d as int);
            grammar::lemma_digits_val_nonneg(s@, d + 1, k as int);
            grammar::lemma_pow10_pos(scale as int);
        }
        if acc > (u64::MAX - dd as u64) / 10 {
            proof {
                assert(acc * 10 + dd > u64::MAX) by (nonlinear_arith)
                    requires
                        acc > (u64::MAX - dd as u64) / 10,
                        0 <= dd < 10,
                ;
                assert(grammar::pow10(scale + 1) == 10 * grammar::pow10(scale as int));
                assert(grammar::digits_val(s@, d + 1, k + 1) == grammar::digits_val(
                    s@,
                    d + 1,
                    k as int,
                ) * 10 + dd);
                assert(int_val * grammar::pow10(scale + 1) + grammar::digits_val(s@, d + 1, k + 1)
                    == acc * 10 + dd) by (nonlinear_arith)
                    requires
                        acc == int_val * grammar::pow10(scale as int) + grammar::digits_val(
                            s@,
                            d + 1,
                            k as int,
                        ),
                        grammar::pow10(scale + 1) == 10 * grammar::pow10(scale as int),
                        grammar::digits_val(s@, d + 1, k + 1) == grammar::digits_val(
                            s@,
                            d + 1,
                            k as int,
                        ) * 10 + dd,
                ;
                lemma_mantissa_monotone(s@, p as int, d as int, k + 1, f as int);
            }
            return Err(StructuralFault::DecimalConversion);
        }
        proof {
            assert(acc * 10 + dd <= u64::MAX) by (nonlinear_arith)
                requires
                    acc <= (u64::MAX - dd as u64) / 10,
                    0 <= dd < 10,
            ;
            assert(grammar::pow10(scale + 1) == 10 * grammar::pow10(scale as int));
            assert(grammar::digits_val(s@, d + 1, k + 1) == grammar::digits_val(
                s@,
                d + 1,
                k as int,
            ) * 10 + dd);
            assert(int_val * grammar::pow10(scale + 1) + grammar::digits_val(s@, d + 1, k + 1)
                == acc * 10 + dd) by (nonlinear_arith)
                requires
                    acc == int_val * grammar::pow10(scale as int) + grammar::digits_val(
                        s@,
                        d + 1,
                        k as int,
                    ),
                    grammar::pow10(scale + 1) == 10 * grammar::pow10(scale as int),
                    grammar::digits_val(s@, d + 1, k + 1) == grammar::digits_val(
                        s@,
                        d + 1,
                        k as int,
                    ) * 10 + dd,
            ;
        }
        acc = acc * 10 + dd as u64;
        scale = scale + 1;
        k = k + 1;
    }
    Ok(Decimal { neg, mantissa: acc, scale })
}

/// Converts the matched text of a date rule into a [`Date`].
/// Defensive: digits and ranges are re-checked.
pub(crate) fn build_date(s: &[u8], i: usize) -> (r: Result<Date, StructuralFault>)
    requires
        i <= s@.len(),
        s@.len() < usize::MAX,
    ensures
        match r {
            Ok(dt) => grammar::iso8601_date_extended(s@, i as int) == Some(i + 10 as int) && dt@
                == grammar::date_at(s@, i as int),
            Err(_) => grammar::iso8601_date_extended(s@, i as int) is None,
        },
{
    if s.len() - i < 10 {
        return Err(StructuralFault::DateConversion);
    }
    if !(ledger_parser::byte_is_digit(s[i]) && ledger_parser::byte_is_digit(s[i + 1])
        && ledger_parser::byte_is_digit(s[i + 2]) && ledger_parser::byte_is_digit(s[i + 3]) && s[i
        + 4] == grammar::MINUS && ledger_parser::byte_is_digit(s[i + 5])
        && ledger_parser::byte_is_digit(s[i + 6]) && s[i + 7] == grammar::MINUS
        && ledger_parser::byte_is_digit(s[i + 8]) && ledger_parser::byte_is_digit(s[i + 9])) {
        return Err(StructuralFault::DateConversion);
    }
    let year: u16 = (s[i] - 48) as u16 * 1000 + (s[i + 1] - 48) as u16 * 100 + (s[i + 2] - 48)
        as u16 * 10 + (s[i + 3] - 48) as u16;
    let month: u8 = (s[i + 5] - 48) * 10 + (s[i + 6] - 48);
    let day: u8 = (s[i + 8] - 48) * 10 + (s[i + 9] - 48);
    proof {
        grammar::lemma_digits_val_4(s@, i as int);
        grammar::lemma_digits_val_2(s@, i + 5);
        grammar::lemma_digits_val_2(s@, i + 8);
    }
    if 1 <= year && 1 <= month && month <= 12 && 1 <= day && day <= 31 {
        Ok(Date { year, month, day })
    } else {
        Err(StructuralFault::DateConversion)
    }
}

/// Builds an account descriptor record from matched text: the
/// segments, each copied out, and the position of the first one.
/// Returns the record and the end of the match.
pub(crate) fn build_account(s: &[u8], i: usize) -> (r: Result<
    (RawAccountDescriptor, usize),
    StructuralFault,
>)
    requires
        i <= s@.len(),
        s@.len() < usize::MAX,
    ensures
        match r {
            Ok((a, e)) => grammar::acct_descriptor(s@, i as int) == Some(e as int) && i < e
                <= s@.len() && a@.path == grammar::acct_path_at(s@, i as int) && a@.line
                == grammar::line_of(s@, i as int) && a@.col == grammar::col_of(s@, i as int),
            Err(_) => grammar::acct_descriptor(s@, i as int) is None,
        },
{
    if !(i < s.len() && ledger_parser::byte_is_alpha(s[i])) {
        return Err(StructuralFault::NodeMismatch);
    }
    let e0 = ledger_parser::scan_alnum(s, i + 1);
    let mut path: Vec<Vec<u8>> = Vec::new();
    path.push(copy_range(s, i, e0));
    let mut cur = e0;
    proof {
        assert(path@.map_values(|seg: Vec<u8>| seg@) =~= seq![
            s@.subrange(i as int, e0 as int),
        ]);
        assert(grammar::acct_path_at(s@, i as int) == path@.map_values(|seg: Vec<u8>| seg@)
            + grammar::acct_tail_path(s@, cur as int));
    }
    while cur < s.len() && s[cur] == grammar::COLON && cur + 1 < s.len()
        && ledger_parser::byte_is_alnum(s[cur + 1])
        invariant
            i < e0 <= cur <= s@.len(),
            s@.len() < usize::MAX,
            grammar::acct_tail_end(s@, e0 as int) == grammar::acct_tail_end(s@, cur as int),
            grammar::acct_path_at(s@, i as int) == path@.map_values(|seg: Vec<u8>| seg@)
                + grammar::acct_tail_path(s@, cur as int),
        decreases s@.len() - cur,
    {
        let nxt = ledger_parser::scan_alnum(s, cur + 1);
        proof {
            grammar::lemma_run_end(s@, cur + 1, |b: u8| grammar::is_alnum(b));
            assert(nxt > cur + 1);
        }
        let ghost path0 = path@;
        path.push(copy_range(s, cur + 1, nxt));
        proof {
            assert(path@.map_values(|seg: Vec<u8>| seg@) =~= path0.map_values(
                |seg: Vec<u8>| seg@,
            ).push(s@.subrange(cur + 1, nxt as int)));
            assert(grammar::acct_tail_path(s@, cur as int) == seq![
                s@.subrange(cur + 1, nxt as int),
            ] + grammar::acct_tail_path(s@, nxt as int));
            assert(grammar::acct_path_at(s@, i as int) =~= path@.map_values(|seg: Vec<u8>| seg@)
                + grammar::acct_tail_path(s@, nxt as int));
        }
        cur = nxt;
    }
    proof {
        assert(grammar::acct_tail_path(s@, cur as int) =~= Seq::<Seq<u8>>::empty());
        assert(grammar::acct_path_at(s@, i as int) =~= path@.map_values(|seg: Vec<u8>| seg@));
    }
    let (line, col) = ledger_parser::line_col(s, i);
    Ok((RawAccountDescriptor { path, pinfo: mk_pinfo(line, col) }, cur))
}

/// Copies out the comment text of the line tail starting at `i`, if
/// the line carries one.
pub(crate) fn build_line_comment(s: &[u8], i: usize) -> (r: Option<Vec<u8>>)
    requires
        i <= s@.len(),
        s@.len() < usize::MAX,
    ensures
        match r {
            Some(v) => grammar::line_comment_at(s@, i as int) == Some(v@),
            None => grammar::line_comment_at(s@, i as int) is None,
        },
{
    let b = ledger_parser::scan_blanks(s, i);
    if b < s.len() && s[b] == grammar::SEMI {
        let c = ledger_parser::scan_comment_bytes(s, b + 1);
        Some(copy_range(s, b + 1, c))
    } else {
        None
    }
}

/// A structural error at a given offset.
pub(crate) fn s_err(s: &[u8], at: usize, fault: StructuralFault, rule: Rule) -> (r: StructuralError)
    requires
        at <= s@.len(),
        s@.len() < usize::MAX,
    ensures
        r.fault == fault,
        r.rule == rule,
        r.position.line == grammar::line_of(s@, at as int),
        r.position.col == grammar::col_of(s@, at as int),
{
    let (line, col) = ledger_parser::line_col(s, at);
    StructuralError { fault, rule, position: FilePosition { line, col } }
}

/// Builds a posting record from a matched `posting_basic`. Returns
/// the record and the end of the match; fails only where the amount
/// cannot be converted.
pub(crate) fn build_posting(s: &[u8], i: usize) -> (r: Result<(RawPosting, usize), StructuralError>)
    requires
        i <= s@.len(),
        s@.len() < usize::MAX,
    ensures
        grammar::posting_basic(s@, i as int) is Some ==> match r {
            Ok((p, e)) => grammar::posting_basic(s@, i as int) == Some(e as int) && p@
                == grammar::posting_at(s@, i as int) && grammar::decimal_fits(
                s@,
                grammar::posting_value_off(s@, i as int),
            ),
            Err(err) => err.fault == StructuralFault::DecimalConversion && !grammar::decimal_fits(
                s@,
                grammar::posting_value_off(s@, i as int),
            ) && err.position.line == grammar::line_of(
                s@,
                grammar::posting_value_off(s@, i as int),
            ) && err.position.col == grammar::col_of(
                s@,
                grammar::posting_value_off(s@, i as int),
            ),
        },
{
    let e1 = if s.len() - i >= 2 && s[i] == grammar::SP && s[i + 1] == grammar::SP {
        i + 2
    } else if i < s.len() && s[i] == grammar::TAB {
        i + 1
    } else {
        return Err(s_err(s, i, StructuralFault::NodeMismatch, Rule::PostingIndent));
    };
    let (acct, e2) = match build_account(s, e1) {
        Ok(ae) => ae,
        Err(_) => return Err(s_err(s, e1, StructuralFault::NodeMismatch, Rule::AcctDescriptor)),
    };
    let e3 = ledger_parser::scan_blanks(s, e2);
    if e3 == e2 {
        return Err(s_err(s, e2, StructuralFault::NodeMismatch, Rule::Whitespace));
    }
    let e4 = match ledger_parser::m_decimal_value(s, e3) {
        Ok(e) => e,
        Err(_) => return Err(s_err(s, e3, StructuralFault::NodeMismatch, Rule::DecimalValue)),
    };
    let value = match build_decimal(s, e3, e4) {
        Ok(v) => v,
        Err(f) => return Err(s_err(s, e3, f, Rule::DecimalValue)),
    };
    let e5 = match ledger_parser::m_comment_or_newline(s, e4) {
        Ok(e) => e,
        Err(_) => return Err(s_err(s, e4, StructuralFault::NodeMismatch, Rule::CommentOrNewline)),
    };
    let comment = build_line_comment(s, e4);
    let (line, col) = ledger_parser::line_col(s, i);
    Ok((RawPosting { acct, value, comment, pinfo: mk_pinfo(line, col) }, e5))
}

/// Builds a transaction record from a matched `transaction_block`:
/// the header fields, then every posting in document order. Fails
/// only where an amount cannot be converted.
pub(crate) fn build_transaction(s: &[u8], i: usize) -> (r: Result<RawTransaction, StructuralError>)
    requires
        i <= s@.len(),
        s@.len() < usize::MAX,
    ensures
        grammar::transaction_block(s@, i as int) is Some ==> match r {
            Ok(t) => t@ == grammar::transaction_at(s@, i as int) && grammar::transaction_fits(
                s@,
                i as int,
            ),
            Err(err) => err.fault == StructuralFault::DecimalConversion
                && !grammar::transaction_fits(s@, i as int) && err.position.line
                == grammar::line_of(
                s@,
                grammar::postings_overflow_at(s@, grammar::trans_header(s@, i as int)->Some_0),
            ) && err.position.col == grammar::col_of(
                s@,
                grammar::postings_overflow_at(s@, grammar::trans_header(s@, i as int)->Some_0),
            ),
        },
{
    let date = match build_date(s, i) {
        Ok(d) => d,
        Err(_) => return Err(
            s_err(s, i, StructuralFault::NodeMismatch, Rule::Iso8601DateExtended),
        ),
    };
    let e2 = ledger_parser::scan_blanks(s, i + 10);
    if e2 == i + 10 {
        return Err(s_err(s, e2, StructuralFault::NodeMismatch, Rule::Whitespace));
    }
    if !(e2 < s.len() && (s[e2] == grammar::BANG || s[e2] == grammar::STAR)) {
        return Err(s_err(s, e2, StructuralFault::NodeMismatch, Rule::TransAnnotation));
    }
    let anno = if s[e2] == grammar::BANG {
        Annotation::Pending
    } else {
        Annotation::Cleared
    };
    let e3 = e2 + 1;
    let e4 = ledger_parser::scan_blanks(s, e3);
    if e4 == e3 {
        return Err(s_err(s, e3, StructuralFault::NodeMismatch, Rule::Whitespace));
    }
    if !(e4 < s.len() && s[e4] == grammar::DQUOTE) {
        return Err(s_err(s, e4, StructuralFault::NodeMismatch, Rule::TransDescription));
    }
    let dq = ledger_parser::scan_description_bytes(s, e4 + 1);
    if !(dq < s.len() && s[dq] == grammar::DQUOTE) {
        return Err(s_err(s, dq, StructuralFault::NodeMismatch, Rule::TransDescription));
    }
    let desc = copy_range(s, e4 + 1, dq);
    let e5 = dq + 1;
    let comment = build_line_comment(s, e5);
    let hdr_end = match ledger_parser::m_comment_or_newline(s, e5) {
        Ok(e) => e,
        Err(_) => return Err(s_err(s, e5, StructuralFault::NodeMismatch, Rule::CommentOrNewline)),
    };
    let mut postings: Vec<RawPosting> = Vec::new();
    let mut cur = hdr_end;
    let mut done = false;
    proof {
        assert(postings@.map_values(|p: RawPosting| p@) =~= Seq::<PostingV>::empty());
        assert(grammar::postings_at(s@, hdr_end as int) =~= postings@.map_values(
            |p: RawPosting| p@,
        ) + grammar::postings_at(s@, cur as int));
    }
    while !done
        invariant
            cur <= s@.len(),
            s@.len() < usize::MAX,
            grammar::postings_at(s@, hdr_end as int) == postings@.map_values(|p: RawPosting| p@)
                + grammar::postings_at(s@, cur as int),
            grammar::postings_fit(s@, hdr_end as int) == grammar::postings_fit(s@, cur as int),
            grammar::postings_overflow_at(s@, hdr_end as int) == grammar::postings_overflow_at(
                s@,
                cur as int,
            ),
            grammar::transaction_block(s@, i as int) is Some ==> grammar::trans_header(
                s@,
                i as int,
            ) == Some(hdr_end as int),
            grammar::transaction_block(s@, i as int) is Some ==> grammar::transaction_fits(
                s@,
                i as int,
            ) == grammar::postings_fit(s@, hdr_end as int),
            done ==> grammar::posting_basic(s@, cur as int) is None,
        decreases s@.len() - cur + (if done {
            0int
        } else {
            1int
        }),
    {
        match ledger_parser::m_posting_basic(s, cur) {
            Ok(_) => {
                let (p, e) = match build_posting(s, cur) {
                    Ok(pe) => pe,
                    Err(err) => {
                        return Err(err);
                    },
                };
                let ghost p0 = postings@;
                let ghost pv = p@;
                postings.push(p);
                proof {
                    assert(postings@.map_values(|pp: RawPosting| pp@) =~= p0.map_values(
                        |pp: RawPosting| pp@,
                    ).push(pv));
                    assert(grammar::postings_at(s@, cur as int) == seq![
                        grammar::posting_at(s@, cur as int),
                    ] + grammar::postings_at(s@, e as int));
                    assert(grammar::postings_at(s@, hdr_end as int) =~= postings@.map_values(
                        |pp: RawPosting| pp@,
                    ) + grammar::postings_at(s@, e as int));
                }
                cur = e;
            },
            Err(_) => {
                done = true;
            },
        }
    }
    proof {
        assert(grammar::postings_at(s@, cur as int) =~= Seq::<PostingV>::empty());
        assert(grammar::postings_at(s@, hdr_end as int) =~= postings@.map_values(
            |p: RawPosting| p@,
        ));
    }
    let (line, col) = ledger_parser::line_col(s, i);
    Ok(RawTransaction { date, anno, desc, postings, comment, pinfo: mk_pinfo(line, col) })
}

/// Builds a directive record from a matched directive, dispatching
/// over the four directive rules in their ordered-choice order. Fails
/// only where the balance amount cannot be converted.
pub(crate) fn build_directive(s: &[u8], i: usize) -> (r: Result<Directive, StructuralError>)
    requires
        i <= s@.len(),
        s@.len() < usize::MAX,
    ensures
        grammar::directives(s@, i as int) is Some ==> match r {
            Ok(d) => d@ == grammar::directive_at(s@, i as int) && grammar::directive_fits(
                s@,
                i as int,
            ),
            Err(err) => err.fault == StructuralFault::DecimalConversion
                && !grammar::directive_fits(s@, i as int) && err.position.line == grammar::line_of(
                s@,
                grammar::balance_value_off(s@, i as int),
            ) && err.position.col == grammar::col_of(
                s@,
                grammar::balance_value_off(s@, i as int),
            ),
        },
{
    if let Ok(_) = ledger_parser::m_directive_open(s, i) {
        let date = match build_date(s, i) {
            Ok(d) => d,
            Err(_) => return Err(
                s_err(s, i, StructuralFault::NodeMismatch, Rule::Iso8601DateExtended),
            ),
        };
        let e2 = ledger_parser::scan_blanks(s, i + 10);
        let e3 = ledger_parser::scan_blanks(s, e2 + 4);
        let (account, _) = match build_account(s, e3) {
            Ok(ae) => ae,
            Err(_) => return Err(
                s_err(s, e3, StructuralFault::NodeMismatch, Rule::AcctDescriptor),
            ),
        };
        let (line, col) = ledger_parser::line_col(s, i);
        return Ok(Directive::Open { date, account, pinfo: mk_pinfo(line, col) });
    }
    if let Ok(_) = ledger_parser::m_directive_close(s, i) {
        let date = match build_date(s, i) {
            Ok(d) => d,
            Err(_) => return Err(
                s_err(s, i, StructuralFault::NodeMismatch, Rule::Iso8601DateExtended),
            ),
        };
        let e2 = ledger_parser::scan_blanks(s, i + 10);
        let e3 = ledger_parser::scan_blanks(s, e2 + 5);
        let (account, _) = match build_account(s, e3) {
            Ok(ae) => ae,
            Err(_) => return Err(
                s_err(s, e3, StructuralFault::NodeMismatch, Rule::AcctDescriptor),
            ),
        };
        let (line, col) = ledger_parser::line_col(s, i);
        return Ok(Directive::Close { date, account, pinfo: mk_pinfo(line, col) });
    }
    if let Ok(_) = ledger_parser::m_directive_commodity(s, i) {
        let date = match build_date(s, i) {
            Ok(d) => d,
            Err(_) => return Err(
                s_err(s, i, StructuralFault::NodeMismatch, Rule::Iso8601DateExtended),
            ),
        };
        let e2 = ledger_parser::scan_blanks(s, i + 10);
        let e3 = ledger_parser::scan_blanks(s, e2 + 9);
        if !(e3 < s.len() && ledger_parser::byte_is_alpha(s[e3])) {
            return Err(s_err(s, e3, StructuralFault::NodeMismatch, Rule::Currency));
        }
        let sym_end = ledger_parser::scan_alpha(s, e3 + 1);
        let symbol = copy_range(s, e3, sym_end);
        let (line, col) = ledger_parser::line_col(s, i);
        return Ok(Directive::Commodity { date, symbol, pinfo: mk_pinfo(line, col) });
    }
    match ledger_parser::m_balance_directive(s, i) {
        Ok(_) => {
            let date = match build_date(s, i) {
                Ok(d) => d,
                Err(_) => return Err(
                    s_err(s, i, StructuralFault::NodeMismatch, Rule::Iso8601DateExtended),
                ),
            };
            let e2 = ledger_parser::scan_blanks(s, i + 10);
            let e3 = ledger_parser::scan_blanks(s, e2 + 7);
            let (account, e4) = match build_account(s, e3) {
                Ok(ae) => ae,
                Err(_) => return Err(
                    s_err(s, e3, StructuralFault::NodeMismatch, Rule::AcctDescriptor),
                ),
            };
            let e5 = ledger_parser::scan_blanks(s, e4);
            let e6 = match ledger_parser::m_decimal_value(s, e5) {
                Ok(e) => e,
                Err(_) => return Err(
                    s_err(s, e5, StructuralFault::NodeMismatch, Rule::DecimalValue),
                ),
            };
            let amount = match build_decimal(s, e5, e6) {
                Ok(v) => v,
                Err(f) => return Err(s_err(s, e5, f, Rule::BalanceDirective)),
            };
            let e7 = ledger_parser::scan_blanks(s, e6);
            if !(e7 < s.len() && ledger_parser::byte_is_alpha(s[e7])) {
                return Err(s_err(s, e7, StructuralFault::NodeMismatch, Rule::Currency));
            }
            let cur_end = ledger_parser::scan_alpha(s, e7 + 1);
            let currency = copy_range(s, e7, cur_end);
            let (line, col) = ledger_parser::line_col(s, i);
            Ok(Directive::Balance { date, account, amount, currency, pinfo: mk_pinfo(line, col) })
        },
        Err(_) => Err(s_err(s, i, StructuralFault::NodeMismatch, Rule::Directives)),
    }
}

/// The rules the builder has a mapping for: the ignored structural
/// rules and the two record-building rules. A node carrying any other
/// rule identity signals a grammar/builder mismatch.
pub open spec fn builder_maps_rule(r: Rule) -> bool {
    match r {
        Rule::CommentOrNewline => true,
        Rule::EmptyLine => true,
        Rule::Whitespace => true,
        Rule::Comment => true,
        Rule::Eoi => true,
        Rule::Directives => true,
        Rule::TransactionBlock => true,
        _ => false,
    }
}

/// The builder's dispatch over a node's rule identity: structural
/// rules are ignored, a directive or transaction node becomes a
/// record, and a node whose rule has no mapping here — unreachable
/// with a correctly paired grammar and producer — is rejected with an
/// unmapped-rule structural error rather than silently dropped,
/// whatever the node holds.
pub(crate) fn build_entry(s: &[u8], n: &EntryNode) -> (r: Result<
    Option<LedgerEntry>,
    StructuralError,
>)
    requires
        n.start <= s@.len(),
        s@.len() < usize::MAX,
    ensures
        ledger_parser::node_wf(s@, *n) ==> match r {
            Ok(opt) => ledger_parser::node_fits(s@, *n) && match opt {
                Some(le) => ledger_parser::node_entries(s@, *n) == seq![le@],
                None => ledger_parser::node_entries(s@, *n) == Seq::<EntryV>::empty(),
            },
            Err(err) => err.fault == StructuralFault::DecimalConversion
                && !ledger_parser::node_fits(s@, *n) && err.position.line == grammar::line_of(
                s@,
                grammar::entry_overflow_at(s@, n.start as int),
            ) && err.position.col == grammar::col_of(
                s@,
                grammar::entry_overflow_at(s@, n.start as int),
            ),
        },
        !builder_maps_rule(n.rule) ==> r is Err && r->Err_0.fault
            == StructuralFault::UnmappedRule && r->Err_0.rule == n.rule,
{
    match n.rule {
        Rule::CommentOrNewline => Ok(None),
        Rule::EmptyLine => Ok(None),
        Rule::Whitespace => Ok(None),
        Rule::Comment => Ok(None),
        Rule::Eoi => Ok(None),
        Rule::Directives => match build_directive(s, n.start) {
            Ok(d) => {
                proof {
                    if ledger_parser::node_wf(s@, *n) {
                        assert(ledger_parser::node_entries(s@, *n) =~= seq![
                            EntryV::Directive(grammar::directive_at(s@, n.start as int)),
                        ]);
                    }
                }
                Ok(Some(LedgerEntry::Directive(d)))
            },
            Err(err) => Err(err),
        },
        Rule::TransactionBlock => match build_transaction(s, n.start) {
            Ok(t) => {
                proof {
                    if ledger_parser::node_wf(s@, *n) {
                        assert(ledger_parser::node_entries(s@, *n) =~= seq![
                            EntryV::Transaction(grammar::transaction_at(s@, n.start as int)),
                        ]);
                    }
                }
                Ok(Some(LedgerEntry::Transaction(t)))
            },
            Err(err) => Err(err),
        },
        _ => Err(s_err(s, n.start, StructuralFault::UnmappedRule, n.rule)),
    }
}

/// Renders a matcher failure as the error the caller receives,
/// untouched: the furthest position reached, as line and column, and
/// exactly the rules expected there.
pub(crate) fn to_syntax(s: &[u8], f: Fail) -> (r: SyntaxError)
    requires
        f.at <= s@.len(),
        s@.len() < usize::MAX,
    ensures
        r.position.line == grammar::line_of(s@, f@.at),
        r.position.col == grammar::col_of(s@, f@.at),
        r.expected@ == f@.expected,
{
    let (line, col) = ledger_parser::line_col(s, f.at);
    SyntaxError { position: FilePosition { line, col }, expected: f.expected }
}

/// Parses one whole ledger document.
///
/// On success the document matches the whole-document rule, every
/// amount in it fits the executable types, and the returned ledger
/// holds exactly the entries the grammar denotes, in document order.
/// A syntax error is returned exactly when the document does not
/// match; a structural error exactly when it matches but an amount
/// overflows. On any failure there is no partial ledger.
pub fn parse_ledger(s: &[u8]) -> (r: Result<ParsedLedger, ParseError>)
    requires
        s@.len() < usize::MAX,
    ensures
        match r {
            Ok(pl) => grammar::ledger(s@, 0) == Some(s@.len() as int) && grammar::ledger_fits(
                s@,
                0,
            ) && pl@ == grammar::ledger_entries(s@, 0),
            Err(ParseError::Syntax(e)) => grammar::ledger(s@, 0) is None && e.position.line
                == grammar::line_of(s@, ledger_parser::ledger_fail(s@, 0).at) && e.position.col
                == grammar::col_of(s@, ledger_parser::ledger_fail(s@, 0).at) && e.expected@
                == ledger_parser::ledger_fail(s@, 0).expected,
            Err(ParseError::Structure(e)) => grammar::ledger(s@, 0) == Some(s@.len() as int)
                && !grammar::ledger_fits(s@, 0) && e.fault == StructuralFault::DecimalConversion
                && e.position.line == grammar::line_of(s@, grammar::ledger_overflow_at(s@, 0))
                && e.position.col == grammar::col_of(s@, grammar::ledger_overflow_at(s@, 0)),
        },
{
    let nodes = match ledger_parser::produce(s) {
        Ok(ns) => ns,
        Err(f) => return Err(ParseError::Syntax(to_syntax(s, f))),
    };
    let ghost nsv = nodes@;
    let mut pl = ParsedLedger::new();
    let mut k: usize = 0;
    proof {
        assert(nsv.skip(0) =~= nsv);
        assert(pl@ + ledger_parser::nodes_entries(s@, nsv.skip(0)) =~= ledger_parser::nodes_entries(
            s@,
            nsv,
        ));
    }
    while k < nodes.len()
        invariant
            k <= nsv.len(),
            nodes@ == nsv,
            s@.len() < usize::MAX,
            forall|j: int| 0 <= j < nsv.len() ==> ledger_parser::node_wf(s@, #[trigger] nsv[j]),
            forall|j: int|
                0 <= j < nsv.len() ==> #[trigger] nsv[j].start < nsv[j].end <= s@.len(),
            grammar::ledger(s@, 0) == Some(s@.len() as int),
            grammar::ledger_entries(s@, 0) == ledger_parser::nodes_entries(s@, nsv),
            grammar::ledger_fits(s@, 0) <==> ledger_parser::nodes_fit(s@, nsv),
            !grammar::ledger_fits(s@, 0) ==> grammar::ledger_overflow_at(s@, 0)
                == ledger_parser::nodes_overflow_at(s@, nsv),
            ledger_parser::nodes_entries(s@, nsv) == pl@ + ledger_parser::nodes_entries(
                s@,
                nsv.skip(k as int),
            ),
            forall|j: int| 0 <= j < k ==> ledger_parser::node_fits(s@, #[trigger] nsv[j]),
        decreases nsv.len() - k,
    {
        let n = nodes[k];
        proof {
            ledger_parser::lemma_nodes_entries_skip(s@, nsv, k as int);
        }
        match build_entry(s, &n) {
            Ok(Some(le)) => {
                let ghost lev = le@;
                match le {
                    LedgerEntry::Transaction(t) => pl.add_transaction(t),
                    LedgerEntry::Directive(d) => pl.add_directive(d),
                }
                proof {
                    assert(pl@ + ledger_parser::nodes_entries(s@, nsv.skip(k + 1))
                        =~= ledger_parser::nodes_entries(s@, nsv));
                }
            },
            Ok(None) => {
                proof {
                    assert(pl@ + ledger_parser::nodes_entries(s@, nsv.skip(k + 1))
                        =~= ledger_parser::nodes_entries(s@, nsv));
                }
            },
            Err(err) => {
                proof {
                    assert(!ledger_parser::node_fits(s@, nsv[k as int]));
                    assert(!ledger_parser::nodes_fit(s@, nsv));
                    ledger_parser::lemma_nodes_overflow_skip(s@, nsv, k as int);
                    assert(nsv.skip(k as int)[0] == nsv[k as int]);
                    assert(ledger_parser::nodes_overflow_at(s@, nsv)
                        == grammar::entry_overflow_at(s@, nsv[k as int].start as int));
                }
                return Err(ParseError::Structure(err));
            },
        }
        k = k + 1;
    }
    proof {
        assert(nsv.skip(k as int) =~= Seq::<EntryNode>::empty());
        assert(ledger_parser::nodes_entries(s@, nsv.skip(k as int)) =~= Seq::<EntryV>::empty());
        assert(pl@ =~= ledger_parser::nodes_entries(s@, nsv));
        assert(ledger_parser::nodes_fit(s@, nsv));
    }
    Ok(pl)
}

/// Drives a parse over a document held in memory and hands the
/// resulting ledger to the caller.
pub struct LedgerBuilder {}

impl LedgerBuilder {
    /// Parses a whole document: the entry point the rest of the
    /// system (command line, file loaders) depends on. Equivalent to
    /// [`parse_ledger`].
    pub fn from_string(&self, ledger: &[u8]) -> (r: Result<ParsedLedger, ParseError>)
        requires
            ledger@.len() < usize::MAX,
        ensures
            match r {
                Ok(pl) => grammar::ledger(ledger@, 0) == Some(ledger@.len() as int)
                    && grammar::ledger_fits(ledger@, 0) && pl@ == grammar::ledger_entries(
                    ledger@,
                    0,
                ),
                Err(ParseError::Syntax(e)) => grammar::ledger(ledger@, 0) is None
                    && e.position.line == grammar::line_of(
                    ledger@,
                    ledger_parser::ledger_fail(ledger@, 0).at,
                ) && e.position.col == grammar::col_of(
                    ledger@,
                    ledger_parser::ledger_fail(ledger@, 0).at,
                ) && e.expected@ == ledger_parser::ledger_fail(ledger@, 0).expected,
                Err(ParseError::Structure(e)) => grammar::ledger(ledger@, 0) == Some(
                    ledger@.len() as int,
                ) && !grammar::ledger_fits(ledger@, 0) && e.fault
                    == StructuralFault::DecimalConversion && e.position.line == grammar::line_of(
                    ledger@,
                    grammar::ledger_overflow_at(ledger@, 0),
                ) && e.position.col == grammar::col_of(
                    ledger@,
                    grammar::ledger_overflow_at(ledger@, 0),
                ),
            },
    {
        parse_ledger(ledger)
    }
}

impl Default for LedgerBuilder {
    /// A fresh builder.
    fn default() -> (r: LedgerBuilder)
        ensures
            r == (LedgerBuilder {  }),
    {
        LedgerBuilder {  }
    }
}

} // verus!
