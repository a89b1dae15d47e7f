//! The parse-tree producer: matchers that apply the grammar rules to
//! an input buffer.
//!
//! Each matcher takes the input and a start offset and either returns
//! the end offset of the match — exactly the offset the corresponding
//! grammar rule denotes — or a [`Fail`] with the furthest offset
//! reached and the rules expected there. A matcher is complete: it
//! fails only where its rule does not match.

use vstd::prelude::*;

use crate::grammar;
use crate::parsed_ledger::EntryV;
use crate::raw_transaction::Annotation;
use crate::raw_transaction::Date;
use crate::raw_transaction::Decimal;
use crate::raw_transaction::Directive;
use crate::raw_transaction::RawAccountDescriptor;
use crate::raw_transaction::RawPosting;
use crate::raw_transaction::RawTransaction;
use crate::raw_transaction::mk_pinfo;
use crate::types::ParseError;
use crate::types::Rule;

verus! {

/// A failed match: the furthest offset the matchers reached and the
/// rule identities that were expected there.
pub struct Fail {
    pub at: usize,
    pub expected: Vec<Rule>,
}

/// Specification view of a [`Fail`].
pub ghost struct FailV {
    pub at: int,
    pub expected: Seq<Rule>,
}

impl View for Fail {
    type V = FailV;

    open spec fn view(&self) -> FailV {
        FailV { at: self.at as int, expected: self.expected@ }
    }
}

/// A failure at one offset expecting one rule.
pub open spec fn fail1(at: int, expected: Rule) -> FailV {
    FailV { at, expected: seq![expected] }
}

/// How ordered choice combines two failures: the one that got
/// furthest wins; at a tie the expectations of both are reported.
pub open spec fn merge_failv(a: FailV, b: FailV) -> FailV {
    if b.at > a.at {
        b
    } else if a.at > b.at {
        a
    } else {
        FailV { at: a.at, expected: a.expected + b.expected }
    }
}

/// A failure at one offset expecting one rule.
fn fail_at(at: usize, expected: Rule) -> (r: Fail)
    ensures
        r@ == fail1(at as int, expected),
{
    let mut v: Vec<Rule> = Vec::new();
    v.push(expected);
    proof {
        assert(v@ =~= seq![expected]);
    }
    Fail { at, expected: v }
}

/// Ordered choice keeps the failure that got furthest; at a tie the
/// expectations of both alternatives are reported.
fn merge_fail(a: Fail, b: Fail) -> (r: Fail)
    ensures
        r@ == merge_failv(a@, b@),
{
    if b.at > a.at {
        b
    } else if a.at > b.at {
        a
    } else {
        let ghost a0 = a@;
        let mut a = a;
        let mut k: usize = 0;
        let n = b.expected.len();
        while k < n
            invariant
                k <= n,
                n == b.expected.len(),
                a.at == a0.at,
                a.expected@ == a0.expected + b.expected@.take(k as int),
            decreases n - k,
        {
            a.expected.push(b.expected[k]);
            proof {
                assert(a.expected@ =~= a0.expected + b.expected@.take(k + 1));
            }
            k = k + 1;
        }
        proof {
            assert(b.expected@.take(n as int) =~= b.expected@);
        }
        a
    }
}

// ---------------------------------------------------------------
// Failure semantics of the matchers
// ---------------------------------------------------------------
//
// For every rule whose matcher can fail, the offset it reports — the
// furthest position its sub-matchers reached — and the rules it
// expected there, as a pure function of the input. Meaningful only
// where the rule does not match.

pub open spec fn ws_plus_fail(s: Seq<u8>, i: int) -> FailV {
    fail1(i, Rule::Whitespace)
}

pub open spec fn decimal_value_fail(s: Seq<u8>, i: int) -> FailV {
    let p = if i < s.len() && s[i] == grammar::MINUS {
        i + 1
    } else {
        i
    };
    let d = grammar::digit_run_end(s, p);
    if d == p {
        fail1(p, Rule::DecimalValue)
    } else if !(d < s.len() && s[d] == grammar::DOT) {
        fail1(d, Rule::DecimalValue)
    } else {
        fail1(d + 1, Rule::DecimalValue)
    }
}

pub open spec fn iso8601_date_extended_fail(s: Seq<u8>, i: int) -> FailV {
    fail1(i, Rule::Iso8601DateExtended)
}

pub open spec fn acct_descriptor_fail(s: Seq<u8>, i: int) -> FailV {
    fail1(i, Rule::AcctDescriptor)
}

pub open spec fn currency_fail(s: Seq<u8>, i: int) -> FailV {
    fail1(i, Rule::Currency)
}

pub open spec fn comment_or_newline_fail(s: Seq<u8>, i: int) -> FailV {
    let b = grammar::blank_run_end(s, i);
    let c = if b < s.len() && s[b] == grammar::SEMI {
        grammar::comment_run_end(s, b + 1)
    } else {
        b
    };
    fail1(c, Rule::CommentOrNewline)
}

pub open spec fn empty_line_fail(s: Seq<u8>, i: int) -> FailV {
    fail1(grammar::blank_run_end(s, i), Rule::EmptyLine)
}

pub open spec fn trans_annotation_fail(s: Seq<u8>, i: int) -> FailV {
    fail1(i, Rule::TransAnnotation)
}

pub open spec fn trans_description_fail(s: Seq<u8>, i: int) -> FailV {
    if i < s.len() && s[i] == grammar::DQUOTE {
        fail1(grammar::description_run_end(s, i + 1), Rule::TransDescription)
    } else {
        fail1(i, Rule::TransDescription)
    }
}

pub open spec fn trans_header_fail(s: Seq<u8>, i: int) -> FailV {
    match grammar::iso8601_date_extended(s, i) {
        None => iso8601_date_extended_fail(s, i),
        Some(e1) => match grammar::ws_plus(s, e1) {
            None => ws_plus_fail(s, e1),
            Some(e2) => match grammar::trans_annotation(s, e2) {
                None => trans_annotation_fail(s, e2),
                Some(e3) => match grammar::ws_plus(s, e3) {
                    None => ws_plus_fail(s, e3),
                    Some(e4) => match grammar::trans_description(s, e4) {
                        None => trans_description_fail(s, e4),
                        Some(e5) => comment_or_newline_fail(s, e5),
                    },
                },
            },
        },
    }
}

pub open spec fn posting_basic_fail(s: Seq<u8>, i: int) -> FailV {
    match grammar::posting_indent(s, i) {
        None => fail1(i, Rule::PostingIndent),
        Some(e1) => match grammar::acct_descriptor(s, e1) {
            None => acct_descriptor_fail(s, e1),
            Some(e2) => match grammar::ws_plus(s, e2) {
                None => ws_plus_fail(s, e2),
                Some(e3) => match grammar::decimal_value(s, e3) {
                    None => decimal_value_fail(s, e3),
                    Some(e4) => comment_or_newline_fail(s, e4),
                },
            },
        },
    }
}

pub open spec fn transaction_block_fail(s: Seq<u8>, i: int) -> FailV {
    match grammar::trans_header(s, i) {
        None => trans_header_fail(s, i),
        Some(h) => posting_basic_fail(s, h),
    }
}

pub open spec fn directive_open_fail(s: Seq<u8>, i: int) -> FailV {
    match grammar::iso8601_date_extended(s, i) {
        None => iso8601_date_extended_fail(s, i),
        Some(e1) => match grammar::ws_plus(s, e1) {
            None => ws_plus_fail(s, e1),
            Some(e2) => if !grammar::kw_open_at(s, e2) {
                fail1(e2, Rule::DirectiveOpen)
            } else {
                match grammar::ws_plus(s, e2 + 4) {
                    None => ws_plus_fail(s, e2 + 4),
                    Some(e3) => match grammar::acct_descriptor(s, e3) {
                        None => acct_descriptor_fail(s, e3),
                        Some(e4) => comment_or_newline_fail(s, e4),
                    },
                }
            },
        },
    }
}

pub open spec fn directive_close_fail(s: Seq<u8>, i: int) -> FailV {
    match grammar::iso8601_date_extended(s, i) {
        None => iso8601_date_extended_fail(s, i),
        Some(e1) => match grammar::ws_plus(s, e1) {
            None => ws_plus_fail(s, e1),
            Some(e2) => if !grammar::kw_close_at(s, e2) {
                fail1(e2, Rule::DirectiveClose)
            } else {
                match grammar::ws_plus(s, e2 + 5) {
                    None => ws_plus_fail(s, e2 + 5),
                    Some(e3) => match grammar::acct_descriptor(s, e3) {
                        None => acct_descriptor_fail(s, e3),
                        Some(e4) => comment_or_newline_fail(s, e4),
                    },
                }
            },
        },
    }
}

pub open spec fn directive_commodity_fail(s: Seq<u8>, i: int) -> FailV {
    match grammar::iso8601_date_extended(s, i) {
        None => iso8601_date_extended_fail(s, i),
        Some(e1) => match grammar::ws_plus(s, e1) {
            None => ws_plus_fail(s, e1),
            Some(e2) => if !grammar::kw_commodity_at(s, e2) {
                fail1(e2, Rule::DirectiveCommodity)
            } else {
                match grammar::ws_plus(s, e2 + 9) {
                    None => ws_plus_fail(s, e2 + 9),
                    Some(e3) => match grammar::currency(s, e3) {
                        None => currency_fail(s, e3),
                        Some(e4) => comment_or_newline_fail(s, e4),
                    },
                }
            },
        },
    }
}

pub open spec fn balance_directive_fail(s: Seq<u8>, i: int) -> FailV {
    match grammar::iso8601_date_extended(s, i) {
        None => iso8601_date_extended_fail(s, i),
        Some(e1) => match grammar::ws_plus(s, e1) {
            None => ws_plus_fail(s, e1),
            Some(e2) => if !grammar::kw_balance_at(s, e2) {
                fail1(e2, Rule::BalanceDirective)
            } else {
                match grammar::ws_plus(s, e2 + 7) {
                    None => ws_plus_fail(s, e2 + 7),
                    Some(e3) => match grammar::acct_descriptor(s, e3) {
                        None => acct_descriptor_fail(s, e3),
                        Some(e4) => match grammar::ws_plus(s, e4) {
                            None => ws_plus_fail(s, e4),
                            Some(e5) => match grammar::decimal_value(s, e5) {
                                None => decimal_value_fail(s, e5),
                                Some(e6) => match grammar::ws_plus(s, e6) {
                                    None => ws_plus_fail(s, e6),
                                    Some(e7) => match grammar::currency(s, e7) {
                                        None => currency_fail(s, e7),
                                        Some(e8) => comment_or_newline_fail(s, e8),
                                    },
                                },
                            },
                        },
                    },
                }
            },
        },
    }
}

pub open spec fn directives_fail(s: Seq<u8>, i: int) -> FailV {
    merge_failv(
        merge_failv(
            merge_failv(directive_open_fail(s, i), directive_close_fail(s, i)),
            directive_commodity_fail(s, i),
        ),
        balance_directive_fail(s, i),
    )
}

/// The failure the whole-document ordered choice reports at one
/// offset: the alternatives' failures merged, furthest first.
pub open spec fn ledger_step_fail(s: Seq<u8>, i: int) -> FailV {
    merge_failv(
        merge_failv(
            merge_failv(comment_or_newline_fail(s, i), empty_line_fail(s, i)),
            directives_fail(s, i),
        ),
        transaction_block_fail(s, i),
    )
}

/// The failure a whole-input parse of one rule reports: the rule's
/// own failure where it does not match at all, or an
/// expected-end-of-input failure where it matches a strict prefix.
pub open spec fn whole_input_fail(m: Option<int>, fail: FailV) -> FailV {
    match m {
        None => fail,
        Some(e) => fail1(e, Rule::Eoi),
    }
}

/// The failure of the whole-document rule: the failure of the first
/// entry that no alternative matches. Meaningful only where the
/// document does not match.
pub open spec fn ledger_fail(s: Seq<u8>, i: int) -> FailV
    decreases s.len() - i,
{
    if i >= s.len() {
        fail1(i, Rule::Eoi)
    } else {
        match grammar::ledger_step(s, i) {
            Some(e) => if i < e && e <= s.len() {
                ledger_fail(s, e)
            } else {
                fail1(i, Rule::Ledger)
            },
            None => ledger_step_fail(s, i),
        }
    }
}

// ---------------------------------------------------------------
// Scanners: greedy character-class runs
// ---------------------------------------------------------------

/// Executable mirror of [`grammar::is_digit`].
pub fn byte_is_digit(b: u8) -> (r: bool)
    ensures
        r == grammar::is_digit(b),
{
    48 <= b && b <= 57
}

/// Executable mirror of [`grammar::is_alpha`].
pub fn byte_is_alpha(b: u8) -> (r: bool)
    ensures
        r == grammar::is_alpha(b),
{
    (97 <= b && b <= 122) || (65 <= b && b <= 90)
}

/// Executable mirror of [`grammar::is_alnum`].
pub fn byte_is_alnum(b: u8) -> (r: bool)
    ensures
        r == grammar::is_alnum(b),
{
    byte_is_digit(b) || byte_is_alpha(b)
}

/// Executable mirror of [`grammar::is_blank`].
pub fn byte_is_blank(b: u8) -> (r: bool)
    ensures
        r == grammar::is_blank(b),
{
    b == grammar::SP || b == grammar::TAB
}

pub(crate) fn scan_digits(s: &[u8], i: usize) -> (r: usize)
    requires
        i <= s@.len(),
    ensures
        r == grammar::digit_run_end(s@, i as int),
        i <= r <= s@.len(),
{
    let mut j = i;
    while j < s.len() && byte_is_digit(s[j])
        invariant
            i <= j <= s@.len(),
            forall|k: int| i <= k < j ==> grammar::is_digit(s@[k]),
        decreases s@.len() - j,
    {
        j = j + 1;
    }
    proof {
        grammar::lemma_run_end_is(s@, i as int, j as int, |b: u8| grammar::is_digit(b));
    }
    j
}

pub(crate) fn scan_alnum(s: &[u8], i: usize) -> (r: usize)
    requires
        i <= s@.len(),
    ensures
        r == grammar::alnum_run_end(s@, i as int),
        i <= r <= s@.len(),
{
    let mut j = i;
    while j < s.len() && byte_is_alnum(s[j])
        invariant
            i <= j <= s@.len(),
            forall|k: int| i <= k < j ==> grammar::is_alnum(s@[k]),
        decreases s@.len() - j,
    {
        j = j + 1;
    }
    proof {
        grammar::lemma_run_end_is(s@, i as int, j as int, |b: u8| grammar::is_alnum(b));
    }
    j
}

pub(crate) fn scan_alpha(s: &[u8], i: usize) -> (r: usize)
    requires
        i <= s@.len(),
    ensures
        r == grammar::alpha_run_end(s@, i as int),
        i <= r <= s@.len(),
{
    let mut j = i;
    while j < s.len() && byte_is_alpha(s[j])
        invariant
            i <= j <= s@.len(),
            forall|k: int| i <= k < j ==> grammar::is_alpha(s@[k]),
        decreases s@.len() - j,
    {
        j = j + 1;
    }
    proof {
        grammar::lemma_run_end_is(s@, i as int, j as int, |b: u8| grammar::is_alpha(b));
    }
    j
}

pub(crate) fn scan_blanks(s: &[u8], i: usize) -> (r: usize)
    requires
        i <= s@.len(),
    ensures
        r == grammar::blank_run_end(s@, i as int),
        i <= r <= s@.len(),
{
    let mut j = i;
    while j < s.len() && byte_is_blank(s[j])
        invariant
            i <= j <= s@.len(),
            forall|k: int| i <= k < j ==> grammar::is_blank(s@[k]),
        decreases s@.len() - j,
    {
        j = j + 1;
    }
    proof {
        grammar::lemma_run_end_is(s@, i as int, j as int, |b: u8| grammar::is_blank(b));
    }
    j
}

pub(crate) fn scan_comment_bytes(s: &[u8], i: usize) -> (r: usize)
    requires
        i <= s@.len(),
    ensures
        r == grammar::comment_run_end(s@, i as int),
        i <= r <= s@.len(),
{
    let mut j = i;
    while j < s.len() && s[j] != grammar::NL
        invariant
            i <= j <= s@.len(),
            forall|k: int| i <= k < j ==> grammar::is_comment_byte(s@[k]),
        decreases s@.len() - j,
    {
        j = j + 1;
    }
    proof {
        grammar::lemma_run_end_is(s@, i as int, j as int, |b: u8| grammar::is_comment_byte(b));
    }
    j
}

pub(crate) fn scan_description_bytes(s: &[u8], i: usize) -> (r: usize)
    requires
        i <= s@.len(),
    ensures
        r == grammar::description_run_end(s@, i as int),
        i <= r <= s@.len(),
{
    let mut j = i;
    while j < s.len() && s[j] != grammar::DQUOTE && s[j] != grammar::NL
        invariant
            i <= j <= s@.len(),
            forall|k: int| i <= k < j ==> grammar::is_description_byte(s@[k]),
        decreases s@.len() - j,
    {
        j = j + 1;
    }
    proof {
        grammar::lemma_run_end_is(s@, i as int, j as int, |b: u8| grammar::is_description_byte(b));
    }
    j
}

// ---------------------------------------------------------------
// Source positions
// ---------------------------------------------------------------

/// Derives the 1-based line and column of offset `i`.
pub fn line_col(s: &[u8], i: usize) -> (r: (usize, usize))
    requires
        i <= s@.len(),
        s@.len() < usize::MAX,
    ensures
        r.0 == grammar::line_of(s@, i as int),
        r.1 == grammar::col_of(s@, i as int),
{
    let mut line: usize = 1;
    let mut col: usize = 1;
    let mut j: usize = 0;
    while j < i
        invariant
            j <= i <= s@.len(),
            s@.len() < usize::MAX,
            line == grammar::line_of(s@, j as int),
            col == grammar::col_of(s@, j as int),
            line <= j + 1,
            col <= j + 1,
        decreases i - j,
    {
        if s[j] == grammar::NL {
            line = line + 1;
            col = 1;
        } else {
            col = col + 1;
        }
        j = j + 1;
    }
    (line, col)
}

// ---------------------------------------------------------------
// Rule matchers
// ---------------------------------------------------------------
//
// Each matcher returns the end offset its grammar rule denotes, and
// fails exactly where the rule does not match.

pub(crate) fn m_ws_plus(s: &[u8], i: usize) -> (r: Result<usize, Fail>)
    requires
        i <= s@.len(),
        s@.len() < usize::MAX,
    ensures
        match r {
            Ok(e) => grammar::ws_plus(s@, i as int) == Some(e as int) && i < e <= s@.len(),
            Err(f) => grammar::ws_plus(s@, i as int) is None && f@ == ws_plus_fail(s@, i as int)
                && f.at <= s@.len(),
        },
{
    let e = scan_blanks(s, i);
    if e > i {
        Ok(e)
    } else {
        Err(fail_at(i, Rule::Whitespace))
    }
}

pub(crate) fn m_decimal_value(s: &[u8], i: usize) -> (r: Result<usize, Fail>)
    requires
        i <= s@.len(),
        s@.len() < usize::MAX,
    ensures
        match r {
            Ok(e) => grammar::decimal_value(s@, i as int) == Some(e as int) && i < e <= s@.len(),
            Err(f) => grammar::decimal_value(s@, i as int) is None && f@ == decimal_value_fail(
                s@,
                i as int,
            ) && f.at <= s@.len(),
        },
{
    let p = if i < s.len() && s[i] == grammar::MINUS {
        i + 1
    } else {
        i
    };
    let d = scan_digits(s, p);
    if d == p {
        return Err(fail_at(p, Rule::DecimalValue));
    }
    if !(d < s.len() && s[d] == grammar::DOT) {
        return Err(fail_at(d, Rule::DecimalValue));
    }
    let f = scan_digits(s, d + 1);
    if f == d + 1 {
        return Err(fail_at(f, Rule::DecimalValue));
    }
    Ok(f)
}

pub(crate) fn m_date(s: &[u8], i: usize) -> (r: Result<usize, Fail>)
    requires
        i <= s@.len(),
        s@.len() < usize::MAX,
    ensures
        match r {
            Ok(e) => grammar::iso8601_date_extended(s@, i as int) == Some(e as int) && e == i + 10
                && e <= s@.len(),
            Err(f) => grammar::iso8601_date_extended(s@, i as int) is None && f@
                == iso8601_date_extended_fail(s@, i as int) && f.at <= s@.len(),
        },
{
    if s.len() - i < 10 {
        return Err(fail_at(i, Rule::Iso8601DateExtended));
    }
    if !(byte_is_digit(s[i]) && byte_is_digit(s[i + 1]) && byte_is_digit(s[i + 2]) && byte_is_digit(
        s[i + 3],
    ) && s[i + 4] == grammar::MINUS && byte_is_digit(s[i + 5]) && byte_is_digit(s[i + 6]) && s[i
        + 7] == grammar::MINUS && byte_is_digit(s[i + 8]) && byte_is_digit(s[i + 9])) {
        return Err(fail_at(i, Rule::Iso8601DateExtended));
    }
    let year: u16 = (s[i] - 48) as u16 * 1000 + (s[i + 1] - 48) as u16 * 100 + (s[i + 2] - 48)
        as u16 * 10 + (s[i + 3] - 48) as u16;
    let month: u8 = (s[i + 5] - 48) * 10 + (s[i + 6] - 48);
    let day: u8 = (s[i + 8] - 48) * 10 + (s[i + 9] - 48);
    proof {
        grammar::lemma_digits_val_4(s@, i as int);
        grammar::lemma_digits_val_2(s@, i + 5);
        grammar::lemma_digits_val_2(s@, i + 8);
    }
    if 1 <= year && 1 <= month && month <= 12 && 1 <= day && day <= 31 {
        Ok(i + 10)
    } else {
        Err(fail_at(i, Rule::Iso8601DateExtended))
    }
}

pub(crate) fn m_acct_descriptor(s: &[u8], i: usize) -> (r: Result<usize, Fail>)
    requires
        i <= s@.len(),
        s@.len() < usize::MAX,
    ensures
        match r {
            Ok(e) => grammar::acct_descriptor(s@, i as int) == Some(e as int) && i < e <= s@.len(),
            Err(f) => grammar::acct_descriptor(s@, i as int) is None && f@ == acct_descriptor_fail(
                s@,
                i as int,
            ) && f.at <= s@.len(),
        },
{
    if !(i < s.len() && byte_is_alpha(s[i])) {
        return Err(fail_at(i, Rule::AcctDescriptor));
    }
    let e0 = scan_alnum(s, i + 1);
    let mut cur = e0;
    while cur < s.len() && s[cur] == grammar::COLON && cur + 1 < s.len() && byte_is_alnum(
        s[cur + 1],
    )
        invariant
            i < e0 <= cur <= s@.len(),
            s@.len() < usize::MAX,
            grammar::acct_tail_end(s@, e0 as int) == grammar::acct_tail_end(s@, cur as int),
        decreases s@.len() - cur,
    {
        let nxt = scan_alnum(s, cur + 1);
        proof {
            grammar::lemma_run_end(s@, cur + 1, |b: u8| grammar::is_alnum(b));
            assert(nxt > cur + 1);
        }
        cur = nxt;
    }
    Ok(cur)
}

pub(crate) fn m_currency(s: &[u8], i: usize) -> (r: Result<usize, Fail>)
    requires
        i <= s@.len(),
        s@.len() < usize::MAX,
    ensures
        match r {
            Ok(e) => grammar::currency(s@, i as int) == Some(e as int) && i < e <= s@.len(),
            Err(f) => grammar::currency(s@, i as int) is None && f@ == currency_fail(s@, i as int)
                && f.at <= s@.len(),
        },
{
    if i < s.len() && byte_is_alpha(s[i]) {
        Ok(scan_alpha(s, i + 1))
    } else {
        Err(fail_at(i, Rule::Currency))
    }
}

pub(crate) fn m_comment_or_newline(s: &[u8], i: usize) -> (r: Result<usize, Fail>)
    requires
        i <= s@.len(),
        s@.len() < usize::MAX,
    ensures
        match r {
            Ok(e) => grammar::comment_or_newline(s@, i as int) == Some(e as int) && i <= e
                <= s@.len() && (i < s@.len() ==> i < e),
            Err(f) => grammar::comment_or_newline(s@, i as int) is None && f@
                == comment_or_newline_fail(s@, i as int) && f.at <= s@.len(),
        },
{
    let b = scan_blanks(s, i);
    let c = if b < s.len() && s[b] == grammar::SEMI {
        scan_comment_bytes(s, b + 1)
    } else {
        b
    };
    if c == s.len() {
        Ok(c)
    } else if s[c] == grammar::NL {
        Ok(c + 1)
    } else {
        Err(fail_at(c, Rule::CommentOrNewline))
    }
}

pub(crate) fn m_empty_line(s: &[u8], i: usize) -> (r: Result<usize, Fail>)
    requires
        i <= s@.len(),
        s@.len() < usize::MAX,
    ensures
        match r {
            Ok(e) => grammar::empty_line(s@, i as int) == Some(e as int) && i < e <= s@.len(),
            Err(f) => grammar::empty_line(s@, i as int) is None && f@ == empty_line_fail(s@, i as int)
                && f.at <= s@.len(),
        },
{
    let b = scan_blanks(s, i);
    if b < s.len() && s[b] == grammar::NL {
        Ok(b + 1)
    } else {
        Err(fail_at(b, Rule::EmptyLine))
    }
}

pub(crate) fn m_trans_annotation(s: &[u8], i: usize) -> (r: Result<usize, Fail>)
    requires
        i <= s@.len(),
        s@.len() < usize::MAX,
    ensures
        match r {
            Ok(e) => grammar::trans_annotation(s@, i as int) == Some(e as int) && i < e
                <= s@.len(),
            Err(f) => grammar::trans_annotation(s@, i as int) is None && f@ == trans_annotation_fail(
                s@,
                i as int,
            ) && f.at <= s@.len(),
        },
{
    if i < s.len() && (s[i] == grammar::BANG || s[i] == grammar::STAR) {
        Ok(i + 1)
    } else {
        Err(fail_at(i, Rule::TransAnnotation))
    }
}

pub(crate) fn m_trans_description(s: &[u8], i: usize) -> (r: Result<usize, Fail>)
    requires
        i <= s@.len(),
        s@.len() < usize::MAX,
    ensures
        match r {
            Ok(e) => grammar::trans_description(s@, i as int) == Some(e as int) && i < e
                <= s@.len(),
            Err(f) => grammar::trans_description(s@, i as int) is None && f@
                == trans_description_fail(s@, i as int) && f.at <= s@.len(),
        },
{
    if !(i < s.len() && s[i] == grammar::DQUOTE) {
        return Err(fail_at(i, Rule::TransDescription));
    }
    let mut j = i + 1;
    let mut has_text = false;
    while j < s.len() && s[j] != grammar::DQUOTE && s[j] != grammar::NL
        invariant
            i + 1 <= j <= s@.len(),
            s@.len() < usize::MAX,
            forall|k: int| i + 1 <= k < j ==> grammar::is_description_byte(s@[k]),
            has_text == exists|k: int| i + 1 <= k < j && !grammar::is_blank(#[trigger] s@[k]),
        decreases s@.len() - j,
    {
        if !byte_is_blank(s[j]) {
            proof {
                assert(!grammar::is_blank(s@[j as int]));
            }
            has_text = true;
        }
        j = j + 1;
    }
    proof {
        grammar::lemma_run_end_is(s@, i + 1, j as int, |b: u8| grammar::is_description_byte(b));
    }
    if j < s.len() && s[j] == grammar::DQUOTE && has_text {
        Ok(j + 1)
    } else {
        Err(fail_at(j, Rule::TransDescription))
    }
}

pub(crate) fn m_trans_header(s: &[u8], i: usize) -> (r: Result<usize, Fail>)
    requires
        i <= s@.len(),
        s@.len() < usize::MAX,
    ensures
        match r {
            Ok(e) => grammar::trans_header(s@, i as int) == Some(e as int) && i < e <= s@.len(),
            Err(f) => grammar::trans_header(s@, i as int) is None && f@ == trans_header_fail(
                s@,
                i as int,
            ) && f.at <= s@.len(),
        },
{
    let e1 = match m_date(s, i) {
        Ok(e) => e,
        Err(f) => return Err(f),
    };
    let e2 = match m_ws_plus(s, e1) {
        Ok(e) => e,
        Err(f) => return Err(f),
    };
    let e3 = match m_trans_annotation(s, e2) {
        Ok(e) => e,
        Err(f) => return Err(f),
    };
    let e4 = match m_ws_plus(s, e3) {
        Ok(e) => e,
        Err(f) => return Err(f),
    };
    let e5 = match m_trans_description(s, e4) {
        Ok(e) => e,
        Err(f) => return Err(f),
    };
    match m_comment_or_newline(s, e5) {
        Ok(e) => Ok(e),
        Err(f) => Err(f),
    }
}

pub(crate) fn m_posting_basic(s: &[u8], i: usize) -> (r: Result<usize, Fail>)
    requires
        i <= s@.len(),
        s@.len() < usize::MAX,
    ensures
        match r {
            Ok(e) => grammar::posting_basic(s@, i as int) == Some(e as int) && i < e <= s@.len(),
            Err(f) => grammar::posting_basic(s@, i as int) is None && f@ == posting_basic_fail(
                s@,
                i as int,
            ) && f.at <= s@.len(),
        },
{
    let e1 = if s.len() - i >= 2 && s[i] == grammar::SP && s[i + 1] == grammar::SP {
        i + 2
    } else if i < s.len() && s[i] == grammar::TAB {
        i + 1
    } else {
        return Err(fail_at(i, Rule::PostingIndent));
    };
    let e2 = match m_acct_descriptor(s, e1) {
        Ok(e) => e,
        Err(f) => return Err(f),
    };
    let e3 = match m_ws_plus(s, e2) {
        Ok(e) => e,
        Err(f) => return Err(f),
    };
    let e4 = match m_decimal_value(s, e3) {
        Ok(e) => e,
        Err(f) => return Err(f),
    };
    match m_comment_or_newline(s, e4) {
        Ok(e) => Ok(e),
        Err(f) => Err(f),
    }
}

/// End of the greedy posting repetition from `i`, mirroring
/// [`grammar::postings_end`].
fn m_postings_end(s: &[u8], i: usize) -> (r: usize)
    requires
        i <= s@.len(),
        s@.len() < usize::MAX,
    ensures
        r == grammar::postings_end(s@, i as int),
        i <= r <= s@.len(),
    decreases s@.len() - i,
{
    match m_posting_basic(s, i) {
        Ok(e) => m_postings_end(s, e),
        Err(_) => i,
    }
}

pub(crate) fn m_transaction_block(s: &[u8], i: usize) -> (r: Result<usize, Fail>)
    requires
        i <= s@.len(),
        s@.len() < usize::MAX,
    ensures
        match r {
            Ok(e) => grammar::transaction_block(s@, i as int) == Some(e as int) && i < e
                <= s@.len(),
            Err(f) => grammar::transaction_block(s@, i as int) is None && f@ == transaction_block_fail(
                s@,
                i as int,
            ) && f.at <= s@.len(),
        },
{
    let h = match m_trans_header(s, i) {
        Ok(e) => e,
        Err(f) => return Err(f),
    };
    match m_posting_basic(s, h) {
        Ok(_) => Ok(m_postings_end(s, h)),
        Err(f) => Err(f),
    }
}

pub(crate) fn m_kw_open(s: &[u8], i: usize) -> (r: bool)
    requires
        i <= s@.len(),
    ensures
        r == grammar::kw_open_at(s@, i as int),
{
    s.len() - i >= 4 && s[i] == 111 && s[i + 1] == 112 && s[i + 2] == 101 && s[i + 3] == 110
}

pub(crate) fn m_kw_close(s: &[u8], i: usize) -> (r: bool)
    requires
        i <= s@.len(),
    ensures
        r == grammar::kw_close_at(s@, i as int),
{
    s.len() - i >= 5 && s[i] == 99 && s[i + 1] == 108 && s[i + 2] == 111 && s[i + 3] == 115 && s[i
        + 4] == 101
}

pub(crate) fn m_kw_commodity(s: &[u8], i: usize) -> (r: bool)
    requires
        i <= s@.len(),
    ensures
        r == grammar::kw_commodity_at(s@, i as int),
{
    s.len() - i >= 9 && s[i] == 99 && s[i + 1] == 111 && s[i + 2] == 109 && s[i + 3] == 109 && s[i
        + 4] == 111 && s[i + 5] == 100 && s[i + 6] == 105 && s[i + 7] == 116 && s[i + 8] == 121
}

pub(crate) fn m_kw_balance(s: &[u8], i: usize) -> (r: bool)
    requires
        i <= s@.len(),
    ensures
        r == grammar::kw_balance_at(s@, i as int),
{
    s.len() - i >= 7 && s[i] == 98 && s[i + 1] == 97 && s[i + 2] == 108 && s[i + 3] == 97 && s[i
        + 4] == 110 && s[i + 5] == 99 && s[i + 6] == 101
}

pub(crate) fn m_directive_open(s: &[u8], i: usize) -> (r: Result<usize, Fail>)
    requires
        i <= s@.len(),
        s@.len() < usize::MAX,
    ensures
        match r {
            Ok(e) => grammar::directive_open(s@, i as int) == Some(e as int) && i < e <= s@.len(),
            Err(f) => grammar::directive_open(s@, i as int) is None && f@ == directive_open_fail(
                s@,
                i as int,
            ) && f.at <= s@.len(),
        },
{
    let e1 = match m_date(s, i) {
        Ok(e) => e,
        Err(f) => return Err(f),
    };
    let e2 = match m_ws_plus(s, e1) {
        Ok(e) => e,
        Err(f) => return Err(f),
    };
    if !m_kw_open(s, e2) {
        return Err(fail_at(e2, Rule::DirectiveOpen));
    }
    let e3 = match m_ws_plus(s, e2 + 4) {
        Ok(e) => e,
        Err(f) => return Err(f),
    };
    let e4 = match m_acct_descriptor(s, e3) {
        Ok(e) => e,
        Err(f) => return Err(f),
    };
    match m_comment_or_newline(s, e4) {
        Ok(e) => Ok(e),
        Err(f) => Err(f),
    }
}

pub(crate) fn m_directive_close(s: &[u8], i: usize) -> (r: Result<usize, Fail>)
    requires
        i <= s@.len(),
        s@.len() < usize::MAX,
    ensures
        match r {
            Ok(e) => grammar::directive_close(s@, i as int) == Some(e as int) && i < e <= s@.len(),
            Err(f) => grammar::directive_close(s@, i as int) is None && f@ == directive_close_fail(
                s@,
                i as int,
            ) && f.at <= s@.len(),
        },
{
    let e1 = match m_date(s, i) {
        Ok(e) => e,
        Err(f) => return Err(f),
    };
    let e2 = match m_ws_plus(s, e1) {
        Ok(e) => e,
        Err(f) => return Err(f),
    };
    if !m_kw_close(s, e2) {
        return Err(fail_at(e2, Rule::DirectiveClose));
    }
    let e3 = match m_ws_plus(s, e2 + 5) {
        Ok(e) => e,
        Err(f) => return Err(f),
    };
    let e4 = match m_acct_descriptor(s, e3) {
        Ok(e) => e,
        Err(f) => return Err(f),
    };
    match m_comment_or_newline(s, e4) {
        Ok(e) => Ok(e),
        Err(f) => Err(f),
    }
}

pub(crate) fn m_directive_commodity(s: &[u8], i: usize) -> (r: Result<usize, Fail>)
    requires
        i <= s@.len(),
        s@.len() < usize::MAX,
    ensures
        match r {
            Ok(e) => grammar::directive_commodity(s@, i as int) == Some(e as int) && i < e
                <= s@.len(),
            Err(f) => grammar::directive_commodity(s@, i as int) is None && f@
                == directive_commodity_fail(s@, i as int) && f.at <= s@.len(),
        },
{
    let e1 = match m_date(s, i) {
        Ok(e) => e,
        Err(f) => return Err(f),
    };
    let e2 = match m_ws_plus(s, e1) {
        Ok(e) => e,
        Err(f) => return Err(f),
    };
    if !m_kw_commodity(s, e2) {
        return Err(fail_at(e2, Rule::DirectiveCommodity));
    }
    let e3 = match m_ws_plus(s, e2 + 9) {
        Ok(e) => e,
        Err(f) => return Err(f),
    };
    let e4 = match m_currency(s, e3) {
        Ok(e) => e,
        Err(f) => return Err(f),
    };
    match m_comment_or_newline(s, e4) {
        Ok(e) => Ok(e),
        Err(f) => Err(f),
    }
}

pub(crate) fn m_balance_directive(s: &[u8], i: usize) -> (r: Result<usize, Fail>)
    requires
        i <= s@.len(),
        s@.len() < usize::MAX,
    ensures
        match r {
            Ok(e) => grammar::balance_directive(s@, i as int) == Some(e as int) && i < e
                <= s@.len(),
            Err(f) => grammar::balance_directive(s@, i as int) is None && f@ == balance_directive_fail(
                s@,
                i as int,
            ) && f.at <= s@.len(),
        },
{
    let e1 = match m_date(s, i) {
        Ok(e) => e,
        Err(f) => return Err(f),
    };
    let e2 = match m_ws_plus(s, e1) {
        Ok(e) => e,
        Err(f) => return Err(f),
    };
    if !m_kw_balance(s, e2) {
        return Err(fail_at(e2, Rule::BalanceDirective));
    }
    let e3 = match m_ws_plus(s, e2 + 7) {
        Ok(e) => e,
        Err(f) => return Err(f),
    };
    let e4 = match m_acct_descriptor(s, e3) {
        Ok(e) => e,
        Err(f) => return Err(f),
    };
    let e5 = match m_ws_plus(s, e4) {
        Ok(e) => e,
        Err(f) => return Err(f),
    };
    let e6 = match m_decimal_value(s, e5) {
        Ok(e) => e,
        Err(f) => return Err(f),
    };
    let e7 = match m_ws_plus(s, e6) {
        Ok(e) => e,
        Err(f) => return Err(f),
    };
    let e8 = match m_currency(s, e7) {
        Ok(e) => e,
        Err(f) => return Err(f),
    };
    match m_comment_or_newline(s, e8) {
        Ok(e) => Ok(e),
        Err(f) => Err(f),
    }
}

/// Ordered choice over the four directive rules.
pub(crate) fn m_directives(s: &[u8], i: usize) -> (r: Result<usize, Fail>)
    requires
        i <= s@.len(),
        s@.len() < usize::MAX,
    ensures
        match r {
            Ok(e) => grammar::directives(s@, i as int) == Some(e as int) && i < e <= s@.len(),
            Err(f) => grammar::directives(s@, i as int) is None && f@ == directives_fail(s@, i as int)
                && f.at <= s@.len(),
        },
{
    let f1 = match m_directive_open(s, i) {
        Ok(e) => return Ok(e),
        Err(f) => f,
    };
    let f2 = match m_directive_close(s, i) {
        Ok(e) => return Ok(e),
        Err(f) => f,
    };
    let f3 = match m_directive_commodity(s, i) {
        Ok(e) => return Ok(e),
        Err(f) => f,
    };
    match m_balance_directive(s, i) {
        Ok(e) => Ok(e),
        Err(f4) => Err(merge_fail(merge_fail(merge_fail(f1, f2), f3), f4)),
    }
}

// ---------------------------------------------------------------
// The produced tree
// ---------------------------------------------------------------

/// A node of the parse tree the producer yields: the identity of the
/// rule that matched one document entry, and its byte span.
#[derive(Clone, Copy, Debug, PartialEq, Eq)]
pub struct EntryNode {
    pub rule: Rule,
    pub start: usize,
    pub end: usize,
}

/// What the producer guarantees of a node: its rule matches exactly
/// its span, and the alternatives the ordered choice tries earlier do
/// not match at its start.
pub open spec fn node_wf(s: Seq<u8>, n: EntryNode) -> bool {
    &&& n.start < n.end <= s.len()
    &&& match n.rule {
        Rule::CommentOrNewline => grammar::comment_or_newline(s, n.start as int) == Some(
            n.end as int,
        ),
        Rule::EmptyLine => grammar::comment_or_newline(s, n.start as int) is None
            && grammar::empty_line(s, n.start as int) == Some(n.end as int),
        Rule::Directives => grammar::comment_or_newline(s, n.start as int) is None
            && grammar::empty_line(s, n.start as int) is None && grammar::directives(
            s,
            n.start as int,
        ) == Some(n.end as int),
        Rule::TransactionBlock => grammar::comment_or_newline(s, n.start as int) is None
            && grammar::empty_line(s, n.start as int) is None && grammar::directives(
            s,
            n.start as int,
        ) is None && grammar::transaction_block(s, n.start as int) == Some(n.end as int),
        _ => false,
    }
}

/// The ledger entries one node contributes: comment and blank lines
/// contribute none, a directive or transaction node one.
pub open spec fn node_entries(s: Seq<u8>, n: EntryNode) -> Seq<EntryV> {
    match n.rule {
        Rule::Directives => seq![EntryV::Directive(grammar::directive_at(s, n.start as int))],
        Rule::TransactionBlock => seq![
            EntryV::Transaction(grammar::transaction_at(s, n.start as int)),
        ],
        _ => seq![],
    }
}

/// Whether the amounts under one node fit the executable types.
pub open spec fn node_fits(s: Seq<u8>, n: EntryNode) -> bool {
    match n.rule {
        Rule::Directives => grammar::entry_fits(s, n.start as int),
        Rule::TransactionBlock => grammar::entry_fits(s, n.start as int),
        _ => true,
    }
}

/// The entries a node sequence contributes, in order.
pub open spec fn nodes_entries(s: Seq<u8>, ns: Seq<EntryNode>) -> Seq<EntryV>
    decreases ns.len(),
{
    if ns.len() == 0 {
        seq![]
    } else {
        node_entries(s, ns[0]) + nodes_entries(s, ns.drop_first())
    }
}

/// Whether every node's amounts fit.
pub open spec fn nodes_fit(s: Seq<u8>, ns: Seq<EntryNode>) -> bool {
    forall|k: int| 0 <= k < ns.len() ==> node_fits(s, #[trigger] ns[k])
}

/// Offset of the first amount under the nodes that does not fit, in
/// document order. Meaningful only where one does not fit.
pub open spec fn nodes_overflow_at(s: Seq<u8>, ns: Seq<EntryNode>) -> int
    decreases ns.len(),
{
    if ns.len() == 0 {
        0
    } else if !node_fits(s, ns[0]) {
        grammar::entry_overflow_at(s, ns[0].start as int)
    } else {
        nodes_overflow_at(s, ns.drop_first())
    }
}

pub proof fn lemma_nodes_overflow_push(s: Seq<u8>, ns: Seq<EntryNode>, n: EntryNode)
    ensures
        !nodes_fit(s, ns) ==> nodes_overflow_at(s, ns.push(n)) == nodes_overflow_at(s, ns),
        nodes_fit(s, ns) && !node_fits(s, n) ==> nodes_overflow_at(s, ns.push(n))
            == grammar::entry_overflow_at(s, n.start as int),
    decreases ns.len(),
{
    if ns.len() == 0 {
        assert(ns.push(n)[0] == n);
        assert(ns.push(n).drop_first() =~= ns);
        assert(nodes_fit(s, ns));
    } else {
        lemma_nodes_overflow_push(s, ns.drop_first(), n);
        assert(ns.push(n)[0] == ns[0]);
        assert(ns.push(n).drop_first() =~= ns.drop_first().push(n));
        if nodes_fit(s, ns.drop_first()) && node_fits(s, ns[0]) {
            assert forall|k: int| 0 <= k < ns.len() implies node_fits(s, #[trigger] ns[k]) by {
                if k > 0 {
                    assert(ns.drop_first()[k - 1] == ns[k]);
                }
            }
            assert(nodes_fit(s, ns));
        }
        if nodes_fit(s, ns) {
            assert forall|k: int|
                0 <= k < ns.drop_first().len() implies node_fits(
                s,
                #[trigger] ns.drop_first()[k],
            ) by {
                assert(ns.drop_first()[k] == ns[k + 1]);
            }
            assert(nodes_fit(s, ns.drop_first()));
        }
    }
}

/// Nodes that all fit may be skipped when looking for the first one
/// that does not.
pub proof fn lemma_nodes_overflow_skip(s: Seq<u8>, ns: Seq<EntryNode>, k: int)
    requires
        0 <= k < ns.len(),
        forall|j: int| 0 <= j < k ==> node_fits(s, #[trigger] ns[j]),
    ensures
        nodes_overflow_at(s, ns) == nodes_overflow_at(s, ns.skip(k)),
    decreases k,
{
    if k > 0 {
        assert(ns.drop_first() =~= ns.skip(1));
        assert(ns.skip(1).skip(k - 1) =~= ns.skip(k));
        assert forall|j: int| 0 <= j < k - 1 implies node_fits(s, #[trigger] ns.skip(1)[j]) by {
            assert(ns.skip(1)[j] == ns[j + 1]);
        }
        lemma_nodes_overflow_skip(s, ns.skip(1), k - 1);
        assert(node_fits(s, ns[0]));
    } else {
        assert(ns.skip(0) =~= ns);
    }
}

pub proof fn lemma_nodes_entries_push(s: Seq<u8>, ns: Seq<EntryNode>, n: EntryNode)
    ensures
        nodes_entries(s, ns.push(n)) == nodes_entries(s, ns) + node_entries(s, n),
    decreases ns.len(),
{
    if ns.len() == 0 {
        assert(ns.push(n).drop_first() =~= ns);
        assert(nodes_entries(s, ns.push(n)) =~= nodes_entries(s, ns) + node_entries(s, n));
    } else {
        lemma_nodes_entries_push(s, ns.drop_first(), n);
        assert(ns.push(n).drop_first() =~= ns.drop_first().push(n));
        assert(ns.push(n)[0] == ns[0]);
        assert(nodes_entries(s, ns.push(n)) =~= nodes_entries(s, ns) + node_entries(s, n));
    }
}

pub proof fn lemma_nodes_fit_push(s: Seq<u8>, ns: Seq<EntryNode>, n: EntryNode)
    ensures
        nodes_fit(s, ns.push(n)) == (nodes_fit(s, ns) && node_fits(s, n)),
{
    if nodes_fit(s, ns) && node_fits(s, n) {
        assert forall|k: int| 0 <= k < ns.push(n).len() implies node_fits(
            s,
            #[trigger] ns.push(n)[k],
        ) by {
            if k < ns.len() {
                assert(ns.push(n)[k] == ns[k]);
            } else {
                assert(ns.push(n)[k] == n);
            }
        }
    }
    if nodes_fit(s, ns.push(n)) {
        assert(ns.push(n)[ns.len() as int] == n);
        assert(node_fits(s, n));
        assert forall|k: int| 0 <= k < ns.len() implies node_fits(s, #[trigger] ns[k]) by {
            assert(ns.push(n)[k] == ns[k]);
        }
    }
}

/// Walking the node sequence from the left peels one node's entries
/// off at a time.
pub proof fn lemma_nodes_entries_skip(s: Seq<u8>, ns: Seq<EntryNode>, k: int)
    requires
        0 <= k < ns.len(),
    ensures
        nodes_entries(s, ns.skip(k)) == node_entries(s, ns[k]) + nodes_entries(s, ns.skip(k + 1)),
{
    assert(ns.skip(k)[0] == ns[k]);
    assert(ns.skip(k).drop_first() =~= ns.skip(k + 1));
}

/// A well-formed node decomposes the document at its span: the match
/// continues after it, it contributes exactly its own entries, and
/// the amounts fit from its start exactly when they fit under it and
/// after it.
proof fn lemma_ledger_step_decompose(s: Seq<u8>, n: EntryNode)
    requires
        node_wf(s, n),
    ensures
        grammar::ledger(s, n.start as int) == grammar::ledger(s, n.end as int),
        grammar::ledger_entries(s, n.start as int) == node_entries(s, n) + grammar::ledger_entries(
            s,
            n.end as int,
        ),
        grammar::ledger_fits(s, n.start as int) == (node_fits(s, n) && grammar::ledger_fits(
            s,
            n.end as int,
        )),
        ledger_fail(s, n.start as int) == ledger_fail(s, n.end as int),
        !node_fits(s, n) ==> grammar::ledger_overflow_at(s, n.start as int)
            == grammar::entry_overflow_at(s, n.start as int),
        node_fits(s, n) ==> grammar::ledger_overflow_at(s, n.start as int)
            == grammar::ledger_overflow_at(s, n.end as int),
{
    let i = n.start as int;
    let e = n.end as int;
    match n.rule {
        Rule::CommentOrNewline => {
            assert(grammar::ledger_step(s, i) == Some(e));
            assert(grammar::ledger_entries(s, i) =~= node_entries(s, n) + grammar::ledger_entries(
                s,
                e,
            ));
            assert(grammar::entry_fits(s, i));
        },
        Rule::EmptyLine => {
            assert(grammar::ledger_step(s, i) == Some(e));
            assert(grammar::ledger_entries(s, i) =~= node_entries(s, n) + grammar::ledger_entries(
                s,
                e,
            ));
            assert(grammar::entry_fits(s, i));
        },
        Rule::Directives => {
            assert(grammar::ledger_step(s, i) == Some(e));
            assert(grammar::ledger_entries(s, i) =~= node_entries(s, n) + grammar::ledger_entries(
                s,
                e,
            ));
            assert(grammar::entry_fits(s, i) == node_fits(s, n));
        },
        Rule::TransactionBlock => {
            assert(grammar::ledger_step(s, i) == Some(e));
            assert(grammar::ledger_entries(s, i) =~= node_entries(s, n) + grammar::ledger_entries(
                s,
                e,
            ));
            assert(grammar::entry_fits(s, i) == node_fits(s, n));
        },
        _ => {
            assert(false);
        },
    }
}

/// One step of the whole-document ordered choice.
fn m_entry(s: &[u8], i: usize) -> (r: Result<(Rule, usize), Fail>)
    requires
        i < s@.len(),
        s@.len() < usize::MAX,
    ensures
        match r {
            Ok((rule, e)) => node_wf(s@, EntryNode { rule, start: i, end: e })
                && grammar::ledger_step(s@, i as int) == Some(e as int) && i < e <= s@.len(),
            Err(f) => grammar::ledger_step(s@, i as int) is None && f@ == ledger_step_fail(
                s@,
                i as int,
            ) && f.at <= s@.len(),
        },
{
    let f1 = match m_comment_or_newline(s, i) {
        Ok(e) => return Ok((Rule::CommentOrNewline, e)),
        Err(f) => f,
    };
    let f2 = match m_empty_line(s, i) {
        Ok(e) => return Ok((Rule::EmptyLine, e)),
        Err(f) => f,
    };
    let f3 = match m_directives(s, i) {
        Ok(e) => return Ok((Rule::Directives, e)),
        Err(f) => f,
    };
    match m_transaction_block(s, i) {
        Ok(e) => Ok((Rule::TransactionBlock, e)),
        Err(f4) => Err(merge_fail(merge_fail(merge_fail(f1, f2), f3), f4)),
    }
}

/// The parse-tree producer: applies the whole-document rule to the
/// input. On success the document matched to its end and the returned
/// nodes carry, in document order, exactly the entries the grammar
/// denotes; on failure no prefix choice could be continued and the
/// document does not match.
#[verifier::rlimit(100)]
pub fn produce(s: &[u8]) -> (r: Result<Vec<EntryNode>, Fail>)
    requires
        s@.len() < usize::MAX,
    ensures
        match r {
            Ok(nodes) => grammar::ledger(s@, 0) == Some(s@.len() as int) && (forall|k: int|
                0 <= k < nodes@.len() ==> node_wf(s@, #[trigger] nodes@[k]))
                && grammar::ledger_entries(s@, 0) == nodes_entries(s@, nodes@) && (
            grammar::ledger_fits(s@, 0) <==> nodes_fit(s@, nodes@)) && (!grammar::ledger_fits(
                s@,
                0,
            ) ==> grammar::ledger_overflow_at(s@, 0) == nodes_overflow_at(s@, nodes@)),
            Err(f) => grammar::ledger(s@, 0) is None && f@ == ledger_fail(s@, 0) && f.at
                <= s@.len(),
        },
{
    let mut nodes: Vec<EntryNode> = Vec::new();
    let mut off: usize = 0;
    proof {
        assert(nodes_entries(s@, nodes@) + grammar::ledger_entries(s@, 0) =~= grammar::ledger_entries(
            s@,
            0,
        ));
    }
    while off < s.len()
        invariant
            off <= s@.len(),
            s@.len() < usize::MAX,
            grammar::ledger(s@, 0) == grammar::ledger(s@, off as int),
            grammar::ledger_entries(s@, 0) == nodes_entries(s@, nodes@) + grammar::ledger_entries(
                s@,
                off as int,
            ),
            grammar::ledger_fits(s@, 0) == (nodes_fit(s@, nodes@) && grammar::ledger_fits(
                s@,
                off as int,
            )),
            ledger_fail(s@, 0) == ledger_fail(s@, off as int),
            grammar::ledger_overflow_at(s@, 0) == if !nodes_fit(s@, nodes@) {
                nodes_overflow_at(s@, nodes@)
            } else {
                grammar::ledger_overflow_at(s@, off as int)
            },
            forall|k: int| 0 <= k < nodes@.len() ==> node_wf(s@, #[trigger] nodes@[k]),
        decreases s@.len() - off,
    {
        let (rule, e) = match m_entry(s, off) {
            Ok(re) => re,
            Err(f) => {
                return Err(f);
            },
        };
        let n = EntryNode { rule, start: off, end: e };
        let ghost ns0 = nodes@;
        nodes.push(n);
        proof {
            lemma_nodes_entries_push(s@, ns0, n);
            lemma_nodes_fit_push(s@, ns0, n);
            lemma_nodes_overflow_push(s@, ns0, n);
            lemma_ledger_step_decompose(s@, n);
            assert(grammar::ledger_entries(s@, 0) =~= nodes_entries(s@, nodes@)
                + grammar::ledger_entries(s@, e as int));
        }
        off = e;
    }
    proof {
        assert(grammar::ledger(s@, off as int) == Some(off as int));
        assert(grammar::ledger_entries(s@, off as int) =~= Seq::<EntryV>::empty());
        assert(grammar::ledger_entries(s@, 0) =~= nodes_entries(s@, nodes@));
    }
    Ok(nodes)
}

// ---------------------------------------------------------------
// Rule-level parsing
// ---------------------------------------------------------------

/// Applies single grammar rules to whole inputs.
///
/// Each method matches its rule at the start of the input and demands
/// that the rule consume the input completely, so trailing bytes —
/// a dangling account separator included — are rejected.
pub struct LedgerParser {}

impl LedgerParser {
    /// Parses a complete input as a `decimal_value`.
    pub fn parse_decimal_value(s: &[u8]) -> (r: Result<Decimal, ParseError>)
        requires
            s@.len() < usize::MAX,
        ensures
            match r {
                Ok(d) => grammar::decimal_value(s@, 0) == Some(s@.len() as int)
                    && grammar::decimal_fits(s@, 0) && d@ == grammar::decimal_at(s@, 0),
                Err(ParseError::Syntax(e)) => grammar::decimal_value(s@, 0) != Some(
                    s@.len() as int,
                ) && e.position.line == grammar::line_of(
                    s@,
                    whole_input_fail(grammar::decimal_value(s@, 0), decimal_value_fail(s@, 0)).at,
                ) && e.position.col == grammar::col_of(
                    s@,
                    whole_input_fail(grammar::decimal_value(s@, 0), decimal_value_fail(s@, 0)).at,
                ) && e.expected@ == whole_input_fail(
                    grammar::decimal_value(s@, 0),
                    decimal_value_fail(s@, 0),
                ).expected,
                Err(ParseError::Structure(_)) => grammar::decimal_value(s@, 0) == Some(
                    s@.len() as int,
                ) && !grammar::decimal_fits(s@, 0),
            },
    {
        let end = match m_decimal_value(s, 0) {
            Ok(e) => e,
            Err(f) => return Err(ParseError::Syntax(crate::ledger_builder::to_syntax(s, f))),
        };
        if end != s.len() {
            return Err(
                ParseError::Syntax(crate::ledger_builder::to_syntax(s, fail_at(end, Rule::Eoi))),
            );
        }
        match crate::ledger_builder::build_decimal(s, 0, end) {
            Ok(d) => Ok(d),
            Err(f) => Err(
                ParseError::Structure(crate::ledger_builder::s_err(s, 0, f, Rule::DecimalValue)),
            ),
        }
    }

    /// Parses a complete input as an `iso8601_date_extended`.
    pub fn parse_iso8601_date_extended(s: &[u8]) -> (r: Result<Date, ParseError>)
        requires
            s@.len() < usize::MAX,
        ensures
            match r {
                Ok(dt) => grammar::iso8601_date_extended(s@, 0) == Some(s@.len() as int) && dt@
                    == grammar::date_at(s@, 0),
                Err(ParseError::Syntax(e)) => grammar::iso8601_date_extended(s@, 0) != Some(
                    s@.len() as int,
                ) && e.position.line == grammar::line_of(
                    s@,
                    whole_input_fail(grammar::iso8601_date_extended(s@, 0), iso8601_date_extended_fail(s@, 0)).at,
                ) && e.position.col == grammar::col_of(
                    s@,
                    whole_input_fail(grammar::iso8601_date_extended(s@, 0), iso8601_date_extended_fail(s@, 0)).at,
                ) && e.expected@ == whole_input_fail(
                    grammar::iso8601_date_extended(s@, 0),
                    iso8601_date_extended_fail(s@, 0),
                ).expected,
                Err(ParseError::Structure(_)) => false,
            },
    {
        let end = match m_date(s, 0) {
            Ok(e) => e,
            Err(f) => return Err(ParseError::Syntax(crate::ledger_builder::to_syntax(s, f))),
        };
        if end != s.len() {
            return Err(
                ParseError::Syntax(crate::ledger_builder::to_syntax(s, fail_at(end, Rule::Eoi))),
            );
        }
        match crate::ledger_builder::build_date(s, 0) {
            Ok(dt) => Ok(dt),
            Err(_) => Err(
                ParseError::Syntax(
                    crate::ledger_builder::to_syntax(s, fail_at(0, Rule::Iso8601DateExtended)),
                ),
            ),
        }
    }

    /// Parses a complete input as a `top_level_acct` segment.
    pub fn parse_top_level_acct(s: &[u8]) -> (r: Result<Vec<u8>, ParseError>)
        requires
            s@.len() < usize::MAX,
        ensures
            match r {
                Ok(v) => grammar::top_level_acct(s@, 0) == Some(s@.len() as int) && v@ == s@,
                Err(ParseError::Syntax(e)) => grammar::top_level_acct(s@, 0) != Some(
                    s@.len() as int,
                ) && e.position.line == grammar::line_of(
                    s@,
                    whole_input_fail(grammar::top_level_acct(s@, 0), fail1(0, Rule::TopLevelAcct)).at,
                ) && e.position.col == grammar::col_of(
                    s@,
                    whole_input_fail(grammar::top_level_acct(s@, 0), fail1(0, Rule::TopLevelAcct)).at,
                ) && e.expected@ == whole_input_fail(
                    grammar::top_level_acct(s@, 0),
                    fail1(0, Rule::TopLevelAcct),
                ).expected,
                Err(ParseError::Structure(_)) => false,
            },
    {
        if !(0 < s.len() && byte_is_alpha(s[0])) {
            return Err(
                ParseError::Syntax(
                    crate::ledger_builder::to_syntax(s, fail_at(0, Rule::TopLevelAcct)),
                ),
            );
        }
        let end = scan_alnum(s, 1);
        if end != s.len() {
            return Err(
                ParseError::Syntax(crate::ledger_builder::to_syntax(s, fail_at(end, Rule::Eoi))),
            );
        }
        let v = crate::ledger_builder::copy_range(s, 0, end);
        proof {
            assert(v@ =~= s@);
        }
        Ok(v)
    }

    /// Parses a complete input as an `acct_descriptor`.
    pub fn parse_acct_descriptor(s: &[u8]) -> (r: Result<RawAccountDescriptor, ParseError>)
        requires
            s@.len() < usize::MAX,
        ensures
            match r {
                Ok(a) => grammar::acct_descriptor(s@, 0) == Some(s@.len() as int) && a@.path
                    == grammar::acct_path_at(s@, 0) && a@.line == 1 && a@.col == 1,
                Err(ParseError::Syntax(e)) => grammar::acct_descriptor(s@, 0) != Some(
                    s@.len() as int,
                ) && e.position.line == grammar::line_of(
                    s@,
                    whole_input_fail(grammar::acct_descriptor(s@, 0), acct_descriptor_fail(s@, 0)).at,
                ) && e.position.col == grammar::col_of(
                    s@,
                    whole_input_fail(grammar::acct_descriptor(s@, 0), acct_descriptor_fail(s@, 0)).at,
                ) && e.expected@ == whole_input_fail(
                    grammar::acct_descriptor(s@, 0),
                    acct_descriptor_fail(s@, 0),
                ).expected,
                Err(ParseError::Structure(_)) => false,
            },
    {
        let end = match m_acct_descriptor(s, 0) {
            Ok(e) => e,
            Err(f) => return Err(ParseError::Syntax(crate::ledger_builder::to_syntax(s, f))),
        };
        if end != s.len() {
            return Err(
                ParseError::Syntax(crate::ledger_builder::to_syntax(s, fail_at(end, Rule::Eoi))),
            );
        }
        match crate::ledger_builder::build_account(s, 0) {
            Ok((a, _)) => Ok(a),
            Err(_) => Err(
                ParseError::Syntax(
                    crate::ledger_builder::to_syntax(s, fail_at(0, Rule::AcctDescriptor)),
                ),
            ),
        }
    }

    /// Parses a complete input as a `trans_description`, returning
    /// the text between the quotes.
    pub fn parse_trans_description(s: &[u8]) -> (r: Result<Vec<u8>, ParseError>)
        requires
            s@.len() < usize::MAX,
        ensures
            match r {
                Ok(v) => grammar::trans_description(s@, 0) == Some(s@.len() as int) && v@
                    == s@.subrange(1, s@.len() - 1),
                Err(ParseError::Syntax(e)) => grammar::trans_description(s@, 0) != Some(
                    s@.len() as int,
                ) && e.position.line == grammar::line_of(
                    s@,
                    whole_input_fail(grammar::trans_description(s@, 0), trans_description_fail(s@, 0)).at,
                ) && e.position.col == grammar::col_of(
                    s@,
                    whole_input_fail(grammar::trans_description(s@, 0), trans_description_fail(s@, 0)).at,
                ) && e.expected@ == whole_input_fail(
                    grammar::trans_description(s@, 0),
                    trans_description_fail(s@, 0),
                ).expected,
                Err(ParseError::Structure(_)) => false,
            },
    {
        let end = match m_trans_description(s, 0) {
            Ok(e) => e,
            Err(f) => return Err(ParseError::Syntax(crate::ledger_builder::to_syntax(s, f))),
        };
        if end != s.len() {
            return Err(
                ParseError::Syntax(crate::ledger_builder::to_syntax(s, fail_at(end, Rule::Eoi))),
            );
        }
        Ok(crate::ledger_builder::copy_range(s, 1, end - 1))
    }

    /// Parses a complete input as a `trans_header`. The returned
    /// transaction carries the header's fields and no postings.
    pub fn parse_trans_header(s: &[u8]) -> (r: Result<RawTransaction, ParseError>)
        requires
            s@.len() < usize::MAX,
        ensures
            match r {
                Ok(t) => grammar::trans_header(s@, 0) == Some(s@.len() as int) && t@
                    == grammar::transaction_at(s@, 0),
                Err(ParseError::Syntax(e)) => grammar::trans_header(s@, 0) != Some(
                    s@.len() as int,
                ) && e.position.line == grammar::line_of(
                    s@,
                    whole_input_fail(grammar::trans_header(s@, 0), trans_header_fail(s@, 0)).at,
                ) && e.position.col == grammar::col_of(
                    s@,
                    whole_input_fail(grammar::trans_header(s@, 0), trans_header_fail(s@, 0)).at,
                ) && e.expected@ == whole_input_fail(
                    grammar::trans_header(s@, 0),
                    trans_header_fail(s@, 0),
                ).expected,
                Err(ParseError::Structure(_)) => false,
            },
    {
        let end = match m_trans_header(s, 0) {
            Ok(e) => e,
            Err(f) => return Err(ParseError::Syntax(crate::ledger_builder::to_syntax(s, f))),
        };
        if end != s.len() {
            return Err(
                ParseError::Syntax(crate::ledger_builder::to_syntax(s, fail_at(end, Rule::Eoi))),
            );
        }
        let date = match crate::ledger_builder::build_date(s, 0) {
            Ok(d) => d,
            Err(_) => return Err(
                ParseError::Syntax(
                    crate::ledger_builder::to_syntax(s, fail_at(0, Rule::Iso8601DateExtended)),
                ),
            ),
        };
        let e2 = scan_blanks(s, 10);
        if !(e2 < s.len() && (s[e2] == grammar::BANG || s[e2] == grammar::STAR)) {
            return Err(
                ParseError::Syntax(
                    crate::ledger_builder::to_syntax(s, fail_at(e2, Rule::TransAnnotation)),
                ),
            );
        }
        let anno = if s[e2] == grammar::BANG {
            Annotation::Pending
        } else {
            Annotation::Cleared
        };
        let e4 = scan_blanks(s, e2 + 1);
        if !(e4 < s.len() && s[e4] == grammar::DQUOTE) {
            return Err(
                ParseError::Syntax(
                    crate::ledger_builder::to_syntax(s, fail_at(e4, Rule::TransDescription)),
                ),
            );
        }
        let dq = scan_description_bytes(s, e4 + 1);
        if !(dq < s.len() && s[dq] == grammar::DQUOTE) {
            return Err(
                ParseError::Syntax(
                    crate::ledger_builder::to_syntax(s, fail_at(dq, Rule::TransDescription)),
                ),
            );
        }
        let desc = crate::ledger_builder::copy_range(s, e4 + 1, dq);
        let comment = crate::ledger_builder::build_line_comment(s, dq + 1);
        let (line, col) = line_col(s, 0);
        let postings: Vec<crate::raw_transaction::RawPosting> = Vec::new();
        proof {
            assert(grammar::postings_at(s@, s@.len() as int) =~= Seq::<
                crate::raw_transaction::PostingV,
            >::empty());
            assert(postings@.map_values(|p: crate::raw_transaction::RawPosting| p@) =~= Seq::<
                crate::raw_transaction::PostingV,
            >::empty());
        }
        Ok(RawTransaction { date, anno, desc, postings, comment, pinfo: mk_pinfo(line, col) })
    }

    /// Parses a complete input as a `posting_basic`.
    pub fn parse_posting_basic(s: &[u8]) -> (r: Result<RawPosting, ParseError>)
        requires
            s@.len() < usize::MAX,
        ensures
            match r {
                Ok(p) => grammar::posting_basic(s@, 0) == Some(s@.len() as int)
                    && grammar::decimal_fits(s@, grammar::posting_value_off(s@, 0)) && p@
                    == grammar::posting_at(s@, 0),
                Err(ParseError::Syntax(e)) => grammar::posting_basic(s@, 0) != Some(
                    s@.len() as int,
                ) && e.position.line == grammar::line_of(
                    s@,
                    whole_input_fail(grammar::posting_basic(s@, 0), posting_basic_fail(s@, 0)).at,
                ) && e.position.col == grammar::col_of(
                    s@,
                    whole_input_fail(grammar::posting_basic(s@, 0), posting_basic_fail(s@, 0)).at,
                ) && e.expected@ == whole_input_fail(
                    grammar::posting_basic(s@, 0),
                    posting_basic_fail(s@, 0),
                ).expected,
                Err(ParseError::Structure(_)) => grammar::posting_basic(s@, 0) == Some(
                    s@.len() as int,
                ) && !grammar::decimal_fits(s@, grammar::posting_value_off(s@, 0)),
            },
    {
        let end = match m_posting_basic(s, 0) {
            Ok(e) => e,
            Err(f) => return Err(ParseError::Syntax(crate::ledger_builder::to_syntax(s, f))),
        };
        if end != s.len() {
            return Err(
                ParseError::Syntax(crate::ledger_builder::to_syntax(s, fail_at(end, Rule::Eoi))),
            );
        }
        match crate::ledger_builder::build_posting(s, 0) {
            Ok((p, _)) => Ok(p),
            Err(err) => Err(ParseError::Structure(err)),
        }
    }

    /// Parses a complete input as a `transaction_block`.
    pub fn parse_transaction_block(s: &[u8]) -> (r: Result<RawTransaction, ParseError>)
        requires
            s@.len() < usize::MAX,
        ensures
            match r {
                Ok(t) => grammar::transaction_block(s@, 0) == Some(s@.len() as int)
                    && grammar::transaction_fits(s@, 0) && t@ == grammar::transaction_at(s@, 0),
                Err(ParseError::Syntax(e)) => grammar::transaction_block(s@, 0) != Some(
                    s@.len() as int,
                ) && e.position.line == grammar::line_of(
                    s@,
                    whole_input_fail(grammar::transaction_block(s@, 0), transaction_block_fail(s@, 0)).at,
                ) && e.position.col == grammar::col_of(
                    s@,
                    whole_input_fail(grammar::transaction_block(s@, 0), transaction_block_fail(s@, 0)).at,
                ) && e.expected@ == whole_input_fail(
                    grammar::transaction_block(s@, 0),
                    transaction_block_fail(s@, 0),
                ).expected,
                Err(ParseError::Structure(_)) => grammar::transaction_block(s@, 0) == Some(
                    s@.len() as int,
                ) && !grammar::transaction_fits(s@, 0),
            },
    {
        let end = match m_transaction_block(s, 0) {
            Ok(e) => e,
            Err(f) => return Err(ParseError::Syntax(crate::ledger_builder::to_syntax(s, f))),
        };
        if end != s.len() {
            return Err(
                ParseError::Syntax(crate::ledger_builder::to_syntax(s, fail_at(end, Rule::Eoi))),
            );
        }
        match crate::ledger_builder::build_transaction(s, 0) {
            Ok(t) => Ok(t),
            Err(err) => Err(ParseError::Structure(err)),
        }
    }

    /// Parses a complete input as a `directive_open`.
    pub fn parse_directive_open(s: &[u8]) -> (r: Result<Directive, ParseError>)
        requires
            s@.len() < usize::MAX,
        ensures
            match r {
                Ok(d) => grammar::directive_open(s@, 0) == Some(s@.len() as int) && d@
                    == grammar::directive_at(s@, 0),
                Err(ParseError::Syntax(e)) => grammar::directive_open(s@, 0) != Some(
                    s@.len() as int,
                ) && e.position.line == grammar::line_of(
                    s@,
                    whole_input_fail(grammar::directive_open(s@, 0), directive_open_fail(s@, 0)).at,
                ) && e.position.col == grammar::col_of(
                    s@,
                    whole_input_fail(grammar::directive_open(s@, 0), directive_open_fail(s@, 0)).at,
                ) && e.expected@ == whole_input_fail(
                    grammar::directive_open(s@, 0),
                    directive_open_fail(s@, 0),
                ).expected,
                Err(ParseError::Structure(_)) => false,
            },
    {
        let end = match m_directive_open(s, 0) {
            Ok(e) => e,
            Err(f) => return Err(ParseError::Syntax(crate::ledger_builder::to_syntax(s, f))),
        };
        if end != s.len() {
            return Err(
                ParseError::Syntax(crate::ledger_builder::to_syntax(s, fail_at(end, Rule::Eoi))),
            );
        }
        match crate::ledger_builder::build_directive(s, 0) {
            Ok(d) => Ok(d),
            Err(err) => Err(ParseError::Structure(err)),
        }
    }

    /// Parses a complete input as a `directive_close`.
    pub fn parse_directive_close(s: &[u8]) -> (r: Result<Directive, ParseError>)
        requires
            s@.len() < usize::MAX,
        ensures
            match r {
                Ok(d) => grammar::directive_close(s@, 0) == Some(s@.len() as int) && d@
                    == grammar::directive_at(s@, 0),
                Err(ParseError::Syntax(e)) => grammar::directive_close(s@, 0) != Some(
                    s@.len() as int,
                ) && e.position.line == grammar::line_of(
                    s@,
                    whole_input_fail(grammar::directive_close(s@, 0), directive_close_fail(s@, 0)).at,
                ) && e.position.col == grammar::col_of(
                    s@,
                    whole_input_fail(grammar::directive_close(s@, 0), directive_close_fail(s@, 0)).at,
                ) && e.expected@ == whole_input_fail(
                    grammar::directive_close(s@, 0),
                    directive_close_fail(s@, 0),
                ).expected,
                Err(ParseError::Structure(_)) => false,
            },
    {
        let end = match m_directive_close(s, 0) {
            Ok(e) => e,
            Err(f) => return Err(ParseError::Syntax(crate::ledger_builder::to_syntax(s, f))),
        };
        if end != s.len() {
            return Err(
                ParseError::Syntax(crate::ledger_builder::to_syntax(s, fail_at(end, Rule::Eoi))),
            );
        }
        match crate::ledger_builder::build_directive(s, 0) {
            Ok(d) => Ok(d),
            Err(err) => Err(ParseError::Structure(err)),
        }
    }

    /// Parses a complete input as a `directive_commodity`.
    pub fn parse_directive_commodity(s: &[u8]) -> (r: Result<Directive, ParseError>)
        requires
            s@.len() < usize::MAX,
        ensures
            match r {
                Ok(d) => grammar::directive_commodity(s@, 0) == Some(s@.len() as int) && d@
                    == grammar::directive_at(s@, 0),
                Err(ParseError::Syntax(e)) => grammar::directive_commodity(s@, 0) != Some(
                    s@.len() as int,
                ) && e.position.line == grammar::line_of(
                    s@,
                    whole_input_fail(grammar::directive_commodity(s@, 0), directive_commodity_fail(s@, 0)).at,
                ) && e.position.col == grammar::col_of(
                    s@,
                    whole_input_fail(grammar::directive_commodity(s@, 0), directive_commodity_fail(s@, 0)).at,
                ) && e.expected@ == whole_input_fail(
                    grammar::directive_commodity(s@, 0),
                    directive_commodity_fail(s@, 0),
                ).expected,
                Err(ParseError::Structure(_)) => false,
            },
    {
        let end = match m_directive_commodity(s, 0) {
            Ok(e) => e,
            Err(f) => return Err(ParseError::Syntax(crate::ledger_builder::to_syntax(s, f))),
        };
        if end != s.len() {
            return Err(
                ParseError::Syntax(crate::ledger_builder::to_syntax(s, fail_at(end, Rule::Eoi))),
            );
        }
        match crate::ledger_builder::build_directive(s, 0) {
            Ok(d) => Ok(d),
            Err(err) => Err(ParseError::Structure(err)),
        }
    }

    /// Parses a complete input as a `balance_directive`.
    pub fn parse_balance_directive(s: &[u8]) -> (r: Result<Directive, ParseError>)
        requires
            s@.len() < usize::MAX,
        ensures
            match r {
                Ok(d) => grammar::balance_directive(s@, 0) == Some(s@.len() as int) && d@
                    == grammar::directive_at(s@, 0) && grammar::directive_fits(s@, 0),
                Err(ParseError::Syntax(e)) => grammar::balance_directive(s@, 0) != Some(
                    s@.len() as int,
                ) && e.position.line == grammar::line_of(
                    s@,
                    whole_input_fail(grammar::balance_directive(s@, 0), balance_directive_fail(s@, 0)).at,
                ) && e.position.col == grammar::col_of(
                    s@,
                    whole_input_fail(grammar::balance_directive(s@, 0), balance_directive_fail(s@, 0)).at,
                ) && e.expected@ == whole_input_fail(
                    grammar::balance_directive(s@, 0),
                    balance_directive_fail(s@, 0),
                ).expected,
                Err(ParseError::Structure(_)) => grammar::balance_directive(s@, 0) == Some(
                    s@.len() as int,
                ) && !grammar::directive_fits(s@, 0),
            },
    {
        let end = match m_balance_directive(s, 0) {
            Ok(e) => e,
            Err(f) => return Err(ParseError::Syntax(crate::ledger_builder::to_syntax(s, f))),
        };
        if end != s.len() {
            return Err(
                ParseError::Syntax(crate::ledger_builder::to_syntax(s, fail_at(end, Rule::Eoi))),
            );
        }
        match crate::ledger_builder::build_directive(s, 0) {
            Ok(d) => Ok(d),
            Err(err) => Err(ParseError::Structure(err)),
        }
    }
}

} // verus!
