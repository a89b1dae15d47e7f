//! The grammar: every lexical and syntactic rule of the ledger
//! language, written as pure specification functions.
//!
//! A rule function takes the input bytes and a start offset and
//! returns `Some(end)` when the rule matches exactly the bytes
//! `[i, end)`, or `None` when it does not match at `i`. Matching is
//! deterministic: ordered choice (the first alternative that matches
//! wins) and greedy repetition, and a committed sub-match is never
//! re-tried. The whole-document rule consumes the input to its end or
//! fails.
//!
//! Beside the rules stand the extraction functions (`..._at`): for a
//! rule that maps onto a record they read the matched bytes back as a
//! mathematical value. An extraction is meaningful only at an offset
//! where its rule matches.

use vstd::prelude::*;

use crate::parsed_ledger::EntryV;
use crate::raw_transaction::AccountV;
use crate::raw_transaction::Annotation;
use crate::raw_transaction::DateV;
use crate::raw_transaction::DecimalV;
use crate::raw_transaction::DirectiveV;
use crate::raw_transaction::PostingV;
use crate::raw_transaction::TransactionV;

verus! {

// Byte values of the characters the grammar tests for.
pub const NL: u8 = 10;

pub const TAB: u8 = 9;

pub const SP: u8 = 32;

pub const DQUOTE: u8 = 34;

pub const BANG: u8 = 33;

pub const STAR: u8 = 42;

pub const MINUS: u8 = 45;

pub const DOT: u8 = 46;

pub const COLON: u8 = 58;

pub const SEMI: u8 = 59;


// ---------------------------------------------------------------
// Character classes
// ---------------------------------------------------------------

/// ASCII decimal digit.
pub open spec fn is_digit(b: u8) -> bool {
    48 <= b && b <= 57
}

/// ASCII alphabetic character.
pub open spec fn is_alpha(b: u8) -> bool {
    (97 <= b && b <= 122) || (65 <= b && b <= 90)
}

/// ASCII alphanumeric character.
pub open spec fn is_alnum(b: u8) -> bool {
    is_digit(b) || is_alpha(b)
}

/// Intra-line whitespace: space or tab. The line terminator is not
/// blank.
pub open spec fn is_blank(b: u8) -> bool {
    b == SP || b == TAB
}

/// Characters a comment may hold: anything but the line terminator.
pub open spec fn is_comment_byte(b: u8) -> bool {
    b != NL
}

/// Characters a quoted description may hold: anything but the closing
/// quote and the line terminator.
pub open spec fn is_description_byte(b: u8) -> bool {
    b != DQUOTE && b != NL
}

// ---------------------------------------------------------------
// Greedy runs
// ---------------------------------------------------------------

/// First offset at or after `i` whose byte does not satisfy `p`
/// (or the end of the input): the end of the greedy run of `p`.
pub open spec fn run_end(s: Seq<u8>, i: int, p: spec_fn(u8) -> bool) -> int
    decreases s.len() - i,
{
    if 0 <= i && i < s.len() && p(s[i]) {
        run_end(s, i + 1, p)
    } else {
        i
    }
}

pub open spec fn digit_run_end(s: Seq<u8>, i: int) -> int {
    run_end(s, i, |b: u8| is_digit(b))
}

pub open spec fn alnum_run_end(s: Seq<u8>, i: int) -> int {
    run_end(s, i, |b: u8| is_alnum(b))
}

pub open spec fn alpha_run_end(s: Seq<u8>, i: int) -> int {
    run_end(s, i, |b: u8| is_alpha(b))
}

pub open spec fn blank_run_end(s: Seq<u8>, i: int) -> int {
    run_end(s, i, |b: u8| is_blank(b))
}

pub open spec fn comment_run_end(s: Seq<u8>, i: int) -> int {
    run_end(s, i, |b: u8| is_comment_byte(b))
}

pub open spec fn description_run_end(s: Seq<u8>, i: int) -> int {
    run_end(s, i, |b: u8| is_description_byte(b))
}

/// What `run_end` returns: the run is within bounds, every byte in it
/// satisfies `p`, and the run stops at the first byte that does not.
pub proof fn lemma_run_end(s: Seq<u8>, i: int, p: spec_fn(u8) -> bool)
    requires
        0 <= i <= s.len(),
    ensures
        i <= run_end(s, i, p) <= s.len(),
        forall|j: int| i <= j < run_end(s, i, p) ==> p(s[j]),
        run_end(s, i, p) < s.len() ==> !p(s[run_end(s, i, p)]),
    decreases s.len() - i,
{
    if i < s.len() && p(s[i]) {
        lemma_run_end(s, i + 1, p);
    }
}

/// The converse: an offset with those three properties is the run
/// end, so the greedy run is the unique maximal one.
pub proof fn lemma_run_end_is(s: Seq<u8>, i: int, j: int, p: spec_fn(u8) -> bool)
    requires
        0 <= i <= j <= s.len(),
        forall|k: int| i <= k < j ==> p(s[k]),
        j < s.len() ==> !p(s[j]),
    ensures
        run_end(s, i, p) == j,
    decreases j - i,
{
    if i < j {
        assert(p(s[i]));
        lemma_run_end_is(s, i + 1, j, p);
    }
}

// ---------------------------------------------------------------
// Source positions
// ---------------------------------------------------------------

/// 1-based line number of the byte at offset `i`.
pub open spec fn line_of(s: Seq<u8>, i: int) -> int
    decreases i,
{
    if i <= 0 {
        1
    } else {
        line_of(s, i - 1) + if s[i - 1] == NL {
            1int
        } else {
            0int
        }
    }
}

/// 1-based column number of the byte at offset `i`.
pub open spec fn col_of(s: Seq<u8>, i: int) -> int
    decreases i,
{
    if i <= 0 {
        1
    } else if s[i - 1] == NL {
        1
    } else {
        col_of(s, i - 1) + 1
    }
}

// ---------------------------------------------------------------
// Lexical rules
// ---------------------------------------------------------------

/// `WS+`: one or more blanks.
pub open spec fn ws_plus(s: Seq<u8>, i: int) -> Option<int> {
    let e = blank_run_end(s, i);
    if e > i {
        Some(e)
    } else {
        None
    }
}

/// `decimal_value`: optional `-` bound directly to the digits, a
/// mandatory one-or-more-digit integer part, a literal `.`, and a
/// mandatory one-or-more-digit fractional part.
pub open spec fn decimal_value(s: Seq<u8>, i: int) -> Option<int> {
    let p = if i < s.len() && s[i] == MINUS {
        i + 1
    } else {
        i
    };
    let d = digit_run_end(s, p);
    if p < d && d < s.len() && s[d] == DOT {
        let f = digit_run_end(s, d + 1);
        if d + 1 < f {
            Some(f)
        } else {
            None
        }
    } else {
        None
    }
}

/// Positional value of the digit string `s[i..j)`.
pub open spec fn digits_val(s: Seq<u8>, i: int, j: int) -> int
    decreases j - i,
{
    if i < j {
        digits_val(s, i, j - 1) * 10 + (s[j - 1] - 48)
    } else {
        0
    }
}

pub open spec fn pow10(n: int) -> int
    decreases n,
{
    if n <= 0 {
        1
    } else {
        10 * pow10(n - 1)
    }
}

/// A two-digit group read positionally.
pub proof fn lemma_digits_val_2(s: Seq<u8>, a: int)
    ensures
        digits_val(s, a, a + 2) == (s[a] - 48) * 10 + (s[a + 1] - 48),
{
    assert(digits_val(s, a, a) == 0);
    assert(digits_val(s, a, a + 1) == digits_val(s, a, a) * 10 + (s[a] - 48));
    assert(digits_val(s, a, a + 2) == digits_val(s, a, a + 1) * 10 + (s[a + 1] - 48));
}

/// A four-digit group read positionally.
pub proof fn lemma_digits_val_4(s: Seq<u8>, a: int)
    ensures
        digits_val(s, a, a + 4) == (s[a] - 48) * 1000 + (s[a + 1] - 48) * 100 + (s[a + 2] - 48)
            * 10 + (s[a + 3] - 48),
{
    lemma_digits_val_2(s, a);
    assert(digits_val(s, a, a + 3) == digits_val(s, a, a + 2) * 10 + (s[a + 2] - 48));
    assert(digits_val(s, a, a + 4) == digits_val(s, a, a + 3) * 10 + (s[a + 3] - 48));
}

/// Digit strings denote non-negative values.
pub proof fn lemma_digits_val_nonneg(s: Seq<u8>, i: int, j: int)
    requires
        forall|k: int| i <= k < j ==> is_digit(#[trigger] s[k]),
    ensures
        digits_val(s, i, j) >= 0,
    decreases j - i,
{
    if i < j {
        lemma_digits_val_nonneg(s, i, j - 1);
        assert(is_digit(s[j - 1]));
    }
}

pub proof fn lemma_pow10_pos(n: int)
    ensures
        pow10(n) >= 1,
    decreases n,
{
    if n > 0 {
        lemma_pow10_pos(n - 1);
    }
}

/// Splitting a digit string: the high digits shift by a power of ten.
pub proof fn lemma_digits_val_split(s: Seq<u8>, i: int, k: int, j: int)
    requires
        i <= k <= j,
    ensures
        digits_val(s, i, j) == digits_val(s, i, k) * pow10(j - k) + digits_val(s, k, j),
    decreases j - k,
{
    if k < j {
        lemma_digits_val_split(s, i, k, j - 1);
        lemma_pow10_pos(j - 1 - k);
        assert(pow10(j - k) == 10 * pow10(j - k - 1));
        assert(digits_val(s, i, j) == digits_val(s, i, j - 1) * 10 + (s[j - 1] - 48));
        assert(digits_val(s, i, k) * pow10(j - k - 1) * 10 == digits_val(s, i, k) * pow10(j - k))
            by (nonlinear_arith)
            requires
                pow10(j - k) == 10 * pow10(j - k - 1),
        ;
        assert((digits_val(s, i, k) * pow10(j - k - 1) + digits_val(s, k, j - 1)) * 10 == digits_val(
            s,
            i,
            k,
        ) * pow10(j - k - 1) * 10 + digits_val(s, k, j - 1) * 10) by (nonlinear_arith);
    } else {
        assert(pow10(j - k) == 1);
        assert(digits_val(s, k, j) == 0);
    }
}

/// The amount a matched `decimal_value` denotes, exactly: sign, the
/// digits of both parts as one mantissa, and the count of fractional
/// digits as the scale.
pub open spec fn decimal_at(s: Seq<u8>, i: int) -> DecimalV {
    let neg = i < s.len() && s[i] == MINUS;
    let p = if neg {
        i + 1
    } else {
        i
    };
    let d = digit_run_end(s, p);
    let f = digit_run_end(s, d + 1);
    DecimalV {
        neg,
        mantissa: digits_val(s, p, d) * pow10(f - (d + 1)) + digits_val(s, d + 1, f),
        scale: f - (d + 1),
    }
}

/// `iso8601_date_extended`: exactly `YYYY-MM-DD`, atomic (no internal
/// whitespace), 4-digit year with year 0000 rejected, month `01..12`,
/// day `01..31`.
pub open spec fn iso8601_date_extended(s: Seq<u8>, i: int) -> Option<int> {
    if i + 10 <= s.len() && is_digit(s[i]) && is_digit(s[i + 1]) && is_digit(s[i + 2]) && is_digit(
        s[i + 3],
    ) && s[i + 4] == MINUS && is_digit(s[i + 5]) && is_digit(s[i + 6]) && s[i + 7] == MINUS
        && is_digit(s[i + 8]) && is_digit(s[i + 9]) && 1 <= digits_val(s, i, i + 4) && 1
        <= digits_val(s, i + 5, i + 7) <= 12 && 1 <= digits_val(s, i + 8, i + 10) <= 31 {
        Some(i + 10)
    } else {
        None
    }
}

/// The calendar date a matched date rule denotes.
pub open spec fn date_at(s: Seq<u8>, i: int) -> DateV {
    DateV {
        year: digits_val(s, i, i + 4),
        month: digits_val(s, i + 5, i + 7),
        day: digits_val(s, i + 8, i + 10),
    }
}

/// `top_level_acct`: an alphabetic character, then alphanumerics.
pub open spec fn top_level_acct(s: Seq<u8>, i: int) -> Option<int> {
    if i < s.len() && is_alpha(s[i]) {
        Some(alnum_run_end(s, i + 1))
    } else {
        None
    }
}

/// `sub_acct`: one or more alphanumerics; may start with a digit.
pub open spec fn sub_acct(s: Seq<u8>, i: int) -> Option<int> {
    if i < s.len() && is_alnum(s[i]) {
        Some(alnum_run_end(s, i + 1))
    } else {
        None
    }
}

/// End of the greedy `(':' sub_acct)*` repetition that starts at `i`.
/// A trailing `:` without a following segment is left unconsumed, so
/// a descriptor never ends with a separator.
pub open spec fn acct_tail_end(s: Seq<u8>, i: int) -> int
    decreases s.len() - i,
{
    if 0 <= i && i < s.len() && s[i] == COLON && i + 1 < s.len() && is_alnum(s[i + 1]) {
        let e = alnum_run_end(s, i + 1);
        if i + 1 < e && e <= s.len() {
            acct_tail_end(s, e)
        } else {
            i
        }
    } else {
        i
    }
}

/// `acct_descriptor`: `top_level_acct (':' sub_acct)*`.
pub open spec fn acct_descriptor(s: Seq<u8>, i: int) -> Option<int> {
    match top_level_acct(s, i) {
        Some(e0) => Some(acct_tail_end(s, e0)),
        None => None,
    }
}

/// The segments the `(':' sub_acct)*` repetition at `i` contributes.
pub open spec fn acct_tail_path(s: Seq<u8>, i: int) -> Seq<Seq<u8>>
    decreases s.len() - i,
{
    if 0 <= i && i < s.len() && s[i] == COLON && i + 1 < s.len() && is_alnum(s[i + 1]) {
        let e = alnum_run_end(s, i + 1);
        if i + 1 < e && e <= s.len() {
            seq![s.subrange(i + 1, e)] + acct_tail_path(s, e)
        } else {
            seq![]
        }
    } else {
        seq![]
    }
}

/// The segment path a matched `acct_descriptor` denotes.
pub open spec fn acct_path_at(s: Seq<u8>, i: int) -> Seq<Seq<u8>> {
    let e0 = alnum_run_end(s, i + 1);
    seq![s.subrange(i, e0)] + acct_tail_path(s, e0)
}

/// `currency`: a commodity symbol, one or more alphabetic characters.
pub open spec fn currency(s: Seq<u8>, i: int) -> Option<int> {
    if i < s.len() && is_alpha(s[i]) {
        Some(alpha_run_end(s, i + 1))
    } else {
        None
    }
}

/// `comment`: `;` and everything up to (not including) the line
/// terminator or the end of the input.
pub open spec fn comment(s: Seq<u8>, i: int) -> Option<int> {
    if i < s.len() && s[i] == SEMI {
        Some(comment_run_end(s, i + 1))
    } else {
        None
    }
}

/// `comment_or_newline`: optional trailing blanks, an optional
/// comment, then the line terminator — or the end of the input when
/// this is the final line.
pub open spec fn comment_or_newline(s: Seq<u8>, i: int) -> Option<int> {
    let b = blank_run_end(s, i);
    let c = if b < s.len() && s[b] == SEMI {
        comment_run_end(s, b + 1)
    } else {
        b
    };
    if c == s.len() {
        Some(c)
    } else if s[c] == NL {
        Some(c + 1)
    } else {
        None
    }
}

/// The comment text (after `;`) of the line ending at `i`, if the
/// line has one.
pub open spec fn line_comment_at(s: Seq<u8>, i: int) -> Option<Seq<u8>> {
    let b = blank_run_end(s, i);
    if b < s.len() && s[b] == SEMI {
        Some(s.subrange(b + 1, comment_run_end(s, b + 1)))
    } else {
        None
    }
}

/// `empty_line`: a whitespace-only line with its line break.
pub open spec fn empty_line(s: Seq<u8>, i: int) -> Option<int> {
    let b = blank_run_end(s, i);
    if b < s.len() && s[b] == NL {
        Some(b + 1)
    } else {
        None
    }
}

// ---------------------------------------------------------------
// Transactions
// ---------------------------------------------------------------

/// `trans_annotation`: one of the fixed marker set `!` / `*`.
pub open spec fn trans_annotation(s: Seq<u8>, i: int) -> Option<int> {
    if i < s.len() && (s[i] == BANG || s[i] == STAR) {
        Some(i + 1)
    } else {
        None
    }
}

/// The marker a matched annotation denotes.
pub open spec fn annotation_at(s: Seq<u8>, i: int) -> Annotation {
    if s[i] == BANG {
        Annotation::Pending
    } else {
        Annotation::Cleared
    }
}

/// `trans_description`: a double-quoted single-line text that holds
/// at least one non-blank character (quoting an empty or
/// whitespace-only string is a syntax error).
pub open spec fn trans_description(s: Seq<u8>, i: int) -> Option<int> {
    if i < s.len() && s[i] == DQUOTE {
        let e = description_run_end(s, i + 1);
        if e < s.len() && s[e] == DQUOTE && (exists|j: int| i + 1 <= j < e && !is_blank(s[j])) {
            Some(e + 1)
        } else {
            None
        }
    } else {
        None
    }
}

/// `trans_header`: `date WS+ annotation WS+ description
/// comment_or_newline`.
pub open spec fn trans_header(s: Seq<u8>, i: int) -> Option<int> {
    match iso8601_date_extended(s, i) {
        None => None,
        Some(e1) => match ws_plus(s, e1) {
            None => None,
            Some(e2) => match trans_annotation(s, e2) {
                None => None,
                Some(e3) => match ws_plus(s, e3) {
                    None => None,
                    Some(e4) => match trans_description(s, e4) {
                        None => None,
                        Some(e5) => comment_or_newline(s, e5),
                    },
                },
            },
        },
    }
}

/// `posting_indent`: exactly two spaces, or exactly one tab. Any
/// other leading-whitespace combination is rejected by the rules that
/// follow the indent.
pub open spec fn posting_indent(s: Seq<u8>, i: int) -> Option<int> {
    if i + 2 <= s.len() && s[i] == SP && s[i + 1] == SP {
        Some(i + 2)
    } else if i < s.len() && s[i] == TAB {
        Some(i + 1)
    } else {
        None
    }
}

/// `posting_basic`: `posting_indent acct_descriptor WS+ decimal_value
/// comment_or_newline`.
pub open spec fn posting_basic(s: Seq<u8>, i: int) -> Option<int> {
    match posting_indent(s, i) {
        None => None,
        Some(e1) => match acct_descriptor(s, e1) {
            None => None,
            Some(e2) => match ws_plus(s, e2) {
                None => None,
                Some(e3) => match decimal_value(s, e3) {
                    None => None,
                    Some(e4) => comment_or_newline(s, e4),
                },
            },
        },
    }
}

/// Offset of the amount inside a matched posting.
pub open spec fn posting_value_off(s: Seq<u8>, i: int) -> int {
    let e1 = posting_indent(s, i)->Some_0;
    let e2 = acct_descriptor(s, e1)->Some_0;
    blank_run_end(s, e2)
}

/// The record a matched posting denotes.
pub open spec fn posting_at(s: Seq<u8>, i: int) -> PostingV {
    let e1 = posting_indent(s, i)->Some_0;
    let e2 = acct_descriptor(s, e1)->Some_0;
    let e3 = blank_run_end(s, e2);
    let e4 = decimal_value(s, e3)->Some_0;
    PostingV {
        acct: AccountV { path: acct_path_at(s, e1), line: line_of(s, e1), col: col_of(s, e1) },
        value: decimal_at(s, e3),
        comment: line_comment_at(s, e4),
        line: line_of(s, i),
        col: col_of(s, i),
    }
}

/// End of the greedy `(posting_basic)+` repetition at `i`, given the
/// first posting matches.
pub open spec fn postings_end(s: Seq<u8>, i: int) -> int
    decreases s.len() - i,
{
    match posting_basic(s, i) {
        Some(e) => if i < e && e <= s.len() {
            postings_end(s, e)
        } else {
            i
        },
        None => i,
    }
}

/// The postings of the repetition at `i`, in document order.
pub open spec fn postings_at(s: Seq<u8>, i: int) -> Seq<PostingV>
    decreases s.len() - i,
{
    match posting_basic(s, i) {
        Some(e) => if i < e && e <= s.len() {
            seq![posting_at(s, i)] + postings_at(s, e)
        } else {
            seq![]
        },
        None => seq![],
    }
}

/// `transaction_block`: `trans_header (posting_basic)+` — a header
/// with zero postings is a syntax error.
pub open spec fn transaction_block(s: Seq<u8>, i: int) -> Option<int> {
    match trans_header(s, i) {
        None => None,
        Some(e) => match posting_basic(s, e) {
            None => None,
            Some(_) => Some(postings_end(s, e)),
        },
    }
}

/// The record a matched transaction block denotes.
pub open spec fn transaction_at(s: Seq<u8>, i: int) -> TransactionV {
    let e1 = i + 10;
    let e2 = blank_run_end(s, e1);
    let e3 = e2 + 1;
    let e4 = blank_run_end(s, e3);
    let dq = description_run_end(s, e4 + 1);
    let e5 = dq + 1;
    let hdr_end = comment_or_newline(s, e5)->Some_0;
    TransactionV {
        date: date_at(s, i),
        anno: annotation_at(s, e2),
        desc: s.subrange(e4 + 1, dq),
        postings: postings_at(s, hdr_end),
        comment: line_comment_at(s, e5),
        line: line_of(s, i),
        col: col_of(s, i),
    }
}

// ---------------------------------------------------------------
// Directives
// ---------------------------------------------------------------

pub open spec fn kw_open_at(s: Seq<u8>, i: int) -> bool {
    i + 4 <= s.len() && s[i] == 111 && s[i + 1] == 112 && s[i + 2] == 101 && s[i + 3] == 110
}

pub open spec fn kw_close_at(s: Seq<u8>, i: int) -> bool {
    i + 5 <= s.len() && s[i] == 99 && s[i + 1] == 108 && s[i + 2] == 111 && s[i + 3] == 115
        && s[i + 4] == 101
}

/// The canonical keyword of the commodity directive is `commodity`.
pub open spec fn kw_commodity_at(s: Seq<u8>, i: int) -> bool {
    i + 9 <= s.len() && s[i] == 99 && s[i + 1] == 111 && s[i + 2] == 109 && s[i + 3] == 109
        && s[i + 4] == 111 && s[i + 5] == 100 && s[i + 6] == 105 && s[i + 7] == 116 && s[i + 8]
        == 121
}

pub open spec fn kw_balance_at(s: Seq<u8>, i: int) -> bool {
    i + 7 <= s.len() && s[i] == 98 && s[i + 1] == 97 && s[i + 2] == 108 && s[i + 3] == 97
        && s[i + 4] == 110 && s[i + 5] == 99 && s[i + 6] == 101
}

/// `directive_open`: `date WS+ "open" WS+ acct_descriptor
/// comment_or_newline`.
pub open spec fn directive_open(s: Seq<u8>, i: int) -> Option<int> {
    match iso8601_date_extended(s, i) {
        None => None,
        Some(e1) => match ws_plus(s, e1) {
            None => None,
            Some(e2) => if kw_open_at(s, e2) {
                match ws_plus(s, e2 + 4) {
                    None => None,
                    Some(e3) => match acct_descriptor(s, e3) {
                        None => None,
                        Some(e4) => comment_or_newline(s, e4),
                    },
                }
            } else {
                None
            },
        },
    }
}

/// `directive_close`: `date WS+ "close" WS+ acct_descriptor
/// comment_or_newline`.
pub open spec fn directive_close(s: Seq<u8>, i: int) -> Option<int> {
    match iso8601_date_extended(s, i) {
        None => None,
        Some(e1) => match ws_plus(s, e1) {
            None => None,
            Some(e2) => if kw_close_at(s, e2) {
                match ws_plus(s, e2 + 5) {
                    None => None,
                    Some(e3) => match acct_descriptor(s, e3) {
                        None => None,
                        Some(e4) => comment_or_newline(s, e4),
                    },
                }
            } else {
                None
            },
        },
    }
}

/// `directive_commodity`: `date WS+ "commodity" WS+ currency
/// comment_or_newline`.
pub open spec fn directive_commodity(s: Seq<u8>, i: int) -> Option<int> {
    match iso8601_date_extended(s, i) {
        None => None,
        Some(e1) => match ws_plus(s, e1) {
            None => None,
            Some(e2) => if kw_commodity_at(s, e2) {
                match ws_plus(s, e2 + 9) {
                    None => None,
                    Some(e3) => match currency(s, e3) {
                        None => None,
                        Some(e4) => comment_or_newline(s, e4),
                    },
                }
            } else {
                None
            },
        },
    }
}

/// `balance_directive`: `date WS+ "balance" WS+ acct_descriptor WS+
/// decimal_value WS+ currency comment_or_newline`.
pub open spec fn balance_directive(s: Seq<u8>, i: int) -> Option<int> {
    match iso8601_date_extended(s, i) {
        None => None,
        Some(e1) => match ws_plus(s, e1) {
            None => None,
            Some(e2) => if kw_balance_at(s, e2) {
                match ws_plus(s, e2 + 7) {
                    None => None,
                    Some(e3) => match acct_descriptor(s, e3) {
                        None => None,
                        Some(e4) => match ws_plus(s, e4) {
                            None => None,
                            Some(e5) => match decimal_value(s, e5) {
                                None => None,
                                Some(e6) => match ws_plus(s, e6) {
                                    None => None,
                                    Some(e7) => match currency(s, e7) {
                                        None => None,
                                        Some(e8) => comment_or_newline(s, e8),
                                    },
                                },
                            },
                        },
                    },
                }
            } else {
                None
            },
        },
    }
}

/// `directives`: ordered choice over the four directive rules.
pub open spec fn directives(s: Seq<u8>, i: int) -> Option<int> {
    if directive_open(s, i) is Some {
        directive_open(s, i)
    } else if directive_close(s, i) is Some {
        directive_close(s, i)
    } else if directive_commodity(s, i) is Some {
        directive_commodity(s, i)
    } else {
        balance_directive(s, i)
    }
}

/// Offset of the amount inside a matched balance directive.
pub open spec fn balance_value_off(s: Seq<u8>, i: int) -> int {
    let e2 = blank_run_end(s, i + 10);
    let e3 = blank_run_end(s, e2 + 7);
    let e4 = acct_descriptor(s, e3)->Some_0;
    blank_run_end(s, e4)
}

/// The record a matched directive (by the ordered choice) denotes.
pub open spec fn directive_at(s: Seq<u8>, i: int) -> DirectiveV {
    let date = date_at(s, i);
    let line = line_of(s, i);
    let col = col_of(s, i);
    let e2 = blank_run_end(s, i + 10);
    if directive_open(s, i) is Some {
        let e3 = blank_run_end(s, e2 + 4);
        DirectiveV::Open { date, path: acct_path_at(s, e3), line, col }
    } else if directive_close(s, i) is Some {
        let e3 = blank_run_end(s, e2 + 5);
        DirectiveV::Close { date, path: acct_path_at(s, e3), line, col }
    } else if directive_commodity(s, i) is Some {
        let e3 = blank_run_end(s, e2 + 9);
        DirectiveV::Commodity { date, symbol: s.subrange(e3, alpha_run_end(s, e3 + 1)), line, col }
    } else {
        let e3 = blank_run_end(s, e2 + 7);
        let e4 = acct_descriptor(s, e3)->Some_0;
        let e5 = blank_run_end(s, e4);
        let e6 = decimal_value(s, e5)->Some_0;
        let e7 = blank_run_end(s, e6);
        DirectiveV::Balance {
            date,
            path: acct_path_at(s, e3),
            amount: decimal_at(s, e5),
            currency: s.subrange(e7, alpha_run_end(s, e7 + 1)),
            line,
            col,
        }
    }
}

// ---------------------------------------------------------------
// The whole document
// ---------------------------------------------------------------

/// One step of the whole-document rule: ordered choice over
/// comment-or-newline, empty line, directive, transaction block.
pub open spec fn ledger_step(s: Seq<u8>, i: int) -> Option<int> {
    if comment_or_newline(s, i) is Some {
        comment_or_newline(s, i)
    } else if empty_line(s, i) is Some {
        empty_line(s, i)
    } else if directives(s, i) is Some {
        directives(s, i)
    } else {
        transaction_block(s, i)
    }
}

/// `ledger`: the repetition of steps followed by the end of input.
/// `Some` is returned only with the input's length: a document either
/// matches whole or fails.
pub open spec fn ledger(s: Seq<u8>, i: int) -> Option<int>
    decreases s.len() - i,
{
    if i >= s.len() {
        Some(i)
    } else {
        match ledger_step(s, i) {
            Some(e) => if i < e && e <= s.len() {
                ledger(s, e)
            } else {
                None
            },
            None => None,
        }
    }
}

/// The entries of the document from offset `i` on, in document order.
/// Comment lines and empty lines contribute nothing.
pub open spec fn ledger_entries(s: Seq<u8>, i: int) -> Seq<EntryV>
    decreases s.len() - i,
{
    if i >= s.len() {
        seq![]
    } else if comment_or_newline(s, i) is Some {
        let e = comment_or_newline(s, i)->Some_0;
        if i < e && e <= s.len() {
            ledger_entries(s, e)
        } else {
            seq![]
        }
    } else if empty_line(s, i) is Some {
        let e = empty_line(s, i)->Some_0;
        if i < e && e <= s.len() {
            ledger_entries(s, e)
        } else {
            seq![]
        }
    } else if directives(s, i) is Some {
        let e = directives(s, i)->Some_0;
        if i < e && e <= s.len() {
            seq![EntryV::Directive(directive_at(s, i))] + ledger_entries(s, e)
        } else {
            seq![]
        }
    } else if transaction_block(s, i) is Some {
        let e = transaction_block(s, i)->Some_0;
        if i < e && e <= s.len() {
            seq![EntryV::Transaction(transaction_at(s, i))] + ledger_entries(s, e)
        } else {
            seq![]
        }
    } else {
        seq![]
    }
}

// ---------------------------------------------------------------
// Amount bounds
// ---------------------------------------------------------------

/// Whether the amount at a matched `decimal_value` fits the
/// executable mantissa type.
pub open spec fn decimal_fits(s: Seq<u8>, i: int) -> bool {
    decimal_at(s, i).mantissa <= u64::MAX as int
}

/// All amounts of the `(posting_basic)+` repetition at `i` fit.
pub open spec fn postings_fit(s: Seq<u8>, i: int) -> bool
    decreases s.len() - i,
{
    match posting_basic(s, i) {
        Some(e) => if i < e && e <= s.len() {
            decimal_fits(s, posting_value_off(s, i)) && postings_fit(s, e)
        } else {
            true
        },
        None => true,
    }
}

/// The amount of the matched directive at `i` fits (only the balance
/// directive carries one).
pub open spec fn directive_fits(s: Seq<u8>, i: int) -> bool {
    if directive_open(s, i) is Some || directive_close(s, i) is Some || directive_commodity(
        s,
        i,
    ) is Some {
        true
    } else {
        decimal_fits(s, balance_value_off(s, i))
    }
}

/// All amounts of the matched transaction block at `i` fit.
pub open spec fn transaction_fits(s: Seq<u8>, i: int) -> bool {
    postings_fit(s, trans_header(s, i)->Some_0)
}

/// All amounts of the matched entry at `i` fit.
pub open spec fn entry_fits(s: Seq<u8>, i: int) -> bool {
    if comment_or_newline(s, i) is Some || empty_line(s, i) is Some {
        true
    } else if directives(s, i) is Some {
        directive_fits(s, i)
    } else {
        transaction_fits(s, i)
    }
}

/// All amounts of the document from `i` on fit the executable types.
pub open spec fn ledger_fits(s: Seq<u8>, i: int) -> bool
    decreases s.len() - i,
{
    if i >= s.len() {
        true
    } else {
        match ledger_step(s, i) {
            Some(e) => if i < e && e <= s.len() {
                entry_fits(s, i) && ledger_fits(s, e)
            } else {
                true
            },
            None => true,
        }
    }
}

/// Offset of the first amount of the repetition at `i` that does not
/// fit, in document order. Meaningful only where one does not fit.
pub open spec fn postings_overflow_at(s: Seq<u8>, i: int) -> int
    decreases s.len() - i,
{
    match posting_basic(s, i) {
        Some(e) => if i < e && e <= s.len() {
            if !decimal_fits(s, posting_value_off(s, i)) {
                posting_value_off(s, i)
            } else {
                postings_overflow_at(s, e)
            }
        } else {
            i
        },
        None => i,
    }
}

/// Offset of the first amount of the matched entry at `i` that does
/// not fit. Meaningful only where the entry has one.
pub open spec fn entry_overflow_at(s: Seq<u8>, i: int) -> int {
    if directives(s, i) is Some {
        balance_value_off(s, i)
    } else {
        postings_overflow_at(s, trans_header(s, i)->Some_0)
    }
}

/// Offset of the first amount of the document from `i` on that does
/// not fit, in document order. Meaningful only where one does not fit.
pub open spec fn ledger_overflow_at(s: Seq<u8>, i: int) -> int
    decreases s.len() - i,
{
    if i >= s.len() {
        i
    } else {
        match ledger_step(s, i) {
            Some(e) => if i < e && e <= s.len() {
                if !entry_fits(s, i) {
                    entry_overflow_at(s, i)
                } else {
                    ledger_overflow_at(s, e)
                }
            } else {
                i
            },
            None => i,
        }
    }
}

} // verus!
