//! Laws of the grammar: declarative statements of what the rules
//! accept and what the extracted values denote, proved against the
//! rule functions.

use vstd::prelude::*;

use crate::grammar;
use crate::parsed_ledger::EntryV;
use crate::raw_transaction::DirectiveV;

verus! {

/// The shape `-?digits.digits`, stated declaratively: an optional
/// leading minus bound directly to the digits, one or more digits, a
/// dot at position `k`, one or more digits, and nothing else.
pub open spec fn is_decimal_literal(s: Seq<u8>) -> bool {
    exists|k: int| #[trigger] s[k] == grammar::DOT && decimal_literal_dot(s, k)
}

/// `k` is the dot position of a decimal literal `s`.
pub open spec fn decimal_literal_dot(s: Seq<u8>, k: int) -> bool {
    let b: int = if s.len() > 0 && s[0] == grammar::MINUS {
        1
    } else {
        0
    };
    &&& s[k] == grammar::DOT
    &&& b < k
    &&& k + 1 < s.len()
    &&& forall|j: int| b <= j < k ==> grammar::is_digit(#[trigger] s[j])
    &&& forall|j: int| k < j < s.len() ==> grammar::is_digit(#[trigger] s[j])
}

/// The `decimal_value` rule consumes an input whole exactly when the
/// input is a decimal literal `-?digits.digits`. In particular a
/// literal without a fractional part, without an integer part, or
/// without the dot is rejected.
pub proof fn lemma_decimal_value_literal(s: Seq<u8>)
    ensures
        grammar::decimal_value(s, 0) == Some(s.len() as int) <==> is_decimal_literal(s),
{
    let b: int = if s.len() > 0 && s[0] == grammar::MINUS {
        1
    } else {
        0
    };
    if grammar::decimal_value(s, 0) == Some(s.len() as int) {
        let d = grammar::digit_run_end(s, b);
        grammar::lemma_run_end(s, b, |x: u8| grammar::is_digit(x));
        grammar::lemma_run_end(s, d + 1, |x: u8| grammar::is_digit(x));
        assert(s[d] == grammar::DOT && decimal_literal_dot(s, d));
    }
    if is_decimal_literal(s) {
        let k = choose|k: int| #[trigger] s[k] == grammar::DOT && decimal_literal_dot(s, k);
        grammar::lemma_run_end_is(s, b, k, |x: u8| grammar::is_digit(x));
        grammar::lemma_run_end_is(s, k + 1, s.len() as int, |x: u8| grammar::is_digit(x));
    }
}

/// A decimal literal round-trips: parsing it succeeds, and the value
/// read back is exactly the literal's sign, its digits as the
/// mantissa, and its count of fractional digits as the scale.
pub proof fn lemma_decimal_value_round_trip(s: Seq<u8>, k: int)
    requires
        decimal_literal_dot(s, k),
    ensures
        grammar::decimal_value(s, 0) == Some(s.len() as int),
        grammar::decimal_at(s, 0).neg == (s[0] == grammar::MINUS),
        grammar::decimal_at(s, 0).scale == s.len() - (k + 1),
        grammar::decimal_at(s, 0).mantissa == grammar::digits_val(
            s,
            if s[0] == grammar::MINUS {
                1int
            } else {
                0int
            },
            k,
        ) * grammar::pow10(s.len() - (k + 1)) + grammar::digits_val(s, k + 1, s.len() as int),
{
    let b: int = if s.len() > 0 && s[0] == grammar::MINUS {
        1
    } else {
        0
    };
    grammar::lemma_run_end_is(s, b, k, |x: u8| grammar::is_digit(x));
    grammar::lemma_run_end_is(s, k + 1, s.len() as int, |x: u8| grammar::is_digit(x));
    assert(s.len() > 0);
}

/// An account whose first byte is a digit is rejected, both as a
/// top-level segment and as a whole descriptor.
pub proof fn lemma_acct_leading_digit_rejected(s: Seq<u8>)
    requires
        s.len() > 0,
        grammar::is_digit(s[0]),
    ensures
        grammar::top_level_acct(s, 0) is None,
        grammar::acct_descriptor(s, 0) is None,
{
}

/// A comment runs from its `;` to the line terminator or the end of
/// the input, and never contains the terminator itself.
pub proof fn lemma_comment_single_line(s: Seq<u8>, i: int)
    requires
        0 <= i <= s.len(),
        grammar::comment(s, i) is Some,
    ensures
        i < grammar::comment(s, i)->Some_0 <= s.len(),
        forall|j: int| i <= j < grammar::comment(s, i)->Some_0 ==> #[trigger] s[j] != grammar::NL,
        grammar::comment(s, i)->Some_0 < s.len() ==> s[grammar::comment(s, i)->Some_0]
            == grammar::NL,
{
    grammar::lemma_run_end(s, i + 1, |x: u8| grammar::is_comment_byte(x));
}

/// A digit opens a sub-account segment but never the top-level one:
/// descriptors whose later segments start with a digit are accepted,
/// while the first segment must start with a letter.
pub proof fn lemma_digit_opens_sub_acct_only(s: Seq<u8>, i: int)
    requires
        0 <= i < s.len(),
        grammar::is_digit(s[i]),
    ensures
        grammar::sub_acct(s, i) is Some,
        grammar::top_level_acct(s, i) is None,
{
}

/// Segments contributed by an account tail are non-empty,
/// alphanumeric throughout, and start where a separator ended.
proof fn lemma_acct_tail_path_segments(s: Seq<u8>, i: int)
    requires
        0 <= i <= s.len(),
    ensures
        forall|k: int|
            0 <= k < grammar::acct_tail_path(s, i).len() ==> #[trigger] grammar::acct_tail_path(
                s,
                i,
            )[k].len() >= 1,
        forall|k: int, j: int|
            0 <= k < grammar::acct_tail_path(s, i).len() && 0 <= j < grammar::acct_tail_path(
                s,
                i,
            )[k].len() ==> grammar::is_alnum(#[trigger] grammar::acct_tail_path(s, i)[k][j]),
    decreases s.len() - i,
{
    if i < s.len() && s[i] == grammar::COLON && i + 1 < s.len() && grammar::is_alnum(s[i + 1]) {
        let e = grammar::alnum_run_end(s, i + 1);
        grammar::lemma_run_end(s, i + 1, |x: u8| grammar::is_alnum(x));
        if i + 1 < e && e <= s.len() {
            lemma_acct_tail_path_segments(s, e);
            let tail = grammar::acct_tail_path(s, i);
            assert(tail =~= seq![s.subrange(i + 1, e)] + grammar::acct_tail_path(s, e));
            assert forall|k: int, j: int|
                0 <= k < tail.len() && 0 <= j < tail[k].len() implies grammar::is_alnum(
                #[trigger] tail[k][j],
            ) by {
                if k == 0 {
                    assert(tail[0][j] == s[i + 1 + j]);
                } else {
                    assert(tail[k] == grammar::acct_tail_path(s, e)[k - 1]);
                }
            }
        }
    }
}

/// The invariant of every recognized account descriptor: at least one
/// segment, no segment empty, every byte of every segment
/// alphanumeric, and the first segment starting with a letter. A
/// trailing separator is never part of the match.
pub proof fn lemma_acct_path_invariant(s: Seq<u8>, i: int)
    requires
        0 <= i <= s.len(),
        grammar::acct_descriptor(s, i) is Some,
    ensures
        grammar::acct_path_at(s, i).len() >= 1,
        forall|k: int|
            0 <= k < grammar::acct_path_at(s, i).len() ==> #[trigger] grammar::acct_path_at(
                s,
                i,
            )[k].len() >= 1,
        forall|k: int, j: int|
            0 <= k < grammar::acct_path_at(s, i).len() && 0 <= j < grammar::acct_path_at(
                s,
                i,
            )[k].len() ==> grammar::is_alnum(#[trigger] grammar::acct_path_at(s, i)[k][j]),
        grammar::is_alpha(grammar::acct_path_at(s, i)[0][0]),
{
    let e0 = grammar::alnum_run_end(s, i + 1);
    grammar::lemma_run_end(s, i + 1, |x: u8| grammar::is_alnum(x));
    lemma_acct_tail_path_segments(s, e0);
    let p = grammar::acct_path_at(s, i);
    assert(p =~= seq![s.subrange(i as int, e0)] + grammar::acct_tail_path(s, e0));
    assert(p[0].len() >= 1);
    assert(p[0][0] == s[i as int]);
    assert forall|k: int, j: int|
        0 <= k < p.len() && 0 <= j < p[k].len() implies grammar::is_alnum(#[trigger] p[k][j]) by {
        if k == 0 {
            assert(p[0][j] == s[i + j]);
        } else {
            assert(p[k] == grammar::acct_tail_path(s, e0)[k - 1]);
        }
    }
}

/// What follows a posting's indent: account, whitespace, amount, line
/// end — the posting rule minus its indentation prefix.
pub open spec fn posting_body(s: Seq<u8>, i: int) -> Option<int> {
    match grammar::acct_descriptor(s, i) {
        None => None,
        Some(e2) => match grammar::ws_plus(s, e2) {
            None => None,
            Some(e3) => match grammar::decimal_value(s, e3) {
                None => None,
                Some(e4) => grammar::comment_or_newline(s, e4),
            },
        },
    }
}

/// Posting indentation is exact: a body after exactly two spaces or
/// exactly one tab is accepted; three spaces or a mixed space/tab
/// prefix is rejected, whatever follows.
pub proof fn lemma_posting_indent_exact(s: Seq<u8>, i: int)
    requires
        0 <= i,
    ensures
        i + 2 <= s.len() && s[i] == grammar::SP && s[i + 1] == grammar::SP
            ==> grammar::posting_basic(s, i) == posting_body(s, i + 2),
        i < s.len() && s[i] == grammar::TAB ==> grammar::posting_basic(s, i) == posting_body(
            s,
            i + 1,
        ),
        i + 3 <= s.len() && s[i] == grammar::SP && s[i + 1] == grammar::SP && s[i + 2]
            == grammar::SP ==> grammar::posting_basic(s, i) is None,
        i + 2 <= s.len() && s[i] == grammar::SP && s[i + 1] == grammar::TAB
            ==> grammar::posting_basic(s, i) is None,
        i + 2 <= s.len() && s[i] == grammar::TAB && s[i + 1] == grammar::SP
            ==> grammar::posting_basic(s, i) is None,
{
}

/// Bounds of the greedy account-tail repetition.
proof fn lemma_acct_tail_end_bounds(s: Seq<u8>, i: int)
    requires
        0 <= i <= s.len(),
    ensures
        i <= grammar::acct_tail_end(s, i) <= s.len(),
    decreases s.len() - i,
{
    if i < s.len() && s[i] == grammar::COLON && i + 1 < s.len() && grammar::is_alnum(s[i + 1]) {
        let e = grammar::alnum_run_end(s, i + 1);
        grammar::lemma_run_end(s, i + 1, |x: u8| grammar::is_alnum(x));
        if i + 1 < e && e <= s.len() {
            lemma_acct_tail_end_bounds(s, e);
        }
    }
}

/// A matched posting consumes at least one byte and stays in bounds.
pub proof fn lemma_posting_progress(s: Seq<u8>, i: int)
    requires
        0 <= i <= s.len(),
        grammar::posting_basic(s, i) is Some,
    ensures
        i < grammar::posting_basic(s, i)->Some_0 <= s.len(),
{
    let e1 = grammar::posting_indent(s, i)->Some_0;
    let e2 = grammar::acct_descriptor(s, e1)->Some_0;
    grammar::lemma_run_end(s, e1 + 1, |x: u8| grammar::is_alnum(x));
    lemma_acct_tail_end_bounds(s, grammar::alnum_run_end(s, e1 + 1));
    let e3 = grammar::ws_plus(s, e2)->Some_0;
    grammar::lemma_run_end(s, e2, |x: u8| grammar::is_blank(x));
    let e4 = grammar::decimal_value(s, e3)->Some_0;
    let p = if e3 < s.len() && s[e3] == grammar::MINUS {
        e3 + 1
    } else {
        e3
    };
    grammar::lemma_run_end(s, p, |x: u8| grammar::is_digit(x));
    let d = grammar::digit_run_end(s, p);
    grammar::lemma_run_end(s, d + 1, |x: u8| grammar::is_digit(x));
    let b = grammar::blank_run_end(s, e4);
    grammar::lemma_run_end(s, e4, |x: u8| grammar::is_blank(x));
    if b < s.len() && s[b] == grammar::SEMI {
        grammar::lemma_run_end(s, b + 1, |x: u8| grammar::is_comment_byte(x));
    }
}

/// A transaction block requires at least one posting: a header alone
/// is rejected; a header followed by a posting is accepted, and the
/// extracted transaction holds the postings of the repetition after
/// the header, in document order and never empty.
pub proof fn lemma_transaction_block_postings(s: Seq<u8>, i: int)
    requires
        0 <= i <= s.len(),
    ensures
        grammar::trans_header(s, i) is Some && grammar::posting_basic(
            s,
            grammar::trans_header(s, i)->Some_0,
        ) is None ==> grammar::transaction_block(s, i) is None,
        grammar::trans_header(s, i) is Some && grammar::posting_basic(
            s,
            grammar::trans_header(s, i)->Some_0,
        ) is Some ==> grammar::transaction_block(s, i) is Some,
        grammar::transaction_block(s, i) is Some ==> grammar::transaction_at(s, i).postings
            == grammar::postings_at(s, grammar::trans_header(s, i)->Some_0)
            && grammar::transaction_at(s, i).postings.len() >= 1,
{
    if grammar::transaction_block(s, i) is Some {
        let h = grammar::trans_header(s, i)->Some_0;
        lemma_header_end_bounds(s, i);
        lemma_posting_progress(s, h);
        let e = grammar::posting_basic(s, h)->Some_0;
        assert(grammar::postings_at(s, h) == seq![grammar::posting_at(s, h)]
            + grammar::postings_at(s, e));
    }
}

/// Start offsets of the postings of the repetition at `i`.
pub open spec fn posting_offsets(s: Seq<u8>, i: int) -> Seq<int>
    decreases s.len() - i,
{
    match grammar::posting_basic(s, i) {
        Some(e) => if i < e && e <= s.len() {
            seq![i] + posting_offsets(s, e)
        } else {
            seq![]
        },
        None => seq![],
    }
}

/// The postings of a repetition preserve input order: the `k`-th
/// posting of the extracted sequence is read at the `k`-th posting
/// offset, and those offsets are strictly increasing through the
/// document.
pub proof fn lemma_postings_document_order(s: Seq<u8>, i: int)
    requires
        0 <= i <= s.len(),
    ensures
        posting_offsets(s, i).len() == grammar::postings_at(s, i).len(),
        forall|k: int|
            0 <= k < posting_offsets(s, i).len() ==> grammar::postings_at(s, i)[k]
                == grammar::posting_at(s, #[trigger] posting_offsets(s, i)[k]),
        forall|k: int| 0 <= k < posting_offsets(s, i).len() ==> #[trigger] posting_offsets(
            s,
            i,
        )[k] >= i,
        forall|k1: int, k2: int|
            0 <= k1 < k2 < posting_offsets(s, i).len() ==> #[trigger] posting_offsets(s, i)[k1]
                < #[trigger] posting_offsets(s, i)[k2],
    decreases s.len() - i,
{
    match grammar::posting_basic(s, i) {
        Some(e) => {
            if i < e && e <= s.len() {
                lemma_postings_document_order(s, e);
                let off = posting_offsets(s, i);
                let tail = posting_offsets(s, e);
                assert(off =~= seq![i] + tail);
                assert(grammar::postings_at(s, i) =~= seq![grammar::posting_at(s, i)]
                    + grammar::postings_at(s, e));
                assert forall|k: int| 0 <= k < off.len() implies grammar::postings_at(s, i)[k]
                    == grammar::posting_at(s, #[trigger] off[k]) && off[k] >= i by {
                    if k > 0 {
                        assert(off[k] == tail[k - 1]);
                        assert(grammar::postings_at(s, i)[k] == grammar::postings_at(s, e)[k - 1]);
                    }
                }
                assert forall|k1: int, k2: int|
                    0 <= k1 < k2 < off.len() implies #[trigger] off[k1] < #[trigger] off[k2] by {
                    if k1 > 0 {
                        assert(off[k1] == tail[k1 - 1]);
                        assert(off[k2] == tail[k2 - 1]);
                    } else {
                        assert(off[k2] == tail[k2 - 1]);
                        assert(tail[k2 - 1] >= e);
                    }
                }
            }
        },
        None => {},
    }
}

/// A matched header stays within the input.
proof fn lemma_header_end_bounds(s: Seq<u8>, i: int)
    requires
        0 <= i <= s.len(),
        grammar::trans_header(s, i) is Some,
    ensures
        i <= grammar::trans_header(s, i)->Some_0 <= s.len(),
{
    let e1 = i + 10;
    let e2 = grammar::ws_plus(s, e1)->Some_0;
    grammar::lemma_run_end(s, e1, |x: u8| grammar::is_blank(x));
    let e3 = e2 + 1;
    let e4 = grammar::ws_plus(s, e3)->Some_0;
    grammar::lemma_run_end(s, e3, |x: u8| grammar::is_blank(x));
    grammar::lemma_run_end(s, e4 + 1, |x: u8| grammar::is_description_byte(x));
    let e5 = grammar::trans_description(s, e4)->Some_0;
    let b = grammar::blank_run_end(s, e5);
    grammar::lemma_run_end(s, e5, |x: u8| grammar::is_blank(x));
    if b < s.len() && s[b] == grammar::SEMI {
        grammar::lemma_run_end(s, b + 1, |x: u8| grammar::is_comment_byte(x));
    }
}

/// The account-descriptor invariant, stated of a path value: at least
/// one segment, no segment empty, every byte alphanumeric, and the
/// first segment starting with a letter.
pub open spec fn acct_path_ok(p: Seq<Seq<u8>>) -> bool {
    &&& p.len() >= 1
    &&& forall|k: int| 0 <= k < p.len() ==> #[trigger] p[k].len() >= 1
    &&& forall|k: int, j: int|
        0 <= k < p.len() && 0 <= j < p[k].len() ==> grammar::is_alnum(#[trigger] p[k][j])
    &&& grammar::is_alpha(p[0][0])
}

/// Every account path a document entry carries satisfies the
/// descriptor invariant.
pub open spec fn entry_paths_ok(e: EntryV) -> bool {
    match e {
        EntryV::Transaction(t) => forall|k: int|
            0 <= k < t.postings.len() ==> acct_path_ok(#[trigger] t.postings[k].acct.path),
        EntryV::Directive(d) => match d {
            DirectiveV::Open { path, .. } => acct_path_ok(path),
            DirectiveV::Close { path, .. } => acct_path_ok(path),
            DirectiveV::Commodity { .. } => true,
            DirectiveV::Balance { path, .. } => acct_path_ok(path),
        },
    }
}

/// Every posting of a matched repetition carries an invariant-holding
/// account path.
proof fn lemma_postings_paths_ok(s: Seq<u8>, i: int)
    requires
        0 <= i <= s.len(),
    ensures
        forall|k: int|
            0 <= k < grammar::postings_at(s, i).len() ==> acct_path_ok(
                #[trigger] grammar::postings_at(s, i)[k].acct.path,
            ),
    decreases s.len() - i,
{
    match grammar::posting_basic(s, i) {
        Some(e) => {
            if i < e && e <= s.len() {
                lemma_postings_paths_ok(s, e);
                let e1 = grammar::posting_indent(s, i)->Some_0;
                lemma_acct_path_invariant(s, e1);
                let ps = grammar::postings_at(s, i);
                assert(ps =~= seq![grammar::posting_at(s, i)] + grammar::postings_at(s, e));
                assert(acct_path_ok(ps[0].acct.path));
                assert forall|k: int| 0 <= k < ps.len() implies acct_path_ok(
                    #[trigger] ps[k].acct.path,
                ) by {
                    if k > 0 {
                        assert(ps[k] == grammar::postings_at(s, e)[k - 1]);
                    }
                }
            }
        },
        None => {},
    }
}

/// A matched directive's account path (where it has one) satisfies
/// the invariant.
proof fn lemma_directive_paths_ok(s: Seq<u8>, i: int)
    requires
        0 <= i <= s.len(),
        grammar::directives(s, i) is Some,
    ensures
        entry_paths_ok(EntryV::Directive(grammar::directive_at(s, i))),
{
    let e2 = grammar::blank_run_end(s, i + 10);
    grammar::lemma_run_end(s, i + 10, |x: u8| grammar::is_blank(x));
    if grammar::directive_open(s, i) is Some {
        let e3 = grammar::blank_run_end(s, e2 + 4);
        grammar::lemma_run_end(s, e2 + 4, |x: u8| grammar::is_blank(x));
        lemma_acct_path_invariant(s, e3);
    } else if grammar::directive_close(s, i) is Some {
        let e3 = grammar::blank_run_end(s, e2 + 5);
        grammar::lemma_run_end(s, e2 + 5, |x: u8| grammar::is_blank(x));
        lemma_acct_path_invariant(s, e3);
    } else if grammar::directive_commodity(s, i) is Some {
    } else {
        let e3 = grammar::blank_run_end(s, e2 + 7);
        grammar::lemma_run_end(s, e2 + 7, |x: u8| grammar::is_blank(x));
        lemma_acct_path_invariant(s, e3);
    }
}

/// The descriptor invariant lifted over a whole document: in every
/// entry of a matched ledger, every account path — of each posting,
/// and of each open, close or balance directive — has at least one
/// segment, no empty segment, alphanumeric bytes throughout, and a
/// letter opening its first segment.
pub proof fn lemma_ledger_paths_invariant(s: Seq<u8>, i: int)
    requires
        0 <= i <= s.len(),
    ensures
        forall|k: int|
            0 <= k < grammar::ledger_entries(s, i).len() ==> entry_paths_ok(
                #[trigger] grammar::ledger_entries(s, i)[k],
            ),
    decreases s.len() - i,
{
    if i < s.len() {
        let es = grammar::ledger_entries(s, i);
        if grammar::comment_or_newline(s, i) is Some {
            let e = grammar::comment_or_newline(s, i)->Some_0;
            if i < e && e <= s.len() {
                lemma_ledger_paths_invariant(s, e);
                assert forall|k: int| 0 <= k < es.len() implies entry_paths_ok(
                    #[trigger] es[k],
                ) by {
                    assert(es[k] == grammar::ledger_entries(s, e)[k]);
                }
            }
        } else if grammar::empty_line(s, i) is Some {
            let e = grammar::empty_line(s, i)->Some_0;
            if i < e && e <= s.len() {
                lemma_ledger_paths_invariant(s, e);
                assert forall|k: int| 0 <= k < es.len() implies entry_paths_ok(
                    #[trigger] es[k],
                ) by {
                    assert(es[k] == grammar::ledger_entries(s, e)[k]);
                }
            }
        } else if grammar::directives(s, i) is Some {
            let e = grammar::directives(s, i)->Some_0;
            if i < e && e <= s.len() {
                lemma_ledger_paths_invariant(s, e);
                lemma_directive_paths_ok(s, i);
                assert(es =~= seq![EntryV::Directive(grammar::directive_at(s, i))]
                    + grammar::ledger_entries(s, e));
                assert forall|k: int| 0 <= k < es.len() implies entry_paths_ok(
                    #[trigger] es[k],
                ) by {
                    if k > 0 {
                        assert(es[k] == grammar::ledger_entries(s, e)[k - 1]);
                    }
                }
            }
        } else if grammar::transaction_block(s, i) is Some {
            let e = grammar::transaction_block(s, i)->Some_0;
            if i < e && e <= s.len() {
                lemma_ledger_paths_invariant(s, e);
                lemma_header_end_bounds(s, i);
                lemma_transaction_block_postings(s, i);
                lemma_postings_paths_ok(s, grammar::trans_header(s, i)->Some_0);
                assert(entry_paths_ok(EntryV::Transaction(grammar::transaction_at(s, i))));
                assert(es =~= seq![EntryV::Transaction(grammar::transaction_at(s, i))]
                    + grammar::ledger_entries(s, e));
                assert(entry_paths_ok(es[0]));
                assert forall|k: int| 0 <= k < es.len() implies entry_paths_ok(
                    #[trigger] es[k],
                ) by {
                    if k > 0 {
                        assert(es[k] == grammar::ledger_entries(s, e)[k - 1]);
                    }
                }
            }
        }
    }
}

/// A document matches whole or not at all: the whole-document rule
/// never stops before the end of the input.
pub proof fn lemma_ledger_matches_whole(s: Seq<u8>, i: int)
    requires
        0 <= i <= s.len(),
    ensures
        grammar::ledger(s, i) is Some ==> grammar::ledger(s, i) == Some(s.len() as int),
    decreases s.len() - i,
{
    if i < s.len() {
        match grammar::ledger_step(s, i) {
            Some(e) => {
                if i < e && e <= s.len() {
                    lemma_ledger_matches_whole(s, e);
                }
            },
            None => {},
        }
    }
}

/// Parsing is a pure function of the input bytes: the entries a
/// document denotes are unique, so parsing the same document twice
/// yields structurally equal ledgers, with no hidden state in the
/// grammar.
pub proof fn lemma_parse_deterministic(s: Seq<u8>, l1: Seq<EntryV>, l2: Seq<EntryV>)
    requires
        l1 == grammar::ledger_entries(s, 0),
        l2 == grammar::ledger_entries(s, 0),
    ensures
        l1 == l2,
{
}

} // verus!
