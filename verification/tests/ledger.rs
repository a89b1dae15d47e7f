//! Whole-document parsing through the aggregator.

use pta_ledger::ledger_builder::parse_ledger;
use pta_ledger::ledger_builder::LedgerBuilder;
use pta_ledger::ledger_parser::LedgerParser;
use pta_ledger::parsed_ledger::LedgerEntry;
use pta_ledger::parsed_ledger::ParsedLedger;
use pta_ledger::raw_transaction::Annotation;
use pta_ledger::raw_transaction::Date;
use pta_ledger::raw_transaction::Directive;
use pta_ledger::raw_transaction::RawTransaction;
use pta_ledger::types::FilePosition;
use pta_ledger::types::ParseError;
use pta_ledger::types::ParserInfo;
use pta_ledger::types::Rule;
use pta_ledger::types::StructuralFault;

#[test]
fn can_create_parser() {
    // simply verifies that the parser can be instantiated, ensuring accessibility
    let _ = LedgerParser {};
}

#[test]
fn parses_bitcoin_launch_transaction() {
    let text = "2009-01-09 ! \"Bitcoin launch date\"\n\tAssets    1.0000\n\tEquity    -1.0000\n";
    let pl = parse_ledger(text.as_bytes()).unwrap();
    assert_eq!(pl.entries.len(), 1);
    match &pl.entries[0] {
        LedgerEntry::Transaction(t) => {
            assert_eq!((t.date.year, t.date.month, t.date.day), (2009, 1, 9));
            assert_eq!(t.anno, Annotation::Pending);
            assert_eq!(t.desc, b"Bitcoin launch date".to_vec());
            assert_eq!(t.postings.len(), 2);
            assert_eq!(t.postings[0].acct.path, vec![b"Assets".to_vec()]);
            assert!(!t.postings[0].value.neg);
            assert_eq!(t.postings[0].value.mantissa, 10000);
            assert_eq!(t.postings[0].value.scale, 4);
            assert_eq!(t.postings[1].acct.path, vec![b"Equity".to_vec()]);
            assert!(t.postings[1].value.neg);
            assert_eq!(t.postings[1].value.mantissa, 10000);
            assert_eq!(t.postings[1].value.scale, 4);
        }
        _ => panic!("expected a transaction entry"),
    }
}

#[test]
fn parses_open_directive_document() {
    let pl = parse_ledger(b"2001-09-11 open assets:cash\n").unwrap();
    assert_eq!(pl.entries.len(), 1);
    match &pl.entries[0] {
        LedgerEntry::Directive(Directive::Open { date, account, pinfo }) => {
            assert_eq!((date.year, date.month, date.day), (2001, 9, 11));
            assert_eq!(account.path, vec![b"assets".to_vec(), b"cash".to_vec()]);
            assert_eq!(pinfo.position.line, 1);
            assert_eq!(pinfo.position.col, 1);
        }
        _ => panic!("expected an open directive"),
    }
}

#[test]
fn parsing_twice_is_idempotent() {
    let text = "; ledger\n\n2001-09-11 open assets:cash\n2009-01-09 * \"day one\"\n  assets:cash  1.00\n  equity  -1.00\n";
    let a = parse_ledger(text.as_bytes()).unwrap();
    let b = parse_ledger(text.as_bytes()).unwrap();
    assert_eq!(a, b);
}

#[test]
fn can_parse_ledger() {
    let text = "; an asterisk-based comment\n\
                2001-09-11 open assets\n\
                2001-09-11 open assets:cash\t;comment\n\
                2001-09-12 close assets\n\
                \n\
                ;; Balance assertions\n\
                2001-09-11 balance assets 123.456 USD\n\
                \n\
                \n\
                ;; Misc\n\
                1792-01-01 commodity USD ; US Dollar\n\
                2001-09-11 commodity BTC ; Bitcoin launch date\n\
                \n";
    let pl = parse_ledger(text.as_bytes()).unwrap();
    assert_eq!(pl.entries.len(), 6);
    assert!(matches!(&pl.entries[0], LedgerEntry::Directive(Directive::Open { .. })));
    assert!(matches!(&pl.entries[1], LedgerEntry::Directive(Directive::Open { .. })));
    assert!(matches!(&pl.entries[2], LedgerEntry::Directive(Directive::Close { .. })));
    assert!(matches!(&pl.entries[3], LedgerEntry::Directive(Directive::Balance { .. })));
    assert!(matches!(&pl.entries[4], LedgerEntry::Directive(Directive::Commodity { .. })));
    assert!(matches!(&pl.entries[5], LedgerEntry::Directive(Directive::Commodity { .. })));
    match &pl.entries[4] {
        LedgerEntry::Directive(Directive::Commodity { date, symbol, pinfo }) => {
            assert_eq!((date.year, date.month, date.day), (1792, 1, 1));
            assert_eq!(symbol, &b"USD".to_vec());
            assert_eq!(pinfo.position.line, 11);
        }
        _ => unreachable!(),
    }
}

#[test]
fn empty_document_parses_to_empty_ledger() {
    let pl = parse_ledger(b"").unwrap();
    assert_eq!(pl.entries.len(), 0);
    let pl = parse_ledger(b"\n \n\t\n; only comments\n").unwrap();
    assert_eq!(pl.entries.len(), 0);
}

#[test]
fn final_line_may_lack_terminator() {
    let pl = parse_ledger(b"2001-09-11 open assets").unwrap();
    assert_eq!(pl.entries.len(), 1);
}

#[test]
fn syntax_error_reports_position() {
    // Line 2 starts with a posting that has no transaction header.
    let text = "2001-09-11 open assets\n???\n";
    match parse_ledger(text.as_bytes()).unwrap_err() {
        ParseError::Syntax(e) => {
            assert_eq!(e.position.line, 2);
            assert!(!e.expected.is_empty());
        }
        _ => panic!("expected a syntax error"),
    }
}

#[test]
fn syntax_error_keeps_furthest_position_and_expected_rules() {
    // Line 2 carries a date but neither a directive keyword nor an
    // annotation: the furthest failure is right after the date's
    // whitespace, column 12, and the expected set names the
    // alternatives that reached it.
    let text = "2001-09-11 open assets\n2001-09-11 xyz\n";
    match parse_ledger(text.as_bytes()).unwrap_err() {
        ParseError::Syntax(e) => {
            assert_eq!(e.position.line, 2);
            assert_eq!(e.position.col, 12);
            assert_eq!(
                e.expected,
                vec![
                    Rule::DirectiveOpen,
                    Rule::DirectiveClose,
                    Rule::DirectiveCommodity,
                    Rule::BalanceDirective,
                    Rule::TransAnnotation,
                ]
            );
        }
        _ => panic!("expected a syntax error"),
    }
}

#[test]
fn decimal_syntax_error_points_at_missing_dot() {
    match pta_ledger::ledger_parser::LedgerParser::parse_decimal_value(b"12").unwrap_err() {
        ParseError::Syntax(e) => {
            assert_eq!(e.position.line, 1);
            assert_eq!(e.position.col, 3);
            assert_eq!(e.expected, vec![Rule::DecimalValue]);
        }
        _ => panic!("expected a syntax error"),
    }
}

#[test]
fn structural_error_reports_first_overflowing_amount() {
    // Both documents overflow once; the reported position is always
    // the first overflowing amount in document order.
    let second = "2001-09-11 balance assets 1.0 USD\n\
                  2001-09-11 balance assets 99999999999999999999.9 USD\n";
    match parse_ledger(second.as_bytes()).unwrap_err() {
        ParseError::Structure(e) => {
            assert_eq!(e.fault, StructuralFault::DecimalConversion);
            assert_eq!(e.position.line, 2);
            assert_eq!(e.position.col, 27);
        }
        _ => panic!("expected a structural error"),
    }
    let first = "2001-09-11 balance assets 99999999999999999999.9 USD\n\
                 2001-09-11 balance assets 99999999999999999999.9 USD\n";
    match parse_ledger(first.as_bytes()).unwrap_err() {
        ParseError::Structure(e) => {
            assert_eq!(e.fault, StructuralFault::DecimalConversion);
            assert_eq!(e.position.line, 1);
            assert_eq!(e.position.col, 27);
        }
        _ => panic!("expected a structural error"),
    }
}

#[test]
fn posting_without_header_is_rejected() {
    let r = parse_ledger(b"  assets:cash  1.00\n");
    assert!(matches!(r.unwrap_err(), ParseError::Syntax(_)));
}

#[test]
fn no_partial_ledger_on_failure() {
    // The first entry is fine; the second is malformed.
    let r = parse_ledger(b"2001-09-11 open assets\n2001-09-11 open 1bad\n");
    assert!(matches!(r.unwrap_err(), ParseError::Syntax(_)));
}

#[test]
fn overflow_amount_is_a_structural_error() {
    let r = parse_ledger(b"2001-09-11 balance assets 99999999999999999999.9 USD\n");
    assert!(matches!(r.unwrap_err(), ParseError::Structure(_)));
}

#[test]
fn syntax_beats_overflow_in_error_order() {
    // An overflowing amount in the first entry, garbage in the second:
    // the producer sees the whole document first, so the result is a
    // syntax error, not a conversion error.
    let text = "2001-09-11 balance assets 99999999999999999999.9 USD\n???\n";
    assert!(matches!(parse_ledger(text.as_bytes()).unwrap_err(), ParseError::Syntax(_)));
}

#[test]
fn builder_from_string_matches_parse_ledger() {
    let text = "2001-09-11 open assets:cash\n";
    let b = LedgerBuilder::default();
    let via_builder = b.from_string(text.as_bytes()).unwrap();
    let direct = parse_ledger(text.as_bytes()).unwrap();
    assert_eq!(via_builder, direct);
}

#[test]
fn add_transaction_appends_in_order() {
    let mut pl = ParsedLedger::new();
    assert_eq!(pl.len(), 0);
    let t = RawTransaction {
        date: Date { year: 2001, month: 9, day: 11 },
        anno: Annotation::Cleared,
        desc: b"x".to_vec(),
        postings: vec![],
        comment: None,
        pinfo: ParserInfo { position: FilePosition { line: 1, col: 1 } },
    };
    pl.add_transaction(t.clone());
    pl.add_transaction(t);
    assert_eq!(pl.len(), 2);
    assert!(matches!(&pl.entries[0], LedgerEntry::Transaction(_)));
}

#[test]
fn comment_after_description_without_whitespace_is_accepted() {
    // The line tail allows a comment to follow the description
    // directly.
    let text = "2016-01-28 * \"Buy BTC\"; 10:01 am\n  assets  1.00\n";
    let pl = parse_ledger(text.as_bytes()).unwrap();
    assert_eq!(pl.entries.len(), 1);
    match &pl.entries[0] {
        LedgerEntry::Transaction(t) => {
            assert_eq!(t.comment, Some(b" 10:01 am".to_vec()));
        }
        _ => panic!("expected a transaction"),
    }
}
