//! Postings, transaction headers and blocks, and directives.

use pta_ledger::ledger_parser::LedgerParser;
use pta_ledger::raw_transaction::Annotation;
use pta_ledger::raw_transaction::Directive;
use pta_ledger::types::ParseError;

const ADDONS: [&str; 5] = ["\n", " \n", "\t\n", " ; comment 123 ; \n", "\t;\tcomment 123 ;\t\n"];

fn is_syntax(r: ParseError) -> bool {
    matches!(r, ParseError::Syntax(_))
}

#[test]
fn can_parse_posting_basic() {
    for base in ["  Assets:subacct1    1.0000", "\tEquity   \t -1.0000"] {
        for suffix in ADDONS {
            let tc = format!("{}{}", base, suffix);
            let r = LedgerParser::parse_posting_basic(tc.as_bytes());
            assert!(r.is_ok(), "should parse: {:?}", tc);
        }
    }
}

#[test]
fn posting_basic_fields() {
    let p = LedgerParser::parse_posting_basic(b"  Assets:subacct1    1.0000 ; note\n").unwrap();
    assert_eq!(p.acct.path, vec![b"Assets".to_vec(), b"subacct1".to_vec()]);
    assert!(!p.value.neg);
    assert_eq!(p.value.mantissa, 10000);
    assert_eq!(p.value.scale, 4);
    assert_eq!(p.comment, Some(b" note".to_vec()));
    assert_eq!(p.pinfo.position.line, 1);
    assert_eq!(p.pinfo.position.col, 1);
    // The account itself starts after the two-space indent.
    assert_eq!(p.acct.pinfo.position.col, 3);
}

#[test]
fn verify_posting_basic_error() {
    // Three leading spaces, space+tab, tab+space.
    let cases = [
        "   Assets:subacct1    1.0000",
        " \tEquity   \t -1.0000",
        "\t Equity   \t -1.0000",
    ];
    for bad in cases {
        let tc = format!("{}\n", bad);
        let r = LedgerParser::parse_posting_basic(tc.as_bytes());
        assert!(is_syntax(r.unwrap_err()), "should fail: {:?}", tc);
    }
}

#[test]
fn can_parse_trans_header() {
    let cases = [
        "2009-01-09 ! \"Bitcoin launch date\"",
        "2010-01-09  *  \"multi whitespace test\"",
        "2011-01-09\t! \"tab test\"",
        "2012-01-09 * \"trailing tab test\"\t",
        "2013-01-09 ! \"trailing spaces test\"  ",
        "2014-01-09 ! \"trailing tabs and spaces test\" \t \t\t  ",
    ];
    for base in cases {
        for suffix in ADDONS {
            let tc = format!("{}{}", base, suffix);
            let r = LedgerParser::parse_trans_header(tc.as_bytes());
            assert!(r.is_ok(), "should parse: {:?}", tc);
        }
    }
}

#[test]
fn trans_header_fields() {
    let t = LedgerParser::parse_trans_header(b"2009-01-09 ! \"Bitcoin launch date\" ; x\n")
        .unwrap();
    assert_eq!((t.date.year, t.date.month, t.date.day), (2009, 1, 9));
    assert_eq!(t.anno, Annotation::Pending);
    assert_eq!(t.desc, b"Bitcoin launch date".to_vec());
    assert!(t.postings.is_empty());
    assert_eq!(t.comment, Some(b" x".to_vec()));
}

#[test]
fn verify_trans_header_error() {
    // A quoted header is not a header.
    let bad = "\"2016-01-28 * \"comment after description\"; 10:01 am\n\"";
    let r = LedgerParser::parse_trans_header(bad.as_bytes());
    assert!(is_syntax(r.unwrap_err()));
}

#[test]
fn transaction_block_requires_postings() {
    // A header with zero postings is a syntax error.
    let r = LedgerParser::parse_transaction_block(b"2009-01-09 ! \"no postings\"\n");
    assert!(is_syntax(r.unwrap_err()));
}

#[test]
fn transaction_block_preserves_posting_order() {
    let tc = b"2009-01-09 ! \"Bitcoin launch date\"\n  Assets    1.0000\n  Equity    -1.0000\n";
    let t = LedgerParser::parse_transaction_block(tc).unwrap();
    assert_eq!(t.postings.len(), 2);
    assert_eq!(t.postings[0].acct.path, vec![b"Assets".to_vec()]);
    assert!(!t.postings[0].value.neg);
    assert_eq!(t.postings[0].value.mantissa, 10000);
    assert_eq!(t.postings[1].acct.path, vec![b"Equity".to_vec()]);
    assert!(t.postings[1].value.neg);
    assert_eq!(t.postings[1].value.mantissa, 10000);
    assert_eq!(t.postings[0].pinfo.position.line, 2);
    assert_eq!(t.postings[1].pinfo.position.line, 3);
}

#[test]
fn can_parse_trans_block() {
    let cases: [&str; 2] = [
        "2009-01-09 ! \"Bitcoin launch date\" ;comment \n\tAssets    1.0000 ;posting comment\n\tEquity    -1.0000 \n",
        "2009-01-09 ! \"Bitcoin launch date\"\n\tassets    1.0000\n  equity    -1.0000\n",
    ];
    for tblock in cases {
        let r = LedgerParser::parse_transaction_block(tblock.as_bytes());
        assert!(r.is_ok(), "should parse: {:?}", tblock);
    }
    let t = LedgerParser::parse_transaction_block(cases[0].as_bytes()).unwrap();
    assert_eq!(t.comment, Some(b"comment ".to_vec()));
    assert_eq!(t.postings[0].comment, Some(b"posting comment".to_vec()));
    assert_eq!(t.postings[1].comment, None);
}

#[test]
fn verify_trans_block_posting_error() {
    // A header followed by an indented blank line holds no posting.
    let bad = "2009-01-09 ! \"Bitcoin launch date\"\n    ";
    let r = LedgerParser::parse_transaction_block(bad.as_bytes());
    assert!(is_syntax(r.unwrap_err()));
}

#[test]
fn can_parse_misc_directive() {
    for suffix in ADDONS {
        for base in ["2001-09-11 open assets", "2001-09-11 open assets:cash",
            "2001-09-11 open Assets1:cash2:3petty"] {
            let tc = format!("{}{}", base, suffix);
            assert!(
                LedgerParser::parse_directive_open(tc.as_bytes()).is_ok(),
                "should parse: {:?}",
                tc
            );
        }
        for base in ["2001-09-11 close assets", "2001-09-11 close assets1:2cash:3petty"] {
            let tc = format!("{}{}", base, suffix);
            assert!(
                LedgerParser::parse_directive_close(tc.as_bytes()).is_ok(),
                "should parse: {:?}",
                tc
            );
        }
        let tc = format!("2001-09-11 commodity USD{}", suffix);
        assert!(
            LedgerParser::parse_directive_commodity(tc.as_bytes()).is_ok(),
            "should parse: {:?}",
            tc
        );
        for base in ["2001-09-11 balance assets 123.456 USD",
            "2001-09-11 balance assets1:2cash -0.456 USD"] {
            let tc = format!("{}{}", base, suffix);
            assert!(
                LedgerParser::parse_balance_directive(tc.as_bytes()).is_ok(),
                "should parse: {:?}",
                tc
            );
        }
    }
}

#[test]
fn balance_directive_fields() {
    let d = LedgerParser::parse_balance_directive(b"2001-09-11 balance assets1:2cash -0.456 USD\n")
        .unwrap();
    match d {
        Directive::Balance { date, account, amount, currency, pinfo } => {
            assert_eq!((date.year, date.month, date.day), (2001, 9, 11));
            assert_eq!(account.path, vec![b"assets1".to_vec(), b"2cash".to_vec()]);
            assert!(amount.neg);
            assert_eq!(amount.mantissa, 456);
            assert_eq!(amount.scale, 3);
            assert_eq!(currency, b"USD".to_vec());
            assert_eq!(pinfo.position.line, 1);
        }
        _ => panic!("expected a balance directive"),
    }
}

#[test]
fn balance_directive_overflow_is_structural() {
    let r = LedgerParser::parse_balance_directive(
        b"2001-09-11 balance assets 99999999999999999999.9 USD\n",
    );
    assert!(matches!(r.unwrap_err(), ParseError::Structure(_)));
}
