//! Rule-level recognition: decimals, dates, accounts, descriptions.

use pta_ledger::ledger_parser::LedgerParser;
use pta_ledger::raw_transaction::Decimal;
use pta_ledger::types::ParseError;

fn is_syntax(r: ParseError) -> bool {
    matches!(r, ParseError::Syntax(_))
}

#[test]
fn can_parse_decimal_value() {
    for dec in ["0.00000001", "1.23", "123.456", "-123.456789012", "-0.00000001"] {
        let r = LedgerParser::parse_decimal_value(dec.as_bytes());
        assert!(r.is_ok(), "should parse: {}", dec);
    }
}

#[test]
fn decimal_value_round_trips_exactly() {
    assert_eq!(
        LedgerParser::parse_decimal_value(b"123.456").unwrap(),
        Decimal { neg: false, mantissa: 123456, scale: 3 }
    );
    assert_eq!(
        LedgerParser::parse_decimal_value(b"-0.00000001").unwrap(),
        Decimal { neg: true, mantissa: 1, scale: 8 }
    );
    assert_eq!(
        LedgerParser::parse_decimal_value(b"0.00000001").unwrap(),
        Decimal { neg: false, mantissa: 1, scale: 8 }
    );
    assert_eq!(
        LedgerParser::parse_decimal_value(b"1.23").unwrap(),
        Decimal { neg: false, mantissa: 123, scale: 2 }
    );
    assert_eq!(
        LedgerParser::parse_decimal_value(b"-123.456789012").unwrap(),
        Decimal { neg: true, mantissa: 123456789012, scale: 9 }
    );
}

#[test]
fn verify_decimal_value_error() {
    for bad in ["0.", "-0.", "123", "-123", ".12", "-.12"] {
        let r = LedgerParser::parse_decimal_value(bad.as_bytes());
        assert!(is_syntax(r.unwrap_err()), "should fail with syntax error: {}", bad);
    }
}

#[test]
fn decimal_value_overflow_is_structural() {
    // 21 significant digits: more than the mantissa type can hold.
    let r = LedgerParser::parse_decimal_value(b"99999999999999999999.9");
    assert!(matches!(r.unwrap_err(), ParseError::Structure(_)));
}

#[test]
fn can_parse_iso8601_date_extended() {
    let d = LedgerParser::parse_iso8601_date_extended(b"1900-01-01").unwrap();
    assert_eq!((d.year, d.month, d.day), (1900, 1, 1));
    let d = LedgerParser::parse_iso8601_date_extended(b"2015-12-31").unwrap();
    assert_eq!((d.year, d.month, d.day), (2015, 12, 31));
}

#[test]
fn verify_iso8601_date_extended_error() {
    let cases = [
        "000-01-01",
        "99990-01-01",
        "01-01",
        "1999",
        "1999-",
        "0000-00-01",
        "0000-13-01",
        "1999-12",
        "1999-12-",
        "0000-01-00",
        "0000-01-32",
        "000o-01-01",
        "1999-0x-12",
        "1999-12-0x",
        "1999 12-01",
        "1999-12 01",
        " 1999-12-01",
        // Year zero is out of range.
        "0000-01-01",
    ];
    for bad in cases {
        let r = LedgerParser::parse_iso8601_date_extended(bad.as_bytes());
        assert!(is_syntax(r.unwrap_err()), "should fail: {}", bad);
    }
}

#[test]
fn can_parse_acct_descriptor() {
    let cases = [
        "a",
        "a1",
        "a:a",
        "a1:a",
        "a1:a1",
        "a:123",
        "a1:sub:123",
        "asset",
        "asset:property",
        "asset:property:real",
    ];
    for acct in cases {
        let r = LedgerParser::parse_acct_descriptor(acct.as_bytes());
        assert!(r.is_ok(), "should parse: {}", acct);
    }
}

#[test]
fn acct_descriptor_splits_segments() {
    let a = LedgerParser::parse_acct_descriptor(b"a1:sub:123").unwrap();
    assert_eq!(a.path, vec![b"a1".to_vec(), b"sub".to_vec(), b"123".to_vec()]);
    assert_eq!(a.pinfo.position.line, 1);
    assert_eq!(a.pinfo.position.col, 1);
}

#[test]
fn verify_acct_descriptor_parsing_error() {
    // An embedded invalid character, and a trailing separator.
    for bad in ["a1:b@d", "bad1:"] {
        let r = LedgerParser::parse_acct_descriptor(bad.as_bytes());
        assert!(is_syntax(r.unwrap_err()), "should fail: {}", bad);
    }
}

#[test]
fn verify_top_level_acct_parsing_error() {
    for bad in ["1", "1b", "1-b", "1b-"] {
        let r = LedgerParser::parse_top_level_acct(bad.as_bytes());
        assert!(is_syntax(r.unwrap_err()), "should fail: {}", bad);
    }
    // A digit may start a sub-account, never the top-level segment.
    let r = LedgerParser::parse_acct_descriptor(b"1bad");
    assert!(is_syntax(r.unwrap_err()));
    assert!(LedgerParser::parse_acct_descriptor(b"a1:123").is_ok());
}

#[test]
fn can_parse_trans_descr() {
    for descr in ["a", "description", " a description ", "\ta description\twith tabs "] {
        let quoted = format!("\"{}\"", descr);
        let r = LedgerParser::parse_trans_description(quoted.as_bytes());
        assert_eq!(r.unwrap(), descr.as_bytes().to_vec());
    }
}

#[test]
fn verify_trans_descr_error() {
    for bad in ["", "  ", "\ta description\twith tabs and\n a newline"] {
        let quoted = format!("\"{}\"", bad);
        let r = LedgerParser::parse_trans_description(quoted.as_bytes());
        assert!(is_syntax(r.unwrap_err()), "should fail: {:?}", bad);
    }
}
