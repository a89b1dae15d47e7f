//! Recognizer and structural decoder for a plain-text, line-oriented
//! double-entry accounting ledger language: dates, account paths,
//! transactions with postings, and administrative directives
//! (open / close / commodity / balance).
//!
//! The pipeline has four parts, leaves first:
//! - `grammar`: the lexical and syntactic rules, written as pure
//!   specification functions with ordered-choice and greedy-repetition
//!   semantics;
//! - `ledger_parser`: the matchers that apply the grammar to a byte
//!   buffer and produce source-position-annotated nodes;
//! - `ledger_builder`: the walk that turns recognized nodes into typed
//!   records, rejecting malformed or overflowing numbers;
//! - `parsed_ledger`: the ordered in-memory ledger model.
//!
//! `laws` states and proves the declarative properties of the
//! grammar: which inputs the rules accept, exact round-tripping of
//! amounts, and that parsing is a pure function of the input.
//!
//! The single entry point for whole documents is
//! [`ledger_builder::parse_ledger`].

pub mod grammar;
pub mod laws;
pub mod ledger_builder;
pub mod ledger_parser;
pub mod parsed_ledger;
pub mod raw_transaction;
pub mod types;
