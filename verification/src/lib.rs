//! A policy evaluation engine: a tree of rules with a self-describing binary
//! encoding, evaluated against a set of accounts and a payload of typed fields.
//!
//! A rule is a leaf that checks one fact (`pass`, `program_owned`,
//! `pubkey_match`, `amount`, `additional_signer`, `frequency`) or a
//! combinator over rules (`any`, `all`, `not`); `rule` holds the type of all
//! of them, with decoding, encoding and evaluation. `rule_set` holds the
//! rules of an authority by operation. `model`, `leaf` and `evaluation` say
//! what the bytes and the outcomes are; `laws` relates encoding to decoding.

pub mod accounts;
pub mod additional_signer;
pub mod all;
pub mod amount;
pub mod any;
pub mod context;
pub mod error;
pub mod evaluation;
pub mod frequency;
pub mod laws;
pub mod leaf;
pub mod model;
pub mod not;
pub mod operator;
pub mod pass;
pub mod payload;
pub mod program_owned;
pub mod pubkey;
pub mod pubkey_match;
pub mod rule;
pub mod rule_set;
pub mod state;
pub mod wire;
