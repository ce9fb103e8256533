//! Dictionary data, deconjugation and lookup.

pub mod customdict;
pub mod deconjugator;
pub mod engine;
pub mod entry;
pub mod kana;
pub mod lookup;
pub mod ranking;
pub mod versioned;
