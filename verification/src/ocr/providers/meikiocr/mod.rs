//! The recognition engine that detects text lines and then reads their characters.

pub mod detection;
pub mod provider;
pub mod punctuation;
pub mod recognition;
