//! Parsers for terminal escape sequences.

pub mod osc;
