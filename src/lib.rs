//! A line-oriented macro expander with hygienic generated names.
//!
//! `lexer` turns source text into token lines, `processor` expands macro
//! definitions and invocations over them, `hygiene` draws the generated
//! names, and `laws` states what every expansion satisfies.

use vstd::prelude::*;

pub mod hygiene;
pub mod laws;
pub mod lexer;
pub mod processor;
pub mod token;

verus! {

} // verus!
