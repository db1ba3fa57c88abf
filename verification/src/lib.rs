//! Rule-driven colorizer for log lines.
//!
//! A rule is a regular-expression pattern of the shape `(head)(target)(tail)`
//! together with a terminal escape sequence.  The engine applies the rules of
//! a rule set in order to each line of text, wrapping every matched target
//! span in the rule's escape sequence followed by a reset, and feeding the
//! rewritten line to the next rule.

pub mod config;
pub mod highlighter;
pub mod rule;
pub mod textsub;

use vstd::prelude::*;

verus! {

} // verus!
