//! A small regular-expression engine: a recursive-descent parser from a
//! pattern string to an abstract syntax tree, and a Thompson-style
//! construction from that tree to a nondeterministic finite automaton with
//! a single-step transition function.

use vstd::prelude::*;

pub mod ast;
pub mod nfa;

pub use ast::RegexAST;
pub use nfa::{NFAMachine, NFATransition};

verus! {

/// Relies on String::push: it appends the given character to the end of
/// the string.
#[verifier::external_body]
pub(crate) fn push_char(out: &mut String, c: char)
    ensures
        final(out)@ == old(out)@.push(c),
{
    out.push(c);
}

} // verus!
