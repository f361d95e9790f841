//! Terminal colouring of diagnostics, through owo-colors.
use owo_colors::OwoColorize;
use vstd::prelude::*;

verus! {

/// Relies on owo_colors' `red`: the text between the ANSI foreground codes
/// `ESC[31m` and `ESC[39m`.
#[verifier::external_body]
pub(crate) fn red(s: &str) -> (r: String)
    ensures
        r@ == seq!['\x1b', '[', '3', '1', 'm'] + s@ + seq!['\x1b', '[', '3', '9', 'm'],
{
    format!("{}", s.red())
}

/// Relies on owo_colors' `green`: the text between the ANSI foreground codes
/// `ESC[32m` and `ESC[39m`.
#[verifier::external_body]
pub(crate) fn green(s: &str) -> (r: String)
    ensures
        r@ == seq!['\x1b', '[', '3', '2', 'm'] + s@ + seq!['\x1b', '[', '3', '9', 'm'],
{
    format!("{}", s.green())
}

/// Relies on owo_colors' `bold`: the text between the ANSI codes `ESC[1m`
/// and `ESC[0m`.
#[verifier::external_body]
pub(crate) fn bold(s: &str) -> (r: String)
    ensures
        r@ == seq!['\x1b', '[', '1', 'm'] + s@ + seq!['\x1b', '[', '0', 'm'],
{
    format!("{}", s.bold())
}

} // verus!
