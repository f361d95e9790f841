//! Token-kind tests handed to the cursor's `expect` and `matches`.
use crate::lexer::Token;
use vstd::prelude::*;

verus! {

pub fn is_tilde(t: &Token) -> (b: bool)
    ensures
        b == (*t == Token::Tilde),
{
    *t == Token::Tilde
}

pub fn is_comma(t: &Token) -> (b: bool)
    ensures
        b == (*t == Token::Comma),
{
    *t == Token::Comma
}

pub fn is_plus(t: &Token) -> (b: bool)
    ensures
        b == (*t == Token::Plus),
{
    *t == Token::Plus
}

pub fn is_minus(t: &Token) -> (b: bool)
    ensures
        b == (*t == Token::Minus),
{
    *t == Token::Minus
}

pub fn is_one(t: &Token) -> (b: bool)
    ensures
        b == (*t == Token::One),
{
    *t == Token::One
}

pub fn is_zero(t: &Token) -> (b: bool)
    ensures
        b == (*t == Token::Zero),
{
    *t == Token::Zero
}

pub fn is_open(t: &Token) -> (b: bool)
    ensures
        b == (*t == Token::FunctionStart),
{
    *t == Token::FunctionStart
}

pub fn is_close(t: &Token) -> (b: bool)
    ensures
        b == (*t == Token::FunctionEnd),
{
    *t == Token::FunctionEnd
}

pub fn is_equal(t: &Token) -> (b: bool)
    ensures
        b == (*t == Token::Equal),
{
    *t == Token::Equal
}

pub fn is_family_keyword(t: &Token) -> (b: bool)
    ensures
        b == (*t == Token::Family),
{
    *t == Token::Family
}

pub fn is_column(t: &Token) -> (b: bool)
    ensures
        b == (*t == Token::ColumnName),
{
    *t == Token::ColumnName
}

pub fn is_pipe(t: &Token) -> (b: bool)
    ensures
        b == (*t == Token::Pipe),
{
    *t == Token::Pipe
}

pub fn is_double_pipe(t: &Token) -> (b: bool)
    ensures
        b == (*t == Token::DoublePipe),
{
    *t == Token::DoublePipe
}

pub fn is_colon(t: &Token) -> (b: bool)
    ensures
        b == (*t == Token::InteractionOnly),
{
    *t == Token::InteractionOnly
}

pub fn is_slash(t: &Token) -> (b: bool)
    ensures
        b == (*t == Token::Slash),
{
    *t == Token::Slash
}

pub fn is_column_or_bind(t: &Token) -> (b: bool)
    ensures
        b == (*t == Token::ColumnName || *t == Token::Bind),
{
    *t == Token::ColumnName || *t == Token::Bind
}

pub fn is_interaction_op(t: &Token) -> (b: bool)
    ensures
        b == (*t == Token::InteractionOnly || *t == Token::InteractionAndEffect),
{
    *t == Token::InteractionOnly || *t == Token::InteractionAndEffect
}

pub fn is_one_or_zero(t: &Token) -> (b: bool)
    ensures
        b == (*t == Token::One || *t == Token::Zero),
{
    *t == Token::One || *t == Token::Zero
}

pub fn is_random_term_start(t: &Token) -> (b: bool)
    ensures
        b == (*t == Token::ColumnName || *t == Token::FunctionStart || *t == Token::Cs || *t == Token::Mmc),
{
    *t == Token::ColumnName || *t == Token::FunctionStart || *t == Token::Cs || *t == Token::Mmc
}

pub fn is_grouping_start(t: &Token) -> (b: bool)
    ensures
        b == (*t == Token::ColumnName || *t == Token::Gr || *t == Token::Mm),
{
    *t == Token::ColumnName || *t == Token::Gr || *t == Token::Mm
}

pub fn is_gr_option_key(t: &Token) -> (b: bool)
    ensures
        b == (*t == Token::Cor || *t == Token::Id || *t == Token::By || *t == Token::Cov || *t == Token::Dist),
{
    *t == Token::Cor || *t == Token::Id || *t == Token::By || *t == Token::Cov || *t == Token::Dist
}

pub fn is_bool_literal(t: &Token) -> (b: bool)
    ensures
        b == (*t == Token::True || *t == Token::TrueUpper || *t == Token::False || *t == Token::FalseUpper),
{
    *t == Token::True || *t == Token::TrueUpper || *t == Token::False || *t == Token::FalseUpper
}

pub fn is_name_or_string(t: &Token) -> (b: bool)
    ensures
        b == (*t == Token::ColumnName || *t == Token::StringLiteral),
{
    *t == Token::ColumnName || *t == Token::StringLiteral
}

pub fn is_name_or_null(t: &Token) -> (b: bool)
    ensures
        b == (*t == Token::ColumnName || *t == Token::Null || *t == Token::NullUpper),
{
    *t == Token::ColumnName || *t == Token::Null || *t == Token::NullUpper
}

pub fn is_cs_argument(t: &Token) -> (b: bool)
    ensures
        b == (*t == Token::One || *t == Token::Zero || *t == Token::ColumnName),
{
    *t == Token::One || *t == Token::Zero || *t == Token::ColumnName
}

/// Tokens that can begin a plain or function term.
pub open spec fn starts_atom(t: Token) -> bool {
    t == Token::ColumnName || function_name(t) is Some || t == Token::Gr || t == Token::Mm || t
        == Token::Mmc || t == Token::Cs || t == Token::FunctionStart
}

/// The name of the transformation that a keyword token stands for.
pub open spec fn function_name(t: Token) -> Option<Seq<char>> {
    match t {
        Token::Poly => Some("poly"@),
        Token::Log => Some("log"@),
        Token::Offset => Some("offset"@),
        Token::Factor => Some("factor"@),
        Token::C => Some("c"@),
        Token::Scale => Some("scale"@),
        Token::Standardize => Some("standardize"@),
        Token::Center => Some("center"@),
        Token::BSplines => Some("bs"@),
        Token::GaussianProcess => Some("gp"@),
        Token::Monotonic => Some("mono"@),
        Token::MeasurementError => Some("me"@),
        Token::MissingValues => Some("mi"@),
        Token::ForwardFill => Some("forward_fill"@),
        Token::BackwardFill => Some("backward_fill"@),
        Token::Diff => Some("diff"@),
        Token::Lag => Some("lag"@),
        Token::Lead => Some("lead"@),
        Token::Trunc => Some("trunc"@),
        Token::Weights => Some("weights"@),
        Token::Trials => Some("trials"@),
        Token::Censored => Some("cens"@),
        _ => None,
    }
}

pub fn is_atom_start(t: &Token) -> (b: bool)
    ensures
        b == starts_atom(*t),
{
    match *t {
        Token::ColumnName | Token::Poly | Token::Log | Token::Offset | Token::Factor | Token::C
        | Token::Scale | Token::Standardize | Token::Center | Token::BSplines
        | Token::GaussianProcess | Token::Monotonic | Token::MeasurementError
        | Token::MissingValues | Token::ForwardFill | Token::BackwardFill | Token::Diff
        | Token::Lag | Token::Lead | Token::Trunc | Token::Weights | Token::Trials
        | Token::Censored | Token::Gr | Token::Mm | Token::Mmc | Token::Cs
        | Token::FunctionStart => true,
        _ => false,
    }
}

/// The transformation name of a keyword token, as text.
pub fn function_name_of(t: Token) -> (r: Option<&'static str>)
    ensures
        match function_name(t) {
            Some(n) => r is Some && r->0@ == n,
            None => r is None,
        },
{
    match t {
        Token::Poly => Some("poly"),
        Token::Log => Some("log"),
        Token::Offset => Some("offset"),
        Token::Factor => Some("factor"),
        Token::C => Some("c"),
        Token::Scale => Some("scale"),
        Token::Standardize => Some("standardize"),
        Token::Center => Some("center"),
        Token::BSplines => Some("bs"),
        Token::GaussianProcess => Some("gp"),
        Token::Monotonic => Some("mono"),
        Token::MeasurementError => Some("me"),
        Token::MissingValues => Some("mi"),
        Token::ForwardFill => Some("forward_fill"),
        Token::BackwardFill => Some("backward_fill"),
        Token::Diff => Some("diff"),
        Token::Lag => Some("lag"),
        Token::Lead => Some("lead"),
        Token::Trunc => Some("trunc"),
        Token::Weights => Some("weights"),
        Token::Trials => Some("trials"),
        Token::Censored => Some("cens"),
        _ => None,
    }
}

} // verus!
