//! The parser's cursor over a token slice: an integer position that read
//! operations inspect and consuming operations advance. Every operation that
//! fails leaves the position where it was.
use crate::errors::ParseError;
use crate::lexer::Token;
use vstd::prelude::*;

verus! {

/// The cursor moved forward only, and stayed within the tokens when it moved.
pub open spec fn advanced(tokens: Seq<(Token, &str)>, before: usize, after: usize) -> bool {
    &&& before <= after
    &&& before < after ==> after <= tokens.len()
}

/// The token at `pos`, if there is one, without moving.
pub fn peek<'a>(tokens: &'a [(Token, &'a str)], pos: usize) -> (r: Option<&'a (Token, &'a str)>)
    ensures
        pos < tokens@.len() ==> r == Some(&tokens@[pos as int]),
        pos >= tokens@.len() ==> r is None,
{
    if pos < tokens.len() {
        Some(&tokens[pos])
    } else {
        None
    }
}

/// Takes the token at `*pos` and moves past it; at or beyond the end it
/// returns `None` and leaves `*pos` alone.
pub fn next<'a>(tokens: &'a [(Token, &'a str)], pos: &mut usize) -> (r: Option<(Token, &'a str)>)
    ensures
        *old(pos) < tokens@.len() ==> r == Some(tokens@[*old(pos) as int]) && *final(pos) == *old(
            pos,
        ) + 1,
        *old(pos) >= tokens@.len() ==> r is None && *final(pos) == *old(pos),
{
    if *pos < tokens.len() {
        let t = tokens[*pos];
        *pos = *pos + 1;
        Some(t)
    } else {
        None
    }
}

/// Consumes the token at `*pos` if `expect_fn` accepts its kind. Otherwise
/// `*pos` stays, and the error names `expected` and the token found there
/// (`None` at the end of input).
pub fn expect<'a, F: Fn(&Token) -> bool>(
    tokens: &'a [(Token, &'a str)],
    pos: &mut usize,
    expect_fn: F,
    expected: &'static str,
) -> (r: Result<(Token, &'a str), ParseError>)
    requires
        forall|t: &Token| expect_fn.requires((t,)),
    ensures
        match r {
            Ok(p) => {
                &&& *old(pos) < tokens@.len()
                &&& p == tokens@[*old(pos) as int]
                &&& expect_fn.ensures((&p.0,), true)
                &&& *final(pos) == *old(pos) + 1
            },
            Err(e) => {
                &&& *final(pos) == *old(pos)
                &&& *old(pos) < tokens@.len() ==> expect_fn.ensures(
                    (&tokens@[*old(pos) as int].0,),
                    false,
                )
                &&& e == ParseError::Unexpected {
                    expected,
                    found: if *old(pos) < tokens@.len() {
                        Some(tokens@[*old(pos) as int].0)
                    } else {
                        None
                    },
                }
            },
        },
{
    if *pos < tokens.len() {
        let (tok, slice) = tokens[*pos];
        if expect_fn(&tok) {
            *pos = *pos + 1;
            Ok((tok, slice))
        } else {
            Err(ParseError::Unexpected { expected, found: Some(tok) })
        }
    } else {
        Err(ParseError::Unexpected { expected, found: None })
    }
}

/// Consumes the token at `*pos` if `pred` accepts its kind; all or nothing.
pub fn matches<'a, F: Fn(&Token) -> bool>(
    tokens: &'a [(Token, &'a str)],
    pos: &mut usize,
    pred: F,
) -> (r: bool)
    requires
        forall|t: &Token| pred.requires((t,)),
    ensures
        r ==> *old(pos) < tokens@.len() && pred.ensures((&tokens@[*old(pos) as int].0,), true)
            && *final(pos) == *old(pos) + 1,
        !r ==> *final(pos) == *old(pos) && (*old(pos) < tokens@.len() ==> pred.ensures(
            (&tokens@[*old(pos) as int].0,),
            false,
        )),
{
    if *pos < tokens.len() {
        let tok = tokens[*pos].0;
        if pred(&tok) {
            *pos = *pos + 1;
            return true;
        }
    }
    false
}

} // verus!
