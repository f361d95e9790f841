//! The recursive-descent grammar over a token slice and a cursor.
//!
//! ```text
//! formula  := response '~' rhs [',' 'family' '=' familyName]
//! response := IDENT | 'bind' '(' IDENT (',' IDENT)+ ')'
//! rhs      := '0' | ['1' | term] ('+' term)* ['-' '1']
//! term     := atom ((':' | '*') term)*
//! atom     := IDENT | functionName '(' argList ')' | '(' randomEffect ')'
//! arg      := IDENT | INTEGER | STRING | 'true' | 'TRUE' | 'false' | 'FALSE'
//! ```
use crate::ast::{Argument, Family, Response, Term};
use crate::cursor::{advanced, expect, next, peek};
use crate::errors::ParseError;
use crate::kinds::{
    function_name, function_name_of, is_atom_start, is_close, is_column, is_column_or_bind, is_comma,
    is_equal, is_family_keyword, is_interaction_op, is_minus, is_one, is_open, is_plus, is_tilde,
    starts_atom,
};
use crate::random_effect::{bar_at, parse_random_effect, simple_block, simple_block_result};
use crate::lexer::Token;

use crate::text::{all_digits, decimal_value, parse_decimal, unquote, unquoted};
use vstd::prelude::*;

verus! {

/// The text of the lexeme at index `i`.
pub open spec fn lexeme(tokens: Seq<(Token, &str)>, i: int) -> Seq<char> {
    tokens[i].1@
}

/// Whether the token at `i` exists and has kind `k`.
pub open spec fn kind_at(tokens: Seq<(Token, &str)>, i: int, k: Token) -> bool {
    0 <= i < tokens.len() && tokens[i].0 == k
}

/// The family that a token names, if it names one.
pub open spec fn family_of(t: Token) -> Option<Family> {
    match t {
        Token::Gaussian => Some(Family::Gaussian),
        Token::Binomial => Some(Family::Binomial),
        Token::Poisson => Some(Family::Poisson),
        _ => None,
    }
}

fn is_family_name(t: &Token) -> (b: bool)
    ensures
        b == (family_of(*t) is Some),
{
    *t == Token::Gaussian || *t == Token::Binomial || *t == Token::Poisson
}

/// The argument that a token with the given lexeme denotes, as a relation:
/// an identifier, a decimal integer that fits in `u32` (`1` and `0` have
/// tokens of their own), a string literal without its quotes, or a boolean.
pub open spec fn denotes_argument(a: Argument, t: Token, lex: Seq<char>) -> bool {
    match t {
        Token::ColumnName => match a {
            Argument::Ident(s) => s@ == lex,
            _ => false,
        },
        Token::Integer => lex.len() > 0 && all_digits(lex) && decimal_value(lex) <= u32::MAX && a
            == Argument::Integer(decimal_value(lex) as u32),
        Token::One => a == Argument::Integer(1),
        Token::Zero => a == Argument::Integer(0),
        Token::StringLiteral => match a {
            Argument::String(s) => s@ == unquote(lex),
            _ => false,
        },
        Token::True | Token::TrueUpper => a == Argument::Boolean(true),
        Token::False | Token::FalseUpper => a == Argument::Boolean(false),
        _ => false,
    }
}

/// Token kinds that can stand as a function argument.
pub open spec fn argument_kind(t: Token) -> bool {
    t == Token::ColumnName || t == Token::Integer || t == Token::One || t == Token::Zero || t
        == Token::StringLiteral || t == Token::True || t == Token::TrueUpper || t == Token::False
        || t == Token::FalseUpper
}

/// The token at `k` can stand as an argument: an argument kind, and for an
/// integer a run of digits whose value fits in `u32`.
pub open spec fn arg_ok(tokens: Seq<(Token, &str)>, k: int) -> bool {
    &&& 0 <= k < tokens.len()
    &&& argument_kind(tokens[k].0)
    &&& tokens[k].0 == Token::Integer ==> (lexeme(tokens, k).len() > 0 && all_digits(
        lexeme(tokens, k),
    ) && decimal_value(lexeme(tokens, k)) <= u32::MAX)
}

/// From `i` on: `n` arguments separated by `,`, then `)`.
pub open spec fn args_then_close(tokens: Seq<(Token, &str)>, i: int, n: int) -> bool {
    &&& n >= 1
    &&& 0 <= i
    &&& forall|q: int| 0 <= q < n ==> #[trigger] arg_ok(tokens, i + 2 * q)
    &&& forall|q: int| 0 <= q < n - 1 ==> kind_at(tokens, #[trigger] (i + 2 * q + 1), Token::Comma)
    &&& kind_at(tokens, i + 2 * n - 1, Token::FunctionEnd)
}

/// Parses one family name: `gaussian`, `binomial` or `poisson`.
pub fn parse_family<'a>(tokens: &'a [(Token, &'a str)], pos: &mut usize) -> (r: Result<
    Family,
    ParseError,
>)
    ensures
        match r {
            Ok(f) => *old(pos) < tokens@.len() && family_of(tokens@[*old(pos) as int].0) == Some(f)
                && *final(pos) == *old(pos) + 1,
            Err(e) => *final(pos) == *old(pos) && (*old(pos) < tokens@.len() ==> family_of(
                tokens@[*old(pos) as int].0,
            ) is None) && e == ParseError::Unexpected {
                expected: "gaussian | binomial | poisson",
                found: if *old(pos) < tokens@.len() {
                    Some(tokens@[*old(pos) as int].0)
                } else {
                    None
                },
            },
        },
{
    let (tok, _) = expect(tokens, pos, is_family_name, "gaussian | binomial | poisson")?;
    match tok {
        Token::Gaussian => Ok(Family::Gaussian),
        Token::Binomial => Ok(Family::Binomial),
        _ => Ok(Family::Poisson),
    }
}

/// Parses one function argument. At the end of input it fails with `Eoi`;
/// on a token that cannot be an argument, with `Unexpected`; on an integer
/// beyond `u32`, with `Syntax`. It moves only on success.
pub fn parse_arg<'a>(tokens: &'a [(Token, &'a str)], pos: &mut usize) -> (r: Result<
    Argument,
    ParseError,
>)
    ensures
        match r {
            Ok(a) => *old(pos) < tokens@.len() && denotes_argument(
                a,
                tokens@[*old(pos) as int].0,
                lexeme(tokens@, *old(pos) as int),
            ) && *final(pos) == *old(pos) + 1,
            Err(e) => {
                &&& *final(pos) == *old(pos)
                &&& *old(pos) >= tokens@.len() ==> e == ParseError::Eoi
                &&& *old(pos) < tokens@.len() && !argument_kind(tokens@[*old(pos) as int].0)
                    ==> e == ParseError::Unexpected {
                    expected: "argument",
                    found: Some(tokens@[*old(pos) as int].0),
                }
                &&& *old(pos) < tokens@.len() ==> forall|a: Argument|
                    !denotes_argument(
                        a,
                        tokens@[*old(pos) as int].0,
                        lexeme(tokens@, *old(pos) as int),
                    )
            },
        },
        arg_ok(tokens@, *old(pos) as int) ==> r is Ok,
{
    match peek(tokens, *pos) {
        None => Err(ParseError::Eoi),
        Some(entry) => {
            let (tok, slice) = *entry;
            let arg = match tok {
                Token::ColumnName => Argument::Ident(slice.to_string()),
                Token::Integer => match parse_decimal(slice) {
                    Some(v) => Argument::Integer(v),
                    None => {
                        return Err(ParseError::Syntax("integer argument out of range".to_string()));
                    },
                },
                Token::One => Argument::Integer(1),
                Token::Zero => Argument::Integer(0),
                Token::StringLiteral => Argument::String(unquoted(slice)),
                Token::True | Token::TrueUpper => Argument::Boolean(true),
                Token::False | Token::FalseUpper => Argument::Boolean(false),
                _ => {
                    return Err(ParseError::Unexpected { expected: "argument", found: Some(tok) });
                },
            };
            next(tokens, pos);
            Ok(arg)
        },
    }
}

/// Parses `arg (',' arg)*` up to (not including) the closing parenthesis;
/// an immediately following `)` gives no arguments.
pub fn parse_arg_list<'a>(tokens: &'a [(Token, &'a str)], pos: &mut usize) -> (r: Result<
    Vec<Argument>,
    ParseError,
>)
    ensures
        advanced(tokens@, *old(pos), *final(pos)),
        match r {
            Ok(args) => {
                &&& args@.len() == 0 ==> kind_at(tokens@, *old(pos) as int, Token::FunctionEnd)
                    && *final(pos) == *old(pos)
                &&& args@.len() > 0 ==> {
                    &&& *final(pos) == *old(pos) + 2 * args@.len() - 1
                    &&& *final(pos) <= tokens@.len()
                    &&& forall|k: int|
                        0 <= k < args@.len() ==> denotes_argument(
                            #[trigger] args@[k],
                            tokens@[*old(pos) + 2 * k].0,
                            lexeme(tokens@, *old(pos) + 2 * k),
                        )
                    &&& forall|k: int|
                        0 <= k < args@.len() - 1 ==> kind_at(
                            tokens@,
                            #[trigger] (*old(pos) + 2 * k + 1),
                            Token::Comma,
                        )
                    &&& !kind_at(tokens@, *final(pos) as int, Token::Comma)
                }
            },
            Err(_) => true,
        },
        kind_at(tokens@, *old(pos) as int, Token::FunctionEnd) ==> (r matches Ok(args)
            && args@.len() == 0),
        forall|n: int|
            #[trigger] args_then_close(tokens@, *old(pos) as int, n) ==> (r matches Ok(args)
                && args@.len() == n && *final(pos) == *old(pos) + 2 * n - 1),
{
    let mut args: Vec<Argument> = Vec::new();
    if *pos < tokens.len() && tokens[*pos].0 == Token::FunctionEnd {
        proof {
            assert forall|n: int| #[trigger] args_then_close(tokens@, *pos as int, n) implies false by {
                assert(arg_ok(tokens@, *pos + 2 * 0));
            }
        }
        return Ok(args);
    }
    let start = *pos;
    proof {
        assert forall|n: int| #[trigger] args_then_close(tokens@, start as int, n) implies arg_ok(
            tokens@,
            start as int,
        ) by {
            assert(arg_ok(tokens@, start + 2 * 0));
        }
    }
    let first = parse_arg(tokens, pos)?;
    args.push(first);
    while crate::cursor::matches(tokens, pos, is_comma)
        invariant
            start == *old(pos),
            args@.len() > 0,
            *pos == start + 2 * args@.len() - 1,
            *pos <= tokens@.len(),
            forall|k: int|
                0 <= k < args@.len() ==> denotes_argument(
                    #[trigger] args@[k],
                    tokens@[start + 2 * k].0,
                    lexeme(tokens@, start + 2 * k),
                ),
            forall|k: int|
                0 <= k < args@.len() - 1 ==> kind_at(
                    tokens@,
                    #[trigger] (start + 2 * k + 1),
                    Token::Comma,
                ),
            forall|n: int|
                #[trigger] args_then_close(tokens@, start as int, n) ==> args@.len() <= n,
            !kind_at(tokens@, start as int, Token::FunctionEnd),
        decreases tokens@.len() - *pos,
    {
        proof {
            assert forall|n: int| #[trigger] args_then_close(tokens@, start as int, n) implies args@.len()
                < n && arg_ok(tokens@, *pos as int) by {
                let q = args@.len() as int;
                if q >= n {
                    assert(kind_at(tokens@, start + 2 * n - 1, Token::FunctionEnd));
                    assert(kind_at(tokens@, start + 2 * (q - 1) + 1, Token::Comma) || q - 1 == n - 1);
                }
                assert(arg_ok(tokens@, start + 2 * q));
            }
        }
        let a = parse_arg(tokens, pos)?;
        args.push(a);
        assert(kind_at(tokens@, start + 2 * (args@.len() - 2) + 1, Token::Comma));
    }
    proof {
        assert forall|n: int| #[trigger] args_then_close(tokens@, start as int, n) implies args@.len()
            == n by {
            let q = args@.len() as int;
            if q < n {
                assert(kind_at(tokens@, start + 2 * (q - 1) + 1, Token::Comma));
            }
        }
    }
    Ok(args)
}

/// A `(` at `i` followed by `1`, `0`, `-` or a column name: the start of a
/// random-effects block.
pub open spec fn opens_random_effect(tokens: Seq<(Token, &str)>, i: int) -> bool {
    &&& kind_at(tokens, i, Token::FunctionStart)
    &&& (kind_at(tokens, i + 1, Token::One) || kind_at(tokens, i + 1, Token::Zero) || kind_at(
        tokens,
        i + 1,
        Token::Minus,
    ) || kind_at(tokens, i + 1, Token::ColumnName))
}

/// From `i` on, `n` column names joined by `+`, followed by the end, a
/// `,`, a `-`, or a final dangling `+`.
pub open spec fn name_run(tokens: Seq<(Token, &str)>, i: int, n: int) -> bool {
    &&& n >= 1
    &&& 0 <= i
    &&& i + 2 * n - 1 <= tokens.len()
    &&& forall|q: int| 0 <= q < n ==> kind_at(tokens, #[trigger] (i + 2 * q), Token::ColumnName)
    &&& forall|q: int| 0 <= q < n - 1 ==> kind_at(tokens, #[trigger] (i + 2 * q + 1), Token::Plus)
    &&& {
        let e = i + 2 * n - 1;
        e == tokens.len() || kind_at(tokens, e, Token::Comma) || kind_at(tokens, e, Token::Minus)
            || (kind_at(tokens, e, Token::Plus) && tokens.len() == e + 1)
    }
}

/// A run of `n` names from `i`, followed by the end or a `,`.
pub open spec fn plain_sum(tokens: Seq<(Token, &str)>, i: int, n: int) -> bool {
    name_run(tokens, i, n) && (i + 2 * n - 1 == tokens.len() || kind_at(
        tokens,
        i + 2 * n - 1,
        Token::Comma,
    ))
}

/// From `i`: a column name, `+`, then a simple random-effects block with its
/// bar at `i + 4`, ending before `i + 7` at the end or a `,`.
pub open spec fn name_and_block(tokens: Seq<(Token, &str)>, i: int) -> bool {
    &&& kind_at(tokens, i, Token::ColumnName)
    &&& kind_at(tokens, i + 1, Token::Plus)
    &&& simple_block(tokens, i + 2, i + 4)
    &&& (i + 7 == tokens.len() || kind_at(tokens, i + 7, Token::Comma))
}

/// From `i`: the arguments of a call and its `)`, which ends just before `e`.
pub open spec fn closes_args(tokens: Seq<(Token, &str)>, i: int, e: int) -> bool {
    (kind_at(tokens, i, Token::FunctionEnd) && e == i + 1) || exists|n: int|
        #[trigger] args_then_close(tokens, i, n) && e == i + 2 * n
}

/// A call `name(args)` starts at `i` and ends just before `e`.
pub open spec fn call_ends(tokens: Seq<(Token, &str)>, i: int, e: int) -> bool {
    &&& 0 <= i < tokens.len()
    &&& (function_name(tokens[i].0) is Some || tokens[i].0 == Token::ColumnName)
    &&& kind_at(tokens, i + 1, Token::FunctionStart)
    &&& closes_args(tokens, i + 2, e)
}

/// `t` is the call starting at `i` and ending before `e`: its name from the
/// token at `i`, and each argument as the token at its position denotes it.
pub open spec fn is_call(t: Term, tokens: Seq<(Token, &str)>, i: int, e: int) -> bool {
    match t {
        Term::Function { name, args } => {
            &&& (function_name(tokens[i].0) == Some(name@) || (tokens[i].0 == Token::ColumnName
                && name@ == lexeme(tokens, i)))
            &&& ((args@.len() == 0 && e == i + 3) || (args@.len() > 0 && e == i + 2 + 2
                * args@.len()))
            &&& forall|k: int|
                0 <= k < args@.len() ==> denotes_argument(
                    #[trigger] args@[k],
                    tokens[i + 2 + 2 * k].0,
                    lexeme(tokens, i + 2 + 2 * k),
                )
        },
        _ => false,
    }
}

/// The token at `i` chains an interaction: `:` or `*`.
pub open spec fn chains_at(tokens: Seq<(Token, &str)>, i: int) -> bool {
    kind_at(tokens, i, Token::InteractionOnly) || kind_at(tokens, i, Token::InteractionAndEffect)
}

/// From `i`: `k` column names joined by `:` or `*`, followed by something
/// that neither chains nor opens a call.
pub open spec fn chain_shape(tokens: Seq<(Token, &str)>, i: int, k: int) -> bool {
    &&& k >= 1
    &&& 0 <= i
    &&& forall|q: int| 0 <= q < k ==> kind_at(tokens, #[trigger] (i + 2 * q), Token::ColumnName)
    &&& forall|q: int| 0 <= q < k - 1 ==> #[trigger] chains_at(tokens, i + 2 * q + 1)
    &&& !chains_at(tokens, i + 2 * k - 1)
    &&& !kind_at(tokens, i + 2 * k - 1, Token::FunctionStart)
}

/// `t` is the right-nested interaction of the `k` names from `i`.
pub open spec fn is_chain(t: Term, tokens: Seq<(Token, &str)>, i: int, k: int) -> bool
    decreases k,
{
    if k <= 1 {
        t matches Term::Column(c) && c@ == lexeme(tokens, i)
    } else {
        t matches Term::Interaction { left, right } && (*left matches Term::Column(c) && c@
            == lexeme(tokens, i)) && is_chain(*right, tokens, i + 2, k - 1)
    }
}

/// The token before `end` can close a term: a column name or `)`.
pub open spec fn ends_term(tokens: Seq<(Token, &str)>, end: int) -> bool {
    kind_at(tokens, end - 1, Token::ColumnName) || kind_at(tokens, end - 1, Token::FunctionEnd)
}

/// Parses the left-hand side: a column name, or `bind(a, b, ...)` with at
/// least two names.
pub fn parse_response<'a>(tokens: &'a [(Token, &'a str)], pos: &mut usize) -> (r: Result<
    Response,
    ParseError,
>)
    ensures
        advanced(tokens@, *old(pos), *final(pos)),
        kind_at(tokens@, *old(pos) as int, Token::ColumnName) ==> (r matches Ok(
            Response::Single(n),
        ) && n@ == lexeme(tokens@, *old(pos) as int) && *final(pos) == *old(pos) + 1),
        r matches Ok(Response::Single(n)) ==> kind_at(tokens@, *old(pos) as int, Token::ColumnName)
            && n@ == lexeme(tokens@, *old(pos) as int),
        r matches Ok(Response::Multivariate(names)) ==> {
            &&& kind_at(tokens@, *old(pos) as int, Token::Bind)
            &&& names@.len() >= 2
            &&& *final(pos) == *old(pos) + 2 * names@.len() + 2 <= tokens@.len()
            &&& forall|k: int|
                0 <= k < names@.len() ==> (#[trigger] names@[k])@ == lexeme(
                    tokens@,
                    *old(pos) + 2 + 2 * k,
                ) && kind_at(tokens@, *old(pos) + 2 + 2 * k, Token::ColumnName)
        },
        r matches Err(ParseError::Syntax(m)) ==> kind_at(tokens@, *old(pos) as int, Token::Bind)
            && m@ == "bind() requires at least 2 variables"@ && *final(pos) == *old(pos) + 4,
        !kind_at(tokens@, *old(pos) as int, Token::ColumnName) && !kind_at(
            tokens@,
            *old(pos) as int,
            Token::Bind,
        ) ==> r == Err::<Response, ParseError>(
            ParseError::Unexpected {
                expected: "ColumnName or Bind",
                found: if *old(pos) < tokens@.len() {
                    Some(tokens@[*old(pos) as int].0)
                } else {
                    None
                },
            },
        ) && *final(pos) == *old(pos),
        kind_at(tokens@, *old(pos) as int, Token::Bind) && kind_at(
            tokens@,
            *old(pos) + 1,
            Token::FunctionStart,
        ) && kind_at(tokens@, *old(pos) + 2, Token::ColumnName) && kind_at(
            tokens@,
            *old(pos) + 3,
            Token::FunctionEnd,
        ) ==> (r matches Err(ParseError::Syntax(m)) && m@ == "bind() requires at least 2 variables"@),
        forall|m: int|
            #[trigger] bind_shape(tokens@, *old(pos) as int, m) ==> (r matches Ok(
                Response::Multivariate(names),
            ) && names@.len() == m && *final(pos) == *old(pos) + 2 * m + 2),
{
    let start = *pos;
    let (tok, name) = expect(tokens, pos, is_column_or_bind, "ColumnName or Bind")?;
    if tok == Token::ColumnName {
        return Ok(Response::Single(name.to_string()));
    }
    proof {
        assert forall|m: int| #[trigger] bind_shape(tokens@, start as int, m) implies kind_at(
            tokens@,
            start + 2,
            Token::ColumnName,
        ) by {
            assert(kind_at(tokens@, start + 2 + 2 * 0, Token::ColumnName));
        }
    }
    expect(tokens, pos, is_open, "(")?;
    let mut names: Vec<String> = Vec::new();
    let (_, first) = expect(tokens, pos, is_column, "ColumnName")?;
    names.push(first.to_string());
    while crate::cursor::matches(tokens, pos, is_comma)
        invariant
            start == *old(pos),
            kind_at(tokens@, start as int, Token::Bind),
            names@.len() >= 1,
            *pos == start + 2 * names@.len() + 1 <= tokens@.len(),
            kind_at(tokens@, start + 3, Token::FunctionEnd) ==> names@.len() == 1,
            forall|m: int| #[trigger] bind_shape(tokens@, start as int, m) ==> names@.len() <= m,
            forall|k: int|
                0 <= k < names@.len() ==> (#[trigger] names@[k])@ == lexeme(
                    tokens@,
                    start + 2 + 2 * k,
                ) && kind_at(tokens@, start + 2 + 2 * k, Token::ColumnName),
        decreases tokens@.len() - *pos,
    {
        proof {
            assert forall|m: int| #[trigger] bind_shape(tokens@, start as int, m) implies names@.len()
                < m && kind_at(tokens@, *pos as int, Token::ColumnName) by {
                if names@.len() >= m {
                    assert(kind_at(tokens@, start + 2 * m + 1, Token::FunctionEnd));
                }
                assert(kind_at(tokens@, start + 2 + 2 * names@.len(), Token::ColumnName));
            }
        }
        let (_, n) = expect(tokens, pos, is_column, "ColumnName")?;
        let ghost prev = names@;
        let text = n.to_string();
        names.push(text);
        proof {
            assert forall|k: int| 0 <= k < names@.len() implies (#[trigger] names@[k])@ == lexeme(
                tokens@,
                start + 2 + 2 * k,
            ) && kind_at(tokens@, start + 2 + 2 * k, Token::ColumnName) by {
                if k < prev.len() {
                    assert(names@[k] == prev[k]);
                }
            }
        }
    }
    proof {
        assert forall|m: int| #[trigger] bind_shape(tokens@, start as int, m) implies names@.len()
            == m by {
            let q = names@.len() as int;
            if q < m {
                assert(kind_at(tokens@, start + 3 + 2 * (q - 1), Token::Comma));
            }
        }
    }
    expect(tokens, pos, is_close, ")")?;
    if names.len() < 2 {
        return Err(ParseError::Syntax("bind() requires at least 2 variables".to_string()));
    }
    Ok(Response::Multivariate(names))
}

/// Parses one term: a column, a function call, or a random-effects block,
/// followed by any chain of `:` / `*` interactions, each nesting the rest of
/// the chain to its right. A `(` opens a random-effects block only when the
/// token after it is `1`, `0`, `-` or a column name; deciding this never
/// moves the cursor.
pub fn parse_term<'a>(tokens: &'a [(Token, &'a str)], pos: &mut usize) -> (r: Result<
    Term,
    ParseError,
>)
    ensures
        advanced(tokens@, *old(pos), *final(pos)),
        r is Ok ==> *old(pos) < *final(pos) <= tokens@.len(),
        kind_at(tokens@, *old(pos) as int, Token::ColumnName) && !kind_at(
            tokens@,
            *old(pos) + 1,
            Token::FunctionStart,
        ) && !kind_at(tokens@, *old(pos) + 1, Token::InteractionOnly) && !kind_at(
            tokens@,
            *old(pos) + 1,
            Token::InteractionAndEffect,
        ) ==> (r matches Ok(Term::Column(n)) && n@ == lexeme(tokens@, *old(pos) as int)
            && *final(pos) == *old(pos) + 1),
        r matches Ok(Term::Function { name, args }) ==> (function_name(tokens@[*old(pos) as int].0)
            == Some(name@) || (tokens@[*old(pos) as int].0 == Token::ColumnName && name@ == lexeme(
            tokens@,
            *old(pos) as int,
        ))),
        r is Ok ==> !(r->Ok_0 is Intercept) && !(r->Ok_0 is Zero),
        r is Ok ==> ends_term(tokens@, *final(pos) as int),
        *old(pos) < tokens@.len() && !starts_atom(tokens@[*old(pos) as int].0) ==> r is Err
            && *final(pos) == *old(pos),
        opens_random_effect(tokens@, *old(pos) as int) && r is Ok ==> r->Ok_0 is RandomEffect,
        *old(pos) >= tokens@.len() ==> r == Err::<Term, ParseError>(
            ParseError::Unexpected { expected: "Function token or ColumnName", found: None },
        ) && *final(pos) == *old(pos),
        *old(pos) < tokens@.len() && function_name(tokens@[*old(pos) as int].0) is Some && !kind_at(
            tokens@,
            *old(pos) + 1,
            Token::FunctionStart,
        ) ==> (r matches Err(ParseError::Syntax(_)) && *final(pos) == *old(pos) + 1),
        forall|e: int|
            #[trigger] call_ends(tokens@, *old(pos) as int, e) && !chains_at(tokens@, e) ==> (
            r matches Ok(t) && is_call(t, tokens@, *old(pos) as int, e) && *final(pos) == e),
        forall|k: int|
            #[trigger] chain_shape(tokens@, *old(pos) as int, k) ==> (r matches Ok(t) && is_chain(
                t,
                tokens@,
                *old(pos) as int,
                k,
            ) && *final(pos) == *old(pos) + 2 * k - 1),
        r matches Ok(Term::RandomEffect(_)) ==> opens_random_effect(tokens@, *old(pos) as int),
        forall|b: int|
            #[trigger] simple_block(tokens@, *old(pos) as int, b) ==> (r matches Ok(
                Term::RandomEffect(re),
            ) && simple_block_result(re, tokens@, *old(pos) as int, b) && *final(pos) == b + 3),
        kind_at(tokens@, *old(pos) as int, Token::ColumnName) && (kind_at(
            tokens@,
            *old(pos) + 1,
            Token::InteractionOnly,
        ) || kind_at(tokens@, *old(pos) + 1, Token::InteractionAndEffect)) && r is Ok
            ==> r->Ok_0 is Interaction,
    decreases tokens@.len() - *old(pos),
{
    let start = *pos;
    if tokens.len() > 1 && *pos < tokens.len() - 1 && tokens[*pos].0 == Token::FunctionStart {
        let after = tokens[*pos + 1].0;
        if after == Token::One || after == Token::Zero || after == Token::Minus || after
            == Token::ColumnName {
            let re = parse_random_effect(tokens, pos)?;
            return Ok(Term::RandomEffect(re));
        }
    }
    let ghost at_start = *pos;
    proof {
        assert forall|k: int| #[trigger] chain_shape(tokens@, start as int, k) implies kind_at(
            tokens@,
            start as int,
            Token::ColumnName,
        ) && !kind_at(tokens@, start + 1, Token::FunctionStart) by {
            assert(kind_at(tokens@, start + 2 * 0, Token::ColumnName));
            if k > 1 {
                assert(chains_at(tokens@, start + 2 * 0 + 1));
            }
        }
    }
    let mut term = parse_atom(tokens, pos)?;
    while crate::cursor::matches(tokens, pos, is_interaction_op)
        invariant
            start == *old(pos),
            start < *pos <= tokens@.len(),
            !(term is Intercept) && !(term is Zero),
            term matches Term::Function { name, args } ==> (function_name(
                tokens@[start as int].0,
            ) == Some(name@) || (tokens@[start as int].0 == Token::ColumnName && name@ == lexeme(
                tokens@,
                start as int,
            ))),
            term matches Term::Column(n) ==> n@ == lexeme(tokens@, start as int) && *pos == start
                + 1 && kind_at(tokens@, start as int, Token::ColumnName),
            kind_at(tokens@, start as int, Token::ColumnName) && !kind_at(
                tokens@,
                start + 1,
                Token::FunctionStart,
            ) ==> (term is Column || kind_at(tokens@, start + 1, Token::InteractionOnly) || kind_at(
                tokens@,
                start + 1,
                Token::InteractionAndEffect,
            )),
            start < tokens@.len() && starts_atom(tokens@[start as int].0),
            ends_term(tokens@, *pos as int),
            !opens_random_effect(tokens@, start as int),
            !(term is RandomEffect),
            !(function_name(tokens@[start as int].0) is Some && !kind_at(
                tokens@,
                start + 1,
                Token::FunctionStart,
            )),
            forall|e: int|
                #[trigger] call_ends(tokens@, start as int, e) && !chains_at(tokens@, e) ==> (*pos
                    == e && is_call(term, tokens@, start as int, e)),
            forall|k: int|
                #[trigger] chain_shape(tokens@, start as int, k) ==> ((*pos == start + 1 && (
                term matches Term::Column(c) && c@ == lexeme(tokens@, start as int))) || (*pos
                    == start + 2 * k - 1 && is_chain(term, tokens@, start as int, k))),
            kind_at(tokens@, start as int, Token::ColumnName) && (kind_at(
                tokens@,
                start + 1,
                Token::InteractionOnly,
            ) || kind_at(tokens@, start + 1, Token::InteractionAndEffect)) ==> (term is Interaction
                || *pos == start + 1),
        decreases tokens@.len() - *pos,
    {
        let ghost term_before = term;
        proof {
            assert forall|k: int| #[trigger] chain_shape(tokens@, start as int, k) implies k > 1
                && *pos == start + 2 && chain_shape(tokens@, start + 2, k - 1) && (
            term_before matches Term::Column(c) && c@ == lexeme(tokens@, start as int)) by {
                assert forall|q: int| 0 <= q < k - 1 implies kind_at(
                    tokens@,
                    #[trigger] (start + 2 + 2 * q),
                    Token::ColumnName,
                ) by {
                    assert(kind_at(tokens@, start + 2 * (q + 1), Token::ColumnName));
                }
                assert forall|q: int| 0 <= q < k - 2 implies #[trigger] chains_at(
                    tokens@,
                    start + 2 + 2 * q + 1,
                ) by {
                    assert(chains_at(tokens@, start + 2 * (q + 1) + 1));
                }
            }
        }
        let right = parse_term(tokens, pos)?;
        term = Term::Interaction { left: Box::new(term), right: Box::new(right) };
    }
    proof {
        assert forall|k: int| #[trigger] chain_shape(tokens@, start as int, k) implies is_chain(
            term,
            tokens@,
            start as int,
            k,
        ) && *pos == start + 2 * k - 1 by {
            if k > 1 {
                assert(chains_at(tokens@, start + 2 * 0 + 1));
            }
        }
    }
    Ok(term)
}

/// Parses a column name or a function call `name(args)`; a transformation
/// keyword without `(` is a syntax error.
fn parse_atom<'a>(tokens: &'a [(Token, &'a str)], pos: &mut usize) -> (r: Result<
    Term,
    ParseError,
>)
    ensures
        advanced(tokens@, *old(pos), *final(pos)),
        r is Ok ==> *old(pos) < *final(pos) <= tokens@.len(),
        r is Ok ==> (r->Ok_0 is Column || r->Ok_0 is Function),
        r is Ok ==> ends_term(tokens@, *final(pos) as int),
        r matches Ok(Term::Column(n)) ==> kind_at(tokens@, *old(pos) as int, Token::ColumnName)
            && n@ == lexeme(tokens@, *old(pos) as int) && *final(pos) == *old(pos) + 1,
        kind_at(tokens@, *old(pos) as int, Token::ColumnName) && !kind_at(
            tokens@,
            *old(pos) + 1,
            Token::FunctionStart,
        ) ==> r is Ok && r->Ok_0 is Column,
        r matches Ok(Term::Function { name, args }) ==> (function_name(tokens@[*old(pos) as int].0)
            == Some(name@) || (tokens@[*old(pos) as int].0 == Token::ColumnName && name@ == lexeme(
            tokens@,
            *old(pos) as int,
        ))),
        *old(pos) < tokens@.len() && !starts_atom(tokens@[*old(pos) as int].0) ==> r is Err
            && *final(pos) == *old(pos),
        *old(pos) >= tokens@.len() ==> r == Err::<Term, ParseError>(
            ParseError::Unexpected { expected: "Function token or ColumnName", found: None },
        ),
        *old(pos) < tokens@.len() && function_name(tokens@[*old(pos) as int].0) is Some && !kind_at(
            tokens@,
            *old(pos) + 1,
            Token::FunctionStart,
        ) ==> (r matches Err(ParseError::Syntax(_)) && *final(pos) == *old(pos) + 1),
        forall|e: int|
            #[trigger] call_ends(tokens@, *old(pos) as int, e) ==> (r matches Ok(t) && is_call(
                t,
                tokens@,
                *old(pos) as int,
                e,
            ) && *final(pos) == e),
{
    let (tok, name_slice) = expect(tokens, pos, is_atom_start, "Function token or ColumnName")?;
    let fname = if tok == Token::ColumnName {
        name_slice.to_string()
    } else {
        match function_name_of(tok) {
            Some(n) => n.to_string(),
            None => {
                return Err(ParseError::Unexpected { expected: "term", found: Some(tok) });
            },
        }
    };
    if crate::cursor::matches(tokens, pos, is_open) {
        let args = parse_arg_list(tokens, pos)?;
        proof {
            assert forall|e: int| #[trigger] call_ends(tokens@, *old(pos) as int, e) implies kind_at(
                tokens@,
                *pos as int,
                Token::FunctionEnd,
            ) && e == *pos + 1 by {
                if !(kind_at(tokens@, *old(pos) + 2, Token::FunctionEnd) && e == *old(pos) + 3) {
                    let n = choose|n: int|
                        #[trigger] args_then_close(tokens@, *old(pos) + 2, n) && e == *old(pos) + 2 + 2
                            * n;
                    assert(args_then_close(tokens@, *old(pos) + 2, n));
                } else {
                    if args@.len() > 0 {
                        assert(arg_ok(tokens@, *old(pos) + 2 + 2 * 0) || true);
                    }
                }
            }
        }
        expect(tokens, pos, is_close, ")")?;
        Ok(Term::Function { name: fname, args })
    } else if tok == Token::ColumnName {
        Ok(Term::Column(fname))
    } else {
        let mut message = "expected '(' after '".to_string();
        message.append(fname.as_str());
        message.append("'");
        Err(ParseError::Syntax(message))
    }
}

/// Parses the right-hand side up to a `,` or the end of what it can take.
/// It returns the terms and whether the model keeps its intercept: a lone
/// leading `0` or a trailing `- 1` removes it. `0` cannot be followed by
/// other terms, and an explicit `1` cannot be combined with `- 1`. When the
/// input ends right after a `+`, the error leaves the cursor at the last
/// token consumed before that `+`.
pub fn parse_rhs<'a>(tokens: &'a [(Token, &'a str)], pos: &mut usize) -> (r: Result<
    (Vec<Term>, bool),
    ParseError,
>)
    ensures
        advanced(tokens@, *old(pos), *final(pos)),
        r is Ok ==> *final(pos) <= tokens@.len() || *final(pos) == *old(pos),
        r matches Ok((terms, has_intercept)) ==> (!has_intercept <==> (kind_at(
            tokens@,
            *old(pos) as int,
            Token::Zero,
        ) || (*old(pos) + 2 <= *final(pos) && kind_at(tokens@, *final(pos) - 2, Token::Minus)
            && kind_at(tokens@, *final(pos) - 1, Token::One)))),
        r matches Ok((terms, has_intercept)) ==> (kind_at(tokens@, *old(pos) as int, Token::Zero)
            ==> terms@.len() == 1 && terms@[0] is Zero && *final(pos) == *old(pos) + 1),
        r matches Ok((terms, has_intercept)) ==> (kind_at(tokens@, *old(pos) as int, Token::One)
            ==> terms@.len() >= 1 && terms@[0] is Intercept && has_intercept),
        kind_at(tokens@, *old(pos) as int, Token::Zero) && (kind_at(
            tokens@,
            *old(pos) + 1,
            Token::Plus,
        ) || kind_at(tokens@, *old(pos) + 1, Token::Minus)) ==> (r matches Err(ParseError::Syntax(m))
            && m@ == "zero term (0) cannot be combined with other terms"@),
        kind_at(tokens@, *old(pos) as int, Token::One) && kind_at(tokens@, *old(pos) + 1, Token::Minus)
            && kind_at(tokens@, *old(pos) + 2, Token::One) ==> (r matches Err(ParseError::Syntax(m))
            && m@ == "cannot have both intercept term and intercept removal"@),
        r matches Ok((terms, has_intercept)) ==> forall|k: int|
            0 < k < terms@.len() ==> !(#[trigger] terms@[k] is Intercept) && !(terms@[k] is Zero),
        r matches Ok((terms, has_intercept)) ==> (*old(pos) < tokens@.len() && starts_atom(
            tokens@[*old(pos) as int].0,
        ) ==> terms@.len() >= 1),
        forall|n: int|
            #[trigger] plain_sum(tokens@, *old(pos) as int, n) ==> (r matches Ok((terms, has_intercept))
                && terms@.len() == n && has_intercept && *final(pos) == *old(pos) + 2 * n - 1
                && forall|k: int|
                0 <= k < n ==> (#[trigger] terms@[k] matches Term::Column(c) && c@ == lexeme(
                    tokens@,
                    *old(pos) + 2 * k,
                ))),
        forall|n: int|
            #[trigger] name_run(tokens@, *old(pos) as int, n) && kind_at(
                tokens@,
                *old(pos) + 2 * n - 1,
                Token::Minus,
            ) && kind_at(tokens@, *old(pos) + 2 * n, Token::One) ==> (r matches Ok(
                (terms, false),
            ) && columns_from(terms@, tokens@, *old(pos) as int, n) && *final(pos) == *old(pos) + 2
                * n + 1),
        name_and_block(tokens@, *old(pos) as int) ==> (r matches Ok((terms, true)) && terms@.len()
            == 2 && (terms@[0] matches Term::Column(c) && c@ == lexeme(tokens@, *old(pos) as int)) && (
        terms@[1] matches Term::RandomEffect(re) && simple_block_result(
            re,
            tokens@,
            *old(pos) + 2,
            *old(pos) + 4,
        )) && *final(pos) == *old(pos) + 7),
        forall|e: int|
            #[trigger] call_ends(tokens@, *old(pos) as int, e) && (e == tokens@.len() || kind_at(
                tokens@,
                e,
                Token::Comma,
            )) ==> (r matches Ok((terms, true)) && terms@.len() == 1 && is_call(
                terms@[0],
                tokens@,
                *old(pos) as int,
                e,
            ) && *final(pos) == e),
        kind_at(tokens@, *old(pos) as int, Token::One) && !kind_at(tokens@, *old(pos) + 1, Token::Plus)
            && !kind_at(tokens@, *old(pos) + 1, Token::Minus) ==> (r matches Ok((terms, true))
            && terms@.len() == 1 && terms@[0] is Intercept && *final(pos) == *old(pos) + 1),
        forall|n: int|
            #[trigger] name_run(tokens@, *old(pos) as int, n) && kind_at(
                tokens@,
                *old(pos) + 2 * n - 1,
                Token::Plus,
            ) ==> (r == Err::<(Vec<Term>, bool), ParseError>(
                ParseError::Unexpected { expected: "Function token or ColumnName", found: None },
            ) && *final(pos) == *old(pos) + 2 * n - 2),
        forall|n: int|
            #[trigger] name_run(tokens@, *old(pos) as int, n) && kind_at(
                tokens@,
                *old(pos) + 2 * n - 1,
                Token::Minus,
            ) && !kind_at(tokens@, *old(pos) + 2 * n, Token::One) ==> (r matches Err(
                ParseError::Syntax(m),
            ) && m@ == "expected '1' after '-' to remove intercept"@ && *final(pos) == *old(pos)
                + 2 * n),
{
    let start = *pos;
    proof {
        assert forall|n: int| #[trigger] name_run(tokens@, start as int, n) implies kind_at(
            tokens@,
            start as int,
            Token::ColumnName,
        ) && !kind_at(tokens@, start + 1, Token::FunctionStart) && !kind_at(
            tokens@,
            start + 1,
            Token::InteractionOnly,
        ) && !kind_at(tokens@, start + 1, Token::InteractionAndEffect) by {
            assert(kind_at(tokens@, start + 2 * 0, Token::ColumnName));
            if n > 1 {
                assert(kind_at(tokens@, start + 2 * 0 + 1, Token::Plus));
            }
        }
    }
    proof {
        assert forall|e: int| #[trigger] call_ends(tokens@, start as int, e) && (e == tokens@.len()
            || kind_at(tokens@, e, Token::Comma)) implies !chains_at(tokens@, e) && start
            < tokens@.len() && tokens@[start as int].0 != Token::Zero && tokens@[start as int].0
            != Token::One && tokens@[start as int].0 != Token::Comma && tokens@[start as int].0
            != Token::Plus by {}
    }
    proof {
        if name_and_block(tokens@, start as int) {
            assert(!kind_at(tokens@, start + 1, Token::FunctionStart));
        }
    }
    let mut terms: Vec<Term> = Vec::new();
    let mut explicit_one = false;
    if *pos < tokens.len() && tokens[*pos].0 == Token::Zero {
        *pos = *pos + 1;
        terms.push(Term::Zero);
        if *pos < tokens.len() && (tokens[*pos].0 == Token::Plus || tokens[*pos].0 == Token::Minus) {
            return Err(
                ParseError::Syntax("zero term (0) cannot be combined with other terms".to_string()),
            );
        }
        return Ok((terms, false));
    }
    if crate::cursor::matches(tokens, pos, is_one) {
        terms.push(Term::Intercept);
        explicit_one = true;
    } else if *pos < tokens.len() && tokens[*pos].0 != Token::Comma && tokens[*pos].0
        != Token::Plus {
        let first = parse_term(tokens, pos)?;
        terms.push(first);
    }
    while crate::cursor::matches(tokens, pos, is_plus)
        invariant
            start == *old(pos),
            start <= *pos,
            *pos <= tokens@.len() || *pos == start,
            !kind_at(tokens@, start as int, Token::Zero),
            explicit_one <==> kind_at(tokens@, start as int, Token::One),
            explicit_one ==> terms@.len() >= 1 && terms@[0] is Intercept,
            explicit_one && kind_at(tokens@, start + 1, Token::Minus) ==> *pos == start + 1,
            explicit_one && !kind_at(tokens@, start + 1, Token::Plus) ==> *pos == start + 1
                && terms@.len() == 1,
            forall|e: int|
                #[trigger] call_ends(tokens@, start as int, e) && (e == tokens@.len() || kind_at(
                    tokens@,
                    e,
                    Token::Comma,
                )) ==> (*pos == e && terms@.len() == 1 && is_call(terms@[0], tokens@, start as int, e)),
            name_and_block(tokens@, start as int) ==> ((*pos == start + 1 && terms@.len() == 1 && (
            terms@[0] matches Term::Column(c) && c@ == lexeme(tokens@, start as int))) || (*pos
                == start + 7 && terms@.len() == 2 && (terms@[0] matches Term::Column(c) && c@
                == lexeme(tokens@, start as int)) && (terms@[1] matches Term::RandomEffect(re)
                && simple_block_result(re, tokens@, start + 2, start + 4)))),
            *pos == start ==> terms@.len() == 0,
            start < tokens@.len() && starts_atom(tokens@[start as int].0) ==> terms@.len() >= 1,
            *pos > start ==> kind_at(tokens@, *pos - 1, Token::One) ==> explicit_one && *pos
                == start + 1,
            forall|k: int|
                0 < k < terms@.len() ==> !(#[trigger] terms@[k] is Intercept) && !(
                terms@[k] is Zero),
            !explicit_one ==> forall|k: int|
                0 <= k < terms@.len() ==> !(#[trigger] terms@[k] is Intercept) && !(
                terms@[k] is Zero),
            forall|n: int|
                #[trigger] name_run(tokens@, start as int, n) ==> terms@.len() >= 1 && terms@.len()
                    <= n && *pos == start + 2 * terms@.len() - 1 && forall|k: int|
                    0 <= k < terms@.len() ==> (#[trigger] terms@[k] matches Term::Column(c) && c@
                        == lexeme(tokens@, start + 2 * k)),
        decreases tokens@.len() - *pos,
    {
        let ghost prev = terms@;
        proof {
            assert forall|n: int| #[trigger] name_run(tokens@, start as int, n) && terms@.len() < n implies kind_at(
                tokens@,
                *pos as int,
                Token::ColumnName,
            ) && !kind_at(tokens@, *pos + 1, Token::FunctionStart) && !kind_at(
                tokens@,
                *pos + 1,
                Token::InteractionOnly,
            ) && !kind_at(tokens@, *pos + 1, Token::InteractionAndEffect) by {
                let q = terms@.len() as int;
                assert(kind_at(tokens@, start + 2 * q, Token::ColumnName));
                if q < n - 1 {
                    assert(kind_at(tokens@, start + 2 * q + 1, Token::Plus));
                }
            }
            assert forall|n: int| #[trigger] name_run(tokens@, start as int, n) && terms@.len() >= n implies *pos
                == tokens@.len() by {
                let q = terms@.len() as int - 1;
                if q < n - 1 {
                    assert(kind_at(tokens@, start + 2 * q + 1, Token::Plus));
                }
            }
        }
        if *pos >= tokens.len() {
            // A `+` ends the input: report the cursor at the last token
            // consumed before it.
            *pos = if *pos - 1 > start {
                *pos - 2
            } else {
                start
            };
            return Err(
                ParseError::Unexpected { expected: "Function token or ColumnName", found: None },
            );
        }
        let t = parse_term(tokens, pos)?;
        terms.push(t);
        proof {
            assert forall|n: int| #[trigger] name_run(tokens@, start as int, n) implies forall|k: int|
                0 <= k < terms@.len() ==> (#[trigger] terms@[k] matches Term::Column(c) && c@
                    == lexeme(tokens@, start + 2 * k)) by {
                assert forall|k: int| 0 <= k < terms@.len() implies (#[trigger] terms@[k] matches Term::Column(c) && c@
                    == lexeme(tokens@, start + 2 * k)) by {
                    if k < prev.len() {
                        assert(terms@[k] == prev[k]);
                    }
                }
            }
        }
    }
    proof {
        assert forall|n: int| #[trigger] name_run(tokens@, start as int, n) implies terms@.len()
            == n by {
            let q = terms@.len() as int;
            if q < n {
                assert(kind_at(tokens@, start + 2 * (q - 1) + 1, Token::Plus));
            }
        }
    }
    if crate::cursor::matches(tokens, pos, is_minus) {
        if crate::cursor::matches(tokens, pos, is_one) {
            if explicit_one {
                return Err(
                    ParseError::Syntax(
                        "cannot have both intercept term and intercept removal".to_string(),
                    ),
                );
            }
            return Ok((terms, false));
        } else {
            return Err(
                ParseError::Syntax("expected '1' after '-' to remove intercept".to_string()),
            );
        }
    }
    Ok((terms, true))
}

/// The response at `i` is written in the tokens: a column name, or `bind`
/// with its names at every other position from `i + 2`.
pub open spec fn response_written(tokens: Seq<(Token, &str)>, i: int, resp: Response) -> bool {
    match resp {
        Response::Single(n) => kind_at(tokens, i, Token::ColumnName) && n@ == lexeme(tokens, i),
        Response::Multivariate(names) => {
            &&& kind_at(tokens, i, Token::Bind)
            &&& names@.len() >= 2
            &&& forall|k: int|
                0 <= k < names@.len() ==> (#[trigger] names@[k])@ == lexeme(tokens, i + 2 + 2 * k)
                    && kind_at(tokens, i + 2 + 2 * k, Token::ColumnName)
        },
    }
}

/// From `i`: `bind ( y1 , ... , ym )` with `m` at least 2.
pub open spec fn bind_shape(tokens: Seq<(Token, &str)>, i: int, m: int) -> bool {
    &&& m >= 2
    &&& 0 <= i
    &&& kind_at(tokens, i, Token::Bind)
    &&& kind_at(tokens, i + 1, Token::FunctionStart)
    &&& forall|q: int| 0 <= q < m ==> kind_at(tokens, #[trigger] (i + 2 + 2 * q), Token::ColumnName)
    &&& forall|q: int| 0 <= q < m - 1 ==> kind_at(tokens, #[trigger] (i + 3 + 2 * q), Token::Comma)
    &&& kind_at(tokens, i + 2 * m + 1, Token::FunctionEnd)
}

/// A column name then `~` at `i`.
pub open spec fn simple_head(tokens: Seq<(Token, &str)>, i: int) -> bool {
    kind_at(tokens, i, Token::ColumnName) && kind_at(tokens, i + 1, Token::Tilde)
}

/// From `e` to the end: `, family = name` with a family name.
pub open spec fn family_tail(tokens: Seq<(Token, &str)>, e: int) -> bool {
    &&& tokens.len() == e + 4
    &&& kind_at(tokens, e, Token::Comma)
    &&& kind_at(tokens, e + 1, Token::Family)
    &&& kind_at(tokens, e + 2, Token::Equal)
    &&& family_of(tokens[e + 3].0) is Some
}

/// From `i`: a run of `n` names, optionally followed by `- 1`; the
/// right-hand side ends before `e`, and `hi` says whether it keeps the
/// intercept.
pub open spec fn plain_rhs(tokens: Seq<(Token, &str)>, i: int, n: int, e: int, hi: bool) -> bool {
    &&& name_run(tokens, i, n)
    &&& if hi {
        e == i + 2 * n - 1
    } else {
        kind_at(tokens, i + 2 * n - 1, Token::Minus) && kind_at(tokens, i + 2 * n, Token::One) && e
            == i + 2 * n + 1
    }
}

/// What may follow the right-hand side at `e` for the formula to end well:
/// nothing, or `, family = name`.
pub open spec fn formula_end(tokens: Seq<(Token, &str)>, e: int) -> bool {
    e == tokens.len() || family_tail(tokens, e)
}

/// The family named after `e`, if any.
pub open spec fn family_after(tokens: Seq<(Token, &str)>, e: int) -> Option<Family> {
    if family_tail(tokens, e) {
        family_of(tokens[e + 3].0)
    } else {
        None
    }
}

/// `terms` are the `n` columns named at every other token from `i`.
pub open spec fn columns_from(terms: Seq<Term>, tokens: Seq<(Token, &str)>, i: int, n: int) -> bool {
    &&& terms.len() == n
    &&& forall|k: int|
        0 <= k < n ==> (#[trigger] terms[k] matches Term::Column(c) && c@ == lexeme(
            tokens,
            i + 2 * k,
        ))
}

/// Parses a whole formula, `response ~ rhs [, family = name]`, and requires
/// that nothing follows it. It returns the response, the terms, whether the
/// intercept is kept, and the family if one is named.
pub fn parse_formula<'a>(tokens: &'a [(Token, &'a str)], pos: &mut usize) -> (r: Result<
    (Response, Vec<Term>, bool, Option<Family>),
    ParseError,
>)
    ensures
        advanced(tokens@, *old(pos), *final(pos)),
        r is Ok ==> *final(pos) == tokens@.len(),
        r matches Ok((resp, terms, has_intercept, family)) ==> response_written(
            tokens@,
            *old(pos) as int,
            resp,
        ),
        forall|n: int, e: int, hi: bool|
            simple_head(tokens@, *old(pos) as int) && #[trigger] plain_rhs(
                tokens@,
                *old(pos) + 2,
                n,
                e,
                hi,
            ) && formula_end(tokens@, e) ==> (r matches Ok((Response::Single(_), terms, h, fam))
                && h == hi && columns_from(terms@, tokens@, *old(pos) + 2, n) && fam == family_after(
                tokens@,
                e,
            )),
        forall|m: int, n: int, e: int, hi: bool|
            #[trigger] bind_shape(tokens@, *old(pos) as int, m) && kind_at(
                tokens@,
                *old(pos) + 2 * m + 2,
                Token::Tilde,
            ) && #[trigger] plain_rhs(tokens@, *old(pos) + 2 * m + 3, n, e, hi) && formula_end(
                tokens@,
                e,
            ) ==> (r matches Ok((Response::Multivariate(names), terms, h, fam)) && names@.len()
                == m && h == hi && columns_from(terms@, tokens@, *old(pos) + 2 * m + 3, n) && fam
                == family_after(tokens@, e)),
        simple_head(tokens@, *old(pos) as int) && name_and_block(tokens@, *old(pos) + 2)
            && formula_end(tokens@, *old(pos) + 9) ==> (r matches Ok(
            (Response::Single(_), terms, true, fam),
        ) && terms@.len() == 2 && (terms@[0] matches Term::Column(c) && c@ == lexeme(
            tokens@,
            *old(pos) + 2,
        )) && (terms@[1] matches Term::RandomEffect(re) && simple_block_result(
            re,
            tokens@,
            *old(pos) + 4,
            *old(pos) + 6,
        )) && fam == family_after(tokens@, *old(pos) + 9)),
        forall|e: int|
            simple_head(tokens@, *old(pos) as int) && #[trigger] call_ends(
                tokens@,
                *old(pos) + 2,
                e,
            ) && formula_end(tokens@, e) ==> (r matches Ok((Response::Single(_), terms, true, fam))
                && terms@.len() == 1 && is_call(terms@[0], tokens@, *old(pos) + 2, e) && fam
                == family_after(tokens@, e)),
        simple_head(tokens@, *old(pos) as int) && kind_at(tokens@, *old(pos) + 2, Token::One)
            && kind_at(tokens@, *old(pos) + 3, Token::Minus) && kind_at(
            tokens@,
            *old(pos) + 4,
            Token::One,
        ) ==> (r matches Err(ParseError::Syntax(m))
            && m@ == "cannot have both intercept term and intercept removal"@),
        simple_head(tokens@, *old(pos) as int) && kind_at(tokens@, *old(pos) + 2, Token::One)
            && formula_end(tokens@, *old(pos) + 3) ==> (r matches Ok(
            (Response::Single(_), terms, true, fam),
        ) && terms@.len() == 1 && terms@[0] is Intercept && fam == family_after(
            tokens@,
            *old(pos) + 3,
        )),
        forall|n: int|
            simple_head(tokens@, *old(pos) as int) && #[trigger] plain_sum(
                tokens@,
                *old(pos) + 2,
                n,
            ) && *old(pos) + 2 * n + 2 == tokens@.len() ==> (r == Err::<
                (Response, Vec<Term>, bool, Option<Family>),
                ParseError,
            >(ParseError::Unexpected { expected: "family", found: None }) && *final(pos)
                == tokens@.len()),
        forall|n: int|
            simple_head(tokens@, *old(pos) as int) && #[trigger] name_run(
                tokens@,
                *old(pos) + 2,
                n,
            ) && kind_at(tokens@, *old(pos) + 2 * n + 1, Token::Plus) ==> (r == Err::<
                (Response, Vec<Term>, bool, Option<Family>),
                ParseError,
            >(ParseError::Unexpected { expected: "Function token or ColumnName", found: None })
                && *final(pos) == *old(pos) + 2 * n),
        r matches Ok((resp, terms, has_intercept, family)) ==> (resp matches Response::Multivariate(
            names,
        ) ==> names@.len() >= 2),
        r matches Ok((resp, terms, has_intercept, family)) ==> match family {
            Some(f) => family_tail(tokens@, tokens@.len() - 4) && family_of(
                tokens@[tokens@.len() - 1].0,
            ) == Some(f),
            None => true,
        },
{
    let response = parse_response(tokens, pos)?;
    expect(tokens, pos, is_tilde, "~")?;
    let ghost rs = *pos as int;
    proof {
        assert forall|n: int, e: int, hi: bool|
            #[trigger] plain_rhs(tokens@, rs, n, e, hi)
                && formula_end(tokens@, e) implies (hi ==> plain_sum(tokens@, rs, n)) && (!hi
            ==> name_run(tokens@, rs, n)) by {}
    }
    let (terms, has_intercept) = parse_rhs(tokens, pos)?;
    let ghost re = *pos as int;
    proof {
        assert forall|n: int, e: int, hi: bool|
            #[trigger] plain_rhs(tokens@, rs, n, e, hi)
                && formula_end(tokens@, e) implies has_intercept == hi && columns_from(
            terms@,
            tokens@,
            rs,
            n,
        ) && re == e by {
            if hi {
                assert(plain_sum(tokens@, rs, n));
            } else {
                assert(name_run(tokens@, rs, n));
            }
        }
    }
    let mut family = None;
    if crate::cursor::matches(tokens, pos, is_comma) {
        expect(tokens, pos, is_family_keyword, "family")?;
        expect(tokens, pos, is_equal, "=")?;
        family = Some(parse_family(tokens, pos)?);
    }
    proof {
        assert forall|e: int| formula_end(tokens@, e) && re == e implies family == family_after(
            tokens@,
            e,
        ) && *pos == tokens@.len() by {}
    }
    if *pos < tokens.len() {
        return Err(ParseError::Unexpected { expected: "end of input", found: Some(tokens[*pos].0) });
    }
    Ok((response, terms, has_intercept, family))
}

} // verus!
