//! The random-effects sub-grammar: `( terms ('|' [INTEGER '|'] | '||') grouping )`.
//!
//! ```text
//! randomTerms := '1' ['+' randomTerm ('+' randomTerm)*]
//!              | '0' '+' randomTerm ('+' randomTerm)*
//!              | '-' ('1' | '0')
//!              | randomTerm ('+' randomTerm)*
//! randomTerm  := IDENT [(':' | '*') randomTerm]
//!              | 'cs' '(' ('1' | '0' | IDENT) ')'
//!              | 'mmc' '(' IDENT (',' IDENT)* ')'
//! grouping    := IDENT [(':' IDENT) | ('/' IDENT)]
//!              | 'gr' '(' IDENT (',' grOption)* ')'
//!              | 'mm' '(' IDENT (',' IDENT)* ')'
//! ```
use crate::ast::{Argument, CorrelationType, GrOption, Grouping, RandomEffect, RandomTerm};
use crate::cursor::{advanced, expect};
use crate::errors::ParseError;
use crate::grammar::{chains_at, kind_at, lexeme};
use crate::kinds::{
    is_bool_literal, is_close, is_colon, is_column, is_comma, is_cs_argument, is_double_pipe,
    is_equal, is_gr_option_key, is_grouping_start, is_interaction_op, is_minus, is_name_or_null, is_name_or_string,
    is_one, is_one_or_zero, is_open, is_pipe, is_plus, is_random_term_start, is_slash, is_zero,
};
use crate::lexer::Token;
use crate::text::{unquote, unquoted};
use vstd::prelude::*;

verus! {

/// The token at `i` is `|` or `||`.
pub open spec fn bar_at(tokens: Seq<(Token, &str)>, i: int) -> bool {
    kind_at(tokens, i, Token::Pipe) || kind_at(tokens, i, Token::DoublePipe)
}

/// The correlation a bar token stands for, when no id follows.
pub open spec fn bar_correlation(t: Token) -> CorrelationType {
    if t == Token::DoublePipe {
        CorrelationType::Uncorrelated
    } else {
        CorrelationType::Correlated
    }
}

/// From `i`: `(`, the terms ending before `b`, a bar at `b`, a grouping
/// name, `)`.
pub open spec fn simple_block(tokens: Seq<(Token, &str)>, i: int, b: int) -> bool {
    &&& 0 <= i
    &&& kind_at(tokens, i, Token::FunctionStart)
    &&& ((b == i + 2 && (kind_at(tokens, i + 1, Token::One) || kind_at(
        tokens,
        i + 1,
        Token::ColumnName,
    ))) || (b == i + 4 && kind_at(tokens, i + 1, Token::Zero) && kind_at(
        tokens,
        i + 2,
        Token::Plus,
    ) && kind_at(tokens, i + 3, Token::ColumnName)))
    &&& bar_at(tokens, b)
    &&& kind_at(tokens, b + 1, Token::ColumnName)
    &&& kind_at(tokens, b + 2, Token::FunctionEnd)
}

/// What a simple block from `i` with its bar at `b` parses to: its terms
/// (the column `1`, a column, or `SuppressIntercept` then a column), the
/// simple grouping named after the bar, and the bar's correlation.
pub open spec fn simple_block_result(re: RandomEffect, tokens: Seq<(Token, &str)>, i: int, b: int) -> bool {
    &&& re.grouping matches Grouping::Simple(g) && g@ == lexeme(tokens, b + 1)
    &&& re.correlation == bar_correlation(tokens[b].0)
    &&& re.correlation_id is None
    &&& re.terms@.len() == (if b == i + 2 {
        1int
    } else {
        2int
    })
    &&& kind_at(tokens, i + 1, Token::One) ==> (re.terms@[0] matches RandomTerm::Column(c) && c@
        == seq!['1'])
    &&& kind_at(tokens, i + 1, Token::ColumnName) ==> (re.terms@[0] matches RandomTerm::Column(c)
        && c@ == lexeme(tokens, i + 1))
    &&& b == i + 4 ==> (re.terms@[0] is SuppressIntercept && (re.terms@[1] matches RandomTerm::Column(
        c,
    ) && c@ == lexeme(tokens, i + 3)))
}

/// Parses one parenthesised random-effects block.
pub fn parse_random_effect<'a>(tokens: &'a [(Token, &'a str)], pos: &mut usize) -> (r: Result<
    RandomEffect,
    ParseError,
>)
    ensures
        advanced(tokens@, *old(pos), *final(pos)),
        r is Ok ==> {
            &&& *old(pos) + 4 <= *final(pos)
            &&& kind_at(tokens@, *old(pos) as int, Token::FunctionStart)
            &&& kind_at(tokens@, *final(pos) - 1, Token::FunctionEnd)
        },
        r matches Ok(re) ==> (re.correlation is CrossParameter <==> re.correlation_id is Some),
        forall|b: int|
            #[trigger] simple_block(tokens@, *old(pos) as int, b) ==> (r matches Ok(re)
                && simple_block_result(re, tokens@, *old(pos) as int, b) && *final(pos) == b + 3),
{
    proof {
        assert forall|b: int| #[trigger] simple_block(tokens@, *old(pos) as int, b) implies !kind_at(
            tokens@,
            *old(pos) + 2,
            Token::Plus,
        ) || b == *old(pos) + 4 by {}
    }
    expect(tokens, pos, is_open, "(")?;
    let terms = parse_random_terms(tokens, pos)?;
    let (correlation, correlation_id) = parse_correlation_type(tokens, pos)?;
    let grouping = parse_grouping(tokens, pos)?;
    expect(tokens, pos, is_close, ")")?;
    Ok(RandomEffect { terms, grouping, correlation, correlation_id })
}

/// Parses the terms before the bar. A leading `1` stands as the column
/// named `1`; a leading `0 +`, `-1` or `-0` as `SuppressIntercept`.
pub fn parse_random_terms<'a>(tokens: &'a [(Token, &'a str)], pos: &mut usize) -> (r: Result<
    Vec<RandomTerm>,
    ParseError,
>)
    ensures
        advanced(tokens@, *old(pos), *final(pos)),
        r is Ok ==> *old(pos) < *final(pos),
        r matches Ok(terms) ==> terms@.len() > 0,
        r is Ok && kind_at(tokens@, *old(pos) as int, Token::One) ==> (r->Ok_0@[0] matches RandomTerm::Column(n) && n@ == seq!['1']),
        r is Ok && (kind_at(tokens@, *old(pos) as int, Token::Zero) || kind_at(tokens@, *old(pos) as int, Token::Minus)) ==> r->Ok_0@[0] is SuppressIntercept,
        kind_at(tokens@, *old(pos) as int, Token::One) && !kind_at(tokens@, *old(pos) + 1, Token::Plus) ==> (r matches Ok(terms) && terms@.len() == 1 && *final(pos) == *old(pos) + 1),
        kind_at(tokens@, *old(pos) as int, Token::Minus) && (kind_at(tokens@, *old(pos) + 1, Token::One) || kind_at(tokens@, *old(pos) + 1, Token::Zero)) ==> (r matches Ok(terms) && terms@.len() == 1 && *final(pos) == *old(pos) + 2),
        kind_at(tokens@, *old(pos) as int, Token::Zero) && !kind_at(tokens@, *old(pos) + 1, Token::Plus) ==> r matches Err(ParseError::Syntax(_)),
        kind_at(tokens@, *old(pos) as int, Token::ColumnName) && bar_at(tokens@, *old(pos) + 1) ==> (r matches Ok(terms) && terms@.len() == 1 && (terms@[0] matches RandomTerm::Column(c) && c@ == lexeme(tokens@, *old(pos) as int)) && *final(pos) == *old(pos) + 1),
        kind_at(tokens@, *old(pos) as int, Token::Zero) && kind_at(tokens@, *old(pos) + 1, Token::Plus) && kind_at(tokens@, *old(pos) + 2, Token::ColumnName) && bar_at(tokens@, *old(pos) + 3) ==> (r matches Ok(terms) && terms@.len() == 2 && terms@[0] is SuppressIntercept && (terms@[1] matches RandomTerm::Column(c) && c@ == lexeme(tokens@, *old(pos) + 2)) && *final(pos) == *old(pos) + 3),
{
    let mut terms: Vec<RandomTerm> = Vec::new();
    if crate::cursor::matches(tokens, pos, is_one) {
        let one = "1".to_string();
        proof {
            reveal_strlit("1");
        }
        terms.push(RandomTerm::Column(one));
        if crate::cursor::matches(tokens, pos, is_plus) {
            parse_random_sum(tokens, pos, &mut terms)?;
        }
    } else if crate::cursor::matches(tokens, pos, is_zero) {
        terms.push(RandomTerm::SuppressIntercept);
        if crate::cursor::matches(tokens, pos, is_plus) {
            parse_random_sum(tokens, pos, &mut terms)?;
        } else {
            return Err(ParseError::Syntax("expected '+' after '0' in random effects".to_string()));
        }
    } else if crate::cursor::matches(tokens, pos, is_minus) {
        if crate::cursor::matches(tokens, pos, is_one_or_zero) {
            terms.push(RandomTerm::SuppressIntercept);
        } else {
            return Err(
                ParseError::Syntax(
                    "expected '1' or '0' after '-' for intercept suppression".to_string(),
                ),
            );
        }
    } else {
        parse_random_sum(tokens, pos, &mut terms)?;
    }
    Ok(terms)
}

/// Parses `randomTerm ('+' randomTerm)*`, appending to `terms`.
fn parse_random_sum<'a>(
    tokens: &'a [(Token, &'a str)],
    pos: &mut usize,
    terms: &mut Vec<RandomTerm>,
) -> (r: Result<(), ParseError>)
    ensures
        advanced(tokens@, *old(pos), *final(pos)),
        r is Ok ==> *old(pos) < *final(pos),
        final(terms)@.len() >= old(terms)@.len(),
        forall|k: int| 0 <= k < old(terms)@.len() ==> final(terms)@[k] == old(terms)@[k],
        r is Ok ==> final(terms)@.len() > old(terms)@.len(),
        kind_at(tokens@, *old(pos) as int, Token::ColumnName) && bar_at(tokens@, *old(pos) + 1) ==> (
        r is Ok && *final(pos) == *old(pos) + 1 && final(terms)@.len() == old(terms)@.len() + 1 && (
        final(terms)@.last() matches RandomTerm::Column(c) && c@ == lexeme(tokens@, *old(pos) as int))),
{
    let start = *pos;
    let ghost before = terms@;
    let first = parse_random_term(tokens, pos)?;
    terms.push(first);
    while crate::cursor::matches(tokens, pos, is_plus)
        invariant
            start == *old(pos),
            before == old(terms)@,
            start < *pos <= tokens@.len(),
            terms@.len() > before.len(),
            forall|k: int| 0 <= k < before.len() ==> terms@[k] == before[k],
            kind_at(tokens@, start as int, Token::ColumnName) && bar_at(tokens@, start + 1) ==> (
            *pos == start + 1 && terms@.len() == before.len() + 1 && (terms@.last() matches RandomTerm::Column(
                c,
            ) && c@ == lexeme(tokens@, start as int))),
        decreases tokens@.len() - *pos,
    {
        let t = parse_random_term(tokens, pos)?;
        terms.push(t);
    }
    Ok(())
}

/// Parses one random term: a column, possibly in an interaction chain,
/// `cs(...)` or `mmc(...)`.
pub fn parse_random_term<'a>(tokens: &'a [(Token, &'a str)], pos: &mut usize) -> (r: Result<
    RandomTerm,
    ParseError,
>)
    ensures
        advanced(tokens@, *old(pos), *final(pos)),
        r is Ok ==> *old(pos) < *final(pos),
        r matches Ok(RandomTerm::Column(n)) ==> kind_at(tokens@, *old(pos) as int, Token::ColumnName)
            && n@ == lexeme(tokens@, *old(pos) as int) && *final(pos) == *old(pos) + 1,
        kind_at(tokens@, *old(pos) as int, Token::ColumnName) && !kind_at(tokens@, *old(pos) + 1, Token::InteractionOnly) && !kind_at(tokens@, *old(pos) + 1, Token::InteractionAndEffect) ==> r matches Ok(RandomTerm::Column(_)),
        kind_at(tokens@, *old(pos) as int, Token::Cs) && kind_at(tokens@, *old(pos) + 1, Token::FunctionStart) && (kind_at(tokens@, *old(pos) + 2, Token::One) || kind_at(tokens@, *old(pos) + 2, Token::Zero) || kind_at(tokens@, *old(pos) + 2, Token::ColumnName)) && kind_at(tokens@, *old(pos) + 3, Token::FunctionEnd) ==> (r matches Ok(RandomTerm::Function { name, args }) && name@ == "cs"@ && args@.len() == 1 && cs_argument(args@[0], tokens@, *old(pos) + 2) && *final(pos) == *old(pos) + 4),
        forall|n: int| kind_at(tokens@, *old(pos) as int, Token::Mmc) && #[trigger] mm_shape(tokens@, *old(pos) + 1, n) ==> (r matches Ok(RandomTerm::Function { name, args }) && name@ == "mmc"@ && args@.len() == n && *final(pos) == *old(pos) + 2 * n + 2 && forall|q: int| 0 <= q < n ==> (#[trigger] args@[q] matches Argument::Ident(a) && a@ == lexeme(tokens@, *old(pos) + 2 + 2 * q))),
        kind_at(tokens@, *old(pos) as int, Token::ColumnName) && chains_at(tokens@, *old(pos) + 1) && kind_at(tokens@, *old(pos) + 2, Token::ColumnName) && !chains_at(tokens@, *old(pos) + 3) ==> (r matches Ok(RandomTerm::Interaction { left, right }) && (*left matches RandomTerm::Column(a) && a@ == lexeme(tokens@, *old(pos) as int)) && (*right matches RandomTerm::Column(b) && b@ == lexeme(tokens@, *old(pos) + 2)) && *final(pos) == *old(pos) + 3),
        !(r is Ok) && *old(pos) < tokens@.len() && !(tokens@[*old(pos) as int].0 == Token::ColumnName
            || tokens@[*old(pos) as int].0 == Token::FunctionStart || tokens@[*old(pos) as int].0
            == Token::Cs || tokens@[*old(pos) as int].0 == Token::Mmc) ==> *final(pos) == *old(pos),
    decreases tokens@.len() - *old(pos),
{
    let (tok, name) = expect(tokens, pos, is_random_term_start, "ColumnName, FunctionStart, cs, or mmc")?;
    match tok {
        Token::ColumnName => {
            if crate::cursor::matches(tokens, pos, is_interaction_op) {
                let right = parse_random_term(tokens, pos)?;
                Ok(
                    RandomTerm::Interaction {
                        left: Box::new(RandomTerm::Column(name.to_string())),
                        right: Box::new(right),
                    },
                )
            } else {
                Ok(RandomTerm::Column(name.to_string()))
            }
        },
        Token::Cs => {
            expect(tokens, pos, is_open, "(")?;
            let (arg_tok, arg_str) = expect(tokens, pos, is_cs_argument, "1, 0, or ColumnName")?;
            let arg = match arg_tok {
                Token::One => Argument::Integer(1),
                Token::Zero => Argument::Integer(0),
                _ => Argument::Ident(arg_str.to_string()),
            };
            expect(tokens, pos, is_close, ")")?;
            let mut args = Vec::new();
            args.push(arg);
            let name = "cs".to_string();
            proof {
                reveal_strlit("cs");
            }
            Ok(RandomTerm::Function { name, args })
        },
        Token::Mmc => {
            let start = *pos - 1;
            proof {
                assert forall|n: int| #[trigger] mm_shape(tokens@, start + 1, n) implies kind_at(
                    tokens@,
                    start + 2,
                    Token::ColumnName,
                ) by {
                    assert(kind_at(tokens@, start + 1 + 1 + 2 * 0, Token::ColumnName));
                }
            }
            expect(tokens, pos, is_open, "(")?;
            let mut args: Vec<Argument> = Vec::new();
            let (_, first) = expect(tokens, pos, is_column, "ColumnName")?;
            args.push(Argument::Ident(first.to_string()));
            while crate::cursor::matches(tokens, pos, is_comma)
                invariant
                    start == *old(pos),
                    *old(pos) < *pos <= tokens@.len(),
                    kind_at(tokens@, *old(pos) as int, Token::Mmc),
                    args@.len() >= 1,
                    *pos == start + 1 + 2 * args@.len(),
                    forall|q: int|
                        0 <= q < args@.len() ==> (#[trigger] args@[q] matches Argument::Ident(a)
                            && a@ == lexeme(tokens@, start + 2 + 2 * q)),
                    forall|n: int| #[trigger] mm_shape(tokens@, start + 1, n) ==> args@.len() <= n,
                decreases tokens@.len() - *pos,
            {
                proof {
                    assert forall|n: int| #[trigger] mm_shape(tokens@, start + 1, n) implies args@.len()
                        < n && kind_at(tokens@, *pos as int, Token::ColumnName) by {
                        if args@.len() >= n {
                            assert(kind_at(tokens@, start + 1 + 2 * n, Token::FunctionEnd));
                        }
                        assert(kind_at(tokens@, start + 1 + 1 + 2 * args@.len(), Token::ColumnName));
                    }
                }
                let (_, arg_name) = expect(tokens, pos, is_column, "ColumnName")?;
                let ghost prev = args@;
                args.push(Argument::Ident(arg_name.to_string()));
                proof {
                    assert forall|q: int| 0 <= q < args@.len() implies (#[trigger] args@[q] matches Argument::Ident(a)
                        && a@ == lexeme(tokens@, start + 2 + 2 * q)) by {
                        if q < prev.len() {
                            assert(args@[q] == prev[q]);
                        }
                    }
                }
            }
            proof {
                assert forall|n: int| #[trigger] mm_shape(tokens@, start + 1, n) implies args@.len()
                    == n by {
                    let q = args@.len() as int;
                    if q < n {
                        assert(kind_at(tokens@, start + 1 + 2 + 2 * (q - 1), Token::Comma));
                    }
                }
            }
            expect(tokens, pos, is_close, ")")?;
            let name = "mmc".to_string();
            proof {
                reveal_strlit("mmc");
            }
            Ok(RandomTerm::Function { name, args })
        },
        _ => Err(ParseError::Syntax("unexpected function start in random term".to_string())),
    }
}

/// The argument of `cs(...)` that the token at `k` gives.
pub open spec fn cs_argument(a: Argument, tokens: Seq<(Token, &str)>, k: int) -> bool {
    match tokens[k].0 {
        Token::One => a == Argument::Integer(1),
        Token::Zero => a == Argument::Integer(0),
        _ => a matches Argument::Ident(s) && s@ == lexeme(tokens, k),
    }
}

/// Parses the bar: `||` (uncorrelated), `|` (correlated), or `|ID|`
/// (correlated across blocks that share the integer `ID`).
pub fn parse_correlation_type<'a>(tokens: &'a [(Token, &'a str)], pos: &mut usize) -> (r: Result<
    (CorrelationType, Option<String>),
    ParseError,
>)
    ensures
        advanced(tokens@, *old(pos), *final(pos)),
        kind_at(tokens@, *old(pos) as int, Token::DoublePipe) ==> r == Ok::<
            (CorrelationType, Option<String>),
            ParseError,
        >((CorrelationType::Uncorrelated, None)) && *final(pos) == *old(pos) + 1,
        kind_at(tokens@, *old(pos) as int, Token::Pipe) && !kind_at(
            tokens@,
            *old(pos) + 1,
            Token::Integer,
        ) ==> r == Ok::<(CorrelationType, Option<String>), ParseError>(
            (CorrelationType::Correlated, None),
        ) && *final(pos) == *old(pos) + 1,
        kind_at(tokens@, *old(pos) as int, Token::Pipe) && kind_at(tokens@, *old(pos) + 1, Token::Integer) ==> match r {
            Ok((CorrelationType::CrossParameter(id), Some(id2))) => id@ == lexeme(tokens@, *old(pos) + 1) && id2@ == id@ && kind_at(tokens@, *old(pos) + 2, Token::Pipe) && *final(pos) == *old(pos) + 3,
            Ok(_) => false,
            Err(e) => e is Syntax && !kind_at(tokens@, *old(pos) + 2, Token::Pipe),
        },
        !kind_at(tokens@, *old(pos) as int, Token::Pipe) && !kind_at(tokens@, *old(pos) as int, Token::DoublePipe) ==> r == Err::<(CorrelationType, Option<String>), ParseError>(ParseError::Unexpected { expected: "| or ||", found: if *old(pos) < tokens@.len() { Some(tokens@[*old(pos) as int].0) } else { None } }) && *final(pos) == *old(pos),
{
    if crate::cursor::matches(tokens, pos, is_double_pipe) {
        Ok((CorrelationType::Uncorrelated, None))
    } else if crate::cursor::matches(tokens, pos, is_pipe) {
        if *pos < tokens.len() && tokens[*pos].0 == Token::Integer {
            let id_slice = tokens[*pos].1;
            *pos = *pos + 1;
            if crate::cursor::matches(tokens, pos, is_pipe) {
                Ok((CorrelationType::CrossParameter(id_slice.to_string()), Some(id_slice.to_string())))
            } else {
                Err(ParseError::Syntax("expected second '|' after correlation ID".to_string()))
            }
        } else {
            Ok((CorrelationType::Correlated, None))
        }
    } else {
        let found = if *pos < tokens.len() {
            Some(tokens[*pos].0)
        } else {
            None
        };
        Err(ParseError::Unexpected { expected: "| or ||", found })
    }
}

/// Parses the grouping factor after the bar.
pub fn parse_grouping<'a>(tokens: &'a [(Token, &'a str)], pos: &mut usize) -> (r: Result<
    Grouping,
    ParseError,
>)
    ensures
        advanced(tokens@, *old(pos), *final(pos)),
        r is Ok ==> *old(pos) < *final(pos),
        r matches Ok(Grouping::Simple(g)) ==> g@ == lexeme(tokens@, *old(pos) as int) && *final(pos) == *old(pos) + 1,
        r matches Ok(Grouping::Interaction { left, right }) ==> left@ == lexeme(tokens@, *old(pos) as int) && right@ == lexeme(tokens@, *old(pos) + 2) && kind_at(tokens@, *old(pos) + 1, Token::InteractionOnly),
        r matches Ok(Grouping::Nested { outer, inner }) ==> outer@ == lexeme(tokens@, *old(pos) as int) && inner@ == lexeme(tokens@, *old(pos) + 2) && kind_at(tokens@, *old(pos) + 1, Token::Slash),
        r is Ok ==> (kind_at(tokens@, *old(pos) as int, Token::ColumnName) || kind_at(tokens@, *old(pos) as int, Token::Gr) || kind_at(tokens@, *old(pos) as int, Token::Mm)),
        kind_at(tokens@, *old(pos) as int, Token::ColumnName) && !kind_at(tokens@, *old(pos) + 1, Token::InteractionOnly) && !kind_at(tokens@, *old(pos) + 1, Token::Slash) ==> r matches Ok(Grouping::Simple(_)),
        forall|n: int| kind_at(tokens@, *old(pos) as int, Token::Gr) && #[trigger] gr_shape(tokens@, *old(pos) + 1, n) ==> (r matches Ok(Grouping::Gr { group, options }) && options@.len() == n && group@ == lexeme(tokens@, *old(pos) + 2) && *final(pos) == *old(pos) + 4 + 4 * n),
        forall|n: int| kind_at(tokens@, *old(pos) as int, Token::Mm) && #[trigger] mm_shape(tokens@, *old(pos) + 1, n) ==> (r matches Ok(Grouping::Mm { groups }) && groups@.len() == n && *final(pos) == *old(pos) + 2 * n + 2),
        !kind_at(tokens@, *old(pos) as int, Token::ColumnName) && !kind_at(tokens@, *old(pos) as int, Token::Gr) && !kind_at(tokens@, *old(pos) as int, Token::Mm) ==> r == Err::<Grouping, ParseError>(ParseError::Unexpected { expected: "ColumnName, gr, or mm", found: if *old(pos) < tokens@.len() { Some(tokens@[*old(pos) as int].0) } else { None } }) && *final(pos) == *old(pos),
        kind_at(tokens@, *old(pos) as int, Token::ColumnName) && kind_at(tokens@, *old(pos) + 1, Token::InteractionOnly) && kind_at(tokens@, *old(pos) + 2, Token::ColumnName) ==> (r matches Ok(Grouping::Interaction { .. }) && *final(pos) == *old(pos) + 3),
        kind_at(tokens@, *old(pos) as int, Token::ColumnName) && kind_at(tokens@, *old(pos) + 1, Token::Slash) && kind_at(tokens@, *old(pos) + 2, Token::ColumnName) ==> (r matches Ok(Grouping::Nested { .. }) && *final(pos) == *old(pos) + 3),
{
    let (tok, name) = expect(tokens, pos, is_grouping_start, "ColumnName, gr, or mm")?;
    match tok {
        Token::ColumnName => {
            if crate::cursor::matches(tokens, pos, is_colon) {
                let (_, right) = expect(tokens, pos, is_column, "ColumnName")?;
                Ok(Grouping::Interaction { left: name.to_string(), right: right.to_string() })
            } else if crate::cursor::matches(tokens, pos, is_slash) {
                let (_, inner) = expect(tokens, pos, is_column, "ColumnName")?;
                Ok(Grouping::Nested { outer: name.to_string(), inner: inner.to_string() })
            } else {
                Ok(Grouping::Simple(name.to_string()))
            }
        },
        Token::Gr => parse_gr_grouping(tokens, pos),
        _ => parse_mm_grouping(tokens, pos),
    }
}

/// Parses `'(' IDENT (',' grOption)* ')'` after `gr`.
pub fn parse_gr_grouping<'a>(tokens: &'a [(Token, &'a str)], pos: &mut usize) -> (r: Result<
    Grouping,
    ParseError,
>)
    ensures
        advanced(tokens@, *old(pos), *final(pos)),
        r is Ok ==> *old(pos) + 3 <= *final(pos),
        r matches Ok(g) ==> g is Gr,
        r matches Ok(Grouping::Gr { group, options }) ==> group@ == lexeme(tokens@, *old(pos) + 1),
        forall|n: int|
            #[trigger] gr_shape(tokens@, *old(pos) as int, n) ==> (r matches Ok(
                Grouping::Gr { group, options },
            ) && options@.len() == n && *final(pos) == *old(pos) + 3 + 4 * n),
{
    expect(tokens, pos, is_open, "(")?;
    let (_, group) = expect(tokens, pos, is_column, "ColumnName")?;
    let start = *pos;
    let mut options: Vec<GrOption> = Vec::new();
    while crate::cursor::matches(tokens, pos, is_comma)
        invariant
            start == *old(pos) + 2,
            start <= *pos <= tokens@.len(),
            forall|n: int|
                #[trigger] gr_shape(tokens@, *old(pos) as int, n) ==> options@.len() <= n && *pos
                    == start + 4 * options@.len(),
        decreases tokens@.len() - *pos,
    {
        proof {
            assert forall|n: int| #[trigger] gr_shape(tokens@, *old(pos) as int, n) implies options@.len()
                < n && option_at(tokens@, *pos as int) by {
                let q = options@.len() as int;
                if q >= n {
                    assert(kind_at(tokens@, *old(pos) + 2 + 4 * n, Token::FunctionEnd));
                }
                assert(option_at(tokens@, *old(pos) + 3 + 4 * q));
            }
        }
        let option = parse_gr_option(tokens, pos)?;
        options.push(option);
    }
    proof {
        assert forall|n: int| #[trigger] gr_shape(tokens@, *old(pos) as int, n) implies options@.len()
            == n by {
            let q = options@.len() as int;
            if q < n {
                assert(kind_at(tokens@, *old(pos) + 2 + 4 * q, Token::Comma));
            }
        }
    }
    expect(tokens, pos, is_close, ")")?;
    Ok(Grouping::Gr { group: group.to_string(), options })
}

/// From `i`: `( a , b , ... )` with `n` names.
pub open spec fn mm_shape(tokens: Seq<(Token, &str)>, i: int, n: int) -> bool {
    &&& n >= 1
    &&& 0 <= i
    &&& kind_at(tokens, i, Token::FunctionStart)
    &&& forall|q: int| 0 <= q < n ==> kind_at(tokens, #[trigger] (i + 1 + 2 * q), Token::ColumnName)
    &&& forall|q: int| 0 <= q < n - 1 ==> kind_at(tokens, #[trigger] (i + 2 + 2 * q), Token::Comma)
    &&& kind_at(tokens, i + 2 * n, Token::FunctionEnd)
}

/// An option at `k`: a key, `=`, and a value of a kind the key takes.
pub open spec fn option_at(tokens: Seq<(Token, &str)>, k: int) -> bool {
    &&& 0 <= k && k + 2 < tokens.len()
    &&& kind_at(tokens, k + 1, Token::Equal)
    &&& option_value_fits(tokens[k].0, tokens[k + 2].0)
}

/// From `i`: `( g , option , ... )` with `n` options.
pub open spec fn gr_shape(tokens: Seq<(Token, &str)>, i: int, n: int) -> bool {
    &&& n >= 0
    &&& 0 <= i
    &&& kind_at(tokens, i, Token::FunctionStart)
    &&& kind_at(tokens, i + 1, Token::ColumnName)
    &&& forall|q: int| 0 <= q < n ==> kind_at(tokens, #[trigger] (i + 2 + 4 * q), Token::Comma)
    &&& forall|q: int| 0 <= q < n ==> #[trigger] option_at(tokens, i + 3 + 4 * q)
    &&& kind_at(tokens, i + 2 + 4 * n, Token::FunctionEnd)
}

/// Whether a boolean literal token means true.
pub open spec fn truth_of(t: Token) -> bool {
    t == Token::True || t == Token::TrueUpper
}

/// The keys `gr(...)` takes: `cor`, `id`, `by`, `cov`, `dist`.
pub open spec fn gr_option_key(t: Token) -> bool {
    t == Token::Cor || t == Token::Id || t == Token::By || t == Token::Cov || t == Token::Dist
}

/// Whether `value` is a token kind that option `key` takes: a boolean for
/// `cor` and `cov`, a name or string for `id` and `dist`, a name or null for
/// `by`.
pub open spec fn option_value_fits(key: Token, value: Token) -> bool {
    match key {
        Token::Cor | Token::Cov => value == Token::True || value == Token::TrueUpper || value
            == Token::False || value == Token::FalseUpper,
        Token::Id | Token::Dist => value == Token::ColumnName || value == Token::StringLiteral,
        Token::By => value == Token::ColumnName || value == Token::Null || value == Token::NullUpper,
        _ => false,
    }
}

/// Parses one `key = value` option of `gr(...)`.
pub fn parse_gr_option<'a>(tokens: &'a [(Token, &'a str)], pos: &mut usize) -> (r: Result<
    GrOption,
    ParseError,
>)
    ensures
        advanced(tokens@, *old(pos), *final(pos)),
        r is Ok ==> *final(pos) == *old(pos) + 3 && kind_at(tokens@, *old(pos) + 1, Token::Equal),
        r matches Ok(GrOption::Cor(b)) ==> kind_at(tokens@, *old(pos) as int, Token::Cor) && b == truth_of(tokens@[*old(pos) + 2].0),
        r matches Ok(GrOption::Cov(b)) ==> kind_at(tokens@, *old(pos) as int, Token::Cov) && b == truth_of(tokens@[*old(pos) + 2].0),
        r matches Ok(GrOption::Id(s)) ==> kind_at(tokens@, *old(pos) as int, Token::Id) && s@ == unquote(lexeme(tokens@, *old(pos) + 2)),
        r matches Ok(GrOption::Dist(s)) ==> kind_at(tokens@, *old(pos) as int, Token::Dist) && s@ == unquote(lexeme(tokens@, *old(pos) + 2)),
        kind_at(tokens@, *old(pos) + 1, Token::Equal) && *old(pos) + 2 < tokens@.len() && option_value_fits(tokens@[*old(pos) as int].0, tokens@[*old(pos) + 2].0) ==> r is Ok,
        kind_at(tokens@, *old(pos) + 1, Token::Equal) && *old(pos) + 2 < tokens@.len() && gr_option_key(tokens@[*old(pos) as int].0) && !option_value_fits(tokens@[*old(pos) as int].0, tokens@[*old(pos) + 2].0) ==> (r matches Err(ParseError::Unexpected { expected, found }) && found == Some(tokens@[*old(pos) + 2].0) && *final(pos) == *old(pos) + 2),
        r matches Ok(GrOption::By(v)) ==> kind_at(tokens@, *old(pos) as int, Token::By) && match v {
            Some(s) => s@ == lexeme(tokens@, *old(pos) + 2) && kind_at(tokens@, *old(pos) + 2, Token::ColumnName),
            None => kind_at(tokens@, *old(pos) + 2, Token::Null) || kind_at(tokens@, *old(pos) + 2, Token::NullUpper),
        },
{
    let (key, _) = expect(tokens, pos, is_gr_option_key, "gr option")?;
    expect(tokens, pos, is_equal, "=")?;
    match key {
        Token::Cor => {
            let (value, _) = expect(tokens, pos, is_bool_literal, "true or false")?;
            Ok(GrOption::Cor(value == Token::True || value == Token::TrueUpper))
        },
        Token::Cov => {
            let (value, _) = expect(tokens, pos, is_bool_literal, "true or false")?;
            Ok(GrOption::Cov(value == Token::True || value == Token::TrueUpper))
        },
        Token::Id => {
            let (_, value) = expect(tokens, pos, is_name_or_string, "ID string")?;
            Ok(GrOption::Id(unquoted(value)))
        },
        Token::By => {
            let (value, text) = expect(tokens, pos, is_name_or_null, "by variable or NULL")?;
            if value == Token::ColumnName {
                Ok(GrOption::By(Some(text.to_string())))
            } else {
                Ok(GrOption::By(None))
            }
        },
        _ => {
            let (_, value) = expect(tokens, pos, is_name_or_string, "distribution")?;
            Ok(GrOption::Dist(unquoted(value)))
        },
    }
}

/// Parses `'(' IDENT (',' IDENT)* ')'` after `mm`.
pub fn parse_mm_grouping<'a>(tokens: &'a [(Token, &'a str)], pos: &mut usize) -> (r: Result<
    Grouping,
    ParseError,
>)
    ensures
        advanced(tokens@, *old(pos), *final(pos)),
        r is Ok ==> *old(pos) + 3 <= *final(pos),
        r matches Ok(Grouping::Mm { groups }) ==> groups@.len() >= 1 && groups@[0]@ == lexeme(tokens@, *old(pos) + 1),
        r matches Ok(g) ==> g is Mm,
        forall|n: int|
            #[trigger] mm_shape(tokens@, *old(pos) as int, n) ==> (r matches Ok(Grouping::Mm { groups })
                && groups@.len() == n && *final(pos) == *old(pos) + 2 * n + 1 && forall|q: int|
                0 <= q < n ==> (#[trigger] groups@[q])@ == lexeme(tokens@, *old(pos) + 1 + 2 * q)),
{
    proof {
        assert forall|n: int| #[trigger] mm_shape(tokens@, *old(pos) as int, n) implies kind_at(
            tokens@,
            *old(pos) + 1,
            Token::ColumnName,
        ) by {
            assert(kind_at(tokens@, *old(pos) + 1 + 2 * 0, Token::ColumnName));
        }
    }
    expect(tokens, pos, is_open, "(")?;
    let mut groups: Vec<String> = Vec::new();
    let (_, first) = expect(tokens, pos, is_column, "ColumnName")?;
    groups.push(first.to_string());
    while crate::cursor::matches(tokens, pos, is_comma)
        invariant
            *old(pos) + 2 <= *pos <= tokens@.len(),
            groups@.len() >= 1,
            groups@[0]@ == lexeme(tokens@, *old(pos) + 1),
            *pos == *old(pos) + 2 * groups@.len(),
            forall|q: int|
                0 <= q < groups@.len() ==> (#[trigger] groups@[q])@ == lexeme(
                    tokens@,
                    *old(pos) + 1 + 2 * q,
                ),
            forall|n: int| #[trigger] mm_shape(tokens@, *old(pos) as int, n) ==> groups@.len() <= n,
        decreases tokens@.len() - *pos,
    {
        proof {
            assert forall|n: int| #[trigger] mm_shape(tokens@, *old(pos) as int, n) implies groups@.len()
                < n && kind_at(tokens@, *pos as int, Token::ColumnName) by {
                if groups@.len() >= n {
                    assert(kind_at(tokens@, *old(pos) + 2 * n, Token::FunctionEnd));
                }
                assert(kind_at(tokens@, *old(pos) + 1 + 2 * groups@.len(), Token::ColumnName));
            }
        }
        let (_, g) = expect(tokens, pos, is_column, "ColumnName")?;
        let ghost prev = groups@;
        groups.push(g.to_string());
        proof {
            assert forall|q: int| 0 <= q < groups@.len() implies (#[trigger] groups@[q])@ == lexeme(
                tokens@,
                *old(pos) + 1 + 2 * q,
            ) by {
                if q < prev.len() {
                    assert(groups@[q] == prev[q]);
                }
            }
        }
    }
    proof {
        assert forall|n: int| #[trigger] mm_shape(tokens@, *old(pos) as int, n) implies groups@.len()
            == n by {
            let q = groups@.len() as int;
            if q < n {
                assert(kind_at(tokens@, *old(pos) + 2 + 2 * (q - 1), Token::Comma));
            }
        }
    }
    expect(tokens, pos, is_close, ")")?;
    Ok(Grouping::Mm { groups })
}

} // verus!
