//! A tokenized formula with its cursor, and the rendering of parse errors
//! against it.
use crate::ast::{Family, Response, Term};
use crate::errors::ParseError;
use crate::grammar;
use crate::grammar::{
    bind_shape,
    columns_from, family_after, family_of, family_tail, formula_end, kind_at, name_run, plain_rhs,
    plain_sum, response_written, simple_head,
};
use crate::lexer::{lex_from, tokenize, tokens_agree, Token};
use crate::cursor::advanced;
use crate::style::{bold, green, red};
use vstd::prelude::*;

verus! {

/// The input, its tokens with their lexemes, and the cursor.
pub struct Parser<'a> {
    pub input: &'a str,
    pub tokens: Vec<(Token, &'a str)>,
    pub pos: usize,
}

/// Tokenizes `input` into a parser positioned at the first token.
pub fn new<'a>(input: &'a str) -> (r: Result<Parser<'a>, ParseError>)
    ensures
        match lex_from(input@, 0) {
            Ok(toks) => r matches Ok(p) && p.input == input && p.pos == 0 && tokens_agree(
                p.tokens@,
                toks,
                input@,
            ),
            Err((a, b)) => match r {
                Err(ParseError::Lex(m)) => m@ == input@.subrange(a, b),
                _ => false,
            },
        },
{
    let tokens = tokenize(input)?;
    Ok(Parser { input, tokens, pos: 0 })
}

/// ANSI red, bold: `ESC[1m ESC[31m text ESC[39m ESC[0m`.
pub open spec fn alarm(s: Seq<char>) -> Seq<char> {
    seq!['\x1b', '[', '1', 'm'] + (seq!['\x1b', '[', '3', '1', 'm'] + s + seq![
        '\x1b',
        '[',
        '3',
        '9',
        'm',
    ]) + seq!['\x1b', '[', '0', 'm']
}

/// ANSI red.
pub open spec fn in_red(s: Seq<char>) -> Seq<char> {
    seq!['\x1b', '[', '3', '1', 'm'] + s + seq!['\x1b', '[', '3', '9', 'm']
}

/// ANSI green.
pub open spec fn in_green(s: Seq<char>) -> Seq<char> {
    seq!['\x1b', '[', '3', '2', 'm'] + s + seq!['\x1b', '[', '3', '9', 'm']
}

/// The consumed prefix of the lexemes, each in green and followed by a space.
pub open spec fn consumed(lexemes: Seq<(Token, &str)>, n: int) -> Seq<char>
    decreases n,
{
    if n <= 0 || lexemes.len() == 0 {
        Seq::empty()
    } else if n > lexemes.len() {
        consumed(lexemes, lexemes.len() as int)
    } else {
        consumed(lexemes, n - 1) + in_green(lexemes[n - 1].1@) + seq![' ']
    }
}

/// The rendering of `err` for the input `input` whose tokens are `tokens`
/// and whose cursor stands at `pos`.
pub open spec fn rendering(input: Seq<char>, tokens: Seq<(Token, &str)>, pos: int, err: ParseError) -> Seq<char> {
    match err {
        ParseError::Lex(s) => alarm("Lexing error"@) + "\n\n"@ + s@ + "\n"@,
        ParseError::Eoi => alarm("Unexpected end of input"@) + "\n\n"@
            + "the formula ended earlier than expected"@ + "\n"@,
        ParseError::Unexpected { expected, found } => alarm("Syntax error- Unexpected Token"@)
            + "\n"@ + "Formula: "@ + input + "\n"@ + "Show: "@ + consumed(tokens, pos) + in_red(
            if 0 <= pos < tokens.len() {
                tokens[pos].1@
            } else {
                "<eoi>"@
            },
        ) + "\n"@ + "Expected Token: "@ + expected@ + "\n"@,
        ParseError::Syntax(s) => alarm("Syntax error"@) + "\n\n"@ + s@ + "\n"@,
    }
}

fn alarm_text(s: &str) -> (r: String)
    ensures
        r@ == alarm(s@),
{
    let coloured = red(s);
    bold(coloured.as_str())
}

impl<'a> Parser<'a> {
    /// Tokenizes `input`, as [`new`] does.
    pub fn new(input: &'a str) -> (r: Result<Self, ParseError>)
        ensures
            match lex_from(input@, 0) {
                Ok(toks) => r matches Ok(p) && p.input == input && p.pos == 0 && tokens_agree(
                    p.tokens@,
                    toks,
                    input@,
                ),
                Err((a, b)) => match r {
                    Err(ParseError::Lex(m)) => m@ == input@.subrange(a, b),
                    _ => false,
                },
            },
    {
        new(input)
    }

    /// Renders `err` for a reader: a coloured heading, and for an unexpected
    /// token the formula, the lexemes consumed so far in green, the failing
    /// lexeme (or `<eoi>`) in red, and what was expected. It leaves the
    /// parser as it is.
    pub fn pretty_error(&self, err: &ParseError) -> (r: String)
        ensures
            r@ == rendering(self.input@, self.tokens@, self.pos as int, *err),
    {
        match err {
            ParseError::Lex(s) => {
                let mut out = alarm_text("Lexing error");
                out.append("\n\n");
                out.append(s.as_str());
                out.append("\n");
                out
            },
            ParseError::Eoi => {
                let mut out = alarm_text("Unexpected end of input");
                out.append("\n\n");
                out.append("the formula ended earlier than expected");
                out.append("\n");
                out
            },
            ParseError::Unexpected { expected, found: _ } => {
                let mut out = alarm_text("Syntax error- Unexpected Token");
                out.append("\n");
                out.append("Formula: ");
                out.append(self.input);
                out.append("\n");
                out.append("Show: ");
                let ghost head = out@;
                let n = if self.pos < self.tokens.len() {
                    self.pos
                } else {
                    self.tokens.len()
                };
                proof {
                    assert(consumed(self.tokens@, 0) =~= Seq::<char>::empty());
                }
                let mut i: usize = 0;
                while i < n
                    invariant
                        n <= self.tokens@.len(),
                        i <= n,
                        out@ == head + consumed(self.tokens@, i as int),
                    decreases n - i,
                {
                    let piece = green(self.tokens[i].1);
                    out.append(piece.as_str());
                    proof {
                        reveal_strlit(" ");
                    }
                    out.append(" ");
                    i = i + 1;
                    assert(out@ =~= head + consumed(self.tokens@, i as int));
                }
                proof {
                    if (self.pos as int) > self.tokens@.len() && self.tokens@.len() > 0 {
                        assert(consumed(self.tokens@, self.pos as int) == consumed(
                            self.tokens@,
                            self.tokens@.len() as int,
                        ));
                    }
                }
                let failed: &str = if self.pos < self.tokens.len() {
                    self.tokens[self.pos].1
                } else {
                    "<eoi>"
                };
                let failed_text = red(failed);
                out.append(failed_text.as_str());
                out.append("\n");
                out.append("Expected Token: ");
                out.append(expected);
                out.append("\n");
                out
            },
            ParseError::Syntax(s) => {
                let mut out = alarm_text("Syntax error");
                out.append("\n\n");
                out.append(s.as_str());
                out.append("\n");
                out
            },
        }
    }

    /// Parses the whole token sequence as a formula from the cursor on,
    /// leaving the cursor where parsing stopped.
    pub fn parse_formula(&mut self) -> (r: Result<(Response, Vec<Term>, bool, Option<Family>), ParseError>)
        ensures
            final(self).input == old(self).input,
            final(self).tokens == old(self).tokens,
            advanced(old(self).tokens@, old(self).pos, final(self).pos),
            r is Ok ==> final(self).pos == final(self).tokens@.len(),
            r matches Ok((resp, terms, has_intercept, family)) ==> response_written(
                old(self).tokens@,
                old(self).pos as int,
                resp,
            ),
            r matches Ok((resp, terms, has_intercept, family)) ==> (resp matches Response::Multivariate(
                names,
            ) ==> names@.len() >= 2),
            r matches Ok((resp, terms, has_intercept, family)) ==> match family {
                Some(f) => family_tail(old(self).tokens@, old(self).tokens@.len() - 4)
                    && family_of(old(self).tokens@[old(self).tokens@.len() - 1].0) == Some(f),
                None => true,
            },
            forall|n: int, e: int, hi: bool|
                simple_head(old(self).tokens@, old(self).pos as int) && #[trigger] plain_rhs(
                    old(self).tokens@,
                    old(self).pos + 2,
                    n,
                    e,
                    hi,
                ) && formula_end(old(self).tokens@, e) ==> (r matches Ok(
                    (Response::Single(_), terms, h, fam),
                ) && h == hi && columns_from(terms@, old(self).tokens@, old(self).pos + 2, n) && fam
                    == family_after(old(self).tokens@, e)),
            forall|m: int, n: int, e: int, hi: bool|
                #[trigger] bind_shape(old(self).tokens@, old(self).pos as int, m) && kind_at(
                    old(self).tokens@,
                    old(self).pos + 2 * m + 2,
                    Token::Tilde,
                ) && #[trigger] plain_rhs(old(self).tokens@, old(self).pos + 2 * m + 3, n, e, hi)
                    && formula_end(old(self).tokens@, e) ==> (r matches Ok(
                    (Response::Multivariate(names), terms, h, fam),
                ) && names@.len() == m && h == hi && columns_from(
                    terms@,
                    old(self).tokens@,
                    old(self).pos + 2 * m + 3,
                    n,
                ) && fam == family_after(old(self).tokens@, e)),
            simple_head(old(self).tokens@, old(self).pos as int) && kind_at(
                old(self).tokens@,
                old(self).pos + 2,
                Token::One,
            ) && formula_end(old(self).tokens@, old(self).pos + 3) ==> (r matches Ok(
                (Response::Single(_), terms, true, fam),
            ) && terms@.len() == 1 && terms@[0] is Intercept && fam == family_after(
                old(self).tokens@,
                old(self).pos + 3,
            )),
            forall|n: int|
                simple_head(old(self).tokens@, old(self).pos as int) && #[trigger] plain_sum(
                    old(self).tokens@,
                    old(self).pos + 2,
                    n,
                ) && old(self).pos + 2 * n + 2 == old(self).tokens@.len() ==> (r == Err::<
                    (Response, Vec<Term>, bool, Option<Family>),
                    ParseError,
                >(ParseError::Unexpected { expected: "family", found: None }) && final(self).pos
                    == old(self).tokens@.len()),
            forall|n: int|
                simple_head(old(self).tokens@, old(self).pos as int) && #[trigger] name_run(
                    old(self).tokens@,
                    old(self).pos + 2,
                    n,
                ) && kind_at(old(self).tokens@, old(self).pos + 2 * n + 1, Token::Plus) ==> (r
                    == Err::<(Response, Vec<Term>, bool, Option<Family>), ParseError>(
                    ParseError::Unexpected {
                        expected: "Function token or ColumnName",
                        found: None,
                    },
                ) && final(self).pos == old(self).pos + 2 * n),
    {
        grammar::parse_formula(self.tokens.as_slice(), &mut self.pos)
    }
}

} // verus!
