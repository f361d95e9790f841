//! The tokenizer: formula text to a sequence of (token kind, lexeme) pairs.
//!
//! Lexing is maximal munch: an identifier runs as long as identifier
//! characters follow, and a keyword wins over the generic identifier class
//! only on an exact match of the whole run (`poly` is a keyword, `polyx` a
//! column name). Whitespace (space, tab, newline, form feed) separates tokens
//! and is skipped. The first character that starts no token aborts lexing.
use crate::errors::ParseError;
use crate::text::{is_digit, is_word};
use vstd::prelude::*;

verus! {

/// The closed set of token kinds.
#[derive(Debug, Clone, Copy, PartialEq, Eq, Structural)]
pub enum Token {
    Minus,
    Zero,
    One,
    Integer,
    StringLiteral,
    True,
    TrueUpper,
    False,
    FalseUpper,
    Null,
    NullUpper,
    ColumnName,
    Tilde,
    Plus,
    Pipe,
    DoublePipe,
    InteractionOnly,
    Slash,
    InteractionAndEffect,
    FunctionStart,
    FunctionEnd,
    Poly,
    Offset,
    Factor,
    C,
    Scale,
    Standardize,
    Center,
    Log,
    BSplines,
    GaussianProcess,
    Monotonic,
    MeasurementError,
    MissingValues,
    ForwardFill,
    BackwardFill,
    Diff,
    Lag,
    Lead,
    Trunc,
    Weights,
    Trials,
    Censored,
    Bind,
    Gr,
    Mm,
    Mmc,
    Cs,
    Comma,
    Equal,
    Family,
    Gaussian,
    Binomial,
    Poisson,
    Cor,
    Id,
    By,
    Cov,
    Dist,
}

} // verus!

verus! {

pub open spec fn is_ident_start(c: char) -> bool {
    ('a' <= c && c <= 'z') || ('A' <= c && c <= 'Z')
}

pub open spec fn is_ident_char(c: char) -> bool {
    is_ident_start(c) || is_digit(c) || c == '_'
}

pub open spec fn is_space(c: char) -> bool {
    c == ' ' || c == '\t' || c == '\n' || c == '\x0C'
}

/// The end of the run of characters from `i` on that satisfy `is_ident_char`.
pub open spec fn ident_end(s: Seq<char>, i: int) -> int
    decreases s.len() - i,
{
    if 0 <= i < s.len() && is_ident_char(s[i]) {
        ident_end(s, i + 1)
    } else {
        i
    }
}

/// The end of the run of decimal digits from `i` on.
pub open spec fn digits_end(s: Seq<char>, i: int) -> int
    decreases s.len() - i,
{
    if 0 <= i < s.len() && is_digit(s[i]) {
        digits_end(s, i + 1)
    } else {
        i
    }
}

/// The index of the first `"` at or after `i`, or the length if none.
pub open spec fn quote_end(s: Seq<char>, i: int) -> int
    decreases s.len() - i,
{
    if 0 <= i < s.len() && s[i] != '"' {
        quote_end(s, i + 1)
    } else {
        i
    }
}

/// The keyword that a whole identifier run spells, if any.
pub open spec fn keyword(w: Seq<char>) -> Option<Token> {
    if w == "true"@ { Some(Token::True) }
    else if w == "TRUE"@ { Some(Token::TrueUpper) }
    else if w == "false"@ { Some(Token::False) }
    else if w == "FALSE"@ { Some(Token::FalseUpper) }
    else if w == "null"@ { Some(Token::Null) }
    else if w == "NULL"@ { Some(Token::NullUpper) }
    else if w == "poly"@ { Some(Token::Poly) }
    else if w == "offset"@ { Some(Token::Offset) }
    else if w == "factor"@ { Some(Token::Factor) }
    else if w == "c"@ { Some(Token::C) }
    else if w == "scale"@ { Some(Token::Scale) }
    else if w == "standardize"@ { Some(Token::Standardize) }
    else if w == "center"@ { Some(Token::Center) }
    else if w == "log"@ { Some(Token::Log) }
    else if w == "bs"@ { Some(Token::BSplines) }
    else if w == "gp"@ { Some(Token::GaussianProcess) }
    else if w == "mono"@ { Some(Token::Monotonic) }
    else if w == "me"@ { Some(Token::MeasurementError) }
    else if w == "mi"@ { Some(Token::MissingValues) }
    else if w == "forward_fill"@ { Some(Token::ForwardFill) }
    else if w == "backward_fill"@ { Some(Token::BackwardFill) }
    else if w == "diff"@ { Some(Token::Diff) }
    else if w == "lag"@ { Some(Token::Lag) }
    else if w == "lead"@ { Some(Token::Lead) }
    else if w == "trunc"@ { Some(Token::Trunc) }
    else if w == "weights"@ { Some(Token::Weights) }
    else if w == "trials"@ { Some(Token::Trials) }
    else if w == "cens"@ { Some(Token::Censored) }
    else if w == "bind"@ { Some(Token::Bind) }
    else if w == "gr"@ { Some(Token::Gr) }
    else if w == "mm"@ { Some(Token::Mm) }
    else if w == "mmc"@ { Some(Token::Mmc) }
    else if w == "cs"@ { Some(Token::Cs) }
    else if w == "family"@ { Some(Token::Family) }
    else if w == "gaussian"@ { Some(Token::Gaussian) }
    else if w == "binomial"@ { Some(Token::Binomial) }
    else if w == "poisson"@ { Some(Token::Poisson) }
    else if w == "cor"@ { Some(Token::Cor) }
    else if w == "id"@ { Some(Token::Id) }
    else if w == "by"@ { Some(Token::By) }
    else if w == "cov"@ { Some(Token::Cov) }
    else if w == "dist"@ { Some(Token::Dist) }
    else { None }
}

/// The token that a single punctuation character forms on its own.
pub open spec fn punctuation(c: char) -> Option<Token> {
    if c == '-' { Some(Token::Minus) }
    else if c == '~' { Some(Token::Tilde) }
    else if c == '+' { Some(Token::Plus) }
    else if c == ':' { Some(Token::InteractionOnly) }
    else if c == '/' { Some(Token::Slash) }
    else if c == '*' { Some(Token::InteractionAndEffect) }
    else if c == '(' { Some(Token::FunctionStart) }
    else if c == ')' { Some(Token::FunctionEnd) }
    else if c == ',' { Some(Token::Comma) }
    else if c == '=' { Some(Token::Equal) }
    else { None }
}

/// The token that starts at `i` (not whitespace) and where it ends, or
/// `None` where no token starts there.
pub open spec fn scan(s: Seq<char>, i: int) -> Option<(Token, int)> {
    let c = s[i];
    if is_ident_start(c) {
        let j = ident_end(s, i);
        match keyword(s.subrange(i, j)) {
            Some(k) => Some((k, j)),
            None => Some((Token::ColumnName, j)),
        }
    } else if c == '0' {
        Some((Token::Zero, i + 1))
    } else if c == '1' {
        Some((Token::One, i + 1))
    } else if is_digit(c) {
        Some((Token::Integer, digits_end(s, i)))
    } else if c == '"' {
        let j = quote_end(s, i + 1);
        if j < s.len() {
            Some((Token::StringLiteral, j + 1))
        } else {
            None
        }
    } else if c == '|' {
        if i + 1 < s.len() && s[i + 1] == '|' {
            Some((Token::DoublePipe, i + 2))
        } else {
            Some((Token::Pipe, i + 1))
        }
    } else {
        match punctuation(c) {
            Some(t) => Some((t, i + 1)),
            None => None,
        }
    }
}

/// Where the text of a lexing failure at `i` ends: an unterminated string
/// literal runs to the end of input, anything else is one character.
pub open spec fn error_end(s: Seq<char>, i: int) -> int {
    if s[i] == '"' {
        s.len() as int
    } else {
        i + 1
    }
}

/// The tokens of `s` from `i` on, each with the bounds of its lexeme; or the
/// bounds of the first text that starts no token.
pub open spec fn lex_from(s: Seq<char>, i: int) -> Result<Seq<(Token, int, int)>, (int, int)>
    decreases s.len() - i,
{
    if i < 0 || i >= s.len() {
        Ok(Seq::empty())
    } else if is_space(s[i]) {
        lex_from(s, i + 1)
    } else {
        match scan(s, i) {
            Some((t, j)) => if i < j <= s.len() {
                match lex_from(s, j) {
                    Ok(rest) => Ok(seq![(t, i, j)] + rest),
                    Err(e) => Err(e),
                }
            } else {
                Err((i, i + 1))
            },
            None => Err((i, error_end(s, i))),
        }
    }
}

} // verus!

verus! {

/// `v` holds, in order, the tokens of `toks` with their lexemes cut from `s`.
pub open spec fn tokens_agree(v: Seq<(Token, &str)>, toks: Seq<(Token, int, int)>, s: Seq<char>) -> bool {
    &&& v.len() == toks.len()
    &&& forall|k: int|
        0 <= k < v.len() ==> (#[trigger] v[k]).0 == toks[k].0 && v[k].1@ == s.subrange(
            toks[k].1,
            toks[k].2,
        )
}

/// Puts `done` in front of the tokens of a lexing result.
pub open spec fn after(done: Seq<(Token, int, int)>, r: Result<Seq<(Token, int, int)>, (int, int)>) -> Result<
    Seq<(Token, int, int)>,
    (int, int),
> {
    match r {
        Ok(rest) => Ok(done + rest),
        Err(e) => Err(e),
    }
}

proof fn lemma_ident_end_bounds(s: Seq<char>, i: int)
    requires
        0 <= i <= s.len(),
    ensures
        i <= ident_end(s, i) <= s.len(),
        i < s.len() && is_ident_char(s[i]) ==> i < ident_end(s, i),
    decreases s.len() - i,
{
    if i < s.len() && is_ident_char(s[i]) {
        lemma_ident_end_bounds(s, i + 1);
    }
}

proof fn lemma_digits_end_bounds(s: Seq<char>, i: int)
    requires
        0 <= i <= s.len(),
    ensures
        i <= digits_end(s, i) <= s.len(),
        i < s.len() && is_digit(s[i]) ==> i < digits_end(s, i),
    decreases s.len() - i,
{
    if i < s.len() && is_digit(s[i]) {
        lemma_digits_end_bounds(s, i + 1);
    }
}

proof fn lemma_quote_end_bounds(s: Seq<char>, i: int)
    requires
        0 <= i <= s.len(),
    ensures
        i <= quote_end(s, i) <= s.len(),
    decreases s.len() - i,
{
    if i < s.len() && s[i] != '"' {
        lemma_quote_end_bounds(s, i + 1);
    }
}

fn ident_run_end(s: &Vec<char>, i: usize) -> (j: usize)
    requires
        i <= s@.len(),
    ensures
        j == ident_end(s@, i as int),
{
    let mut k = i;
    while k < s.len() && (('a' <= s[k] && s[k] <= 'z') || ('A' <= s[k] && s[k] <= 'Z') || ('0'
        <= s[k] && s[k] <= '9') || s[k] == '_')
        invariant
            i <= k <= s@.len(),
            ident_end(s@, k as int) == ident_end(s@, i as int),
        decreases s@.len() - k,
    {
        k = k + 1;
    }
    k
}

fn digit_run_end(s: &Vec<char>, i: usize) -> (j: usize)
    requires
        i <= s@.len(),
    ensures
        j == digits_end(s@, i as int),
{
    let mut k = i;
    while k < s.len() && '0' <= s[k] && s[k] <= '9'
        invariant
            i <= k <= s@.len(),
            digits_end(s@, k as int) == digits_end(s@, i as int),
        decreases s@.len() - k,
    {
        k = k + 1;
    }
    k
}

fn quote_run_end(s: &Vec<char>, i: usize) -> (j: usize)
    requires
        i <= s@.len(),
    ensures
        j == quote_end(s@, i as int),
{
    let mut k = i;
    while k < s.len() && s[k] != '"'
        invariant
            i <= k <= s@.len(),
            quote_end(s@, k as int) == quote_end(s@, i as int),
        decreases s@.len() - k,
    {
        k = k + 1;
    }
    k
}

fn chars_between(s: &Vec<char>, i: usize, j: usize) -> (r: Vec<char>)
    requires
        i <= j <= s@.len(),
    ensures
        r@ == s@.subrange(i as int, j as int),
{
    let mut r = Vec::new();
    let mut k = i;
    while k < j
        invariant
            i <= k <= j <= s@.len(),
            r@ == s@.subrange(i as int, k as int),
        decreases j - k,
    {
        r.push(s[k]);
        k = k + 1;
        assert(r@ =~= s@.subrange(i as int, k as int));
    }
    r
}

/// The keyword that `w` spells, if any.
pub fn keyword_of(w: &[char]) -> (r: Option<Token>)
    ensures
        r == keyword(w@),
{
    if is_word(w, "true") { Some(Token::True) }
    else if is_word(w, "TRUE") { Some(Token::TrueUpper) }
    else if is_word(w, "false") { Some(Token::False) }
    else if is_word(w, "FALSE") { Some(Token::FalseUpper) }
    else if is_word(w, "null") { Some(Token::Null) }
    else if is_word(w, "NULL") { Some(Token::NullUpper) }
    else if is_word(w, "poly") { Some(Token::Poly) }
    else if is_word(w, "offset") { Some(Token::Offset) }
    else if is_word(w, "factor") { Some(Token::Factor) }
    else if is_word(w, "c") { Some(Token::C) }
    else if is_word(w, "scale") { Some(Token::Scale) }
    else if is_word(w, "standardize") { Some(Token::Standardize) }
    else if is_word(w, "center") { Some(Token::Center) }
    else if is_word(w, "log") { Some(Token::Log) }
    else if is_word(w, "bs") { Some(Token::BSplines) }
    else if is_word(w, "gp") { Some(Token::GaussianProcess) }
    else if is_word(w, "mono") { Some(Token::Monotonic) }
    else if is_word(w, "me") { Some(Token::MeasurementError) }
    else if is_word(w, "mi") { Some(Token::MissingValues) }
    else if is_word(w, "forward_fill") { Some(Token::ForwardFill) }
    else if is_word(w, "backward_fill") { Some(Token::BackwardFill) }
    else if is_word(w, "diff") { Some(Token::Diff) }
    else if is_word(w, "lag") { Some(Token::Lag) }
    else if is_word(w, "lead") { Some(Token::Lead) }
    else if is_word(w, "trunc") { Some(Token::Trunc) }
    else if is_word(w, "weights") { Some(Token::Weights) }
    else if is_word(w, "trials") { Some(Token::Trials) }
    else if is_word(w, "cens") { Some(Token::Censored) }
    else if is_word(w, "bind") { Some(Token::Bind) }
    else if is_word(w, "gr") { Some(Token::Gr) }
    else if is_word(w, "mm") { Some(Token::Mm) }
    else if is_word(w, "mmc") { Some(Token::Mmc) }
    else if is_word(w, "cs") { Some(Token::Cs) }
    else if is_word(w, "family") { Some(Token::Family) }
    else if is_word(w, "gaussian") { Some(Token::Gaussian) }
    else if is_word(w, "binomial") { Some(Token::Binomial) }
    else if is_word(w, "poisson") { Some(Token::Poisson) }
    else if is_word(w, "cor") { Some(Token::Cor) }
    else if is_word(w, "id") { Some(Token::Id) }
    else if is_word(w, "by") { Some(Token::By) }
    else if is_word(w, "cov") { Some(Token::Cov) }
    else if is_word(w, "dist") { Some(Token::Dist) }
    else { None }
}

fn punctuation_of(c: char) -> (r: Option<Token>)
    ensures
        r == punctuation(c),
{
    if c == '-' { Some(Token::Minus) }
    else if c == '~' { Some(Token::Tilde) }
    else if c == '+' { Some(Token::Plus) }
    else if c == ':' { Some(Token::InteractionOnly) }
    else if c == '/' { Some(Token::Slash) }
    else if c == '*' { Some(Token::InteractionAndEffect) }
    else if c == '(' { Some(Token::FunctionStart) }
    else if c == ')' { Some(Token::FunctionEnd) }
    else if c == ',' { Some(Token::Comma) }
    else if c == '=' { Some(Token::Equal) }
    else { None }
}

/// The token starting at `i` and its end, as `scan` describes it.
fn scan_at(s: &Vec<char>, i: usize) -> (r: Option<(Token, usize)>)
    requires
        i < s@.len(),
    ensures
        match scan(s@, i as int) {
            Some((t, j)) => r == Some((t, j as usize)) && i < j <= s@.len(),
            None => r is None,
        },
{
    let n = s.len();
    assert(i < n);
    let c = s[i];
    if ('a' <= c && c <= 'z') || ('A' <= c && c <= 'Z') {
        let j = ident_run_end(s, i);
        proof {
            lemma_ident_end_bounds(s@, i as int);
        }
        let w = chars_between(s, i, j);
        match keyword_of(w.as_slice()) {
            Some(k) => Some((k, j)),
            None => Some((Token::ColumnName, j)),
        }
    } else if c == '0' {
        Some((Token::Zero, i + 1))
    } else if c == '1' {
        Some((Token::One, i + 1))
    } else if '0' <= c && c <= '9' {
        proof {
            lemma_digits_end_bounds(s@, i as int);
        }
        Some((Token::Integer, digit_run_end(s, i)))
    } else if c == '"' {
        proof {
            lemma_quote_end_bounds(s@, i as int + 1);
        }
        let j = quote_run_end(s, i + 1);
        if j < s.len() {
            Some((Token::StringLiteral, j + 1))
        } else {
            None
        }
    } else if c == '|' {
        if i + 1 < s.len() && s[i + 1] == '|' {
            Some((Token::DoublePipe, i + 2))
        } else {
            Some((Token::Pipe, i + 1))
        }
    } else {
        match punctuation_of(c) {
            Some(t) => Some((t, i + 1)),
            None => None,
        }
    }
}

/// Splits `input` into tokens, each paired with its lexeme, a slice of
/// `input`. On the first text that starts no token it fails with
/// `ParseError::Lex` carrying that text.
pub fn tokenize<'a>(input: &'a str) -> (r: Result<Vec<(Token, &'a str)>, ParseError>)
    ensures
        match lex_from(input@, 0) {
            Ok(toks) => r is Ok && tokens_agree(r->Ok_0@, toks, input@),
            Err((a, b)) => match r {
                Err(ParseError::Lex(m)) => m@ == input@.subrange(a, b),
                _ => false,
            },
        },
{
    let n = input.unicode_len();
    let mut chars: Vec<char> = Vec::new();
    let mut k: usize = 0;
    while k < n
        invariant
            n == input@.len(),
            k <= n,
            chars@ == input@.subrange(0, k as int),
        decreases n - k,
    {
        chars.push(input.get_char(k));
        k = k + 1;
        assert(chars@ =~= input@.subrange(0, k as int));
    }
    assert(chars@ =~= input@);
    let mut out: Vec<(Token, &'a str)> = Vec::new();
    let ghost mut done: Seq<(Token, int, int)> = Seq::empty();
    let mut i: usize = 0;
    assert(lex_from(input@, 0) == after(done, lex_from(input@, 0))) by {
        match lex_from(input@, 0) {
            Ok(rest) => {
                assert(done + rest =~= rest);
            },
            Err(_) => {},
        }
    }
    while i < n
        invariant
            n == input@.len(),
            chars@ == input@,
            i <= n,
            tokens_agree(out@, done, input@),
            lex_from(input@, 0) == after(done, lex_from(input@, i as int)),
        decreases n - i,
    {
        let c = chars[i];
        if c == ' ' || c == '\t' || c == '\n' || c == '\x0C' {
            i = i + 1;
        } else {
            match scan_at(&chars, i) {
                Some((t, j)) => {
                    let lexeme = input.substring_char(i, j);
                    out.push((t, lexeme));
                    proof {
                        let old_done = done;
                        done = done.push((t, i as int, j as int));
                        match lex_from(input@, j as int) {
                            Ok(rest) => {
                                assert(old_done + (seq![(t, i as int, j as int)] + rest) =~= done
                                    + rest);
                            },
                            Err(_) => {},
                        }
                        assert forall|q: int| 0 <= q < out@.len() implies (#[trigger] out@[q]).0
                            == done[q].0 && out@[q].1@ == input@.subrange(
                            done[q].1,
                            done[q].2,
                        ) by {
                            if q < out@.len() - 1 {
                            }
                        }
                    }
                    i = j;
                },
                None => {
                    let end = if c == '"' {
                        n
                    } else {
                        i + 1
                    };
                    let bad = input.substring_char(i, end);
                    return Err(ParseError::Lex(bad.to_string()));
                },
            }
        }
    }
    proof {
        match lex_from(input@, 0) {
            Ok(toks) => {
                assert(done + Seq::<(Token, int, int)>::empty() =~= done);
            },
            Err(_) => {},
        }
    }
    Ok(out)
}

} // verus!

verus! {

impl Token {
    /// The name of the token kind, as `lex_formula` reports it.
    pub open spec fn spec_name(self) -> Seq<char> {
        match self {
            Token::Minus => "Minus"@,
            Token::Zero => "Zero"@,
            Token::One => "One"@,
            Token::Integer => "Integer"@,
            Token::StringLiteral => "StringLiteral"@,
            Token::True => "True"@,
            Token::TrueUpper => "TrueUpper"@,
            Token::False => "False"@,
            Token::FalseUpper => "FalseUpper"@,
            Token::Null => "Null"@,
            Token::NullUpper => "NullUpper"@,
            Token::ColumnName => "ColumnName"@,
            Token::Tilde => "Tilde"@,
            Token::Plus => "Plus"@,
            Token::Pipe => "Pipe"@,
            Token::DoublePipe => "DoublePipe"@,
            Token::InteractionOnly => "InteractionOnly"@,
            Token::Slash => "Slash"@,
            Token::InteractionAndEffect => "InteractionAndEffect"@,
            Token::FunctionStart => "FunctionStart"@,
            Token::FunctionEnd => "FunctionEnd"@,
            Token::Poly => "Poly"@,
            Token::Offset => "Offset"@,
            Token::Factor => "Factor"@,
            Token::C => "C"@,
            Token::Scale => "Scale"@,
            Token::Standardize => "Standardize"@,
            Token::Center => "Center"@,
            Token::Log => "Log"@,
            Token::BSplines => "BSplines"@,
            Token::GaussianProcess => "GaussianProcess"@,
            Token::Monotonic => "Monotonic"@,
            Token::MeasurementError => "MeasurementError"@,
            Token::MissingValues => "MissingValues"@,
            Token::ForwardFill => "ForwardFill"@,
            Token::BackwardFill => "BackwardFill"@,
            Token::Diff => "Diff"@,
            Token::Lag => "Lag"@,
            Token::Lead => "Lead"@,
            Token::Trunc => "Trunc"@,
            Token::Weights => "Weights"@,
            Token::Trials => "Trials"@,
            Token::Censored => "Censored"@,
            Token::Bind => "Bind"@,
            Token::Gr => "Gr"@,
            Token::Mm => "Mm"@,
            Token::Mmc => "Mmc"@,
            Token::Cs => "Cs"@,
            Token::Comma => "Comma"@,
            Token::Equal => "Equal"@,
            Token::Family => "Family"@,
            Token::Gaussian => "Gaussian"@,
            Token::Binomial => "Binomial"@,
            Token::Poisson => "Poisson"@,
            Token::Cor => "Cor"@,
            Token::Id => "Id"@,
            Token::By => "By"@,
            Token::Cov => "Cov"@,
            Token::Dist => "Dist"@,
        }
    }

    /// The name of the token kind.
    pub fn name(&self) -> (r: &'static str)
        ensures
            r@ == self.spec_name(),
    {
        match *self {
            Token::Minus => "Minus",
            Token::Zero => "Zero",
            Token::One => "One",
            Token::Integer => "Integer",
            Token::StringLiteral => "StringLiteral",
            Token::True => "True",
            Token::TrueUpper => "TrueUpper",
            Token::False => "False",
            Token::FalseUpper => "FalseUpper",
            Token::Null => "Null",
            Token::NullUpper => "NullUpper",
            Token::ColumnName => "ColumnName",
            Token::Tilde => "Tilde",
            Token::Plus => "Plus",
            Token::Pipe => "Pipe",
            Token::DoublePipe => "DoublePipe",
            Token::InteractionOnly => "InteractionOnly",
            Token::Slash => "Slash",
            Token::InteractionAndEffect => "InteractionAndEffect",
            Token::FunctionStart => "FunctionStart",
            Token::FunctionEnd => "FunctionEnd",
            Token::Poly => "Poly",
            Token::Offset => "Offset",
            Token::Factor => "Factor",
            Token::C => "C",
            Token::Scale => "Scale",
            Token::Standardize => "Standardize",
            Token::Center => "Center",
            Token::Log => "Log",
            Token::BSplines => "BSplines",
            Token::GaussianProcess => "GaussianProcess",
            Token::Monotonic => "Monotonic",
            Token::MeasurementError => "MeasurementError",
            Token::MissingValues => "MissingValues",
            Token::ForwardFill => "ForwardFill",
            Token::BackwardFill => "BackwardFill",
            Token::Diff => "Diff",
            Token::Lag => "Lag",
            Token::Lead => "Lead",
            Token::Trunc => "Trunc",
            Token::Weights => "Weights",
            Token::Trials => "Trials",
            Token::Censored => "Censored",
            Token::Bind => "Bind",
            Token::Gr => "Gr",
            Token::Mm => "Mm",
            Token::Mmc => "Mmc",
            Token::Cs => "Cs",
            Token::Comma => "Comma",
            Token::Equal => "Equal",
            Token::Family => "Family",
            Token::Gaussian => "Gaussian",
            Token::Binomial => "Binomial",
            Token::Poisson => "Poisson",
            Token::Cor => "Cor",
            Token::Id => "Id",
            Token::By => "By",
            Token::Cov => "Cov",
            Token::Dist => "Dist",
        }
    }
}

} // verus!
