use crate::lexer::Token;
use vstd::prelude::*;

verus! {

/// Every way in which parsing a formula can fail. None of them is recovered
/// from: the first one aborts the parse.
#[derive(Debug, Clone, PartialEq, Eq)]
pub enum ParseError {
    /// A character sequence that matches no token; carries the offending text.
    Lex(String),
    /// The input ended where more tokens were required.
    Eoi,
    /// A token of the wrong kind (or none, at the end of input).
    Unexpected { expected: &'static str, found: Option<Token> },
    /// Well tokenized, but a grammar rule above the token level is violated.
    Syntax(String),
}

/// How a character is written inside a quoted string: quote, backslash,
/// tab, carriage return and newline escaped with a backslash.
pub open spec fn escaped_char(c: char) -> Seq<char> {
    if c == '"' {
        seq!['\\', '"']
    } else if c == '\\' {
        seq!['\\', '\\']
    } else if c == '\n' {
        seq!['\\', 'n']
    } else if c == '\t' {
        seq!['\\', 't']
    } else if c == '\r' {
        seq!['\\', 'r']
    } else {
        seq![c]
    }
}

/// The escaped characters of `s`.
pub open spec fn escaped(s: Seq<char>) -> Seq<char>
    decreases s.len(),
{
    if s.len() == 0 {
        Seq::empty()
    } else {
        escaped(s.drop_last()) + escaped_char(s.last())
    }
}

/// `s` in double quotes, escaped.
pub open spec fn quoted(s: Seq<char>) -> Seq<char> {
    seq!['"'] + escaped(s) + seq!['"']
}

/// The text of an error.
pub open spec fn message_text(e: ParseError) -> Seq<char> {
    match e {
        ParseError::Lex(s) => "lexing error at "@ + quoted(s@),
        ParseError::Eoi => "unexpected end of input"@,
        ParseError::Unexpected { expected, found } => "unexpected token: expected "@ + quoted(
            expected@,
        ) + ", found "@ + match found {
            Some(t) => "Some("@ + t.spec_name() + ")"@,
            None => "None"@,
        },
        ParseError::Syntax(s) => "invalid syntax: "@ + s@,
    }
}

fn escape_piece(c: char) -> (r: &'static str)
    requires
        c == '"' || c == '\\' || c == '\n' || c == '\t' || c == '\r',
    ensures
        r@ == escaped_char(c),
{
    proof {
        reveal_strlit("\\\"");
        reveal_strlit("\\\\");
        reveal_strlit("\\n");
        reveal_strlit("\\t");
        reveal_strlit("\\r");
    }
    if c == '"' {
        "\\\""
    } else if c == '\\' {
        "\\\\"
    } else if c == '\n' {
        "\\n"
    } else if c == '\t' {
        "\\t"
    } else {
        "\\r"
    }
}

/// Appends `s` in double quotes, escaped, to `out`.
fn push_quoted(out: &mut String, s: &str)
    ensures
        final(out)@ == old(out)@ + quoted(s@),
{
    proof {
        reveal_strlit("\"");
    }
    out.append("\"");
    let n = s.unicode_len();
    let mut i: usize = 0;
    while i < n
        invariant
            n == s@.len(),
            i <= n,
            out@ == old(out)@ + seq!['"'] + escaped(s@.subrange(0, i as int)),
        decreases n - i,
    {
        let c = s.get_char(i);
        if c == '"' || c == '\\' || c == '\n' || c == '\t' || c == '\r' {
            out.append(escape_piece(c));
        } else {
            let piece = s.substring_char(i, i + 1);
            out.append(piece);
            assert(piece@ =~= seq![c]);
        }
        proof {
            assert(s@.subrange(0, i + 1).drop_last() =~= s@.subrange(0, i as int));
            assert(s@.subrange(0, i + 1).last() == c);
            assert(out@ =~= old(out)@ + seq!['"'] + escaped(s@.subrange(0, i + 1)));
        }
        i = i + 1;
    }
    out.append("\"");
    assert(s@.subrange(0, n as int) =~= s@);
    assert(out@ =~= old(out)@ + quoted(s@));
}

impl ParseError {
    /// The error's message.
    pub fn message(&self) -> (r: String)
        ensures
            r@ == message_text(*self),
    {
        match self {
            ParseError::Lex(s) => {
                let mut out = "lexing error at ".to_string();
                push_quoted(&mut out, s.as_str());
                out
            },
            ParseError::Eoi => "unexpected end of input".to_string(),
            ParseError::Unexpected { expected, found } => {
                let mut out = "unexpected token: expected ".to_string();
                push_quoted(&mut out, expected);
                out.append(", found ");
                match found {
                    Some(t) => {
                        out.append("Some(");
                        out.append(t.name());
                        out.append(")");
                    },
                    None => {
                        out.append("None");
                    },
                }
                out
            },
            ParseError::Syntax(s) => {
                let mut out = "invalid syntax: ".to_string();
                out.append(s.as_str());
                out
            },
        }
    }
}

} // verus!
