//! Token trees as the macros read them.

use vstd::prelude::*;
use vstd::string::*;

verus! {

/// The brackets around a group of tokens.
#[derive(Clone, Copy, Debug, PartialEq, Eq, Structural)]
pub enum Delimiter {
    /// `( ... )`
    Parenthesis,
    /// `{ ... }`
    Brace,
    /// `[ ... ]`
    Bracket,
    /// No brackets: the group only keeps its tokens together.
    Bare,
}

/// A token, or a group of tokens in brackets.
#[derive(Debug, PartialEq, Eq)]
pub enum Token {
    /// A group with its tokens.
    Group(Delimiter, Vec<Token>),
    /// An identifier, by its name.
    Ident(String),
    /// A punctuation character.
    Punct(char),
    /// A literal, as it stands in the source text.
    Literal(String),
}

/// The tokens inside the groups without brackets that `input` starts with,
/// one inside the other. Tokens after such a group are left out with it.
pub open spec fn spec_ignore_groups(input: Seq<Token>) -> Seq<Token>
    decreases input,
{
    if input.len() > 0 {
        match input[0] {
            Token::Group(Delimiter::Bare, inner) => spec_ignore_groups(inner@),
            _ => input,
        }
    } else {
        input
    }
}

/// Strips the groups without brackets that the tokens start with.
pub fn ignore_groups(input: &[Token]) -> (inner: &[Token])
    ensures
        inner@ == spec_ignore_groups(input@),
    decreases input@,
{
    if input.len() > 0 {
        match &input[0] {
            Token::Group(Delimiter::Bare, inner) => ignore_groups(inner.as_slice()),
            _ => input,
        }
    } else {
        input
    }
}

/// Whether two strings are the same.
pub fn same_text(a: &str, b: &str) -> (same: bool)
    ensures
        same == (a@ == b@),
{
    let x = a.as_bytes();
    let y = b.as_bytes();
    proof {
        vstd::utf8::encode_utf8_decode_utf8(a@);
        vstd::utf8::encode_utf8_decode_utf8(b@);
    }
    if x.len() != y.len() {
        return false;
    }
    let mut i: usize = 0;
    while i < x.len()
        invariant
            x@.len() == y@.len(),
            i <= x@.len(),
            x@ == a.spec_bytes(),
            y@ == b.spec_bytes(),
            forall|j: int| 0 <= j < i ==> x@[j] == y@[j],
        decreases x@.len() - i,
    {
        if x[i] != y[i] {
            return false;
        }
        i += 1;
    }
    assert(x@ =~= y@);
    true
}

/// The token that `token` stands for: itself, or the first token inside
/// the groups without brackets that it is, if there is one.
pub open spec fn spec_strip_groups(token: Token) -> Option<Token> {
    let inner = spec_ignore_groups(seq![token]);
    if inner.len() > 0 {
        Some(inner[0])
    } else {
        None
    }
}

/// Strips the groups without brackets off a token.
pub fn strip_groups(token: &Token) -> (inner: Option<&Token>)
    ensures
        match inner {
            Some(found) => spec_strip_groups(*token) == Some(*found),
            None => spec_strip_groups(*token) is None,
        },
{
    match token {
        Token::Group(Delimiter::Bare, inner) => {
            let stream = ignore_groups(inner.as_slice());
            if stream.len() > 0 {
                Some(&stream[0])
            } else {
                None
            }
        },
        _ => Some(token),
    }
}

} // verus!
