//! The macros, as functions from the tokens they are given to what they
//! put in their place.

use crate::codegen::{obfstr_with, random_u32, spec_obfstr, Obfuscated};
use crate::literal::{spec_string_parse, try_string_parse, ParseError};
use crate::tokens::{
    ignore_groups, same_text, spec_ignore_groups, spec_strip_groups, strip_groups, Token,
};
use crate::wide::{spec_utf16, units};
use vstd::prelude::*;
use vstd::string::*;
use vstd::utf8::encode_utf8;

verus! {

/// Why a macro does not take its arguments. Places count the tokens that
/// are left when the groups without brackets are stripped off the
/// arguments.
#[derive(Clone, Copy, Debug, PartialEq, Eq)]
pub enum MacroError {
    /// A string literal is due at this place; `None` where the tokens end
    /// before it.
    ExpectedStringLiteral(Option<usize>),
    /// The name of a primitive type is due at this place; `None` where
    /// there is no token.
    ExpectedPrimitive(Option<usize>),
    /// The token at this place is one too many.
    UnexpectedToken(usize),
    /// A group without brackets holds no token.
    EmptyGroup,
    /// The string literal cannot be read.
    Literal(ParseError),
}

/// What `obfstr` is asked for: whether the string is wide, and the string.
/// The arguments are `L`, which may be missing, and a string literal.
pub open spec fn spec_obfstr_args(input: Seq<Token>) -> Result<(bool, Seq<char>), MacroError> {
    let stream = spec_ignore_groups(input);
    if stream.len() == 0 {
        Err(MacroError::ExpectedStringLiteral(None))
    } else {
        match spec_strip_groups(stream[0]) {
            None => Err(MacroError::EmptyGroup),
            Some(first) => {
                let wide = first matches Token::Ident(name) && name@ == "L"@;
                let at: int = if wide {
                    1
                } else {
                    0
                };
                if at >= stream.len() {
                    Err(MacroError::ExpectedStringLiteral(None))
                } else {
                    match spec_strip_groups(stream[at]) {
                        None => Err(MacroError::EmptyGroup),
                        Some(Token::Literal(text)) => match spec_string_parse(text@) {
                            Err(e) => Err(MacroError::Literal(e)),
                            Ok(string) => if at + 1 < stream.len() {
                                Err(MacroError::UnexpectedToken((at + 1) as usize))
                            } else {
                                Ok((wide, string))
                            },
                        },
                        Some(_) => Err(MacroError::ExpectedStringLiteral(Some(at as usize))),
                    }
                }
            },
        }
    }
}

/// The length in bytes of the string that `strlen` is given: its one
/// argument that counts is a string literal.
pub open spec fn spec_strlen(input: Seq<Token>) -> Result<nat, MacroError> {
    let stream = spec_ignore_groups(input);
    if stream.len() > 0 && stream[0] is Literal {
        match spec_string_parse(stream[0]->Literal_0@) {
            Ok(string) => Ok(encode_utf8(string).len()),
            Err(e) => Err(MacroError::Literal(e)),
        }
    } else {
        Err(MacroError::ExpectedStringLiteral(None))
    }
}

/// The wide string that `wide` is given: its one argument is a string
/// literal.
pub open spec fn spec_wide(input: Seq<Token>) -> Result<Seq<u16>, MacroError> {
    let stream = spec_ignore_groups(input);
    if stream.len() == 0 {
        Err(MacroError::ExpectedStringLiteral(None))
    } else if stream[0] is Literal {
        match spec_string_parse(stream[0]->Literal_0@) {
            Err(e) => Err(MacroError::Literal(e)),
            Ok(string) => if stream.len() > 1 {
                Err(MacroError::UnexpectedToken(1))
            } else {
                Ok(spec_utf16(string))
            },
        }
    } else {
        Err(MacroError::ExpectedStringLiteral(Some(0)))
    }
}

/// The name that `random` is given: its one argument is an identifier.
pub open spec fn spec_primitive_name(input: Seq<Token>) -> Result<Seq<char>, MacroError> {
    let stream = spec_ignore_groups(input);
    if stream.len() == 0 {
        Err(MacroError::ExpectedPrimitive(None))
    } else if stream[0] is Ident {
        if stream.len() > 1 {
            Err(MacroError::UnexpectedToken(1))
        } else {
            Ok(stream[0]->Ident_0@)
        }
    } else {
        Err(MacroError::ExpectedPrimitive(Some(0)))
    }
}

/// `strlen`: the length in bytes of the string that the literal stands for.
pub fn strlen_impl(input: &[Token]) -> (r: Result<usize, MacroError>)
    ensures
        match r {
            Ok(len) => spec_strlen(input@) == Ok::<nat, MacroError>(len as nat),
            Err(e) => spec_strlen(input@) == Err::<nat, MacroError>(e),
        },
{
    let input = ignore_groups(input);
    if input.len() > 0 {
        if let Token::Literal(literal) = &input[0] {
            return match try_string_parse(literal.as_str()) {
                Ok(s) => Ok(s.as_str().as_bytes().len()),
                Err(e) => Err(MacroError::Literal(e)),
            };
        }
    }
    Err(MacroError::ExpectedStringLiteral(None))
}

/// `obfstr`: a key drawn at random, and the array that stands for the
/// string under that key.
pub fn obfstr_impl(input: &[Token]) -> (r: Result<(u32, Obfuscated), MacroError>)
    ensures
        match r {
            Ok((key, array)) => spec_obfstr_args(input@) matches Ok((wide, text)) && array@
                == spec_obfstr(text, wide, key),
            Err(e) => spec_obfstr_args(input@) == Err::<(bool, Seq<char>), MacroError>(e),
        },
{
    let input = ignore_groups(input);
    if input.len() == 0 {
        return Err(MacroError::ExpectedStringLiteral(None));
    }
    // Optional L ident prefix to indicate wide strings
    let mut wide: bool = false;
    let mut at: usize = 0;
    match strip_groups(&input[0]) {
        Some(Token::Ident(ident)) => {
            if same_text(ident.as_str(), "L") {
                wide = true;
                at = 1;
            }
        },
        Some(_) => {},
        None => {
            return Err(MacroError::EmptyGroup);
        },
    }
    if at >= input.len() {
        return Err(MacroError::ExpectedStringLiteral(None));
    }
    // Followed by a string literal
    let string = match strip_groups(&input[at]) {
        Some(Token::Literal(lit)) => match try_string_parse(lit.as_str()) {
            Ok(string) => string,
            Err(e) => {
                return Err(MacroError::Literal(e));
            },
        },
        Some(_) => {
            return Err(MacroError::ExpectedStringLiteral(Some(at)));
        },
        None => {
            return Err(MacroError::EmptyGroup);
        },
    };
    // End of macro arguments
    if at + 1 < input.len() {
        return Err(MacroError::UnexpectedToken(at + 1));
    }
    // Generate a random key
    let key: u32 = random_u32();
    // Obfuscate the string itself
    Ok((key, obfstr_with(string.as_str(), wide, key)))
}

/// `wide`: the UTF-16 code units of the string that the literal stands
/// for.
pub fn wide(input: &[Token]) -> (r: Result<Vec<u16>, MacroError>)
    ensures
        match r {
            Ok(words) => spec_wide(input@) == Ok::<Seq<u16>, MacroError>(words@),
            Err(e) => spec_wide(input@) == Err::<Seq<u16>, MacroError>(e),
        },
{
    let input = ignore_groups(input);
    // Parse the input as a single string literal
    if input.len() == 0 {
        return Err(MacroError::ExpectedStringLiteral(None));
    }
    let string = match &input[0] {
        Token::Literal(lit) => match try_string_parse(lit.as_str()) {
            Ok(string) => string,
            Err(e) => {
                return Err(MacroError::Literal(e));
            },
        },
        _ => {
            return Err(MacroError::ExpectedStringLiteral(Some(0)));
        },
    };
    if input.len() > 1 {
        return Err(MacroError::UnexpectedToken(1));
    }
    // Encode the string literal as an array of words
    Ok(units(string.as_str()))
}

/// The name of the primitive type that `random` is asked for.
pub fn primitive_name(input: &[Token]) -> (r: Result<&str, MacroError>)
    ensures
        match r {
            Ok(name) => spec_primitive_name(input@) == Ok::<Seq<char>, MacroError>(name@),
            Err(e) => spec_primitive_name(input@) == Err::<Seq<char>, MacroError>(e),
        },
{
    let input = ignore_groups(input);
    if input.len() == 0 {
        return Err(MacroError::ExpectedPrimitive(None));
    }
    match &input[0] {
        Token::Ident(ident) => {
            if input.len() > 1 {
                return Err(MacroError::UnexpectedToken(1));
            }
            Ok(ident.as_str())
        },
        _ => Err(MacroError::ExpectedPrimitive(Some(0))),
    }
}

/// What stands in the result for the tokens of one group when the calls
/// of a macro are replaced.
#[derive(Clone, Copy, Debug, PartialEq, Eq, Structural)]
pub enum Edit {
    /// The token at this place, as it is.
    Keep(usize),
    /// The group at this place, with the calls among its own tokens
    /// replaced in turn.
    Enter(usize),
    /// What the macro makes of the tokens of the group at this place,
    /// which is the last token of a call.
    Expand(usize),
}

/// Whether a call of the macro `name` starts at `at`: the name, an
/// exclamation mark and a group.
pub open spec fn spec_calls(tokens: Seq<Token>, at: int, name: Seq<char>) -> bool {
    &&& 0 <= at
    &&& at + 3 <= tokens.len()
    &&& tokens[at] is Ident
    &&& tokens[at]->Ident_0@ == name
    &&& tokens[at + 1] == Token::Punct('!')
    &&& tokens[at + 2] is Group
}

/// What stands for the token at `at` where it is not part of a call.
pub open spec fn spec_take(tokens: Seq<Token>, at: int) -> Edit {
    if tokens[at] is Group {
        Edit::Enter(at as usize)
    } else {
        Edit::Keep(at as usize)
    }
}

/// What stands for the tokens from `at` on. A call is replaced by what
/// the macro makes of its group. The token after a call is taken as it
/// is, and does not start a call itself.
pub open spec fn spec_edits(tokens: Seq<Token>, at: int, name: Seq<char>) -> Seq<Edit>
    decreases tokens.len() - at,
{
    if at < 0 || at >= tokens.len() {
        Seq::empty()
    } else if spec_calls(tokens, at, name) {
        if at + 3 < tokens.len() {
            seq![Edit::Expand((at + 2) as usize), spec_take(tokens, at + 3)] + spec_edits(
                tokens,
                at + 4,
                name,
            )
        } else {
            seq![Edit::Expand((at + 2) as usize)]
        }
    } else {
        seq![spec_take(tokens, at)] + spec_edits(tokens, at + 1, name)
    }
}

/// Whether a call of the macro `name` starts at `at`.
pub fn is_macro_call(tokens: &[Token], at: usize, name: &str) -> (calls: bool)
    ensures
        calls == spec_calls(tokens@, at as int, name@),
{
    if at <= tokens.len() && tokens.len() - at >= 3 {
        match (&tokens[at], &tokens[at + 1], &tokens[at + 2]) {
            (Token::Ident(ident), Token::Punct(punct), Token::Group(_, _)) => {
                *punct == '!' && same_text(ident.as_str(), name)
            },
            _ => false,
        }
    } else {
        false
    }
}

/// Replaces the calls of the macro `name` among the tokens of one group:
/// says what stands in the result, in order.
pub fn replace_macro(input: &[Token], name: &str) -> (output: Vec<Edit>)
    ensures
        output@ == spec_edits(input@, 0, name@),
{
    let mut output: Vec<Edit> = Vec::new();
    let n: usize = input.len();
    let mut at: usize = 0;
    loop
        invariant
            n == input@.len(),
            at <= n,
            output@ + spec_edits(input@, at as int, name@) == spec_edits(input@, 0, name@),
        ensures
            output@ == spec_edits(input@, 0, name@),
        decreases n - at,
    {
        let ghost before = output@;
        let ghost rest = spec_edits(input@, at as int, name@);
        // If tokens are matched, insert the replacement and skip some tokens
        if is_macro_call(input, at, name) {
            output.push(Edit::Expand(at + 2));
            at += 3;
        }
        if at < n {
            match &input[at] {
                // Recursively process into groups
                Token::Group(_, _) => output.push(Edit::Enter(at)),
                _ => output.push(Edit::Keep(at)),
            }
            at += 1;
            assert(output@ + spec_edits(input@, at as int, name@) =~= before + rest);
        } else {
            assert(output@ =~= before + rest);
            break ;
        }
    }
    output
}

} // verus!
