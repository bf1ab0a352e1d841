//! Reading string literals as they stand in source text.
//!
//! A literal is the text between two double quotes, in which a backslash
//! starts an escape sequence. Raw strings, byte strings and the escapes
//! `\x..` and backslash-newline are not read.

use vstd::prelude::*;
use vstd::slice::slice_subrange;
use vstd::std_specs::iter::IteratorSpec;
use vstd::string::*;
use vstd::utf8::is_scalar;

verus! {

broadcast use vstd::string::group_string_axioms;

/// `String::push` appends the character to the end of the string.
pub assume_specification[ String::push ](text: &mut String, ch: char)
    ensures
        final(text)@ == old(text)@.push(ch),
;

/// `char::from_u32` gives the character with the given number where there
/// is one: up to 0x10FFFF, the surrogates from 0xD800 to 0xDFFF left out.
pub assume_specification[ char::from_u32 ](i: u32) -> (c: Option<char>)
    ensures
        c is Some <==> is_scalar(i),
        c is Some ==> c->0 as u32 == i,
;

/// Why a text is not read as a string literal.
#[derive(Clone, Copy, Debug, PartialEq, Eq, Structural)]
pub enum ParseError {
    /// The text does not stand between two double quotes.
    NotAString,
    /// A backslash is followed by this character, which starts no escape.
    InvalidEscape(char),
    /// The string ends after a backslash.
    EscapeAtEnd,
    /// This character stands in a unicode escape where a brace or a
    /// hexadecimal digit is due.
    InvalidUnicodeEscape(char),
    /// The string ends inside a unicode escape.
    UnicodeEscapeAtEnd,
    /// The number of a unicode escape is the number of no character.
    InvalidUnicodeValue,
}

/// The value of a hexadecimal digit.
pub open spec fn spec_hex_digit(c: char) -> Option<u32> {
    if '0' <= c <= '9' {
        Some((c as u32 - '0' as u32) as u32)
    } else if 'a' <= c <= 'f' {
        Some((c as u32 - 'a' as u32 + 10) as u32)
    } else if 'A' <= c <= 'F' {
        Some((c as u32 - 'A' as u32 + 10) as u32)
    } else {
        None
    }
}

/// The character that a backslash and `c` stand for, for the escapes of
/// one character.
pub open spec fn spec_simple_escape(c: char) -> Option<char> {
    if c == 't' {
        Some('\t')
    } else if c == 'n' {
        Some('\n')
    } else if c == 'r' {
        Some('\r')
    } else if c == '0' {
        Some('\0')
    } else if c == '\\' {
        Some('\\')
    } else if c == '\'' {
        Some('\'')
    } else if c == '"' {
        Some('"')
    } else {
        None
    }
}

/// Whether `value` is the number of a character.
pub open spec fn spec_is_scalar(value: nat) -> bool {
    value <= 0x10FFFF && !(0xD800 <= value <= 0xDFFF)
}

/// Reads the digits of a unicode escape from `at` up to the closing brace.
/// `acc` is the value of the digits before `at`. Gives the value of all
/// the digits, and how many characters were read, the brace included.
pub open spec fn spec_hex_run(s: Seq<char>, at: int, acc: nat) -> Result<(nat, nat), ParseError>
    decreases s.len() - at,
{
    if at < 0 || at >= s.len() {
        Err(ParseError::UnicodeEscapeAtEnd)
    } else if s[at] == '}' {
        Ok((acc, 1))
    } else {
        match spec_hex_digit(s[at]) {
            Some(digit) => match spec_hex_run(s, at + 1, acc * 16 + digit as nat) {
                Ok((value, read)) => Ok((value, read + 1)),
                Err(e) => Err(e),
            },
            None => Err(ParseError::InvalidUnicodeEscape(s[at])),
        }
    }
}

/// Reads what follows `\u` at `at`: a brace, hexadecimal digits in any
/// number, a brace. Gives the character and how many characters were read.
pub open spec fn spec_unicode_escape(s: Seq<char>, at: int) -> Result<(char, nat), ParseError> {
    if at < 0 || at >= s.len() {
        Err(ParseError::UnicodeEscapeAtEnd)
    } else if s[at] != '{' {
        Err(ParseError::InvalidUnicodeEscape(s[at]))
    } else {
        match spec_hex_run(s, at + 1, 0) {
            Ok((value, read)) => if spec_is_scalar(value) {
                Ok((value as char, read + 1))
            } else {
                Err(ParseError::InvalidUnicodeValue)
            },
            Err(e) => Err(e),
        }
    }
}

/// `first` put before what `rest` gives, if it gives a text.
pub open spec fn spec_after(first: Seq<char>, rest: Result<Seq<char>, ParseError>) -> Result<
    Seq<char>,
    ParseError,
> {
    match rest {
        Ok(text) => Ok(first + text),
        Err(e) => Err(e),
    }
}

/// The text that `s` stands for from `at` on, with the escape sequences
/// replaced by their characters; or what is wrong with the first escape
/// sequence that cannot be read.
pub open spec fn spec_unescape(s: Seq<char>, at: int) -> Result<Seq<char>, ParseError>
    decreases
        if at < s.len() {
            s.len() - at
        } else {
            0
        },
{
    if at < 0 || at >= s.len() {
        Ok(Seq::empty())
    } else if s[at] != '\\' {
        spec_after(seq![s[at]], spec_unescape(s, at + 1))
    } else if at + 1 >= s.len() {
        Err(ParseError::EscapeAtEnd)
    } else if s[at + 1] == 'u' {
        match spec_unicode_escape(s, at + 2) {
            Ok((chr, read)) => spec_after(seq![chr], spec_unescape(s, at + 2 + read)),
            Err(e) => Err(e),
        }
    } else {
        match spec_simple_escape(s[at + 1]) {
            Some(chr) => spec_after(seq![chr], spec_unescape(s, at + 2)),
            None => Err(ParseError::InvalidEscape(s[at + 1])),
        }
    }
}

/// The text that a string literal stands for: what is between the quotes,
/// with the escape sequences replaced.
pub open spec fn spec_string_parse(literal: Seq<char>) -> Result<Seq<char>, ParseError> {
    if literal.len() < 2 || literal.first() != '"' || literal.last() != '"' {
        Err(ParseError::NotAString)
    } else {
        spec_unescape(literal.subrange(1, literal.len() - 1), 0)
    }
}

/// The characters of a string.
fn characters(s: &str) -> (chars: Vec<char>)
    ensures
        chars@ == s@,
{
    let mut chars: Vec<char> = Vec::new();
    for c in iter: s.chars()
        invariant
            iter.seq() == s@,
            chars@ == iter.seq().take(iter.index() as int),
    {
        assert(iter.seq().take(iter.index() + 1) =~= iter.seq().take(iter.index() as int).push(c));
        chars.push(c);
    }
    assert(chars@ =~= s@);
    chars
}

/// The value of a hexadecimal digit.
fn hex_digit(c: char) -> (digit: Option<u32>)
    ensures
        digit == spec_hex_digit(c),
        digit is Some ==> digit->0 < 16,
{
    if '0' <= c && c <= '9' {
        Some(c as u32 - '0' as u32)
    } else if 'a' <= c && c <= 'f' {
        Some(c as u32 - 'a' as u32 + 10)
    } else if 'A' <= c && c <= 'F' {
        Some(c as u32 - 'A' as u32 + 10)
    } else {
        None
    }
}

/// The character that a backslash and `c` stand for.
fn simple_escape(c: char) -> (chr: Option<char>)
    ensures
        chr == spec_simple_escape(c),
{
    match c {
        't' => Some('\t'),
        'n' => Some('\n'),
        'r' => Some('\r'),
        '0' => Some('\0'),
        '\\' => Some('\\'),
        '\'' => Some('\''),
        '\"' => Some('\"'),
        _ => None,
    }
}

/// Reads what follows `\u` at `at`; gives the character and the place
/// after the closing brace.
fn unicode_escape(s: &[char], at: usize) -> (r: Result<(char, usize), ParseError>)
    requires
        at <= s@.len(),
    ensures
        match r {
            Ok((chr, next)) => spec_unicode_escape(s@, at as int) == Ok::<
                (char, nat),
                ParseError,
            >((chr, (next - at) as nat)) && at < next <= s@.len(),
            Err(e) => spec_unicode_escape(s@, at as int) == Err::<(char, nat), ParseError>(e),
        },
{
    let n: usize = s.len();
    if at >= n {
        return Err(ParseError::UnicodeEscapeAtEnd);
    }
    if s[at] != '{' {
        return Err(ParseError::InvalidUnicodeEscape(s[at]));
    }
    let mut i: usize = at + 1;
    let mut u: u32 = 0;
    let ghost mut acc: nat = 0;
    loop
        invariant_except_break
            spec_hex_run(s@, at + 1, 0) == match spec_hex_run(s@, i as int, acc) {
                Ok((value, read)) => Ok::<(nat, nat), ParseError>(
                    (value, (read + i - (at + 1)) as nat),
                ),
                Err(e) => Err(e),
            },
        invariant
            n == s@.len(),
            at < i <= n,
            s@[at as int] == '{',
            acc <= 0x10FFFF ==> u == acc,
            acc > 0x10FFFF ==> u > 0x10FFFF,
            u <= 0x11_0000,
        ensures
            at < i <= n,
            spec_hex_run(s@, at + 1, 0) == Ok::<(nat, nat), ParseError>(
                (acc, (i - (at + 1)) as nat),
            ),
            acc <= 0x10FFFF ==> u == acc,
            acc > 0x10FFFF ==> u > 0x10FFFF,
        decreases n - i,
    {
        if i >= n {
            return Err(ParseError::UnicodeEscapeAtEnd);
        }
        let c: char = s[i];
        if c == '}' {
            i += 1;
            break ;
        }
        match hex_digit(c) {
            Some(digit) => {
                // Past the last character the number only grows, and is not kept
                u = if u > 0x10FFFF {
                    0x11_0000
                } else {
                    let wide: u32 = u * 16 + digit;
                    if wide > 0x10FFFF {
                        0x11_0000
                    } else {
                        wide
                    }
                };
                proof {
                    acc = acc * 16 + digit as nat;
                }
            },
            None => {
                return Err(ParseError::InvalidUnicodeEscape(c));
            },
        }
        i += 1;
    }
    match char::from_u32(u) {
        Some(chr) => {
            proof {
                vstd::utf8::char_u32_cast(chr, u);
            }
            Ok((chr, i))
        },
        None => Err(ParseError::InvalidUnicodeValue),
    }
}

/// Reads a string literal as it stands in source text: takes the quotes
/// off and replaces the escape sequences by their characters.
///
/// The text has to be a string literal that can be read;
/// [`try_string_parse`] is for callers that do not know whether it is.
pub fn string_parse(literal: &str) -> (text: String)
    requires
        spec_string_parse(literal@) is Ok,
    ensures
        spec_string_parse(literal@) == Ok::<Seq<char>, ParseError>(text@),
{
    match try_string_parse(literal) {
        Ok(text) => text,
        Err(_) => vstd::pervasive::unreached(),
    }
}

/// Reads a text as a string literal: takes the quotes off and replaces
/// the escape sequences by their characters; or says why the text is not
/// read as a string literal.
pub fn try_string_parse(literal: &str) -> (parsed: Result<String, ParseError>)
    ensures
        match parsed {
            Ok(text) => spec_string_parse(literal@) == Ok::<Seq<char>, ParseError>(text@),
            Err(e) => spec_string_parse(literal@) == Err::<Seq<char>, ParseError>(e),
        },
{
    let chars = characters(literal);
    let len: usize = chars.len();

    // Trim the string from its outer quotes
    if len < 2 || chars[0] != '"' || chars[len - 1] != '"' {
        return Err(ParseError::NotAString);
    }
    let body = slice_subrange(chars.as_slice(), 1, len - 1);
    let n: usize = body.len();

    // Parse escape sequences
    let mut unescaped = String::new();
    let mut i: usize = 0;
    while i < n
        invariant
            n == body@.len(),
            i <= n,
            spec_string_parse(literal@) == spec_unescape(body@, 0),
            spec_unescape(body@, 0) == spec_after(unescaped@, spec_unescape(body@, i as int)),
        decreases n - i,
    {
        let ghost before = unescaped@;
        let mut chr: char = body[i];
        i += 1;
        if chr == '\\' {
            if i >= n {
                return Err(ParseError::EscapeAtEnd);
            }
            let escape: char = body[i];
            i += 1;
            if escape == 'u' {
                match unicode_escape(body, i) {
                    Ok((value, next)) => {
                        chr = value;
                        i = next;
                    },
                    Err(e) => {
                        return Err(e);
                    },
                }
            } else {
                match simple_escape(escape) {
                    Some(value) => {
                        chr = value;
                    },
                    None => {
                        return Err(ParseError::InvalidEscape(escape));
                    },
                }
            }
        }
        unescaped.push(chr);
        proof {
            lemma_after(before, chr, spec_unescape(body@, i as int));
        }
    }
    assert(unescaped@ + Seq::<char>::empty() =~= unescaped@);
    Ok(unescaped)
}

/// Putting a text and then a character in front is putting the text with
/// the character in front.
proof fn lemma_after(before: Seq<char>, chr: char, rest: Result<Seq<char>, ParseError>)
    ensures
        spec_after(before, spec_after(seq![chr], rest)) == spec_after(before.push(chr), rest),
{
    if let Ok(text) = rest {
        assert(before + (seq![chr] + text) =~= before.push(chr) + text);
    }
}

} // verus!
