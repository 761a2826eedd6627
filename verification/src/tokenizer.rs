//! The lexer: it scans JSON text left to right with one cursor over the
//! character sequence and yields the token stream, or the first lexical
//! error. The whole scan is modelled by [`spec_tokenize`], a recursive
//! function over the character sequence; [`tokenize`] returns exactly what
//! the model says, token for token, message for message, position for
//! position.

use vstd::prelude::*;

use crate::numbers::valid_number_text;
use crate::numbers::number_text_ok;
use crate::parser::ParseError;
use crate::parser::SpecError;
use crate::text::chars_vec;
use crate::text::dec_str;
use crate::text::is_digit;
use crate::text::is_json_whitespace;
use crate::text::is_number_char;
use crate::text::push_char;
use crate::text::spec_digits;
use crate::text::step_beyond;
use crate::text::string_from_chars;

verus! {

/// One lexical unit of JSON syntax: a structural marker, or a
/// literal-carrying variant. A number keeps its numeral as scanned.
#[derive(Debug, PartialEq)]
pub enum Token {
    LeftBrace,
    RightBrace,
    LeftBracket,
    RightBracket,
    Colon,
    Comma,
    String(String),
    Number(String),
    True,
    False,
    Null,
}

/// The model of a [`Token`]: its text parts as character sequences.
#[verifier::ext_equal]
pub enum SpecToken {
    LeftBrace,
    RightBrace,
    LeftBracket,
    RightBracket,
    Colon,
    Comma,
    Str(Seq<char>),
    Num(Seq<char>),
    True,
    False,
    Null,
}

impl View for Token {
    type V = SpecToken;

    open spec fn view(&self) -> SpecToken {
        match self {
            Token::LeftBrace => SpecToken::LeftBrace,
            Token::RightBrace => SpecToken::RightBrace,
            Token::LeftBracket => SpecToken::LeftBracket,
            Token::RightBracket => SpecToken::RightBracket,
            Token::Colon => SpecToken::Colon,
            Token::Comma => SpecToken::Comma,
            Token::String(s) => SpecToken::Str(s@),
            Token::Number(x) => SpecToken::Num(x@),
            Token::True => SpecToken::True,
            Token::False => SpecToken::False,
            Token::Null => SpecToken::Null,
        }
    }
}

impl DeepView for Token {
    type V = SpecToken;

    open spec fn deep_view(&self) -> SpecToken {
        self.view()
    }
}

/// Lexical error: the escape after `\` is none of `"`, `\`, `n`, `t`, `r`.
/// `pos` is the character index of the offending escape character.
pub open spec fn err_invalid_escape(c: char, pos: nat) -> SpecError {
    SpecError {
        msg: "Invalid escape sequence '\\"@ + seq![c] + "' at position "@ + spec_digits(pos),
        pos: pos,
        expected: None,
    }
}

/// Lexical error: the input ends right after a `\` inside a string.
pub open spec fn err_unfinished_escape(pos: nat) -> SpecError {
    SpecError { msg: "Unfinished escape sequence at end of string"@, pos: pos, expected: None }
}

/// Lexical error: the input ends before the closing quote of a string.
pub open spec fn err_unterminated_string(pos: nat) -> SpecError {
    SpecError {
        msg: "Unterminated string starting at position "@ + spec_digits(pos),
        pos: pos,
        expected: None,
    }
}

/// Lexical error: a `t` or `n` that does not open `true` or `null`.
pub open spec fn err_bad_literal(pos: nat) -> SpecError {
    SpecError { msg: "Invalid character sequence"@, pos: pos, expected: None }
}

/// Lexical error: an `f` that does not open `false`.
pub open spec fn err_bad_literal_f(pos: nat) -> SpecError {
    SpecError {
        msg: "Invalid character sequence starting with 'f' at position "@ + spec_digits(pos),
        pos: pos,
        expected: None,
    }
}

/// Lexical error: a second `.` inside a numeral, or a scanned numeral the
/// numeric conversion rejects.
pub open spec fn err_bad_number(pos: nat) -> SpecError {
    SpecError { msg: "Invalid number format"@, pos: pos, expected: None }
}

/// Lexical error: a character no token can begin with.
pub open spec fn err_unexpected_char(pos: nat) -> SpecError {
    SpecError { msg: "Unexpected character"@, pos: pos, expected: None }
}

/// The string scan, from `i` (just past the opening quote or the last copied
/// character), with `acc` the content copied so far. Returns the content and
/// the index of the closing quote, or the first error.
pub open spec fn spec_scan_string(s: Seq<char>, i: nat, acc: Seq<char>) -> Result<
    (Seq<char>, nat),
    SpecError,
>
    decreases s.len() - i,
{
    if i >= s.len() {
        Err(err_unterminated_string(s.len()))
    } else if s[i as int] == '"' {
        Ok((acc, i))
    } else if s[i as int] == '\\' {
        if i + 1 >= s.len() {
            Err(err_unfinished_escape(s.len()))
        } else if s[(i + 1) as int] == '"' {
            spec_scan_string(s, i + 2, acc.push('"'))
        } else if s[(i + 1) as int] == '\\' {
            spec_scan_string(s, i + 2, acc.push('\\'))
        } else if s[(i + 1) as int] == 'n' {
            spec_scan_string(s, i + 2, acc.push('\n'))
        } else if s[(i + 1) as int] == 't' {
            spec_scan_string(s, i + 2, acc.push('\t'))
        } else if s[(i + 1) as int] == 'r' {
            spec_scan_string(s, i + 2, acc.push('\r'))
        } else {
            Err(err_invalid_escape(s[(i + 1) as int], i + 1))
        }
    } else {
        spec_scan_string(s, i + 1, acc.push(s[i as int]))
    }
}

/// The number scan, from `i`, with `seen_dot` telling whether a `.` was
/// consumed already and `acc` the numeral so far. Returns the numeral and
/// the index of the first character past it, or the second-dot error.
pub open spec fn spec_scan_number(s: Seq<char>, i: nat, seen_dot: bool, acc: Seq<char>) -> Result<
    (Seq<char>, nat),
    SpecError,
>
    decreases s.len() - i,
{
    if i >= s.len() || !is_number_char(s[i as int]) {
        Ok((acc, i))
    } else if s[i as int] == '.' && seen_dot {
        Err(err_bad_number(i))
    } else {
        spec_scan_number(s, i + 1, seen_dot || s[i as int] == '.', acc.push(s[i as int]))
    }
}

/// One pass of the lexer from position `i`, with `acc` the tokens already
/// produced. Each step either skips a whitespace character, emits exactly one
/// token, or stops with the first error.
pub open spec fn spec_lex_from(s: Seq<char>, i: nat, acc: Seq<SpecToken>) -> Result<
    Seq<SpecToken>,
    SpecError,
>
    decreases s.len() - i,
{
    if i >= s.len() {
        Ok(acc)
    } else {
        let c = s[i as int];
        if c == '{' {
            spec_lex_from(s, i + 1, acc.push(SpecToken::LeftBrace))
        } else if c == '}' {
            spec_lex_from(s, i + 1, acc.push(SpecToken::RightBrace))
        } else if c == '[' {
            spec_lex_from(s, i + 1, acc.push(SpecToken::LeftBracket))
        } else if c == ']' {
            spec_lex_from(s, i + 1, acc.push(SpecToken::RightBracket))
        } else if c == ':' {
            spec_lex_from(s, i + 1, acc.push(SpecToken::Colon))
        } else if c == ',' {
            spec_lex_from(s, i + 1, acc.push(SpecToken::Comma))
        } else if c == '"' {
            match spec_scan_string(s, i + 1, Seq::empty()) {
                Ok((content, q)) => {
                    let next = step_beyond(s.len(), i, q + 1);
                    spec_lex_from(s, next, acc.push(SpecToken::Str(content)))
                },
                Err(e) => Err(e),
            }
        } else if c == 't' {
            if i + 3 < s.len() && s[(i + 1) as int] == 'r' && s[(i + 2) as int] == 'u' && s[(i + 3) as int] == 'e' {
                spec_lex_from(s, i + 4, acc.push(SpecToken::True))
            } else {
                Err(err_bad_literal(i))
            }
        } else if c == 'f' {
            if i + 4 < s.len() && s[(i + 1) as int] == 'a' && s[(i + 2) as int] == 'l' && s[(i
                + 3) as int] == 's' && s[(i + 4) as int] == 'e' {
                spec_lex_from(s, i + 5, acc.push(SpecToken::False))
            } else {
                Err(err_bad_literal_f(i))
            }
        } else if c == 'n' {
            if i + 3 < s.len() && s[(i + 1) as int] == 'u' && s[(i + 2) as int] == 'l' && s[(i + 3) as int] == 'l' {
                spec_lex_from(s, i + 4, acc.push(SpecToken::Null))
            } else {
                Err(err_bad_literal(i))
            }
        } else if is_digit(c) || c == '-' {
            match spec_scan_number(s, i, false, Seq::empty()) {
                Ok((text, j)) => if valid_number_text(text) {
                    let next = step_beyond(s.len(), i, j);
                    spec_lex_from(s, next, acc.push(SpecToken::Num(text)))
                } else {
                    Err(err_bad_number(i))
                },
                Err(e) => Err(e),
            }
        } else if is_json_whitespace(c) {
            spec_lex_from(s, i + 1, acc)
        } else {
            Err(err_unexpected_char(i))
        }
    }
}

/// The whole lexer: the token sequence of `s`, or the first lexical error.
pub open spec fn spec_tokenize(s: Seq<char>) -> Result<Seq<SpecToken>, SpecError> {
    spec_lex_from(s, 0, Seq::empty())
}

/// Copies string content from `from` (just past the opening quote) until the
/// closing quote, translating the five recognized escapes; returns the
/// content and the index of the closing quote, as [`spec_scan_string`] says.
#[verifier::loop_isolation(false)]
fn scan_string_body(chars: &Vec<char>, from: usize) -> (r: Result<(Vec<char>, usize), ParseError>)
    requires
        from <= chars@.len(),
    ensures
        match r {
            Ok(p) => ({
                &&& spec_scan_string(chars@, from as nat, Seq::empty()) == Ok::<
                    (Seq<char>, nat),
                    SpecError,
                >((p.0@, p.1 as nat))
                &&& from <= p.1 < chars@.len()
                &&& chars@[p.1 as int] == '"'
            }),
            Err(e) => spec_scan_string(chars@, from as nat, Seq::empty()) == Err::<
                (Seq<char>, nat),
                SpecError,
            >(e@),
        },
{
    let n = chars.len();
    let mut content: Vec<char> = Vec::new();
    let mut j = from;
    while j < n
        invariant
            from <= j <= n,
            spec_scan_string(chars@, j as nat, content@) == spec_scan_string(
                chars@,
                from as nat,
                Seq::empty(),
            ),
        decreases n - j,
    {
        let cc = chars[j];
        if cc == '"' {
            return Ok((content, j));
        }
        if cc == '\\' {
            if j + 1 >= n {
                return Err(
                    ParseError::new("Unfinished escape sequence at end of string", n),
                );
            }
            let esc = chars[j + 1];
            let ghost content0 = content@;
            if esc == '"' {
                content.push('"');
            } else if esc == '\\' {
                content.push('\\');
            } else if esc == 'n' {
                content.push('\n');
            } else if esc == 't' {
                content.push('\t');
            } else if esc == 'r' {
                content.push('\r');
            } else {
                let mut m = String::from_str("Invalid escape sequence '\\");
                push_char(&mut m, esc);
                m.append("' at position ");
                let d = dec_str(j + 1);
                m.append(d.as_str());
                let e = ParseError { message: m, position: j + 1, expected: None };
                assert(e@ =~= err_invalid_escape(esc, (j + 1) as nat));
                return Err(e);
            }
            j += 2;
        } else {
            content.push(cc);
            j += 1;
        }
    }
    let mut m = String::from_str("Unterminated string starting at position ");
    let d = dec_str(n);
    m.append(d.as_str());
    let e = ParseError { message: m, position: n, expected: None };
    assert(e@ =~= err_unterminated_string(chars@.len()));
    Err(e)
}

/// Greedily copies the numeral from `from`: digits, `-`, and at most one
/// `.`; a second `.` is the error. Returns the numeral and the index of the
/// first character past it, as [`spec_scan_number`] says.
#[verifier::loop_isolation(false)]
fn scan_number_body(chars: &Vec<char>, from: usize) -> (r: Result<(Vec<char>, usize), ParseError>)
    requires
        from <= chars@.len(),
    ensures
        match r {
            Ok(p) => ({
                &&& spec_scan_number(chars@, from as nat, false, Seq::empty()) == Ok::<
                    (Seq<char>, nat),
                    SpecError,
                >((p.0@, p.1 as nat))
                &&& from <= p.1 <= chars@.len()
                &&& p.1 == from + p.0@.len()
            }),
            Err(e) => spec_scan_number(chars@, from as nat, false, Seq::empty()) == Err::<
                (Seq<char>, nat),
                SpecError,
            >(e@),
        },
{
    let n = chars.len();
    let mut num: Vec<char> = Vec::new();
    let mut seen_dot = false;
    let mut j = from;
    while j < n
        invariant
            from <= j <= n,
            j == from + num@.len(),
            spec_scan_number(chars@, j as nat, seen_dot, num@) == spec_scan_number(
                chars@,
                from as nat,
                false,
                Seq::empty(),
            ),
        decreases n - j,
    {
        let cc = chars[j];
        let code = cc as u32;
        let digit = code >= '0' as u32 && code <= '9' as u32;
        if !(digit || cc == '.' || cc == '-') {
            return Ok((num, j));
        }
        if cc == '.' {
            if seen_dot {
                return Err(ParseError::new("Invalid number format", j));
            }
            seen_dot = true;
        }
        num.push(cc);
        j += 1;
    }
    Ok((num, j))
}

/// Scans the whole input left to right and yields its tokens, or stops at
/// the first lexical error, exactly as [`spec_tokenize`] says: token for
/// token, message for message, position for position.
#[verifier::loop_isolation(false)]
pub fn tokenize(json: &str) -> (r: Result<Vec<Token>, ParseError>)
    ensures
        match r {
            Ok(toks) => spec_tokenize(json@) == Ok::<Seq<SpecToken>, SpecError>(
                toks.deep_view(),
            ),
            Err(e) => spec_tokenize(json@) == Err::<Seq<SpecToken>, SpecError>(e@),
        },
{
    let chars = chars_vec(json);
    let n = chars.len();
    let mut tokens: Vec<Token> = Vec::new();
    assert(tokens.deep_view() =~= Seq::<SpecToken>::empty());
    let mut i: usize = 0;
    while i < n
        invariant
            chars@ == json@,
            i <= n,
            spec_lex_from(json@, i as nat, tokens.deep_view()) == spec_tokenize(json@),
        decreases n - i,
    {
        let ghost prev = tokens.deep_view();
        let c = chars[i];
        let code = c as u32;
        let digit = code >= '0' as u32 && code <= '9' as u32;
        if c == '{' {
            tokens.push(Token::LeftBrace);
            assert(tokens.deep_view() =~= prev.push(SpecToken::LeftBrace));
            i += 1;
        } else if c == '}' {
            tokens.push(Token::RightBrace);
            assert(tokens.deep_view() =~= prev.push(SpecToken::RightBrace));
            i += 1;
        } else if c == '[' {
            tokens.push(Token::LeftBracket);
            assert(tokens.deep_view() =~= prev.push(SpecToken::LeftBracket));
            i += 1;
        } else if c == ']' {
            tokens.push(Token::RightBracket);
            assert(tokens.deep_view() =~= prev.push(SpecToken::RightBracket));
            i += 1;
        } else if c == ':' {
            tokens.push(Token::Colon);
            assert(tokens.deep_view() =~= prev.push(SpecToken::Colon));
            i += 1;
        } else if c == ',' {
            tokens.push(Token::Comma);
            assert(tokens.deep_view() =~= prev.push(SpecToken::Comma));
            i += 1;
        } else if c == '"' {
            let (content, q) = match scan_string_body(&chars, i + 1) {
                Ok(p) => p,
                Err(e) => {
                    return Err(e);
                },
            };
            let s = string_from_chars(&content);
            tokens.push(Token::String(s));
            assert(tokens.deep_view() =~= prev.push(SpecToken::Str(content@)));
            i = q + 1;
        } else if c == 't' {
            if n - i > 3 && chars[i + 1] == 'r' && chars[i + 2] == 'u' && chars[i + 3] == 'e' {
                tokens.push(Token::True);
                assert(tokens.deep_view() =~= prev.push(SpecToken::True));
                i += 4;
            } else {
                return Err(ParseError::new("Invalid character sequence", i));
            }
        } else if c == 'f' {
            if n - i > 4 && chars[i + 1] == 'a' && chars[i + 2] == 'l' && chars[i + 3] == 's'
                && chars[i + 4] == 'e' {
                tokens.push(Token::False);
                assert(tokens.deep_view() =~= prev.push(SpecToken::False));
                i += 5;
            } else {
                let mut m = String::from_str(
                    "Invalid character sequence starting with 'f' at position ",
                );
                let d = dec_str(i);
                m.append(d.as_str());
                let e = ParseError { message: m, position: i, expected: None };
                assert(e@ =~= err_bad_literal_f(i as nat));
                return Err(e);
            }
        } else if c == 'n' {
            if n - i > 3 && chars[i + 1] == 'u' && chars[i + 2] == 'l' && chars[i + 3] == 'l' {
                tokens.push(Token::Null);
                assert(tokens.deep_view() =~= prev.push(SpecToken::Null));
                i += 4;
            } else {
                return Err(ParseError::new("Invalid character sequence", i));
            }
        } else if digit || c == '-' {
            let (num, j) = match scan_number_body(&chars, i) {
                Ok(p) => p,
                Err(e) => {
                    return Err(e);
                },
            };
            if number_text_ok(num.as_slice()) {
                let s = string_from_chars(&num);
                tokens.push(Token::Number(s));
                assert(tokens.deep_view() =~= prev.push(SpecToken::Num(num@)));
                i = j;
            } else {
                return Err(ParseError::new("Invalid number format", i));
            }
        } else if c == ' ' || c == '\n' || c == '\t' {
            i += 1;
        } else {
            return Err(ParseError::new("Unexpected character", i));
        }
    }
    Ok(tokens)
}

} // verus!
