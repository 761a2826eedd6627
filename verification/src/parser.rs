//! The value tree, the positioned error type, and the recursive-descent
//! parser over a token sequence. The parser walks one forward cursor; its
//! whole behaviour — the tree built, every error message and every token
//! position — is modelled by [`spec_value_at`] and proved of the executable
//! functions.

use vstd::prelude::*;

use crate::text::dec_str;
use crate::text::spec_digits;
use crate::text::step_beyond;
use crate::tokenizer::SpecToken;
use crate::tokenizer::Token;

verus! {

/// The parsed JSON document.
///
/// An object is a sequence of key-value entries in the order the document
/// gave them; the parser never lets two entries share a key. A number keeps
/// its numeral as scanned.
#[derive(Debug, PartialEq)]
pub enum JsonValue {
    Object(Vec<(String, JsonValue)>),
    Array(Vec<JsonValue>),
    String(String),
    Number(String),
    Bool(bool),
    Null,
}

/// The model of a [`JsonValue`]: the same tree over character sequences.
#[verifier::ext_equal]
pub enum SpecValue {
    Object(Seq<(Seq<char>, SpecValue)>),
    Array(Seq<SpecValue>),
    Str(Seq<char>),
    Num(Seq<char>),
    Bool(bool),
    Null,
}

/// The model of a [`JsonValue`].
pub open spec fn jv_view(v: JsonValue) -> SpecValue
    decreases v,
{
    match v {
        JsonValue::Object(items) => SpecValue::Object(entries_view(items@)),
        JsonValue::Array(elems) => SpecValue::Array(elems_view(elems@)),
        JsonValue::String(s) => SpecValue::Str(s@),
        JsonValue::Number(x) => SpecValue::Num(x@),
        JsonValue::Bool(b) => SpecValue::Bool(b),
        JsonValue::Null => SpecValue::Null,
    }
}

/// The models of an object's entries, in order.
pub open spec fn entries_view(items: Seq<(String, JsonValue)>) -> Seq<(Seq<char>, SpecValue)>
    decreases items,
{
    if items.len() == 0 {
        Seq::empty()
    } else {
        entries_view(items.drop_last()).push(
            (items.last().0@, jv_view(items.last().1)),
        )
    }
}

/// The models of an array's elements, in order.
pub open spec fn elems_view(elems: Seq<JsonValue>) -> Seq<SpecValue>
    decreases elems,
{
    if elems.len() == 0 {
        Seq::empty()
    } else {
        elems_view(elems.drop_last()).push(jv_view(elems.last()))
    }
}

impl View for JsonValue {
    type V = SpecValue;

    open spec fn view(&self) -> SpecValue {
        jv_view(*self)
    }
}

impl DeepView for JsonValue {
    type V = SpecValue;

    open spec fn deep_view(&self) -> SpecValue {
        jv_view(*self)
    }
}

pub proof fn lemma_entries_view(items: Seq<(String, JsonValue)>)
    ensures
        entries_view(items).len() == items.len(),
        forall|k: int|
            0 <= k < items.len() ==> entries_view(items)[k] == ((
                items[k].0@,
                jv_view(items[k].1),
            )),
    decreases items.len(),
{
    if items.len() > 0 {
        lemma_entries_view(items.drop_last());
    }
}

pub proof fn lemma_elems_view(elems: Seq<JsonValue>)
    ensures
        elems_view(elems).len() == elems.len(),
        forall|k: int| 0 <= k < elems.len() ==> elems_view(elems)[k] == jv_view(elems[k]),
    decreases elems.len(),
{
    if elems.len() > 0 {
        lemma_elems_view(elems.drop_last());
    }
}

pub proof fn lemma_entries_view_push(items: Seq<(String, JsonValue)>, x: (String, JsonValue))
    ensures
        entries_view(items.push(x)) == entries_view(items).push((x.0@, jv_view(x.1))),
{
    assert(items.push(x).drop_last() =~= items);
    assert(items.push(x).last() == x);
}

pub proof fn lemma_elems_view_push(elems: Seq<JsonValue>, x: JsonValue)
    ensures
        elems_view(elems.push(x)) == elems_view(elems).push(jv_view(x)),
{
    assert(elems.push(x).drop_last() =~= elems);
    assert(elems.push(x).last() == x);
}

/// The model of a [`ParseError`]: message, position, and what was expected.
#[verifier::ext_equal]
pub struct SpecError {
    pub msg: Seq<char>,
    pub pos: nat,
    pub expected: Option<Seq<char>>,
}

/// A positioned error. For lexical errors the position is a character index
/// into the raw input; for structural errors it is a token index into the
/// token sequence. The two index spaces are distinct.
#[derive(Debug)]
pub struct ParseError {
    pub message: String,
    pub position: usize,
    pub expected: Option<String>,
}

impl View for ParseError {
    type V = SpecError;

    open spec fn view(&self) -> SpecError {
        SpecError {
            msg: self.message@,
            pos: self.position as nat,
            expected: match self.expected {
                Some(s) => Some(s@),
                None => None,
            },
        }
    }
}

impl ParseError {
    /// An error with a message and a position, expecting nothing in
    /// particular.
    pub fn new(message: &str, position: usize) -> (e: ParseError)
        ensures
            e@ == (SpecError { msg: message@, pos: position as nat, expected: None }),
    {
        ParseError { message: message.to_owned(), position, expected: None }
    }

    /// An error that also records what was expected at the position.
    pub fn with_expected(message: &str, position: usize, expected: &str) -> (e: ParseError)
        ensures
            e@ == (SpecError {
                msg: message@,
                pos: position as nat,
                expected: Some(expected@),
            }),
    {
        ParseError { message: message.to_owned(), position, expected: Some(expected.to_owned()) }
    }

    /// The user-facing line for this error, in the fixed convention
    /// `Error at position {position}: {message}`.
    pub fn display_string(&self) -> (r: String)
        ensures
            r@ == "Error at position "@ + spec_digits(self@.pos) + ": "@ + self@.msg,
    {
        let mut m = String::from_str("Error at position ");
        let d = dec_str(self.position);
        m.append(d.as_str());
        m.append(": ");
        m.append(self.message.as_str());
        assert(m@ =~= "Error at position "@ + spec_digits(self@.pos) + ": "@ + self@.msg);
        m
    }

    /// What was expected at the error position, or `"unknown"` where the
    /// error does not say.
    pub fn expected(&self) -> (r: &str)
        ensures
            match self@.expected {
                Some(s) => r@ == s,
                None => r@ == "unknown"@,
            },
    {
        match &self.expected {
            Some(s) => s.as_str(),
            None => "unknown",
        }
    }
}

/// Structural error inside the object production: the token at `pos` (or
/// the end of input there) is neither a key nor `}`, or a key misses its
/// `:`.
pub open spec fn err_unexpected_token(pos: nat) -> SpecError {
    SpecError {
        msg: "Unexpected token in object; expected key or '}'"@,
        pos: pos,
        expected: Some("a key or '}'"@),
    }
}

/// Structural error: the token at `pos` (or the end of input there) can
/// begin no value.
pub open spec fn err_unexpected_value(pos: nat) -> SpecError {
    SpecError {
        msg: "Unexpected token; expected a value"@,
        pos: pos,
        expected: Some("a value"@),
    }
}

/// Structural error: after an object member there is neither `,` nor `}`;
/// `pos` is one past the offending token, or the end of input.
pub open spec fn err_after_value_object(pos: nat) -> SpecError {
    SpecError { msg: "Expected ',' or '}'"@, pos: pos, expected: None }
}

/// Structural error: after an array element there is a token, but it is
/// neither `,` nor `]`.
pub open spec fn err_after_value_array(pos: nat) -> SpecError {
    SpecError { msg: "Expected ',' or ']' after value in array"@, pos: pos, expected: None }
}

/// Structural error: the token sequence ends inside an array, before its
/// `]` — whether at an element position or right after an element.
pub open spec fn err_end_of_array(pos: nat) -> SpecError {
    SpecError { msg: "Unexpected end of input while parsing array"@, pos: pos, expected: None }
}

/// Structural error: a second member named `key`; `pos` is the token index
/// just past the member's value.
pub open spec fn err_duplicate_key(key: Seq<char>, pos: nat) -> SpecError {
    SpecError {
        msg: "Duplicate key '"@ + key + "' found in object at position "@ + spec_digits(pos),
        pos: pos,
        expected: None,
    }
}

/// Whether `entries` already holds a member named `key`.
pub open spec fn spec_has_key(entries: Seq<(Seq<char>, SpecValue)>, key: Seq<char>) -> bool {
    exists|q: int| 0 <= q < entries.len() && entries[q].0 == key
}

/// One value production at token index `i`: dispatches on the token there,
/// and returns the value together with the index just past it, or the first
/// error.
pub open spec fn spec_value_at(t: Seq<SpecToken>, i: nat) -> Result<(SpecValue, nat), SpecError>
    decreases t.len() - i, 0nat,
{
    if i >= t.len() {
        Err(err_unexpected_value(i))
    } else {
        match t[i as int] {
            SpecToken::LeftBrace => spec_object_items(t, i + 1, Seq::empty()),
            SpecToken::LeftBracket => spec_array_items(t, i + 1, Seq::empty()),
            SpecToken::Str(s) => Ok((SpecValue::Str(s), i + 1)),
            SpecToken::Num(x) => Ok((SpecValue::Num(x), i + 1)),
            SpecToken::True => Ok((SpecValue::Bool(true), i + 1)),
            SpecToken::False => Ok((SpecValue::Bool(false), i + 1)),
            SpecToken::Null => Ok((SpecValue::Null, i + 1)),
            _ => Err(err_unexpected_value(i)),
        }
    }
}

/// The object production after its `{`, from token index `i`, with `done`
/// the members read so far: members until `}`, each a key, `:`, a value,
/// and `,` between members; a repeated key is an error, never an overwrite.
pub open spec fn spec_object_items(
    t: Seq<SpecToken>,
    i: nat,
    done: Seq<(Seq<char>, SpecValue)>,
) -> Result<(SpecValue, nat), SpecError>
    decreases t.len() - i, 1nat,
{
    if i >= t.len() {
        Err(err_unexpected_token(i))
    } else {
        match t[i as int] {
            SpecToken::RightBrace => Ok((SpecValue::Object(done), i + 1)),
            SpecToken::Str(key) => if i + 1 < t.len() && t[(i + 1) as int] is Colon {
                match spec_value_at(t, i + 2) {
                    Ok((v, j)) => if spec_has_key(done, key) {
                        Err(err_duplicate_key(key, j))
                    } else {
                        let grown = done.push((key, v));
                        if j < t.len() && t[j as int] is Comma {
                            spec_object_items(t, step_beyond(t.len(), i, j + 1), grown)
                        } else if j < t.len() && t[j as int] is RightBrace {
                            Ok((SpecValue::Object(grown), j + 1))
                        } else if j < t.len() {
                            Err(err_after_value_object(j + 1))
                        } else {
                            Err(err_after_value_object(j))
                        }
                    },
                    Err(e) => Err(e),
                }
            } else {
                Err(err_unexpected_token(i + 1))
            },
            _ => Err(err_unexpected_token(i)),
        }
    }
}

/// The array production after its `[`, from token index `i`, with `done`
/// the elements read so far: elements until `]`, with `,` between them.
pub open spec fn spec_array_items(t: Seq<SpecToken>, i: nat, done: Seq<SpecValue>) -> Result<
    (SpecValue, nat),
    SpecError,
>
    decreases t.len() - i, 1nat,
{
    if i >= t.len() {
        Err(err_end_of_array(i))
    } else if t[i as int] is RightBracket {
        Ok((SpecValue::Array(done), i + 1))
    } else {
        match spec_value_at(t, i) {
            Ok((v, j)) => {
                let grown = done.push(v);
                if j < t.len() && t[j as int] is Comma {
                    spec_array_items(t, step_beyond(t.len(), i, j + 1), grown)
                } else if j < t.len() && t[j as int] is RightBracket {
                    Ok((SpecValue::Array(grown), j + 1))
                } else if j < t.len() {
                    Err(err_after_value_array(j))
                } else {
                    Err(err_end_of_array(j))
                }
            },
            Err(e) => Err(e),
        }
    }
}

/// The whole parse: the value of the leading production, trailing tokens
/// left unread, or the first structural error.
pub open spec fn spec_parse(t: Seq<SpecToken>) -> Result<SpecValue, SpecError> {
    match spec_value_at(t, 0) {
        Ok(p) => Ok(p.0),
        Err(e) => Err(e),
    }
}

/// Decides [`spec_has_key`] over an object's entries.
fn has_key(items: &Vec<(String, JsonValue)>, key: &String) -> (r: bool)
    ensures
        r == spec_has_key(entries_view(items@), key@),
{
    proof {
        lemma_entries_view(items@);
    }
    let n = items.len();
    let mut q: usize = 0;
    while q < n
        invariant
            n == items@.len(),
            q <= n,
            entries_view(items@).len() == items@.len(),
            forall|k: int|
                0 <= k < items@.len() ==> entries_view(items@)[k] == ((
                    items@[k].0@,
                    jv_view(items@[k].1),
                )),
            forall|k: int| 0 <= k < q ==> entries_view(items@)[k].0 != key@,
        decreases n - q,
    {
        if items[q].0 == *key {
            assert(entries_view(items@)[q as int].0 == key@);
            return true;
        }
        q += 1;
    }
    false
}

fn build_unexpected_token(pos: usize) -> (e: ParseError)
    ensures
        e@ == err_unexpected_token(pos as nat),
{
    ParseError::with_expected(
        "Unexpected token in object; expected key or '}'",
        pos,
        "a key or '}'",
    )
}

fn build_unexpected_value(pos: usize) -> (e: ParseError)
    ensures
        e@ == err_unexpected_value(pos as nat),
{
    ParseError::with_expected("Unexpected token; expected a value", pos, "a value")
}

fn build_after_value_object(pos: usize) -> (e: ParseError)
    ensures
        e@ == err_after_value_object(pos as nat),
{
    ParseError::new("Expected ',' or '}'", pos)
}

fn build_after_value_array(pos: usize) -> (e: ParseError)
    ensures
        e@ == err_after_value_array(pos as nat),
{
    ParseError::new("Expected ',' or ']' after value in array", pos)
}

fn build_end_of_array(pos: usize) -> (e: ParseError)
    ensures
        e@ == err_end_of_array(pos as nat),
{
    ParseError::new("Unexpected end of input while parsing array", pos)
}

fn build_duplicate_key(key: &String, pos: usize) -> (e: ParseError)
    ensures
        e@ == err_duplicate_key(key@, pos as nat),
{
    let mut m = String::from_str("Duplicate key '");
    m.append(key.as_str());
    m.append("' found in object at position ");
    let p = dec_str(pos);
    m.append(p.as_str());
    let e = ParseError { message: m, position: pos, expected: None };
    assert(e@ =~= err_duplicate_key(key@, pos as nat));
    e
}

/// Parses and returns the whole document that opens the token sequence;
/// tokens past it are left unread, as the model says.
pub fn parse(tokens: &Vec<Token>) -> (r: Result<JsonValue, ParseError>)
    ensures
        match r {
            Ok(v) => spec_parse(tokens.deep_view()) == Ok::<SpecValue, SpecError>(v@),
            Err(e) => spec_parse(tokens.deep_view()) == Err::<SpecValue, SpecError>(e@),
        },
{
    let mut i: usize = 0;
    parse_value(tokens, &mut i)
}

/// One value production at the cursor, as [`spec_value_at`] describes it.
fn parse_value(tokens: &Vec<Token>, i: &mut usize) -> (r: Result<JsonValue, ParseError>)
    ensures
        match r {
            Ok(v) => ({
                &&& spec_value_at(tokens.deep_view(), *old(i) as nat) == Ok::<
                    (SpecValue, nat),
                    SpecError,
                >((v@, *final(i) as nat))
                &&& *old(i) < *final(i) <= tokens@.len()
            }),
            Err(e) => ({
                &&& spec_value_at(tokens.deep_view(), *old(i) as nat) == Err::<
                    (SpecValue, nat),
                    SpecError,
                >(e@)
                &&& *old(i) <= *final(i)
                &&& *final(i) as nat <= e@.pos
            }),
        },
    decreases tokens@.len() - *i, 1nat,
{
    let ghost t = tokens.deep_view();
    if *i >= tokens.len() {
        return Err(build_unexpected_value(*i));
    }
    assert(t[*i as int] == tokens@[*i as int]@);
    match &tokens[*i] {
        Token::LeftBrace => parse_object(tokens, i),
        Token::LeftBracket => parse_array(tokens, i),
        Token::String(s) => {
            let v = JsonValue::String(s.clone());
            *i += 1;
            Ok(v)
        },
        Token::Number(x) => {
            let v = JsonValue::Number(x.clone());
            *i += 1;
            Ok(v)
        },
        Token::True => {
            *i += 1;
            Ok(JsonValue::Bool(true))
        },
        Token::False => {
            *i += 1;
            Ok(JsonValue::Bool(false))
        },
        Token::Null => {
            *i += 1;
            Ok(JsonValue::Null)
        },
        _ => Err(build_unexpected_value(*i)),
    }
}

/// The object production, entered with the cursor on its `{`; loops over
/// members exactly as [`spec_object_items`] does, rejecting a repeated key.
#[verifier::loop_isolation(false)]
fn parse_object(tokens: &Vec<Token>, i: &mut usize) -> (r: Result<JsonValue, ParseError>)
    requires
        *old(i) < tokens@.len(),
        tokens.deep_view()[*old(i) as int] is LeftBrace,
    ensures
        match r {
            Ok(v) => ({
                &&& spec_object_items(tokens.deep_view(), *old(i) as nat + 1, Seq::empty())
                    == Ok::<(SpecValue, nat), SpecError>((v@, *final(i) as nat))
                &&& *old(i) < *final(i) <= tokens@.len()
            }),
            Err(e) => ({
                &&& spec_object_items(tokens.deep_view(), *old(i) as nat + 1, Seq::empty())
                    == Err::<(SpecValue, nat), SpecError>(e@)
                &&& *old(i) <= *final(i)
                &&& *final(i) as nat <= e@.pos
            }),
        },
    decreases tokens@.len() - *i, 0nat,
{
    let ghost t = tokens.deep_view();
    let ghost i0 = *i as nat;
    let mut items: Vec<(String, JsonValue)> = Vec::new();
    proof {
        assert(tokens@.len() == tokens.len());
    }
    *i += 1;
    loop
        invariant
            t == tokens.deep_view(),
            t.len() == tokens@.len(),
            i0 < *i <= tokens@.len(),
            spec_object_items(t, i0 + 1, Seq::empty()) == spec_object_items(
                t,
                *i as nat,
                entries_view(items@),
            ),
        decreases tokens@.len() - *i,
    {
        let ghost k0 = *i as nat;
        if *i >= tokens.len() {
            return Err(build_unexpected_token(*i));
        }
        assert(t[k0 as int] == tokens@[k0 as int]@);
        let key = match &tokens[*i] {
            Token::RightBrace => {
                *i += 1;
                return Ok(JsonValue::Object(items));
            },
            Token::String(s) => s,
            _ => {
                return Err(build_unexpected_token(*i));
            },
        };
        assert(t[k0 as int] == SpecToken::Str(key@));
        *i += 1;
        if *i >= tokens.len() {
            return Err(build_unexpected_token(*i));
        }
        assert(t[k0 as int + 1] == tokens@[k0 as int + 1]@);
        match &tokens[*i] {
            Token::Colon => {},
            _ => {
                return Err(build_unexpected_token(*i));
            },
        }
        *i += 1;
        let value = match parse_value(tokens, i) {
            Ok(v) => v,
            Err(e) => {
                return Err(e);
            },
        };
        if has_key(&items, key) {
            return Err(build_duplicate_key(key, *i));
        }
        let ghost items_before = items@;
        let entry = (key.clone(), value);
        let ghost gentry = entry;
        items.push(entry);
        proof {
            lemma_entries_view_push(items_before, gentry);
        }
        if *i >= tokens.len() {
            return Err(build_after_value_object(*i));
        }
        assert(t[*i as int] == tokens@[*i as int]@);
        match &tokens[*i] {
            Token::Comma => {
                *i += 1;
            },
            Token::RightBrace => {
                *i += 1;
                return Ok(JsonValue::Object(items));
            },
            _ => {
                return Err(build_after_value_object(*i + 1));
            },
        }
    }
}

/// The array production, entered with the cursor on its `[`; loops over
/// elements exactly as [`spec_array_items`] does.
#[verifier::loop_isolation(false)]
fn parse_array(tokens: &Vec<Token>, i: &mut usize) -> (r: Result<JsonValue, ParseError>)
    requires
        *old(i) < tokens@.len(),
        tokens.deep_view()[*old(i) as int] is LeftBracket,
    ensures
        match r {
            Ok(v) => ({
                &&& spec_array_items(tokens.deep_view(), *old(i) as nat + 1, Seq::empty())
                    == Ok::<(SpecValue, nat), SpecError>((v@, *final(i) as nat))
                &&& *old(i) < *final(i) <= tokens@.len()
            }),
            Err(e) => ({
                &&& spec_array_items(tokens.deep_view(), *old(i) as nat + 1, Seq::empty())
                    == Err::<(SpecValue, nat), SpecError>(e@)
                &&& *old(i) <= *final(i)
                &&& *final(i) as nat <= e@.pos
            }),
        },
    decreases tokens@.len() - *i, 0nat,
{
    let ghost t = tokens.deep_view();
    let ghost i0 = *i as nat;
    let mut elems: Vec<JsonValue> = Vec::new();
    proof {
        assert(tokens@.len() == tokens.len());
    }
    *i += 1;
    loop
        invariant
            t == tokens.deep_view(),
            t.len() == tokens@.len(),
            i0 < *i <= tokens@.len(),
            spec_array_items(t, i0 + 1, Seq::empty()) == spec_array_items(
                t,
                *i as nat,
                elems_view(elems@),
            ),
        decreases tokens@.len() - *i,
    {
        let ghost k0 = *i as nat;
        if *i >= tokens.len() {
            return Err(build_end_of_array(*i));
        }
        assert(t[k0 as int] == tokens@[k0 as int]@);
        match &tokens[*i] {
            Token::RightBracket => {
                *i += 1;
                return Ok(JsonValue::Array(elems));
            },
            _ => {},
        }
        let value = match parse_value(tokens, i) {
            Ok(v) => v,
            Err(e) => {
                return Err(e);
            },
        };
        let ghost elems_before = elems@;
        let ghost gvalue = value;
        elems.push(value);
        proof {
            lemma_elems_view_push(elems_before, gvalue);
        }
        if *i >= tokens.len() {
            return Err(build_end_of_array(*i));
        }
        assert(t[*i as int] == tokens@[*i as int]@);
        match &tokens[*i] {
            Token::Comma => {
                *i += 1;
            },
            Token::RightBracket => {
                *i += 1;
                return Ok(JsonValue::Array(elems));
            },
            _ => {
                return Err(build_after_value_array(*i));
            },
        }
    }
}

} // verus!
