//! Character-level helpers shared by the lexer and the printer: the character
//! classes of the JSON grammar, decimal rendering of positions for error
//! messages, and the bridges between `&str`/`String` and `Vec<char>` (two of
//! them trusted, where vstd gives std no specification).

use vstd::prelude::*;

verus! {

/// The decimal digits `0` through `9`.
pub open spec fn is_digit(c: char) -> bool {
    '0' as u32 <= c as u32 && c as u32 <= '9' as u32
}

/// Characters the number scan consumes: digits, `.` and `-`.
pub open spec fn is_number_char(c: char) -> bool {
    is_digit(c) || c == '.' || c == '-'
}

/// Whitespace the lexer skips: space, tab and newline (not carriage return).
pub open spec fn is_json_whitespace(c: char) -> bool {
    c == ' ' || c == '\n' || c == '\t'
}

/// The position where scanning goes on after a sub-scan that ended at `j`,
/// having begun at `i`, inside a sequence of length `len`. Every use supplies
/// a `j` beyond `i` and within `len` already, so the two guards change
/// nothing; they only make the forward movement plain to the termination
/// measure of the recursion that applies this.
pub open spec fn step_beyond(len: nat, i: nat, j: nat) -> nat {
    let forward = if j > i {
        j
    } else {
        i + 1
    };
    if forward > len {
        len
    } else {
        forward
    }
}

/// The decimal numeral of `n`, most significant digit first.
pub open spec fn spec_digits(n: nat) -> Seq<char>
    decreases n,
{
    if n < 10 {
        seq![digit_char(n)]
    } else {
        spec_digits(n / 10).push(digit_char(n % 10))
    }
}

/// The character for a single decimal digit.
pub open spec fn digit_char(d: nat) -> char {
    if d == 0 {
        '0'
    } else if d == 1 {
        '1'
    } else if d == 2 {
        '2'
    } else if d == 3 {
        '3'
    } else if d == 4 {
        '4'
    } else if d == 5 {
        '5'
    } else if d == 6 {
        '6'
    } else if d == 7 {
        '7'
    } else if d == 8 {
        '8'
    } else {
        '9'
    }
}

fn digit_str(d: usize) -> (r: &'static str)
    requires
        d < 10,
    ensures
        r@ =~= seq![digit_char(d as nat)],
{
    proof {
        reveal_strlit("0");
        reveal_strlit("1");
        reveal_strlit("2");
        reveal_strlit("3");
        reveal_strlit("4");
        reveal_strlit("5");
        reveal_strlit("6");
        reveal_strlit("7");
        reveal_strlit("8");
        reveal_strlit("9");
    }
    if d == 0 {
        "0"
    } else if d == 1 {
        "1"
    } else if d == 2 {
        "2"
    } else if d == 3 {
        "3"
    } else if d == 4 {
        "4"
    } else if d == 5 {
        "5"
    } else if d == 6 {
        "6"
    } else if d == 7 {
        "7"
    } else if d == 8 {
        "8"
    } else {
        "9"
    }
}

/// Renders `n` in decimal, as error messages embed positions.
pub fn dec_str(n: usize) -> (r: String)
    ensures
        r@ == spec_digits(n as nat),
    decreases n,
{
    if n < 10 {
        let r = String::from_str(digit_str(n));
        assert(r@ =~= spec_digits(n as nat));
        r
    } else {
        let mut r = dec_str(n / 10);
        r.append(digit_str(n % 10));
        assert(r@ =~= spec_digits(n as nat));
        r
    }
}

/// Relies on `str::chars`: it yields exactly the characters of the string, in
/// order, which is the string's view.
#[verifier::external_body]
pub fn chars_vec(s: &str) -> (r: Vec<char>)
    ensures
        r@ == s@,
{
    s.chars().collect()
}

/// The string holding exactly these characters, in order.
#[verifier::loop_isolation(false)]
pub fn string_from_chars(cs: &Vec<char>) -> (r: String)
    ensures
        r@ == cs@,
{
    let mut r = String::new();
    assert(r@ =~= cs@.take(0));
    let mut k: usize = 0;
    while k < cs.len()
        invariant
            k <= cs@.len(),
            r@ == cs@.take(k as int),
        decreases cs@.len() - k,
    {
        push_char(&mut r, cs[k]);
        k += 1;
        proof {
            assert(r@ =~= cs@.take(k as int));
        }
    }
    assert(cs@.take(cs@.len() as int) =~= cs@);
    r
}

/// Relies on `String::push`: it appends the one character to the end.
#[verifier::external_body]
pub fn push_char(s: &mut String, c: char)
    ensures
        final(s)@ == old(s)@.push(c),
{
    s.push(c);
}

} // verus!
