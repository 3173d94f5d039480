//! Characters, decimal numerals and the few string primitives the rest of the
//! crate is built on.

use vstd::prelude::*;
use vstd::std_specs::iter::IteratorSpec;

verus! {

/// `String::push` appends exactly one character.
pub assume_specification[ std::string::String::push ](s: &mut std::string::String, c: char)
    ensures
        final(s)@ == old(s)@.push(c),
;

/// The characters of a string slice, in order.
pub fn chars_of(s: &str) -> (v: Vec<char>)
    ensures
        v@ == s@,
{
    broadcast use vstd::string::group_string_axioms;

    let mut it = s.chars();
    let mut v: Vec<char> = Vec::new();
    loop
        invariant
            it.obeys_prophetic_iter_laws(),
            it.decrease() is Some,
            v@ + it.remaining() == s@,
        ensures
            v@ == s@,
        decreases it.decrease()->0,
    {
        match it.next() {
            Some(c) => {
                v.push(c);
            },
            None => {
                break ;
            },
        }
    }
    v
}

/// The string made of the given characters, in order.
pub fn string_of(chars: &Vec<char>) -> (s: String)
    ensures
        s@ == chars@,
{
    let mut s = String::new();
    let mut i: usize = 0;
    while i < chars.len()
        invariant
            i <= chars.len(),
            s@ == chars@.subrange(0, i as int),
        decreases chars.len() - i,
    {
        s.push(chars[i]);
        i += 1;
        assert(s@ =~= chars@.subrange(0, i as int));
    }
    assert(chars@.subrange(0, chars.len() as int) =~= chars@);
    s
}

/// `str`'s `==` holds exactly when the two slices hold the same characters.
pub assume_specification[ <str as PartialEq>::eq ](a: &str, b: &str) -> (r: bool)
    ensures
        r == (a@ == b@),
;

/// Whether two strings hold the same characters.
pub fn same_text(a: &str, b: &str) -> (r: bool)
    ensures
        r == (a@ == b@),
{
    PartialEq::eq(a, b)
}

/// The decimal digit character for a value below ten.
pub open spec fn digit_char(d: nat) -> char {
    if d == 0 {
        '0'
    } else if d == 1 {
        '1'
    } else if d == 2 {
        '2'
    } else if d == 3 {
        '3'
    } else if d == 4 {
        '4'
    } else if d == 5 {
        '5'
    } else if d == 6 {
        '6'
    } else if d == 7 {
        '7'
    } else if d == 8 {
        '8'
    } else {
        '9'
    }
}

/// Whether a character is one of the ten ASCII digits.
pub open spec fn is_digit(c: char) -> bool {
    '0' <= c && c <= '9'
}

/// The value of an ASCII digit.
pub open spec fn digit_value(c: char) -> nat {
    (c as u32 - '0' as u32) as nat
}

/// Whether every character of a text is an ASCII digit.
pub open spec fn all_digits(s: Seq<char>) -> bool {
    forall|i: int| 0 <= i < s.len() ==> is_digit(#[trigger] s[i])
}

/// The decimal numeral of a natural number, without leading zeros.
pub open spec fn decimal_digits(n: nat) -> Seq<char>
    decreases n,
{
    if n < 10 {
        seq![digit_char(n)]
    } else {
        decimal_digits(n / 10).push(digit_char(n % 10))
    }
}

/// The decimal numeral of an integer: a minus sign for negative values, then
/// the digits of the magnitude.
pub open spec fn decimal(i: int) -> Seq<char> {
    if i < 0 {
        seq!['-'] + decimal_digits((-i) as nat)
    } else {
        decimal_digits(i as nat)
    }
}

/// The number a run of digits denotes; the empty run denotes zero.
pub open spec fn digits_number(s: Seq<char>) -> nat
    decreases s.len(),
{
    if s.len() == 0 {
        0
    } else {
        digits_number(s.drop_last()) * 10 + digit_value(s.last())
    }
}

/// The integer a signed decimal numeral denotes: an optional `+` or `-`, then
/// one or more digits.  Anything else denotes no integer.
pub open spec fn numeral_value(s: Seq<char>) -> Option<int> {
    if s.len() == 0 {
        None
    } else if s[0] == '-' || s[0] == '+' {
        let body = s.subrange(1, s.len() as int);
        if body.len() == 0 || !all_digits(body) {
            None
        } else if s[0] == '-' {
            Some(-(digits_number(body) as int))
        } else {
            Some(digits_number(body) as int)
        }
    } else if all_digits(s) {
        Some(digits_number(s) as int)
    } else {
        None
    }
}

/// The integer a token denotes when it is a signed decimal numeral whose value
/// fits in 128 bits.
pub open spec fn integer_literal(s: Seq<char>) -> Option<int> {
    match numeral_value(s) {
        Some(v) => if i128::MIN <= v <= i128::MAX {
            Some(v)
        } else {
            None
        },
        None => None,
    }
}

fn digit_of(d: u8) -> (c: char)
    requires
        d < 10,
    ensures
        c == digit_char(d as nat),
        is_digit(c),
        digit_value(c) == d,
{
    if d == 0 {
        '0'
    } else if d == 1 {
        '1'
    } else if d == 2 {
        '2'
    } else if d == 3 {
        '3'
    } else if d == 4 {
        '4'
    } else if d == 5 {
        '5'
    } else if d == 6 {
        '6'
    } else if d == 7 {
        '7'
    } else if d == 8 {
        '8'
    } else {
        '9'
    }
}

/// Appends the decimal digits of `n` to `out`.
pub fn push_digits(out: &mut Vec<char>, n: u128)
    ensures
        final(out)@ == old(out)@ + decimal_digits(n as nat),
    decreases n,
{
    if n >= 10 {
        push_digits(out, n / 10);
    }
    let d = (n % 10) as u8;
    out.push(digit_of(d));
    assert(out@ =~= old(out)@ + decimal_digits(n as nat));
}

/// Appends the decimal numeral of `i` to `out`.
pub fn push_decimal(out: &mut Vec<char>, i: i128)
    ensures
        final(out)@ == old(out)@ + decimal(i as int),
{
    if i < 0 {
        out.push('-');
        let magnitude: u128 = ((-(i + 1)) as u128) + 1;
        push_digits(out, magnitude);
        assert(out@ =~= old(out)@ + decimal(i as int));
    } else {
        push_digits(out, i as u128);
    }
}


/// A longer run of digits never denotes a smaller number than one of its
/// prefixes.
pub proof fn lemma_digits_number_prefix(s: Seq<char>, k: int)
    requires
        0 <= k <= s.len(),
    ensures
        digits_number(s.subrange(0, k)) <= digits_number(s),
    decreases s.len(),
{
    if k == s.len() {
        assert(s.subrange(0, k) =~= s);
    } else {
        lemma_digits_number_prefix(s.drop_last(), k);
        assert(s.drop_last().subrange(0, k) =~= s.subrange(0, k));
    }
}

/// Reads a signed decimal numeral that fits in 128 bits.
pub fn parse_integer(chars: &Vec<char>) -> (r: Option<i128>)
    ensures
        match r {
            Some(v) => integer_literal(chars@) == Some(v as int),
            None => integer_literal(chars@) is None,
        },
{
    let n = chars.len();
    if n == 0 {
        return None;
    }
    let negative = chars[0] == '-';
    let start: usize = if chars[0] == '-' || chars[0] == '+' {
        1
    } else {
        0
    };
    if start == n {
        return None;
    }
    let ghost body = chars@.subrange(start as int, n as int);
    assert(start == 0 ==> body =~= chars@);
    let mut acc: i128 = 0;
    let mut i: usize = start;
    while i < n
        invariant
            start <= i <= n,
            n == chars.len(),
            body == chars@.subrange(start as int, n as int),
            start == 0 ==> body == chars@,
            (start == 1) == (chars@[0] == '-' || chars@[0] == '+'),
            start <= 1,
            start < n,
            all_digits(body.subrange(0, i - start)),
            acc <= 0,
            -acc == digits_number(body.subrange(0, i - start)),
        decreases n - i,
    {
        let c = chars[i];
        let ghost before = body.subrange(0, i - start);
        let ghost after = body.subrange(0, i + 1 - start);
        assert(after.drop_last() =~= before);
        assert(after.last() == c);
        assert(body[i - start] == c);
        if !(c >= '0' && c <= '9') {
            assert(!is_digit(body[i - start]));
            return None;
        }
        let d: i128 = (c as u32 - '0' as u32) as i128;
        assert(d == digit_value(c));
        assert(digits_number(after) == digits_number(before) * 10 + d);
        let scaled = match acc.checked_mul(10) {
            Some(v) => v,
            None => {
                proof {
                    lemma_digits_number_prefix(body, i + 1 - start);
                }
                return None;
            },
        };
        let next = match scaled.checked_sub(d) {
            Some(v) => v,
            None => {
                proof {
                    lemma_digits_number_prefix(body, i + 1 - start);
                }
                return None;
            },
        };
        acc = next;
        i += 1;
        assert forall|j: int| 0 <= j < after.len() implies is_digit(#[trigger] after[j]) by {
            if j < before.len() {
                assert(after[j] == before[j]);
            }
        }
    }
    assert(body.subrange(0, n - start) =~= body);
    if negative {
        Some(acc)
    } else if acc == i128::MIN {
        None
    } else {
        Some(-acc)
    }
}


/// Appends the characters of `s` to `out`.
pub fn push_text(out: &mut Vec<char>, s: &str)
    ensures
        final(out)@ == old(out)@ + s@,
{
    let chars = chars_of(s);
    let mut i: usize = 0;
    while i < chars.len()
        invariant
            i <= chars.len(),
            chars@ == s@,
            out@ == old(out)@ + chars@.subrange(0, i as int),
        decreases chars.len() - i,
    {
        out.push(chars[i]);
        i += 1;
        assert(out@ =~= old(out)@ + chars@.subrange(0, i as int));
    }
    assert(chars@.subrange(0, chars.len() as int) =~= chars@);
}

} // verus!
