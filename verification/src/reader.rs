//! The reader: from text to tokens, and from tokens to a value.

use std::collections::VecDeque;

use regex::Regex;

use vstd::prelude::*;

use crate::text::{all_digits, chars_of, integer_literal, is_digit, parse_integer, string_of};
use crate::text::same_text;
use crate::variable_type::{
    distinct_keys, entries, insert_entry, lemma_with_entry_keeps_keys_distinct, print_form,
    texts, values, with_entry, DataType, Value,
};

verus! {

/// Why a text could not be read.
#[derive(Debug)]
pub struct ParseError {
    pub msg: String,
}

/// A queue of tokens that values are read from.
pub struct Reader {
    tokens: VecDeque<String>,
}

/// What reading one form gives: the value or the complaint, and the tokens
/// that are left.
pub struct Parsed {
    pub result: Result<Value, Seq<char>>,
    pub rest: Seq<Seq<char>>,
}

/// What reading the items of a list or vector gives.
pub struct ParsedItems {
    pub result: Result<Seq<Value>, Seq<char>>,
    pub rest: Seq<Seq<char>>,
}

/// What reading the entries of a dictionary gives.
pub struct ParsedEntries {
    pub result: Result<Seq<(Seq<char>, Value)>, Seq<char>>,
    pub rest: Seq<Seq<char>>,
}

/// The complaint about an input without tokens.
pub open spec fn empty_message() -> Seq<char> {
    "empty"@
}

/// The complaint about a bracket that is never closed.
pub open spec fn unclosed_message() -> Seq<char> {
    "unclosed bracket"@
}

/// The complaint about a closing bracket that closes nothing.
pub open spec fn stray_message() -> Seq<char> {
    "stray terminator"@
}

/// The complaint about a token that is no atom.
pub open spec fn unparseable_message() -> Seq<char> {
    "unparseable atom"@
}

/// The complaint about a string without its closing quote.
pub open spec fn unbalanced_message() -> Seq<char> {
    "unbalanced string"@
}

/// The complaint about tokens that end where an atom is due.
pub open spec fn missing_atom_message() -> Seq<char> {
    "unexpected end of input"@
}

/// What the character after a backslash stands for inside a string token.
pub open spec fn unescape(c: char) -> Seq<char> {
    if c == 'n' {
        seq!['\n']
    } else if c == '\\' {
        seq!['\\']
    } else if c == '"' {
        seq!['"']
    } else {
        seq!['\\', c]
    }
}

/// The text a string token denotes, given what follows its opening quote:
/// escapes decoded, up to the closing quote, which must end the token.
pub open spec fn string_literal(t: Seq<char>) -> Option<Seq<char>>
    decreases t.len(),
{
    if t.len() == 0 {
        None
    } else if t[0] == '"' {
        if t.len() == 1 {
            Some(Seq::empty())
        } else {
            None
        }
    } else if t[0] == '\\' {
        if t.len() < 2 {
            None
        } else {
            match string_literal(t.skip(2)) {
                Some(r) => Some(unescape(t[1]) + r),
                None => None,
            }
        }
    } else {
        match string_literal(t.skip(1)) {
            Some(r) => Some(seq![t[0]] + r),
            None => None,
        }
    }
}

/// The position of the first `.` of a text, or its length when it has none.
pub open spec fn dot_position(s: Seq<char>) -> nat
    decreases s.len(),
{
    if s.len() == 0 {
        0
    } else if s[0] == '.' {
        0
    } else {
        1 + dot_position(s.skip(1))
    }
}

/// A run of digits without its redundant leading zeros.
pub open spec fn strip_leading_zeros(s: Seq<char>) -> Seq<char>
    decreases s.len(),
{
    if s.len() > 1 && s[0] == '0' {
        strip_leading_zeros(s.skip(1))
    } else {
        s
    }
}

/// A run of digits without its redundant trailing zeros.
pub open spec fn strip_trailing_zeros(s: Seq<char>) -> Seq<char>
    decreases s.len(),
{
    if s.len() > 1 && s.last() == '0' {
        strip_trailing_zeros(s.drop_last())
    } else {
        s
    }
}

/// The digits before the point of a float, in their shortest form.
pub open spec fn whole_part(s: Seq<char>) -> Seq<char> {
    if s.len() == 0 {
        seq!['0']
    } else {
        strip_leading_zeros(s)
    }
}

/// The digits after the point of a float, in their shortest form.
pub open spec fn fraction_part(s: Seq<char>) -> Seq<char> {
    if s.len() == 0 {
        seq!['0']
    } else {
        strip_trailing_zeros(s)
    }
}

/// The float a token denotes, as the text it is carried by: an optional sign,
/// digits, a point, digits, with a digit on at least one side of the point.
/// The text keeps a minus sign, drops a plus sign and redundant zeros, and
/// has a digit on both sides of the point.
pub open spec fn float_literal(tok: Seq<char>) -> Option<Seq<char>> {
    let signed = tok.len() > 0 && (tok[0] == '-' || tok[0] == '+');
    let body = if signed {
        tok.skip(1)
    } else {
        tok
    };
    let dot = dot_position(body) as int;
    if dot >= body.len() {
        None
    } else {
        let whole = body.take(dot);
        let fraction = body.skip(dot + 1);
        if !all_digits(whole) || !all_digits(fraction) || whole.len() + fraction.len() == 0 {
            None
        } else {
            let sign = if tok[0] == '-' {
                seq!['-']
            } else {
                Seq::empty()
            };
            Some(sign + whole_part(whole) + seq!['.'] + fraction_part(fraction))
        }
    }
}

/// Whether a token is a closing bracket.
pub open spec fn is_terminator(tok: Seq<char>) -> bool {
    tok == ")"@ || tok == "]"@ || tok == "}"@
}

/// The value of a token that stands for itself.
pub open spec fn atom_value(tok: Seq<char>) -> Result<Value, Seq<char>> {
    if tok.len() == 0 {
        Err(unparseable_message())
    } else if integer_literal(tok) is Some {
        Ok(Value::Integer(integer_literal(tok)->Some_0))
    } else if float_literal(tok) is Some {
        Ok(Value::Float(float_literal(tok)->Some_0))
    } else if tok == "false"@ {
        Ok(Value::Bool(false))
    } else if tok == "true"@ {
        Ok(Value::Bool(true))
    } else if tok == "nil"@ {
        Ok(Value::Nil)
    } else if tok[0] == '"' {
        match string_literal(tok.skip(1)) {
            Some(s) => Ok(Value::Str(s)),
            None => Err(unbalanced_message()),
        }
    } else if tok[0] == ';' {
        Ok(Value::Comment)
    } else if tok == "("@ {
        Err(unparseable_message())
    } else if is_terminator(tok) {
        Err(stray_message())
    } else {
        Ok(Value::Symbol(tok))
    }
}

/// A form read after a quoting token: the two-item list of the quoting
/// symbol and the form.
pub open spec fn wrapped(name: Seq<char>, inner: Parsed) -> Parsed {
    Parsed {
        result: match inner.result {
            Ok(v) => Ok(Value::List(seq![Value::Symbol(name), v])),
            Err(e) => Err(e),
        },
        rest: inner.rest,
    }
}

/// The list or vector made of the items read.
pub open spec fn sequence_of(items: ParsedItems, is_list: bool) -> Parsed {
    Parsed {
        result: match items.result {
            Ok(x) => Ok(
                if is_list {
                    Value::List(x)
                } else {
                    Value::Vector(x)
                },
            ),
            Err(e) => Err(e),
        },
        rest: items.rest,
    }
}

/// The dictionary made of the entries read.
pub open spec fn dictionary_of(pairs: ParsedEntries) -> Parsed {
    Parsed {
        result: match pairs.result {
            Ok(x) => Ok(Value::Dictionary(x)),
            Err(e) => Err(e),
        },
        rest: pairs.rest,
    }
}

/// Reads forms up to the closing token `close`, after the items in `acc`.
pub open spec fn read_items(ts: Seq<Seq<char>>, close: Seq<char>, acc: Seq<Value>) -> ParsedItems
    decreases ts.len(), 3nat,
{
    if ts.len() == 0 {
        ParsedItems { result: Err(unclosed_message()), rest: ts }
    } else if ts[0] == close {
        ParsedItems { result: Ok(acc), rest: ts.skip(1) }
    } else {
        let item = read_form(ts);
        match item.result {
            Ok(v) => if item.rest.len() < ts.len() {
                read_items(item.rest, close, acc.push(v))
            } else {
                ParsedItems { result: Err(unclosed_message()), rest: item.rest }
            },
            Err(e) => ParsedItems { result: Err(e), rest: item.rest },
        }
    }
}

/// Reads key and value forms in turn up to the closing token `close`, after
/// the entries in `acc`.  A key is kept as its print form; a later entry
/// replaces an earlier one with the same key.
pub open spec fn read_entries(
    ts: Seq<Seq<char>>,
    close: Seq<char>,
    acc: Seq<(Seq<char>, Value)>,
) -> ParsedEntries
    decreases ts.len(), 3nat,
{
    if ts.len() == 0 {
        ParsedEntries { result: Err(unclosed_message()), rest: ts }
    } else if ts[0] == close {
        ParsedEntries { result: Ok(acc), rest: ts.skip(1) }
    } else {
        let key = read_form(ts);
        match key.result {
            Ok(k) => if key.rest.len() < ts.len() {
                let value = read_form(key.rest);
                match value.result {
                    Ok(v) => if value.rest.len() < ts.len() {
                        read_entries(
                            value.rest,
                            close,
                            with_entry(
                                acc,
                                print_form(k),
                                v,
                            ),
                        )
                    } else {
                        ParsedEntries { result: Err(unclosed_message()), rest: value.rest }
                    },
                    Err(e) => ParsedEntries { result: Err(e), rest: value.rest },
                }
            } else {
                ParsedEntries { result: Err(unclosed_message()), rest: key.rest }
            },
            Err(e) => ParsedEntries { result: Err(e), rest: key.rest },
        }
    }
}

/// The entries read for a dictionary hold each key once.
pub proof fn lemma_read_entries_keys_distinct(
    ts: Seq<Seq<char>>,
    close: Seq<char>,
    acc: Seq<(Seq<char>, Value)>,
)
    requires
        distinct_keys(acc),
        read_entries(ts, close, acc).result is Ok,
    ensures
        distinct_keys(read_entries(ts, close, acc).result->Ok_0),
    decreases ts.len(),
{
    if ts.len() > 0 && ts[0] != close {
        let key = read_form(ts);
        if key.result is Ok && key.rest.len() < ts.len() {
            let value = read_form(key.rest);
            if value.result is Ok && value.rest.len() < ts.len() {
                let k = print_form(key.result->Ok_0);
                let v = value.result->Ok_0;
                lemma_with_entry_keeps_keys_distinct(acc, k, v);
                lemma_read_entries_keys_distinct(value.rest, close, with_entry(acc, k, v));
            }
        }
    }
}

/// Reads one form whose first token is not an opening round bracket: a
/// vector, a dictionary, a quoted form, or a token that stands for itself.
/// After `@` comes an atom, not a full form.
pub open spec fn read_atom(ts: Seq<Seq<char>>) -> Parsed
    decreases ts.len(), 1nat,
{
    if ts.len() == 0 {
        Parsed { result: Err(missing_atom_message()), rest: ts }
    } else {
        let tok = ts[0];
        let rest = ts.skip(1);
        if tok == "["@ {
            sequence_of(read_items(rest, "]"@, Seq::empty()), false)
        } else if tok == "{"@ {
            dictionary_of(read_entries(rest, "}"@, Seq::empty()))
        } else if tok == "@"@ {
            wrapped("deref"@, read_atom(rest))
        } else if tok == "'"@ {
            wrapped("quote"@, read_form(rest))
        } else if tok == "`"@ {
            wrapped("quasiquote"@, read_form(rest))
        } else if tok == "~"@ {
            wrapped("unquote"@, read_form(rest))
        } else if tok == "~@"@ {
            wrapped("splice-unquote"@, read_form(rest))
        } else {
            Parsed { result: atom_value(tok), rest: rest }
        }
    }
}

/// Reads one form from the front of the tokens.
pub open spec fn read_form(ts: Seq<Seq<char>>) -> Parsed
    decreases ts.len(), 2nat,
{
    if ts.len() == 0 {
        Parsed { result: Err(empty_message()), rest: ts }
    } else if ts[0] == "("@ {
        sequence_of(read_items(ts.skip(1), ")"@, Seq::empty()), true)
    } else {
        read_atom(ts)
    }
}


/// Whether the characters are those of the given text.
pub fn is_text(chars: &Vec<char>, text: &str) -> (r: bool)
    ensures
        r == (chars@ == text@),
{
    let other = chars_of(text);
    if chars.len() != other.len() {
        return false;
    }
    let mut i: usize = 0;
    while i < chars.len()
        invariant
            i <= chars.len(),
            chars.len() == other.len(),
            other@ == text@,
            forall|j: int| 0 <= j < i ==> chars@[j] == other@[j],
        decreases chars.len() - i,
    {
        if chars[i] != other[i] {
            return false;
        }
        i += 1;
    }
    assert(chars@ =~= other@);
    true
}

/// Decodes a string token, whose first character is the opening quote.
fn decode_string(chars: &Vec<char>) -> (r: Option<String>)
    requires
        chars.len() >= 1,
    ensures
        match r {
            Some(s) => string_literal(chars@.skip(1)) == Some(s@),
            None => string_literal(chars@.skip(1)) is None,
        },
{
    let n = chars.len();
    let mut out: Vec<char> = Vec::new();
    let mut i: usize = 1;
    loop
        invariant
            1 <= i <= n,
            n == chars.len(),
            string_literal(chars@.skip(1)) == match string_literal(chars@.skip(i as int)) {
                Some(r) => Some(out@ + r),
                None => None,
            },
        decreases n - i,
    {
        let ghost t = chars@.skip(i as int);
        if i >= n {
            return None;
        }
        let c = chars[i];
        assert(t[0] == c);
        if c == '"' {
            if i + 1 == n {
                assert(out@ + Seq::<char>::empty() =~= out@);
                return Some(string_of(&out));
            } else {
                return None;
            }
        } else if c == '\\' {
            if i + 1 >= n {
                return None;
            }
            let e = chars[i + 1];
            assert(t[1] == e);
            let ghost before = out@;
            if e == 'n' {
                out.push('\n');
            } else if e == '\\' {
                out.push('\\');
            } else if e == '"' {
                out.push('"');
            } else {
                out.push('\\');
                out.push(e);
            }
            assert(out@ =~= before + unescape(e));
            assert(t.skip(2) =~= chars@.skip(i + 2));
            assert forall|r: Seq<char>| before + (unescape(e) + r) =~= #[trigger] (out@ + r) by {}
            i += 2;
        } else {
            let ghost before = out@;
            out.push(c);
            assert(t.skip(1) =~= chars@.skip(i + 1));
            assert forall|r: Seq<char>| before + (seq![c] + r) =~= #[trigger] (out@ + r) by {}
            i += 1;
        }
    }
}

/// Where the first `.` is when nothing before `k` is one and `k` holds one
/// or is the end.
proof fn lemma_dot_position(s: Seq<char>, k: int)
    requires
        0 <= k <= s.len(),
        forall|j: int| 0 <= j < k ==> s[j] != '.',
        k < s.len() ==> s[k] == '.',
    ensures
        dot_position(s) == k,
    decreases k,
{
    if k > 0 {
        let rest = s.skip(1);
        assert forall|j: int| 0 <= j < k - 1 implies rest[j] != '.' by {
            assert(rest[j] == s[j + 1]);
        }
        lemma_dot_position(rest, k - 1);
    }
}

/// Whether the characters from `lo` up to `hi` are all digits.
fn digits_between(chars: &Vec<char>, lo: usize, hi: usize) -> (r: bool)
    requires
        lo <= hi <= chars.len(),
    ensures
        r == all_digits(chars@.subrange(lo as int, hi as int)),
{
    let ghost part = chars@.subrange(lo as int, hi as int);
    let mut i: usize = lo;
    while i < hi
        invariant
            lo <= i <= hi <= chars.len(),
            part == chars@.subrange(lo as int, hi as int),
            forall|j: int| 0 <= j < i - lo ==> is_digit(#[trigger] part[j]),
        decreases hi - i,
    {
        let c = chars[i];
        if !(c >= '0' && c <= '9') {
            assert(!is_digit(part[i - lo]));
            return false;
        }
        i += 1;
    }
    true
}

/// Appends the digits before the point, in their shortest form.
fn push_whole(out: &mut Vec<char>, chars: &Vec<char>, lo: usize, hi: usize)
    requires
        lo <= hi <= chars.len(),
    ensures
        final(out)@ == old(out)@ + whole_part(chars@.subrange(lo as int, hi as int)),
{
    let ghost whole = chars@.subrange(lo as int, hi as int);
    if lo == hi {
        out.push('0');
        assert(out@ =~= old(out)@ + whole_part(whole));
        return ;
    }
    let mut k: usize = lo;
    assert(whole.skip(0) =~= whole);
    while k + 1 < hi && chars[k] == '0'
        invariant
            lo <= k < hi <= chars.len(),
            whole == chars@.subrange(lo as int, hi as int),
            strip_leading_zeros(whole) == strip_leading_zeros(whole.skip(k - lo)),
        decreases hi - k,
    {
        assert(whole.skip(k - lo).skip(1) =~= whole.skip(k + 1 - lo));
        assert(whole.skip(k - lo)[0] == chars@[k as int]);
        k += 1;
    }
    assert(whole.skip(k - lo)[0] == chars@[k as int]);
    assert(strip_leading_zeros(whole) == whole.skip(k - lo));
    let mut j: usize = k;
    while j < hi
        invariant
            lo <= k <= j <= hi <= chars.len(),
            whole == chars@.subrange(lo as int, hi as int),
            out@ == old(out)@ + whole.subrange(k - lo, j - lo),
        decreases hi - j,
    {
        out.push(chars[j]);
        j += 1;
        assert(out@ =~= old(out)@ + whole.subrange(k - lo, j - lo));
    }
    assert(whole.subrange(k - lo, hi - lo) =~= whole.skip(k - lo));
}

/// Appends the digits after the point, in their shortest form.
fn push_fraction(out: &mut Vec<char>, chars: &Vec<char>, lo: usize, hi: usize)
    requires
        lo <= hi <= chars.len(),
    ensures
        final(out)@ == old(out)@ + fraction_part(chars@.subrange(lo as int, hi as int)),
{
    let ghost fraction = chars@.subrange(lo as int, hi as int);
    if lo == hi {
        out.push('0');
        assert(out@ =~= old(out)@ + fraction_part(fraction));
        return ;
    }
    let mut e: usize = hi;
    assert(fraction.take(hi - lo) =~= fraction);
    while e > lo + 1 && chars[e - 1] == '0'
        invariant
            lo < e <= hi <= chars.len(),
            fraction == chars@.subrange(lo as int, hi as int),
            strip_trailing_zeros(fraction) == strip_trailing_zeros(fraction.take(e - lo)),
        decreases e,
    {
        assert(fraction.take(e - lo).drop_last() =~= fraction.take(e - 1 - lo));
        assert(fraction.take(e - lo).last() == chars@[e - 1]);
        e -= 1;
    }
    assert(fraction.take(e - lo).last() == chars@[e - 1]);
    assert(strip_trailing_zeros(fraction) == fraction.take(e - lo));
    let mut j: usize = lo;
    while j < e
        invariant
            lo <= j <= e <= hi <= chars.len(),
            fraction == chars@.subrange(lo as int, hi as int),
            out@ == old(out)@ + fraction.subrange(0, j - lo),
        decreases e - j,
    {
        out.push(chars[j]);
        j += 1;
        assert(out@ =~= old(out)@ + fraction.subrange(0, j - lo));
    }
    assert(fraction.subrange(0, e - lo) =~= fraction.take(e - lo));
}

/// Reads a float token and gives the text that carries it.
fn float_text(chars: &Vec<char>) -> (r: Option<String>)
    ensures
        match r {
            Some(s) => float_literal(chars@) == Some(s@),
            None => float_literal(chars@) is None,
        },
{
    let n = chars.len();
    let signed = n > 0 && (chars[0] == '-' || chars[0] == '+');
    let start: usize = if signed {
        1
    } else {
        0
    };
    let ghost body = if signed {
        chars@.skip(1)
    } else {
        chars@
    };
    assert(body =~= chars@.subrange(start as int, n as int));
    let mut d: usize = start;
    while d < n && chars[d] != '.'
        invariant
            start <= d <= n,
            n == chars.len(),
            body == chars@.subrange(start as int, n as int),
            forall|j: int| 0 <= j < d - start ==> body[j] != '.',
        decreases n - d,
    {
        d += 1;
    }
    proof {
        lemma_dot_position(body, d - start);
    }
    if d >= n {
        return None;
    }
    let ghost whole = body.take(d - start);
    let ghost fraction = body.skip(d - start + 1);
    assert(whole =~= chars@.subrange(start as int, d as int));
    assert(fraction =~= chars@.subrange(d + 1, n as int));
    if !digits_between(chars, start, d) || !digits_between(chars, d + 1, n) {
        return None;
    }
    if d - start + (n - (d + 1)) == 0 {
        return None;
    }
    let mut out: Vec<char> = Vec::new();
    if chars[0] == '-' {
        out.push('-');
    }
    push_whole(&mut out, chars, start, d);
    out.push('.');
    push_fraction(&mut out, chars, d + 1, n);
    let ghost sign = if chars@[0] == '-' {
        seq!['-']
    } else {
        Seq::<char>::empty()
    };
    assert(out@ =~= sign + whole_part(whole) + seq!['.'] + fraction_part(fraction));
    Some(string_of(&out))
}

/// The complaint carried by a `ParseError` with the given text.
fn complaint(text: &str) -> (e: ParseError)
    ensures
        e.msg@ == text@,
{
    ParseError { msg: String::from_str(text) }
}

/// The model of what a reading function returns.
pub open spec fn outcome(r: Result<DataType, ParseError>) -> Result<Value, Seq<char>> {
    match r {
        Ok(v) => Ok(v@),
        Err(e) => Err(e.msg@),
    }
}

/// The value of a token that stands for itself.
pub fn read_token(token: String) -> (r: Result<DataType, ParseError>)
    ensures
        outcome(r) == atom_value(token@),
{
    let chars = chars_of(token.as_str());
    if chars.len() == 0 {
        return Err(complaint("unparseable atom"));
    }
    if let Some(i) = parse_integer(&chars) {
        return Ok(DataType::Integer(i));
    }
    if let Some(text) = float_text(&chars) {
        return Ok(DataType::Float(text));
    }
    if is_text(&chars, "false") {
        Ok(DataType::Bool(false))
    } else if is_text(&chars, "true") {
        Ok(DataType::Bool(true))
    } else if is_text(&chars, "nil") {
        Ok(DataType::Nil())
    } else if chars[0] == '"' {
        match decode_string(&chars) {
            Some(s) => Ok(DataType::String(s)),
            None => Err(complaint("unbalanced string")),
        }
    } else if chars[0] == ';' {
        Ok(DataType::Comment())
    } else if is_text(&chars, "(") {
        Err(complaint("unparseable atom"))
    } else if is_text(&chars, ")") || is_text(&chars, "]") || is_text(&chars, "}") {
        Err(complaint("stray terminator"))
    } else {
        Ok(DataType::Symbol(token))
    }
}


/// The two-item list of a quoting symbol and a form.
fn quoting(name: &str, form: DataType) -> (r: DataType)
    ensures
        r@ == Value::List(seq![Value::Symbol(name@), form@]),
{
    let mut items: Vec<DataType> = Vec::new();
    items.push(DataType::Symbol(String::from_str(name)));
    items.push(form);
    assert(values(items@) =~= seq![Value::Symbol(name@), form@]);
    DataType::List(items)
}

impl Reader {
    /// The tokens that are still to be read, first to last.
    pub closed spec fn pending(&self) -> Seq<Seq<char>> {
        texts(self.tokens@)
    }

    /// A reader over the given tokens.
    pub fn new(input: VecDeque<String>) -> (r: Reader)
        ensures
            r.pending() == texts(input@),
    {
        Reader { tokens: input }
    }

    /// Takes the first token off the queue.
    pub fn next(&mut self) -> (t: Option<String>)
        ensures
            match t {
                Some(s) => {
                    &&& old(self).pending().len() > 0
                    &&& s@ == old(self).pending()[0]
                    &&& final(self).pending() == old(self).pending().skip(1)
                },
                None => old(self).pending().len() == 0 && final(self).pending() == old(
                    self,
                ).pending(),
            },
    {
        let t = self.tokens.pop_front();
        assert(t is Some ==> self.pending() =~= old(self).pending().skip(1));
        t
    }

    /// A copy of the first token, which stays on the queue.
    pub fn peek(&self) -> (t: Option<String>)
        ensures
            match t {
                Some(s) => self.pending().len() > 0 && s@ == self.pending()[0],
                None => self.pending().len() == 0,
            },
    {
        if self.tokens.len() > 0 {
            Some(self.tokens[0].clone())
        } else {
            None
        }
    }

    /// Reads one form from the front of the queue.
    pub fn read(&mut self) -> (r: Result<DataType, ParseError>)
        ensures
            outcome(r) == read_form(old(self).pending()).result,
            final(self).pending() == read_form(old(self).pending()).rest,
            final(self).pending().len() <= old(self).pending().len(),
            r is Ok ==> final(self).pending().len() < old(self).pending().len(),
        decreases old(self).pending().len(), 2nat,
    {
        let current = match self.peek() {
            Some(t) => t,
            None => {
                return Err(complaint("empty"));
            },
        };
        if same_text(current.as_str(), "(") {
            self.next();
            self.read_list(String::from_str(")"))
        } else {
            self.read_atom()
        }
    }

    /// Reads forms up to the closing token, which is taken off the queue too.
    /// The forms make a list when the closing token is `)`, else a vector.
    pub fn read_list(&mut self, end_character: String) -> (r: Result<DataType, ParseError>)
        ensures
            outcome(r) == sequence_of(
                read_items(old(self).pending(), end_character@, Seq::empty()),
                end_character@ == ")"@,
            ).result,
            final(self).pending() == read_items(
                old(self).pending(),
                end_character@,
                Seq::empty(),
            ).rest,
            final(self).pending().len() <= old(self).pending().len(),
            r is Ok ==> final(self).pending().len() < old(self).pending().len(),
        decreases old(self).pending().len(), 3nat,
    {
        let mut children: Vec<DataType> = Vec::new();
        assert(values(children@) =~= Seq::empty());
        loop
            invariant
                self.pending().len() <= old(self).pending().len(),
                read_items(old(self).pending(), end_character@, Seq::empty()) == read_items(
                    self.pending(),
                    end_character@,
                    values(children@),
                ),
            decreases self.pending().len(),
        {
            let token = match self.peek() {
                Some(t) => t,
                None => {
                    return Err(complaint("unclosed bracket"));
                },
            };
            if same_text(token.as_str(), end_character.as_str()) {
                self.next();
                if same_text(end_character.as_str(), ")") {
                    return Ok(DataType::List(children));
                } else {
                    return Ok(DataType::Vector(children));
                }
            }
            let ghost before = values(children@);
            match self.read() {
                Ok(child) => {
                    children.push(child);
                    assert(values(children@) =~= before.push(child@));
                },
                Err(e) => {
                    return Err(e);
                },
            }
        }
    }

    /// Reads key and value forms in turn up to the closing token, which is
    /// taken off the queue too, and makes a dictionary of them.
    pub fn read_dictionary(&mut self, end_character: String) -> (r: Result<DataType, ParseError>)
        ensures
            outcome(r) == dictionary_of(
                read_entries(old(self).pending(), end_character@, Seq::empty()),
            ).result,
            final(self).pending() == read_entries(
                old(self).pending(),
                end_character@,
                Seq::empty(),
            ).rest,
            final(self).pending().len() <= old(self).pending().len(),
            r is Ok ==> final(self).pending().len() < old(self).pending().len(),
        decreases old(self).pending().len(), 3nat,
    {
        let mut children: Vec<(String, DataType)> = Vec::new();
        assert(entries(children@) =~= Seq::empty());
        loop
            invariant
                self.pending().len() <= old(self).pending().len(),
                read_entries(old(self).pending(), end_character@, Seq::empty())
                    == read_entries(self.pending(), end_character@, entries(children@)),
            decreases self.pending().len(),
        {
            let token = match self.peek() {
                Some(t) => t,
                None => {
                    return Err(complaint("unclosed bracket"));
                },
            };
            if same_text(token.as_str(), end_character.as_str()) {
                self.next();
                return Ok(DataType::Dictionary(children));
            }
            let key = match self.read() {
                Ok(k) => k,
                Err(e) => {
                    return Err(e);
                },
            };
            let value = match self.read() {
                Ok(v) => v,
                Err(e) => {
                    return Err(e);
                },
            };
            insert_entry(&mut children, key.print(), value);
        }
    }

    /// Reads one form whose first token is not an opening round bracket.
    pub fn read_atom(&mut self) -> (r: Result<DataType, ParseError>)
        ensures
            outcome(r) == read_atom(old(self).pending()).result,
            final(self).pending() == read_atom(old(self).pending()).rest,
            final(self).pending().len() <= old(self).pending().len(),
            r is Ok ==> final(self).pending().len() < old(self).pending().len(),
        decreases old(self).pending().len(), 1nat,
    {
        let token = match self.next() {
            Some(t) => t,
            None => {
                return Err(complaint("unexpected end of input"));
            },
        };
        if same_text(token.as_str(), "[") {
            proof {
                reveal_strlit("]");
                reveal_strlit(")");
                assert("]"@[0] != ")"@[0]);
            }
            self.read_list(String::from_str("]"))
        } else if same_text(token.as_str(), "{") {
            self.read_dictionary(String::from_str("}"))
        } else if same_text(token.as_str(), "@") {
            match self.read_atom() {
                Ok(v) => Ok(quoting("deref", v)),
                Err(e) => Err(e),
            }
        } else if same_text(token.as_str(), "'") {
            match self.read() {
                Ok(v) => Ok(quoting("quote", v)),
                Err(e) => Err(e),
            }
        } else if same_text(token.as_str(), "`") {
            match self.read() {
                Ok(v) => Ok(quoting("quasiquote", v)),
                Err(e) => Err(e),
            }
        } else if same_text(token.as_str(), "~") {
            match self.read() {
                Ok(v) => Ok(quoting("unquote", v)),
                Err(e) => Err(e),
            }
        } else if same_text(token.as_str(), "~@") {
            match self.read() {
                Ok(v) => Ok(quoting("splice-unquote", v)),
                Err(e) => Err(e),
            }
        } else {
            read_token(token)
        }
    }
}


/// The pattern that splits text into tokens.  In order of preference a token
/// is `~@`, one of the bracket and quoting characters, a double-quoted string
/// with backslash escapes (closed or not), a comment from `;` to the end of
/// the line, or a run of characters that are none of these; white space and
/// commas before a token are skipped.
pub const REGEX_TOKEN_EXP: &'static str =
    r#"[\s,]*(~@|[\[\]{}()'`~^@]|"(?:\\.|[^\\"])*"?|;.*|[^\s\[\]{}('"`,;)]*)"#;

/// A compiled pattern of the regex crate.
#[verifier::external_type_specification]
#[verifier::external_body]
pub struct ExRegex(regex::Regex);

/// The complaint of the regex crate about a pattern.
#[verifier::external_type_specification]
#[verifier::external_body]
pub struct ExRegexError(regex::Error);

/// What `Regex::new` makes of a pattern: the compiled pattern, or nothing
/// where it refuses the pattern.
pub uninterp spec fn compiled(pattern: Seq<char>) -> Option<Regex>;

/// What `Regex::captures_iter` finds in a text: for each match in turn, the
/// text of the first capture group, where that group took part in the match.
pub uninterp spec fn captured(re: Regex, text: Seq<char>) -> Seq<Option<Seq<char>>>;

/// Calls `Regex::new`, which compiles the pattern or refuses it.
#[verifier::external_body]
fn compile(pattern: &str) -> (r: Result<Regex, regex::Error>)
    ensures
        match r {
            Ok(re) => compiled(pattern@) == Some(re),
            Err(_) => compiled(pattern@) is None,
        },
{
    Regex::new(pattern)
}

/// Calls `Regex::captures_iter` and, on each match, `Captures::get` for the
/// first group: the texts come in the order of the matches.
#[verifier::external_body]
fn first_groups(re: &Regex, text: &str) -> (out: Vec<Option<String>>)
    ensures
        out@.len() == captured(*re, text@).len(),
        forall|i: int|
            0 <= i < out@.len() ==> (#[trigger] out@[i] matches Some(s) ==> captured(
                *re,
                text@,
            )[i] == Some(s@)) && (out@[i] is None ==> captured(*re, text@)[i] is None),
{
    re.captures_iter(text).map(|c| c.get(1).map(|m| m.as_str().to_string())).collect()
}

/// Whether a character has the Unicode property White_Space.
pub open spec fn is_white_space(c: char) -> bool {
    let n = c as u32;
    ||| 0x09 <= n <= 0x0d
    ||| n == 0x20
    ||| n == 0x85
    ||| n == 0xa0
    ||| n == 0x1680
    ||| 0x2000 <= n <= 0x200a
    ||| n == 0x2028
    ||| n == 0x2029
    ||| n == 0x202f
    ||| n == 0x205f
    ||| n == 0x3000
}

/// A text without the white space at its start.
pub open spec fn trim_start(s: Seq<char>) -> Seq<char>
    decreases s.len(),
{
    if s.len() > 0 && is_white_space(s[0]) {
        trim_start(s.skip(1))
    } else {
        s
    }
}

/// A text without the white space at its end.
pub open spec fn trim_end(s: Seq<char>) -> Seq<char>
    decreases s.len(),
{
    if s.len() > 0 && is_white_space(s.last()) {
        trim_end(s.drop_last())
    } else {
        s
    }
}

/// A text without the white space at either end.
pub open spec fn trimmed(s: Seq<char>) -> Seq<char> {
    trim_end(trim_start(s))
}

/// The texts that are present and not empty, in order.
pub open spec fn present(found: Seq<Option<Seq<char>>>) -> Seq<Seq<char>>
    decreases found.len(),
{
    if found.len() == 0 {
        Seq::empty()
    } else {
        match found.last() {
            Some(s) => if s.len() > 0 {
                present(found.drop_last()).push(s)
            } else {
                present(found.drop_last())
            },
            None => present(found.drop_last()),
        }
    }
}

/// The tokens of a text under a compiled pattern: the first groups of the
/// matches in the text without the white space around it.  A match whose
/// group is empty, as the pattern allows at the end of the text, gives no
/// token.
pub open spec fn tokens_of(re: Regex, input: Seq<char>) -> Seq<Seq<char>> {
    present(captured(re, trimmed(input)))
}

fn white_space(c: char) -> (r: bool)
    ensures
        r == is_white_space(c),
{
    let n = c as u32;
    (0x09 <= n && n <= 0x0d) || n == 0x20 || n == 0x85 || n == 0xa0 || n == 0x1680 || (0x2000
        <= n && n <= 0x200a) || n == 0x2028 || n == 0x2029 || n == 0x202f || n == 0x205f || n
        == 0x3000
}

/// The text without the white space at either end.
pub fn trim(input: &str) -> (r: String)
    ensures
        r@ == trimmed(input@),
{
    let chars = chars_of(input);
    let n = chars.len();
    let mut lo: usize = 0;
    assert(chars@.skip(0) =~= chars@);
    while lo < n && white_space(chars[lo])
        invariant
            lo <= n,
            n == chars.len(),
            chars@ == input@,
            trim_start(chars@) == trim_start(chars@.skip(lo as int)),
        decreases n - lo,
    {
        assert(chars@.skip(lo as int).skip(1) =~= chars@.skip(lo + 1));
        lo += 1;
    }
    let ghost middle = chars@.skip(lo as int);
    assert(trim_start(chars@) == middle);
    let mut hi: usize = n;
    assert(middle.take(n - lo) =~= middle);
    while hi > lo && white_space(chars[hi - 1])
        invariant
            lo <= hi <= n,
            n == chars.len(),
            middle == chars@.skip(lo as int),
            trim_end(middle) == trim_end(middle.take(hi - lo)),
        decreases hi,
    {
        assert(middle.take(hi - lo).drop_last() =~= middle.take(hi - 1 - lo));
        assert(middle.take(hi - lo).last() == chars@[hi - 1]);
        hi -= 1;
    }
    assert(hi > lo ==> middle.take(hi - lo).last() == chars@[hi - 1]);
    assert(trim_end(middle) == middle.take(hi - lo));
    let mut out: Vec<char> = Vec::new();
    let mut i: usize = lo;
    while i < hi
        invariant
            lo <= i <= hi <= n,
            n == chars.len(),
            middle == chars@.skip(lo as int),
            out@ == middle.take(i - lo),
        decreases hi - i,
    {
        out.push(chars[i]);
        i += 1;
        assert(out@ =~= middle.take(i - lo));
    }
    string_of(&out)
}

/// What reading the first form of a text gives.
pub open spec fn read_text(text: Seq<char>) -> Result<Value, Seq<char>> {
    match compiled(REGEX_TOKEN_EXP@) {
        Some(re) => read_form(tokens_of(re, text)).result,
        None => Err("invalid token pattern"@),
    }
}

/// Compiles the token pattern.
pub fn get_regex() -> (r: Result<Regex, ParseError>)
    ensures
        match r {
            Ok(re) => compiled(REGEX_TOKEN_EXP@) == Some(re),
            Err(e) => compiled(REGEX_TOKEN_EXP@) is None && e.msg@ == "invalid token pattern"@,
        },
{
    match compile(REGEX_TOKEN_EXP) {
        Ok(re) => Ok(re),
        Err(_) => Err(complaint("invalid token pattern")),
    }
}

/// Splits a text into tokens.
pub fn tokenize(input: String, re: Regex) -> (tokens: VecDeque<String>)
    ensures
        texts(tokens@) == tokens_of(re, input@),
{
    let text = trim(input.as_str());
    let found = first_groups(&re, text.as_str());
    let ghost all = captured(re, trimmed(input@));
    let mut tokens: VecDeque<String> = VecDeque::new();
    let mut i: usize = 0;
    assert(all.take(0) =~= Seq::empty());
    assert(texts(tokens@) =~= Seq::empty());
    while i < found.len()
        invariant
            i <= found.len(),
            all == captured(re, text@),
            found@.len() == all.len(),
            forall|k: int|
                0 <= k < found@.len() ==> (#[trigger] found@[k] matches Some(s) ==> all[k]
                    == Some(s@)) && (found@[k] is None ==> all[k] is None),
            texts(tokens@) == present(all.take(i as int)),
        decreases found.len() - i,
    {
        let ghost before = texts(tokens@);
        assert(all.take(i + 1).drop_last() =~= all.take(i as int));
        assert(all.take(i + 1).last() == all[i as int]);
        match &found[i] {
            Some(s) => {
                proof {
                    reveal_strlit("");
                    assert(s@.len() == 0 <==> s@ =~= ""@);
                }
                if !same_text(s.as_str(), "") {
                    tokens.push_back(s.clone());
                    assert(texts(tokens@) =~= before.push(s@));
                }
            },
            None => {},
        }
        i += 1;
    }
    assert(all.take(found.len() as int) =~= all);
    tokens
}

} // verus!
