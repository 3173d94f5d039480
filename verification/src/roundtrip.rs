//! Reading back what was printed: the tokens of a value's print form are
//! read as the value itself.

use vstd::prelude::*;

use crate::evaluator::loaded;
use crate::machine::{ContinuationModel, ControlModel, Scope, State, StatusModel};
use crate::reader::{
    atom_value, dot_position, float_literal, is_terminator, read_form, read_items,
    string_literal, unescape, Parsed, ParsedItems,
};
use crate::text::{
    all_digits, decimal, decimal_digits, digit_char, digit_value, digits_number, integer_literal,
    is_digit,
};
use crate::variable_type::{
    comparable, escape_char, escaped, lemma_value_eq_reflexive, print_form, print_items, quoted,
    value_eq, Value,
};

verus! {

/// Whether a token begins a form that is more than the token itself.
pub open spec fn opens_form(tok: Seq<char>) -> bool {
    ||| tok == "("@
    ||| tok == "["@
    ||| tok == "{"@
    ||| tok == "@"@
    ||| tok == "'"@
    ||| tok == "`"@
    ||| tok == "~"@
    ||| tok == "~@"@
}

/// Whether a token is read as the given value and as nothing more.
pub open spec fn reads_as(tok: Seq<char>, v: Value) -> bool {
    atom_value(tok) == Ok::<Value, Seq<char>>(v) && !opens_form(tok)
}

/// The tokens of the print forms of the items from `k` on.
pub open spec fn items_tokens(x: Seq<Value>, k: nat) -> Seq<Seq<char>>
    decreases x, x.len() - k,
{
    if k >= x.len() {
        Seq::empty()
    } else {
        print_tokens(x[k as int]) + items_tokens(x, k + 1)
    }
}

/// The tokens of the print form of a value: one token for a value that is not
/// a list or vector, and for those the brackets around the tokens of the
/// items.
pub open spec fn print_tokens(v: Value) -> Seq<Seq<char>>
    decreases v, 0nat,
{
    match v {
        Value::Nil => seq!["nil"@],
        Value::Bool(b) => seq![if b {
            "true"@
        } else {
            "false"@
        }],
        Value::Integer(i) => seq![decimal(i)],
        Value::Float(t) => seq![t],
        Value::Str(s) => seq![quoted(s)],
        Value::Symbol(s) => seq![s],
        Value::List(x) => seq!["("@] + items_tokens(x, 0) + seq![")"@],
        Value::Vector(x) => seq!["["@] + items_tokens(x, 0) + seq!["]"@],
        _ => Seq::empty(),
    }
}

/// The values whose print form can be read back: `nil`, truth values,
/// integers of 128 bits, strings, floats and symbols whose text is read as
/// themselves, and lists and vectors of such values.  Dictionaries, whose
/// print form is not the form they are written in, functions, atoms and
/// comments are not among them.
pub open spec fn readable(v: Value) -> bool
    decreases v,
{
    match v {
        Value::Nil => true,
        Value::Bool(b) => true,
        Value::Integer(i) => i128::MIN <= i <= i128::MAX,
        Value::Float(t) => reads_as(t, v),
        Value::Str(s) => true,
        Value::Symbol(s) => reads_as(s, v),
        Value::List(x) => forall|i: int| 0 <= i < x.len() ==> readable(#[trigger] x[i]),
        Value::Vector(x) => forall|i: int| 0 <= i < x.len() ==> readable(#[trigger] x[i]),
        _ => false,
    }
}

/// The first characters of the tokens that begin or end a form.
pub proof fn lemma_bracket_tokens(tok: Seq<char>)
    ensures
        opens_form(tok) ==> tok.len() >= 1 && (tok[0] == '(' || tok[0] == '[' || tok[0] == '{'
            || tok[0] == '@' || tok[0] == '\'' || tok[0] == '`' || tok[0] == '~'),
        is_terminator(tok) ==> tok.len() == 1 && (tok[0] == ')' || tok[0] == ']' || tok[0]
            == '}'),
        tok == "("@ ==> tok.len() == 1 && tok[0] == '(',
        tok == "["@ ==> tok.len() == 1 && tok[0] == '[',
{
    reveal_strlit("(");
    reveal_strlit("[");
    reveal_strlit("{");
    reveal_strlit("@");
    reveal_strlit("'");
    reveal_strlit("`");
    reveal_strlit("~");
    reveal_strlit("~@");
    reveal_strlit(")");
    reveal_strlit("]");
    reveal_strlit("}");
}

/// A token that is read as a value and begins no larger form is read by
/// `read_form` as that value, and only the token is used up.
pub proof fn lemma_token_reads(tok: Seq<char>, v: Value, rest: Seq<Seq<char>>)
    requires
        reads_as(tok, v),
    ensures
        read_form(seq![tok] + rest) == (Parsed { result: Ok(v), rest }),
{
    let ts = seq![tok] + rest;
    assert(ts[0] == tok);
    assert(ts.skip(1) =~= rest);
}

/// Where the first `.` of a text is, there is a `.`, and none before it.
pub proof fn lemma_dot_found(s: Seq<char>)
    ensures
        dot_position(s) <= s.len(),
        dot_position(s) < s.len() ==> s[dot_position(s) as int] == '.',
        forall|k: int| 0 <= k < dot_position(s) ==> s[k] != '.',
    decreases s.len(),
{
    if s.len() > 0 && s[0] != '.' {
        let rest = s.skip(1);
        lemma_dot_found(rest);
        assert forall|k: int| 0 <= k < dot_position(s) implies s[k] != '.' by {
            if k > 0 {
                assert(rest[k - 1] == s[k]);
            }
        }
    }
}

/// A text whose first character is neither a sign, a digit nor a point is no
/// number.
pub proof fn lemma_not_a_number(tok: Seq<char>)
    requires
        tok.len() > 0,
        !is_digit(tok[0]),
        tok[0] != '-',
        tok[0] != '+',
        tok[0] != '.',
    ensures
        integer_literal(tok) is None,
        float_literal(tok) is None,
{
    lemma_dot_found(tok);
    let dot = dot_position(tok) as int;
    if dot < tok.len() {
        assert(tok.take(dot)[0] == tok[0]);
    }
}

/// The decimal numeral of a natural number is made of digits and denotes the
/// number.
pub proof fn lemma_decimal_digits(n: nat)
    ensures
        all_digits(decimal_digits(n)),
        digits_number(decimal_digits(n)) == n,
        decimal_digits(n).len() >= 1,
    decreases n,
{
    if n < 10 {
        let s = decimal_digits(n);
        assert(s.drop_last() =~= Seq::<char>::empty());
        assert(digits_number(s.drop_last()) == 0);
        assert(digit_value(digit_char(n)) == n);
        assert(digits_number(s) == digits_number(s.drop_last()) * 10 + digit_value(s.last()));
    } else {
        lemma_decimal_digits(n / 10);
        let front = decimal_digits(n / 10);
        let s = front.push(digit_char(n % 10));
        assert(s.drop_last() =~= front);
        assert(digit_value(digit_char(n % 10)) == n % 10);
        assert(is_digit(digit_char(n % 10)));
        assert forall|i: int| 0 <= i < s.len() implies is_digit(#[trigger] s[i]) by {
            if i < front.len() {
                assert(s[i] == front[i]);
            }
        }
    }
}

/// The decimal numeral of an integer of 128 bits is read as that integer.
pub proof fn lemma_integer_reads(i: int)
    requires
        i128::MIN <= i <= i128::MAX,
    ensures
        reads_as(decimal(i), Value::Integer(i)),
{
    let s = decimal(i);
    lemma_bracket_tokens(s);
    if i < 0 {
        lemma_decimal_digits((-i) as nat);
        let body = s.subrange(1, s.len() as int);
        assert(body =~= decimal_digits((-i) as nat));
        assert(s[0] == '-');
    } else {
        lemma_decimal_digits(i as nat);
        assert(is_digit(s[0]));
    }
    assert(integer_literal(s) == Some(i));
}

/// The escaped form of a text begins with the escaped form of its first
/// character.
pub proof fn lemma_escaped_front(s: Seq<char>)
    requires
        s.len() > 0,
    ensures
        escaped(s) == escape_char(s[0]) + escaped(s.skip(1)),
    decreases s.len(),
{
    if s.len() == 1 {
        assert(s.drop_last() =~= Seq::<char>::empty());
        assert(s.skip(1) =~= Seq::<char>::empty());
        assert(escaped(s) =~= escape_char(s[0]) + escaped(s.skip(1)));
    } else {
        lemma_escaped_front(s.drop_last());
        assert(s.drop_last().skip(1) =~= s.skip(1).drop_last());
        assert(s.drop_last()[0] == s[0]);
        assert(s.skip(1).last() == s.last());
        assert(escaped(s) =~= escape_char(s[0]) + escaped(s.skip(1)));
    }
}

/// Decoding the escaped form of a text up to the closing quote gives the
/// text back.
pub proof fn lemma_string_decodes(s: Seq<char>)
    ensures
        string_literal(escaped(s) + seq!['"']) == Some(s),
    decreases s.len(),
{
    let t = escaped(s) + seq!['"'];
    if s.len() == 0 {
        assert(t =~= seq!['"']);
    } else {
        lemma_escaped_front(s);
        let c = s[0];
        let tail = escaped(s.skip(1)) + seq!['"'];
        lemma_string_decodes(s.skip(1));
        assert(t =~= escape_char(c) + tail);
        if c == '\n' || c == '\\' || c == '"' {
            assert(t.skip(2) =~= tail);
            assert(unescape(t[1]) + s.skip(1) =~= s);
        } else {
            assert(t.skip(1) =~= tail);
            assert(seq![t[0]] + s.skip(1) =~= s);
        }
    }
}

/// The quoted form of a text is read as the string of that text.
pub proof fn lemma_string_reads(s: Seq<char>)
    ensures
        reads_as(quoted(s), Value::Str(s)),
{
    let tok = quoted(s);
    lemma_bracket_tokens(tok);
    lemma_not_a_number(tok);
    lemma_string_decodes(s);
    assert(tok.skip(1) =~= escaped(s) + seq!['"']);
    reveal_strlit("false");
    reveal_strlit("true");
    reveal_strlit("nil");
}

/// `nil`, `true` and `false` are read as what they name.
pub proof fn lemma_names_read()
    ensures
        reads_as("nil"@, Value::Nil),
        reads_as("true"@, Value::Bool(true)),
        reads_as("false"@, Value::Bool(false)),
{
    reveal_strlit("false");
    reveal_strlit("true");
    reveal_strlit("nil");
    lemma_bracket_tokens("nil"@);
    lemma_bracket_tokens("true"@);
    lemma_bracket_tokens("false"@);
    lemma_not_a_number("nil"@);
    lemma_not_a_number("true"@);
    lemma_not_a_number("false"@);
    assert("nil"@ != "false"@ && "nil"@ != "true"@) by {
        assert("nil"@.len() == 3 && "true"@.len() == 4 && "false"@.len() == 5);
    }
    assert("true"@ != "false"@) by {
        assert("true"@.len() == 4 && "false"@.len() == 5);
    }
}

/// The print form of a readable value has a first token, and that token
/// closes no bracket.
pub proof fn lemma_first_token(v: Value)
    requires
        readable(v),
    ensures
        print_tokens(v).len() > 0,
        !is_terminator(print_tokens(v)[0]),
{
    let tok = print_tokens(v)[0];
    lemma_bracket_tokens(tok);
    reveal_strlit("false");
    reveal_strlit("true");
    reveal_strlit("nil");
    if is_terminator(tok) {
        lemma_not_a_number(tok);
    }
    match v {
        Value::Nil => {
            lemma_names_read();
        },
        Value::Bool(b) => {
            lemma_names_read();
        },
        Value::Integer(i) => {
            lemma_integer_reads(i);
        },
        Value::Str(s) => {
            lemma_string_reads(s);
        },
        Value::List(x) => {
            reveal_strlit("(");
        },
        Value::Vector(x) => {
            reveal_strlit("[");
        },
        _ => {},
    }
}

/// Reading the tokens of the items from `k` on, followed by the closing
/// bracket, gives the items after those read before, and uses up exactly
/// these tokens.
pub proof fn lemma_items_read_back(
    x: Seq<Value>,
    k: nat,
    close: Seq<char>,
    acc: Seq<Value>,
    rest: Seq<Seq<char>>,
)
    requires
        forall|i: int| 0 <= i < x.len() ==> readable(#[trigger] x[i]),
        k <= x.len(),
        is_terminator(close),
    ensures
        read_items(items_tokens(x, k) + seq![close] + rest, close, acc) == (ParsedItems {
            result: Ok(acc + x.skip(k as int)),
            rest,
        }),
    decreases x, x.len() - k,
{
    let ts = items_tokens(x, k) + seq![close] + rest;
    if k == x.len() {
        assert(ts =~= seq![close] + rest);
        assert(ts[0] == close);
        assert(ts.skip(1) =~= rest);
        assert(acc + x.skip(k as int) =~= acc);
    } else {
        let item = x[k as int];
        let more = items_tokens(x, k + 1) + seq![close] + rest;
        assert(readable(item));
        assert(ts =~= print_tokens(item) + more);
        assert(ts.len() > more.len() && ts[0] != close) by {
            lemma_first_token(item);
            assert(ts[0] == print_tokens(item)[0]);
        }
        assert(read_form(ts) == (Parsed { result: Ok(item), rest: more })) by {
            lemma_prints_read_back(item, more);
        }
        assert(read_items(more, close, acc.push(item)) == (ParsedItems {
            result: Ok(acc + x.skip(k as int)),
            rest,
        })) by {
            lemma_items_read_back(x, k + 1, close, acc.push(item), rest);
            assert(acc.push(item) + x.skip(k as int + 1) =~= acc + x.skip(k as int));
        }
    }
}

/// Reading back what was printed.  The tokens of the print form of a
/// readable value are read as that value, and only these tokens are used
/// up.
pub proof fn lemma_prints_read_back(v: Value, rest: Seq<Seq<char>>)
    requires
        readable(v),
    ensures
        read_form(print_tokens(v) + rest) == (Parsed { result: Ok(v), rest }),
    decreases v, 0nat,
{
    match v {
        Value::Nil => {
            lemma_names_read();
            lemma_token_reads("nil"@, v, rest);
        },
        Value::Bool(b) => {
            lemma_names_read();
            if b {
                lemma_token_reads("true"@, v, rest);
            } else {
                lemma_token_reads("false"@, v, rest);
            }
        },
        Value::Integer(i) => {
            lemma_integer_reads(i);
            lemma_token_reads(decimal(i), v, rest);
        },
        Value::Float(t) => {
            lemma_token_reads(t, v, rest);
        },
        Value::Str(s) => {
            lemma_string_reads(s);
            lemma_token_reads(quoted(s), v, rest);
        },
        Value::Symbol(s) => {
            lemma_token_reads(s, v, rest);
        },
        Value::List(x) => {
            reveal_strlit(")");
            let ts = print_tokens(v) + rest;
            let inner = items_tokens(x, 0) + seq![")"@] + rest;
            assert(ts =~= seq!["("@] + inner);
            assert(ts[0] == "("@);
            assert(ts.skip(1) =~= inner);
            lemma_items_read_back(x, 0, ")"@, Seq::empty(), rest);
            assert(Seq::<Value>::empty() + x.skip(0) =~= x);
        },
        Value::Vector(x) => {
            reveal_strlit("]");
            reveal_strlit("[");
            reveal_strlit("(");
            let ts = print_tokens(v) + rest;
            let inner = items_tokens(x, 0) + seq!["]"@] + rest;
            assert(ts =~= seq!["["@] + inner);
            assert(ts[0] == "["@);
            assert("["@[0] != "("@[0]);
            assert(ts.skip(1) =~= inner);
            lemma_items_read_back(x, 0, "]"@, Seq::empty(), rest);
            assert(Seq::<Value>::empty() + x.skip(0) =~= x);
        },
        _ => {},
    }
}


/// Whether a token opens a list or a vector.
pub open spec fn opens_bracket(tok: Seq<char>) -> bool {
    tok == "("@ || tok == "["@
}

/// What stands between two neighbouring tokens in a print form: nothing
/// after an opening and before a closing bracket, else one space.
pub open spec fn gap(left: Seq<char>, right: Seq<char>) -> Seq<char> {
    if opens_bracket(left) || is_terminator(right) {
        Seq::empty()
    } else {
        " "@
    }
}

/// The text of tokens laid out as a print form lays them out.
pub open spec fn laid_out(ts: Seq<Seq<char>>) -> Seq<char>
    decreases ts.len(),
{
    if ts.len() == 0 {
        Seq::empty()
    } else if ts.len() == 1 {
        ts[0]
    } else {
        ts[0] + gap(ts[0], ts[1]) + laid_out(ts.skip(1))
    }
}

/// The tokens of the print forms of the first `n` items.
pub open spec fn items_tokens_upto(x: Seq<Value>, n: nat) -> Seq<Seq<char>>
    decreases n,
{
    if n == 0 || n > x.len() {
        Seq::empty()
    } else {
        items_tokens_upto(x, (n - 1) as nat) + print_tokens(x[n - 1])
    }
}

/// Two runs of tokens laid out one after the other are laid out as one
/// run, with the gap between the last token of the first and the first
/// token of the second.
pub proof fn lemma_laid_out_concat(a: Seq<Seq<char>>, b: Seq<Seq<char>>)
    requires
        a.len() > 0,
        b.len() > 0,
    ensures
        laid_out(a + b) == laid_out(a) + gap(a.last(), b[0]) + laid_out(b),
    decreases a.len(),
{
    let ab = a + b;
    assert(ab[0] == a[0]);
    if a.len() == 1 {
        assert(ab.skip(1) =~= b);
        assert(ab[1] == b[0]);
    } else {
        assert(ab.skip(1) =~= a.skip(1) + b);
        assert(ab[1] == a[1]);
        lemma_laid_out_concat(a.skip(1), b);
        assert(a.skip(1).last() == a.last());
        assert(laid_out(ab) =~= laid_out(a) + gap(a.last(), b[0]) + laid_out(b));
    }
}

/// The print form of a readable value has a last token, and that token opens
/// no bracket.
pub proof fn lemma_last_token(v: Value)
    requires
        readable(v),
    ensures
        print_tokens(v).len() > 0,
        !opens_bracket(print_tokens(v).last()),
{
    let tok = print_tokens(v).last();
    lemma_bracket_tokens(tok);
    match v {
        Value::Nil => {
            lemma_names_read();
        },
        Value::Bool(b) => {
            lemma_names_read();
        },
        Value::Integer(i) => {
            lemma_integer_reads(i);
        },
        Value::Str(s) => {
            lemma_string_reads(s);
        },
        Value::List(x) => {
            reveal_strlit(")");
        },
        Value::Vector(x) => {
            reveal_strlit("]");
        },
        _ => {},
    }
}

/// The tokens of the first `n` items and those of the items from `n` on are
/// the tokens of all items.
pub proof fn lemma_items_tokens_split(x: Seq<Value>, n: nat)
    requires
        n <= x.len(),
    ensures
        items_tokens_upto(x, n) + items_tokens(x, n) == items_tokens(x, 0),
    decreases n,
{
    if n == 0 {
        assert(items_tokens_upto(x, 0) + items_tokens(x, 0) =~= items_tokens(x, 0));
    } else {
        lemma_items_tokens_split(x, (n - 1) as nat);
        assert(items_tokens_upto(x, n) + items_tokens(x, n) =~= items_tokens_upto(
            x,
            (n - 1) as nat,
        ) + items_tokens(x, (n - 1) as nat));
    }
}

/// The tokens of the first `n` items, laid out, are the print forms of these
/// items separated by single spaces.
pub proof fn lemma_items_laid_out(x: Seq<Value>, n: nat)
    requires
        forall|i: int| 0 <= i < x.len() ==> readable(#[trigger] x[i]),
        1 <= n <= x.len(),
    ensures
        items_tokens_upto(x, n).len() > 0,
        items_tokens_upto(x, n).last() == print_tokens(x[n - 1]).last(),
        items_tokens_upto(x, n)[0] == print_tokens(x[0])[0],
        laid_out(items_tokens_upto(x, n)) == print_items(x, n),
    decreases x, n,
{
    let item = x[n - 1];
    assert(readable(item));
    lemma_first_token(item);
    lemma_print_form_laid_out(item);
    if n == 1 {
        assert(items_tokens_upto(x, 1) =~= print_tokens(item));
    } else {
        let before = items_tokens_upto(x, (n - 1) as nat);
        lemma_items_laid_out(x, (n - 1) as nat);
        assert(readable(x[n - 2]));
        lemma_last_token(x[n - 2]);
        lemma_laid_out_concat(before, print_tokens(item));
        assert((before + print_tokens(item)).last() == print_tokens(item).last());
        assert((before + print_tokens(item))[0] == before[0]);
    }
}

/// The print form of a readable value is the text of its tokens: single
/// spaces between them, but none inside a bracket.
pub proof fn lemma_print_form_laid_out(v: Value)
    requires
        readable(v),
    ensures
        laid_out(print_tokens(v)) == print_form(v),
    decreases v, 0nat,
{
    match v {
        Value::List(x) => {
            reveal_strlit("(");
            reveal_strlit(")");
            lemma_brackets_laid_out(x, "("@, ")"@);
            assert("("@ =~= seq!['('] && ")"@ =~= seq![')']);
        },
        Value::Vector(x) => {
            reveal_strlit("[");
            reveal_strlit("]");
            lemma_brackets_laid_out(x, "["@, "]"@);
            assert("["@ =~= seq!['['] && "]"@ =~= seq![']']);
        },
        _ => {},
    }
}

/// The tokens of items between brackets, laid out, are the opening bracket,
/// the print forms of the items separated by single spaces, and the closing
/// bracket.
pub proof fn lemma_brackets_laid_out(x: Seq<Value>, open: Seq<char>, close: Seq<char>)
    requires
        forall|i: int| 0 <= i < x.len() ==> readable(#[trigger] x[i]),
        opens_bracket(open),
        is_terminator(close),
    ensures
        laid_out(seq![open] + items_tokens(x, 0) + seq![close]) == open + print_items(
            x,
            x.len(),
        ) + close,
    decreases x, x.len() + 1,
{
    let ts = seq![open] + items_tokens(x, 0) + seq![close];
    if x.len() == 0 {
        assert(ts =~= seq![open, close]);
        assert(ts.skip(1) =~= seq![close]);
        assert(laid_out(seq![close]) == close);
        assert(laid_out(ts) =~= open + print_items(x, 0) + close);
    } else {
        let inner = items_tokens(x, 0);
        lemma_items_tokens_split(x, x.len());
        assert(items_tokens_upto(x, x.len()) + items_tokens(x, x.len()) =~= items_tokens_upto(
            x,
            x.len(),
        ));
        lemma_items_laid_out(x, x.len());
        assert(readable(x[0]) && readable(x[x.len() - 1]));
        lemma_first_token(x[0]);
        lemma_last_token(x[x.len() - 1]);
        lemma_laid_out_concat(inner, seq![close]);
        lemma_laid_out_concat(seq![open], inner + seq![close]);
        assert(ts =~= seq![open] + (inner + seq![close]));
        assert((inner + seq![close])[0] == inner[0]);
        assert(laid_out(ts) =~= open + print_items(x, x.len()) + close);
    }
}

/// The values that evaluate to themselves whatever is bound: `nil`, truth
/// values, numbers, strings, and vectors of such values.  A symbol has to be
/// bound, a list is a call, and a dictionary is not written as it prints.
pub open spec fn self_evaluating(v: Value) -> bool
    decreases v,
{
    match v {
        Value::Nil => true,
        Value::Bool(b) => true,
        Value::Integer(i) => true,
        Value::Float(t) => true,
        Value::Str(s) => true,
        Value::Vector(x) => forall|i: int| 0 <= i < x.len() ==> self_evaluating(#[trigger] x[i]),
        _ => false,
    }
}

/// The steps the machine takes over the items of a vector from `k` on: those
/// of each item, and one to take its value.
pub open spec fn items_steps(x: Seq<Value>, k: nat) -> nat
    decreases x, x.len() - k,
{
    if k >= x.len() {
        0
    } else {
        steps(x[k as int]) + 1 + items_steps(x, k + 1)
    }
}

/// The steps the machine takes to evaluate a self-evaluating value.
pub open spec fn steps(v: Value) -> nat
    decreases v, 0nat,
{
    match v {
        Value::Vector(x) => 1 + items_steps(x, 0),
        _ => 1,
    }
}

/// A machine that is not finished and does not wait runs by taking a step.
pub proof fn lemma_run_unfolds(st: State, fuel: nat)
    requires
        fuel > 0,
        st.status() is Running,
    ensures
        st.run(fuel) == st.next().run((fuel - 1) as nat),
{
}

/// Evaluating the items of a vector of self-evaluating values from `k` on
/// ends with the vector itself handed to the stack as it was.
pub proof fn lemma_items_evaluate(
    st: State,
    x: Seq<Value>,
    k: nat,
    scope: Scope,
    fuel: nat,
)
    requires
        forall|i: int| 0 <= i < x.len() ==> self_evaluating(#[trigger] x[i]),
        k < x.len(),
        st.stack.len() > 0,
        st.stack.last() == ContinuationModel::Items(x, x.take(k as int), scope),
        st.control == ControlModel::Eval(x[k as int], scope),
        fuel >= items_steps(x, k),
    ensures
        st.run(fuel) == st.popped().give(Value::Vector(x)).run(
            (fuel - items_steps(x, k)) as nat,
        ),
    decreases x, x.len() - k,
{
    let item = x[k as int];
    let returned = st.give(item);
    lemma_evaluates_to_itself(st, item, scope, fuel);
    let left = (fuel - steps(item)) as nat;
    assert(returned.status() is Running);
    lemma_run_unfolds(returned, left);
    let done = x.take(k as int).push(item);
    assert(done =~= x.take(k as int + 1));
    let after = returned.next();
    assert(returned.parked().popped() == st.popped().parked());
    if k + 1 < x.len() {
        assert(after == st.popped().parked().pushed(
            ContinuationModel::Items(x, done, scope),
        ).evaluate(x[k as int + 1], scope));
        assert(after.stack.last() == ContinuationModel::Items(x, x.take(k as int + 1), scope));
        assert(after.stack.drop_last() =~= st.stack.drop_last());
        lemma_items_evaluate(after, x, k + 1, scope, (left - 1) as nat);
        assert(after.popped().give(Value::Vector(x)) == st.popped().give(Value::Vector(x)));
    } else {
        assert(done =~= x);
        assert(after == st.popped().give(Value::Vector(x)));
    }
}

/// A self-evaluating value evaluates to itself: after `steps` steps the
/// machine hands the value to the stack as it was, and nothing else has
/// changed.
pub proof fn lemma_evaluates_to_itself(st: State, v: Value, scope: Scope, fuel: nat)
    requires
        self_evaluating(v),
        st.control == ControlModel::Eval(v, scope),
        fuel >= steps(v),
    ensures
        st.run(fuel) == st.give(v).run((fuel - steps(v)) as nat),
    decreases v, 0nat,
{
    lemma_run_unfolds(st, fuel);
    match v {
        Value::Vector(x) => {
            if x.len() == 0 {
                assert(x =~= Seq::<Value>::empty());
                assert(st.next() == st.give(v));
            } else {
                let entered = st.next();
                assert(entered == st.parked().pushed(
                    ContinuationModel::Items(x, Seq::empty(), scope),
                ).evaluate(x[0], scope));
                assert(x.take(0) =~= Seq::<Value>::empty());
                assert(entered.stack.drop_last() =~= st.stack);
                lemma_items_evaluate(entered, x, 0, scope, (fuel - 1) as nat);
                assert(entered.popped().give(v) == st.give(v));
            }
        },
        _ => {
            assert(st.next() == st.give(v));
        },
    }
}

/// Data come back from print, read and evaluation.  For a readable value
/// that evaluates to itself, the tokens of the print form are read as the
/// value, and evaluating what was read ends with that value; the value is
/// equal to itself if it is comparable.
pub proof fn lemma_data_round_trip(st: State, v: Value, scope: Scope, fuel: nat)
    requires
        readable(v),
        self_evaluating(v),
        fuel >= steps(v),
    ensures
        read_form(print_tokens(v)).result == Ok::<Value, Seq<char>>(v),
        loaded(st, v, scope).run(fuel).status() == StatusModel::Finished(Ok(v)),
        comparable(v) ==> value_eq(v, v),
{
    lemma_prints_read_back(v, Seq::empty());
    assert(print_tokens(v) + Seq::<Seq<char>>::empty() =~= print_tokens(v));
    let start = loaded(st, v, scope);
    lemma_evaluates_to_itself(start, v, scope, fuel);
    if comparable(v) {
        lemma_value_eq_reflexive(v);
    }
}

} // verus!
