//! The core library: the native functions of the language that need nothing
//! but their arguments.

use vstd::prelude::*;

use crate::evaluator::RuntimeError;
use crate::variable_type::{
    clone_entries, clone_values, distinct_keys, entries, find_key, has_key, insert_entry,
    lemma_with_entry_keeps_keys_distinct, position_of, print_form, value_eq, values, with_entry,
    DataType, Value,
};

verus! {

/// The model of what a native function returns.
pub open spec fn result_model(r: Result<DataType, RuntimeError>) -> Result<Value, Seq<char>> {
    match r {
        Ok(v) => Ok(v@),
        Err(e) => Err(e.msg@),
    }
}

/// A failure with the given message.
pub fn fail(text: &str) -> (r: Result<DataType, RuntimeError>)
    ensures
        result_model(r) == Err::<Value, Seq<char>>(text@),
{
    Err(RuntimeError { msg: String::from_str(text) })
}

/// The quotient of a division that rounds towards zero.
pub open spec fn quotient(x: int, d: int) -> int
    recommends
        d != 0,
{
    if x >= 0 && d > 0 {
        x / d
    } else if x < 0 && d < 0 {
        (-x) / (-d)
    } else if x < 0 {
        -((-x) / d)
    } else {
        -(x / (-d))
    }
}

/// The remainder of a division that rounds towards zero: it has the sign of
/// the dividend.
pub open spec fn remainder(x: int, d: int) -> int
    recommends
        d != 0,
{
    if x >= 0 && d > 0 {
        x % d
    } else if x < 0 && d < 0 {
        -((-x) % (-d))
    } else if x < 0 {
        -((-x) % d)
    } else {
        x % (-d)
    }
}

/// An integer result, or the complaint that it does not fit in 128 bits.
pub open spec fn fitting(n: int) -> Result<Value, Seq<char>> {
    if i128::MIN <= n <= i128::MAX {
        Ok(Value::Integer(n))
    } else {
        Err("Integer overflow"@)
    }
}

/// The stable id of `+`.
pub const ADDITION: i8 = 0;

/// The stable id of `-`.
pub const SUBTRACTION: i8 = 1;

/// The stable id of `/`.
pub const DIVISION: i8 = 2;

/// The stable id of `*`.
pub const MULTIPLICATION: i8 = 3;

/// The stable id of `prn`.
pub const PRINT: i8 = 4;

/// The stable id of `list`.
pub const LIST: i8 = 5;

/// The stable id of `list?`.
pub const CHECK_LIST: i8 = 6;

/// The stable id of `empty?`.
pub const LIST_EMPTY: i8 = 7;

/// The stable id of `count`.
pub const LIST_LEN: i8 = 8;

/// The stable id of `=`.
pub const EQUALS: i8 = 9;

/// The stable id of `>`.
pub const GREATER_THAN: i8 = 10;

/// The stable id of `<`.
pub const LESS_THAN: i8 = 11;

/// The stable id of `<=`.
pub const LESS_THAN_OR_EQUALS: i8 = 12;

/// The stable id of `>=`.
pub const GREATER_THAN_OR_EQUALS: i8 = 13;

/// The stable id of `read-string`.
pub const READ_STR: i8 = 14;

/// The stable id of `slurp`.
pub const SLURP: i8 = 15;

/// The stable id of `str`.
pub const STR: i8 = 16;

/// The stable id of `atom`.
pub const ATOM: i8 = 17;

/// The stable id of `atom?`.
pub const CHECK_ATOM: i8 = 18;

/// The stable id of `deref`.
pub const DEREF: i8 = 19;

/// The stable id of `reset!`.
pub const RESET_ATOM: i8 = 20;

/// The stable id of `swap!`.
pub const SWAP_ATOM: i8 = 21;

/// The stable id of `cons`.
pub const CONS: i8 = 22;

/// The stable id of `concat`.
pub const CONCAT: i8 = 23;

/// The stable id of `nth`.
pub const NTH: i8 = 24;

/// The stable id of `first`.
pub const FIRST: i8 = 25;

/// The stable id of `rest`.
pub const REST: i8 = 26;

/// The stable id of `throw`.
pub const THROW: i8 = 27;

/// The stable id of `apply`.
pub const APPLY: i8 = 28;

/// The stable id of `map`.
pub const MAP_ITEMS: i8 = 29;

/// The stable id of `nil?`.
pub const CHECK_NIL: i8 = 30;

/// The stable id of `true?`.
pub const CHECK_TRUE: i8 = 31;

/// The stable id of `false?`.
pub const CHECK_FALSE: i8 = 32;

/// The stable id of `symbol?`.
pub const CHECK_SYMBOL: i8 = 33;

/// The stable id of `vector?`.
pub const CHECK_VECTOR: i8 = 34;

/// The stable id of `dict?`.
pub const CHECK_DICTIONARY: i8 = 35;

/// The stable id of `sequential?`.
pub const CHECK_SEQUENTIAL: i8 = 36;

/// The stable id of `symbol`.
pub const SYMBOL: i8 = 37;

/// The stable id of `dict`.
pub const DICTIONARY: i8 = 38;

/// The stable id of `vector`.
pub const VECTOR: i8 = 39;

/// The stable id of `assoc`.
pub const ASSOC: i8 = 40;

/// The stable id of `dissoc`.
pub const DISSOC: i8 = 41;

/// The stable id of `get`.
pub const GET: i8 = 42;

/// The stable id of `contains`.
pub const CONTAINS: i8 = 43;

/// The stable id of `keys`.
pub const KEYS: i8 = 44;

/// The stable id of `values`.
pub const VALUES: i8 = 45;

/// The stable id of `string?`.
pub const CHECK_STR: i8 = 46;

/// The stable id of `int?`.
pub const CHECK_INTEGER: i8 = 47;

/// The stable id of `float?`.
pub const CHECK_FLOAT: i8 = 48;

/// The stable id of `func?`.
pub const CHECK_FN: i8 = 49;

/// The stable id of `macro?`.
pub const CHECK_MACRO: i8 = 50;

/// The stable id of `time-ms`.
pub const TIME_MS: i8 = 51;

/// The stable id of `%`.
pub const MODULO: i8 = 52;

/// The stable id of `input`.
pub const INPUT: i8 = 53;

/// The stable ids of the arithmetic functions.
pub open spec fn is_arithmetic(code: int) -> bool {
    ||| code == ADDITION
    ||| code == SUBTRACTION
    ||| code == DIVISION
    ||| code == MULTIPLICATION
    ||| code == MODULO
}

/// The stable ids of the ordering functions.
pub open spec fn is_ordering(code: int) -> bool {
    ||| code == GREATER_THAN
    ||| code == LESS_THAN
    ||| code == LESS_THAN_OR_EQUALS
    ||| code == GREATER_THAN_OR_EQUALS
}

/// What an arithmetic function makes of two integers.  A sum, a difference,
/// a product or a quotient that does not fit in 128 bits is an error, and so
/// is a division by zero; `/` rounds towards zero and `%` gives the
/// remainder of that division.
pub open spec fn integer_arithmetic(code: int, a: int, b: int) -> Result<Value, Seq<char>> {
    if code == ADDITION {
        fitting(a + b)
    } else if code == SUBTRACTION {
        fitting(a - b)
    } else if code == MULTIPLICATION {
        fitting(a * b)
    } else if b == 0 {
        Err("Divide by zero error!"@)
    } else if code == DIVISION {
        fitting(quotient(a, b))
    } else {
        fitting(remainder(a, b))
    }
}

/// What an arithmetic function returns on arguments that are not two floats.
/// Two integers are computed on; `+` also joins two strings.
pub open spec fn arithmetic(code: int, args: Seq<Value>) -> Result<Value, Seq<char>> {
    if args.len() != 2 {
        Err("Incorrect number of arguments for arithmetic"@)
    } else {
        match (args[0], args[1]) {
            (Value::Integer(a), Value::Integer(b)) => integer_arithmetic(code, a, b),
            (Value::Str(a), Value::Str(b)) => if code == ADDITION {
                Ok(Value::Str(a + b))
            } else {
                Err("Incorrect types for arithmetic!"@)
            },
            _ => Err("Incorrect types for arithmetic!"@),
        }
    }
}

/// What an ordering function makes of two integers.
pub open spec fn integer_ordering(code: int, a: int, b: int) -> bool {
    if code == GREATER_THAN {
        a > b
    } else if code == LESS_THAN {
        a < b
    } else if code == LESS_THAN_OR_EQUALS {
        a <= b
    } else {
        a >= b
    }
}

/// What an ordering function returns on arguments that are not two floats.
pub open spec fn ordering(code: int, args: Seq<Value>) -> Result<Value, Seq<char>> {
    if args.len() != 2 {
        Err("Incorrect number of arguments for comparison"@)
    } else {
        match (args[0], args[1]) {
            (Value::Integer(a), Value::Integer(b)) => Ok(Value::Bool(integer_ordering(code, a, b))),
            _ => Err("Incorrect types for comparison!"@),
        }
    }
}

fn integer_result(n: Option<i128>, exact: Ghost<int>) -> (r: Result<DataType, RuntimeError>)
    requires
        match n {
            Some(v) => v == exact@,
            None => !(i128::MIN <= exact@ <= i128::MAX),
        },
    ensures
        result_model(r) == fitting(exact@),
{
    match n {
        Some(v) => Ok(DataType::Integer(v)),
        None => fail("Integer overflow"),
    }
}

/// Computes an arithmetic function on two integers.
pub fn compute_integers(code: i8, a: i128, b: i128) -> (r: Result<DataType, RuntimeError>)
    requires
        is_arithmetic(code as int),
    ensures
        result_model(r) == integer_arithmetic(code as int, a as int, b as int),
{
    if code == ADDITION {
        integer_result(a.checked_add(b), Ghost(a + b))
    } else if code == SUBTRACTION {
        integer_result(a.checked_sub(b), Ghost(a - b))
    } else if code == MULTIPLICATION {
        integer_result(a.checked_mul(b), Ghost(a * b))
    } else if b == 0 {
        fail("Divide by zero error!")
    } else if code == DIVISION {
        integer_result(a.checked_div(b), Ghost(quotient(a as int, b as int)))
    } else {
        proof {
            if a == 0 && b > 0 {
                assert(0int % (b as int) == 0) by (nonlinear_arith)
                    requires
                        b > 0,
                ;
            }
            if a == 0 && b < 0 {
                assert(0int % (-(b as int)) == 0) by (nonlinear_arith)
                    requires
                        b < 0,
                ;
            }
        }
        if a == i128::MIN && b == -1 {
            assert((-(a as int)) % 1 == 0);
            Ok(DataType::Integer(0))
        } else {
            integer_result(a.checked_rem(b), Ghost(remainder(a as int, b as int)))
        }
    }
}

/// Computes an arithmetic function on arguments that are not two floats.
pub fn compute(code: i8, args: &Vec<DataType>) -> (r: Result<DataType, RuntimeError>)
    requires
        is_arithmetic(code as int),
    ensures
        result_model(r) == arithmetic(code as int, values(args@)),
{
    if args.len() != 2 {
        return fail("Incorrect number of arguments for arithmetic");
    }
    match (&args[0], &args[1]) {
        (DataType::Integer(a), DataType::Integer(b)) => compute_integers(code, *a, *b),
        (DataType::String(a), DataType::String(b)) => {
            if code == ADDITION {
                Ok(DataType::String(a.clone().concat(b.as_str())))
            } else {
                fail("Incorrect types for arithmetic!")
            }
        },
        _ => fail("Incorrect types for arithmetic!"),
    }
}

/// Compares arguments that are not two floats.
pub fn compare(code: i8, args: &Vec<DataType>) -> (r: Result<DataType, RuntimeError>)
    requires
        is_ordering(code as int),
    ensures
        result_model(r) == ordering(code as int, values(args@)),
{
    if args.len() != 2 {
        return fail("Incorrect number of arguments for comparison");
    }
    match (&args[0], &args[1]) {
        (DataType::Integer(a), DataType::Integer(b)) => {
            let holds = if code == GREATER_THAN {
                *a > *b
            } else if code == LESS_THAN {
                *a < *b
            } else if code == LESS_THAN_OR_EQUALS {
                *a <= *b
            } else {
                *a >= *b
            };
            Ok(DataType::Bool(holds))
        },
        _ => fail("Incorrect types for comparison!"),
    }
}


/// The stable ids of the type tests.
pub open spec fn is_type_test(code: int) -> bool {
    ||| code == CHECK_LIST
    ||| code == CHECK_ATOM
    ||| (CHECK_NIL <= code <= CHECK_SEQUENTIAL)
    ||| (CHECK_STR <= code <= CHECK_MACRO)
}

/// What a type test decides about a value.  `sequential?` holds of lists and
/// vectors, `func?` of closures and native functions, `macro?` of closures
/// that are macros.
pub open spec fn type_test(code: int, v: Value) -> bool {
    if code == CHECK_LIST {
        v is List
    } else if code == CHECK_ATOM {
        v is Atom
    } else if code == CHECK_NIL {
        v is Nil
    } else if code == CHECK_TRUE {
        v == Value::Bool(true)
    } else if code == CHECK_FALSE {
        v == Value::Bool(false)
    } else if code == CHECK_SYMBOL {
        v is Symbol
    } else if code == CHECK_VECTOR {
        v is Vector
    } else if code == CHECK_DICTIONARY {
        v is Dictionary
    } else if code == CHECK_SEQUENTIAL {
        v is List || v is Vector
    } else if code == CHECK_STR {
        v is Str
    } else if code == CHECK_INTEGER {
        v is Integer
    } else if code == CHECK_FLOAT {
        v is Float
    } else if code == CHECK_FN {
        v is Closure || v is NativeFunction
    } else {
        v matches Value::Closure(c) && c.is_macro
    }
}

/// What a type test returns.
pub open spec fn type_check(code: int, args: Seq<Value>) -> Result<Value, Seq<char>> {
    if args.len() == 0 {
        Err("No arguments given to data type check"@)
    } else {
        Ok(Value::Bool(type_test(code, args[0])))
    }
}

/// Runs a type test.
pub fn check_type(code: i8, args: &Vec<DataType>) -> (r: Result<DataType, RuntimeError>)
    requires
        is_type_test(code as int),
    ensures
        result_model(r) == type_check(code as int, values(args@)),
{
    if args.len() == 0 {
        return fail("No arguments given to data type check");
    }
    assert(values(args@)[0] == args@[0]@);
    let holds = match &args[0] {
        DataType::Nil() => code == CHECK_NIL,
        DataType::List(_) => code == CHECK_LIST || code == CHECK_SEQUENTIAL,
        DataType::Symbol(_) => code == CHECK_SYMBOL,
        DataType::Integer(_) => code == CHECK_INTEGER,
        DataType::Bool(b) => (code == CHECK_TRUE && *b) || (code == CHECK_FALSE && !*b),
        DataType::Float(_) => code == CHECK_FLOAT,
        DataType::String(_) => code == CHECK_STR,
        DataType::Comment() => false,
        DataType::Vector(_) => code == CHECK_VECTOR || code == CHECK_SEQUENTIAL,
        DataType::Dictionary(_) => code == CHECK_DICTIONARY,
        DataType::Closure(c) => {
            assert(args@[0]@ == Value::Closure(c@) && c@.is_macro == c.is_macro);
            code == CHECK_FN || (code == CHECK_MACRO && c.is_macro)
        },
        DataType::NativeFunction(_) => code == CHECK_FN,
        DataType::Atom(_) => code == CHECK_ATOM,
    };
    Ok(DataType::Bool(holds))
}

/// The items of a list or vector.
pub open spec fn items_of(v: Value) -> Option<Seq<Value>> {
    match v {
        Value::List(x) => Some(x),
        Value::Vector(x) => Some(x),
        _ => None,
    }
}

/// The items of a list or vector.
pub fn sequence_items(v: &DataType) -> (r: Option<&Vec<DataType>>)
    ensures
        match r {
            Some(x) => items_of(v@) == Some(values(x@)),
            None => items_of(v@) is None,
        },
{
    match v {
        DataType::List(x) => Some(x),
        DataType::Vector(x) => Some(x),
        _ => None,
    }
}

/// `empty?`: whether a list has no items.
pub open spec fn is_empty_result(args: Seq<Value>) -> Result<Value, Seq<char>> {
    if args.len() > 0 && args[0] is List {
        Ok(Value::Bool(args[0]->List_0.len() == 0))
    } else {
        Err("No arguments given to empty?"@)
    }
}

/// `count`: the number of items of a list.
pub open spec fn count_result(args: Seq<Value>) -> Result<Value, Seq<char>> {
    if args.len() > 0 && args[0] is List {
        Ok(Value::Integer(args[0]->List_0.len() as int))
    } else {
        Err("No arguments given to count"@)
    }
}

/// `=`: whether the first two arguments are equal.
pub open spec fn equals_result(args: Seq<Value>) -> Result<Value, Seq<char>> {
    if args.len() < 2 {
        Err("Not enough arguments passed to ="@)
    } else {
        Ok(Value::Bool(value_eq(args[0], args[1])))
    }
}

/// `cons`: the list of the first argument followed by the items of the
/// second.
pub open spec fn cons_result(args: Seq<Value>) -> Result<Value, Seq<char>> {
    if args.len() >= 2 && items_of(args[1]) is Some {
        Ok(Value::List(seq![args[0]] + items_of(args[1])->Some_0))
    } else {
        Err("Incorrect arguments to cons"@)
    }
}

/// The items of the first `n` arguments, one sequence after another, when
/// each of them is a list or vector.
pub open spec fn flattened(args: Seq<Value>, n: nat) -> Option<Seq<Value>>
    decreases n,
{
    if n == 0 || n > args.len() {
        Some(Seq::empty())
    } else {
        match (flattened(args, (n - 1) as nat), items_of(args[n - 1])) {
            (Some(acc), Some(x)) => Some(acc + x),
            _ => None,
        }
    }
}

/// `concat`: the list of the items of all arguments.
pub open spec fn concat_result(args: Seq<Value>) -> Result<Value, Seq<char>> {
    match flattened(args, args.len()) {
        Some(x) => Ok(Value::List(x)),
        None => Err("Incorrect arguments to concat"@),
    }
}

/// `nth`: the item at an index.
pub open spec fn nth_result(args: Seq<Value>) -> Result<Value, Seq<char>> {
    if args.len() >= 2 && items_of(args[0]) is Some && args[1] is Integer {
        let x = items_of(args[0])->Some_0;
        let i = args[1]->Integer_0;
        if 0 <= i < x.len() {
            Ok(x[i])
        } else {
            Err("Index out of bounds"@)
        }
    } else {
        Err("Wrong arguments for nth"@)
    }
}

/// `first`: the first item.
pub open spec fn first_result(args: Seq<Value>) -> Result<Value, Seq<char>> {
    if args.len() >= 1 && items_of(args[0]) is Some {
        let x = items_of(args[0])->Some_0;
        if x.len() > 0 {
            Ok(x[0])
        } else {
            Err("Index out of bounds"@)
        }
    } else {
        Err("Wrong arguments for first"@)
    }
}

/// `rest`: the list of the items after the first; empty for an empty
/// sequence.
pub open spec fn rest_result(args: Seq<Value>) -> Result<Value, Seq<char>> {
    if args.len() >= 1 && items_of(args[0]) is Some {
        let x = items_of(args[0])->Some_0;
        if x.len() > 0 {
            Ok(Value::List(x.skip(1)))
        } else {
            Ok(Value::List(Seq::empty()))
        }
    } else {
        Err("Wrong arguments for rest"@)
    }
}

/// The texts of the first `n` arguments, one after another, when each of
/// them is a string.
pub open spec fn joined(args: Seq<Value>, n: nat) -> Option<Seq<char>>
    decreases n,
{
    if n == 0 || n > args.len() {
        Some(Seq::empty())
    } else {
        match (joined(args, (n - 1) as nat), args[n - 1]) {
            (Some(acc), Value::Str(s)) => Some(acc + s),
            _ => None,
        }
    }
}

/// `str`: the texts of all arguments, one after another.
pub open spec fn str_result(args: Seq<Value>) -> Result<Value, Seq<char>> {
    match joined(args, args.len()) {
        Some(s) => Ok(Value::Str(s)),
        None => Err("All arguments to str should be strings"@),
    }
}

/// `symbol`: the symbol named by a string.
pub open spec fn symbol_result(args: Seq<Value>) -> Result<Value, Seq<char>> {
    if args.len() >= 1 && args[0] is Str {
        Ok(Value::Symbol(args[0]->Str_0))
    } else {
        Err("Not enough arguments to symbol"@)
    }
}

/// `throw`: the error with the given message.
pub open spec fn throw_result(args: Seq<Value>) -> Result<Value, Seq<char>> {
    if args.len() >= 1 && args[0] is Str {
        Err(args[0]->Str_0)
    } else {
        Err("Wrong arguments for throw"@)
    }
}

/// Copies the items from `from` on.
pub fn clone_from(items: &Vec<DataType>, from: usize) -> (out: Vec<DataType>)
    ensures
        values(out@) == if from <= items.len() {
            values(items@).skip(from as int)
        } else {
            Seq::empty()
        },
{
    let mut out: Vec<DataType> = Vec::new();
    if from >= items.len() {
        assert(values(out@) =~= Seq::empty());
        assert(from == items.len() ==> values(items@).skip(from as int) =~= Seq::empty());
        return out;
    }
    let mut i: usize = from;
    while i < items.len()
        invariant
            from <= i <= items.len(),
            out@.len() == i - from,
            forall|k: int| 0 <= k < out@.len() ==> out@[k]@ == items@[from + k]@,
        decreases items.len() - i,
    {
        out.push(items[i].clone());
        i += 1;
    }
    assert(values(out@) =~= values(items@).skip(from as int));
    out
}

/// Appends copies of the items to `out`.
pub fn extend_with(out: &mut Vec<DataType>, items: &Vec<DataType>)
    ensures
        values(final(out)@) == values(old(out)@) + values(items@),
{
    let mut i: usize = 0;
    while i < items.len()
        invariant
            i <= items.len(),
            out@.len() == old(out)@.len() + i,
            forall|k: int| 0 <= k < old(out)@.len() ==> out@[k] == old(out)@[k],
            forall|k: int| 0 <= k < i ==> out@[old(out)@.len() + k]@ == items@[k]@,
        decreases items.len() - i,
    {
        out.push(items[i].clone());
        i += 1;
    }
    assert(values(out@) =~= values(old(out)@) + values(items@));
}

/// `cons`.
pub fn cons(args: &Vec<DataType>) -> (r: Result<DataType, RuntimeError>)
    ensures
        result_model(r) == cons_result(values(args@)),
{
    if args.len() < 2 {
        return fail("Incorrect arguments to cons");
    }
    match sequence_items(&args[1]) {
        Some(items) => {
            let mut out: Vec<DataType> = Vec::new();
            out.push(args[0].clone());
            assert(values(out@) =~= seq![args@[0]@]);
            extend_with(&mut out, items);
            Ok(DataType::List(out))
        },
        None => fail("Incorrect arguments to cons"),
    }
}

/// `concat`.
pub fn concat(args: &Vec<DataType>) -> (r: Result<DataType, RuntimeError>)
    ensures
        result_model(r) == concat_result(values(args@)),
{
    let mut out: Vec<DataType> = Vec::new();
    let mut i: usize = 0;
    assert(values(out@) =~= Seq::empty());
    while i < args.len()
        invariant
            i <= args.len(),
            flattened(values(args@), i as nat) == Some(values(out@)),
        decreases args.len() - i,
    {
        match sequence_items(&args[i]) {
            Some(items) => {
                extend_with(&mut out, items);
            },
            None => {
                assert(flattened(values(args@), (i + 1) as nat) is None);
                assert forall|n: nat| i < n <= args.len() implies flattened(
                    values(args@),
                    n,
                ) is None by {
                    lemma_flattened_fails(values(args@), (i + 1) as nat, n);
                }
                return fail("Incorrect arguments to concat");
            },
        }
        i += 1;
    }
    Ok(DataType::List(out))
}

/// Once the arguments up to `m` cannot be flattened, no longer run can.
pub proof fn lemma_flattened_fails(args: Seq<Value>, m: nat, n: nat)
    requires
        m <= n <= args.len(),
        flattened(args, m) is None,
    ensures
        flattened(args, n) is None,
    decreases n,
{
    if n > m {
        lemma_flattened_fails(args, m, (n - 1) as nat);
    }
}

/// Once the arguments up to `m` cannot be joined, no longer run can.
pub proof fn lemma_joined_fails(args: Seq<Value>, m: nat, n: nat)
    requires
        m <= n <= args.len(),
        joined(args, m) is None,
    ensures
        joined(args, n) is None,
    decreases n,
{
    if n > m {
        lemma_joined_fails(args, m, (n - 1) as nat);
    }
}

/// `str`.
pub fn str_join(args: &Vec<DataType>) -> (r: Result<DataType, RuntimeError>)
    ensures
        result_model(r) == str_result(values(args@)),
{
    let mut out = String::new();
    let mut i: usize = 0;
    while i < args.len()
        invariant
            i <= args.len(),
            joined(values(args@), i as nat) == Some(out@),
        decreases args.len() - i,
    {
        match &args[i] {
            DataType::String(s) => {
                out.append(s.as_str());
            },
            _ => {
                assert(joined(values(args@), (i + 1) as nat) is None);
                proof {
                    lemma_joined_fails(values(args@), (i + 1) as nat, args.len() as nat);
                }
                return fail("All arguments to str should be strings");
            },
        }
        i += 1;
    }
    Ok(DataType::String(out))
}

/// `nth`.
pub fn nth(args: &Vec<DataType>) -> (r: Result<DataType, RuntimeError>)
    ensures
        result_model(r) == nth_result(values(args@)),
{
    if args.len() < 2 {
        return fail("Wrong arguments for nth");
    }
    match (sequence_items(&args[0]), &args[1]) {
        (Some(items), DataType::Integer(i)) => {
            if 0 <= *i && *i < items.len() as i128 {
                let k = *i as usize;
                Ok(items[k].clone())
            } else {
                fail("Index out of bounds")
            }
        },
        _ => fail("Wrong arguments for nth"),
    }
}

/// `first`.
pub fn first(args: &Vec<DataType>) -> (r: Result<DataType, RuntimeError>)
    ensures
        result_model(r) == first_result(values(args@)),
{
    if args.len() < 1 {
        return fail("Wrong arguments for first");
    }
    match sequence_items(&args[0]) {
        Some(items) => {
            if items.len() > 0 {
                Ok(items[0].clone())
            } else {
                fail("Index out of bounds")
            }
        },
        None => fail("Wrong arguments for first"),
    }
}

/// `rest`.
pub fn rest(args: &Vec<DataType>) -> (r: Result<DataType, RuntimeError>)
    ensures
        result_model(r) == rest_result(values(args@)),
{
    if args.len() < 1 {
        return fail("Wrong arguments for rest");
    }
    match sequence_items(&args[0]) {
        Some(items) => {
            let out = clone_from(items, 1);
            if items.len() == 0 {
                assert(values(out@) =~= Seq::empty());
            }
            Ok(DataType::List(out))
        },
        None => fail("Wrong arguments for rest"),
    }
}


/// The entries of `acc` with those made of the arguments from `i` on, taken
/// as keys and values in turn.  A key is kept as its print form.
pub open spec fn paired(args: Seq<Value>, i: nat, acc: Seq<(Seq<char>, Value)>) -> Option<
    Seq<(Seq<char>, Value)>,
>
    decreases args.len() - i,
{
    if i >= args.len() {
        Some(acc)
    } else if i + 1 >= args.len() {
        None
    } else {
        paired(args, i + 2, with_entry(acc, print_form(args[i as int]), args[i as int + 1]))
    }
}

/// A dictionary without the entry of the given key.
pub open spec fn without_key(d: Seq<(Seq<char>, Value)>, key: Seq<char>) -> Seq<
    (Seq<char>, Value),
> {
    let i = position_of(d, key) as int;
    if i < d.len() {
        d.remove(i)
    } else {
        d
    }
}

/// The entries of `acc` without the keys named by the arguments from `i` on.
pub open spec fn removed(args: Seq<Value>, i: nat, acc: Seq<(Seq<char>, Value)>) -> Seq<
    (Seq<char>, Value),
>
    decreases args.len() - i,
{
    if i >= args.len() {
        acc
    } else {
        removed(args, i + 1, without_key(acc, print_form(args[i as int])))
    }
}

/// Pairing arguments up keeps the keys of a dictionary distinct.
pub proof fn lemma_paired_keeps_keys_distinct(
    args: Seq<Value>,
    i: nat,
    acc: Seq<(Seq<char>, Value)>,
)
    requires
        distinct_keys(acc),
        paired(args, i, acc) is Some,
    ensures
        distinct_keys(paired(args, i, acc)->Some_0),
    decreases args.len() - i,
{
    if i < args.len() && i + 1 < args.len() {
        let next = with_entry(acc, print_form(args[i as int]), args[i as int + 1]);
        lemma_with_entry_keeps_keys_distinct(acc, print_form(args[i as int]), args[i as int + 1]);
        lemma_paired_keeps_keys_distinct(args, i + 2, next);
    }
}

/// Taking an entry out keeps the keys of a dictionary distinct.
pub proof fn lemma_without_key_keeps_keys_distinct(d: Seq<(Seq<char>, Value)>, key: Seq<char>)
    requires
        distinct_keys(d),
    ensures
        distinct_keys(without_key(d, key)),
{
    let after = without_key(d, key);
    let at = position_of(d, key) as int;
    assert forall|i: int, j: int| 0 <= i < j < after.len() implies (#[trigger] after[i]).0 != (
    #[trigger] after[j]).0 by {
        if at < d.len() {
            let a = if i < at {
                i
            } else {
                i + 1
            };
            let b = if j < at {
                j
            } else {
                j + 1
            };
            assert(after[i] == d[a] && after[j] == d[b]);
        }
    }
}

/// Taking entries out keeps the keys of a dictionary distinct.
pub proof fn lemma_removed_keeps_keys_distinct(
    args: Seq<Value>,
    i: nat,
    acc: Seq<(Seq<char>, Value)>,
)
    requires
        distinct_keys(acc),
    ensures
        distinct_keys(removed(args, i, acc)),
    decreases args.len() - i,
{
    if i < args.len() {
        lemma_without_key_keeps_keys_distinct(acc, print_form(args[i as int]));
        lemma_removed_keeps_keys_distinct(
            args,
            i + 1,
            without_key(acc, print_form(args[i as int])),
        );
    }
}

/// `dict`: the dictionary of the arguments, taken as keys and values in turn.
pub open spec fn dict_result(args: Seq<Value>) -> Result<Value, Seq<char>> {
    match paired(args, 0, Seq::empty()) {
        Some(d) => Ok(Value::Dictionary(d)),
        None => Err("No value to match key in dict"@),
    }
}

/// `assoc`: the dictionary with the further arguments put in, taken as keys
/// and values in turn.
pub open spec fn assoc_result(args: Seq<Value>) -> Result<Value, Seq<char>> {
    if args.len() >= 1 && args[0] is Dictionary {
        match paired(args, 1, args[0]->Dictionary_0) {
            Some(d) => Ok(Value::Dictionary(d)),
            None => Err("No value to match key in assoc"@),
        }
    } else {
        Err("Incorrect arguments for assoc"@)
    }
}

/// `dissoc`: the dictionary without the keys named by the further arguments.
pub open spec fn dissoc_result(args: Seq<Value>) -> Result<Value, Seq<char>> {
    if args.len() >= 1 && args[0] is Dictionary {
        Ok(Value::Dictionary(removed(args, 1, args[0]->Dictionary_0)))
    } else {
        Err("Incorrect arguments for dissoc"@)
    }
}

/// `get`: the value under a key.
pub open spec fn get_result(args: Seq<Value>) -> Result<Value, Seq<char>> {
    if args.len() >= 2 && args[0] is Dictionary {
        let d = args[0]->Dictionary_0;
        let i = position_of(d, print_form(args[1])) as int;
        if i < d.len() {
            Ok(d[i].1)
        } else {
            Err("Key not found in dict"@)
        }
    } else {
        Err("Incorrect arguments for get"@)
    }
}

/// `contains`: whether a key is in the dictionary.
pub open spec fn contains_result(args: Seq<Value>) -> Result<Value, Seq<char>> {
    if args.len() >= 2 && args[0] is Dictionary {
        Ok(Value::Bool(has_key(args[0]->Dictionary_0, print_form(args[1]))))
    } else {
        Err("Incorrect arguments for contains"@)
    }
}

/// `keys`: the list of the keys, as strings.
pub open spec fn keys_result(args: Seq<Value>) -> Result<Value, Seq<char>> {
    if args.len() >= 1 && args[0] is Dictionary {
        let d = args[0]->Dictionary_0;
        Ok(Value::List(Seq::new(d.len(), |i: int| Value::Str(d[i].0))))
    } else {
        Err("Incorrect arguments for keys"@)
    }
}

/// `values`: the list of the values.
pub open spec fn values_result(args: Seq<Value>) -> Result<Value, Seq<char>> {
    if args.len() >= 1 && args[0] is Dictionary {
        let d = args[0]->Dictionary_0;
        Ok(Value::List(Seq::new(d.len(), |i: int| d[i].1)))
    } else {
        Err("Incorrect arguments for values"@)
    }
}

/// Puts the arguments from `from` on into the entries, as keys and values in
/// turn.
fn pair_up(args: &Vec<DataType>, from: usize, initial: Vec<(String, DataType)>) -> (r: Option<
    Vec<(String, DataType)>,
>)
    ensures
        match r {
            Some(d) => paired(values(args@), from as nat, entries(initial@)) == Some(
                entries(d@),
            ),
            None => paired(values(args@), from as nat, entries(initial@)) is None,
        },
{
    let ghost start = entries(initial@);
    let mut pairs = initial;
    let mut i: usize = from;
    while i < args.len()
        invariant
            start == entries(initial@),
            paired(values(args@), from as nat, start) == paired(
                values(args@),
                i as nat,
                entries(pairs@),
            ),
        decreases args.len() - i,
    {
        if i + 1 >= args.len() {
            return None;
        }
        insert_entry(&mut pairs, args[i].print(), args[i + 1].clone());
        i += 2;
    }
    Some(pairs)
}

/// `dict`.
pub fn dict(args: &Vec<DataType>) -> (r: Result<DataType, RuntimeError>)
    ensures
        result_model(r) == dict_result(values(args@)),
{
    let empty: Vec<(String, DataType)> = Vec::new();
    assert(entries(empty@) =~= Seq::empty());
    match pair_up(args, 0, empty) {
        Some(d) => Ok(DataType::Dictionary(d)),
        None => fail("No value to match key in dict"),
    }
}

/// `assoc`.
pub fn assoc(args: &Vec<DataType>) -> (r: Result<DataType, RuntimeError>)
    ensures
        result_model(r) == assoc_result(values(args@)),
{
    if args.len() < 1 {
        return fail("Incorrect arguments for assoc");
    }
    match &args[0] {
        DataType::Dictionary(d) => {
            match pair_up(args, 1, clone_entries(d)) {
                Some(d) => Ok(DataType::Dictionary(d)),
                None => fail("No value to match key in assoc"),
            }
        },
        _ => fail("Incorrect arguments for assoc"),
    }
}

/// `dissoc`.
pub fn dissoc(args: &Vec<DataType>) -> (r: Result<DataType, RuntimeError>)
    ensures
        result_model(r) == dissoc_result(values(args@)),
{
    if args.len() < 1 {
        return fail("Incorrect arguments for dissoc");
    }
    match &args[0] {
        DataType::Dictionary(d) => {
            let mut pairs = clone_entries(d);
            let mut i: usize = 1;
            while i < args.len()
                invariant
                    1 <= i,
                    removed(values(args@), 1, entries(d@)) == removed(
                        values(args@),
                        i as nat,
                        entries(pairs@),
                    ),
                decreases args.len() - i,
            {
                let key = args[i].print();
                let at = find_key(&pairs, key.as_str());
                if at < pairs.len() {
                    let ghost before = entries(pairs@);
                    pairs.remove(at);
                    assert(entries(pairs@) =~= before.remove(at as int));
                }
                i += 1;
            }
            Ok(DataType::Dictionary(pairs))
        },
        _ => fail("Incorrect arguments for dissoc"),
    }
}

/// `get`.
pub fn get(args: &Vec<DataType>) -> (r: Result<DataType, RuntimeError>)
    ensures
        result_model(r) == get_result(values(args@)),
{
    if args.len() < 2 {
        return fail("Incorrect arguments for get");
    }
    match &args[0] {
        DataType::Dictionary(d) => {
            let key = args[1].print();
            let at = find_key(d, key.as_str());
            if at < d.len() {
                Ok(d[at].1.clone())
            } else {
                fail("Key not found in dict")
            }
        },
        _ => fail("Incorrect arguments for get"),
    }
}

/// `contains`.
pub fn contains(args: &Vec<DataType>) -> (r: Result<DataType, RuntimeError>)
    ensures
        result_model(r) == contains_result(values(args@)),
{
    if args.len() < 2 {
        return fail("Incorrect arguments for contains");
    }
    match &args[0] {
        DataType::Dictionary(d) => {
            let key = args[1].print();
            let at = find_key(d, key.as_str());
            Ok(DataType::Bool(at < d.len()))
        },
        _ => fail("Incorrect arguments for contains"),
    }
}

/// `keys`.
pub fn keys(args: &Vec<DataType>) -> (r: Result<DataType, RuntimeError>)
    ensures
        result_model(r) == keys_result(values(args@)),
{
    if args.len() < 1 {
        return fail("Incorrect arguments for keys");
    }
    match &args[0] {
        DataType::Dictionary(d) => {
            let mut out: Vec<DataType> = Vec::new();
            let mut i: usize = 0;
            while i < d.len()
                invariant
                    i <= d.len(),
                    out@.len() == i,
                    forall|k: int| 0 <= k < i ==> out@[k]@ == Value::Str(d@[k].0@),
                decreases d.len() - i,
            {
                out.push(DataType::String(d[i].0.clone()));
                i += 1;
            }
            assert(values(out@) =~= Seq::new(
                entries(d@).len(),
                |i: int| Value::Str(entries(d@)[i].0),
            ));
            Ok(DataType::List(out))
        },
        _ => fail("Incorrect arguments for keys"),
    }
}

/// `values`.
pub fn dictionary_values(args: &Vec<DataType>) -> (r: Result<DataType, RuntimeError>)
    ensures
        result_model(r) == values_result(values(args@)),
{
    if args.len() < 1 {
        return fail("Incorrect arguments for values");
    }
    match &args[0] {
        DataType::Dictionary(d) => {
            let mut out: Vec<DataType> = Vec::new();
            let mut i: usize = 0;
            while i < d.len()
                invariant
                    i <= d.len(),
                    out@.len() == i,
                    forall|k: int| 0 <= k < i ==> out@[k]@ == d@[k].1@,
                decreases d.len() - i,
            {
                out.push(d[i].1.clone());
                i += 1;
            }
            assert(values(out@) =~= Seq::new(entries(d@).len(), |i: int| entries(d@)[i].1));
            Ok(DataType::List(out))
        },
        _ => fail("Incorrect arguments for values"),
    }
}

/// The stable ids of the functions that need nothing but their arguments
/// and are neither arithmetic nor an ordering.
pub open spec fn is_plain(code: int) -> bool {
    ||| is_type_test(code)
    ||| code == LIST
    ||| code == LIST_EMPTY
    ||| code == LIST_LEN
    ||| code == EQUALS
    ||| code == STR
    ||| (CONS <= code <= THROW)
    ||| (SYMBOL <= code <= VALUES)
}

/// What a function that needs nothing but its arguments returns.
pub open spec fn plain_result(code: int, args: Seq<Value>) -> Result<Value, Seq<char>> {
    if code == LIST {
        Ok(Value::List(args))
    } else if code == LIST_EMPTY {
        is_empty_result(args)
    } else if code == LIST_LEN {
        count_result(args)
    } else if code == EQUALS {
        equals_result(args)
    } else if code == STR {
        str_result(args)
    } else if code == CONS {
        cons_result(args)
    } else if code == CONCAT {
        concat_result(args)
    } else if code == NTH {
        nth_result(args)
    } else if code == FIRST {
        first_result(args)
    } else if code == REST {
        rest_result(args)
    } else if code == THROW {
        throw_result(args)
    } else if code == SYMBOL {
        symbol_result(args)
    } else if code == DICTIONARY {
        dict_result(args)
    } else if code == VECTOR {
        Ok(Value::Vector(args))
    } else if code == ASSOC {
        assoc_result(args)
    } else if code == DISSOC {
        dissoc_result(args)
    } else if code == GET {
        get_result(args)
    } else if code == CONTAINS {
        contains_result(args)
    } else if code == KEYS {
        keys_result(args)
    } else if code == VALUES {
        values_result(args)
    } else {
        type_check(code, args)
    }
}

/// Whether a stable id is that of an arithmetic function.
pub fn arithmetic_code(code: i8) -> (r: bool)
    ensures
        r == is_arithmetic(code as int),
{
    code == ADDITION || code == SUBTRACTION || code == DIVISION || code == MULTIPLICATION
        || code == MODULO
}

/// Whether a stable id is that of an ordering function.
pub fn ordering_code(code: i8) -> (r: bool)
    ensures
        r == is_ordering(code as int),
{
    code == GREATER_THAN || code == LESS_THAN || code == LESS_THAN_OR_EQUALS || code
        == GREATER_THAN_OR_EQUALS
}

/// Whether a stable id is that of a function that needs nothing but its
/// arguments and is neither arithmetic nor an ordering.
pub fn plain_code(code: i8) -> (r: bool)
    ensures
        r == is_plain(code as int),
{
    code == CHECK_LIST || code == CHECK_ATOM || (CHECK_NIL <= code && code <= CHECK_SEQUENTIAL)
        || (CHECK_STR <= code && code <= CHECK_MACRO) || code == LIST || code == LIST_EMPTY
        || code == LIST_LEN || code == EQUALS || code == STR || (CONS <= code && code <= THROW)
        || (SYMBOL <= code && code <= VALUES)
}

/// Calls a function that needs nothing but its arguments.
pub fn call_plain(code: i8, args: &Vec<DataType>) -> (r: Result<DataType, RuntimeError>)
    requires
        is_plain(code as int),
    ensures
        result_model(r) == plain_result(code as int, values(args@)),
{
    assert(args.len() > 0 ==> values(args@)[0] == args@[0]@);
    if code == LIST {
        Ok(DataType::List(clone_values(args)))
    } else if code == LIST_EMPTY {
        if args.len() > 0 {
            if let DataType::List(items) = &args[0] {
                return Ok(DataType::Bool(items.len() == 0));
            }
        }
        fail("No arguments given to empty?")
    } else if code == LIST_LEN {
        if args.len() > 0 {
            if let DataType::List(items) = &args[0] {
                return Ok(DataType::Integer(items.len() as i128));
            }
        }
        fail("No arguments given to count")
    } else if code == EQUALS {
        if args.len() < 2 {
            fail("Not enough arguments passed to =")
        } else {
            Ok(DataType::Bool(args[0].equals(&args[1])))
        }
    } else if code == STR {
        str_join(args)
    } else if code == CONS {
        cons(args)
    } else if code == CONCAT {
        concat(args)
    } else if code == NTH {
        nth(args)
    } else if code == FIRST {
        first(args)
    } else if code == REST {
        rest(args)
    } else if code == THROW {
        if args.len() >= 1 {
            if let DataType::String(msg) = &args[0] {
                return Err(RuntimeError { msg: msg.clone() });
            }
        }
        fail("Wrong arguments for throw")
    } else if code == SYMBOL {
        if args.len() >= 1 {
            if let DataType::String(name) = &args[0] {
                return Ok(DataType::Symbol(name.clone()));
            }
        }
        fail("Not enough arguments to symbol")
    } else if code == DICTIONARY {
        dict(args)
    } else if code == VECTOR {
        Ok(DataType::Vector(clone_values(args)))
    } else if code == ASSOC {
        assoc(args)
    } else if code == DISSOC {
        dissoc(args)
    } else if code == GET {
        get(args)
    } else if code == CONTAINS {
        contains(args)
    } else if code == KEYS {
        keys(args)
    } else if code == VALUES {
        dictionary_values(args)
    } else {
        check_type(code, args)
    }
}


/// A native function of the core library: its name in the language and the
/// stable id it is registered and compared by.
#[derive(Debug)]
pub struct CoreFunction {
    pub id: &'static str,
    pub code: i8,
}

/// The number of native functions; their stable ids are the numbers below it.
pub const CORE_FUNCTIONS: i8 = 54;

/// The name of the native function with the given stable id.
pub open spec fn core_name(code: int) -> Option<Seq<char>> {
    if code == ADDITION {
        Some("+"@)
    } else if code == SUBTRACTION {
        Some("-"@)
    } else if code == DIVISION {
        Some("/"@)
    } else if code == MULTIPLICATION {
        Some("*"@)
    } else if code == PRINT {
        Some("prn"@)
    } else if code == LIST {
        Some("list"@)
    } else if code == CHECK_LIST {
        Some("list?"@)
    } else if code == LIST_EMPTY {
        Some("empty?"@)
    } else if code == LIST_LEN {
        Some("count"@)
    } else if code == EQUALS {
        Some("="@)
    } else if code == GREATER_THAN {
        Some(">"@)
    } else if code == LESS_THAN {
        Some("<"@)
    } else if code == LESS_THAN_OR_EQUALS {
        Some("<="@)
    } else if code == GREATER_THAN_OR_EQUALS {
        Some(">="@)
    } else if code == READ_STR {
        Some("read-string"@)
    } else if code == SLURP {
        Some("slurp"@)
    } else if code == STR {
        Some("str"@)
    } else if code == ATOM {
        Some("atom"@)
    } else if code == CHECK_ATOM {
        Some("atom?"@)
    } else if code == DEREF {
        Some("deref"@)
    } else if code == RESET_ATOM {
        Some("reset!"@)
    } else if code == SWAP_ATOM {
        Some("swap!"@)
    } else if code == CONS {
        Some("cons"@)
    } else if code == CONCAT {
        Some("concat"@)
    } else if code == NTH {
        Some("nth"@)
    } else if code == FIRST {
        Some("first"@)
    } else if code == REST {
        Some("rest"@)
    } else if code == THROW {
        Some("throw"@)
    } else if code == APPLY {
        Some("apply"@)
    } else if code == MAP_ITEMS {
        Some("map"@)
    } else if code == CHECK_NIL {
        Some("nil?"@)
    } else if code == CHECK_TRUE {
        Some("true?"@)
    } else if code == CHECK_FALSE {
        Some("false?"@)
    } else if code == CHECK_SYMBOL {
        Some("symbol?"@)
    } else if code == CHECK_VECTOR {
        Some("vector?"@)
    } else if code == CHECK_DICTIONARY {
        Some("dict?"@)
    } else if code == CHECK_SEQUENTIAL {
        Some("sequential?"@)
    } else if code == SYMBOL {
        Some("symbol"@)
    } else if code == DICTIONARY {
        Some("dict"@)
    } else if code == VECTOR {
        Some("vector"@)
    } else if code == ASSOC {
        Some("assoc"@)
    } else if code == DISSOC {
        Some("dissoc"@)
    } else if code == GET {
        Some("get"@)
    } else if code == CONTAINS {
        Some("contains"@)
    } else if code == KEYS {
        Some("keys"@)
    } else if code == VALUES {
        Some("values"@)
    } else if code == CHECK_STR {
        Some("string?"@)
    } else if code == CHECK_INTEGER {
        Some("int?"@)
    } else if code == CHECK_FLOAT {
        Some("float?"@)
    } else if code == CHECK_FN {
        Some("func?"@)
    } else if code == CHECK_MACRO {
        Some("macro?"@)
    } else if code == TIME_MS {
        Some("time-ms"@)
    } else if code == MODULO {
        Some("%"@)
    } else if code == INPUT {
        Some("input"@)
    } else {
        None
    }
}

impl CoreFunction {
    /// The native function with the given stable id.
    pub fn with_code(code: i8) -> (r: Option<CoreFunction>)
        ensures
            match r {
                Some(f) => f.code == code && core_name(code as int) == Some(f.id@),
                None => core_name(code as int) is None,
            },
    {
        let id = match code {
            ADDITION => "+",
            SUBTRACTION => "-",
            DIVISION => "/",
            MULTIPLICATION => "*",
            PRINT => "prn",
            LIST => "list",
            CHECK_LIST => "list?",
            LIST_EMPTY => "empty?",
            LIST_LEN => "count",
            EQUALS => "=",
            GREATER_THAN => ">",
            LESS_THAN => "<",
            LESS_THAN_OR_EQUALS => "<=",
            GREATER_THAN_OR_EQUALS => ">=",
            READ_STR => "read-string",
            SLURP => "slurp",
            STR => "str",
            ATOM => "atom",
            CHECK_ATOM => "atom?",
            DEREF => "deref",
            RESET_ATOM => "reset!",
            SWAP_ATOM => "swap!",
            CONS => "cons",
            CONCAT => "concat",
            NTH => "nth",
            FIRST => "first",
            REST => "rest",
            THROW => "throw",
            APPLY => "apply",
            MAP_ITEMS => "map",
            CHECK_NIL => "nil?",
            CHECK_TRUE => "true?",
            CHECK_FALSE => "false?",
            CHECK_SYMBOL => "symbol?",
            CHECK_VECTOR => "vector?",
            CHECK_DICTIONARY => "dict?",
            CHECK_SEQUENTIAL => "sequential?",
            SYMBOL => "symbol",
            DICTIONARY => "dict",
            VECTOR => "vector",
            ASSOC => "assoc",
            DISSOC => "dissoc",
            GET => "get",
            CONTAINS => "contains",
            KEYS => "keys",
            VALUES => "values",
            CHECK_STR => "string?",
            CHECK_INTEGER => "int?",
            CHECK_FLOAT => "float?",
            CHECK_FN => "func?",
            CHECK_MACRO => "macro?",
            TIME_MS => "time-ms",
            MODULO => "%",
            INPUT => "input",
            _ => {
                return None;
            },
        };
        Some(CoreFunction { id, code })
    }
}

} // verus!
