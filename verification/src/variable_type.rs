//! The values of the language, their mathematical model, equality and the
//! canonical print form.

use vstd::prelude::*;

use crate::text::{decimal, push_decimal, push_digits, push_text, same_text};

verus! {

/// A function written in the language: the parameter names, the body, the
/// frame its parameters are bound in, the root frame, and whether it is a
/// macro.  Frames are named by their index in the interpreter's arena.
#[derive(Debug)]
pub struct Closure {
    pub ast: Box<DataType>,
    pub params: Vec<String>,
    pub env: usize,
    pub repl_env: usize,
    pub is_macro: bool,
}

/// A value of the language.
///
/// A float is carried as its decimal text: all floating-point arithmetic is
/// done by the host.  A dictionary is a list of entries keyed by the print
/// form of the key value.  A native function is named by its stable id, an
/// atom by the index of its cell.
#[derive(Debug)]
pub enum DataType {
    Nil(),
    List(Vec<DataType>),
    Symbol(String),
    Integer(i128),
    Bool(bool),
    Float(String),
    String(String),
    Comment(),
    Vector(Vec<DataType>),
    Dictionary(Vec<(String, DataType)>),
    Closure(Closure),
    NativeFunction(i8),
    Atom(usize),
}

/// The model of a [`Closure`].
pub struct ClosureValue {
    pub ast: Box<Value>,
    pub params: Seq<Seq<char>>,
    pub env: usize,
    pub repl_env: usize,
    pub is_macro: bool,
}

/// The model of a [`DataType`]: the same tree over mathematical integers and
/// sequences.
pub enum Value {
    Nil,
    List(Seq<Value>),
    Symbol(Seq<char>),
    Integer(int),
    Bool(bool),
    Float(Seq<char>),
    Str(Seq<char>),
    Comment,
    Vector(Seq<Value>),
    Dictionary(Seq<(Seq<char>, Value)>),
    Closure(ClosureValue),
    NativeFunction(int),
    Atom(usize),
}

/// The models of a sequence of strings.
pub open spec fn texts(s: Seq<String>) -> Seq<Seq<char>> {
    Seq::new(s.len(), |i: int| s[i]@)
}

/// The models of a sequence of values.
pub open spec fn values(s: Seq<DataType>) -> Seq<Value>
    decreases s, 1int,
{
    Seq::new(
        s.len(),
        |i: int|
            if 0 <= i < s.len() {
                s[i].model()
            } else {
                Value::Nil
            },
    )
}

/// The models of a sequence of dictionary entries.
pub open spec fn entries(s: Seq<(String, DataType)>) -> Seq<(Seq<char>, Value)>
    decreases s, 1int,
{
    Seq::new(
        s.len(),
        |i: int|
            if 0 <= i < s.len() {
                (s[i].0@, s[i].1.model())
            } else {
                (Seq::empty(), Value::Nil)
            },
    )
}

impl Closure {
    /// The model of this closure.
    pub open spec fn model(&self) -> ClosureValue
        decreases self, 0int,
    {
        ClosureValue {
            ast: Box::new(self.ast.model()),
            params: texts(self.params@),
            env: self.env,
            repl_env: self.repl_env,
            is_macro: self.is_macro,
        }
    }
}

impl DataType {
    /// The model of this value.
    pub open spec fn model(&self) -> Value
        decreases self, 0int,
    {
        match self {
            DataType::Nil() => Value::Nil,
            DataType::List(items) => Value::List(values(items@)),
            DataType::Symbol(name) => Value::Symbol(name@),
            DataType::Integer(i) => Value::Integer(*i as int),
            DataType::Bool(b) => Value::Bool(*b),
            DataType::Float(text) => Value::Float(text@),
            DataType::String(text) => Value::Str(text@),
            DataType::Comment() => Value::Comment,
            DataType::Vector(items) => Value::Vector(values(items@)),
            DataType::Dictionary(pairs) => Value::Dictionary(entries(pairs@)),
            DataType::Closure(closure) => Value::Closure(closure.model()),
            DataType::NativeFunction(id) => Value::NativeFunction(*id as int),
            DataType::Atom(cell) => Value::Atom(*cell),
        }
    }
}

impl View for Closure {
    type V = ClosureValue;

    open spec fn view(&self) -> ClosureValue {
        self.model()
    }
}

impl View for DataType {
    type V = Value;

    open spec fn view(&self) -> Value {
        self.model()
    }
}

/// Copies a list of strings.
pub fn clone_texts(v: &Vec<String>) -> (out: Vec<String>)
    ensures
        texts(out@) == texts(v@),
{
    let mut out: Vec<String> = Vec::new();
    let mut i: usize = 0;
    while i < v.len()
        invariant
            i <= v.len(),
            out@.len() == i,
            forall|j: int| 0 <= j < i ==> out@[j]@ == v@[j]@,
        decreases v.len() - i,
    {
        out.push(v[i].clone());
        i += 1;
    }
    assert(texts(out@) =~= texts(v@));
    out
}

/// Copies a list of values.
pub fn clone_values(v: &Vec<DataType>) -> (out: Vec<DataType>)
    ensures
        values(out@) == values(v@),
    decreases v, 1int,
{
    let mut out: Vec<DataType> = Vec::new();
    let mut i: usize = 0;
    while i < v.len()
        invariant
            i <= v.len(),
            out@.len() == i,
            forall|j: int| 0 <= j < i ==> out@[j]@ == v@[j]@,
        decreases v.len() - i,
    {
        let item = v[i].clone();
        out.push(item);
        i += 1;
    }
    assert(values(out@) =~= values(v@));
    out
}

/// Copies a list of dictionary entries.
pub fn clone_entries(v: &Vec<(String, DataType)>) -> (out: Vec<(String, DataType)>)
    ensures
        entries(out@) == entries(v@),
    decreases v, 1int,
{
    let mut out: Vec<(String, DataType)> = Vec::new();
    let mut i: usize = 0;
    while i < v.len()
        invariant
            i <= v.len(),
            out@.len() == i,
            forall|j: int| 0 <= j < i ==> out@[j].0@ == v@[j].0@ && out@[j].1@ == v@[j].1@,
        decreases v.len() - i,
    {
        let key = v[i].0.clone();
        let item = v[i].1.clone();
        out.push((key, item));
        i += 1;
    }
    assert(entries(out@) =~= entries(v@));
    out
}

impl Clone for Closure {
    fn clone(&self) -> (r: Closure)
        ensures
            r@ == self@,
        decreases self, 0int,
    {
        Closure {
            ast: Box::new((*self.ast).clone()),
            params: clone_texts(&self.params),
            env: self.env,
            repl_env: self.repl_env,
            is_macro: self.is_macro,
        }
    }
}

impl Clone for DataType {
    fn clone(&self) -> (r: DataType)
        ensures
            r@ == self@,
        decreases self, 0int,
    {
        match self {
            DataType::Nil() => DataType::Nil(),
            DataType::List(items) => DataType::List(clone_values(items)),
            DataType::Symbol(name) => DataType::Symbol(name.clone()),
            DataType::Integer(i) => DataType::Integer(*i),
            DataType::Bool(b) => DataType::Bool(*b),
            DataType::Float(text) => DataType::Float(text.clone()),
            DataType::String(text) => DataType::String(text.clone()),
            DataType::Comment() => DataType::Comment(),
            DataType::Vector(items) => DataType::Vector(clone_values(items)),
            DataType::Dictionary(pairs) => DataType::Dictionary(clone_entries(pairs)),
            DataType::Closure(closure) => DataType::Closure(closure.clone()),
            DataType::NativeFunction(id) => DataType::NativeFunction(*id),
            DataType::Atom(cell) => DataType::Atom(*cell),
        }
    }
}


/// Whether a float text is the host's rendering of a value that is not a number.
pub open spec fn is_nan_text(t: Seq<char>) -> bool {
    t == "NaN"@
}

/// Whether a float text denotes zero, of either sign.
pub open spec fn is_zero_text(t: Seq<char>) -> bool {
    t == "0.0"@ || t == "-0.0"@
}

/// Equality of two floats carried as text: a value that is not a number
/// equals nothing, the two zeros equal each other, and otherwise the texts
/// decide.
pub open spec fn float_eq(a: Seq<char>, b: Seq<char>) -> bool {
    &&& !is_nan_text(a)
    &&& !is_nan_text(b)
    &&& (a == b || (is_zero_text(a) && is_zero_text(b)))
}

/// The position of the first entry with the given key, or the number of
/// entries when no entry has it.
pub open spec fn position_of(s: Seq<(Seq<char>, Value)>, key: Seq<char>) -> nat
    decreases s.len(),
{
    if s.len() == 0 {
        0
    } else if s[0].0 == key {
        0
    } else {
        1 + position_of(s.drop_first(), key)
    }
}

/// A dictionary with `value` under `key`: in the place of the entry that had
/// the key, or at the end when none had it.
pub open spec fn with_entry(s: Seq<(Seq<char>, Value)>, key: Seq<char>, value: Value) -> Seq<
    (Seq<char>, Value),
> {
    let i = position_of(s, key) as int;
    if i < s.len() {
        s.update(i, (key, value))
    } else {
        s.push((key, value))
    }
}

/// Whether some entry of a dictionary has the given key.
pub open spec fn has_key(s: Seq<(Seq<char>, Value)>, key: Seq<char>) -> bool {
    position_of(s, key) < s.len()
}

/// The equality of the language (`=`).
///
/// Lists and vectors are equal element by element, and a list never equals a
/// vector.  Two dictionaries are equal when each key of one is a key of the
/// other and the values found under it are equal.  Closures are equal when
/// they share their frame and their macro flag, native functions when they
/// have the same id, atoms when they are the same cell.
pub open spec fn value_eq(a: Value, b: Value) -> bool
    decreases a,
{
    match (a, b) {
        (Value::Nil, Value::Nil) => true,
        (Value::Comment, Value::Comment) => true,
        (Value::List(x), Value::List(y)) => {
            &&& x.len() == y.len()
            &&& forall|i: int| 0 <= i < x.len() ==> value_eq(#[trigger] x[i], y[i])
        },
        (Value::Vector(x), Value::Vector(y)) => {
            &&& x.len() == y.len()
            &&& forall|i: int| 0 <= i < x.len() ==> value_eq(#[trigger] x[i], y[i])
        },
        (Value::Dictionary(x), Value::Dictionary(y)) => {
            &&& forall|i: int|
                #![trigger position_of(y, x[i].0)]
                0 <= i < x.len() ==> {
                    let j = position_of(y, x[i].0) as int;
                    j < y.len() && value_eq(x[i].1, y[j].1)
                }
            &&& forall|j: int|
                #![trigger position_of(x, y[j].0)]
                0 <= j < y.len() ==> {
                    let i = position_of(x, y[j].0) as int;
                    i < x.len() && value_eq(x[i].1, y[j].1)
                }
        },
        (Value::Symbol(x), Value::Symbol(y)) => x == y,
        (Value::Integer(x), Value::Integer(y)) => x == y,
        (Value::Bool(x), Value::Bool(y)) => x == y,
        (Value::Float(x), Value::Float(y)) => float_eq(x, y),
        (Value::Str(x), Value::Str(y)) => x == y,
        (Value::Closure(f), Value::Closure(g)) => f.env == g.env && f.is_macro == g.is_macro,
        (Value::NativeFunction(x), Value::NativeFunction(y)) => x == y,
        (Value::Atom(x), Value::Atom(y)) => x == y,
        _ => false,
    }
}

/// The first entry with a key is found at `i` when no earlier entry has the
/// key and either entry `i` has it or `i` is the number of entries.
pub proof fn lemma_position_of(s: Seq<(Seq<char>, Value)>, key: Seq<char>, i: int)
    requires
        0 <= i <= s.len(),
        forall|k: int| 0 <= k < i ==> (#[trigger] s[k]).0 != key,
        i < s.len() ==> s[i].0 == key,
    ensures
        position_of(s, key) == i,
    decreases i,
{
    if i > 0 {
        let rest = s.drop_first();
        assert forall|k: int| 0 <= k < i - 1 implies (#[trigger] rest[k]).0 != key by {
            assert(rest[k] == s[k + 1]);
        }
        lemma_position_of(rest, key, i - 1);
    }
}

fn floats_equal(a: &String, b: &String) -> (r: bool)
    ensures
        r == float_eq(a@, b@),
{
    if same_text(a.as_str(), "NaN") || same_text(b.as_str(), "NaN") {
        return false;
    }
    if same_text(a.as_str(), b.as_str()) {
        return true;
    }
    let a_zero = same_text(a.as_str(), "0.0") || same_text(a.as_str(), "-0.0");
    let b_zero = same_text(b.as_str(), "0.0") || same_text(b.as_str(), "-0.0");
    a_zero && b_zero
}

fn sequences_equal(x: &Vec<DataType>, y: &Vec<DataType>) -> (r: bool)
    ensures
        r == (values(x@).len() == values(y@).len() && forall|i: int|
            0 <= i < values(x@).len() ==> value_eq(#[trigger] values(x@)[i], values(y@)[i])),
    decreases x, 1int,
{
    if x.len() != y.len() {
        return false;
    }
    let mut i: usize = 0;
    while i < x.len()
        invariant
            i <= x.len(),
            x.len() == y.len(),
            forall|k: int| 0 <= k < i ==> value_eq(#[trigger] values(x@)[k], values(y@)[k]),
        decreases x.len() - i,
    {
        if !x[i].equals(&y[i]) {
            assert(!value_eq(values(x@)[i as int], values(y@)[i as int]));
            return false;
        }
        i += 1;
    }
    true
}

/// Finds the first entry with the given key.
pub fn find_key(pairs: &Vec<(String, DataType)>, key: &str) -> (i: usize)
    ensures
        i == position_of(entries(pairs@), key@),
        i <= pairs.len(),
{
    let ghost s = entries(pairs@);
    let mut i: usize = 0;
    while i < pairs.len()
        invariant
            i <= pairs.len(),
            s == entries(pairs@),
            s.len() == pairs.len(),
            forall|k: int| 0 <= k < i ==> (#[trigger] s[k]).0 != key@,
        decreases pairs.len() - i,
    {
        if same_text(pairs[i].0.as_str(), key) {
            proof {
                lemma_position_of(s, key@, i as int);
            }
            return i;
        }
        i += 1;
    }
    proof {
        lemma_position_of(s, key@, i as int);
    }
    i
}

/// Whether each of the first `n` entries of `x` has its key in `y`, with an
/// equal value under it.
pub open spec fn covered(x: Seq<(Seq<char>, Value)>, y: Seq<(Seq<char>, Value)>, n: int) -> bool {
    forall|i: int|
        #![trigger position_of(y, x[i].0)]
        0 <= i < n ==> {
            let j = position_of(y, x[i].0) as int;
            j < y.len() && value_eq(x[i].1, y[j].1)
        }
}

/// Whether each of the first `n` entries of `y` has its key in `x`, with an
/// equal value under it.
pub open spec fn covering(x: Seq<(Seq<char>, Value)>, y: Seq<(Seq<char>, Value)>, n: int) -> bool {
    forall|j: int|
        #![trigger position_of(x, y[j].0)]
        0 <= j < n ==> {
            let i = position_of(x, y[j].0) as int;
            i < x.len() && value_eq(x[i].1, y[j].1)
        }
}

/// Two dictionaries are equal exactly when each covers the other.
pub proof fn lemma_dictionary_eq(x: Seq<(Seq<char>, Value)>, y: Seq<(Seq<char>, Value)>)
    ensures
        value_eq(Value::Dictionary(x), Value::Dictionary(y)) == (covered(x, y, x.len() as int)
            && covering(x, y, y.len() as int)),
{
    let a = Value::Dictionary(x);
    let b = Value::Dictionary(y);
    assert(a->Dictionary_0 == x && b->Dictionary_0 == y);
    if value_eq(a, b) {
        assert forall|i: int| #![trigger position_of(y, x[i].0)] 0 <= i < x.len() implies ({
            let j = position_of(y, x[i].0) as int;
            j < y.len() && value_eq(x[i].1, y[j].1)
        }) by {
            let j = position_of(y, x[i].0);
        }
        assert forall|j: int| #![trigger position_of(x, y[j].0)] 0 <= j < y.len() implies ({
            let i = position_of(x, y[j].0) as int;
            i < x.len() && value_eq(x[i].1, y[j].1)
        }) by {
            let i = position_of(x, y[j].0);
        }
    }
}

/// Puts `value` under `key`, in the place of the entry that had the key or
/// at the end when none had it.
pub fn insert_entry(pairs: &mut Vec<(String, DataType)>, key: String, value: DataType)
    ensures
        entries(final(pairs)@) == with_entry(entries(old(pairs)@), key@, value@),
{
    let i = find_key(pairs, key.as_str());
    if i < pairs.len() {
        pairs[i] = (key, value);
    } else {
        pairs.push((key, value));
    }
    assert(entries(pairs@) =~= with_entry(entries(old(pairs)@), key@, value@));
}

fn dictionaries_equal(x: &Vec<(String, DataType)>, y: &Vec<(String, DataType)>) -> (r: bool)
    ensures
        r == (covered(entries(x@), entries(y@), x.len() as int) && covering(
            entries(x@),
            entries(y@),
            y.len() as int,
        )),
    decreases x, 2int,
{
    let ghost xs = entries(x@);
    let ghost ys = entries(y@);
    assert(xs.len() == x.len() && ys.len() == y.len());
    let mut i: usize = 0;
    while i < x.len()
        invariant
            i <= x.len(),
            xs == entries(x@),
            ys == entries(y@),
            xs.len() == x.len(),
            ys.len() == y.len(),
            covered(xs, ys, i as int),
        decreases x.len() - i,
    {
        let n = find_key(y, x[i].0.as_str());
        if n >= y.len() || !x[i].1.equals(&y[n].1) {
            assert(!covered(xs, ys, xs.len() as int)) by {
                let n = position_of(ys, xs[i as int].0);
            }
            return false;
        }
        i += 1;
    }
    let mut j: usize = 0;
    while j < y.len()
        invariant
            j <= y.len(),
            xs == entries(x@),
            ys == entries(y@),
            xs.len() == x.len(),
            ys.len() == y.len(),
            covered(xs, ys, xs.len() as int),
            covering(xs, ys, j as int),
        decreases y.len() - j,
    {
        let n = find_key(x, y[j].0.as_str());
        if n >= x.len() || !x[n].1.equals(&y[j].1) {
            assert(!covering(xs, ys, ys.len() as int)) by {
                let n = position_of(xs, ys[j as int].0);
            }
            return false;
        }
        j += 1;
    }
    true
}

impl DataType {
    /// Decides the equality of the language.
    pub fn equals(&self, other: &DataType) -> (r: bool)
        ensures
            r == value_eq(self@, other@),
        decreases self, 0int,
    {
        match (self, other) {
            (DataType::Nil(), DataType::Nil()) => true,
            (DataType::Comment(), DataType::Comment()) => true,
            (DataType::List(x), DataType::List(y)) => sequences_equal(x, y),
            (DataType::Vector(x), DataType::Vector(y)) => sequences_equal(x, y),
            (DataType::Dictionary(x), DataType::Dictionary(y)) => {
                proof {
                    lemma_dictionary_eq(entries(x@), entries(y@));
                }
                dictionaries_equal(x, y)
            },
            (DataType::Symbol(x), DataType::Symbol(y)) => same_text(x.as_str(), y.as_str()),
            (DataType::Integer(x), DataType::Integer(y)) => *x == *y,
            (DataType::Bool(x), DataType::Bool(y)) => *x == *y,
            (DataType::Float(x), DataType::Float(y)) => floats_equal(x, y),
            (DataType::String(x), DataType::String(y)) => same_text(x.as_str(), y.as_str()),
            (DataType::Closure(f), DataType::Closure(g)) => f.env == g.env && f.is_macro
                == g.is_macro,
            (DataType::NativeFunction(x), DataType::NativeFunction(y)) => *x == *y,
            (DataType::Atom(x), DataType::Atom(y)) => *x == *y,
            _ => false,
        }
    }
}





/// Where `position_of` points there is an entry with the key, and no entry
/// before it has the key.
pub proof fn lemma_position_found(s: Seq<(Seq<char>, Value)>, key: Seq<char>)
    ensures
        position_of(s, key) <= s.len(),
        position_of(s, key) < s.len() ==> s[position_of(s, key) as int].0 == key,
        forall|k: int| 0 <= k < position_of(s, key) ==> (#[trigger] s[k]).0 != key,
    decreases s.len(),
{
    if s.len() > 0 && s[0].0 != key {
        let rest = s.drop_first();
        lemma_position_found(rest, key);
        assert forall|k: int| 0 <= k < position_of(s, key) implies (#[trigger] s[k]).0 != key by {
            if k > 0 {
                assert(rest[k - 1] == s[k]);
            }
        }
    }
}

/// Whether no two entries of a dictionary share a key.
pub open spec fn distinct_keys(s: Seq<(Seq<char>, Value)>) -> bool {
    forall|i: int, j: int| 0 <= i < j < s.len() ==> (#[trigger] s[i]).0 != (#[trigger] s[j]).0
}

/// Putting a value under a key keeps the keys of a dictionary distinct.
pub proof fn lemma_with_entry_keeps_keys_distinct(
    s: Seq<(Seq<char>, Value)>,
    key: Seq<char>,
    value: Value,
)
    requires
        distinct_keys(s),
    ensures
        distinct_keys(with_entry(s, key, value)),
{
    lemma_position_found(s, key);
    let after = with_entry(s, key, value);
    let at = position_of(s, key) as int;
    assert forall|i: int, j: int| 0 <= i < j < after.len() implies (#[trigger] after[i]).0 != (
    #[trigger] after[j]).0 by {
        if at < s.len() {
            assert(after[i].0 == s[i].0 && after[j].0 == s[j].0);
        } else {
            if j < s.len() {
                assert(after[i] == s[i] && after[j] == s[j]);
            } else {
                assert(after[i] == s[i]);
            }
        }
    }
}

/// Whether a value can be compared with itself: its dictionaries hold each
/// key once and none of its floats is the host's "not a number".
pub open spec fn comparable(v: Value) -> bool
    decreases v,
{
    match v {
        Value::List(x) => forall|i: int| 0 <= i < x.len() ==> comparable(#[trigger] x[i]),
        Value::Vector(x) => forall|i: int| 0 <= i < x.len() ==> comparable(#[trigger] x[i]),
        Value::Dictionary(x) => {
            &&& distinct_keys(x)
            &&& forall|i: int| #![trigger x[i]] 0 <= i < x.len() ==> comparable(x[i].1)
        },
        Value::Float(t) => !is_nan_text(t),
        _ => true,
    }
}

/// `=` is reflexive: every comparable value equals itself.
pub proof fn lemma_value_eq_reflexive(a: Value)
    requires
        comparable(a),
    ensures
        value_eq(a, a),
    decreases a,
{
    match a {
        Value::List(x) => {
            assert forall|i: int| 0 <= i < x.len() implies value_eq(#[trigger] x[i], x[i]) by {
                lemma_value_eq_reflexive(x[i]);
            }
        },
        Value::Vector(x) => {
            assert forall|i: int| 0 <= i < x.len() implies value_eq(#[trigger] x[i], x[i]) by {
                lemma_value_eq_reflexive(x[i]);
            }
        },
        Value::Dictionary(x) => {
            assert forall|i: int|
                #![trigger position_of(x, x[i].0)]
                0 <= i < x.len() implies position_of(x, x[i].0) == i && value_eq(
                x[i].1,
                x[i].1,
            ) by {
                lemma_position_of(x, x[i].0, i);
                lemma_value_eq_reflexive(x[i].1);
            }
        },
        _ => {},
    }
}

/// `=` is symmetric.
pub proof fn lemma_value_eq_symmetric(a: Value, b: Value)
    requires
        value_eq(a, b),
    ensures
        value_eq(b, a),
    decreases a,
{
    match (a, b) {
        (Value::List(x), Value::List(y)) => {
            assert forall|i: int| 0 <= i < y.len() implies value_eq(#[trigger] y[i], x[i]) by {
                let item = x[i];
                lemma_value_eq_symmetric(x[i], y[i]);
            }
        },
        (Value::Vector(x), Value::Vector(y)) => {
            assert forall|i: int| 0 <= i < y.len() implies value_eq(#[trigger] y[i], x[i]) by {
                let item = x[i];
                lemma_value_eq_symmetric(x[i], y[i]);
            }
        },
        (Value::Dictionary(x), Value::Dictionary(y)) => {
            assert forall|j: int| #![trigger position_of(x, y[j].0)] 0 <= j < y.len() implies ({
                let i = position_of(x, y[j].0) as int;
                i < x.len() && value_eq(y[j].1, x[i].1)
            }) by {
                let i = position_of(x, y[j].0) as int;
                lemma_value_eq_symmetric(x[i].1, y[j].1);
            }
            assert forall|i: int| #![trigger position_of(y, x[i].0)] 0 <= i < x.len() implies ({
                let j = position_of(y, x[i].0) as int;
                j < y.len() && value_eq(y[j].1, x[i].1)
            }) by {
                let j = position_of(y, x[i].0) as int;
                lemma_value_eq_symmetric(x[i].1, y[j].1);
            }
        },
        _ => {},
    }
}

/// `=` is transitive.
pub proof fn lemma_value_eq_transitive(a: Value, b: Value, c: Value)
    requires
        value_eq(a, b),
        value_eq(b, c),
    ensures
        value_eq(a, c),
    decreases a,
{
    match (a, b, c) {
        (Value::List(x), Value::List(y), Value::List(z)) => {
            assert forall|i: int| 0 <= i < x.len() implies value_eq(#[trigger] x[i], z[i]) by {
                let item = y[i];
                lemma_value_eq_transitive(x[i], y[i], z[i]);
            }
        },
        (Value::Vector(x), Value::Vector(y), Value::Vector(z)) => {
            assert forall|i: int| 0 <= i < x.len() implies value_eq(#[trigger] x[i], z[i]) by {
                let item = y[i];
                lemma_value_eq_transitive(x[i], y[i], z[i]);
            }
        },
        (Value::Dictionary(x), Value::Dictionary(y), Value::Dictionary(z)) => {
            assert forall|i: int| #![trigger position_of(z, x[i].0)] 0 <= i < x.len() implies ({
                let k = position_of(z, x[i].0) as int;
                k < z.len() && value_eq(x[i].1, z[k].1)
            }) by {
                let j = position_of(y, x[i].0) as int;
                lemma_position_found(y, x[i].0);
                let middle = y[j];
                let k = position_of(z, y[j].0) as int;
                lemma_value_eq_transitive(x[i].1, y[j].1, z[k].1);
            }
            assert forall|k: int| #![trigger position_of(x, z[k].0)] 0 <= k < z.len() implies ({
                let i = position_of(x, z[k].0) as int;
                i < x.len() && value_eq(x[i].1, z[k].1)
            }) by {
                let j = position_of(y, z[k].0) as int;
                lemma_position_found(y, z[k].0);
                let middle = y[j];
                let i = position_of(x, y[j].0) as int;
                lemma_value_eq_transitive(x[i].1, y[j].1, z[k].1);
            }
        },
        _ => {},
    }
}



/// How one character of a string is written in the print form.
pub open spec fn escape_char(c: char) -> Seq<char> {
    if c == '\n' {
        seq!['\\', 'n']
    } else if c == '\\' {
        seq!['\\', '\\']
    } else if c == '"' {
        seq!['\\', '"']
    } else {
        seq![c]
    }
}

/// A text with its newlines, backslashes and double quotes escaped.
pub open spec fn escaped(s: Seq<char>) -> Seq<char>
    decreases s.len(),
{
    if s.len() == 0 {
        Seq::empty()
    } else {
        escaped(s.drop_last()) + escape_char(s.last())
    }
}

/// A text escaped and put between double quotes.
pub open spec fn quoted(s: Seq<char>) -> Seq<char> {
    seq!['"'] + escaped(s) + seq!['"']
}

/// The print forms of the first `n` items of a list or vector, separated by
/// single spaces.
pub open spec fn print_items(x: Seq<Value>, n: nat) -> Seq<char>
    decreases x, n,
{
    if n == 0 || n > x.len() {
        Seq::empty()
    } else if n == 1 {
        print_form(x[0])
    } else {
        print_items(x, (n - 1) as nat) + " "@ + print_form(x[n - 1])
    }
}

/// The print forms of the first `n` entries of a dictionary, separated by a
/// comma and a space; an entry is its key, a colon and a space, then the
/// value.
pub open spec fn print_entries(x: Seq<(Seq<char>, Value)>, n: nat) -> Seq<char>
    decreases x, n,
{
    if n == 0 || n > x.len() {
        Seq::empty()
    } else if n == 1 {
        x[0].0 + ": "@ + print_form(x[0].1)
    } else {
        print_entries(x, (n - 1) as nat) + ", "@ + x[n - 1].0 + ": "@ + print_form(x[n - 1].1)
    }
}

/// The canonical print form of a value.
pub open spec fn print_form(v: Value) -> Seq<char>
    decreases v, 0nat,
{
    match v {
        Value::Nil => "nil"@,
        Value::Bool(b) => if b {
            "true"@
        } else {
            "false"@
        },
        Value::Integer(i) => decimal(i),
        Value::Float(t) => t,
        Value::Str(s) => quoted(s),
        Value::Symbol(s) => s,
        Value::Comment => Seq::empty(),
        Value::List(x) => seq!['('] + print_items(x, x.len()) + seq![')'],
        Value::Vector(x) => seq!['['] + print_items(x, x.len()) + seq![']'],
        Value::Dictionary(x) => seq!['{'] + print_entries(x, x.len()) + seq!['}'],
        Value::Closure(c) => "Closure("@ + decimal(c.env as int) + ")"@,
        Value::NativeFunction(id) => "Fn"@ + decimal(id),
        Value::Atom(cell) => "Atom("@ + decimal(cell as int) + ")"@,
    }
}

/// Appends a text, escaped and quoted, to `out`.
pub fn push_quoted(out: &mut Vec<char>, s: &str)
    ensures
        final(out)@ == old(out)@ + quoted(s@),
{
    let chars = crate::text::chars_of(s);
    out.push('"');
    let mut i: usize = 0;
    while i < chars.len()
        invariant
            i <= chars.len(),
            chars@ == s@,
            out@ == old(out)@ + seq!['"'] + escaped(chars@.subrange(0, i as int)),
        decreases chars.len() - i,
    {
        let c = chars[i];
        let ghost before = out@;
        if c == '\n' {
            out.push('\\');
            out.push('n');
        } else if c == '\\' {
            out.push('\\');
            out.push('\\');
        } else if c == '"' {
            out.push('\\');
            out.push('"');
        } else {
            out.push(c);
        }
        assert(out@ =~= before + escape_char(c));
        i += 1;
        assert(chars@.subrange(0, i as int).drop_last() =~= chars@.subrange(0, i - 1));
        assert(out@ =~= old(out)@ + seq!['"'] + escaped(chars@.subrange(0, i as int)));
    }
    assert(chars@.subrange(0, chars.len() as int) =~= chars@);
    out.push('"');
    assert(out@ =~= old(out)@ + quoted(s@));
}

fn write_items(items: &Vec<DataType>, out: &mut Vec<char>)
    ensures
        final(out)@ == old(out)@ + print_items(values(items@), items.len() as nat),
    decreases items, 1int,
{
    let ghost x = values(items@);
    let mut i: usize = 0;
    while i < items.len()
        invariant
            i <= items.len(),
            x == values(items@),
            x.len() == items.len(),
            out@ == old(out)@ + print_items(x, i as nat),
        decreases items.len() - i,
    {
        if i > 0 {
            push_text(out, " ");
        }
        items[i].write_to(out);
        assert(x[i as int] == items@[i as int]@);
        i += 1;
        assert(out@ =~= old(out)@ + print_items(x, i as nat));
    }
}

fn write_entries(pairs: &Vec<(String, DataType)>, out: &mut Vec<char>)
    ensures
        final(out)@ == old(out)@ + print_entries(entries(pairs@), pairs.len() as nat),
    decreases pairs, 1int,
{
    let ghost x = entries(pairs@);
    let mut i: usize = 0;
    while i < pairs.len()
        invariant
            i <= pairs.len(),
            x == entries(pairs@),
            x.len() == pairs.len(),
            out@ == old(out)@ + print_entries(x, i as nat),
        decreases pairs.len() - i,
    {
        if i > 0 {
            push_text(out, ", ");
        }
        push_text(out, pairs[i].0.as_str());
        push_text(out, ": ");
        pairs[i].1.write_to(out);
        assert(x[i as int] == (pairs@[i as int].0@, pairs@[i as int].1@));
        i += 1;
        assert(out@ =~= old(out)@ + print_entries(x, i as nat));
    }
}

impl DataType {
    /// Appends the canonical print form of this value to `out`.
    pub fn write_to(&self, out: &mut Vec<char>)
        ensures
            final(out)@ == old(out)@ + print_form(self@),
        decreases self, 0int,
    {
        match self {
            DataType::Nil() => push_text(out, "nil"),
            DataType::Bool(b) => {
                if *b {
                    push_text(out, "true")
                } else {
                    push_text(out, "false")
                }
            },
            DataType::Integer(i) => push_decimal(out, *i),
            DataType::Float(text) => push_text(out, text.as_str()),
            DataType::String(text) => push_quoted(out, text.as_str()),
            DataType::Symbol(name) => push_text(out, name.as_str()),
            DataType::Comment() => {
                assert(out@ =~= old(out)@ + Seq::<char>::empty());
            },
            DataType::List(items) => {
                out.push('(');
                write_items(items, out);
                out.push(')');
                assert(out@ =~= old(out)@ + print_form(self@));
            },
            DataType::Vector(items) => {
                out.push('[');
                write_items(items, out);
                out.push(']');
                assert(out@ =~= old(out)@ + print_form(self@));
            },
            DataType::Dictionary(pairs) => {
                out.push('{');
                write_entries(pairs, out);
                out.push('}');
                assert(out@ =~= old(out)@ + print_form(self@));
            },
            DataType::Closure(closure) => {
                push_text(out, "Closure(");
                push_digits(out, closure.env as u128);
                push_text(out, ")");
                assert(out@ =~= old(out)@ + print_form(self@));
            },
            DataType::NativeFunction(id) => {
                push_text(out, "Fn");
                push_decimal(out, *id as i128);
                assert(out@ =~= old(out)@ + print_form(self@));
            },
            DataType::Atom(cell) => {
                push_text(out, "Atom(");
                push_digits(out, *cell as u128);
                push_text(out, ")");
                assert(out@ =~= old(out)@ + print_form(self@));
            },
        }
    }

    /// The canonical print form of this value.
    pub fn print(&self) -> (s: String)
        ensures
            s@ == print_form(self@),
    {
        let mut out: Vec<char> = Vec::new();
        self.write_to(&mut out);
        assert(out@ =~= print_form(self@));
        crate::text::string_of(&out)
    }
}


impl PartialEq for DataType {
    fn eq(&self, other: &Self) -> (r: bool) {
        self.equals(other)
    }
}

impl vstd::std_specs::cmp::PartialEqSpecImpl for DataType {
    open spec fn obeys_eq_spec() -> bool {
        true
    }

    open spec fn eq_spec(&self, other: &Self) -> bool {
        value_eq(self@, other@)
    }
}

} // verus!
