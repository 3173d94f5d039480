//! The shape every state of the machine keeps: frames and cells that are
//! named exist, a frame lies inside an older one, and a dictionary holds each
//! key once.

use vstd::prelude::*;

use crate::env::{
    flattened, is_arithmetic, is_ordering, is_plain, items_of, lemma_paired_keeps_keys_distinct,
    lemma_removed_keeps_keys_distinct, paired, plain_result, removed, without_key, APPLY, ASSOC,
    ATOM, CONCAT, CONS, DEREF, DICTIONARY, DISSOC, FIRST, GET, KEYS, MAP_ITEMS, MODULO, NTH,
    READ_STR, RESET_ATOM, REST, SWAP_ATOM, VALUES,
};
use crate::machine::{
    bound, branch_of, lookup, spread, template_of, ContinuationModel, ControlModel, EventModel,
    Frame, Scope, State, Template,
};
use crate::reader::{
    compiled, lemma_read_entries_keys_distinct, read_atom, read_entries, read_form, read_items,
    read_text, tokens_of, REGEX_TOKEN_EXP,
};
use crate::variable_type::{
    comparable, distinct_keys, is_nan_text, lemma_position_found, lemma_value_eq_reflexive,
    position_of, print_form, value_eq, with_entry, ClosureValue, Value,
};

verus! {

/// Whether a value names only frames below `frames` and cells below `cells`,
/// and its dictionaries hold each key once.
pub open spec fn value_ok(v: Value, frames: nat, cells: nat) -> bool
    decreases v,
{
    match v {
        Value::List(x) => forall|i: int|
            0 <= i < x.len() ==> value_ok(#[trigger] x[i], frames, cells),
        Value::Vector(x) => forall|i: int|
            0 <= i < x.len() ==> value_ok(#[trigger] x[i], frames, cells),
        Value::Dictionary(x) => {
            &&& distinct_keys(x)
            &&& forall|i: int| #![trigger x[i]] 0 <= i < x.len() ==> value_ok(x[i].1, frames, cells)
        },
        Value::Closure(c) => c.env < frames && c.repl_env < frames && value_ok(
            *c.ast,
            frames,
            cells,
        ),
        Value::Atom(cell) => cell < cells,
        _ => true,
    }
}

/// Whether all values of a sequence are in shape.
pub open spec fn values_ok(x: Seq<Value>, frames: nat, cells: nat) -> bool {
    forall|i: int| 0 <= i < x.len() ==> value_ok(#[trigger] x[i], frames, cells)
}

/// Whether all values of a sequence of entries are in shape.
pub open spec fn entries_ok(x: Seq<(Seq<char>, Value)>, frames: nat, cells: nat) -> bool {
    forall|i: int| #![trigger x[i]] 0 <= i < x.len() ==> value_ok(x[i].1, frames, cells)
}

/// Whether the frames of a scope exist.
pub open spec fn scope_ok(scope: Scope, frames: nat) -> bool {
    scope.env < frames && scope.root < frames
}

/// Whether frame `i` lies inside an older frame, if inside any, and binds
/// values that are in shape.
pub open spec fn frame_ok(frame: Frame, i: int, frames: nat, cells: nat) -> bool {
    &&& frame.outer matches Some(outer) ==> outer < i
    &&& entries_ok(frame.data, frames, cells)
}

/// Whether a continuation holds values and scopes that are in shape.  The
/// values done for a dictionary stand under the first keys of the
/// dictionary.
pub open spec fn continuation_ok(k: ContinuationModel, frames: nat, cells: nat) -> bool {
    match k {
        ContinuationModel::Def(name, env) => env < frames,
        ContinuationModel::DefMacro(name, env) => env < frames,
        ContinuationModel::Let(bindings, index, body, scope) => {
            &&& values_ok(bindings, frames, cells)
            &&& value_ok(body, frames, cells)
            &&& scope_ok(scope, frames)
        },
        ContinuationModel::Do(forms, index, scope) => values_ok(forms, frames, cells) && scope_ok(
            scope,
            frames,
        ),
        ContinuationModel::If(args, scope) => values_ok(args, frames, cells) && scope_ok(
            scope,
            frames,
        ),
        ContinuationModel::TryHandler(body, scope) => value_ok(body, frames, cells) && scope_ok(
            scope,
            frames,
        ),
        ContinuationModel::TryBody(handler) => value_ok(Value::Closure(handler), frames, cells),
        ContinuationModel::EvalArg(root) => root < frames,
        ContinuationModel::Head(children, scope) => values_ok(children, frames, cells)
            && scope_ok(scope, frames),
        ContinuationModel::Expand(scope) => scope_ok(scope, frames),
        ContinuationModel::Args(forms, done, scope) => {
            &&& values_ok(forms, frames, cells)
            &&& values_ok(done, frames, cells)
            &&& scope_ok(scope, frames)
        },
        ContinuationModel::Items(forms, done, scope) => {
            &&& values_ok(forms, frames, cells)
            &&& values_ok(done, frames, cells)
            &&& scope_ok(scope, frames)
        },
        ContinuationModel::Entries(pairs, done, scope) => {
            &&& entries_ok(pairs, frames, cells)
            &&& entries_ok(done, frames, cells)
            &&& distinct_keys(pairs)
            &&& done.len() <= pairs.len()
            &&& forall|i: int| 0 <= i < done.len() ==> (#[trigger] done[i]).0 == pairs[i].0
            &&& scope_ok(scope, frames)
        },
        ContinuationModel::Quasi(items, index, result, splice, scope) => {
            &&& values_ok(items, frames, cells)
            &&& values_ok(result, frames, cells)
            &&& scope_ok(scope, frames)
        },
        ContinuationModel::Swap(cell) => cell < cells,
        ContinuationModel::MapItems(function, items, index, results) => {
            &&& value_ok(function, frames, cells)
            &&& values_ok(items, frames, cells)
            &&& values_ok(results, frames, cells)
        },
    }
}

/// Whether a control holds values and a scope that are in shape.
pub open spec fn control_ok(control: ControlModel, frames: nat, cells: nat) -> bool {
    match control {
        ControlModel::Eval(ast, scope) => value_ok(ast, frames, cells) && scope_ok(scope, frames),
        ControlModel::Apply(function, args) => value_ok(function, frames, cells) && values_ok(
            args,
            frames,
            cells,
        ),
        ControlModel::Return(value) => value_ok(value, frames, cells),
        ControlModel::Raise(msg) => true,
        ControlModel::Wait(action) => true,
    }
}

/// Whether the frames are in shape.
pub open spec fn frames_ok(fs: Seq<Frame>, frames: nat, cells: nat) -> bool {
    forall|i: int| 0 <= i < fs.len() ==> frame_ok(#[trigger] fs[i], i, frames, cells)
}

/// Whether the continuations are in shape.
pub open spec fn stack_ok(stack: Seq<ContinuationModel>, frames: nat, cells: nat) -> bool {
    forall|i: int| 0 <= i < stack.len() ==> continuation_ok(#[trigger] stack[i], frames, cells)
}

/// Whether everything but the control of a state is in shape.
pub open spec fn store_ok(st: State) -> bool {
    &&& st.frames.len() <= usize::MAX
    &&& st.cells.len() <= usize::MAX
    &&& frames_ok(st.frames, st.frames.len(), st.cells.len())
    &&& values_ok(st.cells, st.frames.len(), st.cells.len())
    &&& stack_ok(st.stack, st.frames.len(), st.cells.len())
}

/// Whether a state is in shape: every frame and cell that is named exists,
/// every frame lies inside an older one or in none, and every dictionary
/// holds each key once.
pub open spec fn state_ok(st: State) -> bool {
    store_ok(st) && control_ok(st.control, st.frames.len(), st.cells.len())
}

/// Whether no float inside the data of a value is the host's "not a number".
pub open spec fn free_of_nan(v: Value) -> bool
    decreases v,
{
    match v {
        Value::List(x) => forall|i: int| 0 <= i < x.len() ==> free_of_nan(#[trigger] x[i]),
        Value::Vector(x) => forall|i: int| 0 <= i < x.len() ==> free_of_nan(#[trigger] x[i]),
        Value::Dictionary(x) => forall|i: int|
            #![trigger x[i]]
            0 <= i < x.len() ==> free_of_nan(x[i].1),
        Value::Float(t) => !is_nan_text(t),
        _ => true,
    }
}

/// A value in shape equals itself, unless it holds a float that is not a
/// number.
pub proof fn lemma_value_in_shape_equals_itself(v: Value, frames: nat, cells: nat)
    requires
        value_ok(v, frames, cells),
        free_of_nan(v),
    ensures
        comparable(v),
        value_eq(v, v),
{
    lemma_value_in_shape_is_comparable(v, frames, cells);
    lemma_value_eq_reflexive(v);
}

/// A value in shape without a float that is not a number is comparable.
pub proof fn lemma_value_in_shape_is_comparable(v: Value, frames: nat, cells: nat)
    requires
        value_ok(v, frames, cells),
        free_of_nan(v),
    ensures
        comparable(v),
    decreases v,
{
    match v {
        Value::List(x) => {
            assert forall|i: int| 0 <= i < x.len() implies comparable(#[trigger] x[i]) by {
                lemma_value_in_shape_is_comparable(x[i], frames, cells);
            }
        },
        Value::Vector(x) => {
            assert forall|i: int| 0 <= i < x.len() implies comparable(#[trigger] x[i]) by {
                lemma_value_in_shape_is_comparable(x[i], frames, cells);
            }
        },
        Value::Dictionary(x) => {
            assert forall|i: int| #![trigger x[i]] 0 <= i < x.len() implies comparable(
                x[i].1,
            ) by {
                lemma_value_in_shape_is_comparable(x[i].1, frames, cells);
            }
        },
        _ => {},
    }
}

/// A value in shape stays in shape when frames and cells are added.
pub proof fn lemma_value_ok_grows(v: Value, frames: nat, cells: nat, more: nat, wider: nat)
    requires
        value_ok(v, frames, cells),
        frames <= more,
        cells <= wider,
    ensures
        value_ok(v, more, wider),
    decreases v,
{
    match v {
        Value::List(x) => {
            assert forall|i: int| 0 <= i < x.len() implies value_ok(
                #[trigger] x[i],
                more,
                wider,
            ) by {
                lemma_value_ok_grows(x[i], frames, cells, more, wider);
            }
        },
        Value::Vector(x) => {
            assert forall|i: int| 0 <= i < x.len() implies value_ok(
                #[trigger] x[i],
                more,
                wider,
            ) by {
                lemma_value_ok_grows(x[i], frames, cells, more, wider);
            }
        },
        Value::Dictionary(x) => {
            assert forall|i: int| #![trigger x[i]] 0 <= i < x.len() implies value_ok(
                x[i].1,
                more,
                wider,
            ) by {
                lemma_value_ok_grows(x[i].1, frames, cells, more, wider);
            }
        },
        Value::Closure(c) => {
            lemma_value_ok_grows(*c.ast, frames, cells, more, wider);
        },
        _ => {},
    }
}

/// Values in shape stay in shape when frames and cells are added.
pub proof fn lemma_values_ok_grow(x: Seq<Value>, frames: nat, cells: nat, more: nat, wider: nat)
    requires
        values_ok(x, frames, cells),
        frames <= more,
        cells <= wider,
    ensures
        values_ok(x, more, wider),
{
    assert forall|i: int| 0 <= i < x.len() implies value_ok(#[trigger] x[i], more, wider) by {
        lemma_value_ok_grows(x[i], frames, cells, more, wider);
    }
}

/// Entries in shape stay in shape when frames and cells are added.
pub proof fn lemma_entries_ok_grow(
    x: Seq<(Seq<char>, Value)>,
    frames: nat,
    cells: nat,
    more: nat,
    wider: nat,
)
    requires
        entries_ok(x, frames, cells),
        frames <= more,
        cells <= wider,
    ensures
        entries_ok(x, more, wider),
{
    assert forall|i: int| #![trigger x[i]] 0 <= i < x.len() implies value_ok(
        x[i].1,
        more,
        wider,
    ) by {
        lemma_value_ok_grows(x[i].1, frames, cells, more, wider);
    }
}

/// A continuation in shape stays in shape when frames and cells are added.
pub proof fn lemma_continuation_ok_grows(
    k: ContinuationModel,
    frames: nat,
    cells: nat,
    more: nat,
    wider: nat,
)
    requires
        continuation_ok(k, frames, cells),
        frames <= more,
        cells <= wider,
    ensures
        continuation_ok(k, more, wider),
{
    match k {
        ContinuationModel::Let(bindings, index, body, scope) => {
            lemma_values_ok_grow(bindings, frames, cells, more, wider);
            lemma_value_ok_grows(body, frames, cells, more, wider);
        },
        ContinuationModel::Do(forms, index, scope) => {
            lemma_values_ok_grow(forms, frames, cells, more, wider);
        },
        ContinuationModel::If(args, scope) => {
            lemma_values_ok_grow(args, frames, cells, more, wider);
        },
        ContinuationModel::TryHandler(body, scope) => {
            lemma_value_ok_grows(body, frames, cells, more, wider);
        },
        ContinuationModel::TryBody(handler) => {
            lemma_value_ok_grows(Value::Closure(handler), frames, cells, more, wider);
        },
        ContinuationModel::Head(children, scope) => {
            lemma_values_ok_grow(children, frames, cells, more, wider);
        },
        ContinuationModel::Args(forms, done, scope) => {
            lemma_values_ok_grow(forms, frames, cells, more, wider);
            lemma_values_ok_grow(done, frames, cells, more, wider);
        },
        ContinuationModel::Items(forms, done, scope) => {
            lemma_values_ok_grow(forms, frames, cells, more, wider);
            lemma_values_ok_grow(done, frames, cells, more, wider);
        },
        ContinuationModel::Entries(pairs, done, scope) => {
            lemma_entries_ok_grow(pairs, frames, cells, more, wider);
            lemma_entries_ok_grow(done, frames, cells, more, wider);
        },
        ContinuationModel::Quasi(items, index, result, splice, scope) => {
            lemma_values_ok_grow(items, frames, cells, more, wider);
            lemma_values_ok_grow(result, frames, cells, more, wider);
        },
        ContinuationModel::MapItems(function, items, index, results) => {
            lemma_value_ok_grows(function, frames, cells, more, wider);
            lemma_values_ok_grow(items, frames, cells, more, wider);
            lemma_values_ok_grow(results, frames, cells, more, wider);
        },
        _ => {},
    }
}


/// A store in shape stays in shape when an empty frame is added inside an
/// existing one.
pub proof fn lemma_store_with_frame(st: State, outer: usize)
    requires
        store_ok(st),
        outer < st.frames.len(),
        st.frames.len() < usize::MAX,
    ensures
        store_ok(st.with_frame(outer)),
{
    let next = st.with_frame(outer);
    let frames = st.frames.len();
    let cells = st.cells.len();
    assert forall|i: int| 0 <= i < next.frames.len() implies frame_ok(
        #[trigger] next.frames[i],
        i,
        next.frames.len(),
        cells,
    ) by {
        if i < frames {
            assert(next.frames[i] == st.frames[i]);
            assert(frame_ok(st.frames[i], i, frames, cells));
            lemma_entries_ok_grow(st.frames[i].data, frames, cells, frames + 1, cells);
        }
    }
    lemma_values_ok_grow(st.cells, frames, cells, frames + 1, cells);
    assert forall|i: int| 0 <= i < next.stack.len() implies continuation_ok(
        #[trigger] next.stack[i],
        next.frames.len(),
        cells,
    ) by {
        lemma_continuation_ok_grows(st.stack[i], frames, cells, frames + 1, cells);
    }
}

/// A store in shape stays in shape when a cell with a value in shape is
/// added.
pub proof fn lemma_store_with_cell(st: State, value: Value)
    requires
        store_ok(st),
        value_ok(value, st.frames.len(), st.cells.len()),
        st.cells.len() < usize::MAX,
    ensures
        store_ok(State { cells: st.cells.push(value), ..st }),
{
    let next = State { cells: st.cells.push(value), ..st };
    let frames = st.frames.len();
    let cells = st.cells.len();
    assert forall|i: int| 0 <= i < next.frames.len() implies frame_ok(
        #[trigger] next.frames[i],
        i,
        frames,
        cells + 1,
    ) by {
        assert(frame_ok(st.frames[i], i, frames, cells));
        lemma_entries_ok_grow(st.frames[i].data, frames, cells, frames, cells + 1);
    }
    assert forall|i: int| 0 <= i < next.cells.len() implies value_ok(
        #[trigger] next.cells[i],
        frames,
        cells + 1,
    ) by {
        if i < cells {
            assert(next.cells[i] == st.cells[i]);
            lemma_value_ok_grows(st.cells[i], frames, cells, frames, cells + 1);
        } else {
            lemma_value_ok_grows(value, frames, cells, frames, cells + 1);
        }
    }
    assert forall|i: int| 0 <= i < next.stack.len() implies continuation_ok(
        #[trigger] next.stack[i],
        frames,
        cells + 1,
    ) by {
        lemma_continuation_ok_grows(st.stack[i], frames, cells, frames, cells + 1);
    }
}

/// A store in shape stays in shape when a cell takes a value in shape.
pub proof fn lemma_store_with_cell_set(st: State, cell: int, value: Value)
    requires
        store_ok(st),
        0 <= cell < st.cells.len(),
        value_ok(value, st.frames.len(), st.cells.len()),
    ensures
        store_ok(State { cells: st.cells.update(cell, value), ..st }),
{
    let next = State { cells: st.cells.update(cell, value), ..st };
    assert forall|i: int| 0 <= i < next.cells.len() implies value_ok(
        #[trigger] next.cells[i],
        st.frames.len(),
        st.cells.len(),
    ) by {
        if i != cell {
            assert(next.cells[i] == st.cells[i]);
        }
    }
}

/// Entries in shape stay in shape when a value in shape is put in.
pub proof fn lemma_with_entry_ok(
    data: Seq<(Seq<char>, Value)>,
    name: Seq<char>,
    value: Value,
    frames: nat,
    cells: nat,
)
    requires
        entries_ok(data, frames, cells),
        value_ok(value, frames, cells),
    ensures
        entries_ok(with_entry(data, name, value), frames, cells),
{
    let after = with_entry(data, name, value);
    let at = position_of(data, name) as int;
    lemma_position_found(data, name);
    assert forall|i: int| #![trigger after[i]] 0 <= i < after.len() implies value_ok(
        after[i].1,
        frames,
        cells,
    ) by {
        if i != at {
            assert(after[i] == data[i]);
        }
    }
}

/// A store in shape stays in shape when a frame that exists binds a value in
/// shape.
pub proof fn lemma_store_bind(st: State, env: usize, name: Seq<char>, value: Value)
    requires
        store_ok(st),
        env < st.frames.len(),
        value_ok(value, st.frames.len(), st.cells.len()),
    ensures
        store_ok(st.bind(env, name, value)),
{
    let next = st.bind(env, name, value);
    assert forall|i: int| 0 <= i < next.frames.len() implies frame_ok(
        #[trigger] next.frames[i],
        i,
        st.frames.len(),
        st.cells.len(),
    ) by {
        assert(frame_ok(st.frames[i], i, st.frames.len(), st.cells.len()));
        if i == env {
            lemma_with_entry_ok(
                st.frames[i].data,
                name,
                value,
                st.frames.len(),
                st.cells.len(),
            );
        } else {
            assert(next.frames[i] == st.frames[i]);
        }
    }
}

/// A store in shape stays in shape when a continuation in shape is pushed.
pub proof fn lemma_store_pushed(st: State, k: ContinuationModel)
    requires
        store_ok(st),
        continuation_ok(k, st.frames.len(), st.cells.len()),
    ensures
        store_ok(st.pushed(k)),
{
    let next = st.pushed(k);
    assert forall|i: int| 0 <= i < next.stack.len() implies continuation_ok(
        #[trigger] next.stack[i],
        st.frames.len(),
        st.cells.len(),
    ) by {
        if i < st.stack.len() {
            assert(next.stack[i] == st.stack[i]);
        }
    }
}

/// A store in shape stays in shape when its top continuation, which is in
/// shape, is taken off.
pub proof fn lemma_store_popped(st: State)
    requires
        store_ok(st),
        st.stack.len() > 0,
    ensures
        store_ok(st.popped()),
        continuation_ok(st.stack.last(), st.frames.len(), st.cells.len()),
{
    let next = st.popped();
    assert forall|i: int| 0 <= i < next.stack.len() implies continuation_ok(
        #[trigger] next.stack[i],
        st.frames.len(),
        st.cells.len(),
    ) by {
        assert(next.stack[i] == st.stack[i]);
    }
}

/// What a name resolves to in a store in shape is in shape.
pub proof fn lemma_lookup_ok(st: State, env: usize, name: Seq<char>)
    requires
        store_ok(st),
        lookup(st.frames, env, name) is Some,
    ensures
        value_ok(lookup(st.frames, env, name)->Some_0, st.frames.len(), st.cells.len()),
    decreases env,
{
    if env < st.frames.len() {
        let frame = st.frames[env as int];
        assert(frame_ok(frame, env as int, st.frames.len(), st.cells.len()));
        let at = position_of(frame.data, name) as int;
        if at < frame.data.len() {
            let entry = frame.data[at];
        } else {
            match frame.outer {
                Some(outer) => {
                    if outer < env {
                        lemma_lookup_ok(st, outer, name);
                    }
                },
                None => {},
            }
        }
    }
}

/// The items of values in shape from some position on are in shape.
pub proof fn lemma_skip_ok(x: Seq<Value>, k: int, frames: nat, cells: nat)
    requires
        values_ok(x, frames, cells),
        0 <= k <= x.len(),
    ensures
        values_ok(x.skip(k), frames, cells),
{
    assert forall|i: int| 0 <= i < x.skip(k).len() implies value_ok(
        #[trigger] x.skip(k)[i],
        frames,
        cells,
    ) by {
        assert(x.skip(k)[i] == x[i + k]);
    }
}

/// Values in shape with one more value in shape are in shape.
pub proof fn lemma_push_ok(x: Seq<Value>, v: Value, frames: nat, cells: nat)
    requires
        values_ok(x, frames, cells),
        value_ok(v, frames, cells),
    ensures
        values_ok(x.push(v), frames, cells),
{
    assert forall|i: int| 0 <= i < x.push(v).len() implies value_ok(
        #[trigger] x.push(v)[i],
        frames,
        cells,
    ) by {
        if i < x.len() {
            assert(x.push(v)[i] == x[i]);
        }
    }
}

/// Two runs of values in shape, one after the other, are in shape.
pub proof fn lemma_concat_ok(x: Seq<Value>, y: Seq<Value>, frames: nat, cells: nat)
    requires
        values_ok(x, frames, cells),
        values_ok(y, frames, cells),
    ensures
        values_ok(x + y, frames, cells),
{
    assert forall|i: int| 0 <= i < (x + y).len() implies value_ok(
        #[trigger] (x + y)[i],
        frames,
        cells,
    ) by {
        if i < x.len() {
            assert((x + y)[i] == x[i]);
        } else {
            assert((x + y)[i] == y[i - x.len()]);
        }
    }
}

/// Binding parameters to arguments in shape keeps the bindings in shape.
pub proof fn lemma_bound_ok(
    data: Seq<(Seq<char>, Value)>,
    params: Seq<Seq<char>>,
    args: Seq<Value>,
    i: nat,
    frames: nat,
    cells: nat,
)
    requires
        entries_ok(data, frames, cells),
        values_ok(args, frames, cells),
    ensures
        entries_ok(bound(data, params, args, i).0, frames, cells),
    decreases params.len() - i,
{
    if i < params.len() {
        if params[i as int] == "&"@ {
            if i + 1 < params.len() {
                let rest = if i <= args.len() {
                    args.skip(i as int)
                } else {
                    Seq::empty()
                };
                if i <= args.len() {
                    lemma_skip_ok(args, i as int, frames, cells);
                }
                assert(value_ok(Value::List(rest), frames, cells));
                lemma_with_entry_ok(data, params[i as int + 1], Value::List(rest), frames, cells);
            }
        } else if i < args.len() {
            lemma_with_entry_ok(data, params[i as int], args[i as int], frames, cells);
            lemma_bound_ok(
                with_entry(data, params[i as int], args[i as int]),
                params,
                args,
                i + 1,
                frames,
                cells,
            );
        }
    }
}

/// Calling a closure in shape on arguments in shape leaves the state in
/// shape.
pub proof fn lemma_call_closure_ok(st: State, c: ClosureValue, args: Seq<Value>)
    requires
        store_ok(st),
        value_ok(Value::Closure(c), st.frames.len(), st.cells.len()),
        values_ok(args, st.frames.len(), st.cells.len()),
    ensures
        state_ok(st.call_closure(c, args)),
{
    let frames = st.frames.len();
    let cells = st.cells.len();
    let env = c.env;
    let frame = st.frames[env as int];
    assert(frame_ok(frame, env as int, frames, cells));
    lemma_bound_ok(frame.data, c.params, args, 0, frames, cells);
    let pair = bound(frame.data, c.params, args, 0);
    let next = State {
        frames: st.frames.update(env as int, Frame { outer: frame.outer, data: pair.0 }),
        ..st
    };
    assert forall|i: int| 0 <= i < next.frames.len() implies frame_ok(
        #[trigger] next.frames[i],
        i,
        frames,
        cells,
    ) by {
        assert(frame_ok(st.frames[i], i, frames, cells));
        if i != env {
            assert(next.frames[i] == st.frames[i]);
        }
    }
    assert(store_ok(next));
}


/// The items of a list or vector in shape are in shape.
pub proof fn lemma_items_ok(v: Value, frames: nat, cells: nat)
    requires
        value_ok(v, frames, cells),
        items_of(v) is Some,
    ensures
        values_ok(items_of(v)->Some_0, frames, cells),
{
}

/// What the arguments in shape flatten to is in shape.
pub proof fn lemma_flattened_ok(args: Seq<Value>, n: nat, frames: nat, cells: nat)
    requires
        values_ok(args, frames, cells),
        flattened(args, n) is Some,
    ensures
        values_ok(flattened(args, n)->Some_0, frames, cells),
    decreases n,
{
    if n > 0 && n <= args.len() {
        lemma_flattened_ok(args, (n - 1) as nat, frames, cells);
        lemma_items_ok(args[n - 1], frames, cells);
        lemma_concat_ok(
            flattened(args, (n - 1) as nat)->Some_0,
            items_of(args[n - 1])->Some_0,
            frames,
            cells,
        );
    }
}

/// What the arguments in shape spread out to is in shape.
pub proof fn lemma_spread_ok(args: Seq<Value>, n: nat, frames: nat, cells: nat)
    requires
        values_ok(args, frames, cells),
    ensures
        values_ok(spread(args, n), frames, cells),
    decreases n,
{
    if n > 0 && n <= args.len() {
        lemma_spread_ok(args, (n - 1) as nat, frames, cells);
        match items_of(args[n - 1]) {
            Some(x) => {
                lemma_items_ok(args[n - 1], frames, cells);
                lemma_concat_ok(spread(args, (n - 1) as nat), x, frames, cells);
            },
            None => {
                lemma_push_ok(spread(args, (n - 1) as nat), args[n - 1], frames, cells);
            },
        }
    }
}

/// Pairing up arguments in shape gives entries in shape.
pub proof fn lemma_paired_ok(
    args: Seq<Value>,
    i: nat,
    acc: Seq<(Seq<char>, Value)>,
    frames: nat,
    cells: nat,
)
    requires
        values_ok(args, frames, cells),
        entries_ok(acc, frames, cells),
        paired(args, i, acc) is Some,
    ensures
        entries_ok(paired(args, i, acc)->Some_0, frames, cells),
    decreases args.len() - i,
{
    if i < args.len() && i + 1 < args.len() {
        let key = print_form(args[i as int]);
        lemma_with_entry_ok(acc, key, args[i as int + 1], frames, cells);
        lemma_paired_ok(args, i + 2, with_entry(acc, key, args[i as int + 1]), frames, cells);
    }
}

/// Taking entries out of entries in shape leaves entries in shape.
pub proof fn lemma_removed_ok(
    args: Seq<Value>,
    i: nat,
    acc: Seq<(Seq<char>, Value)>,
    frames: nat,
    cells: nat,
)
    requires
        entries_ok(acc, frames, cells),
    ensures
        entries_ok(removed(args, i, acc), frames, cells),
    decreases args.len() - i,
{
    if i < args.len() {
        let key = print_form(args[i as int]);
        let next = without_key(acc, key);
        let at = position_of(acc, key) as int;
        assert forall|k: int| #![trigger next[k]] 0 <= k < next.len() implies value_ok(
            next[k].1,
            frames,
            cells,
        ) by {
            if at < acc.len() {
                let from = if k < at {
                    k
                } else {
                    k + 1
                };
                assert(next[k] == acc[from]);
            }
        }
        lemma_removed_ok(args, i + 1, next, frames, cells);
    }
}

/// What a function that needs nothing but its arguments makes of arguments
/// in shape is in shape.
pub proof fn lemma_plain_result_ok(code: int, args: Seq<Value>, frames: nat, cells: nat)
    requires
        values_ok(args, frames, cells),
        plain_result(code, args) is Ok,
    ensures
        value_ok(plain_result(code, args)->Ok_0, frames, cells),
{
    if code == CONS {
        lemma_items_ok(args[1], frames, cells);
        lemma_concat_ok(seq![args[0]], items_of(args[1])->Some_0, frames, cells);
    } else if code == CONCAT {
        lemma_flattened_ok(args, args.len(), frames, cells);
    } else if code == NTH || code == FIRST {
        lemma_items_ok(args[0], frames, cells);
    } else if code == REST {
        lemma_items_ok(args[0], frames, cells);
        let x = items_of(args[0])->Some_0;
        if x.len() > 0 {
            lemma_skip_ok(x, 1, frames, cells);
        }
    } else if code == DICTIONARY {
        lemma_paired_ok(args, 0, Seq::empty(), frames, cells);
        lemma_paired_keeps_keys_distinct(args, 0, Seq::empty());
    } else if code == ASSOC {
        let d = args[0]->Dictionary_0;
        assert(value_ok(args[0], frames, cells));
        lemma_paired_ok(args, 1, d, frames, cells);
        lemma_paired_keeps_keys_distinct(args, 1, d);
    } else if code == DISSOC {
        let d = args[0]->Dictionary_0;
        assert(value_ok(args[0], frames, cells));
        lemma_removed_ok(args, 1, d, frames, cells);
        lemma_removed_keeps_keys_distinct(args, 1, d);
    } else if code == GET {
        let d = args[0]->Dictionary_0;
        assert(value_ok(args[0], frames, cells));
        let entry = d[position_of(d, print_form(args[1])) as int];
    } else if code == KEYS || code == VALUES {
        let d = args[0]->Dictionary_0;
        assert(value_ok(args[0], frames, cells));
        let made = plain_result(code, args)->Ok_0->List_0;
        assert forall|i: int| 0 <= i < made.len() implies value_ok(
            #[trigger] made[i],
            frames,
            cells,
        ) by {
            let entry = d[i];
        }
    }
}

/// What the reader makes of tokens names no frame and no cell, and its
/// dictionaries hold each key once.
pub proof fn lemma_read_form_ok(ts: Seq<Seq<char>>)
    requires
        read_form(ts).result is Ok,
    ensures
        value_ok(read_form(ts).result->Ok_0, 0, 0),
    decreases ts.len(), 2nat,
{
    if ts.len() > 0 {
        if ts[0] == "("@ {
            lemma_read_items_ok(ts.skip(1), ")"@, Seq::empty());
        } else {
            lemma_read_atom_ok(ts);
        }
    }
}

/// What the reader makes of the tokens of an atom is in shape.
pub proof fn lemma_read_atom_ok(ts: Seq<Seq<char>>)
    requires
        read_atom(ts).result is Ok,
    ensures
        value_ok(read_atom(ts).result->Ok_0, 0, 0),
    decreases ts.len(), 1nat,
{
    if ts.len() > 0 {
        let tok = ts[0];
        let rest = ts.skip(1);
        if tok == "["@ {
            lemma_read_items_ok(rest, "]"@, Seq::empty());
        } else if tok == "{"@ {
            lemma_read_entries_ok(rest, "}"@, Seq::empty());
            lemma_read_entries_keys_distinct(rest, "}"@, Seq::empty());
        } else if tok == "@"@ {
            lemma_read_atom_ok(rest);
            lemma_pair_ok(Value::Symbol("deref"@), read_atom(rest).result->Ok_0);
        } else if tok == "'"@ {
            lemma_read_form_ok(rest);
            lemma_pair_ok(Value::Symbol("quote"@), read_form(rest).result->Ok_0);
        } else if tok == "`"@ {
            lemma_read_form_ok(rest);
            lemma_pair_ok(Value::Symbol("quasiquote"@), read_form(rest).result->Ok_0);
        } else if tok == "~"@ {
            lemma_read_form_ok(rest);
            lemma_pair_ok(Value::Symbol("unquote"@), read_form(rest).result->Ok_0);
        } else if tok == "~@"@ {
            lemma_read_form_ok(rest);
            lemma_pair_ok(Value::Symbol("splice-unquote"@), read_form(rest).result->Ok_0);
        }
    }
}

/// A list of two values in shape is in shape.
pub proof fn lemma_pair_ok(a: Value, b: Value)
    requires
        value_ok(a, 0, 0),
        value_ok(b, 0, 0),
    ensures
        value_ok(Value::List(seq![a, b]), 0, 0),
{
}

/// What the reader makes of the items of a list or vector is in shape.
pub proof fn lemma_read_items_ok(ts: Seq<Seq<char>>, close: Seq<char>, acc: Seq<Value>)
    requires
        values_ok(acc, 0, 0),
        read_items(ts, close, acc).result is Ok,
    ensures
        values_ok(read_items(ts, close, acc).result->Ok_0, 0, 0),
    decreases ts.len(), 3nat,
{
    if ts.len() > 0 && ts[0] != close {
        let item = read_form(ts);
        if item.result is Ok && item.rest.len() < ts.len() {
            lemma_read_form_ok(ts);
            lemma_push_ok(acc, item.result->Ok_0, 0, 0);
            lemma_read_items_ok(item.rest, close, acc.push(item.result->Ok_0));
        }
    }
}

/// What the reader makes of the entries of a dictionary is in shape.
pub proof fn lemma_read_entries_ok(
    ts: Seq<Seq<char>>,
    close: Seq<char>,
    acc: Seq<(Seq<char>, Value)>,
)
    requires
        entries_ok(acc, 0, 0),
        read_entries(ts, close, acc).result is Ok,
    ensures
        entries_ok(read_entries(ts, close, acc).result->Ok_0, 0, 0),
    decreases ts.len(), 3nat,
{
    if ts.len() > 0 && ts[0] != close {
        let key = read_form(ts);
        if key.result is Ok && key.rest.len() < ts.len() {
            let value = read_form(key.rest);
            if value.result is Ok && value.rest.len() < ts.len() {
                lemma_read_form_ok(key.rest);
                let k = print_form(key.result->Ok_0);
                let v = value.result->Ok_0;
                lemma_with_entry_ok(acc, k, v, 0, 0);
                lemma_read_entries_ok(value.rest, close, with_entry(acc, k, v));
            }
        }
    }
}


/// The next binding of a `let*`, or its body, leaves the state in shape.
pub proof fn lemma_let_next_ok(st: State, bindings: Seq<Value>, i: int, body: Value, scope: Scope)
    requires
        store_ok(st),
        values_ok(bindings, st.frames.len(), st.cells.len()),
        value_ok(body, st.frames.len(), st.cells.len()),
        scope_ok(scope, st.frames.len()),
        0 <= i,
    ensures
        state_ok(st.let_next(bindings, i, body, scope)),
{
    if i < bindings.len() && bindings[i] is Symbol && i + 1 < bindings.len() {
        lemma_store_pushed(st, ContinuationModel::Let(bindings, i as usize, body, scope));
    }
}

/// The next form of a `do` leaves the state in shape.
pub proof fn lemma_do_next_ok(st: State, forms: Seq<Value>, i: int, scope: Scope)
    requires
        store_ok(st),
        values_ok(forms, st.frames.len(), st.cells.len()),
        scope_ok(scope, st.frames.len()),
        0 <= i,
    ensures
        state_ok(st.do_next(forms, i, scope)),
{
    if i < forms.len() && i + 1 != forms.len() {
        lemma_store_pushed(st, ContinuationModel::Do(forms, i as usize, scope));
    }
}

/// The form a template item asks for is in shape if the item is.
pub proof fn lemma_template_ok(item: Value, frames: nat, cells: nat)
    requires
        value_ok(item, frames, cells),
    ensures
        template_of(item) matches Template::Unquote(x) ==> value_ok(x, frames, cells),
        template_of(item) matches Template::Splice(x) ==> value_ok(x, frames, cells),
{
    match item {
        Value::List(inner) => {
            if inner.len() >= 2 {
                let form = inner[1];
            }
        },
        _ => {},
    }
}

/// Filling a template leaves the state in shape.
pub proof fn lemma_quasi_next_ok(
    st: State,
    items: Seq<Value>,
    i: int,
    result: Seq<Value>,
    scope: Scope,
)
    requires
        store_ok(st),
        values_ok(items, st.frames.len(), st.cells.len()),
        values_ok(result, st.frames.len(), st.cells.len()),
        scope_ok(scope, st.frames.len()),
    ensures
        state_ok(st.quasi_next(items, i, result, scope)),
    decreases items.len() - i,
{
    if 0 <= i < items.len() {
        lemma_template_ok(items[i], st.frames.len(), st.cells.len());
        match template_of(items[i]) {
            Template::Plain => {
                lemma_push_ok(result, items[i], st.frames.len(), st.cells.len());
                lemma_quasi_next_ok(st, items, i + 1, result.push(items[i]), scope);
            },
            Template::Unquote(x) => {
                lemma_store_pushed(
                    st,
                    ContinuationModel::Quasi(items, i as usize, result, false, scope),
                );
            },
            Template::Splice(x) => {
                lemma_store_pushed(
                    st,
                    ContinuationModel::Quasi(items, i as usize, result, true, scope),
                );
            },
        }
    }
}

/// The next element of a call, or its application, leaves the state in
/// shape.
pub proof fn lemma_args_next_ok(st: State, forms: Seq<Value>, done: Seq<Value>, scope: Scope)
    requires
        store_ok(st),
        values_ok(forms, st.frames.len(), st.cells.len()),
        values_ok(done, st.frames.len(), st.cells.len()),
        scope_ok(scope, st.frames.len()),
    ensures
        state_ok(st.args_next(forms, done, scope)),
{
    if done.len() < forms.len() {
        lemma_store_pushed(st, ContinuationModel::Args(forms, done, scope));
    } else if done.len() > 0 {
        lemma_skip_ok(done, 1, st.frames.len(), st.cells.len());
    }
}

/// The next element of a vector, or the vector, leaves the state in shape.
pub proof fn lemma_items_next_ok(st: State, forms: Seq<Value>, done: Seq<Value>, scope: Scope)
    requires
        store_ok(st),
        values_ok(forms, st.frames.len(), st.cells.len()),
        values_ok(done, st.frames.len(), st.cells.len()),
        scope_ok(scope, st.frames.len()),
    ensures
        state_ok(st.items_next(forms, done, scope)),
{
    if done.len() < forms.len() {
        lemma_store_pushed(st, ContinuationModel::Items(forms, done, scope));
    }
}

/// The next value of a dictionary, or the dictionary, leaves the state in
/// shape.
pub proof fn lemma_entries_next_ok(
    st: State,
    pairs: Seq<(Seq<char>, Value)>,
    done: Seq<(Seq<char>, Value)>,
    scope: Scope,
)
    requires
        store_ok(st),
        continuation_ok(
            ContinuationModel::Entries(pairs, done, scope),
            st.frames.len(),
            st.cells.len(),
        ),
    ensures
        state_ok(st.entries_next(pairs, done, scope)),
{
    if done.len() < pairs.len() {
        lemma_store_pushed(st, ContinuationModel::Entries(pairs, done, scope));
        let entry = pairs[done.len() as int];
    } else {
        assert forall|i: int, j: int| 0 <= i < j < done.len() implies (#[trigger] done[i]).0 != (
        #[trigger] done[j]).0 by {
            assert(pairs[i].0 != pairs[j].0);
        }
    }
}

/// The next item of a `map`, or the list of images, leaves the state in
/// shape.
pub proof fn lemma_map_next_ok(
    st: State,
    function: Value,
    items: Seq<Value>,
    i: int,
    results: Seq<Value>,
)
    requires
        store_ok(st),
        value_ok(function, st.frames.len(), st.cells.len()),
        values_ok(items, st.frames.len(), st.cells.len()),
        values_ok(results, st.frames.len(), st.cells.len()),
    ensures
        state_ok(st.map_next(function, items, i, results)),
{
    if 0 <= i < items.len() {
        lemma_store_pushed(
            st,
            ContinuationModel::MapItems(function, items, i as usize, results),
        );
        assert(values_ok(seq![items[i]], st.frames.len(), st.cells.len()));
    }
}

/// `let*` leaves the state in shape.
pub proof fn lemma_let_rule_ok(st: State, args: Seq<Value>, scope: Scope)
    requires
        store_ok(st),
        values_ok(args, st.frames.len(), st.cells.len()),
        scope_ok(scope, st.frames.len()),
    ensures
        state_ok(st.let_rule(args, scope)),
{
    if args.len() >= 2 && args[0] is List && st.frames.len() < usize::MAX {
        let frames = st.frames.len();
        let cells = st.cells.len();
        let bindings = args[0]->List_0;
        let inner = st.with_frame(scope.env);
        lemma_store_with_frame(st, scope.env);
        assert(value_ok(args[0], frames, cells));
        lemma_values_ok_grow(bindings, frames, cells, frames + 1, cells);
        lemma_value_ok_grows(args[1], frames, cells, frames + 1, cells);
        lemma_let_next_ok(
            inner,
            bindings,
            0,
            args[1],
            Scope { env: frames as usize, root: scope.root },
        );
    }
}

/// `fn*` leaves the state in shape.
pub proof fn lemma_closure_rule_ok(st: State, args: Seq<Value>, scope: Scope)
    requires
        store_ok(st),
        values_ok(args, st.frames.len(), st.cells.len()),
        scope_ok(scope, st.frames.len()),
    ensures
        state_ok(st.closure_rule(args, scope)),
{
    if args.len() >= 2 && args[0] is List && st.frames.len() < usize::MAX {
        let frames = st.frames.len();
        let cells = st.cells.len();
        lemma_store_with_frame(st, scope.env);
        lemma_value_ok_grows(args[1], frames, cells, frames + 1, cells);
    }
}

/// The evaluation of a non-empty list leaves the state in shape.
pub proof fn lemma_list_rule_ok(st: State, children: Seq<Value>, scope: Scope)
    requires
        store_ok(st),
        values_ok(children, st.frames.len(), st.cells.len()),
        children.len() > 0,
        scope_ok(scope, st.frames.len()),
    ensures
        state_ok(st.list_rule(children, scope)),
{
    let frames = st.frames.len();
    let cells = st.cells.len();
    let args = children.skip(1);
    let head = children[0];
    lemma_skip_ok(children, 1, frames, cells);
    if head == Value::Symbol("def!"@) {
        if args.len() >= 2 && args[0] is Symbol {
            lemma_store_pushed(st, ContinuationModel::Def(args[0]->Symbol_0, scope.env));
        }
    } else if head == Value::Symbol("defmacro!"@) {
        if args.len() >= 2 && args[0] is Symbol {
            lemma_store_pushed(st, ContinuationModel::DefMacro(args[0]->Symbol_0, scope.env));
        }
    } else if head == Value::Symbol("try*"@) {
        if args.len() >= 2 {
            lemma_store_pushed(st, ContinuationModel::TryHandler(args[0], scope));
        }
    } else if head == Value::Symbol("quote"@) {
    } else if head == Value::Symbol("quasiquote"@) {
        if args.len() >= 1 {
            match args[0] {
                Value::List(items) => {
                    lemma_quasi_next_ok(st, items, 0, Seq::empty(), scope);
                },
                _ => {},
            }
        }
    } else if head == Value::Symbol("let*"@) {
        lemma_let_rule_ok(st, args, scope);
    } else if head == Value::Symbol("do"@) {
        lemma_do_next_ok(st, args, 0, scope);
    } else if head == Value::Symbol("if"@) {
        if args.len() >= 1 {
            lemma_store_pushed(st, ContinuationModel::If(args, scope));
        }
    } else if head == Value::Symbol("fn*"@) {
        lemma_closure_rule_ok(st, args, scope);
    } else if head == Value::Symbol("eval"@) {
        if args.len() >= 1 {
            lemma_store_pushed(st, ContinuationModel::EvalArg(scope.root));
        }
    } else {
        lemma_store_pushed(st, ContinuationModel::Head(children, scope));
    }
}

/// The evaluation of a form in shape leaves the state in shape.
pub proof fn lemma_eval_step_ok(st: State, ast: Value, scope: Scope)
    requires
        store_ok(st),
        value_ok(ast, st.frames.len(), st.cells.len()),
        scope_ok(scope, st.frames.len()),
    ensures
        state_ok(st.eval_step(ast, scope)),
{
    match ast {
        Value::Symbol(name) => {
            if lookup(st.frames, scope.env, name) is Some {
                lemma_lookup_ok(st, scope.env, name);
            }
        },
        Value::Vector(items) => {
            lemma_items_next_ok(st, items, Seq::empty(), scope);
        },
        Value::Dictionary(pairs) => {
            lemma_entries_next_ok(st, pairs, Seq::empty(), scope);
        },
        Value::List(children) => {
            if children.len() > 0 {
                lemma_list_rule_ok(st, children, scope);
            }
        },
        _ => {},
    }
}


/// What the reader makes of a text is in shape in every store.
pub proof fn lemma_read_text_ok(text: Seq<char>, frames: nat, cells: nat)
    requires
        read_text(text) is Ok,
    ensures
        value_ok(read_text(text)->Ok_0, frames, cells),
{
    match compiled(REGEX_TOKEN_EXP@) {
        Some(re) => {
            let ts = tokens_of(re, text);
            lemma_read_form_ok(ts);
            lemma_value_ok_grows(read_form(ts).result->Ok_0, 0, 0, frames, cells);
        },
        None => {},
    }
}

/// The call of a native function that works on the cells, calls back into
/// the language, reads, or needs the host leaves the state in shape.
pub proof fn lemma_special_native_ok(st: State, code: int, args: Seq<Value>)
    requires
        store_ok(st),
        values_ok(args, st.frames.len(), st.cells.len()),
    ensures
        state_ok(st.special_native(code, args)),
{
    let frames = st.frames.len();
    let cells = st.cells.len();
    if code == READ_STR {
        if args.len() == 1 && args[0] is Str && read_text(args[0]->Str_0) is Ok {
            lemma_read_text_ok(args[0]->Str_0, frames, cells);
        }
    } else if code == ATOM {
        if args.len() >= 1 && cells < usize::MAX {
            lemma_store_with_cell(st, args[0]);
        }
    } else if code == DEREF {
        if args.len() >= 1 && args[0] is Atom && args[0]->Atom_0 < cells {
            let value = st.cells[args[0]->Atom_0 as int];
        }
    } else if code == RESET_ATOM {
        if args.len() >= 2 && args[0] is Atom && args[0]->Atom_0 < cells {
            lemma_store_with_cell_set(st, args[0]->Atom_0 as int, args[1]);
        }
    } else if code == SWAP_ATOM {
        if args.len() >= 2 && args[0] is Atom && args[0]->Atom_0 < cells {
            let cell = args[0]->Atom_0;
            lemma_store_pushed(st, ContinuationModel::Swap(cell));
            lemma_skip_ok(args, 2, frames, cells);
            let value = st.cells[cell as int];
            assert(values_ok(seq![value], frames, cells));
            lemma_concat_ok(seq![value], args.skip(2), frames, cells);
        }
    } else if code == APPLY {
        if args.len() >= 1 {
            lemma_skip_ok(args, 1, frames, cells);
            lemma_spread_ok(args.skip(1), (args.len() - 1) as nat, frames, cells);
        }
    } else if code == MAP_ITEMS {
        if args.len() >= 2 && items_of(args[1]) is Some {
            lemma_items_ok(args[1], frames, cells);
            lemma_map_next_ok(st, args[0], items_of(args[1])->Some_0, 0, Seq::empty());
        }
    }
}

/// The call of a native function on arguments in shape leaves the state in
/// shape.
pub proof fn lemma_native_step_ok(st: State, code: int, args: Seq<Value>)
    requires
        store_ok(st),
        values_ok(args, st.frames.len(), st.cells.len()),
    ensures
        state_ok(st.native_step(code, args)),
{
    let frames = st.frames.len();
    let cells = st.cells.len();
    if (is_ordering(code) || (is_arithmetic(code) && code != MODULO)) && args.len()
        == 2 && args[0] is Float && args[1] is Float {
    } else if is_arithmetic(code) {
    } else if is_ordering(code) {
    } else if is_plain(code) {
        if plain_result(code, args) is Ok {
            lemma_plain_result_ok(code, args, frames, cells);
        }
    } else {
        lemma_special_native_ok(st, code, args);
    }
}

/// The application of a function in shape to arguments in shape leaves the
/// state in shape.
pub proof fn lemma_apply_step_ok(st: State, function: Value, args: Seq<Value>)
    requires
        store_ok(st),
        value_ok(function, st.frames.len(), st.cells.len()),
        values_ok(args, st.frames.len(), st.cells.len()),
    ensures
        state_ok(st.apply_step(function, args)),
{
    match function {
        Value::Closure(c) => {
            lemma_call_closure_ok(st, c, args);
        },
        Value::NativeFunction(code) => {
            lemma_native_step_ok(st, code, args);
        },
        _ => {},
    }
}

/// Handing a value in shape to a continuation in shape leaves the state in
/// shape.
pub proof fn lemma_return_step_ok(st: State, k: ContinuationModel, value: Value)
    requires
        store_ok(st),
        continuation_ok(k, st.frames.len(), st.cells.len()),
        value_ok(value, st.frames.len(), st.cells.len()),
    ensures
        state_ok(st.return_step(k, value)),
{
    let frames = st.frames.len();
    let cells = st.cells.len();
    match k {
        ContinuationModel::Def(name, env) => {
            lemma_store_bind(st, env, name, value);
        },
        ContinuationModel::DefMacro(name, env) => {
            match value {
                Value::Closure(c) => {
                    let made = Value::Closure(ClosureValue { is_macro: true, ..c });
                    assert(value_ok(made, frames, cells));
                    lemma_store_bind(st, env, name, made);
                },
                _ => {},
            }
        },
        ContinuationModel::Let(bindings, index, body, scope) => {
            if index + 1 < bindings.len() && bindings[index as int] is Symbol {
                let name = bindings[index as int]->Symbol_0;
                lemma_store_bind(st, scope.env, name, value);
                lemma_let_next_ok(st.bind(scope.env, name, value), bindings, index + 2, body, scope);
            }
        },
        ContinuationModel::Do(forms, index, scope) => {
            lemma_do_next_ok(st, forms, index + 1, scope);
        },
        ContinuationModel::If(args, scope) => {
            if branch_of(args, value) is Ok {
                let form = branch_of(args, value)->Ok_0;
                assert(value_ok(form, frames, cells));
            }
        },
        ContinuationModel::TryHandler(body, scope) => {
            match value {
                Value::Closure(c) => {
                    lemma_store_pushed(st, ContinuationModel::TryBody(c));
                },
                _ => {},
            }
        },
        ContinuationModel::TryBody(handler) => {},
        ContinuationModel::EvalArg(root) => {},
        ContinuationModel::Head(children, scope) => {
            let expands = value is Closure && value->Closure_0.is_macro;
            if expands {
                let rest = if children.len() >= 1 {
                    children.skip(1)
                } else {
                    Seq::empty()
                };
                if children.len() >= 1 {
                    lemma_skip_ok(children, 1, frames, cells);
                }
                lemma_store_pushed(st, ContinuationModel::Expand(scope));
                lemma_call_closure_ok(
                    st.pushed(ContinuationModel::Expand(scope)),
                    value->Closure_0,
                    rest,
                );
            } else {
                assert(values_ok(seq![value], frames, cells));
                lemma_args_next_ok(st, children, seq![value], scope);
            }
        },
        ContinuationModel::Expand(scope) => {},
        ContinuationModel::Args(forms, done, scope) => {
            lemma_push_ok(done, value, frames, cells);
            lemma_args_next_ok(st, forms, done.push(value), scope);
        },
        ContinuationModel::Items(forms, done, scope) => {
            lemma_push_ok(done, value, frames, cells);
            lemma_items_next_ok(st, forms, done.push(value), scope);
        },
        ContinuationModel::Entries(pairs, done, scope) => {
            if done.len() < pairs.len() {
                let more = done.push((pairs[done.len() as int].0, value));
                assert forall|i: int| #![trigger more[i]] 0 <= i < more.len() implies value_ok(
                    more[i].1,
                    frames,
                    cells,
                ) by {
                    if i < done.len() {
                        assert(more[i] == done[i]);
                    }
                }
                assert forall|i: int| 0 <= i < more.len() implies (#[trigger] more[i]).0
                    == pairs[i].0 by {
                    if i < done.len() {
                        assert(more[i] == done[i]);
                    }
                }
                lemma_entries_next_ok(st, pairs, more, scope);
            } else {
                lemma_entries_next_ok(st, pairs, done, scope);
            }
        },
        ContinuationModel::Quasi(items, index, result, splice, scope) => {
            if splice {
                match value {
                    Value::List(x) => {
                        lemma_concat_ok(result, x, frames, cells);
                        lemma_quasi_next_ok(st, items, index + 1, result + x, scope);
                    },
                    _ => {},
                }
            } else {
                lemma_push_ok(result, value, frames, cells);
                lemma_quasi_next_ok(st, items, index + 1, result.push(value), scope);
            }
        },
        ContinuationModel::Swap(cell) => {
            lemma_store_with_cell_set(st, cell as int, value);
        },
        ContinuationModel::MapItems(function, items, index, results) => {
            lemma_push_ok(results, value, frames, cells);
            lemma_map_next_ok(st, function, items, index + 1, results.push(value));
        },
    }
}

/// Handing an error to a continuation in shape leaves the state in shape.
pub proof fn lemma_raise_step_ok(st: State, k: ContinuationModel, msg: Seq<char>)
    requires
        store_ok(st),
        continuation_ok(k, st.frames.len(), st.cells.len()),
    ensures
        state_ok(st.raise_step(k, msg)),
{
    match k {
        ContinuationModel::TryBody(handler) => {
            assert(values_ok(seq![Value::Str(msg)], st.frames.len(), st.cells.len()));
            lemma_call_closure_ok(st, handler, seq![Value::Str(msg)]);
        },
        _ => {},
    }
}

/// A step keeps the state in shape.
pub proof fn lemma_next_ok(st: State)
    requires
        state_ok(st),
    ensures
        state_ok(st.next()),
{
    let parked = st.parked();
    assert(store_ok(parked));
    match st.control {
        ControlModel::Eval(ast, scope) => {
            lemma_eval_step_ok(parked, ast, scope);
        },
        ControlModel::Apply(function, args) => {
            lemma_apply_step_ok(parked, function, args);
        },
        ControlModel::Return(value) => {
            if st.stack.len() > 0 {
                lemma_store_popped(parked);
                lemma_return_step_ok(parked.popped(), st.stack.last(), value);
            }
        },
        ControlModel::Raise(msg) => {
            if st.stack.len() > 0 {
                lemma_store_popped(parked);
                lemma_raise_step_ok(parked.popped(), st.stack.last(), msg);
            }
        },
        ControlModel::Wait(action) => {},
    }
}

/// A run keeps the state in shape: no step ever names a frame or a cell
/// that does not exist, and every dictionary it makes holds each key once.
pub proof fn lemma_run_ok(st: State, fuel: nat)
    requires
        state_ok(st),
    ensures
        state_ok(st.run(fuel)),
    decreases fuel,
{
    if fuel > 0 && st.status() is Running {
        lemma_next_ok(st);
        lemma_run_ok(st.next(), (fuel - 1) as nat);
    }
}

/// Filling a template takes no frame and no cell away.
pub proof fn lemma_quasi_keeps_frames(
    st: State,
    items: Seq<Value>,
    i: int,
    result: Seq<Value>,
    scope: Scope,
)
    ensures
        st.quasi_next(items, i, result, scope).frames == st.frames,
        st.quasi_next(items, i, result, scope).cells == st.cells,
    decreases items.len() - i,
{
    if 0 <= i < items.len() {
        match template_of(items[i]) {
            Template::Plain => {
                lemma_quasi_keeps_frames(st, items, i + 1, result.push(items[i]), scope);
            },
            _ => {},
        }
    }
}

/// A step takes no frame and no cell away.
pub proof fn lemma_next_keeps_frames(st: State)
    ensures
        st.next().frames.len() >= st.frames.len(),
        st.next().cells.len() >= st.cells.len(),
{
    let parked = st.parked();
    match st.control {
        ControlModel::Eval(ast, scope) => {
            match ast {
                Value::List(children) => {
                    if children.len() > 0 {
                        let args = children.skip(1);
                        if children[0] == Value::Symbol("quasiquote"@) && args.len() >= 1 {
                            match args[0] {
                                Value::List(items) => {
                                    lemma_quasi_keeps_frames(parked, items, 0, Seq::empty(), scope);
                                },
                                _ => {},
                            }
                        }
                    }
                },
                _ => {},
            }
        },
        ControlModel::Return(v) => {
            if st.stack.len() > 0 {
                match st.stack.last() {
                    ContinuationModel::Quasi(items, index, result, splice, scope) => {
                        if splice {
                            match v {
                                Value::List(x) => {
                                    lemma_quasi_keeps_frames(
                                        parked.popped(),
                                        items,
                                        index + 1,
                                        result + x,
                                        scope,
                                    );
                                },
                                _ => {},
                            }
                        } else {
                            lemma_quasi_keeps_frames(
                                parked.popped(),
                                items,
                                index + 1,
                                result.push(v),
                                scope,
                            );
                        }
                    },
                    _ => {},
                }
            }
        },
        _ => {},
    }
}

/// A run takes no frame and no cell away.
pub proof fn lemma_run_keeps_frames(st: State, fuel: nat)
    ensures
        st.run(fuel).frames.len() >= st.frames.len(),
        st.run(fuel).cells.len() >= st.cells.len(),
    decreases fuel,
{
    if fuel > 0 && st.status() is Running {
        lemma_next_keeps_frames(st);
        lemma_run_keeps_frames(st.next(), (fuel - 1) as nat);
    }
}

/// The host's answer keeps the state in shape.
pub proof fn lemma_answered_ok(st: State, event: EventModel)
    requires
        state_ok(st),
    ensures
        state_ok(st.answered(event)),
{
}

} // verus!
