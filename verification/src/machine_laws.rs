//! What holds of the machine: how names resolve, that tail positions keep
//! the stack, that pausing a run changes nothing, that the bindings of a
//! `let*` are sequential, and that a closure captures the scope it is made
//! in.

use vstd::prelude::*;

use crate::machine::{
    bound, branch_of, defined, first_non_symbol, lookup, parameter_names, template_of,
    ContinuationModel, ControlModel, Frame, Scope, State, Template,
};
use crate::variable_type::{
    lemma_position_found, lemma_position_of, position_of, with_entry, Value,
};

verus! {

/// A binding made in a frame is what the name resolves to from that frame.
pub proof fn lemma_bound_name_resolves(
    frames: Seq<Frame>,
    env: usize,
    name: Seq<char>,
    value: Value,
)
    requires
        env < frames.len(),
    ensures
        lookup(defined(frames, env, name, value), env, name) == Some(value),
{
    let data = frames[env as int].data;
    let after = with_entry(data, name, value);
    lemma_position_found(data, name);
    let i = position_of(data, name) as int;
    assert forall|k: int| 0 <= k < i implies (#[trigger] after[k]).0 != name by {
        assert(after[k] == data[k]);
    }
    lemma_position_of(after, name, i);
}

/// A new frame changes nothing that is resolved from the frames that were
/// there before.
pub proof fn lemma_lookup_ignores_new_frame(
    frames: Seq<Frame>,
    frame: Frame,
    env: usize,
    name: Seq<char>,
)
    requires
        env < frames.len(),
    ensures
        lookup(frames.push(frame), env, name) == lookup(frames, env, name),
    decreases env,
{
    let data = frames[env as int].data;
    assert(frames.push(frame)[env as int] == frames[env as int]);
    if position_of(data, name) >= data.len() {
        match frames[env as int].outer {
            Some(outer) => {
                if outer < env {
                    lemma_lookup_ignores_new_frame(frames, frame, outer, name);
                }
            },
            None => {},
        }
    }
}

/// The branch of an `if` is in tail position: once the condition is known,
/// the chosen branch is evaluated on the stack the `if` was entered with.
pub proof fn lemma_if_branch_keeps_the_stack(st: State)
    requires
        st.control is Return,
        st.stack.len() > 0,
        st.stack.last() is If,
        branch_of(st.stack.last()->If_0, st.control->Return_0) is Ok,
    ensures
        st.next().stack == st.stack.drop_last(),
        st.next().frames == st.frames,
        st.next().control == ControlModel::Eval(
            branch_of(st.stack.last()->If_0, st.control->Return_0)->Ok_0,
            st.stack.last()->If_1,
        ),
{
}

/// The last form of a `do` is in tail position: it is evaluated on the stack
/// the `do` was entered with.
pub proof fn lemma_last_form_keeps_the_stack(st: State)
    requires
        st.control is Return,
        st.stack.len() > 0,
        st.stack.last() is Do,
        st.stack.last()->Do_1 + 2 == st.stack.last()->Do_0.len(),
    ensures
        st.next().stack == st.stack.drop_last(),
        st.next().frames == st.frames,
        st.next().control == ControlModel::Eval(
            st.stack.last()->Do_0[st.stack.last()->Do_1 + 1],
            st.stack.last()->Do_2,
        ),
{
}

/// The body of a `let*` is in tail position: after the last binding it is
/// evaluated on the stack the `let*` was entered with.
pub proof fn lemma_let_body_keeps_the_stack(st: State)
    requires
        st.control is Return,
        st.stack.len() > 0,
        st.stack.last() is Let,
        st.stack.last()->Let_1 + 2 == st.stack.last()->Let_0.len(),
        st.stack.last()->Let_0[st.stack.last()->Let_1 as int] is Symbol,
        st.stack.last()->Let_3.env < st.frames.len(),
    ensures
        st.next().stack == st.stack.drop_last(),
        st.next().control == ControlModel::Eval(st.stack.last()->Let_2, st.stack.last()->Let_3),
{
}

/// The form that `eval` produced is in tail position: it is evaluated in the
/// root frame, on the stack the `eval` was entered with.
pub proof fn lemma_eval_keeps_the_stack(st: State)
    requires
        st.control is Return,
        st.stack.len() > 0,
        st.stack.last() is EvalArg,
    ensures
        st.next().stack == st.stack.drop_last(),
        st.next().frames == st.frames,
        st.next().control == ControlModel::Eval(
            st.control->Return_0,
            Scope { env: st.stack.last()->EvalArg_0, root: st.stack.last()->EvalArg_0 },
        ),
{
}

/// The expansion of a macro is in tail position: it is evaluated on the
/// stack the macro call was entered with.
pub proof fn lemma_expansion_keeps_the_stack(st: State)
    requires
        st.control is Return,
        st.stack.len() > 0,
        st.stack.last() is Expand,
    ensures
        st.next().stack == st.stack.drop_last(),
        st.next().frames == st.frames,
        st.next().control == ControlModel::Eval(st.control->Return_0, st.stack.last()->Expand_0),
{
}

/// The body of a called closure is in tail position: it is evaluated on the
/// stack of the call.  With the lemmas above, a function that calls itself
/// in tail position runs on a stack that does not grow with the number of
/// calls.
pub proof fn lemma_call_keeps_the_stack(st: State)
    requires
        st.control is Apply,
        st.control->Apply_0 is Closure,
        st.control->Apply_0->Closure_0.env < st.frames.len(),
        bound(
            st.frames[st.control->Apply_0->Closure_0.env as int].data,
            st.control->Apply_0->Closure_0.params,
            st.control->Apply_1,
            0,
        ).1 is None,
    ensures
        st.next().stack == st.stack,
        st.next().control == ControlModel::Eval(
            *st.control->Apply_0->Closure_0.ast,
            Scope {
                env: st.control->Apply_0->Closure_0.env,
                root: st.control->Apply_0->Closure_0.repl_env,
            },
        ),
{
    let c = st.control->Apply_0->Closure_0;
    let args = st.control->Apply_1;
    let parked = st.parked();
    assert(parked.frames == st.frames);
    let pair = bound(parked.frames[c.env as int].data, c.params, args, 0);
    assert(pair.1 is None);
    assert(st.next() == parked.call_closure(c, args));
}

/// Pausing changes nothing: a run that is taken up again where the step
/// budget ran out ends where one run with the whole budget ends.
pub proof fn lemma_run_splits(st: State, first: nat, second: nat)
    ensures
        st.run(first).run(second) == st.run(first + second),
    decreases first,
{
    if !(st.status() is Running) {
        lemma_run_stays(st, second);
    } else if first > 0 {
        lemma_run_splits(st.next(), (first - 1) as nat, second);
    }
}

/// A machine that is finished or waits stays as it is however long it runs.
pub proof fn lemma_run_stays(st: State, fuel: nat)
    requires
        !(st.status() is Running),
    ensures
        st.run(fuel) == st,
{
}

/// One step adds at most one continuation to the stack.
pub proof fn lemma_step_pushes_at_most_one(st: State)
    ensures
        st.next().stack.len() <= st.stack.len() + 1,
{
    match st.control {
        ControlModel::Eval(ast, scope) => {
            match ast {
                Value::List(children) => {
                    if children.len() > 0 {
                        let args = children.skip(1);
                        if children[0] == Value::Symbol("quasiquote"@) && args.len() >= 1 {
                            match args[0] {
                                Value::List(items) => {
                                    lemma_quasi_pushes_at_most_one(
                                        st.parked(),
                                        items,
                                        0,
                                        Seq::empty(),
                                        scope,
                                    );
                                },
                                _ => {},
                            }
                        }
                    }
                },
                _ => {},
            }
        },
        ControlModel::Return(v) => {
            if st.stack.len() > 0 {
                match st.stack.last() {
                    ContinuationModel::Quasi(items, index, result, splice, scope) => {
                        if splice {
                            match v {
                                Value::List(x) => {
                                    lemma_quasi_pushes_at_most_one(
                                        st.parked().popped(),
                                        items,
                                        index + 1,
                                        result + x,
                                        scope,
                                    );
                                },
                                _ => {},
                            }
                        } else {
                            lemma_quasi_pushes_at_most_one(
                                st.parked().popped(),
                                items,
                                index + 1,
                                result.push(v),
                                scope,
                            );
                        }
                    },
                    _ => {},
                }
            }
        },
        _ => {},
    }
}

/// Filling a template adds at most one continuation to the stack.
pub proof fn lemma_quasi_pushes_at_most_one(
    st: State,
    items: Seq<Value>,
    i: int,
    result: Seq<Value>,
    scope: Scope,
)
    ensures
        st.quasi_next(items, i, result, scope).stack.len() <= st.stack.len() + 1,
        st.quasi_next(items, i, result, scope).frames == st.frames,
    decreases items.len() - i,
{
    if 0 <= i < items.len() {
        match template_of(items[i]) {
            Template::Plain => {
                lemma_quasi_pushes_at_most_one(st, items, i + 1, result.push(items[i]), scope);
            },
            _ => {},
        }
    }
}

/// In a `let*`, later bindings see earlier ones: once the value of a binding
/// is known, the name resolves to it in the frame of the `let*`, and what is
/// evaluated next, the next binding or the body, is evaluated in that
/// frame.
pub proof fn lemma_let_bindings_are_sequential(st: State)
    requires
        st.control is Return,
        st.stack.len() > 0,
        st.stack.last() is Let,
        st.stack.last()->Let_1 + 1 < st.stack.last()->Let_0.len(),
        st.stack.last()->Let_0[st.stack.last()->Let_1 as int] is Symbol,
        st.stack.last()->Let_3.env < st.frames.len(),
    ensures
        ({
            let bindings = st.stack.last()->Let_0;
            let index = st.stack.last()->Let_1;
            let scope = st.stack.last()->Let_3;
            let name = bindings[index as int]->Symbol_0;
            &&& lookup(st.next().frames, scope.env, name) == Some(st.control->Return_0)
            &&& (index + 2 == bindings.len() ==> st.next().control == ControlModel::Eval(
                st.stack.last()->Let_2,
                scope,
            ))
            &&& (index + 3 < bindings.len() && bindings[index + 2] is Symbol ==> st.next().control
                == ControlModel::Eval(bindings[index + 3], scope))
        }),
{
    let bindings = st.stack.last()->Let_0;
    let index = st.stack.last()->Let_1;
    let scope = st.stack.last()->Let_3;
    let name = bindings[index as int]->Symbol_0;
    lemma_bound_name_resolves(st.frames, scope.env, name, st.control->Return_0);
}

/// A closure made by `fn*` captures the frame it is made in: its own frame
/// is new and lies inside that frame, so every name resolves from the
/// closure's frame to what it resolves to where the closure was made, and the
/// closure keeps the root frame of its scope.
pub proof fn lemma_closure_captures_its_scope(
    st: State,
    params: Seq<Value>,
    body: Value,
    scope: Scope,
    name: Seq<char>,
)
    requires
        st.control == ControlModel::Eval(
            Value::List(seq![Value::Symbol("fn*"@), Value::List(params), body]),
            scope,
        ),
        forall|i: int| 0 <= i < params.len() ==> params[i] is Symbol,
        scope.env < st.frames.len() < usize::MAX,
    ensures
        st.next().control is Return,
        st.next().control->Return_0 is Closure,
        ({
            let c = st.next().control->Return_0->Closure_0;
            &&& c.env == st.frames.len()
            &&& c.repl_env == scope.root
            &&& !c.is_macro
            &&& *c.ast == body
            &&& c.params == parameter_names(params)
            &&& st.next().frames == st.frames.push(
                Frame { outer: Some(scope.env), data: Seq::empty() },
            )
            &&& lookup(st.next().frames, c.env, name) == lookup(
                st.frames,
                scope.env,
                name,
            )
        }),
{
    reveal_strlit("fn*");
    reveal_strlit("def!");
    reveal_strlit("defmacro!");
    reveal_strlit("try*");
    reveal_strlit("quote");
    reveal_strlit("quasiquote");
    reveal_strlit("let*");
    reveal_strlit("do");
    reveal_strlit("if");
    let children = seq![Value::Symbol("fn*"@), Value::List(params), body];
    let args = children.skip(1);
    assert(args[0] == Value::List(params) && args[1] == body && args.len() == 2);
    lemma_all_symbols(params);
    let frame = Frame { outer: Some(scope.env), data: Seq::empty() };
    lemma_lookup_ignores_new_frame(st.frames, frame, scope.env, name);
    assert("fn*"@[0] == 'f');
    assert("def!"@[0] == 'd' && "defmacro!"@[0] == 'd' && "do"@[0] == 'd');
    assert("try*"@[0] == 't' && "quote"@[0] == 'q' && "quasiquote"@[0] == 'q');
    assert("let*"@[0] == 'l' && "if"@[0] == 'i');
}

/// Parameters that are all symbols have no first non-symbol.
pub proof fn lemma_all_symbols(params: Seq<Value>)
    requires
        forall|i: int| 0 <= i < params.len() ==> params[i] is Symbol,
    ensures
        first_non_symbol(params) == params.len(),
    decreases params.len(),
{
    if params.len() > 0 {
        let rest = params.skip(1);
        assert forall|i: int| 0 <= i < rest.len() implies rest[i] is Symbol by {
            assert(rest[i] == params[i + 1]);
        }
        lemma_all_symbols(rest);
    }
}

} // verus!
