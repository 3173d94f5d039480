//! The evaluator: the machine's steps carried out, one rule of the language
//! at a time.

use vstd::prelude::*;

use crate::env::{
    arithmetic_code, call_plain, clone_from, compare, compute, extend_with, fail, ordering_code,
    plain_code, result_model, sequence_items, ADDITION, APPLY, ATOM, DEREF, DIVISION,
    GREATER_THAN, INPUT, LESS_THAN, LESS_THAN_OR_EQUALS, MAP_ITEMS, MODULO, MULTIPLICATION, PRINT,
    READ_STR, RESET_ATOM, SLURP, SUBTRACTION, SWAP_ATOM, TIME_MS,
};
use crate::machine::{
    bound, branch_of, defined, first_non_symbol, float_op, lookup, parameter_names, shown_line,
    spread, template_of, Action, Continuation, Control, ControlModel, Environment, Event,
    FloatOp, Frame, Interpreter, Scope, State, Status, Template,
};
use crate::reader::{get_regex, read_text, tokenize, Reader};
use crate::text::same_text;
use crate::well_formed::{
    lemma_answered_ok, lemma_next_ok, lemma_run_ok, scope_ok, state_ok, value_ok,
};
use crate::variable_type::{
    clone_values, entries, find_key, has_key, insert_entry, position_of, texts, values,
    with_entry, Closure, DataType, Value,
};

verus! {

/// Why an evaluation failed.
#[derive(Debug)]
pub struct RuntimeError {
    pub msg: String,
}

/// Another name for [`RuntimeError`].
pub type EvalError = RuntimeError;

impl Environment {
    /// A frame without bindings inside the frame `outer`, or a root frame.
    pub fn new(outer: Option<usize>) -> (r: Environment)
        ensures
            r@ == (Frame { outer, data: Seq::empty() }),
    {
        let data: Vec<(String, DataType)> = Vec::new();
        assert(entries(data@) =~= Seq::empty());
        Environment { outer, data }
    }

    /// Binds `sym` to `value` in this frame, in the place of an earlier
    /// binding of `sym` if there is one.
    pub fn set(&mut self, sym: String, value: DataType)
        ensures
            final(self)@ == (Frame {
                outer: old(self)@.outer,
                data: with_entry(old(self)@.data, sym@, value@),
            }),
    {
        insert_entry(&mut self.data, sym, value);
    }

    /// The value bound to `sym` in this frame itself.
    pub fn get(&self, sym: &str) -> (r: Option<DataType>)
        ensures
            match r {
                Some(v) => has_key(self@.data, sym@) && v@ == self@.data[position_of(
                    self@.data,
                    sym@,
                ) as int].1,
                None => !has_key(self@.data, sym@),
            },
    {
        let i = find_key(&self.data, sym);
        if i < self.data.len() {
            Some(self.data[i].1.clone())
        } else {
            None
        }
    }
}

/// Copies an action.
pub fn clone_action(action: &Action) -> (r: Action)
    ensures
        r@ == action@,
{
    match action {
        Action::Print(line) => Action::Print(line.clone()),
        Action::Slurp(path) => Action::Slurp(path.clone()),
        Action::Input(prompt) => Action::Input(prompt.clone()),
        Action::TimeMs() => Action::TimeMs(),
        Action::Float(op, left, right) => Action::Float(*op, left.clone(), right.clone()),
    }
}

impl Interpreter {
    /// An interpreter with one empty root frame, about to return `nil`.
    pub fn new() -> (r: Interpreter)
        ensures
            state_ok(r@),
            r@ == (State {
                frames: seq![Frame { outer: None, data: Seq::empty() }],
                cells: Seq::empty(),
                stack: Seq::empty(),
                control: ControlModel::Return(Value::Nil),
            }),
    {
        let mut envs: Vec<Environment> = Vec::new();
        envs.push(Environment::new(None));
        let r = Interpreter {
            envs,
            atoms: Vec::new(),
            stack: Vec::new(),
            control: Control::Return(DataType::Nil()),
        };
        assert(r@.frames =~= seq![Frame { outer: None, data: Seq::empty() }]);
        assert(r@.cells =~= Seq::empty());
        assert(r@.stack =~= Seq::empty());
        assert(crate::well_formed::frame_ok(r@.frames[0], 0, 1, 0));
        r
    }

    fn set_control(&mut self, control: Control)
        ensures
            final(self)@ == old(self)@.with_control(control@),
    {
        self.control = control;
    }

    fn give(&mut self, value: DataType)
        ensures
            final(self)@ == old(self)@.give(value@),
    {
        self.control = Control::Return(value);
    }

    fn raise(&mut self, text: &str)
        ensures
            final(self)@ == old(self)@.raise(text@),
    {
        self.control = Control::Raise(String::from_str(text));
    }

    fn raise_with(&mut self, msg: String)
        ensures
            final(self)@ == old(self)@.raise(msg@),
    {
        self.control = Control::Raise(msg);
    }

    fn settle(&mut self, result: Result<DataType, RuntimeError>)
        ensures
            final(self)@ == match result_model(result) {
                Ok(v) => old(self)@.give(v),
                Err(msg) => old(self)@.raise(msg),
            },
    {
        match result {
            Ok(v) => self.give(v),
            Err(e) => self.raise_with(e.msg),
        }
    }

    fn evaluate(&mut self, ast: DataType, scope: Scope)
        ensures
            final(self)@ == old(self)@.evaluate(ast@, scope),
    {
        self.control = Control::Eval(ast, scope);
    }

    fn push(&mut self, k: Continuation)
        ensures
            final(self)@ == old(self)@.pushed(k@),
    {
        self.stack.push(k);
        assert(self@.stack =~= old(self)@.stack.push(k@));
    }

    fn pop(&mut self) -> (k: Continuation)
        requires
            old(self).stack.len() > 0,
        ensures
            final(self)@ == old(self)@.popped(),
            k@ == old(self)@.stack.last(),
    {
        let k = self.stack.pop().unwrap();
        assert(self@.stack =~= old(self)@.stack.drop_last());
        k
    }

    /// Adds an empty frame inside the frame `outer` and gives its index.
    pub fn new_frame(&mut self, outer: usize) -> (env: usize)
        ensures
            final(self)@ == old(self)@.with_frame(outer),
            env == old(self)@.frames.len(),
    {
        let env = self.envs.len();
        self.envs.push(Environment::new(Some(outer)));
        assert(self@.frames =~= old(self)@.frames.push(
            Frame { outer: Some(outer), data: Seq::empty() },
        ));
        env
    }

    /// Binds a name in a frame.
    pub fn bind(&mut self, env: usize, name: String, value: DataType)
        requires
            env < old(self).envs.len(),
        ensures
            final(self)@ == old(self)@.bind(env, name@, value@),
    {
        self.envs[env].set(name, value);
        assert(self@.frames =~= defined(old(self)@.frames, env, name@, value@));
    }

    /// Resolves a name from a frame outwards.
    pub fn lookup(&self, env: usize, name: &str) -> (r: Option<DataType>)
        ensures
            match r {
                Some(v) => lookup(self@.frames, env, name@) == Some(v@),
                None => lookup(self@.frames, env, name@) is None,
            },
    {
        let mut at = env;
        loop
            invariant
                lookup(self@.frames, env, name@) == lookup(self@.frames, at, name@),
            decreases at,
        {
            if at >= self.envs.len() {
                return None;
            }
            let frame = &self.envs[at];
            assert(self@.frames[at as int] == frame@);
            match frame.get(name) {
                Some(v) => {
                    return Some(v);
                },
                None => {},
            }
            match frame.outer {
                Some(outer) => {
                    if outer < at {
                        at = outer;
                    } else {
                        return None;
                    }
                },
                None => {
                    return None;
                },
            }
        }
    }

    /// How far the machine is.
    pub fn status(&self) -> (status: Status)
        ensures
            status@ == self@.status(),
    {
        match &self.control {
            Control::Return(value) => {
                if self.stack.len() == 0 {
                    Status::Finished(Ok(value.clone()))
                } else {
                    Status::Running()
                }
            },
            Control::Raise(msg) => {
                if self.stack.len() == 0 {
                    Status::Finished(Err(RuntimeError { msg: msg.clone() }))
                } else {
                    Status::Running()
                }
            },
            Control::Wait(action) => Status::Waiting(clone_action(action)),
            _ => Status::Running(),
        }
    }
}


/// Chooses the branch of an `if` that the evaluated condition selects: the
/// else branch, or `nil` without one, for `nil` and `false`; the then branch
/// for every other value, which fails without one.
pub fn prepare_tail_call_if(args: &Vec<DataType>, condition: &DataType) -> (r: Result<
    DataType,
    RuntimeError,
>)
    ensures
        result_model(r) == branch_of(values(args@), condition@),
{
    let is_falsy = match condition {
        DataType::Nil() => true,
        DataType::Bool(b) => !*b,
        _ => false,
    };
    if is_falsy {
        if args.len() > 2 {
            Ok(args[2].clone())
        } else {
            Ok(DataType::Nil())
        }
    } else if args.len() > 1 {
        Ok(args[1].clone())
    } else {
        fail("No body for if expression")
    }
}

/// `quote`: the first argument, unevaluated.
pub fn eval_quote(args: &Vec<DataType>) -> (r: Result<DataType, RuntimeError>)
    ensures
        result_model(r) == if args.len() >= 1 {
            Ok::<Value, Seq<char>>(args@[0]@)
        } else {
            Err::<Value, Seq<char>>("Incorrect usage of quote"@)
        },
{
    if args.len() >= 1 {
        Ok(args[0].clone())
    } else {
        fail("Incorrect usage of quote")
    }
}

/// Finds the first parameter that is no symbol.
fn find_non_symbol(params: &Vec<DataType>) -> (i: usize)
    ensures
        i == first_non_symbol(values(params@)),
        i <= params.len(),
        forall|k: int| 0 <= k < i ==> params@[k] is Symbol,
{
    let ghost all = values(params@);
    let mut i: usize = 0;
    assert(all.skip(0) =~= all);
    while i < params.len()
        invariant
            i <= params.len(),
            all == values(params@),
            first_non_symbol(all) == i + first_non_symbol(all.skip(i as int)),
            forall|k: int| 0 <= k < i ==> params@[k] is Symbol,
        decreases params.len() - i,
    {
        assert(all.skip(i as int)[0] == params@[i as int]@);
        match &params[i] {
            DataType::Symbol(_) => {},
            _ => {
                return i;
            },
        }
        assert(all.skip(i as int).skip(1) =~= all.skip(i + 1));
        i += 1;
    }
    i
}

/// What an item of a quasi-quoted list asks for: nothing for a plain item,
/// else whether to splice, and the form to evaluate.
fn template(item: &DataType) -> (r: Option<(bool, DataType)>)
    ensures
        match r {
            None => template_of(item@) is Plain,
            Some((splice, form)) => template_of(item@) == if splice {
                Template::Splice(form@)
            } else {
                Template::Unquote(form@)
            },
        },
{
    proof {
        reveal_strlit("unquote");
        reveal_strlit("splice-unquote");
        assert("unquote"@.len() != "splice-unquote"@.len());
    }
    match item {
        DataType::List(inner) => {
            if inner.len() >= 2 {
                assert(values(inner@)[0] == inner@[0]@);
                assert(values(inner@)[1] == inner@[1]@);
                match &inner[0] {
                    DataType::Symbol(name) => {
                        if same_text(name.as_str(), "unquote") {
                            Some((false, inner[1].clone()))
                        } else if same_text(name.as_str(), "splice-unquote") {
                            Some((true, inner[1].clone()))
                        } else {
                            None
                        }
                    },
                    _ => None,
                }
            } else {
                None
            }
        },
        _ => None,
    }
}

impl Interpreter {
    /// `def!`: the second argument is evaluated, then bound to the symbol.
    pub fn eval_def(&mut self, args: Vec<DataType>, scope: Scope)
        ensures
            final(self)@ == old(self)@.def_rule(values(args@), scope),
    {
        if args.len() >= 2 {
            assert(values(args@)[0] == args@[0]@ && values(args@)[1] == args@[1]@);
            if let DataType::Symbol(name) = &args[0] {
                self.push(Continuation::Def(name.clone(), scope.env));
                self.evaluate(args[1].clone(), scope);
                return ;
            }
        }
        self.raise("Incorrect usage of def!");
    }

    /// `defmacro!`: the second argument is evaluated, then bound to the
    /// symbol as a macro.
    pub fn eval_defmacro(&mut self, args: Vec<DataType>, scope: Scope)
        ensures
            final(self)@ == old(self)@.defmacro_rule(values(args@), scope),
    {
        if args.len() >= 2 {
            assert(values(args@)[0] == args@[0]@ && values(args@)[1] == args@[1]@);
            if let DataType::Symbol(name) = &args[0] {
                self.push(Continuation::DefMacro(name.clone(), scope.env));
                self.evaluate(args[1].clone(), scope);
                return ;
            }
        }
        self.raise("Incorrect usage of defmacro!");
    }

    fn let_next(&mut self, bindings: Vec<DataType>, i: usize, body: DataType, scope: Scope)
        ensures
            final(self)@ == old(self)@.let_next(values(bindings@), i as int, body@, scope),
    {
        if i >= bindings.len() {
            self.evaluate(body, scope);
            return ;
        }
        assert(values(bindings@)[i as int] == bindings@[i as int]@);
        match &bindings[i] {
            DataType::Symbol(_) => {},
            _ => {
                self.raise("Invalid symbol to set in let*");
                return ;
            },
        }
        if i + 1 >= bindings.len() {
            self.raise("Each symbol in a let* environment should have a value");
            return ;
        }
        assert(values(bindings@)[i + 1] == bindings@[i + 1]@);
        let form = bindings[i + 1].clone();
        self.push(Continuation::Let(bindings, i, body, scope));
        self.evaluate(form, scope);
    }

    /// `let*`: a new frame takes the bindings, each evaluated in that frame
    /// after the earlier ones are bound; the body is evaluated there in tail
    /// position.
    pub fn prepare_tail_call_let(&mut self, args: Vec<DataType>, scope: Scope)
        ensures
            final(self)@ == old(self)@.let_rule(values(args@), scope),
    {
        if args.len() >= 2 && self.envs.len() < usize::MAX {
            assert(values(args@)[0] == args@[0]@ && values(args@)[1] == args@[1]@);
            if let DataType::List(bindings) = &args[0] {
                let bindings = clone_values(bindings);
                let body = args[1].clone();
                let env = self.new_frame(scope.env);
                self.let_next(bindings, 0, body, Scope { env, root: scope.root });
                return ;
            }
        }
        self.raise("Incorrect arguments for let*");
    }

    fn do_next(&mut self, forms: Vec<DataType>, i: usize, scope: Scope)
        ensures
            final(self)@ == old(self)@.do_next(values(forms@), i as int, scope),
    {
        if i >= forms.len() {
            self.raise("No arguments given for do");
            return ;
        }
        assert(values(forms@)[i as int] == forms@[i as int]@);
        let form = forms[i].clone();
        if i + 1 == forms.len() {
            self.evaluate(form, scope);
        } else {
            self.push(Continuation::Do(forms, i, scope));
            self.evaluate(form, scope);
        }
    }

    /// `do`: the forms are evaluated in order, the last one in tail
    /// position.
    pub fn prepare_tail_call_do(&mut self, args: Vec<DataType>, scope: Scope)
        ensures
            final(self)@ == old(self)@.do_rule(values(args@), scope),
    {
        self.do_next(args, 0, scope);
    }

    /// `if`: the condition is evaluated, then a branch in tail position.
    pub fn eval_if(&mut self, args: Vec<DataType>, scope: Scope)
        ensures
            final(self)@ == old(self)@.if_rule(values(args@), scope),
    {
        if args.len() >= 1 {
            assert(values(args@)[0] == args@[0]@);
            let form = args[0].clone();
            self.push(Continuation::If(args, scope));
            self.evaluate(form, scope);
        } else {
            self.raise("No condition for if expression");
        }
    }

    /// `fn*`: makes a closure over a new frame inside the current one.
    pub fn eval_closure(&mut self, args: Vec<DataType>, scope: Scope)
        ensures
            final(self)@ == old(self)@.closure_rule(values(args@), scope),
    {
        if args.len() >= 1 {
            assert(values(args@)[0] == args@[0]@);
            if let DataType::List(params) = &args[0] {
                let bad = find_non_symbol(params);
                if bad < params.len() {
                    assert(values(params@)[bad as int] == params@[bad as int]@);
                    let msg = params[bad].print().concat(" cannot be used as a parameter name");
                    self.raise_with(msg);
                    return ;
                }
                if args.len() < 2 || self.envs.len() >= usize::MAX {
                    self.raise("No body for closure");
                    return ;
                }
                assert(values(args@)[1] == args@[1]@);
                let mut names: Vec<String> = Vec::new();
                let mut i: usize = 0;
                while i < params.len()
                    invariant
                        i <= params.len(),
                        names@.len() == i,
                        forall|k: int| 0 <= k < params.len() ==> params@[k] is Symbol,
                        forall|k: int| 0 <= k < i ==> names@[k]@ == params@[k]@->Symbol_0,
                    decreases params.len() - i,
                {
                    if let DataType::Symbol(name) = &params[i] {
                        names.push(name.clone());
                    }
                    i += 1;
                }
                assert(texts(names@) =~= parameter_names(values(params@)));
                let body = args[1].clone();
                let env = self.new_frame(scope.env);
                self.give(
                    DataType::Closure(
                        Closure {
                            ast: Box::new(body),
                            params: names,
                            env,
                            repl_env: scope.root,
                            is_macro: false,
                        },
                    ),
                );
                return ;
            }
        }
        self.raise("Expected parameter list for function");
    }

    fn quasi_next(
        &mut self,
        items: Vec<DataType>,
        from: usize,
        initial: Vec<DataType>,
        scope: Scope,
    )
        ensures
            final(self)@ == old(self)@.quasi_next(
                values(items@),
                from as int,
                values(initial@),
                scope,
            ),
    {
        let ghost goal = old(self)@.quasi_next(
            values(items@),
            from as int,
            values(initial@),
            scope,
        );
        let mut i = from;
        let mut result = initial;
        while i < items.len()
            invariant
                self@ == old(self)@,
                goal == old(self)@.quasi_next(
                    values(items@),
                    from as int,
                    values(initial@),
                    scope,
                ),
                goal == old(self)@.quasi_next(values(items@), i as int, values(result@), scope),
            decreases items.len() - i,
        {
            assert(values(items@)[i as int] == items@[i as int]@);
            match template(&items[i]) {
                None => {
                    let ghost before = values(result@);
                    result.push(items[i].clone());
                    assert(values(result@) =~= before.push(items@[i as int]@));
                    i += 1;
                },
                Some((splice, form)) => {
                    self.push(Continuation::Quasi(items, i, result, splice, scope));
                    self.evaluate(form, scope);
                    return ;
                },
            }
        }
        self.give(DataType::List(result));
    }

    /// `quasiquote`: a list is a template whose `unquote` and
    /// `splice-unquote` items are filled in; anything else is returned as it
    /// is.
    pub fn eval_quasiquote(&mut self, args: Vec<DataType>, scope: Scope)
        ensures
            final(self)@ == old(self)@.quasiquote_rule(values(args@), scope),
    {
        if args.len() >= 1 {
            assert(values(args@)[0] == args@[0]@);
            match &args[0] {
                DataType::List(items) => {
                    let empty: Vec<DataType> = Vec::new();
                    assert(values(empty@) =~= Seq::empty());
                    self.quasi_next(clone_values(items), 0, empty, scope);
                },
                other => {
                    self.give(other.clone());
                },
            }
        } else {
            self.raise("Incorrect usage of quasiquote");
        }
    }

    /// `try*`: the handler is evaluated first, then the body under it.
    pub fn eval_try(&mut self, args: Vec<DataType>, scope: Scope)
        ensures
            final(self)@ == old(self)@.try_rule(values(args@), scope),
    {
        if args.len() >= 2 {
            assert(values(args@)[0] == args@[0]@ && values(args@)[1] == args@[1]@);
            self.push(Continuation::TryHandler(args[0].clone(), scope));
            self.evaluate(args[1].clone(), scope);
        } else {
            self.raise("Incorrect usage of try!");
        }
    }

    /// `eval`: the argument is evaluated where it stands, its value then in
    /// the root frame.
    pub fn eval_form(&mut self, args: Vec<DataType>, scope: Scope)
        ensures
            final(self)@ == old(self)@.eval_rule(values(args@), scope),
    {
        if args.len() >= 1 {
            assert(values(args@)[0] == args@[0]@);
            self.push(Continuation::EvalArg(scope.root));
            self.evaluate(args[0].clone(), scope);
        } else {
            self.raise("No value given to eval");
        }
    }

    fn args_next(&mut self, forms: Vec<DataType>, done: Vec<DataType>, scope: Scope)
        ensures
            final(self)@ == old(self)@.args_next(values(forms@), values(done@), scope),
    {
        if done.len() < forms.len() {
            assert(values(forms@)[done.len() as int] == forms@[done.len() as int]@);
            let form = forms[done.len()].clone();
            self.push(Continuation::Args(forms, done, scope));
            self.evaluate(form, scope);
        } else if done.len() == 0 {
            self.raise("cannot call empty list");
        } else {
            let mut rest = done;
            let ghost all = values(rest@);
            let function = rest.remove(0);
            assert(values(rest@) =~= all.skip(1));
            assert(all[0] == function@);
            self.set_control(Control::Apply(function, rest));
        }
    }

    fn items_next(&mut self, forms: Vec<DataType>, done: Vec<DataType>, scope: Scope)
        ensures
            final(self)@ == old(self)@.items_next(values(forms@), values(done@), scope),
    {
        if done.len() < forms.len() {
            assert(values(forms@)[done.len() as int] == forms@[done.len() as int]@);
            let form = forms[done.len()].clone();
            self.push(Continuation::Items(forms, done, scope));
            self.evaluate(form, scope);
        } else {
            self.give(DataType::Vector(done));
        }
    }

    fn entries_next(
        &mut self,
        pairs: Vec<(String, DataType)>,
        done: Vec<(String, DataType)>,
        scope: Scope,
    )
        ensures
            final(self)@ == old(self)@.entries_next(entries(pairs@), entries(done@), scope),
    {
        if done.len() < pairs.len() {
            assert(entries(pairs@)[done.len() as int].1 == pairs@[done.len() as int].1@);
            let form = pairs[done.len()].1.clone();
            self.push(Continuation::Entries(pairs, done, scope));
            self.evaluate(form, scope);
        } else {
            self.give(DataType::Dictionary(done));
        }
    }

    fn map_next(
        &mut self,
        function: DataType,
        items: Vec<DataType>,
        i: usize,
        results: Vec<DataType>,
    )
        ensures
            final(self)@ == old(self)@.map_next(
                function@,
                values(items@),
                i as int,
                values(results@),
            ),
    {
        if i < items.len() {
            assert(values(items@)[i as int] == items@[i as int]@);
            let mut args: Vec<DataType> = Vec::new();
            args.push(items[i].clone());
            assert(values(args@) =~= seq![items@[i as int]@]);
            let callee = function.clone();
            self.push(Continuation::MapItems(function, items, i, results));
            self.set_control(Control::Apply(callee, args));
        } else {
            self.give(DataType::List(results));
        }
    }
}


impl Closure {
    /// Binds the parameters of this closure to the arguments, in its own
    /// frame, and gives the scope its body is evaluated in.  Parameters and
    /// arguments are walked together; a parameter named `&` binds the next
    /// name to the list of the arguments that are left.  Bindings made
    /// before a mismatch shows stay.
    pub fn prepare_tail_call(&self, args: &Vec<DataType>, interp: &mut Interpreter) -> (r: Result<
        Scope,
        RuntimeError,
    >)
        requires
            self.env < old(interp).envs.len(),
        ensures
            final(interp)@ == (State {
                frames: old(interp)@.frames.update(
                    self.env as int,
                    Frame {
                        outer: old(interp)@.frames[self.env as int].outer,
                        data: bound(
                            old(interp)@.frames[self.env as int].data,
                            self@.params,
                            values(args@),
                            0,
                        ).0,
                    },
                ),
                ..old(interp)@
            }),
            match r {
                Ok(scope) => scope == (Scope { env: self.env, root: self.repl_env }) && bound(
                    old(interp)@.frames[self.env as int].data,
                    self@.params,
                    values(args@),
                    0,
                ).1 is None,
                Err(e) => bound(
                    old(interp)@.frames[self.env as int].data,
                    self@.params,
                    values(args@),
                    0,
                ).1 == Some(e.msg@),
            },
    {
        let ghost start = old(interp)@.frames[self.env as int].data;
        let ghost goal = bound(start, self@.params, values(args@), 0);
        let ghost names = self@.params;
        let env = self.env;
        let mut i: usize = 0;
        let mut complaint: Option<RuntimeError> = None;
        assert(interp@.frames =~= old(interp)@.frames.update(
            env as int,
            Frame { outer: old(interp)@.frames[env as int].outer, data: start },
        ));
        while i < self.params.len()
            invariant
                env == self.env,
                env < interp.envs.len(),
                env < old(interp)@.frames.len(),
                interp@.frames.len() == old(interp)@.frames.len(),
                start == old(interp)@.frames[env as int].data,
                names == self@.params,
                names.len() == self.params.len(),
                complaint is None,
                goal == bound(start, names, values(args@), 0),
                interp@ == (State {
                    frames: old(interp)@.frames.update(
                        env as int,
                        Frame {
                            outer: old(interp)@.frames[env as int].outer,
                            data: interp@.frames[env as int].data,
                        },
                    ),
                    ..old(interp)@
                }),
                goal == bound(interp@.frames[env as int].data, names, values(args@), i as nat),
            decreases self.params.len() - i,
        {
            let ghost data = interp@.frames[env as int].data;
            assert(names[i as int] == self.params@[i as int]@);
            if same_text(self.params[i].as_str(), "&") {
                if i + 1 < self.params.len() {
                    assert(names[i + 1] == self.params@[i + 1]@);
                    let rest = clone_from(args, i);
                    interp.bind(env, self.params[i + 1].clone(), DataType::List(rest));
                    assert(interp@.frames =~= old(interp)@.frames.update(
                        env as int,
                        Frame { outer: old(interp)@.frames[env as int].outer, data: goal.0 },
                    ));
                    return Ok(Scope { env, root: self.repl_env });
                } else {
                    return Err(
                        RuntimeError {
                            msg: String::from_str(
                                "& found in closure without variadic argument name",
                            ),
                        },
                    );
                }
            }
            if i >= args.len() {
                return Err(
                    RuntimeError {
                        msg: String::from_str("Parameters given do not match expected parameters"),
                    },
                );
            }
            assert(values(args@)[i as int] == args@[i as int]@);
            interp.bind(env, self.params[i].clone(), args[i].clone());
            assert(interp@.frames =~= old(interp)@.frames.update(
                env as int,
                Frame {
                    outer: old(interp)@.frames[env as int].outer,
                    data: interp@.frames[env as int].data,
                },
            ));
            i += 1;
        }
        if i >= args.len() {
            Ok(Scope { env, root: self.repl_env })
        } else {
            Err(
                RuntimeError {
                    msg: String::from_str("Parameters given do not match expected parameters"),
                },
            )
        }
    }

    /// Calls this closure: the parameters are bound and the body becomes the
    /// form under evaluation.
    pub fn func(&self, args: &Vec<DataType>, interp: &mut Interpreter)
        ensures
            final(interp)@ == old(interp)@.call_closure(self@, values(args@)),
    {
        interp.call_closure(self.clone(), clone_values(args));
    }
}

/// The line `prn` writes.
fn show_line(args: &Vec<DataType>) -> (line: String)
    ensures
        line@ == shown_line(values(args@), args.len() as nat),
{
    let mut line = String::new();
    let mut i: usize = 0;
    while i < args.len()
        invariant
            i <= args.len(),
            line@ == shown_line(values(args@), i as nat),
        decreases args.len() - i,
    {
        assert(values(args@)[i as int] == args@[i as int]@);
        if i > 0 {
            line.append(" ");
        }
        match &args[i] {
            DataType::String(s) => {
                line.append(s.as_str());
            },
            other => {
                let form = other.print();
                line.append(form.as_str());
            },
        }
        i += 1;
        assert(line@ =~= shown_line(values(args@), i as nat));
    }
    line
}

/// The arguments of `apply` spread out.
fn spread_out(args: &Vec<DataType>, from: usize) -> (out: Vec<DataType>)
    requires
        from <= args.len(),
    ensures
        values(out@) == spread(values(args@).skip(from as int), (args.len() - from) as nat),
{
    let ghost tail = values(args@).skip(from as int);
    let mut out: Vec<DataType> = Vec::new();
    let mut i: usize = from;
    assert(values(out@) =~= Seq::empty());
    while i < args.len()
        invariant
            from <= i <= args.len(),
            tail == values(args@).skip(from as int),
            values(out@) == spread(tail, (i - from) as nat),
        decreases args.len() - i,
    {
        assert(tail[i - from] == args@[i as int]@);
        let ghost before = values(out@);
        match sequence_items(&args[i]) {
            Some(items) => {
                extend_with(&mut out, items);
            },
            None => {
                out.push(args[i].clone());
                assert(values(out@) =~= before.push(args@[i as int]@));
            },
        }
        i += 1;
    }
    out
}

fn float_operation(code: i8) -> (op: FloatOp)
    ensures
        op == float_op(code as int),
{
    if code == ADDITION {
        FloatOp::Add
    } else if code == SUBTRACTION {
        FloatOp::Subtract
    } else if code == DIVISION {
        FloatOp::Divide
    } else if code == MULTIPLICATION {
        FloatOp::Multiply
    } else if code == GREATER_THAN {
        FloatOp::Greater
    } else if code == LESS_THAN {
        FloatOp::Less
    } else if code == LESS_THAN_OR_EQUALS {
        FloatOp::LessOrEqual
    } else {
        FloatOp::GreaterOrEqual
    }
}

impl Interpreter {
    /// Calls a closure: its parameters are bound in its frame and its body
    /// becomes the form under evaluation, in that frame.
    pub fn call_closure(&mut self, c: Closure, args: Vec<DataType>)
        ensures
            final(self)@ == old(self)@.call_closure(c@, values(args@)),
    {
        if c.env >= self.envs.len() {
            self.raise("Unknown environment");
            return ;
        }
        match c.prepare_tail_call(&args, self) {
            Ok(scope) => {
                let Closure { ast, .. } = c;
                self.evaluate(*ast, scope);
            },
            Err(e) => {
                self.raise_with(e.msg);
            },
        }
    }

    fn read_string(&mut self, text: &String)
        ensures
            final(self)@ == match read_text(text@) {
                Ok(v) => old(self)@.give(v),
                Err(msg) => old(self)@.raise(msg),
            },
    {
        let re = match get_regex() {
            Ok(re) => re,
            Err(_) => {
                self.raise("invalid token pattern");
                return ;
            },
        };
        let tokens = tokenize(text.clone(), re);
        let mut reader = Reader::new(tokens);
        match reader.read() {
            Ok(v) => self.give(v),
            Err(e) => self.raise_with(e.msg),
        }
    }

    fn special_native(&mut self, code: i8, args: Vec<DataType>)
        ensures
            final(self)@ == old(self)@.special_native(code as int, values(args@)),
    {
        assert(forall|k: int| 0 <= k < args.len() ==> values(args@)[k] == args@[k]@);
        if code == PRINT {
            self.set_control(Control::Wait(Action::Print(show_line(&args))));
        } else if code == READ_STR {
            if args.len() == 1 {
                if let DataType::String(text) = &args[0] {
                    self.read_string(text);
                    return ;
                }
            }
            self.raise("Incorrect arguments for read-string");
        } else if code == SLURP {
            if args.len() == 1 {
                if let DataType::String(path) = &args[0] {
                    self.set_control(Control::Wait(Action::Slurp(path.clone())));
                    return ;
                }
            }
            self.raise("Incorrect arguments for slurp");
        } else if code == ATOM {
            if args.len() >= 1 && self.atoms.len() < usize::MAX {
                let cell = self.atoms.len();
                self.atoms.push(args[0].clone());
                assert(self@.cells =~= old(self)@.cells.push(args@[0]@));
                self.give(DataType::Atom(cell));
            } else {
                self.raise("Not enough arguments to atom");
            }
        } else if code == DEREF {
            if args.len() >= 1 {
                if let DataType::Atom(cell) = &args[0] {
                    if *cell < self.atoms.len() {
                        let value = self.atoms[*cell].clone();
                        self.give(value);
                        return ;
                    }
                }
            }
            self.raise("Incorrect arguments to deref");
        } else if code == RESET_ATOM {
            if args.len() >= 2 {
                if let DataType::Atom(cell) = &args[0] {
                    if *cell < self.atoms.len() {
                        self.atoms[*cell] = args[1].clone();
                        assert(self@.cells =~= old(self)@.cells.update(*cell as int, args@[1]@));
                        self.give(args[1].clone());
                        return ;
                    }
                }
            }
            self.raise("Incorrect arguments to reset!");
        } else if code == SWAP_ATOM {
            if args.len() >= 2 {
                if let DataType::Atom(cell) = &args[0] {
                    if *cell < self.atoms.len() {
                        let mut call: Vec<DataType> = Vec::new();
                        call.push(self.atoms[*cell].clone());
                        assert(values(call@) =~= seq![self@.cells[*cell as int]]);
                        let extra = clone_from(&args, 2);
                        extend_with(&mut call, &extra);
                        let function = args[1].clone();
                        self.push(Continuation::Swap(*cell));
                        self.set_control(Control::Apply(function, call));
                        return ;
                    }
                }
            }
            self.raise("Incorrect arguments to swap!");
        } else if code == APPLY {
            if args.len() >= 1 {
                let callable = match &args[0] {
                    DataType::Closure(_) => true,
                    DataType::NativeFunction(_) => true,
                    _ => false,
                };
                if callable {
                    let call = spread_out(&args, 1);
                    self.set_control(Control::Apply(args[0].clone(), call));
                    return ;
                }
            }
            self.raise("Wrong arguments for apply");
        } else if code == MAP_ITEMS {
            if args.len() >= 2 {
                let callable = match &args[0] {
                    DataType::Closure(_) => true,
                    DataType::NativeFunction(_) => true,
                    _ => false,
                };
                if callable {
                    if let Some(items) = sequence_items(&args[1]) {
                        let empty: Vec<DataType> = Vec::new();
                        assert(values(empty@) =~= Seq::empty());
                        self.map_next(args[0].clone(), clone_values(items), 0, empty);
                        return ;
                    }
                }
            }
            self.raise("Wrong arguments for map");
        } else if code == TIME_MS {
            self.set_control(Control::Wait(Action::TimeMs()));
        } else if code == INPUT {
            if args.len() >= 1 {
                if let DataType::String(prompt) = &args[0] {
                    self.set_control(Control::Wait(Action::Input(prompt.clone())));
                    return ;
                }
            }
            self.set_control(Control::Wait(Action::Input(String::new())));
        } else {
            self.raise("Unknown native function");
        }
    }

    /// Calls a native function.
    pub fn call_native(&mut self, code: i8, args: Vec<DataType>)
        ensures
            final(self)@ == old(self)@.native_step(code as int, values(args@)),
    {
        let arithmetic = arithmetic_code(code);
        let ordering = ordering_code(code);
        if (ordering || (arithmetic && code != MODULO)) && args.len() == 2 {
            assert(values(args@)[0] == args@[0]@ && values(args@)[1] == args@[1]@);
            if let (DataType::Float(left), DataType::Float(right)) = (&args[0], &args[1]) {
                if code == DIVISION && (same_text(right.as_str(), "0.0") || same_text(
                    right.as_str(),
                    "-0.0",
                )) {
                    self.raise("Divide by zero error!");
                } else {
                    self.set_control(
                        Control::Wait(
                            Action::Float(float_operation(code), left.clone(), right.clone()),
                        ),
                    );
                }
                return ;
            }
        }
        if arithmetic {
            self.settle(compute(code, &args));
        } else if ordering {
            self.settle(compare(code, &args));
        } else if plain_code(code) {
            self.settle(call_plain(code, &args));
        } else {
            self.special_native(code, args);
        }
    }

    /// Applies a function to evaluated arguments.
    pub fn apply(&mut self, function: DataType, args: Vec<DataType>)
        ensures
            final(self)@ == old(self)@.apply_step(function@, values(args@)),
    {
        match function {
            DataType::Closure(c) => self.call_closure(c, args),
            DataType::NativeFunction(code) => self.call_native(code, args),
            _ => self.raise("cannot call"),
        }
    }
}


impl Interpreter {
    /// Evaluates a non-empty list: a special form by the symbol at its head,
    /// else a call, whose head is evaluated first.
    pub fn eval_list(&mut self, children: Vec<DataType>, scope: Scope)
        requires
            children.len() > 0,
        ensures
            final(self)@ == old(self)@.list_rule(values(children@), scope),
    {
        assert(values(children@)[0] == children@[0]@);
        let special: u8 = match &children[0] {
            DataType::Symbol(name) => {
                let name = name.as_str();
                if same_text(name, "def!") {
                    1
                } else if same_text(name, "defmacro!") {
                    2
                } else if same_text(name, "try*") {
                    3
                } else if same_text(name, "quote") {
                    4
                } else if same_text(name, "quasiquote") {
                    5
                } else if same_text(name, "let*") {
                    6
                } else if same_text(name, "do") {
                    7
                } else if same_text(name, "if") {
                    8
                } else if same_text(name, "fn*") {
                    9
                } else if same_text(name, "eval") {
                    10
                } else {
                    0
                }
            },
            _ => 0,
        };
        if special == 0 {
            let head = children[0].clone();
            self.push(Continuation::Head(children, scope));
            self.evaluate(head, scope);
            return ;
        }
        let mut args = children;
        let ghost all = values(args@);
        args.remove(0);
        assert(values(args@) =~= all.skip(1));
        if special == 1 {
            self.eval_def(args, scope);
        } else if special == 2 {
            self.eval_defmacro(args, scope);
        } else if special == 3 {
            self.eval_try(args, scope);
        } else if special == 4 {
            self.settle(eval_quote(&args));
        } else if special == 5 {
            self.eval_quasiquote(args, scope);
        } else if special == 6 {
            self.prepare_tail_call_let(args, scope);
        } else if special == 7 {
            self.prepare_tail_call_do(args, scope);
        } else if special == 8 {
            self.eval_if(args, scope);
        } else if special == 9 {
            self.eval_closure(args, scope);
        } else {
            self.eval_form(args, scope);
        }
    }

    /// Evaluates a form.
    pub fn eval_ast(&mut self, ast: DataType, scope: Scope)
        ensures
            final(self)@ == old(self)@.eval_step(ast@, scope),
    {
        match ast {
            DataType::Symbol(name) => {
                match self.lookup(scope.env, name.as_str()) {
                    Some(v) => self.give(v),
                    None => {
                        let msg = String::from_str("unknown symbol: ").concat(name.as_str());
                        self.raise_with(msg);
                    },
                }
            },
            DataType::Vector(items) => {
                let empty: Vec<DataType> = Vec::new();
                assert(values(empty@) =~= Seq::empty());
                self.items_next(items, empty, scope);
            },
            DataType::Dictionary(pairs) => {
                let empty: Vec<(String, DataType)> = Vec::new();
                assert(entries(empty@) =~= Seq::empty());
                self.entries_next(pairs, empty, scope);
            },
            DataType::List(children) => {
                if children.len() == 0 {
                    self.raise("cannot call empty list");
                } else {
                    self.eval_list(children, scope);
                }
            },
            other => {
                self.give(other);
            },
        }
    }

    /// Hands a value to a continuation that was taken off the stack.
    pub fn resume_with(&mut self, k: Continuation, value: DataType)
        ensures
            final(self)@ == old(self)@.return_step(k@, value@),
    {
        match k {
            Continuation::Def(name, env) => {
                if env < self.envs.len() {
                    self.bind(env, name, value.clone());
                    self.give(value);
                } else {
                    self.raise("Unknown environment");
                }
            },
            Continuation::DefMacro(name, env) => {
                match value {
                    DataType::Closure(c) => {
                        if env < self.envs.len() {
                            let Closure { ast, params, env: frame, repl_env, is_macro: _ } = c;
                            let made = DataType::Closure(
                                Closure { ast, params, env: frame, repl_env, is_macro: true },
                            );
                            self.bind(env, name, made.clone());
                            self.give(made);
                        } else {
                            self.raise("Unknown environment");
                        }
                    },
                    _ => self.raise("Expected closure for macro"),
                }
            },
            Continuation::Let(bindings, index, body, scope) => {
                if index < bindings.len() && index + 1 < bindings.len() && scope.env
                    < self.envs.len() {
                    assert(values(bindings@)[index as int] == bindings@[index as int]@);
                    if let DataType::Symbol(name) = &bindings[index] {
                        self.bind(scope.env, name.clone(), value);
                        self.let_next(bindings, index + 2, body, scope);
                        return ;
                    }
                }
                self.raise("Invalid symbol to set in let*");
            },
            Continuation::Do(forms, index, scope) => {
                if index < forms.len() {
                    self.do_next(forms, index + 1, scope);
                } else {
                    self.raise("No arguments given for do");
                }
            },
            Continuation::If(args, scope) => {
                match prepare_tail_call_if(&args, &value) {
                    Ok(form) => self.evaluate(form, scope),
                    Err(e) => self.raise_with(e.msg),
                }
            },
            Continuation::TryHandler(body, scope) => {
                match value {
                    DataType::Closure(c) => {
                        self.push(Continuation::TryBody(c));
                        self.evaluate(body, scope);
                    },
                    _ => self.raise("Incorrect usage of try!"),
                }
            },
            Continuation::TryBody(_) => {
                self.give(value);
            },
            Continuation::EvalArg(root) => {
                self.evaluate(value, Scope { env: root, root });
            },
            Continuation::Head(children, scope) => {
                let expands = match &value {
                    DataType::Closure(c) => c.is_macro,
                    _ => false,
                };
                if expands {
                    if let DataType::Closure(c) = value {
                        let args = clone_from(&children, 1);
                        self.push(Continuation::Expand(scope));
                        self.call_closure(c, args);
                    }
                } else {
                    let mut done: Vec<DataType> = Vec::new();
                    done.push(value);
                    assert(values(done@) =~= seq![value@]);
                    self.args_next(children, done, scope);
                }
            },
            Continuation::Expand(scope) => {
                self.evaluate(value, scope);
            },
            Continuation::Args(forms, done, scope) => {
                let mut done = done;
                let ghost before = values(done@);
                done.push(value);
                assert(values(done@) =~= before.push(value@));
                self.args_next(forms, done, scope);
            },
            Continuation::Items(forms, done, scope) => {
                let mut done = done;
                let ghost before = values(done@);
                done.push(value);
                assert(values(done@) =~= before.push(value@));
                self.items_next(forms, done, scope);
            },
            Continuation::Entries(pairs, done, scope) => {
                if done.len() < pairs.len() {
                    let mut done = done;
                    let ghost before = entries(done@);
                    let key = pairs[done.len()].0.clone();
                    assert(entries(pairs@)[before.len() as int].0 == key@);
                    done.push((key, value));
                    assert(entries(done@) =~= before.push((key@, value@)));
                    self.entries_next(pairs, done, scope);
                } else {
                    self.give(DataType::Dictionary(done));
                }
            },
            Continuation::Quasi(items, index, result, splice, scope) => {
                let mut result = result;
                let ghost before = values(result@);
                if splice {
                    match value {
                        DataType::List(x) => {
                            extend_with(&mut result, &x);
                        },
                        _ => {
                            self.raise("List not given to splice-unquote");
                            return ;
                        },
                    }
                } else {
                    result.push(value);
                    assert(values(result@) =~= before.push(value@));
                }
                if index < items.len() {
                    self.quasi_next(items, index + 1, result, scope);
                } else {
                    self.give(DataType::List(result));
                }
            },
            Continuation::Swap(cell) => {
                if cell < self.atoms.len() {
                    self.atoms[cell] = value.clone();
                    assert(self@.cells =~= old(self)@.cells.update(cell as int, value@));
                    self.give(value);
                } else {
                    self.raise("Incorrect arguments to swap!");
                }
            },
            Continuation::MapItems(function, items, index, results) => {
                let mut results = results;
                let ghost before = values(results@);
                results.push(value);
                assert(values(results@) =~= before.push(value@));
                if index < items.len() {
                    self.map_next(function, items, index + 1, results);
                } else {
                    self.give(DataType::List(results));
                }
            },
        }
    }

    /// Hands an error to a continuation that was taken off the stack.
    pub fn unwind(&mut self, k: Continuation, msg: String)
        ensures
            final(self)@ == old(self)@.raise_step(k@, msg@),
    {
        match k {
            Continuation::TryBody(handler) => {
                let mut args: Vec<DataType> = Vec::new();
                args.push(DataType::String(msg));
                assert(values(args@) =~= seq![Value::Str(msg@)]);
                self.call_closure(handler, args);
            },
            Continuation::TryHandler(_, _) => {
                self.raise("Incorrect usage of try!");
            },
            Continuation::Quasi(_, _, _, splice, _) => {
                if splice {
                    self.raise("List not given to splice-unquote");
                } else {
                    self.raise_with(msg);
                }
            },
            _ => {
                self.raise_with(msg);
            },
        }
    }

    /// Takes one step.  A finished and a waiting machine stay as they are.
    pub fn step(&mut self) -> (status: Status)
        ensures
            final(self)@ == old(self)@.next(),
            status@ == final(self)@.status(),
            state_ok(old(self)@) ==> state_ok(final(self)@),
    {
        proof {
            if state_ok(self@) {
                lemma_next_ok(self@);
            }
        }
        let idle = match &self.control {
            Control::Return(_) => self.stack.len() == 0,
            Control::Raise(_) => self.stack.len() == 0,
            Control::Wait(_) => true,
            _ => false,
        };
        if idle {
            return self.status();
        }
        let mut control = Control::Return(DataType::Nil());
        core::mem::swap(&mut self.control, &mut control);
        match control {
            Control::Eval(ast, scope) => {
                self.eval_ast(ast, scope);
            },
            Control::Apply(function, args) => {
                self.apply(function, args);
            },
            Control::Return(value) => {
                let k = self.pop();
                self.resume_with(k, value);
            },
            Control::Raise(msg) => {
                let k = self.pop();
                self.unwind(k, msg);
            },
            Control::Wait(action) => {
                self.set_control(Control::Wait(action));
            },
        }
        self.status()
    }

    /// Takes steps until the machine is finished, waits for the host, or has
    /// taken `fuel` steps.
    pub fn run(&mut self, fuel: u64) -> (status: Status)
        ensures
            final(self)@ == old(self)@.run(fuel as nat),
            status@ == final(self)@.status(),
            state_ok(old(self)@) ==> state_ok(final(self)@),
    {
        proof {
            if state_ok(self@) {
                lemma_run_ok(self@, fuel as nat);
            }
        }
        let mut left = fuel;
        let mut status = self.status();
        while left > 0 && matches!(status, Status::Running())
            invariant
                old(self)@.run(fuel as nat) == self@.run(left as nat),
                status@ == self@.status(),
            decreases left,
        {
            status = self.step();
            left -= 1;
        }
        status
    }

    /// Hands the host's answer to the machine that waits for it.
    pub fn answer(&mut self, event: Event)
        ensures
            final(self)@ == old(self)@.answered(event@),
            state_ok(old(self)@) ==> state_ok(final(self)@),
    {
        proof {
            if state_ok(self@) {
                lemma_answered_ok(self@, event@);
            }
        }
        let waiting = match &self.control {
            Control::Wait(_) => true,
            _ => false,
        };
        if !waiting {
            return ;
        }
        let mut control = Control::Return(DataType::Nil());
        core::mem::swap(&mut self.control, &mut control);
        if let Control::Wait(action) = control {
            match (action, event) {
                (Action::Print(_), Event::Done()) => self.give(DataType::Nil()),
                (Action::Slurp(_), Event::Text(text)) => self.give(DataType::String(text)),
                (Action::Slurp(_), Event::Failed(reason)) => {
                    let msg = String::from_str("Couldn't load file: ").concat(reason.as_str());
                    self.raise_with(msg);
                },
                (Action::Input(_), Event::Text(text)) => self.give(DataType::String(text)),
                (Action::Input(_), Event::End()) => self.give(DataType::String(String::new())),
                (Action::TimeMs(), Event::Integer(i)) => self.give(DataType::Integer(i)),
                (Action::Float(op, _, _), Event::Float(text)) => {
                    match op {
                        FloatOp::Add | FloatOp::Subtract | FloatOp::Multiply | FloatOp::Divide => {
                            self.give(DataType::Float(text))
                        },
                        _ => self.raise("Unexpected answer from the host"),
                    }
                },
                (Action::Float(op, _, _), Event::Bool(b)) => {
                    match op {
                        FloatOp::Add | FloatOp::Subtract | FloatOp::Multiply | FloatOp::Divide => {
                            self.raise("Unexpected answer from the host")
                        },
                        _ => self.give(DataType::Bool(b)),
                    }
                },
                _ => self.raise("Unexpected answer from the host"),
            }
        }
    }

    /// Hands the host's answer to the machine and runs it on.
    pub fn resume(&mut self, event: Event) -> (status: Status)
        ensures
            final(self)@ == old(self)@.answered(event@).run(u64::MAX as nat),
            status@ == final(self)@.status(),
            state_ok(old(self)@) ==> state_ok(final(self)@),
    {
        self.answer(event);
        self.run(u64::MAX)
    }
}

/// The state that is about to evaluate a form, with nothing left to do after
/// it.
pub open spec fn loaded(st: State, ast: Value, scope: Scope) -> State {
    State { stack: Seq::empty(), control: ControlModel::Eval(ast, scope), ..st }
}

/// Evaluates a form in the frame `current_env`, with `repl_env` as the root
/// frame, until the value is known or the host is needed.
pub fn eval(
    ast: &DataType,
    current_env: usize,
    repl_env: usize,
    interp: &mut Interpreter,
) -> (status: Status)
    ensures
        final(interp)@ == loaded(
            old(interp)@,
            ast@,
            Scope { env: current_env, root: repl_env },
        ).run(u64::MAX as nat),
        status@ == final(interp)@.status(),
        state_ok(old(interp)@) && value_ok(
            ast@,
            old(interp)@.frames.len(),
            old(interp)@.cells.len(),
        ) && scope_ok(Scope { env: current_env, root: repl_env }, old(interp)@.frames.len())
            ==> state_ok(final(interp)@),
{
    interp.stack = Vec::new();
    assert(interp@.stack =~= Seq::empty());
    interp.evaluate(ast.clone(), Scope { env: current_env, root: repl_env });
    interp.run(u64::MAX)
}

} // verus!
