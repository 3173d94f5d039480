//! The machine that evaluation runs on, and what one step of it does.
//!
//! The machine holds an arena of environment frames, an arena of atom cells,
//! a stack of continuations and a control.  One step rewrites the control and
//! the top of the stack.  A form in tail position is evaluated without a new
//! continuation, so recursion in tail position leaves the stack as it was.
//! What only the host can do is handed out as an action; the machine waits
//! until the answer is handed back.

use vstd::prelude::*;

use crate::env::{
    arithmetic, is_arithmetic, is_ordering, is_plain, items_of, ordering, plain_result, ADDITION,
    APPLY, ATOM, DEREF, DIVISION, GREATER_THAN, INPUT, LESS_THAN, LESS_THAN_OR_EQUALS, MAP_ITEMS,
    MODULO, MULTIPLICATION, PRINT, READ_STR, RESET_ATOM, SLURP, SUBTRACTION, SWAP_ATOM, TIME_MS,
};
use crate::evaluator::RuntimeError;
use crate::reader::read_text;
use crate::variable_type::{
    entries, is_zero_text, position_of, print_form, values, with_entry, Closure, ClosureValue,
    DataType, Value,
};

verus! {

/// One frame of bindings, with the index of the frame around it.
#[derive(Debug)]
pub struct Environment {
    pub outer: Option<usize>,
    pub data: Vec<(String, DataType)>,
}

/// The model of an [`Environment`].
pub struct Frame {
    pub outer: Option<usize>,
    pub data: Seq<(Seq<char>, Value)>,
}

/// Where a form is evaluated: the frame that resolves its symbols, and the
/// root frame that `eval` goes back to.
#[derive(Clone, Copy, Debug)]
pub struct Scope {
    pub env: usize,
    pub root: usize,
}

/// An operation on two floats, done by the host.
#[derive(Clone, Copy, Debug)]
pub enum FloatOp {
    Add,
    Subtract,
    Multiply,
    Divide,
    Greater,
    Less,
    GreaterOrEqual,
    LessOrEqual,
}

/// What the machine asks of the host.
#[derive(Debug)]
pub enum Action {
    /// Write the line, followed by a newline.
    Print(String),
    /// Read the file at the path.
    Slurp(String),
    /// Show the prompt and read one line.
    Input(String),
    /// Read the clock: milliseconds since the Unix epoch.
    TimeMs(),
    /// Compute on two floats given as decimal text.
    Float(FloatOp, String, String),
}

/// The model of an [`Action`].
pub enum ActionModel {
    Print(Seq<char>),
    Slurp(Seq<char>),
    Input(Seq<char>),
    TimeMs,
    Float(FloatOp, Seq<char>, Seq<char>),
}

/// What the host answers.
#[derive(Debug)]
pub enum Event {
    /// The action was done and has no result.
    Done(),
    /// A text: the file read, or the line read.
    Text(String),
    /// The action failed, for the given reason.
    Failed(String),
    /// The input has ended.
    End(),
    /// An integer: the clock reading.
    Integer(i128),
    /// A float, as decimal text.
    Float(String),
    /// A truth value: the outcome of a comparison.
    Bool(bool),
}

/// The model of an [`Event`].
pub enum EventModel {
    Done,
    Text(Seq<char>),
    Failed(Seq<char>),
    End,
    Integer(int),
    Float(Seq<char>),
    Bool(bool),
}

/// What is left to do once the value under evaluation is known.
#[derive(Debug)]
pub enum Continuation {
    /// Bind the value to the name in the frame and return it.
    Def(String, usize),
    /// The value must be a closure: bind it as a macro and return it.
    DefMacro(String, usize),
    /// Bind the value to the symbol at `index` of the bindings in the frame
    /// of the scope, then go on with the next binding or with the body.
    Let(Vec<DataType>, usize, DataType, Scope),
    /// Drop the value and go on with the form after `index`.
    Do(Vec<DataType>, usize, Scope),
    /// The value is the condition: go on with one of the branches.
    If(Vec<DataType>, Scope),
    /// The value is the handler of a `try*`: evaluate the body under it.
    TryHandler(DataType, Scope),
    /// The value is that of the body of a `try*`; an error goes to the
    /// handler.
    TryBody(Closure),
    /// The value is a form: evaluate it in the root frame.
    EvalArg(usize),
    /// The value is the head of a call: expand it if it is a macro, else
    /// evaluate the whole call.
    Head(Vec<DataType>, Scope),
    /// The value is the expansion of a macro: evaluate it.
    Expand(Scope),
    /// The value is the next evaluated element of a call.
    Args(Vec<DataType>, Vec<DataType>, Scope),
    /// The value is the next evaluated element of a vector.
    Items(Vec<DataType>, Vec<DataType>, Scope),
    /// The value is the next evaluated value of a dictionary.
    Entries(Vec<(String, DataType)>, Vec<(String, DataType)>, Scope),
    /// The value fills the template at `index`; spliced in if the flag is
    /// set.
    Quasi(Vec<DataType>, usize, Vec<DataType>, bool, Scope),
    /// The value is the new content of the cell.
    Swap(usize),
    /// The value is the image of the item at `index`.
    MapItems(DataType, Vec<DataType>, usize, Vec<DataType>),
}

/// The model of a [`Continuation`].
pub enum ContinuationModel {
    Def(Seq<char>, usize),
    DefMacro(Seq<char>, usize),
    Let(Seq<Value>, usize, Value, Scope),
    Do(Seq<Value>, usize, Scope),
    If(Seq<Value>, Scope),
    TryHandler(Value, Scope),
    TryBody(ClosureValue),
    EvalArg(usize),
    Head(Seq<Value>, Scope),
    Expand(Scope),
    Args(Seq<Value>, Seq<Value>, Scope),
    Items(Seq<Value>, Seq<Value>, Scope),
    Entries(Seq<(Seq<char>, Value)>, Seq<(Seq<char>, Value)>, Scope),
    Quasi(Seq<Value>, usize, Seq<Value>, bool, Scope),
    Swap(usize),
    MapItems(Value, Seq<Value>, usize, Seq<Value>),
}

/// What the machine is doing.
#[derive(Debug)]
pub enum Control {
    /// Evaluate the form in the scope.
    Eval(DataType, Scope),
    /// Call the function on the evaluated arguments.
    Apply(DataType, Vec<DataType>),
    /// Hand the value to the continuation on top of the stack.
    Return(DataType),
    /// Hand the error to the continuations, top first.
    Raise(String),
    /// Wait for the host's answer to the action.
    Wait(Action),
}

/// The model of a [`Control`].
pub enum ControlModel {
    Eval(Value, Scope),
    Apply(Value, Seq<Value>),
    Return(Value),
    Raise(Seq<char>),
    Wait(ActionModel),
}

/// The interpreter: frames, atom cells, continuations and the control.
#[derive(Debug)]
pub struct Interpreter {
    pub envs: Vec<Environment>,
    pub atoms: Vec<DataType>,
    pub stack: Vec<Continuation>,
    pub control: Control,
}

/// The model of an [`Interpreter`].
pub struct State {
    pub frames: Seq<Frame>,
    pub cells: Seq<Value>,
    pub stack: Seq<ContinuationModel>,
    pub control: ControlModel,
}

/// How far a run came.
#[derive(Debug)]
pub enum Status {
    /// The step budget ran out; the run can go on.
    Running(),
    /// The evaluation ended with a value or an error.
    Finished(Result<DataType, RuntimeError>),
    /// The host has to perform the action and hand back the answer.
    Waiting(Action),
}

/// The model of a [`Status`].
pub enum StatusModel {
    Running,
    Finished(Result<Value, Seq<char>>),
    Waiting(ActionModel),
}

impl View for Environment {
    type V = Frame;

    open spec fn view(&self) -> Frame {
        Frame { outer: self.outer, data: entries(self.data@) }
    }
}

impl View for Action {
    type V = ActionModel;

    open spec fn view(&self) -> ActionModel {
        match self {
            Action::Print(line) => ActionModel::Print(line@),
            Action::Slurp(path) => ActionModel::Slurp(path@),
            Action::Input(prompt) => ActionModel::Input(prompt@),
            Action::TimeMs() => ActionModel::TimeMs,
            Action::Float(op, left, right) => ActionModel::Float(*op, left@, right@),
        }
    }
}

impl View for Event {
    type V = EventModel;

    open spec fn view(&self) -> EventModel {
        match self {
            Event::Done() => EventModel::Done,
            Event::Text(text) => EventModel::Text(text@),
            Event::Failed(reason) => EventModel::Failed(reason@),
            Event::End() => EventModel::End,
            Event::Integer(i) => EventModel::Integer(*i as int),
            Event::Float(text) => EventModel::Float(text@),
            Event::Bool(b) => EventModel::Bool(*b),
        }
    }
}

impl View for Continuation {
    type V = ContinuationModel;

    open spec fn view(&self) -> ContinuationModel {
        match self {
            Continuation::Def(name, env) => ContinuationModel::Def(name@, *env),
            Continuation::DefMacro(name, env) => ContinuationModel::DefMacro(name@, *env),
            Continuation::Let(bindings, index, body, scope) => ContinuationModel::Let(
                values(bindings@),
                *index,
                body@,
                *scope,
            ),
            Continuation::Do(forms, index, scope) => ContinuationModel::Do(
                values(forms@),
                *index,
                *scope,
            ),
            Continuation::If(args, scope) => ContinuationModel::If(values(args@), *scope),
            Continuation::TryHandler(body, scope) => ContinuationModel::TryHandler(body@, *scope),
            Continuation::TryBody(handler) => ContinuationModel::TryBody(handler@),
            Continuation::EvalArg(root) => ContinuationModel::EvalArg(*root),
            Continuation::Head(children, scope) => ContinuationModel::Head(
                values(children@),
                *scope,
            ),
            Continuation::Expand(scope) => ContinuationModel::Expand(*scope),
            Continuation::Args(forms, done, scope) => ContinuationModel::Args(
                values(forms@),
                values(done@),
                *scope,
            ),
            Continuation::Items(forms, done, scope) => ContinuationModel::Items(
                values(forms@),
                values(done@),
                *scope,
            ),
            Continuation::Entries(pairs, done, scope) => ContinuationModel::Entries(
                entries(pairs@),
                entries(done@),
                *scope,
            ),
            Continuation::Quasi(items, index, result, splice, scope) => ContinuationModel::Quasi(
                values(items@),
                *index,
                values(result@),
                *splice,
                *scope,
            ),
            Continuation::Swap(cell) => ContinuationModel::Swap(*cell),
            Continuation::MapItems(function, items, index, results) => ContinuationModel::MapItems(
                function@,
                values(items@),
                *index,
                values(results@),
            ),
        }
    }
}

impl View for Control {
    type V = ControlModel;

    open spec fn view(&self) -> ControlModel {
        match self {
            Control::Eval(ast, scope) => ControlModel::Eval(ast@, *scope),
            Control::Apply(function, args) => ControlModel::Apply(function@, values(args@)),
            Control::Return(value) => ControlModel::Return(value@),
            Control::Raise(msg) => ControlModel::Raise(msg@),
            Control::Wait(action) => ControlModel::Wait(action@),
        }
    }
}

/// The models of a sequence of frames.
pub open spec fn frames(s: Seq<Environment>) -> Seq<Frame> {
    Seq::new(s.len(), |i: int| s[i]@)
}

/// The models of a sequence of continuations.
pub open spec fn continuations(s: Seq<Continuation>) -> Seq<ContinuationModel> {
    Seq::new(s.len(), |i: int| s[i]@)
}

impl View for Interpreter {
    type V = State;

    open spec fn view(&self) -> State {
        State {
            frames: frames(self.envs@),
            cells: values(self.atoms@),
            stack: continuations(self.stack@),
            control: self.control@,
        }
    }
}

impl View for Status {
    type V = StatusModel;

    open spec fn view(&self) -> StatusModel {
        match self {
            Status::Running() => StatusModel::Running,
            Status::Finished(Ok(value)) => StatusModel::Finished(Ok(value@)),
            Status::Finished(Err(e)) => StatusModel::Finished(Err(e.msg@)),
            Status::Waiting(action) => StatusModel::Waiting(action@),
        }
    }
}


/// The value a name resolves to from a frame: the frame's own binding, else
/// that of the frames around it.  A frame is only ever inside an older one.
pub open spec fn lookup(frames: Seq<Frame>, env: usize, name: Seq<char>) -> Option<Value>
    decreases env,
{
    if env >= frames.len() {
        None
    } else {
        let data = frames[env as int].data;
        let i = position_of(data, name) as int;
        if i < data.len() {
            Some(data[i].1)
        } else {
            match frames[env as int].outer {
                Some(outer) => if outer < env {
                    lookup(frames, outer, name)
                } else {
                    None
                },
                None => None,
            }
        }
    }
}

/// The frames with `name` bound to `value` in frame `env`, which must exist.
pub open spec fn defined(frames: Seq<Frame>, env: usize, name: Seq<char>, value: Value) -> Seq<
    Frame,
> {
    frames.update(
        env as int,
        Frame {
            outer: frames[env as int].outer,
            data: with_entry(frames[env as int].data, name, value),
        },
    )
}

/// Whether a value counts as false: only `nil` and `false` do.
pub open spec fn falsy(v: Value) -> bool {
    v is Nil || v == Value::Bool(false)
}

/// The branch of an `if` that the condition selects.
pub open spec fn branch_of(args: Seq<Value>, condition: Value) -> Result<Value, Seq<char>> {
    if falsy(condition) {
        if args.len() > 2 {
            Ok(args[2])
        } else {
            Ok(Value::Nil)
        }
    } else if args.len() > 1 {
        Ok(args[1])
    } else {
        Err("No body for if expression"@)
    }
}

/// The position of the first parameter that is no symbol, or the number of
/// parameters when all are symbols.
pub open spec fn first_non_symbol(params: Seq<Value>) -> nat
    decreases params.len(),
{
    if params.len() == 0 {
        0
    } else if !(params[0] is Symbol) {
        0
    } else {
        1 + first_non_symbol(params.skip(1))
    }
}

/// The names of parameters that are all symbols.
pub open spec fn parameter_names(params: Seq<Value>) -> Seq<Seq<char>> {
    Seq::new(params.len(), |i: int| params[i]->Symbol_0)
}

/// What an item of a quasi-quoted list asks for.
pub enum Template {
    /// Keep the item as it is.
    Plain,
    /// Put the value of the form in its place.
    Unquote(Value),
    /// Put the items of the value of the form in its place.
    Splice(Value),
}

/// What an item of a quasi-quoted list asks for: `(unquote x)` and
/// `(splice-unquote x)` are filled in, anything else is kept.
pub open spec fn template_of(item: Value) -> Template {
    match item {
        Value::List(inner) => if inner.len() >= 2 && inner[0] == Value::Symbol("unquote"@) {
            Template::Unquote(inner[1])
        } else if inner.len() >= 2 && inner[0] == Value::Symbol("splice-unquote"@) {
            Template::Splice(inner[1])
        } else {
            Template::Plain
        },
        _ => Template::Plain,
    }
}

/// The arguments of `apply` spread out: the items of each list or vector,
/// and every other argument as it is.
pub open spec fn spread(args: Seq<Value>, n: nat) -> Seq<Value>
    decreases n,
{
    if n == 0 || n > args.len() {
        Seq::empty()
    } else {
        match items_of(args[n - 1]) {
            Some(x) => spread(args, (n - 1) as nat) + x,
            None => spread(args, (n - 1) as nat).push(args[n - 1]),
        }
    }
}

/// How `prn` shows a value: a string bare, anything else in its print form.
pub open spec fn shown(v: Value) -> Seq<char> {
    match v {
        Value::Str(s) => s,
        _ => print_form(v),
    }
}

/// The line `prn` writes for its first `n` arguments: each as shown,
/// separated by single spaces.
pub open spec fn shown_line(args: Seq<Value>, n: nat) -> Seq<char>
    decreases n,
{
    if n == 0 || n > args.len() {
        Seq::empty()
    } else if n == 1 {
        shown(args[0])
    } else {
        shown_line(args, (n - 1) as nat) + " "@ + shown(args[n - 1])
    }
}

/// The float operation behind an arithmetic or ordering function.
pub open spec fn float_op(code: int) -> FloatOp {
    if code == ADDITION {
        FloatOp::Add
    } else if code == SUBTRACTION {
        FloatOp::Subtract
    } else if code == DIVISION {
        FloatOp::Divide
    } else if code == MULTIPLICATION {
        FloatOp::Multiply
    } else if code == GREATER_THAN {
        FloatOp::Greater
    } else if code == LESS_THAN {
        FloatOp::Less
    } else if code == LESS_THAN_OR_EQUALS {
        FloatOp::LessOrEqual
    } else {
        FloatOp::GreaterOrEqual
    }
}

/// Whether a float operation yields a truth value rather than a float.
pub open spec fn compares(op: FloatOp) -> bool {
    op is Greater || op is Less || op is GreaterOrEqual || op is LessOrEqual
}

/// The bindings of a frame after the parameters from `i` on are bound to the
/// arguments from `i` on, and the complaint if they do not match.  A
/// parameter named `&` binds the next name to the list of the arguments
/// that are left.
pub open spec fn bound(
    data: Seq<(Seq<char>, Value)>,
    params: Seq<Seq<char>>,
    args: Seq<Value>,
    i: nat,
) -> (Seq<(Seq<char>, Value)>, Option<Seq<char>>)
    decreases params.len() - i,
{
    if i >= params.len() {
        if i >= args.len() {
            (data, None)
        } else {
            (data, Some("Parameters given do not match expected parameters"@))
        }
    } else if params[i as int] == "&"@ {
        if i + 1 < params.len() {
            (
                with_entry(
                    data,
                    params[i as int + 1],
                    Value::List(
                        if i <= args.len() {
                            args.skip(i as int)
                        } else {
                            Seq::empty()
                        },
                    ),
                ),
                None,
            )
        } else {
            (data, Some("& found in closure without variadic argument name"@))
        }
    } else if i < args.len() {
        bound(with_entry(data, params[i as int], args[i as int]), params, args, i + 1)
    } else {
        (data, Some("Parameters given do not match expected parameters"@))
    }
}

impl State {
    /// This state with another control.
    pub open spec fn with_control(self, control: ControlModel) -> State {
        State { control, ..self }
    }

    /// This state about to return a value.
    pub open spec fn give(self, value: Value) -> State {
        self.with_control(ControlModel::Return(value))
    }

    /// This state about to raise an error.
    pub open spec fn raise(self, msg: Seq<char>) -> State {
        self.with_control(ControlModel::Raise(msg))
    }

    /// This state about to evaluate a form.
    pub open spec fn evaluate(self, ast: Value, scope: Scope) -> State {
        self.with_control(ControlModel::Eval(ast, scope))
    }

    /// This state with one more continuation.
    pub open spec fn pushed(self, k: ContinuationModel) -> State {
        State { stack: self.stack.push(k), ..self }
    }

    /// This state without its top continuation.
    pub open spec fn popped(self) -> State {
        State { stack: self.stack.drop_last(), ..self }
    }

    /// This state with a new, empty frame inside frame `outer`.
    pub open spec fn with_frame(self, outer: usize) -> State {
        State {
            frames: self.frames.push(Frame { outer: Some(outer), data: Seq::empty() }),
            ..self
        }
    }

    /// This state with `name` bound in frame `env`, which must exist.
    pub open spec fn bind(self, env: usize, name: Seq<char>, value: Value) -> State {
        State { frames: defined(self.frames, env, name, value), ..self }
    }

    /// The call of a closure: its parameters are bound in its frame, and its
    /// body is evaluated there.
    pub open spec fn call_closure(self, c: ClosureValue, args: Seq<Value>) -> State {
        if c.env >= self.frames.len() {
            self.raise("Unknown environment"@)
        } else {
            let env = c.env;
            let (data, complaint) = bound(self.frames[env as int].data, c.params, args, 0);
            let next = State {
                frames: self.frames.update(
                    env as int,
                    Frame { outer: self.frames[env as int].outer, data },
                ),
                ..self
            };
            match complaint {
                Some(msg) => next.raise(msg),
                None => next.evaluate(*c.ast, Scope { env, root: c.repl_env }),
            }
        }
    }

    /// `let*`: the binding at `i` is evaluated next, or the body when the
    /// bindings are used up.
    pub open spec fn let_next(
        self,
        bindings: Seq<Value>,
        i: int,
        body: Value,
        scope: Scope,
    ) -> State {
        if i >= bindings.len() {
            self.evaluate(body, scope)
        } else if !(bindings[i] is Symbol) {
            self.raise("Invalid symbol to set in let*"@)
        } else if i + 1 >= bindings.len() {
            self.raise("Each symbol in a let* environment should have a value"@)
        } else {
            self.pushed(ContinuationModel::Let(bindings, i as usize, body, scope)).evaluate(
                bindings[i + 1],
                scope,
            )
        }
    }

    /// `do`: the form at `i` is evaluated next; the last form is evaluated in
    /// tail position.
    pub open spec fn do_next(self, forms: Seq<Value>, i: int, scope: Scope) -> State {
        if i >= forms.len() {
            self.raise("No arguments given for do"@)
        } else if i + 1 == forms.len() {
            self.evaluate(forms[i], scope)
        } else {
            self.pushed(ContinuationModel::Do(forms, i as usize, scope)).evaluate(
                forms[i],
                scope,
            )
        }
    }

    /// Quasi-quotation: the items from `i` on are copied to the result up to
    /// the first one that has to be filled in, which is evaluated next.
    pub open spec fn quasi_next(
        self,
        items: Seq<Value>,
        i: int,
        result: Seq<Value>,
        scope: Scope,
    ) -> State
        decreases items.len() - i,
    {
        if i < 0 || i >= items.len() {
            self.give(Value::List(result))
        } else {
            match template_of(items[i]) {
                Template::Plain => self.quasi_next(items, i + 1, result.push(items[i]), scope),
                Template::Unquote(x) => self.pushed(
                    ContinuationModel::Quasi(items, i as usize, result, false, scope),
                ).evaluate(x, scope),
                Template::Splice(x) => self.pushed(
                    ContinuationModel::Quasi(items, i as usize, result, true, scope),
                ).evaluate(x, scope),
            }
        }
    }

    /// A call: the element after those done is evaluated next, or the
    /// function is applied when all are done.
    pub open spec fn args_next(self, forms: Seq<Value>, done: Seq<Value>, scope: Scope) -> State {
        if done.len() < forms.len() {
            self.pushed(ContinuationModel::Args(forms, done, scope)).evaluate(
                forms[done.len() as int],
                scope,
            )
        } else if done.len() == 0 {
            self.raise("cannot call empty list"@)
        } else {
            self.with_control(ControlModel::Apply(done[0], done.skip(1)))
        }
    }

    /// A vector: the element after those done is evaluated next, or the
    /// vector of the values is returned.
    pub open spec fn items_next(self, forms: Seq<Value>, done: Seq<Value>, scope: Scope) -> State {
        if done.len() < forms.len() {
            self.pushed(ContinuationModel::Items(forms, done, scope)).evaluate(
                forms[done.len() as int],
                scope,
            )
        } else {
            self.give(Value::Vector(done))
        }
    }

    /// A dictionary: the value after those done is evaluated next, or the
    /// dictionary of the keys with their values is returned.
    pub open spec fn entries_next(
        self,
        pairs: Seq<(Seq<char>, Value)>,
        done: Seq<(Seq<char>, Value)>,
        scope: Scope,
    ) -> State {
        if done.len() < pairs.len() {
            self.pushed(ContinuationModel::Entries(pairs, done, scope)).evaluate(
                pairs[done.len() as int].1,
                scope,
            )
        } else {
            self.give(Value::Dictionary(done))
        }
    }

    /// `map`: the function is applied to the item at `i` next, or the list of
    /// the images is returned.
    pub open spec fn map_next(
        self,
        function: Value,
        items: Seq<Value>,
        i: int,
        results: Seq<Value>,
    ) -> State {
        if 0 <= i < items.len() {
            self.pushed(
                ContinuationModel::MapItems(function, items, i as usize, results),
            ).with_control(ControlModel::Apply(function, seq![items[i]]))
        } else {
            self.give(Value::List(results))
        }
    }

    /// `def!`.
    pub open spec fn def_rule(self, args: Seq<Value>, scope: Scope) -> State {
        if args.len() >= 2 && args[0] is Symbol {
            self.pushed(ContinuationModel::Def(args[0]->Symbol_0, scope.env)).evaluate(
                args[1],
                scope,
            )
        } else {
            self.raise("Incorrect usage of def!"@)
        }
    }

    /// `defmacro!`.
    pub open spec fn defmacro_rule(self, args: Seq<Value>, scope: Scope) -> State {
        if args.len() >= 2 && args[0] is Symbol {
            self.pushed(ContinuationModel::DefMacro(args[0]->Symbol_0, scope.env)).evaluate(
                args[1],
                scope,
            )
        } else {
            self.raise("Incorrect usage of defmacro!"@)
        }
    }

    /// `let*`: a new frame inside the current one takes the bindings.
    pub open spec fn let_rule(self, args: Seq<Value>, scope: Scope) -> State {
        if args.len() >= 2 && args[0] is List && self.frames.len() < usize::MAX {
            self.with_frame(scope.env).let_next(
                args[0]->List_0,
                0,
                args[1],
                Scope { env: self.frames.len() as usize, root: scope.root },
            )
        } else {
            self.raise("Incorrect arguments for let*"@)
        }
    }

    /// `do`.
    pub open spec fn do_rule(self, args: Seq<Value>, scope: Scope) -> State {
        self.do_next(args, 0, scope)
    }

    /// `if`.
    pub open spec fn if_rule(self, args: Seq<Value>, scope: Scope) -> State {
        if args.len() >= 1 {
            self.pushed(ContinuationModel::If(args, scope)).evaluate(args[0], scope)
        } else {
            self.raise("No condition for if expression"@)
        }
    }

    /// `fn*`: the closure gets a new frame inside the current one.
    pub open spec fn closure_rule(self, args: Seq<Value>, scope: Scope) -> State {
        if args.len() >= 1 && args[0] is List {
            let params = args[0]->List_0;
            let bad = first_non_symbol(params) as int;
            if bad < params.len() {
                self.raise(print_form(params[bad]) + " cannot be used as a parameter name"@)
            } else if args.len() < 2 || self.frames.len() >= usize::MAX {
                self.raise("No body for closure"@)
            } else {
                self.with_frame(scope.env).give(
                    Value::Closure(
                        ClosureValue {
                            ast: Box::new(args[1]),
                            params: parameter_names(params),
                            env: self.frames.len() as usize,
                            repl_env: scope.root,
                            is_macro: false,
                        },
                    ),
                )
            }
        } else {
            self.raise("Expected parameter list for function"@)
        }
    }

    /// `quote`.
    pub open spec fn quote_rule(self, args: Seq<Value>) -> State {
        if args.len() >= 1 {
            self.give(args[0])
        } else {
            self.raise("Incorrect usage of quote"@)
        }
    }

    /// `quasiquote`: a list is a template; anything else is returned as it
    /// is.
    pub open spec fn quasiquote_rule(self, args: Seq<Value>, scope: Scope) -> State {
        if args.len() >= 1 {
            match args[0] {
                Value::List(items) => self.quasi_next(items, 0, Seq::empty(), scope),
                _ => self.give(args[0]),
            }
        } else {
            self.raise("Incorrect usage of quasiquote"@)
        }
    }

    /// `try*`: the handler is evaluated first.
    pub open spec fn try_rule(self, args: Seq<Value>, scope: Scope) -> State {
        if args.len() >= 2 {
            self.pushed(ContinuationModel::TryHandler(args[0], scope)).evaluate(args[1], scope)
        } else {
            self.raise("Incorrect usage of try!"@)
        }
    }

    /// `eval`: the argument is evaluated where it stands, its value in the
    /// root frame.
    pub open spec fn eval_rule(self, args: Seq<Value>, scope: Scope) -> State {
        if args.len() >= 1 {
            self.pushed(ContinuationModel::EvalArg(scope.root)).evaluate(args[0], scope)
        } else {
            self.raise("No value given to eval"@)
        }
    }

    /// The evaluation of a non-empty list: a special form by the symbol at
    /// its head, else a call, whose head is evaluated first.
    pub open spec fn list_rule(self, children: Seq<Value>, scope: Scope) -> State {
        let args = children.skip(1);
        let head = children[0];
        if head == Value::Symbol("def!"@) {
            self.def_rule(args, scope)
        } else if head == Value::Symbol("defmacro!"@) {
            self.defmacro_rule(args, scope)
        } else if head == Value::Symbol("try*"@) {
            self.try_rule(args, scope)
        } else if head == Value::Symbol("quote"@) {
            self.quote_rule(args)
        } else if head == Value::Symbol("quasiquote"@) {
            self.quasiquote_rule(args, scope)
        } else if head == Value::Symbol("let*"@) {
            self.let_rule(args, scope)
        } else if head == Value::Symbol("do"@) {
            self.do_rule(args, scope)
        } else if head == Value::Symbol("if"@) {
            self.if_rule(args, scope)
        } else if head == Value::Symbol("fn*"@) {
            self.closure_rule(args, scope)
        } else if head == Value::Symbol("eval"@) {
            self.eval_rule(args, scope)
        } else {
            self.pushed(ContinuationModel::Head(children, scope)).evaluate(head, scope)
        }
    }

    /// The evaluation of a form.  A symbol is looked up, a vector and the
    /// values of a dictionary are evaluated element by element, a list is a
    /// special form or a call, and everything else is its own value.
    pub open spec fn eval_step(self, ast: Value, scope: Scope) -> State {
        match ast {
            Value::Symbol(name) => match lookup(self.frames, scope.env, name) {
                Some(v) => self.give(v),
                None => self.raise("unknown symbol: "@ + name),
            },
            Value::Vector(items) => self.items_next(items, Seq::empty(), scope),
            Value::Dictionary(pairs) => self.entries_next(pairs, Seq::empty(), scope),
            Value::List(children) => if children.len() == 0 {
                self.raise("cannot call empty list"@)
            } else {
                self.list_rule(children, scope)
            },
            _ => self.give(ast),
        }
    }

    /// The call of a native function that works on the cells, calls back
    /// into the language, reads, or needs the host.
    pub open spec fn special_native(self, code: int, args: Seq<Value>) -> State {
        if code == PRINT {
            self.with_control(
                ControlModel::Wait(ActionModel::Print(shown_line(args, args.len()))),
            )
        } else if code == READ_STR {
            if args.len() == 1 && args[0] is Str {
                match read_text(args[0]->Str_0) {
                    Ok(v) => self.give(v),
                    Err(msg) => self.raise(msg),
                }
            } else {
                self.raise("Incorrect arguments for read-string"@)
            }
        } else if code == SLURP {
            if args.len() == 1 && args[0] is Str {
                self.with_control(ControlModel::Wait(ActionModel::Slurp(args[0]->Str_0)))
            } else {
                self.raise("Incorrect arguments for slurp"@)
            }
        } else if code == ATOM {
            if args.len() >= 1 && self.cells.len() < usize::MAX {
                State { cells: self.cells.push(args[0]), ..self }.give(
                    Value::Atom(self.cells.len() as usize),
                )
            } else {
                self.raise("Not enough arguments to atom"@)
            }
        } else if code == DEREF {
            if args.len() >= 1 && args[0] is Atom && args[0]->Atom_0 < self.cells.len() {
                self.give(self.cells[args[0]->Atom_0 as int])
            } else {
                self.raise("Incorrect arguments to deref"@)
            }
        } else if code == RESET_ATOM {
            if args.len() >= 2 && args[0] is Atom && args[0]->Atom_0 < self.cells.len() {
                State { cells: self.cells.update(args[0]->Atom_0 as int, args[1]), ..self }.give(
                    args[1],
                )
            } else {
                self.raise("Incorrect arguments to reset!"@)
            }
        } else if code == SWAP_ATOM {
            if args.len() >= 2 && args[0] is Atom && args[0]->Atom_0 < self.cells.len() {
                self.pushed(ContinuationModel::Swap(args[0]->Atom_0)).with_control(
                    ControlModel::Apply(
                        args[1],
                        seq![self.cells[args[0]->Atom_0 as int]] + args.skip(2),
                    ),
                )
            } else {
                self.raise("Incorrect arguments to swap!"@)
            }
        } else if code == APPLY {
            if args.len() >= 1 && (args[0] is Closure || args[0] is NativeFunction) {
                self.with_control(
                    ControlModel::Apply(args[0], spread(args.skip(1), (args.len() - 1) as nat)),
                )
            } else {
                self.raise("Wrong arguments for apply"@)
            }
        } else if code == MAP_ITEMS {
            if args.len() >= 2 && (args[0] is Closure || args[0] is NativeFunction) && items_of(
                args[1],
            ) is Some {
                self.map_next(args[0], items_of(args[1])->Some_0, 0, Seq::empty())
            } else {
                self.raise("Wrong arguments for map"@)
            }
        } else if code == TIME_MS {
            self.with_control(ControlModel::Wait(ActionModel::TimeMs))
        } else if code == INPUT {
            self.with_control(
                ControlModel::Wait(
                    ActionModel::Input(
                        if args.len() >= 1 && args[0] is Str {
                            args[0]->Str_0
                        } else {
                            Seq::empty()
                        },
                    ),
                ),
            )
        } else {
            self.raise("Unknown native function"@)
        }
    }

    /// The call of a native function.  Arithmetic and orderings on two floats
    /// go to the host, but for a division by a zero float, which fails.
    pub open spec fn native_step(self, code: int, args: Seq<Value>) -> State {
        if (is_ordering(code) || (is_arithmetic(code) && code != MODULO)) && args.len() == 2
            && args[0] is Float && args[1] is Float {
            if code == DIVISION && is_zero_text(args[1]->Float_0) {
                self.raise("Divide by zero error!"@)
            } else {
                self.with_control(
                    ControlModel::Wait(
                        ActionModel::Float(float_op(code), args[0]->Float_0, args[1]->Float_0),
                    ),
                )
            }
        } else if is_arithmetic(code) || is_ordering(code) || is_plain(code) {
            let result = if is_arithmetic(code) {
                arithmetic(code, args)
            } else if is_ordering(code) {
                ordering(code, args)
            } else {
                plain_result(code, args)
            };
            match result {
                Ok(v) => self.give(v),
                Err(msg) => self.raise(msg),
            }
        } else {
            self.special_native(code, args)
        }
    }

    /// The application of a function to evaluated arguments.
    pub open spec fn apply_step(self, function: Value, args: Seq<Value>) -> State {
        match function {
            Value::Closure(c) => self.call_closure(c, args),
            Value::NativeFunction(code) => self.native_step(code, args),
            _ => self.raise("cannot call"@),
        }
    }

    /// What a continuation does with the value handed to it.  The state is the
    /// one without the continuation.
    pub open spec fn return_step(self, k: ContinuationModel, value: Value) -> State {
        match k {
            ContinuationModel::Def(name, env) => if env < self.frames.len() {
                self.bind(env, name, value).give(value)
            } else {
                self.raise("Unknown environment"@)
            },
            ContinuationModel::DefMacro(name, env) => match value {
                Value::Closure(c) => if env < self.frames.len() {
                    let made = Value::Closure(ClosureValue { is_macro: true, ..c });
                    self.bind(env, name, made).give(made)
                } else {
                    self.raise("Unknown environment"@)
                },
                _ => self.raise("Expected closure for macro"@),
            },
            ContinuationModel::Let(bindings, index, body, scope) => if index + 1 < bindings.len()
                && bindings[index as int] is Symbol && scope.env < self.frames.len() {
                self.bind(scope.env, bindings[index as int]->Symbol_0, value).let_next(
                    bindings,
                    index + 2,
                    body,
                    scope,
                )
            } else {
                self.raise("Invalid symbol to set in let*"@)
            },
            ContinuationModel::Do(forms, index, scope) => self.do_next(forms, index + 1, scope),
            ContinuationModel::If(args, scope) => match branch_of(args, value) {
                Ok(form) => self.evaluate(form, scope),
                Err(msg) => self.raise(msg),
            },
            ContinuationModel::TryHandler(body, scope) => match value {
                Value::Closure(c) => self.pushed(ContinuationModel::TryBody(c)).evaluate(
                    body,
                    scope,
                ),
                _ => self.raise("Incorrect usage of try!"@),
            },
            ContinuationModel::TryBody(handler) => self.give(value),
            ContinuationModel::EvalArg(root) => self.evaluate(value, Scope { env: root, root }),
            ContinuationModel::Head(children, scope) => match value {
                Value::Closure(c) => if c.is_macro {
                    self.pushed(ContinuationModel::Expand(scope)).call_closure(
                        c,
                        if children.len() >= 1 {
                            children.skip(1)
                        } else {
                            Seq::empty()
                        },
                    )
                } else {
                    self.args_next(children, seq![value], scope)
                },
                _ => self.args_next(children, seq![value], scope),
            },
            ContinuationModel::Expand(scope) => self.evaluate(value, scope),
            ContinuationModel::Args(forms, done, scope) => self.args_next(
                forms,
                done.push(value),
                scope,
            ),
            ContinuationModel::Items(forms, done, scope) => self.items_next(
                forms,
                done.push(value),
                scope,
            ),
            ContinuationModel::Entries(pairs, done, scope) => if done.len() < pairs.len() {
                self.entries_next(pairs, done.push((pairs[done.len() as int].0, value)), scope)
            } else {
                self.give(Value::Dictionary(done))
            },
            ContinuationModel::Quasi(items, index, result, splice, scope) => if splice {
                match value {
                    Value::List(x) => self.quasi_next(items, index + 1, result + x, scope),
                    _ => self.raise("List not given to splice-unquote"@),
                }
            } else {
                self.quasi_next(items, index + 1, result.push(value), scope)
            },
            ContinuationModel::Swap(cell) => if cell < self.cells.len() {
                State { cells: self.cells.update(cell as int, value), ..self }.give(value)
            } else {
                self.raise("Incorrect arguments to swap!"@)
            },
            ContinuationModel::MapItems(function, items, index, results) => self.map_next(
                function,
                items,
                index + 1,
                results.push(value),
            ),
        }
    }

    /// What a continuation does with the error handed to it: the body of a
    /// `try*` calls its handler with the message, the handler of a `try*` and
    /// a spliced template item replace the message, and every other
    /// continuation hands the error on.
    pub open spec fn raise_step(self, k: ContinuationModel, msg: Seq<char>) -> State {
        match k {
            ContinuationModel::TryBody(handler) => self.call_closure(
                handler,
                seq![Value::Str(msg)],
            ),
            ContinuationModel::TryHandler(body, scope) => self.raise("Incorrect usage of try!"@),
            ContinuationModel::Quasi(items, index, result, splice, scope) => if splice {
                self.raise("List not given to splice-unquote"@)
            } else {
                self.raise(msg)
            },
            _ => self.raise(msg),
        }
    }

    /// This state while its control is taken out to be worked on: every
    /// rule replaces the control, so none depends on what stands in for it.
    pub open spec fn parked(self) -> State {
        self.with_control(ControlModel::Return(Value::Nil))
    }

    /// One step of the machine.  A finished and a waiting machine stay as
    /// they are.
    pub open spec fn next(self) -> State {
        match self.control {
            ControlModel::Eval(ast, scope) => self.parked().eval_step(ast, scope),
            ControlModel::Apply(function, args) => self.parked().apply_step(function, args),
            ControlModel::Return(value) => if self.stack.len() == 0 {
                self
            } else {
                self.parked().popped().return_step(self.stack.last(), value)
            },
            ControlModel::Raise(msg) => if self.stack.len() == 0 {
                self
            } else {
                self.parked().popped().raise_step(self.stack.last(), msg)
            },
            ControlModel::Wait(action) => self,
        }
    }

    /// How far the machine is.
    pub open spec fn status(self) -> StatusModel {
        match self.control {
            ControlModel::Return(value) => if self.stack.len() == 0 {
                StatusModel::Finished(Ok(value))
            } else {
                StatusModel::Running
            },
            ControlModel::Raise(msg) => if self.stack.len() == 0 {
                StatusModel::Finished(Err(msg))
            } else {
                StatusModel::Running
            },
            ControlModel::Wait(action) => StatusModel::Waiting(action),
            _ => StatusModel::Running,
        }
    }

    /// The machine after at most `fuel` steps: it stops early when it is
    /// finished or waits for the host.
    pub open spec fn run(self, fuel: nat) -> State
        decreases fuel,
    {
        if fuel == 0 || !(self.status() is Running) {
            self
        } else {
            self.next().run((fuel - 1) as nat)
        }
    }

    /// The machine after the host answered the action it waits for.  A print
    /// is answered by `Done`, a slurp by the text or by a failure, an input by
    /// the line or by the end of the input, the clock by an integer, and a
    /// float operation by a float or a truth value.
    pub open spec fn answered(self, event: EventModel) -> State {
        match self.control {
            ControlModel::Wait(action) => match (action, event) {
                (ActionModel::Print(line), EventModel::Done) => self.give(Value::Nil),
                (ActionModel::Slurp(path), EventModel::Text(text)) => self.give(Value::Str(text)),
                (ActionModel::Slurp(path), EventModel::Failed(reason)) => self.raise(
                    "Couldn't load file: "@ + reason,
                ),
                (ActionModel::Input(prompt), EventModel::Text(text)) => self.give(
                    Value::Str(text),
                ),
                (ActionModel::Input(prompt), EventModel::End) => self.give(
                    Value::Str(Seq::empty()),
                ),
                (ActionModel::TimeMs, EventModel::Integer(i)) => if i128::MIN <= i <= i128::MAX {
                    self.give(Value::Integer(i))
                } else {
                    self.raise("Unexpected answer from the host"@)
                },
                (ActionModel::Float(op, left, right), EventModel::Float(text)) => if compares(
                    op,
                ) {
                    self.raise("Unexpected answer from the host"@)
                } else {
                    self.give(Value::Float(text))
                },
                (ActionModel::Float(op, left, right), EventModel::Bool(b)) => if compares(op) {
                    self.give(Value::Bool(b))
                } else {
                    self.raise("Unexpected answer from the host"@)
                },
                _ => self.raise("Unexpected answer from the host"@),
            },
            _ => self,
        }
    }
}

} // verus!
