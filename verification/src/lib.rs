//! An interpreter core for a small bracket-oriented language of the Lisp family.
//!
//! Text is split into tokens, tokens are read into a tree of values, and the
//! tree is evaluated by an explicit machine over arena-indexed environments.
//! Everything the host has to supply (printing, files, prompts, the clock and
//! floating-point arithmetic) is requested from the caller as an action.
//!
//! * [`variable_type`]: the values, their model, equality and print form.
//! * [`reader`]: the tokenizer and the reader.
//! * [`env`]: the native functions that need nothing but their arguments.
//! * [`machine`]: the state of the interpreter and what one step does.
//! * [`evaluator`]: the steps carried out.
//! * [`machine_laws`], [`well_formed`], [`roundtrip`]: what is proved of the
//!   machine, of its states, and of printing, reading and evaluating data.
//! * [`text`]: characters and numerals.
//!
//! A caller makes an interpreter with [`create_default_env`], starts an
//! evaluation with [`rep`], [`re`] or [`evaluator::eval`], and as long as the
//! status is [`machine::Status::Waiting`] performs the action and hands the
//! answer to [`machine::Interpreter::resume`].

use vstd::prelude::*;

pub mod env;
pub mod evaluator;
pub mod machine;
pub mod machine_laws;
pub mod reader;
pub mod roundtrip;
pub mod text;
pub mod variable_type;
pub mod well_formed;

use crate::env::{core_name, CoreFunction, CORE_FUNCTIONS};
use crate::evaluator::{eval, loaded, RuntimeError};
use crate::machine::{
    Action, ActionModel, ControlModel, Frame, Interpreter, Scope, State, Status, StatusModel,
};
use crate::reader::{get_regex, outcome, read_text, tokenize, ParseError, Reader};
use crate::variable_type::{print_form, with_entry, DataType, Value};
use crate::well_formed::{
    entries_ok, frame_ok, lemma_read_text_ok, lemma_run_keeps_frames, lemma_run_ok,
    lemma_with_entry_ok, state_ok,
};

verus! {

/// Reads the first form of a text.
pub fn read(input: String) -> (r: Result<DataType, ParseError>)
    ensures
        outcome(r) == read_text(input@),
{
    let re = match get_regex() {
        Ok(re) => re,
        Err(e) => {
            return Err(e);
        },
    };
    let tokens = tokenize(input, re);
    let mut reader = Reader::new(tokens);
    reader.read()
}

/// The canonical print form of a value.
pub fn print(input: DataType) -> (s: String)
    ensures
        s@ == print_form(input@),
{
    input.print()
}

/// The bindings of the first `count` native functions: each name bound to
/// the native function of its stable id.
pub open spec fn core_bindings(count: nat) -> Seq<(Seq<char>, Value)>
    decreases count,
{
    if count == 0 {
        Seq::empty()
    } else {
        match core_name(count - 1) {
            Some(name) => with_entry(
                core_bindings((count - 1) as nat),
                name,
                Value::NativeFunction(count - 1),
            ),
            None => core_bindings((count - 1) as nat),
        }
    }
}

/// The state of a new interpreter whose root frame binds the first `count`
/// native functions.
pub open spec fn core_state(count: nat) -> State {
    State {
        frames: seq![Frame { outer: None, data: core_bindings(count) }],
        cells: Seq::empty(),
        stack: Seq::empty(),
        control: ControlModel::Return(Value::Nil),
    }
}

/// The bindings of native functions name no frame and no cell.
pub proof fn lemma_core_bindings_ok(count: nat)
    ensures
        entries_ok(core_bindings(count), 1, 0),
    decreases count,
{
    if count > 0 {
        lemma_core_bindings_ok((count - 1) as nat);
        match core_name(count - 1) {
            Some(name) => {
                lemma_with_entry_ok(
                    core_bindings((count - 1) as nat),
                    name,
                    Value::NativeFunction(count - 1),
                    1,
                    0,
                );
            },
            None => {},
        }
    }
}

/// The state of a new interpreter is in shape.
pub proof fn lemma_core_state_ok(count: nat)
    ensures
        state_ok(core_state(count)),
{
    lemma_core_bindings_ok(count);
    let st = core_state(count);
    assert(frame_ok(st.frames[0], 0, 1, 0));
}

/// An interpreter whose root frame, frame 0, binds the first `count` native
/// functions.
pub fn with_core_functions(count: i8) -> (interp: Interpreter)
    requires
        0 <= count,
    ensures
        interp@ == core_state(count as nat),
        state_ok(interp@),
{
    proof {
        lemma_core_state_ok(count as nat);
    }
    let mut interp = Interpreter::new();
    let mut code: i8 = 0;
    assert(interp@.frames =~= core_state(0).frames);
    while code < count
        invariant
            0 <= code <= count,
            interp.envs.len() == 1,
            interp@ == core_state(code as nat),
        decreases count - code,
    {
        match CoreFunction::with_code(code) {
            Some(f) => {
                interp.bind(0, String::from_str(f.id), DataType::NativeFunction(code));
            },
            None => {},
        }
        code += 1;
        assert(interp@.frames =~= core_state(code as nat).frames);
    }
    interp
}

/// An interpreter with the whole core library in its root frame.
pub fn create_default_repl_env() -> (interp: Interpreter)
    ensures
        interp@ == core_state(CORE_FUNCTIONS as nat),
        state_ok(interp@),
{
    with_core_functions(CORE_FUNCTIONS)
}

/// An interpreter with the first 34 functions of the core library in its
/// root frame: arithmetic, lists, strings, atoms and the first type tests.
pub fn create_repl_env() -> (interp: Interpreter)
    ensures
        interp@ == core_state(34),
        state_ok(interp@),
{
    with_core_functions(34)
}

/// The state after a text was read and evaluated in the frame `env` taken as
/// the root, and how far that came.  A text that cannot be read leaves the
/// state as it was.
pub open spec fn evaluated(st: State, text: Seq<char>, env: usize) -> (State, StatusModel) {
    match read_text(text) {
        Ok(ast) => {
            let end = loaded(st, ast, Scope { env, root: env }).run(u64::MAX as nat);
            (end, end.status())
        },
        Err(msg) => (st, StatusModel::Finished(Err(msg))),
    }
}

/// Reading and evaluating a text takes no frame away.
pub proof fn lemma_frames_stay(st: State, text: Seq<char>, env: usize)
    ensures
        evaluated(st, text, env).0.frames.len() >= st.frames.len(),
{
    if read_text(text) is Ok {
        let ast = read_text(text)->Ok_0;
        lemma_run_keeps_frames(
            loaded(st, ast, Scope { env, root: env }),
            u64::MAX as nat,
        );
    }
}

/// Reading and evaluating a text in a frame that exists keeps the state in
/// shape.
pub proof fn lemma_evaluated_ok(st: State, text: Seq<char>, env: usize)
    requires
        state_ok(st),
        env < st.frames.len(),
    ensures
        state_ok(evaluated(st, text, env).0),
{
    if read_text(text) is Ok {
        let ast = read_text(text)->Ok_0;
        lemma_read_text_ok(text, st.frames.len(), st.cells.len());
        let start = loaded(st, ast, Scope { env, root: env });
        assert(start.stack =~= Seq::empty());
        lemma_run_ok(start, u64::MAX as nat);
    }
}

/// Reads a text and evaluates its first form in the frame `repl_env`, until
/// the value is known or the host is needed.
pub fn re(input: String, repl_env: usize, interp: &mut Interpreter) -> (status: Status)
    ensures
        (final(interp)@, status@) == evaluated(old(interp)@, input@, repl_env),
        state_ok(old(interp)@) && repl_env < old(interp)@.frames.len() ==> state_ok(
            final(interp)@,
        ),
{
    proof {
        if state_ok(interp@) && repl_env < interp@.frames.len() {
            lemma_evaluated_ok(interp@, input@, repl_env);
        }
    }
    match read(input) {
        Ok(ast) => eval(&ast, repl_env, repl_env, interp),
        Err(e) => Status::Finished(Err(RuntimeError { msg: e.msg })),
    }
}

/// What a read-eval-print round has to show for itself.
#[derive(Debug)]
pub enum Reply {
    /// The round is over; the text is to be shown, if there is one.
    Output(Option<String>),
    /// The host has to perform the action and hand back the answer.
    Waiting(Action),
    /// The step budget ran out; the run can go on.
    Running(),
}

/// The model of a [`Reply`].
pub enum ReplyModel {
    Output(Option<Seq<char>>),
    Waiting(ActionModel),
    Running,
}

impl View for Reply {
    type V = ReplyModel;

    open spec fn view(&self) -> ReplyModel {
        match self {
            Reply::Output(Some(text)) => ReplyModel::Output(Some(text@)),
            Reply::Output(None) => ReplyModel::Output(None),
            Reply::Waiting(action) => ReplyModel::Waiting(action@),
            Reply::Running() => ReplyModel::Running,
        }
    }
}

/// What is shown for a status: nothing for `nil`, the print form for any
/// other value, and the message after `RUNTIME ERROR: ` for an error.
pub open spec fn echo_of(status: StatusModel) -> ReplyModel {
    match status {
        StatusModel::Running => ReplyModel::Running,
        StatusModel::Waiting(action) => ReplyModel::Waiting(action),
        StatusModel::Finished(Ok(value)) => if value is Nil {
            ReplyModel::Output(None)
        } else {
            ReplyModel::Output(Some(print_form(value)))
        },
        StatusModel::Finished(Err(msg)) => ReplyModel::Output(Some("RUNTIME ERROR: "@ + msg)),
    }
}

/// What is shown for a status.
pub fn echo(status: Status) -> (reply: Reply)
    ensures
        reply@ == echo_of(status@),
{
    match status {
        Status::Running() => Reply::Running(),
        Status::Waiting(action) => Reply::Waiting(action),
        Status::Finished(Ok(value)) => {
            match value {
                DataType::Nil() => Reply::Output(None),
                other => Reply::Output(Some(other.print())),
            }
        },
        Status::Finished(Err(e)) => Reply::Output(
            Some(String::from_str("RUNTIME ERROR: ").concat(e.msg.as_str())),
        ),
    }
}

/// Reads a text, evaluates its first form in the frame `repl_env` and gives
/// what is to be shown.  A text that cannot be read is answered with the
/// complaint after `PARSE ERROR: `.
pub fn rep(input: String, repl_env: usize, interp: &mut Interpreter) -> (reply: Reply)
    ensures
        match read_text(input@) {
            Ok(ast) => (final(interp)@, reply@) == (
                evaluated(old(interp)@, input@, repl_env).0,
                echo_of(evaluated(old(interp)@, input@, repl_env).1),
            ),
            Err(msg) => final(interp)@ == old(interp)@ && reply@ == ReplyModel::Output(
                Some("PARSE ERROR: "@ + msg),
            ),
        },
        state_ok(old(interp)@) && repl_env < old(interp)@.frames.len() ==> state_ok(
            final(interp)@,
        ),
{
    proof {
        if state_ok(interp@) && repl_env < interp@.frames.len() {
            lemma_evaluated_ok(interp@, input@, repl_env);
        }
    }
    match read(input) {
        Ok(ast) => echo(eval(&ast, repl_env, repl_env, interp)),
        Err(e) => Reply::Output(Some(String::from_str("PARSE ERROR: ").concat(e.msg.as_str()))),
    }
}

/// Evaluates a definition of the preamble in the frame `repl_env`.
pub fn run_preamble(preamble: &str, repl_env: usize, interp: &mut Interpreter) -> (status:
    Status)
    ensures
        (final(interp)@, status@) == evaluated(old(interp)@, preamble@, repl_env),
        state_ok(old(interp)@) && repl_env < old(interp)@.frames.len() ==> state_ok(
            final(interp)@,
        ),
{
    re(String::from_str(preamble), repl_env, interp)
}

/// The definition of `not`.
pub const PREAMBLE_NOT: &'static str = "(def! not (fn* (a) (if a false true)))";

/// The definition of `load-file`.
pub const PREAMBLE_LOAD_FILE: &'static str =
    "(def! load-file (fn* (f) (eval (read-string (str \"(do \" (slurp f) \"\\nnil)\")))))";

/// The definition of the macro `cond`.
pub const PREAMBLE_COND: &'static str =
    "(defmacro! cond (fn* (& xs) (if (> (count xs) 0) (list 'if (first xs) (if (> (count xs) 1) (nth xs 1) (throw \"odd number of forms to cond\")) (cons 'cond (rest (rest xs)))))))";

/// An interpreter with the core library and the preamble: `not`, `load-file`
/// and `cond`, defined in the language itself, in this order.
pub fn create_default_env() -> (interp: Interpreter)
    ensures
        state_ok(interp@),
        interp@ == evaluated(
            evaluated(
                evaluated(core_state(CORE_FUNCTIONS as nat), PREAMBLE_NOT@, 0).0,
                PREAMBLE_LOAD_FILE@,
                0,
            ).0,
            PREAMBLE_COND@,
            0,
        ).0,
{
    let mut interp = create_default_repl_env();
    proof {
        lemma_core_state_ok(CORE_FUNCTIONS as nat);
        lemma_frames_stay(interp@, PREAMBLE_NOT@, 0);
        lemma_evaluated_ok(interp@, PREAMBLE_NOT@, 0);
    }
    run_preamble(PREAMBLE_NOT, 0, &mut interp);
    proof {
        lemma_frames_stay(interp@, PREAMBLE_LOAD_FILE@, 0);
        lemma_evaluated_ok(interp@, PREAMBLE_LOAD_FILE@, 0);
    }
    run_preamble(PREAMBLE_LOAD_FILE, 0, &mut interp);
    proof {
        lemma_evaluated_ok(interp@, PREAMBLE_COND@, 0);
    }
    run_preamble(PREAMBLE_COND, 0, &mut interp);
    interp
}

} // verus!
