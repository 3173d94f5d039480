use bracketlang::evaluator::{eval, RuntimeError};
use bracketlang::machine::{Action, Event, FloatOp, Interpreter, Status};
use bracketlang::variable_type::DataType;
use bracketlang::{create_default_env, echo, re, read, rep, Reply};

struct Host {
    printed: Vec<String>,
    input: Vec<String>,
}

fn float_answer(op: FloatOp, left: &str, right: &str) -> Event {
    let a: f64 = left.parse().unwrap();
    let b: f64 = right.parse().unwrap();
    match op {
        FloatOp::Add => Event::Float(format!("{:?}", a + b)),
        FloatOp::Subtract => Event::Float(format!("{:?}", a - b)),
        FloatOp::Multiply => Event::Float(format!("{:?}", a * b)),
        FloatOp::Divide => Event::Float(format!("{:?}", a / b)),
        FloatOp::Greater => Event::Bool(a > b),
        FloatOp::Less => Event::Bool(a < b),
        FloatOp::GreaterOrEqual => Event::Bool(a >= b),
        FloatOp::LessOrEqual => Event::Bool(a <= b),
    }
}

fn answer(host: &mut Host, action: Action) -> Event {
    match action {
        Action::Print(line) => {
            host.printed.push(line);
            Event::Done()
        }
        Action::Slurp(path) => {
            if path == "inc.bl" {
                Event::Text("(def! inc4 (fn* (a) (+ a 4)))\n(def! inc5 (fn* (a) (+ a 5)))".to_string())
            } else {
                Event::Failed("No such file or directory (os error 2)".to_string())
            }
        }
        Action::Input(prompt) => {
            host.printed.push(prompt);
            if host.input.is_empty() {
                Event::End()
            } else {
                Event::Text(host.input.remove(0))
            }
        }
        Action::TimeMs() => Event::Integer(1_700_000_000_123),
        Action::Float(op, left, right) => float_answer(op, &left, &right),
    }
}

fn drive(status: Status, interp: &mut Interpreter, host: &mut Host) -> Result<DataType, RuntimeError> {
    let mut status = status;
    loop {
        match status {
            Status::Finished(result) => return result,
            Status::Waiting(action) => {
                let event = answer(host, action);
                status = interp.resume(event)
            }
            Status::Running() => status = interp.run(u64::MAX),
        }
    }
}

fn try_line(string: &str, interp: &mut Interpreter) -> Result<DataType, String> {
    let ast = read(string.to_string()).map_err(|e| e.msg)?;
    let mut host = Host { printed: vec![], input: vec![] };
    let status = eval(&ast, 0, 0, interp);
    drive(status, interp, &mut host).map_err(|e| e.msg)
}

fn run_line(string: &str, interp: &mut Interpreter) -> DataType {
    try_line(string, interp).unwrap()
}

fn shows(string: &str, interp: &mut Interpreter) -> String {
    run_line(string, interp).print()
}

fn fails(string: &str, interp: &mut Interpreter) -> String {
    try_line(string, interp).unwrap_err()
}

#[test]
fn later_let_bindings_see_earlier_ones() {
    let mut env = create_default_env();
    assert_eq!(shows("(let* (a 1 b (+ a 1) c (* b 10)) c)", &mut env), "20");
}

#[test]
fn let_bindings_do_not_leak() {
    let mut env = create_default_env();
    assert_eq!(shows("(let* (c 3) c)", &mut env), "3");
    assert_eq!(fails("c", &mut env), "unknown symbol: c");
}

#[test]
fn let_needs_a_value_for_each_symbol() {
    let mut env = create_default_env();
    assert_eq!(
        fails("(let* (a 1 b) a)", &mut env),
        "Each symbol in a let* environment should have a value"
    );
    assert_eq!(fails("(let* (1 2) 3)", &mut env), "Invalid symbol to set in let*");
    assert_eq!(fails("(let* 1 2)", &mut env), "Incorrect arguments for let*");
}

#[test]
fn closures_capture_their_defining_scope() {
    let mut env = create_default_env();
    run_line("(def! x 5)", &mut env);
    run_line("(def! f (fn* () x))", &mut env);
    assert_eq!(shows("(f)", &mut env), "5");
    run_line("(def! make-adder (fn* (n) (fn* (m) (+ n m))))", &mut env);
    run_line("(def! add2 (make-adder 2))", &mut env);
    assert_eq!(shows("(add2 3)", &mut env), "5");
    assert_eq!(shows("(let* (y 7) ((fn* (z) (+ y z)) 1))", &mut env), "8");
}

#[test]
fn a_closure_shares_its_frame_between_calls() {
    let mut env = create_default_env();
    run_line("(def! make-adder (fn* (n) (fn* (m) (+ n m))))", &mut env);
    run_line("(def! add2 (make-adder 2))", &mut env);
    run_line("(def! add10 (make-adder 10))", &mut env);
    assert_eq!(shows("(add2 1)", &mut env), "11");
    run_line("(def! sum (fn* (n) (if (= n 0) 0 (+ n (sum (- n 1))))))", &mut env);
    assert_eq!(shows("(sum 100)", &mut env), "5050");
    run_line("(def! mus (fn* (n) (if (= n 0) 0 (+ (mus (- n 1)) n))))", &mut env);
    assert_eq!(shows("(mus 3)", &mut env), "0");
}

#[test]
fn eval_goes_back_to_the_root_frame() {
    let mut env = create_default_env();
    assert_eq!(fails("(let* (z 5) (eval (quote z)))", &mut env), "unknown symbol: z");
    run_line("(def! w 7)", &mut env);
    assert_eq!(shows("(let* (w 1) (eval (quote w)))", &mut env), "7");
    assert_eq!(shows("(eval (list + 1 2))", &mut env), "3");
    assert_eq!(fails("(eval)", &mut env), "No value given to eval");
}

#[test]
fn tail_calls_leave_the_stack_shallow() {
    let mut env = create_default_env();
    run_line(
        "(def! count-down (fn* (n) (if (= n 0) (do 1 (let* (r 0) r)) (count-down (- n 1)))))",
        &mut env,
    );
    let ast = read("(count-down 2000)".to_string()).unwrap();
    env.stack = Vec::new();
    env.control = bracketlang::machine::Control::Eval(
        ast,
        bracketlang::machine::Scope { env: 0, root: 0 },
    );
    let mut deepest = 0;
    let mut steps = 0;
    loop {
        match env.step() {
            Status::Running() => {
                steps += 1;
                if env.stack.len() > deepest {
                    deepest = env.stack.len();
                }
            }
            Status::Finished(result) => {
                assert_eq!(result.unwrap(), DataType::Integer(0));
                break;
            }
            Status::Waiting(_) => panic!("no host work expected"),
        }
    }
    assert!(steps > 2000 * 10);
    assert!(deepest <= 4, "the stack grew to {}", deepest);
}

#[test]
fn running_out_of_fuel_pauses_the_machine() {
    let mut env = create_default_env();
    run_line("(def! spin (fn* (n) (if (= n 0) 0 (spin (- n 1)))))", &mut env);
    let ast = read("(spin 50)".to_string()).unwrap();
    env.stack = Vec::new();
    env.control = bracketlang::machine::Control::Eval(
        ast,
        bracketlang::machine::Scope { env: 0, root: 0 },
    );
    assert!(matches!(env.run(10), Status::Running()));
    assert!(matches!(env.run(0), Status::Running()));
    match env.run(u64::MAX) {
        Status::Finished(Ok(v)) => assert_eq!(v, DataType::Integer(0)),
        other => panic!("unexpected {:?}", other),
    }
    assert!(matches!(env.step(), Status::Finished(Ok(DataType::Integer(0)))));
}

#[test]
fn special_forms_report_misuse() {
    let mut env = create_default_env();
    assert_eq!(fails("(def! 1 2)", &mut env), "Incorrect usage of def!");
    assert_eq!(fails("(def! a)", &mut env), "Incorrect usage of def!");
    assert_eq!(fails("(defmacro! m 5)", &mut env), "Expected closure for macro");
    assert_eq!(fails("(defmacro! m)", &mut env), "Incorrect usage of defmacro!");
    assert_eq!(fails("(do)", &mut env), "No arguments given for do");
    assert_eq!(fails("(if)", &mut env), "No condition for if expression");
    assert_eq!(fails("(if true)", &mut env), "No body for if expression");
    assert_eq!(fails("(fn* 1 2)", &mut env), "Expected parameter list for function");
    assert_eq!(fails("(fn* (a))", &mut env), "No body for closure");
    assert_eq!(fails("(fn* (a 1) a)", &mut env), "1 cannot be used as a parameter name");
    assert_eq!(fails("(quote)", &mut env), "Incorrect usage of quote");
    assert_eq!(fails("(quasiquote)", &mut env), "Incorrect usage of quasiquote");
    assert_eq!(fails("(try* 1)", &mut env), "Incorrect usage of try!");
    assert_eq!(fails("(try* 1 2)", &mut env), "Incorrect usage of try!");
}

#[test]
fn only_nil_and_false_are_falsy() {
    let mut env = create_default_env();
    assert_eq!(shows("(if nil 1 2)", &mut env), "2");
    assert_eq!(shows("(if false 1 2)", &mut env), "2");
    assert_eq!(shows("(if 0 1 2)", &mut env), "1");
    assert_eq!(shows("(if \"\" 1 2)", &mut env), "1");
    assert_eq!(shows("(if (list) 1 2)", &mut env), "1");
    assert_eq!(run_line("(if nil 1)", &mut env), DataType::Nil());
}

#[test]
fn calls_need_something_callable() {
    let mut env = create_default_env();
    assert_eq!(fails("()", &mut env), "cannot call empty list");
    assert_eq!(fails("(1 2)", &mut env), "cannot call");
    assert_eq!(fails("(\"f\" 2)", &mut env), "cannot call");
    assert_eq!(fails("(nope 1)", &mut env), "unknown symbol: nope");
}

#[test]
fn parameters_are_bound_in_order() {
    let mut env = create_default_env();
    assert_eq!(shows("((fn* (a b) (list b a)) 1 2)", &mut env), "(2 1)");
    assert_eq!(
        fails("((fn* (a b) a) 1)", &mut env),
        "Parameters given do not match expected parameters"
    );
    assert_eq!(
        fails("((fn* (a) a) 1 2)", &mut env),
        "Parameters given do not match expected parameters"
    );
    assert_eq!(shows("((fn* (a & more) more) 1 2 3)", &mut env), "(2 3)");
    assert_eq!(shows("((fn* (& xs) xs))", &mut env), "()");
    assert_eq!(
        fails("((fn* (a &) a) 1)", &mut env),
        "& found in closure without variadic argument name"
    );
}

#[test]
fn vectors_and_dictionaries_evaluate_their_elements() {
    let mut env = create_default_env();
    assert_eq!(shows("[1 (+ 1 1) [3]]", &mut env), "[1 2 [3]]");
    assert_eq!(shows("[]", &mut env), "[]");
    assert_eq!(shows("{\"a\" (+ 1 1)}", &mut env), "{\"a\": 2}");
    assert_eq!(shows("{}", &mut env), "{}");
    assert_eq!(fails("[1 nope]", &mut env), "unknown symbol: nope");
}

#[test]
fn quasiquote_fills_one_level() {
    let mut env = create_default_env();
    run_line("(def! lst (quote (b c)))", &mut env);
    assert_eq!(shows("(quasiquote 5)", &mut env), "5");
    assert_eq!(shows("`(a ~lst ~@lst d)", &mut env), "(a (b c) b c d)");
    assert_eq!(shows("`(a (x ~lst))", &mut env), "(a (x (unquote lst)))");
    assert_eq!(fails("`(~@5)", &mut env), "List not given to splice-unquote");
    assert_eq!(fails("`(~@nope)", &mut env), "List not given to splice-unquote");
    assert_eq!(fails("`(~nope)", &mut env), "unknown symbol: nope");
    assert_eq!(shows("`()", &mut env), "()");
}

#[test]
fn macros_expand_at_call_time() {
    let mut env = create_default_env();
    run_line("(defmacro! unless (fn* (pred a b) `(if ~pred ~b ~a)))", &mut env);
    assert_eq!(shows("(unless false 7 8)", &mut env), "7");
    assert_eq!(shows("(unless true 7 8)", &mut env), "8");
    assert_eq!(shows("(macro? unless)", &mut env), "true");
    assert_eq!(shows("(macro? (fn* () 1))", &mut env), "false");
    assert_eq!(shows("(cond false 1 true 2)", &mut env), "2");
    assert_eq!(run_line("(cond)", &mut env), DataType::Nil());
    assert_eq!(run_line("(cond false 1)", &mut env), DataType::Nil());
    assert_eq!(fails("(cond true)", &mut env), "odd number of forms to cond");
    assert_eq!(shows("(not nil)", &mut env), "true");
    assert_eq!(shows("(not 3)", &mut env), "false");
}

#[test]
fn try_hands_the_message_to_the_handler() {
    let mut env = create_default_env();
    assert_eq!(shows("(try* (throw \"boom\") (fn* (e) (str \"caught \" e)))", &mut env), "\"caught boom\"");
    assert_eq!(shows("(try* 5 (fn* (e) e))", &mut env), "5");
    assert_eq!(shows("(try* (nope) (fn* (e) e))", &mut env), "\"unknown symbol: nope\"");
    assert_eq!(fails("(try* (throw \"a\") (fn* (e) (throw \"b\")))", &mut env), "b");
    assert_eq!(fails("(throw 5)", &mut env), "Wrong arguments for throw");
    assert_eq!(shows("(+ 1 (try* (/ 1 0) (fn* (e) 10)))", &mut env), "11");
}

#[test]
fn atoms_are_shared_cells() {
    let mut env = create_default_env();
    run_line("(def! a (atom 1))", &mut env);
    run_line("(def! b a)", &mut env);
    assert_eq!(shows("(swap! a (fn* (x y) (+ x y)) 10)", &mut env), "11");
    assert_eq!(shows("(deref b)", &mut env), "11");
    assert_eq!(shows("@b", &mut env), "11");
    assert_eq!(shows("(swap! a + 5)", &mut env), "16");
    assert_eq!(shows("(reset! b 4)", &mut env), "4");
    assert_eq!(shows("(deref a)", &mut env), "4");
    assert_eq!(shows("(= a b)", &mut env), "true");
    assert_eq!(shows("(= a (atom 4))", &mut env), "false");
    assert_eq!(shows("(atom? a)", &mut env), "true");
    assert_eq!(shows("a", &mut env), "Atom(0)");
    assert_eq!(fails("(deref 1)", &mut env), "Incorrect arguments to deref");
    assert_eq!(fails("(reset! a)", &mut env), "Incorrect arguments to reset!");
    assert_eq!(fails("(swap! 1 +)", &mut env), "Incorrect arguments to swap!");
    assert_eq!(fails("(swap! a 1)", &mut env), "cannot call");
    assert_eq!(fails("(atom)", &mut env), "Not enough arguments to atom");
}

#[test]
fn integer_arithmetic_is_exact_or_fails() {
    let mut env = create_default_env();
    assert_eq!(shows("(/ -7 2)", &mut env), "-3");
    assert_eq!(shows("(/ 7 -2)", &mut env), "-3");
    assert_eq!(shows("(/ 7 2)", &mut env), "3");
    assert_eq!(shows("(% -7 2)", &mut env), "-1");
    assert_eq!(shows("(% 7 -2)", &mut env), "1");
    assert_eq!(shows("(% 7 2)", &mut env), "1");
    assert_eq!(fails("(/ 1 0)", &mut env), "Divide by zero error!");
    assert_eq!(fails("(% 1 0)", &mut env), "Divide by zero error!");
    assert_eq!(
        fails("(+ 170141183460469231731687303715884105727 1)", &mut env),
        "Integer overflow"
    );
    assert_eq!(
        fails("(- -170141183460469231731687303715884105728 1)", &mut env),
        "Integer overflow"
    );
    assert_eq!(
        fails("(* 170141183460469231731687303715884105727 2)", &mut env),
        "Integer overflow"
    );
    assert_eq!(
        fails("(/ -170141183460469231731687303715884105728 -1)", &mut env),
        "Integer overflow"
    );
    assert_eq!(shows("(% -170141183460469231731687303715884105728 -1)", &mut env), "0");
    assert_eq!(
        shows("(+ 170141183460469231731687303715884105726 1)", &mut env),
        "170141183460469231731687303715884105727"
    );
    assert_eq!(fails("(+ 1)", &mut env), "Incorrect number of arguments for arithmetic");
    assert_eq!(fails("(+ 1 \"a\")", &mut env), "Incorrect types for arithmetic!");
    assert_eq!(fails("(- \"a\" \"b\")", &mut env), "Incorrect types for arithmetic!");
    assert_eq!(fails("(% 1.5 2.5)", &mut env), "Incorrect types for arithmetic!");
    assert_eq!(fails("(+ 1 2.5)", &mut env), "Incorrect types for arithmetic!");
}

#[test]
fn floats_are_computed_by_the_host() {
    let mut env = create_default_env();
    assert_eq!(shows("(+ 0.1 0.2)", &mut env), "0.30000000000000004");
    assert_eq!(shows("(* 2.0 4.0)", &mut env), "8.0");
    assert_eq!(shows("(< 1.5 2.5)", &mut env), "true");
    assert_eq!(shows("(> 1.5 2.5)", &mut env), "false");
    assert_eq!(shows("(<= 2.5 2.5)", &mut env), "true");
    assert_eq!(shows("(>= 2.4 2.5)", &mut env), "false");
    assert_eq!(fails("(/ 1.0 0.0)", &mut env), "Divide by zero error!");
    assert_eq!(fails("(/ 1.0 -0.0)", &mut env), "Divide by zero error!");
    assert_eq!(shows("(= 1.0 1.00)", &mut env), "true");
    assert_eq!(shows("(= 0.0 -0.0)", &mut env), "true");
    assert_eq!(shows("(= 1.0 1)", &mut env), "false");
    assert_eq!(shows("(float? 1.5)", &mut env), "true");
}

#[test]
fn the_host_must_answer_in_kind() {
    let mut env = create_default_env();
    let ast = read("(+ 1.5 2.5)".to_string()).unwrap();
    match eval(&ast, 0, 0, &mut env) {
        Status::Waiting(Action::Float(FloatOp::Add, left, right)) => {
            assert_eq!(left, "1.5");
            assert_eq!(right, "2.5");
        }
        other => panic!("unexpected {:?}", other),
    }
    match env.resume(Event::Bool(true)) {
        Status::Finished(Err(e)) => assert_eq!(e.msg, "Unexpected answer from the host"),
        other => panic!("unexpected {:?}", other),
    }
    let ast = read("(< 1.5 2.5)".to_string()).unwrap();
    assert!(matches!(
        eval(&ast, 0, 0, &mut env),
        Status::Waiting(Action::Float(FloatOp::Less, _, _))
    ));
    assert!(matches!(env.step(), Status::Waiting(Action::Float(FloatOp::Less, _, _))));
    match env.resume(Event::Float("1.0".to_string())) {
        Status::Finished(Err(e)) => assert_eq!(e.msg, "Unexpected answer from the host"),
        other => panic!("unexpected {:?}", other),
    }
    match env.resume(Event::Done()) {
        Status::Finished(Err(e)) => assert_eq!(e.msg, "Unexpected answer from the host"),
        other => panic!("unexpected {:?}", other),
    }
}

#[test]
fn comparisons_order_integers() {
    let mut env = create_default_env();
    assert_eq!(shows("(< 1 2)", &mut env), "true");
    assert_eq!(shows("(> 1 2)", &mut env), "false");
    assert_eq!(shows("(<= 2 2)", &mut env), "true");
    assert_eq!(shows("(>= 1 2)", &mut env), "false");
    assert_eq!(fails("(< 1 \"a\")", &mut env), "Incorrect types for comparison!");
    assert_eq!(fails("(< 1)", &mut env), "Incorrect number of arguments for comparison");
}

#[test]
fn equality_is_structural() {
    let mut env = create_default_env();
    assert_eq!(shows("(= (list 1 2) (list 1 2))", &mut env), "true");
    assert_eq!(shows("(= (list 1 2) [1 2])", &mut env), "false");
    assert_eq!(shows("(= [1 [2 \"a\"]] [1 [2 \"a\"]])", &mut env), "true");
    assert_eq!(shows("(= nil nil)", &mut env), "true");
    assert_eq!(shows("(= nil false)", &mut env), "false");
    assert_eq!(shows("(= \"a\" (quote a))", &mut env), "false");
    assert_eq!(shows("(= {\"a\" 1 \"b\" 2} {\"b\" 2 \"a\" 1})", &mut env), "true");
    assert_eq!(shows("(= {\"a\" 1} {\"a\" 2})", &mut env), "false");
    assert_eq!(shows("(= {\"a\" 1} {\"a\" 1 \"b\" 2})", &mut env), "false");
    assert_eq!(shows("(= + +)", &mut env), "true");
    assert_eq!(shows("(= + -)", &mut env), "false");
    run_line("(def! f (fn* () 1))", &mut env);
    assert_eq!(shows("(= f f)", &mut env), "true");
    assert_eq!(shows("(= f (fn* () 1))", &mut env), "false");
    assert_eq!(fails("(= 1)", &mut env), "Not enough arguments passed to =");
}

#[test]
fn lists_are_built_and_taken_apart() {
    let mut env = create_default_env();
    assert_eq!(shows("(list)", &mut env), "()");
    assert_eq!(shows("(list 1 \"a\" nil)", &mut env), "(1 \"a\" nil)");
    assert_eq!(shows("(vector 1 2)", &mut env), "[1 2]");
    assert_eq!(shows("(cons 1 [2 3])", &mut env), "(1 2 3)");
    assert_eq!(fails("(cons 1 2)", &mut env), "Incorrect arguments to cons");
    assert_eq!(shows("(concat (list 1) [2] (list) (list 3 4))", &mut env), "(1 2 3 4)");
    assert_eq!(shows("(concat)", &mut env), "()");
    assert_eq!(fails("(concat (list 1) 2)", &mut env), "Incorrect arguments to concat");
    assert_eq!(shows("(count (list 1 2 3))", &mut env), "3");
    assert_eq!(fails("(count 5)", &mut env), "No arguments given to count");
    assert_eq!(shows("(empty? (list))", &mut env), "true");
    assert_eq!(shows("(empty? (list 1))", &mut env), "false");
    assert_eq!(fails("(empty? 1)", &mut env), "No arguments given to empty?");
    assert_eq!(shows("(first [7 8])", &mut env), "7");
    assert_eq!(fails("(first (list))", &mut env), "Index out of bounds");
    assert_eq!(fails("(first 1)", &mut env), "Wrong arguments for first");
    assert_eq!(shows("(rest (list 1 2 3))", &mut env), "(2 3)");
    assert_eq!(shows("(rest [1])", &mut env), "()");
    assert_eq!(shows("(rest (list))", &mut env), "()");
    assert_eq!(fails("(rest 1)", &mut env), "Wrong arguments for rest");
    assert_eq!(shows("(nth (list 5 6 7) 2)", &mut env), "7");
    assert_eq!(fails("(nth (list 5 6 7) 3)", &mut env), "Index out of bounds");
    assert_eq!(fails("(nth (list 5 6 7) -1)", &mut env), "Index out of bounds");
    assert_eq!(fails("(nth 1 1)", &mut env), "Wrong arguments for nth");
}

#[test]
fn functions_are_applied_and_mapped() {
    let mut env = create_default_env();
    assert_eq!(shows("(apply + 1 (list 2))", &mut env), "3");
    assert_eq!(shows("(apply list 1 [2 3] 4 (list))", &mut env), "(1 2 3 4)");
    assert_eq!(shows("(apply (fn* (a b) (- a b)) (list 5 3))", &mut env), "2");
    assert_eq!(fails("(apply 1 (list 2))", &mut env), "Wrong arguments for apply");
    assert_eq!(shows("(map (fn* (x) (* x 2)) (list 1 2 3))", &mut env), "(2 4 6)");
    assert_eq!(shows("(map list [1 2])", &mut env), "((1) (2))");
    assert_eq!(shows("(map not (list))", &mut env), "()");
    assert_eq!(fails("(map 1 (list 1))", &mut env), "Wrong arguments for map");
    assert_eq!(fails("(map not 1)", &mut env), "Wrong arguments for map");
    assert_eq!(fails("(map (fn* (x) (throw \"no\")) (list 1))", &mut env), "no");
}

#[test]
fn strings_and_symbols_convert() {
    let mut env = create_default_env();
    assert_eq!(shows("(str)", &mut env), "\"\"");
    assert_eq!(shows("(str \"a\" \"b\" \"c\")", &mut env), "\"abc\"");
    assert_eq!(fails("(str \"a\" 1)", &mut env), "All arguments to str should be strings");
    assert_eq!(run_line("(symbol \"abc\")", &mut env), DataType::Symbol("abc".to_string()));
    assert_eq!(fails("(symbol 1)", &mut env), "Not enough arguments to symbol");
    assert_eq!(shows("(+ \"Hello, \" \"World!\")", &mut env), "\"Hello, World!\"");
}

#[test]
fn type_tests_tell_the_variants_apart() {
    let mut env = create_default_env();
    for (source, expected) in [
        ("(list? (list))", "true"),
        ("(list? [])", "false"),
        ("(vector? [])", "true"),
        ("(sequential? [])", "true"),
        ("(sequential? (list))", "true"),
        ("(sequential? 1)", "false"),
        ("(dict? {})", "true"),
        ("(nil? nil)", "true"),
        ("(nil? false)", "false"),
        ("(true? true)", "true"),
        ("(true? 1)", "false"),
        ("(false? false)", "true"),
        ("(false? nil)", "false"),
        ("(symbol? (quote a))", "true"),
        ("(symbol? \"a\")", "false"),
        ("(string? \"a\")", "true"),
        ("(int? 1)", "true"),
        ("(int? 1.0)", "false"),
        ("(float? 1.0)", "true"),
        ("(func? +)", "true"),
        ("(func? (fn* () 1))", "true"),
        ("(func? 1)", "false"),
        ("(atom? (atom 1))", "true"),
        ("(atom? 1)", "false"),
    ] {
        assert_eq!(shows(source, &mut env), expected, "{}", source);
    }
    assert_eq!(fails("(nil?)", &mut env), "No arguments given to data type check");
}

#[test]
fn dictionaries_are_keyed_by_print_forms() {
    let mut env = create_default_env();
    run_line("(def! d (dict \"a\" 1 \"b\" 2))", &mut env);
    assert_eq!(shows("d", &mut env), "{\"a\": 1, \"b\": 2}");
    assert_eq!(shows("(get d \"a\")", &mut env), "1");
    assert_eq!(fails("(get d \"zz\")", &mut env), "Key not found in dict");
    assert_eq!(fails("(get 1 2)", &mut env), "Incorrect arguments for get");
    assert_eq!(shows("(contains d \"b\")", &mut env), "true");
    assert_eq!(shows("(contains d \"c\")", &mut env), "false");
    assert_eq!(shows("(assoc d \"c\" 3 \"a\" 0)", &mut env), "{\"a\": 0, \"b\": 2, \"c\": 3}");
    assert_eq!(fails("(assoc d \"c\")", &mut env), "No value to match key in assoc");
    assert_eq!(fails("(assoc 1 2 3)", &mut env), "Incorrect arguments for assoc");
    assert_eq!(shows("(dissoc d \"a\" \"zz\")", &mut env), "{\"b\": 2}");
    assert_eq!(fails("(dissoc 1 2)", &mut env), "Incorrect arguments for dissoc");
    assert_eq!(shows("d", &mut env), "{\"a\": 1, \"b\": 2}");
    assert_eq!(
        run_line("(keys d)", &mut env),
        DataType::List(vec![
            DataType::String("\"a\"".to_string()),
            DataType::String("\"b\"".to_string())
        ])
    );
    assert_eq!(shows("(values d)", &mut env), "(1 2)");
    assert_eq!(fails("(keys 1)", &mut env), "Incorrect arguments for keys");
    assert_eq!(fails("(values 1)", &mut env), "Incorrect arguments for values");
    assert_eq!(fails("(dict \"a\")", &mut env), "No value to match key in dict");
    assert_eq!(shows("(count (keys (dict (quote foo) 1 \"foo\" 2)))", &mut env), "2");
    assert_eq!(shows("(dict 1 \"x\" 1 \"y\")", &mut env), "{1: \"y\"}");
    assert_eq!(shows("(get (dict [1 2] 5) [1 2])", &mut env), "5");
    assert_eq!(shows("{\"k\" 1 \"k\" 2}", &mut env), "{\"k\": 2}");
}

#[test]
fn prn_hands_a_line_to_the_host() {
    let mut env = create_default_env();
    let mut host = Host { printed: vec![], input: vec![] };
    let ast = read("(prn \"a b\" 1 (list \"c\") nil)".to_string()).unwrap();
    let status = eval(&ast, 0, 0, &mut env);
    let result = drive(status, &mut env, &mut host).unwrap();
    assert_eq!(result, DataType::Nil());
    assert_eq!(host.printed, vec!["a b 1 (\"c\") nil".to_string()]);
    let ast = read("(do (prn) (prn 1) 2)".to_string()).unwrap();
    let status = eval(&ast, 0, 0, &mut env);
    assert_eq!(drive(status, &mut env, &mut host).unwrap(), DataType::Integer(2));
    assert_eq!(host.printed[1..], ["".to_string(), "1".to_string()]);
}

#[test]
fn files_come_from_the_host() {
    let mut env = create_default_env();
    let mut host = Host { printed: vec![], input: vec![] };
    let ast = read("(slurp \"inc.bl\")".to_string()).unwrap();
    match eval(&ast, 0, 0, &mut env) {
        Status::Waiting(Action::Slurp(path)) => assert_eq!(path, "inc.bl"),
        other => panic!("unexpected {:?}", other),
    }
    let ast = read("(load-file \"inc.bl\")".to_string()).unwrap();
    let status = eval(&ast, 0, 0, &mut env);
    assert_eq!(drive(status, &mut env, &mut host).unwrap(), DataType::Nil());
    assert_eq!(shows("(inc5 (inc4 1))", &mut env), "10");
    assert_eq!(
        fails("(slurp \"missing.bl\")", &mut env),
        "Couldn't load file: No such file or directory (os error 2)"
    );
    assert_eq!(fails("(slurp 1)", &mut env), "Incorrect arguments for slurp");
}

#[test]
fn input_and_clock_come_from_the_host() {
    let mut env = create_default_env();
    let mut host = Host { printed: vec![], input: vec!["typed\n".to_string()] };
    let ast = read("(list (input \"name> \") (input) (time-ms))".to_string()).unwrap();
    let status = eval(&ast, 0, 0, &mut env);
    let result = drive(status, &mut env, &mut host).unwrap();
    assert_eq!(
        result,
        DataType::List(vec![
            DataType::String("typed\n".to_string()),
            DataType::String("".to_string()),
            DataType::Integer(1_700_000_000_123)
        ])
    );
    assert_eq!(host.printed, vec!["name> ".to_string(), "".to_string()]);
}

#[test]
fn read_string_reads_a_form() {
    let mut env = create_default_env();
    assert_eq!(shows("(read-string \"(1 [2] nil)\")", &mut env), "(1 [2] nil)");
    assert_eq!(shows("(eval (read-string \"(+ 1 2)\"))", &mut env), "3");
    assert_eq!(fails("(read-string \"(1 2\")", &mut env), "unclosed bracket");
    assert_eq!(fails("(read-string \"\")", &mut env), "empty");
    assert_eq!(fails("(read-string 5)", &mut env), "Incorrect arguments for read-string");
}

#[test]
fn functions_print_with_their_ids() {
    let mut env = create_default_env();
    assert_eq!(shows("+", &mut env), "Fn0");
    assert_eq!(shows("input", &mut env), "Fn53");
    assert_eq!(shows("%", &mut env), "Fn52");
    let shown = shows("(fn* (a) a)", &mut env);
    assert!(shown.starts_with("Closure(") && shown.ends_with(")"), "{}", shown);
    assert_eq!(shows("(atom 1)", &mut env), "Atom(0)");
}

#[test]
fn comments_evaluate_to_themselves() {
    let mut env = create_default_env();
    assert_eq!(shows("; nothing here", &mut env), "");
    assert_eq!(shows("(do ; first\n 1)", &mut env), "1");
}

#[test]
fn rep_shows_values_and_errors() {
    let mut env = create_default_env();
    match rep("(+ 1 2)".to_string(), 0, &mut env) {
        Reply::Output(Some(text)) => assert_eq!(text, "3"),
        other => panic!("unexpected {:?}", other),
    }
    assert!(matches!(rep("(def! x nil)".to_string(), 0, &mut env), Reply::Output(None)));
    match rep("(1 2".to_string(), 0, &mut env) {
        Reply::Output(Some(text)) => assert_eq!(text, "PARSE ERROR: unclosed bracket"),
        other => panic!("unexpected {:?}", other),
    }
    match rep("(foo)".to_string(), 0, &mut env) {
        Reply::Output(Some(text)) => assert_eq!(text, "RUNTIME ERROR: unknown symbol: foo"),
        other => panic!("unexpected {:?}", other),
    }
    match rep("(prn 1)".to_string(), 0, &mut env) {
        Reply::Waiting(Action::Print(line)) => assert_eq!(line, "1"),
        other => panic!("unexpected {:?}", other),
    }
    assert!(matches!(echo(env.resume(Event::Done())), Reply::Output(None)));
    match re("(str \"a\" \"b\")".to_string(), 0, &mut env) {
        Status::Finished(Ok(v)) => assert_eq!(v, DataType::String("ab".to_string())),
        other => panic!("unexpected {:?}", other),
    }
    match re(")".to_string(), 0, &mut env) {
        Status::Finished(Err(e)) => assert_eq!(e.msg, "stray terminator"),
        other => panic!("unexpected {:?}", other),
    }
}

#[test]
fn data_come_back_from_print_read_and_eval() {
    let mut env = create_default_env();
    for source in ["nil", "true", "-12", "\"a\\nb \\\\ \\\"q\\\"\"", "2.5", "[1 [\"x\" nil] 3.0]", "[]"] {
        let value = read(source.to_string()).unwrap();
        let printed = value.print();
        let again = run_line(&printed, &mut env);
        assert!(again.equals(&value), "{}", source);
        assert_eq!(again.print(), printed);
    }
}

fn in_shape(value: &DataType, frames: usize, cells: usize) -> bool {
    match value {
        DataType::List(items) | DataType::Vector(items) => {
            items.iter().all(|item| in_shape(item, frames, cells))
        }
        DataType::Dictionary(pairs) => {
            let mut keys: Vec<&String> = pairs.iter().map(|pair| &pair.0).collect();
            keys.sort();
            keys.dedup();
            keys.len() == pairs.len() && pairs.iter().all(|pair| in_shape(&pair.1, frames, cells))
        }
        DataType::Closure(c) => c.env < frames && c.repl_env < frames && in_shape(&c.ast, frames, cells),
        DataType::Atom(cell) => *cell < cells,
        _ => true,
    }
}

#[test]
fn every_frame_and_cell_that_is_named_exists() {
    let mut env = create_default_env();
    for source in [
        "(def! counter (atom 0))",
        "(def! bump (fn* (by) (swap! counter + by)))",
        "(def! make (fn* (n) (fn* (m) (list n m counter {\"k\" bump}))))",
        "(def! made (map make (list 1 2 3)))",
        "(defmacro! twice (fn* (x) `(do ~x ~x)))",
        "(twice (bump 2))",
        "(def! kept (let* (a (atom [1 2]) f (fn* () a)) (f)))",
        "(def! d (assoc (dict \"a\" make) \"b\" (atom nil) \"a\" kept))",
        "(try* (made 1) (fn* (e) (def! failure e)))",
    ] {
        run_line(source, &mut env);
    }
    let frames = env.envs.len();
    let cells = env.atoms.len();
    assert!(frames > 5 && cells == 3);
    for (index, frame) in env.envs.iter().enumerate() {
        if let Some(outer) = frame.outer {
            assert!(outer < index);
        }
        for (name, value) in &frame.data {
            assert!(in_shape(value, frames, cells), "{}", name);
        }
    }
    for cell in &env.atoms {
        assert!(in_shape(cell, frames, cells));
    }
    assert_eq!(shows("(deref counter)", &mut env), "4");
}

#[test]
fn closures_can_be_called_from_outside() {
    let mut env = create_default_env();
    let double = match run_line("(fn* (x) (* x 2))", &mut env) {
        DataType::Closure(c) => c,
        other => panic!("unexpected {:?}", other),
    };
    env.stack = Vec::new();
    double.func(&vec![DataType::Integer(21)], &mut env);
    match env.run(u64::MAX) {
        Status::Finished(Ok(v)) => assert_eq!(v, DataType::Integer(42)),
        other => panic!("unexpected {:?}", other),
    }
    let scope = double.prepare_tail_call(&vec![DataType::Integer(5)], &mut env).unwrap();
    assert_eq!(scope.env, double.env);
    assert_eq!(scope.root, double.repl_env);
    assert_eq!(env.lookup(double.env, "x"), Some(DataType::Integer(5)));
    let refused = double.prepare_tail_call(&vec![], &mut env).unwrap_err();
    assert_eq!(refused.msg, "Parameters given do not match expected parameters");
    env.stack = Vec::new();
    env.apply(DataType::NativeFunction(0), vec![DataType::Integer(1), DataType::Integer(2)]);
    assert!(matches!(env.status(), Status::Finished(Ok(DataType::Integer(3)))));
    env.call_native(22, vec![DataType::Nil(), DataType::List(vec![])]);
    match env.status() {
        Status::Finished(Ok(v)) => assert_eq!(v.print(), "(nil)"),
        other => panic!("unexpected {:?}", other),
    }
    env.call_native(99, vec![]);
    match env.status() {
        Status::Finished(Err(e)) => assert_eq!(e.msg, "Unknown native function"),
        other => panic!("unexpected {:?}", other),
    }
}

#[test]
fn def_binds_in_the_current_frame() {
    let mut env = create_default_env();
    assert_eq!(shows("(let* (a 1) (do (def! inner (+ a 1)) inner))", &mut env), "2");
    assert_eq!(fails("inner", &mut env), "unknown symbol: inner");
    assert_eq!(shows("(do (def! outer 1) (def! outer 2) outer)", &mut env), "2");
    assert_eq!(shows("outer", &mut env), "2");
    assert_eq!(shows("(def! f (fn* () 1))", &mut env).starts_with("Closure("), true);
}

#[test]
fn deep_recursion_outside_tail_position_uses_the_continuation_stack() {
    let mut env = create_default_env();
    run_line("(def! sum (fn* (n) (if (= n 0) 0 (+ n (sum (- n 1))))))", &mut env);
    assert_eq!(shows("(sum 20000)", &mut env), "200010000");
    assert!(env.stack.is_empty());
}
