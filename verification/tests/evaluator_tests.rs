use bracketlang::evaluator::{eval, RuntimeError};
use bracketlang::machine::{Action, Event, FloatOp, Interpreter, Status};
use bracketlang::variable_type::DataType;
use bracketlang::{create_default_env, create_default_repl_env, read};

fn float_answer(op: FloatOp, left: &str, right: &str) -> Event {
    let a: f64 = left.parse().unwrap();
    let b: f64 = right.parse().unwrap();
    match op {
        FloatOp::Add => Event::Float(format!("{:?}", a + b)),
        FloatOp::Subtract => Event::Float(format!("{:?}", a - b)),
        FloatOp::Multiply => Event::Float(format!("{:?}", a * b)),
        FloatOp::Divide => Event::Float(format!("{:?}", a / b)),
        FloatOp::Greater => Event::Bool(a > b),
        FloatOp::Less => Event::Bool(a < b),
        FloatOp::GreaterOrEqual => Event::Bool(a >= b),
        FloatOp::LessOrEqual => Event::Bool(a <= b),
    }
}

fn host(action: Action) -> Event {
    match action {
        Action::Print(line) => {
            println!("{}", line);
            Event::Done()
        }
        Action::Slurp(path) => {
            if path == "test.bl" {
                Event::Text("(def! inc4 (fn* (a) (+ a 4)))".to_string())
            } else {
                Event::Failed("No such file or directory".to_string())
            }
        }
        Action::Input(_) => Event::End(),
        Action::TimeMs() => Event::Integer(1_700_000_000_000),
        Action::Float(op, left, right) => float_answer(op, &left, &right),
    }
}

fn drive(status: Status, interp: &mut Interpreter) -> Result<DataType, RuntimeError> {
    let mut status = status;
    loop {
        match status {
            Status::Finished(result) => return result,
            Status::Waiting(action) => status = interp.resume(host(action)),
            Status::Running() => status = interp.run(u64::MAX),
        }
    }
}

fn run_line(string: &str, interp: &mut Interpreter) -> DataType {
    let ast = read(string.to_string()).unwrap();
    drive(eval(&ast, 0, 0, interp), interp).unwrap()
}

fn float_of(value: &DataType) -> f64 {
    if let DataType::Float(text) = value {
        text.parse().unwrap()
    } else {
        panic!("not a float: {:?}", value)
    }
}

#[test]
fn test_eval_simple_addition() {
    let mut env = create_default_repl_env();
    let result = run_line("(+ 3 2)", &mut env);
    if let DataType::Integer(num_result) = result {
        assert_eq!(num_result, 5);
    } else {
        assert!(false);
    }
}

#[test]
fn test_eval_simple_addition_with_strings() {
    let mut env = create_default_repl_env();
    let result = run_line("(+ \"Hello, \" \"World!\")", &mut env);
    if let DataType::String(num_result) = result {
        assert_eq!(num_result, "Hello, World!".to_string());
    } else {
        assert!(false);
    }
}

#[test]
fn test_eval_addition_with_negatives() {
    let mut env = create_default_repl_env();
    let result = run_line("(+ 3 -4)", &mut env);

    if let DataType::Integer(num_result) = result {
        assert_eq!(num_result, -1);
    } else {
        assert!(false);
    }
}

#[test]
fn test_eval_addition_with_floats() {
    let mut env = create_default_repl_env();
    let result = run_line("(+ 3.0 -4.5)", &mut env);

    if let DataType::Float(_) = result {
        assert_eq!(float_of(&result), -1.5);
    } else {
        assert!(false);
    }
}

#[test]
fn test_eval_simple_subtraction() {
    let mut env = create_default_repl_env();
    let result = run_line("(- 3 2)", &mut env);

    if let DataType::Integer(num_result) = result {
        assert_eq!(num_result, 1);
    } else {
        assert!(false);
    }
}

#[test]
fn test_eval_subtraction_with_negatives() {
    let mut env = create_default_repl_env();
    let result = run_line("(- 3 -4)", &mut env);

    if let DataType::Integer(num_result) = result {
        assert_eq!(num_result, 7);
    } else {
        assert!(false);
    }
}

#[test]
fn test_eval_subtraction_with_floats() {
    let mut env = create_default_repl_env();
    let result = run_line("(- 2.5 3.5)", &mut env);

    if let DataType::Float(_) = result {
        assert_eq!(float_of(&result), -1.0);
    } else {
        assert!(false);
    }
}

#[test]
fn test_eval_simple_multiplication() {
    let mut env = create_default_repl_env();
    let result = run_line("(* 3 2)", &mut env);

    if let DataType::Integer(num_result) = result {
        assert_eq!(num_result, 6);
    } else {
        assert!(false);
    }
}

#[test]
fn test_eval_multiplication_with_negatives() {
    let mut env = create_default_repl_env();
    let result = run_line("(* 3 -4)", &mut env);

    if let DataType::Integer(num_result) = result {
        assert_eq!(num_result, -12);
    } else {
        assert!(false);
    }
}

#[test]
fn test_eval_multiplication_with_floats() {
    let mut env = create_default_repl_env();
    let result = run_line("(* 3.0 1.5)", &mut env);

    if let DataType::Float(_) = result {
        assert_eq!(float_of(&result), 4.5);
    } else {
        assert!(false);
    }
}

#[test]
fn test_eval_simple_division() {
    let mut env = create_default_repl_env();
    let result = run_line("(/ 4 2)", &mut env);

    if let DataType::Integer(num_result) = result {
        assert_eq!(num_result, 2);
    } else {
        assert!(false);
    }
}

#[test]
fn test_eval_division_with_negatives() {
    let mut env = create_default_repl_env();
    let result = run_line("(/ -18 -6)", &mut env);

    if let DataType::Integer(num_result) = result {
        assert_eq!(num_result, 3);
    } else {
        assert!(false);
    }
}

#[test]
fn test_eval_division_with_floats() {
    let mut env = create_default_repl_env();
    let result = run_line("(/ 2.25 1.5)", &mut env);

    if let DataType::Float(_) = result {
        assert_eq!(float_of(&result), 1.5);
    } else {
        assert!(false);
    }
}

#[test]
fn test_simple_def() {
    let mut env = create_default_repl_env();
    let _ = run_line("(def! a 3)", &mut env);
    let result = run_line("a", &mut env);

    if let DataType::Integer(int) = result {
        assert_eq!(int, 3);
    } else {
        assert!(false);
    }
}

#[test]
fn test_simple_let() {
    let mut env = create_default_repl_env();
    let result = run_line("(let* (c 3) c)", &mut env);

    if let DataType::Integer(int) = result {
        assert_eq!(int, 3);
    } else {
        assert!(false);
    }
}

#[test]
fn test_simple_do() {
    let mut env = create_default_repl_env();
    let result = run_line("(do 1 2 3 4)", &mut env);

    if let DataType::Integer(int) = result {
        assert_eq!(int, 4);
    } else {
        assert!(false);
    }
}

#[test]
#[should_panic]
fn test_env_leak() {
    let mut env = create_default_repl_env();
    let result = run_line("(let* (c 18) c)", &mut env);

    if let DataType::Integer(int) = result {
        assert_eq!(int, 18);
    } else {
        assert!(false);
    }
    let _ = run_line("c", &mut env);
}

#[test]
fn test_simple_function() {
    let mut env = create_default_repl_env();
    let result = run_line("(def! x (fn* (a) a))", &mut env);

    let DataType::Closure(_) = result else { panic!() };
    let result = run_line("(x 3)", &mut env);

    if let DataType::Integer(int) = result {
        assert_eq!(int, 3);
    } else {
        assert!(false);
    }
}

#[test]
fn test_simple_load_file() {
    let mut env = create_default_repl_env();
    let _ = run_line(
        "(def! load-file (fn* (f) (eval (read-string (str \"(do \" (slurp f) \"\\nnil)\")))))",
        &mut env,
    );
    let _ = run_line("(load-file \"test.bl\")", &mut env);
    let result = run_line("(inc4 3)", &mut env);

    if let DataType::Integer(int) = result {
        assert_eq!(int, 7);
    } else {
        assert!(false);
    }
}

#[test]
fn test_create_atom() {
    let mut env = create_default_repl_env();
    let result = run_line("(def! x (atom 3))", &mut env);

    let DataType::Atom(_) = result else {
        panic!();
    };

    let result = run_line("(deref x)", &mut env);
    if let DataType::Integer(int) = result {
        assert_eq!(int, 3);
    } else {
        panic!();
    }
}

#[test]
fn test_reset_atom() {
    let mut env = create_default_repl_env();
    let _ = run_line("(def! x (atom 3))", &mut env);
    let _ = run_line("(reset! x 4)", &mut env);

    let result = run_line("(deref x)", &mut env);
    if let DataType::Integer(int) = result {
        assert_eq!(int, 4);
    } else {
        panic!();
    }
}

#[test]
fn test_cons() {
    let mut env = create_default_repl_env();
    let result = run_line("(cons 1 (list 2 3))", &mut env);
    if let DataType::List(list) = result {
        assert_eq!(
            list,
            vec![
                DataType::Integer(1),
                DataType::Integer(2),
                DataType::Integer(3)
            ]
        );
    } else {
        panic!();
    }
}

#[test]
fn test_quote() {
    let mut env = create_default_repl_env();
    let result = run_line("(quote (b c))", &mut env);
    if let DataType::List(list) = result {
        assert_eq!(
            list,
            vec![
                DataType::Symbol("b".to_string()),
                DataType::Symbol("c".to_string())
            ]
        );
    } else {
        panic!();
    }
}

#[test]
fn test_quasiquote() {
    let mut env = create_default_repl_env();
    let result = run_line("(quasiquote (a lst d))", &mut env);

    if let DataType::List(list) = result {
        assert_eq!(
            list,
            vec![
                DataType::Symbol("a".to_string()),
                DataType::Symbol("lst".to_string()),
                DataType::Symbol("d".to_string())
            ]
        );
    } else {
        panic!();
    }
}

#[test]
fn test_quasiquote_unquote() {
    let mut env = create_default_repl_env();
    let _ = run_line("(def! lst (quote (b c)))", &mut env);
    let result = run_line("(quasiquote (a (unquote lst) d))", &mut env);

    if let DataType::List(list) = result {
        assert_eq!(
            list,
            vec![
                DataType::Symbol("a".to_string()),
                DataType::List(vec![
                    DataType::Symbol("b".to_string()),
                    DataType::Symbol("c".to_string())
                ]),
                DataType::Symbol("d".to_string())
            ]
        );
    } else {
        panic!();
    }
}

#[test]
fn test_splice_unquote() {
    let mut env = create_default_repl_env();
    let _ = run_line("(def! lst (quote (b c)))", &mut env);
    let result = run_line("(quasiquote (a (splice-unquote lst) d))", &mut env);

    if let DataType::List(list) = result {
        assert_eq!(
            list,
            vec![
                DataType::Symbol("a".to_string()),
                DataType::Symbol("b".to_string()),
                DataType::Symbol("c".to_string()),
                DataType::Symbol("d".to_string())
            ]
        );
    } else {
        panic!();
    }
}

#[test]
fn test_macros() {
    let mut env = create_default_repl_env();
    let _ = run_line(
        "(defmacro! unless (fn* (pred a b) `(if ~pred ~b ~a)))",
        &mut env,
    );
    let result = run_line("(unless false 7 8)", &mut env);

    if let DataType::Integer(i) = result {
        assert_eq!(i, 7);
    } else {
        panic!();
    }
}

#[test]
fn test_macros_2() {
    let mut env = create_default_repl_env();
    let _ = run_line("(defmacro! makelist (fn* (x) x))", &mut env);
    let result = run_line("(makelist (+ 2 3))", &mut env);

    if let DataType::Integer(int) = result {
        assert_eq!(int, 5);
    } else {
        panic!();
    }
}

#[test]
fn tail_recursion_of_a_million_calls_completes() {
    let mut env = create_default_env();
    let _ = run_line(
        "(def! count-down (fn* (n) (if (= n 0) 0 (count-down (- n 1)))))",
        &mut env,
    );
    let result = run_line("(count-down 1000000)", &mut env);
    assert_eq!(result, DataType::Integer(0));
    assert!(env.stack.is_empty());
}
