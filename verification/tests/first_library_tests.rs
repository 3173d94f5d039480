use std::collections::VecDeque;

use bracketlang::evaluator::{eval, RuntimeError};
use bracketlang::machine::{Action, Event, FloatOp, Interpreter, Status};
use bracketlang::reader::{get_regex, tokenize};
use bracketlang::variable_type::DataType;
use bracketlang::{create_repl_env, read};

const FIB_TEST: &str = "(defun fib (n)
  \"Return the nth Fibonacci number.\"
  (if (< n 2)
      n
      (+ (fib (- n 1))
         (fib (- n 2)))))
";

fn float_answer(op: FloatOp, left: &str, right: &str) -> Event {
    let a: f64 = left.parse().unwrap();
    let b: f64 = right.parse().unwrap();
    match op {
        FloatOp::Add => Event::Float(format!("{:?}", a + b)),
        FloatOp::Subtract => Event::Float(format!("{:?}", a - b)),
        FloatOp::Multiply => Event::Float(format!("{:?}", a * b)),
        FloatOp::Divide => Event::Float(format!("{:?}", a / b)),
        FloatOp::Greater => Event::Bool(a > b),
        FloatOp::Less => Event::Bool(a < b),
        FloatOp::GreaterOrEqual => Event::Bool(a >= b),
        FloatOp::LessOrEqual => Event::Bool(a <= b),
    }
}

fn drive(status: Status, interp: &mut Interpreter) -> Result<DataType, RuntimeError> {
    let mut status = status;
    loop {
        match status {
            Status::Finished(result) => return result,
            Status::Waiting(Action::Float(op, left, right)) => {
                status = interp.resume(float_answer(op, &left, &right))
            }
            Status::Waiting(_) => status = interp.resume(Event::Done()),
            Status::Running() => status = interp.run(u64::MAX),
        }
    }
}

fn evaluate(ast: &DataType, interp: &mut Interpreter) -> Result<DataType, RuntimeError> {
    let status = eval(ast, 0, 0, interp);
    drive(status, interp)
}

fn float_of(value: &DataType) -> f64 {
    if let DataType::Float(text) = value {
        text.parse().unwrap()
    } else {
        panic!("not a float: {:?}", value)
    }
}

#[test]
fn tests_test_tokenize_simple_addition() {
    let tokens = tokenize("(+ 3 2)".to_string(), get_regex().unwrap());
    let mut expected_tokens = VecDeque::new();

    for token in vec!["(", "+", "3", "2", ")"] {
        expected_tokens.push_back(token.to_string());
    }

    assert_eq!(tokens, expected_tokens);
}

#[test]
fn tests_test_tokenize_fibonacci() {
    let tokens = tokenize(FIB_TEST.to_string(), get_regex().unwrap());
    let mut expected_tokens = VecDeque::new();

    for token in vec![
        "(",
        "defun",
        "fib",
        "(",
        "n",
        ")",
        "\"Return the nth Fibonacci number.\"",
        "(",
        "if",
        "(",
        "<",
        "n",
        "2",
        ")",
        "n",
        "(",
        "+",
        "(",
        "fib",
        "(",
        "-",
        "n",
        "1",
        ")",
        ")",
        "(",
        "fib",
        "(",
        "-",
        "n",
        "2",
        ")",
        ")",
        ")",
        ")",
        ")",
    ] {
        expected_tokens.push_back(token.to_string());
    }

    assert_eq!(tokens, expected_tokens);
}

#[test]
fn tests_test_parsing_basic() {
    let ast = read("(+ 3 2)".to_string()).unwrap();
    assert_eq!(ast.print(), "(+ 3 2)");
}

#[test]
fn tests_test_parsing_fibonacci() {
    let ast = read(FIB_TEST.to_string()).unwrap();
    assert_eq!(
        ast.print(),
        "(defun fib (n) \"Return the nth Fibonacci number.\" (if (< n 2) n (+ (fib (- n 1)) (fib (- n 2)))))"
    );
}

#[test]
fn tests_test_parsing_list() {
    let ast = read("[1 2 3]".to_string()).unwrap();
    assert_eq!(ast.print(), "[1 2 3]");
}

#[test]
fn tests_test_parsing_dict() {
    let ast = read("{\"hello\" 1 \"world\" 2}".to_string()).unwrap();
    let test = ast.print();
    println!("{}", test);
    assert!(test.contains("\"hello\": 1") && test.contains("\"world\": 2"));
}

#[test]
fn tests_test_eval_simple_addition() {
    let result = evaluate(&read("(+ 3 2)".to_string()).unwrap(), &mut create_repl_env()).unwrap();
    if let DataType::Integer(num_result) = result {
        assert_eq!(num_result, 5);
    } else {
        assert!(false);
    }
}

#[test]
fn tests_test_eval_simple_addition_with_strings() {
    let result = evaluate(
        &read("(+ \"Hello, \" \"World!\")".to_string()).unwrap(),
        &mut create_repl_env(),
    )
    .unwrap();
    if let DataType::String(num_result) = result {
        assert_eq!(num_result, "Hello, World!".to_string());
    } else {
        assert!(false);
    }
}

#[test]
fn tests_test_eval_addition_with_negatives() {
    let result = evaluate(&read("(+ 3 -4)".to_string()).unwrap(), &mut create_repl_env()).unwrap();
    if let DataType::Integer(num_result) = result {
        assert_eq!(num_result, -1);
    } else {
        assert!(false);
    }
}

#[test]
fn tests_test_eval_addition_with_floats() {
    let result = evaluate(&read("(+ 3.0 -4.5)".to_string()).unwrap(), &mut create_repl_env()).unwrap();
    if let DataType::Float(_) = result {
        assert_eq!(float_of(&result), -1.5);
    } else {
        assert!(false);
    }
}

#[test]
fn tests_test_eval_simple_subtraction() {
    let result = evaluate(&read("(- 3 2)".to_string()).unwrap(), &mut create_repl_env()).unwrap();
    if let DataType::Integer(num_result) = result {
        assert_eq!(num_result, 1);
    } else {
        assert!(false);
    }
}

#[test]
fn tests_test_eval_subtraction_with_negatives() {
    let result = evaluate(&read("(- 3 -4)".to_string()).unwrap(), &mut create_repl_env()).unwrap();
    if let DataType::Integer(num_result) = result {
        assert_eq!(num_result, 7);
    } else {
        assert!(false);
    }
}

#[test]
fn tests_test_eval_subtraction_with_floats() {
    let result = evaluate(&read("(- 2.5 3.5)".to_string()).unwrap(), &mut create_repl_env()).unwrap();
    if let DataType::Float(_) = result {
        assert_eq!(float_of(&result), -1.0);
    } else {
        assert!(false);
    }
}

#[test]
fn tests_test_eval_simple_multiplication() {
    let result = evaluate(&read("(* 3 2)".to_string()).unwrap(), &mut create_repl_env()).unwrap();
    if let DataType::Integer(num_result) = result {
        assert_eq!(num_result, 6);
    } else {
        assert!(false);
    }
}

#[test]
fn tests_test_eval_multiplication_with_negatives() {
    let result = evaluate(&read("(* 3 -4)".to_string()).unwrap(), &mut create_repl_env()).unwrap();
    if let DataType::Integer(num_result) = result {
        assert_eq!(num_result, -12);
    } else {
        assert!(false);
    }
}

#[test]
fn tests_test_eval_multiplication_with_floats() {
    let result = evaluate(&read("(* 3.0 1.5)".to_string()).unwrap(), &mut create_repl_env()).unwrap();
    if let DataType::Float(_) = result {
        assert_eq!(float_of(&result), 4.5);
    } else {
        assert!(false);
    }
}

#[test]
fn tests_test_eval_simple_division() {
    let result = evaluate(&read("(/ 4 2)".to_string()).unwrap(), &mut create_repl_env()).unwrap();
    if let DataType::Integer(num_result) = result {
        assert_eq!(num_result, 2);
    } else {
        assert!(false);
    }
}

#[test]
fn tests_test_eval_division_with_negatives() {
    let result = evaluate(&read("(/ -18 -6)".to_string()).unwrap(), &mut create_repl_env()).unwrap();
    if let DataType::Integer(num_result) = result {
        assert_eq!(num_result, 3);
    } else {
        assert!(false);
    }
}

#[test]
fn tests_test_eval_division_with_floats() {
    let result = evaluate(&read("(/ 2.25 1.5)".to_string()).unwrap(), &mut create_repl_env()).unwrap();
    if let DataType::Float(_) = result {
        assert_eq!(float_of(&result), 1.5);
    } else {
        assert!(false);
    }
}

#[test]
fn tests_test_simple_def() {
    let mut env = create_repl_env();
    let _ = evaluate(&read("(def! a 3)".to_string()).unwrap(), &mut env).unwrap();
    let result = evaluate(&read("a".to_string()).unwrap(), &mut env).unwrap();
    if let DataType::Integer(int) = result {
        assert_eq!(int, 3);
    } else {
        assert!(false);
    }
}

#[test]
fn tests_test_simple_let() {
    let mut env = create_repl_env();
    let result = evaluate(&read("(let* (c 3) c)".to_string()).unwrap(), &mut env).unwrap();
    if let DataType::Integer(int) = result {
        assert_eq!(int, 3);
    } else {
        assert!(false);
    }
}

#[test]
fn tests_test_simple_do() {
    let mut env = create_repl_env();
    let result = evaluate(&read("(do 1 2 3 4)".to_string()).unwrap(), &mut env).unwrap();
    if let DataType::Integer(int) = result {
        assert_eq!(int, 4);
    } else {
        assert!(false);
    }
}
