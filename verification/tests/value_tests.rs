use std::collections::VecDeque;

use bracketlang::env::CoreFunction;
use bracketlang::machine::{Environment, Interpreter};
use bracketlang::read;
use bracketlang::reader::{get_regex, tokenize, trim, Reader};
use bracketlang::text::{parse_integer, same_text};
use bracketlang::variable_type::{Closure, DataType};
use bracketlang::{create_default_repl_env, create_repl_env, print};

fn tokens(source: &str) -> Vec<String> {
    tokenize(source.to_string(), get_regex().unwrap()).into_iter().collect()
}

fn parse(source: &str) -> DataType {
    read(source.to_string()).unwrap()
}

fn parse_error(source: &str) -> String {
    read(source.to_string()).unwrap_err().msg
}

fn sample_values() -> Vec<DataType> {
    vec![
        DataType::Nil(),
        DataType::Comment(),
        DataType::Bool(true),
        DataType::Bool(false),
        DataType::Integer(0),
        DataType::Integer(-5),
        DataType::Float("0.0".to_string()),
        DataType::Float("-0.0".to_string()),
        DataType::Float("1.5".to_string()),
        DataType::String("a".to_string()),
        DataType::Symbol("a".to_string()),
        DataType::List(vec![DataType::Integer(1), DataType::Integer(2)]),
        DataType::Vector(vec![DataType::Integer(1), DataType::Integer(2)]),
        DataType::List(vec![]),
        DataType::Dictionary(vec![
            ("a".to_string(), DataType::Integer(1)),
            ("b".to_string(), DataType::Integer(2)),
        ]),
        DataType::Dictionary(vec![
            ("b".to_string(), DataType::Integer(2)),
            ("a".to_string(), DataType::Integer(1)),
        ]),
        DataType::Dictionary(vec![("a".to_string(), DataType::Integer(1))]),
        DataType::NativeFunction(3),
        DataType::NativeFunction(4),
        DataType::Atom(0),
        DataType::Atom(1),
        DataType::Closure(Closure {
            ast: Box::new(DataType::Nil()),
            params: vec![],
            env: 1,
            repl_env: 0,
            is_macro: false,
        }),
        DataType::Closure(Closure {
            ast: Box::new(DataType::Nil()),
            params: vec![],
            env: 1,
            repl_env: 0,
            is_macro: true,
        }),
    ]
}

#[test]
fn equality_is_an_equivalence_on_samples() {
    let values = sample_values();
    for a in &values {
        assert!(a.equals(a), "{:?}", a);
        for b in &values {
            assert_eq!(a.equals(b), b.equals(a), "{:?} {:?}", a, b);
            for c in &values {
                if a.equals(b) && b.equals(c) {
                    assert!(a.equals(c), "{:?} {:?} {:?}", a, b, c);
                }
            }
        }
    }
    assert!(values[6].equals(&values[7]));
    assert!(values[14].equals(&values[15]));
    assert!(!values[14].equals(&values[16]));
    assert!(!values[11].equals(&values[12]));
    assert!(!values[21].equals(&values[22]));
}

#[test]
fn not_a_number_equals_nothing() {
    let nan = DataType::Float("NaN".to_string());
    assert!(!nan.equals(&nan));
    assert!(!DataType::List(vec![nan.clone()]).equals(&DataType::List(vec![nan])));
}

#[test]
fn a_repeated_key_spoils_reflexivity() {
    let odd = DataType::Dictionary(vec![
        ("a".to_string(), DataType::Integer(1)),
        ("a".to_string(), DataType::Integer(2)),
    ]);
    assert!(!odd.equals(&odd));
}

#[test]
fn clones_are_equal_and_print_alike() {
    for v in sample_values() {
        let copy = v.clone();
        assert_eq!(copy.print(), v.print());
        assert_eq!(format!("{:?}", copy), format!("{:?}", v));
    }
}

#[test]
fn print_forms_follow_the_variants() {
    assert_eq!(print(DataType::Nil()), "nil");
    assert_eq!(print(DataType::Bool(true)), "true");
    assert_eq!(print(DataType::Bool(false)), "false");
    assert_eq!(print(DataType::Integer(i128::MIN)), "-170141183460469231731687303715884105728");
    assert_eq!(print(DataType::Integer(i128::MAX)), "170141183460469231731687303715884105727");
    assert_eq!(print(DataType::Integer(0)), "0");
    assert_eq!(print(DataType::Integer(1000)), "1000");
    assert_eq!(print(DataType::Float("3.0".to_string())), "3.0");
    assert_eq!(print(DataType::String("a\nb\\c\"d".to_string())), "\"a\\nb\\\\c\\\"d\"");
    assert_eq!(print(DataType::Symbol("sym".to_string())), "sym");
    assert_eq!(print(DataType::Comment()), "");
    assert_eq!(print(DataType::List(vec![])), "()");
    assert_eq!(
        print(DataType::List(vec![
            DataType::Integer(1),
            DataType::Vector(vec![DataType::Nil(), DataType::Nil()])
        ])),
        "(1 [nil nil])"
    );
    assert_eq!(
        print(DataType::Dictionary(vec![
            ("k".to_string(), DataType::Integer(1)),
            ("\"s\"".to_string(), DataType::List(vec![])),
        ])),
        "{k: 1, \"s\": ()}"
    );
    assert_eq!(print(DataType::Dictionary(vec![])), "{}");
    assert_eq!(print(DataType::NativeFunction(7)), "Fn7");
    assert_eq!(print(DataType::NativeFunction(-1)), "Fn-1");
    assert_eq!(print(DataType::Atom(12)), "Atom(12)");
    assert_eq!(
        print(DataType::Closure(Closure {
            ast: Box::new(DataType::Nil()),
            params: vec!["a".to_string()],
            env: 42,
            repl_env: 0,
            is_macro: false,
        })),
        "Closure(42)"
    );
}

#[test]
fn the_tokenizer_follows_the_pattern() {
    assert_eq!(tokens("  (a,b , c)\n"), ["(", "a", "b", "c", ")"]);
    assert_eq!(tokens("~@x ~y 'z `w @v ^u"), ["~@", "x", "~", "y", "'", "z", "`", "w", "@", "v", "^", "u"]);
    assert_eq!(tokens("[1 {2 3}]"), ["[", "1", "{", "2", "3", "}", "]"]);
    assert_eq!(tokens("\"a \\\" b\" c"), ["\"a \\\" b\"", "c"]);
    assert_eq!(tokens("\"open"), ["\"open"]);
    assert_eq!(tokens("1 ; note (x)\n2"), ["1", "; note (x)", "2"]);
    assert!(tokens("").is_empty());
    assert!(tokens(" \n\t ,, ").is_empty());
    assert_eq!(tokens("\u{a0}x\u{2003}"), ["x"]);
}

#[test]
fn white_space_is_trimmed_at_both_ends() {
    assert_eq!(trim("  a b \n"), "a b");
    assert_eq!(trim("\u{3000}\u{85}x\u{2028}"), "x");
    assert_eq!(trim("\t\r\n"), "");
    assert_eq!(trim(""), "");
    assert_eq!(trim("\u{200b}x"), "\u{200b}x");
    for text in ["  a ", "\u{1680}b\u{202f}", "c\u{205f}", "\u{2000}\u{200a}d", "\u{b}\u{c}e"] {
        assert_eq!(trim(text), text.trim());
    }
}

#[test]
fn the_reader_takes_tokens_in_order() {
    let mut queue = VecDeque::new();
    for token in ["a", "(", "b", ")"] {
        queue.push_back(token.to_string());
    }
    let mut reader = Reader::new(queue);
    assert_eq!(reader.peek(), Some("a".to_string()));
    assert_eq!(reader.peek(), Some("a".to_string()));
    assert_eq!(reader.next(), Some("a".to_string()));
    assert_eq!(reader.peek(), Some("(".to_string()));
    assert_eq!(reader.read().unwrap().print(), "(b)");
    assert_eq!(reader.peek(), None);
    assert_eq!(reader.next(), None);
    assert_eq!(reader.read().unwrap_err().msg, "empty");
    assert_eq!(reader.read_atom().unwrap_err().msg, "unexpected end of input");
    assert_eq!(reader.read_list(")".to_string()).unwrap_err().msg, "unclosed bracket");
    assert_eq!(reader.read_dictionary("}".to_string()).unwrap_err().msg, "unclosed bracket");
}

#[test]
fn lists_and_vectors_are_told_apart_by_the_closing_token() {
    let mut queue = VecDeque::new();
    for token in ["1", ")", "2", "]", "k", "3", "}"] {
        queue.push_back(token.to_string());
    }
    let mut reader = Reader::new(queue);
    assert_eq!(reader.read_list(")".to_string()).unwrap().print(), "(1)");
    assert_eq!(reader.read_list("]".to_string()).unwrap().print(), "[2]");
    assert_eq!(reader.read_dictionary("}".to_string()).unwrap().print(), "{k: 3}");
}

#[test]
fn atoms_are_read_by_their_shape() {
    assert_eq!(parse("-7"), DataType::Integer(-7));
    assert_eq!(parse("+7"), DataType::Integer(7));
    assert_eq!(parse("007"), DataType::Integer(7));
    assert_eq!(
        parse("-170141183460469231731687303715884105728"),
        DataType::Integer(i128::MIN)
    );
    assert_eq!(
        parse("170141183460469231731687303715884105728"),
        DataType::Symbol("170141183460469231731687303715884105728".to_string())
    );
    assert_eq!(parse("-"), DataType::Symbol("-".to_string()));
    assert_eq!(parse("+"), DataType::Symbol("+".to_string()));
    assert_eq!(parse("1a"), DataType::Symbol("1a".to_string()));
    assert_eq!(parse("true"), DataType::Bool(true));
    assert_eq!(parse("false"), DataType::Bool(false));
    assert_eq!(parse("nil"), DataType::Nil());
    assert_eq!(parse("nil?"), DataType::Symbol("nil?".to_string()));
    assert_eq!(parse("^"), DataType::Symbol("^".to_string()));
    assert_eq!(parse("; a comment"), DataType::Comment());
}

#[test]
fn floats_are_kept_in_their_shortest_form() {
    for (source, expected) in [
        ("3.0", "3.0"),
        ("3.", "3.0"),
        (".5", "0.5"),
        ("-0.50", "-0.5"),
        ("+1.5", "1.5"),
        ("007.100", "7.1"),
        ("0.0", "0.0"),
        ("-0.0", "-0.0"),
        ("000.000", "0.0"),
        ("10.01", "10.01"),
    ] {
        assert_eq!(parse(source), DataType::Float(expected.to_string()), "{}", source);
    }
    for source in ["1.2.3", "1e5", ".", "-.", "1.5e3", "1.a", "a.1"] {
        assert_eq!(parse(source), DataType::Symbol(source.to_string()), "{}", source);
    }
}

#[test]
fn strings_are_decoded_from_left_to_right() {
    assert_eq!(parse("\"\""), DataType::String("".to_string()));
    assert_eq!(parse("\"a\\nb\""), DataType::String("a\nb".to_string()));
    assert_eq!(parse("\"a\\\\nb\""), DataType::String("a\\nb".to_string()));
    assert_eq!(parse("\"say \\\"hi\\\"\""), DataType::String("say \"hi\"".to_string()));
    assert_eq!(parse("\"a\\tb\""), DataType::String("a\\tb".to_string()));
    assert_eq!(parse("\"(not a list)\""), DataType::String("(not a list)".to_string()));
    for text in ["", "plain", "line\nbreak", "back\\slash", "\"quoted\"", "\\n", "\\\\\"\n"] {
        let value = DataType::String(text.to_string());
        assert_eq!(parse(&value.print()), value, "{:?}", text);
    }
}

#[test]
fn quoting_tokens_wrap_the_next_form() {
    assert_eq!(parse("'a").print(), "(quote a)");
    assert_eq!(parse("'(a b)").print(), "(quote (a b))");
    assert_eq!(parse("`(a ~b ~@c)").print(), "(quasiquote (a (unquote b) (splice-unquote c)))");
    assert_eq!(parse("@a").print(), "(deref a)");
    assert_eq!(parse("''a").print(), "(quote (quote a))");
    assert_eq!(parse("@'a").print(), "(deref (quote a))");
    assert_eq!(parse_error("@(a)"), "unparseable atom");
    assert_eq!(parse_error("'"), "empty");
    assert_eq!(parse_error("@"), "unexpected end of input");
}

#[test]
fn malformed_text_is_refused() {
    assert_eq!(parse_error(""), "empty");
    assert_eq!(parse_error("   "), "empty");
    assert_eq!(parse_error("(1 2"), "unclosed bracket");
    assert_eq!(parse_error("[1 2"), "unclosed bracket");
    assert_eq!(parse_error("{\"a\" 1"), "unclosed bracket");
    assert_eq!(parse_error("(1 (2 3)"), "unclosed bracket");
    assert_eq!(parse_error(")"), "stray terminator");
    assert_eq!(parse_error("]"), "stray terminator");
    assert_eq!(parse_error("}"), "stray terminator");
    assert_eq!(parse_error("(1 ]"), "stray terminator");
    assert_eq!(parse_error("[1 )"), "stray terminator");
    assert_eq!(parse_error("{\"a\"}"), "stray terminator");
    assert_eq!(parse_error("\"open"), "unbalanced string");
    assert_eq!(parse_error("(\"open)"), "unbalanced string");
    assert_eq!(parse_error("\"a\\"), "unbalanced string");
}

#[test]
fn only_the_first_form_is_read() {
    assert_eq!(parse("1 2 3"), DataType::Integer(1));
    assert_eq!(parse("(a) (b)").print(), "(a)");
    assert_eq!(parse("a )").print(), "a");
}

#[test]
fn dictionaries_keep_one_entry_per_key() {
    assert_eq!(parse("{a 1 b 2}").print(), "{a: 1, b: 2}");
    assert_eq!(parse("{\"a\" 1 \"a\" 2 \"c\" 3}").print(), "{\"a\": 2, \"c\": 3}");
    assert_eq!(parse("{[1 2] x}").print(), "{[1 2]: x}");
    assert_eq!(parse("{}").print(), "{}");
}

#[test]
fn printed_data_read_back_as_themselves() {
    for source in [
        "nil",
        "true",
        "false",
        "0",
        "-170141183460469231731687303715884105728",
        "12.5",
        "-0.0",
        "\"a \\\"b\\\" \\\\ \\n\"",
        "sym",
        "()",
        "[]",
        "(a [b (c \"d\" 1.5) nil] -2)",
        "(quote (unquote x))",
    ] {
        let value = parse(source);
        let printed = value.print();
        assert_eq!(printed, source);
        assert_eq!(parse(&printed), value);
    }
}

#[test]
fn integers_are_parsed_within_128_bits() {
    let chars = |s: &str| s.chars().collect::<Vec<char>>();
    assert_eq!(parse_integer(&chars("0")), Some(0));
    assert_eq!(parse_integer(&chars("-0")), Some(0));
    assert_eq!(parse_integer(&chars("+12")), Some(12));
    assert_eq!(parse_integer(&chars("170141183460469231731687303715884105727")), Some(i128::MAX));
    assert_eq!(parse_integer(&chars("+170141183460469231731687303715884105728")), None);
    assert_eq!(parse_integer(&chars("-170141183460469231731687303715884105728")), Some(i128::MIN));
    assert_eq!(parse_integer(&chars("-170141183460469231731687303715884105729")), None);
    assert_eq!(parse_integer(&chars("99999999999999999999999999999999999999999")), None);
    assert_eq!(parse_integer(&chars("")), None);
    assert_eq!(parse_integer(&chars("-")), None);
    assert_eq!(parse_integer(&chars("1-")), None);
    assert_eq!(parse_integer(&chars("١٢")), None);
    for text in ["5", "-5", "+5", "0005", "12a", "--1", " 1"] {
        assert_eq!(parse_integer(&chars(text)), text.parse::<i128>().ok(), "{}", text);
    }
}

#[test]
fn texts_compare_by_their_characters() {
    assert!(same_text("", ""));
    assert!(same_text("def!", "def!"));
    assert!(!same_text("def!", "def"));
    assert!(!same_text("a", "b"));
    assert!(same_text("ü", "\u{fc}"));
}

#[test]
fn frames_resolve_names_outwards() {
    let mut interp = Interpreter::new();
    assert_eq!(interp.envs.len(), 1);
    interp.bind(0, "a".to_string(), DataType::Integer(1));
    interp.bind(0, "b".to_string(), DataType::Integer(2));
    let inner = interp.new_frame(0);
    assert_eq!(inner, 1);
    interp.bind(inner, "a".to_string(), DataType::Integer(10));
    assert_eq!(interp.lookup(inner, "a"), Some(DataType::Integer(10)));
    assert_eq!(interp.lookup(inner, "b"), Some(DataType::Integer(2)));
    assert_eq!(interp.lookup(0, "a"), Some(DataType::Integer(1)));
    assert_eq!(interp.lookup(inner, "c"), None);
    assert_eq!(interp.lookup(7, "a"), None);
    interp.bind(0, "a".to_string(), DataType::Integer(5));
    assert_eq!(interp.lookup(0, "a"), Some(DataType::Integer(5)));
    assert_eq!(interp.envs[0].data.len(), 2);
    let mut frame = Environment::new(Some(0));
    frame.set("x".to_string(), DataType::Nil());
    frame.set("x".to_string(), DataType::Bool(true));
    assert_eq!(frame.get("x"), Some(DataType::Bool(true)));
    assert_eq!(frame.get("y"), None);
    assert_eq!(frame.outer, Some(0));
}

#[test]
fn the_core_library_is_registered_by_stable_id() {
    let all = create_default_repl_env();
    assert_eq!(all.envs.len(), 1);
    assert_eq!(all.envs[0].data.len(), 54);
    assert_eq!(all.lookup(0, "+"), Some(DataType::NativeFunction(0)));
    assert_eq!(all.lookup(0, "time-ms"), Some(DataType::NativeFunction(51)));
    assert_eq!(all.lookup(0, "%"), Some(DataType::NativeFunction(52)));
    assert_eq!(all.lookup(0, "input"), Some(DataType::NativeFunction(53)));
    let first = create_repl_env();
    assert_eq!(first.envs[0].data.len(), 34);
    assert_eq!(first.lookup(0, "symbol?"), Some(DataType::NativeFunction(33)));
    assert_eq!(first.lookup(0, "vector?"), None);
    for code in 0..54 {
        let f = CoreFunction::with_code(code).unwrap();
        assert_eq!(f.code, code);
        assert_eq!(all.lookup(0, f.id), Some(DataType::NativeFunction(code)));
    }
    assert!(CoreFunction::with_code(54).is_none());
    assert!(CoreFunction::with_code(-1).is_none());
}
