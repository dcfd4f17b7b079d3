use zeal::interpreter::{Environment, Interpreter};
use zeal::parser::{Expr, Parser, Value};
use zeal::printer::value_text;
use zeal::scanner::{LexError, Scanner};
use zeal::semantics::RuntimeError;
use zeal::grammar::ParseError;
use zeal::{Compiler, Error};

fn run(source: &str) -> Result<Vec<Value>, Error> {
    Compiler::new().run_line(source)
}

fn last(source: &str) -> Value {
    run(source).unwrap().pop().unwrap()
}

fn fails(source: &str) -> RuntimeError {
    match run(source) {
        Err(Error::Runtime(e)) => e,
        other => panic!("{:?}", other),
    }
}

fn printed(source: &str) -> String {
    let mut compiler = Compiler::new();
    compiler.run_line(source).unwrap();
    compiler.output().clone()
}

#[test]
fn declares_and_prints() {
    let mut compiler = Compiler::new();
    let values = compiler.run_line("i := 1; print i;").unwrap();
    assert_eq!(compiler.output().as_str(), "[Int(1)]\n");
    assert_eq!(values.last(), Some(&Value::Int(1)));
    assert_eq!(values, [Value::Int(1), Value::Int(1)]);
}

#[test]
fn fizzbuzz_by_juxtaposition() {
    let out = printed(
        "i := 1\nwhile i <= 15:\n  if i % 3 == 0 && i % 5 == 0: print 'fizzbuzz' else if i % 3 == 0: print 'fizz' else if i % 5 == 0: print 'buzz' else: print i\n  i = i + 1\n",
    );
    assert_eq!(
        out,
        "[Int(1)]\n[Int(2)]\n[String(\"fizz\")]\n[Int(4)]\n[String(\"buzz\")]\n[String(\"fizz\")]\n[Int(7)]\n[Int(8)]\n[String(\"fizz\")]\n[String(\"buzz\")]\n[Int(11)]\n[String(\"fizz\")]\n[Int(13)]\n[Int(14)]\n[String(\"fizzbuzz\")]\n"
    );
}

#[test]
fn is_even_piped_into_print() {
    assert_eq!(printed("is_even := fn x -> x % 2 == 0\nis_even! 2 |> print"), "[Bool(true)]\n");
    assert_eq!(printed("is_even := fn x -> x % 2 == 0\nis_even! 1 |> print"), "[Bool(false)]\n");
}

#[test]
fn nested_blocks_shadow() {
    let out = printed(
        "a := 0\nif true:\n  print a\n  a = a + 1\n  print a\n  a := 10\n  print a\n  if true:\n    print a\n    a = a + 1\n    print a\n    a := 100\n    print a\n  print a\nprint a\n",
    );
    assert_eq!(
        out,
        "[Int(0)]\n[Int(1)]\n[Int(10)]\n[Int(10)]\n[Int(11)]\n[Int(100)]\n[Int(11)]\n[Int(1)]\n"
    );
}

#[test]
fn arithmetic_in_range() {
    assert_eq!(last("1 + 2"), Value::Int(3));
    assert_eq!(last("1 - 2"), Value::Int(-1));
    assert_eq!(last("6 * 7"), Value::Int(42));
    assert_eq!(last("7 // 2"), Value::Int(3));
    assert_eq!(last("7 % 2"), Value::Int(1));
    assert_eq!(last("2147483646 + 1"), Value::Int(2147483647));
    assert_eq!(last("0 - 2147483647 - 1"), Value::Int(-2147483648));
    assert_eq!(last("46341 * 46340"), Value::Int(2147441940));
}

#[test]
fn division_rounds_towards_zero() {
    assert_eq!(last("-7 // 2"), Value::Int(-3));
    assert_eq!(last("7 // -2"), Value::Int(-3));
    assert_eq!(last("-7 // -2"), Value::Int(3));
    assert_eq!(last("-1 // 2"), Value::Int(0));
    assert_eq!(last("0 // -5"), Value::Int(0));
}

#[test]
fn remainder_has_the_sign_of_the_dividend() {
    assert_eq!(last("-7 % 2"), Value::Int(-1));
    assert_eq!(last("7 % -2"), Value::Int(1));
    assert_eq!(last("-7 % -2"), Value::Int(-1));
    assert_eq!(last("-6 % 3"), Value::Int(0));
    assert_eq!(last("0 % 3"), Value::Int(0));
    assert_eq!(last("(0 - 2147483647 - 1) % -1"), Value::Int(0));
    assert_eq!(last("2147483647 % -1"), Value::Int(0));
}

#[test]
fn quotient_and_remainder_give_back_the_dividend() {
    for a in [-9, -8, -1, 0, 1, 8, 9, 2147483647] {
        for b in [-4, -3, -1, 1, 3, 4, 2147483647] {
            let source = format!("({a} // {b}) * {b} + ({a} % {b}) == {a}", a = a, b = b);
            assert_eq!(last(&source), Value::Bool(true));
        }
    }
}

#[test]
fn overflow_is_an_error() {
    assert_eq!(fails("2147483647 + 1"), RuntimeError::Overflow);
    assert_eq!(fails("(0 - 2147483647 - 1) - 1"), RuntimeError::Overflow);
    assert_eq!(fails("65536 * 32768"), RuntimeError::Overflow);
    assert_eq!(fails("46341 * 46341"), RuntimeError::Overflow);
    assert_eq!(fails("-(0 - 2147483647 - 1)"), RuntimeError::Overflow);
    assert_eq!(fails("(0 - 2147483647 - 1) // -1"), RuntimeError::Overflow);
    assert_eq!(fails("0 - 2147483647 - 2"), RuntimeError::Overflow);
}

#[test]
fn division_by_zero_is_an_error() {
    assert_eq!(fails("1 // 0"), RuntimeError::DivisionByZero);
    assert_eq!(fails("1 % 0"), RuntimeError::DivisionByZero);
    assert_eq!(fails("0 // 0"), RuntimeError::DivisionByZero);
}

#[test]
fn comparisons() {
    assert_eq!(last("1 < 2"), Value::Bool(true));
    assert_eq!(last("2 < 2"), Value::Bool(false));
    assert_eq!(last("2 <= 2"), Value::Bool(true));
    assert_eq!(last("3 > 2"), Value::Bool(true));
    assert_eq!(last("2 >= 3"), Value::Bool(false));
    assert_eq!(last("-1 > -2"), Value::Bool(true));
}

#[test]
fn equality_of_like_values() {
    assert_eq!(last("1 == 1"), Value::Bool(true));
    assert_eq!(last("1 != 1"), Value::Bool(false));
    assert_eq!(last("true == false"), Value::Bool(false));
    assert_eq!(last("true != false"), Value::Bool(true));
    assert_eq!(last("'a' == 'a'"), Value::Bool(true));
    assert_eq!(last("'a' == \"a\""), Value::Bool(true));
    assert_eq!(last("'a' != 'b'"), Value::Bool(true));
    assert_eq!(last("'a' == 'ab'"), Value::Bool(false));
}

#[test]
fn equality_across_types_is_an_error() {
    assert_eq!(fails("1 == true"), RuntimeError::TypeMismatch);
    assert_eq!(fails("'1' == 1"), RuntimeError::TypeMismatch);
    assert_eq!(fails("true != 'true'"), RuntimeError::TypeMismatch);
    assert_eq!(fails("(fn -> 1) == (fn -> 1)"), RuntimeError::TypeMismatch);
}

#[test]
fn logic_evaluates_both_sides() {
    assert_eq!(last("true && false"), Value::Bool(false));
    assert_eq!(last("true || false"), Value::Bool(true));
    assert_eq!(last("false || false"), Value::Bool(false));
    assert_eq!(printed("false && (print! 1) == 1"), "[Int(1)]\n");
    assert_eq!(fails("true || 1"), RuntimeError::TypeMismatch);
    assert_eq!(fails("true || missing"), RuntimeError::UndefinedVariable);
}

#[test]
fn operands_are_evaluated_from_the_left() {
    assert_eq!(printed("(print! 1) + (print! 2)"), "[Int(1)]\n[Int(2)]\n");
    assert_eq!(printed("f := fn a b -> a\nf! (print 1) (print 2)"), "[Int(1)]\n[Int(2)]\n");
}

#[test]
fn unary_operators() {
    assert_eq!(last("-5"), Value::Int(-5));
    assert_eq!(last("- -5"), Value::Int(5));
    assert_eq!(last("!true"), Value::Bool(false));
    assert_eq!(last("! !true"), Value::Bool(true));
    assert_eq!(fails("-true"), RuntimeError::TypeMismatch);
    assert_eq!(fails("!1"), RuntimeError::TypeMismatch);
    assert_eq!(fails("-'a'"), RuntimeError::TypeMismatch);
}

#[test]
fn operators_on_the_wrong_types() {
    assert_eq!(fails("1 + true"), RuntimeError::TypeMismatch);
    assert_eq!(fails("'a' + 'b'"), RuntimeError::TypeMismatch);
    assert_eq!(fails("true < false"), RuntimeError::TypeMismatch);
    assert_eq!(fails("1 && 2"), RuntimeError::TypeMismatch);
    assert_eq!(fails("4 / 2"), RuntimeError::TypeMismatch);
}

#[test]
fn undefined_variable() {
    assert_eq!(fails("x"), RuntimeError::UndefinedVariable);
    assert_eq!(fails("if true:\n  y := 1\ny"), RuntimeError::UndefinedVariable);
    assert_eq!(fails("+"), RuntimeError::UndefinedVariable);
}

#[test]
fn assignment_to_an_undefined_variable() {
    assert_eq!(fails("x = 1"), RuntimeError::AssignUndefined);
    assert_eq!(fails("if true:\n  y := 1\ny = 2"), RuntimeError::AssignUndefined);
}

#[test]
fn calling_what_is_no_function() {
    assert_eq!(fails("x := 1; x! 2"), RuntimeError::NotAFunction);
    assert_eq!(fails("'f'!"), RuntimeError::NotAFunction);
    assert_eq!(fails("f := true\n1 |> f"), RuntimeError::NotAFunction);
}

#[test]
fn if_without_else() {
    assert_eq!(last("if true: 5"), Value::Int(5));
    assert_eq!(fails("if false: 5"), RuntimeError::MissingElse);
    assert_eq!(last("if false: 5 else 6"), Value::Int(6));
    assert_eq!(last("if 1 < 2: 'yes' else 'no'"), Value::String(String::from("yes")));
}

#[test]
fn if_evaluates_one_branch() {
    assert_eq!(printed("if true: print 1 else print 2"), "[Int(1)]\n");
    assert_eq!(printed("if false: print 1 else print 2"), "[Int(2)]\n");
}

#[test]
fn conditions_must_be_boolean() {
    assert_eq!(fails("if 1: 2 else 3"), RuntimeError::TypeMismatch);
    assert_eq!(fails("while 'a': 1"), RuntimeError::TypeMismatch);
    assert_eq!(fails("i := 0\nwhile if i == 0: true else 7:\n  i = 1\n"), RuntimeError::TypeMismatch);
}

#[test]
fn while_checks_the_condition_first() {
    assert_eq!(printed("while false: print 1"), "");
    assert_eq!(last("while false: 1"), Value::Bool(false));
    assert_eq!(printed("i := 0\nwhile i < 3:\n  print i\n  i = i + 1\n"), "[Int(0)]\n[Int(1)]\n[Int(2)]\n");
}

#[test]
fn blocks_and_loops_yield_false() {
    assert_eq!(last("if true:\n  5\n"), Value::Bool(false));
    assert_eq!(last("i := 0\nwhile i < 1:\n  i = i + 1\n"), Value::Bool(false));
}

#[test]
fn declaration_and_assignment_yield_the_value() {
    assert_eq!(last("x := 4"), Value::Int(4));
    assert_eq!(last("x := 4; x = x + 1"), Value::Int(5));
}

#[test]
fn redeclaring_replaces_in_the_same_scope() {
    assert_eq!(last("x := 1; x := 'a'; x"), Value::String(String::from("a")));
}

#[test]
fn empty_function_body() {
    let tokens = Scanner::new().scan(String::from("f := fn ->\ng\nf!")).unwrap();
    let stmts = Parser::new().parse(tokens).unwrap();
    let mut interpreter = Interpreter::new();
    let mut seen = Vec::new();
    for stmt in stmts.iter() {
        seen.push(interpreter.interpret_expr(stmt).map(|_| ()));
    }
    assert_eq!(seen[0], Ok(()));
    assert_eq!(seen[1], Err(RuntimeError::UndefinedVariable));
    assert_eq!(seen[2], Err(RuntimeError::EmptyFunctionBody));
}

#[test]
fn arity_must_match() {
    assert_eq!(fails("f := fn a b -> a\nf! 1"), RuntimeError::ArityMismatch);
    assert_eq!(fails("f := fn a -> a\nf! 1 2"), RuntimeError::ArityMismatch);
    assert_eq!(fails("f := fn -> 1\n2 |> f"), RuntimeError::ArityMismatch);
}

#[test]
fn parameters_must_be_names() {
    assert_eq!(fails("f := fn 1 -> 2\nf! 3"), RuntimeError::InvalidParameter);
    assert_eq!(fails("f := fn a (b) -> 2\nf! 3 4"), RuntimeError::InvalidParameter);
}

#[test]
fn field_access_is_not_evaluated() {
    assert_eq!(fails("a := 1; a.b"), RuntimeError::Unsupported);
    assert_eq!(fails("print"), RuntimeError::Unsupported);
}

#[test]
fn trees_made_by_hand() {
    let mut interpreter = Interpreter::new();
    let one = || Expr::Literal(Value::Int(1));
    let name = |s: &str| Expr::Literal(Value::Identifier(String::from(s)));
    assert_eq!(
        interpreter.interpret_expr(&Expr::Declaration(Box::new(one()), Some(Box::new(one())))),
        Err(RuntimeError::InvalidTarget)
    );
    assert_eq!(
        interpreter.interpret_expr(&Expr::Assignment(Box::new(one()), Box::new(one()))),
        Err(RuntimeError::InvalidTarget)
    );
    assert_eq!(
        interpreter.interpret_expr(&Expr::Declaration(Box::new(name("x")), None)),
        Err(RuntimeError::MissingInitializer)
    );
    let dangling = Expr::Literal(Value::Lambda(Vec::new(), vec![one()], 17));
    assert_eq!(
        interpreter.interpret_expr(&Expr::FunctionCall(Box::new(dangling), Vec::new())),
        Err(RuntimeError::DanglingScope)
    );
    let tokens = Scanner::new().scan(String::from("if")).unwrap();
    let builtin = Expr::BuiltinFunction(tokens[0].clone());
    assert_eq!(
        interpreter.interpret_expr(&Expr::FunctionCall(Box::new(builtin), Vec::new())),
        Err(RuntimeError::UnknownBuiltin)
    );
    assert_eq!(interpreter.interpret(vec![one(), one()]), Ok(vec![Value::Int(1), Value::Int(1)]));
    assert_eq!(interpreter.interpret(Vec::new()), Ok(Vec::new()));
}

#[test]
fn loops_stop_at_the_limit() {
    let mut compiler = Compiler::with_limits(100, 5);
    assert_eq!(compiler.run_line("while true: print 1"), Err(Error::Runtime(RuntimeError::LoopLimit)));
    assert_eq!(compiler.output().as_str(), "[Int(1)]\n[Int(1)]\n[Int(1)]\n[Int(1)]\n[Int(1)]\n");
    let mut exact = Compiler::with_limits(100, 5);
    assert_eq!(exact.run_line("i := 0\nwhile i < 5:\n  i = i + 1\ni"), Ok(vec![Value::Int(0), Value::Bool(false), Value::Int(5)]));
    let mut short = Compiler::with_limits(100, 4);
    assert_eq!(short.run_line("i := 0\nwhile i < 5:\n  i = i + 1\ni"), Err(Error::Runtime(RuntimeError::LoopLimit)));
}

#[test]
fn nesting_stops_at_the_limit() {
    assert_eq!(Compiler::with_limits(0, 5).run_line("1"), Err(Error::Runtime(RuntimeError::TooDeep)));
    assert_eq!(Compiler::with_limits(1, 5).run_line("1"), Ok(vec![Value::Int(1)]));
    assert_eq!(Compiler::with_limits(1, 5).run_line("1 + 1"), Err(Error::Runtime(RuntimeError::TooDeep)));
    assert_eq!(Compiler::with_limits(2, 5).run_line("1 + 1"), Ok(vec![Value::Int(2)]));
    assert_eq!(fails("f := fn n -> f! n\nf! 1"), RuntimeError::TooDeep);
}

#[test]
fn recursion_within_the_limit() {
    assert_eq!(
        last("fact := fn n -> if n <= 1: 1 else n * (fact! (n - 1))\nfact! 10"),
        Value::Int(3628800)
    );
    assert_eq!(
        last("fib := fn n -> if n < 2: n else (fib! (n - 1)) + (fib! (n - 2))\nfib! 15"),
        Value::Int(610)
    );
}

#[test]
fn a_closure_sees_later_changes_of_its_scope() {
    assert_eq!(printed("x := 0\nshow := fn -> print x\nx = 100\nshow!\n"), "[Int(100)]\n");
}

#[test]
fn two_calls_of_a_closure_share_its_scope() {
    let out = printed("n := 0\nnext := fn ->\n  n = n + 1\n  n\nprint (next!)\nprint (next!)\nprint n\n");
    assert_eq!(out, "[Int(1)]\n[Int(2)]\n[Int(2)]\n");
}

#[test]
fn a_closure_outlives_the_block_it_was_made_in() {
    let out = printed(
        "make := fn ->\n  count := 0\n  fn ->\n    count = count + 1\n    count\na := make!\nb := make!\nprint (a!)\nprint (a!)\nprint (b!)\nprint (a!)\n",
    );
    assert_eq!(out, "[Int(1)]\n[Int(2)]\n[Int(1)]\n[Int(3)]\n");
}

#[test]
fn scoping_is_lexical() {
    let out = printed("x := 1\nshow := fn -> x\ncaller := fn ->\n  x := 2\n  show!\nprint (caller!)\n");
    assert_eq!(out, "[Int(1)]\n");
}

#[test]
fn parameters_shadow_and_do_not_leak() {
    assert_eq!(last("x := 1\nf := fn x -> x + 10\nf! 5"), Value::Int(15));
    assert_eq!(last("x := 1\nf := fn x ->\n  x = x + 10\n  x\nf! 5\nx"), Value::Int(1));
    assert_eq!(fails("f := fn p -> p\nf! 1\np"), RuntimeError::UndefinedVariable);
}

#[test]
fn arguments_are_evaluated_in_the_callers_scope() {
    assert_eq!(last("f := fn a -> a\nif true:\n  y := 7\n  f! y |> print\n"), Value::Bool(false));
    assert_eq!(printed("f := fn a -> a\nif true:\n  y := 7\n  f! y |> print\n"), "[Int(7)]\n");
}

#[test]
fn declaration_in_a_block_leaves_the_outer_binding() {
    assert_eq!(last("a := 1\nif true:\n  a := 2\na"), Value::Int(1));
}

#[test]
fn assignment_in_a_block_changes_the_nearest_binding() {
    assert_eq!(last("a := 1\nif true:\n  a = 2\na"), Value::Int(2));
    assert_eq!(last("a := 1\nif true:\n  a := 5\n  if true:\n    a = 6\na"), Value::Int(1));
}

#[test]
fn pipeline_is_the_call() {
    assert_eq!(last("f := fn a -> a * 2\n21 |> f"), last("f := fn a -> a * 2\nf! 21"));
    assert_eq!(last("f := fn a b -> a - b\n5 |> f 3"), last("f := fn a b -> a - b\nf! 5 3"));
    assert_eq!(printed("1 + 2 |> print"), printed("print (1 + 2)"));
    assert_eq!(last("f := fn a b -> a - b\n5 |> f 3"), Value::Int(2));
}

#[test]
fn method_call_is_the_call() {
    assert_eq!(last("sub := fn a b -> a - b\nx := 9\nx.sub! 4"), Value::Int(5));
}

#[test]
fn print_writes_its_arguments_as_a_list() {
    assert_eq!(printed("print!"), "[]\n");
    assert_eq!(printed("print 1 true 'a'"), "[Int(1), Bool(true), String(\"a\")]\n");
    assert_eq!(fails("print -1"), RuntimeError::Unsupported);
    assert_eq!(printed("print (0 - 12) (fn a b -> 1)"), "[Int(-12), Lambda(2)]\n");
    assert_eq!(last("print 1 2"), Value::Int(2));
    assert_eq!(last("print!"), Value::Bool(false));
}

#[test]
fn values_as_text() {
    assert_eq!(value_text(&Value::Int(0)), "Int(0)");
    assert_eq!(value_text(&Value::Int(7)), "Int(7)");
    assert_eq!(value_text(&Value::Int(10)), "Int(10)");
    assert_eq!(value_text(&Value::Int(-2147483648)), "Int(-2147483648)");
    assert_eq!(value_text(&Value::Int(2147483647)), "Int(2147483647)");
    assert_eq!(value_text(&Value::Int(1234567890)), "Int(1234567890)");
    assert_eq!(value_text(&Value::Bool(true)), "Bool(true)");
    assert_eq!(value_text(&Value::Bool(false)), "Bool(false)");
    assert_eq!(value_text(&Value::String(String::new())), "String(\"\")");
    assert_eq!(
        value_text(&Value::String(String::from("a\"b\\c\nd\re\tf'g\u{e9}"))),
        "String(\"a\\\"b\\\\c\\nd\\re\\tf'g\u{e9}\")"
    );
    assert_eq!(value_text(&Value::Identifier(String::from("x"))), "Identifier(\"x\")");
    assert_eq!(value_text(&Value::Lambda(Vec::new(), Vec::new(), 0)), "Lambda(0)");
}

#[test]
fn values_compare_by_content() {
    assert_eq!(Value::Int(1), Value::Int(1));
    assert_ne!(Value::Int(1), Value::Int(2));
    assert_ne!(Value::Int(1), Value::Bool(true));
    assert_eq!(Value::String(String::from("a")), Value::String(String::from("a")));
    assert_ne!(Value::Identifier(String::from("a")), Value::Identifier(String::from("a")));
    assert_ne!(Value::Lambda(Vec::new(), Vec::new(), 0), Value::Lambda(Vec::new(), Vec::new(), 0));
    assert_eq!(Value::Int(3).clone(), Value::Int(3));
}

#[test]
fn environment_defines_reads_and_assigns() {
    let mut env = Environment::new();
    assert_eq!(env.get("x"), None);
    assert!(!env.set("x", Value::Int(1)));
    assert_eq!(env.get("x"), None);
    env.define("x", Value::Int(1));
    assert_eq!(env.get("x"), Some(Value::Int(1)));
    assert!(env.set("x", Value::Int(2)));
    assert_eq!(env.get("x"), Some(Value::Int(2)));
    env.define("x", Value::Bool(true));
    assert_eq!(env.get("x"), Some(Value::Bool(true)));
    env.define("y", Value::Int(5));
    assert_eq!(env.get("x"), Some(Value::Bool(true)));
    assert_eq!(env.get("y"), Some(Value::Int(5)));
    assert_eq!(env.get(""), None);
    assert_eq!(Environment::default().get("x"), None);
}

#[test]
fn errors_name_their_stage() {
    assert_eq!(run("'abc"), Err(Error::Lex(LexError::UnterminatedString)));
    assert_eq!(run("99999999999"), Err(Error::Lex(LexError::InvalidNumber)));
    assert_eq!(run("(1"), Err(Error::Parse(ParseError::UnclosedParen)));
    assert_eq!(run("x"), Err(Error::Runtime(RuntimeError::UndefinedVariable)));
}

#[test]
fn nothing_runs_if_a_later_line_does_not_parse() {
    let mut compiler = Compiler::new();
    assert_eq!(compiler.run_line("print 1\n(2"), Err(Error::Parse(ParseError::UnclosedParen)));
    assert_eq!(compiler.output().as_str(), "");
}

#[test]
fn the_world_stays_between_lines() {
    let mut compiler = Compiler::new();
    assert_eq!(compiler.run_line("x := 41"), Ok(vec![Value::Int(41)]));
    assert_eq!(compiler.run_line("x = x + 1"), Ok(vec![Value::Int(42)]));
    assert_eq!(compiler.run_line("print x"), Ok(vec![Value::Int(42)]));
    assert_eq!(compiler.output().as_str(), "[Int(42)]\n");
}

#[test]
fn after_an_error_evaluation_is_back_in_the_outermost_scope() {
    let mut compiler = Compiler::new();
    assert_eq!(compiler.run_line("x := 1"), Ok(vec![Value::Int(1)]));
    assert_eq!(
        compiler.run_line("if true:\n  x := 2\n  missing\n"),
        Err(Error::Runtime(RuntimeError::UndefinedVariable))
    );
    assert_eq!(compiler.run_line("x"), Ok(vec![Value::Int(1)]));
    assert_eq!(Compiler::default().run_line("2"), Ok(vec![Value::Int(2)]));
}

#[test]
fn effects_before_an_error_stay() {
    let mut compiler = Compiler::new();
    assert_eq!(
        compiler.run_line("x := 1\nprint x\nx = 2\n1 // 0\nx = 3"),
        Err(Error::Runtime(RuntimeError::DivisionByZero))
    );
    assert_eq!(compiler.output().as_str(), "[Int(1)]\n");
    assert_eq!(compiler.run_line("x"), Ok(vec![Value::Int(2)]));
}

#[test]
fn interpreter_keeps_what_print_writes() {
    let tokens = Scanner::new().scan(String::from("print 'a'\nprint 2")).unwrap();
    let stmts = Parser::new().parse(tokens).unwrap();
    let mut interpreter = Interpreter::default();
    assert_eq!(interpreter.output().as_str(), "");
    interpreter.interpret(stmts).unwrap();
    assert_eq!(interpreter.output().as_str(), "[String(\"a\")]\n[Int(2)]\n");
}

#[test]
fn a_new_compiler_stops_at_the_default_limits() {
    let nested = |groups: usize| {
        let mut e = Expr::Literal(Value::Int(7));
        for _ in 0..groups {
            e = Expr::Group(Box::new(e));
        }
        e
    };
    assert_eq!(zeal::interpreter::DEFAULT_DEPTH, 400);
    assert_eq!(zeal::interpreter::DEFAULT_TURNS, 1000000);
    assert_eq!(Compiler::new().evaluate(vec![nested(399)]), Ok(vec![Value::Int(7)]));
    assert_eq!(Compiler::new().evaluate(vec![nested(400)]), Err(RuntimeError::TooDeep));
    assert_eq!(Compiler::with_limits(401, 1).evaluate(vec![nested(400)]), Ok(vec![Value::Int(7)]));
    assert_eq!(
        Compiler::new().run_line("i := 0\nwhile i < 2000:\n  i = i + 1\ni").map(|mut v| v.pop()),
        Ok(Some(Value::Int(2000)))
    );
}
