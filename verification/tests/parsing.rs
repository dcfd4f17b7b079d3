use zeal::grammar::ParseError;
use zeal::parser::{Expr, Parser, Value};
use zeal::scanner::{Scanner, TokenType};

fn parse(source: &str) -> Result<Vec<Expr>, ParseError> {
    let tokens = Scanner::new().scan(String::from(source)).unwrap();
    Parser::new().parse(tokens)
}

/// The tree of a text, written with round brackets.
fn shape(e: &Expr) -> String {
    match e {
        Expr::Binary(l, op, r) => format!("({} {} {})", shape(l), sign(&op.token_type), shape(r)),
        Expr::Unary(op, e) => format!("({} {})", sign(&op.token_type), shape(e)),
        Expr::Literal(Value::Int(n)) => format!("{}", n),
        Expr::Literal(Value::Bool(b)) => format!("{}", b),
        Expr::Literal(Value::String(s)) => format!("{:?}", s),
        Expr::Literal(Value::Identifier(s)) => s.clone(),
        Expr::Literal(Value::Lambda(_, _, _)) => String::from("<lambda>"),
        Expr::Group(e) => format!("(group {})", shape(e)),
        Expr::FunctionCall(f, args) => format!("(call {}{})", shape(f), shapes(args)),
        Expr::Get(e, name) => format!("(get {} {})", shape(e), name),
        Expr::Declaration(t, Some(e)) => format!("(declare {} {})", shape(t), shape(e)),
        Expr::Declaration(t, None) => format!("(declare {})", shape(t)),
        Expr::Assignment(t, e) => format!("(assign {} {})", shape(t), shape(e)),
        Expr::Block(stmts) => format!("(block{})", shapes(stmts)),
        Expr::While(c, b) => format!("(while {} {})", shape(c), shape(b)),
        Expr::If(c, t, Some(e)) => format!("(if {} {} {})", shape(c), shape(t), shape(e)),
        Expr::If(c, t, None) => format!("(if {} {})", shape(c), shape(t)),
        Expr::BuiltinFunction(t) => sign(&t.token_type),
        Expr::Lambda(params, body) => format!("(fn [{}] [{}])", shapes(params).trim(), shapes(body).trim()),
    }
}

fn shapes(es: &Vec<Expr>) -> String {
    let mut out = String::new();
    for e in es {
        out.push(' ');
        out.push_str(&shape(e));
    }
    out
}

fn sign(t: &TokenType) -> String {
    String::from(match t {
        TokenType::Plus => "+",
        TokenType::Minus => "-",
        TokenType::Star => "*",
        TokenType::Slash => "/",
        TokenType::SlashSlash => "//",
        TokenType::Mod => "%",
        TokenType::EqualEqual => "==",
        TokenType::BangEqual => "!=",
        TokenType::Less => "<",
        TokenType::LessEqual => "<=",
        TokenType::Greater => ">",
        TokenType::GreaterEqual => ">=",
        TokenType::AndAnd => "&&",
        TokenType::OrOr => "||",
        TokenType::Bang => "!",
        TokenType::Print => "print",
        _ => "?",
    })
}

fn tree(source: &str) -> String {
    let stmts = parse(source).unwrap();
    shapes(&stmts).trim().to_string()
}

#[test]
fn empty_program_has_no_statements() {
    assert_eq!(parse("").unwrap().len(), 0);
    assert_eq!(parse("\n\n   \n").unwrap().len(), 0);
}

#[test]
fn parser_new_parses_no_tokens_to_nothing() {
    assert_eq!(Parser::new().parse(Vec::new()).unwrap().len(), 0);
    assert_eq!(Parser::default().parse(Vec::new()).unwrap().len(), 0);
}

#[test]
fn factor_binds_tighter_than_term() {
    assert_eq!(tree("1 + 2 * 3"), "(1 + (2 * 3))");
    assert_eq!(tree("1 * 2 + 3"), "((1 * 2) + 3)");
    assert_eq!(tree("8 // 2 % 3 / 1"), "(((8 // 2) % 3) / 1)");
}

#[test]
fn binary_operators_group_from_the_left() {
    assert_eq!(tree("1 - 2 - 3"), "((1 - 2) - 3)");
    assert_eq!(tree("a == b != c"), "((a == b) != c)");
    assert_eq!(tree("a < b <= c > d >= e"), "((((a < b) <= c) > d) >= e)");
}

#[test]
fn the_whole_ladder() {
    assert_eq!(
        tree("a || b && c == d < e + f * -g"),
        "(a || (b && (c == (d < (e + (f * (- g)))))))"
    );
}

#[test]
fn unary_operators_nest() {
    assert_eq!(tree("! !a"), "(! (! a))");
    assert_eq!(tree("!!a"), "(call !! a)");
    assert_eq!(tree("- - 1"), "(- (- 1))");
    assert_eq!(tree("-a * b"), "((- a) * b)");
}

#[test]
fn groups_are_kept() {
    assert_eq!(tree("(1 + 2) * 3"), "((group (1 + 2)) * 3)");
}

#[test]
fn literals() {
    assert_eq!(tree("true; false; 12; 'text'; name"), "true false 12 \"text\" name");
}

#[test]
fn plus_alone_is_a_name() {
    assert_eq!(tree("(+)"), "(group +)");
}

#[test]
fn statements_end_in_semicolon_line_end_or_end_of_file() {
    assert_eq!(tree("1; 2\n3"), "1 2 3");
    assert_eq!(tree("1;\n\n2;"), "1 2");
}

#[test]
fn declaration_and_assignment() {
    assert_eq!(tree("x := 1 + 2"), "(declare x (1 + 2))");
    assert_eq!(tree("x = y"), "(assign x y)");
    assert_eq!(tree("x = x + 1; y := x"), "(assign x (x + 1)) (declare y x)");
}

#[test]
fn assignment_takes_one_expression() {
    assert!(matches!(parse("x = y = 2"), Err(ParseError::MissingTerminator)));
}

#[test]
fn bang_call_takes_the_primaries_on_its_line() {
    assert_eq!(tree("f! 1 a 'b' (c + 1) true"), "(call f 1 a \"b\" (group (c + 1)) true)");
    assert_eq!(tree("f!"), "(call f)");
    assert_eq!(tree("f! 1 + 2"), "((call f 1) + 2)");
}

#[test]
fn juxtaposition_is_a_call() {
    assert_eq!(tree("f 1 a"), "(call f 1 a)");
    assert_eq!(tree("print i"), "(call print i)");
    assert_eq!(tree("f a + g b"), "((call f a) + (call g b))");
}

#[test]
fn bang_call_takes_a_block_of_argument_lines() {
    assert_eq!(tree("f!\n  1 + 2\n  g! 3 4\n  x || y\nh"), "(call f (1 + 2) (call g 3 4) (x || y)) h");
}

#[test]
fn a_call_after_a_block_of_arguments_is_not_fed_the_next_line() {
    assert_eq!(tree("f!\n  1\ng"), "(call f 1) g");
}

#[test]
fn method_call_puts_the_receiver_first() {
    assert_eq!(tree("a.f! b"), "(call f a b)");
    assert_eq!(tree("a.f b"), "(call f a b)");
    assert_eq!(tree("a.f!"), "(call f a)");
    assert_eq!(tree("a.b.f! c"), "(call f (get a b) c)");
    assert_eq!(tree("a.b"), "(get a b)");
}

#[test]
fn pipeline_puts_the_left_side_first() {
    assert_eq!(tree("x |> f"), "(call f x)");
    assert_eq!(tree("x |> f! a"), "(call f x a)");
    assert_eq!(tree("x |> f a"), "(call f x a)");
    assert_eq!(tree("x |> f |> g! 1"), "(call g (call f x) 1)");
    assert_eq!(tree("x |> print"), "(call print x)");
    assert_eq!(tree("x |> print!"), "(call print x)");
}

#[test]
fn pipeline_is_the_same_tree_as_the_call() {
    assert_eq!(tree("x |> f"), tree("f! x"));
    assert_eq!(tree("x |> f a"), tree("f! x a"));
    assert_eq!(tree("1 + 2 |> f a b"), tree("f! (1 + 2) a b").replace("(group (1 + 2))", "(1 + 2)"));
}

#[test]
fn operators_that_open_a_deeper_line_go_on() {
    assert_eq!(tree("a\n  || b\n  && c\n  |> f"), "(call f (a || (b && c)))");
}

#[test]
fn operators_that_open_a_line_not_deeper_do_not_go_on() {
    assert!(matches!(parse("a\n|| b"), Err(ParseError::UnexpectedToken)));
    assert!(matches!(parse("  a\n  && b"), Err(ParseError::UnexpectedToken)));
    assert!(matches!(parse("  a\n  |> f"), Err(ParseError::UnexpectedToken)));
}

#[test]
fn lambda_with_one_expression() {
    assert_eq!(tree("fn a b -> a + b"), "(fn [a b] [(a + b)])");
    assert_eq!(tree("fn -> 1"), "(fn [] [1])");
    assert_eq!(tree("f := fn x -> x"), "(declare f (fn [x] [x]))");
}

#[test]
fn lambda_with_a_block() {
    assert_eq!(tree("fn a ->\n  b := a\n  b + 1\nc"), "(fn [a] [(declare b a) (b + 1)]) c");
}

#[test]
fn a_lambda_in_a_group_can_be_called() {
    assert_eq!(tree("(fn x -> x)! 3"), "(call (group (fn [x] [x])) 3)");
}

#[test]
fn if_with_blocks_and_else_if() {
    assert_eq!(
        tree("if a:\n  1\nelse if b:\n  2\nelse:\n  3\n4"),
        "(if a (block 1) (if b (block 2) (block 3))) 4"
    );
}

#[test]
fn if_on_one_line() {
    assert_eq!(tree("if a: 1 else 2"), "(if a 1 2)");
    assert_eq!(tree("if a: 1 else: 2"), "(if a 1 2)");
    assert_eq!(tree("if a: 1"), "(if a 1)");
    assert_eq!(tree("x := if a: 1 else 2"), "(declare x (if a 1 2))");
}

#[test]
fn while_with_block_or_expression() {
    assert_eq!(tree("while a < 3:\n  a = a + 1\nb"), "(while (a < 3) (block (assign a (a + 1)))) b");
    assert_eq!(tree("while a: f! a"), "(while a (call f a))");
}

#[test]
fn empty_lines_inside_a_block() {
    assert_eq!(tree("if a:\n  1\n\n  2;\n\n3"), "(if a (block 1 2)) 3");
}

#[test]
fn block_that_ends_with_the_text() {
    assert_eq!(tree("if a:\n  1"), "(if a (block 1))");
}

#[test]
fn unexpected_token() {
    assert!(matches!(parse(")"), Err(ParseError::UnexpectedToken)));
    assert!(matches!(parse("1 +"), Err(ParseError::UnexpectedToken)));
    assert!(matches!(parse("else"), Err(ParseError::UnexpectedToken)));
    assert!(matches!(parse("fn a b"), Err(ParseError::UnexpectedToken)));
}

#[test]
fn expected_colon() {
    assert!(matches!(parse("if a 1"), Err(ParseError::ExpectedColon)));
    assert!(matches!(parse("if a\n  1"), Err(ParseError::ExpectedColon)));
    assert!(matches!(parse("while a + 1\n"), Err(ParseError::ExpectedColon)));
}

#[test]
fn invalid_target() {
    assert!(matches!(parse("1 := 2"), Err(ParseError::InvalidTarget)));
    assert!(matches!(parse("a + b = 2"), Err(ParseError::InvalidTarget)));
    assert!(matches!(parse("(a) = 2"), Err(ParseError::InvalidTarget)));
    assert!(matches!(parse("'a' := 2"), Err(ParseError::InvalidTarget)));
}

#[test]
fn unclosed_paren() {
    assert!(matches!(parse("(1 + 2"), Err(ParseError::UnclosedParen)));
    assert!(matches!(parse("(1 + 2;"), Err(ParseError::UnclosedParen)));
}

#[test]
fn malformed_declaration() {
    assert!(matches!(parse("a : 2"), Err(ParseError::MalformedDeclaration)));
    assert!(matches!(parse("a :: = 2"), Err(ParseError::MalformedDeclaration)));
}

#[test]
fn missing_terminator() {
    assert!(matches!(parse("1 )"), Err(ParseError::MissingTerminator)));
    assert!(matches!(parse("a := 1 else"), Err(ParseError::MissingTerminator)));
}

#[test]
fn expected_name() {
    assert!(matches!(parse("a.1"), Err(ParseError::ExpectedName)));
    assert!(matches!(parse("a."), Err(ParseError::ExpectedName)));
}

#[test]
fn expected_call() {
    assert!(matches!(parse("a |> 1"), Err(ParseError::ExpectedCall)));
    assert!(matches!(parse("a |> (f)"), Err(ParseError::ExpectedCall)));
    assert!(matches!(parse("a |> b + c"), Err(ParseError::ExpectedCall)));
}

#[test]
fn tokens_without_end_of_file_parse_alike() {
    let mut tokens = Scanner::new().scan(String::from("a := 1\nb")).unwrap();
    tokens.pop();
    let stmts = Parser::new().parse(tokens).unwrap();
    assert_eq!(shapes(&stmts).trim(), "(declare a 1) b");
}

#[test]
fn expressions_are_cloned_whole() {
    let stmts = parse("f := fn a ->\n  if a: g! a 'x' else -1\n").unwrap();
    let copy = stmts[0].clone();
    assert_eq!(format!("{:?}", copy), format!("{:?}", stmts[0]));
}
