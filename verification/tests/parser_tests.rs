use calculator_rs::ast::{ASTParser, Expression};
use calculator_rs::scanner::tokenize;
use calculator_rs::token::Token;

fn parse(source: &str) -> Result<Box<Expression>, String> {
    let tokens = tokenize(source.to_string())?;
    ASTParser::create_ast(tokens)
}

fn literal(lexeme: &str) -> Box<Expression> {
    Box::new(Expression::Literal(lexeme.to_string()))
}

#[test]
fn left_associative_tree() {
    let tree = parse("1 - 2 - 3").unwrap();
    let expected = Box::new(Expression::Binary(
        Token::Minus,
        Box::new(Expression::Binary(Token::Minus, literal("1"), literal("2"))),
        literal("3"),
    ));
    assert_eq!(tree, expected);
}

#[test]
fn grouping_and_precedence_tree() {
    let tree = parse("(1 + 2) * 3").unwrap();
    let expected = Box::new(Expression::Binary(
        Token::Star,
        Box::new(Expression::Grouping(Box::new(Expression::Binary(
            Token::Plus,
            literal("1"),
            literal("2"),
        )))),
        literal("3"),
    ));
    assert_eq!(tree, expected);
}

#[test]
fn unary_binds_tighter_than_binary() {
    let tree = parse("-2 + 3").unwrap();
    let expected = Box::new(Expression::Binary(
        Token::Plus,
        Box::new(Expression::Unary(Token::Minus, literal("2"))),
        literal("3"),
    ));
    assert_eq!(tree, expected);
}

#[test]
fn assignment_tree() {
    let tree = parse("let x = 3.5").unwrap();
    let expected = Box::new(Expression::Assignment("x".to_string(), literal("3.5")));
    assert_eq!(tree, expected);
}

#[test]
fn variadic_arity_floor_error() {
    let res = parse("max(1.0)");
    assert_eq!(res.unwrap_err(), "max requires 2 or more arguments");
}

#[test]
fn empty_variadic_call_error() {
    let res = parse("min()");
    assert_eq!(res.unwrap_err(), "min requires 2 or more arguments");
}

#[test]
fn trailing_comma_rejected() {
    let res = parse("max(1.0,2.0,)");
    assert_eq!(res.unwrap_err(), "Trailing commas are not allowed");
}

#[test]
fn disjoint_input_reported() {
    let res = parse("3 4");
    assert_eq!(res.unwrap_err(), "Error: \"4\" is disjointed from formula");
}

#[test]
fn disjoint_input_renders_all_leftovers() {
    let res = parse("1 + 2 3 * 4");
    assert_eq!(
        res.unwrap_err(),
        "Error: \"3*4\" is disjointed from formula"
    );
}

#[test]
fn missing_open_paren_error() {
    let res = parse("sqrt 4");
    assert_eq!(
        res.unwrap_err(),
        "Missing opening parenthesis '(' after sqrt"
    );
}

#[test]
fn ends_with_open_paren_error() {
    let res = parse("sqrt(");
    assert_eq!(res.unwrap_err(), "Cannot end with opening parenthesis");
}

#[test]
fn missing_close_paren_error() {
    let res = parse("sqrt(4");
    assert_eq!(
        res.unwrap_err(),
        "Missing closing parenthesis ')' after sqrt"
    );
}

#[test]
fn double_arity_needs_comma() {
    let res = parse("pow(2 3)");
    assert_eq!(res.unwrap_err(), "pow requires at least two operands");
}

#[test]
fn missing_matching_paren_error() {
    let res = parse("(1 + 2");
    assert_eq!(res.unwrap_err(), "Missing matching parenthesis ')'");
}

#[test]
fn let_without_identifier_error() {
    let res = parse("let 5 = 3");
    assert_eq!(res.unwrap_err(), "Expected identifier after let");
}

#[test]
fn let_without_equal_error() {
    let res = parse("let x 5");
    assert_eq!(res.unwrap_err(), "Expected '=' after the identifier of let");
}

#[test]
fn variadic_needs_comma_or_close() {
    let res = parse("max(1,2");
    assert_eq!(
        res.unwrap_err(),
        "Either missing comma or close parenthesis"
    );
}

#[test]
fn unparseable_primary_error() {
    let res = parse("+");
    assert_eq!(res.unwrap_err(), "Unable to create syntax tree");
}

#[test]
fn render_canonical_forms() {
    assert_eq!(parse("1 - 2 - 3").unwrap().render(), "1 - 2 - 3");
    assert_eq!(parse("(1+2)*3").unwrap().render(), "(1 + 2) * 3");
    assert_eq!(parse("max( 1.0 , 2.0 )").unwrap().render(), "max(1.0,2.0)");
    assert_eq!(parse("pow(2,10)").unwrap().render(), "pow(2,10)");
    assert_eq!(parse("let x = 3.5").unwrap().render(), "let x = 3.5");
    assert_eq!(parse("-sqrt(4)").unwrap().render(), "-sqrt(4)");
}

#[test]
fn round_trip_stability() {
    let sources = [
        "1 + 1",
        "1 - 2 - 3",
        "max(1.0,2.0)",
        "4 * (8 + 2) * min(max(3.14,2.14), 5*24)",
        "-2 * (1 + sqrt(4))",
        "pow(2,10) % 7",
        "sin(cos(tan(log(2.0,10))))",
        "let x = 3.5",
        "x / y",
    ];
    for source in sources.iter() {
        let first = parse(source).unwrap();
        let rendered = first.render();
        let second = parse(&rendered).unwrap();
        assert_eq!(first, second, "round trip changed the tree for {}", source);
        assert_eq!(second.render(), rendered);
    }
}
