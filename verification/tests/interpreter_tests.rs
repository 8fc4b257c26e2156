use calculator_rs::ast::{ASTParser, Expression};
use calculator_rs::environment::Environment;
use calculator_rs::scanner::tokenize;
use calculator_rs::token::Token;

/// A reference tree-walking evaluator, mirroring the documented semantics:
/// IEEE 32-bit arithmetic, `max`/`min` ignoring any argument that is NaN,
/// assignment storing into the environment and itself evaluating to zero,
/// and unbound variable references failing with a lookup error.
fn eval(expr: &Expression, env: &mut Environment) -> Result<f32, String> {
    match expr {
        Expression::Grouping(child) => eval(child, env),
        Expression::Literal(lexeme) => lexeme.parse::<f32>().map_err(|e| e.to_string()),
        Expression::Unary(_, child) => Ok(-eval(child, env)?),
        Expression::Binary(op, left, right) => {
            let a = eval(left, env)?;
            let b = eval(right, env)?;
            Ok(match op {
                Token::Plus => a + b,
                Token::Minus => a - b,
                Token::Star => a * b,
                Token::Slash => a / b,
                Token::Percent => a % b,
                _ => unreachable!(),
            })
        }
        Expression::SingleArity(op, arg) => {
            let a = eval(arg, env)?;
            Ok(match op {
                Token::Sqrt => a.sqrt(),
                Token::Floor => a.floor(),
                Token::Ceil => a.ceil(),
                Token::Cos => a.cos(),
                Token::Sin => a.sin(),
                Token::Tan => a.tan(),
                _ => unreachable!(),
            })
        }
        Expression::DoubleArity(op, first, second) => {
            let a = eval(first, env)?;
            let b = eval(second, env)?;
            Ok(match op {
                Token::Pow => a.powf(b),
                Token::Log => a.log(b),
                _ => unreachable!(),
            })
        }
        Expression::MultiArity(op, args) => {
            let mut values = Vec::new();
            for arg in args.iter() {
                values.push(eval(arg, env)?);
            }
            Ok(match op {
                Token::Max => values.iter().copied().fold(f32::NEG_INFINITY, f32::max),
                Token::Min => values.iter().copied().fold(f32::INFINITY, f32::min),
                _ => unreachable!(),
            })
        }
        Expression::Assignment(name, child) => {
            let value = eval(child, env)?;
            env.set(name, value.to_bits());
            Ok(f32::default())
        }
        Expression::Variable(name) => match env.get(name) {
            Some(bits) => Ok(f32::from_bits(bits)),
            None => Err(format!("Lookup error: {} is not defined", name)),
        },
    }
}

fn run(source: &str, env: &mut Environment) -> Result<f32, String> {
    let tokens = tokenize(source.to_string())?;
    let tree = ASTParser::create_ast(tokens)?;
    eval(&tree, env)
}

#[test]
fn left_associativity_value() {
    let mut env = Environment::new();
    assert_eq!(run("1 - 2 - 3", &mut env), Ok(-4.0));
}

#[test]
fn precedence_value() {
    let mut env = Environment::new();
    let value = run("4 * (8 + 2) * min(max(3.14,2.14), 5*24)", &mut env).unwrap();
    assert!((value - 125.6).abs() < 1e-3, "got {}", value);
}

#[test]
fn variadic_arity_floor_value() {
    let mut env = Environment::new();
    assert!(run("max(1.0)", &mut env).is_err());
    assert_eq!(run("max(1.0,2.0)", &mut env), Ok(2.0));
}

#[test]
fn assignment_reference_round_trip() {
    let mut env = Environment::new();
    assert_eq!(run("let x = 5", &mut env), Ok(0.0));
    assert_eq!(run("x + 1", &mut env), Ok(6.0));
}

#[test]
fn assignment_overwrites() {
    let mut env = Environment::new();
    run("let x = 5", &mut env).unwrap();
    run("let x = 7", &mut env).unwrap();
    assert_eq!(run("x", &mut env), Ok(7.0));
}

#[test]
fn unbound_variable_fails() {
    let mut env = Environment::new();
    let res = run("y + 1", &mut env);
    assert_eq!(res.unwrap_err(), "Lookup error: y is not defined");
}

#[test]
fn environment_set_get_direct() {
    let mut env = Environment::new();
    let name = "a".to_string();
    assert_eq!(env.get(&name), None);
    env.set(&name, 1.5f32.to_bits());
    assert_eq!(env.get(&name).map(f32::from_bits), Some(1.5));
    env.set(&name, 2.5f32.to_bits());
    assert_eq!(env.get(&name).map(f32::from_bits), Some(2.5));
    assert_eq!(env.get(&"b".to_string()), None);
}

#[test]
fn division_by_zero_is_ieee() {
    let mut env = Environment::new();
    assert_eq!(run("1 / 0", &mut env), Ok(f32::INFINITY));
    assert!(run("0 / 0", &mut env).unwrap().is_nan());
    assert!(run("1 % 0", &mut env).unwrap().is_nan());
}

#[test]
fn modulo_value() {
    let mut env = Environment::new();
    assert_eq!(run("7 % 3", &mut env), Ok(1.0));
}

#[test]
fn max_ignores_nan() {
    let mut env = Environment::new();
    assert_eq!(run("max(sqrt(-1), 2.0)", &mut env), Ok(2.0));
}

#[test]
fn transcendental_functions() {
    let mut env = Environment::new();
    assert_eq!(run("sqrt(16)", &mut env), Ok(4.0));
    assert_eq!(run("floor(2.7)", &mut env), Ok(2.0));
    assert_eq!(run("ceil(2.1)", &mut env), Ok(3.0));
    assert_eq!(run("pow(2,10)", &mut env), Ok(1024.0));
    assert_eq!(run("log(8,2)", &mut env), Ok(3.0));
    assert_eq!(run("cos(0)", &mut env), Ok(1.0));
}
