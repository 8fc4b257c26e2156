use calculator_rs::scanner::tokenize;
use calculator_rs::token::Token;

#[test]
fn allowed_strings() {
    let testcases = [
        (
            "1 + 1",
            vec![
                Token::Number("1".to_string()),
                Token::Plus,
                Token::Number("1".to_string()),
            ],
        ),
        (
            "1 - 2 * 3 / 4",
            vec![
                Token::Number("1".to_string()),
                Token::Minus,
                Token::Number("2".to_string()),
                Token::Star,
                Token::Number("3".to_string()),
                Token::Slash,
                Token::Number("4".to_string()),
            ],
        ),
        (
            "sin(cos(tan(log(2.0))))",
            vec![
                Token::Sin,
                Token::OpenParen,
                Token::Cos,
                Token::OpenParen,
                Token::Tan,
                Token::OpenParen,
                Token::Log,
                Token::OpenParen,
                Token::Number("2.0".to_string()),
                Token::CloseParen,
                Token::CloseParen,
                Token::CloseParen,
                Token::CloseParen,
            ],
        ),
        (
            "max(1.0,2.0,3.0,min(4.0,5.0,6.0))",
            vec![
                Token::Max,
                Token::OpenParen,
                Token::Number("1.0".to_string()),
                Token::Comma,
                Token::Number("2.0".to_string()),
                Token::Comma,
                Token::Number("3.0".to_string()),
                Token::Comma,
                Token::Min,
                Token::OpenParen,
                Token::Number("4.0".to_string()),
                Token::Comma,
                Token::Number("5.0".to_string()),
                Token::Comma,
                Token::Number("6.0".to_string()),
                Token::CloseParen,
                Token::CloseParen,
            ],
        ),
    ];
    for case in testcases.iter() {
        let res = tokenize(case.0.to_string());
        assert!(res.is_ok());
        assert_eq!(
            res.clone().unwrap().len(),
            case.1.len(),
            "\n  left: {:?} \n right: {:?}",
            res.clone().unwrap(),
            case.1
        );
        assert_eq!(res.unwrap(), case.1);
    }
}

#[test]
fn disallowed_strings() {
    let testcases = [
        "@", "!", "#", "$", "|", "{", "}", ":", "\"", "\'", ";", ">", "<", "`", "~", "max-",
    ];
    for case in testcases.iter() {
        let res = tokenize(case.to_string());
        assert!(res.is_err(), "{:?}", res.unwrap());
    }
}

#[test]
fn invalid_character_message() {
    let res = tokenize("3 @".to_string());
    assert_eq!(res.unwrap_err(), "Invalid character @ at position 2");
}

#[test]
fn invalid_character_two_digit_position() {
    let res = tokenize("1234567890 @".to_string());
    assert_eq!(res.unwrap_err(), "Invalid character @ at position 11");
}

#[test]
fn unrecognized_word_message() {
    let res = tokenize("max-".to_string());
    assert_eq!(res.unwrap_err(), "Unrecognized word max-");
}

#[test]
fn underscore_rejected() {
    assert!(tokenize("_".to_string()).is_err());
    assert!(tokenize("a_b".to_string()).is_err());
}

#[test]
fn assignment_tokens() {
    let res = tokenize("let x = 5".to_string()).unwrap();
    assert_eq!(
        res,
        vec![
            Token::Let,
            Token::Identifier("x".to_string()),
            Token::Equal,
            Token::Number("5".to_string()),
        ]
    );
}

#[test]
fn unknown_word_becomes_identifier() {
    let res = tokenize("hello".to_string()).unwrap();
    assert_eq!(res, vec![Token::Identifier("hello".to_string())]);
}

#[test]
fn fractional_number_lexeme() {
    let res = tokenize("3.14".to_string()).unwrap();
    assert_eq!(res, vec![Token::Number("3.14".to_string())]);
}

#[test]
fn bare_dot_rejected() {
    let res = tokenize(".".to_string());
    assert_eq!(res.unwrap_err(), "Invalid character . at position 0");
}

#[test]
fn dot_without_fraction_stops_number() {
    let res = tokenize("3.".to_string());
    assert_eq!(res.unwrap_err(), "Invalid character . at position 1");
}

#[test]
fn whitespace_skipped() {
    let res = tokenize(" 1\n+ 2 ".to_string()).unwrap();
    assert_eq!(
        res,
        vec![
            Token::Number("1".to_string()),
            Token::Plus,
            Token::Number("2".to_string()),
        ]
    );
}

#[test]
fn token_get_number() {
    let t = Token::Number("3.5".to_string());
    assert_eq!(t.get_number(), Ok("3.5".to_string()));
    assert_eq!(
        Token::Plus.get_number(),
        Err("+ is not a number token".to_string())
    );
}

#[test]
fn token_get_identifier() {
    let t = Token::Identifier("speed".to_string());
    assert_eq!(t.get_identifier(), Ok("speed".to_string()));
    assert_eq!(
        Token::Let.get_identifier(),
        Err("let is not an identifier".to_string())
    );
}

#[test]
fn token_render_forms() {
    assert_eq!(Token::Percent.render(), "%");
    assert_eq!(Token::Sqrt.render(), "sqrt");
    assert_eq!(Token::Number("2.5".to_string()).render(), "2.5");
    assert_eq!(Token::Identifier("x".to_string()).render(), "x");
    assert_eq!(Token::Equal.render(), "=");
}
