//! The atomic lexical unit produced by scanning and consumed by parsing.

use vstd::prelude::*;

verus! {

/// One lexical unit of a formula.
///
/// Tokens are immutable value types: the scanner creates one per lexical
/// unit, the parser reads them, and they are discarded once the syntax tree
/// is built.  A numeric literal carries its source lexeme (digits with an
/// optional fraction); the caller turns the lexeme into a machine number
/// when a literal is evaluated.
#[derive(Debug, Clone, PartialEq)]
pub enum Token {
    Plus,
    Minus,
    Star,
    Slash,
    Percent,
    OpenParen,
    CloseParen,
    Floor,
    Ceil,
    Max,
    Min,
    Sqrt,
    Pow,
    Cos,
    Sin,
    Tan,
    Log,
    Comma,
    Number(String),
    Identifier(String),
    Let,
    Equal,
}

/// The mathematical model of a [`Token`]: the same variants, with text
/// payloads seen as character sequences.
#[verifier::ext_equal]
pub enum TokenView {
    Plus,
    Minus,
    Star,
    Slash,
    Percent,
    OpenParen,
    CloseParen,
    Floor,
    Ceil,
    Max,
    Min,
    Sqrt,
    Pow,
    Cos,
    Sin,
    Tan,
    Log,
    Comma,
    Number(Seq<char>),
    Identifier(Seq<char>),
    Let,
    Equal,
}

impl View for Token {
    type V = TokenView;

    open spec fn view(&self) -> TokenView {
        match self {
            Token::Plus => TokenView::Plus,
            Token::Minus => TokenView::Minus,
            Token::Star => TokenView::Star,
            Token::Slash => TokenView::Slash,
            Token::Percent => TokenView::Percent,
            Token::OpenParen => TokenView::OpenParen,
            Token::CloseParen => TokenView::CloseParen,
            Token::Floor => TokenView::Floor,
            Token::Ceil => TokenView::Ceil,
            Token::Max => TokenView::Max,
            Token::Min => TokenView::Min,
            Token::Sqrt => TokenView::Sqrt,
            Token::Pow => TokenView::Pow,
            Token::Cos => TokenView::Cos,
            Token::Sin => TokenView::Sin,
            Token::Tan => TokenView::Tan,
            Token::Log => TokenView::Log,
            Token::Comma => TokenView::Comma,
            Token::Number(s) => TokenView::Number(s@),
            Token::Identifier(s) => TokenView::Identifier(s@),
            Token::Let => TokenView::Let,
            Token::Equal => TokenView::Equal,
        }
    }
}

/// The views of a sequence of tokens.
pub open spec fn views_of_tokens(ts: Seq<Token>) -> Seq<TokenView> {
    ts.map_values(|t: Token| t@)
}

/// The canonical textual form of a token: the text the scanner would have
/// turned into it.
pub open spec fn token_text(t: TokenView) -> Seq<char> {
    match t {
        TokenView::Plus => "+"@,
        TokenView::Minus => "-"@,
        TokenView::Star => "*"@,
        TokenView::Slash => "/"@,
        TokenView::Percent => "%"@,
        TokenView::OpenParen => "("@,
        TokenView::CloseParen => ")"@,
        TokenView::Floor => "floor"@,
        TokenView::Ceil => "ceil"@,
        TokenView::Max => "max"@,
        TokenView::Min => "min"@,
        TokenView::Sqrt => "sqrt"@,
        TokenView::Pow => "pow"@,
        TokenView::Cos => "cos"@,
        TokenView::Sin => "sin"@,
        TokenView::Tan => "tan"@,
        TokenView::Log => "log"@,
        TokenView::Comma => ","@,
        TokenView::Number(lexeme) => lexeme,
        TokenView::Identifier(name) => name,
        TokenView::Let => "let"@,
        TokenView::Equal => "="@,
    }
}

impl Token {
    /// The canonical textual form of the token.
    pub fn render(&self) -> (r: String)
        ensures
            r@ == token_text(self@),
    {
        match self {
            Token::Plus => String::from_str("+"),
            Token::Minus => String::from_str("-"),
            Token::Star => String::from_str("*"),
            Token::Slash => String::from_str("/"),
            Token::Percent => String::from_str("%"),
            Token::OpenParen => String::from_str("("),
            Token::CloseParen => String::from_str(")"),
            Token::Floor => String::from_str("floor"),
            Token::Ceil => String::from_str("ceil"),
            Token::Max => String::from_str("max"),
            Token::Min => String::from_str("min"),
            Token::Sqrt => String::from_str("sqrt"),
            Token::Pow => String::from_str("pow"),
            Token::Cos => String::from_str("cos"),
            Token::Sin => String::from_str("sin"),
            Token::Tan => String::from_str("tan"),
            Token::Log => String::from_str("log"),
            Token::Comma => String::from_str(","),
            Token::Number(lexeme) => lexeme.clone(),
            Token::Identifier(name) => name.clone(),
            Token::Let => String::from_str("let"),
            Token::Equal => String::from_str("="),
        }
    }

    /// An exact copy of the token.  Unlike the derived clone, its contract
    /// states that the copy carries the same view.
    pub fn duplicate(&self) -> (t: Token)
        ensures
            t@ == self@,
    {
        match self {
            Token::Plus => Token::Plus,
            Token::Minus => Token::Minus,
            Token::Star => Token::Star,
            Token::Slash => Token::Slash,
            Token::Percent => Token::Percent,
            Token::OpenParen => Token::OpenParen,
            Token::CloseParen => Token::CloseParen,
            Token::Floor => Token::Floor,
            Token::Ceil => Token::Ceil,
            Token::Max => Token::Max,
            Token::Min => Token::Min,
            Token::Sqrt => Token::Sqrt,
            Token::Pow => Token::Pow,
            Token::Cos => Token::Cos,
            Token::Sin => Token::Sin,
            Token::Tan => Token::Tan,
            Token::Log => Token::Log,
            Token::Comma => Token::Comma,
            Token::Number(lexeme) => Token::Number(lexeme.clone()),
            Token::Identifier(name) => Token::Identifier(name.clone()),
            Token::Let => Token::Let,
            Token::Equal => Token::Equal,
        }
    }

    /// The lexeme of a numeric-literal token; any other token is reported
    /// as not being a number.
    pub fn get_number(&self) -> (r: Result<String, String>)
        ensures
            match self@ {
                TokenView::Number(lexeme) => r matches Ok(s) && s@ == lexeme,
                _ => r matches Err(m) && m@ == token_text(self@) + " is not a number token"@,
            },
    {
        match self {
            Token::Number(lexeme) => Ok(lexeme.clone()),
            _ => {
                let mut m = self.render();
                m.append(" is not a number token");
                Err(m)
            },
        }
    }

    /// The name carried by an identifier token; any other token is reported
    /// as not being an identifier.
    pub fn get_identifier(&self) -> (r: Result<String, String>)
        ensures
            match self@ {
                TokenView::Identifier(name) => r matches Ok(s) && s@ == name,
                _ => r matches Err(m) && m@ == token_text(self@) + " is not an identifier"@,
            },
    {
        match self {
            Token::Identifier(name) => Ok(name.clone()),
            _ => {
                let mut m = self.render();
                m.append(" is not an identifier");
                Err(m)
            },
        }
    }
}

} // verus!
