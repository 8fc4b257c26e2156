//! The abstract syntax tree and the recursive-descent parser that builds it.
//!
//! The grammar, from loosest to tightest binding:
//!
//! ```text
//! expression := 'let' IDENTIFIER '=' expression | term
//! term       := factor ( ('+'|'-') factor )*
//! factor     := unary  ( ('*'|'/'|'%') unary )*
//! unary      := '-' unary | primary
//! primary    := '(' expression ')' | function_call | NUMBER | IDENTIFIER
//! function_call := (COS|SIN|TAN|SQRT|FLOOR|CEIL) '(' expression ')'
//!                | (POW|LOG) '(' expression ',' expression ')'
//!                | (MAX|MIN) '(' expression (',' expression)+ ')'
//! ```
//!
//! The parser keeps one cursor into the token sequence, never backtracks
//! past consumed tokens, and decides alternatives with one token of
//! lookahead.  Binary operators fold left, so `1 - 2 - 3` parses as
//! `(1 - 2) - 3`; unary minus binds tighter than any binary operator.  After
//! the top-level expression, leftover tokens are an error naming the
//! leftover text.  The whole behaviour is stated by the specification
//! functions below ([`expression_spec`] down to [`multi_args_spec`]), and
//! [`ASTParser::create_ast`] is proved to agree with them on every token
//! sequence.

use vstd::prelude::*;

use crate::token::{token_text, views_of_tokens, Token, TokenView};

verus! {

/// A node of the expression tree.
///
/// The tree is built bottom-up, never mutated afterwards, and each node owns
/// its children exclusively.  A literal carries its source lexeme; the
/// caller turns the lexeme into a machine number when it evaluates the node.
#[derive(Debug, PartialEq)]
pub enum Expression {
    /// A parenthesized sub-expression, semantically transparent.
    Grouping(Box<Expression>),
    /// A numeric constant, kept as its source lexeme.
    Literal(String),
    /// Prefix negation.
    Unary(Token, Box<Expression>),
    /// An arithmetic infix operator applied to two operands.
    Binary(Token, Box<Expression>, Box<Expression>),
    /// A one-argument function call.
    SingleArity(Token, Box<Expression>),
    /// A two-argument function call.
    DoubleArity(Token, Box<Expression>, Box<Expression>),
    /// A variadic function call; the parser only builds argument lists of
    /// two or more.
    MultiArity(Token, Vec<Box<Expression>>),
    /// Binds a name to the value of the sub-expression.
    Assignment(String, Box<Expression>),
    /// A reference to a previously bound name.
    Variable(String),
}

/// The mathematical model of an [`Expression`].
#[verifier::ext_equal]
pub enum ExprView {
    Grouping(Box<ExprView>),
    Literal(Seq<char>),
    Unary(TokenView, Box<ExprView>),
    Binary(TokenView, Box<ExprView>, Box<ExprView>),
    SingleArity(TokenView, Box<ExprView>),
    DoubleArity(TokenView, Box<ExprView>, Box<ExprView>),
    MultiArity(TokenView, Seq<ExprView>),
    Assignment(Seq<char>, Box<ExprView>),
    Variable(Seq<char>),
}

/// The model of one expression node.
pub open spec fn expr_view(e: Expression) -> ExprView
    decreases e,
{
    match e {
        Expression::Grouping(child) => ExprView::Grouping(Box::new(expr_view(*child))),
        Expression::Literal(lexeme) => ExprView::Literal(lexeme@),
        Expression::Unary(op, child) => ExprView::Unary(op@, Box::new(expr_view(*child))),
        Expression::Binary(op, left, right) => ExprView::Binary(
            op@,
            Box::new(expr_view(*left)),
            Box::new(expr_view(*right)),
        ),
        Expression::SingleArity(op, arg) => ExprView::SingleArity(
            op@,
            Box::new(expr_view(*arg)),
        ),
        Expression::DoubleArity(op, first, second) => ExprView::DoubleArity(
            op@,
            Box::new(expr_view(*first)),
            Box::new(expr_view(*second)),
        ),
        Expression::MultiArity(op, args) => ExprView::MultiArity(op@, expr_views_of(args@)),
        Expression::Assignment(name, child) => ExprView::Assignment(
            name@,
            Box::new(expr_view(*child)),
        ),
        Expression::Variable(name) => ExprView::Variable(name@),
    }
}

/// The models of a list of argument nodes.
pub open spec fn expr_views_of(args: Seq<Box<Expression>>) -> Seq<ExprView>
    decreases args,
{
    if args.len() == 0 {
        Seq::empty()
    } else {
        expr_views_of(args.drop_last()).push(expr_view(*args.last()))
    }
}

impl View for Expression {
    type V = ExprView;

    open spec fn view(&self) -> ExprView {
        expr_view(*self)
    }
}

/// The canonical textual form of an expression tree, as the renderer
/// prints it.
pub open spec fn expr_text(e: ExprView) -> Seq<char>
    decreases e,
{
    match e {
        ExprView::Grouping(child) => "("@ + expr_text(*child) + ")"@,
        ExprView::Literal(lexeme) => lexeme,
        ExprView::Unary(op, child) => token_text(op) + expr_text(*child),
        ExprView::Binary(op, left, right) => expr_text(*left) + " "@ + token_text(op) + " "@
            + expr_text(*right),
        ExprView::SingleArity(op, arg) => token_text(op) + "("@ + expr_text(*arg) + ")"@,
        ExprView::DoubleArity(op, first, second) => token_text(op) + "("@ + expr_text(*first)
            + ","@ + expr_text(*second) + ")"@,
        ExprView::MultiArity(op, args) => token_text(op) + "("@ + args_text(args) + ")"@,
        ExprView::Assignment(name, child) => "let "@ + name + " = "@ + expr_text(*child),
        ExprView::Variable(name) => name,
    }
}

/// The textual form of an argument list: the arguments separated by commas.
pub open spec fn args_text(args: Seq<ExprView>) -> Seq<char>
    decreases args,
{
    if args.len() == 0 {
        Seq::empty()
    } else if args.len() == 1 {
        expr_text(args[0])
    } else {
        args_text(args.drop_last()) + ","@ + expr_text(args.last())
    }
}

impl Expression {
    /// The canonical textual form of the tree.
    #[verifier::loop_isolation(false)]
    pub fn render(&self) -> (r: String)
        ensures
            r@ == expr_text(self@),
        decreases self,
    {
        match self {
            Expression::Grouping(child) => {
                let mut s = String::from_str("(");
                let inner = child.render();
                s.append(inner.as_str());
                s.append(")");
                s
            },
            Expression::Literal(lexeme) => lexeme.clone(),
            Expression::Unary(op, child) => {
                let mut s = op.render();
                let inner = child.render();
                s.append(inner.as_str());
                s
            },
            Expression::Binary(op, left, right) => {
                let mut s = left.render();
                s.append(" ");
                let op_str = op.render();
                s.append(op_str.as_str());
                s.append(" ");
                let right_str = right.render();
                s.append(right_str.as_str());
                s
            },
            Expression::SingleArity(op, arg) => {
                let mut s = op.render();
                s.append("(");
                let arg_str = arg.render();
                s.append(arg_str.as_str());
                s.append(")");
                s
            },
            Expression::DoubleArity(op, first, second) => {
                let mut s = op.render();
                s.append("(");
                let first_str = first.render();
                s.append(first_str.as_str());
                s.append(",");
                let second_str = second.render();
                s.append(second_str.as_str());
                s.append(")");
                s
            },
            Expression::MultiArity(op, args) => {
                let mut s = op.render();
                s.append("(");
                let n: usize = args.len();
                let mut k: usize = 0;
                while k < n
                    invariant
                        k <= n,
                        n == args.len(),
                        s@ == token_text(op@) + "("@ + args_text(
                            expr_views_of(args@.subrange(0, k as int)),
                        ),
                    decreases n - k,
                {
                    if k > 0 {
                        s.append(",");
                    }
                    proof {
                        assert(decreases_to!(*self => *args));
                        assert(decreases_to!(*args => args@[k as int]));
                    }
                    let arg_str = args[k].render();
                    s.append(arg_str.as_str());
                    proof {
                        let prefix = args@.subrange(0, k as int);
                        let extended = args@.subrange(0, k as int + 1);
                        assert(extended.drop_last() =~= prefix);
                        assert(*extended.last() == *args@[k as int]);
                        assert(expr_views_of(extended).drop_last() =~= expr_views_of(prefix));
                        lemma_args_text_step(expr_views_of(extended));
                    }
                    k += 1;
                }
                s.append(")");
                proof {
                    assert(args@.subrange(0, n as int) =~= args@);
                }
                s
            },
            Expression::Assignment(name, child) => {
                let mut s = String::from_str("let ");
                s.append(name.as_str());
                s.append(" = ");
                let inner = child.render();
                s.append(inner.as_str());
                s
            },
            Expression::Variable(name) => name.clone(),
        }
    }
}

/// Unfolds one step of [`args_text`] from the end of the list.
proof fn lemma_args_text_step(args: Seq<ExprView>)
    requires
        args.len() >= 1,
    ensures
        args.len() == 1 ==> args_text(args) == expr_text(args[0]),
        args.len() > 1 ==> args_text(args) == args_text(args.drop_last()) + ","@ + expr_text(
            args.last(),
        ),
{
}

/// A list of argument nodes and its list of models have one length.
proof fn lemma_expr_views_len(args: Seq<Box<Expression>>)
    ensures
        expr_views_of(args).len() == args.len(),
    decreases args,
{
    if args.len() > 0 {
        lemma_expr_views_len(args.drop_last());
    }
}

/// A terminal parsing error.
#[verifier::ext_equal]
pub enum ParseIssue {
    /// The token stream matches no production of the grammar.
    UnableToCreate,
    /// A function operator is not followed by `(`.
    MissingOpenParen(TokenView),
    /// A function call is not closed by `)`.
    MissingCloseParen(TokenView),
    /// The input ends right after an opening parenthesis.
    EndsWithOpenParen,
    /// A two-argument function got no comma after its first argument.
    NeedsTwoOperands(TokenView),
    /// A variadic argument is followed by neither `,` nor `)`.
    CommaOrClose,
    /// A comma right before `)` in a variadic call.
    TrailingComma,
    /// A variadic call with fewer than two arguments.
    TooFewArguments(TokenView),
    /// A parenthesized group is not closed by `)`.
    MissingMatchingParen,
    /// `let` is not followed by an identifier.
    ExpectedIdentifier,
    /// The identifier of `let` is not followed by `=`.
    ExpectedEqual,
    /// A token that names no function stood where a function call begins.
    NotAFunction(TokenView),
    /// Tokens were left over after a complete top-level expression; carries
    /// their rendered text.
    Disjoint(Seq<char>),
}

/// The message text reported for a parsing error.
pub open spec fn issue_text(p: ParseIssue) -> Seq<char> {
    match p {
        ParseIssue::UnableToCreate => "Unable to create syntax tree"@,
        ParseIssue::MissingOpenParen(op) => "Missing opening parenthesis '(' after "@
            + token_text(op),
        ParseIssue::MissingCloseParen(op) => "Missing closing parenthesis ')' after "@
            + token_text(op),
        ParseIssue::EndsWithOpenParen => "Cannot end with opening parenthesis"@,
        ParseIssue::NeedsTwoOperands(op) => token_text(op) + " requires at least two operands"@,
        ParseIssue::CommaOrClose => "Either missing comma or close parenthesis"@,
        ParseIssue::TrailingComma => "Trailing commas are not allowed"@,
        ParseIssue::TooFewArguments(op) => token_text(op) + " requires 2 or more arguments"@,
        ParseIssue::MissingMatchingParen => "Missing matching parenthesis ')'"@,
        ParseIssue::ExpectedIdentifier => "Expected identifier after let"@,
        ParseIssue::ExpectedEqual => "Expected '=' after the identifier of let"@,
        ParseIssue::NotAFunction(op) => token_text(op) + " is not a valid function"@,
        ParseIssue::Disjoint(text) => "Error: \""@ + text + "\" is disjointed from formula"@,
    }
}

/// How many tokens remain at cursor `i`.
pub open spec fn rem_count(ts: Seq<TokenView>, i: nat) -> nat {
    if i <= ts.len() {
        (ts.len() - i) as nat
    } else {
        0
    }
}

/// An operator taking exactly one parenthesized argument.
pub open spec fn is_single_arity_op(t: TokenView) -> bool {
    t == TokenView::Cos || t == TokenView::Sin || t == TokenView::Tan || t == TokenView::Sqrt
        || t == TokenView::Floor || t == TokenView::Ceil
}

/// An operator taking exactly two parenthesized arguments.
pub open spec fn is_double_arity_op(t: TokenView) -> bool {
    t == TokenView::Pow || t == TokenView::Log
}

/// An operator taking a variadic argument list.
pub open spec fn is_multi_arity_op(t: TokenView) -> bool {
    t == TokenView::Max || t == TokenView::Min
}

/// Any operator that begins a function call.
pub open spec fn is_function_op(t: TokenView) -> bool {
    is_single_arity_op(t) || is_double_arity_op(t) || is_multi_arity_op(t)
}

/// Parses `expression` at cursor `i`: an assignment when `let` stands
/// there, otherwise a `term`.  On success yields the tree and the number of
/// tokens consumed.
pub open spec fn expression_spec(ts: Seq<TokenView>, i: nat) -> Result<
    (ExprView, nat),
    ParseIssue,
>
    decreases rem_count(ts, i), 6int,
{
    if i < ts.len() && ts[i as int] == TokenView::Let {
        if i + 1 >= ts.len() {
            Err(ParseIssue::ExpectedIdentifier)
        } else {
            match ts[i + 1 as int] {
                TokenView::Identifier(name) => if i + 2 < ts.len() && ts[i + 2 as int]
                    == TokenView::Equal {
                    match expression_spec(ts, i + 3) {
                        Ok(p) => Ok(
                            (ExprView::Assignment(name, Box::new(p.0)), (3 + p.1) as nat),
                        ),
                        Err(e) => Err(e),
                    }
                } else {
                    Err(ParseIssue::ExpectedEqual)
                },
                _ => Err(ParseIssue::ExpectedIdentifier),
            }
        }
    } else {
        term_spec(ts, i)
    }
}

/// Parses `term`: a `factor` followed by any number of `+`/`-` factors,
/// folded to the left.
pub open spec fn term_spec(ts: Seq<TokenView>, i: nat) -> Result<(ExprView, nat), ParseIssue>
    decreases rem_count(ts, i), 5int,
{
    match factor_spec(ts, i) {
        Ok(p) => match term_rest_spec(ts, i + p.1, p.0) {
            Ok(q) => Ok((q.0, (p.1 + q.1) as nat)),
            Err(e) => Err(e),
        },
        Err(e) => Err(e),
    }
}

/// Folds further `+`/`-` factors onto `acc`, left to right.
pub open spec fn term_rest_spec(ts: Seq<TokenView>, i: nat, acc: ExprView) -> Result<
    (ExprView, nat),
    ParseIssue,
>
    decreases rem_count(ts, i), 4int,
{
    if i < ts.len() && (ts[i as int] == TokenView::Plus || ts[i as int] == TokenView::Minus) {
        let op = ts[i as int];
        match factor_spec(ts, i + 1) {
            Ok(p) => match term_rest_spec(
                ts,
                i + 1 + p.1,
                ExprView::Binary(op, Box::new(acc), Box::new(p.0)),
            ) {
                Ok(q) => Ok((q.0, (1 + p.1 + q.1) as nat)),
                Err(e) => Err(e),
            },
            Err(e) => Err(e),
        }
    } else {
        Ok((acc, 0))
    }
}

/// Parses `factor`: a `unary` followed by any number of `*`/`/`/`%`
/// unaries, folded to the left.
pub open spec fn factor_spec(ts: Seq<TokenView>, i: nat) -> Result<(ExprView, nat), ParseIssue>
    decreases rem_count(ts, i), 3int,
{
    match unary_spec(ts, i) {
        Ok(p) => match factor_rest_spec(ts, i + p.1, p.0) {
            Ok(q) => Ok((q.0, (p.1 + q.1) as nat)),
            Err(e) => Err(e),
        },
        Err(e) => Err(e),
    }
}

/// Folds further `*`/`/`/`%` unaries onto `acc`, left to right.
pub open spec fn factor_rest_spec(ts: Seq<TokenView>, i: nat, acc: ExprView) -> Result<
    (ExprView, nat),
    ParseIssue,
>
    decreases rem_count(ts, i), 2int,
{
    if i < ts.len() && (ts[i as int] == TokenView::Star || ts[i as int] == TokenView::Slash
        || ts[i as int] == TokenView::Percent) {
        let op = ts[i as int];
        match unary_spec(ts, i + 1) {
            Ok(p) => match factor_rest_spec(
                ts,
                i + 1 + p.1,
                ExprView::Binary(op, Box::new(acc), Box::new(p.0)),
            ) {
                Ok(q) => Ok((q.0, (1 + p.1 + q.1) as nat)),
                Err(e) => Err(e),
            },
            Err(e) => Err(e),
        }
    } else {
        Ok((acc, 0))
    }
}

/// Parses `unary`: prefix minus applied to itself, or a `primary`.
pub open spec fn unary_spec(ts: Seq<TokenView>, i: nat) -> Result<(ExprView, nat), ParseIssue>
    decreases rem_count(ts, i), 2int,
{
    if i < ts.len() && ts[i as int] == TokenView::Minus {
        match unary_spec(ts, i + 1) {
            Ok(p) => Ok((ExprView::Unary(TokenView::Minus, Box::new(p.0)), (1 + p.1) as nat)),
            Err(e) => Err(e),
        }
    } else {
        primary_spec(ts, i)
    }
}

/// Parses `primary`: a parenthesized group, a function call, a numeric
/// literal, or a variable reference.
pub open spec fn primary_spec(ts: Seq<TokenView>, i: nat) -> Result<(ExprView, nat), ParseIssue>
    decreases rem_count(ts, i), 1int,
{
    if i >= ts.len() {
        Err(ParseIssue::UnableToCreate)
    } else {
        let t = ts[i as int];
        if t == TokenView::OpenParen {
            match expression_spec(ts, i + 1) {
                Ok(p) => if i + 1 + p.1 < ts.len() && ts[i + 1 + p.1 as int]
                    == TokenView::CloseParen {
                    Ok((ExprView::Grouping(Box::new(p.0)), (p.1 + 2) as nat))
                } else {
                    Err(ParseIssue::MissingMatchingParen)
                },
                Err(e) => Err(e),
            }
        } else if is_function_op(t) {
            match function_spec(ts, i + 1, t) {
                Ok(p) => Ok((p.0, (1 + p.1) as nat)),
                Err(e) => Err(e),
            }
        } else {
            match t {
                TokenView::Number(lexeme) => Ok((ExprView::Literal(lexeme), 1)),
                TokenView::Identifier(name) => Ok((ExprView::Variable(name), 1)),
                _ => Err(ParseIssue::UnableToCreate),
            }
        }
    }
}

/// Parses the parenthesized argument list of the function operator `op`;
/// `i` is the position where `(` must stand.  The count consumed includes
/// the parentheses but not the operator itself.
pub open spec fn function_spec(ts: Seq<TokenView>, i: nat, op: TokenView) -> Result<
    (ExprView, nat),
    ParseIssue,
>
    decreases rem_count(ts, i), 0int,
{
    if !(i < ts.len() && ts[i as int] == TokenView::OpenParen) {
        Err(ParseIssue::MissingOpenParen(op))
    } else if i + 1 >= ts.len() {
        Err(ParseIssue::EndsWithOpenParen)
    } else if is_single_arity_op(op) {
        match single_tail_spec(ts, i + 1, op) {
            Ok(p) => Ok((p.0, (1 + p.1) as nat)),
            Err(e) => Err(e),
        }
    } else if is_double_arity_op(op) {
        match double_tail_spec(ts, i + 1, op) {
            Ok(p) => Ok((p.0, (1 + p.1) as nat)),
            Err(e) => Err(e),
        }
    } else if is_multi_arity_op(op) {
        match multi_tail_spec(ts, i + 1, op) {
            Ok(p) => Ok((p.0, (1 + p.1) as nat)),
            Err(e) => Err(e),
        }
    } else {
        Err(ParseIssue::NotAFunction(op))
    }
}

/// Parses the variadic argument list once `(` is consumed, and requires at
/// least two arguments.
pub open spec fn multi_tail_spec(ts: Seq<TokenView>, j: nat, op: TokenView) -> Result<
    (ExprView, nat),
    ParseIssue,
>
    decreases rem_count(ts, j), 8int,
{
    match multi_args_spec(ts, j, Seq::empty()) {
        Ok(p) => if p.0.len() < 2 {
            Err(ParseIssue::TooFewArguments(op))
        } else {
            Ok((ExprView::MultiArity(op, p.0), p.1))
        },
        Err(e) => Err(e),
    }
}

/// Parses the rest of a one-argument call once `(` is consumed: the
/// argument and the closing parenthesis.
pub open spec fn single_tail_spec(ts: Seq<TokenView>, j: nat, op: TokenView) -> Result<
    (ExprView, nat),
    ParseIssue,
>
    decreases rem_count(ts, j), 8int,
{
    match expression_spec(ts, j) {
        Ok(p) => if j + p.1 < ts.len() && ts[j + p.1 as int] == TokenView::CloseParen {
            Ok((ExprView::SingleArity(op, Box::new(p.0)), (p.1 + 1) as nat))
        } else {
            Err(ParseIssue::MissingCloseParen(op))
        },
        Err(e) => Err(e),
    }
}

/// Parses the rest of a two-argument call once `(` is consumed: the first
/// argument, the comma, the second argument and the closing parenthesis.
pub open spec fn double_tail_spec(ts: Seq<TokenView>, j: nat, op: TokenView) -> Result<
    (ExprView, nat),
    ParseIssue,
>
    decreases rem_count(ts, j), 8int,
{
    match expression_spec(ts, j) {
        Ok(p) => if j + p.1 < ts.len() && ts[j + p.1 as int] == TokenView::Comma {
            match expression_spec(ts, j + p.1 + 1) {
                Ok(q) => if j + p.1 + 1 + q.1 < ts.len() && ts[j + p.1 + 1 + q.1 as int]
                    == TokenView::CloseParen {
                    Ok(
                        (
                            ExprView::DoubleArity(op, Box::new(p.0), Box::new(q.0)),
                            (p.1 + q.1 + 2) as nat,
                        ),
                    )
                } else {
                    Err(ParseIssue::MissingCloseParen(op))
                },
                Err(e) => Err(e),
            }
        } else {
            Err(ParseIssue::NeedsTwoOperands(op))
        },
        Err(e) => Err(e),
    }
}

/// Parses the comma-separated expressions of a variadic call from cursor
/// `i` up to and including the closing parenthesis.  A comma directly
/// before `)` is a trailing comma and is rejected.
pub open spec fn multi_args_spec(ts: Seq<TokenView>, i: nat, acc: Seq<ExprView>) -> Result<
    (Seq<ExprView>, nat),
    ParseIssue,
>
    decreases rem_count(ts, i), 7int,
{
    if i < ts.len() && ts[i as int] == TokenView::CloseParen {
        Ok((acc, 1))
    } else {
        match expression_spec(ts, i) {
            Ok(p) => {
                let k: nat = (i + p.1) as nat;
                if k < ts.len() && ts[k as int] == TokenView::CloseParen {
                    Ok((acc.push(p.0), (p.1 + 1) as nat))
                } else if k < ts.len() && ts[k as int] == TokenView::Comma {
                    if k + 1 < ts.len() && ts[k + 1 as int] == TokenView::CloseParen {
                        Err(ParseIssue::TrailingComma)
                    } else {
                        match multi_args_spec(ts, (k + 1) as nat, acc.push(p.0)) {
                            Ok(q) => Ok((q.0, (p.1 + 1 + q.1) as nat)),
                            Err(e) => Err(e),
                        }
                    }
                } else {
                    Err(ParseIssue::CommaOrClose)
                }
            },
            Err(e) => Err(e),
        }
    }
}

/// The rendered text of a token sequence, with nothing between tokens.
pub open spec fn tokens_text(ts: Seq<TokenView>) -> Seq<char>
    decreases ts.len(),
{
    if ts.len() == 0 {
        Seq::empty()
    } else {
        token_text(ts[0]) + tokens_text(ts.drop_first())
    }
}

/// Parses a whole token sequence: the top-level expression must consume
/// every token, and leftover tokens are reported as disjoint input with
/// their rendered text.
pub open spec fn parse_tokens_spec(ts: Seq<TokenView>) -> Result<ExprView, ParseIssue> {
    match expression_spec(ts, 0) {
        Ok(p) => if p.1 == ts.len() {
            Ok(p.0)
        } else {
            Err(ParseIssue::Disjoint(tokens_text(ts.skip(p.1 as int))))
        },
        Err(e) => Err(e),
    }
}

/// The recursive-descent parser: a token sequence and one cursor into it.
pub struct ASTParser {
    current: usize,
    tokens: Vec<Token>,
}

/// What every parsing method promises: the tokens are untouched, and the
/// method's outcome and new cursor agree with the specification result
/// `out` taken at the old cursor.
spec fn step_agrees(
    pre: ASTParser,
    post: ASTParser,
    r: Result<Box<Expression>, String>,
    out: Result<(ExprView, nat), ParseIssue>,
) -> bool {
    &&& post.wf()
    &&& post.tokens == pre.tokens
    &&& match (r, out) {
        (Ok(e), Ok(p)) => e@ == p.0 && post.current == pre.current + p.1,
        (Err(m), Err(q)) => m@ == issue_text(q),
        _ => false,
    }
}

impl ASTParser {
    /// The views of the parser's tokens.
    pub closed spec fn toks(&self) -> Seq<TokenView> {
        views_of_tokens(self.tokens@)
    }

    /// The cursor never passes the end of the tokens.
    pub closed spec fn wf(&self) -> bool {
        self.current <= self.tokens.len()
    }

    /// Parses a whole token sequence into its expression tree, exactly as
    /// [`parse_tokens_spec`] says: the tree of the top-level expression
    /// when it consumes every token; otherwise the message of the parsing
    /// error, or of the disjoint-input error naming the leftover text.
    #[verifier::loop_isolation(false)]
    pub fn create_ast(tokens: Vec<Token>) -> (r: Result<Box<Expression>, String>)
        ensures
            match (r, parse_tokens_spec(views_of_tokens(tokens@))) {
                (Ok(e), Ok(v)) => e@ == v,
                (Err(m), Err(q)) => m@ == issue_text(q),
                _ => false,
            },
    {
        let mut parser = ASTParser { current: 0, tokens };
        let ghost ts = parser.toks();
        match parser.expression() {
            Err(m) => Err(m),
            Ok(e) => {
                let n: usize = parser.tokens.len();
                if parser.current < n {
                    let ghost start = parser.current as int;
                    let mut text = String::new();
                    let mut j: usize = parser.current;
                    while j < n
                        invariant
                            start <= j <= n,
                            text@ + tokens_text(ts.skip(j as int)) == tokens_text(ts.skip(start)),
                        decreases n - j,
                    {
                        let ghost old_text = text@;
                        let tok_str = parser.tokens[j].render();
                        text.append(tok_str.as_str());
                        proof {
                            let rest = ts.skip(j as int);
                            assert(rest[0] == ts[j as int]);
                            assert(rest.drop_first() =~= ts.skip(j as int + 1));
                            assert((old_text + token_text(ts[j as int])) + tokens_text(
                                ts.skip(j as int + 1),
                            ) =~= old_text + (token_text(ts[j as int]) + tokens_text(
                                ts.skip(j as int + 1),
                            )));
                        }
                        j += 1;
                    }
                    proof {
                        assert(ts.skip(n as int) =~= Seq::<TokenView>::empty());
                        assert(text@ + tokens_text(ts.skip(n as int)) =~= text@);
                    }
                    let mut m = String::from_str("Error: \"");
                    m.append(text.as_str());
                    m.append("\" is disjointed from formula");
                    Err(m)
                } else {
                    Ok(e)
                }
            },
        }
    }

    /// Parses `expression` at the cursor, as [`expression_spec`] says.
    fn expression(&mut self) -> (r: Result<Box<Expression>, String>)
        requires
            old(self).wf(),
        ensures
            step_agrees(
                *old(self),
                *final(self),
                r,
                expression_spec(old(self).toks(), old(self).current as nat),
            ),
        decreases rem_count(self.toks(), self.current as nat), 6int,
    {
        let n: usize = self.tokens.len();
        if self.current < n {
            let is_let = match &self.tokens[self.current] {
                Token::Let => true,
                _ => false,
            };
            if is_let {
                if self.current + 1 >= n {
                    return Err(String::from_str("Expected identifier after let"));
                }
                let name_opt: Option<String> = match &self.tokens[self.current + 1] {
                    Token::Identifier(s) => Some(s.clone()),
                    _ => None,
                };
                match name_opt {
                    Some(name) => {
                        let has_equal = self.current + 2 < n && (match &self.tokens[self.current
                            + 2] {
                            Token::Equal => true,
                            _ => false,
                        });
                        if has_equal {
                            self.current = self.current + 3;
                            match self.expression() {
                                Ok(e) => Ok(Box::new(Expression::Assignment(name, e))),
                                Err(m) => Err(m),
                            }
                        } else {
                            Err(String::from_str("Expected '=' after the identifier of let"))
                        }
                    },
                    None => Err(String::from_str("Expected identifier after let")),
                }
            } else {
                self.term()
            }
        } else {
            self.term()
        }
    }

    /// Parses `term` at the cursor, as [`term_spec`] says.
    fn term(&mut self) -> (r: Result<Box<Expression>, String>)
        requires
            old(self).wf(),
        ensures
            step_agrees(
                *old(self),
                *final(self),
                r,
                term_spec(old(self).toks(), old(self).current as nat),
            ),
        decreases rem_count(self.toks(), self.current as nat), 5int,
    {
        match self.factor() {
            Ok(first) => self.term_rest(first),
            Err(m) => Err(m),
        }
    }

    /// Folds further `+`/`-` factors onto `acc`, as [`term_rest_spec`] says.
    fn term_rest(&mut self, acc: Box<Expression>) -> (r: Result<Box<Expression>, String>)
        requires
            old(self).wf(),
        ensures
            step_agrees(
                *old(self),
                *final(self),
                r,
                term_rest_spec(old(self).toks(), old(self).current as nat, acc@),
            ),
        decreases rem_count(self.toks(), self.current as nat), 4int,
    {
        let n: usize = self.tokens.len();
        if self.current < n {
            let op_opt: Option<Token> = match &self.tokens[self.current] {
                Token::Plus => Some(Token::Plus),
                Token::Minus => Some(Token::Minus),
                _ => None,
            };
            match op_opt {
                Some(op) => {
                    self.current = self.current + 1;
                    match self.factor() {
                        Ok(rhs) => self.term_rest(Box::new(Expression::Binary(op, acc, rhs))),
                        Err(m) => Err(m),
                    }
                },
                None => Ok(acc),
            }
        } else {
            Ok(acc)
        }
    }

    /// Parses `factor` at the cursor, as [`factor_spec`] says.
    fn factor(&mut self) -> (r: Result<Box<Expression>, String>)
        requires
            old(self).wf(),
        ensures
            step_agrees(
                *old(self),
                *final(self),
                r,
                factor_spec(old(self).toks(), old(self).current as nat),
            ),
        decreases rem_count(self.toks(), self.current as nat), 3int,
    {
        match self.unary() {
            Ok(first) => self.factor_rest(first),
            Err(m) => Err(m),
        }
    }

    /// Folds further `*`/`/`/`%` unaries onto `acc`, as
    /// [`factor_rest_spec`] says.
    fn factor_rest(&mut self, acc: Box<Expression>) -> (r: Result<Box<Expression>, String>)
        requires
            old(self).wf(),
        ensures
            step_agrees(
                *old(self),
                *final(self),
                r,
                factor_rest_spec(old(self).toks(), old(self).current as nat, acc@),
            ),
        decreases rem_count(self.toks(), self.current as nat), 2int,
    {
        let n: usize = self.tokens.len();
        if self.current < n {
            let op_opt: Option<Token> = match &self.tokens[self.current] {
                Token::Star => Some(Token::Star),
                Token::Slash => Some(Token::Slash),
                Token::Percent => Some(Token::Percent),
                _ => None,
            };
            match op_opt {
                Some(op) => {
                    self.current = self.current + 1;
                    match self.unary() {
                        Ok(rhs) => self.factor_rest(Box::new(Expression::Binary(op, acc, rhs))),
                        Err(m) => Err(m),
                    }
                },
                None => Ok(acc),
            }
        } else {
            Ok(acc)
        }
    }

    /// Parses `unary` at the cursor, as [`unary_spec`] says.
    fn unary(&mut self) -> (r: Result<Box<Expression>, String>)
        requires
            old(self).wf(),
        ensures
            step_agrees(
                *old(self),
                *final(self),
                r,
                unary_spec(old(self).toks(), old(self).current as nat),
            ),
        decreases rem_count(self.toks(), self.current as nat), 2int,
    {
        let n: usize = self.tokens.len();
        if self.current < n {
            let is_minus = match &self.tokens[self.current] {
                Token::Minus => true,
                _ => false,
            };
            if is_minus {
                self.current = self.current + 1;
                match self.unary() {
                    Ok(child) => Ok(Box::new(Expression::Unary(Token::Minus, child))),
                    Err(m) => Err(m),
                }
            } else {
                self.primary()
            }
        } else {
            self.primary()
        }
    }

    /// Parses `primary` at the cursor, as [`primary_spec`] says.
    fn primary(&mut self) -> (r: Result<Box<Expression>, String>)
        requires
            old(self).wf(),
        ensures
            step_agrees(
                *old(self),
                *final(self),
                r,
                primary_spec(old(self).toks(), old(self).current as nat),
            ),
        decreases rem_count(self.toks(), self.current as nat), 1int,
    {
        let n: usize = self.tokens.len();
        if self.current >= n {
            return Err(String::from_str("Unable to create syntax tree"));
        }
        let t = self.tokens[self.current].duplicate();
        match &t {
            Token::OpenParen => {
                self.current = self.current + 1;
                match self.expression() {
                    Ok(child) => {
                        let has_close = self.current < n && (match &self.tokens[self.current] {
                            Token::CloseParen => true,
                            _ => false,
                        });
                        if has_close {
                            self.current = self.current + 1;
                            Ok(Box::new(Expression::Grouping(child)))
                        } else {
                            Err(String::from_str("Missing matching parenthesis ')'"))
                        }
                    },
                    Err(m) => Err(m),
                }
            },
            Token::Cos | Token::Sin | Token::Tan | Token::Sqrt | Token::Floor | Token::Ceil
                | Token::Pow | Token::Log | Token::Max | Token::Min => {
                self.current = self.current + 1;
                self.function(t)
            },
            Token::Number(lexeme) => {
                let lex = lexeme.clone();
                self.current = self.current + 1;
                Ok(Box::new(Expression::Literal(lex)))
            },
            Token::Identifier(name) => {
                let nm = name.clone();
                self.current = self.current + 1;
                Ok(Box::new(Expression::Variable(nm)))
            },
            _ => Err(String::from_str("Unable to create syntax tree")),
        }
    }

    /// Parses the argument list of the function operator just consumed, as
    /// [`function_spec`] says; the cursor stands where `(` must be.
    fn function(&mut self, operator: Token) -> (r: Result<Box<Expression>, String>)
        requires
            old(self).wf(),
        ensures
            step_agrees(
                *old(self),
                *final(self),
                r,
                function_spec(old(self).toks(), old(self).current as nat, operator@),
            ),
        decreases rem_count(self.toks(), self.current as nat), 0int,
    {
        let n: usize = self.tokens.len();
        let has_open = self.current < n && (match &self.tokens[self.current] {
            Token::OpenParen => true,
            _ => false,
        });
        if !has_open {
            let mut m = String::from_str("Missing opening parenthesis '(' after ");
            let op_str = operator.render();
            m.append(op_str.as_str());
            return Err(m);
        }
        self.current = self.current + 1;
        if self.current >= n {
            return Err(String::from_str("Cannot end with opening parenthesis"));
        }
        let single = match &operator {
            Token::Cos | Token::Sin | Token::Tan | Token::Sqrt | Token::Floor | Token::Ceil
                => true,
            _ => false,
        };
        if single {
            return self.single_tail(operator);
        }
        let double = match &operator {
            Token::Pow | Token::Log => true,
            _ => false,
        };
        if double {
            return self.double_tail(operator);
        }
        let multi = match &operator {
            Token::Max | Token::Min => true,
            _ => false,
        };
        if multi {
            return self.multi_tail(operator);
        }
        let mut m = operator.render();
        m.append(" is not a valid function");
        Err(m)
    }

    /// Parses the variadic argument list of a call once `(` is consumed,
    /// as [`multi_tail_spec`] says.
    fn multi_tail(&mut self, operator: Token) -> (r: Result<Box<Expression>, String>)
        requires
            old(self).wf(),
        ensures
            step_agrees(
                *old(self),
                *final(self),
                r,
                multi_tail_spec(old(self).toks(), old(self).current as nat, operator@),
            ),
        decreases rem_count(self.toks(), self.current as nat), 8int,
    {
        let empty_args: Vec<Box<Expression>> = Vec::new();
        proof {
            assert(expr_views_of(empty_args@) =~= Seq::<ExprView>::empty());
        }
        match self.multi_args(empty_args) {
            Ok(args) => {
                proof {
                    lemma_expr_views_len(args@);
                }
                if args.len() < 2 {
                    let mut m = operator.render();
                    m.append(" requires 2 or more arguments");
                    Err(m)
                } else {
                    Ok(Box::new(Expression::MultiArity(operator, args)))
                }
            },
            Err(m) => Err(m),
        }
    }

    /// Parses the argument and closing parenthesis of a one-argument call,
    /// as [`single_tail_spec`] says.
    fn single_tail(&mut self, operator: Token) -> (r: Result<Box<Expression>, String>)
        requires
            old(self).wf(),
        ensures
            step_agrees(
                *old(self),
                *final(self),
                r,
                single_tail_spec(old(self).toks(), old(self).current as nat, operator@),
            ),
        decreases rem_count(self.toks(), self.current as nat), 8int,
    {
        let n: usize = self.tokens.len();
        match self.expression() {
            Ok(arg) => {
                let has_close = self.current < n && (match &self.tokens[self.current] {
                    Token::CloseParen => true,
                    _ => false,
                });
                if has_close {
                    self.current = self.current + 1;
                    Ok(Box::new(Expression::SingleArity(operator, arg)))
                } else {
                    let mut m = String::from_str("Missing closing parenthesis ')' after ");
                    let op_str = operator.render();
                    m.append(op_str.as_str());
                    Err(m)
                }
            },
            Err(m) => Err(m),
        }
    }

    /// Parses both arguments, the comma between them and the closing
    /// parenthesis of a two-argument call, as [`double_tail_spec`] says.
    fn double_tail(&mut self, operator: Token) -> (r: Result<Box<Expression>, String>)
        requires
            old(self).wf(),
        ensures
            step_agrees(
                *old(self),
                *final(self),
                r,
                double_tail_spec(old(self).toks(), old(self).current as nat, operator@),
            ),
        decreases rem_count(self.toks(), self.current as nat), 8int,
    {
        let n: usize = self.tokens.len();
        match self.expression() {
            Ok(first) => {
                let has_comma = self.current < n && (match &self.tokens[self.current] {
                    Token::Comma => true,
                    _ => false,
                });
                if has_comma {
                    self.current = self.current + 1;
                    match self.expression() {
                        Ok(second) => {
                            let has_close = self.current < n && (match &self.tokens[self.current] {
                                Token::CloseParen => true,
                                _ => false,
                            });
                            if has_close {
                                self.current = self.current + 1;
                                Ok(Box::new(Expression::DoubleArity(operator, first, second)))
                            } else {
                                let mut m = String::from_str(
                                    "Missing closing parenthesis ')' after ",
                                );
                                let op_str = operator.render();
                                m.append(op_str.as_str());
                                Err(m)
                            }
                        },
                        Err(m) => Err(m),
                    }
                } else {
                    let mut m = operator.render();
                    m.append(" requires at least two operands");
                    Err(m)
                }
            },
            Err(m) => Err(m),
        }
    }

    /// Parses the comma-separated variadic arguments up to and including
    /// the closing parenthesis, as [`multi_args_spec`] says.
    fn multi_args(&mut self, args: Vec<Box<Expression>>) -> (r: Result<
        Vec<Box<Expression>>,
        String,
    >)
        requires
            old(self).wf(),
        ensures
            final(self).wf(),
            final(self).tokens == old(self).tokens,
            match (
                r,
                multi_args_spec(
                    old(self).toks(),
                    old(self).current as nat,
                    expr_views_of(args@),
                ),
            ) {
                (Ok(v), Ok(p)) => expr_views_of(v@) == p.0 && final(self).current == old(
                    self,
                ).current + p.1,
                (Err(m), Err(q)) => m@ == issue_text(q),
                _ => false,
            },
        decreases rem_count(self.toks(), self.current as nat), 7int,
    {
        let n: usize = self.tokens.len();
        let at_close = self.current < n && (match &self.tokens[self.current] {
            Token::CloseParen => true,
            _ => false,
        });
        if at_close {
            self.current = self.current + 1;
            return Ok(args);
        }
        match self.expression() {
            Err(m) => Err(m),
            Ok(e) => {
                let at_close2 = self.current < n && (match &self.tokens[self.current] {
                    Token::CloseParen => true,
                    _ => false,
                });
                if at_close2 {
                    self.current = self.current + 1;
                    let ghost before = args@;
                    let mut grown = args;
                    grown.push(e);
                    proof {
                        assert(grown@.drop_last() =~= before);
                    }
                    Ok(grown)
                } else {
                    let at_comma = self.current < n && (match &self.tokens[self.current] {
                        Token::Comma => true,
                        _ => false,
                    });
                    if at_comma {
                        self.current = self.current + 1;
                        let trailing = self.current < n && (match &self.tokens[self.current] {
                            Token::CloseParen => true,
                            _ => false,
                        });
                        if trailing {
                            Err(String::from_str("Trailing commas are not allowed"))
                        } else {
                            let ghost before = args@;
                            let mut grown = args;
                            grown.push(e);
                            proof {
                                assert(grown@.drop_last() =~= before);
                            }
                            self.multi_args(grown)
                        }
                    } else {
                        Err(String::from_str("Either missing comma or close parenthesis"))
                    }
                }
            },
        }
    }
}

} // verus!
