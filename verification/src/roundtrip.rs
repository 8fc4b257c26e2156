//! Round-trip stability of rendering, proved for small expressions.
//!
//! A tree built by the parser renders to text, the text scans back to
//! tokens, and the tokens parse back to a tree.  The laws here prove the
//! round trip for the leaf forms of the grammar — a numeric literal and a
//! variable reference — and for composite forms one level up: the negation
//! of a literal, a binary operation on two literals under every arithmetic
//! operator, a parenthesized literal, function calls of every arity on
//! literal arguments, and an assignment of a literal to a name — one
//! instance of every node of the tree.  In each case the rendered text
//! of the tree scans back to exactly the original tokens, and those parse
//! back to exactly the original tree.

use vstd::prelude::*;

use crate::ast::{
    args_text, double_tail_spec, expr_text, expression_spec, factor_rest_spec, factor_spec,
    function_spec, multi_args_spec, multi_tail_spec, parse_tokens_spec, primary_spec,
    single_tail_spec, term_rest_spec, term_spec, unary_spec, ExprView, ParseIssue,
};
use crate::scanner::{
    digits_end, is_alpha_char, is_digit_char, is_identifier_word, is_space_char, is_word_char,
    keyword_of, lemma_digits_end_span, lemma_number_end_span, lemma_word_end_span, number_end,
    scan_spec, symbol_token, word_end, ScanIssue,
};
use crate::token::{token_text, TokenView};

verus! {

/// The shape of a numeric-literal lexeme as the scanner produces it:
/// it starts with a digit and the numeric-literal rule consumes all of it.
pub open spec fn numeric_lexeme(s: Seq<char>) -> bool {
    s.len() > 0 && is_digit_char(s[0]) && number_end(s, 0) == s.len()
}

/// The shape of an identifier lexeme as the scanner produces it: it starts
/// with a letter, the word rule consumes all of it, it is purely
/// alphanumeric, and it is no keyword.
pub open spec fn identifier_lexeme(s: Seq<char>) -> bool {
    &&& s.len() > 0
    &&& is_alpha_char(s[0])
    &&& word_end(s, 0) == s.len()
    &&& keyword_of(s) is None
    &&& is_identifier_word(s)
}

/// A single-token expression parses to its leaf tree and consumes the
/// whole sequence, for a numeric literal or a variable reference.
proof fn lemma_leaf_parses(t: TokenView, leaf: ExprView)
    requires
        t matches TokenView::Number(lexeme) ==> leaf == ExprView::Literal(lexeme),
        t matches TokenView::Identifier(name) ==> leaf == ExprView::Variable(name),
        t is Number || t is Identifier,
    ensures
        parse_tokens_spec(seq![t]) == Ok::<ExprView, ParseIssue>(leaf),
{
    let ts = seq![t];
    assert(ts.len() == 1 && ts[0] == t);
    assert(primary_spec(ts, 0) == Ok::<(ExprView, nat), ParseIssue>((leaf, 1nat)));
    assert(unary_spec(ts, 0) == primary_spec(ts, 0));
    assert(factor_rest_spec(ts, 1, leaf) == Ok::<(ExprView, nat), ParseIssue>((leaf, 0nat)));
    assert(factor_spec(ts, 0) == Ok::<(ExprView, nat), ParseIssue>((leaf, 1nat)));
    assert(term_rest_spec(ts, 1, leaf) == Ok::<(ExprView, nat), ParseIssue>((leaf, 0nat)));
    assert(term_spec(ts, 0) == Ok::<(ExprView, nat), ParseIssue>((leaf, 1nat)));
    assert(expression_spec(ts, 0) == Ok::<(ExprView, nat), ParseIssue>((leaf, 1nat)));
}

/// Round-trip stability for a numeric literal: the tree renders to its
/// lexeme, the lexeme scans back to exactly the literal token, and that
/// token parses back to exactly the same tree.
pub proof fn lemma_literal_round_trip(lexeme: Seq<char>)
    requires
        numeric_lexeme(lexeme),
    ensures
        expr_text(ExprView::Literal(lexeme)) == lexeme,
        scan_spec(lexeme, 0) == Ok::<Seq<TokenView>, ScanIssue>(seq![TokenView::Number(lexeme)]),
        parse_tokens_spec(seq![TokenView::Number(lexeme)]) == Ok::<ExprView, ParseIssue>(
            ExprView::Literal(lexeme),
        ),
{
    assert(lexeme.subrange(0, lexeme.len() as int) =~= lexeme);
    assert(scan_spec(lexeme, lexeme.len() as nat) == Ok::<Seq<TokenView>, ScanIssue>(
        Seq::empty(),
    ));
    assert(seq![TokenView::Number(lexeme)] + Seq::<TokenView>::empty() =~= seq![
        TokenView::Number(lexeme),
    ]);
    lemma_leaf_parses(TokenView::Number(lexeme), ExprView::Literal(lexeme));
}

/// A digit run read inside a longer text is the digit run of the suffix,
/// shifted.
proof fn lemma_digits_end_shift(s: Seq<char>, off: nat, j: nat)
    requires
        off + j <= s.len(),
    ensures
        digits_end(s, off + j) == off + digits_end(s.skip(off as int), j),
    decreases s.len() - off - j,
{
    let t = s.skip(off as int);
    if off + j < s.len() {
        assert(t[j as int] == s[(off + j) as int]);
        if is_digit_char(s[(off + j) as int]) {
            lemma_digits_end_shift(s, off, j + 1);
        }
    }
}

/// A word read inside a longer text is the word of the suffix, shifted.
proof fn lemma_word_end_shift(s: Seq<char>, off: nat, j: nat)
    requires
        off + j <= s.len(),
    ensures
        word_end(s, off + j) == off + word_end(s.skip(off as int), j),
    decreases s.len() - off - j,
{
    let t = s.skip(off as int);
    if off + j < s.len() {
        assert(t[j as int] == s[(off + j) as int]);
        if is_word_char(s[(off + j) as int]) {
            lemma_word_end_shift(s, off, j + 1);
        }
    }
}

/// A numeric literal read inside a longer text is the literal of the
/// suffix, shifted.
proof fn lemma_number_end_shift(s: Seq<char>, off: nat, j: nat)
    requires
        off + j <= s.len(),
    ensures
        number_end(s, off + j) == off + number_end(s.skip(off as int), j),
{
    let t = s.skip(off as int);
    lemma_digits_end_shift(s, off, j);
    let d = digits_end(s, (off + j) as nat);
    let dt = digits_end(t, j);
    lemma_digits_end_span(s, (off + j) as nat);
    if d < s.len() {
        assert(t[dt as int] == s[d as int]);
    }
    if d < s.len() && s[d as int] == '.' && d + 1 < s.len() && is_digit_char(
        s[(d + 1) as int],
    ) {
        assert(t[(dt + 1) as int] == s[(d + 1) as int]);
        lemma_digits_end_shift(s, off, (dt + 1) as nat);
    }
}

/// Scanning from a position inside a longer text sees exactly what
/// scanning the suffix from its start sees, whenever the suffix scans
/// without error.
proof fn lemma_scan_ok_shift(s: Seq<char>, off: nat, j: nat)
    requires
        off + j <= s.len(),
        scan_spec(s.skip(off as int), j) is Ok,
    ensures
        scan_spec(s, off + j) == scan_spec(s.skip(off as int), j),
    decreases s.len() - off - j,
{
    let t = s.skip(off as int);
    if off + j < s.len() {
        let c = s[(off + j) as int];
        assert(t[j as int] == c);
        if is_space_char(c) {
            lemma_scan_ok_shift(s, off, j + 1);
        } else if symbol_token(c) is Some {
            lemma_scan_ok_shift(s, off, j + 1);
        } else if is_digit_char(c) {
            lemma_number_end_shift(s, off, j);
            let e = number_end(t, j);
            lemma_number_end_span(t, j);
            assert(s.subrange((off + j) as int, (off + e) as int) =~= t.subrange(
                j as int,
                e as int,
            ));
            lemma_scan_ok_shift(s, off, e);
        } else if is_alpha_char(c) {
            lemma_word_end_shift(s, off, j);
            let e = word_end(t, j);
            lemma_word_end_span(t, j);
            assert(s.subrange((off + j) as int, (off + e) as int) =~= t.subrange(
                j as int,
                e as int,
            ));
            lemma_scan_ok_shift(s, off, e);
        }
    }
}

/// Round-trip stability for negation of a literal: the tree renders to a
/// minus sign followed by the lexeme, that text scans back to exactly the
/// two original tokens, and those parse back to exactly the same tree.
pub proof fn lemma_negated_literal_round_trip(lexeme: Seq<char>)
    requires
        numeric_lexeme(lexeme),
    ensures
        expr_text(
            ExprView::Unary(TokenView::Minus, Box::new(ExprView::Literal(lexeme))),
        ) == "-"@ + lexeme,
        scan_spec("-"@ + lexeme, 0) == Ok::<Seq<TokenView>, ScanIssue>(
            seq![TokenView::Minus, TokenView::Number(lexeme)],
        ),
        parse_tokens_spec(seq![TokenView::Minus, TokenView::Number(lexeme)]) == Ok::<
            ExprView,
            ParseIssue,
        >(ExprView::Unary(TokenView::Minus, Box::new(ExprView::Literal(lexeme)))),
{
    let s = "-"@ + lexeme;
    let tree = ExprView::Unary(TokenView::Minus, Box::new(ExprView::Literal(lexeme)));
    reveal_strlit("-");
    // Rendering.
    assert(expr_text(tree) == token_text(TokenView::Minus) + expr_text(
        ExprView::Literal(lexeme),
    ));
    // Scanning: the minus sign, then the literal, by the shift law.
    assert(s.len() == 1 + lexeme.len());
    assert(s[0] == '-');
    assert(s.skip(1) =~= lexeme);
    lemma_literal_round_trip(lexeme);
    lemma_scan_ok_shift(s, 1, 0);
    assert(scan_spec(s, 1) == Ok::<Seq<TokenView>, ScanIssue>(seq![TokenView::Number(lexeme)]));
    assert(seq![TokenView::Minus] + seq![TokenView::Number(lexeme)] =~= seq![
        TokenView::Minus,
        TokenView::Number(lexeme),
    ]);
    // Parsing.
    let ts = seq![TokenView::Minus, TokenView::Number(lexeme)];
    let leaf = ExprView::Literal(lexeme);
    assert(ts.len() == 2 && ts[0] == TokenView::Minus && ts[1] == TokenView::Number(lexeme));
    assert(primary_spec(ts, 1) == Ok::<(ExprView, nat), ParseIssue>((leaf, 1nat)));
    assert(unary_spec(ts, 1) == primary_spec(ts, 1));
    assert(unary_spec(ts, 0) == Ok::<(ExprView, nat), ParseIssue>((tree, 2nat)));
    assert(factor_rest_spec(ts, 2, tree) == Ok::<(ExprView, nat), ParseIssue>((tree, 0nat)));
    assert(factor_spec(ts, 0) == Ok::<(ExprView, nat), ParseIssue>((tree, 2nat)));
    assert(term_rest_spec(ts, 2, tree) == Ok::<(ExprView, nat), ParseIssue>((tree, 0nat)));
    assert(term_spec(ts, 0) == Ok::<(ExprView, nat), ParseIssue>((tree, 2nat)));
    assert(expression_spec(ts, 0) == Ok::<(ExprView, nat), ParseIssue>((tree, 2nat)));
}

/// A digit run stays within the first part of a concatenation when the
/// second part opens with no digit.
proof fn lemma_digits_end_concat(a: Seq<char>, b: Seq<char>, j: nat)
    requires
        j <= a.len(),
        b.len() > 0,
        !is_digit_char(b[0]),
    ensures
        digits_end(a + b, j) == digits_end(a, j),
    decreases a.len() - j,
{
    let s = a + b;
    if j < a.len() {
        assert(s[j as int] == a[j as int]);
        if is_digit_char(a[j as int]) {
            lemma_digits_end_concat(a, b, j + 1);
        }
    } else {
        assert(s[j as int] == b[0]);
    }
}

/// A whole numeric lexeme stays one numeric literal when text follows it
/// that opens with neither a digit nor a dot.
proof fn lemma_numeric_prefix(a: Seq<char>, b: Seq<char>)
    requires
        numeric_lexeme(a),
        b.len() > 0,
        !is_digit_char(b[0]),
        b[0] != '.',
    ensures
        number_end(a + b, 0) == a.len(),
{
    let s = a + b;
    lemma_digits_end_concat(a, b, 0);
    lemma_digits_end_span(a, 0);
    let d = digits_end(a, 0);
    if d < a.len() && a[d as int] == '.' && d + 1 < a.len() && is_digit_char(a[(d + 1) as int]) {
        assert(s[d as int] == a[d as int]);
        assert(s[(d + 1) as int] == a[(d + 1) as int]);
        lemma_digits_end_concat(a, b, (d + 1) as nat);
    } else {
        assert(d == a.len());
        assert(s[d as int] == b[0]);
    }
}

/// The text of each binary operator is its one symbol character, and that
/// character scans back to the operator.
proof fn lemma_binary_op_symbol(op: TokenView)
    requires
        op == TokenView::Plus || op == TokenView::Minus || op == TokenView::Star || op
            == TokenView::Slash || op == TokenView::Percent,
    ensures
        token_text(op).len() == 1,
        symbol_token(token_text(op)[0]) == Some(op),
        !is_space_char(token_text(op)[0]),
{
    reveal_strlit("+");
    reveal_strlit("-");
    reveal_strlit("*");
    reveal_strlit("/");
    reveal_strlit("%");
}

/// Scanning half of the binary round trip: the rendered text of a binary
/// operation on two literals scans back to exactly its three tokens.
proof fn lemma_binary_scan(op: TokenView, first: Seq<char>, second: Seq<char>)
    requires
        numeric_lexeme(first),
        numeric_lexeme(second),
        op == TokenView::Plus || op == TokenView::Minus || op == TokenView::Star || op
            == TokenView::Slash || op == TokenView::Percent,
    ensures
        scan_spec(first + " "@ + token_text(op) + " "@ + second, 0) == Ok::<
            Seq<TokenView>,
            ScanIssue,
        >(seq![TokenView::Number(first), op, TokenView::Number(second)]),
{
    reveal_strlit(" ");
    lemma_binary_op_symbol(op);
    let tok = token_text(op);
    let s = first + " "@ + tok + " "@ + second;
    let n1 = first.len();
    // The layout of the rendered text.
    assert(s.len() == n1 + 3 + second.len());
    assert(forall|i: int| 0 <= i < n1 ==> s[i] == first[i]);
    assert(s[n1 as int] == ' ');
    assert(s[(n1 + 1) as int] == tok[0]);
    assert(s[(n1 + 2) as int] == ' ');
    // The second lexeme scans on its own, shifted into place.
    assert(s.skip((n1 + 3) as int) =~= second);
    lemma_literal_round_trip(second);
    lemma_scan_ok_shift(s, (n1 + 3) as nat, 0);
    assert(scan_spec(s, (n1 + 3) as nat) == Ok::<Seq<TokenView>, ScanIssue>(
        seq![TokenView::Number(second)],
    ));
    // The operator and the spaces around it.
    assert(scan_spec(s, (n1 + 2) as nat) == scan_spec(s, (n1 + 3) as nat));
    assert(scan_spec(s, (n1 + 1) as nat) == Ok::<Seq<TokenView>, ScanIssue>(
        seq![op] + seq![TokenView::Number(second)],
    ));
    assert(scan_spec(s, n1 as nat) == scan_spec(s, (n1 + 1) as nat));
    // The first lexeme is one numeric literal despite the text after it.
    assert(s =~= first + (" "@ + tok + " "@ + second));
    lemma_numeric_prefix(first, " "@ + tok + " "@ + second);
    assert(number_end(s, 0) == n1);
    assert(s.subrange(0, n1 as int) =~= first);
    assert(scan_spec(s, 0) == Ok::<Seq<TokenView>, ScanIssue>(
        seq![TokenView::Number(first)] + (seq![op] + seq![TokenView::Number(second)]),
    ));
    assert(seq![TokenView::Number(first)] + (seq![op] + seq![TokenView::Number(second)]) =~= seq![
        TokenView::Number(first),
        op,
        TokenView::Number(second),
    ]);
}

/// Parsing half of the binary round trip: the three tokens of a binary
/// operation on two literals parse back to exactly its tree.
proof fn lemma_binary_parse(op: TokenView, first: Seq<char>, second: Seq<char>)
    requires
        op == TokenView::Plus || op == TokenView::Minus || op == TokenView::Star || op
            == TokenView::Slash || op == TokenView::Percent,
    ensures
        parse_tokens_spec(seq![TokenView::Number(first), op, TokenView::Number(second)]) == Ok::<
            ExprView,
            ParseIssue,
        >(
            ExprView::Binary(
                op,
                Box::new(ExprView::Literal(first)),
                Box::new(ExprView::Literal(second)),
            ),
        ),
{
    let ts = seq![TokenView::Number(first), op, TokenView::Number(second)];
    let leaf1 = ExprView::Literal(first);
    let leaf2 = ExprView::Literal(second);
    let tree = ExprView::Binary(op, Box::new(leaf1), Box::new(leaf2));
    assert(ts.len() == 3 && ts[0] == TokenView::Number(first) && ts[1] == op && ts[2]
        == TokenView::Number(second));
    assert(primary_spec(ts, 0) == Ok::<(ExprView, nat), ParseIssue>((leaf1, 1nat)));
    assert(unary_spec(ts, 0) == primary_spec(ts, 0));
    assert(primary_spec(ts, 2) == Ok::<(ExprView, nat), ParseIssue>((leaf2, 1nat)));
    assert(unary_spec(ts, 2) == primary_spec(ts, 2));
    if op == TokenView::Star || op == TokenView::Slash || op == TokenView::Percent {
        assert(factor_rest_spec(ts, 3, tree) == Ok::<(ExprView, nat), ParseIssue>((tree, 0nat)));
        assert(factor_rest_spec(ts, 1, leaf1) == Ok::<(ExprView, nat), ParseIssue>((tree, 2nat)));
        assert(factor_spec(ts, 0) == Ok::<(ExprView, nat), ParseIssue>((tree, 3nat)));
        assert(term_rest_spec(ts, 3, tree) == Ok::<(ExprView, nat), ParseIssue>((tree, 0nat)));
        assert(term_spec(ts, 0) == Ok::<(ExprView, nat), ParseIssue>((tree, 3nat)));
    } else {
        assert(factor_rest_spec(ts, 1, leaf1) == Ok::<(ExprView, nat), ParseIssue>((leaf1, 0nat)));
        assert(factor_spec(ts, 0) == Ok::<(ExprView, nat), ParseIssue>((leaf1, 1nat)));
        assert(factor_rest_spec(ts, 3, leaf2) == Ok::<(ExprView, nat), ParseIssue>((leaf2, 0nat)));
        assert(factor_spec(ts, 2) == Ok::<(ExprView, nat), ParseIssue>((leaf2, 1nat)));
        assert(term_rest_spec(ts, 3, tree) == Ok::<(ExprView, nat), ParseIssue>((tree, 0nat)));
        assert(term_rest_spec(ts, 1, leaf1) == Ok::<(ExprView, nat), ParseIssue>((tree, 2nat)));
        assert(term_spec(ts, 0) == Ok::<(ExprView, nat), ParseIssue>((tree, 3nat)));
    }
    assert(expression_spec(ts, 0) == Ok::<(ExprView, nat), ParseIssue>((tree, 3nat)));
}

/// Round-trip stability for a binary operation on two literals: the tree
/// renders to the two lexemes around the spaced operator, that text scans
/// back to exactly the three original tokens, and those parse back to
/// exactly the same tree.
pub proof fn lemma_binary_literal_round_trip(op: TokenView, first: Seq<char>, second: Seq<char>)
    requires
        numeric_lexeme(first),
        numeric_lexeme(second),
        op == TokenView::Plus || op == TokenView::Minus || op == TokenView::Star || op
            == TokenView::Slash || op == TokenView::Percent,
    ensures
        expr_text(
            ExprView::Binary(
                op,
                Box::new(ExprView::Literal(first)),
                Box::new(ExprView::Literal(second)),
            ),
        ) == first + " "@ + token_text(op) + " "@ + second,
        scan_spec(first + " "@ + token_text(op) + " "@ + second, 0) == Ok::<
            Seq<TokenView>,
            ScanIssue,
        >(seq![TokenView::Number(first), op, TokenView::Number(second)]),
        parse_tokens_spec(seq![TokenView::Number(first), op, TokenView::Number(second)]) == Ok::<
            ExprView,
            ParseIssue,
        >(
            ExprView::Binary(
                op,
                Box::new(ExprView::Literal(first)),
                Box::new(ExprView::Literal(second)),
            ),
        ),
{
    assert(expr_text(ExprView::Literal(first)) == first);
    assert(expr_text(ExprView::Literal(second)) == second);
    assert(expr_text(
        ExprView::Binary(
            op,
            Box::new(ExprView::Literal(first)),
            Box::new(ExprView::Literal(second)),
        ),
    ) == first + " "@ + token_text(op) + " "@ + second);
    lemma_binary_scan(op, first, second);
    lemma_binary_parse(op, first, second);
}

/// Round-trip stability for a parenthesized literal: the tree renders to
/// the lexeme between parentheses, that text scans back to exactly the
/// three original tokens, and those parse back to exactly the same tree.
pub proof fn lemma_grouped_literal_round_trip(lexeme: Seq<char>)
    requires
        numeric_lexeme(lexeme),
    ensures
        expr_text(ExprView::Grouping(Box::new(ExprView::Literal(lexeme)))) == "("@ + lexeme
            + ")"@,
        scan_spec("("@ + lexeme + ")"@, 0) == Ok::<Seq<TokenView>, ScanIssue>(
            seq![TokenView::OpenParen, TokenView::Number(lexeme), TokenView::CloseParen],
        ),
        parse_tokens_spec(
            seq![TokenView::OpenParen, TokenView::Number(lexeme), TokenView::CloseParen],
        ) == Ok::<ExprView, ParseIssue>(ExprView::Grouping(Box::new(ExprView::Literal(lexeme)))),
{
    reveal_strlit("(");
    reveal_strlit(")");
    assert(expr_text(ExprView::Literal(lexeme)) == lexeme);
    assert(expr_text(ExprView::Grouping(Box::new(ExprView::Literal(lexeme)))) == "("@ + lexeme
        + ")"@);
    let s = "("@ + lexeme + ")"@;
    let n = lexeme.len();
    assert(s.len() == n + 2);
    assert(s[0] == '(');
    assert(s[(n + 1) as int] == ')');
    // The literal, shifted past the opening parenthesis and stopped by the
    // closing one.
    assert(s.skip(1) =~= lexeme + ")"@);
    lemma_numeric_prefix(lexeme, ")"@);
    lemma_number_end_shift(s, 1, 0);
    assert(number_end(s, 1) == 1 + n);
    assert(forall|i: int| 0 <= i < n ==> s[i + 1] == lexeme[i]);
    assert(s.subrange(1, (n + 1) as int) =~= lexeme);
    // Scanning, token by token.
    assert(scan_spec(s, (n + 2) as nat) == Ok::<Seq<TokenView>, ScanIssue>(Seq::empty()));
    assert(scan_spec(s, (n + 1) as nat) == Ok::<Seq<TokenView>, ScanIssue>(
        seq![TokenView::CloseParen] + Seq::<TokenView>::empty(),
    ));
    assert(scan_spec(s, 1) == Ok::<Seq<TokenView>, ScanIssue>(
        seq![TokenView::Number(lexeme)] + (seq![TokenView::CloseParen]
            + Seq::<TokenView>::empty()),
    ));
    assert(scan_spec(s, 0) == Ok::<Seq<TokenView>, ScanIssue>(
        seq![TokenView::OpenParen] + (seq![TokenView::Number(lexeme)] + (seq![
            TokenView::CloseParen,
        ] + Seq::<TokenView>::empty())),
    ));
    assert(seq![TokenView::OpenParen] + (seq![TokenView::Number(lexeme)] + (seq![
        TokenView::CloseParen,
    ] + Seq::<TokenView>::empty())) =~= seq![
        TokenView::OpenParen,
        TokenView::Number(lexeme),
        TokenView::CloseParen,
    ]);
    // Parsing the three tokens back into the grouped literal.
    let ts = seq![TokenView::OpenParen, TokenView::Number(lexeme), TokenView::CloseParen];
    let leaf = ExprView::Literal(lexeme);
    let tree = ExprView::Grouping(Box::new(leaf));
    assert(ts.len() == 3 && ts[0] == TokenView::OpenParen && ts[1] == TokenView::Number(lexeme)
        && ts[2] == TokenView::CloseParen);
    assert(primary_spec(ts, 1) == Ok::<(ExprView, nat), ParseIssue>((leaf, 1nat)));
    assert(unary_spec(ts, 1) == primary_spec(ts, 1));
    assert(factor_rest_spec(ts, 2, leaf) == Ok::<(ExprView, nat), ParseIssue>((leaf, 0nat)));
    assert(factor_spec(ts, 1) == Ok::<(ExprView, nat), ParseIssue>((leaf, 1nat)));
    assert(term_rest_spec(ts, 2, leaf) == Ok::<(ExprView, nat), ParseIssue>((leaf, 0nat)));
    assert(term_spec(ts, 1) == Ok::<(ExprView, nat), ParseIssue>((leaf, 1nat)));
    assert(expression_spec(ts, 1) == Ok::<(ExprView, nat), ParseIssue>((leaf, 1nat)));
    assert(primary_spec(ts, 0) == Ok::<(ExprView, nat), ParseIssue>((tree, 3nat)));
    assert(unary_spec(ts, 0) == primary_spec(ts, 0));
    assert(factor_rest_spec(ts, 3, tree) == Ok::<(ExprView, nat), ParseIssue>((tree, 0nat)));
    assert(factor_spec(ts, 0) == Ok::<(ExprView, nat), ParseIssue>((tree, 3nat)));
    assert(term_rest_spec(ts, 3, tree) == Ok::<(ExprView, nat), ParseIssue>((tree, 0nat)));
    assert(term_spec(ts, 0) == Ok::<(ExprView, nat), ParseIssue>((tree, 3nat)));
    assert(expression_spec(ts, 0) == Ok::<(ExprView, nat), ParseIssue>((tree, 3nat)));
}

/// A word stays within the first part of a concatenation when the second
/// part opens with no word character.
proof fn lemma_word_end_concat(a: Seq<char>, b: Seq<char>, j: nat)
    requires
        j <= a.len(),
        b.len() > 0,
        !is_word_char(b[0]),
    ensures
        word_end(a + b, j) == word_end(a, j),
    decreases a.len() - j,
{
    let s = a + b;
    if j < a.len() {
        assert(s[j as int] == a[j as int]);
        if is_word_char(a[j as int]) {
            lemma_word_end_concat(a, b, j + 1);
        }
    } else {
        assert(s[j as int] == b[0]);
    }
}

/// The word rule consumes a text made of word characters whole.
proof fn lemma_word_end_all(a: Seq<char>, j: nat)
    requires
        j <= a.len(),
        forall|k: int| j <= k < a.len() ==> is_word_char(a[k]),
    ensures
        word_end(a, j) == a.len(),
    decreases a.len() - j,
{
    if j < a.len() {
        lemma_word_end_all(a, j + 1);
    }
}

/// Two texts differ when their first characters differ.
proof fn lemma_seq_ne_first(a: Seq<char>, b: Seq<char>)
    requires
        a.len() > 0,
        b.len() > 0,
        a[0] != b[0],
    ensures
        a != b,
{
}

/// Two texts differ when their lengths differ.
proof fn lemma_seq_ne_len(a: Seq<char>, b: Seq<char>)
    requires
        a.len() != b.len(),
    ensures
        a != b,
{
}

/// The text of each one-argument operator is a purely alphabetic keyword
/// that resolves back to the operator.
proof fn lemma_single_op_word(op: TokenView)
    requires
        op == TokenView::Cos || op == TokenView::Sin || op == TokenView::Tan || op
            == TokenView::Sqrt || op == TokenView::Floor || op == TokenView::Ceil,
    ensures
        token_text(op).len() > 0,
        forall|k: int| 0 <= k < token_text(op).len() ==> is_word_char(#[trigger] token_text(
            op,
        )[k]),
        is_alpha_char(token_text(op)[0]),
        keyword_of(token_text(op)) == Some(op),
{
    reveal_strlit("max");
    reveal_strlit("min");
    reveal_strlit("sqrt");
    reveal_strlit("pow");
    reveal_strlit("cos");
    reveal_strlit("sin");
    reveal_strlit("tan");
    reveal_strlit("log");
    reveal_strlit("floor");
    reveal_strlit("ceil");
    reveal_strlit("let");
    let tok = token_text(op);
    assert forall|k: int| 0 <= k < tok.len() implies is_word_char(#[trigger] tok[k]) by {
        assert(k == 0 || k == 1 || k == 2 || k == 3 || k == 4);
    }
    if op == TokenView::Cos {
        lemma_seq_ne_first("cos"@, "max"@);
        lemma_seq_ne_first("cos"@, "min"@);
        lemma_seq_ne_len("cos"@, "sqrt"@);
        lemma_seq_ne_first("cos"@, "pow"@);
        assert(keyword_of("cos"@) == Some(TokenView::Cos));
    } else if op == TokenView::Sin {
        lemma_seq_ne_first("sin"@, "max"@);
        lemma_seq_ne_first("sin"@, "min"@);
        lemma_seq_ne_len("sin"@, "sqrt"@);
        lemma_seq_ne_first("sin"@, "pow"@);
        lemma_seq_ne_first("sin"@, "cos"@);
        assert(keyword_of("sin"@) == Some(TokenView::Sin));
    } else if op == TokenView::Tan {
        lemma_seq_ne_first("tan"@, "max"@);
        lemma_seq_ne_first("tan"@, "min"@);
        lemma_seq_ne_len("tan"@, "sqrt"@);
        lemma_seq_ne_first("tan"@, "pow"@);
        lemma_seq_ne_first("tan"@, "cos"@);
        lemma_seq_ne_first("tan"@, "sin"@);
        assert(keyword_of("tan"@) == Some(TokenView::Tan));
    } else if op == TokenView::Sqrt {
        lemma_seq_ne_len("sqrt"@, "max"@);
        lemma_seq_ne_len("sqrt"@, "min"@);
        assert(keyword_of("sqrt"@) == Some(TokenView::Sqrt));
    } else if op == TokenView::Floor {
        lemma_seq_ne_len("floor"@, "max"@);
        lemma_seq_ne_len("floor"@, "min"@);
        lemma_seq_ne_len("floor"@, "sqrt"@);
        lemma_seq_ne_len("floor"@, "pow"@);
        lemma_seq_ne_len("floor"@, "cos"@);
        lemma_seq_ne_len("floor"@, "sin"@);
        lemma_seq_ne_len("floor"@, "tan"@);
        lemma_seq_ne_len("floor"@, "log"@);
        assert(keyword_of("floor"@) == Some(TokenView::Floor));
    } else {
        lemma_seq_ne_len("ceil"@, "max"@);
        lemma_seq_ne_len("ceil"@, "min"@);
        lemma_seq_ne_first("ceil"@, "sqrt"@);
        lemma_seq_ne_len("ceil"@, "pow"@);
        lemma_seq_ne_len("ceil"@, "cos"@);
        lemma_seq_ne_len("ceil"@, "sin"@);
        lemma_seq_ne_len("ceil"@, "tan"@);
        lemma_seq_ne_len("ceil"@, "log"@);
        lemma_seq_ne_len("ceil"@, "floor"@);
        assert(keyword_of("ceil"@) == Some(TokenView::Ceil));
    }
}

/// Scanning half of the call round trip: the rendered text of a
/// one-argument call on a literal scans back to exactly its four tokens.
proof fn lemma_single_call_scan(op: TokenView, lexeme: Seq<char>)
    requires
        numeric_lexeme(lexeme),
        op == TokenView::Cos || op == TokenView::Sin || op == TokenView::Tan || op
            == TokenView::Sqrt || op == TokenView::Floor || op == TokenView::Ceil,
    ensures
        scan_spec(token_text(op) + "("@ + lexeme + ")"@, 0) == Ok::<Seq<TokenView>, ScanIssue>(
            seq![op, TokenView::OpenParen, TokenView::Number(lexeme), TokenView::CloseParen],
        ),
{
    reveal_strlit("(");
    lemma_single_op_word(op);
    let tok = token_text(op);
    let m = tok.len();
    let rest = "("@ + lexeme + ")"@;
    let s = token_text(op) + "("@ + lexeme + ")"@;
    assert(s =~= tok + rest);
    // The parenthesized literal scans on its own, shifted past the keyword.
    lemma_grouped_literal_round_trip(lexeme);
    assert((tok + rest).skip(m as int) =~= rest);
    lemma_scan_ok_shift(tok + rest, m, 0);
    assert(scan_spec(tok + rest, m) == Ok::<Seq<TokenView>, ScanIssue>(
        seq![TokenView::OpenParen, TokenView::Number(lexeme), TokenView::CloseParen],
    ));
    // The keyword itself, stopped by the opening parenthesis.
    assert((tok + rest)[0] == tok[0]);
    assert(rest[0] == '(');
    lemma_word_end_concat(tok, rest, 0);
    lemma_word_end_all(tok, 0);
    assert(word_end(tok + rest, 0) == m);
    assert((tok + rest).subrange(0, m as int) =~= tok);
    assert(scan_spec(tok + rest, 0) == Ok::<Seq<TokenView>, ScanIssue>(
        seq![op] + seq![TokenView::OpenParen, TokenView::Number(lexeme), TokenView::CloseParen],
    ));
    assert(seq![op] + seq![
        TokenView::OpenParen,
        TokenView::Number(lexeme),
        TokenView::CloseParen,
    ] =~= seq![op, TokenView::OpenParen, TokenView::Number(lexeme), TokenView::CloseParen]);
}

/// Parsing half of the call round trip: the four tokens of a one-argument
/// call on a literal parse back to exactly its tree.
proof fn lemma_single_call_parse(op: TokenView, lexeme: Seq<char>)
    requires
        op == TokenView::Cos || op == TokenView::Sin || op == TokenView::Tan || op
            == TokenView::Sqrt || op == TokenView::Floor || op == TokenView::Ceil,
    ensures
        parse_tokens_spec(
            seq![op, TokenView::OpenParen, TokenView::Number(lexeme), TokenView::CloseParen],
        ) == Ok::<ExprView, ParseIssue>(
            ExprView::SingleArity(op, Box::new(ExprView::Literal(lexeme))),
        ),
{
    let ts = seq![op, TokenView::OpenParen, TokenView::Number(lexeme), TokenView::CloseParen];
    let leaf = ExprView::Literal(lexeme);
    let tree = ExprView::SingleArity(op, Box::new(leaf));
    assert(ts.len() == 4 && ts[0] == op && ts[1] == TokenView::OpenParen && ts[2]
        == TokenView::Number(lexeme) && ts[3] == TokenView::CloseParen);
    assert(primary_spec(ts, 2) == Ok::<(ExprView, nat), ParseIssue>((leaf, 1nat)));
    assert(unary_spec(ts, 2) == primary_spec(ts, 2));
    assert(factor_rest_spec(ts, 3, leaf) == Ok::<(ExprView, nat), ParseIssue>((leaf, 0nat)));
    assert(factor_spec(ts, 2) == Ok::<(ExprView, nat), ParseIssue>((leaf, 1nat)));
    assert(term_rest_spec(ts, 3, leaf) == Ok::<(ExprView, nat), ParseIssue>((leaf, 0nat)));
    assert(term_spec(ts, 2) == Ok::<(ExprView, nat), ParseIssue>((leaf, 1nat)));
    assert(expression_spec(ts, 2) == Ok::<(ExprView, nat), ParseIssue>((leaf, 1nat)));
    assert(single_tail_spec(ts, 2, op) == Ok::<(ExprView, nat), ParseIssue>((tree, 2nat)));
    assert(function_spec(ts, 1, op) == Ok::<(ExprView, nat), ParseIssue>((tree, 3nat)));
    assert(primary_spec(ts, 0) == Ok::<(ExprView, nat), ParseIssue>((tree, 4nat)));
    assert(unary_spec(ts, 0) == primary_spec(ts, 0));
    assert(factor_rest_spec(ts, 4, tree) == Ok::<(ExprView, nat), ParseIssue>((tree, 0nat)));
    assert(factor_spec(ts, 0) == Ok::<(ExprView, nat), ParseIssue>((tree, 4nat)));
    assert(term_rest_spec(ts, 4, tree) == Ok::<(ExprView, nat), ParseIssue>((tree, 0nat)));
    assert(term_spec(ts, 0) == Ok::<(ExprView, nat), ParseIssue>((tree, 4nat)));
    assert(expression_spec(ts, 0) == Ok::<(ExprView, nat), ParseIssue>((tree, 4nat)));
}

/// Round-trip stability for a one-argument call on a literal: the tree
/// renders to the keyword, the parenthesized lexeme and nothing else, that
/// text scans back to exactly the four original tokens, and those parse
/// back to exactly the same tree.
pub proof fn lemma_single_call_round_trip(op: TokenView, lexeme: Seq<char>)
    requires
        numeric_lexeme(lexeme),
        op == TokenView::Cos || op == TokenView::Sin || op == TokenView::Tan || op
            == TokenView::Sqrt || op == TokenView::Floor || op == TokenView::Ceil,
    ensures
        expr_text(ExprView::SingleArity(op, Box::new(ExprView::Literal(lexeme))))
            == token_text(op) + "("@ + lexeme + ")"@,
        scan_spec(token_text(op) + "("@ + lexeme + ")"@, 0) == Ok::<Seq<TokenView>, ScanIssue>(
            seq![op, TokenView::OpenParen, TokenView::Number(lexeme), TokenView::CloseParen],
        ),
        parse_tokens_spec(
            seq![op, TokenView::OpenParen, TokenView::Number(lexeme), TokenView::CloseParen],
        ) == Ok::<ExprView, ParseIssue>(
            ExprView::SingleArity(op, Box::new(ExprView::Literal(lexeme))),
        ),
{
    assert(expr_text(ExprView::Literal(lexeme)) == lexeme);
    assert(expr_text(ExprView::SingleArity(op, Box::new(ExprView::Literal(lexeme))))
        == token_text(op) + "("@ + lexeme + ")"@);
    lemma_single_call_scan(op, lexeme);
    lemma_single_call_parse(op, lexeme);
}

/// Two texts differ when they disagree at a shared position.
proof fn lemma_seq_ne_at(a: Seq<char>, b: Seq<char>, k: int)
    requires
        0 <= k < a.len(),
        k < b.len(),
        a[k] != b[k],
    ensures
        a != b,
{
}

/// The word `let` is the assignment keyword and nothing else.
proof fn lemma_let_keyword()
    ensures
        "let"@.len() == 3,
        forall|k: int| 0 <= k < 3 ==> is_word_char(#[trigger] "let"@[k]),
        is_alpha_char("let"@[0]),
        keyword_of("let"@) == Some(TokenView::Let),
{
    reveal_strlit("max");
    reveal_strlit("min");
    reveal_strlit("sqrt");
    reveal_strlit("pow");
    reveal_strlit("cos");
    reveal_strlit("sin");
    reveal_strlit("tan");
    reveal_strlit("log");
    reveal_strlit("floor");
    reveal_strlit("ceil");
    reveal_strlit("let");
    assert forall|k: int| 0 <= k < 3 implies is_word_char(#[trigger] "let"@[k]) by {
        assert(k == 0 || k == 1 || k == 2);
    }
    lemma_seq_ne_first("let"@, "max"@);
    lemma_seq_ne_first("let"@, "min"@);
    lemma_seq_ne_len("let"@, "sqrt"@);
    lemma_seq_ne_first("let"@, "pow"@);
    lemma_seq_ne_first("let"@, "cos"@);
    lemma_seq_ne_first("let"@, "sin"@);
    lemma_seq_ne_first("let"@, "tan"@);
    lemma_seq_ne_at("let"@, "log"@, 1);
    lemma_seq_ne_len("let"@, "floor"@);
    lemma_seq_ne_len("let"@, "ceil"@);
}

/// Scanning half of the assignment round trip: the rendered text of an
/// assignment of a literal scans back to exactly its four tokens.
proof fn lemma_assignment_scan(name: Seq<char>, lexeme: Seq<char>)
    requires
        identifier_lexeme(name),
        numeric_lexeme(lexeme),
    ensures
        scan_spec("let "@ + name + " = "@ + lexeme, 0) == Ok::<Seq<TokenView>, ScanIssue>(
            seq![
                TokenView::Let,
                TokenView::Identifier(name),
                TokenView::Equal,
                TokenView::Number(lexeme),
            ],
        ),
{
    reveal_strlit("let ");
    reveal_strlit("let");
    reveal_strlit(" = ");
    lemma_let_keyword();
    let s = "let "@ + name + " = "@ + lexeme;
    let nl = name.len();
    assert(s.len() == nl + lexeme.len() + 7);
    assert(s[3] == ' ');
    assert(s[(4 + nl) as int] == ' ');
    assert(s[(5 + nl) as int] == '=');
    assert(s[(6 + nl) as int] == ' ');
    // The literal at the tail.
    assert(s.skip((7 + nl) as int) =~= lexeme);
    lemma_literal_round_trip(lexeme);
    lemma_scan_ok_shift(s, (7 + nl) as nat, 0);
    assert(scan_spec(s, (7 + nl) as nat) == Ok::<Seq<TokenView>, ScanIssue>(
        seq![TokenView::Number(lexeme)],
    ));
    // The spaced equals sign before it.
    assert(scan_spec(s, (6 + nl) as nat) == scan_spec(s, (7 + nl) as nat));
    assert(scan_spec(s, (5 + nl) as nat) == Ok::<Seq<TokenView>, ScanIssue>(
        seq![TokenView::Equal] + seq![TokenView::Number(lexeme)],
    ));
    assert(scan_spec(s, (4 + nl) as nat) == scan_spec(s, (5 + nl) as nat));
    // The identifier, stopped by the space after it.
    assert(s[4] == name[0]);
    assert(s.skip(4) =~= name + (" = "@ + lexeme));
    lemma_word_end_shift(s, 4, 0);
    lemma_word_end_concat(name, " = "@ + lexeme, 0);
    assert(word_end(s, 4) == 4 + nl);
    assert(s.subrange(4, (4 + nl) as int) =~= name);
    assert(scan_spec(s, 4) == Ok::<Seq<TokenView>, ScanIssue>(
        seq![TokenView::Identifier(name)] + (seq![TokenView::Equal] + seq![
            TokenView::Number(lexeme),
        ]),
    ));
    assert(scan_spec(s, 3) == scan_spec(s, 4));
    // The keyword at the front.
    assert(s[0] == "let"@[0]);
    assert(s =~= "let"@ + s.skip(3));
    lemma_word_end_concat("let"@, s.skip(3), 0);
    lemma_word_end_all("let"@, 0);
    assert(word_end(s, 0) == 3);
    assert(s.subrange(0, 3) =~= "let"@);
    assert(scan_spec(s, 0) == Ok::<Seq<TokenView>, ScanIssue>(
        seq![TokenView::Let] + (seq![TokenView::Identifier(name)] + (seq![TokenView::Equal]
            + seq![TokenView::Number(lexeme)])),
    ));
    assert(seq![TokenView::Let] + (seq![TokenView::Identifier(name)] + (seq![TokenView::Equal]
        + seq![TokenView::Number(lexeme)])) =~= seq![
        TokenView::Let,
        TokenView::Identifier(name),
        TokenView::Equal,
        TokenView::Number(lexeme),
    ]);
}

/// Parsing half of the assignment round trip: the four tokens of an
/// assignment of a literal parse back to exactly its tree.
proof fn lemma_assignment_parse(name: Seq<char>, lexeme: Seq<char>)
    ensures
        parse_tokens_spec(
            seq![
                TokenView::Let,
                TokenView::Identifier(name),
                TokenView::Equal,
                TokenView::Number(lexeme),
            ],
        ) == Ok::<ExprView, ParseIssue>(
            ExprView::Assignment(name, Box::new(ExprView::Literal(lexeme))),
        ),
{
    let ts = seq![
        TokenView::Let,
        TokenView::Identifier(name),
        TokenView::Equal,
        TokenView::Number(lexeme),
    ];
    let leaf = ExprView::Literal(lexeme);
    let tree = ExprView::Assignment(name, Box::new(leaf));
    assert(ts.len() == 4 && ts[0] == TokenView::Let && ts[1] == TokenView::Identifier(name)
        && ts[2] == TokenView::Equal && ts[3] == TokenView::Number(lexeme));
    assert(primary_spec(ts, 3) == Ok::<(ExprView, nat), ParseIssue>((leaf, 1nat)));
    assert(unary_spec(ts, 3) == primary_spec(ts, 3));
    assert(factor_rest_spec(ts, 4, leaf) == Ok::<(ExprView, nat), ParseIssue>((leaf, 0nat)));
    assert(factor_spec(ts, 3) == Ok::<(ExprView, nat), ParseIssue>((leaf, 1nat)));
    assert(term_rest_spec(ts, 4, leaf) == Ok::<(ExprView, nat), ParseIssue>((leaf, 0nat)));
    assert(term_spec(ts, 3) == Ok::<(ExprView, nat), ParseIssue>((leaf, 1nat)));
    assert(expression_spec(ts, 3) == Ok::<(ExprView, nat), ParseIssue>((leaf, 1nat)));
    assert(expression_spec(ts, 0) == Ok::<(ExprView, nat), ParseIssue>((tree, 4nat)));
}

/// Round-trip stability for an assignment of a literal: the tree renders
/// to the `let` form, that text scans back to exactly the four original
/// tokens, and those parse back to exactly the same tree.
pub proof fn lemma_assignment_round_trip(name: Seq<char>, lexeme: Seq<char>)
    requires
        identifier_lexeme(name),
        numeric_lexeme(lexeme),
    ensures
        expr_text(ExprView::Assignment(name, Box::new(ExprView::Literal(lexeme)))) == "let "@
            + name + " = "@ + lexeme,
        scan_spec("let "@ + name + " = "@ + lexeme, 0) == Ok::<Seq<TokenView>, ScanIssue>(
            seq![
                TokenView::Let,
                TokenView::Identifier(name),
                TokenView::Equal,
                TokenView::Number(lexeme),
            ],
        ),
        parse_tokens_spec(
            seq![
                TokenView::Let,
                TokenView::Identifier(name),
                TokenView::Equal,
                TokenView::Number(lexeme),
            ],
        ) == Ok::<ExprView, ParseIssue>(
            ExprView::Assignment(name, Box::new(ExprView::Literal(lexeme))),
        ),
{
    assert(expr_text(ExprView::Literal(lexeme)) == lexeme);
    assert(expr_text(ExprView::Assignment(name, Box::new(ExprView::Literal(lexeme))))
        == "let "@ + name + " = "@ + lexeme);
    lemma_assignment_scan(name, lexeme);
    lemma_assignment_parse(name, lexeme);
}

/// The text of each two-argument or variadic operator is a purely
/// alphabetic keyword that resolves back to the operator.
proof fn lemma_call_op_word(op: TokenView)
    requires
        op == TokenView::Pow || op == TokenView::Log || op == TokenView::Max || op
            == TokenView::Min,
    ensures
        token_text(op).len() > 0,
        forall|k: int| 0 <= k < token_text(op).len() ==> is_word_char(#[trigger] token_text(
            op,
        )[k]),
        is_alpha_char(token_text(op)[0]),
        keyword_of(token_text(op)) == Some(op),
{
    reveal_strlit("max");
    reveal_strlit("min");
    reveal_strlit("sqrt");
    reveal_strlit("pow");
    reveal_strlit("cos");
    reveal_strlit("sin");
    reveal_strlit("tan");
    reveal_strlit("log");
    reveal_strlit("floor");
    reveal_strlit("ceil");
    reveal_strlit("let");
    let tok = token_text(op);
    assert forall|k: int| 0 <= k < tok.len() implies is_word_char(#[trigger] tok[k]) by {
        assert(k == 0 || k == 1 || k == 2);
    }
    if op == TokenView::Pow {
        lemma_seq_ne_first("pow"@, "max"@);
        lemma_seq_ne_first("pow"@, "min"@);
        lemma_seq_ne_len("pow"@, "sqrt"@);
        assert(keyword_of("pow"@) == Some(TokenView::Pow));
    } else if op == TokenView::Log {
        lemma_seq_ne_first("log"@, "max"@);
        lemma_seq_ne_first("log"@, "min"@);
        lemma_seq_ne_len("log"@, "sqrt"@);
        lemma_seq_ne_first("log"@, "pow"@);
        lemma_seq_ne_first("log"@, "cos"@);
        lemma_seq_ne_first("log"@, "sin"@);
        lemma_seq_ne_first("log"@, "tan"@);
        assert(keyword_of("log"@) == Some(TokenView::Log));
    } else if op == TokenView::Max {
        assert(keyword_of("max"@) == Some(TokenView::Max));
    } else {
        lemma_seq_ne_at("min"@, "max"@, 1);
        assert(keyword_of("min"@) == Some(TokenView::Min));
    }
}

/// The rendered text of a call on two literal arguments scans back to
/// exactly its six tokens, for any keyword operator.
#[verifier::rlimit(100)]
proof fn lemma_call_text_scan(op: TokenView, first: Seq<char>, second: Seq<char>)
    requires
        numeric_lexeme(first),
        numeric_lexeme(second),
        token_text(op).len() > 0,
        forall|k: int| 0 <= k < token_text(op).len() ==> is_word_char(#[trigger] token_text(
            op,
        )[k]),
        is_alpha_char(token_text(op)[0]),
        keyword_of(token_text(op)) == Some(op),
    ensures
        scan_spec(token_text(op) + "("@ + first + ","@ + second + ")"@, 0) == Ok::<
            Seq<TokenView>,
            ScanIssue,
        >(
            seq![
                op,
                TokenView::OpenParen,
                TokenView::Number(first),
                TokenView::Comma,
                TokenView::Number(second),
                TokenView::CloseParen,
            ],
        ),
{
    reveal_strlit("(");
    reveal_strlit(")");
    reveal_strlit(",");
    let tok = token_text(op);
    let m = tok.len();
    let n1 = first.len();
    let n2 = second.len();
    let s = token_text(op) + "("@ + first + ","@ + second + ")"@;
    assert(s.len() == m + n1 + n2 + 3);
    assert(s[m as int] == '(');
    assert(s[(m + 1 + n1) as int] == ',');
    assert(s[(m + 2 + n1 + n2) as int] == ')');
    // The second literal, stopped by the closing parenthesis.
    assert(s.skip((m + 2 + n1) as int) =~= second + ")"@);
    lemma_numeric_prefix(second, ")"@);
    lemma_number_end_shift(s, (m + 2 + n1) as nat, 0);
    assert(number_end(s, (m + 2 + n1) as nat) == m + 2 + n1 + n2);
    assert(s.subrange((m + 2 + n1) as int, (m + 2 + n1 + n2) as int) =~= second);
    assert(scan_spec(s, (m + 3 + n1 + n2) as nat) == Ok::<Seq<TokenView>, ScanIssue>(
        Seq::empty(),
    ));
    assert(scan_spec(s, (m + 2 + n1 + n2) as nat) == Ok::<Seq<TokenView>, ScanIssue>(
        seq![TokenView::CloseParen] + Seq::<TokenView>::empty(),
    ));
    assert(scan_spec(s, (m + 2 + n1) as nat) == Ok::<Seq<TokenView>, ScanIssue>(
        seq![TokenView::Number(second)] + (seq![TokenView::CloseParen]
            + Seq::<TokenView>::empty()),
    ));
    // The comma between the arguments.
    assert(scan_spec(s, (m + 1 + n1) as nat) == Ok::<Seq<TokenView>, ScanIssue>(
        seq![TokenView::Comma] + (seq![TokenView::Number(second)] + (seq![
            TokenView::CloseParen,
        ] + Seq::<TokenView>::empty())),
    ));
    // The first literal, stopped by the comma.
    assert(s[(m + 1) as int] == first[0]);
    assert(s.skip((m + 1) as int) =~= first + (","@ + second + ")"@));
    lemma_numeric_prefix(first, ","@ + second + ")"@);
    lemma_number_end_shift(s, (m + 1) as nat, 0);
    assert(number_end(s, (m + 1) as nat) == m + 1 + n1);
    assert(s.subrange((m + 1) as int, (m + 1 + n1) as int) =~= first);
    assert(scan_spec(s, (m + 1) as nat) == Ok::<Seq<TokenView>, ScanIssue>(
        seq![TokenView::Number(first)] + (seq![TokenView::Comma] + (seq![
            TokenView::Number(second),
        ] + (seq![TokenView::CloseParen] + Seq::<TokenView>::empty()))),
    ));
    // The opening parenthesis and the keyword.
    assert(scan_spec(s, m as nat) == Ok::<Seq<TokenView>, ScanIssue>(
        seq![TokenView::OpenParen] + (seq![TokenView::Number(first)] + (seq![TokenView::Comma]
            + (seq![TokenView::Number(second)] + (seq![TokenView::CloseParen]
            + Seq::<TokenView>::empty())))),
    ));
    assert(s[0] == tok[0]);
    assert(s =~= tok + s.skip(m as int));
    assert(s.skip(m as int)[0] == '(');
    lemma_word_end_concat(tok, s.skip(m as int), 0);
    lemma_word_end_all(tok, 0);
    assert(word_end(s, 0) == m);
    assert(s.subrange(0, m as int) =~= tok);
    assert(scan_spec(s, 0) == Ok::<Seq<TokenView>, ScanIssue>(
        seq![op] + (seq![TokenView::OpenParen] + (seq![TokenView::Number(first)] + (seq![
            TokenView::Comma,
        ] + (seq![TokenView::Number(second)] + (seq![TokenView::CloseParen]
            + Seq::<TokenView>::empty()))))),
    ));
    assert(seq![op] + (seq![TokenView::OpenParen] + (seq![TokenView::Number(first)] + (seq![
        TokenView::Comma,
    ] + (seq![TokenView::Number(second)] + (seq![TokenView::CloseParen]
        + Seq::<TokenView>::empty()))))) =~= seq![
        op,
        TokenView::OpenParen,
        TokenView::Number(first),
        TokenView::Comma,
        TokenView::Number(second),
        TokenView::CloseParen,
    ]);
}

/// Round-trip stability for a two-argument call on literals: the tree
/// renders to the keyword and the parenthesized, comma-separated lexemes,
/// that text scans back to exactly the six original tokens, and those
/// parse back to exactly the same tree.
pub proof fn lemma_double_call_round_trip(op: TokenView, first: Seq<char>, second: Seq<char>)
    requires
        numeric_lexeme(first),
        numeric_lexeme(second),
        op == TokenView::Pow || op == TokenView::Log,
    ensures
        expr_text(
            ExprView::DoubleArity(
                op,
                Box::new(ExprView::Literal(first)),
                Box::new(ExprView::Literal(second)),
            ),
        ) == token_text(op) + "("@ + first + ","@ + second + ")"@,
        scan_spec(token_text(op) + "("@ + first + ","@ + second + ")"@, 0) == Ok::<
            Seq<TokenView>,
            ScanIssue,
        >(
            seq![
                op,
                TokenView::OpenParen,
                TokenView::Number(first),
                TokenView::Comma,
                TokenView::Number(second),
                TokenView::CloseParen,
            ],
        ),
        parse_tokens_spec(
            seq![
                op,
                TokenView::OpenParen,
                TokenView::Number(first),
                TokenView::Comma,
                TokenView::Number(second),
                TokenView::CloseParen,
            ],
        ) == Ok::<ExprView, ParseIssue>(
            ExprView::DoubleArity(
                op,
                Box::new(ExprView::Literal(first)),
                Box::new(ExprView::Literal(second)),
            ),
        ),
{
    assert(expr_text(ExprView::Literal(first)) == first);
    assert(expr_text(ExprView::Literal(second)) == second);
    assert(expr_text(
        ExprView::DoubleArity(
            op,
            Box::new(ExprView::Literal(first)),
            Box::new(ExprView::Literal(second)),
        ),
    ) == token_text(op) + "("@ + first + ","@ + second + ")"@);
    lemma_call_op_word(op);
    lemma_call_text_scan(op, first, second);
    let ts = seq![
        op,
        TokenView::OpenParen,
        TokenView::Number(first),
        TokenView::Comma,
        TokenView::Number(second),
        TokenView::CloseParen,
    ];
    let leaf1 = ExprView::Literal(first);
    let leaf2 = ExprView::Literal(second);
    let tree = ExprView::DoubleArity(op, Box::new(leaf1), Box::new(leaf2));
    assert(ts.len() == 6 && ts[0] == op && ts[1] == TokenView::OpenParen && ts[2]
        == TokenView::Number(first) && ts[3] == TokenView::Comma && ts[4] == TokenView::Number(
        second,
    ) && ts[5] == TokenView::CloseParen);
    assert(primary_spec(ts, 2) == Ok::<(ExprView, nat), ParseIssue>((leaf1, 1nat)));
    assert(unary_spec(ts, 2) == primary_spec(ts, 2));
    assert(factor_rest_spec(ts, 3, leaf1) == Ok::<(ExprView, nat), ParseIssue>((leaf1, 0nat)));
    assert(factor_spec(ts, 2) == Ok::<(ExprView, nat), ParseIssue>((leaf1, 1nat)));
    assert(term_rest_spec(ts, 3, leaf1) == Ok::<(ExprView, nat), ParseIssue>((leaf1, 0nat)));
    assert(term_spec(ts, 2) == Ok::<(ExprView, nat), ParseIssue>((leaf1, 1nat)));
    assert(expression_spec(ts, 2) == Ok::<(ExprView, nat), ParseIssue>((leaf1, 1nat)));
    assert(primary_spec(ts, 4) == Ok::<(ExprView, nat), ParseIssue>((leaf2, 1nat)));
    assert(unary_spec(ts, 4) == primary_spec(ts, 4));
    assert(factor_rest_spec(ts, 5, leaf2) == Ok::<(ExprView, nat), ParseIssue>((leaf2, 0nat)));
    assert(factor_spec(ts, 4) == Ok::<(ExprView, nat), ParseIssue>((leaf2, 1nat)));
    assert(term_rest_spec(ts, 5, leaf2) == Ok::<(ExprView, nat), ParseIssue>((leaf2, 0nat)));
    assert(term_spec(ts, 4) == Ok::<(ExprView, nat), ParseIssue>((leaf2, 1nat)));
    assert(expression_spec(ts, 4) == Ok::<(ExprView, nat), ParseIssue>((leaf2, 1nat)));
    assert(double_tail_spec(ts, 2, op) == Ok::<(ExprView, nat), ParseIssue>((tree, 4nat)));
    assert(function_spec(ts, 1, op) == Ok::<(ExprView, nat), ParseIssue>((tree, 5nat)));
    assert(primary_spec(ts, 0) == Ok::<(ExprView, nat), ParseIssue>((tree, 6nat)));
    assert(unary_spec(ts, 0) == primary_spec(ts, 0));
    assert(factor_rest_spec(ts, 6, tree) == Ok::<(ExprView, nat), ParseIssue>((tree, 0nat)));
    assert(factor_spec(ts, 0) == Ok::<(ExprView, nat), ParseIssue>((tree, 6nat)));
    assert(term_rest_spec(ts, 6, tree) == Ok::<(ExprView, nat), ParseIssue>((tree, 0nat)));
    assert(term_spec(ts, 0) == Ok::<(ExprView, nat), ParseIssue>((tree, 6nat)));
    assert(expression_spec(ts, 0) == Ok::<(ExprView, nat), ParseIssue>((tree, 6nat)));
}

/// Round-trip stability for a variadic call on two literals: the tree
/// renders to the keyword and the parenthesized, comma-separated lexemes,
/// that text scans back to exactly the six original tokens, and those
/// parse back to exactly the same tree.
pub proof fn lemma_multi_call_round_trip(op: TokenView, first: Seq<char>, second: Seq<char>)
    requires
        numeric_lexeme(first),
        numeric_lexeme(second),
        op == TokenView::Max || op == TokenView::Min,
    ensures
        expr_text(
            ExprView::MultiArity(
                op,
                seq![ExprView::Literal(first), ExprView::Literal(second)],
            ),
        ) == token_text(op) + "("@ + first + ","@ + second + ")"@,
        scan_spec(token_text(op) + "("@ + first + ","@ + second + ")"@, 0) == Ok::<
            Seq<TokenView>,
            ScanIssue,
        >(
            seq![
                op,
                TokenView::OpenParen,
                TokenView::Number(first),
                TokenView::Comma,
                TokenView::Number(second),
                TokenView::CloseParen,
            ],
        ),
        parse_tokens_spec(
            seq![
                op,
                TokenView::OpenParen,
                TokenView::Number(first),
                TokenView::Comma,
                TokenView::Number(second),
                TokenView::CloseParen,
            ],
        ) == Ok::<ExprView, ParseIssue>(
            ExprView::MultiArity(
                op,
                seq![ExprView::Literal(first), ExprView::Literal(second)],
            ),
        ),
{
    let leaf1 = ExprView::Literal(first);
    let leaf2 = ExprView::Literal(second);
    let args = seq![leaf1, leaf2];
    let tree = ExprView::MultiArity(op, args);
    // Rendering: the two arguments joined by a comma.
    assert(expr_text(leaf1) == first);
    assert(expr_text(leaf2) == second);
    assert(args.drop_last() =~= seq![leaf1]);
    assert((seq![leaf1])[0] == leaf1 && args.last() == leaf2);
    assert(args_text(seq![leaf1]) == first);
    assert(args_text(args) == first + ","@ + second);
    assert(expr_text(tree) == token_text(op) + "("@ + (first + ","@ + second) + ")"@);
    assert(token_text(op) + "("@ + (first + ","@ + second) + ")"@ =~= token_text(op) + "("@
        + first + ","@ + second + ")"@);
    // Scanning.
    lemma_call_op_word(op);
    lemma_call_text_scan(op, first, second);
    // Parsing.
    lemma_multi_call_parse(op, first, second);
}

/// Parsing half of the variadic round trip: the six tokens of a variadic
/// call on two literals parse back to exactly its tree, through the
/// argument loop.
proof fn lemma_multi_call_parse(op: TokenView, first: Seq<char>, second: Seq<char>)
    requires
        op == TokenView::Max || op == TokenView::Min,
    ensures
        parse_tokens_spec(
            seq![
                op,
                TokenView::OpenParen,
                TokenView::Number(first),
                TokenView::Comma,
                TokenView::Number(second),
                TokenView::CloseParen,
            ],
        ) == Ok::<ExprView, ParseIssue>(
            ExprView::MultiArity(
                op,
                seq![ExprView::Literal(first), ExprView::Literal(second)],
            ),
        ),
{
    let leaf1 = ExprView::Literal(first);
    let leaf2 = ExprView::Literal(second);
    let args = seq![leaf1, leaf2];
    let tree = ExprView::MultiArity(op, args);
    let ts = seq![
        op,
        TokenView::OpenParen,
        TokenView::Number(first),
        TokenView::Comma,
        TokenView::Number(second),
        TokenView::CloseParen,
    ];
    assert(ts.len() == 6 && ts[0] == op && ts[1] == TokenView::OpenParen && ts[2]
        == TokenView::Number(first) && ts[3] == TokenView::Comma && ts[4] == TokenView::Number(
        second,
    ) && ts[5] == TokenView::CloseParen);
    assert(primary_spec(ts, 2) == Ok::<(ExprView, nat), ParseIssue>((leaf1, 1nat)));
    assert(unary_spec(ts, 2) == primary_spec(ts, 2));
    assert(factor_rest_spec(ts, 3, leaf1) == Ok::<(ExprView, nat), ParseIssue>((leaf1, 0nat)));
    assert(factor_spec(ts, 2) == Ok::<(ExprView, nat), ParseIssue>((leaf1, 1nat)));
    assert(term_rest_spec(ts, 3, leaf1) == Ok::<(ExprView, nat), ParseIssue>((leaf1, 0nat)));
    assert(term_spec(ts, 2) == Ok::<(ExprView, nat), ParseIssue>((leaf1, 1nat)));
    assert(expression_spec(ts, 2) == Ok::<(ExprView, nat), ParseIssue>((leaf1, 1nat)));
    assert(primary_spec(ts, 4) == Ok::<(ExprView, nat), ParseIssue>((leaf2, 1nat)));
    assert(unary_spec(ts, 4) == primary_spec(ts, 4));
    assert(factor_rest_spec(ts, 5, leaf2) == Ok::<(ExprView, nat), ParseIssue>((leaf2, 0nat)));
    assert(factor_spec(ts, 4) == Ok::<(ExprView, nat), ParseIssue>((leaf2, 1nat)));
    assert(term_rest_spec(ts, 5, leaf2) == Ok::<(ExprView, nat), ParseIssue>((leaf2, 0nat)));
    assert(term_spec(ts, 4) == Ok::<(ExprView, nat), ParseIssue>((leaf2, 1nat)));
    assert(expression_spec(ts, 4) == Ok::<(ExprView, nat), ParseIssue>((leaf2, 1nat)));
    assert(multi_args_spec(ts, 4, seq![leaf1]) == Ok::<(Seq<ExprView>, nat), ParseIssue>(
        ((seq![leaf1]).push(leaf2), 2nat),
    ));
    assert((seq![leaf1]).push(leaf2) =~= args);
    assert((Seq::<ExprView>::empty()).push(leaf1) =~= seq![leaf1]);
    assert(multi_args_spec(ts, 2, Seq::empty()) == Ok::<(Seq<ExprView>, nat), ParseIssue>(
        (args, 4nat),
    ));
    assert(multi_tail_spec(ts, 2, op) == Ok::<(ExprView, nat), ParseIssue>((tree, 4nat)));
    assert(function_spec(ts, 1, op) == Ok::<(ExprView, nat), ParseIssue>((tree, 5nat)));
    assert(primary_spec(ts, 0) == Ok::<(ExprView, nat), ParseIssue>((tree, 6nat)));
    assert(unary_spec(ts, 0) == primary_spec(ts, 0));
    assert(factor_rest_spec(ts, 6, tree) == Ok::<(ExprView, nat), ParseIssue>((tree, 0nat)));
    assert(factor_spec(ts, 0) == Ok::<(ExprView, nat), ParseIssue>((tree, 6nat)));
    assert(term_rest_spec(ts, 6, tree) == Ok::<(ExprView, nat), ParseIssue>((tree, 0nat)));
    assert(term_spec(ts, 0) == Ok::<(ExprView, nat), ParseIssue>((tree, 6nat)));
    assert(expression_spec(ts, 0) == Ok::<(ExprView, nat), ParseIssue>((tree, 6nat)));
}

/// Round-trip stability for a variable reference: the tree renders to its
/// name, the name scans back to exactly the identifier token, and that
/// token parses back to exactly the same tree.
pub proof fn lemma_variable_round_trip(name: Seq<char>)
    requires
        identifier_lexeme(name),
    ensures
        expr_text(ExprView::Variable(name)) == name,
        scan_spec(name, 0) == Ok::<Seq<TokenView>, ScanIssue>(seq![TokenView::Identifier(name)]),
        parse_tokens_spec(seq![TokenView::Identifier(name)]) == Ok::<ExprView, ParseIssue>(
            ExprView::Variable(name),
        ),
{
    assert(name.subrange(0, name.len() as int) =~= name);
    assert(scan_spec(name, name.len() as nat) == Ok::<Seq<TokenView>, ScanIssue>(Seq::empty()));
    assert(seq![TokenView::Identifier(name)] + Seq::<TokenView>::empty() =~= seq![
        TokenView::Identifier(name),
    ]);
    lemma_leaf_parses(TokenView::Identifier(name), ExprView::Variable(name));
}

} // verus!

