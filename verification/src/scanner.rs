//! Lexical scanning: turns source text into an ordered sequence of tokens.
//!
//! The scanner consumes the input left to right.  Whitespace is skipped,
//! single-character operators map directly to tokens, a digit starts a
//! numeric literal (digits, optionally a dot followed by more digits), and an
//! alphabetic character starts a word.  A word is resolved against the fixed
//! keyword table; any other purely alphanumeric word becomes an identifier,
//! and a word holding `_` or `-` is rejected.  Every other character fails
//! the scan immediately.
//!
//! The whole behaviour is stated by the specification function [`scan_spec`],
//! and [`tokenize`] is proved to agree with it on every input.

use vstd::prelude::*;

use crate::text::{dec_str, nat_text};
use crate::token::{views_of_tokens, Token, TokenView};

verus! {

/// A decimal digit.
pub open spec fn is_digit_char(c: char) -> bool {
    48 <= c as u32 && c as u32 <= 57
}

/// An ASCII letter.
pub open spec fn is_alpha_char(c: char) -> bool {
    (65 <= c as u32 && c as u32 <= 90) || (97 <= c as u32 && c as u32 <= 122)
}

/// A character that may continue a word once one has started.
pub open spec fn is_word_char(c: char) -> bool {
    is_digit_char(c) || is_alpha_char(c) || c == '_' || c == '-'
}

/// Whitespace skipped between tokens.
pub open spec fn is_space_char(c: char) -> bool {
    c == ' ' || c == '\n'
}

/// The token of a single-character operator or punctuation mark, if any.
pub open spec fn symbol_token(c: char) -> Option<TokenView> {
    if c == '+' {
        Some(TokenView::Plus)
    } else if c == '-' {
        Some(TokenView::Minus)
    } else if c == '*' {
        Some(TokenView::Star)
    } else if c == '/' {
        Some(TokenView::Slash)
    } else if c == '%' {
        Some(TokenView::Percent)
    } else if c == '(' {
        Some(TokenView::OpenParen)
    } else if c == ')' {
        Some(TokenView::CloseParen)
    } else if c == ',' {
        Some(TokenView::Comma)
    } else if c == '=' {
        Some(TokenView::Equal)
    } else {
        None
    }
}

/// The first position at or after `i` holding no decimal digit.
pub open spec fn digits_end(s: Seq<char>, i: nat) -> nat
    decreases s.len() - i,
{
    if i < s.len() && is_digit_char(s[i as int]) {
        digits_end(s, i + 1)
    } else {
        i
    }
}

/// Everything `digits_end` promises of the span it delimits.
pub proof fn lemma_digits_end_span(s: Seq<char>, i: nat)
    requires
        i <= s.len(),
    ensures
        i <= digits_end(s, i) <= s.len(),
        forall|j: int| i <= j < digits_end(s, i) ==> is_digit_char(s[j]),
        digits_end(s, i) < s.len() ==> !is_digit_char(s[digits_end(s, i) as int]),
        i < s.len() && is_digit_char(s[i as int]) ==> digits_end(s, i) > i,
    decreases s.len() - i,
{
    if i < s.len() && is_digit_char(s[i as int]) {
        lemma_digits_end_span(s, i + 1);
    }
}

/// The first position at or after `i` holding no word character.
pub open spec fn word_end(s: Seq<char>, i: nat) -> nat
    decreases s.len() - i,
{
    if i < s.len() && is_word_char(s[i as int]) {
        word_end(s, i + 1)
    } else {
        i
    }
}

/// Everything `word_end` promises of the span it delimits.
pub proof fn lemma_word_end_span(s: Seq<char>, i: nat)
    requires
        i <= s.len(),
    ensures
        i <= word_end(s, i) <= s.len(),
        forall|j: int| i <= j < word_end(s, i) ==> is_word_char(s[j]),
        word_end(s, i) < s.len() ==> !is_word_char(s[word_end(s, i) as int]),
        i < s.len() && is_word_char(s[i as int]) ==> word_end(s, i) > i,
    decreases s.len() - i,
{
    if i < s.len() && is_word_char(s[i as int]) {
        lemma_word_end_span(s, i + 1);
    }
}

/// The position one past the numeric literal starting at `i`: contiguous
/// digits, and a fractional part when a dot followed by a digit comes next.
pub open spec fn number_end(s: Seq<char>, i: nat) -> nat {
    let d: nat = digits_end(s, i);
    if d < s.len() && s[d as int] == '.' && d + 1 < s.len() && is_digit_char(s[d + 1 as int]) {
        digits_end(s, (d + 1) as nat)
    } else {
        d
    }
}

/// Everything `number_end` promises of the span it delimits.
pub proof fn lemma_number_end_span(s: Seq<char>, i: nat)
    requires
        i <= s.len(),
    ensures
        i <= number_end(s, i) <= s.len(),
        forall|j: int|
            i <= j < number_end(s, i) ==> is_digit_char(s[j]) || s[j] == '.',
        i < s.len() && is_digit_char(s[i as int]) ==> number_end(s, i) > i,
{
    lemma_digits_end_span(s, i);
    let d: nat = digits_end(s, i);
    if d < s.len() && s[d as int] == '.' && d + 1 < s.len() && is_digit_char(s[d + 1 as int]) {
        lemma_digits_end_span(s, (d + 1) as nat);
    }
}

/// The keyword table: the reserved words and their tokens.
pub open spec fn keyword_of(w: Seq<char>) -> Option<TokenView> {
    if w == "max"@ {
        Some(TokenView::Max)
    } else if w == "min"@ {
        Some(TokenView::Min)
    } else if w == "sqrt"@ {
        Some(TokenView::Sqrt)
    } else if w == "pow"@ {
        Some(TokenView::Pow)
    } else if w == "cos"@ {
        Some(TokenView::Cos)
    } else if w == "sin"@ {
        Some(TokenView::Sin)
    } else if w == "tan"@ {
        Some(TokenView::Tan)
    } else if w == "log"@ {
        Some(TokenView::Log)
    } else if w == "floor"@ {
        Some(TokenView::Floor)
    } else if w == "ceil"@ {
        Some(TokenView::Ceil)
    } else if w == "let"@ {
        Some(TokenView::Let)
    } else {
        None
    }
}

/// A word that may serve as an identifier: letters and digits only.
pub open spec fn is_identifier_word(w: Seq<char>) -> bool {
    forall|k: int| 0 <= k < w.len() ==> is_digit_char(w[k]) || is_alpha_char(w[k])
}

/// A terminal scanning error.
#[verifier::ext_equal]
pub enum ScanIssue {
    /// A character no rule accepts, at its position in the input.
    InvalidCharacter { c: char, pos: nat },
    /// A word that is neither a keyword nor purely alphanumeric.
    UnrecognizedWord { word: Seq<char> },
}

/// The message text reported for a scanning error.
pub open spec fn scan_issue_text(e: ScanIssue) -> Seq<char> {
    match e {
        ScanIssue::InvalidCharacter { c, pos } => "Invalid character "@ + seq![c]
            + " at position "@ + dec_str(pos),
        ScanIssue::UnrecognizedWord { word } => "Unrecognized word "@ + word,
    }
}

/// The token sequence of the input from position `i` on, or the first
/// scanning error.  This is the scanner's whole specification.
pub open spec fn scan_spec(s: Seq<char>, i: nat) -> Result<Seq<TokenView>, ScanIssue>
    decreases s.len() - i,
{
    if i >= s.len() {
        Ok(Seq::empty())
    } else {
        let c = s[i as int];
        if is_space_char(c) {
            scan_spec(s, i + 1)
        } else {
            match symbol_token(c) {
                Some(t) => match scan_spec(s, i + 1) {
                    Ok(ts) => Ok(seq![t] + ts),
                    Err(e) => Err(e),
                },
                None => if is_digit_char(c) {
                    proof {
                        lemma_number_end_span(s, i);
                    }
                    let e: nat = number_end(s, i);
                    match scan_spec(s, e) {
                        Ok(ts) => Ok(seq![TokenView::Number(s.subrange(i as int, e as int))] + ts),
                        Err(err) => Err(err),
                    }
                } else if is_alpha_char(c) {
                    proof {
                        lemma_word_end_span(s, i);
                    }
                    let e: nat = word_end(s, i);
                    let w = s.subrange(i as int, e as int);
                    match keyword_of(w) {
                        Some(t) => match scan_spec(s, e) {
                            Ok(ts) => Ok(seq![t] + ts),
                            Err(err) => Err(err),
                        },
                        None => if is_identifier_word(w) {
                            match scan_spec(s, e) {
                                Ok(ts) => Ok(seq![TokenView::Identifier(w)] + ts),
                                Err(err) => Err(err),
                            }
                        } else {
                            Err(ScanIssue::UnrecognizedWord { word: w })
                        },
                    }
                } else {
                    Err(ScanIssue::InvalidCharacter { c, pos: i })
                },
            }
        }
    }
}

/// A decimal digit.
fn is_digit(c: char) -> (b: bool)
    ensures
        b == is_digit_char(c),
{
    let u: u32 = c as u32;
    48 <= u && u <= 57
}

/// An ASCII letter.
fn is_alpha(c: char) -> (b: bool)
    ensures
        b == is_alpha_char(c),
{
    let u: u32 = c as u32;
    (65 <= u && u <= 90) || (97 <= u && u <= 122)
}

/// A character that may continue a word.
fn is_word(c: char) -> (b: bool)
    ensures
        b == is_word_char(c),
{
    is_digit(c) || is_alpha(c) || c == '_' || c == '-'
}

/// Finds `digits_end` of the text.
fn scan_digits_end(s: &str, from: usize, len: usize) -> (e: usize)
    requires
        len == s@.len(),
        from <= len,
    ensures
        e == digits_end(s@, from as nat),
        from <= e <= len,
{
    proof {
        lemma_digits_end_span(s@, from as nat);
    }
    let mut j: usize = from;
    while j < len && is_digit(s.get_char(j))
        invariant
            from <= j <= len,
            len == s@.len(),
            digits_end(s@, from as nat) == digits_end(s@, j as nat),
        decreases len - j,
    {
        proof {
            lemma_digits_end_span(s@, j as nat);
        }
        j += 1;
    }
    j
}

/// Finds `word_end` of the text.
fn scan_word_end(s: &str, from: usize, len: usize) -> (e: usize)
    requires
        len == s@.len(),
        from <= len,
    ensures
        e == word_end(s@, from as nat),
        from <= e <= len,
{
    proof {
        lemma_word_end_span(s@, from as nat);
    }
    let mut j: usize = from;
    while j < len && is_word(s.get_char(j))
        invariant
            from <= j <= len,
            len == s@.len(),
            word_end(s@, from as nat) == word_end(s@, j as nat),
        decreases len - j,
    {
        proof {
            lemma_word_end_span(s@, j as nat);
        }
        j += 1;
    }
    j
}

/// Finds `number_end` of the text.
fn scan_number_end(s: &str, from: usize, len: usize) -> (e: usize)
    requires
        len == s@.len(),
        from <= len,
    ensures
        e == number_end(s@, from as nat),
        from <= e <= len,
{
    let d: usize = scan_digits_end(s, from, len);
    if d < len && s.get_char(d) == '.' && d + 1 < len && is_digit(s.get_char(d + 1)) {
        scan_digits_end(s, d + 1, len)
    } else {
        d
    }
}

/// Resolves a word against the keyword table.
fn keyword_token_of(w: &String) -> (r: Option<Token>)
    ensures
        match r {
            Some(t) => keyword_of(w@) == Some(t@),
            None => keyword_of(w@) is None,
        },
{
    if *w == String::from_str("max") {
        Some(Token::Max)
    } else if *w == String::from_str("min") {
        Some(Token::Min)
    } else if *w == String::from_str("sqrt") {
        Some(Token::Sqrt)
    } else if *w == String::from_str("pow") {
        Some(Token::Pow)
    } else if *w == String::from_str("cos") {
        Some(Token::Cos)
    } else if *w == String::from_str("sin") {
        Some(Token::Sin)
    } else if *w == String::from_str("tan") {
        Some(Token::Tan)
    } else if *w == String::from_str("log") {
        Some(Token::Log)
    } else if *w == String::from_str("floor") {
        Some(Token::Floor)
    } else if *w == String::from_str("ceil") {
        Some(Token::Ceil)
    } else if *w == String::from_str("let") {
        Some(Token::Let)
    } else {
        None
    }
}

/// Whether the word is purely alphanumeric.
fn is_identifier_text(w: &String) -> (b: bool)
    ensures
        b == is_identifier_word(w@),
{
    let s = w.as_str();
    let len: usize = s.unicode_len();
    let mut k: usize = 0;
    while k < len
        invariant
            k <= len,
            len == w@.len(),
            s@ == w@,
            forall|j: int| 0 <= j < k ==> is_digit_char(w@[j]) || is_alpha_char(w@[j]),
        decreases len - k,
    {
        let c = s.get_char(k);
        if !(is_digit(c) || is_alpha(c)) {
            return false;
        }
        k += 1;
    }
    true
}

/// The single-character token of `c`, if any.
fn symbol_of(c: char) -> (r: Option<Token>)
    ensures
        match r {
            Some(t) => symbol_token(c) == Some(t@),
            None => symbol_token(c) is None,
        },
{
    if c == '+' {
        Some(Token::Plus)
    } else if c == '-' {
        Some(Token::Minus)
    } else if c == '*' {
        Some(Token::Star)
    } else if c == '/' {
        Some(Token::Slash)
    } else if c == '%' {
        Some(Token::Percent)
    } else if c == '(' {
        Some(Token::OpenParen)
    } else if c == ')' {
        Some(Token::CloseParen)
    } else if c == ',' {
        Some(Token::Comma)
    } else if c == '=' {
        Some(Token::Equal)
    } else {
        None
    }
}

/// One scanning step keeps the loop's accounting: when the step from `prev`
/// emits token `t` and moves to `next`, the tokens gathered so far simply
/// grow by `t`.
proof fn lemma_scan_step(s: Seq<char>, prev: nat, next: nat, v: Seq<TokenView>, t: TokenView)
    requires
        scan_spec(s, prev) == (match scan_spec(s, next) {
            Ok(ts) => Ok::<Seq<TokenView>, ScanIssue>(seq![t] + ts),
            Err(e) => Err::<Seq<TokenView>, ScanIssue>(e),
        }),
        scan_spec(s, 0) == (match scan_spec(s, prev) {
            Ok(ts) => Ok::<Seq<TokenView>, ScanIssue>(v + ts),
            Err(e) => Err::<Seq<TokenView>, ScanIssue>(e),
        }),
    ensures
        scan_spec(s, 0) == (match scan_spec(s, next) {
            Ok(ts) => Ok::<Seq<TokenView>, ScanIssue>(v.push(t) + ts),
            Err(e) => Err::<Seq<TokenView>, ScanIssue>(e),
        }),
{
    match scan_spec(s, next) {
        Ok(ts) => {
            assert(v + (seq![t] + ts) =~= v.push(t) + ts);
        },
        Err(_) => {},
    }
}

/// Converts source text into its token sequence, exactly as [`scan_spec`]
/// says: the tokens of the whole input on success, and on failure the
/// message of the first scanning error.
pub fn tokenize(src: String) -> (r: Result<Vec<Token>, String>)
    ensures
        match r {
            Ok(ts) => scan_spec(src@, 0) == Ok::<Seq<TokenView>, ScanIssue>(views_of_tokens(ts@)),
            Err(m) => match scan_spec(src@, 0) {
                Ok(_) => false,
                Err(e) => m@ == scan_issue_text(e),
            },
        },
{
    let s: &str = src.as_str();
    let len: usize = s.unicode_len();
    let mut tokens: Vec<Token> = Vec::new();
    let mut i: usize = 0;
    while i < len
        invariant
            i <= len,
            len == s@.len(),
            s@ == src@,
            scan_spec(src@, 0) == (match scan_spec(src@, i as nat) {
                Ok(ts) => Ok::<Seq<TokenView>, ScanIssue>(views_of_tokens(tokens@) + ts),
                Err(e) => Err::<Seq<TokenView>, ScanIssue>(e),
            }),
        decreases len - i,
    {
        let ghost prev = i as nat;
        let ghost prev_views = views_of_tokens(tokens@);
        let c = s.get_char(i);
        if c == ' ' || c == '\n' {
            i += 1;
        } else {
            match symbol_of(c) {
                Some(t) => {
                    let ghost tv = t@;
                    tokens.push(t);
                    i += 1;
                    proof {
                        assert(views_of_tokens(tokens@) =~= prev_views.push(tv));
                        lemma_scan_step(src@, prev, i as nat, prev_views, tv);
                    }
                },
                None => {
                    if is_digit(c) {
                        let e: usize = scan_number_end(s, i, len);
                        let lexeme = s.substring_char(i, e).to_owned();
                        let ghost tv = TokenView::Number(lexeme@);
                        proof {
                            lemma_number_end_span(src@, prev);
                        }
                        tokens.push(Token::Number(lexeme));
                        i = e;
                        proof {
                            assert(views_of_tokens(tokens@) =~= prev_views.push(tv));
                            lemma_scan_step(src@, prev, i as nat, prev_views, tv);
                        }
                    } else if is_alpha(c) {
                        let e: usize = scan_word_end(s, i, len);
                        let word = s.substring_char(i, e).to_owned();
                        proof {
                            lemma_word_end_span(src@, prev);
                        }
                        match keyword_token_of(&word) {
                            Some(t) => {
                                let ghost tv = t@;
                                tokens.push(t);
                                i = e;
                                proof {
                                    assert(views_of_tokens(tokens@) =~= prev_views.push(tv));
                                    lemma_scan_step(src@, prev, i as nat, prev_views, tv);
                                }
                            },
                            None => {
                                if is_identifier_text(&word) {
                                    let ghost tv = TokenView::Identifier(word@);
                                    tokens.push(Token::Identifier(word));
                                    i = e;
                                    proof {
                                        assert(views_of_tokens(tokens@) =~= prev_views.push(tv));
                                        lemma_scan_step(src@, prev, i as nat, prev_views, tv);
                                    }
                                } else {
                                    let mut m = String::from_str("Unrecognized word ");
                                    m.append(word.as_str());
                                    assert(scan_spec(src@, prev) == Err::<
                                        Seq<TokenView>,
                                        ScanIssue,
                                    >(ScanIssue::UnrecognizedWord { word: word@ }));
                                    return Err(m);
                                }
                            },
                        }
                    } else {
                        let mut m = String::from_str("Invalid character ");
                        m.push(c);
                        m.append(" at position ");
                        let digits = nat_text(i);
                        m.append(digits.as_str());
                        assert(scan_spec(src@, prev) == Err::<Seq<TokenView>, ScanIssue>(
                            ScanIssue::InvalidCharacter { c, pos: prev },
                        ));
                        return Err(m);
                    }
                },
            }
        }
    }
    Ok(tokens)
}

/// A character the scanner can accept somewhere: a digit, a letter,
/// whitespace, a single-character operator, a dot, or an underscore.
pub open spec fn scan_legal_char(c: char) -> bool {
    is_digit_char(c) || is_alpha_char(c) || is_space_char(c) || symbol_token(c) is Some || c == '.'
        || c == '_'
}

/// A successful scan contains legal characters only, from `i` on.
proof fn lemma_scan_ok_chars_legal(s: Seq<char>, i: nat)
    requires
        i <= s.len(),
        scan_spec(s, i) is Ok,
    ensures
        forall|k: int| i <= k < s.len() ==> scan_legal_char(s[k]),
    decreases s.len() - i,
{
    if i < s.len() {
        let c = s[i as int];
        if is_space_char(c) {
            lemma_scan_ok_chars_legal(s, i + 1);
        } else if symbol_token(c) is Some {
            lemma_scan_ok_chars_legal(s, i + 1);
        } else if is_digit_char(c) {
            lemma_number_end_span(s, i);
            lemma_scan_ok_chars_legal(s, number_end(s, i));
        } else if is_alpha_char(c) {
            lemma_word_end_span(s, i);
            lemma_scan_ok_chars_legal(s, word_end(s, i));
        }
    }
}

/// Scanner character-class law: an input holding any character outside the
/// accepted class — digits, letters, `+ - * / % ( ) , . = _`, space and
/// newline — never scans; it always yields an error.
pub proof fn lemma_illegal_character_rejected(s: Seq<char>, k: int)
    requires
        0 <= k < s.len(),
        !scan_legal_char(s[k]),
    ensures
        scan_spec(s, 0) is Err,
{
    if scan_spec(s, 0) is Ok {
        lemma_scan_ok_chars_legal(s, 0);
    }
}

} // verus!
