//! The scanner: source text in, tokens and lexical errors out.
//!
//! The executable scanner is [`Token::scan_tokens`]. Its behaviour is pinned
//! down by the recursive specification [`scan_model`], which walks the
//! character sequence exactly as the scanner does: one character of
//! lookahead, greedy matching of two-character operators, line comments,
//! multi-line string literals, number and identifier lexemes, and recovery
//! after an unexpected character.

use vstd::prelude::*;
use vstd::string::{StrSliceExecFns, StringExecFns};

use crate::errors::{ErrorModel, LoxError};

verus! {

/// The closed set of token kinds.
#[derive(Debug, Clone, Copy, PartialEq, Eq, Structural)]
pub enum TokenType {
    // Single character tokens
    LeftParen,
    RightParen,
    LeftBrace,
    RightBrace,
    Comma,
    Dot,
    Minus,
    Plus,
    Semicolon,
    Slash,
    Star,
    // Single or double character tokens
    Bang,
    BangEqual,
    Equal,
    EqualEqual,
    Greater,
    GreaterEqual,
    Less,
    LessEqual,
    // Literals
    Identifier,
    String,
    Number,
    // Keywords
    And,
    Class,
    Else,
    False,
    Fun,
    For,
    If,
    Nil,
    Or,
    Print,
    Return,
    Super,
    This,
    True,
    Var,
    While,
    EOF,
}

/// A token: its kind, the exact source substring it came from (delimiters
/// included for string literals), and the 1-based line it is attributed to.
/// A multi-line string literal is attributed to the line its closing quote
/// stands on.
#[derive(Debug)]
pub struct Token {
    pub token_type: TokenType,
    pub lexeme: String,
    pub line: usize,
}

/// The mathematical value of a [`Token`]: kind, lexeme as a character
/// sequence, and an unbounded line number.
pub ghost struct TokenModel {
    pub kind: TokenType,
    pub lexeme: Seq<char>,
    pub line: nat,
}

impl View for Token {
    type V = TokenModel;

    open spec fn view(&self) -> TokenModel {
        TokenModel { kind: self.token_type, lexeme: self.lexeme@, line: self.line as nat }
    }
}

/// A decimal digit.
pub open spec fn is_digit(c: char) -> bool {
    '0' <= c && c <= '9'
}

/// A character that may start an identifier.
pub open spec fn is_alpha(c: char) -> bool {
    ('a' <= c && c <= 'z') || ('A' <= c && c <= 'Z') || c == '_'
}

/// A character that may continue an identifier.
pub open spec fn is_alnum(c: char) -> bool {
    is_digit(c) || is_alpha(c)
}

/// A single-character punctuation token starter (`/` is not here: it needs
/// lookahead for comments, and `! = < >` need lookahead for `=`).
pub open spec fn is_single_punct(c: char) -> bool {
    c == '(' || c == ')' || c == '{' || c == '}' || c == ',' || c == '.' || c == '-' || c == '+'
        || c == ';' || c == '*'
}

/// The kind of a single-character punctuation token.
pub open spec fn single_punct_kind(c: char) -> TokenType {
    if c == '(' {
        TokenType::LeftParen
    } else if c == ')' {
        TokenType::RightParen
    } else if c == '{' {
        TokenType::LeftBrace
    } else if c == '}' {
        TokenType::RightBrace
    } else if c == ',' {
        TokenType::Comma
    } else if c == '.' {
        TokenType::Dot
    } else if c == '-' {
        TokenType::Minus
    } else if c == '+' {
        TokenType::Plus
    } else if c == ';' {
        TokenType::Semicolon
    } else {
        TokenType::Star
    }
}

/// A character that starts either a one- or a two-character operator,
/// depending on whether `=` follows.
pub open spec fn is_maybe_double(c: char) -> bool {
    c == '!' || c == '=' || c == '<' || c == '>'
}

/// The kind when no `=` follows.
pub open spec fn one_char_kind(c: char) -> TokenType {
    if c == '!' {
        TokenType::Bang
    } else if c == '=' {
        TokenType::Equal
    } else if c == '<' {
        TokenType::Less
    } else {
        TokenType::Greater
    }
}

/// The kind when `=` follows (greedy longest match).
pub open spec fn two_char_kind(c: char) -> TokenType {
    if c == '!' {
        TokenType::BangEqual
    } else if c == '=' {
        TokenType::EqualEqual
    } else if c == '<' {
        TokenType::LessEqual
    } else {
        TokenType::GreaterEqual
    }
}

/// The kind of a complete identifier-shaped lexeme: a reserved word's kind
/// where the whole lexeme equals that word, else `Identifier`.
pub open spec fn keyword_kind(lex: Seq<char>) -> TokenType {
    if lex == "and"@ {
        TokenType::And
    } else if lex == "class"@ {
        TokenType::Class
    } else if lex == "else"@ {
        TokenType::Else
    } else if lex == "false"@ {
        TokenType::False
    } else if lex == "fun"@ {
        TokenType::Fun
    } else if lex == "for"@ {
        TokenType::For
    } else if lex == "if"@ {
        TokenType::If
    } else if lex == "nil"@ {
        TokenType::Nil
    } else if lex == "or"@ {
        TokenType::Or
    } else if lex == "print"@ {
        TokenType::Print
    } else if lex == "return"@ {
        TokenType::Return
    } else if lex == "super"@ {
        TokenType::Super
    } else if lex == "this"@ {
        TokenType::This
    } else if lex == "true"@ {
        TokenType::True
    } else if lex == "var"@ {
        TokenType::Var
    } else if lex == "while"@ {
        TokenType::While
    } else {
        TokenType::Identifier
    }
}

/// First position at or after `i` that holds no decimal digit (or the end).
pub open spec fn digits_end(s: Seq<char>, i: int) -> int
    decreases s.len() - i
        when 0 <= i <= s.len()
{
    if i < s.len() && is_digit(s[i]) {
        digits_end(s, i + 1)
    } else {
        i
    }
}

/// First position at or after `i` that cannot continue an identifier.
pub open spec fn ident_end(s: Seq<char>, i: int) -> int
    decreases s.len() - i
        when 0 <= i <= s.len()
{
    if i < s.len() && is_alnum(s[i]) {
        ident_end(s, i + 1)
    } else {
        i
    }
}

/// First position at or after `i` holding a newline (or the end): where a
/// line comment's discarded text stops.
pub open spec fn comment_end(s: Seq<char>, i: int) -> int
    decreases s.len() - i
        when 0 <= i <= s.len()
{
    if i < s.len() && s[i] != '\n' {
        comment_end(s, i + 1)
    } else {
        i
    }
}

/// First position at or after `i` holding a closing quote, or the end if
/// the string literal is never closed.
pub open spec fn string_end(s: Seq<char>, i: int) -> int
    decreases s.len() - i
        when 0 <= i <= s.len()
{
    if i < s.len() && s[i] != '"' {
        string_end(s, i + 1)
    } else {
        i
    }
}

/// How many newline characters stand in `s[i..j]`.
pub open spec fn newlines(s: Seq<char>, i: int, j: int) -> nat
    decreases j - i
        when i <= j
{
    if i < j {
        newlines(s, i, j - 1) + (if s[j - 1] == '\n' {
            1nat
        } else {
            0nat
        })
    } else {
        0nat
    }
}

/// Where a number lexeme starting with the digit at `i` ends: contiguous
/// digits, optionally a dot followed by at least one digit and the digits
/// after it. A trailing dot with no digit after it is left for the next
/// token.
pub open spec fn number_end(s: Seq<char>, i: int) -> int {
    let d = digits_end(s, i);
    if d < s.len() && s[d] == '.' && d + 1 < s.len() && is_digit(s[d + 1]) {
        digits_end(s, d + 2)
    } else {
        d
    }
}

/// What one scan call produces: the token sequence (ending in the
/// end-of-input marker) and the errors, each in source order.
pub ghost struct ScanOut {
    pub tokens: Seq<TokenModel>,
    pub errors: Seq<ErrorModel>,
}

/// The end-of-input marker token, with an empty lexeme.
pub open spec fn eof_at(line: nat) -> TokenModel {
    TokenModel { kind: TokenType::EOF, lexeme: Seq::empty(), line }
}

/// Prepends a token to a scan result.
pub open spec fn with_token(t: TokenModel, rest: ScanOut) -> ScanOut {
    ScanOut { tokens: seq![t] + rest.tokens, errors: rest.errors }
}

/// Prepends an error to a scan result.
pub open spec fn with_error(e: ErrorModel, rest: ScanOut) -> ScanOut {
    ScanOut { tokens: rest.tokens, errors: seq![e] + rest.errors }
}

/// What scanning `s` from position `i` on line `line` produces: one
/// left-to-right pass with one character of lookahead. An unexpected
/// character yields an error and scanning goes on; an unterminated string
/// literal ends the scan at once, with only the end-of-input token after it.
pub open spec fn scan_model(s: Seq<char>, i: int, line: nat) -> ScanOut
    decreases s.len() - i
        when 0 <= i
        via scan_model_decreases
{
    if i >= s.len() {
        ScanOut { tokens: seq![eof_at(line)], errors: Seq::empty() }
    } else {
        let c = s[i];
        if is_single_punct(c) {
            with_token(
                TokenModel { kind: single_punct_kind(c), lexeme: s.subrange(i, i + 1), line },
                scan_model(s, i + 1, line),
            )
        } else if is_maybe_double(c) {
            if i + 1 < s.len() && s[i + 1] == '=' {
                with_token(
                    TokenModel { kind: two_char_kind(c), lexeme: s.subrange(i, i + 2), line },
                    scan_model(s, i + 2, line),
                )
            } else {
                with_token(
                    TokenModel { kind: one_char_kind(c), lexeme: s.subrange(i, i + 1), line },
                    scan_model(s, i + 1, line),
                )
            }
        } else if c == '/' {
            if i + 1 < s.len() && s[i + 1] == '/' {
                scan_model(s, comment_end(s, i + 2), line)
            } else {
                with_token(
                    TokenModel { kind: TokenType::Slash, lexeme: s.subrange(i, i + 1), line },
                    scan_model(s, i + 1, line),
                )
            }
        } else if c == '"' {
            let e = string_end(s, i + 1);
            if e < s.len() {
                let line2 = line + newlines(s, i + 1, e);
                with_token(
                    TokenModel { kind: TokenType::String, lexeme: s.subrange(i, e + 1), line: line2 },
                    scan_model(s, e + 1, line2),
                )
            } else {
                let line2 = line + newlines(s, i + 1, s.len() as int);
                ScanOut {
                    tokens: seq![eof_at(line2)],
                    errors: seq![ErrorModel::UnterminatedString { line: line2 }],
                }
            }
        } else if is_digit(c) {
            let e = number_end(s, i);
            with_token(
                TokenModel { kind: TokenType::Number, lexeme: s.subrange(i, e), line },
                scan_model(s, e, line),
            )
        } else if is_alpha(c) {
            let e = ident_end(s, i);
            with_token(
                TokenModel { kind: keyword_kind(s.subrange(i, e)), lexeme: s.subrange(i, e), line },
                scan_model(s, e, line),
            )
        } else if c == ' ' || c == '\r' || c == '\t' {
            scan_model(s, i + 1, line)
        } else if c == '\n' {
            scan_model(s, i + 1, line + 1)
        } else {
            with_error(
                ErrorModel::UnexpectedCharacter { line, character: c },
                scan_model(s, i + 1, line),
            )
        }
    }
}

#[via_fn]
proof fn scan_model_decreases(s: Seq<char>, i: int, line: nat) {
    if 0 <= i && i < s.len() {
        let c = s[i];
        if c == '/' && i + 1 < s.len() && s[i + 1] == '/' {
            lemma_scan_end_bounds(s, i + 2);
        }
        if c == '"' {
            lemma_scan_end_bounds(s, i + 1);
        }
        if is_digit(c) {
            lemma_number_end_bounds(s, i);
        }
        if is_alpha(c) {
            lemma_scan_end_bounds(s, i + 1);
            assert(ident_end(s, i) == ident_end(s, i + 1));
        }
    }
}

/// The sub-scanners for digits, identifiers, comments and strings never move
/// backwards and never run past the end of the input.
pub proof fn lemma_scan_end_bounds(s: Seq<char>, i: int)
    requires
        0 <= i <= s.len(),
    ensures
        i <= digits_end(s, i) <= s.len(),
        i <= ident_end(s, i) <= s.len(),
        i <= comment_end(s, i) <= s.len(),
        i <= string_end(s, i) <= s.len(),
    decreases s.len() - i,
{
    if i < s.len() {
        lemma_scan_end_bounds(s, i + 1);
    }
}

/// A number lexeme stays within the input, and is non-empty when it starts
/// at a digit.
pub proof fn lemma_number_end_bounds(s: Seq<char>, i: int)
    requires
        0 <= i <= s.len(),
    ensures
        i <= number_end(s, i) <= s.len(),
        i < s.len() && is_digit(s[i]) ==> i + 1 <= number_end(s, i),
{
    lemma_scan_end_bounds(s, i);
    if i < s.len() && is_digit(s[i]) {
        lemma_scan_end_bounds(s, i + 1);
        assert(digits_end(s, i) == digits_end(s, i + 1));
    }
    let d = digits_end(s, i);
    if d < s.len() && s[d] == '.' && d + 1 < s.len() && is_digit(s[d + 1]) {
        lemma_scan_end_bounds(s, d + 2);
    }
}

/// At most one newline per character: the count over a range is bounded by
/// the range's width.
pub proof fn lemma_newlines_le(s: Seq<char>, i: int, j: int)
    requires
        i <= j,
    ensures
        newlines(s, i, j) <= j - i,
    decreases j - i,
{
    if i < j {
        lemma_newlines_le(s, i, j - 1);
    }
}

/// What scanning a whole source text produces: the scan starts at the first
/// character, on line 1.
pub open spec fn scanned(s: Seq<char>) -> ScanOut {
    scan_model(s, 0, 1)
}

/// Wherever the scan stands and whatever the remaining input holds, the
/// token stream it produces is non-empty and its last element is the
/// end-of-input marker.
pub proof fn lemma_scan_ends_with_eof(s: Seq<char>, i: int, line: nat)
    requires
        0 <= i,
    ensures
        scan_model(s, i, line).tokens.len() >= 1,
        scan_model(s, i, line).tokens.last().kind == TokenType::EOF,
    decreases s.len() - i,
{
    if i < s.len() {
        let c = s[i];
        if is_single_punct(c) {
            lemma_scan_ends_with_eof(s, i + 1, line);
        } else if is_maybe_double(c) {
            if i + 1 < s.len() && s[i + 1] == '=' {
                lemma_scan_ends_with_eof(s, i + 2, line);
            } else {
                lemma_scan_ends_with_eof(s, i + 1, line);
            }
        } else if c == '/' {
            if i + 1 < s.len() && s[i + 1] == '/' {
                lemma_scan_end_bounds(s, i + 2);
                lemma_scan_ends_with_eof(s, comment_end(s, i + 2), line);
            } else {
                lemma_scan_ends_with_eof(s, i + 1, line);
            }
        } else if c == '"' {
            let e = string_end(s, i + 1);
            if e < s.len() {
                lemma_scan_end_bounds(s, i + 1);
                lemma_scan_ends_with_eof(s, e + 1, line + newlines(s, i + 1, e));
            }
        } else if is_digit(c) {
            lemma_number_end_bounds(s, i);
            lemma_scan_ends_with_eof(s, number_end(s, i), line);
        } else if is_alpha(c) {
            lemma_scan_end_bounds(s, i);
            lemma_scan_ends_with_eof(s, ident_end(s, i), line);
        } else if c == ' ' || c == '\r' || c == '\t' {
            lemma_scan_ends_with_eof(s, i + 1, line);
        } else if c == '\n' {
            lemma_scan_ends_with_eof(s, i + 1, line + 1);
        } else {
            lemma_scan_ends_with_eof(s, i + 1, line);
        }
    }
}

/// For every source text, the scanned token sequence ends in the
/// end-of-input marker.
pub proof fn lemma_scanned_ends_with_eof(s: Seq<char>)
    ensures
        scanned(s).tokens.len() >= 1,
        scanned(s).tokens.last().kind == TokenType::EOF,
{
    lemma_scan_ends_with_eof(s, 0, 1);
}

/// A closed string literal is one token whose lexeme runs from the opening
/// to the closing quote inclusive; it is attributed to the line its closing
/// quote stands on, which is the start line plus the newlines embedded in
/// the literal, and scanning continues on that incremented line.
pub proof fn lemma_string_token_line(s: Seq<char>, i: int, line: nat)
    requires
        0 <= i < s.len(),
        s[i] == '"',
        string_end(s, i + 1) < s.len(),
    ensures
        ({
            let e = string_end(s, i + 1);
            let line2 = line + newlines(s, i + 1, e);
            scan_model(s, i, line) == with_token(
                TokenModel { kind: TokenType::String, lexeme: s.subrange(i, e + 1), line: line2 },
                scan_model(s, e + 1, line2),
            )
        }),
{
    lemma_scan_end_bounds(s, i + 1);
}

/// Greedy longest match: where `!`, `=`, `<` or `>` is followed by `=`, the
/// scanner emits the two-character operator, never the one-character
/// operator with a separate `=` after it; with no `=` following, it emits
/// the one-character operator.
pub proof fn lemma_greedy_operator(s: Seq<char>, i: int, line: nat)
    requires
        0 <= i < s.len(),
        is_maybe_double(s[i]),
    ensures
        i + 1 < s.len() && s[i + 1] == '=' ==> scan_model(s, i, line) == with_token(
            TokenModel { kind: two_char_kind(s[i]), lexeme: s.subrange(i, i + 2), line },
            scan_model(s, i + 2, line),
        ),
        !(i + 1 < s.len() && s[i + 1] == '=') ==> scan_model(s, i, line) == with_token(
            TokenModel { kind: one_char_kind(s[i]), lexeme: s.subrange(i, i + 1), line },
            scan_model(s, i + 1, line),
        ),
{
}

/// An unterminated string literal is fatal to the scan: nothing after the
/// opening quote is scanned, the only token left is the end-of-input
/// marker, and the single error carries the line reached after the
/// literal's embedded newlines.
pub proof fn lemma_unterminated_string_is_fatal(s: Seq<char>, i: int, line: nat)
    requires
        0 <= i < s.len(),
        s[i] == '"',
        string_end(s, i + 1) == s.len(),
    ensures
        scan_model(s, i, line) == (ScanOut {
            tokens: seq![eof_at(line + newlines(s, i + 1, s.len() as int))],
            errors: seq![
                ErrorModel::UnterminatedString {
                    line: line + newlines(s, i + 1, s.len() as int),
                },
            ],
        }),
{
    lemma_scan_end_bounds(s, i + 1);
}

/// An unexpected character never halts the scan: it contributes exactly one
/// error, and scanning continues with the next character on the same line.
pub proof fn lemma_unexpected_character_continues(s: Seq<char>, i: int, line: nat)
    requires
        0 <= i < s.len(),
        !is_single_punct(s[i]),
        !is_maybe_double(s[i]),
        s[i] != '/',
        s[i] != '"',
        !is_digit(s[i]),
        !is_alpha(s[i]),
        s[i] != ' ',
        s[i] != '\r',
        s[i] != '\t',
        s[i] != '\n',
    ensures
        scan_model(s, i, line) == with_error(
            ErrorModel::UnexpectedCharacter { line, character: s[i] },
            scan_model(s, i + 1, line),
        ),
{
}

/// Identifier scanning is longest-match: the lexeme runs to the end of the
/// contiguous alphanumeric stretch, and only the complete lexeme is held
/// against the reserved words.
pub proof fn lemma_ident_end_is_longest_match(s: Seq<char>, i: int)
    requires
        0 <= i <= s.len(),
    ensures
        i <= ident_end(s, i) <= s.len(),
        forall|j: int| i <= j < ident_end(s, i) ==> is_alnum(s[j]),
        ident_end(s, i) < s.len() ==> !is_alnum(s[ident_end(s, i)]),
    decreases s.len() - i,
{
    if i < s.len() && is_alnum(s[i]) {
        lemma_ident_end_is_longest_match(s, i + 1);
    }
}

impl Token {
    /// Builds a token from its parts.
    pub fn new(token_type: TokenType, lexeme: String, line: usize) -> (t: Token)
        ensures
            t@ == (TokenModel { kind: token_type, lexeme: lexeme@, line: line as nat }),
    {
        Token { token_type, lexeme, line }
    }

    /// Scans `source` in one left-to-right pass and returns the tokens and
    /// the lexical errors, each in source order. The token sequence always
    /// ends in the end-of-input marker; an unexpected character only adds an
    /// error, while an unterminated string literal ends the scan at once.
    /// The result is exactly what [`scanned`] states.
    pub fn scan_tokens(source: &str) -> (r: (Vec<Token>, Vec<LoxError>))
        requires
            source@.len() < usize::MAX,
        ensures
            tokens_view(r.0@) == scanned(source@).tokens,
            errors_view(r.1@) == scanned(source@).errors,
    {
        let ghost s = source@;
        let n = source.unicode_len();
        let mut tokens: Vec<Token> = Vec::new();
        let mut errors: Vec<LoxError> = Vec::new();
        let mut i: usize = 0;
        let mut line: usize = 1;

        while i < n
            invariant
                s == source@,
                n == s.len(),
                n < usize::MAX,
                i <= n,
                1 <= line,
                line as int <= 1 + i as int,
                scanned(s).tokens == tokens_view(tokens@) + scan_model(
                    s,
                    i as int,
                    line as nat,
                ).tokens,
                scanned(s).errors == errors_view(errors@) + scan_model(
                    s,
                    i as int,
                    line as nat,
                ).errors,
            decreases n - i,
        {
            let ghost rest = scan_model(s, i as int, line as nat);
            let c = source.get_char(i);
            if single_punct(c) {
                let kind = punct_kind_of(c);
                let lex = lexeme_of(source, i, i + 1);
                let t = Token::new(kind, lex, line);
                let ghost rest2 = scan_model(s, i as int + 1, line as nat);
                proof {
                    assert(rest == with_token(t@, rest2));
                    lemma_token_step(tokens@, t, scanned(s).tokens, rest2.tokens);
                }
                tokens.push(t);
                i = i + 1;
            } else if maybe_double(c) {
                if i + 1 < n && source.get_char(i + 1) == '=' {
                    let kind = two_kind_of(c);
                    let lex = lexeme_of(source, i, i + 2);
                    let t = Token::new(kind, lex, line);
                    let ghost rest2 = scan_model(s, i as int + 2, line as nat);
                    proof {
                        assert(rest == with_token(t@, rest2));
                        lemma_token_step(tokens@, t, scanned(s).tokens, rest2.tokens);
                    }
                    tokens.push(t);
                    i = i + 2;
                } else {
                    let kind = one_kind_of(c);
                    let lex = lexeme_of(source, i, i + 1);
                    let t = Token::new(kind, lex, line);
                    let ghost rest2 = scan_model(s, i as int + 1, line as nat);
                    proof {
                        assert(rest == with_token(t@, rest2));
                        lemma_token_step(tokens@, t, scanned(s).tokens, rest2.tokens);
                    }
                    tokens.push(t);
                    i = i + 1;
                }
            } else if c == '/' {
                if i + 1 < n && source.get_char(i + 1) == '/' {
                    let j = skip_comment(source, i + 2);
                    proof {
                        assert(rest == scan_model(s, j as int, line as nat));
                    }
                    i = j;
                } else {
                    let lex = lexeme_of(source, i, i + 1);
                    let t = Token::new(TokenType::Slash, lex, line);
                    let ghost rest2 = scan_model(s, i as int + 1, line as nat);
                    proof {
                        assert(rest == with_token(t@, rest2));
                        lemma_token_step(tokens@, t, scanned(s).tokens, rest2.tokens);
                    }
                    tokens.push(t);
                    i = i + 1;
                }
            } else if c == '"' {
                let close = find_string_close(source, i + 1, line);
                let j = close.0;
                let l2 = close.1;
                proof {
                    lemma_newlines_le(s, i as int + 1, j as int);
                }
                if j < n {
                    let lex = lexeme_of(source, i, j + 1);
                    let t = Token::new(TokenType::String, lex, l2);
                    let ghost rest2 = scan_model(s, j as int + 1, l2 as nat);
                    proof {
                        assert(rest == with_token(t@, rest2));
                        lemma_token_step(tokens@, t, scanned(s).tokens, rest2.tokens);
                    }
                    tokens.push(t);
                    i = j + 1;
                    line = l2;
                } else {
                    let err = LoxError::UnterminatedString(l2);
                    let t = Token::new(TokenType::EOF, String::new(), l2);
                    proof {
                        assert(rest.tokens == seq![t@] + Seq::<TokenModel>::empty());
                        assert(rest.errors == seq![err@] + Seq::<ErrorModel>::empty());
                        lemma_token_step(tokens@, t, scanned(s).tokens, Seq::empty());
                        lemma_error_step(errors@, err, scanned(s).errors, Seq::empty());
                        assert(tokens_view(tokens@.push(t)) + Seq::<TokenModel>::empty()
                            =~= tokens_view(tokens@.push(t)));
                        assert(errors_view(errors@.push(err)) + Seq::<ErrorModel>::empty()
                            =~= errors_view(errors@.push(err)));
                    }
                    errors.push(err);
                    tokens.push(t);
                    return (tokens, errors);
                }
            } else if digit(c) {
                let d = scan_digits(source, i);
                proof {
                    lemma_scan_end_bounds(s, i as int + 1);
                    assert(digits_end(s, i as int) == digits_end(s, i as int + 1));
                }
                let e: usize = if d < n && source.get_char(d) == '.' && d + 1 < n && digit(
                    source.get_char(d + 1),
                ) {
                    scan_digits(source, d + 2)
                } else {
                    d
                };
                proof {
                    assert(e as int == number_end(s, i as int));
                }
                let lex = lexeme_of(source, i, e);
                let t = Token::new(TokenType::Number, lex, line);
                let ghost rest2 = scan_model(s, e as int, line as nat);
                proof {
                    assert(rest == with_token(t@, rest2));
                    lemma_token_step(tokens@, t, scanned(s).tokens, rest2.tokens);
                }
                tokens.push(t);
                i = e;
            } else if alpha(c) {
                let e = scan_ident(source, i);
                proof {
                    lemma_scan_end_bounds(s, i as int + 1);
                    assert(ident_end(s, i as int) == ident_end(s, i as int + 1));
                }
                let lex = lexeme_of(source, i, e);
                let kind = keyword_or_identifier(&lex);
                let t = Token::new(kind, lex, line);
                let ghost rest2 = scan_model(s, e as int, line as nat);
                proof {
                    assert(rest == with_token(t@, rest2));
                    lemma_token_step(tokens@, t, scanned(s).tokens, rest2.tokens);
                }
                tokens.push(t);
                i = e;
            } else if c == ' ' || c == '\r' || c == '\t' {
                proof {
                    assert(rest == scan_model(s, i as int + 1, line as nat));
                }
                i = i + 1;
            } else if c == '\n' {
                proof {
                    assert(rest == scan_model(s, i as int + 1, line as nat + 1));
                }
                i = i + 1;
                line = line + 1;
            } else {
                let err = LoxError::UnexpectedCharacter(line, c);
                let ghost rest2 = scan_model(s, i as int + 1, line as nat);
                proof {
                    assert(rest == with_error(err@, rest2));
                    lemma_error_step(errors@, err, scanned(s).errors, rest2.errors);
                }
                errors.push(err);
                i = i + 1;
            }
        }
        let t = Token::new(TokenType::EOF, String::new(), line);
        proof {
            assert(scan_model(s, i as int, line as nat).tokens == seq![t@]
                + Seq::<TokenModel>::empty());
            lemma_token_step(tokens@, t, scanned(s).tokens, Seq::empty());
            assert(tokens_view(tokens@.push(t)) + Seq::<TokenModel>::empty() =~= tokens_view(
                tokens@.push(t),
            ));
            assert(errors_view(errors@) + Seq::<ErrorModel>::empty() =~= errors_view(errors@));
        }
        tokens.push(t);
        (tokens, errors)
    }
}

/// The token models of a token sequence.
pub open spec fn tokens_view(ts: Seq<Token>) -> Seq<TokenModel> {
    ts.map_values(|t: Token| t@)
}

/// The error models of an error sequence.
pub open spec fn errors_view(es: Seq<LoxError>) -> Seq<ErrorModel> {
    es.map_values(|e: LoxError| e@)
}

proof fn lemma_token_step(ts: Seq<Token>, t: Token, whole: Seq<TokenModel>, rest: Seq<TokenModel>)
    requires
        whole == tokens_view(ts) + (seq![t@] + rest),
    ensures
        whole == tokens_view(ts.push(t)) + rest,
{
    assert(tokens_view(ts.push(t)) =~= tokens_view(ts).push(t@));
    assert(tokens_view(ts).push(t@) + rest =~= tokens_view(ts) + (seq![t@] + rest));
}

proof fn lemma_error_step(es: Seq<LoxError>, e: LoxError, whole: Seq<ErrorModel>, rest: Seq<ErrorModel>)
    requires
        whole == errors_view(es) + (seq![e@] + rest),
    ensures
        whole == errors_view(es.push(e)) + rest,
{
    assert(errors_view(es.push(e)) =~= errors_view(es).push(e@));
    assert(errors_view(es).push(e@) + rest =~= errors_view(es) + (seq![e@] + rest));
}

fn digit(c: char) -> (b: bool)
    ensures
        b == is_digit(c),
{
    '0' <= c && c <= '9'
}

fn alpha(c: char) -> (b: bool)
    ensures
        b == is_alpha(c),
{
    ('a' <= c && c <= 'z') || ('A' <= c && c <= 'Z') || c == '_'
}

fn alnum(c: char) -> (b: bool)
    ensures
        b == is_alnum(c),
{
    digit(c) || alpha(c)
}

/// Copies the lexeme `source[from..to]` (in character positions) out of the
/// source text.
fn lexeme_of(source: &str, from: usize, to: usize) -> (r: String)
    requires
        from <= to <= source@.len(),
    ensures
        r@ == source@.subrange(from as int, to as int),
{
    String::from_str(source.substring_char(from, to))
}

/// Walks past contiguous digits, landing on [`digits_end`].
fn scan_digits(source: &str, start: usize) -> (j: usize)
    requires
        start <= source@.len(),
    ensures
        j as int == digits_end(source@, start as int),
        start <= j <= source@.len(),
{
    let n = source.unicode_len();
    let mut j: usize = start;
    while j < n && digit(source.get_char(j))
        invariant
            start <= j <= n,
            n == source@.len(),
            digits_end(source@, start as int) == digits_end(source@, j as int),
        decreases n - j,
    {
        j = j + 1;
    }
    j
}

/// Walks past identifier characters, landing on [`ident_end`].
fn scan_ident(source: &str, start: usize) -> (j: usize)
    requires
        start <= source@.len(),
    ensures
        j as int == ident_end(source@, start as int),
        start <= j <= source@.len(),
{
    let n = source.unicode_len();
    let mut j: usize = start;
    while j < n && alnum(source.get_char(j))
        invariant
            start <= j <= n,
            n == source@.len(),
            ident_end(source@, start as int) == ident_end(source@, j as int),
        decreases n - j,
    {
        j = j + 1;
    }
    j
}

/// Walks past a line comment's text, landing on [`comment_end`]: the next
/// newline, or the end of the input. The newline itself is not consumed.
fn skip_comment(source: &str, start: usize) -> (j: usize)
    requires
        start <= source@.len(),
    ensures
        j as int == comment_end(source@, start as int),
        start <= j <= source@.len(),
{
    let n = source.unicode_len();
    let mut j: usize = start;
    while j < n && source.get_char(j) != '\n'
        invariant
            start <= j <= n,
            n == source@.len(),
            comment_end(source@, start as int) == comment_end(source@, j as int),
        decreases n - j,
    {
        j = j + 1;
    }
    j
}

/// Walks a string literal's body looking for the closing quote, counting the
/// newlines passed on the way. Returns the position of the closing quote
/// ([`string_end`]; the input's end if there is none) and the line that
/// position stands on.
fn find_string_close(source: &str, start: usize, line: usize) -> (r: (usize, usize))
    requires
        start <= source@.len(),
        line as int + source@.len() - start as int <= usize::MAX,
    ensures
        r.0 as int == string_end(source@, start as int),
        start <= r.0 <= source@.len(),
        r.1 as nat == line as nat + newlines(source@, start as int, r.0 as int),
{
    let n = source.unicode_len();
    let mut j: usize = start;
    let mut l2: usize = line;
    while j < n && source.get_char(j) != '"'
        invariant
            start <= j <= n,
            n == source@.len(),
            line as int + n as int - start as int <= usize::MAX,
            string_end(source@, start as int) == string_end(source@, j as int),
            l2 as nat == line as nat + newlines(source@, start as int, j as int),
        decreases n - j,
    {
        proof {
            lemma_newlines_le(source@, start as int, j as int);
        }
        if source.get_char(j) == '\n' {
            l2 = l2 + 1;
        }
        j = j + 1;
    }
    (j, l2)
}

fn single_punct(c: char) -> (b: bool)
    ensures
        b == is_single_punct(c),
{
    c == '(' || c == ')' || c == '{' || c == '}' || c == ',' || c == '.' || c == '-' || c == '+'
        || c == ';' || c == '*'
}

fn maybe_double(c: char) -> (b: bool)
    ensures
        b == is_maybe_double(c),
{
    c == '!' || c == '=' || c == '<' || c == '>'
}

/// The operator kind when no `=` follows, as executable code.
fn one_kind_of(c: char) -> (k: TokenType)
    requires
        is_maybe_double(c),
    ensures
        k == one_char_kind(c),
{
    if c == '!' {
        TokenType::Bang
    } else if c == '=' {
        TokenType::Equal
    } else if c == '<' {
        TokenType::Less
    } else {
        TokenType::Greater
    }
}

/// The operator kind when `=` follows, as executable code.
fn two_kind_of(c: char) -> (k: TokenType)
    requires
        is_maybe_double(c),
    ensures
        k == two_char_kind(c),
{
    if c == '!' {
        TokenType::BangEqual
    } else if c == '=' {
        TokenType::EqualEqual
    } else if c == '<' {
        TokenType::LessEqual
    } else {
        TokenType::GreaterEqual
    }
}

/// The kind of a single-character punctuation token, as executable code.
fn punct_kind_of(c: char) -> (k: TokenType)
    requires
        is_single_punct(c),
    ensures
        k == single_punct_kind(c),
{
    if c == '(' {
        TokenType::LeftParen
    } else if c == ')' {
        TokenType::RightParen
    } else if c == '{' {
        TokenType::LeftBrace
    } else if c == '}' {
        TokenType::RightBrace
    } else if c == ',' {
        TokenType::Comma
    } else if c == '.' {
        TokenType::Dot
    } else if c == '-' {
        TokenType::Minus
    } else if c == '+' {
        TokenType::Plus
    } else if c == ';' {
        TokenType::Semicolon
    } else {
        TokenType::Star
    }
}

/// Looks the complete lexeme up in the reserved-word table; only an exact,
/// whole-lexeme match makes a keyword.
fn keyword_or_identifier(lexeme: &String) -> (k: TokenType)
    ensures
        k == keyword_kind(lexeme@),
{
    if *lexeme == String::from_str("and") {
        TokenType::And
    } else if *lexeme == String::from_str("class") {
        TokenType::Class
    } else if *lexeme == String::from_str("else") {
        TokenType::Else
    } else if *lexeme == String::from_str("false") {
        TokenType::False
    } else if *lexeme == String::from_str("fun") {
        TokenType::Fun
    } else if *lexeme == String::from_str("for") {
        TokenType::For
    } else if *lexeme == String::from_str("if") {
        TokenType::If
    } else if *lexeme == String::from_str("nil") {
        TokenType::Nil
    } else if *lexeme == String::from_str("or") {
        TokenType::Or
    } else if *lexeme == String::from_str("print") {
        TokenType::Print
    } else if *lexeme == String::from_str("return") {
        TokenType::Return
    } else if *lexeme == String::from_str("super") {
        TokenType::Super
    } else if *lexeme == String::from_str("this") {
        TokenType::This
    } else if *lexeme == String::from_str("true") {
        TokenType::True
    } else if *lexeme == String::from_str("var") {
        TokenType::Var
    } else if *lexeme == String::from_str("while") {
        TokenType::While
    } else {
        TokenType::Identifier
    }
}

} // verus!
