use rlox::errors::LoxError;
use rlox::lexer::{Token, TokenType};

fn scan(source: &str) -> (Vec<Token>, Vec<LoxError>) {
    Token::scan_tokens(source)
}

fn kinds(tokens: &[Token]) -> Vec<TokenType> {
    tokens.iter().map(|t| t.token_type).collect()
}

#[test]
fn empty_input_yields_only_eof() {
    let (tokens, errors) = scan("");
    assert_eq!(tokens.len(), 1);
    assert_eq!(tokens[0].token_type, TokenType::EOF);
    assert_eq!(tokens[0].lexeme, "");
    assert_eq!(tokens[0].line, 1);
    assert!(errors.is_empty());
}

#[test]
fn every_single_punctuation_is_one_token() {
    let cases = [
        ("(", TokenType::LeftParen),
        (")", TokenType::RightParen),
        ("{", TokenType::LeftBrace),
        ("}", TokenType::RightBrace),
        (",", TokenType::Comma),
        (".", TokenType::Dot),
        ("-", TokenType::Minus),
        ("+", TokenType::Plus),
        (";", TokenType::Semicolon),
        ("/", TokenType::Slash),
        ("*", TokenType::Star),
    ];
    for (text, kind) in cases {
        let (tokens, errors) = scan(text);
        assert_eq!(tokens.len(), 2, "input {:?}", text);
        assert_eq!(tokens[0].token_type, kind, "input {:?}", text);
        assert_eq!(tokens[0].lexeme, text);
        assert_eq!(tokens[0].line, 1);
        assert_eq!(tokens[1].token_type, TokenType::EOF);
        assert!(errors.is_empty(), "input {:?}", text);
    }
}

#[test]
fn greedy_matching_prefers_two_character_operators() {
    let (tokens, errors) = scan("!=");
    assert_eq!(kinds(&tokens), vec![TokenType::BangEqual, TokenType::EOF]);
    assert_eq!(tokens[0].lexeme, "!=");
    assert!(errors.is_empty());

    let (tokens, errors) = scan("!");
    assert_eq!(kinds(&tokens), vec![TokenType::Bang, TokenType::EOF]);
    assert_eq!(tokens[0].lexeme, "!");
    assert!(errors.is_empty());
}

#[test]
fn one_and_two_character_operator_variants() {
    let cases = [
        ("=", TokenType::Equal),
        ("==", TokenType::EqualEqual),
        ("<", TokenType::Less),
        ("<=", TokenType::LessEqual),
        (">", TokenType::Greater),
        (">=", TokenType::GreaterEqual),
    ];
    for (text, kind) in cases {
        let (tokens, errors) = scan(text);
        assert_eq!(kinds(&tokens), vec![kind, TokenType::EOF], "input {:?}", text);
        assert_eq!(tokens[0].lexeme, text);
        assert!(errors.is_empty());
    }
}

#[test]
fn equal_then_bang_is_not_merged() {
    let (tokens, errors) = scan("=!");
    assert_eq!(
        kinds(&tokens),
        vec![TokenType::Equal, TokenType::Bang, TokenType::EOF]
    );
    assert!(errors.is_empty());
}

#[test]
fn line_comment_produces_no_tokens() {
    let (tokens, errors) = scan("// hello\n+");
    assert_eq!(tokens.len(), 2);
    assert_eq!(tokens[0].token_type, TokenType::Plus);
    assert_eq!(tokens[0].lexeme, "+");
    assert_eq!(tokens[0].line, 2);
    assert_eq!(tokens[1].token_type, TokenType::EOF);
    assert_eq!(tokens[1].line, 2);
    assert!(errors.is_empty());
}

#[test]
fn comment_at_end_of_input_is_fine() {
    let (tokens, errors) = scan("+ // trailing");
    assert_eq!(kinds(&tokens), vec![TokenType::Plus, TokenType::EOF]);
    assert!(errors.is_empty());
}

#[test]
fn lone_slash_is_a_token() {
    let (tokens, errors) = scan("1/2");
    assert_eq!(
        kinds(&tokens),
        vec![TokenType::Number, TokenType::Slash, TokenType::Number, TokenType::EOF]
    );
    assert!(errors.is_empty());
}

#[test]
fn unterminated_string_is_fatal_but_reported_as_data() {
    let (tokens, errors) = scan("\"abc");
    assert_eq!(tokens.len(), 1);
    assert_eq!(tokens[0].token_type, TokenType::EOF);
    assert_eq!(errors, vec![LoxError::UnterminatedString(1)]);
}

#[test]
fn unterminated_string_stops_scanning_the_rest() {
    // the @ and + after the unclosed quote must not be scanned
    let (tokens, errors) = scan("\"abc\n@ +");
    assert_eq!(tokens.len(), 1);
    assert_eq!(tokens[0].token_type, TokenType::EOF);
    assert_eq!(tokens[0].line, 2);
    assert_eq!(errors, vec![LoxError::UnterminatedString(2)]);
}

#[test]
fn unexpected_character_does_not_halt_scanning() {
    let (tokens, errors) = scan("@+");
    assert_eq!(errors, vec![LoxError::UnexpectedCharacter(1, '@')]);
    assert_eq!(kinds(&tokens), vec![TokenType::Plus, TokenType::EOF]);
    assert_eq!(tokens[0].lexeme, "+");
}

#[test]
fn several_unexpected_characters_all_reported() {
    let (tokens, errors) = scan("@\n#");
    assert_eq!(
        errors,
        vec![
            LoxError::UnexpectedCharacter(1, '@'),
            LoxError::UnexpectedCharacter(2, '#'),
        ]
    );
    assert_eq!(kinds(&tokens), vec![TokenType::EOF]);
}

#[test]
fn forest_is_an_identifier_not_the_for_keyword() {
    let (tokens, errors) = scan("forest");
    assert_eq!(kinds(&tokens), vec![TokenType::Identifier, TokenType::EOF]);
    assert_eq!(tokens[0].lexeme, "forest");
    assert!(errors.is_empty());
}

#[test]
fn every_reserved_word_gets_its_kind() {
    let cases = [
        ("and", TokenType::And),
        ("class", TokenType::Class),
        ("else", TokenType::Else),
        ("false", TokenType::False),
        ("fun", TokenType::Fun),
        ("for", TokenType::For),
        ("if", TokenType::If),
        ("nil", TokenType::Nil),
        ("or", TokenType::Or),
        ("print", TokenType::Print),
        ("return", TokenType::Return),
        ("super", TokenType::Super),
        ("this", TokenType::This),
        ("true", TokenType::True),
        ("var", TokenType::Var),
        ("while", TokenType::While),
    ];
    for (text, kind) in cases {
        let (tokens, errors) = scan(text);
        assert_eq!(kinds(&tokens), vec![kind, TokenType::EOF], "input {:?}", text);
        assert_eq!(tokens[0].lexeme, text);
        assert!(errors.is_empty());
    }
}

#[test]
fn identifiers_with_underscores_and_digits() {
    let (tokens, errors) = scan("_x9 while1");
    assert_eq!(
        kinds(&tokens),
        vec![TokenType::Identifier, TokenType::Identifier, TokenType::EOF]
    );
    assert_eq!(tokens[0].lexeme, "_x9");
    assert_eq!(tokens[1].lexeme, "while1");
    assert!(errors.is_empty());
}

#[test]
fn second_dot_does_not_extend_a_number() {
    let (tokens, errors) = scan("123.45.6");
    assert_eq!(
        kinds(&tokens),
        vec![TokenType::Number, TokenType::Dot, TokenType::Number, TokenType::EOF]
    );
    assert_eq!(tokens[0].lexeme, "123.45");
    assert_eq!(tokens[1].lexeme, ".");
    assert_eq!(tokens[2].lexeme, "6");
    assert!(errors.is_empty());
}

#[test]
fn trailing_dot_is_not_part_of_a_number() {
    let (tokens, errors) = scan("123.");
    assert_eq!(
        kinds(&tokens),
        vec![TokenType::Number, TokenType::Dot, TokenType::EOF]
    );
    assert_eq!(tokens[0].lexeme, "123");
    assert!(errors.is_empty());
}

#[test]
fn string_lexeme_keeps_its_quotes() {
    let (tokens, errors) = scan("\"hi\"");
    assert_eq!(kinds(&tokens), vec![TokenType::String, TokenType::EOF]);
    assert_eq!(tokens[0].lexeme, "\"hi\"");
    assert_eq!(tokens[0].line, 1);
    assert!(errors.is_empty());
}

#[test]
fn multi_line_string_is_attributed_to_its_closing_line() {
    let (tokens, errors) = scan("\"a\nb\" x");
    assert_eq!(
        kinds(&tokens),
        vec![TokenType::String, TokenType::Identifier, TokenType::EOF]
    );
    assert_eq!(tokens[0].lexeme, "\"a\nb\"");
    assert_eq!(tokens[0].line, 2);
    // subsequent tokens carry the incremented line
    assert_eq!(tokens[1].lexeme, "x");
    assert_eq!(tokens[1].line, 2);
    assert!(errors.is_empty());
}

#[test]
fn whitespace_is_discarded_without_stopping_the_scan() {
    let (tokens, errors) = scan(" \t\r+ -");
    assert_eq!(
        kinds(&tokens),
        vec![TokenType::Plus, TokenType::Minus, TokenType::EOF]
    );
    assert!(errors.is_empty());
}

#[test]
fn newlines_increment_the_line_counter() {
    let (tokens, errors) = scan("+\n-\n*");
    assert_eq!(tokens[0].line, 1);
    assert_eq!(tokens[1].line, 2);
    assert_eq!(tokens[2].line, 3);
    assert_eq!(tokens[3].token_type, TokenType::EOF);
    assert_eq!(tokens[3].line, 3);
    assert!(errors.is_empty());
}

#[test]
fn multibyte_characters_are_not_split() {
    let (tokens, errors) = scan("\"héllo\"");
    assert_eq!(kinds(&tokens), vec![TokenType::String, TokenType::EOF]);
    assert_eq!(tokens[0].lexeme, "\"héllo\"");
    assert!(errors.is_empty());

    let (tokens, errors) = scan("§+");
    assert_eq!(errors, vec![LoxError::UnexpectedCharacter(1, '§')]);
    assert_eq!(kinds(&tokens), vec![TokenType::Plus, TokenType::EOF]);
}

#[test]
fn a_small_program_scans_cleanly() {
    let (tokens, errors) = scan("var x = 12.5;\nif (x >= 3) { print \"big\"; }");
    assert_eq!(
        kinds(&tokens),
        vec![
            TokenType::Var,
            TokenType::Identifier,
            TokenType::Equal,
            TokenType::Number,
            TokenType::Semicolon,
            TokenType::If,
            TokenType::LeftParen,
            TokenType::Identifier,
            TokenType::GreaterEqual,
            TokenType::Number,
            TokenType::RightParen,
            TokenType::LeftBrace,
            TokenType::Print,
            TokenType::String,
            TokenType::Semicolon,
            TokenType::RightBrace,
            TokenType::EOF,
        ]
    );
    assert!(errors.is_empty());
    assert_eq!(tokens[5].line, 2);
}

#[test]
fn token_new_keeps_its_parts() {
    let t = Token::new(TokenType::Plus, String::from("+"), 7);
    assert_eq!(t.token_type, TokenType::Plus);
    assert_eq!(t.lexeme, "+");
    assert_eq!(t.line, 7);
}
