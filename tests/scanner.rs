use frontend::lexer::{is_whitespace, Lexer};
use frontend::pos::Position;
use frontend::tokens::{LexerToken, TokenData, TokenType};

fn scan(text: &str) -> Vec<LexerToken> {
    let mut lexer = Lexer::new(text);
    lexer.start_tokenizing()
}

fn kinds(tokens: &[LexerToken]) -> Vec<TokenType> {
    tokens.iter().map(|t| t.type_).collect()
}

fn text_of(t: &LexerToken) -> String {
    match &t.data {
        TokenData::Str(s) => s.clone(),
        other => panic!("expected source text, got {:?}", other),
    }
}

fn message_of(t: &LexerToken) -> String {
    match &t.data {
        TokenData::Message(s) => s.clone(),
        other => panic!("expected a message, got {:?}", other),
    }
}

#[test]
fn empty_input_gives_only_end_of_input() {
    let tokens = scan("");
    assert_eq!(kinds(&tokens), vec![TokenType::Eof]);
    assert!(matches!(tokens[0].data, TokenData::Empty));
    assert_eq!((tokens[0].lo, tokens[0].hi), (0, 0));
}

#[test]
fn whitespace_only_input_ends_at_the_end() {
    let tokens = scan(" \t\r\n ");
    assert_eq!(kinds(&tokens), vec![TokenType::Eof]);
    assert_eq!((tokens[0].lo, tokens[0].hi), (5, 5));
}

#[test]
fn a_binding_scans_into_tokens() {
    let tokens = scan("let x = 5;");
    assert_eq!(
        kinds(&tokens),
        vec![
            TokenType::KwLet,
            TokenType::Identifier,
            TokenType::Equal,
            TokenType::Number,
            TokenType::Semicolon,
            TokenType::Eof
        ]
    );
    assert_eq!(text_of(&tokens[0]), "let");
    assert_eq!(text_of(&tokens[1]), "x");
    assert_eq!(text_of(&tokens[2]), "=");
    assert!(matches!(tokens[3].data, TokenData::Integer(5)));
    assert_eq!(text_of(&tokens[4]), ";");
}

#[test]
fn reserved_words_get_their_kinds() {
    let tokens = scan("let val var mut native fun");
    assert_eq!(
        kinds(&tokens),
        vec![
            TokenType::KwLet,
            TokenType::KwVal,
            TokenType::KwVar,
            TokenType::KwMut,
            TokenType::KwNative,
            TokenType::KwFun,
            TokenType::Eof
        ]
    );
    for (t, w) in tokens.iter().zip(["let", "val", "var", "mut", "native", "fun"]) {
        assert_eq!(text_of(t), w);
    }
}

#[test]
fn words_near_keywords_are_identifiers() {
    let tokens = scan("lets fu native1 Let");
    assert_eq!(
        kinds(&tokens),
        vec![
            TokenType::Identifier,
            TokenType::Identifier,
            TokenType::Identifier,
            TokenType::Identifier,
            TokenType::Eof
        ]
    );
    assert_eq!(text_of(&tokens[2]), "native1");
}

#[test]
fn identifier_stops_at_a_delimiter() {
    let tokens = scan("foo_bar(x)");
    assert_eq!(
        kinds(&tokens),
        vec![
            TokenType::Identifier,
            TokenType::Underscore,
            TokenType::Identifier,
            TokenType::LParen,
            TokenType::Identifier,
            TokenType::RParen,
            TokenType::Eof
        ]
    );
    assert_eq!(text_of(&tokens[0]), "foo");
    assert_eq!(text_of(&tokens[2]), "bar");
}

#[test]
fn identifier_may_hold_other_characters() {
    let tokens = scan("héllo~9 ß");
    assert_eq!(kinds(&tokens), vec![TokenType::Identifier, TokenType::Identifier, TokenType::Eof]);
    assert_eq!(text_of(&tokens[0]), "héllo~9");
    assert_eq!(text_of(&tokens[1]), "ß");
    assert_eq!((tokens[1].lo, tokens[1].hi), (8, 9));
}

#[test]
fn integer_literal_has_its_value() {
    let tokens = scan("1234567");
    assert_eq!(kinds(&tokens), vec![TokenType::Number, TokenType::Eof]);
    assert!(matches!(tokens[0].data, TokenData::Integer(1234567)));
}

#[test]
fn largest_integer_literal_fits() {
    let tokens = scan("9223372036854775807");
    assert!(matches!(tokens[0].data, TokenData::Integer(i64::MAX)));
    let tokens = scan("007");
    assert!(matches!(tokens[0].data, TokenData::Integer(7)));
}

#[test]
fn integer_literal_too_large_is_an_error() {
    let tokens = scan("9223372036854775808 1");
    assert_eq!(kinds(&tokens), vec![TokenType::Error]);
    assert_eq!(
        message_of(&tokens[0]),
        "Failed to parse integer from source: number too large to fit in target type"
    );
}

#[test]
fn float_literal_keeps_its_text() {
    let tokens = scan("3.14+2.");
    assert_eq!(
        kinds(&tokens),
        vec![TokenType::Number, TokenType::Plus, TokenType::Number, TokenType::Eof]
    );
    match &tokens[0].data {
        TokenData::Float(s) => {
            assert_eq!(s, "3.14");
            let f: f64 = s.parse().unwrap();
            assert!((f - 3.14).abs() < 1e-12);
        }
        other => panic!("expected a float, got {:?}", other),
    }
    match &tokens[2].data {
        TokenData::Float(s) => assert_eq!(s, "2."),
        other => panic!("expected a float, got {:?}", other),
    }
}

#[test]
fn literal_with_two_dots_is_an_error() {
    let tokens = scan("1.2.3");
    assert_eq!(kinds(&tokens), vec![TokenType::Error]);
    assert_eq!(message_of(&tokens[0]), "Failed to parse float from source: invalid float literal");
    assert_eq!((tokens[0].lo, tokens[0].hi), (0, 5));
}

#[test]
fn string_literal_excludes_its_quotes() {
    let tokens = scan("\"hello world\" x");
    assert_eq!(kinds(&tokens), vec![TokenType::String, TokenType::Identifier, TokenType::Eof]);
    assert_eq!(text_of(&tokens[0]), "hello world");
    assert_eq!((tokens[0].lo, tokens[0].hi), (0, 13));
}

#[test]
fn empty_string_literal() {
    let tokens = scan("\"\"");
    assert_eq!(kinds(&tokens), vec![TokenType::String, TokenType::Eof]);
    assert_eq!(text_of(&tokens[0]), "");
}

#[test]
fn string_literal_keeps_backslashes() {
    let tokens = scan("\"a\\n\"");
    assert_eq!(text_of(&tokens[0]), "a\\n");
}

#[test]
fn unterminated_string_is_an_error() {
    let tokens = scan("x \"abc");
    assert_eq!(kinds(&tokens), vec![TokenType::Identifier, TokenType::Error]);
    assert_eq!(message_of(&tokens[1]), "Failed to extract string from input source.");
}

#[test]
fn invalid_character_ends_the_stream() {
    let tokens = scan("a ~ b");
    assert_eq!(kinds(&tokens), vec![TokenType::Identifier, TokenType::Error]);
    assert_eq!(message_of(&tokens[1]), "Invalid character.");
    assert_eq!((tokens[1].lo, tokens[1].hi), (2, 3));
}

#[test]
fn every_delimiter_has_its_kind() {
    let tokens = scan("=()][{}|/?\\;:'><.,-+_*%$#@!&^`");
    let expected = vec![
        TokenType::Equal,
        TokenType::LParen,
        TokenType::RParen,
        TokenType::RBracket,
        TokenType::LBracket,
        TokenType::LCurly,
        TokenType::RCurly,
        TokenType::Pipe,
        TokenType::Slash,
        TokenType::QMark,
        TokenType::Backslash,
        TokenType::Semicolon,
        TokenType::Colon,
        TokenType::Apost,
        TokenType::RAngle,
        TokenType::LAngle,
        TokenType::Dot,
        TokenType::Comma,
        TokenType::Minus,
        TokenType::Plus,
        TokenType::Underscore,
        TokenType::Star,
        TokenType::Percent,
        TokenType::Dollar,
        TokenType::Hash,
        TokenType::At,
        TokenType::Bang,
        TokenType::And,
        TokenType::Caret,
        TokenType::Tick,
        TokenType::Eof,
    ];
    assert_eq!(kinds(&tokens), expected);
    assert_eq!(text_of(&tokens[10]), "\\");
}

#[test]
fn positions_follow_lines_and_columns() {
    let tokens = scan("a\n  bc");
    assert_eq!(tokens[0].pos.start, Position { line: 0, col: 0 });
    assert_eq!(tokens[0].pos.end, Position { line: 0, col: 1 });
    assert_eq!((tokens[1].lo, tokens[1].hi), (4, 6));
    assert_eq!(tokens[1].pos.start, Position { line: 1, col: 2 });
    assert_eq!(tokens[1].pos.end, Position { line: 1, col: 4 });
    assert_eq!(tokens[2].pos.start, Position { line: 1, col: 4 });
}

#[test]
fn spans_rebuild_the_text() {
    let text = "let x = \"s p\" 42;\n  fun(a, 1.5) ";
    let chars: Vec<char> = text.chars().collect();
    let tokens = scan(text);
    assert_eq!(tokens.last().unwrap().type_, TokenType::Eof);
    let mut rebuilt = String::new();
    let mut from = 0;
    for t in &tokens {
        assert!(from <= t.lo && t.lo <= t.hi);
        assert!(chars[from..t.lo].iter().all(|c| c.is_whitespace()));
        rebuilt.extend(&chars[from..t.hi]);
        from = t.hi;
    }
    assert_eq!(rebuilt, text);
}

#[test]
fn stream_has_exactly_one_terminal_token() {
    for text in ["", "a b c", "1.2.3 x", "\"open", "x # ~ y", "  \n"] {
        let tokens = scan(text);
        assert!(!tokens.is_empty());
        assert!(tokens.last().unwrap().is_terminal());
        assert!(tokens[..tokens.len() - 1].iter().all(|t| !t.is_terminal()));
    }
}

#[test]
fn end_of_input_repeats() {
    let mut lexer = Lexer::new("x");
    assert_eq!(lexer.get_token().type_, TokenType::Identifier);
    assert_eq!(lexer.get_token().type_, TokenType::Eof);
    assert_eq!(lexer.get_token().type_, TokenType::Eof);
}

#[test]
fn keyword_lookup() {
    assert_eq!(Lexer::is_keyword(&"native".to_string()), TokenType::KwNative);
    assert_eq!(Lexer::is_keyword(&"nat".to_string()), TokenType::Identifier);
    assert_eq!(Lexer::is_delimiter('^'), Some(TokenType::Caret));
    assert_eq!(Lexer::is_delimiter('a'), None);
}

#[test]
fn whitespace_classification() {
    for c in [' ', '\t', '\n', '\r', '\u{0B}', '\u{0C}', '\u{85}', '\u{A0}', '\u{2003}', '\u{3000}'] {
        assert!(is_whitespace(c));
        assert!(c.is_whitespace());
    }
    for c in ['a', '0', '"', '\u{200B}', '_', 'é'] {
        assert!(!is_whitespace(c));
        assert!(!c.is_whitespace());
    }
}

#[test]
fn keyword_followed_by_delimiter_after_whitespace() {
    let tokens = scan("  \n fun(");
    assert_eq!(kinds(&tokens), vec![TokenType::KwFun, TokenType::LParen, TokenType::Eof]);
    assert_eq!((tokens[0].lo, tokens[0].hi), (4, 7));
}

#[test]
fn digits_never_start_an_identifier() {
    let tokens = scan("12ab");
    assert_eq!(kinds(&tokens), vec![TokenType::Number, TokenType::Identifier, TokenType::Eof]);
    assert!(matches!(tokens[0].data, TokenData::Integer(12)));
    assert_eq!(text_of(&tokens[1]), "ab");
}
