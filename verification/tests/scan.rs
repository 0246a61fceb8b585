use rlox_interpreter::grammar::CharClass;
use rlox_interpreter::scanner::{scan_source, Diagnostic, Scanner, ScannerError};
use rlox_interpreter::token::{try_to_keyword, Decimal, Literal, Token, TokenType};

fn scan(source: &str) -> Result<Vec<Token>, ScannerError> {
    Scanner::new(source).try_scan_tokens()
}

fn kinds(tokens: &[Token]) -> Vec<TokenType> {
    tokens.iter().map(|t| t.token_type).collect()
}

fn lexemes(tokens: &[Token]) -> Vec<String> {
    tokens.iter().map(|t| t.lexeme.clone()).collect()
}

fn lines(tokens: &[Token]) -> Vec<usize> {
    tokens.iter().map(|t| t.line).collect()
}

fn number(token: &Token) -> f64 {
    assert_eq!(token.token_type, TokenType::Number);
    match &token.literal {
        Some(Literal::Float(d)) => {
            let text = if d.fraction.is_empty() {
                d.whole.clone()
            } else {
                format!("{}.{}", d.whole, d.fraction)
            };
            assert_eq!(text, token.lexeme);
            text.parse::<f64>().unwrap()
        }
        other => panic!("no numeral: {:?}", other),
    }
}

fn text(token: &Token) -> String {
    assert_eq!(token.token_type, TokenType::String);
    match &token.literal {
        Some(Literal::Text(t)) => t.clone(),
        other => panic!("no text: {:?}", other),
    }
}

#[test]
fn empty_source_is_only_the_end_marker() {
    let tokens = scan("").unwrap();
    assert_eq!(
        tokens,
        vec![Token::new(TokenType::EndOfSource, String::new(), None, 1)]
    );
}

#[test]
fn new_scanner_starts_at_the_beginning() {
    let scanner = Scanner::new("ab\n");
    assert_eq!(scanner.source, vec!['a', 'b', '\n']);
    assert!(scanner.tokens.is_empty());
    assert_eq!(scanner.start, 0);
    assert_eq!(scanner.current, 0);
    assert_eq!(scanner.line, 1);
}

#[test]
fn punctuation_gives_one_token_per_character() {
    let source = "(){},.-+;*/";
    let tokens = scan(source).unwrap();
    assert_eq!(tokens.len(), source.chars().count() + 1);
    assert_eq!(
        kinds(&tokens),
        vec![
            TokenType::LeftParen,
            TokenType::RightParen,
            TokenType::LeftBrace,
            TokenType::RightBrace,
            TokenType::Comma,
            TokenType::Dot,
            TokenType::Minus,
            TokenType::Plus,
            TokenType::SemiColon,
            TokenType::Star,
            TokenType::Slash,
            TokenType::EndOfSource,
        ]
    );
    for (i, c) in source.chars().enumerate() {
        assert_eq!(tokens[i].lexeme, c.to_string());
        assert_eq!(tokens[i].literal, None);
        assert_eq!(tokens[i].line, 1);
    }
    assert_eq!(tokens[source.len()].lexeme, "");
}

#[test]
fn slash_between_punctuation_stays_a_slash() {
    let tokens = scan("/(/)/").unwrap();
    assert_eq!(
        kinds(&tokens),
        vec![
            TokenType::Slash,
            TokenType::LeftParen,
            TokenType::Slash,
            TokenType::RightParen,
            TokenType::Slash,
            TokenType::EndOfSource,
        ]
    );
}

#[test]
fn two_slashes_start_a_comment() {
    let tokens = scan("+//-*").unwrap();
    assert_eq!(kinds(&tokens), vec![TokenType::Plus, TokenType::EndOfSource]);
    let tokens = scan("//").unwrap();
    assert_eq!(kinds(&tokens), vec![TokenType::EndOfSource]);
}

#[test]
fn lexemes_join_to_the_source_without_blanks_and_comments() {
    let source = "var a = 1.5; // set a\nprint \"x // y\" ;\t\r\nif (a >= 2) { a = a / 2; }";
    let tokens = scan(source).unwrap();
    let joined: String = lexemes(&tokens).concat();
    assert_eq!(joined, "vara=1.5;print\"x // y\";if(a>=2){a=a/2;}");
}

#[test]
fn lines_count_the_newlines_before_each_token() {
    let source = "a\nb\n\n c // x\n\"s\nt\" d\n";
    let tokens = scan(source).unwrap();
    assert_eq!(lexemes(&tokens), vec!["a", "b", "c", "\"s\nt\"", "d", ""]);
    assert_eq!(lines(&tokens), vec![1, 2, 4, 5, 6, 7]);
    let found = lines(&tokens);
    for pair in found.windows(2) {
        assert!(pair[0] <= pair[1]);
    }
}

#[test]
fn forest_is_one_identifier() {
    let tokens = scan("forest").unwrap();
    assert_eq!(
        tokens,
        vec![
            Token::new(TokenType::Identifier, "forest".to_string(), None, 1),
            Token::new(TokenType::EndOfSource, String::new(), None, 1),
        ]
    );
}

#[test]
fn reserved_words_need_the_whole_run() {
    let tokens = scan("for fore _for for_ For or orchid classy class").unwrap();
    assert_eq!(
        kinds(&tokens),
        vec![
            TokenType::For,
            TokenType::Identifier,
            TokenType::Identifier,
            TokenType::Identifier,
            TokenType::Identifier,
            TokenType::Or,
            TokenType::Identifier,
            TokenType::Identifier,
            TokenType::Class,
            TokenType::EndOfSource,
        ]
    );
}

#[test]
fn one_plus_two() {
    let tokens = scan("1 + 2").unwrap();
    assert_eq!(
        kinds(&tokens),
        vec![
            TokenType::Number,
            TokenType::Plus,
            TokenType::Number,
            TokenType::EndOfSource,
        ]
    );
    assert_eq!(number(&tokens[0]), 1.0);
    assert_eq!(number(&tokens[2]), 2.0);
    assert_eq!(tokens[1].literal, None);
    assert_eq!(tokens[3].literal, None);
}

#[test]
fn variable_declaration() {
    let tokens = scan("var x = 10;").unwrap();
    assert_eq!(
        kinds(&tokens),
        vec![
            TokenType::Var,
            TokenType::Identifier,
            TokenType::Equal,
            TokenType::Number,
            TokenType::SemiColon,
            TokenType::EndOfSource,
        ]
    );
    assert_eq!(tokens[1].lexeme, "x");
    assert_eq!(number(&tokens[3]), 10.0);
    assert_eq!(lexemes(&tokens), vec!["var", "x", "=", "10", ";", ""]);
}

#[test]
fn comment_then_number_on_line_two() {
    let tokens = scan("// comment\n42").unwrap();
    assert_eq!(kinds(&tokens), vec![TokenType::Number, TokenType::EndOfSource]);
    assert_eq!(number(&tokens[0]), 42.0);
    assert_eq!(tokens[0].line, 2);
    assert_eq!(tokens[1].line, 2);
}

#[test]
fn bang_equal_and_bang() {
    let tokens = scan("!=").unwrap();
    assert_eq!(kinds(&tokens), vec![TokenType::BangEqual, TokenType::EndOfSource]);
    assert_eq!(tokens[0].lexeme, "!=");
    let tokens = scan("!").unwrap();
    assert_eq!(kinds(&tokens), vec![TokenType::Bang, TokenType::EndOfSource]);
    assert_eq!(tokens[0].lexeme, "!");
}

#[test]
fn operators_take_a_following_equal_sign() {
    let tokens = scan("! != = == < <= > >= =!= ===").unwrap();
    assert_eq!(
        kinds(&tokens),
        vec![
            TokenType::Bang,
            TokenType::BangEqual,
            TokenType::Equal,
            TokenType::EqualEqual,
            TokenType::Less,
            TokenType::LessEqual,
            TokenType::Greater,
            TokenType::GreaterEqual,
            TokenType::Equal,
            TokenType::BangEqual,
            TokenType::EqualEqual,
            TokenType::Equal,
            TokenType::EndOfSource,
        ]
    );
}

#[test]
fn at_sign_is_invalid() {
    assert_eq!(scan("@"), Err(ScannerError::InvalidCharacter('@')));
}

#[test]
fn first_invalid_character_is_reported() {
    assert_eq!(scan("a = 1 # $"), Err(ScannerError::InvalidCharacter('#')));
    assert_eq!(scan("x\n\u{20ac}"), Err(ScannerError::InvalidCharacter('\u{20ac}')));
}

#[test]
fn failure_leaves_the_cursor_at_the_offender() {
    let mut scanner = Scanner::new("a\nb @ c");
    assert_eq!(
        scanner.try_scan_tokens(),
        Err(ScannerError::InvalidCharacter('@'))
    );
    assert_eq!(scanner.start, 4);
    assert_eq!(scanner.current, 4);
    assert_eq!(scanner.line, 2);
    assert!(scanner.tokens.is_empty());

    let mut scanner = Scanner::new("x\n\"abc\nd");
    assert_eq!(
        scanner.try_scan_tokens(),
        Err(ScannerError::UnterminatedString)
    );
    assert_eq!(scanner.start, 2);
    assert_eq!(scanner.current, 2);
    assert_eq!(scanner.line, 2);
}

#[test]
fn string_literal_and_unterminated_string() {
    let tokens = scan("\"hi\"").unwrap();
    assert_eq!(kinds(&tokens), vec![TokenType::String, TokenType::EndOfSource]);
    assert_eq!(text(&tokens[0]), "hi");
    assert_eq!(tokens[0].lexeme, "\"hi\"");
    assert_eq!(scan("\"hi"), Err(ScannerError::UnterminatedString));
    assert_eq!(scan("\""), Err(ScannerError::UnterminatedString));
}

#[test]
fn empty_string_literal() {
    let tokens = scan("\"\"").unwrap();
    assert_eq!(
        tokens,
        vec![
            Token::new(
                TokenType::String,
                "\"\"".to_string(),
                Some(Literal::Text(String::new())),
                1
            ),
            Token::new(TokenType::EndOfSource, String::new(), None, 1),
        ]
    );
}

#[test]
fn string_keeps_blanks_slashes_and_newlines() {
    let tokens = scan("\"a // b\n c\" x").unwrap();
    assert_eq!(
        kinds(&tokens),
        vec![TokenType::String, TokenType::Identifier, TokenType::EndOfSource]
    );
    assert_eq!(text(&tokens[0]), "a // b\n c");
    assert_eq!(tokens[0].line, 1);
    assert_eq!(tokens[1].line, 2);
    assert_eq!(tokens[2].line, 2);
}

#[test]
fn numbers_with_and_without_fraction() {
    let tokens = scan("12.5 007 3.14159 0.0").unwrap();
    assert_eq!(number(&tokens[0]), 12.5);
    assert_eq!(number(&tokens[1]), 7.0);
    assert_eq!(number(&tokens[2]), 3.14159);
    assert_eq!(number(&tokens[3]), 0.0);
    assert_eq!(
        tokens[0].literal,
        Some(Literal::Float(Decimal {
            whole: "12".to_string(),
            fraction: "5".to_string()
        }))
    );
    assert_eq!(
        tokens[1].literal,
        Some(Literal::Float(Decimal {
            whole: "007".to_string(),
            fraction: String::new()
        }))
    );
    assert_eq!(tokens.len(), 5);
}

#[test]
fn trailing_point_is_its_own_token() {
    let tokens = scan("12.").unwrap();
    assert_eq!(
        kinds(&tokens),
        vec![TokenType::Number, TokenType::Dot, TokenType::EndOfSource]
    );
    assert_eq!(number(&tokens[0]), 12.0);
    assert_eq!(lexemes(&tokens), vec!["12", ".", ""]);

    let tokens = scan("1.foo").unwrap();
    assert_eq!(
        kinds(&tokens),
        vec![
            TokenType::Number,
            TokenType::Dot,
            TokenType::Identifier,
            TokenType::EndOfSource
        ]
    );
}

#[test]
fn leading_point_and_second_point() {
    let tokens = scan(".5").unwrap();
    assert_eq!(
        kinds(&tokens),
        vec![TokenType::Dot, TokenType::Number, TokenType::EndOfSource]
    );
    let tokens = scan("1.2.3").unwrap();
    assert_eq!(lexemes(&tokens), vec!["1.2", ".", "3", ""]);
    assert_eq!(number(&tokens[0]), 1.2);
    assert_eq!(number(&tokens[2]), 3.0);
}

#[test]
fn digits_continue_an_identifier_but_do_not_start_one() {
    let tokens = scan("a1 1a _1").unwrap();
    assert_eq!(lexemes(&tokens), vec!["a1", "1", "a", "_1", ""]);
    assert_eq!(
        kinds(&tokens),
        vec![
            TokenType::Identifier,
            TokenType::Number,
            TokenType::Identifier,
            TokenType::Identifier,
            TokenType::EndOfSource
        ]
    );
}

#[test]
fn letters_beyond_ascii_are_alphabetic() {
    let tokens = scan("caf\u{e9} \u{3b1}\u{3b2}1").unwrap();
    assert_eq!(lexemes(&tokens), vec!["caf\u{e9}", "\u{3b1}\u{3b2}1", ""]);
    assert_eq!(
        kinds(&tokens),
        vec![
            TokenType::Identifier,
            TokenType::Identifier,
            TokenType::EndOfSource
        ]
    );
    assert_eq!(scan("\u{2603}"), Err(ScannerError::InvalidCharacter('\u{2603}')));
    assert_eq!(scan("a\u{d7}b"), Err(ScannerError::InvalidCharacter('\u{d7}')));
}

#[test]
fn ascii_symbols_are_no_letters() {
    for c in ['@', '#', '$', '%', '^', '&', '~', '`', '[', ']', '\\', '|', '\'', ':', '?'] {
        assert_eq!(scan(&c.to_string()), Err(ScannerError::InvalidCharacter(c)));
    }
}

#[test]
fn whitespace_alone_gives_the_end_marker() {
    let tokens = scan(" \t\r\n \n").unwrap();
    assert_eq!(
        tokens,
        vec![Token::new(TokenType::EndOfSource, String::new(), None, 3)]
    );
}

#[test]
fn comment_runs_to_the_end_of_the_source() {
    let tokens = scan("a // b c").unwrap();
    assert_eq!(kinds(&tokens), vec![TokenType::Identifier, TokenType::EndOfSource]);
    let tokens = scan("a / b").unwrap();
    assert_eq!(
        kinds(&tokens),
        vec![
            TokenType::Identifier,
            TokenType::Slash,
            TokenType::Identifier,
            TokenType::EndOfSource
        ]
    );
}

#[test]
fn every_reserved_word_is_recognised() {
    let table = [
        ("and", TokenType::And),
        ("class", TokenType::Class),
        ("else", TokenType::Else),
        ("false", TokenType::False),
        ("for", TokenType::For),
        ("if", TokenType::If),
        ("nil", TokenType::Nil),
        ("or", TokenType::Or),
        ("print", TokenType::Print),
        ("return", TokenType::Return),
        ("super", TokenType::Super),
        ("this", TokenType::This),
        ("true", TokenType::True),
        ("var", TokenType::Var),
        ("while", TokenType::While),
    ];
    for (word, kind) in table {
        assert_eq!(try_to_keyword(word), Some(kind));
        let tokens = scan(word).unwrap();
        assert_eq!(kinds(&tokens), vec![kind, TokenType::EndOfSource]);
        assert_eq!(tokens[0].lexeme, word);
        assert_eq!(tokens[0].literal, None);
    }
}

#[test]
fn other_words_are_no_keywords() {
    for word in ["", "a", "An", "AND", "fo", "forest", "whil", "whiles", "returns", "x"] {
        assert_eq!(try_to_keyword(word), None);
    }
}

#[test]
fn token_new_keeps_its_fields() {
    let token = Token::new(
        TokenType::String,
        "\"a\"".to_string(),
        Some(Literal::Text("a".to_string())),
        7,
    );
    assert_eq!(token.token_type, TokenType::String);
    assert_eq!(token.lexeme, "\"a\"");
    assert_eq!(token.literal, Some(Literal::Text("a".to_string())));
    assert_eq!(token.line, 7);
}

#[test]
fn scanner_keeps_the_tokens_it_returns() {
    let mut scanner = Scanner::new("a b");
    let tokens = scanner.try_scan_tokens().unwrap();
    assert_eq!(scanner.tokens, tokens);
    assert_eq!(scanner.current, 3);
    assert!(scanner.is_at_end());
}

#[test]
fn cursor_operations() {
    let mut scanner = Scanner::new("a=\nb");
    assert_eq!(scanner.peek(), 'a');
    assert_eq!(scanner.peek_next(), '=');
    assert_eq!(scanner.advance(), 'a');
    assert!(!scanner.is_next('x'));
    assert_eq!(scanner.current, 1);
    assert!(scanner.is_next('='));
    assert_eq!(scanner.current, 2);
    assert_eq!(scanner.line, 1);
    assert_eq!(scanner.advance(), '\n');
    assert_eq!(scanner.line, 2);
    assert_eq!(scanner.peek_next(), '\0');
    assert_eq!(scanner.advance(), 'b');
    assert_eq!(scanner.peek(), '\0');
    assert!(!scanner.is_next('b'));
    assert!(scanner.is_at_end());
    assert_eq!(scanner.text(0, 2), "a=");
}

#[test]
fn collecting_scan_reports_every_failure() {
    let mut scanner = Scanner::new("a @ b\n# \"x");
    let (tokens, diagnostics) = scanner.scan_all_tokens();
    assert_eq!(lexemes(&tokens), vec!["a", "b", "x", ""]);
    assert_eq!(
        kinds(&tokens),
        vec![
            TokenType::Identifier,
            TokenType::Identifier,
            TokenType::Identifier,
            TokenType::EndOfSource
        ]
    );
    assert_eq!(lines(&tokens), vec![1, 1, 2, 2]);
    assert_eq!(
        diagnostics,
        vec![
            Diagnostic {
                error: ScannerError::InvalidCharacter('@'),
                line: 1
            },
            Diagnostic {
                error: ScannerError::InvalidCharacter('#'),
                line: 2
            },
            Diagnostic {
                error: ScannerError::UnterminatedString,
                line: 2
            },
        ]
    );
    assert_eq!(scanner.tokens, tokens);
    assert!(scanner.is_at_end());
}

#[test]
fn collecting_scan_agrees_with_the_stopping_scan() {
    for source in ["", "var x = 10;", "// c\n42 \"s\" >= forest", "1.5.x"] {
        let (tokens, diagnostics) = Scanner::new(source).scan_all_tokens();
        assert!(diagnostics.is_empty());
        assert_eq!(Ok(tokens), scan(source));
    }
    for source in ["@", "a $ b @", "\"open", "x \" y @"] {
        let (_, diagnostics) = Scanner::new(source).scan_all_tokens();
        assert_eq!(Err(diagnostics[0].error), scan(source));
    }
}

#[test]
fn scanning_again_adds_another_end_marker() {
    let mut scanner = Scanner::new("a");
    let first = scanner.try_scan_tokens().unwrap();
    let second = scanner.try_scan_tokens().unwrap();
    assert_eq!(first.len(), 2);
    assert_eq!(kinds(&second), vec![
        TokenType::Identifier,
        TokenType::EndOfSource,
        TokenType::EndOfSource
    ]);
}

#[test]
fn scan_resumes_from_the_cursor() {
    let mut scanner = Scanner::new("a\nb c");
    assert_eq!(scanner.advance(), 'a');
    assert_eq!(scanner.advance(), '\n');
    scanner.start = scanner.current;
    let tokens = scanner.try_scan_tokens().unwrap();
    assert_eq!(lexemes(&tokens), vec!["b", "c", ""]);
    assert_eq!(lines(&tokens), vec![2, 2, 2]);
}

#[test]
fn single_element_steps() {
    let mut scanner = Scanner::new("12.5 //c\n\"s\" if");
    assert_eq!(scanner.try_scan_token(), Ok(()));
    assert_eq!(scanner.current, 4);
    assert_eq!(scanner.tokens.len(), 1);
    scanner.start = scanner.current;
    assert_eq!(scanner.try_scan_token(), Ok(()));
    assert_eq!(scanner.current, 5);
    scanner.start = scanner.current;
    assert_eq!(scanner.try_scan_token(), Ok(()));
    assert_eq!(scanner.current, 8);
    assert_eq!(scanner.tokens.len(), 1);
    scanner.start = scanner.current;
    assert_eq!(scanner.try_scan_token(), Ok(()));
    assert_eq!(scanner.line, 2);
    scanner.start = scanner.current;
    assert_eq!(scanner.try_scan_token(), Ok(()));
    assert_eq!(scanner.tokens.len(), 2);
    assert_eq!(scanner.tokens[1].lexeme, "\"s\"");
    assert_eq!(scanner.current, 12);
}

#[test]
fn runs_are_consumed_whole() {
    let mut scanner = Scanner::new("123abc_9 x");
    scanner.consume_run(CharClass::Digit);
    assert_eq!(scanner.current, 3);
    scanner.consume_run(CharClass::Digit);
    assert_eq!(scanner.current, 3);
    scanner.consume_run(CharClass::Word);
    assert_eq!(scanner.current, 8);
    scanner.consume_run(CharClass::CommentBody);
    assert_eq!(scanner.current, 10);
}

#[test]
fn failure_keeps_only_the_tokens_held_before() {
    let mut scanner = Scanner::new("a b @ c");
    scanner.tokens.push(Token::new(TokenType::Nil, "nil".to_string(), None, 1));
    assert_eq!(
        scanner.try_scan_tokens(),
        Err(ScannerError::InvalidCharacter('@'))
    );
    assert_eq!(
        scanner.tokens,
        vec![Token::new(TokenType::Nil, "nil".to_string(), None, 1)]
    );
}

#[test]
fn source_is_scanned_in_one_call() {
    let tokens = scan_source("print \"a\" + 1.25;").unwrap();
    assert_eq!(
        kinds(&tokens),
        vec![
            TokenType::Print,
            TokenType::String,
            TokenType::Plus,
            TokenType::Number,
            TokenType::SemiColon,
            TokenType::EndOfSource,
        ]
    );
    assert_eq!(text(&tokens[1]), "a");
    assert_eq!(number(&tokens[3]), 1.25);
    assert_eq!(scan_source("1 ? 2"), Err(ScannerError::InvalidCharacter('?')));
    assert_eq!(scan_source("\"a\nb"), Err(ScannerError::UnterminatedString));
}

#[test]
fn sub_scanners_append_one_token() {
    let mut scanner = Scanner::new("12.75x while_ \"q\"");
    scanner.advance();
    scanner.number(1);
    assert_eq!(scanner.current, 5);
    assert_eq!(scanner.tokens.len(), 1);
    assert_eq!(number(&scanner.tokens[0]), 12.75);
    scanner.start = scanner.current;
    scanner.advance();
    scanner.identifier(1);
    assert_eq!(scanner.tokens[1].lexeme, "x");
    scanner.advance();
    scanner.start = scanner.current;
    scanner.advance();
    scanner.identifier(1);
    assert_eq!(scanner.tokens[2].lexeme, "while_");
    assert_eq!(scanner.tokens[2].token_type, TokenType::Identifier);
    scanner.advance();
    scanner.start = scanner.current;
    scanner.advance();
    assert_eq!(scanner.string(1), Ok(()));
    assert_eq!(text(&scanner.tokens[3]), "q");
    assert!(scanner.is_at_end());
    scanner.start = scanner.current;
    scanner.add_token(TokenType::EndOfSource, None, 9);
    assert_eq!(
        scanner.tokens[4],
        Token::new(TokenType::EndOfSource, String::new(), None, 9)
    );
}
