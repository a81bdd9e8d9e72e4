use rslexer::{tokenize, Lexer, TextSpan, Token, TokenKind};

fn kinds(input: &str) -> Vec<TokenKind> {
    tokenize(input).into_iter().map(|t| match t.kind() {
        TokenKind::Integer(v) => TokenKind::Integer(*v),
        TokenKind::Plus => TokenKind::Plus,
        TokenKind::Minus => TokenKind::Minus,
        TokenKind::Equals => TokenKind::Equals,
        TokenKind::Whitespace => TokenKind::Whitespace,
        TokenKind::EOF => TokenKind::EOF,
        TokenKind::Bad => TokenKind::Bad,
    }).collect()
}

fn span_of(t: &Token) -> (usize, usize, String) {
    let s = t.span();
    (s.start(), s.end(), s.literal().to_string())
}

#[test]
fn digit_run_is_one_integer() {
    let mut lexer = Lexer::new("12345");
    let t = lexer.scan_for_token().unwrap();
    assert_eq!(t.kind(), &TokenKind::Integer(12345));
    let eof = lexer.scan_for_token().unwrap();
    assert_eq!(eof.kind(), &TokenKind::EOF);
    assert_eq!(kinds("0"), vec![TokenKind::Integer(0), TokenKind::EOF]);
    assert_eq!(kinds("007"), vec![TokenKind::Integer(7), TokenKind::EOF]);
}

#[test]
fn largest_i64_is_read_exactly() {
    assert_eq!(
        kinds("9223372036854775807"),
        vec![TokenKind::Integer(i64::MAX), TokenKind::EOF]
    );
}

#[test]
fn integer_overflow_wraps() {
    assert_eq!(
        kinds("9223372036854775808"),
        vec![TokenKind::Integer(i64::MIN), TokenKind::EOF]
    );
    assert_eq!(kinds("18446744073709551616"), vec![TokenKind::Integer(0), TokenKind::EOF]);
    assert_eq!(kinds("18446744073709551617"), vec![TokenKind::Integer(1), TokenKind::EOF]);
}

#[test]
fn seven_plus_eight() {
    assert_eq!(
        kinds("7 + 8"),
        vec![
            TokenKind::Integer(7),
            TokenKind::Whitespace,
            TokenKind::Plus,
            TokenKind::Whitespace,
            TokenKind::Integer(8),
            TokenKind::EOF,
        ]
    );
    let spans: Vec<(usize, usize, String)> = tokenize("7 + 8").iter().map(span_of).collect();
    assert_eq!(
        spans,
        vec![
            (0, 1, "7".to_string()),
            (1, 2, " ".to_string()),
            (2, 3, "+".to_string()),
            (3, 4, " ".to_string()),
            (4, 5, "8".to_string()),
            (0, 0, "\0".to_string()),
        ]
    );
}

#[test]
fn empty_input_is_end_of_input() {
    let mut lexer = Lexer::new("");
    let t = lexer.scan_for_token().unwrap();
    assert_eq!(t.kind(), &TokenKind::EOF);
    assert_eq!(span_of(&t), (0, 0, "\0".to_string()));
    assert_eq!(tokenize("").len(), 1);
}

#[test]
fn end_of_input_repeats() {
    let mut lexer = Lexer::new("1");
    assert_eq!(lexer.scan_for_token().unwrap().kind(), &TokenKind::Integer(1));
    for _ in 0..3 {
        let t = lexer.scan_for_token().unwrap();
        assert_eq!(t.kind(), &TokenKind::EOF);
        assert_eq!(span_of(&t), (0, 0, "\0".to_string()));
    }
}

#[test]
fn punctuation_run_takes_last_kind() {
    let mut lexer = Lexer::new("+-");
    let t = lexer.scan_for_token().unwrap();
    assert_eq!(t.kind(), &TokenKind::Minus);
    assert_eq!(lexer.scan_for_token().unwrap().kind(), &TokenKind::EOF);
    assert_eq!(kinds("-+"), vec![TokenKind::Plus, TokenKind::EOF]);
    assert_eq!(kinds("+=-="), vec![TokenKind::Equals, TokenKind::EOF]);
}

#[test]
fn single_punctuation_kinds() {
    assert_eq!(
        kinds("1+2-3=4"),
        vec![
            TokenKind::Integer(1),
            TokenKind::Plus,
            TokenKind::Integer(2),
            TokenKind::Minus,
            TokenKind::Integer(3),
            TokenKind::Equals,
            TokenKind::Integer(4),
            TokenKind::EOF,
        ]
    );
}

#[test]
fn minus_is_not_folded_into_number() {
    assert_eq!(kinds("-5"), vec![TokenKind::Minus, TokenKind::Integer(5), TokenKind::EOF]);
}

#[test]
fn invalid_character_is_one_bad_token() {
    let mut lexer = Lexer::new("@");
    let t = lexer.scan_for_token().unwrap();
    assert_eq!(t.kind(), &TokenKind::Bad);
    assert_eq!(span_of(&t), (0, 1, "@".to_string()));
    assert_eq!(lexer.scan_for_token().unwrap().kind(), &TokenKind::EOF);
    assert_eq!(kinds("@@"), vec![TokenKind::Bad, TokenKind::Bad, TokenKind::EOF]);
}

#[test]
fn whitespace_is_one_character_at_a_time() {
    assert_eq!(
        kinds("  \t\n"),
        vec![
            TokenKind::Whitespace,
            TokenKind::Whitespace,
            TokenKind::Whitespace,
            TokenKind::Whitespace,
            TokenKind::EOF,
        ]
    );
}

#[test]
fn unicode_whitespace_is_whitespace() {
    assert_eq!(
        kinds("\u{a0}\u{3000}\u{2028}"),
        vec![TokenKind::Whitespace, TokenKind::Whitespace, TokenKind::Whitespace, TokenKind::EOF]
    );
    assert_eq!(kinds("\u{200b}"), vec![TokenKind::Bad, TokenKind::EOF]);
    assert_eq!(kinds("x"), vec![TokenKind::Bad, TokenKind::EOF]);
}

#[test]
fn fresh_lexers_agree() {
    let input = "12 +- @ 3=";
    let a: Vec<(usize, usize, String)> = tokenize(input).iter().map(span_of).collect();
    let b: Vec<(usize, usize, String)> = tokenize(input).iter().map(span_of).collect();
    assert_eq!(kinds(input), kinds(input));
    assert_eq!(a, b);
    let mut lexer = Lexer::new(input);
    let mut c = Vec::new();
    loop {
        let t = lexer.scan_for_token().unwrap();
        let eof = t.kind() == &TokenKind::EOF;
        c.push(span_of(&t));
        if eof {
            break;
        }
    }
    assert_eq!(a, c);
}

#[test]
fn run_span_covers_one_position() {
    let toks = tokenize("12+34");
    let spans: Vec<(usize, usize, String)> = toks.iter().map(span_of).collect();
    assert_eq!(
        spans,
        vec![
            (0, 1, "1".to_string()),
            (1, 2, "2".to_string()),
            (2, 3, "+".to_string()),
            (0, 0, "\0".to_string()),
        ]
    );
    assert_eq!(
        kinds("12+34"),
        vec![TokenKind::Integer(12), TokenKind::Plus, TokenKind::Integer(34), TokenKind::EOF]
    );
    let mut lexer = Lexer::new("+-=");
    let t = lexer.scan_for_token().unwrap();
    assert_eq!(span_of(&t), (0, 1, "+".to_string()));
    assert_eq!(t.kind(), &TokenKind::Equals);
}

#[test]
fn literal_counts_characters() {
    assert_eq!(
        tokenize("é1").iter().map(span_of).collect::<Vec<_>>(),
        vec![(0, 1, "é".to_string()), (1, 2, "1".to_string()), (0, 0, "\0".to_string())]
    );
}

#[test]
fn text_span_length_and_fields() {
    let s = TextSpan::new(3, 7, "abcd".to_string());
    assert_eq!(s.length(), 4);
    assert_eq!(s.start(), 3);
    assert_eq!(s.end(), 7);
    assert_eq!(s.literal(), "abcd");
    assert_eq!(TextSpan::new(0, 0, "\0".to_string()).length(), 0);
}

#[test]
fn token_new_keeps_parts() {
    let t = Token::new(TokenKind::Integer(-4), TextSpan::new(1, 2, "x".to_string()));
    assert_eq!(t.kind(), &TokenKind::Integer(-4));
    assert_eq!(span_of(&t), (1, 2, "x".to_string()));
}
